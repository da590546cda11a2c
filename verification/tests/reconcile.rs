use taggie::{AudioFile, CodecTag, TagFields, TagRecord, UpdateError};

fn handle(path: &str, title: Option<&str>, artist: Option<&str>) -> AudioFile {
    AudioFile {
        path: path.to_string(),
        tag: TagRecord {
            fields: TagFields {
                title: title.map(|s| s.to_string()),
                artist: artist.map(|s| s.to_string()),
                album: None,
            },
            codec: CodecTag::Id3(id3::Tag::new()),
        },
    }
}

const HEADER: &str = "Title\tArtist\t(Remove all lines to abort the update)";

#[test]
fn aborts_on_empty_document() {
    let mut files = vec![handle("a.mp3", Some("Old"), Some("X"))];
    let r = AudioFile::update_tags_from_edited_content(&mut files, "");
    assert!(matches!(r, Err(UpdateError::UpdateAborted)));
    assert_eq!(files[0].tag.fields.title.as_deref(), Some("Old"));
    assert_eq!(files[0].tag.fields.artist.as_deref(), Some("X"));
}

#[test]
fn aborts_on_whitespace_only_document() {
    let mut files = vec![
        handle("a.mp3", Some("Old"), Some("X")),
        handle("b.mp3", None, None),
    ];
    let r = AudioFile::update_tags_from_edited_content(&mut files, " \t \n\n  \r\n ");
    assert!(matches!(r, Err(UpdateError::UpdateAborted)));
    assert_eq!(files[0].tag.fields.title.as_deref(), Some("Old"));
    assert_eq!(files[1].tag.fields.title, None);
}

#[test]
fn rejects_deleted_data_lines_with_counts() {
    let mut files = vec![
        handle("a.mp3", Some("Old"), Some("X")),
        handle("b.mp3", Some(""), Some("Y")),
        handle("c.mp3", Some("Z"), Some("")),
    ];
    let content = format!("{}\n", HEADER);
    let r = AudioFile::update_tags_from_edited_content(&mut files, &content);
    match r {
        Err(UpdateError::LineCountMismatch { number_of_files, number_of_lines }) => {
            assert_eq!(number_of_files, 3);
            assert_eq!(number_of_lines, 0);
        }
        other => panic!("expected a line count mismatch, got {:?}", other),
    }
    assert_eq!(files[0].tag.fields.title.as_deref(), Some("Old"));
    assert_eq!(files[2].tag.fields.artist.as_deref(), Some(""));
}

#[test]
fn rejects_extra_data_lines_with_counts() {
    let mut files = vec![handle("a.mp3", Some("Old"), Some("X"))];
    let content = format!("{}\nA\tB\nC\tD\n", HEADER);
    let r = AudioFile::update_tags_from_edited_content(&mut files, &content);
    match r {
        Err(UpdateError::LineCountMismatch { number_of_files, number_of_lines }) => {
            assert_eq!(number_of_files, 1);
            assert_eq!(number_of_lines, 2);
        }
        other => panic!("expected a line count mismatch, got {:?}", other),
    }
    assert_eq!(files[0].tag.fields.title.as_deref(), Some("Old"));
}

#[test]
fn rejects_first_line_without_tab() {
    let mut files = vec![handle("a.mp3", Some("Old"), Some("X"))];
    let content = format!("{}\nno separator here\n", HEADER);
    let r = AudioFile::update_tags_from_edited_content(&mut files, &content);
    match r {
        Err(UpdateError::InvalidLine(line)) => assert_eq!(line, "no separator here"),
        other => panic!("expected an invalid line, got {:?}", other),
    }
    assert_eq!(files[0].tag.fields.title.as_deref(), Some("Old"));
    assert_eq!(files[0].tag.fields.artist.as_deref(), Some("X"));
}

#[test]
fn rejects_first_line_with_two_tabs() {
    let mut files = vec![handle("a.mp3", Some("Old"), Some("X"))];
    let content = format!("{}\na\tb\tc\n", HEADER);
    let r = AudioFile::update_tags_from_edited_content(&mut files, &content);
    match r {
        Err(UpdateError::InvalidLine(line)) => assert_eq!(line, "a\tb\tc"),
        other => panic!("expected an invalid line, got {:?}", other),
    }
    assert_eq!(files[0].tag.fields.title.as_deref(), Some("Old"));
}

#[test]
fn write_failure_names_the_path_and_keeps_fields_in_memory() {
    let mut files = vec![handle("missing-dir/q.mp3", Some("Old"), Some("X"))];
    let content = format!("{}\nNew\tArtist\n", HEADER);
    let r = AudioFile::update_tags_from_edited_content(&mut files, &content);
    match r {
        Err(UpdateError::WriteFailed(path)) => assert_eq!(path, "missing-dir/q.mp3"),
        other => panic!("expected a failed write, got {:?}", other),
    }
    assert_eq!(files[0].tag.fields.title.as_deref(), Some("New"));
    assert_eq!(files[0].tag.fields.artist.as_deref(), Some("Artist"));
}

#[test]
fn a_lone_carriage_return_does_not_abort() {
    // A document holding only newlines and spaces is blank; one with any
    // other character is not, and falls through to the count check.
    let mut files = vec![handle("a.mp3", Some("Old"), Some("X"))];
    let r = AudioFile::update_tags_from_edited_content(&mut files, "x");
    assert!(matches!(
        r,
        Err(UpdateError::LineCountMismatch { number_of_files: 1, number_of_lines: 0 })
    ));
}
