use taggie::{AudioFile, CodecTag, TagFields, TagRecord, UpdateError};

fn mp3_record(title: Option<&str>, artist: Option<&str>, album: Option<&str>) -> TagRecord {
    TagRecord {
        fields: TagFields {
            title: title.map(|s| s.to_string()),
            artist: artist.map(|s| s.to_string()),
            album: album.map(|s| s.to_string()),
        },
        codec: CodecTag::Id3(id3::Tag::new()),
    }
}

fn m4a_record(title: Option<&str>, artist: Option<&str>, album: Option<&str>) -> TagRecord {
    TagRecord {
        fields: TagFields {
            title: title.map(|s| s.to_string()),
            artist: artist.map(|s| s.to_string()),
            album: album.map(|s| s.to_string()),
        },
        codec: CodecTag::Mp4(mp4ameta::Tag::default()),
    }
}

fn handle(path: &str, tag: TagRecord) -> AudioFile {
    AudioFile { path: path.to_string(), tag }
}

#[test]
fn serializes_three_files_in_order() {
    let files = vec![
        handle("a.mp3", mp3_record(Some("Old"), Some("X"), None)),
        handle("b.m4a", m4a_record(Some(""), Some("Y"), None)),
        handle("c.mp3", mp3_record(Some("Z"), Some(""), None)),
    ];
    let doc = AudioFile::collection_to_editable_content(&files);
    assert_eq!(
        doc,
        "Title\tArtist\t(Remove all lines to abort the update)\nOld\tX\n\tY\nZ\t\n"
    );
}

#[test]
fn serializes_absent_fields_as_empty() {
    let files = vec![handle("a.mp3", mp3_record(None, None, None))];
    let doc = AudioFile::collection_to_editable_content(&files);
    assert_eq!(doc, "Title\tArtist\t(Remove all lines to abort the update)\n\t\n");
}

#[test]
fn serializes_empty_collection_as_header_only() {
    let files: Vec<AudioFile> = Vec::new();
    let doc = AudioFile::collection_to_editable_content(&files);
    assert_eq!(doc, "Title\tArtist\t(Remove all lines to abort the update)\n");
}

#[test]
fn one_line_per_file() {
    let f = handle("a.mp3", mp3_record(Some("So Long"), Some("Me & You"), Some("LP")));
    assert_eq!(f.to_editable_content_line(), "So Long\tMe & You\n");
}

#[test]
fn lists_tags_with_short_header() {
    let records = vec![
        mp3_record(Some("Old"), Some("X"), None),
        m4a_record(None, Some("Y"), None),
    ];
    let listing = taggie::get_list_of_tags(&records);
    assert_eq!(listing, "Title\tArtist\nOld\tX\n\tY\n");
}

#[test]
fn pluralize_picks_the_right_form() {
    assert_eq!(taggie::pluralize(0, "file", "files"), "0 files");
    assert_eq!(taggie::pluralize(1, "file", "files"), "1 file");
    assert_eq!(taggie::pluralize(2, "line", "lines"), "2 lines");
    assert_eq!(taggie::pluralize(1234, "line", "lines"), "1234 lines");
}

#[test]
fn update_aborted_message() {
    assert_eq!(UpdateError::UpdateAborted.message(), "Update aborted");
}

#[test]
fn line_count_mismatch_message_pluralizes_both_counts() {
    let e = UpdateError::LineCountMismatch { number_of_files: 3, number_of_lines: 0 };
    assert_eq!(
        e.message(),
        "Found 3 files, so expected 3 lines, but found only 0 lines"
    );
    let e = UpdateError::LineCountMismatch { number_of_files: 1, number_of_lines: 2 };
    assert_eq!(
        e.message(),
        "Found 1 file, so expected 1 line, but found only 2 lines"
    );
}

#[test]
fn invalid_line_message_makes_tabs_visible() {
    let e = UpdateError::InvalidLine("a\tb\tc".to_string());
    assert_eq!(
        e.message(),
        "Expected the line to have format\n\n\t`title<TAB>artist`\n\nbut found this instead:\n\n\ta<TAB>b<TAB>c"
    );
}

#[test]
fn write_failed_message_names_the_path() {
    let e = UpdateError::WriteFailed("x/y.mp3".to_string());
    assert_eq!(e.message(), "Failed to save updated tags to file x/y.mp3");
}
