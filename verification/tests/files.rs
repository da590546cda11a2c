use id3::TagLike;
use std::io::Write;
use std::path::Path;
use taggie::{AudioFile, FileError, ScanEntry, UpdateError};

const HEADER: &str = "Title\tArtist\t(Remove all lines to abort the update)";

fn place_file(dir: &Path, name: &str, bytes: &[u8]) -> String {
    let dest = dir.join(name);
    let mut f = tempfile::Builder::new().tempfile_in(dir).unwrap();
    f.write_all(bytes).unwrap();
    f.persist(&dest).unwrap();
    dest.to_str().unwrap().to_string()
}

fn make_mp3(dir: &Path, name: &str, title: &str, artist: &str) -> String {
    let path = place_file(dir, name, b"");
    let mut tag = id3::Tag::new();
    tag.set_title(title);
    tag.set_artist(artist);
    tag.write_to_path(&path, id3::Version::Id3v24).unwrap();
    path
}

fn entry(path: &str) -> ScanEntry {
    ScanEntry { path: path.to_string(), is_regular_file: true }
}

/// Lays down a minimal MPEG-4 audio container (`ftyp` and `moov`/`mvhd`
/// atoms) and writes the given fields into it with the codec itself.
fn make_m4a(dir: &Path, name: &str, title: &str, artist: &str) -> String {
    let mut bytes: Vec<u8> = Vec::new();
    bytes.extend_from_slice(&12u32.to_be_bytes());
    bytes.extend_from_slice(b"ftyp");
    bytes.extend_from_slice(b"M4A ");
    bytes.extend_from_slice(&116u32.to_be_bytes());
    bytes.extend_from_slice(b"moov");
    bytes.extend_from_slice(&108u32.to_be_bytes());
    bytes.extend_from_slice(b"mvhd");
    let mut content = [0u8; 100];
    content[12..16].copy_from_slice(&1000u32.to_be_bytes());
    bytes.extend_from_slice(&content);
    bytes.extend_from_slice(&8u32.to_be_bytes());
    bytes.extend_from_slice(b"mdat");
    let path = place_file(dir, name, &bytes);
    let mut tag = mp4ameta::Tag::read_from_path(&path).unwrap();
    tag.set_title(title);
    tag.set_artist(artist);
    tag.userdata.write_to_path(&path).unwrap();
    path
}

#[test]
fn m4a_tags_update_from_their_line() {
    let dir = tempfile::tempdir().unwrap();
    let b = make_m4a(dir.path(), "b.m4a", "", "Y");
    let (mut files, skipped) = AudioFile::from_entries(&vec![entry(&b)]);
    assert_eq!(files.len(), 1);
    assert_eq!(skipped.len(), 0);
    assert_eq!(files[0].tag.fields.artist.as_deref(), Some("Y"));
    let content = format!("{}\nNew\tY\n", HEADER);
    let r = AudioFile::update_tags_from_edited_content(&mut files, &content);
    assert!(r.is_ok());
    let tb = mp4ameta::Tag::read_from_path(&b).unwrap();
    assert_eq!(tb.title(), Some("New"));
    assert_eq!(tb.artist(), Some("Y"));
}

#[test]
fn reads_written_tags_back() {
    let dir = tempfile::tempdir().unwrap();
    let path = make_mp3(dir.path(), "song.mp3", "So Long", "Me");
    let record = taggie::read_from_path(&path).unwrap();
    assert_eq!(record.fields.title.as_deref(), Some("So Long"));
    assert_eq!(record.fields.artist.as_deref(), Some("Me"));
    assert_eq!(record.fields.album, None);
}

#[test]
fn round_trip_leaves_tags_unchanged() {
    let dir = tempfile::tempdir().unwrap();
    let a = make_mp3(dir.path(), "a.mp3", "Old", "X");
    let b = make_mp3(dir.path(), "b.mp3", "", "Y");
    let (mut files, skipped) = AudioFile::from_entries(&vec![entry(&a), entry(&b)]);
    assert_eq!(files.len(), 2);
    assert_eq!(skipped.len(), 0);
    let doc = AudioFile::collection_to_editable_content(&files);
    let r = AudioFile::update_tags_from_edited_content(&mut files, &doc);
    assert!(r.is_ok());
    let ta = id3::Tag::read_from_path(&a).unwrap();
    assert_eq!(ta.title(), Some("Old"));
    assert_eq!(ta.artist(), Some("X"));
    assert_eq!(ta.album(), None);
    let tb = id3::Tag::read_from_path(&b).unwrap();
    assert_eq!(tb.title(), Some(""));
    assert_eq!(tb.artist(), Some("Y"));
}

#[test]
fn updates_each_file_from_its_own_line() {
    let dir = tempfile::tempdir().unwrap();
    let a = make_mp3(dir.path(), "a.mp3", "Old", "X");
    let b = make_mp3(dir.path(), "b.mp3", "", "Y");
    let c = make_mp3(dir.path(), "c.mp3", "Z", "");
    let before_a = id3::Tag::read_from_path(&a).unwrap();
    let before_c = id3::Tag::read_from_path(&c).unwrap();
    let (mut files, _) = AudioFile::from_entries(&vec![entry(&a), entry(&b), entry(&c)]);
    assert_eq!(files.len(), 3);
    let content = format!("{}\nOld\tX\nNew\tY\nZ\t\n", HEADER);
    let r = AudioFile::update_tags_from_edited_content(&mut files, &content);
    assert!(r.is_ok());
    let tb = id3::Tag::read_from_path(&b).unwrap();
    assert_eq!(tb.title(), Some("New"));
    assert_eq!(tb.artist(), Some("Y"));
    // The files whose lines were left alone keep their tag content exactly.
    assert_eq!(id3::Tag::read_from_path(&a).unwrap(), before_a);
    assert_eq!(id3::Tag::read_from_path(&c).unwrap(), before_c);
}

#[test]
fn stops_at_the_first_malformed_line() {
    let dir = tempfile::tempdir().unwrap();
    let a = make_mp3(dir.path(), "a.mp3", "Old", "X");
    let b = make_mp3(dir.path(), "b.mp3", "Mid", "Y");
    let c = make_mp3(dir.path(), "c.mp3", "Z", "W");
    let before_b = id3::Tag::read_from_path(&b).unwrap();
    let before_c = id3::Tag::read_from_path(&c).unwrap();
    let (mut files, _) = AudioFile::from_entries(&vec![entry(&a), entry(&b), entry(&c)]);
    assert_eq!(files.len(), 3);
    let content = format!("{}\nNew A\tAA\nbroken line\nNew C\tCC\n", HEADER);
    let r = AudioFile::update_tags_from_edited_content(&mut files, &content);
    match r {
        Err(UpdateError::InvalidLine(line)) => assert_eq!(line, "broken line"),
        other => panic!("expected an invalid line, got {:?}", other),
    }
    // The file before the malformed line was written.
    let ta = id3::Tag::read_from_path(&a).unwrap();
    assert_eq!(ta.title(), Some("New A"));
    assert_eq!(ta.artist(), Some("AA"));
    // The file at the malformed line and the one after it are untouched.
    assert_eq!(id3::Tag::read_from_path(&b).unwrap(), before_b);
    assert_eq!(id3::Tag::read_from_path(&c).unwrap(), before_c);
}

#[test]
fn three_files_scenario() {
    let dir = tempfile::tempdir().unwrap();
    let a = make_mp3(dir.path(), "a.mp3", "Old", "X");
    let b = make_m4a(dir.path(), "b.m4a", "", "Y");
    let c = make_mp3(dir.path(), "c.mp3", "Z", "");
    let before_a = id3::Tag::read_from_path(&a).unwrap();
    let before_c = id3::Tag::read_from_path(&c).unwrap();
    let (mut files, skipped) = AudioFile::from_entries(&vec![entry(&a), entry(&b), entry(&c)]);
    assert_eq!(files.len(), 3);
    assert_eq!(skipped.len(), 0);
    let doc = AudioFile::collection_to_editable_content(&files);
    assert_eq!(doc, format!("{}\nOld\tX\n\tY\nZ\t\n", HEADER));
    let edited = format!("{}\nOld\tX\nNew\tY\nZ\t\n", HEADER);
    let r = AudioFile::update_tags_from_edited_content(&mut files, &edited);
    assert!(r.is_ok());
    let tb = mp4ameta::Tag::read_from_path(&b).unwrap();
    assert_eq!(tb.title(), Some("New"));
    assert_eq!(tb.artist(), Some("Y"));
    // The two files whose lines were left alone keep their tag content.
    assert_eq!(id3::Tag::read_from_path(&a).unwrap(), before_a);
    assert_eq!(id3::Tag::read_from_path(&c).unwrap(), before_c);
}

#[test]
fn discovery_keeps_only_readable_audio_files() {
    let dir = tempfile::tempdir().unwrap();
    let good = make_mp3(dir.path(), "good.mp3", "T", "A");
    let text = place_file(dir.path(), "note.txt", b"just some text\n");
    let corrupt = place_file(dir.path(), "bad.m4a", b"this is not an mpeg-4 container");
    let not_a_file = dir.path().to_str().unwrap().to_string();
    let entries = vec![
        entry(&good),
        entry(&text),
        entry(&corrupt),
        ScanEntry { path: not_a_file.clone(), is_regular_file: false },
    ];
    let (kept, skipped) = AudioFile::from_entries(&entries);
    assert_eq!(kept.len(), 1);
    assert_eq!(kept[0].path, good);
    assert_eq!(kept[0].tag.fields.title.as_deref(), Some("T"));
    assert_eq!(skipped.len(), 3);
    assert_eq!(skipped[0].path, text);
    assert_eq!(skipped[0].reason, FileError::UnsupportedOrUnreadable);
    assert_eq!(skipped[1].path, corrupt);
    assert_eq!(skipped[1].reason, FileError::UnsupportedOrUnreadable);
    assert_eq!(skipped[2].path, not_a_file);
    assert_eq!(skipped[2].reason, FileError::NotAFile);
}

#[test]
fn accepts_carriage_return_line_endings() {
    let dir = tempfile::tempdir().unwrap();
    let a = make_mp3(dir.path(), "a.mp3", "Old", "X");
    let (mut files, _) = AudioFile::from_entries(&vec![entry(&a)]);
    let content = format!("{}\r\nNew\tY\r\n", HEADER);
    let r = AudioFile::update_tags_from_edited_content(&mut files, &content);
    assert!(r.is_ok());
    let ta = id3::Tag::read_from_path(&a).unwrap();
    assert_eq!(ta.title(), Some("New"));
    assert_eq!(ta.artist(), Some("Y"));
}

#[test]
fn rejects_paths_that_are_not_regular_files() {
    let r = AudioFile::new("anything.mp3".to_string(), false);
    match r {
        Err(e) => assert_eq!(e, FileError::NotAFile),
        Ok(_) => panic!("expected the path to be rejected"),
    }
}

#[test]
fn rejects_unknown_extensions_without_touching_the_disk() {
    let r = AudioFile::new("nowhere/readme.txt".to_string(), true);
    match r {
        Err(e) => assert_eq!(e, FileError::UnsupportedOrUnreadable),
        Ok(_) => panic!("expected the extension to be rejected"),
    }
}

#[test]
fn extension_matching_is_case_insensitive() {
    let dir = tempfile::tempdir().unwrap();
    let loud = make_mp3(dir.path(), "LOUD.MP3", "T", "A");
    let r = AudioFile::new(loud, true);
    assert!(r.is_ok());
}
