use crate::document::{body_chars, row_chars};
use crate::text::{
    find_last, last_index_of, lower_chars, str_eq, to_ascii_lowercase,
};
use id3::TagLike;
use vstd::prelude::*;

verus! {

// ----------------------------------------------------------------------------
// The outside codec types
// ----------------------------------------------------------------------------

#[verifier::external_type_specification]
#[verifier::external_body]
pub struct ExId3Tag(id3::Tag);

#[verifier::external_type_specification]
#[verifier::external_body]
pub struct ExId3Error(id3::Error);

#[verifier::external_type_specification]
#[verifier::external_body]
pub struct ExMp4Tag(mp4ameta::Tag);

#[verifier::external_type_specification]
#[verifier::external_body]
pub struct ExMp4Error(mp4ameta::Error);

/// The parsed on-disk tag in its codec's own representation, kept so that a
/// write-back preserves everything the codec read, not only the three fields
/// this library edits.
pub enum CodecTag {
    Id3(id3::Tag),
    Mp4(mp4ameta::Tag),
}

/// A codec's error on writing a tag back to its file.
pub enum CodecError {
    Id3(id3::Error),
    Mp4(mp4ameta::Error),
}

/// The codec kind that a file extension selects.
#[derive(PartialEq, Eq, Structural, Clone, Copy, Debug)]
pub enum TagFormat {
    Id3,
    Mp4,
}

impl CodecTag {
    /// The codec kind of this representation.
    pub open spec fn format(&self) -> TagFormat {
        match self {
            CodecTag::Id3(_) => TagFormat::Id3,
            CodecTag::Mp4(_) => TagFormat::Mp4,
        }
    }
}

// ----------------------------------------------------------------------------
// The editable fields
// ----------------------------------------------------------------------------

/// The three editable fields of a tag, each independently present or absent.
pub struct TagFields {
    pub title: Option<String>,
    pub artist: Option<String>,
    pub album: Option<String>,
}

/// What the fields mean: the three texts, present or absent.
pub struct TagFieldsView {
    pub title: Option<Seq<char>>,
    pub artist: Option<Seq<char>>,
    pub album: Option<Seq<char>>,
}

impl View for TagFields {
    type V = TagFieldsView;

    open spec fn view(&self) -> TagFieldsView {
        TagFieldsView {
            title: match self.title {
                Some(s) => Some(s@),
                None => None,
            },
            artist: match self.artist {
                Some(s) => Some(s@),
                None => None,
            },
            album: match self.album {
                Some(s) => Some(s@),
                None => None,
            },
        }
    }
}

/// The text of an optional field as the document carries it: the empty text
/// stands in for an absent field.
pub open spec fn opt_chars(o: Option<Seq<char>>) -> Seq<char> {
    match o {
        Some(s) => s,
        None => Seq::empty(),
    }
}

/// A format-polymorphic tag record: the editable fields together with the
/// codec representation they were read from.
pub struct TagRecord {
    pub fields: TagFields,
    pub codec: CodecTag,
}

impl TagRecord {
    /// The title, if one is set.
    pub fn title(&self) -> (r: &Option<String>)
        ensures
            r == &self.fields.title,
    {
        &self.fields.title
    }

    /// The artist, if one is set.
    pub fn artist(&self) -> (r: &Option<String>)
        ensures
            r == &self.fields.artist,
    {
        &self.fields.artist
    }

    /// The album, if one is set.
    pub fn album(&self) -> (r: &Option<String>)
        ensures
            r == &self.fields.album,
    {
        &self.fields.album
    }

    /// Sets the title in memory; never fails.
    pub fn set_title(&mut self, title: String)
        ensures
            final(self).fields.title == Some(title),
            final(self).fields.artist == old(self).fields.artist,
            final(self).fields.album == old(self).fields.album,
            final(self).codec == old(self).codec,
    {
        self.fields.title = Some(title);
    }

    /// Sets the artist in memory; never fails.
    pub fn set_artist(&mut self, artist: String)
        ensures
            final(self).fields.artist == Some(artist),
            final(self).fields.title == old(self).fields.title,
            final(self).fields.album == old(self).fields.album,
            final(self).codec == old(self).codec,
    {
        self.fields.artist = Some(artist);
    }

    /// Sets the album in memory; never fails.
    pub fn set_album(&mut self, album: String)
        ensures
            final(self).fields.album == Some(album),
            final(self).fields.title == old(self).fields.title,
            final(self).fields.artist == old(self).fields.artist,
            final(self).codec == old(self).codec,
    {
        self.fields.album = Some(album);
    }

    /// Serializes the current in-memory fields back into the file at `path`.
    /// Whether this succeeds depends on the file on disk; the error names the
    /// codec that failed.
    pub fn write_to(&self, path: &String) -> (r: Result<(), CodecError>)
        ensures
            r is Err ==> match r->Err_0 {
                CodecError::Id3(_) => self.codec is Id3,
                CodecError::Mp4(_) => self.codec is Mp4,
            },
    {
        match &self.codec {
            CodecTag::Id3(t) => match write_id3(t, &self.fields, path) {
                Ok(()) => Ok(()),
                Err(e) => Err(CodecError::Id3(e)),
            },
            CodecTag::Mp4(t) => match write_mp4(t, &self.fields, path) {
                Ok(()) => Ok(()),
                Err(e) => Err(CodecError::Mp4(e)),
            },
        }
    }
}

// ----------------------------------------------------------------------------
// Codec calls, trusted against the codec crates' sources
// ----------------------------------------------------------------------------

/// Relies on `id3::Tag::read_from_path`, which parses the ID3 tag of the
/// file at `path`, and on `id3::TagLike::{title, artist, album}` to copy the
/// three fields out as owned strings; the parsed tag itself is kept beside
/// them.
#[verifier::external_body]
fn read_id3(path: &String) -> (r: Result<TagRecord, id3::Error>)
    ensures
        r is Ok ==> (r->Ok_0).codec is Id3,
{
    match id3::Tag::read_from_path(path) {
        Ok(tag) => Ok(TagRecord {
            fields: TagFields {
                title: tag.title().map(|s| s.to_string()),
                artist: tag.artist().map(|s| s.to_string()),
                album: tag.album().map(|s| s.to_string()),
            },
            codec: CodecTag::Id3(tag),
        }),
        Err(e) => Err(e),
    }
}

/// Relies on `mp4ameta::Tag::read_from_path`, which parses the MPEG-4 atoms
/// of the file at `path`, and on `mp4ameta::Userdata::{title, artist, album}`
/// to copy the three fields out as owned strings; the parsed tag itself is
/// kept beside them.
#[verifier::external_body]
fn read_mp4(path: &String) -> (r: Result<TagRecord, mp4ameta::Error>)
    ensures
        r is Ok ==> (r->Ok_0).codec is Mp4,
{
    match mp4ameta::Tag::read_from_path(path) {
        Ok(tag) => Ok(TagRecord {
            fields: TagFields {
                title: tag.title().map(|s| s.to_string()),
                artist: tag.artist().map(|s| s.to_string()),
                album: tag.album().map(|s| s.to_string()),
            },
            codec: CodecTag::Mp4(tag),
        }),
        Err(e) => Err(e),
    }
}

/// Relies on `id3::Tag::write_to_path`, with the tag's own version, to
/// persist a copy of `tag` whose title, artist and album were set or removed
/// from `fields` (via `id3::TagLike`); every other frame of `tag` is written
/// back as it was read.
#[verifier::external_body]
fn write_id3(tag: &id3::Tag, fields: &TagFields, path: &String) -> (r: Result<(), id3::Error>) {
    let mut t = tag.clone();
    match &fields.title {
        Some(s) => t.set_title(s.as_str()),
        None => t.remove_title(),
    }
    match &fields.artist {
        Some(s) => t.set_artist(s.as_str()),
        None => t.remove_artist(),
    }
    match &fields.album {
        Some(s) => t.set_album(s.as_str()),
        None => t.remove_album(),
    }
    let version = t.version();
    t.write_to_path(path, version)
}

/// Relies on `mp4ameta::Userdata::write_to_path` to persist a copy of the
/// tag's user data whose title, artist and album were set or removed from
/// `fields`; every other atom of `tag` is written back as it was read.
#[verifier::external_body]
fn write_mp4(tag: &mp4ameta::Tag, fields: &TagFields, path: &String) -> (r: Result<
    (),
    mp4ameta::Error,
>) {
    let mut u = tag.userdata.clone();
    match &fields.title {
        Some(s) => u.set_title(s.as_str()),
        None => u.remove_title(),
    }
    match &fields.artist {
        Some(s) => u.set_artist(s.as_str()),
        None => u.remove_artists(),
    }
    match &fields.album {
        Some(s) => u.set_album(s.as_str()),
        None => u.remove_album(),
    }
    u.write_to_path(path)
}

// ----------------------------------------------------------------------------
// Choosing a codec by file extension
// ----------------------------------------------------------------------------

/// Which codec claims a lowercased file extension: ID3 for `mp3`, MPEG-4
/// atoms for `m4a`, `m4b`, `m4p` and `m4v`; no other extension is known.
pub open spec fn spec_format_for(ext: Seq<char>) -> Option<TagFormat> {
    if ext == "mp3"@ {
        Some(TagFormat::Id3)
    } else if ext == "m4a"@ || ext == "m4b"@ || ext == "m4p"@ || ext == "m4v"@ {
        Some(TagFormat::Mp4)
    } else {
        None
    }
}

/// The codec claiming `ext`, already lowercased.
pub fn format_for_extension(ext: &str) -> (r: Option<TagFormat>)
    ensures
        r == spec_format_for(ext@),
{
    if str_eq(ext, "mp3") {
        Some(TagFormat::Id3)
    } else if str_eq(ext, "m4a") || str_eq(ext, "m4b") || str_eq(ext, "m4p") || str_eq(
        ext,
        "m4v",
    ) {
        Some(TagFormat::Mp4)
    } else {
        None
    }
}

/// The extension of a path: what follows the last dot of the last path
/// component, when that dot is neither the component's first character nor
/// missing; empty otherwise.
pub open spec fn spec_extension_of(p: Seq<char>) -> Seq<char> {
    let name = p.skip(last_index_of(p, '/') + 1);
    let d = last_index_of(name, '.');
    if d <= 0 {
        Seq::empty()
    } else {
        name.skip(d + 1)
    }
}

/// The extension of `path`, not yet lowercased.
pub fn extension_of(path: &str) -> (r: String)
    ensures
        r@ == spec_extension_of(path@),
{
    let n = path.unicode_len();
    let name_start: usize = match find_last(path, '/') {
        Some(k) => k + 1,
        None => 0,
    };
    let name = path.substring_char(name_start, n);
    proof {
        assert(name@ =~= path@.skip(last_index_of(path@, '/') + 1));
    }
    match find_last(name, '.') {
        None => String::new(),
        Some(0) => String::new(),
        Some(k) => name.substring_char(k + 1, name.unicode_len()).to_owned(),
    }
}

/// The full extension-based selection, as discovery applies it to a path:
/// the extension, lowercased, handed to the codec table.
pub open spec fn spec_format_of_path(p: Seq<char>) -> Option<TagFormat> {
    spec_format_for(lower_chars(spec_extension_of(p)))
}

/// Reads the tag of the file at `path`, choosing the codec by the path's
/// extension case-insensitively; `None` when no codec claims the extension
/// or when the claiming codec cannot parse the file.
pub fn read_from_path(path: &String) -> (r: Option<TagRecord>)
    ensures
        spec_format_of_path(path@) is None ==> r is None,
        r is Some ==> spec_format_of_path(path@) == Some((r->Some_0).codec.format()),
{
    let ext_raw = extension_of(path.as_str());
    let ext = to_ascii_lowercase(ext_raw.as_str());
    match format_for_extension(ext.as_str()) {
        Some(TagFormat::Id3) => match read_id3(path) {
            Ok(t) => Some(t),
            Err(_) => None,
        },
        Some(TagFormat::Mp4) => match read_mp4(path) {
            Ok(t) => Some(t),
            Err(_) => None,
        },
        None => None,
    }
}

// ----------------------------------------------------------------------------
// The flat listing of a set of tags
// ----------------------------------------------------------------------------

/// The row a record contributes to a document: its title and artist texts,
/// the empty text standing in for an absent field.
pub open spec fn row_of_fields(v: TagFieldsView) -> (Seq<char>, Seq<char>) {
    (opt_chars(v.title), opt_chars(v.artist))
}

/// The rows of a sequence of records.
pub open spec fn rows_of_records(rs: Seq<TagRecord>) -> Seq<(Seq<char>, Seq<char>)> {
    rs.map_values(|t: TagRecord| row_of_fields(t.fields@))
}

/// The plain listing of a set of tags: a short header, then one
/// tab-separated line per record.
pub open spec fn listing_chars(rows: Seq<(Seq<char>, Seq<char>)>) -> Seq<char> {
    "Title\tArtist"@ + seq!['\n'] + body_chars(rows)
}

/// One data line for a record's fields, terminated by a newline.
pub fn fields_line(fields: &TagFields) -> (r: String)
    ensures
        r@ == row_chars(opt_chars(fields@.title), opt_chars(fields@.artist)) + seq!['\n'],
{
    proof {
        reveal_strlit("\t");
        reveal_strlit("\n");
        assert("\t"@ =~= seq!['\t']);
        assert("\n"@ =~= seq!['\n']);
    }
    let mut line = match &fields.title {
        Some(t) => t.clone(),
        None => String::new(),
    };
    line.append("\t");
    match &fields.artist {
        Some(a) => line.append(a.as_str()),
        None => (),
    }
    line.append("\n");
    proof {
        assert(line@ =~= row_chars(opt_chars(fields@.title), opt_chars(fields@.artist))
            + seq!['\n']);
    }
    line
}

/// Grows a document body by one row.
pub proof fn lemma_body_chars_push(rows: Seq<(Seq<char>, Seq<char>)>, r: (Seq<char>, Seq<char>))
    ensures
        body_chars(rows.push(r)) == body_chars(rows) + row_chars(r.0, r.1) + seq!['\n'],
    decreases rows.len(),
{
    if rows.len() == 0 {
        assert(rows.push(r)[0] == r);
        assert(rows.push(r).drop_first() =~= Seq::<(Seq<char>, Seq<char>)>::empty());
        assert(body_chars(Seq::<(Seq<char>, Seq<char>)>::empty()) == Seq::<char>::empty());
        assert(body_chars(rows.push(r)) =~= body_chars(rows) + row_chars(r.0, r.1) + seq!['\n']);
    } else {
        assert(rows.push(r)[0] == rows[0]);
        assert(rows.push(r).drop_first() =~= rows.drop_first().push(r));
        lemma_body_chars_push(rows.drop_first(), r);
        assert(body_chars(rows.push(r)) =~= body_chars(rows) + row_chars(r.0, r.1) + seq!['\n']);
    }
}

/// Renders the plain tag listing for the given records: the header line
/// `Title<TAB>Artist`, then one `title<TAB>artist` line per record, in
/// order, the empty text standing in for an absent field.
pub fn get_list_of_tags(records: &Vec<TagRecord>) -> (r: String)
    ensures
        r@ == listing_chars(rows_of_records(records@)),
{
    proof {
        reveal_strlit("\n");
        assert("\n"@ =~= seq!['\n']);
    }
    let mut out = String::from_str("Title\tArtist");
    out.append("\n");
    let mut i: usize = 0;
    proof {
        assert(rows_of_records(records@.take(0)) =~= Seq::<(Seq<char>, Seq<char>)>::empty());
        assert(out@ =~= listing_chars(rows_of_records(records@.take(0))));
    }
    while i < records.len()
        invariant
            i <= records@.len(),
            out@ == listing_chars(rows_of_records(records@.take(i as int))),
        decreases records@.len() - i,
    {
        let line = fields_line(&records[i].fields);
        out.append(line.as_str());
        proof {
            let rows = rows_of_records(records@.take(i as int));
            let row = row_of_fields(records@[i as int].fields@);
            lemma_body_chars_push(rows, row);
            assert(rows_of_records(records@.take(i + 1)) =~= rows.push(row));
            assert(out@ =~= listing_chars(rows_of_records(records@.take(i + 1))));
        }
        i += 1;
    }
    proof {
        assert(records@.take(records@.len() as int) =~= records@);
    }
    out
}

} // verus!
