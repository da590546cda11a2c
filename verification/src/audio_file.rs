use crate::document::{
    data_lines, document_chars, first_malformed, lemma_first_malformed,
    lemma_nonblank_has_lines, reconcile_plan, row_chars, spec_lines, split_lines, split_row,
    split_row_str,
};
use crate::errors::{FileError, UpdateError};
use crate::tag::{fields_line, opt_chars, read_from_path, spec_format_of_path, TagRecord};
use crate::text::{is_blank, is_blank_str};
use vstd::prelude::*;

verus! {

/// One discovered audio file: a path bound to its tag record, owned
/// exclusively for the session.
pub struct AudioFile {
    pub path: String,
    pub tag: TagRecord,
}

/// The row a file contributes to the editable document: its title and artist
/// texts, the empty text standing in for an absent field.
pub open spec fn row_of(f: AudioFile) -> (Seq<char>, Seq<char>) {
    (opt_chars(f.tag.fields@.title), opt_chars(f.tag.fields@.artist))
}

/// The rows of a collection, in collection order.
pub open spec fn rows_of(files: Seq<AudioFile>) -> Seq<(Seq<char>, Seq<char>)> {
    files.map_values(|f: AudioFile| row_of(f))
}

/// Record `new_f` is record `old_f` with the two fields of `row` set; its
/// path, codec representation and album are untouched.
pub open spec fn applies_row(old_f: AudioFile, new_f: AudioFile, row: (Seq<char>, Seq<char>)) -> bool {
    &&& new_f.path == old_f.path
    &&& new_f.tag.codec == old_f.tag.codec
    &&& new_f.tag.fields@.album == old_f.tag.fields@.album
    &&& new_f.tag.fields@.title == Some(row.0)
    &&& new_f.tag.fields@.artist == Some(row.1)
}

/// The first `k` records hold the fields of their data lines; the records
/// from `k` on are untouched.
pub open spec fn updated_up_to(
    olds: Seq<AudioFile>,
    news: Seq<AudioFile>,
    data: Seq<Seq<char>>,
    k: int,
) -> bool {
    &&& news.len() == olds.len()
    &&& forall|i: int|
        0 <= i < k ==> applies_row(olds[i], #[trigger] news[i], split_row(data[i])->Some_0)
    &&& forall|i: int| k <= i < olds.len() ==> #[trigger] news[i] == olds[i]
}

/// One directory entry as the caller saw it: its path, and whether its
/// metadata marks it a regular file.
pub struct ScanEntry {
    pub path: String,
    pub is_regular_file: bool,
}

/// An entry that yielded no handle, with the reason it was skipped.
pub struct SkippedEntry {
    pub path: String,
    pub reason: FileError,
}

impl AudioFile {
    /// Binds `path` to its tag record. `is_regular_file` is what the caller
    /// learned from the path's metadata; a path that is no regular file is
    /// rejected before any codec sees it, and a path whose extension no codec
    /// claims, or whose tag the claiming codec cannot parse, is rejected as
    /// unsupported or unreadable.
    pub fn new(path: String, is_regular_file: bool) -> (r: Result<AudioFile, FileError>)
        ensures
            !is_regular_file ==> r == Err::<AudioFile, FileError>(FileError::NotAFile),
            is_regular_file && spec_format_of_path(path@) is None ==> r == Err::<
                AudioFile,
                FileError,
            >(FileError::UnsupportedOrUnreadable),
            r is Err ==> ((r->Err_0 == FileError::NotAFile) <==> !is_regular_file),
            r is Ok ==> {
                &&& is_regular_file
                &&& (r->Ok_0).path == path
                &&& spec_format_of_path(path@) == Some((r->Ok_0).tag.codec.format())
            },
    {
        if !is_regular_file {
            return Err(FileError::NotAFile);
        }
        match read_from_path(&path) {
            Some(tag) => Ok(AudioFile { path, tag }),
            None => Err(FileError::UnsupportedOrUnreadable),
        }
    }

    /// One data line for this file, terminated by a newline.
    pub fn to_editable_content_line(&self) -> (r: String)
        ensures
            r@ == row_chars(row_of(*self).0, row_of(*self).1) + seq!['\n'],
    {
        fields_line(&self.tag.fields)
    }

    /// Serializes a collection into one editable document: the fixed header
    /// line, then one `title<TAB>artist` line per file, in collection order,
    /// the empty text standing in for an absent field. Total: it never fails
    /// and never reorders.
    pub fn collection_to_editable_content(audio_files: &Vec<AudioFile>) -> (r: String)
        ensures
            r@ == document_chars(rows_of(audio_files@)),
    {
        proof {
            reveal_strlit("\n");
            assert("\n"@ =~= seq!['\n']);
        }
        let mut out = String::from_str("Title\tArtist\t(Remove all lines to abort the update)");
        out.append("\n");
        let mut i: usize = 0;
        proof {
            assert(rows_of(audio_files@.take(0)) =~= Seq::<(Seq<char>, Seq<char>)>::empty());
            assert(out@ =~= document_chars(rows_of(audio_files@.take(0))));
        }
        while i < audio_files.len()
            invariant
                i <= audio_files@.len(),
                out@ == document_chars(rows_of(audio_files@.take(i as int))),
            decreases audio_files@.len() - i,
        {
            let line = audio_files[i].to_editable_content_line();
            out.append(line.as_str());
            proof {
                let rows = rows_of(audio_files@.take(i as int));
                let row = row_of(audio_files@[i as int]);
                crate::tag::lemma_body_chars_push(rows, row);
                assert(rows_of(audio_files@.take(i + 1)) =~= rows.push(row));
                assert(out@ =~= document_chars(rows_of(audio_files@.take(i + 1))));
            }
            i += 1;
        }
        proof {
            assert(audio_files@.take(audio_files@.len() as int) =~= audio_files@);
        }
        out
    }

    /// Updates this file's tag from one data line: the line must split into
    /// exactly two tab-separated fields, which become the title and the
    /// artist; the tag is then written through to the file. A malformed line
    /// leaves the record untouched; a failed write leaves the new fields in
    /// memory and names this file's path.
    pub fn update_tag_from_line(&mut self, line: &str) -> (r: Result<(), UpdateError>)
        ensures
            split_row(line@) is None ==> {
                &&& *final(self) == *old(self)
                &&& r matches Err(UpdateError::InvalidLine(bad)) && bad@ == line@
            },
            split_row(line@) is Some ==> {
                &&& applies_row(*old(self), *final(self), split_row(line@)->Some_0)
                &&& match r {
                    Ok(()) => true,
                    Err(UpdateError::WriteFailed(p)) => p@ == old(self).path@,
                    Err(_) => false,
                }
            },
    {
        match split_row_str(line) {
            None => Err(UpdateError::InvalidLine(String::from_str(line))),
            Some((title, artist)) => {
                self.tag.set_title(title);
                self.tag.set_artist(artist);
                match self.tag.write_to(&self.path) {
                    Ok(()) => Ok(()),
                    Err(_) => Err(UpdateError::WriteFailed(self.path.clone())),
                }
            },
        }
    }

    /// Reconciles an edited document against the collection and writes
    /// changed tags through, in collection order.
    ///
    /// A blank document abandons the update; a data line count that differs
    /// from the collection's size is rejected; in both cases no record is
    /// touched. Otherwise data line `i` updates record `i`: the pass stops at
    /// the first malformed line, or at the first failed write, leaving
    /// earlier records updated and later ones untouched.
    pub fn update_tags_from_edited_content(
        audio_files: &mut Vec<AudioFile>,
        content: &str,
    ) -> (r: Result<(), UpdateError>)
        ensures
            is_blank(content@) ==> {
                &&& final(audio_files)@ == old(audio_files)@
                &&& r matches Err(UpdateError::UpdateAborted)
            },
            !is_blank(content@) && data_lines(content@).len() != old(audio_files)@.len() ==> {
                &&& final(audio_files)@ == old(audio_files)@
                &&& r matches Err(UpdateError::LineCountMismatch {
                    number_of_files,
                    number_of_lines,
                }) && number_of_files == old(audio_files)@.len() && number_of_lines == data_lines(
                    content@,
                ).len()
            },
            !is_blank(content@) && data_lines(content@).len() == old(audio_files)@.len() ==> {
                let data = data_lines(content@);
                let n = old(audio_files)@.len() as int;
                ||| {
                    &&& r is Ok
                    &&& first_malformed(data) == n
                    &&& updated_up_to(old(audio_files)@, final(audio_files)@, data, n)
                }
                ||| {
                    &&& r matches Err(UpdateError::InvalidLine(bad)) && bad@ == data[first_malformed(
                        data,
                    )]
                    &&& first_malformed(data) < n
                    &&& updated_up_to(
                        old(audio_files)@,
                        final(audio_files)@,
                        data,
                        first_malformed(data),
                    )
                }
                ||| (exists|k: int|
                    {
                        &&& 0 <= k < n
                        &&& split_row(data[k]) is Some
                        &&& r matches Err(UpdateError::WriteFailed(p)) && p@ == old(
                            audio_files,
                        )@[k].path@
                        &&& updated_up_to(old(audio_files)@, final(audio_files)@, data, k + 1)
                    })
            },
    {
        if is_blank_str(content) {
            return Err(UpdateError::UpdateAborted);
        }
        let lines = split_lines(content);
        proof {
            lemma_nonblank_has_lines(content@);
        }
        let number_of_lines = lines.len() - 1;
        if audio_files.len() != number_of_lines {
            return Err(
                UpdateError::LineCountMismatch {
                    number_of_files: audio_files.len(),
                    number_of_lines,
                },
            );
        }
        let n = audio_files.len();
        let ghost data = data_lines(content@);
        proof {
            assert(data.len() == n);
        }
        let mut i: usize = 0;
        while i < n
            invariant
                !is_blank(content@),
                n == old(audio_files)@.len(),
                audio_files@.len() == n,
                i <= n,
                lines@.map_values(|l: String| l@) == spec_lines(content@),
                lines@.len() == n + 1,
                data == data_lines(content@),
                data.len() == n,
                forall|j: int| 0 <= j < i ==> split_row(#[trigger] data[j]) is Some,
                updated_up_to(old(audio_files)@, audio_files@, data, i as int),
            decreases n - i,
        {
            proof {
                assert(data[i as int] == spec_lines(content@)[i + 1]);
                assert(lines@.map_values(|l: String| l@)[i + 1] == lines@[i + 1]@);
            }
            let ghost files_before = audio_files@;
            let ghost old_file = audio_files@[i as int];
            let line = &lines[i + 1];
            let file = &mut audio_files[i];
            let res = file.update_tag_from_line(line.as_str());
            match res {
                Ok(()) => {
                    proof {
                        assert(audio_files@ =~= files_before.update(i as int, audio_files@[i as int]));
                        assert(updated_up_to(old(audio_files)@, audio_files@, data, i + 1));
                    }
                },
                Err(e) => {
                    proof {
                        lemma_first_malformed(data);
                        if split_row(data[i as int]) is None {
                            assert(first_malformed(data) == i as int) by {
                                if first_malformed(data) < i as int {
                                    assert(split_row(data[first_malformed(data)]) is Some);
                                }
                            }
                            assert(audio_files@ =~= files_before);
                        } else {
                            assert(updated_up_to(old(audio_files)@, audio_files@, data, i + 1));
                        }
                    }
                    return Err(e);
                },
            }
            i += 1;
        }
        proof {
            lemma_first_malformed(data);
            assert(first_malformed(data) == n as int) by {
                if first_malformed(data) < n as int {
                    assert(split_row(data[first_malformed(data)]) is Some);
                }
            }
        }
        Ok(())
    }

    /// Builds the collection from a directory listing: one handle per entry
    /// that is a regular file with a readable, claimed tag, in listing
    /// order; everything else is skipped silently, each skipped entry
    /// recorded with its reason.
    pub fn from_entries(entries: &Vec<ScanEntry>) -> (r: (Vec<AudioFile>, Vec<SkippedEntry>))
        ensures
            r.0@.len() + r.1@.len() == entries@.len(),
            forall|k: int|
                0 <= k < r.0@.len() ==> spec_format_of_path(#[trigger] r.0@[k].path@) == Some(
                    r.0@[k].tag.codec.format(),
                ),
            exists|src: Seq<int>|
                #![trigger src.len()]
                {
                    &&& src.len() == r.0@.len()
                    &&& forall|k: int| 0 <= k < src.len() ==> 0 <= #[trigger] src[k] < entries@.len()
                    &&& forall|k: int| 0 <= k < src.len() - 1 ==> #[trigger] src[k] < src[k + 1]
                    &&& forall|k: int|
                        0 <= k < src.len() ==> #[trigger] r.0@[k].path == entries@[src[k]].path
                            && entries@[src[k]].is_regular_file
                },
    {
        let mut kept: Vec<AudioFile> = Vec::new();
        let mut skipped: Vec<SkippedEntry> = Vec::new();
        let ghost mut src: Seq<int> = Seq::empty();
        let mut e: usize = 0;
        let n = entries.len();
        while e < n
            invariant
                entries@.len() == n,
                e <= n,
                kept@.len() + skipped@.len() == e,
                forall|k: int|
                    0 <= k < kept@.len() ==> spec_format_of_path(#[trigger] kept@[k].path@)
                        == Some(kept@[k].tag.codec.format()),
                src.len() == kept@.len(),
                forall|k: int| 0 <= k < src.len() ==> 0 <= #[trigger] src[k] < e,
                forall|k: int| 0 <= k < src.len() - 1 ==> #[trigger] src[k] < src[k + 1],
                forall|k: int|
                    0 <= k < src.len() ==> #[trigger] kept@[k].path == entries@[src[k]].path
                        && entries@[src[k]].is_regular_file,
            decreases n - e,
        {
            let path = entries[e].path.clone();
            let is_file = entries[e].is_regular_file;
            match AudioFile::new(path, is_file) {
                Ok(f) => {
                    let ghost fv = f;
                    let ghost old_kept = kept@;
                    let ghost old_src = src;
                    kept.push(f);
                    proof {
                        src = src.push(e as int);
                        assert(kept@ =~= old_kept.push(fv));
                        assert(fv.path == entries@[e as int].path);
                        assert(entries@[e as int].is_regular_file);
                        assert forall|k: int|
                            0 <= k < src.len() implies #[trigger] kept@[k].path
                            == entries@[src[k]].path && entries@[src[k]].is_regular_file by {
                            if k < src.len() - 1 {
                                assert(kept@[k] == old_kept[k]);
                                assert(src[k] == old_src[k]);
                            } else {
                                assert(src[k] == e as int);
                                assert(kept@[k] == fv);
                            }
                        }
                    }
                },
                Err(reason) => {
                    let path = entries[e].path.clone();
                    skipped.push(SkippedEntry { path, reason });
                },
            }
            proof {
                assert(forall|k: int|
                    0 <= k < src.len() ==> #[trigger] kept@[k].path == entries@[src[k]].path
                        && entries@[src[k]].is_regular_file);
            }
            e += 1;
        }
        proof {
            assert(exists|s: Seq<int>|
                #![trigger s.len()]
                {
                    &&& s.len() == kept@.len()
                    &&& forall|k: int| 0 <= k < s.len() ==> 0 <= #[trigger] s[k] < entries@.len()
                    &&& forall|k: int| 0 <= k < s.len() - 1 ==> #[trigger] s[k] < s[k + 1]
                    &&& forall|k: int|
                        0 <= k < s.len() ==> #[trigger] kept@[k].path == entries@[s[k]].path
                            && entries@[s[k]].is_regular_file
                }) by {
                assert(src.len() == kept@.len());
                assert(forall|k: int| 0 <= k < src.len() ==> 0 <= #[trigger] src[k] < entries@.len());
            }
        }
        (kept, skipped)
    }
}

/// Round-trip law for a collection: the document serialized from it
/// reconciles as an update handing every record its own field texts back, so
/// applying that update leaves every record's path, codec data, album, title
/// text and artist text unchanged. It asks only that the fields be ones the
/// flat document can carry: no tab or newline, no trailing carriage return
/// in the artist.
pub proof fn lemma_round_trip_collection(files: Seq<AudioFile>)
    requires
        forall|i: int|
            0 <= i < files.len() ==> crate::document::row_ok(
                row_of(#[trigger] files[i]).0,
                row_of(files[i]).1,
            ),
    ensures
        reconcile_plan(files.len() as nat, document_chars(rows_of(files)))
            == (crate::document::ReconcilePlan::Rows { rows: rows_of(files) }),
        forall|f: AudioFile, g: AudioFile|
            #[trigger] applies_row(f, g, row_of(f)) ==> {
                &&& g.path == f.path
                &&& g.tag.codec == f.tag.codec
                &&& g.tag.fields@.album == f.tag.fields@.album
                &&& opt_chars(g.tag.fields@.title) == opt_chars(f.tag.fields@.title)
                &&& opt_chars(g.tag.fields@.artist) == opt_chars(f.tag.fields@.artist)
            },
{
    let rows = rows_of(files);
    assert forall|i: int|
        0 <= i < rows.len() implies crate::document::row_ok(
        #[trigger] rows[i].0,
        rows[i].1,
    ) by {
        assert(rows[i] == row_of(files[i]));
    }
    crate::document::lemma_round_trip(rows);
}

} // verus!
