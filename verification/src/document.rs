use crate::text::{
    first_index_of, is_blank, is_space_char, lemma_first_index_of, lemma_first_index_of_append,
};
use vstd::prelude::*;

verus! {

// ----------------------------------------------------------------------------
// The document: one header line, then one tab-separated data line per file
// ----------------------------------------------------------------------------

/// The fixed header line of the editable document.
pub open spec fn header_chars() -> Seq<char> {
    "Title\tArtist\t(Remove all lines to abort the update)"@
}

/// One data line, without its terminator: title and artist joined by one tab.
pub open spec fn row_chars(title: Seq<char>, artist: Seq<char>) -> Seq<char> {
    title + seq!['\t'] + artist
}

/// The data lines of the document, each terminated by a newline.
pub open spec fn body_chars(rows: Seq<(Seq<char>, Seq<char>)>) -> Seq<char>
    decreases rows.len(),
{
    if rows.len() == 0 {
        Seq::empty()
    } else {
        row_chars(rows[0].0, rows[0].1) + seq!['\n'] + body_chars(rows.drop_first())
    }
}

/// The whole editable document for the given rows of field values.
pub open spec fn document_chars(rows: Seq<(Seq<char>, Seq<char>)>) -> Seq<char> {
    header_chars() + seq!['\n'] + body_chars(rows)
}

/// Field values that the flat document can carry faithfully: no tab (the
/// field separator), no newline (the line separator), and no carriage return
/// at the end of the artist, which line splitting would strip.
pub open spec fn row_ok(title: Seq<char>, artist: Seq<char>) -> bool {
    &&& forall|j: int| 0 <= j < title.len() ==> title[j] != '\n' && title[j] != '\t'
    &&& forall|j: int| 0 <= j < artist.len() ==> artist[j] != '\n' && artist[j] != '\t'
    &&& (artist.len() > 0 ==> artist[artist.len() - 1] != '\r')
}

// ----------------------------------------------------------------------------
// Splitting a document into lines, as `str::lines` does
// ----------------------------------------------------------------------------

/// Drops one carriage return from the end of a line, if there is one.
pub open spec fn strip_cr(l: Seq<char>) -> Seq<char> {
    if l.len() > 0 && l[l.len() - 1] == '\r' {
        l.drop_last()
    } else {
        l
    }
}

/// The lines of `s`: terminated by `\n` or `\r\n`, terminators not included,
/// and a final terminator opening no further line.
pub open spec fn spec_lines(s: Seq<char>) -> Seq<Seq<char>>
    decreases s.len(),
{
    if s.len() == 0 {
        Seq::empty()
    } else {
        let i = first_index_of(s, '\n');
        if i >= s.len() {
            seq![s]
        } else {
            seq![strip_cr(s.take(i as int))] + spec_lines(s.skip(i as int + 1))
        }
    }
}

/// A text that is not blank has at least one line.
pub proof fn lemma_nonblank_has_lines(s: Seq<char>)
    requires
        !is_blank(s),
    ensures
        spec_lines(s).len() >= 1,
{
    assert(s.len() > 0);
}

/// Splitting off one newline-terminated, newline-free line.
pub proof fn lemma_lines_step(line: Seq<char>, rest: Seq<char>)
    requires
        forall|j: int| 0 <= j < line.len() ==> line[j] != '\n',
    ensures
        spec_lines(line + seq!['\n'] + rest) == seq![strip_cr(line)] + spec_lines(rest),
{
    let s = line + seq!['\n'] + rest;
    let tail = seq!['\n'] + rest;
    assert(s =~= line + tail);
    assert(tail[0] == '\n');
    lemma_first_index_of_append(line, tail, '\n');
    assert(first_index_of(s, '\n') == line.len());
    assert(s.take(line.len() as int) =~= line);
    assert(s.skip(line.len() as int + 1) =~= rest);
}

/// The serialized document splits back into the header line followed by one
/// data line per row, with nothing stripped or reordered.
pub proof fn lemma_body_lines(rows: Seq<(Seq<char>, Seq<char>)>)
    requires
        forall|i: int| 0 <= i < rows.len() ==> row_ok(rows[i].0, rows[i].1),
    ensures
        spec_lines(body_chars(rows)) == rows.map_values(|r: (Seq<char>, Seq<char>)| row_chars(r.0, r.1)),
    decreases rows.len(),
{
    let f = |r: (Seq<char>, Seq<char>)| row_chars(r.0, r.1);
    if rows.len() == 0 {
        assert(spec_lines(body_chars(rows)) =~= rows.map_values(f));
    } else {
        let line = row_chars(rows[0].0, rows[0].1);
        let title = rows[0].0;
        let artist = rows[0].1;
        assert forall|j: int| 0 <= j < line.len() implies line[j] != '\n' by {
            if j < title.len() {
                assert(line[j] == title[j]);
            } else if j == title.len() {
                assert(line[j] == '\t');
            } else {
                assert(line[j] == artist[j - title.len() - 1]);
            }
        }
        assert(strip_cr(line) == line) by {
            if artist.len() > 0 {
                assert(line[line.len() - 1] == artist[artist.len() - 1]);
            } else {
                assert(line[line.len() - 1] == '\t');
            }
        }
        lemma_lines_step(line, body_chars(rows.drop_first()));
        lemma_body_lines(rows.drop_first());
        assert(body_chars(rows) == line + seq!['\n'] + body_chars(rows.drop_first()));
        assert(rows.drop_first().map_values(f) =~= rows.map_values(f).drop_first());
        assert(spec_lines(body_chars(rows)) =~= rows.map_values(f));
    }
}

/// The header line holds no newline, does not end in a carriage return, and
/// starts with a character that is not whitespace.
pub proof fn lemma_header_shape()
    ensures
        forall|j: int| 0 <= j < header_chars().len() ==> header_chars()[j] != '\n',
        header_chars().len() > 0,
        header_chars()[header_chars().len() - 1] != '\r',
        header_chars()[0] == 'T',
{
    reveal_strlit("Title\tArtist\t(Remove all lines to abort the update)");
    assert(header_chars() =~= seq![
        'T', 'i', 't', 'l', 'e', '\t', 'A', 'r', 't', 'i', 's', 't', '\t', '(', 'R', 'e', 'm',
        'o', 'v', 'e', ' ', 'a', 'l', 'l', ' ', 'l', 'i', 'n', 'e', 's', ' ', 't', 'o', ' ', 'a',
        'b', 'o', 'r', 't', ' ', 't', 'h', 'e', ' ', 'u', 'p', 'd', 'a', 't', 'e', ')',
    ]);
}

/// The lines of a serialized document: the header, then exactly the rows.
pub proof fn lemma_document_lines(rows: Seq<(Seq<char>, Seq<char>)>)
    requires
        forall|i: int| 0 <= i < rows.len() ==> row_ok(rows[i].0, rows[i].1),
    ensures
        spec_lines(document_chars(rows)) == seq![header_chars()] + rows.map_values(
            |r: (Seq<char>, Seq<char>)| row_chars(r.0, r.1),
        ),
{
    lemma_header_shape();
    lemma_lines_step(header_chars(), body_chars(rows));
    lemma_body_lines(rows);
    assert(document_chars(rows) == header_chars() + seq!['\n'] + body_chars(rows));
    assert(strip_cr(header_chars()) == header_chars());
}

// ----------------------------------------------------------------------------
// Splitting a data line into its two fields
// ----------------------------------------------------------------------------

/// Splits a data line at its tab when it holds exactly one tab; `None` when
/// it holds none or more than one.
pub open spec fn split_row(l: Seq<char>) -> Option<(Seq<char>, Seq<char>)> {
    let i = first_index_of(l, '\t');
    if i == l.len() {
        None
    } else {
        let rest = l.skip(i as int + 1);
        if first_index_of(rest, '\t') == rest.len() {
            Some((l.take(i as int), rest))
        } else {
            None
        }
    }
}

/// A faithful row serializes to a line that splits back into its two fields.
pub proof fn lemma_split_row_of_row(title: Seq<char>, artist: Seq<char>)
    requires
        row_ok(title, artist),
    ensures
        split_row(row_chars(title, artist)) == Some((title, artist)),
{
    let l = row_chars(title, artist);
    let tail = seq!['\t'] + artist;
    assert(l =~= title + tail);
    assert(tail[0] == '\t');
    lemma_first_index_of_append(title, tail, '\t');
    assert(first_index_of(l, '\t') == title.len());
    assert(l.take(title.len() as int) =~= title);
    assert(l.skip(title.len() as int + 1) =~= artist);
    lemma_first_index_of(artist, '\t');
}

// ----------------------------------------------------------------------------
// What reconciling an edited document decides
// ----------------------------------------------------------------------------

/// Index of the first data line that does not split into exactly two fields,
/// or `data.len()` when every line does.
pub open spec fn first_malformed(data: Seq<Seq<char>>) -> int
    decreases data.len(),
{
    if data.len() == 0 {
        0
    } else if split_row(data[0]) is None {
        0
    } else {
        1 + first_malformed(data.drop_first())
    }
}

pub proof fn lemma_first_malformed(data: Seq<Seq<char>>)
    ensures
        0 <= first_malformed(data) <= data.len(),
        first_malformed(data) < data.len() ==> split_row(data[first_malformed(data)]) is None,
        forall|j: int| 0 <= j < first_malformed(data) ==> split_row(data[j]) is Some,
    decreases data.len(),
{
    if data.len() == 0 {
    } else if split_row(data[0]) is None {
    } else {
        lemma_first_malformed(data.drop_first());
        assert forall|j: int| 0 <= j < first_malformed(data) implies split_row(data[j]) is Some by {
            if j > 0 {
                assert(data.drop_first()[j - 1] == data[j]);
                assert(split_row(data.drop_first()[j - 1]) is Some);
            }
        }
    }
}

/// What the reconciler decides for a collection of `files` records and an
/// edited document `content`, before any write is attempted.
pub enum ReconcilePlan {
    /// The document is empty or whitespace-only: the update is abandoned and
    /// nothing is touched.
    Abort,
    /// The number of data lines does not match the number of files: nothing
    /// is touched.
    CountMismatch { files: nat, lines: nat },
    /// Data line `at` (0-based) is the first that does not split into exactly
    /// two fields: records before it are updated, it and the rest are not.
    BadLine { at: int, line: Seq<char> },
    /// Every data line is well-formed: record `i` takes the fields of row `i`.
    Rows { rows: Seq<(Seq<char>, Seq<char>)> },
}

/// The data lines of a document: everything after the header line.
pub open spec fn data_lines(content: Seq<char>) -> Seq<Seq<char>> {
    spec_lines(content).skip(1)
}

// ----------------------------------------------------------------------------
// Executable splitting
// ----------------------------------------------------------------------------

/// Index of the first occurrence of `c` in `s`, or the length when absent.
pub fn find_first(s: &str, c: char) -> (r: usize)
    ensures
        r == first_index_of(s@, c),
        r <= s@.len(),
        r < s@.len() ==> s@[r as int] == c,
        forall|j: int| 0 <= j < r ==> s@[j] != c,
{
    let n = s.unicode_len();
    let mut i: usize = 0;
    while i < n
        invariant
            n == s@.len(),
            i <= n,
            forall|j: int| 0 <= j < i ==> s@[j] != c,
        decreases n - i,
    {
        if s.get_char(i) == c {
            proof {
                lemma_first_index_of(s@, c);
            }
            return i;
        }
        i += 1;
    }
    proof {
        lemma_first_index_of(s@, c);
    }
    n
}

/// The lines of `s`, as owned strings, exactly as `spec_lines` describes
/// them.
pub fn split_lines(s: &str) -> (lines: Vec<String>)
    ensures
        lines@.map_values(|l: String| l@) == spec_lines(s@),
{
    let n = s.unicode_len();
    let mut lines: Vec<String> = Vec::new();
    let mut start: usize = 0;
    let mut i: usize = 0;
    proof {
        assert(s@.skip(0) =~= s@);
        assert(lines@.map_values(|l: String| l@) =~= Seq::<Seq<char>>::empty());
        assert(lines@.map_values(|l: String| l@) + spec_lines(s@.skip(0)) =~= spec_lines(s@));
    }
    while i < n
        invariant
            n == s@.len(),
            start <= i <= n,
            lines@.map_values(|l: String| l@) + spec_lines(s@.skip(start as int)) == spec_lines(
                s@,
            ),
            forall|j: int| start <= j < i ==> s@[j] != '\n',
        decreases n - i,
    {
        if s.get_char(i) == '\n' {
            let end = if i > start && s.get_char(i - 1) == '\r' {
                i - 1
            } else {
                i
            };
            let line = s.substring_char(start, end).to_owned();
            let ghost old_lines = lines@;
            let ghost mid = s@.subrange(start as int, i as int);
            let ghost after = s@.skip(i as int + 1);
            proof {
                assert(s@.skip(start as int) =~= mid + seq!['\n'] + after);
                assert(forall|j: int| 0 <= j < mid.len() ==> mid[j] == s@[start + j]);
                lemma_lines_step(mid, after);
                assert(line@ =~= strip_cr(mid));
            }
            lines.push(line);
            start = i + 1;
            proof {
                assert(lines@ =~= old_lines.push(line));
                assert(lines@.map_values(|l: String| l@) =~= old_lines.map_values(
                    |l: String| l@,
                ).push(line@));
                assert(lines@.map_values(|l: String| l@) + spec_lines(s@.skip(start as int))
                    =~= old_lines.map_values(|l: String| l@) + (seq![strip_cr(mid)] + spec_lines(
                    after,
                )));
            }
        }
        i += 1;
    }
    if start < n {
        let line = s.substring_char(start, n).to_owned();
        let ghost old_lines = lines@;
        let ghost rest = s@.skip(start as int);
        proof {
            lemma_first_index_of(rest, '\n');
            assert(forall|j: int| 0 <= j < rest.len() ==> rest[j] == s@[start + j]);
            assert(first_index_of(rest, '\n') == rest.len());
            assert(spec_lines(rest) == seq![rest]);
            assert(line@ =~= rest);
        }
        lines.push(line);
        proof {
            assert(lines@ =~= old_lines.push(line));
            assert(lines@.map_values(|l: String| l@) =~= old_lines.map_values(
                |l: String| l@,
            ).push(line@));
            assert(lines@.map_values(|l: String| l@) =~= old_lines.map_values(|l: String| l@)
                + seq![rest]);
        }
    } else {
        proof {
            assert(s@.skip(start as int) =~= Seq::<char>::empty());
            assert(spec_lines(s@.skip(start as int)) =~= Seq::<Seq<char>>::empty());
            assert(lines@.map_values(|l: String| l@) + spec_lines(s@.skip(start as int))
                =~= lines@.map_values(|l: String| l@));
        }
    }
    lines
}

/// Splits one data line into its two fields, when it holds exactly one tab.
pub fn split_row_str(l: &str) -> (r: Option<(String, String)>)
    ensures
        r is Some <==> split_row(l@) is Some,
        r is Some ==> (r->Some_0.0@, r->Some_0.1@) == split_row(l@)->Some_0,
{
    let n = l.unicode_len();
    let t = find_first(l, '\t');
    if t == n {
        return None;
    }
    let rest = l.substring_char(t + 1, n);
    proof {
        assert(rest@ =~= l@.skip(t as int + 1));
    }
    let t2 = find_first(rest, '\t');
    if t2 != rest.unicode_len() {
        return None;
    }
    let title = l.substring_char(0, t).to_owned();
    let artist = rest.to_owned();
    proof {
        assert(title@ =~= l@.take(t as int));
    }
    Some((title, artist))
}

/// The reconciler's decision function.
pub open spec fn reconcile_plan(files: nat, content: Seq<char>) -> ReconcilePlan {
    if is_blank(content) {
        ReconcilePlan::Abort
    } else {
        let data = data_lines(content);
        if data.len() != files {
            ReconcilePlan::CountMismatch { files, lines: data.len() as nat }
        } else if first_malformed(data) < data.len() {
            ReconcilePlan::BadLine {
                at: first_malformed(data),
                line: data[first_malformed(data)],
            }
        } else {
            ReconcilePlan::Rows { rows: data.map_values(|l: Seq<char>| split_row(l)->Some_0) }
        }
    }
}

// ----------------------------------------------------------------------------
// The laws of the reconciler's decision
// ----------------------------------------------------------------------------

/// Abort law: a blank document — empty or whitespace-only — always decides
/// the abort, whatever the collection's size, so no file is touched.
pub proof fn lemma_abort_law(files: nat, content: Seq<char>)
    requires
        is_blank(content),
    ensures
        reconcile_plan(files, content) == ReconcilePlan::Abort,
{
}

/// Count law: a document that is not blank, with a data line count different
/// from the collection's size, always decides the mismatch, carrying both
/// counts, so no file is touched.
pub proof fn lemma_count_law(files: nat, content: Seq<char>)
    requires
        !is_blank(content),
        data_lines(content).len() != files,
    ensures
        reconcile_plan(files, content) == (ReconcilePlan::CountMismatch {
            files,
            lines: data_lines(content).len() as nat,
        }),
{
}

/// Malformed-line law: with matching counts, the first data line that does
/// not split into exactly two fields decides the failure and is carried in
/// it; the plan pairs every earlier record with its own line.
pub proof fn lemma_malformed_line_law(files: nat, content: Seq<char>, j: int)
    requires
        !is_blank(content),
        data_lines(content).len() == files,
        0 <= j < files,
        split_row(data_lines(content)[j]) is None,
        forall|k: int| 0 <= k < j ==> split_row(#[trigger] data_lines(content)[k]) is Some,
    ensures
        reconcile_plan(files, content) == (ReconcilePlan::BadLine {
            at: j,
            line: data_lines(content)[j],
        }),
{
    let data = data_lines(content);
    lemma_first_malformed(data);
    assert(first_malformed(data) == j) by {
        if first_malformed(data) < j {
            assert(split_row(data[first_malformed(data)]) is Some);
        }
    }
}

/// Order-preservation law: with matching counts and every data line
/// well-formed, the plan pairs record `i` with exactly the fields of data
/// line `i`, for every `i`.
pub proof fn lemma_order_law(files: nat, content: Seq<char>)
    requires
        !is_blank(content),
        data_lines(content).len() == files,
        forall|k: int| 0 <= k < files ==> split_row(#[trigger] data_lines(content)[k]) is Some,
    ensures
        ({
            &&& reconcile_plan(files, content) matches ReconcilePlan::Rows { rows }
            &&& rows.len() == files
            &&& forall|i: int|
                0 <= i < files ==> rows[i] == split_row(#[trigger] data_lines(content)[i])->Some_0
        }),
{
    let data = data_lines(content);
    lemma_first_malformed(data);
    assert(first_malformed(data) == data.len()) by {
        if first_malformed(data) < data.len() {
            assert(split_row(data[first_malformed(data)]) is Some);
        }
    }
}

/// Round-trip law: reconciling the unedited document serialized from any
/// faithful rows decides an update that hands back exactly those rows.
pub proof fn lemma_round_trip(rows: Seq<(Seq<char>, Seq<char>)>)
    requires
        forall|i: int| 0 <= i < rows.len() ==> row_ok(#[trigger] rows[i].0, rows[i].1),
    ensures
        reconcile_plan(rows.len() as nat, document_chars(rows)) == (ReconcilePlan::Rows { rows }),
{
    let doc = document_chars(rows);
    lemma_header_shape();
    assert(doc[0] == header_chars()[0]);
    assert(!is_space_char('T'));
    assert(!is_blank(doc));
    lemma_document_lines(rows);
    let f = |r: (Seq<char>, Seq<char>)| row_chars(r.0, r.1);
    let data = data_lines(doc);
    assert(data =~= rows.map_values(f));
    assert forall|j: int| 0 <= j < data.len() implies split_row(#[trigger] data[j]) == Some(
        (rows[j].0, rows[j].1),
    ) by {
        lemma_split_row_of_row(rows[j].0, rows[j].1);
        assert(data[j] == row_chars(rows[j].0, rows[j].1));
    }
    lemma_first_malformed(data);
    assert(first_malformed(data) == data.len()) by {
        if first_malformed(data) < data.len() {
            assert(split_row(data[first_malformed(data)]) is Some);
        }
    }
    assert(data.map_values(|l: Seq<char>| split_row(l)->Some_0) =~= rows);
}

} // verus!

