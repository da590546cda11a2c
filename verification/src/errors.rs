use crate::text::char_to_string;
use crate::{pluralize, spec_pluralize};
use vstd::prelude::*;

verus! {

/// Why a directory entry yields no audio file handle. Both cases are
/// recovered silently while a collection is built: the entry is skipped.
#[derive(Debug, PartialEq, Eq, Structural, Clone, Copy)]
pub enum FileError {
    /// The path is not a regular file.
    NotAFile,
    /// No known codec claims the file's extension, or the file's tag could
    /// not be parsed.
    UnsupportedOrUnreadable,
}

/// Why reconciling an edited document against the collection failed.
#[derive(Debug)]
pub enum UpdateError {
    /// The edited document was empty or whitespace-only: the user's signal to
    /// abandon the update. No file was touched.
    UpdateAborted,
    /// The document's data line count differs from the collection's size. No
    /// file was touched.
    LineCountMismatch { number_of_files: usize, number_of_lines: usize },
    /// A data line did not split into exactly two tab-separated fields.
    /// Files before it stay updated; it and the files after it are untouched.
    InvalidLine(String),
    /// Writing the updated tag back to this file failed. Files before it stay
    /// updated; the files after it are untouched.
    WriteFailed(String),
}

// ----------------------------------------------------------------------------
// Rendering a failure for the user
// ----------------------------------------------------------------------------

/// How one character is shown in an offending line: tabs made visible.
pub open spec fn tab_piece(c: char) -> Seq<char> {
    if c == '\t' {
        "<TAB>"@
    } else {
        seq![c]
    }
}

/// The offending line with every tab rendered visibly.
pub open spec fn spec_replace_tabs(s: Seq<char>) -> Seq<char>
    decreases s.len(),
{
    if s.len() == 0 {
        Seq::empty()
    } else {
        tab_piece(s[0]) + spec_replace_tabs(s.drop_first())
    }
}

proof fn lemma_replace_tabs_push(s: Seq<char>, c: char)
    ensures
        spec_replace_tabs(s.push(c)) == spec_replace_tabs(s) + tab_piece(c),
    decreases s.len(),
{
    if s.len() == 0 {
        assert(s.push(c)[0] == c);
        assert(s.push(c).drop_first() =~= Seq::<char>::empty());
        assert(spec_replace_tabs(s.push(c)) == tab_piece(c) + spec_replace_tabs(
            Seq::<char>::empty(),
        ));
        assert(spec_replace_tabs(Seq::<char>::empty()) == Seq::<char>::empty());
        assert(spec_replace_tabs(s.push(c)) =~= spec_replace_tabs(s) + tab_piece(c));
    } else {
        assert(s.push(c)[0] == s[0]);
        assert(s.push(c).drop_first() =~= s.drop_first().push(c));
        lemma_replace_tabs_push(s.drop_first(), c);
        assert(spec_replace_tabs(s.push(c)) =~= spec_replace_tabs(s) + tab_piece(c));
    }
}

/// Renders `s` with every tab replaced by the visible marker `<TAB>`.
pub fn replace_tabs(s: &str) -> (r: String)
    ensures
        r@ == spec_replace_tabs(s@),
{
    let n = s.unicode_len();
    let mut out = String::new();
    let mut i: usize = 0;
    while i < n
        invariant
            n == s@.len(),
            i <= n,
            out@ == spec_replace_tabs(s@.take(i as int)),
        decreases n - i,
    {
        let c = s.get_char(i);
        if c == '\t' {
            out.append("<TAB>");
        } else {
            let piece = char_to_string(c);
            out.append(piece.as_str());
        }
        proof {
            lemma_replace_tabs_push(s@.take(i as int), s@[i as int]);
            assert(s@.take(i + 1) =~= s@.take(i as int).push(s@[i as int]));
        }
        i += 1;
    }
    proof {
        assert(s@.take(n as int) =~= s@);
    }
    out
}

/// The message shown for each failure, word for word.
pub open spec fn message_of(e: UpdateError) -> Seq<char> {
    match e {
        UpdateError::UpdateAborted => "Update aborted"@,
        UpdateError::LineCountMismatch { number_of_files, number_of_lines } => "Found "@
            + spec_pluralize(number_of_files as nat, "file"@, "files"@) + ", so expected "@
            + spec_pluralize(number_of_files as nat, "line"@, "lines"@) + ", but found only "@
            + spec_pluralize(number_of_lines as nat, "line"@, "lines"@),
        UpdateError::InvalidLine(line) => {
            "Expected the line to have format\n\n\t`title<TAB>artist`\n\nbut found this instead:\n\n\t"@
                + spec_replace_tabs(line@)
        },
        UpdateError::WriteFailed(path) => "Failed to save updated tags to file "@ + path@,
    }
}

impl UpdateError {
    /// The human-readable account of the failure.
    pub fn message(&self) -> (r: String)
        ensures
            r@ == message_of(*self),
    {
        match self {
            UpdateError::UpdateAborted => String::from_str("Update aborted"),
            UpdateError::LineCountMismatch { number_of_files, number_of_lines } => {
                let mut s = String::from_str("Found ");
                s.append(pluralize(*number_of_files, "file", "files").as_str());
                s.append(", so expected ");
                s.append(pluralize(*number_of_files, "line", "lines").as_str());
                s.append(", but found only ");
                s.append(pluralize(*number_of_lines, "line", "lines").as_str());
                proof {
                    assert(s@ =~= message_of(*self));
                }
                s
            },
            UpdateError::InvalidLine(line) => {
                let mut s = String::from_str(
                    "Expected the line to have format\n\n\t`title<TAB>artist`\n\nbut found this instead:\n\n\t",
                );
                s.append(replace_tabs(line.as_str()).as_str());
                s
            },
            UpdateError::WriteFailed(path) => {
                let mut s = String::from_str("Failed to save updated tags to file ");
                s.append(path.as_str());
                s
            },
        }
    }
}

} // verus!
