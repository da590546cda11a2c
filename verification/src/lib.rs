//! Bulk editing of the title and artist tags of the audio files in one
//! directory: the collection of files is rendered as one tab-separated text
//! document, the document is edited freely, and the edited text is reconciled
//! back against the collection, line by line, writing changed tags through to
//! the files.
pub mod audio_file;
pub mod document;
pub mod errors;
pub mod tag;
pub mod text;

pub use audio_file::{AudioFile, ScanEntry, SkippedEntry};
pub use errors::{FileError, UpdateError};
pub use tag::{get_list_of_tags, read_from_path, CodecError, CodecTag, TagFields, TagRecord};

use vstd::prelude::*;

verus! {

/// A count rendered next to a noun: `1` takes the singular form, anything
/// else the plural.
pub open spec fn spec_pluralize(count: nat, singular: Seq<char>, plural: Seq<char>) -> Seq<char> {
    text::spec_decimal(count) + seq![' '] + if count == 1 {
        singular
    } else {
        plural
    }
}

/// Renders a count followed by the fitting form of its noun: `1 file`,
/// `2 files`.
pub fn pluralize(count: usize, singular: &str, plural: &str) -> (r: String)
    ensures
        r@ == spec_pluralize(count as nat, singular@, plural@),
{
    proof {
        reveal_strlit(" ");
    }
    let mut s = text::usize_to_string(count);
    s.append(" ");
    if count == 1 {
        s.append(singular);
    } else {
        s.append(plural);
    }
    s
}

} // verus!
