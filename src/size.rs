//! Human-readable sizes, as the container runtime itself shows them.

use humansize::file_size_opts::{FileSizeOpts, DECIMAL};
use humansize::FileSize;
use vstd::prelude::*;

verus! {

/// The text that humansize gives for `bytes` in decimal (1000-based) units
/// with no decimal places and a space before the unit, such as `1 MB`.
pub uninterp spec fn size_text(bytes: u64) -> Seq<char>;

/// Relies on humansize's `FileSize::file_size` for `u64`, with its decimal
/// options and no decimal places: for an unsigned value it always returns
/// `Ok`, and its text depends on the value alone.
#[verifier::external_body]
fn format_size(bytes: u64) -> (r: String)
    ensures
        r@ == size_text(bytes),
{
    bytes.file_size(FileSizeOpts { decimal_places: 0, ..DECIMAL }).unwrap()
}

/// The display line for one matching tag: `  - <tag> <size>`.
pub fn display_line(tag: &str, size: u64) -> (r: String)
    ensures
        r@ == seq![' ', ' ', '-', ' '] + tag@ + seq![' '] + size_text(size),
{
    let text = format_size(size);
    let line = String::from_str("  - ");
    let line = line.concat(tag);
    let line = line.concat(" ");
    let line = line.concat(text.as_str());
    proof {
        reveal_strlit("  - ");
        reveal_strlit(" ");
    }
    line
}

} // verus!
