//! Deciding what a file on disk is: text to edit, binary, or too large.
use vstd::prelude::*;
use vstd::utf8::{decode_utf8, valid_utf8};

use crate::text::utf8_text;

verus! {

pub const MAX_BYTES: u64 = 10485760;

pub const BINARY_SNIFF_BYTES: usize = 8192;

/// Modification time and size, to notice changes made behind the editor's back.
#[derive(Debug, Clone, Copy, PartialEq, Eq, Structural)]
pub struct FileEtag {
    pub mtime: i64,
    pub size: u64,
}

#[derive(Debug)]
pub enum LoadResult {
    Text { contents: String, etag: FileEtag },
    Binary { etag: FileEtag },
    TooLarge { size: u64 },
    NotFound,
    Io(String),
}

/// Files above `MAX_BYTES` are not opened.
pub fn is_too_large(size: u64) -> (res: bool)
    ensures
        res == (size > MAX_BYTES),
{
    size > MAX_BYTES
}

/// A NUL byte among the first `BINARY_SNIFF_BYTES` bytes marks a binary file.
pub open spec fn has_nul_prefix(b: Seq<u8>) -> bool {
    exists|i: int| 0 <= i < b.len() && i < BINARY_SNIFF_BYTES && b[i] == 0
}

/// What reading `bytes` gives: binary when it has a NUL early or is not
/// UTF-8, else its text.
pub open spec fn classify_spec(bytes: Seq<u8>) -> Option<Seq<char>> {
    if has_nul_prefix(bytes) || !valid_utf8(bytes) {
        None
    } else {
        Some(decode_utf8(bytes))
    }
}

/// The result of loading a file whose size was not too large and whose
/// contents were read as `bytes`.
pub fn classify_contents(bytes: Vec<u8>, etag: FileEtag) -> (res: LoadResult)
    ensures
        match classify_spec(bytes@) {
            Some(t) => res matches LoadResult::Text { contents, etag: e } && contents@ == t && e
                == etag,
            None => res matches LoadResult::Binary { etag: e } && e == etag,
        },
{
    let end = if bytes.len() < BINARY_SNIFF_BYTES {
        bytes.len()
    } else {
        BINARY_SNIFF_BYTES
    };
    let mut i: usize = 0;
    while i < end
        invariant
            0 <= i <= end,
            end <= bytes.len(),
            end <= BINARY_SNIFF_BYTES,
            end == bytes.len() || end == BINARY_SNIFF_BYTES,
            forall|j: int| 0 <= j < i ==> bytes@[j] != 0,
        decreases end - i,
    {
        if bytes[i] == 0 {
            assert(has_nul_prefix(bytes@)) by {
                assert(0 <= i < bytes@.len() && i < BINARY_SNIFF_BYTES && bytes@[i as int] == 0);
            }
            return LoadResult::Binary { etag };
        }
        i += 1;
    }
    assert(!has_nul_prefix(bytes@));
    match utf8_text(bytes.as_slice()) {
        Some(s) => LoadResult::Text { contents: s, etag },
        None => LoadResult::Binary { etag },
    }
}

} // verus!
