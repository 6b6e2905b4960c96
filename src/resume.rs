//! Going on with a download from the bytes already on disk.
use vstd::prelude::*;
use crate::text::{dec, push_decimal, push_str};

verus! {

/// Where a download stands given what is on disk.
#[derive(Clone, Copy, Debug, PartialEq, Eq, Structural)]
pub enum Resume {
    /// The file on disk already holds the whole resource.
    Complete,
    /// Fetch from this byte on, appending to what is on disk.
    From(u64),
}

/// The decision for `local_size` bytes on disk and a resource of
/// `total_size` bytes (0 when the size is unknown).
pub open spec fn resume_point(local_size: u64, total_size: u64) -> Resume {
    if total_size > 0 && local_size >= total_size {
        Resume::Complete
    } else {
        Resume::From(local_size)
    }
}

/// Decides whether anything is left to fetch, and from which byte.
pub fn resume_from(local_size: u64, total_size: u64) -> (r: Resume)
    ensures
        r == resume_point(local_size, total_size),
{
    if total_size > 0 && local_size >= total_size {
        Resume::Complete
    } else {
        Resume::From(local_size)
    }
}

/// Value of the `Range` header that asks for everything from `from` on.
pub open spec fn open_range_value(from: u64) -> Seq<char> {
    "bytes="@ + dec(from) + "-"@
}

/// The `Range` header value `bytes=<from>-`, open at the end.
pub fn open_range_header(from: u64) -> (r: String)
    ensures
        r@ == open_range_value(from),
{
    let mut s = String::new();
    push_str(&mut s, "bytes=");
    push_decimal(&mut s, from);
    push_str(&mut s, "-");
    s
}

} // verus!
