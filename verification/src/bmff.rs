//! ISO BMFF box headers.
use crate::byteorder::{be_u32_at, be_u64_at, be_value};
use crate::error::{Error, Result};
use vstd::prelude::*;

verus! {

/// A box read from a buffer: its four-character type and its payload after the header.
pub struct BmffBox<'a> {
    pub kind: [u8; 4],
    /// Payload after the 8- or 16-byte header. For `uuid`, includes 16 bytes UUID + user data.
    pub body: &'a [u8],
}

/// Where the box at `at` ends, where its payload starts, and its type bytes; `None` when
/// fewer than eight bytes remain.
pub open spec fn spec_read_box(d: Seq<u8>, at: int) -> Result<Option<(int, int, Seq<u8>)>> {
    if at + 8 > d.len() {
        Ok(None)
    } else {
        let size32 = be_value(d.subrange(at, at + 4));
        let kind = d.subrange(at + 4, at + 8);
        if size32 == 1 && at + 16 > d.len() {
            Err(Error::Truncated)
        } else {
            let header_len: int = if size32 == 1 { 16 } else { 8 };
            let total: int = if size32 == 0 {
                d.len() - at
            } else if size32 == 1 {
                be_value(d.subrange(at + 8, at + 16)) as int
            } else {
                size32 as int
            };
            // the total is taken as a `usize`, which truncates it where `usize` is narrower
            let end: int = at + ((total as u64) as usize) as int;
            if end > usize::MAX {
                Err(Error::BadQt)
            } else if end > d.len() {
                Err(Error::Truncated)
            } else if header_len > total {
                Err(Error::BadQt)
            } else if at + header_len > end {
                Err(Error::BadQt)
            } else {
                Ok(Some((end, at + header_len, kind)))
            }
        }
    }
}

/// The box read at `at` ends at least eight bytes further on, within the buffer.
pub proof fn lemma_read_box_span(d: Seq<u8>, at: int)
    requires
        0 <= at,
        spec_read_box(d, at) matches Ok(Some(_)),
    ensures
        spec_read_box(d, at) matches Ok(Some((end, bs, k))) && at + 8 <= bs <= end <= d.len()
            && k.len() == 4,
{
}

/// `r` is what `spec_read_box` describes, with the payload bytes in `body`.
pub open spec fn read_box_matches(d: Seq<u8>, at: int, r: Result<Option<(usize, BmffBox)>>) -> bool {
    match spec_read_box(d, at) {
        Ok(None) => r matches Ok(None),
        Ok(Some((end, bs, k))) => match r {
            Ok(Some((e2, b))) => e2 == end && b.kind@ == k && b.body@ == d.subrange(bs, end),
            _ => false,
        },
        Err(x) => match r {
            Err(y) => y == x,
            _ => false,
        },
    }
}

/// Reads the box header at `at` (32-bit size, or 64-bit size when the size field is 1, or
/// "to the end of the buffer" when it is 0).
pub fn read_box<'a>(data: &'a [u8], at: usize) -> (r: Result<Option<(usize, BmffBox<'a>)>>)
    requires
        at <= data@.len() <= isize::MAX,
    ensures
        read_box_matches(data@, at as int, r),
{
    if at + 8 > data.len() {
        return Ok(None);
    }
    let size32 = be_u32_at(data, at) as u64;
    let kind: [u8; 4] = [data[at + 4], data[at + 5], data[at + 6], data[at + 7]];
    assert(kind@ =~= data@.subrange(at + 4, at + 8));
    let header_len: u64;
    let total: u64;
    if size32 == 0 {
        header_len = 8;
        total = (data.len() - at) as u64;
    } else if size32 == 1 {
        if at + 16 > data.len() {
            return Err(Error::Truncated);
        }
        header_len = 16;
        total = be_u64_at(data, at + 8);
    } else {
        header_len = 8;
        total = size32;
    }
    let end = match at.checked_add(total as usize) {
        Some(x) => x,
        None => return Err(Error::BadQt),
    };
    if end > data.len() {
        return Err(Error::Truncated);
    }
    if header_len > total {
        return Err(Error::BadQt);
    }
    if at + header_len as usize > end {
        return Err(Error::BadQt);
    }
    let body = vstd::slice::slice_subrange(data, at + header_len as usize, end);
    Ok(Some((end, BmffBox { kind, body })))
}

} // verus!
