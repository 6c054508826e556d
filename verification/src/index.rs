//! Signed addressing. A container hands every signed index to this module
//! and works on the plain offset that comes back; nothing behind that line
//! sees a negative number.

use vstd::prelude::*;
use crate::error::Error;

verus! {

/// Where a signed index points in a container of `len` items: a negative
/// index counts back from the end, exactly once.
pub open spec fn wrapped(len: int, index: int) -> int {
    if index < 0 {
        index + len
    } else {
        index
    }
}

/// The signed index names one of the `len` items.
pub open spec fn names_item(len: int, index: int) -> bool {
    0 <= wrapped(len, index) < len
}

/// The signed index names a cut between items: any item's position, or the
/// position just behind the last one.
pub open spec fn names_cut(len: int, index: int) -> bool {
    0 <= wrapped(len, index) <= len
}

/// The signed half-open range `start..end` names a run of items.
pub open spec fn names_run(len: int, start: int, end: int) -> bool {
    &&& names_cut(len, start)
    &&& names_cut(len, end)
    &&& wrapped(len, start) <= wrapped(len, end)
}

/// The offset of the item that a signed index names.
pub fn resolve_item(len: usize, index: isize) -> (r: Result<usize, Error>)
    requires
        len <= isize::MAX,
    ensures
        names_item(len as int, index as int) ==> r == Ok::<usize, Error>(
            wrapped(len as int, index as int) as usize,
        ),
        !names_item(len as int, index as int) ==> r == Err::<usize, Error>(
            Error::IndexOutOfBounds,
        ),
{
    if index >= 0 {
        let offset: usize = index as usize;
        if offset < len {
            Ok(offset)
        } else {
            Err(Error::IndexOutOfBounds)
        }
    } else {
        let shifted: isize = index + (len as isize);
        if shifted >= 0 {
            Ok(shifted as usize)
        } else {
            Err(Error::IndexOutOfBounds)
        }
    }
}

/// The offset of the cut that a signed index names, as the bounds of a
/// range need it.
pub fn resolve_cut(len: usize, index: isize) -> (r: Result<usize, Error>)
    requires
        len <= isize::MAX,
    ensures
        names_cut(len as int, index as int) ==> r == Ok::<usize, Error>(
            wrapped(len as int, index as int) as usize,
        ),
        !names_cut(len as int, index as int) ==> r == Err::<usize, Error>(
            Error::IndexOutOfBounds,
        ),
{
    if index >= 0 {
        let offset: usize = index as usize;
        if offset <= len {
            Ok(offset)
        } else {
            Err(Error::IndexOutOfBounds)
        }
    } else {
        let shifted: isize = index + (len as isize);
        if shifted >= 0 {
            Ok(shifted as usize)
        } else {
            Err(Error::IndexOutOfBounds)
        }
    }
}

/// The pair of offsets that a signed half-open range names, each bound
/// wrapped on its own.
pub fn resolve_run(len: usize, start: isize, end: isize) -> (r: Result<(usize, usize), Error>)
    requires
        len <= isize::MAX,
    ensures
        names_run(len as int, start as int, end as int) ==> r == Ok::<(usize, usize), Error>(
            (wrapped(len as int, start as int) as usize, wrapped(len as int, end as int) as usize),
        ),
        !names_run(len as int, start as int, end as int) ==> r == Err::<(usize, usize), Error>(
            Error::IndexOutOfBounds,
        ),
{
    match resolve_cut(len, start) {
        Err(e) => Err(e),
        Ok(from) => match resolve_cut(len, end) {
            Err(e) => Err(e),
            Ok(to) => {
                if from <= to {
                    Ok((from, to))
                } else {
                    Err(Error::IndexOutOfBounds)
                }
            },
        },
    }
}

/// A non-empty container's last item answers to `-1` and to `len - 1`, its
/// first to `-len` and to `0`, and `-len - 1` names nothing.
pub proof fn lemma_wrap_once(len: int)
    requires
        len > 0,
    ensures
        names_item(len, -1) && wrapped(len, -1) == wrapped(len, len - 1) == len - 1,
        names_item(len, -len) && wrapped(len, -len) == wrapped(len, 0) == 0,
        !names_item(len, -len - 1),
{
}

} // verus!
