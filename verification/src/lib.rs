//! A hybrid memory/disk virtual-file abstraction.
//!
//! A logical file is an ordered sequence of fixed-capacity chunks, each chunk
//! living either in memory (granted by a chunk allocator) or as a byte range of
//! a backing storage stream.  Files are created and looked up through a
//! registry keyed by path, opened for reading or writing with reference-counted
//! mode switching, filled through bump-style space reservation, and flushed to
//! storage in strict append order through a flush queue.

use vstd::prelude::*;

pub mod allocator;
pub mod chunk;
pub mod storage;
pub mod swap;
pub mod file;
pub mod registry;
pub mod flush;
pub mod laws;

verus! {

/// Errors returned for recoverable misuse of the file abstraction.
#[derive(Clone, Copy, Debug, PartialEq, Eq, Structural)]
pub enum FsError {
    /// `open` was called with a mode different from the one currently held
    /// while references to the file remain.
    AlreadyOpen,
    /// `close` was called on a file whose open reference count is zero.
    NotOpen,
    /// A disk-backed chunk was read without a usable read view: the file is
    /// not in read mode, the view could not be mapped, or the recorded byte
    /// range lies outside the view.
    NoReadView,
}

/// `dst` with `src` written at offset `off`, extended with zeroes if `src`
/// reaches past the end of `dst`.
pub open spec fn overwrite_bytes(dst: Seq<u8>, off: int, src: Seq<u8>) -> Seq<u8> {
    let n = if dst.len() >= off + src.len() {
        dst.len() as int
    } else {
        off + src.len()
    };
    Seq::new(n as nat, |i: int| {
        if off <= i < off + src.len() {
            src[i - off]
        } else if i < dst.len() {
            dst[i]
        } else {
            0u8
        }
    })
}

/// Returns a fresh copy of `src`.
pub fn copy_bytes(src: &Vec<u8>) -> (r: Vec<u8>)
    ensures
        r@ == src@,
{
    let n: usize = src.len();
    let mut out: Vec<u8> = Vec::new();
    let mut i: usize = 0;
    while i < n
        invariant
            i <= n,
            n == src@.len(),
            out@ == src@.take(i as int),
        decreases n - i,
    {
        let b = src[i];
        out.push(b);
        i = i + 1;
        proof {
            assert(out@ =~= src@.take(i as int));
        }
    }
    proof {
        assert(out@ =~= src@);
    }
    out
}

} // verus!
