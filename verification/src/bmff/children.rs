//! Child boxes inside a container box: each a 32-bit size (at least 8), a
//! four-character type and `size - 8` bytes of payload, one after the other.

use vstd::prelude::*;
use crate::error::{bmff, eof, BmffError, Error, IoErrorKind, Result};
use crate::io::{be32, ReadStream};

verus! {

/// The child box whose header starts at `p`: its type, and where its payload
/// starts and ends; or why it cannot be read.
pub open spec fn child_at(d: Seq<u8>, p: int) -> Result<(Seq<u8>, int, int)> {
    if d.len() - p < 4 {
        Err(eof())
    } else if be32(d, p) < 8 {
        Err(bmff(BmffError::InvalidBoxSize))
    } else if d.len() - (p + 4) < 4 {
        Err(eof())
    } else if d.len() - (p + 8) < be32(d, p) - 8 {
        Err(eof())
    } else {
        Ok((d.subrange(p + 4, p + 8), p + 8, p + be32(d, p)))
    }
}

/// The child boxes from `p` to the end of `d`, folded with `step` from `acc`:
/// the first error of a header or of a step, else the final value. With
/// `lenient`, fewer than eight bytes at the end end the walk without error.
pub open spec fn walk<A>(
    d: Seq<u8>,
    p: int,
    acc: A,
    step: spec_fn(A, Seq<u8>, Seq<u8>) -> Result<A>,
    lenient: bool,
) -> Result<A>
    decreases d.len() - p,
{
    if p < 0 || p >= d.len() {
        Ok(acc)
    } else if lenient && d.len() - p < 8 {
        Ok(acc)
    } else if d.len() - p < 4 {
        Err(eof())
    } else if be32(d, p) < 8 {
        Err(bmff(BmffError::InvalidBoxSize))
    } else if d.len() - (p + 4) < 4 {
        Err(eof())
    } else if d.len() - (p + 8) < be32(d, p) - 8 {
        Err(eof())
    } else {
        match step(acc, d.subrange(p + 4, p + 8), d.subrange(p + 8, p + be32(d, p))) {
            Err(e) => Err(e),
            Ok(next) => walk(d, p + be32(d, p), next, step, lenient),
        }
    }
}

/// A child box that may occur once: refused the second time, else taken up if
/// its payload parses.
pub open spec fn take_once(slot: Option<Seq<u8>>, code: [u8; 4], outcome: Result<()>, payload: Seq<u8>) -> Result<Option<Seq<u8>>> {
    if slot is Some {
        Err(bmff(BmffError::DuplicateBox(code)))
    } else {
        match outcome {
            Err(e) => Err(e),
            Ok(_) => Ok(Some(payload)),
        }
    }
}

/// The types equal to `c`.
pub open spec fn is_code(c: Seq<u8>) -> spec_fn(Seq<u8>) -> bool {
    |t: Seq<u8>| t == c
}

/// How many child boxes from `p` on have a type for which `is_t` holds: the
/// children are those that a walk reads, up to the end, a malformed header or
/// (with `lenient`) fewer than eight bytes at the end.
pub open spec fn child_count(d: Seq<u8>, p: int, is_t: spec_fn(Seq<u8>) -> bool, lenient: bool) -> nat
    decreases d.len() - p,
{
    if p < 0 || p >= d.len() {
        0
    } else if lenient && d.len() - p < 8 {
        0
    } else if d.len() - p < 4 || be32(d, p) < 8 || d.len() - (p + 4) < 4 || d.len() - (p + 8) < be32(d, p) - 8 {
        0
    } else {
        (if is_t(d.subrange(p + 4, p + 8)) { 1nat } else { 0nat }) + child_count(d, p + be32(d, p), is_t, lenient)
    }
}

/// Every child box header from `p` on is well formed: a size of at least eight
/// that fits in the data (with `lenient`, fewer than eight bytes may end it).
pub open spec fn headers_ok(d: Seq<u8>, p: int, lenient: bool) -> bool
    decreases d.len() - p,
{
    if p < 0 || p >= d.len() {
        true
    } else if lenient && d.len() - p < 8 {
        true
    } else if d.len() - p < 4 || be32(d, p) < 8 || d.len() - (p + 4) < 4 || d.len() - (p + 8) < be32(d, p) - 8 {
        false
    } else {
        headers_ok(d, p + be32(d, p), lenient)
    }
}

/// A walk that succeeds has read only well-formed child headers.
pub proof fn lemma_walk_headers<A>(
    d: Seq<u8>,
    p: int,
    acc: A,
    step: spec_fn(A, Seq<u8>, Seq<u8>) -> Result<A>,
    lenient: bool,
)
    ensures
        walk(d, p, acc, step, lenient) is Ok ==> headers_ok(d, p, lenient),
    decreases d.len() - p,
{
    if 0 <= p < d.len() && !(lenient && d.len() - p < 8) && !(d.len() - p < 4 || be32(d, p) < 8
        || d.len() - (p + 4) < 4 || d.len() - (p + 8) < be32(d, p) - 8) {
        match step(acc, d.subrange(p + 4, p + 8), d.subrange(p + 8, p + be32(d, p))) {
            Err(_) => {},
            Ok(next) => lemma_walk_headers(d, p + be32(d, p), next, step, lenient),
        }
    }
}

/// A walk whose step adds one to `n` for each child of a type in `is_t` and
/// keeps it for the others ends, when it succeeds, with `n` grown by the
/// number of such children.
pub proof fn lemma_walk_counts<A>(
    d: Seq<u8>,
    p: int,
    acc: A,
    step: spec_fn(A, Seq<u8>, Seq<u8>) -> Result<A>,
    lenient: bool,
    is_t: spec_fn(Seq<u8>) -> bool,
    n: spec_fn(A) -> int,
)
    requires
        forall|a: A, u: Seq<u8>, pl: Seq<u8>| #[trigger] step(a, u, pl) matches Ok(b) ==> n(b) == n(a) + if is_t(u) { 1int } else { 0int },
    ensures
        walk(d, p, acc, step, lenient) matches Ok(a) ==> n(a) == n(acc) + child_count(d, p, is_t, lenient),
    decreases d.len() - p,
{
    if 0 <= p < d.len() && !(lenient && d.len() - p < 8) && !(d.len() - p < 4 || be32(d, p) < 8
        || d.len() - (p + 4) < 4 || d.len() - (p + 8) < be32(d, p) - 8) {
        match step(acc, d.subrange(p + 4, p + 8), d.subrange(p + 8, p + be32(d, p))) {
            Err(_) => {},
            Ok(next) => lemma_walk_counts(d, p + be32(d, p), next, step, lenient, is_t, n),
        }
    }
}

/// A walk whose step refuses a child of a type in `is_t` once `present` holds,
/// and makes and keeps `present` true from such a child on, fails when two
/// such children occur, or one occurs where `present` already holds.
pub proof fn lemma_walk_once<A>(
    d: Seq<u8>,
    p: int,
    acc: A,
    step: spec_fn(A, Seq<u8>, Seq<u8>) -> Result<A>,
    lenient: bool,
    is_t: spec_fn(Seq<u8>) -> bool,
    present: spec_fn(A) -> bool,
)
    requires
        forall|a: A, u: Seq<u8>, pl: Seq<u8>| is_t(u) && present(a) ==> #[trigger] step(a, u, pl) is Err,
        forall|a: A, u: Seq<u8>, pl: Seq<u8>| #[trigger] step(a, u, pl) matches Ok(b) ==> ((present(a) || is_t(u)) ==> present(b)),
    ensures
        child_count(d, p, is_t, lenient) >= 2 ==> walk(d, p, acc, step, lenient) is Err,
        present(acc) && child_count(d, p, is_t, lenient) >= 1 ==> walk(d, p, acc, step, lenient) is Err,
    decreases d.len() - p,
{
    if 0 <= p < d.len() && !(lenient && d.len() - p < 8) && !(d.len() - p < 4 || be32(d, p) < 8
        || d.len() - (p + 4) < 4 || d.len() - (p + 8) < be32(d, p) - 8) {
        let u = d.subrange(p + 4, p + 8);
        let pl = d.subrange(p + 8, p + be32(d, p));
        match step(acc, u, pl) {
            Err(_) => {},
            Ok(next) => lemma_walk_once(d, p + be32(d, p), next, step, lenient, is_t, present),
        }
    }
}

/// A walk whose step makes `present` true at a child of a type in `is_t` and
/// keeps it as it was at the others ends, when it succeeds, with `present`
/// exactly when it held before or such a child occurred.
pub proof fn lemma_walk_presence<A>(
    d: Seq<u8>,
    p: int,
    acc: A,
    step: spec_fn(A, Seq<u8>, Seq<u8>) -> Result<A>,
    lenient: bool,
    is_t: spec_fn(Seq<u8>) -> bool,
    present: spec_fn(A) -> bool,
)
    requires
        forall|a: A, u: Seq<u8>, pl: Seq<u8>| #[trigger] step(a, u, pl) matches Ok(b) ==> present(b) == (present(a) || is_t(u)),
    ensures
        walk(d, p, acc, step, lenient) matches Ok(a) ==> (present(a) <==> (present(acc) || child_count(d, p, is_t, lenient) > 0)),
    decreases d.len() - p,
{
    if 0 <= p < d.len() && !(lenient && d.len() - p < 8) && !(d.len() - p < 4 || be32(d, p) < 8
        || d.len() - (p + 4) < 4 || d.len() - (p + 8) < be32(d, p) - 8) {
        match step(acc, d.subrange(p + 4, p + 8), d.subrange(p + 8, p + be32(d, p))) {
            Err(_) => {},
            Ok(next) => lemma_walk_presence(d, p + be32(d, p), next, step, lenient, is_t, present),
        }
    }
}

/// Read the header of the child box at the stream's position: its type and
/// payload size. The stream then stands at the payload.
pub fn read_child_header(stream: &mut ReadStream) -> (r: Result<([u8; 4], usize)>)
    requires
        old(stream).inv(),
    ensures
        final(stream).inv(),
        final(stream).bytes() == old(stream).bytes(),
        match child_at(old(stream).bytes(), old(stream).pos()) {
            Err(e) => r == Err::<([u8; 4], usize), Error>(e),
            Ok((t, s, e)) => (r matches Ok((ty, n)) && ty@ == t && n == e - s) && final(stream).pos() == s,
        },
{
    let ghost d = stream.bytes();
    let ghost p = stream.pos();
    let box_size = stream.read_u32()? as usize;
    if box_size < 8 {
        return Err(Error::BmffParse(BmffError::InvalidBoxSize));
    }
    let box_type = stream.read_code()?;
    let data_size = box_size - 8;
    if data_size > stream.remaining_bytes() {
        return Err(Error::Io(IoErrorKind::UnexpectedEof));
    }
    Ok((box_type, data_size))
}

} // verus!
