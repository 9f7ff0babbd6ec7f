//! Splitting `len` items into consecutive chunks of at most `chunk_size`.
//!
//! Chunk `k` covers the indices from `chunk_start(len, chunk_size, k)` up
//! to, not including, `chunk_end(len, chunk_size, k)`. Every chunk but the
//! last is full; the last holds what is left.

use vstd::prelude::*;

verus! {

/// How many chunks `len` items fall into: `len / chunk_size`, rounded up.
///
/// The definition is opaque, so that proofs meet the division only where
/// they ask for it; [`lemma_chunk_count_bounds`] says all there is to know.
#[verifier::opaque]
pub open spec fn chunk_count(len: nat, chunk_size: nat) -> nat
    recommends
        chunk_size >= 1,
{
    ((len + chunk_size - 1) / (chunk_size as int)) as nat
}

/// The index of the first item of chunk `k`, or `len` if there is no such chunk.
pub open spec fn chunk_start(len: nat, chunk_size: nat, k: nat) -> nat {
    if k * chunk_size <= len {
        k * chunk_size
    } else {
        len
    }
}

/// The index just past the last item of chunk `k`.
pub open spec fn chunk_end(len: nat, chunk_size: nat, k: nat) -> nat {
    chunk_start(len, chunk_size, k + 1)
}

/// The chunk that the item at `index` belongs to.
pub open spec fn chunk_of(index: nat, chunk_size: nat) -> nat
    recommends
        chunk_size >= 1,
{
    index / chunk_size
}

/// The chunk count is the least number of chunks that hold all items:
/// that many chunks have room for `len` items, one chunk less has not,
/// and there are never more chunks than items.
pub proof fn lemma_chunk_count_bounds(len: nat, chunk_size: nat)
    requires
        chunk_size >= 1,
    ensures
        chunk_count(len, chunk_size) * chunk_size >= len,
        len > 0 ==> (chunk_count(len, chunk_size) - 1) * chunk_size < len,
        len == 0 <==> chunk_count(len, chunk_size) == 0,
        chunk_count(len, chunk_size) <= len,
{
    reveal(chunk_count);
    let c = chunk_size as int;
    let n = len + chunk_size - 1;
    let q = n / c;
    assert(n == c * q + n % c && 0 <= n % c < c) by (nonlinear_arith)
        requires
            c >= 1,
            q == n / c,
    ;
    assert(q * c == c * q) by (nonlinear_arith);
    assert((q - 1) * c == q * c - c) by (nonlinear_arith);
    if len == 0 {
        assert(q == 0) by (nonlinear_arith)
            requires
                n == c * q + n % c,
                0 <= n % c < c,
                n == c - 1,
                c >= 1,
        ;
    } else {
        assert(1 <= q <= len) by (nonlinear_arith)
            requires
                n == c * q + n % c,
                0 <= n % c < c,
                n == len + c - 1,
                len >= 1,
                c >= 1,
        ;
    }
}

/// Only the chunk count lies within the bounds of
/// [`lemma_chunk_count_bounds`].
pub proof fn lemma_chunk_count_unique(len: nat, chunk_size: nat, count: nat)
    requires
        chunk_size >= 1,
        count * chunk_size >= len,
        len > 0 ==> (count - 1) * chunk_size < len,
        len == 0 ==> count == 0,
    ensures
        count == chunk_count(len, chunk_size),
{
    lemma_chunk_count_bounds(len, chunk_size);
    let c = chunk_size as int;
    let q = chunk_count(len, chunk_size) as int;
    let k = count as int;
    if len > 0 {
        assert(k == q) by (nonlinear_arith)
            requires
                c >= 1,
                k * c >= len,
                (k - 1) * c < len,
                q * c >= len,
                (q - 1) * c < len,
        ;
    }
}

/// The chunks tile the items: they start at 0, each begins where the one
/// before ended, none is longer than `chunk_size`, every chunk before the
/// last is full, no chunk is empty, and the last ends at `len`.
pub proof fn lemma_chunks_tile(len: nat, chunk_size: nat, k: nat)
    requires
        chunk_size >= 1,
    ensures
        chunk_start(len, chunk_size, 0) == 0,
        chunk_end(len, chunk_size, k) == chunk_start(len, chunk_size, k + 1),
        chunk_start(len, chunk_size, k) <= chunk_end(len, chunk_size, k) <= len,
        chunk_end(len, chunk_size, k) - chunk_start(len, chunk_size, k) <= chunk_size,
        k < chunk_count(len, chunk_size) ==> chunk_start(len, chunk_size, k) == k * chunk_size,
        k < chunk_count(len, chunk_size) ==> chunk_start(len, chunk_size, k) < chunk_end(
            len,
            chunk_size,
            k,
        ),
        k + 1 < chunk_count(len, chunk_size) ==> chunk_end(len, chunk_size, k) - chunk_start(
            len,
            chunk_size,
            k,
        ) == chunk_size,
        k + 1 >= chunk_count(len, chunk_size) ==> chunk_end(len, chunk_size, k) == len,
{
    lemma_chunk_count_bounds(len, chunk_size);
    let c = chunk_size as int;
    let q = chunk_count(len, chunk_size) as int;
    let ki = k as int;
    assert((ki + 1) * c == ki * c + c) by (nonlinear_arith);
    assert(0 * c == 0) by (nonlinear_arith);
    assert(ki * c >= 0) by (nonlinear_arith)
        requires
            ki >= 0,
            c >= 1,
    ;
    if ki < q {
        assert(ki * c <= (q - 1) * c) by (nonlinear_arith)
            requires
                ki <= q - 1,
                c >= 1,
        ;
    }
    if ki + 1 < q {
        assert((ki + 1) * c <= (q - 1) * c) by (nonlinear_arith)
            requires
                ki + 1 <= q - 1,
                c >= 1,
        ;
    }
    if ki + 1 >= q {
        assert((ki + 1) * c >= q * c) by (nonlinear_arith)
            requires
                ki + 1 >= q,
                c >= 1,
        ;
    }
}

/// Counts the chunks that `len` items fall into.
pub fn count_chunks(len: usize, chunk_size: usize) -> (count: usize)
    requires
        chunk_size >= 1,
    ensures
        count == chunk_count(len as nat, chunk_size as nat),
{
    let full: usize = len / chunk_size;
    let rest: usize = len % chunk_size;
    proof {
        let c = chunk_size as int;
        assert(len == c * (len as int / c) + (len as int % c) && 0 <= (len as int % c) < c)
            by (nonlinear_arith)
            requires
                c >= 1,
                len >= 0,
        ;
        assert((full as int) * c == c * (full as int)) by (nonlinear_arith);
        assert((full as int + 1) * c == (full as int) * c + c) by (nonlinear_arith);
        assert((full as int - 1) * c == (full as int) * c - c) by (nonlinear_arith);
        assert(full as int * c <= len);
        assert(full <= len) by (nonlinear_arith)
            requires
                full as int * c <= len,
                c >= 1,
                full >= 0,
        ;
        if rest == 0 {
            lemma_chunk_count_unique(len as nat, chunk_size as nat, full as nat);
        } else {
            assert(full + 1 <= len) by (nonlinear_arith)
                requires
                    full as int * c + 1 <= len,
                    c >= 1,
                    full >= 0,
            ;
            lemma_chunk_count_unique(len as nat, chunk_size as nat, (full + 1) as nat);
        }
    }
    if rest == 0 {
        full
    } else {
        full + 1
    }
}

/// The half-open index range `(start, end)` of chunk `k`.
///
/// For `k` at or past the number of chunks the range is the empty range
/// at `len`.
pub fn chunk_bounds(len: usize, chunk_size: usize, k: usize) -> (bounds: (usize, usize))
    requires
        chunk_size >= 1,
    ensures
        bounds.0 == chunk_start(len as nat, chunk_size as nat, k as nat),
        bounds.1 == chunk_end(len as nat, chunk_size as nat, k as nat),
{
    let full: usize = len / chunk_size;
    proof {
        let c = chunk_size as int;
        let ki = k as int;
        assert(len == c * (len as int / c) + (len as int % c) && 0 <= (len as int % c) < c)
            by (nonlinear_arith)
            requires
                c >= 1,
                len >= 0,
        ;
        assert((full as int) * c == c * (full as int)) by (nonlinear_arith);
        assert((ki + 1) * c == ki * c + c) by (nonlinear_arith);
        if ki <= full {
            assert(ki * c <= full as int * c) by (nonlinear_arith)
                requires
                    ki <= full as int,
                    c >= 1,
            ;
        } else {
            assert(ki * c >= (full as int + 1) * c) by (nonlinear_arith)
                requires
                    ki >= full as int + 1,
                    c >= 1,
            ;
            assert((full as int + 1) * c == (full as int) * c + c) by (nonlinear_arith);
        }
    }
    if k > full {
        (len, len)
    } else {
        let start: usize = k * chunk_size;
        if len - start <= chunk_size {
            (start, len)
        } else {
            (start, start + chunk_size)
        }
    }
}

} // verus!
