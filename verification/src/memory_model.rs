//! The memory of a process as a mathematical value, and what writes do to it.
use vstd::prelude::*;

use crate::host_ops::WriteView;

verus! {

/// The memory after some writes, one after the other.
pub open spec fn after_writes(mem: spec_fn(int) -> u8, w: Seq<WriteView>) -> spec_fn(int) -> u8
    decreases w.len(),
{
    if w.len() == 0 {
        mem
    } else {
        let before = after_writes(mem, w.drop_last());
        let last = w.last();
        |a: int|
            if last.addr <= a < last.addr + last.bytes.len() {
                last.bytes[a - last.addr]
            } else {
                before(a)
            }
    }
}

/// The `n` bytes that the memory holds from `addr` on.
pub open spec fn held(mem: spec_fn(int) -> u8, addr: int, n: nat) -> Seq<u8> {
    Seq::new(n, |i: int| mem(addr + i))
}

/// The bytes of some writes, one behind the other.
pub open spec fn bytes_of(w: Seq<WriteView>) -> Seq<u8>
    decreases w.len(),
{
    if w.len() == 0 {
        Seq::empty()
    } else {
        bytes_of(w.drop_last()) + w.last().bytes
    }
}

/// The writes lie one behind the other from `addr` on: each starts where the one
/// before it ends.
pub open spec fn tiles(w: Seq<WriteView>, addr: int) -> bool {
    forall|k: int|
        0 <= k < w.len() ==> (#[trigger] w[k]).addr == addr + bytes_of(w.subrange(0, k)).len()
}

/// Writes that lie one behind the other leave their bytes in memory, in order, and
/// touch nothing else.
pub proof fn tiled_writes_are_held(mem: spec_fn(int) -> u8, w: Seq<WriteView>, addr: int)
    requires
        tiles(w, addr),
    ensures
        held(after_writes(mem, w), addr, bytes_of(w).len()) == bytes_of(w),
        forall|a: int|
            a < addr || addr + bytes_of(w).len() <= a ==> #[trigger] after_writes(mem, w)(a)
                == mem(a),
    decreases w.len(),
{
    if w.len() > 0 {
        let rest = w.drop_last();
        assert forall|k: int| 0 <= k < rest.len() implies (#[trigger] rest[k]).addr == addr
            + bytes_of(rest.subrange(0, k)).len() by {
            assert(rest.subrange(0, k) =~= w.subrange(0, k));
            assert(rest[k] == w[k]);
        }
        tiled_writes_are_held(mem, rest, addr);
        assert(w.subrange(0, w.len() - 1) =~= rest);
        let last = w.last();
        let b = bytes_of(rest);
        assert(w[w.len() - 1].addr == addr + b.len());
        let now = after_writes(mem, w);
        let was = after_writes(mem, rest);
        assert forall|i: int| 0 <= i < bytes_of(w).len() implies now(addr + i) == bytes_of(w)[i] by {
            if i < b.len() {
                assert(held(was, addr, b.len())[i] == b[i]);
            }
        }
        assert(held(now, addr, bytes_of(w).len()) =~= bytes_of(w));
    } else {
        assert(held(mem, addr, 0) =~= Seq::empty());
    }
}

/// Where each write is of `width` bytes, the bytes of the write number `k` start at
/// `k * width`.
pub proof fn lemma_equal_writes(w: Seq<WriteView>, width: nat)
    requires
        forall|k: int| 0 <= k < w.len() ==> (#[trigger] w[k]).bytes.len() == width,
    ensures
        bytes_of(w).len() == w.len() * width,
        forall|k: int|
            0 <= k < w.len() ==> bytes_of(w).subrange(k * width, k * width + width)
                == #[trigger] w[k].bytes,
    decreases w.len(),
{
    if w.len() > 0 {
        let rest = w.drop_last();
        assert forall|k: int| 0 <= k < rest.len() implies (#[trigger] rest[k]).bytes.len()
            == width by {
            assert(rest[k] == w[k]);
        }
        lemma_equal_writes(rest, width);
        let n = rest.len() as int;
        assert(w.len() * width == n * width + width) by (nonlinear_arith)
            requires
                w.len() == n + 1,
        ;
        assert(w[n].bytes.len() == width);
        assert forall|k: int| 0 <= k < w.len() implies bytes_of(w).subrange(
            k * width,
            k * width + width,
        ) == #[trigger] w[k].bytes by {
            if k < n {
                assert(k * width + width <= n * width) by (nonlinear_arith)
                    requires
                        k + 1 <= n,
                ;
                assert(0 <= k * width) by (nonlinear_arith)
                    requires
                        0 <= k,
                ;
                assert(rest[k] == w[k]);
                assert(bytes_of(w).subrange(k * width, k * width + width) =~= bytes_of(
                    rest,
                ).subrange(k * width, k * width + width));
            } else {
                assert(bytes_of(w).subrange(k * width, k * width + width) =~= w[k].bytes);
            }
        }
    } else {
        assert(0 * width == 0) by (nonlinear_arith);
    }
}

/// Writes of `width` bytes each that start `width` bytes apart lie one behind the
/// other.
pub proof fn lemma_spaced_writes_tile(w: Seq<WriteView>, addr: int, width: nat)
    requires
        forall|k: int|
            0 <= k < w.len() ==> (#[trigger] w[k]).bytes.len() == width && w[k].addr == addr + k
                * width,
    ensures
        tiles(w, addr),
{
    assert forall|k: int| 0 <= k < w.len() implies (#[trigger] w[k]).addr == addr + bytes_of(
        w.subrange(0, k),
    ).len() by {
        let part = w.subrange(0, k);
        assert forall|j: int| 0 <= j < part.len() implies (#[trigger] part[j]).bytes.len()
            == width by {
            assert(part[j] == w[j]);
        }
        lemma_equal_writes(part, width);
    }
}

/// What a part of the memory holds is a part of what it holds.
pub proof fn lemma_held_part(mem: spec_fn(int) -> u8, addr: int, n: nat, from: int, len: nat)
    requires
        0 <= from,
        from + len <= n,
    ensures
        held(mem, addr, n).subrange(from, from + len) == held(mem, addr + from, len),
{
    assert(held(mem, addr, n).subrange(from, from + len) =~= held(mem, addr + from, len));
}

/// Of writes of `width` bytes each that start `width` bytes apart, each is held where
/// it was written.
pub proof fn lemma_spaced_write_is_held(
    mem: spec_fn(int) -> u8,
    w: Seq<WriteView>,
    addr: int,
    width: nat,
    k: int,
)
    requires
        forall|k: int|
            0 <= k < w.len() ==> (#[trigger] w[k]).bytes.len() == width && w[k].addr == addr + k
                * width,
        0 <= k < w.len(),
    ensures
        held(after_writes(mem, w), addr + k * width, width) == w[k].bytes,
{
    lemma_spaced_writes_tile(w, addr, width);
    lemma_equal_writes(w, width);
    tiled_writes_are_held(mem, w, addr);
    assert(0 <= k * width && k * width + width <= w.len() * width) by (nonlinear_arith)
        requires
            0 <= k,
            k + 1 <= w.len(),
    ;
    lemma_held_part(after_writes(mem, w), addr, bytes_of(w).len(), k * width, width);
    assert(bytes_of(w).subrange(k * width, k * width + width) == w[k].bytes);
}

/// The two writes touch no byte in common.
pub open spec fn apart(a: WriteView, b: WriteView) -> bool {
    a.addr + a.bytes.len() <= b.addr || b.addr + b.bytes.len() <= a.addr
}

/// Writes that touch no byte in common are all held where they were written.
pub proof fn lemma_apart_write_is_held(mem: spec_fn(int) -> u8, w: Seq<WriteView>, k: int)
    requires
        forall|i: int, j: int| 0 <= i < j < w.len() ==> apart(#[trigger] w[i], #[trigger] w[j]),
        0 <= k < w.len(),
    ensures
        held(after_writes(mem, w), w[k].addr as int, w[k].bytes.len()) == w[k].bytes,
    decreases w.len(),
{
    let rest = w.drop_last();
    let now = after_writes(mem, w);
    let was = after_writes(mem, rest);
    let last = w.last();
    if k < rest.len() {
        assert forall|i: int, j: int| 0 <= i < j < rest.len() implies apart(
            #[trigger] rest[i],
            #[trigger] rest[j],
        ) by {
            assert(apart(w[i], w[j]));
        }
        lemma_apart_write_is_held(mem, rest, k);
        assert(apart(w[k], w[w.len() - 1]));
        assert forall|i: int| 0 <= i < w[k].bytes.len() implies now(w[k].addr + i) == w[k].bytes[i] by {
            assert(held(was, w[k].addr as int, w[k].bytes.len())[i] == w[k].bytes[i]);
        }
    }
    assert(held(now, w[k].addr as int, w[k].bytes.len()) =~= w[k].bytes);
}

} // verus!
