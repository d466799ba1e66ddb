//! The mathematical model of a hole list: holes are `(address, size)` pairs of
//! integers, kept sorted by address with a gap between any two of them.

use vstd::prelude::*;

verus! {

/// Bytes in a machine word; every hole starts and ends on a word boundary.
pub open spec fn word() -> int {
    usize::BITS as int / 8
}

/// A word is four or eight bytes.
pub proof fn lemma_word()
    ensures
        word() == 4 || word() == 8,
{
    assert(usize::BITS == 32 || usize::BITS == 64);
}

/// The smallest hole: room for a header of two words.
pub open spec fn min_hole() -> int {
    2 * word()
}

/// `a` rounded up to a multiple of `al`.
pub open spec fn align_up(a: int, al: int) -> int {
    if a % al == 0 {
        a
    } else {
        a + (al - a % al)
    }
}

/// `a` rounded down to a multiple of `al`.
pub open spec fn align_down(a: int, al: int) -> int {
    a - a % al
}

/// One past the last byte of a hole.
pub open spec fn hend(x: (int, int)) -> int {
    x.0 + x.1
}

/// A single hole is word aligned, at least `min_hole` bytes, and lies in `[bottom, top)`.
pub open spec fn hole_ok(x: (int, int), bottom: int, top: int) -> bool {
    &&& x.0 % word() == 0
    &&& x.1 % word() == 0
    &&& x.1 >= min_hole()
    &&& bottom <= x.0
    &&& hend(x) <= top
}

/// Every hole is word aligned, big enough and inside `[bottom, top)`.
pub open spec fn holes_in_range(h: Seq<(int, int)>, bottom: int, top: int) -> bool {
    forall|i: int| 0 <= i < h.len() ==> #[trigger] hole_ok(h[i], bottom, top)
}

/// The holes are sorted by address with a gap between any two of them.
pub open spec fn holes_sorted(h: Seq<(int, int)>) -> bool {
    forall|i: int, j: int| 0 <= i < j < h.len() ==> hend(#[trigger] h[i]) < (#[trigger] h[j]).0
}

/// The first hole starts at `bottom` or leaves room for a hole before it, and the last
/// hole ends at `top` or leaves room for a hole after it.
pub open spec fn holes_edges(h: Seq<(int, int)>, bottom: int, top: int) -> bool {
    &&& h.len() > 0 ==> (h[0].0 == bottom || h[0].0 >= bottom + min_hole())
    &&& h.len() > 0 ==> (hend(h.last()) == top || hend(h.last()) + min_hole() <= top)
}

/// A well-formed list of holes over `[bottom, top)`.
pub open spec fn holes_wf(h: Seq<(int, int)>, bottom: int, top: int) -> bool {
    &&& holes_in_range(h, bottom, top)
    &&& holes_sorted(h)
    &&& holes_edges(h, bottom, top)
}

/// The size a request of `size` bytes occupies: at least a hole, rounded up to a word.
pub open spec fn aligned_size(size: int) -> int {
    align_up(if size < min_hole() { min_hole() } else { size }, word())
}

/// Where an allocation aligned to `al` starts inside hole `x`: at the hole itself when
/// it is aligned, else at the first aligned address that leaves a front hole.
pub open spec fn alloc_start(x: (int, int), al: int) -> int {
    if x.0 % al == 0 {
        x.0
    } else {
        align_up(x.0 + min_hole(), al)
    }
}

/// Whether `size` bytes aligned to `al` can be cut out of hole `x`, leaving either
/// nothing or a whole hole behind the allocation.
pub open spec fn split_fits(x: (int, int), size: int, al: int) -> bool {
    let ae = alloc_start(x, al) + size;
    &&& size <= x.1
    &&& ae <= hend(x)
    &&& (ae == hend(x) || align_up(ae, word()) + min_hole() <= hend(x))
}

/// The holes that remain of `x` after the allocation: the front and back paddings.
pub open spec fn split_pads(x: (int, int), size: int, al: int) -> Seq<(int, int)> {
    let st = alloc_start(x, al);
    let ae = st + size;
    let front = if x.0 % al == 0 {
        Seq::<(int, int)>::empty()
    } else {
        seq![(x.0, st - x.0)]
    };
    let back = if ae == hend(x) {
        Seq::<(int, int)>::empty()
    } else {
        seq![(align_up(ae, word()), hend(x) - ae)]
    };
    front + back
}

/// The index of the first hole at or after `i` that fits the request, or the length.
pub open spec fn first_fit_from(h: Seq<(int, int)>, i: int, size: int, al: int) -> int
    decreases h.len() - i,
{
    if i < 0 || i >= h.len() {
        h.len() as int
    } else if split_fits(h[i], size, al) {
        i
    } else {
        first_fit_from(h, i + 1, size, al)
    }
}

/// The index of the first hole that fits the request, or the length when none does.
pub open spec fn first_fit(h: Seq<(int, int)>, size: int, al: int) -> int {
    first_fit_from(h, 0, size, al)
}

/// The holes after a first-fit allocation of `size` bytes aligned to `al`.
pub open spec fn alloc_holes(h: Seq<(int, int)>, size: int, al: int) -> Seq<(int, int)> {
    let i = first_fit(h, size, al);
    if i < h.len() {
        h.subrange(0, i) + split_pads(h[i], size, al) + h.subrange(i + 1, h.len() as int)
    } else {
        h
    }
}

/// The index of the first hole that starts above `a`, or the length.
pub open spec fn ins_idx_from(h: Seq<(int, int)>, j: int, a: int) -> int
    decreases h.len() - j,
{
    if j < 0 || j >= h.len() {
        h.len() as int
    } else if a < h[j].0 {
        j
    } else {
        ins_idx_from(h, j + 1, a)
    }
}

/// Where a freed block at `a` goes: before the first hole that starts above it.
pub open spec fn ins_idx(h: Seq<(int, int)>, a: int) -> int {
    ins_idx_from(h, 0, a)
}

/// A lowest hole that starts too close to `bottom` for a hole in front of it reaches down to `bottom`.
pub open spec fn bottom_adjust(x: (int, int), bottom: int) -> (int, int) {
    if bottom + min_hole() > x.0 {
        (bottom, x.1 + (x.0 - bottom))
    } else {
        x
    }
}

/// A highest hole that ends too close to `top` for a hole behind it reaches up to `top`.
pub open spec fn top_adjust(x: (int, int), top: int) -> (int, int) {
    let e = hend(x);
    if e < top && align_up(e, word()) + min_hole() > top {
        (x.0, x.1 + (top - e))
    } else {
        x
    }
}

/// The holes after the block `[a, a + s)` is given back: it is inserted in address
/// order and merged with the hole before and the hole after it where they touch;
/// a block that becomes the lowest hole is stretched down to `bottom`, and one that
/// becomes the highest hole behind all others is stretched up to `top`, where the
/// gap is too small for a hole.
pub open spec fn dealloc_holes(h: Seq<(int, int)>, a: int, s: int, bottom: int, top: int) -> Seq<(int, int)> {
    let k = ins_idx(h, a);
    if h.len() == 0 {
        seq![top_adjust(bottom_adjust((a, s), bottom), top)]
    } else if k == 0 {
        let n = bottom_adjust((a, s), bottom);
        if hend(n) == h[0].0 {
            seq![(n.0, n.1 + h[0].1)] + h.drop_first()
        } else {
            seq![n] + h
        }
    } else {
        let p = h[k - 1];
        let touch = hend(p) == a;
        let m = if touch { (p.0, p.1 + s) } else { (a, s) };
        let pre = if touch { h.subrange(0, k - 1) } else { h.subrange(0, k) };
        if k < h.len() {
            if hend(m) == h[k].0 {
                pre + seq![(m.0, m.1 + h[k].1)] + h.subrange(k + 1, h.len() as int)
            } else {
                pre + seq![m] + h.subrange(k, h.len() as int)
            }
        } else {
            pre + seq![top_adjust(m, top)]
        }
    }
}

/// The block `[a, a + s)` is a word-aligned run in `[bottom, top)` that overlaps no hole.
pub open spec fn block_free(h: Seq<(int, int)>, a: int, s: int, bottom: int, top: int) -> bool {
    &&& a % word() == 0
    &&& s % word() == 0
    &&& s >= min_hole()
    &&& bottom <= a
    &&& a + s <= top
    &&& forall|j: int| 0 <= j < h.len() ==> hend(#[trigger] h[j]) <= a || a + s <= h[j].0
}

} // verus!
