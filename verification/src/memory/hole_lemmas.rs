//! Facts about the hole-list model that the allocator's proofs rest on.

use vstd::prelude::*;
use vstd::arithmetic::power2::is_pow2;
use vstd::arithmetic::div_mod::{lemma_fundamental_div_mod, lemma_mod_multiples_basic};
use crate::memory::hole_spec::{
    bottom_adjust, dealloc_holes, top_adjust, align_down, align_up, alloc_holes, block_free, holes_edges, holes_wf, split_pads, alloc_start, first_fit, first_fit_from, hend, hole_ok, holes_in_range, holes_sorted,
    ins_idx, ins_idx_from, lemma_word, min_hole, split_fits, word,
};

verus! {

/// The freed block at `a` goes after every hole that starts at or below `a` and before
/// the first one that starts above it.
proof fn lemma_ins_idx_from(h: Seq<(int, int)>, j: int, a: int)
    requires
        0 <= j <= h.len(),
        forall|i: int| 0 <= i < j ==> h[i].0 <= a,
    ensures
        j <= ins_idx_from(h, j, a) <= h.len(),
        forall|i: int| 0 <= i < ins_idx_from(h, j, a) ==> h[i].0 <= a,
        ins_idx_from(h, j, a) < h.len() ==> a < h[ins_idx_from(h, j, a)].0,
    decreases h.len() - j,
{
    if j < h.len() && !(a < h[j].0) {
        lemma_ins_idx_from(h, j + 1, a);
    }
}

/// Where `ins_idx` puts a block at `a`.
pub proof fn lemma_ins_idx(h: Seq<(int, int)>, a: int)
    ensures
        0 <= ins_idx(h, a) <= h.len(),
        forall|i: int| 0 <= i < ins_idx(h, a) ==> h[i].0 <= a,
        ins_idx(h, a) < h.len() ==> a < h[ins_idx(h, a)].0,
{
    lemma_ins_idx_from(h, 0, a);
}

/// `first_fit_from` finds the first fitting hole at or after `i`.
proof fn lemma_first_fit_from(h: Seq<(int, int)>, i: int, size: int, al: int)
    requires
        0 <= i <= h.len(),
    ensures
        i <= first_fit_from(h, i, size, al) <= h.len(),
        first_fit_from(h, i, size, al) < h.len() ==> split_fits(
            h[first_fit_from(h, i, size, al)],
            size,
            al,
        ),
        forall|j: int| i <= j < first_fit_from(h, i, size, al) ==> !split_fits(h[j], size, al),
    decreases h.len() - i,
{
    if i < h.len() && !split_fits(h[i], size, al) {
        lemma_first_fit_from(h, i + 1, size, al);
    }
}

/// `first_fit` is the index of the first hole that fits, or the length.
pub proof fn lemma_first_fit(h: Seq<(int, int)>, size: int, al: int)
    ensures
        0 <= first_fit(h, size, al) <= h.len(),
        first_fit(h, size, al) < h.len() ==> split_fits(h[first_fit(h, size, al)], size, al),
        forall|j: int| 0 <= j < first_fit(h, size, al) ==> !split_fits(h[j], size, al),
{
    lemma_first_fit_from(h, 0, size, al);
}

/// A multiple of a multiple of `a` is a multiple of `a`.
pub proof fn lemma_mod_trans(x: int, b: int, a: int)
    requires
        a > 0,
        b > 0,
        x % b == 0,
        b % a == 0,
    ensures
        x % a == 0,
{
    lemma_fundamental_div_mod(x, b);
    lemma_fundamental_div_mod(b, a);
    assert(x == a * ((b / a) * (x / b))) by (nonlinear_arith)
        requires
            x == b * (x / b) + x % b,
            b == a * (b / a) + b % a,
            x % b == 0,
            b % a == 0,
    ;
    lemma_mod_multiples_basic((b / a) * (x / b), a);
    assert(((b / a) * (x / b)) * a == a * ((b / a) * (x / b))) by (nonlinear_arith);
}

/// Of two powers of two, the larger is a multiple of the smaller.
pub proof fn lemma_pow2_divides(a: int, b: int)
    requires
        is_pow2(a),
        is_pow2(b),
        a <= b,
    ensures
        b % a == 0,
    decreases b,
{
    reveal(is_pow2);
    if a == 1 {
    } else {
        assert(a % 2 == 0 && is_pow2(a / 2));
        assert(b != 1);
        assert(b % 2 == 0 && is_pow2(b / 2));
        lemma_pow2_divides(a / 2, b / 2);
        lemma_fundamental_div_mod(b / 2, a / 2);
        let q = (b / 2) / (a / 2);
        assert(b == a * q) by (nonlinear_arith)
            requires
                b / 2 == (a / 2) * q + (b / 2) % (a / 2),
                (b / 2) % (a / 2) == 0,
                b % 2 == 0,
                a % 2 == 0,
        ;
        lemma_mod_multiples_basic(q, a);
        assert(q * a == a * q) by (nonlinear_arith);
    }
}

/// The word size is a power of two.
pub proof fn lemma_word_pow2()
    ensures
        is_pow2(word()),
{
    lemma_word();
    reveal_with_fuel(is_pow2, 4);
}

/// `align_up(a, al)` is the least multiple of `al` at or above `a`.
pub proof fn lemma_align_up(a: int, al: int)
    requires
        a >= 0,
        al > 0,
    ensures
        align_up(a, al) % al == 0,
        a <= align_up(a, al) < a + al,
        a % al == 0 ==> align_up(a, al) == a,
{
    lemma_fundamental_div_mod(a, al);
    assert(0 <= a % al < al) by (nonlinear_arith)
        requires
            al > 0,
    ;
    if a % al != 0 {
        assert(a + (al - a % al) == (a / al + 1) * al) by (nonlinear_arith)
            requires
                a == al * (a / al) + a % al,
        ;
        lemma_mod_multiples_basic(a / al + 1, al);
    }
}

/// The start of an allocation inside a word-aligned hole is word aligned, and a
/// front padding, when there is one, is at least a hole long.
pub proof fn lemma_alloc_start(x: (int, int), al: int)
    requires
        x.0 >= 0,
        x.0 % word() == 0,
        is_pow2(al),
    ensures
        alloc_start(x, al) % word() == 0,
        alloc_start(x, al) % al == 0,
        alloc_start(x, al) >= x.0,
        x.0 % al != 0 ==> alloc_start(x, al) >= x.0 + min_hole(),
{
    lemma_word();
    lemma_word_pow2();
    reveal(is_pow2);
    if x.0 % al == 0 {
    } else {
        if al <= word() {
            lemma_pow2_divides(al, word());
            lemma_mod_trans(x.0, word(), al);
        }
        assert(al > word());
        lemma_pow2_divides(word(), al);
        lemma_align_up(x.0 + min_hole(), al);
        lemma_mod_trans(alloc_start(x, al), al, word());
    }
}

/// In a sorted list of holes, starts and ends grow with the index.
pub proof fn lemma_sorted_mono(s: Seq<(int, int)>, b: int, t: int)
    requires
        holes_in_range(s, b, t),
        holes_sorted(s),
    ensures
        forall|i: int, j: int|
            0 <= i <= j < s.len() ==> (#[trigger] s[i]).0 <= (#[trigger] s[j]).0 && hend(s[i])
                <= hend(s[j]),
        forall|i: int| 0 <= i < s.len() ==> (#[trigger] s[i]).0 < hend(s[i]),
{
    lemma_word();
    assert forall|i: int| 0 <= i < s.len() implies (#[trigger] s[i]).0 < hend(s[i]) by {
        assert(hole_ok(s[i], b, t));
    }
    assert forall|i: int, j: int| 0 <= i <= j < s.len() implies (#[trigger] s[i]).0 <= (
    #[trigger] s[j]).0 && hend(s[i]) <= hend(s[j]) by {
        assert(hole_ok(s[i], b, t));
        assert(hole_ok(s[j], b, t));
        if i < j {
            assert(hend(s[i]) < s[j].0);
        }
    }
}

/// Replacing the holes `h[lo..hi]` with `mid` keeps the list in range and sorted when
/// `mid` is in range and sorted and fits between its neighbours.
pub proof fn lemma_splice(
    h: Seq<(int, int)>,
    lo: int,
    hi: int,
    mid: Seq<(int, int)>,
    b: int,
    t: int,
)
    requires
        holes_in_range(h, b, t),
        holes_sorted(h),
        0 <= lo <= hi <= h.len(),
        holes_in_range(mid, b, t),
        holes_sorted(mid),
        mid.len() > 0 && lo > 0 ==> hend(h[lo - 1]) < mid[0].0,
        mid.len() > 0 && hi < h.len() ==> hend(mid.last()) < h[hi].0,
        mid.len() == 0 && lo > 0 && hi < h.len() ==> hend(h[lo - 1]) < h[hi].0,
    ensures
        holes_in_range(h.subrange(0, lo) + mid + h.subrange(hi, h.len() as int), b, t),
        holes_sorted(h.subrange(0, lo) + mid + h.subrange(hi, h.len() as int)),
{
    let n = h.subrange(0, lo) + mid + h.subrange(hi, h.len() as int);
    let m = mid.len() as int;
    lemma_sorted_mono(h, b, t);
    lemma_sorted_mono(mid, b, t);
    assert(n.len() == lo + m + (h.len() - hi));
    assert forall|i: int| 0 <= i < n.len() implies #[trigger] hole_ok(n[i], b, t) by {
        if i < lo {
            assert(n[i] == h[i]);
            assert(hole_ok(h[i], b, t));
        } else if i < lo + m {
            assert(n[i] == mid[i - lo]);
            assert(hole_ok(mid[i - lo], b, t));
        } else {
            assert(n[i] == h[i - lo - m + hi]);
            assert(hole_ok(h[i - lo - m + hi], b, t));
        }
    }
    assert forall|p: int, q: int| 0 <= p < q < n.len() implies hend(#[trigger] n[p]) < (
    #[trigger] n[q]).0 by {
        if q < lo {
            assert(n[p] == h[p] && n[q] == h[q]);
        } else if p < lo && q < lo + m {
            assert(n[p] == h[p] && n[q] == mid[q - lo]);
            assert(hend(h[p]) <= hend(h[lo - 1]));
            assert(mid[0].0 <= mid[q - lo].0);
        } else if p < lo {
            let q2 = q - lo - m + hi;
            assert(n[p] == h[p] && n[q] == h[q2]);
            assert(hend(h[p]) <= hend(h[lo - 1]));
            assert(h[hi].0 <= h[q2].0);
            if m > 0 {
                assert(mid[0].0 <= mid[m - 1].0);
                assert(mid[m - 1].0 < hend(mid[m - 1]));
                assert(mid.last() == mid[m - 1]);
            }
        } else if q < lo + m {
            assert(n[p] == mid[p - lo] && n[q] == mid[q - lo]);
        } else if p < lo + m {
            let q2 = q - lo - m + hi;
            assert(n[p] == mid[p - lo] && n[q] == h[q2]);
            assert(hend(mid[p - lo]) <= hend(mid[m - 1]));
            assert(mid.last() == mid[m - 1]);
            assert(h[hi].0 <= h[q2].0);
        } else {
            assert(n[p] == h[p - lo - m + hi] && n[q] == h[q - lo - m + hi]);
        }
    }
}

/// `x % m` lies in `[0, m)`.
pub proof fn lemma_mod_range(x: int, m: int)
    requires
        x >= 0,
        m > 0,
    ensures
        0 <= x % m < m,
        x % m <= x,
{
    assert(0 <= x % m < m && x % m <= x) by (nonlinear_arith)
        requires
            x >= 0,
            m > 0,
    ;
}

/// An address below a word-aligned `t` rounds up to at most `t`.
pub proof fn lemma_align_up_below(e: int, t: int, w: int)
    requires
        0 <= e < t,
        w > 0,
        t % w == 0,
    ensures
        align_up(e, w) <= t,
{
    lemma_fundamental_div_mod(e, w);
    lemma_fundamental_div_mod(t, w);
    lemma_mod_range(e, w);
    if e % w != 0 {
        assert(e + (w - e % w) <= t) by (nonlinear_arith)
            requires
                e == w * (e / w) + e % w,
                t == w * (t / w),
                0 < e % w < w,
                e < t,
        {
            assert(e / w < t / w) by (nonlinear_arith)
                requires
                    e == w * (e / w) + e % w,
                    t == w * (t / w),
                    0 < e % w < w,
                    e < t,
            ;
        }
    }
}

/// The sum of two multiples of `w` is a multiple of `w`.
pub proof fn lemma_add_mod(a: int, b: int, w: int)
    requires
        w > 0,
        a % w == 0,
        b % w == 0,
    ensures
        (a + b) % w == 0,
        (a - b) % w == 0,
{
    lemma_fundamental_div_mod(a, w);
    lemma_fundamental_div_mod(b, w);
    assert(a + b == (a / w + b / w) * w && a - b == (a / w - b / w) * w) by (nonlinear_arith)
        requires
            a == w * (a / w) + a % w,
            b == w * (b / w) + b % w,
            a % w == 0,
            b % w == 0,
    ;
    lemma_mod_multiples_basic(a / w + b / w, w);
    lemma_mod_multiples_basic(a / w - b / w, w);
}

/// Rounding up or down to a multiple of `w` gives a multiple of `w`.
pub proof fn lemma_align_facts(a: int, w: int)
    requires
        a >= 0,
        w > 0,
    ensures
        align_up(a, w) % w == 0,
        align_down(a, w) % w == 0,
        a <= align_up(a, w) < a + w,
        a - w < align_down(a, w) <= a,
{
    lemma_mod_range(a, w);
    assert(align_down(a, w) % w == 0) by (nonlinear_arith)
        requires
            w > 0,
            align_down(a, w) == a - a % w,
    {
        lemma_fundamental_div_mod(a, w);
        lemma_mod_multiples_basic(a / w, w);
    }
    if a % w != 0 {
        assert((a + (w - a % w)) % w == 0) by {
            lemma_fundamental_div_mod(a, w);
            assert(a + (w - a % w) == (a / w + 1) * w) by (nonlinear_arith)
                requires
                    a == w * (a / w) + a % w,
            ;
            lemma_mod_multiples_basic(a / w + 1, w);
        }
    }
}


/// The paddings left of a hole that fits are whole holes inside it, in order: the
/// front one starts at the hole and ends at the allocation, the back one starts where
/// the allocation ends and ends with the hole.
pub proof fn lemma_split_pads(x: (int, int), size: int, al: int, b: int, t: int)
    requires
        hole_ok(x, b, t),
        split_fits(x, size, al),
        b >= 0,
        size >= min_hole(),
        size % word() == 0,
        is_pow2(al),
    ensures
        ({
            let st = alloc_start(x, al);
            let ae = st + size;
            let pads = split_pads(x, size, al);
            &&& holes_in_range(pads, b, t)
            &&& holes_sorted(pads)
            &&& x.0 <= st
            &&& ae <= hend(x)
            &&& st % word() == 0
            &&& ae % word() == 0
            &&& pads =~= (if x.0 % al == 0 {
                Seq::<(int, int)>::empty()
            } else {
                seq![(x.0, st - x.0)]
            }) + (if ae == hend(x) {
                Seq::<(int, int)>::empty()
            } else {
                seq![(ae, hend(x) - ae)]
            })
        }),
{
    lemma_word();
    lemma_alloc_start(x, al);
    let st = alloc_start(x, al);
    let ae = st + size;
    let he = hend(x);
    lemma_add_mod(st, size, word());
    lemma_align_up(ae, word());
    assert(align_up(ae, word()) == ae);
    let pads = split_pads(x, size, al);
    if x.0 % al != 0 {
        lemma_add_mod(st, x.0, word());
        assert(hole_ok((x.0, st - x.0), b, t));
    }
    if ae != he {
        lemma_add_mod(he, ae, word());
        assert(hole_ok((ae, he - ae), b, t));
    }
}

/// A first-fit allocation keeps the list in range and sorted.
proof fn lemma_alloc_sorted(h: Seq<(int, int)>, b: int, t: int, size: int, al: int)
    requires
        holes_wf(h, b, t),
        b >= 0,
        size >= min_hole(),
        size % word() == 0,
        is_pow2(al),
        first_fit(h, size, al) < h.len(),
    ensures
        holes_in_range(alloc_holes(h, size, al), b, t),
        holes_sorted(alloc_holes(h, size, al)),
{
    lemma_first_fit(h, size, al);
    let i = first_fit(h, size, al);
    let x = h[i];
    assert(hole_ok(x, b, t));
    lemma_split_pads(x, size, al, b, t);
    let pads = split_pads(x, size, al);
    if i > 0 {
        assert(hend(h[i - 1]) < x.0);
    }
    if i + 1 < h.len() {
        assert(hend(x) < h[i + 1].0);
    }
    lemma_splice(h, i, i + 1, pads, b, t);
}

/// A first-fit allocation keeps the edges of the list.
proof fn lemma_alloc_edges(h: Seq<(int, int)>, b: int, t: int, size: int, al: int)
    requires
        holes_wf(h, b, t),
        b >= 0,
        size >= min_hole(),
        size % word() == 0,
        is_pow2(al),
        first_fit(h, size, al) < h.len(),
    ensures
        holes_edges(alloc_holes(h, size, al), b, t),
{
    lemma_first_fit(h, size, al);
    let i = first_fit(h, size, al);
    let x = h[i];
    assert(hole_ok(x, b, t));
    lemma_split_pads(x, size, al, b, t);
    lemma_word();
    let pads = split_pads(x, size, al);
    let n = alloc_holes(h, size, al);
    assert(n == h.subrange(0, i) + pads + h.subrange(i + 1, h.len() as int));
    if n.len() > 0 {
        if i == 0 {
            if pads.len() == 0 {
                assert(n[0] == h[1]);
                assert(hend(h[0]) < h[1].0);
            } else {
                assert(n[0] == pads[0]);
            }
        } else {
            assert(n[0] == h[0]);
        }
        if i == h.len() - 1 {
            if pads.len() == 0 {
                assert(n.last() == h[i - 1]);
                assert(hend(h[i - 1]) < x.0);
            } else {
                assert(n.last() == pads.last());
                assert(h.last() == x);
            }
        } else {
            assert(n.last() == h.last());
        }
    }
}

/// The block a first-fit allocation hands out overlaps none of the remaining holes.
proof fn lemma_alloc_block(h: Seq<(int, int)>, b: int, t: int, size: int, al: int)
    requires
        holes_wf(h, b, t),
        b >= 0,
        size >= min_hole(),
        size % word() == 0,
        is_pow2(al),
        first_fit(h, size, al) < h.len(),
    ensures
        block_free(alloc_holes(h, size, al), alloc_start(h[first_fit(h, size, al)], al), size, b, t),
{
    lemma_first_fit(h, size, al);
    let i = first_fit(h, size, al);
    let x = h[i];
    assert(hole_ok(x, b, t));
    lemma_split_pads(x, size, al, b, t);
    lemma_sorted_mono(h, b, t);
    let st = alloc_start(x, al);
    let ae = st + size;
    let pads = split_pads(x, size, al);
    let n = alloc_holes(h, size, al);
    assert(n == h.subrange(0, i) + pads + h.subrange(i + 1, h.len() as int));
    assert forall|j: int| 0 <= j < n.len() implies hend(#[trigger] n[j]) <= st || ae <= n[j].0 by {
        if j < i {
            assert(n[j] == h[j]);
            assert(hend(h[j]) <= hend(h[i - 1]));
            assert(hend(h[i - 1]) < x.0);
        } else if j < i + pads.len() {
            assert(n[j] == pads[j - i]);
        } else {
            assert(n[j] == h[j - pads.len() + 1]);
            assert(hend(x) < h[i + 1].0);
            assert(h[i + 1].0 <= h[j - pads.len() + 1].0);
        }
    }
}

/// A first-fit allocation keeps the list well formed, and the allocated block
/// overlaps none of the holes that remain.
pub proof fn lemma_alloc_holes(h: Seq<(int, int)>, b: int, t: int, size: int, al: int)
    requires
        holes_wf(h, b, t),
        b >= 0,
        size >= min_hole(),
        size % word() == 0,
        is_pow2(al),
    ensures
        holes_wf(alloc_holes(h, size, al), b, t),
        first_fit(h, size, al) < h.len() ==> block_free(
            alloc_holes(h, size, al),
            alloc_start(h[first_fit(h, size, al)], al),
            size,
            b,
            t,
        ),
{
    lemma_first_fit(h, size, al);
    if first_fit(h, size, al) < h.len() {
        lemma_alloc_sorted(h, b, t, size, al);
        lemma_alloc_edges(h, b, t, size, al);
        lemma_alloc_block(h, b, t, size, al);
    }
}

/// Putting one hole `y` in place of `h[lo..hi]` keeps the list well formed when `y`
/// is a hole in range that fits between its neighbours and keeps the edges.
proof fn lemma_splice_one(h: Seq<(int, int)>, lo: int, hi: int, y: (int, int), b: int, t: int)
    requires
        holes_wf(h, b, t),
        0 <= lo <= hi <= h.len(),
        hole_ok(y, b, t),
        lo > 0 ==> hend(h[lo - 1]) < y.0,
        hi < h.len() ==> hend(y) < h[hi].0,
        lo == 0 ==> (y.0 == b || y.0 >= b + min_hole()),
        hi == h.len() ==> (hend(y) == t || hend(y) + min_hole() <= t),
    ensures
        holes_wf(h.subrange(0, lo) + seq![y] + h.subrange(hi, h.len() as int), b, t),
{
    let mid = seq![y];
    assert(holes_in_range(mid, b, t)) by {
        assert forall|i: int| 0 <= i < mid.len() implies #[trigger] hole_ok(mid[i], b, t) by {
            assert(mid[i] == y);
        }
    }
    assert(mid.last() == y);
    lemma_splice(h, lo, hi, mid, b, t);
    let n = h.subrange(0, lo) + mid + h.subrange(hi, h.len() as int);
    if lo > 0 {
        assert(n[0] == h[0]);
    } else {
        assert(n[0] == y);
    }
    if hi < h.len() {
        assert(n.last() == h.last());
    } else {
        assert(n.last() == y);
    }
}

/// Where the freed block lies relative to the holes: every hole before the insertion
/// point ends at or below it, every hole from there on starts at or above its end.
proof fn lemma_block_place(h: Seq<(int, int)>, a: int, s: int, b: int, t: int)
    requires
        holes_wf(h, b, t),
        block_free(h, a, s, b, t),
    ensures
        0 <= ins_idx(h, a) <= h.len(),
        forall|j: int| 0 <= j < ins_idx(h, a) ==> hend(#[trigger] h[j]) <= a,
        forall|j: int| ins_idx(h, a) <= j < h.len() ==> a + s <= (#[trigger] h[j]).0,
{
    lemma_ins_idx(h, a);
    lemma_word();
    lemma_sorted_mono(h, b, t);
    let k = ins_idx(h, a);
    assert forall|j: int| 0 <= j < k implies hend(#[trigger] h[j]) <= a by {
        assert(hend(h[j]) <= a || a + s <= h[j].0);
    }
    assert forall|j: int| k <= j < h.len() implies a + s <= (#[trigger] h[j]).0 by {
        assert(h[k].0 <= h[j].0);
        assert(hend(h[j]) <= a || a + s <= h[j].0);
    }
}

/// Stretching a block down to `bottom` or up to `top` keeps it a hole in range and
/// settles the edge it is stretched to.
proof fn lemma_adjust(y: (int, int), b: int, t: int)
    requires
        hole_ok(y, b, t),
        b >= 0,
        b % word() == 0,
        t % word() == 0,
    ensures
        hole_ok(bottom_adjust(y, b), b, t),
        hend(bottom_adjust(y, b)) == hend(y),
        bottom_adjust(y, b).0 == b || bottom_adjust(y, b).0 >= b + min_hole(),
        bottom_adjust(y, b).0 <= y.0,
        hole_ok(top_adjust(y, t), b, t),
        top_adjust(y, t).0 == y.0,
        hend(top_adjust(y, t)) == t || hend(top_adjust(y, t)) + min_hole() <= t,
        hend(top_adjust(y, t)) >= hend(y),
{
    lemma_word();
    lemma_add_mod(y.0, b, word());
    lemma_add_mod(y.1, y.0 - b, word());
    lemma_add_mod(y.0, y.1, word());
    lemma_align_up(hend(y), word());
    lemma_add_mod(t, hend(y), word());
    lemma_add_mod(y.1, t - hend(y), word());
}

/// Giving a block back to an empty list keeps it well formed.
proof fn lemma_dealloc_empty(h: Seq<(int, int)>, a: int, s: int, b: int, t: int)
    requires
        holes_wf(h, b, t),
        block_free(h, a, s, b, t),
        b >= 0,
        b % word() == 0,
        t % word() == 0,
        h.len() == 0,
    ensures
        holes_wf(dealloc_holes(h, a, s, b, t), b, t),
{
    lemma_word();
    let x = bottom_adjust((a, s), b);
    assert(hole_ok((a, s), b, t));
    lemma_adjust((a, s), b, t);
    lemma_adjust(x, b, t);
    let y = top_adjust(x, t);
    lemma_splice_one(h, 0, 0, y, b, t);
    assert(dealloc_holes(h, a, s, b, t) =~= h.subrange(0, 0) + seq![y] + h.subrange(0, 0));
}

/// Giving back a block that lies before every hole keeps the list well formed.
proof fn lemma_dealloc_front(h: Seq<(int, int)>, a: int, s: int, b: int, t: int)
    requires
        holes_wf(h, b, t),
        block_free(h, a, s, b, t),
        b >= 0,
        b % word() == 0,
        t % word() == 0,
        h.len() > 0,
        ins_idx(h, a) == 0,
    ensures
        holes_wf(dealloc_holes(h, a, s, b, t), b, t),
{
    lemma_word();
    lemma_block_place(h, a, s, b, t);
    assert(hole_ok((a, s), b, t));
    lemma_adjust((a, s), b, t);
    let x = bottom_adjust((a, s), b);
    assert(hole_ok(h[0], b, t));
    assert(a + s <= h[0].0);
    if hend(x) == h[0].0 {
        let y = (x.0, x.1 + h[0].1);
        lemma_add_mod(x.1, h[0].1, word());
        if h.len() > 1 {
            assert(hend(h[0]) < h[1].0);
        } else {
            assert(h.last() == h[0]);
        }
        lemma_splice_one(h, 0, 1, y, b, t);
        assert(dealloc_holes(h, a, s, b, t) =~= h.subrange(0, 0) + seq![y] + h.subrange(
            1,
            h.len() as int,
        ));
    } else {
        lemma_splice_one(h, 0, 0, x, b, t);
        assert(dealloc_holes(h, a, s, b, t) =~= h.subrange(0, 0) + seq![x] + h.subrange(
            0,
            h.len() as int,
        ));
    }
}

/// Giving back a block that lies after some hole keeps the list well formed.
proof fn lemma_dealloc_after(h: Seq<(int, int)>, a: int, s: int, b: int, t: int)
    requires
        holes_wf(h, b, t),
        block_free(h, a, s, b, t),
        b >= 0,
        b % word() == 0,
        t % word() == 0,
        h.len() > 0,
        ins_idx(h, a) > 0,
    ensures
        holes_wf(dealloc_holes(h, a, s, b, t), b, t),
{
    lemma_word();
    lemma_block_place(h, a, s, b, t);
    lemma_sorted_mono(h, b, t);
    let k = ins_idx(h, a);
    let p = h[k - 1];
    assert(hole_ok(p, b, t));
    assert(hend(p) <= a);
    let touch = hend(p) == a;
    let m = if touch {
        (p.0, p.1 + s)
    } else {
        (a, s)
    };
    let lo = if touch {
        k - 1
    } else {
        k
    };
    lemma_add_mod(p.1, s, word());
    assert(hole_ok(m, b, t));
    if lo > 0 {
        if touch {
            assert(hend(h[k - 2]) < h[k - 1].0);
        }
        assert(hend(h[lo - 1]) < m.0);
    }
    if lo == 0 {
        assert(m.0 == h[0].0);
    }
    let pre = h.subrange(0, lo);
    if k < h.len() {
        assert(hole_ok(h[k], b, t));
        if hend(m) == h[k].0 {
            let y = (m.0, m.1 + h[k].1);
            lemma_add_mod(m.1, h[k].1, word());
            if k + 1 < h.len() {
                assert(hend(h[k]) < h[k + 1].0);
            } else {
                assert(h.last() == h[k]);
            }
            lemma_splice_one(h, lo, k + 1, y, b, t);
            assert(dealloc_holes(h, a, s, b, t) =~= pre + seq![y] + h.subrange(
                k + 1,
                h.len() as int,
            ));
        } else {
            lemma_splice_one(h, lo, k, m, b, t);
            assert(dealloc_holes(h, a, s, b, t) =~= pre + seq![m] + h.subrange(
                k,
                h.len() as int,
            ));
        }
    } else {
        lemma_adjust(m, b, t);
        let y = top_adjust(m, t);
        lemma_splice_one(h, lo, k, y, b, t);
        assert(dealloc_holes(h, a, s, b, t) =~= pre + seq![y] + h.subrange(k, h.len() as int));
    }
}

/// Giving back a free block keeps the list well formed.
pub proof fn lemma_dealloc_holes(h: Seq<(int, int)>, a: int, s: int, b: int, t: int)
    requires
        holes_wf(h, b, t),
        block_free(h, a, s, b, t),
        b >= 0,
        b % word() == 0,
        t % word() == 0,
    ensures
        holes_wf(dealloc_holes(h, a, s, b, t), b, t),
{
    lemma_ins_idx(h, a);
    if h.len() == 0 {
        lemma_dealloc_empty(h, a, s, b, t);
    } else if ins_idx(h, a) == 0 {
        lemma_dealloc_front(h, a, s, b, t);
    } else {
        lemma_dealloc_after(h, a, s, b, t);
    }
}

/// Growing the range to `top + n` and giving `[top, top + n)` back keeps the list well
/// formed over the grown range; it does not matter which of the two tops the
/// stretching to the top is measured against.
pub proof fn lemma_extend_holes(h: Seq<(int, int)>, b: int, t: int, n: int)
    requires
        holes_wf(h, b, t),
        b >= 0,
        b % word() == 0,
        t % word() == 0,
        t >= b + min_hole(),
        n >= min_hole(),
        n % word() == 0,
    ensures
        dealloc_holes(h, t, n, b, t) == dealloc_holes(h, t, n, b, t + n),
        holes_wf(dealloc_holes(h, t, n, b, t + n), b, t + n),
{
    lemma_word();
    lemma_sorted_mono(h, b, t);
    assert forall|i: int| 0 <= i < h.len() implies #[trigger] hole_ok(h[i], b, t + n) by {
        assert(hole_ok(h[i], b, t));
    }
    if h.len() > 0 {
        assert(hole_ok(h.last(), b, t));
    }
    assert(holes_wf(h, b, t + n));
    assert forall|j: int| 0 <= j < h.len() implies hend(#[trigger] h[j]) <= t || t + n <= h[j].0 by {
        assert(hole_ok(h[j], b, t));
    }
    assert(block_free(h, t, n, b, t + n));
    lemma_add_mod(t, n, word());
    lemma_dealloc_holes(h, t, n, b, t + n);
    lemma_ins_idx(h, t);
    if h.len() > 0 {
        let k = ins_idx(h, t);
        if k < h.len() {
            assert(hole_ok(h[k], b, t));
            assert(false);
        }
    }
}

/// The block at `st` found by `lemma_alloc_place` is the `k`-th gap of the list after the allocation.
proof fn lemma_alloc_place(h: Seq<(int, int)>, b: int, t: int, size: int, al: int)
    requires
        holes_wf(h, b, t),
        b >= 0,
        size >= min_hole(),
        size % word() == 0,
        is_pow2(al),
        first_fit(h, size, al) < h.len(),
    ensures
        ({
            let i = first_fit(h, size, al);
            let x = h[i];
            let front: int = if x.0 % al == 0 { 0 } else { 1 };
            ins_idx(alloc_holes(h, size, al), alloc_start(x, al)) == i + front
        }),
{
    lemma_first_fit(h, size, al);
    let i = first_fit(h, size, al);
    let x = h[i];
    assert(hole_ok(x, b, t));
    lemma_split_pads(x, size, al, b, t);
    lemma_alloc_holes(h, b, t, size, al);
    let n = alloc_holes(h, size, al);
    let st = alloc_start(x, al);
    let pads = split_pads(x, size, al);
    let f: int = if x.0 % al == 0 { 0 } else { 1 };
    assert(n == h.subrange(0, i) + pads + h.subrange(i + 1, h.len() as int));
    lemma_sorted_mono(h, b, t);
    lemma_sorted_mono(n, b, t);
    lemma_ins_idx(n, st);
    let k = ins_idx(n, st);
    if i + f > 0 {
        if f == 1 {
            assert(n[i + f - 1] == pads[0]);
        } else {
            assert(n[i + f - 1] == h[i - 1]);
            assert(h[i - 1].0 < hend(h[i - 1]));
            assert(hend(h[i - 1]) < x.0);
        }
        assert(n[i + f - 1].0 <= st);
    }
    if i + f < n.len() {
        if i + f < i + pads.len() {
            assert(n[i + f] == pads[f]);
        } else {
            assert(n[i + f] == h[i + 1]);
            assert(hend(x) < h[i + 1].0);
        }
        assert(st < n[i + f].0);
    }
    if k > i + f {
        assert(n[i + f].0 <= st);
    }
    if k < i + f {
        assert(n[k].0 <= n[i + f - 1].0);
    }
}

/// The undoing when the allocation was cut from the front of the lowest hole.
proof fn lemma_undo_lowest(h: Seq<(int, int)>, b: int, t: int, size: int, al: int)
    requires
        holes_wf(h, b, t),
        b >= 0,
        b % word() == 0,
        t % word() == 0,
        size >= min_hole(),
        size % word() == 0,
        is_pow2(al),
        first_fit(h, size, al) < h.len(),
        first_fit(h, size, al) == 0,
        h[0].0 % al == 0,
    ensures
        dealloc_holes(
            alloc_holes(h, size, al),
            alloc_start(h[first_fit(h, size, al)], al),
            size,
            b,
            t,
        ) == h,
{
    lemma_word();
    lemma_first_fit(h, size, al);
    let x = h[0];
    assert(hole_ok(x, b, t));
    lemma_split_pads(x, size, al, b, t);
    lemma_alloc_place(h, b, t, size, al);
    let n = alloc_holes(h, size, al);
    let st = alloc_start(x, al);
    let ae = st + size;
    let he = hend(x);
    let pads = split_pads(x, size, al);
    let back = ae != he;
    assert(n == h.subrange(0, 0) + pads + h.subrange(1, h.len() as int));
    assert(ins_idx(n, st) == 0);
    assert(st == x.0);
    assert(bottom_adjust((st, size), b) == (st, size));
    let r = dealloc_holes(n, st, size, b, t);
    if n.len() == 0 {
        assert(h.last() == x);
        lemma_align_up(he, word());
        assert(top_adjust(x, t) == x);
        assert(h =~= seq![x]);
        assert(r =~= h);
    } else if back {
        assert(n[0] == (ae, he - ae));
        assert(r =~= seq![x] + n.drop_first());
        assert(r =~= h);
    } else {
        assert(n =~= h.subrange(1, h.len() as int));
        assert(hend(x) < h[1].0);
        assert(r =~= seq![x] + n);
        assert(r =~= h);
    }
}

/// The undoing when some hole lies before the allocated block.
#[verifier::spinoff_prover]
#[verifier::rlimit(50)]
proof fn lemma_undo_later(h: Seq<(int, int)>, b: int, t: int, size: int, al: int)
    requires
        holes_wf(h, b, t),
        b >= 0,
        b % word() == 0,
        t % word() == 0,
        size >= min_hole(),
        size % word() == 0,
        is_pow2(al),
        first_fit(h, size, al) < h.len(),
        first_fit(h, size, al) > 0 || h[0].0 % al != 0,
    ensures
        dealloc_holes(
            alloc_holes(h, size, al),
            alloc_start(h[first_fit(h, size, al)], al),
            size,
            b,
            t,
        ) == h,
{
    lemma_word();
    lemma_first_fit(h, size, al);
    let i = first_fit(h, size, al);
    let x = h[i];
    assert(hole_ok(x, b, t));
    lemma_split_pads(x, size, al, b, t);
    lemma_alloc_place(h, b, t, size, al);
    let n = alloc_holes(h, size, al);
    let st = alloc_start(x, al);
    let ae = st + size;
    let he = hend(x);
    let pads = split_pads(x, size, al);
    let front = x.0 % al != 0;
    let back = ae != he;
    let f: int = if front { 1 } else { 0 };
    assert(n == h.subrange(0, i) + pads + h.subrange(i + 1, h.len() as int));
    let k = ins_idx(n, st);
    assert(k == i + f);
    assert(k > 0);
    let r = dealloc_holes(n, st, size, b, t);
    let p = n[k - 1];
    if front {
        assert(p == (x.0, st - x.0));
    } else {
        assert(st == x.0);
        assert(p == h[i - 1]);
        assert(hend(h[i - 1]) < x.0);
    }
    let pre = h.subrange(0, i);
    assert(pre =~= if front { n.subrange(0, k - 1) } else { n.subrange(0, k) });
    if k < n.len() {
        if back {
            assert(n[k] == (ae, he - ae));
            assert(n.subrange(k + 1, n.len() as int) =~= h.subrange(i + 1, h.len() as int));
            assert(r =~= pre + seq![x] + h.subrange(i + 1, h.len() as int));
        } else {
            assert(n[k] == h[i + 1]);
            assert(hend(x) < h[i + 1].0);
            assert(n.subrange(k, n.len() as int) =~= h.subrange(i + 1, h.len() as int));
            assert(r =~= pre + seq![x] + h.subrange(i + 1, h.len() as int));
        }
    } else {
        assert(i == h.len() - 1);
        assert(h.last() == x);
        lemma_align_up(he, word());
        assert(top_adjust(x, t) == x);
        assert(r =~= pre + seq![x]);
    }
    assert(r =~= h);
}

/// Giving back the block that a first-fit allocation handed out restores the holes
/// to what they were before the allocation.
pub proof fn lemma_dealloc_undoes_alloc(h: Seq<(int, int)>, b: int, t: int, size: int, al: int)
    requires
        holes_wf(h, b, t),
        b >= 0,
        b % word() == 0,
        t % word() == 0,
        size >= min_hole(),
        size % word() == 0,
        is_pow2(al),
        first_fit(h, size, al) < h.len(),
    ensures
        dealloc_holes(
            alloc_holes(h, size, al),
            alloc_start(h[first_fit(h, size, al)], al),
            size,
            b,
            t,
        ) == h,
{
    lemma_first_fit(h, size, al);
    if first_fit(h, size, al) == 0 && h[0].0 % al == 0 {
        lemma_undo_lowest(h, b, t, size, al);
    } else {
        lemma_undo_later(h, b, t, size, al);
    }
}

/// Where an allocation aligned to `al` is placed in hole `x`: at the hole's start when
/// it is aligned to `al`; otherwise at the first address aligned to `al` at or after
/// `min_hole()` bytes into the hole, so that a whole hole stays in front.
pub proof fn lemma_alloc_placement(x: (int, int), al: int)
    requires
        x.0 >= 0,
        al > 0,
    ensures
        x.0 % al == 0 ==> alloc_start(x, al) == x.0,
        x.0 % al != 0 ==> {
            &&& alloc_start(x, al) % al == 0
            &&& x.0 + min_hole() <= alloc_start(x, al)
            &&& alloc_start(x, al) < x.0 + min_hole() + al
        },
{
    lemma_word();
    lemma_align_up(x.0 + min_hole(), al);
}

/// A request of `s` bytes (a multiple of the word) aligned to `al` fits a word-aligned
/// hole exactly when, placed where `lemma_alloc_placement` says, it ends at the hole's
/// end or leaves at least a whole hole behind it.
pub proof fn lemma_fits_iff(x: (int, int), s: int, al: int)
    requires
        x.0 >= 0,
        x.0 % word() == 0,
        s >= 0,
        s % word() == 0,
        is_pow2(al),
    ensures
        split_fits(x, s, al) <==> ({
            let st = alloc_start(x, al);
            st + s == hend(x) || st + s + min_hole() <= hend(x)
        }),
{
    lemma_word();
    lemma_alloc_start(x, al);
    let st = alloc_start(x, al);
    lemma_add_mod(st, s, word());
    lemma_align_up(st + s, word());
}

/// What is left of a hole that fits the request: the part in front of the allocation,
/// when the hole is not aligned to `al`, and the part behind it, when the allocation does
/// not reach the hole's end; the allocation and what is left make up the whole hole.
pub proof fn lemma_split_leaves(x: (int, int), s: int, al: int)
    requires
        x.0 >= 0,
        x.0 % word() == 0,
        s >= 0,
        s % word() == 0,
        is_pow2(al),
        split_fits(x, s, al),
    ensures
        ({
            let st = alloc_start(x, al);
            let front = if x.0 % al == 0 {
                Seq::<(int, int)>::empty()
            } else {
                seq![(x.0, st - x.0)]
            };
            let back = if st + s == hend(x) {
                Seq::<(int, int)>::empty()
            } else {
                seq![(st + s, hend(x) - (st + s))]
            };
            &&& split_pads(x, s, al) == front + back
            &&& (st - x.0) + s + (hend(x) - (st + s)) == x.1
        }),
{
    lemma_word();
    lemma_alloc_start(x, al);
    let st = alloc_start(x, al);
    lemma_add_mod(st, s, word());
    lemma_align_up(st + s, word());
}

/// A first-fit allocation from a list whose first hole is aligned to `al` and either has
/// exactly the requested size or leaves a whole hole behind: it is cut from the front of
/// that hole, and only the rest of the hole, if any, stays in its place.
pub proof fn lemma_first_hole_allocation(h: Seq<(int, int)>, b: int, t: int, s: int, al: int)
    requires
        holes_wf(h, b, t),
        b >= 0,
        h.len() > 0,
        s >= 0,
        s % word() == 0,
        is_pow2(al),
        h[0].0 % al == 0,
        h[0].1 == s || h[0].1 >= s + min_hole(),
    ensures
        first_fit(h, s, al) == 0,
        alloc_start(h[0], al) == h[0].0,
        alloc_holes(h, s, al) == (if h[0].1 == s {
            h.drop_first()
        } else {
            seq![(h[0].0 + s, h[0].1 - s)] + h.drop_first()
        }),
{
    assert(hole_ok(h[0], b, t));
    reveal(is_pow2);
    lemma_fits_iff(h[0], s, al);
    lemma_split_leaves(h[0], s, al);
    assert(first_fit_from(h, 0, s, al) == 0);
    assert(h.subrange(0, 0) =~= Seq::<(int, int)>::empty());
    assert(h.subrange(1, h.len() as int) =~= h.drop_first());
    if h[0].1 == s {
        assert(alloc_holes(h, s, al) =~= h.drop_first());
    } else {
        assert(alloc_holes(h, s, al) =~= seq![(h[0].0 + s, h[0].1 - s)] + h.drop_first());
    }
}

} // verus!
