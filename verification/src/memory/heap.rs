//! A first-fit allocator over a range of addresses: the free space is kept as a
//! sorted list of holes, allocations are cut out of the first hole that fits, and
//! freed blocks are merged back with the holes next to them.

use vstd::prelude::*;
use vstd::arithmetic::power2::is_pow2;
use vstd::layout::valid_layout;
use crate::memory::hole_lemmas::{
    lemma_alloc_start, lemma_first_fit,
    lemma_dealloc_holes, lemma_extend_holes,
    lemma_alloc_holes,
    lemma_add_mod, lemma_align_facts, lemma_align_up_below, lemma_mod_range,
};
use crate::memory::hole_spec::{
    lemma_word,
    hole_ok,
    align_down, align_up, aligned_size, alloc_holes, alloc_start, block_free, bottom_adjust,
    dealloc_holes, first_fit, first_fit_from, holes_wf, ins_idx, ins_idx_from, min_hole,
    split_fits, split_pads, top_adjust, word,
};

verus! {

broadcast use vstd::layout::layout_of_primitives;

/// Whether `x` is a power of two.
pub fn is_power_of_two(x: usize) -> (b: bool)
    ensures
        b == is_pow2(x as int),
{
    reveal(is_pow2);
    if x == 0 {
        return false;
    }
    let mut y: usize = x;
    while y % 2 == 0
        invariant
            y > 0,
            is_pow2(x as int) == is_pow2(y as int),
        decreases y,
    {
        proof {
            reveal(is_pow2);
        }
        y = y / 2;
    }
    proof {
        reveal(is_pow2);
    }
    y == 1
}

/// The error of a size and alignment that do not make a layout.
#[derive(Clone, Copy, PartialEq, Eq, Debug)]
pub struct LayoutError;

/// The size and alignment of a block of memory: the alignment is a power of two and
/// the size rounded up to it does not exceed `isize::MAX`.
#[derive(Clone, Copy, Debug, PartialEq, Eq, Structural)]
pub struct Layout {
    size: usize,
    align: usize,
}

impl Layout {
    #[verifier::type_invariant]
    closed spec fn inv(self) -> bool {
        valid_layout(self.size, self.align)
    }

    /// The size in bytes.
    pub closed spec fn spec_size(&self) -> usize {
        self.size
    }

    /// The alignment in bytes.
    pub closed spec fn spec_align(&self) -> usize {
        self.align
    }

    /// The layout of `size` bytes aligned to `align`, if that is a valid layout.
    pub fn from_size_align(size: usize, align: usize) -> (r: Result<Layout, LayoutError>)
        ensures
            r is Ok <==> valid_layout(size, align),
            r matches Ok(l) ==> l.size() == size && l.align() == align,
    {
        if !is_power_of_two(align) {
            return Err(LayoutError);
        }
        proof {
            reveal(is_pow2);
        }
        let max: usize = isize::MAX as usize;
        assert(max % align <= max) by (nonlinear_arith)
            requires
                align > 0,
        ;
        if size > max - max % align {
            return Err(LayoutError);
        }
        Ok(Layout { size, align })
    }

    /// The size in bytes.
    #[verifier::when_used_as_spec(spec_size)]
    pub fn size(&self) -> (s: usize)
        ensures
            s == self.spec_size(),
            valid_layout(s, self.spec_align()),
    {
        proof {
            use_type_invariant(self);
        }
        self.size
    }

    /// The alignment in bytes.
    #[verifier::when_used_as_spec(spec_align)]
    pub fn align(&self) -> (a: usize)
        ensures
            a == self.spec_align(),
            valid_layout(self.spec_size(), a),
    {
        proof {
            use_type_invariant(self);
        }
        self.align
    }
}


/// The bytes of a machine word.
fn word_size() -> (w: usize)
    ensures
        w as int == word(),
        w == 4 || w == 8,
{
    core::mem::size_of::<usize>()
}

/// `size` rounded up to a multiple of `align`.
fn align_up_size(size: usize, align: usize) -> (r: usize)
    requires
        align > 0,
        size + align <= usize::MAX + 1,
    ensures
        r == align_up(size as int, align as int),
{
    proof {
        lemma_mod_range(size as int, align as int);
    }
    let rem = size % align;
    if rem == 0 {
        size
    } else {
        size + (align - rem)
    }
}

/// `size` rounded down to a multiple of `align`.
fn align_down_size(size: usize, align: usize) -> (r: usize)
    requires
        align > 0,
    ensures
        r == align_down(size as int, align as int),
{
    proof {
        lemma_mod_range(size as int, align as int);
    }
    size - size % align
}

/// A run of free memory: its start address and its size in bytes.
#[derive(Clone, Copy)]
pub(crate) struct Hole {
    pub(crate) addr: usize,
    pub(crate) size: usize,
}

/// A hole as a pair of integers.
pub(crate) open spec fn hole_view(x: Hole) -> (int, int) {
    (x.addr as int, x.size as int)
}

/// A sorted list of holes over the address range `[bottom, top)`.
pub struct HoleList {
    holes: Vec<Hole>,
    bottom: usize,
    top: usize,
    pending_extend: u8,
}

impl View for HoleList {
    type V = Seq<(int, int)>;

    /// The holes, in address order.
    closed spec fn view(&self) -> Seq<(int, int)> {
        self.holes@.map_values(|x: Hole| hole_view(x))
    }
}

impl HoleList {
    /// The lowest address the list manages.
    pub closed spec fn bottom_addr(&self) -> int {
        self.bottom as int
    }

    /// One past the highest address the list manages.
    pub closed spec fn top_addr(&self) -> int {
        self.top as int
    }

    /// Bytes given to `extend` that are not yet part of the managed range.
    pub closed spec fn pending(&self) -> int {
        self.pending_extend as int
    }

    /// The list is well formed over a word-aligned range that is empty at address zero
    /// or holds at least one hole.
    pub open spec fn wf(&self) -> bool {
        &&& holes_wf(self@, self.bottom_addr(), self.top_addr())
        &&& self.bottom_addr() % word() == 0
        &&& self.top_addr() % word() == 0
        &&& 0 <= self.bottom_addr() <= self.top_addr() <= usize::MAX
        &&& (self.top_addr() == 0 || self.top_addr() >= self.bottom_addr() + min_hole())
        &&& 0 <= self.pending() < min_hole()
    }

    /// A list that manages no memory.
    pub fn empty() -> (r: HoleList)
        ensures
            r.wf(),
            r@ == Seq::<(int, int)>::empty(),
            r.bottom_addr() == 0,
            r.top_addr() == 0,
            r.pending() == 0,
    {
        let r = HoleList { holes: Vec::new(), bottom: 0, top: 0, pending_extend: 0 };
        assert(r@ =~= Seq::<(int, int)>::empty());
        proof {
            lemma_word();
        }
        r
    }

    /// The smallest block the list hands out or keeps as a hole.
    pub fn min_size() -> (r: usize)
        ensures
            r as int == min_hole(),
    {
        core::mem::size_of::<usize>() * 2
    }

    /// The address and size of the lowest hole, if there is one.
    pub fn first_hole(&self) -> (r: Option<(usize, usize)>)
        ensures
            self@.len() == 0 ==> r is None,
            self@.len() > 0 ==> (r matches Some((a, s)) && a == self@[0].0 && s == self@[0].1),
    {
        if self.holes.len() == 0 {
            None
        } else {
            Some((self.holes[0].addr, self.holes[0].size))
        }
    }

    /// A list managing the region `[hole_addr, hole_addr + hole_size)` as one hole: the
    /// start is rounded up and the size down to a word, and the bytes cut off the end
    /// are kept pending.
    pub fn new(hole_addr: usize, hole_size: usize) -> (r: HoleList)
        requires
            hole_size >= min_hole(),
            hole_addr + hole_size <= usize::MAX,
            align_down(hole_size - (align_up(hole_addr as int, word()) - hole_addr), word())
                >= min_hole(),
        ensures
            ({
                let st = align_up(hole_addr as int, word());
                let req = hole_size - (st - hole_addr);
                let sz = align_down(req, word());
                &&& r@ == seq![(st, sz)]
                &&& r.bottom_addr() == st
                &&& r.top_addr() == st + sz
                &&& r.pending() == req - sz
            }),
            r.wf(),
    {
        let w = word_size();
        let aligned_hole_addr = align_up_size(hole_addr, w);
        proof {
            lemma_mod_range(hole_addr as int, w as int);
        }
        let requested_hole_size = hole_size - (aligned_hole_addr - hole_addr);
        let aligned_hole_size = align_down_size(requested_hole_size, w);
        proof {
            lemma_mod_range(requested_hole_size as int, w as int);
            lemma_align_facts(hole_addr as int, w as int);
            lemma_align_facts(requested_hole_size as int, w as int);
        }
        let mut holes: Vec<Hole> = Vec::new();
        holes.push(Hole { addr: aligned_hole_addr, size: aligned_hole_size });
        let r = HoleList {
            holes,
            bottom: aligned_hole_addr,
            top: aligned_hole_addr + aligned_hole_size,
            pending_extend: (requested_hole_size - aligned_hole_size) as u8,
        };
        assert(r@ =~= seq![(aligned_hole_addr as int, aligned_hole_size as int)]);
        proof {
            lemma_add_mod(aligned_hole_addr as int, aligned_hole_size as int, w as int);
            assert(hole_ok(r@[0], r.bottom_addr(), r.top_addr()));
        }
        r
    }
}

impl HoleList {
    /// The layout a request is served with: at least `min_size` bytes, rounded up to a word,
    /// with the requested alignment.
    pub fn align_layout(layout: Layout) -> (r: Layout)
        requires
            aligned_size(layout.size() as int) <= isize::MAX as int - (isize::MAX as int
                % layout.align() as int),
        ensures
            r.size() == aligned_size(layout.size() as int),
            r.align() == layout.align(),
    {
        let mut size = layout.size();
        let align = layout.align();
        proof {
            reveal(is_pow2);
            lemma_mod_range(isize::MAX as int, align as int);
        }
        let min = Self::min_size();
        if size < min {
            size = min;
        }
        let w = word_size();
        proof {
            lemma_align_facts(size as int, w as int);
            assert(size as int <= aligned_size(layout.size() as int));
        }
        let size = align_up_size(size, w);
        Layout::from_size_align(size, layout.align()).unwrap()
    }

    /// Cuts `required` out of hole `i`, leaving the front and back paddings as holes;
    /// returns the address and size of the allocation, or an error and the list unchanged
    /// when the hole is too small.
    fn split_current(&mut self, i: usize, required: Layout) -> (r: Result<(usize, usize), ()>)
        requires
            old(self).wf(),
            i < old(self)@.len(),
            required.size() >= min_hole(),
        ensures
            final(self).bottom_addr() == old(self).bottom_addr(),
            final(self).top_addr() == old(self).top_addr(),
            final(self).pending() == old(self).pending(),
            split_fits(old(self)@[i as int], required.size() as int, required.align() as int) ==> {
                &&& r matches Ok((p, sz)) && p == alloc_start(
                    old(self)@[i as int],
                    required.align() as int,
                ) && sz == required.size()
                &&& final(self)@ == old(self)@.subrange(0, i as int) + split_pads(
                    old(self)@[i as int],
                    required.size() as int,
                    required.align() as int,
                ) + old(self)@.subrange(i + 1, old(self)@.len() as int)
            },
            !split_fits(old(self)@[i as int], required.size() as int, required.align() as int)
                ==> r is Err && final(self)@ == old(self)@,
    {
        let ghost h = old(self)@;
        let ghost x = h[i as int];
        let hole_size = self.holes[i].size;
        let hole_addr = self.holes[i].addr;
        let required_size = required.size();
        let required_align = required.align();
        proof {
            assert(hole_ok(h[i as int], self.bottom_addr(), self.top_addr()));
            reveal(is_pow2);
            lemma_word();
        }
        if hole_size < required_size {
            return Err(());
        }
        let hole_end = hole_addr + hole_size;
        let min = Self::min_size();
        let front: Option<Hole>;
        let aligned_addr: usize;
        if hole_addr % required_align == 0 {
            front = None;
            aligned_addr = hole_addr;
        } else {
            let new_start = hole_addr + min;
            proof {
                lemma_mod_range(new_start as int, required_align as int);
            }
            let rem = new_start % required_align;
            let pad = if rem == 0 {
                0
            } else {
                required_align - rem
            };
            if pad > hole_end - new_start {
                return Err(());
            }
            aligned_addr = new_start + pad;
            front = Some(Hole { addr: hole_addr, size: aligned_addr - hole_addr });
        }
        assert(aligned_addr == alloc_start(x, required_align as int));
        if required_size > hole_end - aligned_addr {
            return Err(());
        }
        let allocation_end = aligned_addr + required_size;
        let back_padding_size = hole_end - allocation_end;
        let back: Option<Hole>;
        if back_padding_size == 0 {
            back = None;
        } else {
            let w = word_size();
            proof {
                lemma_mod_range(allocation_end as int, w as int);
            }
            let rem = allocation_end % w;
            let pad = if rem == 0 {
                0
            } else {
                w - rem
            };
            if pad > hole_end - allocation_end {
                return Err(());
            }
            let back_start = allocation_end + pad;
            if hole_end - back_start < min {
                return Err(());
            }
            back = Some(Hole { addr: back_start, size: back_padding_size });
        }
        assert(split_fits(x, required_size as int, required_align as int));
        let ghost pads = split_pads(x, required_size as int, required_align as int);
        self.holes.remove(i);
        let ghost h1 = self@;
        assert(h1 =~= h.subrange(0, i as int) + h.subrange(i + 1, h.len() as int));
        match back {
            Some(b) => {
                self.holes.insert(i, b);
            },
            None => {},
        }
        match front {
            Some(f) => {
                self.holes.insert(i, f);
            },
            None => {},
        }
        assert(self@ =~= h.subrange(0, i as int) + pads + h.subrange(i + 1, h.len() as int));
        Ok((aligned_addr, required_size))
    }
}

impl HoleList {
    /// Allocates `layout` from the first hole that can hold it. The list changes as
    /// `alloc_holes` says; the result is the allocation's address and the layout it was
    /// served with, or an error when no hole fits or the allocation would start at address zero.
    pub fn allocate_first_fit(&mut self, layout: Layout) -> (r: Result<(usize, Layout), ()>)
        requires
            old(self).wf(),
            aligned_size(layout.size() as int) <= isize::MAX as int - (isize::MAX as int
                % layout.align() as int),
        ensures
            ({
                let size = aligned_size(layout.size() as int);
                let al = layout.align() as int;
                let i = first_fit(old(self)@, size, al);
                &&& final(self)@ == alloc_holes(old(self)@, size, al)
                &&& (r is Ok <==> i < old(self)@.len() && alloc_start(old(self)@[i], al) != 0)
                &&& (r matches Ok((p, l)) ==> p == alloc_start(old(self)@[i], al) && l.size()
                    == size && l.align() == layout.align())
            }),
            final(self).wf(),
            r matches Ok((p, l)) ==> block_free(
                final(self)@,
                p as int,
                l.size() as int,
                final(self).bottom_addr(),
                final(self).top_addr(),
            ) && p as int % l.align() as int == 0,
            final(self).bottom_addr() == old(self).bottom_addr(),
            final(self).top_addr() == old(self).top_addr(),
            final(self).pending() == old(self).pending(),
    {
        let ghost h = old(self)@;
        let _ = layout.align();
        let aligned_layout = Self::align_layout(layout);
        let ghost size = aligned_layout.size() as int;
        let ghost al = aligned_layout.align() as int;
        proof {
            lemma_word();
            lemma_align_facts(if layout.size() < min_hole() { min_hole() } else { layout.size() as int }, word());
        }
        let n = self.holes.len();
        if n == 0 {
            return Err(());
        }
        let mut i: usize = 0;
        let mut found: Option<usize> = None;
        loop
            invariant_except_break
                self.wf(),
                self@ == h,
                found is None,
                0 <= i < n,
                first_fit(h, size, al) == first_fit_from(h, i as int, size, al),
            invariant
                self.bottom_addr() == old(self).bottom_addr(),
                self.top_addr() == old(self).top_addr(),
                self.pending() == old(self).pending(),
                holes_wf(h, self.bottom_addr(), self.top_addr()),
                self.bottom_addr() % word() == 0,
                self.top_addr() % word() == 0,
                0 <= self.bottom_addr() <= self.top_addr() <= usize::MAX,
                self.top_addr() == 0 || self.top_addr() >= self.bottom_addr() + min_hole(),
                0 <= self.pending() < min_hole(),
                n == h.len(),
                aligned_layout.size() == size,
                aligned_layout.align() == al,
                size >= min_hole(),
            ensures
                self@ == alloc_holes(h, size, al),
                found is Some <==> first_fit(h, size, al) < h.len(),
                found matches Some(p) ==> p == alloc_start(h[first_fit(h, size, al)], al),
            decreases n - i,
        {
            match self.split_current(i, aligned_layout) {
                Ok((ptr, _len)) => {
                    assert(split_fits(h[i as int], size, al));
                    assert(first_fit_from(h, i as int, size, al) == i);
                    found = Some(ptr);
                    break;
                },
                Err(()) => {
                    i = i + 1;
                    if i >= n {
                        assert(first_fit_from(h, i as int, size, al) == h.len());
                        break;
                    }
                },
            }
        }
        proof {
            lemma_alloc_holes(h, self.bottom_addr(), self.top_addr(), size, al);
            lemma_first_fit(h, size, al);
            if first_fit(h, size, al) < h.len() {
                assert(hole_ok(h[first_fit(h, size, al)], self.bottom_addr(), self.top_addr()));
                lemma_alloc_start(h[first_fit(h, size, al)], al);
            }
        }
        match found {
            Some(ptr) => {
                if ptr == 0 {
                    Err(())
                } else {
                    Ok((ptr, aligned_layout))
                }
            },
            None => Err(()),
        }
    }
}

impl HoleList {
    /// Gives back the block at `ptr` that was allocated with `layout`; returns the
    /// layout the block was served with. The list changes as `dealloc_holes` says.
    pub fn deallocate(&mut self, ptr: usize, layout: Layout) -> (r: Layout)
        requires
            old(self).wf(),
            aligned_size(layout.size() as int) <= isize::MAX as int - (isize::MAX as int
                % layout.align() as int),
            block_free(
                old(self)@,
                ptr as int,
                aligned_size(layout.size() as int),
                old(self).bottom_addr(),
                old(self).top_addr(),
            ),
        ensures
            final(self)@ == dealloc_holes(
                old(self)@,
                ptr as int,
                aligned_size(layout.size() as int),
                old(self).bottom_addr(),
                old(self).top_addr(),
            ),
            final(self).wf(),
            r.size() == aligned_size(layout.size() as int),
            r.align() == layout.align(),
            final(self).bottom_addr() == old(self).bottom_addr(),
            final(self).top_addr() == old(self).top_addr(),
            final(self).pending() == old(self).pending(),
    {
        let aligned_layout = Self::align_layout(layout);
        proof {
            lemma_dealloc_holes(
                self@,
                ptr as int,
                aligned_layout.size() as int,
                self.bottom_addr(),
                self.top_addr(),
            );
        }
        deallocate(self, ptr, aligned_layout.size());
        aligned_layout
    }

    /// Grows the managed range by `by` bytes past the top. Bytes that do not make a
    /// whole hole yet are kept pending; otherwise the whole words of them, together with
    /// the pending bytes, are given back as a block at the old top.
    pub fn extend(&mut self, by: usize)
        requires
            old(self).wf(),
            old(self).top_addr() != 0,
            old(self).pending() + by <= usize::MAX,
            old(self).pending() + by >= min_hole() ==> old(self).top_addr() + align_down(
                old(self).pending() + by,
                word(),
            ) <= usize::MAX && align_down(old(self).pending() + by, word()) <= isize::MAX,
        ensures
            final(self).wf(),
            final(self).bottom_addr() == old(self).bottom_addr(),
            ({
                let extend_by = old(self).pending() + by;
                let n = align_down(extend_by, word());
                &&& extend_by < min_hole() ==> {
                    &&& final(self)@ == old(self)@
                    &&& final(self).top_addr() == old(self).top_addr()
                    &&& final(self).pending() == extend_by
                }
                &&& extend_by >= min_hole() ==> {
                    &&& final(self)@ == dealloc_holes(
                        old(self)@,
                        old(self).top_addr(),
                        n,
                        old(self).bottom_addr(),
                        old(self).top_addr(),
                    )
                    &&& final(self).top_addr() == old(self).top_addr() + n
                    &&& final(self).pending() == extend_by - n
                }
            }),
    {
        let top = self.top;
        let extend_by = self.pending_extend as usize + by;
        let minimum_extend = Self::min_size();
        if extend_by < minimum_extend {
            self.pending_extend = extend_by as u8;
            return ;
        }
        let w = word_size();
        let new_hole_size = align_down_size(extend_by, w);
        proof {
            lemma_word();
            lemma_align_facts(extend_by as int, w as int);
            lemma_mod_range(extend_by as int, w as int);
        }
        let layout = Layout::from_size_align(new_hole_size, 1).unwrap();
        let aligned_layout = Self::align_layout(layout);
        proof {
            lemma_align_facts(new_hole_size as int, w as int);
            lemma_extend_holes(
                self@,
                self.bottom_addr(),
                self.top_addr(),
                new_hole_size as int,
            );
        }
        deallocate(self, top, aligned_layout.size());
        self.top = top + new_hole_size;
        self.pending_extend = (extend_by - new_hole_size) as u8;
        proof {
            lemma_add_mod(top as int, new_hole_size as int, w as int);
        }
    }
}

/// The hole `node` stretched up to `top` when the gap behind it is too small for a hole.
fn check_merge_top(node: Hole, top: usize) -> (r: Hole)
    requires
        node.addr + node.size <= usize::MAX,
        top as int % word() == 0,
    ensures
        hole_view(r) == top_adjust(hole_view(node), top as int),
{
    let end = node.addr + node.size;
    if end < top {
        let w = word_size();
        proof {
            lemma_mod_range(end as int, w as int);
            lemma_align_up_below(end as int, top as int, w as int);
        }
        let rem = end % w;
        let pad = if rem == 0 {
            0
        } else {
            w - rem
        };
        let next_hole_start = end + pad;
        if top - next_hole_start < HoleList::min_size() {
            let offset = top - end;
            return Hole { addr: node.addr, size: node.size + offset };
        }
    }
    node
}

/// The hole `node` stretched down to `bottom` when the gap before it is too small for a hole.
fn check_merge_bottom(node: Hole, bottom: usize) -> (r: Hole)
    requires
        bottom <= node.addr,
        node.addr + node.size <= usize::MAX,
    ensures
        hole_view(r) == bottom_adjust(hole_view(node), bottom as int),
{
    if node.addr - bottom < HoleList::min_size() {
        let offset = node.addr - bottom;
        Hole { addr: bottom, size: node.size + offset }
    } else {
        node
    }
}

/// Gives the block `[addr, addr + size)` back to the list as `dealloc_holes` says.
fn deallocate(list: &mut HoleList, addr: usize, size: usize)
    requires
        old(list).wf(),
        old(list).bottom_addr() <= addr,
        addr + size <= usize::MAX,
    ensures
        final(list)@ == dealloc_holes(
            old(list)@,
            addr as int,
            size as int,
            old(list).bottom_addr(),
            old(list).top_addr(),
        ),
        final(list).bottom_addr() == old(list).bottom_addr(),
        final(list).top_addr() == old(list).top_addr(),
        final(list).pending() == old(list).pending(),
{
    let ghost h = old(list)@;
    let ghost a = addr as int;
    let ghost s = size as int;
    let hole = Hole { addr, size };
    let n = list.holes.len();
    let bottom = list.bottom;
    let top = list.top;
    if n == 0 {
        let hole = check_merge_bottom(hole, bottom);
        let hole = check_merge_top(hole, top);
        list.holes.push(hole);
        assert(list@ =~= seq![hole_view(hole)]);
        return ;
    }
    proof {
        assert(hole_ok(h[0], list.bottom_addr(), list.top_addr()));
    }
    if addr < list.holes[0].addr {
        // the block goes in front of every hole
        assert(ins_idx(h, a) == 0);
        let node = check_merge_bottom(hole, bottom);
        let first = list.holes[0];
        if node.addr + node.size == first.addr {
            list.holes.set(0, Hole { addr: node.addr, size: node.size + first.size });
            assert(list@ =~= seq![(node.addr as int, node.size + first.size)] + h.drop_first());
        } else {
            list.holes.insert(0, node);
            assert(list@ =~= seq![hole_view(node)] + h);
        }
        return ;
    }
    // the block goes after the last hole that starts below it
    let mut k: usize = 1;
    assert(ins_idx_from(h, 0, a) == ins_idx_from(h, 1, a));
    while k < n
        invariant
            1 <= k <= n,
            n == h.len(),
            list@ == h,
            a == addr,
            ins_idx(h, a) == ins_idx_from(h, k as int, a),
        ensures
            1 <= k <= n,
            list@ == h,
            ins_idx(h, a) == k,
        decreases n - k,
    {
        assert(h[k as int].0 == list.holes@[k as int].addr);
        if addr < list.holes[k].addr {
            assert(a < h[k as int].0);
            assert(ins_idx_from(h, k as int, a) == k);
            break;
        }
        assert(!(a < h[k as int].0));
        assert(ins_idx_from(h, k as int, a) == ins_idx_from(h, k + 1, a));
        k = k + 1;
    }
    assert(ins_idx(h, a) == k);
    let prev = list.holes[k - 1];
    proof {
        assert(hole_ok(h[k - 1], list.bottom_addr(), list.top_addr()));
    }
    let touch = prev.addr + prev.size == addr;
    let m = if touch {
        Hole { addr: prev.addr, size: prev.size + size }
    } else {
        Hole { addr, size }
    };
    if k < n {
        let next = list.holes[k];
        proof {
            assert(hole_ok(h[k as int], list.bottom_addr(), list.top_addr()));
        }
        if m.addr + m.size == next.addr {
            let merged = Hole { addr: m.addr, size: m.size + next.size };
            if touch {
                list.holes.set(k - 1, merged);
                list.holes.remove(k);
                assert(list@ =~= h.subrange(0, k - 1) + seq![hole_view(merged)] + h.subrange(
                    k + 1,
                    h.len() as int,
                ));
            } else {
                list.holes.set(k, merged);
                assert(list@ =~= h.subrange(0, k as int) + seq![hole_view(merged)] + h.subrange(
                    k + 1,
                    h.len() as int,
                ));
            }
        } else {
            if touch {
                list.holes.set(k - 1, m);
                assert(list@ =~= h.subrange(0, k - 1) + seq![hole_view(m)] + h.subrange(
                    k as int,
                    h.len() as int,
                ));
            } else {
                list.holes.insert(k, m);
                assert(list@ =~= h.subrange(0, k as int) + seq![hole_view(m)] + h.subrange(
                    k as int,
                    h.len() as int,
                ));
            }
        }
    } else {
        let m2 = check_merge_top(m, top);
        if touch {
            list.holes.set(k - 1, m2);
            assert(list@ =~= h.subrange(0, k - 1) + seq![hole_view(m2)]);
        } else {
            list.holes.push(m2);
            assert(list@ =~= h.subrange(0, k as int) + seq![hole_view(m2)]);
        }
    }
}

} // verus!
