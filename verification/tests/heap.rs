use tricore_kernel::memory::heap::{HoleList, Layout};

fn word() -> usize {
    core::mem::size_of::<usize>()
}

fn layout(size: usize, align: usize) -> Layout {
    Layout::from_size_align(size, align).unwrap()
}

#[test]
fn min_size_is_two_words() {
    assert_eq!(HoleList::min_size(), 2 * word());
}

#[test]
fn empty_list_has_no_hole_and_cannot_allocate() {
    let mut list = HoleList::empty();
    assert_eq!(list.first_hole(), None);
    assert_eq!(list.allocate_first_fit(layout(8, 8)), Err(()));
}

#[test]
fn new_list_is_one_aligned_hole() {
    let list = HoleList::new(0x1000, 4096);
    assert_eq!(list.first_hole(), Some((0x1000, 4096)));
}

#[test]
fn new_list_rounds_start_up_and_size_down() {
    let w = word();
    let list = HoleList::new(0x1003, 100);
    let start = 0x1000 + w;
    let requested = 100 - (start - 0x1003);
    let size = requested - requested % w;
    assert_eq!(list.first_hole(), Some((start, size)));
}

#[test]
fn layout_rejects_bad_alignments() {
    assert!(Layout::from_size_align(8, 0).is_err());
    assert!(Layout::from_size_align(8, 3).is_err());
    assert!(Layout::from_size_align(8, 12).is_err());
    assert!(Layout::from_size_align(usize::MAX, 1).is_err());
    let l = layout(8, 4);
    assert_eq!((l.size(), l.align()), (8, 4));
}

#[test]
fn align_layout_rounds_small_and_odd_sizes() {
    let w = word();
    let a = HoleList::align_layout(layout(1, 1));
    assert_eq!((a.size(), a.align()), (2 * w, 1));
    let b = HoleList::align_layout(layout(2 * w + 1, 4));
    assert_eq!((b.size(), b.align()), (3 * w, 4));
    let c = HoleList::align_layout(layout(5 * w, 64));
    assert_eq!((c.size(), c.align()), (5 * w, 64));
}

#[test]
fn allocation_is_cut_from_the_front_of_an_aligned_hole() {
    let mut list = HoleList::new(0x1000, 4096);
    let (p, l) = list.allocate_first_fit(layout(64, 8)).unwrap();
    assert_eq!(p, 0x1000);
    assert_eq!(l.size(), 64);
    assert_eq!(list.first_hole(), Some((0x1040, 4096 - 64)));
}

#[test]
fn misaligned_hole_leaves_a_front_hole() {
    let w = word();
    let mut list = HoleList::new(0x1000 + w, 4096);
    let (p, _) = list.allocate_first_fit(layout(64, 256)).unwrap();
    assert_eq!(p, 0x1100);
    assert_eq!(list.first_hole(), Some((0x1000 + w, 0x100 - w)));
}

#[test]
fn request_larger_than_every_hole_fails_and_changes_nothing() {
    let mut list = HoleList::new(0x1000, 256);
    assert_eq!(list.allocate_first_fit(layout(512, 8)), Err(()));
    assert_eq!(list.first_hole(), Some((0x1000, 256)));
}

#[test]
fn exact_fit_removes_the_hole() {
    let mut list = HoleList::new(0x1000, 256);
    let (p, _) = list.allocate_first_fit(layout(256, 8)).unwrap();
    assert_eq!(p, 0x1000);
    assert_eq!(list.first_hole(), None);
    assert_eq!(list.allocate_first_fit(layout(8, 8)), Err(()));
}

#[test]
fn allocation_leaving_less_than_a_hole_behind_fails() {
    let w = word();
    // a hole of 5 words: 4 words leave 1 word behind, too small for a hole
    let mut list = HoleList::new(0x1000, 5 * w);
    assert_eq!(list.allocate_first_fit(layout(4 * w, 8)), Err(()));
    assert_eq!(list.first_hole(), Some((0x1000, 5 * w)));
}

#[test]
fn deallocate_undoes_allocate() {
    let mut list = HoleList::new(0x1000, 4096);
    let l = layout(100, 16);
    let (p, _) = list.allocate_first_fit(l).unwrap();
    let back = list.deallocate(p, l);
    assert_eq!(back.size(), HoleList::align_layout(l).size());
    assert_eq!(list.first_hole(), Some((0x1000, 4096)));
}

#[test]
fn deallocate_undoes_allocate_with_front_hole() {
    let w = word();
    let mut list = HoleList::new(0x1000 + w, 4096);
    let l = layout(64, 256);
    let (p, _) = list.allocate_first_fit(l).unwrap();
    list.deallocate(p, l);
    assert_eq!(list.first_hole(), Some((0x1000 + w, 4096)));
}

#[test]
fn freed_blocks_merge_with_their_neighbours() {
    let mut list = HoleList::new(0x1000, 4096);
    let l = layout(64, 8);
    let (a, _) = list.allocate_first_fit(l).unwrap();
    let (b, _) = list.allocate_first_fit(l).unwrap();
    let (c, _) = list.allocate_first_fit(l).unwrap();
    assert_eq!((a, b, c), (0x1000, 0x1040, 0x1080));
    list.deallocate(a, l);
    assert_eq!(list.first_hole(), Some((0x1000, 64)));
    list.deallocate(c, l);
    // c merges with the hole behind it; b still separates the two holes
    assert_eq!(list.first_hole(), Some((0x1000, 64)));
    list.deallocate(b, l);
    assert_eq!(list.first_hole(), Some((0x1000, 4096)));
}

#[test]
fn freed_block_in_front_of_all_holes_becomes_the_first() {
    let mut list = HoleList::new(0x1000, 4096);
    let l = layout(64, 8);
    let (a, _) = list.allocate_first_fit(l).unwrap();
    let (_b, _) = list.allocate_first_fit(l).unwrap();
    list.deallocate(a, l);
    assert_eq!(list.first_hole(), Some((0x1000, 64)));
    let (again, _) = list.allocate_first_fit(l).unwrap();
    assert_eq!(again, 0x1000);
}

#[test]
fn first_fit_skips_holes_that_are_too_small() {
    let mut list = HoleList::new(0x1000, 4096);
    let small = layout(64, 8);
    let (a, _) = list.allocate_first_fit(small).unwrap();
    let (_b, _) = list.allocate_first_fit(small).unwrap();
    list.deallocate(a, small);
    let (big, _) = list.allocate_first_fit(layout(128, 8)).unwrap();
    assert_eq!(big, 0x1080);
    assert_eq!(list.first_hole(), Some((0x1000, 64)));
}

#[test]
fn extend_grows_the_last_hole() {
    let mut list = HoleList::new(0x1000, 256);
    list.extend(256);
    assert_eq!(list.first_hole(), Some((0x1000, 512)));
    let (p, _) = list.allocate_first_fit(layout(512, 8)).unwrap();
    assert_eq!(p, 0x1000);
}

#[test]
fn extend_by_less_than_a_hole_is_kept_pending() {
    let w = word();
    let mut list = HoleList::new(0x1000, 256);
    list.extend(w);
    assert_eq!(list.first_hole(), Some((0x1000, 256)));
    list.extend(w);
    assert_eq!(list.first_hole(), Some((0x1000, 256 + 2 * w)));
}

#[test]
fn extend_after_everything_is_allocated_adds_a_new_hole() {
    let mut list = HoleList::new(0x1000, 256);
    let (p, _) = list.allocate_first_fit(layout(256, 8)).unwrap();
    assert_eq!(p, 0x1000);
    list.extend(128);
    assert_eq!(list.first_hole(), Some((0x1100, 128)));
}
