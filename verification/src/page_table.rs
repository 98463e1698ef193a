//! The page-table mutator: map and unmap of frames and intermediate
//! directories for user space, the kernel-window builder, and the walk that
//! classifies the tree's state for a virtual address.
//!
//! Every operation first validates alignment, then acts on the slot found by
//! the walk ([`crate::model::walk_to`]); its contract states the outcome and
//! the new tree view for every case.

use vstd::prelude::*;

use crate::common::{is_aligned, spec_is_aligned, ResponseLabel, ResultWithErr};
use crate::hal::{
    entry_index, entry_view, index_of, lemma_entry_index_bounds, lemma_view_update, phys_of, size_at,
    table_view, to_phys, PageTableEntryImpl, PageTableImpl, HAL_PAGE_LEVEL, KERNEL_OFFSET,
    PAGE_SIZE, PT_ENTRY_COUNT, VADDR_MASK,
};
use crate::model::{
    chain_view, empty_node, lemma_chain_wf, lemma_empty_wf, lemma_update_wf, slot_child,
    slot_has_frame, slot_points_to, slot_wf, subtree_has_frame, table_wf, walk_entry, walk_found,
    walk_to, walk_update, EntryView,
};

verus! {

/// One directory node of the tree. The root is owned by the boot path;
/// intermediate nodes are owned by the entry that points to them.
pub struct PageTable {
    pub page_table_impl: PageTableImpl,
}

impl View for PageTable {
    type V = Seq<EntryView>;

    /// The tree seen from this node, which stands at the root level.
    open spec fn view(&self) -> Seq<EntryView> {
        table_view(self.page_table_impl, 0)
    }
}

impl PageTable {
    /// Whether the tree below this node is well-formed as a root.
    pub open spec fn wf(&self) -> bool {
        table_wf(self@, 0)
    }

    /// A fresh, zero-initialised root directory.
    pub fn new() -> (r: Self)
        ensures
            r@ == empty_node(),
            r.wf(),
    {
        let t = PageTable { page_table_impl: PageTableImpl::new() };
        proof {
            assert(t@ =~= empty_node());
        }
        t
    }
}

/// Outcome of a walk: the virtual address is already mapped by a leaf at the
/// returned level, or the walk stopped at the returned level without finding
/// one (because the slot there is free, or the level bound was reached).
#[derive(Clone, Copy, Debug, PartialEq, Eq, Structural)]
pub enum SearchResult {
    Found(usize),
    Missing(usize),
}

/// Coarse classification of a slot, used to drive the walkers.
#[derive(Clone, Copy)]
enum EntryKind {
    Empty,
    Inter,
    Leaf,
}

/// Read a slot's kind without touching it.
fn kind_of(e: &PageTableEntryImpl) -> (k: EntryKind)
    ensures
        (k is Empty) == (e is Invalid),
        (k is Inter) == (e is Table),
        (k is Leaf) == (e is Frame),
{
    match e {
        PageTableEntryImpl::Invalid => EntryKind::Empty,
        PageTableEntryImpl::Table { .. } => EntryKind::Inter,
        PageTableEntryImpl::Frame { .. } => EntryKind::Leaf,
    }
}

/// Recursive walker for the user leaf map: descend to the decided slot and
/// write the frame there if the deepest level was reached on a free slot.
fn map_frame_rec(
    t: &mut PageTableImpl,
    level: usize,
    vaddr: u64,
    phys: u64,
    is_x: bool,
    is_w: bool,
    is_r: bool,
) -> (r: ResultWithErr<ResponseLabel>)
    requires
        table_wf(table_view(*old(t), level as int), level as int),
    ensures
        table_wf(table_view(*final(t), level as int), level as int),
        ({
            let v = table_view(*old(t), level as int);
            let v2 = table_view(*final(t), level as int);
            let wl = walk_to(v, level as int, vaddr, HAL_PAGE_LEVEL as int).0;
            let found = walk_found(v, level as int, vaddr, HAL_PAGE_LEVEL as int);
            &&& (found ==> r == Err::<(), ResponseLabel>(ResponseLabel::MappedAlready) && v2 == v)
            &&& (!found && wl == HAL_PAGE_LEVEL - 1 ==> r == Ok::<(), ResponseLabel>(()) && v2
                == walk_update(
                v,
                level as int,
                vaddr,
                HAL_PAGE_LEVEL as int,
                (EntryView::Frame { paddr: phys, is_x, is_w, is_r }),
            ))
            &&& (!found && wl < HAL_PAGE_LEVEL - 1 ==> r == Err::<(), ResponseLabel>(
                ResponseLabel::PageTableMiss,
            ) && v2 == v)
        }),
    decreases HAL_PAGE_LEVEL - level,
{
    let ghost v = table_view(*t, level as int);
    proof {
        assert(v.len() == t.entries@.len());
        lemma_entry_index_bounds(vaddr, level as int);
    }
    let idx = index_of(vaddr, level);
    proof {
        assert(v[idx as int] == entry_view(t.entries@[idx as int], level as int));
        assert(slot_wf(v[idx as int], level as int));
    }
    let k = kind_of(&t.entries[idx]);
    match k {
        EntryKind::Leaf => Err(ResponseLabel::MappedAlready),
        EntryKind::Empty => {
            if level == HAL_PAGE_LEVEL - 1 {
                t.map_frame_for_user(vaddr, phys, level, is_x, is_w, is_r);
                proof {
                    lemma_view_update(
                        *old(t),
                        *t,
                        idx as int,
                        (PageTableEntryImpl::Frame { paddr: phys, is_x, is_w, is_r }),
                        level as int,
                    );
                    lemma_update_wf(
                        v,
                        level as int,
                        idx as int,
                        (EntryView::Frame { paddr: phys, is_x, is_w, is_r }),
                    );
                }
                Ok(())
            } else {
                Err(ResponseLabel::PageTableMiss)
            }
        },
        EntryKind::Inter => {
            let r;
            match &mut t.entries[idx] {
                PageTableEntryImpl::Table { paddr, child } => {
                    r = map_frame_rec(&mut **child, level + 1, vaddr, phys, is_x, is_w, is_r);
                },
                _ => {
                    proof {
                        assert(false);
                    }
                    r = Err(ResponseLabel::InvalidParam);
                },
            }
            proof {
                let e2 = t.entries@[idx as int];
                assert(t.entries@ == old(t).entries@.update(idx as int, e2));
                lemma_view_update(*old(t), *t, idx as int, e2, level as int);
                let v2 = table_view(*t, level as int);
                assert(v2 == v.update(idx as int, entry_view(e2, level as int)));
                assert(slot_wf(v2[idx as int], level as int));
                lemma_update_wf(v, level as int, idx as int, entry_view(e2, level as int));
                assert(v.update(idx as int, v[idx as int]) =~= v);
            }
            r
        },
    }
}

/// Recursive walker for the intermediate-directory map: descend to the
/// decided slot and install a fresh, empty directory there unless the walk
/// ended on a populated slot or on the deepest level.
fn map_page_table_rec(t: &mut PageTableImpl, level: usize, vaddr: u64, phys: u64) -> (r: Result<
    usize,
    ResponseLabel,
>)
    requires
        table_wf(table_view(*old(t), level as int), level as int),
        spec_is_aligned(phys, PAGE_SIZE),
    ensures
        table_wf(table_view(*final(t), level as int), level as int),
        ({
            let v = table_view(*old(t), level as int);
            let v2 = table_view(*final(t), level as int);
            let wl = walk_to(v, level as int, vaddr, HAL_PAGE_LEVEL as int).0;
            let found = walk_found(v, level as int, vaddr, HAL_PAGE_LEVEL as int);
            &&& (found ==> r == Err::<usize, ResponseLabel>(ResponseLabel::MappedAlready) && v2
                == v)
            &&& (!found && wl == HAL_PAGE_LEVEL - 1 ==> r == Err::<usize, ResponseLabel>(
                ResponseLabel::MappedAlready,
            ) && v2 == v)
            &&& (!found && wl < HAL_PAGE_LEVEL - 1 ==> r == Ok::<usize, ResponseLabel>(
                (wl + 1) as usize,
            ) && v2 == walk_update(
                v,
                level as int,
                vaddr,
                HAL_PAGE_LEVEL as int,
                (EntryView::Table { paddr: phys, node: empty_node() }),
            ))
        }),
    decreases HAL_PAGE_LEVEL - level,
{
    let ghost v = table_view(*t, level as int);
    proof {
        assert(v.len() == t.entries@.len());
        lemma_entry_index_bounds(vaddr, level as int);
    }
    let idx = index_of(vaddr, level);
    proof {
        assert(v[idx as int] == entry_view(t.entries@[idx as int], level as int));
        assert(slot_wf(v[idx as int], level as int));
    }
    let k = kind_of(&t.entries[idx]);
    match k {
        EntryKind::Leaf => Err(ResponseLabel::MappedAlready),
        EntryKind::Empty => {
            if level == HAL_PAGE_LEVEL - 1 {
                Err(ResponseLabel::MappedAlready)
            } else {
                let child = Box::new(PageTableImpl::new());
                proof {
                    assert(table_view(*child, level as int + 1) =~= empty_node());
                    lemma_empty_wf(level as int + 1);
                }
                t.map_page_table(vaddr, phys, level, child);
                proof {
                    let e2 = t.entries@[idx as int];
                    lemma_view_update(*old(t), *t, idx as int, e2, level as int);
                    assert(entry_view(e2, level as int) == (EntryView::Table {
                        paddr: phys,
                        node: empty_node(),
                    }));
                    lemma_update_wf(
                        v,
                        level as int,
                        idx as int,
                        (EntryView::Table { paddr: phys, node: empty_node() }),
                    );
                }
                Ok(level + 1)
            }
        },
        EntryKind::Inter => {
            let r;
            match &mut t.entries[idx] {
                PageTableEntryImpl::Table { paddr, child } => {
                    r = map_page_table_rec(&mut **child, level + 1, vaddr, phys);
                },
                _ => {
                    proof {
                        assert(false);
                    }
                    r = Err(ResponseLabel::InvalidParam);
                },
            }
            proof {
                let e2 = t.entries@[idx as int];
                assert(t.entries@ == old(t).entries@.update(idx as int, e2));
                lemma_view_update(*old(t), *t, idx as int, e2, level as int);
                assert(slot_wf(entry_view(e2, level as int), level as int));
                lemma_update_wf(v, level as int, idx as int, entry_view(e2, level as int));
                assert(v.update(idx as int, v[idx as int]) =~= v);
            }
            r
        },
    }
}

/// Recursive walker for the leaf unmap: clear the decided slot if the walk
/// found a mapped frame there.
fn unmap_frame_rec(t: &mut PageTableImpl, level: usize, vaddr: u64) -> (r: ResultWithErr<
    ResponseLabel,
>)
    requires
        table_wf(table_view(*old(t), level as int), level as int),
    ensures
        table_wf(table_view(*final(t), level as int), level as int),
        ({
            let v = table_view(*old(t), level as int);
            let v2 = table_view(*final(t), level as int);
            let found = walk_found(v, level as int, vaddr, HAL_PAGE_LEVEL as int);
            &&& (found ==> r == Ok::<(), ResponseLabel>(()) && v2 == walk_update(
                v,
                level as int,
                vaddr,
                HAL_PAGE_LEVEL as int,
                EntryView::Empty,
            ))
            &&& (!found ==> r == Err::<(), ResponseLabel>(ResponseLabel::InvalidParam) && v2 == v)
        }),
    decreases HAL_PAGE_LEVEL - level,
{
    let ghost v = table_view(*t, level as int);
    proof {
        assert(v.len() == t.entries@.len());
        lemma_entry_index_bounds(vaddr, level as int);
    }
    let idx = index_of(vaddr, level);
    proof {
        assert(v[idx as int] == entry_view(t.entries@[idx as int], level as int));
        assert(slot_wf(v[idx as int], level as int));
    }
    let k = kind_of(&t.entries[idx]);
    match k {
        EntryKind::Leaf => {
            t.unmap_frame(vaddr, level);
            proof {
                lemma_view_update(*old(t), *t, idx as int, PageTableEntryImpl::Invalid, level as int);
                lemma_update_wf(v, level as int, idx as int, EntryView::Empty);
            }
            Ok(())
        },
        EntryKind::Empty => Err(ResponseLabel::InvalidParam),
        EntryKind::Inter => {
            let r;
            match &mut t.entries[idx] {
                PageTableEntryImpl::Table { paddr, child } => {
                    r = unmap_frame_rec(&mut **child, level + 1, vaddr);
                },
                _ => {
                    proof {
                        assert(false);
                    }
                    r = Err(ResponseLabel::InvalidParam);
                },
            }
            proof {
                let e2 = t.entries@[idx as int];
                assert(t.entries@ == old(t).entries@.update(idx as int, e2));
                lemma_view_update(*old(t), *t, idx as int, e2, level as int);
                assert(slot_wf(entry_view(e2, level as int), level as int));
                lemma_update_wf(v, level as int, idx as int, entry_view(e2, level as int));
                assert(v.update(idx as int, v[idx as int]) =~= v);
            }
            r
        },
    }
}

/// Whether any mapped frame exists in the subtree below `t` (standing at
/// `level`), checked slot by slot.
fn table_has_frame(t: &PageTableImpl, level: usize) -> (r: bool)
    requires
        table_wf(table_view(*t, level as int), level as int),
    ensures
        r == subtree_has_frame(table_view(*t, level as int), level as int),
    decreases HAL_PAGE_LEVEL - level,
{
    let ghost v = table_view(*t, level as int);
    proof {
        assert(v.len() == t.entries@.len());
    }
    let mut i: usize = 0;
    while i < PT_ENTRY_COUNT
        invariant
            i <= PT_ENTRY_COUNT,
            v == table_view(*t, level as int),
            v.len() == t.entries@.len(),
            table_wf(v, level as int),
            forall|j: int| 0 <= j < i ==> !slot_has_frame(#[trigger] v[j], level as int),
        decreases PT_ENTRY_COUNT - i,
    {
        proof {
            assert(v[i as int] == entry_view(t.entries@[i as int], level as int));
            assert(slot_wf(v[i as int], level as int));
        }
        match &t.entries[i] {
            PageTableEntryImpl::Frame { .. } => {
                proof {
                    assert(slot_has_frame(v[i as int], level as int));
                }
                return true;
            },
            PageTableEntryImpl::Table { child, .. } => {
                if table_has_frame(&**child, level + 1) {
                    proof {
                        assert(slot_has_frame(v[i as int], level as int));
                    }
                    return true;
                }
            },
            PageTableEntryImpl::Invalid => {},
        }
        i = i + 1;
    }
    proof {
        assert(!subtree_has_frame(v, level as int));
    }
    false
}

/// Recursive walker for the intermediate-directory unmap: walk down to the
/// level bound, demand that the decided slot is an intermediate standing at
/// exactly the physical address the caller named, refuse while any frame is
/// still mapped below it, and clear it otherwise.
fn unmap_page_table_rec(
    t: &mut PageTableImpl,
    level: usize,
    vaddr: u64,
    phys: u64,
    max_level: usize,
) -> (r: ResultWithErr<ResponseLabel>)
    requires
        table_wf(table_view(*old(t), level as int), level as int),
        level <= max_level,
    ensures
        table_wf(table_view(*final(t), level as int), level as int),
        ({
            let v = table_view(*old(t), level as int);
            let v2 = table_view(*final(t), level as int);
            let wl = walk_to(v, level as int, vaddr, max_level as int).0;
            let we = walk_entry(v, level as int, vaddr, max_level as int);
            let found = walk_found(v, level as int, vaddr, max_level as int);
            &&& (found ==> r == Err::<(), ResponseLabel>(ResponseLabel::MappedAlready) && v2 == v)
            &&& (!found && slot_points_to(we, phys) && subtree_has_frame(slot_child(we), wl + 1)
                ==> r == Err::<(), ResponseLabel>(ResponseLabel::MappedAlready) && v2 == v)
            &&& (!found && slot_points_to(we, phys) && !subtree_has_frame(slot_child(we), wl + 1)
                ==> r == Ok::<(), ResponseLabel>(()) && v2 == walk_update(
                v,
                level as int,
                vaddr,
                max_level as int,
                EntryView::Empty,
            ))
            &&& (!found && !slot_points_to(we, phys) ==> r == Err::<(), ResponseLabel>(
                ResponseLabel::InvalidParam,
            ) && v2 == v)
        }),
    decreases max_level - level,
{
    let ghost v = table_view(*t, level as int);
    proof {
        assert(v.len() == t.entries@.len());
        lemma_entry_index_bounds(vaddr, level as int);
    }
    let idx = index_of(vaddr, level);
    proof {
        assert(v[idx as int] == entry_view(t.entries@[idx as int], level as int));
        assert(slot_wf(v[idx as int], level as int));
    }
    if level < max_level {
        let k = kind_of(&t.entries[idx]);
        match k {
            EntryKind::Leaf => Err(ResponseLabel::MappedAlready),
            EntryKind::Empty => Err(ResponseLabel::InvalidParam),
            EntryKind::Inter => {
                let r;
                match &mut t.entries[idx] {
                    PageTableEntryImpl::Table { paddr, child } => {
                        r = unmap_page_table_rec(&mut **child, level + 1, vaddr, phys, max_level);
                    },
                    _ => {
                        proof {
                            assert(false);
                        }
                        r = Err(ResponseLabel::InvalidParam);
                    },
                }
                proof {
                    let e2 = t.entries@[idx as int];
                    assert(t.entries@ == old(t).entries@.update(idx as int, e2));
                    lemma_view_update(*old(t), *t, idx as int, e2, level as int);
                    assert(slot_wf(entry_view(e2, level as int), level as int));
                    lemma_update_wf(v, level as int, idx as int, entry_view(e2, level as int));
                    assert(v.update(idx as int, v[idx as int]) =~= v);
                }
                r
            },
        }
    } else {
        let mut slot_matches = false;
        let mut frame_below = false;
        match &t.entries[idx] {
            PageTableEntryImpl::Table { paddr, child } => {
                if *paddr == phys {
                    slot_matches = true;
                    frame_below = table_has_frame(&**child, level + 1);
                }
            },
            _ => {},
        }
        if slot_matches {
            if frame_below {
                Err(ResponseLabel::MappedAlready)
            } else {
                t.unmap_frame(vaddr, level);
                proof {
                    lemma_view_update(
                        *old(t),
                        *t,
                        idx as int,
                        PageTableEntryImpl::Invalid,
                        level as int,
                    );
                    lemma_update_wf(v, level as int, idx as int, EntryView::Empty);
                }
                Ok(())
            }
        } else {
            Err(ResponseLabel::InvalidParam)
        }
    }
}

/// Recursive walker for the auto-populating root-task map: reaching a free
/// slot above the deepest level allocates a fresh directory, installs it and
/// carries on below it; a slot already mapped leaves the tree unchanged.
fn map_root_task_frame_rec(
    t: &mut PageTableImpl,
    level: usize,
    vaddr: u64,
    phys: u64,
    is_x: bool,
    is_w: bool,
    is_r: bool,
)
    requires
        table_wf(table_view(*old(t), level as int), level as int),
    ensures
        table_wf(table_view(*final(t), level as int), level as int),
        ({
            let v = table_view(*old(t), level as int);
            let v2 = table_view(*final(t), level as int);
            let wl = walk_to(v, level as int, vaddr, HAL_PAGE_LEVEL as int).0;
            let found = walk_found(v, level as int, vaddr, HAL_PAGE_LEVEL as int);
            &&& (found ==> v2 == v)
            &&& (!found ==> v2 == walk_update(
                v,
                level as int,
                vaddr,
                HAL_PAGE_LEVEL as int,
                chain_view(wl, vaddr, phys, is_x, is_w, is_r),
            ))
        }),
    decreases HAL_PAGE_LEVEL - level,
{
    let ghost v = table_view(*t, level as int);
    proof {
        assert(v.len() == t.entries@.len());
        lemma_entry_index_bounds(vaddr, level as int);
    }
    let idx = index_of(vaddr, level);
    proof {
        assert(v[idx as int] == entry_view(t.entries@[idx as int], level as int));
        assert(slot_wf(v[idx as int], level as int));
    }
    let k = kind_of(&t.entries[idx]);
    match k {
        EntryKind::Leaf => {
            // Already mapped: succeed without touching the tree (idempotent
            // policy for the root task's boot-time mappings).
        },
        EntryKind::Empty => {
            if level == HAL_PAGE_LEVEL - 1 {
                t.map_frame_for_user(vaddr, phys, level, is_x, is_w, is_r);
                proof {
                    lemma_view_update(
                        *old(t),
                        *t,
                        idx as int,
                        (PageTableEntryImpl::Frame { paddr: phys, is_x, is_w, is_r }),
                        level as int,
                    );
                    lemma_update_wf(
                        v,
                        level as int,
                        idx as int,
                        (EntryView::Frame { paddr: phys, is_x, is_w, is_r }),
                    );
                }
            } else {
                let mut child = PageTableImpl::new();
                proof {
                    assert(table_view(child, level as int + 1) =~= empty_node());
                    lemma_empty_wf(level as int + 1);
                    lemma_entry_index_bounds(vaddr, level as int + 1);
                }
                map_root_task_frame_rec(&mut child, level + 1, vaddr, phys, is_x, is_w, is_r);
                proof {
                    assert(empty_node()[entry_index(vaddr, level as int + 1)]
                        == EntryView::Empty);
                    assert(table_view(child, level as int + 1) == empty_node().update(
                        entry_index(vaddr, level as int + 1),
                        chain_view(level as int + 1, vaddr, phys, is_x, is_w, is_r),
                    ));
                }
                t.map_page_table(vaddr, 0, level, Box::new(child));
                proof {
                    let e2 = t.entries@[idx as int];
                    lemma_view_update(*old(t), *t, idx as int, e2, level as int);
                    assert(entry_view(e2, level as int) == chain_view(
                        level as int,
                        vaddr,
                        phys,
                        is_x,
                        is_w,
                        is_r,
                    ));
                    lemma_chain_wf(level as int, vaddr, phys, is_x, is_w, is_r);
                    lemma_update_wf(
                        v,
                        level as int,
                        idx as int,
                        chain_view(level as int, vaddr, phys, is_x, is_w, is_r),
                    );
                }
            }
        },
        EntryKind::Inter => {
            match &mut t.entries[idx] {
                PageTableEntryImpl::Table { paddr, child } => {
                    map_root_task_frame_rec(&mut **child, level + 1, vaddr, phys, is_x, is_w, is_r);
                },
                _ => {
                    proof {
                        assert(false);
                    }
                },
            }
            proof {
                let e2 = t.entries@[idx as int];
                assert(t.entries@ == old(t).entries@.update(idx as int, e2));
                lemma_view_update(*old(t), *t, idx as int, e2, level as int);
                assert(slot_wf(entry_view(e2, level as int), level as int));
                lemma_update_wf(v, level as int, idx as int, entry_view(e2, level as int));
                assert(v.update(idx as int, v[idx as int]) =~= v);
            }
        },
    }
}

/// Read-only walk used to classify the tree's state for `vaddr`.
fn search_rec(t: &PageTableImpl, level: usize, vaddr: u64, max_level: usize) -> (r: SearchResult)
    requires
        table_wf(table_view(*t, level as int), level as int),
        level <= max_level,
    ensures
        ({
            let v = table_view(*t, level as int);
            let wl = walk_to(v, level as int, vaddr, max_level as int).0;
            r == if walk_found(v, level as int, vaddr, max_level as int) {
                SearchResult::Found(wl as usize)
            } else {
                SearchResult::Missing(wl as usize)
            }
        }),
    decreases max_level - level,
{
    if level >= max_level {
        return SearchResult::Missing(level);
    }
    let ghost v = table_view(*t, level as int);
    proof {
        assert(v.len() == t.entries@.len());
        lemma_entry_index_bounds(vaddr, level as int);
    }
    let idx = index_of(vaddr, level);
    proof {
        assert(v[idx as int] == entry_view(t.entries@[idx as int], level as int));
        assert(slot_wf(v[idx as int], level as int));
    }
    match &t.entries[idx] {
        PageTableEntryImpl::Invalid => SearchResult::Missing(level),
        PageTableEntryImpl::Frame { .. } => SearchResult::Found(level),
        PageTableEntryImpl::Table { child, .. } => search_rec(&**child, level + 1, vaddr, max_level),
    }
}

/// Exclusive cursor over one root for the duration of a batch of mutator
/// operations.
pub struct MutPageTableWrapper {
    pub page_table: PageTable,
}

impl View for MutPageTableWrapper {
    type V = Seq<EntryView>;

    /// The view of the tree under the held root.
    open spec fn view(&self) -> Seq<EntryView> {
        self.page_table@
    }
}

impl MutPageTableWrapper {
    /// Whether the held tree is well-formed.
    pub open spec fn wf(&self) -> bool {
        self.page_table.wf()
    }

    /// Take exclusive hold of a root for a batch of operations.
    pub fn new(root: PageTable) -> (s: Self)
        ensures
            s.page_table == root,
    {
        MutPageTableWrapper { page_table: root }
    }

    /// Hand the root back once the batch is done.
    pub fn into_inner(self) -> (r: PageTable)
        ensures
            r == self.page_table,
    {
        self.page_table
    }

    /// Install one level-0 kernel leaf: the kernel-linear address `vaddr` is
    /// mapped to physical `paddr - KERNEL_OFFSET` with full permissions.
    /// Both addresses must be aligned to the level-0 slot size; the virtual
    /// address is masked to the MMU's 39 bits and the leaf written straight
    /// into this node, as the kernel window is built on an empty tree.
    /// Returns the bytes covered, so the window builder can advance.
    pub fn map_kernel(&mut self, vaddr: u64, paddr: u64) -> (r: Result<u64, String>)
        requires
            old(self).wf(),
        ensures
            final(self).wf(),
            ({
                let v = old(self)@;
                let v2 = final(self)@;
                let big = size_at(0) as u64;
                let aligned = spec_is_aligned(vaddr, big) && spec_is_aligned(paddr, big);
                &&& (!aligned ==> r is Err && v2 == v)
                &&& (aligned ==> r == Ok::<u64, String>(big) && v2 == v.update(
                    entry_index(vaddr, 0),
                    (EntryView::Frame {
                        paddr: phys_of(paddr),
                        is_x: true,
                        is_w: true,
                        is_r: true,
                    }),
                ))
            }),
    {
        let aligned_size = match PageTableImpl::get_size(0) {
            Some(s) => s,
            None => {
                proof {
                    assert(false);
                }
                0
            },
        };
        if !is_aligned(vaddr, aligned_size) || !is_aligned(paddr, aligned_size) {
            return Err("kernel map addresses must be aligned to the level-0 slot size".to_owned());
        }
        let masked = vaddr & VADDR_MASK;
        let phys = to_phys(paddr);
        proof {
            lemma_entry_index_bounds(vaddr, 0);
            assert(((vaddr & 0x7f_ffff_ffff) >> 30) & 0x1ff == (vaddr >> 30) & 0x1ff)
                by (bit_vector);
            assert(old(self)@.len() == self.page_table.page_table_impl.entries@.len());
        }
        self.page_table.page_table_impl.map_frame_for_kernel(masked, phys, 0);
        proof {
            lemma_view_update(
                old(self).page_table.page_table_impl,
                self.page_table.page_table_impl,
                entry_index(vaddr, 0),
                (PageTableEntryImpl::Frame { paddr: phys, is_x: true, is_w: true, is_r: true }),
                0,
            );
            lemma_update_wf(
                old(self)@,
                0,
                entry_index(vaddr, 0),
                (EntryView::Frame { paddr: phys, is_x: true, is_w: true, is_r: true }),
            );
        }
        Ok(aligned_size)
    }

    /// Install an intermediate directory for `vaddr`. The new directory is
    /// empty and recorded as standing at physical `paddr - KERNEL_OFFSET`.
    /// Misaligned addresses are `InvalidParam`; a walk ending on a leaf, or
    /// on the deepest level (where a leaf slot is expected, not an
    /// intermediate), is `MappedAlready`; otherwise the new depth is
    /// returned.
    pub fn map_page_table(&mut self, vaddr: u64, paddr: u64) -> (r: Result<usize, ResponseLabel>)
        requires
            old(self).wf(),
        ensures
            final(self).wf(),
            ({
                let v = old(self)@;
                let v2 = final(self)@;
                let wl = walk_to(v, 0, vaddr, HAL_PAGE_LEVEL as int).0;
                let found = walk_found(v, 0, vaddr, HAL_PAGE_LEVEL as int);
                let aligned = spec_is_aligned(vaddr, PAGE_SIZE) && spec_is_aligned(
                    paddr,
                    PAGE_SIZE,
                );
                &&& (!aligned ==> r == Err::<usize, ResponseLabel>(ResponseLabel::InvalidParam)
                    && v2 == v)
                &&& (aligned && found ==> r == Err::<usize, ResponseLabel>(
                    ResponseLabel::MappedAlready,
                ) && v2 == v)
                &&& (aligned && !found && wl == HAL_PAGE_LEVEL - 1 ==> r == Err::<
                    usize,
                    ResponseLabel,
                >(ResponseLabel::MappedAlready) && v2 == v)
                &&& (aligned && !found && wl < HAL_PAGE_LEVEL - 1 ==> r == Ok::<
                    usize,
                    ResponseLabel,
                >((wl + 1) as usize) && v2 == walk_update(
                    v,
                    0,
                    vaddr,
                    HAL_PAGE_LEVEL as int,
                    (EntryView::Table { paddr: phys_of(paddr), node: empty_node() }),
                ))
            }),
    {
        if !is_aligned(vaddr, PAGE_SIZE) || !is_aligned(paddr, PAGE_SIZE) {
            return Err(ResponseLabel::InvalidParam);
        }
        let phys = to_phys(paddr);
        map_page_table_rec(&mut self.page_table.page_table_impl, 0, vaddr, phys)
    }

    /// Map the frame at physical `paddr - KERNEL_OFFSET` for `vaddr` with
    /// the given permissions. Misaligned addresses are `InvalidParam`; an
    /// already-mapped address is `MappedAlready`; a walk stopping above the
    /// deepest level is `PageTableMiss` (the intermediate must be mapped
    /// first).
    pub fn map_frame(
        &mut self,
        vaddr: u64,
        paddr: u64,
        is_x: bool,
        is_w: bool,
        is_r: bool,
    ) -> (r: ResultWithErr<ResponseLabel>)
        requires
            old(self).wf(),
        ensures
            final(self).wf(),
            ({
                let v = old(self)@;
                let v2 = final(self)@;
                let wl = walk_to(v, 0, vaddr, HAL_PAGE_LEVEL as int).0;
                let found = walk_found(v, 0, vaddr, HAL_PAGE_LEVEL as int);
                let aligned = spec_is_aligned(vaddr, PAGE_SIZE) && spec_is_aligned(
                    paddr,
                    PAGE_SIZE,
                );
                &&& (!aligned ==> r == Err::<(), ResponseLabel>(ResponseLabel::InvalidParam) && v2
                    == v)
                &&& (aligned && found ==> r == Err::<(), ResponseLabel>(
                    ResponseLabel::MappedAlready,
                ) && v2 == v)
                &&& (aligned && !found && wl == HAL_PAGE_LEVEL - 1 ==> r == Ok::<
                    (),
                    ResponseLabel,
                >(()) && v2 == walk_update(
                    v,
                    0,
                    vaddr,
                    HAL_PAGE_LEVEL as int,
                    (EntryView::Frame { paddr: phys_of(paddr), is_x, is_w, is_r }),
                ))
                &&& (aligned && !found && wl < HAL_PAGE_LEVEL - 1 ==> r == Err::<
                    (),
                    ResponseLabel,
                >(ResponseLabel::PageTableMiss) && v2 == v)
            }),
    {
        if !is_aligned(vaddr, PAGE_SIZE) || !is_aligned(paddr, PAGE_SIZE) {
            return Err(ResponseLabel::InvalidParam);
        }
        let phys = to_phys(paddr);
        map_frame_rec(&mut self.page_table.page_table_impl, 0, vaddr, phys, is_x, is_w, is_r)
    }

    /// Unmap the frame mapped for `vaddr`, clearing the leaf the walk finds.
    /// A misaligned or unmapped address is `InvalidParam`.
    pub fn unmap_frame(&mut self, vaddr: u64) -> (r: ResultWithErr<ResponseLabel>)
        requires
            old(self).wf(),
        ensures
            final(self).wf(),
            ({
                let v = old(self)@;
                let v2 = final(self)@;
                let found = walk_found(v, 0, vaddr, HAL_PAGE_LEVEL as int);
                let aligned = spec_is_aligned(vaddr, PAGE_SIZE);
                &&& (!aligned ==> r == Err::<(), ResponseLabel>(ResponseLabel::InvalidParam) && v2
                    == v)
                &&& (aligned && found ==> r == Ok::<(), ResponseLabel>(()) && v2 == walk_update(
                    v,
                    0,
                    vaddr,
                    HAL_PAGE_LEVEL as int,
                    EntryView::Empty,
                ))
                &&& (aligned && !found ==> r == Err::<(), ResponseLabel>(
                    ResponseLabel::InvalidParam,
                ) && v2 == v)
            }),
    {
        if !is_aligned(vaddr, PAGE_SIZE) {
            return Err(ResponseLabel::InvalidParam);
        }
        unmap_frame_rec(&mut self.page_table.page_table_impl, 0, vaddr)
    }

    /// Remove the intermediate directory that the caller says stands at
    /// depth `level` for `vaddr` and at physical `paddr - KERNEL_OFFSET`.
    /// Both addresses must be page-aligned, else `InvalidParam`. The walk is
    /// restricted to `level - 1`; the decided slot must be an intermediate
    /// storing exactly that physical address, else `InvalidParam`. While a
    /// leaf sits on the walk's path or anywhere in the directory's subtree
    /// the call refuses with `MappedAlready`: frames must be unmapped before
    /// their directory is torn down.
    pub fn unmap_page_table(&mut self, vaddr: u64, paddr: u64, level: usize) -> (r: ResultWithErr<
        ResponseLabel,
    >)
        requires
            old(self).wf(),
            1 <= level,
        ensures
            final(self).wf(),
            ({
                let v = old(self)@;
                let v2 = final(self)@;
                let max = level - 1;
                let wl = walk_to(v, 0, vaddr, max as int).0;
                let we = walk_entry(v, 0, vaddr, max as int);
                let found = walk_found(v, 0, vaddr, max as int);
                let aligned = spec_is_aligned(vaddr, PAGE_SIZE) && spec_is_aligned(
                    paddr,
                    PAGE_SIZE,
                );
                &&& (!aligned ==> r == Err::<(), ResponseLabel>(ResponseLabel::InvalidParam) && v2
                    == v)
                &&& (aligned && found ==> r == Err::<(), ResponseLabel>(
                    ResponseLabel::MappedAlready,
                ) && v2 == v)
                &&& (aligned && !found && slot_points_to(we, phys_of(paddr))
                    && subtree_has_frame(slot_child(we), wl + 1) ==> r == Err::<
                    (),
                    ResponseLabel,
                >(ResponseLabel::MappedAlready) && v2 == v)
                &&& (aligned && !found && slot_points_to(we, phys_of(paddr))
                    && !subtree_has_frame(slot_child(we), wl + 1) ==> r == Ok::<
                    (),
                    ResponseLabel,
                >(()) && v2 == walk_update(v, 0, vaddr, max as int, EntryView::Empty))
                &&& (aligned && !found && !slot_points_to(we, phys_of(paddr)) ==> r == Err::<
                    (),
                    ResponseLabel,
                >(ResponseLabel::InvalidParam) && v2 == v)
            }),
    {
        if !is_aligned(vaddr, PAGE_SIZE) || !is_aligned(paddr, PAGE_SIZE) {
            return Err(ResponseLabel::InvalidParam);
        }
        let phys = to_phys(paddr);
        unmap_page_table_rec(&mut self.page_table.page_table_impl, 0, vaddr, phys, level - 1)
    }

    /// Map a frame for the root task, allocating any missing intermediate
    /// directories on the way down (their model physical address is recorded
    /// as 0). An address already mapped succeeds without change; misaligned
    /// addresses fail.
    pub fn map_root_task_frame(
        &mut self,
        vaddr: u64,
        paddr: u64,
        is_x: bool,
        is_w: bool,
        is_r: bool,
    ) -> (r: ResultWithErr<String>)
        requires
            old(self).wf(),
        ensures
            final(self).wf(),
            ({
                let v = old(self)@;
                let v2 = final(self)@;
                let wl = walk_to(v, 0, vaddr, HAL_PAGE_LEVEL as int).0;
                let found = walk_found(v, 0, vaddr, HAL_PAGE_LEVEL as int);
                let aligned = spec_is_aligned(vaddr, PAGE_SIZE) && spec_is_aligned(
                    paddr,
                    PAGE_SIZE,
                );
                &&& (!aligned ==> r is Err && v2 == v)
                &&& (aligned && found ==> r == Ok::<(), String>(()) && v2 == v)
                &&& (aligned && !found ==> r == Ok::<(), String>(()) && v2 == walk_update(
                    v,
                    0,
                    vaddr,
                    HAL_PAGE_LEVEL as int,
                    chain_view(wl, vaddr, phys_of(paddr), is_x, is_w, is_r),
                ))
            }),
    {
        if !is_aligned(vaddr, PAGE_SIZE) || !is_aligned(paddr, PAGE_SIZE) {
            return Err("root task frame addresses must be page-aligned".to_owned());
        }
        let phys = to_phys(paddr);
        map_root_task_frame_rec(
            &mut self.page_table.page_table_impl,
            0,
            vaddr,
            phys,
            is_x,
            is_w,
            is_r,
        );
        Ok(())
    }

    /// Borrow the held root read-only.
    pub fn table(&self) -> (r: &PageTable)
        ensures
            r == &self.page_table,
    {
        &self.page_table
    }

    /// Locate the deepest existing entry for `vaddr`, walking at most to
    /// `max_level`, and classify it.
    pub fn search(&self, vaddr: u64, max_level: usize) -> (r: SearchResult)
        requires
            self.wf(),
        ensures
            ({
                let v = self@;
                let wl = walk_to(v, 0, vaddr, max_level as int).0;
                r == if walk_found(v, 0, vaddr, max_level as int) {
                    SearchResult::Found(wl as usize)
                } else {
                    SearchResult::Missing(wl as usize)
                }
            }),
    {
        search_rec(&self.page_table.page_table_impl, 0, vaddr, max_level)
    }
}

/// Read-only walk returning the frame the walk finds, if any.
fn lookup_rec(t: &PageTableImpl, level: usize, vaddr: u64) -> (r: Option<
    (usize, u64, bool, bool, bool),
>)
    requires
        table_wf(table_view(*t, level as int), level as int),
    ensures
        ({
            let v = table_view(*t, level as int);
            let wl = walk_to(v, level as int, vaddr, HAL_PAGE_LEVEL as int).0;
            let we = walk_entry(v, level as int, vaddr, HAL_PAGE_LEVEL as int);
            &&& (walk_found(v, level as int, vaddr, HAL_PAGE_LEVEL as int) ==> (r matches Some(f)
                && f.0 == wl && we == EntryView::Frame {
                paddr: f.1,
                is_x: f.2,
                is_w: f.3,
                is_r: f.4,
            }))
            &&& (!walk_found(v, level as int, vaddr, HAL_PAGE_LEVEL as int) ==> r is None)
        }),
    decreases HAL_PAGE_LEVEL - level,
{
    let ghost v = table_view(*t, level as int);
    proof {
        assert(v.len() == t.entries@.len());
        lemma_entry_index_bounds(vaddr, level as int);
    }
    let idx = index_of(vaddr, level);
    proof {
        assert(v[idx as int] == entry_view(t.entries@[idx as int], level as int));
        assert(slot_wf(v[idx as int], level as int));
    }
    match &t.entries[idx] {
        PageTableEntryImpl::Invalid => None,
        PageTableEntryImpl::Frame { paddr, is_x, is_w, is_r } => Some(
            (level, *paddr, *is_x, *is_w, *is_r),
        ),
        PageTableEntryImpl::Table { child, .. } => lookup_rec(&**child, level + 1, vaddr),
    }
}

/// Slot-by-slot comparison of two directories standing at the same level.
fn table_eq_rec(a: &PageTableImpl, b: &PageTableImpl, level: usize) -> (r: bool)
    requires
        table_wf(table_view(*a, level as int), level as int),
        table_wf(table_view(*b, level as int), level as int),
    ensures
        r == (table_view(*a, level as int) == table_view(*b, level as int)),
    decreases HAL_PAGE_LEVEL - level,
{
    let ghost va = table_view(*a, level as int);
    let ghost vb = table_view(*b, level as int);
    proof {
        assert(va.len() == a.entries@.len());
        assert(vb.len() == b.entries@.len());
    }
    let mut i: usize = 0;
    while i < PT_ENTRY_COUNT
        invariant
            i <= PT_ENTRY_COUNT,
            va == table_view(*a, level as int),
            vb == table_view(*b, level as int),
            table_wf(va, level as int),
            table_wf(vb, level as int),
            va.len() == a.entries@.len(),
            vb.len() == b.entries@.len(),
            forall|j: int| 0 <= j < i ==> va[j] == vb[j],
        decreases PT_ENTRY_COUNT - i,
    {
        proof {
            assert(va[i as int] == entry_view(a.entries@[i as int], level as int));
            assert(vb[i as int] == entry_view(b.entries@[i as int], level as int));
            assert(slot_wf(va[i as int], level as int));
            assert(slot_wf(vb[i as int], level as int));
        }
        let same = match (&a.entries[i], &b.entries[i]) {
            (PageTableEntryImpl::Invalid, PageTableEntryImpl::Invalid) => true,
            (
                PageTableEntryImpl::Frame { paddr: pa, is_x: xa, is_w: wa, is_r: ra },
                PageTableEntryImpl::Frame { paddr: pb, is_x: xb, is_w: wb, is_r: rb },
            ) => *pa == *pb && *xa == *xb && *wa == *wb && *ra == *rb,
            (
                PageTableEntryImpl::Table { paddr: pa, child: ca },
                PageTableEntryImpl::Table { paddr: pb, child: cb },
            ) => *pa == *pb && table_eq_rec(&**ca, &**cb, level + 1),
            _ => false,
        };
        if !same {
            proof {
                assert(va[i as int] != vb[i as int]);
            }
            return false;
        }
        proof {
            assert(va[i as int] == vb[i as int]);
        }
        i = i + 1;
    }
    proof {
        assert(va =~= vb);
    }
    true
}

impl PageTable {
    /// The frame mapped for `vaddr`, if any: the level of its leaf, the
    /// stored physical address and the permission bits.
    pub fn lookup_frame(&self, vaddr: u64) -> (r: Option<(usize, u64, bool, bool, bool)>)
        requires
            self.wf(),
        ensures
            ({
                let v = self@;
                let wl = walk_to(v, 0, vaddr, HAL_PAGE_LEVEL as int).0;
                let we = walk_entry(v, 0, vaddr, HAL_PAGE_LEVEL as int);
                &&& (walk_found(v, 0, vaddr, HAL_PAGE_LEVEL as int) ==> (r matches Some(f) && f.0
                    == wl && we == EntryView::Frame {
                    paddr: f.1,
                    is_x: f.2,
                    is_w: f.3,
                    is_r: f.4,
                }))
                &&& (!walk_found(v, 0, vaddr, HAL_PAGE_LEVEL as int) ==> r is None)
            }),
    {
        lookup_rec(&self.page_table_impl, 0, vaddr)
    }

    /// Whether two trees are identical, slot for slot, all the way down.
    pub fn equals(&self, other: &PageTable) -> (r: bool)
        requires
            self.wf(),
            other.wf(),
        ensures
            r == (self@ == other@),
    {
        table_eq_rec(&self.page_table_impl, &other.page_table_impl, 0)
    }
}

/// Upper bound on `memory_end` for the kernel window. The level-0 directory
/// has 256 slots above the window's first index, but the builder's cursor
/// advances one stride past the last leaf it installs, and after a 256th
/// stride that cursor would sit exactly at the top of the address space and
/// overflow the machine word: the window is capped at 255 strides.
pub const KERNEL_WINDOW_LIMIT: u64 = 0xffff_ffff_c000_0000;

/// The view of a root directory holding exactly the kernel window for
/// physical memory up to `memory_end - KERNEL_OFFSET`: one all-permission
/// level-0 leaf per slot-sized stride, mapping each kernel-linear stride to
/// its physical base, and every other slot of the tree empty.
pub open spec fn kernel_window_view(memory_end: u64) -> Seq<EntryView> {
    Seq::new(
        PT_ENTRY_COUNT as nat,
        |i: int|
            if 256 <= i && (i - 256) * size_at(0) < memory_end - KERNEL_OFFSET {
                EntryView::Frame {
                    paddr: ((i - 256) * size_at(0)) as u64,
                    is_x: true,
                    is_w: true,
                    is_r: true,
                }
            } else {
                EntryView::Empty
            },
    )
}

/// The window after the first `k` strides have been installed.
spec fn kernel_window_partial(k: int) -> Seq<EntryView> {
    Seq::new(
        PT_ENTRY_COUNT as nat,
        |i: int|
            if 256 <= i < 256 + k {
                EntryView::Frame {
                    paddr: ((i - 256) * size_at(0)) as u64,
                    is_x: true,
                    is_w: true,
                    is_r: true,
                }
            } else {
                EntryView::Empty
            },
    )
}

/// The slot the kernel window's stride `k` lands in is slot `256 + k` of the
/// root directory.
proof fn lemma_kernel_index(start: u64, k: u64)
    requires
        k < 256,
        start == KERNEL_OFFSET + k * 0x4000_0000,
    ensures
        entry_index(start, 0) == 256 + k,
{
    assert((start >> 30) & 0x1ff == 0x100 + k) by (bit_vector)
        requires
            k < 256,
            start == 0xffff_ffc0_0000_0000u64 + k * 0x4000_0000,
    ;
}

/// Build the kernel window: construct a fresh root locally, walk the
/// kernel-linear range upward in level-0 strides, install one kernel leaf
/// per stride, and move the finished directory into `*kernel_page_table`.
pub fn map_kernel_window(kernel_page_table: &mut PageTable, memory_end: u64) -> (r: ResultWithErr<
    String,
>)
    requires
        KERNEL_OFFSET <= memory_end <= KERNEL_WINDOW_LIMIT,
    ensures
        r == Ok::<(), String>(()),
        final(kernel_page_table)@ == kernel_window_view(memory_end),
        final(kernel_page_table).wf(),
{
    let local_kernel_page_table = PageTable::new();
    let mut wrapper = MutPageTableWrapper::new(local_kernel_page_table);
    proof {
        assert(wrapper@ =~= kernel_window_partial(0));
    }
    let mut start: u64 = KERNEL_OFFSET;
    let ghost mut k: int = 0;
    while start < memory_end
        invariant
            KERNEL_OFFSET <= memory_end <= KERNEL_WINDOW_LIMIT,
            0 <= k <= 255,
            start == KERNEL_OFFSET + k * 0x4000_0000,
            k == 0 || KERNEL_OFFSET + (k - 1) * 0x4000_0000 < memory_end,
            wrapper.wf(),
            wrapper@ == kernel_window_partial(k),
        decreases 256 - k,
    {
        proof {
            assert(k < 255);
            assert(start as int % 0x4000_0000 == 0) by (nonlinear_arith)
                requires
                    start == 0xffff_ffc0_0000_0000 + k * 0x4000_0000,
                    0 <= k,
            ;
        }
        let r = wrapper.map_kernel(start, start);
        let sz = match r {
            Ok(s) => s,
            Err(e) => {
                proof {
                    assert(false);
                }
                return Err(e);
            },
        };
        proof {
            lemma_kernel_index(start, k as u64);
            assert(phys_of(start) == (k * 0x4000_0000) as u64);
            assert(wrapper@ =~= kernel_window_partial(k + 1));
            k = k + 1;
        }
        start = start + sz;
    }
    proof {
        let d = memory_end - KERNEL_OFFSET;
        assert(k * 0x4000_0000 >= d);
        assert forall|i: int| 0 <= i < PT_ENTRY_COUNT implies kernel_window_partial(k)[i]
            == kernel_window_view(memory_end)[i] by {
            if 256 <= i {
                if i < 256 + k {
                    assert((i - 256) * 0x4000_0000 < d);
                } else {
                    assert((i - 256) * 0x4000_0000 >= d) by (nonlinear_arith)
                        requires
                            i - 256 >= k,
                            k * 0x4000_0000 >= d,
                            0 <= k,
                    ;
                }
            }
        }
        assert(kernel_window_partial(k) =~= kernel_window_view(memory_end));
    }
    *kernel_page_table = wrapper.into_inner();
    Ok(())
}

/// Law (kernel window coverage): in the built window, every physical address
/// `p` below `memory_end - KERNEL_OFFSET` aligned to the level-0 size has a
/// level-0 leaf at kernel-linear `KERNEL_OFFSET + p` mapping exactly `p`
/// with full permissions.
pub proof fn lemma_kernel_window_coverage(memory_end: u64, p: u64)
    requires
        KERNEL_OFFSET <= memory_end <= KERNEL_WINDOW_LIMIT,
        p < memory_end - KERNEL_OFFSET,
        spec_is_aligned(p, 0x4000_0000),
    ensures
        ({
            let v = kernel_window_view(memory_end);
            let va = (KERNEL_OFFSET + p) as u64;
            &&& v[entry_index(va, 0)] == (EntryView::Frame {
                paddr: p,
                is_x: true,
                is_w: true,
                is_r: true,
            })
            &&& walk_to(v, 0, va, HAL_PAGE_LEVEL as int).0 == 0
            &&& walk_found(v, 0, va, HAL_PAGE_LEVEL as int)
        }),
{
    let k = p as int / 0x4000_0000;
    assert(p == k * 0x4000_0000) by (nonlinear_arith)
        requires
            p as int % 0x4000_0000 == 0,
            k == p as int / 0x4000_0000,
    ;
    assert(k < 256);
    lemma_kernel_index((KERNEL_OFFSET + p) as u64, k as u64);
    let v = kernel_window_view(memory_end);
    let va = (KERNEL_OFFSET + p) as u64;
    assert(v[entry_index(va, 0)] == (EntryView::Frame {
        paddr: p,
        is_x: true,
        is_w: true,
        is_r: true,
    }));
}

} // verus!
