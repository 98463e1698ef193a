//! Mathematical model of a page-table tree.
//!
//! A directory is viewed as a `Seq<EntryView>` of length 512; an intermediate
//! entry carries the view of its child directory. [`walk_to`] is the walk
//! primitive every operation is specified against: it descends from a node,
//! choosing the child index the virtual address selects at each level, and
//! stops at the deepest node whose slot decides the outcome. [`walk_update`]
//! is the matching mutation: it replaces exactly that decided slot and leaves
//! every other slot of the tree unchanged.

use vstd::prelude::*;

use crate::common::spec_is_aligned;
use crate::hal::{entry_index, HAL_PAGE_LEVEL, PAGE_SIZE, PT_ENTRY_COUNT};

verus! {

/// View of one slot: unused, an intermediate directory (with the physical
/// address stored in the hardware entry and the child's own view), or a
/// mapped frame with its permission bits.
#[verifier::ext_equal]
pub ghost enum EntryView {
    Empty,
    Table { paddr: u64, node: Seq<EntryView> },
    Frame { paddr: u64, is_x: bool, is_w: bool, is_r: bool },
}

/// The view of a zero-initialised directory.
pub open spec fn empty_node() -> Seq<EntryView> {
    Seq::new(PT_ENTRY_COUNT as nat, |i: int| EntryView::Empty)
}

/// What a single entry standing in a slot at `level` must satisfy for the
/// tree to be well-formed: an intermediate appears only above the deepest
/// level, stores a page-aligned physical address, and owns a well-formed
/// directory in turn.
pub open spec fn slot_wf(e: EntryView, level: int) -> bool
    decreases HAL_PAGE_LEVEL - level, 0int,
{
    match e {
        EntryView::Table { paddr, node: child } => {
            &&& level < HAL_PAGE_LEVEL - 1
            &&& spec_is_aligned(paddr, PAGE_SIZE)
            &&& table_wf(child, level + 1)
        },
        _ => true,
    }
}

/// Well-formedness of a directory standing at `level`: the level is inside
/// the tree, the directory has 512 slots, and every slot is well-formed.
pub open spec fn table_wf(node: Seq<EntryView>, level: int) -> bool
    decreases HAL_PAGE_LEVEL - level, 1int,
{
    &&& 0 <= level < HAL_PAGE_LEVEL
    &&& node.len() == PT_ENTRY_COUNT
    &&& forall|i: int| 0 <= i < node.len() ==> slot_wf(#[trigger] node[i], level)
}

/// The walk primitive: descend from `node` at `level`, following the child
/// index `vaddr` selects, until the level bound is reached or the selected
/// slot is not an intermediate. Returns the stopping level together with the
/// node whose slot decided the outcome.
pub open spec fn walk_to(
    node: Seq<EntryView>,
    level: int,
    vaddr: u64,
    max_level: int,
) -> (int, Seq<EntryView>)
    decreases max_level - level,
{
    if level >= max_level {
        (level, node)
    } else {
        match node[entry_index(vaddr, level)] {
            EntryView::Table { node: child, .. } => walk_to(child, level + 1, vaddr, max_level),
            _ => (level, node),
        }
    }
}

/// The entry in the slot that decided the walk.
pub open spec fn walk_entry(node: Seq<EntryView>, level: int, vaddr: u64, max_level: int) -> EntryView {
    let (wl, wn) = walk_to(node, level, vaddr, max_level);
    wn[entry_index(vaddr, wl)]
}

/// Whether the walk hit a mapped frame below the level bound: `vaddr` is
/// already mapped at the stopping level.
pub open spec fn walk_found(node: Seq<EntryView>, level: int, vaddr: u64, max_level: int) -> bool {
    let (wl, wn) = walk_to(node, level, vaddr, max_level);
    wl < max_level && wn[entry_index(vaddr, wl)] is Frame
}

/// Replace the slot that decides the walk for `vaddr` with `e`, leaving every
/// other slot of the tree unchanged.
pub open spec fn walk_update(
    node: Seq<EntryView>,
    level: int,
    vaddr: u64,
    max_level: int,
    e: EntryView,
) -> Seq<EntryView>
    decreases max_level - level,
{
    if level >= max_level {
        node.update(entry_index(vaddr, level), e)
    } else {
        let i = entry_index(vaddr, level);
        match node[i] {
            EntryView::Table { paddr, node: child } => node.update(
                i,
                (EntryView::Table {
                    paddr,
                    node: walk_update(child, level + 1, vaddr, max_level, e),
                }),
            ),
            _ => node.update(i, e),
        }
    }
}

/// Whether this single slot maps a frame, directly or anywhere below.
pub open spec fn slot_has_frame(e: EntryView, level: int) -> bool
    decreases HAL_PAGE_LEVEL - level, 0int,
{
    match e {
        EntryView::Frame { .. } => true,
        EntryView::Table { node: child, .. } => {
            level + 1 < HAL_PAGE_LEVEL && subtree_has_frame(child, level + 1)
        },
        EntryView::Empty => false,
    }
}

/// Whether a mapped frame exists anywhere in the subtree rooted at `node`
/// (which stands at `level`).
pub open spec fn subtree_has_frame(node: Seq<EntryView>, level: int) -> bool
    decreases HAL_PAGE_LEVEL - level, 1int,
{
    exists|i: int| 0 <= i < node.len() && slot_has_frame(#[trigger] node[i], level)
}

/// Whether `e` is an intermediate entry whose stored physical address is
/// exactly `phys` — the test a page-table teardown applies to the decided
/// slot.
pub open spec fn slot_points_to(e: EntryView, phys: u64) -> bool {
    e matches EntryView::Table { paddr, .. } && paddr == phys
}

/// The child directory of an intermediate entry (empty for the others).
pub open spec fn slot_child(e: EntryView) -> Seq<EntryView> {
    match e {
        EntryView::Table { node, .. } => node,
        _ => Seq::empty(),
    }
}

/// A zero-initialised directory is well-formed at every level of the tree.
pub proof fn lemma_empty_wf(level: int)
    requires
        0 <= level < HAL_PAGE_LEVEL,
    ensures
        table_wf(empty_node(), level),
{
}

/// The freshly built chain installed by the auto-populating map is a
/// well-formed slot for the level it is installed at.
pub proof fn lemma_chain_wf(level: int, vaddr: u64, phys: u64, is_x: bool, is_w: bool, is_r: bool)
    requires
        0 <= level < HAL_PAGE_LEVEL,
    ensures
        slot_wf(chain_view(level, vaddr, phys, is_x, is_w, is_r), level),
    decreases HAL_PAGE_LEVEL - level,
{
    if level < HAL_PAGE_LEVEL - 1 {
        lemma_chain_wf(level + 1, vaddr, phys, is_x, is_w, is_r);
        lemma_empty_wf(level + 1);
        crate::hal::lemma_entry_index_bounds(vaddr, level + 1);
        lemma_update_wf(
            empty_node(),
            level + 1,
            entry_index(vaddr, level + 1),
            chain_view(level + 1, vaddr, phys, is_x, is_w, is_r),
        );
    }
}

/// Replacing one well-formed slot of a well-formed directory keeps the
/// directory well-formed.
pub proof fn lemma_update_wf(node: Seq<EntryView>, level: int, i: int, e: EntryView)
    requires
        table_wf(node, level),
        0 <= i < node.len(),
        slot_wf(e, level),
    ensures
        table_wf(node.update(i, e), level),
{
    let n2 = node.update(i, e);
    assert forall|j: int| 0 <= j < n2.len() implies slot_wf(#[trigger] n2[j], level) by {
        if j != i {
            assert(n2[j] == node[j]);
            assert(slot_wf(node[j], level));
        }
    }
}

/// Law (depth bound): the walk's stopping level lies between the starting
/// level and the bound and always stays inside the tree — in particular a
/// walk that finds a mapped frame stops strictly below the tree depth.
/// Moreover the decided node is well-formed at the stopping level, and a
/// stop below the bound never stops on an intermediate slot.
pub proof fn lemma_walk_props(node: Seq<EntryView>, level: int, vaddr: u64, max_level: int)
    requires
        table_wf(node, level),
        level <= max_level,
    ensures
        ({
            let (wl, wn) = walk_to(node, level, vaddr, max_level);
            &&& level <= wl <= max_level
            &&& wl < HAL_PAGE_LEVEL
            &&& table_wf(wn, wl)
            &&& (wl < max_level ==> !(wn[entry_index(vaddr, wl)] is Table))
        }),
    decreases max_level - level,
{
    crate::hal::lemma_entry_index_bounds(vaddr, level);
    let i = entry_index(vaddr, level);
    if level < max_level {
        match node[i] {
            EntryView::Table { paddr, node: child } => {
                assert(slot_wf(node[i], level));
                lemma_walk_props(child, level + 1, vaddr, max_level);
            },
            _ => {},
        }
    }
}

/// Writing a non-intermediate entry into the decided slot does not change
/// where the walk decides: the updated tree decides at the same level, its
/// decided entry is the written one, and it counts as mapped exactly when a
/// frame was written below the bound.
pub proof fn lemma_walk_update_walk(
    node: Seq<EntryView>,
    level: int,
    vaddr: u64,
    max_level: int,
    e: EntryView,
)
    requires
        table_wf(node, level),
        level <= max_level,
        !(e is Table),
    ensures
        ({
            let wl = walk_to(node, level, vaddr, max_level).0;
            let v1 = walk_update(node, level, vaddr, max_level, e);
            &&& walk_to(v1, level, vaddr, max_level).0 == wl
            &&& walk_entry(v1, level, vaddr, max_level) == e
            &&& walk_found(v1, level, vaddr, max_level) == (wl < max_level && e is Frame)
        }),
    decreases max_level - level,
{
    crate::hal::lemma_entry_index_bounds(vaddr, level);
    let i = entry_index(vaddr, level);
    if level < max_level {
        match node[i] {
            EntryView::Table { paddr, node: child } => {
                assert(slot_wf(node[i], level));
                lemma_walk_update_walk(child, level + 1, vaddr, max_level, e);
                let v1 = walk_update(node, level, vaddr, max_level, e);
                assert(v1[i] == (EntryView::Table {
                    paddr,
                    node: walk_update(child, level + 1, vaddr, max_level, e),
                }));
            },
            _ => {
                let v1 = walk_update(node, level, vaddr, max_level, e);
                assert(v1[i] == e);
            },
        }
    } else {
        let v1 = walk_update(node, level, vaddr, max_level, e);
        assert(v1[i] == e);
    }
}

/// Writing a non-intermediate entry into the decided slot and then writing
/// back the entry that stood there restores the tree exactly.
pub proof fn lemma_walk_update_restore(
    node: Seq<EntryView>,
    level: int,
    vaddr: u64,
    max_level: int,
    e: EntryView,
)
    requires
        table_wf(node, level),
        level <= max_level,
        !(e is Table),
    ensures
        walk_update(
            walk_update(node, level, vaddr, max_level, e),
            level,
            vaddr,
            max_level,
            walk_entry(node, level, vaddr, max_level),
        ) == node,
    decreases max_level - level,
{
    crate::hal::lemma_entry_index_bounds(vaddr, level);
    let i = entry_index(vaddr, level);
    let we = walk_entry(node, level, vaddr, max_level);
    let v1 = walk_update(node, level, vaddr, max_level, e);
    if level < max_level {
        match node[i] {
            EntryView::Table { paddr, node: child } => {
                assert(slot_wf(node[i], level));
                lemma_walk_update_restore(child, level + 1, vaddr, max_level, e);
                let c1 = walk_update(child, level + 1, vaddr, max_level, e);
                assert(v1[i] == (EntryView::Table { paddr, node: c1 }));
                assert(we == walk_entry(child, level + 1, vaddr, max_level));
                let v2 = walk_update(v1, level, vaddr, max_level, we);
                assert(v2 == v1.update(
                    i,
                    (EntryView::Table {
                        paddr,
                        node: walk_update(c1, level + 1, vaddr, max_level, we),
                    }),
                ));
                assert(walk_update(c1, level + 1, vaddr, max_level, we) == child);
                assert(v2 =~= node);
            },
            _ => {
                assert(v1[i] == e);
                assert(walk_update(v1, level, vaddr, max_level, we) =~= node);
            },
        }
    } else {
        assert(v1[i] == e);
        assert(walk_update(v1, level, vaddr, max_level, we) =~= node);
    }
}

/// Law (roundtrip): on a tree where the walk for `vaddr` ends on a free slot
/// at the deepest level — exactly the case in which a leaf map succeeds —
/// writing the frame and then clearing the slot the walk then finds leaves
/// the tree exactly as it was.
pub proof fn lemma_map_unmap_roundtrip(
    v: Seq<EntryView>,
    vaddr: u64,
    phys: u64,
    is_x: bool,
    is_w: bool,
    is_r: bool,
)
    requires
        table_wf(v, 0),
        !walk_found(v, 0, vaddr, HAL_PAGE_LEVEL as int),
        walk_to(v, 0, vaddr, HAL_PAGE_LEVEL as int).0 == HAL_PAGE_LEVEL - 1,
    ensures
        ({
            let f = EntryView::Frame { paddr: phys, is_x, is_w, is_r };
            let v1 = walk_update(v, 0, vaddr, HAL_PAGE_LEVEL as int, f);
            &&& walk_found(v1, 0, vaddr, HAL_PAGE_LEVEL as int)
            &&& walk_update(v1, 0, vaddr, HAL_PAGE_LEVEL as int, EntryView::Empty) == v
        }),
{
    let f = EntryView::Frame { paddr: phys, is_x, is_w, is_r };
    lemma_walk_props(v, 0, vaddr, HAL_PAGE_LEVEL as int);
    lemma_walk_update_walk(v, 0, vaddr, HAL_PAGE_LEVEL as int, f);
    lemma_walk_update_restore(v, 0, vaddr, HAL_PAGE_LEVEL as int, f);
    assert(walk_entry(v, 0, vaddr, HAL_PAGE_LEVEL as int) is Empty);
}

/// Law (idempotent failure): after a successful leaf map for `vaddr` the
/// walk finds the frame, so a second identical map reports the slot as
/// already mapped and leaves the tree untouched.
pub proof fn lemma_map_frame_idempotent_failure(
    v: Seq<EntryView>,
    vaddr: u64,
    phys: u64,
    is_x: bool,
    is_w: bool,
    is_r: bool,
)
    requires
        table_wf(v, 0),
        !walk_found(v, 0, vaddr, HAL_PAGE_LEVEL as int),
        walk_to(v, 0, vaddr, HAL_PAGE_LEVEL as int).0 == HAL_PAGE_LEVEL - 1,
    ensures
        walk_found(
            walk_update(
                v,
                0,
                vaddr,
                HAL_PAGE_LEVEL as int,
                (EntryView::Frame { paddr: phys, is_x, is_w, is_r }),
            ),
            0,
            vaddr,
            HAL_PAGE_LEVEL as int,
        ),
{
    lemma_walk_update_walk(
        v,
        0,
        vaddr,
        HAL_PAGE_LEVEL as int,
        (EntryView::Frame { paddr: phys, is_x, is_w, is_r }),
    );
}


/// Walking into a freshly installed chain always ends on its frame: the
/// decided slot of the updated directory holds the chain, and every level of
/// the chain routes the walk one level deeper until the leaf.
proof fn lemma_chain_walk(
    node: Seq<EntryView>,
    level: int,
    vaddr: u64,
    phys: u64,
    is_x: bool,
    is_w: bool,
    is_r: bool,
)
    requires
        0 <= level < HAL_PAGE_LEVEL,
        node.len() == PT_ENTRY_COUNT,
    ensures
        ({
            let n2 = node.update(
                entry_index(vaddr, level),
                chain_view(level, vaddr, phys, is_x, is_w, is_r),
            );
            &&& walk_to(n2, level, vaddr, HAL_PAGE_LEVEL as int).0 == HAL_PAGE_LEVEL - 1
            &&& walk_entry(n2, level, vaddr, HAL_PAGE_LEVEL as int) == (EntryView::Frame {
                paddr: phys,
                is_x,
                is_w,
                is_r,
            })
            &&& walk_found(n2, level, vaddr, HAL_PAGE_LEVEL as int)
        }),
    decreases HAL_PAGE_LEVEL - level,
{
    crate::hal::lemma_entry_index_bounds(vaddr, level);
    let i = entry_index(vaddr, level);
    let n2 = node.update(i, chain_view(level, vaddr, phys, is_x, is_w, is_r));
    if level < HAL_PAGE_LEVEL - 1 {
        crate::hal::lemma_entry_index_bounds(vaddr, level + 1);
        lemma_chain_walk(empty_node(), level + 1, vaddr, phys, is_x, is_w, is_r);
        assert(n2[i] == chain_view(level, vaddr, phys, is_x, is_w, is_r));
    } else {
        assert(n2[i] == (EntryView::Frame { paddr: phys, is_x, is_w, is_r }));
    }
}

/// Law (auto-populate): when the walk for `vaddr` ends on a free slot — the
/// case in which the auto-populating root-task map installs its chain of
/// directories — the updated tree maps `vaddr` by a leaf at the deepest
/// level holding exactly the requested frame, so a subsequent leaf map for
/// the same address reports it as already mapped.
pub proof fn lemma_auto_populate_found(
    v: Seq<EntryView>,
    level: int,
    vaddr: u64,
    phys: u64,
    is_x: bool,
    is_w: bool,
    is_r: bool,
)
    requires
        table_wf(v, level),
        !walk_found(v, level, vaddr, HAL_PAGE_LEVEL as int),
    ensures
        ({
            let wl = walk_to(v, level, vaddr, HAL_PAGE_LEVEL as int).0;
            let v2 = walk_update(
                v,
                level,
                vaddr,
                HAL_PAGE_LEVEL as int,
                chain_view(wl, vaddr, phys, is_x, is_w, is_r),
            );
            &&& walk_to(v2, level, vaddr, HAL_PAGE_LEVEL as int).0 == HAL_PAGE_LEVEL - 1
            &&& walk_entry(v2, level, vaddr, HAL_PAGE_LEVEL as int) == (EntryView::Frame {
                paddr: phys,
                is_x,
                is_w,
                is_r,
            })
            &&& walk_found(v2, level, vaddr, HAL_PAGE_LEVEL as int)
        }),
    decreases HAL_PAGE_LEVEL - level,
{
    crate::hal::lemma_entry_index_bounds(vaddr, level);
    let i = entry_index(vaddr, level);
    match v[i] {
        EntryView::Table { paddr, node: child } => {
            assert(slot_wf(v[i], level));
            lemma_auto_populate_found(child, level + 1, vaddr, phys, is_x, is_w, is_r);
            let wl = walk_to(v, level, vaddr, HAL_PAGE_LEVEL as int).0;
            let v2 = walk_update(
                v,
                level,
                vaddr,
                HAL_PAGE_LEVEL as int,
                chain_view(wl, vaddr, phys, is_x, is_w, is_r),
            );
            assert(v2[i] == (EntryView::Table {
                paddr,
                node: walk_update(
                    child,
                    level + 1,
                    vaddr,
                    HAL_PAGE_LEVEL as int,
                    chain_view(wl, vaddr, phys, is_x, is_w, is_r),
                ),
            }));
        },
        _ => {
            lemma_chain_walk(v, level, vaddr, phys, is_x, is_w, is_r);
        },
    }
}

/// The chain of freshly allocated intermediate directories (physical address
/// recorded as 0 in this model) ending in the requested frame, as the
/// auto-populating root-task map installs it below the decided slot at
/// `level`.
pub open spec fn chain_view(
    level: int,
    vaddr: u64,
    phys: u64,
    is_x: bool,
    is_w: bool,
    is_r: bool,
) -> EntryView
    decreases HAL_PAGE_LEVEL - level,
{
    if level >= HAL_PAGE_LEVEL - 1 {
        EntryView::Frame { paddr: phys, is_x, is_w, is_r }
    } else {
        EntryView::Table {
            paddr: 0,
            node: empty_node().update(
                entry_index(vaddr, level + 1),
                chain_view(level + 1, vaddr, phys, is_x, is_w, is_r),
            ),
        }
    }
}

} // verus!
