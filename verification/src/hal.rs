//! Model of the hardware-defined MMU directory layout.
//!
//! The target MMU is a three-level radix tree (`HAL_PAGE_LEVEL == 3`) of
//! page-sized directories with 512 slots each: level 0 slots span 1 GiB,
//! level 1 slots 2 MiB, level 2 slots 4 KiB. Kernel-linear virtual addresses
//! are physical addresses shifted up by [`KERNEL_OFFSET`]. Addresses are
//! 64-bit machine words.
//!
//! A hardware entry stores a physical address plus valid/leaf/permission
//! bits. Here an intermediate entry also owns the next-level directory it
//! points to: the tree is a value, and [`entry_view`]/[`table_view`] give its
//! mathematical view as nested sequences of [`EntryView`].

use vstd::prelude::*;

use crate::common::spec_is_aligned;
use crate::model::EntryView;

verus! {

/// Depth of the MMU radix tree.
pub const HAL_PAGE_LEVEL: usize = 3;

/// Added to a physical address to obtain its kernel-linear virtual address.
pub const KERNEL_OFFSET: u64 = 0xffff_ffc0_0000_0000;

/// Size of one hardware page, and the alignment of every directory.
pub const PAGE_SIZE: u64 = 4096;

/// Number of slots in one directory.
pub const PT_ENTRY_COUNT: usize = 512;

/// The MMU consumes only the low 39 bits of a virtual address.
pub const VADDR_MASK: u64 = 0x7f_ffff_ffff;

/// Directory index chosen by `vaddr` at `level`: bits 38..30 at level 0,
/// 29..21 at level 1, 20..12 at level 2.
pub open spec fn entry_index(vaddr: u64, level: int) -> int {
    if level == 0 {
        ((vaddr >> 30) & 0x1ff) as int
    } else if level == 1 {
        ((vaddr >> 21) & 0x1ff) as int
    } else {
        ((vaddr >> 12) & 0x1ff) as int
    }
}

/// Bytes spanned by one slot at `level`.
pub open spec fn size_at(level: int) -> int {
    if level == 0 {
        0x4000_0000
    } else if level == 1 {
        0x20_0000
    } else {
        0x1000
    }
}

/// The physical address written into an entry for the kernel-linear virtual
/// address `vaddr`: subtraction of [`KERNEL_OFFSET`] modulo the address width,
/// exactly as the two's-complement hardware register holds it.
pub open spec fn phys_of(vaddr: u64) -> u64 {
    if vaddr >= KERNEL_OFFSET {
        (vaddr - KERNEL_OFFSET) as u64
    } else {
        (vaddr - KERNEL_OFFSET + 0x1_0000_0000_0000_0000) as u64
    }
}

/// One MMU slot. `Invalid` is the all-clear sentinel; a `Table` entry points
/// to (and, in this model, owns) the next-level directory; a `Frame` entry
/// maps a physical frame with its permission bits.
pub enum PageTableEntryImpl {
    Invalid,
    Table { paddr: u64, child: Box<PageTableImpl> },
    Frame { paddr: u64, is_x: bool, is_w: bool, is_r: bool },
}

/// One directory: a page-sized array of 512 slots.
pub struct PageTableImpl {
    pub entries: Vec<PageTableEntryImpl>,
}

/// View of one slot as a mathematical entry; an intermediate slot carries the
/// view of the directory it owns. Levels at or below the deepest are viewed
/// as childless, which a well-formed tree never exercises.
pub open spec fn entry_view(e: PageTableEntryImpl, level: int) -> EntryView
    decreases HAL_PAGE_LEVEL - level, 0int,
{
    match e {
        PageTableEntryImpl::Invalid => EntryView::Empty,
        PageTableEntryImpl::Frame { paddr, is_x, is_w, is_r } => EntryView::Frame {
            paddr,
            is_x,
            is_w,
            is_r,
        },
        PageTableEntryImpl::Table { paddr, child } => EntryView::Table {
            paddr,
            node: if level + 1 < HAL_PAGE_LEVEL {
                table_view(*child, level + 1)
            } else {
                Seq::empty()
            },
        },
    }
}

/// View of a whole directory at `level` as the sequence of its slot views.
pub open spec fn table_view(t: PageTableImpl, level: int) -> Seq<EntryView>
    decreases HAL_PAGE_LEVEL - level, 1int,
{
    Seq::new(t.entries@.len(), |i: int| entry_view(t.entries@[i], level))
}

impl PageTableEntryImpl {
    /// Whether the slot is populated at all.
    pub fn valid(&self) -> (r: bool)
        ensures
            r == !(self is Invalid),
    {
        !matches!(self, PageTableEntryImpl::Invalid)
    }

    /// Whether the slot maps a frame directly (no child directory).
    pub fn is_leaf(&self) -> (r: bool)
        ensures
            r == (self is Frame),
    {
        matches!(self, PageTableEntryImpl::Frame { .. })
    }
}

impl Default for PageTableEntryImpl {
    /// The invalid-entry sentinel used to clear a slot.
    fn default() -> (r: Self)
        ensures
            r == PageTableEntryImpl::Invalid,
    {
        PageTableEntryImpl::Invalid
    }
}

impl PageTableImpl {
    /// A zero-initialised directory: 512 invalid slots.
    pub fn new() -> (r: Self)
        ensures
            r.entries@.len() == PT_ENTRY_COUNT,
            forall|i: int|
                0 <= i < PT_ENTRY_COUNT ==> r.entries@[i] == PageTableEntryImpl::Invalid,
    {
        let mut entries: Vec<PageTableEntryImpl> = Vec::new();
        let mut i: usize = 0;
        while i < PT_ENTRY_COUNT
            invariant
                i <= PT_ENTRY_COUNT,
                entries@.len() == i,
                forall|j: int| 0 <= j < i ==> entries@[j] == PageTableEntryImpl::Invalid,
            decreases PT_ENTRY_COUNT - i,
        {
            entries.push(PageTableEntryImpl::Invalid);
            i = i + 1;
        }
        PageTableImpl { entries }
    }

    /// Index extraction per level, as the MMU defines it. `None` exactly when
    /// `level` is outside the tree.
    pub fn get_index(vaddr: u64, level: usize) -> (r: Option<usize>)
        ensures
            level < HAL_PAGE_LEVEL ==> r == Some(entry_index(vaddr, level as int) as usize),
            level >= HAL_PAGE_LEVEL ==> r is None,
    {
        if level < HAL_PAGE_LEVEL {
            Some(index_of(vaddr, level))
        } else {
            None
        }
    }

    /// Bytes spanned by one slot at `level`. `None` exactly when `level` is
    /// outside the tree.
    pub fn get_size(level: usize) -> (r: Option<u64>)
        ensures
            level < HAL_PAGE_LEVEL ==> r == Some(size_at(level as int) as u64),
            level >= HAL_PAGE_LEVEL ==> r is None,
    {
        if level == 0 {
            Some(0x4000_0000)
        } else if level == 1 {
            Some(0x20_0000)
        } else if level == 2 {
            Some(0x1000)
        } else {
            None
        }
    }

    /// Write a kernel leaf (all permissions) into the slot `vaddr` selects at
    /// `level`. `paddr` is the already offset-corrected physical address.
    pub fn map_frame_for_kernel(&mut self, vaddr: u64, paddr: u64, level: usize)
        requires
            level < HAL_PAGE_LEVEL,
            old(self).entries@.len() == PT_ENTRY_COUNT,
        ensures
            final(self).entries@ == old(self).entries@.update(
                entry_index(vaddr, level as int),
                (PageTableEntryImpl::Frame { paddr, is_x: true, is_w: true, is_r: true }),
            ),
    {
        let i = index_of(vaddr, level);
        self.entries[i] = PageTableEntryImpl::Frame { paddr, is_x: true, is_w: true, is_r: true };
    }

    /// Write a user leaf with explicit permission bits into the slot `vaddr`
    /// selects at `level`. `paddr` is the already offset-corrected physical
    /// address.
    pub fn map_frame_for_user(
        &mut self,
        vaddr: u64,
        paddr: u64,
        level: usize,
        is_x: bool,
        is_w: bool,
        is_r: bool,
    )
        requires
            level < HAL_PAGE_LEVEL,
            old(self).entries@.len() == PT_ENTRY_COUNT,
        ensures
            final(self).entries@ == old(self).entries@.update(
                entry_index(vaddr, level as int),
                (PageTableEntryImpl::Frame { paddr, is_x, is_w, is_r }),
            ),
    {
        let i = index_of(vaddr, level);
        self.entries[i] = PageTableEntryImpl::Frame { paddr, is_x, is_w, is_r };
    }

    /// Install `child` as the next-level directory in the slot `vaddr`
    /// selects at `level`. `paddr` is the already offset-corrected physical
    /// address of the directory.
    pub fn map_page_table(
        &mut self,
        vaddr: u64,
        paddr: u64,
        level: usize,
        child: Box<PageTableImpl>,
    )
        requires
            level < HAL_PAGE_LEVEL,
            old(self).entries@.len() == PT_ENTRY_COUNT,
        ensures
            final(self).entries@ == old(self).entries@.update(
                entry_index(vaddr, level as int),
                (PageTableEntryImpl::Table { paddr, child }),
            ),
    {
        let i = index_of(vaddr, level);
        self.entries[i] = PageTableEntryImpl::Table { paddr, child };
    }

    /// Clear the slot `vaddr` selects at `level` back to the invalid sentinel.
    pub fn unmap_frame(&mut self, vaddr: u64, level: usize)
        requires
            level < HAL_PAGE_LEVEL,
            old(self).entries@.len() == PT_ENTRY_COUNT,
        ensures
            final(self).entries@ == old(self).entries@.update(
                entry_index(vaddr, level as int),
                PageTableEntryImpl::Invalid,
            ),
    {
        let i = index_of(vaddr, level);
        self.entries[i] = PageTableEntryImpl::Invalid;
    }
}

/// Replacing one slot of a directory updates its view pointwise.
pub proof fn lemma_view_update(
    t1: PageTableImpl,
    t2: PageTableImpl,
    i: int,
    e: PageTableEntryImpl,
    level: int,
)
    requires
        0 <= i < t1.entries@.len(),
        t2.entries@ == t1.entries@.update(i, e),
    ensures
        table_view(t2, level) == table_view(t1, level).update(i, entry_view(e, level)),
{
    assert(table_view(t2, level) =~= table_view(t1, level).update(i, entry_view(e, level)));
}

/// The index a virtual address selects is always inside the directory.
pub proof fn lemma_entry_index_bounds(vaddr: u64, level: int)
    ensures
        0 <= entry_index(vaddr, level) < PT_ENTRY_COUNT,
{
    assert((vaddr >> 30) & 0x1ff < 512 && (vaddr >> 21) & 0x1ff < 512 && (vaddr >> 12) & 0x1ff
        < 512) by (bit_vector);
}

/// The physical address written into an entry for the kernel-linear virtual
/// address `vaddr`, computed as the hardware register holds it. Page
/// alignment of the virtual address carries over to the physical one.
pub fn to_phys(vaddr: u64) -> (r: u64)
    ensures
        r == phys_of(vaddr),
        spec_is_aligned(vaddr, PAGE_SIZE) ==> spec_is_aligned(r, PAGE_SIZE),
{
    proof {
        if vaddr as int % PAGE_SIZE as int == 0 {
            assert(phys_of(vaddr) as int % PAGE_SIZE as int == 0) by {
                if vaddr >= KERNEL_OFFSET {
                    assert((vaddr - KERNEL_OFFSET) % 4096 == 0) by (nonlinear_arith)
                        requires
                            vaddr as int % 4096 == 0,
                            vaddr >= KERNEL_OFFSET,
                            KERNEL_OFFSET == 0xffff_ffc0_0000_0000u64,
                    ;
                } else {
                    assert((vaddr - KERNEL_OFFSET + 0x1_0000_0000_0000_0000) % 4096 == 0)
                        by (nonlinear_arith)
                        requires
                            vaddr as int % 4096 == 0,
                            vaddr < KERNEL_OFFSET,
                            KERNEL_OFFSET == 0xffff_ffc0_0000_0000u64,
                    ;
                }
            }
        }
    }
    vaddr.wrapping_sub(KERNEL_OFFSET)
}

/// Exact in-bounds index extraction used inside the walker, where the level
/// bound is already established.
pub(crate) fn index_of(vaddr: u64, level: usize) -> (r: usize)
    requires
        level < HAL_PAGE_LEVEL,
    ensures
        r == entry_index(vaddr, level as int),
        r < PT_ENTRY_COUNT,
{
    assert((vaddr >> 30) & 0x1ff < 512 && (vaddr >> 21) & 0x1ff < 512 && (vaddr >> 12) & 0x1ff
        < 512) by (bit_vector);
    let r: u64 = if level == 0 {
        (vaddr >> 30) & 0x1ff
    } else if level == 1 {
        (vaddr >> 21) & 0x1ff
    } else {
        (vaddr >> 12) & 0x1ff
    };
    r as usize
}

} // verus!
