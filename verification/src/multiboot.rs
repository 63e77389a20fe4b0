//! Multiboot header and structures.
//!
//! The boot loader leaves an information record and a memory map in
//! memory; the kernel reads them to learn where usable memory lies.
//! Reading the raw tables out of memory is left to the boot-facing code;
//! here live the records as plain values and the search for the block
//! the kernel was loaded into.

use vstd::prelude::*;

verus! {

/// The boot loader's information record. Addresses are held as plain
/// integers.
pub struct MultibootInfo {
    pub flags: u32,
    pub mem_lower: u32,
    pub mem_upper: u32,
    pub boot_device: u32,
    pub cmdline: u32,
    pub mods_count: u32,
    pub mods_addr: u32,
    /// Byte length of the memory map.
    pub mmap_length: u32,
    /// Address of the first memory-map entry.
    pub mmap_addr: u32,
    pub drives_length: u32,
    pub drives_addr: u32,
    pub config_table: u32,
    /// Address of the boot loader's name string.
    pub boot_loader_name: usize,
    pub apm_table: u32,
}

/// One entry of the boot loader's memory map: a byte range and its kind.
pub struct MultibootMmapEntry {
    /// Size of the entry record itself.
    pub size: u32,
    /// First byte of the described range.
    pub addr: u64,
    /// Length of the described range in bytes.
    pub length: u64,
    /// What the range is usable for.
    pub mmap_type: u32,
}

/// Index of the first memory-map entry whose range starts at
/// `kernel_start`: the block the kernel was loaded into, which the heap
/// allocator adopts. Reports the absence of such a block exactly when no
/// entry starts there.
pub fn find_kernel_block(entries: &Vec<MultibootMmapEntry>, kernel_start: u64) -> (r: Option<
    usize,
>)
    ensures
        match r {
            Some(i) => {
                &&& i < entries@.len()
                &&& entries@[i as int].addr == kernel_start
                &&& forall|k: int| 0 <= k < i ==> (#[trigger] entries@[k]).addr != kernel_start
            },
            None => forall|k: int|
                0 <= k < entries@.len() ==> (#[trigger] entries@[k]).addr != kernel_start,
        },
{
    let mut i: usize = 0;
    while i < entries.len()
        invariant
            i <= entries@.len(),
            forall|k: int| 0 <= k < i ==> (#[trigger] entries@[k]).addr != kernel_start,
        decreases entries@.len() - i,
    {
        if entries[i].addr == kernel_start {
            return Some(i);
        }
        i = i + 1;
    }
    None
}

} // verus!
