//! Global Descriptor Table entries, encoded and decoded bit by bit.
//!
//! A segment descriptor packs a 32-bit base, a 20-bit limit, an access
//! byte and four flag bits into one 64-bit word; the access byte itself
//! packs seven flags. Loading the table into the processor is privileged
//! work that lives with the hardware-facing code; here live the encodings
//! and their exact field contracts.

use crate::util::bit_manipulation::BitManipulation;
use vstd::prelude::*;

verus! {

/// The flags packed into a descriptor's access byte.
pub struct AccessByteParams {
    /// Present bit, set for every valid segment.
    pub p: bool,
    /// Privilege level, two bits: zero is the kernel, three is user code.
    pub dpl: u8,
    /// Descriptor type: clear for system, set for code or data.
    pub s: bool,
    /// Executable bit: clear for a data segment, set for a code segment.
    pub e: bool,
    /// Direction (data) or conforming (code) bit.
    pub dc: bool,
    /// Readable (code) or writable (data) bit.
    pub rw: bool,
    /// Accessed bit, maintained by the processor.
    pub a: bool,
}

/// The access byte that `params` encodes to: each flag at its bit, the
/// privilege level's two bits at bits five and six.
pub open spec fn access_byte_of(params: AccessByteParams) -> u8 {
    ((if params.p {
        128int
    } else {
        0int
    }) + 32 * ((params.dpl % 4) as int) + (if params.s {
        16int
    } else {
        0int
    }) + (if params.e {
        8int
    } else {
        0int
    }) + (if params.dc {
        4int
    } else {
        0int
    }) + (if params.rw {
        2int
    } else {
        0int
    }) + (if params.a {
        1int
    } else {
        0int
    })) as u8
}

/// Builder for a descriptor's access byte.
pub struct AccessByte {
    access_byte: u8,
}

impl AccessByte {
    /// The byte built so far, for contracts.
    pub closed spec fn spec_get(&self) -> u8 {
        self.access_byte
    }

    /// An empty access byte.
    pub fn new() -> (r: AccessByte)
        ensures
            r.spec_get() == 0,
    {
        AccessByte { access_byte: 0 }
    }

    /// The byte built so far.
    pub fn get(&self) -> (r: u8)
        ensures
            r == self.spec_get(),
    {
        self.access_byte
    }

    /// Encodes `access_byte_params`, overwriting every bit of the byte.
    pub fn build(&self, access_byte_params: AccessByteParams) -> (r: u8)
        ensures
            r == access_byte_of(access_byte_params),
    {
        let mut access_byte = self.get();

        access_byte.set_bit(7, access_byte_params.p);
        access_byte.set_bits(5, 2, access_byte_params.dpl);
        access_byte.set_bit(4, access_byte_params.s);
        access_byte.set_bit(3, access_byte_params.e);
        access_byte.set_bit(2, access_byte_params.dc);
        access_byte.set_bit(1, access_byte_params.rw);
        access_byte.set_bit(0, access_byte_params.a);

        proof {
            let x0 = self.spec_get();
            let pv: u8 = if access_byte_params.p {
                1
            } else {
                0
            };
            let dpl = access_byte_params.dpl;
            let sv: u8 = if access_byte_params.s {
                1
            } else {
                0
            };
            let ev: u8 = if access_byte_params.e {
                1
            } else {
                0
            };
            let dcv: u8 = if access_byte_params.dc {
                1
            } else {
                0
            };
            let rwv: u8 = if access_byte_params.rw {
                1
            } else {
                0
            };
            let av: u8 = if access_byte_params.a {
                1
            } else {
                0
            };
            let y1 = x0.spec_set_bit(7, access_byte_params.p);
            let y2 = y1.spec_set_bits(5, 2, dpl);
            let y3 = y2.spec_set_bit(4, access_byte_params.s);
            let y4 = y3.spec_set_bit(3, access_byte_params.e);
            let y5 = y4.spec_set_bit(2, access_byte_params.dc);
            let y6 = y5.spec_set_bit(1, access_byte_params.rw);
            let y7 = y6.spec_set_bit(0, access_byte_params.a);
            assert(access_byte == y7);
            assert(y7 == (128 * pv + 32 * (dpl % 4) + 16 * sv + 8 * ev + 4 * dcv + 2 * rwv
                + av) as u8) by (bit_vector)
                requires
                    y1 == ((((x0) & !(((((1u8 << 1) - 1) as u8) << 7) as u8)) | ((((pv) << 7) as u8) & (((((1u8 << 1) - 1) as u8) << 7) as u8))) as u8),
                    y2 == ((((y1) & !(((((1u8 << 2) - 1) as u8) << 5) as u8)) | ((((dpl) << 5) as u8) & (((((1u8 << 2) - 1) as u8) << 5) as u8))) as u8),
                    y3 == ((((y2) & !(((((1u8 << 1) - 1) as u8) << 4) as u8)) | ((((sv) << 4) as u8) & (((((1u8 << 1) - 1) as u8) << 4) as u8))) as u8),
                    y4 == ((((y3) & !(((((1u8 << 1) - 1) as u8) << 3) as u8)) | ((((ev) << 3) as u8) & (((((1u8 << 1) - 1) as u8) << 3) as u8))) as u8),
                    y5 == ((((y4) & !(((((1u8 << 1) - 1) as u8) << 2) as u8)) | ((((dcv) << 2) as u8) & (((((1u8 << 1) - 1) as u8) << 2) as u8))) as u8),
                    y6 == ((((y5) & !(((((1u8 << 1) - 1) as u8) << 1) as u8)) | ((((rwv) << 1) as u8) & (((((1u8 << 1) - 1) as u8) << 1) as u8))) as u8),
                    y7 == ((((y6) & !(((((1u8 << 1) - 1) as u8) << 0) as u8)) | ((((av) << 0) as u8) & (((((1u8 << 1) - 1) as u8) << 0) as u8))) as u8),
                    pv <= 1,
                    sv <= 1,
                    ev <= 1,
                    dcv <= 1,
                    rwv <= 1,
                    av <= 1,
            ;
        }
        access_byte
    }
}

/// One 64-bit segment descriptor.
#[derive(Clone, Copy, Debug, PartialEq, Eq, Structural)]
pub struct SegmentDescriptor(pub u64);

impl SegmentDescriptor {
    /// The 32-bit base the descriptor carries.
    pub open spec fn spec_base(self) -> u64 {
        (self.0.spec_get_bits(16, 24) | (self.0.spec_get_bits(56, 8) << 24)) as u64
    }

    /// The 20-bit limit the descriptor carries.
    pub open spec fn spec_limit(self) -> u64 {
        (self.0.spec_get_bits(0, 16) | (self.0.spec_get_bits(48, 4) << 16)) as u64
    }

    /// The access byte the descriptor carries.
    pub open spec fn spec_access_byte(self) -> u64 {
        self.0.spec_get_bits(40, 8)
    }

    /// The four flag bits the descriptor carries.
    pub open spec fn spec_flags(self) -> u64 {
        self.0.spec_get_bits(52, 4)
    }

    /// Encodes the fields into one descriptor word: the limit's low
    /// sixteen bits and high four bits, the base's low twenty-four bits
    /// and high eight bits, the access byte and the flags, each in its
    /// architectural position. The limit keeps its low twenty bits and
    /// the flags their low four.
    pub fn new(base: u32, limit: u32, access_byte: u8, flags: u8) -> (r: SegmentDescriptor)
        ensures
            r.spec_base() == base,
            r.spec_limit() == limit % 0x100000,
            r.spec_access_byte() == access_byte,
            r.spec_flags() == flags % 0x10,
    {
        let base64: u64 = base as u64;
        let limit64: u64 = limit as u64;
        let access64: u64 = access_byte as u64;
        let flags64: u64 = flags as u64;

        let mut descriptor: u64 = 0u64;

        descriptor.set_bits(0, 16, limit64);
        let ghost g1 = descriptor;
        descriptor.set_bits(48, 4, limit64 >> 16);
        let ghost g2 = descriptor;

        descriptor.set_bits(16, 24, base64);
        let ghost g3 = descriptor;
        descriptor.set_bits(56, 8, base64 >> 24);
        let ghost g4 = descriptor;

        descriptor.set_bits(40, 8, access64);
        let ghost g5 = descriptor;
        descriptor.set_bits(52, 4, flags64);
        let ghost g6 = descriptor;

        proof {
            assert((((((g6) >> 16) & (((1u64 << 24) - 1) as u64)) as u64) | (((((g6) >> 56) & (((1u64 << 8) - 1) as u64)) as u64) << 24)) == base64
                && (((((g6) >> 0) & (((1u64 << 16) - 1) as u64)) as u64) | (((((g6) >> 48) & (((1u64 << 4) - 1) as u64)) as u64) << 16)) == limit64 % 0x100000
                && ((((g6) >> 40) & (((1u64 << 8) - 1) as u64)) as u64) == access64
                && ((((g6) >> 52) & (((1u64 << 4) - 1) as u64)) as u64) == flags64 % 0x10) by (bit_vector)
                requires
                    g1 == ((((0u64) & !(((((1u64 << 16) - 1) as u64) << 0) as u64)) | ((((limit64) << 0) as u64) & (((((1u64 << 16) - 1) as u64) << 0) as u64))) as u64),
                    g2 == ((((g1) & !(((((1u64 << 4) - 1) as u64) << 48) as u64)) | ((((limit64 >> 16) << 48) as u64) & (((((1u64 << 4) - 1) as u64) << 48) as u64))) as u64),
                    g3 == ((((g2) & !(((((1u64 << 24) - 1) as u64) << 16) as u64)) | ((((base64) << 16) as u64) & (((((1u64 << 24) - 1) as u64) << 16) as u64))) as u64),
                    g4 == ((((g3) & !(((((1u64 << 8) - 1) as u64) << 56) as u64)) | ((((base64 >> 24) << 56) as u64) & (((((1u64 << 8) - 1) as u64) << 56) as u64))) as u64),
                    g5 == ((((g4) & !(((((1u64 << 8) - 1) as u64) << 40) as u64)) | ((((access64) << 40) as u64) & (((((1u64 << 8) - 1) as u64) << 40) as u64))) as u64),
                    g6 == ((((g5) & !(((((1u64 << 4) - 1) as u64) << 52) as u64)) | ((((flags64) << 52) as u64) & (((((1u64 << 4) - 1) as u64) << 52) as u64))) as u64),
                    base64 < 0x1_0000_0000,
                    limit64 < 0x1_0000_0000,
                    access64 < 0x100,
                    flags64 < 0x100,
            ;
        }

        SegmentDescriptor(descriptor)
    }

    /// The 32-bit base.
    pub fn get_base(&self) -> (r: u32)
        ensures
            r == self.spec_base(),
    {
        // Prevent unaligned access
        let data = self.0;
        let mut b = data.get_bits(16, 24);
        let upper = data.get_bits(56, 8);
        proof {
            let d = data;
            assert((((((d) >> 16) & (((1u64 << 24) - 1) as u64)) as u64) | (((((d) >> 56) & (((1u64 << 8) - 1) as u64)) as u64) << 24)) < 0x1_0000_0000) by (bit_vector);
        }
        b |= upper << 24;
        b as u32
    }

    /// The 20-bit limit.
    pub fn get_limit(&self) -> (r: u32)
        ensures
            r == self.spec_limit(),
    {
        // Prevent unaligned access
        let data = self.0;
        let mut l = data.get_bits(0, 16);
        let upper = data.get_bits(48, 4);
        proof {
            let d = data;
            assert((((((d) >> 0) & (((1u64 << 16) - 1) as u64)) as u64) | (((((d) >> 48) & (((1u64 << 4) - 1) as u64)) as u64) << 16)) < 0x1_0000_0000) by (bit_vector);
        }
        l |= upper << 16;
        l as u32
    }

    /// The access byte.
    pub fn get_access_byte(&self) -> (r: u8)
        ensures
            r == self.spec_access_byte(),
    {
        // Prevent unaligned access
        let data = self.0;
        proof {
            let d = data;
            assert(((((d) >> 40) & (((1u64 << 8) - 1) as u64)) as u64) < 0x100) by (bit_vector);
        }
        data.get_bits(40, 8) as u8
    }

    /// The four flag bits.
    pub fn get_flags(&self) -> (r: u8)
        ensures
            r == self.spec_flags(),
    {
        // Prevent unaligned access
        let data = self.0;
        proof {
            let d = data;
            assert(((((d) >> 52) & (((1u64 << 4) - 1) as u64)) as u64) < 0x100) by (bit_vector);
        }
        data.get_bits(52, 4) as u8
    }
}

/// The register-format handle of a descriptor table: its byte limit and
/// the address of its first entry.
pub struct GDT {
    /// One less than the table's size in bytes.
    pub limit: u16,
    /// Address of the table's first descriptor.
    pub base: u32,
}

/// The three descriptors the kernel loads: the null descriptor, a flat
/// kernel code segment and a flat kernel data segment, both spanning the
/// whole address space with 4 KiB granularity.
pub fn get_gdt_entries() -> (r: [SegmentDescriptor; 3])
    ensures
        r[0] == SegmentDescriptor(0),
        r[1].spec_base() == 0 && r[1].spec_limit() == 0xFFFFF && r[1].spec_access_byte()
            == 0x99 && r[1].spec_flags() == 0xC,
        r[2].spec_base() == 0 && r[2].spec_limit() == 0xFFFFF && r[2].spec_access_byte()
            == 0x93 && r[2].spec_flags() == 0xC,
{
    let code_access_byte = AccessByte::new().build(
        AccessByteParams {
            p: true,
            dpl: 0,
            s: true,
            e: true,
            dc: false,
            rw: false,
            a: true,
        },
    );
    let code_descriptor = SegmentDescriptor::new(0, 0xffff_ffff, code_access_byte, 0b1100);

    let data_access_byte = AccessByte::new().build(
        AccessByteParams {
            p: true,
            dpl: 0,
            s: true,
            e: false,
            dc: false,
            rw: true,
            a: true,
        },
    );
    let data_descriptor = SegmentDescriptor::new(0, 0xffff_ffff, data_access_byte, 0b1100);

    [SegmentDescriptor(0), code_descriptor, data_descriptor]
}

} // verus!
