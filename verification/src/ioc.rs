//! Packing of ioctl request codes: direction, type byte, sequence number and
//! payload size are packed into a single 32-bit integer, in the layout the
//! kernel's generic ioctl convention uses (number in bits 0..8, type in bits
//! 8..16, size in bits 16..30, direction in bits 30..32).

use vstd::prelude::*;

verus! {

/// Direction bits: no data transfer.
pub const IOC_NONE: u32 = 0;

/// Direction bits: userspace writes to the driver.
pub const IOC_WRITE: u32 = 1;

/// Direction bits: userspace reads from the driver.
pub const IOC_READ: u32 = 2;

/// The packed request code as a mathematical integer.
pub open spec fn ioc_code(dir: u32, ty: u32, nr: u32, size: u32) -> int {
    dir * 0x4000_0000 + size * 0x1_0000 + ty * 0x100 + nr
}

/// Packs an ioctl request code from its four fields.
pub fn ioc(dir: u32, ty: u32, nr: u32, size: u32) -> (r: u32)
    requires
        dir < 4,
        ty < 0x100,
        nr < 0x100,
        size < 0x4000,
    ensures
        r == ioc_code(dir, ty, nr, size),
{
    dir * 0x4000_0000 + size * 0x1_0000 + ty * 0x100 + nr
}

} // verus!
