//! The signature bytes of each container format.

use vstd::prelude::*;

verus! {

/// qcow2, at offset 0: `Q`, `F`, `I`, 0xfb.
pub const QCOW2: [u8; 4] = [0x51, 0x46, 0x49, 0xfb];

/// VHDX, at offset 0: `vhdxfile`.
pub const VHDX: [u8; 8] = [0x76, 0x68, 0x64, 0x78, 0x66, 0x69, 0x6c, 0x65];

/// The sparse extent header of a VMDK: `KDMV`.
pub const VMDK: [u8; 4] = [0x4b, 0x44, 0x4d, 0x56];

/// VHD, in the header of a dynamic disk and the footer of any: `conectix`.
pub const VHD: [u8; 8] = [0x63, 0x6f, 0x6e, 0x65, 0x63, 0x74, 0x69, 0x78];

} // verus!
