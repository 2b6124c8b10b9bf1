//! Numbers fixed by the traffic-control netlink protocol.
use vstd::prelude::*;

verus! {

/// Mask of the major part of a handle.
pub const TC_H_MAJ_MASK: u32 = 0xFFFF0000;
/// Mask of the minor part of a handle.
pub const TC_H_MIN_MASK: u32 = 0x0000FFFF;
/// Handle left unspecified.
pub const TC_H_UNSPEC: u32 = 0;
/// Handle of the root of a device.
pub const TC_H_ROOT: u32 = 0xFFFFFFFF;
/// Handle of the ingress point of a device.
pub const TC_H_INGRESS: u32 = 0xFFFFFFF1;
/// Handle of the cls-act point, which shares the ingress handle.
pub const TC_H_CLSACT: u32 = 0xFFFFFFF1;

/// Length of the fixed message header: family, padding, index, handle, parent, info.
pub const TC_HEADER_LEN: usize = 20;
/// Length of an attribute's own header: a 16-bit length and a 16-bit type.
pub const NLA_HEADER_LEN: usize = 4;
/// The type bits of an attribute's type field, without the nested and byte-order flags.
pub const NLA_TYPE_MASK: u16 = 0x3FFF;
/// Length of the legacy statistics record.
pub const STATS_LEN: usize = 36;

// Types of the top-level attributes of a message.
pub const TCA_UNSPEC: u16 = 0;
pub const TCA_KIND: u16 = 1;
pub const TCA_OPTIONS: u16 = 2;
pub const TCA_STATS: u16 = 3;
pub const TCA_XSTATS: u16 = 4;
pub const TCA_RATE: u16 = 5;
pub const TCA_FCNT: u16 = 6;
pub const TCA_STATS2: u16 = 7;
pub const TCA_STAB: u16 = 8;
pub const TCA_PAD: u16 = 9;
pub const TCA_DUMP_INVISIBLE: u16 = 10;
pub const TCA_CHAIN: u16 = 11;
pub const TCA_HW_OFFLOAD: u16 = 12;

// Types of the entries of the nested statistics attribute.
pub const TCA_STATS_UNSPEC: u16 = 0;
pub const TCA_STATS_BASIC: u16 = 1;
pub const TCA_STATS_RATE_EST: u16 = 2;
pub const TCA_STATS_QUEUE: u16 = 3;
pub const TCA_STATS_APP: u16 = 4;

} // verus!
