//! Four-character codes of ISO BMFF boxes, as the big-endian `u32` of their bytes.
use crate::byteorder::be_value;
use vstd::prelude::*;

verus! {

pub const FTYP: u32 = 0x66747970;
pub const MOOV: u32 = 0x6d6f6f76;
pub const MDAT: u32 = 0x6d646174;
pub const WIDE: u32 = 0x77696465;
pub const FREE: u32 = 0x66726565;
pub const SKIP: u32 = 0x736b6970;
pub const METX: u32 = 0x6d657478;
pub const STYP: u32 = 0x73747970;
pub const SIDX: u32 = 0x73696478;
pub const MOOF: u32 = 0x6d6f6f66;
pub const UDTA: u32 = 0x75647461;
pub const META: u32 = 0x6d657461;
pub const UUID: u32 = 0x75756964;
pub const TRAK: u32 = 0x7472616b;
pub const MDIA: u32 = 0x6d646961;
pub const MINF: u32 = 0x6d696e66;
pub const IPCO: u32 = 0x6970636f;
pub const IPRP: u32 = 0x69707270;
pub const COLR: u32 = 0x636f6c72;
pub const STCO: u32 = 0x7374636f;
pub const CO64: u32 = 0x636f3634;
pub const ILOC: u32 = 0x696c6f63;
pub const EDTS: u32 = 0x65647473;
pub const TREF: u32 = 0x74726566;
pub const STBL: u32 = 0x7374626c;
pub const DINF: u32 = 0x64696e66;
pub const MVEX: u32 = 0x6d766578;
pub const SINF: u32 = 0x73696e66;
pub const MVHD: u32 = 0x6d766864;
pub const KEYS: u32 = 0x6b657973;
pub const ILST: u32 = 0x696c7374;
pub const DATA: u32 = 0x64617461;
pub const ISPE: u32 = 0x69737065;
pub const TKHD: u32 = 0x746b6864;
pub const MDHD: u32 = 0x6d646864;
pub const HDLR: u32 = 0x68646c72;
pub const STTS: u32 = 0x73747473;
pub const STSD: u32 = 0x73747364;
pub const VIDE: u32 = 0x76696465;
pub const SOUN: u32 = 0x736f756e;

/// The code of a four-character code given by its bytes.
pub open spec fn code_of(k: Seq<u8>) -> nat {
    be_value(k)
}

/// The code of `k`.
pub fn code(k: &[u8; 4]) -> (r: u32)
    ensures
        r == code_of(k@),
{
    proof {
        reveal_with_fuel(be_value, 5);
        assert(k@.drop_last().drop_last().drop_last().drop_last() =~= Seq::<u8>::empty());
    }
    let b0 = k[0] as u32;
    let b1 = k[1] as u32;
    let b2 = k[2] as u32;
    let b3 = k[3] as u32;
    ((b0 * 256 + b1) * 256 + b2) * 256 + b3
}

} // verus!
