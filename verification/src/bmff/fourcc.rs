//! Four-character codes of the box types and brands the parser knows.

use vstd::prelude::*;

verus! {

/// `ftyp`.
pub const FTYP: [u8; 4] = [0x66, 0x74, 0x79, 0x70];

/// `meta`.
pub const META: [u8; 4] = [0x6d, 0x65, 0x74, 0x61];

/// `hdlr`.
pub const HDLR: [u8; 4] = [0x68, 0x64, 0x6c, 0x72];

/// `pitm`.
pub const PITM: [u8; 4] = [0x70, 0x69, 0x74, 0x6d];

/// `iloc`.
pub const ILOC: [u8; 4] = [0x69, 0x6c, 0x6f, 0x63];

/// `iinf`.
pub const IINF: [u8; 4] = [0x69, 0x69, 0x6e, 0x66];

/// `iref`.
pub const IREF: [u8; 4] = [0x69, 0x72, 0x65, 0x66];

/// `iprp`.
pub const IPRP: [u8; 4] = [0x69, 0x70, 0x72, 0x70];

/// `ipco`.
pub const IPCO: [u8; 4] = [0x69, 0x70, 0x63, 0x6f];

/// `ipma`.
pub const IPMA: [u8; 4] = [0x69, 0x70, 0x6d, 0x61];

/// `ispe`.
pub const ISPE: [u8; 4] = [0x69, 0x73, 0x70, 0x65];

/// `pixi`.
pub const PIXI: [u8; 4] = [0x70, 0x69, 0x78, 0x69];

/// `auxC`.
pub const AUXC: [u8; 4] = [0x61, 0x75, 0x78, 0x43];

/// `colr`.
pub const COLR: [u8; 4] = [0x63, 0x6f, 0x6c, 0x72];

/// `av1C`.
pub const AV1C: [u8; 4] = [0x61, 0x76, 0x31, 0x43];

/// `tkhd`.
pub const TKHD: [u8; 4] = [0x74, 0x6b, 0x68, 0x64];

/// `mdhd`.
pub const MDHD: [u8; 4] = [0x6d, 0x64, 0x68, 0x64];

/// `mvhd`.
pub const MVHD: [u8; 4] = [0x6d, 0x76, 0x68, 0x64];

/// `uuid`.
pub const UUID: [u8; 4] = [0x75, 0x75, 0x69, 0x64];

/// `moov`.
pub const MOOV: [u8; 4] = [0x6d, 0x6f, 0x6f, 0x76];

/// `trak`.
pub const TRAK: [u8; 4] = [0x74, 0x72, 0x61, 0x6b];

/// `mdia`.
pub const MDIA: [u8; 4] = [0x6d, 0x64, 0x69, 0x61];

/// `minf`.
pub const MINF: [u8; 4] = [0x6d, 0x69, 0x6e, 0x66];

/// `edts`.
pub const EDTS: [u8; 4] = [0x65, 0x64, 0x74, 0x73];

/// `elst`.
pub const ELST: [u8; 4] = [0x65, 0x6c, 0x73, 0x74];

/// `tref`.
pub const TREF: [u8; 4] = [0x74, 0x72, 0x65, 0x66];

/// `vmhd`.
pub const VMHD: [u8; 4] = [0x76, 0x6d, 0x68, 0x64];

/// `smhd`.
pub const SMHD: [u8; 4] = [0x73, 0x6d, 0x68, 0x64];

/// `dinf`.
pub const DINF: [u8; 4] = [0x64, 0x69, 0x6e, 0x66];

/// `dref`.
pub const DREF: [u8; 4] = [0x64, 0x72, 0x65, 0x66];

/// `stbl`.
pub const STBL: [u8; 4] = [0x73, 0x74, 0x62, 0x6c];

/// `stsd`.
pub const STSD: [u8; 4] = [0x73, 0x74, 0x73, 0x64];

/// `stts`.
pub const STTS: [u8; 4] = [0x73, 0x74, 0x74, 0x73];

/// `stsc`.
pub const STSC: [u8; 4] = [0x73, 0x74, 0x73, 0x63];

/// `stsz`.
pub const STSZ: [u8; 4] = [0x73, 0x74, 0x73, 0x7a];

/// `stco`.
pub const STCO: [u8; 4] = [0x73, 0x74, 0x63, 0x6f];

/// `co64`.
pub const CO64: [u8; 4] = [0x63, 0x6f, 0x36, 0x34];

/// `stss`.
pub const STSS: [u8; 4] = [0x73, 0x74, 0x73, 0x73];

/// `avc1`.
pub const AVC1: [u8; 4] = [0x61, 0x76, 0x63, 0x31];

/// `hvc1`.
pub const HVC1: [u8; 4] = [0x68, 0x76, 0x63, 0x31];

/// `av01`.
pub const AV01: [u8; 4] = [0x61, 0x76, 0x30, 0x31];

/// `mp4a`.
pub const MP4A: [u8; 4] = [0x6d, 0x70, 0x34, 0x61];

/// `avif`.
pub const AVIF: [u8; 4] = [0x61, 0x76, 0x69, 0x66];

/// `avis`.
pub const AVIS: [u8; 4] = [0x61, 0x76, 0x69, 0x73];

/// `nclx`.
pub const NCLX: [u8; 4] = [0x6e, 0x63, 0x6c, 0x78];

/// `prof`.
pub const PROF: [u8; 4] = [0x70, 0x72, 0x6f, 0x66];

/// `rICC`.
pub const RICC: [u8; 4] = [0x72, 0x49, 0x43, 0x43];

/// `pict`.
pub const PICT: [u8; 4] = [0x70, 0x69, 0x63, 0x74];

/// `av02`.
pub const AV02: [u8; 4] = [0x61, 0x76, 0x30, 0x32];

/// `grid`.
pub const GRID: [u8; 4] = [0x67, 0x72, 0x69, 0x64];

/// `iden`.
pub const IDEN: [u8; 4] = [0x69, 0x64, 0x65, 0x6e];

/// `iovl`.
pub const IOVL: [u8; 4] = [0x69, 0x6f, 0x76, 0x6c];

/// Whether two four-character codes are the same.
pub fn same_code(a: &[u8; 4], b: &[u8; 4]) -> (r: bool)
    ensures
        r == (a@ == b@),
{
    let r = a[0] == b[0] && a[1] == b[1] && a[2] == b[2] && a[3] == b[3];
    proof {
        if r {
            assert(a@ =~= b@);
        }
    }
    r
}

} // verus!
