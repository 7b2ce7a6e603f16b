use crate::bytes::{le16, u16_from_le};
use vstd::prelude::*;
use vstd::string::StringExecFns;

verus! {

/// The 16-bit frame-control value read from the first two bytes of a frame.
pub open spec fn control_value(b: Seq<u8>) -> u16 {
    le16(b) as u16
}

/// The ORDER bit: an HT-control field follows the management header.
pub open spec fn order_set(v: u16) -> bool {
    v & 0x8000 != 0
}

/// Management type with the beacon subtype.
pub open spec fn beacon_bits(v: u16) -> bool {
    v & 0x00fc == 0x0080
}

/// Management type with the probe-request subtype.
pub open spec fn probe_request_bits(v: u16) -> bool {
    v & 0x00fc == 0x0040
}

/// Bytes from the start of a frame to the end of its management header: frame control,
/// duration, three addresses and sequence control, plus the HT-control field where ORDER is
/// set.
pub open spec fn header_size(v: u16) -> int {
    if order_set(v) {
        28
    } else {
        24
    }
}

/// The frame-control field: two bytes, little-endian.
#[derive(Debug, Clone, Copy)]
pub struct FrameControl([u8; 2]);

/// Size of the frame-control field.
pub const FRAME_CONTROL_SIZE: usize = 2;

/// Size of the management header after the frame-control field.
pub const MANAGEMENT_HEADER_SIZE: usize = 22;

/// Size of the optional HT-control field.
pub const HT_CONTROL_SIZE: usize = 4;

impl FrameControl {
    pub const TYPE: u16 = 0x000c;
    pub const SUB_TYPE: u16 = 0x00f0;
    pub const ORDER: u16 = 0x8000;
    pub const TYPE_MGMT: u16 = 0x0000;
    pub const SUB_TYPE_BEACON: u16 = 0x0080;
    pub const SUB_TYPE_PROBE_REQ: u16 = 0x0040;

    pub closed spec fn value(&self) -> u16 {
        control_value(self.0@)
    }

    pub fn new(bytes: [u8; 2]) -> (r: Self)
        ensures
            r.value() == control_value(bytes@),
    {
        FrameControl(bytes)
    }

    pub fn get(&self) -> (r: u16)
        ensures
            r == self.value(),
    {
        u16_from_le(self.0)
    }

    pub fn has_order(&self) -> (r: bool)
        ensures
            r == order_set(self.value()),
    {
        self.get() & Self::ORDER != 0
    }

    pub fn is_beacon(&self) -> (r: bool)
        ensures
            r == beacon_bits(self.value()),
    {
        assert(0x000cu16 | 0x00f0u16 == 0x00fcu16 && 0x0000u16 | 0x0080u16 == 0x0080u16)
            by (bit_vector);
        self.get() & (Self::TYPE | Self::SUB_TYPE) == (Self::TYPE_MGMT | Self::SUB_TYPE_BEACON)
    }

    pub fn is_probe_request(&self) -> (r: bool)
        ensures
            r == probe_request_bits(self.value()),
    {
        assert(0x000cu16 | 0x00f0u16 == 0x00fcu16 && 0x0000u16 | 0x0040u16 == 0x0040u16)
            by (bit_vector);
        self.get() & (Self::TYPE | Self::SUB_TYPE) == (Self::TYPE_MGMT | Self::SUB_TYPE_PROBE_REQ)
    }

    /// Size of the management header that this frame control announces, counted from the
    /// start of the frame: the base size, plus the HT-control field where ORDER is set.
    pub fn frame_size(&self) -> (r: usize)
        ensures
            r == header_size(self.value()),
    {
        let size = FRAME_CONTROL_SIZE + MANAGEMENT_HEADER_SIZE;
        if self.has_order() {
            size + HT_CONTROL_SIZE
        } else {
            size
        }
    }
}

/// A frame is never both a beacon and a probe request, and the classification depends on
/// the type and subtype bits alone: a management beacon is always a beacon, a management
/// probe request always a probe request.
pub proof fn lemma_classification_exclusive(v: u16)
    ensures
        !(beacon_bits(v) && probe_request_bits(v)),
        (v & 0x000c == 0 && v & 0x00f0 == 0x0080) ==> beacon_bits(v) && !probe_request_bits(v),
        (v & 0x000c == 0 && v & 0x00f0 == 0x0040) ==> probe_request_bits(v) && !beacon_bits(v),
{
    assert((v & 0x000c == 0 && v & 0x00f0 == 0x0080) ==> v & 0x00fc == 0x0080) by (bit_vector);
    assert((v & 0x000c == 0 && v & 0x00f0 == 0x0040) ==> v & 0x00fc == 0x0040) by (bit_vector);
}

/// The header size is the base size plus four exactly when ORDER is set.
pub proof fn lemma_header_size(v: u16)
    ensures
        header_size(v) == 24 + if v & 0x8000 != 0 { 4int } else { 0int },
{
}

/// A MAC address: six raw bytes.
#[derive(Debug, PartialEq, Eq, Hash, Clone, Copy)]
pub struct MACAddr([u8; 6]);

impl View for MACAddr {
    type V = Seq<u8>;

    closed spec fn view(&self) -> Seq<u8> {
        self.0@
    }
}

impl MACAddr {
    pub fn new(bytes: [u8; 6]) -> (r: Self)
        ensures
            r@ == bytes@,
    {
        MACAddr(bytes)
    }

    pub fn octets(&self) -> (r: [u8; 6])
        ensures
            r@ == self@,
    {
        self.0
    }

    /// The canonical text form: six lowercase hex pairs separated by colons.
    pub fn to_text(&self) -> (r: String)
        ensures
            r@ == mac_text(self@, 6),
    {
        let mut t = String::new();
        let mut i: usize = 0;
        while i < 6
            invariant
                i <= 6,
                self@.len() == 6,
                t@ == mac_text(self@, i as int),
            decreases 6 - i,
        {
            let b = self.0[i];
            if i > 0 {
                let sep = ":";
                proof {
                    reveal_strlit(":");
                }
                t.append(sep);
            }
            t.append(hex_digit(b / 16));
            t.append(hex_digit(b % 16));
            assert(t@ =~= mac_text(self@, i + 1));
            i += 1;
        }
        t
    }
}

/// The lowercase hex digit of `n`.
pub open spec fn hex_char(n: u8) -> char {
    if n < 10 {
        (('0' as u8) + n) as char
    } else {
        (('a' as u8) + n - 10) as char
    }
}

/// The two hex digits of a byte.
pub open spec fn byte_text(b: u8) -> Seq<char> {
    seq![hex_char(b / 16), hex_char(b % 16)]
}

/// The text form of the first `n` bytes of an address.
pub open spec fn mac_text(a: Seq<u8>, n: int) -> Seq<char>
    decreases n,
{
    if n <= 0 {
        Seq::empty()
    } else if n == 1 {
        byte_text(a[0])
    } else {
        mac_text(a, n - 1) + seq![':'] + byte_text(a[n - 1])
    }
}

fn hex_digit(n: u8) -> (r: &'static str)
    requires
        n < 16,
    ensures
        r@ == seq![hex_char(n)],
{
    proof {
        reveal_strlit("0");
        reveal_strlit("1");
        reveal_strlit("2");
        reveal_strlit("3");
        reveal_strlit("4");
        reveal_strlit("5");
        reveal_strlit("6");
        reveal_strlit("7");
        reveal_strlit("8");
        reveal_strlit("9");
        reveal_strlit("a");
        reveal_strlit("b");
        reveal_strlit("c");
        reveal_strlit("d");
        reveal_strlit("e");
        reveal_strlit("f");
    }
    match n {
        0 => "0",
        1 => "1",
        2 => "2",
        3 => "3",
        4 => "4",
        5 => "5",
        6 => "6",
        7 => "7",
        8 => "8",
        9 => "9",
        10 => "a",
        11 => "b",
        12 => "c",
        13 => "d",
        14 => "e",
        _ => "f",
    }
}

/// The management header after the frame-control field.
#[derive(Debug, Clone, Copy)]
pub struct ManagementHeader {
    pub duration: [u8; 2],
    pub addr1: MACAddr,
    pub addr2: MACAddr,
    pub addr3: MACAddr,
    pub seq_control: [u8; 2],
}

/// The beacon interval, two bytes little-endian, in time units.
#[derive(Debug, Clone, Copy)]
pub struct BeaconInterval([u8; 2]);

impl BeaconInterval {
    pub closed spec fn value(&self) -> u16 {
        le16(self.0@) as u16
    }

    pub fn new(bytes: [u8; 2]) -> (r: Self)
        ensures
            r.value() == le16(bytes@) as u16,
    {
        BeaconInterval(bytes)
    }

    pub fn get(&self) -> (r: u16)
        ensures
            r == self.value(),
    {
        u16_from_le(self.0)
    }
}

/// What a beacon's sender is, by its ESS and IBSS capability bits.
#[derive(Debug, Clone, Copy, PartialEq, Eq, Structural)]
pub enum StationKind {
    /// ESS alone: an infrastructure access point.
    AccessPoint,
    /// IBSS alone: an ad-hoc station.
    AdHoc,
    /// Both: a mesh station.
    Mesh,
    /// Neither: a station outside the context of a BSS.
    Ocb,
}

pub open spec fn station_kind(ess: bool, ibss: bool) -> StationKind {
    if ess && !ibss {
        StationKind::AccessPoint
    } else if !ess && ibss {
        StationKind::AdHoc
    } else if ess && ibss {
        StationKind::Mesh
    } else {
        StationKind::Ocb
    }
}

/// The capability field of a beacon, two bytes little-endian.
#[derive(Debug, Clone, Copy)]
pub struct Capability([u8; 2]);

impl Capability {
    pub closed spec fn value(&self) -> u16 {
        le16(self.0@) as u16
    }

    pub fn new(bytes: [u8; 2]) -> (r: Self)
        ensures
            r.value() == le16(bytes@) as u16,
            r.low_bits() == bytes@[0],
    {
        Capability(bytes)
    }

    /// Bits 0 to 7 of the field: its first byte, the field being little-endian.
    pub closed spec fn low_bits(&self) -> u8 {
        self.0@[0]
    }

    pub open spec fn ess(&self) -> bool {
        self.low_bits() & 1 != 0
    }

    pub open spec fn ibss(&self) -> bool {
        self.low_bits() & 2 != 0
    }

    pub fn has_ess(&self) -> (r: bool)
        ensures
            r == self.ess(),
    {
        self.0[0] & 1 != 0
    }

    pub fn has_ibss(&self) -> (r: bool)
        ensures
            r == self.ibss(),
    {
        self.0[0] & 2 != 0
    }

    /// The kind of station that sends beacons with these capabilities.
    pub fn kind(&self) -> (r: StationKind)
        ensures
            r == station_kind(self.ess(), self.ibss()),
    {
        match (self.has_ess(), self.has_ibss()) {
            (true, false) => StationKind::AccessPoint,
            (false, true) => StationKind::AdHoc,
            (true, true) => StationKind::Mesh,
            (false, false) => StationKind::Ocb,
        }
    }
}

} // verus!
