use crate::bytes::{le16, le32, u16_from_le, u32_from_le, MemCast, OutOfBounds};
use vstd::prelude::*;
use vstd::slice::slice_subrange;

verus! {

/// Number of radiotap fields of fixed layout, bits 0 to 27 of the present word. Bit 28 (TLVs)
/// and above are not walked.
pub const FIELD_COUNT: usize = 28;

/// Number of leading fields that are handed out as a `Field`; the others are skipped.
pub const SURFACED_FIELDS: usize = 6;

/// Size in bytes of the radiotap field at bit `i`.
pub open spec fn field_size(i: int) -> int {
    if i == 0 { 8 }          // TSFT
    else if i == 1 { 1 }     // flags
    else if i == 2 { 1 }     // rate
    else if i == 3 { 4 }     // channel
    else if i == 4 { 2 }     // FHSS
    else if i == 5 { 1 }     // antenna signal, dBm
    else if i == 6 { 1 }     // antenna noise, dBm
    else if i == 7 { 2 }     // lock quality
    else if i == 8 { 2 }     // TX attenuation
    else if i == 9 { 2 }     // TX attenuation, dB
    else if i == 10 { 1 }    // TX power, dBm
    else if i == 11 { 1 }    // antenna
    else if i == 12 { 1 }    // antenna signal, dB
    else if i == 13 { 1 }    // antenna noise, dB
    else if i == 14 { 2 }    // RX flags
    else if i == 15 { 2 }    // TX flags
    else if i == 16 { 1 }    // RTS retries
    else if i == 17 { 1 }    // data retries
    else if i == 18 { 8 }    // extended channel
    else if i == 19 { 3 }    // MCS
    else if i == 20 { 8 }    // A-MPDU status
    else if i == 21 { 12 }   // VHT
    else if i == 22 { 12 }   // timestamp
    else if i == 23 { 12 }   // HE
    else if i == 24 { 12 }   // HE-MU
    else if i == 25 { 6 }    // HE-MU other user
    else if i == 26 { 1 }    // zero-length PSDU
    else { 4 }               // L-SIG
}

/// Alignment in bytes of the radiotap field at bit `i`.
pub open spec fn field_align(i: int) -> int {
    if i == 0 { 8 }
    else if i == 1 || i == 2 || i == 5 || i == 6 || i == 10 || i == 11 || i == 12 || i == 13
        || i == 16 || i == 17 || i == 19 || i == 26 { 1 }
    else if i == 18 || i == 20 { 4 }
    else if i == 22 { 8 }
    else { 2 }
}

/// Size and alignment of the radiotap field at bit `i`.
fn field_layout(i: usize) -> (r: (usize, usize))
    requires
        i < FIELD_COUNT,
    ensures
        r.0 == field_size(i as int),
        r.1 == field_align(i as int),
        r.1 >= 1,
{
    match i {
        0 => (8, 8),
        1 => (1, 1),
        2 => (1, 1),
        3 => (4, 2),
        4 => (2, 2),
        5 => (1, 1),
        6 => (1, 1),
        7 => (2, 2),
        8 => (2, 2),
        9 => (2, 2),
        10 => (1, 1),
        11 => (1, 1),
        12 => (1, 1),
        13 => (1, 1),
        14 => (2, 2),
        15 => (2, 2),
        16 => (1, 1),
        17 => (1, 1),
        18 => (8, 4),
        19 => (3, 1),
        20 => (8, 4),
        21 => (12, 2),
        22 => (12, 8),
        23 => (12, 2),
        24 => (12, 2),
        25 => (6, 2),
        26 => (1, 1),
        _ => (4, 2),
    }
}

/// Whether bit `i` of the present word is set.
pub open spec fn present_bit(present: u32, i: int) -> bool {
    present & (1u32 << (i as u32)) != 0u32
}

/// Whether the present word at `off` has bit 31 set: another present word follows.
pub open spec fn has_extension(s: Seq<u8>, off: int) -> bool {
    s[off + 3] & 0x80 != 0
}

/// Number of present words, from the one at offset 4 + 4 * `i` on, that announce another.
pub open spec fn extension_words(s: Seq<u8>, i: nat) -> nat
    decreases s.len() - (4 + 4 * i),
{
    if 8 + 4 * i <= s.len() && has_extension(s, (4 + 4 * i) as int) {
        extension_words(s, i + 1)
    } else {
        i
    }
}

/// Where the field data of header `s` starts: after the last present word.
pub open spec fn data_start(s: Seq<u8>) -> int {
    (8 + 4 * extension_words(s, 0)) as int
}

/// The present word that a walk over header `h` starts from: the base word, or none where the
/// fixed header is incomplete.
pub open spec fn start_present(h: Seq<u8>) -> u32 {
    if h.len() < 8 {
        0
    } else {
        le32(h.subrange(4, 8)) as u32
    }
}

/// The absolute offset at which a walk over header `h` reads its first field: right after the
/// last present word, or the end of `h` where the present words reach past it.
pub open spec fn start_offset(h: Seq<u8>) -> int {
    if h.len() < 8 || data_start(h) > h.len() {
        h.len() as int
    } else {
        data_start(h)
    }
}

/// The radiotap header at the start of buffer `s`: its first bytes, as many as its declared
/// length.
pub open spec fn declared_header(s: Seq<u8>) -> Seq<u8> {
    s.subrange(0, le16(s.subrange(2, 4)))
}

/// Bytes past the declared length of the header (the frame that follows it) change nothing
/// of the header that a walk reads.
pub proof fn lemma_header_ignores_trailing(b: Seq<u8>, x: Seq<u8>)
    requires
        b.len() >= 8,
        le16(b.subrange(2, 4)) <= b.len(),
    ensures
        declared_header(b + x) == declared_header(b),
{
    assert((b + x).subrange(2, 4) =~= b.subrange(2, 4));
    assert(declared_header(b + x) =~= declared_header(b));
}

/// One step of the walk over the fields: from bit `idx` and absolute offset `off`, the next
/// surfaced field (its bit and bytes), with the bit and offset after it.
///
/// A present field is preceded by `off % align` pad bytes. A field that would reach past the
/// end of `s` ends the walk.
pub open spec fn step(s: Seq<u8>, present: u32, idx: int, off: int) -> (Option<(int, Seq<u8>)>, int, int)
    decreases FIELD_COUNT - idx,
{
    if idx < 0 || idx >= FIELD_COUNT {
        (None, FIELD_COUNT as int, off)
    } else if !present_bit(present, idx) {
        step(s, present, idx + 1, off)
    } else {
        let start = off + off % field_align(idx);
        let end = start + field_size(idx);
        if end > s.len() {
            (None, FIELD_COUNT as int, off)
        } else if idx < SURFACED_FIELDS {
            (Some((idx, s.subrange(start, end))), idx + 1, end)
        } else {
            step(s, present, idx + 1, end)
        }
    }
}

/// A radiotap field, with its bytes.
#[derive(Debug)]
#[non_exhaustive]
pub enum Field<'a> {
    TSFT(&'a [u8]),
    Flags(&'a [u8]),
    Rate(&'a [u8]),
    Channel(&'a [u8]),
    FHSS(&'a [u8]),
    AntennaSignal(&'a [u8]),
}

impl<'a> View for Field<'a> {
    /// The field's bit in the present word, and its bytes.
    type V = (int, Seq<u8>);

    open spec fn view(&self) -> (int, Seq<u8>) {
        match self {
            Field::TSFT(b) => (0, b@),
            Field::Flags(b) => (1, b@),
            Field::Rate(b) => (2, b@),
            Field::Channel(b) => (3, b@),
            Field::FHSS(b) => (4, b@),
            Field::AntennaSignal(b) => (5, b@),
        }
    }
}

/// Walks the fields of one radiotap header.
#[derive(Debug)]
pub struct Iter<'a> {
    rtap: &'a [u8],
    offset: usize,
    present: u32,
    idx: usize,
}

impl<'a> Iter<'a> {
    /// The whole header, as the walk bounds it.
    pub closed spec fn bytes(&self) -> Seq<u8> {
        self.rtap@
    }

    /// The base present word.
    pub closed spec fn present(&self) -> u32 {
        self.present
    }

    /// The next bit to look at.
    pub closed spec fn idx(&self) -> int {
        self.idx as int
    }

    /// The absolute offset of the next field's data, from the start of the header.
    pub closed spec fn offset(&self) -> int {
        self.offset as int
    }

    pub closed spec fn wf(&self) -> bool {
        &&& self.idx <= FIELD_COUNT
        &&& self.offset <= self.rtap@.len() + 4
    }

    /// Starts a walk over the header `rtap`. Only the base present word selects fields; the
    /// extension words are skipped. A buffer shorter than the fixed header has no fields.
    pub fn new(rtap: &'a [u8]) -> (r: Self)
        ensures
            r.wf(),
            r.bytes() == rtap@,
            r.idx() == 0,
            r.present() == start_present(rtap@),
            r.offset() == start_offset(rtap@),
    {
        let len = rtap.len();
        if len < 8 {
            return Self { rtap, offset: len, present: 0, idx: 0 };
        }
        let mut count: usize = 0;
        while 4 * count <= len - 8 && rtap[4 + 4 * count + 3] & 0x80 != 0
            invariant
                len == rtap@.len(),
                len >= 8,
                4 + 4 * count <= len,
                extension_words(rtap@, count as nat) == extension_words(rtap@, 0),
            decreases len - 4 * count,
        {
            count += 1;
        }
        let word = match rtap.cast_ref::<4>(4) {
            Ok(w) => w,
            Err(_) => [0u8; 4],
        };
        let offset = if 4 * count <= len - 8 {
            8 + 4 * count
        } else {
            len
        };
        Self { rtap, offset, present: u32_from_le(word), idx: 0 }
    }

    /// The next surfaced field, as `step` gives it; `None` once the walk is over.
    pub fn next(&mut self) -> (r: Option<Field<'a>>)
        requires
            old(self).wf(),
        ensures
            final(self).wf(),
            final(self).bytes() == old(self).bytes(),
            final(self).present() == old(self).present(),
            ({
                let (item, idx, off) = step(
                    old(self).bytes(),
                    old(self).present(),
                    old(self).idx(),
                    old(self).offset(),
                );
                &&& final(self).idx() == idx
                &&& final(self).offset() == off
                &&& match item {
                    None => r.is_none(),
                    Some(f) => r.is_some() && r->0@ == f,
                }
            }),
    {
        let len = self.rtap.len();
        while self.idx < FIELD_COUNT
            invariant
                self.wf(),
                len == self.rtap@.len(),
                self.rtap == old(self).rtap,
                self.present == old(self).present,
                step(self.rtap@, self.present, self.idx as int, self.offset as int) == step(
                    old(self).rtap@,
                    old(self).present,
                    old(self).idx as int,
                    old(self).offset as int,
                ),
            decreases FIELD_COUNT - self.idx,
        {
            let idx = self.idx;
            if self.present & (1u32 << idx as u32) != 0 {
                let (size, align) = field_layout(idx);
                let pad = self.offset % align;
                if self.offset > len || pad > len - self.offset || len - self.offset - pad < size {
                    self.idx = FIELD_COUNT;
                    return None;
                }
                let start = self.offset + pad;
                let end = start + size;
                let bytes = slice_subrange(self.rtap, start, end);
                self.offset = end;
                self.idx = idx + 1;
                if idx == 0 {
                    return Some(Field::TSFT(bytes));
                } else if idx == 1 {
                    return Some(Field::Flags(bytes));
                } else if idx == 2 {
                    return Some(Field::Rate(bytes));
                } else if idx == 3 {
                    return Some(Field::Channel(bytes));
                } else if idx == 4 {
                    return Some(Field::FHSS(bytes));
                } else if idx == 5 {
                    return Some(Field::AntennaSignal(bytes));
                }
            } else {
                self.idx = idx + 1;
            }
        }
        None
    }
}

/// The radiotap header at the start of a capture buffer.
pub trait RadioTap: View<V = Seq<u8>> {
    /// The version byte; `OutOfBounds` where the fixed header is incomplete.
    fn version(&self) -> (r: Result<u8, OutOfBounds>)
        ensures
            match r {
                Ok(v) => self@.len() >= 8 && v == self@[0],
                Err(_) => self@.len() < 8,
            },
    ;

    /// The declared length of the whole header: the little-endian 16-bit value at offset 2.
    fn len(&self) -> (r: Result<usize, OutOfBounds>)
        ensures
            match r {
                Ok(n) => self@.len() >= 8 && n == le16(self@.subrange(2, 4)),
                Err(_) => self@.len() < 8,
            },
    ;

    /// A walk over the fields of the header, bounded by its declared length: it starts at
    /// bit 0, from the header's base present word and at the offset right after its last present
    /// word. `OutOfBounds` where the buffer is shorter than that length or than the fixed header.
    fn iter(&self) -> (r: Result<Iter<'_>, OutOfBounds>)
        ensures
            match r {
                Ok(it) => {
                    &&& self@.len() >= 8
                    &&& le16(self@.subrange(2, 4)) <= self@.len()
                    &&& it.wf()
                    &&& it.bytes() == declared_header(self@)
                    &&& it.idx() == 0
                    &&& it.present() == start_present(declared_header(self@))
                    &&& it.offset() == start_offset(declared_header(self@))
                },
                Err(_) => self@.len() < 8 || le16(self@.subrange(2, 4)) > self@.len(),
            },
    ;
}

impl RadioTap for [u8] {
    fn version(&self) -> (r: Result<u8, OutOfBounds>) {
        let header = self.cast_ref::<8>(0)?;
        Ok(header[0])
    }

    fn len(&self) -> (r: Result<usize, OutOfBounds>) {
        let header = self.cast_ref::<8>(0)?;
        let n = u16_from_le([header[2], header[3]]);
        Ok(n as usize)
    }

    fn iter(&self) -> (r: Result<Iter<'_>, OutOfBounds>) {
        let len = RadioTap::len(self)?;
        if len > self.len() {
            return Err(OutOfBounds);
        }
        Ok(Iter::new(slice_subrange(self, 0, len)))
    }
}

/// A typed conversion was applied to a field of another kind.
#[derive(Debug, Clone, Copy, PartialEq, Eq, Structural)]
pub struct InvalidField;

/// The two's-complement reading of a byte.
pub open spec fn signed8(b: u8) -> int {
    if b < 128 {
        b as int
    } else {
        b - 256
    }
}

/// Signal power at the antenna, in dBm.
#[derive(Debug, Clone, Copy)]
pub struct AntennaSignal(i8);

impl AntennaSignal {
    pub closed spec fn spec_dbm(&self) -> i8 {
        self.0
    }

    pub fn dbm(&self) -> (r: i8)
        ensures
            r == self.spec_dbm(),
    {
        self.0
    }

    /// Reads an antenna-signal field: one signed byte.
    pub fn try_from(value: Field<'_>) -> (r: Result<Self, InvalidField>)
        ensures
            match r {
                Ok(a) => value@.0 == 5 && value@.1.len() >= 1 && a.spec_dbm() == signed8(
                    value@.1[0],
                ),
                Err(_) => value@.0 != 5 || value@.1.len() < 1,
            },
    {
        match value {
            Field::AntennaSignal(bytes) => {
                if bytes.len() < 1 {
                    return Err(InvalidField);
                }
                let b = bytes[0];
                let v: i8 = if b < 128 {
                    b as i8
                } else {
                    (b as i16 - 256) as i8
                };
                Ok(AntennaSignal(v))
            },
            _ => Err(InvalidField),
        }
    }
}

/// Channel frequency and flags.
#[derive(Debug, Clone, Copy)]
pub struct Channel {
    frequency: u16,
    flags: u16,
}

impl Channel {
    pub closed spec fn spec_frequency(&self) -> u16 {
        self.frequency
    }

    pub closed spec fn spec_flags(&self) -> u16 {
        self.flags
    }

    pub fn frequency_mhz(&self) -> (r: u16)
        ensures
            r == self.spec_frequency(),
    {
        self.frequency
    }

    pub fn flags(&self) -> (r: u16)
        ensures
            r == self.spec_flags(),
    {
        self.flags
    }

    /// Reads a channel field: frequency in MHz, then flags, each 16 bits little-endian.
    pub fn try_from(value: Field<'_>) -> (r: Result<Self, InvalidField>)
        ensures
            match r {
                Ok(c) => {
                    &&& value@.0 == 3
                    &&& value@.1.len() >= 4
                    &&& c.spec_frequency() == le16(value@.1.subrange(0, 2))
                    &&& c.spec_flags() == le16(value@.1.subrange(2, 4))
                },
                Err(_) => value@.0 != 3 || value@.1.len() < 4,
            },
    {
        match value {
            Field::Channel(bytes) => {
                let b = match bytes.cast_ref::<4>(0) {
                    Ok(b) => b,
                    Err(_) => return Err(InvalidField),
                };
                Ok(Channel { frequency: u16_from_le([b[0], b[1]]), flags: u16_from_le([b[2], b[3]]) })
            },
            _ => Err(InvalidField),
        }
    }
}

} // verus!
