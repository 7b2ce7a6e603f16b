use vstd::array::array_fill_for_copy_types;
use vstd::prelude::*;
use vstd::string::StringExecFns;
use vstd::utf8::{decode_utf8, valid_utf8};

verus! {

/// A read or a cast would reach past the end of the buffer.
#[derive(Debug, Clone, Copy, PartialEq, Eq, Structural)]
pub struct OutOfBounds;

/// Little-endian value of two bytes.
pub open spec fn le16(b: Seq<u8>) -> int {
    b[0] as int + 256 * (b[1] as int)
}

/// Little-endian value of four bytes.
pub open spec fn le32(b: Seq<u8>) -> int {
    b[0] as int + 256 * (b[1] as int) + 65536 * (b[2] as int) + 16777216 * (b[3] as int)
}

/// The two's-complement reading of a 32-bit pattern.
pub open spec fn signed32(u: int) -> int {
    if u < 0x8000_0000 {
        u
    } else {
        u - 0x1_0000_0000
    }
}

/// Bounds-checked copy of a fixed-size value out of a byte buffer.
///
/// The copy is made byte by byte, so the buffer needs no particular alignment.
pub trait MemCast: View<V = Seq<u8>> {
    /// The `N` bytes at `offset`, or `OutOfBounds` where fewer than `N` bytes follow it.
    fn cast_ref<const N: usize>(&self, offset: usize) -> (r: Result<[u8; N], OutOfBounds>)
        ensures
            match r {
                Ok(a) => offset + N <= self@.len() && a@ == self@.subrange(
                    offset as int,
                    offset + N,
                ),
                Err(_) => offset + N > self@.len(),
            },
    ;
}

impl MemCast for [u8] {
    fn cast_ref<const N: usize>(&self, offset: usize) -> (r: Result<[u8; N], OutOfBounds>) {
        if offset > self.len() || self.len() - offset < N {
            return Err(OutOfBounds);
        }
        let mut a: [u8; N] = array_fill_for_copy_types(0u8);
        let mut i: usize = 0;
        while i < N
            invariant
                offset + N <= self@.len(),
                offset + N <= self.len(),
                i <= N,
                a@.len() == N,
                forall|j: int| 0 <= j < i ==> a@[j] == self@[offset + j],
            decreases N - i,
        {
            a[i] = self[offset + i];
            i += 1;
        }
        assert(a@ =~= self@.subrange(offset as int, offset + N));
        Ok(a)
    }
}

/// `u16::from_le_bytes`, for the byte order of the wire formats read here.
pub fn u16_from_le(b: [u8; 2]) -> (r: u16)
    ensures
        r as int == le16(b@),
{
    b[0] as u16 + (b[1] as u16) * 256
}

/// `u32::from_le_bytes`, for the byte order of the wire formats read here.
pub fn u32_from_le(b: [u8; 4]) -> (r: u32)
    ensures
        r as int == le32(b@),
{
    b[0] as u32 + (b[1] as u32) * 256 + (b[2] as u32) * 65536 + (b[3] as u32) * 16777216
}

/// `i32::from_le_bytes`: the two's-complement reading of four little-endian bytes.
pub fn i32_from_le(b: [u8; 4]) -> (r: i32)
    ensures
        r as int == signed32(le32(b@)),
{
    let u = u32_from_le(b);
    if u < 0x8000_0000 {
        u as i32
    } else {
        (u - 0x8000_0000) as i32 - 0x4000_0000 - 0x4000_0000
    }
}

/// Little-endian bytes of a 16-bit value.
pub open spec fn u16_bytes(v: int) -> Seq<u8> {
    seq![(v % 256) as u8, (v / 256 % 256) as u8]
}

/// Little-endian bytes of a 32-bit value.
pub open spec fn u32_bytes(v: int) -> Seq<u8> {
    seq![(v % 256) as u8, (v / 256 % 256) as u8, (v / 65536 % 256) as u8, (v / 16777216 % 256) as u8]
}

/// Little-endian bytes of a `u16`.
pub fn u16_to_le(v: u16) -> (r: [u8; 2])
    ensures
        r@ == u16_bytes(v as int),
        le16(r@) == v,
{
    let r = [(v % 256) as u8, (v / 256) as u8];
    assert(r@ =~= u16_bytes(v as int));
    r
}

/// Little-endian bytes of a `u32`.
pub fn u32_to_le(v: u32) -> (r: [u8; 4])
    ensures
        r@ == u32_bytes(v as int),
        le32(r@) == v,
{
    let r = [(v % 256) as u8, (v / 256 % 256) as u8, (v / 65536 % 256) as u8, (v / 16777216) as u8];
    assert(r@ =~= u32_bytes(v as int));
    r
}

/// Relies on `std::str::from_utf8`: it accepts exactly the byte strings that are valid UTF-8,
/// and the text it then gives is the one they encode.
#[verifier::external_body]
pub(crate) fn utf8_text(b: &[u8]) -> (r: Option<String>)
    ensures
        match r {
            Some(t) => valid_utf8(b@) && t@ == decode_utf8(b@),
            None => !valid_utf8(b@),
        },
{
    match std::str::from_utf8(b) {
        Ok(t) => Some(t.to_owned()),
        Err(_) => None,
    }
}

/// The decimal digit `d`.
pub open spec fn digit_char(d: int) -> char {
    (('0' as u8) + d) as char
}

/// The decimal form of `n`, without leading zeros.
pub open spec fn decimal(n: nat) -> Seq<char>
    decreases n,
{
    if n < 10 {
        seq![digit_char(n as int)]
    } else {
        decimal(n / 10) + seq![digit_char((n % 10) as int)]
    }
}

/// The decimal form of `v`, with a minus sign where it is negative.
pub open spec fn signed_decimal(v: int) -> Seq<char> {
    if v < 0 {
        seq!['-'] + decimal((-v) as nat)
    } else {
        decimal(v as nat)
    }
}

fn digit_str(d: u32) -> (r: &'static str)
    requires
        d < 10,
    ensures
        r@ == seq![digit_char(d as int)],
{
    proof {
        reveal_strlit("0");
        reveal_strlit("1");
        reveal_strlit("2");
        reveal_strlit("3");
        reveal_strlit("4");
        reveal_strlit("5");
        reveal_strlit("6");
        reveal_strlit("7");
        reveal_strlit("8");
        reveal_strlit("9");
    }
    match d {
        0 => "0",
        1 => "1",
        2 => "2",
        3 => "3",
        4 => "4",
        5 => "5",
        6 => "6",
        7 => "7",
        8 => "8",
        _ => "9",
    }
}

/// Appends the decimal form of `n`.
pub fn push_decimal(t: &mut String, n: u32)
    ensures
        final(t)@ == old(t)@ + decimal(n as nat),
    decreases n,
{
    if n >= 10 {
        push_decimal(t, n / 10);
    }
    t.append(digit_str(n % 10));
    assert(final(t)@ =~= old(t)@ + decimal(n as nat));
}

/// Appends the decimal form of `v`, with a minus sign where it is negative.
pub fn push_signed_decimal(t: &mut String, v: i32)
    ensures
        final(t)@ == old(t)@ + signed_decimal(v as int),
{
    if v < 0 {
        let minus = "-";
        proof {
            reveal_strlit("-");
        }
        t.append(minus);
        let m: i64 = -(v as i64);
        push_decimal(t, m as u32);
    } else {
        push_decimal(t, v as u32);
    }
    assert(t@ =~= old(t)@ + signed_decimal(v as int));
}

/// The list form of bytes: their decimal values, separated by `", "`, in square brackets.
pub open spec fn byte_list_text(b: Seq<u8>) -> Seq<char> {
    seq!['['] + byte_items_text(b, b.len() as int) + seq![']']
}

/// The decimal values of the first `n` bytes, separated by `", "`.
pub open spec fn byte_items_text(b: Seq<u8>, n: int) -> Seq<char>
    decreases n,
{
    if n <= 0 {
        Seq::empty()
    } else if n == 1 {
        decimal(b[0] as nat)
    } else {
        byte_items_text(b, n - 1) + seq![',', ' '] + decimal(b[n - 1] as nat)
    }
}

/// How bytes are shown: the text they encode in double quotes where they are valid UTF-8, their
/// list form otherwise.
pub open spec fn shown_text(b: Seq<u8>) -> Seq<char> {
    if valid_utf8(b) {
        seq!['"'] + decode_utf8(b) + seq!['"']
    } else {
        byte_list_text(b)
    }
}

/// Raw bytes as they are shown: as text where they are valid UTF-8, as bytes otherwise.
pub struct BytesDisplay<'a>(&'a [u8]);

impl<'a> BytesDisplay<'a> {
    pub fn from(v: &'a [u8]) -> (r: Self)
        ensures
            r.spec_bytes() == v@,
    {
        BytesDisplay(v)
    }

    pub closed spec fn spec_bytes(&self) -> Seq<u8> {
        self.0@
    }

    pub fn bytes(&self) -> (r: &'a [u8])
        ensures
            r@ == self.spec_bytes(),
    {
        self.0
    }

    /// The text the bytes encode, or `None` where they are not valid UTF-8.
    pub fn text(&self) -> (r: Option<String>)
        ensures
            match r {
                Some(t) => valid_utf8(self.spec_bytes()) && t@ == decode_utf8(self.spec_bytes()),
                None => !valid_utf8(self.spec_bytes()),
            },
    {
        utf8_text(self.0)
    }

    /// The bytes as they are shown: quoted text where they are valid UTF-8, their list form
    /// otherwise.
    pub fn to_text(&self) -> (r: String)
        ensures
            r@ == shown_text(self.spec_bytes()),
    {
        match self.text() {
            Some(body) => {
                let quote = "\"";
                proof {
                    reveal_strlit("\"");
                }
                let mut t = String::new();
                t.append(quote);
                t.append(body.as_str());
                t.append(quote);
                assert(t@ =~= shown_text(self.spec_bytes()));
                t
            },
            None => {
                let open = "[";
                let sep = ", ";
                let close = "]";
                proof {
                    reveal_strlit("[");
                    reveal_strlit(", ");
                    reveal_strlit("]");
                }
                assert(sep@ =~= seq![',', ' ']);
                let mut t = String::new();
                t.append(open);
                let b = self.0;
                let mut i: usize = 0;
                while i < b.len()
                    invariant
                        i <= b@.len(),
                        b@ == self.spec_bytes(),
                        sep@ == seq![',', ' '],
                        t@ == seq!['['] + byte_items_text(b@, i as int),
                    decreases b@.len() - i,
                {
                    let ghost prev = t@;
                    if i > 0 {
                        t.append(sep);
                    }
                    let ghost mid = t@;
                    push_decimal(&mut t, b[i] as u32);
                    assert(t@ == mid + decimal(b@[i as int] as nat));
                    if i > 0 {
                        assert(mid =~= prev + seq![',', ' ']);
                    } else {
                        assert(mid == prev);
                    }
                    assert(t@ =~= seq!['['] + byte_items_text(b@, i + 1));
                    i += 1;
                }
                t.append(close);
                assert(t@ =~= shown_text(self.spec_bytes()));
                t
            },
        }
    }
}


} // verus!
