use crate::bytes::{
    i32_from_le, le16, le32, signed32, u16_bytes, u16_from_le, u16_to_le, u32_bytes, u32_from_le,
    u32_to_le, utf8_text, MemCast, OutOfBounds,
};
use vstd::prelude::*;
use vstd::slice::slice_subrange;
use vstd::string::StringSliceAdditionalSpecFns;
use vstd::utf8::{decode_utf8, encode_utf8, encode_utf8_decode_utf8, encode_utf8_valid_utf8, valid_utf8};

verus! {

/// The nl80211 command that reads an interface.
pub const CMD_GET_INTERFACE: u8 = 5;

/// The netlink type of a kernel error reply.
pub const ERROR_TYPE: u16 = 2;

/// The generic-netlink controller's family id, request flag and get-family command.
pub const CTRL_FAMILY_ID: u16 = 0x10;

pub const REQUEST_FLAG: u16 = 1;

pub const CTRL_GET_FAMILY: u8 = 3;

/// Relies on `libc::NLMSG_ERROR`: the message type of a kernel error reply.
#[verifier::external_body]
fn nlmsg_error() -> (r: u16)
    ensures
        r == ERROR_TYPE,
{
    libc::NLMSG_ERROR as u16
}

/// Relies on `libc::GENL_ID_CTRL`: the family id of the generic-netlink controller.
#[verifier::external_body]
fn genl_id_ctrl() -> (r: u16)
    ensures
        r == CTRL_FAMILY_ID,
{
    libc::GENL_ID_CTRL as u16
}

/// Relies on `libc::NLM_F_REQUEST`: the flag that marks a request.
#[verifier::external_body]
fn nlm_f_request() -> (r: u16)
    ensures
        r == REQUEST_FLAG,
{
    libc::NLM_F_REQUEST as u16
}

/// Relies on `libc::CTRL_CMD_GETFAMILY`: the controller command that looks a family up.
#[verifier::external_body]
fn ctrl_cmd_getfamily() -> (r: u8)
    ensures
        r == CTRL_GET_FAMILY,
{
    libc::CTRL_CMD_GETFAMILY as u8
}

/// Size of the netlink message header.
pub const MSG_HEADER_SIZE: usize = 16;

/// Size of the netlink header and the generic-netlink header together.
pub const GENL_HEADER_SIZE: usize = 20;

/// Size of an attribute's length and type.
pub const ATTR_HEADER_SIZE: usize = 4;

/// `n` rounded up to the next multiple of four.
pub open spec fn align4(n: int) -> int {
    (n + 3) / 4 * 4
}

/// The wire form of one attribute: its length (header and payload, without padding), its
/// type, its payload, then zero bytes up to a multiple of four.
pub open spec fn attr_bytes(ty: u16, data: Seq<u8>) -> Seq<u8> {
    let len = 4 + data.len() as int;
    u16_bytes(len) + u16_bytes(ty as int) + data + Seq::new((align4(len) - len) as nat, |i: int| 0u8)
}

/// A whole generic-netlink message: the netlink header (length, type, flags, sequence,
/// port id), the generic header (command, version, two reserved bytes), then the attributes.
pub open spec fn message(ty: u16, flags: u16, seq: u32, pid: u32, cmd: u8, version: u8, attrs: Seq<u8>) -> Seq<u8> {
    u32_bytes(20 + attrs.len() as int) + u16_bytes(ty as int) + u16_bytes(flags as int) + u32_bytes(seq as int)
        + u32_bytes(pid as int) + seq![cmd, version, 0u8, 0u8] + attrs
}

/// The length field of message `s`.
pub open spec fn declared_len(s: Seq<u8>) -> int {
    le32(s.subrange(0, 4))
}

/// The type field of message `s`.
pub open spec fn message_type(s: Seq<u8>) -> int {
    le16(s.subrange(4, 6))
}

/// `s` with its length field set to `n`.
pub open spec fn with_len(s: Seq<u8>, n: int) -> Seq<u8> {
    u32_bytes(n) + s.skip(4)
}

fn push_u16(buf: &mut Vec<u8>, v: u16)
    ensures
        final(buf)@ == old(buf)@ + u16_bytes(v as int),
{
    let b = u16_to_le(v);
    buf.push(b[0]);
    buf.push(b[1]);
    assert(buf@ =~= old(buf)@ + u16_bytes(v as int));
}

fn push_u32(buf: &mut Vec<u8>, v: u32)
    ensures
        final(buf)@ == old(buf)@ + u32_bytes(v as int),
{
    let b = u32_to_le(v);
    buf.push(b[0]);
    buf.push(b[1]);
    buf.push(b[2]);
    buf.push(b[3]);
    assert(buf@ =~= old(buf)@ + u32_bytes(v as int));
}

/// `s` with `d` written over it from offset `off` on; where `d` reaches past the end of `s`,
/// `s` grows. The bytes of `s` before `off` and past the written ones stay as they were.
pub open spec fn overwrite(s: Seq<u8>, off: int, d: Seq<u8>) -> Seq<u8> {
    s.subrange(0, off) + d + if off + d.len() < s.len() {
        s.skip(off + d.len())
    } else {
        Seq::empty()
    }
}

/// Writes `data` into `buf` from offset `off` on, growing `buf` where it is too short.
fn write_at(buf: &mut Vec<u8>, off: usize, data: &[u8])
    requires
        off <= old(buf)@.len(),
    ensures
        final(buf)@ == overwrite(old(buf)@, off as int, data@),
{
    let mut i: usize = 0;
    while i < data.len()
        invariant
            off <= old(buf)@.len(),
            off <= buf@.len(),
            i <= data@.len(),
            buf@ == overwrite(old(buf)@, off as int, data@.subrange(0, i as int)),
        decreases data@.len() - i,
    {
        if i < buf.len() - off {
            buf.set(off + i, data[i]);
        } else {
            buf.push(data[i]);
        }
        i += 1;
        assert(buf@ =~= overwrite(old(buf)@, off as int, data@.subrange(0, i as int)));
    }
    assert(data@.subrange(0, i as int) =~= data@);
}

/// Starts a message in `buf`: the netlink header, with a length that covers the two headers,
/// and the generic header, written over the first 20 bytes. Bytes past them stay as they
/// were; a buffer shorter than the headers grows to hold them.
pub fn create(buf: &mut Vec<u8>, ty: u16, flags: u16, seq: u32, pid: u32, cmd: u8, version: u8)
    ensures
        final(buf)@ == overwrite(
            old(buf)@,
            0,
            message(ty, flags, seq, pid, cmd, version, Seq::empty()),
        ),
{
    let mut h: Vec<u8> = Vec::new();
    push_u32(&mut h, GENL_HEADER_SIZE as u32);
    push_u16(&mut h, ty);
    push_u16(&mut h, flags);
    push_u32(&mut h, seq);
    push_u32(&mut h, pid);
    h.push(cmd);
    h.push(version);
    h.push(0);
    h.push(0);
    assert(h@ =~= message(ty, flags, seq, pid, cmd, version, Seq::empty()));
    write_at(buf, 0, h.as_slice());
}

/// Whether an attribute with a payload of `n` bytes can be appended to message `s`: the two
/// headers are there, the length field lies between their size and the buffer's, and the new
/// lengths fit their 16-bit and 32-bit fields.
pub open spec fn attr_fits(s: Seq<u8>, n: int) -> bool {
    &&& s.len() >= 20
    &&& 20 <= declared_len(s) <= s.len()
    &&& 4 + n <= 0xffff
    &&& declared_len(s) + align4(4 + n) <= 0xffff_ffff
}

fn push_bytes(buf: &mut Vec<u8>, data: &[u8])
    ensures
        final(buf)@ == old(buf)@ + data@,
{
    let mut i: usize = 0;
    while i < data.len()
        invariant
            i <= data@.len(),
            buf@ == old(buf)@ + data@.subrange(0, i as int),
        decreases data@.len() - i,
    {
        buf.push(data[i]);
        i += 1;
        assert(buf@ =~= old(buf)@ + data@.subrange(0, i as int));
    }
    assert(data@.subrange(0, i as int) =~= data@);
}

fn push_zeros(buf: &mut Vec<u8>, n: usize)
    ensures
        final(buf)@ == old(buf)@ + Seq::new(n as nat, |k: int| 0u8),
{
    let mut j: usize = 0;
    while j < n
        invariant
            j <= n,
            buf@ == old(buf)@ + Seq::new(j as nat, |k: int| 0u8),
        decreases n - j,
    {
        buf.push(0);
        j += 1;
        assert(buf@ =~= old(buf)@ + Seq::new(j as nat, |k: int| 0u8));
    }
}

/// Writes `n` into the length field of the message in `buf`.
fn set_len(buf: &mut Vec<u8>, n: u32)
    requires
        old(buf)@.len() >= 4,
    ensures
        final(buf)@ == with_len(old(buf)@, n as int),
{
    let b = u32_to_le(n);
    buf.set(0, b[0]);
    buf.set(1, b[1]);
    buf.set(2, b[2]);
    buf.set(3, b[3]);
    assert(buf@ =~= with_len(old(buf)@, n as int));
}

/// Writes an attribute at the end of the message that `buf` holds, as its length field marks
/// it, pads it with zero bytes to a multiple of four and adds the padded size to the length
/// field. Bytes past the new end stay as they were; `buf` grows where it is too short.
pub fn put_attr(buf: &mut Vec<u8>, ty: u16, data: &[u8]) -> (r: Result<(), OutOfBounds>)
    ensures
        r.is_ok() == attr_fits(old(buf)@, data@.len() as int),
        r.is_ok() ==> final(buf)@ == with_len(
            overwrite(old(buf)@, declared_len(old(buf)@), attr_bytes(ty, data@)),
            declared_len(old(buf)@) + align4(4 + data@.len() as int),
        ),
        r.is_err() ==> final(buf)@ == old(buf)@,
{
    if buf.len() < GENL_HEADER_SIZE {
        return Err(OutOfBounds);
    }
    let msg_len = u32_from_le([buf[0], buf[1], buf[2], buf[3]]);
    assert(buf@.subrange(0, 4) =~= seq![buf@[0], buf@[1], buf@[2], buf@[3]]);
    if (msg_len as usize) < GENL_HEADER_SIZE || msg_len as usize > buf.len() {
        return Err(OutOfBounds);
    }
    if data.len() > 0xffff - ATTR_HEADER_SIZE {
        return Err(OutOfBounds);
    }
    let len = ATTR_HEADER_SIZE + data.len();
    let pad_len = (len + 3) / 4 * 4;
    assert(pad_len == align4(len as int));
    if pad_len as u32 > 0xffff_ffff - msg_len {
        return Err(OutOfBounds);
    }
    let mut attr: Vec<u8> = Vec::new();
    push_u16(&mut attr, len as u16);
    push_u16(&mut attr, ty);
    push_bytes(&mut attr, data);
    push_zeros(&mut attr, pad_len - len);
    assert(attr@ =~= attr_bytes(ty, data@));
    write_at(buf, msg_len as usize, attr.as_slice());
    set_len(buf, msg_len + pad_len as u32);
    Ok(())
}

/// An attribute of `data.len()` payload bytes takes `4 + data.len()` bytes as its length field
/// says, and that rounded up to the next multiple of four on the wire, the padding being zero
/// bytes.
pub proof fn lemma_attr_padding(ty: u16, data: Seq<u8>)
    requires
        4 + data.len() <= 0xffff,
    ensures
        le16(attr_bytes(ty, data).subrange(0, 2)) == 4 + data.len(),
        attr_bytes(ty, data).len() == align4(4 + data.len() as int),
        attr_bytes(ty, data).len() % 4 == 0,
        4 + data.len() <= attr_bytes(ty, data).len() < 4 + data.len() + 4,
        forall|i: int|
            4 + data.len() <= i < attr_bytes(ty, data).len() ==> #[trigger] attr_bytes(ty, data)[i]
                == 0,
{
    let a = attr_bytes(ty, data);
    let n = 4 + data.len() as int;
    assert(a.subrange(0, 2) =~= u16_bytes(n));
    assert forall|i: int| n <= i < a.len() implies #[trigger] a[i] == 0 by {
        assert(a[i] == Seq::new((align4(n) - n) as nat, |k: int| 0u8)[i - n]);
    }
}

/// The netlink message header.
#[derive(Debug, Clone, Copy, PartialEq, Eq, Structural)]
pub struct MsgHeader {
    pub len: u32,
    pub msg_type: u16,
    pub flags: u16,
    pub seq: u32,
    pub pid: u32,
}

/// The generic-netlink header.
#[derive(Debug, Clone, Copy, PartialEq, Eq, Structural)]
pub struct GenericHeader {
    pub cmd: u8,
    pub version: u8,
    pub reserved: u16,
}

/// Reads the netlink header at the start of `msg`.
pub fn header(msg: &[u8]) -> (r: Result<MsgHeader, OutOfBounds>)
    ensures
        match r {
            Ok(h) => {
                &&& msg@.len() >= 16
                &&& h.len == declared_len(msg@)
                &&& h.msg_type == message_type(msg@)
                &&& h.flags == le16(msg@.subrange(6, 8))
                &&& h.seq == le32(msg@.subrange(8, 12))
                &&& h.pid == le32(msg@.subrange(12, 16))
            },
            Err(_) => msg@.len() < 16,
        },
{
    let len = msg.cast_ref::<4>(0)?;
    let ty = msg.cast_ref::<2>(4)?;
    let flags = msg.cast_ref::<2>(6)?;
    let seq = msg.cast_ref::<4>(8)?;
    let pid = msg.cast_ref::<4>(12)?;
    Ok(
        MsgHeader {
            len: u32_from_le(len),
            msg_type: u16_from_le(ty),
            flags: u16_from_le(flags),
            seq: u32_from_le(seq),
            pid: u32_from_le(pid),
        },
    )
}

/// Reads the generic-netlink header that follows the netlink header.
pub fn generic_header(msg: &[u8]) -> (r: Result<GenericHeader, OutOfBounds>)
    ensures
        match r {
            Ok(h) => {
                &&& msg@.len() >= 20
                &&& h.cmd == msg@[16]
                &&& h.version == msg@[17]
                &&& h.reserved == le16(msg@.subrange(18, 20))
            },
            Err(_) => msg@.len() < 20,
        },
{
    let b = msg.cast_ref::<4>(16)?;
    Ok(GenericHeader { cmd: b[0], version: b[1], reserved: u16_from_le([b[2], b[3]]) })
}

/// The attribute at the front of `s` and how far iteration moves past it (its padded size, or
/// what is left where the padding is cut off), or `None` where fewer than four bytes are left
/// or the declared length is below the attribute header or past the end.
pub open spec fn first_attr(s: Seq<u8>) -> Option<((u16, Seq<u8>), int)> {
    if s.len() < 4 {
        None
    } else {
        let len = le16(s.subrange(0, 2));
        if len < 4 || len > s.len() {
            None
        } else {
            let adv = if align4(len) <= s.len() {
                align4(len)
            } else {
                s.len() as int
            };
            Some(((le16(s.subrange(2, 4)) as u16, s.subrange(4, len)), adv))
        }
    }
}

/// Every attribute that iteration over `s` yields, as type and payload, in order.
pub open spec fn attr_list(s: Seq<u8>) -> Seq<(u16, Seq<u8>)>
    decreases s.len(),
{
    match first_attr(s) {
        None => Seq::empty(),
        Some((a, n)) => if 0 < n <= s.len() {
            seq![a] + attr_list(s.skip(n))
        } else {
            Seq::empty()
        },
    }
}

/// Fewer than four bytes left, or a declared length past the end: iteration yields nothing.
pub proof fn lemma_truncated_attrs_yield_nothing(s: Seq<u8>)
    requires
        s.len() < 4 || le16(s.subrange(0, 2)) > s.len(),
    ensures
        attr_list(s).len() == 0,
{
}

/// Each attribute takes at least four bytes, so iteration ends after at most a quarter as many
/// steps as there are bytes.
pub proof fn lemma_attrs_bounded(s: Seq<u8>)
    ensures
        4 * attr_list(s).len() <= s.len(),
    decreases s.len(),
{
    match first_attr(s) {
        None => {},
        Some((a, n)) => {
            lemma_attrs_bounded(s.skip(n));
        },
    }
}

proof fn lemma_le16_u16_bytes(v: u16)
    ensures
        le16(u16_bytes(v as int)) == v,
{
}

/// An appended attribute reads back as it was written: iteration over its wire form, followed
/// by anything, yields its type and payload first, then what the rest yields.
pub proof fn lemma_attr_round_trip(ty: u16, data: Seq<u8>, rest: Seq<u8>)
    requires
        4 + data.len() <= 0xffff,
    ensures
        attr_list(attr_bytes(ty, data) + rest) == seq![(ty, data)] + attr_list(rest),
{
    let a = attr_bytes(ty, data);
    let s = a + rest;
    let n = 4 + data.len() as int;
    lemma_attr_padding(ty, data);
    lemma_le16_u16_bytes(n as u16);
    lemma_le16_u16_bytes(ty);
    assert(s.subrange(0, 2) =~= u16_bytes(n));
    assert(s.subrange(2, 4) =~= u16_bytes(ty as int));
    assert(s.subrange(4, n) =~= data);
    assert(s.skip(align4(n)) =~= rest);
}

/// Walks the flat attribute list of a message.
pub struct AttrIter<'a>(&'a [u8]);

impl<'a> View for AttrIter<'a> {
    type V = Seq<u8>;

    /// The bytes that are still to be walked.
    closed spec fn view(&self) -> Seq<u8> {
        self.0@
    }
}

impl<'a> AttrIter<'a> {
    pub fn new(buf: &'a [u8]) -> (r: Self)
        ensures
            r@ == buf@,
    {
        AttrIter(buf)
    }

    /// Yields the type and payload of the attribute at the front and moves past it and its
    /// padding; once no complete attribute is left, yields `None` and stays where it is.
    pub fn next(&mut self) -> (r: Option<(u16, &'a [u8])>)
        ensures
            match first_attr(old(self)@) {
                None => r.is_none() && final(self)@ == old(self)@,
                Some((a, n)) => {
                    &&& final(self)@ == old(self)@.skip(n)
                    &&& match r {
                        Some((ty, data)) => ty == a.0 && data@ == a.1,
                        None => false,
                    }
                },
            },
    {
        let buf = self.0;
        let total = buf.len();
        if total < ATTR_HEADER_SIZE {
            return None;
        }
        let len = u16_from_le([buf[0], buf[1]]) as usize;
        let ty = u16_from_le([buf[2], buf[3]]);
        assert(buf@.subrange(0, 2) =~= seq![buf@[0], buf@[1]]);
        assert(buf@.subrange(2, 4) =~= seq![buf@[2], buf@[3]]);
        if len < ATTR_HEADER_SIZE || len > total {
            return None;
        }
        let data = slice_subrange(buf, ATTR_HEADER_SIZE, len);
        let pad_len = (len + 3) / 4 * 4;
        let adv = if pad_len <= total {
            pad_len
        } else {
            total
        };
        self.0 = slice_subrange(buf, adv, total);
        Some((ty, data))
    }
}

/// The attributes of message `msg`: the bytes from the end of the two headers to the end its
/// length field declares. `OutOfBounds` where the headers are incomplete or that declared end
/// lies before them or past the buffer.
pub fn attrs(msg: &[u8]) -> (r: Result<AttrIter<'_>, OutOfBounds>)
    ensures
        match r {
            Ok(it) => {
                &&& msg@.len() >= 20
                &&& 20 <= declared_len(msg@) <= msg@.len()
                &&& it@ == msg@.subrange(20, declared_len(msg@))
            },
            Err(_) => msg@.len() < 20 || declared_len(msg@) < 20 || declared_len(msg@) > msg@.len(),
        },
{
    if msg.len() < GENL_HEADER_SIZE {
        return Err(OutOfBounds);
    }
    let h = header(msg)?;
    let msg_len = h.len as usize;
    if msg_len < GENL_HEADER_SIZE || msg_len > msg.len() {
        return Err(OutOfBounds);
    }
    Ok(AttrIter::new(slice_subrange(msg, GENL_HEADER_SIZE, msg_len)))
}

/// The code of a kernel error reply, which follows the netlink header.
pub open spec fn error_code_of(s: Seq<u8>) -> i32 {
    signed32(le32(s.subrange(16, 20))) as i32
}

/// `Some` error code where `msg` is a kernel error reply, `None` where it is another message.
pub fn error_code(msg: &[u8]) -> (r: Result<Option<i32>, OutOfBounds>)
    ensures
        match r {
            Ok(None) => msg@.len() >= 16 && message_type(msg@) != ERROR_TYPE,
            Ok(Some(c)) => msg@.len() >= 20 && message_type(msg@) == ERROR_TYPE && c == error_code_of(msg@),
            Err(_) => msg@.len() < 16 || (message_type(msg@) == ERROR_TYPE && msg@.len() < 20),
        },
{
    let h = header(msg)?;
    if h.msg_type == nlmsg_error() {
        let code = msg.cast_ref::<4>(MSG_HEADER_SIZE)?;
        Ok(Some(i32_from_le(code)))
    } else {
        Ok(None)
    }
}

/// Why a reply could not be turned into a value.
#[derive(Debug, Clone, Copy, PartialEq, Eq, Structural)]
pub enum ReplyError {
    /// The reply is shorter than its headers, or its declared length lies past its end.
    OutOfBounds,
    /// The kernel rejected the request with this code.
    Netlink(i32),
    /// A known attribute holds a payload that does not decode.
    Malformed,
}

/// Fails with the kernel's code where `reply` is an error reply.
pub fn check_error(reply: &[u8]) -> (r: Result<(), ReplyError>)
    ensures
        match r {
            Ok(()) => reply@.len() >= 16 && message_type(reply@) != ERROR_TYPE,
            Err(ReplyError::Netlink(c)) => reply@.len() >= 20 && message_type(reply@) == ERROR_TYPE && c
                == error_code_of(reply@),
            Err(ReplyError::OutOfBounds) => reply@.len() < 16 || (message_type(reply@) == ERROR_TYPE
                && reply@.len() < 20),
            Err(ReplyError::Malformed) => false,
        },
{
    match error_code(reply) {
        Ok(None) => Ok(()),
        Ok(Some(c)) => Err(ReplyError::Netlink(c)),
        Err(_) => Err(ReplyError::OutOfBounds),
    }
}

/// A 16-bit payload: its first two bytes, little-endian.
pub open spec fn u16_attr(d: Seq<u8>) -> Option<u16> {
    if d.len() >= 2 {
        Some(le16(d.subrange(0, 2)) as u16)
    } else {
        None
    }
}

/// A 32-bit payload: its first four bytes, little-endian.
pub open spec fn u32_attr(d: Seq<u8>) -> Option<u32> {
    if d.len() >= 4 {
        Some(le32(d.subrange(0, 4)) as u32)
    } else {
        None
    }
}

/// Index of the first zero byte of `d`, or its length where it has none.
pub open spec fn first_nul(d: Seq<u8>) -> int
    decreases d.len(),
{
    if d.len() == 0 {
        0
    } else if d[0] == 0 {
        0
    } else {
        1 + first_nul(d.skip(1))
    }
}

/// A string payload: the UTF-8 text before the first zero byte; `None` where there is no zero
/// byte or the text is not valid UTF-8.
pub open spec fn text_attr(d: Seq<u8>) -> Option<Seq<char>> {
    let n = first_nul(d);
    if n < d.len() && valid_utf8(d.subrange(0, n)) {
        Some(decode_utf8(d.subrange(0, n)))
    } else {
        None
    }
}

fn read_u16_attr(d: &[u8]) -> (r: Option<u16>)
    ensures
        r == u16_attr(d@),
{
    match d.cast_ref::<2>(0) {
        Ok(b) => Some(u16_from_le(b)),
        Err(_) => None,
    }
}

fn read_u32_attr(d: &[u8]) -> (r: Option<u32>)
    ensures
        r == u32_attr(d@),
{
    match d.cast_ref::<4>(0) {
        Ok(b) => Some(u32_from_le(b)),
        Err(_) => None,
    }
}

fn read_text_attr(d: &[u8]) -> (r: Option<String>)
    ensures
        match r {
            Some(t) => text_attr(d@) == Some(t@),
            None => text_attr(d@).is_none(),
        },
{
    let mut i: usize = 0;
    assert(d@.skip(0) =~= d@);
    while i < d.len() && d[i] != 0
        invariant
            i <= d@.len(),
            first_nul(d@) == i + first_nul(d@.skip(i as int)),
        decreases d@.len() - i,
    {
        assert(d@.skip(i as int).skip(1) =~= d@.skip(i + 1));
        i += 1;
    }
    if i == d.len() {
        return None;
    }
    utf8_text(slice_subrange(d, 0, i))
}

/// A resolved generic-netlink family.
#[derive(Debug)]
pub struct Family {
    id: u16,
    name: String,
    version: u32,
}

/// Family id, name and version, as plain values.
pub type FamilyModel = (u16, Seq<char>, u32);

/// Takes one attribute of a family reply into account; `None` stays `None`.
pub open spec fn family_step(acc: Option<FamilyModel>, a: (u16, Seq<u8>)) -> Option<FamilyModel> {
    match acc {
        None => None,
        Some((id, name, version)) => if a.0 == 1 {
            match u16_attr(a.1) {
                Some(v) => Some((v, name, version)),
                None => None,
            }
        } else if a.0 == 2 {
            match text_attr(a.1) {
                Some(t) => Some((id, t, version)),
                None => None,
            }
        } else if a.0 == 3 {
            match u32_attr(a.1) {
                Some(v) => Some((id, name, v)),
                None => None,
            }
        } else {
            acc
        },
    }
}

/// The family that a list of attributes describes, the later of two equal attributes
/// winning and unknown ones ignored, from id 0, an empty name and version 0; `None` where a
/// known attribute does not decode.
pub open spec fn decode_family(attrs: Seq<(u16, Seq<u8>)>) -> Option<FamilyModel>
    decreases attrs.len(),
{
    if attrs.len() == 0 {
        Some((0, Seq::empty(), 0))
    } else {
        family_step(decode_family(attrs.drop_last()), attrs.last())
    }
}

impl View for Family {
    type V = FamilyModel;

    closed spec fn view(&self) -> FamilyModel {
        (self.id, self.name@, self.version)
    }
}

impl Family {
    pub const ATTR_ID: u16 = 1;
    pub const ATTR_NAME: u16 = 2;
    pub const ATTR_VERSION: u16 = 3;

    pub fn id(&self) -> (r: u16)
        ensures
            r == self@.0,
    {
        self.id
    }

    pub fn name(&self) -> (r: &str)
        ensures
            r@ == self@.1,
    {
        self.name.as_str()
    }

    pub fn version(&self) -> (r: u32)
        ensures
            r == self@.2,
    {
        self.version
    }

    /// Decodes the attributes of a family reply.
    pub fn from_attrs(iter: AttrIter<'_>) -> (r: Result<Family, ReplyError>)
        ensures
            match r {
                Ok(f) => decode_family(attr_list(iter@)) == Some(f@),
                Err(e) => e == ReplyError::Malformed && decode_family(attr_list(iter@)).is_none(),
            },
    {
        let mut it = iter;
        let ghost seen: Seq<(u16, Seq<u8>)> = Seq::empty();
        let mut ok = true;
        let mut family = Family { id: 0, name: String::new(), version: 0 };
        assert(seen.len() == 0);
        loop
            invariant
                attr_list(iter@) == seen + attr_list(it@),
                ok ==> decode_family(seen) == Some(family@),
                !ok ==> decode_family(seen).is_none(),
            ensures
                attr_list(iter@) == seen,
                ok ==> decode_family(seen) == Some(family@),
                !ok ==> decode_family(seen).is_none(),
            decreases it@.len(),
        {
            let ghost before = it@;
            match it.next() {
                None => {
                    assert(seen + attr_list(it@) =~= seen);
                    break;
                },
                Some((ty, data)) => {
                    proof {
                        assert(attr_list(before) == seq![(ty, data@)] + attr_list(it@));
                        assert(seen + attr_list(before) =~= seen.push((ty, data@)) + attr_list(it@));
                        assert(seen.push((ty, data@)).drop_last() =~= seen);
                        seen = seen.push((ty, data@));
                    }
                    if ok {
                        if ty == Family::ATTR_ID {
                            match read_u16_attr(data) {
                                Some(v) => family.id = v,
                                None => ok = false,
                            }
                        } else if ty == Family::ATTR_NAME {
                            match read_text_attr(data) {
                                Some(t) => family.name = t,
                                None => ok = false,
                            }
                        } else if ty == Family::ATTR_VERSION {
                            match read_u32_attr(data) {
                                Some(v) => family.version = v,
                                None => ok = false,
                            }
                        }
                    }
                },
            }
        }
        if ok {
            Ok(family)
        } else {
            Err(ReplyError::Malformed)
        }
    }
}

/// The mode of an 802.11 interface.
#[derive(Debug, Clone, Copy, PartialEq, Eq, Structural)]
pub enum InterfaceType80211 {
    Unspecified,
    AdHoc,
    Station,
    AP,
    ApVlan,
    WDS,
    Monitor,
    MeshPoint,
    P2pClient,
    P2pGo,
    P2pDevice,
    OCB,
    NAN,
    Unknown,
}

/// The interface type that a raw type code stands for; codes past the known ones are
/// `Unknown`.
pub open spec fn iftype_of(v: u32) -> InterfaceType80211 {
    if v == 0 {
        InterfaceType80211::Unspecified
    } else if v == 1 {
        InterfaceType80211::AdHoc
    } else if v == 2 {
        InterfaceType80211::Station
    } else if v == 3 {
        InterfaceType80211::AP
    } else if v == 4 {
        InterfaceType80211::ApVlan
    } else if v == 5 {
        InterfaceType80211::WDS
    } else if v == 6 {
        InterfaceType80211::Monitor
    } else if v == 7 {
        InterfaceType80211::MeshPoint
    } else if v == 8 {
        InterfaceType80211::P2pClient
    } else if v == 9 {
        InterfaceType80211::P2pGo
    } else if v == 10 {
        InterfaceType80211::P2pDevice
    } else if v == 11 {
        InterfaceType80211::OCB
    } else if v == 12 {
        InterfaceType80211::NAN
    } else {
        InterfaceType80211::Unknown
    }
}

impl InterfaceType80211 {
    /// The interface type of a raw type code; never fails.
    pub fn from_raw(v: u32) -> (r: Self)
        ensures
            r == iftype_of(v),
    {
        match v {
            0 => InterfaceType80211::Unspecified,
            1 => InterfaceType80211::AdHoc,
            2 => InterfaceType80211::Station,
            3 => InterfaceType80211::AP,
            4 => InterfaceType80211::ApVlan,
            5 => InterfaceType80211::WDS,
            6 => InterfaceType80211::Monitor,
            7 => InterfaceType80211::MeshPoint,
            8 => InterfaceType80211::P2pClient,
            9 => InterfaceType80211::P2pGo,
            10 => InterfaceType80211::P2pDevice,
            11 => InterfaceType80211::OCB,
            12 => InterfaceType80211::NAN,
            _ => InterfaceType80211::Unknown,
        }
    }

    /// The interface type of a 32-bit little-endian payload.
    pub fn from_bytes(x: &[u8]) -> (r: Result<Self, OutOfBounds>)
        ensures
            match r {
                Ok(t) => x@.len() >= 4 && t == iftype_of(le32(x@.subrange(0, 4)) as u32),
                Err(_) => x@.len() < 4,
            },
    {
        let b = x.cast_ref::<4>(0)?;
        Ok(Self::from_raw(u32_from_le(b)))
    }
}

/// An 802.11 interface as the kernel reports it.
#[derive(Debug)]
pub struct Interface80211 {
    pub index: u32,
    pub name: String,
    pub kind: InterfaceType80211,
}

/// Interface index, name and type, as plain values.
pub type InterfaceModel = (u32, Seq<char>, InterfaceType80211);

/// Takes one attribute of an interface reply into account; `None` stays `None`.
pub open spec fn interface_step(acc: Option<InterfaceModel>, a: (u16, Seq<u8>)) -> Option<InterfaceModel> {
    match acc {
        None => None,
        Some((index, name, kind)) => if a.0 == 3 {
            match u32_attr(a.1) {
                Some(v) => Some((v, name, kind)),
                None => None,
            }
        } else if a.0 == 4 {
            match text_attr(a.1) {
                Some(t) => Some((index, t, kind)),
                None => None,
            }
        } else if a.0 == 5 {
            match u32_attr(a.1) {
                Some(v) => Some((index, name, iftype_of(v))),
                None => None,
            }
        } else {
            acc
        },
    }
}

/// The interface that a list of attributes describes, the later of two equal attributes
/// winning and unknown ones ignored, from index 0, an empty name and type `Unspecified`;
/// `None` where a known attribute does not decode.
pub open spec fn decode_interface(attrs: Seq<(u16, Seq<u8>)>) -> Option<InterfaceModel>
    decreases attrs.len(),
{
    if attrs.len() == 0 {
        Some((0, Seq::empty(), InterfaceType80211::Unspecified))
    } else {
        interface_step(decode_interface(attrs.drop_last()), attrs.last())
    }
}

impl View for Interface80211 {
    type V = InterfaceModel;

    open spec fn view(&self) -> InterfaceModel {
        (self.index, self.name@, self.kind)
    }
}

impl Interface80211 {
    pub const ATTR_IFINDEX: u16 = 3;
    pub const ATTR_IFNAME: u16 = 4;
    pub const ATTR_IFTYPE: u16 = 5;

    /// Decodes the attributes of an interface reply.
    pub fn from_attrs(iter: AttrIter<'_>) -> (r: Result<Interface80211, ReplyError>)
        ensures
            match r {
                Ok(i) => decode_interface(attr_list(iter@)) == Some(i@),
                Err(e) => e == ReplyError::Malformed && decode_interface(attr_list(iter@)).is_none(),
            },
    {
        let mut it = iter;
        let ghost seen: Seq<(u16, Seq<u8>)> = Seq::empty();
        let mut ok = true;
        let mut iface = Interface80211 {
            index: 0,
            name: String::new(),
            kind: InterfaceType80211::Unspecified,
        };
        assert(seen.len() == 0);
        loop
            invariant
                attr_list(iter@) == seen + attr_list(it@),
                ok ==> decode_interface(seen) == Some(iface@),
                !ok ==> decode_interface(seen).is_none(),
            ensures
                attr_list(iter@) == seen,
                ok ==> decode_interface(seen) == Some(iface@),
                !ok ==> decode_interface(seen).is_none(),
            decreases it@.len(),
        {
            let ghost before = it@;
            match it.next() {
                None => {
                    assert(seen + attr_list(it@) =~= seen);
                    break;
                },
                Some((ty, data)) => {
                    proof {
                        assert(attr_list(before) == seq![(ty, data@)] + attr_list(it@));
                        assert(seen + attr_list(before) =~= seen.push((ty, data@)) + attr_list(it@));
                        assert(seen.push((ty, data@)).drop_last() =~= seen);
                        seen = seen.push((ty, data@));
                    }
                    if ok {
                        if ty == Interface80211::ATTR_IFINDEX {
                            match read_u32_attr(data) {
                                Some(v) => iface.index = v,
                                None => ok = false,
                            }
                        } else if ty == Interface80211::ATTR_IFNAME {
                            match read_text_attr(data) {
                                Some(t) => iface.name = t,
                                None => ok = false,
                            }
                        } else if ty == Interface80211::ATTR_IFTYPE {
                            match read_u32_attr(data) {
                                Some(v) => iface.kind = InterfaceType80211::from_raw(v),
                                None => ok = false,
                            }
                        }
                    }
                },
            }
        }
        if ok {
            Ok(iface)
        } else {
            Err(ReplyError::Malformed)
        }
    }
}

proof fn lemma_le32_u32_bytes(v: u32)
    ensures
        le32(u32_bytes(v as int)) == v,
{
}

/// Appending an attribute to a whole message gives the message with that attribute added:
/// its length field counted the headers and the attributes so far.
proof fn lemma_message_append(
    ty: u16,
    flags: u16,
    seq: u32,
    pid: u32,
    cmd: u8,
    version: u8,
    attrs: Seq<u8>,
    a: Seq<u8>,
)
    requires
        20 + attrs.len() + a.len() <= 0xffff_ffff,
    ensures
        message(ty, flags, seq, pid, cmd, version, attrs).len() == (20 + attrs.len()) as int,
        declared_len(message(ty, flags, seq, pid, cmd, version, attrs)) == (20 + attrs.len()) as int,
        with_len(
            message(ty, flags, seq, pid, cmd, version, attrs).subrange(0, (20 + attrs.len()) as int),
            (20 + attrs.len() + a.len()) as int,
        ) + a == message(ty, flags, seq, pid, cmd, version, attrs + a),
{
    let m = message(ty, flags, seq, pid, cmd, version, attrs);
    assert(m.subrange(0, 4) =~= u32_bytes((20 + attrs.len()) as int));
    lemma_le32_u32_bytes(((20 + attrs.len()) as int) as u32);
    assert(m.subrange(0, (20 + attrs.len()) as int) =~= m);
    assert(with_len(m, (20 + attrs.len() + a.len()) as int) + a =~= message(
        ty,
        flags,
        seq,
        pid,
        cmd,
        version,
        attrs + a,
    ));
}

/// Writing a whole message over the front of a buffer and then an attribute after it is
/// writing the message with that attribute added: the bytes past it stay as they were.
proof fn lemma_overwrite_append(
    s: Seq<u8>,
    ty: u16,
    flags: u16,
    seq: u32,
    pid: u32,
    cmd: u8,
    version: u8,
    attrs: Seq<u8>,
    a: Seq<u8>,
)
    requires
        20 + attrs.len() + a.len() <= 0xffff_ffff,
    ensures
        ({
            let m = message(ty, flags, seq, pid, cmd, version, attrs);
            let s0 = overwrite(s, 0, m);
            &&& s0.len() >= m.len() == 20 + attrs.len()
            &&& declared_len(s0) == 20 + attrs.len()
            &&& with_len(overwrite(s0, m.len() as int, a), (m.len() + a.len()) as int) == overwrite(
                s,
                0,
                message(ty, flags, seq, pid, cmd, version, attrs + a),
            )
        }),
{
    let m = message(ty, flags, seq, pid, cmd, version, attrs);
    let m2 = message(ty, flags, seq, pid, cmd, version, attrs + a);
    lemma_message_append(ty, flags, seq, pid, cmd, version, attrs, a);
    let s0 = overwrite(s, 0, m);
    assert(s0.subrange(0, 4) =~= m.subrange(0, 4));
    let s1 = overwrite(s0, m.len() as int, a);
    assert(s1.subrange(0, m.len() as int) =~= m);
    assert(s1.skip(m.len() as int).subrange(0, a.len() as int) =~= a);
    if m.len() + a.len() < s.len() {
        assert(s1 =~= m + a + s.skip((m.len() + a.len()) as int));
    } else {
        assert(s1 =~= m + a);
    }
    assert(with_len(m, (m.len() + a.len()) as int) + a == m2);
    assert(with_len(s1, (m.len() + a.len()) as int) =~= overwrite(s, 0, m2));
}

/// Builds in `buf` the controller request that looks up the family called `name`: the name
/// goes out zero-terminated. `OutOfBounds` where the name is too long for an attribute; `buf`
/// then holds the request without it. Bytes past the request stay as they were.
pub fn family_request(buf: &mut Vec<u8>, name: &str) -> (r: Result<(), OutOfBounds>)
    ensures
        r.is_ok() == (name.spec_bytes().len() + 5 <= 0xffff),
        r.is_ok() ==> final(buf)@ == overwrite(
            old(buf)@,
            0,
            message(
                CTRL_FAMILY_ID,
                REQUEST_FLAG,
                1,
                0,
                CTRL_GET_FAMILY,
                2,
                attr_bytes(Family::ATTR_NAME, name.spec_bytes().push(0)),
            ),
        ),
        r.is_err() ==> final(buf)@ == overwrite(
            old(buf)@,
            0,
            message(CTRL_FAMILY_ID, REQUEST_FLAG, 1, 0, CTRL_GET_FAMILY, 2, Seq::empty()),
        ),
{
    create(buf, genl_id_ctrl(), nlm_f_request(), 1, 0, ctrl_cmd_getfamily(), 2);
    let mut payload: Vec<u8> = Vec::new();
    push_bytes(&mut payload, name.as_bytes());
    payload.push(0);
    assert(payload@ =~= name.spec_bytes().push(0));
    let ghost a = attr_bytes(Family::ATTR_NAME, payload@);
    proof {
        assert(Seq::<u8>::empty() + a =~= a);
        if payload@.len() + 4 <= 0xffff {
            lemma_attr_padding(Family::ATTR_NAME, payload@);
            lemma_overwrite_append(
                old(buf)@,
                CTRL_FAMILY_ID,
                REQUEST_FLAG,
                1,
                0,
                CTRL_GET_FAMILY,
                2,
                Seq::empty(),
                a,
            );
        } else {
            lemma_overwrite_append(
                old(buf)@,
                CTRL_FAMILY_ID,
                REQUEST_FLAG,
                1,
                0,
                CTRL_GET_FAMILY,
                2,
                Seq::empty(),
                Seq::empty(),
            );
        }
    }
    put_attr(buf, Family::ATTR_NAME, payload.as_slice())
}

/// Builds in `buf` the nl80211 request that reads the interface with index `idx`, for the
/// nl80211 family id `family_id`. Bytes past the request stay as they were.
pub fn interface_request(buf: &mut Vec<u8>, family_id: u16, idx: u32)
    ensures
        final(buf)@ == overwrite(
            old(buf)@,
            0,
            message(
                family_id,
                REQUEST_FLAG,
                1,
                0,
                CMD_GET_INTERFACE,
                1,
                attr_bytes(Interface80211::ATTR_IFINDEX, u32_bytes(idx as int)),
            ),
        ),
{
    create(buf, family_id, nlm_f_request(), 1, 0, CMD_GET_INTERFACE, 1);
    let payload = u32_to_le(idx);
    let ghost a = attr_bytes(Interface80211::ATTR_IFINDEX, payload@);
    proof {
        assert(Seq::<u8>::empty() + a =~= a);
        lemma_attr_padding(Interface80211::ATTR_IFINDEX, payload@);
        lemma_overwrite_append(
            old(buf)@,
            family_id,
            REQUEST_FLAG,
            1,
            0,
            CMD_GET_INTERFACE,
            1,
            Seq::empty(),
            a,
        );
    }
    // four bytes of payload always fit, so this cannot fail
    let _ = put_attr(buf, Interface80211::ATTR_IFINDEX, &payload);
}

/// The attribute list of a reply, or why there is none: a reply shorter than the netlink
/// header, a kernel error reply (with its code), or headers that are incomplete or a declared
/// length that lies before their end or past the reply.
pub open spec fn reply_attrs(s: Seq<u8>) -> Result<Seq<(u16, Seq<u8>)>, ReplyError> {
    if s.len() < 16 {
        Err(ReplyError::OutOfBounds)
    } else if message_type(s) == ERROR_TYPE {
        if s.len() < 20 {
            Err(ReplyError::OutOfBounds)
        } else {
            Err(ReplyError::Netlink(error_code_of(s)))
        }
    } else if s.len() < 20 || declared_len(s) < 20 || declared_len(s) > s.len() {
        Err(ReplyError::OutOfBounds)
    } else {
        Ok(attr_list(s.subrange(20, declared_len(s))))
    }
}

fn reply_attr_iter(reply: &[u8]) -> (r: Result<AttrIter<'_>, ReplyError>)
    ensures
        match r {
            Ok(it) => reply_attrs(reply@) == Ok::<_, ReplyError>(attr_list(it@)),
            Err(e) => reply_attrs(reply@) == Err::<Seq<(u16, Seq<u8>)>, _>(e),
        },
{
    check_error(reply)?;
    match attrs(reply) {
        Ok(it) => Ok(it),
        Err(_) => Err(ReplyError::OutOfBounds),
    }
}

/// What a family reply resolves to.
pub open spec fn family_result(s: Seq<u8>) -> Result<FamilyModel, ReplyError> {
    match reply_attrs(s) {
        Err(e) => Err(e),
        Ok(al) => match decode_family(al) {
            Some(f) => Ok(f),
            None => Err(ReplyError::Malformed),
        },
    }
}

/// What an interface reply resolves to.
pub open spec fn interface_result(s: Seq<u8>) -> Result<InterfaceModel, ReplyError> {
    match reply_attrs(s) {
        Err(e) => Err(e),
        Ok(al) => match decode_interface(al) {
            Some(i) => Ok(i),
            None => Err(ReplyError::Malformed),
        },
    }
}

/// Decodes the controller's reply to a family request.
pub fn family_reply(reply: &[u8]) -> (r: Result<Family, ReplyError>)
    ensures
        match r {
            Ok(f) => family_result(reply@) == Ok::<_, ReplyError>(f@),
            Err(e) => family_result(reply@) == Err::<FamilyModel, _>(e),
        },
{
    let it = reply_attr_iter(reply)?;
    Family::from_attrs(it)
}

/// Decodes nl80211's reply to an interface request.
pub fn interface_reply(reply: &[u8]) -> (r: Result<Interface80211, ReplyError>)
    ensures
        match r {
            Ok(i) => interface_result(reply@) == Ok::<_, ReplyError>(i@),
            Err(e) => interface_result(reply@) == Err::<InterfaceModel, _>(e),
        },
{
    let it = reply_attr_iter(reply)?;
    Interface80211::from_attrs(it)
}

proof fn lemma_first_nul_terminated(b: Seq<u8>)
    requires
        forall|i: int| 0 <= i < b.len() ==> b[i] != 0,
    ensures
        first_nul(b.push(0)) == b.len(),
    decreases b.len(),
{
    if b.len() > 0 {
        assert(b.push(0).skip(1) =~= b.skip(1).push(0));
        lemma_first_nul_terminated(b.skip(1));
    }
}

/// The attribute list of a family reply: id, zero-terminated UTF-8 name, version.
pub open spec fn family_attrs(id: u16, name: Seq<char>, version: u32) -> Seq<u8> {
    attr_bytes(Family::ATTR_ID, u16_bytes(id as int)) + attr_bytes(
        Family::ATTR_NAME,
        encode_utf8(name).push(0),
    ) + attr_bytes(Family::ATTR_VERSION, u32_bytes(version as int))
}

proof fn lemma_family_attr_list(id: u16, name: Seq<char>, version: u32)
    requires
        encode_utf8(name).len() + 5 <= 0xffff,
    ensures
        attr_list(family_attrs(id, name, version)) == seq![
            (Family::ATTR_ID, u16_bytes(id as int)),
            (Family::ATTR_NAME, encode_utf8(name).push(0)),
            (Family::ATTR_VERSION, u32_bytes(version as int)),
        ],
{
    let d1 = u16_bytes(id as int);
    let d2 = encode_utf8(name).push(0);
    let d3 = u32_bytes(version as int);
    let a2 = attr_bytes(Family::ATTR_NAME, d2);
    let a3 = attr_bytes(Family::ATTR_VERSION, d3);
    lemma_attr_round_trip(Family::ATTR_VERSION, d3, Seq::empty());
    lemma_attr_round_trip(Family::ATTR_NAME, d2, a3);
    lemma_attr_round_trip(Family::ATTR_ID, d1, a2 + a3);
    assert(attr_list(Seq::<u8>::empty()).len() == 0);
    assert(family_attrs(id, name, version) =~= attr_bytes(Family::ATTR_ID, d1) + (a2 + a3));
    assert(a3 =~= a3 + Seq::<u8>::empty());
    assert(attr_list(family_attrs(id, name, version)) =~= seq![
        (Family::ATTR_ID, d1),
        (Family::ATTR_NAME, d2),
        (Family::ATTR_VERSION, d3),
    ]);
}

proof fn lemma_family_decodes(id: u16, name: Seq<char>, version: u32)
    requires
        forall|i: int| 0 <= i < encode_utf8(name).len() ==> encode_utf8(name)[i] != 0,
    ensures
        decode_family(
            seq![
                (Family::ATTR_ID, u16_bytes(id as int)),
                (Family::ATTR_NAME, encode_utf8(name).push(0)),
                (Family::ATTR_VERSION, u32_bytes(version as int)),
            ],
        ) == Some((id, name, version)),
{
    let b = encode_utf8(name);
    let d1 = u16_bytes(id as int);
    let d2 = b.push(0);
    let d3 = u32_bytes(version as int);
    let al = seq![(Family::ATTR_ID, d1), (Family::ATTR_NAME, d2), (Family::ATTR_VERSION, d3)];
    lemma_le16_u16_bytes(id);
    assert(d1.subrange(0, 2) =~= d1);
    lemma_le32_u32_bytes(version);
    assert(d3.subrange(0, 4) =~= d3);
    lemma_first_nul_terminated(b);
    assert(d2.subrange(0, b.len() as int) =~= b);
    encode_utf8_valid_utf8(name);
    encode_utf8_decode_utf8(name);
    assert(text_attr(d2) == Some(name));
    assert(u16_attr(d1) == Some(id));
    assert(u32_attr(d3) == Some(version));
    let s1 = seq![(Family::ATTR_ID, d1)];
    let s2 = seq![(Family::ATTR_ID, d1), (Family::ATTR_NAME, d2)];
    assert(s1.drop_last() =~= Seq::<(u16, Seq<u8>)>::empty());
    assert(decode_family(Seq::<(u16, Seq<u8>)>::empty()) == Some((0u16, Seq::<char>::empty(), 0u32)));
    assert(decode_family(s1.drop_last()) == Some((0u16, Seq::<char>::empty(), 0u32)));
    assert(s1.last() == (1u16, d1));
    assert(decode_family(s1) == Some((id, Seq::<char>::empty(), 0u32)));
    assert(s2.drop_last() =~= s1);
    assert(s2.last() == (2u16, d2));
    assert(decode_family(s2) == Some((id, name, 0u32)));
    assert(al.drop_last() =~= s2);
    assert(al.last() == (3u16, d3));
}

proof fn lemma_reply_attrs_of_message(
    ty: u16,
    flags: u16,
    seq: u32,
    pid: u32,
    cmd: u8,
    version_byte: u8,
    attrs: Seq<u8>,
)
    requires
        ty != ERROR_TYPE,
        20 + attrs.len() <= 0xffff_ffff,
    ensures
        reply_attrs(message(ty, flags, seq, pid, cmd, version_byte, attrs))
            == Ok::<_, ReplyError>(attr_list(attrs)),
{
    let m = message(ty, flags, seq, pid, cmd, version_byte, attrs);
    lemma_message_append(ty, flags, seq, pid, cmd, version_byte, attrs, Seq::empty());
    lemma_le16_u16_bytes(ty);
    assert(m.subrange(4, 6) =~= u16_bytes(ty as int));
    assert(m.subrange(20, 20 + attrs.len() as int) =~= attrs);
}

/// A reply that is no error and carries the id, the name and the version of a family resolves
/// to that family, whatever its other header fields hold. The name is any text whose UTF-8
/// form holds no zero byte.
pub proof fn lemma_family_reply_resolves(
    ty: u16,
    flags: u16,
    seq: u32,
    pid: u32,
    cmd: u8,
    version_byte: u8,
    id: u16,
    name: Seq<char>,
    version: u32,
)
    requires
        ty != ERROR_TYPE,
        forall|i: int| 0 <= i < encode_utf8(name).len() ==> encode_utf8(name)[i] != 0,
        encode_utf8(name).len() + 5 <= 0xffff,
    ensures
        family_result(
            message(ty, flags, seq, pid, cmd, version_byte, family_attrs(id, name, version)),
        ) == Ok::<_, ReplyError>((id, name, version)),
{
    let attrs = family_attrs(id, name, version);
    lemma_attr_padding(Family::ATTR_ID, u16_bytes(id as int));
    lemma_attr_padding(Family::ATTR_NAME, encode_utf8(name).push(0));
    lemma_attr_padding(Family::ATTR_VERSION, u32_bytes(version as int));
    lemma_reply_attrs_of_message(ty, flags, seq, pid, cmd, version_byte, attrs);
    lemma_family_attr_list(id, name, version);
    lemma_family_decodes(id, name, version);
}

} // verus!
