use vstd::prelude::*;
use vstd::slice::slice_subrange;

verus! {

/// Identifiers of the information elements that are decoded into their own variant.
#[derive(Debug, Clone, Copy, PartialEq, Eq, Structural)]
#[non_exhaustive]
pub enum InfoElementId {
    SSID,
    DSSS,
}

impl InfoElementId {
    pub open spec fn spec_code(self) -> u8 {
        match self {
            InfoElementId::SSID => 0,
            InfoElementId::DSSS => 3,
        }
    }

    /// The element id as it appears on the wire.
    #[verifier::when_used_as_spec(spec_code)]
    pub fn code(self) -> (r: u8)
        ensures
            r == self.spec_code(),
    {
        match self {
            InfoElementId::SSID => 0,
            InfoElementId::DSSS => 3,
        }
    }
}

/// What an information element holds, as plain values.
pub enum ElementModel {
    Generic(u8, Seq<u8>),
    Ssid(Seq<u8>),
    Dsss(u8),
}

/// The element at the front of `s` and the number of bytes it takes, or `None` where the
/// front of `s` holds no complete element (fewer than two bytes, a declared length past the
/// end, or a DSSS element without its channel byte).
pub open spec fn first_element(s: Seq<u8>) -> Option<(ElementModel, nat)> {
    if s.len() < 2 {
        None
    } else {
        let id = s[0];
        let n = s[1] as nat;
        if s.len() < 2 + n {
            None
        } else {
            let data = s.subrange(2, 2 + n as int);
            if id == InfoElementId::SSID.spec_code() {
                Some((ElementModel::Ssid(data), 2 + n))
            } else if id == InfoElementId::DSSS.spec_code() {
                if n == 0 {
                    None
                } else {
                    Some((ElementModel::Dsss(data[0]), 2 + n))
                }
            } else {
                Some((ElementModel::Generic(id, data), 2 + n))
            }
        }
    }
}

/// Every element that iteration over `s` yields, in order.
pub open spec fn elements(s: Seq<u8>) -> Seq<ElementModel>
    decreases s.len(),
{
    match first_element(s) {
        None => Seq::empty(),
        Some((e, n)) => if 0 < n <= s.len() {
            seq![e] + elements(s.skip(n as int))
        } else {
            Seq::empty()
        },
    }
}

/// The wire form of one element.
pub open spec fn encode_element(e: ElementModel) -> Seq<u8> {
    match e {
        ElementModel::Generic(id, data) => seq![id, data.len() as u8] + data,
        ElementModel::Ssid(data) => seq![0u8, data.len() as u8] + data,
        ElementModel::Dsss(ch) => seq![3u8, 1u8, ch],
    }
}

/// The wire form of a list of elements, one after the other.
pub open spec fn encode_elements(es: Seq<ElementModel>) -> Seq<u8>
    decreases es.len(),
{
    if es.len() == 0 {
        Seq::empty()
    } else {
        encode_element(es[0]) + encode_elements(es.skip(1))
    }
}

/// An element that its own wire form gives back: a payload that its one-byte length can
/// describe, and a generic element whose id is none of the decoded ones.
pub open spec fn well_formed_element(e: ElementModel) -> bool {
    match e {
        ElementModel::Generic(id, data) => {
            &&& id != InfoElementId::SSID.spec_code()
            &&& id != InfoElementId::DSSS.spec_code()
            &&& data.len() <= 255
        },
        ElementModel::Ssid(data) => data.len() <= 255,
        ElementModel::Dsss(_) => true,
    }
}

/// True where `s` does not start with a complete element.
pub open spec fn truncated(s: Seq<u8>) -> bool {
    s.len() < 2 || s.len() < 2 + s[1] as nat
}

/// Decoding the wire form of well-formed elements, followed by bytes that hold no complete
/// element, gives back exactly those elements: each SSID with its raw bytes unchanged, and as
/// many elements as were encoded.
pub proof fn lemma_elements_round_trip(es: Seq<ElementModel>, tail: Seq<u8>)
    requires
        forall|i: int| 0 <= i < es.len() ==> well_formed_element(#[trigger] es[i]),
        truncated(tail),
    ensures
        elements(encode_elements(es) + tail) == es,
    decreases es.len(),
{
    let s = encode_elements(es) + tail;
    if es.len() == 0 {
        assert(s =~= tail);
    } else {
        let e = es[0];
        let rest = es.skip(1);
        assert forall|i: int| 0 <= i < rest.len() implies well_formed_element(#[trigger] rest[i]) by {
            assert(rest[i] == es[i + 1]);
        }
        lemma_elements_round_trip(rest, tail);
        let head = encode_element(e);
        assert(s =~= head + (encode_elements(rest) + tail));
        let n = head.len();
        assert(s.skip(n as int) =~= encode_elements(rest) + tail);
        match e {
            ElementModel::Generic(id, data) => {
                assert(s.subrange(2, 2 + data.len() as int) =~= data);
            },
            ElementModel::Ssid(data) => {
                assert(s.subrange(2, 2 + data.len() as int) =~= data);
            },
            ElementModel::Dsss(ch) => {
                assert(s.subrange(2, 3)[0] == ch);
            },
        }
        assert(seq![e] + rest =~= es);
    }
}

/// Where the declared length of the front element reaches past the end, or fewer than two
/// bytes are left, iteration yields nothing.
pub proof fn lemma_truncated_yields_nothing(s: Seq<u8>)
    requires
        truncated(s),
    ensures
        elements(s).len() == 0,
{
}

/// Iteration over any buffer yields `elements` of it: each `next` hands out the element at the
/// front and leaves the rest to be walked, and where the front holds no complete element it
/// yields `None` (again on every later call, as it then stays where it is) and the list ends.
pub proof fn lemma_next_walks_elements(s: Seq<u8>)
    ensures
        match first_element(s) {
            None => elements(s).len() == 0,
            Some((e, n)) => {
                &&& 2 <= n <= s.len()
                &&& elements(s) == seq![e] + elements(s.skip(n as int))
            },
        },
{
}

/// Each element takes at least two bytes, so iteration over a buffer ends after at most half
/// as many steps as it has bytes.
pub proof fn lemma_elements_bounded(s: Seq<u8>)
    ensures
        2 * elements(s).len() <= s.len(),
    decreases s.len(),
{
    match first_element(s) {
        None => {},
        Some((e, n)) => {
            lemma_elements_bounded(s.skip(n as int));
        },
    }
}

/// An information element borrowed from a frame body.
#[non_exhaustive]
pub enum InfoElement<'a> {
    Generic(GenericInfoElement<'a>),
    SSID(&'a [u8]),
    DSSS(u8),
}

/// An element whose id is not decoded into a variant of its own.
pub struct GenericInfoElement<'a> {
    id: u8,
    data: &'a [u8],
}

impl<'a> GenericInfoElement<'a> {
    pub closed spec fn spec_id(&self) -> u8 {
        self.id
    }

    pub closed spec fn spec_data(&self) -> Seq<u8> {
        self.data@
    }

    pub fn id(&self) -> (r: u8)
        ensures
            r == self.spec_id(),
    {
        self.id
    }

    pub fn data(&self) -> (r: &'a [u8])
        ensures
            r@ == self.spec_data(),
    {
        self.data
    }
}

impl<'a> View for InfoElement<'a> {
    type V = ElementModel;

    open spec fn view(&self) -> ElementModel {
        match self {
            InfoElement::Generic(g) => ElementModel::Generic(g.spec_id(), g.spec_data()),
            InfoElement::SSID(d) => ElementModel::Ssid(d@),
            InfoElement::DSSS(c) => ElementModel::Dsss(*c),
        }
    }
}

/// Walks the information elements of a buffer, front to back.
pub struct InfoElementIter<'a> {
    buf: &'a [u8],
}

impl<'a> View for InfoElementIter<'a> {
    type V = Seq<u8>;

    /// The bytes that are still to be walked.
    closed spec fn view(&self) -> Seq<u8> {
        self.buf@
    }
}

impl<'a> InfoElementIter<'a> {
    pub fn new(buf: &'a [u8]) -> (r: Self)
        ensures
            r@ == buf@,
    {
        Self { buf }
    }

    /// Yields the element at the front and moves past it; once the front holds no complete
    /// element, yields `None` and stays where it is.
    pub fn next(&mut self) -> (r: Option<InfoElement<'a>>)
        ensures
            match first_element(old(self)@) {
                None => r.is_none() && final(self)@ == old(self)@,
                Some((e, n)) => r.is_some() && r->0@ == e && final(self)@ == old(self)@.skip(
                    n as int,
                ),
            },
    {
        let len = self.buf.len();
        if len < 2 {
            return None;
        }
        let id = self.buf[0];
        let element_len = 2 + self.buf[1] as usize;
        if len < element_len {
            return None;
        }
        let data = slice_subrange(self.buf, 2, element_len);
        if id == InfoElementId::SSID.code() {
            self.buf = slice_subrange(self.buf, element_len, len);
            Some(InfoElement::SSID(data))
        } else if id == InfoElementId::DSSS.code() {
            if data.len() == 0 {
                return None;
            }
            self.buf = slice_subrange(self.buf, element_len, len);
            Some(InfoElement::DSSS(data[0]))
        } else {
            self.buf = slice_subrange(self.buf, element_len, len);
            Some(InfoElement::Generic(GenericInfoElement { id, data }))
        }
    }
}

} // verus!
