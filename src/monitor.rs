use crate::bytes::{decimal, le16, push_decimal, push_signed_decimal, signed_decimal, OutOfBounds};
use vstd::string::StringExecFns;
use crate::ieee80211::element::{elements, ElementModel, InfoElement};
use crate::ieee80211::field::{station_kind, MACAddr, StationKind};
use crate::ieee80211::frame::{
    beacon_body_offset, bytes_at, mgmt_size, Beacon, Management, ProbeRequest,
};
use crate::radiotap::{signed8, step, AntennaSignal, Channel, Field, Iter, FIELD_COUNT};
use vstd::prelude::*;
use vstd::slice::slice_to_vec;

verus! {

/// Every field that a walk over header `s` from bit `idx` and offset `off` yields, as bit and
/// bytes, in order.
pub open spec fn walk(s: Seq<u8>, present: u32, idx: int, off: int) -> Seq<(int, Seq<u8>)>
    decreases FIELD_COUNT - idx,
{
    if idx < 0 || idx >= FIELD_COUNT {
        Seq::empty()
    } else {
        let (item, next_idx, next_off) = step(s, present, idx, off);
        match item {
            None => Seq::empty(),
            Some(f) => if idx < next_idx <= FIELD_COUNT {
                seq![f] + walk(s, present, next_idx, next_off)
            } else {
                Seq::empty()
            },
        }
    }
}

/// A step that yields a field moves to a later bit, at most one past the last.
proof fn lemma_step_advances(s: Seq<u8>, present: u32, idx: int, off: int)
    ensures
        step(s, present, idx, off).0.is_some() ==> idx < step(s, present, idx, off).1 <= FIELD_COUNT,
        step(s, present, idx, off).0.is_none() ==> step(s, present, idx, off).1 == FIELD_COUNT,
    decreases FIELD_COUNT - idx,
{
    if 0 <= idx < FIELD_COUNT {
        lemma_step_advances(s, present, idx + 1, off);
        lemma_step_advances(
            s,
            present,
            idx + 1,
            off + off % crate::radiotap::field_align(idx) + crate::radiotap::field_size(idx),
        );
    }
}

/// Channel frequency and flags, and signal in dBm, as plain values.
pub type RadioModel = (Option<(u16, u16)>, Option<i8>);

/// Takes one radiotap field into account: a channel field sets the channel, an antenna-signal
/// field the signal; others change nothing.
pub open spec fn radio_step(acc: RadioModel, f: (int, Seq<u8>)) -> RadioModel {
    if f.0 == 3 && f.1.len() >= 4 {
        (Some((le16(f.1.subrange(0, 2)) as u16, le16(f.1.subrange(2, 4)) as u16)), acc.1)
    } else if f.0 == 5 && f.1.len() >= 1 {
        (acc.0, Some(signed8(f.1[0]) as i8))
    } else {
        acc
    }
}

/// The radio facts of a list of fields; a later field of a kind wins.
pub open spec fn radio_of(fs: Seq<(int, Seq<u8>)>) -> RadioModel
    decreases fs.len(),
{
    if fs.len() == 0 {
        (None, None)
    } else {
        radio_step(radio_of(fs.drop_last()), fs.last())
    }
}

/// The text of a channel: its frequency in MHz.
pub open spec fn channel_text(frequency: u16) -> Seq<char> {
    decimal(frequency as nat) + seq![' ', 'M', 'H', 'z']
}

/// The text of a signal strength in dBm.
pub open spec fn signal_text(dbm: i8) -> Seq<char> {
    signed_decimal(dbm as int) + seq![' ', 'd', 'B', 'm']
}

/// The text of radio facts: the channel, then the signal, each where known, separated by
/// `", "`.
pub open spec fn radio_text(m: RadioModel) -> Seq<char> {
    match (m.0, m.1) {
        (Some((f, _)), Some(d)) => channel_text(f) + seq![',', ' '] + signal_text(d),
        (Some((f, _)), None) => channel_text(f),
        (None, Some(d)) => signal_text(d),
        (None, None) => Seq::empty(),
    }
}

/// The radio facts of a captured frame: its channel and signal strength, where the radiotap
/// header gives them.
#[derive(Debug)]
pub struct RTapInfo {
    pub channel: Option<Channel>,
    pub signal: Option<AntennaSignal>,
}

impl View for RTapInfo {
    type V = RadioModel;

    open spec fn view(&self) -> RadioModel {
        (
            match self.channel {
                Some(c) => Some((c.spec_frequency(), c.spec_flags())),
                None => None,
            },
            match self.signal {
                Some(a) => Some(a.spec_dbm()),
                None => None,
            },
        )
    }
}

impl RTapInfo {
    /// The radio facts as text, such as `2412 MHz, -60 dBm`.
    pub fn to_text(&self) -> (r: String)
        ensures
            r@ == radio_text(self@),
    {
        let mhz = " MHz";
        let dbm = " dBm";
        let sep = ", ";
        proof {
            reveal_strlit(" MHz");
            reveal_strlit(" dBm");
            reveal_strlit(", ");
        }
        let mut out = String::new();
        if let Some(channel) = &self.channel {
            push_decimal(&mut out, channel.frequency_mhz() as u32);
            out.append(mhz);
        }
        if let Some(signal) = &self.signal {
            if self.channel.is_some() {
                out.append(sep);
            }
            push_signed_decimal(&mut out, signal.dbm() as i32);
            out.append(dbm);
        }
        assert(out@ =~= radio_text(self@));
        out
    }

    /// Collects the channel and the signal from the fields that a walk yields.
    pub fn from(rtap_iter: Iter<'_>) -> (r: RTapInfo)
        requires
            rtap_iter.wf(),
        ensures
            r@ == radio_of(
                walk(rtap_iter.bytes(), rtap_iter.present(), rtap_iter.idx(), rtap_iter.offset()),
            ),
    {
        let mut it = rtap_iter;
        let mut this = RTapInfo { channel: None, signal: None };
        let ghost seen: Seq<(int, Seq<u8>)> = Seq::empty();
        let ghost all = walk(rtap_iter.bytes(), rtap_iter.present(), rtap_iter.idx(), rtap_iter.offset());
        assert(seen + all =~= all);
        loop
            invariant
                it.wf(),
                it.bytes() == rtap_iter.bytes(),
                it.present() == rtap_iter.present(),
                all == seen + walk(it.bytes(), it.present(), it.idx(), it.offset()),
                this@ == radio_of(seen),
            ensures
                all == seen,
                this@ == radio_of(seen),
            decreases FIELD_COUNT - it.idx(),
        {
            let ghost (b, p, i, o) = (it.bytes(), it.present(), it.idx(), it.offset());
            proof {
                lemma_step_advances(b, p, i, o);
            }
            match it.next() {
                None => {
                    assert(walk(b, p, i, o) =~= Seq::<(int, Seq<u8>)>::empty());
                    assert(seen + walk(b, p, i, o) =~= seen);
                    break;
                },
                Some(field) => {
                    let ghost f = field@;
                    proof {
                        assert(walk(b, p, i, o) == seq![f] + walk(b, p, it.idx(), it.offset()));
                        assert(seen + walk(b, p, i, o) =~= seen.push(f) + walk(b, p, it.idx(), it.offset()));
                        assert(seen.push(f).drop_last() =~= seen);
                        seen = seen.push(f);
                    }
                    match field {
                        Field::Channel(_) => {
                            match Channel::try_from(field) {
                                Ok(c) => this.channel = Some(c),
                                Err(_) => {},
                            }
                        },
                        Field::AntennaSignal(_) => {
                            match AntennaSignal::try_from(field) {
                                Ok(a) => this.signal = Some(a),
                                Err(_) => {},
                            }
                        },
                        _ => {},
                    }
                },
            }
        }
        this
    }
}

/// Something a beacon tells about its network, in the order its elements give it.
#[derive(Debug)]
pub enum Note {
    Ssid(Vec<u8>),
    Channel(u8),
}

impl View for Note {
    type V = ElementModel;

    open spec fn view(&self) -> ElementModel {
        match self {
            Note::Ssid(v) => ElementModel::Ssid(v@),
            Note::Channel(c) => ElementModel::Dsss(*c),
        }
    }
}

/// The SSID and DSSS elements of a list, in order; the others are left out.
pub open spec fn notes_of(es: Seq<ElementModel>) -> Seq<ElementModel>
    decreases es.len(),
{
    if es.len() == 0 {
        Seq::empty()
    } else {
        notes_of(es.drop_last()) + match es.last() {
            ElementModel::Generic(_, _) => Seq::empty(),
            e => seq![e],
        }
    }
}

/// The SSID of the last SSID element of a list, or the empty one where there is none.
pub open spec fn last_ssid(es: Seq<ElementModel>) -> Seq<u8>
    decreases es.len(),
{
    if es.len() == 0 {
        Seq::empty()
    } else {
        match es.last() {
            ElementModel::Ssid(d) => d,
            _ => last_ssid(es.drop_last()),
        }
    }
}

/// What a beacon says of its sender.
#[derive(Debug)]
pub struct BeaconSighting {
    pub kind: StationKind,
    pub transmitter: MACAddr,
    pub bssid: MACAddr,
    pub notes: Vec<Note>,
}

/// Reads what a beacon says of its sender: the kind of station its capabilities make it, its
/// transmitter address and BSSID, and its SSID and DSSS channel elements. `OutOfBounds` where
/// the frame ends before its information elements.
pub fn beacon_sighting(frame: &[u8]) -> (r: Result<BeaconSighting, OutOfBounds>)
    ensures
        match r {
            Ok(b) => {
                let cap = frame@[mgmt_size(frame@) + 10];
                &&& frame@.len() >= 2
                &&& frame@.len() >= beacon_body_offset(frame@)
                &&& b.kind == station_kind(cap & 1 != 0, cap & 2 != 0)
                &&& b.transmitter@ == bytes_at(frame@, 10, 6)
                &&& b.bssid@ == bytes_at(frame@, 16, 6)
                &&& b.notes@.map_values(|n: Note| n@) == notes_of(
                    elements(frame@.skip(beacon_body_offset(frame@))),
                )
            },
            Err(_) => frame@.len() < 2 || frame@.len() < beacon_body_offset(frame@),
        },
{
    let mut it = Beacon::info_elements(frame)?;
    let kind = frame.capability()?.kind();
    let transmitter = frame.ta()?;
    let bssid = frame.bssid()?;
    let mut notes: Vec<Note> = Vec::new();
    let ghost all = elements(it@);
    let ghost seen: Seq<ElementModel> = Seq::empty();
    assert(seen + all =~= all);
    assert(notes@.map_values(|n: Note| n@) =~= notes_of(seen));
    loop
        invariant
            all == seen + elements(it@),
            notes@.map_values(|n: Note| n@) == notes_of(seen),
        ensures
            all == seen,
            notes@.map_values(|n: Note| n@) == notes_of(seen),
        decreases it@.len(),
    {
        let ghost before = it@;
        match it.next() {
            None => {
                assert(seen + elements(before) =~= seen);
                break;
            },
            Some(ie) => {
                let ghost e = ie@;
                proof {
                    assert(elements(before) == seq![e] + elements(it@));
                    assert(seen + elements(before) =~= seen.push(e) + elements(it@));
                    assert(seen.push(e).drop_last() =~= seen);
                    seen = seen.push(e);
                }
                match ie {
                    InfoElement::SSID(ssid) => notes.push(Note::Ssid(slice_to_vec(ssid))),
                    InfoElement::DSSS(channel) => notes.push(Note::Channel(channel)),
                    _ => {},
                }
                assert(notes@.map_values(|n: Note| n@) =~= notes_of(seen));
            },
        }
    }
    Ok(BeaconSighting { kind, transmitter, bssid, notes })
}

/// What a probe request says of its sender.
#[derive(Debug, PartialEq, Eq, Hash)]
pub struct ProbeSighting {
    pub transmitter: MACAddr,
    pub ssid: Vec<u8>,
}

/// Reads what a probe request says of its sender: its transmitter address and the SSID it
/// probes for (that of its last SSID element; empty where it has none). `OutOfBounds` where
/// the frame ends before its management header does.
pub fn probe_sighting(frame: &[u8]) -> (r: Result<ProbeSighting, OutOfBounds>)
    ensures
        match r {
            Ok(p) => {
                &&& frame@.len() >= 24
                &&& frame@.len() >= mgmt_size(frame@)
                &&& p.transmitter@ == bytes_at(frame@, 10, 6)
                &&& p.ssid@ == last_ssid(elements(frame@.skip(mgmt_size(frame@))))
            },
            Err(_) => frame@.len() < 24 || frame@.len() < mgmt_size(frame@),
        },
{
    let transmitter = frame.ta()?;
    let mut it = ProbeRequest::info_elements(frame)?;
    let mut ssid: Vec<u8> = Vec::new();
    let ghost all = elements(it@);
    let ghost seen: Seq<ElementModel> = Seq::empty();
    assert(seen + all =~= all);
    loop
        invariant
            all == seen + elements(it@),
            ssid@ == last_ssid(seen),
        ensures
            all == seen,
            ssid@ == last_ssid(seen),
        decreases it@.len(),
    {
        let ghost before = it@;
        match it.next() {
            None => {
                assert(seen + elements(before) =~= seen);
                break;
            },
            Some(ie) => {
                let ghost e = ie@;
                proof {
                    assert(elements(before) == seq![e] + elements(it@));
                    assert(seen + elements(before) =~= seen.push(e) + elements(it@));
                    assert(seen.push(e).drop_last() =~= seen);
                    seen = seen.push(e);
                }
                match ie {
                    InfoElement::SSID(ie_ssid) => ssid = slice_to_vec(ie_ssid),
                    _ => {},
                }
            },
        }
    }
    Ok(ProbeSighting { transmitter, ssid })
}

} // verus!
