use wimon::bytes::{BytesDisplay, MemCast, OutOfBounds};
use wimon::ieee80211::element::{InfoElement, InfoElementId, InfoElementIter};
use wimon::ieee80211::field::{Capability, FrameControl, MACAddr, StationKind};
use wimon::ieee80211::frame::{Beacon, Frame, Management, ProbeRequest};

fn beacon_frame(order: bool, body: &[u8]) -> Vec<u8> {
    let mut f = vec![0x80u8, if order { 0x80 } else { 0x00 }];
    f.extend_from_slice(&[0x3a, 0x01]);
    f.extend_from_slice(&[0xff, 0xff, 0xff, 0xff, 0xff, 0xff]);
    f.extend_from_slice(&[0x02, 0x11, 0x22, 0x33, 0x44, 0x55]);
    f.extend_from_slice(&[0x02, 0xaa, 0xbb, 0xcc, 0xdd, 0xee]);
    f.extend_from_slice(&[0x10, 0x20]);
    if order {
        f.extend_from_slice(&[9, 9, 9, 9]);
    }
    f.extend_from_slice(&[1, 2, 3, 4, 5, 6, 7, 8]);
    f.extend_from_slice(&[0x64, 0x00]);
    f.extend_from_slice(&[0x01, 0x04]);
    f.extend_from_slice(body);
    f
}

#[test]
fn elements_round_trip_until_truncation() {
    let buf = [0u8, 3, b'a', b'b', b'c', 3, 1, 6, 5, 2, 0xde, 0xad, 0, 10, 1];
    let mut it = InfoElementIter::new(&buf);
    match it.next() {
        Some(InfoElement::SSID(s)) => assert_eq!(s, b"abc"),
        _ => panic!("expected an SSID"),
    }
    match it.next() {
        Some(InfoElement::DSSS(c)) => assert_eq!(c, 6),
        _ => panic!("expected a DSSS element"),
    }
    match it.next() {
        Some(InfoElement::Generic(g)) => {
            assert_eq!(g.id(), 5);
            assert_eq!(g.data(), &[0xde, 0xad]);
        }
        _ => panic!("expected a generic element"),
    }
    assert!(it.next().is_none());
    assert!(it.next().is_none());
}

#[test]
fn element_length_past_end_yields_nothing() {
    let buf = [0u8, 5, b'a', b'b'];
    let mut it = InfoElementIter::new(&buf);
    assert!(it.next().is_none());
    let one = [7u8];
    assert!(InfoElementIter::new(&one).next().is_none());
    let empty: [u8; 0] = [];
    assert!(InfoElementIter::new(&empty).next().is_none());
}

#[test]
fn empty_dsss_ends_iteration() {
    let buf = [3u8, 0, 0, 1, b'x'];
    assert!(InfoElementIter::new(&buf).next().is_none());
}

#[test]
fn zero_length_generic_and_ssid() {
    let buf = [0u8, 0, 42, 0];
    let mut it = InfoElementIter::new(&buf);
    match it.next() {
        Some(InfoElement::SSID(s)) => assert!(s.is_empty()),
        _ => panic!("expected an empty SSID"),
    }
    match it.next() {
        Some(InfoElement::Generic(g)) => {
            assert_eq!(g.id(), 42);
            assert!(g.data().is_empty());
        }
        _ => panic!("expected a generic element"),
    }
    assert!(it.next().is_none());
}

#[test]
fn element_ids() {
    assert_eq!(InfoElementId::SSID.code(), 0);
    assert_eq!(InfoElementId::DSSS.code(), 3);
}

#[test]
fn frame_control_classification() {
    let beacon = FrameControl::new([0x80, 0x00]);
    assert!(beacon.is_beacon());
    assert!(!beacon.is_probe_request());
    assert!(beacon.is_beacon());
    let probe = FrameControl::new([0x40, 0x00]);
    assert!(probe.is_probe_request());
    assert!(!probe.is_beacon());
    let data = FrameControl::new([0x88, 0x00]);
    assert!(!data.is_beacon());
    assert!(!data.is_probe_request());
    assert_eq!(FrameControl::new([0x80, 0x81]).get(), 0x8180);
    assert!(FrameControl::new([0x80, 0x81]).is_beacon());
}

#[test]
fn frame_size_follows_order_bit() {
    assert_eq!(FrameControl::new([0x80, 0x00]).frame_size(), 24);
    assert_eq!(FrameControl::new([0x80, 0x80]).frame_size(), 28);
    assert!(FrameControl::new([0x00, 0x80]).has_order());
    assert!(!FrameControl::new([0xff, 0x7f]).has_order());
    assert_eq!(FrameControl::new([0xff, 0x7f]).frame_size(), 24);
    let f = beacon_frame(true, &[]);
    assert_eq!(Management::size_of(f.as_slice()), Ok(28));
    assert_eq!(f.ht_control(), Ok(Some([9, 9, 9, 9])));
    let g = beacon_frame(false, &[]);
    assert_eq!(Management::size_of(g.as_slice()), Ok(24));
    assert_eq!(g.ht_control(), Ok(None));
}

#[test]
fn capability_classes() {
    assert_eq!(Capability::new([0x01, 0x00]).kind(), StationKind::AccessPoint);
    assert_eq!(Capability::new([0x02, 0x00]).kind(), StationKind::AdHoc);
    assert_eq!(Capability::new([0x03, 0x00]).kind(), StationKind::Mesh);
    assert_eq!(Capability::new([0x00, 0x00]).kind(), StationKind::Ocb);
    assert!(Capability::new([0x31, 0x04]).has_ess());
    assert!(!Capability::new([0x31, 0x04]).has_ibss());
}

#[test]
fn management_header_fields() {
    let f = beacon_frame(false, &[]);
    let h = f.header().unwrap();
    assert_eq!(h.duration, [0x3a, 0x01]);
    assert_eq!(h.addr1.octets(), [0xff; 6]);
    assert_eq!(h.seq_control, [0x10, 0x20]);
    assert_eq!(f.ta().unwrap().octets(), [0x02, 0x11, 0x22, 0x33, 0x44, 0x55]);
    assert_eq!(f.sa().unwrap(), f.addr2().unwrap());
    assert_eq!(f.ra().unwrap(), f.da().unwrap());
    assert_eq!(f.bssid().unwrap().octets(), [0x02, 0xaa, 0xbb, 0xcc, 0xdd, 0xee]);
    assert_eq!(f.duration_id(), Ok([0x3a, 0x01]));
    assert_eq!(f.seq_control(), Ok([0x10, 0x20]));
    assert!(f.control().unwrap().is_beacon());
    assert!(f[..23].addr1().is_err());
    let empty: [u8; 0] = [];
    assert!(empty.control().is_err());
}

#[test]
fn beacon_fields_after_ht_control() {
    let f = beacon_frame(true, &[0, 2, b'h', b'i']);
    assert_eq!(f.timestamp(), Ok([1, 2, 3, 4, 5, 6, 7, 8]));
    assert_eq!(f.interval().unwrap().get(), 100);
    assert!(f.capability().unwrap().has_ess());
    let mut it = Beacon::info_elements(f.as_slice()).unwrap();
    match it.next() {
        Some(InfoElement::SSID(s)) => assert_eq!(s, b"hi"),
        _ => panic!("expected an SSID"),
    }
    assert!(it.next().is_none());
    let short = beacon_frame(false, &[]);
    assert!(Beacon::info_elements(&short[..short.len() - 1]).is_err());
}

#[test]
fn probe_request_elements_follow_header() {
    let mut f = vec![0x40u8, 0x00, 0, 0];
    f.extend_from_slice(&[0xff; 6]);
    f.extend_from_slice(&[1, 2, 3, 4, 5, 6]);
    f.extend_from_slice(&[0xff; 6]);
    f.extend_from_slice(&[0, 0]);
    f.extend_from_slice(&[0, 4, b'h', b'o', b'm', b'e']);
    let mut it = ProbeRequest::info_elements(f.as_slice()).unwrap();
    match it.next() {
        Some(InfoElement::SSID(s)) => assert_eq!(s, b"home"),
        _ => panic!("expected an SSID"),
    }
    assert!(ProbeRequest::info_elements(&f[..20]).is_err());
}

#[test]
fn mac_text_form() {
    let m = MACAddr::new([0x00, 0x1b, 0xa5, 0xff, 0x0a, 0x9c]);
    assert_eq!(m.to_text(), "00:1b:a5:ff:0a:9c");
}

#[test]
fn cast_is_bounds_checked() {
    let buf = [1u8, 2, 3];
    assert_eq!(buf.cast_ref::<2>(1), Ok([2, 3]));
    assert_eq!(buf.cast_ref::<2>(2), Err(OutOfBounds));
    assert_eq!(buf.cast_ref::<4>(0), Err(OutOfBounds));
    assert_eq!(buf.cast_ref::<1>(usize::MAX), Err(OutOfBounds));
}

#[test]
fn bytes_display_text() {
    assert_eq!(BytesDisplay::from(b"caf\xc3\xa9").text(), Some("café".to_string()));
    assert_eq!(BytesDisplay::from(&[0xff, 0xfe]).text(), None);
    assert_eq!(BytesDisplay::from(&[0xff]).bytes(), &[0xff]);
}

#[test]
fn bytes_display_forms() {
    assert_eq!(BytesDisplay::from(b"home").to_text(), "\"home\"");
    assert_eq!(BytesDisplay::from(&[0xff, 0, 12]).to_text(), "[255, 0, 12]");
    assert_eq!(BytesDisplay::from(&[]).to_text(), "\"\"");
}
