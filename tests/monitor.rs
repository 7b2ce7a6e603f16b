use wimon::ieee80211::field::StationKind;
use wimon::monitor::{beacon_sighting, probe_sighting, Note, RTapInfo};
use wimon::radiotap::RadioTap;

fn mgmt(fc0: u8, body: &[u8]) -> Vec<u8> {
    let mut f = vec![fc0, 0x00, 0, 0];
    f.extend_from_slice(&[0xff; 6]);
    f.extend_from_slice(&[0x02, 0x11, 0x22, 0x33, 0x44, 0x55]);
    f.extend_from_slice(&[0x02, 0xaa, 0xbb, 0xcc, 0xdd, 0xee]);
    f.extend_from_slice(&[0, 0]);
    f.extend_from_slice(body);
    f
}

#[test]
fn beacon_sighting_collects_ssid_and_channel() {
    let mut body = vec![0u8; 8];
    body.extend_from_slice(&[0x64, 0x00, 0x02, 0x00]);
    body.extend_from_slice(&[0, 3, b'n', b'e', b't', 1, 1, 0x82, 3, 1, 11]);
    let f = mgmt(0x80, &body);
    let b = beacon_sighting(&f).unwrap();
    assert_eq!(b.kind, StationKind::AdHoc);
    assert_eq!(b.transmitter.to_text(), "02:11:22:33:44:55");
    assert_eq!(b.bssid.to_text(), "02:aa:bb:cc:dd:ee");
    assert_eq!(b.notes.len(), 2);
    match &b.notes[0] {
        Note::Ssid(s) => assert_eq!(s, b"net"),
        _ => panic!("expected an SSID note"),
    }
    match &b.notes[1] {
        Note::Channel(c) => assert_eq!(*c, 11),
        _ => panic!("expected a channel note"),
    }
    assert!(beacon_sighting(&f[..30]).is_err());
}

#[test]
fn probe_sighting_takes_last_ssid() {
    let f = mgmt(0x40, &[0, 1, b'a', 1, 1, 0x82, 0, 2, b'b', b'c']);
    let p = probe_sighting(&f).unwrap();
    assert_eq!(p.transmitter.octets(), [0x02, 0x11, 0x22, 0x33, 0x44, 0x55]);
    assert_eq!(p.ssid, b"bc".to_vec());
    let bare = mgmt(0x40, &[]);
    assert!(probe_sighting(&bare).unwrap().ssid.is_empty());
    assert!(probe_sighting(&bare[..20]).is_err());
}

#[test]
fn radio_info_from_radiotap() {
    let buf = [0u8, 0, 15, 0, 0x2a, 0, 0, 0, 0x10, 0xff, 0x85, 0x16, 0x40, 0x01, 0xc4];
    let info = RTapInfo::from(RadioTap::iter(buf.as_slice()).unwrap());
    assert_eq!(info.channel.unwrap().frequency_mhz(), 5765);
    assert_eq!(info.signal.unwrap().dbm(), -60);
    let none = [0u8, 0, 8, 0, 0, 0, 0, 0];
    let empty = RTapInfo::from(RadioTap::iter(none.as_slice()).unwrap());
    assert!(empty.channel.is_none());
    assert!(empty.signal.is_none());
}

#[test]
fn radio_info_text() {
    let buf = [0u8, 0, 15, 0, 0x2a, 0, 0, 0, 0x10, 0xff, 0x85, 0x16, 0x40, 0x01, 0xc4];
    let info = RTapInfo::from(RadioTap::iter(buf.as_slice()).unwrap());
    assert_eq!(info.to_text(), "5765 MHz, -60 dBm");
    let chan = [0u8, 0, 12, 0, 0x08, 0, 0, 0, 0x6c, 0x09, 0xa0, 0x00];
    assert_eq!(RTapInfo::from(RadioTap::iter(chan.as_slice()).unwrap()).to_text(), "2412 MHz");
    let sig = [0u8, 0, 9, 0, 0x20, 0, 0, 0, 0x05];
    assert_eq!(RTapInfo::from(RadioTap::iter(sig.as_slice()).unwrap()).to_text(), "5 dBm");
    let none = [0u8, 0, 8, 0, 0, 0, 0, 0];
    assert_eq!(RTapInfo::from(RadioTap::iter(none.as_slice()).unwrap()).to_text(), "");
}

#[test]
fn radiotap_walk_after_extension_word() {
    let rt = [
        0x00u8, 0x00, 0x18, 0x00, 0x01, 0x00, 0x00, 0x80, 0x00, 0x00, 0x00, 0x00, 0xaa, 0xbb, 0xcc,
        0xdd, 1, 2, 3, 4, 5, 6, 7, 8,
    ];
    let mut it = RadioTap::iter(rt.as_slice()).unwrap();
    match it.next() {
        Some(wimon::radiotap::Field::TSFT(b)) => assert_eq!(b, &rt[16..24]),
        _ => panic!("expected TSFT"),
    }
    assert!(it.next().is_none());
}

#[test]
fn radiotap_ignores_bytes_past_declared_length() {
    let rt = [0u8, 0, 12, 0, 0x08, 0, 0, 0, 0x6c, 0x09, 0xa0, 0x00, 0x80, 0x00, 0xff];
    let mut it = RadioTap::iter(rt.as_slice()).unwrap();
    assert!(it.next().is_some());
    assert!(it.next().is_none());
}
