use wimon::netlink::{
    attrs, check_error, create, error_code, family_reply, family_request, generic_header, header,
    interface_reply, interface_request, put_attr, AttrIter, Family, InterfaceType80211, ReplyError,
};

fn reply(ty: u16, attrs: &[u8]) -> Vec<u8> {
    let len = (20 + attrs.len()) as u32;
    let mut m = Vec::new();
    m.extend_from_slice(&len.to_le_bytes());
    m.extend_from_slice(&ty.to_le_bytes());
    m.extend_from_slice(&[0, 0, 1, 0, 0, 0, 0, 0, 0, 0]);
    m.extend_from_slice(&[1, 2, 0, 0]);
    m.extend_from_slice(attrs);
    m
}

fn family_attrs() -> Vec<u8> {
    let mut a = vec![6u8, 0, 1, 0, 0x42, 0x00, 0, 0];
    a.extend_from_slice(&[12, 0, 2, 0]);
    a.extend_from_slice(b"nl80211\0");
    a.extend_from_slice(&[8, 0, 3, 0, 1, 0, 0, 0]);
    a
}

#[test]
fn attribute_padding_of_three_bytes() {
    let mut buf = Vec::new();
    create(&mut buf, 0x10, 1, 1, 0, 3, 2);
    assert_eq!(buf.len(), 20);
    assert_eq!(put_attr(&mut buf, 9, &[0xaa, 0xbb, 0xcc]), Ok(()));
    assert_eq!(buf.len(), 28);
    assert_eq!(&buf[20..22], &[7, 0]);
    assert_eq!(&buf[22..24], &[9, 0]);
    assert_eq!(&buf[24..28], &[0xaa, 0xbb, 0xcc, 0]);
    assert_eq!(header(&buf).unwrap().len, 28);
}

#[test]
fn create_writes_both_headers() {
    let mut buf = vec![0xffu8; 40];
    create(&mut buf, 0x1c, 5, 7, 9, 5, 1);
    let h = header(&buf).unwrap();
    assert_eq!((h.len, h.msg_type, h.flags, h.seq, h.pid), (20, 0x1c, 5, 7, 9));
    let g = generic_header(&buf).unwrap();
    assert_eq!((g.cmd, g.version, g.reserved), (5, 1, 0));
    assert_eq!(buf.len(), 40);
    assert!(buf[20..].iter().all(|&b| b == 0xff));
}

#[test]
fn put_attr_refuses_a_broken_cursor() {
    let mut buf = vec![0u8; 10];
    assert!(put_attr(&mut buf, 1, &[1]).is_err());
    let mut buf2 = Vec::new();
    create(&mut buf2, 0x10, 1, 1, 0, 3, 2);
    buf2[0] = 60;
    assert!(put_attr(&mut buf2, 1, &[1]).is_err());
    assert_eq!(buf2[0], 60);
}

#[test]
fn family_request_bytes() {
    let mut buf = Vec::new();
    assert_eq!(family_request(&mut buf, "nl80211"), Ok(()));
    let mut want = vec![32u8, 0, 0, 0, 0x10, 0, 1, 0, 1, 0, 0, 0, 0, 0, 0, 0, 3, 2, 0, 0];
    want.extend_from_slice(&[12, 0, 2, 0]);
    want.extend_from_slice(b"nl80211\0");
    assert_eq!(buf, want);
}

#[test]
fn interface_request_bytes() {
    let mut buf = Vec::new();
    interface_request(&mut buf, 0x1c, 3);
    let want = vec![
        28u8, 0, 0, 0, 0x1c, 0, 1, 0, 1, 0, 0, 0, 0, 0, 0, 0, 5, 1, 0, 0, 8, 0, 3, 0, 3, 0, 0, 0,
    ];
    assert_eq!(buf, want);
}

#[test]
fn resolves_nl80211_family() {
    let r = reply(0x10, &family_attrs());
    let f = family_reply(&r).unwrap();
    assert_eq!(f.id(), 0x0042);
    assert_eq!(f.name(), "nl80211");
    assert_eq!(f.version(), 1);
}

#[test]
fn family_from_attribute_list() {
    let a = family_attrs();
    let f = Family::from_attrs(AttrIter::new(&a)).unwrap();
    assert_eq!((f.id(), f.name(), f.version()), (0x42, "nl80211", 1));
    let unknown = [8u8, 0, 9, 0, 1, 2, 3, 4];
    let g = Family::from_attrs(AttrIter::new(&unknown)).unwrap();
    assert_eq!((g.id(), g.name(), g.version()), (0, "", 0));
}

#[test]
fn name_without_terminator_is_malformed() {
    let a = [7u8, 0, 2, 0, b'a', b'b', b'c', 0];
    assert_eq!(Family::from_attrs(AttrIter::new(&a)).err(), Some(ReplyError::Malformed));
    let r = reply(0x10, &a);
    assert_eq!(family_reply(&r).err(), Some(ReplyError::Malformed));
    let bad = [9u8, 0, 2, 0, 0xff, 0xfe, b'x', b'y', 0, 0, 0, 0];
    assert_eq!(Family::from_attrs(AttrIter::new(&bad)).err(), Some(ReplyError::Malformed));
}

#[test]
fn kernel_error_reply() {
    let mut r = vec![36u8, 0, 0, 0, 2, 0, 0, 0, 1, 0, 0, 0, 0, 0, 0, 0];
    r.extend_from_slice(&(-19i32).to_le_bytes());
    r.extend_from_slice(&[0u8; 16]);
    assert_eq!(error_code(&r), Ok(Some(-19)));
    assert_eq!(check_error(&r), Err(ReplyError::Netlink(-19)));
    assert_eq!(family_reply(&r).err(), Some(ReplyError::Netlink(-19)));
    let ok = reply(0x10, &[]);
    assert_eq!(error_code(&ok), Ok(None));
    assert_eq!(check_error(&ok), Ok(()));
}

#[test]
fn short_reply_is_out_of_bounds() {
    let r = [0u8; 10];
    assert_eq!(check_error(&r), Err(ReplyError::OutOfBounds));
    assert_eq!(family_reply(&r).err(), Some(ReplyError::OutOfBounds));
    let mut long = reply(0x10, &[]);
    long[0] = 200;
    assert!(attrs(&long).is_err());
    assert_eq!(interface_reply(&long).err(), Some(ReplyError::OutOfBounds));
}

#[test]
fn attribute_iteration_stops_on_truncation() {
    let a = [8u8, 0, 1, 0, 1, 2, 3, 4, 12, 0, 2, 0, 9, 9];
    let mut it = AttrIter::new(&a);
    let (ty, data) = it.next().unwrap();
    assert_eq!((ty, data), (1, &[1u8, 2, 3, 4][..]));
    assert!(it.next().is_none());
    let three = [4u8, 0, 1];
    assert!(AttrIter::new(&three).next().is_none());
    let tiny = [2u8, 0, 1, 0, 5, 5];
    assert!(AttrIter::new(&tiny).next().is_none());
}

#[test]
fn unpadded_last_attribute_is_read() {
    let a = [5u8, 0, 7, 0, 0x33];
    let mut it = AttrIter::new(&a);
    assert_eq!(it.next(), Some((7, &[0x33u8][..])));
    assert!(it.next().is_none());
}

#[test]
fn interface_reply_decodes_type() {
    let mut a = vec![8u8, 0, 3, 0, 4, 0, 0, 0];
    a.extend_from_slice(&[10, 0, 4, 0]);
    a.extend_from_slice(b"wlan0\0");
    a.extend_from_slice(&[0, 0]);
    a.extend_from_slice(&[8, 0, 5, 0, 6, 0, 0, 0]);
    let r = reply(0x1c, &a);
    let i = interface_reply(&r).unwrap();
    assert_eq!(i.index, 4);
    assert_eq!(i.name, "wlan0");
    assert_eq!(i.kind, InterfaceType80211::Monitor);
}

#[test]
fn interface_types_from_raw() {
    assert_eq!(InterfaceType80211::from_raw(6), InterfaceType80211::Monitor);
    assert_eq!(InterfaceType80211::from_raw(255), InterfaceType80211::Unknown);
    assert_eq!(InterfaceType80211::from_raw(0), InterfaceType80211::Unspecified);
    assert_eq!(InterfaceType80211::from_raw(12), InterfaceType80211::NAN);
    assert_eq!(InterfaceType80211::from_raw(13), InterfaceType80211::Unknown);
    assert_eq!(InterfaceType80211::from_bytes(&[2, 0, 0, 0]), Ok(InterfaceType80211::Station));
    assert!(InterfaceType80211::from_bytes(&[2, 0]).is_err());
}

#[test]
fn largest_attribute_payload() {
    let mut buf = Vec::new();
    create(&mut buf, 0x10, 1, 1, 0, 3, 2);
    let big = vec![7u8; 0xffff - 4];
    assert_eq!(put_attr(&mut buf, 1, &big), Ok(()));
    assert_eq!(&buf[20..22], &[0xff, 0xff]);
    assert_eq!(buf.len(), 20 + 0x10000);
    assert_eq!(header(&buf).unwrap().len, 20 + 0x10000);
    let mut again = Vec::new();
    create(&mut again, 0x10, 1, 1, 0, 3, 2);
    let too_big = vec![7u8; 0xffff - 3];
    assert!(put_attr(&mut again, 1, &too_big).is_err());
    assert_eq!(again.len(), 20);
}

#[test]
fn put_attr_keeps_bytes_past_the_message() {
    let mut buf = vec![0xeeu8; 40];
    create(&mut buf, 0x10, 1, 1, 0, 3, 2);
    assert_eq!(put_attr(&mut buf, 9, &[0xaa, 0xbb, 0xcc]), Ok(()));
    assert_eq!(buf.len(), 40);
    assert_eq!(header(&buf).unwrap().len, 28);
    assert_eq!(&buf[20..28], &[7, 0, 9, 0, 0xaa, 0xbb, 0xcc, 0]);
    assert!(buf[28..].iter().all(|&b| b == 0xee));
    let mut short = vec![0xeeu8; 24];
    create(&mut short, 0x10, 1, 1, 0, 3, 2);
    assert_eq!(put_attr(&mut short, 9, &[1, 2, 3, 4, 5]), Ok(()));
    assert_eq!(short.len(), 32);
    assert_eq!(&short[20..32], &[9, 0, 9, 0, 1, 2, 3, 4, 5, 0, 0, 0]);
}

#[test]
fn requests_in_a_scratch_buffer() {
    let mut buf = vec![0x55u8; 4096];
    family_request(&mut buf, "nl80211").unwrap();
    let len = header(&buf).unwrap().len as usize;
    assert_eq!(len, 32);
    assert_eq!(&buf[20..32], b"\x0c\x00\x02\x00nl80211\x00");
    assert_eq!(buf.len(), 4096);
    assert!(buf[32..].iter().all(|&b| b == 0x55));
    interface_request(&mut buf, 0x1c, 3);
    assert_eq!(header(&buf).unwrap().len, 28);
    assert_eq!(&buf[20..28], &[8, 0, 3, 0, 3, 0, 0, 0]);
    assert_eq!(&buf[28..32], b"211\x00");
    assert!(buf[32..].iter().all(|&b| b == 0x55));
}
