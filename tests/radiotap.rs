use wimon::radiotap::{AntennaSignal, Channel, Field, InvalidField, Iter, RadioTap};

#[test]
fn channel_alone_needs_no_padding() {
    let buf = [0u8, 0, 12, 0, 0x08, 0, 0, 0, 0x6c, 0x09, 0xa0, 0x00, 0xee];
    assert_eq!(buf.version(), Ok(0));
    assert_eq!(RadioTap::len(buf.as_slice()), Ok(12));
    let mut it = RadioTap::iter(buf.as_slice()).unwrap();
    let f = it.next().unwrap();
    match f {
        Field::Channel(b) => assert_eq!(b, &[0x6c, 0x09, 0xa0, 0x00]),
        _ => panic!("expected a channel field"),
    }
    let c = Channel::try_from(f).unwrap();
    assert_eq!(c.frequency_mhz(), 2412);
    assert_eq!(c.flags(), 0x00a0);
    assert!(it.next().is_none());
}

#[test]
fn fields_in_bit_order_with_padding() {
    // flags (bit 1) at offset 8, then channel (bit 3, alignment 2) at offset 9 + 1 pad,
    // then antenna signal (bit 5) at 14
    let buf = [0u8, 0, 15, 0, 0x2a, 0, 0, 0, 0x10, 0xff, 0x85, 0x16, 0x40, 0x01, 0xc4];
    let mut it = RadioTap::iter(buf.as_slice()).unwrap();
    match it.next() {
        Some(Field::Flags(b)) => assert_eq!(b, &[0x10]),
        _ => panic!("expected flags"),
    }
    let c = Channel::try_from(it.next().unwrap()).unwrap();
    assert_eq!(c.frequency_mhz(), 5765);
    let s = AntennaSignal::try_from(it.next().unwrap()).unwrap();
    assert_eq!(s.dbm(), -60);
    assert!(it.next().is_none());
}

#[test]
fn unsurfaced_fields_are_skipped_by_size() {
    // antenna noise (bit 6) and lock quality (bit 7) are not surfaced; with TSFT (bit 0)
    // and antenna signal (bit 5)
    let mut buf = vec![0u8, 0, 20, 0, 0xe1, 0, 0, 0];
    buf.extend_from_slice(&[1, 2, 3, 4, 5, 6, 7, 8]);
    buf.extend_from_slice(&[0xd8, 0xa0, 0x05, 0x00]);
    let mut it = RadioTap::iter(buf.as_slice()).unwrap();
    match it.next() {
        Some(Field::TSFT(b)) => assert_eq!(b, &[1, 2, 3, 4, 5, 6, 7, 8]),
        _ => panic!("expected TSFT"),
    }
    let s = AntennaSignal::try_from(it.next().unwrap()).unwrap();
    assert_eq!(s.dbm(), -40);
    assert!(it.next().is_none());
}

#[test]
fn extension_words_move_the_data() {
    // base word with bit 31 and bit 2 (rate), one extension word
    let buf = [0u8, 0, 13, 0, 0x04, 0, 0, 0x80, 0, 0, 0, 0, 0x0c];
    let mut it = RadioTap::iter(buf.as_slice()).unwrap();
    match it.next() {
        Some(Field::Rate(b)) => assert_eq!(b, &[0x0c]),
        _ => panic!("expected a rate field"),
    }
    assert!(it.next().is_none());
}

#[test]
fn truncated_field_ends_the_walk() {
    let buf = [0u8, 0, 10, 0, 0x08, 0, 0, 0, 0x6c, 0x09];
    let mut it = RadioTap::iter(buf.as_slice()).unwrap();
    assert!(it.next().is_none());
    assert!(it.next().is_none());
}

#[test]
fn declared_length_past_buffer_is_refused() {
    let buf = [0u8, 0, 40, 0, 0, 0, 0, 0];
    assert!(RadioTap::iter(buf.as_slice()).is_err());
    let short = [0u8, 0, 8];
    assert!(short.version().is_err());
    assert!(RadioTap::len(short.as_slice()).is_err());
    let mut it = Iter::new(&short);
    assert!(it.next().is_none());
}

#[test]
fn conversion_of_the_wrong_field_fails() {
    let b = [1u8];
    assert_eq!(Channel::try_from(Field::Rate(&b)).err(), Some(InvalidField));
    assert!(AntennaSignal::try_from(Field::Flags(&b)).is_err());
    assert!(Channel::try_from(Field::Channel(&b)).is_err());
}

#[test]
fn tsft_flags_channel_in_order() {
    let rt = [
        0x00u8, 0x00, 0x16, 0x00, 0x0b, 0x00, 0x00, 0x00, 1, 2, 3, 4, 5, 6, 7, 8, 0x10, 0xff, 0x6c,
        0x09, 0xa0, 0x00,
    ];
    let mut it = RadioTap::iter(rt.as_slice()).unwrap();
    match it.next() {
        Some(Field::TSFT(b)) => assert_eq!(b, &rt[8..16]),
        _ => panic!("expected TSFT"),
    }
    match it.next() {
        Some(Field::Flags(b)) => assert_eq!(b, &rt[16..17]),
        _ => panic!("expected flags"),
    }
    match it.next() {
        Some(Field::Channel(b)) => assert_eq!(b, &rt[18..22]),
        _ => panic!("expected a channel field"),
    }
    assert!(it.next().is_none());
}

#[test]
fn channel_cut_off_by_declared_length() {
    let rt = [0x00u8, 0x00, 0x09, 0x00, 0x08, 0x00, 0x00, 0x00, 0x85];
    let mut it = RadioTap::iter(rt.as_slice()).unwrap();
    assert!(it.next().is_none());
    assert!(it.next().is_none());
}
