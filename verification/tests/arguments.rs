use transport_amqp::frame::{Reader, Writer};
use transport_amqp::octets::{number, put_u16, put_u32, put_u64};
use transport_amqp::Error;

#[test]
fn numbers_are_written_most_significant_octet_first() {
    let mut out = Vec::new();
    put_u16(&mut out, 0x0102);
    put_u32(&mut out, 0x0304_0506);
    put_u64(&mut out, 0x0708_090a_0b0c_0d0e);
    assert_eq!(out, [1, 2, 3, 4, 5, 6, 7, 8, 9, 10, 11, 12, 13, 14]);
    assert_eq!(number(&out[2..6]), 0x0304_0506);
    assert_eq!(number(&[]), 0);
}

#[test]
fn every_argument_is_read_back() {
    let mut writer = Writer::new();
    writer
        .octet(0xfe)
        .short(0xfedc)
        .long(0xfedc_ba98)
        .longlong(0xfedc_ba98_7654_3210)
        .shortstr("queue å")
        .longstr(&[0, 1, 2])
        .table(&[("a", "1"), ("b", "22")])
        .bit(true)
        .octet(7);
    let octets = writer.finish();
    let mut reader = Reader::new(&octets);
    assert_eq!(reader.octet(), Ok(0xfe));
    assert_eq!(reader.short(), Ok(0xfedc));
    assert_eq!(reader.long(), Ok(0xfedc_ba98));
    assert_eq!(reader.longlong(), Ok(0xfedc_ba98_7654_3210));
    assert_eq!(reader.shortstr(), Ok("queue å".to_string()));
    assert_eq!(reader.longstr(), Ok(&[0u8, 1, 2][..]));
    assert_eq!(reader.table(), Ok(()));
    assert_eq!(reader.bit(), Ok(true));
    assert_eq!(reader.octet(), Ok(7));
    assert!(reader.rest().is_empty());
}

#[test]
fn strings_and_tables_have_their_octets() {
    let mut writer = Writer::default();
    writer.shortstr("ab").longstr(b"c").table(&[("k", "v")]);
    assert_eq!(
        writer.finish(),
        [
            2, b'a', b'b', 0, 0, 0, 1, b'c', 0, 0, 0, 8, 1, b'k', b'S', 0, 0, 0, 1, b'v'
        ]
    );
}

#[test]
fn bits_pack_from_the_least_significant_and_eight_to_an_octet() {
    let mut writer = Writer::new();
    let bits = [
        true, false, true, true, false, false, false, true, true, false, true,
    ];
    for bit in bits {
        writer.bit(bit);
    }
    writer.octet(0x55).bit(true);
    let octets = writer.finish();
    assert_eq!(octets, [0b1000_1101, 0b0000_0101, 0x55, 1]);
    let mut reader = Reader::new(&octets);
    for bit in bits {
        assert_eq!(reader.bit(), Ok(bit));
    }
    assert_eq!(reader.octet(), Ok(0x55));
    assert_eq!(reader.bit(), Ok(true));
    assert!(reader.rest().is_empty());
}

#[test]
fn a_text_too_long_for_a_short_string_is_cut() {
    let mut writer = Writer::new();
    writer.shortstr(&"x".repeat(300));
    let octets = writer.finish();
    assert_eq!(octets.len(), 256);
    assert_eq!(Reader::new(&octets).shortstr(), Ok("x".repeat(255)));
}

#[test]
fn octets_that_are_not_utf8_are_replaced() {
    let octets = [3, b'a', 0xff, b'b'];
    assert_eq!(
        Reader::new(&octets).shortstr(),
        Ok("a\u{fffd}b".to_string())
    );
}

#[test]
fn reading_past_the_end_fails() {
    let past = Error::ArgumentPastFrame;
    assert_eq!(Reader::new(&[]).octet(), Err(past.clone()));
    assert_eq!(Reader::new(&[1]).short(), Err(past.clone()));
    assert_eq!(Reader::new(&[1, 2, 3]).long(), Err(past.clone()));
    assert_eq!(Reader::new(&[0; 7]).longlong(), Err(past.clone()));
    assert_eq!(Reader::new(&[2, b'a']).shortstr(), Err(past.clone()));
    assert_eq!(Reader::new(&[0, 0, 0, 1]).longstr(), Err(past.clone()));
    assert_eq!(Reader::new(&[0, 0, 0]).table(), Err(past.clone()));
    assert_eq!(Reader::new(&[]).bit(), Err(past));
}
