use tc_netlink::constants::{TC_H_INGRESS, TC_H_ROOT};
use tc_netlink::{
    parse_nlas,
    Class, DecodeError, DefaultNla, Filter, Ingress, Nla, Part, Qdisc, Stats, Stats2, TcHeader,
    TcMessage, TcMessageBuffer,
};

fn header() -> Vec<u8> {
    vec![0, 0, 0, 0, 84, 0, 0, 0, 0, 0, 255, 255, 241, 255, 255, 255, 1, 0, 0, 0]
}

fn with_attrs(attrs: &[u8]) -> Vec<u8> {
    let mut b = header();
    b.extend_from_slice(attrs);
    b
}

fn parse_qdisc(bytes: &[u8]) -> Result<TcMessage<Qdisc>, DecodeError> {
    let packet = TcMessageBuffer::new(bytes);
    TcMessage::<Qdisc>::parse(&packet)
}

fn encode<A: tc_netlink::TcOptions>(msg: &TcMessage<A>) -> Vec<u8> {
    assert!(msg.fits());
    let mut buf = vec![0; msg.buffer_len()];
    msg.emit(&mut buf[..]);
    buf
}

fn ingress_packet() -> Vec<u8> {
    let mut attrs = vec![12, 0, 1, 0, 105, 110, 103, 114, 101, 115, 115, 0, 4, 0, 2, 0];
    attrs.extend_from_slice(&[5, 0, 12, 0, 0, 0, 0, 0]);
    attrs.extend_from_slice(&[48, 0, 7, 0, 20, 0, 1, 0]);
    attrs.extend_from_slice(&[0; 16]);
    attrs.extend_from_slice(&[24, 0, 3, 0]);
    attrs.extend_from_slice(&[0; 20]);
    attrs.extend_from_slice(&[44, 0, 3, 0]);
    attrs.extend_from_slice(&[0; 40]);
    with_attrs(&attrs)
}

#[test]
fn decoded_packet_matches_the_scenario() {
    let bytes = ingress_packet();
    assert_eq!(bytes.len(), 136);
    let msg = parse_qdisc(&bytes).unwrap();
    assert_eq!(
        msg.header,
        TcHeader { family: 0, index: 84, handle: 0xffff0000, parent: TC_H_INGRESS, info: 1 }
    );
    assert_eq!(msg.nlas.len(), 5);
    assert_eq!(msg.nlas[0], Nla::Kind("ingress".to_string()));
    assert_eq!(msg.nlas[1], Nla::Options(Qdisc::Ingress(Ingress())));
    assert_eq!(msg.nlas[2], Nla::HwOffload(0));
    assert_eq!(
        msg.nlas[3],
        Nla::Stats2(vec![Stats2::StatsBasic(vec![0; 16]), Stats2::StatsQueue(vec![0; 20])])
    );
    match &msg.nlas[4] {
        Nla::Stats(s) => {
            assert_eq!(s.packets, 0);
            assert_eq!(s.backlog, 0);
        }
        other => panic!("unexpected attribute {:?}", other),
    }
}

#[test]
fn decode_of_encode_gives_the_message_back() {
    let msg = parse_qdisc(&ingress_packet()).unwrap();
    let again = parse_qdisc(&encode(&msg)).unwrap();
    assert_eq!(again, msg);
}

#[test]
fn encoding_twice_gives_the_same_bytes() {
    let msg = parse_qdisc(&ingress_packet()).unwrap();
    let mut a = vec![0x11; msg.buffer_len()];
    let mut b = vec![0x22; msg.buffer_len()];
    msg.emit(&mut a[..]);
    msg.emit(&mut b[..]);
    // the reserved header bytes keep what each buffer held
    assert_eq!(&a[1..4], &[0x11; 3]);
    assert_eq!(&b[1..4], &[0x22; 3]);
    assert_eq!(a[0], b[0]);
    assert_eq!(&a[4..], &b[4..]);
    let mut c = vec![0x22; msg.buffer_len()];
    msg.emit(&mut c[..]);
    assert_eq!(b, c);
}

#[test]
fn buffer_len_is_header_plus_padded_attributes() {
    let msg = parse_qdisc(&ingress_packet()).unwrap();
    // stats are written as their 36-byte record
    assert_eq!(msg.buffer_len(), 20 + 12 + 4 + 8 + 48 + 40);
    assert_eq!(Nla::<Qdisc>::HwOffload(1).buffer_len(), 8);
    assert_eq!(Nla::<Qdisc>::HwOffload(1).value_len(), 1);
    assert_eq!(Nla::<Qdisc>::Rate(vec![1, 2, 3, 4, 5]).buffer_len(), 12);
    assert_eq!(Nla::<Qdisc>::Kind("ingress".to_string()).value_len(), 8);
    assert_eq!(Nla::<Qdisc>::Stats(Stats { bytes: 0, packets: 0, drops: 0, overlimits: 0, bps: 0, pps: 0, qlen: 0, backlog: 0 }).value_len(), 36);
}

#[test]
fn truncated_attribute_is_a_length_error() {
    let bytes = ingress_packet();
    for cut in [24usize, 30, 40, 50, 60, 96, 100, 135] {
        assert_eq!(
            parse_qdisc(&bytes[..cut]).unwrap_err(),
            DecodeError::Length(Part::Attribute),
            "cut at {}",
            cut
        );
    }
}

#[test]
fn short_header_is_a_length_error() {
    let bytes = ingress_packet();
    assert_eq!(parse_qdisc(&bytes[..19]).unwrap_err(), DecodeError::Length(Part::Header));
    assert!(TcMessageBuffer::new_checked(&bytes[..19]).is_err());
}

#[test]
fn attribute_length_below_header_is_an_error() {
    let bytes = with_attrs(&[2, 0, 1, 0]);
    assert_eq!(parse_qdisc(&bytes).unwrap_err(), DecodeError::Length(Part::Attribute));
}

#[test]
fn trailing_bytes_shorter_than_a_header_end_the_stream() {
    let bytes = with_attrs(&[5, 0, 12, 0, 1, 0, 0, 0, 9, 9, 9]);
    let msg = parse_qdisc(&bytes).unwrap();
    assert_eq!(msg.nlas, vec![Nla::HwOffload(1)]);
}

#[test]
fn unknown_tag_is_kept_whole() {
    let bytes = with_attrs(&[7, 0, 0x63, 0x80, 1, 2, 3, 0]);
    let msg = parse_qdisc(&bytes).unwrap();
    assert_eq!(msg.nlas, vec![Nla::Other(DefaultNla { kind: 0x8063, value: vec![1, 2, 3] })]);
    assert_eq!(encode(&msg), bytes);
}

#[test]
fn nested_flag_is_masked_for_known_tags() {
    let bytes = with_attrs(&[12, 0, 7, 0x80, 8, 0, 4, 0, 9, 8, 7, 6]);
    let msg = parse_qdisc(&bytes).unwrap();
    assert_eq!(msg.nlas, vec![Nla::Stats2(vec![Stats2::StatsApp(vec![9, 8, 7, 6])])]);
}

#[test]
fn options_after_ingress_kind_is_the_marker() {
    let bytes = with_attrs(&[12, 0, 1, 0, 105, 110, 103, 114, 101, 115, 115, 0, 4, 0, 2, 0]);
    let msg = parse_qdisc(&bytes).unwrap();
    assert_eq!(msg.nlas[1], Nla::Options(Qdisc::Ingress(Ingress())));
}

#[test]
fn options_without_kind_stays_raw() {
    let bytes = with_attrs(&[6, 0, 2, 0, 1, 2, 0, 0]);
    let msg = parse_qdisc(&bytes).unwrap();
    assert_eq!(msg.nlas, vec![Nla::Options(Qdisc::Other(vec![1, 2]))]);
}

#[test]
fn options_after_other_kind_stays_raw() {
    let bytes = with_attrs(&[8, 0, 1, 0, 104, 116, 98, 0, 6, 0, 2, 0, 1, 2, 0, 0]);
    let msg = parse_qdisc(&bytes).unwrap();
    assert_eq!(msg.nlas[0], Nla::Kind("htb".to_string()));
    assert_eq!(msg.nlas[1], Nla::Options(Qdisc::Other(vec![1, 2])));
}

#[test]
fn class_and_filter_options_stay_raw() {
    let bytes = with_attrs(&[12, 0, 1, 0, 105, 110, 103, 114, 101, 115, 115, 0, 5, 0, 2, 0, 7, 0, 0, 0]);
    let packet = TcMessageBuffer::new(&bytes[..]);
    let class = TcMessage::<Class>::parse(&packet).unwrap();
    assert_eq!(class.nlas[1], Nla::Options(Class::Other(vec![7])));
    let filter = TcMessage::<Filter>::parse(&packet).unwrap();
    assert_eq!(filter.nlas[1], Nla::Options(Filter::Other(vec![7])));
}

#[test]
fn kind_text_is_decoded_as_utf8() {
    // "é" is two bytes on the wire and one character in the text
    let bytes = with_attrs(&[7, 0, 1, 0, 0xC3, 0xA9, 0, 0]);
    let msg = parse_qdisc(&bytes).unwrap();
    assert_eq!(msg.nlas[0], Nla::Kind("é".to_string()));
    assert_eq!(encode(&msg), with_attrs(&[7, 0, 1, 0, 0xC3, 0xA9, 0, 0]));
}

#[test]
fn kind_without_nul_is_accepted() {
    let bytes = with_attrs(&[7, 0, 1, 0, 97, 98, 99, 0]);
    let msg = parse_qdisc(&bytes).unwrap();
    assert_eq!(msg.nlas[0], Nla::Kind("abc".to_string()));
}

#[test]
fn invalid_kind_text_is_an_error() {
    let bytes = with_attrs(&[6, 0, 1, 0, 0xFF, 0, 0, 0]);
    assert_eq!(parse_qdisc(&bytes).unwrap_err(), DecodeError::InvalidKindText);
}

#[test]
fn short_stats_is_a_length_error() {
    let mut attrs = vec![36, 0, 3, 0];
    attrs.extend_from_slice(&[0; 32]);
    assert_eq!(parse_qdisc(&with_attrs(&attrs)).unwrap_err(), DecodeError::Length(Part::Stats));
}

#[test]
fn stats_fields_are_little_endian() {
    let mut attrs = vec![40, 0, 3, 0];
    attrs.extend_from_slice(&[1, 2, 0, 0, 0, 0, 0, 1]);
    attrs.extend_from_slice(&[3, 0, 0, 0]);
    attrs.extend_from_slice(&[0; 20]);
    attrs.extend_from_slice(&[0, 1, 0, 0]);
    let msg = parse_qdisc(&with_attrs(&attrs)).unwrap();
    match &msg.nlas[0] {
        Nla::Stats(s) => {
            assert_eq!(s.bytes, 0x0100_0000_0000_0201);
            assert_eq!(s.packets, 3);
            assert_eq!(s.backlog, 256);
        }
        other => panic!("unexpected attribute {:?}", other),
    }
}

#[test]
fn hw_offload_of_two_bytes_is_an_error() {
    let bytes = with_attrs(&[6, 0, 12, 0, 1, 1, 0, 0]);
    assert_eq!(parse_qdisc(&bytes).unwrap_err(), DecodeError::Length(Part::HwOffload));
}

#[test]
fn bad_nested_entry_is_an_error() {
    let bytes = with_attrs(&[12, 0, 7, 0, 9, 0, 1, 0, 0, 0, 0, 0]);
    assert_eq!(parse_qdisc(&bytes).unwrap_err(), DecodeError::Length(Part::Stats2Entry));
}

#[test]
fn qdisc_new_builds_ingress_and_refuses_others() {
    assert_eq!(Qdisc::new("ingress"), Ok(Qdisc::Ingress(Ingress())));
    assert_eq!(Qdisc::new("htb"), Err(DecodeError::UnsupportedKind));
    assert_eq!(Qdisc::new(""), Err(DecodeError::UnsupportedKind));
}

#[test]
fn parts_round_trip() {
    let header = TcHeader { family: 2, index: -1, handle: 1, parent: TC_H_ROOT, info: 3 };
    let msg = TcMessage::from_parts(header, vec![Nla::<Qdisc>::Chain(vec![1, 0, 0, 0])]);
    let (h, nlas) = msg.into_parts();
    assert_eq!(h, header);
    assert_eq!(nlas, vec![Nla::Chain(vec![1, 0, 0, 0])]);
}

#[test]
fn header_emit_writes_negative_index() {
    let header = TcHeader { family: 2, index: -2, handle: 1, parent: TC_H_ROOT, info: 3 };
    let mut buf = vec![9; 22];
    header.emit(&mut buf[..]);
    assert_eq!(
        buf,
        vec![2, 9, 9, 9, 254, 255, 255, 255, 1, 0, 0, 0, 255, 255, 255, 255, 3, 0, 0, 0, 9, 9]
    );
    let packet = TcMessageBuffer::new(&buf[..]);
    assert_eq!(TcHeader::parse(&packet), Ok(header));
}

#[test]
fn default_message_is_empty() {
    let msg: TcMessage<Qdisc> = TcMessage::default();
    assert_eq!(msg.header, TcHeader::default());
    assert!(msg.nlas.is_empty());
    assert_eq!(msg.buffer_len(), 20);
}

#[test]
fn oversized_attribute_does_not_fit() {
    let header = TcHeader::default();
    let fits = TcMessage::from_parts(header, vec![Nla::<Qdisc>::Rate(vec![0; 0xFFFF - 4])]);
    assert!(fits.fits());
    assert_eq!(fits.buffer_len(), 20 + 0x10000);
    let too_big = TcMessage::from_parts(header, vec![Nla::<Qdisc>::Rate(vec![0; 0xFFFF - 3])]);
    assert!(!too_big.fits());
    assert!(!Nla::<Qdisc>::Kind("a".repeat(0xFFFF - 4)).fits());
    assert!(Nla::<Qdisc>::Kind("a".repeat(0xFFFF - 5)).fits());
}

#[test]
fn reencoding_a_redecoded_message_is_byte_identical() {
    let first = encode(&parse_qdisc(&ingress_packet()).unwrap());
    let second = encode(&parse_qdisc(&first).unwrap());
    assert_eq!(first, second);
    assert_eq!(&first[..36], &ingress_packet()[..36]);
}

#[test]
fn message_from_index() {
    let a: TcMessage<Qdisc> = TcMessage::from(84i32);
    assert_eq!(a.header.index, 84);
    assert!(a.nlas.is_empty());
    let b: TcMessage<Qdisc> = TcMessage::from(0xFFFF_FFFFu32);
    assert_eq!(b.header.index, -1);
}

#[test]
fn message_emit_keeps_reserved_header_bytes() {
    let msg = parse_qdisc(&ingress_packet()).unwrap();
    let mut buf = vec![7; msg.buffer_len() + 2];
    msg.emit(&mut buf[..]);
    assert_eq!(&buf[1..4], &[7, 7, 7]);
    assert_eq!(buf[0], 0);
    assert_eq!(&buf[4..msg.buffer_len()], &encode(&msg)[4..]);
    assert_eq!(&buf[msg.buffer_len()..], &[7, 7]);
}

#[test]
fn attribute_stream_parses_without_the_message() {
    let bytes = ingress_packet();
    let nlas = parse_nlas::<Qdisc>(&TcMessageBuffer::new(&bytes[..])).unwrap();
    assert_eq!(nlas, parse_qdisc(&bytes).unwrap().nlas);
    assert_eq!(
        parse_nlas::<Qdisc>(&TcMessageBuffer::new(&bytes[..10])),
        Err(DecodeError::Length(Part::Header))
    );
    assert_eq!(
        parse_nlas::<Qdisc>(&TcMessageBuffer::new(&bytes[..30])),
        Err(DecodeError::Length(Part::Attribute))
    );
}

#[test]
fn attribute_stream_round_trips_under_any_header() {
    let bytes = ingress_packet();
    let nlas = parse_nlas::<Qdisc>(&TcMessageBuffer::new(&bytes[..])).unwrap();
    let header = TcHeader { family: 7, index: -5, handle: 3, parent: TC_H_ROOT, info: 9 };
    let msg = TcMessage::from_parts(header, nlas.clone());
    let out = encode(&msg);
    assert_eq!(parse_nlas::<Qdisc>(&TcMessageBuffer::new(&out[..])).unwrap(), nlas);
}
