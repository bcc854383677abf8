use tlv_rs::raw_tlv::RawTLV;
use tlv_rs::{DemoTag, PayloadCodec, TlvConfig, TlvError, RW, TLV};

fn cfg(tag_width: usize, len_width: usize, big_endian: bool) -> TlvConfig {
    TlvConfig::new(tag_width, len_width, big_endian).unwrap()
}

#[test]
fn config_checks_widths() {
    assert!(TlvConfig::new(0, 2, false).is_none());
    assert!(TlvConfig::new(1, 9, false).is_none());
    assert!(TlvConfig::new(9, 2, true).is_none());
    let c = TlvConfig::new(8, 8, true).unwrap();
    assert_eq!(c.tag_width, 8);
    assert_eq!(c.len_width, 8);
    assert!(c.big_endian);
}

#[test]
fn decode_worked_example() {
    let c = cfg(1, 2, false);
    let bytes = [0x03u8, 0x05, 0x00, 0x11, 0x22, 0x33, 0x44, 0x55];
    let tlv: TLV<DemoTag, Vec<u8>> = TLV::from_bytes(bytes.as_slice(), &c).unwrap();
    assert_eq!(tlv.tlv_type, DemoTag::Three);
    assert_eq!(tlv.data, vec![0x11, 0x22, 0x33, 0x44, 0x55]);
}

#[test]
fn reencode_worked_example() {
    let c = cfg(1, 2, false);
    let tlv: TLV<DemoTag, Vec<u8>> = TLV {
        tlv_type: DemoTag::Three,
        data: vec![0x11, 0x22, 0x33, 0x44, 0x55],
    };
    let mut buf = vec![0u8; 8];
    let written = tlv.into_bytes(&mut buf, &c).unwrap();
    assert_eq!(written, 8);
    assert_eq!(buf, vec![0x03, 0x05, 0x00, 0x11, 0x22, 0x33, 0x44, 0x55]);
}

#[test]
fn exact_consumption_with_trailing_bytes() {
    let c = cfg(1, 2, false);
    let bytes = [0x03u8, 0x05, 0x00, 0x11, 0x22, 0x33, 0x44, 0x55, 0x66];
    let (tlv, consumed): (TLV<DemoTag, Vec<u8>>, usize) = TLV::try_from_ctx(bytes.as_slice(), &c).unwrap();
    assert_eq!(consumed, 8);
    assert_eq!(tlv.tlv_type, DemoTag::Three);
    assert_eq!(tlv.data, vec![0x11, 0x22, 0x33, 0x44, 0x55]);
}

#[test]
fn encode_leaves_trailing_buffer_bytes_alone() {
    let c = cfg(1, 2, false);
    let tlv: TLV<DemoTag, Vec<u8>> = TLV {
        tlv_type: DemoTag::Three,
        data: vec![0x11, 0x22, 0x33, 0x44, 0x55],
    };
    let mut buf = vec![0xEEu8; 10];
    let written = tlv.into_bytes(&mut buf, &c).unwrap();
    assert_eq!(written, 8);
    assert_eq!(
        buf,
        vec![0x03, 0x05, 0x00, 0x11, 0x22, 0x33, 0x44, 0x55, 0xEE, 0xEE]
    );
}

#[test]
fn truncated_header_reports_shortfall() {
    let c = cfg(1, 2, false);
    let bytes = [0x03u8, 0x05];
    let r: Result<TLV<DemoTag, Vec<u8>>, TlvError> = TLV::from_bytes(bytes.as_slice(), &c);
    assert_eq!(r.unwrap_err(), TlvError::InsufficientData { missing: 1 });

    let empty: [u8; 0] = [];
    let r: Result<TLV<DemoTag, Vec<u8>>, TlvError> = TLV::from_bytes(empty.as_slice(), &c);
    assert_eq!(r.unwrap_err(), TlvError::InsufficientData { missing: 3 });
}

#[test]
fn truncated_payload_reports_shortfall() {
    let c = cfg(1, 2, false);
    let bytes = [0x03u8, 0x05, 0x00, 0x11];
    let r: Result<TLV<DemoTag, Vec<u8>>, TlvError> = TLV::from_bytes(bytes.as_slice(), &c);
    assert_eq!(r.unwrap_err(), TlvError::InsufficientData { missing: 4 });
}

#[test]
fn unknown_tag_is_preserved() {
    let c = cfg(1, 2, false);
    let bytes = [0x07u8, 0x01, 0x00, 0xAA];
    let tlv: TLV<DemoTag, Vec<u8>> = TLV::from_bytes(bytes.as_slice(), &c).unwrap();
    assert_eq!(tlv.tlv_type, DemoTag::Unknown(0x07));

    let reencoded = tlv.to_bytes_dynamic(&c).unwrap();
    assert_eq!(reencoded, vec![0x07, 0x01, 0x00, 0xAA]);
}

#[test]
fn oversized_payload_is_refused_and_nothing_is_written() {
    let c = cfg(1, 1, false);
    let tlv: TLV<DemoTag, Vec<u8>> = TLV {
        tlv_type: DemoTag::Three,
        data: vec![0x42u8; 256],
    };
    let mut buf = vec![0u8; 300];
    let r = tlv.clone().into_bytes(&mut buf, &c);
    assert_eq!(r.unwrap_err(), TlvError::LengthOverflow);
    assert!(buf.iter().all(|b| *b == 0));

    assert_eq!(
        tlv.to_bytes_dynamic(&c).unwrap_err(),
        TlvError::LengthOverflow
    );
    assert_eq!(
        tlv.into_bytes_capped(1000, &c).unwrap_err(),
        TlvError::LengthOverflow
    );
}

#[test]
fn largest_payload_that_fits_is_accepted() {
    let c = cfg(1, 1, false);
    let tlv: TLV<DemoTag, Vec<u8>> = TLV {
        tlv_type: DemoTag::Three,
        data: vec![0x42u8; 255],
    };
    let out = tlv.to_bytes_dynamic(&c).unwrap();
    assert_eq!(out.len(), 2 + 255);
    assert_eq!(out[0], 0x03);
    assert_eq!(out[1], 0xFF);
}

#[test]
fn big_endian_length_field() {
    let c = cfg(1, 2, true);
    let tlv: TLV<DemoTag, Vec<u8>> = TLV {
        tlv_type: DemoTag::Three,
        data: vec![0x11, 0x22, 0x33, 0x44, 0x55],
    };
    let out = tlv.to_bytes_dynamic(&c).unwrap();
    assert_eq!(out[1..3], [0x00, 0x05]);
    assert_eq!(out, vec![0x03, 0x00, 0x05, 0x11, 0x22, 0x33, 0x44, 0x55]);
}

#[test]
fn big_endian_round_trip() {
    let c = cfg(2, 2, true);
    let tlv: TLV<u64, Vec<u8>> = TLV {
        tlv_type: 0x0102,
        data: vec![0xDE, 0xAD],
    };
    let out = tlv.to_bytes_dynamic(&c).unwrap();
    assert_eq!(out, vec![0x01, 0x02, 0x00, 0x02, 0xDE, 0xAD]);
    let back: TLV<u64, Vec<u8>> = TLV::from_bytes(out.as_slice(), &c).unwrap();
    assert_eq!(back.tlv_type, 0x0102);
    assert_eq!(back.data, vec![0xDE, 0xAD]);
}

#[test]
fn buffer_too_small_then_exact_fit() {
    let c = cfg(1, 2, false);
    let tlv: TLV<DemoTag, Vec<u8>> = TLV {
        tlv_type: DemoTag::Three,
        data: vec![0x11, 0x22, 0x33, 0x44, 0x55],
    };
    let mut small = vec![0u8; 7];
    let r = tlv.clone().into_bytes(&mut small, &c);
    assert_eq!(r.unwrap_err(), TlvError::BufferTooSmall);
    assert_eq!(small, vec![0u8; 7]);

    let mut exact = vec![0u8; 8];
    let written = tlv.into_bytes(&mut exact, &c).unwrap();
    assert_eq!(written, 8);
    assert_eq!(exact, vec![0x03, 0x05, 0x00, 0x11, 0x22, 0x33, 0x44, 0x55]);
}

#[test]
fn capped_buffer_refuses_then_fits() {
    let c = cfg(1, 2, false);
    let tlv: TLV<DemoTag, Vec<u8>> = TLV {
        tlv_type: DemoTag::Three,
        data: vec![0x11, 0x22, 0x33, 0x44, 0x55],
    };
    let r = tlv.clone().into_bytes_capped(7, &c);
    assert_eq!(r.unwrap_err(), TlvError::BufferTooSmall);

    let out = tlv.clone().into_bytes_capped(8, &c).unwrap();
    assert_eq!(out, vec![0x03, 0x05, 0x00, 0x11, 0x22, 0x33, 0x44, 0x55]);

    let out = tlv.into_bytes_capped(64, &c).unwrap();
    assert_eq!(out.len(), 8);
}

#[test]
fn dynamic_buffer_is_exactly_sized() {
    let c = cfg(1, 2, false);
    let tlv: TLV<DemoTag, Vec<u8>> = TLV {
        tlv_type: DemoTag::Three,
        data: vec![0x11, 0x22, 0x33, 0x44, 0x55],
    };
    assert_eq!(tlv.measure_with(&c), 8);
    let out = tlv.to_bytes_dynamic(&c).unwrap();
    assert_eq!(out.len(), 8);
    assert_eq!(out, vec![0x03, 0x05, 0x00, 0x11, 0x22, 0x33, 0x44, 0x55]);
}

#[test]
fn empty_payload_round_trip() {
    let c = cfg(1, 2, false);
    let tlv: TLV<DemoTag, Vec<u8>> = TLV {
        tlv_type: DemoTag::Three,
        data: vec![],
    };
    let out = tlv.to_bytes_dynamic(&c).unwrap();
    assert_eq!(out, vec![0x03, 0x00, 0x00]);
    let back: TLV<DemoTag, Vec<u8>> = TLV::from_bytes(out.as_slice(), &c).unwrap();
    assert_eq!(back.tlv_type, DemoTag::Three);
    assert!(back.data.is_empty());
}

#[test]
fn round_trip_across_configurations() {
    let payload = vec![0x10u8, 0x20, 0x30, 0x40, 0x50, 0x60, 0x70];
    for &tag_width in &[1usize, 2, 4, 8] {
        for &len_width in &[1usize, 2, 4, 8] {
            for &big_endian in &[false, true] {
                let c = cfg(tag_width, len_width, big_endian);
                let tag: u64 = if tag_width == 1 { 0xAB } else { 0x01FE };
                let tlv: TLV<u64, Vec<u8>> = TLV {
                    tlv_type: tag,
                    data: payload.clone(),
                };
                let out = tlv.to_bytes_dynamic(&c).unwrap();
                assert_eq!(out.len(), tag_width + len_width + payload.len());
                let (back, consumed): (TLV<u64, Vec<u8>>, usize) =
                    TLV::try_from_ctx(out.as_slice(), &c).unwrap();
                assert_eq!(consumed, out.len());
                assert_eq!(back.tlv_type, tag);
                assert_eq!(back.data, payload);
            }
        }
    }
}

#[test]
fn raw_record_decode_and_reencode() {
    let c = cfg(2, 1, true);
    let bytes = [0x12u8, 0x34, 0x02, 0xAA, 0xBB, 0xCC];
    let (raw, consumed) = RawTLV::try_from_ctx(bytes.as_slice(), &c).unwrap();
    assert_eq!(consumed, 5);
    assert_eq!(raw.tlv_type, 0x1234);
    assert_eq!(raw.slice, &[0xAA, 0xBB][..]);
    assert_eq!(raw.measure_with(&c), 5);

    let mut buf = vec![0u8; 5];
    let written = raw.try_into_ctx(&mut buf, &c).unwrap();
    assert_eq!(written, 5);
    assert_eq!(buf, vec![0x12, 0x34, 0x02, 0xAA, 0xBB]);
}

#[test]
fn raw_tag_vocabulary_is_identity() {
    let c = cfg(1, 2, false);
    let bytes = [0x03u8, 0x00, 0x00];
    let tlv: TLV<u64, Vec<u8>> = TLV::from_bytes(bytes.as_slice(), &c).unwrap();
    assert_eq!(tlv.tlv_type, 3u64);
    assert_eq!(tlv.tlv_type.raw(), 3u64);
    assert_eq!(<u64 as RW>::from_raw(7), 7u64);
}

#[test]
fn demo_tag_mapping() {
    assert_eq!(DemoTag::from_raw(3), DemoTag::Three);
    assert_eq!(DemoTag::from_raw(0), DemoTag::Unknown(0));
    assert_eq!(DemoTag::from_raw(0xFFFF_FFFF_FFFF_FFFF), DemoTag::Unknown(u64::MAX));
    assert_eq!(DemoTag::Three.raw(), 3);
    assert_eq!(DemoTag::Unknown(9).raw(), 9);
}

#[test]
fn wire_fields_both_orders() {
    assert_eq!(tlv_rs::wire::write_uint(0x0102, 2, true), vec![0x01, 0x02]);
    assert_eq!(tlv_rs::wire::write_uint(0x0102, 2, false), vec![0x02, 0x01]);
    assert_eq!(
        tlv_rs::wire::write_uint(0x01020304, 4, true),
        vec![0x01, 0x02, 0x03, 0x04]
    );
    let bytes = [0xFFu8, 0x01, 0x02, 0x03];
    assert_eq!(tlv_rs::wire::read_uint(bytes.as_slice(), 1, 2, true), 0x0102);
    assert_eq!(tlv_rs::wire::read_uint(bytes.as_slice(), 1, 2, false), 0x0201);
    assert_eq!(
        tlv_rs::wire::read_uint(bytes.as_slice(), 0, 4, false),
        0x030201FF
    );
}

#[test]
fn widest_fields_round_trip() {
    let c = cfg(8, 8, true);
    let tlv: TLV<u64, Vec<u8>> = TLV {
        tlv_type: u64::MAX,
        data: vec![0x01],
    };
    let out = tlv.to_bytes_dynamic(&c).unwrap();
    assert_eq!(out.len(), 17);
    assert_eq!(&out[0..8], &[0xFF; 8]);
    assert_eq!(&out[8..16], &[0, 0, 0, 0, 0, 0, 0, 1]);
    let back: TLV<u64, Vec<u8>> = TLV::from_bytes(out.as_slice(), &c).unwrap();
    assert_eq!(back.tlv_type, u64::MAX);
    assert_eq!(back.data, vec![0x01]);
}

#[test]
fn nested_record_by_composition() {
    let c = cfg(1, 2, false);
    let inner: TLV<DemoTag, Vec<u8>> = TLV {
        tlv_type: DemoTag::Three,
        data: vec![0x01, 0x02, 0x03],
    };
    let inner_bytes = inner.to_bytes_dynamic(&c).unwrap();
    let outer: TLV<DemoTag, Vec<u8>> = TLV {
        tlv_type: DemoTag::Unknown(9),
        data: inner_bytes.clone(),
    };
    let wire = outer.to_bytes_dynamic(&c).unwrap();
    let outer_back: TLV<DemoTag, Vec<u8>> = TLV::from_bytes(wire.as_slice(), &c).unwrap();
    assert_eq!(outer_back.tlv_type, DemoTag::Unknown(9));
    assert_eq!(outer_back.data, inner_bytes);
    let inner_back: TLV<DemoTag, Vec<u8>> = TLV::from_bytes(outer_back.data.as_slice(), &c).unwrap();
    assert_eq!(inner_back.tlv_type, DemoTag::Three);
    assert_eq!(inner_back.data, vec![0x01, 0x02, 0x03]);
}

#[test]
fn opaque_payload_codec_round_trip() {
    let bytes = [0x0Au8, 0x0B, 0x0C];
    let p: Vec<u8> = <Vec<u8> as PayloadCodec>::read_from_bytes(bytes.as_slice()).unwrap();
    assert_eq!(p, vec![0x0A, 0x0B, 0x0C]);
    assert_eq!(p.measure(), 3);
    assert_eq!(p.write_bytes(), vec![0x0A, 0x0B, 0x0C]);
}
