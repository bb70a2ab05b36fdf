use ert::{Envelope, Payload, SchemaTag, Severity, EncodeError, RECORD_SIZE};

fn sample(text: &[u8]) -> Envelope {
    let mut context = [0u8; 64];
    context[0] = 0xAB;
    context[63] = 0xCD;
    Envelope {
        timestamp: 0x0102_0304_0506_0708,
        severity: Severity::Warn,
        producer_id: 0x1122,
        sequence: 0x3344,
        context,
        payload: Payload::free_form(text),
    }
}

#[test]
fn record_layout_is_byte_exact() {
    let bytes = sample(b"hi").encode();
    assert_eq!(bytes.len(), RECORD_SIZE);
    assert_eq!(&bytes[0..8], &[1, 2, 3, 4, 5, 6, 7, 8]);
    assert_eq!(bytes[8], 3);
    assert_eq!(&bytes[9..11], &[0x11, 0x22]);
    assert_eq!(&bytes[11..13], &[0x33, 0x44]);
    assert_eq!(bytes[13], 0xAB);
    assert_eq!(bytes[76], 0xCD);
    assert_eq!(bytes[77], 0);
    assert_eq!(&bytes[78..80], &[0, 2]);
    assert_eq!(&bytes[80..82], b"hi");
    assert!(bytes[82..].iter().all(|b| *b == 0));
}

#[test]
fn decode_inverts_encode() {
    let e = sample(b"pressure low");
    let back = Envelope::decode(&e.encode()).unwrap();
    assert_eq!(back, e);
    assert_eq!(back.payload.data(), b"pressure low".to_vec());
}

#[test]
fn free_form_text_is_truncated_silently() {
    let long = vec![b'x'; 600];
    let p = Payload::free_form(&long);
    assert_eq!(p.len(), 512);
    assert_eq!(p.data(), vec![b'x'; 512]);
    assert!(!p.is_structured());
}

#[test]
fn oversize_structured_payload_is_rejected() {
    let tag = SchemaTag::new(7).unwrap();
    assert_eq!(Payload::structured(tag, &vec![1u8; 513]), Err(EncodeError::Oversize));
    let ok = Payload::structured(tag, &vec![1u8; 512]).unwrap();
    assert_eq!(ok.len(), 512);
    assert_eq!(ok.schema().unwrap().raw(), 7);
}

#[test]
fn decode_rejects_what_is_no_record() {
    let good = sample(b"abc").encode();
    assert!(Envelope::decode(&good[..591]).is_none());
    let mut bad_severity = good.clone();
    bad_severity[8] = 5;
    assert!(Envelope::decode(&bad_severity).is_none());
    let mut bad_len = good.clone();
    bad_len[78] = 2;
    bad_len[79] = 1;
    assert!(Envelope::decode(&bad_len).is_none());
    let mut bad_padding = good.clone();
    bad_padding[591] = 1;
    assert!(Envelope::decode(&bad_padding).is_none());
}

#[test]
fn default_record_is_blank() {
    let e = Envelope::default();
    assert_eq!(e.timestamp, 0);
    assert_eq!(e.severity, Severity::Trace);
    assert_eq!(e.producer_id, 0);
    assert_eq!(e.sequence, 0);
    assert_eq!(e.context, [0u8; 64]);
    assert_eq!(e.payload.len(), 0);
    assert!(!e.payload.is_structured());
    assert!(e.payload.schema().is_none());
    let bytes = e.encode();
    assert_eq!(bytes, vec![0u8; RECORD_SIZE]);
}

#[test]
fn every_record_has_the_same_size() {
    let tag = SchemaTag::new(9).unwrap();
    let mut small = Envelope::default();
    small.payload = Payload::structured(tag, &[1, 2, 3]).unwrap();
    let mut large = Envelope::default();
    large.payload = Payload::free_form(&vec![7u8; 512]);
    assert_eq!(small.encode().len(), 592);
    assert_eq!(large.encode().len(), 592);
    assert_eq!(std::mem::size_of_val(&small), std::mem::size_of_val(&large));
}

#[test]
fn structured_record_carries_its_schema_tag() {
    let tag = SchemaTag::new(200).unwrap();
    let mut e = Envelope::default();
    e.severity = Severity::Error;
    e.payload = Payload::structured(tag, &[0xDE, 0xAD]).unwrap();
    let bytes = e.encode();
    assert_eq!(bytes[8], 4);
    assert_eq!(bytes[77], 200);
    assert_eq!(&bytes[78..80], &[0, 2]);
    assert_eq!(&bytes[80..82], &[0xDE, 0xAD]);
    let back = Envelope::decode(&bytes).unwrap();
    assert_eq!(back, e);
    assert!(back.payload.is_structured());
    assert_eq!(back.payload.schema().unwrap().raw(), 200);
}

#[test]
fn zero_is_no_schema_tag() {
    assert!(SchemaTag::new(0).is_none());
    assert_eq!(SchemaTag::new(1).unwrap().raw(), 1);
}

#[test]
fn registry_hands_out_tags_in_order_until_exhausted() {
    let mut registry = ert::SchemaRegistry::new();
    let first = registry.register().unwrap();
    let second = registry.register().unwrap();
    assert_eq!(first.raw(), 1);
    assert_eq!(second.raw(), 2);
    assert!(registry.is_registered(second));
    assert!(!registry.is_registered(SchemaTag::new(3).unwrap()));
    for expected in 3..=254u16 {
        assert_eq!(registry.register().unwrap().raw() as u16, expected);
    }
    assert!(registry.register().is_none());
    assert!(registry.register().is_none());
    assert!(registry.is_registered(SchemaTag::new(254).unwrap()));
    assert!(!registry.is_registered(SchemaTag::new(ert::GOAL_SCHEMA).unwrap()));
}

#[test]
fn full_budget_payload_round_trips() {
    let mut e = sample(&[]);
    let text: Vec<u8> = (0..512u32).map(|i| (i % 251) as u8 + 1).collect();
    e.payload = Payload::free_form(&text);
    let back = Envelope::decode(&e.encode()).unwrap();
    assert_eq!(back.payload.data(), text);
    assert_eq!(back, e);
}

#[test]
fn whatever_a_codec_leaves_behind_is_well_defined() {
    let tag = SchemaTag::new(4).unwrap();
    let mut buf = [0xAAu8; 512];
    buf[0] = 1;
    buf[1] = 2;
    assert_eq!(Payload::from_encoded(tag, buf, None), Err(EncodeError::Oversize));
    assert_eq!(Payload::from_encoded(tag, buf, Some(513)), Err(EncodeError::Oversize));
    assert_eq!(Payload::from_encoded(tag, buf, Some(u16::MAX)), Err(EncodeError::Oversize));
    let p = Payload::from_encoded(tag, buf, Some(2)).unwrap();
    assert_eq!(p.data(), vec![1, 2]);
    assert_eq!(p, Payload::structured(tag, &[1, 2]).unwrap());
    let all = Payload::from_encoded(tag, buf, Some(512)).unwrap();
    assert_eq!(all.data(), buf.to_vec());
    let none = Payload::from_encoded(tag, buf, Some(0)).unwrap();
    assert_eq!(none.len(), 0);
    assert_eq!(none.schema().unwrap().raw(), 4);
}
