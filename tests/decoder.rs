use nile_stand::codec::{SensorField, SensorValue};
use nile_stand::decoder::decode_fields;
use nile_stand::link::retain_valve_fields;

fn field(name: &str, value: SensorValue) -> SensorField {
    SensorField { name: name.to_string(), value }
}

#[test]
fn decodes_valve_lines() {
    let (rest, fields) = decode_fields(b"NP1_OPEN:b=TRUE\nNP2_OPEN:b=false\n", "");
    assert_eq!(rest, "");
    assert_eq!(
        fields,
        vec![
            field("NP1_OPEN", SensorValue::Boolean(true)),
            field("NP2_OPEN", SensorValue::Boolean(false)),
        ]
    );
}

#[test]
fn malformed_line_is_skipped() {
    let (rest, fields) = decode_fields(b"BAD_LINE_NO_DELIM\nPT0:f=3.14\n", "");
    assert_eq!(rest, "");
    assert_eq!(fields, vec![field("PT0", SensorValue::Float("3.14".to_string()))]);
    match &fields[0].value {
        SensorValue::Float(lit) => assert_eq!(lit.parse::<f64>().unwrap(), 3.14),
        other => panic!("unexpected {other:?}"),
    }
}

#[test]
fn unterminated_tail_is_carried() {
    let (rest, fields) = decode_fields(b"PT0:u=1\nPT1:u=", "");
    assert_eq!(rest, "PT1:u=");
    assert_eq!(fields, vec![field("PT0", SensorValue::UnsignedInt(1))]);
    let (rest, fields) = decode_fields(b"2\n", &rest);
    assert_eq!(rest, "");
    assert_eq!(fields, vec![field("PT1", SensorValue::UnsignedInt(2))]);
}

#[test]
fn empty_chunk_keeps_remainder() {
    let (rest, fields) = decode_fields(b"", "NP1_OPEN:b=t");
    assert_eq!(rest, "NP1_OPEN:b=t");
    assert!(fields.is_empty());
    let (rest, fields) = decode_fields(&[0u8; 16], "abc");
    assert_eq!(rest, "abc");
    assert!(fields.is_empty());
}

#[test]
fn nul_padding_is_dropped() {
    let mut chunk = b"PT\x000:i=-3\n".to_vec();
    chunk.extend_from_slice(&[0u8; 32]);
    let (rest, fields) = decode_fields(&chunk, "");
    assert_eq!(rest, "");
    assert_eq!(fields, vec![field("PT0", SensorValue::SignedInt(-3))]);
}

#[test]
fn invalid_utf8_chunk_adds_nothing() {
    let (rest, fields) = decode_fields(b"PT0:u=1\n\xff\xfe", "PT9:u=9\n");
    assert_eq!(rest, "");
    assert_eq!(fields, vec![field("PT9", SensorValue::UnsignedInt(9))]);
}

#[test]
fn two_chunks_match_one() {
    let stream: &[u8] = b"NP1_OPEN:b=TRUE\nPT0:f=3.14\nBAD\nTC1:i=-20\nNP4_OPEN:b=false\nPT";
    let (whole_rest, whole) = decode_fields(stream, "X");
    for cut in 0..=stream.len() {
        let (rest1, mut first) = decode_fields(&stream[..cut], "X");
        let (rest2, second) = decode_fields(&stream[cut..], &rest1);
        first.extend(second);
        assert_eq!(first, whole, "cut at {cut}");
        assert_eq!(rest2, whole_rest, "cut at {cut}");
    }
    assert_eq!(whole_rest, "PT");
    assert_eq!(whole.len(), 4);
}

#[test]
fn multibyte_text_is_kept() {
    let (rest, fields) = decode_fields("TÉMP:u=5\n°".as_bytes(), "");
    assert_eq!(rest, "°");
    assert_eq!(fields, vec![field("TÉMP", SensorValue::UnsignedInt(5))]);
}

#[test]
fn only_valve_fields_retained() {
    let (_, fields) = decode_fields(b"NP1_OPEN:b=true\nPT0:f=1.0\nIP3_OPEN:b=false\nNP1:b=true\n", "");
    assert_eq!(fields.len(), 4);
    let kept = retain_valve_fields(fields);
    assert_eq!(
        kept,
        vec![
            field("NP1_OPEN", SensorValue::Boolean(true)),
            field("IP3_OPEN", SensorValue::Boolean(false)),
        ]
    );
}

#[test]
fn nameless_line_is_skipped() {
    let (rest, fields) = decode_fields(b":u=1\n  :b=true\nPT0:u=2\n", "");
    assert_eq!(rest, "");
    assert_eq!(fields, vec![field("PT0", SensorValue::UnsignedInt(2))]);
}
