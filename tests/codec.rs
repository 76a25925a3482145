use nile_stand::codec::{parse_sensor_field, parse_sensor_value, FieldParseError, SensorField, SensorValue};

fn field(name: &str, value: SensorValue) -> SensorField {
    SensorField { name: name.to_string(), value }
}

#[test]
fn parses_each_value_type() {
    assert_eq!(parse_sensor_value("u=42"), Ok(SensorValue::UnsignedInt(42)));
    assert_eq!(parse_sensor_value("i=-17"), Ok(SensorValue::SignedInt(-17)));
    assert_eq!(parse_sensor_value("f=3.14"), Ok(SensorValue::Float("3.14".to_string())));
    assert_eq!(parse_sensor_value("b=true"), Ok(SensorValue::Boolean(true)));
    assert_eq!(parse_sensor_value("b=false"), Ok(SensorValue::Boolean(false)));
}

#[test]
fn boolean_literals_ignore_case() {
    assert_eq!(parse_sensor_value("b=TRUE"), Ok(SensorValue::Boolean(true)));
    assert_eq!(parse_sensor_value("b=FaLsE"), Ok(SensorValue::Boolean(false)));
    assert_eq!(
        parse_sensor_value("b=yes"),
        Err(FieldParseError::InvalidValue("yes".to_string()))
    );
    assert_eq!(
        parse_sensor_value("b=1"),
        Err(FieldParseError::InvalidValue("1".to_string()))
    );
}

#[test]
fn integer_limits() {
    assert_eq!(
        parse_sensor_value("u=18446744073709551615"),
        Ok(SensorValue::UnsignedInt(u64::MAX))
    );
    assert_eq!(
        parse_sensor_value("u=18446744073709551616"),
        Err(FieldParseError::InvalidValue("18446744073709551616".to_string()))
    );
    assert_eq!(
        parse_sensor_value("i=-9223372036854775808"),
        Ok(SensorValue::SignedInt(i64::MIN))
    );
    assert_eq!(
        parse_sensor_value("i=9223372036854775808"),
        Err(FieldParseError::InvalidValue("9223372036854775808".to_string()))
    );
    assert_eq!(parse_sensor_value("u=+7"), Ok(SensorValue::UnsignedInt(7)));
    assert_eq!(
        parse_sensor_value("u=-7"),
        Err(FieldParseError::InvalidValue("-7".to_string()))
    );
    assert_eq!(
        parse_sensor_value("u="),
        Err(FieldParseError::InvalidValue("".to_string()))
    );
}

#[test]
fn no_coercion_between_numeric_kinds() {
    assert_eq!(
        parse_sensor_value("u=1.5"),
        Err(FieldParseError::InvalidValue("1.5".to_string()))
    );
    assert_eq!(
        parse_sensor_value("i=2.0"),
        Err(FieldParseError::InvalidValue("2.0".to_string()))
    );
}

#[test]
fn float_literal_forms() {
    for lit in ["1", "1.", ".5", "-0.25", "+2.5e10", "1E-3", "inf", "-Infinity", "NaN"] {
        let token = format!("f={lit}");
        assert_eq!(
            parse_sensor_value(&token),
            Ok(SensorValue::Float(lit.to_string())),
            "{lit}"
        );
        assert!(lit.parse::<f64>().is_ok(), "{lit}");
    }
    for lit in ["", ".", "abc", "1e", "1.2.3", "e5", "--1", "1 "] {
        let token = format!("f={lit}");
        assert_eq!(
            parse_sensor_value(&token),
            Err(FieldParseError::InvalidValue(lit.to_string())),
            "{lit}"
        );
        assert!(lit.parse::<f64>().is_err(), "{lit}");
    }
}

#[test]
fn value_token_errors() {
    assert_eq!(parse_sensor_value("u"), Err(FieldParseError::MissingValue));
    assert_eq!(parse_sensor_value("u=1=2"), Err(FieldParseError::ToManyTokens));
    assert_eq!(
        parse_sensor_value("x=1"),
        Err(FieldParseError::InvalidType("x".to_string()))
    );
    assert_eq!(
        parse_sensor_value("U=1"),
        Err(FieldParseError::InvalidType("U".to_string()))
    );
}

#[test]
fn field_lines() {
    assert_eq!(
        parse_sensor_field("NP1_OPEN:b=TRUE"),
        Ok(field("NP1_OPEN", SensorValue::Boolean(true)))
    );
    assert_eq!(
        parse_sensor_field("  PT0 : f=3.14 \r"),
        Ok(field("PT0", SensorValue::Float("3.14".to_string())))
    );
    assert_eq!(
        parse_sensor_field("T\0C1:i=\0-5"),
        Ok(field("TC1", SensorValue::SignedInt(-5)))
    );
    assert_eq!(parse_sensor_field("BAD_LINE_NO_DELIM"), Err(FieldParseError::MissingType));
    assert_eq!(parse_sensor_field("a:b:u=1"), Err(FieldParseError::ToManyTokens));
    assert_eq!(parse_sensor_field(":u=1"), Err(FieldParseError::MissingName));
    assert_eq!(parse_sensor_field(" \0\t:b=true"), Err(FieldParseError::MissingName));
    assert_eq!(parse_sensor_field(":x=1"), Err(FieldParseError::MissingName));
    assert_eq!(parse_sensor_field("a=b:u=1"), Err(FieldParseError::ToManyTokens));
    assert_eq!(parse_sensor_field("a:u=1=2"), Err(FieldParseError::ToManyTokens));
    assert_eq!(parse_sensor_field("a:u"), Err(FieldParseError::MissingValue));
    assert_eq!(
        parse_sensor_field("a:q=1"),
        Err(FieldParseError::InvalidType("q".to_string()))
    );
}

#[test]
fn literal_round_trip() {
    for token in ["u=0", "u=18446744073709551615", "i=-9223372036854775808", "i=12", "b=true", "b=false", "f=2.5e3"] {
        let value = parse_sensor_value(token).unwrap();
        let tag = &token[..1];
        let again = parse_sensor_value(&format!("{tag}={}", value.to_text())).unwrap();
        assert_eq!(again, value, "{token}");
    }
    assert_eq!(SensorValue::UnsignedInt(7).to_text(), "7");
    assert_eq!(SensorValue::SignedInt(-42).to_text(), "-42");
    assert_eq!(SensorValue::Boolean(true).to_text(), "true");
    assert_eq!(parse_sensor_value("u=007").unwrap().to_text(), "7");
    assert_eq!(parse_sensor_value("b=TRUE").unwrap().to_text(), "true");
}

#[test]
fn line_round_trip() {
    for line in ["  PT0 : i=-0042 ", "NP1_OPEN:b=TrUe", "TC1:u=+17\r", "PT1:f=-1.5E3", "PT2:f=nan"] {
        let parsed = parse_sensor_field(line).unwrap();
        let tag = match parsed.value {
            SensorValue::UnsignedInt(_) => "u",
            SensorValue::SignedInt(_) => "i",
            SensorValue::Float(_) => "f",
            SensorValue::Boolean(_) => "b",
        };
        let again = format!("{}:{}={}", parsed.name, tag, parsed.value.to_text());
        assert_eq!(parse_sensor_field(&again), Ok(parsed.clone()), "{line}");
    }
    assert_eq!(
        parse_sensor_field("  PT0 : i=-0042 ").unwrap(),
        field("PT0", SensorValue::SignedInt(-42))
    );
}

#[test]
fn unclean_name_does_not_round_trip() {
    let parsed = parse_sensor_field("\0 a:u=1").unwrap();
    assert_eq!(parsed.name, " a");
    let again = parse_sensor_field(&format!("{}:u=1", parsed.name)).unwrap();
    assert_eq!(again.name, "a");
}

#[test]
fn error_texts() {
    assert_eq!(
        FieldParseError::MissingValue.to_text(),
        "Could not parse sensor field: Missing field value"
    );
    assert_eq!(
        FieldParseError::InvalidValue("x".to_string()).to_text(),
        "Could not parse sensor field: Invalid value: 'x'"
    );
    assert_eq!(
        FieldParseError::InvalidType("q".to_string()).to_text(),
        "Could not parse sensor field: Invalid field type: q"
    );
    assert_eq!(
        FieldParseError::ToManyTokens.to_text(),
        "Could not parse sensor field: Too many tokens in field"
    );
}
