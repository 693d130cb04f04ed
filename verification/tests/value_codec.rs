//! Reading and writing values of every elementary type.

use ethernet_ip_adapter::config::EipType;
use ethernet_ip_adapter::eip::types::{
    cip_type, decode_value, encode_write, CipType, CipValue, DecodeError, Decoded, DeviceNumber,
    WriteError,
};
use ethernet_ip_adapter::ieee::{F32, F64};
use ethernet_ip_adapter::json::{Json, Number, Object};
use serde_json::Value;

fn single(f: f32) -> CipValue {
    CipValue::Real(F32 { bits: f.to_bits() })
}

fn double(f: f64) -> CipValue {
    CipValue::Lreal(F64 { bits: f.to_bits() })
}

fn number(f: Option<f64>) -> Option<F64> {
    f.map(|v| F64 { bits: v.to_bits() })
}

fn to_json(v: &Value) -> Json {
    match v {
        Value::Null => Json::Null,
        Value::Bool(b) => Json::Bool(*b),
        Value::Number(n) => {
            if let Some(u) = n.as_u64() {
                Json::Number(Number::Unsigned(u))
            } else if let Some(i) = n.as_i64() {
                Json::Number(Number::Signed(i))
            } else {
                let f = n.as_f64().unwrap();
                Json::Number(Number::Float(F64 { bits: f.to_bits() }))
            }
        }
        Value::String(s) => Json::Text(s.clone()),
        Value::Array(items) => Json::Array(items.iter().map(to_json).collect()),
        Value::Object(map) => {
            let mut o = Object::new();
            for (k, v) in map {
                o.insert(k, to_json(v));
            }
            Json::Object(o)
        }
    }
}

fn parse(text: &str) -> Value {
    serde_json::from_str(text).expect("a JSON value")
}

fn json(text: &str) -> Json {
    to_json(&parse(text))
}

fn device_number(v: &Value, scale: Option<f64>, offset: Option<f64>) -> DeviceNumber {
    let n = v.as_f64().unwrap_or(0.0);
    let device = if scale.is_some() || offset.is_some() {
        (n - offset.unwrap_or(0.0)) / scale.unwrap_or(1.0)
    } else {
        n
    };
    DeviceNumber {
        value: F64 { bits: device.to_bits() },
        text: device.to_string(),
    }
}

fn write(
    text: &str,
    ty: EipType,
    scale: Option<f64>,
    offset: Option<f64>,
    count: Option<u32>,
) -> Result<CipValue, WriteError> {
    let v = parse(text);
    let numbers: Vec<DeviceNumber> = match (&v, count) {
        (Value::Array(items), Some(_)) => items
            .iter()
            .map(|i| device_number(i, scale, offset))
            .collect(),
        _ => vec![device_number(&v, scale, offset)],
    };
    encode_write(
        &to_json(&v),
        ty,
        number(scale),
        number(offset),
        count,
        &numbers,
    )
}

fn raw_of(v: &CipValue) -> f64 {
    match v {
        CipValue::Sint(x) => f64::from(*x),
        CipValue::Usint(x) => f64::from(*x),
        CipValue::Int(x) => f64::from(*x),
        CipValue::Uint(x) => f64::from(*x),
        CipValue::Dint(x) => f64::from(*x),
        CipValue::Udint(x) => f64::from(*x),
        CipValue::Lint(x) => *x as f64,
        CipValue::Ulint(x) => *x as f64,
        CipValue::Real(f) => f64::from(f32::from_bits(f.bits)),
        CipValue::Lreal(f) => f64::from_bits(f.bits),
        _ => 0.0,
    }
}

fn read(
    v: &CipValue,
    ty: EipType,
    scale: Option<f64>,
    offset: Option<f64>,
) -> Result<Decoded, DecodeError> {
    if scale.is_none() && offset.is_none() {
        return decode_value(v, ty, None);
    }
    let transform = |e: &CipValue| F64 {
        bits: (raw_of(e) * scale.unwrap_or(1.0) + offset.unwrap_or(0.0)).to_bits(),
    };
    let published: Vec<F64> = match v {
        CipValue::Array(_, elems) => elems.iter().map(transform).collect(),
        scalar => vec![transform(scalar)],
    };
    decode_value(v, ty, Some(&published))
}

fn same(a: &CipValue, b: &CipValue) -> bool {
    format!("{a:?}") == format!("{b:?}")
}

fn roundtrip(ty: EipType, text: &str, expect_wire: CipValue) {
    let cip = write(text, ty, None, None, None).expect("encode");
    assert!(same(&cip, &expect_wire), "encode {}", ty.wire());
    let back = read(&cip, ty, None, None).expect("decode");
    assert!(back.value.same(&json(text)), "decode {}", ty.wire());
    assert!(!back.non_finite);
}

#[test]
fn row_bool() {
    roundtrip(EipType::Bool, "true", CipValue::Bool(true));
    roundtrip(EipType::Bool, "false", CipValue::Bool(false));
}

#[test]
fn row_sint() {
    roundtrip(EipType::Sint, "-5", CipValue::Sint(-5));
}

#[test]
fn row_usint() {
    roundtrip(EipType::Usint, "200", CipValue::Usint(200));
}

#[test]
fn row_int() {
    roundtrip(EipType::Int, "-1234", CipValue::Int(-1234));
}

#[test]
fn row_uint() {
    roundtrip(EipType::Uint, "50000", CipValue::Uint(50000));
}

#[test]
fn row_dint() {
    roundtrip(EipType::Dint, "-123456", CipValue::Dint(-123456));
}

#[test]
fn row_udint() {
    roundtrip(
        EipType::Udint,
        "4000000000",
        CipValue::Udint(4_000_000_000),
    );
}

#[test]
fn row_lint() {
    roundtrip(
        EipType::Lint,
        "-1000000000000",
        CipValue::Lint(-1_000_000_000_000),
    );
}

#[test]
fn row_ulint() {
    roundtrip(
        EipType::Ulint,
        "9000000000000",
        CipValue::Ulint(9_000_000_000_000),
    );
}

#[test]
fn row_real() {
    roundtrip(EipType::Real, "3.5", single(3.5));
}

#[test]
fn row_lreal() {
    roundtrip(EipType::Lreal, "2.5", double(2.5));
}

#[test]
fn array_roundtrips_json_array() {
    let cip = write("[1, 2, 3, 4]", EipType::Dint, None, None, Some(4)).unwrap();
    assert!(same(
        &cip,
        &CipValue::Array(
            CipType::Dint,
            vec![
                CipValue::Dint(1),
                CipValue::Dint(2),
                CipValue::Dint(3),
                CipValue::Dint(4)
            ]
        )
    ));
    let back = read(&cip, EipType::Dint, None, None).unwrap();
    assert!(back.value.same(&json("[1, 2, 3, 4]")));
}

#[test]
fn array_write_wrong_length_is_rejected() {
    let e = write("[1, 2, 3]", EipType::Dint, None, None, Some(4)).unwrap_err();
    assert!(matches!(
        e,
        WriteError::WrongArrayLen {
            expected: 4,
            got: 3
        }
    ));
}

#[test]
fn read_applies_scale_and_offset() {
    let d = read(&CipValue::Dint(100), EipType::Dint, Some(0.1), Some(5.0)).unwrap();
    assert!(d.value.same(&json("15.0")));
    assert!(!d.non_finite);
}

#[test]
fn write_applies_inverse_scale_and_offset() {
    let cip = write("15.0", EipType::Dint, Some(0.1), Some(5.0), None).unwrap();
    assert!(same(&cip, &CipValue::Dint(100)));
}

#[test]
fn write_out_of_range_is_rejected_not_clamped() {
    let e = write("500", EipType::Sint, None, None, None).unwrap_err();
    assert!(matches!(
        e,
        WriteError::OutOfRange {
            ty: EipType::Sint,
            ..
        }
    ));
}

#[test]
fn write_scaled_out_of_range_is_rejected() {
    let e = write("1000.0", EipType::Int, Some(0.001), None, None).unwrap_err();
    assert!(matches!(
        e,
        WriteError::OutOfRange {
            ty: EipType::Int,
            ..
        }
    ));
}

#[test]
fn write_unscaled_fractional_integer_is_rejected() {
    let e = write("3.5", EipType::Dint, None, None, None).unwrap_err();
    assert!(matches!(e, WriteError::NonInteger { ty: EipType::Dint }));
}

#[test]
fn write_bool_rejects_number() {
    assert!(matches!(
        write("1", EipType::Bool, None, None, None).unwrap_err(),
        WriteError::ExpectedBool
    ));
}

#[test]
fn write_numeric_rejects_non_number() {
    assert!(matches!(
        write("\"x\"", EipType::Dint, None, None, None).unwrap_err(),
        WriteError::ExpectedNumber
    ));
}

#[test]
fn read_non_finite_after_scale_is_uncertain() {
    let d = read(&double(1e300), EipType::Lreal, Some(1e100), None).unwrap();
    assert!(d.non_finite);
    assert!(matches!(d.value, Json::Null));
}

#[test]
fn read_raw_non_finite_float_is_uncertain() {
    let d = read(&single(f32::NAN), EipType::Real, None, None).unwrap();
    assert!(d.non_finite);
    assert!(matches!(d.value, Json::Null));
}

#[test]
fn read_array_with_a_non_finite_element_is_uncertain() {
    let arr = CipValue::Array(CipType::Real, vec![single(1.0), single(f32::INFINITY)]);
    let d = read(&arr, EipType::Real, None, None).unwrap();
    assert!(d.non_finite);
    assert!(matches!(d.value, Json::Null));
}

#[test]
fn read_type_mismatch_is_reported() {
    let e = read(&CipValue::Dint(1), EipType::Real, None, None).unwrap_err();
    assert_eq!(
        e,
        DecodeError::TypeMismatch {
            expected: EipType::Real,
            got: CipType::Dint
        }
    );
    assert!(e.quality_raw().starts_with("DECODE type mismatch"));
    assert_eq!(
        e.quality_raw(),
        "DECODE type mismatch (expected real, got Dint)"
    );
}

#[test]
fn read_array_element_type_mismatch_is_reported() {
    let arr = CipValue::Array(CipType::Int, vec![CipValue::Int(1)]);
    let e = read(&arr, EipType::Dint, None, None).unwrap_err();
    assert!(matches!(
        e,
        DecodeError::TypeMismatch {
            expected: EipType::Dint,
            ..
        }
    ));
}

const TWO_53_PLUS_1: u64 = 9_007_199_254_740_993;
const TWO_53: u64 = 9_007_199_254_740_992;

#[test]
fn write_ulint_past_2_53_keeps_every_bit() {
    let cip = write("9007199254740993", EipType::Ulint, None, None, None).unwrap();
    assert!(same(&cip, &CipValue::Ulint(TWO_53_PLUS_1)));
}

#[test]
fn write_lint_below_negative_2_53_keeps_every_bit() {
    let v: i64 = -9_007_199_254_740_993;
    let cip = write("-9007199254740993", EipType::Lint, None, None, None).unwrap();
    assert!(same(&cip, &CipValue::Lint(v)));
}

#[test]
fn write_lint_epoch_nanoseconds_keep_every_bit() {
    let epoch_ns: i64 = 1_754_899_200_123_456_789;
    let cip = write("1754899200123456789", EipType::Lint, None, None, None).unwrap();
    assert!(same(&cip, &CipValue::Lint(epoch_ns)));
}

#[test]
fn write_at_the_2_53_boundary_still_works() {
    assert!(same(
        &write("9007199254740992", EipType::Ulint, None, None, None).unwrap(),
        &CipValue::Ulint(TWO_53)
    ));
    let neg: i64 = -9_007_199_254_740_992;
    assert!(same(
        &write("-9007199254740992", EipType::Lint, None, None, None).unwrap(),
        &CipValue::Lint(neg)
    ));
}

#[test]
fn write_lint_and_ulint_extremes_are_exact() {
    assert!(same(
        &write(&i64::MIN.to_string(), EipType::Lint, None, None, None).unwrap(),
        &CipValue::Lint(i64::MIN)
    ));
    assert!(same(
        &write(&i64::MAX.to_string(), EipType::Lint, None, None, None).unwrap(),
        &CipValue::Lint(i64::MAX)
    ));
    assert!(same(
        &write(&u64::MAX.to_string(), EipType::Ulint, None, None, None).unwrap(),
        &CipValue::Ulint(u64::MAX)
    ));
}

#[test]
fn write_one_past_the_lint_maximum_is_refused_not_saturated() {
    let e = write("9223372036854775808", EipType::Lint, None, None, None).unwrap_err();
    match e {
        WriteError::OutOfRange { ty, value } => {
            assert_eq!(ty, EipType::Lint);
            assert_eq!(value, "9223372036854775808");
        }
        other => panic!("expected OutOfRange, got {other:?}"),
    }
}

#[test]
fn write_negative_to_ulint_is_refused() {
    let e = write("-1", EipType::Ulint, None, None, None).unwrap_err();
    match e {
        WriteError::OutOfRange { ty, value } => {
            assert_eq!(ty, EipType::Ulint);
            assert_eq!(value, "-1");
        }
        other => panic!("expected OutOfRange, got {other:?}"),
    }
}

#[test]
fn out_of_range_refusal_names_the_exact_value_not_its_f64_neighbour() {
    let e = write("9007199254740993", EipType::Dint, None, None, None).unwrap_err();
    assert_eq!(
        e.message(),
        "value 9007199254740993 is out of range for dint"
    );
}

#[test]
fn write_exact_integers_survive_an_explicit_identity_transform() {
    for (scale, offset) in [(Some(1.0), None), (None, Some(0.0)), (Some(1.0), Some(0.0))] {
        assert!(
            same(
                &write("9007199254740993", EipType::Ulint, scale, offset, None).unwrap(),
                &CipValue::Ulint(TWO_53_PLUS_1)
            ),
            "identity transform scale={scale:?} offset={offset:?}"
        );
    }
}

#[test]
fn write_scaled_integer_past_exact_f64_range_is_refused_not_rounded() {
    let e = write("9007199254740993", EipType::Ulint, Some(2.0), None, None).unwrap_err();
    assert!(e.message().contains("9007199254740993"));
    match e {
        WriteError::InexactUnderTransform { ty, value } => {
            assert_eq!(ty, EipType::Ulint);
            assert_eq!(value, "9007199254740993");
        }
        other => panic!("expected InexactUnderTransform, got {other:?}"),
    }

    let e = write("9007199254740993", EipType::Lint, None, Some(1.0), None).unwrap_err();
    assert!(matches!(
        e,
        WriteError::InexactUnderTransform {
            ty: EipType::Lint,
            ..
        }
    ));
}

#[test]
fn write_scaled_integer_within_exact_f64_range_still_scales() {
    assert!(same(
        &write("150", EipType::Dint, Some(0.1), Some(5.0), None).unwrap(),
        &CipValue::Dint(1450)
    ));
    assert!(same(
        &write("9007199254740992", EipType::Lint, Some(2.0), None, None).unwrap(),
        &CipValue::Lint(4_503_599_627_370_496)
    ));
}

#[test]
fn write_integral_json_float_is_still_accepted_for_an_integer_target() {
    assert!(same(
        &write("5.0", EipType::Dint, None, None, None).unwrap(),
        &CipValue::Dint(5)
    ));
    assert!(same(
        &write("-2.0", EipType::Sint, None, None, None).unwrap(),
        &CipValue::Sint(-2)
    ));
    assert!(same(
        &write("1e18", EipType::Lint, None, None, None).unwrap(),
        &CipValue::Lint(1_000_000_000_000_000_000)
    ));
    assert!(matches!(
        write("5.5", EipType::Dint, None, None, None).unwrap_err(),
        WriteError::NonInteger { ty: EipType::Dint }
    ));
}

#[test]
fn write_array_of_exact_64_bit_values_keeps_every_element() {
    let text = "[9007199254740993, 9007199254740995]";
    let cip = write(text, EipType::Ulint, None, None, Some(2)).unwrap();
    assert!(same(
        &cip,
        &CipValue::Array(
            CipType::Ulint,
            vec![
                CipValue::Ulint(TWO_53_PLUS_1),
                CipValue::Ulint(9_007_199_254_740_995)
            ]
        )
    ));
    assert!(read(&cip, EipType::Ulint, None, None)
        .unwrap()
        .value
        .same(&json(text)));
}

fn text_of(j: &Json) -> String {
    match j {
        Json::Number(Number::Unsigned(u)) => u.to_string(),
        Json::Number(Number::Signed(i)) => i.to_string(),
        other => panic!("expected an integer, got {other:?}"),
    }
}

#[test]
fn read_and_write_preserve_the_same_integers() {
    for (ty, v) in [
        (EipType::Ulint, CipValue::Ulint(TWO_53_PLUS_1)),
        (EipType::Ulint, CipValue::Ulint(u64::MAX)),
        (EipType::Lint, CipValue::Lint(i64::MIN)),
        (EipType::Lint, CipValue::Lint(1_754_899_200_123_456_789)),
    ] {
        let published = read(&v, ty, None, None).unwrap().value;
        let text = text_of(&published);
        let back = write(&text, ty, None, None, None).unwrap();
        assert!(same(&back, &v), "round trip {text} as {}", ty.wire());
    }
}

fn wire_bytes(v: &CipValue) -> [u8; 8] {
    match v {
        CipValue::Ulint(u) => u.to_le_bytes(),
        CipValue::Lint(i) => i.to_le_bytes(),
        other => panic!("expected a 64-bit integer, got {other:?}"),
    }
}

#[test]
fn exact_write_reaches_the_wire_unrounded() {
    for (ty, text, want_bytes) in [
        (
            EipType::Ulint,
            "9007199254740993",
            TWO_53_PLUS_1.to_le_bytes(),
        ),
        (
            EipType::Lint,
            "1754899200123456789",
            1_754_899_200_123_456_789_i64.to_le_bytes(),
        ),
    ] {
        let cip = write(text, ty, None, None, None).unwrap();
        assert_eq!(wire_bytes(&cip), want_bytes, "wire bytes for {}", ty.wire());
        assert_eq!(cip.wire_type(), cip_type(ty));
        assert!(read(&cip, ty, None, None).unwrap().value.same(&json(text)));
    }
}

#[test]
fn non_integer_targets_still_take_large_integer_literals_as_floats() {
    assert!(same(
        &write("9007199254740993", EipType::Lreal, None, None, None).unwrap(),
        &double(9_007_199_254_740_992.0)
    ));
    assert!(same(
        &write("9007199254740993", EipType::Real, None, None, None).unwrap(),
        &single(9_007_199_254_740_992.0)
    ));
    assert!(matches!(
        write("1e39", EipType::Real, None, None, None).unwrap_err(),
        WriteError::OutOfRange {
            ty: EipType::Real,
            ..
        }
    ));
}

#[test]
fn every_refusal_says_what_is_wrong() {
    let messages = [
        (
            write("1", EipType::Bool, None, None, None),
            "expected a JSON boolean",
        ),
        (
            write("true", EipType::Dint, None, None, None),
            "expected a JSON number",
        ),
        (
            write("1", EipType::Dint, None, None, Some(2)),
            "expected a JSON array",
        ),
        (
            write("[1]", EipType::Dint, None, None, Some(2)),
            "expected 2 elements, got 1",
        ),
        (
            write("0.5", EipType::Uint, None, None, None),
            "uint requires an integral number",
        ),
        (
            write("70000", EipType::Uint, None, None, None),
            "value 70000 is out of range for uint",
        ),
        (
            write("9007199254740993", EipType::Lint, Some(2.0), None, None),
            "value 9007199254740993 exceeds the exact integer range (2^53) of the scale/offset \
             arithmetic for lint - refused rather than rounded",
        ),
        (
            write("1", EipType::Lreal, Some(0.0), None, None),
            "value is non-finite after applying scale/offset",
        ),
    ];
    for (outcome, text) in messages {
        assert_eq!(outcome.unwrap_err().message(), text);
    }
}

#[test]
fn a_half_rounds_away_from_zero_under_a_transform() {
    assert!(same(
        &write("5", EipType::Dint, Some(2.0), None, None).unwrap(),
        &CipValue::Dint(3)
    ));
    assert!(same(
        &write("-5", EipType::Dint, Some(2.0), None, None).unwrap(),
        &CipValue::Dint(-3)
    ));
}

#[test]
fn the_first_bad_element_decides_an_array_write() {
    let e = write("[1, \"x\", 3.5]", EipType::Dint, None, None, Some(3)).unwrap_err();
    assert!(matches!(e, WriteError::ExpectedNumber));
}

#[test]
fn an_unmapped_type_is_named_by_its_code() {
    let e = read(&CipValue::Other(0xDA), EipType::Real, None, None).unwrap_err();
    assert_eq!(
        e.quality_raw(),
        "DECODE type mismatch (expected real, got Other(218))"
    );
}

#[test]
fn a_single_precision_number_keeps_its_value() {
    let d = read(&single(0.1), EipType::Real, None, None).unwrap();
    match d.value {
        Json::Number(Number::Float(f)) => {
            assert_eq!(f64::from_bits(f.bits), f64::from(0.1_f32));
        }
        other => panic!("expected a float, got {other:?}"),
    }
}

#[test]
fn a_fraction_is_refused_under_an_identity_transform() {
    for (scale, offset) in [
        (None, None),
        (Some(1.0), None),
        (None, Some(0.0)),
        (None, Some(-0.0)),
        (Some(1.0), Some(0.0)),
    ] {
        assert!(
            matches!(
                write("3.5", EipType::Dint, scale, offset, None),
                Err(WriteError::NonInteger { ty: EipType::Dint })
            ),
            "scale {scale:?} offset {offset:?}"
        );
        assert!(matches!(
            write("3.0", EipType::Dint, scale, offset, None),
            Ok(CipValue::Dint(3))
        ));
    }
    assert!(matches!(
        write("3.5", EipType::Dint, Some(2.0), None, None),
        Ok(CipValue::Dint(2))
    ));
    assert!(matches!(
        write("[1.0, 2.5]", EipType::Int, Some(1.0), None, Some(2)),
        Err(WriteError::NonInteger { ty: EipType::Int })
    ));
}

#[test]
fn what_a_write_takes_without_a_transform_is_the_number_itself() {
    let stray = DeviceNumber {
        value: F64 { bits: 99.0f64.to_bits() },
        text: "99".to_string(),
    };
    let numbers = vec![stray];
    let r = encode_write(&json("2.5"), EipType::Lreal, None, None, None, &numbers);
    assert!(same(&r.unwrap(), &double(2.5)));
    let r = encode_write(&json("0.1"), EipType::Real, None, None, None, &numbers);
    assert!(same(&r.unwrap(), &single(0.1)));
    let r = encode_write(&json("-7"), EipType::Lreal, None, None, None, &numbers);
    assert!(same(&r.unwrap(), &double(-7.0)));
    let r = encode_write(&json("5.0"), EipType::Dint, None, None, None, &numbers);
    assert!(matches!(r, Ok(CipValue::Dint(5))));
}

fn reads_and_writes_back(v: CipValue, ty: EipType) {
    let d = decode_value(&v, ty, None).expect("a readable value");
    assert!(!d.non_finite);
    let nothing = || DeviceNumber {
        value: F64 { bits: f64::NAN.to_bits() },
        text: String::new(),
    };
    let (count, numbers): (Option<u32>, Vec<DeviceNumber>) = match &v {
        CipValue::Array(_, elems) => (
            Some(elems.len() as u32),
            elems.iter().map(|_| nothing()).collect(),
        ),
        _ => (None, vec![nothing()]),
    };
    let back = encode_write(&d.value, ty, None, None, count, &numbers).expect("a writable value");
    assert!(same(&back, &v), "{v:?} came back as {back:?}");
}

#[test]
fn every_finite_value_is_read_and_written_back_bit_for_bit() {
    reads_and_writes_back(CipValue::Bool(true), EipType::Bool);
    reads_and_writes_back(CipValue::Sint(-128), EipType::Sint);
    reads_and_writes_back(CipValue::Usint(255), EipType::Usint);
    reads_and_writes_back(CipValue::Int(-32768), EipType::Int);
    reads_and_writes_back(CipValue::Uint(65535), EipType::Uint);
    reads_and_writes_back(CipValue::Dint(i32::MIN), EipType::Dint);
    reads_and_writes_back(CipValue::Udint(u32::MAX), EipType::Udint);
    reads_and_writes_back(CipValue::Lint(i64::MIN), EipType::Lint);
    reads_and_writes_back(CipValue::Ulint(u64::MAX), EipType::Ulint);
    for f in [0.0f32, -0.0, 1.5, -0.1, f32::MAX, f32::MIN, f32::MIN_POSITIVE, 1e-45] {
        reads_and_writes_back(single(f), EipType::Real);
    }
    for f in [0.0f64, -0.0, 1.5, -0.1, f64::MAX, f64::MIN, f64::MIN_POSITIVE, 5e-324] {
        reads_and_writes_back(double(f), EipType::Lreal);
    }
    reads_and_writes_back(
        CipValue::Array(CipType::Real, vec![single(0.1), single(-0.0), single(f32::MAX)]),
        EipType::Real,
    );
    reads_and_writes_back(
        CipValue::Array(CipType::Bool, vec![CipValue::Bool(true), CipValue::Bool(false)]),
        EipType::Bool,
    );
    reads_and_writes_back(CipValue::Array(CipType::Lreal, Vec::new()), EipType::Lreal);
}
