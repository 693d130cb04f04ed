//! JSON values, texts and IEEE numbers.

use ethernet_ip_adapter::config::{
    effective_poll_ms, effective_publish_mode, DeviceMode, EipType, PublishMode,
};
use ethernet_ip_adapter::eip::tls::{CaSource, ClientIdentity, SecurityConfig, SecurityMode};
use ethernet_ip_adapter::ieee::{two_to, F32, F64};
use ethernet_ip_adapter::json::{Json, Number, Object};
use ethernet_ip_adapter::security_lifecycle::{SecurityLifecycle, WatchSettings};
use ethernet_ip_adapter::startup::tls_poll;
use ethernet_ip_adapter::step::{StepOrder, StepPart};
use ethernet_ip_adapter::text::{
    append_hex, decimal_i128, decimal_u64, find_char, find_last_char, is_digits, read_decimal,
    same_ignoring_case,
};
use serde_json::Value;

fn to_json(v: &Value) -> Json {
    match v {
        Value::Null => Json::Null,
        Value::Bool(b) => Json::Bool(*b),
        Value::Number(n) => {
            if let Some(u) = n.as_u64() {
                Json::Number(Number::Unsigned(u))
            } else if let Some(i) = n.as_i64() {
                Json::Number(Number::Signed(i))
            } else {
                let f = n.as_f64().unwrap();
                Json::Number(Number::Float(F64 { bits: f.to_bits() }))
            }
        }
        Value::String(s) => Json::Text(s.clone()),
        Value::Array(items) => Json::Array(items.iter().map(to_json).collect()),
        Value::Object(map) => {
            let mut o = Object::new();
            for (k, v) in map {
                o.insert(k, to_json(v));
            }
            Json::Object(o)
        }
    }
}

fn json(text: &str) -> Json {
    to_json(&serde_json::from_str(text).expect("a JSON value"))
}

fn f64_of(n: f64) -> F64 {
    F64 { bits: n.to_bits() }
}

#[test]
fn objects_are_compared_without_regard_to_order() {
    let mut a = Object::new();
    a.insert("x", json("1"));
    a.insert("y", json("[true, null]"));
    let mut b = Object::new();
    b.insert("y", json("[true, null]"));
    b.insert("x", json("1"));
    assert!(Json::Object(a).same(&Json::Object(b)));
    assert!(!json("{\"x\": 1}").same(&json("{\"x\": 2}")));
    assert!(!json("{\"x\": 1}").same(&json("{\"x\": 1, \"y\": 1}")));
    assert!(!json("[1, 2]").same(&json("[2, 1]")));
}

#[test]
fn a_key_holds_its_last_value() {
    let mut o = Object::new();
    o.insert("x", json("1"));
    o.insert("x", json("2"));
    assert_eq!(o.len(), 1);
    assert!(o.get("x").unwrap().same(&json("2")));
    o.remove("x");
    assert_eq!(o.len(), 0);
    assert!(o.get("x").is_none());
}

#[test]
fn an_integer_is_no_float() {
    assert!(!json("1").same(&json("1.0")));
    assert!(json("1.5").same(&json("1.5")));
    assert!(json("-3").same(&Json::of_i64(-3)));
    assert!(json("3").same(&Json::of_i64(3)));
}

#[test]
fn decimal_texts() {
    assert_eq!(decimal_u64(0), "0");
    assert_eq!(decimal_u64(u64::MAX), "18446744073709551615");
    assert_eq!(decimal_i128(-42), "-42");
    assert_eq!(decimal_i128(i64::MIN as i128), "-9223372036854775808");
    for n in [0u32, 7, 10, 4_294_967_295] {
        assert_eq!(read_decimal(&decimal_u64(n as u64)), Some(n));
    }
    assert_eq!(read_decimal("4294967296"), None);
    assert_eq!(read_decimal(""), None);
    assert_eq!(read_decimal("1x"), None);
}

#[test]
fn hexadecimal_texts_are_padded() {
    let mut s = String::from("0x");
    append_hex(&mut s, 0x00C0_FFEE, 8);
    assert_eq!(s, "0x00C0FFEE");
}

#[test]
fn characters_are_found_from_either_end() {
    assert_eq!(find_char("a:b:c", ':'), Some(1));
    assert_eq!(find_last_char("a:b:c", ':'), Some(3));
    assert_eq!(find_char("abc", ':'), None);
    assert!(is_digits("0123") && !is_digits("01a"));
    assert!(same_ignoring_case("Tls_Aes", "TLS_AES") && !same_ignoring_case("a", "b"));
}

#[test]
fn counts_become_the_nearest_float() {
    for n in [0u64, 1, 2, 3, 1 << 53, (1 << 53) + 1, (1 << 53) + 3, u64::MAX] {
        assert_eq!(F64::from_count(n).bits, (n as f64).to_bits(), "{n}");
    }
}

#[test]
fn a_single_widens_exactly() {
    for x in [0.0f32, -0.0, 1.0, 1.5, -2.25, f32::MAX, f32::MIN_POSITIVE, f32::MIN_POSITIVE / 4.0] {
        assert_eq!(F32 { bits: x.to_bits() }.widen().bits, f64::from(x).to_bits(), "{x}");
    }
    assert!(!F32 { bits: f32::INFINITY.to_bits() }.is_finite());
}

#[test]
fn a_number_narrows_as_a_cast_does() {
    for x in [
        0.0f64,
        -0.0,
        0.1,
        -1.5,
        16_777_217.0,
        16_777_219.0,
        f64::from(f32::MAX),
        f64::from(f32::MIN_POSITIVE) * 0.75,
        f64::from(f32::MIN_POSITIVE) * 0.999_999_99,
        1e-45,
        7e-46,
        8e-46,
        5e-324,
        2.0f64.powi(-150),
        1.999_999_999_9,
    ] {
        assert_eq!(f64_of(x).narrow().bits, (x as f32).to_bits(), "{x}");
    }
}

#[test]
fn a_json_number_becomes_the_nearest_float() {
    for n in [0i64, -1, 5, i64::MIN, i64::MAX, -9_007_199_254_740_993] {
        assert_eq!(Number::Signed(n).to_float().bits, (n as f64).to_bits(), "{n}");
    }
    assert_eq!(Number::Unsigned(u64::MAX).to_float().bits, (u64::MAX as f64).to_bits());
    assert_eq!(Number::Float(f64_of(-2.5)).to_float().bits, (-2.5f64).to_bits());
}

#[test]
fn numbers_are_told_apart() {
    assert!(f64_of(0.0).same_number(f64_of(-0.0)));
    assert!(f64_of(3.0).is_integral() && !f64_of(3.5).is_integral());
    assert!(!f64_of(f64::NAN).is_finite() && f64_of(1e300).is_finite());
    assert!(f64_of(1e300).exceeds_f32() && !f64_of(1.0).exceeds_f32());
    assert_eq!(f64_of(254.6).rounded_in(0, 255), Some(255));
    assert_eq!(f64_of(255.6).rounded_in(0, 255), None);
    assert_eq!(f64_of(-0.5).rounded_in(-128, 127), Some(-1), "half away from zero");
    assert_eq!(two_to(10), 1_024);
}

#[test]
fn the_test_fixture_really_is_a_tls_instance() {
    let parsed = SecurityConfig {
        mode: SecurityMode::Tls,
        client: Some(ClientIdentity {
            cert_secret: Some("tls/cert".to_string()),
            cert_file: None,
            key_file: None,
        }),
        ca: Some(CaSource {
            secret: Some("tls/root".to_string()),
            file: None,
        }),
        ..SecurityConfig::default()
    };
    let watch = WatchSettings {
        reload_interval_secs: Some(1),
        renew_before_days: None,
        est: None,
        default_interval_secs: 3_600,
        default_renew_days: 30,
    };
    let sec = SecurityConfig::from_connection(Some(Ok(parsed)))
        .unwrap()
        .expect("a security block");
    assert!(sec.is_tls());
    assert_eq!(watch.reload_interval_secs, Some(1));
    let started = SecurityLifecycle::start("plc-1", "127.0.0.1:2221", &Some(sec), &watch);
    assert_eq!(started.expect("a lifecycle").tick_secs, 1, "it comes round once a second");
}

#[test]
fn only_a_poll_instance_over_tls_has_a_lifecycle_of_its_own() {
    let tls = || {
        Ok(Some(SecurityConfig {
            mode: SecurityMode::Tls,
            ..SecurityConfig::default()
        }))
    };
    assert!(tls_poll(DeviceMode::Poll, &tls()));
    assert!(!tls_poll(DeviceMode::Push, &tls()));
    assert!(!tls_poll(DeviceMode::Poll, &Ok(Some(SecurityConfig::default()))));
    assert!(!tls_poll(DeviceMode::Poll, &Ok(None)));
    assert!(!tls_poll(DeviceMode::Poll, &Err("bad".to_string())));
    assert_eq!(EipType::Udint.wire(), "udint");
}

#[test]
fn the_nearest_setting_counts() {
    assert_eq!(effective_poll_ms(Some(100), Some(200), Some(300), 1_000), 100);
    assert_eq!(effective_poll_ms(None, Some(200), Some(300), 1_000), 200);
    assert_eq!(effective_poll_ms(None, None, Some(300), 1_000), 300);
    assert_eq!(effective_poll_ms(None, None, None, 1_000), 1_000);
    assert_eq!(
        effective_publish_mode(None, Some(PublishMode::Always), None),
        PublishMode::Always
    );
    assert_eq!(effective_publish_mode(None, None, None), PublishMode::OnChange);
}

#[test]
fn a_step_is_carried_out_part_by_part() {
    let (answer, emit, tell) = (StepPart::Answer, StepPart::Emit, StepPart::Tell);
    assert_eq!(StepOrder::AnswerFirst.parts(), vec![answer, emit, tell]);
    assert_eq!(StepOrder::AnswerLast.parts(), vec![emit, tell, answer]);
    assert_eq!(StepOrder::NoticesFirst.parts(), vec![tell, emit, answer]);
}
