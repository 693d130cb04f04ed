//! The in-process simulator.

use ethernet_ip_adapter::clock::Instant;
use ethernet_ip_adapter::config::{
    DeadbandSpec, Defaults, DeviceConfig, DeviceMode, EipType, IoConfig, IoFieldSpec, PollGroup,
    PublishMode, SignalSpec,
};
use ethernet_ip_adapter::device::{DeviceError, IoUpdate, Quality};
use ethernet_ip_adapter::eip::types::{CipValue, DeviceNumber};
use ethernet_ip_adapter::ieee::{F32, F64};
use ethernet_ip_adapter::json::{Json, Number, Object};
use ethernet_ip_adapter::reconnect::experimental_signals;
use ethernet_ip_adapter::sim::{
    frame_readings, sim_tags, CutField, SimBackend, SimPushSession, SimPushStep, SimSession, Wave,
};
use serde_json::Value;

fn to_json(v: &Value) -> Json {
    match v {
        Value::Null => Json::Null,
        Value::Bool(b) => Json::Bool(*b),
        Value::Number(n) => {
            if let Some(u) = n.as_u64() {
                Json::Number(Number::Unsigned(u))
            } else if let Some(i) = n.as_i64() {
                Json::Number(Number::Signed(i))
            } else {
                let f = n.as_f64().unwrap();
                Json::Number(Number::Float(F64 { bits: f.to_bits() }))
            }
        }
        Value::String(s) => Json::Text(s.clone()),
        Value::Array(items) => Json::Array(items.iter().map(to_json).collect()),
        Value::Object(map) => {
            let mut o = Object::new();
            for (k, v) in map {
                o.insert(k, to_json(v));
            }
            Json::Object(o)
        }
    }
}

fn json(text: &str) -> Json {
    to_json(&serde_json::from_str(text).expect("a JSON value"))
}

fn spec(name: &str, tag: &str, ty: EipType, array_count: Option<u32>) -> SignalSpec {
    SignalSpec {
        name: name.to_string(),
        tag_path: tag.to_string(),
        eip_type: ty,
        array_count,
        scale: None,
        value_offset: None,
        deadband: DeadbandSpec::default(),
    }
}

/// The points of the wave for the read after `tick`.
fn waves(tick: u64, n: usize) -> Vec<Wave> {
    (0..n)
        .map(|i| {
            let phase = (tick + 1) as f64 / 10.0 + i as f64;
            let value = 20.0 + 5.0 * phase.sin();
            Wave {
                value: F64 { bits: value.to_bits() },
                whole: value as i64,
            }
        })
        .collect()
}

fn connect(endpoint: &str) -> SimSession {
    match SimBackend.connect(endpoint) {
        Ok(s) => s,
        Err(e) => panic!("{}", e.message()),
    }
}

fn items(j: &Json) -> &Vec<Json> {
    match j {
        Json::Array(list) => list,
        _ => panic!("an array"),
    }
}

#[test]
fn connects_and_reads_the_requested_signals() {
    let mut s = connect("127.0.0.1:44818");
    let specs = vec![
        spec("line-speed", "LINE_SPEED", EipType::Real, None),
        spec("product-count", "PRODUCT_COUNT", EipType::Dint, None),
    ];
    let readings = s.read_signals(&specs, &waves(0, 1));
    assert_eq!(readings.len(), 2);
    assert_eq!(readings[0].signal_id, "LINE_SPEED");
    assert_eq!(readings[0].name.as_deref(), Some("line-speed"));
    assert_eq!(readings[0].quality, Quality::Good);
    assert!(matches!(readings[1].value, Json::Number(_)));
    assert!(readings[1].value.same(&json("20")), "the whole part of the wave");
    assert_eq!(readings[0].observed_type, None);
}

#[test]
fn an_array_signal_reads_back_a_json_array() {
    let mut s = connect("h");
    let specs = vec![spec("zone-temps", "ZONE_TEMPS", EipType::Real, Some(8))];
    let r = s.read_signals(&specs, &waves(0, 8));
    assert_eq!(items(&r[0].value).len(), 8);
}

#[test]
fn a_bool_array_signal_is_configurable_and_polls() {
    let cfg = DeviceConfig {
        id: "plc-1".to_string(),
        adapter: "sim".to_string(),
        endpoint: "h".to_string(),
        slot: None,
        connected: false,
        mode: DeviceMode::Poll,
        poll_groups: vec![PollGroup {
            id: None,
            signals: vec![spec("alarms", "MOTOR_RUN", EipType::Bool, Some(4))],
            publish_mode: PublishMode::OnChange,
            poll_interval_ms: 1_000,
        }],
        defaults: Defaults {
            publish_mode: None,
            batch_ms: None,
        },
        write_allow: Vec::new(),
        io: None,
    };
    assert_eq!(experimental_signals(&cfg).len(), 1, "and warned");
    let mut s = connect("h");
    let r = s.read_signals(&cfg.poll_groups[0].signals, &waves(0, 4));
    assert_eq!(r[0].quality, Quality::Good);
    let arr = items(&r[0].value);
    assert_eq!(arr.len(), 4);
    assert!(arr.iter().all(|v| matches!(v, Json::Bool(_))));
}

#[test]
fn a_written_setpoint_reads_back_the_written_value() {
    let mut s = connect("h");
    let sp = spec("fill-setpoint", "FILL_SETPOINT", EipType::Real, None);
    s.write_signal(&sp, &json("55.5"));
    let r = s.read_signals(&vec![sp], &waves(0, 1));
    assert!(
        r[0].value.same(&json("55.5")),
        "the write is observable on the next poll"
    );
}

#[test]
fn browse_lists_the_tags_including_the_unsupported_recipe() {
    let s = connect("h");
    let page = s.browse(&None, 1000).unwrap();
    assert_eq!(page.tags.len(), sim_tags().len());
    assert!(page.next_cursor.is_none());
    let recipe = page.tags.iter().find(|t| t.name == "RECIPE").unwrap();
    assert_eq!(recipe.tag_type, "SSTRING", "the unsupported type is surfaced by name");
    let zones = page.tags.iter().find(|t| t.name == "ZONE_TEMPS").unwrap();
    assert_eq!(zones.array_dim, Some(1), "one-dimensional, whatever its length");
}

#[test]
fn browse_pages_with_cursor_and_rejects_garbage() {
    let s = connect("h");
    let mut walked: Vec<String> = Vec::new();
    let mut cursor: Option<String> = None;
    let mut pages = 0usize;
    loop {
        let page = s.browse(&cursor, 2).unwrap();
        pages += 1;
        assert!(pages <= sim_tags().len() + 1, "the walk must terminate");
        assert!(page.tags.len() <= 2, "`max` is honoured truthfully");
        walked.extend(page.tags.iter().map(|t| t.name.clone()));
        match page.next_cursor {
            Some(c) => cursor = Some(c),
            None => break,
        }
    }
    let expected: Vec<String> = sim_tags().into_iter().map(|t| t.name).collect();
    assert_eq!(walked, expected, "every tag exactly once, in order, no skips or repeats");

    let mid = s.browse(&Some("7".to_string()), 100).unwrap();
    assert_eq!(mid.tags.len(), 2, "instances 7 and 8 remain");
    assert_eq!(mid.tags[0].name, "MOTOR_RUN");
    assert!(mid.next_cursor.is_none());

    let err = s.browse(&Some("x".to_string()), 100).unwrap_err();
    assert!(!err.is_transient(), "a corrupt cursor never fixes itself by retrying");
    assert!(err.message().contains("invalid browse cursor"));
}

#[test]
fn a_page_holds_at_least_one_tag() {
    let s = connect("h");
    let page = s.browse(&None, 0).unwrap();
    assert_eq!(page.tags.len(), 1);
    assert_eq!(page.next_cursor.as_deref(), Some("2"));
    let past = s.browse(&Some("4294967295".to_string()), 5).unwrap();
    assert!(past.tags.is_empty() && past.next_cursor.is_none());
    assert!(s.browse(&Some("4294967296".to_string()), 5).is_err(), "no instance of that number");
}

#[test]
fn a_signal_for_an_unknown_tag_reads_bad_not_swallowed() {
    let mut s = connect("h");
    let sp = vec![spec("ghost", "NO_SUCH_TAG", EipType::Real, None)];
    let r = s.read_signals(&sp, &waves(0, 1));
    assert_eq!(r.len(), 1);
    assert_eq!(r[0].quality, Quality::Bad);
    assert!(matches!(r[0].value, Json::Null));
    assert_eq!(r[0].quality_raw.as_deref(), Some("0x04 path segment error"));
}

#[test]
fn probe_answers() {
    assert!(connect("h").probe().is_ok());
}

#[test]
fn the_simulator_identifies_itself_as_a_simulator_and_impersonates_nobody() {
    let id = connect("h").identity().expect("the sim names itself");
    assert_ne!(id.vendor_id, 0x0001, "the simulator claims nobody's vendor id");
    assert_eq!(id.vendor_id, 0x0000, "the reserved id, assigned to nobody");
    assert!(id.vendor_name.is_none());
    let name = id.product_name.to_lowercase();
    assert!(
        name.contains("simulator") && name.contains("not a device"),
        "the product name says what it is on its face: {}",
        id.product_name
    );
    assert_eq!(id.serial_number, 0, "a placeholder that reads as one");
    assert_eq!(id.product_code, 0);
    assert_eq!(id.revision(), "0.0");
    let push = open_push("opener").identity().unwrap();
    assert_eq!(push.product_name, id.product_name);
    assert_eq!(push.vendor_id, id.vendor_id);
}

#[test]
fn a_missing_endpoint_is_permanent() {
    match SimBackend.connect("") {
        Ok(_) => panic!("connecting with no endpoint must fail"),
        Err(e) => {
            assert!(!e.is_transient(), "a missing endpoint will never fix itself by retrying");
            assert_eq!(e.message(), "no endpoint configured");
        }
    }
    assert!(matches!(
        SimBackend.open_push("", &push_io(), Err("no layout".to_string()), Ok(())),
        Err(DeviceError::Permanent(_))
    ));
    assert_eq!(SimBackend.kind(), "sim");
}

#[test]
fn readings_advance_over_time() {
    let mut s = connect("h");
    let sp = vec![spec("line-speed", "LINE_SPEED", EipType::Real, None)];
    let a = s.read_signals(&sp, &waves(s.tick, 1))[0].value.copy();
    let b = s.read_signals(&sp, &waves(s.tick, 1))[0].value.copy();
    assert!(!a.same(&b));
    assert_eq!(s.tick, 2);
}

fn field(name: &str, offset: u32, ty: EipType) -> IoFieldSpec {
    IoFieldSpec {
        name: name.to_string(),
        offset,
        eip_type: ty,
        bit: None,
        array_count: None,
        scale: None,
        value_offset: None,
        deadband: None,
    }
}

fn push_io() -> IoConfig {
    IoConfig {
        input_assembly: 100,
        input_size_bytes: 8,
        sample_ms: 0,
        input_fields: vec![
            field("din-word", 0, EipType::Udint),
            field("line-speed", 4, EipType::Real),
        ],
        output_run: Some(true),
        output_size_bytes: 8,
        output_fields: vec![field("dout-word", 0, EipType::Udint)],
        rpi_ms: 20,
        o2t_rpi_ms: 20,
    }
}

fn open_push(endpoint: &str) -> SimPushSession {
    match SimBackend.open_push(endpoint, &push_io(), Ok(()), Ok(())) {
        Ok(s) => s,
        Err(e) => panic!("{}", e.message()),
    }
}

/// The fields of a frame, as a wire stack cuts them out.
fn cut(io: &IoConfig, bytes: &[u8]) -> Vec<CutField> {
    io.input_fields
        .iter()
        .map(|f| {
            let at = f.offset as usize;
            let four: Option<[u8; 4]> = bytes.get(at..at + 4).and_then(|b| b.try_into().ok());
            CutField {
                value: four.map(|b| match f.eip_type {
                    EipType::Real => CipValue::Real(F32 {
                        bits: u32::from_le_bytes(b),
                    }),
                    _ => CipValue::Udint(u32::from_le_bytes(b)),
                }),
                published: None,
            }
        })
        .collect()
}

#[test]
fn sim_push_session_announces_up_then_produces_data_frames() {
    let io = push_io();
    let mut session = open_push("opener");
    assert!(session.last_input().is_none());
    match session.next_step() {
        SimPushStep::Up { t2o_api_ms, .. } => assert_eq!(t2o_api_ms, 20),
        other => panic!("expected Up, got {other:?}"),
    }
    assert_eq!(session.next_step(), SimPushStep::Frame { after_ms: 20 });
    let frame = session.next_frame();
    assert_eq!(frame.sequence, 1);
    assert_eq!(frame.bytes, vec![1, 2, 3, 4, 5, 6, 7, 8]);
    let readings = frame_readings(&io, &cut(&io, &frame.bytes));
    let received_at = Instant { nanos: 7 };
    match session.produced(frame.sequence, readings, received_at) {
        IoUpdate::Data {
            readings,
            sequence,
            run_mode,
            ..
        } => {
            assert_eq!(readings.len(), 2);
            assert_eq!(readings[0].name.as_deref(), Some("din-word"));
            assert_eq!(readings[0].signal_id, "a100/0/udint");
            assert!(readings[0].value.same(&json("67305985")));
            assert_eq!(readings[0].quality, Quality::Good);
            assert_eq!(sequence, 1);
            assert!(run_mode);
        }
        other => panic!("expected Data, got {other:?}"),
    }
    let last = session.last_input().expect("a frame was produced");
    assert_eq!(last.readings.len(), 2);
    assert_eq!(last.readings[0].signal_id, "a100/0/udint");
    assert_eq!(last.received_at, received_at);
    assert!(last.run_mode);
    assert_eq!(session.next_step(), SimPushStep::Frame { after_ms: 20 });
    assert_eq!(session.next_frame().bytes[0], 2);
}

#[test]
fn a_field_past_the_frame_or_of_another_type_reads_bad() {
    let io = push_io();
    let mut fields = cut(&io, &[1, 2, 3, 4]);
    let read = frame_readings(&io, &fields);
    assert_eq!(read[0].quality, Quality::Good);
    assert_eq!(read[1].quality, Quality::Bad, "the frame does not reach it");
    assert!(read[1].value.same(&Json::Null));
    assert_eq!(read[0].quality_raw.as_deref(), Some("0x00"));
    assert_eq!(read[1].quality_raw.as_deref(), Some("short frame"));
    fields[0].value = Some(CipValue::Dint(1));
    let read = frame_readings(&io, &fields);
    assert_eq!(read[0].quality, Quality::Bad);
    assert_eq!(
        read[0].quality_raw.as_deref(),
        Some("DECODE type mismatch (expected udint, got Dint)")
    );
    fields[1] = CutField {
        value: Some(CipValue::Real(F32 {
            bits: 1.0f32.to_bits(),
        })),
        published: Some(vec![F64 {
            bits: f64::INFINITY.to_bits(),
        }]),
    };
    let read = frame_readings(&io, &fields);
    assert_eq!(read[1].quality, Quality::Uncertain, "not finite under its transform");
    assert_eq!(read[1].quality_raw.as_deref(), Some("0x00"));
}

#[test]
fn an_output_is_written_under_the_transform_of_its_field() {
    let mut io = push_io();
    io.output_fields[0].scale = Some(F64 { bits: 2.0f64.to_bits() });
    let session = open_push("opener");
    let out = &io.output_fields[0];
    match session.set_output(&io, out, &json("42"), &vec![device_number(21.0)]) {
        Ok((_, value)) => assert!(matches!(value, CipValue::Udint(21))),
        Err(e) => panic!("{}", e.message()),
    }
    io.output_fields[0].scale = Some(F64 { bits: 1.0f64.to_bits() });
    let out = &io.output_fields[0];
    match session.set_output(&io, out, &json("2.5"), &vec![device_number(2.5)]) {
        Ok(_) => panic!("a fraction is no udint"),
        Err(e) => assert_eq!(e.message(), "udint requires an integral number"),
    }
}

#[test]
fn the_pause_between_frames_is_bounded() {
    let at = |rpi_ms: u64| {
        let io = IoConfig {
            rpi_ms,
            ..push_io()
        };
        SimPushSession::open(&io, Ok(()), Ok(())).unwrap_or_else(|e| panic!("{}", e.message()))
    };
    assert_eq!(at(1).period_ms, 20);
    assert_eq!(at(100).period_ms, 100);
    assert_eq!(at(5_000).period_ms, 200);
    assert_eq!(at(u64::MAX).t2o_api_ms, u32::MAX);
}

fn device_number(n: f64) -> DeviceNumber {
    DeviceNumber {
        value: F64 { bits: n.to_bits() },
        text: n.to_string(),
    }
}

#[test]
fn sim_push_set_output_validates_and_stages() {
    let io = push_io();
    let session = open_push("opener");
    let out = &io.output_fields[0];
    let staged = session.set_output(&io, out, &json("42"), &vec![device_number(42.0)]);
    match staged {
        Ok((place, value)) => {
            assert_eq!(place, 0);
            assert!(matches!(value, CipValue::Udint(42)));
        }
        Err(e) => panic!("{}", e.message()),
    }
    let bad = session.set_output(&io, out, &json("-1"), &vec![device_number(-1.0)]);
    assert!(matches!(bad, Err(DeviceError::Permanent(_))), "udint cannot hold -1");

    let other = field("other", 4, EipType::Udint);
    match session.set_output(&io, &other, &json("1"), &vec![device_number(1.0)]) {
        Ok(_) => panic!("no such field"),
        Err(e) => assert_eq!(e.message(), "unknown output field"),
    }
    let none = IoConfig {
        output_run: None,
        ..push_io()
    };
    match session.set_output(&none, out, &json("1"), &vec![device_number(1.0)]) {
        Ok(_) => panic!("no output assembly"),
        Err(e) => assert!(matches!(e, DeviceError::Unsupported(_))),
    }
}

#[test]
fn a_refused_layout_is_permanent_and_says_why() {
    let io = push_io();
    let refused = |input: Result<(), String>, output: Result<(), String>| {
        match SimBackend.open_push("opener", &io, input, output) {
            Ok(_) => panic!("a refused layout opens nothing"),
            Err(e) => {
                assert!(matches!(e, DeviceError::Permanent(_)));
                e.message()
            }
        }
    };
    let bad = |why: &str| Err(why.to_string());
    assert_eq!(refused(bad("overlap"), Ok(())), "overlap");
    assert_eq!(refused(Ok(()), bad("past the end")), "past the end");
    assert_eq!(refused(bad("overlap"), bad("past the end")), "overlap", "the input comes first");
    match SimBackend.open_push("", &io, bad("overlap"), Ok(())) {
        Ok(_) => panic!("no endpoint"),
        Err(e) => assert_eq!(e.message(), "no endpoint configured", "the endpoint before the layouts"),
    }
}

#[test]
fn a_staged_output_is_kept_and_a_refused_one_is_permanent() {
    let mut session = open_push("opener");
    assert_eq!(session.out_buf, vec![0; 8]);
    assert!(session.staged(vec![42, 0, 0, 0, 0, 0, 0, 0], Ok(())).is_ok());
    assert_eq!(session.out_buf[0], 42);
    match session.staged(vec![1; 8], Err("buffer too short".to_string())) {
        Ok(_) => panic!("the layout refused it"),
        Err(e) => {
            assert!(matches!(e, DeviceError::Permanent(_)));
            assert_eq!(e.message(), "buffer too short");
        }
    }
    assert_eq!(session.out_buf, vec![1; 8], "as the layout left it");
    let bare = IoConfig {
        output_run: None,
        ..push_io()
    };
    match SimPushSession::open(&bare, Ok(()), Ok(())) {
        Ok(s) => assert!(s.out_buf.is_empty(), "no output assembly"),
        Err(e) => panic!("{}", e.message()),
    }
}
