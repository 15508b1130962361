use reformation::CompileError;
use reformation::Field;
use reformation::FieldType;
use reformation::Matcher;
use reformation::Schema;
use reformation::numbers::parse_bounded;
use reformation::numbers::parse_i64;
use reformation::numbers::parse_u64;
use reformation::numbers::u64_to_string;

fn unsigned_field(name: &str) -> Field {
    Field { name: name.to_string(), ty: FieldType::unsigned_int() }
}

fn float_field(name: &str) -> Field {
    Field { name: name.to_string(), ty: FieldType::float() }
}

fn date_matcher() -> Matcher {
    let schema = Schema {
        fields: vec![
            unsigned_field("year"),
            unsigned_field("month"),
            unsigned_field("day"),
            unsigned_field("hour"),
            unsigned_field("minute"),
        ],
    };
    let cs = reformation::schema::compile("{year}-{month}-{day} {hour}:{minute}", &schema)
        .ok()
        .unwrap();
    Matcher::new(cs).ok().unwrap()
}

fn single_capture(rec: &reformation::Record, i: usize) -> String {
    assert_eq!(rec.fields[i].captures.len(), 1);
    rec.fields[i].captures[0].clone().unwrap()
}

#[test]
fn date_parses_to_fields() {
    let m = date_matcher();
    let rec = m.parse("2018-12-22 20:23").ok().unwrap();
    assert_eq!(rec.fields.len(), 5);
    assert_eq!(rec.fields[0].name, "year");
    assert_eq!(parse_bounded(&single_capture(&rec, 0), u16::MAX as u64), Some(2018));
    assert_eq!(parse_bounded(&single_capture(&rec, 1), u8::MAX as u64), Some(12));
    assert_eq!(parse_bounded(&single_capture(&rec, 2), u8::MAX as u64), Some(22));
    assert_eq!(parse_bounded(&single_capture(&rec, 3), u8::MAX as u64), Some(20));
    assert_eq!(parse_bounded(&single_capture(&rec, 4), u8::MAX as u64), Some(23));
}

#[test]
fn date_out_of_calendar_range_still_matches() {
    // The pattern accepts any digits; only the numeric type's own range
    // rejects a value, and 13 and 99 both fit in eight bits.
    let m = date_matcher();
    let rec = m.parse("2018-13-99 20:23").ok().unwrap();
    assert_eq!(parse_bounded(&single_capture(&rec, 1), u8::MAX as u64), Some(13));
    assert_eq!(parse_bounded(&single_capture(&rec, 2), u8::MAX as u64), Some(99));
}

#[test]
fn bounded_reconstruction_rejects_overflow() {
    assert_eq!(parse_bounded("300", u8::MAX as u64), None);
    assert_eq!(parse_bounded("255", u8::MAX as u64), Some(255));
}

#[test]
fn no_match_carries_request_verbatim() {
    let m = date_matcher();
    match m.parse("not-a-date") {
        Err(e) => {
            assert_eq!(e.request, "not-a-date");
            assert_eq!(e.format, r"(\d+)-(\d+)-(\d+) (\d+):(\d+)");
        }
        Ok(_) => panic!("expected NoRegexMatch"),
    }
}

#[test]
fn float_vector_scenario() {
    let schema = Schema { fields: vec![float_field("x"), float_field("y"), float_field("z")] };
    let cs = reformation::schema::compile(r"Vec\{{{x},\s*{y},\s*{z}\}}", &schema).ok().unwrap();
    let m = Matcher::new(cs).ok().unwrap();
    let rec = m.parse("Vec{-0.4,1e-3,   2e-3}").ok().unwrap();
    let x: f64 = single_capture(&rec, 0).parse().unwrap();
    let y: f64 = single_capture(&rec, 1).parse().unwrap();
    let z: f64 = single_capture(&rec, 2).parse().unwrap();
    assert_eq!(x, -0.4);
    assert_eq!(y, 0.001);
    assert_eq!(z, 0.002);
}

#[test]
fn decimal_round_trip() {
    // Render fields of a record through the template's literal structure,
    // parse the rendered text, and get the same values back.
    let date = (2018u64, 12u64, 22u64, 20u64, 23u64);
    let rendered = format!(
        "{}-{}-{} {}:{}",
        u64_to_string(date.0),
        u64_to_string(date.1),
        u64_to_string(date.2),
        u64_to_string(date.3),
        u64_to_string(date.4),
    );
    let m = date_matcher();
    let rec = m.parse(&rendered).ok().unwrap();
    assert_eq!(parse_u64(&single_capture(&rec, 0)), Some(date.0));
    assert_eq!(parse_u64(&single_capture(&rec, 1)), Some(date.1));
    assert_eq!(parse_u64(&single_capture(&rec, 2)), Some(date.2));
    assert_eq!(parse_u64(&single_capture(&rec, 3)), Some(date.3));
    assert_eq!(parse_u64(&single_capture(&rec, 4)), Some(date.4));
}

#[test]
fn parse_u64_exact_values() {
    assert_eq!(parse_u64("0"), Some(0));
    assert_eq!(parse_u64("007"), Some(7));
    assert_eq!(parse_u64("18446744073709551615"), Some(u64::MAX));
    assert_eq!(parse_u64("18446744073709551616"), None);
    assert_eq!(parse_u64(""), None);
    assert_eq!(parse_u64("12a"), None);
    assert_eq!(parse_u64("-3"), None);
}

#[test]
fn u64_to_string_renders_decimal() {
    assert_eq!(u64_to_string(0), "0");
    assert_eq!(u64_to_string(2018), "2018");
    assert_eq!(u64_to_string(u64::MAX), "18446744073709551615");
}

#[test]
fn wide_field_owns_its_slice() {
    let pair = Field {
        name: "pair".to_string(),
        ty: FieldType { sub_pattern: r"(\d+)-(\d+)".to_string(), width: 2 },
    };
    let schema = Schema { fields: vec![pair, unsigned_field("tail")] };
    let cs = reformation::schema::compile("{pair}:{tail}", &schema).ok().unwrap();
    let m = Matcher::new(cs).ok().unwrap();
    let rec = m.parse("7-8:9").ok().unwrap();
    assert_eq!(rec.fields[0].captures.len(), 2);
    assert_eq!(rec.fields[0].captures[0].as_deref(), Some("7"));
    assert_eq!(rec.fields[0].captures[1].as_deref(), Some("8"));
    assert_eq!(rec.fields[1].captures.len(), 1);
    assert_eq!(rec.fields[1].captures[0].as_deref(), Some("9"));
}

#[test]
fn width_mismatch_is_caught_at_build() {
    // The declared width says two groups; the sub-pattern holds one.
    let lying = Field {
        name: "a".to_string(),
        ty: FieldType { sub_pattern: r"(\d+)".to_string(), width: 2 },
    };
    let schema = Schema { fields: vec![lying] };
    let cs = reformation::schema::compile("{a}", &schema).ok().unwrap();
    match Matcher::new(cs) {
        Err(CompileError::WidthMismatch) => {}
        _ => panic!("expected WidthMismatch"),
    }
}

#[test]
fn bad_pattern_is_refused_at_build() {
    let broken = Field {
        name: "a".to_string(),
        ty: FieldType { sub_pattern: "(".to_string(), width: 1 },
    };
    let schema = Schema { fields: vec![broken] };
    let cs = reformation::schema::compile("{a}", &schema).ok().unwrap();
    match Matcher::new(cs) {
        Err(CompileError::PatternRefused) => {}
        _ => panic!("expected PatternRefused"),
    }
}

#[test]
fn message_mentions_nothing_empty() {
    let m = date_matcher();
    let e = m.parse("nope").err().unwrap();
    assert!(!e.message().is_empty());
}

#[test]
fn nested_record_composition() {
    // A compiled record embeds as a field type of an enclosing schema:
    // its pattern is the sub-pattern, its total width the capture width.
    let point = Schema { fields: vec![unsigned_field("x"), unsigned_field("y")] };
    let point_cs = reformation::schema::compile(r"\({x},{y}\)", &point).ok().unwrap();
    let outer = Schema {
        fields: vec![
            Field { name: "from".to_string(), ty: point_cs.as_field_type() },
            Field { name: "to".to_string(), ty: point_cs.as_field_type() },
        ],
    };
    let cs = reformation::schema::compile("{from}->{to}", &outer).ok().unwrap();
    assert_eq!(cs.pattern, r"\((\d+),(\d+)\)->\((\d+),(\d+)\)");
    assert_eq!(cs.offsets, vec![1, 3]);
    let m = Matcher::new(cs).ok().unwrap();
    let rec = m.parse("(1,2)->(3,4)").ok().unwrap();
    assert_eq!(rec.fields[0].captures[0].as_deref(), Some("1"));
    assert_eq!(rec.fields[0].captures[1].as_deref(), Some("2"));
    assert_eq!(rec.fields[1].captures[0].as_deref(), Some("3"));
    assert_eq!(rec.fields[1].captures[1].as_deref(), Some("4"));
}

#[test]
fn parse_i64_exact_values() {
    assert_eq!(parse_i64("0"), Some(0));
    assert_eq!(parse_i64("-0"), Some(0));
    assert_eq!(parse_i64("+42"), Some(42));
    assert_eq!(parse_i64("-42"), Some(-42));
    assert_eq!(parse_i64("9223372036854775807"), Some(i64::MAX));
    assert_eq!(parse_i64("-9223372036854775808"), Some(i64::MIN));
    assert_eq!(parse_i64("9223372036854775808"), None);
    assert_eq!(parse_i64("-9223372036854775809"), None);
    assert_eq!(parse_i64(""), None);
    assert_eq!(parse_i64("+"), None);
    assert_eq!(parse_i64("--4"), None);
}

#[test]
fn signed_vector_scenario() {
    let schema = Schema {
        fields: vec![
            Field { name: "x".to_string(), ty: FieldType::signed_int() },
            Field { name: "y".to_string(), ty: FieldType::signed_int() },
        ],
    };
    let cs = reformation::schema::compile(r"^Vec\({x}, {y}\)$", &schema).ok().unwrap();
    let m = Matcher::new(cs).ok().unwrap();
    let rec = m.parse("Vec(-16, 8)").ok().unwrap();
    assert_eq!(parse_i64(&single_capture(&rec, 0)), Some(-16));
    assert_eq!(parse_i64(&single_capture(&rec, 1)), Some(8));
}

#[test]
fn from_template_builds_in_one_step() {
    let schema = Schema { fields: vec![unsigned_field("a"), unsigned_field("b")] };
    let m = Matcher::from_template("{a}.{b}", &schema).ok().unwrap();
    let rec = m.parse("3.14").ok().unwrap();
    assert_eq!(rec.fields[0].captures[0].as_deref(), Some("3"));
    assert_eq!(rec.fields[1].captures[0].as_deref(), Some("14"));
}

#[test]
fn from_template_refuses_bad_pattern() {
    let broken = Field {
        name: "a".to_string(),
        ty: FieldType { sub_pattern: "(".to_string(), width: 1 },
    };
    let schema = Schema { fields: vec![broken] };
    match Matcher::from_template("{a}", &schema) {
        Err(CompileError::PatternRefused) => {}
        _ => panic!("expected PatternRefused"),
    }
}
