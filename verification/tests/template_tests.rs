use reformation::arguments;
use reformation::CompileError;
use reformation::Field;
use reformation::FieldType;
use reformation::Schema;

fn names(template: &str) -> Vec<String> {
    let mut v = arguments(template);
    v.sort();
    v
}

#[test]
fn arguments_finds_placeholders() {
    assert_eq!(names("{year}-{month}-{day} {hour}:{minute}"), vec![
        "day".to_string(),
        "hour".to_string(),
        "minute".to_string(),
        "month".to_string(),
        "year".to_string(),
    ]);
}

#[test]
fn arguments_escaped_span_yields_none() {
    // A doubled open bracket, literal text, a doubled close bracket:
    // nothing in that span is a placeholder.
    assert_eq!(names("{{not_an_arg}}"), Vec::<String>::new());
}

#[test]
fn arguments_mixed_escapes() {
    assert_eq!(names(r"Vec\{{{x},\s*{y},\s*{z}\}}"), vec![
        "x".to_string(),
        "y".to_string(),
        "z".to_string(),
    ]);
}

#[test]
fn arguments_repeated_placeholder_once() {
    assert_eq!(names("{a}{b}{a}"), vec!["a".to_string(), "b".to_string()]);
}

#[test]
fn arguments_dangling_open_ignored() {
    assert_eq!(names("{unfinished"), Vec::<String>::new());
}

#[test]
fn arguments_stray_close_is_literal() {
    assert_eq!(names("a}b"), Vec::<String>::new());
}

fn unsigned_field(name: &str) -> Field {
    Field { name: name.to_string(), ty: FieldType::unsigned_int() }
}

#[test]
fn compile_composes_pattern_and_offsets() {
    let schema = Schema {
        fields: vec![
            unsigned_field("year"),
            unsigned_field("month"),
            unsigned_field("day"),
            unsigned_field("hour"),
            unsigned_field("minute"),
        ],
    };
    let cs = reformation::schema::compile("{year}-{month}-{day} {hour}:{minute}", &schema)
        .ok()
        .unwrap();
    assert_eq!(cs.pattern, r"(\d+)-(\d+)-(\d+) (\d+):(\d+)");
    assert_eq!(cs.names, vec!["year", "month", "day", "hour", "minute"]);
    assert_eq!(cs.widths, vec![1, 1, 1, 1, 1]);
    // offset(f1) = 1 and offset(f_{i+1}) = offset(f_i) + w_i
    assert_eq!(cs.offsets, vec![1, 2, 3, 4, 5]);
    assert_eq!(cs.total, 5);
}

#[test]
fn compile_offsets_accumulate_wide_fields() {
    let wide = Field {
        name: "pair".to_string(),
        ty: FieldType { sub_pattern: r"(\d+)-(\d+)".to_string(), width: 2 },
    };
    let schema = Schema { fields: vec![wide, unsigned_field("tail")] };
    let cs = reformation::schema::compile("{pair}:{tail}", &schema).ok().unwrap();
    assert_eq!(cs.pattern, r"(\d+)-(\d+):(\d+)");
    assert_eq!(cs.offsets, vec![1, 3]);
    assert_eq!(cs.widths, vec![2, 1]);
    assert_eq!(cs.total, 3);
}

#[test]
fn compile_excludes_non_participating_field() {
    // A schema field absent from the template is no error: it simply
    // takes no part in the composed pattern or the offsets.
    let schema = Schema {
        fields: vec![unsigned_field("a"), unsigned_field("unused"), unsigned_field("b")],
    };
    let cs = reformation::schema::compile("{a}+{b}", &schema).ok().unwrap();
    assert_eq!(cs.pattern, r"(\d+)+(\d+)");
    assert_eq!(cs.names, vec!["a", "b"]);
    assert_eq!(cs.offsets, vec![1, 2]);
}

#[test]
fn compile_escaped_braces_become_literal_braces() {
    let schema = Schema { fields: vec![unsigned_field("x")] };
    let cs = reformation::schema::compile(r"\{{{x}\}}", &schema).ok().unwrap();
    assert_eq!(cs.pattern, r"\{(\d+)\}");
}

#[test]
fn compile_duplicate_field_name_fails() {
    let schema = Schema { fields: vec![unsigned_field("a"), unsigned_field("a")] };
    match reformation::schema::compile("{a}", &schema) {
        Err(CompileError::DuplicateFieldName) => {}
        _ => panic!("expected DuplicateFieldName"),
    }
}

#[test]
fn compile_unknown_placeholder_fails() {
    let schema = Schema { fields: vec![unsigned_field("a")] };
    match reformation::schema::compile("{a}-{typo}", &schema) {
        Err(CompileError::UnknownPlaceholder) => {}
        _ => panic!("expected UnknownPlaceholder"),
    }
}

#[test]
fn compile_unterminated_placeholder_fails() {
    let schema = Schema { fields: vec![unsigned_field("a")] };
    match reformation::schema::compile("{a}-{oops", &schema) {
        Err(CompileError::UnterminatedPlaceholder) => {}
        _ => panic!("expected UnterminatedPlaceholder"),
    }
}

#[test]
fn compile_width_overflow_fails() {
    let huge = Field {
        name: "a".to_string(),
        ty: FieldType { sub_pattern: "(x)".to_string(), width: usize::MAX },
    };
    let schema = Schema { fields: vec![huge, unsigned_field("b")] };
    match reformation::schema::compile("{a}{b}", &schema) {
        Err(CompileError::WidthOverflow) => {}
        _ => panic!("expected WidthOverflow"),
    }
}

#[test]
fn arguments_nested_brackets_use_stack_discipline() {
    // A close bracket matches the most recently opened one, so the inner
    // body and the outer body are both discovered.
    assert_eq!(names("{a{b}c}"), vec!["a{b}c".to_string(), "b".to_string()]);
}
