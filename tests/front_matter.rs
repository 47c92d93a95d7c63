use salmon::date::Date;
use salmon::front_matter::{decompose_source, serialize, Field, FrontMatter, FrontMatterError};

fn date(y: i32, m: u32, d: u32) -> Date {
    Date::new(y, m, d).unwrap()
}

#[test]
fn parses_a_document() {
    let src = "---\ntitle: Hello world\ndate: 2019-06-23\ntags: diary rust\n---\n# Head\n\nText\n";
    let fm = decompose_source(src).unwrap();
    assert_eq!("Hello world", fm.title);
    assert_eq!(date(2019, 6, 23), fm.date);
    assert_eq!(vec!["diary".to_string(), "rust".to_string()], fm.tags);
    assert_eq!("# Head\n\nText\n", fm.body);
}

#[test]
fn keys_may_come_in_any_order() {
    let src = "---\ntags: a\ndate: 2020-01-02\ntitle: T\n---\nbody";
    let fm = decompose_source(src).unwrap();
    assert_eq!("T", fm.title);
    assert_eq!(date(2020, 1, 2), fm.date);
    assert_eq!(vec!["a".to_string()], fm.tags);
    assert_eq!("body\n", fm.body);
}

#[test]
fn delimiters_and_values_are_trimmed() {
    let src = "  ---  \r\n title:   Spaced  \r\ndate:  2021-12-31 \r\ntags:  x \t y  z \r\n---\r\nline\r\n";
    let fm = decompose_source(src).unwrap();
    assert_eq!("Spaced", fm.title);
    assert_eq!(date(2021, 12, 31), fm.date);
    assert_eq!(vec!["x".to_string(), "y".to_string(), "z".to_string()], fm.tags);
    assert_eq!("line\n", fm.body);
}

#[test]
fn title_keeps_its_colons() {
    let src = "---\ntitle: Rust: a tour\ndate: 2019-01-01\ntags: rust\n---\n";
    assert_eq!("Rust: a tour", decompose_source(src).unwrap().title);
}

#[test]
fn first_line_must_be_a_delimiter() {
    let src = "--\ntitle: a\ndate: 2019-01-01\ntags: x\n---\n";
    assert_eq!(Err(FrontMatterError::Format { line_number: 0 }), decompose_source(src).map(|_| ()));
    assert_eq!(Err(FrontMatterError::Format { line_number: 0 }), decompose_source("").map(|_| ()));
}

#[test]
fn fifth_line_must_be_a_delimiter() {
    let more = "---\ntitle: a\ndate: 2019-01-01\ntags: x\ntags: y\n---\n";
    assert_eq!(Err(FrontMatterError::Format { line_number: 4 }), decompose_source(more).map(|_| ()));
    let fewer = "---\ntitle: a\ndate: 2019-01-01\n---\n";
    assert_eq!(Err(FrontMatterError::Format { line_number: 4 }), decompose_source(fewer).map(|_| ()));
}

#[test]
fn delimiter_errors_come_before_field_errors() {
    let src = "---\nauthor: me\ndate: 2019-01-01\ntags: x\nnot a delimiter\n";
    assert_eq!(Err(FrontMatterError::Format { line_number: 4 }), decompose_source(src).map(|_| ()));
}

#[test]
fn unknown_key_is_refused() {
    let src = "---\ntitle: a\nauthor: me\ntags: x\n---\n";
    assert_eq!(
        Err(FrontMatterError::UnsupportedField { line_number: 2 }),
        decompose_source(src).map(|_| ())
    );
}

#[test]
fn empty_value_is_refused() {
    let src = "---\ntitle: a\ndate: 2019-01-01\ntags:   \n---\n";
    assert_eq!(
        Err(FrontMatterError::MissingValue { field: Field::Tags }),
        decompose_source(src).map(|_| ())
    );
    let src = "---\ntitle:\ndate: 2019-01-01\ntags: x\n---\n";
    assert_eq!(
        Err(FrontMatterError::MissingValue { field: Field::Title }),
        decompose_source(src).map(|_| ())
    );
}

#[test]
fn bad_date_is_refused() {
    let src = "---\ntitle: a\ndate: 2019-02-30\ntags: x\n---\n";
    assert_eq!(Err(FrontMatterError::DateParse { line_number: 2 }), decompose_source(src).map(|_| ()));
    let src = "---\ntitle: a\ndate: someday\ntags: x\n---\n";
    assert_eq!(Err(FrontMatterError::DateParse { line_number: 2 }), decompose_source(src).map(|_| ()));
}

#[test]
fn the_first_failing_line_is_reported() {
    let src = "---\nfoo: 1\ndate: bad\ntags: x\n---\n";
    assert_eq!(
        Err(FrontMatterError::UnsupportedField { line_number: 1 }),
        decompose_source(src).map(|_| ())
    );
}

#[test]
fn missing_key_gets_the_placeholder() {
    let src = "---\ntitle: a\ntitle: b\ntags: x\n---\n";
    let fm = decompose_source(src).unwrap();
    assert_eq!("b", fm.title);
    assert_eq!(date(2019, 4, 1), fm.date);
}

#[test]
fn serialize_then_parse_round_trips() {
    let fm = FrontMatter {
        title: "A day off".to_string(),
        date: date(2024, 2, 29),
        tags: vec!["diary".to_string(), "life".to_string()],
        body: "\n## Heading\n\ntext\n".to_string(),
    };
    let text = serialize(&fm);
    assert_eq!(
        "---\ntitle: A day off\ndate: 2024-02-29\ntags: diary life\n---\n\n## Heading\n\ntext\n",
        text
    );
    let back = decompose_source(&text).unwrap();
    assert_eq!(fm.title, back.title);
    assert_eq!(fm.date, back.date);
    assert_eq!(fm.tags, back.tags);
    assert_eq!(fm.body, back.body);
}

#[test]
fn early_year_is_zero_padded() {
    let fm = FrontMatter {
        title: "Old".to_string(),
        date: date(33, 1, 5),
        tags: vec!["history".to_string()],
        body: String::new(),
    };
    let text = serialize(&fm);
    assert!(text.contains("date: 0033-01-05\n"));
    assert_eq!(date(33, 1, 5), decompose_source(&text).unwrap().date);
}
