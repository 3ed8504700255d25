use tinylog::{
    BufferSlot, Field, FieldValue, FieldVisitor, Indented, Level, LogError, Logger, Metadata,
    SpanData, StringLike,
};

fn field(name: &str, value: FieldValue) -> Field {
    Field { name: name.to_string(), value }
}

#[test]
fn indented_push_str_matches_single_pushes() {
    for text in ["a\nb", "", "\n", "x\n\ny\n", "no breaks", "é\n✘"] {
        let mut whole = Indented::new(String::new(), 4);
        whole.push_str(text);
        let mut single = Indented::new(String::new(), 4);
        for c in text.chars() {
            single.push(c);
        }
        assert_eq!(whole.output, single.output);
    }
    let mut ind = Indented::new(String::new(), 4);
    ind.push_str("a\nb");
    assert_eq!(ind.output, "a\n    b");
}

#[test]
fn nested_indentation_adds_up() {
    let mut ind = Indented::new(Indented::new(String::from("top"), 2), 3);
    ind.push_str("\nx");
    ind.reserve(10);
    ind.push('\n');
    assert_eq!(ind.output.output, "top\n     x\n     ");
}

#[test]
fn message_and_count_fields() {
    let mut v = FieldVisitor::new(String::new());
    v.record_str("message", "hi");
    assert_eq!(v.output, "\nhi");
    let mut v = FieldVisitor::new(String::new());
    v.record_u64("count", 5);
    assert_eq!(v.output, "\ncount: 5");
}

#[test]
fn field_kinds() {
    let mut v = FieldVisitor::new(String::new());
    v.record_str("name", "a\"b");
    v.record_bool("ok", true);
    v.record_bool("bad", false);
    v.record_i64("neg", -12);
    v.record_i128("min", i128::MIN);
    v.record_u128("max", u128::MAX);
    v.record_text("ratio", "0.5");
    assert_eq!(
        v.output,
        "\nname: \"a\\\"b\"\nok: true\nbad: false\nneg: -12\nmin: -170141183460469231731687303715884105728\nmax: 340282366920938463463374607431768211455\nratio: 0.5"
    );
}

#[test]
fn fields_through_indentation() {
    let mut v = FieldVisitor::new(Indented::new(String::new(), 8));
    let fields = vec![
        field("message", FieldValue::Str("two\nlines".to_string())),
        field("n", FieldValue::I64(3)),
    ];
    v.record_all(&fields);
    assert_eq!(v.output.output, "\n        two\n        lines\n        n: 3");
}

#[test]
fn record_with_message() {
    let logger = Logger::new(false, 0);
    let meta = Metadata { level: Level::Warn, module: "m", line: Some(3) };
    let mut buf = String::new();
    logger.render_record(&mut buf, &meta, None, "hello\nworld", true);
    assert_eq!(buf, " ⚠ warn m:3\n        hello\n        world\n");
}

#[test]
fn record_empty_messages() {
    let logger = Logger::new(false, 0);
    let meta = Metadata { level: Level::Warn, module: "m", line: Some(3) };
    let mut buf = String::new();
    logger.render_record(&mut buf, &meta, None, "", true);
    assert_eq!(buf, " ⚠ warn m:3\n");
    let mut buf = String::new();
    logger.render_record(&mut buf, &meta, None, "", false);
    assert_eq!(buf, " ⚠ warn m:3\n        \n");
}

#[test]
fn record_with_time() {
    let logger = Logger::new(false, 0);
    let meta = Metadata { level: Level::Debug, module: "a::b", line: None };
    let mut buf = String::new();
    logger.render_record(&mut buf, &meta, Some(1614877567000000000), "x", false);
    assert_eq!(buf, "○ debug a/b 5:06:07-PM-2021/3/4\n        x\n");
}

#[test]
fn plain_record_has_no_escape() {
    let logger = Logger::new(false, 0);
    let meta = Metadata { level: Level::Error, module: "a::b", line: Some(9) };
    let mut buf = String::new();
    logger.render_record(&mut buf, &meta, Some(0), "some\ntext", true);
    assert!(!buf.contains('\x1b'));
}

fn span(logger: &Logger, name: &str, created: u64) -> SpanData {
    let meta = Metadata { level: Level::Info, module: "app", line: None };
    logger.new_span(&meta, name, &vec![field("x", FieldValue::I64(1))], created)
}

#[test]
fn event_under_two_spans() {
    let logger = Logger::new(false, 0);
    let outer = span(&logger, "outer", 0);
    let inner = span(&logger, "inner", 0);
    let meta = Metadata { level: Level::Info, module: "app", line: None };
    let mut buf = String::new();
    let fields = vec![field("message", FieldValue::Str("go".to_string()))];
    logger.render_event(&mut buf, &meta, None, 0, &fields, &vec![&inner, &outer]);
    assert_eq!(
        buf,
        " ● info app\n        go\n      ● info app\n        inner\n        x: 1\n      ● info app\n        outer\n        x: 1\n"
    );
    let go = buf.find("go").unwrap();
    let i = buf.find("inner").unwrap();
    let o = buf.find("outer").unwrap();
    assert!(go < i && i < o);
}

#[test]
fn event_shows_elapsed_time() {
    let logger = Logger::new(false, 0);
    let a = span(&logger, "", 1_000);
    let b = span(&logger, "b", 0);
    let meta = Metadata { level: Level::Error, module: "e", line: Some(1) };
    let mut buf = String::new();
    logger.render_event(&mut buf, &meta, None, 1_500_000_000, &vec![], &vec![&a, &b]);
    assert_eq!(
        buf,
        "✘ error e:1\n      ● info app (1.499s ago)\n        x: 1\n      ● info app (1.500s ago)\n        b\n        x: 1\n"
    );
    let mut buf = String::new();
    logger.render_event(&mut buf, &meta, None, 5_000_999, &vec![], &vec![&b]);
    assert_eq!(buf, "✘ error e:1\n      ● info app (5ms ago)\n        b\n        x: 1\n");
    let mut buf = String::new();
    logger.render_event(&mut buf, &meta, None, 999_999, &vec![], &vec![&b]);
    assert_eq!(buf, "✘ error e:1\n      ● info app\n        b\n        x: 1\n");
    let mut buf = String::new();
    logger.render_event(&mut buf, &meta, None, 1_002_000_000, &vec![], &vec![&b]);
    assert_eq!(buf, "✘ error e:1\n      ● info app (1.002s ago)\n        b\n        x: 1\n");
}

#[test]
fn elapsed_time_dimmed_with_color() {
    let logger = Logger::new(true, 0);
    let b = span(&logger, "b", 0);
    let meta = Metadata { level: Level::Error, module: "e", line: None };
    let mut buf = String::new();
    logger.render_event(&mut buf, &meta, None, 20_000_000, &vec![], &vec![&b]);
    assert_eq!(
        buf,
        "\x1b[91m✘ \x1b[1;4merror\x1b[;31m e\x1b[m\n      \x1b[92m● \x1b[1;4minfo\x1b[;32m app\x1b[m\x1b[2m (20ms ago)\x1b[m\n        b\n        x: 1\n"
    );
}

#[test]
fn span_fields_recorded_later() {
    let logger = Logger::new(false, 0);
    let mut s = span(&logger, "s", 0);
    s.record(&vec![field("y", FieldValue::Bool(false)), field("z", FieldValue::Str("q".to_string()))]);
    let meta = Metadata { level: Level::Trace, module: "t", line: None };
    let mut buf = String::new();
    logger.render_event(&mut buf, &meta, None, 0, &vec![field("k", FieldValue::U64(2))], &vec![&s]);
    assert_eq!(
        buf,
        "→ trace t\n        k: 2\n      ● info app\n        s\n        x: 1\n        y: false\n        z: \"q\"\n"
    );
}

#[test]
fn nested_buffer_take_leaves_outer_intact() {
    let mut slot = BufferSlot::new();
    let mut outer = slot.take();
    assert!(outer.is_empty());
    outer.push_str("outer text");
    let mut inner = slot.take();
    assert!(inner.is_empty());
    inner.push_str("inner");
    slot.give_back(inner);
    assert_eq!(outer, "outer text");
    slot.give_back(outer);
    let again = slot.take();
    assert!(again.is_empty());
}

#[test]
fn reused_buffer_comes_back_empty() {
    let mut slot = BufferSlot::new();
    let mut b = slot.take();
    b.push_str("used");
    slot.give_back(b);
    let b = slot.take();
    assert_eq!(b, "");
}

#[test]
fn log_error_kinds() {
    let io = LogError::from(std::io::Error::new(std::io::ErrorKind::Other, "disk full"));
    assert!(io.is_io());
    assert_eq!(io.message(), "log write error: disk full");
    let fmt = LogError::from(std::fmt::Error);
    assert!(!fmt.is_io());
    assert!(fmt.message().starts_with("log write error: "));
}
