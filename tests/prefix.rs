use tinylog::{Level, Logger, Metadata, PrefixOptions};

fn prefix(logger: &Logger, level: Level, module: &str, line: Option<u32>, align: bool) -> String {
    let mut out = String::new();
    let meta = Metadata { level, module, line };
    logger.write_prefix(&mut out, &meta, &PrefixOptions { align, time: None });
    out
}

#[test]
fn error_prefix_without_color() {
    let logger = Logger::new(false, 0);
    assert_eq!(prefix(&logger, Level::Error, "a::b::c", Some(42), false), "✘ error a/b/c:42");
    assert_eq!(prefix(&logger, Level::Error, "a::b::c", Some(42), true), "✘ error a/b/c:42");
}

#[test]
fn alignment_pads_info_and_warn_only() {
    let logger = Logger::new(false, 0);
    assert_eq!(prefix(&logger, Level::Info, "m", None, true), " ● info m");
    assert_eq!(prefix(&logger, Level::Warn, "m", None, true), " ⚠ warn m");
    assert_eq!(prefix(&logger, Level::Trace, "m", None, true), "→ trace m");
    assert_eq!(prefix(&logger, Level::Debug, "m", None, true), "○ debug m");
    assert_eq!(prefix(&logger, Level::Error, "m", None, true), "✘ error m");
    assert_eq!(prefix(&logger, Level::Info, "m", None, false), "● info m");
    assert_eq!(prefix(&logger, Level::Warn, "m", None, false), "⚠ warn m");
}

#[test]
fn plain_prefix_has_no_escape() {
    let logger = Logger::new(false, 0);
    for level in [Level::Trace, Level::Debug, Level::Info, Level::Warn, Level::Error] {
        let p = prefix(&logger, level, "x::y", Some(1), true);
        assert!(!p.contains('\x1b'));
    }
}

#[test]
fn colored_prefix_ends_with_reset() {
    let logger = Logger::new(true, 0);
    for level in [Level::Trace, Level::Debug, Level::Info, Level::Warn, Level::Error] {
        for line in [None, Some(3)] {
            let p = prefix(&logger, level, "x::y", line, true);
            assert!(p.ends_with("\x1b[m"));
        }
    }
}

#[test]
fn colored_prefix_exact() {
    let logger = Logger::new(true, 0);
    assert_eq!(
        prefix(&logger, Level::Info, "a::b", Some(7), true),
        " \x1b[92m● \x1b[1;4minfo\x1b[;32m a/b\x1b[2m:7\x1b[m"
    );
    assert_eq!(
        prefix(&logger, Level::Trace, "t", None, false),
        "\x1b[94m→ \x1b[1;4mtrace\x1b[;34m t\x1b[m"
    );
}

#[test]
fn module_path_edge_cases() {
    let logger = Logger::new(false, 0);
    assert_eq!(prefix(&logger, Level::Debug, "", None, false), "○ debug ");
    assert_eq!(prefix(&logger, Level::Debug, ":::", None, false), "○ debug /:");
    assert_eq!(prefix(&logger, Level::Debug, "a:b::c:", None, false), "○ debug a:b/c:");
    assert_eq!(prefix(&logger, Level::Debug, "a::::b", None, false), "○ debug a//b");
}

#[test]
fn prefix_appends_to_existing_text() {
    let logger = Logger::new(false, 0);
    let mut out = String::from(">>");
    let meta = Metadata { level: Level::Warn, module: "w", line: Some(0) };
    logger.write_prefix(&mut out, &meta, &PrefixOptions { align: true, time: None });
    assert_eq!(out, ">> ⚠ warn w:0");
}

#[test]
fn timestamp_in_utc() {
    let logger = Logger::new(false, 0);
    let time = logger.local_time(1614877567000000000);
    let mut out = String::new();
    let meta = Metadata { level: Level::Error, module: "m", line: None };
    logger.write_prefix(&mut out, &meta, &PrefixOptions { align: true, time });
    assert_eq!(out, "✘ error m 5:06:07-PM-2021/3/4");
}

#[test]
fn timestamp_with_offset_and_color() {
    let logger = Logger::new(true, 3600);
    let time = logger.local_time(1614877567000000000);
    let mut out = String::new();
    let meta = Metadata { level: Level::Error, module: "m", line: Some(2) };
    logger.write_prefix(&mut out, &meta, &PrefixOptions { align: false, time });
    assert_eq!(
        out,
        "\x1b[91m✘ \x1b[1;4merror\x1b[;31m m\x1b[2m:2 \x1b[;2m6:06:07-PM-2021/3/4\x1b[m"
    );
}

#[test]
fn timestamp_after_midnight() {
    let logger = Logger::new(false, 0);
    let time = logger.local_time(946598709000000000).unwrap();
    assert_eq!((time.year, time.month, time.day), (1999, 12, 31));
    assert_eq!((time.hour, time.minute, time.second), (0, 5, 9));
    let mut out = String::new();
    let meta = Metadata { level: Level::Trace, module: "m", line: None };
    logger.write_prefix(&mut out, &meta, &PrefixOptions { align: false, time: Some(time) });
    assert_eq!(out, "→ trace m 12:05:09-AM-1999/12/31");
}

#[test]
fn timestamp_at_noon() {
    let logger = Logger::new(false, -3600 * 5);
    let time = logger.local_time(1614877567000000000).unwrap();
    assert_eq!(time.hour, 12);
    let mut out = String::new();
    let meta = Metadata { level: Level::Trace, module: "m", line: None };
    logger.write_prefix(&mut out, &meta, &PrefixOptions { align: false, time: Some(time) });
    assert_eq!(out, "→ trace m 12:06:07-PM-2021/3/4");
}

#[test]
fn timezone_out_of_range_gives_no_time() {
    let logger = Logger::new(false, 200_000);
    assert!(logger.local_time(0).is_none());
}
