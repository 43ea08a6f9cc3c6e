use flowdmr::config::Config;
use flowdmr::meta::{meta_line, MetaError, MetaLine, MetaParser};

fn parser() -> MetaParser {
    let c = Config::default();
    MetaParser::new(&c.re_source, &c.re_talkgroup, &c.re_call_end).unwrap()
}

#[test]
fn parses_source_and_talkgroup_same_line() {
    let p = parser();
    let m = p.parse_line("Sync: +DMR  Source: 2604123  Target: 9  (slot 1)");
    assert_eq!(m.source, Some(2_604_123));
    assert_eq!(m.talkgroup, Some(9));
    assert!(!m.call_end);
}

#[test]
fn parses_abbreviated_forms() {
    let p = parser();
    let m = p.parse_line("VC SRC=311500 TGT=31337 CC=1");
    assert_eq!(m.source, Some(311_500));
    assert_eq!(m.talkgroup, Some(31337));
}

#[test]
fn detects_call_end() {
    let p = parser();
    assert!(p.parse_line("Sync: no sync").call_end);
    assert!(p.parse_line("[DMR] Voice End / Terminator with LC").call_end);
    assert!(!p.parse_line("Source: 1 Target: 2").call_end);
}

#[test]
fn ignores_unrelated_lines() {
    let p = parser();
    let m = p.parse_line("Audio output device opened at 8000 Hz");
    // "8000" must not be mistaken for a source/tg (no source/target keyword).
    assert!(m.is_empty(), "got {m:?}");
}

#[test]
fn refused_pattern_is_named() {
    assert!(matches!(MetaParser::new("(", "(", "("), Err(MetaError::Source(_))));
    assert!(matches!(MetaParser::new("a", "(", "("), Err(MetaError::Talkgroup(_))));
    match MetaParser::new("a", "b", "(") {
        Err(MetaError::CallEnd(why)) => {
            assert_eq!(why, regex::Regex::new("(").unwrap_err().to_string());
            assert_eq!(MetaError::CallEnd(why.clone()).message(), why);
        }
        _ => panic!("accepted"),
    }
}

#[test]
fn groups_become_numbers() {
    assert_eq!(
        meta_line(Some("4294967295".into()), Some("+7".into()), true),
        MetaLine { source: Some(u32::MAX), talkgroup: Some(7), call_end: true }
    );
    assert_eq!(meta_line(Some("4294967296".into()), Some("-1".into()), false), MetaLine::default());
    assert_eq!(meta_line(Some("".into()), None, false), MetaLine::default());
}

#[test]
fn pattern_without_a_group_finds_no_number() {
    let p = MetaParser::new(r"src=\d+", r"tg=(\d+)|x", "bye").unwrap();
    let m = p.parse_line("src=12 x");
    assert_eq!(m, MetaLine { source: None, talkgroup: None, call_end: false });
    let m = p.parse_line("src=12 tg=34 bye");
    assert_eq!(m, MetaLine { source: None, talkgroup: Some(34), call_end: true });
}

#[test]
fn line_is_empty_only_without_anything() {
    assert!(MetaLine::default().is_empty());
    assert!(!MetaLine { source: Some(0), ..Default::default() }.is_empty());
    assert!(!MetaLine { talkgroup: Some(0), ..Default::default() }.is_empty());
    assert!(!MetaLine { call_end: true, ..Default::default() }.is_empty());
}

#[test]
fn refused_pattern_comes_with_its_reason() {
    for bad in ["(", "a{2", "[z-a]", r"\p{Foo}", r"\w{1000}"] {
        let why = regex::Regex::new(bad).unwrap_err().to_string();
        match MetaParser::new(bad, "(", "(") {
            Err(MetaError::Source(text)) => assert_eq!(text, why),
            _ => panic!("accepted {bad}"),
        }
        match MetaParser::new("a", bad, "(") {
            Err(MetaError::Talkgroup(text)) => assert_eq!(text, why),
            _ => panic!("accepted {bad}"),
        }
        match MetaParser::new("a", "b", bad) {
            Err(MetaError::CallEnd(text)) => assert_eq!(text, why),
            _ => panic!("accepted {bad}"),
        }
    }
}
