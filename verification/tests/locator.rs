//! Source locators.

use jishuken::error::Error;
use jishuken::locator::{parse_source, render_ground, render_source};
use jishuken::number::Real;
use jishuken::predicate::Predicate;
use jishuken::schema::{
    Capabilities, CommandSource, GeneratorHash, GeneratorRef, GroundBinding, GroundSource,
    HandlerRef, HandlerSource, Locator, SourceRoot,
};

#[test]
fn parses_heading_with_named_root() {
    let (src, loc) = parse_source("wiki:Architecture.md#authentication", None).unwrap();
    assert_eq!(src.root, SourceRoot::Named("wiki".into()));
    assert_eq!(src.path, "Architecture.md");
    assert_eq!(
        loc,
        Locator::Heading {
            heading: "authentication".into()
        }
    );
}

#[test]
fn parses_line_range() {
    let (src, loc) = parse_source("src/router.rs#L40-58", None).unwrap();
    assert_eq!(src.root, SourceRoot::Project);
    assert_eq!(loc, Locator::LineRange { start: 40, end: 58 });
}

#[test]
fn parses_quote_and_whole() {
    let (_, q) = parse_source("Doc.md?q=\"verify_token\"", None).unwrap();
    assert_eq!(
        q,
        Locator::Quote {
            needle: "verify_token".into()
        }
    );
    let (_, w) = parse_source("src/main.rs", None).unwrap();
    assert_eq!(w, Locator::Whole);
}

#[test]
fn parses_treesitter_lang_from_extension() {
    let (_, loc) = parse_source("src/auth.rs#ts:(function_item)", None).unwrap();
    assert_eq!(
        loc,
        Locator::TreeSitter {
            lang: "rust".into(),
            query: "(function_item)".into()
        }
    );
}

#[test]
fn rev_from_flag_and_inline() {
    let (src, _) = parse_source("wiki:Doc.md#h", Some("main".into())).unwrap();
    assert_eq!(src.rev.as_deref(), Some("main"));
    let (src2, _) = parse_source("wiki:Doc.md#h@9f12", None).unwrap();
    assert_eq!(src2.rev.as_deref(), Some("9f12"));
}

#[test]
fn round_trips_through_render() {
    for s in [
        "wiki:Architecture.md#authentication",
        "src/router.rs#L40-58",
        "src/main.rs",
    ] {
        let (src, loc) = parse_source(s, None).unwrap();
        let rendered = render_source(&src, &loc);
        let (src2, loc2) = parse_source(&rendered, None).unwrap();
        assert_eq!((src, loc), (src2, loc2), "round trip failed for {s}");
    }
}

#[test]
fn an_empty_locator_and_a_bad_line_range_are_refused() {
    match parse_source("   ", None) {
        Err(Error::Config(text)) => assert_eq!(text, "empty source locator"),
        other => panic!("{other:?}"),
    }
    for input in ["src/a.rs#L4-x", "src/a.rs#L0-3", "src/a.rs#L5-4", "src/a.rs#L4-"] {
        match parse_source(input, None) {
            Err(Error::Config(text)) => {
                assert_eq!(text, format!("bad line range: {}", &input["src/a.rs#".len()..]))
            }
            other => panic!("{input}: {other:?}"),
        }
    }
    // A fragment that starts with no number is a heading.
    for input in ["src/a.rs#L", "src/a.rs#Lx"] {
        let (_, locator) = parse_source(input, None).unwrap();
        assert!(matches!(locator, Locator::Heading { .. }), "{input}");
    }
}

fn caps() -> Capabilities {
    Capabilities { net: vec![], read: vec![], env: vec![] }
}

fn bound(source: GroundSource) -> GroundBinding {
    GroundBinding { source, locator: Locator::Whole, predicate: Predicate::Exists, last: None }
}

#[test]
fn grounds_are_shown_by_their_source() {
    let command = bound(GroundSource::Command(CommandSource {
        argv: vec!["git".into(), "log".into()],
        root: SourceRoot::Project,
    }));
    assert_eq!(render_ground(&command), "$ git log");
    let generator = bound(GroundSource::Generator(GeneratorRef {
        hash: GeneratorHash("abcdef0123".into()),
        caps: caps(),
        cost_estimate: Real { bits: 1.0f64.to_bits() },
        src_path: "verifiers/x.ts".into(),
        name: "owner.ts".into(),
    }));
    assert_eq!(render_ground(&generator), "gen owner.ts@abcdef");
    let handler = bound(GroundSource::Handler(HandlerSource {
        handler: HandlerRef {
            hash: GeneratorHash("abcdef0123".into()),
            caps: caps(),
            cost_estimate: Real { bits: 1.0f64.to_bits() },
            src_path: "verifiers/jira.ts".into(),
            scheme: "jira".into(),
        },
        reference: "PROJ-1".into(),
        rev: None,
    }));
    assert_eq!(render_ground(&handler), "jira:PROJ-1");
}

#[test]
fn what_is_read_reads_back() {
    let back = |s: &str| {
        let (src, loc) = parse_source(s, None).unwrap();
        let again = parse_source(&render_source(&src, &loc), None).unwrap();
        (src, loc) == again
    };
    for s in [
        "@9f12",
        "wiki: @ 9f12",
        "a@b/c",
        "a@b@c",
        "a@",
        "a#h@",
        "project:a",
        "project:/a",
        "https://x.y/z",
        "store:",
        "#L007",
        "a#L1-+2",
        "src/a.rs#ts:(fn)",
        "a?q= \"\"b@c/d\" ",
        "a?q=b@9f12",
        "wiki:a b#c d ",
    ] {
        assert!(back(s), "{s}");
    }
    for s in ["project:a:b", "project: a", "a?q=b@"] {
        let (src, loc) = parse_source(s, None).unwrap();
        let again = parse_source(&render_source(&src, &loc), None).unwrap();
        assert_ne!((src, loc), again, "{s}");
    }
}
