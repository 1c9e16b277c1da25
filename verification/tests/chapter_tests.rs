use mdbook_ra::facts::SegmentFacts;
use mdbook_ra::facts::SpanFact;
use mdbook_ra::footer::chapter_footer;
use mdbook_ra::footer::encode_payload_exec;
use mdbook_ra::interner::HoverStore;
use mdbook_ra::render::Nop;
use mdbook_ra::render::analysis_input;
use mdbook_ra::render::render_code_segment;
use mdbook_ra::render::segment_enabled;
use mdbook_ra::segment::FlagMode;
use mdbook_ra::segment::RenderError;
use mdbook_ra::segment::extract_codes;
use mdbook_ra::segment::parse_flags;
use mdbook_ra::segment::resolve;
use mdbook_ra::segment::run_on_codes;
use mdbook_ra::segment::split_flag_line;
use mdbook_ra::segment::wrap_main;

const STYLE: &str = "\n\n\n<style>\n    .inlay-hint, .inlay-hint * {\n        background-color: #444;\n        color: #999;\n        border-radius: .4em;\n    }\n    .inlay-hint {\n        font-size: 0.8em;\n        user-select: none;\n    }\n    .hover-holder {\n        max-height: 40vh;\n        overflow: auto;\n    }\n</style>\n";

fn no_facts() -> SegmentFacts {
    SegmentFacts { spans: Vec::new(), inlays: Vec::new() }
}

#[test]
fn flag_parsing() {
    assert_eq!(parse_flags("rust,ra_disabled"), FlagMode::Disabled);
    assert_eq!(parse_flags(",ra_enabled"), FlagMode::Enabled);
    assert_eq!(parse_flags(""), FlagMode::Inherit);
    assert_eq!(parse_flags(",ra_disabled,ra_enabled"), FlagMode::Disabled);
}

#[test]
fn flag_resolution() {
    assert!(resolve(FlagMode::Enabled, true));
    assert!(resolve(FlagMode::Enabled, false));
    assert!(!resolve(FlagMode::Disabled, true));
    assert!(!resolve(FlagMode::Disabled, false));
    assert!(resolve(FlagMode::Inherit, false));
    assert!(!resolve(FlagMode::Inherit, true));
}

#[test]
fn flag_line_splitting() {
    let parts = split_flag_line("flags\ncode\nmore").unwrap();
    assert_eq!(parts.0, "flags");
    assert_eq!(parts.1, "code\nmore");
    assert!(split_flag_line("no newline").is_none());
}

#[test]
fn main_wrapping() {
    assert_eq!(
        wrap_main("let x = 1;\n"),
        "# #![allow(unused)]\n# fn main() {\nlet x = 1;\n# }"
    );
    assert_eq!(wrap_main("fn main() {}\n"), "fn main() {}\n");
}

#[test]
fn disabled_segment_round_trips() {
    let original = ",ra_disabled\nlet x = 1;\n";
    let mut store = HoverStore::default();
    let out = render_code_segment(original, &no_facts(), false, &mut store).unwrap();
    assert_eq!(out, original);
    assert_eq!(store.to_vec().len(), 0);
}

#[test]
fn default_disabled_segment_round_trips() {
    let original = "\nlet x = 1;\n";
    let mut store = HoverStore::default();
    let out = render_code_segment(original, &no_facts(), true, &mut store).unwrap();
    assert_eq!(out, original);
}

#[test]
fn enabled_flag_overrides_default() {
    let original = ",ra_enabled\nfn main() {}\n";
    let mut store = HoverStore::default();
    let out = render_code_segment(original, &no_facts(), true, &mut store).unwrap();
    assert_eq!(out, "fn main() {}\n");
}

#[test]
fn segment_without_flag_line_is_rejected() {
    let mut store = HoverStore::default();
    let r = render_code_segment("no newline", &no_facts(), false, &mut store);
    assert_eq!(r, Err(RenderError::MissingFlagLine));
    assert_eq!(segment_enabled("no newline", false), Err(RenderError::MissingFlagLine));
    assert_eq!(analysis_input("no newline"), Err(RenderError::MissingFlagLine));
}

#[test]
fn analysis_input_is_wrapped_visible_text() {
    assert_eq!(
        analysis_input("\nvisible\n").unwrap(),
        "#![allow(unused)]\nfn main() {\nvisible\n}\n"
    );
    assert_eq!(
        analysis_input("\nfn main() { body }\n").unwrap(),
        "fn main() { body }\n"
    );
}

#[test]
fn segment_enabled_reads_flags() {
    assert_eq!(segment_enabled(",ra_disabled\nx\n", false), Ok(false));
    assert_eq!(segment_enabled(",ra_enabled\nx\n", true), Ok(true));
    assert_eq!(segment_enabled("\nx\n", true), Ok(false));
    assert_eq!(segment_enabled("\nx\n", false), Ok(true));
}

#[test]
fn rendered_segment_anchors_span_through_wrapper() {
    let original = "\nvisible\n";
    let mut store = HoverStore::default();
    let facts = SegmentFacts {
        spans: vec![SpanFact { start: 30, end: 37, hover: Some(String::from("V")) }],
        inlays: Vec::new(),
    };
    let out = render_code_segment(original, &facts, false, &mut store).unwrap();
    assert_eq!(
        out,
        "<span class=\"boring\">#![allow(unused)]\n</span><span class=\"boring\">fn main() {\n</span><span class=\"ra\" data-hover=\"0\">visible</span>\n<span class=\"boring\">}\n</span>"
    );
    assert_eq!(store.to_vec(), vec![String::from("V")]);
}

#[test]
fn code_extraction() {
    let text = "intro\n```rust\nflag\ncode\n```\ntail";
    let codes = extract_codes(text).unwrap();
    assert_eq!(codes, vec![String::from("\nflag\ncode\n")]);
}

#[test]
fn code_extraction_reports_open_fence() {
    assert_eq!(extract_codes("x```rusty"), Err(RenderError::MissingFenceEnd));
}

#[test]
fn chapter_reassembly() {
    let text = "intro\n```rust\nflag\ncode\n```\ntail";
    let rendered = vec![String::from("R")];
    let out = run_on_codes(text, &rendered).unwrap();
    let expected = format!(
        "{}intro\n<pre><code class=\"language-rust hljs\">R</code></pre>\ntail",
        STYLE
    );
    assert_eq!(out, expected);
}

#[test]
fn chapter_without_code_is_prose_only() {
    let text = "just prose";
    let rendered: Vec<String> = Vec::new();
    let out = run_on_codes(text, &rendered).unwrap();
    assert_eq!(out, format!("{}just prose", STYLE));
}

#[test]
fn chapter_reassembly_reports_open_fence() {
    let rendered = vec![String::from("R")];
    assert_eq!(run_on_codes("x```rusty", &rendered), Err(RenderError::MissingFenceEnd));
}

#[test]
fn payload_encoding() {
    assert_eq!(encode_payload_exec("a'b\nc<d\\e"), "a\\'b\\nc\\x3Cd\\\\e");
    assert_eq!(encode_payload_exec("plain"), "plain");
    assert_eq!(encode_payload_exec(""), "");
}

#[test]
fn footer_embeds_payloads() {
    let payloads = vec![String::from("a'b\nc<d\\e")];
    assert_eq!(
        chapter_footer(&payloads, ""),
        "\n\n<script>\nconst hoverData = ['a\\'b\\nc\\x3Cd\\\\e',];\n</script>\n"
    );
    let empty = vec![String::new()];
    assert_eq!(chapter_footer(&empty, ""), "\n\n<script>\nconst hoverData = ['',];\n</script>\n");
}

#[test]
fn full_chapter_pipeline() {
    let text = "A\n```rust\nfn main() { let x = 1; }\n```\nB\n```rust,ra_disabled\nraw < code\n```\nC";
    let codes = extract_codes(text).unwrap();
    assert_eq!(codes.len(), 2);
    let all_facts = vec![
        SegmentFacts {
            spans: vec![SpanFact { start: 0, end: 2, hover: Some(String::from("H")) }],
            inlays: Vec::new(),
        },
        SegmentFacts { spans: Vec::new(), inlays: Vec::new() },
    ];
    let mut store = HoverStore::default();
    let mut rendered: Vec<String> = Vec::new();
    for (code, facts) in codes.iter().zip(all_facts.iter()) {
        rendered.push(render_code_segment(code, facts, false, &mut store).unwrap());
    }
    let mut out = run_on_codes(text, &rendered).unwrap();
    out.push_str(&chapter_footer(&store.to_vec(), ""));
    let expected = format!(
        "{}A\n<pre><code class=\"language-rust hljs\"><span class=\"ra\" data-hover=\"0\">fn</span> main() {{ let x = 1; }}\n</code></pre>\nB\n<pre><code class=\"language-rust hljs\">,ra_disabled\nraw < code\n</code></pre>\nC\n\n<script>\nconst hoverData = ['H',];\n</script>\n",
        STYLE
    );
    assert_eq!(out, expected);
}

#[test]
fn preprocessor_handle() {
    let nop = Nop::new();
    assert_eq!(nop.name(), "ra");
    assert!(nop.supports_renderer("html"));
    assert!(!nop.supports_renderer("not-supported"));
}
