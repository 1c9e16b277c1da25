use mdbook_ra::escape::escape_html;
use mdbook_ra::escape::escape_html_char;
use mdbook_ra::facts::InlayFact;
use mdbook_ra::facts::InlaySide;
use mdbook_ra::facts::SegmentFacts;
use mdbook_ra::facts::SpanFact;
use mdbook_ra::facts::build_insertions;
use mdbook_ra::filter::raw_code;
use mdbook_ra::filter::split_code_lines;
use mdbook_ra::interner::HoverStore;
use mdbook_ra::overlay::Insertion;
use mdbook_ra::overlay::annotate;
use mdbook_ra::text::contains_str;
use mdbook_ra::text::str_eq;
use mdbook_ra::text::usize_to_string;

#[test]
fn escape_char_entities() {
    assert_eq!(escape_html_char('<'), "&lt;");
    assert_eq!(escape_html_char('>'), "&gt;");
    assert_eq!(escape_html_char('&'), "&amp;");
    assert_eq!(escape_html_char('x'), "x");
    assert_eq!(escape_html_char('\n'), "\n");
}

#[test]
fn escape_whole_string() {
    assert_eq!(escape_html("a<b&c>d"), "a&lt;b&amp;c&gt;d");
}

#[test]
fn escape_identity_on_plain_text() {
    let plain = "fn id(x: u8) { let y = x; }";
    assert_eq!(escape_html(plain), plain);
}

#[test]
fn decimal_rendering() {
    assert_eq!(usize_to_string(0), "0");
    assert_eq!(usize_to_string(7), "7");
    assert_eq!(usize_to_string(42), "42");
    assert_eq!(usize_to_string(1234), "1234");
}

#[test]
fn string_search() {
    assert!(contains_str("hello", "ell"));
    assert!(!contains_str("hello", "z"));
    assert!(contains_str("abc", "abc"));
    assert!(!contains_str("ab", "abc"));
    assert!(str_eq("same", "same"));
    assert!(!str_eq("same", "sane"));
    assert!(!str_eq("same", "sam"));
}

#[test]
fn raw_code_strips_hidden_lines() {
    assert_eq!(raw_code("# hidden\nvisible\n"), "hidden\nvisible\n");
    assert_eq!(raw_code(""), "");
    assert_eq!(raw_code("x"), "x\n");
    assert_eq!(raw_code("#\ny"), "\ny\n");
    assert_eq!(raw_code("#not hidden"), "#not hidden\n");
}

#[test]
fn interner_determinism() {
    let mut store = HoverStore::default();
    let a1 = store.get_id(String::from("alpha"));
    let b1 = store.get_id(String::from("beta"));
    let a2 = store.get_id(String::from("alpha"));
    let b2 = store.get_id(String::from("beta"));
    assert_eq!(a1, 0);
    assert_eq!(b1, 1);
    assert_eq!(a1, a2);
    assert_eq!(b1, b2);
    let list = store.to_vec();
    assert_eq!(list, vec![String::from("alpha"), String::from("beta")]);
}

#[test]
fn interner_empty_payload_is_distinct() {
    let mut store = HoverStore::default();
    let e = store.get_id(String::new());
    let x = store.get_id(String::from("x"));
    let e2 = store.get_id(String::new());
    assert_eq!(e, 0);
    assert_eq!(x, 1);
    assert_eq!(e, e2);
}

#[test]
fn annotate_without_insertions_keeps_text() {
    let lines = split_code_lines("hello world");
    let ins: Vec<Insertion> = Vec::new();
    assert_eq!(annotate(&lines, &ins), "hello world\n");
}

#[test]
fn same_offset_ordering() {
    let lines = split_code_lines("ab");
    let mut store = HoverStore::default();
    let facts = SegmentFacts {
        spans: vec![
            SpanFact { start: 0, end: 1, hover: Some(String::from("X")) },
            SpanFact { start: 1, end: 2, hover: Some(String::from("Y")) },
        ],
        inlays: Vec::new(),
    };
    let ins = build_insertions(&facts, &mut store);
    let out = annotate(&lines, &ins);
    assert_eq!(
        out,
        "<span class=\"ra\" data-hover=\"0\">a</span><span class=\"ra\" data-hover=\"1\">b</span>\n"
    );
}

#[test]
fn hidden_line_offsets_are_preserved() {
    let lines = split_code_lines("# hidden\nvisible\n");
    let mut store = HoverStore::default();
    let facts = SegmentFacts {
        spans: vec![SpanFact { start: 7, end: 14, hover: Some(String::from("V")) }],
        inlays: Vec::new(),
    };
    let ins = build_insertions(&facts, &mut store);
    let out = annotate(&lines, &ins);
    assert_eq!(
        out,
        "<span class=\"boring\">hidden\n</span><span class=\"ra\" data-hover=\"0\">visible</span>\n"
    );
}

#[test]
fn spans_share_hover_ids() {
    let lines = split_code_lines("aa");
    let mut store = HoverStore::default();
    let facts = SegmentFacts {
        spans: vec![
            SpanFact { start: 0, end: 1, hover: Some(String::from("same")) },
            SpanFact { start: 1, end: 2, hover: Some(String::from("same")) },
        ],
        inlays: Vec::new(),
    };
    let ins = build_insertions(&facts, &mut store);
    let out = annotate(&lines, &ins);
    assert_eq!(
        out,
        "<span class=\"ra\" data-hover=\"0\">a</span><span class=\"ra\" data-hover=\"0\">a</span>\n"
    );
    assert_eq!(store.to_vec(), vec![String::from("same")]);
}

#[test]
fn spans_without_payload_are_dropped() {
    let lines = split_code_lines("w");
    let mut store = HoverStore::default();
    let facts = SegmentFacts {
        spans: vec![
            SpanFact { start: 0, end: 1, hover: None },
            SpanFact { start: 0, end: 1, hover: Some(String::new()) },
        ],
        inlays: Vec::new(),
    };
    let ins = build_insertions(&facts, &mut store);
    assert_eq!(ins.len(), 0);
    assert_eq!(annotate(&lines, &ins), "w\n");
    assert_eq!(store.to_vec().len(), 0);
}

#[test]
fn inlay_after_is_trailing_label() {
    let lines = split_code_lines("x");
    let mut store = HoverStore::default();
    let facts = SegmentFacts {
        spans: Vec::new(),
        inlays: vec![InlayFact {
            start: 0,
            end: 1,
            side: InlaySide::After,
            label: String::from("i32"),
        }],
    };
    let ins = build_insertions(&facts, &mut store);
    let out = annotate(&lines, &ins);
    assert_eq!(out, "x<span class=\"inlay-hint\">: i32</span>\n");
}

#[test]
fn inlay_before_is_leading_label() {
    let lines = split_code_lines("x");
    let mut store = HoverStore::default();
    let facts = SegmentFacts {
        spans: Vec::new(),
        inlays: vec![InlayFact {
            start: 0,
            end: 1,
            side: InlaySide::Before,
            label: String::from("nm"),
        }],
    };
    let ins = build_insertions(&facts, &mut store);
    let out = annotate(&lines, &ins);
    assert_eq!(out, "<span class=\"inlay-hint\">nm: </span>x\n");
}

#[test]
fn inlay_labels_are_escaped() {
    let lines = split_code_lines("x");
    let mut store = HoverStore::default();
    let facts = SegmentFacts {
        spans: Vec::new(),
        inlays: vec![InlayFact {
            start: 0,
            end: 1,
            side: InlaySide::After,
            label: String::from("Vec<u8>"),
        }],
    };
    let ins = build_insertions(&facts, &mut store);
    let out = annotate(&lines, &ins);
    assert_eq!(out, "x<span class=\"inlay-hint\">: Vec&lt;u8&gt;</span>\n");
}

#[test]
fn out_of_range_insertion_is_dropped() {
    let lines = split_code_lines("a");
    let ins = vec![Insertion { offset: 5, fragment: String::from("<b>") }];
    assert_eq!(annotate(&lines, &ins), "a\n");
}

#[test]
fn boring_lines_carry_no_insertions() {
    let lines = split_code_lines("# h\nx\n");
    let ins = vec![Insertion { offset: 0, fragment: String::from("<b>") }];
    let out = annotate(&lines, &ins);
    assert_eq!(out, "<span class=\"boring\">h\n</span>x\n");
}

#[test]
fn code_characters_are_escaped_in_output() {
    let lines = split_code_lines("a<b\n");
    let ins: Vec<Insertion> = Vec::new();
    assert_eq!(annotate(&lines, &ins), "a&lt;b\n");
}

#[test]
fn boring_lines_are_escaped_too() {
    let lines = split_code_lines("# a<b\n");
    let ins: Vec<Insertion> = Vec::new();
    assert_eq!(annotate(&lines, &ins), "<span class=\"boring\">a&lt;b\n</span>");
}
