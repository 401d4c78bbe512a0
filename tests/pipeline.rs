use chroma_code::config::CliArgs;
use chroma_code::emit::generate_latex_verbatim;
use chroma_code::extract::{
    color_from_match, drop_first_line, extract_highlighted_pieces, run_from_node, runs_from_lines,
    normalize_color, nearest_style, text_nodes_of, Ancestor, DecodingError, DomNode, Locator,
    HighlightedText, TextNode,
};
use chroma_code::header::{header_from_captures, parse_header};

fn conf() -> CliArgs {
    CliArgs {
        input: None,
        output: None,
        escape_start: String::from("<@"),
        escape_end: String::from("@>"),
        tab_size: 4,
        raw: true,
        force: false,
        trust: false,
        verbose: false,
        dump: false,
        german: false,
        caption: String::from("Code"),
        label: String::from("lst:code"),
        swap_ext: false,
        header_comment_types: String::from("#,//"),
        default_color: String::from("000000"),
        skip_first_line: false,
    }
}

fn run(text: &str, color: &str, bold: bool, underline: bool, italic: bool) -> HighlightedText {
    HighlightedText {
        text: String::from(text),
        hex_color: String::from(color),
        bold,
        underline,
        italic,
    }
}

const TWO_LINES: &str = "<html><body><table>\
<tr><td class=line-number>1</td><td class=line><span style='color: #5c6773;font-style: italic'>// hi</span>\n</td></tr>\
<tr><td class=line-number>2</td><td class=line><span style='font-weight: bold;color: #ff0000'>fn</span> main\n</td></tr>\
</table></body></html>";

#[test]
fn extracts_runs_in_document_order() {
    let runs = extract_highlighted_pieces(TWO_LINES.as_bytes().to_vec(), &conf()).unwrap();
    let texts: Vec<&str> = runs.iter().map(|r| r.text.as_str()).collect();
    assert_eq!(texts, vec!["// hi", "\n", "fn", " main\n"]);
    assert_eq!(runs[0].hex_color, "5C6773");
    assert!(runs[0].italic && !runs[0].bold && !runs[0].underline);
    assert_eq!(runs[1].hex_color, "000000");
    assert!(!runs[1].italic && !runs[1].bold && !runs[1].underline);
    assert_eq!(runs[2].hex_color, "FF0000");
    assert!(runs[2].bold && !runs[2].italic);
    assert_eq!(runs[3].hex_color, "000000");
}

#[test]
fn concatenation_keeps_visible_text() {
    let runs = extract_highlighted_pieces(TWO_LINES.as_bytes().to_vec(), &conf()).unwrap();
    let all: String = runs.iter().map(|r| r.text.as_str()).collect();
    assert_eq!(all, "// hi\nfn main\n");
}

#[test]
fn colors_are_normalized() {
    let runs = extract_highlighted_pieces(TWO_LINES.as_bytes().to_vec(), &conf()).unwrap();
    for r in &runs {
        assert_eq!(r.hex_color.len(), 6);
        assert!(r.hex_color.chars().all(|c| c.is_ascii_digit() || ('A'..='F').contains(&c)));
    }
}

#[test]
fn skip_first_line_drops_line_one() {
    let mut c = conf();
    c.skip_first_line = true;
    let runs = extract_highlighted_pieces(TWO_LINES.as_bytes().to_vec(), &c).unwrap();
    let texts: Vec<&str> = runs.iter().map(|r| r.text.as_str()).collect();
    assert_eq!(texts, vec!["fn", " main\n"]);
}

#[test]
fn configured_default_color_is_used() {
    let mut c = conf();
    c.default_color = String::from("123ABC");
    let runs = extract_highlighted_pieces(TWO_LINES.as_bytes().to_vec(), &c).unwrap();
    assert_eq!(runs[1].hex_color, "123ABC");
}

#[test]
fn invalid_utf8_is_a_decoding_error() {
    let r = extract_highlighted_pieces(vec![0x66, 0xff, 0xfe], &conf());
    assert_eq!(r.err(), Some(DecodingError));
}

#[test]
fn unmatched_document_gives_no_runs() {
    let runs = extract_highlighted_pieces(b"<p>plain</p>".to_vec(), &conf()).unwrap();
    assert!(runs.is_empty());
}

#[test]
fn node_without_style_gets_defaults() {
    let node = TextNode { text: String::from("x y"), style: None };
    let r = run_from_node(&node, &String::from("00FF00"));
    assert_eq!(r.text, "x y");
    assert_eq!(r.hex_color, "00FF00");
    assert!(!r.bold && !r.underline && !r.italic);
}

#[test]
fn node_style_keywords_and_color() {
    let node = TextNode {
        text: String::from("k"),
        style: Some(String::from("color: #a1b2c3; text-decoration: underline; font-weight: bold")),
    };
    let r = run_from_node(&node, &String::from("000000"));
    assert_eq!(r.hex_color, "A1B2C3");
    assert!(r.bold && r.underline && !r.italic);
}

#[test]
fn malformed_style_falls_back_to_default_color() {
    let node = TextNode { text: String::from("k"), style: Some(String::from("color: red")) };
    let r = run_from_node(&node, &String::from("000000"));
    assert_eq!(r.hex_color, "000000");
}

#[test]
fn color_from_match_uppercases() {
    let d = String::from("000000");
    assert_eq!(color_from_match(&Some(String::from("#ff00aa")), &d), "FF00AA");
    assert_eq!(color_from_match(&None, &d), "000000");
    assert_eq!(color_from_match(&Some(String::from("#ff00ag")), &d), "000000");
    assert_eq!(color_from_match(&Some(String::from("ff00aa")), &d), "000000");
}

#[test]
fn runs_from_lines_skips_first() {
    let lines = vec![
        vec![TextNode { text: String::from("a"), style: None }],
        vec![TextNode { text: String::from("b"), style: None }],
    ];
    let d = String::from("000000");
    assert_eq!(runs_from_lines(&lines, false, &d).len(), 2);
    let kept = runs_from_lines(&lines, true, &d);
    assert_eq!(kept.len(), 1);
    assert_eq!(kept[0].text, "b");
}

#[test]
fn escape_window_passes_through() {
    let out = generate_latex_verbatim(vec![run("a <@ \\cmd{x} @> b", "000000", false, false, false)], &conf());
    assert_eq!(
        out,
        "\\textcolor[HTML]{000000}{a}  \\cmd{x}  \\textcolor[HTML]{000000}{b}"
    );
}

#[test]
fn unterminated_escape_marker_is_literal() {
    let out = generate_latex_verbatim(vec![run("a <@ b", "000000", false, false, false)], &conf());
    assert_eq!(
        out,
        "\\textcolor[HTML]{000000}{a} \\textcolor[HTML]{000000}{<@} \\textcolor[HTML]{000000}{b}"
    );
}

#[test]
fn tab_expands_to_spaces() {
    let mut c = conf();
    c.tab_size = 2;
    let out = generate_latex_verbatim(vec![run("\tx", "000000", false, false, false)], &c);
    assert_eq!(out, "  \\textcolor[HTML]{000000}{x}");
}

#[test]
fn special_characters_are_escaped() {
    let out = generate_latex_verbatim(
        vec![run("\\{}%#_&^~\"", "000000", false, false, false)],
        &conf(),
    );
    assert_eq!(
        out,
        "\\textcolor[HTML]{000000}{\\textbackslash{}\\{\\}\\%\\#\\_\\&\\textasciicircum{}\\textasciitilde{}\"}"
    );
}

#[test]
fn german_escapes_double_quote() {
    let mut c = conf();
    c.german = true;
    let out = generate_latex_verbatim(vec![run("\"q\"", "000000", false, false, false)], &c);
    assert_eq!(out, "\\textcolor[HTML]{000000}{\\dq{}q\\dq{}}");
}

#[test]
fn raw_mode_has_no_environment() {
    let runs = || vec![run("x", "000000", false, false, false), run("\n", "000000", false, false, false)];
    let raw = generate_latex_verbatim(runs(), &conf());
    let mut c = conf();
    c.raw = false;
    let wrapped = generate_latex_verbatim(runs(), &c);
    assert_eq!(raw, "\\textcolor[HTML]{000000}{x}\n");
    assert_eq!(
        wrapped,
        format!("\\begin{{chromacode}}{{Code}}{{lst:code}}\n{}\\end{{chromacode}}\n", raw)
    );
    assert!(!raw.contains("\\begin{chromacode}"));
    assert!(!raw.contains("\\end{chromacode}"));
}

#[test]
fn style_markers_nest_in_fixed_order() {
    let out1 = generate_latex_verbatim(vec![run("x", "FF0000", true, true, false)], &conf());
    let out2 = generate_latex_verbatim(vec![run("y", "FF0000", true, true, false)], &conf());
    assert_eq!(out1, "\\textcolor[HTML]{FF0000}{\\textbf{\\underline{x}}}");
    assert_eq!(out2, "\\textcolor[HTML]{FF0000}{\\textbf{\\underline{y}}}");
    let all = generate_latex_verbatim(vec![run("z", "0A0B0C", true, true, true)], &conf());
    assert_eq!(all, "\\textcolor[HTML]{0A0B0C}{\\textbf{\\textit{\\underline{z}}}}");
}

#[test]
fn words_are_styled_separately() {
    let out = generate_latex_verbatim(vec![run("ab  cd\n", "00FF00", false, false, true)], &conf());
    assert_eq!(
        out,
        "\\textcolor[HTML]{00FF00}{\\textit{ab}}  \\textcolor[HTML]{00FF00}{\\textit{cd}}\n"
    );
}

#[test]
fn empty_runs_give_empty_raw_output() {
    assert_eq!(generate_latex_verbatim(vec![], &conf()), "");
}

#[test]
fn header_with_caption_and_label() {
    let h = parse_header(
        "# chroma_code: caption: My Caption label: my-label\nfn main() {}\n",
        &["#", "//"],
    )
    .unwrap();
    assert_eq!(h.caption.as_deref(), Some("My Caption"));
    assert_eq!(h.label.as_deref(), Some("my-label"));
}

#[test]
fn header_with_label_only_under_second_prefix() {
    let h = parse_header("//   chroma_code: label: lst:x\r\nint x;", &["#", "//"]).unwrap();
    assert_eq!(h.caption, None);
    assert_eq!(h.label.as_deref(), Some("lst:x"));
}

#[test]
fn no_header_gives_none() {
    assert!(parse_header("fn main() {}\n", &["#", "//"]).is_none());
    assert!(parse_header("# chroma_code:\n", &["#", "//"]).is_none());
    assert!(parse_header("", &["#", "//"]).is_none());
    assert!(parse_header("// plain comment", &["#", "//"]).is_none());
}

#[test]
fn header_from_captures_trims() {
    let h = header_from_captures(Some(String::from("  A B ")), None).unwrap();
    assert_eq!(h.caption.as_deref(), Some("A B"));
    assert_eq!(h.label, None);
    assert!(header_from_captures(None, None).is_none());
}

const PRE_CODE: &str = "<html><body><pre><code><span style=\"color: #ff0000\">a</span> x\n\
<span style=\"font-weight: bold\">b</span>\n</code></pre></body></html>";

#[test]
fn pre_code_spans_are_extracted() {
    let runs = extract_highlighted_pieces(PRE_CODE.as_bytes().to_vec(), &conf()).unwrap();
    let texts: Vec<&str> = runs.iter().map(|r| r.text.as_str()).collect();
    assert_eq!(texts, vec!["a", " x\n", "b", "\n"]);
    assert_eq!(runs[0].hex_color, "FF0000");
    assert!(!runs[0].bold);
    assert_eq!(runs[2].hex_color, "000000");
    assert!(runs[2].bold);
}

#[test]
fn pre_code_skip_first_line() {
    let mut c = conf();
    c.skip_first_line = true;
    let runs = extract_highlighted_pieces(PRE_CODE.as_bytes().to_vec(), &c).unwrap();
    let texts: Vec<&str> = runs.iter().map(|r| r.text.as_str()).collect();
    assert_eq!(texts, vec!["b", "\n"]);
}

#[test]
fn drop_first_line_cuts_inside_a_node() {
    let nodes = vec![
        TextNode { text: String::from("ab"), style: None },
        TextNode { text: String::from("c\nd"), style: Some(String::from("color: #111111")) },
        TextNode { text: String::from("e"), style: None },
    ];
    let r = drop_first_line(&nodes);
    assert_eq!(r.len(), 2);
    assert_eq!(r[0].text, "d");
    assert_eq!(r[0].style.as_deref(), Some("color: #111111"));
    assert_eq!(r[1].text, "e");
    let none = vec![TextNode { text: String::from("no newline"), style: None }];
    assert!(drop_first_line(&none).is_empty());
}

#[test]
fn locator_selectors() {
    assert_eq!(Locator::LineTable.selector(), "td.line");
    assert_eq!(Locator::PreCode.selector(), "pre code");
}

#[test]
fn lower_case_default_color_is_upper_cased() {
    let mut c = conf();
    c.default_color = String::from("abcdef");
    let runs = extract_highlighted_pieces(TWO_LINES.as_bytes().to_vec(), &c).unwrap();
    assert_eq!(runs[1].hex_color, "ABCDEF");
    let node = TextNode { text: String::from("x"), style: None };
    assert_eq!(run_from_node(&node, &String::from("1a2b3c")).hex_color, "1A2B3C");
    let plain = TextNode { text: String::from("x"), style: Some(String::from("font-weight: bold")) };
    assert_eq!(run_from_node(&plain, &String::from("1a2b3c")).hex_color, "1A2B3C");
    assert_eq!(color_from_match(&None, &String::from("00ff00")), "00FF00");
}

#[test]
fn normalize_color_checks_and_upper_cases() {
    assert_eq!(normalize_color(&String::from("a1b2c3")), Some(String::from("A1B2C3")));
    assert_eq!(normalize_color(&String::from("000000")), Some(String::from("000000")));
    assert_eq!(normalize_color(&String::from("red")), None);
    assert_eq!(normalize_color(&String::from("#a1b2c3")), None);
    assert_eq!(normalize_color(&String::from("a1b2cg")), None);
}

#[test]
fn nearest_styled_ancestor_gives_the_style() {
    let html = "<table><tr><td class=line><span style='color:#ff0000'><b>x</b></span>\n</td></tr></table>";
    let runs = extract_highlighted_pieces(html.as_bytes().to_vec(), &conf()).unwrap();
    let texts: Vec<&str> = runs.iter().map(|r| r.text.as_str()).collect();
    assert_eq!(texts, vec!["x", "\n"]);
    assert_eq!(runs[0].hex_color, "FF0000");
    assert_eq!(runs[1].hex_color, "000000");
}

#[test]
fn styles_outside_the_match_are_not_used() {
    let html = "<div style='color: #00ff00'><pre><code>y\n</code></pre></div>";
    let runs = extract_highlighted_pieces(html.as_bytes().to_vec(), &conf()).unwrap();
    assert_eq!(runs.len(), 1);
    assert_eq!(runs[0].text, "y\n");
    assert_eq!(runs[0].hex_color, "000000");
}

#[test]
fn text_nodes_of_filters_and_finds_styles() {
    let block = vec![
        DomNode { text: None, ancestors: vec![Ancestor::Element(None), Ancestor::Other] },
        DomNode {
            text: None,
            ancestors: vec![Ancestor::Element(None), Ancestor::Element(None), Ancestor::Other],
        },
        DomNode {
            text: Some(String::from("t")),
            ancestors: vec![
                Ancestor::Element(None),
                Ancestor::Element(Some(String::from("color: #123456"))),
                Ancestor::Element(None),
                Ancestor::Other,
            ],
        },
        DomNode {
            text: Some(String::from("u")),
            ancestors: vec![Ancestor::Element(None), Ancestor::Element(Some(String::from("outside"))), Ancestor::Other],
        },
    ];
    let nodes = text_nodes_of(&block);
    assert_eq!(nodes.len(), 2);
    assert_eq!(nodes[0].text, "t");
    assert_eq!(nodes[0].style.as_deref(), Some("color: #123456"));
    assert_eq!(nodes[1].text, "u");
    assert_eq!(nodes[1].style, None);
    let anc = vec![Ancestor::Element(None), Ancestor::Element(Some(String::from("s")))];
    assert_eq!(nearest_style(&anc, 2).as_deref(), Some("s"));
    assert_eq!(nearest_style(&anc, 1), None);
}
