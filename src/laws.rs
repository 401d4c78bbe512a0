use vstd::prelude::*;

use crate::emit::{
    EmitOpts, close_markup, emit_spec, env_close, env_open, escape_char, is_blank, open_markup,
    plain_body, plain_step, render_plain, render_runs,
};
use crate::extract::{
    RunView, color_spec, document_runs, is_color, is_hash_color, is_hex_color, is_hex_digit,
    lemma_upper_color,
    Locator, located_lines, locator_selector, node_run, runs_of_lines, selected_text_nodes,
};

verus! {

/// The text of the runs `rs`, one after the other.
pub open spec fn run_texts(rs: Seq<RunView>) -> Seq<char>
    decreases rs.len(),
{
    if rs.len() == 0 {
        Seq::empty()
    } else {
        run_texts(rs.drop_last()) + rs.last().text
    }
}

/// The text of the nodes `ns`, one after the other.
pub open spec fn node_texts(ns: Seq<(Seq<char>, Option<Seq<char>>)>) -> Seq<char>
    decreases ns.len(),
{
    if ns.len() == 0 {
        Seq::empty()
    } else {
        node_texts(ns.drop_last()) + ns.last().0
    }
}

/// The text of the lines `ls`, one after the other.
pub open spec fn line_texts(ls: Seq<Seq<(Seq<char>, Option<Seq<char>>)>>) -> Seq<char>
    decreases ls.len(),
{
    if ls.len() == 0 {
        Seq::empty()
    } else {
        line_texts(ls.drop_last()) + node_texts(ls.last())
    }
}

proof fn lemma_run_texts_append(a: Seq<RunView>, b: Seq<RunView>)
    ensures
        run_texts(a + b) == run_texts(a) + run_texts(b),
    decreases b.len(),
{
    if b.len() == 0 {
        assert(a + b =~= a);
        assert(run_texts(a) + run_texts(b) =~= run_texts(a));
    } else {
        assert((a + b).drop_last() =~= a + b.drop_last());
        lemma_run_texts_append(a, b.drop_last());
        assert(run_texts(a + b) =~= run_texts(a) + run_texts(b));
    }
}

proof fn lemma_node_runs_text(ns: Seq<(Seq<char>, Option<Seq<char>>)>, d: Seq<char>)
    ensures
        run_texts(ns.map_values(|n: (Seq<char>, Option<Seq<char>>)| node_run(n, d)))
            == node_texts(ns),
    decreases ns.len(),
{
    let f = |n: (Seq<char>, Option<Seq<char>>)| node_run(n, d);
    if ns.len() > 0 {
        lemma_node_runs_text(ns.drop_last(), d);
        assert(ns.map_values(f).drop_last() =~= ns.drop_last().map_values(f));
    } else {
        assert(ns.map_values(f) =~= Seq::<RunView>::empty());
    }
}

proof fn lemma_lines_text(ls: Seq<Seq<(Seq<char>, Option<Seq<char>>)>>, d: Seq<char>)
    ensures
        run_texts(runs_of_lines(ls, d)) == line_texts(ls),
    decreases ls.len(),
{
    if ls.len() > 0 {
        let f = |n: (Seq<char>, Option<Seq<char>>)| node_run(n, d);
        lemma_lines_text(ls.drop_last(), d);
        lemma_run_texts_append(runs_of_lines(ls.drop_last(), d), ls.last().map_values(f));
        lemma_node_runs_text(ls.last(), d);
    }
}

/// Concatenating the text of the extracted runs gives the text of the matched nodes, in the
/// order scraper yields them: nothing is left out, doubled or moved.
pub proof fn lemma_concatenation(html: Seq<char>, skip_first_line: bool, default_color: Seq<char>)
    ensures
        run_texts(document_runs(html, skip_first_line, default_color)) == line_texts(
            located_lines(html, skip_first_line),
        ),
{
    lemma_lines_text(located_lines(html, skip_first_line), default_color);
}

proof fn lemma_color_spec(m: Option<Seq<char>>, d: Seq<char>)
    requires
        is_hex_color(d),
    ensures
        is_color(color_spec(m, d)),
{
    lemma_upper_color(d);
    if let Some(s) = m {
        if is_hash_color(s) {
            assert forall|k: int| 0 <= k < 6 implies is_hex_digit(#[trigger] s.skip(1)[k]) by {
                assert(is_hex_digit(s[k + 1]));
            }
            lemma_upper_color(s.skip(1));
        }
    }
}

proof fn lemma_lines_colors(ls: Seq<Seq<(Seq<char>, Option<Seq<char>>)>>, d: Seq<char>)
    requires
        is_hex_color(d),
    ensures
        forall|k: int|
            0 <= k < runs_of_lines(ls, d).len() ==> is_color(#[trigger] runs_of_lines(ls, d)[k].hex_color),
    decreases ls.len(),
{
    if ls.len() > 0 {
        lemma_lines_colors(ls.drop_last(), d);
        let prev = runs_of_lines(ls.drop_last(), d);
        let last = ls.last().map_values(|n: (Seq<char>, Option<Seq<char>>)| node_run(n, d));
        assert forall|k: int| 0 <= k < last.len() implies is_color(#[trigger] last[k].hex_color) by {
            let n = ls.last()[k];
            lemma_upper_color(d);
            if let Some(st) = n.1 {
                lemma_color_spec(crate::extract::regex_find(crate::extract::color_pattern(), st), d);
            }
        }
        assert forall|k: int| 0 <= k < runs_of_lines(ls, d).len() implies is_color(
            #[trigger] runs_of_lines(ls, d)[k].hex_color,
        ) by {
            if k < prev.len() {
                assert(runs_of_lines(ls, d)[k] == prev[k]);
            } else {
                assert(runs_of_lines(ls, d)[k] == last[k - prev.len()]);
            }
        }
    }
}

/// With a default color of six hexadecimal digits in either case, every extracted run's
/// color is six upper-case hexadecimal digits.
pub proof fn lemma_colors_normalized(html: Seq<char>, skip_first_line: bool, default_color: Seq<char>)
    requires
        is_hex_color(default_color),
    ensures
        forall|k: int|
            0 <= k < document_runs(html, skip_first_line, default_color).len() ==> is_color(
                #[trigger] document_runs(html, skip_first_line, default_color)[k].hex_color,
            ),
{
    lemma_lines_colors(located_lines(html, skip_first_line), default_color);
}

proof fn lemma_runs_of_lines_append(
    a: Seq<Seq<(Seq<char>, Option<Seq<char>>)>>,
    b: Seq<Seq<(Seq<char>, Option<Seq<char>>)>>,
    d: Seq<char>,
)
    ensures
        runs_of_lines(a + b, d) == runs_of_lines(a, d) + runs_of_lines(b, d),
    decreases b.len(),
{
    if b.len() == 0 {
        assert(a + b =~= a);
        assert(runs_of_lines(a, d) + runs_of_lines(b, d) =~= runs_of_lines(a, d));
    } else {
        assert((a + b).drop_last() =~= a + b.drop_last());
        lemma_runs_of_lines_append(a, b.drop_last(), d);
        assert(runs_of_lines(a + b, d) =~= runs_of_lines(a, d) + runs_of_lines(b, d));
    }
}

/// Skipping the first line drops exactly the runs of the first line: what stays are the runs
/// of the later lines, and together with the first line's runs they make the full extraction.
pub proof fn lemma_skip_first_line(html: Seq<char>, default_color: Seq<char>)
    ensures
        match selected_text_nodes(html, locator_selector(Locator::LineTable)) {
            Some(ls) => ls.len() > 0 ==> document_runs(html, true, default_color) == runs_of_lines(
                ls.skip(1),
                default_color,
            ) && document_runs(html, false, default_color) == runs_of_lines(
                ls.take(1),
                default_color,
            ) + document_runs(html, true, default_color),
            None => true,
        },
{
    match selected_text_nodes(html, locator_selector(Locator::LineTable)) {
        Some(ls) => {
            if ls.len() > 0 {
                assert(ls.take(1) + ls.skip(1) =~= ls);
                lemma_runs_of_lines_append(ls.take(1), ls.skip(1), default_color);
            }
        },
        None => {},
    }
}

/// Raw output is the wrapped output without the environment's opening and closing: the same
/// runs give the same markup either way, and only the wrapped form carries the environment.
pub proof fn lemma_raw_mode(rs: Seq<RunView>, o: EmitOpts)
    ensures
        emit_spec(rs, EmitOpts { raw: true, ..o }) == render_runs(rs, EmitOpts { raw: true, ..o }),
        emit_spec(rs, EmitOpts { raw: false, ..o }) == env_open(o) + emit_spec(
            rs,
            EmitOpts { raw: true, ..o },
        ) + env_close(),
{
    lemma_render_runs_ignores_raw(rs, o);
}

proof fn lemma_render_runs_ignores_raw(rs: Seq<RunView>, o: EmitOpts)
    ensures
        render_runs(rs, EmitOpts { raw: true, ..o }) == render_runs(rs, EmitOpts { raw: false, ..o }),
        render_runs(rs, o) == render_runs(rs, EmitOpts { raw: true, ..o }),
        env_open(EmitOpts { raw: false, ..o }) == env_open(o),
{
    let t = EmitOpts { raw: true, ..o };
    let f = EmitOpts { raw: false, ..o };
    assert(o == t || o == f);
    lemma_render_runs_same(rs, t, f);
}

proof fn lemma_render_runs_same(rs: Seq<RunView>, a: EmitOpts, b: EmitOpts)
    requires
        a.escape_start == b.escape_start,
        a.escape_end == b.escape_end,
        a.tab_size == b.tab_size,
        a.german == b.german,
    ensures
        render_runs(rs, a) == render_runs(rs, b),
    decreases rs.len(),
{
    if rs.len() > 0 {
        lemma_render_runs_same(rs.drop_last(), a, b);
        lemma_render_text_same(rs.last().text, rs.last(), a, b);
    }
}

proof fn lemma_plain_same(s: Seq<char>, r: RunView, a: EmitOpts, b: EmitOpts)
    requires
        a.tab_size == b.tab_size,
        a.german == b.german,
    ensures
        plain_body(s, r, a) == plain_body(s, r, b),
    decreases s.len(),
{
    if s.len() > 0 {
        lemma_plain_same(s.drop_last(), r, a, b);
    }
}

proof fn lemma_render_text_same(s: Seq<char>, r: RunView, a: EmitOpts, b: EmitOpts)
    requires
        a.escape_start == b.escape_start,
        a.escape_end == b.escape_end,
        a.tab_size == b.tab_size,
        a.german == b.german,
    ensures
        crate::emit::render_text(s, r, a) == crate::emit::render_text(s, r, b),
    decreases s.len(),
{
    lemma_plain_same(s, r, a, b);
    if a.escape_start.len() > 0 {
        if let Some(p) = crate::text::find_spec(s, a.escape_start) {
            let rest = s.skip(p + a.escape_start.len());
            if let Some(q) = crate::text::find_spec(rest, a.escape_end) {
                lemma_plain_same(s.take(p), r, a, b);
                lemma_render_text_same(rest.skip(q + a.escape_end.len()), r, a, b);
            }
        }
    }
}

/// A word is written as the run's opening markup, the escaped word and the closing markup;
/// with bold and underline set, the opening is the color, then bold, then italic if set, then
/// underline, for every such run.
pub proof fn lemma_style_nesting(r: RunView, c: char, o: EmitOpts)
    requires
        !is_blank(c),
    ensures
        render_plain(seq![c], r, o) == open_markup(r) + escape_char(c, o.german) + close_markup(r),
        r.bold && r.underline ==> open_markup(r) == "\\textcolor[HTML]{"@ + r.hex_color + "}{"@
            + "\\textbf{"@ + (if r.italic {
            "\\textit{"@
        } else {
            Seq::empty()
        }) + "\\underline{"@,
        r.bold && r.underline ==> close_markup(r) == "}}"@ + (if r.italic {
            "}"@
        } else {
            Seq::empty()
        }) + "}"@,
{
    let s = seq![c];
    assert(s.drop_last() =~= Seq::<char>::empty());
    assert(plain_body(s, r, o) == plain_body(Seq::empty(), r, o) + plain_step(Seq::empty(), c, r, o));
    assert(plain_body(s, r, o) =~= open_markup(r) + escape_char(c, o.german));
    reveal(open_markup);
    reveal(close_markup);
    reveal_strlit("}}");
    reveal_strlit("}");
    if r.bold && r.underline {
        if r.italic {
            assert(close_markup(r) =~= "}}"@ + "}"@ + "}"@);
        } else {
            assert(close_markup(r) =~= "}}"@ + Seq::<char>::empty() + "}"@);
        }
    }
}

/// Every backslash in `s` is followed by a character, and that character is neither `b` nor
/// `e`: so `s` holds no `\begin` and no `\end`.
pub open spec fn no_begin_end(s: Seq<char>) -> bool {
    forall|i: int|
        0 <= i < s.len() && #[trigger] s[i] == '\\' ==> i + 1 < s.len() && s[i + 1] != 'b' && s[i
            + 1] != 'e'
}

/// The escape windows of `s` pass through only text without `\begin` or `\end`.
pub open spec fn windows_plain(s: Seq<char>, o: EmitOpts) -> bool
    decreases s.len(),
{
    if o.escape_start.len() == 0 {
        true
    } else {
        match crate::text::find_spec(s, o.escape_start) {
            None => true,
            Some(p) => {
                let rest = s.skip(p + o.escape_start.len());
                match crate::text::find_spec(rest, o.escape_end) {
                    None => true,
                    Some(q) => no_begin_end(crate::emit::expand_tabs(rest.take(q), o.tab_size))
                        && windows_plain(rest.skip(q + o.escape_end.len()), o),
                }
            },
        }
    }
}

proof fn lemma_concat(a: Seq<char>, b: Seq<char>)
    requires
        no_begin_end(a),
        no_begin_end(b),
    ensures
        no_begin_end(a + b),
{
    let s = a + b;
    assert forall|i: int| 0 <= i < s.len() && #[trigger] s[i] == '\\' implies i + 1 < s.len()
        && s[i + 1] != 'b' && s[i + 1] != 'e' by {
        if i < a.len() {
            assert(a[i] == '\\');
        } else {
            assert(b[i - a.len()] == '\\');
        }
    }
}

proof fn lemma_no_backslash(s: Seq<char>)
    requires
        forall|i: int| 0 <= i < s.len() ==> #[trigger] s[i] != '\\',
    ensures
        no_begin_end(s),
{
}

proof fn lemma_open_markup(r: RunView)
    requires
        is_color(r.hex_color),
    ensures
        no_begin_end(open_markup(r)),
{
    reveal(open_markup);
    reveal_strlit("\\textcolor[HTML]{");
    reveal_strlit("}{");
    reveal_strlit("\\textbf{");
    reveal_strlit("\\textit{");
    reveal_strlit("\\underline{");
    lemma_no_backslash(r.hex_color);
    lemma_no_backslash("}{"@);
    lemma_no_backslash(Seq::<char>::empty());
    let e = Seq::<char>::empty();
    let a = "\\textcolor[HTML]{"@;
    let b = if r.bold { "\\textbf{"@ } else { e };
    let c = if r.italic { "\\textit{"@ } else { e };
    let d = if r.underline { "\\underline{"@ } else { e };
    lemma_concat(a, r.hex_color);
    lemma_concat(a + r.hex_color, "}{"@);
    lemma_concat(a + r.hex_color + "}{"@, b);
    lemma_concat(a + r.hex_color + "}{"@ + b, c);
    lemma_concat(a + r.hex_color + "}{"@ + b + c, d);
}

proof fn lemma_close_markup(r: RunView)
    ensures
        no_begin_end(close_markup(r)),
{
    reveal(close_markup);
    reveal_strlit("}");
    let e = Seq::<char>::empty();
    let k = "}"@;
    lemma_no_backslash(k);
    lemma_no_backslash(e);
    let b = if r.bold { k } else { e };
    let c = if r.italic { k } else { e };
    let d = if r.underline { k } else { e };
    lemma_concat(k, b);
    lemma_concat(k + b, c);
    lemma_concat(k + b + c, d);
}

proof fn lemma_escape_char(c: char, german: bool)
    ensures
        no_begin_end(escape_char(c, german)),
{
    reveal(escape_char);
    reveal_strlit("\\textbackslash{}");
    reveal_strlit("\\{");
    reveal_strlit("\\}");
    reveal_strlit("\\%");
    reveal_strlit("\\#");
    reveal_strlit("\\_");
    reveal_strlit("\\&");
    reveal_strlit("\\textasciicircum{}");
    reveal_strlit("\\textasciitilde{}");
    reveal_strlit("\\dq{}");
    if !(c == '\\' || c == '{' || c == '}' || c == '%' || c == '#' || c == '_' || c == '&' || c
        == '^' || c == '~' || (c == '"' && german)) {
        lemma_no_backslash(seq![c]);
    }
}

proof fn lemma_blank_out(c: char, tab_size: nat)
    requires
        is_blank(c),
    ensures
        no_begin_end(crate::emit::blank_out(c, tab_size)),
{
    lemma_no_backslash(crate::emit::blank_out(c, tab_size));
}

proof fn lemma_plain_body(s: Seq<char>, r: RunView, o: EmitOpts)
    requires
        is_color(r.hex_color),
    ensures
        no_begin_end(plain_body(s, r, o)),
    decreases s.len(),
{
    if s.len() == 0 {
        lemma_no_backslash(Seq::<char>::empty());
    } else {
        let prev = s.drop_last();
        let c = s.last();
        lemma_plain_body(prev, r, o);
        lemma_no_backslash(Seq::<char>::empty());
        lemma_open_markup(r);
        lemma_close_markup(r);
        if is_blank(c) {
            lemma_blank_out(c, o.tab_size);
            let m = if crate::emit::ends_in_word(prev) { close_markup(r) } else { Seq::empty() };
            lemma_concat(m, crate::emit::blank_out(c, o.tab_size));
            lemma_concat(plain_body(prev, r, o), plain_step(prev, c, r, o));
        } else {
            lemma_escape_char(c, o.german);
            let m = if crate::emit::ends_in_word(prev) { Seq::empty() } else { open_markup(r) };
            lemma_concat(m, escape_char(c, o.german));
            lemma_concat(plain_body(prev, r, o), plain_step(prev, c, r, o));
        }
    }
}

proof fn lemma_render_plain(s: Seq<char>, r: RunView, o: EmitOpts)
    requires
        is_color(r.hex_color),
    ensures
        no_begin_end(render_plain(s, r, o)),
{
    lemma_plain_body(s, r, o);
    lemma_close_markup(r);
    lemma_no_backslash(Seq::<char>::empty());
    let m = if crate::emit::ends_in_word(s) { close_markup(r) } else { Seq::empty() };
    lemma_concat(plain_body(s, r, o), m);
}

proof fn lemma_render_text(s: Seq<char>, r: RunView, o: EmitOpts)
    requires
        is_color(r.hex_color),
        windows_plain(s, o),
    ensures
        no_begin_end(crate::emit::render_text(s, r, o)),
    decreases s.len(),
{
    lemma_render_plain(s, r, o);
    if o.escape_start.len() > 0 {
        if let Some(p) = crate::text::find_spec(s, o.escape_start) {
            let rest = s.skip(p + o.escape_start.len());
            if let Some(q) = crate::text::find_spec(rest, o.escape_end) {
                let next = rest.skip(q + o.escape_end.len());
                lemma_render_plain(s.take(p), r, o);
                lemma_render_text(next, r, o);
                let w = crate::emit::expand_tabs(rest.take(q), o.tab_size);
                lemma_concat(render_plain(s.take(p), r, o), w);
                lemma_concat(render_plain(s.take(p), r, o) + w, crate::emit::render_text(next, r, o));
            }
        }
    }
}

proof fn lemma_render_runs(rs: Seq<RunView>, o: EmitOpts)
    requires
        forall|k: int|
            0 <= k < rs.len() ==> is_color(#[trigger] rs[k].hex_color) && windows_plain(rs[k].text, o),
    ensures
        no_begin_end(render_runs(rs, o)),
    decreases rs.len(),
{
    if rs.len() == 0 {
        lemma_no_backslash(Seq::<char>::empty());
    } else {
        let last = rs.last();
        assert(is_color(rs[rs.len() - 1].hex_color));
        assert forall|k: int| 0 <= k < rs.drop_last().len() implies is_color(
            #[trigger] rs.drop_last()[k].hex_color,
        ) && windows_plain(rs.drop_last()[k].text, o) by {
            assert(rs.drop_last()[k] == rs[k]);
        }
        lemma_render_runs(rs.drop_last(), o);
        lemma_render_text(last.text, last, o);
        lemma_concat(render_runs(rs.drop_last(), o), crate::emit::render_text(last.text, last, o));
    }
}

/// Raw output never holds the opening or the closing of the environment that the wrapped
/// output puts around it, for runs with canonical colors whose escape windows pass no
/// `\begin` or `\end` through.
pub proof fn lemma_raw_has_no_environment(rs: Seq<RunView>, o: EmitOpts)
    requires
        o.raw,
        forall|k: int|
            0 <= k < rs.len() ==> is_color(#[trigger] rs[k].hex_color) && windows_plain(rs[k].text, o),
    ensures
        !crate::text::contains_spec(emit_spec(rs, o), "\\begin{chromacode}"@),
        !crate::text::contains_spec(emit_spec(rs, o), env_close()),
{
    let s = emit_spec(rs, o);
    lemma_render_runs(rs, o);
    reveal_strlit("\\begin{chromacode}");
    reveal_strlit("\\end{chromacode}\n");
    assert forall|i: int| !crate::text::occurs_at(s, "\\begin{chromacode}"@, i) by {
        if crate::text::occurs_at(s, "\\begin{chromacode}"@, i) {
            assert(s.subrange(i, i + 18)[0] == '\\');
            assert(s.subrange(i, i + 18)[1] == 'b');
            assert(s[i] == '\\');
        }
    }
    assert forall|i: int| !crate::text::occurs_at(s, env_close(), i) by {
        if crate::text::occurs_at(s, env_close(), i) {
            assert(s.subrange(i, i + 17)[0] == '\\');
            assert(s.subrange(i, i + 17)[1] == 'e');
            assert(s[i] == '\\');
        }
    }
}

/// The text after the first newline of `t`; nothing where `t` has none.
pub open spec fn after_newline(t: Seq<char>) -> Seq<char> {
    match crate::text::find_spec(t, seq!['\n']) {
        Some(k) => t.skip(k + 1),
        None => Seq::empty(),
    }
}

proof fn lemma_node_texts_append(
    a: Seq<(Seq<char>, Option<Seq<char>>)>,
    b: Seq<(Seq<char>, Option<Seq<char>>)>,
)
    ensures
        node_texts(a + b) == node_texts(a) + node_texts(b),
    decreases b.len(),
{
    if b.len() == 0 {
        assert(a + b =~= a);
        assert(node_texts(a) + node_texts(b) =~= node_texts(a));
    } else {
        assert((a + b).drop_last() =~= a + b.drop_last());
        lemma_node_texts_append(a, b.drop_last());
        assert(node_texts(a + b) =~= node_texts(a) + node_texts(b));
    }
}

proof fn lemma_after_newline_concat(a: Seq<char>, b: Seq<char>)
    ensures
        crate::text::find_spec(a, seq!['\n']) is None ==> after_newline(a + b) == after_newline(b),
        crate::text::find_spec(a, seq!['\n']) matches Some(k) ==> after_newline(a + b) == a.skip(
            k + 1,
        ) + b,
{
    let nl = seq!['\n'];
    let s = a + b;
    match crate::text::find_spec(a, nl) {
        None => {
            crate::text::lemma_find_none(a, nl);
            match crate::text::find_spec(b, nl) {
                Some(k) => {
                    crate::text::lemma_occurs_char(b, '\n', k);
                    crate::text::lemma_occurs_char(s, '\n', a.len() + k);
                    assert forall|j: int| 0 <= j < a.len() + k implies !#[trigger] crate::text::occurs_at(
                        s,
                        nl,
                        j,
                    ) by {
                        crate::text::lemma_occurs_char(s, '\n', j);
                        if j < a.len() {
                            assert(!crate::text::occurs_at(a, nl, j));
                            crate::text::lemma_occurs_char(a, '\n', j);
                        } else {
                            assert(!crate::text::occurs_at(b, nl, j - a.len()));
                            crate::text::lemma_occurs_char(b, '\n', j - a.len());
                        }
                    }
                    crate::text::lemma_find_is(s, nl, a.len() + k);
                    assert(s.skip(a.len() + k + 1) =~= b.skip(k + 1));
                },
                None => {
                    crate::text::lemma_find_none(b, nl);
                    assert forall|j: int| !#[trigger] crate::text::occurs_at(s, nl, j) by {
                        crate::text::lemma_occurs_char(s, '\n', j);
                        if 0 <= j < a.len() {
                            assert(!crate::text::occurs_at(a, nl, j));
                            crate::text::lemma_occurs_char(a, '\n', j);
                        } else if a.len() <= j < s.len() {
                            assert(!crate::text::occurs_at(b, nl, j - a.len()));
                            crate::text::lemma_occurs_char(b, '\n', j - a.len());
                        }
                    }
                    if exists|i: int| crate::text::is_first_at(s, nl, i) {
                        let i = choose|i: int| crate::text::is_first_at(s, nl, i);
                        assert(crate::text::occurs_at(s, nl, i));
                    }
                },
            }
        },
        Some(k) => {
            assert(crate::text::is_first_at(a, nl, k));
            crate::text::lemma_occurs_char(a, '\n', k);
            crate::text::lemma_occurs_char(s, '\n', k);
            assert forall|j: int| 0 <= j < k implies !#[trigger] crate::text::occurs_at(s, nl, j) by {
                crate::text::lemma_occurs_char(s, '\n', j);
                crate::text::lemma_occurs_char(a, '\n', j);
            }
            crate::text::lemma_find_is(s, nl, k);
            assert(s.skip(k + 1) =~= a.skip(k + 1) + b);
        },
    }
}

proof fn lemma_after_first_line_text(ns: Seq<(Seq<char>, Option<Seq<char>>)>)
    ensures
        node_texts(crate::extract::after_first_line(ns)) == after_newline(node_texts(ns)),
    decreases ns.len(),
{
    if ns.len() == 0 {
        crate::text::lemma_find_none_empty();
    } else {
        let x = ns[0];
        let rest = ns.drop_first();
        assert(ns =~= seq![x] + rest);
        lemma_node_texts_append(seq![x], rest);
        assert(seq![x].drop_last() =~= Seq::<(Seq<char>, Option<Seq<char>>)>::empty());
        assert(node_texts(seq![x]) == node_texts(seq![x].drop_last()) + x.0);
        assert(node_texts(seq![x]) =~= x.0);
        lemma_after_newline_concat(x.0, node_texts(rest));
        match crate::text::find_spec(x.0, seq!['\n']) {
            None => {
                lemma_after_first_line_text(rest);
            },
            Some(k) => {
                let head = crate::extract::first_rest(x, k);
                lemma_node_texts_append(head, rest);
                if k + 1 >= x.0.len() {
                    assert(node_texts(head) =~= x.0.skip(k + 1));
                } else {
                    assert(head.drop_last() =~= Seq::<(Seq<char>, Option<Seq<char>>)>::empty());
                    assert(node_texts(head) =~= x.0.skip(k + 1));
                }
            },
        }
    }
}

/// In a `<pre><code>` document, skipping the first line drops exactly the text up to and
/// including the first newline of the first block: the runs that stay carry the rest of it.
pub proof fn lemma_skip_first_line_in_code(html: Seq<char>, default_color: Seq<char>)
    ensures
        ({
            let table = selected_text_nodes(html, locator_selector(Locator::LineTable));
            let code = selected_text_nodes(html, locator_selector(Locator::PreCode));
            !(table is Some && table.unwrap().len() > 0) && code is Some && code.unwrap().len() > 0
                ==> run_texts(document_runs(html, true, default_color)) == after_newline(
                node_texts(code.unwrap()[0]),
            ) + line_texts(code.unwrap().skip(1))
        }),
{
    let table = selected_text_nodes(html, locator_selector(Locator::LineTable));
    let code = selected_text_nodes(html, locator_selector(Locator::PreCode));
    if !(table is Some && table.unwrap().len() > 0) && code is Some && code.unwrap().len() > 0 {
        let bs = code.unwrap();
        let kept = bs.update(0, crate::extract::after_first_line(bs[0]));
        lemma_concatenation(html, true, default_color);
        lemma_after_first_line_text(bs[0]);
        assert(kept =~= seq![kept[0]] + bs.skip(1));
        lemma_line_texts_append(seq![kept[0]], bs.skip(1));
        assert(seq![kept[0]].drop_last() =~= Seq::<Seq<(Seq<char>, Option<Seq<char>>)>>::empty());
        assert(line_texts(seq![kept[0]]) == line_texts(seq![kept[0]].drop_last()) + node_texts(
            kept[0],
        ));
        assert(line_texts(seq![kept[0]]) =~= node_texts(kept[0]));
        assert(crate::extract::located_lines(html, true) == kept);
    }
}

proof fn lemma_line_texts_append(
    a: Seq<Seq<(Seq<char>, Option<Seq<char>>)>>,
    b: Seq<Seq<(Seq<char>, Option<Seq<char>>)>>,
)
    ensures
        line_texts(a + b) == line_texts(a) + line_texts(b),
    decreases b.len(),
{
    if b.len() == 0 {
        assert(a + b =~= a);
        assert(line_texts(a) + line_texts(b) =~= line_texts(a));
    } else {
        assert((a + b).drop_last() =~= a + b.drop_last());
        lemma_line_texts_append(a, b.drop_last());
        assert(line_texts(a + b) =~= line_texts(a) + line_texts(b));
    }
}

} // verus!
