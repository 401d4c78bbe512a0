use vstd::prelude::*;

use crate::config::CliArgs;
use crate::extract::{HighlightedText, RunView, runs_view};
use crate::text::{append_chars, chars_of, find, find_spec, slice_to_vec, string_of};

verus! {

/// The options that shape the markup, as plain values.
pub ghost struct EmitOpts {
    pub escape_start: Seq<char>,
    pub escape_end: Seq<char>,
    pub tab_size: nat,
    pub german: bool,
    pub raw: bool,
    pub caption: Seq<char>,
    pub label: Seq<char>,
}

pub open spec fn emit_opts(conf: CliArgs) -> EmitOpts {
    EmitOpts {
        escape_start: conf.escape_start@,
        escape_end: conf.escape_end@,
        tab_size: conf.tab_size as nat,
        german: conf.german,
        raw: conf.raw,
        caption: conf.caption@,
        label: conf.label@,
    }
}

/// Characters that end a styled word and are written as they are (a tab as spaces).
pub open spec fn is_blank(c: char) -> bool {
    c == ' ' || c == '\n' || c == '\t'
}

pub open spec fn spaces(n: nat) -> Seq<char> {
    Seq::new(n, |i: int| ' ')
}

/// What a blank character becomes; any other character stays as it is.
pub open spec fn blank_out(c: char, tab_size: nat) -> Seq<char> {
    if c == '\t' {
        spaces(tab_size)
    } else {
        seq![c]
    }
}

/// What a character that is not blank becomes in styled text.
#[verifier::opaque]
pub open spec fn escape_char(c: char, german: bool) -> Seq<char> {
    if c == '\\' {
        "\\textbackslash{}"@
    } else if c == '{' {
        "\\{"@
    } else if c == '}' {
        "\\}"@
    } else if c == '%' {
        "\\%"@
    } else if c == '#' {
        "\\#"@
    } else if c == '_' {
        "\\_"@
    } else if c == '&' {
        "\\&"@
    } else if c == '^' {
        "\\textasciicircum{}"@
    } else if c == '~' {
        "\\textasciitilde{}"@
    } else if c == '"' && german {
        "\\dq{}"@
    } else {
        seq![c]
    }
}

/// The markup that opens a styled word: color, then bold, italic and underline.
#[verifier::opaque]
pub open spec fn open_markup(r: RunView) -> Seq<char> {
    "\\textcolor[HTML]{"@ + r.hex_color + "}{"@ + (if r.bold {
        "\\textbf{"@
    } else {
        Seq::empty()
    }) + (if r.italic {
        "\\textit{"@
    } else {
        Seq::empty()
    }) + (if r.underline {
        "\\underline{"@
    } else {
        Seq::empty()
    })
}

/// The markup that closes a styled word: one brace for each wrapper that was opened.
#[verifier::opaque]
pub open spec fn close_markup(r: RunView) -> Seq<char> {
    "}"@ + (if r.bold {
        "}"@
    } else {
        Seq::empty()
    }) + (if r.italic {
        "}"@
    } else {
        Seq::empty()
    }) + (if r.underline {
        "}"@
    } else {
        Seq::empty()
    })
}

/// `s` ends inside a word.
pub open spec fn ends_in_word(s: Seq<char>) -> bool {
    s.len() > 0 && !is_blank(s.last())
}

/// What character `c` adds to the styled text after `prev`: a blank closes an open word and
/// is written bare; another character opens a word where none is open and is escaped.
pub open spec fn plain_step(prev: Seq<char>, c: char, r: RunView, o: EmitOpts) -> Seq<char> {
    if is_blank(c) {
        (if ends_in_word(prev) {
            close_markup(r)
        } else {
            Seq::empty()
        }) + blank_out(c, o.tab_size)
    } else {
        (if ends_in_word(prev) {
            Seq::empty()
        } else {
            open_markup(r)
        }) + escape_char(c, o.german)
    }
}

/// Styled text of `s` up to its end, a word that runs to the end still open.
pub open spec fn plain_body(s: Seq<char>, r: RunView, o: EmitOpts) -> Seq<char>
    decreases s.len(),
{
    if s.len() == 0 {
        Seq::empty()
    } else {
        plain_body(s.drop_last(), r, o) + plain_step(s.drop_last(), s.last(), r, o)
    }
}

/// Styled text of `s`: each word escaped and wrapped in the run's markup, blanks between them
/// written bare, tabs as spaces.
pub open spec fn render_plain(s: Seq<char>, r: RunView, o: EmitOpts) -> Seq<char> {
    plain_body(s, r, o) + if ends_in_word(s) {
        close_markup(r)
    } else {
        Seq::empty()
    }
}

/// `s` with each tab written as spaces.
pub open spec fn expand_tabs(s: Seq<char>, tab_size: nat) -> Seq<char>
    decreases s.len(),
{
    if s.len() == 0 {
        Seq::empty()
    } else {
        expand_tabs(s.drop_last(), tab_size) + blank_out(s.last(), tab_size)
    }
}

/// The markup of the text `s` of run `r`: text between an escape start marker and the next
/// end marker is written as it is (tabs as spaces), the markers dropped; the rest is styled.
/// A start marker with no end marker after it is styled text like any other.
pub open spec fn render_text(s: Seq<char>, r: RunView, o: EmitOpts) -> Seq<char>
    decreases s.len(),
{
    if o.escape_start.len() == 0 {
        render_plain(s, r, o)
    } else {
        match find_spec(s, o.escape_start) {
            None => render_plain(s, r, o),
            Some(p) => {
                let rest = s.skip(p + o.escape_start.len());
                match find_spec(rest, o.escape_end) {
                    None => render_plain(s, r, o),
                    Some(q) => render_plain(s.take(p), r, o) + expand_tabs(rest.take(q), o.tab_size)
                        + render_text(rest.skip(q + o.escape_end.len()), r, o),
                }
            },
        }
    }
}

/// The markup of the runs `rs`, one after the other.
pub open spec fn render_runs(rs: Seq<RunView>, o: EmitOpts) -> Seq<char>
    decreases rs.len(),
{
    if rs.len() == 0 {
        Seq::empty()
    } else {
        render_runs(rs.drop_last(), o) + render_text(rs.last().text, rs.last(), o)
    }
}

/// The opening of the verbatim environment, with caption and label.
pub open spec fn env_open(o: EmitOpts) -> Seq<char> {
    "\\begin{chromacode}{"@ + o.caption + "}{"@ + o.label + "}\n"@
}

/// The closing of the verbatim environment.
pub open spec fn env_close() -> Seq<char> {
    "\\end{chromacode}\n"@
}

/// The whole document: the runs' markup, inside the environment unless `o.raw` holds.
pub open spec fn emit_spec(rs: Seq<RunView>, o: EmitOpts) -> Seq<char> {
    if o.raw {
        render_runs(rs, o)
    } else {
        env_open(o) + render_runs(rs, o) + env_close()
    }
}


fn push_lit(out: &mut Vec<char>, lit: &str)
    ensures
        final(out)@ == old(out)@ + lit@,
{
    let v = chars_of(lit);
    append_chars(out, &v);
}

fn push_spaces(out: &mut Vec<char>, n: usize)
    ensures
        final(out)@ == old(out)@ + spaces(n as nat),
{
    let ghost o0 = out@;
    let mut i: usize = 0;
    while i < n
        invariant
            i <= n,
            out@ == o0 + spaces(i as nat),
        decreases n - i,
    {
        out.push(' ');
        i = i + 1;
        assert(out@ =~= o0 + spaces(i as nat));
    }
}

fn push_blank(out: &mut Vec<char>, c: char, tab_size: usize)
    ensures
        final(out)@ == old(out)@ + blank_out(c, tab_size as nat),
{
    if c == '\t' {
        push_spaces(out, tab_size);
    } else {
        out.push(c);
    }
}

fn push_escaped(out: &mut Vec<char>, c: char, german: bool)
    ensures
        final(out)@ == old(out)@ + escape_char(c, german),
{
    reveal(escape_char);
    if c == '\\' {
        push_lit(out, "\\textbackslash{}");
    } else if c == '{' {
        push_lit(out, "\\{");
    } else if c == '}' {
        push_lit(out, "\\}");
    } else if c == '%' {
        push_lit(out, "\\%");
    } else if c == '#' {
        push_lit(out, "\\#");
    } else if c == '_' {
        push_lit(out, "\\_");
    } else if c == '&' {
        push_lit(out, "\\&");
    } else if c == '^' {
        push_lit(out, "\\textasciicircum{}");
    } else if c == '~' {
        push_lit(out, "\\textasciitilde{}");
    } else if c == '"' && german {
        push_lit(out, "\\dq{}");
    } else {
        out.push(c);
    }
}

fn push_open(out: &mut Vec<char>, run: &HighlightedText)
    ensures
        final(out)@ == old(out)@ + open_markup(run@),
{
    reveal(open_markup);
    let ghost o0 = out@;
    push_lit(out, "\\textcolor[HTML]{");
    let hex = chars_of(run.hex_color.as_str());
    append_chars(out, &hex);
    push_lit(out, "}{");
    let ghost o1 = out@;
    if run.bold {
        push_lit(out, "\\textbf{");
    }
    let ghost o2 = out@;
    if run.italic {
        push_lit(out, "\\textit{");
    }
    let ghost o3 = out@;
    if run.underline {
        push_lit(out, "\\underline{");
    }
    assert(out@ =~= o0 + open_markup(run@));
}

fn push_close(out: &mut Vec<char>, run: &HighlightedText)
    ensures
        final(out)@ == old(out)@ + close_markup(run@),
{
    reveal(close_markup);
    let ghost o0 = out@;
    push_lit(out, "}");
    if run.bold {
        push_lit(out, "}");
    }
    let ghost o2 = out@;
    if run.italic {
        push_lit(out, "}");
    }
    let ghost o3 = out@;
    if run.underline {
        push_lit(out, "}");
    }
    assert(out@ =~= o0 + close_markup(run@));
}

fn blank(c: char) -> (r: bool)
    ensures
        r == is_blank(c),
{
    c == ' ' || c == '\n' || c == '\t'
}

/// Appends the styled text of `s` in the style of `run`.
fn push_plain(out: &mut Vec<char>, s: &[char], run: &HighlightedText, conf: &CliArgs)
    ensures
        final(out)@ == old(out)@ + render_plain(s@, run@, emit_opts(*conf)),
{
    let ghost o = emit_opts(*conf);
    let ghost o0 = out@;
    let mut i: usize = 0;
    while i < s.len()
        invariant
            i <= s.len(),
            o == emit_opts(*conf),
            out@ == o0 + plain_body(s@.take(i as int), run@, o),
        decreases s.len() - i,
    {
        let c = s[i];
        let in_word = i > 0 && !blank(s[i - 1]);
        let ghost pre = out@;
        let ghost prev = s@.take(i as int);
        proof {
            let t = s@.take(i + 1);
            assert(t.drop_last() =~= prev);
            assert(t.last() == c);
            assert(in_word == ends_in_word(prev));
        }
        if blank(c) {
            if in_word {
                push_close(out, run);
            }
            push_blank(out, c, conf.tab_size);
        } else {
            if !in_word {
                push_open(out, run);
            }
            push_escaped(out, c, conf.german);
        }
        assert(out@ =~= pre + plain_step(prev, c, run@, o));
        i = i + 1;
        proof {
            assert(plain_body(s@.take(i as int), run@, o) == plain_body(prev, run@, o) + plain_step(
                prev,
                c,
                run@,
                o,
            ));
            assert(out@ =~= o0 + plain_body(s@.take(i as int), run@, o));
        }
    }
    assert(s@.take(s.len() as int) =~= s@);
    if s.len() > 0 && !blank(s[s.len() - 1]) {
        push_close(out, run);
    }
    assert(out@ =~= o0 + render_plain(s@, run@, o));
}

/// Appends `s` with each tab written as spaces.
fn push_expanded(out: &mut Vec<char>, s: &[char], tab_size: usize)
    ensures
        final(out)@ == old(out)@ + expand_tabs(s@, tab_size as nat),
{
    let ghost o0 = out@;
    let mut i: usize = 0;
    while i < s.len()
        invariant
            i <= s.len(),
            out@ == o0 + expand_tabs(s@.take(i as int), tab_size as nat),
        decreases s.len() - i,
    {
        proof {
            assert(s@.take(i + 1).drop_last() =~= s@.take(i as int));
        }
        push_blank(out, s[i], tab_size);
        i = i + 1;
        assert(out@ =~= o0 + expand_tabs(s@.take(i as int), tab_size as nat));
    }
    assert(s@.take(s.len() as int) =~= s@);
}

/// Appends the markup of the text `text` of `run`, escape windows passed through.
fn push_text(out: &mut Vec<char>, text: &[char], run: &HighlightedText, conf: &CliArgs)
    ensures
        final(out)@ == old(out)@ + render_text(text@, run@, emit_opts(*conf)),
{
    let ghost o = emit_opts(*conf);
    let ghost o0 = out@;
    let start = chars_of(conf.escape_start.as_str());
    let end = chars_of(conf.escape_end.as_str());
    let mut cur: Vec<char> = slice_to_vec(text, 0, text.len());
    assert(cur@ =~= text@);
    loop
        invariant
            o0 == old(out)@,
            o == emit_opts(*conf),
            start@ == o.escape_start,
            end@ == o.escape_end,
            o0 + render_text(text@, run@, o) == out@ + render_text(cur@, run@, o),
        decreases cur.len(),
    {
        if start.len() == 0 {
            assert(render_text(cur@, run@, o) == render_plain(cur@, run@, o));
            push_plain(out, &cur, run, conf);
            assert(out@ =~= o0 + render_text(text@, run@, o));
            return;
        }
        match find(&cur, &start) {
            None => {
                assert(render_text(cur@, run@, o) == render_plain(cur@, run@, o));
                push_plain(out, &cur, run, conf);
                assert(out@ =~= o0 + render_text(text@, run@, o));
                return;
            },
            Some(p) => {
                let rest = slice_to_vec(&cur, p + start.len(), cur.len());
                assert(rest@ =~= cur@.skip(p + start.len()));
                match find(&rest, &end) {
                    None => {
                        assert(render_text(cur@, run@, o) == render_plain(cur@, run@, o));
                        push_plain(out, &cur, run, conf);
                        assert(out@ =~= o0 + render_text(text@, run@, o));
                        return;
                    },
                    Some(q) => {
                        let ghost before = out@;
                        let head = slice_to_vec(&cur, 0, p);
                        assert(head@ =~= cur@.take(p as int));
                        push_plain(out, &head, run, conf);
                        let window = slice_to_vec(&rest, 0, q);
                        assert(window@ =~= rest@.take(q as int));
                        push_expanded(out, &window, conf.tab_size);
                        let next = slice_to_vec(&rest, q + end.len(), rest.len());
                        assert(next@ =~= rest@.skip(q + end.len()));
                        proof {
                            assert(render_text(cur@, run@, o) == render_plain(cur@.take(p as int), run@, o)
                                + expand_tabs(rest@.take(q as int), o.tab_size) + render_text(next@, run@, o));
                            assert(before + render_text(cur@, run@, o) =~= out@ + render_text(next@, run@, o));
                        }
                        cur = next;
                    },
                }
            },
        }
    }
}

/// The markup of the runs `pieces`: each run's text escaped and styled word by word, tabs
/// written as spaces, escape windows passed through; wrapped in the verbatim environment with
/// the caption and label of `conf` unless `conf.raw` holds.
pub fn generate_latex_verbatim(pieces: Vec<HighlightedText>, conf: &CliArgs) -> (r: String)
    ensures
        r@ == emit_spec(runs_view(pieces@), emit_opts(*conf)),
{
    let ghost o = emit_opts(*conf);
    let ghost rs = runs_view(pieces@);
    let mut body: Vec<char> = Vec::new();
    let mut i: usize = 0;
    while i < pieces.len()
        invariant
            i <= pieces.len(),
            o == emit_opts(*conf),
            rs == runs_view(pieces@),
            body@ == render_runs(rs.take(i as int), o),
        decreases pieces.len() - i,
    {
        let text = chars_of(pieces[i].text.as_str());
        push_text(&mut body, &text, &pieces[i], conf);
        i = i + 1;
        proof {
            assert(rs.take(i as int).drop_last() =~= rs.take(i - 1));
        }
    }
    assert(rs.take(pieces.len() as int) =~= rs);
    if conf.raw {
        return string_of(&body);
    }
    let mut out: Vec<char> = Vec::new();
    push_lit(&mut out, "\\begin{chromacode}{");
    let caption = chars_of(conf.caption.as_str());
    append_chars(&mut out, &caption);
    push_lit(&mut out, "}{");
    let label = chars_of(conf.label.as_str());
    append_chars(&mut out, &label);
    push_lit(&mut out, "}\n");
    append_chars(&mut out, &body);
    push_lit(&mut out, "\\end{chromacode}\n");
    assert(out@ =~= emit_spec(rs, o));
    string_of(&out)
}

} // verus!
