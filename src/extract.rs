use vstd::prelude::*;

use crate::config::CliArgs;
use crate::text::{chars_of, contains, contains_spec, find_spec, occurs_at, slice_to_vec, string_of};

verus! {

/// One styled run of highlighted text.
pub struct HighlightedText {
    /// The text of the run, white space included.
    pub text: String,
    /// Foreground color: six upper-case hexadecimal digits.
    pub hex_color: String,
    pub bold: bool,
    pub underline: bool,
    pub italic: bool,
}

/// What a run is, as plain values.
pub ghost struct RunView {
    pub text: Seq<char>,
    pub hex_color: Seq<char>,
    pub bold: bool,
    pub underline: bool,
    pub italic: bool,
}

impl View for HighlightedText {
    type V = RunView;

    open spec fn view(&self) -> RunView {
        RunView {
            text: self.text@,
            hex_color: self.hex_color@,
            bold: self.bold,
            underline: self.underline,
            italic: self.italic,
        }
    }
}

/// A text node of the highlighted document, with the `style` attribute of the element that
/// holds it (`None` where that element has none, or where no element holds it).
pub struct TextNode {
    pub text: String,
    pub style: Option<String>,
}

pub open spec fn opt_view(o: Option<String>) -> Option<Seq<char>> {
    match o {
        Some(s) => Some(s@),
        None => None,
    }
}

impl View for TextNode {
    type V = (Seq<char>, Option<Seq<char>>);

    open spec fn view(&self) -> (Seq<char>, Option<Seq<char>>) {
        (self.text@, opt_view(self.style))
    }
}

/// The input bytes were not valid UTF-8.
#[derive(Debug, PartialEq, Eq)]
pub struct DecodingError;

/// What `String::from_utf8` makes of `b`: its characters where `b` is UTF-8, else `None`.
pub open spec fn utf8_text(b: Seq<u8>) -> Option<Seq<char>> {
    if vstd::utf8::valid_utf8(b) {
        Some(vstd::utf8::decode_utf8(b))
    } else {
        None
    }
}

/// Relies on `String::from_utf8`, which decodes `b` as UTF-8 or fails.
#[verifier::external_body]
fn decode_text(b: Vec<u8>) -> (r: Option<String>)
    ensures
        opt_view(r) == utf8_text(b@),
{
    String::from_utf8(b).ok()
}

/// What `regex::Regex::new(pattern)` followed by `find(hay)` returns: the text of the leftmost
/// match, `None` where there is none or the pattern does not compile.
pub uninterp spec fn regex_find(pattern: Seq<char>, hay: Seq<char>) -> Option<Seq<char>>;

/// Relies on `regex::Regex::new` and `regex::Regex::find`: the leftmost-first match of
/// `pattern` in `hay`.
#[verifier::external_body]
fn find_pattern(pattern: &str, hay: &str) -> (r: Option<String>)
    ensures
        opt_view(r) == regex_find(pattern@, hay@),
{
    let re = regex::Regex::new(pattern).ok()?;
    re.find(hay).map(|m| m.as_str().to_string())
}

/// An ancestor of a node: an element, with its `style` attribute, or a node that is no
/// element (the document).
pub enum Ancestor {
    Element(Option<String>),
    Other,
}

impl View for Ancestor {
    type V = Option<Option<Seq<char>>>;

    open spec fn view(&self) -> Option<Option<Seq<char>>> {
        match self {
            Ancestor::Element(st) => Some(opt_view(*st)),
            Ancestor::Other => None,
        }
    }
}

/// A node of the document: its text where it is a text node, and its ancestors, nearest first.
pub struct DomNode {
    pub text: Option<String>,
    pub ancestors: Vec<Ancestor>,
}

impl View for DomNode {
    type V = (Option<Seq<char>>, Seq<Option<Option<Seq<char>>>>);

    open spec fn view(&self) -> (Option<Seq<char>>, Seq<Option<Option<Seq<char>>>>) {
        (opt_view(self.text), self.ancestors@.map_values(|a: Ancestor| a@))
    }
}

/// What scraper makes of `html`: for each element that `selector` matches, in the order that
/// `select` yields them, all its descendants (itself first) in the order that `descendants`
/// yields them. `None` where the selector does not parse.
pub uninterp spec fn selected_nodes(html: Seq<char>, selector: Seq<char>) -> Option<
    Seq<Seq<(Option<Seq<char>>, Seq<Option<Option<Seq<char>>>>)>>,
>;

pub open spec fn doms_view(v: Seq<Vec<DomNode>>) -> Seq<
    Seq<(Option<Seq<char>>, Seq<Option<Option<Seq<char>>>>)>,
> {
    v.map_values(|b: Vec<DomNode>| b@.map_values(|n: DomNode| n@))
}

/// Relies on `scraper::Selector::parse`, `scraper::Html::parse_document`, the document's
/// `select`, and ego-tree's `descendants` and `ancestors` on each match.
#[verifier::external_body]
fn select_nodes(html: &str, selector: &str) -> (r: Option<Vec<Vec<DomNode>>>)
    ensures
        match r {
            Some(v) => selected_nodes(html@, selector@) == Some(doms_view(v@)),
            None => selected_nodes(html@, selector@) is None,
        },
{
    let sel = scraper::Selector::parse(selector).ok()?;
    let doc = scraper::Html::parse_document(html);
    Some(doc.select(&sel).map(|m| m.descendants().map(|n| DomNode {
        text: n.value().as_text().map(|t| t.to_string()),
        ancestors: n.ancestors().map(|a| match a.value().as_element() {
            Some(e) => Ancestor::Element(e.attr("style").map(String::from)),
            None => Ancestor::Other,
        }).collect(),
    }).collect()).collect())
}

/// The `style` of the first element among `anc` that has one.
pub open spec fn first_style(anc: Seq<Option<Option<Seq<char>>>>) -> Option<Seq<char>>
    decreases anc.len(),
{
    if anc.len() == 0 {
        None
    } else {
        match anc[0] {
            Some(Some(st)) => Some(st),
            _ => first_style(anc.drop_first()),
        }
    }
}

/// How many of the `len` ancestors of a node lie inside a match that has `base` ancestors of
/// its own (the match included).
pub open spec fn inner_count(len: int, base: int) -> int {
    if len > base {
        len - base
    } else {
        0
    }
}

/// The style of node `n`: that of its nearest ancestor inside the match with a `style`.
pub open spec fn node_style(n: (Option<Seq<char>>, Seq<Option<Option<Seq<char>>>>), base: int) -> Option<
    Seq<char>,
> {
    first_style(n.1.take(inner_count(n.1.len() as int, base)))
}

/// The text nodes of a match's descendants `b`, in order, each with its style.
pub open spec fn block_text_nodes(
    b: Seq<(Option<Seq<char>>, Seq<Option<Option<Seq<char>>>>)>,
    base: int,
) -> Seq<(Seq<char>, Option<Seq<char>>)>
    decreases b.len(),
{
    if b.len() == 0 {
        Seq::empty()
    } else {
        block_text_nodes(b.drop_last(), base) + match b.last().0 {
            Some(t) => seq![(t, node_style(b.last(), base))],
            None => Seq::empty(),
        }
    }
}

/// The number of ancestors of the match itself, the first of its descendants.
pub open spec fn block_base(b: Seq<(Option<Seq<char>>, Seq<Option<Option<Seq<char>>>>)>) -> int {
    if b.len() > 0 {
        b[0].1.len() as int
    } else {
        0
    }
}

pub open spec fn block_nodes(b: Seq<(Option<Seq<char>>, Seq<Option<Option<Seq<char>>>>)>) -> Seq<
    (Seq<char>, Option<Seq<char>>),
> {
    block_text_nodes(b, block_base(b))
}

/// For each element of `html` that `selector` matches, its text nodes with their styles.
pub open spec fn selected_text_nodes(html: Seq<char>, selector: Seq<char>) -> Option<
    Seq<Seq<(Seq<char>, Option<Seq<char>>)>>,
> {
    match selected_nodes(html, selector) {
        Some(bs) => Some(
            bs.map_values(
                |b: Seq<(Option<Seq<char>>, Seq<Option<Option<Seq<char>>>>)>| block_nodes(b),
            ),
        ),
        None => None,
    }
}

pub open spec fn nodes_view(v: Seq<Vec<TextNode>>) -> Seq<Seq<(Seq<char>, Option<Seq<char>>)>> {
    v.map_values(|l: Vec<TextNode>| l@.map_values(|n: TextNode| n@))
}

fn copy_opt(o: &Option<String>) -> (r: Option<String>)
    ensures
        opt_view(r) == opt_view(*o),
{
    match o {
        Some(s) => Some(s.clone()),
        None => None,
    }
}

/// The `style` of the first element among `anc[..limit]` that has one.
pub fn nearest_style(anc: &Vec<Ancestor>, limit: usize) -> (r: Option<String>)
    requires
        limit <= anc.len(),
    ensures
        opt_view(r) == first_style(anc@.map_values(|a: Ancestor| a@).take(limit as int)),
{
    let ghost v = anc@.map_values(|a: Ancestor| a@);
    let mut i: usize = 0;
    assert(v.take(limit as int) =~= v.subrange(0, limit as int));
    while i < limit
        invariant
            i <= limit <= anc.len(),
            v == anc@.map_values(|a: Ancestor| a@),
            first_style(v.take(limit as int)) == first_style(v.subrange(i as int, limit as int)),
        decreases limit - i,
    {
        assert(v.subrange(i as int, limit as int)[0] == anc@[i as int]@);
        assert(v.subrange(i as int, limit as int).drop_first() =~= v.subrange(i + 1, limit as int));
        match &anc[i] {
            Ancestor::Element(Some(st)) => {
                return Some(st.clone());
            },
            _ => {},
        }
        i = i + 1;
    }
    None
}

/// The text nodes among `block`, the descendants of one match (the match first), in order,
/// each with the style of its nearest ancestor inside the match that has one.
pub fn text_nodes_of(block: &Vec<DomNode>) -> (r: Vec<TextNode>)
    ensures
        r@.map_values(|n: TextNode| n@) == block_nodes(block@.map_values(|n: DomNode| n@)),
{
    let ghost b = block@.map_values(|n: DomNode| n@);
    let base: usize = if block.len() > 0 { block[0].ancestors.len() } else { 0 };
    assert(base == block_base(b));
    let mut out: Vec<TextNode> = Vec::new();
    let mut j: usize = 0;
    while j < block.len()
        invariant
            j <= block.len(),
            b == block@.map_values(|n: DomNode| n@),
            base == block_base(b),
            out@.map_values(|n: TextNode| n@) == block_text_nodes(b.take(j as int), base as int),
        decreases block.len() - j,
    {
        let node = &block[j];
        let ghost prev = out@;
        assert(b.take(j + 1).drop_last() =~= b.take(j as int));
        assert(b.take(j + 1).last() == node@);
        match &node.text {
            Some(t) => {
                let n = node.ancestors.len();
                let limit: usize = if n > base { n - base } else { 0 };
                let style = nearest_style(&node.ancestors, limit);
                out.push(TextNode { text: t.clone(), style });
                assert(out@.map_values(|n: TextNode| n@) =~= prev.map_values(|n: TextNode| n@)
                    + seq![(t@, node_style(node@, base as int))]);
            },
            None => {
                assert(out@.map_values(|n: TextNode| n@) =~= prev.map_values(|n: TextNode| n@)
                    + Seq::<(Seq<char>, Option<Seq<char>>)>::empty());
            },
        }
        j = j + 1;
    }
    assert(b.take(block.len() as int) =~= b);
    out
}

fn text_nodes_of_blocks(bs: &Vec<Vec<DomNode>>) -> (r: Vec<Vec<TextNode>>)
    ensures
        nodes_view(r@) == doms_view(bs@).map_values(
            |b: Seq<(Option<Seq<char>>, Seq<Option<Option<Seq<char>>>>)>| block_nodes(b),
        ),
{
    let mut out: Vec<Vec<TextNode>> = Vec::new();
    let mut i: usize = 0;
    while i < bs.len()
        invariant
            i <= bs.len(),
            nodes_view(out@) == doms_view(bs@).take(i as int).map_values(
                |b: Seq<(Option<Seq<char>>, Seq<Option<Option<Seq<char>>>>)>| block_nodes(b),
            ),
        decreases bs.len() - i,
    {
        let t = text_nodes_of(&bs[i]);
        let ghost prev = out@;
        assert(doms_view(bs@)[i as int] == bs@[i as int]@.map_values(|n: DomNode| n@));
        out.push(t);
        assert(nodes_view(out@) =~= nodes_view(prev).push(t@.map_values(|n: TextNode| n@)));
        assert(doms_view(bs@).take(i + 1) =~= doms_view(bs@).take(i as int).push(doms_view(bs@)[i as int]));
        i = i + 1;
        assert(nodes_view(out@) =~= doms_view(bs@).take(i as int).map_values(
            |b: Seq<(Option<Seq<char>>, Seq<Option<Option<Seq<char>>>>)>| block_nodes(b),
        ));
    }
    assert(doms_view(bs@).take(bs.len() as int) =~= doms_view(bs@));
    out
}

/// The text nodes of the elements of `html` that `selector` matches; `None` where the selector
/// does not parse.
fn select_text_nodes(html: &str, selector: &str) -> (r: Option<Vec<Vec<TextNode>>>)
    ensures
        match r {
            Some(v) => selected_text_nodes(html@, selector@) == Some(nodes_view(v@)),
            None => selected_text_nodes(html@, selector@) is None,
        },
{
    match select_nodes(html, selector) {
        Some(bs) => Some(text_nodes_of_blocks(&bs)),
        None => None,
    }
}

/// The ways in which a highlighter marks up its styled text.
pub enum Locator {
    /// Table cells of class `line`, one for each source line; a text node takes its style
    /// from the element that holds it.
    LineTable,
    /// Spans inside a `<pre><code>` block, each with a `style` attribute of its own.
    PreCode,
}

/// The selector of the elements that a locator looks for.
pub open spec fn locator_selector(l: Locator) -> Seq<char> {
    match l {
        Locator::LineTable => "td.line"@,
        Locator::PreCode => "pre code"@,
    }
}

impl Locator {
    pub fn selector(&self) -> (r: &'static str)
        ensures
            r@ == locator_selector(*self),
    {
        match self {
            Locator::LineTable => "td.line",
            Locator::PreCode => "pre code",
        }
    }
}

/// The nodes `ns` without the text up to and including the first newline.
pub open spec fn after_first_line(ns: Seq<(Seq<char>, Option<Seq<char>>)>) -> Seq<
    (Seq<char>, Option<Seq<char>>),
>
    decreases ns.len(),
{
    if ns.len() == 0 {
        Seq::empty()
    } else {
        match find_spec(ns[0].0, seq!['\n']) {
            None => after_first_line(ns.drop_first()),
            Some(k) => first_rest(ns[0], k) + ns.drop_first(),
        }
    }
}

/// What stays of node `n` after the newline at index `k`: nothing where that is the end.
pub open spec fn first_rest(n: (Seq<char>, Option<Seq<char>>), k: int) -> Seq<
    (Seq<char>, Option<Seq<char>>),
> {
    if k + 1 >= n.0.len() {
        Seq::empty()
    } else {
        seq![(n.0.skip(k + 1), n.1)]
    }
}

/// The code blocks that stay: all of them, or with the first line of the first one dropped.
pub open spec fn kept_blocks(
    bs: Seq<Seq<(Seq<char>, Option<Seq<char>>)>>,
    skip_first_line: bool,
) -> Seq<Seq<(Seq<char>, Option<Seq<char>>)>> {
    if skip_first_line && bs.len() > 0 {
        bs.update(0, after_first_line(bs[0]))
    } else {
        bs
    }
}

/// The pattern of a color in a style attribute.
pub open spec fn color_pattern() -> Seq<char> {
    "#[0-9a-fA-F]{6}"@
}

pub open spec fn is_hex_digit(c: char) -> bool {
    ('0' <= c && c <= '9') || ('a' <= c && c <= 'f') || ('A' <= c && c <= 'F')
}

pub open spec fn is_upper_hex_digit(c: char) -> bool {
    ('0' <= c && c <= '9') || ('A' <= c && c <= 'F')
}

/// A color in canonical form: six upper-case hexadecimal digits.
pub open spec fn is_color(s: Seq<char>) -> bool {
    s.len() == 6 && forall|k: int| 0 <= k < 6 ==> is_upper_hex_digit(#[trigger] s[k])
}

pub open spec fn hex_upper(c: char) -> char {
    if c == 'a' {
        'A'
    } else if c == 'b' {
        'B'
    } else if c == 'c' {
        'C'
    } else if c == 'd' {
        'D'
    } else if c == 'e' {
        'E'
    } else if c == 'f' {
        'F'
    } else {
        c
    }
}

/// `m` is `#` followed by six hexadecimal digits.
pub open spec fn is_hash_color(m: Seq<char>) -> bool {
    m.len() == 7 && m[0] == '#' && forall|k: int| 1 <= k < 7 ==> is_hex_digit(#[trigger] m[k])
}

/// Six hexadecimal digits, of either case.
pub open spec fn is_hex_color(s: Seq<char>) -> bool {
    s.len() == 6 && forall|k: int| 0 <= k < 6 ==> is_hex_digit(#[trigger] s[k])
}

/// `s` with its hexadecimal letters in upper case.
pub open spec fn upper_color(s: Seq<char>) -> Seq<char> {
    s.map_values(|c: char| hex_upper(c))
}

/// The color that a match of the color pattern gives, or the default color, in upper case,
/// without one.
pub open spec fn color_spec(m: Option<Seq<char>>, default_color: Seq<char>) -> Seq<char> {
    match m {
        Some(s) => if is_hash_color(s) {
            upper_color(s.skip(1))
        } else {
            upper_color(default_color)
        },
        None => upper_color(default_color),
    }
}

/// The run that a text node yields.
pub open spec fn node_run(n: (Seq<char>, Option<Seq<char>>), default_color: Seq<char>) -> RunView {
    match n.1 {
        None => RunView {
            text: n.0,
            hex_color: upper_color(default_color),
            bold: false,
            underline: false,
            italic: false,
        },
        Some(st) => RunView {
            text: n.0,
            hex_color: color_spec(regex_find(color_pattern(), st), default_color),
            bold: contains_spec(st, "bold"@),
            underline: contains_spec(st, "underline"@),
            italic: contains_spec(st, "italic"@),
        },
    }
}

/// The runs of the lines `ls`, in order.
pub open spec fn runs_of_lines(
    ls: Seq<Seq<(Seq<char>, Option<Seq<char>>)>>,
    default_color: Seq<char>,
) -> Seq<RunView>
    decreases ls.len(),
{
    if ls.len() == 0 {
        Seq::empty()
    } else {
        runs_of_lines(ls.drop_last(), default_color) + ls.last().map_values(
            |n: (Seq<char>, Option<Seq<char>>)| node_run(n, default_color),
        )
    }
}

/// The lines that stay: all of them, or all but the first.
pub open spec fn kept_lines(
    ls: Seq<Seq<(Seq<char>, Option<Seq<char>>)>>,
    skip_first_line: bool,
) -> Seq<Seq<(Seq<char>, Option<Seq<char>>)>> {
    if skip_first_line && ls.len() > 0 {
        ls.skip(1)
    } else {
        ls
    }
}

/// The lines of styled text that a decoded document holds: the line cells where there are
/// any, else the `<pre><code>` blocks; the first line dropped where `skip_first_line` holds.
pub open spec fn located_lines(html: Seq<char>, skip_first_line: bool) -> Seq<
    Seq<(Seq<char>, Option<Seq<char>>)>,
> {
    let table = selected_text_nodes(html, locator_selector(Locator::LineTable));
    if table is Some && table.unwrap().len() > 0 {
        kept_lines(table.unwrap(), skip_first_line)
    } else {
        match selected_text_nodes(html, locator_selector(Locator::PreCode)) {
            Some(bs) => kept_blocks(bs, skip_first_line),
            None => Seq::empty(),
        }
    }
}

/// The runs that a decoded document yields.
pub open spec fn document_runs(html: Seq<char>, skip_first_line: bool, default_color: Seq<char>) -> Seq<
    RunView,
> {
    runs_of_lines(located_lines(html, skip_first_line), default_color)
}

pub open spec fn runs_view(v: Seq<HighlightedText>) -> Seq<RunView> {
    v.map_values(|h: HighlightedText| h@)
}

fn hex_digit(c: char) -> (r: bool)
    ensures
        r == is_hex_digit(c),
{
    ('0' <= c && c <= '9') || ('a' <= c && c <= 'f') || ('A' <= c && c <= 'F')
}

fn to_upper_hex(c: char) -> (r: char)
    ensures
        r == hex_upper(c),
{
    if c == 'a' {
        'A'
    } else if c == 'b' {
        'B'
    } else if c == 'c' {
        'C'
    } else if c == 'd' {
        'D'
    } else if c == 'e' {
        'E'
    } else if c == 'f' {
        'F'
    } else {
        c
    }
}

/// `s` with its hexadecimal letters in upper case.
fn upper_hex(s: &String) -> (r: String)
    ensures
        r@ == upper_color(s@),
{
    let cs = chars_of(s.as_str());
    let mut out: Vec<char> = Vec::new();
    let mut k: usize = 0;
    while k < cs.len()
        invariant
            k <= cs.len(),
            out@ == upper_color(cs@.take(k as int)),
        decreases cs.len() - k,
    {
        out.push(to_upper_hex(cs[k]));
        k = k + 1;
        assert(out@ =~= upper_color(cs@.take(k as int)));
    }
    assert(cs@.take(cs.len() as int) =~= s@);
    string_of(&out)
}

/// The canonical form of the color `s`: its six hexadecimal digits in upper case; `None` where
/// `s` is not six hexadecimal digits.
pub fn normalize_color(s: &String) -> (r: Option<String>)
    ensures
        r is Some <==> is_hex_color(s@),
        r matches Some(c) ==> c@ == upper_color(s@) && is_color(c@),
{
    let cs = chars_of(s.as_str());
    if cs.len() != 6 {
        return None;
    }
    let mut k: usize = 0;
    while k < 6
        invariant
            k <= 6,
            cs@ == s@,
            cs.len() == 6,
            forall|j: int| 0 <= j < k ==> is_hex_digit(#[trigger] cs@[j]),
        decreases 6 - k,
    {
        if !hex_digit(cs[k]) {
            assert(!is_hex_digit(s@[k as int]));
            return None;
        }
        k = k + 1;
    }
    proof {
        lemma_upper_color(s@);
    }
    Some(upper_hex(s))
}

/// The upper-case form of six hexadecimal digits is a color in canonical form.
pub proof fn lemma_upper_color(s: Seq<char>)
    requires
        is_hex_color(s),
    ensures
        is_color(upper_color(s)),
{
    assert forall|k: int| 0 <= k < 6 implies is_upper_hex_digit(#[trigger] upper_color(s)[k]) by {
        assert(is_hex_digit(s[k]));
    }
}

/// The color given by `m`, a match of the color pattern: its six digits in upper case, or
/// the default color in upper case where there is no match or it is not `#` and six
/// hexadecimal digits.
pub fn color_from_match(m: &Option<String>, default_color: &String) -> (r: String)
    ensures
        r@ == color_spec(opt_view(*m), default_color@),
{
    match m {
        Some(s) => {
            let cs = chars_of(s.as_str());
            if cs.len() != 7 || cs[0] != '#' {
                return upper_hex(default_color);
            }
            let mut out: Vec<char> = Vec::new();
            let mut k: usize = 1;
            while k < 7
                invariant
                    1 <= k <= 7,
                    cs@ == s@,
                    opt_view(*m) == Some(s@),
                    cs.len() == 7,
                    cs@[0] == '#',
                    forall|j: int| 1 <= j < k ==> is_hex_digit(#[trigger] cs@[j]),
                    out@ == cs@.subrange(1, k as int).map_values(|c: char| hex_upper(c)),
                decreases 7 - k,
            {
                if !hex_digit(cs[k]) {
                    assert(!is_hex_digit(s@[k as int]));
                    return upper_hex(default_color);
                }
                out.push(to_upper_hex(cs[k]));
                k = k + 1;
                assert(out@ =~= cs@.subrange(1, k as int).map_values(|c: char| hex_upper(c)));
            }
            assert(cs@.subrange(1, 7) =~= s@.skip(1));
            string_of(&out)
        },
        None => upper_hex(default_color),
    }
}

/// The run that text node `node` yields: its text, with the color and flags that its style
/// attribute gives, and the default color in upper case and no flags where it has none.
pub fn run_from_node(node: &TextNode, default_color: &String) -> (r: HighlightedText)
    ensures
        r@ == node_run(node@, default_color@),
        node.style is None ==> r.hex_color@ == upper_color(default_color@) && !r.bold
            && !r.underline && !r.italic,
{
    match &node.style {
        None => HighlightedText {
            text: node.text.clone(),
            hex_color: upper_hex(default_color),
            bold: false,
            underline: false,
            italic: false,
        },
        Some(st) => {
            let m = find_pattern("#[0-9a-fA-F]{6}", st.as_str());
            let hex_color = color_from_match(&m, default_color);
            let cs = chars_of(st.as_str());
            HighlightedText {
                text: node.text.clone(),
                hex_color,
                bold: contains(&cs, &chars_of("bold")),
                underline: contains(&cs, &chars_of("underline")),
                italic: contains(&cs, &chars_of("italic")),
            }
        },
    }
}

/// The runs of the lines `lines`, in order, leaving out the first line where
/// `skip_first_line` holds.
pub fn runs_from_lines(lines: &Vec<Vec<TextNode>>, skip_first_line: bool, default_color: &String) -> (r:
    Vec<HighlightedText>)
    ensures
        runs_view(r@) == runs_of_lines(kept_lines(nodes_view(lines@), skip_first_line), default_color@),
{
    let ghost ls = nodes_view(lines@);
    let mut out: Vec<HighlightedText> = Vec::new();
    let start: usize = if skip_first_line && lines.len() > 0 { 1 } else { 0 };
    let ghost kept = kept_lines(ls, skip_first_line);
    proof {
        assert(kept =~= ls.subrange(start as int, ls.len() as int));
    }
    let mut i: usize = start;
    while i < lines.len()
        invariant
            start <= i <= lines.len(),
            ls == nodes_view(lines@),
            kept == ls.subrange(start as int, ls.len() as int),
            runs_view(out@) == runs_of_lines(ls.subrange(start as int, i as int), default_color@),
        decreases lines.len() - i,
    {
        let line = &lines[i];
        let ghost before = out@;
        let mut j: usize = 0;
        while j < line.len()
            invariant
                0 <= j <= line.len(),
                start <= i < lines.len(),
                ls.len() == lines.len(),
                line == lines@[i as int],
                ls == nodes_view(lines@),
                runs_view(out@) == runs_of_lines(ls.subrange(start as int, i as int), default_color@)
                    + ls[i as int].subrange(0, j as int).map_values(
                    |n: (Seq<char>, Option<Seq<char>>)| node_run(n, default_color@),
                ),
            decreases line.len() - j,
        {
            let run = run_from_node(&line[j], default_color);
            let ghost prev = out@;
            let ghost rv = run@;
            out.push(run);
            proof {
                let f = |n: (Seq<char>, Option<Seq<char>>)| node_run(n, default_color@);
                assert(ls[i as int][j as int] == line@[j as int]@);
                assert(runs_view(out@) =~= runs_view(prev).push(rv));
                assert(ls[i as int].subrange(0, j + 1).map_values(f) =~= ls[i as int].subrange(
                    0,
                    j as int,
                ).map_values(f).push(rv));
            }
            j = j + 1;
        }
        i = i + 1;
        proof {
            let sub = ls.subrange(start as int, i as int);
            assert(sub.drop_last() =~= ls.subrange(start as int, i - 1));
            assert(ls[i - 1].subrange(0, ls[i - 1].len() as int) =~= ls[i - 1]);
        }
    }
    out
}

/// The runs of the highlighted document `stdout`: the text nodes of its line cells or, where
/// it has none, of its `<pre><code>` blocks, in the order scraper yields them, each with the
/// color and flags of its nearest styled ancestor inside the match; the first line left out
/// where `conf.skip_first_line` holds. Where the default color is six hexadecimal digits,
/// every run's color is six upper-case ones. Fails exactly where `stdout` is not UTF-8.
pub fn extract_highlighted_pieces(stdout: Vec<u8>, conf: &CliArgs) -> (r: Result<
    Vec<HighlightedText>,
    DecodingError,
>)
    ensures
        r is Err <==> utf8_text(stdout@) is None,
        r matches Ok(v) ==> runs_view(v@) == document_runs(
            utf8_text(stdout@).unwrap(),
            conf.skip_first_line,
            conf.default_color@,
        ),
        r matches Ok(v) ==> (is_hex_color(conf.default_color@) ==> forall|k: int|
            0 <= k < v.len() ==> is_color(#[trigger] v@[k].hex_color@)),
{
    let html = match decode_text(stdout) {
        Some(s) => s,
        None => {
            return Err(DecodingError);
        },
    };
    let v = runs_of_document(&html, conf);
    proof {
        if is_hex_color(conf.default_color@) {
            crate::laws::lemma_colors_normalized(html@, conf.skip_first_line, conf.default_color@);
            assert forall|k: int| 0 <= k < v.len() implies is_color(#[trigger] v@[k].hex_color@) by {
                assert(runs_view(v@)[k] == v@[k]@);
                assert(is_color(
                    document_runs(html@, conf.skip_first_line, conf.default_color@)[k].hex_color,
                ));
            }
        }
    }
    Ok(v)
}

fn runs_of_document(html: &String, conf: &CliArgs) -> (r: Vec<HighlightedText>)
    ensures
        runs_view(r@) == document_runs(html@, conf.skip_first_line, conf.default_color@),
{
    if let Some(lines) = select_text_nodes(html.as_str(), Locator::LineTable.selector()) {
        if lines.len() > 0 {
            return runs_from_lines(&lines, conf.skip_first_line, &conf.default_color);
        }
    }
    match select_text_nodes(html.as_str(), Locator::PreCode.selector()) {
        Some(mut blocks) => {
            if conf.skip_first_line && blocks.len() > 0 {
                let first = drop_first_line(&blocks[0]);
                blocks.set(0, first);
            }
            assert(nodes_view(blocks@) =~= kept_blocks(
                selected_text_nodes(html@, locator_selector(Locator::PreCode)).unwrap(),
                conf.skip_first_line,
            ));
            runs_from_lines(&blocks, false, &conf.default_color)
        },
        None => Vec::new(),
    }
}

fn copy_node(n: &TextNode) -> (r: TextNode)
    ensures
        r@ == n@,
{
    TextNode {
        text: n.text.clone(),
        style: match &n.style {
            Some(s) => Some(s.clone()),
            None => None,
        },
    }
}

/// The nodes `nodes` without the text up to and including the first newline; `nodes` as they
/// are where none holds a newline.
pub fn drop_first_line(nodes: &Vec<TextNode>) -> (r: Vec<TextNode>)
    ensures
        r@.map_values(|n: TextNode| n@) == after_first_line(nodes@.map_values(|n: TextNode| n@)),
{
    let ghost ns = nodes@.map_values(|n: TextNode| n@);
    let nl: Vec<char> = vec!['\n'];
    assert(nl@ =~= seq!['\n']);
    let mut i: usize = 0;
    assert(ns.skip(0) =~= ns);
    while i < nodes.len()
        invariant
            i <= nodes.len(),
            ns == nodes@.map_values(|n: TextNode| n@),
            nl@ == seq!['\n'],
            after_first_line(ns) == after_first_line(ns.skip(i as int)),
        decreases nodes.len() - i,
    {
        let text = chars_of(nodes[i].text.as_str());
        assert(ns.skip(i as int)[0] == nodes@[i as int]@);
        assert(ns.skip(i as int).drop_first() =~= ns.skip(i + 1));
        match crate::text::find(&text, &nl) {
            Some(k) => {
                assert(occurs_at(text@, nl@, k as int));
                assert(k + 1 <= text.len());
                let rest = slice_to_vec(&text, k + 1, text.len());
                let mut out: Vec<TextNode> = Vec::new();
                let style = match &nodes[i].style {
                    Some(s) => Some(s.clone()),
                    None => None,
                };
                if rest.len() > 0 {
                    out.push(TextNode { text: string_of(&rest), style });
                }
                let ghost head = first_rest(ns[i as int], k as int);
                let mut j: usize = i + 1;
                proof {
                    assert(out@.map_values(|n: TextNode| n@) =~= head + ns.subrange(i + 1, j as int));
                }
                while j < nodes.len()
                    invariant
                        i < j <= nodes.len(),
                        ns == nodes@.map_values(|n: TextNode| n@),
                        out@.map_values(|n: TextNode| n@) == head + ns.subrange(i + 1, j as int),
                    decreases nodes.len() - j,
                {
                    let c = copy_node(&nodes[j]);
                    let ghost prev = out@;
                    assert(ns[j as int] == nodes@[j as int]@);
                    out.push(c);
                    assert(out@.map_values(|n: TextNode| n@) =~= prev.map_values(|n: TextNode| n@).push(
                        ns[j as int],
                    ));
                    assert(ns.subrange(i + 1, j + 1) =~= ns.subrange(i + 1, j as int).push(ns[j as int]));
                    j = j + 1;
                    assert(out@.map_values(|n: TextNode| n@) =~= head + ns.subrange(i + 1, j as int));
                }
                assert(ns.subrange(i + 1, nodes.len() as int) =~= ns.skip(i + 1));
                return out;
            },
            None => {},
        }
        i = i + 1;
    }
    assert(ns.skip(nodes.len() as int) =~= Seq::<(Seq<char>, Option<Seq<char>>)>::empty());
    Vec::new()
}

} // verus!
