use vstd::prelude::*;

use crate::extract::opt_view;
use crate::text::{chars_of, matches_at, occurs_at, slice_to_vec, string_of, trim, trim_spec};

verus! {

/// Caption and label that a header comment on the first line of a source file sets.
#[derive(Debug)]
pub struct HeaderInfo {
    pub caption: Option<String>,
    pub label: Option<String>,
}

impl View for HeaderInfo {
    type V = (Option<Seq<char>>, Option<Seq<char>>);

    open spec fn view(&self) -> (Option<Seq<char>>, Option<Seq<char>>) {
        (opt_view(self.caption), opt_view(self.label))
    }
}

/// What `regex::Regex::new(pattern)` followed by `captures(hay)` gives: `None` where the
/// pattern does not compile or does not match, else the text of the groups named `first` and
/// `second`, each `None` where it took part in no match.
pub uninterp spec fn regex_captures(
    pattern: Seq<char>,
    hay: Seq<char>,
    first: Seq<char>,
    second: Seq<char>,
) -> Option<(Option<Seq<char>>, Option<Seq<char>>)>;

/// Relies on `regex::Regex::new`, `regex::Regex::captures` and `regex::Captures::name`.
#[verifier::external_body]
fn named_captures(pattern: &str, hay: &str, first: &str, second: &str) -> (r: Option<
    (Option<String>, Option<String>),
>)
    ensures
        match r {
            Some((a, b)) => regex_captures(pattern@, hay@, first@, second@) == Some(
                (opt_view(a), opt_view(b)),
            ),
            None => regex_captures(pattern@, hay@, first@, second@) is None,
        },
{
    let caps = regex::Regex::new(pattern).ok()?.captures(hay)?;
    let text = |m: regex::Match| m.as_str().to_string();
    Some((caps.name(first).map(text), caps.name(second).map(text)))
}

/// The pattern of a header comment's text.
pub open spec fn header_pattern() -> Seq<char> {
    "chroma_code:\\s*(?:caption:\\s*(?P<caption>.*?))?\\s*(?:label:\\s*(?P<label>.*?))?$"@
}

/// The first line of `s`, without its line ending; `None` where `s` is empty.
pub open spec fn first_line(s: Seq<char>) -> Option<Seq<char>> {
    if s.len() == 0 {
        None
    } else {
        match crate::text::find_spec(s, seq!['\n']) {
            None => Some(s),
            Some(k) => if k > 0 && s[k - 1] == '\r' {
                Some(s.take(k - 1))
            } else {
                Some(s.take(k))
            },
        }
    }
}

pub open spec fn opt_trim(o: Option<Seq<char>>) -> Option<Seq<char>> {
    match o {
        Some(s) => Some(trim_spec(s)),
        None => None,
    }
}

/// The header that captured groups give: both trimmed, and none where neither was captured.
pub open spec fn header_of(caption: Option<Seq<char>>, label: Option<Seq<char>>) -> Option<
    (Option<Seq<char>>, Option<Seq<char>>),
> {
    if caption is Some || label is Some {
        Some((opt_trim(caption), opt_trim(label)))
    } else {
        None
    }
}

/// The header that `line` holds under the comment prefix `prefix`.
pub open spec fn header_under(line: Seq<char>, prefix: Seq<char>) -> Option<
    (Option<Seq<char>>, Option<Seq<char>>),
> {
    if occurs_at(line, prefix, 0) {
        match regex_captures(
            header_pattern(),
            trim_spec(line.skip(prefix.len() as int)),
            "caption"@,
            "label"@,
        ) {
            Some((c, l)) => header_of(c, l),
            None => None,
        }
    } else {
        None
    }
}

/// The header that `line` holds under the first of `prefixes` that gives one.
pub open spec fn header_in_line(line: Seq<char>, prefixes: Seq<Seq<char>>) -> Option<
    (Option<Seq<char>>, Option<Seq<char>>),
>
    decreases prefixes.len(),
{
    if prefixes.len() == 0 {
        None
    } else {
        match header_under(line, prefixes[0]) {
            Some(h) => Some(h),
            None => header_in_line(line, prefixes.drop_first()),
        }
    }
}

/// The header of `content`, looked for on its first line.
pub open spec fn header_spec(content: Seq<char>, prefixes: Seq<Seq<char>>) -> Option<
    (Option<Seq<char>>, Option<Seq<char>>),
> {
    match first_line(content) {
        Some(line) => header_in_line(line, prefixes),
        None => None,
    }
}

pub open spec fn strs_view(v: Seq<&str>) -> Seq<Seq<char>> {
    v.map_values(|s: &str| s@)
}

pub open spec fn header_view(h: Option<HeaderInfo>) -> Option<(Option<Seq<char>>, Option<Seq<char>>)> {
    match h {
        Some(h) => Some(h@),
        None => None,
    }
}

fn trim_opt(o: Option<String>) -> (r: Option<String>)
    ensures
        opt_view(r) == opt_trim(opt_view(o)),
{
    match o {
        Some(s) => {
            let cs = chars_of(s.as_str());
            Some(string_of(&trim(&cs)))
        },
        None => None,
    }
}

/// The header that the captured groups `caption` and `label` give: both trimmed, and `None`
/// where neither was captured.
pub fn header_from_captures(caption: Option<String>, label: Option<String>) -> (r: Option<
    HeaderInfo,
>)
    ensures
        header_view(r) == header_of(opt_view(caption), opt_view(label)),
{
    if caption.is_none() && label.is_none() {
        return None;
    }
    Some(HeaderInfo { caption: trim_opt(caption), label: trim_opt(label) })
}

fn line_of(content: &[char]) -> (r: Option<Vec<char>>)
    ensures
        opt_view_chars(r) == first_line(content@),
{
    if content.len() == 0 {
        return None;
    }
    let nl: Vec<char> = vec!['\n'];
    assert(nl@ =~= seq!['\n']);
    match crate::text::find(content, &nl) {
        None => Some(slice_to_vec(content, 0, content.len())),
        Some(k) => {
            proof {
                assert(content@.subrange(k as int, k + 1)[0] == '\n');
            }
            if k > 0 && content[k - 1] == '\r' {
                Some(slice_to_vec(content, 0, k - 1))
            } else {
                Some(slice_to_vec(content, 0, k))
            }
        },
    }
}

pub open spec fn opt_view_chars(o: Option<Vec<char>>) -> Option<Seq<char>> {
    match o {
        Some(v) => Some(v@),
        None => None,
    }
}

/// The header that the first line of `content` holds: a line that starts with one of
/// `comment_types` and goes on with `chroma_code:` and an optional `caption:` and `label:`.
/// `None` where no comment type gives a caption or a label.
pub fn parse_header(content: &str, comment_types: &[&str]) -> (r: Option<HeaderInfo>)
    ensures
        header_view(r) == header_spec(content@, strs_view(comment_types@)),
{
    let cs = chars_of(content);
    let line = match line_of(&cs) {
        Some(l) => l,
        None => {
            return None;
        },
    };
    let ghost ps = strs_view(comment_types@);
    let mut i: usize = 0;
    assert(ps.skip(0) =~= ps);
    while i < comment_types.len()
        invariant
            i <= comment_types.len(),
            ps == strs_view(comment_types@),
            Some(line@) == first_line(content@),
            header_in_line(line@, ps) == header_in_line(line@, ps.skip(i as int)),
        decreases comment_types.len() - i,
    {
        let prefix = chars_of(comment_types[i]);
        proof {
            assert(ps.skip(i as int).drop_first() =~= ps.skip(i + 1));
            assert(ps.skip(i as int)[0] == prefix@);
        }
        if matches_at(&line, &prefix, 0) {
            let rest = slice_to_vec(&line, prefix.len(), line.len());
            let trimmed = string_of(&trim(&rest));
            let caps = named_captures(
                "chroma_code:\\s*(?:caption:\\s*(?P<caption>.*?))?\\s*(?:label:\\s*(?P<label>.*?))?$",
                trimmed.as_str(),
                "caption",
                "label",
            );
            if let Some((c, l)) = caps {
                let h = header_from_captures(c, l);
                if h.is_some() {
                    return h;
                }
            }
        }
        i = i + 1;
    }
    None
}

} // verus!
