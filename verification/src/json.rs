//! The response document grammar and its parser.
//!
//! The API answers with a JSON document of the shape
//! `{ "status": <string>, "code": <string, optional>,
//!    "articles": [ { "title": <string>, "url": <string>, ... }, ... ] }`.
//! Unknown fields are ignored, duplicate fields and missing required
//! fields are rejected, and nothing but whitespace may follow the
//! document. The grammar is defined by the `spec_parse_*` functions
//! below; the executable parser returns exactly what they say.
use vstd::prelude::*;

use crate::model::{opt_str_view, Article, ArticleView, NewsApiError, NewsApiResponse, ResponseView};

verus! {

pub open spec fn is_json_ws(c: char) -> bool {
    c == ' ' || c == '\t' || c == '\n' || c == '\r'
}

pub open spec fn is_digit(c: char) -> bool {
    '0' <= c && c <= '9'
}

/// Index of the first non-whitespace character at or after `i`.
pub open spec fn spec_skip_ws(s: Seq<char>, i: int) -> int
    decreases s.len() - i,
{
    if 0 <= i < s.len() && is_json_ws(s[i]) {
        spec_skip_ws(s, i + 1)
    } else {
        i
    }
}

pub open spec fn spec_skip_digits(s: Seq<char>, i: int) -> int
    decreases s.len() - i,
{
    if 0 <= i < s.len() && is_digit(s[i]) {
        spec_skip_digits(s, i + 1)
    } else {
        i
    }
}

/// Index after a JSON number starting at `i`, or None if no number starts there.
pub open spec fn spec_skip_number(s: Seq<char>, i: int) -> Option<int> {
    let j = if 0 <= i < s.len() && s[i] == '-' {
        i + 1
    } else {
        i
    };
    if 0 <= j < s.len() && is_digit(s[j]) {
        let k = if s[j] == '0' {
            j + 1
        } else {
            spec_skip_digits(s, j)
        };
        let m = if k < s.len() && s[k] == '.' {
            if k + 1 < s.len() && is_digit(s[k + 1]) {
                spec_skip_digits(s, k + 1)
            } else {
                -1
            }
        } else {
            k
        };
        if m < 0 {
            None
        } else {
            let e = if m < s.len() && (s[m] == 'e' || s[m] == 'E') {
                let p = if m + 1 < s.len() && (s[m + 1] == '+' || s[m + 1] == '-') {
                    m + 2
                } else {
                    m + 1
                };
                if p < s.len() && is_digit(s[p]) {
                    spec_skip_digits(s, p)
                } else {
                    -1
                }
            } else {
                m
            };
            if e < 0 {
                None
            } else {
                Some(e)
            }
        }
    } else {
        None
    }
}

pub open spec fn hex_digit_val(c: char) -> Option<u32> {
    let v = c as u32;
    if 48 <= v <= 57 {
        Some((v - 48) as u32)
    } else if 97 <= v <= 102 {
        Some((v - 87) as u32)
    } else if 65 <= v <= 70 {
        Some((v - 55) as u32)
    } else {
        None
    }
}

/// Value of the four hex digits at `i..i+4`, if they are all hex digits.
pub open spec fn spec_hex4(s: Seq<char>, i: int) -> Option<u32> {
    if 0 <= i && i + 4 <= s.len() {
        match (hex_digit_val(s[i]), hex_digit_val(s[i + 1]), hex_digit_val(s[i + 2]), hex_digit_val(
            s[i + 3],
        )) {
            (Some(a), Some(b), Some(c), Some(d)) => Some(
                ((a * 4096 + b * 256 + c * 16 + d)) as u32,
            ),
            _ => None,
        }
    } else {
        None
    }
}

/// Remainder of a JSON string body starting at `i` (the opening quote is
/// already consumed): the decoded characters so far are `acc`. Yields the
/// decoded string and the index after the closing quote.
pub open spec fn spec_parse_string_rest(s: Seq<char>, i: int, acc: Seq<char>) -> Option<
    (Seq<char>, int),
>
    decreases s.len() - i,
{
    if i < 0 || i >= s.len() {
        None
    } else {
        let c = s[i];
        if c == '"' {
            Some((acc, i + 1))
        } else if c == '\\' {
            if i + 1 >= s.len() {
                None
            } else {
                let e = s[i + 1];
                if e == '"' || e == '\\' || e == '/' {
                    spec_parse_string_rest(s, i + 2, acc.push(e))
                } else if e == 'b' {
                    spec_parse_string_rest(s, i + 2, acc.push('\u{8}'))
                } else if e == 'f' {
                    spec_parse_string_rest(s, i + 2, acc.push('\u{c}'))
                } else if e == 'n' {
                    spec_parse_string_rest(s, i + 2, acc.push('\n'))
                } else if e == 'r' {
                    spec_parse_string_rest(s, i + 2, acc.push('\r'))
                } else if e == 't' {
                    spec_parse_string_rest(s, i + 2, acc.push('\t'))
                } else if e == 'u' {
                    match spec_hex4(s, i + 2) {
                        None => None,
                        Some(h) => {
                            if 0xD800 <= h < 0xDC00 {
                                // a high surrogate must pair with a low one
                                if i + 8 <= s.len() && s[i + 6] == '\\' && s[i + 7] == 'u' {
                                    match spec_hex4(s, i + 8) {
                                        None => None,
                                        Some(l) => {
                                            if 0xDC00 <= l < 0xE000 {
                                                let cp = 0x10000 + (h - 0xD800) * 0x400 + (l
                                                    - 0xDC00);
                                                spec_parse_string_rest(
                                                    s,
                                                    i + 12,
                                                    acc.push((cp as u32) as char),
                                                )
                                            } else {
                                                None
                                            }
                                        },
                                    }
                                } else {
                                    None
                                }
                            } else if 0xDC00 <= h < 0xE000 {
                                None
                            } else {
                                spec_parse_string_rest(s, i + 6, acc.push(h as char))
                            }
                        },
                    }
                } else {
                    None
                }
            }
        } else if (c as u32) < 32 {
            None
        } else {
            spec_parse_string_rest(s, i + 1, acc.push(c))
        }
    }
}

/// A JSON string literal starting at `i`: its decoded characters and the
/// index after its closing quote.
pub open spec fn spec_parse_string(s: Seq<char>, i: int) -> Option<(Seq<char>, int)> {
    if 0 <= i < s.len() && s[i] == '"' {
        spec_parse_string_rest(s, i + 1, Seq::empty())
    } else {
        None
    }
}

/// Index after the literal `lit` if it stands at `i`.
pub open spec fn spec_expect_lit(s: Seq<char>, i: int, lit: Seq<char>) -> Option<int> {
    if 0 <= i && i + lit.len() <= s.len() && s.subrange(i, i + lit.len()) == lit {
        Some(i + lit.len())
    } else {
        None
    }
}

/// Index after an arbitrary JSON value starting at `i` (used to ignore
/// unknown fields). `fuel` bounds nesting and iteration; the top-level
/// parser supplies more fuel than any document can consume.
pub open spec fn spec_skip_value(s: Seq<char>, i: int, fuel: nat) -> Option<int>
    decreases fuel,
{
    if fuel == 0 {
        None
    } else if i < 0 || i >= s.len() {
        None
    } else {
        let c = s[i];
        if c == '"' {
            match spec_parse_string(s, i) {
                None => None,
                Some(p) => Some(p.1),
            }
        } else if c == '{' {
            spec_skip_members(s, i + 1, true, (fuel - 1) as nat)
        } else if c == '[' {
            spec_skip_elements(s, i + 1, true, (fuel - 1) as nat)
        } else if c == 't' {
            spec_expect_lit(s, i, "true"@)
        } else if c == 'f' {
            spec_expect_lit(s, i, "false"@)
        } else if c == 'n' {
            spec_expect_lit(s, i, "null"@)
        } else if c == '-' || is_digit(c) {
            spec_skip_number(s, i)
        } else {
            None
        }
    }
}

/// Members of an object being ignored; `i` is just after `{` or `,`.
pub open spec fn spec_skip_members(s: Seq<char>, i: int, first: bool, fuel: nat) -> Option<int>
    decreases fuel,
{
    if fuel == 0 {
        None
    } else {
        let j = spec_skip_ws(s, i);
        if first && j < s.len() && s[j] == '}' {
            Some(j + 1)
        } else {
            match spec_parse_string(s, j) {
                None => None,
                Some(p) => {
                    let m = spec_skip_ws(s, p.1);
                    if m < s.len() && s[m] == ':' {
                        match spec_skip_value(s, spec_skip_ws(s, m + 1), (fuel - 1) as nat) {
                            None => None,
                            Some(w) => {
                                let t = spec_skip_ws(s, w);
                                if t < s.len() && s[t] == ',' {
                                    spec_skip_members(s, t + 1, false, (fuel - 1) as nat)
                                } else if t < s.len() && s[t] == '}' {
                                    Some(t + 1)
                                } else {
                                    None
                                }
                            },
                        }
                    } else {
                        None
                    }
                },
            }
        }
    }
}

/// Elements of an array being ignored; `i` is just after `[` or `,`.
pub open spec fn spec_skip_elements(s: Seq<char>, i: int, first: bool, fuel: nat) -> Option<int>
    decreases fuel,
{
    if fuel == 0 {
        None
    } else {
        let j = spec_skip_ws(s, i);
        if first && j < s.len() && s[j] == ']' {
            Some(j + 1)
        } else {
            match spec_skip_value(s, j, (fuel - 1) as nat) {
                None => None,
                Some(w) => {
                    let t = spec_skip_ws(s, w);
                    if t < s.len() && s[t] == ',' {
                        spec_skip_elements(s, t + 1, false, (fuel - 1) as nat)
                    } else if t < s.len() && s[t] == ']' {
                        Some(t + 1)
                    } else {
                        None
                    }
                },
            }
        }
    }
}

/// Members of one article object; `i` is just after `{` or `,`.
/// `title` and `url` hold the fields seen so far; a duplicate or a
/// non-string value for a known field rejects the document.
pub open spec fn spec_parse_article_members(
    s: Seq<char>,
    i: int,
    title: Option<Seq<char>>,
    url: Option<Seq<char>>,
    first: bool,
    fuel: nat,
) -> Option<(ArticleView, int)>
    decreases fuel,
{
    if fuel == 0 {
        None
    } else {
        let j = spec_skip_ws(s, i);
        if first && j < s.len() && s[j] == '}' {
            spec_finish_article(title, url, j + 1)
        } else {
            match spec_parse_string(s, j) {
                None => None,
                Some(p) => {
                    let key = p.0;
                    let m = spec_skip_ws(s, p.1);
                    if m < s.len() && s[m] == ':' {
                        let v = spec_skip_ws(s, m + 1);
                        if key == "title"@ {
                            if title is Some {
                                None
                            } else {
                                match spec_parse_string(s, v) {
                                    None => None,
                                    Some(q) => spec_parse_article_sep(
                                        s,
                                        q.1,
                                        Some(q.0),
                                        url,
                                        (fuel - 1) as nat,
                                    ),
                                }
                            }
                        } else if key == "url"@ {
                            if url is Some {
                                None
                            } else {
                                match spec_parse_string(s, v) {
                                    None => None,
                                    Some(q) => spec_parse_article_sep(
                                        s,
                                        q.1,
                                        title,
                                        Some(q.0),
                                        (fuel - 1) as nat,
                                    ),
                                }
                            }
                        } else {
                            match spec_skip_value(s, v, (fuel - 1) as nat) {
                                None => None,
                                Some(w) => spec_parse_article_sep(
                                    s,
                                    w,
                                    title,
                                    url,
                                    (fuel - 1) as nat,
                                ),
                            }
                        }
                    } else {
                        None
                    }
                },
            }
        }
    }
}

/// After one article member: a comma continues the object, a brace closes it.
pub open spec fn spec_parse_article_sep(
    s: Seq<char>,
    i: int,
    title: Option<Seq<char>>,
    url: Option<Seq<char>>,
    fuel: nat,
) -> Option<(ArticleView, int)>
    decreases fuel,
{
    if fuel == 0 {
        None
    } else {
        let t = spec_skip_ws(s, i);
        if t < s.len() && s[t] == ',' {
            spec_parse_article_members(s, t + 1, title, url, false, (fuel - 1) as nat)
        } else if t < s.len() && s[t] == '}' {
            spec_finish_article(title, url, t + 1)
        } else {
            None
        }
    }
}

/// An article is complete only with both required fields present.
pub open spec fn spec_finish_article(
    title: Option<Seq<char>>,
    url: Option<Seq<char>>,
    end: int,
) -> Option<(ArticleView, int)> {
    if title is Some && url is Some {
        Some((ArticleView { title: title->Some_0, url: url->Some_0 }, end))
    } else {
        None
    }
}

/// Elements of the articles array; `i` is just after `[` or `,`.
pub open spec fn spec_parse_articles(
    s: Seq<char>,
    i: int,
    acc: Seq<ArticleView>,
    first: bool,
    fuel: nat,
) -> Option<(Seq<ArticleView>, int)>
    decreases fuel,
{
    if fuel == 0 {
        None
    } else {
        let j = spec_skip_ws(s, i);
        if first && j < s.len() && s[j] == ']' {
            Some((acc, j + 1))
        } else if j < s.len() && s[j] == '{' {
            match spec_parse_article_members(s, j + 1, None, None, true, (fuel - 1) as nat) {
                None => None,
                Some(p) => {
                    let t = spec_skip_ws(s, p.1);
                    if t < s.len() && s[t] == ',' {
                        spec_parse_articles(s, t + 1, acc.push(p.0), false, (fuel - 1) as nat)
                    } else if t < s.len() && s[t] == ']' {
                        Some((acc.push(p.0), t + 1))
                    } else {
                        None
                    }
                },
            }
        } else {
            None
        }
    }
}

/// Members of the response object; `i` is just after `{` or `,`.
/// `st` is the status seen so far, `cd` the code member (absent, null or
/// a string), `arts` the articles. Duplicates and wrongly typed values
/// for the known fields reject the document.
pub open spec fn spec_parse_resp_members(
    s: Seq<char>,
    i: int,
    st: Option<Seq<char>>,
    cd: Option<Option<Seq<char>>>,
    arts: Option<Seq<ArticleView>>,
    first: bool,
    fuel: nat,
) -> Option<(ResponseView, int)>
    decreases fuel,
{
    if fuel == 0 {
        None
    } else {
        let j = spec_skip_ws(s, i);
        if first && j < s.len() && s[j] == '}' {
            spec_finish_response(st, cd, arts, j + 1)
        } else {
            match spec_parse_string(s, j) {
                None => None,
                Some(p) => {
                    let m = spec_skip_ws(s, p.1);
                    if m < s.len() && s[m] == ':' {
                        spec_parse_resp_field(
                            s,
                            spec_skip_ws(s, m + 1),
                            p.0,
                            st,
                            cd,
                            arts,
                            (fuel - 1) as nat,
                        )
                    } else {
                        None
                    }
                },
            }
        }
    }
}

/// One member of the response object whose key has been read: the value
/// starts at `v`. A known key takes its typed value; any other value is
/// ignored.
pub open spec fn spec_parse_resp_field(
    s: Seq<char>,
    v: int,
    key: Seq<char>,
    st: Option<Seq<char>>,
    cd: Option<Option<Seq<char>>>,
    arts: Option<Seq<ArticleView>>,
    fuel: nat,
) -> Option<(ResponseView, int)>
    decreases fuel,
{
    if fuel == 0 {
        None
    } else if key == "status"@ {
        if st is Some {
            None
        } else {
            match spec_parse_string(s, v) {
                None => None,
                Some(q) => spec_parse_resp_sep(s, q.1, Some(q.0), cd, arts, (fuel - 1) as nat),
            }
        }
    } else if key == "code"@ {
        if cd is Some {
            None
        } else if v < s.len() && s[v] == 'n' {
            match spec_expect_lit(s, v, "null"@) {
                None => None,
                Some(w) => spec_parse_resp_sep(s, w, st, Some(None), arts, (fuel - 1) as nat),
            }
        } else {
            match spec_parse_string(s, v) {
                None => None,
                Some(q) => spec_parse_resp_sep(
                    s,
                    q.1,
                    st,
                    Some(Some(q.0)),
                    arts,
                    (fuel - 1) as nat,
                ),
            }
        }
    } else if key == "articles"@ {
        if arts is Some {
            None
        } else if v < s.len() && s[v] == '[' {
            match spec_parse_articles(s, v + 1, Seq::empty(), true, (fuel - 1) as nat) {
                None => None,
                Some(q) => spec_parse_resp_sep(s, q.1, st, cd, Some(q.0), (fuel - 1) as nat),
            }
        } else {
            None
        }
    } else {
        match spec_skip_value(s, v, (fuel - 1) as nat) {
            None => None,
            Some(w) => spec_parse_resp_sep(s, w, st, cd, arts, (fuel - 1) as nat),
        }
    }
}

/// After one response member: a comma continues the object, a brace closes it.
pub open spec fn spec_parse_resp_sep(
    s: Seq<char>,
    i: int,
    st: Option<Seq<char>>,
    cd: Option<Option<Seq<char>>>,
    arts: Option<Seq<ArticleView>>,
    fuel: nat,
) -> Option<(ResponseView, int)>
    decreases fuel,
{
    if fuel == 0 {
        None
    } else {
        let t = spec_skip_ws(s, i);
        if t < s.len() && s[t] == ',' {
            spec_parse_resp_members(s, t + 1, st, cd, arts, false, (fuel - 1) as nat)
        } else if t < s.len() && s[t] == '}' {
            spec_finish_response(st, cd, arts, t + 1)
        } else {
            None
        }
    }
}

/// A response is complete only with `status` and `articles` present;
/// an absent or null `code` member both mean "no code".
pub open spec fn spec_finish_response(
    st: Option<Seq<char>>,
    cd: Option<Option<Seq<char>>>,
    arts: Option<Seq<ArticleView>>,
    end: int,
) -> Option<(ResponseView, int)> {
    if st is Some && arts is Some {
        Some(
            (
                ResponseView {
                    status: st->Some_0,
                    code: match cd {
                        Some(c) => c,
                        None => None,
                    },
                    articles: arts->Some_0,
                },
                end,
            ),
        )
    } else {
        None
    }
}

/// The whole document: one response object, then only whitespace.
pub open spec fn spec_parse_response(s: Seq<char>) -> Option<ResponseView> {
    let i0 = spec_skip_ws(s, 0);
    if i0 < s.len() && s[i0] == '{' {
        match spec_parse_resp_members(s, i0 + 1, None, None, None, true, s.len() as nat) {
            None => None,
            Some(p) => {
                if spec_skip_ws(s, p.1) == s.len() {
                    Some(p.0)
                } else {
                    None
                }
            },
        }
    } else {
        None
    }
}


/// The content of an optional code member (absent, null or a string).
pub open spec fn opt2_str_view(o: Option<Option<String>>) -> Option<Option<Seq<char>>> {
    match o {
        Some(x) => Some(opt_str_view(x)),
        None => None,
    }
}

/// The content of an optional article vector.
pub open spec fn opt_articles_view(o: Option<Vec<Article>>) -> Option<Seq<ArticleView>> {
    match o {
        Some(v) => Some(crate::model::articles_view(v@)),
        None => None,
    }
}

/// Relies on String::push: appends one character at the end of the string.
#[verifier::external_body]
fn push_char(s: &mut String, c: char)
    ensures
        final(s)@ == old(s)@.push(c),
{
    s.push(c);
}

/// Relies on char::from_u32: yields the character with the given code
/// point; it is Some exactly on the Unicode scalar values, which the
/// precondition restates.
#[verifier::external_body]
fn char_from_u32(v: u32) -> (r: char)
    requires
        v < 0xD800 || (0xE000 <= v && v <= 0x10FFFF),
    ensures
        r == (v as char),
{
    char::from_u32(v).unwrap()
}

fn is_ws_char(c: char) -> (b: bool)
    ensures
        b == is_json_ws(c),
{
    c == ' ' || c == '\t' || c == '\n' || c == '\r'
}

fn is_digit_char(c: char) -> (b: bool)
    ensures
        b == is_digit(c),
{
    '0' <= c && c <= '9'
}

fn key_is(key: &String, lit: &str) -> (b: bool)
    ensures
        b == (key@ == lit@),
{
    let o = lit.to_owned();
    *key == o
}

fn take_ws(s: &Vec<char>, i: usize) -> (r: usize)
    requires
        i <= s@.len(),
    ensures
        r as int == spec_skip_ws(s@, i as int),
        i <= r <= s@.len(),
    decreases s@.len() - i,
{
    if i < s.len() && is_ws_char(s[i]) {
        take_ws(s, i + 1)
    } else {
        i
    }
}

fn take_digits(s: &Vec<char>, i: usize) -> (r: usize)
    requires
        i <= s@.len(),
    ensures
        r as int == spec_skip_digits(s@, i as int),
        i <= r <= s@.len(),
    decreases s@.len() - i,
{
    if i < s.len() && is_digit_char(s[i]) {
        take_digits(s, i + 1)
    } else {
        i
    }
}

fn take_number(s: &Vec<char>, i: usize) -> (r: Option<usize>)
    requires
        i <= s@.len(),
    ensures
        match spec_skip_number(s@, i as int) {
            Some(j) => r is Some && r->Some_0 as int == j && r->Some_0 <= s@.len(),
            None => r is None,
        },
{
    let j = if i < s.len() && s[i] == '-' {
        i + 1
    } else {
        i
    };
    if j < s.len() && is_digit_char(s[j]) {
        let k = if s[j] == '0' {
            j + 1
        } else {
            take_digits(s, j)
        };
        let m_opt: Option<usize> = if k < s.len() && s[k] == '.' {
            if k + 1 < s.len() && is_digit_char(s[k + 1]) {
                Some(take_digits(s, k + 1))
            } else {
                None
            }
        } else {
            Some(k)
        };
        match m_opt {
            None => None,
            Some(m) => {
                let e_opt: Option<usize> = if m < s.len() && (s[m] == 'e' || s[m] == 'E') {
                    let p = if m + 1 < s.len() && (s[m + 1] == '+' || s[m + 1] == '-') {
                        m + 2
                    } else {
                        m + 1
                    };
                    if p < s.len() && is_digit_char(s[p]) {
                        Some(take_digits(s, p))
                    } else {
                        None
                    }
                } else {
                    Some(m)
                };
                e_opt
            },
        }
    } else {
        None
    }
}

fn hexv(c: char) -> (r: Option<u32>)
    ensures
        r == hex_digit_val(c),
{
    let v = c as u32;
    if 48 <= v && v <= 57 {
        Some(v - 48)
    } else if 97 <= v && v <= 102 {
        Some(v - 87)
    } else if 65 <= v && v <= 70 {
        Some(v - 55)
    } else {
        None
    }
}

fn take_hex4(s: &Vec<char>, i: usize) -> (r: Option<u32>)
    requires
        i <= s@.len(),
    ensures
        r == spec_hex4(s@, i as int),
{
    if s.len() - i >= 4 {
        let a = hexv(s[i]);
        let b = hexv(s[i + 1]);
        let c = hexv(s[i + 2]);
        let d = hexv(s[i + 3]);
        match (a, b, c, d) {
            (Some(a), Some(b), Some(c), Some(d)) => Some(a * 4096 + b * 256 + c * 16 + d),
            _ => None,
        }
    } else {
        None
    }
}

fn take_string_rest(s: &Vec<char>, i: usize, acc: &mut String) -> (r: Option<usize>)
    requires
        i <= s@.len(),
    ensures
        match spec_parse_string_rest(s@, i as int, old(acc)@) {
            Some(p) => r is Some && r->Some_0 as int == p.1 && r->Some_0 <= s@.len()
                && final(acc)@ == p.0,
            None => r is None,
        },
    decreases s@.len() - i,
{
    if i >= s.len() {
        None
    } else {
        let c = s[i];
        if c == '"' {
            Some(i + 1)
        } else if c == '\\' {
            if i + 1 >= s.len() {
                None
            } else {
                let e = s[i + 1];
                if e == '"' || e == '\\' || e == '/' {
                    push_char(acc, e);
                    take_string_rest(s, i + 2, acc)
                } else if e == 'b' {
                    push_char(acc, '\u{8}');
                    take_string_rest(s, i + 2, acc)
                } else if e == 'f' {
                    push_char(acc, '\u{c}');
                    take_string_rest(s, i + 2, acc)
                } else if e == 'n' {
                    push_char(acc, '\n');
                    take_string_rest(s, i + 2, acc)
                } else if e == 'r' {
                    push_char(acc, '\r');
                    take_string_rest(s, i + 2, acc)
                } else if e == 't' {
                    push_char(acc, '\t');
                    take_string_rest(s, i + 2, acc)
                } else if e == 'u' {
                    match take_hex4(s, i + 2) {
                        None => None,
                        Some(h) => {
                            if 0xD800 <= h && h < 0xDC00 {
                                if s.len() - i >= 8 && s[i + 6] == '\\' && s[i + 7] == 'u' {
                                    match take_hex4(s, i + 8) {
                                        None => None,
                                        Some(l) => {
                                            if 0xDC00 <= l && l < 0xE000 {
                                                let cp: u32 = 0x10000 + (h - 0xD800) * 0x400 + (l
                                                    - 0xDC00);
                                                push_char(acc, char_from_u32(cp));
                                                take_string_rest(s, i + 12, acc)
                                            } else {
                                                None
                                            }
                                        },
                                    }
                                } else {
                                    None
                                }
                            } else if 0xDC00 <= h && h < 0xE000 {
                                None
                            } else {
                                push_char(acc, char_from_u32(h));
                                take_string_rest(s, i + 6, acc)
                            }
                        },
                    }
                } else {
                    None
                }
            }
        } else if (c as u32) < 32 {
            None
        } else {
            push_char(acc, c);
            take_string_rest(s, i + 1, acc)
        }
    }
}

fn take_string(s: &Vec<char>, i: usize) -> (r: Option<(String, usize)>)
    requires
        i <= s@.len(),
    ensures
        match spec_parse_string(s@, i as int) {
            Some(p) => r is Some && r->Some_0.0@ == p.0 && r->Some_0.1 as int == p.1
                && r->Some_0.1 <= s@.len(),
            None => r is None,
        },
{
    if i < s.len() && s[i] == '"' {
        let mut acc = String::new();
        match take_string_rest(s, i + 1, &mut acc) {
            Some(j) => Some((acc, j)),
            None => None,
        }
    } else {
        None
    }
}

fn take_lit(s: &Vec<char>, i: usize, lit: &[char]) -> (r: Option<usize>)
    requires
        i <= s@.len(),
    ensures
        match spec_expect_lit(s@, i as int, lit@) {
            Some(j) => r is Some && r->Some_0 as int == j && r->Some_0 <= s@.len(),
            None => r is None,
        },
{
    let n = lit.len();
    if s.len() - i < n {
        None
    } else {
        let mut k: usize = 0;
        while k < n
            invariant
                i + n <= s@.len(),
                i + n <= usize::MAX,
                n == lit@.len(),
                k <= n,
                forall|q: int| 0 <= q < k ==> s@[i + q] == lit@[q],
            decreases n - k,
        {
            if s[i + k] != lit[k] {
                proof {
                    assert(s@.subrange(i as int, i + n) != lit@) by {
                        assert(s@.subrange(i as int, i + n)[k as int] != lit@[k as int]);
                    }
                }
                return None;
            }
            k += 1;
        }
        proof {
            assert(s@.subrange(i as int, i + n) =~= lit@);
        }
        Some(i + n)
    }
}

fn skip_value_x(s: &Vec<char>, i: usize, fuel: usize) -> (r: Option<usize>)
    requires
        i <= s@.len(),
    ensures
        match spec_skip_value(s@, i as int, fuel as nat) {
            Some(j) => r is Some && r->Some_0 as int == j && r->Some_0 <= s@.len(),
            None => r is None,
        },
    decreases fuel,
{
    if fuel == 0 {
        None
    } else if i >= s.len() {
        None
    } else {
        let c = s[i];
        if c == '"' {
            match take_string(s, i) {
                None => None,
                Some(p) => Some(p.1),
            }
        } else if c == '{' {
            skip_members_x(s, i + 1, true, fuel - 1)
        } else if c == '[' {
            skip_elements_x(s, i + 1, true, fuel - 1)
        } else if c == 't' {
            let lit = ['t', 'r', 'u', 'e'];
            proof {
                reveal_strlit("true");
                assert(lit@ =~= "true"@);
            }
            take_lit(s, i, &lit)
        } else if c == 'f' {
            let lit = ['f', 'a', 'l', 's', 'e'];
            proof {
                reveal_strlit("false");
                assert(lit@ =~= "false"@);
            }
            take_lit(s, i, &lit)
        } else if c == 'n' {
            let lit = ['n', 'u', 'l', 'l'];
            proof {
                reveal_strlit("null");
                assert(lit@ =~= "null"@);
            }
            take_lit(s, i, &lit)
        } else if c == '-' || is_digit_char(c) {
            take_number(s, i)
        } else {
            None
        }
    }
}

fn skip_members_x(s: &Vec<char>, i: usize, first: bool, fuel: usize) -> (r: Option<usize>)
    requires
        i <= s@.len(),
    ensures
        match spec_skip_members(s@, i as int, first, fuel as nat) {
            Some(j) => r is Some && r->Some_0 as int == j && r->Some_0 <= s@.len(),
            None => r is None,
        },
    decreases fuel,
{
    if fuel == 0 {
        None
    } else {
        let j = take_ws(s, i);
        if first && j < s.len() && s[j] == '}' {
            Some(j + 1)
        } else {
            match take_string(s, j) {
                None => None,
                Some(p) => {
                    let m = take_ws(s, p.1);
                    if m < s.len() && s[m] == ':' {
                        let v = take_ws(s, m + 1);
                        match skip_value_x(s, v, fuel - 1) {
                            None => None,
                            Some(w) => {
                                let t = take_ws(s, w);
                                if t < s.len() && s[t] == ',' {
                                    skip_members_x(s, t + 1, false, fuel - 1)
                                } else if t < s.len() && s[t] == '}' {
                                    Some(t + 1)
                                } else {
                                    None
                                }
                            },
                        }
                    } else {
                        None
                    }
                },
            }
        }
    }
}

fn skip_elements_x(s: &Vec<char>, i: usize, first: bool, fuel: usize) -> (r: Option<usize>)
    requires
        i <= s@.len(),
    ensures
        match spec_skip_elements(s@, i as int, first, fuel as nat) {
            Some(j) => r is Some && r->Some_0 as int == j && r->Some_0 <= s@.len(),
            None => r is None,
        },
    decreases fuel,
{
    if fuel == 0 {
        None
    } else {
        let j = take_ws(s, i);
        if first && j < s.len() && s[j] == ']' {
            Some(j + 1)
        } else {
            match skip_value_x(s, j, fuel - 1) {
                None => None,
                Some(w) => {
                    let t = take_ws(s, w);
                    if t < s.len() && s[t] == ',' {
                        skip_elements_x(s, t + 1, false, fuel - 1)
                    } else if t < s.len() && s[t] == ']' {
                        Some(t + 1)
                    } else {
                        None
                    }
                },
            }
        }
    }
}


#[verifier::rlimit(60)]
fn take_article_members(
    s: &Vec<char>,
    i: usize,
    title: Option<String>,
    url: Option<String>,
    first: bool,
    fuel: usize,
) -> (r: Option<(Article, usize)>)
    requires
        i <= s@.len(),
    ensures
        match spec_parse_article_members(
            s@,
            i as int,
            opt_str_view(title),
            opt_str_view(url),
            first,
            fuel as nat,
        ) {
            Some(p) => r is Some && r->Some_0.0@ == p.0 && r->Some_0.1 as int == p.1
                && r->Some_0.1 <= s@.len(),
            None => r is None,
        },
    decreases fuel,
{
    if fuel == 0 {
        None
    } else {
        let j = take_ws(s, i);
        if first && j < s.len() && s[j] == '}' {
            finish_article(title, url, j + 1)
        } else {
            match take_string(s, j) {
                None => None,
                Some(p) => {
                    let (key, k) = p;
                    let m = take_ws(s, k);
                    if m < s.len() && s[m] == ':' {
                        let v = take_ws(s, m + 1);
                        if key_is(&key, "title") {
                            if title.is_some() {
                                None
                            } else {
                                match take_string(s, v) {
                                    None => None,
                                    Some(q) => take_article_sep(s, q.1, Some(q.0), url, fuel - 1),
                                }
                            }
                        } else if key_is(&key, "url") {
                            if url.is_some() {
                                None
                            } else {
                                match take_string(s, v) {
                                    None => None,
                                    Some(q) => take_article_sep(s, q.1, title, Some(q.0), fuel - 1),
                                }
                            }
                        } else {
                            match skip_value_x(s, v, fuel - 1) {
                                None => None,
                                Some(w) => take_article_sep(s, w, title, url, fuel - 1),
                            }
                        }
                    } else {
                        None
                    }
                },
            }
        }
    }
}

fn take_article_sep(
    s: &Vec<char>,
    i: usize,
    title: Option<String>,
    url: Option<String>,
    fuel: usize,
) -> (r: Option<(Article, usize)>)
    requires
        i <= s@.len(),
    ensures
        match spec_parse_article_sep(
            s@,
            i as int,
            opt_str_view(title),
            opt_str_view(url),
            fuel as nat,
        ) {
            Some(p) => r is Some && r->Some_0.0@ == p.0 && r->Some_0.1 as int == p.1
                && r->Some_0.1 <= s@.len(),
            None => r is None,
        },
    decreases fuel,
{
    if fuel == 0 {
        None
    } else {
        let t = take_ws(s, i);
        if t < s.len() && s[t] == ',' {
            take_article_members(s, t + 1, title, url, false, fuel - 1)
        } else if t < s.len() && s[t] == '}' {
            finish_article(title, url, t + 1)
        } else {
            None
        }
    }
}

fn finish_article(title: Option<String>, url: Option<String>, end: usize) -> (r: Option<
    (Article, usize),
>)
    ensures
        match spec_finish_article(opt_str_view(title), opt_str_view(url), end as int) {
            Some(p) => r is Some && r->Some_0.0@ == p.0 && r->Some_0.1 as int == p.1
                && r->Some_0.1 == end,
            None => r is None,
        },
{
    match (title, url) {
        (Some(t), Some(u)) => Some((Article::new(t, u), end)),
        _ => None,
    }
}

fn take_articles(s: &Vec<char>, i: usize, acc: Vec<Article>, first: bool, fuel: usize) -> (r:
    Option<(Vec<Article>, usize)>)
    requires
        i <= s@.len(),
    ensures
        match spec_parse_articles(
            s@,
            i as int,
            crate::model::articles_view(acc@),
            first,
            fuel as nat,
        ) {
            Some(p) => r is Some && crate::model::articles_view(r->Some_0.0@) == p.0
                && r->Some_0.1 as int == p.1 && r->Some_0.1 <= s@.len(),
            None => r is None,
        },
    decreases fuel,
{
    if fuel == 0 {
        None
    } else {
        let j = take_ws(s, i);
        if first && j < s.len() && s[j] == ']' {
            Some((acc, j + 1))
        } else if j < s.len() && s[j] == '{' {
            match take_article_members(s, j + 1, None, None, true, fuel - 1) {
                None => None,
                Some(p) => {
                    let (a, w) = p;
                    let t = take_ws(s, w);
                    if t < s.len() && s[t] == ',' {
                        let mut acc2 = acc;
                        let ghost accv = crate::model::articles_view(acc2@);
                        acc2.push(a);
                        proof {
                            assert(crate::model::articles_view(acc2@) =~= accv.push(a@));
                        }
                        take_articles(s, t + 1, acc2, false, fuel - 1)
                    } else if t < s.len() && s[t] == ']' {
                        let mut acc2 = acc;
                        let ghost accv = crate::model::articles_view(acc2@);
                        acc2.push(a);
                        proof {
                            assert(crate::model::articles_view(acc2@) =~= accv.push(a@));
                        }
                        Some((acc2, t + 1))
                    } else {
                        None
                    }
                },
            }
        } else {
            None
        }
    }
}

#[verifier::rlimit(100)]
#[verifier::spinoff_prover]
fn take_resp_members(
    s: &Vec<char>,
    i: usize,
    st: Option<String>,
    cd: Option<Option<String>>,
    arts: Option<Vec<Article>>,
    first: bool,
    fuel: usize,
) -> (r: Option<(NewsApiResponse, usize)>)
    requires
        i <= s@.len(),
    ensures
        match spec_parse_resp_members(
            s@,
            i as int,
            opt_str_view(st),
            opt2_str_view(cd),
            opt_articles_view(arts),
            first,
            fuel as nat,
        ) {
            Some(p) => r is Some && r->Some_0.0@ == p.0 && r->Some_0.1 as int == p.1
                && r->Some_0.1 <= s@.len(),
            None => r is None,
        },
    decreases fuel, 3int,
{
    if fuel == 0 {
        None
    } else {
        let j = take_ws(s, i);
        if first && j < s.len() && s[j] == '}' {
            finish_response(st, cd, arts, j + 1)
        } else {
            match take_string(s, j) {
                None => None,
                Some(p) => {
                    let (key, k) = p;
                    let m = take_ws(s, k);
                    if m < s.len() && s[m] == ':' {
                        let v = take_ws(s, m + 1);
                        take_resp_field(s, v, &key, st, cd, arts, fuel - 1)
                    } else {
                        None
                    }
                },
            }
        }
    }
}

#[verifier::rlimit(60)]
#[verifier::spinoff_prover]
fn take_resp_field(
    s: &Vec<char>,
    v: usize,
    key: &String,
    st: Option<String>,
    cd: Option<Option<String>>,
    arts: Option<Vec<Article>>,
    fuel: usize,
) -> (r: Option<(NewsApiResponse, usize)>)
    requires
        v <= s@.len(),
    ensures
        match spec_parse_resp_field(
            s@,
            v as int,
            key@,
            opt_str_view(st),
            opt2_str_view(cd),
            opt_articles_view(arts),
            fuel as nat,
        ) {
            Some(p) => r is Some && r->Some_0.0@ == p.0 && r->Some_0.1 as int == p.1
                && r->Some_0.1 <= s@.len(),
            None => r is None,
        },
    decreases fuel, 2int,
{
    if fuel == 0 {
        None
    } else {
        if key_is(key, "status") {
            if st.is_some() {
                None
            } else {
                match take_string(s, v) {
                    None => None,
                    Some(q) => take_resp_sep(s, q.1, Some(q.0), cd, arts, fuel - 1),
                }
            }
        } else if key_is(key, "code") {
            proof {
                assert(key@ == "code"@);
            }
            take_resp_code_field(s, v, st, cd, arts, fuel)
        } else if key_is(key, "articles") {
            proof {
                assert(key@ == "articles"@);
            }
            take_resp_articles_field(s, v, st, cd, arts, fuel)
        } else {
            match skip_value_x(s, v, fuel - 1) {
                None => None,
                Some(w) => take_resp_sep(s, w, st, cd, arts, fuel - 1),
            }
        }
    }
}

#[verifier::rlimit(60)]
#[verifier::spinoff_prover]
fn take_resp_code_field(
    s: &Vec<char>,
    v: usize,
    st: Option<String>,
    cd: Option<Option<String>>,
    arts: Option<Vec<Article>>,
    fuel: usize,
) -> (r: Option<(NewsApiResponse, usize)>)
    requires
        v <= s@.len(),
        fuel >= 1,
    ensures
        match spec_parse_resp_field(
            s@,
            v as int,
            "code"@,
            opt_str_view(st),
            opt2_str_view(cd),
            opt_articles_view(arts),
            fuel as nat,
        ) {
            Some(p) => r is Some && r->Some_0.0@ == p.0 && r->Some_0.1 as int == p.1
                && r->Some_0.1 <= s@.len(),
            None => r is None,
        },
    decreases fuel, 1int,
{
    proof {
        reveal_strlit("code");
        reveal_strlit("status");
        reveal_strlit("articles");
        assert("code"@ != "status"@) by {
            assert("code"@.len() == 4 && "status"@.len() == 6);
        }
        assert("code"@ != "articles"@) by {
            assert("articles"@.len() == 8);
        }
    }
    if cd.is_some() {
        None
    } else if v < s.len() && s[v] == 'n' {
        let lit = ['n', 'u', 'l', 'l'];
        proof {
            reveal_strlit("null");
            assert(lit@ =~= "null"@);
        }
        match take_lit(s, v, &lit) {
            None => None,
            Some(w) => take_resp_sep(s, w, st, Some(None), arts, fuel - 1),
        }
    } else {
        match take_string(s, v) {
            None => None,
            Some(q) => take_resp_sep(s, q.1, st, Some(Some(q.0)), arts, fuel - 1),
        }
    }
}

#[verifier::rlimit(60)]
#[verifier::spinoff_prover]
fn take_resp_articles_field(
    s: &Vec<char>,
    v: usize,
    st: Option<String>,
    cd: Option<Option<String>>,
    arts: Option<Vec<Article>>,
    fuel: usize,
) -> (r: Option<(NewsApiResponse, usize)>)
    requires
        v <= s@.len(),
        fuel >= 1,
    ensures
        match spec_parse_resp_field(
            s@,
            v as int,
            "articles"@,
            opt_str_view(st),
            opt2_str_view(cd),
            opt_articles_view(arts),
            fuel as nat,
        ) {
            Some(p) => r is Some && r->Some_0.0@ == p.0 && r->Some_0.1 as int == p.1
                && r->Some_0.1 <= s@.len(),
            None => r is None,
        },
    decreases fuel, 1int,
{
    proof {
        reveal_strlit("code");
        reveal_strlit("status");
        reveal_strlit("articles");
        assert("articles"@ != "status"@) by {
            assert("articles"@.len() == 8 && "status"@.len() == 6);
        }
        assert("articles"@ != "code"@) by {
            assert("code"@.len() == 4);
        }
    }
    if arts.is_some() {
        None
    } else if v < s.len() && s[v] == '[' {
        proof {
            assert(crate::model::articles_view(Seq::<Article>::empty())
                =~= Seq::<ArticleView>::empty());
        }
        match take_articles(s, v + 1, Vec::new(), true, fuel - 1) {
            None => None,
            Some(q) => take_resp_sep(s, q.1, st, cd, Some(q.0), fuel - 1),
        }
    } else {
        None
    }
}

fn take_resp_sep(
    s: &Vec<char>,
    i: usize,
    st: Option<String>,
    cd: Option<Option<String>>,
    arts: Option<Vec<Article>>,
    fuel: usize,
) -> (r: Option<(NewsApiResponse, usize)>)
    requires
        i <= s@.len(),
    ensures
        match spec_parse_resp_sep(
            s@,
            i as int,
            opt_str_view(st),
            opt2_str_view(cd),
            opt_articles_view(arts),
            fuel as nat,
        ) {
            Some(p) => r is Some && r->Some_0.0@ == p.0 && r->Some_0.1 as int == p.1
                && r->Some_0.1 <= s@.len(),
            None => r is None,
        },
    decreases fuel, 0int,
{
    if fuel == 0 {
        None
    } else {
        let t = take_ws(s, i);
        if t < s.len() && s[t] == ',' {
            take_resp_members(s, t + 1, st, cd, arts, false, fuel - 1)
        } else if t < s.len() && s[t] == '}' {
            finish_response(st, cd, arts, t + 1)
        } else {
            None
        }
    }
}

fn finish_response(
    st: Option<String>,
    cd: Option<Option<String>>,
    arts: Option<Vec<Article>>,
    end: usize,
) -> (r: Option<(NewsApiResponse, usize)>)
    ensures
        match spec_finish_response(
            opt_str_view(st),
            opt2_str_view(cd),
            opt_articles_view(arts),
            end as int,
        ) {
            Some(p) => r is Some && r->Some_0.0@ == p.0 && r->Some_0.1 as int == p.1
                && r->Some_0.1 == end,
            None => r is None,
        },
{
    match (st, arts) {
        (Some(status), Some(articles)) => {
            let code: Option<String> = match cd {
                Some(Some(c)) => Some(c),
                _ => None,
            };
            Some((NewsApiResponse::new(status, articles, code), end))
        },
        _ => None,
    }
}

/// The characters of a string slice, in order.
fn chars_of(s: &str) -> (r: Vec<char>)
    ensures
        r@ == s@,
{
    let n = s.unicode_len();
    let mut v: Vec<char> = Vec::new();
    let mut i: usize = 0;
    while i < n
        invariant
            n == s@.len(),
            i <= n,
            v@ == s@.subrange(0, i as int),
        decreases n - i,
    {
        let c = s.get_char(i);
        v.push(c);
        proof {
            assert(v@ =~= s@.subrange(0, i + 1));
        }
        i += 1;
    }
    proof {
        assert(v@ =~= s@);
    }
    v
}

/// What parsing owes: the typed response exactly when the body matches
/// the grammar, and `ArticleParseFailed` on every other body.
pub open spec fn parse_outcome_correct(
    body: Seq<char>,
    r: Result<NewsApiResponse, NewsApiError>,
) -> bool {
    match spec_parse_response(body) {
        Some(rv) => r is Ok && r->Ok_0@ == rv,
        None => r is Err && r->Err_0 is ArticleParseFailed,
    }
}

/// Parses a raw body strictly against the response shape. It returns the
/// typed response exactly when the body matches the grammar
/// (`spec_parse_response`), and `ArticleParseFailed` otherwise.
pub fn parse_news_response(body: &str) -> (r: Result<NewsApiResponse, NewsApiError>)
    ensures
        parse_outcome_correct(body@, r),
{
    let cs = chars_of(body);
    let i0 = take_ws(&cs, 0);
    if i0 < cs.len() && cs[i0] == '{' {
        let fuel = cs.len();
        match take_resp_members(&cs, i0 + 1, None, None, None, true, fuel) {
            Some(p) => {
                let (resp, j) = p;
                let k = take_ws(&cs, j);
                if k == cs.len() {
                    Ok(resp)
                } else {
                    Err(NewsApiError::ArticleParseFailed("unexpected trailing text".to_owned()))
                }
            },
            None => Err(NewsApiError::ArticleParseFailed("malformed response body".to_owned())),
        }
    } else {
        Err(NewsApiError::ArticleParseFailed("malformed response body".to_owned()))
    }
}


/// The serialized form of one character inside a JSON string: itself,
/// unless JSON requires an escape.
pub open spec fn spec_escape_char(c: char) -> Seq<char> {
    if c == '"' {
        seq!['\\', '"']
    } else if c == '\\' {
        seq!['\\', '\\']
    } else if c == '\u{8}' {
        seq!['\\', 'b']
    } else if c == '\u{c}' {
        seq!['\\', 'f']
    } else if c == '\n' {
        seq!['\\', 'n']
    } else if c == '\r' {
        seq!['\\', 'r']
    } else if c == '\t' {
        seq!['\\', 't']
    } else if (c as u32) < 32 {
        seq!['\\', 'u', '0', '0', hex_char(((c as u32) / 16) as int), hex_char(((c as u32) % 16) as int)]
    } else {
        seq![c]
    }
}

/// The lowercase hex digit of a value below sixteen.
pub open spec fn hex_char(v: int) -> char {
    if v < 10 {
        ((48 + v) as u32) as char
    } else {
        ((87 + v) as u32) as char
    }
}

/// The serialized body of a JSON string (without the quotes).
pub open spec fn spec_ser_string_body(t: Seq<char>) -> Seq<char>
    decreases t.len(),
{
    if t.len() == 0 {
        Seq::empty()
    } else {
        spec_escape_char(t[0]) + spec_ser_string_body(t.drop_first())
    }
}

/// A serialized JSON string literal.
pub open spec fn spec_ser_string(t: Seq<char>) -> Seq<char> {
    seq!['"'] + spec_ser_string_body(t) + seq!['"']
}

/// The serialized object of one article.
pub open spec fn spec_ser_article(a: ArticleView) -> Seq<char> {
    "{\"title\":"@ + spec_ser_string(a.title) + ",\"url\":"@ + spec_ser_string(a.url) + "}"@
}

/// The serialized continuation of an article list: a comma before each
/// further element.
pub open spec fn spec_ser_articles_rest(arts: Seq<ArticleView>) -> Seq<char>
    decreases arts.len(),
{
    if arts.len() == 0 {
        Seq::empty()
    } else {
        seq![','] + spec_ser_article(arts[0]) + spec_ser_articles_rest(arts.drop_first())
    }
}

/// The serialized articles array.
pub open spec fn spec_ser_articles(arts: Seq<ArticleView>) -> Seq<char> {
    if arts.len() == 0 {
        "[]"@
    } else {
        seq!['['] + spec_ser_article(arts[0]) + spec_ser_articles_rest(arts.drop_first())
            + seq![']']
    }
}

/// The canonical serialized document of a response: status, the code
/// member only when one is present, then the articles.
pub open spec fn spec_ser_response(rv: ResponseView) -> Seq<char> {
    "{\"status\":"@ + spec_ser_string(rv.status) + (match rv.code {
        Some(c) => ",\"code\":"@ + spec_ser_string(c),
        None => Seq::<char>::empty(),
    }) + ",\"articles\":"@ + spec_ser_articles(rv.articles) + "}"@
}

proof fn lemma_ser_body_concat(a: Seq<char>, b: Seq<char>)
    ensures
        spec_ser_string_body(a + b) == spec_ser_string_body(a) + spec_ser_string_body(b),
    decreases a.len(),
{
    if a.len() == 0 {
        assert(a + b =~= b);
        assert(spec_ser_string_body(a) + spec_ser_string_body(b) =~= spec_ser_string_body(b));
    } else {
        assert((a + b).drop_first() =~= a.drop_first() + b);
        lemma_ser_body_concat(a.drop_first(), b);
        assert((a + b)[0] == a[0]);
        assert(spec_escape_char(a[0]) + (spec_ser_string_body(a.drop_first())
            + spec_ser_string_body(b)) =~= (spec_escape_char(a[0]) + spec_ser_string_body(
            a.drop_first(),
        )) + spec_ser_string_body(b));
    }
}

proof fn lemma_ser_body_snoc(t: Seq<char>, x: char)
    ensures
        spec_ser_string_body(t.push(x)) == spec_ser_string_body(t) + spec_escape_char(x),
{
    lemma_ser_body_concat(t, seq![x]);
    assert(t.push(x) =~= t + seq![x]);
    assert(seq![x].drop_first() =~= Seq::<char>::empty());
    assert(spec_ser_string_body(seq![x]) == spec_escape_char(x) + spec_ser_string_body(
        Seq::<char>::empty(),
    ));
    assert(spec_escape_char(x) + Seq::<char>::empty() =~= spec_escape_char(x));
    assert(spec_ser_string_body(t) + spec_ser_string_body(seq![x]) =~= spec_ser_string_body(t)
        + spec_escape_char(x));
}

fn hex_char_x(v: u32) -> (r: char)
    requires
        v < 16,
    ensures
        r == hex_char(v as int),
{
    if v < 10 {
        char_from_u32(48 + v)
    } else {
        char_from_u32(87 + v)
    }
}

fn push_escaped(out: &mut String, c: char)
    ensures
        final(out)@ == old(out)@ + spec_escape_char(c),
{
    if c == '"' {
        push_char(out, '\\');
        push_char(out, '"');
        proof {
            assert(old(out)@.push('\\').push('"') =~= old(out)@ + spec_escape_char(c));
        }
    } else if c == '\\' {
        push_char(out, '\\');
        push_char(out, '\\');
        proof {
            assert(old(out)@.push('\\').push('\\') =~= old(out)@ + spec_escape_char(c));
        }
    } else if c == '\u{8}' {
        push_char(out, '\\');
        push_char(out, 'b');
        proof {
            assert(old(out)@.push('\\').push('b') =~= old(out)@ + spec_escape_char(c));
        }
    } else if c == '\u{c}' {
        push_char(out, '\\');
        push_char(out, 'f');
        proof {
            assert(old(out)@.push('\\').push('f') =~= old(out)@ + spec_escape_char(c));
        }
    } else if c == '\n' {
        push_char(out, '\\');
        push_char(out, 'n');
        proof {
            assert(old(out)@.push('\\').push('n') =~= old(out)@ + spec_escape_char(c));
        }
    } else if c == '\r' {
        push_char(out, '\\');
        push_char(out, 'r');
        proof {
            assert(old(out)@.push('\\').push('r') =~= old(out)@ + spec_escape_char(c));
        }
    } else if c == '\t' {
        push_char(out, '\\');
        push_char(out, 't');
        proof {
            assert(old(out)@.push('\\').push('t') =~= old(out)@ + spec_escape_char(c));
        }
    } else {
        let v = c as u32;
        if v < 32 {
            push_char(out, '\\');
            push_char(out, 'u');
            push_char(out, '0');
            push_char(out, '0');
            push_char(out, hex_char_x(v / 16));
            push_char(out, hex_char_x(v % 16));
            proof {
                assert(old(out)@.push('\\').push('u').push('0').push('0').push(
                    hex_char((v / 16) as int),
                ).push(hex_char((v % 16) as int)) =~= old(out)@ + spec_escape_char(c));
            }
        } else {
            push_char(out, c);
            proof {
                assert(old(out)@.push(c) =~= old(out)@ + spec_escape_char(c));
            }
        }
    }
}

fn append_json_string(out: &mut String, t: &str)
    ensures
        final(out)@ == old(out)@ + spec_ser_string(t@),
{
    push_char(out, '"');
    let cs = chars_of(t);
    let n = cs.len();
    let mut i: usize = 0;
    while i < n
        invariant
            n == t@.len(),
            cs@ == t@,
            i <= n,
            out@ == old(out)@ + seq!['"'] + spec_ser_string_body(t@.take(i as int)),
        decreases n - i,
    {
        push_escaped(out, cs[i]);
        proof {
            assert(t@.take(i + 1) =~= t@.take(i as int).push(t@[i as int]));
            lemma_ser_body_snoc(t@.take(i as int), t@[i as int]);
        }
        i += 1;
    }
    push_char(out, '"');
    proof {
        assert(t@.take(n as int) =~= t@);
        assert((old(out)@ + seq!['"'] + spec_ser_string_body(t@)).push('"') =~= old(out)@
            + spec_ser_string(t@));
    }
}

fn append_article_json(out: &mut String, a: &Article)
    ensures
        final(out)@ == old(out)@ + spec_ser_article(a@),
{
    out.append("{\"title\":");
    append_json_string(out, a.title().as_str());
    out.append(",\"url\":");
    append_json_string(out, a.url().as_str());
    out.append("}");
}

proof fn lemma_ser_rest_concat(a: Seq<ArticleView>, b: Seq<ArticleView>)
    ensures
        spec_ser_articles_rest(a + b) == spec_ser_articles_rest(a) + spec_ser_articles_rest(b),
    decreases a.len(),
{
    if a.len() == 0 {
        assert(a + b =~= b);
        assert(spec_ser_articles_rest(a) + spec_ser_articles_rest(b) =~= spec_ser_articles_rest(
            b,
        ));
    } else {
        assert((a + b).drop_first() =~= a.drop_first() + b);
        lemma_ser_rest_concat(a.drop_first(), b);
        assert((a + b)[0] == a[0]);
        assert((seq![','] + spec_ser_article(a[0])) + (spec_ser_articles_rest(a.drop_first())
            + spec_ser_articles_rest(b)) =~= (seq![','] + spec_ser_article(a[0])
            + spec_ser_articles_rest(a.drop_first())) + spec_ser_articles_rest(b));
        assert(spec_ser_articles_rest(a + b) == seq![','] + spec_ser_article(a[0])
            + spec_ser_articles_rest(a.drop_first() + b));
    }
}

proof fn lemma_ser_rest_snoc(s: Seq<ArticleView>, x: ArticleView)
    ensures
        spec_ser_articles_rest(s.push(x)) == spec_ser_articles_rest(s) + seq![',']
            + spec_ser_article(x),
{
    lemma_ser_rest_concat(s, seq![x]);
    assert(s.push(x) =~= s + seq![x]);
    assert(seq![x].drop_first() =~= Seq::<ArticleView>::empty());
    assert(spec_ser_articles_rest(seq![x]) == seq![','] + spec_ser_article(x)
        + spec_ser_articles_rest(Seq::<ArticleView>::empty()));
    assert((seq![','] + spec_ser_article(x)) + Seq::<char>::empty() =~= seq![',']
        + spec_ser_article(x));
    assert(spec_ser_articles_rest(s) + (seq![','] + spec_ser_article(x))
        =~= spec_ser_articles_rest(s) + seq![','] + spec_ser_article(x));
}

impl NewsApiResponse {
    /// The canonical JSON document of this response: the fixture text
    /// that parsing turns back into this very response.
    pub fn to_json(&self) -> (r: String)
        ensures
            r@ == spec_ser_response(self@),
    {
        let ghost prefix = "{\"status\":"@ + spec_ser_string(self@.status) + (match self@.code {
            Some(c) => ",\"code\":"@ + spec_ser_string(c),
            None => Seq::<char>::empty(),
        }) + ",\"articles\":"@;
        let mut out: String = "{\"status\":".to_owned();
        append_json_string(&mut out, self.status().as_str());
        let ghost p1 = out@;
        match self.code() {
            Some(c) => {
                out.append(",\"code\":");
                append_json_string(&mut out, c.as_str());
            },
            None => {},
        }
        out.append(",\"articles\":");
        proof {
            assert(out@ =~= prefix);
        }
        let ghost pre = out@;
        let articles = self.articles();
        let n = articles.len();
        if n == 0 {
            out.append("[]");
            proof {
                assert(out@ =~= pre + spec_ser_articles(self@.articles));
            }
        } else {
            push_char(&mut out, '[');
            append_article_json(&mut out, &articles[0]);
            let ghost base = out@;
            let mut i: usize = 1;
            while i < n
                invariant
                    n == self@.articles.len(),
                    n == articles@.len(),
                    forall|k: int| 0 <= k < n ==> articles@[k]@ == self@.articles[k],
                    1 <= i <= n,
                    out@ == base + spec_ser_articles_rest(self@.articles.subrange(1, i as int)),
                decreases n - i,
            {
                push_char(&mut out, ',');
                append_article_json(&mut out, &articles[i]);
                proof {
                    assert(self@.articles.subrange(1, i + 1) =~= self@.articles.subrange(
                        1,
                        i as int,
                    ).push(self@.articles[i as int]));
                    lemma_ser_rest_snoc(
                        self@.articles.subrange(1, i as int),
                        self@.articles[i as int],
                    );
                    assert(out@ =~= base + (spec_ser_articles_rest(
                        self@.articles.subrange(1, i as int),
                    ) + seq![','] + spec_ser_article(self@.articles[i as int])));
                }
                i += 1;
            }
            push_char(&mut out, ']');
            proof {
                assert(self@.articles.subrange(1, n as int) =~= self@.articles.drop_first());
                assert(base =~= pre + seq!['['] + spec_ser_article(self@.articles[0]));
                assert(out@ =~= pre + spec_ser_articles(self@.articles));
            }
        }
        push_char(&mut out, '}');
        proof {
            reveal_strlit("}");
            assert(out@ =~= prefix + spec_ser_articles(self@.articles) + "}"@);
            assert(prefix + spec_ser_articles(self@.articles) + "}"@ =~= spec_ser_response(
                self@,
            ));
        }
        out
    }
}


/// A character that serializes as itself inside a JSON string.
pub open spec fn json_plain_char(c: char) -> bool {
    c != '"' && c != '\\' && (c as u32) >= 32
}

/// A string of such characters only.
pub open spec fn json_plain(t: Seq<char>) -> bool {
    forall|i: int| 0 <= i < t.len() ==> json_plain_char(t[i])
}

/// The word `w` stands letter for letter at position `i` of `s`.
pub open spec fn matches_at(s: Seq<char>, i: int, w: Seq<char>) -> bool {
    &&& 0 <= i
    &&& i + w.len() <= s.len()
    &&& forall|k: int| 0 <= k < w.len() ==> s[i + k] == #[trigger] w[k]
}

proof fn lemma_matches_split(s: Seq<char>, i: int, a: Seq<char>, b: Seq<char>)
    requires
        matches_at(s, i, a + b),
    ensures
        matches_at(s, i, a),
        matches_at(s, i + a.len(), b),
{
    assert forall|k: int| 0 <= k < a.len() implies s[i + k] == a[k] by {
        assert((a + b)[k] == a[k]);
    }
    assert forall|k: int| 0 <= k < b.len() implies s[i + a.len() + k] == b[k] by {
        assert((a + b)[a.len() + k] == b[k]);
        assert(s[i + (a.len() + k)] == (a + b)[a.len() + k]);
    }
}

proof fn lemma_ser_body_plain(t: Seq<char>)
    requires
        json_plain(t),
    ensures
        spec_ser_string_body(t) == t,
    decreases t.len(),
{
    if t.len() == 0 {
        assert(spec_ser_string_body(t) =~= t);
    } else {
        assert(json_plain_char(t[0]));
        assert(spec_escape_char(t[0]) =~= seq![t[0]]);
        let t2 = t.drop_first();
        assert(json_plain(t2)) by {
            assert forall|k: int| 0 <= k < t2.len() implies json_plain_char(t2[k]) by {
                assert(t2[k] == t[k + 1]);
            }
        }
        lemma_ser_body_plain(t2);
        assert(seq![t[0]] + t2 =~= t);
    }
}

proof fn lemma_low_control_escape(s: Seq<char>, i: int, c: char)
    requires
        (c as u32) < 32,
        c != '\u{8}' && c != '\u{c}' && c != '\n' && c != '\r' && c != '\t',
        matches_at(s, i, spec_escape_char(c)),
    ensures
        spec_escape_char(c).len() == 6,
        s[i] == '\\' && s[i + 1] == 'u',
        spec_hex4(s, i + 2) == Some(c as u32),
        ((c as u32) as char) == c,
{
    let v = c as u32;
    let e = spec_escape_char(c);
    assert(e =~= seq![
        '\\',
        'u',
        '0',
        '0',
        hex_char((v / 16) as int),
        hex_char((v % 16) as int),
    ]);
    assert(s[i + 0] == e[0] && s[i + 1] == e[1]);
    assert(s[i + 2] == e[2] && s[i + 3] == e[3] && s[i + 4] == e[4] && s[i + 5] == e[5]);
    assert(hex_digit_val('0') == Some(0u32));
    assert(hex_digit_val(hex_char((v / 16) as int)) == Some(v / 16));
    assert(hex_digit_val(hex_char((v % 16) as int)) == Some(v % 16));
    assert((v / 16) * 16 + v % 16 == v);
    assert(spec_hex4(s, i + 2) == Some(v));
}

#[verifier::rlimit(100)]
#[verifier::spinoff_prover]
proof fn lemma_parse_escaped_rest(s: Seq<char>, i: int, t: Seq<char>, acc: Seq<char>)
    requires
        matches_at(s, i, spec_ser_string_body(t)),
        i + spec_ser_string_body(t).len() < s.len(),
        s[i + spec_ser_string_body(t).len()] == '"',
    ensures
        spec_parse_string_rest(s, i, acc) == Some(
            (acc + t, i + spec_ser_string_body(t).len() + 1),
        ),
    decreases t.len(),
{
    if t.len() == 0 {
        assert(spec_ser_string_body(t).len() == 0);
        assert(s[i] == '"');
        assert(acc + t =~= acc);
    } else {
        let c = t[0];
        let e = spec_escape_char(c);
        let rest = spec_ser_string_body(t.drop_first());
        assert(spec_ser_string_body(t) == e + rest);
        lemma_matches_split(s, i, e, rest);
        assert(s[i + 0] == e[0]);
        if e.len() >= 2 {
            assert(s[i + 1] == e[1]);
        }
        // the parser undoes exactly this character's serialization
        if c == '"' || c == '\\' || c == '\u{8}' || c == '\u{c}' || c == '\n' || c == '\r' || c
            == '\t' {
            assert(e.len() == 2 && e[0] == '\\');
            assert(spec_parse_string_rest(s, i, acc) == spec_parse_string_rest(
                s,
                i + 2,
                acc.push(c),
            ));
        } else if (c as u32) < 32 {
            lemma_low_control_escape(s, i, c);
            assert(spec_parse_string_rest(s, i, acc) == spec_parse_string_rest(
                s,
                i + 6,
                acc.push(c),
            ));
        } else {
            assert(e =~= seq![c]);
            assert(s[i] == c);
            assert(spec_parse_string_rest(s, i, acc) == spec_parse_string_rest(
                s,
                i + 1,
                acc.push(c),
            ));
        }
        assert(matches_at(s, i + e.len(), rest));
        lemma_parse_escaped_rest(s, i + e.len(), t.drop_first(), acc.push(c));
        assert(acc.push(c) + t.drop_first() =~= acc + t);
    }
}

proof fn lemma_parse_ser_string(s: Seq<char>, i: int, t: Seq<char>)
    requires
        matches_at(s, i, spec_ser_string(t)),
    ensures
        spec_ser_string(t).len() == spec_ser_string_body(t).len() + 2,
        spec_parse_string(s, i) == Some((t, i + spec_ser_string(t).len())),
{
    let body = spec_ser_string_body(t);
    let w = spec_ser_string(t);
    assert(w == seq!['"'] + body + seq!['"']);
    assert(w.len() == body.len() + 2);
    lemma_matches_split(s, i, seq!['"'] + body, seq!['"']);
    lemma_matches_split(s, i, seq!['"'], body);
    assert(s[i + 0] == seq!['"'][0]);
    assert(s[i + 1 + body.len()] == seq!['"'][0]);
    lemma_parse_escaped_rest(s, i + 1, t, Seq::<char>::empty());
    assert(Seq::<char>::empty() + t =~= t);
}

#[verifier::rlimit(100)]
#[verifier::spinoff_prover]
proof fn lemma_parse_ser_article(s: Seq<char>, i: int, av: ArticleView, fuel: nat)
    requires
        matches_at(s, i, spec_ser_article(av)),
        fuel >= 4,
    ensures
        spec_parse_article_members(s, i + 1, None, None, true, fuel) == Some(
            (av, i + spec_ser_article(av).len()),
        ),
{
    reveal_strlit("{\"title\":");
    reveal_strlit(",\"url\":");
    reveal_strlit("}");
    reveal_strlit("title");
    reveal_strlit("url");
    let p1 = "{\"title\":"@;
    let s1 = spec_ser_string(av.title);
    let p2 = ",\"url\":"@;
    let s2 = spec_ser_string(av.url);
    let p3 = "}"@;
    let l1 = s1.len() as int;
    let l2 = s2.len() as int;
    assert(p1.len() == 9 && p2.len() == 7 && p3.len() == 1);
    assert(json_plain("title"@));
    assert(json_plain("url"@));
    lemma_ser_body_plain("title"@);
    lemma_ser_body_plain("url"@);

    lemma_matches_split(s, i, p1 + s1 + p2 + s2, p3);
    lemma_matches_split(s, i, p1 + s1 + p2, s2);
    lemma_matches_split(s, i, p1 + s1, p2);
    lemma_matches_split(s, i, p1, s1);
    assert(matches_at(s, i, p1));
    assert(matches_at(s, i + 9, s1));
    assert(matches_at(s, i + 9 + l1, p2));
    assert(matches_at(s, i + 16 + l1, s2));
    assert(matches_at(s, i + 16 + l1 + l2, p3));

    // the keys inside the fixed member prefixes
    assert(p1 =~= seq!['{'] + spec_ser_string("title"@) + seq![':']);
    lemma_matches_split(s, i, seq!['{'] + spec_ser_string("title"@), seq![':']);
    lemma_matches_split(s, i, seq!['{'], spec_ser_string("title"@));
    assert(p2 =~= seq![','] + spec_ser_string("url"@) + seq![':']);
    lemma_matches_split(s, i + 9 + l1, seq![','] + spec_ser_string("url"@), seq![':']);
    lemma_matches_split(s, i + 9 + l1, seq![','], spec_ser_string("url"@));

    // the key strings parse back to the keys, the values to the fields
    lemma_parse_ser_string(s, i + 1, "title"@);
    lemma_parse_ser_string(s, i + 10 + l1, "url"@);
    lemma_parse_ser_string(s, i + 9, av.title);
    lemma_parse_ser_string(s, i + 16 + l1, av.url);
    assert(spec_ser_string("title"@).len() == 7);
    assert(spec_ser_string("url"@).len() == 5);

    // single characters along the way
    assert(s[i + 0] == p1[0] && p1[0] == '{');
    assert(s[i + 1] == p1[1] && p1[1] == '"');
    assert(s[i + 8] == p1[8] && p1[8] == ':');
    assert(s[i + 9 + 0] == s1[0]);
    assert(s1[0] == '"');
    assert(s[i + 9 + l1 + 0] == p2[0] && p2[0] == ',');
    assert(s[i + 9 + l1 + 1] == p2[1] && p2[1] == '"');
    assert(s[i + 9 + l1 + 6] == p2[6] && p2[6] == ':');
    assert(s[i + 16 + l1 + 0] == s2[0]);
    assert(s2[0] == '"');
    assert(s[i + 16 + l1 + l2 + 0] == p3[0] && p3[0] == '}');

    // no whitespace stands anywhere the parser skips
    assert(spec_skip_ws(s, i + 1) == i + 1);
    assert(spec_skip_ws(s, i + 8) == i + 8);
    assert(spec_skip_ws(s, i + 9) == i + 9);
    assert(spec_skip_ws(s, i + 9 + l1) == i + 9 + l1);
    assert(spec_skip_ws(s, i + 10 + l1) == i + 10 + l1);
    assert(spec_skip_ws(s, i + 15 + l1) == i + 15 + l1);
    assert(spec_skip_ws(s, i + 16 + l1) == i + 16 + l1);
    assert(spec_skip_ws(s, i + 16 + l1 + l2) == i + 16 + l1 + l2);

    assert("title"@ != "url"@) by {
        assert("title"@.len() == 5 && "url"@.len() == 3);
    }

    // walk the parser through the serialized member list
    assert(spec_parse_string(s, i + 1) == Some(("title"@, i + 8)));
    assert(spec_parse_string(s, i + 9) == Some((av.title, i + 9 + l1)));
    assert(spec_parse_article_sep(s, i + 9 + l1, Some(av.title), None, (fuel - 1) as nat)
        == spec_parse_article_members(
        s,
        i + 10 + l1,
        Some(av.title),
        None,
        false,
        (fuel - 2) as nat,
    ));
    assert(spec_parse_string(s, i + 10 + l1) == Some(("url"@, i + 15 + l1)));
    assert(spec_parse_string(s, i + 16 + l1) == Some((av.url, i + 16 + l1 + l2)));
    assert(spec_parse_article_sep(
        s,
        i + 16 + l1 + l2,
        Some(av.title),
        Some(av.url),
        (fuel - 3) as nat,
    ) == spec_finish_article(Some(av.title), Some(av.url), i + 17 + l1 + l2));
    assert(ArticleView { title: av.title, url: av.url } == av);
    assert(spec_ser_article(av).len() == 9 + l1 + 7 + l2 + 1);
}

proof fn lemma_ser_article_len_lb(a: ArticleView)
    ensures
        spec_ser_article(a).len() >= 21,
{
    reveal_strlit("{\"title\":");
    reveal_strlit(",\"url\":");
    reveal_strlit("}");
}

proof fn lemma_ser_rest_len_lb(arts: Seq<ArticleView>)
    ensures
        spec_ser_articles_rest(arts).len() >= 22 * arts.len(),
    decreases arts.len(),
{
    if arts.len() == 0 {
    } else {
        lemma_ser_article_len_lb(arts[0]);
        lemma_ser_rest_len_lb(arts.drop_first());
    }
}

#[verifier::rlimit(100)]
#[verifier::spinoff_prover]
proof fn lemma_parse_ser_elems(
    s: Seq<char>,
    i: int,
    arts: Seq<ArticleView>,
    acc: Seq<ArticleView>,
    first: bool,
    fuel: nat,
)
    requires
        arts.len() >= 1,
        matches_at(s, i, spec_ser_article(arts[0])),
        matches_at(
            s,
            i + spec_ser_article(arts[0]).len(),
            spec_ser_articles_rest(arts.drop_first()),
        ),
        matches_at(
            s,
            i + spec_ser_article(arts[0]).len() + spec_ser_articles_rest(
                arts.drop_first(),
            ).len(),
            "]"@,
        ),
        fuel >= 5 * arts.len() + 1,
    ensures
        spec_parse_articles(s, i, acc, first, fuel) == Some(
            (
                acc + arts,
                i + spec_ser_article(arts[0]).len() + spec_ser_articles_rest(
                    arts.drop_first(),
                ).len() + 1,
            ),
        ),
    decreases arts.len(),
{
    reveal_strlit("]");
    reveal_strlit("{\"title\":");
    let a0 = arts[0];
    let len0 = spec_ser_article(a0).len() as int;
    let rest = arts.drop_first();
    let restser = spec_ser_articles_rest(rest);
    // the element starts with an object brace
    assert(spec_ser_article(a0)[0] == '{') by {
        assert("{\"title\":"@[0] == '{');
    }
    assert(s[i + 0] == spec_ser_article(a0)[0]);
    assert(spec_skip_ws(s, i) == i);
    lemma_parse_ser_article(s, i, a0, (fuel - 1) as nat);
    assert(spec_parse_article_members(s, i + 1, None, None, true, (fuel - 1) as nat) == Some(
        (a0, i + len0),
    ));
    if rest.len() == 0 {
        assert(restser.len() == 0);
        assert(s[i + len0 + 0] == "]"@[0]);
        assert("]"@[0] == ']');
        assert(spec_skip_ws(s, i + len0) == i + len0);
        assert(spec_parse_articles(s, i, acc, first, fuel) == Some((acc.push(a0), i + len0 + 1)));
        assert(arts =~= seq![a0]);
        assert(acc.push(a0) =~= acc + arts);
    } else {
        let r0 = rest[0];
        let lenr0 = spec_ser_article(r0).len() as int;
        let restrest = spec_ser_articles_rest(rest.drop_first());
        assert(restser == seq![','] + spec_ser_article(r0) + restrest);
        lemma_matches_split(s, i + len0, seq![','] + spec_ser_article(r0), restrest);
        lemma_matches_split(s, i + len0, seq![','], spec_ser_article(r0));
        assert(s[i + len0 + 0] == seq![','][0]);
        assert(spec_skip_ws(s, i + len0) == i + len0);
        // the next element and everything after it stand one comma further
        assert(matches_at(s, i + len0 + 1, spec_ser_article(r0)));
        assert(matches_at(s, i + len0 + 1 + lenr0, restrest));
        assert(restser.len() == 1 + lenr0 + restrest.len());
        assert(matches_at(s, i + len0 + 1 + lenr0 + restrest.len(), "]"@));
        lemma_parse_ser_elems(s, i + len0 + 1, rest, acc.push(a0), false, (fuel - 1) as nat);
        assert(acc.push(a0) + rest =~= acc + arts);
    }
}


#[verifier::rlimit(100)]
#[verifier::spinoff_prover]
proof fn lemma_parse_articles_member(
    s: Seq<char>,
    q: int,
    st0: Option<Seq<char>>,
    cd0: Option<Option<Seq<char>>>,
    arts: Seq<ArticleView>,
    fuel: nat,
)
    requires
        st0 is Some,
        matches_at(s, q, ",\"articles\":"@),
        matches_at(s, q + 12, spec_ser_articles(arts)),
        matches_at(s, q + 12 + spec_ser_articles(arts).len(), "}"@),
        fuel >= 5 * arts.len() + 4,
    ensures
        spec_parse_resp_sep(s, q, st0, cd0, None, fuel) == Some(
            (
                ResponseView {
                    status: st0->Some_0,
                    code: match cd0 {
                        Some(c) => c,
                        None => None,
                    },
                    articles: arts,
                },
                q + 13 + spec_ser_articles(arts).len(),
            ),
        ),
{
    reveal_strlit(",\"articles\":");
    reveal_strlit("articles");
    reveal_strlit("status");
    reveal_strlit("code");
    reveal_strlit("[]");
    reveal_strlit("}");
    let a = ",\"articles\":"@;
    let arr = spec_ser_articles(arts);
    let arrn = arr.len() as int;
    assert(a.len() == 12);
    assert(json_plain("articles"@));
    lemma_ser_body_plain("articles"@);
    assert(a =~= seq![','] + spec_ser_string("articles"@) + seq![':']);
    lemma_matches_split(s, q, seq![','] + spec_ser_string("articles"@), seq![':']);
    lemma_matches_split(s, q, seq![','], spec_ser_string("articles"@));
    lemma_parse_ser_string(s, q + 1, "articles"@);
    assert(s[q + 0] == seq![','][0]);
    assert(s[q + 11 + 0] == seq![':'][0]);
    assert(spec_skip_ws(s, q) == q);
    assert(spec_skip_ws(s, q + 1) == q + 1) by {
        assert(s[q + 1 + 0] == spec_ser_string("articles"@)[0]);
    }
    assert(spec_skip_ws(s, q + 11) == q + 11);
    assert("articles"@ != "status"@) by {
        assert("articles"@.len() == 8 && "status"@.len() == 6);
    }
    assert("articles"@ != "code"@) by {
        assert("code"@.len() == 4);
    }
    // the array begins with its bracket
    assert(arr[0] == '[') by {
        if arts.len() == 0 {
            assert("[]"@[0] == '[');
        }
    }
    assert(s[q + 12 + 0] == arr[0]);
    assert(spec_skip_ws(s, q + 12) == q + 12);
    // the array parses back to the very articles
    if arts.len() == 0 {
        assert(arr == "[]"@);
        assert(s[q + 12 + 1] == arr[1]);
        assert(arr[1] == ']');
        assert(spec_skip_ws(s, q + 13) == q + 13);
        assert(spec_parse_articles(s, q + 13, Seq::<ArticleView>::empty(), true, (fuel
            - 3) as nat) == Some((Seq::<ArticleView>::empty(), q + 14)));
        assert(Seq::<ArticleView>::empty() =~= arts);
    } else {
        let art0 = spec_ser_article(arts[0]);
        let restser = spec_ser_articles_rest(arts.drop_first());
        assert(arr == seq!['['] + art0 + restser + seq![']']);
        lemma_matches_split(s, q + 12, seq!['['] + art0 + restser, seq![']']);
        lemma_matches_split(s, q + 12, seq!['['] + art0, restser);
        lemma_matches_split(s, q + 12, seq!['['], art0);
        assert(matches_at(s, q + 13, art0));
        assert(matches_at(s, q + 13 + art0.len(), restser));
        assert(matches_at(s, q + 13 + art0.len() + restser.len(), seq![']'])) by {
            assert(arrn == 1 + art0.len() + restser.len() + 1);
        }
        assert(matches_at(s, q + 13 + art0.len() + restser.len(), "]"@)) by {
            reveal_strlit("]");
            assert("]"@ =~= seq![']']);
        }
        lemma_parse_ser_elems(s, q + 13, arts, Seq::<ArticleView>::empty(), true, (fuel
            - 3) as nat);
        assert(Seq::<ArticleView>::empty() + arts =~= arts);
        assert(spec_parse_articles(s, q + 13, Seq::<ArticleView>::empty(), true, (fuel
            - 3) as nat) == Some((arts, q + 12 + arrn)));
    }
    // the closing brace of the response object
    assert(s[q + 12 + arrn + 0] == "}"@[0]);
    assert("}"@[0] == '}');
    assert(spec_skip_ws(s, q + 12 + arrn) == q + 12 + arrn);
    assert(spec_parse_resp_sep(s, q + 12 + arrn, st0, cd0, Some(arts), (fuel - 3) as nat)
        == spec_finish_response(st0, cd0, Some(arts), q + 13 + arrn));
    assert(spec_parse_resp_field(s, q + 12, "articles"@, st0, cd0, None, (fuel - 2) as nat)
        == spec_parse_resp_sep(s, q + 12 + arrn, st0, cd0, Some(arts), (fuel - 3) as nat));
}

#[verifier::rlimit(100)]
#[verifier::spinoff_prover]
proof fn lemma_members_status_head(
    s: Seq<char>,
    rv_status: Seq<char>,
    fuel: nat,
    r: Option<(ResponseView, int)>,
)
    requires
        matches_at(s, 0, "{\"status\":"@),
        matches_at(s, 10, spec_ser_string(rv_status)),
        fuel >= 3,
        spec_parse_resp_sep(
            s,
            10 + spec_ser_string(rv_status).len() as int,
            Some(rv_status),
            None,
            None,
            (fuel - 2) as nat,
        ) == r,
    ensures
        spec_parse_resp_members(s, 1, None, None, None, true, fuel) == r,
{
    reveal_strlit("{\"status\":");
    reveal_strlit("status");
    let p0 = "{\"status\":"@;
    let sst = spec_ser_string(rv_status);
    assert(p0.len() == 10);
    assert(json_plain("status"@));
    lemma_ser_body_plain("status"@);
    assert(p0 =~= seq!['{'] + spec_ser_string("status"@) + seq![':']);
    lemma_matches_split(s, 0, seq!['{'] + spec_ser_string("status"@), seq![':']);
    lemma_matches_split(s, 0, seq!['{'], spec_ser_string("status"@));
    lemma_parse_ser_string(s, 1, "status"@);
    lemma_parse_ser_string(s, 10, rv_status);
    assert(s[9int] == seq![':'][0]);
    assert(s[1int] == spec_ser_string("status"@)[0]);
    assert(s[10int] == sst[0]);
    assert(sst[0] == '"');
    assert(spec_skip_ws(s, 1) == 1);
    assert(spec_skip_ws(s, 9) == 9);
    assert(spec_skip_ws(s, 10) == 10);
    assert(spec_parse_resp_field(s, 10, "status"@, None, None, None, (fuel - 1) as nat) == r);
    assert(spec_parse_resp_members(s, 1, None, None, None, true, fuel) == r);
}

#[verifier::rlimit(100)]
#[verifier::spinoff_prover]
proof fn lemma_sep_code_member(
    s: Seq<char>,
    q: int,
    st0: Option<Seq<char>>,
    c: Seq<char>,
    fuel: nat,
    r: Option<(ResponseView, int)>,
)
    requires
        st0 is Some,
        matches_at(s, q, ",\"code\":"@),
        matches_at(s, q + 8, spec_ser_string(c)),
        fuel >= 4,
        spec_parse_resp_sep(
            s,
            q + 8 + spec_ser_string(c).len() as int,
            st0,
            Some(Some(c)),
            None,
            (fuel - 3) as nat,
        ) == r,
    ensures
        spec_parse_resp_sep(s, q, st0, None, None, fuel) == r,
{
    reveal_strlit(",\"code\":");
    reveal_strlit("code");
    reveal_strlit("status");
    let cp = ",\"code\":"@;
    let sc = spec_ser_string(c);
    assert(cp.len() == 8);
    assert(json_plain("code"@));
    lemma_ser_body_plain("code"@);
    assert(cp =~= seq![','] + spec_ser_string("code"@) + seq![':']);
    lemma_matches_split(s, q, seq![','] + spec_ser_string("code"@), seq![':']);
    lemma_matches_split(s, q, seq![','], spec_ser_string("code"@));
    lemma_parse_ser_string(s, q + 1, "code"@);
    lemma_parse_ser_string(s, q + 8, c);
    assert(s[q + 0] == seq![','][0]);
    assert(s[q + 7 + 0] == seq![':'][0]);
    assert(s[q + 1 + 0] == spec_ser_string("code"@)[0]);
    assert(s[q + 8 + 0] == sc[0]);
    assert(sc[0] == '"');
    assert(spec_skip_ws(s, q) == q);
    assert(spec_skip_ws(s, q + 1) == q + 1);
    assert(spec_skip_ws(s, q + 7) == q + 7);
    assert(spec_skip_ws(s, q + 8) == q + 8);
    assert("code"@ != "status"@) by {
        assert("code"@.len() == 4 && "status"@.len() == 6);
    }
    assert(spec_parse_resp_field(s, q + 8, "code"@, st0, None, None, (fuel - 2) as nat) == r);
    assert(spec_parse_resp_members(s, q + 1, st0, None, None, false, (fuel - 1) as nat) == r);
}

#[verifier::rlimit(100)]
#[verifier::spinoff_prover]
proof fn lemma_parse_ser_response_members_no_code(rv: ResponseView)
    requires
        rv.code is None,
    ensures
        ({
            let s = spec_ser_response(rv);
            spec_parse_resp_members(s, 1, None, None, None, true, s.len() as nat) == Some(
                (rv, s.len() as int),
            )
        }),
{
    let s = spec_ser_response(rv);
    let fuel = s.len() as nat;
    reveal_strlit("{\"status\":");
    reveal_strlit(",\"articles\":");
    reveal_strlit("}");
    let p0 = "{\"status\":"@;
    let sst = spec_ser_string(rv.status);
    let cp = Seq::<char>::empty();
    let a = ",\"articles\":"@;
    let arr = spec_ser_articles(rv.articles);
    let e = "}"@;
    let ls = sst.len() as int;
    let arrn = arr.len() as int;
    let n = rv.articles.len() as int;
    assert(p0.len() == 10 && a.len() == 12 && e.len() == 1);
    assert(ls >= 2);
    assert(s == p0 + sst + cp + a + arr + e);
    assert(matches_at(s, 0, s)) by {
        assert(forall|k: int| 0 <= k < s.len() ==> s[0 + k] == #[trigger] s[k]);
    }
    lemma_matches_split(s, 0, p0 + sst + cp + a + arr, e);
    lemma_matches_split(s, 0, p0 + sst + cp + a, arr);
    lemma_matches_split(s, 0, p0 + sst + cp, a);
    lemma_matches_split(s, 0, p0 + sst, cp);
    lemma_matches_split(s, 0, p0, sst);
    assert(matches_at(s, 10 + ls, a));
    assert(matches_at(s, 22 + ls, arr));
    assert(matches_at(s, 22 + ls + arrn, e));
    assert(s.len() == 23 + ls + arrn);
    if n > 0 {
        lemma_ser_article_len_lb(rv.articles[0]);
        lemma_ser_rest_len_lb(rv.articles.drop_first());
        assert(arrn >= 22 * n);
    }
    assert(fuel - 2 >= 5 * n + 4);
    lemma_parse_articles_member(
        s,
        10 + ls,
        Some(rv.status),
        None,
        rv.articles,
        (fuel - 2) as nat,
    );
    lemma_members_status_head(s, rv.status, fuel, Some((rv, s.len() as int)));
}

#[verifier::rlimit(100)]
#[verifier::spinoff_prover]
proof fn lemma_parse_ser_response_members_with_code(rv: ResponseView)
    requires
        rv.code is Some,
    ensures
        ({
            let s = spec_ser_response(rv);
            spec_parse_resp_members(s, 1, None, None, None, true, s.len() as nat) == Some(
                (rv, s.len() as int),
            )
        }),
{
    let s = spec_ser_response(rv);
    let fuel = s.len() as nat;
    reveal_strlit("{\"status\":");
    reveal_strlit(",\"code\":");
    reveal_strlit(",\"articles\":");
    reveal_strlit("}");
    let c = rv.code->Some_0;
    let p0 = "{\"status\":"@;
    let sst = spec_ser_string(rv.status);
    let cp = ",\"code\":"@ + spec_ser_string(c);
    let a = ",\"articles\":"@;
    let arr = spec_ser_articles(rv.articles);
    let e = "}"@;
    let ls = sst.len() as int;
    let sc = spec_ser_string(c);
    let lc = sc.len() as int;
    let arrn = arr.len() as int;
    let n = rv.articles.len() as int;
    assert(p0.len() == 10 && a.len() == 12 && e.len() == 1);
    assert(ls >= 2 && lc >= 2);
    assert(cp.len() == 8 + lc);
    assert(s == p0 + sst + cp + a + arr + e);
    assert(matches_at(s, 0, s)) by {
        assert(forall|k: int| 0 <= k < s.len() ==> s[0 + k] == #[trigger] s[k]);
    }
    lemma_matches_split(s, 0, p0 + sst + cp + a + arr, e);
    lemma_matches_split(s, 0, p0 + sst + cp + a, arr);
    lemma_matches_split(s, 0, p0 + sst + cp, a);
    lemma_matches_split(s, 0, p0 + sst, cp);
    lemma_matches_split(s, 0, p0, sst);
    lemma_matches_split(s, 10 + ls, ",\"code\":"@, sc);
    let q2 = 18 + ls + lc;
    assert(matches_at(s, 10 + ls, ",\"code\":"@));
    assert(matches_at(s, 18 + ls, sc));
    assert(matches_at(s, q2, a));
    assert(matches_at(s, q2 + 12, arr));
    assert(matches_at(s, q2 + 12 + arrn, e));
    assert(s.len() == 31 + ls + lc + arrn);
    if n > 0 {
        lemma_ser_article_len_lb(rv.articles[0]);
        lemma_ser_rest_len_lb(rv.articles.drop_first());
        assert(arrn >= 22 * n);
    }
    assert(fuel - 5 >= 5 * n + 4);
    lemma_parse_articles_member(
        s,
        q2,
        Some(rv.status),
        Some(Some(c)),
        rv.articles,
        (fuel - 5) as nat,
    );
    lemma_sep_code_member(s, 10 + ls, Some(rv.status), c, (fuel - 2) as nat, Some(
        (rv, s.len() as int),
    ));
    lemma_members_status_head(s, rv.status, fuel, Some((rv, s.len() as int)));
}

proof fn lemma_parse_ser_response_members(rv: ResponseView)
    ensures
        ({
            let s = spec_ser_response(rv);
            spec_parse_resp_members(s, 1, None, None, None, true, s.len() as nat) == Some(
                (rv, s.len() as int),
            )
        }),
{
    match rv.code {
        None => lemma_parse_ser_response_members_no_code(rv),
        Some(_) => lemma_parse_ser_response_members_with_code(rv),
    }
}

/// Round trip: parsing the canonical serialization of any response
/// yields that very response, whatever its strings hold and whatever
/// the number of its articles.
#[verifier::rlimit(100)]
#[verifier::spinoff_prover]
pub proof fn lemma_serialize_then_parse(rv: ResponseView)
    ensures
        spec_parse_response(spec_ser_response(rv)) == Some(rv),
{
    let s = spec_ser_response(rv);
    reveal_strlit("{\"status\":");
    assert(s[0int] == "{\"status\":"@[0]) by {
        assert(matches_at(s, 0, s)) by {
            assert(forall|k: int| 0 <= k < s.len() ==> s[0 + k] == #[trigger] s[k]);
        }
        lemma_matches_split(
            s,
            0,
            "{\"status\":"@,
            spec_ser_string(rv.status) + (match rv.code {
                Some(c) => ",\"code\":"@ + spec_ser_string(c),
                None => Seq::<char>::empty(),
            }) + ",\"articles\":"@ + spec_ser_articles(rv.articles) + "}"@,
        );
    }
    assert("{\"status\":"@[0] == '{');
    assert(spec_skip_ws(s, 0) == 0);
    lemma_parse_ser_response_members(rv);
    assert(spec_skip_ws(s, s.len() as int) == s.len() as int);
}

} // verus!
