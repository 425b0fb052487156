//! The `Link` response header: `<URL>; key="value"; ...` entries, separated
//! by commas.

use vstd::prelude::*;
use crate::error::ErrorKind;
use crate::query::{pairs_view, query_pairs, query_pairs_of};
use crate::text::chars_of;

verus! {

/// The relation of a link to the current page.
#[derive(Clone, Copy, Debug, PartialEq, Eq, Structural)]
pub enum LinkHeaderType {
    Prev,
    Next,
    First,
    Last,
    Unknown,
}

pub open spec fn rel_of(s: Seq<char>) -> LinkHeaderType {
    if s == "prev"@ {
        LinkHeaderType::Prev
    } else if s == "next"@ {
        LinkHeaderType::Next
    } else if s == "first"@ {
        LinkHeaderType::First
    } else if s == "last"@ {
        LinkHeaderType::Last
    } else {
        LinkHeaderType::Unknown
    }
}

impl LinkHeaderType {
    /// The relation named by a `rel` value; any other name is `Unknown`.
    pub fn from_name(s: &String) -> (r: LinkHeaderType)
        ensures
            r == rel_of(s@),
    {
        if *s == String::from_str("prev") {
            LinkHeaderType::Prev
        } else if *s == String::from_str("next") {
            LinkHeaderType::Next
        } else if *s == String::from_str("first") {
            LinkHeaderType::First
        } else if *s == String::from_str("last") {
            LinkHeaderType::Last
        } else {
            LinkHeaderType::Unknown
        }
    }
}

/// One parsed continuation link.
#[derive(Clone, Debug, PartialEq, Eq)]
pub struct LinkHeader {
    pub url: String,
    pub page: u32,
    pub per_page: u32,
    pub rel: LinkHeaderType,
}

pub struct LinkModel {
    pub url: Seq<char>,
    pub page: u32,
    pub per_page: u32,
    pub rel: LinkHeaderType,
}

impl View for LinkHeader {
    type V = LinkModel;

    open spec fn view(&self) -> LinkModel {
        LinkModel { url: self.url@, page: self.page, per_page: self.per_page, rel: self.rel }
    }
}

pub open spec fn is_ws(c: char) -> bool {
    c == ' ' || c == '\t'
}

pub open spec fn is_alnum(c: char) -> bool {
    ('0' <= c && c <= '9') || ('a' <= c && c <= 'z') || ('A' <= c && c <= 'Z')
}

/// The first position at or after `i` that holds no whitespace.
pub open spec fn skip_ws(s: Seq<char>, i: nat) -> nat
    decreases s.len() - i,
{
    if i < s.len() && is_ws(s[i as int]) {
        skip_ws(s, i + 1)
    } else {
        i
    }
}

/// The first position at or after `i` that holds no ASCII letter or digit.
pub open spec fn skip_alnum(s: Seq<char>, i: nat) -> nat
    decreases s.len() - i,
{
    if i < s.len() && is_alnum(s[i as int]) {
        skip_alnum(s, i + 1)
    } else {
        i
    }
}

/// The first position at or after `i` that holds `>` or whitespace.
pub open spec fn url_end(s: Seq<char>, i: nat) -> nat
    decreases s.len() - i,
{
    if i < s.len() && s[i as int] != '>' && !is_ws(s[i as int]) {
        url_end(s, i + 1)
    } else {
        i
    }
}

/// `key = "value"` from position `i`: the key, the value and the position
/// after the closing quote.
pub open spec fn parse_arg(s: Seq<char>, i: nat) -> Option<(Seq<char>, Seq<char>, nat)> {
    let ke = skip_alnum(s, i);
    let e1 = skip_ws(s, ke);
    let e2 = skip_ws(s, e1 + 1);
    let ve = skip_alnum(s, e2 + 1);
    if ke == i || !(e1 < s.len() && s[e1 as int] == '=') {
        None
    } else if !(e2 < s.len() && s[e2 as int] == '"') {
        None
    } else if ve == e2 + 1 || !(ve < s.len() && s[ve as int] == '"') {
        None
    } else {
        Some((s.subrange(i as int, ke as int), s.subrange((e2 + 1) as int, ve as int), (ve + 1) as nat))
    }
}

/// The `; key="value"` arguments from position `i` to the end, where only
/// whitespace may follow the last one.
pub open spec fn parse_args(s: Seq<char>, i: nat) -> Option<Seq<(Seq<char>, Seq<char>)>>
    decreases s.len() + 1 - i,
{
    let j = skip_ws(s, i);
    if i > s.len() {
        None
    } else if j >= s.len() {
        Some(Seq::empty())
    } else if s[j as int] != ';' {
        None
    } else {
        match parse_arg(s, skip_ws(s, j + 1)) {
            None => None,
            Some((k, v, e)) => if e <= i || e > s.len() {
                None
            } else {
                match parse_args(s, e) {
                    None => None,
                    Some(rest) => Some(seq![(k, v)] + rest),
                }
            },
        }
    }
}

/// `<URL>` at the start, whitespace allowed around each token: the URL and
/// the position after `>`.
pub open spec fn parse_url_part(s: Seq<char>) -> Option<(Seq<char>, nat)> {
    let a = skip_ws(s, 0);
    let u0 = skip_ws(s, a + 1);
    let u1 = url_end(s, u0);
    let b = skip_ws(s, u1);
    if !(a < s.len() && s[a as int] == '<') {
        None
    } else if u1 == u0 || !(b < s.len() && s[b as int] == '>') {
        None
    } else {
        Some((s.subrange(u0 as int, u1 as int), (b + 1) as nat))
    }
}

/// `<URL>` followed by its arguments.
pub open spec fn parse_syntax(s: Seq<char>) -> Option<(Seq<char>, Seq<(Seq<char>, Seq<char>)>)> {
    match parse_url_part(s) {
        None => None,
        Some((url, e)) => match parse_args(s, e) {
            None => None,
            Some(args) => Some((url, args)),
        },
    }
}

/// The value of the first pair named `key`.
pub open spec fn lookup(pairs: Seq<(Seq<char>, Seq<char>)>, key: Seq<char>) -> Option<Seq<char>>
    decreases pairs.len(),
{
    if pairs.len() == 0 {
        None
    } else if pairs[0].0 == key {
        Some(pairs[0].1)
    } else {
        lookup(pairs.drop_first(), key)
    }
}

pub open spec fn is_digit(c: char) -> bool {
    '0' <= c && c <= '9'
}

pub open spec fn digits_value(s: Seq<char>) -> nat
    decreases s.len(),
{
    if s.len() == 0 {
        0
    } else {
        digits_value(s.drop_last()) * 10 + (s.last() as int - '0' as int) as nat
    }
}

/// The text after one optional leading `+`.
pub open spec fn unsigned_part(s: Seq<char>) -> Seq<char> {
    if s.len() > 0 && s[0] == '+' {
        s.drop_first()
    } else {
        s
    }
}

pub open spec fn all_digits(d: Seq<char>) -> bool {
    forall|k: int| 0 <= k < d.len() ==> is_digit(#[trigger] d[k])
}

/// A decimal `u64` as std reads one: an optional `+`, then one or more
/// digits whose value fits.
pub open spec fn u64_of(s: Seq<char>) -> Option<u64> {
    let d = unsigned_part(s);
    if d.len() > 0 && all_digits(d) && digits_value(d) <= u64::MAX {
        Some(digits_value(d) as u64)
    } else {
        None
    }
}

/// A decimal `u32` as std reads one.
pub open spec fn u32_of(s: Seq<char>) -> Option<u32> {
    match u64_of(s) {
        Some(v) => if v <= u32::MAX {
            Some(v as u32)
        } else {
            None
        },
        None => None,
    }
}

/// A query parameter read as a number.
pub open spec fn param_of(pairs: Seq<(Seq<char>, Seq<char>)>, key: Seq<char>) -> Option<u32> {
    match lookup(pairs, key) {
        Some(v) => u32_of(v),
        None => None,
    }
}

/// One `Link` entry: its syntax, a `rel` argument, and `page` and
/// `per_page` numbers in the target URL's own query.
pub open spec fn link_of(s: Seq<char>) -> Option<LinkModel> {
    match parse_syntax(s) {
        None => None,
        Some((url, args)) => match (lookup(args, "rel"@), query_pairs_of(url)) {
            (Some(rel), Some(q)) => match (param_of(q, "page"@), param_of(q, "per_page"@)) {
                (Some(page), Some(per_page)) => Some(
                    LinkModel { url, page, per_page, rel: rel_of(rel) },
                ),
                _ => None,
            },
            _ => None,
        },
    }
}

fn is_ws_exec(c: char) -> (r: bool)
    ensures
        r == is_ws(c),
{
    c == ' ' || c == '\t'
}

fn is_alnum_exec(c: char) -> (r: bool)
    ensures
        r == is_alnum(c),
{
    ('0' <= c && c <= '9') || ('a' <= c && c <= 'z') || ('A' <= c && c <= 'Z')
}

fn skip_ws_exec(s: &Vec<char>, i: usize) -> (r: usize)
    requires
        i <= s.len(),
    ensures
        r == skip_ws(s@, i as nat),
        i <= r <= s.len(),
{
    let mut j = i;
    while j < s.len() && is_ws_exec(s[j])
        invariant
            i <= j <= s.len(),
            skip_ws(s@, j as nat) == skip_ws(s@, i as nat),
        decreases s.len() - j,
    {
        j = j + 1;
    }
    j
}

fn skip_alnum_exec(s: &Vec<char>, i: usize) -> (r: usize)
    requires
        i <= s.len(),
    ensures
        r == skip_alnum(s@, i as nat),
        i <= r <= s.len(),
{
    let mut j = i;
    while j < s.len() && is_alnum_exec(s[j])
        invariant
            i <= j <= s.len(),
            skip_alnum(s@, j as nat) == skip_alnum(s@, i as nat),
        decreases s.len() - j,
    {
        j = j + 1;
    }
    j
}

fn url_end_exec(s: &Vec<char>, i: usize) -> (r: usize)
    requires
        i <= s.len(),
    ensures
        r == url_end(s@, i as nat),
        i <= r <= s.len(),
{
    let mut j = i;
    while j < s.len() && s[j] != '>' && !is_ws_exec(s[j])
        invariant
            i <= j <= s.len(),
            url_end(s@, j as nat) == url_end(s@, i as nat),
        decreases s.len() - j,
    {
        j = j + 1;
    }
    j
}

/// Parses the `<URL>` that opens a link entry.
pub fn parse_url(text: &str, cs: &Vec<char>) -> (r: Option<(String, usize)>)
    requires
        cs@ == text@,
    ensures
        match parse_url_part(cs@) {
            Some((u, e)) => r matches Some((ru, re)) && ru@ == u && re == e,
            None => r is None,
        },
{
    let a = skip_ws_exec(cs, 0);
    if !(a < cs.len() && cs[a] == '<') {
        return None;
    }
    let u0 = skip_ws_exec(cs, a + 1);
    let u1 = url_end_exec(cs, u0);
    let b = skip_ws_exec(cs, u1);
    if u1 == u0 || !(b < cs.len() && cs[b] == '>') {
        return None;
    }
    Some((String::from_str(text.substring_char(u0, u1)), b + 1))
}

/// Parses one `key="value"` argument.
pub fn parse_argument(text: &str, cs: &Vec<char>, i: usize) -> (r: Option<(String, String, usize)>)
    requires
        cs@ == text@,
        i <= cs.len(),
    ensures
        match parse_arg(cs@, i as nat) {
            Some((k, v, e)) => r matches Some((rk, rv, re)) && rk@ == k && rv@ == v && re == e,
            None => r is None,
        },
{
    let ke = skip_alnum_exec(cs, i);
    let e1 = skip_ws_exec(cs, ke);
    if ke == i || !(e1 < cs.len() && cs[e1] == '=') {
        return None;
    }
    let e2 = skip_ws_exec(cs, e1 + 1);
    if !(e2 < cs.len() && cs[e2] == '"') {
        return None;
    }
    let ve = skip_alnum_exec(cs, e2 + 1);
    if ve == e2 + 1 || !(ve < cs.len() && cs[ve] == '"') {
        return None;
    }
    let key = String::from_str(text.substring_char(i, ke));
    let val = String::from_str(text.substring_char(e2 + 1, ve));
    Some((key, val, ve + 1))
}

fn parse_arguments(text: &str, cs: &Vec<char>, i: usize) -> (r: Option<Vec<(String, String)>>)
    requires
        cs@ == text@,
    ensures
        match parse_args(cs@, i as nat) {
            Some(a) => r matches Some(v) && pairs_view(v@) == a,
            None => r is None,
        },
    decreases cs.len() + 1 - i,
{
    if i > cs.len() {
        return None;
    }
    let j = skip_ws_exec(cs, i);
    if j >= cs.len() {
        let v: Vec<(String, String)> = Vec::new();
        assert(pairs_view(v@) =~= Seq::empty());
        return Some(v);
    }
    if cs[j] != ';' {
        return None;
    }
    let start = skip_ws_exec(cs, j + 1);
    match parse_argument(text, cs, start) {
        None => None,
        Some((k, v, e)) => {
            if e <= i || e > cs.len() {
                return None;
            }
            match parse_arguments(text, cs, e) {
                None => None,
                Some(mut rest) => {
                    let ghost old_rest = rest@;
                    rest.insert(0, (k, v));
                    assert(pairs_view(rest@) =~= seq![(k@, v@)] + pairs_view(old_rest));
                    Some(rest)
                },
            }
        },
    }
}

/// The value of the first pair named `key`.
pub fn lookup_exec(pairs: &Vec<(String, String)>, key: &str) -> (r: Option<String>)
    ensures
        match lookup(pairs_view(pairs@), key@) {
            Some(v) => r matches Some(x) && x@ == v,
            None => r is None,
        },
{
    let want = String::from_str(key);
    let ghost pv = pairs_view(pairs@);
    let mut k: usize = 0;
    assert(pv.subrange(0, pv.len() as int) =~= pv);
    while k < pairs.len()
        invariant
            want@ == key@,
            pv == pairs_view(pairs@),
            k <= pairs.len(),
            lookup(pv, key@) == lookup(pv.subrange(k as int, pv.len() as int), key@),
        decreases pairs.len() - k,
    {
        let ghost rest = pv.subrange(k as int, pv.len() as int);
        assert(rest[0] == pv[k as int]);
        assert(rest.drop_first() =~= pv.subrange(k + 1, pv.len() as int));
        if pairs[k].0 == want {
            return Some(pairs[k].1.clone());
        }
        k = k + 1;
    }
    None
}

/// Finds the value of `key` among link arguments and reads it as a relation.
pub fn get_arg(args: &Vec<(String, String)>, key: &str) -> (r: Option<LinkHeaderType>)
    ensures
        r == match lookup(pairs_view(args@), key@) {
            Some(v) => Some(rel_of(v)),
            None => None,
        },
{
    match lookup_exec(args, key) {
        Some(v) => Some(LinkHeaderType::from_name(&v)),
        None => None,
    }
}

proof fn lemma_digits_mono(s: Seq<char>, k: int)
    requires
        0 <= k <= s.len(),
        forall|i: int| 0 <= i < s.len() ==> is_digit(#[trigger] s[i]),
    ensures
        digits_value(s.subrange(0, k)) <= digits_value(s),
    decreases s.len() - k,
{
    if k < s.len() {
        lemma_digits_mono(s, k + 1);
        assert(s.subrange(0, k + 1).drop_last() =~= s.subrange(0, k));
    } else {
        assert(s.subrange(0, k) =~= s);
    }
}

/// Reads a decimal `u64` the way `str::parse` does.
pub fn parse_u64(text: &String) -> (r: Option<u64>)
    ensures
        r == u64_of(text@),
{
    let s = chars_of(text.as_str());
    let start: usize = if s.len() > 0 && s[0] == '+' {
        1
    } else {
        0
    };
    let ghost d = s@.subrange(start as int, s@.len() as int);
    assert(d =~= (if s@.len() > 0 && s@[0] == '+' {
        s@.drop_first()
    } else {
        s@
    }));
    if start >= s.len() {
        return None;
    }
    let mut val: u64 = 0;
    let mut i: usize = start;
    while i < s.len()
        invariant
            start <= i <= s.len(),
            s@ == text@,
            d == s@.subrange(start as int, s@.len() as int),
            d == unsigned_part(text@),
            forall|k: int| 0 <= k < i - start ==> is_digit(#[trigger] d[k]),
            val == digits_value(d.subrange(0, i - start)),
            
        decreases s.len() - i,
    {
        let c = s[i];
        let ghost k = (i - start) as int;
        assert(d[k] == c);
        if !('0' <= c && c <= '9') {
            assert(!is_digit(d[k]));
            return None;
        }
        let dv: u64 = if c == '0' {
            0
        } else if c == '1' {
            1
        } else if c == '2' {
            2
        } else if c == '3' {
            3
        } else if c == '4' {
            4
        } else if c == '5' {
            5
        } else if c == '6' {
            6
        } else if c == '7' {
            7
        } else if c == '8' {
            8
        } else {
            9
        };
        assert(d.subrange(0, k + 1).drop_last() =~= d.subrange(0, k));
        assert(d.subrange(0, k + 1).last() == c);
        assert(dv == c as int - '0' as int);
        let next: u128 = val as u128 * 10 + dv as u128;
        if next > 0xffff_ffff_ffff_ffff {
            proof {
                assert(digits_value(d.subrange(0, k + 1)) == next);
                if all_digits(d) {
                    lemma_digits_mono(d, k + 1);
                }
            }
            return None;
        }
        val = next as u64;
        i = i + 1;
    }
    assert(d.subrange(0, d.len() as int) =~= d);
    Some(val)
}

/// Reads a decimal `u32` the way `str::parse` does.
pub fn parse_u32(text: &String) -> (r: Option<u32>)
    ensures
        r == u32_of(text@),
{
    match parse_u64(text) {
        Some(v) => if v <= 0xffff_ffff {
            Some(v as u32)
        } else {
            None
        },
        None => None,
    }
}

/// The value of query parameter `key` read as a number.
pub fn get_param(pairs: &Vec<(String, String)>, key: &str) -> (r: Option<u32>)
    ensures
        r == param_of(pairs_view(pairs@), key@),
{
    match lookup_exec(pairs, key) {
        Some(v) => parse_u32(&v),
        None => None,
    }
}

/// Parses one `Link` entry such as
/// `<https://api.github.com/x/y/releases?page=1&per_page=5>; rel="next"`.
pub fn link_header(s: &str) -> (r: Result<LinkHeader, ErrorKind>)
    ensures
        match link_of(s@) {
            Some(m) => r matches Ok(h) && h@ == m,
            None => r matches Err(ErrorKind::InvalidLinkHeader),
        },
{
    let cs = chars_of(s);
    let (url, e) = match parse_url(s, &cs) {
        Some(p) => p,
        None => return Err(ErrorKind::InvalidLinkHeader),
    };
    let args = match parse_arguments(s, &cs, e) {
        Some(a) => a,
        None => return Err(ErrorKind::InvalidLinkHeader),
    };
    let rel = match get_arg(&args, "rel") {
        Some(r) => r,
        None => return Err(ErrorKind::InvalidLinkHeader),
    };
    let q = match query_pairs(url.as_str()) {
        Some(q) => q,
        None => return Err(ErrorKind::InvalidLinkHeader),
    };
    match (get_param(&q, "page"), get_param(&q, "per_page")) {
        (Some(page), Some(per_page)) => Ok(LinkHeader { url, page, per_page, rel }),
        _ => Err(ErrorKind::InvalidLinkHeader),
    }
}

} // verus!
