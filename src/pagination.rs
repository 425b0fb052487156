//! Following `rel="next"` links from page to page.

use vstd::prelude::*;
use crate::error::ErrorKind;
use crate::link_header::{link_header, link_of, LinkHeader, LinkHeaderType, LinkModel};
use crate::text::chars_of;

verus! {

/// `s` cut at every `sep`; the pieces keep their order and an empty text is
/// one empty piece.
pub open spec fn split_on(s: Seq<char>, sep: char) -> Seq<Seq<char>>
    decreases s.len(),
{
    if s.len() == 0 {
        seq![Seq::empty()]
    } else {
        let init = split_on(s.drop_last(), sep);
        if s.last() == sep {
            init.push(Seq::empty())
        } else {
            init.update(init.len() - 1, init.last().push(s.last()))
        }
    }
}

pub proof fn lemma_split_nonempty(s: Seq<char>, sep: char)
    ensures
        split_on(s, sep).len() >= 1,
    decreases s.len(),
{
    if s.len() > 0 {
        lemma_split_nonempty(s.drop_last(), sep);
    }
}

/// Cuts `s` at every comma.
pub fn split_commas(s: &str) -> (r: Vec<String>)
    ensures
        r@.map_values(|x: String| x@) == split_on(s@, ','),
{
    let cs = chars_of(s);
    let mut out: Vec<String> = Vec::new();
    let mut start: usize = 0;
    let mut i: usize = 0;
    assert(cs@.subrange(0, 0) =~= Seq::<char>::empty());
    assert(out@.map_values(|x: String| x@) =~= Seq::<Seq<char>>::empty());
    assert(out@.map_values(|x: String| x@) + seq![cs@.subrange(0, 0)] =~= split_on(
        cs@.subrange(0, 0),
        ',',
    ));
    while i < cs.len()
        invariant
            cs@ == s@,
            start <= i <= cs.len(),
            out@.map_values(|x: String| x@) + seq![cs@.subrange(start as int, i as int)]
                == split_on(cs@.subrange(0, i as int), ','),
        decreases cs.len() - i,
    {
        let ghost pre = cs@.subrange(0, i as int);
        assert(cs@.subrange(0, i + 1).drop_last() =~= pre);
        assert(cs@.subrange(0, i + 1).last() == cs@[i as int]);
        proof {
            lemma_split_nonempty(pre, ',');
        }
        if cs[i] == ',' {
            let piece = String::from_str(s.substring_char(start, i));
            let ghost before = out@.map_values(|x: String| x@);
            out.push(piece);
            assert(out@.map_values(|x: String| x@) =~= before.push(piece@));
            start = i + 1;
            assert(cs@.subrange(start as int, i + 1) =~= Seq::<char>::empty());
            assert(out@.map_values(|x: String| x@) + seq![cs@.subrange(start as int, i + 1)]
                =~= split_on(cs@.subrange(0, i + 1), ','));
        } else {
            assert(cs@.subrange(start as int, i + 1) =~= cs@.subrange(start as int, i as int).push(
                cs@[i as int],
            ));
            assert(out@.map_values(|x: String| x@) + seq![cs@.subrange(start as int, i + 1)]
                =~= split_on(cs@.subrange(0, i + 1), ','));
        }
        i = i + 1;
    }
    let piece = String::from_str(s.substring_char(start, cs.len()));
    let ghost before = out@.map_values(|x: String| x@);
    out.push(piece);
    assert(out@.map_values(|x: String| x@) =~= before.push(piece@));
    assert(cs@.subrange(0, cs.len() as int) =~= cs@);
    out
}

/// The continuation links of one response, by relation.
#[derive(Clone, Debug)]
pub struct LinkHeaders {
    pub next: Option<LinkHeader>,
    pub prev: Option<LinkHeader>,
    pub first: Option<LinkHeader>,
    pub last: Option<LinkHeader>,
}

pub struct LinksModel {
    pub next: Option<LinkModel>,
    pub prev: Option<LinkModel>,
    pub first: Option<LinkModel>,
    pub last: Option<LinkModel>,
}

pub open spec fn opt_link(o: Option<LinkHeader>) -> Option<LinkModel> {
    match o {
        Some(h) => Some(h@),
        None => None,
    }
}

impl View for LinkHeaders {
    type V = LinksModel;

    open spec fn view(&self) -> LinksModel {
        LinksModel {
            next: opt_link(self.next),
            prev: opt_link(self.prev),
            first: opt_link(self.first),
            last: opt_link(self.last),
        }
    }
}

/// Records one link under its relation; an unknown relation is ignored.
pub open spec fn with_link(l: LinksModel, e: LinkModel) -> LinksModel {
    match e.rel {
        LinkHeaderType::Next => LinksModel { next: Some(e), ..l },
        LinkHeaderType::Prev => LinksModel { prev: Some(e), ..l },
        LinkHeaderType::First => LinksModel { first: Some(e), ..l },
        LinkHeaderType::Last => LinksModel { last: Some(e), ..l },
        LinkHeaderType::Unknown => l,
    }
}

/// The links of a list of entries; a later entry of a relation replaces an
/// earlier one, and one malformed entry fails the whole list.
pub open spec fn links_of(entries: Seq<Seq<char>>) -> Option<LinksModel>
    decreases entries.len(),
{
    if entries.len() == 0 {
        Some(LinksModel { next: None, prev: None, first: None, last: None })
    } else {
        match (links_of(entries.drop_last()), link_of(entries.last())) {
            (Some(l), Some(e)) => Some(with_link(l, e)),
            _ => None,
        }
    }
}

/// The links of a whole `Link` header value.
pub open spec fn header_links(s: Seq<char>) -> Option<LinksModel> {
    links_of(split_on(s, ','))
}

impl LinkHeaders {
    /// Parses a whole `Link` header value.
    pub fn new(header: &str) -> (r: Result<LinkHeaders, ErrorKind>)
        ensures
            match header_links(header@) {
                Some(m) => r matches Ok(l) && l@ == m,
                None => r matches Err(ErrorKind::InvalidLinkHeader),
            },
    {
        let parts = split_commas(header);
        let ghost ps = parts@.map_values(|x: String| x@);
        let mut out = LinkHeaders { next: None, prev: None, first: None, last: None };
        let mut i: usize = 0;
        assert(ps.subrange(0, 0) =~= Seq::<Seq<char>>::empty());
        while i < parts.len()
            invariant
                ps == parts@.map_values(|x: String| x@),
                ps == split_on(header@, ','),
                i <= parts.len(),
                links_of(ps.subrange(0, i as int)) == Some(out@),
            decreases parts.len() - i,
        {
            assert(ps.subrange(0, i + 1).drop_last() =~= ps.subrange(0, i as int));
            assert(ps.subrange(0, i + 1).last() == parts@[i as int]@);
            let h = match link_header(parts[i].as_str()) {
                Ok(h) => h,
                Err(_) => {
                    proof {
                        lemma_links_fail(ps, i as int + 1);
                        assert(ps.subrange(0, ps.len() as int) =~= ps);
                    }
                    return Err(ErrorKind::InvalidLinkHeader);
                },
            };
            match h.rel {
                LinkHeaderType::Next => out.next = Some(h),
                LinkHeaderType::Prev => out.prev = Some(h),
                LinkHeaderType::First => out.first = Some(h),
                LinkHeaderType::Last => out.last = Some(h),
                LinkHeaderType::Unknown => {},
            }
            i = i + 1;
        }
        assert(ps.subrange(0, ps.len() as int) =~= ps);
        Ok(out)
    }

    /// Whether a `next` link leads to a page other than `page`.
    pub fn should_next(&self, page: u32) -> (r: bool)
        ensures
            r == (self@.next matches Some(n) && n.page != page),
    {
        match &self.next {
            Some(n) => n.page != page,
            None => false,
        }
    }

    /// The page of the `next` link, or `current` without one.
    pub fn get_next(&self, current: u32) -> (r: u32)
        ensures
            r == match self@.next {
                Some(n) => n.page,
                None => current,
            },
    {
        match &self.next {
            Some(n) => n.page,
            None => current,
        }
    }
}

/// A failed prefix fails every longer prefix.
proof fn lemma_links_fail(ps: Seq<Seq<char>>, k: int)
    requires
        0 < k <= ps.len(),
        links_of(ps.subrange(0, k)) is None,
    ensures
        links_of(ps.subrange(0, ps.len() as int)) is None,
    decreases ps.len() - k,
{
    if k < ps.len() {
        assert(ps.subrange(0, k + 1).drop_last() =~= ps.subrange(0, k));
        lemma_links_fail(ps, k + 1);
    }
}

/// The page to fetch after page `current`, from the response's `Link`
/// header: `None` to stop.
pub open spec fn next_page_of(current: u32, header: Option<Seq<char>>) -> Option<Option<u32>> {
    match header {
        None => Some(None),
        Some(h) => match header_links(h) {
            None => None,
            Some(l) => match l.next {
                Some(n) => if n.page != current {
                    Some(Some(n.page))
                } else {
                    Some(None)
                },
                None => Some(None),
            },
        },
    }
}

/// Decides whether to go on after fetching page `current`: continue to the
/// `next` link's page when there is one and it differs from `current`;
/// stop without a `Link` header; fail on a malformed one.
pub fn next_page(current: u32, header: Option<&str>) -> (r: Result<Option<u32>, ErrorKind>)
    ensures
        match next_page_of(current, match header { Some(h) => Some(h@), None => None }) {
            Some(p) => r == Ok::<Option<u32>, ErrorKind>(p),
            None => r matches Err(ErrorKind::InvalidLinkHeader),
        },
{
    match header {
        None => Ok(None),
        Some(h) => match LinkHeaders::new(h) {
            Err(e) => Err(e),
            Ok(lh) => if lh.should_next(current) {
                Ok(Some(lh.get_next(current)))
            } else {
                Ok(None)
            },
        },
    }
}

} // verus!
