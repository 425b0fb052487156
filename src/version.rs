//! Semantic versions, their precedence and their release channel.

use vstd::prelude::*;
use core::cmp::Ordering;
use crate::error::ErrorKind;
use crate::order::{
    char_order, cmp_int, cmp_text, cmp_u64, flip, is_order, lemma_char_order, lemma_lex_is_order,
    lemma_lex_skip, lex,
};

verus! {

/// One dot-separated pre-release or build identifier.
#[derive(Clone, Debug, PartialEq, Eq)]
pub enum Identifier {
    Numeric(u64),
    AlphaNumeric(String),
}

pub enum IdentModel {
    Numeric(u64),
    AlphaNumeric(Seq<char>),
}

impl View for Identifier {
    type V = IdentModel;

    open spec fn view(&self) -> IdentModel {
        match self {
            Identifier::Numeric(n) => IdentModel::Numeric(*n),
            Identifier::AlphaNumeric(s) => IdentModel::AlphaNumeric(s@),
        }
    }
}

pub open spec fn idents_view(v: Seq<Identifier>) -> Seq<IdentModel> {
    v.map_values(|i: Identifier| i@)
}

/// A semantic version: `major.minor.patch`, pre-release identifiers and
/// build metadata.
#[derive(Clone, Debug, PartialEq, Eq)]
pub struct Version {
    pub major: u64,
    pub minor: u64,
    pub patch: u64,
    pub pre: Vec<Identifier>,
    pub build: Vec<Identifier>,
}

pub struct VersionModel {
    pub major: u64,
    pub minor: u64,
    pub patch: u64,
    pub pre: Seq<IdentModel>,
    pub build: Seq<IdentModel>,
}

impl View for Version {
    type V = VersionModel;

    open spec fn view(&self) -> VersionModel {
        VersionModel {
            major: self.major,
            minor: self.minor,
            patch: self.patch,
            pre: idents_view(self.pre@),
            build: idents_view(self.build@),
        }
    }
}

/// Numeric identifiers come before alphanumeric ones; each kind compares
/// by its value.
pub open spec fn ident_cmp(a: IdentModel, b: IdentModel) -> Ordering {
    match (a, b) {
        (IdentModel::Numeric(x), IdentModel::Numeric(y)) => cmp_int(x as int, y as int),
        (IdentModel::Numeric(_), IdentModel::AlphaNumeric(_)) => Ordering::Less,
        (IdentModel::AlphaNumeric(_), IdentModel::Numeric(_)) => Ordering::Greater,
        (IdentModel::AlphaNumeric(x), IdentModel::AlphaNumeric(y)) => lex(x, y, char_order()),
    }
}

pub open spec fn ident_order() -> spec_fn(IdentModel, IdentModel) -> Ordering {
    |a: IdentModel, b: IdentModel| ident_cmp(a, b)
}

/// A version without pre-release identifiers outranks one with them;
/// otherwise the identifiers compare lexicographically.
pub open spec fn pre_cmp(a: Seq<IdentModel>, b: Seq<IdentModel>) -> Ordering {
    if a.len() == 0 && b.len() == 0 {
        Ordering::Equal
    } else if a.len() == 0 {
        Ordering::Greater
    } else if b.len() == 0 {
        Ordering::Less
    } else {
        lex(a, b, ident_order())
    }
}

/// Semantic-version precedence; build metadata takes no part.
pub open spec fn version_cmp(a: VersionModel, b: VersionModel) -> Ordering {
    if a.major != b.major {
        cmp_int(a.major as int, b.major as int)
    } else if a.minor != b.minor {
        cmp_int(a.minor as int, b.minor as int)
    } else if a.patch != b.patch {
        cmp_int(a.patch as int, b.patch as int)
    } else {
        pre_cmp(a.pre, b.pre)
    }
}

pub open spec fn version_order() -> spec_fn(VersionModel, VersionModel) -> Ordering {
    |a: VersionModel, b: VersionModel| version_cmp(a, b)
}

/// `a` has strictly higher precedence than `b`.
pub open spec fn newer(a: VersionModel, b: VersionModel) -> bool {
    version_cmp(a, b) == Ordering::Greater
}

pub proof fn lemma_ident_order()
    ensures
        is_order(ident_order()),
{
    lemma_char_order();
    lemma_lex_is_order(char_order());
    let l = |a: Seq<char>, b: Seq<char>| lex(a, b, char_order());
    assert forall|x: IdentModel, y: IdentModel|
        #[trigger] ident_order()(x, y) == flip(ident_order()(y, x)) by {
        if let (IdentModel::AlphaNumeric(p), IdentModel::AlphaNumeric(q)) = (x, y) {
            assert(l(p, q) == flip(l(q, p)));
        }
    }
    assert forall|x: IdentModel, y: IdentModel, z: IdentModel|
        #![trigger ident_order()(x, y), ident_order()(y, z)]
        ident_order()(x, y) != Ordering::Greater && ident_order()(y, z) != Ordering::Greater
            implies ident_order()(x, z) != Ordering::Greater by {
        if let (IdentModel::AlphaNumeric(p), IdentModel::AlphaNumeric(q), IdentModel::AlphaNumeric(
            r,
        )) = (x, y, z) {
            assert(l(p, q) != Ordering::Greater && l(q, r) != Ordering::Greater);
        }
    }
}

/// Version precedence is antisymmetric and transitive.
pub proof fn lemma_version_order()
    ensures
        is_order(version_order()),
{
    lemma_ident_order();
    lemma_lex_is_order(ident_order());
    let l = |a: Seq<IdentModel>, b: Seq<IdentModel>| lex(a, b, ident_order());
    assert forall|x: VersionModel, y: VersionModel|
        #[trigger] version_order()(x, y) == flip(version_order()(y, x)) by {
        assert(l(x.pre, y.pre) == flip(l(y.pre, x.pre)));
    }
    assert forall|x: VersionModel, y: VersionModel, z: VersionModel|
        #![trigger version_order()(x, y), version_order()(y, z)]
        version_order()(x, y) != Ordering::Greater && version_order()(y, z) != Ordering::Greater
            implies version_order()(x, z) != Ordering::Greater by {
        assert(l(x.pre, y.pre) != Ordering::Greater && l(y.pre, z.pre) != Ordering::Greater
            ==> l(x.pre, z.pre) != Ordering::Greater);
    }
}

pub fn cmp_identifier(a: &Identifier, b: &Identifier) -> (r: Ordering)
    ensures
        r == ident_cmp(a@, b@),
{
    match (a, b) {
        (Identifier::Numeric(x), Identifier::Numeric(y)) => cmp_u64(*x, *y),
        (Identifier::Numeric(_), Identifier::AlphaNumeric(_)) => Ordering::Less,
        (Identifier::AlphaNumeric(_), Identifier::Numeric(_)) => Ordering::Greater,
        (Identifier::AlphaNumeric(x), Identifier::AlphaNumeric(y)) => cmp_text(x, y),
    }
}

/// Compares pre-release identifier lists by precedence.
pub fn cmp_pre(a: &Vec<Identifier>, b: &Vec<Identifier>) -> (r: Ordering)
    ensures
        r == pre_cmp(idents_view(a@), idents_view(b@)),
{
    if a.len() == 0 && b.len() == 0 {
        return Ordering::Equal;
    } else if a.len() == 0 {
        return Ordering::Greater;
    } else if b.len() == 0 {
        return Ordering::Less;
    }
    let ghost av = idents_view(a@);
    let ghost bv = idents_view(b@);
    let mut i: usize = 0;
    while i < a.len() && i < b.len()
        invariant
            av == idents_view(a@),
            bv == idents_view(b@),
            i <= a.len(),
            i <= b.len(),
            forall|k: int| 0 <= k < i ==> ident_order()(av[k], bv[k]) == Ordering::Equal,
        decreases a.len() - i,
    {
        let o = cmp_identifier(&a[i], &b[i]);
        assert(ident_order()(av[i as int], bv[i as int]) == o);
        match o {
            Ordering::Equal => {},
            _ => {
                proof {
                    lemma_lex_skip(av, bv, i as int, ident_order());
                    assert(av.subrange(i as int, av.len() as int)[0] == av[i as int]);
                    assert(bv.subrange(i as int, bv.len() as int)[0] == bv[i as int]);
                }
                return o;
            },
        }
        i = i + 1;
    }
    proof {
        lemma_lex_skip(av, bv, i as int, ident_order());
    }
    if i < a.len() {
        Ordering::Greater
    } else if i < b.len() {
        Ordering::Less
    } else {
        Ordering::Equal
    }
}

pub open spec fn digit(d: nat) -> char {
    if d == 0 {
        '0'
    } else if d == 1 {
        '1'
    } else if d == 2 {
        '2'
    } else if d == 3 {
        '3'
    } else if d == 4 {
        '4'
    } else if d == 5 {
        '5'
    } else if d == 6 {
        '6'
    } else if d == 7 {
        '7'
    } else if d == 8 {
        '8'
    } else {
        '9'
    }
}

/// The decimal rendering of `n`, without leading zeros.
pub open spec fn decimal(n: nat) -> Seq<char>
    decreases n,
{
    if n < 10 {
        seq![digit(n)]
    } else {
        decimal(n / 10) + seq![digit(n % 10)]
    }
}

/// The text of an identifier: numbers in decimal.
pub open spec fn ident_text(i: IdentModel) -> Seq<char> {
    match i {
        IdentModel::Numeric(n) => decimal(n as nat),
        IdentModel::AlphaNumeric(s) => s,
    }
}

/// The release channel: the first pre-release identifier, absent for a
/// stable version.
pub open spec fn channel_of(v: VersionModel) -> Option<Seq<char>> {
    if v.pre.len() == 0 {
        None
    } else {
        Some(ident_text(v.pre[0]))
    }
}

pub open spec fn opt_text(o: Option<String>) -> Option<Seq<char>> {
    match o {
        Some(s) => Some(s@),
        None => None,
    }
}

/// One leading `v` is not part of the version.
pub open spec fn strip_v(s: Seq<char>) -> Seq<char> {
    if s.len() > 0 && s[0] == 'v' {
        s.drop_first()
    } else {
        s
    }
}

/// What semver's strict parser makes of a text, `None` where it fails.
pub uninterp spec fn semver_parse(s: Seq<char>) -> Option<VersionModel>;

/// Relies on `semver::Version::parse` (semver 0.9): the parsed fields, or
/// `None` where the text is not a strict semantic version.
#[verifier::external_body]
fn parse_semver(s: &str) -> (r: Option<Version>)
    ensures
        match r {
            Some(v) => semver_parse(s@) == Some(v@),
            None => semver_parse(s@) == Option::<VersionModel>::None,
        },
{
    let conv = |i: semver::Identifier| match i {
        semver::Identifier::Numeric(n) => Identifier::Numeric(n),
        semver::Identifier::AlphaNumeric(a) => Identifier::AlphaNumeric(a),
    };
    semver::Version::parse(s).ok().map(|v| Version {
        major: v.major,
        minor: v.minor,
        patch: v.patch,
        pre: v.pre.into_iter().map(conv).collect(),
        build: v.build.into_iter().map(conv).collect(),
    })
}

/// Parses a release tag or path segment: one leading `v` is dropped, the
/// rest must be a strict semantic version.
pub fn parse_version(tag: &str) -> (r: Result<Version, ErrorKind>)
    ensures
        match semver_parse(strip_v(tag@)) {
            Some(m) => r matches Ok(v) && v@ == m,
            None => r matches Err(ErrorKind::InvalidVersion),
        },
{
    let n = tag.unicode_len();
    let name = if n > 0 && tag.get_char(0) == 'v' {
        let rest = tag.substring_char(1, n);
        assert(rest@ =~= tag@.drop_first());
        rest
    } else {
        tag
    };
    match parse_semver(name) {
        Some(v) => Ok(v),
        None => Err(ErrorKind::InvalidVersion),
    }
}

fn digit_text(d: u64) -> (r: &'static str)
    requires
        d < 10,
    ensures
        r@ == seq![digit(d as nat)],
{
    proof {
        reveal_strlit("0");
        reveal_strlit("1");
        reveal_strlit("2");
        reveal_strlit("3");
        reveal_strlit("4");
        reveal_strlit("5");
        reveal_strlit("6");
        reveal_strlit("7");
        reveal_strlit("8");
        reveal_strlit("9");
    }
    let r = if d == 0 {
        "0"
    } else if d == 1 {
        "1"
    } else if d == 2 {
        "2"
    } else if d == 3 {
        "3"
    } else if d == 4 {
        "4"
    } else if d == 5 {
        "5"
    } else if d == 6 {
        "6"
    } else if d == 7 {
        "7"
    } else if d == 8 {
        "8"
    } else {
        "9"
    };
    assert(r@ =~= seq![digit(d as nat)]);
    r
}

/// Renders a number in decimal.
pub fn decimal_text(n: u64) -> (r: String)
    ensures
        r@ == decimal(n as nat),
    decreases n,
{
    if n < 10 {
        String::from_str(digit_text(n))
    } else {
        let mut s = decimal_text(n / 10);
        s.append(digit_text(n % 10));
        s
    }
}

impl Identifier {
    /// The identifier as text.
    pub fn text(&self) -> (r: String)
        ensures
            r@ == ident_text(self@),
    {
        match self {
            Identifier::Numeric(n) => decimal_text(*n),
            Identifier::AlphaNumeric(s) => s.clone(),
        }
    }
}

impl Version {
    /// The release channel: the first pre-release identifier as text, or
    /// `None` on the stable channel.
    pub fn channel(&self) -> (r: Option<String>)
        ensures
            opt_text(r) == channel_of(self@),
    {
        if self.pre.len() == 0 {
            None
        } else {
            Some(self.pre[0].text())
        }
    }

    /// Whether two versions belong to the same channel.
    pub fn same_channel(&self, o: &Version) -> (r: bool)
        ensures
            r == (channel_of(self@) == channel_of(o@)),
    {
        match (self.channel(), o.channel()) {
            (None, None) => true,
            (Some(a), Some(b)) => a == b,
            _ => false,
        }
    }

    /// Compares two versions by semantic-version precedence.
    pub fn cmp_precedence(&self, o: &Version) -> (r: Ordering)
        ensures
            r == version_cmp(self@, o@),
    {
        if self.major != o.major {
            cmp_u64(self.major, o.major)
        } else if self.minor != o.minor {
            cmp_u64(self.minor, o.minor)
        } else if self.patch != o.patch {
            cmp_u64(self.patch, o.patch)
        } else {
            cmp_pre(&self.pre, &o.pre)
        }
    }

    /// Whether `self` has strictly higher precedence than `o`.
    pub fn is_newer_than(&self, o: &Version) -> (r: bool)
        ensures
            r == newer(self@, o@),
    {
        match self.cmp_precedence(o) {
            Ordering::Greater => true,
            _ => false,
        }
    }
}

} // verus!
