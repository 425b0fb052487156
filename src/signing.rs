//! Signed download URLs: an expiry and a keyed digest over the canonical
//! form of the URL, checked again without any stored state.

use vstd::prelude::*;
use core::cmp::Ordering;
use crate::link_header::{digits_value, is_digit, u64_of, unsigned_part, all_digits, parse_u64};
use crate::order::{char_order, cmp_text, lex};
use crate::query::{
    append_pairs, appended_of, pairs_view, query_pairs, query_pairs_of, with_query, with_query_of,
};
use crate::version::{decimal, decimal_text, digit};

verus! {

pub type Pairs = Seq<(Seq<char>, Seq<char>)>;

/// Why a URL could not be signed.
#[derive(Clone, Copy, Debug, PartialEq, Eq, Structural)]
pub enum SigningError {
    InvalidUrl,
}

/// Why a signed URL is refused.
#[derive(Clone, Copy, Debug, PartialEq, Eq, Structural)]
pub enum ValidationError {
    InvalidUrl,
    MissingExpiration,
    InvalidExpiration,
    Expired,
    MissingSignature,
    InvalidSignature,
}

/// The HMAC-SHA256 code of `msg` under the key `secret`.
pub uninterp spec fn hmac_sha256_of(secret: Seq<char>, msg: Seq<char>) -> Seq<u8>;

/// The Crockford base32 text of `b`.
pub uninterp spec fn crockford_of(b: Seq<u8>) -> Seq<char>;

/// The lower-case form of `s`.
pub uninterp spec fn lower_of(s: Seq<char>) -> Seq<char>;

/// Relies on rust-crypto's `Hmac::new(Sha256::new(), key)`, `input` and
/// `result().code()`: the HMAC-SHA256 code of the message bytes.
#[verifier::external_body]
fn hmac_sha256(secret: &str, msg: &str) -> (r: Vec<u8>)
    ensures
        r@ == hmac_sha256_of(secret@, msg@),
{
    let mut hmac = crypto::hmac::Hmac::new(crypto::sha2::Sha256::new(), secret.as_bytes());
    crypto::mac::Mac::input(&mut hmac, msg.as_bytes());
    crypto::mac::Mac::result(&mut hmac).code().to_vec()
}

/// Relies on `base32::encode` with `Alphabet::Crockford`.
#[verifier::external_body]
fn crockford(b: &Vec<u8>) -> (r: String)
    ensures
        r@ == crockford_of(b@),
{
    base32::encode(base32::Alphabet::Crockford, b.as_slice())
}

/// Relies on `str::to_lowercase`.
#[verifier::external_body]
pub(crate) fn lowercase(s: &str) -> (r: String)
    ensures
        r@ == lower_of(s@),
{
    s.to_lowercase()
}

/// The digest of a signing text: lower-case Crockford base32 of its
/// HMAC-SHA256 code.
pub open spec fn signature_of(secret: Seq<char>, text: Seq<char>) -> Seq<char> {
    lower_of(crockford_of(hmac_sha256_of(secret, text)))
}

pub fn get_signature(secret: &str, text: &str) -> (r: String)
    ensures
        r@ == signature_of(secret@, text@),
{
    let code = hmac_sha256(secret, text);
    let b32 = crockford(&code);
    lowercase(b32.as_str())
}

pub open spec fn key_less(a: Seq<char>, b: Seq<char>) -> bool {
    lex(a, b, char_order()) == Ordering::Less
}

/// The position of key `k` in a key-sorted list: the number of keys before it.
pub open spec fn key_pos(m: Pairs, k: Seq<char>) -> nat
    decreases m.len(),
{
    if m.len() == 0 {
        0
    } else if key_less(m[0].0, k) {
        1 + key_pos(m.drop_first(), k)
    } else {
        0
    }
}

/// Puts a pair into a key-sorted list, replacing the value of an equal key.
pub open spec fn insert_key(m: Pairs, kv: (Seq<char>, Seq<char>)) -> Pairs {
    let p = key_pos(m, kv.0) as int;
    if p < m.len() && m[p].0 == kv.0 {
        m.update(p, kv)
    } else {
        m.insert(p, kv)
    }
}

/// The canonical mapping of a pair list: sorted by key, one entry per key,
/// the last value of each key winning.
pub open spec fn canonical(pairs: Pairs) -> Pairs
    decreases pairs.len(),
{
    if pairs.len() == 0 {
        Seq::empty()
    } else {
        insert_key(canonical(pairs.drop_last()), pairs.last())
    }
}

fn key_less_exec(a: &String, b: &String) -> (r: bool)
    ensures
        r == key_less(a@, b@),
{
    match cmp_text(a, b) {
        Ordering::Less => true,
        _ => false,
    }
}

fn insert_sorted(m: &mut Vec<(String, String)>, k: String, v: String)
    ensures
        pairs_view(final(m)@) == insert_key(pairs_view(old(m)@), (k@, v@)),
{
    let ghost mv = pairs_view(m@);
    let mut p: usize = 0;
    assert(mv.subrange(0, mv.len() as int) =~= mv);
    while p < m.len() && key_less_exec(&m[p].0, &k)
        invariant
            mv == pairs_view(m@),
            p <= m.len(),
            key_pos(mv, k@) == p + key_pos(mv.subrange(p as int, mv.len() as int), k@),
        decreases m.len() - p,
    {
        let ghost rest = mv.subrange(p as int, mv.len() as int);
        assert(rest[0] == mv[p as int]);
        assert(rest.drop_first() =~= mv.subrange(p + 1, mv.len() as int));
        p = p + 1;
    }
    let ghost rest = mv.subrange(p as int, mv.len() as int);
    if p < m.len() {
        assert(rest[0] == mv[p as int]);
    }
    assert(key_pos(mv, k@) == p);
    if p < m.len() && m[p].0 == k {
        m.set(p, (k, v));
        assert(pairs_view(m@) =~= mv.update(p as int, (k@, v@)));
    } else {
        m.insert(p, (k, v));
        assert(pairs_view(m@) =~= mv.insert(p as int, (k@, v@)));
    }
}

/// Builds the canonical mapping of a pair list.
pub fn canonicalize(pairs: &Vec<(String, String)>) -> (r: Vec<(String, String)>)
    ensures
        pairs_view(r@) == canonical(pairs_view(pairs@)),
{
    let ghost pv = pairs_view(pairs@);
    let mut out: Vec<(String, String)> = Vec::new();
    let mut i: usize = 0;
    assert(pairs_view(out@) =~= canonical(pv.subrange(0, 0)));
    while i < pairs.len()
        invariant
            pv == pairs_view(pairs@),
            i <= pairs.len(),
            pairs_view(out@) == canonical(pv.subrange(0, i as int)),
        decreases pairs.len() - i,
    {
        assert(pv.subrange(0, i + 1).drop_last() =~= pv.subrange(0, i as int));
        assert(pv.subrange(0, i + 1).last() == pv[i as int]);
        insert_sorted(&mut out, pairs[i].0.clone(), pairs[i].1.clone());
        i = i + 1;
    }
    assert(pv.subrange(0, pv.len() as int) =~= pv);
    out
}

/// The pairs without those named `k`.
pub open spec fn without_key(s: Pairs, k: Seq<char>) -> Pairs
    decreases s.len(),
{
    if s.len() == 0 {
        Seq::empty()
    } else {
        let r = without_key(s.drop_last(), k);
        if s.last().0 == k {
            r
        } else {
            r.push(s.last())
        }
    }
}

/// The value of the last pair named `k`.
pub open spec fn last_value(s: Pairs, k: Seq<char>) -> Option<Seq<char>>
    decreases s.len(),
{
    if s.len() == 0 {
        None
    } else if s.last().0 == k {
        Some(s.last().1)
    } else {
        last_value(s.drop_last(), k)
    }
}

pub open spec fn has_key(s: Pairs, k: Seq<char>) -> bool {
    exists|i: int| 0 <= i < s.len() && #[trigger] s[i].0 == k
}

/// The expiry parameter for an instant in Unix seconds.
pub open spec fn exp_pair(exp: u64) -> (Seq<char>, Seq<char>) {
    ("exp"@, decimal(exp as nat))
}

/// What gets digested when a URL whose query holds `q` is signed to expire
/// at `exp`: the URL with its query replaced by the canonical mapping of
/// `q` and the expiry.
pub open spec fn signing_text(url: Seq<char>, q: Pairs, exp: u64) -> Seq<char> {
    with_query_of(url, canonical(q.push(exp_pair(exp))))
}

/// The signed form of `url`: the URL as given, with the expiry and the
/// signature appended.
pub open spec fn signed_url_of(secret: Seq<char>, url: Seq<char>, exp: u64) -> Option<Seq<char>> {
    match query_pairs_of(url) {
        None => None,
        Some(q) => Some(
            appended_of(
                url,
                seq![exp_pair(exp), ("signature"@, signature_of(secret, signing_text(url, q, exp)))],
            ),
        ),
    }
}

/// The checks on the query alone: the expiry must be present, a number,
/// and later than `now`, and a signature must be present. Gives the
/// signature and the canonical mapping of every other parameter.
pub open spec fn query_check(q: Pairs, now: u64) -> Result<(Seq<char>, Pairs), ValidationError> {
    match last_value(q, "exp"@) {
        None => Err(ValidationError::MissingExpiration),
        Some(e) => match u64_of(e) {
            None => Err(ValidationError::InvalidExpiration),
            Some(t) => if t <= now {
                Err(ValidationError::Expired)
            } else {
                match last_value(q, "signature"@) {
                    None => Err(ValidationError::MissingSignature),
                    Some(sig) => Ok((sig, canonical(without_key(q, "signature"@)))),
                }
            },
        },
    }
}

/// The verdict on a URL at instant `now`: the query checks, then the
/// signature must equal the digest of the URL with the canonical query.
pub open spec fn validation_of(secret: Seq<char>, url: Seq<char>, now: u64) -> Result<
    (),
    ValidationError,
> {
    match query_pairs_of(url) {
        None => Err(ValidationError::InvalidUrl),
        Some(q) => match query_check(q, now) {
            Err(e) => Err(e),
            Ok((sig, canon)) => if sig == signature_of(secret, with_query_of(url, canon)) {
                Ok(())
            } else {
                Err(ValidationError::InvalidSignature)
            },
        },
    }
}

fn without_key_exec(s: &Vec<(String, String)>, k: &str) -> (r: Vec<(String, String)>)
    ensures
        pairs_view(r@) == without_key(pairs_view(s@), k@),
{
    let ghost sv = pairs_view(s@);
    let key = String::from_str(k);
    let mut out: Vec<(String, String)> = Vec::new();
    let mut i: usize = 0;
    assert(pairs_view(out@) =~= without_key(sv.subrange(0, 0), k@));
    while i < s.len()
        invariant
            sv == pairs_view(s@),
            key@ == k@,
            i <= s.len(),
            pairs_view(out@) == without_key(sv.subrange(0, i as int), k@),
        decreases s.len() - i,
    {
        assert(sv.subrange(0, i + 1).drop_last() =~= sv.subrange(0, i as int));
        assert(sv.subrange(0, i + 1).last() == sv[i as int]);
        if s[i].0 != key {
            let ghost before = pairs_view(out@);
            out.push((s[i].0.clone(), s[i].1.clone()));
            assert(pairs_view(out@) =~= before.push(sv[i as int]));
        }
        i = i + 1;
    }
    assert(sv.subrange(0, sv.len() as int) =~= sv);
    out
}

fn last_value_exec(s: &Vec<(String, String)>, k: &str) -> (r: Option<String>)
    ensures
        opt_view(r) == last_value(pairs_view(s@), k@),
{
    let ghost sv = pairs_view(s@);
    let key = String::from_str(k);
    let mut found: Option<String> = None;
    let mut i: usize = 0;
    while i < s.len()
        invariant
            sv == pairs_view(s@),
            key@ == k@,
            i <= s.len(),
            opt_view(found) == last_value(sv.subrange(0, i as int), k@),
        decreases s.len() - i,
    {
        assert(sv.subrange(0, i + 1).drop_last() =~= sv.subrange(0, i as int));
        assert(sv.subrange(0, i + 1).last() == sv[i as int]);
        if s[i].0 == key {
            found = Some(s[i].1.clone());
        }
        i = i + 1;
    }
    assert(sv.subrange(0, sv.len() as int) =~= sv);
    found
}

pub open spec fn opt_view(o: Option<String>) -> Option<Seq<char>> {
    match o {
        Some(s) => Some(s@),
        None => None,
    }
}

/// Compares two texts without stopping at the first difference.
fn same_text(a: &String, b: &String) -> (r: bool)
    ensures
        r == (a@ == b@),
{
    let av = crate::text::chars_of(a.as_str());
    let bv = crate::text::chars_of(b.as_str());
    if av.len() != bv.len() {
        return false;
    }
    let mut differ = false;
    let mut i: usize = 0;
    while i < av.len()
        invariant
            av@ == a@,
            bv@ == b@,
            av.len() == bv.len(),
            i <= av.len(),
            differ == exists|k: int| 0 <= k < i && av@[k] != bv@[k],
        decreases av.len() - i,
    {
        if av[i] != bv[i] {
            differ = true;
        }
        i = i + 1;
    }
    if !differ {
        assert(av@ =~= bv@);
    }
    !differ
}

proof fn lemma_decimal_digits(n: nat)
    ensures
        decimal(n).len() > 0,
        all_digits(decimal(n)),
        decimal(n)[0] != '+',
        digits_value(decimal(n)) == n,
    decreases n,
{
    if n < 10 {
        assert(seq![digit(n)].drop_last() =~= Seq::<char>::empty());
        assert(digit(n) as int - '0' as int == n);
        assert(digits_value(seq![digit(n)]) == digits_value(Seq::<char>::empty()) * 10 + (digit(n) as int - '0' as int));
    } else {
        lemma_decimal_digits(n / 10);
        let s = decimal(n / 10);
        let d = digit(n % 10);
        assert(d as int - '0' as int == n % 10);
        assert((n / 10) * 10 + n % 10 == n);
        assert(decimal(n) == s + seq![d]);
        assert((s + seq![d]).drop_last() =~= s);
        assert((s + seq![d]).last() == d);
        assert(digits_value(s + seq![d]) == digits_value(s) * 10 + (d as int - '0' as int));
        assert((s + seq![d]).drop_last() =~= s);
        assert((s + seq![d]).last() == d);
        assert forall|k: int| 0 <= k < (s + seq![d]).len() implies is_digit(
            #[trigger] (s + seq![d])[k],
        ) by {
            if k < s.len() {
                assert((s + seq![d])[k] == s[k]);
            }
        }
    }
}

/// A rendered expiry reads back as the same number.
proof fn lemma_decimal_u64(n: u64)
    ensures
        u64_of(decimal(n as nat)) == Some(n),
{
    lemma_decimal_digits(n as nat);
    assert(unsigned_part(decimal(n as nat)) == decimal(n as nat));
}

proof fn lemma_without_absent(q: Pairs, k: Seq<char>)
    requires
        !has_key(q, k),
    ensures
        without_key(q, k) == q,
    decreases q.len(),
{
    if q.len() > 0 {
        assert(q.last().0 != k) by {
            assert(q[q.len() - 1].0 == q.last().0);
        }
        assert(!has_key(q.drop_last(), k)) by {
            if has_key(q.drop_last(), k) {
                let i = choose|i: int| 0 <= i < q.drop_last().len() && #[trigger] q.drop_last()[i].0 == k;
                assert(q[i].0 == k);
            }
        }
        lemma_without_absent(q.drop_last(), k);
        assert(q.drop_last().push(q.last()) =~= q);
    }
}

/// Signs `url` to expire at `exp` (Unix seconds): the URL as given, with
/// `exp` and `signature` appended.
pub fn sign_url(secret: &str, url: &str, exp: u64) -> (r: Result<String, SigningError>)
    ensures
        match signed_url_of(secret@, url@, exp) {
            None => r == Err::<String, SigningError>(SigningError::InvalidUrl),
            Some(t) => r matches Ok(s) && s@ == t,
        },
        match r {
            Ok(s) => !has_key(query_pairs_of(url@)->Some_0, "signature"@) ==> forall|now: u64|
                #[trigger] validation_of(secret@, s@, now) == if now < exp {
                    Ok::<(), ValidationError>(())
                } else {
                    Err(ValidationError::Expired)
                },
            Err(_) => true,
        },
{
    let mut all = match query_pairs(url) {
        Some(q) => q,
        None => return Err(SigningError::InvalidUrl),
    };
    let ghost qv = pairs_view(all@);
    let exp_text = decimal_text(exp);
    all.push((String::from_str("exp"), exp_text.clone()));
    proof {
        reveal_strlit("exp");
        reveal_strlit("signature");
        assert(pairs_view(all@) =~= qv.push(exp_pair(exp)));
    }
    let canon = canonicalize(&all);
    let text = match with_query(url, &canon) {
        Some(t) => t,
        None => return Err(SigningError::InvalidUrl),
    };
    let signature = get_signature(secret, text.as_str());
    let mut extra: Vec<(String, String)> = Vec::new();
    extra.push((String::from_str("exp"), exp_text));
    extra.push((String::from_str("signature"), signature));
    let ghost ps = pairs_view(extra@);
    assert(ps =~= seq![
        exp_pair(exp),
        ("signature"@, signature_of(secret@, signing_text(url@, qv, exp))),
    ]);
    let signed = match append_pairs(url, &extra) {
        Some(t) => t,
        None => return Err(SigningError::InvalidUrl),
    };
    proof {
        reveal_strlit("exp");
        reveal_strlit("signature");
        let all_t = qv + ps;
        assert(query_pairs_of(signed@) == Some(all_t));
        assert(all_t.drop_last() =~= qv.push(exp_pair(exp)));
        assert(all_t.last() == ps[1]);
        assert(qv.push(exp_pair(exp)).last() == exp_pair(exp));
        assert(qv.push(exp_pair(exp)).drop_last() =~= qv);
        lemma_decimal_u64(exp);
        assert("signature"@.len() == 9 && "exp"@.len() == 3);
        assert(all_t.last().0 != "exp"@);
        assert(last_value(all_t, "exp"@) == last_value(qv.push(exp_pair(exp)), "exp"@));
        assert(last_value(all_t, "exp"@) == Some(decimal(exp as nat)));
        assert(last_value(all_t, "signature"@) == Some(ps[1].1));
        if !has_key(qv, "signature"@) {
            lemma_without_absent(qv, "signature"@);
            assert(without_key(all_t, "signature"@) == without_key(qv.push(exp_pair(exp)), "signature"@));
            assert(without_key(all_t, "signature"@) == qv.push(exp_pair(exp)));
            assert(with_query_of(signed@, canonical(qv.push(exp_pair(exp)))) == with_query_of(
                url@,
                canonical(qv.push(exp_pair(exp))),
            ));
        }
    }
    Ok(signed)
}

/// Checks the parameters of a signed URL at instant `now`: gives the
/// signature it carries and the canonical mapping the signature must cover.
pub fn check_query(q: &Vec<(String, String)>, now: u64) -> (r: Result<
    (String, Vec<(String, String)>),
    ValidationError,
>)
    ensures
        match query_check(pairs_view(q@), now) {
            Ok((sig, canon)) => r matches Ok((rs, rc)) && rs@ == sig && pairs_view(rc@) == canon,
            Err(e) => r == Err::<(String, Vec<(String, String)>), ValidationError>(e),
        },
{
    let e = match last_value_exec(q, "exp") {
        Some(e) => e,
        None => return Err(ValidationError::MissingExpiration),
    };
    let t = match parse_u64(&e) {
        Some(t) => t,
        None => return Err(ValidationError::InvalidExpiration),
    };
    if t <= now {
        return Err(ValidationError::Expired);
    }
    let given = match last_value_exec(q, "signature") {
        Some(s) => s,
        None => return Err(ValidationError::MissingSignature),
    };
    let rest = without_key_exec(q, "signature");
    Ok((given, canonicalize(&rest)))
}

/// Checks a signed URL at instant `now` (Unix seconds).
pub fn validate(secret: &str, url: &str, now: u64) -> (r: Result<(), ValidationError>)
    ensures
        r == validation_of(secret@, url@, now),
{
    let q = match query_pairs(url) {
        Some(q) => q,
        None => return Err(ValidationError::InvalidUrl),
    };
    let (given, canon) = match check_query(&q, now) {
        Ok(p) => p,
        Err(e) => return Err(e),
    };
    let text = match with_query(url, &canon) {
        Some(t) => t,
        None => return Err(ValidationError::InvalidUrl),
    };
    let expected = get_signature(secret, text.as_str());
    if same_text(&given, &expected) {
        Ok(())
    } else {
        Err(ValidationError::InvalidSignature)
    }
}

} // verus!
