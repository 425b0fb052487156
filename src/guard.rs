//! Request-time authorization: the bearer-token gate of the update check
//! and the signature gate of the download, plus the externally visible
//! base URL they rely on.

use vstd::prelude::*;
use crate::error::ErrorKind;
use crate::platform::{platform_of, Platform, PlatformModel};
use crate::signing::{lower_of, lowercase, sign_url, signed_url_of, validate, validation_of, SigningError};
use crate::text::{chars_of, starts_with, starts_with_exec};

verus! {

/// Proof that the bearer-token gate let a request through.
#[derive(Clone, Copy, Debug, PartialEq, Eq, Structural)]
pub struct ApiToken();

/// Proof that the signature gate let a request through.
#[derive(Clone, Copy, Debug, PartialEq, Eq, Structural)]
pub struct Signature();

/// Why a gate turned a request away.
#[derive(Clone, Copy, Debug, PartialEq, Eq, Structural)]
pub enum GuardError {
    /// No `Authorization` header.
    MissingToken,
    /// A wrong token, or more than one `Authorization` header.
    Unauthorized,
    /// The download URL failed validation.
    InvalidSignature,
    /// Neither a configured base URL nor a `Host` header.
    UnknownHost,
}

/// Body of a successful update check.
#[derive(Clone, Debug, PartialEq, Eq)]
pub struct UpdateResponse {
    pub url: String,
}

/// A `Bearer <token>` header whose token is the secret.
pub open spec fn is_valid_token(header: Seq<char>, secret: Seq<char>) -> bool {
    header == "Bearer "@ + secret
}

/// Whether an `Authorization` header carries the secret as its bearer token.
pub fn is_valid_auth_token(header: &str, secret: &str) -> (r: bool)
    ensures
        r == is_valid_token(header@, secret@),
{
    let hs = chars_of(header);
    proof {
        reveal_strlit("Bearer ");
    }
    if !starts_with_exec(&hs, "Bearer ") {
        assert(!starts_with(header@, "Bearer "@) ==> header@ != "Bearer "@ + secret@) by {
            if header@ == "Bearer "@ + secret@ {
                assert(header@.subrange(0, 7) =~= "Bearer "@);
            }
        }
        return false;
    }
    let n = header.unicode_len();
    let token = String::from_str(header.substring_char(7, n));
    let r = token == String::from_str(secret);
    assert(header@ == header@.subrange(0, 7) + header@.subrange(7, n as int));
    assert(r ==> header@ =~= "Bearer "@ + secret@);
    assert(header@ == "Bearer "@ + secret@ ==> (header@.subrange(7, n as int) =~= secret@));
    r
}

/// The bearer-token gate: open without a configured secret; otherwise
/// exactly one `Authorization` header carrying the secret.
pub open spec fn api_token_check(secret: Option<Seq<char>>, headers: Seq<Seq<char>>) -> Result<
    ApiToken,
    GuardError,
> {
    match secret {
        None => Ok(ApiToken()),
        Some(s) => if headers.len() == 0 {
            Err(GuardError::MissingToken)
        } else if headers.len() == 1 && is_valid_token(headers[0], s) {
            Ok(ApiToken())
        } else {
            Err(GuardError::Unauthorized)
        },
    }
}

pub open spec fn opt_str(o: Option<&str>) -> Option<Seq<char>> {
    match o {
        Some(s) => Some(s@),
        None => None,
    }
}

impl ApiToken {
    /// Checks the `Authorization` headers of a request.
    pub fn from_request(secret: Option<&str>, headers: &Vec<String>) -> (r: Result<ApiToken, GuardError>)
        ensures
            r == api_token_check(opt_str(secret), headers@.map_values(|h: String| h@)),
    {
        match secret {
            None => Ok(ApiToken()),
            Some(s) => {
                if headers.len() == 0 {
                    Err(GuardError::MissingToken)
                } else if headers.len() == 1 && is_valid_auth_token(headers[0].as_str(), s) {
                    Ok(ApiToken())
                } else {
                    Err(GuardError::Unauthorized)
                }
            },
        }
    }
}

/// The signature gate: open without a configured secret; otherwise the
/// request URL must validate at `now`.
pub open spec fn signature_check(secret: Option<Seq<char>>, url: Seq<char>, now: u64) -> Result<
    Signature,
    GuardError,
> {
    match secret {
        None => Ok(Signature()),
        Some(s) => match validation_of(s, url, now) {
            Ok(_) => Ok(Signature()),
            Err(_) => Err(GuardError::InvalidSignature),
        },
    }
}

impl Signature {
    /// Checks the externally visible URL of a download request.
    pub fn from_request(secret: Option<&str>, url: &str, now: u64) -> (r: Result<Signature, GuardError>)
        ensures
            r == signature_check(opt_str(secret), url@, now),
    {
        match secret {
            None => Ok(Signature()),
            Some(s) => match validate(s, url, now) {
                Ok(_) => Ok(Signature()),
                Err(_) => Err(GuardError::InvalidSignature),
            },
        }
    }
}

/// The scheme a client used to reach the gateway.
#[derive(Clone, Copy, Debug, PartialEq, Eq, Structural)]
pub enum Scheme {
    Http,
    Https,
}

impl Scheme {
    pub fn to_string(&self) -> (r: String)
        ensures
            r@ == match self {
                Scheme::Http => "http"@,
                Scheme::Https => "https"@,
            },
    {
        match self {
            Scheme::Http => String::from_str("http"),
            Scheme::Https => String::from_str("https"),
        }
    }
}

/// `X-Forwarded-Proto` wins over `Scheme`; only `https` means HTTPS.
pub open spec fn scheme_of(forwarded_proto: Option<Seq<char>>, scheme: Option<Seq<char>>) -> Scheme {
    let raw = match forwarded_proto {
        Some(p) => p,
        None => match scheme {
            Some(s) => s,
            None => "http"@,
        },
    };
    if raw == "https"@ {
        Scheme::Https
    } else {
        Scheme::Http
    }
}

/// The scheme of a request, respecting a reverse proxy's
/// `X-Forwarded-Proto` header.
pub fn get_scheme(forwarded_proto: Option<&str>, scheme: Option<&str>) -> (r: Scheme)
    ensures
        r == scheme_of(opt_str(forwarded_proto), opt_str(scheme)),
{
    let raw = match forwarded_proto {
        Some(p) => String::from_str(p),
        None => match scheme {
            Some(s) => String::from_str(s),
            None => String::from_str("http"),
        },
    };
    if raw == String::from_str("https") {
        Scheme::Https
    } else {
        Scheme::Http
    }
}

/// The host of a request: `X-Forwarded-Host` wins over `Host`.
pub fn get_host(forwarded_host: Option<&str>, host: Option<&str>) -> (r: Option<String>)
    ensures
        match (forwarded_host, host) {
            (Some(f), _) => r matches Some(x) && x@ == f@,
            (None, Some(h)) => r matches Some(x) && x@ == h@,
            (None, None) => r is None,
        },
{
    match forwarded_host {
        Some(f) => Some(String::from_str(f)),
        None => match host {
            Some(h) => Some(String::from_str(h)),
            None => None,
        },
    }
}

/// The externally visible base URL of the gateway.
#[derive(Clone, Debug, PartialEq, Eq)]
pub struct BaseUrl(pub String);

/// A base URL without one trailing `/`.
pub open spec fn trimmed(s: Seq<char>) -> Seq<char> {
    if s.len() > 0 && s.last() == '/' {
        s.drop_last()
    } else {
        s
    }
}

impl BaseUrl {
    /// The base URL without a trailing slash.
    pub fn to_string(&self) -> (r: String)
        ensures
            r@ == trimmed(self.0@),
    {
        let n = self.0.as_str().unicode_len();
        if n > 0 && self.0.as_str().get_char(n - 1) == '/' {
            let s = String::from_str(self.0.as_str().substring_char(0, n - 1));
            assert(s@ =~= self.0@.drop_last());
            s
        } else {
            self.0.clone()
        }
    }

    /// The configured base URL, else `scheme://host` of the request.
    pub fn from_request(configured: Option<&str>, scheme: Scheme, host: Option<&str>) -> (r: Result<BaseUrl, GuardError>)
        ensures
            match (configured, host) {
                (Some(c), _) => r matches Ok(b) && b.0@ == c@,
                (None, Some(h)) => r matches Ok(b) && b.0@ == scheme.to_string_spec() + "://"@ + h@,
                (None, None) => r == Err::<BaseUrl, GuardError>(GuardError::UnknownHost),
            },
    {
        match configured {
            Some(c) => Ok(BaseUrl(String::from_str(c))),
            None => match host {
                Some(h) => {
                    let s = scheme.to_string();
                    let s = s.concat("://");
                    let s = s.concat(h);
                    Ok(BaseUrl(s))
                },
                None => Err(GuardError::UnknownHost),
            },
        }
    }
}

impl Scheme {
    pub open spec fn to_string_spec(self) -> Seq<char> {
        match self {
            Scheme::Http => "http"@,
            Scheme::Https => "https"@,
        }
    }
}

/// The URL a client sees for a request path.
pub fn request_url(base: &BaseUrl, uri: &str) -> (r: String)
    ensures
        r@ == trimmed(base.0@) + uri@,
{
    base.to_string().concat(uri)
}

/// The download URL of a file: signed to expire `ttl` seconds after `now`
/// when a signing secret is configured, plain otherwise.
pub fn generate_download_url(secret: Option<&str>, base: &BaseUrl, filename: &str, now: u64, ttl: u64) -> (r: Result<String, SigningError>)
    ensures
        ({
            let plain = trimmed(base.0@) + "/download/"@ + filename@;
            let exp = if now as int + ttl as int > u64::MAX as int {
                u64::MAX
            } else {
                (now + ttl) as u64
            };
            match secret {
                None => r matches Ok(u) && u@ == plain,
                Some(s) => match signed_url_of(s@, plain, exp) {
                    Some(t) => r matches Ok(u) && u@ == t,
                    None => r == Err::<String, SigningError>(SigningError::InvalidUrl),
                },
            }
        }),
{
    let url = base.to_string().concat("/download/").concat(filename);
    match secret {
        None => Ok(url),
        Some(s) => {
            let exp = if now > u64::MAX - ttl {
                u64::MAX
            } else {
                now + ttl
            };
            sign_url(s, url.as_str(), exp)
        },
    }
}

/// The platform of a lower-cased path segment.
pub fn platform_from_lowercase(segment: &str) -> (r: Result<Platform, ErrorKind>)
    ensures
        match platform_of(segment@) {
            PlatformModel::Unrecognized(_) => r matches Err(ErrorKind::UnknownPlatform(_)),
            m => r matches Ok(p) && p@ == m,
        },
{
    Platform::detect_from_filename(segment)
}

impl Platform {
    /// Reads the platform segment of an update-check path, case-insensitively.
    pub fn from_param(segment: &str) -> (r: Result<Platform, ErrorKind>)
        ensures
            match platform_of(lower_of(segment@)) {
                PlatformModel::Unrecognized(_) => r matches Err(ErrorKind::UnknownPlatform(_)),
                m => r matches Ok(p) && p@ == m,
            },
    {
        let lower = lowercase(segment);
        platform_from_lowercase(lower.as_str())
    }
}

/// The greeting of the root path.
pub fn index() -> (r: &'static str)
    ensures
        r@ == "Hello, world!"@,
{
    "Hello, world!"
}

} // verus!
