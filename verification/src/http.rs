//! Where a request is sent and with which headers.

use crate::config::{AuthKind, Connector, ProviderCfg};
use crate::text::{join, opt_text, trim_end_slashes, without_end_slashes};
use reqwest::header::{HeaderMap, HeaderName, HeaderValue};
use vstd::prelude::*;
use vstd::string::*;

verus! {

/// Why no headers can be built.
#[derive(Debug)]
pub enum HttpError {
    MissingKey,
    BadHeader(String),
}

/// What an error is, with texts as sequences.
pub enum HttpErrorView {
    MissingKey,
    BadHeader(Seq<char>),
}

impl View for HttpError {
    type V = HttpErrorView;

    open spec fn view(&self) -> HttpErrorView {
        match *self {
            HttpError::MissingKey => HttpErrorView::MissingKey,
            HttpError::BadHeader(why) => HttpErrorView::BadHeader(why@),
        }
    }
}

/// An error in words.
pub open spec fn http_message(e: HttpErrorView) -> Seq<char> {
    match e {
        HttpErrorView::MissingKey => "missing API key (set key_env or auth_key)"@,
        HttpErrorView::BadHeader(why) => "invalid header value: "@ + why,
    }
}

impl HttpError {
    /// The error in words.
    pub fn message(&self) -> (r: String)
        ensures
            r@ == http_message(self@),
    {
        match self {
            HttpError::MissingKey => "missing API key (set key_env or auth_key)".to_owned(),
            HttpError::BadHeader(why) => join("invalid header value: ", why.as_str()),
        }
    }
}

// ---- address ----

/// The path of a protocol.
pub open spec fn path_of(connector: Connector) -> Seq<char> {
    match connector {
        Connector::Chat => "/chat/completions"@,
        Connector::Anthropic => "/v1/messages"@,
    }
}

/// The path of a protocol, where no other is configured.
pub fn default_path(connector: Connector) -> (r: &'static str)
    ensures
        r@ == path_of(connector),
{
    match connector {
        Connector::Chat => "/chat/completions",
        Connector::Anthropic => "/v1/messages",
    }
}

/// The address of an upstream: the base without slashes at its end, then the path.
pub open spec fn url_of(base: Seq<char>, connector: Connector, path: Option<Seq<char>>) -> Seq<
    char,
> {
    without_end_slashes(base) + (match path {
        Some(p) => p,
        None => path_of(connector),
    })
}

/// The address of an upstream. A configured path takes the place of that of the protocol.
pub fn egress_url(base_url: &str, connector: Connector, path_override: Option<&str>) -> (r: String)
    ensures
        r@ == url_of(
            base_url@,
            connector,
            match path_override {
                Some(p) => Some(p@),
                None => None,
            },
        ),
{
    let path: &str = match path_override {
        Some(p) => p,
        None => default_path(connector),
    };
    join(trim_end_slashes(base_url), path)
}

// ---- key ----

/// The key of a provider, given the value of the environment variable that it names: that value
/// unless it is missing or empty, else the configured key, else none.
pub open spec fn key_of(cfg: ProviderCfg, env_value: Option<Seq<char>>) -> Option<Seq<char>> {
    match (cfg.key_env, env_value) {
        (Some(_), Some(v)) => if v.len() > 0 {
            Some(v)
        } else {
            opt_text(cfg.auth_key)
        },
        _ => opt_text(cfg.auth_key),
    }
}

/// The key of a provider. `env_value` is the value of the environment variable that `key_env`
/// names, where it names one and that is set.
pub fn resolve_key(cfg: &ProviderCfg, env_value: Option<&str>) -> (r: Result<
    Option<String>,
    HttpError,
>)
    ensures
        r matches Ok(key) && opt_text(key) == key_of(
            *cfg,
            match env_value {
                Some(v) => Some(v@),
                None => None,
            },
        ),
{
    if cfg.key_env.is_some() {
        if let Some(v) = env_value {
            if !v.is_empty() {
                return Ok(Some(v.to_owned()));
            }
        }
    }
    match &cfg.auth_key {
        Some(k) => Ok(Some(k.clone())),
        None => Ok(None),
    }
}

// ---- headers ----

/// `http::HeaderMap`, the headers of the outside crate.
#[verifier::external_type_specification]
#[verifier::external_body]
#[verifier::reject_recursive_types(T)]
pub struct ExHeaderMap<T>(reqwest::header::HeaderMap<T>);

/// `http::HeaderValue`, the value of a header of the outside crate.
#[verifier::external_type_specification]
#[verifier::external_body]
pub struct ExHeaderValue(reqwest::header::HeaderValue);

/// What a header map holds: under each name its values in order.
pub uninterp spec fn header_values(h: HeaderMap<HeaderValue>) -> Map<Seq<char>, Seq<Seq<u8>>>;

/// The bytes of a header value.
pub uninterp spec fn value_bytes(v: HeaderValue) -> Seq<u8>;

/// Whether a text can be the value of a header: it has no control characters but tabs.
pub open spec fn header_text(s: Seq<char>) -> bool {
    forall|i: int|
        0 <= i < s.len() ==> #[trigger] s[i] == '\t' || (s[i] >= ' ' && s[i] != '\u{7f}')
}

/// Whether a text is a header name in lower case, made of letters, digits and hyphens.
pub open spec fn header_name(s: Seq<char>) -> bool {
    &&& 0 < s.len() <= 1024
    &&& forall|i: int|
        0 <= i < s.len() ==> ('a' <= #[trigger] s[i] <= 'z' || '0' <= s[i] <= '9' || s[i] == '-')
}

/// How many names a header map may hold for one more to be added without fail. A map keeps its
/// names in a table of at most 32768 places. Where many of them collide, it asks for a larger table
/// as soon as a fifth of the places is taken.
pub const MAX_NAMES: usize = 6553;

/// Whether one more name can be added to a header map without fail.
pub open spec fn has_room(h: Map<Seq<char>, Seq<Seq<u8>>>) -> bool {
    h.dom().finite() && h.dom().len() <= MAX_NAMES
}

/// No headers.
pub open spec fn empty_headers() -> Map<Seq<char>, Seq<Seq<u8>>> {
    Map::empty()
}

/// `HeaderMap::new`: no headers.
#[verifier::external_body]
pub(crate) fn no_headers() -> (r: HeaderMap<HeaderValue>)
    ensures
        header_values(r) == empty_headers(),
{
    HeaderMap::new()
}

/// `HeaderValue::from_str`: the value with the bytes of the text. It fails, always with the same
/// message, on a text with a control character other than a tab.
#[verifier::external_body]
fn header_value(s: &str) -> (r: Result<HeaderValue, String>)
    ensures
        match r {
            Ok(v) => header_text(s@) && value_bytes(v) == vstd::utf8::encode_utf8(s@),
            Err(m) => !header_text(s@) && m@ == "failed to parse header value"@,
        },
{
    HeaderValue::from_str(s).map_err(|e| e.to_string())
}

/// `HeaderMap::try_insert` under the name that `HeaderName::from_static` makes of `name`: whether
/// the header was taken. Then the values under that name are the given one, and all other names
/// keep theirs. It is taken wherever the map has room; whether a map without room takes it depends
/// on how its names collide. Nothing is said of a map that did not take a header. The outside
/// function for the name panics on one that is not a header name in lower case.
#[verifier::external_body]
fn put_header(h: &mut HeaderMap<HeaderValue>, name: &'static str, v: HeaderValue) -> (r: bool)
    requires
        header_name(name@),
    ensures
        if r {
            header_values(*final(h)) == header_values(*old(h)).insert(name@, seq![value_bytes(v)])
        } else {
            !has_room(header_values(*old(h)))
        },
{
    h.try_insert(HeaderName::from_static(name), v).is_ok()
}

/// The headers with one more, whose value is a text.
pub open spec fn with_header(
    h: Map<Seq<char>, Seq<Seq<u8>>>,
    name: Seq<char>,
    text: Seq<char>,
) -> Map<Seq<char>, Seq<Seq<u8>>> {
    h.insert(name, seq![vstd::utf8::encode_utf8(text)])
}

/// The headers that say what the body is.
pub open spec fn with_json_type(h: Map<Seq<char>, Seq<Seq<u8>>>) -> Map<Seq<char>, Seq<Seq<u8>>> {
    with_header(h, "content-type"@, "application/json"@)
}

/// Why a text is not the value of a header.
pub open spec fn bad_header() -> HttpErrorView {
    HttpErrorView::BadHeader("failed to parse header value"@)
}

/// The version that an Anthropic upstream is asked for.
pub open spec fn version_of(anthropic_version: Option<Seq<char>>) -> Seq<char> {
    match anthropic_version {
        Some(v) => v,
        None => "2023-06-01"@,
    }
}

/// The headers that carry a key.
pub open spec fn headers_for(
    auth: AuthKind,
    key: Option<Seq<char>>,
    anthropic_version: Option<Seq<char>>,
) -> Result<Map<Seq<char>, Seq<Seq<u8>>>, HttpErrorView> {
    match (auth, key) {
        (_, None) => Err(HttpErrorView::MissingKey),
        (AuthKind::Bearer, Some(k)) => if header_text("Bearer "@ + k) {
            Ok(with_json_type(with_header(empty_headers(), "authorization"@, "Bearer "@ + k)))
        } else {
            Err(bad_header())
        },
        (AuthKind::XApiKey, Some(k)) => if header_text(k) && header_text(
            version_of(anthropic_version),
        ) {
            Ok(
                with_json_type(
                    with_header(
                        with_header(empty_headers(), "x-api-key"@, k),
                        "anthropic-version"@,
                        version_of(anthropic_version),
                    ),
                ),
            )
        } else {
            Err(bad_header())
        },
    }
}

/// Whether a function returned these headers, or this error.
pub open spec fn heads(
    r: Result<HeaderMap<HeaderValue>, HttpError>,
    want: Result<Map<Seq<char>, Seq<Seq<u8>>>, HttpErrorView>,
) -> bool {
    match (r, want) {
        (Ok(h), Ok(m)) => header_values(h) == m,
        (Err(e), Err(v)) => e@ == v,
        _ => false,
    }
}

/// Says that the body is JSON, and returns whether there was room for it.
pub(crate) fn put_json_type(h: &mut HeaderMap<HeaderValue>) -> (r: bool)
    ensures
        if r {
            header_values(*final(h)) == with_json_type(header_values(*old(h)))
        } else {
            !has_room(header_values(*old(h)))
        },
{
    proof {
        reveal_strlit("content-type");
        reveal_strlit("application/json");
    }
    match header_value("application/json") {
        Ok(v) => put_header(h, "content-type", v),
        Err(_) => false,
    }
}

/// The headers that carry a key in the way that `auth` says, and say that the body is JSON.
pub fn build_headers(auth: AuthKind, key: Option<&str>, anthropic_version: Option<&str>) -> (r:
    Result<HeaderMap<HeaderValue>, HttpError>)
    ensures
        heads(
            r,
            headers_for(
                auth,
                match key {
                    Some(k) => Some(k@),
                    None => None,
                },
                match anthropic_version {
                    Some(v) => Some(v@),
                    None => None,
                },
            ),
        ),
{
    let Some(key) = key else {
        return Err(HttpError::MissingKey);
    };
    let mut h: HeaderMap<HeaderValue> = no_headers();
    match auth {
        AuthKind::Bearer => {
            let text: String = join("Bearer ", key);
            match header_value(text.as_str()) {
                Ok(v) => {
                    proof {
                        reveal_strlit("authorization");
                    }
                    put_header(&mut h, "authorization", v);
                },
                Err(why) => {
                    return Err(HttpError::BadHeader(why));
                },
            }
        },
        AuthKind::XApiKey => {
            match header_value(key) {
                Ok(v) => {
                    proof {
                        reveal_strlit("x-api-key");
                    }
                    put_header(&mut h, "x-api-key", v);
                },
                Err(why) => {
                    return Err(HttpError::BadHeader(why));
                },
            }
            let version: &str = match anthropic_version {
                Some(v) => v,
                None => "2023-06-01",
            };
            match header_value(version) {
                Ok(v) => {
                    proof {
                        reveal_strlit("anthropic-version");
                    }
                    put_header(&mut h, "anthropic-version", v);
                },
                Err(why) => {
                    return Err(HttpError::BadHeader(why));
                },
            }
        },
    }
    put_json_type(&mut h);
    Ok(h)
}

} // verus!
