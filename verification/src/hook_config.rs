//! Settings of a delivery hook.

use std::str::FromStr;
use base64::Engine;
use base64::engine::general_purpose::STANDARD;
use hyper::header::{HeaderName, HeaderValue};
use vstd::prelude::*;
use vstd::string::StringExecFns;
use vstd::utf8::encode_utf8;
use crate::text::{
    char_lower, first_index, lemma_first_index_none, lemma_first_index_split, option_text,
    split_once_colon, texts, trim, trimmed,
};

verus! {

/// Timeout of a hook request where none is set, in milliseconds.
pub const DEFAULT_TIMEOUT_MS: u64 = 30000;

/// Largest response that a hook may send where no limit is set, in bytes.
pub const DEFAULT_MAX_RESPONSE_SIZE: usize = 52428800;

/// What the configuration holds for one hook, as far as it could be read.
#[derive(Debug, Clone)]
pub struct HookSettings {
    pub url: Option<String>,
    pub timeout_ms: Option<u64>,
    pub allow_invalid_certs: Option<bool>,
    pub tempfail_on_error: Option<bool>,
    pub max_response_size: Option<usize>,
    /// Each entry is `Name: value`.
    pub headers: Vec<String>,
    pub auth_username: Option<String>,
    pub auth_secret: Option<String>,
    /// The expression that says when the hook is enabled.
    pub enable: Option<String>,
}

/// A delivery hook, ready for use.
#[derive(Debug, Clone)]
pub struct DeliveryHook {
    /// The expression that says when the hook is enabled.
    pub enable: String,
    pub id: String,
    pub url: String,
    pub timeout_ms: u64,
    /// HTTP headers to send, names in lower case and none twice, in the
    /// order in which each name was first set.
    pub headers: Vec<(String, String)>,
    pub tls_allow_invalid_certs: bool,
    pub tempfail_on_error: bool,
    pub max_response_size: usize,
}

/// Whether `c` may stand in the name of an HTTP header.
pub open spec fn is_name_char(c: char) -> bool {
    let code = c as u32;
    ||| 48 <= code <= 57
    ||| 65 <= code <= 90
    ||| 97 <= code <= 122
    ||| c == '!'
    ||| c == '#'
    ||| c == '$'
    ||| c == '%'
    ||| c == '&'
    ||| c == '\''
    ||| c == '*'
    ||| c == '+'
    ||| c == '-'
    ||| c == '.'
    ||| c == '^'
    ||| c == '_'
    ||| c == '`'
    ||| c == '|'
    ||| c == '~'
}

/// Whether `name` is the name of an HTTP header.
pub open spec fn is_header_name(name: Seq<char>) -> bool {
    &&& 1 <= name.len() <= 65535
    &&& forall|i: int| 0 <= i < name.len() ==> is_name_char(#[trigger] name[i])
}

/// Whether `value` can be the value of an HTTP header: it holds no control
/// character but the tab.
pub open spec fn is_header_value(value: Seq<char>) -> bool {
    forall|i: int|
        0 <= i < value.len() ==> ((#[trigger] value[i]) as u32 >= 32 && value[i] as u32 != 127)
            || value[i] as u32 == 9
}

/// `name` in lower case.
pub open spec fn lowered(name: Seq<char>) -> Seq<char> {
    name.map_values(|c: char| char_lower(c))
}

/// Calls `HeaderName::from_str` and `HeaderName::as_str` of the `http`
/// crate, which `hyper` hands on. A name is accepted when it has between 1
/// and 65535 bytes, each of them a letter, a digit or one of
/// ``!#$%&'*+-.^_`|~``; what comes back is the name in lower case.
#[verifier::external_body]
pub(crate) fn normalize_header_name(name: &str) -> (normal: Option<String>)
    ensures
        option_text(normal) == if is_header_name(name@) {
            Some(lowered(name@))
        } else {
            None
        },
{
    HeaderName::from_str(name).ok().map(|parsed| parsed.as_str().to_owned())
}

/// Calls `HeaderValue::from_str` of the `http` crate, which `hyper` hands
/// on. A value is accepted when each byte is at least 32 and not 127, or a
/// tab.
#[verifier::external_body]
pub(crate) fn accepts_header_value(value: &str) -> (accepted: bool)
    ensures
        accepted == is_header_value(value@),
{
    HeaderValue::from_str(value).is_ok()
}

/// The Base64 text of `bytes` in the standard alphabet with padding.
pub uninterp spec fn base64_standard(bytes: Seq<u8>) -> Seq<char>;

/// Whether the Base64 text of `len` bytes has a length that fits `usize`.
pub open spec fn base64_fits(len: nat) -> bool {
    4 * ((len + 2) / 3) <= usize::MAX
}

/// Calls `Engine::encode` on `base64::engine::general_purpose::STANDARD`.
/// The encoder panics only where the length of the text does not fit
/// `usize`, which `requires` rules out. The text depends on the bytes
/// alone; it is named, not stated.
#[verifier::external_body]
pub(crate) fn encode_base64(bytes: &[u8]) -> (text: String)
    requires
        base64_fits(bytes@.len()),
    ensures
        text@ == base64_standard(bytes@),
{
    STANDARD.encode(bytes)
}

/// The headers of a list, each as a pair of texts.
pub open spec fn headers_view(headers: Seq<(String, String)>) -> Seq<(Seq<char>, Seq<char>)> {
    headers.map_values(|h: (String, String)| (h.0@, h.1@))
}

/// Index of the header named `name`; the length of the list where there is
/// none.
pub open spec fn header_position(headers: Seq<(Seq<char>, Seq<char>)>, name: Seq<char>) -> int
    decreases headers.len(),
{
    if headers.len() == 0 {
        0
    } else if header_position(headers.drop_last(), name) < headers.len() - 1 {
        header_position(headers.drop_last(), name)
    } else if headers.last().0 == name {
        headers.len() - 1
    } else {
        headers.len() as int
    }
}

/// `headers` with `name` set to `value`: in place where the name is there,
/// at the end where it is not.
pub open spec fn with_header(
    headers: Seq<(Seq<char>, Seq<char>)>,
    name: Seq<char>,
    value: Seq<char>,
) -> Seq<(Seq<char>, Seq<char>)> {
    let position = header_position(headers, name);
    if 0 <= position < headers.len() {
        headers.update(position, (name, value))
    } else {
        headers.push((name, value))
    }
}

/// The header that one configured entry stands for: what is before the
/// first colon, trimmed, has to be a header name, and what is after it,
/// trimmed, a header value.
pub open spec fn entry_header(entry: Seq<char>) -> Option<(Seq<char>, Seq<char>)> {
    let colon = first_index(entry, ':');
    if colon >= entry.len() {
        None
    } else {
        let name = trimmed(entry.take(colon));
        let value = trimmed(entry.skip(colon + 1));
        if is_header_name(name) && is_header_value(value) {
            Some((lowered(name), value))
        } else {
            None
        }
    }
}

/// The headers that the configured entries stand for, each set in turn;
/// `None` where an entry is malformed.
pub open spec fn configured_headers(entries: Seq<Seq<char>>) -> Option<
    Seq<(Seq<char>, Seq<char>)>,
>
    decreases entries.len(),
{
    if entries.len() == 0 {
        Some(Seq::empty())
    } else {
        match (configured_headers(entries.drop_last()), entry_header(entries.last())) {
            (Some(headers), Some((name, value))) => Some(with_header(headers, name, value)),
            _ => None,
        }
    }
}

/// What stands behind `Basic ` in the `Authorization` header for these
/// credentials.
pub open spec fn basic_credentials(username: Seq<char>, secret: Seq<char>) -> Seq<u8> {
    encode_utf8(username + seq![':'] + secret)
}

/// The headers of a hook: the configured ones, or none of them where one
/// is malformed; then the JSON content type; then the credentials, where a
/// user name and a secret are both set.
pub open spec fn hook_headers(
    entries: Seq<Seq<char>>,
    username: Option<Seq<char>>,
    secret: Option<Seq<char>>,
) -> Seq<(Seq<char>, Seq<char>)> {
    let configured = match configured_headers(entries) {
        Some(headers) => headers,
        None => Seq::empty(),
    };
    let typed = with_header(configured, "content-type"@, "application/json"@);
    match (username, secret) {
        (Some(user), Some(pass)) => with_header(
            typed,
            "authorization"@,
            "Basic "@ + base64_standard(basic_credentials(user, pass)),
        ),
        _ => typed,
    }
}

/// `header_position` is the first index that holds the name, or the length
/// of the list where none does.
pub proof fn lemma_header_position(headers: Seq<(Seq<char>, Seq<char>)>, name: Seq<char>)
    ensures
        0 <= header_position(headers, name) <= headers.len(),
        header_position(headers, name) < headers.len() ==> headers[header_position(
            headers,
            name,
        )].0 == name,
        forall|i: int| 0 <= i < header_position(headers, name) ==> (#[trigger] headers[i]).0 != name,
    decreases headers.len(),
{
    if headers.len() > 0 {
        let front = headers.drop_last();
        lemma_header_position(front, name);
        assert forall|i: int| 0 <= i < header_position(headers, name) implies (
        #[trigger] headers[i]).0 != name by {
            if i < front.len() {
                assert(front[i] == headers[i]);
            }
        }
        if header_position(front, name) < front.len() {
            assert(front[header_position(front, name)] == headers[header_position(front, name)]);
        }
    }
}

/// Whether `headers` holds the header `name` with `value`.
pub open spec fn has_header(
    headers: Seq<(Seq<char>, Seq<char>)>,
    name: Seq<char>,
    value: Seq<char>,
) -> bool {
    exists|i: int| 0 <= i < headers.len() && #[trigger] headers[i] == (name, value)
}

/// Setting a header puts it into the list and leaves the headers of every
/// other name as they are.
pub proof fn lemma_with_header(
    headers: Seq<(Seq<char>, Seq<char>)>,
    name: Seq<char>,
    value: Seq<char>,
)
    ensures
        has_header(with_header(headers, name, value), name, value),
        forall|other: Seq<char>, text: Seq<char>|
            other != name && has_header(headers, other, text) ==> has_header(
                with_header(headers, name, value),
                other,
                text,
            ),
{
    lemma_header_position(headers, name);
    let position = header_position(headers, name);
    let after = with_header(headers, name, value);
    if position < headers.len() {
        assert(after[position] == (name, value));
    } else {
        assert(after[headers.len() as int] == (name, value));
    }
    assert forall|other: Seq<char>, text: Seq<char>|
        other != name && has_header(headers, other, text) implies has_header(
        after,
        other,
        text,
    ) by {
        let i = choose|i: int| 0 <= i < headers.len() && #[trigger] headers[i] == (other, text);
        assert(after[i] == (other, text));
    }
}

/// Every hook sends `content-type: application/json`, whatever is
/// configured, and a hook with a user name and a secret sends their
/// `authorization` header.
pub proof fn lemma_hook_headers(
    entries: Seq<Seq<char>>,
    username: Option<Seq<char>>,
    secret: Option<Seq<char>>,
)
    ensures
        has_header(hook_headers(entries, username, secret), "content-type"@, "application/json"@),
        username is Some && secret is Some ==> has_header(
            hook_headers(entries, username, secret),
            "authorization"@,
            "Basic "@ + base64_standard(basic_credentials(username.unwrap(), secret.unwrap())),
        ),
{
    let configured = match configured_headers(entries) {
        Some(headers) => headers,
        None => Seq::empty(),
    };
    lemma_with_header(configured, "content-type"@, "application/json"@);
    let typed = with_header(configured, "content-type"@, "application/json"@);
    if username is Some && secret is Some {
        let value = "Basic "@ + base64_standard(
            basic_credentials(username.unwrap(), secret.unwrap()),
        );
        reveal_strlit("content-type");
        reveal_strlit("authorization");
        assert("content-type"@.len() != "authorization"@.len());
        lemma_with_header(typed, "authorization"@, value);
    }
}

/// Sets the header `name` to `value`.
pub fn set_header(headers: &mut Vec<(String, String)>, name: String, value: String)
    ensures
        headers_view(final(headers)@) == with_header(headers_view(old(headers)@), name@, value@),
{
    let ghost list = headers_view(headers@);
    let mut i: usize = 0;
    assert(list.take(0) == Seq::<(Seq<char>, Seq<char>)>::empty());
    while i < headers.len()
        invariant
            i <= headers@.len(),
            headers@ == old(headers)@,
            list == headers_view(headers@),
            header_position(list.take(i as int), name@) == i,
        decreases headers@.len() - i,
    {
        assert(list.take(i + 1).drop_last() == list.take(i as int));
        if headers[i].0 == name {
            proof {
                lemma_header_position_found(list, name@, i as int);
            }
            headers.set(i, (name, value));
            assert(headers_view(headers@) =~= list.update(i as int, (name@, value@)));
            return ;
        }
        i += 1;
    }
    assert(list.take(list.len() as int) == list);
    headers.push((name, value));
    assert(headers_view(headers@) =~= list.push((name@, value@)));
}

/// A position found in a prefix of the list is the position in the list.
pub proof fn lemma_header_position_found(
    headers: Seq<(Seq<char>, Seq<char>)>,
    name: Seq<char>,
    position: int,
)
    requires
        0 <= position < headers.len(),
        header_position(headers.take(position + 1), name) == position,
    ensures
        header_position(headers, name) == position,
    decreases headers.len(),
{
    if headers.len() > position + 1 {
        let front = headers.drop_last();
        assert(front.take(position + 1) == headers.take(position + 1));
        lemma_header_position_found(front, name, position);
    } else {
        assert(headers.take(position + 1) == headers);
    }
}

/// Reads one configured header entry.
pub fn parse_header_entry(entry: &str) -> (header: Option<(String, String)>)
    ensures
        match header {
            Some((name, value)) => entry_header(entry@) == Some((name@, value@)),
            None => entry_header(entry@) is None,
        },
{
    match split_once_colon(entry) {
        None => {
            proof {
                lemma_first_index_none(entry@, ':');
            }
            None
        },
        Some((before, after)) => {
            proof {
                lemma_first_index_split(before@, ':', after@);
                let colon = first_index(entry@, ':');
                assert(entry@.take(colon) =~= before@);
                assert(entry@.skip(colon + 1) =~= after@);
            }
            let name = trim(before);
            let value = trim(after);
            match normalize_header_name(name) {
                Some(normal) => {
                    if accepts_header_value(value) {
                        Some((normal, value.to_owned()))
                    } else {
                        None
                    }
                },
                None => None,
            }
        },
    }
}

/// Builds a hook from its settings. There is no hook without a URL.
/// Everything else has a default: a timeout of 30 seconds, valid
/// certificates only, failure for the time being on error, responses of up
/// to 50 MiB, and an enable expression that is `false`.
pub fn parse_delivery_hooks(settings: &HookSettings, id: &str) -> (hook: Option<DeliveryHook>)
    requires
        settings.auth_username is Some && settings.auth_secret is Some ==> base64_fits(
            basic_credentials(
                settings.auth_username.unwrap()@,
                settings.auth_secret.unwrap()@,
            ).len(),
        ),
    ensures
        hook is None <==> settings.url is None,
        hook matches Some(h) ==> {
            &&& h.id@ == id@
            &&& h.url@ == settings.url.unwrap()@
            &&& h.enable@ == match settings.enable {
                Some(expression) => expression@,
                None => "false"@,
            }
            &&& h.timeout_ms == match settings.timeout_ms {
                Some(t) => t,
                None => DEFAULT_TIMEOUT_MS,
            }
            &&& h.tls_allow_invalid_certs == match settings.allow_invalid_certs {
                Some(b) => b,
                None => false,
            }
            &&& h.tempfail_on_error == match settings.tempfail_on_error {
                Some(b) => b,
                None => true,
            }
            &&& h.max_response_size == match settings.max_response_size {
                Some(n) => n,
                None => DEFAULT_MAX_RESPONSE_SIZE,
            }
            &&& headers_view(h.headers@) == hook_headers(
                texts(settings.headers@),
                option_text(settings.auth_username),
                option_text(settings.auth_secret),
            )
        },
{
    let url = match &settings.url {
        Some(url) => url.clone(),
        None => {
            return None;
        },
    };
    let mut headers: Vec<(String, String)> = Vec::new();
    let mut well_formed = true;
    let ghost entries = texts(settings.headers@);
    let mut i: usize = 0;
    assert(entries.take(0) == Seq::<Seq<char>>::empty());
    assert(headers_view(headers@) =~= Seq::<(Seq<char>, Seq<char>)>::empty());
    while i < settings.headers.len()
        invariant
            i <= settings.headers@.len(),
            entries == texts(settings.headers@),
            well_formed ==> configured_headers(entries.take(i as int)) == Some(
                headers_view(headers@),
            ),
            !well_formed ==> configured_headers(entries.take(i as int)) is None,
        decreases settings.headers@.len() - i,
    {
        assert(entries.take(i + 1).drop_last() == entries.take(i as int));
        assert(entries.take(i + 1).last() == settings.headers@[i as int]@);
        match parse_header_entry(settings.headers[i].as_str()) {
            Some((name, value)) => {
                if well_formed {
                    set_header(&mut headers, name, value);
                }
            },
            None => {
                well_formed = false;
            },
        }
        i += 1;
    }
    assert(entries.take(entries.len() as int) == entries);
    if !well_formed {
        headers = Vec::new();
        assert(headers_view(headers@) =~= Seq::<(Seq<char>, Seq<char>)>::empty());
    }
    set_header(&mut headers, "content-type".to_owned(), "application/json".to_owned());
    match (&settings.auth_username, &settings.auth_secret) {
        (Some(username), Some(secret)) => {
            let mut credentials = username.clone();
            credentials.append(":");
            credentials.append(secret.as_str());
            proof {
                reveal_strlit(":");
                assert(":"@ =~= seq![':']);
            }
            let encoded = encode_base64(credentials.as_str().as_bytes());
            let mut value = "Basic ".to_owned();
            value.append(encoded.as_str());
            set_header(&mut headers, "authorization".to_owned(), value);
        },
        _ => {},
    }
    Some(
        DeliveryHook {
            enable: match &settings.enable {
                Some(expression) => expression.clone(),
                None => "false".to_owned(),
            },
            id: id.to_owned(),
            url,
            timeout_ms: match settings.timeout_ms {
                Some(t) => t,
                None => DEFAULT_TIMEOUT_MS,
            },
            headers,
            tls_allow_invalid_certs: match settings.allow_invalid_certs {
                Some(b) => b,
                None => false,
            },
            tempfail_on_error: match settings.tempfail_on_error {
                Some(b) => b,
                None => true,
            },
            max_response_size: match settings.max_response_size {
                Some(n) => n,
                None => DEFAULT_MAX_RESPONSE_SIZE,
            },
        },
    )
}

} // verus!
