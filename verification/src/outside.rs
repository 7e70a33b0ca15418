//! The calls into std string functions and into the `reqwest`, `semver` and `urlencoding`
//! crates, each with a contract that states what that crate's source shows of it.
use vstd::prelude::*;

verus! {

/// `String::push`: std documents that it appends the given char to the end of the string.
#[verifier::external_body]
pub(crate) fn push_char(s: &mut String, c: char)
    ensures
        final(s)@ == old(s)@.push(c),
{
    s.push(c);
}


/// What the library reads of a parsed URL.
pub struct UrlParts {
    pub scheme: String,
    pub host: Option<String>,
    pub path: String,
    pub query: Option<String>,
    pub fragment: Option<String>,
    /// The query's `key=value` pairs, percent-decoded, in order.
    pub query_pairs: Vec<(String, String)>,
}

pub struct UrlPartsView {
    pub scheme: Seq<char>,
    pub host: Option<Seq<char>>,
    pub path: Seq<char>,
    pub query: Option<Seq<char>>,
    pub fragment: Option<Seq<char>>,
    pub query_pairs: Seq<(Seq<char>, Seq<char>)>,
}

pub open spec fn opt_str_view(o: Option<String>) -> Option<Seq<char>> {
    match o {
        Some(s) => Some(s@),
        None => None,
    }
}

pub open spec fn pairs_view(v: Seq<(String, String)>) -> Seq<(Seq<char>, Seq<char>)> {
    v.map_values(|p: (String, String)| (p.0@, p.1@))
}

impl View for UrlParts {
    type V = UrlPartsView;

    open spec fn view(&self) -> UrlPartsView {
        UrlPartsView {
            scheme: self.scheme@,
            host: opt_str_view(self.host),
            path: self.path@,
            query: opt_str_view(self.query),
            fragment: opt_str_view(self.fragment),
            query_pairs: pairs_view(self.query_pairs@),
        }
    }
}

/// The parse that the `url` crate (`reqwest::Url::parse`) makes of a string: `None` where it
/// reports an error. WHATWG URL parsing is not restated here.
pub uninterp spec fn spec_url_parse(s: Seq<char>) -> Option<UrlPartsView>;

/// `reqwest::Url::parse`, read back through `scheme`, `host_str`, `path`, `query`,
/// `fragment` and `query_pairs`. The contract says only that the result is a function of the
/// input string.
#[verifier::external_body]
pub(crate) fn parse_url(s: &str) -> (r: Option<UrlParts>)
    ensures
        match r {
            Some(u) => spec_url_parse(s@) == Some(u@),
            None => spec_url_parse(s@) is None,
        },
{
    match reqwest::Url::parse(s) {
        Ok(u) => Some(UrlParts {
            scheme: u.scheme().to_string(),
            host: u.host_str().map(str::to_string),
            path: u.path().to_string(),
            query: u.query().map(str::to_string),
            fragment: u.fragment().map(str::to_string),
            query_pairs: u.query_pairs().map(|(k, v)| (k.into_owned(), v.into_owned())).collect(),
        }),
        Err(_) => None,
    }
}

/// The Unicode lowercase mapping that `str::to_lowercase` applies.
pub uninterp spec fn spec_to_lowercase(s: Seq<char>) -> Seq<char>;

/// `str::to_lowercase`: std documents it as the string's Unicode lowercase equivalent; the
/// mapping is named, not restated.
#[verifier::external_body]
pub(crate) fn to_lowercase(s: &str) -> (r: String)
    ensures
        r@ == spec_to_lowercase(s@),
{
    s.to_lowercase()
}

/// What the `url` crate makes of `base` with the query pair `key=value` appended
/// (`Url::parse`, `query_pairs_mut().append_pair`, then `to_string`), or the text of its
/// parse error.
pub uninterp spec fn spec_url_with_pair(base: Seq<char>, key: Seq<char>, value: Seq<char>) -> Result<Seq<char>, Seq<char>>;

/// `reqwest::Url::parse(base)`, then `query_pairs_mut().append_pair(key, value)`, serialised.
/// The contract names the result as a function of the three strings and states nothing of
/// the encoding.
#[verifier::external_body]
pub(crate) fn url_with_pair(base: &str, key: &str, value: &str) -> (r: Result<String, String>)
    ensures
        match r {
            Ok(u) => spec_url_with_pair(base@, key@, value@) == Ok::<Seq<char>, Seq<char>>(u@),
            Err(e) => spec_url_with_pair(base@, key@, value@) == Err::<Seq<char>, Seq<char>>(e@),
        },
{
    match reqwest::Url::parse(base) {
        Ok(mut u) => {
            u.query_pairs_mut().append_pair(key, value);
            Ok(u.to_string())
        },
        Err(e) => Err(e.to_string()),
    }
}

/// Whether the `semver` crate orders `latest` after `current`, when both parse as versions
/// (`Version::parse`); `None` when either does not.
pub uninterp spec fn spec_semver_newer(latest: Seq<char>, current: Seq<char>) -> Option<bool>;

/// `semver::Version::parse` on both strings and `>` between the results. The version grammar
/// and its order (pre-release and build metadata included) are named, not restated.
#[verifier::external_body]
pub(crate) fn semver_newer(latest: &str, current: &str) -> (r: Option<bool>)
    ensures
        r == spec_semver_newer(latest@, current@),
{
    match (semver::Version::parse(latest), semver::Version::parse(current)) {
        (Ok(l), Ok(c)) => Some(l > c),
        _ => None,
    }
}

/// The bytes that `urlencoding::encode` leaves as they are.
pub open spec fn url_unreserved(b: u8) -> bool {
    (0x30 <= b <= 0x39) || (0x41 <= b <= 0x5a) || (0x61 <= b <= 0x7a) || b == 0x2d || b == 0x2e
        || b == 0x5f || b == 0x7e
}

/// An upper-case hex digit.
pub open spec fn hex_digit(d: u8) -> char {
    if d < 10 {
        (0x30 + d) as char
    } else {
        (0x41 - 10 + d) as char
    }
}

/// Percent-encoding of bytes: unreserved bytes as they are, every other byte as `%XX`.
pub open spec fn percent_encode(bytes: Seq<u8>) -> Seq<char>
    decreases bytes.len(),
{
    if bytes.len() == 0 {
        Seq::empty()
    } else {
        let b = bytes[0];
        (if url_unreserved(b) {
            seq![b as char]
        } else {
            seq!['%', hex_digit(b >> 4), hex_digit(b & 15)]
        }) + percent_encode(bytes.drop_first())
    }
}

/// `urlencoding::encode`: its documentation and source percent-encode every byte of the
/// UTF-8 text except ASCII letters, digits and `-`, `_`, `.`, `~`, with upper-case hex.
#[verifier::external_body]
pub(crate) fn url_encode(s: &str) -> (r: String)
    ensures
        r@ == percent_encode(vstd::utf8::encode_utf8(s@)),
{
    urlencoding::encode(s).into_owned()
}

/// The reason phrase that `http`'s `StatusCode` shows for a code: its canonical reason, or
/// `<unknown status code>` where it has none.
pub uninterp spec fn spec_status_reason(code: u16) -> Seq<char>;

/// `reqwest::StatusCode::from_u16(code)` displayed with `to_string`. `from_u16` accepts
/// 100..=999, which `requires` keeps to; `Display` writes the code in decimal, a space and the
/// reason phrase. The phrases themselves are named, not restated.
#[verifier::external_body]
pub(crate) fn status_text(code: u16) -> (r: String)
    requires
        100 <= code <= 999,
    ensures
        r@ == crate::text::decimal(code as nat) + " "@ + spec_status_reason(code),
{
    match reqwest::StatusCode::from_u16(code) {
        Ok(s) => s.to_string(),
        Err(e) => e.to_string(),
    }
}
} // verus!
