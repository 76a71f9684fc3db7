//! Query-URL construction on top of the url crate.
//!
//! The url crate parses the base URL, percent-encodes the appended path
//! segment and encodes the query; those calls stand behind trusted
//! wrappers whose contracts state only what the crate's source shows.
use vstd::prelude::*;
use vstd::string::StringExecFns;

use crate::api::BASE_URL;
use crate::model::{country_token, endpoint_token, Country, Endpoint, NewsApiError};

verus! {

#[verifier::external_type_specification]
#[verifier::external_body]
pub struct ExUrl(url::Url);

#[verifier::external_type_specification]
#[verifier::external_body]
pub struct ExUrlParseError(url::ParseError);

/// What url::Url::path returns: the path part of the serialization.
pub uninterp spec fn url_path(u: url::Url) -> Seq<char>;

/// What url::Url::query returns: the query part, if one is set.
pub uninterp spec fn url_query(u: url::Url) -> Option<Seq<char>>;

/// What url::Url::as_str returns: the whole serialization.
pub uninterp spec fn url_serialization(u: url::Url) -> Seq<char>;

/// What url::Url::cannot_be_a_base returns, negated: whether the URL is
/// hierarchical, so that path segments can be appended to it.
pub uninterp spec fn url_is_base(u: url::Url) -> bool;

/// The serialization of what url::Url::parse returns on the given text.
pub uninterp spec fn url_parse_norm(s: Seq<char>) -> Seq<char>;

/// The serialization after url::PathSegmentsMut::push, as a function of
/// the old serialization and the segment: a URL's components are
/// positions inside its serialization, so the effect of push depends on
/// nothing else.
pub uninterp spec fn url_push_norm(s: Seq<char>, segment: Seq<char>) -> Seq<char>;

/// The serialization after url::Url::set_query, as a function of the
/// old serialization and the new query, for the same reason.
pub uninterp spec fn url_set_query_norm(s: Seq<char>, query: Seq<char>) -> Seq<char>;

/// The string the builder owes for a base URL and the two selectors:
/// the base parsed, the endpoint token pushed, the country query set.
pub open spec fn built_url_string(base: Seq<char>, e: Endpoint, c: Country) -> Seq<char> {
    url_set_query_norm(
        url_push_norm(url_parse_norm(base), endpoint_token(e)),
        "country="@ + country_token(c),
    )
}

/// Characters that the url crate's path-segment and query encoders pass
/// through unchanged: ASCII letters, digits, '-' and '='.
pub open spec fn url_safe_char(c: char) -> bool {
    ('a' <= c && c <= 'z') || ('A' <= c && c <= 'Z') || ('0' <= c && c <= '9') || c == '-' || c
        == '='
}

pub open spec fn url_safe(s: Seq<char>) -> bool {
    forall|i: int| 0 <= i < s.len() ==> url_safe_char(s[i])
}

pub open spec fn seq_ends_with(s: Seq<char>, suffix: Seq<char>) -> bool {
    s.len() >= suffix.len() && s.subrange(s.len() - suffix.len(), s.len() as int) == suffix
}

/// Relies on url::Url::parse: Ok exactly on a well-formed absolute URL
/// — in particular on the library's fixed base URL, an https URL with a
/// host, for which cannot_be_a_base is also false — and the parsed
/// value is a function of the input text alone.
#[verifier::external_body]
fn url_parse(input: &str) -> (r: Result<url::Url, url::ParseError>)
    ensures
        input@ == BASE_URL@ ==> (r is Ok && url_is_base(r->Ok_0)),
        r is Ok ==> url_serialization(r->Ok_0) == url_parse_norm(input@),
{
    url::Url::parse(input)
}

/// Relies on url::Url::path_segments_mut and url::PathSegmentsMut::push:
/// on a URL that can be a base, push appends a '/' separator and then
/// the percent-encoded segment at the end of the path, and characters
/// admitted by `url_safe_char` are never encoded, so a safe, non-empty
/// segment other than "." and ".." lands at the end of the path
/// unchanged. Returns false, with the URL untouched, exactly when the
/// URL cannot be a base.
#[verifier::external_body]
fn url_push_segment(u: &mut url::Url, segment: &str) -> (ok: bool)
    ensures
        ok == url_is_base(*old(u)),
        !ok ==> *final(u) == *old(u),
        (ok && url_safe(segment@) && segment@.len() > 0 && segment@ != "."@ && segment@
            != ".."@) ==> seq_ends_with(url_path(*final(u)), "/"@ + segment@),
        ok ==> url_serialization(*final(u)) == url_push_norm(
            url_serialization(*old(u)),
            segment@,
        ),
{
    match u.path_segments_mut() {
        Ok(mut segments) => {
            segments.push(segment);
            true
        },
        Err(()) => false,
    }
}

/// Relies on url::Url::set_query: replaces any previous query with the
/// given one, percent-encoding as needed; characters admitted by
/// `url_safe_char` pass through unchanged, and the path is not touched.
#[verifier::external_body]
fn url_set_query(u: &mut url::Url, query: &str)
    ensures
        url_safe(query@) ==> url_query(*final(u)) == Some(query@),
        url_path(*final(u)) == url_path(*old(u)),
        url_serialization(*final(u)) == url_set_query_norm(
            url_serialization(*old(u)),
            query@,
        ),
{
    u.set_query(Some(query));
}

/// Relies on url::Url::as_str: returns the serialization of the URL.
#[verifier::external_body]
fn url_as_string(u: &url::Url) -> (r: String)
    ensures
        r@ == url_serialization(*u),
{
    u.as_str().to_string()
}

proof fn lemma_endpoint_token_safe(e: Endpoint)
    ensures
        url_safe(endpoint_token(e)),
        endpoint_token(e).len() > 0,
        endpoint_token(e) != "."@,
        endpoint_token(e) != ".."@,
{
    reveal_strlit("top-headlines");
    reveal_strlit(".");
    reveal_strlit("..");
    match e {
        Endpoint::TopHeadlines => {
            assert forall|i: int| 0 <= i < endpoint_token(e).len() implies url_safe_char(
                endpoint_token(e)[i],
            ) by {
                assert(endpoint_token(e) == "top-headlines"@);
            }
        },
    }
}

proof fn lemma_country_query_safe(c: Country)
    ensures
        url_safe("country="@ + country_token(c)),
{
    reveal_strlit("country=");
    reveal_strlit("us");
    reveal_strlit("ro");
    reveal_strlit("hu");
    let q = "country="@ + country_token(c);
    assert forall|i: int| 0 <= i < q.len() implies url_safe_char(q[i]) by {
        if i < "country="@.len() {
            assert(q[i] == "country="@[i]);
        } else {
            assert(q[i] == country_token(c)[i - "country="@.len()]);
        }
    }
}

/// Builds the query URL: parses the base URL, appends the endpoint token
/// as one percent-encoded path segment, and sets the query string to
/// exactly `country=<token>`, replacing any prior query. Fails with
/// `UrlParsingFailed` exactly when the base URL itself is unusable.
pub fn build_url(base: &str, endpoint: &Endpoint, country: &Country) -> (r: Result<
    url::Url,
    NewsApiError,
>)
    ensures
        base@ == BASE_URL@ ==> r is Ok,
        r is Ok ==> seq_ends_with(url_path(r->Ok_0), "/"@ + endpoint_token(*endpoint)),
        r is Ok ==> url_query(r->Ok_0) == Some("country="@ + country_token(*country)),
        r is Ok ==> url_serialization(r->Ok_0) == built_url_string(base@, *endpoint, *country),
        r is Err ==> r->Err_0 is UrlParsingFailed,
{
    match url_parse(base) {
        Err(_) => Err(NewsApiError::UrlParsingFailed("malformed base URL".to_owned())),
        Ok(mut u) => {
            let seg = endpoint.to_string();
            proof {
                lemma_endpoint_token_safe(*endpoint);
            }
            let pushed = url_push_segment(&mut u, seg.as_str());
            if !pushed {
                Err(NewsApiError::UrlParsingFailed("base URL cannot carry a path".to_owned()))
            } else {
                let mut q: String = "country=".to_owned();
                let code = country.to_string();
                q.append(code.as_str());
                proof {
                    lemma_country_query_safe(*country);
                }
                url_set_query(&mut u, q.as_str());
                Ok(u)
            }
        },
    }
}

/// `build_url` followed by serialization: the URL as a string, for the
/// transport. The string is the serialization of a URL whose path ends
/// with the endpoint token and whose query is exactly `country=<token>`.
pub fn build_url_string(base: &str, endpoint: &Endpoint, country: &Country) -> (r: Result<
    String,
    NewsApiError,
>)
    ensures
        base@ == BASE_URL@ ==> r is Ok,
        r is Ok ==> r->Ok_0@ == built_url_string(base@, *endpoint, *country),
        r is Ok ==> (exists|u: url::Url|
            r->Ok_0@ == url_serialization(u) && #[trigger] seq_ends_with(
                url_path(u),
                "/"@ + endpoint_token(*endpoint),
            ) && url_query(u) == Some("country="@ + country_token(*country))),
        r is Err ==> r->Err_0 is UrlParsingFailed,
{
    match build_url(base, endpoint, country) {
        Ok(u) => {
            let s = url_as_string(&u);
            proof {
                assert(s@ == url_serialization(u) && seq_ends_with(
                    url_path(u),
                    "/"@ + endpoint_token(*endpoint),
                ) && url_query(u) == Some("country="@ + country_token(*country)));
            }
            Ok(s)
        },
        Err(e) => Err(e),
    }
}

} // verus!
