//! Request configuration, API-level error mapping and the decision core
//! of a fetch.
//!
//! The network call itself is outside work: a caller performs the GET
//! for the prepared URL and hands the outcome — the raw body, or a
//! transport failure — to `process_fetch_outcome`, which classifies it.
use vstd::prelude::*;

use crate::json::{
    lemma_serialize_then_parse, parse_news_response, spec_parse_response, spec_ser_response,
};
use crate::model::{
    country_token, endpoint_token, opt_str_view, Country, Endpoint, NewsApiError, NewsApiResponse,
    ResponseView,
};
use crate::urlbuild::{
    build_url_string, built_url_string, seq_ends_with, url_path, url_query, url_serialization,
};

verus! {

/// The fixed, trusted base URL of the news API.
pub const BASE_URL: &'static str = "https://newsapi.org/v2";

/// Configuration of one request: the API key and the two selectors.
#[derive(Debug)]
pub struct NewsApi {
    api_key: String,
    endpoint: Endpoint,
    country: Country,
}

/// The mathematical content of a configuration.
pub ghost struct NewsApiView {
    pub api_key: Seq<char>,
    pub endpoint: Endpoint,
    pub country: Country,
}

impl View for NewsApi {
    type V = NewsApiView;

    closed spec fn view(&self) -> NewsApiView {
        NewsApiView { api_key: self.api_key@, endpoint: self.endpoint, country: self.country }
    }
}

impl NewsApi {
    /// A fresh configuration: top headlines for the US.
    pub fn new(api_key: &str) -> (r: NewsApi)
        ensures
            r@.api_key == api_key@,
            r@.endpoint == Endpoint::TopHeadlines,
            r@.country == Country::Us,
    {
        NewsApi { api_key: api_key.to_owned(), endpoint: Endpoint::TopHeadlines, country: Country::Us }
    }

    /// The same configuration with another endpoint.
    pub fn endpoint(self, endpoint: Endpoint) -> (r: NewsApi)
        ensures
            r@.endpoint == endpoint,
            r@.api_key == self@.api_key,
            r@.country == self@.country,
    {
        NewsApi { endpoint, ..self }
    }

    /// The same configuration with another country.
    pub fn country(self, country: Country) -> (r: NewsApi)
        ensures
            r@.country == country,
            r@.api_key == self@.api_key,
            r@.endpoint == self@.endpoint,
    {
        NewsApi { country, ..self }
    }

    /// The key to send in the Authorization header.
    pub fn api_key(&self) -> (r: &String)
        ensures
            r@ == self@.api_key,
    {
        &self.api_key
    }

    /// The full query URL for this configuration. The base URL is the
    /// trusted constant, so this always succeeds; the result is a pure
    /// function of the endpoint and country selectors, and it is the
    /// serialization of a URL whose path ends with the endpoint token
    /// and whose query is exactly `country=<token>`.
    pub fn prepare_url(&self) -> (r: Result<String, NewsApiError>)
        ensures
            r is Ok,
            r->Ok_0@ == built_url_string(BASE_URL@, self@.endpoint, self@.country),
            exists|u: url::Url|
                r->Ok_0@ == url_serialization(u) && #[trigger] seq_ends_with(
                    url_path(u),
                    "/"@ + endpoint_token(self@.endpoint),
                ) && url_query(u) == Some("country="@ + country_token(self@.country)),
    {
        build_url_string(BASE_URL, &self.endpoint, &self.country)
    }
}

/// The message a non-ok response earns for its error code: the code
/// "apiKeyDisabled" has its own text, any other code and an absent code
/// degrade to a generic message.
pub open spec fn bad_request_message(code: Option<Seq<char>>) -> Seq<char> {
    if code == Some("apiKeyDisabled"@) {
        "Your API key has been disabled."@
    } else {
        "Unknown Error"@
    }
}

/// Maps the error code of a failed response to the user-facing error.
pub fn map_response_error(code: Option<String>) -> (r: NewsApiError)
    ensures
        (r matches NewsApiError::BadRequest(m) && m@ == bad_request_message(opt_str_view(code))),
{
    match code {
        Some(c) => {
            let disabled: String = "apiKeyDisabled".to_owned();
            if c == disabled {
                NewsApiError::BadRequest("Your API key has been disabled.")
            } else {
                proof {
                    assert(opt_str_view(Some(c)) != Some("apiKeyDisabled"@));
                }
                NewsApiError::BadRequest("Unknown Error")
            }
        },
        None => NewsApiError::BadRequest("Unknown Error"),
    }
}

/// What classification makes of a response: an ok status passes the
/// response through untouched, anything else is an error.
pub open spec fn spec_classify(rv: ResponseView) -> Option<ResponseView> {
    if rv.status == "ok"@ {
        Some(rv)
    } else {
        None
    }
}

/// Classifying a response that already classified as ok is a no-op:
/// the response comes back unchanged, however often it is run.
pub proof fn lemma_classify_idempotent(rv: ResponseView)
    requires
        spec_classify(rv) is Some,
    ensures
        spec_classify(spec_classify(rv)->Some_0) == spec_classify(rv),
{
}

/// Applies the error mapping after a successful parse: a response with
/// status "ok" is returned unchanged (its code, if any, is ignored);
/// any other status becomes the typed error of its code.
pub fn classify(response: NewsApiResponse) -> (r: Result<NewsApiResponse, NewsApiError>)
    ensures
        spec_classify(response@) is Some ==> (r is Ok && r->Ok_0@ == response@),
        spec_classify(response@) is None ==> (r is Err && (r->Err_0
            matches NewsApiError::BadRequest(m) && m@ == bad_request_message(response@.code))),
{
    let ok_status: String = "ok".to_owned();
    if *response.status() == ok_status {
        Ok(response)
    } else {
        let code: Option<String> = match response.code() {
            Some(c) => Some(c.clone()),
            None => None,
        };
        Err(map_response_error(code))
    }
}

/// A transport-level failure, as the caller saw it: the request itself
/// failed (over the blocking or the suspending stack), or the body
/// could not be read into a string.
#[derive(Debug)]
pub enum TransportFailure {
    /// The blocking transport failed (DNS, connect, TLS, ...).
    Transport(String),
    /// The suspending transport failed.
    AsyncTransport(String),
    /// The body could not be read or decoded into a string.
    BodyRead(String),
}

/// What the core owes for a received body: parse it strictly, then
/// classify; a malformed body is `ArticleParseFailed` and never reaches
/// the error mapper.
pub open spec fn body_outcome_correct(
    body: Seq<char>,
    r: Result<NewsApiResponse, NewsApiError>,
) -> bool {
    match spec_parse_response(body) {
        None => r is Err && r->Err_0 is ArticleParseFailed,
        Some(rv) => match spec_classify(rv) {
            Some(v) => r is Ok && r->Ok_0@ == v,
            None => r is Err && (r->Err_0 matches NewsApiError::BadRequest(m) && m@
                == bad_request_message(rv.code)),
        },
    }
}

/// Round trip through the fetch core: when the transport hands back
/// the canonical serialization of an ok response, the core returns
/// that very response — whatever the number of its articles, zero
/// included.
pub proof fn lemma_fetch_round_trip(rv: ResponseView, r: Result<NewsApiResponse, NewsApiError>)
    requires
        rv.status == "ok"@,
        body_outcome_correct(spec_ser_response(rv), r),
    ensures
        r is Ok && r->Ok_0@ == rv,
{
    lemma_serialize_then_parse(rv);
}

/// Parses and classifies a received body.
pub fn process_response_body(body: &str) -> (r: Result<NewsApiResponse, NewsApiError>)
    ensures
        body_outcome_correct(body@, r),
{
    match parse_news_response(body) {
        Ok(resp) => classify(resp),
        Err(e) => Err(e),
    }
}

/// The decision core of one fetch. The caller has already performed the
/// network call; this turns its outcome into the final result: a
/// transport failure is surfaced as the matching typed error without
/// the body ever being parsed, and a received body is parsed and
/// classified.
pub fn process_fetch_outcome(outcome: Result<String, TransportFailure>) -> (r: Result<
    NewsApiResponse,
    NewsApiError,
>)
    ensures
        (outcome matches Err(TransportFailure::Transport(m)) ==> (r is Err && (r->Err_0
            matches NewsApiError::RequestFailed(d) && d@ == m@))),
        (outcome matches Err(TransportFailure::AsyncTransport(m)) ==> (r is Err && (r->Err_0
            matches NewsApiError::AsyncRequestFailed(d) && d@ == m@))),
        (outcome matches Err(TransportFailure::BodyRead(m)) ==> (r is Err && (r->Err_0
            matches NewsApiError::ResponseToStringFailed(d) && d@ == m@))),
        (outcome matches Ok(body) ==> body_outcome_correct(body@, r)),
{
    match outcome {
        Ok(body) => process_response_body(body.as_str()),
        Err(TransportFailure::Transport(m)) => Err(NewsApiError::RequestFailed(m)),
        Err(TransportFailure::AsyncTransport(m)) => Err(NewsApiError::AsyncRequestFailed(m)),
        Err(TransportFailure::BodyRead(m)) => Err(NewsApiError::ResponseToStringFailed(m)),
    }
}

} // verus!


