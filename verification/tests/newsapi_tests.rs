use newsapi::api::{
    classify, map_response_error, process_fetch_outcome, process_response_body, NewsApi,
    TransportFailure,
};
use newsapi::json::parse_news_response;
use newsapi::model::{Article, Country, Endpoint, NewsApiError, NewsApiResponse};
use newsapi::urlbuild::build_url;

fn rule() -> String {
    "-".repeat(104)
}

#[test]
fn prepare_url_default_us() {
    let api = NewsApi::new("secret-key");
    let url = api.prepare_url().unwrap();
    assert_eq!(url, "https://newsapi.org/v2/top-headlines?country=us");
}

#[test]
fn prepare_url_romania() {
    let api = NewsApi::new("k").country(Country::Romania);
    let url = api.prepare_url().unwrap();
    assert_eq!(url, "https://newsapi.org/v2/top-headlines?country=ro");
}

#[test]
fn prepare_url_hungary() {
    let api = NewsApi::new("k")
        .endpoint(Endpoint::TopHeadlines)
        .country(Country::Hungary);
    let url = api.prepare_url().unwrap();
    assert_eq!(url, "https://newsapi.org/v2/top-headlines?country=hu");
}

#[test]
fn wire_tokens() {
    assert_eq!(Endpoint::TopHeadlines.to_string(), "top-headlines");
    assert_eq!(Country::Us.to_string(), "us");
    assert_eq!(Country::Romania.to_string(), "ro");
    assert_eq!(Country::Hungary.to_string(), "hu");
}

#[test]
fn builder_keeps_key() {
    let api = NewsApi::new("my-key").country(Country::Hungary);
    assert_eq!(api.api_key(), "my-key");
}

#[test]
fn build_url_rejects_malformed_base() {
    let r = build_url("not a url at all", &Endpoint::TopHeadlines, &Country::Us);
    assert!(matches!(r, Err(NewsApiError::UrlParsingFailed(_))));
}

#[test]
fn parse_single_article() {
    let body = "{\"status\":\"ok\",\"articles\":[{\"title\":\"A\",\"url\":\"http://x\"}]}";
    let r = parse_news_response(body).unwrap();
    assert_eq!(r.status(), "ok");
    assert!(r.code().is_none());
    assert_eq!(r.articles().len(), 1);
    assert_eq!(r.articles()[0].title(), "A");
    assert_eq!(r.articles()[0].url(), "http://x");
}

#[test]
fn presenter_one_block() {
    let body = "{\"status\":\"ok\",\"articles\":[{\"title\":\"A\",\"url\":\"http://x\"}]}";
    let r = process_response_body(body).unwrap();
    let text = r.render_text();
    let expected = format!("Major headlines\n\n> A\n{}\n\thttp://x\n\n", rule());
    assert_eq!(text, expected);
}

#[test]
fn presenter_no_articles() {
    let body = "{\"status\":\"ok\",\"articles\":[]}";
    let r = process_response_body(body).unwrap();
    assert_eq!(r.articles().len(), 0);
    assert_eq!(r.render_text(), "Major headlines\n");
}

#[test]
fn presenter_keeps_order() {
    let articles = vec![
        Article::new("first".to_string(), "u1".to_string()),
        Article::new("second".to_string(), "u2".to_string()),
    ];
    let r = NewsApiResponse::new("ok".to_string(), articles, None);
    let expected = format!(
        "Major headlines\n\n> first\n{}\n\tu1\n\n\n> second\n{}\n\tu2\n\n",
        rule(),
        rule()
    );
    assert_eq!(r.render_text(), expected);
}

#[test]
fn transport_failure_is_request_failed() {
    let out: Result<String, TransportFailure> =
        Err(TransportFailure::Transport("connection refused".to_string()));
    match process_fetch_outcome(out) {
        Err(NewsApiError::RequestFailed(m)) => assert_eq!(m, "connection refused"),
        other => panic!("unexpected outcome: {:?}", other),
    }
}

#[test]
fn async_transport_failure_is_async_request_failed() {
    let out: Result<String, TransportFailure> =
        Err(TransportFailure::AsyncTransport("timeout".to_string()));
    match process_fetch_outcome(out) {
        Err(NewsApiError::AsyncRequestFailed(m)) => assert_eq!(m, "timeout"),
        other => panic!("unexpected outcome: {:?}", other),
    }
}

#[test]
fn body_read_failure_is_response_to_string_failed() {
    let out: Result<String, TransportFailure> =
        Err(TransportFailure::BodyRead("bad bytes".to_string()));
    match process_fetch_outcome(out) {
        Err(NewsApiError::ResponseToStringFailed(m)) => assert_eq!(m, "bad bytes"),
        other => panic!("unexpected outcome: {:?}", other),
    }
}

#[test]
fn malformed_body_is_parse_failure() {
    let r = process_response_body("not json");
    assert!(matches!(r, Err(NewsApiError::ArticleParseFailed(_))));
    let r2 = process_fetch_outcome(Ok("not json".to_string()));
    assert!(matches!(r2, Err(NewsApiError::ArticleParseFailed(_))));
}

#[test]
fn error_status_without_code_is_unknown_error() {
    let body = "{\"status\":\"error\",\"articles\":[]}";
    match process_response_body(body) {
        Err(NewsApiError::BadRequest(m)) => assert_eq!(m, "Unknown Error"),
        other => panic!("unexpected outcome: {:?}", other),
    }
}

#[test]
fn api_key_disabled_has_its_own_message() {
    let body = "{\"status\":\"error\",\"code\":\"apiKeyDisabled\",\"articles\":[]}";
    match process_response_body(body) {
        Err(NewsApiError::BadRequest(m)) => {
            assert_eq!(m, "Your API key has been disabled.")
        },
        other => panic!("unexpected outcome: {:?}", other),
    }
}

#[test]
fn unrecognized_code_degrades_to_unknown_error() {
    match map_response_error(Some("rateLimited".to_string())) {
        NewsApiError::BadRequest(m) => assert_eq!(m, "Unknown Error"),
        other => panic!("unexpected error: {:?}", other),
    }
    match map_response_error(None) {
        NewsApiError::BadRequest(m) => assert_eq!(m, "Unknown Error"),
        other => panic!("unexpected error: {:?}", other),
    }
    match map_response_error(Some("apiKeyDisabled".to_string())) {
        NewsApiError::BadRequest(m) => assert_eq!(m, "Your API key has been disabled."),
        other => panic!("unexpected error: {:?}", other),
    }
}

#[test]
fn classify_is_idempotent_on_ok() {
    let r = NewsApiResponse::new(
        "ok".to_string(),
        vec![Article::new("t".to_string(), "u".to_string())],
        None,
    );
    let once = classify(r).unwrap();
    let twice = classify(once).unwrap();
    assert_eq!(twice.status(), "ok");
    assert_eq!(twice.articles().len(), 1);
    assert_eq!(twice.articles()[0].title(), "t");
    assert_eq!(twice.articles()[0].url(), "u");
    assert!(twice.code().is_none());
}

#[test]
fn classify_ignores_code_on_ok() {
    let r = NewsApiResponse::new("ok".to_string(), vec![], Some("someCode".to_string()));
    let out = classify(r).unwrap();
    assert_eq!(out.status(), "ok");
}

#[test]
fn round_trip_one_article() {
    let r = NewsApiResponse::new(
        "ok".to_string(),
        vec![Article::new("A".to_string(), "http://x".to_string())],
        None,
    );
    let json = r.to_json();
    assert_eq!(
        json,
        "{\"status\":\"ok\",\"articles\":[{\"title\":\"A\",\"url\":\"http://x\"}]}"
    );
    let back = parse_news_response(&json).unwrap();
    assert_eq!(back.status(), "ok");
    assert_eq!(back.articles().len(), 1);
    assert_eq!(back.articles()[0].title(), "A");
    assert_eq!(back.articles()[0].url(), "http://x");
}

#[test]
fn round_trip_no_articles() {
    let r = NewsApiResponse::new("ok".to_string(), vec![], None);
    let json = r.to_json();
    assert_eq!(json, "{\"status\":\"ok\",\"articles\":[]}");
    let back = parse_news_response(&json).unwrap();
    assert_eq!(back.status(), "ok");
    assert_eq!(back.articles().len(), 0);
}

#[test]
fn round_trip_with_code_and_escapes() {
    let r = NewsApiResponse::new(
        "error".to_string(),
        vec![Article::new("He said \"hi\"\n".to_string(), "http://x?a=b".to_string())],
        Some("apiKeyDisabled".to_string()),
    );
    let json = r.to_json();
    let back = parse_news_response(&json).unwrap();
    assert_eq!(back.status(), "error");
    assert_eq!(back.code().as_deref(), Some("apiKeyDisabled"));
    assert_eq!(back.articles()[0].title(), "He said \"hi\"\n");
    assert_eq!(back.articles()[0].url(), "http://x?a=b");
}

#[test]
fn parse_ignores_unknown_fields() {
    let body = "{\"x\":{\"y\":[1,2.5e3,{\"z\":null},true,false]},\"status\":\"ok\",\
                \"articles\":[],\"totalResults\":0}";
    let r = parse_news_response(body).unwrap();
    assert_eq!(r.status(), "ok");
}

#[test]
fn parse_rejects_duplicate_field() {
    let body = "{\"status\":\"ok\",\"status\":\"ok\",\"articles\":[]}";
    assert!(matches!(
        parse_news_response(body),
        Err(NewsApiError::ArticleParseFailed(_))
    ));
}

#[test]
fn parse_rejects_missing_required_fields() {
    assert!(parse_news_response("{\"articles\":[]}").is_err());
    assert!(parse_news_response("{\"status\":\"ok\"}").is_err());
    assert!(parse_news_response("{}").is_err());
}

#[test]
fn parse_code_null_means_no_code() {
    let body = "{\"status\":\"ok\",\"code\":null,\"articles\":[]}";
    let r = parse_news_response(body).unwrap();
    assert!(r.code().is_none());
}

#[test]
fn parse_decodes_unicode_escapes() {
    let body =
        "{\"status\":\"ok\",\"articles\":[{\"title\":\"\\u0041\\uD83D\\uDE00\",\"url\":\"u\"}]}";
    let r = parse_news_response(body).unwrap();
    assert_eq!(r.articles()[0].title(), "A\u{1F600}");
}

#[test]
fn parse_rejects_trailing_text() {
    let body = "{\"status\":\"ok\",\"articles\":[]} x";
    assert!(parse_news_response(body).is_err());
    let ws_only = "  {\"status\":\"ok\",\"articles\":[]}  ";
    assert!(parse_news_response(ws_only).is_ok());
}

#[test]
fn write_to_terminal_prints_without_panicking() {
    let r = NewsApiResponse::new(
        "ok".to_string(),
        vec![Article::new("T".to_string(), "http://u".to_string())],
        None,
    );
    r.write_to_terminal();
}
