use vstd::prelude::*;

verus! {

/// A named resource path segment of the news API.
#[derive(Clone, Copy, Debug, PartialEq, Eq, Structural)]
pub enum Endpoint {
    TopHeadlines,
}

/// A region selector, mapped to the API's two-letter country code.
#[derive(Clone, Copy, Debug, PartialEq, Eq, Structural)]
pub enum Country {
    Us,
    Romania,
    Hungary,
}

/// The wire token of an endpoint: a non-empty lowercase path segment.
pub open spec fn endpoint_token(e: Endpoint) -> Seq<char> {
    match e {
        Endpoint::TopHeadlines => "top-headlines"@,
    }
}

/// The wire token of a country: its two-letter lowercase code.
pub open spec fn country_token(c: Country) -> Seq<char> {
    match c {
        Country::Us => "us"@,
        Country::Romania => "ro"@,
        Country::Hungary => "hu"@,
    }
}

impl Endpoint {
    /// The token that names this endpoint on the wire.
    pub fn to_string(&self) -> (r: String)
        ensures
            r@ == endpoint_token(*self),
    {
        match self {
            Endpoint::TopHeadlines => "top-headlines".to_owned(),
        }
    }
}

impl Country {
    /// The token that names this country on the wire.
    pub fn to_string(&self) -> (r: String)
        ensures
            r@ == country_token(*self),
    {
        match self {
            Country::Us => "us".to_owned(),
            Country::Romania => "ro".to_owned(),
            Country::Hungary => "hu".to_owned(),
        }
    }
}

/// One article record: a title and a URL, both opaque display text.
#[derive(Debug)]
pub struct Article {
    title: String,
    url: String,
}

/// The mathematical content of an article.
pub ghost struct ArticleView {
    pub title: Seq<char>,
    pub url: Seq<char>,
}

impl View for Article {
    type V = ArticleView;

    closed spec fn view(&self) -> ArticleView {
        ArticleView { title: self.title@, url: self.url@ }
    }
}

impl Article {
    pub fn new(title: String, url: String) -> (r: Article)
        ensures
            r@ == (ArticleView { title: title@, url: url@ }),
    {
        Article { title, url }
    }

    pub fn title(&self) -> (r: &String)
        ensures
            r@ == self@.title,
    {
        &self.title
    }

    pub fn url(&self) -> (r: &String)
        ensures
            r@ == self@.url,
    {
        &self.url
    }
}

/// The typed response body: a status flag, an optional error code,
/// and the articles in response order.
#[derive(Debug)]
pub struct NewsApiResponse {
    status: String,
    articles: Vec<Article>,
    code: Option<String>,
}


/// The content of an optional string.
pub open spec fn opt_str_view(o: Option<String>) -> Option<Seq<char>> {
    match o {
        Some(x) => Some(x@),
        None => None,
    }
}

/// The contents of a sequence of articles, article by article.
pub open spec fn articles_view(s: Seq<Article>) -> Seq<ArticleView> {
    Seq::new(s.len(), |i: int| s[i]@)
}

/// The mathematical content of a response.
pub ghost struct ResponseView {
    pub status: Seq<char>,
    pub code: Option<Seq<char>>,
    pub articles: Seq<ArticleView>,
}

impl View for NewsApiResponse {
    type V = ResponseView;

    closed spec fn view(&self) -> ResponseView {
        ResponseView {
            status: self.status@,
            code: match self.code {
                Some(c) => Some(c@),
                None => None,
            },
            articles: articles_view(self.articles@),
        }
    }
}

impl NewsApiResponse {
    pub fn new(status: String, articles: Vec<Article>, code: Option<String>) -> (r: NewsApiResponse)
        ensures
            r@.status == status@,
            r@.articles == articles_view(articles@),
            r@.code == (match code {
                Some(c) => Some(c@),
                None => None::<Seq<char>>,
            }),
    {
        NewsApiResponse { status, articles, code }
    }

    pub fn status(&self) -> (r: &String)
        ensures
            r@ == self@.status,
    {
        &self.status
    }

    pub fn articles(&self) -> (r: &Vec<Article>)
        ensures
            r@.len() == self@.articles.len(),
            forall|i: int| 0 <= i < r@.len() ==> r@[i]@ == self@.articles[i],
    {
        &self.articles
    }

    pub fn code(&self) -> (r: &Option<String>)
        ensures
            (*r) is Some <==> self@.code is Some,
            (*r) matches Some(c) ==> self@.code == Some(c@),
    {
        &self.code
    }
}

/// The closed error taxonomy of the library. Each variant carries the
/// human-readable detail of the failure it classifies.
#[derive(Debug)]
pub enum NewsApiError {
    /// The synchronous transport failed before a body was received.
    RequestFailed(String),
    /// The response body could not be read into a string.
    ResponseToStringFailed(String),
    /// The body was not a well-formed response document.
    ArticleParseFailed(String),
    /// The base URL could not be parsed.
    UrlParsingFailed(String),
    /// The API itself reported a non-ok status.
    BadRequest(&'static str),
    /// The asynchronous transport failed before a body was received.
    AsyncRequestFailed(String),
}

} // verus!
