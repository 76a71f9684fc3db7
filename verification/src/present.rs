//! The presenter: formats each article as a styled text block and
//! writes the blocks to the terminal.
use vstd::prelude::*;
use vstd::string::StringExecFns;

use crate::model::{ArticleView, Article, NewsApiResponse, ResponseView};

verus! {

/// The text block of one article: a quoted title line over a separator
/// rule, then the URL on its own indented line.
pub open spec fn article_block(a: ArticleView) -> Seq<char> {
    "\n> "@ + a.title + "\n--------------------------------------------------------------------------------------------------------\n"@ + "\t"@ + a.url + "\n\n"@
}

/// The blocks of a sequence of articles, in response order.
pub open spec fn rendered_articles(arts: Seq<ArticleView>) -> Seq<char>
    decreases arts.len(),
{
    if arts.len() == 0 {
        Seq::empty()
    } else {
        article_block(arts[0]) + rendered_articles(arts.drop_first())
    }
}

/// The whole rendering of a response: the headline header, then one
/// block per article; a response without articles renders the header
/// alone.
pub open spec fn rendered_response(rv: ResponseView) -> Seq<char> {
    "Major headlines\n"@ + rendered_articles(rv.articles)
}

proof fn lemma_rendered_concat(a: Seq<ArticleView>, b: Seq<ArticleView>)
    ensures
        rendered_articles(a + b) == rendered_articles(a) + rendered_articles(b),
    decreases a.len(),
{
    if a.len() == 0 {
        assert(a + b =~= b);
        assert(rendered_articles(a) + rendered_articles(b) =~= rendered_articles(b));
    } else {
        assert((a + b).drop_first() =~= a.drop_first() + b);
        lemma_rendered_concat(a.drop_first(), b);
        assert((a + b)[0] == a[0]);
        assert(article_block(a[0]) + (rendered_articles(a.drop_first()) + rendered_articles(b))
            =~= (article_block(a[0]) + rendered_articles(a.drop_first())) + rendered_articles(b));
    }
}

proof fn lemma_rendered_snoc(s: Seq<ArticleView>, x: ArticleView)
    ensures
        rendered_articles(s.push(x)) == rendered_articles(s) + article_block(x),
{
    lemma_rendered_concat(s, seq![x]);
    assert(s.push(x) =~= s + seq![x]);
    assert(seq![x].drop_first() =~= Seq::<ArticleView>::empty());
    assert(rendered_articles(seq![x]) == article_block(x) + rendered_articles(
        Seq::<ArticleView>::empty(),
    ));
    assert(article_block(x) + Seq::<char>::empty() =~= article_block(x));
    assert(rendered_articles(s) + rendered_articles(seq![x]) =~= rendered_articles(s)
        + article_block(x));
}

impl Article {
    /// The formatted block of this article.
    pub fn block_text(&self) -> (r: String)
        ensures
            r@ == article_block(self@),
    {
        let mut out: String = "\n> ".to_owned();
        out.append(self.title().as_str());
        out.append("\n--------------------------------------------------------------------------------------------------------\n");
        out.append("\t");
        out.append(self.url().as_str());
        out.append("\n\n");
        out
    }
}

/// Relies on termimad::print_text: renders the given markdown text to
/// the terminal with the default skin.
#[verifier::external_body]
fn print_markdown(text: &str) {
    termimad::print_text(text);
}

impl NewsApiResponse {
    /// The full text this response displays: the header, then each
    /// article's block in response order.
    pub fn render_text(&self) -> (r: String)
        ensures
            r@ == rendered_response(self@),
    {
        let mut out: String = "Major headlines\n".to_owned();
        let articles = self.articles();
        let n = articles.len();
        let mut i: usize = 0;
        while i < n
            invariant
                n == self@.articles.len(),
                n == articles@.len(),
                forall|k: int| 0 <= k < n ==> articles@[k]@ == self@.articles[k],
                i <= n,
                out@ == "Major headlines\n"@ + rendered_articles(self@.articles.take(i as int)),
            decreases n - i,
        {
            let block = articles[i].block_text();
            out.append(block.as_str());
            proof {
                assert(self@.articles.take(i + 1) =~= self@.articles.take(i as int).push(
                    self@.articles[i as int],
                ));
                lemma_rendered_snoc(self@.articles.take(i as int), self@.articles[i as int]);
            }
            i += 1;
        }
        proof {
            assert(self@.articles.take(n as int) =~= self@.articles);
        }
        out
    }

    /// Writes the headline header and one styled block per article to
    /// the terminal, in response order.
    pub fn write_to_terminal(&self) {
        let text = self.render_text();
        print_markdown(text.as_str());
    }
}

} // verus!
