//! The output record of the pipeline: one `Article` per page element.

use vstd::prelude::*;

verus! {

/// Mathematical view of an [`Article`].
#[verifier::ext_equal]
pub struct ArticleModel {
    pub title: Seq<char>,
    pub body: Seq<char>,
    pub links: Seq<Seq<char>>,
}

/// The article a page start event allocates: everything empty.
pub open spec fn empty_article() -> ArticleModel {
    ArticleModel { title: Seq::empty(), body: Seq::empty(), links: Seq::empty() }
}

/// One record per page element of the dump.
///
/// `title` and `body` hold the concatenated character data of the page's
/// `title` and `text` elements; `links` holds the internal link targets
/// found in the body, in order of first appearance, duplicates preserved.
#[derive(Debug)]
pub struct Article {
    pub title: String,
    pub body: String,
    pub links: Vec<String>,
}

impl View for Article {
    type V = ArticleModel;

    open spec fn view(&self) -> ArticleModel {
        ArticleModel { title: self.title@, body: self.body@, links: self.links.deep_view() }
    }
}

impl DeepView for Article {
    type V = ArticleModel;

    open spec fn deep_view(&self) -> ArticleModel {
        self.view()
    }
}

impl Article {
    /// A fresh article with empty title, body and links.
    pub fn new() -> (r: Article)
        ensures
            r@ == empty_article(),
    {
        let r = Article { title: String::new(), body: String::new(), links: Vec::new() };
        proof {
            assert(r@ =~~= empty_article());
        }
        r
    }
}

} // verus!
