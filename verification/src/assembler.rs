//! The page assembler: a state machine that folds a flat stream of XML
//! events into discrete [`Article`] emissions.
//!
//! Element names are compared case-sensitively on the local name only.
//! Events the current state does not recognize — including malformed
//! tokenizer events — are ignored: the policy is "ignore unknown, never
//! abort". A page left open when the stream ends is discarded.

use crate::article::{empty_article, Article, ArticleModel};
use crate::links::{extract_link_targets, fragment_links};
use vstd::prelude::*;
use vstd::string::{StrSliceExecFns, StringExecFns};

verus! {

broadcast use vstd::seq_lib::group_seq_properties, vstd::string::group_string_axioms;


/// The assembler's mode: where in the document the cursor stands.
#[derive(Clone, Copy, PartialEq, Eq, Structural, Debug)]
pub enum State {
    WaitingForPage,
    InPage,
    InTitle,
    InText,
}

/// Mathematical view of an [`Event`].
pub enum EventModel {
    StartElement { local_name: Seq<char> },
    EndElement { local_name: Seq<char> },
    Characters { text: Seq<char> },
    Other,
    TokenizerError,
}

/// One XML event, as the external tokenizer reports it. Only the local name
/// of a qualified element name is carried; namespace prefixes and attributes
/// are not significant here. `Other` stands for every event kind the
/// assembler does not act on, `TokenizerError` for a malformed-input report.
#[derive(Debug)]
pub enum Event {
    StartElement { local_name: String },
    EndElement { local_name: String },
    Characters { text: String },
    Other,
    TokenizerError,
}

impl DeepView for Event {
    type V = EventModel;

    open spec fn deep_view(&self) -> EventModel {
        self.view()
    }
}

impl View for Event {
    type V = EventModel;

    open spec fn view(&self) -> EventModel {
        match self {
            Event::StartElement { local_name } => EventModel::StartElement {
                local_name: local_name@,
            },
            Event::EndElement { local_name } => EventModel::EndElement { local_name: local_name@ },
            Event::Characters { text } => EventModel::Characters { text: text@ },
            Event::Other => EventModel::Other,
            Event::TokenizerError => EventModel::TokenizerError,
        }
    }
}

/// One transition of the assembler: from the current mode, the current
/// article and one event to the next mode, the next article and the article
/// emitted by this event, if any.
pub open spec fn step_spec(state: State, ev: EventModel, a: ArticleModel) -> (
    State,
    ArticleModel,
    Option<ArticleModel>,
) {
    match state {
        State::WaitingForPage => match ev {
            EventModel::StartElement { local_name } => if local_name == "page"@ {
                (State::InPage, empty_article(), None)
            } else {
                (state, a, None)
            },
            _ => (state, a, None),
        },
        State::InPage => match ev {
            EventModel::EndElement { local_name } => if local_name == "page"@ {
                (State::WaitingForPage, empty_article(), Some(a))
            } else {
                (state, a, None)
            },
            EventModel::StartElement { local_name } => if local_name == "title"@ {
                (State::InTitle, a, None)
            } else if local_name == "text"@ {
                (State::InText, a, None)
            } else {
                (state, a, None)
            },
            _ => (state, a, None),
        },
        State::InTitle => match ev {
            EventModel::EndElement { local_name } => if local_name == "title"@ {
                (State::InPage, a, None)
            } else {
                (state, a, None)
            },
            EventModel::Characters { text } => (
                state,
                ArticleModel { title: a.title + text, ..a },
                None,
            ),
            _ => (state, a, None),
        },
        State::InText => match ev {
            EventModel::EndElement { local_name } => if local_name == "text"@ {
                (State::InPage, a, None)
            } else {
                (state, a, None)
            },
            EventModel::Characters { text } => (
                state,
                ArticleModel { body: a.body + text, links: a.links + fragment_links(text), ..a },
                None,
            ),
            _ => (state, a, None),
        },
    }
}

/// View of an emitted article.
pub open spec fn emitted_view(o: Option<Article>) -> Option<ArticleModel> {
    match o {
        Some(a) => Some(a@),
        None => None,
    }
}

/// Moves every string of `src`, in order, to the end of `dst`.
fn push_all(dst: &mut Vec<String>, src: Vec<String>)
    ensures
        final(dst).deep_view() == old(dst).deep_view() + src.deep_view(),
{
    let ghost dst0 = old(dst).deep_view();
    let ghost src0 = src.deep_view();
    let mut src = src;
    proof {
        assert(dst0 + src0 =~~= dst.deep_view() + src.deep_view());
    }
    while src.len() > 0
        invariant
            dst0 + src0 == dst.deep_view() + src.deep_view(),
        decreases src@.len(),
    {
        let ghost old_src = src.deep_view();
        let ghost old_dst = dst.deep_view();
        let s = src.remove(0);
        dst.push(s);
        proof {
            assert(src.deep_view() =~~= old_src.drop_first());
            assert(dst.deep_view() =~~= old_dst.push(old_src.first()));
            assert(dst0 + src0 =~~= dst.deep_view() + src.deep_view());
        }
    }
    proof {
        assert(src.deep_view() =~~= Seq::<Seq<char>>::empty());
        assert(final(dst).deep_view() =~~= dst0 + src0);
    }
}

/// Performs one transition of the assembler on one event: the pure,
/// executable counterpart of [`step_spec`].
pub fn step(state: State, article: Article, event: &Event) -> (r: (
    State,
    Article,
    Option<Article>,
))
    ensures
        r.0 == step_spec(state, event@, article@).0,
        r.1@ == step_spec(state, event@, article@).1,
        emitted_view(r.2) == step_spec(state, event@, article@).2,
{
    let mut article = article;
    match state {
        State::WaitingForPage => match event {
            Event::StartElement { local_name } => {
                let page = String::from_str("page");
                if *local_name == page {
                    (State::InPage, Article::new(), None)
                } else {
                    (state, article, None)
                }
            },
            _ => (state, article, None),
        },
        State::InPage => match event {
            Event::EndElement { local_name } => {
                let page = String::from_str("page");
                if *local_name == page {
                    (State::WaitingForPage, Article::new(), Some(article))
                } else {
                    (state, article, None)
                }
            },
            Event::StartElement { local_name } => {
                let title = String::from_str("title");
                let text = String::from_str("text");
                if *local_name == title {
                    (State::InTitle, article, None)
                } else if *local_name == text {
                    (State::InText, article, None)
                } else {
                    (state, article, None)
                }
            },
            _ => (state, article, None),
        },
        State::InTitle => match event {
            Event::EndElement { local_name } => {
                let title = String::from_str("title");
                if *local_name == title {
                    (State::InPage, article, None)
                } else {
                    (state, article, None)
                }
            },
            Event::Characters { text } => {
                article.title.append(text.as_str());
                (state, article, None)
            },
            _ => (state, article, None),
        },
        State::InText => match event {
            Event::EndElement { local_name } => {
                let text_name = String::from_str("text");
                if *local_name == text_name {
                    (State::InPage, article, None)
                } else {
                    (state, article, None)
                }
            },
            Event::Characters { text } => {
                article.body.append(text.as_str());
                let targets = extract_link_targets(text.as_str());
                push_all(&mut article.links, targets);
                (state, article, None)
            },
            _ => (state, article, None),
        },
    }
}

/// An emitted article as a sequence: one element when the step emits.
pub open spec fn emitted_seq(o: Option<ArticleModel>) -> Seq<ArticleModel> {
    match o {
        Some(a) => seq![a],
        None => Seq::empty(),
    }
}

/// Folds a whole event sequence from a given mode and in-flight article:
/// the final mode, the final in-flight article, and every emitted article,
/// in order.
pub open spec fn run_spec(state: State, a: ArticleModel, events: Seq<EventModel>) -> (
    State,
    ArticleModel,
    Seq<ArticleModel>,
)
    decreases events.len(),
{
    if events.len() == 0 {
        (state, a, Seq::empty())
    } else {
        let first = step_spec(state, events.first(), a);
        let rest = run_spec(first.0, first.1, events.drop_first());
        (rest.0, rest.1, emitted_seq(first.2) + rest.2)
    }
}

/// Runs the assembler over a finite event sequence from the initial mode and
/// an empty article, returning every emitted article in order. An article
/// still open when the events end is discarded, as the stream simply stopped.
pub fn assemble(events: &Vec<Event>) -> (r: Vec<Article>)
    ensures
        r.deep_view() == run_spec(State::WaitingForPage, empty_article(), events.deep_view()).2,
{
    let ghost all = events.deep_view();
    let mut state = State::WaitingForPage;
    let mut article = Article::new();
    let mut out: Vec<Article> = Vec::new();
    let mut i: usize = 0;
    proof {
        assert(all.skip(0) =~= all);
        assert(out.deep_view() + run_spec(state, article@, all.skip(0)).2 =~= run_spec(
            State::WaitingForPage,
            empty_article(),
            all,
        ).2);
    }
    while i < events.len()
        invariant
            i <= events@.len(),
            all == events.deep_view(),
            run_spec(State::WaitingForPage, empty_article(), all).2 == out.deep_view() + run_spec(
                state,
                article@,
                all.skip(i as int),
            ).2,
        decreases events@.len() - i,
    {
        let ghost old_out = out.deep_view();
        let ghost s_old = state;
        let ghost a_old = article@;
        let ghost remaining = all.skip(i as int);
        proof {
            assert(remaining.first() == all[i as int]);
            assert(all[i as int] == events@[i as int]@);
            assert(remaining.drop_first() =~= all.skip(i as int + 1));
        }
        let stepped = step(state, article, &events[i]);
        state = stepped.0;
        article = stepped.1;
        proof {
            assert(run_spec(s_old, a_old, remaining).2 == emitted_seq(
                step_spec(s_old, remaining.first(), a_old).2,
            ) + run_spec(state, article@, all.skip(i as int + 1)).2);
        }
        match stepped.2 {
            Some(a) => {
                proof {
                    assert(emitted_seq(step_spec(s_old, remaining.first(), a_old).2) == seq![a@]);
                }
                out.push(a);
                proof {
                    assert(out.deep_view() =~~= old_out.push(a@));
                    assert(old_out + run_spec(s_old, a_old, remaining).2 =~~= out.deep_view()
                        + run_spec(state, article@, all.skip(i as int + 1)).2);
                }
            },
            None => {
                proof {
                    assert(old_out + run_spec(s_old, a_old, remaining).2 =~~= out.deep_view()
                        + run_spec(state, article@, all.skip(i as int + 1)).2);
                }
            },
        }
        i = i + 1;
    }
    proof {
        assert(all.skip(all.len() as int) =~= Seq::<EventModel>::empty());
        assert(run_spec(State::WaitingForPage, empty_article(), all).2 =~~= out.deep_view());
    }
    out
}

/// Ghost description of one well-formed page record: the character-data
/// fragments its title element delivers, and those its text element
/// delivers, each in document order.
pub struct PageInput {
    pub title_frags: Seq<Seq<char>>,
    pub text_frags: Seq<Seq<char>>,
}

/// One character-data event per fragment, in order.
pub open spec fn chars_events(frags: Seq<Seq<char>>) -> Seq<EventModel> {
    frags.map_values(|f: Seq<char>| EventModel::Characters { text: f })
}

/// The concatenation of the fragments, in order.
pub open spec fn concat_frags(frags: Seq<Seq<char>>) -> Seq<char>
    decreases frags.len(),
{
    if frags.len() == 0 {
        Seq::empty()
    } else {
        frags.first() + concat_frags(frags.drop_first())
    }
}

/// The link targets of the fragments, fragment by fragment, in order.
pub open spec fn frags_links(frags: Seq<Seq<char>>) -> Seq<Seq<char>>
    decreases frags.len(),
{
    if frags.len() == 0 {
        Seq::empty()
    } else {
        fragment_links(frags.first()) + frags_links(frags.drop_first())
    }
}

/// The events of one well-formed page, except for the closing page tag.
pub open spec fn open_page_events(p: PageInput) -> Seq<EventModel> {
    seq![EventModel::StartElement { local_name: "page"@ }] + seq![
        EventModel::StartElement { local_name: "title"@ },
    ] + chars_events(p.title_frags) + seq![EventModel::EndElement { local_name: "title"@ }]
        + seq![EventModel::StartElement { local_name: "text"@ }] + chars_events(p.text_frags)
        + seq![EventModel::EndElement { local_name: "text"@ }]
}

/// The events of one well-formed page/title/text triple.
pub open spec fn page_events(p: PageInput) -> Seq<EventModel> {
    open_page_events(p) + seq![EventModel::EndElement { local_name: "page"@ }]
}

/// The events of a document of well-formed pages, in order.
pub open spec fn pages_events(ps: Seq<PageInput>) -> Seq<EventModel>
    decreases ps.len(),
{
    if ps.len() == 0 {
        Seq::empty()
    } else {
        page_events(ps.first()) + pages_events(ps.drop_first())
    }
}

/// The article a well-formed page yields.
pub open spec fn article_of(p: PageInput) -> ArticleModel {
    ArticleModel {
        title: concat_frags(p.title_frags),
        body: concat_frags(p.text_frags),
        links: frags_links(p.text_frags),
    }
}

/// The articles a document of well-formed pages yields, in order.
pub open spec fn articles_of(ps: Seq<PageInput>) -> Seq<ArticleModel> {
    ps.map_values(|p: PageInput| article_of(p))
}

/// Running a fold over a concatenation runs it over the parts in turn.
proof fn lemma_run_append(s: State, a: ArticleModel, e1: Seq<EventModel>, e2: Seq<EventModel>)
    ensures
        run_spec(s, a, e1 + e2).0 == run_spec(run_spec(s, a, e1).0, run_spec(s, a, e1).1, e2).0,
        run_spec(s, a, e1 + e2).1 == run_spec(run_spec(s, a, e1).0, run_spec(s, a, e1).1, e2).1,
        run_spec(s, a, e1 + e2).2 == run_spec(s, a, e1).2 + run_spec(
            run_spec(s, a, e1).0,
            run_spec(s, a, e1).1,
            e2,
        ).2,
    decreases e1.len(),
{
    let r1 = run_spec(s, a, e1);
    let r2 = run_spec(r1.0, r1.1, e2);
    if e1.len() == 0 {
        assert(e1 + e2 =~= e2);
        assert(r1.2 + r2.2 =~= r2.2);
    } else {
        let first = step_spec(s, e1.first(), a);
        assert((e1 + e2).first() == e1.first());
        assert((e1 + e2).drop_first() =~= e1.drop_first() + e2);
        lemma_run_append(first.0, first.1, e1.drop_first(), e2);
        let r1d = run_spec(first.0, first.1, e1.drop_first());
        let r2d = run_spec(r1d.0, r1d.1, e2);
        assert(emitted_seq(first.2) + (r1d.2 + r2d.2) =~= (emitted_seq(first.2) + r1d.2) + r2d.2);
    }
}

/// Running a fold over a single event is one transition.
proof fn lemma_run_one(s: State, a: ArticleModel, ev: EventModel)
    ensures
        run_spec(s, a, seq![ev]).0 == step_spec(s, ev, a).0,
        run_spec(s, a, seq![ev]).1 == step_spec(s, ev, a).1,
        run_spec(s, a, seq![ev]).2 == emitted_seq(step_spec(s, ev, a).2),
{
    reveal_with_fuel(run_spec, 2);
    let st = step_spec(s, ev, a);
    assert(seq![ev].first() == ev);
    assert(seq![ev].drop_first() =~= Seq::<EventModel>::empty());
    assert(emitted_seq(st.2) + Seq::<ArticleModel>::empty() =~= emitted_seq(st.2));
}

/// Character data inside the title element accumulates onto the title, in
/// order, emitting nothing and leaving the mode unchanged.
proof fn lemma_run_title_chars(a: ArticleModel, frags: Seq<Seq<char>>)
    ensures
        run_spec(State::InTitle, a, chars_events(frags)).0 == State::InTitle,
        run_spec(State::InTitle, a, chars_events(frags)).1 == (ArticleModel {
            title: a.title + concat_frags(frags),
            ..a
        }),
        run_spec(State::InTitle, a, chars_events(frags)).2 == Seq::<ArticleModel>::empty(),
    decreases frags.len(),
{
    let e = chars_events(frags);
    if frags.len() == 0 {
        assert(a =~~= (ArticleModel { title: a.title + concat_frags(frags), ..a }));
    } else {
        assert(e.first() == EventModel::Characters { text: frags.first() });
        let a1 = ArticleModel { title: a.title + frags.first(), ..a };
        assert(e.drop_first() =~= chars_events(frags.drop_first()));
        lemma_run_title_chars(a1, frags.drop_first());
        assert(a1.title + concat_frags(frags.drop_first()) =~= a.title + concat_frags(frags));
        assert(run_spec(State::InTitle, a1, e.drop_first()).1 =~~= (ArticleModel {
            title: a.title + concat_frags(frags),
            ..a
        }));
        assert(run_spec(State::InTitle, a, e).2 =~= Seq::<ArticleModel>::empty());
    }
}

/// Character data inside the text element accumulates onto the body and its
/// extracted links onto the link list, in order, emitting nothing and
/// leaving the mode unchanged.
proof fn lemma_run_text_chars(a: ArticleModel, frags: Seq<Seq<char>>)
    ensures
        run_spec(State::InText, a, chars_events(frags)).0 == State::InText,
        run_spec(State::InText, a, chars_events(frags)).1 == (ArticleModel {
            body: a.body + concat_frags(frags),
            links: a.links + frags_links(frags),
            ..a
        }),
        run_spec(State::InText, a, chars_events(frags)).2 == Seq::<ArticleModel>::empty(),
    decreases frags.len(),
{
    let e = chars_events(frags);
    if frags.len() == 0 {
        assert(a =~~= (ArticleModel {
            body: a.body + concat_frags(frags),
            links: a.links + frags_links(frags),
            ..a
        }));
    } else {
        assert(e.first() == EventModel::Characters { text: frags.first() });
        let a1 = ArticleModel {
            body: a.body + frags.first(),
            links: a.links + fragment_links(frags.first()),
            ..a
        };
        assert(e.drop_first() =~= chars_events(frags.drop_first()));
        lemma_run_text_chars(a1, frags.drop_first());
        assert(a1.body + concat_frags(frags.drop_first()) =~= a.body + concat_frags(frags));
        assert(a1.links + frags_links(frags.drop_first()) =~= a.links + frags_links(frags));
        assert(run_spec(State::InText, a1, e.drop_first()).1 =~~= (ArticleModel {
            body: a.body + concat_frags(frags),
            links: a.links + frags_links(frags),
            ..a
        }));
        assert(run_spec(State::InText, a, e).2 =~= Seq::<ArticleModel>::empty());
    }
}

/// The three element names the assembler acts on are pairwise distinct.
proof fn lemma_element_names_distinct()
    ensures
        "page"@ != "title"@,
        "page"@ != "text"@,
        "title"@ != "text"@,
{
    reveal_strlit("page");
    reveal_strlit("title");
    reveal_strlit("text");
    assert("page"@.len() == 4);
    assert("title"@.len() == 5);
    assert("text"@.len() == 4);
    assert("page"@[0] == 'p');
    assert("text"@[0] == 't');
}

/// Walking one page up to — not including — its closing tag leaves the
/// assembler inside the page, holding that page's article, with nothing
/// emitted yet.
proof fn lemma_run_open_page(a: ArticleModel, p: PageInput)
    ensures
        run_spec(State::WaitingForPage, a, open_page_events(p)).0 == State::InPage,
        run_spec(State::WaitingForPage, a, open_page_events(p)).1 == article_of(p),
        run_spec(State::WaitingForPage, a, open_page_events(p)).2 == Seq::<ArticleModel>::empty(),
{
    lemma_element_names_distinct();
    let sp = seq![EventModel::StartElement { local_name: "page"@ }];
    let st = seq![EventModel::StartElement { local_name: "title"@ }];
    let ct = chars_events(p.title_frags);
    let et = seq![EventModel::EndElement { local_name: "title"@ }];
    let sx = seq![EventModel::StartElement { local_name: "text"@ }];
    let cx = chars_events(p.text_frags);
    let ex = seq![EventModel::EndElement { local_name: "text"@ }];
    let a0 = empty_article();
    lemma_run_one(State::WaitingForPage, a, sp.first());
    assert(run_spec(State::WaitingForPage, a, sp).1 == a0);
    lemma_run_append(State::WaitingForPage, a, sp, st);
    lemma_run_one(State::InPage, a0, st.first());
    let a3 = ArticleModel { title: concat_frags(p.title_frags), body: a0.body, links: a0.links };
    lemma_run_append(State::WaitingForPage, a, sp + st, ct);
    lemma_run_title_chars(a0, p.title_frags);
    assert(run_spec(State::InTitle, a0, ct).1 =~~= a3);
    lemma_run_append(State::WaitingForPage, a, sp + st + ct, et);
    lemma_run_one(State::InTitle, a3, et.first());
    lemma_run_append(State::WaitingForPage, a, sp + st + ct + et, sx);
    lemma_run_one(State::InPage, a3, sx.first());
    lemma_run_append(State::WaitingForPage, a, sp + st + ct + et + sx, cx);
    lemma_run_text_chars(a3, p.text_frags);
    assert(run_spec(State::InText, a3, cx).1 =~~= article_of(p));
    lemma_run_append(State::WaitingForPage, a, sp + st + ct + et + sx + cx, ex);
    lemma_run_one(State::InText, article_of(p), ex.first());
    assert(run_spec(State::WaitingForPage, a, open_page_events(p)).2 =~= Seq::<
        ArticleModel,
    >::empty());
}

/// Walking one whole page from the waiting mode emits exactly that page's
/// article and returns to the waiting mode with a fresh empty article.
proof fn lemma_run_page(a: ArticleModel, p: PageInput)
    ensures
        run_spec(State::WaitingForPage, a, page_events(p)).0 == State::WaitingForPage,
        run_spec(State::WaitingForPage, a, page_events(p)).1 == empty_article(),
        run_spec(State::WaitingForPage, a, page_events(p)).2 == seq![article_of(p)],
{
    let ep = seq![EventModel::EndElement { local_name: "page"@ }];
    lemma_run_open_page(a, p);
    lemma_run_append(State::WaitingForPage, a, open_page_events(p), ep);
    lemma_run_one(State::InPage, article_of(p), ep.first());
    assert(run_spec(State::WaitingForPage, a, page_events(p)).2 =~= seq![article_of(p)]);
}

/// The page assembler, run over the events of any sequence of well-formed
/// page/title/text triples, emits exactly one article per page, in document
/// order: each article's title is the concatenation of its page's title
/// fragments, its body the concatenation of its text fragments, and its
/// links the targets extracted from those text fragments, fragment by
/// fragment, in order.
pub proof fn lemma_assembler_emits_pages(ps: Seq<PageInput>)
    ensures
        run_spec(State::WaitingForPage, empty_article(), pages_events(ps)).2 == articles_of(ps),
        run_spec(State::WaitingForPage, empty_article(), pages_events(ps)).2.len() == ps.len(),
        run_spec(State::WaitingForPage, empty_article(), pages_events(ps)).0
            == State::WaitingForPage,
        run_spec(State::WaitingForPage, empty_article(), pages_events(ps)).1 == empty_article(),
    decreases ps.len(),
{
    if ps.len() == 0 {
        assert(articles_of(ps) =~= Seq::<ArticleModel>::empty());
    } else {
        lemma_run_page(empty_article(), ps.first());
        lemma_run_append(
            State::WaitingForPage,
            empty_article(),
            page_events(ps.first()),
            pages_events(ps.drop_first()),
        );
        lemma_assembler_emits_pages(ps.drop_first());
        assert(seq![article_of(ps.first())] + articles_of(ps.drop_first()) =~= articles_of(ps));
    }
}

/// No prefix of `e`, run from mode `s` with in-flight article `a`, emits an
/// article.
pub open spec fn silent(s: State, a: ArticleModel, e: Seq<EventModel>) -> bool {
    forall|k: int|
        0 <= k <= e.len() ==> (#[trigger] run_spec(s, a, e.take(k))).2 == Seq::<
            ArticleModel,
        >::empty()
}

proof fn lemma_silent_one(s: State, a: ArticleModel, ev: EventModel)
    requires
        step_spec(s, ev, a).2 is None,
    ensures
        silent(s, a, seq![ev]),
{
    assert forall|k: int| 0 <= k <= seq![ev].len() implies (#[trigger] run_spec(
        s,
        a,
        seq![ev].take(k),
    )).2 == Seq::<ArticleModel>::empty() by {
        if k == 0 {
            assert(seq![ev].take(0) =~= Seq::<EventModel>::empty());
        } else {
            assert(seq![ev].take(1) =~= seq![ev]);
            lemma_run_one(s, a, ev);
        }
    }
}

proof fn lemma_silent_append(s: State, a: ArticleModel, e1: Seq<EventModel>, e2: Seq<EventModel>)
    requires
        silent(s, a, e1),
        silent(run_spec(s, a, e1).0, run_spec(s, a, e1).1, e2),
    ensures
        silent(s, a, e1 + e2),
{
    let r1 = run_spec(s, a, e1);
    assert(e1.take(e1.len() as int) =~= e1);
    assert forall|k: int| 0 <= k <= (e1 + e2).len() implies (#[trigger] run_spec(
        s,
        a,
        (e1 + e2).take(k),
    )).2 == Seq::<ArticleModel>::empty() by {
        if k <= e1.len() {
            assert((e1 + e2).take(k) =~= e1.take(k));
            assert(run_spec(s, a, e1.take(k)).2 == Seq::<ArticleModel>::empty());
        } else {
            let k2 = k - e1.len();
            assert((e1 + e2).take(k) =~= e1 + e2.take(k2));
            lemma_run_append(s, a, e1, e2.take(k2));
            assert(run_spec(s, a, e1).2 == Seq::<ArticleModel>::empty());
            assert(run_spec(r1.0, r1.1, e2.take(k2)).2 == Seq::<ArticleModel>::empty());
            assert(run_spec(s, a, e1).2 + run_spec(r1.0, r1.1, e2.take(k2)).2 =~= Seq::<
                ArticleModel,
            >::empty());
        }
    }
}

proof fn lemma_silent_chars(s: State, a: ArticleModel, frags: Seq<Seq<char>>)
    requires
        s == State::InTitle || s == State::InText,
    ensures
        silent(s, a, chars_events(frags)),
{
    assert forall|k: int| 0 <= k <= chars_events(frags).len() implies (#[trigger] run_spec(
        s,
        a,
        chars_events(frags).take(k),
    )).2 == Seq::<ArticleModel>::empty() by {
        assert(chars_events(frags).take(k) =~= chars_events(frags.take(k)));
        if s == State::InTitle {
            lemma_run_title_chars(a, frags.take(k));
        } else {
            lemma_run_text_chars(a, frags.take(k));
        }
    }
}

/// Up to its closing tag, a well-formed page emits nothing, wherever the
/// stream stops.
proof fn lemma_silent_open_page(a: ArticleModel, p: PageInput)
    ensures
        silent(State::WaitingForPage, a, open_page_events(p)),
{
    lemma_element_names_distinct();
    let sp = seq![EventModel::StartElement { local_name: "page"@ }];
    let st = seq![EventModel::StartElement { local_name: "title"@ }];
    let ct = chars_events(p.title_frags);
    let et = seq![EventModel::EndElement { local_name: "title"@ }];
    let sx = seq![EventModel::StartElement { local_name: "text"@ }];
    let cx = chars_events(p.text_frags);
    let ex = seq![EventModel::EndElement { local_name: "text"@ }];
    let a0 = empty_article();
    let a3 = ArticleModel { title: concat_frags(p.title_frags), body: a0.body, links: a0.links };
    lemma_run_open_page(a, p);
    lemma_run_one(State::WaitingForPage, a, sp.first());
    lemma_silent_one(State::WaitingForPage, a, sp.first());
    lemma_run_append(State::WaitingForPage, a, sp, st);
    lemma_run_one(State::InPage, a0, st.first());
    lemma_silent_one(State::InPage, a0, st.first());
    lemma_silent_append(State::WaitingForPage, a, sp, st);
    lemma_run_append(State::WaitingForPage, a, sp + st, ct);
    lemma_run_title_chars(a0, p.title_frags);
    assert(run_spec(State::InTitle, a0, ct).1 =~~= a3);
    lemma_silent_chars(State::InTitle, a0, p.title_frags);
    lemma_silent_append(State::WaitingForPage, a, sp + st, ct);
    lemma_run_append(State::WaitingForPage, a, sp + st + ct, et);
    lemma_run_one(State::InTitle, a3, et.first());
    lemma_silent_one(State::InTitle, a3, et.first());
    lemma_silent_append(State::WaitingForPage, a, sp + st + ct, et);
    lemma_run_append(State::WaitingForPage, a, sp + st + ct + et, sx);
    lemma_run_one(State::InPage, a3, sx.first());
    lemma_silent_one(State::InPage, a3, sx.first());
    lemma_silent_append(State::WaitingForPage, a, sp + st + ct + et, sx);
    lemma_run_append(State::WaitingForPage, a, sp + st + ct + et + sx, cx);
    lemma_run_text_chars(a3, p.text_frags);
    assert(run_spec(State::InText, a3, cx).1 =~~= article_of(p));
    lemma_silent_chars(State::InText, a3, p.text_frags);
    lemma_silent_append(State::WaitingForPage, a, sp + st + ct + et + sx, cx);
    lemma_run_append(State::WaitingForPage, a, sp + st + ct + et + sx + cx, ex);
    lemma_run_one(State::InText, article_of(p), ex.first());
    lemma_silent_one(State::InText, article_of(p), ex.first());
    lemma_silent_append(State::WaitingForPage, a, sp + st + ct + et + sx + cx, ex);
}

/// A stream that ends in the middle of a final page — after any proper
/// prefix of that page's events — emits exactly the articles of the
/// completed pages before it: the unterminated page is discarded.
pub proof fn lemma_unterminated_page_discarded(ps: Seq<PageInput>, p: PageInput, k: int)
    requires
        0 <= k < page_events(p).len(),
    ensures
        run_spec(
            State::WaitingForPage,
            empty_article(),
            pages_events(ps) + page_events(p).take(k),
        ).2 == articles_of(ps),
        run_spec(
            State::WaitingForPage,
            empty_article(),
            pages_events(ps) + page_events(p).take(k),
        ).2.len() == ps.len(),
{
    lemma_assembler_emits_pages(ps);
    lemma_run_append(
        State::WaitingForPage,
        empty_article(),
        pages_events(ps),
        page_events(p).take(k),
    );
    assert(page_events(p).take(k) =~= open_page_events(p).take(k));
    lemma_silent_open_page(empty_article(), p);
    assert(run_spec(State::WaitingForPage, empty_article(), open_page_events(p).take(k)).2
        == Seq::<ArticleModel>::empty());
    assert(articles_of(ps) + Seq::<ArticleModel>::empty() =~= articles_of(ps));
}

} // verus!
