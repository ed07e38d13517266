use wikidump::assembler::{assemble, step, Event, State};

fn start(name: &str) -> Event {
    Event::StartElement { local_name: name.to_string() }
}

fn end(name: &str) -> Event {
    Event::EndElement { local_name: name.to_string() }
}

fn chars(text: &str) -> Event {
    Event::Characters { text: text.to_string() }
}

fn page(title_frags: &[&str], text_frags: &[&str]) -> Vec<Event> {
    let mut events = vec![start("page"), start("title")];
    for f in title_frags {
        events.push(chars(f));
    }
    events.push(end("title"));
    events.push(start("text"));
    for f in text_frags {
        events.push(chars(f));
    }
    events.push(end("text"));
    events.push(end("page"));
    events
}

#[test]
fn single_page_without_links() {
    let events = page(&["Foo"], &["no links here"]);
    let articles = assemble(&events);
    assert_eq!(articles.len(), 1);
    assert_eq!(articles[0].title, "Foo");
    assert_eq!(articles[0].body, "no links here");
    assert_eq!(articles[0].links, Vec::<String>::new());
}

#[test]
fn split_title_fragments_concatenate() {
    let events = page(&["Fo", "o"], &[]);
    let articles = assemble(&events);
    assert_eq!(articles.len(), 1);
    assert_eq!(articles[0].title, "Foo");
}

#[test]
fn pages_emit_in_document_order() {
    let mut events = page(&["First"], &["see [[Arabic]] and [[Berber languages|Berber]]"]);
    events.extend(page(&["Second"], &["plain text"]));
    let articles = assemble(&events);
    assert_eq!(articles.len(), 2);
    assert_eq!(articles[0].title, "First");
    assert_eq!(articles[0].links, vec!["Arabic".to_string(), "Berber languages".to_string()]);
    assert_eq!(articles[1].title, "Second");
    assert_eq!(articles[1].links, Vec::<String>::new());
}

#[test]
fn unterminated_final_page_is_discarded() {
    let mut events = page(&["Done"], &["body"]);
    events.push(start("page"));
    events.push(start("title"));
    events.push(chars("Half"));
    events.push(end("title"));
    events.push(start("text"));
    events.push(chars("cut off"));
    let articles = assemble(&events);
    assert_eq!(articles.len(), 1);
    assert_eq!(articles[0].title, "Done");
}

#[test]
fn links_accumulate_across_body_fragments() {
    let events = page(&["T"], &["first [[A]] then ", "second [[B]]"]);
    let articles = assemble(&events);
    assert_eq!(articles.len(), 1);
    assert_eq!(articles[0].body, "first [[A]] then second [[B]]");
    assert_eq!(articles[0].links, vec!["A".to_string(), "B".to_string()]);
}

#[test]
fn link_split_across_fragments_is_not_seen() {
    // a link whose marker and closing delimiter straddle two character-data
    // events is not recognized; the body still holds the whole text
    let events = page(&["T"], &["[[Ara", "bic]]"]);
    let articles = assemble(&events);
    assert_eq!(articles.len(), 1);
    assert_eq!(articles[0].body, "[[Arabic]]");
    assert_eq!(articles[0].links, Vec::<String>::new());
}

#[test]
fn metadata_elements_are_ignored() {
    let events = vec![
        start("mediawiki"),
        start("page"),
        start("revision"),
        chars("42"),
        end("revision"),
        start("title"),
        chars("T"),
        end("title"),
        start("timestamp"),
        end("timestamp"),
        start("text"),
        chars("body"),
        end("text"),
        end("page"),
        end("mediawiki"),
    ];
    let articles = assemble(&events);
    assert_eq!(articles.len(), 1);
    assert_eq!(articles[0].title, "T");
    assert_eq!(articles[0].body, "body");
}

#[test]
fn nested_page_start_is_ignored() {
    let events = vec![
        start("page"),
        start("title"),
        chars("Outer"),
        end("title"),
        start("page"),
        start("text"),
        chars("body"),
        end("text"),
        end("page"),
    ];
    let articles = assemble(&events);
    assert_eq!(articles.len(), 1);
    assert_eq!(articles[0].title, "Outer");
    assert_eq!(articles[0].body, "body");
}

#[test]
fn tokenizer_errors_and_other_events_are_ignored() {
    let events = vec![
        Event::Other,
        start("page"),
        Event::TokenizerError,
        start("title"),
        Event::Other,
        chars("T"),
        end("title"),
        start("text"),
        Event::TokenizerError,
        chars("body"),
        end("text"),
        end("page"),
        Event::TokenizerError,
    ];
    let articles = assemble(&events);
    assert_eq!(articles.len(), 1);
    assert_eq!(articles[0].title, "T");
    assert_eq!(articles[0].body, "body");
}

#[test]
fn characters_outside_a_page_are_dropped() {
    let mut events = vec![chars("stray")];
    events.extend(page(&["T"], &["b"]));
    let articles = assemble(&events);
    assert_eq!(articles.len(), 1);
    assert_eq!(articles[0].title, "T");
    assert_eq!(articles[0].body, "b");
}

#[test]
fn one_step_opens_a_page() {
    let article = wikidump::article::Article::new();
    let (state, article, emitted) = step(State::WaitingForPage, article, &start("page"));
    assert_eq!(state, State::InPage);
    assert_eq!(article.title, "");
    assert!(emitted.is_none());

    let (state, _, emitted) = step(State::WaitingForPage, wikidump::article::Article::new(), &start("pages"));
    assert_eq!(state, State::WaitingForPage);
    assert!(emitted.is_none());
}
