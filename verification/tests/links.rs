use wikidump::links::{extract_link_targets, extract_links, match_link, next_link, not_a_delim};

#[test]
fn parses_links() {
    let input: Vec<u8> = b"[[File:Tizi Ouzou Tasdawit.jpg|thumb|Signs in the [[University of Tizi Ouzou]] in three languages: [[Arabic]], [[Berber languages|Berber]], and French]]".to_vec();
    let (val, next) = match_link(&input, 0).unwrap();
    let expected = b"File:Tizi Ouzou Tasdawit.jpg";
    let expected_rest = b"thumb|Signs in the [[University of Tizi Ouzou]] in three languages: [[Arabic]], [[Berber languages|Berber]], and French]]";

    assert_eq!(val[..], expected[..]);
    assert_eq!(input[next..], expected_rest[..]);

    let val = extract_links(&input);
    let expected = vec![
        "File:Tizi Ouzou Tasdawit.jpg",
        "University of Tizi Ouzou",
        "Arabic",
        "Berber languages",
    ];
    let expected: Vec<&[u8]> = expected.iter().map(|v| v.as_bytes()).collect();
    let val: Vec<&[u8]> = val.iter().map(|v| &v[..]).collect();

    assert_eq!(val[..], expected[..]);
}

#[test]
fn extracts_targets_as_strings() {
    let input = "[[File:Tizi Ouzou Tasdawit.jpg|thumb|Signs in the [[University of Tizi Ouzou]] in three languages: [[Arabic]], [[Berber languages|Berber]], and French]]";
    let targets = extract_link_targets(input);
    assert_eq!(
        targets,
        vec![
            "File:Tizi Ouzou Tasdawit.jpg".to_string(),
            "University of Tizi Ouzou".to_string(),
            "Arabic".to_string(),
            "Berber languages".to_string(),
        ]
    );
}

#[test]
fn no_marker_yields_nothing() {
    assert_eq!(extract_link_targets("no links here"), Vec::<String>::new());
    assert_eq!(extract_link_targets(""), Vec::<String>::new());
    assert_eq!(extract_links(&b"only ] and | bytes".to_vec()), Vec::<Vec<u8>>::new());
}

#[test]
fn extraction_is_idempotent_on_extracted_targets() {
    let input = "[[File:Tizi Ouzou Tasdawit.jpg|thumb|Signs in the [[University of Tizi Ouzou]] in three languages: [[Arabic]], [[Berber languages|Berber]], and French]]";
    for target in extract_link_targets(input) {
        assert_eq!(extract_link_targets(&target), Vec::<String>::new());
    }
}

#[test]
fn empty_target_is_kept() {
    assert_eq!(extract_link_targets("[[|description]]"), vec!["".to_string()]);
    assert_eq!(extract_link_targets("[[]]"), vec!["".to_string()]);
}

#[test]
fn pipe_closes_a_link() {
    assert_eq!(extract_link_targets("see [[a|b]] end"), vec!["a".to_string()]);
}

#[test]
fn unterminated_marker_yields_nothing() {
    assert_eq!(extract_link_targets("tail [[abc"), Vec::<String>::new());
    assert_eq!(extract_link_targets("tail [["), Vec::<String>::new());
}

#[test]
fn scanning_stops_at_a_malformed_link() {
    // the first marker's run ends at a lone `]`, so no link parses there and
    // the scan does not go on to the later, well-formed one
    assert_eq!(extract_link_targets("[[a]b [[c]]"), Vec::<String>::new());
}

#[test]
fn multibyte_target_decodes() {
    assert_eq!(extract_link_targets("[[Caf\u{e9}]]"), vec!["Caf\u{e9}".to_string()]);
}

#[test]
fn match_link_needs_marker_at_position() {
    let input: Vec<u8> = b"x[[a]]".to_vec();
    assert!(match_link(&input, 0).is_none());
    let (val, next) = match_link(&input, 1).unwrap();
    assert_eq!(val, b"a".to_vec());
    assert_eq!(next, 6);
}

#[test]
fn next_link_searches_forward() {
    let input: Vec<u8> = b"x[[a]]y".to_vec();
    let (val, next) = next_link(&input, 0).unwrap();
    assert_eq!(val, b"a".to_vec());
    assert_eq!(next, 6);
    assert!(next_link(&input, next).is_none());
}

#[test]
fn delimiters_are_pipe_and_bracket() {
    assert!(!not_a_delim(b'|'));
    assert!(!not_a_delim(b']'));
    assert!(not_a_delim(b'['));
    assert!(not_a_delim(b'a'));
}
