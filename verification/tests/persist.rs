use insight_cue::kb::{Data, Section, generate_default_data};
use insight_cue::persist::{parse_data, serialize_data};

fn assert_same(a: &Data, b: &Data) {
    assert_eq!(a.sections.len(), b.sections.len());
    for (x, y) in a.sections.iter().zip(b.sections.iter()) {
        assert_eq!(x.keywords, y.keywords);
        assert_eq!(x.keys, y.keys);
        assert_eq!(x.commands, y.commands);
    }
}

#[test]
fn seed_document_text() {
    let text = serialize_data(&generate_default_data());
    assert_eq!(
        text,
        "{\"sections\":[{\"keywords\":[\"iq\"],\"keys\":null,\"commands\":[[\"--help\",\"shows help menu\"]]}]}"
    );
}

#[test]
fn seed_round_trip() {
    let data = generate_default_data();
    let text = serialize_data(&data);
    let back = parse_data(text.as_str()).expect("the written document must parse");
    assert_same(&data, &back);
}

#[test]
fn empty_round_trip() {
    let data = Data { sections: Vec::new() };
    let text = serialize_data(&data);
    assert_eq!(text, "{\"sections\":[]}");
    let back = parse_data(text.as_str()).expect("the empty document must parse");
    assert_same(&data, &back);
}

#[test]
fn escaped_characters_round_trip() {
    let tricky = Section {
        keywords: vec![String::from("say \"hi\""), String::from("back\\slash")],
        keys: Some(vec![(String::from("k\"1"), String::from("a \\ b"))]),
        commands: Some(Vec::new()),
    };
    let plain = Section {
        keywords: vec![String::from("plain")],
        keys: None,
        commands: Some(vec![(String::from("--x"), String::from("y"))]),
    };
    let data = Data { sections: vec![tricky, plain] };
    let text = serialize_data(&data);
    let back = parse_data(text.as_str()).expect("escaped strings must parse back");
    assert_same(&data, &back);
}

#[test]
fn malformed_documents_are_rejected() {
    assert!(parse_data("").is_none());
    assert!(parse_data("{}").is_none());
    assert!(parse_data("{\"sections\":[").is_none());
    assert!(parse_data("{\"sections\":[]} ").is_none());
    assert!(parse_data("{\"sections\":[{\"keywords\":[],\"keys\":null}]}").is_none());
}

#[test]
fn parsed_document_searches() {
    let text = "{\"sections\":[{\"keywords\":[\"vim\",\"editor\"],\"keys\":null,\"commands\":null}]}";
    let data = parse_data(text).expect("a canonical document must parse");
    assert_eq!(data.sections.len(), 1);
    assert_eq!(data.sections[0].keywords, vec![String::from("vim"), String::from("editor")]);
    let indexes = data.search_for_keywords(&vec![String::from("editor")]);
    assert_eq!(indexes, vec![0]);
}
