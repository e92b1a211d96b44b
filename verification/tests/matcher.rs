use insight_cue::kb::{Data, Section, generate_default_data};
use insight_cue::tokens::CMD;
use insight_cue::{Action, Config, parse_tokens, resolve, run};

fn args(list: &[&str]) -> Vec<String> {
    list.iter().map(|s| String::from(*s)).collect()
}

fn two_section_data() -> Data {
    let first = Section {
        keywords: vec![String::from("a"), String::from("b")],
        keys: Some(vec![(String::from("k"), String::from("key one"))]),
        commands: None,
    };
    let second = Section { keywords: vec![String::from("b")], keys: None, commands: None };
    Data { sections: vec![first, second] }
}

#[test]
fn tokenize_batches() {
    let tokens = parse_tokens(&args(&["nvim", "--help", "--key"])).unwrap();
    assert_eq!(tokens.len(), 3);

    let err = parse_tokens(&args(&["nvim", "--bogus", "--help"])).err().unwrap();
    assert_eq!(err.description(), "\u{001b}[31mUnknown Argument: --bogus\u{001b}[0m");
}

#[test]
fn command_overrides_keyword() {
    let data = generate_default_data();
    let cfg = Config::build(args(&["nvim", "--help"]), data).unwrap();
    match run(&cfg) {
        Action::RunCommand(CMD::Help) => {}
        _ => panic!("a command token must override every keyword"),
    }
}

#[test]
fn first_command_wins() {
    let data = generate_default_data();
    let cfg = Config::build(args(&["--version", "--help"]), data).unwrap();
    match run(&cfg) {
        Action::RunCommand(CMD::Version) => {}
        _ => panic!("the first command in argument order must win"),
    }
}

#[test]
fn single_keyword_matches_seed_section() {
    let data = generate_default_data();
    let tokens = parse_tokens(&args(&["iq"])).unwrap();
    match resolve(&tokens, &data) {
        Action::SearchKeywords(indexes) => assert_eq!(indexes, vec![0]),
        _ => panic!("the seed section must match its keyword"),
    }
}

#[test]
fn unmatched_keyword_is_no_match() {
    let data = generate_default_data();
    let tokens = parse_tokens(&args(&["doesnotexist"])).unwrap();
    match resolve(&tokens, &data) {
        Action::NoMatch => {}
        _ => panic!("an unmatched keyword must degrade to NoMatch"),
    }
}

#[test]
fn no_tokens_is_no_match() {
    let data = generate_default_data();
    let tokens = parse_tokens(&args(&[])).unwrap();
    match resolve(&tokens, &data) {
        Action::NoMatch => {}
        _ => panic!("no tokens at all must resolve to NoMatch"),
    }
}

#[test]
fn option_tokens_are_inert() {
    let data = generate_default_data();
    let tokens = parse_tokens(&args(&["--key", "iq"])).unwrap();
    match resolve(&tokens, &data) {
        Action::SearchKeywords(indexes) => assert_eq!(indexes, vec![0]),
        _ => panic!("an option token must not change the search result"),
    }

    let data = generate_default_data();
    let tokens = parse_tokens(&args(&["--key"])).unwrap();
    match resolve(&tokens, &data) {
        Action::NoMatch => {}
        _ => panic!("an option alone supplies no keyword"),
    }
}

#[test]
fn section_major_order_with_duplicates() {
    let data = two_section_data();
    let tokens = parse_tokens(&args(&["b", "a"])).unwrap();
    match resolve(&tokens, &data) {
        Action::SearchKeywords(indexes) => assert_eq!(indexes, vec![0, 0, 1]),
        _ => panic!("both sections must match"),
    }
}

#[test]
fn search_is_exact_and_case_sensitive() {
    let data = generate_default_data();
    let indexes = data.search_for_keywords(&vec![String::from("IQ")]);
    assert_eq!(indexes, Vec::<usize>::new());
    let indexes = data.search_for_keywords(&vec![String::from("i")]);
    assert_eq!(indexes, Vec::<usize>::new());
    let indexes = data.search_for_keywords(&vec![String::from("iq")]);
    assert_eq!(indexes, vec![0]);
}

#[test]
fn config_accessors_report_tokens() {
    let data = generate_default_data();
    let cfg = Config::build(args(&["word", "--version"]), data).unwrap();
    assert_eq!(cfg.get_first_command_token(), Some(CMD::Version));
    let keys = cfg.get_keyword_tokens().unwrap();
    assert_eq!(keys, vec![String::from("word")]);

    let data = generate_default_data();
    let cfg = Config::build(args(&["--key"]), data).unwrap();
    assert_eq!(cfg.get_first_command_token(), None);
    assert!(cfg.get_keyword_tokens().is_none());
}

#[test]
fn build_fails_on_unknown_argument() {
    let data = generate_default_data();
    let err = Config::build(args(&["--wat"]), data).err().unwrap();
    assert_eq!(err.description(), "\u{001b}[31mUnknown Argument: --wat\u{001b}[0m");
}

#[test]
fn seed_data_shape() {
    let data = generate_default_data();
    assert_eq!(data.sections.len(), 1);
    assert_eq!(data.sections[0].keywords, vec![String::from("iq")]);
    assert!(data.sections[0].keys.is_none());
    assert_eq!(
        data.sections[0].commands,
        Some(vec![(String::from("--help"), String::from("shows help menu"))])
    );
}
