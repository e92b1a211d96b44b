use insight_cue::tokens::{ARG, CMD, Token};

#[test]
fn get_token_cmd() {
    let result = Token::parse(&String::from("--help"));
    if result.is_err() {
        assert!(false, "Failed to parse String into Token CMD");
    }
    let result = result.unwrap();

    let expected = Token::Command(CMD::Help);
    assert_eq!(expected, result);
}

#[test]
fn get_token_arg() {
    let result = Token::parse(&String::from("--key"));
    if result.is_err() {
        assert!(false, "Failed to parse String into Token ARG");
    }
    let result = result.unwrap();

    let expected = Token::Argument(ARG::OnlyKEY);
    assert_eq!(expected, result);
}

#[test]
fn get_token_key() {
    let result = Token::parse(&String::from("nvim"));
    if result.is_err() {
        assert!(false, "Failed to parse String into Token key");
    }
    let result = result.unwrap();

    let expected = Token::Keyword(String::from("nvim"));
    assert_eq!(expected, result);
}

#[test]
fn dont_get_token_key() {
    let result = Token::parse(&String::from("--nvim"));
    if result.is_ok() {
        assert!(false, "Got Token key, when shouldnt have");
    }
}

#[test]
fn should_get_cmd() {
    let result = CMD::parse(&String::from("--help"));
    if result.is_none() {
        assert!(false, "Failed to parse String into CMD Token");
    }
    let result = result.unwrap();
    assert_eq!(CMD::Help, result);
}

#[test]
fn shouldnt_get_cmd() {
    let result = CMD::parse(&String::from("help"));
    if result.is_some() {
        assert!(false, "Got CMD Token, when shouldnt have");
    }
}

#[test]
fn should_get_arg() {
    let result = ARG::parse(&String::from("--key"));
    if result.is_none() {
        assert!(false, "Failed to parse String into ARG Token");
    }
    let result = result.unwrap();
    assert_eq!(ARG::OnlyKEY, result);
}

#[test]
fn shouldnt_get_arg() {
    let result = ARG::parse(&String::from("key"));
    if result.is_some() {
        assert!(false, "Got ARG Token, when shouldnt have");
    }
}

#[test]
fn should_get_token_keyword_1() {
    let result = Token::parse(&String::from("hello-world"));
    if result.is_err() {
        assert!(false, "Failed to parse String into Token key");
    }
    let result = result.unwrap();

    let expected = Token::Keyword(String::from("hello-world"));
    assert_eq!(expected, result);
}

#[test]
fn should_get_token_keyword_2() {
    let result = Token::parse(&String::from("hello--world"));
    if result.is_err() {
        assert!(false, "Failed to parse String into Token key");
    }
    let result = result.unwrap();

    let expected = Token::Keyword(String::from("hello--world"));
    assert_eq!(expected, result);
}

#[test]
fn all_commands_and_options_parse() {
    assert_eq!(CMD::parse(&String::from("--version")).unwrap(), CMD::Version);
    assert_eq!(CMD::parse(&String::from("--list")).unwrap(), CMD::ListKeys);
    assert_eq!(ARG::parse(&String::from("--cmd")).unwrap(), ARG::OnlyCMD);
    assert_eq!(ARG::parse(&String::from("--info")).unwrap(), ARG::OnlyINFO);
}

#[test]
fn unknown_argument_error_message() {
    let result = Token::parse(&String::from("--bogus"));
    let err = result.err().expect("unknown -- argument must fail");
    assert_eq!(err.description(), "\u{001b}[31mUnknown Argument: --bogus\u{001b}[0m");
}

#[test]
fn empty_string_is_a_keyword() {
    let result = Token::parse(&String::from("")).unwrap();
    assert_eq!(result, Token::Keyword(String::from("")));
}

#[test]
fn single_dash_is_a_keyword() {
    let result = Token::parse(&String::from("-")).unwrap();
    assert_eq!(result, Token::Keyword(String::from("-")));
}
