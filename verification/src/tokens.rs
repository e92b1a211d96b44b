//! Tokenizer: classifies each raw argument string as a command, a filter
//! option, or a free-text keyword, with a fixed precedence grammar.
//!
//! Any string not starting with `--` is a keyword, taken verbatim. A string
//! starting with `--` must match one of two fixed tables (commands or
//! options); otherwise tokenization of that string fails.

use vstd::prelude::*;
use vstd::string::*;

verus! {

/// A top-level command; it overrides every other token.
#[derive(Clone, Copy, Debug, PartialEq, Eq, Structural)]
pub enum CMD {
    Help,
    Version,
    ListKeys,
}

/// A filter option; parsed but currently inert in action selection.
#[derive(Clone, Copy, Debug, PartialEq, Eq, Structural)]
pub enum ARG {
    OnlyKEY,
    OnlyCMD,
    OnlyINFO,
}

/// One classified argument.
#[derive(Debug)]
pub enum Token {
    Command(CMD),
    Keyword(String),
    Argument(ARG),
}

/// Mathematical model of a token: the keyword text as a sequence of chars.
pub enum TokenModel {
    Command(CMD),
    Keyword(Seq<char>),
    Argument(ARG),
}

impl DeepView for Token {
    type V = TokenModel;

    open spec fn deep_view(&self) -> TokenModel {
        match self {
            Token::Command(c) => TokenModel::Command(*c),
            Token::Keyword(s) => TokenModel::Keyword(s@),
            Token::Argument(a) => TokenModel::Argument(*a),
        }
    }
}

impl PartialEq for Token {
    fn eq(&self, other: &Token) -> (r: bool) {
        match (self, other) {
            (Token::Command(a), Token::Command(b)) => *a == *b,
            (Token::Keyword(a), Token::Keyword(b)) => *a == *b,
            (Token::Argument(a), Token::Argument(b)) => *a == *b,
            _ => false,
        }
    }
}

impl vstd::std_specs::cmp::PartialEqSpecImpl for Token {
    open spec fn obeys_eq_spec() -> bool {
        true
    }

    open spec fn eq_spec(&self, other: &Token) -> bool {
        self.deep_view() == other.deep_view()
    }
}

/// Error raised when an argument cannot be classified; carries the message
/// shown to the user.
#[derive(Debug)]
pub struct Error {
    message: String,
}

impl View for Error {
    type V = Seq<char>;

    closed spec fn view(&self) -> Seq<char> {
        self.message@
    }
}

impl Error {
    pub fn new(message: String) -> (r: Error)
        ensures
            r@ == message@,
    {
        Error { message }
    }

    pub fn description(&self) -> (r: &str)
        ensures
            r@ == self@,
    {
        self.message.as_str()
    }
}

/// A keyword is any string that does not start with the two characters `--`.
pub open spec fn spec_is_keyword(s: Seq<char>) -> bool {
    !(s.len() >= 2 && s[0] == '-' && s[1] == '-')
}

/// The fixed command table.
pub open spec fn spec_cmd(s: Seq<char>) -> Option<CMD> {
    if s == "--help"@ {
        Some(CMD::Help)
    } else if s == "--version"@ {
        Some(CMD::Version)
    } else if s == "--list"@ {
        Some(CMD::ListKeys)
    } else {
        None
    }
}

/// The fixed option table.
pub open spec fn spec_arg(s: Seq<char>) -> Option<ARG> {
    if s == "--key"@ {
        Some(ARG::OnlyKEY)
    } else if s == "--cmd"@ {
        Some(ARG::OnlyCMD)
    } else if s == "--info"@ {
        Some(ARG::OnlyINFO)
    } else {
        None
    }
}

/// What tokenizing one argument yields: keyword fallback for non-`--`
/// strings, else the command table, else the option table, else nothing.
pub open spec fn spec_token(s: Seq<char>) -> Option<TokenModel> {
    if spec_is_keyword(s) {
        Some(TokenModel::Keyword(s))
    } else {
        match spec_cmd(s) {
            Some(c) => Some(TokenModel::Command(c)),
            None => match spec_arg(s) {
                Some(a) => Some(TokenModel::Argument(a)),
                None => None,
            },
        }
    }
}

/// The message carried by the unknown-argument error, with the original
/// string embedded between terminal color escapes.
pub open spec fn unknown_argument_message(s: Seq<char>) -> Seq<char> {
    "\u{001b}[31mUnknown Argument: "@ + s + "\u{001b}[0m"@
}

impl CMD {
    pub fn parse(s: &String) -> (r: Option<CMD>)
        ensures
            r == spec_cmd(s@),
    {
        if *s == String::from_str("--help") {
            Some(CMD::Help)
        } else if *s == String::from_str("--version") {
            Some(CMD::Version)
        } else if *s == String::from_str("--list") {
            Some(CMD::ListKeys)
        } else {
            None
        }
    }
}

impl ARG {
    pub fn parse(s: &String) -> (r: Option<ARG>)
        ensures
            r == spec_arg(s@),
    {
        if *s == String::from_str("--key") {
            Some(ARG::OnlyKEY)
        } else if *s == String::from_str("--cmd") {
            Some(ARG::OnlyCMD)
        } else if *s == String::from_str("--info") {
            Some(ARG::OnlyINFO)
        } else {
            None
        }
    }
}

impl Token {
    /// Classifies one argument string, trying the keyword fallback, the
    /// command table, then the option table; every string not starting with
    /// `--` comes back as a `Keyword` carrying the string unchanged.
    pub fn parse(s: &String) -> (r: Result<Token, Error>)
        ensures
            match r {
                Ok(t) => spec_token(s@) == Some(t.deep_view()),
                Err(e) => spec_token(s@) is None && e@ == unknown_argument_message(s@),
            },
            spec_is_keyword(s@) ==> (r matches Ok(t) && t.deep_view() == TokenModel::Keyword(
                s@,
            )),
    {
        if let Some(keyword) = Self::parse_keyword(s) {
            return Ok(keyword);
        }
        if let Some(cmd) = CMD::parse(s) {
            return Ok(Token::Command(cmd));
        }
        if let Some(arg) = ARG::parse(s) {
            return Ok(Token::Argument(arg));
        }
        let mut message = String::from_str("\u{001b}[31mUnknown Argument: ");
        message.append(s.as_str());
        message.append("\u{001b}[0m");
        Err(Error::new(message))
    }

    pub fn parse_keyword(s: &String) -> (r: Option<Token>)
        ensures
            match r {
                Some(t) => spec_is_keyword(s@) && t.deep_view() == TokenModel::Keyword(s@),
                None => !spec_is_keyword(s@),
            },
    {
        match Self::is_keyword(s) {
            true => Some(Token::Keyword(s.clone())),
            false => None,
        }
    }

    pub fn is_keyword(arg: &String) -> (r: bool)
        ensures
            r == spec_is_keyword(arg@),
    {
        let st = arg.as_str();
        let n = st.unicode_len();
        if n < 2 {
            true
        } else {
            !(st.get_char(0) == '-' && st.get_char(1) == '-')
        }
    }
}

} // verus!
