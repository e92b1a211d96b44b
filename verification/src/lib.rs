//! insight_cue: a personal-reference command-line lookup library.
//!
//! Raw argument strings are tokenized into commands, filter options and
//! free-text keywords; a knowledge base of keyword-indexed sections is
//! searched for exact keyword matches; the resulting action (run a command,
//! show matching sections, or report no match) is handed to the caller,
//! which renders it. A command token always overrides everything else.

pub mod kb;
pub mod persist;
pub mod tokens;

use vstd::prelude::*;

use crate::kb::{Data, SectionModel, as_ints, search_hits_from, section_hits, spec_search};
use crate::tokens::{CMD, Error, Token, TokenModel, spec_token, unknown_argument_message};

verus! {

/// The single effective action of one invocation.
#[derive(Debug)]
pub enum Action {
    RunCommand(CMD),
    SearchKeywords(Vec<usize>),
    NoMatch,
}

/// Mathematical model of an action.
pub enum ActionModel {
    RunCommand(CMD),
    SearchKeywords(Seq<int>),
    NoMatch,
}

impl DeepView for Action {
    type V = ActionModel;

    open spec fn deep_view(&self) -> ActionModel {
        match self {
            Action::RunCommand(c) => ActionModel::RunCommand(*c),
            Action::SearchKeywords(v) => ActionModel::SearchKeywords(as_ints(v@)),
            Action::NoMatch => ActionModel::NoMatch,
        }
    }
}

/// The first Command token in left-to-right argument order, if any.
pub open spec fn first_command(ts: Seq<TokenModel>) -> Option<CMD>
    decreases ts.len(),
{
    if ts.len() == 0 {
        None
    } else {
        match ts[0] {
            TokenModel::Command(c) => Some(c),
            _ => first_command(ts.skip(1)),
        }
    }
}

/// The keyword texts in argument order, duplicates kept.
pub open spec fn keyword_texts(ts: Seq<TokenModel>) -> Seq<Seq<char>>
    decreases ts.len(),
{
    if ts.len() == 0 {
        Seq::empty()
    } else {
        match ts[0] {
            TokenModel::Keyword(w) => seq![w] + keyword_texts(ts.skip(1)),
            _ => keyword_texts(ts.skip(1)),
        }
    }
}

/// All-or-nothing tokenization: the token for every argument, or the first
/// argument that cannot be classified.
pub open spec fn spec_tokenize(args: Seq<Seq<char>>) -> Result<Seq<TokenModel>, Seq<char>>
    decreases args.len(),
{
    if args.len() == 0 {
        Ok(Seq::empty())
    } else {
        match spec_token(args[0]) {
            None => Err(args[0]),
            Some(t) => match spec_tokenize(args.skip(1)) {
                Ok(ts) => Ok(seq![t] + ts),
                Err(b) => Err(b),
            },
        }
    }
}

/// Action selection. The first Command token wins outright; otherwise the
/// keyword search decides, and an empty keyword list or an empty hit list is
/// a NoMatch, never an error. Option tokens are accepted but change nothing.
pub open spec fn spec_resolve(ts: Seq<TokenModel>, ms: Seq<SectionModel>) -> ActionModel {
    match first_command(ts) {
        Some(c) => ActionModel::RunCommand(c),
        None => {
            let kws = keyword_texts(ts);
            if kws.len() == 0 {
                ActionModel::NoMatch
            } else {
                let hits = spec_search(ms, kws);
                if hits.len() == 0 {
                    ActionModel::NoMatch
                } else {
                    ActionModel::SearchKeywords(hits)
                }
            }
        },
    }
}

/// Tokenizes every argument, aborting the whole batch on the first failure;
/// no partial token list is ever returned.
pub fn parse_tokens(args: &Vec<String>) -> (r: Result<Vec<Token>, Error>)
    ensures
        match r {
            Ok(ts) => spec_tokenize(args.deep_view()) == Ok::<Seq<TokenModel>, Seq<char>>(
                ts.deep_view(),
            ),
            Err(e) => spec_tokenize(args.deep_view()) matches Err(b) && e@
                == unknown_argument_message(b),
        },
{
    let ghost av = args.deep_view();
    let mut results: Vec<Token> = Vec::new();
    proof {
        assert(av.skip(0) =~= av);
        assert(results.deep_view() =~= Seq::<TokenModel>::empty());
        match spec_tokenize(av) {
            Ok(ts) => {
                assert(results.deep_view() + ts =~= ts);
            },
            Err(_) => {},
        }
    }
    let n = args.len();
    let mut i: usize = 0;
    while i < n
        invariant
            n == args@.len(),
            av == args.deep_view(),
            0 <= i <= n,
            spec_tokenize(av) == (match spec_tokenize(av.skip(i as int)) {
                Ok(ts) => Ok::<Seq<TokenModel>, Seq<char>>(results.deep_view() + ts),
                Err(b) => Err::<Seq<TokenModel>, Seq<char>>(b),
            }),
        decreases n - i,
    {
        proof {
            assert(av.skip(i as int)[0] == av[i as int]);
            assert(av.skip(i as int).skip(1) =~= av.skip(i as int + 1));
        }
        match Token::parse(&args[i]) {
            Ok(token) => {
                let ghost pre = results.deep_view();
                results.push(token);
                proof {
                    assert(results.deep_view() =~= pre.push(token.deep_view()));
                    match spec_tokenize(av.skip(i as int + 1)) {
                        Ok(ts) => {
                            assert(pre + (seq![token.deep_view()] + ts) =~= results.deep_view()
                                + ts);
                        },
                        Err(_) => {},
                    }
                }
            },
            Err(err) => {
                return Err(err);
            },
        }
        i = i + 1;
    }
    proof {
        assert(av.skip(n as int) =~= Seq::<Seq<char>>::empty());
        assert(results.deep_view() + Seq::<TokenModel>::empty() =~= results.deep_view());
    }
    Ok(results)
}

/// The parsed token sequence of one invocation together with the loaded
/// knowledge base.
#[derive(Debug)]
pub struct Config {
    pub tokens: Vec<Token>,
    pub data: Data,
}

/// The first Command token of the sequence, scanning left to right.
pub fn first_command_token(tokens: &Vec<Token>) -> (r: Option<CMD>)
    ensures
        r == first_command(tokens.deep_view()),
{
    let ghost tv = tokens.deep_view();
    proof {
        assert(tv.skip(0) =~= tv);
    }
    let n = tokens.len();
    let mut i: usize = 0;
    while i < n
        invariant
            n == tokens@.len(),
            tv == tokens.deep_view(),
            0 <= i <= n,
            first_command(tv) == first_command(tv.skip(i as int)),
        decreases n - i,
    {
        proof {
            assert(tv.skip(i as int)[0] == tv[i as int]);
            assert(tv.skip(i as int).skip(1) =~= tv.skip(i as int + 1));
        }
        match &tokens[i] {
            Token::Command(t) => {
                return Some(*t);
            },
            _ => {},
        }
        i = i + 1;
    }
    proof {
        assert(tv.skip(n as int) =~= Seq::<TokenModel>::empty());
    }
    None
}

/// The keyword texts of the sequence, in order, duplicates kept; `None` when
/// there is no keyword token at all.
pub fn keyword_token_texts(tokens: &Vec<Token>) -> (r: Option<Vec<String>>)
    ensures
        match r {
            Some(v) => v.deep_view() == keyword_texts(tokens.deep_view()) && v@.len() > 0,
            None => keyword_texts(tokens.deep_view()).len() == 0,
        },
{
    let ghost tv = tokens.deep_view();
    let mut keys: Vec<String> = Vec::new();
    proof {
        assert(tv.skip(0) =~= tv);
        assert(keys.deep_view() =~= Seq::<Seq<char>>::empty());
        assert(keys.deep_view() + keyword_texts(tv) =~= keyword_texts(tv));
    }
    let n = tokens.len();
    let mut i: usize = 0;
    while i < n
        invariant
            n == tokens@.len(),
            tv == tokens.deep_view(),
            0 <= i <= n,
            keyword_texts(tv) == keys.deep_view() + keyword_texts(tv.skip(i as int)),
        decreases n - i,
    {
        proof {
            assert(tv.skip(i as int)[0] == tv[i as int]);
            assert(tv.skip(i as int).skip(1) =~= tv.skip(i as int + 1));
        }
        match &tokens[i] {
            Token::Keyword(w) => {
                let ghost pre = keys.deep_view();
                keys.push(w.clone());
                proof {
                    assert(keys.deep_view() =~= pre.push(w@));
                    assert(pre + (seq![w@] + keyword_texts(tv.skip(i as int + 1)))
                        =~= keys.deep_view() + keyword_texts(tv.skip(i as int + 1)));
                }
            },
            _ => {},
        }
        i = i + 1;
    }
    proof {
        assert(tv.skip(n as int) =~= Seq::<TokenModel>::empty());
        assert(keys.deep_view() + keyword_texts(tv.skip(n as int)) =~= keys.deep_view());
    }
    if keys.len() == 0 {
        None
    } else {
        Some(keys)
    }
}

impl Config {
    /// Tokenizes the raw arguments and pairs them with the already loaded
    /// knowledge base; fails exactly when tokenization fails, with the
    /// unknown-argument message of the first bad argument.
    pub fn build(args: Vec<String>, data: Data) -> (r: Result<Config, Error>)
        ensures
            match r {
                Ok(cfg) => spec_tokenize(args.deep_view()) == Ok::<Seq<TokenModel>, Seq<char>>(
                    cfg.tokens.deep_view(),
                ) && cfg.data.deep_view() == data.deep_view(),
                Err(e) => spec_tokenize(args.deep_view()) matches Err(b) && e@
                    == unknown_argument_message(b),
            },
    {
        let tokens = match parse_tokens(&args) {
            Ok(t) => t,
            Err(e) => {
                return Err(e);
            },
        };
        Ok(Config { tokens, data })
    }

    pub fn get_first_command_token(&self) -> (r: Option<CMD>)
        ensures
            r == first_command(self.tokens.deep_view()),
    {
        first_command_token(&self.tokens)
    }

    pub fn get_keyword_tokens(&self) -> (r: Option<Vec<String>>)
        ensures
            match r {
                Some(v) => v.deep_view() == keyword_texts(self.tokens.deep_view()) && v@.len() > 0,
                None => keyword_texts(self.tokens.deep_view()).len() == 0,
            },
    {
        keyword_token_texts(&self.tokens)
    }
}

/// Selects the single effective action for a token sequence against a
/// knowledge base; never fails — absence of matches is the value `NoMatch`.
pub fn resolve(tokens: &Vec<Token>, data: &Data) -> (r: Action)
    ensures
        r.deep_view() == spec_resolve(tokens.deep_view(), data.deep_view()),
{
    if let Some(cmd) = first_command_token(tokens) {
        return Action::RunCommand(cmd);
    }
    if let Some(keys) = keyword_token_texts(tokens) {
        let indexes = data.search_for_keywords(&keys);
        if indexes.len() > 0 {
            return Action::SearchKeywords(indexes);
        }
    }
    Action::NoMatch
}

/// Resolves one invocation's action from its parsed configuration.
pub fn run(cfg: &Config) -> (r: Action)
    ensures
        r.deep_view() == spec_resolve(cfg.tokens.deep_view(), cfg.data.deep_view()),
{
    resolve(&cfg.tokens, &cfg.data)
}

proof fn lemma_first_command_at(ts: Seq<TokenModel>, i: int)
    requires
        0 <= i < ts.len(),
        ts[i] is Command,
        forall|j: int| 0 <= j < i ==> !((#[trigger] ts[j]) is Command),
    ensures
        first_command(ts) == Some(ts[i]->Command_0),
    decreases i,
{
    if i == 0 {
    } else {
        assert(!(ts[0] is Command));
        assert forall|j: int| 0 <= j < i - 1 implies !((#[trigger] ts.skip(1)[j]) is Command) by {
            assert(ts.skip(1)[j] == ts[j + 1]);
        }
        assert(ts.skip(1)[i - 1] == ts[i]);
        lemma_first_command_at(ts.skip(1), i - 1);
    }
}

proof fn lemma_first_command_none(ts: Seq<TokenModel>)
    requires
        forall|j: int| 0 <= j < ts.len() ==> !((#[trigger] ts[j]) is Command),
    ensures
        first_command(ts) is None,
    decreases ts.len(),
{
    if ts.len() == 0 {
    } else {
        assert(!(ts[0] is Command));
        assert forall|j: int| 0 <= j < ts.len() - 1 implies !((#[trigger] ts.skip(1)[j])
            is Command) by {
            assert(ts.skip(1)[j] == ts[j + 1]);
        }
        lemma_first_command_none(ts.skip(1));
    }
}

proof fn lemma_section_hits_none(m: SectionModel, kws: Seq<Seq<char>>, i: int)
    requires
        forall|k: int| 0 <= k < kws.len() ==> !m.keywords.contains(#[trigger] kws[k]),
    ensures
        section_hits(m, kws, i) == Seq::<int>::empty(),
    decreases kws.len(),
{
    if kws.len() == 0 {
    } else {
        assert(!m.keywords.contains(kws[0]));
        assert forall|k: int| 0 <= k < kws.len() - 1 implies !m.keywords.contains(
            #[trigger] kws.skip(1)[k],
        ) by {
            assert(kws.skip(1)[k] == kws[k + 1]);
        }
        lemma_section_hits_none(m, kws.skip(1), i);
        assert(Seq::<int>::empty() + Seq::<int>::empty() =~= Seq::<int>::empty());
    }
}

proof fn lemma_search_none(ms: Seq<SectionModel>, kws: Seq<Seq<char>>, i: int)
    requires
        forall|j: int, k: int|
            0 <= j < ms.len() && 0 <= k < kws.len() ==> !(#[trigger] ms[j].keywords.contains(
                #[trigger] kws[k],
            )),
    ensures
        search_hits_from(ms, kws, i) == Seq::<int>::empty(),
    decreases ms.len() - i,
{
    if i < 0 || i >= ms.len() {
    } else {
        lemma_section_hits_none(ms[i], kws, i);
        lemma_search_none(ms, kws, i + 1);
        assert(Seq::<int>::empty() + Seq::<int>::empty() =~= Seq::<int>::empty());
    }
}

/// Law: a command overrides anything else. If the token at position `i` is
/// the first Command token of the sequence, resolution runs exactly that
/// command, whatever keyword or option tokens stand anywhere else.
pub proof fn lemma_command_precedence(ts: Seq<TokenModel>, ms: Seq<SectionModel>, i: int)
    requires
        0 <= i < ts.len(),
        ts[i] is Command,
        forall|j: int| 0 <= j < i ==> !((#[trigger] ts[j]) is Command),
    ensures
        spec_resolve(ts, ms) == ActionModel::RunCommand(ts[i]->Command_0),
{
    lemma_first_command_at(ts, i);
}

/// Law: with no Command token, a token sequence whose keywords are contained
/// in no section of the knowledge base resolves to `NoMatch` — so does one
/// with no keyword at all; absence of matches is never an error.
pub proof fn lemma_no_match(ts: Seq<TokenModel>, ms: Seq<SectionModel>)
    requires
        forall|j: int| 0 <= j < ts.len() ==> !((#[trigger] ts[j]) is Command),
        forall|j: int, k: int|
            0 <= j < ms.len() && 0 <= k < keyword_texts(ts).len() ==> !(
            #[trigger] ms[j].keywords.contains(#[trigger] keyword_texts(ts)[k])),
    ensures
        spec_resolve(ts, ms) == ActionModel::NoMatch,
{
    lemma_first_command_none(ts);
    lemma_search_none(ms, keyword_texts(ts), 0);
}

} // verus!
