//! Splits C source text into tokens.
pub mod comment;
pub mod regex_match;
pub mod source_text;

use vstd::prelude::*;
use vstd::string::*;
use vstd::utf8::*;

use self::comment::{
    block_comment_end, comment_span, lemma_ascii_byte_boundaries, line_comment_end, starts_with_pair, terminator_at,
};
use self::regex_match::{find_match, regex_find};
use self::source_text::{
    after_span, consumes, first_word, is_white_space, is_whitespace, parse_i32, span_text, spec_parse_i32,
    split_first_char, split_span, take_first_word,
};

verus! {

#[derive(Debug, Eq, Hash)]
pub enum Token {
    Identifier(String),
    Constant(i32),
    OpenParan,
    CloseParan,
    OpenBrace,
    CloseBrace,
    Semicolon,
    Tilde,
    Minus,
    DoubleMinus,
    Int,
    Void,
    Return,
    Comma,
    Equal,
    If,
    Else,
    Do,
    While,
    For,
    Break,
    Continue,
    Plus,
    Asterisk,
    ForwardSlash,
    Percent,
    DoubleAmpersands,
    DoubleBar,
    DoubleEqual,
    ExclamationEqual,
    LeftAngleBracket,
    RightAngleBracket,
    LeftAngleBracketEqual,
    RightAngleBracketEqual,
    QuestionMark,
    Colon,
    Exclamation,
}

impl Token {
    /// True for every token but identifiers and constants, which carry a value.
    pub open spec fn is_plain(self) -> bool {
        !(self is Identifier) && !(self is Constant)
    }

    /// True when the two tokens are of the same kind (their values aside).
    pub open spec fn same_kind(self, other: Token) -> bool {
        match (self, other) {
            (Token::Identifier(_), Token::Identifier(_)) => true,
            (Token::Constant(_), Token::Constant(_)) => true,
            _ => self.is_plain() && self == other,
        }
    }

    /// Whether the token is of the same kind as `other`.
    pub fn is_same_kind(&self, other: &Token) -> (r: bool)
        ensures
            r == self.same_kind(*other),
    {
        self.kind_number() == other.kind_number()
    }

    fn kind_number(&self) -> (n: u8)
        ensures
            forall|other: Token| #[trigger] self.same_kind(other) <==> kind_of(other) == n,
            n == kind_of(*self),
    {
        kind_of_exec(self)
    }
}

pub open spec fn kind_of(t: Token) -> u8 {
    match t {
        Token::Identifier(_) => 0,
        Token::Constant(_) => 1,
        Token::OpenParan => 2,
        Token::CloseParan => 3,
        Token::OpenBrace => 4,
        Token::CloseBrace => 5,
        Token::Semicolon => 6,
        Token::Tilde => 7,
        Token::Minus => 8,
        Token::DoubleMinus => 9,
        Token::Int => 10,
        Token::Void => 11,
        Token::Return => 12,
        Token::Comma => 13,
        Token::Equal => 14,
        Token::If => 15,
        Token::Else => 16,
        Token::Do => 17,
        Token::While => 18,
        Token::For => 19,
        Token::Break => 20,
        Token::Continue => 21,
        Token::Plus => 22,
        Token::Asterisk => 23,
        Token::ForwardSlash => 24,
        Token::Percent => 25,
        Token::DoubleAmpersands => 26,
        Token::DoubleBar => 27,
        Token::DoubleEqual => 28,
        Token::ExclamationEqual => 29,
        Token::LeftAngleBracket => 30,
        Token::RightAngleBracket => 31,
        Token::LeftAngleBracketEqual => 32,
        Token::RightAngleBracketEqual => 33,
        Token::QuestionMark => 34,
        Token::Colon => 35,
        Token::Exclamation => 36,
    }
}

fn kind_of_exec(t: &Token) -> (n: u8)
    ensures
        n == kind_of(*t),
{
    match t {
        Token::Identifier(_) => 0,
        Token::Constant(_) => 1,
        Token::OpenParan => 2,
        Token::CloseParan => 3,
        Token::OpenBrace => 4,
        Token::CloseBrace => 5,
        Token::Semicolon => 6,
        Token::Tilde => 7,
        Token::Minus => 8,
        Token::DoubleMinus => 9,
        Token::Int => 10,
        Token::Void => 11,
        Token::Return => 12,
        Token::Comma => 13,
        Token::Equal => 14,
        Token::If => 15,
        Token::Else => 16,
        Token::Do => 17,
        Token::While => 18,
        Token::For => 19,
        Token::Break => 20,
        Token::Continue => 21,
        Token::Plus => 22,
        Token::Asterisk => 23,
        Token::ForwardSlash => 24,
        Token::Percent => 25,
        Token::DoubleAmpersands => 26,
        Token::DoubleBar => 27,
        Token::DoubleEqual => 28,
        Token::ExclamationEqual => 29,
        Token::LeftAngleBracket => 30,
        Token::RightAngleBracket => 31,
        Token::LeftAngleBracketEqual => 32,
        Token::RightAngleBracketEqual => 33,
        Token::QuestionMark => 34,
        Token::Colon => 35,
        Token::Exclamation => 36,
    }
}

/// A token as the contracts see it: an identifier's name is a character
/// sequence; every other token is itself.
pub enum TokenModel {
    Identifier(Seq<char>),
    Other(Token),
}

impl View for Token {
    type V = TokenModel;

    open spec fn view(&self) -> TokenModel {
        match self {
            Token::Identifier(name) => TokenModel::Identifier(name@),
            _ => TokenModel::Other(*self),
        }
    }
}

impl Clone for Token {
    fn clone(&self) -> (result: Self)
        ensures
            result == *self,
    {
        match self {
            Token::Identifier(name) => Token::Identifier(name.clone()),
            Token::Constant(value) => Token::Constant(*value),
            Token::OpenParan => Token::OpenParan,
            Token::CloseParan => Token::CloseParan,
            Token::OpenBrace => Token::OpenBrace,
            Token::CloseBrace => Token::CloseBrace,
            Token::Semicolon => Token::Semicolon,
            Token::Tilde => Token::Tilde,
            Token::Minus => Token::Minus,
            Token::DoubleMinus => Token::DoubleMinus,
            Token::Int => Token::Int,
            Token::Void => Token::Void,
            Token::Return => Token::Return,
            Token::Comma => Token::Comma,
            Token::Equal => Token::Equal,
            Token::If => Token::If,
            Token::Else => Token::Else,
            Token::Do => Token::Do,
            Token::While => Token::While,
            Token::For => Token::For,
            Token::Break => Token::Break,
            Token::Continue => Token::Continue,
            Token::Plus => Token::Plus,
            Token::Asterisk => Token::Asterisk,
            Token::ForwardSlash => Token::ForwardSlash,
            Token::Percent => Token::Percent,
            Token::DoubleAmpersands => Token::DoubleAmpersands,
            Token::DoubleBar => Token::DoubleBar,
            Token::DoubleEqual => Token::DoubleEqual,
            Token::ExclamationEqual => Token::ExclamationEqual,
            Token::LeftAngleBracket => Token::LeftAngleBracket,
            Token::RightAngleBracket => Token::RightAngleBracket,
            Token::LeftAngleBracketEqual => Token::LeftAngleBracketEqual,
            Token::RightAngleBracketEqual => Token::RightAngleBracketEqual,
            Token::QuestionMark => Token::QuestionMark,
            Token::Colon => Token::Colon,
            Token::Exclamation => Token::Exclamation,
        }
    }
}

impl PartialEq for Token {
    fn eq(&self, other: &Token) -> (result: bool) {
        match self {
            Token::Identifier(a) => match other {
                Token::Identifier(b) => *a == *b,
                _ => false,
            },
            Token::Constant(a) => match other {
                Token::Constant(b) => *a == *b,
                _ => false,
            },
            _ => self.is_same_kind(other),
        }
    }
}

impl vstd::std_specs::cmp::PartialEqSpecImpl for Token {
    open spec fn obeys_eq_spec() -> bool {
        true
    }

    open spec fn eq_spec(&self, other: &Token) -> bool {
        self@ == other@
    }
}

/// Why a text is not a sequence of tokens.
#[derive(Debug)]
pub enum LexError {
    /// Text that no token definition matches; it holds the word that starts there.
    InvalidToken(String),
    /// A constant that does not fit in an `i32`.
    InvalidConstant(String),
}

pub enum LexErrorModel {
    InvalidToken(Seq<char>),
    InvalidConstant(Seq<char>),
}

impl View for LexError {
    type V = LexErrorModel;

    open spec fn view(&self) -> LexErrorModel {
        match self {
            LexError::InvalidToken(word) => LexErrorModel::InvalidToken(word@),
            LexError::InvalidConstant(text) => LexErrorModel::InvalidConstant(text@),
        }
    }
}

/// A kind of token and the regular expression that recognizes it.
#[derive(Debug)]
pub struct TokenDefinition {
    pub token_type: Token,
    pub pattern: &'static str,
}

impl View for TokenDefinition {
    type V = (TokenModel, Seq<char>);

    open spec fn view(&self) -> (TokenModel, Seq<char>) {
        (self.token_type@, self.pattern@)
    }
}

pub open spec fn definitions_model(defs: Seq<TokenDefinition>) -> Seq<(TokenModel, Seq<char>)> {
    defs.map_values(|d: TokenDefinition| d@)
}

/// The keywords, tried in this order on the text of an identifier.
pub open spec fn keyword_definitions() -> Seq<(TokenModel, Seq<char>)> {
    seq![
        (TokenModel::Other(Token::Int), "^int\\b"@),
        (TokenModel::Other(Token::Void), "^void\\b"@),
        (TokenModel::Other(Token::Return), "^return\\b"@),
        (TokenModel::Other(Token::If), "^if\\b"@),
        (TokenModel::Other(Token::Else), "^else\\b"@),
        (TokenModel::Other(Token::Do), "^do\\b"@),
        (TokenModel::Other(Token::While), "^while\\b"@),
        (TokenModel::Other(Token::For), "^for\\b"@),
        (TokenModel::Other(Token::Break), "^break\\b"@),
        (TokenModel::Other(Token::Continue), "^continue\\b"@),
    ]
}

/// Every other kind of token, tried in this order; the longest match wins, and
/// of equally long ones the first.
pub open spec fn other_definitions() -> Seq<(TokenModel, Seq<char>)> {
    seq![
        (TokenModel::Identifier(seq![]), "^[a-zA-Z_]\\w*\\b"@),
        (TokenModel::Other(Token::Constant(0)), "^[0-9]+\\b"@),
        (TokenModel::Other(Token::CloseBrace), "^\\}"@),
        (TokenModel::Other(Token::OpenBrace), "^\\{"@),
        (TokenModel::Other(Token::CloseParan), "^\\)"@),
        (TokenModel::Other(Token::OpenParan), "^\\("@),
        (TokenModel::Other(Token::Semicolon), "^;"@),
        (TokenModel::Other(Token::Minus), "^-"@),
        (TokenModel::Other(Token::DoubleMinus), "^--"@),
        (TokenModel::Other(Token::Tilde), "^~"@),
        (TokenModel::Other(Token::Plus), "^\\+"@),
        (TokenModel::Other(Token::Asterisk), "^\\*"@),
        (TokenModel::Other(Token::ForwardSlash), "^/"@),
        (TokenModel::Other(Token::Percent), "^%"@),
        (TokenModel::Other(Token::DoubleAmpersands), "^&&"@),
        (TokenModel::Other(Token::DoubleBar), "^\\|\\|"@),
        (TokenModel::Other(Token::DoubleEqual), "^=="@),
        (TokenModel::Other(Token::ExclamationEqual), "^!="@),
        (TokenModel::Other(Token::LeftAngleBracket), "^<"@),
        (TokenModel::Other(Token::RightAngleBracket), "^>"@),
        (TokenModel::Other(Token::LeftAngleBracketEqual), "^<="@),
        (TokenModel::Other(Token::RightAngleBracketEqual), "^>="@),
        (TokenModel::Other(Token::Exclamation), "^!"@),
        (TokenModel::Other(Token::Equal), "^="@),
        (TokenModel::Other(Token::QuestionMark), "^\\?"@),
        (TokenModel::Other(Token::Colon), "^:"@),
        (TokenModel::Other(Token::Comma), "^,"@),
    ]
}

/// The keyword definitions.
pub fn keyword_token_definitions() -> (result: Vec<TokenDefinition>)
    ensures
        definitions_model(result@) == keyword_definitions(),
{
    let result = vec![
        TokenDefinition { token_type: Token::Int, pattern: "^int\\b" },
        TokenDefinition { token_type: Token::Void, pattern: "^void\\b" },
        TokenDefinition { token_type: Token::Return, pattern: "^return\\b" },
        TokenDefinition { token_type: Token::If, pattern: "^if\\b" },
        TokenDefinition { token_type: Token::Else, pattern: "^else\\b" },
        TokenDefinition { token_type: Token::Do, pattern: "^do\\b" },
        TokenDefinition { token_type: Token::While, pattern: "^while\\b" },
        TokenDefinition { token_type: Token::For, pattern: "^for\\b" },
        TokenDefinition { token_type: Token::Break, pattern: "^break\\b" },
        TokenDefinition { token_type: Token::Continue, pattern: "^continue\\b" },
    ];
    proof {
        assert(definitions_model(result@) =~= keyword_definitions());
    }
    result
}

/// The definitions of every token but the keywords.
pub fn other_token_definitions() -> (result: Vec<TokenDefinition>)
    ensures
        definitions_model(result@) == other_definitions(),
{
    let result = vec![
        TokenDefinition { token_type: Token::Identifier(String::new()), pattern: "^[a-zA-Z_]\\w*\\b" },
        TokenDefinition { token_type: Token::Constant(0), pattern: "^[0-9]+\\b" },
        TokenDefinition { token_type: Token::CloseBrace, pattern: "^\\}" },
        TokenDefinition { token_type: Token::OpenBrace, pattern: "^\\{" },
        TokenDefinition { token_type: Token::CloseParan, pattern: "^\\)" },
        TokenDefinition { token_type: Token::OpenParan, pattern: "^\\(" },
        TokenDefinition { token_type: Token::Semicolon, pattern: "^;" },
        TokenDefinition { token_type: Token::Minus, pattern: "^-" },
        TokenDefinition { token_type: Token::DoubleMinus, pattern: "^--" },
        TokenDefinition { token_type: Token::Tilde, pattern: "^~" },
        TokenDefinition { token_type: Token::Plus, pattern: "^\\+" },
        TokenDefinition { token_type: Token::Asterisk, pattern: "^\\*" },
        TokenDefinition { token_type: Token::ForwardSlash, pattern: "^/" },
        TokenDefinition { token_type: Token::Percent, pattern: "^%" },
        TokenDefinition { token_type: Token::DoubleAmpersands, pattern: "^&&" },
        TokenDefinition { token_type: Token::DoubleBar, pattern: "^\\|\\|" },
        TokenDefinition { token_type: Token::DoubleEqual, pattern: "^==" },
        TokenDefinition { token_type: Token::ExclamationEqual, pattern: "^!=" },
        TokenDefinition { token_type: Token::LeftAngleBracket, pattern: "^<" },
        TokenDefinition { token_type: Token::RightAngleBracket, pattern: "^>" },
        TokenDefinition { token_type: Token::LeftAngleBracketEqual, pattern: "^<=" },
        TokenDefinition { token_type: Token::RightAngleBracketEqual, pattern: "^>=" },
        TokenDefinition { token_type: Token::Exclamation, pattern: "^!" },
        TokenDefinition { token_type: Token::Equal, pattern: "^=" },
        TokenDefinition { token_type: Token::QuestionMark, pattern: "^\\?" },
        TokenDefinition { token_type: Token::Colon, pattern: "^:" },
        TokenDefinition { token_type: Token::Comma, pattern: "^," },
    ];
    proof {
        assert(definitions_model(result@) =~= other_definitions());
    }
    result
}

/// The first keyword whose pattern matches `text`, in the order of `kws`.
pub open spec fn keyword_match(text: Seq<char>, kws: Seq<(TokenModel, Seq<char>)>) -> Option<TokenModel>
    decreases kws.len(),
{
    if kws.len() == 0 {
        None
    } else if regex_find(kws[0].1, text) is Some {
        Some(kws[0].0)
    } else {
        keyword_match(text, kws.drop_first())
    }
}

/// The token that a match of the definition of kind `kind` makes of `text`: an
/// identifier is a keyword where a keyword pattern matches it; a constant is
/// the `i32` that its digits denote.
pub open spec fn make_token(kind: TokenModel, text: Seq<char>) -> Result<TokenModel, LexErrorModel> {
    match kind {
        TokenModel::Identifier(_) => Ok(
            match keyword_match(text, keyword_definitions()) {
                Some(keyword) => keyword,
                None => TokenModel::Identifier(text),
            },
        ),
        TokenModel::Other(Token::Constant(_)) => match spec_parse_i32(text) {
            Some(value) => Ok(TokenModel::Other(Token::Constant(value))),
            None => Err(LexErrorModel::InvalidConstant(text)),
        },
        _ => Ok(kind),
    }
}

/// Of the definitions whose pattern matches `text`, the one with the longest
/// match (the first of equally long ones): the span of its match and its kind.
pub open spec fn longest_match(text: Seq<char>, defs: Seq<(TokenModel, Seq<char>)>) -> Option<(usize, usize, TokenModel)>
    decreases defs.len(),
{
    if defs.len() == 0 {
        None
    } else {
        let best = longest_match(text, defs.drop_last());
        match regex_find(defs.last().1, text) {
            Some((start, end)) => match best {
                Some((best_start, best_end, _)) => if end - start > best_end - best_start {
                    Some((start, end, defs.last().0))
                } else {
                    best
                },
                None => Some((start, end, defs.last().0)),
            },
            None => best,
        }
    }
}

/// The tokens of `text`. White space separates tokens and is dropped, as are
/// comments; otherwise the longest match of a token definition makes the next
/// token. A match that would consume nothing counts as no match.
pub open spec fn spec_lex(text: Seq<char>) -> Result<Seq<TokenModel>, LexErrorModel>
    decreases text.len(), 1nat,
{
    if text.len() == 0 {
        Ok(seq![])
    } else if is_white_space(text[0]) {
        spec_lex(text.drop_first())
    } else {
        let after_comment = match comment_span(text) {
            Some((start, end)) => if consumes(text, start as int, end as int) {
                Some(after_span(text, start as int, end as int))
            } else {
                None
            },
            None => None,
        };
        match after_comment {
            Some(rest) => spec_lex(rest),
            None => spec_lex_token(text),
        }
    }
}

/// The token at the start of `text`, which is neither white space nor a
/// comment, followed by the tokens of the rest.
pub open spec fn spec_lex_token(text: Seq<char>) -> Result<Seq<TokenModel>, LexErrorModel>
    decreases text.len(), 0nat,
{
    match longest_match(text, other_definitions()) {
        Some((start, end, kind)) => if consumes(text, start as int, end as int) {
            match make_token(kind, span_text(text, start as int, end as int)) {
                Ok(token) => match spec_lex(after_span(text, start as int, end as int)) {
                    Ok(rest) => Ok(seq![token] + rest),
                    Err(err) => Err(err),
                },
                Err(err) => Err(err),
            }
        } else {
            Err(LexErrorModel::InvalidToken(first_word(text)))
        },
        None => Err(LexErrorModel::InvalidToken(first_word(text))),
    }
}

pub open spec fn tokens_model(tokens: Seq<Token>) -> Seq<TokenModel> {
    tokens.map_values(|t: Token| t@)
}

pub open spec fn lex_chain(done: Seq<TokenModel>, r: Result<Seq<TokenModel>, LexErrorModel>) -> Result<
    Seq<TokenModel>,
    LexErrorModel,
> {
    match r {
        Ok(rest) => Ok(done + rest),
        Err(err) => Err(err),
    }
}

/// A match of a token definition: its byte span and the kind of token.
struct Capture {
    start: usize,
    end: usize,
    token_type: Token,
}

/// The longest of the spans, the first of equally long ones, with its index.
pub open spec fn longest_span(spans: Seq<Option<(usize, usize)>>) -> Option<(usize, usize, int)>
    decreases spans.len(),
{
    if spans.len() == 0 {
        None
    } else {
        let best = longest_span(spans.drop_last());
        match spans.last() {
            Some((start, end)) => match best {
                Some((best_start, best_end, _)) => if end - start > best_end - best_start {
                    Some((start, end, spans.len() - 1))
                } else {
                    best
                },
                None => Some((start, end, spans.len() - 1)),
            },
            None => best,
        }
    }
}

/// Where the pattern of each definition matches `text`.
pub open spec fn match_spans(text: Seq<char>, defs: Seq<(TokenModel, Seq<char>)>) -> Seq<Option<(usize, usize)>> {
    Seq::new(defs.len(), |i: int| regex_find(defs[i].1, text))
}

proof fn lemma_longest_span_index(spans: Seq<Option<(usize, usize)>>)
    ensures
        longest_span(spans) matches Some((_, _, i)) ==> 0 <= i < spans.len(),
    decreases spans.len(),
{
    if spans.len() > 0 {
        lemma_longest_span_index(spans.drop_last());
    }
}

/// The longest match among the definitions is the longest of their spans.
proof fn lemma_longest_match_by_spans(text: Seq<char>, defs: Seq<(TokenModel, Seq<char>)>)
    ensures
        longest_match(text, defs) == match longest_span(match_spans(text, defs)) {
            Some((start, end, i)) => Some((start, end, defs[i].0)),
            None => None::<(usize, usize, TokenModel)>,
        },
    decreases defs.len(),
{
    if defs.len() > 0 {
        let init = defs.drop_last();
        lemma_longest_match_by_spans(text, init);
        lemma_longest_span_index(match_spans(text, init));
        assert(match_spans(text, init) =~= match_spans(text, defs).drop_last());
        match longest_span(match_spans(text, init)) {
            Some((_, _, i)) => assert(init[i] == defs[i]),
            None => {},
        }
    }
}

/// The longest of the spans, and of equally long ones the first, with its
/// index; none where every entry is none.
pub fn select_longest(spans: &Vec<Option<(usize, usize)>>) -> (result: Option<(usize, usize, usize)>)
    requires
        forall|i: int| 0 <= i < spans@.len() ==> (#[trigger] spans@[i] matches Some((start, end)) ==> start <= end),
    ensures
        match result {
            Some((start, end, i)) => longest_span(spans@) == Some((start, end, i as int)),
            None => longest_span(spans@) is None,
        },
{
    let mut best: Option<(usize, usize, usize)> = None;
    let mut i: usize = 0;
    proof {
        assert(spans@.take(0) =~= seq![]);
    }
    while i < spans.len()
        invariant
            i <= spans.len(),
            forall|j: int| 0 <= j < spans@.len() ==> (#[trigger] spans@[j] matches Some((start, end)) ==> start <= end),
            match best {
                Some((start, end, k)) => longest_span(spans@.take(i as int)) == Some((start, end, k as int)) && start
                    <= end,
                None => longest_span(spans@.take(i as int)) is None,
            },
        decreases spans.len() - i,
    {
        proof {
            assert(spans@.take(i + 1).drop_last() =~= spans@.take(i as int));
            assert(spans@.take(i + 1).last() == spans@[i as int]);
        }
        if let Some((start, end)) = spans[i] {
            let longer = match best {
                Some((best_start, best_end, _)) => end - start > best_end - best_start,
                None => true,
            };
            if longer {
                best = Some((start, end, i));
            }
        }
        i = i + 1;
    }
    proof {
        assert(spans@.take(spans@.len() as int) =~= spans@);
    }
    best
}

/// The index of the first entry that holds, if any.
pub fn select_keyword(matches: &Vec<bool>) -> (result: Option<usize>)
    ensures
        match result {
            Some(i) => i < matches@.len() && matches@[i as int] && forall|j: int| 0 <= j < i ==> !#[trigger] matches@[j],
            None => forall|j: int| 0 <= j < matches@.len() ==> !#[trigger] matches@[j],
        },
{
    let mut i: usize = 0;
    while i < matches.len()
        invariant
            i <= matches.len(),
            forall|j: int| 0 <= j < i ==> !#[trigger] matches@[j],
        decreases matches.len() - i,
    {
        if matches[i] {
            return Some(i);
        }
        i = i + 1;
    }
    None
}

proof fn lemma_keyword_match_first(text: Seq<char>, kws: Seq<(TokenModel, Seq<char>)>, i: int)
    requires
        0 <= i < kws.len(),
        regex_find(kws[i].1, text) is Some,
        forall|j: int| 0 <= j < i ==> regex_find(#[trigger] kws[j].1, text) is None,
    ensures
        keyword_match(text, kws) == Some(kws[i].0),
    decreases i,
{
    if i > 0 {
        assert(regex_find(kws[0].1, text) is None);
        assert forall|j: int| 0 <= j < i - 1 implies regex_find(#[trigger] kws.drop_first()[j].1, text) is None by {
            assert(kws.drop_first()[j] == kws[j + 1]);
        }
        lemma_keyword_match_first(text, kws.drop_first(), i - 1);
    }
}

proof fn lemma_keyword_match_none(text: Seq<char>, kws: Seq<(TokenModel, Seq<char>)>)
    requires
        forall|j: int| 0 <= j < kws.len() ==> regex_find(#[trigger] kws[j].1, text) is None,
    ensures
        keyword_match(text, kws) is None,
    decreases kws.len(),
{
    if kws.len() > 0 {
        assert(regex_find(kws[0].1, text) is None);
        assert forall|j: int| 0 <= j < kws.len() - 1 implies regex_find(#[trigger] kws.drop_first()[j].1, text) is None by {
            assert(kws.drop_first()[j] == kws[j + 1]);
        }
        lemma_keyword_match_none(text, kws.drop_first());
    }
}

impl Token {
    /// The token that a match of a definition of kind `token_type` makes of the
    /// matched text `token_value`: a keyword, an identifier, a constant or the
    /// token itself. A constant's text must parse as an `i32`.
    fn new(token_value: &str, token_type: &Token, keywords: &Vec<TokenDefinition>) -> (result: Token)
        requires
            definitions_model(keywords@) == keyword_definitions(),
            make_token(token_type@, token_value@) is Ok,
        ensures
            make_token(token_type@, token_value@) == Ok::<TokenModel, LexErrorModel>(result@),
    {
        match token_type {
            Token::Identifier(_) => {
                let ghost kws = keyword_definitions();
                let mut matches: Vec<bool> = Vec::new();
                let mut i: usize = 0;
                while i < keywords.len()
                    invariant
                        i <= keywords.len(),
                        kws == definitions_model(keywords@),
                        matches@.len() == i,
                        forall|j: int| 0 <= j < i ==> #[trigger] matches@[j] == (regex_find(kws[j].1, token_value@) is Some),
                    decreases keywords.len() - i,
                {
                    assert(kws[i as int] == keywords@[i as int]@);
                    matches.push(find_match(keywords[i].pattern, token_value).is_some());
                    i = i + 1;
                }
                match select_keyword(&matches) {
                    Some(k) => {
                        proof {
                            assert forall|j: int| 0 <= j < k implies regex_find(#[trigger] kws[j].1, token_value@) is None by {
                                assert(!matches@[j]);
                            }
                            assert(matches@[k as int]);
                            lemma_keyword_match_first(token_value@, kws, k as int);
                            assert(kws[k as int] == keywords@[k as int]@);
                        }
                        keywords[k].token_type.clone()
                    },
                    None => {
                        proof {
                            assert forall|j: int| 0 <= j < kws.len() implies regex_find(#[trigger] kws[j].1, token_value@) is None by {
                                assert(!matches@[j]);
                            }
                            lemma_keyword_match_none(token_value@, kws);
                        }
                        let mut name = String::new();
                        name.append(token_value);
                        Token::Identifier(name)
                    },
                }
            },
            Token::Constant(_) => Token::Constant(parse_i32(token_value).unwrap()),
            token => token.clone(),
        }
    }
}

/// Of the definitions whose pattern matches `file`, the one with the longest
/// match; of equally long ones the first.
fn find_longest_match(file: &str, definitions: &Vec<TokenDefinition>) -> (result: Option<Capture>)
    ensures
        longest_match(file@, definitions_model(definitions@)) == match result {
            Some(c) => Some((c.start, c.end, c.token_type@)),
            None => None::<(usize, usize, TokenModel)>,
        },
        result matches Some(c) ==> c.start <= c.end && source_text::boundary(file@, c.start as int)
            && source_text::boundary(file@, c.end as int),
{
    let ghost defs = definitions_model(definitions@);
    let mut spans: Vec<Option<(usize, usize)>> = Vec::new();
    let mut i: usize = 0;
    while i < definitions.len()
        invariant
            i <= definitions.len(),
            defs == definitions_model(definitions@),
            spans@.len() == i,
            forall|j: int| 0 <= j < i ==> #[trigger] spans@[j] == regex_find(defs[j].1, file@),
            forall|j: int|
                0 <= j < i ==> (#[trigger] spans@[j] matches Some((start, end)) ==> start <= end && source_text::boundary(
                    file@,
                    start as int,
                ) && source_text::boundary(file@, end as int)),
        decreases definitions.len() - i,
    {
        assert(defs[i as int] == definitions@[i as int]@);
        spans.push(find_match(definitions[i].pattern, file));
        i = i + 1;
    }
    proof {
        assert(spans@ =~= match_spans(file@, defs));
        lemma_longest_match_by_spans(file@, defs);
        lemma_longest_span_index(spans@);
    }
    match select_longest(&spans) {
        Some((start, end, k)) => {
            proof {
                assert(defs[k as int] == definitions@[k as int]@);
                assert(spans@[k as int] == Some((start, end))) by {
                    lemma_longest_span_is_entry(spans@);
                }
            }
            Some(Capture { start, end, token_type: definitions[k].token_type.clone() })
        },
        None => None,
    }
}

proof fn lemma_longest_span_is_entry(spans: Seq<Option<(usize, usize)>>)
    ensures
        longest_span(spans) matches Some((start, end, i)) ==> 0 <= i < spans.len() && spans[i] == Some((start, end)),
    decreases spans.len(),
{
    if spans.len() > 0 {
        lemma_longest_span_is_entry(spans.drop_last());
        lemma_longest_span_index(spans.drop_last());
        match longest_span(spans.drop_last()) {
            Some((_, _, i)) => assert(spans.drop_last()[i] == spans[i]),
            None => {},
        }
    }
}

/// The span of a comment at the start of `file`, if one starts there.
fn check_if_comment(file: &str) -> (result: Option<(usize, usize)>)
    ensures
        result == comment_span(file@),
        result matches Some((start, end)) ==> start <= end && source_text::boundary(file@, start as int)
            && source_text::boundary(file@, end as int),
{
    let bytes = file.as_bytes();
    let n = bytes.len();
    let ghost b = encode_utf8(file@);
    proof {
        assert(bytes@ == b);
        encode_utf8_valid_utf8(file@);
        is_char_boundary_start_end_of_seq(b);
    }
    if n < 2 || bytes[0] != 0x2f {
        return None;
    }
    if bytes[1] == 0x2f {
        let mut i: usize = 2;
        while i < n && bytes[i] != 0x0a && bytes[i] != 0x0d
            invariant
                2 <= i <= n,
                n == b.len(),
                bytes@ == b,
                line_comment_end(b, 2) == line_comment_end(b, i as int),
            decreases n - i,
        {
            i = i + 1;
        }
        proof {
            if i < n {
                lemma_ascii_byte_boundaries(file@, i as int);
            }
        }
        return Some((0, i));
    }
    if bytes[1] == 0x2a {
        let mut i: usize = 2;
        while i < n && n - i >= 3
            invariant
                2 <= i <= n,
                n == b.len(),
                bytes@ == b,
                b == encode_utf8(file@),
                b[0] == 0x2f && b[1] == 0x2a,
                source_text::boundary(file@, 0),
                block_comment_end(b, 2) == block_comment_end(b, i as int),
            decreases n - i,
        {
            if bytes[i] == 0x20 && bytes[i + 1] == 0x2a && bytes[i + 2] == 0x2f {
                proof {
                    lemma_ascii_byte_boundaries(file@, i + 2);
                }
                return Some((0, i + 3));
            }
            i = i + 1;
        }
        return None;
    }
    None
}

/// Splits a text into tokens.
pub fn lex(file: &str) -> (result: Result<Vec<Token>, LexError>)
    ensures
        spec_lex(file@) == match result {
            Ok(tokens) => Ok(tokens_model(tokens@)),
            Err(err) => Err::<Seq<TokenModel>, LexErrorModel>(err@),
        },
{
    let keywords = keyword_token_definitions();
    let others = other_token_definitions();
    let mut tokens: Vec<Token> = Vec::new();
    let mut rest: &str = file;
    proof {
        assert(tokens_model(tokens@) =~= Seq::<TokenModel>::empty());
        if let Ok(all) = spec_lex(file@) {
            assert(Seq::<TokenModel>::empty() + all =~= all);
        }
    }
    while !rest.is_empty()
        invariant
            definitions_model(keywords@) == keyword_definitions(),
            definitions_model(others@) == other_definitions(),
            spec_lex(file@) == lex_chain(tokens_model(tokens@), spec_lex(rest@)),
        decreases rest@.len(),
    {
        let ghost text = rest@;
        let (c, after_c) = split_first_char(rest);
        if is_whitespace(c) {
            rest = after_c;
            continue;
        }
        if let Some((start, end)) = check_if_comment(rest) {
            let (_, after) = split_span(rest, start, end);
            if end > 0 {
                rest = after;
                continue;
            }
        }
        proof {
            assert(spec_lex(text) == spec_lex_token(text));
        }
        match find_longest_match(rest, &others) {
            Some(capture) => {
                let (matched, after) = split_span(rest, capture.start, capture.end);
                if capture.end == 0 {
                    return Err(LexError::InvalidToken(take_first_word(rest)));
                }
                if let Token::Constant(_) = capture.token_type {
                    if parse_i32(matched).is_none() {
                        return Err(LexError::InvalidConstant(matched.to_owned()));
                    }
                }
                let token = Token::new(matched, &capture.token_type, &keywords);
                proof {
                    assert(tokens_model(tokens@.push(token)) =~= tokens_model(tokens@).push(token@));
                    match spec_lex(after@) {
                        Ok(ts) => {
                            assert(tokens_model(tokens@) + (seq![token@] + ts) =~= tokens_model(tokens@).push(token@) + ts);
                        },
                        Err(_) => {},
                    }
                }
                tokens.push(token);
                rest = after;
            },
            None => {
                return Err(LexError::InvalidToken(take_first_word(rest)));
            },
        }
    }
    proof {
        assert(tokens_model(tokens@) + seq![] =~= tokens_model(tokens@));
    }
    Ok(tokens)
}

/// The length in bytes of a match, or zero for none.
pub open spec fn span_len(m: Option<(usize, usize)>) -> int {
    match m {
        Some((start, end)) => end - start,
        None => 0,
    }
}

/// Maximal munch: the match that makes the next token is one of the
/// definitions' matches, none is longer, and every earlier definition's match is
/// shorter; when no definition matches there is none.
pub proof fn lemma_longest_match_is_longest(text: Seq<char>, defs: Seq<(TokenModel, Seq<char>)>)
    ensures
        match longest_match(text, defs) {
            None => forall|j: int| 0 <= j < defs.len() ==> regex_find(#[trigger] defs[j].1, text) is None,
            Some((start, end, kind)) => exists|i: int|
                #![trigger defs[i]]
                {
                    &&& 0 <= i < defs.len()
                    &&& regex_find(defs[i].1, text) == Some((start, end))
                    &&& defs[i].0 == kind
                    &&& forall|j: int|
                        0 <= j < defs.len() && #[trigger] regex_find(defs[j].1, text) is Some ==> span_len(regex_find(defs[j].1, text)) <= end - start
                    &&& forall|j: int|
                        0 <= j < i && #[trigger] regex_find(defs[j].1, text) is Some ==> span_len(regex_find(defs[j].1, text)) < end - start
                },
        },
    decreases defs.len(),
{
    if defs.len() > 0 {
        let init = defs.drop_last();
        lemma_longest_match_is_longest(text, init);
        let n = defs.len() - 1;
        assert forall|j: int| 0 <= j < n implies #[trigger] defs[j] == init[j] by {}
        match longest_match(text, init) {
            None => {
                match regex_find(defs.last().1, text) {
                    Some((start, end)) => {
                        assert(defs[n] == defs.last());
                        assert forall|j: int| 0 <= j < defs.len() && #[trigger] regex_find(defs[j].1, text) is Some
                            implies j == n by {
                            if j < n {
                                assert(defs[j] == init[j]);
                            }
                        }
                    },
                    None => {
                        assert forall|j: int| 0 <= j < defs.len() implies regex_find(#[trigger] defs[j].1, text) is None by {
                            if j < n {
                                assert(defs[j] == init[j]);
                            }
                        }
                    },
                }
            },
            Some((bs, be, bk)) => {
                let bi = choose|i: int|
                    #![trigger init[i]]
                    {
                        &&& 0 <= i < init.len()
                        &&& regex_find(init[i].1, text) == Some((bs, be))
                        &&& init[i].0 == bk
                        &&& forall|j: int|
                            0 <= j < init.len() && #[trigger] regex_find(init[j].1, text) is Some ==> span_len(regex_find(init[j].1, text)) <= be - bs
                        &&& forall|j: int|
                            0 <= j < i && #[trigger] regex_find(init[j].1, text) is Some ==> span_len(regex_find(init[j].1, text)) < be - bs
                    };
                assert(defs[bi] == init[bi]);
                assert(defs[n] == defs.last());
                match regex_find(defs.last().1, text) {
                    Some((start, end)) => {
                        if end - start > be - bs {
                            assert forall|j: int| 0 <= j < defs.len() && #[trigger] regex_find(defs[j].1, text) is Some
                                implies span_len(regex_find(defs[j].1, text)) <= end - start by {
                                if j < n {
                                    assert(defs[j] == init[j]);
                                }
                            }
                            assert forall|j: int| 0 <= j < n && #[trigger] regex_find(defs[j].1, text) is Some
                                implies span_len(regex_find(defs[j].1, text)) < end - start by {
                                assert(defs[j] == init[j]);
                            }
                        } else {
                            assert forall|j: int| 0 <= j < defs.len() && #[trigger] regex_find(defs[j].1, text) is Some
                                implies span_len(regex_find(defs[j].1, text)) <= be - bs by {
                                if j < n {
                                    assert(defs[j] == init[j]);
                                }
                            }
                            assert forall|j: int| 0 <= j < bi && #[trigger] regex_find(defs[j].1, text) is Some
                                implies span_len(regex_find(defs[j].1, text)) < be - bs by {
                                assert(defs[j] == init[j]);
                            }
                        }
                    },
                    None => {
                        assert forall|j: int| 0 <= j < defs.len() && #[trigger] regex_find(defs[j].1, text) is Some
                            implies span_len(regex_find(defs[j].1, text)) <= be - bs by {
                            if j < n {
                                assert(defs[j] == init[j]);
                            }
                        }
                        assert forall|j: int| 0 <= j < bi && #[trigger] regex_find(defs[j].1, text) is Some
                            implies span_len(regex_find(defs[j].1, text)) < be - bs by {
                            assert(defs[j] == init[j]);
                        }
                    },
                }
            },
        }
    }
}

/// White space before a text changes nothing of its tokens.
pub proof fn lemma_white_space_is_skipped(c: char, text: Seq<char>)
    requires
        is_white_space(c),
    ensures
        spec_lex(seq![c] + text) == spec_lex(text),
{
    assert((seq![c] + text).drop_first() =~= text);
}

} // verus!
