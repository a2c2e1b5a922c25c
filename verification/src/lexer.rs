//! Tokens of the source language and the lexer that produces them.

use crate::text::{between_ends, decimal_i16, parse_decimal, string_push, strip_ends};
use vstd::prelude::*;
use vstd::string::StrSliceExecFns;

verus! {

/// One token of the source language.
#[derive(Debug, Clone, PartialEq, Eq)]
pub enum Token {
    Int,
    Str,
    While,
    OpenParen,
    CloseParen,
    Assign,
    Equals,
    Print,
    OpenBrace,
    CloseBrace,
    WhiteSpace,
    Semi,
    If,
    Ignore,
    Times,
    Plus,
    Bool,
    EOF,
    GT,
    LT,
    Name(String),
    StringLit(String),
    IntLit(i16),
}

/// The kind of a token, without the text or number it carries.
#[derive(Debug, Clone, Copy, PartialEq, Eq, Structural)]
pub enum RawToken {
    Int,
    Str,
    While,
    OpenParen,
    CloseParen,
    Assign,
    Equals,
    Print,
    OpenBrace,
    CloseBrace,
    WhiteSpace,
    Semi,
    If,
    Ignore,
    Times,
    Plus,
    Bool,
    EOF,
    Name,
    StringLit,
    IntLit,
    GT,
    LT,
}

/// Tokens that carry data on their own. There is none: names, string
/// literals and integer literals are kinds of [`Token`], and this type has no
/// value.
pub type DataToken = core::convert::Infallible;

/// A token stream, in source order.
pub type Lexeme = Vec<Token>;

/// The mathematical value of a token: its kind, the text it carries (empty
/// unless it is a name or a string literal) and the number it carries (zero
/// unless it is an integer literal).
pub struct TokenView {
    pub kind: RawToken,
    pub text: Seq<char>,
    pub value: i16,
}

impl Token {
    /// The kind of this token.
    pub open spec fn kind(self) -> RawToken {
        match self {
            Token::Int => RawToken::Int,
            Token::Str => RawToken::Str,
            Token::While => RawToken::While,
            Token::OpenParen => RawToken::OpenParen,
            Token::CloseParen => RawToken::CloseParen,
            Token::Assign => RawToken::Assign,
            Token::Equals => RawToken::Equals,
            Token::Print => RawToken::Print,
            Token::OpenBrace => RawToken::OpenBrace,
            Token::CloseBrace => RawToken::CloseBrace,
            Token::WhiteSpace => RawToken::WhiteSpace,
            Token::Semi => RawToken::Semi,
            Token::If => RawToken::If,
            Token::Ignore => RawToken::Ignore,
            Token::Times => RawToken::Times,
            Token::Plus => RawToken::Plus,
            Token::Bool => RawToken::Bool,
            Token::EOF => RawToken::EOF,
            Token::GT => RawToken::GT,
            Token::LT => RawToken::LT,
            Token::Name(_) => RawToken::Name,
            Token::StringLit(_) => RawToken::StringLit,
            Token::IntLit(_) => RawToken::IntLit,
        }
    }

    /// The text that a name or a string literal carries.
    pub open spec fn text(self) -> Seq<char> {
        match self {
            Token::Name(s) => s@,
            Token::StringLit(s) => s@,
            _ => Seq::empty(),
        }
    }

    /// The number that an integer literal carries.
    pub open spec fn value(self) -> i16 {
        match self {
            Token::IntLit(n) => n,
            _ => 0,
        }
    }
}

impl View for Token {
    type V = TokenView;

    open spec fn view(&self) -> TokenView {
        TokenView { kind: self.kind(), text: self.text(), value: self.value() }
    }
}

impl DeepView for Token {
    type V = TokenView;

    open spec fn deep_view(&self) -> TokenView {
        self.view()
    }
}

impl TokenView {
    /// The view of a token that carries nothing but its kind.
    pub open spec fn plain(kind: RawToken) -> TokenView {
        TokenView { kind, text: Seq::empty(), value: 0 }
    }
}

/// The token at position `p`, and end of input past either end of the stream.
pub open spec fn token_at(ts: Seq<TokenView>, p: int) -> TokenView {
    if 0 <= p < ts.len() {
        ts[p]
    } else {
        TokenView::plain(RawToken::EOF)
    }
}

/// A token stream is terminated when its last token is end of input.
pub open spec fn terminated(ts: Seq<TokenView>) -> bool {
    ts.len() > 0 && ts.last().kind == RawToken::EOF
}

/// Why a source text has no token stream.
#[derive(Debug, Clone, Copy, PartialEq, Eq, Structural)]
pub enum LexError {
    /// The input ends in characters that match no token pattern.
    Unrecognized,
    /// An integer literal does not fit in 16 bits.
    BadNumber,
    /// The pattern compiler refused the token patterns.
    Patterns,
}

/// `regex::RegexSet`: a set of compiled patterns.
#[verifier::external_type_specification]
#[verifier::external_body]
pub struct ExRegexSet(regex::RegexSet);

/// `regex::Error`: why a pattern did not compile.
#[verifier::external_type_specification]
#[verifier::external_body]
pub struct ExRegexError(regex::Error);

/// The patterns that a pattern set was compiled from, in the order given.
pub uninterp spec fn set_patterns(set: regex::RegexSet) -> Seq<Seq<char>>;

/// Whether a pattern set was compiled with the options that the regex crate
/// starts from.
pub uninterp spec fn default_options(set: regex::RegexSet) -> bool;

/// Whether the regular expression `pattern`, compiled with the options that
/// the regex crate starts from, matches `text`.
pub uninterp spec fn pattern_matches(pattern: Seq<char>, text: Seq<char>) -> bool;

/// Whether the regex crate, with the options that it starts from, compiles
/// `patterns` into one set: every pattern is a regular expression, and the
/// set is not too large.
pub uninterp spec fn patterns_compile(patterns: Seq<Seq<char>>) -> bool;

/// `RegexSet::new` of the regex crate: compiles `patterns` into one set, with
/// the options that the crate starts from. Whether it succeeds depends on
/// the patterns alone. When it does, the set holds exactly these patterns in
/// this order.
#[verifier::external_body]
fn compile_patterns(patterns: &Vec<&str>) -> (r: Result<regex::RegexSet, regex::Error>)
    ensures
        r is Ok <==> patterns_compile(patterns@.map_values(|p: &str| p@)),
        r matches Ok(set) ==> default_options(set) && set_patterns(set) == patterns@.map_values(
            |p: &str| p@,
        ),
{
    regex::RegexSet::new(patterns)
}

/// `RegexSet::matches` of the regex crate, with the set it returns listed as
/// the crate iterates it: the positions of the patterns of `set` that match
/// `text`, each once, in ascending order.
#[verifier::external_body]
fn matching_patterns(set: &regex::RegexSet, text: &str) -> (r: Vec<usize>)
    requires
        default_options(*set),
    ensures
        forall|k: int|
            0 <= k < r.len() ==> (#[trigger] r[k]) < set_patterns(*set).len() && pattern_matches(
                set_patterns(*set)[r[k] as int],
                text@,
            ),
        forall|i: int|
            0 <= i < set_patterns(*set).len() && pattern_matches(
                #[trigger] set_patterns(*set)[i],
                text@,
            ) ==> r@.contains(i as usize),
        forall|j: int, k: int| 0 <= j < k < r.len() ==> r[j] < r[k],
{
    set.matches(text).into_iter().collect()
}

/// The token patterns, in the order in which they are tried.
pub open spec fn token_patterns() -> Seq<Seq<char>> {
    seq![
        r"^int$"@,
        r"^str$"@,
        r"^bool$"@,
        r"^while$"@,
        r#"^"([^"\\]|\\.)*"$"#@,
        r"^[0-9]+$"@,
        r"^\($"@,
        r"^\)$"@,
        r"^=$"@,
        r"^==$"@,
        r"^>$"@,
        r"^<$"@,
        r"^print$"@,
        r"^\{$"@,
        r"^}$"@,
        r"^[ \n\t\r]$"@,
        r"^;$"@,
        r"^if$"@,
        r"^\*$"@,
        r"^\+$"@,
        r"^[A-Za-z]([A-Za-z]|[0-9])*$"@,
    ]
}

/// The kind of token that the pattern at position `i` recognizes.
pub open spec fn pattern_kind(i: int) -> Option<RawToken> {
    if i == 0 {
        Some(RawToken::Int)
    } else if i == 1 {
        Some(RawToken::Str)
    } else if i == 2 {
        Some(RawToken::Bool)
    } else if i == 3 {
        Some(RawToken::While)
    } else if i == 4 {
        Some(RawToken::StringLit)
    } else if i == 5 {
        Some(RawToken::IntLit)
    } else if i == 6 {
        Some(RawToken::OpenParen)
    } else if i == 7 {
        Some(RawToken::CloseParen)
    } else if i == 8 {
        Some(RawToken::Assign)
    } else if i == 9 {
        Some(RawToken::Equals)
    } else if i == 10 {
        Some(RawToken::GT)
    } else if i == 11 {
        Some(RawToken::LT)
    } else if i == 12 {
        Some(RawToken::Print)
    } else if i == 13 {
        Some(RawToken::OpenBrace)
    } else if i == 14 {
        Some(RawToken::CloseBrace)
    } else if i == 15 {
        Some(RawToken::WhiteSpace)
    } else if i == 16 {
        Some(RawToken::Semi)
    } else if i == 17 {
        Some(RawToken::If)
    } else if i == 18 {
        Some(RawToken::Times)
    } else if i == 19 {
        Some(RawToken::Plus)
    } else if i == 20 {
        Some(RawToken::Name)
    } else {
        None
    }
}

/// The position of the first pattern, from position `from` on, that matches
/// `text`.
pub open spec fn first_match(patterns: Seq<Seq<char>>, text: Seq<char>, from: int) -> Option<int>
    decreases patterns.len() - from,
{
    if from < 0 || from >= patterns.len() {
        None
    } else if pattern_matches(patterns[from], text) {
        Some(from)
    } else {
        first_match(patterns, text, from + 1)
    }
}

/// The kind of token that `text` is as a whole: that of the first token
/// pattern that matches it.
pub open spec fn classify(text: Seq<char>) -> Option<RawToken> {
    match first_match(token_patterns(), text, 0) {
        Some(i) => pattern_kind(i),
        None => None,
    }
}

/// The token of kind `kind` that the matched text `data` gives. A name keeps
/// its text, a string literal the text between its two quotes, escapes as
/// they stand, and an integer literal the number that its digits stand for.
pub open spec fn token_of(kind: RawToken, data: Seq<char>) -> Result<TokenView, LexError> {
    match kind {
        RawToken::Name => Ok(TokenView { kind, text: data, value: 0 }),
        RawToken::StringLit => Ok(TokenView { kind, text: between_ends(data), value: 0 }),
        RawToken::IntLit => match decimal_i16(data) {
            Some(value) => Ok(TokenView { kind, text: Seq::empty(), value: value as i16 }),
            None => Err(LexError::BadNumber),
        },
        _ => Ok(TokenView::plain(kind)),
    }
}

impl RawToken {
    /// Makes the token of this kind from the text that was matched.
    pub fn into_token(self, data: &str) -> (r: Result<Token, LexError>)
        ensures
            match token_of(self, data@) {
                Ok(view) => r matches Ok(token) && token@ == view,
                Err(e) => r matches Err(f) && f == e,
            },
    {
        match self {
            RawToken::Int => Ok(Token::Int),
            RawToken::Str => Ok(Token::Str),
            RawToken::While => Ok(Token::While),
            RawToken::OpenParen => Ok(Token::OpenParen),
            RawToken::CloseParen => Ok(Token::CloseParen),
            RawToken::Assign => Ok(Token::Assign),
            RawToken::Equals => Ok(Token::Equals),
            RawToken::Print => Ok(Token::Print),
            RawToken::OpenBrace => Ok(Token::OpenBrace),
            RawToken::CloseBrace => Ok(Token::CloseBrace),
            RawToken::WhiteSpace => Ok(Token::WhiteSpace),
            RawToken::Semi => Ok(Token::Semi),
            RawToken::If => Ok(Token::If),
            RawToken::Ignore => Ok(Token::Ignore),
            RawToken::Times => Ok(Token::Times),
            RawToken::Plus => Ok(Token::Plus),
            RawToken::Bool => Ok(Token::Bool),
            RawToken::EOF => Ok(Token::EOF),
            RawToken::GT => Ok(Token::GT),
            RawToken::LT => Ok(Token::LT),
            RawToken::Name => Ok(Token::Name(data.to_owned())),
            RawToken::StringLit => Ok(Token::StringLit(strip_ends(data))),
            RawToken::IntLit => match parse_decimal(data) {
                Some(value) => Ok(Token::IntLit(value)),
                None => Err(LexError::BadNumber),
            },
        }
    }
}

/// What the lexer holds between two characters: the text gathered since
/// the last token, and the tokens found so far.
pub struct LexState {
    pub prev: Seq<char>,
    pub out: Seq<TokenView>,
}

/// The tokens found so far, with the token that the matched text `text`
/// gives added; white space adds nothing.
pub open spec fn emitted(out: Seq<TokenView>, text: Seq<char>) -> Result<Seq<TokenView>, LexError> {
    match classify(text) {
        None => Ok(out),
        Some(RawToken::WhiteSpace) => Ok(out),
        Some(kind) => match token_of(kind, text) {
            Ok(token) => Ok(out.push(token)),
            Err(e) => Err(e),
        },
    }
}

/// One step of the lexer, on the character `c`. The gathered text grows by
/// `c` if it is a token with it, or if it is no token without it either.
/// Otherwise the gathered text is a token: it is put out, and `c` starts the
/// next one.
pub open spec fn lex_step(state: LexState, c: char) -> Result<LexState, LexError> {
    if classify(state.prev.push(c)) is Some || classify(state.prev) is None {
        Ok(LexState { prev: state.prev.push(c), out: state.out })
    } else {
        match emitted(state.out, state.prev) {
            Ok(out) => Ok(LexState { prev: seq![c], out }),
            Err(e) => Err(e),
        }
    }
}

/// The state of the lexer after the characters of `src`.
pub open spec fn lex_run(src: Seq<char>) -> Result<LexState, LexError>
    decreases src.len(),
{
    if src.len() == 0 {
        Ok(LexState { prev: Seq::empty(), out: Seq::empty() })
    } else {
        match lex_run(src.drop_last()) {
            Ok(state) => lex_step(state, src.last()),
            Err(e) => Err(e),
        }
    }
}

/// The token stream of `src`. After the last character the gathered text
/// must be a token, unless nothing was gathered at all; the end of input
/// closes the stream.
pub open spec fn lex(src: Seq<char>) -> Result<Seq<TokenView>, LexError> {
    match lex_run(src) {
        Err(e) => Err(e),
        Ok(state) => {
            if classify(state.prev) is None && state.prev.len() > 0 {
                Err(LexError::Unrecognized)
            } else {
                match emitted(state.out, state.prev) {
                    Ok(out) => Ok(out.push(TokenView::plain(RawToken::EOF))),
                    Err(e) => Err(e),
                }
            }
        },
    }
}

/// No token but the last is the end of input, and white space is no token.
pub open spec fn clean(ts: Seq<TokenView>) -> bool {
    &&& terminated(ts)
    &&& forall|i: int| 0 <= i < ts.len() - 1 ==> (#[trigger] ts[i]).kind != RawToken::EOF
    &&& forall|i: int| 0 <= i < ts.len() ==> (#[trigger] ts[i]).kind != RawToken::WhiteSpace
}

/// Whether `ts` holds neither an end of input nor white space.
pub open spec fn inner(ts: Seq<TokenView>) -> bool {
    forall|i: int|
        0 <= i < ts.len() ==> (#[trigger] ts[i]).kind != RawToken::EOF && ts[i].kind
            != RawToken::WhiteSpace
}

/// No text is classified as the end of input.
proof fn lemma_classify_kinds(text: Seq<char>)
    ensures
        classify(text) != Some(RawToken::EOF),
{
}

/// Putting out a token adds neither an end of input nor white space.
proof fn lemma_emitted_inner(out: Seq<TokenView>, text: Seq<char>)
    requires
        inner(out),
    ensures
        emitted(out, text) matches Ok(more) ==> inner(more),
{
    lemma_classify_kinds(text);
    if let Ok(more) = emitted(out, text) {
        assert forall|i: int| 0 <= i < more.len() implies (#[trigger] more[i]).kind != RawToken::EOF
            && more[i].kind != RawToken::WhiteSpace by {
            if i < out.len() {
                assert(more[i] == out[i]);
            }
        }
    }
}

/// While the lexer runs it puts out neither an end of input nor white
/// space.
proof fn lemma_lex_run_inner(src: Seq<char>)
    ensures
        lex_run(src) matches Ok(state) ==> inner(state.out),
    decreases src.len(),
{
    if src.len() > 0 {
        lemma_lex_run_inner(src.drop_last());
        if let Ok(state) = lex_run(src.drop_last()) {
            lemma_emitted_inner(state.out, state.prev);
        }
    }
}

/// Every token stream that the lexer gives ends with the end of input, holds
/// no other end of input, and holds no white space.
pub proof fn lemma_lex_clean(src: Seq<char>)
    ensures
        lex(src) matches Ok(ts) ==> clean(ts),
{
    lemma_lex_run_inner(src);
    if let Ok(state) = lex_run(src) {
        lemma_emitted_inner(state.out, state.prev);
        if let Ok(ts) = lex(src) {
            let out = emitted(state.out, state.prev)->Ok_0;
            assert forall|i: int| 0 <= i < ts.len() - 1 implies (#[trigger] ts[i]).kind
                != RawToken::EOF by {
                assert(ts[i] == out[i]);
            }
            assert forall|i: int| 0 <= i < ts.len() implies (#[trigger] ts[i]).kind
                != RawToken::WhiteSpace by {
                if i < out.len() {
                    assert(ts[i] == out[i]);
                }
            }
        }
    }
}

/// An error stays: once the lexer has failed on a prefix of the source, it
/// fails in the same way on the whole.
pub proof fn lemma_lex_run_error(src: Seq<char>, n: int)
    requires
        0 <= n <= src.len(),
        lex_run(src.take(n)) is Err,
    ensures
        lex_run(src) == lex_run(src.take(n)),
    decreases src.len() - n,
{
    if n < src.len() {
        assert(src.take(n + 1).drop_last() =~= src.take(n));
        lemma_lex_run_error(src, n + 1);
    } else {
        assert(src.take(n) =~= src);
    }
}

/// Where no pattern matches there is no first match.
proof fn lemma_no_match(patterns: Seq<Seq<char>>, text: Seq<char>, from: int)
    requires
        0 <= from,
        forall|i: int| from <= i < patterns.len() ==> !pattern_matches(#[trigger] patterns[i], text),
    ensures
        first_match(patterns, text, from) is None,
    decreases patterns.len() - from,
{
    if from < patterns.len() {
        lemma_no_match(patterns, text, from + 1);
    }
}

/// A pattern that matches, with none before it that does, is the first
/// match.
proof fn lemma_first_match(patterns: Seq<Seq<char>>, text: Seq<char>, from: int, at: int)
    requires
        0 <= from <= at < patterns.len(),
        pattern_matches(patterns[at], text),
        forall|i: int| from <= i < at ==> !pattern_matches(#[trigger] patterns[i], text),
    ensures
        first_match(patterns, text, from) == Some(at),
    decreases at - from,
{
    if from < at {
        lemma_first_match(patterns, text, from + 1, at);
    }
}

/// The lexer: the token patterns, compiled.
pub struct Lexer {
    match_set: regex::RegexSet,
}

impl Lexer {
    /// The set holds the token patterns, compiled with the options that the
    /// regex crate starts from.
    #[verifier::type_invariant]
    spec fn holds_token_patterns(&self) -> bool {
        default_options(self.match_set) && set_patterns(self.match_set) == token_patterns()
    }

    /// Compiles the token patterns. There is a lexer exactly if the regex
    /// crate compiles them.
    pub fn new() -> (r: Result<Lexer, LexError>)
        ensures
            r is Ok <==> patterns_compile(token_patterns()),
            r matches Err(e) ==> e == LexError::Patterns,
    {
        let patterns: Vec<&str> = vec![
            r"^int$",
            r"^str$",
            r"^bool$",
            r"^while$",
            r#"^"([^"\\]|\\.)*"$"#,
            r"^[0-9]+$",
            r"^\($",
            r"^\)$",
            r"^=$",
            r"^==$",
            r"^>$",
            r"^<$",
            r"^print$",
            r"^\{$",
            r"^}$",
            r"^[ \n\t\r]$",
            r"^;$",
            r"^if$",
            r"^\*$",
            r"^\+$",
            r"^[A-Za-z]([A-Za-z]|[0-9])*$",
        ];
        assert(patterns@.map_values(|p: &str| p@) =~= token_patterns());
        match compile_patterns(&patterns) {
            Ok(match_set) => Ok(Lexer { match_set }),
            Err(_) => Err(LexError::Patterns),
        }
    }

    /// The kind of token that `txt` is as a whole, if it is one.
    pub fn match_token(&self, txt: &str) -> (r: Option<RawToken>)
        ensures
            r == classify(txt@),
    {
        proof {
            use_type_invariant(self);
        }
        let matches = matching_patterns(&self.match_set, txt);
        let ghost patterns = token_patterns();
        if matches.len() == 0 {
            proof {
                assert forall|i: int| 0 <= i < patterns.len() implies !pattern_matches(
                    #[trigger] patterns[i],
                    txt@,
                ) by {
                    if pattern_matches(patterns[i], txt@) {
                        assert(matches@.contains(i as usize));
                    }
                }
                lemma_no_match(patterns, txt@, 0);
            }
            return None;
        }
        let m: usize = matches[0];
        proof {
            assert(m < patterns.len() && pattern_matches(patterns[m as int], txt@));
            assert forall|i: int| 0 <= i < m implies !pattern_matches(#[trigger] patterns[i], txt@) by {
                if pattern_matches(patterns[i], txt@) {
                    assert(matches@.contains(i as usize));
                    let k = choose|k: int| 0 <= k < matches@.len() && matches@[k] == i as usize;
                    assert(k == 0 || matches[0] < matches[k]);
                }
            }
            lemma_first_match(patterns, txt@, 0, m as int);
            assert(patterns.len() == 21);
        }
        match m {
            0 => Some(RawToken::Int),
            1 => Some(RawToken::Str),
            2 => Some(RawToken::Bool),
            3 => Some(RawToken::While),
            4 => Some(RawToken::StringLit),
            5 => Some(RawToken::IntLit),
            6 => Some(RawToken::OpenParen),
            7 => Some(RawToken::CloseParen),
            8 => Some(RawToken::Assign),
            9 => Some(RawToken::Equals),
            10 => Some(RawToken::GT),
            11 => Some(RawToken::LT),
            12 => Some(RawToken::Print),
            13 => Some(RawToken::OpenBrace),
            14 => Some(RawToken::CloseBrace),
            15 => Some(RawToken::WhiteSpace),
            16 => Some(RawToken::Semi),
            17 => Some(RawToken::If),
            18 => Some(RawToken::Times),
            19 => Some(RawToken::Plus),
            20 => Some(RawToken::Name),
            _ => None,
        }
    }

    /// Splits `code` into tokens. The stream ends with the end of input and
    /// holds no white space.
    pub fn tokenize(&self, code: String) -> (r: Result<Lexeme, LexError>)
        ensures
            match lex(code@) {
                Ok(ts) => r matches Ok(lexeme) && lexeme.deep_view() == ts,
                Err(e) => r matches Err(f) && f == e,
            },
            r matches Ok(lexeme) ==> clean(lexeme.deep_view()),
    {
        let mut lexeme: Vec<Token> = Vec::new();
        let mut prev = String::new();
        assert(lexeme.deep_view() =~= Seq::<TokenView>::empty());
        assert(code@.take(0) =~= Seq::<char>::empty());
        for c in it: code.as_str().chars()
            invariant
                it.seq() == code@,
                lex_run(code@.take(it.index() as int)) == Ok::<LexState, LexError>(
                    LexState { prev: prev@, out: lexeme.deep_view() },
                ),
        {
            let ghost n = it.index() as int;
            let ghost before = LexState { prev: prev@, out: lexeme.deep_view() };
            proof {
                assert(code@.take(n + 1).drop_last() =~= code@.take(n));
                assert(code@.take(n + 1).last() == c);
                assert(lex_run(code@.take(n + 1)) == lex_step(before, c));
            }
            let mut grown = prev.clone();
            string_push(&mut grown, c);
            if self.match_token(grown.as_str()).is_some() {
                prev = grown;
            } else {
                match self.match_token(prev.as_str()) {
                    None => {
                        prev = grown;
                    },
                    Some(tok) => {
                        match tok {
                            RawToken::WhiteSpace => {},
                            _ => {
                                match tok.into_token(prev.as_str()) {
                                    Ok(token) => {
                                        let ghost old_out = lexeme.deep_view();
                                        lexeme.push(token);
                                        assert(lexeme.deep_view() =~= old_out.push(token@));
                                    },
                                    Err(e) => {
                                        proof {
                                            lemma_lex_run_error(code@, n + 1);
                                        }
                                        return Err(e);
                                    },
                                }
                            },
                        }
                        prev = String::new();
                        string_push(&mut prev, c);
                        assert(prev@ =~= seq![c]);
                    },
                }
            }
        }
        proof {
            assert(code@.take(code@.len() as int) =~= code@);
            lemma_lex_clean(code@);
        }
        match self.match_token(prev.as_str()) {
            None => {
                if prev.as_str().unicode_len() > 0 {
                    return Err(LexError::Unrecognized);
                }
            },
            Some(RawToken::WhiteSpace) => {},
            Some(tok) => match tok.into_token(prev.as_str()) {
                Ok(token) => {
                    let ghost old_out = lexeme.deep_view();
                    lexeme.push(token);
                    assert(lexeme.deep_view() =~= old_out.push(token@));
                },
                Err(e) => {
                    return Err(e);
                },
            },
        }
        let ghost old_out = lexeme.deep_view();
        lexeme.push(Token::EOF);
        assert(lexeme.deep_view() =~= old_out.push(TokenView::plain(RawToken::EOF)));
        Ok(lexeme)
    }
}

} // verus!
