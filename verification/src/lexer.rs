//! Lexer for the dialogue script language.
//!
//! The grammar is minimal: a comment starts with `;` and runs to (but never
//! past) a line break; a text line is a `"`-delimited literal; whitespace
//! between tokens is skipped and never represented.

use vstd::prelude::*;

verus! {

/// A character that ends a comment: comments run to a line break.
pub open spec fn is_line_break(c: char) -> bool {
    c == '\r' || c == '\n'
}

/// The characters that `char::is_whitespace` accepts: the Unicode
/// `White_Space` set.
pub open spec fn is_ws_char(c: char) -> bool {
    ||| c == ' '
    ||| c == '\u{0009}'
    ||| c == '\u{000A}'
    ||| c == '\u{000B}'
    ||| c == '\u{000C}'
    ||| c == '\u{000D}'
    ||| c == '\u{0085}'
    ||| c == '\u{00A0}'
    ||| c == '\u{1680}'
    ||| c == '\u{2000}'
    ||| c == '\u{2001}'
    ||| c == '\u{2002}'
    ||| c == '\u{2003}'
    ||| c == '\u{2004}'
    ||| c == '\u{2005}'
    ||| c == '\u{2006}'
    ||| c == '\u{2007}'
    ||| c == '\u{2008}'
    ||| c == '\u{2009}'
    ||| c == '\u{200A}'
    ||| c == '\u{2028}'
    ||| c == '\u{2029}'
    ||| c == '\u{202F}'
    ||| c == '\u{205F}'
    ||| c == '\u{3000}'
}

/// Whitespace test for script characters.
pub fn is_whitespace(c: char) -> (r: bool)
    ensures
        r == is_ws_char(c),
{
    match c {
        ' ' | '\u{0009}' | '\u{000A}' | '\u{000B}' | '\u{000C}' | '\u{000D}' | '\u{0085}'
        | '\u{00A0}' | '\u{1680}' | '\u{2000}' | '\u{2001}' | '\u{2002}' | '\u{2003}'
        | '\u{2004}' | '\u{2005}' | '\u{2006}' | '\u{2007}' | '\u{2008}' | '\u{2009}'
        | '\u{200A}' | '\u{2028}' | '\u{2029}' | '\u{202F}' | '\u{205F}' | '\u{3000}' => true,
        _ => false,
    }
}

/// Smallest unit the lexer produces: a line of dialogue text or a comment.
/// The content never includes the token's own delimiter characters.
#[derive(Debug, Clone, PartialEq, Eq)]
pub enum Token {
    TextLine(String),
    Comment(String),
}

/// Mathematical model of a token: its content as a character sequence.
pub enum TokenModel {
    TextLine(Seq<char>),
    Comment(Seq<char>),
}

impl View for Token {
    type V = TokenModel;

    open spec fn view(&self) -> TokenModel {
        match self {
            Token::TextLine(s) => TokenModel::TextLine(s@),
            Token::Comment(s) => TokenModel::Comment(s@),
        }
    }
}

/// A recoverable lexical error, carrying the offset (in characters from the
/// start of the lexed text) and, for an unexpected character, the character
/// itself.
#[derive(Debug, Clone, Copy, PartialEq, Eq)]
pub enum LexError {
    UnexpectedChar { found: char, offset: usize },
    UnterminatedText { offset: usize },
}

/// Model of a lexical error; the offset is unbounded.
pub enum LexErrorModel {
    UnexpectedChar { found: char, offset: nat },
    UnterminatedText { offset: nat },
}

impl View for LexError {
    type V = LexErrorModel;

    open spec fn view(&self) -> LexErrorModel {
        match self {
            LexError::UnexpectedChar { found, offset } => LexErrorModel::UnexpectedChar {
                found: *found,
                offset: *offset as nat,
            },
            LexError::UnterminatedText { offset } => LexErrorModel::UnterminatedText {
                offset: *offset as nat,
            },
        }
    }
}

/// Moves an error's offset forward by `base` characters, so that an error
/// reported against a suffix speaks of positions in the whole text.
pub open spec fn shift_err(e: LexErrorModel, base: nat) -> LexErrorModel {
    match e {
        LexErrorModel::UnexpectedChar { found, offset } => LexErrorModel::UnexpectedChar {
            found,
            offset: offset + base,
        },
        LexErrorModel::UnterminatedText { offset } => LexErrorModel::UnterminatedText {
            offset: offset + base,
        },
    }
}

/// Length of the longest prefix of `s` whose characters all satisfy `p`.
pub open spec fn prefix_len(s: Seq<char>, p: spec_fn(char) -> bool) -> nat
    decreases s.len(),
{
    if s.len() == 0 || !p(s[0]) {
        0
    } else {
        (1 + prefix_len(s.skip(1), p)) as nat
    }
}

/// What `prefix_len` picks out: the first index whose character fails `p`,
/// or the whole length when every character satisfies `p`.
pub proof fn lemma_prefix_len(s: Seq<char>, p: spec_fn(char) -> bool)
    ensures
        prefix_len(s, p) <= s.len(),
        forall|j: int| 0 <= j < prefix_len(s, p) ==> p(s[j]),
        prefix_len(s, p) < s.len() ==> !p(s[prefix_len(s, p) as int]),
    decreases s.len(),
{
    if s.len() != 0 && p(s[0]) {
        lemma_prefix_len(s.skip(1), p);
        assert forall|j: int| 0 <= j < prefix_len(s, p) implies p(s[j]) by {
            if j > 0 {
                assert(p(s.skip(1)[j - 1]));
            }
        }
        if prefix_len(s, p) < s.len() {
            assert(s.skip(1)[prefix_len(s, p) - 1] == s[prefix_len(s, p) as int]);
        }
    }
}

/// Characters skipped before a token starts.
pub open spec fn ws_len(s: Seq<char>) -> nat {
    prefix_len(s, CharPred::Whitespace.as_fn())
}

/// Length of a comment body: everything up to a line break or end of input.
pub open spec fn comment_len(s: Seq<char>) -> nat {
    prefix_len(s, CharPred::NotLineBreak.as_fn())
}

/// Length of a text-line body: everything up to the closing quote, if any.
pub open spec fn text_len(s: Seq<char>) -> nat {
    prefix_len(s, CharPred::NotQuote.as_fn())
}

/// Outcome of taking one token from the head of a character sequence.
pub enum LexStep {
    /// Only whitespace (or nothing) remained.
    End,
    /// A token, and the characters after it.
    Tok { token: TokenModel, rest: Seq<char> },
    /// The head is lexically malformed.
    Fail { err: LexErrorModel },
}

/// One token taken from the very head of `s`, without skipping whitespace.
/// Mirrors dispatching on the first character, where end of input reads as
/// the NUL placeholder character.
pub open spec fn lex_token(s: Seq<char>) -> LexStep {
    if s.len() == 0 {
        LexStep::Fail { err: LexErrorModel::UnexpectedChar { found: EOF, offset: 0 } }
    } else if s[0] == ';' {
        let n = comment_len(s.skip(1)) as int;
        LexStep::Tok {
            token: TokenModel::Comment(s.subrange(1, 1 + n)),
            rest: s.skip(1 + n),
        }
    } else if s[0] == '"' {
        let b = s.skip(1);
        let q = text_len(b) as int;
        if q < b.len() {
            LexStep::Tok { token: TokenModel::TextLine(b.subrange(0, q)), rest: b.skip(q + 1) }
        } else {
            LexStep::Fail { err: LexErrorModel::UnterminatedText { offset: 0 } }
        }
    } else {
        LexStep::Fail { err: LexErrorModel::UnexpectedChar { found: s[0], offset: 0 } }
    }
}

/// One token taken from `s` after skipping leading whitespace; `End` when
/// only whitespace remains. Error offsets point into `s`.
pub open spec fn lex_next(s: Seq<char>) -> LexStep {
    let w = ws_len(s) as int;
    if w == s.len() {
        LexStep::End
    } else {
        match lex_token(s.skip(w)) {
            LexStep::Fail { err } => LexStep::Fail { err: shift_err(err, w as nat) },
            step => step,
        }
    }
}

/// A produced token consumes at least one character.
pub proof fn lemma_lex_token_consumes(s: Seq<char>)
    ensures
        lex_token(s) matches LexStep::Tok { token, rest } ==> rest.len() < s.len(),
{
    if s.len() != 0 {
        if s[0] == ';' {
            lemma_prefix_len(s.skip(1), CharPred::NotLineBreak.as_fn());
        } else if s[0] == '"' {
            lemma_prefix_len(s.skip(1), CharPred::NotQuote.as_fn());
        }
    }
}

/// A token produced after whitespace skipping also consumes characters.
pub proof fn lemma_lex_next_consumes(s: Seq<char>)
    ensures
        lex_next(s) matches LexStep::Tok { token, rest } ==> rest.len() < s.len(),
{
    let w = ws_len(s) as int;
    lemma_prefix_len(s, CharPred::Whitespace.as_fn());
    if w != s.len() {
        lemma_lex_token_consumes(s.skip(w));
    }
}

/// A token's content excludes its own delimiters: a comment holds no
/// line break (the break, if any, is left unconsumed at the head of the
/// rest), and a text line holds no quote.
pub proof fn lemma_token_content_clean(s: Seq<char>)
    ensures
        lex_next(s) matches LexStep::Tok { token, rest } ==> match token {
            TokenModel::Comment(c) => (forall|j: int| 0 <= j < c.len() ==> !is_line_break(c[j]))
                && (rest.len() == 0 || is_line_break(rest[0])),
            TokenModel::TextLine(t) => forall|j: int| 0 <= j < t.len() ==> t[j] != '"',
        },
{
    lemma_prefix_len(s, CharPred::Whitespace.as_fn());
    let w = ws_len(s) as int;
    if w != s.len() {
        let t = s.skip(w);
        if t[0] == ';' {
            lemma_prefix_len(t.skip(1), CharPred::NotLineBreak.as_fn());
            let n = comment_len(t.skip(1)) as int;
            let c = t.subrange(1, 1 + n);
            assert forall|j: int| 0 <= j < c.len() implies !is_line_break(c[j]) by {
                assert(c[j] == t.skip(1)[j]);
            }
            let rest = t.skip(1 + n);
            if rest.len() != 0 {
                assert(rest[0] == t.skip(1)[n]);
            }
        } else if t[0] == '"' {
            let b = t.skip(1);
            lemma_prefix_len(b, CharPred::NotQuote.as_fn());
            let q = text_len(b) as int;
            if q < b.len() {
                let c = b.subrange(0, q);
                assert forall|j: int| 0 <= j < c.len() implies c[j] != '"' by {
                    assert(c[j] == b[j]);
                }
            }
        }
    }
}

/// The rest a token step leaves is a suffix of the text: the last
/// `rest.len()` characters.
pub proof fn lemma_lex_next_suffix(s: Seq<char>)
    ensures
        lex_next(s) matches LexStep::Tok { token, rest } ==> rest =~= s.skip(
            s.len() - rest.len(),
        ),
{
    lemma_prefix_len(s, CharPred::Whitespace.as_fn());
    let w = ws_len(s) as int;
    if w != s.len() {
        let t = s.skip(w);
        if t[0] == ';' {
            lemma_prefix_len(t.skip(1), CharPred::NotLineBreak.as_fn());
            let n = comment_len(t.skip(1)) as int;
            assert(t.skip(1 + n) =~= s.skip(w + 1 + n));
        } else if t[0] == '"' {
            let b = t.skip(1);
            lemma_prefix_len(b, CharPred::NotQuote.as_fn());
            let q = text_len(b) as int;
            if q < b.len() {
                assert(b.skip(q + 1) =~= s.skip(w + 1 + q + 1));
            }
        }
    }
}

/// The whole text as a token sequence, or the first lexical error.
pub open spec fn tokenize(s: Seq<char>) -> Result<Seq<TokenModel>, LexErrorModel>
    decreases s.len(),
    via tokenize_decreases
{
    match lex_next(s) {
        LexStep::End => Ok(Seq::empty()),
        LexStep::Tok { token, rest } => match tokenize(rest) {
            Ok(ts) => Ok(seq![token] + ts),
            Err(e) => Err(shift_err(e, (s.len() - rest.len()) as nat)),
        },
        LexStep::Fail { err } => Err(err),
    }
}

#[via_fn]
proof fn tokenize_decreases(s: Seq<char>) {
    lemma_lex_next_consumes(s);
}

/// Placeholder character read at end of input.
pub const EOF: char = '\0';

/// Relies on `String::push`: appends one character to the string.
#[verifier::external_body]
fn push_char(s: &mut String, c: char)
    ensures
        final(s)@ == old(s)@.push(c),
{
    s.push(c);
}

/// The character classes the lexer scans over, as data, so that one scanning
/// loop serves whitespace skipping, comment bodies and text bodies alike.
#[derive(Debug, Clone, Copy, PartialEq, Eq)]
pub enum CharPred {
    Whitespace,
    NotLineBreak,
    NotQuote,
}

impl CharPred {
    /// The predicate a `CharPred` stands for.
    pub open spec fn holds(self, c: char) -> bool {
        match self {
            CharPred::Whitespace => is_ws_char(c),
            CharPred::NotLineBreak => !is_line_break(c),
            CharPred::NotQuote => c != '"',
        }
    }

    /// The predicate as a spec closure, for use with `prefix_len`.
    pub open spec fn as_fn(self) -> spec_fn(char) -> bool {
        |c: char| self.holds(c)
    }

    fn eval(self, c: char) -> (r: bool)
        ensures
            r == self.holds(c),
    {
        match self {
            CharPred::Whitespace => is_whitespace(c),
            CharPred::NotLineBreak => c != '\r' && c != '\n',
            CharPred::NotQuote => c != '"',
        }
    }
}

/// Pulls one token at a time from a character cursor over already-loaded
/// script text. The cursor is the position `pos` into `script`.
#[derive(Debug)]
pub struct Lexer<'a> {
    pub script: &'a Vec<char>,
    pub pos: usize,
}

impl<'a> Lexer<'a> {
    /// The cursor never points past the end of the text.
    pub open spec fn wf(self) -> bool {
        self.pos <= self.script@.len()
    }

    /// The characters not yet consumed.
    pub open spec fn remaining_view(self) -> Seq<char> {
        self.script@.skip(self.pos as int)
    }

    pub fn new(script: &'a Vec<char>) -> (r: Lexer<'a>)
        ensures
            r.wf(),
            r.script@ == script@,
            r.pos == 0,
    {
        Lexer { script, pos: 0 }
    }

    /// The next character, or `EOF` at end of input, without consuming it.
    fn peek(&self) -> (c: char)
        requires
            self.wf(),
        ensures
            c == if self.remaining_view().len() == 0 {
                EOF
            } else {
                self.remaining_view()[0]
            },
    {
        if self.pos < self.script.len() {
            self.script[self.pos]
        } else {
            EOF
        }
    }

    fn is_eof(&self) -> (r: bool)
        requires
            self.wf(),
        ensures
            r == (self.remaining_view().len() == 0),
    {
        self.pos == self.script.len()
    }

    /// Consumes one character, if any is left.
    fn consume(&mut self) -> (c: Option<char>)
        requires
            old(self).wf(),
        ensures
            final(self).wf(),
            final(self).script == old(self).script,
            match c {
                Some(ch) => old(self).remaining_view().len() > 0 && ch == old(
                    self,
                ).remaining_view()[0] && final(self).pos == old(self).pos + 1,
                None => old(self).remaining_view().len() == 0 && final(self).pos == old(self).pos,
            },
    {
        if self.pos < self.script.len() {
            let c = self.script[self.pos];
            self.pos = self.pos + 1;
            Some(c)
        } else {
            None
        }
    }

    /// Skips the longest run of characters satisfying the predicate.
    #[verifier::loop_isolation(false)]
    fn eat_while(&mut self, p: CharPred)
        requires
            old(self).wf(),
        ensures
            final(self).wf(),
            final(self).script == old(self).script,
            final(self).pos == old(self).pos + prefix_len(old(self).remaining_view(), p.as_fn()),
    {
        let ghost orig = self.remaining_view();
        while !self.is_eof() && p.eval(self.peek())
            invariant
                self.wf(),
                self.script == old(self).script,
                old(self).pos <= self.pos,
                self.remaining_view() == orig.skip(self.pos - old(self).pos),
                prefix_len(orig, p.as_fn()) == (self.pos - old(self).pos) + prefix_len(
                    self.remaining_view(),
                    p.as_fn(),
                ),
            decreases self.remaining_view().len(),
        {
            let ghost before = self.remaining_view();
            self.consume();
            proof {
                assert(before.len() > 0 && p.as_fn()(before[0]));
                assert(self.remaining_view() =~= before.skip(1));
                assert(self.remaining_view() =~= orig.skip(self.pos - old(self).pos));
            }
        }
        proof {
            assert(prefix_len(self.remaining_view(), p.as_fn()) == 0);
        }
    }

    /// Consumes the longest run of characters satisfying the predicate and
    /// returns them as a string.
    #[verifier::loop_isolation(false)]
    fn eat_while_build(&mut self, p: CharPred) -> (s: String)
        requires
            old(self).wf(),
        ensures
            final(self).wf(),
            final(self).script == old(self).script,
            final(self).pos == old(self).pos + prefix_len(old(self).remaining_view(), p.as_fn()),
            s@ == old(self).remaining_view().subrange(
                0,
                prefix_len(old(self).remaining_view(), p.as_fn()) as int,
            ),
    {
        let ghost orig = self.remaining_view();
        let mut s = String::new();
        while !self.is_eof() && p.eval(self.peek())
            invariant
                self.wf(),
                self.script == old(self).script,
                old(self).pos <= self.pos,
                self.remaining_view() == orig.skip(self.pos - old(self).pos),
                s@ == orig.subrange(0, self.pos - old(self).pos),
                prefix_len(orig, p.as_fn()) == (self.pos - old(self).pos) + prefix_len(
                    self.remaining_view(),
                    p.as_fn(),
                ),
            decreases self.remaining_view().len(),
        {
            let c = self.peek();
            let ghost before = self.remaining_view();
            self.consume();
            push_char(&mut s, c);
            proof {
                assert(before.len() > 0 && p.as_fn()(before[0]));
                assert(self.remaining_view() =~= before.skip(1));
                assert(self.remaining_view() =~= orig.skip(self.pos - old(self).pos));
                assert(s@ =~= orig.subrange(0, self.pos - old(self).pos));
            }
        }
        proof {
            assert(prefix_len(self.remaining_view(), p.as_fn()) == 0);
        }
        s
    }

    /// Reads one token from the very head of the text, without skipping
    /// whitespace, and leaves the cursor just past it. On an error the
    /// cursor is left where it was; the error's offset is absolute.
    pub fn parse_token(&mut self) -> (r: Result<Token, LexError>)
        requires
            old(self).wf(),
        ensures
            final(self).wf(),
            final(self).script == old(self).script,
            match lex_token(old(self).remaining_view()) {
                LexStep::End => false,
                LexStep::Tok { token, rest } => (match r {
                    Ok(t) => t@ == token,
                    _ => false,
                }) && final(self).remaining_view() == rest,
                LexStep::Fail { err } => (match r {
                    Err(e) => e@ == shift_err(err, old(self).pos as nat),
                    _ => false,
                }) && *final(self) == *old(self),
            },
    {
        let ghost s = self.remaining_view();
        let c = self.peek();
        if c == ';' && !self.is_eof() {
            self.consume();
            proof {
                assert(self.remaining_view() =~= s.skip(1));
            }
            let body = self.eat_while_build(CharPred::NotLineBreak);
            proof {
                let n = comment_len(s.skip(1)) as int;
                assert(self.remaining_view() =~= s.skip(1 + n));
                assert(body@ =~= s.subrange(1, 1 + n));
            }
            Ok(Token::Comment(body))
        } else if c == '"' && !self.is_eof() {
            let start = self.pos;
            self.consume();
            proof {
                assert(self.remaining_view() =~= s.skip(1));
            }
            let body = self.eat_while_build(CharPred::NotQuote);
            proof {
                lemma_prefix_len(s.skip(1), CharPred::NotQuote.as_fn());
            }
            match self.consume() {
                Some(_) => {
                    proof {
                        let q = text_len(s.skip(1)) as int;
                        assert(self.remaining_view() =~= s.skip(1).skip(q + 1));
                        assert(body@ =~= s.skip(1).subrange(0, q));
                    }
                    Ok(Token::TextLine(body))
                },
                None => {
                    self.pos = start;
                    Err(LexError::UnterminatedText { offset: start })
                },
            }
        } else {
            Err(LexError::UnexpectedChar { found: c, offset: self.pos })
        }
    }

    /// Skips leading whitespace and reads the next token; `None` at end of
    /// input. On an error the cursor rests where the whitespace ended.
    pub fn try_parse_token(&mut self) -> (r: Result<Option<Token>, LexError>)
        requires
            old(self).wf(),
        ensures
            final(self).wf(),
            final(self).script == old(self).script,
            match lex_next(old(self).remaining_view()) {
                LexStep::End => r == Ok::<Option<Token>, LexError>(None) && final(self).pos
                    == final(self).script@.len(),
                LexStep::Tok { token, rest } => (match r {
                    Ok(Some(t)) => t@ == token,
                    _ => false,
                }) && final(self).remaining_view() == rest,
                LexStep::Fail { err } => (match r {
                    Err(e) => e@ == shift_err(err, old(self).pos as nat),
                    _ => false,
                }) && final(self).pos == old(self).pos + ws_len(old(self).remaining_view()),
            },
    {
        let ghost s = self.remaining_view();
        self.eat_while(CharPred::Whitespace);
        proof {
            assert(self.remaining_view() =~= s.skip(ws_len(s) as int));
        }
        if self.is_eof() {
            Ok(None)
        } else {
            match self.parse_token() {
                Ok(t) => Ok(Some(t)),
                Err(e) => Err(e),
            }
        }
    }

    /// Reads the whole text as a token sequence: the batch variant for
    /// whole-script analysis. On an error the tokens before it are dropped.
    pub fn parse_script(&mut self) -> (r: Result<Vec<Token>, LexError>)
        requires
            old(self).wf(),
        ensures
            final(self).wf(),
            final(self).script == old(self).script,
            r is Ok ==> final(self).pos == final(self).script@.len(),
            match tokenize(old(self).remaining_view()) {
                Ok(ts) => match r {
                    Ok(v) => v@.map_values(|t: Token| t@) == ts,
                    _ => false,
                },
                Err(e) => match r {
                    Err(er) => er@ == shift_err(e, old(self).pos as nat),
                    _ => false,
                },
            },
    {
        let mut tokens: Vec<Token> = Vec::new();
        loop
            invariant
                self.wf(),
                self.script == old(self).script,
                old(self).pos <= self.pos,
                match tokenize(self.remaining_view()) {
                    Ok(ts) => tokenize(old(self).remaining_view()) == Ok::<
                        Seq<TokenModel>,
                        LexErrorModel,
                    >(tokens@.map_values(|t: Token| t@) + ts),
                    Err(e) => tokenize(old(self).remaining_view()) == Err::<
                        Seq<TokenModel>,
                        LexErrorModel,
                    >(shift_err(e, (self.pos - old(self).pos) as nat)),
                },
            decreases self.remaining_view().len(),
        {
            let ghost cur = self.remaining_view();
            let ghost base = self.pos;
            proof {
                lemma_lex_next_consumes(cur);
            }
            match self.try_parse_token() {
                Ok(None) => {
                    proof {
                        assert(tokenize(cur) == Ok::<Seq<TokenModel>, LexErrorModel>(Seq::<TokenModel>::empty()));
                        assert(tokens@.map_values(|t: Token| t@) + Seq::<TokenModel>::empty()
                            =~= tokens@.map_values(|t: Token| t@));
                    }
                    return Ok(tokens);
                },
                Ok(Some(t)) => {
                    let ghost prev = tokens@;
                    tokens.push(t);
                    proof {
                        let step = lex_next(cur);
                        let rest = step->Tok_rest;
                        let tok = step->Tok_token;
                        assert(tokens@.map_values(|t: Token| t@) =~= prev.map_values(
                            |t: Token| t@,
                        ).push(tok));
                        match tokenize(rest) {
                            Ok(ts2) => {
                                assert(tokenize(cur) == Ok::<Seq<TokenModel>, LexErrorModel>(seq![tok] + ts2));
                                assert(prev.map_values(|t: Token| t@) + (seq![tok] + ts2)
                                    =~= tokens@.map_values(|t: Token| t@) + ts2);
                            },
                            Err(e2) => {},
                        }
                    }
                },
                Err(e) => {
                    return Err(e);
                },
            }
        }
    }

    /// The count of characters not yet consumed.
    pub fn remaining(self) -> (r: usize)
        requires
            self.wf(),
        ensures
            r == self.remaining_view().len(),
    {
        self.script.len() - self.pos
    }
}

} // verus!
