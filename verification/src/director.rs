//! The Director: a resumable cursor over a loaded script.
//!
//! The Director owns a script snapshot and yields one display line per
//! call. Progress between calls is a stored count of unconsumed
//! characters; each call rebuilds a lexer cursor at the equivalent
//! offset, reads one token, and renders it. Exhaustion is a terminal
//! state: once the end-of-script sentinel has been produced, every later
//! call produces it again. A lexical error likewise yields a fixed error
//! sentinel and leaves the position unchanged.

use crate::lexer::{lex_next, tokenize, LexStep, Lexer, Token, TokenModel};
use crate::scripts::{lookup, script_key, Script, ScriptError, ScriptRepository};
use vstd::prelude::*;
use vstd::string::StringExecFns;

verus! {

/// The fixed line produced once the script is exhausted.
pub open spec fn terminal_line() -> Seq<char> {
    "Game ended!"@
}

/// The fixed line produced when the script is lexically malformed.
pub open spec fn error_line() -> Seq<char> {
    "Script error!"@
}

/// How a token is rendered for display: a text line is re-quoted and a
/// comment keeps its leading semicolon, so a rendered token is never
/// mistaken for either sentinel.
pub open spec fn render_token_model(t: TokenModel) -> Seq<char> {
    match t {
        TokenModel::TextLine(s) => "\""@ + s + "\""@,
        TokenModel::Comment(s) => ";"@ + s,
    }
}

/// A rendered token differs from both sentinel lines: it starts with its
/// delimiter character, and the sentinels do not.
pub proof fn lemma_render_not_sentinel(t: TokenModel)
    ensures
        render_token_model(t) != terminal_line(),
        render_token_model(t) != error_line(),
{
    reveal_strlit("Game ended!");
    reveal_strlit("Script error!");
    reveal_strlit("\"");
    reveal_strlit(";");
    match t {
        TokenModel::TextLine(s) => {
            assert(render_token_model(t)[0] == '"');
        },
        TokenModel::Comment(s) => {
            assert(render_token_model(t)[0] == ';');
        },
    }
    assert(terminal_line()[0] == 'G');
    assert(error_line()[0] == 'S');
}

/// The two sentinels are distinct lines.
pub proof fn lemma_sentinels_differ()
    ensures
        terminal_line() != error_line(),
{
    reveal_strlit("Game ended!");
    reveal_strlit("Script error!");
    assert(terminal_line()[0] == 'G');
    assert(error_line()[0] == 'S');
}

/// One call of the Director on script text `s` with `remaining`
/// unconsumed characters: the line produced and the new remaining count.
pub open spec fn director_step(s: Seq<char>, remaining: nat) -> (Seq<char>, nat)
    recommends
        remaining <= s.len(),
{
    match lex_next(s.skip(s.len() - remaining)) {
        LexStep::End => (terminal_line(), 0),
        LexStep::Tok { token, rest } => (render_token_model(token), rest.len()),
        LexStep::Fail { err } => (error_line(), remaining),
    }
}

/// Every line the Director produces from `remaining` onward, in order,
/// stopping at the first sentinel.
pub open spec fn director_run(s: Seq<char>, remaining: nat) -> Seq<Seq<char>>
    decreases remaining,
    when remaining <= s.len()
    via director_run_decreases
{
    let step = director_step(s, remaining);
    if step.0 == terminal_line() || step.0 == error_line() {
        Seq::empty()
    } else {
        seq![step.0] + director_run(s, step.1)
    }
}

#[via_fn]
proof fn director_run_decreases(s: Seq<char>, remaining: nat) {
    let rem_seq = s.skip(s.len() - remaining);
    crate::lexer::lemma_lex_next_consumes(rem_seq);
    let step = director_step(s, remaining);
    if !(step.0 == terminal_line() || step.0 == error_line()) {
        match lex_next(rem_seq) {
            LexStep::Tok { token, rest } => {
                assert(rest.len() < rem_seq.len());
            },
            LexStep::End => {
                assert(false);
            },
            LexStep::Fail { err } => {
                assert(false);
            },
        }
    }
}

/// Repeatedly stepping the Director until the terminal sentinel appears
/// reproduces, rendered in order, exactly the token sequence the batch
/// lexer yields for the same text, whenever that text tokenizes without
/// error.
pub proof fn lemma_director_reproduces_batch(s: Seq<char>, remaining: nat)
    requires
        remaining <= s.len(),
        tokenize(s.skip(s.len() - remaining)) is Ok,
    ensures
        director_run(s, remaining) == tokenize(s.skip(s.len() - remaining))->Ok_0.map_values(
            |t: TokenModel| render_token_model(t),
        ),
    decreases remaining,
{
    let rem_seq = s.skip(s.len() - remaining);
    let step = director_step(s, remaining);
    crate::lexer::lemma_lex_next_consumes(rem_seq);
    crate::lexer::lemma_lex_next_suffix(rem_seq);
    match lex_next(rem_seq) {
        LexStep::End => {
            assert(director_run(s, remaining) =~= Seq::<Seq<char>>::empty());
            assert(tokenize(rem_seq)->Ok_0.map_values(|t: TokenModel| render_token_model(t))
                =~= Seq::<Seq<char>>::empty());
        },
        LexStep::Tok { token, rest } => {
            lemma_render_not_sentinel(token);
            assert(rest =~= rem_seq.skip(rem_seq.len() - rest.len()));
            assert(rem_seq.skip(rem_seq.len() - rest.len()) =~= s.skip(s.len() - rest.len()));
            assert(tokenize(rest) is Ok);
            lemma_director_reproduces_batch(s, rest.len());
            assert(tokenize(rem_seq)->Ok_0 == seq![token] + tokenize(rest)->Ok_0);
            assert((seq![token] + tokenize(rest)->Ok_0).map_values(
                |t: TokenModel| render_token_model(t),
            ) =~= seq![render_token_model(token)] + tokenize(rest)->Ok_0.map_values(
                |t: TokenModel| render_token_model(t),
            ));
        },
        LexStep::Fail { err } => {
            assert(false);
        },
    }
}

/// The whole-script form: stepping a fresh Director to the end yields
/// exactly the batch token sequence, rendered in order.
pub proof fn lemma_director_full_run(s: Seq<char>)
    requires
        tokenize(s) is Ok,
    ensures
        director_run(s, s.len()) == tokenize(s)->Ok_0.map_values(
            |t: TokenModel| render_token_model(t),
        ),
{
    assert(s.skip(0) =~= s);
    lemma_director_reproduces_batch(s, s.len());
}

/// Once the terminal sentinel has been produced, every further step
/// produces it again: the terminal state is idempotent.
pub proof fn lemma_terminal_idempotent(s: Seq<char>, remaining: nat)
    requires
        remaining <= s.len(),
        director_step(s, remaining).0 == terminal_line(),
    ensures
        director_step(s, director_step(s, remaining).1).0 == terminal_line(),
        director_step(s, director_step(s, remaining).1).1 == 0,
{
    let rem_seq = s.skip(s.len() - remaining);
    lemma_sentinels_differ();
    match lex_next(rem_seq) {
        LexStep::End => {
            assert(s.skip(s.len() - 0) =~= Seq::<char>::empty());
            assert(crate::lexer::ws_len(Seq::<char>::empty()) == 0);
        },
        LexStep::Tok { token, rest } => {
            lemma_render_not_sentinel(token);
        },
        LexStep::Fail { err } => {},
    }
}

/// A lexical error is likewise terminal: the error sentinel repeats and
/// the position stays put.
pub proof fn lemma_error_idempotent(s: Seq<char>, remaining: nat)
    requires
        remaining <= s.len(),
        director_step(s, remaining).0 == error_line(),
    ensures
        director_step(s, director_step(s, remaining).1) == director_step(s, remaining),
{
    let rem_seq = s.skip(s.len() - remaining);
    lemma_sentinels_differ();
    match lex_next(rem_seq) {
        LexStep::End => {},
        LexStep::Tok { token, rest } => {
            lemma_render_not_sentinel(token);
        },
        LexStep::Fail { err } => {},
    }
}

/// Relies on `str::chars`: iterating a string yields exactly its
/// characters, collected here into a vector.
#[verifier::external_body]
fn chars_of(s: &str) -> (r: Vec<char>)
    ensures
        r@ == s@,
{
    s.chars().collect()
}

/// Renders one token as a display line.
fn render_token(t: &Token) -> (r: String)
    ensures
        r@ == render_token_model(t@),
{
    match t {
        Token::TextLine(s) => {
            let mut out = String::from_str("\"");
            out.append(s.as_str());
            out.append("\"");
            out
        },
        Token::Comment(s) => {
            let mut out = String::from_str(";");
            out.append(s.as_str());
            out
        },
    }
}

/// One Director step over the script characters: the next display line
/// and the new count of unconsumed characters.
fn next_line_inner(chars: &Vec<char>, remaining: usize) -> (r: (String, usize))
    requires
        remaining <= chars@.len(),
    ensures
        r.0@ == director_step(chars@, remaining as nat).0,
        r.1 == director_step(chars@, remaining as nat).1,
        r.1 <= chars@.len(),
{
    proof {
        crate::lexer::lemma_lex_next_consumes(chars@.skip(chars@.len() - remaining));
    }
    let mut lexer = Lexer { script: chars, pos: chars.len() - remaining };
    match lexer.try_parse_token() {
        Ok(Some(tok)) => {
            let line = render_token(&tok);
            let rem2 = lexer.remaining();
            (line, rem2)
        },
        Ok(None) => (String::from_str("Game ended!"), 0),
        Err(_) => (String::from_str("Script error!"), remaining),
    }
}

/// Wires the scripting system together and tells the client what to
/// display next; how to display it is not the Director's concern.
#[derive(Debug)]
pub struct Director {
    pub script_repository: ScriptRepository,
    pub current_script: Script,
    pub chars: Vec<char>,
    pub remaining: usize,
}

impl Director {
    /// The cached character form matches the script snapshot and the
    /// cursor stays within it.
    pub open spec fn wf(self) -> bool {
        self.chars@ == self.current_script.0@ && self.remaining <= self.chars@.len()
    }

    /// Resolves the entry script and starts at its beginning, or reports
    /// `ResourceNotFound` exactly when the store lacks the entry script.
    pub fn new(script_repository: ScriptRepository, entry: &str) -> (r: Result<
        Director,
        ScriptError,
    >)
        ensures
            match r {
                Ok(d) => d.wf() && lookup(
                    script_repository.source.scripts@,
                    script_key(entry@),
                ) == Some(d.current_script.0@) && d.remaining == d.chars@.len()
                    && d.script_repository.source.scripts@ == script_repository.source.scripts@,
                Err(e) => lookup(script_repository.source.scripts@, script_key(entry@)) is None
                    && e == ScriptError::ResourceNotFound,
            },
    {
        match script_repository.get_script(entry) {
            Ok(current_script) => {
                let chars = chars_of(current_script.0.as_str());
                let remaining = chars.len();
                Ok(Director { script_repository, current_script, chars, remaining })
            },
            Err(e) => Err(e),
        }
    }

    /// Produces the next display line and advances the stored position as
    /// `director_step` says; the script snapshot itself never changes.
    pub fn next_line(&mut self) -> (r: String)
        requires
            old(self).wf(),
        ensures
            final(self).wf(),
            final(self).current_script.0@ == old(self).current_script.0@,
            final(self).chars@ == old(self).chars@,
            r@ == director_step(old(self).chars@, old(self).remaining as nat).0,
            final(self).remaining == director_step(old(self).chars@, old(self).remaining as nat).1,
    {
        let (line, rem2) = next_line_inner(&self.chars, self.remaining);
        self.remaining = rem2;
        line
    }
}

} // verus!
