//! The lexer: one token at a time, with the half-open range of characters
//! that the current token was read from.

use crate::error::Error;
use crate::ident::{continues_identifier, is_ident_continue, is_ident_start, starts_identifier};
use vstd::prelude::*;
use vstd::slice::slice_subrange;

verus! {

/// The kinds of tokens, and two markers for where there is none.
#[derive(Debug, PartialEq, Eq, Structural, Clone, Copy, Hash)]
pub enum Token {
    /// The input ended between two tokens.
    EndOfProgram,
    /// Marks a malformed or truncated token.
    UnexpectedToken,
    /// `<`
    ElementOpen,
    /// `>`
    ElementClose,
    /// `/>`
    SelfClosingElementClose,
    /// `</`
    ClosingElementOpen,
    /// `<>`
    FragmentOpen,
    /// `</>`
    FragmentClose,
    Identifier,
    /// `"abc..."` or `'abc...'`
    LiteralString,
    /// `=`
    Assign,
    /// `:`
    Colon,
    /// `.`
    Dit,
    /// `,`
    Comma,
    /// `...`
    Spread,
    /// `{`
    BraceOpen,
    /// `}`
    BraceClose,
}

/// What a lexer shows of itself: the current token and the range
/// `[start, end)` of the source that it was read from. The next token is
/// looked for from `end` on.
pub struct Cursor {
    pub token: Token,
    pub start: nat,
    pub end: nat,
}

/// One step of the lexer: where it stands afterwards, and whether it found a
/// token.
pub struct Scan {
    pub cursor: Cursor,
    pub result: Result<(), Error>,
}

/// The first index from `i` on whose character does not satisfy `keep`; the
/// length of `code` if there is none.
pub open spec fn skip_while(code: Seq<char>, i: int, keep: spec_fn(char) -> bool) -> int
    decreases code.len() - i,
{
    if 0 <= i < code.len() && keep(code[i]) {
        skip_while(code, i + 1, keep)
    } else {
        i
    }
}

/// The one character that may stand inside `< >`, `</`, `</ >` and `/ >`.
pub open spec fn is_space(c: char) -> bool {
    c == ' '
}

/// The characters with which a token begins.
pub open spec fn starts_token(c: char) -> bool {
    c == '<' || c == '/' || c == '>' || c == '=' || c == '"' || c == '\'' || c == '{' || c == '}'
        || c == ',' || c == '.' || c == ':' || is_ident_start(c)
}

/// The characters that are passed over between tokens.
pub open spec fn is_filler(c: char) -> bool {
    !starts_token(c)
}

/// The index just behind the quote that closes a string literal whose
/// content starts at `i`. A backslash takes the character after it along,
/// whatever it is. `None` where the input ends before the closing quote.
pub open spec fn string_end(code: Seq<char>, i: int, quote: char) -> Option<int>
    decreases code.len() + 1 - i,
{
    if i < 0 || i >= code.len() {
        None
    } else if code[i] == '\\' {
        string_end(code, i + 2, quote)
    } else if code[i] == quote {
        Some(i + 1)
    } else {
        string_end(code, i + 1, quote)
    }
}

/// A complete token read from `[start, end)`.
pub open spec fn found(token: Token, start: int, end: int) -> Scan {
    Scan { cursor: Cursor { token, start: start as nat, end: end as nat }, result: Ok(()) }
}

/// The input ended inside the construct that begins at `start`.
pub open spec fn truncated(code: Seq<char>, start: int) -> Scan {
    Scan {
        cursor: Cursor { token: Token::UnexpectedToken, start: start as nat, end: code.len() },
        result: Err(Error::UnexpectedEndOfProgram),
    }
}

/// The characters of `[start, end)` begin no token.
pub open spec fn malformed(start: int, end: int) -> Scan {
    Scan {
        cursor: Cursor { token: Token::UnexpectedToken, start: start as nat, end: end as nat },
        result: Err(Error::UnexpectedToken),
    }
}

/// The input ended between two tokens.
pub open spec fn exhausted(code: Seq<char>) -> Scan {
    Scan {
        cursor: Cursor { token: Token::EndOfProgram, start: code.len(), end: code.len() },
        result: Err(Error::EndOfProgram),
    }
}

/// The token that begins with the `<` at `s`: `</>`, `</`, `<>` or `<`,
/// where spaces may stand between the characters of the first three.
pub open spec fn scan_angle(code: Seq<char>, s: int) -> Scan {
    let p = skip_while(code, s + 1, |c: char| is_space(c));
    if p >= code.len() {
        truncated(code, s)
    } else if code[p] == '/' {
        let q = skip_while(code, p + 1, |c: char| is_space(c));
        if q >= code.len() {
            truncated(code, s)
        } else if code[q] == '>' {
            found(Token::FragmentClose, s, q + 1)
        } else {
            found(Token::ClosingElementOpen, s, p + 1)
        }
    } else if code[p] == '>' {
        found(Token::FragmentOpen, s, p + 1)
    } else {
        found(Token::ElementOpen, s, s + 1)
    }
}

/// The token that begins with the `/` at `s`: `/>`, where spaces may stand
/// between the two characters. Anything else is malformed.
pub open spec fn scan_slash(code: Seq<char>, s: int) -> Scan {
    let p = skip_while(code, s + 1, |c: char| is_space(c));
    if p >= code.len() {
        truncated(code, s)
    } else if code[p] == '>' {
        found(Token::SelfClosingElementClose, s, p + 1)
    } else {
        malformed(s, p)
    }
}

/// The token that begins with the `.` at `s`: `...` before two more dots,
/// else a single `.`.
pub open spec fn scan_dot(code: Seq<char>, s: int) -> Scan {
    if s + 1 >= code.len() {
        truncated(code, s)
    } else if code[s + 1] != '.' {
        found(Token::Dit, s, s + 1)
    } else if s + 2 >= code.len() {
        truncated(code, s)
    } else if code[s + 2] == '.' {
        found(Token::Spread, s, s + 3)
    } else {
        found(Token::Dit, s, s + 1)
    }
}

/// The string literal opened by the quote at `s`.
pub open spec fn scan_string(code: Seq<char>, s: int) -> Scan {
    match string_end(code, s + 1, code[s]) {
        Some(e) => found(Token::LiteralString, s, e),
        None => truncated(code, s),
    }
}

/// The token that begins at `s`, a character that starts one.
pub open spec fn scan_token(code: Seq<char>, s: int) -> Scan {
    let c = code[s];
    if c == '<' {
        scan_angle(code, s)
    } else if c == '/' {
        scan_slash(code, s)
    } else if c == '>' {
        found(Token::ElementClose, s, s + 1)
    } else if c == '=' {
        found(Token::Assign, s, s + 1)
    } else if c == '"' || c == '\'' {
        scan_string(code, s)
    } else if c == '{' {
        found(Token::BraceOpen, s, s + 1)
    } else if c == '}' {
        found(Token::BraceClose, s, s + 1)
    } else if c == ',' {
        found(Token::Comma, s, s + 1)
    } else if c == '.' {
        scan_dot(code, s)
    } else if c == ':' {
        found(Token::Colon, s, s + 1)
    } else {
        found(Token::Identifier, s, skip_while(code, s + 1, |c: char| is_ident_continue(c)))
    }
}

/// What `Lexer::consume` does from `cursor`: nothing once the end of the
/// input has been reported; else it passes over what begins no token and
/// reads the token that follows.
#[verifier::opaque]
pub open spec fn lex_step(code: Seq<char>, cursor: Cursor) -> Scan {
    if cursor.token == Token::EndOfProgram {
        Scan { cursor, result: Err(Error::EndOfProgram) }
    } else {
        let s = skip_while(code, cursor.end as int, |c: char| is_filler(c));
        if s >= code.len() {
            exhausted(code)
        } else {
            scan_token(code, s)
        }
    }
}

/// `skip_while` stops at the first character that is not kept.
pub proof fn lemma_skip_while(code: Seq<char>, i: int, keep: spec_fn(char) -> bool)
    requires
        0 <= i <= code.len(),
    ensures
        i <= skip_while(code, i, keep) <= code.len(),
        forall|j: int| i <= j < skip_while(code, i, keep) ==> keep(#[trigger] code[j]),
        skip_while(code, i, keep) < code.len() ==> !keep(code[skip_while(code, i, keep)]),
    decreases code.len() - i,
{
    if i < code.len() && keep(code[i]) {
        lemma_skip_while(code, i + 1, keep);
    }
}

/// A string literal closes behind its content and within the input.
pub proof fn lemma_string_end(code: Seq<char>, i: int, quote: char)
    requires
        0 <= i,
    ensures
        string_end(code, i, quote) matches Some(e) ==> i < e <= code.len() && code[e - 1] == quote,
    decreases code.len() + 1 - i,
{
    if i < code.len() {
        if code[i] == '\\' {
            lemma_string_end(code, i + 2, quote);
        } else if code[i] != quote {
            lemma_string_end(code, i + 1, quote);
        }
    }
}

/// A step that finds a token moves on: it starts at or behind the end of
/// the token before, is not empty, and lies within the input. The token
/// found is neither of the two markers; after a failure the current token
/// is one of them.
pub proof fn lemma_lex_step(code: Seq<char>, cursor: Cursor)
    ensures
        ({
            let next = lex_step(code, cursor);
            &&& next.result is Ok ==> {
                &&& cursor.end <= next.cursor.start < next.cursor.end <= code.len()
                &&& next.cursor.token != Token::EndOfProgram
                &&& next.cursor.token != Token::UnexpectedToken
            }
            &&& next.result is Err ==> {
                &&& next.cursor.token == Token::EndOfProgram || next.cursor.token
                    == Token::UnexpectedToken
                &&& next.cursor.token == Token::EndOfProgram <==> next.result == Err::<(), Error>(
                    Error::EndOfProgram,
                )
                &&& next.cursor.token == Token::EndOfProgram ==> next.cursor == cursor || (
                next.cursor.start == code.len() && next.cursor.end == code.len())
                &&& next.result == Err::<(), Error>(Error::UnexpectedEndOfProgram)
                    ==> next.cursor.end == code.len()
            }
            &&& cursor.start <= cursor.end <= code.len() ==> cursor.end <= next.cursor.end
                <= code.len() && next.cursor.start <= next.cursor.end
        }),
{
    reveal(lex_step);
    let filler = |c: char| is_filler(c);
    let space = |c: char| is_space(c);
    let more = |c: char| is_ident_continue(c);
    if cursor.token != Token::EndOfProgram {
        let s = skip_while(code, cursor.end as int, filler);
        if cursor.end <= code.len() {
            lemma_skip_while(code, cursor.end as int, filler);
        }
        if s < code.len() {
            lemma_string_end(code, s + 1, code[s]);
            lemma_skip_while(code, s + 1, space);
            lemma_skip_while(code, s + 1, more);
            let p = skip_while(code, s + 1, space);
            if p < code.len() {
                lemma_skip_while(code, p + 1, space);
            }
        }
    }
}

/// The characters of `text` from `from` up to `to` are spaces.
pub open spec fn spaces(text: Seq<char>, from: int, to: int) -> bool {
    forall|i: int| from <= i < to ==> #[trigger] text[i] == ' '
}

/// `text` is an identifier: a character that starts one, and then only
/// characters that continue one.
pub open spec fn is_identifier(text: Seq<char>) -> bool {
    &&& text.len() >= 1
    &&& is_ident_start(text[0])
    &&& forall|i: int| 1 <= i < text.len() ==> is_ident_continue(#[trigger] text[i])
}

/// `text` is `first`, then spaces, then `last`.
pub open spec fn is_pair(text: Seq<char>, first: char, last: char) -> bool {
    &&& text.len() >= 2
    &&& text[0] == first
    &&& text[text.len() - 1] == last
    &&& spaces(text, 1, text.len() - 1)
}

/// `text` is `<`, `/` and `>` with spaces between them.
pub open spec fn is_fragment_close(text: Seq<char>) -> bool {
    exists|k: int|
        {
            &&& 0 < k < text.len() - 1
            &&& text[0] == '<'
            &&& #[trigger] text[k] == '/'
            &&& text[text.len() - 1] == '>'
            &&& spaces(text, 1, k)
            &&& spaces(text, k + 1, text.len() - 1)
        }
}

/// `text` is a string literal: a quote, and the first quote of the same
/// kind behind it that no backslash escapes is its last character.
pub open spec fn is_string(text: Seq<char>) -> bool {
    &&& text.len() >= 2
    &&& (text[0] == '"' || text[0] == '\'')
    &&& string_end(text, 1, text[0]) == Some(text.len() as int)
}

/// Whether `text` is what a token of the kind `token` is written as.
pub open spec fn spells(token: Token, text: Seq<char>) -> bool {
    match token {
        Token::EndOfProgram | Token::UnexpectedToken => false,
        Token::ElementOpen => text == seq!['<'],
        Token::ElementClose => text == seq!['>'],
        Token::SelfClosingElementClose => is_pair(text, '/', '>'),
        Token::ClosingElementOpen => is_pair(text, '<', '/'),
        Token::FragmentOpen => is_pair(text, '<', '>'),
        Token::FragmentClose => is_fragment_close(text),
        Token::Identifier => is_identifier(text),
        Token::LiteralString => is_string(text),
        Token::Assign => text == seq!['='],
        Token::Colon => text == seq![':'],
        Token::Dit => text == seq!['.'],
        Token::Comma => text == seq![','],
        Token::Spread => text == seq!['.', '.', '.'],
        Token::BraceOpen => text == seq!['{'],
        Token::BraceClose => text == seq!['}'],
    }
}

/// A string literal closes at the same place when it is looked at alone.
pub proof fn lemma_string_end_alone(code: Seq<char>, s: int, i: int, quote: char)
    requires
        0 <= s <= i,
        string_end(code, i, quote) is Some,
    ensures
        string_end(code.subrange(s, string_end(code, i, quote).unwrap()), i - s, quote) == Some(
            string_end(code, i, quote).unwrap() - s,
        ),
    decreases code.len() + 1 - i,
{
    let e = string_end(code, i, quote).unwrap();
    lemma_string_end(code, i, quote);
    let text = code.subrange(s, e);
    assert(text[i - s] == code[i]);
    if code[i] == '\\' {
        lemma_string_end_alone(code, s, i + 2, quote);
    } else if code[i] != quote {
        lemma_string_end_alone(code, s, i + 1, quote);
    }
}

/// Where only spaces were skipped, the text that holds them has only spaces
/// there.
proof fn lemma_spaces(code: Seq<char>, s: int, e: int, from: int)
    requires
        0 <= s <= from <= e <= code.len(),
        skip_while(code, from, |c: char| is_space(c)) < e,
    ensures
        spaces(
            code.subrange(s, e),
            from - s,
            skip_while(code, from, |c: char| is_space(c)) - s,
        ),
{
    let space = |c: char| is_space(c);
    let text = code.subrange(s, e);
    lemma_skip_while(code, from, space);
    assert forall|i: int| from - s <= i < skip_while(code, from, space) - s implies #[trigger] text[i]
        == ' ' by {
        assert(space(code[s + i]));
    }
}

/// The token that a step finds is written in the source at its range: the
/// range holds all of the token and nothing else. What was passed over
/// before it begins no token.
pub proof fn lemma_lex_step_spells(code: Seq<char>, cursor: Cursor)
    requires
        cursor.end <= code.len(),
    ensures
        ({
            let next = lex_step(code, cursor);
            next.result is Ok ==> {
                &&& spells(
                    next.cursor.token,
                    code.subrange(next.cursor.start as int, next.cursor.end as int),
                )
                &&& forall|i: int|
                    cursor.end <= i < next.cursor.start ==> is_filler(#[trigger] code[i])
            }
        }),
{
    reveal(lex_step);
    lemma_lex_step(code, cursor);
    let filler = |c: char| is_filler(c);
    let space = |c: char| is_space(c);
    let more = |c: char| is_ident_continue(c);
    let next = lex_step(code, cursor);
    if next.result is Ok {
        let s = skip_while(code, cursor.end as int, filler);
        let e = next.cursor.end as int;
        let text = code.subrange(s, e);
        let c = code[s];
        lemma_skip_while(code, cursor.end as int, filler);
        assert forall|i: int| cursor.end <= i < next.cursor.start implies is_filler(
            #[trigger] code[i],
        ) by {
            assert(filler(code[i]));
        }
        assert(text[0] == c);
        if c == '<' || c == '/' {
            let p = skip_while(code, s + 1, space);
            lemma_skip_while(code, s + 1, space);
            if c == '<' && code[p] == '/' {
                let q = skip_while(code, p + 1, space);
                lemma_skip_while(code, p + 1, space);
                if code[q] == '>' {
                    lemma_spaces(code, s, e, s + 1);
                    lemma_spaces(code, s, e, p + 1);
                    assert(text[p - s] == '/');
                } else {
                    lemma_spaces(code, s, e, s + 1);
                }
            } else if code[p] == '>' {
                lemma_spaces(code, s, e, s + 1);
            } else {
                assert(text =~= seq!['<']);
            }
        } else if c == '"' || c == '\'' {
            lemma_string_end(code, s + 1, c);
            lemma_string_end_alone(code, s, s + 1, c);
        } else if c == '.' {
            if s + 2 < code.len() && code[s + 1] == '.' && code[s + 2] == '.' {
                assert(text =~= seq!['.', '.', '.']);
            } else {
                assert(text =~= seq!['.']);
            }
        } else if c == '>' || c == '=' || c == '{' || c == '}' || c == ',' || c == ':' {
            assert(text =~= seq![c]);
        } else {
            lemma_skip_while(code, s + 1, more);
            assert forall|i: int| 1 <= i < text.len() implies is_ident_continue(
                #[trigger] text[i],
            ) by {
                assert(more(code[s + i]));
            }
        }
    }
}

/// The current token, unless it is one of the two markers, is written in
/// the source at its range.
#[verifier::opaque]
pub open spec fn spelled(code: Seq<char>, cursor: Cursor) -> bool {
    cursor.token != Token::EndOfProgram && cursor.token != Token::UnexpectedToken ==> spells(
        cursor.token,
        code.subrange(cursor.start as int, cursor.end as int),
    )
}

/// A cursor as a lexer on `code` comes to have it: the range of the current
/// token lies within the source and holds that token, and the end of the
/// input is reported at its end.
pub open spec fn placed(code: Seq<char>, cursor: Cursor) -> bool {
    &&& cursor.start <= cursor.end <= code.len()
    &&& cursor.token == Token::EndOfProgram ==> cursor.end == code.len()
    &&& spelled(code, cursor)
}

/// A step of the lexer leaves such a cursor behind.
pub proof fn lemma_lex_step_placed(code: Seq<char>, cursor: Cursor)
    requires
        placed(code, cursor),
    ensures
        placed(code, lex_step(code, cursor).cursor),
{
    reveal(spelled);
    lemma_lex_step(code, cursor);
    lemma_lex_step_spells(code, cursor);
}

/// Reads the tokens of a source one by one. It holds the current token and
/// no other.
pub struct Lexer<'a> {
    code: &'a [char],
    /// The current token.
    pub token: Token,
    /// Where the next token is looked for: the end of the current one.
    index: usize,
    /// Where the current token starts.
    token_start: usize,
}

impl<'a> View for Lexer<'a> {
    type V = Cursor;

    closed spec fn view(&self) -> Cursor {
        Cursor { token: self.token, start: self.token_start as nat, end: self.index as nat }
    }
}

impl<'a> Lexer<'a> {
    /// The characters that this lexer reads.
    pub closed spec fn source(&self) -> Seq<char> {
        self.code@
    }

    /// The current token's range lies within the source.
    pub closed spec fn wf(&self) -> bool {
        self.token_start <= self.index <= self.code@.len()
    }

    /// The range of a lexer's current token lies within its source.
    pub proof fn lemma_wf(&self)
        requires
            self.wf(),
        ensures
            self@.start <= self@.end <= self.source().len() <= usize::MAX,
    {
        assert(self.code@.len() == self.code.len());
    }

    /// A lexer at the start of `code`, with no token read yet.
    pub fn new(code: &'a [char]) -> (lexer: Self)
        ensures
            lexer.wf(),
            lexer.source() == code@,
            lexer@.start == 0,
            lexer@.end == 0,
            lexer@.token == if code@.len() == 0 {
                Token::EndOfProgram
            } else {
                Token::UnexpectedToken
            },
            placed(code@, lexer@),
    {
        proof {
            reveal(spelled);
        }
        let token = if code.len() == 0 {
            Token::EndOfProgram
        } else {
            Token::UnexpectedToken
        };
        Lexer { code, token, index: 0, token_start: 0 }
    }

    /// Where the current token starts.
    pub fn start(&self) -> (r: usize)
        ensures
            r == self@.start,
    {
        self.token_start
    }

    /// Where the current token ends, and the next one is looked for.
    pub fn end(&self) -> (r: usize)
        ensures
            r == self@.end,
    {
        self.index
    }

    /// The current token.
    pub fn token(&self) -> (r: Token)
        ensures
            r == self@.token,
    {
        self.token
    }

    /// The range of the current token.
    pub fn loc(&self) -> (r: (usize, usize))
        ensures
            r.0 == self@.start,
            r.1 == self@.end,
    {
        (self.start(), self.end())
    }

    /// The index of the first character from `from` on that is no space.
    fn skip_spaces(&self, from: usize) -> (r: usize)
        requires
            from <= self.code@.len(),
        ensures
            r == skip_while(self.code@, from as int, |c: char| is_space(c)),
            from <= r <= self.code@.len(),
    {
        let n = self.code.len();
        let mut i = from;
        while i < n && self.code[i] == ' '
            invariant
                n == self.code@.len(),
                from <= i <= n,
                skip_while(self.code@, from as int, |c: char| is_space(c)) == skip_while(
                    self.code@,
                    i as int,
                    |c: char| is_space(c),
                ),
            decreases n - i,
        {
            i += 1;
        }
        i
    }

    fn set(&mut self, token: Token, start: usize, end: usize)
        requires
            start <= end <= old(self).code@.len(),
        ensures
            final(self).wf(),
            final(self).source() == old(self).source(),
            final(self)@ == (Cursor { token, start: start as nat, end: end as nat }),
    {
        self.token = token;
        self.token_start = start;
        self.index = end;
    }

    fn truncated(&mut self, start: usize) -> (r: Result<(), Error>)
        requires
            start <= old(self).code@.len(),
        ensures
            final(self).wf(),
            final(self).source() == old(self).source(),
            (Scan { cursor: final(self)@, result: r }) == truncated(
                old(self).source(),
                start as int,
            ),
    {
        let n = self.code.len();
        self.set(Token::UnexpectedToken, start, n);
        Err(Error::UnexpectedEndOfProgram)
    }

    fn found(&mut self, token: Token, start: usize, end: usize) -> (r: Result<(), Error>)
        requires
            start <= end <= old(self).code@.len(),
        ensures
            final(self).wf(),
            final(self).source() == old(self).source(),
            (Scan { cursor: final(self)@, result: r }) == found(token, start as int, end as int),
    {
        self.set(token, start, end);
        Ok(())
    }

    fn consume_angle(&mut self, s: usize) -> (r: Result<(), Error>)
        requires
            s < old(self).code@.len(),
        ensures
            final(self).wf(),
            final(self).source() == old(self).source(),
            (Scan { cursor: final(self)@, result: r }) == scan_angle(
                old(self).source(),
                s as int,
            ),
    {
        let n = self.code.len();
        let p = self.skip_spaces(s + 1);
        if p >= n {
            return self.truncated(s);
        }
        let c = self.code[p];
        if c == '/' {
            let q = self.skip_spaces(p + 1);
            if q >= n {
                self.truncated(s)
            } else if self.code[q] == '>' {
                self.found(Token::FragmentClose, s, q + 1)
            } else {
                self.found(Token::ClosingElementOpen, s, p + 1)
            }
        } else if c == '>' {
            self.found(Token::FragmentOpen, s, p + 1)
        } else {
            self.found(Token::ElementOpen, s, s + 1)
        }
    }

    fn consume_slash(&mut self, s: usize) -> (r: Result<(), Error>)
        requires
            s < old(self).code@.len(),
        ensures
            final(self).wf(),
            final(self).source() == old(self).source(),
            (Scan { cursor: final(self)@, result: r }) == scan_slash(
                old(self).source(),
                s as int,
            ),
    {
        let n = self.code.len();
        let p = self.skip_spaces(s + 1);
        if p >= n {
            self.truncated(s)
        } else if self.code[p] == '>' {
            self.found(Token::SelfClosingElementClose, s, p + 1)
        } else {
            self.set(Token::UnexpectedToken, s, p);
            Err(Error::UnexpectedToken)
        }
    }

    fn consume_dot(&mut self, s: usize) -> (r: Result<(), Error>)
        requires
            s < old(self).code@.len(),
        ensures
            final(self).wf(),
            final(self).source() == old(self).source(),
            (Scan { cursor: final(self)@, result: r }) == scan_dot(old(self).source(), s as int),
    {
        let n = self.code.len();
        if n - s <= 1 {
            self.truncated(s)
        } else if self.code[s + 1] != '.' {
            self.found(Token::Dit, s, s + 1)
        } else if n - s <= 2 {
            self.truncated(s)
        } else if self.code[s + 2] == '.' {
            self.found(Token::Spread, s, s + 3)
        } else {
            self.found(Token::Dit, s, s + 1)
        }
    }

    fn consume_string(&mut self, s: usize) -> (r: Result<(), Error>)
        requires
            s < old(self).code@.len(),
        ensures
            final(self).wf(),
            final(self).source() == old(self).source(),
            (Scan { cursor: final(self)@, result: r }) == scan_string(
                old(self).source(),
                s as int,
            ),
    {
        let n = self.code.len();
        let quote = self.code[s];
        let mut i: usize = s + 1;
        loop
            invariant
                n == self.code@.len(),
                s < i <= n,
                quote == self.code@[s as int],
                self.code == old(self).code,
                string_end(self.code@, s + 1, quote) == string_end(self.code@, i as int, quote),
            decreases n - i,
        {
            if i >= n {
                return self.truncated(s);
            }
            let c = self.code[i];
            if c == '\\' {
                if n - i <= 1 {
                    assert(string_end(self.code@, i + 2, quote) is None);
                    return self.truncated(s);
                }
                i += 2;
            } else if c == quote {
                return self.found(Token::LiteralString, s, i + 1);
            } else {
                i += 1;
            }
        }
    }

    fn consume_identifier(&mut self, s: usize) -> (r: Result<(), Error>)
        requires
            s < old(self).code@.len(),
        ensures
            final(self).wf(),
            final(self).source() == old(self).source(),
            (Scan { cursor: final(self)@, result: r }) == found(
                Token::Identifier,
                s as int,
                skip_while(old(self).source(), s + 1, |c: char| is_ident_continue(c)),
            ),
    {
        let n = self.code.len();
        let mut i: usize = s + 1;
        while i < n && continues_identifier(self.code[i])
            invariant
                n == self.code@.len(),
                s < i <= n,
                skip_while(self.code@, s + 1, |c: char| is_ident_continue(c)) == skip_while(
                    self.code@,
                    i as int,
                    |c: char| is_ident_continue(c),
                ),
            decreases n - i,
        {
            i += 1;
        }
        self.found(Token::Identifier, s, i)
    }

    /// Whether `c` begins a token.
    fn begins_token(c: char) -> (r: bool)
        ensures
            r == starts_token(c),
    {
        c == '<' || c == '/' || c == '>' || c == '=' || c == '"' || c == '\'' || c == '{' || c
            == '}' || c == ',' || c == '.' || c == ':' || starts_identifier(c)
    }

    /// Moves to the next token. `Ok` when one was read; then it is neither
    /// `EndOfProgram` nor `UnexpectedToken`. The three failures: the input
    /// ended between tokens (and every later call says so again), it ended
    /// inside a token, or a `/` is not followed by `>`.
    pub fn consume(&mut self) -> (r: Result<(), Error>)
        requires
            old(self).wf(),
        ensures
            final(self).wf(),
            final(self).source() == old(self).source(),
            (Scan { cursor: final(self)@, result: r }) == lex_step(old(self).source(), old(self)@),
            r is Ok ==> spells(
                final(self)@.token,
                final(self).source().subrange(final(self)@.start as int, final(self)@.end as int),
            ),
    {
        proof {
            reveal(lex_step);
            lemma_lex_step_spells(self.code@, self@);
        }
        if self.token == Token::EndOfProgram {
            return Err(Error::EndOfProgram);
        }
        let n = self.code.len();
        let mut s = self.index;
        while s < n && !Self::begins_token(self.code[s])
            invariant
                n == self.code@.len(),
                self.index <= s <= n,
                skip_while(self.code@, self.index as int, |c: char| is_filler(c)) == skip_while(
                    self.code@,
                    s as int,
                    |c: char| is_filler(c),
                ),
            decreases n - s,
        {
            s += 1;
        }
        if s >= n {
            self.set(Token::EndOfProgram, n, n);
            return Err(Error::EndOfProgram);
        }
        let c = self.code[s];
        if c == '<' {
            self.consume_angle(s)
        } else if c == '/' {
            self.consume_slash(s)
        } else if c == '>' {
            self.found(Token::ElementClose, s, s + 1)
        } else if c == '=' {
            self.found(Token::Assign, s, s + 1)
        } else if c == '"' || c == '\'' {
            self.consume_string(s)
        } else if c == '{' {
            self.found(Token::BraceOpen, s, s + 1)
        } else if c == '}' {
            self.found(Token::BraceClose, s, s + 1)
        } else if c == ',' {
            self.found(Token::Comma, s, s + 1)
        } else if c == '.' {
            self.consume_dot(s)
        } else if c == ':' {
            self.found(Token::Colon, s, s + 1)
        } else {
            self.consume_identifier(s)
        }
    }

    /// The characters of `[start, end)`.
    pub fn slice_source(&self, start: usize, end: usize) -> (r: &[char])
        requires
            start <= end <= self.source().len(),
        ensures
            r@ == self.source().subrange(start as int, end as int),
    {
        slice_subrange(self.code, start, end)
    }
}

} // verus!
