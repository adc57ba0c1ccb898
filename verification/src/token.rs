//! Lexical analysis: characters to tokens, with one-token lookahead, a LIFO
//! token-injection stack, and a statement-boundary recovery scan.
//!
//! The stream is modelled by `StreamModel`: the character buffer, the cursor,
//! and the pending (put-back) tokens. What `next` yields is given exactly by
//! the spec function `stream_next`.

use crate::value::{parse_f64, parse_number_text, Num};
use vstd::prelude::*;

verus! {

/// An atomic lexical unit.
#[derive(Debug, PartialEq)]
pub enum Token {
    Number(Num),
    Symbol(char),
    Let,
    Name(String),
    EndStatement,
    Quit,
    Noop,
}

/// The mathematical form of a token: names as character sequences, numbers as
/// bit patterns.
pub enum Lexeme {
    Number(u64),
    Symbol(char),
    Let,
    Name(Seq<char>),
    EndStatement,
    Quit,
    Noop,
}

impl View for Token {
    type V = Lexeme;

    open spec fn view(&self) -> Lexeme {
        match self {
            Token::Number(n) => Lexeme::Number(n.bits),
            Token::Symbol(c) => Lexeme::Symbol(*c),
            Token::Let => Lexeme::Let,
            Token::Name(s) => Lexeme::Name(s@),
            Token::EndStatement => Lexeme::EndStatement,
            Token::Quit => Lexeme::Quit,
            Token::Noop => Lexeme::Noop,
        }
    }
}

impl Clone for Token {
    fn clone(&self) -> (r: Token)
        ensures
            r == *self,
    {
        match self {
            Token::Number(n) => Token::Number(*n),
            Token::Symbol(c) => Token::Symbol(*c),
            Token::Let => Token::Let,
            Token::Name(s) => Token::Name(s.clone()),
            Token::EndStatement => Token::EndStatement,
            Token::Quit => Token::Quit,
            Token::Noop => Token::Noop,
        }
    }
}

/// A failure of the lexer itself.
#[derive(Debug, PartialEq)]
pub enum TokenizationError {
    InvalidSymbol(char),
    InvalidNumber(String),
}

/// The mathematical form of a lexer failure.
pub enum LexFault {
    InvalidSymbol(char),
    InvalidNumber(Seq<char>),
}

impl View for TokenizationError {
    type V = LexFault;

    open spec fn view(&self) -> LexFault {
        match self {
            TokenizationError::InvalidSymbol(c) => LexFault::InvalidSymbol(*c),
            TokenizationError::InvalidNumber(s) => LexFault::InvalidNumber(s@),
        }
    }
}

// ---------- character classes ----------

/// Whether the character is Unicode whitespace.
pub uninterp spec fn whitespace_char(c: char) -> bool;

/// Whether the character is a Unicode letter.
pub uninterp spec fn alphabetic_char(c: char) -> bool;

/// Whether the character is a Unicode letter or digit.
pub uninterp spec fn alphanumeric_char(c: char) -> bool;

/// Relies on char::is_whitespace: the Unicode White_Space property, decided by
/// the character alone.
#[verifier::external_body]
fn is_space(c: char) -> (b: bool)
    ensures
        b == whitespace_char(c),
{
    c.is_whitespace()
}

/// Relies on char::is_alphabetic: the Unicode letter categories, decided by
/// the character alone. A letter is in particular alphanumeric, as the
/// documentation of char::is_alphanumeric states.
#[verifier::external_body]
fn is_alpha(c: char) -> (b: bool)
    ensures
        b == alphabetic_char(c),
        b ==> alphanumeric_char(c),
{
    c.is_alphabetic()
}

/// Relies on char::is_alphanumeric: letter or number, decided by the
/// character alone.
#[verifier::external_body]
fn is_alnum(c: char) -> (b: bool)
    ensures
        b == alphanumeric_char(c),
{
    c.is_alphanumeric()
}

/// An ASCII decimal digit.
pub open spec fn digit_char(c: char) -> bool {
    48 <= c as u32 <= 57
}

/// A character that can open a number literal.
pub open spec fn literal_start(c: char) -> bool {
    digit_char(c) || c == '.'
}

/// A character that can continue a number literal whose text so far is `acc`:
/// right after an exponent marker only digits and signs; elsewhere digits,
/// the decimal point and the exponent markers.
pub open spec fn literal_part(c: char, acc: Seq<char>) -> bool {
    if acc.len() > 0 && (acc.last() == 'e' || acc.last() == 'E') {
        digit_char(c) || c == '-' || c == '+'
    } else {
        digit_char(c) || c == '.' || c == 'e' || c == 'E'
    }
}

/// A literal whose exponent marker has no digits after it: such a text is
/// not a number.
pub open spec fn empty_exponent(lit: Seq<char>) -> bool {
    lit.len() > 0 && (lit.last() == 'e' || lit.last() == 'E' || ((lit.last() == '+' || lit.last()
        == '-') && lit.len() >= 2 && (lit[lit.len() - 2] == 'e' || lit[lit.len() - 2] == 'E')))
}

/// A reserved symbol character.
pub open spec fn symbol_char(c: char) -> bool {
    c == '+' || c == '-' || c == '*' || c == '/' || c == '!' || c == '(' || c == ')' || c == '='
        || c == ';' || c == 'q'
}

/// Whether a character can open a number literal.
pub fn is_beginning_of_literal(c: char) -> (b: bool)
    ensures
        b == literal_start(c),
{
    let u = c as u32;
    (48 <= u && u <= 57) || c == '.'
}

/// Whether a character can continue the number literal read so far.
pub fn is_part_of_literal(c: char, ctx: &str) -> (b: bool)
    ensures
        b == literal_part(c, ctx@),
{
    let n = ctx.unicode_len();
    if n > 0 {
        let last = ctx.get_char(n - 1);
        if last == 'e' || last == 'E' {
            let u = c as u32;
            return (48 <= u && u <= 57) || c == '-' || c == '+';
        }
    }
    let u = c as u32;
    (48 <= u && u <= 57) || c == '.' || c == 'e' || c == 'E'
}

/// Whether a character is one of the reserved symbols.
pub fn is_valid_symbol(c: char) -> (b: bool)
    ensures
        b == symbol_char(c),
{
    match c {
        '+' | '-' | '*' | '/' | '!' | '(' | ')' | '=' | ';' | 'q' => true,
        _ => false,
    }
}

// ---------- the stream model ----------

/// The state of a token stream: the full character buffer, the cursor, and
/// the pending put-back tokens (last in, first out).
#[verifier::ext_equal]
pub struct StreamModel {
    pub text: Seq<char>,
    pub cursor: int,
    pub pending: Seq<Lexeme>,
}

impl StreamModel {
    /// The cursor stays within the buffer and no `Noop` is ever pending.
    pub open spec fn wf(self) -> bool {
        &&& 0 <= self.cursor <= self.text.len()
        &&& forall|i: int| 0 <= i < self.pending.len() ==> self.pending[i] != Lexeme::Noop
    }

    /// How much input is left: pending tokens plus unread characters.
    pub open spec fn measure(self) -> int {
        self.pending.len() + self.text.len() - self.cursor
    }

    pub open spec fn with_cursor(self, c: int) -> StreamModel {
        StreamModel { cursor: c, ..self }
    }

    pub open spec fn push(self, l: Lexeme) -> StreamModel {
        StreamModel { pending: self.pending.push(l), ..self }
    }

    pub open spec fn pop(self) -> StreamModel {
        StreamModel { pending: self.pending.drop_last(), ..self }
    }
}

/// What one call to `next` yields.
pub enum LexOutcome {
    Lexed(Lexeme),
    End,
    Fault(LexFault),
}

/// The first position at or after `i` whose character is not whitespace.
pub open spec fn skip_spaces(text: Seq<char>, i: int) -> int
    decreases text.len() - i,
{
    if i < text.len() && whitespace_char(text[i]) {
        skip_spaces(text, i + 1)
    } else {
        i
    }
}

/// Scan a number literal: the end position and the text read, continuing the
/// accumulated text `acc` from position `i`.
pub open spec fn scan_literal(text: Seq<char>, i: int, acc: Seq<char>) -> (int, Seq<char>)
    decreases text.len() - i,
{
    if i < text.len() && literal_part(text[i], acc) {
        scan_literal(text, i + 1, acc.push(text[i]))
    } else {
        (i, acc)
    }
}

/// Scan an identifier: the end position and the text read.
pub open spec fn scan_word(text: Seq<char>, i: int, acc: Seq<char>) -> (int, Seq<char>)
    decreases text.len() - i,
{
    if i < text.len() && alphanumeric_char(text[i]) {
        scan_word(text, i + 1, acc.push(text[i]))
    } else {
        (i, acc)
    }
}

pub open spec fn keyword_let() -> Seq<char> {
    seq!['l', 'e', 't']
}

/// What lexing yields from position `pos` of the buffer, pending tokens
/// aside: the new cursor and the outcome.
pub open spec fn lex_from(text: Seq<char>, pos: int) -> (int, LexOutcome) {
    let i = skip_spaces(text, pos);
    if i >= text.len() {
        (i, LexOutcome::End)
    } else {
        let c = text[i];
        if literal_start(c) {
            let (j, lit) = scan_literal(text, i, Seq::empty());
            if empty_exponent(lit) {
                (j, LexOutcome::Fault(LexFault::InvalidNumber(lit)))
            } else {
                match parse_f64(lit) {
                    Some(bits) => (j, LexOutcome::Lexed(Lexeme::Number(bits))),
                    None => (j, LexOutcome::Fault(LexFault::InvalidNumber(lit))),
                }
            }
        } else if symbol_char(c) {
            if c == ';' {
                if i + 1 < text.len() {
                    (i + 1, LexOutcome::Lexed(Lexeme::EndStatement))
                } else {
                    (i + 1, LexOutcome::End)
                }
            } else if c == 'q' {
                (i + 1, LexOutcome::Lexed(Lexeme::Quit))
            } else {
                (i + 1, LexOutcome::Lexed(Lexeme::Symbol(c)))
            }
        } else if alphabetic_char(c) {
            let (j, w) = scan_word(text, i + 1, seq![c]);
            if w == keyword_let() {
                (j, LexOutcome::Lexed(Lexeme::Let))
            } else {
                (j, LexOutcome::Lexed(Lexeme::Name(w)))
            }
        } else {
            (i + 1, LexOutcome::Fault(LexFault::InvalidSymbol(c)))
        }
    }
}

/// What one call to `next` yields on a stream in state `s`, and the state it
/// leaves: a pending token is handed out before any character is read.
pub open spec fn stream_next(s: StreamModel) -> (StreamModel, LexOutcome) {
    if s.pending.len() > 0 {
        (s.pop(), LexOutcome::Lexed(s.pending.last()))
    } else {
        let (p, out) = lex_from(s.text, s.cursor);
        (s.with_cursor(p), out)
    }
}

/// The first position at or after `i` holding `;`, or the end of the buffer.
pub open spec fn discard_from(text: Seq<char>, i: int) -> int
    decreases text.len() - i,
{
    if i < text.len() && text[i] != ';' {
        discard_from(text, i + 1)
    } else {
        i
    }
}

// ---------- facts about the spec lexer ----------

pub proof fn lemma_skip_spaces_bounds(text: Seq<char>, i: int)
    requires
        0 <= i <= text.len(),
    ensures
        i <= skip_spaces(text, i) <= text.len(),
    decreases text.len() - i,
{
    if i < text.len() && whitespace_char(text[i]) {
        lemma_skip_spaces_bounds(text, i + 1);
    }
}

pub proof fn lemma_scan_literal_bounds(text: Seq<char>, i: int, acc: Seq<char>)
    requires
        0 <= i <= text.len(),
    ensures
        i <= scan_literal(text, i, acc).0 <= text.len(),
    decreases text.len() - i,
{
    if i < text.len() && literal_part(text[i], acc) {
        lemma_scan_literal_bounds(text, i + 1, acc.push(text[i]));
    }
}

pub proof fn lemma_scan_word_bounds(text: Seq<char>, i: int, acc: Seq<char>)
    requires
        0 <= i <= text.len(),
    ensures
        i <= scan_word(text, i, acc).0 <= text.len(),
    decreases text.len() - i,
{
    if i < text.len() && alphanumeric_char(text[i]) {
        lemma_scan_word_bounds(text, i + 1, acc.push(text[i]));
    }
}

pub proof fn lemma_discard_bounds(text: Seq<char>, i: int)
    requires
        0 <= i <= text.len(),
    ensures
        i <= discard_from(text, i) <= text.len(),
    decreases text.len() - i,
{
    if i < text.len() && text[i] != ';' {
        lemma_discard_bounds(text, i + 1);
    }
}

proof fn lemma_skip_spaces_range(text: Seq<char>, pos: int, p: int)
    requires
        0 <= pos <= p <= skip_spaces(text, pos),
    ensures
        skip_spaces(text, p) == skip_spaces(text, pos),
    decreases p - pos,
{
    if pos < p {
        lemma_skip_spaces_range(text, pos + 1, p);
    }
}

/// Whitespace before a token is without effect: lexing from any position up
/// to the first non-whitespace character yields the same cursor and the same
/// outcome.
pub proof fn lemma_leading_whitespace_ignored(text: Seq<char>, pos: int, p: int)
    requires
        0 <= pos <= p <= skip_spaces(text, pos),
    ensures
        lex_from(text, p) == lex_from(text, pos),
{
    lemma_skip_spaces_range(text, pos, p);
}

/// Lexing from the buffer advances the cursor, stays inside the buffer, and
/// never yields the internal `Noop` token; a token or a fault consumes at
/// least one character.
pub proof fn lemma_lex_from(text: Seq<char>, pos: int)
    requires
        0 <= pos <= text.len(),
    ensures
        ({
            let (p, out) = lex_from(text, pos);
            &&& pos <= p <= text.len()
            &&& (out matches LexOutcome::Lexed(l) ==> p > pos && l != Lexeme::Noop)
            &&& (out is Fault ==> p > pos)
        }),
{
    lemma_skip_spaces_bounds(text, pos);
    let i = skip_spaces(text, pos);
    if i < text.len() {
        let c = text[i];
        if literal_start(c) {
            assert(literal_part(c, Seq::empty()));
            lemma_scan_literal_bounds(text, i + 1, Seq::empty().push(c));
            assert(scan_literal(text, i, Seq::empty()).0 >= i + 1);
        } else if symbol_char(c) {
        } else if alphabetic_char(c) {
            lemma_scan_word_bounds(text, i + 1, seq![c]);
        }
    }
}

/// One step of the stream: the buffer is kept, well-formedness is kept, and
/// the measure shrinks whenever a token or a fault comes out.
pub proof fn lemma_stream_next(s: StreamModel)
    requires
        s.wf(),
    ensures
        ({
            let (s1, out) = stream_next(s);
            &&& s1.wf()
            &&& s1.text == s.text
            &&& s1.measure() <= s.measure()
            &&& (out matches LexOutcome::Lexed(l) ==> s1.measure() < s.measure() && l
                != Lexeme::Noop)
            &&& (out is Fault ==> s1.measure() < s.measure())
        }),
{
    if s.pending.len() > 0 {
        assert(s.pending.last() != Lexeme::Noop);
    } else {
        lemma_lex_from(s.text, s.cursor);
    }
}

// ---------- the executable stream ----------

/// A character buffer with a cursor and a put-back stack of tokens.
pub struct TokenStream {
    buffer: Vec<char>,
    pos: usize,
    put_back: Vec<Token>,
}

impl View for TokenStream {
    type V = StreamModel;

    closed spec fn view(&self) -> StreamModel {
        StreamModel {
            text: self.buffer@,
            cursor: self.pos as int,
            pending: self.put_back@.map(|i: int, t: Token| t@),
        }
    }
}

/// The characters that the raw input denotes.
pub uninterp spec fn lossy_decode(bytes: Seq<u8>) -> Seq<char>;

/// Relies on String::from_utf8_lossy: the characters depend on the bytes
/// alone.
#[verifier::external_body]
fn decode_lossy(input: &[u8]) -> (v: Vec<char>)
    ensures
        v@ == lossy_decode(input@),
{
    String::from_utf8_lossy(input).chars().collect()
}

/// Relies on str::as_bytes: it yields the UTF-8 encoding of the text, whose
/// lossy decoding is the text's own characters.
#[verifier::external_body]
pub(crate) fn str_bytes(s: &str) -> (b: &[u8])
    ensures
        lossy_decode(b@) == s@,
{
    s.as_bytes()
}

/// Relies on String::push: appends one character.
#[verifier::external_body]
fn push_char(s: &mut String, c: char)
    ensures
        final(s)@ == old(s)@.push(c),
{
    s.push(c);
}

impl TokenStream {
    /// A fresh stream over the given raw input.
    pub fn new(input: &[u8]) -> (ts: TokenStream)
        ensures
            ts@.text == lossy_decode(input@),
            ts@.cursor == 0,
            ts@.pending == Seq::<Lexeme>::empty(),
            ts@.wf(),
    {
        let ts = TokenStream { buffer: decode_lossy(input), pos: 0, put_back: Vec::new() };
        proof {
            assert(ts@.pending =~= Seq::<Lexeme>::empty());
        }
        ts
    }

    /// Hand out the next token: a pending token first, else whatever the
    /// characters at the cursor lex to. Yields nothing at the end of the
    /// buffer and when a `;` stands on its last position.
    pub fn next(&mut self) -> (r: Result<Option<Token>, TokenizationError>)
        requires
            old(self)@.wf(),
        ensures
            final(self)@.wf(),
            ({
                let (s2, out) = stream_next(old(self)@);
                &&& final(self)@ == s2
                &&& match out {
                    LexOutcome::Lexed(l) => r matches Ok(Some(t)) && t@ == l,
                    LexOutcome::End => r matches Ok(None),
                    LexOutcome::Fault(f) => r matches Err(e) && e@ == f,
                }
            }),
    {
        if self.put_back.len() > 0 {
            let t = self.put_back.pop().unwrap();
            proof {
                assert(self@.pending =~= old(self)@.pending.drop_last());
                assert(t@ == old(self)@.pending.last());
                assert(self@ == old(self)@.pop());
            }
            return Ok(Some(t));
        }
        let ghost text = self@.text;
        let ghost i0 = self@.cursor;
        // Skip whitespace.
        loop
            invariant
                self@.wf(),
                self@.text == text,
                self@.pending == old(self)@.pending,
                self@.pending.len() == 0,
                i0 <= self@.cursor,
                skip_spaces(text, i0) == skip_spaces(text, self@.cursor),
            ensures
                self@.wf(),
                self@.text == text,
                self@.pending == old(self)@.pending,
                self@.pending.len() == 0,
                self@.cursor == skip_spaces(text, i0),
            decreases self@.text.len() - self@.cursor,
        {
            if self.pos >= self.buffer.len() {
                break ;
            }
            let c = self.buffer[self.pos];
            if !is_space(c) {
                break ;
            }
            self.pos = self.pos + 1;
        }
        if self.pos >= self.buffer.len() {
            return Ok(None);
        }
        let c = self.read_char();
        if is_beginning_of_literal(c) {
            self.pos = self.pos - 1;
            match self.read_number() {
                Ok(n) => Ok(Some(Token::Number(n))),
                Err(e) => Err(e),
            }
        } else if is_valid_symbol(c) {
            if c == ';' {
                if self.pos < self.buffer.len() {
                    Ok(Some(Token::EndStatement))
                } else {
                    Ok(None)
                }
            } else if c == 'q' {
                Ok(Some(Token::Quit))
            } else {
                Ok(Some(Token::Symbol(c)))
            }
        } else if is_alpha(c) {
            self.pos = self.pos - 1;
            proof {
                assert(scan_word(text, self@.cursor, Seq::empty()) == scan_word(
                    text,
                    self@.cursor + 1,
                    Seq::<char>::empty().push(c),
                ));
                assert(Seq::<char>::empty().push(c) =~= seq![c]);
            }
            let w = self.read_string();
            proof {
                reveal_strlit("let");
                assert("let"@ =~= keyword_let());
            }
            if w.eq(&String::from_str("let")) {
                Ok(Some(Token::Let))
            } else {
                Ok(Some(Token::Name(w)))
            }
        } else {
            Err(TokenizationError::InvalidSymbol(c))
        }
    }

    /// Look at the next token without consuming it: what `next` would yield,
    /// put back onto the pending stack.
    pub fn peek(&mut self) -> (r: Result<Option<Token>, TokenizationError>)
        requires
            old(self)@.wf(),
        ensures
            final(self)@.wf(),
            ({
                let (s2, out) = stream_next(old(self)@);
                match out {
                    LexOutcome::Lexed(l) => final(self)@ == s2.push(l) && (r matches Ok(Some(t))
                        && t@ == l),
                    LexOutcome::End => final(self)@ == s2 && (r matches Ok(None)),
                    LexOutcome::Fault(f) => final(self)@ == s2 && (r matches Err(e) && e@ == f),
                }
            }),
    {
        proof {
            lemma_stream_next(old(self)@);
        }
        let token = match self.next() {
            Ok(t) => t,
            Err(e) => {
                return Err(e);
            },
        };
        if let Some(t) = &token {
            self.put_back(t.clone());
        }
        Ok(token)
    }

    /// Inject a token: it is handed out again before any character is read.
    pub fn put_back(&mut self, token: Token)
        ensures
            final(self)@ == old(self)@.push(token@),
    {
        self.put_back.push(token);
        proof {
            assert(self@.pending =~= old(self)@.pending.push(token@));
        }
    }

    /// Abandon the statement under the cursor: advance to the next `;` or to
    /// the end of the buffer, consuming nothing. The pending stack is kept.
    pub fn discard_invalid(&mut self)
        requires
            old(self)@.wf(),
        ensures
            final(self)@.wf(),
            final(self)@ == old(self)@.with_cursor(
                discard_from(old(self)@.text, old(self)@.cursor),
            ),
    {
        let ghost text = self@.text;
        let ghost i0 = self@.cursor;
        loop
            invariant
                self@.wf(),
                self@.text == text,
                self@.pending == old(self)@.pending,
                i0 <= self@.cursor,
                discard_from(text, i0) == discard_from(text, self@.cursor),
            ensures
                self@.wf(),
                self@.text == text,
                self@.pending == old(self)@.pending,
                self@.cursor == discard_from(text, i0),
            decreases self@.text.len() - self@.cursor,
        {
            if self.pos >= self.buffer.len() {
                break ;
            }
            if self.buffer[self.pos] == ';' {
                break ;
            }
            self.pos = self.pos + 1;
        }
    }

    /// Read one character and advance.
    fn read_char(&mut self) -> (c: char)
        requires
            old(self)@.wf(),
            old(self)@.cursor < old(self)@.text.len(),
        ensures
            final(self)@.wf(),
            final(self)@ == old(self)@.with_cursor(old(self)@.cursor + 1),
            c == old(self)@.text[old(self)@.cursor],
    {
        let c = self.buffer[self.pos];
        let n = self.buffer.len();
        assert(self.pos < n);
        self.pos = self.pos + 1;
        c
    }

    /// Read a number literal at the cursor and parse it; the consumed text is
    /// exactly what `scan_literal` gives.
    fn read_number(&mut self) -> (r: Result<Num, TokenizationError>)
        requires
            old(self)@.wf(),
        ensures
            final(self)@.wf(),
            final(self)@.text == old(self)@.text,
            final(self)@.pending == old(self)@.pending,
            ({
                let (j, lit) = scan_literal(old(self)@.text, old(self)@.cursor, Seq::empty());
                &&& final(self)@.cursor == j
                &&& if empty_exponent(lit) {
                    r matches Err(e) && e@ == LexFault::InvalidNumber(lit)
                } else {
                    match parse_f64(lit) {
                        Some(bits) => r matches Ok(n) && n.bits == bits,
                        None => r matches Err(e) && e@ == LexFault::InvalidNumber(lit),
                    }
                }
            }),
    {
        let ghost text = self@.text;
        let ghost i0 = self@.cursor;
        let mut number = String::new();
        loop
            invariant
                self@.wf(),
                self@.text == text,
                self@.pending == old(self)@.pending,
                i0 <= self@.cursor,
                scan_literal(text, i0, Seq::empty()) == scan_literal(text, self@.cursor, number@),
            ensures
                self@.wf(),
                self@.text == text,
                self@.pending == old(self)@.pending,
                (self@.cursor, number@) == scan_literal(text, i0, Seq::empty()),
            decreases self@.text.len() - self@.cursor,
        {
            if self.pos >= self.buffer.len() {
                break ;
            }
            let c = self.buffer[self.pos];
            if !is_part_of_literal(c, number.as_str()) {
                break ;
            }
            push_char(&mut number, c);
            self.pos = self.pos + 1;
        }
        let ln = number.as_str().unicode_len();
        if ln > 0 {
            let lastc = number.as_str().get_char(ln - 1);
            let bad = if lastc == 'e' || lastc == 'E' {
                true
            } else if (lastc == '+' || lastc == '-') && ln >= 2 {
                let prev = number.as_str().get_char(ln - 2);
                prev == 'e' || prev == 'E'
            } else {
                false
            };
            if bad {
                return Err(TokenizationError::InvalidNumber(number));
            }
        }
        match parse_number_text(&number) {
            Some(n) => Ok(n),
            None => Err(TokenizationError::InvalidNumber(number)),
        }
    }

    /// Read a maximal alphanumeric run at the cursor.
    fn read_string(&mut self) -> (r: String)
        requires
            old(self)@.wf(),
        ensures
            final(self)@.wf(),
            final(self)@.text == old(self)@.text,
            final(self)@.pending == old(self)@.pending,
            (final(self)@.cursor, r@) == scan_word(
                old(self)@.text,
                old(self)@.cursor,
                Seq::<char>::empty(),
            ),
    {
        let ghost text = self@.text;
        let ghost i0 = self@.cursor;
        let mut name = String::new();
        loop
            invariant
                self@.wf(),
                self@.text == text,
                self@.pending == old(self)@.pending,
                i0 <= self@.cursor,
                scan_word(text, i0, Seq::empty()) == scan_word(text, self@.cursor, name@),
            ensures
                self@.wf(),
                self@.text == text,
                self@.pending == old(self)@.pending,
                (self@.cursor, name@) == scan_word(text, i0, Seq::empty()),
            decreases self@.text.len() - self@.cursor,
        {
            if self.pos >= self.buffer.len() {
                break ;
            }
            let c = self.buffer[self.pos];
            if !is_alnum(c) {
                break ;
            }
            push_char(&mut name, c);
            self.pos = self.pos + 1;
        }
        name
    }
}

} // verus!
