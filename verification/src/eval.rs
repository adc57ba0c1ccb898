//! The recursive-descent parser and the per-line evaluation driver.
//!
//! The grammar:
//!
//! ```text
//! statement  := "let" Name "=" expression
//!             | Name "=" expression
//!             | Name
//!             | expression
//! expression := term (("+" | "-") term)*
//! term       := primary (("*" | "/") primary)*
//! primary    := Number | "(" expression ")" | "-" primary | "+" primary | Name
//! ```
//!
//! What the executable parser does is given exactly by the spec functions
//! `sp_primary` .. `sp_statement`, and what one line evaluates to by
//! `sp_evaluate`. The spec parser carries a fuel argument only to ground its
//! recursion; any fuel above the stream's measure gives the same answer
//! (`lem_expression` and friends), and the executable contracts use the
//! fuel-independent `_w` forms.

use crate::token::{
    discard_from, keyword_let, lemma_discard_bounds, lemma_stream_next, lex_from, literal_start,
    scan_word, skip_spaces, str_bytes, stream_next, symbol_char, alphabetic_char,
    alphanumeric_char, whitespace_char, LexFault, LexOutcome, Lexeme, StreamModel, Token,
    TokenStream, TokenizationError,
};
use crate::value::{add_bits, div_bits, mul_bits, neg_bits, sub_bits, Num};
use crate::vars::{lemma_tbl_store_wf, tbl_has, tbl_store, tbl_value, tbl_wf, VarTable};
use vstd::pervasive::unreached;
use vstd::prelude::*;

verus! {

/// Why a statement failed.
#[derive(Debug, PartialEq)]
pub enum EvalError {
    /// The lexer itself failed.
    Lex(TokenizationError),
    /// A number, a variable or an opening parenthesis was expected.
    ExpectedPrimary,
    /// A parenthesized expression was not closed.
    ExpectedClosingParen,
    /// A variable was referenced before being defined.
    Undefined(String),
    /// `let` named a variable that is already defined.
    AlreadyDefined(String),
    /// A name is expected after `let`.
    ExpectedName,
    /// An `=` is expected after `let NAME`.
    ExpectedAssign(String),
    /// Plain assignment to a variable never defined with `let`.
    AssignUndefined(String),
}

/// The mathematical form of a statement failure.
pub enum ParseFault {
    Lex(LexFault),
    ExpectedPrimary,
    ExpectedClosingParen,
    Undefined(Seq<char>),
    AlreadyDefined(Seq<char>),
    ExpectedName,
    ExpectedAssign(Seq<char>),
    AssignUndefined(Seq<char>),
}

impl View for EvalError {
    type V = ParseFault;

    open spec fn view(&self) -> ParseFault {
        match self {
            EvalError::Lex(e) => ParseFault::Lex(e@),
            EvalError::ExpectedPrimary => ParseFault::ExpectedPrimary,
            EvalError::ExpectedClosingParen => ParseFault::ExpectedClosingParen,
            EvalError::Undefined(s) => ParseFault::Undefined(s@),
            EvalError::AlreadyDefined(s) => ParseFault::AlreadyDefined(s@),
            EvalError::ExpectedName => ParseFault::ExpectedName,
            EvalError::ExpectedAssign(s) => ParseFault::ExpectedAssign(s@),
            EvalError::AssignUndefined(s) => ParseFault::AssignUndefined(s@),
        }
    }
}

/// What parsing a piece of the grammar yields: a value and the stream state
/// left behind, or a failure and the state at the failure. `Spent` marks
/// exhausted fuel and never arises with enough of it.
pub enum ParseOut {
    Val(StreamModel, u64),
    Bad(StreamModel, ParseFault),
    Spent,
}

/// Fuel that always suffices: one more than what is left of the stream.
pub open spec fn fuel_for(s: StreamModel) -> nat {
    (s.measure() + 1) as nat
}

pub open spec fn sp_primary(
    s: StreamModel,
    tbl: Seq<(Seq<char>, Num)>,
    fuel: nat,
) -> ParseOut
    decreases fuel, 0int,
{
    if fuel == 0 {
        ParseOut::Spent
    } else {
        let (s1, out) = stream_next(s);
        match out {
            LexOutcome::Fault(f) => ParseOut::Bad(s1, ParseFault::Lex(f)),
            LexOutcome::End => ParseOut::Bad(s1, ParseFault::ExpectedPrimary),
            LexOutcome::Lexed(l) => match l {
                Lexeme::Number(b) => ParseOut::Val(s1, b),
                Lexeme::Symbol(c) => if c == '(' {
                    match sp_expression(s1, tbl, (fuel - 1) as nat) {
                        ParseOut::Val(s2, v) => {
                            let (s3, out3) = stream_next(s2);
                            match out3 {
                                LexOutcome::Fault(f) => ParseOut::Bad(s3, ParseFault::Lex(f)),
                                LexOutcome::End => ParseOut::Bad(
                                    s3,
                                    ParseFault::ExpectedClosingParen,
                                ),
                                LexOutcome::Lexed(l3) => if l3 == Lexeme::Symbol(')') {
                                    ParseOut::Val(s3, v)
                                } else {
                                    ParseOut::Bad(s3, ParseFault::ExpectedClosingParen)
                                },
                            }
                        },
                        other => other,
                    }
                } else if c == '-' {
                    match sp_primary(s1, tbl, (fuel - 1) as nat) {
                        ParseOut::Val(s2, v) => ParseOut::Val(s2, neg_bits(v)),
                        other => other,
                    }
                } else if c == '+' {
                    sp_primary(s1, tbl, (fuel - 1) as nat)
                } else {
                    ParseOut::Bad(s1, ParseFault::ExpectedPrimary)
                },
                Lexeme::Name(nm) => if tbl_has(tbl, nm) {
                    ParseOut::Val(s1, tbl_value(tbl, nm).bits)
                } else {
                    ParseOut::Bad(s1, ParseFault::Undefined(nm))
                },
                _ => ParseOut::Bad(s1, ParseFault::ExpectedPrimary),
            },
        }
    }
}

pub open spec fn sp_term_more(
    s: StreamModel,
    acc: u64,
    tbl: Seq<(Seq<char>, Num)>,
    fuel: nat,
) -> ParseOut
    decreases fuel, 1int,
{
    if fuel == 0 {
        ParseOut::Spent
    } else {
        let (s1, out) = stream_next(s);
        match out {
            LexOutcome::Fault(f) => ParseOut::Bad(s1, ParseFault::Lex(f)),
            LexOutcome::End => ParseOut::Val(s1, acc),
            LexOutcome::Lexed(l) => if l == Lexeme::Symbol('*') {
                match sp_primary(s1, tbl, fuel) {
                    ParseOut::Val(s2, v) => sp_term_more(
                        s2,
                        mul_bits(acc, v),
                        tbl,
                        (fuel - 1) as nat,
                    ),
                    other => other,
                }
            } else if l == Lexeme::Symbol('/') {
                match sp_primary(s1, tbl, fuel) {
                    ParseOut::Val(s2, v) => sp_term_more(
                        s2,
                        div_bits(acc, v),
                        tbl,
                        (fuel - 1) as nat,
                    ),
                    other => other,
                }
            } else {
                ParseOut::Val(s1.push(l), acc)
            },
        }
    }
}

pub open spec fn sp_term(s: StreamModel, tbl: Seq<(Seq<char>, Num)>, fuel: nat) -> ParseOut
    decreases fuel, 2int,
{
    if fuel == 0 {
        ParseOut::Spent
    } else {
        match sp_primary(s, tbl, fuel) {
            ParseOut::Val(s1, v) => sp_term_more(s1, v, tbl, fuel),
            other => other,
        }
    }
}

pub open spec fn sp_expr_more(
    s: StreamModel,
    acc: u64,
    tbl: Seq<(Seq<char>, Num)>,
    fuel: nat,
) -> ParseOut
    decreases fuel, 3int,
{
    if fuel == 0 {
        ParseOut::Spent
    } else {
        let (s1, out) = stream_next(s);
        match out {
            LexOutcome::Fault(f) => ParseOut::Bad(s1, ParseFault::Lex(f)),
            LexOutcome::End => ParseOut::Val(s1, acc),
            LexOutcome::Lexed(l) => if l == Lexeme::Symbol('+') {
                match sp_term(s1, tbl, fuel) {
                    ParseOut::Val(s2, v) => sp_expr_more(
                        s2,
                        add_bits(acc, v),
                        tbl,
                        (fuel - 1) as nat,
                    ),
                    other => other,
                }
            } else if l == Lexeme::Symbol('-') {
                match sp_term(s1, tbl, fuel) {
                    ParseOut::Val(s2, v) => sp_expr_more(
                        s2,
                        sub_bits(acc, v),
                        tbl,
                        (fuel - 1) as nat,
                    ),
                    other => other,
                }
            } else {
                ParseOut::Val(s1.push(l), acc)
            },
        }
    }
}

pub open spec fn sp_expression(s: StreamModel, tbl: Seq<(Seq<char>, Num)>, fuel: nat) -> ParseOut
    decreases fuel, 4int,
{
    if fuel == 0 {
        ParseOut::Spent
    } else {
        match sp_term(s, tbl, fuel) {
            ParseOut::Val(s1, v) => sp_expr_more(s1, v, tbl, fuel),
            other => other,
        }
    }
}

/// `sp_primary` with fuel that always suffices.
pub open spec fn sp_primary_w(s: StreamModel, tbl: Seq<(Seq<char>, Num)>) -> ParseOut {
    sp_primary(s, tbl, fuel_for(s))
}

/// `sp_term` with fuel that always suffices.
pub open spec fn sp_term_w(s: StreamModel, tbl: Seq<(Seq<char>, Num)>) -> ParseOut {
    sp_term(s, tbl, fuel_for(s))
}

/// `sp_term_more` with fuel that always suffices.
pub open spec fn sp_term_more_w(s: StreamModel, acc: u64, tbl: Seq<(Seq<char>, Num)>) -> ParseOut {
    sp_term_more(s, acc, tbl, fuel_for(s))
}

/// `sp_expr_more` with fuel that always suffices.
pub open spec fn sp_expr_more_w(s: StreamModel, acc: u64, tbl: Seq<(Seq<char>, Num)>) -> ParseOut {
    sp_expr_more(s, acc, tbl, fuel_for(s))
}

/// `sp_expression` with fuel that always suffices.
pub open spec fn sp_expression_w(s: StreamModel, tbl: Seq<(Seq<char>, Num)>) -> ParseOut {
    sp_expression(s, tbl, fuel_for(s))
}

/// The common shape of the facts proved about each spec parser function:
/// the answer under fuels `f1` and `f2` is the same (`r` is the former),
/// fuel is never exhausted, the buffer is kept, well-formedness is kept, a
/// value strictly consumes input when `strict_val` is claimed, and a failure
/// strictly consumes input whenever a token was pending.
pub open spec fn parse_facts(s: StreamModel, r: ParseOut, r2: ParseOut, strict_val: bool) -> bool {
    &&& r == r2
    &&& !(r is Spent)
    &&& (r matches ParseOut::Val(s2, _) ==> s2.wf() && s2.text == s.text && s2.measure()
        <= s.measure() && (strict_val ==> s2.measure() < s.measure()))
    &&& (r matches ParseOut::Bad(s2, _) ==> s2.wf() && s2.text == s.text && s2.measure()
        <= s.measure() && (s.pending.len() > 0 ==> s2.measure() < s.measure()))
}

/// What a statement yields: a value, the table it leaves, and the stream
/// state left behind; or a failure, with the table untouched.
pub enum StmtOut {
    Val(StreamModel, Seq<(Seq<char>, Num)>, u64),
    Bad(StreamModel, ParseFault),
}

/// A plain expression statement: the table is untouched.
pub open spec fn sp_after_value(p: ParseOut, tbl: Seq<(Seq<char>, Num)>) -> StmtOut {
    match p {
        ParseOut::Val(s, v) => StmtOut::Val(s, tbl, v),
        ParseOut::Bad(s, f) => StmtOut::Bad(s, f),
        ParseOut::Spent => arbitrary(),
    }
}

/// Evaluate the right-hand side and store it under `nm`.
pub open spec fn sp_store_after(
    s: StreamModel,
    nm: Seq<char>,
    tbl: Seq<(Seq<char>, Num)>,
) -> StmtOut {
    match sp_expression_w(s, tbl) {
        ParseOut::Val(s2, v) => StmtOut::Val(s2, tbl_store(tbl, nm, Num { bits: v }), v),
        ParseOut::Bad(s2, f) => StmtOut::Bad(s2, f),
        ParseOut::Spent => arbitrary(),
    }
}

/// A `let NAME = EXPR` statement, after the `let` token was consumed: the
/// name must be new, and a missing token where `=` belongs is tolerated (the
/// expression then fails on its own).
pub open spec fn sp_let_stmt(s1: StreamModel, tbl: Seq<(Seq<char>, Num)>) -> StmtOut {
    let (s2, out2) = stream_next(s1);
    match out2 {
        LexOutcome::Fault(f) => StmtOut::Bad(s2, ParseFault::Lex(f)),
        LexOutcome::Lexed(l2) => match l2 {
            Lexeme::Name(nm) => if tbl_has(tbl, nm) {
                StmtOut::Bad(s2, ParseFault::AlreadyDefined(nm))
            } else {
                let (s3, out3) = stream_next(s2);
                match out3 {
                    LexOutcome::Fault(f) => StmtOut::Bad(s3, ParseFault::Lex(f)),
                    LexOutcome::End => sp_store_after(s3, nm, tbl),
                    LexOutcome::Lexed(l3) => if l3 == Lexeme::Symbol('=') {
                        sp_store_after(s3, nm, tbl)
                    } else {
                        StmtOut::Bad(s3, ParseFault::ExpectedAssign(nm))
                    },
                }
            },
            _ => StmtOut::Bad(s2, ParseFault::ExpectedName),
        },
        LexOutcome::End => StmtOut::Bad(s2, ParseFault::ExpectedName),
    }
}

/// A bare variable reference: its value re-enters the stream as a number
/// token and an expression is parsed from there.
pub open spec fn sp_bare(sb: StreamModel, nm: Seq<char>, tbl: Seq<(Seq<char>, Num)>) -> StmtOut {
    if tbl_has(tbl, nm) {
        sp_after_value(
            sp_expression_w(sb.push(Lexeme::Number(tbl_value(tbl, nm).bits)), tbl),
            tbl,
        )
    } else {
        StmtOut::Bad(sb, ParseFault::Undefined(nm))
    }
}

/// A statement opening with a name, after the name was consumed: `=` makes
/// it an assignment to an existing variable, anything else a bare reference.
pub open spec fn sp_name_stmt(
    s1: StreamModel,
    nm: Seq<char>,
    tbl: Seq<(Seq<char>, Num)>,
) -> StmtOut {
    let (s2, out2) = stream_next(s1);
    match out2 {
        LexOutcome::Fault(f) => StmtOut::Bad(s2, ParseFault::Lex(f)),
        LexOutcome::Lexed(l2) => if l2 == Lexeme::Symbol('=') {
            if tbl_has(tbl, nm) {
                sp_store_after(s2, nm, tbl)
            } else {
                StmtOut::Bad(s2, ParseFault::AssignUndefined(nm))
            }
        } else {
            sp_bare(s2.push(l2), nm, tbl)
        },
        LexOutcome::End => sp_bare(s2, nm, tbl),
    }
}

/// What one statement yields on a stream in state `s` against table `tbl`.
pub open spec fn sp_statement(s: StreamModel, tbl: Seq<(Seq<char>, Num)>) -> StmtOut {
    let (s1, out) = stream_next(s);
    match out {
        LexOutcome::Fault(f) => StmtOut::Bad(s1, ParseFault::Lex(f)),
        LexOutcome::End => sp_after_value(sp_expression_w(s1, tbl), tbl),
        LexOutcome::Lexed(l) => match l {
            Lexeme::Let => sp_let_stmt(s1, tbl),
            Lexeme::Name(nm) => sp_name_stmt(s1, nm, tbl),
            _ => sp_after_value(sp_expression_w(s1.push(l), tbl), tbl),
        },
    }
}

pub proof fn lem_primary(s: StreamModel, tbl: Seq<(Seq<char>, Num)>, f1: nat, f2: nat)
    requires
        s.wf(),
        f1 > s.measure(),
        f2 > s.measure(),
    ensures
        parse_facts(s, sp_primary(s, tbl, f1), sp_primary(s, tbl, f2), true),
    decreases f1 + f2, 0int,
{
    lemma_stream_next(s);
    let (s1, out) = stream_next(s);
    match out {
        LexOutcome::Lexed(l) => match l {
            Lexeme::Symbol(c) => {
                if c == '(' {
                    lem_expression(s1, tbl, (f1 - 1) as nat, (f2 - 1) as nat);
                    match sp_expression(s1, tbl, (f1 - 1) as nat) {
                        ParseOut::Val(s2, v) => {
                            lemma_stream_next(s2);
                        },
                        _ => {},
                    }
                } else if c == '-' || c == '+' {
                    lem_primary(s1, tbl, (f1 - 1) as nat, (f2 - 1) as nat);
                }
            },
            _ => {},
        },
        _ => {},
    }
}

pub proof fn lem_term_more(s: StreamModel, acc: u64, tbl: Seq<(Seq<char>, Num)>, f1: nat, f2: nat)
    requires
        s.wf(),
        f1 > s.measure(),
        f2 > s.measure(),
    ensures
        parse_facts(s, sp_term_more(s, acc, tbl, f1), sp_term_more(s, acc, tbl, f2), false),
    decreases f1 + f2, 1int,
{
    lemma_stream_next(s);
    let (s1, out) = stream_next(s);
    match out {
        LexOutcome::Lexed(l) => {
            if l == Lexeme::Symbol('*') || l == Lexeme::Symbol('/') {
                lem_primary(s1, tbl, f1, f2);
                match sp_primary(s1, tbl, f1) {
                    ParseOut::Val(s2, v) => {
                        let acc2 = if l == Lexeme::Symbol('*') {
                            mul_bits(acc, v)
                        } else {
                            div_bits(acc, v)
                        };
                        lem_term_more(s2, acc2, tbl, (f1 - 1) as nat, (f2 - 1) as nat);
                    },
                    _ => {},
                }
            }
        },
        _ => {},
    }
}

pub proof fn lem_term(s: StreamModel, tbl: Seq<(Seq<char>, Num)>, f1: nat, f2: nat)
    requires
        s.wf(),
        f1 > s.measure(),
        f2 > s.measure(),
    ensures
        parse_facts(s, sp_term(s, tbl, f1), sp_term(s, tbl, f2), true),
    decreases f1 + f2, 2int,
{
    lem_primary(s, tbl, f1, f2);
    match sp_primary(s, tbl, f1) {
        ParseOut::Val(s1, v) => {
            lem_term_more(s1, v, tbl, f1, f2);
        },
        _ => {},
    }
}

pub proof fn lem_expr_more(s: StreamModel, acc: u64, tbl: Seq<(Seq<char>, Num)>, f1: nat, f2: nat)
    requires
        s.wf(),
        f1 > s.measure(),
        f2 > s.measure(),
    ensures
        parse_facts(s, sp_expr_more(s, acc, tbl, f1), sp_expr_more(s, acc, tbl, f2), false),
    decreases f1 + f2, 3int,
{
    lemma_stream_next(s);
    let (s1, out) = stream_next(s);
    match out {
        LexOutcome::Lexed(l) => {
            if l == Lexeme::Symbol('+') || l == Lexeme::Symbol('-') {
                lem_term(s1, tbl, f1, f2);
                match sp_term(s1, tbl, f1) {
                    ParseOut::Val(s2, v) => {
                        let acc2 = if l == Lexeme::Symbol('+') {
                            add_bits(acc, v)
                        } else {
                            sub_bits(acc, v)
                        };
                        lem_expr_more(s2, acc2, tbl, (f1 - 1) as nat, (f2 - 1) as nat);
                    },
                    _ => {},
                }
            }
        },
        _ => {},
    }
}

pub proof fn lem_expression(s: StreamModel, tbl: Seq<(Seq<char>, Num)>, f1: nat, f2: nat)
    requires
        s.wf(),
        f1 > s.measure(),
        f2 > s.measure(),
    ensures
        parse_facts(s, sp_expression(s, tbl, f1), sp_expression(s, tbl, f2), true),
    decreases f1 + f2, 4int,
{
    lem_term(s, tbl, f1, f2);
    match sp_term(s, tbl, f1) {
        ParseOut::Val(s1, v) => {
            lem_expr_more(s1, v, tbl, f1, f2);
        },
        _ => {},
    }
}

/// The facts of `lem_expression` for the fuel-independent form.
pub proof fn lem_expression_w(s: StreamModel, tbl: Seq<(Seq<char>, Num)>)
    requires
        s.wf(),
    ensures
        parse_facts(s, sp_expression_w(s, tbl), sp_expression_w(s, tbl), true),
{
    lem_expression(s, tbl, fuel_for(s), fuel_for(s));
}

/// Parse and evaluate a primary: a number literal, a parenthesized
/// expression, a sign applied to a primary, or a variable reference.
pub fn primary(ts: &mut TokenStream, variables: &mut VarTable) -> (r: Result<Num, EvalError>)
    requires
        old(ts)@.wf(),
        old(variables).wf(),
    ensures
        final(ts)@.wf(),
        final(ts)@.text == old(ts)@.text,
        *final(variables) == *old(variables),
        match sp_primary_w(old(ts)@, old(variables).model()) {
            ParseOut::Val(s2, v) => final(ts)@ == s2 && (r matches Ok(n) && n.bits == v),
            ParseOut::Bad(s2, f) => final(ts)@ == s2 && (r matches Err(e) && e@ == f),
            ParseOut::Spent => false,
        },
    decreases old(ts)@.measure(), 0int,
{
    proof {
        lem_primary(old(ts)@, old(variables).model(), fuel_for(old(ts)@), fuel_for(old(ts)@));
        lemma_stream_next(old(ts)@);
    }
    let ghost tbl = old(variables).model();
    let ghost f0 = fuel_for(old(ts)@);
    let t = match ts.next() {
        Ok(t) => t,
        Err(e) => {
            return Err(EvalError::Lex(e));
        },
    };
    match t {
        Some(Token::Number(n)) => Ok(n),
        Some(Token::Symbol(c)) => {
            if c == '(' {
                proof {
                    lem_expression(ts@, tbl, (f0 - 1) as nat, fuel_for(ts@));
                }
                let v = match expression(ts, variables) {
                    Ok(v) => v,
                    Err(e) => {
                        return Err(e);
                    },
                };
                proof {
                    lemma_stream_next(ts@);
                }
                match ts.next() {
                    Err(e) => Err(EvalError::Lex(e)),
                    Ok(Some(Token::Symbol(')'))) => Ok(v),
                    Ok(_) => Err(EvalError::ExpectedClosingParen),
                }
            } else if c == '-' {
                proof {
                    lem_primary(ts@, tbl, (f0 - 1) as nat, fuel_for(ts@));
                }
                let v = match primary(ts, variables) {
                    Ok(v) => v,
                    Err(e) => {
                        return Err(e);
                    },
                };
                Ok(v.neg())
            } else if c == '+' {
                proof {
                    lem_primary(ts@, tbl, (f0 - 1) as nat, fuel_for(ts@));
                }
                primary(ts, variables)
            } else {
                Err(EvalError::ExpectedPrimary)
            }
        },
        Some(Token::Name(name)) => match variables.retrieve(&name) {
            Some(v) => Ok(v),
            None => Err(EvalError::Undefined(name)),
        },
        _ => Err(EvalError::ExpectedPrimary),
    }
}

/// Parse and evaluate a term: primaries folded left with `*` and `/`.
pub fn term(ts: &mut TokenStream, variables: &mut VarTable) -> (r: Result<Num, EvalError>)
    requires
        old(ts)@.wf(),
        old(variables).wf(),
    ensures
        final(ts)@.wf(),
        final(ts)@.text == old(ts)@.text,
        *final(variables) == *old(variables),
        match sp_term_w(old(ts)@, old(variables).model()) {
            ParseOut::Val(s2, v) => final(ts)@ == s2 && (r matches Ok(n) && n.bits == v),
            ParseOut::Bad(s2, f) => final(ts)@ == s2 && (r matches Err(e) && e@ == f),
            ParseOut::Spent => false,
        },
    decreases old(ts)@.measure(), 2int,
{
    proof {
        lem_term(old(ts)@, old(variables).model(), fuel_for(old(ts)@), fuel_for(old(ts)@));
        lem_primary(old(ts)@, old(variables).model(), fuel_for(old(ts)@), fuel_for(old(ts)@));
    }
    let ghost tbl = old(variables).model();
    let mut value = match primary(ts, variables) {
        Ok(v) => v,
        Err(e) => {
            return Err(e);
        },
    };
    proof {
        lem_term_more(ts@, value.bits, tbl, fuel_for(old(ts)@), fuel_for(ts@));
    }
    loop
        invariant_except_break
            sp_term_more_w(ts@, value.bits, tbl) == sp_term_w(old(ts)@, tbl),
        invariant
            ts@.wf(),
            variables.wf(),
            old(variables).wf(),
            *variables == *old(variables),
            tbl == old(variables).model(),
            ts@.text == old(ts)@.text,
            ts@.measure() <= old(ts)@.measure(),
        ensures
            ts@.wf(),
            *variables == *old(variables),
            sp_term_w(old(ts)@, tbl) == ParseOut::Val(ts@, value.bits),
        decreases ts@.measure(),
    {
        proof {
            lemma_stream_next(ts@);
            lem_term_more(ts@, value.bits, tbl, fuel_for(ts@), fuel_for(ts@));
        }
        let ghost s_cur = ts@;
        let ghost fc = fuel_for(s_cur);
        match ts.peek() {
            Err(e) => {
                return Err(EvalError::Lex(e));
            },
            Ok(Some(Token::Symbol('*'))) => {
                match ts.next() {
                    Ok(Some(_)) => {},
                    _ => unreached(),
                }
                proof {
                    assert(ts@ =~= stream_next(s_cur).0);
                    lem_primary(ts@, tbl, fc, fuel_for(ts@));
                }
                let t = match primary(ts, variables) {
                    Ok(v) => v,
                    Err(e) => {
                        return Err(e);
                    },
                };
                proof {
                    lem_term_more(ts@, mul_bits(value.bits, t.bits), tbl, (fc - 1) as nat, fuel_for(ts@));
                }
                value = value.mul(t);
            },
            Ok(Some(Token::Symbol('/'))) => {
                match ts.next() {
                    Ok(Some(_)) => {},
                    _ => unreached(),
                }
                proof {
                    assert(ts@ =~= stream_next(s_cur).0);
                    lem_primary(ts@, tbl, fc, fuel_for(ts@));
                }
                let t = match primary(ts, variables) {
                    Ok(v) => v,
                    Err(e) => {
                        return Err(e);
                    },
                };
                proof {
                    lem_term_more(ts@, div_bits(value.bits, t.bits), tbl, (fc - 1) as nat, fuel_for(ts@));
                }
                value = value.div(t);
            },
            Ok(_) => {
                break ;
            },
        }
    }
    Ok(value)
}

/// Parse and evaluate an expression: terms folded left with `+` and `-`.
pub fn expression(ts: &mut TokenStream, variables: &mut VarTable) -> (r: Result<Num, EvalError>)
    requires
        old(ts)@.wf(),
        old(variables).wf(),
    ensures
        final(ts)@.wf(),
        final(ts)@.text == old(ts)@.text,
        *final(variables) == *old(variables),
        match sp_expression_w(old(ts)@, old(variables).model()) {
            ParseOut::Val(s2, v) => final(ts)@ == s2 && (r matches Ok(n) && n.bits == v),
            ParseOut::Bad(s2, f) => final(ts)@ == s2 && (r matches Err(e) && e@ == f),
            ParseOut::Spent => false,
        },
    decreases old(ts)@.measure(), 4int,
{
    proof {
        lem_expression(old(ts)@, old(variables).model(), fuel_for(old(ts)@), fuel_for(old(ts)@));
        lem_term(old(ts)@, old(variables).model(), fuel_for(old(ts)@), fuel_for(old(ts)@));
    }
    let ghost tbl = old(variables).model();
    let mut value = match term(ts, variables) {
        Ok(v) => v,
        Err(e) => {
            return Err(e);
        },
    };
    proof {
        lem_expr_more(ts@, value.bits, tbl, fuel_for(old(ts)@), fuel_for(ts@));
    }
    loop
        invariant_except_break
            sp_expr_more_w(ts@, value.bits, tbl) == sp_expression_w(old(ts)@, tbl),
        invariant
            ts@.wf(),
            variables.wf(),
            old(variables).wf(),
            *variables == *old(variables),
            tbl == old(variables).model(),
            ts@.text == old(ts)@.text,
            ts@.measure() <= old(ts)@.measure(),
        ensures
            ts@.wf(),
            *variables == *old(variables),
            sp_expression_w(old(ts)@, tbl) == ParseOut::Val(ts@, value.bits),
        decreases ts@.measure(),
    {
        proof {
            lemma_stream_next(ts@);
            lem_expr_more(ts@, value.bits, tbl, fuel_for(ts@), fuel_for(ts@));
        }
        let ghost s_cur = ts@;
        let ghost fc = fuel_for(s_cur);
        match ts.peek() {
            Err(e) => {
                return Err(EvalError::Lex(e));
            },
            Ok(Some(Token::Symbol('+'))) => {
                match ts.next() {
                    Ok(Some(_)) => {},
                    _ => unreached(),
                }
                proof {
                    assert(ts@ =~= stream_next(s_cur).0);
                    lem_term(ts@, tbl, fc, fuel_for(ts@));
                }
                let t = match term(ts, variables) {
                    Ok(v) => v,
                    Err(e) => {
                        return Err(e);
                    },
                };
                proof {
                    lem_expr_more(ts@, add_bits(value.bits, t.bits), tbl, (fc - 1) as nat, fuel_for(ts@));
                }
                value = value.add(t);
            },
            Ok(Some(Token::Symbol('-'))) => {
                match ts.next() {
                    Ok(Some(_)) => {},
                    _ => unreached(),
                }
                proof {
                    assert(ts@ =~= stream_next(s_cur).0);
                    lem_term(ts@, tbl, fc, fuel_for(ts@));
                }
                let t = match term(ts, variables) {
                    Ok(v) => v,
                    Err(e) => {
                        return Err(e);
                    },
                };
                proof {
                    lem_expr_more(ts@, sub_bits(value.bits, t.bits), tbl, (fc - 1) as nat, fuel_for(ts@));
                }
                value = value.sub(t);
            },
            Ok(_) => {
                break ;
            },
        }
    }
    Ok(value)
}

/// Parse and evaluate one statement: a `let` definition, an assignment, a
/// bare variable reference, or a plain expression.
pub fn statement(ts: &mut TokenStream, variables: &mut VarTable) -> (r: Result<Num, EvalError>)
    requires
        old(ts)@.wf(),
        old(variables).wf(),
    ensures
        final(ts)@.wf(),
        final(variables).wf(),
        final(ts)@.text == old(ts)@.text,
        match sp_statement(old(ts)@, old(variables).model()) {
            StmtOut::Val(s2, t2, v) => final(ts)@ == s2 && final(variables).model() == t2 && (
            r matches Ok(n) && n.bits == v),
            StmtOut::Bad(s2, f) => final(ts)@ == s2 && final(variables).model() == old(
                variables,
            ).model() && (r matches Err(e) && e@ == f),
        },
{
    proof {
        lemma_stream_next(old(ts)@);
    }
    let ghost tbl = old(variables).model();
    let ghost s1 = stream_next(old(ts)@).0;
    let first = match ts.peek() {
        Err(e) => {
            return Err(EvalError::Lex(e));
        },
        Ok(t) => t,
    };
    match first {
        Some(Token::Let) => {
            match ts.next() {
                Ok(Some(_)) => {},
                _ => unreached(),
            }
            proof {
                assert(ts@ =~= s1);
                lemma_stream_next(ts@);
            }
            let label = match ts.next() {
                Err(e) => {
                    return Err(EvalError::Lex(e));
                },
                Ok(Some(Token::Name(nm))) => nm,
                Ok(_) => {
                    return Err(EvalError::ExpectedName);
                },
            };
            if variables.contains(&label) {
                return Err(EvalError::AlreadyDefined(label));
            }
            proof {
                lemma_stream_next(ts@);
            }
            match ts.next() {
                Err(e) => {
                    return Err(EvalError::Lex(e));
                },
                Ok(Some(Token::Symbol('='))) => {},
                Ok(None) => {},
                Ok(Some(_)) => {
                    return Err(EvalError::ExpectedAssign(label));
                },
            }
            let value = match expression(ts, variables) {
                Ok(v) => v,
                Err(e) => {
                    return Err(e);
                },
            };
            variables.store(&label, value);
            Ok(value)
        },
        Some(Token::Name(label)) => {
            match ts.next() {
                Ok(Some(_)) => {},
                _ => unreached(),
            }
            proof {
                assert(ts@ =~= s1);
                lemma_stream_next(ts@);
            }
            let ghost s2 = stream_next(s1).0;
            let second = match ts.peek() {
                Err(e) => {
                    return Err(EvalError::Lex(e));
                },
                Ok(t) => t,
            };
            match second {
                Some(Token::Symbol('=')) => {
                    match ts.next() {
                        Ok(Some(_)) => {},
                        _ => unreached(),
                    }
                    proof {
                        assert(ts@ =~= s2);
                    }
                    if !variables.contains(&label) {
                        return Err(EvalError::AssignUndefined(label));
                    }
                    let value = match expression(ts, variables) {
                        Ok(v) => v,
                        Err(e) => {
                            return Err(e);
                        },
                    };
                    variables.store(&label, value);
                    Ok(value)
                },
                _ => {
                    let val = match variables.retrieve(&label) {
                        Some(v) => v,
                        None => {
                            return Err(EvalError::Undefined(label));
                        },
                    };
                    ts.put_back(Token::Number(val));
                    expression(ts, variables)
                },
            }
        },
        _ => expression(ts, variables),
    }
}

/// A statement keeps the buffer and well-formedness, strictly consumes input
/// on success and whenever a token was pending, and keeps the table's labels
/// unique.
pub proof fn lem_statement(s: StreamModel, tbl: Seq<(Seq<char>, Num)>)
    requires
        s.wf(),
    ensures
        match sp_statement(s, tbl) {
            StmtOut::Val(s2, t2, _) => s2.wf() && s2.text == s.text && s2.measure() < s.measure()
                && (tbl_wf(tbl) ==> tbl_wf(t2)),
            StmtOut::Bad(s2, _) => s2.wf() && s2.text == s.text && s2.measure() <= s.measure() && (
            s.pending.len() > 0 ==> s2.measure() < s.measure()),
        },
{
    lemma_stream_next(s);
    let (s1, out) = stream_next(s);
    match out {
        LexOutcome::Fault(_) => {},
        LexOutcome::End => {
            lem_expression_w(s1, tbl);
        },
        LexOutcome::Lexed(l) => match l {
            Lexeme::Let => {
                lemma_stream_next(s1);
                let (s2, out2) = stream_next(s1);
                match out2 {
                    LexOutcome::Lexed(Lexeme::Name(nm)) => {
                        if !tbl_has(tbl, nm) {
                            lemma_stream_next(s2);
                            let (s3, out3) = stream_next(s2);
                            lem_expression_w(s3, tbl);
                            if tbl_wf(tbl) {
                                match sp_expression_w(s3, tbl) {
                                    ParseOut::Val(_, v) => {
                                        lemma_tbl_store_wf(tbl, nm, Num { bits: v });
                                    },
                                    _ => {},
                                }
                            }
                        }
                    },
                    _ => {},
                }
            },
            Lexeme::Name(nm) => {
                lemma_stream_next(s1);
                let (s2, out2) = stream_next(s1);
                match out2 {
                    LexOutcome::Fault(_) => {},
                    LexOutcome::Lexed(l2) => {
                        if l2 == Lexeme::Symbol('=') {
                            if tbl_has(tbl, nm) {
                                lem_expression_w(s2, tbl);
                                if tbl_wf(tbl) {
                                    match sp_expression_w(s2, tbl) {
                                        ParseOut::Val(_, v) => {
                                            lemma_tbl_store_wf(tbl, nm, Num { bits: v });
                                        },
                                        _ => {},
                                    }
                                }
                            }
                        } else {
                            if tbl_has(tbl, nm) {
                                lem_expression_w(
                                    s2.push(l2).push(Lexeme::Number(tbl_value(tbl, nm).bits)),
                                    tbl,
                                );
                            }
                        }
                    },
                    LexOutcome::End => {
                        if tbl_has(tbl, nm) {
                            lem_expression_w(
                                s2.push(Lexeme::Number(tbl_value(tbl, nm).bits)),
                                tbl,
                            );
                        }
                    },
                }
            },
            _ => {
                lem_expression_w(s1.push(l), tbl);
            },
        },
    }
}

/// Why one outcome of a line is an error: the token under consideration when
/// the failure arose, if any, and the cause.
#[derive(Debug, PartialEq)]
pub struct EvalIssue {
    pub at: Option<Token>,
    pub cause: EvalError,
}

/// The mathematical form of an error outcome.
pub struct IssueModel {
    pub at: Option<Lexeme>,
    pub cause: ParseFault,
}

impl View for EvalIssue {
    type V = IssueModel;

    open spec fn view(&self) -> IssueModel {
        IssueModel {
            at: match self.at {
                Some(t) => Some(t@),
                None => None,
            },
            cause: self.cause@,
        }
    }
}

/// One outcome of a line: a computed number, a recoverable error, or the
/// quit signal.
#[derive(Debug, PartialEq)]
pub enum EvaluationResult {
    Number(Num),
    Error(EvalIssue),
    Quit,
}

/// The mathematical form of an outcome.
pub enum OutcomeModel {
    Number(u64),
    Error(IssueModel),
    Quit,
}

impl View for EvaluationResult {
    type V = OutcomeModel;

    open spec fn view(&self) -> OutcomeModel {
        match self {
            EvaluationResult::Number(n) => OutcomeModel::Number(n.bits),
            EvaluationResult::Error(i) => OutcomeModel::Error(i@),
            EvaluationResult::Quit => OutcomeModel::Quit,
        }
    }
}

/// The pending value as bits.
pub open spec fn pend_of(val: Option<Num>) -> Option<u64> {
    match val {
        Some(n) => Some(n.bits),
        None => None,
    }
}

/// What flushing the pending value emits: one number outcome, or nothing.
pub open spec fn pend_outcomes(pend: Option<u64>) -> Seq<OutcomeModel> {
    match pend {
        Some(v) => seq![OutcomeModel::Number(v)],
        None => Seq::empty(),
    }
}

/// The view of the collected outcomes.
pub open spec fn outcome_views(res: Seq<EvaluationResult>) -> Seq<OutcomeModel> {
    res.map(|i: int, o: EvaluationResult| o@)
}

/// What evaluating from stream state `s` against `tbl` appends to the
/// outcomes, with `pend` the not-yet-flushed value, and the table it leaves:
/// a statement boundary or the end of input flushes the pending value, a
/// quit token emits a quit outcome, a failure emits one error outcome and
/// skips to the next boundary, and any other token starts a statement whose
/// value becomes pending.
pub open spec fn sp_eval_loop(
    s: StreamModel,
    tbl: Seq<(Seq<char>, Num)>,
    pend: Option<u64>,
    fuel: nat,
) -> (Seq<OutcomeModel>, Seq<(Seq<char>, Num)>)
    decreases fuel,
{
    if fuel == 0 {
        (Seq::empty(), tbl)
    } else {
        let (s1, out) = stream_next(s);
        match out {
            LexOutcome::Fault(f) => {
                let sd = s1.with_cursor(discard_from(s1.text, s1.cursor));
                let (rest, tf) = sp_eval_loop(sd, tbl, pend, (fuel - 1) as nat);
                (
                    seq![OutcomeModel::Error(IssueModel { at: None, cause: ParseFault::Lex(f) })]
                        + rest,
                    tf,
                )
            },
            LexOutcome::End => (pend_outcomes(pend), tbl),
            LexOutcome::Lexed(l) => match l {
                Lexeme::Noop => (Seq::empty(), tbl),
                Lexeme::EndStatement => {
                    let (rest, tf) = sp_eval_loop(s1, tbl, None, (fuel - 1) as nat);
                    (pend_outcomes(pend) + rest, tf)
                },
                Lexeme::Quit => {
                    let (rest, tf) = sp_eval_loop(s1, tbl, pend, (fuel - 1) as nat);
                    (seq![OutcomeModel::Quit] + rest, tf)
                },
                _ => match sp_statement(s1.push(l), tbl) {
                    StmtOut::Val(s2, t2, v) => sp_eval_loop(s2, t2, Some(v), (fuel - 1) as nat),
                    StmtOut::Bad(s2, f) => {
                        let sd = s2.with_cursor(discard_from(s2.text, s2.cursor));
                        let (rest, tf) = sp_eval_loop(sd, tbl, pend, (fuel - 1) as nat);
                        (
                            seq![OutcomeModel::Error(IssueModel { at: Some(l), cause: f })] + rest,
                            tf,
                        )
                    },
                },
            },
        }
    }
}

/// The outcomes of one line of text against a table, and the table it leaves.
pub open spec fn sp_evaluate(text: Seq<char>, tbl: Seq<(Seq<char>, Num)>) -> (
    Seq<OutcomeModel>,
    Seq<(Seq<char>, Num)>,
) {
    let s = StreamModel { text, cursor: 0, pending: Seq::empty() };
    sp_eval_loop(s, tbl, None, fuel_for(s))
}

/// Any fuel above the stream's measure gives the same evaluation.
pub proof fn lem_eval_fuel(
    s: StreamModel,
    tbl: Seq<(Seq<char>, Num)>,
    pend: Option<u64>,
    f1: nat,
    f2: nat,
)
    requires
        s.wf(),
        f1 > s.measure(),
        f2 > s.measure(),
    ensures
        sp_eval_loop(s, tbl, pend, f1) == sp_eval_loop(s, tbl, pend, f2),
    decreases f1 + f2,
{
    lemma_stream_next(s);
    let (s1, out) = stream_next(s);
    match out {
        LexOutcome::Fault(_) => {
            lemma_discard_bounds(s1.text, s1.cursor);
            let sd = s1.with_cursor(discard_from(s1.text, s1.cursor));
            lem_eval_fuel(sd, tbl, pend, (f1 - 1) as nat, (f2 - 1) as nat);
        },
        LexOutcome::End => {},
        LexOutcome::Lexed(l) => match l {
            Lexeme::Noop => {},
            Lexeme::EndStatement => {
                lem_eval_fuel(s1, tbl, None, (f1 - 1) as nat, (f2 - 1) as nat);
            },
            Lexeme::Quit => {
                lem_eval_fuel(s1, tbl, pend, (f1 - 1) as nat, (f2 - 1) as nat);
            },
            _ => {
                lem_statement(s1.push(l), tbl);
                match sp_statement(s1.push(l), tbl) {
                    StmtOut::Val(s2, t2, v) => {
                        lem_eval_fuel(s2, t2, Some(v), (f1 - 1) as nat, (f2 - 1) as nat);
                    },
                    StmtOut::Bad(s2, _) => {
                        lemma_discard_bounds(s2.text, s2.cursor);
                        let sd = s2.with_cursor(discard_from(s2.text, s2.cursor));
                        lem_eval_fuel(sd, tbl, pend, (f1 - 1) as nat, (f2 - 1) as nat);
                    },
                }
            },
        },
    }
}

/// Appending one outcome to the collected results shifts its view from the
/// tail to the head of what is still to come.
proof fn lemma_emit(
    res_prev: Seq<EvaluationResult>,
    res_now: Seq<EvaluationResult>,
    x: EvaluationResult,
    rest: Seq<OutcomeModel>,
)
    requires
        res_now == res_prev.push(x),
    ensures
        outcome_views(res_prev) + (seq![x@] + rest) == outcome_views(res_now) + rest,
{
    assert(outcome_views(res_now) =~= outcome_views(res_prev).push(x@));
    assert(outcome_views(res_prev) + (seq![x@] + rest) =~= outcome_views(res_now) + rest);
}

/// Evaluate one line of text against the variable table: an ordered sequence
/// of outcomes, one per flushed statement. A failed statement yields one
/// error outcome and the rest of that statement is discarded, so later
/// statements on the line still run. An empty or all-whitespace line yields
/// no outcome.
#[verifier::rlimit(100)]
pub fn evaluate(expression: &str, variables: &mut VarTable) -> (res: Vec<EvaluationResult>)
    requires
        old(variables).wf(),
    ensures
        final(variables).wf(),
        ({
            let (outs, tf) = sp_evaluate(expression@, old(variables).model());
            &&& outcome_views(res@) == outs
            &&& final(variables).model() == tf
        }),
{
    let mut ts = TokenStream::new(str_bytes(expression));
    let mut val: Option<Num> = None;
    let mut res: Vec<EvaluationResult> = Vec::new();
    proof {
        assert(ts@ =~= (StreamModel {
            text: expression@,
            cursor: 0,
            pending: Seq::<Lexeme>::empty(),
        }));
        assert(outcome_views(res@) =~= Seq::<OutcomeModel>::empty());
        let (outs, _) = sp_evaluate(expression@, old(variables).model());
        assert(outcome_views(res@) + outs =~= outs);
    }
    loop
        invariant_except_break
            ({
                let (outs, tf) = sp_evaluate(expression@, old(variables).model());
                let (rest, tf2) = sp_eval_loop(ts@, variables.model(), pend_of(val), fuel_for(ts@));
                &&& outcome_views(res@) + rest == outs
                &&& tf2 == tf
            }),
        invariant
            ts@.wf(),
            variables.wf(),
            ts@.text == expression@,
        ensures
            variables.wf(),
            ({
                let (outs, tf) = sp_evaluate(expression@, old(variables).model());
                &&& outcome_views(res@) == outs
                &&& variables.model() == tf
            }),
        decreases ts@.measure(),
    {
        proof {
            lemma_stream_next(ts@);
        }
        let ghost s_cur = ts@;
        let ghost fc = fuel_for(s_cur);
        let ghost tbl_cur = variables.model();
        let ghost res_prev = res@;
        let ghost val_prev = val;
        let ghost pend_prev = pend_of(val);
        match ts.peek() {
            Err(e) => {
                res.push(
                    EvaluationResult::Error(EvalIssue { at: None, cause: EvalError::Lex(e) }),
                );
                ts.discard_invalid();
                proof {
                    lemma_discard_bounds(ts@.text, stream_next(s_cur).0.cursor);
                    lem_eval_fuel(ts@, tbl_cur, pend_prev, (fc - 1) as nat, fuel_for(ts@));
                    let (rest, _) = sp_eval_loop(ts@, tbl_cur, pend_prev, fuel_for(ts@));
                    lemma_emit(
                        res_prev,
                        res@,
                        EvaluationResult::Error(EvalIssue { at: None, cause: EvalError::Lex(e) }),
                        rest,
                    );
                }
            },
            Ok(None) => {
                match val {
                    Some(v) => {
                        res.push(EvaluationResult::Number(v));
                        proof {
                            lemma_emit(
                                res_prev,
                                res@,
                                EvaluationResult::Number(v),
                                Seq::empty(),
                            );
                            assert(seq![OutcomeModel::Number(v.bits)] + Seq::empty()
                                =~= pend_outcomes(pend_prev));
                            assert(outcome_views(res@) + Seq::<OutcomeModel>::empty()
                                =~= outcome_views(res@));
                        }
                    },
                    None => {
                        proof {
                            assert(outcome_views(res@) + pend_outcomes(pend_prev) =~= outcome_views(
                                res@,
                            ));
                        }
                    },
                }
                break ;
            },
            Ok(Some(t)) => match t {
                Token::Noop => {
                    proof {
                        assert(false);
                    }
                    unreached()
                },
                Token::EndStatement => {
                    match ts.next() {
                        Ok(Some(_)) => {},
                        _ => unreached(),
                    }
                    if let Some(v) = val {
                        res.push(EvaluationResult::Number(v));
                    }
                    val = None;
                    proof {
                        assert(ts@ =~= stream_next(s_cur).0);
                        lem_eval_fuel(ts@, tbl_cur, None, (fc - 1) as nat, fuel_for(ts@));
                        let (rest, _) = sp_eval_loop(ts@, tbl_cur, None, fuel_for(ts@));
                        match val_prev {
                            Some(v) => {
                                lemma_emit(res_prev, res@, EvaluationResult::Number(v), rest);
                                assert(seq![OutcomeModel::Number(v.bits)]
                                    =~= pend_outcomes(pend_prev));
                            },
                            None => {
                                assert(outcome_views(res_prev) + (pend_outcomes(pend_prev) + rest)
                                    =~= outcome_views(res@) + rest);
                            },
                        }
                    }
                },
                Token::Quit => {
                    res.push(EvaluationResult::Quit);
                    match ts.next() {
                        Ok(Some(_)) => {},
                        _ => unreached(),
                    }
                    proof {
                        assert(ts@ =~= stream_next(s_cur).0);
                        lem_eval_fuel(ts@, tbl_cur, pend_prev, (fc - 1) as nat, fuel_for(ts@));
                        let (rest, _) = sp_eval_loop(ts@, tbl_cur, pend_prev, fuel_for(ts@));
                        lemma_emit(res_prev, res@, EvaluationResult::Quit, rest);
                    }
                },
                tok => {
                    proof {
                        lem_statement(ts@, tbl_cur);
                    }
                    match statement(&mut ts, variables) {
                        Ok(n) => {
                            val = Some(n);
                            proof {
                                lem_eval_fuel(
                                    ts@,
                                    variables.model(),
                                    Some(n.bits),
                                    (fc - 1) as nat,
                                    fuel_for(ts@),
                                );
                            }
                        },
                        Err(e) => {
                            let ghost bad_state = ts@;
                            res.push(EvaluationResult::Error(EvalIssue { at: Some(tok), cause: e }));
                            ts.discard_invalid();
                            proof {
                                lemma_discard_bounds(bad_state.text, bad_state.cursor);
                                lem_eval_fuel(ts@, tbl_cur, pend_prev, (fc - 1) as nat, fuel_for(ts@));
                                let (rest, _) = sp_eval_loop(ts@, tbl_cur, pend_prev, fuel_for(ts@));
                                lemma_emit(res_prev, res@, res@.last(), rest);
                            }
                        },
                    }
                },
            },
        }
    }
    res
}

proof fn lemma_skip_all_spaces(text: Seq<char>, i: int)
    requires
        0 <= i <= text.len(),
        forall|j: int| 0 <= j < text.len() ==> whitespace_char(text[j]),
    ensures
        skip_spaces(text, i) == text.len(),
    decreases text.len() - i,
{
    if i < text.len() {
        lemma_skip_all_spaces(text, i + 1);
    }
}

/// An empty or all-whitespace line yields no outcome and leaves the table
/// unchanged.
pub proof fn lemma_blank_line(text: Seq<char>, tbl: Seq<(Seq<char>, Num)>)
    requires
        forall|j: int| 0 <= j < text.len() ==> whitespace_char(text[j]),
    ensures
        sp_evaluate(text, tbl).0 == Seq::<OutcomeModel>::empty(),
        sp_evaluate(text, tbl).1 == tbl,
{
    let s = StreamModel { text, cursor: 0, pending: Seq::empty() };
    lemma_skip_all_spaces(text, 0);
    assert(lex_from(text, 0).1 is End);
    assert(pend_outcomes(None) =~= Seq::<OutcomeModel>::empty());
}

proof fn lemma_scan_word_all(text: Seq<char>, i: int, acc: Seq<char>)
    requires
        0 <= i <= text.len(),
        forall|j: int| 0 <= j < text.len() ==> alphanumeric_char(text[j]),
    ensures
        scan_word(text, i, acc) == (text.len() as int, acc + text.subrange(i, text.len() as int)),
    decreases text.len() - i,
{
    if i < text.len() {
        lemma_scan_word_all(text, i + 1, acc.push(text[i]));
        assert(acc.push(text[i]) + text.subrange(i + 1, text.len() as int) =~= acc + text.subrange(
            i,
            text.len() as int,
        ));
    } else {
        assert(acc + text.subrange(i, text.len() as int) =~= acc);
    }
}

/// A line holding exactly one name that the table defines yields exactly the
/// stored value, and leaves the table unchanged. The hypotheses say that the
/// text lexes as a name: it opens with a letter that is not reserved and is
/// not the keyword `let`.
pub proof fn lemma_bare_reference(text: Seq<char>, tbl: Seq<(Seq<char>, Num)>)
    requires
        tbl_wf(tbl),
        tbl_has(tbl, text),
        text.len() > 0,
        alphabetic_char(text[0]),
        !whitespace_char(text[0]),
        !literal_start(text[0]),
        !symbol_char(text[0]),
        forall|j: int| 0 <= j < text.len() ==> alphanumeric_char(text[j]),
        text != keyword_let(),
    ensures
        sp_evaluate(text, tbl).0 == seq![OutcomeModel::Number(tbl_value(tbl, text).bits)],
        sp_evaluate(text, tbl).1 == tbl,
{
    let n = text.len() as int;
    let s0 = StreamModel { text, cursor: 0, pending: Seq::empty() };
    // Lexing from the start yields the whole text as one name.
    assert(skip_spaces(text, 0) == 0);
    lemma_scan_word_all(text, 1, seq![text[0]]);
    assert(seq![text[0]] + text.subrange(1, n) =~= text);
    assert(lex_from(text, 0) == (n, LexOutcome::Lexed(Lexeme::Name(text))));
    let s1 = s0.with_cursor(n);
    assert(stream_next(s0) == (s1, LexOutcome::Lexed(Lexeme::Name(text))));
    // At the end of the buffer the stream yields nothing more.
    assert(skip_spaces(text, n) == n);
    assert(stream_next(s1) == (s1.with_cursor(n), LexOutcome::End));
    assert(s1.with_cursor(n) =~= s1);
    // The statement resolves the name and re-parses its value.
    let bits = tbl_value(tbl, text).bits;
    let sb = s1.push(Lexeme::Number(bits));
    assert(sp_statement(s1.push(Lexeme::Name(text)), tbl) == sp_name_stmt(s1, text, tbl)) by {
        let sp = s1.push(Lexeme::Name(text));
        assert(sp.pending.len() == 1);
        assert(sp.pending.last() == Lexeme::Name(text));
        assert(sp.pop() =~= s1);
        assert(stream_next(sp) == (s1, LexOutcome::Lexed(Lexeme::Name(text))));
    }
    assert(sp_name_stmt(s1, text, tbl) == sp_bare(s1, text, tbl));
    // The injected number is the whole expression.
    assert(sb.pending.len() == 1);
    assert(sb.pop() =~= s1);
    assert(stream_next(sb) == (s1, LexOutcome::Lexed(Lexeme::Number(bits))));
    let fb = fuel_for(sb);
    assert(fb >= 2);
    assert(sp_primary(sb, tbl, fb) == ParseOut::Val(s1, bits));
    assert(sp_term_more(s1, bits, tbl, fb) == ParseOut::Val(s1, bits));
    assert(sp_term(sb, tbl, fb) == ParseOut::Val(s1, bits));
    assert(sp_expr_more(s1, bits, tbl, fb) == ParseOut::Val(s1, bits));
    assert(sp_expression_w(sb, tbl) == ParseOut::Val(s1, bits));
    assert(sp_statement(s1.push(Lexeme::Name(text)), tbl) == StmtOut::Val(s1, tbl, bits));
    // The driver: one statement, then the end of input flushes its value.
    let f0 = fuel_for(s0);
    assert(f0 >= 1);
    lem_statement(s1.push(Lexeme::Name(text)), tbl);
    lem_eval_fuel(s1, tbl, Some(bits), (f0 - 1) as nat, fuel_for(s1));
    assert(sp_eval_loop(s1, tbl, Some(bits), fuel_for(s1)) == (
        seq![OutcomeModel::Number(bits)],
        tbl,
    ));
    assert(sp_eval_loop(s0, tbl, None, f0) == (seq![OutcomeModel::Number(bits)], tbl));
}

} // verus!
