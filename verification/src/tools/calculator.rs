//! The `calculator` tool: safe math evaluation (no `eval`), tokenise →
//! shunting-yard → RPN → evaluate.
//!
//! Numbers are the bits of 64-bit floats. The float arithmetic itself is asked
//! for, one operation at a time: see [`Calculation`].

use vstd::prelude::*;

use crate::error::SkadooshError;
use crate::text::{
    ascii_lower, chars_of, decimal_string, signed_decimal, signed_string, str_eq, string_of,
    to_ascii_lower,
};

verus! {

// ---------------------------------------------------------------------------
// Tokens
// ---------------------------------------------------------------------------

/// An operator.
#[derive(Debug, Clone, Copy, PartialEq, Eq, Structural)]
pub enum Op {
    /// `+`
    Plus,
    /// `-`
    Minus,
    /// `*`
    Times,
    /// `/`
    Divide,
    /// `%`
    Remainder,
    /// `^`
    Power,
}

/// A function.
#[derive(Debug, Clone, Copy, PartialEq, Eq, Structural)]
pub enum MathFunc {
    /// The square root.
    Sqrt,
    /// The absolute value.
    Abs,
    /// The sine.
    Sin,
    /// The cosine.
    Cos,
    /// The tangent.
    Tan,
    /// The natural logarithm.
    Ln,
    /// The logarithm to base ten.
    Log,
    /// The next whole number down.
    Floor,
    /// The next whole number up.
    Ceil,
    /// The nearest whole number.
    Round,
    /// The first argument raised to the second.
    Pow,
}

/// A number of an expression.
#[derive(Debug, Clone, Copy, PartialEq, Eq, Structural)]
pub enum Number {
    /// The characters `from..to` of the expression, negated where a unary
    /// minus stands in front.
    Literal { from: usize, to: usize, negative: bool },
    /// Zero, in front of a minus that has nothing on its left.
    Zero,
    /// The constant `pi`.
    Pi,
    /// The constant `e`.
    E,
}

/// A token of an expression.
#[derive(Debug, Clone, Copy, PartialEq, Eq, Structural)]
pub enum Tok {
    /// A number.
    Num(Number),
    /// An operator.
    Op(Op),
    /// `(`
    LParen,
    /// `)`
    RParen,
    /// A function.
    Func(MathFunc),
}

/// An error of the calculator.
pub fn anyhow_err(msg: &str) -> (r: SkadooshError)
    ensures
        r is Other,
        r.text() == "calculator: "@ + msg@,
{
    SkadooshError::Other("calculator: ".to_owned().concat(msg))
}

/// A result of the calculator, its error by its text.
pub open spec fn outcome<T>(r: Result<T, SkadooshError>) -> Result<T, Seq<char>> {
    match r {
        Ok(v) => Ok(v),
        Err(e) => Err(e.text()),
    }
}

/// Whether a character belongs to a number.
pub open spec fn is_number_char(c: char) -> bool {
    crate::text::is_digit_char(c) || c == '.'
}

/// Whether a character is an ASCII letter.
pub open spec fn is_letter(c: char) -> bool {
    'a' <= c <= 'z' || 'A' <= c <= 'Z'
}

/// The end of the run of number characters that starts at `i`.
pub open spec fn number_end(s: Seq<char>, i: int) -> int
    decreases s.len() - i,
{
    if 0 <= i < s.len() && is_number_char(s[i]) {
        number_end(s, i + 1)
    } else {
        i
    }
}

/// The end of the run of letters that starts at `i`.
pub open spec fn name_end(s: Seq<char>, i: int) -> int
    decreases s.len() - i,
{
    if 0 <= i < s.len() && is_letter(s[i]) {
        name_end(s, i + 1)
    } else {
        i
    }
}

proof fn lemma_number_end(s: Seq<char>, i: int)
    requires
        0 <= i <= s.len(),
    ensures
        i <= number_end(s, i) <= s.len(),
        i < s.len() && is_number_char(s[i]) ==> i < number_end(s, i),
    decreases s.len() - i,
{
    if i < s.len() && is_number_char(s[i]) {
        lemma_number_end(s, i + 1);
    }
}

proof fn lemma_name_end(s: Seq<char>, i: int)
    requires
        0 <= i <= s.len(),
    ensures
        i <= name_end(s, i) <= s.len(),
        i < s.len() && is_letter(s[i]) ==> i < name_end(s, i),
    decreases s.len() - i,
{
    if i < s.len() && is_letter(s[i]) {
        lemma_name_end(s, i + 1);
    }
}

/// How many points stand in `s`.
pub open spec fn points(s: Seq<char>) -> nat
    decreases s.len(),
{
    if s.len() == 0 {
        0
    } else if s.last() == '.' {
        points(s.drop_last()) + 1
    } else {
        points(s.drop_last())
    }
}

/// Whether a run of digits and points is a number: one point at most, and a
/// digit.
pub open spec fn is_number(s: Seq<char>) -> bool {
    points(s) <= 1 && exists|k: int|
        0 <= k < s.len() && crate::text::is_digit_char(#[trigger] s[k])
}

/// The token that a lower-case name stands for.
pub open spec fn named(name: Seq<char>) -> Option<Tok> {
    if name == "sqrt"@ {
        Some(Tok::Func(MathFunc::Sqrt))
    } else if name == "abs"@ {
        Some(Tok::Func(MathFunc::Abs))
    } else if name == "sin"@ {
        Some(Tok::Func(MathFunc::Sin))
    } else if name == "cos"@ {
        Some(Tok::Func(MathFunc::Cos))
    } else if name == "tan"@ {
        Some(Tok::Func(MathFunc::Tan))
    } else if name == "ln"@ {
        Some(Tok::Func(MathFunc::Ln))
    } else if name == "log"@ {
        Some(Tok::Func(MathFunc::Log))
    } else if name == "floor"@ {
        Some(Tok::Func(MathFunc::Floor))
    } else if name == "ceil"@ {
        Some(Tok::Func(MathFunc::Ceil))
    } else if name == "round"@ {
        Some(Tok::Func(MathFunc::Round))
    } else if name == "pow"@ {
        Some(Tok::Func(MathFunc::Pow))
    } else if name == "pi"@ {
        Some(Tok::Num(Number::Pi))
    } else if name == "e"@ {
        Some(Tok::Num(Number::E))
    } else {
        None
    }
}

/// The token of a single character.
pub open spec fn symbol(c: char) -> Option<Tok> {
    if c == '*' {
        Some(Tok::Op(Op::Times))
    } else if c == '/' {
        Some(Tok::Op(Op::Divide))
    } else if c == '%' {
        Some(Tok::Op(Op::Remainder))
    } else if c == '^' {
        Some(Tok::Op(Op::Power))
    } else if c == '(' {
        Some(Tok::LParen)
    } else if c == ')' {
        Some(Tok::RParen)
    } else {
        None
    }
}

/// Whether a character only separates tokens.
pub open spec fn is_separator(c: char) -> bool {
    c == ',' || c == ' ' || c == '\t' || c == '\n' || c == '\r'
}

/// Whether a sign behind these tokens is a unary one: at the start, behind a
/// `(`, or behind another operator.
pub open spec fn unary_here(toks: Seq<Tok>) -> bool {
    toks.len() == 0 || toks.last() is LParen || toks.last() is Op
}

/// The complaint about a malformed number.
pub open spec fn bad_number(s: Seq<char>) -> Seq<char> {
    "calculator: "@ + ("invalid number '"@ + s + "'"@)
}

/// The tokens of `s` from `i` on, behind the tokens `toks`.
pub open spec fn lex(s: Seq<char>, i: int, toks: Seq<Tok>) -> Result<Seq<Tok>, Seq<char>>
    decreases s.len() - i,
    via lex_decreases
{
    if i < 0 || i >= s.len() {
        Ok(toks)
    } else if is_number_char(s[i]) {
        let end = number_end(s, i);
        if is_number(s.subrange(i, end)) {
            lex(s, end, toks.push(literal(i, end, false)))
        } else {
            Err(bad_number(s.subrange(i, end)))
        }
    } else if s[i] == '+' {
        if unary_here(toks) {
            lex(s, i + 1, toks)
        } else {
            lex(s, i + 1, toks.push(Tok::Op(Op::Plus)))
        }
    } else if s[i] == '-' {
        let end = number_end(s, i + 1);
        if !unary_here(toks) {
            lex(s, i + 1, toks.push(Tok::Op(Op::Minus)))
        } else if end == i + 1 {
            lex(s, i + 1, toks.push(Tok::Num(Number::Zero)).push(Tok::Op(Op::Minus)))
        } else if is_number(s.subrange(i + 1, end)) {
            lex(s, end, toks.push(literal(i + 1, end, true)))
        } else {
            Err(bad_number(s.subrange(i + 1, end)))
        }
    } else if symbol(s[i]) is Some {
        lex(s, i + 1, toks.push(symbol(s[i])->0))
    } else if is_letter(s[i]) {
        let end = name_end(s, i);
        match named(ascii_lower(s.subrange(i, end))) {
            Some(tok) => lex(s, end, toks.push(tok)),
            None => Err(
                "calculator: "@ + ("unknown function or constant '"@ + s.subrange(i, end) + "'"@),
            ),
        }
    } else if is_separator(s[i]) {
        lex(s, i + 1, toks)
    } else {
        Err("calculator: "@ + ("unexpected character '"@ + seq![s[i]] + "'"@))
    }
}

#[via_fn]
proof fn lex_decreases(s: Seq<char>, i: int, toks: Seq<Tok>) {
    if 0 <= i < s.len() {
        lemma_number_end(s, i);
        lemma_number_end(s, i + 1);
        lemma_name_end(s, i);
    }
}

/// The token of a number written out.
pub open spec fn literal(from: int, to: int, negative: bool) -> Tok {
    Tok::Num(Number::Literal { from: from as usize, to: to as usize, negative })
}

/// Whether a token's characters are among the first `n`.
pub open spec fn in_range(t: Tok, n: int) -> bool {
    match t {
        Tok::Num(Number::Literal { from, to, .. }) => from <= to <= n,
        _ => true,
    }
}

/// Whether the characters of all tokens are among the first `n`.
pub open spec fn all_in_range(toks: Seq<Tok>, n: int) -> bool {
    forall|k: int| 0 <= k < toks.len() ==> in_range(#[trigger] toks[k], n)
}

fn number_end_of(s: &Vec<char>, i: usize) -> (r: usize)
    requires
        i <= s@.len(),
    ensures
        r == number_end(s@, i as int),
        i <= r <= s@.len(),
{
    let mut k: usize = i;
    while k < s.len() && (crate::text::is_digit(s[k]) || s[k] == '.')
        invariant
            i <= k <= s@.len(),
            number_end(s@, i as int) == number_end(s@, k as int),
        decreases s@.len() - k,
    {
        k += 1;
    }
    k
}

fn name_end_of(s: &Vec<char>, i: usize) -> (r: usize)
    requires
        i <= s@.len(),
    ensures
        r == name_end(s@, i as int),
        i <= r <= s@.len(),
{
    let mut k: usize = i;
    while k < s.len() && (('a' <= s[k] && s[k] <= 'z') || ('A' <= s[k] && s[k] <= 'Z'))
        invariant
            i <= k <= s@.len(),
            name_end(s@, i as int) == name_end(s@, k as int),
        decreases s@.len() - k,
    {
        k += 1;
    }
    k
}

fn is_number_at(s: &Vec<char>, from: usize, to: usize) -> (r: bool)
    requires
        from <= to <= s@.len(),
    ensures
        r == is_number(s@.subrange(from as int, to as int)),
{
    let ghost part = s@.subrange(from as int, to as int);
    let mut dots: usize = 0;
    let mut digit: bool = false;
    let mut k: usize = from;
    assert(part.take(0).len() == 0);
    while k < to
        invariant
            from <= k <= to <= s@.len(),
            part == s@.subrange(from as int, to as int),
            dots == points(part.take(k - from)),
            dots <= k - from,
            digit == exists|j: int|
                0 <= j < k - from && crate::text::is_digit_char(#[trigger] part[j]),
        decreases to - k,
    {
        assert(part.take(k - from + 1).drop_last() =~= part.take(k - from));
        assert(part[k - from] == s@[k as int]);
        if s[k] == '.' {
            dots += 1;
        }
        if crate::text::is_digit(s[k]) {
            digit = true;
        }
        k += 1;
    }
    assert(part.take(part.len() as int) =~= part);
    dots <= 1 && digit
}

fn named_tok(name: &str) -> (r: Option<Tok>)
    ensures
        r == named(name@),
{
    if str_eq(name, "sqrt") {
        Some(Tok::Func(MathFunc::Sqrt))
    } else if str_eq(name, "abs") {
        Some(Tok::Func(MathFunc::Abs))
    } else if str_eq(name, "sin") {
        Some(Tok::Func(MathFunc::Sin))
    } else if str_eq(name, "cos") {
        Some(Tok::Func(MathFunc::Cos))
    } else if str_eq(name, "tan") {
        Some(Tok::Func(MathFunc::Tan))
    } else if str_eq(name, "ln") {
        Some(Tok::Func(MathFunc::Ln))
    } else if str_eq(name, "log") {
        Some(Tok::Func(MathFunc::Log))
    } else if str_eq(name, "floor") {
        Some(Tok::Func(MathFunc::Floor))
    } else if str_eq(name, "ceil") {
        Some(Tok::Func(MathFunc::Ceil))
    } else if str_eq(name, "round") {
        Some(Tok::Func(MathFunc::Round))
    } else if str_eq(name, "pow") {
        Some(Tok::Func(MathFunc::Pow))
    } else if str_eq(name, "pi") {
        Some(Tok::Num(Number::Pi))
    } else if str_eq(name, "e") {
        Some(Tok::Num(Number::E))
    } else {
        None
    }
}

fn symbol_tok(c: char) -> (r: Option<Tok>)
    ensures
        r == symbol(c),
{
    if c == '*' {
        Some(Tok::Op(Op::Times))
    } else if c == '/' {
        Some(Tok::Op(Op::Divide))
    } else if c == '%' {
        Some(Tok::Op(Op::Remainder))
    } else if c == '^' {
        Some(Tok::Op(Op::Power))
    } else if c == '(' {
        Some(Tok::LParen)
    } else if c == ')' {
        Some(Tok::RParen)
    } else {
        None
    }
}

fn is_unary_here(toks: &Vec<Tok>) -> (r: bool)
    ensures
        r == unary_here(toks@),
{
    if toks.len() == 0 {
        true
    } else {
        match toks[toks.len() - 1] {
            Tok::LParen => true,
            Tok::Op(_) => true,
            _ => false,
        }
    }
}

fn quoted(before: &str, s: &Vec<char>, from: usize, to: usize) -> (r: SkadooshError)
    requires
        from <= to <= s@.len(),
    ensures
        r.text() == "calculator: "@ + (before@ + s@.subrange(from as int, to as int) + "'"@),
{
    let part = string_of(s, from, to);
    anyhow_err(before.to_owned().concat(part.as_str()).concat("'").as_str())
}

/// The tokens of an expression.
pub fn tokenize(expr: &str) -> (r: Result<Vec<Tok>, SkadooshError>)
    ensures
        (match outcome(r) {
            Ok(v) => Ok(v@),
            Err(e) => Err(e),
        }) == lex(expr@, 0, Seq::empty()),
        r matches Ok(v) ==> all_in_range(v@, expr@.len() as int),
{
    let s = chars_of(expr);
    let mut toks: Vec<Tok> = Vec::new();
    let mut i: usize = 0;
    while i < s.len()
        invariant
            s@ == expr@,
            i <= s@.len(),
            lex(s@, 0, Seq::empty()) == lex(s@, i as int, toks@),
            all_in_range(toks@, s@.len() as int),
        decreases s@.len() - i,
    {
        let c: char = s[i];
        if crate::text::is_digit(c) || c == '.' {
            let end = number_end_of(&s, i);
            proof {
                lemma_number_end(s@, i as int);
            }
            if !is_number_at(&s, i, end) {
                return Err(quoted("invalid number '", &s, i, end));
            }
            toks.push(Tok::Num(Number::Literal { from: i, to: end, negative: false }));
            i = end;
        } else if c == '+' {
            if !is_unary_here(&toks) {
                toks.push(Tok::Op(Op::Plus));
            }
            i += 1;
        } else if c == '-' {
            let end = number_end_of(&s, i + 1);
            if !is_unary_here(&toks) {
                toks.push(Tok::Op(Op::Minus));
                i += 1;
            } else if end == i + 1 {
                toks.push(Tok::Num(Number::Zero));
                toks.push(Tok::Op(Op::Minus));
                i += 1;
            } else if is_number_at(&s, i + 1, end) {
                toks.push(Tok::Num(Number::Literal { from: i + 1, to: end, negative: true }));
                i = end;
            } else {
                return Err(quoted("invalid number '", &s, i + 1, end));
            }
        } else if let Some(tok) = symbol_tok(c) {
            toks.push(tok);
            i += 1;
        } else if ('a' <= c && c <= 'z') || ('A' <= c && c <= 'Z') {
            let end = name_end_of(&s, i);
            proof {
                lemma_name_end(s@, i as int);
            }
            match named_tok(to_ascii_lower(&s, i, end).as_str()) {
                Some(tok) => {
                    toks.push(tok);
                    i = end;
                },
                None => {
                    return Err(quoted("unknown function or constant '", &s, i, end));
                },
            }
        } else if c == ',' || c == ' ' || c == '\t' || c == '\n' || c == '\r' {
            i += 1;
        } else {
            assert(s@.subrange(i as int, i + 1) =~= seq![c]);
            return Err(quoted("unexpected character '", &s, i, i + 1));
        }
    }
    Ok(toks)
}

// ---------------------------------------------------------------------------
// Shunting-yard
// ---------------------------------------------------------------------------

/// How tightly an operator binds.
pub open spec fn op_level(op: Op) -> u8 {
    match op {
        Op::Plus => 2,
        Op::Minus => 2,
        Op::Times => 3,
        Op::Divide => 3,
        Op::Remainder => 3,
        Op::Power => 4,
    }
}

/// How tightly a token binds.
pub open spec fn level(tok: Tok) -> u8 {
    match tok {
        Tok::Op(op) => op_level(op),
        Tok::Func(_) => 5,
        _ => 0,
    }
}

/// How tightly a token binds.
pub fn precedence(tok: &Tok) -> (r: u8)
    ensures
        r == level(*tok),
{
    match tok {
        Tok::Op(op) => match op {
            Op::Plus => 2,
            Op::Minus => 2,
            Op::Times => 3,
            Op::Divide => 3,
            Op::Remainder => 3,
            Op::Power => 4,
        },
        Tok::Func(_) => 5,
        _ => 0,
    }
}

/// Whether the top of the operator stack stays where it is when `op` comes:
/// it binds less tightly, or no more tightly than `^`, which associates to
/// the right.
pub open spec fn stays(top: Tok, op: Op) -> bool {
    level(top) < op_level(op) || (op is Power && level(top) <= op_level(op))
}

/// The output and the operator stack.
#[verifier::ext_equal]
pub struct Yard {
    /// What has been put out.
    pub out: Seq<Tok>,
    /// The operators that wait.
    pub ops: Seq<Tok>,
}

impl Yard {
    /// The top of the stack moved to the output.
    pub open spec fn popped(self) -> Yard {
        Yard { out: self.out.push(self.ops.last()), ops: self.ops.drop_last() }
    }
}

/// The operators in front of `op` that bind as tightly, put out.
pub open spec fn pop_for(y: Yard, op: Op) -> Yard
    decreases y.ops.len(),
{
    if y.ops.len() == 0 || stays(y.ops.last(), op) {
        y
    } else {
        pop_for(y.popped(), op)
    }
}

/// The operators above the nearest `(`, put out.
pub open spec fn pop_to_paren(y: Yard) -> Yard
    decreases y.ops.len(),
{
    if y.ops.len() == 0 || y.ops.last() is LParen {
        y
    } else {
        pop_to_paren(y.popped())
    }
}

/// A `)`: its `(` goes, and the function in front of that is put out. `None`
/// where there is no `(`.
pub open spec fn close(y: Yard) -> Option<Yard> {
    let p = pop_to_paren(y);
    if p.ops.len() == 0 {
        None
    } else {
        let q = Yard { out: p.out, ops: p.ops.drop_last() };
        if q.ops.len() > 0 && q.ops.last() is Func {
            Some(q.popped())
        } else {
            Some(q)
        }
    }
}

/// What one token does.
pub open spec fn shunt_step(y: Yard, tok: Tok) -> Option<Yard> {
    match tok {
        Tok::Num(_) => Some(Yard { out: y.out.push(tok), ops: y.ops }),
        Tok::Op(op) => {
            let p = pop_for(y, op);
            Some(Yard { out: p.out, ops: p.ops.push(tok) })
        },
        Tok::RParen => close(y),
        _ => Some(Yard { out: y.out, ops: y.ops.push(tok) }),
    }
}

/// What the tokens do, one after the other.
pub open spec fn shunt_all(y: Option<Yard>, toks: Seq<Tok>) -> Option<Yard>
    decreases toks.len(),
{
    if toks.len() == 0 {
        y
    } else {
        match y {
            Some(s) => shunt_all(shunt_step(s, toks[0]), toks.drop_first()),
            None => None,
        }
    }
}

/// The waiting operators put out; `None` where a `(` is among them.
pub open spec fn drain(y: Yard) -> Option<Seq<Tok>>
    decreases y.ops.len(),
{
    if y.ops.len() == 0 {
        Some(y.out)
    } else if y.ops.last() is LParen {
        None
    } else {
        drain(y.popped())
    }
}

/// The tokens in postfix order, or `None` where the parentheses do not match.
pub open spec fn postfix(toks: Seq<Tok>) -> Option<Seq<Tok>> {
    match shunt_all(Some(Yard { out: Seq::empty(), ops: Seq::empty() }), toks) {
        Some(y) => drain(y),
        None => None,
    }
}

/// The complaint about parentheses.
pub open spec fn mismatched() -> Seq<char> {
    "calculator: "@ + "mismatched parentheses"@
}

fn pop_one(out: &mut Vec<Tok>, ops: &mut Vec<Tok>)
    requires
        old(ops)@.len() > 0,
    ensures
        (Yard { out: final(out)@, ops: final(ops)@ }) == (Yard {
            out: old(out)@,
            ops: old(ops)@,
        }).popped(),
{
    match ops.pop() {
        Some(t) => out.push(t),
        None => {},
    }
}

fn pop_for_op(out: &mut Vec<Tok>, ops: &mut Vec<Tok>, op: Op)
    ensures
        (Yard { out: final(out)@, ops: final(ops)@ }) == pop_for(
            Yard { out: old(out)@, ops: old(ops)@ },
            op,
        ),
{
    let ghost start = Yard { out: out@, ops: ops@ };
    let tok: Tok = Tok::Op(op);
    let cur: u8 = precedence(&tok);
    while ops.len() > 0
        invariant_except_break
            cur == op_level(op),
            pop_for(start, op) == pop_for(Yard { out: out@, ops: ops@ }, op),
        ensures
            pop_for(start, op) == (Yard { out: out@, ops: ops@ }),
        decreases ops@.len(),
    {
        let top: Tok = ops[ops.len() - 1];
        let held: u8 = precedence(&top);
        if held < cur || (op == Op::Power && held <= cur) {
            break;
        }
        pop_one(out, ops);
    }
}

fn pop_until_paren(out: &mut Vec<Tok>, ops: &mut Vec<Tok>)
    ensures
        (Yard { out: final(out)@, ops: final(ops)@ }) == pop_to_paren(
            Yard { out: old(out)@, ops: old(ops)@ },
        ),
{
    let ghost start = Yard { out: out@, ops: ops@ };
    while ops.len() > 0
        invariant_except_break
            pop_to_paren(start) == pop_to_paren(Yard { out: out@, ops: ops@ }),
        ensures
            pop_to_paren(start) == (Yard { out: out@, ops: ops@ }),
        decreases ops@.len(),
    {
        let top: Tok = ops[ops.len() - 1];
        if top == Tok::LParen {
            break;
        }
        pop_one(out, ops);
    }
}

fn close_paren(out: &mut Vec<Tok>, ops: &mut Vec<Tok>) -> (r: bool)
    ensures
        close(Yard { out: old(out)@, ops: old(ops)@ }) == (if r {
            Some(Yard { out: final(out)@, ops: final(ops)@ })
        } else {
            None
        }),
{
    pop_until_paren(out, ops);
    if ops.pop().is_none() {
        return false;
    }
    if ops.len() > 0 {
        let top: Tok = ops[ops.len() - 1];
        match top {
            Tok::Func(_) => pop_one(out, ops),
            _ => {},
        }
    }
    true
}

fn shunt_one(out: &mut Vec<Tok>, ops: &mut Vec<Tok>, tok: Tok) -> (r: bool)
    ensures
        shunt_step(Yard { out: old(out)@, ops: old(ops)@ }, tok) == (if r {
            Some(Yard { out: final(out)@, ops: final(ops)@ })
        } else {
            None
        }),
{
    match tok {
        Tok::Num(_) => {
            out.push(tok);
            true
        },
        Tok::Op(op) => {
            pop_for_op(out, ops, op);
            ops.push(tok);
            true
        },
        Tok::RParen => close_paren(out, ops),
        _ => {
            ops.push(tok);
            true
        },
    }
}

proof fn lemma_popped_in_range(y: Yard, n: int)
    requires
        y.ops.len() > 0,
        all_in_range(y.out, n),
        all_in_range(y.ops, n),
    ensures
        all_in_range(y.popped().out, n),
        all_in_range(y.popped().ops, n),
{
    assert(in_range(y.ops[y.ops.len() - 1], n));
}

proof fn lemma_pop_for_in_range(y: Yard, op: Op, n: int)
    requires
        all_in_range(y.out, n),
        all_in_range(y.ops, n),
    ensures
        all_in_range(pop_for(y, op).out, n),
        all_in_range(pop_for(y, op).ops, n),
    decreases y.ops.len(),
{
    if !(y.ops.len() == 0 || stays(y.ops.last(), op)) {
        lemma_popped_in_range(y, n);
        lemma_pop_for_in_range(y.popped(), op, n);
    }
}

proof fn lemma_pop_to_paren_in_range(y: Yard, n: int)
    requires
        all_in_range(y.out, n),
        all_in_range(y.ops, n),
    ensures
        all_in_range(pop_to_paren(y).out, n),
        all_in_range(pop_to_paren(y).ops, n),
    decreases y.ops.len(),
{
    if !(y.ops.len() == 0 || y.ops.last() is LParen) {
        lemma_popped_in_range(y, n);
        lemma_pop_to_paren_in_range(y.popped(), n);
    }
}

proof fn lemma_step_in_range(y: Yard, tok: Tok, n: int)
    requires
        all_in_range(y.out, n),
        all_in_range(y.ops, n),
        in_range(tok, n),
    ensures
        shunt_step(y, tok) matches Some(z) ==> all_in_range(z.out, n) && all_in_range(z.ops, n),
{
    match tok {
        Tok::Op(op) => {
            lemma_pop_for_in_range(y, op, n);
        },
        Tok::RParen => {
            lemma_pop_to_paren_in_range(y, n);
            let p = pop_to_paren(y);
            if p.ops.len() > 0 {
                let q = Yard { out: p.out, ops: p.ops.drop_last() };
                if q.ops.len() > 0 {
                    lemma_popped_in_range(q, n);
                }
            }
        },
        _ => {},
    }
}

/// The tokens in postfix order.
pub fn shunt(tokens: &Vec<Tok>) -> (r: Result<Vec<Tok>, SkadooshError>)
    ensures
        match r {
            Ok(v) => postfix(tokens@) == Some(v@),
            Err(e) => postfix(tokens@) is None && e.text() == mismatched(),
        },
        r matches Ok(v) ==> forall|n: int| #[trigger]
            all_in_range(tokens@, n) ==> all_in_range(v@, n),
{
    let mut out: Vec<Tok> = Vec::new();
    let mut ops: Vec<Tok> = Vec::new();
    let ghost start = Some(Yard { out: Seq::empty(), ops: Seq::empty() });
    let mut i: usize = 0;
    assert(tokens@.skip(0) =~= tokens@);
    while i < tokens.len()
        invariant
            i <= tokens@.len(),
            shunt_all(start, tokens@) == shunt_all(
                Some(Yard { out: out@, ops: ops@ }),
                tokens@.skip(i as int),
            ),
            start == Some(Yard { out: Seq::empty(), ops: Seq::empty() }),
            forall|n: int| #[trigger]
                all_in_range(tokens@, n) ==> all_in_range(out@, n) && all_in_range(ops@, n),
        decreases tokens@.len() - i,
    {
        let ghost before = Yard { out: out@, ops: ops@ };
        assert(tokens@.skip(i as int).drop_first() =~= tokens@.skip(i + 1));
        assert(tokens@.skip(i as int)[0] == tokens@[i as int]);
        let fits = shunt_one(&mut out, &mut ops, tokens[i]);
        if !fits {
            assert(shunt_all(None, tokens@.skip(i + 1)) is None);
            return Err(anyhow_err("mismatched parentheses"));
        }
        proof {
            assert forall|n: int| #[trigger] all_in_range(tokens@, n) implies all_in_range(out@, n)
                && all_in_range(ops@, n) by {
                assert(in_range(tokens@[i as int], n));
                lemma_step_in_range(before, tokens@[i as int], n);
            }
        }
        i += 1;
    }
    while ops.len() > 0
        invariant
            postfix(tokens@) == drain(Yard { out: out@, ops: ops@ }),
            forall|n: int| #[trigger]
                all_in_range(tokens@, n) ==> all_in_range(out@, n) && all_in_range(ops@, n),
        decreases ops@.len(),
    {
        let top: Tok = ops[ops.len() - 1];
        if top == Tok::LParen {
            return Err(anyhow_err("mismatched parentheses"));
        }
        proof {
            assert forall|n: int| #[trigger] all_in_range(tokens@, n) implies in_range(top, n) by {
                assert(in_range(ops@[ops@.len() - 1], n));
            }
        }
        pop_one(&mut out, &mut ops);
    }
    Ok(out)
}

// ---------------------------------------------------------------------------
// Evaluation
// ---------------------------------------------------------------------------

/// A piece of float arithmetic. Values are float bits.
#[derive(Debug, Clone, Copy, PartialEq, Eq, Structural)]
pub enum Request {
    /// Read the characters `from..to` of the expression as a decimal number,
    /// and negate it if asked to.
    Literal { from: usize, to: usize, negative: bool },
    /// Apply an operator to `a` on its left and `b` on its right.
    Binary { op: Op, a: u64, b: u64 },
    /// Apply a function.
    Unary { func: MathFunc, a: u64 },
}

/// The bits of π.
pub const PI_BITS: u64 = 0x4009_21fb_5444_2d18;

/// The bits of Euler's number.
pub const E_BITS: u64 = 0x4005_bf0a_8b14_5769;

/// Whether float bits are a zero, of either sign.
pub open spec fn is_zero(bits: u64) -> bool {
    bits == 0 || bits == 0x8000_0000_0000_0000
}

/// What comes next for a token in postfix order.
#[verifier::ext_equal]
pub enum Next {
    /// The value is at hand, and this is the stack with it.
    Value(Seq<u64>),
    /// This is asked for, and this is the stack below the answer.
    Ask(Request, Seq<u64>),
    /// Evaluation fails.
    Fail(Seq<char>),
    /// Nothing: parentheses have no place in postfix order.
    Skip,
}

/// What a token asks for, over a stack of values.
pub open spec fn next_of(tok: Tok, stack: Seq<u64>) -> Next {
    match tok {
        Tok::Num(n) => match n {
            Number::Literal { from, to, negative } => Next::Ask(
                Request::Literal { from, to, negative },
                stack,
            ),
            Number::Zero => Next::Value(stack.push(0)),
            Number::Pi => Next::Value(stack.push(PI_BITS)),
            Number::E => Next::Value(stack.push(E_BITS)),
        },
        Tok::Op(op) => if stack.len() < 2 {
            Next::Fail("calculator: "@ + "missing operand"@)
        } else {
            let b = stack.last();
            let a = stack.drop_last().last();
            if op is Divide && is_zero(b) {
                Next::Fail("calculator: "@ + "division by zero"@)
            } else {
                Next::Ask(Request::Binary { op, a, b }, stack.drop_last().drop_last())
            }
        },
        Tok::Func(func) => if stack.len() < 1 {
            Next::Fail("calculator: "@ + "missing function argument"@)
        } else if func is Pow {
            if stack.len() < 2 {
                Next::Fail("calculator: "@ + "pow needs two arguments"@)
            } else {
                Next::Ask(
                    Request::Binary {
                        op: Op::Power,
                        a: stack.drop_last().last(),
                        b: stack.last(),
                    },
                    stack.drop_last().drop_last(),
                )
            }
        } else {
            Next::Ask(Request::Unary { func, a: stack.last() }, stack.drop_last())
        },
        _ => Next::Skip,
    }
}

/// What is left when all tokens are done: one value, which is the result.
pub open spec fn result_of(stack: Seq<u64>) -> Result<u64, Seq<char>> {
    if stack.len() == 1 {
        Ok(stack[0])
    } else if stack.len() == 0 {
        Err("calculator: "@ + "empty expression"@)
    } else {
        Err(
            "calculator: "@ + (crate::text::decimal(stack.len())
                + " values left on stack — missing operator?"@),
        )
    }
}

/// The value of tokens in postfix order over a stack of values, where
/// `arith` is what the float arithmetic gives.
pub open spec fn evaluate(
    rpn: Seq<Tok>,
    stack: Seq<u64>,
    arith: spec_fn(Request) -> u64,
) -> Result<u64, Seq<char>>
    decreases rpn.len(),
{
    if rpn.len() == 0 {
        result_of(stack)
    } else {
        match next_of(rpn[0], stack) {
            Next::Value(s) => evaluate(rpn.drop_first(), s, arith),
            Next::Ask(request, s) => evaluate(rpn.drop_first(), s.push(arith(request)), arith),
            Next::Fail(m) => Err(m),
            Next::Skip => evaluate(rpn.drop_first(), stack, arith),
        }
    }
}

/// Where an evaluation comes to a stop.
#[verifier::ext_equal]
pub enum Stop {
    /// This is asked for, with these tokens to come and this stack below the
    /// answer.
    Ask(Request, Seq<Tok>, Seq<u64>),
    /// At the end, with this outcome.
    End(Result<u64, Seq<char>>),
}

/// The first stop of an evaluation.
pub open spec fn advance(rpn: Seq<Tok>, stack: Seq<u64>) -> Stop
    decreases rpn.len(),
{
    if rpn.len() == 0 {
        Stop::End(result_of(stack))
    } else {
        match next_of(rpn[0], stack) {
            Next::Value(s) => advance(rpn.drop_first(), s),
            Next::Ask(request, s) => Stop::Ask(request, rpn.drop_first(), s),
            Next::Fail(m) => Stop::End(Err(m)),
            Next::Skip => advance(rpn.drop_first(), stack),
        }
    }
}

/// Where a calculation stands.
#[derive(Debug)]
pub enum CalcStep {
    /// Read `text` as a decimal number, negate it if asked to, and hand the
    /// bits of the value to [`Calculation::answer`].
    Read { text: String, negative: bool },
    /// Apply the operator to `a` on its left and `b` on its right, and hand
    /// the result to [`Calculation::answer`].
    Apply { op: Op, a: u64, b: u64 },
    /// Apply the function, and hand the result to [`Calculation::answer`].
    Call { func: MathFunc, a: u64 },
    /// This is the result.
    Done(u64),
    /// There is none.
    Failed(SkadooshError),
}

/// Whether a step is what a request of the expression `expr` asks for.
pub open spec fn asks(step: CalcStep, expr: Seq<char>, request: Request) -> bool {
    match request {
        Request::Literal { from, to, negative } => match step {
            CalcStep::Read { text, negative: n } => n == negative && text@ == expr.subrange(
                from as int,
                to as int,
            ),
            _ => false,
        },
        Request::Binary { op, a, b } => step == (CalcStep::Apply { op, a, b }),
        Request::Unary { func, a } => step == (CalcStep::Call { func, a }),
    }
}

/// Whether a step reports an outcome.
pub open spec fn reports(step: CalcStep, end: Result<u64, Seq<char>>) -> bool {
    match end {
        Ok(v) => step == CalcStep::Done(v),
        Err(m) => match step {
            CalcStep::Failed(e) => e.text() == m,
            _ => false,
        },
    }
}

/// An expression that is being evaluated: [`step`](Self::step) says what
/// float arithmetic is needed next, [`answer`](Self::answer) takes its result.
#[derive(Debug)]
pub struct Calculation {
    expr: Vec<char>,
    rpn: Vec<Tok>,
    at: usize,
    stack: Vec<u64>,
}

/// The outcome of a popped stack.
fn finish(stack: &Vec<u64>) -> (r: CalcStep)
    ensures
        reports(r, result_of(stack@)),
{
    if stack.len() == 1 {
        CalcStep::Done(stack[0])
    } else if stack.len() == 0 {
        CalcStep::Failed(anyhow_err("empty expression"))
    } else {
        CalcStep::Failed(
            anyhow_err(
                decimal_string(stack.len() as u64).concat(
                    " values left on stack — missing operator?",
                ).as_str(),
            ),
        )
    }
}

impl Calculation {
    /// The expression.
    pub closed spec fn expr(&self) -> Seq<char> {
        self.expr@
    }

    /// The tokens to come, in postfix order.
    pub closed spec fn rest(&self) -> Seq<Tok> {
        self.rpn@.skip(self.at as int)
    }

    /// The values on the stack.
    pub closed spec fn stack(&self) -> Seq<u64> {
        self.stack@
    }

    /// The tokens to come speak of characters of the expression.
    pub closed spec fn wf(&self) -> bool {
        self.at <= self.rpn@.len() && all_in_range(self.rpn@, self.expr@.len() as int)
    }

    /// An operator with its two operands from the stack.
    fn operands(&mut self, op: Op, lacking: &str) -> (r: CalcStep)
        requires
            old(self).wf(),
        ensures
            final(self).wf(),
            final(self).expr() == old(self).expr(),
            final(self).rest() == old(self).rest(),
            old(self).stack().len() < 2 ==> reports(r, Err("calculator: "@ + lacking@)),
            old(self).stack().len() >= 2 ==> r == (CalcStep::Apply {
                op,
                a: old(self).stack().drop_last().last(),
                b: old(self).stack().last(),
            }) && final(self).stack() == old(self).stack().drop_last().drop_last(),
    {
        let b = match self.stack.pop() {
            Some(b) => b,
            None => {
                return CalcStep::Failed(anyhow_err(lacking));
            },
        };
        let a = match self.stack.pop() {
            Some(a) => a,
            None => {
                return CalcStep::Failed(anyhow_err(lacking));
            },
        };
        CalcStep::Apply { op, a, b }
    }

    /// Goes on to the next piece of float arithmetic, or to the end.
    pub fn step(&mut self) -> (r: CalcStep)
        requires
            old(self).wf(),
        ensures
            final(self).wf(),
            final(self).expr() == old(self).expr(),
            match advance(old(self).rest(), old(self).stack()) {
                Stop::Ask(request, rest, stack) => asks(r, old(self).expr(), request)
                    && final(self).rest() == rest && final(self).stack() == stack,
                Stop::End(end) => reports(r, end),
            },
    {
        while self.at < self.rpn.len()
            invariant
                self.wf(),
                self.expr() == old(self).expr(),
                advance(self.rest(), self.stack()) == advance(old(self).rest(), old(self).stack()),
            decreases self.rpn@.len() - self.at,
        {
            let tok: Tok = self.rpn[self.at];
            let ghost rest = self.rest();
            let ghost stack = self.stack();
            proof {
                assert(in_range(self.rpn@[self.at as int], self.expr@.len() as int));
                assert(rest[0] == tok);
                assert(rest.drop_first() =~= self.rpn@.skip(self.at + 1));
            }
            self.at = self.at + 1;
            match tok {
                Tok::Num(n) => match n {
                    Number::Literal { from, to, negative } => {
                        return CalcStep::Read { text: string_of(&self.expr, from, to), negative };
                    },
                    Number::Zero => {
                        self.stack.push(0);
                    },
                    Number::Pi => {
                        self.stack.push(PI_BITS);
                    },
                    Number::E => {
                        self.stack.push(E_BITS);
                    },
                },
                Tok::Op(op) => {
                    if op == Op::Divide && self.stack.len() >= 2 {
                        let b: u64 = self.stack[self.stack.len() - 1];
                        if b == 0 || b == 0x8000_0000_0000_0000 {
                            return CalcStep::Failed(anyhow_err("division by zero"));
                        }
                    }
                    return self.operands(op, "missing operand");
                },
                Tok::Func(func) => {
                    if self.stack.len() == 0 {
                        return CalcStep::Failed(anyhow_err("missing function argument"));
                    }
                    if func == MathFunc::Pow {
                        return self.operands(Op::Power, "pow needs two arguments");
                    }
                    match self.stack.pop() {
                        Some(a) => {
                            return CalcStep::Call { func, a };
                        },
                        None => {},
                    }
                },
                _ => {},
            }
        }
        assert(self.rest().len() == 0);
        finish(&self.stack)
    }

    /// Takes the result of the arithmetic that [`step`](Self::step) asked
    /// for.
    pub fn answer(&mut self, bits: u64)
        requires
            old(self).wf(),
        ensures
            final(self).wf(),
            final(self).expr() == old(self).expr(),
            final(self).rest() == old(self).rest(),
            final(self).stack() == old(self).stack().push(bits),
    {
        self.stack.push(bits);
    }
}

/// Safe math evaluator: tokenises an expression and puts it into postfix
/// order.
pub fn calc(expression: &str) -> (r: Result<Calculation, SkadooshError>)
    ensures
        match lex(expression@, 0, Seq::empty()) {
            Ok(toks) => match postfix(toks) {
                Some(rpn) => r matches Ok(c) && c.wf() && c.expr() == expression@ && c.rest()
                    == rpn && c.stack() == Seq::<u64>::empty(),
                None => outcome(r) == Err::<Calculation, _>(mismatched()),
            },
            Err(m) => outcome(r) == Err::<Calculation, _>(m),
        },
{
    let toks = match tokenize(expression) {
        Ok(t) => t,
        Err(e) => {
            return Err(e);
        },
    };
    let rpn = match shunt(&toks) {
        Ok(t) => t,
        Err(e) => {
            return Err(e);
        },
    };
    assert(rpn@.skip(0) =~= rpn@);
    Ok(Calculation { expr: chars_of(expression), rpn, at: 0, stack: Vec::new() })
}

/// `s` without the characters `c` at its end.
pub open spec fn trim_end_char(s: Seq<char>, c: char) -> Seq<char>
    decreases s.len(),
{
    if s.len() > 0 && s.last() == c {
        trim_end_char(s.drop_last(), c)
    } else {
        s
    }
}

fn trim_end_of(v: &mut Vec<char>, c: char)
    ensures
        final(v)@ == trim_end_char(old(v)@, c),
{
    let ghost start = v@;
    while v.len() > 0
        invariant_except_break
            trim_end_char(start, c) == trim_end_char(v@, c),
        ensures
            trim_end_char(start, c) == v@,
        decreases v@.len(),
    {
        if v[v.len() - 1] != c {
            break;
        }
        let _ = v.pop();
    }
}

/// How a result is written: the whole number that it is next to without a
/// trailing ".0", else the ten decimals in `fixed` without trailing zeros.
pub fn calc_text(whole: Option<i64>, fixed: &str) -> (r: String)
    ensures
        r@ == (match whole {
            Some(n) => signed_decimal(n as int),
            None => trim_end_char(trim_end_char(fixed@, '0'), '.'),
        }),
{
    match whole {
        Some(n) => signed_string(n),
        None => {
            let mut v = chars_of(fixed);
            trim_end_of(&mut v, '0');
            trim_end_of(&mut v, '.');
            assert(v@.subrange(0, v@.len() as int) =~= v@);
            string_of(&v, 0, v.len())
        },
    }
}

// ---------------------------------------------------------------------------
// Laws
// ---------------------------------------------------------------------------

/// Where each request of an evaluation is answered with what the arithmetic
/// gives, the outcome is the value of the tokens.
pub proof fn law_answers_give_the_value(
    rpn: Seq<Tok>,
    stack: Seq<u64>,
    arith: spec_fn(Request) -> u64,
)
    ensures
        evaluate(rpn, stack, arith) == (match advance(rpn, stack) {
            Stop::Ask(request, rest, below) => evaluate(rest, below.push(arith(request)), arith),
            Stop::End(end) => end,
        }),
    decreases rpn.len(),
{
    if rpn.len() > 0 {
        match next_of(rpn[0], stack) {
            Next::Value(s) => law_answers_give_the_value(rpn.drop_first(), s, arith),
            Next::Skip => law_answers_give_the_value(rpn.drop_first(), stack, arith),
            _ => {},
        }
    }
}

/// An expression as a tree.
pub enum Expr {
    /// A number.
    Num(Number),
    /// An operator between two expressions.
    Binary(Op, Box<Expr>, Box<Expr>),
    /// A function of one argument.
    Call(MathFunc, Box<Expr>),
    /// `pow` of two arguments.
    Pow(Box<Expr>, Box<Expr>),
}

/// How tightly what stands on the left of an operator has to bind to need no
/// parentheses: `^` associates to the right, the others to the left.
pub open spec fn left_level(op: Op) -> int {
    if op is Power {
        5
    } else {
        op_level(op) as int
    }
}

/// The same for what stands on the right of an operator.
pub open spec fn right_level(op: Op) -> int {
    if op is Power {
        4
    } else {
        op_level(op) + 1
    }
}

/// The tokens of a tree as it is written down where something that binds as
/// tightly as `min` is expected, with parentheses only where they are needed.
/// The first argument of `pow` has them unless it is a number or a call.
pub open spec fn written(e: Expr, min: int) -> Seq<Tok>
    decreases e,
{
    match e {
        Expr::Num(n) => seq![Tok::Num(n)],
        Expr::Binary(op, l, r) => {
            let body = written(*l, left_level(op)) + seq![Tok::Op(op)] + written(
                *r,
                right_level(op),
            );
            if op_level(op) < min {
                seq![Tok::LParen] + body + seq![Tok::RParen]
            } else {
                body
            }
        },
        Expr::Call(f, x) => seq![Tok::Func(f), Tok::LParen] + written(*x, 1) + seq![Tok::RParen],
        Expr::Pow(x, y) => seq![Tok::Func(MathFunc::Pow), Tok::LParen] + written(*x, 5) + written(
            *y,
            1,
        ) + seq![Tok::RParen],
    }
}

/// The tokens of a tree in postfix order.
pub open spec fn post(e: Expr) -> Seq<Tok>
    decreases e,
{
    match e {
        Expr::Num(n) => seq![Tok::Num(n)],
        Expr::Binary(op, l, r) => post(*l) + post(*r) + seq![Tok::Op(op)],
        Expr::Call(f, x) => post(*x) + seq![Tok::Func(f)],
        Expr::Pow(x, y) => post(*x) + post(*y) + seq![Tok::Func(MathFunc::Pow)],
    }
}

/// Whether the functions of one argument in a tree are such.
pub open spec fn is_tree(e: Expr) -> bool
    decreases e,
{
    match e {
        Expr::Num(_) => true,
        Expr::Binary(_, l, r) => is_tree(*l) && is_tree(*r),
        Expr::Call(f, x) => !(f is Pow) && is_tree(*x),
        Expr::Pow(x, y) => is_tree(*x) && is_tree(*y),
    }
}

/// The value of a number.
pub open spec fn number_value(n: Number, arith: spec_fn(Request) -> u64) -> u64 {
    match n {
        Number::Literal { from, to, negative } => arith(Request::Literal { from, to, negative }),
        Number::Zero => 0,
        Number::Pi => PI_BITS,
        Number::E => E_BITS,
    }
}

/// The value of a tree: operands from left to right, then the operator.
pub open spec fn tree_value(e: Expr, arith: spec_fn(Request) -> u64) -> Result<u64, Seq<char>>
    decreases e,
{
    match e {
        Expr::Num(n) => Ok(number_value(n, arith)),
        Expr::Binary(op, l, r) => match tree_value(*l, arith) {
            Err(m) => Err(m),
            Ok(a) => match tree_value(*r, arith) {
                Err(m) => Err(m),
                Ok(b) => if op is Divide && is_zero(b) {
                    Err("calculator: "@ + "division by zero"@)
                } else {
                    Ok(arith(Request::Binary { op, a, b }))
                },
            },
        },
        Expr::Call(func, x) => match tree_value(*x, arith) {
            Err(m) => Err(m),
            Ok(a) => Ok(arith(Request::Unary { func, a })),
        },
        Expr::Pow(x, y) => match tree_value(*x, arith) {
            Err(m) => Err(m),
            Ok(a) => match tree_value(*y, arith) {
                Err(m) => Err(m),
                Ok(b) => Ok(arith(Request::Binary { op: Op::Power, a, b })),
            },
        },
    }
}

/// The operators of a tree that still wait once its last token has come.
spec fn waiting(e: Expr, min: int) -> Seq<Tok>
    decreases e,
{
    match e {
        Expr::Binary(op, l, r) => if op_level(op) < min {
            Seq::empty()
        } else {
            seq![Tok::Op(op)] + waiting(*r, right_level(op))
        },
        _ => Seq::empty(),
    }
}

/// What has been put out of a tree once its last token has come.
spec fn emitted(e: Expr, min: int) -> Seq<Tok>
    decreases e,
{
    match e {
        Expr::Binary(op, l, r) => if op_level(op) < min {
            post(e)
        } else {
            post(*l) + emitted(*r, right_level(op))
        },
        _ => post(e),
    }
}

/// Whether the top of the stack is no function, and no operator that binds as
/// tightly as `min` moves it.
spec fn rests(ops: Seq<Tok>, min: int) -> bool {
    ops.len() == 0 || (!(ops.last() is Func) && forall|op: Op|
        op_level(op) >= min ==> #[trigger] stays(ops.last(), op))
}

proof fn lemma_waiting(e: Expr, min: int)
    ensures
        emitted(e, min) + waiting(e, min).reverse() == post(e),
        forall|k: int|
            0 <= k < waiting(e, min).len() ==> (#[trigger] waiting(e, min)[k]) is Op && level(
                waiting(e, min)[k],
            ) >= min,
    decreases e,
{
    let w = waiting(e, min);
    match e {
        Expr::Binary(op, l, r) if op_level(op) >= min => {
            let v = waiting(*r, right_level(op));
            lemma_waiting(*r, right_level(op));
            assert(w.reverse() =~= v.reverse() + seq![Tok::Op(op)]);
            assert(emitted(e, min) + w.reverse() =~= post(*l) + (emitted(*r, right_level(op))
                + v.reverse()) + seq![Tok::Op(op)]);
            assert forall|k: int| 0 <= k < w.len() implies (#[trigger] w[k]) is Op && level(w[k])
                >= min by {
                if k > 0 {
                    assert(w[k] == v[k - 1]);
                }
            }
        },
        _ => {
            assert(w.reverse() =~= Seq::empty());
            assert(emitted(e, min) + w.reverse() =~= post(e));
        },
    }
}

proof fn lemma_pop_waiting(out: Seq<Tok>, ops: Seq<Tok>, w: Seq<Tok>, op: Op)
    requires
        ops.len() == 0 || stays(ops.last(), op),
        forall|k: int| 0 <= k < w.len() ==> !stays(#[trigger] w[k], op),
    ensures
        pop_for(Yard { out, ops: ops + w }, op) == (Yard { out: out + w.reverse(), ops }),
    decreases w.len(),
{
    if w.len() == 0 {
        assert(ops + w =~= ops);
        assert(out + w.reverse() =~= out);
    } else {
        let y = Yard { out, ops: ops + w };
        assert(y.ops.last() == w[w.len() - 1]);
        assert(y.popped().ops =~= ops + w.drop_last());
        assert forall|k: int| 0 <= k < w.drop_last().len() implies !stays(
            #[trigger] w.drop_last()[k],
            op,
        ) by {
            assert(w.drop_last()[k] == w[k]);
        }
        lemma_pop_waiting(out.push(w.last()), ops, w.drop_last(), op);
        assert(out.push(w.last()) + w.drop_last().reverse() =~= out + w.reverse());
    }
}

proof fn lemma_pop_to_paren(out: Seq<Tok>, ops: Seq<Tok>, w: Seq<Tok>)
    requires
        ops.len() > 0,
        ops.last() is LParen,
        forall|k: int| 0 <= k < w.len() ==> !((#[trigger] w[k]) is LParen),
    ensures
        pop_to_paren(Yard { out, ops: ops + w }) == (Yard { out: out + w.reverse(), ops }),
    decreases w.len(),
{
    if w.len() == 0 {
        assert(ops + w =~= ops);
        assert(out + w.reverse() =~= out);
    } else {
        let y = Yard { out, ops: ops + w };
        assert(y.ops.last() == w[w.len() - 1]);
        assert(y.popped().ops =~= ops + w.drop_last());
        assert forall|k: int| 0 <= k < w.drop_last().len() implies !(
        (#[trigger] w.drop_last()[k]) is LParen) by {
            assert(w.drop_last()[k] == w[k]);
        }
        lemma_pop_to_paren(out.push(w.last()), ops, w.drop_last());
        assert(out.push(w.last()) + w.drop_last().reverse() =~= out + w.reverse());
    }
}

proof fn lemma_drain(out: Seq<Tok>, w: Seq<Tok>)
    requires
        forall|k: int| 0 <= k < w.len() ==> !((#[trigger] w[k]) is LParen),
    ensures
        drain(Yard { out, ops: w }) == Some(out + w.reverse()),
    decreases w.len(),
{
    if w.len() == 0 {
        assert(out + w.reverse() =~= out);
    } else {
        assert(w.last() == w[w.len() - 1]);
        assert forall|k: int| 0 <= k < w.drop_last().len() implies !(
        (#[trigger] w.drop_last()[k]) is LParen) by {
            assert(w.drop_last()[k] == w[k]);
        }
        lemma_drain(out.push(w.last()), w.drop_last());
        assert(out.push(w.last()) + w.drop_last().reverse() =~= out + w.reverse());
    }
}

proof fn lemma_shunt_concat(y: Option<Yard>, a: Seq<Tok>, b: Seq<Tok>)
    ensures
        shunt_all(y, a + b) == shunt_all(shunt_all(y, a), b),
    decreases a.len(),
{
    if a.len() == 0 {
        assert(a + b =~= b);
    } else {
        match y {
            Some(s) => {
                assert((a + b).drop_first() =~= a.drop_first() + b);
                assert((a + b)[0] == a[0]);
                lemma_shunt_concat(shunt_step(s, a[0]), a.drop_first(), b);
            },
            None => {
                if b.len() > 0 {
                }
            },
        }
    }
}

proof fn lemma_shunt_one(y: Yard, tok: Tok)
    ensures
        shunt_all(Some(y), seq![tok]) == shunt_step(y, tok),
{
    assert(seq![tok].drop_first().len() == 0);
    assert(shunt_all(shunt_step(y, tok), seq![tok].drop_first()) == shunt_step(y, tok));
}

/// A tree in parentheses, behind what `ops` holds.
proof fn lemma_shunt_closed(out: Seq<Tok>, ops: Seq<Tok>, body: Seq<Tok>, e: Expr, min: int)
    requires
        shunt_all(Some(Yard { out, ops: ops.push(Tok::LParen) }), body) == Some(
            Yard {
                out: out + emitted(e, min),
                ops: ops.push(Tok::LParen) + waiting(e, min),
            },
        ),
    ensures
        shunt_all(Some(Yard { out, ops }), seq![Tok::LParen] + body + seq![Tok::RParen]) == close(
            Yard { out: out + post(e), ops: ops.push(Tok::LParen) },
        ),
{
    let y = Yard { out, ops };
    let opened = Yard { out, ops: ops.push(Tok::LParen) };
    let w = waiting(e, min);
    let all = seq![Tok::LParen] + body + seq![Tok::RParen];
    lemma_shunt_concat(Some(y), seq![Tok::LParen] + body, seq![Tok::RParen]);
    lemma_shunt_concat(Some(y), seq![Tok::LParen], body);
    lemma_shunt_one(y, Tok::LParen);
    let inside = Yard { out: out + emitted(e, min), ops: opened.ops + w };
    lemma_shunt_one(inside, Tok::RParen);
    lemma_waiting(e, min);
    lemma_pop_to_paren(out + emitted(e, min), opened.ops, w);
    assert(out + emitted(e, min) + w.reverse() =~= out + post(e));
    let there = Yard { out: out + post(e), ops: opened.ops };
    assert(pop_to_paren(there) == there);
    assert(pop_to_paren(inside) == there);
}

/// What a written tree does to the output and the stack.
proof fn lemma_shunt_written(out: Seq<Tok>, ops: Seq<Tok>, e: Expr, min: int)
    requires
        min >= 1,
        rests(ops, min),
    ensures
        shunt_all(Some(Yard { out, ops }), written(e, min)) == Some(
            Yard { out: out + emitted(e, min), ops: ops + waiting(e, min) },
        ),
    decreases e, 1nat,
{
    let y = Yard { out, ops };
    match e {
        Expr::Num(n) => {
            lemma_shunt_one(y, Tok::Num(n));
            assert(out + seq![Tok::Num(n)] =~= out.push(Tok::Num(n)));
            assert(ops + waiting(e, min) =~= ops);
        },
        Expr::Binary(op, l, r) => {
            if op_level(op) < min {
                let inner = ops.push(Tok::LParen);
                lemma_shunt_binary(out, inner, e);
                let body = written(*l, left_level(op)) + seq![Tok::Op(op)] + written(
                    *r,
                    right_level(op),
                );
                assert(waiting(e, 1) == seq![Tok::Op(op)] + waiting(*r, right_level(op)));
                assert(emitted(e, 1) == post(*l) + emitted(*r, right_level(op)));
                lemma_shunt_closed(out, ops, body, e, 1);
                let there = Yard { out: out + post(e), ops: inner };
                assert(pop_to_paren(there) == there);
                assert(inner.drop_last() =~= ops);
                assert(ops + waiting(e, min) =~= ops);
            } else {
                lemma_shunt_binary(out, ops, e);
            }
        },
        Expr::Call(f, x) => {
            let named = ops.push(Tok::Func(f));
            let body = written(*x, 1);
            lemma_shunt_written(out, named.push(Tok::LParen), *x, 1);
            lemma_shunt_closed(out, named, body, *x, 1);
            let tail = seq![Tok::LParen] + body + seq![Tok::RParen];
            assert(written(e, min) =~= seq![Tok::Func(f)] + tail);
            lemma_shunt_concat(Some(y), seq![Tok::Func(f)], tail);
            lemma_shunt_one(y, Tok::Func(f));
            lemma_close_call(out + post(*x), ops, f);
            assert((out + post(*x)).push(Tok::Func(f)) =~= out + post(e));
            assert(ops + waiting(e, min) =~= ops);
        },
        Expr::Pow(x, z) => {
            let f = MathFunc::Pow;
            let named = ops.push(Tok::Func(f));
            let inner = named.push(Tok::LParen);
            let body = written(*x, 5) + written(*z, 1);
            lemma_shunt_written(out, inner, *x, 5);
            assert(waiting(*x, 5) =~= Seq::empty());
            assert(emitted(*x, 5) == post(*x));
            assert(inner + waiting(*x, 5) =~= inner);
            lemma_shunt_concat(Some(Yard { out, ops: inner }), written(*x, 5), written(*z, 1));
            lemma_shunt_written(out + post(*x), inner, *z, 1);
            let tail = seq![Tok::LParen] + body + seq![Tok::RParen];
            assert(written(e, min) =~= seq![Tok::Func(f)] + tail);
            lemma_shunt_concat(Some(y), seq![Tok::Func(f)], tail);
            lemma_shunt_one(y, Tok::Func(f));
            lemma_shunt_pair(out, named, *x, *z);
            lemma_close_call(out + post(*x) + post(*z), ops, f);
            assert((out + post(*x) + post(*z)).push(Tok::Func(f)) =~= out + post(e));
            assert(ops + waiting(e, min) =~= ops);
        },
    }
}

/// The `)` of a function call.
proof fn lemma_close_call(out: Seq<Tok>, ops: Seq<Tok>, f: MathFunc)
    ensures
        close(Yard { out, ops: ops.push(Tok::Func(f)).push(Tok::LParen) }) == Some(
            Yard { out: out.push(Tok::Func(f)), ops },
        ),
{
    let named = ops.push(Tok::Func(f));
    let y = Yard { out, ops: named.push(Tok::LParen) };
    assert(pop_to_paren(y) == y);
    assert(y.ops.drop_last() =~= named);
    assert(named.drop_last() =~= ops);
}

/// Two arguments in parentheses.
proof fn lemma_shunt_pair(out: Seq<Tok>, named: Seq<Tok>, x: Expr, z: Expr)
    requires
        shunt_all(
            Some(Yard { out, ops: named.push(Tok::LParen) }),
            written(x, 5) + written(z, 1),
        ) == Some(
            Yard {
                out: out + post(x) + emitted(z, 1),
                ops: named.push(Tok::LParen) + waiting(z, 1),
            },
        ),
    ensures
        shunt_all(
            Some(Yard { out, ops: named }),
            seq![Tok::LParen] + (written(x, 5) + written(z, 1)) + seq![Tok::RParen],
        ) == close(Yard { out: out + post(x) + post(z), ops: named.push(Tok::LParen) }),
{
    let body = written(x, 5) + written(z, 1);
    let y = Yard { out, ops: named };
    let inner = named.push(Tok::LParen);
    let w = waiting(z, 1);
    lemma_shunt_concat(Some(y), seq![Tok::LParen] + body, seq![Tok::RParen]);
    lemma_shunt_concat(Some(y), seq![Tok::LParen], body);
    lemma_shunt_one(y, Tok::LParen);
    let inside = Yard { out: out + post(x) + emitted(z, 1), ops: inner + w };
    lemma_shunt_one(inside, Tok::RParen);
    lemma_waiting(z, 1);
    lemma_pop_to_paren(out + post(x) + emitted(z, 1), inner, w);
    assert(out + post(x) + emitted(z, 1) + w.reverse() =~= out + post(x) + post(z));
    let there = Yard { out: out + post(x) + post(z), ops: inner };
    assert(pop_to_paren(there) == there);
    assert(pop_to_paren(inside) == there);
}

/// An operator with its operands, without parentheses.
proof fn lemma_shunt_binary(out: Seq<Tok>, ops: Seq<Tok>, e: Expr)
    requires
        e is Binary,
        rests(ops, op_level(e->Binary_0) as int),
    ensures
        ({
            let op = e->Binary_0;
            let l = *e->Binary_1;
            let r = *e->Binary_2;
            shunt_all(
                Some(Yard { out, ops }),
                written(l, left_level(op)) + seq![Tok::Op(op)] + written(r, right_level(op)),
            ) == Some(
                Yard {
                    out: out + (post(l) + emitted(r, right_level(op))),
                    ops: ops + (seq![Tok::Op(op)] + waiting(r, right_level(op))),
                },
            )
        }),
    decreases e, 0nat,
{
    let op = e->Binary_0;
    let l = *e->Binary_1;
    let r = *e->Binary_2;
    let y = Yard { out, ops };
    let w = waiting(l, left_level(op));
    let left = written(l, left_level(op));
    let right = written(r, right_level(op));
    lemma_shunt_concat(Some(y), left + seq![Tok::Op(op)], right);
    lemma_shunt_concat(Some(y), left, seq![Tok::Op(op)]);
    lemma_shunt_written(out, ops, l, left_level(op));
    lemma_waiting(l, left_level(op));
    let behind = Yard { out: out + emitted(l, left_level(op)), ops: ops + w };
    lemma_shunt_one(behind, Tok::Op(op));
    assert(ops.len() == 0 || stays(ops.last(), op));
    assert forall|k: int| 0 <= k < w.len() implies !stays(#[trigger] w[k], op) by {
        assert(level(w[k]) >= left_level(op));
    }
    lemma_pop_waiting(out + emitted(l, left_level(op)), ops, w, op);
    assert(out + emitted(l, left_level(op)) + w.reverse() =~= out + post(l));
    let held = ops.push(Tok::Op(op));
    assert(rests(held, right_level(op)));
    lemma_shunt_written(out + post(l), held, r, right_level(op));
    assert(held + waiting(r, right_level(op)) =~= ops + (seq![Tok::Op(op)] + waiting(
        r,
        right_level(op),
    )));
    assert(out + post(l) + emitted(r, right_level(op)) =~= out + (post(l) + emitted(
        r,
        right_level(op),
    )));
}

proof fn lemma_evaluate_post(
    e: Expr,
    rest: Seq<Tok>,
    stack: Seq<u64>,
    arith: spec_fn(Request) -> u64,
)
    requires
        is_tree(e),
    ensures
        evaluate(post(e) + rest, stack, arith) == (match tree_value(e, arith) {
            Ok(v) => evaluate(rest, stack.push(v), arith),
            Err(m) => Err(m),
        }),
    decreases e,
{
    match e {
        Expr::Num(n) => {
            assert((post(e) + rest).drop_first() =~= rest);
            assert((post(e) + rest)[0] == Tok::Num(n));
        },
        Expr::Binary(op, l, r) => {
            let last = seq![Tok::Op(op)] + rest;
            assert(post(e) + rest =~= post(*l) + (post(*r) + last));
            lemma_evaluate_post(*l, post(*r) + last, stack, arith);
            if let Ok(a) = tree_value(*l, arith) {
                lemma_evaluate_post(*r, last, stack.push(a), arith);
                if let Ok(b) = tree_value(*r, arith) {
                    let s = stack.push(a).push(b);
                    assert(last.drop_first() =~= rest);
                    assert(s.drop_last() =~= stack.push(a));
                    assert(s.drop_last().drop_last() =~= stack);
                }
            }
        },
        Expr::Call(f, x) => {
            let last = seq![Tok::Func(f)] + rest;
            assert(post(e) + rest =~= post(*x) + last);
            lemma_evaluate_post(*x, last, stack, arith);
            if let Ok(a) = tree_value(*x, arith) {
                assert(last.drop_first() =~= rest);
                assert(stack.push(a).drop_last() =~= stack);
            }
        },
        Expr::Pow(x, z) => {
            let last = seq![Tok::Func(MathFunc::Pow)] + rest;
            assert(post(e) + rest =~= post(*x) + (post(*z) + last));
            lemma_evaluate_post(*x, post(*z) + last, stack, arith);
            if let Ok(a) = tree_value(*x, arith) {
                lemma_evaluate_post(*z, last, stack.push(a), arith);
                if let Ok(b) = tree_value(*z, arith) {
                    let s = stack.push(a).push(b);
                    assert(last.drop_first() =~= rest);
                    assert(s.drop_last() =~= stack.push(a));
                    assert(s.drop_last().drop_last() =~= stack);
                }
            }
        },
    }
}

/// A tree that is written down with as few parentheses as precedence and
/// associativity allow is read back as that tree: its tokens have a postfix
/// order, and the value of that is the tree's own.
pub proof fn law_precedence_is_respected(e: Expr, arith: spec_fn(Request) -> u64)
    requires
        is_tree(e),
    ensures
        postfix(written(e, 1)) == Some(post(e)),
        evaluate(post(e), Seq::empty(), arith) == tree_value(e, arith),
{
    let none = Seq::<Tok>::empty();
    lemma_shunt_written(none, none, e, 1);
    lemma_waiting(e, 1);
    assert(none + waiting(e, 1) =~= waiting(e, 1));
    assert(none + emitted(e, 1) =~= emitted(e, 1));
    lemma_drain(emitted(e, 1), waiting(e, 1));
    lemma_evaluate_post(e, none, Seq::empty(), arith);
    assert(post(e) + none =~= post(e));
    if let Ok(v) = tree_value(e, arith) {
        assert(Seq::<u64>::empty().push(v).len() == 1);
    }
}

/// What a token adds to the parentheses that are open.
pub open spec fn opens(tok: Tok) -> int {
    match tok {
        Tok::LParen => 1,
        Tok::RParen => -1,
        _ => 0,
    }
}

/// How many more parentheses tokens open than they close.
pub open spec fn left_open(toks: Seq<Tok>) -> int
    decreases toks.len(),
{
    if toks.len() == 0 {
        0
    } else {
        opens(toks[0]) + left_open(toks.drop_first())
    }
}

/// How many opening parentheses wait on a stack.
spec fn unclosed(ops: Seq<Tok>) -> nat
    decreases ops.len(),
{
    if ops.len() == 0 {
        0
    } else if ops.last() is LParen {
        unclosed(ops.drop_last()) + 1
    } else {
        unclosed(ops.drop_last())
    }
}

proof fn lemma_pop_for_keeps(y: Yard, op: Op)
    ensures
        unclosed(pop_for(y, op).ops) == unclosed(y.ops),
    decreases y.ops.len(),
{
    if y.ops.len() > 0 && !stays(y.ops.last(), op) {
        lemma_pop_for_keeps(y.popped(), op);
    }
}

proof fn lemma_pop_to_paren_keeps(y: Yard)
    ensures
        unclosed(pop_to_paren(y).ops) == unclosed(y.ops),
        pop_to_paren(y).ops.len() == 0 <==> unclosed(y.ops) == 0,
        pop_to_paren(y).ops.len() > 0 ==> pop_to_paren(y).ops.last() is LParen,
    decreases y.ops.len(),
{
    if y.ops.len() > 0 && !(y.ops.last() is LParen) {
        lemma_pop_to_paren_keeps(y.popped());
    }
}

proof fn lemma_shunt_counts(y: Yard, tok: Tok)
    ensures
        shunt_step(y, tok) is Some <==> unclosed(y.ops) + opens(tok) >= 0,
        shunt_step(y, tok) matches Some(z) ==> unclosed(z.ops) == unclosed(y.ops) + opens(tok),
{
    match tok {
        Tok::Op(op) => {
            lemma_pop_for_keeps(y, op);
            let p = pop_for(y, op);
            assert(p.ops.push(tok).drop_last() =~= p.ops);
        },
        Tok::RParen => {
            lemma_pop_to_paren_keeps(y);
            let p = pop_to_paren(y);
            if p.ops.len() > 0 {
                let q = p.ops.drop_last();
                assert(unclosed(p.ops) == unclosed(q) + 1);
                if q.len() > 0 && q.last() is Func {
                    assert(unclosed(q) == unclosed(q.drop_last()));
                }
            }
        },
        Tok::Num(_) => {},
        _ => {
            assert(y.ops.push(tok).drop_last() =~= y.ops);
        },
    }
}

#[verifier::rlimit(40)]
proof fn lemma_shunt_all_counts(y: Yard, toks: Seq<Tok>)
    ensures
        shunt_all(Some(y), toks) is Some <==> forall|k: int|
            0 <= k <= toks.len() ==> unclosed(y.ops) + left_open(#[trigger] toks.take(k)) >= 0,
        shunt_all(Some(y), toks) matches Some(z) ==> unclosed(z.ops) == unclosed(y.ops) + left_open(
            toks,
        ),
    decreases toks.len(),
{
    if toks.len() == 0 {
        assert forall|k: int| 0 <= k <= toks.len() implies unclosed(y.ops) + left_open(
            #[trigger] toks.take(k),
        ) >= 0 by {
            assert(left_open(toks.take(k)) == 0);
        }
    } else {
        lemma_shunt_counts(y, toks[0]);
        let rest = toks.drop_first();
        assert(toks.take(0).len() == 0);
        assert(left_open(toks.take(0)) == 0);
        let first = toks.take(1);
        assert(first.drop_first() =~= Seq::empty());
        assert(left_open(first.drop_first()) == 0);
        assert(left_open(first) == opens(toks[0]));
        assert forall|k: int| 1 <= k <= toks.len() implies left_open(#[trigger] toks.take(k))
            == opens(toks[0]) + left_open(rest.take(k - 1)) by {
            assert(toks.take(k)[0] == toks[0]);
            assert(toks.take(k).drop_first() =~= rest.take(k - 1));
        }
        match shunt_step(y, toks[0]) {
            Some(z) => {
                lemma_shunt_all_counts(z, rest);
                if shunt_all(Some(y), toks) is Some {
                    assert forall|k: int| 0 <= k <= toks.len() implies unclosed(y.ops) + left_open(
                        #[trigger] toks.take(k),
                    ) >= 0 by {
                        if k > 0 {
                            assert(unclosed(z.ops) + left_open(rest.take(k - 1)) >= 0);
                        }
                    }
                } else {
                    let j = choose|j: int|
                        0 <= j <= rest.len() && unclosed(z.ops) + left_open(
                            #[trigger] rest.take(j),
                        ) < 0;
                    assert(left_open(toks.take(j + 1)) == opens(toks[0]) + left_open(
                        rest.take(j + 1 - 1),
                    ));
                    assert(unclosed(y.ops) + left_open(toks.take(j + 1)) < 0);
                }
            },
            None => {
                assert(unclosed(y.ops) + left_open(toks.take(1)) < 0);
                assert(shunt_all(None, rest) is None) by {
                    reveal_with_fuel(shunt_all, 2);
                }
            },
        }
    }
}

proof fn lemma_drain_counts(y: Yard)
    ensures
        drain(y) is Some <==> unclosed(y.ops) == 0,
    decreases y.ops.len(),
{
    if y.ops.len() > 0 && !(y.ops.last() is LParen) {
        lemma_drain_counts(y.popped());
    }
}

/// An expression is refused for its parentheses exactly where they do not
/// match: one is closed that none opened, or one stays open.
pub proof fn law_parentheses_have_to_match(toks: Seq<Tok>)
    ensures
        postfix(toks) is Some <==> left_open(toks) == 0 && forall|k: int|
            0 <= k <= toks.len() ==> left_open(#[trigger] toks.take(k)) >= 0,
{
    let none = Yard { out: Seq::empty(), ops: Seq::empty() };
    assert(unclosed(none.ops) == 0);
    lemma_shunt_all_counts(none, toks);
    assert forall|k: int| 0 <= k <= toks.len() implies (unclosed(none.ops) + left_open(
        #[trigger] toks.take(k),
    ) >= 0 <==> left_open(toks.take(k)) >= 0) by {}
    if let Some(y) = shunt_all(Some(none), toks) {
        lemma_drain_counts(y);
    }
}

proof fn lemma_trim_end_char(s: Seq<char>, c: char)
    ensures
        trim_end_char(s, c).len() <= s.len(),
        trim_end_char(s, c) == s.take(trim_end_char(s, c).len() as int),
        trim_end_char(s, c).len() > 0 ==> trim_end_char(s, c).last() != c,
        forall|i: int| trim_end_char(s, c).len() <= i < s.len() ==> #[trigger] s[i] == c,
    decreases s.len(),
{
    if s.len() > 0 && s.last() == c {
        let r = s.drop_last();
        lemma_trim_end_char(r, c);
        assert(trim_end_char(s, c) =~= s.take(trim_end_char(s, c).len() as int));
        assert forall|i: int| trim_end_char(s, c).len() <= i < s.len() implies #[trigger] s[i]
            == c by {
            if i < s.len() - 1 {
                assert(r[i] == s[i]);
            }
        }
    } else {
        assert(s =~= s.take(s.len() as int));
    }
}

/// A result with decimals is written with those that count: only zeros at the
/// end are left out, and the point with them where nothing but zeros stands
/// behind it, so that zeros of the whole part stay. The result is how many
/// decimals are kept.
#[verifier::rlimit(40)]
pub proof fn law_decimals_keep_their_value(whole: Seq<char>, decimals: Seq<char>) -> (k: int)
    requires
        whole.len() > 0,
        !whole.contains('.'),
        !decimals.contains('.'),
    ensures
        0 <= k <= decimals.len(),
        trim_end_char(trim_end_char(whole + seq!['.'] + decimals, '0'), '.') == (if k == 0 {
            whole
        } else {
            whole + seq!['.'] + decimals.take(k)
        }),
        k > 0 ==> decimals[k - 1] != '0',
        forall|i: int| k <= i < decimals.len() ==> #[trigger] decimals[i] == '0',
{
    let fixed = whole + seq!['.'] + decimals;
    let n = whole.len() as int;
    let once = trim_end_char(fixed, '0');
    lemma_trim_end_char(fixed, '0');
    let m = once.len() as int;
    assert(fixed[n] == '.');
    assert(m > n) by {
        if m <= n {
            assert(fixed[n] == '0');
        }
    }
    let k = m - n - 1;
    assert forall|i: int| k <= i < decimals.len() implies #[trigger] decimals[i] == '0' by {
        assert(fixed[n + 1 + i] == decimals[i]);
    }
    lemma_trim_end_char(once, '.');
    let twice = trim_end_char(once, '.');
    if k == 0 {
        assert(once =~= whole + seq!['.']);
        assert(whole.last() != '.') by {
            assert(whole[n - 1] != '.');
        }
        assert(twice.len() == n) by {
            if twice.len() > n {
                assert(twice.last() == once[n]);
            }
            if twice.len() < n {
                assert(once[n - 1] == '.');
                assert(once[n - 1] == whole[n - 1]);
            }
        }
        assert(twice =~= whole);
    } else {
        assert(once.last() == fixed[m - 1]);
        assert(fixed[m - 1] == decimals[k - 1]);
        assert(decimals[k - 1] != '.');
        assert(twice.len() == m) by {
            if twice.len() < m {
                assert(once[m - 1] == '.');
            }
        }
        assert(twice =~= whole + seq!['.'] + decimals.take(k));
    }
    k
}

/// An operator takes the last two values, the earlier one on its left, and a
/// division by either zero is refused. An evaluation has a value exactly where
/// one is left at the end.
pub proof fn law_operators_take_the_last_values(op: Op, below: Seq<u64>, a: u64, b: u64)
    ensures
        op is Divide && (b == 0 || b == 0x8000_0000_0000_0000u64) ==> next_of(
            Tok::Op(op),
            below.push(a).push(b),
        ) is Fail,
        !(op is Divide && (b == 0 || b == 0x8000_0000_0000_0000u64)) ==> next_of(
            Tok::Op(op),
            below.push(a).push(b),
        ) == Next::Ask(Request::Binary { op, a, b }, below),
        next_of(Tok::Op(op), seq![a]) is Fail,
        result_of(seq![a]) == Ok::<u64, Seq<char>>(a),
        result_of(below.push(a).push(b)) is Err,
        result_of(Seq::empty()) is Err,
{
    let stack = below.push(a).push(b);
    assert(stack.drop_last() =~= below.push(a));
    assert(stack.drop_last().drop_last() =~= below);
}

} // verus!
