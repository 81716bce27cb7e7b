//! Formulas: expressions as trees, how they are written down, and that the
//! calculator makes of the text what the tree says.

use vstd::prelude::*;

use crate::text::matches_at;
use crate::tools::calculator::{
    evaluate, is_letter, is_number, is_number_char, is_tree, law_precedence_is_respected, lex,
    name_end, named, number_end, points, postfix, symbol, tree_value, unary_here, written,
    Expr, MathFunc, Number, Op, Request, Tok,
};

verus! {

// ---------------------------------------------------------------------------
// Formulas
// ---------------------------------------------------------------------------

/// An expression.
pub enum Formula {
    /// A number: the digits in front of the point, and those behind it where
    /// there is one, with or without a minus sign.
    Number { negative: bool, whole: Seq<char>, frac: Option<Seq<char>> },
    /// The constant `pi`.
    Pi,
    /// The constant `e`.
    E,
    /// What zero is without the formula.
    Opposite(Box<Formula>),
    /// An operator between two formulas.
    Binary(Op, Box<Formula>, Box<Formula>),
    /// A function of one argument.
    Call(MathFunc, Box<Formula>),
    /// `pow` of two arguments.
    Pow(Box<Formula>, Box<Formula>),
}

/// The sign of an operator.
pub open spec fn sign_of(op: Op) -> char {
    match op {
        Op::Plus => '+',
        Op::Minus => '-',
        Op::Times => '*',
        Op::Divide => '/',
        Op::Remainder => '%',
        Op::Power => '^',
    }
}

/// The name of a function.
pub open spec fn name_of(f: MathFunc) -> Seq<char> {
    match f {
        MathFunc::Sqrt => "sqrt"@,
        MathFunc::Abs => "abs"@,
        MathFunc::Sin => "sin"@,
        MathFunc::Cos => "cos"@,
        MathFunc::Tan => "tan"@,
        MathFunc::Ln => "ln"@,
        MathFunc::Log => "log"@,
        MathFunc::Floor => "floor"@,
        MathFunc::Ceil => "ceil"@,
        MathFunc::Round => "round"@,
        MathFunc::Pow => "pow"@,
    }
}

/// How tightly an operator binds: a sum less than a product, and that less than
/// a power.
pub open spec fn rank(op: Op) -> int {
    match op {
        Op::Plus | Op::Minus => 2,
        Op::Times | Op::Divide | Op::Remainder => 3,
        Op::Power => 4,
    }
}

/// How tightly what stands on the left of an operator has to bind: a power
/// associates to the right, the others to the left.
pub open spec fn rank_on_left(op: Op) -> int {
    match op {
        Op::Power => 5,
        _ => rank(op),
    }
}

/// The same for what stands on its right.
pub open spec fn rank_on_right(op: Op) -> int {
    match op {
        Op::Power => 4,
        _ => rank(op) + 1,
    }
}

/// Whether a formula has to stand in parentheses where something of `rank` is
/// expected.
pub open spec fn is_loose(e: Formula, min: int) -> bool {
    match e {
        Formula::Binary(op, _, _) => rank(op) < min,
        Formula::Opposite(_) => 2 < min,
        _ => false,
    }
}

/// The digits of a number.
pub open spec fn digits_of(whole: Seq<char>, frac: Option<Seq<char>>) -> Seq<char> {
    match frac {
        Some(f) => whole + seq!['.'] + f,
        None => whole,
    }
}

/// A formula as it is written down, with as few parentheses as precedence and
/// associativity allow, and with `gap` round every operator and behind a comma.
/// The first argument of `pow` has parentheses unless it is a number or a call.
pub open spec fn shown(e: Formula, min: int, gap: Seq<char>) -> Seq<char>
    decreases e, 1nat,
{
    if is_loose(e, min) {
        seq!['('] + bare(e, gap) + seq![')']
    } else {
        bare(e, gap)
    }
}

/// The same without parentheses round the whole.
pub open spec fn bare(e: Formula, gap: Seq<char>) -> Seq<char>
    decreases e, 0nat,
{
    match e {
        Formula::Number { negative, whole, frac } => if negative {
            seq!['-'] + digits_of(whole, frac)
        } else {
            digits_of(whole, frac)
        },
        Formula::Pi => seq!['p', 'i'],
        Formula::E => seq!['e'],
        Formula::Opposite(x) => seq!['-'] + shown(*x, 3, gap),
        Formula::Binary(op, l, r) => shown(*l, rank_on_left(op), gap) + gap + seq![sign_of(op)]
            + gap + shown(*r, rank_on_right(op), gap),
        Formula::Call(f, x) => name_of(f) + seq!['('] + shown(*x, 1, gap) + seq![')'],
        Formula::Pow(x, y) => seq!['p', 'o', 'w', '('] + shown(*x, 5, gap) + seq![','] + gap
            + shown(*y, 1, gap) + seq![')'],
    }
}

/// Whether all characters are decimal digits.
pub open spec fn only_digits(s: Seq<char>) -> bool {
    forall|i: int| 0 <= i < s.len() ==> '0' <= #[trigger] s[i] <= '9'
}

/// Whether the numbers of a formula are digits, its functions of one argument
/// are such, what it takes the opposite of does not begin with a digit or a
/// point (a minus sign in front of those is part of the number), and no second
/// argument of `pow` begins with a sign (which would stand behind an operand).
pub open spec fn is_formula(e: Formula, gap: Seq<char>) -> bool
    decreases e,
{
    match e {
        Formula::Number { negative, whole, frac } => {
            &&& only_digits(whole)
            &&& frac matches Some(f) ==> only_digits(f) && whole.len() + f.len() > 0
            &&& frac is None ==> whole.len() > 0
        },
        Formula::Pi => true,
        Formula::E => true,
        Formula::Opposite(x) => {
            let first = shown(*x, 3, gap)[0];
            is_formula(*x, gap) && first != '.' && !('0' <= first <= '9')
        },
        Formula::Binary(_, l, r) => is_formula(*l, gap) && is_formula(*r, gap),
        Formula::Call(f, x) => !(f is Pow) && is_formula(*x, gap),
        Formula::Pow(x, y) => is_formula(*x, gap) && is_formula(*y, gap) && shown(*y, 1, gap)[0]
            != '-',
    }
}

/// Whether a text is blank.
pub open spec fn is_blank(gap: Seq<char>) -> bool {
    forall|i: int|
        0 <= i < gap.len() ==> {
            let c = #[trigger] gap[i];
            c == ' ' || c == '\t' || c == '\n' || c == '\r'
        }
}

/// The value of a formula: operands from left to right, then the operator.
/// `read` is the value of a number, by its digits and whether it is negated,
/// and `arith` what the float arithmetic gives.
pub open spec fn formula_value(
    e: Formula,
    read: spec_fn(Seq<char>, bool) -> u64,
    arith: spec_fn(Request) -> u64,
) -> Result<u64, Seq<char>>
    decreases e,
{
    match e {
        Formula::Number { negative, whole, frac } => Ok(read(digits_of(whole, frac), negative)),
        Formula::Pi => Ok(0x4009_21fb_5444_2d18),
        Formula::E => Ok(0x4005_bf0a_8b14_5769),
        Formula::Opposite(x) => match formula_value(*x, read, arith) {
            Ok(b) => Ok(arith(Request::Binary { op: Op::Minus, a: 0, b })),
            Err(m) => Err(m),
        },
        Formula::Binary(op, l, r) => match formula_value(*l, read, arith) {
            Ok(a) => match formula_value(*r, read, arith) {
                Ok(b) => if op is Divide && (b == 0 || b == 0x8000_0000_0000_0000) {
                    Err("calculator: "@ + "division by zero"@)
                } else {
                    Ok(arith(Request::Binary { op, a, b }))
                },
                Err(m) => Err(m),
            },
            Err(m) => Err(m),
        },
        Formula::Call(func, x) => match formula_value(*x, read, arith) {
            Ok(a) => Ok(arith(Request::Unary { func, a })),
            Err(m) => Err(m),
        },
        Formula::Pow(x, y) => match formula_value(*x, read, arith) {
            Ok(a) => match formula_value(*y, read, arith) {
                Ok(b) => Ok(arith(Request::Binary { op: Op::Power, a, b })),
                Err(m) => Err(m),
            },
            Err(m) => Err(m),
        },
    }
}

// ---------------------------------------------------------------------------
// Tokens
// ---------------------------------------------------------------------------

/// A formula whose numbers are known by their place in a text that it begins
/// at `at` of, where something of `rank` is expected.
spec fn placed(e: Formula, at: int, min: int, gap: Seq<char>) -> Expr
    decreases e, 1nat,
{
    if is_loose(e, min) {
        placed_bare(e, at + 1, gap)
    } else {
        placed_bare(e, at, gap)
    }
}

spec fn placed_bare(e: Formula, at: int, gap: Seq<char>) -> Expr
    decreases e, 0nat,
{
    match e {
        Formula::Number { negative, whole, frac } => {
            let from = if negative {
                at + 1
            } else {
                at
            };
            Expr::Num(
                Number::Literal {
                    from: from as usize,
                    to: (from + digits_of(whole, frac).len()) as usize,
                    negative,
                },
            )
        },
        Formula::Pi => Expr::Num(Number::Pi),
        Formula::E => Expr::Num(Number::E),
        Formula::Opposite(x) => Expr::Binary(
            Op::Minus,
            Box::new(Expr::Num(Number::Zero)),
            Box::new(placed(*x, at + 1, 3, gap)),
        ),
        Formula::Binary(op, l, r) => Expr::Binary(
            op,
            Box::new(placed(*l, at, rank_on_left(op), gap)),
            Box::new(
                placed(
                    *r,
                    at + shown(*l, rank_on_left(op), gap).len() + gap.len() + 1 + gap.len(),
                    rank_on_right(op),
                    gap,
                ),
            ),
        ),
        Formula::Call(f, x) => Expr::Call(
            f,
            Box::new(placed(*x, at + name_of(f).len() + 1, 1, gap)),
        ),
        Formula::Pow(x, y) => Expr::Pow(
            Box::new(placed(*x, at + 4, 5, gap)),
            Box::new(placed(*y, at + 4 + shown(*x, 5, gap).len() + 1 + gap.len(), 1, gap)),
        ),
    }
}

/// Whether no number or name goes on at `i`.
spec fn stops_at(s: Seq<char>, i: int) -> bool {
    i == s.len() || (!is_number_char(s[i]) && !is_letter(s[i]))
}

/// Whether a list of tokens ends in an operand.
spec fn ends_in_operand(toks: Seq<Tok>) -> bool {
    toks.len() > 0 && (toks.last() is Num || toks.last() is RParen)
}

proof fn lemma_match_both(s: Seq<char>, a: Seq<char>, b: Seq<char>, at: int)
    requires
        matches_at(s, a + b, at),
    ensures
        matches_at(s, a, at),
        matches_at(s, b, (at + a.len()) as int),
{
    let part = s.subrange(at, at + (a + b).len());
    assert(s.subrange(at, at + a.len()) =~= a) by {
        assert forall|i: int| 0 <= i < a.len() implies s[at + i] == a[i] by {
            assert(part[i] == (a + b)[i]);
        }
    }
    assert(s.subrange(at + a.len(), at + a.len() + b.len()) =~= b) by {
        assert forall|i: int| 0 <= i < b.len() implies s[at + a.len() + i] == b[i] by {
            assert(part[a.len() + i] == (a + b)[a.len() + i]);
        }
    }
}

proof fn lemma_match_one(s: Seq<char>, c: char, at: int)
    requires
        matches_at(s, seq![c], at),
    ensures
        0 <= at < s.len(),
        s[at] == c,
{
    assert(s.subrange(at, at + 1)[0] == seq![c][0]);
}

proof fn lemma_number_run(s: Seq<char>, i: int, end: int)
    requires
        0 <= i <= end <= s.len(),
        forall|k: int| i <= k < end ==> is_number_char(#[trigger] s[k]),
        end == s.len() || !is_number_char(s[end]),
    ensures
        number_end(s, i) == end,
    decreases end - i,
{
    if i < end {
        assert(is_number_char(s[i]));
        lemma_number_run(s, i + 1, end);
    }
}

proof fn lemma_name_run(s: Seq<char>, i: int, end: int)
    requires
        0 <= i <= end <= s.len(),
        forall|k: int| i <= k < end ==> is_letter(#[trigger] s[k]),
        end == s.len() || !is_letter(s[end]),
    ensures
        name_end(s, i) == end,
    decreases end - i,
{
    if i < end {
        assert(is_letter(s[i]));
        lemma_name_run(s, i + 1, end);
    }
}

proof fn lemma_points_of_digits(s: Seq<char>)
    requires
        only_digits(s),
    ensures
        points(s) == 0,
    decreases s.len(),
{
    if s.len() > 0 {
        assert('0' <= s[s.len() - 1] <= '9');
        assert(only_digits(s.drop_last())) by {
            assert forall|i: int| 0 <= i < s.drop_last().len() implies '0'
                <= #[trigger] s.drop_last()[i] <= '9' by {
                assert(s.drop_last()[i] == s[i]);
            }
        }
        lemma_points_of_digits(s.drop_last());
    }
}

proof fn lemma_points_add(a: Seq<char>, b: Seq<char>)
    ensures
        points(a + b) == points(a) + points(b),
    decreases b.len(),
{
    if b.len() == 0 {
        assert(a + b =~= a);
    } else {
        assert((a + b).drop_last() =~= a + b.drop_last());
        lemma_points_add(a, b.drop_last());
    }
}

/// The digits of a number are read as one.
proof fn lemma_digits_are_a_number(whole: Seq<char>, frac: Option<Seq<char>>)
    requires
        only_digits(whole),
        frac matches Some(f) ==> only_digits(f) && whole.len() + f.len() > 0,
        frac is None ==> whole.len() > 0,
    ensures
        is_number(digits_of(whole, frac)),
        digits_of(whole, frac).len() > 0,
        forall|i: int|
            0 <= i < digits_of(whole, frac).len() ==> is_number_char(
                #[trigger] digits_of(whole, frac)[i],
            ) && digits_of(whole, frac)[i] != '-',
{
    let d = digits_of(whole, frac);
    lemma_points_of_digits(whole);
    match frac {
        Some(f) => {
            lemma_points_of_digits(f);
            lemma_points_add(whole + seq!['.'], f);
            lemma_points_add(whole, seq!['.']);
            assert(seq!['.'].drop_last() =~= Seq::<char>::empty());
            assert(points(Seq::<char>::empty()) == 0);
            assert(points(seq!['.']) == 1);
            assert forall|i: int| 0 <= i < d.len() implies is_number_char(#[trigger] d[i]) && d[i]
                != '-' by {
                if i < whole.len() {
                    assert(d[i] == whole[i]);
                } else if i > whole.len() {
                    assert(d[i] == f[i - whole.len() - 1]);
                }
            }
            if whole.len() > 0 {
                assert(d[0] == whole[0]);
                assert(crate::text::is_digit_char(d[0]));
            } else {
                assert(d[1] == f[0]);
                assert(crate::text::is_digit_char(d[1]));
            }
        },
        None => {
            assert(crate::text::is_digit_char(d[0]));
        },
    }
}

proof fn lemma_lower_stays(s: Seq<char>)
    requires
        forall|i: int| 0 <= i < s.len() ==> 'a' <= #[trigger] s[i] <= 'z',
    ensures
        crate::text::ascii_lower(s) == s,
{
    assert(crate::text::ascii_lower(s) =~= s);
}

/// The name of a function, and what it stands for.
proof fn lemma_names(f: MathFunc)
    ensures
        name_of(f).len() > 0,
        forall|i: int| 0 <= i < name_of(f).len() ==> 'a' <= #[trigger] name_of(f)[i] <= 'z',
        named(name_of(f)) == Some(Tok::Func(f)),
        name_of(MathFunc::Pow) == seq!['p', 'o', 'w'],
{
    lemma_name_literals();
    let n = name_of(f);
    assert(n.len() >= 2);
    assert(n[0] == n[0] && n[1] == n[1]);
    assert(name_of(MathFunc::Pow) =~= seq!['p', 'o', 'w']);
    if n.len() > 2 {
        assert(n[2] == n[2]);
    }
}

proof fn lemma_name_literals()
    ensures
        "sqrt"@ == seq!['s', 'q', 'r', 't'],
        "abs"@ == seq!['a', 'b', 's'],
        "sin"@ == seq!['s', 'i', 'n'],
        "cos"@ == seq!['c', 'o', 's'],
        "tan"@ == seq!['t', 'a', 'n'],
        "ln"@ == seq!['l', 'n'],
        "log"@ == seq!['l', 'o', 'g'],
        "floor"@ == seq!['f', 'l', 'o', 'o', 'r'],
        "ceil"@ == seq!['c', 'e', 'i', 'l'],
        "round"@ == seq!['r', 'o', 'u', 'n', 'd'],
        "pow"@ == seq!['p', 'o', 'w'],
        "pi"@ == seq!['p', 'i'],
        "e"@ == seq!['e'],
{
    reveal_strlit("sqrt");
    reveal_strlit("abs");
    reveal_strlit("sin");
    reveal_strlit("cos");
    reveal_strlit("tan");
    reveal_strlit("ln");
    reveal_strlit("log");
    reveal_strlit("floor");
    reveal_strlit("ceil");
    reveal_strlit("round");
    reveal_strlit("pow");
    reveal_strlit("pi");
    reveal_strlit("e");
    assert("sqrt"@ =~= seq!['s', 'q', 'r', 't']);
    assert("abs"@ =~= seq!['a', 'b', 's']);
    assert("sin"@ =~= seq!['s', 'i', 'n']);
    assert("cos"@ =~= seq!['c', 'o', 's']);
    assert("tan"@ =~= seq!['t', 'a', 'n']);
    assert("ln"@ =~= seq!['l', 'n']);
    assert("log"@ =~= seq!['l', 'o', 'g']);
    assert("floor"@ =~= seq!['f', 'l', 'o', 'o', 'r']);
    assert("ceil"@ =~= seq!['c', 'e', 'i', 'l']);
    assert("round"@ =~= seq!['r', 'o', 'u', 'n', 'd']);
    assert("pow"@ =~= seq!['p', 'o', 'w']);
    assert("pi"@ =~= seq!['p', 'i']);
    assert("e"@ =~= seq!['e']);
}

proof fn lemma_constants()
    ensures
        named(seq!['p', 'i']) == Some(Tok::Num(Number::Pi)),
        named(seq!['e']) == Some(Tok::Num(Number::E)),
{
    lemma_name_literals();
    let p = seq!['p', 'i'];
    let e = seq!['e'];
    assert(p.len() == 2 && p[0] == 'p' && e.len() == 1);
}

/// A name is one token.
proof fn lemma_lex_name(s: Seq<char>, at: int, toks: Seq<Tok>, name: Seq<char>, tok: Tok)
    requires
        name.len() > 0,
        forall|i: int| 0 <= i < name.len() ==> 'a' <= #[trigger] name[i] <= 'z',
        named(name) == Some(tok),
        matches_at(s, name, at),
        at + name.len() == s.len() || !is_letter(s[at + name.len()]),
    ensures
        lex(s, at, toks) == lex(s, (at + name.len()) as int, toks.push(tok)),
{
    let end = at + name.len();
    let part = s.subrange(at, end);
    assert forall|k: int| at <= k < end implies is_letter(#[trigger] s[k]) by {
        assert(part[k - at] == name[k - at]);
        assert(s[k] == name[k - at]);
    }
    lemma_name_run(s, at, end);
    lemma_lower_stays(name);
    assert(s[at] == name[0]);
    assert('a' <= s[at] <= 'z');
    assert(symbol(s[at]) is None);
}

proof fn lemma_lex_symbol(s: Seq<char>, at: int, toks: Seq<Tok>, tok: Tok)
    requires
        0 <= at < s.len(),
        symbol(s[at]) == Some(tok),
    ensures
        lex(s, at, toks) == lex(s, at + 1, toks.push(tok)),
{
}

proof fn lemma_lex_gap(s: Seq<char>, at: int, toks: Seq<Tok>, gap: Seq<char>)
    requires
        is_blank(gap),
        matches_at(s, gap, at),
    ensures
        lex(s, at, toks) == lex(s, (at + gap.len()) as int, toks),
    decreases gap.len(),
{
    if gap.len() > 0 {
        let rest = gap.skip(1);
        assert(gap =~= seq![gap[0]] + rest);
        lemma_match_both(s, seq![gap[0]], rest, at);
        lemma_match_one(s, gap[0], at);
        assert forall|i: int| 0 <= i < rest.len() implies {
            let c = #[trigger] rest[i];
            c == ' ' || c == '\t' || c == '\n' || c == '\r'
        } by {
            assert(rest[i] == gap[i + 1]);
        }
        lemma_lex_gap(s, at + 1, toks, rest);
    }
}

/// What stops a number or a name: a gap, or the sign behind it.
proof fn lemma_gap_stops(s: Seq<char>, at: int, gap: Seq<char>, c: char)
    requires
        is_blank(gap),
        matches_at(s, gap, at),
        matches_at(s, seq![c], (at + gap.len()) as int),
        !is_number_char(c),
        !is_letter(c),
    ensures
        stops_at(s, at),
{
    lemma_match_one(s, c, (at + gap.len()) as int);
    if gap.len() > 0 {
        assert(s.subrange(at, at + gap.len())[0] == gap[0]);
    }
}

/// An operator behind an operand.
proof fn lemma_lex_op(s: Seq<char>, at: int, toks: Seq<Tok>, op: Op)
    requires
        matches_at(s, seq![sign_of(op)], at),
        ends_in_operand(toks),
    ensures
        lex(s, at, toks) == lex(s, at + 1, toks.push(Tok::Op(op))),
{
    lemma_match_one(s, sign_of(op), at);
    assert(!unary_here(toks));
}

proof fn lemma_lex_number(
    s: Seq<char>,
    at: int,
    toks: Seq<Tok>,
    negative: bool,
    whole: Seq<char>,
    frac: Option<Seq<char>>,
    gap: Seq<char>,
)
    requires
        ({
            let e = Formula::Number { negative, whole, frac };
            &&& is_formula(e, gap)
            &&& matches_at(s, bare(e, gap), at)
            &&& stops_at(s, at + bare(e, gap).len())
            &&& negative ==> unary_here(toks)
        }),
    ensures
        ({
            let e = Formula::Number { negative, whole, frac };
            &&& lex(s, at, toks) == lex(
                s,
                at + bare(e, gap).len(),
                toks + written(placed_bare(e, at, gap), 0),
            )
        }),
{
    let e = Formula::Number { negative, whole, frac };
    let d = digits_of(whole, frac);
    lemma_digits_are_a_number(whole, frac);
    let from = if negative {
        lemma_match_both(s, seq!['-'], d, at);
        lemma_match_one(s, '-', at);
        at + 1
    } else {
        at
    };
    let end = from + d.len();
    assert(matches_at(s, d, from));
    let part = s.subrange(from, end);
    assert forall|k: int| from <= k < end implies is_number_char(#[trigger] s[k]) by {
        assert(part[k - from] == d[k - from]);
    }
    lemma_number_run(s, from, end);
    assert(s[from] == part[0]);
    let tok = Tok::Num(
        Number::Literal { from: from as usize, to: end as usize, negative },
    );
    assert(toks + seq![tok] =~= toks.push(tok));
}

/// What a formula in the middle of a text adds to the tokens in front of it.
proof fn lemma_lex_shown(
    s: Seq<char>,
    at: int,
    toks: Seq<Tok>,
    e: Formula,
    min: int,
    gap: Seq<char>,
)
    requires
        is_formula(e, gap),
        is_blank(gap),
        matches_at(s, shown(e, min, gap), at),
        stops_at(s, at + shown(e, min, gap).len()),
        unary_here(toks) || shown(e, min, gap)[0] != '-',
        min >= 1,
    ensures
        shown(e, min, gap).len() > 0,
        lex(s, at, toks) == lex(
            s,
            at + shown(e, min, gap).len(),
            toks + written(placed(e, at, min, gap), min),
        ),
        ends_in_operand(written(placed(e, at, min, gap), min)),
    decreases e, 2nat,
{
    let text = bare(e, gap);
    lemma_levels(e, at, min, gap);
    if is_loose(e, min) {
        let body = written(placed_bare(e, at + 1, gap), 0);
        assert(shown(e, min, gap) =~= seq!['('] + (text + seq![')']));
        lemma_match_both(s, seq!['('], text + seq![')'], at);
        lemma_match_one(s, '(', at);
        lemma_match_both(s, text, seq![')'], at + 1);
        let end = at + 1 + text.len();
        lemma_match_one(s, ')', end);
        lemma_lex_symbol(s, at, toks, Tok::LParen);
        let inside = toks.push(Tok::LParen);
        lemma_lex_bare(s, at + 1, inside, e, gap);
        lemma_lex_symbol(s, end, inside + body, Tok::RParen);
        assert((inside + body).push(Tok::RParen) =~= toks + (seq![Tok::LParen] + body + seq![
            Tok::RParen,
        ]));
    } else {
        lemma_lex_bare(s, at, toks, e, gap);
    }
}

/// The tokens of a formula, with parentheses round the whole where it needs
/// them.
proof fn lemma_levels(e: Formula, at: int, min: int, gap: Seq<char>)
    requires
        min >= 1,
    ensures
        written(placed(e, at, min, gap), min) == if is_loose(e, min) {
            seq![Tok::LParen] + written(placed_bare(e, at + 1, gap), 0) + seq![Tok::RParen]
        } else {
            written(placed_bare(e, at, gap), 0)
        },
{
}

proof fn lemma_lex_bare(s: Seq<char>, at: int, toks: Seq<Tok>, e: Formula, gap: Seq<char>)
    requires
        is_formula(e, gap),
        is_blank(gap),
        matches_at(s, bare(e, gap), at),
        stops_at(s, at + bare(e, gap).len()),
        unary_here(toks) || bare(e, gap)[0] != '-',
    ensures
        bare(e, gap).len() > 0,
        lex(s, at, toks) == lex(
            s,
            at + bare(e, gap).len(),
            toks + written(placed_bare(e, at, gap), 0),
        ),
        ends_in_operand(written(placed_bare(e, at, gap), 0)),
    decreases e, 1nat,
{
    match e {
        Formula::Number { negative, whole, frac } => {
            lemma_digits_are_a_number(whole, frac);
            lemma_lex_number(s, at, toks, negative, whole, frac, gap);
        },
        Formula::Pi => {
            lemma_constants();
            let name = seq!['p', 'i'];
            lemma_lex_name(s, at, toks, name, Tok::Num(Number::Pi));
            assert(toks + seq![Tok::Num(Number::Pi)] =~= toks.push(Tok::Num(Number::Pi)));
        },
        Formula::E => {
            lemma_constants();
            let name = seq!['e'];
            lemma_lex_name(s, at, toks, name, Tok::Num(Number::E));
            assert(toks + seq![Tok::Num(Number::E)] =~= toks.push(Tok::Num(Number::E)));
        },
        Formula::Opposite(x) => {
            let inner = shown(*x, 3, gap);
            lemma_match_both(s, seq!['-'], inner, at);
            lemma_match_one(s, '-', at);
            let zero = Tok::Num(Number::Zero);
            let minus = Tok::Op(Op::Minus);
            let more = toks.push(zero).push(minus);
            assert(unary_here(more));
            lemma_shown_some(*x, 3, gap);
            assert(s.subrange(at + 1, at + 1 + inner.len())[0] == inner[0]);
            assert(s[at + 1] == inner[0]);
            assert(number_end(s, at + 1) == at + 1);
            lemma_lex_shown(s, at + 1, more, *x, 3, gap);
            let w = written(placed(*x, at + 1, 3, gap), 3);
            reveal_with_fuel(written, 2);
            assert(written(placed_bare(e, at, gap), 0) =~= seq![zero] + seq![minus] + w);
            assert(more + w =~= toks + (seq![zero] + seq![minus] + w));
        },
        Formula::Binary(op, l, r) => {
            lemma_lex_binary(s, at, toks, op, *l, *r, e, gap);
        },
        Formula::Call(f, x) => {
            let inner = shown(*x, 1, gap);
            let name = name_of(f);
            lemma_names(f);
            let open = at + name.len();
            let end = open + 1 + inner.len();
            lemma_call_parts(s, at, name, inner);
            lemma_match_one(s, '(', open);
            lemma_match_one(s, ')', end);
            lemma_lex_name(s, at, toks, name, Tok::Func(f));
            let called = toks.push(Tok::Func(f));
            lemma_lex_symbol(s, open, called, Tok::LParen);
            let inside = called.push(Tok::LParen);
            lemma_lex_shown(s, open + 1, inside, *x, 1, gap);
            let w = written(placed(*x, open + 1, 1, gap), 1);
            lemma_lex_symbol(s, end, inside + w, Tok::RParen);
            assert((inside + w).push(Tok::RParen) =~= toks + (seq![Tok::Func(f), Tok::LParen] + w
                + seq![Tok::RParen]));
        },
        Formula::Pow(x, y) => {
            lemma_lex_pow(s, at, toks, *x, *y, e, gap);
        },
    }
}

proof fn lemma_shown_some(e: Formula, min: int, gap: Seq<char>)
    requires
        is_formula(e, gap),
    ensures
        shown(e, min, gap).len() > 0,
        bare(e, gap).len() > 0,
    decreases e,
{
    match e {
        Formula::Number { negative, whole, frac } => {
            lemma_digits_are_a_number(whole, frac);
        },
        _ => {},
    }
}

/// Where the parts of an operation stand.
proof fn lemma_binary_parts(
    s: Seq<char>,
    at: int,
    left: Seq<char>,
    gap: Seq<char>,
    c: char,
    right: Seq<char>,
)
    requires
        matches_at(s, left + gap + seq![c] + gap + right, at),
    ensures
        matches_at(s, left, at),
        matches_at(s, gap, at + left.len()),
        matches_at(s, seq![c], at + left.len() + gap.len()),
        matches_at(s, gap, at + left.len() + gap.len() + 1),
        matches_at(s, right, at + left.len() + gap.len() + 1 + gap.len()),
{
    lemma_match_both(s, left + gap + seq![c] + gap, right, at);
    lemma_match_both(s, left + gap + seq![c], gap, at);
    lemma_match_both(s, left + gap, seq![c], at);
    lemma_match_both(s, left, gap, at);
}

/// Where the parts of a call stand.
proof fn lemma_call_parts(s: Seq<char>, at: int, name: Seq<char>, inner: Seq<char>)
    requires
        matches_at(s, name + seq!['('] + inner + seq![')'], at),
    ensures
        matches_at(s, name, at),
        matches_at(s, seq!['('], (at + name.len()) as int),
        matches_at(s, inner, at + name.len() + 1),
        matches_at(s, seq![')'], at + name.len() + 1 + inner.len()),
{
    lemma_match_both(s, name + seq!['('] + inner, seq![')'], at);
    lemma_match_both(s, name + seq!['('], inner, at);
    lemma_match_both(s, name, seq!['('], at);
}

/// Where the parts of a `pow` stand.
proof fn lemma_pow_parts(
    s: Seq<char>,
    at: int,
    first: Seq<char>,
    gap: Seq<char>,
    second: Seq<char>,
)
    requires
        matches_at(
            s,
            seq!['p', 'o', 'w', '('] + first + seq![','] + gap + second + seq![')'],
            at,
        ),
    ensures
        matches_at(s, seq!['p', 'o', 'w'], at),
        matches_at(s, seq!['('], at + 3),
        matches_at(s, first, at + 4),
        matches_at(s, seq![','], at + 4 + first.len()),
        matches_at(s, gap, at + 4 + first.len() + 1),
        matches_at(s, second, at + 4 + first.len() + 1 + gap.len()),
        matches_at(s, seq![')'], at + 4 + first.len() + 1 + gap.len() + second.len()),
{
    let name = seq!['p', 'o', 'w', '('];
    lemma_match_both(s, name + first + seq![','] + gap + second, seq![')'], at);
    lemma_match_both(s, name + first + seq![','] + gap, second, at);
    lemma_match_both(s, name + first + seq![','], gap, at);
    lemma_match_both(s, name + first, seq![','], at);
    lemma_match_both(s, name, first, at);
    assert(name =~= seq!['p', 'o', 'w'] + seq!['(']);
    lemma_match_both(s, seq!['p', 'o', 'w'], seq!['('], at);
}

proof fn lemma_lex_binary(
    s: Seq<char>,
    at: int,
    toks: Seq<Tok>,
    op: Op,
    l: Formula,
    r: Formula,
    e: Formula,
    gap: Seq<char>,
)
    requires
        e == Formula::Binary(op, Box::new(l), Box::new(r)),
        is_formula(e, gap),
        is_blank(gap),
        matches_at(s, bare(e, gap), at),
        stops_at(s, at + bare(e, gap).len()),
        unary_here(toks) || bare(e, gap)[0] != '-',
    ensures
        lex(s, at, toks) == lex(
            s,
            at + bare(e, gap).len(),
            toks + written(placed_bare(e, at, gap), 0),
        ),
        ends_in_operand(written(placed_bare(e, at, gap), 0)),
    decreases e, 0nat,
{
    let left = shown(l, rank_on_left(op), gap);
    let right = shown(r, rank_on_right(op), gap);
    lemma_shown_some(l, rank_on_left(op), gap);
    assert(bare(e, gap)[0] == left[0]);
    let a = at + left.len();
    let b = a + gap.len();
    let c = b + 1;
    let d = c + gap.len();
    lemma_binary_parts(s, at, left, gap, sign_of(op), right);
    lemma_gap_stops(s, a, gap, sign_of(op));
    lemma_lex_shown(s, at, toks, l, rank_on_left(op), gap);
    let wl = written(placed(l, at, rank_on_left(op), gap), rank_on_left(op));
    let first = toks + wl;
    assert(first.last() == wl.last());
    lemma_lex_gap(s, a, first, gap);
    lemma_lex_op(s, b, first, op);
    let more = first.push(Tok::Op(op));
    lemma_lex_gap(s, c, more, gap);
    assert(unary_here(more));
    lemma_lex_shown(s, d, more, r, rank_on_right(op), gap);
    let wr = written(placed(r, d, rank_on_right(op), gap), rank_on_right(op));
    assert(written(placed_bare(e, at, gap), 0) =~= wl + seq![Tok::Op(op)] + wr);
    assert(more + wr =~= toks + (wl + seq![Tok::Op(op)] + wr));
    assert((wl + seq![Tok::Op(op)] + wr).last() == wr.last());
}

proof fn lemma_lex_pow(
    s: Seq<char>,
    at: int,
    toks: Seq<Tok>,
    x: Formula,
    y: Formula,
    e: Formula,
    gap: Seq<char>,
)
    requires
        e == Formula::Pow(Box::new(x), Box::new(y)),
        is_formula(e, gap),
        is_blank(gap),
        matches_at(s, bare(e, gap), at),
        stops_at(s, at + bare(e, gap).len()),
    ensures
        bare(e, gap).len() > 0,
        lex(s, at, toks) == lex(
            s,
            at + bare(e, gap).len(),
            toks + written(placed_bare(e, at, gap), 0),
        ),
        ends_in_operand(written(placed_bare(e, at, gap), 0)),
    decreases e, 0nat,
{
    let f = MathFunc::Pow;
    let name = name_of(f);
    let first = shown(x, 5, gap);
    let second = shown(y, 1, gap);
    lemma_names(f);
    let open = at + 3;
    let comma = open + 1 + first.len();
    let then = comma + 1 + gap.len();
    let end = then + second.len();
    lemma_pow_parts(s, at, first, gap, second);
    lemma_match_one(s, '(', open);
    lemma_match_one(s, ',', comma);
    lemma_match_one(s, ')', end);
    lemma_lex_name(s, at, toks, name, Tok::Func(f));
    let called = toks.push(Tok::Func(f));
    lemma_lex_symbol(s, open, called, Tok::LParen);
    let inside = called.push(Tok::LParen);
    lemma_lex_shown(s, open + 1, inside, x, 5, gap);
    let wx = written(placed(x, open + 1, 5, gap), 5);
    let one = inside + wx;
    assert(lex(s, comma, one) == lex(s, comma + 1, one));
    lemma_lex_gap(s, comma + 1, one, gap);
    lemma_lex_shown(s, then, one, y, 1, gap);
    let wy = written(placed(y, then, 1, gap), 1);
    lemma_lex_symbol(s, end, one + wy, Tok::RParen);
    let all = seq![Tok::Func(f), Tok::LParen] + wx + wy + seq![Tok::RParen];
    assert(written(placed_bare(e, at, gap), 0) =~= all);
    assert((one + wy).push(Tok::RParen) =~= toks + all);
}

// ---------------------------------------------------------------------------
// Values
// ---------------------------------------------------------------------------

/// Whether a number of `s` is read by its digits.
spec fn reads(
    s: Seq<char>,
    read: spec_fn(Seq<char>, bool) -> u64,
    arith: spec_fn(Request) -> u64,
) -> bool {
    forall|from: usize, to: usize, negative: bool|
        from <= to <= s.len() ==> #[trigger] arith(Request::Literal { from, to, negative }) == read(
            s.subrange(from as int, to as int),
            negative,
        )
}

/// A formula's own value is that of the tree that its tokens stand for.
proof fn lemma_value(
    s: Seq<char>,
    at: int,
    e: Formula,
    gap: Seq<char>,
    read: spec_fn(Seq<char>, bool) -> u64,
    arith: spec_fn(Request) -> u64,
)
    requires
        is_formula(e, gap),
        s.len() <= usize::MAX,
        matches_at(s, bare(e, gap), at),
        reads(s, read, arith),
    ensures
        is_tree(placed_bare(e, at, gap)),
        tree_value(placed_bare(e, at, gap), arith) == formula_value(e, read, arith),
    decreases e, 0nat,
{
    match e {
        Formula::Number { negative, whole, frac } => {
            lemma_number_value(s, at, negative, whole, frac, gap, read, arith);
        },
        Formula::Pi => {},
        Formula::E => {},
        Formula::Opposite(x) => {
            lemma_match_both(s, seq!['-'], shown(*x, 3, gap), at);
            lemma_value_shown(s, at + 1, *x, 3, gap, read, arith);
            reveal_with_fuel(tree_value, 2);
            reveal_with_fuel(is_tree, 2);
        },
        Formula::Binary(op, l, r) => {
            let left = shown(*l, rank_on_left(op), gap);
            let right = shown(*r, rank_on_right(op), gap);
            lemma_binary_parts(s, at, left, gap, sign_of(op), right);
            lemma_value_shown(s, at, *l, rank_on_left(op), gap, read, arith);
            lemma_value_shown(
                s,
                at + left.len() + gap.len() + 1 + gap.len(),
                *r,
                rank_on_right(op),
                gap,
                read,
                arith,
            );
        },
        Formula::Call(f, x) => {
            lemma_call_parts(s, at, name_of(f), shown(*x, 1, gap));
            lemma_value_shown(s, at + name_of(f).len() + 1, *x, 1, gap, read, arith);
        },
        Formula::Pow(x, y) => {
            let first = shown(*x, 5, gap);
            lemma_pow_parts(s, at, first, gap, shown(*y, 1, gap));
            lemma_value_shown(s, at + 4, *x, 5, gap, read, arith);
            lemma_value_shown(
                s,
                at + 4 + first.len() + 1 + gap.len(),
                *y,
                1,
                gap,
                read,
                arith,
            );
        },
    }
}

proof fn lemma_number_value(
    s: Seq<char>,
    at: int,
    negative: bool,
    whole: Seq<char>,
    frac: Option<Seq<char>>,
    gap: Seq<char>,
    read: spec_fn(Seq<char>, bool) -> u64,
    arith: spec_fn(Request) -> u64,
)
    requires
        s.len() <= usize::MAX,
        matches_at(s, bare(Formula::Number { negative, whole, frac }, gap), at),
        reads(s, read, arith),
    ensures
        ({
            let tree = placed_bare(Formula::Number { negative, whole, frac }, at, gap);
            &&& is_tree(tree)
            &&& tree_value(tree, arith) == Ok::<u64, Seq<char>>(
                read(digits_of(whole, frac), negative),
            )
        }),
{
    let d = digits_of(whole, frac);
    let from = if negative {
        lemma_match_both(s, seq!['-'], d, at);
        at + 1
    } else {
        at
    };
    let (a, b) = (from as usize, (from + d.len()) as usize);
    assert(a == from && b == from + d.len());
    assert(arith(Request::Literal { from: a, to: b, negative }) == read(d, negative));
}

proof fn lemma_value_shown(
    s: Seq<char>,
    at: int,
    x: Formula,
    min: int,
    gap: Seq<char>,
    read: spec_fn(Seq<char>, bool) -> u64,
    arith: spec_fn(Request) -> u64,
)
    requires
        is_formula(x, gap),
        s.len() <= usize::MAX,
        matches_at(s, shown(x, min, gap), at),
        reads(s, read, arith),
    ensures
        is_tree(placed(x, at, min, gap)),
        tree_value(placed(x, at, min, gap), arith) == formula_value(x, read, arith),
    decreases x, 1nat,
{
    if is_loose(x, min) {
        let text = bare(x, gap);
        assert(shown(x, min, gap) =~= seq!['('] + (text + seq![')']));
        lemma_match_both(s, seq!['('], text + seq![')'], at);
        lemma_match_both(s, text, seq![')'], at + 1);
        lemma_value(s, at + 1, x, gap, read, arith);
    } else {
        lemma_value(s, at, x, gap, read, arith);
    }
}

// ---------------------------------------------------------------------------
// Laws
// ---------------------------------------------------------------------------

/// What a formula says is what its text is worth. A formula that is written
/// down with as few parentheses as precedence and associativity allow, blanks
/// round its operators or none, is read without error; evaluating what was read
/// gives the formula's own value, and its error where a divisor in it is zero.
/// So a minus behind a number or a closing parenthesis subtracts, one in front
/// of an operand negates, and no operator is taken for another.
pub proof fn law_formulas_are_calculated(
    e: Formula,
    gap: Seq<char>,
    read: spec_fn(Seq<char>, bool) -> u64,
    arith: spec_fn(Request) -> u64,
)
    requires
        is_formula(e, gap),
        is_blank(gap),
        shown(e, 1, gap).len() <= usize::MAX,
        forall|from: usize, to: usize, negative: bool|
            from <= to <= shown(e, 1, gap).len() ==> #[trigger] arith(
                Request::Literal { from, to, negative },
            ) == read(shown(e, 1, gap).subrange(from as int, to as int), negative),
    ensures
        lex(shown(e, 1, gap), 0, Seq::empty()) is Ok,
        postfix(lex(shown(e, 1, gap), 0, Seq::empty())->Ok_0) is Some,
        evaluate(
            postfix(lex(shown(e, 1, gap), 0, Seq::empty())->Ok_0)->0,
            Seq::empty(),
            arith,
        ) == formula_value(e, read, arith),
{
    let s = shown(e, 1, gap);
    let none = Seq::<Tok>::empty();
    assert(s.subrange(0, s.len() as int) =~= s);
    assert(unary_here(none));
    lemma_lex_shown(s, 0, none, e, 1, gap);
    let tree = placed(e, 0, 1, gap);
    assert(none + written(tree, 1) =~= written(tree, 1));
    assert(lex(s, 0, none) == Ok::<Seq<Tok>, Seq<char>>(written(tree, 1)));
    assert(!is_loose(e, 1));
    lemma_value(s, 0, e, gap, read, arith);
    law_precedence_is_respected(tree, arith);
}

/// A sign behind an operand is an operator, whatever comes next: one more token
/// is read, and it is that operator.
pub proof fn law_signs_behind_operands_are_operators(s: Seq<char>, i: int, toks: Seq<Tok>)
    requires
        0 <= i < s.len(),
        toks.len() > 0,
        toks.last() is Num || toks.last() is RParen,
    ensures
        s[i] == '-' ==> lex(s, i, toks) == lex(s, i + 1, toks.push(Tok::Op(Op::Minus))),
        s[i] == '+' ==> lex(s, i, toks) == lex(s, i + 1, toks.push(Tok::Op(Op::Plus))),
{
}

} // verus!
