//! Expressions from tokens: a recursive-descent reading of the expression
//! grammar. Precedence, from loosest: comparisons (`==`, `<`, `>`), then
//! `+` `-`, then `*` `/` `%`, then a prefix `*` or `-`, then primaries —
//! literals, handle reads and drops, calls, field reads, names and
//! parenthesised expressions. Operators of one level associate to the left.
use vstd::prelude::*;
use crate::frontend::ast::{AstValue, CallArg, Expr, Op, ParamKind, Program, Stmt, Type};
use crate::frontend::lexer::{ParseError, Tok, Token};

verus! {

/// A parsed expression with its argument lists as sequences.
pub enum ExprV {
    Val(AstValue),
    Ident(String, usize),
    DotAccess(String, String),
    HandleVal(String, usize),
    HandleDrop(String, usize),
    Call(String, Seq<ArgV>, usize),
    Unary(Op, Box<ExprV>, usize),
    Bin(Box<ExprV>, Op, usize, Box<ExprV>),
    Other,
}

pub enum ArgV {
    Expr(ExprV),
    Copy(String),
    CopyFree(String),
    CopyInto(Seq<String>),
}

pub open spec fn expr_v(e: Expr) -> ExprV
    decreases e,
{
    match e {
        Expr::Val(v) => ExprV::Val(v),
        Expr::Ident(n, p) => ExprV::Ident(n, p),
        Expr::DotAccess(c, f) => ExprV::DotAccess(c, f),
        Expr::HandleVal(n, p) => ExprV::HandleVal(n, p),
        Expr::HandleDrop(n, p) => ExprV::HandleDrop(n, p),
        Expr::Call(n, args, p) => ExprV::Call(n, args_v(args@), p),
        Expr::Unary(op, x, p) => ExprV::Unary(op, Box::new(expr_v(*x)), p),
        Expr::Bin(l, op, p, r) => ExprV::Bin(Box::new(expr_v(*l)), op, p, Box::new(expr_v(*r))),
        _ => ExprV::Other,
    }
}

pub open spec fn args_v(s: Seq<CallArg>) -> Seq<ArgV>
    decreases s,
{
    if s.len() == 0 {
        Seq::empty()
    } else {
        args_v(s.drop_last()).push(arg_v(s.last()))
    }
}

pub open spec fn arg_v(a: CallArg) -> ArgV
    decreases a,
{
    match a {
        CallArg::Expr(e) => ArgV::Expr(expr_v(e)),
        CallArg::Copy(n) => ArgV::Copy(n),
        CallArg::CopyFree(n) => ArgV::CopyFree(n),
        CallArg::CopyInto(ns) => ArgV::CopyInto(ns@),
    }
}

/// A parse of part of the tokens: what was read and where reading stopped,
/// or an error message and its byte position.
pub type PResult<T> = Result<(T, int), (Seq<char>, int)>;

/// The kind of token `i`, if there is one.
pub open spec fn kind_at(ts: Seq<Tok>, i: int) -> Option<Token> {
    if 0 <= i < ts.len() {
        Some(ts[i].kind)
    } else {
        None
    }
}

/// The byte position reading is at before token `i`: its start, or the end
/// of the text past the last token.
pub open spec fn pos_at(ts: Seq<Tok>, i: int, eoi: usize) -> usize {
    if 0 <= i < ts.len() {
        ts[i].span.start
    } else {
        eoi
    }
}

/// The name an identifier token `i` carries.
pub open spec fn ident_at(ts: Seq<Tok>, i: int) -> Option<String> {
    match kind_at(ts, i) {
        Some(Token::Identifier(s)) => Some(s),
        _ => None,
    }
}

/// Whether token `i` is an identifier spelling `w`.
pub open spec fn word_at(ts: Seq<Tok>, i: int, w: Seq<char>) -> bool {
    match ident_at(ts, i) {
        Some(s) => s@ == w,
        None => false,
    }
}

pub open spec fn expected_expression() -> Seq<char> {
    "expected an expression"@
}

pub open spec fn expected_rparen() -> Seq<char> {
    "expected closing ')'"@
}

/// The operator of precedence level `level` that token `t` spells: level 0
/// `*` `/` `%`, level 1 `+` `-`, level 2 `==` `<` `>`.
pub open spec fn bin_op(level: nat, t: Option<Token>) -> Option<Op> {
    match t {
        Some(Token::OpMul) => if level == 0 { Some(Op::Mul) } else { None },
        Some(Token::OpDiv) => if level == 0 { Some(Op::Div) } else { None },
        Some(Token::OpMod) => if level == 0 { Some(Op::Mod) } else { None },
        Some(Token::OpAdd) => if level == 1 { Some(Op::Plus) } else { None },
        Some(Token::OpSub) => if level == 1 { Some(Op::Minus) } else { None },
        Some(Token::OpEqualEqual) => if level == 2 { Some(Op::EqEq) } else { None },
        Some(Token::OpLessThan) => if level == 2 { Some(Op::Lt) } else { None },
        Some(Token::OpGreaterThan) => if level == 2 { Some(Op::Gt) } else { None },
        _ => None,
    }
}

/// The value a literal token stands for; a float literal takes the bit
/// pattern given for its token.
pub open spec fn literal_at(ts: Seq<Tok>, fl: Seq<u64>, i: int) -> Option<AstValue> {
    match kind_at(ts, i) {
        Some(Token::LiteralInt(n)) => Some(AstValue::Num(n)),
        Some(Token::LiteralFloat(_)) => Some(AstValue::Float(if i < fl.len() { fl[i] } else { 0 })),
        Some(Token::LiteralString(s)) => Some(AstValue::Str(s)),
        Some(Token::LiteralChar(c)) => Some(AstValue::Char(c)),
        Some(Token::KeywordTrue) => Some(AstValue::Bool(true)),
        Some(Token::KeywordFalse) => Some(AstValue::Bool(false)),
        _ => None,
    }
}

/// The names of a `copy_into(a, b, ..)` list whose `(` is token `i`: the
/// names and the position after `)`, or `None`.
pub open spec fn names_from(ts: Seq<Tok>, i: int, acc: Seq<String>) -> Option<(Seq<String>, int)>
    decreases ts.len() - i,
{
    if i < 0 || i >= ts.len() {
        None
    } else {
        match ident_at(ts, i) {
            None => if acc.len() == 0 && kind_at(ts, i) == Some(Token::PunctParenClose) {
                Some((acc, i + 1))
            } else {
                None
            },
            Some(n) => if kind_at(ts, i + 1) == Some(Token::PunctParenClose) {
                Some((acc.push(n), i + 2))
            } else if kind_at(ts, i + 1) == Some(Token::PunctComma) {
                names_from(ts, i + 2, acc.push(n))
            } else {
                None
            },
        }
    }
}

/// A call argument that starts with a name: `n.copy`, `n.copy.free`,
/// `n.field`, or `n`; any other pair of fields reads as `n` at position 0.
pub open spec fn ident_arg(ts: Seq<Tok>, i: int) -> (ArgV, int) {
    let n = ident_at(ts, i).unwrap();
    if kind_at(ts, i + 1) == Some(Token::PunctDot) && ident_at(ts, i + 2) is Some {
        let m1 = ident_at(ts, i + 2).unwrap();
        if kind_at(ts, i + 3) == Some(Token::PunctDot) && ident_at(ts, i + 4) is Some {
            let m2 = ident_at(ts, i + 4).unwrap();
            if m1@ == "copy"@ && m2@ == "free"@ {
                (ArgV::CopyFree(n), i + 5)
            } else {
                (ArgV::Expr(ExprV::Ident(n, 0)), i + 5)
            }
        } else if m1@ == "copy"@ {
            (ArgV::Copy(n), i + 3)
        } else {
            (ArgV::Expr(ExprV::DotAccess(n, m1)), i + 3)
        }
    } else {
        (ArgV::Expr(ExprV::Ident(n, 0)), i + 1)
    }
}

/// One call argument at token `i`.
pub open spec fn p_arg(ts: Seq<Tok>, fl: Seq<u64>, eoi: usize, i: int) -> PResult<ArgV>
    decreases ts.len() - i, 8nat,
{
    if i < 0 || i >= ts.len() {
        Err((expected_expression(), eoi as int))
    } else if ident_at(ts, i) is Some {
        if word_at(ts, i, "copy_into"@) && kind_at(ts, i + 1) == Some(Token::PunctParenOpen)
            && names_from(ts, i + 2, Seq::empty()) is Some {
            let (names, j) = names_from(ts, i + 2, Seq::empty()).unwrap();
            Ok((ArgV::CopyInto(names), j))
        } else {
            Ok(ident_arg(ts, i))
        }
    } else {
        match p_level(ts, fl, eoi, 2, i) {
            Ok((e, j)) => Ok((ArgV::Expr(e), j)),
            Err(x) => Err(x),
        }
    }
}

/// The arguments after one read ending at token `j`: `,` and another, or
/// the closing `)`.
pub open spec fn p_args_rest(ts: Seq<Tok>, fl: Seq<u64>, eoi: usize, acc: Seq<ArgV>, j: int) -> PResult<
    Seq<ArgV>,
>
    decreases ts.len() - j, 9nat,
{
    if j < 0 || j >= ts.len() {
        Err((expected_rparen(), eoi as int))
    } else if kind_at(ts, j) == Some(Token::PunctParenClose) {
        Ok((acc, j + 1))
    } else if kind_at(ts, j) == Some(Token::PunctComma) {
        match p_arg(ts, fl, eoi, j + 1) {
            Ok((a, k)) => if k <= j || k > ts.len() {
                Err((expected_expression(), pos_at(ts, j, eoi) as int))
            } else {
                p_args_rest(ts, fl, eoi, acc.push(a), k)
            },
            Err(x) => Err(x),
        }
    } else {
        Err((expected_rparen(), pos_at(ts, j, eoi) as int))
    }
}

/// An argument list whose `(` is token `i`.
pub open spec fn p_args(ts: Seq<Tok>, fl: Seq<u64>, eoi: usize, i: int) -> PResult<Seq<ArgV>>
    decreases ts.len() - i, 10nat,
{
    if i < 0 || i + 1 >= ts.len() {
        Err((expected_rparen(), eoi as int))
    } else if kind_at(ts, i + 1) == Some(Token::PunctParenClose) {
        Ok((Seq::empty(), i + 2))
    } else {
        match p_arg(ts, fl, eoi, i + 1) {
            Ok((a, k)) => if k <= i || k > ts.len() {
                Err((expected_expression(), pos_at(ts, i, eoi) as int))
            } else {
                p_args_rest(ts, fl, eoi, seq![a], k)
            },
            Err(x) => Err(x),
        }
    }
}

/// A primary expression at token `i`.
pub open spec fn p_primary(ts: Seq<Tok>, fl: Seq<u64>, eoi: usize, i: int) -> PResult<ExprV>
    decreases ts.len() - i, 0nat,
{
    if i < 0 || i >= ts.len() {
        Err((expected_expression(), eoi as int))
    } else if literal_at(ts, fl, i) is Some {
        Ok((ExprV::Val(literal_at(ts, fl, i).unwrap()), i + 1))
    } else if ident_at(ts, i) is Some {
        let n = ident_at(ts, i).unwrap();
        if kind_at(ts, i + 1) == Some(Token::PunctDot) && word_at(ts, i + 2, "drop"@)
            && kind_at(ts, i + 3) == Some(Token::PunctParenOpen) && kind_at(ts, i + 4) == Some(
            Token::PunctParenClose,
        ) {
            Ok((ExprV::HandleDrop(n, pos_at(ts, i + 5, eoi)), i + 5))
        } else if kind_at(ts, i + 1) == Some(Token::PunctDot) && word_at(ts, i + 2, "val"@) {
            Ok((ExprV::HandleVal(n, pos_at(ts, i + 3, eoi)), i + 3))
        } else {
            let call = if kind_at(ts, i + 1) == Some(Token::PunctParenOpen) {
                match p_args(ts, fl, eoi, i + 1) {
                    Ok((args, j)) => Some((args, j)),
                    Err(_) => None,
                }
            } else {
                None
            };
            let j = match call {
                Some((_, j)) => j,
                None => i + 1,
            };
            let field = if kind_at(ts, j) == Some(Token::PunctDot) {
                ident_at(ts, j + 1)
            } else {
                None
            };
            let k = if field is Some { j + 2 } else { j };
            match call {
                Some((args, _)) => Ok((ExprV::Call(n, args, ts[i].span.start), k)),
                None => match field {
                    Some(f) => Ok((ExprV::DotAccess(n, f), k)),
                    None => Ok((ExprV::Ident(n, ts[i].span.start), k)),
                },
            }
        }
    } else if kind_at(ts, i) == Some(Token::PunctParenOpen) {
        match p_level(ts, fl, eoi, 2, i + 1) {
            Ok((e, j)) => if kind_at(ts, j) == Some(Token::PunctParenClose) {
                Ok((e, j + 1))
            } else {
                Err((expected_rparen(), pos_at(ts, j, eoi) as int))
            },
            Err(x) => Err(x),
        }
    } else {
        Err((expected_expression(), pos_at(ts, i, eoi) as int))
    }
}

/// A primary with an optional prefix `*` or `-`.
pub open spec fn p_unary(ts: Seq<Tok>, fl: Seq<u64>, eoi: usize, i: int) -> PResult<ExprV>
    decreases ts.len() - i, 1nat,
{
    let op = match kind_at(ts, i) {
        Some(Token::OpMul) => Some(Op::Mul),
        Some(Token::OpSub) => Some(Op::Minus),
        _ => None,
    };
    match op {
        Some(o) => match p_primary(ts, fl, eoi, i + 1) {
            Ok((e, j)) => Ok((ExprV::Unary(o, Box::new(e), pos_at(ts, i, eoi)), j)),
            Err(x) => Err(x),
        },
        None => p_primary(ts, fl, eoi, i),
    }
}

/// The operators of level `level` and their operands after `lhs`, read
/// from token `j`, folded to the left.
pub open spec fn p_rest(ts: Seq<Tok>, fl: Seq<u64>, eoi: usize, level: nat, lhs: ExprV, j: int) -> PResult<
    ExprV,
>
    decreases ts.len() - j, 2 * level + 2,
{
    match bin_op(level, kind_at(ts, j)) {
        None => Ok((lhs, j)),
        Some(op) => {
            let rhs = if level == 0 {
                p_unary(ts, fl, eoi, j + 1)
            } else {
                p_level(ts, fl, eoi, (level - 1) as nat, j + 1)
            };
            match rhs {
                Ok((r, k)) => if k <= j || k > ts.len() {
                    Err((expected_expression(), pos_at(ts, j, eoi) as int))
                } else {
                    p_rest(ts, fl, eoi, level, ExprV::Bin(Box::new(lhs), op, pos_at(ts, j, eoi), Box::new(r)), k)
                },
                Err(x) => Err(x),
            }
        },
    }
}

/// An expression of precedence level `level` (2 is a whole expression).
pub open spec fn p_level(ts: Seq<Tok>, fl: Seq<u64>, eoi: usize, level: nat, i: int) -> PResult<ExprV>
    decreases ts.len() - i, 2 * level + 3,
{
    let first = if level == 0 {
        p_unary(ts, fl, eoi, i)
    } else {
        p_level(ts, fl, eoi, (level - 1) as nat, i)
    };
    match first {
        Ok((l, j)) => if j <= i || j > ts.len() {
            Err((expected_expression(), pos_at(ts, i, eoi) as int))
        } else {
            p_rest(ts, fl, eoi, level, l, j)
        },
        Err(x) => Err(x),
    }
}


/// `%` binds like `*` and `/`: at every level, each of the three is an
/// operator exactly where the others are, and never where `+` or `-` is.
pub proof fn law_remainder_binds_like_product(level: nat)
    ensures
        bin_op(level, Some(Token::OpMod)) is Some <==> bin_op(level, Some(Token::OpMul)) is Some,
        bin_op(level, Some(Token::OpMod)) is Some <==> bin_op(level, Some(Token::OpDiv)) is Some,
        bin_op(level, Some(Token::OpMod)) is Some ==> bin_op(level, Some(Token::OpAdd)) is None
            && bin_op(level, Some(Token::OpSub)) is None,
        bin_op(level, Some(Token::OpMod)) is Some ==> bin_op(level, Some(Token::OpMod)) == Some(Op::Mod),
{
}

proof fn lemma_literal_operand(ts: Seq<Tok>, fl: Seq<u64>, eoi: usize, i: int, n: u128)
    requires
        0 <= i < ts.len(),
        ts[i].kind == Token::LiteralInt(n),
    ensures
        p_unary(ts, fl, eoi, i) == Ok::<(ExprV, int), (Seq<char>, int)>((ExprV::Val(AstValue::Num(n)), i + 1)),
{
    assert(literal_at(ts, fl, i) == Some(AstValue::Num(n)));
    assert(p_primary(ts, fl, eoi, i) == Ok::<(ExprV, int), (Seq<char>, int)>((ExprV::Val(AstValue::Num(n)), i + 1)));
}

/// Precedence of `%` over `+`, in both orders: the tokens of `a + b % c`
/// read as `a + (b % c)`, and those of `a % b + c` as `(a % b) + c`.
pub proof fn law_remainder_precedence(ts: Seq<Tok>, fl: Seq<u64>, eoi: usize, a: u128, b: u128, c: u128)
    requires
        ts.len() == 5,
        ts[0].kind == Token::LiteralInt(a),
        ts[2].kind == Token::LiteralInt(b),
        ts[4].kind == Token::LiteralInt(c),
        (ts[1].kind == Token::OpAdd && ts[3].kind == Token::OpMod) || (ts[1].kind == Token::OpMod && ts[3].kind
            == Token::OpAdd),
    ensures
        ({
            let va = Box::new(ExprV::Val(AstValue::Num(a)));
            let vb = Box::new(ExprV::Val(AstValue::Num(b)));
            let vc = Box::new(ExprV::Val(AstValue::Num(c)));
            let p1 = ts[1].span.start;
            let p3 = ts[3].span.start;
            &&& ts[1].kind == Token::OpAdd ==> p_level(ts, fl, eoi, 2, 0) == Ok::<(ExprV, int), (Seq<char>, int)>(
                (ExprV::Bin(va, Op::Plus, p1, Box::new(ExprV::Bin(vb, Op::Mod, p3, vc))), 5),
            )
            &&& ts[1].kind == Token::OpMod ==> p_level(ts, fl, eoi, 2, 0) == Ok::<(ExprV, int), (Seq<char>, int)>(
                (ExprV::Bin(Box::new(ExprV::Bin(va, Op::Mod, p1, vb)), Op::Plus, p3, vc), 5),
            )
        }),
{
    law_operator_precedence(ts, fl, eoi, a, b, c);
}

/// The operator a binary operator token spells, whatever its precedence.
pub open spec fn token_op(t: Token) -> Option<Op> {
    match t {
        Token::OpMul => Some(Op::Mul),
        Token::OpDiv => Some(Op::Div),
        Token::OpMod => Some(Op::Mod),
        Token::OpAdd => Some(Op::Plus),
        Token::OpSub => Some(Op::Minus),
        Token::OpEqualEqual => Some(Op::EqEq),
        Token::OpLessThan => Some(Op::Lt),
        Token::OpGreaterThan => Some(Op::Gt),
        _ => None,
    }
}

/// The documented precedence tiers, tightest first: products (`*` `/`
/// `%`), sums (`+` `-`), comparisons (`==` `<` `>`).
pub open spec fn tier(t: Token) -> Option<nat> {
    match t {
        Token::OpMul | Token::OpDiv | Token::OpMod => Some(0),
        Token::OpAdd | Token::OpSub => Some(1),
        Token::OpEqualEqual | Token::OpLessThan | Token::OpGreaterThan => Some(2),
        _ => None,
    }
}

proof fn lemma_tier_is_level(t: Token, l: nat)
    requires
        tier(t) is Some,
    ensures
        bin_op(l, Some(t)) is Some <==> l == tier(t)->0,
        bin_op(l, Some(t)) is Some ==> bin_op(l, Some(t)) == token_op(t),
{
}

proof fn lemma_atom_level(ts: Seq<Tok>, fl: Seq<u64>, eoi: usize, level: nat, i: int, n: u128)
    requires
        0 <= i < ts.len(),
        ts[i].kind == Token::LiteralInt(n),
        i + 1 == ts.len() || (i + 1 < ts.len() && tier(ts[i + 1].kind) is Some && tier(ts[i + 1].kind)->0 > level),
    ensures
        p_level(ts, fl, eoi, level, i) == Ok::<(ExprV, int), (Seq<char>, int)>((ExprV::Val(AstValue::Num(n)), i + 1)),
    decreases level,
{
    lemma_literal_operand(ts, fl, eoi, i, n);
    if level > 0 {
        lemma_atom_level(ts, fl, eoi, (level - 1) as nat, i, n);
    }
    if i + 1 < ts.len() {
        lemma_tier_is_level(ts[i + 1].kind, level);
    }
    let v = ExprV::Val(AstValue::Num(n));
    assert(bin_op(level, kind_at(ts, i + 1)) is None);
    assert(p_rest(ts, fl, eoi, level, v, i + 1) == Ok::<(ExprV, int), (Seq<char>, int)>((v, i + 1)));
    if level == 0 {
        assert(p_unary(ts, fl, eoi, i) == Ok::<(ExprV, int), (Seq<char>, int)>((v, i + 1)));
    } else {
        assert(p_level(ts, fl, eoi, (level - 1) as nat, i) == Ok::<(ExprV, int), (Seq<char>, int)>((v, i + 1)));
    }
}

proof fn lemma_climb_to(ts: Seq<Tok>, fl: Seq<u64>, eoi: usize, level: nat, to: nat, i: int, e: ExprV, j: int)
    requires
        0 <= i < j <= ts.len(),
        level <= to,
        p_level(ts, fl, eoi, level, i) == Ok::<(ExprV, int), (Seq<char>, int)>((e, j)),
        j == ts.len() || (tier(ts[j].kind) is Some && tier(ts[j].kind)->0 > to),
    ensures
        p_level(ts, fl, eoi, to, i) == Ok::<(ExprV, int), (Seq<char>, int)>((e, j)),
    decreases to - level,
{
    if level < to {
        if j < ts.len() {
            lemma_tier_is_level(ts[j].kind, level + 1);
        }
        assert(bin_op(level + 1, kind_at(ts, j)) is None);
        assert(p_rest(ts, fl, eoi, level + 1, e, j) == Ok::<(ExprV, int), (Seq<char>, int)>((e, j)));
        assert(((level + 1) - 1) as nat == level);
        assert(p_level(ts, fl, eoi, level + 1, i) == Ok::<(ExprV, int), (Seq<char>, int)>((e, j)));
        lemma_climb_to(ts, fl, eoi, level + 1, to, i, e, j);
    }
}

/// The rhs of an operator of tier `t` read from token `j`.
proof fn lemma_rhs_atom(ts: Seq<Tok>, fl: Seq<u64>, eoi: usize, t: nat, j: int, n: u128)
    requires
        0 <= j < ts.len(),
        ts[j].kind == Token::LiteralInt(n),
        j + 1 == ts.len() || (j + 1 < ts.len() && tier(ts[j + 1].kind) is Some && tier(ts[j + 1].kind)->0 >= t),
    ensures
        (if t == 0 {
            p_unary(ts, fl, eoi, j)
        } else {
            p_level(ts, fl, eoi, (t - 1) as nat, j)
        }) == Ok::<(ExprV, int), (Seq<char>, int)>((ExprV::Val(AstValue::Num(n)), j + 1)),
{
    lemma_literal_operand(ts, fl, eoi, j, n);
    if t > 0 {
        lemma_atom_level(ts, fl, eoi, (t - 1) as nat, j, n);
    }
}

/// Precedence and grouping of binary operators: in `a o b p c`, the
/// operator of the tighter tier groups first, and two of one tier group
/// to the left. So `a + b * c` reads as `a + (b * c)`, `a * b + c` as
/// `(a * b) + c`, `a - b - c` as `(a - b) - c` and `a < b + c` as
/// `a < (b + c)`.
pub proof fn law_operator_precedence(ts: Seq<Tok>, fl: Seq<u64>, eoi: usize, a: u128, b: u128, c: u128)
    requires
        ts.len() == 5,
        ts[0].kind == Token::LiteralInt(a),
        ts[2].kind == Token::LiteralInt(b),
        ts[4].kind == Token::LiteralInt(c),
        tier(ts[1].kind) is Some,
        tier(ts[3].kind) is Some,
    ensures
        ({
            let va = Box::new(ExprV::Val(AstValue::Num(a)));
            let vb = Box::new(ExprV::Val(AstValue::Num(b)));
            let vc = Box::new(ExprV::Val(AstValue::Num(c)));
            let o1 = token_op(ts[1].kind)->0;
            let o3 = token_op(ts[3].kind)->0;
            let p1 = ts[1].span.start;
            let p3 = ts[3].span.start;
            &&& tier(ts[1].kind)->0 > tier(ts[3].kind)->0 ==> p_level(ts, fl, eoi, 2, 0) == Ok::<
                (ExprV, int),
                (Seq<char>, int),
            >((ExprV::Bin(va, o1, p1, Box::new(ExprV::Bin(vb, o3, p3, vc))), 5))
            &&& tier(ts[1].kind)->0 <= tier(ts[3].kind)->0 ==> p_level(ts, fl, eoi, 2, 0) == Ok::<
                (ExprV, int),
                (Seq<char>, int),
            >((ExprV::Bin(Box::new(ExprV::Bin(va, o1, p1, vb)), o3, p3, vc), 5))
        }),
{
    let ea = ExprV::Val(AstValue::Num(a));
    let eb = ExprV::Val(AstValue::Num(b));
    let ec = ExprV::Val(AstValue::Num(c));
    let t1 = tier(ts[1].kind)->0;
    let t3 = tier(ts[3].kind)->0;
    let o1 = token_op(ts[1].kind)->0;
    let o3 = token_op(ts[3].kind)->0;
    let p1 = ts[1].span.start;
    let p3 = ts[3].span.start;
    assert(pos_at(ts, 1, eoi) == p1);
    assert(pos_at(ts, 3, eoi) == p3);
    assert(kind_at(ts, 5) == None::<Token>);
    lemma_tier_is_level(ts[1].kind, t1);
    lemma_tier_is_level(ts[3].kind, t3);
    lemma_tier_is_level(ts[3].kind, t1);
    lemma_tier_is_level(ts[1].kind, t3);
    if t1 > t3 {
        // `b p c` at tier t3, then `a o (..)` at tier t1.
        let inner = ExprV::Bin(Box::new(eb), o3, p3, Box::new(ec));
        let whole = ExprV::Bin(Box::new(ea), o1, p1, Box::new(inner));
        lemma_rhs_atom(ts, fl, eoi, t3, 4, c);
        assert(p_rest(ts, fl, eoi, t3, inner, 5) == Ok::<(ExprV, int), (Seq<char>, int)>((inner, 5)));
        assert(p_rest(ts, fl, eoi, t3, eb, 3) == Ok::<(ExprV, int), (Seq<char>, int)>((inner, 5)));
        if t3 > 0 {
            lemma_atom_level(ts, fl, eoi, (t3 - 1) as nat, 2, b);
        } else {
            lemma_literal_operand(ts, fl, eoi, 2, b);
        }
        assert(p_level(ts, fl, eoi, t3, 2) == Ok::<(ExprV, int), (Seq<char>, int)>((inner, 5)));
        lemma_climb_to(ts, fl, eoi, t3, (t1 - 1) as nat, 2, inner, 5);
        // The rhs of `o` is read at tier t1 - 1 >= t3.
        assert(p_rest(ts, fl, eoi, t1, whole, 5) == Ok::<(ExprV, int), (Seq<char>, int)>((whole, 5)));
        assert(p_rest(ts, fl, eoi, t1, ea, 1) == Ok::<(ExprV, int), (Seq<char>, int)>((whole, 5)));
        lemma_atom_level(ts, fl, eoi, (t1 - 1) as nat, 0, a);
        assert(p_level(ts, fl, eoi, t1, 0) == Ok::<(ExprV, int), (Seq<char>, int)>((whole, 5)));
        lemma_climb_to(ts, fl, eoi, t1, 2, 0, whole, 5);
    } else {
        // `a o b` at tier t1, then `(..) p c` at tier t3.
        let inner = ExprV::Bin(Box::new(ea), o1, p1, Box::new(eb));
        let whole = ExprV::Bin(Box::new(inner), o3, p3, Box::new(ec));
        lemma_rhs_atom(ts, fl, eoi, t1, 2, b);
        lemma_rhs_atom(ts, fl, eoi, t3, 4, c);
        if t1 > 0 {
            lemma_atom_level(ts, fl, eoi, (t1 - 1) as nat, 0, a);
        } else {
            lemma_literal_operand(ts, fl, eoi, 0, a);
        }
        assert(p_rest(ts, fl, eoi, t3, whole, 5) == Ok::<(ExprV, int), (Seq<char>, int)>((whole, 5)));
        if t1 == t3 {
            if t3 > 0 {
                assert(p_level(ts, fl, eoi, (t3 - 1) as nat, 0) == Ok::<(ExprV, int), (Seq<char>, int)>((ea, 1)));
            } else {
                assert(p_unary(ts, fl, eoi, 0) == Ok::<(ExprV, int), (Seq<char>, int)>((ea, 1)));
            }
            assert(p_rest(ts, fl, eoi, t1, inner, 3) == Ok::<(ExprV, int), (Seq<char>, int)>((whole, 5)));
            assert(p_rest(ts, fl, eoi, t1, ea, 1) == Ok::<(ExprV, int), (Seq<char>, int)>((whole, 5)));
            assert(p_level(ts, fl, eoi, t3, 0) == Ok::<(ExprV, int), (Seq<char>, int)>((whole, 5)));
        } else {
            assert(p_rest(ts, fl, eoi, t1, inner, 3) == Ok::<(ExprV, int), (Seq<char>, int)>((inner, 3)));
            assert(p_rest(ts, fl, eoi, t1, ea, 1) == Ok::<(ExprV, int), (Seq<char>, int)>((inner, 3)));
            assert(p_level(ts, fl, eoi, t1, 0) == Ok::<(ExprV, int), (Seq<char>, int)>((inner, 3)));
            lemma_climb_to(ts, fl, eoi, t1, (t3 - 1) as nat, 0, inner, 3);
            assert(p_rest(ts, fl, eoi, t3, inner, 3) == Ok::<(ExprV, int), (Seq<char>, int)>((whole, 5)));
            assert(p_level(ts, fl, eoi, t3, 0) == Ok::<(ExprV, int), (Seq<char>, int)>((whole, 5)));
        }
        lemma_climb_to(ts, fl, eoi, t3, 2, 0, whole, 5);
    }
}

// ── Executable parser ────────────────────────────────────────────────────────

pub open spec fn err_v(e: ParseError) -> (Seq<char>, int) {
    (e.msg@, e.pos as int)
}

pub open spec fn expr_res_v(r: Result<(Expr, usize), ParseError>) -> PResult<ExprV> {
    match r {
        Ok((e, j)) => Ok((expr_v(e), j as int)),
        Err(e) => Err(err_v(e)),
    }
}

pub open spec fn arg_res_v(r: Result<(CallArg, usize), ParseError>) -> PResult<ArgV> {
    match r {
        Ok((a, j)) => Ok((arg_v(a), j as int)),
        Err(e) => Err(err_v(e)),
    }
}

pub open spec fn args_res_v(r: Result<(Vec<CallArg>, usize), ParseError>) -> PResult<Seq<ArgV>> {
    match r {
        Ok((a, j)) => Ok((args_v(a@), j as int)),
        Err(e) => Err(err_v(e)),
    }
}

fn err_expression(pos: usize) -> (e: ParseError)
    ensures
        err_v(e) == (expected_expression(), pos as int),
{
    ParseError { msg: "expected an expression".to_string(), pos }
}

fn err_rparen(pos: usize) -> (e: ParseError)
    ensures
        err_v(e) == (expected_rparen(), pos as int),
{
    ParseError { msg: "expected closing ')'".to_string(), pos }
}

fn pos_of(tokens: &Vec<Tok>, i: usize, eoi: usize) -> (p: usize)
    ensures
        p == pos_at(tokens@, i as int, eoi),
{
    if i < tokens.len() {
        tokens[i].span.start
    } else {
        eoi
    }
}

fn ident_of(tokens: &Vec<Tok>, i: usize) -> (r: Option<String>)
    ensures
        r == ident_at(tokens@, i as int),
{
    if i < tokens.len() {
        match &tokens[i].kind {
            Token::Identifier(s) => Some(s.clone()),
            _ => None,
        }
    } else {
        None
    }
}

fn is_ident(tokens: &Vec<Tok>, i: usize) -> (r: bool)
    ensures
        r == ident_at(tokens@, i as int) is Some,
{
    i < tokens.len() && match &tokens[i].kind {
        Token::Identifier(_) => true,
        _ => false,
    }
}

fn word_is(tokens: &Vec<Tok>, i: usize, w: &str) -> (r: bool)
    ensures
        r == word_at(tokens@, i as int, w@),
{
    if i < tokens.len() {
        match &tokens[i].kind {
            Token::Identifier(s) => crate::frontend::semantic::str_eq_string(w, s),
            _ => false,
        }
    } else {
        false
    }
}

fn is_paren_open(tokens: &Vec<Tok>, i: usize) -> (r: bool)
    ensures
        r == (kind_at(tokens@, i as int) == Some(Token::PunctParenOpen)),
{
    i < tokens.len() && match &tokens[i].kind {
        Token::PunctParenOpen => true,
        _ => false,
    }
}

fn is_paren_close(tokens: &Vec<Tok>, i: usize) -> (r: bool)
    ensures
        r == (kind_at(tokens@, i as int) == Some(Token::PunctParenClose)),
{
    i < tokens.len() && match &tokens[i].kind {
        Token::PunctParenClose => true,
        _ => false,
    }
}

fn is_comma(tokens: &Vec<Tok>, i: usize) -> (r: bool)
    ensures
        r == (kind_at(tokens@, i as int) == Some(Token::PunctComma)),
{
    i < tokens.len() && match &tokens[i].kind {
        Token::PunctComma => true,
        _ => false,
    }
}

fn is_dot(tokens: &Vec<Tok>, i: usize) -> (r: bool)
    ensures
        r == (kind_at(tokens@, i as int) == Some(Token::PunctDot)),
{
    i < tokens.len() && match &tokens[i].kind {
        Token::PunctDot => true,
        _ => false,
    }
}

fn bin_op_of(level: usize, tokens: &Vec<Tok>, i: usize) -> (r: Option<Op>)
    ensures
        r == bin_op(level as nat, kind_at(tokens@, i as int)),
{
    if i >= tokens.len() {
        return None;
    }
    match &tokens[i].kind {
        Token::OpMul => if level == 0 { Some(Op::Mul) } else { None },
        Token::OpDiv => if level == 0 { Some(Op::Div) } else { None },
        Token::OpMod => if level == 0 { Some(Op::Mod) } else { None },
        Token::OpAdd => if level == 1 { Some(Op::Plus) } else { None },
        Token::OpSub => if level == 1 { Some(Op::Minus) } else { None },
        Token::OpEqualEqual => if level == 2 { Some(Op::EqEq) } else { None },
        Token::OpLessThan => if level == 2 { Some(Op::Lt) } else { None },
        Token::OpGreaterThan => if level == 2 { Some(Op::Gt) } else { None },
        _ => None,
    }
}

fn literal_of(tokens: &Vec<Tok>, floats: &Vec<u64>, i: usize) -> (r: Option<AstValue>)
    ensures
        r == literal_at(tokens@, floats@, i as int),
{
    if i >= tokens.len() {
        return None;
    }
    match &tokens[i].kind {
        Token::LiteralInt(n) => Some(AstValue::Num(*n)),
        Token::LiteralFloat(_) => Some(AstValue::Float(if i < floats.len() { floats[i] } else { 0 })),
        Token::LiteralString(s) => Some(AstValue::Str(s.clone())),
        Token::LiteralChar(c) => Some(AstValue::Char(*c)),
        Token::KeywordTrue => Some(AstValue::Bool(true)),
        Token::KeywordFalse => Some(AstValue::Bool(false)),
        _ => None,
    }
}

fn names_of(tokens: &Vec<Tok>, i: usize) -> (r: Option<(Vec<String>, usize)>)
    ensures
        match names_from(tokens@, i as int, Seq::empty()) {
            Some((ns, j)) => r matches Some((v, k)) && v@ == ns && k == j,
            None => r is None,
        },
{
    let mut acc: Vec<String> = Vec::new();
    let mut k = i;
    let n = tokens.len();
    loop
        invariant
            n == tokens@.len(),
            names_from(tokens@, i as int, Seq::empty()) == names_from(tokens@, k as int, acc@),
        decreases n - k,
    {
        if k >= n {
            return None;
        }
        match ident_of(tokens, k) {
            None => {
                if acc.len() == 0 && is_paren_close(tokens, k) {
                    return Some((acc, k + 1));
                }
                return None;
            },
            Some(name) => {
                if is_paren_close(tokens, k + 1) {
                    acc.push(name);
                    return Some((acc, k + 2));
                } else if is_comma(tokens, k + 1) {
                    acc.push(name);
                    k = k + 2;
                } else {
                    return None;
                }
            },
        }
    }
}

fn ident_arg_of(tokens: &Vec<Tok>, i: usize) -> (r: (CallArg, usize))
    requires
        ident_at(tokens@, i as int) is Some,
    ensures
        (arg_v(r.0), r.1 as int) == ident_arg(tokens@, i as int),
{
    let len = tokens.len();
    let n = ident_of(tokens, i).unwrap();
    proof {
        reveal_strlit("copy");
        reveal_strlit("free");
    }
    if is_dot(tokens, i + 1) && is_ident(tokens, i + 2) {
        let m1 = ident_of(tokens, i + 2).unwrap();
        if is_dot(tokens, i + 3) && is_ident(tokens, i + 4) {
            let m2 = ident_of(tokens, i + 4).unwrap();
            if crate::frontend::semantic::str_eq_string("copy", &m1) && crate::frontend::semantic::str_eq_string(
                "free",
                &m2,
            ) {
                (CallArg::CopyFree(n), i + 5)
            } else {
                (CallArg::Expr(Expr::Ident(n, 0)), i + 5)
            }
        } else if crate::frontend::semantic::str_eq_string("copy", &m1) {
            (CallArg::Copy(n), i + 3)
        } else {
            (CallArg::Expr(Expr::DotAccess(n, m1)), i + 3)
        }
    } else {
        (CallArg::Expr(Expr::Ident(n, 0)), i + 1)
    }
}


fn parse_arg(tokens: &Vec<Tok>, floats: &Vec<u64>, eoi: usize, i: usize) -> (r: Result<(CallArg, usize), ParseError>)
    ensures
        arg_res_v(r) == p_arg(tokens@, floats@, eoi, i as int),
    decreases tokens@.len() - i, 8nat,
{
    let len = tokens.len();
    if i >= len {
        return Err(err_expression(eoi));
    }
    proof {
        reveal_strlit("copy_into");
    }
    if is_ident(tokens, i) {
        if word_is(tokens, i, "copy_into") && is_paren_open(tokens, i + 1) {
            match names_of(tokens, i + 2) {
                Some((names, j)) => {
                    return Ok((CallArg::CopyInto(names), j));
                },
                None => {},
            }
        }
        let (a, j) = ident_arg_of(tokens, i);
        Ok((a, j))
    } else {
        match parse_level(tokens, floats, eoi, 2, i) {
            Ok((e, j)) => Ok((CallArg::Expr(e), j)),
            Err(x) => Err(x),
        }
    }
}

fn parse_args_rest(tokens: &Vec<Tok>, floats: &Vec<u64>, eoi: usize, acc: Vec<CallArg>, j: usize) -> (r: Result<
    (Vec<CallArg>, usize),
    ParseError,
>)
    ensures
        args_res_v(r) == p_args_rest(tokens@, floats@, eoi, args_v(acc@), j as int),
    decreases tokens@.len() - j, 9nat,
{
    let len = tokens.len();
    if j >= len {
        return Err(err_rparen(eoi));
    }
    if is_paren_close(tokens, j) {
        return Ok((acc, j + 1));
    }
    if is_comma(tokens, j) {
        match parse_arg(tokens, floats, eoi, j + 1) {
            Ok((a, k)) => {
                if k <= j || k > len {
                    Err(err_expression(pos_of(tokens, j, eoi)))
                } else {
                    let mut acc = acc;
                    let ghost before = acc@;
                    acc.push(a);
                    proof {
                        assert(acc@.drop_last() =~= before);
                    }
                    parse_args_rest(tokens, floats, eoi, acc, k)
                }
            },
            Err(x) => Err(x),
        }
    } else {
        Err(err_rparen(pos_of(tokens, j, eoi)))
    }
}

fn parse_args(tokens: &Vec<Tok>, floats: &Vec<u64>, eoi: usize, i: usize) -> (r: Result<(Vec<CallArg>, usize), ParseError>)
    ensures
        args_res_v(r) == p_args(tokens@, floats@, eoi, i as int),
    decreases tokens@.len() - i, 10nat,
{
    let len = tokens.len();
    if i >= len || i + 1 >= len {
        return Err(err_rparen(eoi));
    }
    if is_paren_close(tokens, i + 1) {
        let empty: Vec<CallArg> = Vec::new();
        return Ok((empty, i + 2));
    }
    match parse_arg(tokens, floats, eoi, i + 1) {
        Ok((a, k)) => {
            if k <= i || k > len {
                Err(err_expression(pos_of(tokens, i, eoi)))
            } else {
                let mut acc: Vec<CallArg> = Vec::new();
                let ghost ga = a;
                acc.push(a);
                proof {
                    assert(acc@.drop_last() =~= Seq::<CallArg>::empty());
                    assert(acc@.last() == ga);
                    assert(args_v(Seq::<CallArg>::empty()) =~= Seq::<ArgV>::empty());
                    assert(args_v(acc@) =~= seq![arg_v(ga)]);
                }
                parse_args_rest(tokens, floats, eoi, acc, k)
            }
        },
        Err(x) => Err(x),
    }
}

fn parse_primary(tokens: &Vec<Tok>, floats: &Vec<u64>, eoi: usize, i: usize) -> (r: Result<(Expr, usize), ParseError>)
    ensures
        expr_res_v(r) == p_primary(tokens@, floats@, eoi, i as int),
    decreases tokens@.len() - i, 0nat,
{
    let len = tokens.len();
    if i >= len {
        return Err(err_expression(eoi));
    }
    match literal_of(tokens, floats, i) {
        Some(v) => {
            return Ok((Expr::Val(v), i + 1));
        },
        None => {},
    }
    proof {
        reveal_strlit("drop");
        reveal_strlit("val");
    }
    if is_ident(tokens, i) {
        let n = ident_of(tokens, i).unwrap();
        if is_dot(tokens, i + 1) && word_is(tokens, i + 2, "drop") && is_paren_open(tokens, i + 3)
            && is_paren_close(tokens, i + 4) {
            return Ok((Expr::HandleDrop(n, pos_of(tokens, i + 5, eoi)), i + 5));
        }
        if is_dot(tokens, i + 1) && word_is(tokens, i + 2, "val") {
            return Ok((Expr::HandleVal(n, pos_of(tokens, i + 3, eoi)), i + 3));
        }
        let call = if is_paren_open(tokens, i + 1) {
            match parse_args(tokens, floats, eoi, i + 1) {
                Ok((args, j)) => Some((args, j)),
                Err(_) => None,
            }
        } else {
            None
        };
        let j = match &call {
            Some((_, j)) => *j,
            None => i + 1,
        };
        let field = if is_dot(tokens, j) {
            ident_of(tokens, j + 1)
        } else {
            None
        };
        let k = if field.is_some() {
            j + 2
        } else {
            j
        };
        let start = tokens[i].span.start;
        match call {
            Some((args, _)) => Ok((Expr::Call(n, args, start), k)),
            None => match field {
                Some(f) => Ok((Expr::DotAccess(n, f), k)),
                None => Ok((Expr::Ident(n, start), k)),
            },
        }
    } else if is_paren_open(tokens, i) {
        match parse_level(tokens, floats, eoi, 2, i + 1) {
            Ok((e, j)) => {
                if is_paren_close(tokens, j) {
                    Ok((e, j + 1))
                } else {
                    Err(err_rparen(pos_of(tokens, j, eoi)))
                }
            },
            Err(x) => Err(x),
        }
    } else {
        Err(err_expression(pos_of(tokens, i, eoi)))
    }
}

fn parse_unary(tokens: &Vec<Tok>, floats: &Vec<u64>, eoi: usize, i: usize) -> (r: Result<(Expr, usize), ParseError>)
    ensures
        expr_res_v(r) == p_unary(tokens@, floats@, eoi, i as int),
    decreases tokens@.len() - i, 1nat,
{
    let len = tokens.len();
    let op = if i < len {
        match &tokens[i].kind {
            Token::OpMul => Some(Op::Mul),
            Token::OpSub => Some(Op::Minus),
            _ => None,
        }
    } else {
        None
    };
    match op {
        Some(o) => match parse_primary(tokens, floats, eoi, i + 1) {
            Ok((e, j)) => Ok((Expr::Unary(o, Box::new(e), pos_of(tokens, i, eoi)), j)),
            Err(x) => Err(x),
        },
        None => parse_primary(tokens, floats, eoi, i),
    }
}

fn parse_rest(tokens: &Vec<Tok>, floats: &Vec<u64>, eoi: usize, level: usize, lhs: Expr, j: usize) -> (r: Result<
    (Expr, usize),
    ParseError,
>)
    ensures
        expr_res_v(r) == p_rest(tokens@, floats@, eoi, level as nat, expr_v(lhs), j as int),
    decreases tokens@.len() - j, 2 * level + 2,
{
    let len = tokens.len();
    match bin_op_of(level, tokens, j) {
        None => Ok((lhs, j)),
        Some(op) => {
            let rhs = if level == 0 {
                parse_unary(tokens, floats, eoi, j + 1)
            } else {
                parse_level(tokens, floats, eoi, level - 1, j + 1)
            };
            match rhs {
                Ok((r, k)) => {
                    if k <= j || k > len {
                        Err(err_expression(pos_of(tokens, j, eoi)))
                    } else {
                        let p = pos_of(tokens, j, eoi);
                        parse_rest(tokens, floats, eoi, level, Expr::Bin(Box::new(lhs), op, p, Box::new(r)), k)
                    }
                },
                Err(x) => Err(x),
            }
        },
    }
}

fn parse_level(tokens: &Vec<Tok>, floats: &Vec<u64>, eoi: usize, level: usize, i: usize) -> (r: Result<
    (Expr, usize),
    ParseError,
>)
    ensures
        expr_res_v(r) == p_level(tokens@, floats@, eoi, level as nat, i as int),
    decreases tokens@.len() - i, 2 * level + 3,
{
    let len = tokens.len();
    let first = if level == 0 {
        parse_unary(tokens, floats, eoi, i)
    } else {
        parse_level(tokens, floats, eoi, level - 1, i)
    };
    match first {
        Ok((l, j)) => {
            if j <= i || j > len {
                Err(err_expression(pos_of(tokens, i, eoi)))
            } else {
                parse_rest(tokens, floats, eoi, level, l, j)
            }
        },
        Err(x) => Err(x),
    }
}

/// Read an expression from token `at` (see [`p_level`]): the expression
/// and the index of the first token after it, or the first error. `floats`
/// gives, by token index, the bit pattern of each float literal; `eoi` is
/// the byte length of the text, the position of an error at its end.
pub fn parse_expr(tokens: &Vec<Tok>, floats: &Vec<u64>, eoi: usize, at: usize) -> (r: Result<(Expr, usize), ParseError>)
    ensures
        expr_res_v(r) == p_level(tokens@, floats@, eoi, 2, at as int),
{
    parse_level(tokens, floats, eoi, 2, at)
}


// ── Statements ───────────────────────────────────────────────────────────────

/// A parsed statement with its lists as sequences.
pub enum StmtV {
    Decl(String, Option<Type>, usize),
    Assign(ExprV, ExprV, usize),
    TypedAssign(String, Type, ExprV, usize),
    CompoundAssign(String, Op, ExprV, usize),
    Print(ExprV, usize),
    PrintInline(ExprV, usize),
    ExprStmt(ExprV, usize),
    Return(Option<ExprV>, usize),
    Block(Seq<StmtV>, usize),
    FuncDef(String, Seq<String>, Seq<ParamV>, Option<Type>, Seq<StmtV>, Option<ExprV>, usize),
    Other,
}

pub enum ParamV {
    Typed(String, Type),
    Copy(String),
    CopyFree(String),
    CopyInto(String, Seq<String>),
}

pub open spec fn param_v(p: ParamKind) -> ParamV {
    match p {
        ParamKind::Typed(n, t) => ParamV::Typed(n, t),
        ParamKind::Copy(n) => ParamV::Copy(n),
        ParamKind::CopyFree(n) => ParamV::CopyFree(n),
        ParamKind::CopyInto(n, ns) => ParamV::CopyInto(n, ns@),
    }
}

pub open spec fn params_v(s: Seq<ParamKind>) -> Seq<ParamV> {
    s.map_values(|p: ParamKind| param_v(p))
}

pub open spec fn stmt_v(s: Stmt) -> StmtV
    decreases s,
{
    match s {
        Stmt::Decl { name, ty, pos } => StmtV::Decl(name, ty, pos),
        Stmt::Assign { target, expr, pos_eq } => StmtV::Assign(expr_v(target), expr_v(expr), pos_eq),
        Stmt::TypedAssign { name, ty, expr, pos_type } => StmtV::TypedAssign(name, ty, expr_v(expr), pos_type),
        Stmt::CompoundAssign { name, op, operand, pos } => StmtV::CompoundAssign(name, op, expr_v(operand), pos),
        Stmt::Print { expr, pos } => StmtV::Print(expr_v(expr), pos),
        Stmt::PrintInline { expr, _pos } => StmtV::PrintInline(expr_v(expr), _pos),
        Stmt::ExprStmt { expr, _pos } => StmtV::ExprStmt(expr_v(expr), _pos),
        Stmt::Return { expr, pos } => StmtV::Return(
            match expr {
                Some(e) => Some(expr_v(e)),
                None => None,
            },
            pos,
        ),
        Stmt::Block { stmts, _pos } => StmtV::Block(stmts_v(stmts@), _pos),
        Stmt::FuncDef { name, type_params, params, ret_ty, body, ret_expr, pos } => StmtV::FuncDef(
            name,
            type_params@,
            params_v(params@),
            ret_ty,
            stmts_v(body@),
            match ret_expr {
                Some(e) => Some(expr_v(e)),
                None => None,
            },
            pos,
        ),
        _ => StmtV::Other,
    }
}

pub open spec fn stmts_v(s: Seq<Stmt>) -> Seq<StmtV>
    decreases s,
{
    if s.len() == 0 {
        Seq::empty()
    } else {
        stmts_v(s.drop_last()).push(stmt_v(s.last()))
    }
}

/// The position an expression statement reports: that of its operator,
/// name or call, 0 for a literal or a field read.
pub open spec fn ev_position(e: ExprV) -> usize {
    match e {
        ExprV::Ident(_, p) => p,
        ExprV::HandleVal(_, p) => p,
        ExprV::HandleDrop(_, p) => p,
        ExprV::Call(_, _, p) => p,
        ExprV::Unary(_, _, p) => p,
        ExprV::Bin(_, _, p, _) => p,
        _ => 0,
    }
}

pub open spec fn failed_statement() -> Seq<char> {
    "failed to parse statement"@
}

pub open spec fn expected_rcurly() -> Seq<char> {
    "expected closing '}'"@
}

/// The type a type-name token stands for.
pub open spec fn type_at(ts: Seq<Tok>, i: int) -> Option<Type> {
    match kind_at(ts, i) {
        Some(Token::TypeT8) => Some(Type::T8),
        Some(Token::TypeT16) => Some(Type::T16),
        Some(Token::TypeT32) => Some(Type::T32),
        Some(Token::TypeT64) => Some(Type::T64),
        Some(Token::TypeT128) => Some(Type::T128),
        Some(Token::TypeBool) => Some(Type::Bool),
        Some(Token::TypeStr) => Some(Type::Str),
        Some(Token::TypeChar) => Some(Type::Char),
        _ => None,
    }
}

/// Past an optional `;` at token `j`.
pub open spec fn opt_semi(ts: Seq<Tok>, j: int) -> int {
    if kind_at(ts, j) == Some(Token::PunctSemicolon) {
        j + 1
    } else {
        j
    }
}

/// `let name;` or `let name: type;`.
pub open spec fn a_decl(ts: Seq<Tok>, eoi: usize, i: int) -> Option<(StmtV, int)> {
    if kind_at(ts, i) == Some(Token::KeywordLet) && ident_at(ts, i + 1) is Some {
        let n = ident_at(ts, i + 1).unwrap();
        if kind_at(ts, i + 2) == Some(Token::PunctColon) && type_at(ts, i + 3) is Some && kind_at(ts, i + 4)
            == Some(Token::PunctSemicolon) {
            Some((StmtV::Decl(n, type_at(ts, i + 3), pos_at(ts, i, eoi)), i + 5))
        } else if kind_at(ts, i + 2) == Some(Token::PunctSemicolon) {
            Some((StmtV::Decl(n, None, pos_at(ts, i, eoi)), i + 3))
        } else {
            None
        }
    } else {
        None
    }
}

/// `print(expr)` (`inline`: `print!(expr)`), `;` optional.
pub open spec fn a_print(ts: Seq<Tok>, fl: Seq<u64>, eoi: usize, i: int, inline: bool) -> Option<(StmtV, int)> {
    let kw = if inline { Token::KeywordPrintInline } else { Token::KeywordPrint };
    if kind_at(ts, i) == Some(kw) && kind_at(ts, i + 1) == Some(Token::PunctParenOpen) {
        match p_level(ts, fl, eoi, 2, i + 2) {
            Ok((e, j)) => if kind_at(ts, j) == Some(Token::PunctParenClose) {
                let p = pos_at(ts, i, eoi);
                Some((if inline { StmtV::PrintInline(e, p) } else { StmtV::Print(e, p) }, opt_semi(ts, j + 1)))
            } else {
                None
            },
            Err(_) => None,
        }
    } else {
        None
    }
}

/// `return;` or `return expr;`.
pub open spec fn a_return(ts: Seq<Tok>, fl: Seq<u64>, eoi: usize, i: int) -> Option<(StmtV, int)> {
    if kind_at(ts, i) == Some(Token::KeywordReturn) {
        let (e, j) = match p_level(ts, fl, eoi, 2, i + 1) {
            Ok((e, j)) => (Some(e), j),
            Err(_) => (None, i + 1),
        };
        if kind_at(ts, j) == Some(Token::PunctSemicolon) {
            Some((StmtV::Return(e, pos_at(ts, i, eoi)), j + 1))
        } else {
            None
        }
    } else {
        None
    }
}

/// `name: type = expr`, `;` optional.
pub open spec fn a_typed(ts: Seq<Tok>, fl: Seq<u64>, eoi: usize, i: int) -> Option<(StmtV, int)> {
    if ident_at(ts, i) is Some && kind_at(ts, i + 1) == Some(Token::PunctColon) && type_at(ts, i + 2) is Some
        && kind_at(ts, i + 3) == Some(Token::OpAssign) {
        match p_level(ts, fl, eoi, 2, i + 4) {
            Ok((e, j)) => Some((
                StmtV::TypedAssign(ident_at(ts, i).unwrap(), type_at(ts, i + 2).unwrap(), e, pos_at(ts, i + 1, eoi)),
                opt_semi(ts, j),
            )),
            Err(_) => None,
        }
    } else {
        None
    }
}

/// The operator a compound assignment names.
pub open spec fn compound_op(t: Option<Token>) -> Option<Op> {
    match t {
        Some(Token::OpAdd) => Some(Op::Plus),
        Some(Token::OpSub) => Some(Op::Minus),
        Some(Token::OpMul) => Some(Op::Mul),
        Some(Token::OpDiv) => Some(Op::Div),
        Some(Token::OpMod) => Some(Op::Mod),
        _ => None,
    }
}

/// `name OP INTEGER =`, `;` optional.
pub open spec fn a_compound(ts: Seq<Tok>, eoi: usize, i: int) -> Option<(StmtV, int)> {
    if ident_at(ts, i) is Some && compound_op(kind_at(ts, i + 1)) is Some && kind_at(ts, i + 3) == Some(
        Token::OpAssign,
    ) {
        match kind_at(ts, i + 2) {
            Some(Token::LiteralInt(n)) => Some((
                StmtV::CompoundAssign(
                    ident_at(ts, i).unwrap(),
                    compound_op(kind_at(ts, i + 1)).unwrap(),
                    ExprV::Val(AstValue::Num(n)),
                    pos_at(ts, i, eoi),
                ),
                opt_semi(ts, i + 4),
            )),
            _ => None,
        }
    } else {
        None
    }
}

/// `name = expr` or `name.field = expr`, `;` optional.
pub open spec fn a_assign(ts: Seq<Tok>, fl: Seq<u64>, eoi: usize, i: int) -> Option<(StmtV, int)> {
    if ident_at(ts, i) is Some {
        let n = ident_at(ts, i).unwrap();
        let has_field = kind_at(ts, i + 1) == Some(Token::PunctDot) && ident_at(ts, i + 2) is Some;
        let target = if has_field {
            ExprV::DotAccess(n, ident_at(ts, i + 2).unwrap())
        } else {
            ExprV::Ident(n, pos_at(ts, i, eoi))
        };
        let j = if has_field { i + 3 } else { i + 1 };
        if kind_at(ts, j) == Some(Token::OpAssign) {
            match p_level(ts, fl, eoi, 2, j + 1) {
                Ok((e, k)) => Some((StmtV::Assign(target, e, pos_at(ts, j, eoi)), opt_semi(ts, k))),
                Err(_) => None,
            }
        } else {
            None
        }
    } else {
        None
    }
}

/// An expression statement, `;` optional.
pub open spec fn a_expr(ts: Seq<Tok>, fl: Seq<u64>, eoi: usize, i: int) -> Option<(StmtV, int)> {
    match p_level(ts, fl, eoi, 2, i) {
        Ok((e, j)) => Some((StmtV::ExprStmt(e, ev_position(e)), opt_semi(ts, j))),
        Err(_) => None,
    }
}

/// A parameter from token `i`: `name: copy_into(a, ..)`, `name.copy`,
/// `name.copy.free`, or `name: type` (a parameter with no type and no
/// `copy` modifier does not read).
pub open spec fn a_param(ts: Seq<Tok>, i: int) -> Option<(ParamV, int)> {
    if ident_at(ts, i) is None {
        None
    } else {
        let n = ident_at(ts, i).unwrap();
        if kind_at(ts, i + 1) == Some(Token::PunctColon) && word_at(ts, i + 2, "copy_into"@) && kind_at(ts, i + 3)
            == Some(Token::PunctParenOpen) && names_from(ts, i + 4, Seq::empty()) is Some {
            let (ns, j) = names_from(ts, i + 4, Seq::empty()).unwrap();
            Some((ParamV::CopyInto(n, ns), j))
        } else {
            let m1 = if kind_at(ts, i + 1) == Some(Token::PunctDot) { ident_at(ts, i + 2) } else { None };
            let j1 = if m1 is Some { i + 3 } else { i + 1 };
            let m2 = if m1 is Some && kind_at(ts, j1) == Some(Token::PunctDot) { ident_at(ts, j1 + 1) } else { None };
            let j2 = if m2 is Some { j1 + 2 } else { j1 };
            let ty = if kind_at(ts, j2) == Some(Token::PunctColon) { type_at(ts, j2 + 1) } else { None };
            let j3 = if ty is Some { j2 + 2 } else { j2 };
            if m1 is Some && m1.unwrap()@ == "copy"@ && m2 is Some && m2.unwrap()@ == "free"@ {
                Some((ParamV::CopyFree(n), j3))
            } else if m1 is Some && m1.unwrap()@ == "copy"@ && m2 is None {
                Some((ParamV::Copy(n), j3))
            } else if ty is Some {
                Some((ParamV::Typed(n, ty.unwrap()), j3))
            } else {
                None
            }
        }
    }
}

/// A parameter list whose `(` is token `i`: the parameters and the
/// position after `)`.
pub open spec fn params_from(ts: Seq<Tok>, i: int, acc: Seq<ParamV>) -> Option<(Seq<ParamV>, int)>
    decreases ts.len() - i,
{
    if i < 0 || i >= ts.len() {
        None
    } else if acc.len() == 0 && kind_at(ts, i) == Some(Token::PunctParenClose) {
        Some((acc, i + 1))
    } else {
        match a_param(ts, i) {
            None => None,
            Some((pm, j)) => if j <= i || j > ts.len() {
                None
            } else if kind_at(ts, j) == Some(Token::PunctParenClose) {
                Some((acc.push(pm), j + 1))
            } else if kind_at(ts, j) == Some(Token::PunctComma) {
                params_from(ts, j + 1, acc.push(pm))
            } else {
                None
            },
        }
    }
}

/// An expression statement inside a function body: it must end in `;`.
pub open spec fn a_expr_semi(ts: Seq<Tok>, fl: Seq<u64>, eoi: usize, i: int) -> Option<(StmtV, int)> {
    match p_level(ts, fl, eoi, 2, i) {
        Ok((e, j)) => if kind_at(ts, j) == Some(Token::PunctSemicolon) {
            Some((StmtV::ExprStmt(e, ev_position(e)), j + 1))
        } else {
            None
        },
        Err(_) => None,
    }
}

/// One statement of a function body: declaration, function, `print`,
/// `print!`, `return`, typed assignment, assignment, block, or expression
/// with `;`.
pub open spec fn p_body_stmt(ts: Seq<Tok>, fl: Seq<u64>, eoi: usize, i: int) -> Option<(StmtV, int)>
    decreases ts.len() - i, 1nat,
{
    if a_decl(ts, eoi, i) is Some {
        a_decl(ts, eoi, i)
    } else if a_funcdef(ts, fl, eoi, i) is Some {
        a_funcdef(ts, fl, eoi, i)
    } else if a_print(ts, fl, eoi, i, false) is Some {
        a_print(ts, fl, eoi, i, false)
    } else if a_print(ts, fl, eoi, i, true) is Some {
        a_print(ts, fl, eoi, i, true)
    } else if a_return(ts, fl, eoi, i) is Some {
        a_return(ts, fl, eoi, i)
    } else if a_typed(ts, fl, eoi, i) is Some {
        a_typed(ts, fl, eoi, i)
    } else if a_assign(ts, fl, eoi, i) is Some {
        a_assign(ts, fl, eoi, i)
    } else if 0 <= i < ts.len() && kind_at(ts, i) == Some(Token::PunctBraceOpen) {
        a_block(ts, fl, eoi, i)
    } else {
        a_expr_semi(ts, fl, eoi, i)
    }
}

/// Function-body statements from token `i` for as long as one reads.
pub open spec fn p_body_stmts(ts: Seq<Tok>, fl: Seq<u64>, eoi: usize, i: int, acc: Seq<StmtV>) -> (Seq<StmtV>, int)
    decreases ts.len() - i, 2nat,
{
    if i < 0 || i >= ts.len() {
        (acc, i)
    } else {
        match p_body_stmt(ts, fl, eoi, i) {
            Some((s, j)) => if j <= i || j > ts.len() {
                (acc, i)
            } else {
                p_body_stmts(ts, fl, eoi, j, acc.push(s))
            },
            None => (acc, i),
        }
    }
}

/// `fnc name(params) -> type { statements expr }`; the return type and the
/// trailing expression are optional.
pub open spec fn a_funcdef(ts: Seq<Tok>, fl: Seq<u64>, eoi: usize, i: int) -> Option<(StmtV, int)>
    decreases ts.len() - i, 0nat,
{
    if 0 <= i < ts.len() && kind_at(ts, i) == Some(Token::KeywordFnc) && ident_at(ts, i + 1) is Some && kind_at(ts, i + 2)
        == Some(Token::PunctParenOpen) && params_from(ts, i + 3, Seq::empty()) is Some {
        let (ps, j) = params_from(ts, i + 3, Seq::empty()).unwrap();
        let ret = if kind_at(ts, j) == Some(Token::PunctArrow) { type_at(ts, j + 1) } else { None };
        let k = if ret is Some { j + 2 } else { j };
        if k <= i || k >= ts.len() || kind_at(ts, k) != Some(Token::PunctBraceOpen) {
            None
        } else {
            let (body, m) = p_body_stmts(ts, fl, eoi, k + 1, Seq::empty());
            let (re, q) = match p_level(ts, fl, eoi, 2, m) {
                Ok((e, q)) => (Some(e), q),
                Err(_) => (None, m),
            };
            if kind_at(ts, q) == Some(Token::PunctBraceClose) {
                Some((
                    StmtV::FuncDef(ident_at(ts, i + 1).unwrap(), Seq::empty(), ps, ret, body, re, pos_at(ts, i, eoi)),
                    q + 1,
                ))
            } else {
                None
            }
        }
    } else {
        None
    }
}

/// Statements from token `i` for as long as one can be read.
pub open spec fn p_stmts(ts: Seq<Tok>, fl: Seq<u64>, eoi: usize, i: int, acc: Seq<StmtV>) -> (Seq<StmtV>, int)
    decreases ts.len() - i, 2nat,
{
    if i < 0 || i >= ts.len() {
        (acc, i)
    } else {
        match p_stmt(ts, fl, eoi, i) {
            Some((s, j)) => if j <= i || j > ts.len() {
                (acc, i)
            } else {
                p_stmts(ts, fl, eoi, j, acc.push(s))
            },
            None => (acc, i),
        }
    }
}

/// `{ statements }`.
pub open spec fn a_block(ts: Seq<Tok>, fl: Seq<u64>, eoi: usize, i: int) -> Option<(StmtV, int)>
    decreases ts.len() - i, 0nat,
{
    if 0 <= i < ts.len() && kind_at(ts, i) == Some(Token::PunctBraceOpen) {
        let (ss, j) = p_stmts(ts, fl, eoi, i + 1, Seq::empty());
        if kind_at(ts, j) == Some(Token::PunctBraceClose) {
            Some((StmtV::Block(ss, pos_at(ts, i, eoi)), j + 1))
        } else {
            None
        }
    } else {
        None
    }
}

/// One statement at token `i`: the first of declaration, `print`,
/// `print!`, `return`, typed assignment, compound assignment, assignment,
/// block and expression statement that reads.
pub open spec fn p_stmt(ts: Seq<Tok>, fl: Seq<u64>, eoi: usize, i: int) -> Option<(StmtV, int)>
    decreases ts.len() - i, 1nat,
{
    if a_decl(ts, eoi, i) is Some {
        a_decl(ts, eoi, i)
    } else if a_funcdef(ts, fl, eoi, i) is Some {
        a_funcdef(ts, fl, eoi, i)
    } else if a_print(ts, fl, eoi, i, false) is Some {
        a_print(ts, fl, eoi, i, false)
    } else if a_print(ts, fl, eoi, i, true) is Some {
        a_print(ts, fl, eoi, i, true)
    } else if a_return(ts, fl, eoi, i) is Some {
        a_return(ts, fl, eoi, i)
    } else if a_typed(ts, fl, eoi, i) is Some {
        a_typed(ts, fl, eoi, i)
    } else if a_compound(ts, eoi, i) is Some {
        a_compound(ts, eoi, i)
    } else if a_assign(ts, fl, eoi, i) is Some {
        a_assign(ts, fl, eoi, i)
    } else if 0 <= i < ts.len() && kind_at(ts, i) == Some(Token::PunctBraceOpen) {
        a_block(ts, fl, eoi, i)
    } else {
        a_expr(ts, fl, eoi, i)
    }
}


/// A whole program: statements up to the end of the tokens, or an error
/// at the first token where no statement reads.
pub open spec fn p_program(ts: Seq<Tok>, fl: Seq<u64>, eoi: usize) -> Result<Seq<StmtV>, (Seq<char>, int)> {
    let (ss, j) = p_stmts(ts, fl, eoi, 0, Seq::empty());
    if j >= ts.len() {
        Ok(ss)
    } else {
        Err((failed_statement(), pos_at(ts, j, eoi) as int))
    }
}

pub open spec fn opt_stmt_v(r: Option<(Stmt, usize)>) -> Option<(StmtV, int)> {
    match r {
        Some((s, j)) => Some((stmt_v(s), j as int)),
        None => None,
    }
}

fn type_of(tokens: &Vec<Tok>, i: usize) -> (r: Option<Type>)
    ensures
        r == type_at(tokens@, i as int),
{
    if i >= tokens.len() {
        return None;
    }
    match &tokens[i].kind {
        Token::TypeT8 => Some(Type::T8),
        Token::TypeT16 => Some(Type::T16),
        Token::TypeT32 => Some(Type::T32),
        Token::TypeT64 => Some(Type::T64),
        Token::TypeT128 => Some(Type::T128),
        Token::TypeBool => Some(Type::Bool),
        Token::TypeStr => Some(Type::Str),
        Token::TypeChar => Some(Type::Char),
        _ => None,
    }
}

fn kind_is_semi(tokens: &Vec<Tok>, i: usize) -> (r: bool)
    ensures
        r == (kind_at(tokens@, i as int) == Some(Token::PunctSemicolon)),
{
    i < tokens.len() && match &tokens[i].kind {
        Token::PunctSemicolon => true,
        _ => false,
    }
}

fn kind_is_colon(tokens: &Vec<Tok>, i: usize) -> (r: bool)
    ensures
        r == (kind_at(tokens@, i as int) == Some(Token::PunctColon)),
{
    i < tokens.len() && match &tokens[i].kind {
        Token::PunctColon => true,
        _ => false,
    }
}

fn kind_is_assign(tokens: &Vec<Tok>, i: usize) -> (r: bool)
    ensures
        r == (kind_at(tokens@, i as int) == Some(Token::OpAssign)),
{
    i < tokens.len() && match &tokens[i].kind {
        Token::OpAssign => true,
        _ => false,
    }
}

fn kind_is_brace(tokens: &Vec<Tok>, i: usize, open: bool) -> (r: bool)
    ensures
        r == (kind_at(tokens@, i as int) == Some(
            if open {
                Token::PunctBraceOpen
            } else {
                Token::PunctBraceClose
            },
        )),
{
    i < tokens.len() && match &tokens[i].kind {
        Token::PunctBraceOpen => open,
        Token::PunctBraceClose => !open,
        _ => false,
    }
}

fn skip_semi(tokens: &Vec<Tok>, j: usize) -> (k: usize)
    ensures
        k == opt_semi(tokens@, j as int),
{
    let len = tokens.len();
    if kind_is_semi(tokens, j) {
        j + 1
    } else {
        j
    }
}

fn decl_alt(tokens: &Vec<Tok>, eoi: usize, i: usize) -> (r: Option<(Stmt, usize)>)
    ensures
        opt_stmt_v(r) == a_decl(tokens@, eoi, i as int),
{
    let len = tokens.len();
    if i < len && match &tokens[i].kind {
        Token::KeywordLet => true,
        _ => false,
    } && is_ident(tokens, i + 1) {
        let n = ident_of(tokens, i + 1).unwrap();
        if kind_is_colon(tokens, i + 2) && type_of(tokens, i + 3).is_some() && kind_is_semi(tokens, i + 4) {
            Some((Stmt::Decl { name: n, ty: type_of(tokens, i + 3), pos: pos_of(tokens, i, eoi) }, i + 5))
        } else if kind_is_semi(tokens, i + 2) {
            Some((Stmt::Decl { name: n, ty: None, pos: pos_of(tokens, i, eoi) }, i + 3))
        } else {
            None
        }
    } else {
        None
    }
}

fn print_alt(tokens: &Vec<Tok>, floats: &Vec<u64>, eoi: usize, i: usize, inline: bool) -> (r: Option<(Stmt, usize)>)
    ensures
        opt_stmt_v(r) == a_print(tokens@, floats@, eoi, i as int, inline),
{
    let len = tokens.len();
    let kw = i < len && match &tokens[i].kind {
        Token::KeywordPrint => !inline,
        Token::KeywordPrintInline => inline,
        _ => false,
    };
    if kw && is_paren_open(tokens, i + 1) {
        match parse_level(tokens, floats, eoi, 2, i + 2) {
            Ok((e, j)) => {
                if is_paren_close(tokens, j) {
                    let p = pos_of(tokens, i, eoi);
                    let k = skip_semi(tokens, j + 1);
                    if inline {
                        Some((Stmt::PrintInline { expr: e, _pos: p }, k))
                    } else {
                        Some((Stmt::Print { expr: e, pos: p }, k))
                    }
                } else {
                    None
                }
            },
            Err(_) => None,
        }
    } else {
        None
    }
}

fn return_alt(tokens: &Vec<Tok>, floats: &Vec<u64>, eoi: usize, i: usize) -> (r: Option<(Stmt, usize)>)
    ensures
        opt_stmt_v(r) == a_return(tokens@, floats@, eoi, i as int),
{
    let len = tokens.len();
    if i < len && match &tokens[i].kind {
        Token::KeywordReturn => true,
        _ => false,
    } {
        let (e, j) = match parse_level(tokens, floats, eoi, 2, i + 1) {
            Ok((e, j)) => (Some(e), j),
            Err(_) => (None, i + 1),
        };
        if kind_is_semi(tokens, j) {
            Some((Stmt::Return { expr: e, pos: pos_of(tokens, i, eoi) }, j + 1))
        } else {
            None
        }
    } else {
        None
    }
}

fn typed_alt(tokens: &Vec<Tok>, floats: &Vec<u64>, eoi: usize, i: usize) -> (r: Option<(Stmt, usize)>)
    ensures
        opt_stmt_v(r) == a_typed(tokens@, floats@, eoi, i as int),
{
    let len = tokens.len();
    if is_ident(tokens, i) && kind_is_colon(tokens, i + 1) && type_of(tokens, i + 2).is_some() && kind_is_assign(
        tokens,
        i + 3,
    ) {
        match parse_level(tokens, floats, eoi, 2, i + 4) {
            Ok((e, j)) => Some((
                Stmt::TypedAssign {
                    name: ident_of(tokens, i).unwrap(),
                    ty: type_of(tokens, i + 2).unwrap(),
                    expr: e,
                    pos_type: pos_of(tokens, i + 1, eoi),
                },
                skip_semi(tokens, j),
            )),
            Err(_) => None,
        }
    } else {
        None
    }
}

fn compound_op_of(tokens: &Vec<Tok>, i: usize) -> (r: Option<Op>)
    ensures
        r == compound_op(kind_at(tokens@, i as int)),
{
    if i >= tokens.len() {
        return None;
    }
    match &tokens[i].kind {
        Token::OpAdd => Some(Op::Plus),
        Token::OpSub => Some(Op::Minus),
        Token::OpMul => Some(Op::Mul),
        Token::OpDiv => Some(Op::Div),
        Token::OpMod => Some(Op::Mod),
        _ => None,
    }
}

fn compound_alt(tokens: &Vec<Tok>, eoi: usize, i: usize) -> (r: Option<(Stmt, usize)>)
    ensures
        opt_stmt_v(r) == a_compound(tokens@, eoi, i as int),
{
    let len = tokens.len();
    if is_ident(tokens, i) && len - i > 3 && compound_op_of(tokens, i + 1).is_some() && kind_is_assign(tokens, i + 3) {
        match &tokens[i + 2].kind {
            Token::LiteralInt(n) => Some((
                Stmt::CompoundAssign {
                    name: ident_of(tokens, i).unwrap(),
                    op: compound_op_of(tokens, i + 1).unwrap(),
                    operand: Expr::Val(AstValue::Num(*n)),
                    pos: pos_of(tokens, i, eoi),
                },
                skip_semi(tokens, i + 4),
            )),
            _ => None,
        }
    } else {
        None
    }
}

fn assign_alt(tokens: &Vec<Tok>, floats: &Vec<u64>, eoi: usize, i: usize) -> (r: Option<(Stmt, usize)>)
    ensures
        opt_stmt_v(r) == a_assign(tokens@, floats@, eoi, i as int),
{
    let len = tokens.len();
    if !is_ident(tokens, i) {
        return None;
    }
    let n = ident_of(tokens, i).unwrap();
    let has_field = is_dot(tokens, i + 1) && is_ident(tokens, i + 2);
    let target = if has_field {
        Expr::DotAccess(n, ident_of(tokens, i + 2).unwrap())
    } else {
        Expr::Ident(n, pos_of(tokens, i, eoi))
    };
    let j = if has_field {
        i + 3
    } else {
        i + 1
    };
    if kind_is_assign(tokens, j) {
        match parse_level(tokens, floats, eoi, 2, j + 1) {
            Ok((e, k)) => Some((Stmt::Assign { target, expr: e, pos_eq: pos_of(tokens, j, eoi) }, skip_semi(tokens, k))),
            Err(_) => None,
        }
    } else {
        None
    }
}

fn expr_position_of(e: &Expr) -> (p: usize)
    ensures
        p == ev_position(expr_v(*e)),
{
    match e {
        Expr::Ident(_, p) => *p,
        Expr::HandleVal(_, p) => *p,
        Expr::HandleDrop(_, p) => *p,
        Expr::Call(_, _, p) => *p,
        Expr::Unary(_, _, p) => *p,
        Expr::Bin(_, _, p, _) => *p,
        _ => 0,
    }
}

fn expr_alt(tokens: &Vec<Tok>, floats: &Vec<u64>, eoi: usize, i: usize) -> (r: Option<(Stmt, usize)>)
    ensures
        opt_stmt_v(r) == a_expr(tokens@, floats@, eoi, i as int),
{
    match parse_level(tokens, floats, eoi, 2, i) {
        Ok((e, j)) => {
            let p = expr_position_of(&e);
            Some((Stmt::ExprStmt { expr: e, _pos: p }, skip_semi(tokens, j)))
        },
        Err(_) => None,
    }
}

fn parse_stmts(tokens: &Vec<Tok>, floats: &Vec<u64>, eoi: usize, i: usize, acc: Vec<Stmt>) -> (r: (Vec<Stmt>, usize))
    ensures
        (stmts_v(r.0@), r.1 as int) == p_stmts(tokens@, floats@, eoi, i as int, stmts_v(acc@)),
    decreases tokens@.len() - i, 2nat,
{
    let len = tokens.len();
    if i >= len {
        return (acc, i);
    }
    match parse_stmt(tokens, floats, eoi, i) {
        Some((st, j)) => {
            if j <= i || j > len {
                (acc, i)
            } else {
                let mut acc = acc;
                let ghost before = acc@;
                acc.push(st);
                proof {
                    assert(acc@.drop_last() =~= before);
                }
                parse_stmts(tokens, floats, eoi, j, acc)
            }
        },
        None => (acc, i),
    }
}

fn block_alt(tokens: &Vec<Tok>, floats: &Vec<u64>, eoi: usize, i: usize) -> (r: Option<(Stmt, usize)>)
    ensures
        opt_stmt_v(r) == a_block(tokens@, floats@, eoi, i as int),
    decreases tokens@.len() - i, 0nat,
{
    let len = tokens.len();
    if i < len && kind_is_brace(tokens, i, true) {
        let empty: Vec<Stmt> = Vec::new();
        proof {
            assert(stmts_v(empty@) =~= Seq::<StmtV>::empty());
        }
        let (ss, j) = parse_stmts(tokens, floats, eoi, i + 1, empty);
        if kind_is_brace(tokens, j, false) {
            Some((Stmt::Block { stmts: ss, _pos: pos_of(tokens, i, eoi) }, j + 1))
        } else {
            None
        }
    } else {
        None
    }
}

fn parse_stmt(tokens: &Vec<Tok>, floats: &Vec<u64>, eoi: usize, i: usize) -> (r: Option<(Stmt, usize)>)
    ensures
        opt_stmt_v(r) == p_stmt(tokens@, floats@, eoi, i as int),
    decreases tokens@.len() - i, 1nat,
{
    let r = decl_alt(tokens, eoi, i);
    if r.is_some() {
        return r;
    }
    let r = funcdef_alt(tokens, floats, eoi, i);
    if r.is_some() {
        return r;
    }
    let r = print_alt(tokens, floats, eoi, i, false);
    if r.is_some() {
        return r;
    }
    let r = print_alt(tokens, floats, eoi, i, true);
    if r.is_some() {
        return r;
    }
    let r = return_alt(tokens, floats, eoi, i);
    if r.is_some() {
        return r;
    }
    let r = typed_alt(tokens, floats, eoi, i);
    if r.is_some() {
        return r;
    }
    let r = compound_alt(tokens, eoi, i);
    if r.is_some() {
        return r;
    }
    let r = assign_alt(tokens, floats, eoi, i);
    if r.is_some() {
        return r;
    }
    if i < tokens.len() && kind_is_brace(tokens, i, true) {
        block_alt(tokens, floats, eoi, i)
    } else {
        expr_alt(tokens, floats, eoi, i)
    }
}

fn param_alt(tokens: &Vec<Tok>, i: usize) -> (r: Option<(ParamKind, usize)>)
    ensures
        match r {
            Some((pm, j)) => a_param(tokens@, i as int) == Some((param_v(pm), j as int)),
            None => a_param(tokens@, i as int) is None,
        },
{
    let len = tokens.len();
    if !is_ident(tokens, i) {
        return None;
    }
    proof {
        reveal_strlit("copy_into");
        reveal_strlit("copy");
        reveal_strlit("free");
    }
    let n = ident_of(tokens, i).unwrap();
    if kind_is_colon(tokens, i + 1) && word_is(tokens, i + 2, "copy_into") && is_paren_open(tokens, i + 3) {
        match names_of(tokens, i + 4) {
            Some((ns, j)) => {
                return Some((ParamKind::CopyInto(n, ns), j));
            },
            None => {},
        }
    }
    let m1 = if is_dot(tokens, i + 1) {
        ident_of(tokens, i + 2)
    } else {
        None
    };
    let j1 = if m1.is_some() {
        i + 3
    } else {
        i + 1
    };
    let m2 = if m1.is_some() && is_dot(tokens, j1) {
        ident_of(tokens, j1 + 1)
    } else {
        None
    };
    let j2 = if m2.is_some() {
        j1 + 2
    } else {
        j1
    };
    let ty = if kind_is_colon(tokens, j2) {
        type_of(tokens, j2 + 1)
    } else {
        None
    };
    let j3 = if ty.is_some() {
        j2 + 2
    } else {
        j2
    };
    let c1 = match &m1 {
        Some(m) => crate::frontend::semantic::str_eq_string("copy", m),
        None => false,
    };
    let f2 = match &m2 {
        Some(m) => crate::frontend::semantic::str_eq_string("free", m),
        None => false,
    };
    if c1 && f2 {
        Some((ParamKind::CopyFree(n), j3))
    } else if c1 && m2.is_none() {
        Some((ParamKind::Copy(n), j3))
    } else {
        match ty {
            Some(t) => Some((ParamKind::Typed(n, t), j3)),
            None => None,
        }
    }
}

fn params_of(tokens: &Vec<Tok>, i: usize) -> (r: Option<(Vec<ParamKind>, usize)>)
    ensures
        match params_from(tokens@, i as int, Seq::empty()) {
            Some((ps, j)) => r matches Some((v, k)) && params_v(v@) == ps && k == j,
            None => r is None,
        },
{
    let len = tokens.len();
    let mut acc: Vec<ParamKind> = Vec::new();
    let mut k = i;
    proof {
        assert(params_v(acc@) =~= Seq::<ParamV>::empty());
    }
    loop
        invariant
            len == tokens@.len(),
            params_from(tokens@, i as int, Seq::empty()) == params_from(tokens@, k as int, params_v(acc@)),
        decreases len - k,
    {
        if k >= len {
            return None;
        }
        if acc.len() == 0 && is_paren_close(tokens, k) {
            return Some((acc, k + 1));
        }
        match param_alt(tokens, k) {
            None => {
                return None;
            },
            Some((pm, j)) => {
                if j <= k || j > len {
                    return None;
                }
                let ghost before = acc@;
                let ghost gp = pm;
                acc.push(pm);
                proof {
                    assert(params_v(acc@) =~= params_v(before).push(param_v(gp)));
                }
                if is_paren_close(tokens, j) {
                    return Some((acc, j + 1));
                } else if is_comma(tokens, j) {
                    k = j + 1;
                } else {
                    return None;
                }
            },
        }
    }
}

fn expr_semi_alt(tokens: &Vec<Tok>, floats: &Vec<u64>, eoi: usize, i: usize) -> (r: Option<(Stmt, usize)>)
    ensures
        opt_stmt_v(r) == a_expr_semi(tokens@, floats@, eoi, i as int),
{
    let len = tokens.len();
    match parse_level(tokens, floats, eoi, 2, i) {
        Ok((e, j)) => {
            if kind_is_semi(tokens, j) {
                let p = expr_position_of(&e);
                Some((Stmt::ExprStmt { expr: e, _pos: p }, j + 1))
            } else {
                None
            }
        },
        Err(_) => None,
    }
}

fn parse_body_stmt(tokens: &Vec<Tok>, floats: &Vec<u64>, eoi: usize, i: usize) -> (r: Option<(Stmt, usize)>)
    ensures
        opt_stmt_v(r) == p_body_stmt(tokens@, floats@, eoi, i as int),
    decreases tokens@.len() - i, 1nat,
{
    let r = decl_alt(tokens, eoi, i);
    if r.is_some() {
        return r;
    }
    let r = funcdef_alt(tokens, floats, eoi, i);
    if r.is_some() {
        return r;
    }
    let r = print_alt(tokens, floats, eoi, i, false);
    if r.is_some() {
        return r;
    }
    let r = print_alt(tokens, floats, eoi, i, true);
    if r.is_some() {
        return r;
    }
    let r = return_alt(tokens, floats, eoi, i);
    if r.is_some() {
        return r;
    }
    let r = typed_alt(tokens, floats, eoi, i);
    if r.is_some() {
        return r;
    }
    let r = assign_alt(tokens, floats, eoi, i);
    if r.is_some() {
        return r;
    }
    if i < tokens.len() && kind_is_brace(tokens, i, true) {
        block_alt(tokens, floats, eoi, i)
    } else {
        expr_semi_alt(tokens, floats, eoi, i)
    }
}

fn parse_body_stmts(tokens: &Vec<Tok>, floats: &Vec<u64>, eoi: usize, i: usize, acc: Vec<Stmt>) -> (r: (
    Vec<Stmt>,
    usize,
))
    ensures
        (stmts_v(r.0@), r.1 as int) == p_body_stmts(tokens@, floats@, eoi, i as int, stmts_v(acc@)),
    decreases tokens@.len() - i, 2nat,
{
    let len = tokens.len();
    if i >= len {
        return (acc, i);
    }
    match parse_body_stmt(tokens, floats, eoi, i) {
        Some((st, j)) => {
            if j <= i || j > len {
                (acc, i)
            } else {
                let mut acc = acc;
                let ghost before = acc@;
                acc.push(st);
                proof {
                    assert(acc@.drop_last() =~= before);
                }
                parse_body_stmts(tokens, floats, eoi, j, acc)
            }
        },
        None => (acc, i),
    }
}

fn funcdef_alt(tokens: &Vec<Tok>, floats: &Vec<u64>, eoi: usize, i: usize) -> (r: Option<(Stmt, usize)>)
    ensures
        opt_stmt_v(r) == a_funcdef(tokens@, floats@, eoi, i as int),
    decreases tokens@.len() - i, 0nat,
{
    let len = tokens.len();
    let is_fnc = i < len && match &tokens[i].kind {
        Token::KeywordFnc => true,
        _ => false,
    };
    if !(is_fnc && is_ident(tokens, i + 1) && is_paren_open(tokens, i + 2)) {
        return None;
    }
    let (ps, j) = match params_of(tokens, i + 3) {
        Some(x) => x,
        None => {
            return None;
        },
    };
    let is_arrow = j < len && match &tokens[j].kind {
        Token::PunctArrow => true,
        _ => false,
    };
    let ret = if is_arrow {
        type_of(tokens, j + 1)
    } else {
        None
    };
    let k = if ret.is_some() {
        j + 2
    } else {
        j
    };
    if k <= i || k >= len || !kind_is_brace(tokens, k, true) {
        return None;
    }
    let empty: Vec<Stmt> = Vec::new();
    proof {
        assert(stmts_v(empty@) =~= Seq::<StmtV>::empty());
    }
    let (body, m) = parse_body_stmts(tokens, floats, eoi, k + 1, empty);
    let (re, q) = match parse_level(tokens, floats, eoi, 2, m) {
        Ok((e, q)) => (Some(e), q),
        Err(_) => (None, m),
    };
    if kind_is_brace(tokens, q, false) {
        let name = ident_of(tokens, i + 1).unwrap();
        let type_params: Vec<String> = Vec::new();
        proof {
            assert(type_params@ =~= Seq::<String>::empty());
        }
        Some((
            Stmt::FuncDef { name, type_params, params: ps, ret_ty: ret, body, ret_expr: re, pos: pos_of(tokens, i, eoi) },
            q + 1,
        ))
    } else {
        None
    }
}

/// Read a whole program from its tokens (see [`p_program`]). `floats`
/// gives, by token index, the bit pattern of each float literal; `eoi` is
/// the byte length of the text.
pub fn parse_program(tokens: &Vec<Tok>, floats: &Vec<u64>, eoi: usize) -> (r: Result<Program, ParseError>)
    ensures
        match r {
            Ok(p) => p_program(tokens@, floats@, eoi) == Ok::<Seq<StmtV>, (Seq<char>, int)>(stmts_v(p.stmts@)),
            Err(e) => p_program(tokens@, floats@, eoi) == Err::<Seq<StmtV>, (Seq<char>, int)>(err_v(e)),
        },
{
    let empty: Vec<Stmt> = Vec::new();
    proof {
        assert(stmts_v(empty@) =~= Seq::<StmtV>::empty());
    }
    let (ss, j) = parse_stmts(tokens, floats, eoi, 0, empty);
    if j >= tokens.len() {
        Ok(Program { stmts: ss })
    } else {
        Err(ParseError { msg: "failed to parse statement".to_string(), pos: pos_of(tokens, j, eoi) })
    }
}

} // verus!
