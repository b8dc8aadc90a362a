//! Properties of semantic analysis that hold of every input.
use vstd::prelude::*;
use crate::frontend::ast::{AstValue, Expr, Op, Stmt, Type};
use crate::frontend::model::{fail, AnalyzerModel, ErrorModel, ExprModel, StmtModel};
use crate::frontend::rules::{
    bin_node, binary_rule, cast_to, expr_spec, program_run, stmt_spec, typed_assign_spec,
    while_unknown_msg,
};
use crate::frontend::semantic::{find_from, numeric, redeclared_msg, resolve_in, sem_eq, VarInfo};
use crate::frontend::semantic_types::{BindingId, SemanticType};

verus! {

proof fn lemma_find_from_push(s: Seq<(String, VarInfo)>, x: (String, VarInfo), name: Seq<char>, from: int)
    requires
        0 <= from <= s.len(),
        find_from(s, name, from) is None,
        x.0@ == name,
    ensures
        find_from(s.push(x), name, from) == Some(s.len() as int),
    decreases s.len() - from,
{
    if from < s.len() {
        lemma_find_from_push(s, x, name, from + 1);
    }
}

proof fn lemma_find_from_some_push(s: Seq<(String, VarInfo)>, x: (String, VarInfo), name: Seq<char>, from: int)
    requires
        0 <= from,
        find_from(s, name, from) is Some,
    ensures
        find_from(s.push(x), name, from) == find_from(s, name, from),
    decreases s.len() - from,
{
    if from < s.len() && s[from].0@ != name {
        lemma_find_from_some_push(s, x, name, from + 1);
    }
}

/// A declaration is what a lookup of its name finds next: the new variable,
/// with the binding drawn for it.
pub proof fn law_declare_then_lookup(
    m: AnalyzerModel,
    name: String,
    declared: Option<Type>,
    inferred: Option<SemanticType>,
    initialized: bool,
    pos: usize,
)
    requires
        m.scopes.len() >= 1,
        m.declare(name, declared, inferred, initialized, pos).0 is Ok,
    ensures
        ({
            let (r, m2) = m.declare(name, declared, inferred, initialized, pos);
            &&& r == Ok::<BindingId, ErrorModel>(BindingId(m.next_binding))
            &&& m2.lookup(name@) == Some(
                VarInfo { binding: BindingId(m.next_binding), declared, inferred, initialized },
            )
        }),
{
    let (r, m2) = m.declare(name, declared, inferred, initialized, pos);
    let top = m.scopes.last();
    let x = (name, VarInfo { binding: BindingId(m.next_binding), declared, inferred, initialized });
    lemma_find_from_push(top, x, name@, 0);
    let n = m2.scopes.len() as int;
    assert(m2.scopes[n - 1] == top.push(x));
    assert(resolve_in(m2.scopes, name@, n) == Some((n - 1, top.len() as int)));
}

/// A name cannot be declared twice in one scope: the second declaration is
/// refused with the redeclaration message (it still draws a binding id).
pub proof fn law_redeclaration_refused(
    m: AnalyzerModel,
    name: String,
    d1: Option<Type>,
    i1: Option<SemanticType>,
    init1: bool,
    p1: usize,
    d2: Option<Type>,
    i2: Option<SemanticType>,
    init2: bool,
    p2: usize,
)
    requires
        m.scopes.len() >= 1,
        m.declare(name, d1, i1, init1, p1).0 is Ok,
    ensures
        ({
            let m2 = m.declare(name, d1, i1, init1, p1).1;
            let (r, m3) = m2.declare(name, d2, i2, init2, p2);
            &&& r == fail::<BindingId>(redeclared_msg(name@), p2)
            &&& m3.scopes == m2.scopes
        }),
{
    let top = m.scopes.last();
    let x = (name, VarInfo { binding: BindingId(m.next_binding), declared: d1, inferred: i1, initialized: init1 });
    lemma_find_from_push(top, x, name@, 0);
}

/// Two declarations in a row get different binding ids.
pub proof fn law_bindings_are_distinct(
    m: AnalyzerModel,
    a: String,
    b: String,
    da: Option<Type>,
    db: Option<Type>,
    pos: usize,
)
    requires
        m.next_binding < u32::MAX,
        m.declare(a, da, None, false, pos).0 is Ok,
        m.declare(a, da, None, false, pos).1.declare(b, db, None, false, pos).0 is Ok,
    ensures
        m.declare(a, da, None, false, pos).0 != m.declare(a, da, None, false, pos).1.declare(
            b,
            db,
            None,
            false,
            pos,
        ).0,
{
}

/// Unknown propagates: an arithmetic, equality or ordering operator with
/// an `Unknown` operand gives an `Unknown` result, never an error.
pub proof fn law_unknown_operand_propagates(lhs: ExprModel, op: Op, pos: usize, rhs: ExprModel)
    requires
        lhs.ty == SemanticType::Unknown || rhs.ty == SemanticType::Unknown,
        !(op is And || op is Or),
    ensures
        binary_rule(lhs, op, pos, rhs) == Ok::<ExprModel, ErrorModel>(
            bin_node(SemanticType::Unknown, lhs, op, pos, rhs),
        ),
{
}

/// An `Unknown` value cannot decide a loop: a `while` whose condition is
/// `Unknown` is refused, and the analyzer is left as it was.
pub proof fn law_unknown_loop_condition_refused(m: AnalyzerModel, cond: Expr, body: Vec<Stmt>, pos: usize)
    requires
        expr_spec(m, cond) matches Ok(c) && c.ty == SemanticType::Unknown,
    ensures
        stmt_spec(m, Stmt::While { cond, body, pos }) == (fail::<StmtModel>(while_unknown_msg(), pos), m),
{
}

/// `==` between two operands of one type that has equality but is not a
/// number (`Bool`, `Char`, `Str`, `StrRef` or an enum) is a comparison of
/// the two operands as they are, of type `Bool`, never an error.
pub proof fn law_same_type_equality_is_bool(lhs: ExprModel, pos: usize, rhs: ExprModel)
    requires
        lhs.ty == rhs.ty,
        lhs.ty is Bool || lhs.ty is Char || lhs.ty is Str || lhs.ty is StrRef || lhs.ty is Enum,
    ensures
        binary_rule(lhs, Op::EqEq, pos, rhs) == Ok::<ExprModel, ErrorModel>(
            bin_node(SemanticType::Bool, lhs, Op::EqEq, pos, rhs),
        ),
{
    lemma_sem_eq_refl(lhs.ty);
}

/// Comparing two string literals with `==` is well typed: the statement
/// `"a" == "b";` analyses to a `Bool` comparison of the two strings.
pub proof fn law_string_equality_is_bool(m: AnalyzerModel, a: String, b: String, pos: usize, spos: usize)
    ensures
        ({
            let e = Expr::Bin(
                Box::new(Expr::Val(AstValue::Str(a))),
                Op::EqEq,
                pos,
                Box::new(Expr::Val(AstValue::Str(b))),
            );
            let la = expr_spec(m, Expr::Val(AstValue::Str(a)))->Ok_0;
            let lb = expr_spec(m, Expr::Val(AstValue::Str(b)))->Ok_0;
            let node = bin_node(SemanticType::Bool, la, Op::EqEq, pos, lb);
            &&& la.ty == SemanticType::Str && lb.ty == SemanticType::Str
            &&& expr_spec(m, e) == Ok::<ExprModel, ErrorModel>(node)
            &&& stmt_spec(m, Stmt::ExprStmt { expr: e, _pos: spos }) == (
                Ok::<StmtModel, ErrorModel>(StmtModel::ExprStmt { expr: node, pos: spos }),
                m,
            )
        }),
{
    let la = expr_spec(m, Expr::Val(AstValue::Str(a)))->Ok_0;
    let lb = expr_spec(m, Expr::Val(AstValue::Str(b)))->Ok_0;
    law_same_type_equality_is_bool(la, pos, lb);
}

/// Arithmetic typing: with no `Unknown` operand, `+ - * / %` is accepted
/// exactly when both operands are numbers; the result is `Numeric` if
/// either side is, else `F64` if either side is, else `I128`, and each
/// operand is brought to that type. Two numbers compared with `==` give
/// `Bool` after the same conversion.
pub proof fn law_arithmetic_typing(lhs: ExprModel, op: Op, pos: usize, rhs: ExprModel)
    requires
        op is Plus || op is Minus || op is Mul || op is Div || op is Mod,
        lhs.ty != SemanticType::Unknown,
        rhs.ty != SemanticType::Unknown,
    ensures
        binary_rule(lhs, op, pos, rhs) is Ok <==> numeric(lhs.ty) && numeric(rhs.ty),
        binary_rule(lhs, op, pos, rhs) matches Ok(e) ==> {
            let t = if lhs.ty == SemanticType::Numeric || rhs.ty == SemanticType::Numeric {
                SemanticType::Numeric
            } else if lhs.ty == SemanticType::F64 || rhs.ty == SemanticType::F64 {
                SemanticType::F64
            } else {
                SemanticType::I128
            };
            &&& e.ty == t
            &&& e == bin_node(t, cast_to(lhs, t), op, pos, cast_to(rhs, t))
            &&& sem_eq(cast_to(lhs, t).ty, t) && sem_eq(cast_to(rhs, t).ty, t)
        },
        numeric(lhs.ty) && numeric(rhs.ty) ==> (binary_rule(lhs, Op::EqEq, pos, rhs) matches Ok(e) && e.ty
            == SemanticType::Bool),
{
    if numeric(lhs.ty) && numeric(rhs.ty) {
        let t = crate::frontend::semantic::common_numeric(lhs.ty, rhs.ty);
        law_cast_reaches_target(lhs, t);
        law_cast_reaches_target(rhs, t);
    }
}

/// An ordering comparison is always accepted: it gives `Bool`, or
/// `Unknown` when an operand is unknown.
pub proof fn law_ordering_typing(lhs: ExprModel, op: Op, pos: usize, rhs: ExprModel)
    requires
        op is Lt || op is Gt || op is LtEq || op is GtEq,
    ensures
        binary_rule(lhs, op, pos, rhs) == Ok::<ExprModel, ErrorModel>(
            bin_node(
                if lhs.ty == SemanticType::Unknown || rhs.ty == SemanticType::Unknown {
                    SemanticType::Unknown
                } else {
                    SemanticType::Bool
                },
                lhs,
                op,
                pos,
                rhs,
            ),
        ),
{
}

pub proof fn lemma_sem_eq_refl(t: SemanticType)
    ensures
        sem_eq(t, t),
    decreases t,
{
    match t {
        SemanticType::Handle(inner) => lemma_sem_eq_refl(*inner),
        _ => {},
    }
}

/// An explicit cast brings a numeric value to a numeric target type.
pub proof fn law_cast_reaches_target(e: ExprModel, t: SemanticType)
    requires
        numeric(e.ty),
        numeric(t),
    ensures
        sem_eq(cast_to(e, t).ty, t),
{
    lemma_sem_eq_refl(t);
}

/// A numeric value assigned to a variable of a numeric type takes that
/// type.
pub proof fn law_typed_assignment_takes_declared_type(
    m: AnalyzerModel,
    name: String,
    ty: Type,
    expr: Expr,
    pos: usize,
)
    requires
        numeric(crate::frontend::semantic::sem_of_decl(ty)),
        expr_spec(m, expr) matches Ok(e) && numeric(e.ty),
        typed_assign_spec(m, name, ty, expr, pos).0 is Ok,
    ensures
        typed_assign_spec(m, name, ty, expr, pos).0 matches Ok(StmtModel::TypedAssign { expr: e2, .. })
            && sem_eq(e2.ty, crate::frontend::semantic::sem_of_decl(ty)),
{
    match expr_spec(m, expr) {
        Ok(e) => law_cast_reaches_target(e, crate::frontend::semantic::sem_of_decl(ty)),
        Err(_) => {},
    }
}

/// Every top-level statement is analysed, whatever the others give: each
/// one yields an analysed statement or an error.
pub proof fn law_every_statement_accounted(
    m: AnalyzerModel,
    ss: Seq<Stmt>,
    i: int,
    oks: Seq<StmtModel>,
    errs: Seq<ErrorModel>,
)
    requires
        0 <= i <= ss.len(),
    ensures
        ({
            let (o, e, _) = program_run(m, ss, i, oks, errs);
            o.len() + e.len() == oks.len() + errs.len() + ss.len() - i
        }),
    decreases ss.len() - i,
{
    if i < ss.len() {
        let (r, m2) = stmt_spec(m, ss[i]);
        match r {
            Ok(s) => law_every_statement_accounted(m2, ss, i + 1, oks.push(s), errs),
            Err(x) => law_every_statement_accounted(m2, ss, i + 1, oks, errs.push(x)),
        }
    }
}

} // verus!
