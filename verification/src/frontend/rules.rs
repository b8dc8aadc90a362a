//! The rules of semantic analysis, stated over the model: what analysing an
//! expression yields in a given state, and what analysing a statement yields
//! and leaves behind.
use vstd::prelude::*;
use crate::frontend::ast::{
    AstValue, CallArg, Expr, Op, ParamKind, Stmt, SuperGroupHandler, Type, WhenArm, WhenBody,
    WhenPattern,
};
use crate::frontend::model::{
    assoc_get, assoc_insert, fail, key_index, keys, AnalyzerModel, ArgModel, ArmModel, EnumInfoModel,
    EnumModel, ErrorModel, ExprModel, FuncInfoModel, FunctionModel, KindModel, StmtModel,
    groups_model, supers_model,
};
use crate::frontend::semantic::{
    classify, common_numeric, compatible, find_from, int_range, mismatch_msg, numeric, overflow_msg,
    placeholder_of, redeclared_msg, resolve_in, sem_eq, sem_of_decl, sem_of_value, some_stmt_returns,
    type_debug, VarInfo,
};
use crate::frontend::semantic_types::{
    BindingId, EnumId, EnumVariantId, FunctionId, ResolvedBinding, SemanticEnumVariant, SemanticLValue,
    SemanticParam, SemanticParamKind, SemanticType, SemanticValue, SemanticWhenPattern,
};
use crate::text::decimal;

verus! {

// ── Names and variables ──────────────────────────────────────────────────────

impl AnalyzerModel {
    /// Where `name` resolves, innermost scope first.
    pub open spec fn resolve(self, name: Seq<char>) -> Option<(int, int)> {
        resolve_in(self.scopes, name, self.scopes.len() as int)
    }

    /// The variable `name` resolves to.
    pub open spec fn lookup(self, name: Seq<char>) -> Option<VarInfo> {
        match self.resolve(name) {
            Some((i, j)) => Some(self.scopes[i][j].1),
            None => None,
        }
    }
}

/// The type a variable has: its declared type, else the type inferred from
/// its assignments, else `Numeric`.
pub open spec fn binding_ty(info: VarInfo) -> SemanticType {
    match info.declared {
        Some(d) => sem_of_decl(d),
        None => match info.inferred {
            Some(t) => t,
            None => SemanticType::Numeric,
        },
    }
}

/// A literal after analysis; an enum variant carries the ids it resolves
/// to, where it resolves.
pub open spec fn value_model(v: AstValue, enums: Seq<(String, EnumInfoModel)>) -> SemanticValue {
    match v {
        AstValue::Num(n) => SemanticValue::Num(n),
        AstValue::Float(b) => SemanticValue::Float(b),
        AstValue::Str(s) => SemanticValue::Str(s),
        AstValue::Bool(b) => SemanticValue::Bool(b),
        AstValue::Char(c) => SemanticValue::Char(c),
        AstValue::EnumVariant(enum_name, variant_name) => {
            let info = assoc_get(enums, enum_name@);
            SemanticValue::EnumVariant {
                enum_name,
                variant_name,
                enum_id: match info {
                    Some(i) => Some(i.id),
                    None => None,
                },
                variant_id: match info {
                    Some(i) => assoc_get(i.variants, variant_name@),
                    None => None,
                },
            }
        },
        AstValue::Unknown => SemanticValue::Unknown,
    }
}

/// `e` converted to `target` by an explicit cast where both are numeric
/// and differ; otherwise `e` itself.
pub open spec fn cast_to(e: ExprModel, target: SemanticType) -> ExprModel {
    if sem_eq(e.ty, target) || !numeric(e.ty) || !numeric(target) {
        e
    } else {
        ExprModel {
            ty: target,
            kind: KindModel::Cast { expr: Box::new(e), from: e.ty, to: target },
        }
    }
}

// ── Messages ─────────────────────────────────────────────────────────────────

pub open spec fn undeclared_msg(name: Seq<char>) -> Seq<char> {
    "use of undeclared variable '"@ + name + "'"@
}

pub open spec fn uninit_msg(name: Seq<char>) -> Seq<char> {
    "use of uninitialized variable '"@ + name + "'"@
}

pub open spec fn handle_strref_msg() -> Seq<char> {
    "cannot store a StrRef in a Handle — use an owned str instead"@
}

pub open spec fn undefined_fn_msg(name: Seq<char>) -> Seq<char> {
    "call to undefined function '"@ + name + "'"@
}

pub open spec fn arity_msg(name: Seq<char>, want: nat, got: nat) -> Seq<char> {
    "function '"@ + name + "' expects "@ + decimal(want) + " argument(s), got "@ + decimal(got)
}

pub open spec fn type_param_msg(t: Seq<char>, bound: SemanticType, k: nat, got: SemanticType) -> Seq<
    char,
> {
    "type parameter '"@ + t + "' is bound to "@ + type_debug(classify(bound)) + " but argument "@
        + decimal(k) + " has "@ + type_debug(classify(got))
}

pub open spec fn arg_msg(k: nat, name: Seq<char>, expected: SemanticType, got: SemanticType) -> Seq<
    char,
> {
    "argument "@ + decimal(k) + " to '"@ + name + "': expected "@ + type_debug(classify(expected))
        + ", got "@ + type_debug(classify(got))
}

pub open spec fn copy_undeclared_msg(name: Seq<char>) -> Seq<char> {
    "'.copy' argument '"@ + name + "' has not been declared"@
}

pub open spec fn copy_uninit_msg(name: Seq<char>) -> Seq<char> {
    "'.copy' argument '"@ + name + "' is not initialized"@
}

pub open spec fn into_undeclared_msg(name: Seq<char>) -> Seq<char> {
    "copy_into variable '"@ + name + "' has not been declared"@
}

pub open spec fn into_uninit_msg(name: Seq<char>) -> Seq<char> {
    "copy_into variable '"@ + name + "' is not initialized"@
}

pub open spec fn arith_msg(l: SemanticType, r: SemanticType) -> Seq<char> {
    "arithmetic requires numeric operands, got "@ + type_debug(classify(l)) + " and "@ + type_debug(
        classify(r),
    )
}

pub open spec fn compare_msg(l: SemanticType, r: SemanticType) -> Seq<char> {
    "cannot compare "@ + type_debug(classify(l)) + " == "@ + type_debug(classify(r))
}

pub open spec fn logic_msg(l: SemanticType, r: SemanticType) -> Seq<char> {
    "logical operation requires bool operands, got "@ + type_debug(classify(l)) + " and "@
        + type_debug(classify(r))
}

// ── Expressions ──────────────────────────────────────────────────────────────

pub open spec fn bin_node(ty: SemanticType, lhs: ExprModel, op: Op, pos: usize, rhs: ExprModel) -> ExprModel {
    ExprModel { ty, kind: KindModel::Binary { lhs: Box::new(lhs), op, pos, rhs: Box::new(rhs) } }
}

/// Types whose values `==` compares when both sides have that type.
pub open spec fn equatable(t: SemanticType) -> bool {
    t is Bool || t is Char || t is Str || t is StrRef || t is Enum
}

/// The typing rule of a binary operator on analysed operands: arithmetic
/// wants numbers and brings both to their common type, `==` compares two
/// numbers (after the same conversion) or two values of one equatable type,
/// orderings always give `Bool`, `&&`/`||` want booleans. An `Unknown`
/// operand makes the result `Unknown` (but for a failed `&&`/`||`).
pub open spec fn binary_rule(lhs: ExprModel, op: Op, pos: usize, rhs: ExprModel) -> Result<
    ExprModel,
    ErrorModel,
> {
    let unknown = lhs.ty == SemanticType::Unknown || rhs.ty == SemanticType::Unknown;
    match op {
        Op::Plus | Op::Minus | Op::Mul | Op::Div | Op::Mod => if unknown {
            Ok(bin_node(SemanticType::Unknown, lhs, op, pos, rhs))
        } else if !numeric(lhs.ty) || !numeric(rhs.ty) {
            fail(arith_msg(lhs.ty, rhs.ty), pos)
        } else {
            let t = common_numeric(lhs.ty, rhs.ty);
            Ok(bin_node(t, cast_to(lhs, t), op, pos, cast_to(rhs, t)))
        },
        Op::EqEq => if unknown {
            Ok(bin_node(SemanticType::Unknown, lhs, op, pos, rhs))
        } else if numeric(lhs.ty) && numeric(rhs.ty) {
            let t = common_numeric(lhs.ty, rhs.ty);
            Ok(bin_node(SemanticType::Bool, cast_to(lhs, t), op, pos, cast_to(rhs, t)))
        } else if sem_eq(lhs.ty, rhs.ty) && equatable(lhs.ty) {
            Ok(bin_node(SemanticType::Bool, lhs, op, pos, rhs))
        } else {
            fail(compare_msg(lhs.ty, rhs.ty), pos)
        },
        Op::Lt | Op::Gt | Op::LtEq | Op::GtEq => Ok(
            bin_node(if unknown { SemanticType::Unknown } else { SemanticType::Bool }, lhs, op, pos, rhs),
        ),
        Op::And | Op::Or => if (lhs.ty is Bool || lhs.ty is Unknown) && (rhs.ty is Bool
            || rhs.ty is Unknown) {
            Ok(bin_node(if unknown { SemanticType::Unknown } else { SemanticType::Bool }, lhs, op, pos, rhs))
        } else {
            fail(logic_msg(lhs.ty, rhs.ty), pos)
        },
    }
}

/// What reading variable `name` yields: an error where it is undeclared or
/// uninitialized, else its record.
pub open spec fn read_var(m: AnalyzerModel, name: Seq<char>, pos: usize) -> Result<VarInfo, ErrorModel> {
    match m.lookup(name) {
        None => fail(undeclared_msg(name), pos),
        Some(info) => if !info.initialized {
            fail(uninit_msg(name), pos)
        } else {
            Ok(info)
        },
    }
}

/// The analysis of an expression in state `m` (which it leaves unchanged).
pub open spec fn expr_spec(m: AnalyzerModel, e: Expr) -> Result<ExprModel, ErrorModel>
    decreases e, 0nat,
{
    match e {
        Expr::Val(v) => Ok(
            ExprModel { ty: sem_of_value(v), kind: KindModel::Value(value_model(v, m.enums)) },
        ),
        Expr::Ident(name, pos) => match read_var(m, name@, pos) {
            Err(x) => Err(x),
            Ok(info) => Ok(
                ExprModel {
                    ty: binding_ty(info),
                    kind: KindModel::VarRef { binding: info.binding, name },
                },
            ),
        },
        Expr::DotAccess(container, field) => match read_var(m, container@, 0) {
            Err(x) => Err(x),
            Ok(info) => Ok(
                ExprModel {
                    ty: SemanticType::I128,
                    kind: KindModel::DotAccess { binding: Some(info.binding), container, field },
                },
            ),
        },
        Expr::HandleNew(inner, pos) => match expr_spec(m, *inner) {
            Err(x) => Err(x),
            Ok(v) => if v.ty == SemanticType::StrRef {
                fail(handle_strref_msg(), pos)
            } else {
                Ok(
                    ExprModel {
                        ty: SemanticType::Handle(Box::new(SemanticType::I128)),
                        kind: KindModel::HandleNew { value: Box::new(v), pos },
                    },
                )
            },
        },
        Expr::HandleVal(name, pos) => match read_var(m, name@, pos) {
            Err(x) => Err(x),
            Ok(info) => Ok(
                ExprModel {
                    ty: SemanticType::I128,
                    kind: KindModel::HandleVal { binding: info.binding, name, pos },
                },
            ),
        },
        Expr::HandleDrop(name, pos) => match read_var(m, name@, pos) {
            Err(x) => Err(x),
            Ok(info) => Ok(
                ExprModel {
                    ty: SemanticType::Handle(Box::new(SemanticType::I128)),
                    kind: KindModel::HandleDrop { binding: info.binding, name, pos },
                },
            ),
        },
        Expr::Call(name, args, pos) => call_spec(m, name, args@, pos),
        Expr::Range(start, end, inclusive) => match expr_spec(m, *start) {
            Err(x) => Err(x),
            Ok(a) => match expr_spec(m, *end) {
                Err(x) => Err(x),
                Ok(b) => Ok(
                    ExprModel {
                        ty: SemanticType::I128,
                        kind: KindModel::Range { start: Box::new(a), end: Box::new(b), inclusive },
                    },
                ),
            },
        },
        Expr::Unary(op, inner, pos) => match expr_spec(m, *inner) {
            Err(x) => Err(x),
            Ok(a) => Ok(ExprModel { ty: a.ty, kind: KindModel::Unary { op, expr: Box::new(a), pos } }),
        },
        Expr::Bin(lhs, op, pos, rhs) => match expr_spec(m, *lhs) {
            Err(x) => Err(x),
            Ok(a) => match expr_spec(m, *rhs) {
                Err(x) => Err(x),
                Ok(b) => binary_rule(a, op, pos, b),
            },
        },
    }
}

/// The id a call of the built-in `is_known` resolves to.
pub open spec fn builtin_id() -> FunctionId {
    FunctionId(4294967295)
}

/// A call: the built-in `is_known` takes one expression and gives `Bool`;
/// any other name must be a known function taking as many arguments as
/// given. Type parameters are bound first, from the arguments in order,
/// then each argument is analysed against its parameter; the call has the
/// function's return type, `I128` where it has none.
pub open spec fn call_spec(m: AnalyzerModel, name: String, args: Seq<CallArg>, pos: usize) -> Result<
    ExprModel,
    ErrorModel,
>
    decreases args, args.len() + 1,
{
    if name@ == "is_known"@ {
        if args.len() > 0 {
            match args[0] {
                CallArg::Expr(e) => match expr_spec(m, e) {
                    Err(x) => Err(x),
                    Ok(a) => Ok(
                        ExprModel {
                            ty: SemanticType::Bool,
                            kind: KindModel::Call {
                                callee: name,
                                function: builtin_id(),
                                args: seq![ArgModel::Expr(a)],
                            },
                        },
                    ),
                },
                _ => fail(undefined_fn_msg(name@), pos),
            }
        } else {
            fail(undefined_fn_msg(name@), pos)
        }
    } else {
        match assoc_get(m.funcs, name@) {
            None => fail(undefined_fn_msg(name@), pos),
            Some(f) => if args.len() != f.params.len() {
                fail(arity_msg(name@, f.params.len(), args.len()), pos)
            } else {
                let bound = if f.type_params.len() == 0 {
                    Ok(Seq::empty())
                } else {
                    bind_type_params(m, f, args, 0, Seq::empty(), pos)
                };
                match bound {
                    Err(x) => Err(x),
                    Ok(tmap) => match resolve_args(m, name, f, tmap, args, 0, Seq::empty(), pos) {
                        Err(x) => Err(x),
                        Ok(margs) => Ok(
                            ExprModel {
                                ty: match f.ret_ty {
                                    Some(t) => t,
                                    None => SemanticType::I128,
                                },
                                kind: KindModel::Call { callee: name, function: f.id, args: margs },
                            },
                        ),
                    },
                }
            },
        }
    }
}

/// The type parameters bound by the arguments from `i` on, starting from
/// the bindings `tmap`: an expression argument whose parameter has a
/// type-parameter type binds it to the argument's type, or must agree with
/// the earlier binding.
pub open spec fn bind_type_params(
    m: AnalyzerModel,
    f: FuncInfoModel,
    args: Seq<CallArg>,
    i: int,
    tmap: Seq<(String, SemanticType)>,
    pos: usize,
) -> Result<Seq<(String, SemanticType)>, ErrorModel>
    decreases args, args.len() - i,
{
    if i < 0 || i >= args.len() {
        Ok(tmap)
    } else {
        let next = if i < f.params.len() {
            match f.params[i].ty {
                Some(SemanticType::TypeParam(t)) => match args[i] {
                    CallArg::Expr(e) => match expr_spec(m, e) {
                        Err(x) => Err(x),
                        Ok(a) => match assoc_get(tmap, t@) {
                            Some(b) => if !compatible(b, a.ty) {
                                fail(type_param_msg(t@, b, (i + 1) as nat, a.ty), pos)
                            } else {
                                Ok(tmap)
                            },
                            None => Ok(assoc_insert(tmap, t, a.ty)),
                        },
                    },
                    _ => Ok(tmap),
                },
                _ => Ok(tmap),
            }
        } else {
            Ok(tmap)
        };
        match next {
            Err(x) => Err(x),
            Ok(t2) => bind_type_params(m, f, args, i + 1, t2, pos),
        }
    }
}

/// The type argument `i` is checked against: its parameter's type, with a
/// bound type parameter replaced by what it is bound to.
pub open spec fn expected_ty(f: FuncInfoModel, tmap: Seq<(String, SemanticType)>, i: int) -> Option<
    SemanticType,
> {
    if 0 <= i < f.params.len() {
        match f.params[i].ty {
            None => None,
            Some(t) => match t {
                SemanticType::TypeParam(n) => match assoc_get(tmap, n@) {
                    Some(b) => Some(b),
                    None => Some(t),
                },
                _ => Some(t),
            },
        }
    } else {
        None
    }
}

/// The arguments from `i` on of a call of `name`, analysed in order and
/// appended to `acc`.
pub open spec fn resolve_args(
    m: AnalyzerModel,
    name: String,
    f: FuncInfoModel,
    tmap: Seq<(String, SemanticType)>,
    args: Seq<CallArg>,
    i: int,
    acc: Seq<ArgModel>,
    pos: usize,
) -> Result<Seq<ArgModel>, ErrorModel>
    decreases args, args.len() - i,
{
    if i < 0 || i >= args.len() {
        Ok(acc)
    } else {
        let next: Result<ArgModel, ErrorModel> = match args[i] {
            CallArg::Expr(e) => match expr_spec(m, e) {
                Err(x) => Err(x),
                Ok(a) => match expected_ty(f, tmap, i) {
                    Some(t) => if !compatible(t, a.ty) {
                        fail(arg_msg((i + 1) as nat, name@, t, a.ty), pos)
                    } else {
                        Ok(ArgModel::Expr(cast_to(a, t)))
                    },
                    None => Ok(ArgModel::Expr(a)),
                },
            },
            CallArg::Copy(outer) => match m.lookup(outer@) {
                None => fail(copy_undeclared_msg(outer@), pos),
                Some(info) => if !info.initialized {
                    fail(copy_uninit_msg(outer@), pos)
                } else {
                    Ok(ArgModel::Copy { binding: info.binding, name: outer })
                },
            },
            CallArg::CopyFree(outer) => match m.lookup(outer@) {
                None => fail(copy_undeclared_msg(outer@), pos),
                Some(info) => if !info.initialized {
                    fail(copy_uninit_msg(outer@), pos)
                } else {
                    Ok(ArgModel::CopyFree { binding: info.binding, name: outer })
                },
            },
            CallArg::CopyInto(outers) => match resolve_into(m, outers@, 0, Seq::empty(), pos) {
                Err(x) => Err(x),
                Ok(rs) => Ok(ArgModel::CopyInto(rs)),
            },
        };
        match next {
            Err(x) => Err(x),
            Ok(a) => resolve_args(m, name, f, tmap, args, i + 1, acc.push(a), pos),
        }
    }
}

/// The variables from `i` on of a `copy_into` argument, resolved and
/// appended to `acc`.
pub open spec fn resolve_into(
    m: AnalyzerModel,
    names: Seq<String>,
    i: int,
    acc: Seq<ResolvedBinding>,
    pos: usize,
) -> Result<Seq<ResolvedBinding>, ErrorModel>
    decreases names.len() - i,
{
    if i < 0 || i >= names.len() {
        Ok(acc)
    } else {
        let n = names[i];
        match m.lookup(n@) {
            None => fail(into_undeclared_msg(n@), pos),
            Some(info) => if !info.initialized {
                fail(into_uninit_msg(n@), pos)
            } else {
                resolve_into(m, names, i + 1, acc.push(ResolvedBinding { binding: info.binding, name: n }), pos)
            },
        }
    }
}

/// The analyzer before anything is analysed: one empty scope, no function
/// being analysed, nothing known, every id counter at 0.
pub open spec fn initial_model() -> AnalyzerModel {
    AnalyzerModel {
        scopes: seq![Seq::empty()],
        ret_ty: None,
        in_function: false,
        funcs: Seq::empty(),
        enums: Seq::empty(),
        enum_defs: Seq::empty(),
        next_binding: 0,
        next_function: 0,
        next_enum: 0,
        next_variant: 0,
    }
}

// ── State changes ────────────────────────────────────────────────────────────

impl AnalyzerModel {
    pub open spec fn fresh_binding(self) -> (BindingId, AnalyzerModel) {
        (BindingId(self.next_binding), AnalyzerModel { next_binding: (self.next_binding + 1) as u32, ..self })
    }

    pub open spec fn fresh_function(self) -> (FunctionId, AnalyzerModel) {
        (FunctionId(self.next_function), AnalyzerModel { next_function: (self.next_function + 1) as u32, ..self })
    }

    /// Declare `name` in the innermost scope. The binding id is drawn
    /// first; a name already declared in that scope is an error.
    pub open spec fn declare(
        self,
        name: String,
        declared: Option<Type>,
        inferred: Option<SemanticType>,
        initialized: bool,
        pos: usize,
    ) -> (Result<BindingId, ErrorModel>, AnalyzerModel) {
        let (b, m) = self.fresh_binding();
        let top = m.scopes.last();
        if find_from(top, name@, 0) is Some {
            (fail(redeclared_msg(name@), pos), m)
        } else {
            (
                Ok(b),
                m.with_scopes(
                    m.scopes.update(
                        m.scopes.len() - 1,
                        top.push((name, VarInfo { binding: b, declared, inferred, initialized })),
                    ),
                ),
            )
        }
    }

    /// Room for `c` more ids of every kind.
    pub open spec fn room(self, c: nat) -> bool {
        &&& self.next_binding + c <= u32::MAX
        &&& self.next_function + c <= u32::MAX
        &&& self.next_enum + c <= u32::MAX
        &&& self.next_variant + c <= u32::MAX
    }

    /// At most `c` ids of each kind were drawn since `before`.
    pub open spec fn spent(self, before: AnalyzerModel, c: nat) -> bool {
        &&& before.next_binding <= self.next_binding <= before.next_binding + c
        &&& before.next_function <= self.next_function <= before.next_function + c
        &&& before.next_enum <= self.next_enum <= before.next_enum + c
        &&& before.next_variant <= self.next_variant <= before.next_variant + c
    }
}

pub open spec fn opt_sem(t: Option<Type>) -> Option<SemanticType> {
    match t {
        Some(x) => Some(sem_of_decl(x)),
        None => None,
    }
}

// ── Enum declarations ────────────────────────────────────────────────────────

/// The variants of a group list with the group each belongs to, in order.
pub open spec fn groups_flat(gs: Seq<(String, Seq<String>)>) -> Seq<(String, Option<String>)>
    decreases gs.len(),
{
    if gs.len() == 0 {
        Seq::empty()
    } else {
        groups_flat(gs.drop_last()) + gs.last().1.map_values(|v: String| (v, Some(gs.last().0)))
    }
}

/// The variants of the sub-groups of a super-group list, in order.
pub open spec fn supers_flat(ss: Seq<(String, Seq<(String, Seq<String>)>)>) -> Seq<(String, Option<String>)>
    decreases ss.len(),
{
    if ss.len() == 0 {
        Seq::empty()
    } else {
        supers_flat(ss.drop_last()) + groups_flat(ss.last().1)
    }
}

/// Every variant an enum declares, with its group: the plain variants,
/// then those of the groups, then those of the super-groups' sub-groups.
pub open spec fn declared_variants(
    variants: Seq<String>,
    groups: Seq<(String, Seq<String>)>,
    supers: Seq<(String, Seq<(String, Seq<String>)>)>,
) -> Seq<(String, Option<String>)> {
    variants.map_values(|v: String| (v, None::<String>)) + groups_flat(groups) + supers_flat(supers)
}

/// Variant name to id after the first `k` declared variants got ids from
/// `start` on (a later variant of the same name takes the name over).
pub open spec fn variant_ids(decl: Seq<(String, Option<String>)>, start: u32, k: int) -> Seq<
    (String, EnumVariantId),
>
    decreases k,
{
    if k <= 0 || k > decl.len() {
        Seq::empty()
    } else {
        assoc_insert(variant_ids(decl, start, k - 1), decl[k - 1].0, EnumVariantId((start + k - 1) as u32))
    }
}

/// The ids of the named variants that have one, in order.
pub open spec fn ids_of(ids: Seq<(String, EnumVariantId)>, names: Seq<String>) -> Seq<EnumVariantId>
    decreases names.len(),
{
    if names.len() == 0 {
        Seq::empty()
    } else {
        ids_of(ids, names.drop_last()) + match assoc_get(ids, names.last()@) {
            Some(id) => seq![id],
            None => Seq::empty(),
        }
    }
}

/// Each group with the ids of its variants.
pub open spec fn group_defs(ids: Seq<(String, EnumVariantId)>, gs: Seq<(String, Seq<String>)>) -> Seq<
    (String, Seq<EnumVariantId>),
> {
    gs.map_values(|g: (String, Seq<String>)| (g.0, ids_of(ids, g.1)))
}

/// Each sub-group of each super-group with the ids of its variants.
pub open spec fn super_group_defs(
    ids: Seq<(String, EnumVariantId)>,
    ss: Seq<(String, Seq<(String, Seq<String>)>)>,
) -> Seq<(String, Seq<EnumVariantId>)>
    decreases ss.len(),
{
    if ss.len() == 0 {
        Seq::empty()
    } else {
        super_group_defs(ids, ss.drop_last()) + group_defs(ids, ss.last().1)
    }
}

/// Declaring an enum: a fresh enum id, a fresh variant id for every
/// declared variant in order, its groups (plain, then sub-groups of the
/// super-groups) with their variants' ids; the enum is recorded by name
/// and appended to the declared enums.
pub open spec fn declare_enum_spec(
    m: AnalyzerModel,
    name: String,
    variants: Seq<String>,
    groups: Seq<(String, Seq<String>)>,
    supers: Seq<(String, Seq<(String, Seq<String>)>)>,
) -> (EnumModel, AnalyzerModel) {
    let enum_id = EnumId(m.next_enum);
    let decl = declared_variants(variants, groups, supers);
    let start = m.next_variant;
    let ids = variant_ids(decl, start, decl.len() as int);
    let e = EnumModel {
        id: enum_id,
        name,
        declared_ty: Type::Enum(name),
        variants: Seq::new(
            decl.len(),
            |k: int|
                SemanticEnumVariant {
                    id: EnumVariantId((start + k) as u32),
                    name: decl[k].0,
                    enum_id,
                    group: decl[k].1,
                },
        ),
        groups: group_defs(ids, groups) + super_group_defs(ids, supers),
    };
    let info = EnumInfoModel { id: enum_id, variants: ids, groups, super_groups: supers };
    (
        e,
        AnalyzerModel {
            next_enum: (m.next_enum + 1) as u32,
            next_variant: (start + decl.len()) as u32,
            enums: assoc_insert(m.enums, name, info),
            enum_defs: m.enum_defs.push(e),
            ..m
        },
    )
}

pub open spec fn groups_len(gs: Seq<(String, Seq<String>)>) -> nat
    decreases gs.len(),
{
    if gs.len() == 0 {
        0
    } else {
        groups_len(gs.drop_last()) + gs.last().1.len()
    }
}

pub open spec fn supers_len(ss: Seq<(String, Seq<(String, Seq<String>)>)>) -> nat
    decreases ss.len(),
{
    if ss.len() == 0 {
        0
    } else {
        supers_len(ss.drop_last()) + groups_len(ss.last().1)
    }
}

// ── Statement messages ───────────────────────────────────────────────────────

pub open spec fn strref_assign_msg() -> Seq<char> {
    "cannot assign a StrRef to a variable — use an owned str instead"@
}

pub open spec fn bad_target_msg() -> Seq<char> {
    "bad assignment target"@
}

pub open spec fn unknown_group_msg(g: Seq<char>) -> Seq<char> {
    "'"@ + g + "' is not a known group or super-group name"@
}

pub open spec fn handler_list_msg() -> Seq<char> {
    "super-group handler list is only valid on a group pattern arm"@
}

pub open spec fn unknown_super_msg(g: Seq<char>) -> Seq<char> {
    "'"@ + g + "' is not a known super-group name"@
}

pub open spec fn handler_count_msg(g: Seq<char>, subs: nat, handlers: nat) -> Seq<char> {
    "super-group '"@ + g + "' has "@ + decimal(subs) + " sub-groups but "@ + decimal(handlers)
        + " handlers were provided"@
}

pub open spec fn placeholder_msg(k: nat, sub: Seq<char>) -> Seq<char> {
    "{_} at position "@ + decimal(k) + " covers sub-group '"@ + sub + "' but no explicit arm for '"@
        + sub + "' exists in this when block"@
}

pub open spec fn while_unknown_msg() -> Seq<char> {
    "Unknown value cannot be used as a loop condition â€” control-critical context"@
}

pub open spec fn return_strref_msg() -> Seq<char> {
    "cannot return a StrRef — it does not outlive its origin scope"@
}

pub open spec fn return_mismatch_msg(expected: SemanticType, got: SemanticType) -> Seq<char> {
    "return type mismatch: expected "@ + type_debug(classify(expected)) + ", got "@ + type_debug(
        classify(got),
    )
}

pub open spec fn missing_return_msg(expected: SemanticType) -> Seq<char> {
    "missing return value, expected "@ + type_debug(classify(expected))
}

pub open spec fn return_outside_msg() -> Seq<char> {
    "return used outside function body"@
}

pub open spec fn void_return_msg() -> Seq<char> {
    "unexpected return value in void function"@
}

pub open spec fn readonly_msg(var: Seq<char>) -> Seq<char> {
    "loop variable '"@ + var + "' is read-only"@
}

// ── Simple statements ────────────────────────────────────────────────────────

/// Whether an integer literal `n` does not fit the sized type `ty`.
pub open spec fn overflows(ty: Type, n: u128) -> bool {
    match int_range(ty) {
        Some((_, max)) => n > max,
        None => false,
    }
}

/// `x = e`: the value is analysed first and may not be a `StrRef`. A plain
/// variable must be declared; a declared type must accept the value, which
/// is cast to it; an inferred type must accept it too, and is widened to
/// the value's type where both are numeric; a variable with neither takes
/// the value's type. The variable is initialized from then on. A field of
/// a container must be declared and initialized. Other targets are errors.
pub open spec fn assign_spec(m: AnalyzerModel, target: Expr, expr: Expr, pos_eq: usize) -> (Result<
    StmtModel,
    ErrorModel,
>, AnalyzerModel) {
    match expr_spec(m, expr) {
        Err(x) => (Err(x), m),
        Ok(e) => if e.ty == SemanticType::StrRef {
            (fail(strref_assign_msg(), pos_eq), m)
        } else {
            match target {
                Expr::Ident(name, _) => match m.resolve(name@) {
                    None => (fail(undeclared_msg(name@), pos_eq), m),
                    Some((i, j)) => {
                        let info = m.scopes[i][j].1;
                        let step: Result<(ExprModel, Option<SemanticType>), ErrorModel> = match info.declared {
                            Some(d) => if !compatible(sem_of_decl(d), e.ty) {
                                fail(mismatch_msg(sem_of_decl(d), e.ty), pos_eq)
                            } else {
                                Ok((cast_to(e, sem_of_decl(d)), info.inferred))
                            },
                            None => match info.inferred {
                                Some(t) => if !compatible(t, e.ty) {
                                    fail(mismatch_msg(t, e.ty), pos_eq)
                                } else if numeric(t) && numeric(e.ty) {
                                    Ok((e, Some(e.ty)))
                                } else {
                                    Ok((cast_to(e, t), info.inferred))
                                },
                                None => Ok((e, Some(e.ty))),
                            },
                        };
                        match step {
                            Err(x) => (Err(x), m),
                            Ok((e2, inferred)) => {
                                let info2 = VarInfo { inferred, initialized: true, ..info };
                                (
                                    Ok(
                                        StmtModel::Assign {
                                            target: SemanticLValue::Binding {
                                                binding: info.binding,
                                                name,
                                                ty: binding_ty(info2),
                                            },
                                            expr: e2,
                                            pos_eq,
                                        },
                                    ),
                                    m.with_scopes(
                                        m.scopes.update(i, m.scopes[i].update(j, (m.scopes[i][j].0, info2))),
                                    ),
                                )
                            },
                        }
                    },
                },
                Expr::DotAccess(container, field) => match read_var(m, container@, pos_eq) {
                    Err(x) => (Err(x), m),
                    Ok(info) => (
                        Ok(
                            StmtModel::Assign {
                                target: SemanticLValue::DotAccess {
                                    binding: Some(info.binding),
                                    container,
                                    field,
                                    ty: SemanticType::Numeric,
                                },
                                expr: e,
                                pos_eq,
                            },
                        ),
                        m,
                    ),
                },
                _ => (fail(bad_target_msg(), pos_eq), m),
            }
        },
    }
}

/// `x: T = e`: the value may not be a `StrRef`, an integer literal must fit
/// a sized `T`, and `T` must accept the value, which is cast to it; then
/// `x` is declared, typed and initialized.
pub open spec fn typed_assign_spec(m: AnalyzerModel, name: String, ty: Type, expr: Expr, pos_type: usize) -> (Result<
    StmtModel,
    ErrorModel,
>, AnalyzerModel) {
    let dt = sem_of_decl(ty);
    match expr_spec(m, expr) {
        Err(x) => (Err(x), m),
        Ok(e) => if e.ty == SemanticType::StrRef {
            (fail(strref_assign_msg(), pos_type), m)
        } else {
            let overflow: Option<ErrorModel> = match expr {
                Expr::Val(AstValue::Num(n)) => if overflows(ty, n) {
                    Some(ErrorModel { msg: overflow_msg(ty, n), pos: pos_type })
                } else {
                    None
                },
                _ => None,
            };
            match overflow {
                Some(x) => (Err(x), m),
                None => if !compatible(dt, e.ty) {
                    (fail(mismatch_msg(dt, e.ty), pos_type), m)
                } else {
                    let (r, m2) = m.declare(name, Some(ty), None, true, pos_type);
                    (
                        match r {
                            Err(x) => Err(x),
                            Ok(b) => Ok(
                                StmtModel::TypedAssign { binding: b, name, ty: dt, expr: cast_to(e, dt), pos_type },
                            ),
                        },
                        m2,
                    )
                },
            }
        },
    }
}

/// `return e`: only inside a function; the value must suit the function's
/// return type (and is cast to it), may not be a `StrRef`, and must be
/// present exactly when the function returns something.
pub open spec fn return_spec(m: AnalyzerModel, expr: Option<Expr>, pos: usize) -> (Result<
    StmtModel,
    ErrorModel,
>, AnalyzerModel) {
    if !m.in_function {
        (fail(return_outside_msg(), pos), m)
    } else {
        (
            match (expr, m.ret_ty) {
                (Some(x), Some(t)) => match expr_spec(m, x) {
                    Err(e) => Err(e),
                    Ok(a) => if a.ty == SemanticType::StrRef {
                        fail(return_strref_msg(), pos)
                    } else if !compatible(t, a.ty) {
                        fail(return_mismatch_msg(t, a.ty), pos)
                    } else {
                        Ok(StmtModel::Return { expr: Some(cast_to(a, t)), pos })
                    },
                },
                (None, None) => Ok(StmtModel::Return { expr: None, pos }),
                (None, Some(t)) => fail(missing_return_msg(t), pos),
                (Some(x), None) => match expr_spec(m, x) {
                    Err(e) => Err(e),
                    Ok(_) => fail(void_return_msg(), pos),
                },
            },
            m,
        )
    }
}

/// The parameters from `i` on, each declared in the current scope (at the
/// function's position) and appended to `acc`.
pub open spec fn declare_params(
    m: AnalyzerModel,
    params: Seq<ParamKind>,
    i: int,
    acc: Seq<SemanticParam>,
    pos: usize,
) -> (Result<Seq<SemanticParam>, ErrorModel>, AnalyzerModel)
    decreases params.len() - i,
{
    if i < 0 || i >= params.len() {
        (Ok(acc), m)
    } else {
        let (pname, declared, kind, ty) = match params[i] {
            ParamKind::Typed(n, t) => (n, Some(t), SemanticParamKind::Typed, Some(sem_of_decl(t))),
            ParamKind::Copy(n) => (n, None, SemanticParamKind::Copy, None),
            ParamKind::CopyFree(n) => (n, None, SemanticParamKind::CopyFree, None),
            ParamKind::CopyInto(n, _) => (n, None, SemanticParamKind::CopyInto, None),
        };
        let (r, m2) = m.declare(pname, declared, None, true, pos);
        match r {
            Err(x) => (Err(x), m2),
            Ok(b) => declare_params(
                m2,
                params,
                i + 1,
                acc.push(SemanticParam { binding: b, name: pname, kind, ty }),
                pos,
            ),
        }
    }
}

/// Replace the parameters recorded for the function named `name`.
pub open spec fn set_params(funcs: Seq<(String, FuncInfoModel)>, name: Seq<char>, params: Seq<SemanticParam>) -> Seq<
    (String, FuncInfoModel),
> {
    match key_index(keys(funcs), name, 0) {
        Some(i) => funcs.update(i, (funcs[i].0, FuncInfoModel { params, ..funcs[i].1 })),
        None => funcs,
    }
}

/// Whether a statement in a `for` body assigns the loop variable.
pub open spec fn assigns_var(s: Stmt, var: Seq<char>) -> bool {
    match s {
        Stmt::Assign { target, .. } => match target {
            Expr::Ident(n, _) => n@ == var,
            _ => false,
        },
        Stmt::CompoundAssign { name, .. } => name@ == var,
        _ => false,
    }
}

// ── `when` ───────────────────────────────────────────────────────────────────

/// The group names that arms match explicitly, in order.
pub open spec fn explicit_groups(arms: Seq<WhenArm>) -> Seq<String>
    decreases arms.len(),
{
    if arms.len() == 0 {
        Seq::empty()
    } else {
        explicit_groups(arms.drop_last()) + match arms.last().pattern {
            WhenPattern::Group(_, n) => seq![n],
            _ => Seq::empty(),
        }
    }
}

/// Whether `g` names a sub-group of one of the super-groups from `j` on.
pub open spec fn sub_known(supers: Seq<(String, Seq<(String, Seq<String>)>)>, g: Seq<char>, j: int) -> bool
    decreases supers.len() - j,
{
    if j < 0 || j >= supers.len() {
        false
    } else {
        key_index(keys(supers[j].1), g, 0) is Some || sub_known(supers, g, j + 1)
    }
}

/// Whether an enum declares a group, super-group or sub-group named `g`.
pub open spec fn enum_knows(info: EnumInfoModel, g: Seq<char>) -> bool {
    key_index(keys(info.groups), g, 0) is Some || key_index(keys(info.super_groups), g, 0) is Some
        || sub_known(info.super_groups, g, 0)
}

/// Whether one of the enums from `i` on knows the group name `g`.
pub open spec fn group_known(enums: Seq<(String, EnumInfoModel)>, g: Seq<char>, i: int) -> bool
    decreases enums.len() - i,
{
    if i < 0 || i >= enums.len() {
        false
    } else {
        enum_knows(enums[i].1, g) || group_known(enums, g, i + 1)
    }
}

/// The sub-group names of the super-group `g`, from the first enum (from
/// `i` on) that declares it.
pub open spec fn super_subs(enums: Seq<(String, EnumInfoModel)>, g: Seq<char>, i: int) -> Option<Seq<String>>
    decreases enums.len() - i,
{
    if i < 0 || i >= enums.len() {
        None
    } else {
        match key_index(keys(enums[i].1.super_groups), g, 0) {
            Some(j) => Some(enums[i].1.super_groups[j].1.map_values(|p: (String, Seq<String>)| p.0)),
            None => super_subs(enums, g, i + 1),
        }
    }
}

/// Whether `names` holds `n`.
pub open spec fn has_name(names: Seq<String>, n: Seq<char>) -> bool {
    exists|k: int| 0 <= k < names.len() && names[k]@ == n
}

/// A `when` pattern after analysis, with enum variants resolved.
pub open spec fn pattern_model(p: WhenPattern, enums: Seq<(String, EnumInfoModel)>) -> SemanticWhenPattern {
    match p {
        WhenPattern::Literal(v) => SemanticWhenPattern::Literal(value_model(v, enums)),
        WhenPattern::Range(a, b, inclusive) => SemanticWhenPattern::Range(
            value_model(a, enums),
            value_model(b, enums),
            inclusive,
        ),
        WhenPattern::EnumVariant(enum_name, variant_name) => {
            let info = assoc_get(enums, enum_name@);
            SemanticWhenPattern::EnumVariant {
                enum_name,
                variant_name,
                enum_id: match info {
                    Some(i) => Some(i.id),
                    None => None,
                },
                variant_id: match info {
                    Some(i) => assoc_get(i.variants, variant_name@),
                    None => None,
                },
            }
        },
        _ => SemanticWhenPattern::Catchall,
    }
}

// ── Statements ───────────────────────────────────────────────────────────────

/// The analysis of a statement in state `m`: its result and the state it
/// leaves (also on an error, which stops the analysis where it occurs).
pub open spec fn stmt_spec(m: AnalyzerModel, s: Stmt) -> (Result<StmtModel, ErrorModel>, AnalyzerModel)
    decreases s, 0nat,
{
    match s {
        Stmt::EnumDef { name, variants, groups, super_groups, pos } => {
            let (e, m2) = declare_enum_spec(m, name, variants@, groups_model(groups@), supers_model(super_groups@));
            (Ok(StmtModel::EnumDef { enum_id: e.id, name, variants: variants@, pos }), m2)
        },
        Stmt::Decl { name, ty, pos } => {
            let (r, m2) = m.declare(name, ty, None, false, pos);
            (
                match r {
                    Err(x) => Err(x),
                    Ok(b) => Ok(StmtModel::Decl { binding: b, name, ty: opt_sem(ty), pos }),
                },
                m2,
            )
        },
        Stmt::Assign { target, expr, pos_eq } => assign_spec(m, target, expr, pos_eq),
        Stmt::TypedAssign { name, ty, expr, pos_type } => typed_assign_spec(m, name, ty, expr, pos_type),
        Stmt::CompoundAssign { name, op, operand, pos } => (
            match expr_spec(m, operand) {
                Err(x) => Err(x),
                Ok(o) => Ok(
                    StmtModel::CompoundAssign {
                        binding: match m.lookup(name@) {
                            Some(info) => Some(info.binding),
                            None => None,
                        },
                        name,
                        op,
                        operand: o,
                        pos,
                    },
                ),
            },
            m,
        ),
        Stmt::Print { expr, pos } => (
            match expr_spec(m, expr) {
                Err(x) => Err(x),
                Ok(e) => Ok(StmtModel::Print { expr: e, pos }),
            },
            m,
        ),
        Stmt::PrintInline { expr, _pos } => (
            match expr_spec(m, expr) {
                Err(x) => Err(x),
                Ok(e) => Ok(StmtModel::PrintInline { expr: e, pos: _pos }),
            },
            m,
        ),
        Stmt::ExprStmt { expr, _pos } => (
            match expr_spec(m, expr) {
                Err(x) => Err(x),
                Ok(e) => Ok(StmtModel::ExprStmt { expr: e, pos: _pos }),
            },
            m,
        ),
        Stmt::Return { expr, pos } => return_spec(m, expr, pos),
        Stmt::FuncDef { name, type_params, params, ret_ty, body, ret_expr, pos } => function_spec(
            m,
            name,
            type_params@,
            params@,
            ret_ty,
            body@,
            ret_expr,
            pos,
        ),
        Stmt::Block { stmts, _pos } => {
            let (r, m2) = stmts_spec(m.push_scope(), stmts@, 0, Seq::empty());
            match r {
                Err(x) => (Err(x), m2.pop_scope()),
                Ok(ss) => (Ok(StmtModel::Block { stmts: ss, pos: _pos }), m2.pop_scope()),
            }
        },
        Stmt::While { cond, body, pos } => match expr_spec(m, cond) {
            Err(x) => (Err(x), m),
            Ok(c) => if c.ty == SemanticType::Unknown {
                (fail(while_unknown_msg(), pos), m)
            } else {
                let (r, m2) = stmts_spec(m, body@, 0, Seq::empty());
                (
                    match r {
                        Err(x) => Err(x),
                        Ok(b) => Ok(StmtModel::While { cond: c, body: b, pos }),
                    },
                    m2,
                )
            },
        },
        Stmt::For { var, start, end, inclusive, body, pos } => for_spec(m, var, start, end, inclusive, body@, pos),
        Stmt::Loop { body, pos } => {
            let (r, m2) = stmts_spec(m, body@, 0, Seq::empty());
            (
                match r {
                    Err(x) => Err(x),
                    Ok(b) => Ok(StmtModel::Loop { body: b, pos }),
                },
                m2,
            )
        },
        Stmt::Break { pos } => (Ok(StmtModel::Break { pos }), m),
        Stmt::Continue { pos } => (Ok(StmtModel::Continue { pos }), m),
        Stmt::When { expr, arms, pos } => when_spec(m, expr, arms@, pos),
    }
}

/// The statements from `i` on, analysed in order and appended to `acc`;
/// the first error stops them.
pub open spec fn stmts_spec(m: AnalyzerModel, ss: Seq<Stmt>, i: int, acc: Seq<StmtModel>) -> (Result<
    Seq<StmtModel>,
    ErrorModel,
>, AnalyzerModel)
    decreases ss, ss.len() - i,
{
    if i < 0 || i >= ss.len() {
        (Ok(acc), m)
    } else {
        let (r, m2) = stmt_spec(m, ss[i]);
        match r {
            Err(x) => (Err(x), m2),
            Ok(s) => stmts_spec(m2, ss, i + 1, acc.push(s)),
        }
    }
}

/// A function definition: a fresh function id; the name is declared in the
/// current scope and the function recorded with placeholder parameters;
/// then, in a new scope with the function's return type in force, the
/// parameters are declared, the record updated with them, the body
/// analysed, and the trailing return expression checked against the return
/// type (a function with a return type and neither a trailing expression
/// nor a `return` in its body is an error). The return type in force and
/// the scope are restored after success.
pub open spec fn function_spec(
    m: AnalyzerModel,
    name: String,
    type_params: Seq<String>,
    params: Seq<ParamKind>,
    ret_ty: Option<Type>,
    body: Seq<Stmt>,
    ret_expr: Option<Expr>,
    pos: usize,
) -> (Result<StmtModel, ErrorModel>, AnalyzerModel)
    decreases body, body.len() + 1,
{
    let (fid, m1) = m.fresh_function();
    let (d, m2) = m1.declare(name, ret_ty, None, true, pos);
    match d {
        Err(x) => (Err(x), m2),
        Ok(_) => {
            let rt = opt_sem(ret_ty);
            let m3 = AnalyzerModel {
                funcs: assoc_insert(
                    m2.funcs,
                    name,
                    FuncInfoModel {
                        id: fid,
                        params: params.map_values(|p: ParamKind| placeholder_of(p)),
                        ret_ty: rt,
                        type_params,
                    },
                ),
                ..m2
            };
            let m4 = AnalyzerModel { ret_ty: rt, in_function: true, ..m3.push_scope() };
            let (pr, m5) = declare_params(m4, params, 0, Seq::empty(), pos);
            match pr {
                Err(x) => (Err(x), leave_function(m3, m5)),
                Ok(resolved) => {
                    let m6 = AnalyzerModel { funcs: set_params(m5.funcs, name@, resolved), ..m5 };
                    let (br, m7) = stmts_spec(m6, body, 0, Seq::empty());
                    match br {
                        Err(x) => (Err(x), leave_function(m3, m7)),
                        Ok(sb) => {
                            let rr: Result<Option<ExprModel>, ErrorModel> = match ret_expr {
                                Some(x) => match expr_spec(m7, x) {
                                    Err(e) => Err(e),
                                    Ok(a) => if a.ty == SemanticType::StrRef {
                                        fail(return_strref_msg(), pos)
                                    } else {
                                        match m7.ret_ty {
                                            Some(t) => if !compatible(t, a.ty) {
                                                fail(return_mismatch_msg(t, a.ty), pos)
                                            } else {
                                                Ok(Some(cast_to(a, t)))
                                            },
                                            None => Ok(Some(a)),
                                        }
                                    },
                                },
                                None => match ret_ty {
                                    Some(t) => if !some_stmt_returns(body, body.len() as int) {
                                        fail(missing_return_msg(sem_of_decl(t)), pos)
                                    } else {
                                        Ok(None)
                                    },
                                    None => Ok(None),
                                },
                            };
                            match rr {
                                Err(x) => (Err(x), leave_function(m3, m7)),
                                Ok(re) => (
                                    Ok(
                                        StmtModel::FuncDef(
                                            FunctionModel {
                                                id: fid,
                                                name,
                                                type_params,
                                                params: resolved,
                                                return_ty: rt,
                                                body: sb,
                                                ret_expr: re,
                                                pos,
                                            },
                                        ),
                                    ),
                                    leave_function(m3, m7),
                                ),
                            }
                        },
                    }
                },
            }
        },
    }
}

/// Leaving a function body, whether it was analysed or failed: the
/// enclosing function's return type and flag come back and the body's scope
/// closes.
pub open spec fn leave_function(outer: AnalyzerModel, m: AnalyzerModel) -> AnalyzerModel {
    AnalyzerModel { ret_ty: outer.ret_ty, in_function: outer.in_function, ..m }.pop_scope()
}

/// `for var in start..end { body }`: the loop variable is declared (as an
/// `I64`) in a new scope, and the body may not assign it; the bounds are
/// analysed after the scope is closed.
pub open spec fn for_spec(
    m: AnalyzerModel,
    var: String,
    start: Expr,
    end: Expr,
    inclusive: bool,
    body: Seq<Stmt>,
    pos: usize,
) -> (Result<StmtModel, ErrorModel>, AnalyzerModel)
    decreases body, body.len() + 1,
{
    let (d, m2) = m.push_scope().declare(var, Some(Type::T64), Some(SemanticType::I64), true, pos);
    match d {
        Err(x) => (Err(x), m2.pop_scope()),
        Ok(b) => {
            let (br, m3) = for_body(m2, var, body, 0, Seq::empty(), pos);
            match br {
                Err(x) => (Err(x), m3),
                Ok(sb) => {
                    let m4 = m3.pop_scope();
                    match expr_spec(m4, start) {
                        Err(x) => (Err(x), m4),
                        Ok(s) => match expr_spec(m4, end) {
                            Err(x) => (Err(x), m4),
                            Ok(e) => (
                                Ok(StmtModel::For { binding: b, var, start: s, end: e, inclusive, body: sb, pos }),
                                m4,
                            ),
                        },
                    }
                },
            }
        },
    }
}

/// The body of a `for` from statement `i` on; a statement that assigns the
/// loop variable closes the loop's scope and is an error.
pub open spec fn for_body(
    m: AnalyzerModel,
    var: String,
    body: Seq<Stmt>,
    i: int,
    acc: Seq<StmtModel>,
    pos: usize,
) -> (Result<Seq<StmtModel>, ErrorModel>, AnalyzerModel)
    decreases body, body.len() - i,
{
    if i < 0 || i >= body.len() {
        (Ok(acc), m)
    } else if assigns_var(body[i], var@) {
        (fail(readonly_msg(var@), pos), m.pop_scope())
    } else {
        let (r, m2) = stmt_spec(m, body[i]);
        match r {
            Err(x) => (Err(x), m2.pop_scope()),
            Ok(s) => for_body(m2, var, body, i + 1, acc.push(s), pos),
        }
    }
}

/// `when expr { arms }`: the scrutinee, then each arm in order.
pub open spec fn when_spec(m: AnalyzerModel, expr: Expr, arms: Seq<WhenArm>, pos: usize) -> (Result<
    StmtModel,
    ErrorModel,
>, AnalyzerModel)
    decreases arms, arms.len() + 1,
{
    match expr_spec(m, expr) {
        Err(x) => (Err(x), m),
        Ok(e) => {
            let (r, m2) = when_arms(m, explicit_groups(arms), arms, 0, Seq::empty(), pos);
            (
                match r {
                    Err(x) => Err(x),
                    Ok(a) => Ok(StmtModel::When { expr: e, arms: a, pos }),
                },
                m2,
            )
        },
    }
}

pub open spec fn when_arms(
    m: AnalyzerModel,
    explicit: Seq<String>,
    arms: Seq<WhenArm>,
    i: int,
    acc: Seq<ArmModel>,
    pos: usize,
) -> (Result<Seq<ArmModel>, ErrorModel>, AnalyzerModel)
    decreases arms, arms.len() - i,
{
    if i < 0 || i >= arms.len() {
        (Ok(acc), m)
    } else {
        let (r, m2) = arm_spec(m, explicit, arms[i], pos);
        match r {
            Err(x) => (Err(x), m2),
            Ok(a) => when_arms(m2, explicit, arms, i + 1, acc.push(a), pos),
        }
    }
}

/// One arm: a group pattern must name a known group, super-group or
/// sub-group; a body of statements is analysed in order; a super-group
/// handler list needs a super-group pattern and one handler per sub-group,
/// each either statements (analysed, and appended to the arm's body) or
/// `{_}`, which needs an explicit arm for its sub-group. The pattern is
/// resolved after the body.
pub open spec fn arm_spec(m: AnalyzerModel, explicit: Seq<String>, arm: WhenArm, pos: usize) -> (Result<
    ArmModel,
    ErrorModel,
>, AnalyzerModel)
    decreases arm, 0nat,
{
    let check: Result<(), ErrorModel> = match arm.pattern {
        WhenPattern::Group(_, g) => if group_known(m.enums, g@, 0) {
            Ok(())
        } else {
            fail(unknown_group_msg(g@), pos)
        },
        _ => Ok(()),
    };
    match check {
        Err(x) => (Err(x), m),
        Ok(_) => {
            let (br, m2) = match arm.body {
                WhenBody::Stmts(ss) => stmts_spec(m, ss@, 0, Seq::empty()),
                WhenBody::SuperGroup(hs) => match arm.pattern {
                    WhenPattern::Group(_, sname) => match super_subs(m.enums, sname@, 0) {
                        None => (fail(unknown_super_msg(sname@), pos), m),
                        Some(subs) => if hs@.len() != subs.len() {
                            (fail(handler_count_msg(sname@, subs.len(), hs@.len()), pos), m)
                        } else {
                            handlers_spec(m, explicit, subs, hs@, 0, Seq::empty(), pos)
                        },
                    },
                    _ => (fail(handler_list_msg(), pos), m),
                },
            };
            match br {
                Err(x) => (Err(x), m2),
                Ok(body) => (Ok(ArmModel { pattern: pattern_model(arm.pattern, m2.enums), body, pos: arm.pos }), m2),
            }
        },
    }
}

pub open spec fn handlers_spec(
    m: AnalyzerModel,
    explicit: Seq<String>,
    subs: Seq<String>,
    hs: Seq<SuperGroupHandler>,
    i: int,
    acc: Seq<StmtModel>,
    pos: usize,
) -> (Result<Seq<StmtModel>, ErrorModel>, AnalyzerModel)
    decreases hs, hs.len() - i,
{
    if i < 0 || i >= hs.len() {
        (Ok(acc), m)
    } else {
        match hs[i] {
            SuperGroupHandler::Placeholder => if i < subs.len() && !has_name(explicit, subs[i]@) {
                (fail(placeholder_msg((i + 1) as nat, subs[i]@), pos), m)
            } else {
                handlers_spec(m, explicit, subs, hs, i + 1, acc, pos)
            },
            SuperGroupHandler::Stmts(ss) => {
                let (r, m2) = stmts_spec(m, ss@, 0, Seq::empty());
                match r {
                    Err(x) => (Err(x), m2),
                    Ok(v) => handlers_spec(m2, explicit, subs, hs, i + 1, acc + v, pos),
                }
            },
        }
    }
}


// ── How many ids an analysis may draw ────────────────────────────────────────

/// An upper bound on the ids of any one kind that analysing `s` draws.
pub open spec fn stmt_cost(s: Stmt) -> nat
    decreases s, 0nat,
{
    match s {
        Stmt::EnumDef { variants, groups, super_groups, .. } => 1 + variants@.len() + groups_len(
            groups_model(groups@),
        ) + supers_len(supers_model(super_groups@)),
        Stmt::Decl { .. } => 1,
        Stmt::TypedAssign { .. } => 1,
        Stmt::FuncDef { params, body, .. } => 2 + params@.len() + stmts_cost(body@, 0),
        Stmt::Block { stmts, .. } => stmts_cost(stmts@, 0),
        Stmt::While { body, .. } => stmts_cost(body@, 0),
        Stmt::Loop { body, .. } => stmts_cost(body@, 0),
        Stmt::For { body, .. } => 1 + stmts_cost(body@, 0),
        Stmt::When { arms, .. } => arms_cost(arms@, 0),
        _ => 0,
    }
}

pub open spec fn stmts_cost(ss: Seq<Stmt>, i: int) -> nat
    decreases ss, ss.len() - i,
{
    if i < 0 || i >= ss.len() {
        0
    } else {
        stmt_cost(ss[i]) + stmts_cost(ss, i + 1)
    }
}

pub open spec fn arms_cost(arms: Seq<WhenArm>, i: int) -> nat
    decreases arms, arms.len() - i,
{
    if i < 0 || i >= arms.len() {
        0
    } else {
        arm_cost(arms[i]) + arms_cost(arms, i + 1)
    }
}

pub open spec fn arm_cost(a: WhenArm) -> nat
    decreases a, 0nat,
{
    match a.body {
        WhenBody::Stmts(ss) => stmts_cost(ss@, 0),
        WhenBody::SuperGroup(hs) => handlers_cost(hs@, 0),
    }
}

pub open spec fn handlers_cost(hs: Seq<SuperGroupHandler>, i: int) -> nat
    decreases hs, hs.len() - i,
{
    if i < 0 || i >= hs.len() {
        0
    } else {
        let here: nat = match hs[i] {
            SuperGroupHandler::Stmts(ss) => stmts_cost(ss@, 0),
            SuperGroupHandler::Placeholder => 0,
        };
        here + handlers_cost(hs, i + 1)
    }
}

pub proof fn lemma_groups_flat_len(gs: Seq<(String, Seq<String>)>)
    ensures
        groups_flat(gs).len() == groups_len(gs),
    decreases gs.len(),
{
    if gs.len() > 0 {
        lemma_groups_flat_len(gs.drop_last());
    }
}

pub proof fn lemma_supers_flat_len(ss: Seq<(String, Seq<(String, Seq<String>)>)>)
    ensures
        supers_flat(ss).len() == supers_len(ss),
    decreases ss.len(),
{
    if ss.len() > 0 {
        lemma_supers_flat_len(ss.drop_last());
        lemma_groups_flat_len(ss.last().1);
    }
}


// ── Whole programs ───────────────────────────────────────────────────────────

/// Before the statements are analysed, every top-level function is
/// recorded (with a fresh id and placeholder parameters), so that calls
/// may precede definitions.
pub open spec fn prepass(m: AnalyzerModel, ss: Seq<Stmt>, i: int) -> AnalyzerModel
    decreases ss.len() - i,
{
    if i < 0 || i >= ss.len() {
        m
    } else {
        match ss[i] {
            Stmt::FuncDef { name, type_params, params, ret_ty, .. } => {
                let (fid, m1) = m.fresh_function();
                prepass(
                    AnalyzerModel {
                        funcs: assoc_insert(
                            m1.funcs,
                            name,
                            FuncInfoModel {
                                id: fid,
                                params: params@.map_values(|p: ParamKind| placeholder_of(p)),
                                ret_ty: opt_sem(ret_ty),
                                type_params: type_params@,
                            },
                        ),
                        ..m1
                    },
                    ss,
                    i + 1,
                )
            },
            _ => prepass(m, ss, i + 1),
        }
    }
}

/// The top-level statements from `i` on, each analysed in the state the
/// previous one left, successes and errors collected separately: an error
/// does not stop the statements after it.
pub open spec fn program_run(
    m: AnalyzerModel,
    ss: Seq<Stmt>,
    i: int,
    oks: Seq<StmtModel>,
    errs: Seq<ErrorModel>,
) -> (Seq<StmtModel>, Seq<ErrorModel>, AnalyzerModel)
    decreases ss.len() - i,
{
    if i < 0 || i >= ss.len() {
        (oks, errs, m)
    } else {
        let (r, m2) = stmt_spec(m, ss[i]);
        match r {
            Ok(s) => program_run(m2, ss, i + 1, oks.push(s), errs),
            Err(e) => program_run(m2, ss, i + 1, oks, errs.push(e)),
        }
    }
}

/// The analysis of a program: its analysed statements and declared enums,
/// or every error in the order found.
pub open spec fn program_spec(ss: Seq<Stmt>) -> Result<(Seq<StmtModel>, Seq<EnumModel>), Seq<ErrorModel>> {
    let (oks, errs, m) = program_run(prepass(initial_model(), ss, 0), ss, 0, Seq::empty(), Seq::empty());
    if errs.len() == 0 {
        Ok((oks, m.enum_defs))
    } else {
        Err(errs)
    }
}

/// An upper bound on the ids of any one kind that analysing a program
/// draws.
pub open spec fn program_cost(ss: Seq<Stmt>) -> nat {
    ss.len() + stmts_cost(ss, 0)
}

} // verus!
