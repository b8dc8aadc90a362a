//! Whether a program's analysis fits the id budget: the number of ids
//! analysis may draw (see `program_cost`) computed with a cap, so that the
//! count itself cannot overflow.
use vstd::prelude::*;
use crate::frontend::ast::{Program, Stmt, SuperGroupHandler, WhenArm, WhenBody};
use crate::frontend::model::{groups_model, supers_model};
use crate::frontend::rules::{arm_cost, arms_cost, groups_len, handlers_cost, program_cost, stmt_cost, stmts_cost, supers_len};

verus! {

/// One more than the largest `u32`: every count at or above it counts the same.
pub open spec fn cost_cap() -> nat {
    0x1_0000_0000nat
}

pub open spec fn capped(n: nat) -> nat {
    if n > cost_cap() {
        cost_cap()
    } else {
        n
    }
}

fn add_capped(a: u64, b: u64) -> (c: u64)
    requires
        a <= cost_cap(),
        b <= cost_cap(),
    ensures
        c == capped((a + b) as nat),
{
    let s = a + b;
    if s > 0x1_0000_0000u64 {
        0x1_0000_0000u64
    } else {
        s
    }
}

fn cap_len(n: usize) -> (c: u64)
    ensures
        c == capped(n as nat),
{
    if n as u64 > 0x1_0000_0000u64 || (n as u128) > 0x1_0000_0000u128 {
        0x1_0000_0000u64
    } else {
        n as u64
    }
}

fn groups_cost(g: &Vec<(String, Vec<String>)>) -> (c: u64)
    ensures
        c == capped(groups_len(groups_model(g@))),
{
    let ghost gm = groups_model(g@);
    let mut acc: u64 = 0;
    let mut i: usize = 0;
    proof {
        assert(gm.take(0) =~= Seq::<(String, Seq<String>)>::empty());
    }
    while i < g.len()
        invariant
            i <= g@.len(),
            gm == groups_model(g@),
            acc == capped(groups_len(gm.take(i as int))),
        decreases g@.len() - i,
    {
        proof {
            assert(gm.take(i + 1).drop_last() =~= gm.take(i as int));
            assert(gm.take(i + 1).last() == gm[i as int]);
        }
        acc = add_capped(acc, cap_len(g[i].1.len()));
        i = i + 1;
    }
    proof {
        assert(gm.take(g@.len() as int) =~= gm);
    }
    acc
}

fn supers_cost(s: &Vec<(String, Vec<(String, Vec<String>)>)>) -> (c: u64)
    ensures
        c == capped(supers_len(supers_model(s@))),
{
    let ghost sm = supers_model(s@);
    let mut acc: u64 = 0;
    let mut i: usize = 0;
    proof {
        assert(sm.take(0) =~= Seq::<(String, Seq<(String, Seq<String>)>)>::empty());
    }
    while i < s.len()
        invariant
            i <= s@.len(),
            sm == supers_model(s@),
            acc == capped(supers_len(sm.take(i as int))),
        decreases s@.len() - i,
    {
        proof {
            assert(sm.take(i + 1).drop_last() =~= sm.take(i as int));
            assert(sm.take(i + 1).last() == sm[i as int]);
        }
        acc = add_capped(acc, groups_cost(&s[i].1));
        i = i + 1;
    }
    proof {
        assert(sm.take(s@.len() as int) =~= sm);
    }
    acc
}

/// The ids a statement may draw, capped (see [`stmt_cost`]).
fn stmt_cost_capped(s: &Stmt) -> (c: u64)
    ensures
        c == capped(stmt_cost(*s)),
    decreases s, 1nat,
{
    match s {
        Stmt::EnumDef { variants, groups, super_groups, .. } => {
            let a = add_capped(1, cap_len(variants.len()));
            let b = add_capped(a, groups_cost(groups));
            add_capped(b, supers_cost(super_groups))
        },
        Stmt::Decl { .. } => 1,
        Stmt::TypedAssign { .. } => 1,
        Stmt::FuncDef { params, body, .. } => {
            proof {
                assert(decreases_to!(*s => s->FuncDef_body));
            }
            let a = add_capped(2, cap_len(params.len()));
            add_capped(a, stmts_cost_capped(body))
        },
        Stmt::Block { stmts, .. } => {
            proof {
                assert(decreases_to!(*s => s->Block_stmts));
            }
            stmts_cost_capped(stmts)
        },
        Stmt::While { body, .. } => {
            proof {
                assert(decreases_to!(*s => s->While_body));
            }
            stmts_cost_capped(body)
        },
        Stmt::Loop { body, .. } => {
            proof {
                assert(decreases_to!(*s => s->Loop_body));
            }
            stmts_cost_capped(body)
        },
        Stmt::For { body, .. } => {
            proof {
                assert(decreases_to!(*s => s->For_body));
            }
            add_capped(1, stmts_cost_capped(body))
        },
        Stmt::When { arms, .. } => {
            proof {
                assert(decreases_to!(*s => s->When_arms));
            }
            arms_cost_capped(arms)
        },
        _ => 0,
    }
}

fn stmts_cost_capped(ss: &Vec<Stmt>) -> (c: u64)
    ensures
        c == capped(stmts_cost(ss@, 0)),
    decreases ss@, 0nat,
{
    let mut acc: u64 = 0;
    let mut k: usize = ss.len();
    while k > 0
        invariant
            k <= ss@.len(),
            acc == capped(stmts_cost(ss@, k as int)),
        decreases k,
    {
        proof {
            assert(decreases_to!(ss@ => ss@[k - 1]));
        }
        let c = stmt_cost_capped(&ss[k - 1]);
        acc = add_capped(c, acc);
        k = k - 1;
    }
    acc
}

fn arms_cost_capped(arms: &Vec<WhenArm>) -> (c: u64)
    ensures
        c == capped(arms_cost(arms@, 0)),
    decreases arms@, 0nat,
{
    let mut acc: u64 = 0;
    let mut k: usize = arms.len();
    while k > 0
        invariant
            k <= arms@.len(),
            acc == capped(arms_cost(arms@, k as int)),
        decreases k,
    {
        proof {
            assert(decreases_to!(arms@ => arms@[k - 1]));
        }
        let c = arm_cost_capped(&arms[k - 1]);
        acc = add_capped(c, acc);
        k = k - 1;
    }
    acc
}

fn arm_cost_capped(a: &WhenArm) -> (c: u64)
    ensures
        c == capped(arm_cost(*a)),
    decreases a, 1nat,
{
    match &a.body {
        WhenBody::Stmts(ss) => {
            proof {
                assert(decreases_to!(*a => a.body));
            }
            stmts_cost_capped(ss)
        },
        WhenBody::SuperGroup(hs) => {
            proof {
                assert(decreases_to!(*a => a.body));
            }
            handlers_cost_capped(hs)
        },
    }
}

fn handlers_cost_capped(hs: &Vec<SuperGroupHandler>) -> (c: u64)
    ensures
        c == capped(handlers_cost(hs@, 0)),
    decreases hs@, 0nat,
{
    let mut acc: u64 = 0;
    let mut k: usize = hs.len();
    while k > 0
        invariant
            k <= hs@.len(),
            acc == capped(handlers_cost(hs@, k as int)),
        decreases k,
    {
        let c = match &hs[k - 1] {
            SuperGroupHandler::Stmts(ss) => {
                proof {
                    assert(decreases_to!(hs@ => hs@[k - 1]));
                }
                stmts_cost_capped(ss)
            },
            SuperGroupHandler::Placeholder => 0,
        };
        acc = add_capped(c, acc);
        k = k - 1;
    }
    acc
}

/// Whether a program fits the analysis's id budget, the condition under
/// which `analyze_program` may be called.
pub fn program_fits(p: &Program) -> (b: bool)
    ensures
        b == (program_cost(p.stmts@) <= u32::MAX),
{
    let c = stmts_cost_capped(&p.stmts);
    if p.stmts.len() as u128 > 0xffff_ffffu128 {
        return false;
    }
    (p.stmts.len() as u64) + c <= 0xffff_ffffu64
}

} // verus!
