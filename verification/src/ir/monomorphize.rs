//! Support for specializing generic functions: the errors a specialization
//! pass reports, and the test for a type that still mentions a type
//! parameter.
use vstd::prelude::*;
use crate::frontend::semantic_types::SemanticType;
use crate::text::{decimal, push_decimal, push_str};

verus! {

/// Maximum distinct instantiations of any one generic function.
pub const MAX_INSTANTIATIONS_PER_TEMPLATE: usize = 64;

/// Why a program's generic functions could not be specialized.
#[derive(Debug)]
pub enum MonomorphizeError {
    /// A generic function was instantiated at more than `cap` distinct
    /// types; `seen` lists the first of them.
    InstantiationExplosion { template: String, cap: usize, seen: Vec<String> },
    /// A specialization's name is already defined.
    NameCollision { mangled: String, template: String },
}

/// The names joined with `", "`.
pub open spec fn join_comma(names: Seq<String>) -> Seq<char>
    decreases names.len(),
{
    if names.len() == 0 {
        Seq::empty()
    } else if names.len() == 1 {
        names[0]@
    } else {
        join_comma(names.drop_last()) + ", "@ + names.last()@
    }
}

/// The text of an error (what `Display` would print).
pub open spec fn monomorphize_message(e: MonomorphizeError) -> Seq<char> {
    match e {
        MonomorphizeError::InstantiationExplosion { template, cap, seen } => "generic function '"@ + template@
            + "' exceeded "@ + decimal(cap as nat)
            + " distinct instantiations — this usually means a recursive call instantiates it at an ever-larger type. First instantiations were: "@
            + join_comma(seen@),
        MonomorphizeError::NameCollision { mangled, template } => "specialization of '"@ + template@
            + "' would be named '"@ + mangled@ + "', which is already defined"@,
    }
}

impl MonomorphizeError {
    /// The error's text.
    pub fn message(&self) -> (s: String)
        ensures
            s@ == monomorphize_message(*self),
    {
        let mut s = String::new();
        match self {
            MonomorphizeError::InstantiationExplosion { template, cap, seen } => {
                push_str(&mut s, "generic function '");
                push_str(&mut s, template.as_str());
                push_str(&mut s, "' exceeded ");
                push_decimal(&mut s, *cap as u128);
                push_str(
                    &mut s,
                    " distinct instantiations — this usually means a recursive call instantiates it at an ever-larger type. First instantiations were: ",
                );
                let ghost before = s@;
                let mut i: usize = 0;
                while i < seen.len()
                    invariant
                        i <= seen@.len(),
                        s@ == before + join_comma(seen@.take(i as int)),
                    decreases seen@.len() - i,
                {
                    proof {
                        assert(seen@.take(i + 1).drop_last() =~= seen@.take(i as int));
                    }
                    if i > 0 {
                        push_str(&mut s, ", ");
                    }
                    push_str(&mut s, seen[i].as_str());
                    proof {
                        assert(s@ =~= before + join_comma(seen@.take(i + 1)));
                    }
                    i = i + 1;
                }
                proof {
                    assert(seen@.take(seen@.len() as int) =~= seen@);
                }
            },
            MonomorphizeError::NameCollision { mangled, template } => {
                push_str(&mut s, "specialization of '");
                push_str(&mut s, template.as_str());
                push_str(&mut s, "' would be named '");
                push_str(&mut s, mangled.as_str());
                push_str(&mut s, "', which is already defined");
            },
        }
        proof {
            assert(s@ =~= monomorphize_message(*self));
        }
        s
    }
}

/// Whether a type mentions a type parameter, directly or inside a handle.
pub open spec fn has_type_param(t: SemanticType) -> bool
    decreases t,
{
    match t {
        SemanticType::TypeParam(_) => true,
        SemanticType::Handle(inner) => has_type_param(*inner),
        _ => false,
    }
}

/// Whether `t` mentions a type parameter (see [`has_type_param`]).
pub fn contains_type_param(t: &SemanticType) -> (r: bool)
    ensures
        r == has_type_param(*t),
    decreases t,
{
    match t {
        SemanticType::TypeParam(_) => true,
        SemanticType::Handle(inner) => contains_type_param(&**inner),
        _ => false,
    }
}

} // verus!
