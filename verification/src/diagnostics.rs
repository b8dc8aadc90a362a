//! Diagnostics: the texts the driver prints and where in the source an
//! error points.
use vstd::prelude::*;
use crate::frontend::semantic::str_eq_string;
use crate::operators::RuntimeError;
use crate::frontend::ast::Type;
use crate::text::{chars_of, debug_quoted, debug_text, decimal, push_decimal, push_str};

verus! {

/// The message for a character the lexer does not recognize.
pub open spec fn lexer_error_text(slice: Seq<char>) -> Seq<char> {
    "unrecognized token "@ + debug_quoted(slice) + " — this character is not valid in Cx"@
}

/// The message for a character the lexer does not recognize, quoted as
/// Rust's `{:?}` quotes a string.
pub fn lexer_error_message(slice: &str) -> (s: String)
    ensures
        s@ == lexer_error_text(slice@),
{
    let mut s = String::new();
    push_str(&mut s, "unrecognized token ");
    let q = debug_text(&chars_of(slice));
    push_str(&mut s, q.as_str());
    push_str(&mut s, " — this character is not valid in Cx");
    proof {
        assert(s@ =~= lexer_error_text(slice@));
    }
    s
}

/// Two spaces per level of nesting.
pub fn indent(depth: usize) -> (s: String)
    requires
        depth <= usize::MAX / 2,
    ensures
        s@ == Seq::new((2 * depth) as nat, |i: int| ' '),
{
    let mut s = String::new();
    let mut i: usize = 0;
    while i < depth
        invariant
            i <= depth,
            s@ == Seq::new((2 * i) as nat, |k: int| ' '),
        decreases depth - i,
    {
        push_str(&mut s, "  ");
        proof {
            assert(s@ =~= Seq::new((2 * (i + 1)) as nat, |k: int| ' ')) by {
                reveal_strlit("  ");
            }
        }
        i = i + 1;
    }
    s
}

/// The closing line of a run with errors: nothing for none, else the count.
pub open spec fn summary_text(error_count: nat) -> Option<Seq<char>> {
    if error_count == 0 {
        None
    } else if error_count == 1 {
        Some("── 1 error found ──"@)
    } else {
        Some("── "@ + decimal(error_count) + " errors found ──"@)
    }
}

/// The closing line of a run with `error_count` errors.
pub fn summary_label(error_count: usize) -> (r: Option<String>)
    ensures
        match r {
            Some(s) => summary_text(error_count as nat) == Some(s@),
            None => summary_text(error_count as nat) is None,
        },
{
    if error_count == 0 {
        return None;
    }
    let mut s = String::new();
    if error_count == 1 {
        push_str(&mut s, "── 1 error found ──");
    } else {
        push_str(&mut s, "── ");
        push_decimal(&mut s, error_count as u128);
        push_str(&mut s, " errors found ──");
    }
    proof {
        if error_count == 1 {
            assert(s@ =~= "── 1 error found ──"@);
        } else {
            assert(s@ =~= "── "@ + decimal(error_count as nat) + " errors found ──"@);
        }
    }
    Some(s)
}

// ── Where an error points ────────────────────────────────────────────────────

/// The start of the line holding byte `p`: just after the last newline
/// before `p`, or 0.
pub open spec fn line_start_of(b: Seq<u8>, p: int) -> int
    decreases p,
{
    if p <= 0 {
        0
    } else if b[p - 1] == 10 {
        p
    } else {
        line_start_of(b, p - 1)
    }
}

/// The end of the line holding byte `p`: the next newline at or after `p`,
/// or the end of the text.
pub open spec fn line_end_of(b: Seq<u8>, p: int) -> int
    decreases b.len() - p,
{
    if p >= b.len() {
        b.len() as int
    } else if b[p] == 10 {
        p
    } else {
        line_end_of(b, p + 1)
    }
}

/// How many newlines the first `p` bytes hold.
pub open spec fn newlines_before(b: Seq<u8>, p: int) -> nat
    decreases p,
{
    if p <= 0 {
        0
    } else {
        newlines_before(b, p - 1) + if b[p - 1] == 10 {
            1nat
        } else {
            0nat
        }
    }
}

/// Where a byte position falls in a text: its 1-based line, the bytes of
/// that line (without a trailing carriage return), and its 0-based column.
pub struct SourceLocation {
    pub line_no: usize,
    pub line_start: usize,
    pub line_end: usize,
    pub col: usize,
}

/// The location of byte `pos` (clamped to the text) in `src`.
pub open spec fn location_of(src: Seq<u8>, pos: int) -> SourceLocation {
    let p = if pos < src.len() {
        pos
    } else {
        src.len() as int
    };
    let start = line_start_of(src, p);
    let end = line_end_of(src, p);
    let trimmed = if end > start && src[end - 1] == 13 {
        end - 1
    } else {
        end
    };
    SourceLocation {
        line_no: (newlines_before(src, start) + 1) as usize,
        line_start: start as usize,
        line_end: trimmed as usize,
        col: (p - start) as usize,
    }
}

proof fn lemma_line_start_bounds(b: Seq<u8>, p: int)
    requires
        0 <= p <= b.len(),
    ensures
        0 <= line_start_of(b, p) <= p,
    decreases p,
{
    if p > 0 && b[p - 1] != 10 {
        lemma_line_start_bounds(b, p - 1);
    }
}

proof fn lemma_line_end_bounds(b: Seq<u8>, p: int)
    requires
        0 <= p <= b.len(),
    ensures
        p <= line_end_of(b, p) <= b.len(),
    decreases b.len() - p,
{
    if p < b.len() && b[p] != 10 {
        lemma_line_end_bounds(b, p + 1);
    }
}

proof fn lemma_newlines_bound(b: Seq<u8>, p: int)
    requires
        0 <= p <= b.len(),
    ensures
        newlines_before(b, p) <= p,
    decreases p,
{
    if p > 0 {
        lemma_newlines_bound(b, p - 1);
    }
}

proof fn lemma_line_start_props(b: Seq<u8>, p: int)
    requires
        0 <= p <= b.len(),
    ensures
        ({
            let st = line_start_of(b, p);
            &&& 0 <= st <= p
            &&& st == 0 || b[st - 1] == 10
            &&& forall|k: int| st <= k < p ==> b[k] != 10
            &&& newlines_before(b, st) == newlines_before(b, p)
        }),
    decreases p,
{
    if p > 0 && b[p - 1] != 10 {
        lemma_line_start_props(b, p - 1);
    }
}

proof fn lemma_line_end_props(b: Seq<u8>, p: int)
    requires
        0 <= p <= b.len(),
    ensures
        ({
            let e = line_end_of(b, p);
            &&& p <= e <= b.len()
            &&& e == b.len() || b[e] == 10
            &&& forall|k: int| p <= k < e ==> b[k] != 10
        }),
    decreases b.len() - p,
{
    if p < b.len() && b[p] != 10 {
        lemma_line_end_props(b, p + 1);
    }
}

/// A location is the line that holds the byte: the line starts at the text's
/// start or just after a newline, runs up to the next newline or the end
/// (less a carriage return before it), holds no newline before the byte,
/// the column counts the bytes from the line's start, and the line number
/// is one more than the newlines before the byte.
pub proof fn law_location_is_its_line(src: Seq<u8>, pos: int)
    requires
        0 <= pos <= src.len(),
        src.len() < usize::MAX,
    ensures
        ({
            let r = location_of(src, pos);
            let st = r.line_start as int;
            let e = line_end_of(src, pos);
            &&& st <= pos && r.col == pos - st
            &&& st == 0 || src[st - 1] == 10
            &&& forall|k: int| st <= k < e ==> src[k] != 10
            &&& e == src.len() || src[e] == 10
            &&& r.line_end == e || (r.line_end == e - 1 && src[e - 1] == 13)
            &&& r.line_no == newlines_before(src, pos) + 1
        }),
{
    lemma_line_start_props(src, pos);
    lemma_line_end_props(src, pos);
    lemma_newlines_bound(src, pos);
}

/// Where byte `pos` of `src` falls (see [`location_of`]).
pub fn locate(src: &[u8], pos: usize) -> (r: SourceLocation)
    requires
        src@.len() < usize::MAX,
    ensures
        r == location_of(src@, pos as int),
        r.line_start <= r.line_end <= src@.len(),
{
    let p = if pos < src.len() {
        pos
    } else {
        src.len()
    };
    let mut start = p;
    while start > 0 && src[start - 1] != 10
        invariant
            start <= p <= src@.len(),
            line_start_of(src@, p as int) == line_start_of(src@, start as int),
        decreases start,
    {
        start = start - 1;
    }
    let mut end = p;
    while end < src.len() && src[end] != 10
        invariant
            p <= end <= src@.len(),
            line_end_of(src@, p as int) == line_end_of(src@, end as int),
        decreases src@.len() - end,
    {
        end = end + 1;
    }
    let mut count: usize = 0;
    let mut k: usize = 0;
    proof {
        lemma_newlines_bound(src@, start as int);
    }
    while k < start
        invariant
            k <= start <= src@.len(),
            count == newlines_before(src@, k as int),
            newlines_before(src@, start as int) <= start,
        decreases start - k,
    {
        proof {
            lemma_newlines_bound(src@, (k + 1) as int);
        }
        if src[k] == 10 {
            count = count + 1;
        }
        k = k + 1;
    }
    let trimmed = if end > start && src[end - 1] == 13 {
        end - 1
    } else {
        end
    };
    SourceLocation { line_no: count + 1, line_start: start, line_end: trimmed, col: p - start }
}

// ── Debug switches ───────────────────────────────────────────────────────────

/// Which debug dumps a run asks for.
#[derive(Debug, Default)]
pub struct DebugFlags {
    pub tokens: bool,
    pub ast: bool,
    pub scope: bool,
    pub step: bool,
    pub phase: bool,
}

/// Whether `args` holds `a`.
pub open spec fn has_arg(args: Seq<String>, a: Seq<char>) -> bool {
    exists|i: int| 0 <= i < args.len() && args[i]@ == a
}

fn contains_arg(args: &Vec<String>, a: &str) -> (r: bool)
    ensures
        r == has_arg(args@, a@),
{
    let mut i: usize = 0;
    while i < args.len()
        invariant
            i <= args@.len(),
            forall|k: int| 0 <= k < i ==> args@[k]@ != a@,
        decreases args@.len() - i,
    {
        if str_eq_string(a, &args[i]) {
            return true;
        }
        i = i + 1;
    }
    false
}

impl DebugFlags {
    /// The switches a command line sets: `--debug` sets them all, and each
    /// of `--debug-tokens`, `--debug-ast`, `--debug-scope`, `--debug-step`
    /// and `--debug-phase` sets its own.
    pub fn from_args(args: &Vec<String>) -> (f: Self)
        ensures
            f.tokens == (has_arg(args@, "--debug"@) || has_arg(args@, "--debug-tokens"@)),
            f.ast == (has_arg(args@, "--debug"@) || has_arg(args@, "--debug-ast"@)),
            f.scope == (has_arg(args@, "--debug"@) || has_arg(args@, "--debug-scope"@)),
            f.step == (has_arg(args@, "--debug"@) || has_arg(args@, "--debug-step"@)),
            f.phase == (has_arg(args@, "--debug"@) || has_arg(args@, "--debug-phase"@)),
    {
        let all = contains_arg(args, "--debug");
        DebugFlags {
            tokens: all || contains_arg(args, "--debug-tokens"),
            ast: all || contains_arg(args, "--debug-ast"),
            scope: all || contains_arg(args, "--debug-scope"),
            step: all || contains_arg(args, "--debug-step"),
            phase: all || contains_arg(args, "--debug-phase"),
        }
    }
}

/// How Debug formatting shows a declared type, as in `T32`,
/// `Enum("Color")` or `Handle(T128)`.
pub open spec fn type_debug_text(t: Type) -> Seq<char>
    decreases t,
{
    match t {
        Type::T8 => "T8"@,
        Type::T16 => "T16"@,
        Type::T32 => "T32"@,
        Type::T64 => "T64"@,
        Type::T128 => "T128"@,
        Type::Bool => "Bool"@,
        Type::Str => "Str"@,
        Type::StrRef => "StrRef"@,
        Type::Container => "Container"@,
        Type::Char => "Char"@,
        Type::Enum(n) => "Enum("@ + debug_quoted(n@) + ")"@,
        Type::Unknown => "Unknown"@,
        Type::Handle(inner) => "Handle("@ + type_debug_text(*inner) + ")"@,
        Type::TypeParam(n) => "TypeParam("@ + debug_quoted(n@) + ")"@,
    }
}

/// Append the Debug text of a declared type (see [`type_debug_text`]).
pub fn push_type_debug_text(s: &mut String, t: &Type)
    ensures
        final(s)@ == old(s)@ + type_debug_text(*t),
    decreases t,
{
    let ghost s0 = s@;
    match t {
        Type::T8 => push_str(s, "T8"),
        Type::T16 => push_str(s, "T16"),
        Type::T32 => push_str(s, "T32"),
        Type::T64 => push_str(s, "T64"),
        Type::T128 => push_str(s, "T128"),
        Type::Bool => push_str(s, "Bool"),
        Type::Str => push_str(s, "Str"),
        Type::StrRef => push_str(s, "StrRef"),
        Type::Container => push_str(s, "Container"),
        Type::Char => push_str(s, "Char"),
        Type::Unknown => push_str(s, "Unknown"),
        Type::Enum(n) => {
            push_str(s, "Enum(");
            let q = debug_text(&chars_of(n.as_str()));
            push_str(s, q.as_str());
            push_str(s, ")");
            proof {
                assert(s@ =~= s0 + ("Enum("@ + debug_quoted(n@) + ")"@));
            }
        },
        Type::TypeParam(n) => {
            push_str(s, "TypeParam(");
            let q = debug_text(&chars_of(n.as_str()));
            push_str(s, q.as_str());
            push_str(s, ")");
            proof {
                assert(s@ =~= s0 + ("TypeParam("@ + debug_quoted(n@) + ")"@));
            }
        },
        Type::Handle(inner) => {
            push_str(s, "Handle(");
            push_type_debug_text(s, inner);
            push_str(s, ")");
            proof {
                assert(s@ =~= s0 + ("Handle("@ + type_debug_text(**inner) + ")"@));
            }
        },
    }
}

/// The message of a runtime error (`None` for `BadOperands`, whose message
/// shows the operand values, floats among them, as Debug formatting shows
/// them) and the byte position it points at.
pub open spec fn runtime_error_spec(err: RuntimeError) -> (Option<Seq<char>>, usize) {
    match err {
        RuntimeError::DivByZero { pos } => (Some("division by zero — the right-hand side of '/' evaluated to 0"@), pos),
        RuntimeError::BadOperands { pos, .. } => (None, pos),
        RuntimeError::TypeMismatch { pos, expected, got } => (
            Some(
                "type mismatch — expected '"@ + type_debug_text(expected) + "' but got '"@ + type_debug_text(got)
                    + "'"@,
            ),
            pos,
        ),
        RuntimeError::AlreadyDeclared { pos, name } => (
            Some(
                "variable '"@ + name@
                    + "' was already declared in this scope — use a different name or remove the duplicate"@,
            ),
            pos,
        ),
        RuntimeError::UndefinedVar { pos, name } => (
            Some(
                "variable '"@ + name@ + "' has not been declared — declare it with 'let "@ + name@ + "' or '"@
                    + name@ + ": TYPE = value' before use"@,
            ),
            pos,
        ),
        RuntimeError::OutOfScope { pos, name } => (
            Some("variable '"@ + name@ + "' was declared in a different scope and is not accessible here"@),
            pos,
        ),
        RuntimeError::UninitializedVar { pos, name } => (
            Some("variable '"@ + name@ + "' was declared but never assigned a value before this use"@),
            pos,
        ),
        RuntimeError::TemplateInvalidPlaceholder { pos, placeholder } => (
            Some("invalid template placeholder '{"@ + placeholder@ + "}' — only {NAME} or {NAME:?} are allowed"@),
            pos,
        ),
        RuntimeError::TemplateInvalidFormat { pos, spec } => (
            Some("invalid template format specifier ':"@ + spec@ + "'  — only ':?' is supported"@),
            pos,
        ),
        RuntimeError::BadAssignTarget { pos } => (
            Some("invalid assignment target — only variables and container fields (t.x) can be assigned to"@),
            pos,
        ),
        RuntimeError::NotAContainer { pos, name } => (
            Some("'"@ + name@ + "' is not a container — dot access is only valid on copy_into containers"@),
            pos,
        ),
        RuntimeError::EarlyReturn(_) => (Some("return statement used outside of a function body"@), 0),
        RuntimeError::StaleHandle { pos } => (
            Some("stale handle — the value it referred to has been dropped"@),
            pos,
        ),
        RuntimeError::BreakSignal => (Some("break used outside of a loop"@), 0),
        RuntimeError::ContinueSignal => (Some("continue used outside of a loop"@), 0),
    }
}

fn text3(a: &str, b: &String, c: &str) -> (s: String)
    ensures
        s@ == a@ + b@ + c@,
{
    let mut s = String::new();
    push_str(&mut s, a);
    push_str(&mut s, b.as_str());
    push_str(&mut s, c);
    proof {
        assert(s@ =~= a@ + b@ + c@);
    }
    s
}

fn text1(a: &str) -> (s: String)
    ensures
        s@ == a@,
{
    let mut s = String::new();
    push_str(&mut s, a);
    proof {
        assert(s@ =~= a@);
    }
    s
}

/// The message of a runtime error and its position (see
/// [`runtime_error_spec`]).
pub fn runtime_error_text(err: &RuntimeError) -> (r: (Option<String>, usize))
    ensures
        r.1 == runtime_error_spec(*err).1,
        match r.0 {
            Some(s) => runtime_error_spec(*err).0 == Some(s@),
            None => runtime_error_spec(*err).0 is None,
        },
{
    match err {
        RuntimeError::DivByZero { pos } => (
            Some(text1("division by zero — the right-hand side of '/' evaluated to 0")),
            *pos,
        ),
        RuntimeError::BadOperands { pos, .. } => (None, *pos),
        RuntimeError::TypeMismatch { pos, expected, got } => {
            let mut s = text1("type mismatch — expected '");
            push_type_debug_text(&mut s, expected);
            push_str(&mut s, "' but got '");
            push_type_debug_text(&mut s, got);
            push_str(&mut s, "'");
            proof {
                assert(s@ =~= "type mismatch — expected '"@ + type_debug_text(*expected) + "' but got '"@
                    + type_debug_text(*got) + "'"@);
            }
            (Some(s), *pos)
        },
        RuntimeError::AlreadyDeclared { pos, name } => (
            Some(
                text3(
                    "variable '",
                    name,
                    "' was already declared in this scope — use a different name or remove the duplicate",
                ),
            ),
            *pos,
        ),
        RuntimeError::UndefinedVar { pos, name } => {
            let mut s = text3("variable '", name, "' has not been declared — declare it with 'let ");
            push_str(&mut s, name.as_str());
            push_str(&mut s, "' or '");
            push_str(&mut s, name.as_str());
            push_str(&mut s, ": TYPE = value' before use");
            proof {
                assert(s@ =~= "variable '"@ + name@ + "' has not been declared — declare it with 'let "@ + name@
                    + "' or '"@ + name@ + ": TYPE = value' before use"@);
            }
            (Some(s), *pos)
        },
        RuntimeError::OutOfScope { pos, name } => (
            Some(text3("variable '", name, "' was declared in a different scope and is not accessible here")),
            *pos,
        ),
        RuntimeError::UninitializedVar { pos, name } => (
            Some(text3("variable '", name, "' was declared but never assigned a value before this use")),
            *pos,
        ),
        RuntimeError::TemplateInvalidPlaceholder { pos, placeholder } => (
            Some(text3("invalid template placeholder '{", placeholder, "}' — only {NAME} or {NAME:?} are allowed")),
            *pos,
        ),
        RuntimeError::TemplateInvalidFormat { pos, spec } => (
            Some(text3("invalid template format specifier ':", spec, "'  — only ':?' is supported")),
            *pos,
        ),
        RuntimeError::BadAssignTarget { pos } => (
            Some(text1("invalid assignment target — only variables and container fields (t.x) can be assigned to")),
            *pos,
        ),
        RuntimeError::NotAContainer { pos, name } => (
            Some(text3("'", name, "' is not a container — dot access is only valid on copy_into containers")),
            *pos,
        ),
        RuntimeError::EarlyReturn(_) => (Some(text1("return statement used outside of a function body")), 0),
        RuntimeError::StaleHandle { pos } => (
            Some(text1("stale handle — the value it referred to has been dropped")),
            *pos,
        ),
        RuntimeError::BreakSignal => (Some(text1("break used outside of a loop")), 0),
        RuntimeError::ContinueSignal => (Some(text1("continue used outside of a loop")), 0),
    }
}

} // verus!
