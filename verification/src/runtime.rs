//! Runtime support: what the interpreter keeps of an enum, the mapping from
//! analysed types back to declared types, identifiers, and the reading of
//! `{NAME}` / `{NAME:?}` templates in printed strings.
use vstd::prelude::*;
use crate::frontend::ast::{ParamKind, Type};
use crate::frontend::semantic_types::{SemanticParamKind, SemanticType};
use crate::text::{chars_of, is_white_space, is_ws, trim_end, trim_start};

verus! {

/// What the interpreter keeps of an enum: its variants in order, and the
/// variants of each group and the sub-groups of each super-group, by name.
#[derive(Debug, Clone)]
pub struct EnumRuntimeInfo {
    pub variants: Vec<String>,
    pub groups: Vec<(String, Vec<String>)>,
    pub super_group_order: Vec<(String, Vec<String>)>,
}

// ── Identifiers ──────────────────────────────────────────────────────────────

/// Unicode `Alphabetic`, as `char::is_alphabetic` tests it.
pub uninterp spec fn alphabetic(c: char) -> bool;

/// Unicode `Alphabetic` or `Numeric`, as `char::is_alphanumeric` tests it.
pub uninterp spec fn alphanumeric(c: char) -> bool;

/// `char::is_alphabetic`: whether `c` has Unicode's Alphabetic property.
/// Among ASCII characters exactly the letters have it; of the others the
/// contract says only that the result is [`alphabetic`] of `c`.
#[verifier::external_body]
pub(crate) fn char_is_alphabetic(c: char) -> (r: bool)
    ensures
        r == alphabetic(c),
        (c as u32) < 128 ==> (r <==> ('a' <= c <= 'z' || 'A' <= c <= 'Z')),
{
    c.is_alphabetic()
}

/// `char::is_alphanumeric`: whether `c` is Alphabetic or Numeric in
/// Unicode's sense. Among ASCII characters exactly the letters and the
/// decimal digits are; of the others the contract says only that the result
/// is [`alphanumeric`] of `c`.
#[verifier::external_body]
pub(crate) fn char_is_alphanumeric(c: char) -> (r: bool)
    ensures
        r == alphanumeric(c),
        (c as u32) < 128 ==> (r <==> ('a' <= c <= 'z' || 'A' <= c <= 'Z' || '0' <= c <= '9')),
{
    c.is_alphanumeric()
}

/// An identifier: an underscore or a letter, then underscores, letters and
/// digits.
pub open spec fn ident(s: Seq<char>) -> bool {
    &&& s.len() > 0
    &&& (s[0] == '_' || alphabetic(s[0]))
    &&& forall|i: int| 1 <= i < s.len() ==> (s[i] == '_' || alphanumeric(s[i]))
}

/// Whether `cs` is an identifier (see [`ident`]).
pub fn is_ident_chars(cs: &Vec<char>) -> (r: bool)
    ensures
        r == ident(cs@),
{
    if cs.len() == 0 {
        return false;
    }
    let first = cs[0];
    if !(first == '_' || char_is_alphabetic(first)) {
        return false;
    }
    let mut i: usize = 1;
    while i < cs.len()
        invariant
            1 <= i <= cs@.len(),
            forall|k: int| 1 <= k < i ==> (cs@[k] == '_' || alphanumeric(cs@[k])),
        decreases cs@.len() - i,
    {
        let c = cs[i];
        if !(c == '_' || char_is_alphanumeric(c)) {
            return false;
        }
        i = i + 1;
    }
    true
}

/// Whether `s` is an identifier (see [`ident`]).
pub fn is_ident(s: &str) -> (r: bool)
    ensures
        r == ident(s@),
{
    is_ident_chars(&chars_of(s))
}

// ── Types back to declarations ───────────────────────────────────────────────

/// The declared type an analysed type is run as: floats as `t64`, and an
/// `Unknown` or width-less `Numeric` as `t64`.
pub open spec fn decl_of_sem(t: SemanticType) -> Type
    decreases t,
{
    match t {
        SemanticType::I8 => Type::T8,
        SemanticType::I16 => Type::T16,
        SemanticType::I32 => Type::T32,
        SemanticType::I64 => Type::T64,
        SemanticType::I128 => Type::T128,
        SemanticType::F64 => Type::T64,
        SemanticType::Bool => Type::Bool,
        SemanticType::Str => Type::Str,
        SemanticType::StrRef => Type::StrRef,
        SemanticType::Char => Type::Char,
        SemanticType::Enum(name) => Type::Enum(name),
        SemanticType::Container => Type::Container,
        SemanticType::Handle(inner) => Type::Handle(Box::new(decl_of_sem(*inner))),
        SemanticType::TypeParam(name) => Type::TypeParam(name),
        SemanticType::Unknown => Type::T64,
        SemanticType::Numeric => Type::T64,
    }
}

/// The declared type an analysed type is run as (see [`decl_of_sem`]).
pub fn semantic_type_to_ast(st: &SemanticType) -> (t: Type)
    ensures
        t == decl_of_sem(*st),
    decreases st,
{
    match st {
        SemanticType::I8 => Type::T8,
        SemanticType::I16 => Type::T16,
        SemanticType::I32 => Type::T32,
        SemanticType::I64 => Type::T64,
        SemanticType::I128 => Type::T128,
        SemanticType::F64 => Type::T64,
        SemanticType::Bool => Type::Bool,
        SemanticType::Str => Type::Str,
        SemanticType::StrRef => Type::StrRef,
        SemanticType::Char => Type::Char,
        SemanticType::Enum(name) => Type::Enum(name.clone()),
        SemanticType::Container => Type::Container,
        SemanticType::Handle(inner) => Type::Handle(Box::new(semantic_type_to_ast(&**inner))),
        SemanticType::TypeParam(name) => Type::TypeParam(name.clone()),
        SemanticType::Unknown | SemanticType::Numeric => Type::T64,
    }
}

/// The declared type an analysed type converts to: like
/// [`decl_of_sem`] but `Unknown` stays `Unknown` and `Numeric` becomes
/// `t128`.
pub open spec fn decl_from_sem(t: SemanticType) -> Type
    decreases t,
{
    match t {
        SemanticType::Unknown => Type::Unknown,
        SemanticType::Numeric => Type::T128,
        SemanticType::Handle(inner) => Type::Handle(Box::new(decl_from_sem(*inner))),
        _ => decl_of_sem(t),
    }
}

/// The declared type an analysed type converts to (see
/// [`decl_from_sem`]).
pub fn type_from_semantic(st: SemanticType) -> (t: Type)
    ensures
        t == decl_from_sem(st),
    decreases st,
{
    match st {
        SemanticType::Unknown => Type::Unknown,
        SemanticType::Numeric => Type::T128,
        SemanticType::Handle(inner) => Type::Handle(Box::new(type_from_semantic(*inner))),
        other => semantic_type_to_ast(&other),
    }
}

/// A parameter of kind `sk` with a placeholder name: `_` (typed `t64` for a
/// typed parameter); a `copy_into` parameter gets an empty name and no
/// fields.
pub fn semantic_param_to_ast(sk: &SemanticParamKind) -> (p: ParamKind)
    ensures
        match *sk {
            SemanticParamKind::Typed => p matches ParamKind::Typed(n, t) && n@ == "_"@ && t == Type::T64,
            SemanticParamKind::Copy => p matches ParamKind::Copy(n) && n@ == "_"@,
            SemanticParamKind::CopyFree => p matches ParamKind::CopyFree(n) && n@ == "_"@,
            SemanticParamKind::CopyInto => p matches ParamKind::CopyInto(n, fs) && n@.len() == 0
                && fs@.len() == 0,
        },
{
    match sk {
        SemanticParamKind::Typed => ParamKind::Typed(String::from_str("_"), Type::T64),
        SemanticParamKind::Copy => ParamKind::Copy(String::from_str("_")),
        SemanticParamKind::CopyFree => ParamKind::CopyFree(String::from_str("_")),
        SemanticParamKind::CopyInto => ParamKind::CopyInto(String::new(), Vec::new()),
    }
}

/// The parameter a kind converts to: no name, and an unknown type for a
/// typed parameter.
pub fn param_from_semantic(spk: SemanticParamKind) -> (p: ParamKind)
    ensures
        match spk {
            SemanticParamKind::Typed => p matches ParamKind::Typed(n, t) && n@.len() == 0 && t
                == Type::Unknown,
            SemanticParamKind::Copy => p matches ParamKind::Copy(n) && n@.len() == 0,
            SemanticParamKind::CopyFree => p matches ParamKind::CopyFree(n) && n@.len() == 0,
            SemanticParamKind::CopyInto => p matches ParamKind::CopyInto(n, fs) && n@.len() == 0
                && fs@.len() == 0,
        },
{
    match spk {
        SemanticParamKind::Typed => ParamKind::Typed(String::new(), Type::Unknown),
        SemanticParamKind::Copy => ParamKind::Copy(String::new()),
        SemanticParamKind::CopyFree => ParamKind::CopyFree(String::new()),
        SemanticParamKind::CopyInto => ParamKind::CopyInto(String::new(), Vec::new()),
    }
}

// ── Templates ────────────────────────────────────────────────────────────────

/// One piece of a printed template: a character to print as it is, or the
/// variable `name` to print (with `{:?}` when `debug`).
#[derive(Debug, PartialEq)]
pub enum TemplatePart {
    Literal(char),
    Value { name: String, debug: bool },
}

/// What is wrong with a template placeholder.
#[derive(Debug, PartialEq)]
pub enum TemplateError {
    /// The placeholder's name is not an identifier.
    InvalidPlaceholder(String),
    /// The placeholder's format is neither empty nor `?`.
    InvalidFormat(String),
}

/// A template read up to its first bad placeholder: the pieces before it,
/// and what is wrong with it.
#[derive(Debug)]
pub struct TemplateScan {
    pub parts: Vec<TemplatePart>,
    pub error: Option<TemplateError>,
}

pub enum PartModel {
    Literal(char),
    Value(Seq<char>, bool),
}

pub enum TemplateErrorModel {
    InvalidPlaceholder(Seq<char>),
    InvalidFormat(Seq<char>),
}

pub open spec fn part_model(p: TemplatePart) -> PartModel {
    match p {
        TemplatePart::Literal(c) => PartModel::Literal(c),
        TemplatePart::Value { name, debug } => PartModel::Value(name@, debug),
    }
}

pub open spec fn parts_model(s: Seq<TemplatePart>) -> Seq<PartModel> {
    s.map_values(|p: TemplatePart| part_model(p))
}

pub open spec fn template_error_model(e: TemplateError) -> TemplateErrorModel {
    match e {
        TemplateError::InvalidPlaceholder(s) => TemplateErrorModel::InvalidPlaceholder(s@),
        TemplateError::InvalidFormat(s) => TemplateErrorModel::InvalidFormat(s@),
    }
}

/// `s` without leading and trailing white space.
pub open spec fn trim(s: Seq<char>) -> Seq<char> {
    trim_start(trim_end(s))
}

/// The index of the first `}` at or after `j`, or the end.
pub open spec fn brace_end(cs: Seq<char>, j: int) -> int
    decreases cs.len() - j,
{
    if j < 0 || j >= cs.len() {
        cs.len() as int
    } else if cs[j] == '}' {
        j
    } else {
        brace_end(cs, j + 1)
    }
}

pub proof fn lemma_brace_end(cs: Seq<char>, j: int)
    requires
        0 <= j <= cs.len(),
    ensures
        j <= brace_end(cs, j) <= cs.len(),
        forall|k: int| j <= k < brace_end(cs, j) ==> cs[k] != '}',
    decreases cs.len() - j,
{
    if j < cs.len() && cs[j] != '}' {
        lemma_brace_end(cs, j + 1);
    }
}

/// The characters of `s` but its colons.
pub open spec fn drop_colons(s: Seq<char>) -> Seq<char>
    decreases s.len(),
{
    if s.len() == 0 {
        Seq::empty()
    } else if s.last() == ':' {
        drop_colons(s.drop_last())
    } else {
        drop_colons(s.drop_last()).push(s.last())
    }
}

/// A placeholder's name: what precedes its first colon.
pub open spec fn name_part(body: Seq<char>) -> Seq<char> {
    match crate::text::index_of(body, ':') {
        Some(k) => body.take(k),
        None => body,
    }
}

/// A placeholder's format: what follows its first colon, colons dropped.
pub open spec fn format_part(body: Seq<char>) -> Seq<char> {
    match crate::text::index_of(body, ':') {
        Some(k) => drop_colons(body.skip(k + 1)),
        None => Seq::empty(),
    }
}

/// Where reading resumes after the placeholder opened at `i`: just past
/// its `}`, or at the end.
pub open spec fn after_placeholder(cs: Seq<char>, i: int) -> int {
    let j = brace_end(cs, i + 1);
    if j < cs.len() {
        j + 1
    } else {
        j
    }
}

/// The placeholder opened at `i`: its name (trimmed) must be an
/// identifier and its format empty or `?`.
pub open spec fn placeholder_at(cs: Seq<char>, i: int) -> Result<PartModel, TemplateErrorModel> {
    let body = cs.subrange(i + 1, brace_end(cs, i + 1));
    let key = trim(name_part(body));
    let fmt = format_part(body);
    if !ident(key) {
        Err(TemplateErrorModel::InvalidPlaceholder(key))
    } else if !(fmt.len() == 0 || fmt == seq!['?']) {
        Err(TemplateErrorModel::InvalidFormat(fmt))
    } else {
        Ok(PartModel::Value(key, fmt.len() != 0))
    }
}

/// A template read from index `i`: characters stand for themselves; `{`
/// opens a placeholder that runs to the next `}` (or the end). Reading
/// stops at the first bad placeholder.
pub open spec fn scan_template(cs: Seq<char>, i: int) -> (Seq<PartModel>, Option<TemplateErrorModel>)
    decreases cs.len() - i,
{
    if i < 0 || i >= cs.len() {
        (Seq::empty(), None)
    } else if cs[i] == '{' {
        proof {
            lemma_brace_end(cs, i + 1);
        }
        match placeholder_at(cs, i) {
            Err(e) => (Seq::empty(), Some(e)),
            Ok(p) => {
                let (rest, e) = scan_template(cs, after_placeholder(cs, i));
                (seq![p] + rest, e)
            },
        }
    } else {
        let (rest, e) = scan_template(cs, i + 1);
        (seq![PartModel::Literal(cs[i])] + rest, e)
    }
}

pub open spec fn scan_model(t: TemplateScan) -> (Seq<PartModel>, Option<TemplateErrorModel>) {
    (
        parts_model(t.parts@),
        match t.error {
            Some(e) => Some(template_error_model(e)),
            None => None,
        },
    )
}

/// `cs` without leading and trailing white space.
fn trim_chars(cs: &Vec<char>, from: usize, to: usize) -> (r: Vec<char>)
    requires
        from <= to <= cs@.len(),
    ensures
        r@ == trim(cs@.subrange(from as int, to as int)),
{
    let ghost s = cs@.subrange(from as int, to as int);
    let mut e = to;
    while e > from && is_white_space(cs[e - 1])
        invariant
            from <= e <= to,
            to <= cs@.len(),
            trim_end(s) == trim_end(cs@.subrange(from as int, e as int)),
        decreases e,
    {
        proof {
            assert(cs@.subrange(from as int, e as int).drop_last() =~= cs@.subrange(from as int, e - 1));
        }
        e = e - 1;
    }
    let ghost t = cs@.subrange(from as int, e as int);
    assert(trim_end(s) == t);
    let mut b = from;
    while b < e && is_white_space(cs[b])
        invariant
            from <= b <= e,
            e <= cs@.len(),
            trim_start(t) == trim_start(cs@.subrange(b as int, e as int)),
        decreases e - b,
    {
        proof {
            assert(cs@.subrange(b as int, e as int).drop_first() =~= cs@.subrange(b + 1, e as int));
        }
        b = b + 1;
    }
    let mut r: Vec<char> = Vec::new();
    let mut k = b;
    while k < e
        invariant
            b <= k <= e,
            e <= cs@.len(),
            r@ == cs@.subrange(b as int, k as int),
        decreases e - k,
    {
        r.push(cs[k]);
        proof {
            assert(r@ =~= cs@.subrange(b as int, k + 1));
        }
        k = k + 1;
    }
    r
}

fn string_of_chars(cs: &Vec<char>) -> (s: String)
    ensures
        s@ == cs@,
{
    let mut s = String::new();
    let mut i: usize = 0;
    while i < cs.len()
        invariant
            i <= cs@.len(),
            s@ == cs@.take(i as int),
        decreases cs@.len() - i,
    {
        crate::text::push_char(&mut s, cs[i]);
        proof {
            assert(cs@.take(i + 1) =~= cs@.take(i as int).push(cs@[i as int]));
        }
        i = i + 1;
    }
    proof {
        assert(cs@.take(cs@.len() as int) =~= cs@);
    }
    s
}

/// Read the placeholder opened at `i` (see [`placeholder_at`]); also where
/// reading resumes.
fn read_placeholder(cs: &Vec<char>, i: usize) -> (r: (usize, Result<TemplatePart, TemplateError>))
    requires
        i < cs@.len(),
    ensures
        r.0 == after_placeholder(cs@, i as int),
        match placeholder_at(cs@, i as int) {
            Ok(pm) => r.1 matches Ok(p) && part_model(p) == pm,
            Err(em) => r.1 matches Err(e) && template_error_model(e) == em,
        },
{
    let n = cs.len();
    let mut j = i + 1;
    while j < n && cs[j] != '}'
        invariant
            i + 1 <= j <= cs@.len(),
            n == cs@.len(),
            brace_end(cs@, (i + 1) as int) == brace_end(cs@, j as int),
        decreases cs@.len() - j,
    {
        j = j + 1;
    }
    let ghost body = cs@.subrange(i + 1, j as int);
    let mut colon = i + 1;
    while colon < j && cs[colon] != ':'
        invariant
            i + 1 <= colon <= j,
            j <= cs@.len(),
            body == cs@.subrange(i + 1, j as int),
            crate::text::index_of_from(body, ':', 0) == crate::text::index_of_from(body, ':', colon - (i + 1)),
        decreases j - colon,
    {
        colon = colon + 1;
    }
    let key = trim_chars(cs, i + 1, colon);
    let mut fmt: Vec<char> = Vec::new();
    let mut k = if colon < j { colon + 1 } else { j };
    let ghost fstart = k;
    while k < j
        invariant
            fstart <= k <= j,
            j <= cs@.len(),
            fmt@ == drop_colons(cs@.subrange(fstart as int, k as int)),
        decreases j - k,
    {
        proof {
            assert(cs@.subrange(fstart as int, k + 1).drop_last() =~= cs@.subrange(fstart as int, k as int));
        }
        if cs[k] != ':' {
            fmt.push(cs[k]);
        }
        k = k + 1;
    }
    proof {
        assert(name_part(body) =~= cs@.subrange(i + 1, colon as int));
        if colon < j {
            assert(body.skip(colon - i) =~= cs@.subrange(fstart as int, j as int));
        } else {
            assert(drop_colons(cs@.subrange(fstart as int, j as int)) =~= Seq::<char>::empty());
        }
    }
    let next = if j < cs.len() { j + 1 } else { j };
    if !is_ident_chars(&key) {
        return (next, Err(TemplateError::InvalidPlaceholder(string_of_chars(&key))));
    }
    let plain = fmt.len() == 0;
    let question = fmt.len() == 1 && fmt[0] == '?';
    proof {
        if fmt@.len() == 1 && fmt@[0] == '?' {
            assert(fmt@ =~= seq!['?']);
        }
    }
    if !(plain || question) {
        return (next, Err(TemplateError::InvalidFormat(string_of_chars(&fmt))));
    }
    (next, Ok(TemplatePart::Value { name: string_of_chars(&key), debug: !plain }))
}

proof fn lemma_scan_char_step(cs: Seq<char>, i: int, c: char, old: Seq<TemplatePart>, new: Seq<TemplatePart>)
    requires
        0 <= i < cs.len(),
        c == cs[i],
        c != '{',
        new == old.push(TemplatePart::Literal(c)),
        scan_template(cs, 0).0 == parts_model(old) + scan_template(cs, i).0,
        scan_template(cs, 0).1 == scan_template(cs, i).1,
    ensures
        scan_template(cs, 0).0 == parts_model(new) + scan_template(cs, i + 1).0,
        scan_template(cs, 0).1 == scan_template(cs, i + 1).1,
{
    let pm = PartModel::Literal(c);
    lemma_parts_push(old, TemplatePart::Literal(c));
    let sc = scan_template(cs, i + 1);
    assert(scan_template(cs, i).0 == seq![pm] + sc.0);
    lemma_push_concat(parts_model(old), pm, sc.0);
}

fn push_char_part(parts: &mut Vec<TemplatePart>, c: char)
    ensures
        final(parts)@ == old(parts)@.push(TemplatePart::Literal(c)),
{
    parts.push(TemplatePart::Literal(c));
}

proof fn lemma_push_concat<A>(a: Seq<A>, x: A, b: Seq<A>)
    ensures
        a.push(x) + b == a + (seq![x] + b),
{
    assert(a.push(x) + b =~= a + (seq![x] + b));
}

proof fn lemma_parts_push(s: Seq<TemplatePart>, p: TemplatePart)
    ensures
        parts_model(s.push(p)) == parts_model(s).push(part_model(p)),
{
    assert(parts_model(s.push(p)) =~= parts_model(s).push(part_model(p)));
}

/// A template without `{` reads as its characters, each standing for
/// itself, and nothing in it is wrong.
proof fn lemma_cons_index<A>(x: A, s: Seq<A>, k: int)
    requires
        0 <= k <= s.len(),
    ensures
        (seq![x] + s).len() == s.len() + 1,
        k == 0 ==> (seq![x] + s)[k] == x,
        k > 0 ==> (seq![x] + s)[k] == s[k - 1],
{
}

pub proof fn law_template_without_placeholders(cs: Seq<char>, i: int)
    requires
        0 <= i <= cs.len(),
        forall|k: int| i <= k < cs.len() ==> cs[k] != '{',
    ensures
        scan_template(cs, i).1 == None::<TemplateErrorModel>,
        scan_template(cs, i).0.len() == cs.len() - i,
        forall|k: int| 0 <= k < cs.len() - i ==> #[trigger] scan_template(cs, i).0[k] == PartModel::Literal(cs[i + k]),
    decreases cs.len() - i,
{
    if i < cs.len() {
        let c = cs[i];
        assert(c != '{');
        law_template_without_placeholders(cs, i + 1);
        let pm = PartModel::Literal(c);
        let sc = scan_template(cs, i + 1);
        assert(scan_template(cs, i).0 == seq![pm] + sc.0);
        lemma_cons_index(pm, sc.0, 0);
        assert forall|k: int| 0 <= k < cs.len() - i implies #[trigger] scan_template(cs, i).0[k] == PartModel::Literal(
            cs[i + k],
        ) by {
            lemma_cons_index(pm, sc.0, k);
            if k > 0 {
                assert(sc.0[k - 1] == PartModel::Literal(cs[i + 1 + (k - 1)]));
            }
        }
    }
}

/// A placeholder `{name}` reads as the value of `name` shown plainly, and
/// `{name:?}` as its value shown in Debug form, for an identifier `name`
/// that holds no colon or `}` and neither starts nor ends with white space.
pub proof fn law_placeholder_reads_name(name: Seq<char>, debug: bool)
    requires
        ident(name),
        !is_ws(name[0]),
        !is_ws(name.last()),
        forall|k: int| 0 <= k < name.len() ==> name[k] != ':' && name[k] != '}',
    ensures
        ({
            let fmt = if debug { seq![':', '?'] } else { Seq::<char>::empty() };
            let cs = seq!['{'] + name + fmt + seq!['}'];
            scan_template(cs, 0) == (seq![PartModel::Value(name, debug)], None::<TemplateErrorModel>)
        }),
{
    let fmt = if debug { seq![':', '?'] } else { Seq::<char>::empty() };
    let cs = seq!['{'] + name + fmt + seq!['}'];
    let n = name.len() as int;
    let e = 1 + n + fmt.len();
    assert forall|k: int| 1 <= k < e implies cs[k] != '}' by {
        if k <= n {
            assert(cs[k] == name[k - 1]);
        }
    }
    assert(cs[e] == '}');
    lemma_brace_end(cs, 1);
    assert(brace_end(cs, 1) == e) by {
        if brace_end(cs, 1) < e {
            assert(cs[brace_end(cs, 1)] == '}') by {
                lemma_brace_end_hit(cs, 1);
            }
        }
        if brace_end(cs, 1) > e {
            assert(cs[e] != '}');
        }
    }
    let body = cs.subrange(1, e);
    assert(body =~= name + fmt);
    crate::text::lemma_index_of_from(body, ':', 0);
    if debug {
        assert(body[n] == ':');
        assert(crate::text::index_of(body, ':') == Some(n)) by {
            match crate::text::index_of(body, ':') {
                Some(j) => {
                    if j < n {
                        assert(body[j] == name[j]);
                    }
                },
                None => {},
            }
        }
        assert(body.take(n) =~= name);
        assert(body.skip(n + 1) =~= seq!['?']);
        let q = seq!['?'];
        assert(q.drop_last() =~= Seq::<char>::empty());
        assert(q.last() == '?');
        assert(drop_colons(Seq::<char>::empty()) == Seq::<char>::empty());
        assert(drop_colons(q) == drop_colons(q.drop_last()).push('?'));
        assert(drop_colons(q) =~= q);
    } else {
        assert(body =~= name);
        assert(crate::text::index_of(body, ':') is None) by {
            match crate::text::index_of(body, ':') {
                Some(j) => {
                    assert(body[j] == name[j]);
                },
                None => {},
            }
        }
    }
    assert(name.len() > 0);
    assert(trim_end(name) == name);
    assert(trim_start(name) == name);
    assert(trim(name) == name);
    assert(after_placeholder(cs, 0) == cs.len());
    assert(scan_template(cs, cs.len() as int) == (Seq::<PartModel>::empty(), None::<TemplateErrorModel>));
    lemma_cons_index(PartModel::Value(name, debug), Seq::<PartModel>::empty(), 0);
    assert(seq![PartModel::Value(name, debug)] + Seq::<PartModel>::empty() =~= seq![PartModel::Value(name, debug)]);
}

proof fn lemma_brace_end_hit(cs: Seq<char>, j: int)
    requires
        0 <= j <= cs.len(),
        brace_end(cs, j) < cs.len(),
    ensures
        cs[brace_end(cs, j)] == '}',
    decreases cs.len() - j,
{
    if j < cs.len() && cs[j] != '}' {
        lemma_brace_end_hit(cs, j + 1);
    }
}

/// Read a template (see [`scan_template`]).
pub fn parse_template(s: &str) -> (r: TemplateScan)
    ensures
        scan_model(r) == scan_template(s@, 0),
{
    let cs = chars_of(s);
    let mut parts: Vec<TemplatePart> = Vec::new();
    let mut i: usize = 0;
    while i < cs.len()
        invariant
            i <= cs@.len(),
            cs@ == s@,
            scan_template(cs@, 0).0 == parts_model(parts@) + scan_template(cs@, i as int).0,
            scan_template(cs@, 0).1 == scan_template(cs@, i as int).1,
        decreases cs@.len() - i,
    {
        let ghost old_parts = parts@;
        if cs[i] == '{' {
            proof {
                lemma_brace_end(cs@, i + 1);
            }
            let (next, r) = read_placeholder(&cs, i);
            match r {
                Err(e) => {
                    return TemplateScan { parts, error: Some(e) };
                },
                Ok(p) => {
                    parts.push(p);
                    proof {
                        lemma_parts_push(old_parts, p);
                        let sc = scan_template(cs@, next as int);
                        assert(parts_model(old_parts).push(part_model(p)) + sc.0 =~= parts_model(old_parts) + (
                        seq![part_model(p)] + sc.0));
                    }
                    i = next;
                },
            }
        } else {
            let c = cs[i];
            push_char_part(&mut parts, c);
            proof {
                lemma_scan_char_step(cs@, i as int, c, old_parts, parts@);
            }
            i = i + 1;
        }
    }
    TemplateScan { parts, error: None }
}

} // verus!
