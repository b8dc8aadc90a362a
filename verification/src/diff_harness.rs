//! Differential-harness data model: feature categories of the fixture
//! matrix, expected outcomes of a fixture, and the rejection-shape
//! annotation format of `.expected_fail` sidecars.
use vstd::prelude::*;
use crate::frontend::lexer::{digits_value, is_digit};
use crate::frontend::semantic::str_eq_string;
use crate::text::{
    chars_of, debug_quoted, debug_text, find_char, index_of, is_ws, is_white_space, normalise, normalised, push_signed, push_str,
    signed_decimal, string_of, tail_from, trim_end, trim_end_string, trim_start,
};

verus! {

#[verifier::external_type_specification]
#[verifier::external_body]
pub struct ExPathBuf(std::path::PathBuf);

/// `PathBuf::clone`: nothing is stated of the copy.
pub assume_specification[ <std::path::PathBuf as Clone>::clone ](p: &std::path::PathBuf) -> std::path::PathBuf;

/// Language feature categories of the parity checklist. Each fixture maps
/// to exactly one.
#[derive(Debug, Clone, Copy, PartialEq, Eq, Hash, PartialOrd, Ord)]
pub enum FeatureCategory {
    Arithmetic,
    VariableDecl,
    IfElse,
    WhileLoop,
    ForLoop,
    InfiniteLoop,
    DirectCall,
    Struct,
    Array,
    CompoundAssign,
    Unary,
    Cast,
    FloatOps,
    BuiltinAssert,
    LogicalOps,
    Other,
}

/// Every category, in the stable order used for table output.
pub open spec fn all_categories() -> Seq<FeatureCategory> {
    seq![
        FeatureCategory::Arithmetic,
        FeatureCategory::VariableDecl,
        FeatureCategory::IfElse,
        FeatureCategory::WhileLoop,
        FeatureCategory::ForLoop,
        FeatureCategory::InfiniteLoop,
        FeatureCategory::DirectCall,
        FeatureCategory::Struct,
        FeatureCategory::Array,
        FeatureCategory::CompoundAssign,
        FeatureCategory::Unary,
        FeatureCategory::Cast,
        FeatureCategory::FloatOps,
        FeatureCategory::BuiltinAssert,
        FeatureCategory::LogicalOps,
        FeatureCategory::Other,
    ]
}

/// The display name of a category (its variant name).
pub open spec fn category_name(c: FeatureCategory) -> Seq<char> {
    match c {
        FeatureCategory::Arithmetic => "Arithmetic"@,
        FeatureCategory::VariableDecl => "VariableDecl"@,
        FeatureCategory::IfElse => "IfElse"@,
        FeatureCategory::WhileLoop => "WhileLoop"@,
        FeatureCategory::ForLoop => "ForLoop"@,
        FeatureCategory::InfiniteLoop => "InfiniteLoop"@,
        FeatureCategory::DirectCall => "DirectCall"@,
        FeatureCategory::Struct => "Struct"@,
        FeatureCategory::Array => "Array"@,
        FeatureCategory::CompoundAssign => "CompoundAssign"@,
        FeatureCategory::Unary => "Unary"@,
        FeatureCategory::Cast => "Cast"@,
        FeatureCategory::FloatOps => "FloatOps"@,
        FeatureCategory::BuiltinAssert => "BuiltinAssert"@,
        FeatureCategory::LogicalOps => "LogicalOps"@,
        FeatureCategory::Other => "Other"@,
    }
}

impl FeatureCategory {
    /// All category variants in a stable order for table output.
    pub fn all() -> (v: Vec<FeatureCategory>)
        ensures
            v@ == all_categories(),
    {
        let v = vec![
            FeatureCategory::Arithmetic,
            FeatureCategory::VariableDecl,
            FeatureCategory::IfElse,
            FeatureCategory::WhileLoop,
            FeatureCategory::ForLoop,
            FeatureCategory::InfiniteLoop,
            FeatureCategory::DirectCall,
            FeatureCategory::Struct,
            FeatureCategory::Array,
            FeatureCategory::CompoundAssign,
            FeatureCategory::Unary,
            FeatureCategory::Cast,
            FeatureCategory::FloatOps,
            FeatureCategory::BuiltinAssert,
            FeatureCategory::LogicalOps,
            FeatureCategory::Other,
        ];
        proof {
            assert(v@ =~= all_categories());
        }
        v
    }

    /// The category's display name.
    pub fn name(&self) -> (s: &'static str)
        ensures
            s@ == category_name(*self),
    {
        match self {
            FeatureCategory::Arithmetic => "Arithmetic",
            FeatureCategory::VariableDecl => "VariableDecl",
            FeatureCategory::IfElse => "IfElse",
            FeatureCategory::WhileLoop => "WhileLoop",
            FeatureCategory::ForLoop => "ForLoop",
            FeatureCategory::InfiniteLoop => "InfiniteLoop",
            FeatureCategory::DirectCall => "DirectCall",
            FeatureCategory::Struct => "Struct",
            FeatureCategory::Array => "Array",
            FeatureCategory::CompoundAssign => "CompoundAssign",
            FeatureCategory::Unary => "Unary",
            FeatureCategory::Cast => "Cast",
            FeatureCategory::FloatOps => "FloatOps",
            FeatureCategory::BuiltinAssert => "BuiltinAssert",
            FeatureCategory::LogicalOps => "LogicalOps",
            FeatureCategory::Other => "Other",
        }
    }
}

/// The category of a fixture, by its file stem; fixtures not listed are
/// `Other`.
pub open spec fn category_of(n: Seq<char>) -> FeatureCategory {
    if n == "t01_arith_eq_mod"@ ||
        n == "t89_overflow_t8_add"@ ||
        n == "t90_overflow_t8_mul"@ ||
        n == "t91_overflow_t8_chain"@ ||
        n == "t92_overflow_t8_compare"@ ||
        n == "t93_overflow_t16_wrap"@ ||
        n == "t94_overflow_mixed_widths"@ ||
        n == "t95_overflow_t128_unchanged"@ ||
        n == "t103_arithmetic_on_strings"@ ||
        n == "t114_eval_order_binary_arith"@ ||
        n == "t115_eval_order_compare"@ ||
        n == "t116_eval_order_nested"@ ||
        n == "t117_arith_add_exit"@ ||
        n == "t118_arith_sub_exit"@ ||
        n == "t119_arith_mul_exit"@ ||
        n == "t120_arith_div_exit"@ ||
        n == "t121_arith_mod_exit"@ ||
        n == "t172_arith_t128_exit"@ {
        FeatureCategory::Arithmetic
    } else if n == "t15_block_scope_shadow"@ ||
        n == "t56_const_basic"@ ||
        n == "t57_const_reassign_reject"@ ||
        n == "t101_undefined_var_hint"@ ||
        n == "t102_type_mismatch_uses_cx_names"@ ||
        n == "t122_vardecl_int_exit"@ ||
        n == "t123_vardecl_reassign_exit"@ ||
        n == "t124_vardecl_arith_exit"@ ||
        n == "t173_const_decl_exit"@ ||
        n == "t174_block_scope_shadow_exit"@ {
        FeatureCategory::VariableDecl
    } else if n == "t44_if_else_basic"@ ||
        n == "t45_if_else_in_func"@ ||
        n == "t46_if_not"@ ||
        n == "t129_if_else_exit"@ ||
        n == "t130_if_else_in_func_exit"@ ||
        n == "t131_if_not_exit"@ {
        FeatureCategory::IfElse
    } else if n == "t23_while_loop"@ ||
        n == "t34_while_in"@ ||
        n == "t35_while_in_then"@ ||
        n == "t105_while_in_func"@ ||
        n == "t107_continue_in_func"@ ||
        n == "t108_nested_loops_in_func"@ ||
        n == "t132_while_loop_exit"@ ||
        n == "t133_while_in_func_exit"@ {
        FeatureCategory::WhileLoop
    } else if n == "t48_for_loop"@ ||
        n == "t104_for_in_func"@ ||
        n == "t149_for_loop_exit"@ ||
        n == "t150_for_in_func_exit"@ {
        FeatureCategory::ForLoop
    } else if n == "t25_loop_break"@ ||
        n == "t106_loop_break_in_func"@ ||
        n == "t134_loop_break_exit"@ ||
        n == "t167_infinite_loop_counter_exit"@ ||
        n == "t168_infinite_loop_countdown_exit"@ {
        FeatureCategory::InfiniteLoop
    } else if n == "t02_implicit_return"@ ||
        n == "t03_explicit_return"@ ||
        n == "t04_wrong_return_type"@ ||
        n == "t05_missing_return_value"@ ||
        n == "t06_void_unexpected_return"@ ||
        n == "t07_arg_count_mismatch"@ ||
        n == "t08_arg_type_mismatch"@ ||
        n == "t14_nested_5_deep"@ ||
        n == "t29_forward_decl"@ ||
        n == "t50_nested_func_no_leak"@ ||
        n == "t113_recursive_fib"@ ||
        n == "t159_direct_call_implicit_return_exit"@ ||
        n == "t160_direct_call_explicit_return_exit"@ ||
        n == "t161_direct_call_no_args_exit"@ ||
        n == "t162_direct_call_chained_exit"@ ||
        n == "t163_direct_call_forward_decl_exit"@ ||
        n == "t164_direct_call_recursive_exit"@ {
        FeatureCategory::DirectCall
    } else if n == "t36_struct_probe"@ ||
        n == "t39_impl_basic"@ ||
        n == "t40_impl_return"@ ||
        n == "t43_multi_alias_impl"@ ||
        n == "t109_struct_field_overflow"@ ||
        n == "t110_struct_field_assign_overflow"@ ||
        n == "t114_field_type_mismatch_reject"@ ||
        n == "t115_strref_in_struct_reject"@ ||
        n == "t125_struct_field_read_exit"@ ||
        n == "t126_struct_second_field_read_exit"@ ||
        n == "t127_struct_field_write_exit"@ ||
        n == "t175_impl_basic_exit"@ ||
        n == "t176_impl_return_exit"@ ||
        n == "t177_multi_alias_impl_exit"@ {
        FeatureCategory::Struct
    } else if n == "t33_arrays"@ ||
        n == "t112_array_of_result"@ ||
        n == "t146_array_read_exit"@ ||
        n == "t147_array_write_exit"@ ||
        n == "t148_array_in_func_exit"@ {
        FeatureCategory::Array
    } else if n == "t26_compound_add_two"@ ||
        n == "t41_compound_assign_dot"@ ||
        n == "t128_struct_compound_assign_exit"@ ||
        n == "t151_var_compound_assign_exit"@ ||
        n == "t152_compound_assign_dotaccess_exit"@ ||
        n == "t153_compound_assign_index_exit"@ ||
        n == "t169_compound_assign_func_exit"@ {
        FeatureCategory::CompoundAssign
    } else if n == "t96_overflow_t8_unary_neg"@ ||
        n == "t165_unary_neg_int_exit"@ ||
        n == "t166_unary_not_bool_exit"@ {
        FeatureCategory::Unary
    } else if n == "t139_cast_t32_to_f64_exit"@ ||
        n == "t140_cast_f64_truncate_exit"@ ||
        n == "t157_cast_neg_t32_to_f64_exit"@ ||
        n == "t158_cast_t64_to_f64_exit"@ {
        FeatureCategory::Cast
    } else if n == "t55_f64_basic"@ ||
        n == "t135_float_arith_add_exit"@ ||
        n == "t136_float_arith_sub_exit"@ ||
        n == "t137_float_arith_mul_exit"@ ||
        n == "t138_float_arith_div_exit"@ ||
        n == "t155_float_arith_mod_exit"@ ||
        n == "t156_float_neg_exit"@ {
        FeatureCategory::FloatOps
    } else if n == "t77_assert_basic"@ ||
        n == "t78_assert_eq_strings"@ ||
        n == "t79_assert_false_reject"@ ||
        n == "t80_assert_eq_mismatch_reject"@ ||
        n == "t170_assert_pass_exit"@ ||
        n == "t171_assert_eq_pass_exit"@ {
        FeatureCategory::BuiltinAssert
    } else if n == "t141_logical_and_or_exit"@ ||
        n == "t142_logical_while_and_nested_exit"@ {
        FeatureCategory::LogicalOps
    } else {
        FeatureCategory::Other
    }
}

fn name_is(n: &Vec<char>, lit: &str) -> (r: bool)
    ensures
        r == (n@ == lit@),
{
    let l = chars_of(lit);
    crate::text::chars_eq(n.as_slice(), l.as_slice())
}

/// Map a fixture stem (e.g. `"t01_arith_eq_mod"`) to its feature category.
pub fn feature_of(fixture_name: &str) -> (c: FeatureCategory)
    ensures
        c == category_of(fixture_name@),
{
    let n = chars_of(fixture_name);
    if name_is(&n, "t01_arith_eq_mod") ||
        name_is(&n, "t89_overflow_t8_add") ||
        name_is(&n, "t90_overflow_t8_mul") ||
        name_is(&n, "t91_overflow_t8_chain") ||
        name_is(&n, "t92_overflow_t8_compare") ||
        name_is(&n, "t93_overflow_t16_wrap") ||
        name_is(&n, "t94_overflow_mixed_widths") ||
        name_is(&n, "t95_overflow_t128_unchanged") ||
        name_is(&n, "t103_arithmetic_on_strings") ||
        name_is(&n, "t114_eval_order_binary_arith") ||
        name_is(&n, "t115_eval_order_compare") ||
        name_is(&n, "t116_eval_order_nested") ||
        name_is(&n, "t117_arith_add_exit") ||
        name_is(&n, "t118_arith_sub_exit") ||
        name_is(&n, "t119_arith_mul_exit") ||
        name_is(&n, "t120_arith_div_exit") ||
        name_is(&n, "t121_arith_mod_exit") ||
        name_is(&n, "t172_arith_t128_exit") {
        FeatureCategory::Arithmetic
    } else if name_is(&n, "t15_block_scope_shadow") ||
        name_is(&n, "t56_const_basic") ||
        name_is(&n, "t57_const_reassign_reject") ||
        name_is(&n, "t101_undefined_var_hint") ||
        name_is(&n, "t102_type_mismatch_uses_cx_names") ||
        name_is(&n, "t122_vardecl_int_exit") ||
        name_is(&n, "t123_vardecl_reassign_exit") ||
        name_is(&n, "t124_vardecl_arith_exit") ||
        name_is(&n, "t173_const_decl_exit") ||
        name_is(&n, "t174_block_scope_shadow_exit") {
        FeatureCategory::VariableDecl
    } else if name_is(&n, "t44_if_else_basic") ||
        name_is(&n, "t45_if_else_in_func") ||
        name_is(&n, "t46_if_not") ||
        name_is(&n, "t129_if_else_exit") ||
        name_is(&n, "t130_if_else_in_func_exit") ||
        name_is(&n, "t131_if_not_exit") {
        FeatureCategory::IfElse
    } else if name_is(&n, "t23_while_loop") ||
        name_is(&n, "t34_while_in") ||
        name_is(&n, "t35_while_in_then") ||
        name_is(&n, "t105_while_in_func") ||
        name_is(&n, "t107_continue_in_func") ||
        name_is(&n, "t108_nested_loops_in_func") ||
        name_is(&n, "t132_while_loop_exit") ||
        name_is(&n, "t133_while_in_func_exit") {
        FeatureCategory::WhileLoop
    } else if name_is(&n, "t48_for_loop") ||
        name_is(&n, "t104_for_in_func") ||
        name_is(&n, "t149_for_loop_exit") ||
        name_is(&n, "t150_for_in_func_exit") {
        FeatureCategory::ForLoop
    } else if name_is(&n, "t25_loop_break") ||
        name_is(&n, "t106_loop_break_in_func") ||
        name_is(&n, "t134_loop_break_exit") ||
        name_is(&n, "t167_infinite_loop_counter_exit") ||
        name_is(&n, "t168_infinite_loop_countdown_exit") {
        FeatureCategory::InfiniteLoop
    } else if name_is(&n, "t02_implicit_return") ||
        name_is(&n, "t03_explicit_return") ||
        name_is(&n, "t04_wrong_return_type") ||
        name_is(&n, "t05_missing_return_value") ||
        name_is(&n, "t06_void_unexpected_return") ||
        name_is(&n, "t07_arg_count_mismatch") ||
        name_is(&n, "t08_arg_type_mismatch") ||
        name_is(&n, "t14_nested_5_deep") ||
        name_is(&n, "t29_forward_decl") ||
        name_is(&n, "t50_nested_func_no_leak") ||
        name_is(&n, "t113_recursive_fib") ||
        name_is(&n, "t159_direct_call_implicit_return_exit") ||
        name_is(&n, "t160_direct_call_explicit_return_exit") ||
        name_is(&n, "t161_direct_call_no_args_exit") ||
        name_is(&n, "t162_direct_call_chained_exit") ||
        name_is(&n, "t163_direct_call_forward_decl_exit") ||
        name_is(&n, "t164_direct_call_recursive_exit") {
        FeatureCategory::DirectCall
    } else if name_is(&n, "t36_struct_probe") ||
        name_is(&n, "t39_impl_basic") ||
        name_is(&n, "t40_impl_return") ||
        name_is(&n, "t43_multi_alias_impl") ||
        name_is(&n, "t109_struct_field_overflow") ||
        name_is(&n, "t110_struct_field_assign_overflow") ||
        name_is(&n, "t114_field_type_mismatch_reject") ||
        name_is(&n, "t115_strref_in_struct_reject") ||
        name_is(&n, "t125_struct_field_read_exit") ||
        name_is(&n, "t126_struct_second_field_read_exit") ||
        name_is(&n, "t127_struct_field_write_exit") ||
        name_is(&n, "t175_impl_basic_exit") ||
        name_is(&n, "t176_impl_return_exit") ||
        name_is(&n, "t177_multi_alias_impl_exit") {
        FeatureCategory::Struct
    } else if name_is(&n, "t33_arrays") ||
        name_is(&n, "t112_array_of_result") ||
        name_is(&n, "t146_array_read_exit") ||
        name_is(&n, "t147_array_write_exit") ||
        name_is(&n, "t148_array_in_func_exit") {
        FeatureCategory::Array
    } else if name_is(&n, "t26_compound_add_two") ||
        name_is(&n, "t41_compound_assign_dot") ||
        name_is(&n, "t128_struct_compound_assign_exit") ||
        name_is(&n, "t151_var_compound_assign_exit") ||
        name_is(&n, "t152_compound_assign_dotaccess_exit") ||
        name_is(&n, "t153_compound_assign_index_exit") ||
        name_is(&n, "t169_compound_assign_func_exit") {
        FeatureCategory::CompoundAssign
    } else if name_is(&n, "t96_overflow_t8_unary_neg") ||
        name_is(&n, "t165_unary_neg_int_exit") ||
        name_is(&n, "t166_unary_not_bool_exit") {
        FeatureCategory::Unary
    } else if name_is(&n, "t139_cast_t32_to_f64_exit") ||
        name_is(&n, "t140_cast_f64_truncate_exit") ||
        name_is(&n, "t157_cast_neg_t32_to_f64_exit") ||
        name_is(&n, "t158_cast_t64_to_f64_exit") {
        FeatureCategory::Cast
    } else if name_is(&n, "t55_f64_basic") ||
        name_is(&n, "t135_float_arith_add_exit") ||
        name_is(&n, "t136_float_arith_sub_exit") ||
        name_is(&n, "t137_float_arith_mul_exit") ||
        name_is(&n, "t138_float_arith_div_exit") ||
        name_is(&n, "t155_float_arith_mod_exit") ||
        name_is(&n, "t156_float_neg_exit") {
        FeatureCategory::FloatOps
    } else if name_is(&n, "t77_assert_basic") ||
        name_is(&n, "t78_assert_eq_strings") ||
        name_is(&n, "t79_assert_false_reject") ||
        name_is(&n, "t80_assert_eq_mismatch_reject") ||
        name_is(&n, "t170_assert_pass_exit") ||
        name_is(&n, "t171_assert_eq_pass_exit") {
        FeatureCategory::BuiltinAssert
    } else if name_is(&n, "t141_logical_and_or_exit") ||
        name_is(&n, "t142_logical_while_and_nested_exit") {
        FeatureCategory::LogicalOps
    } else {
        FeatureCategory::Other
    }
}

/// Exit code of a JIT run that met a construct codegen does not support.
pub const JIT_SKIP_EXIT_CODE: i32 = 127;

/// Exit code of a JIT-compiled program that trapped at run time.
pub const JIT_TRAP_EXIT_CODE: i32 = 126;

/// How a backend refused a program.
#[derive(Debug, Clone, Copy, PartialEq, Eq, Structural)]
pub enum RejectionShape {
    /// Refused with a rendered diagnostic — exit 1.
    Diagnostic,
    /// Refused by trapping — exit 126.
    Trap,
}

/// The annotation value naming each shape.
pub open spec fn shape_text(s: RejectionShape) -> Seq<char> {
    match s {
        RejectionShape::Diagnostic => seq!['d', 'i', 'a', 'g', 'n', 'o', 's', 't', 'i', 'c'],
        RejectionShape::Trap => seq!['t', 'r', 'a', 'p'],
    }
}

/// The shape an annotation value names, if any.
pub open spec fn shape_named(v: Seq<char>) -> Option<RejectionShape> {
    if v == shape_text(RejectionShape::Diagnostic) {
        Some(RejectionShape::Diagnostic)
    } else if v == shape_text(RejectionShape::Trap) {
        Some(RejectionShape::Trap)
    } else {
        None
    }
}

fn diagnostic_chars() -> (v: Vec<char>)
    ensures
        v@ == shape_text(RejectionShape::Diagnostic),
{
    let v = vec!['d', 'i', 'a', 'g', 'n', 'o', 's', 't', 'i', 'c'];
    proof {
        assert(v@ =~= shape_text(RejectionShape::Diagnostic));
    }
    v
}

fn trap_chars() -> (v: Vec<char>)
    ensures
        v@ == shape_text(RejectionShape::Trap),
{
    let v = vec!['t', 'r', 'a', 'p'];
    proof {
        assert(v@ =~= shape_text(RejectionShape::Trap));
    }
    v
}

impl RejectionShape {
    /// The exit code this shape must produce.
    pub fn exit_code(self) -> (c: i32)
        ensures
            c == match self {
                RejectionShape::Diagnostic => 1i32,
                RejectionShape::Trap => JIT_TRAP_EXIT_CODE,
            },
    {
        match self {
            RejectionShape::Diagnostic => 1,
            RejectionShape::Trap => JIT_TRAP_EXIT_CODE,
        }
    }

    /// Parse one annotation value.
    pub fn parse(value: &str) -> (r: Option<Self>)
        ensures
            r == shape_named(value@),
    {
        let v = chars_of(value);
        Self::parse_chars(&v)
    }

    fn parse_chars(v: &Vec<char>) -> (r: Option<Self>)
        ensures
            r == shape_named(v@),
    {
        let d = diagnostic_chars();
        let t = trap_chars();
        if crate::text::chars_eq(v.as_slice(), d.as_slice()) {
            Some(RejectionShape::Diagnostic)
        } else if crate::text::chars_eq(v.as_slice(), t.as_slice()) {
            Some(RejectionShape::Trap)
        } else {
            None
        }
    }

    /// The annotation value naming this shape.
    pub fn as_str(self) -> (s: &'static str)
        ensures
            s@ == shape_text(self),
    {
        proof {
            reveal_strlit("diagnostic");
            reveal_strlit("trap");
        }
        match self {
            RejectionShape::Diagnostic => "diagnostic",
            RejectionShape::Trap => "trap",
        }
    }
}

/// What the interpreter is expected to do with a fixture.
#[derive(Debug, Clone, PartialEq, Eq)]
pub enum TestExpectation {
    /// Exit 0 with stdout equal to the stored text (after normalisation).
    PassWithOutput(String),
    /// Exit 0; stdout is not checked.
    PassAny,
    /// Refused by both backends, each in the recorded shape.
    Fail { interp: RejectionShape, jit: RejectionShape },
    /// Exit with exactly this code on both backends, optionally with the
    /// stored stdout.
    ExitCode { code: i32, output: Option<String> },
}

/// One entry of the verification matrix.
#[derive(Debug, Clone)]
pub struct TestFixture {
    /// Short name from the file stem, e.g. `"t01_arith_eq_mod"`.
    pub name: String,
    /// Path of the `.cx` source file.
    pub path: std::path::PathBuf,
    /// What the interpreter is expected to produce.
    pub expectation: TestExpectation,
    /// Excluded from the JIT parity gate (the JIT is known to be unsound on
    /// the construct the fixture exercises).
    pub jit_excluded: bool,
}

/// Result of running the interpreter on one fixture.
#[derive(Debug, Clone)]
pub struct InterpOutcome {
    pub stdout: String,
    pub stderr: String,
    /// Process exit code; -1 when the OS gave none.
    pub exit_code: i32,
}

impl InterpOutcome {
    /// True when the process exited with code 0.
    pub fn passed(&self) -> (b: bool)
        ensures
            b == (self.exit_code == 0),
    {
        self.exit_code == 0
    }
}

// ── Rejection-shape annotations ───────────────────────────────────────────────

pub type Shapes = (RejectionShape, RejectionShape);

pub open spec fn interp_key() -> Seq<char> {
    seq!['i', 'n', 't', 'e', 'r', 'p']
}

pub open spec fn jit_key() -> Seq<char> {
    seq!['j', 'i', 't']
}

/// Apply one `key=value` directive token to the shapes read so far.
pub open spec fn apply_pair(st: Shapes, t: Seq<char>) -> Result<Shapes, Seq<char>> {
    match index_of(t, '=') {
        None => Err("malformed directive token "@ + debug_quoted(t) + " (want key=value)"@),
        Some(k) => {
            let key = t.take(k);
            let value = t.skip(k + 1);
            match shape_named(value) {
                None => Err("unknown rejection shape "@ + debug_quoted(value)
                    + " (want 'diagnostic' or 'trap')"@),
                Some(shape) => if key == interp_key() {
                    Ok((shape, st.1))
                } else if key == jit_key() {
                    Ok((st.0, shape))
                } else {
                    Err("unknown directive key "@ + debug_quoted(key) + " (want 'interp' or 'jit')"@)
                },
            }
        },
    }
}

/// Apply the white-space separated tokens of `s` in order, `cur` being the
/// token read so far; the first bad token's error wins.
pub open spec fn apply_tokens(st: Shapes, cur: Seq<char>, s: Seq<char>) -> Result<Shapes, Seq<char>>
    decreases s.len(),
{
    if s.len() == 0 {
        if cur.len() > 0 {
            apply_pair(st, cur)
        } else {
            Ok(st)
        }
    } else if is_ws(s[0]) {
        if cur.len() > 0 {
            match apply_pair(st, cur) {
                Err(m) => Err(m),
                Ok(st2) => apply_tokens(st2, Seq::empty(), s.skip(1)),
            }
        } else {
            apply_tokens(st, Seq::empty(), s.skip(1))
        }
    } else {
        apply_tokens(st, cur.push(s[0]), s.skip(1))
    }
}

/// The directive part of a line: what follows `#!` once leading white space
/// is dropped; `None` for a prose line.
pub open spec fn directive_of(line: Seq<char>) -> Option<Seq<char>> {
    let t = trim_start(line);
    if t.len() >= 2 && t[0] == '#' && t[1] == '!' {
        Some(t.skip(2))
    } else {
        None
    }
}

/// Apply one line: directives are applied, prose is ignored.
pub open spec fn apply_line(st: Shapes, line: Seq<char>) -> Result<Shapes, Seq<char>> {
    match directive_of(line) {
        Some(d) => apply_tokens(st, Seq::empty(), d),
        None => Ok(st),
    }
}

/// A line without the CR of a CRLF ending.
pub open spec fn strip_cr(line: Seq<char>) -> Seq<char> {
    if line.len() > 0 && line.last() == '\r' {
        line.drop_last()
    } else {
        line
    }
}

/// Apply the lines of `s` in order (`cur` being the line read so far),
/// splitting as `str::lines` does: at LF, dropping a CR before it; a final
/// line ending adds no empty line.
pub open spec fn apply_lines(st: Shapes, cur: Seq<char>, s: Seq<char>) -> Result<Shapes, Seq<char>>
    decreases s.len(),
{
    if s.len() == 0 {
        if cur.len() > 0 {
            apply_line(st, cur)
        } else {
            Ok(st)
        }
    } else if s[0] == '\n' {
        match apply_line(st, strip_cr(cur)) {
            Err(m) => Err(m),
            Ok(st2) => apply_lines(st2, Seq::empty(), s.skip(1)),
        }
    } else {
        apply_lines(st, cur.push(s[0]), s.skip(1))
    }
}

/// The shapes an `.expected_fail` body records: both `Diagnostic` unless a
/// directive says otherwise; the error text of the first bad directive.
pub open spec fn rejection_shapes_of(body: Seq<char>) -> Result<Shapes, Seq<char>> {
    apply_lines((RejectionShape::Diagnostic, RejectionShape::Diagnostic), Seq::empty(), body)
}

fn interp_key_chars() -> (v: Vec<char>)
    ensures
        v@ == interp_key(),
{
    let v = vec!['i', 'n', 't', 'e', 'r', 'p'];
    proof {
        assert(v@ =~= interp_key());
    }
    v
}

fn jit_key_chars() -> (v: Vec<char>)
    ensures
        v@ == jit_key(),
{
    let v = vec!['j', 'i', 't'];
    proof {
        assert(v@ =~= jit_key());
    }
    v
}

fn apply_pair_exec(st: Shapes, t: &Vec<char>) -> (r: Result<Shapes, String>)
    ensures
        match apply_pair(st, t@) {
            Ok(s) => r == Ok::<Shapes, String>(s),
            Err(m) => r matches Err(e) && e@ == m,
        },
{
    let n = t.len();
    proof {
        crate::text::lemma_index_of_from(t@, '=', 0);
    }
    match crate::text::find_char(t.as_slice(), '=') {
        None => {
            let mut m = String::new();
            push_str(&mut m, "malformed directive token ");
            let d = debug_text(t);
            push_str(&mut m, d.as_str());
            push_str(&mut m, " (want key=value)");
            Err(m)
        },
        Some(k) => {
            proof {
                assert(index_of(t@, '=') == Some(k as int));
            }
            let key_s = string_of(t, 0, k);
            let value_s = string_of(t, k + 1, n);
            let key = chars_of(key_s.as_str());
            let value = chars_of(value_s.as_str());
            proof {
                assert(key@ =~= t@.take(k as int));
                assert(value@ =~= t@.skip(k + 1));
            }
            match RejectionShape::parse_chars(&value) {
                None => {
                    let mut m = String::new();
                    push_str(&mut m, "unknown rejection shape ");
                    let d = debug_text(&value);
                    push_str(&mut m, d.as_str());
                    push_str(&mut m, " (want 'diagnostic' or 'trap')");
                    Err(m)
                },
                Some(shape) => {
                    let ik = interp_key_chars();
                    let jk = jit_key_chars();
                    if crate::text::chars_eq(key.as_slice(), ik.as_slice()) {
                        Ok((shape, st.1))
                    } else if crate::text::chars_eq(key.as_slice(), jk.as_slice()) {
                        Ok((st.0, shape))
                    } else {
                        let mut m = String::new();
                        push_str(&mut m, "unknown directive key ");
                        let d = debug_text(&key);
                        push_str(&mut m, d.as_str());
                        push_str(&mut m, " (want 'interp' or 'jit')");
                        Err(m)
                    }
                },
            }
        },
    }
}

fn apply_tokens_exec(st: Shapes, d: &Vec<char>) -> (r: Result<Shapes, String>)
    ensures
        match apply_tokens(st, Seq::empty(), d@) {
            Ok(s) => r == Ok::<Shapes, String>(s),
            Err(m) => r matches Err(e) && e@ == m,
        },
{
    let mut state = st;
    let mut cur: Vec<char> = Vec::new();
    let mut i: usize = 0;
    proof {
        assert(d@.skip(0) =~= d@);
    }
    while i < d.len()
        invariant
            i <= d@.len(),
            apply_tokens(st, Seq::empty(), d@) == apply_tokens(state, cur@, d@.skip(i as int)),
        decreases d@.len() - i,
    {
        let ghost rest = d@.skip(i as int);
        let c = d[i];
        proof {
            assert(rest[0] == c);
        }
        if is_white_space(c) {
            if cur.len() > 0 {
                let ghost old_state = state;
                let ghost old_cur = cur@;
                match apply_pair_exec(state, &cur) {
                    Err(m) => {
                        return Err(m);
                    },
                    Ok(s2) => {
                        proof {
                            assert(apply_pair(old_state, old_cur) == Ok::<Shapes, Seq<char>>(s2));
                        }
                        state = s2;
                    },
                }
                cur = Vec::new();
            }
        } else {
            cur.push(c);
        }
        i = i + 1;
        proof {
            assert(rest.skip(1) =~= d@.skip(i as int));
            assert(cur@ == Seq::<char>::empty() || !is_ws(c));
        }
    }
    if cur.len() > 0 {
        apply_pair_exec(state, &cur)
    } else {
        Ok(state)
    }
}

fn apply_line_exec(st: Shapes, line: &Vec<char>) -> (r: Result<Shapes, String>)
    ensures
        match apply_line(st, line@) {
            Ok(s) => r == Ok::<Shapes, String>(s),
            Err(m) => r matches Err(e) && e@ == m,
        },
{
    let i = skip_white_space(line);
    if line.len() - i >= 2 && line[i] == '#' && line[i + 1] == '!' {
        let d = crate::text::tail_from(line, i + 2);
        proof {
            assert(line@.skip(i as int).skip(2) =~= d@);
            assert(directive_of(line@) == Some(d@));
        }
        apply_tokens_exec(st, &d)
    } else {
        proof {
            assert(directive_of(line@) is None);
        }
        Ok(st)
    }
}

/// Index of the first non-white-space character of `line`.
fn skip_white_space(line: &Vec<char>) -> (i: usize)
    ensures
        i <= line@.len(),
        trim_start(line@) == line@.skip(i as int),
{
    let mut i: usize = 0;
    proof {
        assert(line@.skip(0) =~= line@);
    }
    while i < line.len() && is_white_space(line[i])
        invariant
            i <= line@.len(),
            trim_start(line@) == trim_start(line@.skip(i as int)),
        decreases line@.len() - i,
    {
        proof {
            assert(line@.skip(i as int).drop_first() =~= line@.skip(i + 1));
        }
        i = i + 1;
    }
    proof {
        let t = line@.skip(i as int);
        if i < line@.len() {
            assert(t[0] == line@[i as int]);
        }
        assert(!(t.len() > 0 && is_ws(t[0])));
    }
    i
}

fn strip_cr_exec(line: Vec<char>) -> (r: Vec<char>)
    ensures
        r@ == strip_cr(line@),
{
    let mut line = line;
    if line.len() > 0 && line[line.len() - 1] == '\r' {
        line.pop();
    }
    line
}

/// Parse the rejection-shape annotation out of an `.expected_fail` body.
///
/// Lines starting (after white space) with `#!` are directives carrying
/// white-space separated `key=value` pairs, keys `interp` and `jit`, values
/// `diagnostic` and `trap`; every other line is prose and ignored. An
/// unknown key, an unknown value or a token without `=` is an error whose
/// text quotes the offending part.
pub fn parse_rejection_shapes(body: &str) -> (r: Result<Shapes, String>)
    ensures
        match rejection_shapes_of(body@) {
            Ok(s) => r == Ok::<Shapes, String>(s),
            Err(m) => r matches Err(e) && e@ == m,
        },
{
    let cs = chars_of(body);
    let st0: Shapes = (RejectionShape::Diagnostic, RejectionShape::Diagnostic);
    let mut state = st0;
    let mut cur: Vec<char> = Vec::new();
    let mut i: usize = 0;
    proof {
        assert(cs@.skip(0) =~= cs@);
    }
    while i < cs.len()
        invariant
            i <= cs@.len(),
            cs@ == body@,
            rejection_shapes_of(body@) == apply_lines(state, cur@, cs@.skip(i as int)),
        decreases cs@.len() - i,
    {
        let ghost rest = cs@.skip(i as int);
        let c = cs[i];
        proof {
            assert(rest[0] == c);
        }
        if c == '\n' {
            let line = strip_cr_exec(cur);
            let ghost old_state = state;
            match apply_line_exec(state, &line) {
                Err(m) => {
                    return Err(m);
                },
                Ok(s2) => {
                    proof {
                        assert(apply_line(old_state, line@) == Ok::<Shapes, Seq<char>>(s2));
                    }
                    state = s2;
                },
            }
            cur = Vec::new();
        } else {
            cur.push(c);
        }
        i = i + 1;
        proof {
            assert(rest.skip(1) =~= cs@.skip(i as int));
        }
    }
    if cur.len() > 0 {
        apply_line_exec(state, &cur)
    } else {
        Ok(state)
    }
}

} // verus!

verus! {

// ── Fixture files and their sidecars ─────────────────────────────────────────

/// Whether `s` ends with `t`.
pub open spec fn has_suffix(s: Seq<char>, t: Seq<char>) -> bool {
    t.len() <= s.len() && s.subrange(s.len() - t.len(), s.len() as int) == t
}

fn ends_with(s: &Vec<char>, t: &str) -> (r: bool)
    ensures
        r == has_suffix(s@, t@),
{
    let n = t.unicode_len();
    if n > s.len() {
        return false;
    }
    let start = s.len() - n;
    let mut k: usize = 0;
    while k < n
        invariant
            k <= n,
            n == t@.len(),
            start + n == s@.len(),
            s@.len() <= usize::MAX,
            forall|j: int| 0 <= j < k ==> s@[start + j] == t@[j],
        decreases n - k,
    {
        if s[start + k] != t.get_char(k) {
            proof {
                assert(s@.subrange(start as int, s@.len() as int)[k as int] != t@[k as int]);
            }
            return false;
        }
        k = k + 1;
    }
    proof {
        assert(s@.subrange(start as int, s@.len() as int) =~= t@);
    }
    true
}

/// A fixture's source file: a `.cx` file that is none of the sidecars.
pub open spec fn fixture_source(name: Seq<char>) -> bool {
    &&& has_suffix(name, ".cx"@)
    &&& !has_suffix(name, ".expected_output"@)
    &&& !has_suffix(name, ".expected_fail"@)
    &&& !has_suffix(name, ".expected_exit"@)
    &&& !has_suffix(name, ".jit_known_unsound"@)
}

/// Whether a file of the matrix directory is a fixture's source (see
/// [`fixture_source`]).
pub fn is_fixture_source(file_name: &str) -> (r: bool)
    ensures
        r == fixture_source(file_name@),
{
    let n = chars_of(file_name);
    ends_with(&n, ".cx") && !ends_with(&n, ".expected_output") && !ends_with(&n, ".expected_fail")
        && !ends_with(&n, ".expected_exit") && !ends_with(&n, ".jit_known_unsound")
}

/// `s` without its leading and trailing white space (`str::trim`).
pub open spec fn trimmed(s: Seq<char>) -> Seq<char> {
    trim_end(trim_start(s))
}

/// The characters of `cs` from `a` on, where none before `a` is white
/// space: what `trim_start` leaves.
proof fn lemma_trim_start_skip(cs: Seq<char>, a: int)
    requires
        0 <= a <= cs.len(),
        forall|j: int| 0 <= j < a ==> is_ws(#[trigger] cs[j]),
    ensures
        trim_start(cs) == trim_start(cs.skip(a)),
    decreases a,
{
    if a > 0 {
        assert(cs.drop_first().skip(a - 1) =~= cs.skip(a));
        lemma_trim_start_skip(cs.drop_first(), a - 1);
    } else {
        assert(cs.skip(0) =~= cs);
    }
}

fn trim_text(s: &str) -> (r: String)
    ensures
        r@ == trimmed(s@),
{
    let cs = chars_of(s);
    let mut a: usize = 0;
    while a < cs.len() && is_white_space(cs[a])
        invariant
            a <= cs@.len(),
            forall|j: int| 0 <= j < a ==> is_ws(#[trigger] cs@[j]),
        decreases cs@.len() - a,
    {
        a = a + 1;
    }
    proof {
        lemma_trim_start_skip(cs@, a as int);
    }
    let rest = tail_from(&cs, a);
    proof {
        if rest@.len() > 0 {
            assert(rest@[0] == cs@[a as int]);
        }
        assert(trim_start(rest@) == rest@);
    }
    trim_end_string(&rest)
}

/// The value of a decimal integer with an optional sign, as `i32` reads it
/// from text: `None` for anything else, or for a value out of range.
pub open spec fn i32_text(s: Seq<char>) -> Option<int> {
    let neg = s.len() > 0 && s[0] == '-';
    let digits = if s.len() > 0 && (s[0] == '-' || s[0] == '+') {
        s.skip(1)
    } else {
        s
    };
    if digits.len() == 0 || !(forall|k: int| 0 <= k < digits.len() ==> is_digit(#[trigger] digits[k])) {
        None
    } else {
        let v: int = if neg {
            -digits_value(digits)
        } else {
            digits_value(digits) as int
        };
        if i32::MIN <= v <= i32::MAX {
            Some(v)
        } else {
            None
        }
    }
}

#[verifier::external_type_specification]
#[verifier::external_body]
pub struct ExParseIntError(std::num::ParseIntError);

/// `str::parse::<i32>`: an optional `+` or `-` and then decimal digits, of
/// a value that fits, read as that value (see [`i32_text`]); anything else
/// is an error.
#[verifier::external_body]
fn parse_i32(s: &str) -> (r: Result<i32, std::num::ParseIntError>)
    ensures
        match r {
            Ok(v) => i32_text(s@) == Some(v as int),
            Err(_) => i32_text(s@) is None,
        },
{
    s.parse::<i32>()
}

/// Why the sidecars of a fixture could not be read.
#[derive(Debug)]
pub enum SidecarError {
    /// `.expected_exit` does not hold an integer.
    BadExitCode(std::num::ParseIntError),
    /// `.expected_fail` holds a bad annotation; the text says which part.
    BadAnnotation(String),
}

/// The stored output of a fixture, as present or not.
pub open spec fn stored_output(output: Option<&str>) -> Option<Seq<char>> {
    match output {
        Some(t) => Some(normalised(t@)),
        None => None,
    }
}

/// What a fixture is expected to do, from the texts of its sidecars (each
/// present or not): `.expected_exit` wins, then `.expected_fail`, then
/// `.expected_output`; with none of them the fixture must merely pass.
pub fn expectation_from_sidecars(exit: Option<&str>, fail: Option<&str>, output: Option<&str>) -> (r: Result<
    TestExpectation,
    SidecarError,
>)
    ensures
        match exit {
            Some(raw) => match i32_text(trimmed(raw@)) {
                Some(code) => r matches Ok(TestExpectation::ExitCode { code: c, output: o }) && c == code
                    && match (o, stored_output(output)) {
                    (Some(got), Some(want)) => got@ == want,
                    (None, None) => true,
                    _ => false,
                },
                None => r matches Err(SidecarError::BadExitCode(_)),
            },
            None => match fail {
                Some(body) => match rejection_shapes_of(body@) {
                    Ok((i, j)) => r matches Ok(TestExpectation::Fail { interp, jit }) && interp == i && jit
                        == j,
                    Err(m) => r matches Err(SidecarError::BadAnnotation(e)) && e@ == m,
                },
                None => match output {
                    Some(t) => r matches Ok(TestExpectation::PassWithOutput(got)) && got@ == normalised(
                        t@,
                    ),
                    None => r matches Ok(TestExpectation::PassAny),
                },
            },
        },
{
    match exit {
        Some(raw) => {
            let t = trim_text(raw);
            match parse_i32(t.as_str()) {
                Ok(code) => {
                    let o = match output {
                        Some(text) => Some(normalise(text)),
                        None => None,
                    };
                    Ok(TestExpectation::ExitCode { code, output: o })
                },
                Err(e) => Err(SidecarError::BadExitCode(e)),
            }
        },
        None => match fail {
            Some(body) => match parse_rejection_shapes(body) {
                Ok((interp, jit)) => Ok(TestExpectation::Fail { interp, jit }),
                Err(m) => Err(SidecarError::BadAnnotation(m)),
            },
            None => match output {
                Some(text) => Ok(TestExpectation::PassWithOutput(normalise(text))),
                None => Ok(TestExpectation::PassAny),
            },
        },
    }
}


// ── JIT parity ───────────────────────────────────────────────────────────────

/// How one fixture's JIT run compares with its expectation.
#[derive(Debug, Clone, Copy, PartialEq, Eq, Structural)]
pub enum JitVerdict {
    /// The JIT did what the fixture expects.
    Pass,
    /// The JIT met a construct it does not support (or the fixture is
    /// excluded); this is no failure.
    Skip,
    /// The JIT's outcome diverges from the expectation.
    ParityFail,
}

/// The exit code a rejection shape produces.
pub open spec fn shape_exit(s: RejectionShape) -> int {
    match s {
        RejectionShape::Diagnostic => 1,
        RejectionShape::Trap => JIT_TRAP_EXIT_CODE as int,
    }
}

/// Whether a run with this exit code and output diverges from the
/// expectation: a refusal must have the recorded shape's exit code, an exit
/// code fixture its code (and its stored output, if any), a passing fixture
/// exit 0 (and its stored output, if any).
pub open spec fn diverges(e: TestExpectation, exit: int, stdout: Seq<char>) -> bool {
    match e {
        TestExpectation::Fail { jit, .. } => exit != shape_exit(jit),
        TestExpectation::ExitCode { code, output } => exit != code || (output matches Some(o)
            && normalised(stdout) != o@),
        TestExpectation::PassAny => exit != 0,
        TestExpectation::PassWithOutput(o) => exit != 0 || normalised(stdout) != o@,
    }
}

/// The verdict on a JIT run: exit 127, or exit 0 with something on stderr,
/// is a skip; otherwise it passes unless it diverges.
pub open spec fn verdict_of(e: TestExpectation, exit: int, stdout: Seq<char>, stderr: Seq<char>) -> JitVerdict {
    if exit == JIT_SKIP_EXIT_CODE || (exit == 0 && stderr.len() > 0) {
        JitVerdict::Skip
    } else if diverges(e, exit, stdout) {
        JitVerdict::ParityFail
    } else {
        JitVerdict::Pass
    }
}

/// Compare one fixture's JIT outcome with its expectation (see
/// [`verdict_of`]).
pub fn jit_verdict(expectation: &TestExpectation, outcome: &InterpOutcome) -> (v: JitVerdict)
    ensures
        v == verdict_of(*expectation, outcome.exit_code as int, outcome.stdout@, outcome.stderr@),
{
    let exit = outcome.exit_code;
    if exit == JIT_SKIP_EXIT_CODE || (exit == 0 && !outcome.stderr.as_str().is_empty()) {
        return JitVerdict::Skip;
    }
    let fails = match expectation {
        TestExpectation::Fail { jit, .. } => exit != jit.exit_code(),
        TestExpectation::ExitCode { code, output } => {
            if exit != *code {
                true
            } else {
                match output {
                    Some(o) => {
                        let got = normalise(outcome.stdout.as_str());
                        !str_eq_string(got.as_str(), o)
                    },
                    None => false,
                }
            }
        },
        TestExpectation::PassAny => exit != 0,
        TestExpectation::PassWithOutput(o) => {
            if exit != 0 {
                true
            } else {
                let got = normalise(outcome.stdout.as_str());
                !str_eq_string(got.as_str(), o)
            }
        },
    };
    if fails {
        JitVerdict::ParityFail
    } else {
        JitVerdict::Pass
    }
}

/// The first line of a text as `str::lines` yields it: up to the first
/// LF, without a CR before it; `None` for an empty text.
pub open spec fn first_line(s: Seq<char>) -> Option<Seq<char>> {
    if s.len() == 0 {
        None
    } else {
        match index_of(s, '\n') {
            Some(k) => Some(strip_cr(s.take(k))),
            None => Some(s),
        }
    }
}

/// The first line of a text, or `(empty)` where it has none.
pub open spec fn first_line_or_empty(s: Seq<char>) -> Seq<char> {
    match first_line(s) {
        Some(l) => l,
        None => "(empty)"@,
    }
}

/// The first line of `s`, or `(empty)` where it has none (see
/// [`first_line`]).
pub fn first_line_text(s: &str) -> (r: String)
    ensures
        r@ == first_line_or_empty(s@),
{
    let cs = chars_of(s);
    if cs.len() == 0 {
        return "(empty)".to_string();
    }
    let sl = cs.as_slice();
    proof {
        crate::text::lemma_index_of_from(cs@, '\n', 0);
    }
    match find_char(sl, '\n') {
        Some(k) => {
            let line = strip_cr_exec(vec_prefix(&cs, k));
            proof {
                assert(line@.subrange(0, line@.len() as int) =~= line@);
            }
            string_of(&line, 0, line.len())
        },
        None => {
            proof {
                assert(cs@.subrange(0, cs@.len() as int) =~= cs@);
            }
            string_of(&cs, 0, cs.len())
        },
    }
}

fn vec_prefix(cs: &Vec<char>, k: usize) -> (r: Vec<char>)
    requires
        k <= cs@.len(),
    ensures
        r@ == cs@.take(k as int),
{
    let mut r: Vec<char> = Vec::new();
    let mut i: usize = 0;
    while i < k
        invariant
            i <= k <= cs@.len(),
            r@ == cs@.take(i as int),
        decreases k - i,
    {
        r.push(cs[i]);
        i = i + 1;
        proof {
            assert(r@ =~= cs@.take(i as int));
        }
    }
    r
}

/// What a fixture expects of the JIT, in words.
pub open spec fn expected_text(e: TestExpectation) -> Seq<char> {
    match e {
        TestExpectation::Fail { interp, jit } => "JIT rejection shape '"@ + shape_text(jit) + "' (exit "@
            + signed_decimal(shape_exit(jit)) + "); interpreter annotated '"@ + shape_text(interp) + "'"@,
        TestExpectation::ExitCode { code, output } => match output {
            Some(s) => "exit "@ + signed_decimal(code as int) + ", stdout = "@ + debug_quoted(
                first_line_or_empty(s@),
            ),
            None => "exit "@ + signed_decimal(code as int),
        },
        TestExpectation::PassAny => "exit 0"@,
        TestExpectation::PassWithOutput(s) => "exit 0, stdout = "@ + debug_quoted(first_line_or_empty(s@)),
    }
}

fn push_quoted_first_line(out: &mut String, s: &String)
    ensures
        final(out)@ == old(out)@ + debug_quoted(first_line_or_empty(s@)),
{
    let line = first_line_text(s.as_str());
    let q = debug_text(&chars_of(line.as_str()));
    push_str(out, q.as_str());
}

/// What a fixture expects of the JIT, in words (see [`expected_text`]).
pub fn expected_description(e: &TestExpectation) -> (r: String)
    ensures
        r@ == expected_text(*e),
{
    let mut out = String::new();
    match e {
        TestExpectation::Fail { interp, jit } => {
            push_str(&mut out, "JIT rejection shape '");
            push_str(&mut out, jit.as_str());
            push_str(&mut out, "' (exit ");
            push_signed(&mut out, jit.exit_code() as i64);
            push_str(&mut out, "); interpreter annotated '");
            push_str(&mut out, interp.as_str());
            push_str(&mut out, "'");
        },
        TestExpectation::ExitCode { code, output } => {
            push_str(&mut out, "exit ");
            push_signed(&mut out, *code as i64);
            match output {
                Some(s) => {
                    push_str(&mut out, ", stdout = ");
                    push_quoted_first_line(&mut out, s);
                },
                None => {},
            }
        },
        TestExpectation::PassAny => {
            push_str(&mut out, "exit 0");
        },
        TestExpectation::PassWithOutput(s) => {
            push_str(&mut out, "exit 0, stdout = ");
            push_quoted_first_line(&mut out, s);
        },
    }
    proof {
        reveal_strlit("exit 0");
        assert(out@ =~= expected_text(*e));
    }
    out
}


/// How many fixtures of one feature category passed, were skipped, and
/// failed parity.
#[derive(Debug, Clone, Copy, PartialEq, Eq, Structural)]
pub struct ParityCounts {
    pub pass: usize,
    pub skip: usize,
    pub parity_fail: usize,
}

impl ParityCounts {
    /// No fixture counted yet.
    pub fn new() -> (c: Self)
        ensures
            c == (ParityCounts { pass: 0, skip: 0, parity_fail: 0 }),
    {
        ParityCounts { pass: 0, skip: 0, parity_fail: 0 }
    }

    /// Count one more fixture with verdict `v`.
    pub fn record(&mut self, v: JitVerdict)
        requires
            old(self).pass < usize::MAX,
            old(self).skip < usize::MAX,
            old(self).parity_fail < usize::MAX,
        ensures
            final(self).pass == old(self).pass + (if v == JitVerdict::Pass { 1int } else { 0 }),
            final(self).skip == old(self).skip + (if v == JitVerdict::Skip { 1int } else { 0 }),
            final(self).parity_fail == old(self).parity_fail + (if v == JitVerdict::ParityFail { 1int } else { 0 }),
    {
        match v {
            JitVerdict::Pass => self.pass = self.pass + 1,
            JitVerdict::Skip => self.skip = self.skip + 1,
            JitVerdict::ParityFail => self.parity_fail = self.parity_fail + 1,
        }
    }
}


/// The number of the first `n` fixtures (by name) whose category is `c`
/// and whose verdict is `v`.
pub open spec fn count_verdicts(names: Seq<String>, vs: Seq<JitVerdict>, c: FeatureCategory, v: JitVerdict, n: int) -> nat
    decreases n,
{
    if n <= 0 {
        0
    } else {
        count_verdicts(names, vs, c, v, n - 1) + if category_of(names[n - 1]@) == c && vs[n - 1] == v {
            1nat
        } else {
            0nat
        }
    }
}

proof fn lemma_count_bound(names: Seq<String>, vs: Seq<JitVerdict>, c: FeatureCategory, v: JitVerdict, n: int)
    requires
        n >= 0,
    ensures
        count_verdicts(names, vs, c, v, n) <= n,
    decreases n,
{
    if n > 0 {
        lemma_count_bound(names, vs, c, v, n - 1);
    }
}

/// Where a category stands in [`all_categories`].
fn category_index(c: FeatureCategory) -> (k: usize)
    ensures
        k < 16,
        all_categories()[k as int] == c,
{
    match c {
        FeatureCategory::Arithmetic => 0,
        FeatureCategory::VariableDecl => 1,
        FeatureCategory::IfElse => 2,
        FeatureCategory::WhileLoop => 3,
        FeatureCategory::ForLoop => 4,
        FeatureCategory::InfiniteLoop => 5,
        FeatureCategory::DirectCall => 6,
        FeatureCategory::Struct => 7,
        FeatureCategory::Array => 8,
        FeatureCategory::CompoundAssign => 9,
        FeatureCategory::Unary => 10,
        FeatureCategory::Cast => 11,
        FeatureCategory::FloatOps => 12,
        FeatureCategory::BuiltinAssert => 13,
        FeatureCategory::LogicalOps => 14,
        FeatureCategory::Other => 15,
    }
}

/// The parity table: for every category, in the order of
/// [`FeatureCategory::all`], how many of the fixtures (given by name, with
/// their verdicts) of that category passed, were skipped and failed parity.
/// Every category is listed, with zero counts where no fixture maps to it.
pub fn parity_table(names: &Vec<String>, verdicts: &Vec<JitVerdict>) -> (r: Vec<(FeatureCategory, ParityCounts)>)
    requires
        names.len() == verdicts.len(),
    ensures
        r@.len() == all_categories().len(),
        forall|i: int|
            0 <= i < r@.len() ==> {
                let c = all_categories()[i];
                &&& (#[trigger] r@[i]).0 == c
                &&& r@[i].1.pass == count_verdicts(names@, verdicts@, c, JitVerdict::Pass, names@.len() as int)
                &&& r@[i].1.skip == count_verdicts(names@, verdicts@, c, JitVerdict::Skip, names@.len() as int)
                &&& r@[i].1.parity_fail == count_verdicts(
                    names@,
                    verdicts@,
                    c,
                    JitVerdict::ParityFail,
                    names@.len() as int,
                )
            },
{
    let cats = FeatureCategory::all();
    let mut table: Vec<(FeatureCategory, ParityCounts)> = Vec::new();
    let mut i: usize = 0;
    while i < cats.len()
        invariant
            cats@ == all_categories(),
            i <= cats@.len(),
            table@.len() == i,
            forall|k: int| 0 <= k < i ==> (#[trigger] table@[k]) == (all_categories()[k], ParityCounts { pass: 0, skip: 0, parity_fail: 0 }),
        decreases cats@.len() - i,
    {
        table.push((cats[i], ParityCounts::new()));
        i = i + 1;
    }
    let mut j: usize = 0;
    while j < names.len()
        invariant
            j <= names@.len(),
            names@.len() == verdicts@.len(),
            table@.len() == all_categories().len(),
            forall|k: int|
                0 <= k < table@.len() ==> {
                    let c = all_categories()[k];
                    &&& (#[trigger] table@[k]).0 == c
                    &&& table@[k].1.pass == count_verdicts(names@, verdicts@, c, JitVerdict::Pass, j as int)
                    &&& table@[k].1.skip == count_verdicts(names@, verdicts@, c, JitVerdict::Skip, j as int)
                    &&& table@[k].1.parity_fail == count_verdicts(names@, verdicts@, c, JitVerdict::ParityFail, j as int)
                },
        decreases names@.len() - j,
    {
        let c = feature_of(names[j].as_str());
        let k = category_index(c);
        let v = verdicts[j];
        proof {
            law_every_category_listed(c, names@[j as int]@);
            lemma_count_bound(names@, verdicts@, c, JitVerdict::Pass, j as int);
            lemma_count_bound(names@, verdicts@, c, JitVerdict::Skip, j as int);
            lemma_count_bound(names@, verdicts@, c, JitVerdict::ParityFail, j as int);
        }
        let mut counts = table[k].1;
        counts.record(v);
        table.set(k, (c, counts));
        proof {
            assert forall|m: int| 0 <= m < table@.len() implies {
                let cm = all_categories()[m];
                &&& (#[trigger] table@[m]).0 == cm
                &&& table@[m].1.pass == count_verdicts(names@, verdicts@, cm, JitVerdict::Pass, j + 1)
                &&& table@[m].1.skip == count_verdicts(names@, verdicts@, cm, JitVerdict::Skip, j + 1)
                &&& table@[m].1.parity_fail == count_verdicts(names@, verdicts@, cm, JitVerdict::ParityFail, j + 1)
            } by {
                if m != k {
                    assert(all_categories()[m] != all_categories()[k as int]);
                }
            }
        }
        j = j + 1;
    }
    table
}

// ── Laws ─────────────────────────────────────────────────────────────────────

/// Whether no character of `s` is `#`.
pub open spec fn hash_free(s: Seq<char>) -> bool {
    forall|j: int| 0 <= j < s.len() ==> s[j] != '#'
}

proof fn lemma_trim_start_hash_free(s: Seq<char>)
    requires
        hash_free(s),
    ensures
        hash_free(trim_start(s)),
    decreases s.len(),
{
    if s.len() > 0 && is_ws(s[0]) {
        assert(hash_free(s.drop_first()));
        lemma_trim_start_hash_free(s.drop_first());
    }
}

proof fn lemma_prose_lines(st: Shapes, cur: Seq<char>, s: Seq<char>)
    requires
        hash_free(cur),
        hash_free(s),
    ensures
        apply_lines(st, cur, s) == Ok::<Shapes, Seq<char>>(st),
    decreases s.len(),
{
    lemma_trim_start_hash_free(cur);
    lemma_trim_start_hash_free(strip_cr(cur));
    if s.len() > 0 {
        assert(hash_free(s.skip(1)));
        if s[0] == '\n' {
            assert(hash_free(Seq::<char>::empty()));
            lemma_prose_lines(st, Seq::empty(), s.skip(1));
        } else {
            assert(hash_free(cur.push(s[0])));
            lemma_prose_lines(st, cur.push(s[0]), s.skip(1));
        }
    }
}

/// An `.expected_fail` body without any `#` is prose only: it records the
/// default shapes, a diagnostic on both backends.
pub proof fn law_prose_only_body_records_default(body: Seq<char>)
    requires
        hash_free(body),
    ensures
        rejection_shapes_of(body) == Ok::<Shapes, Seq<char>>((RejectionShape::Diagnostic, RejectionShape::Diagnostic)),
{
    assert(hash_free(Seq::<char>::empty()));
    lemma_prose_lines((RejectionShape::Diagnostic, RejectionShape::Diagnostic), Seq::empty(), body);
}


/// Every category is listed by `all()` exactly once, so every fixture's
/// category is among them.
pub proof fn law_every_category_listed(c: FeatureCategory, fixture_name: Seq<char>)
    ensures
        all_categories().contains(c),
        all_categories().contains(category_of(fixture_name)),
        forall|i: int, j: int| 0 <= i < j < all_categories().len() ==> all_categories()[i] != all_categories()[j],
{
    match c {
        FeatureCategory::Arithmetic => assert(all_categories()[0] == c),
        FeatureCategory::VariableDecl => assert(all_categories()[1] == c),
        FeatureCategory::IfElse => assert(all_categories()[2] == c),
        FeatureCategory::WhileLoop => assert(all_categories()[3] == c),
        FeatureCategory::ForLoop => assert(all_categories()[4] == c),
        FeatureCategory::InfiniteLoop => assert(all_categories()[5] == c),
        FeatureCategory::DirectCall => assert(all_categories()[6] == c),
        FeatureCategory::Struct => assert(all_categories()[7] == c),
        FeatureCategory::Array => assert(all_categories()[8] == c),
        FeatureCategory::CompoundAssign => assert(all_categories()[9] == c),
        FeatureCategory::Unary => assert(all_categories()[10] == c),
        FeatureCategory::Cast => assert(all_categories()[11] == c),
        FeatureCategory::FloatOps => assert(all_categories()[12] == c),
        FeatureCategory::BuiltinAssert => assert(all_categories()[13] == c),
        FeatureCategory::LogicalOps => assert(all_categories()[14] == c),
        FeatureCategory::Other => assert(all_categories()[15] == c),
    }
    let d = category_of(fixture_name);
    match d {
        FeatureCategory::Arithmetic => assert(all_categories()[0] == d),
        FeatureCategory::VariableDecl => assert(all_categories()[1] == d),
        FeatureCategory::IfElse => assert(all_categories()[2] == d),
        FeatureCategory::WhileLoop => assert(all_categories()[3] == d),
        FeatureCategory::ForLoop => assert(all_categories()[4] == d),
        FeatureCategory::InfiniteLoop => assert(all_categories()[5] == d),
        FeatureCategory::DirectCall => assert(all_categories()[6] == d),
        FeatureCategory::Struct => assert(all_categories()[7] == d),
        FeatureCategory::Array => assert(all_categories()[8] == d),
        FeatureCategory::CompoundAssign => assert(all_categories()[9] == d),
        FeatureCategory::Unary => assert(all_categories()[10] == d),
        FeatureCategory::Cast => assert(all_categories()[11] == d),
        FeatureCategory::FloatOps => assert(all_categories()[12] == d),
        FeatureCategory::BuiltinAssert => assert(all_categories()[13] == d),
        FeatureCategory::LogicalOps => assert(all_categories()[14] == d),
        FeatureCategory::Other => assert(all_categories()[15] == d),
    }
}

} // verus!
