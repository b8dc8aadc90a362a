use cx::diff_harness::{
    expectation_from_sidecars, expected_description, feature_of, first_line_text, is_fixture_source, jit_verdict, parity_table,
    parse_rejection_shapes, FeatureCategory, InterpOutcome, JitVerdict, ParityCounts, RejectionShape, SidecarError,
    TestExpectation, JIT_SKIP_EXIT_CODE, JIT_TRAP_EXIT_CODE,
};
use cx::text::normalise;
use RejectionShape::{Diagnostic, Trap};

#[test]
fn rejection_shape_parsing() {
    assert_eq!(parse_rejection_shapes(""), Ok((Diagnostic, Diagnostic)));
    assert_eq!(
        parse_rejection_shapes("labeled-breaks (a): break 'nope has no enclosing loop.\n"),
        Ok((Diagnostic, Diagnostic))
    );
    assert_eq!(
        parse_rejection_shapes("#! interp=diagnostic jit=trap\nexplanatory note\n"),
        Ok((Diagnostic, Trap))
    );
    assert_eq!(parse_rejection_shapes("#! jit=trap"), Ok((Diagnostic, Trap)));
    assert!(parse_rejection_shapes("#! jit=crash").is_err());
    assert!(parse_rejection_shapes("#! backend=trap").is_err());
    assert!(parse_rejection_shapes("#! jittrap").is_err());
}

#[test]
fn rejection_shape_exit_codes() {
    assert_eq!(RejectionShape::Diagnostic.exit_code(), 1);
    assert_eq!(RejectionShape::Trap.exit_code(), JIT_TRAP_EXIT_CODE);
    assert_eq!(JIT_TRAP_EXIT_CODE, 126);
    assert_ne!(JIT_TRAP_EXIT_CODE, JIT_SKIP_EXIT_CODE);
}

#[test]
fn rejection_shape_error_messages_quote_the_offender() {
    assert_eq!(
        parse_rejection_shapes("#! jit=crash").unwrap_err(),
        "unknown rejection shape \"crash\" (want 'diagnostic' or 'trap')"
    );
    assert_eq!(
        parse_rejection_shapes("#! backend=trap").unwrap_err(),
        "unknown directive key \"backend\" (want 'interp' or 'jit')"
    );
    assert_eq!(
        parse_rejection_shapes("#! jittrap").unwrap_err(),
        "malformed directive token \"jittrap\" (want key=value)"
    );
}

#[test]
fn rejection_shape_directives_in_any_line_and_order() {
    assert_eq!(
        parse_rejection_shapes("note\r\n   #!jit=trap   interp=trap\r\nmore\r\n"),
        Ok((Trap, Trap))
    );
    assert_eq!(
        parse_rejection_shapes("#! jit=trap\n#! jit=diagnostic"),
        Ok((Diagnostic, Diagnostic))
    );
    assert_eq!(parse_rejection_shapes("# ! jit=crash"), Ok((Diagnostic, Diagnostic)));
    assert_eq!(parse_rejection_shapes("#!"), Ok((Diagnostic, Diagnostic)));
}

#[test]
fn rejection_shape_names_round_trip() {
    for shape in [RejectionShape::Diagnostic, RejectionShape::Trap] {
        assert_eq!(RejectionShape::parse(shape.as_str()), Some(shape));
    }
    assert_eq!(RejectionShape::parse("Trap"), None);
}

#[test]
fn feature_categories_of_fixtures() {
    assert_eq!(feature_of("t01_arith_eq_mod"), FeatureCategory::Arithmetic);
    assert_eq!(feature_of("t172_arith_t128_exit"), FeatureCategory::Arithmetic);
    assert_eq!(feature_of("t15_block_scope_shadow"), FeatureCategory::VariableDecl);
    assert_eq!(feature_of("t46_if_not"), FeatureCategory::IfElse);
    assert_eq!(feature_of("t133_while_in_func_exit"), FeatureCategory::WhileLoop);
    assert_eq!(feature_of("t48_for_loop"), FeatureCategory::ForLoop);
    assert_eq!(feature_of("t25_loop_break"), FeatureCategory::InfiniteLoop);
    assert_eq!(feature_of("t113_recursive_fib"), FeatureCategory::DirectCall);
    assert_eq!(feature_of("t114_field_type_mismatch_reject"), FeatureCategory::Struct);
    assert_eq!(feature_of("t114_eval_order_binary_arith"), FeatureCategory::Arithmetic);
    assert_eq!(feature_of("t33_arrays"), FeatureCategory::Array);
    assert_eq!(feature_of("t41_compound_assign_dot"), FeatureCategory::CompoundAssign);
    assert_eq!(feature_of("t166_unary_not_bool_exit"), FeatureCategory::Unary);
    assert_eq!(feature_of("t140_cast_f64_truncate_exit"), FeatureCategory::Cast);
    assert_eq!(feature_of("t55_f64_basic"), FeatureCategory::FloatOps);
    assert_eq!(feature_of("t77_assert_basic"), FeatureCategory::BuiltinAssert);
    assert_eq!(feature_of("t142_logical_while_and_nested_exit"), FeatureCategory::LogicalOps);
    assert_eq!(feature_of("t999_unknown"), FeatureCategory::Other);
    assert_eq!(feature_of(""), FeatureCategory::Other);
}

#[test]
fn every_category_is_listed_once() {
    let all = FeatureCategory::all();
    assert_eq!(all.len(), 16);
    assert_eq!(all[0], FeatureCategory::Arithmetic);
    assert_eq!(all[15], FeatureCategory::Other);
    let names: Vec<&str> = all.iter().map(|c| c.name()).collect();
    assert_eq!(names[9], "CompoundAssign");
    for (i, a) in all.iter().enumerate() {
        for b in &all[i + 1..] {
            assert_ne!(a, b);
        }
    }
}

#[test]
fn outcome_passes_only_on_exit_zero() {
    let ok = InterpOutcome { stdout: String::new(), stderr: String::new(), exit_code: 0 };
    let bad = InterpOutcome { stdout: String::new(), stderr: String::new(), exit_code: -1 };
    assert!(ok.passed());
    assert!(!bad.passed());
}

#[test]
fn normalise_unifies_line_endings_and_trims() {
    assert_eq!(normalise("a\r\nb\rc\n\n  \t"), "a\nb\nc");
    assert_eq!(normalise("x\r\n"), normalise("x\n"));
    assert_eq!(normalise("  lead"), "  lead");
    assert_eq!(normalise(""), "");
}

fn outcome(exit_code: i32, stdout: &str, stderr: &str) -> InterpOutcome {
    InterpOutcome { stdout: stdout.to_string(), stderr: stderr.to_string(), exit_code }
}

#[test]
fn fixture_sources_are_cx_files_only() {
    assert!(is_fixture_source("t01_arith.cx"));
    assert!(is_fixture_source(".cx"));
    assert!(!is_fixture_source("t01_arith.cx.expected_output"));
    assert!(!is_fixture_source("t01_arith.cx.expected_fail"));
    assert!(!is_fixture_source("t01_arith.cx.expected_exit"));
    assert!(!is_fixture_source("t01_arith.cx.jit_known_unsound"));
    assert!(!is_fixture_source("notes.txt"));
    assert!(!is_fixture_source("cx"));
}

#[test]
fn exit_code_sidecar_wins_and_is_trimmed() {
    match expectation_from_sidecars(Some(" 7\n"), Some(""), Some("out\r\n")) {
        Ok(TestExpectation::ExitCode { code, output }) => {
            assert_eq!(code, 7);
            assert_eq!(output, Some("out".to_string()));
        }
        other => panic!("unexpected {:?}", other.is_ok()),
    }
    match expectation_from_sidecars(Some("-3"), None, None) {
        Ok(TestExpectation::ExitCode { code, output }) => {
            assert_eq!(code, -3);
            assert_eq!(output, None);
        }
        _ => panic!("expected an exit-code expectation"),
    }
}

#[test]
fn bad_exit_code_sidecar_is_an_error() {
    for raw in ["", "seven", "1.5", "99999999999", "+"] {
        match expectation_from_sidecars(Some(raw), None, None) {
            Err(SidecarError::BadExitCode(_)) => {}
            _ => panic!("{:?} must be refused", raw),
        }
    }
}

#[test]
fn fail_sidecar_comes_before_output() {
    match expectation_from_sidecars(None, Some("#! jit=trap\n"), Some("ignored")) {
        Ok(TestExpectation::Fail { interp, jit }) => {
            assert_eq!(interp, Diagnostic);
            assert_eq!(jit, Trap);
        }
        _ => panic!("expected a fail expectation"),
    }
    match expectation_from_sidecars(None, Some("#! jit=crash"), None) {
        Err(SidecarError::BadAnnotation(m)) => {
            assert_eq!(m, "unknown rejection shape \"crash\" (want 'diagnostic' or 'trap')")
        }
        _ => panic!("expected a bad annotation"),
    }
}

#[test]
fn output_sidecar_and_no_sidecar() {
    match expectation_from_sidecars(None, None, Some("a\r\nb  \n\n")) {
        Ok(TestExpectation::PassWithOutput(s)) => assert_eq!(s, "a\nb"),
        _ => panic!("expected an output expectation"),
    }
    match expectation_from_sidecars(None, None, None) {
        Ok(TestExpectation::PassAny) => {}
        _ => panic!("expected pass-any"),
    }
}

#[test]
fn jit_verdicts() {
    let pass_any = TestExpectation::PassAny;
    assert_eq!(jit_verdict(&pass_any, &outcome(0, "", "")), JitVerdict::Pass);
    assert_eq!(jit_verdict(&pass_any, &outcome(1, "", "")), JitVerdict::ParityFail);
    assert_eq!(jit_verdict(&pass_any, &outcome(JIT_SKIP_EXIT_CODE, "", "")), JitVerdict::Skip);
    assert_eq!(jit_verdict(&pass_any, &outcome(0, "", "lowering failed")), JitVerdict::Skip);

    let with_output = TestExpectation::PassWithOutput("1\n2".to_string());
    assert_eq!(jit_verdict(&with_output, &outcome(0, "1\r\n2\r\n", "")), JitVerdict::Pass);
    assert_eq!(jit_verdict(&with_output, &outcome(0, "1\n3\n", "")), JitVerdict::ParityFail);

    let trap = TestExpectation::Fail { interp: Diagnostic, jit: Trap };
    assert_eq!(jit_verdict(&trap, &outcome(JIT_TRAP_EXIT_CODE, "", "trap")), JitVerdict::Pass);
    assert_eq!(jit_verdict(&trap, &outcome(1, "", "error")), JitVerdict::ParityFail);

    let exit = TestExpectation::ExitCode { code: 3, output: Some("x".to_string()) };
    assert_eq!(jit_verdict(&exit, &outcome(3, "x\n", "")), JitVerdict::Pass);
    assert_eq!(jit_verdict(&exit, &outcome(3, "y", "")), JitVerdict::ParityFail);
    assert_eq!(jit_verdict(&exit, &outcome(4, "x", "")), JitVerdict::ParityFail);
}

#[test]
fn expected_descriptions() {
    assert_eq!(
        expected_description(&TestExpectation::Fail { interp: Diagnostic, jit: Trap }),
        "JIT rejection shape 'trap' (exit 126); interpreter annotated 'diagnostic'"
    );
    assert_eq!(
        expected_description(&TestExpectation::ExitCode { code: -2, output: None }),
        "exit -2"
    );
    assert_eq!(
        expected_description(&TestExpectation::ExitCode { code: 5, output: Some("a\"b\r\nc".to_string()) }),
        "exit 5, stdout = \"a\\\"b\""
    );
    assert_eq!(expected_description(&TestExpectation::PassAny), "exit 0");
    assert_eq!(
        expected_description(&TestExpectation::PassWithOutput(String::new())),
        "exit 0, stdout = \"(empty)\""
    );
}

#[test]
fn first_lines() {
    assert_eq!(first_line_text(""), "(empty)");
    assert_eq!(first_line_text("\n"), "");
    assert_eq!(first_line_text("one\r\ntwo"), "one");
    assert_eq!(first_line_text("only\r"), "only\r");
}

#[test]
fn parity_counts_record_each_verdict() {
    let mut c = ParityCounts::new();
    c.record(JitVerdict::Pass);
    c.record(JitVerdict::Pass);
    c.record(JitVerdict::Skip);
    c.record(JitVerdict::ParityFail);
    assert_eq!(c, ParityCounts { pass: 2, skip: 1, parity_fail: 1 });
}

#[test]
fn prose_only_body_records_default_shapes() {
    for body in ["", "just a note", "line one\r\nline two\n", "  ! not a directive\n"] {
        assert_eq!(parse_rejection_shapes(body), Ok((Diagnostic, Diagnostic)));
    }
}

#[test]
fn parity_table_counts_by_category() {
    let names = vec!["t_arith_add".to_string(), "t_arith_mul".to_string(), "zzz".to_string()];
    let verdicts = vec![JitVerdict::Pass, JitVerdict::ParityFail, JitVerdict::Skip];
    let table = parity_table(&names, &verdicts);
    assert_eq!(table.len(), 16);
    let cats = FeatureCategory::all();
    for (i, (c, _)) in table.iter().enumerate() {
        assert_eq!(*c, cats[i]);
    }
    let total: usize = table.iter().map(|(_, n)| n.pass + n.skip + n.parity_fail).sum();
    assert_eq!(total, 3);
    for (c, n) in &table {
        let expected_pass = names.iter().zip(&verdicts).filter(|(nm, v)| feature_of(nm) == *c && **v == JitVerdict::Pass).count();
        assert_eq!(n.pass, expected_pass);
    }
}
