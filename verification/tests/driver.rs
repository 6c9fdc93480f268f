use charon::common::{
    ensure_sufficient_stack, iterator_to_string, vec_to_string, visit_event_round_trip, write_iterator,
    write_vec, written_list, VisitEvent,
};
use charon::driver::{
    arg_value, cargo_call, compiler_args, def_id_text, exit_result, CompilerRun, CrateData, find_args_source_index, get_args_crate_index, get_args_source_index,
    split_flag, translate, CharonCallbacks, CharonFailure, CliOpts, MirLevel, OptionsError, Pass,
};

fn args(list: &[&str]) -> Vec<String> {
    list.iter().map(|s| s.to_string()).collect()
}

fn opts() -> CliOpts {
    CliOpts {
        ullbc: false,
        lib: false,
        bin: None,
        mir_promoted: false,
        mir_optimized: false,
        crate_name: None,
        opaque_modules: Vec::new(),
        print_ullbc: false,
        print_built_llbc: false,
        print_llbc: false,
        abort_on_error: false,
        errors_as_warnings: false,
    }
}

#[test]
fn callbacks_start_empty() {
    let c = CharonCallbacks::new(opts());
    assert!(c.crate_data.is_none());
    assert_eq!(c.error_count, 0);
    assert!(!c.options.ullbc);
}

#[test]
fn failure_text() {
    assert_eq!(CharonFailure::RustcError(3).to_string(), "Compilation encountered 3 errors");
    assert_eq!(CharonFailure::Panic.to_string(), "Compilation panicked");
    assert_eq!(CharonFailure::Serialize.to_string(), "Could not serialize output file");
}

#[test]
fn mir_level_follows_the_options() {
    let mut o = opts();
    assert_eq!(o.mir_level(), MirLevel::Built);
    o.mir_promoted = true;
    assert_eq!(o.mir_level(), MirLevel::Promoted);
    o.mir_optimized = true;
    assert_eq!(o.mir_level(), MirLevel::Optimized);
}

#[test]
fn options_that_clash() {
    let mut o = opts();
    assert_eq!(o.check(), Ok(()));
    o.abort_on_error = true;
    o.errors_as_warnings = true;
    assert_eq!(o.check(), Err(OptionsError::AbortAndWarn));
    o.mir_promoted = true;
    o.mir_optimized = true;
    assert_eq!(o.check(), Err(OptionsError::PromotedAndOptimized));
    o.lib = true;
    o.bin = Some("x".to_string());
    assert_eq!(o.check(), Err(OptionsError::LibAndBin));
}

#[test]
fn crate_name_index() {
    assert_eq!(get_args_crate_index(&args(&["rustc", "--crate-name", "foo", "x.rs"])), Some(2));
    assert_eq!(get_args_crate_index(&args(&["rustc", "x.rs"])), None);
    assert_eq!(get_args_crate_index(&args(&[])), None);
    assert_eq!(
        get_args_crate_index(&args(&["--crate-name", "a", "--crate-name", "b"])),
        Some(1)
    );
}

#[test]
fn source_index() {
    assert_eq!(get_args_source_index(&args(&["--edition", "src/main.rs", "-O"])), Some(1));
    assert_eq!(get_args_source_index(&args(&["--edition", "2021"])), None);
    assert_eq!(get_args_source_index(&args(&[])), None);
    assert_eq!(find_args_source_index(&args(&["a.rs", "b.rs", "c"])), Err(2));
    assert_eq!(find_args_source_index(&args(&["a", "b.rs"])), Ok(Some(1)));
    // the pattern is not anchored: `.rs` may stand anywhere in the argument
    assert_eq!(find_args_source_index(&args(&["x.rsync"])), Ok(Some(0)));
    assert_eq!(find_args_source_index(&args(&["rs", "xrs"])), Ok(None));
}

#[test]
fn flags_are_split_at_the_first_equals_sign() {
    assert_eq!(split_flag("--cap-lints=allow"), ("--cap-lints", Some("allow")));
    assert_eq!(split_flag("--cfg=a=b"), ("--cfg", Some("a=b")));
    assert_eq!(split_flag("--cfg"), ("--cfg", None));
    assert_eq!(split_flag("=x"), ("", Some("x")));
    assert_eq!(split_flag("x="), ("x", Some("")));
    assert_eq!(split_flag(""), ("", None));
    assert_eq!(split_flag("é=ü"), ("é", Some("ü")));
}

#[test]
fn argument_values() {
    let a = args(&["--foo=bar", "--bar", "x", "--foo", "baz", "--foo=qux"]);
    assert_eq!(arg_value(&a, "--foo", |_| true), Some("bar"));
    assert_eq!(arg_value(&a, "--bar", |_| true), Some("x"));
    assert_eq!(arg_value(&a, "--foo", |v| v == "baz"), Some("baz"));
    assert_eq!(arg_value(&a, "--foo", |v| v == "qux"), Some("qux"));
    assert_eq!(arg_value(&a, "--foo", |_| false), None);
    assert_eq!(arg_value(&a, "--baz", |_| true), None);
    // a value that follows its option is passed over, also where it looks like the option
    let b = args(&["--foo", "--foo", "x"]);
    assert_eq!(arg_value(&b, "--foo", |v| v == "x"), None);
    assert_eq!(arg_value(&b, "--foo", |v| v == "--foo"), Some("--foo"));
    let c = args(&["--foo"]);
    assert_eq!(arg_value(&c, "--foo", |_| true), None);
    assert_eq!(arg_value(&args(&[]), "--foo", |_| true), None);
}

#[test]
fn lists_are_laid_out() {
    let v = vec![1u32, 2, 3];
    assert_eq!(vec_to_string(|x: &u32| x.to_string(), &v), "[\n  1,\n  2,\n  3\n]");
    assert_eq!(vec_to_string(|x: &u32| x.to_string(), &Vec::new()), "[]");
    assert_eq!(vec_to_string(|x: &u32| x.to_string(), &vec![7]), "[\n  7\n]");
    assert_eq!(iterator_to_string(|x: u32| format!("<{}>", x), vec![4, 5]), "[\n  <4>,\n  <5>\n]");
    assert_eq!(iterator_to_string(|x: u32| x.to_string(), Vec::new()), "[]");
}

#[test]
fn events_survive_the_round_trip() {
    assert_eq!(visit_event_round_trip(VisitEvent::Enter), VisitEvent::Enter);
    assert_eq!(visit_event_round_trip(VisitEvent::Exit), VisitEvent::Exit);
}

#[test]
fn deep_calls_get_their_stack() {
    fn depth(n: u64) -> u64 {
        if n == 0 {
            0
        } else {
            ensure_sufficient_stack(|| 1 + depth(n - 1))
        }
    }
    assert_eq!(depth(200_000), 200_000);
    assert_eq!(ensure_sufficient_stack(|| 41 + 1), 42);
}

#[test]
fn plan_of_a_plain_run() {
    let plan = translate(&opts(), "from_compiler".to_string());
    assert_eq!(plan.crate_name, "from_compiler");
    assert_eq!(plan.mir_level, MirLevel::Built);
    assert_eq!(
        plan.steps,
        vec![
            Pass::LowerMir,
            Pass::ReorderDeclarations,
            Pass::RemoveDynamicChecks,
            Pass::SimplifyConstants,
            Pass::ReconstructControlFlow,
            Pass::UpdateClosureSignatures,
            Pass::RemoveArithmeticOverflowChecks,
            Pass::ReconstructAsserts,
            Pass::OpsToFunctionCalls,
            Pass::IndexToFunctionCalls,
            Pass::RemoveReadDiscriminant,
            Pass::InsertAssignReturnUnit,
            Pass::RemoveDropNever,
            Pass::RemoveUnusedLocals,
            Pass::RemoveNops,
            Pass::ReportExternalDepsErrors,
            Pass::ExportLlbc,
        ]
    );
}

#[test]
fn plan_that_stops_at_the_unstructured_form() {
    let mut o = opts();
    o.ullbc = true;
    o.print_ullbc = true;
    // nothing is printed of a form that is not built
    o.print_llbc = true;
    o.print_built_llbc = true;
    o.crate_name = Some("given".to_string());
    o.mir_promoted = true;
    let plan = translate(&o, "from_compiler".to_string());
    assert_eq!(plan.crate_name, "given");
    assert_eq!(plan.mir_level, MirLevel::Promoted);
    assert_eq!(
        plan.steps,
        vec![
            Pass::LowerMir,
            Pass::PrintUllbc,
            Pass::ReorderDeclarations,
            Pass::RemoveDynamicChecks,
            Pass::SimplifyConstants,
            Pass::ExportUllbc,
        ]
    );
}

#[test]
fn plan_with_everything_printed() {
    let mut o = opts();
    o.print_ullbc = true;
    o.print_llbc = true;
    o.print_built_llbc = true;
    o.mir_optimized = true;
    let plan = translate(&o, "c".to_string());
    assert_eq!(plan.mir_level, MirLevel::Optimized);
    assert_eq!(plan.steps.len(), 20);
    assert_eq!(plan.steps[1], Pass::PrintUllbc);
    assert_eq!(plan.steps[5], Pass::ReconstructControlFlow);
    assert_eq!(plan.steps[6], Pass::PrintBuiltLlbc);
    assert_eq!(plan.steps[7], Pass::UpdateClosureSignatures);
    assert_eq!(plan.steps[17], Pass::PrintLlbc);
    assert_eq!(plan.steps[19], Pass::ExportLlbc);
    // the checks of the compiler go before the asserts are reconstructed
    let at = |p: Pass| plan.steps.iter().position(|q| *q == p).unwrap();
    assert!(at(Pass::RemoveDynamicChecks) < at(Pass::ReconstructAsserts));
    assert!(at(Pass::RemoveArithmeticOverflowChecks) < at(Pass::ReconstructAsserts));
}

#[test]
fn compiler_arguments_start_with_a_name_of_no_use() {
    assert_eq!(
        compiler_args(args(&["--edition", "2021"])),
        args(&["__CHARON_MYSTERIOUS_FIRST_ARG__", "--edition", "2021"])
    );
    assert_eq!(compiler_args(Vec::new()), args(&["__CHARON_MYSTERIOUS_FIRST_ARG__"]));
}

#[test]
fn cargo_is_called_through_rustup() {
    let call = cargo_call(&opts(), "nightly-2024-01-01", None);
    assert_eq!(call.program, "rustup");
    assert_eq!(call.args, args(&["run", "nightly-2024-01-01", "cargo", "rustc", "--release"]));
    let mut o = opts();
    o.lib = true;
    let call = cargo_call(&o, "stable", None);
    assert_eq!(call.args, args(&["run", "stable", "cargo", "rustc", "--lib", "--release"]));
}

#[test]
fn cargo_is_called_by_its_own_path() {
    let mut o = opts();
    o.bin = Some("tool".to_string());
    let call = cargo_call(&o, "stable", Some("/opt/cargo".to_string()));
    assert_eq!(call.program, "/opt/cargo");
    assert_eq!(call.args, args(&["rustc", "--bin", "tool", "--release"]));
}

#[test]
fn exit_codes_are_handed_back() {
    assert_eq!(exit_result(true, Some(0)), Ok(()));
    assert_eq!(exit_result(true, None), Ok(()));
    assert_eq!(exit_result(false, Some(101)), Err(101));
    assert_eq!(exit_result(false, None), Err(-1));
}

#[test]
fn outcome_of_a_run_of_the_compiler() {
    let mut c = CharonCallbacks::new(opts());
    assert_eq!(c.outcome(CompilerRun::Finished), Ok(()));
    assert_eq!(c.outcome(CompilerRun::Failed), Err(CharonFailure::RustcError(0)));
    assert_eq!(c.outcome(CompilerRun::Panicked), Err(CharonFailure::Panic));
    // lowering failed: the count stays, nothing is kept
    c.error_count = 2;
    assert!(c.conclude(Err(())).is_err());
    assert_eq!(c.error_count, 2);
    assert!(c.record(Err(())).is_err());
    assert!(c.crate_data.is_none());
    // lowering went through: the count is taken over, then the data is kept
    let data = c.conclude(Ok((CrateData { name: "c".to_string() }, 3))).unwrap();
    assert_eq!(c.error_count, 3);
    assert!(c.crate_data.is_none());
    assert!(c.record(Ok(data)).is_ok());
    assert_eq!(c.error_count, 3);
    assert_eq!(c.crate_data.as_ref().unwrap().name, "c");
    assert_eq!(c.outcome(CompilerRun::Failed), Err(CharonFailure::RustcError(3)));
}

#[test]
fn definitions_are_printed_by_crate_and_path() {
    assert_eq!(def_id_text(Some(("core", "::option::Option"))), "core::option::Option");
    assert_eq!(def_id_text(Some(("k", ""))), "k");
    assert_eq!(def_id_text(None), "<can't access `tcx` to print `DefId` path>");
}

#[test]
fn plans_know_their_steps() {
    let plan = translate(&opts(), "c".to_string());
    assert!(plan.wants(Pass::ReconstructControlFlow));
    assert!(!plan.wants(Pass::PrintLlbc) && !plan.wants(Pass::ExportUllbc));
    let mut o = opts();
    o.ullbc = true;
    let plan = translate(&o, "c".to_string());
    assert!(!plan.wants(Pass::ReconstructControlFlow) && plan.wants(Pass::ExportUllbc));
}

#[test]
fn lists_are_written_out() {
    assert_eq!(written_list(&Vec::new()), "[]");
    assert_eq!(written_list(&args(&["a"])), "[\na\n]");
    assert_eq!(written_list(&args(&["a", "b", "c"])), "[\na,\nb,\nc\n]");
    let mut out = "x = ".to_string();
    write_iterator(|n: u32| format!("<{n}>"), &mut out, &vec![1, 2]);
    assert_eq!(out, "x = [\n<1>,\n<2>\n]");
    write_iterator(|n: u32| format!("<{n}>"), &mut out, &Vec::new());
    assert_eq!(out, "x = [\n<1>,\n<2>\n][]");
    let mut out = String::new();
    write_vec(|s: &String| s.to_uppercase(), &mut out, &args(&["a", "b"]));
    assert_eq!(out, "[\nA,\nB\n]");
}
