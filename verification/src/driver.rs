//! What the driver decides from its options and from the compiler's arguments.

use crate::strings::{concat2, concat3, decimal, index_to_string, same_text, texts};
use vstd::prelude::*;
use vstd::string::{StrSliceExecFns, StringExecFns};

verus! {

/// The options of a run.
#[derive(Debug)]
pub struct CliOpts {
    /// Keep the unstructured form.
    pub ullbc: bool,
    /// Translate the library of the package.
    pub lib: bool,
    /// Translate the binary of this name.
    pub bin: Option<String>,
    /// Take the promoted MIR.
    pub mir_promoted: bool,
    /// Take the optimised MIR.
    pub mir_optimized: bool,
    /// The name to give the crate.
    pub crate_name: Option<String>,
    /// The modules whose contents stay opaque.
    pub opaque_modules: Vec<String>,
    pub print_ullbc: bool,
    pub print_built_llbc: bool,
    pub print_llbc: bool,
    pub abort_on_error: bool,
    pub errors_as_warnings: bool,
}

/// The stage of the compiler's pipeline whose MIR is taken.
#[derive(Clone, Copy, Debug, PartialEq, Eq, Structural)]
pub enum MirLevel {
    Built,
    Promoted,
    Optimized,
}

/// Two options that cannot stand together.
#[derive(Clone, Copy, Debug, PartialEq, Eq, Structural)]
pub enum OptionsError {
    LibAndBin,
    PromotedAndOptimized,
    AbortAndWarn,
}

impl CliOpts {
    /// The MIR to take: the optimised one where that is asked for, else the promoted
    /// one where that is asked for, else the one first built.
    pub fn mir_level(&self) -> (level: MirLevel)
        ensures
            level == if self.mir_optimized {
                MirLevel::Optimized
            } else if self.mir_promoted {
                MirLevel::Promoted
            } else {
                MirLevel::Built
            },
    {
        if self.mir_optimized {
            MirLevel::Optimized
        } else if self.mir_promoted {
            MirLevel::Promoted
        } else {
            MirLevel::Built
        }
    }

    /// Names the first pair of options that cannot stand together, if there is one.
    pub fn check(&self) -> (r: Result<(), OptionsError>)
        ensures
            r == if self.lib && self.bin is Some {
                Err::<(), OptionsError>(OptionsError::LibAndBin)
            } else if self.mir_promoted && self.mir_optimized {
                Err(OptionsError::PromotedAndOptimized)
            } else if self.abort_on_error && self.errors_as_warnings {
                Err(OptionsError::AbortAndWarn)
            } else {
                Ok(())
            },
    {
        if self.lib && self.bin.is_some() {
            Err(OptionsError::LibAndBin)
        } else if self.mir_promoted && self.mir_optimized {
            Err(OptionsError::PromotedAndOptimized)
        } else if self.abort_on_error && self.errors_as_warnings {
            Err(OptionsError::AbortAndWarn)
        } else {
            Ok(())
        }
    }
}

/// A step of a run.
#[derive(Clone, Copy, Debug, PartialEq, Eq, Structural)]
pub enum Pass {
    /// The MIR of the compiler is lowered, declaration by declaration.
    LowerMir,
    PrintUllbc,
    /// The declarations are put in the order in which they depend on each other.
    ReorderDeclarations,
    RemoveDynamicChecks,
    SimplifyConstants,
    ExportUllbc,
    /// The control flow is reconstructed.
    ReconstructControlFlow,
    PrintBuiltLlbc,
    UpdateClosureSignatures,
    RemoveArithmeticOverflowChecks,
    ReconstructAsserts,
    OpsToFunctionCalls,
    IndexToFunctionCalls,
    RemoveReadDiscriminant,
    InsertAssignReturnUnit,
    RemoveDropNever,
    RemoveUnusedLocals,
    RemoveNops,
    PrintLlbc,
    ReportExternalDepsErrors,
    ExportLlbc,
}

/// What a run is to do: the name of the crate, the MIR to take, and the steps in
/// their order.
#[derive(Debug)]
pub struct Plan {
    pub crate_name: String,
    pub mir_level: MirLevel,
    pub steps: Vec<Pass>,
}

/// The step, where it is asked for.
pub open spec fn asked(wanted: bool, pass: Pass) -> Seq<Pass> {
    if wanted {
        seq![pass]
    } else {
        seq![]
    }
}

impl CliOpts {
    /// The steps that turn the unstructured form into the structured one and tidy
    /// it. The checks that the compiler has put in go before the asserts are
    /// reconstructed, because they are known by the form of their asserts.
    pub open spec fn structuring_steps(self) -> Seq<Pass> {
        seq![Pass::ReconstructControlFlow] + asked(self.print_built_llbc, Pass::PrintBuiltLlbc)
            + seq![
            Pass::UpdateClosureSignatures,
            Pass::RemoveArithmeticOverflowChecks,
            Pass::ReconstructAsserts,
            Pass::OpsToFunctionCalls,
            Pass::IndexToFunctionCalls,
            Pass::RemoveReadDiscriminant,
            Pass::InsertAssignReturnUnit,
            Pass::RemoveDropNever,
            Pass::RemoveUnusedLocals,
            Pass::RemoveNops,
        ] + asked(self.print_llbc, Pass::PrintLlbc) + seq![
            Pass::ReportExternalDepsErrors,
            Pass::ExportLlbc,
        ]
    }

    /// The steps of a run with these options, in their order. The unstructured form
    /// is exported where it is asked for; else the structured form is built and
    /// exported.
    pub open spec fn steps(self) -> Seq<Pass> {
        seq![Pass::LowerMir] + asked(self.print_ullbc, Pass::PrintUllbc) + seq![
            Pass::ReorderDeclarations,
            Pass::RemoveDynamicChecks,
            Pass::SimplifyConstants,
        ] + (if self.ullbc {
            seq![Pass::ExportUllbc]
        } else {
            self.structuring_steps()
        })
    }
}

/// The step in a list, where it is asked for.
fn asked_pass(wanted: bool, pass: Pass) -> (r: Vec<Pass>)
    ensures
        r@ == asked(wanted, pass),
{
    let mut r: Vec<Pass> = Vec::new();
    if wanted {
        r.push(pass);
    }
    assert(r@ =~= asked(wanted, pass));
    r
}

impl CliOpts {
    /// Lists the steps that build and tidy the structured form.
    fn list_structuring_steps(&self) -> (r: Vec<Pass>)
        ensures
            r@ == self.structuring_steps(),
    {
        let mut steps = vec![Pass::ReconstructControlFlow];
        assert(steps@ =~= seq![Pass::ReconstructControlFlow]);
        let mut printed = asked_pass(self.print_built_llbc, Pass::PrintBuiltLlbc);
        steps.append(&mut printed);
        let mut tidying = vec![
            Pass::UpdateClosureSignatures,
            Pass::RemoveArithmeticOverflowChecks,
            Pass::ReconstructAsserts,
            Pass::OpsToFunctionCalls,
            Pass::IndexToFunctionCalls,
            Pass::RemoveReadDiscriminant,
            Pass::InsertAssignReturnUnit,
            Pass::RemoveDropNever,
            Pass::RemoveUnusedLocals,
            Pass::RemoveNops,
        ];
        assert(tidying@ =~= seq![
            Pass::UpdateClosureSignatures,
            Pass::RemoveArithmeticOverflowChecks,
            Pass::ReconstructAsserts,
            Pass::OpsToFunctionCalls,
            Pass::IndexToFunctionCalls,
            Pass::RemoveReadDiscriminant,
            Pass::InsertAssignReturnUnit,
            Pass::RemoveDropNever,
            Pass::RemoveUnusedLocals,
            Pass::RemoveNops,
        ]);
        steps.append(&mut tidying);
        let mut printed = asked_pass(self.print_llbc, Pass::PrintLlbc);
        steps.append(&mut printed);
        let mut last = vec![Pass::ReportExternalDepsErrors, Pass::ExportLlbc];
        assert(last@ =~= seq![Pass::ReportExternalDepsErrors, Pass::ExportLlbc]);
        steps.append(&mut last);
        steps
    }
}

/// Plans a run: the crate has the name that the options give it, or else the name
/// that the compiler has for it; the MIR and the steps follow from the options.
pub fn translate(options: &CliOpts, compiler_crate_name: String) -> (plan: Plan)
    ensures
        plan.crate_name@ == (match options.crate_name {
            Some(name) => name@,
            None => compiler_crate_name@,
        }),
        plan.mir_level == (if options.mir_optimized {
            MirLevel::Optimized
        } else if options.mir_promoted {
            MirLevel::Promoted
        } else {
            MirLevel::Built
        }),
        plan.steps@ == options.steps(),
{
    let crate_name = match &options.crate_name {
        Some(name) => name.clone(),
        None => compiler_crate_name,
    };
    let mir_level = options.mir_level();
    let mut steps = vec![Pass::LowerMir];
    assert(steps@ =~= seq![Pass::LowerMir]);
    let mut printed = asked_pass(options.print_ullbc, Pass::PrintUllbc);
    steps.append(&mut printed);
    let mut first = vec![Pass::ReorderDeclarations, Pass::RemoveDynamicChecks, Pass::SimplifyConstants];
    assert(first@ =~= seq![
        Pass::ReorderDeclarations,
        Pass::RemoveDynamicChecks,
        Pass::SimplifyConstants,
    ]);
    steps.append(&mut first);
    let mut rest = if options.ullbc {
        let export = vec![Pass::ExportUllbc];
        assert(export@ =~= seq![Pass::ExportUllbc]);
        export
    } else {
        options.list_structuring_steps()
    };
    steps.append(&mut rest);
    Plan { crate_name, mir_level, steps }
}

/// A call of a program: its name or path, and its arguments.
#[derive(Debug)]
pub struct ProgramCall {
    pub program: String,
    pub args: Vec<String>,
}

impl CliOpts {
    /// What Cargo is told: to compile with the compiler's own arguments, the library
    /// or the binary where one is chosen, in release mode. The released code is
    /// what is to be translated, and a debug build is full of checks that would
    /// have to be taken out again.
    pub open spec fn cargo_args(self) -> Seq<Seq<char>> {
        seq!["rustc"@] + (if self.lib {
            seq!["--lib"@]
        } else {
            seq![]
        }) + (match self.bin {
            Some(bin) => seq!["--bin"@, bin@],
            None => seq![],
        }) + seq!["--release"@]
    }
}

/// What comes before Cargo's own arguments: nothing where Cargo is called by a path
/// of its own, else what has `rustup` run the Cargo of the toolchain.
pub open spec fn launcher_args(channel: Seq<char>, cargo_path: Option<String>) -> Seq<Seq<char>> {
    match cargo_path {
        Some(_) => seq![],
        None => seq!["run"@, channel, "cargo"@],
    }
}

/// The call that has Cargo compile the project: of Cargo at the path given, where
/// one is given, else of `rustup`, which finds the Cargo of the toolchain `channel`.
pub fn cargo_call(options: &CliOpts, channel: &str, cargo_path: Option<String>) -> (call:
    ProgramCall)
    ensures
        call.program@ == (match cargo_path {
            Some(path) => path@,
            None => "rustup"@,
        }),
        texts(call.args@) == launcher_args(channel@, cargo_path) + options.cargo_args(),
{
    let mut args: Vec<String> = Vec::new();
    let program = match cargo_path {
        Some(path) => path,
        None => {
            args.push(String::from_str("run"));
            args.push(String::from_str(channel));
            args.push(String::from_str("cargo"));
            String::from_str("rustup")
        },
    };
    assert(texts(args@) =~= launcher_args(channel@, cargo_path));
    let ghost launcher = args@;
    args.push(String::from_str("rustc"));
    if options.lib {
        args.push(String::from_str("--lib"));
    }
    match &options.bin {
        Some(bin) => {
            args.push(String::from_str("--bin"));
            args.push(bin.clone());
        },
        None => {},
    }
    args.push(String::from_str("--release"));
    assert(texts(args@) =~= texts(launcher) + options.cargo_args());
    ProgramCall { program, args }
}

/// What a run hands back for the way Cargo ended: nothing where it succeeded, else
/// its exit code, or -1 where it has none.
pub fn exit_result(success: bool, code: Option<i32>) -> (r: Result<(), i32>)
    ensures
        r == if success {
            Ok::<(), i32>(())
        } else {
            Err(
                match code {
                    Some(c) => c,
                    None => -1i32,
                },
            )
        },
{
    if success {
        Ok(())
    } else {
        match code {
            Some(c) => Err(c),
            None => Err(-1),
        }
    }
}

/// How a run of the compiler ended.
#[derive(Clone, Copy, Debug, PartialEq, Eq, Structural)]
pub enum CompilerRun {
    Finished,
    /// The compiler reported errors.
    Failed,
    Panicked,
}

impl CharonCallbacks {
    /// What a run of the compiler comes to: a failure names the errors counted so
    /// far, a panic is a failure of its own.
    pub fn outcome(&self, run: CompilerRun) -> (r: Result<(), CharonFailure>)
        ensures
            r == match run {
                CompilerRun::Finished => Ok::<(), CharonFailure>(()),
                CompilerRun::Failed => Err(CharonFailure::RustcError(self.error_count)),
                CompilerRun::Panicked => Err(CharonFailure::Panic),
            },
    {
        match run {
            CompilerRun::Finished => Ok(()),
            CompilerRun::Failed => Err(CharonFailure::RustcError(self.error_count)),
            CompilerRun::Panicked => Err(CharonFailure::Panic),
        }
    }

    /// What translation comes to once the declarations have been lowered and the
    /// passes have run. Where lowering failed, so does translation, and the number
    /// of errors stays as it was; else the data is handed on and the number of
    /// errors is the one that was counted. The options and what was taken down
    /// before stay as they were.
    pub fn conclude(&mut self, lowered: Result<(CrateData, usize), ()>) -> (r: Result<
        CrateData,
        (),
    >)
        ensures
            final(self).options == old(self).options,
            final(self).crate_data == old(self).crate_data,
            match lowered {
                Ok((data, count)) => r == Ok::<CrateData, ()>(data) && final(self).error_count
                    == count,
                Err(_) => r is Err && final(self).error_count == old(self).error_count,
            },
    {
        match lowered {
            Ok((data, count)) => {
                self.error_count = count;
                Ok(data)
            },
            Err(_) => Err(()),
        }
    }

    /// Takes down what translation came to: where it gave data, the data is kept;
    /// where it failed, this is a failure too and nothing is kept. The number of
    /// errors and the options stay as they were.
    pub fn record(&mut self, translated: Result<CrateData, ()>) -> (r: Result<(), ()>)
        ensures
            final(self).options == old(self).options,
            final(self).error_count == old(self).error_count,
            match translated {
                Ok(data) => r is Ok && final(self).crate_data == Some(data),
                Err(_) => r is Err && final(self).crate_data == old(self).crate_data,
            },
    {
        match translated {
            Ok(data) => {
                self.crate_data = Some(data);
                Ok(())
            },
            Err(_) => Err(()),
        }
    }
}

impl Plan {
    /// Whether the step is one of the plan.
    pub fn wants(&self, pass: Pass) -> (b: bool)
        ensures
            b == self.steps@.contains(pass),
    {
        let mut i: usize = 0;
        while i < self.steps.len()
            invariant
                i <= self.steps@.len(),
                forall|k: int| 0 <= k < i ==> self.steps@[k] != pass,
            decreases self.steps@.len() - i,
        {
            if self.steps[i] == pass {
                return true;
            }
            i = i + 1;
        }
        false
    }
}

/// What is printed for a definition: the name of its crate and its path in the
/// crate, which hold nothing that changes from run to run; or a word on why not,
/// where the compiler cannot be asked for them.
pub fn def_id_text(known: Option<(&str, &str)>) -> (s: String)
    ensures
        s@ == (match known {
            Some((crate_name, path)) => crate_name@ + path@,
            None => "<can't access `tcx` to print `DefId` path>"@,
        }),
{
    match known {
        Some((crate_name, path)) => concat2(crate_name, path),
        None => String::from_str("<can't access `tcx` to print `DefId` path>"),
    }
}

/// The name that stands where the compiler expects that of its own program.
pub open spec fn first_arg() -> Seq<char> {
    "__CHARON_MYSTERIOUS_FIRST_ARG__"@
}

/// The arguments as the compiler wants them. Its list starts with the name of the
/// program, which it does not read: a name that nothing else uses is put there.
pub fn compiler_args(args: Vec<String>) -> (r: Vec<String>)
    ensures
        r@.len() == args@.len() + 1,
        r@[0]@ == first_arg(),
        r@.skip(1) == args@,
{
    let mut args = args;
    let ghost given = args@;
    args.insert(0, String::from_str("__CHARON_MYSTERIOUS_FIRST_ARG__"));
    assert(args@.skip(1) =~= given);
    args
}

/// What a run hands on for export.
#[derive(Debug)]
pub struct CrateData {
    pub name: String,
}

/// The state of a run of the compiler with the translation plugged in.
#[derive(Debug)]
pub struct CharonCallbacks {
    pub options: CliOpts,
    /// What the translation produced, once it has run.
    pub crate_data: Option<CrateData>,
    pub error_count: usize,
}

impl CharonCallbacks {
    /// The state before the run: no data and no errors.
    pub fn new(options: CliOpts) -> (r: Self)
        ensures
            r.options == options,
            r.crate_data is None,
            r.error_count == 0,
    {
        Self { options, crate_data: None, error_count: 0 }
    }
}

/// The state of a run of the compiler with nothing plugged in.
#[derive(Clone, Copy, Debug)]
pub struct RunCompilerNormallyCallbacks;

/// How a run failed.
#[derive(Clone, Copy, Debug, PartialEq, Eq, Structural)]
pub enum CharonFailure {
    RustcError(usize),
    Panic,
    Serialize,
}

impl CharonFailure {
    /// The text of the failure.
    pub open spec fn text(self) -> Seq<char> {
        match self {
            CharonFailure::RustcError(n) => "Compilation encountered "@ + decimal(n as nat)
                + " errors"@,
            CharonFailure::Panic => "Compilation panicked"@,
            CharonFailure::Serialize => "Could not serialize output file"@,
        }
    }

    /// The failure as text.
    pub fn to_string(&self) -> (s: String)
        ensures
            s@ == self.text(),
    {
        match self {
            CharonFailure::RustcError(n) => concat3(
                "Compilation encountered ",
                index_to_string(*n).as_str(),
                " errors",
            ),
            CharonFailure::Panic => String::from_str("Compilation panicked"),
            CharonFailure::Serialize => String::from_str("Could not serialize output file"),
        }
    }
}

/// The place of the first argument at or after `k` that is `--crate-name`.
pub open spec fn crate_name_flag(args: Seq<String>, k: int) -> Option<int>
    decreases args.len() - k,
{
    if k < 0 || k >= args.len() {
        None
    } else if args[k]@ == "--crate-name"@ {
        Some(k)
    } else {
        crate_name_flag(args, k + 1)
    }
}

/// Finds the first argument that is `--crate-name`.
pub fn find_crate_name_flag(args: &Vec<String>) -> (r: Option<usize>)
    ensures
        match r {
            Some(i) => crate_name_flag(args@, 0) == Some(i as int) && i < args@.len(),
            None => crate_name_flag(args@, 0) is None,
        },
{
    let needle = String::from_str("--crate-name");
    let mut k: usize = 0;
    while k < args.len()
        invariant
            k <= args@.len(),
            needle@ == "--crate-name"@,
            crate_name_flag(args@, 0) == crate_name_flag(args@, k as int),
        decreases args@.len() - k,
    {
        if args[k] == needle {
            return Some(k);
        }
        k = k + 1;
    }
    None
}

/// The index of the argument that gives the name of the crate: the one behind the
/// first `--crate-name`. That flag must not be the last argument.
pub fn get_args_crate_index(args: &Vec<String>) -> (r: Option<usize>)
    requires
        crate_name_flag(args@, 0) is Some ==> crate_name_flag(args@, 0)->0 + 1 < args@.len(),
    ensures
        match crate_name_flag(args@, 0) {
            Some(i) => r == Some((i + 1) as usize),
            None => r is None,
        },
{
    let n = args.len();
    match find_crate_name_flag(args) {
        Some(i) => {
            assert(i + 1 < n);
            Some(i + 1)
        },
        None => None,
    }
}

#[verifier::external_type_specification]
#[verifier::external_body]
pub struct ExRegex(regex::Regex);

/// Whether the `regex` crate compiles the pattern.
pub uninterp spec fn regex_compiles(pattern: Seq<char>) -> bool;

/// The pattern that a regular expression of the `regex` crate was compiled from.
pub uninterp spec fn regex_source(re: regex::Regex) -> Seq<char>;

/// Whether a regular expression of the `regex` crate was compiled with the options
/// that `Regex::new` uses. A builder can compile the same pattern with other
/// options, and what it gives then matches other texts.
pub uninterp spec fn regex_plain(re: regex::Regex) -> bool;

/// Whether the `regex` crate, with the options that `Regex::new` uses, finds a
/// match for the pattern anywhere in the text.
pub uninterp spec fn regex_is_match(pattern: Seq<char>, text: Seq<char>) -> bool;

/// `regex::Regex::new`: compiles the pattern, or fails on a pattern that is invalid
/// or too big. What it returns was compiled from the pattern given, with the
/// options that this function uses.
#[verifier::external_body]
pub(crate) fn regex_new(pattern: &str) -> (r: Option<regex::Regex>)
    ensures
        r is Some == regex_compiles(pattern@),
        r is Some ==> regex_source(r->0) == pattern@ && regex_plain(r->0),
{
    regex::Regex::new(pattern).ok()
}

/// `regex::Regex::is_match`: whether there is a match for the regular expression
/// anywhere in the text. For an expression that `Regex::new` compiled, the answer
/// goes by the pattern and the text alone.
#[verifier::external_body]
pub(crate) fn regex_test(re: &regex::Regex, text: &str) -> (b: bool)
    requires
        regex_plain(*re),
    ensures
        b == regex_is_match(regex_source(*re), text@),
{
    re.is_match(text)
}

/// The pattern of the names of source files.
pub open spec fn source_pattern() -> Seq<char> {
    ".*\\.rs"@
}

/// Whether the argument names a source file.
pub open spec fn names_source(arg: Seq<char>) -> bool {
    regex_compiles(source_pattern()) && regex_is_match(source_pattern(), arg)
}

/// How many of the first `n` arguments name a source file.
pub open spec fn sources_among(args: Seq<String>, n: int) -> nat
    decreases n,
{
    if n <= 0 {
        0
    } else {
        sources_among(args, n - 1) + if names_source(args[n - 1]@) {
            1nat
        } else {
            0nat
        }
    }
}

/// The place of the first argument at or after `k` that names a source file.
pub open spec fn first_source(args: Seq<String>, k: int) -> Option<int>
    decreases args.len() - k,
{
    if k < 0 || k >= args.len() {
        None
    } else if names_source(args[k]@) {
        Some(k)
    } else {
        first_source(args, k + 1)
    }
}

/// The places among the first `n` arguments that name a source file, in rising order.
pub open spec fn source_places(args: Seq<String>, n: int) -> Seq<int>
    decreases n,
{
    if n <= 0 {
        seq![]
    } else if names_source(args[n - 1]@) {
        source_places(args, n - 1).push(n - 1)
    } else {
        source_places(args, n - 1)
    }
}

/// The indices of the arguments that name a source file, in rising order.
pub fn source_indices(args: &Vec<String>) -> (r: Vec<usize>)
    ensures
        r@.len() == source_places(args@, args@.len() as int).len(),
        forall|k: int|
            0 <= k < r@.len() ==> (#[trigger] r@[k]) as int == source_places(
                args@,
                args@.len() as int,
            )[k],
        forall|k: int| 0 <= k < r@.len() ==> (#[trigger] r@[k]) < args@.len() && names_source(
            args@[r@[k] as int]@,
        ),
        forall|j: int, k: int| 0 <= j < k < r@.len() ==> r@[j] < r@[k],
        r@.len() == sources_among(args@, args@.len() as int),
        r@.len() > 0 ==> first_source(args@, 0) == Some(r@[0] as int),
        r@.len() == 0 ==> first_source(args@, 0) is None,
{
    let mut r: Vec<usize> = Vec::new();
    let re = regex_new(".*\\.rs");
    let mut i: usize = 0;
    while i < args.len()
        invariant
            i <= args@.len(),
            re is Some == regex_compiles(source_pattern()),
            re is Some ==> regex_source(re->0) == source_pattern() && regex_plain(re->0),
            r@.len() == source_places(args@, i as int).len(),
            forall|k: int|
                0 <= k < r@.len() ==> (#[trigger] r@[k]) as int == source_places(
                    args@,
                    i as int,
                )[k],
            forall|k: int| 0 <= k < r@.len() ==> (#[trigger] r@[k]) < i && names_source(
                args@[r@[k] as int]@,
            ),
            forall|j: int, k: int| 0 <= j < k < r@.len() ==> r@[j] < r@[k],
            r@.len() == sources_among(args@, i as int),
            r@.len() > 0 ==> first_source(args@, 0) == Some(r@[0] as int),
            r@.len() == 0 ==> first_source(args@, 0) == first_source(args@, i as int),
        decreases args@.len() - i,
    {
        let hit = match &re {
            Some(re) => regex_test(re, args[i].as_str()),
            None => false,
        };
        if hit {
            r.push(i);
        }
        i = i + 1;
    }
    r
}

/// The index of the argument that names the source file, if there is one.
/// At most one argument may name a source file.
pub fn get_args_source_index(args: &Vec<String>) -> (r: Option<usize>)
    requires
        sources_among(args@, args@.len() as int) <= 1,
    ensures
        match first_source(args@, 0) {
            Some(i) => r == Some(i as usize),
            None => r is None,
        },
{
    let indices = source_indices(args);
    if indices.len() == 1 {
        Some(indices[0])
    } else {
        None
    }
}

/// The index of the argument that names the source file, if there is one;
/// the number of such arguments as an error, where there are several.
pub fn find_args_source_index(args: &Vec<String>) -> (r: Result<Option<usize>, usize>)
    ensures
        match r {
            Ok(found) => sources_among(args@, args@.len() as int) <= 1 && match first_source(
                args@,
                0,
            ) {
                Some(i) => found == Some(i as usize),
                None => found is None,
            },
            Err(count) => count == sources_among(args@, args@.len() as int) && count > 1,
        },
{
    let indices = source_indices(args);
    if indices.len() <= 1 {
        Ok(get_args_source_index(args))
    } else {
        Err(indices.len())
    }
}

/// The place of the first `=` at or after `k`.
pub open spec fn equals_sign(s: Seq<char>, k: int) -> Option<int>
    decreases s.len() - k,
{
    if k < 0 || k >= s.len() {
        None
    } else if s[k] == '=' {
        Some(k)
    } else {
        equals_sign(s, k + 1)
    }
}

/// The name of an argument: what stands before its first `=`, or all of it.
pub open spec fn flag_name(s: Seq<char>) -> Seq<char> {
    match equals_sign(s, 0) {
        Some(p) => s.subrange(0, p),
        None => s,
    }
}

/// The value in an argument: what stands behind its first `=`, if it has one.
pub open spec fn flag_value(s: Seq<char>) -> Option<Seq<char>> {
    match equals_sign(s, 0) {
        Some(p) => Some(s.subrange(p + 1, s.len() as int)),
        None => None,
    }
}

/// Parts an argument at its first `=` into name and value.
pub fn split_flag<'a>(s: &'a str) -> (r: (&'a str, Option<&'a str>))
    ensures
        r.0@ == flag_name(s@),
        match r.1 {
            Some(v) => flag_value(s@) == Some(v@),
            None => flag_value(s@) is None,
        },
{
    let n = s.unicode_len();
    let mut k: usize = 0;
    while k < n
        invariant
            n == s@.len(),
            k <= n,
            equals_sign(s@, 0) == equals_sign(s@, k as int),
        decreases n - k,
    {
        if s.get_char(k) == '=' {
            let name = s.substring_char(0, k);
            let value = s.substring_char(k + 1, n);
            return (name, Some(value));
        }
        k = k + 1;
    }
    (s, None)
}

/// Whether `pred`, asked about the text, may answer `b`.
pub open spec fn answers<F: Fn(&str) -> bool>(pred: F, v: Seq<char>, b: bool) -> bool {
    exists|s: &str| s@ == v && #[trigger] call_ensures(pred, (s,), b)
}

/// Whether the search for the value of the option `find_arg` among the arguments
/// from the `i`-th on gives `r`, for what `pred` answers on each value that it is
/// asked about. The value of an argument named `find_arg` stands behind its `=`, or
/// else is the argument that follows, which is then passed over. The first value
/// that `pred` takes is given; one that it turns down is passed over.
pub open spec fn arg_value_gives<F: Fn(&str) -> bool>(
    args: Seq<String>,
    find_arg: Seq<char>,
    pred: F,
    i: int,
    r: Option<Seq<char>>,
) -> bool
    decreases args.len() - i,
{
    if i < 0 || i >= args.len() {
        r is None
    } else if flag_name(args[i]@) != find_arg {
        arg_value_gives(args, find_arg, pred, i + 1, r)
    } else {
        match flag_value(args[i]@) {
            Some(v) => (answers(pred, v, true) && r == Some(v)) || (answers(pred, v, false)
                && arg_value_gives(args, find_arg, pred, i + 1, r)),
            None => if i + 1 < args.len() {
                (answers(pred, args[i + 1]@, true) && r == Some(args[i + 1]@)) || (answers(
                    pred,
                    args[i + 1]@,
                    false,
                ) && arg_value_gives(args, find_arg, pred, i + 2, r))
            } else {
                r is None
            },
        }
    }
}

/// The text of what was found.
pub open spec fn found_text(r: Option<&str>) -> Option<Seq<char>> {
    match r {
        Some(v) => Some(v@),
        None => None,
    }
}

/// The value of the option `find_arg`, given as `--arg=value` or as `--arg value`,
/// if `pred` takes it; a value that `pred` turns down is passed over. `pred` must
/// be a function that can be asked about any text.
pub fn arg_value<'a, F: Fn(&str) -> bool>(args: &'a Vec<String>, find_arg: &str, pred: F) -> (r:
    Option<&'a str>)
    requires
        forall|s: &str| #[trigger] call_requires(pred, (s,)),
    ensures
        arg_value_gives(args@, find_arg@, pred, 0, found_text(r)),
{
    let n = args.len();
    let mut i: usize = 0;
    while i < n
        invariant
            n == args@.len(),
            i <= n,
            forall|s: &str| #[trigger] call_requires(pred, (s,)),
            forall|r: Option<Seq<char>>| #[trigger]
                arg_value_gives(args@, find_arg@, pred, i as int, r) ==> arg_value_gives(
                    args@,
                    find_arg@,
                    pred,
                    0,
                    r,
                ),
        decreases n - i,
    {
        let (name, value) = split_flag(args[i].as_str());
        let ghost at = i as int;
        i = i + 1;
        proof {
            if name@ != find_arg@ {
                assert forall|r: Option<Seq<char>>| #[trigger]
                    arg_value_gives(args@, find_arg@, pred, at + 1, r) implies arg_value_gives(
                    args@,
                    find_arg@,
                    pred,
                    at,
                    r,
                ) by {}
            }
        }
        if same_text(name, find_arg) {
            let found = match value {
                Some(v) => Some(v),
                None => if i < n {
                    let v = args[i].as_str();
                    i = i + 1;
                    Some(v)
                } else {
                    None
                },
            };
            match found {
                Some(v) => {
                    let ok = pred(v);
                    proof {
                        assert(answers(pred, v@, ok));
                    }
                    if ok {
                        proof {
                            assert(arg_value_gives(args@, find_arg@, pred, at, Some(v@)));
                        }
                        return Some(v);
                    }
                    proof {
                        assert forall|r: Option<Seq<char>>| #[trigger]
                            arg_value_gives(
                                args@,
                                find_arg@,
                                pred,
                                i as int,
                                r,
                            ) implies arg_value_gives(args@, find_arg@, pred, at, r) by {}
                    }
                },
                None => {
                    proof {
                        assert(arg_value_gives(args@, find_arg@, pred, at, None));
                    }
                    return None;
                },
            }
        }
    }
    proof {
        assert(arg_value_gives(args@, find_arg@, pred, n as int, None));
    }
    None
}

} // verus!
