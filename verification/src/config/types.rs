//! Configuration types.
//!
//! These structs represent the configuration of a mutation-testing run, as
//! given by `fest.toml` or the `[tool.fest]` section of `pyproject.toml`.
use crate::double;
use crate::double::Double;
use vstd::prelude::*;

verus! {

/// Execution backend for running mutants against the test suite.
#[derive(Debug, Clone, Copy, PartialEq, Eq, Structural)]
pub enum RunnerBackend {
    /// Subprocess runner: writes mutated file to tmpdir, spawns pytest.
    Subprocess,
    /// Pytest plugin runner: in-process patching via Unix socket protocol.
    /// Falls back to subprocess automatically on infrastructure errors.
    Plugin,
}

impl Default for RunnerBackend {
    fn default() -> (r: Self)
        ensures
            r is Plugin,
    {
        RunnerBackend::Plugin
    }
}

/// Output format for the mutation-testing report.
#[derive(Debug, Clone, Copy, PartialEq, Eq, Structural)]
pub enum OutputFormat {
    /// Plain-text report written to stdout.
    Text,
    /// Machine-readable JSON report.
    Json,
    /// HTML report written to a directory.
    Html,
}

impl Default for OutputFormat {
    fn default() -> (r: Self)
        ensures
            r is Text,
    {
        OutputFormat::Text
    }
}

/// Configuration for a single custom (text-pattern) mutator.
#[derive(Debug, PartialEq, Eq)]
pub struct CustomMutator {
    /// Human-readable name for this mutator.
    pub name: String,
    /// Text pattern to match in the source.
    pub pattern: String,
    /// Replacement text to substitute.
    pub replacement: String,
}

impl Clone for CustomMutator {
    fn clone(&self) -> (r: Self)
        ensures
            r == *self,
    {
        CustomMutator {
            name: self.name.clone(),
            pattern: self.pattern.clone(),
            replacement: self.replacement.clone(),
        }
    }
}

/// Configuration for a Python-based mutator plugin.
#[derive(Debug, PartialEq, Eq)]
pub struct PythonMutator {
    /// Filesystem path to the Python mutator script.
    pub path: String,
}

impl Clone for PythonMutator {
    fn clone(&self) -> (r: Self)
        ensures
            r == *self,
    {
        PythonMutator { path: self.path.clone() }
    }
}

/// Configuration for a shared-library (dylib) mutator plugin.
#[derive(Debug, PartialEq, Eq)]
pub struct DylibMutator {
    /// Filesystem path to the shared-library mutator.
    pub path: String,
}

impl Clone for DylibMutator {
    fn clone(&self) -> (r: Self)
        ensures
            r == *self,
    {
        DylibMutator { path: self.path.clone() }
    }
}

/// Which built-in mutators are enabled.
#[derive(Debug, Clone, Copy, PartialEq, Eq, Structural)]
pub struct MutatorFlags {
    pub arithmetic_op: bool,
    pub comparison_op: bool,
    pub boolean_op: bool,
    pub return_value: bool,
    pub negate_condition: bool,
    pub remove_decorator: bool,
    pub constant_replace: bool,
    pub exception_swallow: bool,
    pub break_continue: bool,
    pub unary_op: bool,
    pub zero_iteration_loop: bool,
    pub augmented_assign: bool,
    pub statement_deletion: bool,
    pub bitwise_op: bool,
    pub remove_super_call: bool,
    pub variable_replace: bool,
    pub variable_insert: bool,
}

/// Configuration for which mutators are enabled and any external plugins.
#[derive(Debug, PartialEq, Eq)]
pub struct MutatorConfig {
    /// Enable the arithmetic-operator mutator.
    pub arithmetic_op: bool,
    /// Enable the comparison-operator mutator.
    pub comparison_op: bool,
    /// Enable the boolean-operator mutator.
    pub boolean_op: bool,
    /// Enable the return-value mutator.
    pub return_value: bool,
    /// Enable the negate-condition mutator.
    pub negate_condition: bool,
    /// Enable the remove-decorator mutator.
    pub remove_decorator: bool,
    /// Enable the constant-replace mutator.
    pub constant_replace: bool,
    /// Enable the exception-swallow mutator.
    pub exception_swallow: bool,
    /// Enable the break/continue swap mutator.
    pub break_continue: bool,
    /// Enable the unary operator mutator.
    pub unary_op: bool,
    /// Enable the zero-iteration loop mutator.
    pub zero_iteration_loop: bool,
    /// Enable the augmented-assignment operator mutator.
    pub augmented_assign: bool,
    /// Enable the statement-deletion mutator.
    pub statement_deletion: bool,
    /// Enable the bitwise operator mutator.
    pub bitwise_op: bool,
    /// Enable the super-call removal mutator.
    pub remove_super_call: bool,
    /// Enable the variable-replace (seeded) mutator.
    pub variable_replace: bool,
    /// Enable the variable-insert (seeded) mutator.
    pub variable_insert: bool,
    /// Custom text-pattern mutators.
    pub custom: Vec<CustomMutator>,
    /// Python-based mutator plugins.
    pub python: Vec<PythonMutator>,
    /// Shared-library mutator plugins.
    pub dylib: Vec<DylibMutator>,
}

/// The flags of a default configuration: all but the opt-in mutators.
pub open spec fn default_flags() -> MutatorFlags {
    MutatorFlags {
        arithmetic_op: true,
        comparison_op: true,
        boolean_op: true,
        return_value: true,
        negate_condition: true,
        remove_decorator: true,
        constant_replace: true,
        exception_swallow: true,
        break_continue: true,
        unary_op: true,
        zero_iteration_loop: true,
        augmented_assign: true,
        statement_deletion: false,
        bitwise_op: true,
        remove_super_call: true,
        variable_replace: false,
        variable_insert: false,
    }
}

impl Default for MutatorConfig {
    fn default() -> (r: Self)
        ensures
            r.flags() == default_flags(),
            r.custom@.len() == 0,
            r.python@.len() == 0,
            r.dylib@.len() == 0,
    {
        MutatorConfig {
            arithmetic_op: true,
            comparison_op: true,
            boolean_op: true,
            return_value: true,
            negate_condition: true,
            remove_decorator: true,
            constant_replace: true,
            exception_swallow: true,
            break_continue: true,
            unary_op: true,
            zero_iteration_loop: true,
            augmented_assign: true,
            statement_deletion: false,
            bitwise_op: true,
            remove_super_call: true,
            variable_replace: false,
            variable_insert: false,
            custom: Vec::new(),
            python: Vec::new(),
            dylib: Vec::new(),
        }
    }
}

/// Per-file mutator overrides.
///
/// `Some(value)` overrides the global setting, `None` keeps the global
/// setting unchanged.
#[derive(Debug, Clone, Copy, PartialEq, Eq, Structural)]
pub struct MutatorOverrides {
    /// Override the arithmetic-operator mutator.
    pub arithmetic_op: Option<bool>,
    /// Override the comparison-operator mutator.
    pub comparison_op: Option<bool>,
    /// Override the boolean-operator mutator.
    pub boolean_op: Option<bool>,
    /// Override the return-value mutator.
    pub return_value: Option<bool>,
    /// Override the negate-condition mutator.
    pub negate_condition: Option<bool>,
    /// Override the remove-decorator mutator.
    pub remove_decorator: Option<bool>,
    /// Override the constant-replace mutator.
    pub constant_replace: Option<bool>,
    /// Override the exception-swallow mutator.
    pub exception_swallow: Option<bool>,
    /// Override the break/continue swap mutator.
    pub break_continue: Option<bool>,
    /// Override the unary operator mutator.
    pub unary_op: Option<bool>,
    /// Override the zero-iteration loop mutator.
    pub zero_iteration_loop: Option<bool>,
    /// Override the augmented-assignment operator mutator.
    pub augmented_assign: Option<bool>,
    /// Override the statement-deletion mutator.
    pub statement_deletion: Option<bool>,
    /// Override the bitwise operator mutator.
    pub bitwise_op: Option<bool>,
    /// Override the super-call removal mutator.
    pub remove_super_call: Option<bool>,
    /// Override the variable-replace (seeded) mutator.
    pub variable_replace: Option<bool>,
    /// Override the variable-insert (seeded) mutator.
    pub variable_insert: Option<bool>,
}

impl Default for MutatorOverrides {
    fn default() -> (r: Self)
        ensures
            r == no_overrides(),
    {
        MutatorOverrides {
            arithmetic_op: None,
            comparison_op: None,
            boolean_op: None,
            return_value: None,
            negate_condition: None,
            remove_decorator: None,
            constant_replace: None,
            exception_swallow: None,
            break_continue: None,
            unary_op: None,
            zero_iteration_loop: None,
            augmented_assign: None,
            statement_deletion: None,
            bitwise_op: None,
            remove_super_call: None,
            variable_replace: None,
            variable_insert: None,
        }
    }
}

/// The overrides that keep every setting.
pub open spec fn no_overrides() -> MutatorOverrides {
    MutatorOverrides {
        arithmetic_op: None,
        comparison_op: None,
        boolean_op: None,
        return_value: None,
        negate_condition: None,
        remove_decorator: None,
        constant_replace: None,
        exception_swallow: None,
        break_continue: None,
        unary_op: None,
        zero_iteration_loop: None,
        augmented_assign: None,
        statement_deletion: None,
        bitwise_op: None,
        remove_super_call: None,
        variable_replace: None,
        variable_insert: None,
    }
}

/// The override if there is one, else the global setting.
#[verifier::opaque]
pub open spec fn pick(over: Option<bool>, global: bool) -> bool {
    match over {
        Some(value) => value,
        None => global,
    }
}

/// Flags with overrides laid over them.
pub open spec fn overridden(flags: MutatorFlags, over: MutatorOverrides) -> MutatorFlags {
    MutatorFlags {
        arithmetic_op: pick(over.arithmetic_op, flags.arithmetic_op),
        comparison_op: pick(over.comparison_op, flags.comparison_op),
        boolean_op: pick(over.boolean_op, flags.boolean_op),
        return_value: pick(over.return_value, flags.return_value),
        negate_condition: pick(over.negate_condition, flags.negate_condition),
        remove_decorator: pick(over.remove_decorator, flags.remove_decorator),
        constant_replace: pick(over.constant_replace, flags.constant_replace),
        exception_swallow: pick(over.exception_swallow, flags.exception_swallow),
        break_continue: pick(over.break_continue, flags.break_continue),
        unary_op: pick(over.unary_op, flags.unary_op),
        zero_iteration_loop: pick(over.zero_iteration_loop, flags.zero_iteration_loop),
        augmented_assign: pick(over.augmented_assign, flags.augmented_assign),
        statement_deletion: pick(over.statement_deletion, flags.statement_deletion),
        bitwise_op: pick(over.bitwise_op, flags.bitwise_op),
        remove_super_call: pick(over.remove_super_call, flags.remove_super_call),
        variable_replace: pick(over.variable_replace, flags.variable_replace),
        variable_insert: pick(over.variable_insert, flags.variable_insert),
    }
}

/// Without overrides the flags stay as they are.
pub proof fn law_no_overrides_keep_flags(flags: MutatorFlags)
    ensures
        overridden(flags, no_overrides()) == flags,
{
    reveal(pick);
}

/// Laying the same overrides over flags twice is the same as doing so once.
pub proof fn law_overrides_are_idempotent(flags: MutatorFlags, over: MutatorOverrides)
    ensures
        overridden(overridden(flags, over), over) == overridden(flags, over),
{
    assert forall|o: Option<bool>, g: bool| #[trigger] pick(o, pick(o, g)) == pick(o, g) by {
        reveal(pick);
    }
}

/// The override if there is one, else the global setting.
fn pick_flag(over: Option<bool>, global: bool) -> (r: bool)
    ensures
        r == pick(over, global),
{
    reveal(pick);
    match over {
        Some(value) => value,
        None => global,
    }
}

/// Flags with overrides laid over them.
fn override_flags(flags: &MutatorFlags, over: &MutatorOverrides) -> (r: MutatorFlags)
    ensures
        r == overridden(*flags, *over),
{
    MutatorFlags {
        arithmetic_op: pick_flag(over.arithmetic_op, flags.arithmetic_op),
        comparison_op: pick_flag(over.comparison_op, flags.comparison_op),
        boolean_op: pick_flag(over.boolean_op, flags.boolean_op),
        return_value: pick_flag(over.return_value, flags.return_value),
        negate_condition: pick_flag(over.negate_condition, flags.negate_condition),
        remove_decorator: pick_flag(over.remove_decorator, flags.remove_decorator),
        constant_replace: pick_flag(over.constant_replace, flags.constant_replace),
        exception_swallow: pick_flag(over.exception_swallow, flags.exception_swallow),
        break_continue: pick_flag(over.break_continue, flags.break_continue),
        unary_op: pick_flag(over.unary_op, flags.unary_op),
        zero_iteration_loop: pick_flag(over.zero_iteration_loop, flags.zero_iteration_loop),
        augmented_assign: pick_flag(over.augmented_assign, flags.augmented_assign),
        statement_deletion: pick_flag(over.statement_deletion, flags.statement_deletion),
        bitwise_op: pick_flag(over.bitwise_op, flags.bitwise_op),
        remove_super_call: pick_flag(over.remove_super_call, flags.remove_super_call),
        variable_replace: pick_flag(over.variable_replace, flags.variable_replace),
        variable_insert: pick_flag(over.variable_insert, flags.variable_insert),
    }
}

/// A copy of a list of mutators.
fn copy_custom(list: &Vec<CustomMutator>) -> (r: Vec<CustomMutator>)
    ensures
        r@ == list@,
{
    let r: Vec<CustomMutator> = list.clone();
    assert(r@ =~= list@);
    r
}

/// A copy of a list of mutators.
fn copy_python(list: &Vec<PythonMutator>) -> (r: Vec<PythonMutator>)
    ensures
        r@ == list@,
{
    let r: Vec<PythonMutator> = list.clone();
    assert(r@ =~= list@);
    r
}

/// A copy of a list of mutators.
fn copy_dylib(list: &Vec<DylibMutator>) -> (r: Vec<DylibMutator>)
    ensures
        r@ == list@,
{
    let r: Vec<DylibMutator> = list.clone();
    assert(r@ =~= list@);
    r
}

impl MutatorConfig {
    /// Which built-in mutators are enabled.
    pub open spec fn flags(self) -> MutatorFlags {
        MutatorFlags {
            arithmetic_op: self.arithmetic_op,
            comparison_op: self.comparison_op,
            boolean_op: self.boolean_op,
            return_value: self.return_value,
            negate_condition: self.negate_condition,
            remove_decorator: self.remove_decorator,
            constant_replace: self.constant_replace,
            exception_swallow: self.exception_swallow,
            break_continue: self.break_continue,
            unary_op: self.unary_op,
            zero_iteration_loop: self.zero_iteration_loop,
            augmented_assign: self.augmented_assign,
            statement_deletion: self.statement_deletion,
            bitwise_op: self.bitwise_op,
            remove_super_call: self.remove_super_call,
            variable_replace: self.variable_replace,
            variable_insert: self.variable_insert,
        }
    }

    /// Which built-in mutators are enabled.
    pub fn get_flags(&self) -> (r: MutatorFlags)
        ensures
            r == self.flags(),
    {
        MutatorFlags {
            arithmetic_op: self.arithmetic_op,
            comparison_op: self.comparison_op,
            boolean_op: self.boolean_op,
            return_value: self.return_value,
            negate_condition: self.negate_condition,
            remove_decorator: self.remove_decorator,
            constant_replace: self.constant_replace,
            exception_swallow: self.exception_swallow,
            break_continue: self.break_continue,
            unary_op: self.unary_op,
            zero_iteration_loop: self.zero_iteration_loop,
            augmented_assign: self.augmented_assign,
            statement_deletion: self.statement_deletion,
            bitwise_op: self.bitwise_op,
            remove_super_call: self.remove_super_call,
            variable_replace: self.variable_replace,
            variable_insert: self.variable_insert,
        }
    }

    /// Create a new `MutatorConfig` by merging overrides on top of `self`.
    ///
    /// Fields in `overrides` that are `Some(value)` replace the corresponding
    /// field in `self`; `None` fields keep the value from `self`.
    pub fn with_overrides(&self, overrides: &MutatorOverrides) -> (r: Self)
        ensures
            r.flags() == overridden(self.flags(), *overrides),
            r.custom@ == self.custom@,
            r.python@ == self.python@,
            r.dylib@ == self.dylib@,
    {
        let flags: MutatorFlags = override_flags(&self.get_flags(), overrides);
        MutatorConfig {
            arithmetic_op: flags.arithmetic_op,
            comparison_op: flags.comparison_op,
            boolean_op: flags.boolean_op,
            return_value: flags.return_value,
            negate_condition: flags.negate_condition,
            remove_decorator: flags.remove_decorator,
            constant_replace: flags.constant_replace,
            exception_swallow: flags.exception_swallow,
            break_continue: flags.break_continue,
            unary_op: flags.unary_op,
            zero_iteration_loop: flags.zero_iteration_loop,
            augmented_assign: flags.augmented_assign,
            statement_deletion: flags.statement_deletion,
            bitwise_op: flags.bitwise_op,
            remove_super_call: flags.remove_super_call,
            variable_replace: flags.variable_replace,
            variable_insert: flags.variable_insert,
            custom: copy_custom(&self.custom),
            python: copy_python(&self.python),
            dylib: copy_dylib(&self.dylib),
        }
    }
}

/// Per-file configuration override.
///
/// Matches files by glob pattern and allows overriding mutator settings,
/// timeout, or skipping mutation entirely for matching files.
#[derive(Debug, PartialEq, Eq)]
pub struct PerFileConfig {
    /// Glob pattern to match file paths.
    pub pattern: String,
    /// Override mutator configuration for matching files (merged with globals).
    pub mutators: Option<MutatorOverrides>,
    /// Override timeout for matching files.
    pub timeout: Option<u64>,
    /// Skip matching files entirely when `true`.
    pub skip: bool,
}

/// Top-level configuration.
///
/// This struct represents the full configuration for a run, loaded from
/// `fest.toml`, `pyproject.toml`, or falling back to defaults.
#[derive(Debug, PartialEq, Eq)]
pub struct FestConfig {
    /// Glob patterns matching Python source files to mutate.
    pub source: Vec<String>,
    /// Glob patterns for files to exclude from mutation.
    pub exclude: Vec<String>,
    /// Name of the test runner command (e.g. `"pytest"`).
    pub test_runner: String,
    /// Explicit worker count. If `None`, computed from `workers_cpu_ratio`.
    pub workers: Option<usize>,
    /// Fraction of available CPUs to use when `workers` is not set.
    pub workers_cpu_ratio: Double,
    /// Timeout in seconds for each individual test run.
    pub timeout: u64,
    /// Minimum mutation score (0-100) to consider the run successful.
    pub fail_under: Option<Double>,
    /// Output format for the mutation report.
    pub output: OutputFormat,
    /// Execution backend for running mutants against the test suite.
    pub backend: RunnerBackend,
    /// Mutator configuration.
    pub mutators: MutatorConfig,
    /// Reuse cached `.coverage.json` when all `.py` files are older.
    pub coverage_cache: bool,
    /// Path to a user-provided `.coverage` or `.coverage.json` file.
    pub coverage_from: Option<String>,
    /// Force the fastest C-based coverage tracer (`COVERAGE_CORE=ctrace`).
    pub fast_coverage: bool,
    /// Seed for deterministic randomised mutation operators.
    pub seed: Option<u64>,
    /// Operator filter patterns. Prefix `!` excludes, no prefix keeps.
    /// Patterns are matched as substrings against operator names.
    pub filter_operators: Vec<String>,
    /// Additional glob patterns to restrict which discovered files get mutated.
    pub filter_paths: Vec<String>,
    /// Path to a session database for stop/resume support.
    pub session: Option<String>,
    /// Per-file configuration overrides.
    pub per_file: Vec<PerFileConfig>,
}

impl FestConfig {
    /// Whether everything is as it is without a configuration file.
    pub open spec fn is_default(self) -> bool {
        &&& self.source@.len() == 1
        &&& self.source@[0]@ == "src/**/*.py"@
        &&& self.exclude@.len() == 0
        &&& self.test_runner@ == "pytest"@
        &&& self.workers is None
        &&& self.workers_cpu_ratio.bits == THREE_QUARTERS_BITS
        &&& self.timeout == 10
        &&& self.fail_under is None
        &&& self.output is Text
        &&& self.backend is Plugin
        &&& self.mutators.flags() == default_flags()
        &&& self.mutators.custom@.len() == 0
        &&& self.mutators.python@.len() == 0
        &&& self.mutators.dylib@.len() == 0
        &&& self.coverage_cache
        &&& self.coverage_from is None
        &&& self.fast_coverage
        &&& self.seed is None
        &&& self.filter_operators@.len() == 0
        &&& self.filter_paths@.len() == 0
        &&& self.session is None
        &&& self.per_file@.len() == 0
    }

    /// The number of parallel workers on a machine with the given number of
    /// processors: the configured one, else the configured share of the
    /// processors, and one at least.
    pub open spec fn workers_on(self, cpus: nat) -> nat {
        let wanted = match self.workers {
            Some(explicit) => explicit as nat,
            None => double::share_of(self.workers_cpu_ratio, cpus),
        };
        if wanted > 1 {
            wanted
        } else {
            1
        }
    }

    /// Resolve the number of parallel workers to use.
    ///
    /// If `workers` is explicitly set, returns that value (at least 1).
    /// Otherwise takes the share `workers_cpu_ratio` of the available
    /// processors, rounded down, with a minimum of 1.
    pub fn resolved_workers(&self, cpus: usize) -> (r: usize)
        ensures
            r == self.workers_on(cpus as nat),
            r >= 1,
    {
        let wanted: usize = match self.workers {
            Some(explicit) => explicit,
            None => double::share(self.workers_cpu_ratio, cpus),
        };
        if wanted > 1 {
            wanted
        } else {
            1
        }
    }
}

impl Default for FestConfig {
    fn default() -> (r: Self)
        ensures
            r.is_default(),
    {
        let mut source: Vec<String> = Vec::new();
        source.push("src/**/*.py".to_owned());
        FestConfig {
            source,
            exclude: Vec::new(),
            test_runner: "pytest".to_owned(),
            workers: None,
            workers_cpu_ratio: Double { bits: THREE_QUARTERS_BITS },
            timeout: 10,
            fail_under: None,
            output: OutputFormat::Text,
            backend: RunnerBackend::Plugin,
            mutators: MutatorConfig::default(),
            coverage_cache: true,
            coverage_from: None,
            fast_coverage: true,
            seed: None,
            filter_operators: Vec::new(),
            filter_paths: Vec::new(),
            session: None,
            per_file: Vec::new(),
        }
    }
}

/// Double-precision encoding of 0.75.
pub const THREE_QUARTERS_BITS: u64 = 0x3fe8_0000_0000_0000;

/// An override decides its flag, and a flag without one keeps its setting.
pub proof fn law_overrides_decide_their_flags(flags: MutatorFlags, over: MutatorOverrides)
    ensures
        ({
            let r = overridden(flags, over);
            &&& r.arithmetic_op == (over.arithmetic_op == Some(true)
                || over.arithmetic_op is None && flags.arithmetic_op)
            &&& r.comparison_op == (over.comparison_op == Some(true)
                || over.comparison_op is None && flags.comparison_op)
            &&& r.boolean_op == (over.boolean_op == Some(true)
                || over.boolean_op is None && flags.boolean_op)
            &&& r.return_value == (over.return_value == Some(true)
                || over.return_value is None && flags.return_value)
            &&& r.negate_condition == (over.negate_condition == Some(true)
                || over.negate_condition is None && flags.negate_condition)
            &&& r.remove_decorator == (over.remove_decorator == Some(true)
                || over.remove_decorator is None && flags.remove_decorator)
            &&& r.constant_replace == (over.constant_replace == Some(true)
                || over.constant_replace is None && flags.constant_replace)
            &&& r.exception_swallow == (over.exception_swallow == Some(true)
                || over.exception_swallow is None && flags.exception_swallow)
            &&& r.break_continue == (over.break_continue == Some(true)
                || over.break_continue is None && flags.break_continue)
            &&& r.unary_op == (over.unary_op == Some(true)
                || over.unary_op is None && flags.unary_op)
            &&& r.zero_iteration_loop == (over.zero_iteration_loop == Some(true)
                || over.zero_iteration_loop is None && flags.zero_iteration_loop)
            &&& r.augmented_assign == (over.augmented_assign == Some(true)
                || over.augmented_assign is None && flags.augmented_assign)
            &&& r.statement_deletion == (over.statement_deletion == Some(true)
                || over.statement_deletion is None && flags.statement_deletion)
            &&& r.bitwise_op == (over.bitwise_op == Some(true)
                || over.bitwise_op is None && flags.bitwise_op)
            &&& r.remove_super_call == (over.remove_super_call == Some(true)
                || over.remove_super_call is None && flags.remove_super_call)
            &&& r.variable_replace == (over.variable_replace == Some(true)
                || over.variable_replace is None && flags.variable_replace)
            &&& r.variable_insert == (over.variable_insert == Some(true)
                || over.variable_insert is None && flags.variable_insert)
        }),
{
    reveal(pick);
}

/// The workers are as many as were asked for, or the share of the processors,
/// and at least one.
pub proof fn law_there_is_a_worker(config: FestConfig, cpus: nat)
    ensures
        config.workers_on(cpus) >= 1,
        config.workers matches Some(n) ==> config.workers_on(cpus) == if n == 0 {
            1
        } else {
            n as nat
        },
        config.workers is None && double::share_of(config.workers_cpu_ratio, cpus) >= 1
            ==> config.workers_on(cpus) == double::share_of(config.workers_cpu_ratio, cpus),
{
}

} // verus!
