//! The registry of active mutators.
use crate::ast::Module;
use crate::config::types::{MutatorConfig, MutatorFlags};
use crate::mutation::builtin;
use crate::mutation::builtin::name_sites::name_sites;
use crate::mutation::builtin::variable_insert::law_seed_decides_the_insertions;
use crate::mutation::builtin::variable_replace::law_seed_decides_the_replacements;
use crate::mutation::mutator::{
    all_faithful, edits, Edit, Mutation, MutationContext, Mutator,
};
use crate::mutation::seed::is_decided;
use vstd::prelude::*;

verus! {

/// A built-in mutator.
#[derive(Debug, Clone, Copy, PartialEq, Eq, Structural)]
pub enum Builtin {
    ArithmeticOp,
    ComparisonOp,
    BooleanOp,
    ReturnValue,
    NegateCondition,
    RemoveDecorator,
    ConstantReplace,
    ExceptionSwallow,
    BreakContinue,
    UnaryOp,
    ZeroIterationLoop,
    AugmentedAssign,
    StatementDeletion,
    BitwiseOp,
    RemoveSuperCall,
    VariableReplace,
    VariableInsert,
}

impl Builtin {
    /// Whether the mutator draws what it writes by hashing under the seed.
    pub open spec fn is_seeded(self) -> bool {
        self is VariableReplace || self is VariableInsert
    }
}

impl Mutator for Builtin {
    open spec fn label(&self) -> Seq<char> {
        match self {
            Builtin::ArithmeticOp => builtin::arithmetic::ArithmeticOp.label(),
            Builtin::ComparisonOp => builtin::comparison::ComparisonOp.label(),
            Builtin::BooleanOp => builtin::boolean::BooleanOp.label(),
            Builtin::ReturnValue => builtin::return_value::ReturnValue.label(),
            Builtin::NegateCondition => builtin::negate_condition::NegateCondition.label(),
            Builtin::RemoveDecorator => builtin::remove_decorator::RemoveDecorator.label(),
            Builtin::ConstantReplace => builtin::constant::ConstantReplace.label(),
            Builtin::ExceptionSwallow => builtin::exception::ExceptionSwallow.label(),
            Builtin::BreakContinue => builtin::break_continue::BreakContinue.label(),
            Builtin::UnaryOp => builtin::unary::UnaryOp.label(),
            Builtin::ZeroIterationLoop => builtin::zero_iteration::ZeroIterationLoop.label(),
            Builtin::AugmentedAssign => builtin::augmented_assign::AugmentedAssign.label(),
            Builtin::StatementDeletion => builtin::statement_deletion::StatementDeletion.label(),
            Builtin::BitwiseOp => builtin::bitwise::BitwiseOp.label(),
            Builtin::RemoveSuperCall => builtin::remove_super::RemoveSuperCall.label(),
            Builtin::VariableReplace => builtin::variable_replace::VariableReplace.label(),
            Builtin::VariableInsert => builtin::variable_insert::VariableInsert.label(),
        }
    }

    open spec fn finds(
        &self,
        source: Seq<char>,
        ast: Module,
        ctx: MutationContext<'_>,
        found: Seq<Edit>,
    ) -> bool {
        match self {
            Builtin::ArithmeticOp => builtin::arithmetic::ArithmeticOp.finds(source, ast, ctx, found),
            Builtin::ComparisonOp => builtin::comparison::ComparisonOp.finds(source, ast, ctx, found),
            Builtin::BooleanOp => builtin::boolean::BooleanOp.finds(source, ast, ctx, found),
            Builtin::ReturnValue => builtin::return_value::ReturnValue.finds(source, ast, ctx, found),
            Builtin::NegateCondition => builtin::negate_condition::NegateCondition.finds(source, ast, ctx, found),
            Builtin::RemoveDecorator => builtin::remove_decorator::RemoveDecorator.finds(source, ast, ctx, found),
            Builtin::ConstantReplace => builtin::constant::ConstantReplace.finds(source, ast, ctx, found),
            Builtin::ExceptionSwallow => builtin::exception::ExceptionSwallow.finds(source, ast, ctx, found),
            Builtin::BreakContinue => builtin::break_continue::BreakContinue.finds(source, ast, ctx, found),
            Builtin::UnaryOp => builtin::unary::UnaryOp.finds(source, ast, ctx, found),
            Builtin::ZeroIterationLoop => builtin::zero_iteration::ZeroIterationLoop.finds(source, ast, ctx, found),
            Builtin::AugmentedAssign => builtin::augmented_assign::AugmentedAssign.finds(source, ast, ctx, found),
            Builtin::StatementDeletion => builtin::statement_deletion::StatementDeletion.finds(source, ast, ctx, found),
            Builtin::BitwiseOp => builtin::bitwise::BitwiseOp.finds(source, ast, ctx, found),
            Builtin::RemoveSuperCall => builtin::remove_super::RemoveSuperCall.finds(source, ast, ctx, found),
            Builtin::VariableReplace => builtin::variable_replace::VariableReplace.finds(source, ast, ctx, found),
            Builtin::VariableInsert => builtin::variable_insert::VariableInsert.finds(source, ast, ctx, found),
        }
    }

    fn name(&self) -> (r: &str) {
        match self {
            Builtin::ArithmeticOp => "arithmetic_op",
            Builtin::ComparisonOp => "comparison_op",
            Builtin::BooleanOp => "boolean_op",
            Builtin::ReturnValue => "return_value",
            Builtin::NegateCondition => "negate_condition",
            Builtin::RemoveDecorator => "remove_decorator",
            Builtin::ConstantReplace => "constant_replace",
            Builtin::ExceptionSwallow => "exception_swallow",
            Builtin::BreakContinue => "break_continue",
            Builtin::UnaryOp => "unary_op",
            Builtin::ZeroIterationLoop => "zero_iteration_loop",
            Builtin::AugmentedAssign => "augmented_assign",
            Builtin::StatementDeletion => "statement_deletion",
            Builtin::BitwiseOp => "bitwise_op",
            Builtin::RemoveSuperCall => "remove_super_call",
            Builtin::VariableReplace => "variable_replace",
            Builtin::VariableInsert => "variable_insert",
        }
    }

    fn find_mutations(&self, source: &str, ast: &Module, ctx: &MutationContext<'_>) -> (r: Vec<
        Mutation,
    >) {
        match self {
            Builtin::ArithmeticOp => builtin::arithmetic::ArithmeticOp.find_mutations(source, ast, ctx),
            Builtin::ComparisonOp => builtin::comparison::ComparisonOp.find_mutations(source, ast, ctx),
            Builtin::BooleanOp => builtin::boolean::BooleanOp.find_mutations(source, ast, ctx),
            Builtin::ReturnValue => builtin::return_value::ReturnValue.find_mutations(source, ast, ctx),
            Builtin::NegateCondition => builtin::negate_condition::NegateCondition.find_mutations(source, ast, ctx),
            Builtin::RemoveDecorator => builtin::remove_decorator::RemoveDecorator.find_mutations(source, ast, ctx),
            Builtin::ConstantReplace => builtin::constant::ConstantReplace.find_mutations(source, ast, ctx),
            Builtin::ExceptionSwallow => builtin::exception::ExceptionSwallow.find_mutations(source, ast, ctx),
            Builtin::BreakContinue => builtin::break_continue::BreakContinue.find_mutations(source, ast, ctx),
            Builtin::UnaryOp => builtin::unary::UnaryOp.find_mutations(source, ast, ctx),
            Builtin::ZeroIterationLoop => builtin::zero_iteration::ZeroIterationLoop.find_mutations(source, ast, ctx),
            Builtin::AugmentedAssign => builtin::augmented_assign::AugmentedAssign.find_mutations(source, ast, ctx),
            Builtin::StatementDeletion => builtin::statement_deletion::StatementDeletion.find_mutations(source, ast, ctx),
            Builtin::BitwiseOp => builtin::bitwise::BitwiseOp.find_mutations(source, ast, ctx),
            Builtin::RemoveSuperCall => builtin::remove_super::RemoveSuperCall.find_mutations(source, ast, ctx),
            Builtin::VariableReplace => builtin::variable_replace::VariableReplace.find_mutations(source, ast, ctx),
            Builtin::VariableInsert => builtin::variable_insert::VariableInsert.find_mutations(source, ast, ctx),
        }
    }
}

/// A mutator held by a registry.
pub enum Registered {
    /// One of the built-in mutators.
    Builtin(Builtin),
    /// A mutator supplied by the user of the library.
    Custom(Box<dyn Mutator>),
}

impl Registered {
    /// The characters of the mutator's name.
    pub open spec fn label(self) -> Seq<char> {
        match self {
            Registered::Builtin(b) => b.label(),
            Registered::Custom(m) => m.label(),
        }
    }

    /// Which lists of edits the mutator may propose for a module.
    pub open spec fn finds(
        self,
        source: Seq<char>,
        ast: Module,
        ctx: MutationContext<'_>,
        found: Seq<Edit>,
    ) -> bool {
        match self {
            Registered::Builtin(b) => b.finds(source, ast, ctx, found),
            Registered::Custom(m) => m.finds(source, ast, ctx, found),
        }
    }

    /// Name of the mutator.
    pub fn name(&self) -> (r: &str)
        ensures
            r@ == self.label(),
    {
        match self {
            Registered::Builtin(b) => b.name(),
            Registered::Custom(m) => m.name(),
        }
    }

    /// The mutations that the mutator proposes for a module.
    pub fn find_mutations(&self, source: &str, ast: &Module, ctx: &MutationContext<'_>) -> (r: Vec<
        Mutation,
    >)
        ensures
            self.finds(source@, *ast, *ctx, edits(r@)),
            all_faithful(source@, edits(r@)),
    {
        match self {
            Registered::Builtin(b) => b.find_mutations(source, ast, ctx),
            Registered::Custom(m) => m.find_mutations(source, ast, ctx),
        }
    }
}

/// What a built-in mutator proposes for a module follows from the path, the
/// seed and the float texts: two lists that it may propose are equal. A mutator
/// that draws under a seed needs that hashing gives one value for what it is
/// handed.
pub proof fn law_builtin_edits_are_decided(
    mutator: Builtin,
    source: Seq<char>,
    ast: Module,
    first: MutationContext<'_>,
    second: MutationContext<'_>,
    a: Seq<Edit>,
    b: Seq<Edit>,
)
    requires
        first.file_path@ == second.file_path@,
        first.seed == second.seed,
        first.floats@ == second.floats@,
        mutator.finds(source, ast, first, a),
        mutator.finds(source, ast, second, b),
    ensures
        is_decided() || first.seed is None || !mutator.is_seeded() ==> a == b,
{
    assert(first.floats =~= second.floats);
    if let Some(seed) = first.seed {
        let sites = name_sites(source, ast);
        if mutator is VariableReplace {
            law_seed_decides_the_replacements(sites, seed, first.file_path@, a, b);
        } else if mutator is VariableInsert {
            law_seed_decides_the_insertions(sites, seed, first.file_path@, a, b);
        }
    } else if mutator.is_seeded() {
        assert(a =~= b);
    }
}

/// Whether all mutators of a list are built in.
pub open spec fn all_builtin(list: Seq<Registered>) -> bool {
    forall|i: int| 0 <= i < list.len() ==> (#[trigger] list[i]) is Builtin
}

/// A collection of active mutators.
///
/// The registry owns its mutators, in the order in which they were
/// registered.
pub struct MutatorRegistry {
    /// Registered mutators.
    pub mutators: Vec<Registered>,
}

impl MutatorRegistry {
    /// Create an empty registry.
    pub fn new() -> (r: Self)
        ensures
            r.mutators@.len() == 0,
    {
        MutatorRegistry { mutators: Vec::new() }
    }

    /// Register a mutator.
    pub fn register(&mut self, mutator: Box<dyn Mutator>)
        ensures
            final(self).mutators@ == old(self).mutators@.push(Registered::Custom(mutator)),
    {
        self.mutators.push(Registered::Custom(mutator));
    }

    /// Return the number of registered mutators.
    pub fn len(&self) -> (r: usize)
        ensures
            r == self.mutators@.len(),
    {
        self.mutators.len()
    }

    /// Return `true` if no mutators are registered.
    pub fn is_empty(&self) -> (r: bool)
        ensures
            r == (self.mutators@.len() == 0),
    {
        self.mutators.len() == 0
    }

    /// The registered mutators, in order.
    pub fn iter(&self) -> (r: &[Registered])
        ensures
            r@ == self.mutators@,
    {
        self.mutators.as_slice()
    }
}

impl Default for MutatorRegistry {
    fn default() -> (r: Self)
        ensures
            r.mutators@.len() == 0,
    {
        MutatorRegistry::new()
    }
}

/// The built-in mutators in registration order, each with its switch.
pub open spec fn switches(flags: MutatorFlags) -> Seq<(bool, Builtin)> {
    seq![
        (flags.arithmetic_op, Builtin::ArithmeticOp),
        (flags.comparison_op, Builtin::ComparisonOp),
        (flags.boolean_op, Builtin::BooleanOp),
        (flags.return_value, Builtin::ReturnValue),
        (flags.negate_condition, Builtin::NegateCondition),
        (flags.remove_decorator, Builtin::RemoveDecorator),
        (flags.constant_replace, Builtin::ConstantReplace),
        (flags.exception_swallow, Builtin::ExceptionSwallow),
        (flags.break_continue, Builtin::BreakContinue),
        (flags.unary_op, Builtin::UnaryOp),
        (flags.zero_iteration_loop, Builtin::ZeroIterationLoop),
        (flags.augmented_assign, Builtin::AugmentedAssign),
        (flags.statement_deletion, Builtin::StatementDeletion),
        (flags.bitwise_op, Builtin::BitwiseOp),
        (flags.remove_super_call, Builtin::RemoveSuperCall),
        (flags.variable_replace, Builtin::VariableReplace),
        (flags.variable_insert, Builtin::VariableInsert),
    ]
}

/// The mutators of a list that are switched on.
pub open spec fn switched_on(list: Seq<(bool, Builtin)>) -> Seq<Registered>
    decreases list.len(),
{
    if list.len() == 0 {
        Seq::empty()
    } else if list.last().0 {
        switched_on(list.drop_last()).push(Registered::Builtin(list.last().1))
    } else {
        switched_on(list.drop_last())
    }
}

/// The built-in mutators that are switched on, in registration order.
pub open spec fn enabled(flags: MutatorFlags) -> Seq<Registered> {
    switched_on(switches(flags))
}

/// The mutators that are switched on are built in.
pub proof fn lemma_switched_on_are_builtin(list: Seq<(bool, Builtin)>)
    ensures
        all_builtin(switched_on(list)),
    decreases list.len(),
{
    if list.len() > 0 {
        lemma_switched_on_are_builtin(list.drop_last());
    }
}

/// The built-in mutators in registration order, each with its switch.
fn list_switches(config: &MutatorConfig) -> (r: Vec<(bool, Builtin)>)
    ensures
        r@ == switches(config.flags()),
{
    let r: Vec<(bool, Builtin)> = vec![
        (config.arithmetic_op, Builtin::ArithmeticOp),
        (config.comparison_op, Builtin::ComparisonOp),
        (config.boolean_op, Builtin::BooleanOp),
        (config.return_value, Builtin::ReturnValue),
        (config.negate_condition, Builtin::NegateCondition),
        (config.remove_decorator, Builtin::RemoveDecorator),
        (config.constant_replace, Builtin::ConstantReplace),
        (config.exception_swallow, Builtin::ExceptionSwallow),
        (config.break_continue, Builtin::BreakContinue),
        (config.unary_op, Builtin::UnaryOp),
        (config.zero_iteration_loop, Builtin::ZeroIterationLoop),
        (config.augmented_assign, Builtin::AugmentedAssign),
        (config.statement_deletion, Builtin::StatementDeletion),
        (config.bitwise_op, Builtin::BitwiseOp),
        (config.remove_super_call, Builtin::RemoveSuperCall),
        (config.variable_replace, Builtin::VariableReplace),
        (config.variable_insert, Builtin::VariableInsert),
    ];
    assert(r@ =~= switches(config.flags()));
    r
}

/// Build a [`MutatorRegistry`] from a [`MutatorConfig`].
///
/// Registers the built-in mutators whose flag is set, in a fixed order.
pub fn build_registry(config: &MutatorConfig) -> (r: MutatorRegistry)
    ensures
        r.mutators@ == enabled(config.flags()),
{
    let list: Vec<(bool, Builtin)> = list_switches(config);
    let mut mutators: Vec<Registered> = Vec::new();
    let mut i: usize = 0;
    while i < list.len()
        invariant
            i <= list.len(),
            mutators@ == switched_on(list@.take(i as int)),
        decreases list.len() - i,
    {
        if list[i].0 {
            mutators.push(Registered::Builtin(list[i].1));
        }
        assert(list@.take(i + 1).drop_last() =~= list@.take(i as int));
        i = i + 1;
    }
    assert(list@.take(i as int) =~= list@);
    MutatorRegistry { mutators }
}

/// One instance of each of the eight core mutators, ready to be registered.
pub fn all_builtins() -> (r: Vec<Registered>)
    ensures
        r@ == core_builtins(),
{
    let mut list: Vec<Registered> = Vec::new();
    list.push(Registered::Builtin(Builtin::ArithmeticOp));
    list.push(Registered::Builtin(Builtin::ComparisonOp));
    list.push(Registered::Builtin(Builtin::BooleanOp));
    list.push(Registered::Builtin(Builtin::ReturnValue));
    list.push(Registered::Builtin(Builtin::NegateCondition));
    list.push(Registered::Builtin(Builtin::RemoveDecorator));
    list.push(Registered::Builtin(Builtin::ConstantReplace));
    list.push(Registered::Builtin(Builtin::ExceptionSwallow));
    assert(list@ =~= core_builtins());
    list
}

/// The core mutators, in registration order.
pub open spec fn core_builtins() -> Seq<Registered> {
    seq![
        Registered::Builtin(Builtin::ArithmeticOp),
        Registered::Builtin(Builtin::ComparisonOp),
        Registered::Builtin(Builtin::BooleanOp),
        Registered::Builtin(Builtin::ReturnValue),
        Registered::Builtin(Builtin::NegateCondition),
        Registered::Builtin(Builtin::RemoveDecorator),
        Registered::Builtin(Builtin::ConstantReplace),
        Registered::Builtin(Builtin::ExceptionSwallow),
    ]
}

/// Every built-in mutator has its name and finds what the operator of that name
/// finds, registered or not.
pub proof fn law_builtins_are_their_operators(
    b: Builtin,
    source: Seq<char>,
    ast: Module,
    ctx: MutationContext<'_>,
    found: Seq<Edit>,
)
    ensures
        b is ArithmeticOp ==> b.label() == "arithmetic_op"@ && (b.finds(source, ast, ctx, found)
            <==> builtin::arithmetic::ArithmeticOp.finds(source, ast, ctx, found)),
        b is ComparisonOp ==> b.label() == "comparison_op"@ && (b.finds(source, ast, ctx, found)
            <==> builtin::comparison::ComparisonOp.finds(source, ast, ctx, found)),
        b is BooleanOp ==> b.label() == "boolean_op"@ && (b.finds(source, ast, ctx, found)
            <==> builtin::boolean::BooleanOp.finds(source, ast, ctx, found)),
        b is ReturnValue ==> b.label() == "return_value"@ && (b.finds(source, ast, ctx, found)
            <==> builtin::return_value::ReturnValue.finds(source, ast, ctx, found)),
        b is NegateCondition ==> b.label() == "negate_condition"@ && (b.finds(source, ast, ctx, found)
            <==> builtin::negate_condition::NegateCondition.finds(source, ast, ctx, found)),
        b is RemoveDecorator ==> b.label() == "remove_decorator"@ && (b.finds(source, ast, ctx, found)
            <==> builtin::remove_decorator::RemoveDecorator.finds(source, ast, ctx, found)),
        b is ConstantReplace ==> b.label() == "constant_replace"@ && (b.finds(source, ast, ctx, found)
            <==> builtin::constant::ConstantReplace.finds(source, ast, ctx, found)),
        b is ExceptionSwallow ==> b.label() == "exception_swallow"@ && (b.finds(source, ast, ctx, found)
            <==> builtin::exception::ExceptionSwallow.finds(source, ast, ctx, found)),
        b is BreakContinue ==> b.label() == "break_continue"@ && (b.finds(source, ast, ctx, found)
            <==> builtin::break_continue::BreakContinue.finds(source, ast, ctx, found)),
        b is UnaryOp ==> b.label() == "unary_op"@ && (b.finds(source, ast, ctx, found)
            <==> builtin::unary::UnaryOp.finds(source, ast, ctx, found)),
        b is ZeroIterationLoop ==> b.label() == "zero_iteration_loop"@ && (b.finds(source, ast, ctx, found)
            <==> builtin::zero_iteration::ZeroIterationLoop.finds(source, ast, ctx, found)),
        b is AugmentedAssign ==> b.label() == "augmented_assign"@ && (b.finds(source, ast, ctx, found)
            <==> builtin::augmented_assign::AugmentedAssign.finds(source, ast, ctx, found)),
        b is StatementDeletion ==> b.label() == "statement_deletion"@ && (b.finds(source, ast, ctx, found)
            <==> builtin::statement_deletion::StatementDeletion.finds(source, ast, ctx, found)),
        b is BitwiseOp ==> b.label() == "bitwise_op"@ && (b.finds(source, ast, ctx, found)
            <==> builtin::bitwise::BitwiseOp.finds(source, ast, ctx, found)),
        b is RemoveSuperCall ==> b.label() == "remove_super_call"@ && (b.finds(source, ast, ctx, found)
            <==> builtin::remove_super::RemoveSuperCall.finds(source, ast, ctx, found)),
        b is VariableReplace ==> b.label() == "variable_replace"@ && (b.finds(source, ast, ctx, found)
            <==> builtin::variable_replace::VariableReplace.finds(source, ast, ctx, found)),
        b is VariableInsert ==> b.label() == "variable_insert"@ && (b.finds(source, ast, ctx, found)
            <==> builtin::variable_insert::VariableInsert.finds(source, ast, ctx, found)),
        Registered::Builtin(b).label() == b.label(),
        Registered::Builtin(b).finds(source, ast, ctx, found) <==> b.finds(source, ast, ctx, found),
{
}

/// The flag that switches a built-in mutator on.
pub open spec fn flag_of(flags: MutatorFlags, b: Builtin) -> bool {
    match b {
        Builtin::ArithmeticOp => flags.arithmetic_op,
        Builtin::ComparisonOp => flags.comparison_op,
        Builtin::BooleanOp => flags.boolean_op,
        Builtin::ReturnValue => flags.return_value,
        Builtin::NegateCondition => flags.negate_condition,
        Builtin::RemoveDecorator => flags.remove_decorator,
        Builtin::ConstantReplace => flags.constant_replace,
        Builtin::ExceptionSwallow => flags.exception_swallow,
        Builtin::BreakContinue => flags.break_continue,
        Builtin::UnaryOp => flags.unary_op,
        Builtin::ZeroIterationLoop => flags.zero_iteration_loop,
        Builtin::AugmentedAssign => flags.augmented_assign,
        Builtin::StatementDeletion => flags.statement_deletion,
        Builtin::BitwiseOp => flags.bitwise_op,
        Builtin::RemoveSuperCall => flags.remove_super_call,
        Builtin::VariableReplace => flags.variable_replace,
        Builtin::VariableInsert => flags.variable_insert,
    }
}

/// The place of a built-in mutator in the order of registration.
pub open spec fn rank(b: Builtin) -> int {
    match b {
        Builtin::ArithmeticOp => 0,
        Builtin::ComparisonOp => 1,
        Builtin::BooleanOp => 2,
        Builtin::ReturnValue => 3,
        Builtin::NegateCondition => 4,
        Builtin::RemoveDecorator => 5,
        Builtin::ConstantReplace => 6,
        Builtin::ExceptionSwallow => 7,
        Builtin::BreakContinue => 8,
        Builtin::UnaryOp => 9,
        Builtin::ZeroIterationLoop => 10,
        Builtin::AugmentedAssign => 11,
        Builtin::StatementDeletion => 12,
        Builtin::BitwiseOp => 13,
        Builtin::RemoveSuperCall => 14,
        Builtin::VariableReplace => 15,
        Builtin::VariableInsert => 16,
    }
}

proof fn lemma_switched_on(list: Seq<(bool, Builtin)>, b: Builtin)
    ensures
        switched_on(list).contains(Registered::Builtin(b)) <==> list.contains((true, b)),
    decreases list.len(),
{
    let on = switched_on(list);
    if list.len() > 0 {
        let rest = list.drop_last();
        let init = switched_on(rest);
        lemma_switched_on(rest, b);
        if on.contains(Registered::Builtin(b)) {
            let i = choose|i: int| 0 <= i < on.len() && on[i] == Registered::Builtin(b);
            if i < init.len() {
                assert(init[i] == Registered::Builtin(b));
                let k = choose|k: int| 0 <= k < rest.len() && rest[k] == (true, b);
                assert(list[k] == (true, b));
            } else {
                assert(list[list.len() - 1] == (true, b));
            }
        }
        if list.contains((true, b)) {
            let k = choose|k: int| 0 <= k < list.len() && list[k] == (true, b);
            if k < rest.len() {
                assert(rest[k] == (true, b));
                let i = choose|i: int| 0 <= i < init.len() && init[i] == Registered::Builtin(b);
                assert(on[i] == Registered::Builtin(b));
            } else {
                assert(on[on.len() - 1] == Registered::Builtin(b));
            }
        }
    }
}

proof fn lemma_switched_on_in_order(list: Seq<(bool, Builtin)>)
    requires
        forall|i: int| 0 <= i < list.len() ==> rank((#[trigger] list[i]).1) == i,
    ensures
        forall|i: int|
            0 <= i < switched_on(list).len() ==> (#[trigger] switched_on(list)[i]) is Builtin
                && rank(switched_on(list)[i]->Builtin_0) < list.len(),
        forall|i: int, j: int|
            0 <= i < j < switched_on(list).len() ==> rank(
                (#[trigger] switched_on(list)[i])->Builtin_0,
            ) < rank((#[trigger] switched_on(list)[j])->Builtin_0),
    decreases list.len(),
{
    if list.len() > 0 {
        let rest = list.drop_last();
        assert forall|i: int| 0 <= i < rest.len() implies rank((#[trigger] rest[i]).1) == i by {
            assert(rest[i] == list[i]);
        }
        lemma_switched_on_in_order(rest);
        assert(rank(list[list.len() - 1].1) == list.len() - 1);
    }
}

/// The switches stand in the order of registration, each with its flag.
#[verifier::rlimit(40)]
proof fn lemma_switches(flags: MutatorFlags)
    ensures
        switches(flags).len() == 17,
        forall|i: int|
            0 <= i < 17 ==> rank((#[trigger] switches(flags)[i]).1) == i && switches(flags)[i].0
                == flag_of(flags, switches(flags)[i].1),
{
    let s = switches(flags);
    assert(s[0] == (flags.arithmetic_op, Builtin::ArithmeticOp));
    assert(s[1] == (flags.comparison_op, Builtin::ComparisonOp));
    assert(s[2] == (flags.boolean_op, Builtin::BooleanOp));
    assert(s[3] == (flags.return_value, Builtin::ReturnValue));
    assert(s[4] == (flags.negate_condition, Builtin::NegateCondition));
    assert(s[5] == (flags.remove_decorator, Builtin::RemoveDecorator));
    assert(s[6] == (flags.constant_replace, Builtin::ConstantReplace));
    assert(s[7] == (flags.exception_swallow, Builtin::ExceptionSwallow));
    assert(s[8] == (flags.break_continue, Builtin::BreakContinue));
    assert(s[9] == (flags.unary_op, Builtin::UnaryOp));
    assert(s[10] == (flags.zero_iteration_loop, Builtin::ZeroIterationLoop));
    assert(s[11] == (flags.augmented_assign, Builtin::AugmentedAssign));
    assert(s[12] == (flags.statement_deletion, Builtin::StatementDeletion));
    assert(s[13] == (flags.bitwise_op, Builtin::BitwiseOp));
    assert(s[14] == (flags.remove_super_call, Builtin::RemoveSuperCall));
    assert(s[15] == (flags.variable_replace, Builtin::VariableReplace));
    assert(s[16] == (flags.variable_insert, Builtin::VariableInsert));
    assert forall|i: int| 0 <= i < 17 implies rank((#[trigger] s[i]).1) == i && s[i].0 == flag_of(
        flags,
        s[i].1,
    ) by {
        assert(i == 0 || i == 1 || i == 2 || i == 3 || i == 4 || i == 5 || i == 6 || i == 7 || i == 8 || i == 9 || i == 10 || i == 11 || i == 12 || i == 13 || i == 14 || i == 15 || i == 16);
    }
}

/// A rank belongs to one mutator.
proof fn lemma_ranks_differ(a: Builtin, b: Builtin)
    requires
        rank(a) == rank(b),
    ensures
        a == b,
{
}

/// A built-in mutator is enabled where its flag is set, once, and those that
/// are enabled stand in the order of registration.
pub proof fn law_flags_enable_mutators(flags: MutatorFlags, b: Builtin)
    ensures
        enabled(flags).contains(Registered::Builtin(b)) <==> flag_of(flags, b),
        forall|i: int| 0 <= i < enabled(flags).len() ==> (#[trigger] enabled(flags)[i]) is Builtin,
        forall|i: int, j: int|
            0 <= i < j < enabled(flags).len() ==> rank((#[trigger] enabled(flags)[i])->Builtin_0)
                < rank((#[trigger] enabled(flags)[j])->Builtin_0),
{
    lemma_switches(flags);
    lemma_enabled(switches(flags), flags, b);
}

proof fn lemma_enabled(s: Seq<(bool, Builtin)>, flags: MutatorFlags, b: Builtin)
    requires
        s.len() == 17,
        forall|i: int|
            0 <= i < 17 ==> rank((#[trigger] s[i]).1) == i && s[i].0 == flag_of(flags, s[i].1),
    ensures
        switched_on(s).contains(Registered::Builtin(b)) <==> flag_of(flags, b),
        forall|i: int| 0 <= i < switched_on(s).len() ==> (#[trigger] switched_on(s)[i]) is Builtin,
        forall|i: int, j: int|
            0 <= i < j < switched_on(s).len() ==> rank((#[trigger] switched_on(s)[i])->Builtin_0)
                < rank((#[trigger] switched_on(s)[j])->Builtin_0),
{
    lemma_switched_on(s, b);
    lemma_switched_on_in_order(s);
    assert(0 <= rank(b) < 17);
    lemma_ranks_differ(s[rank(b)].1, b);
    if flag_of(flags, b) {
        assert(s[rank(b)] == (true, b));
    }
}

/// The core mutators are the first eight, all of them built in.
pub proof fn law_core_mutators_are_the_first(b: Builtin)
    ensures
        core_builtins().contains(Registered::Builtin(b)) <==> rank(b) < 8,
        core_builtins().len() == 8,
{
    let c = core_builtins();
    assert forall|i: int| 0 <= i < c.len() implies (#[trigger] c[i]) is Builtin && rank(
        c[i]->Builtin_0,
    ) == i by {}
    if rank(b) < 8 {
        assert(c[rank(b)] == Registered::Builtin(b));
    }
}

} // verus!
