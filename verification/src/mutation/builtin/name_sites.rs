//! Uses of variables, shared by the mutators that rewrite them.
use crate::ast::{ExprKind, Module};
use crate::mutation::mutator::{all_faithful, edits, Edit, Mutation};
use crate::mutation::occurs::{all_blocks, lemma_walk_by_relation, occurs, own_edits, Place};
use crate::mutation::propose::{
    find_all, law_range_edit_replaces_the_range, lemma_range_edit_is_faithful, push_range,
    range_edit, replaces_range,
};
use crate::mutation::walk::{blocks_only, suite_edits, Node, Reach, Rule};
use vstd::prelude::*;

verus! {

/// Rule that finds the names read in values, with an empty replacement.
#[derive(Debug)]
pub struct NameSites;

impl Rule for NameSites {
    open spec fn reach(&self) -> Reach {
        Reach {
            expr_stmt: true,
            assign: true,
            aug_assign: true,
            ann_assign: true,
            return_value: true,
            assert_test: true,
            while_orelse: true,
            for_orelse: true,
            try_tail: true,
            with_body: true,
            compare: true,
            starred: true,
            sequences: true,
            subscript: true,
            attribute: true,
            ..blocks_only()
        }
    }

    open spec fn edits_at(&self, node: Node<'_>, source: Seq<char>) -> Seq<Edit> {
        match node {
            Node::Expression(e) => match e.kind {
                ExprKind::Name { id } => range_edit(
                    source,
                    e.span.start as int,
                    e.span.end as int,
                    ""@,
                ),
                _ => Seq::empty(),
            },
            _ => Seq::empty(),
        }
    }

    proof fn edits_at_are_faithful(&self, node: Node<'_>, source: Seq<char>) {
        broadcast use lemma_range_edit_is_faithful;

    }

    fn get_reach(&self) -> (r: Reach) {
        Reach {
            expr_stmt: true,
            assign: true,
            aug_assign: true,
            ann_assign: true,
            return_value: true,
            assert_test: true,
            while_orelse: true,
            for_orelse: true,
            try_tail: true,
            with_body: true,
            compare: true,
            starred: true,
            sequences: true,
            subscript: true,
            attribute: true,
            ..Reach::blocks()
        }
    }

    fn propose(&self, node: Node<'_>, source: &str, out: &mut Vec<Mutation>) {
        if let Node::Expression(e) = node {
            if let ExprKind::Name { id: _ } = &e.kind {
                push_range(source, e.span.start, e.span.end, "", out);
                return;
            }
        }
        assert(edits(out@) =~= edits(old(out)@) + self.edits_at(node, source@));
    }
}

/// The places where a module reads a name in a value.
pub open spec fn name_sites(source: Seq<char>, ast: Module) -> Seq<Edit> {
    suite_edits(NameSites, ast.body@, source)
}

/// The places where a module reads a name in a value.
pub fn find_name_sites(source: &str, ast: &Module) -> (r: Vec<Mutation>)
    ensures
        edits(r@) == name_sites(source@, *ast),
        all_faithful(source@, edits(r@)),
{
    find_all(&NameSites, source, ast)
}

/// A site with the text that takes the place of the name.
pub open spec fn filled(site: Edit, replacement: Seq<char>) -> Edit {
    Edit { replacement, ..site }
}

/// What the walk enters: the values of expression statements, assignments and
/// `return`, the tests of `assert`, and all operands but the callees of calls,
/// the values of named expressions, lambdas, and dict and set displays.
pub open spec fn visited() -> Reach {
    Reach {
        expr_stmt: true,
        assign: true,
        aug_assign: true,
        ann_assign: true,
        return_value: true,
        assert_test: true,
        compare: true,
        starred: true,
        sequences: true,
        subscript: true,
        attribute: true,
        ..all_blocks()
    }
}

/// Whether an edit stands for the use of a name.
pub open spec fn marks_name(source: Seq<char>, p: Place, e: Edit) -> bool {
    &&& p matches Place::Expression(x)
    &&& x.kind is Name
    &&& replaces_range(source, x.span.start as int, x.span.end as int, ""@, e)
}

/// Every use of a name that the walk visits is a site, and nothing else is.
pub proof fn law_every_name_is_a_site(source: Seq<char>, ast: Module, e: Edit)
    ensures
        name_sites(source, ast).contains(e) <==> exists|p: Place| #[trigger]
            occurs(p, ast.body@, visited()) && marks_name(source, p, e),
        forall|p: Place| (#[trigger] own_edits(NameSites, p, source)).len() <= 1,
{
    assert(NameSites.reach() == visited());
    assert forall|p: Place| (#[trigger] own_edits(NameSites, p, source)).contains(e) <==> marks_name(
        source,
        p,
        e,
    ) by {
        if let Place::Expression(x) = p {
            law_range_edit_replaces_the_range(
                source,
                x.span.start as int,
                x.span.end as int,
                ""@,
                e,
            );
        }
    }
    lemma_walk_by_relation(
        NameSites,
        ast.body@,
        source,
        e,
        visited(),
        |p: Place| marks_name(source, p, e),
    );
}

} // verus!
