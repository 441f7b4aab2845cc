//! Pre-order walks over statements and the regions nested in them.
//!
//! A walk visits a statement, then the statements of its nested regions: the two
//! branches of an `if`, the cases and default of a `switch`, the condition
//! statements, body and post of a `for`, and the region of a block.

use crate::ir::{Function, Statement, SwitchCase};
use vstd::prelude::*;

verus! {

/// Something that a walk hands each statement to.
pub trait StatementVisitor {
    /// What the visitor has gathered.
    type State;

    /// The visitor's current state.
    spec fn state(&self) -> Self::State;

    /// The state after visiting one statement, without its nested regions.
    spec fn step(st: Self::State, s: Statement) -> Self::State;

    /// A relation between earlier and later states that every step keeps.
    spec fn progress(a: Self::State, b: Self::State) -> bool;

    /// Every state is related to itself.
    proof fn lemma_progress_reflexive(a: Self::State)
        ensures
            Self::progress(a, a),
    ;

    /// The relation composes.
    proof fn lemma_progress_transitive(a: Self::State, b: Self::State, c: Self::State)
        requires
            Self::progress(a, b),
            Self::progress(b, c),
        ensures
            Self::progress(a, c),
    ;

    /// Visits one statement, without its nested regions.
    fn visit(&mut self, s: &Statement)
        ensures
            final(self).state() == Self::step(old(self).state(), *s),
            Self::progress(old(self).state(), final(self).state()),
    ;
}

/// The state after walking a statement: the statement, then its nested regions.
pub open spec fn walk_statement<V: StatementVisitor>(st: V::State, s: Statement) -> V::State
    decreases s, 0int,
{
    let st1 = V::step(st, s);
    match s {
        Statement::If { then_region, else_region, .. } => {
            let st2 = walk_statements::<V>(st1, then_region.statements@, 0);
            match else_region {
                Some(r) => walk_statements::<V>(st2, r.statements@, 0),
                None => st2,
            }
        },
        Statement::Switch { cases, default, .. } => {
            let st2 = walk_cases::<V>(st1, cases@, 0);
            match default {
                Some(d) => walk_statements::<V>(st2, d.statements@, 0),
                None => st2,
            }
        },
        Statement::For { condition_statements, body, post, .. } => walk_statements::<V>(
            walk_statements::<V>(walk_statements::<V>(st1, condition_statements@, 0), body.statements@, 0),
            post.statements@,
            0,
        ),
        Statement::Block(r) => walk_statements::<V>(st1, r.statements@, 0),
        _ => st1,
    }
}

/// The state after walking `stmts[i..]`, in order.
pub open spec fn walk_statements<V: StatementVisitor>(st: V::State, stmts: Seq<Statement>, i: int) -> V::State
    decreases stmts, stmts.len() - i,
{
    if i < 0 || i >= stmts.len() {
        st
    } else {
        walk_statements::<V>(walk_statement::<V>(st, stmts[i]), stmts, i + 1)
    }
}

/// The state after walking the bodies of switch cases `cases[j..]`, in order.
pub open spec fn walk_cases<V: StatementVisitor>(st: V::State, cases: Seq<SwitchCase>, j: int) -> V::State
    decreases cases, cases.len() - j,
{
    if j < 0 || j >= cases.len() {
        st
    } else {
        walk_cases::<V>(walk_statements::<V>(st, cases[j].body.statements@, 0), cases, j + 1)
    }
}

/// Walks a statement and its nested regions.
pub fn visit_statement<V: StatementVisitor>(v: &mut V, s: &Statement)
    ensures
        final(v).state() == walk_statement::<V>(old(v).state(), *s),
        V::progress(old(v).state(), final(v).state()),
    decreases *s, 0int,
{
    let ghost st0 = v.state();
    v.visit(s);
    let ghost st1 = v.state();
    match s {
        Statement::If { then_region, else_region, .. } => {
            visit_statements(v, &then_region.statements);
            proof {
                V::lemma_progress_transitive(st0, st1, v.state());
            }
            if let Some(r) = else_region {
                let ghost st2 = v.state();
                visit_statements(v, &r.statements);
                proof {
                    V::lemma_progress_transitive(st0, st2, v.state());
                }
            }
        },
        Statement::Switch { cases, default, .. } => {
            visit_cases(v, cases);
            proof {
                V::lemma_progress_transitive(st0, st1, v.state());
            }
            if let Some(d) = default {
                let ghost st2 = v.state();
                visit_statements(v, &d.statements);
                proof {
                    V::lemma_progress_transitive(st0, st2, v.state());
                }
            }
        },
        Statement::For { condition_statements, body, post, .. } => {
            visit_statements(v, condition_statements);
            proof {
                V::lemma_progress_transitive(st0, st1, v.state());
            }
            let ghost st2 = v.state();
            visit_statements(v, &body.statements);
            proof {
                V::lemma_progress_transitive(st0, st2, v.state());
            }
            let ghost st3 = v.state();
            visit_statements(v, &post.statements);
            proof {
                V::lemma_progress_transitive(st0, st3, v.state());
            }
        },
        Statement::Block(r) => {
            visit_statements(v, &r.statements);
            proof {
                V::lemma_progress_transitive(st0, st1, v.state());
            }
        },
        _ => {},
    }
}

/// Walks a list of statements, in order.
pub fn visit_statements<V: StatementVisitor>(v: &mut V, stmts: &Vec<Statement>)
    ensures
        final(v).state() == walk_statements::<V>(old(v).state(), stmts@, 0),
        V::progress(old(v).state(), final(v).state()),
    decreases stmts@, 0int,
{
    let ghost st0 = v.state();
    proof {
        V::lemma_progress_reflexive(st0);
    }
    let n = stmts.len();
    for i in 0..n
        invariant
            n == stmts@.len(),
            walk_statements::<V>(v.state(), stmts@, i as int) == walk_statements::<V>(st0, stmts@, 0),
            V::progress(st0, v.state()),
    {
        let ghost before = v.state();
        visit_statement(v, &stmts[i]);
        proof {
            V::lemma_progress_transitive(st0, before, v.state());
        }
    }
}

/// Walks the bodies of switch cases, in order.
pub fn visit_cases<V: StatementVisitor>(v: &mut V, cases: &Vec<SwitchCase>)
    ensures
        final(v).state() == walk_cases::<V>(old(v).state(), cases@, 0),
        V::progress(old(v).state(), final(v).state()),
    decreases cases@, 0int,
{
    let ghost st0 = v.state();
    proof {
        V::lemma_progress_reflexive(st0);
    }
    let n = cases.len();
    for i in 0..n
        invariant
            n == cases@.len(),
            walk_cases::<V>(v.state(), cases@, i as int) == walk_cases::<V>(st0, cases@, 0),
            V::progress(st0, v.state()),
    {
        let ghost before = v.state();
        visit_statements(v, &cases[i].body.statements);
        proof {
            V::lemma_progress_transitive(st0, before, v.state());
        }
    }
}

/// The state after walking the bodies of functions `fs[i..]`, in order.
pub open spec fn walk_bodies<V: StatementVisitor>(st: V::State, fs: Seq<Function>, i: int) -> V::State
    decreases fs.len() - i,
{
    if i < 0 || i >= fs.len() {
        st
    } else {
        walk_bodies::<V>(walk_statements::<V>(st, fs[i].body.statements@, 0), fs, i + 1)
    }
}

/// Walks the bodies of functions, in order.
pub fn visit_bodies<V: StatementVisitor>(v: &mut V, fs: &Vec<Function>)
    ensures
        final(v).state() == walk_bodies::<V>(old(v).state(), fs@, 0),
        V::progress(old(v).state(), final(v).state()),
{
    let ghost st0 = v.state();
    proof {
        V::lemma_progress_reflexive(st0);
    }
    let n = fs.len();
    for i in 0..n
        invariant
            n == fs@.len(),
            walk_bodies::<V>(v.state(), fs@, i as int) == walk_bodies::<V>(st0, fs@, 0),
            V::progress(st0, v.state()),
    {
        let ghost before = v.state();
        visit_statements(v, &fs[i].body.statements);
        proof {
            V::lemma_progress_transitive(st0, before, v.state());
        }
    }
}

} // verus!
