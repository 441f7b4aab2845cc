//! The literals of a function body in walk order, and their replacement by
//! parameters.
//!
//! The walk visits a statement, then the statements of its regions in order:
//! the branches of an `if`, the cases and default of a `switch`, and a loop's
//! condition statements, condition, body and post. Counted positions are the
//! values of literals and constant storage slots; switch case values are not.

use crate::ir::{Expression, Region, Statement, SwitchCase, ValueId};
use crate::uint::Uint;
use std::collections::BTreeMap;
use vstd::prelude::*;

verus! {

/// The values of a list of words.
pub open spec fn words_view(ws: Seq<Uint>) -> Seq<nat> {
    ws.map_values(|u: Uint| u@)
}

/// The literal values an expression holds.
pub open spec fn expression_literals(e: Expression) -> Seq<nat> {
    match e {
        Expression::Literal { value, .. } => seq![value@],
        Expression::SLoad { static_slot, .. } => match static_slot {
            Some(slot) => seq![slot@],
            None => Seq::empty(),
        },
        _ => Seq::empty(),
    }
}

/// The literal values of a statement and its regions, in walk order.
pub open spec fn statement_literals(s: Statement) -> Seq<nat>
    decreases s, 1int,
{
    match s {
        Statement::Let { value, .. } => expression_literals(value),
        Statement::Expression(value) => expression_literals(value),
        Statement::SStore { static_slot, .. } => match static_slot {
            Some(slot) => seq![slot@],
            None => Seq::empty(),
        },
        Statement::If { then_region, else_region, .. } => list_literals(then_region.statements@, 0) + match else_region {
            Some(r) => list_literals(r.statements@, 0),
            None => Seq::empty(),
        },
        Statement::Switch { cases, default, .. } => cases_literals(cases@, 0) + match default {
            Some(r) => list_literals(r.statements@, 0),
            None => Seq::empty(),
        },
        Statement::For { condition_statements, condition, body, post, .. } => list_literals(
            condition_statements@,
            0,
        ) + expression_literals(condition) + list_literals(body.statements@, 0) + list_literals(
            post.statements@,
            0,
        ),
        Statement::Block(r) => list_literals(r.statements@, 0),
        _ => Seq::empty(),
    }
}

/// The literal values of `ss[i..]`, in walk order.
pub open spec fn list_literals(ss: Seq<Statement>, i: int) -> Seq<nat>
    decreases ss, ss.len() - i,
{
    if i < 0 || i >= ss.len() {
        Seq::empty()
    } else {
        statement_literals(ss[i]) + list_literals(ss, i + 1)
    }
}

/// The literal values of the bodies of cases `cs[j..]`, in walk order.
pub open spec fn cases_literals(cs: Seq<SwitchCase>, j: int) -> Seq<nat>
    decreases cs, cs.len() - j,
{
    if j < 0 || j >= cs.len() {
        Seq::empty()
    } else {
        list_literals(cs[j].body.statements@, 0) + cases_literals(cs, j + 1)
    }
}

fn collect_expression(e: &Expression, lits: &mut Vec<Uint>)
    ensures
        words_view(final(lits)@) == words_view(old(lits)@) + expression_literals(*e),
{
    let ghost l0 = lits@;
    match e {
        Expression::Literal { value, .. } => lits.push(value.clone()),
        Expression::SLoad { static_slot: Some(slot), .. } => lits.push(slot.clone()),
        _ => {},
    }
    proof {
        assert(words_view(lits@) =~= words_view(l0) + expression_literals(*e));
    }
}

fn collect_list(statements: &Vec<Statement>, lits: &mut Vec<Uint>)
    ensures
        words_view(final(lits)@) == words_view(old(lits)@) + list_literals(statements@, 0),
    decreases statements@, 0int,
{
    let n = statements.len();
    let ghost l0 = words_view(lits@);
    for i in 0..n
        invariant
            n == statements@.len(),
            l0 + list_literals(statements@, 0) == words_view(lits@) + list_literals(statements@, i as int),
    {
        let ghost before = words_view(lits@);
        collect_statement(&statements[i], lits);
        proof {
            assert(before + list_literals(statements@, i as int) =~= words_view(lits@) + list_literals(
                statements@,
                i + 1,
            ));
        }
    }
    proof {
        assert(words_view(lits@) + list_literals(statements@, n as int) =~= words_view(lits@));
    }
}

fn collect_cases(cases: &Vec<SwitchCase>, lits: &mut Vec<Uint>)
    ensures
        words_view(final(lits)@) == words_view(old(lits)@) + cases_literals(cases@, 0),
    decreases cases@, 0int,
{
    let n = cases.len();
    let ghost l0 = words_view(lits@);
    for j in 0..n
        invariant
            n == cases@.len(),
            l0 + cases_literals(cases@, 0) == words_view(lits@) + cases_literals(cases@, j as int),
    {
        let ghost before = words_view(lits@);
        collect_list(&cases[j].body.statements, lits);
        proof {
            assert(before + cases_literals(cases@, j as int) =~= words_view(lits@) + cases_literals(cases@, j + 1));
        }
    }
    proof {
        assert(words_view(lits@) + cases_literals(cases@, n as int) =~= words_view(lits@));
    }
}

fn collect_statement(s: &Statement, lits: &mut Vec<Uint>)
    ensures
        words_view(final(lits)@) == words_view(old(lits)@) + statement_literals(*s),
    decreases *s, 1int,
{
    let ghost l0 = words_view(lits@);
    match s {
        Statement::Let { value, .. } => collect_expression(value, lits),
        Statement::Expression(value) => collect_expression(value, lits),
        Statement::SStore { static_slot, .. } => {
            if let Some(slot) = static_slot {
                lits.push(slot.clone());
            }
        },
        Statement::If { then_region, else_region, .. } => {
            collect_list(&then_region.statements, lits);
            if let Some(r) = else_region {
                collect_list(&r.statements, lits);
            }
        },
        Statement::Switch { cases, default, .. } => {
            collect_cases(cases, lits);
            if let Some(r) = default {
                collect_list(&r.statements, lits);
            }
        },
        Statement::For { condition_statements, condition, body, post, .. } => {
            collect_list(condition_statements, lits);
            collect_expression(condition, lits);
            collect_list(&body.statements, lits);
            collect_list(&post.statements, lits);
        },
        Statement::Block(r) => collect_list(&r.statements, lits),
        _ => {},
    }
    proof {
        assert(words_view(lits@) =~= l0 + statement_literals(*s));
    }
}

/// Collects the literal values of a list of statements in walk order.
pub fn collect_literals_ordered(statements: &Vec<Statement>) -> (r: Vec<Uint>)
    ensures
        words_view(r@) == list_literals(statements@, 0),
{
    let mut lits: Vec<Uint> = Vec::new();
    proof {
        assert(words_view(lits@) =~= Seq::<nat>::empty());
    }
    collect_list(statements, &mut lits);
    proof {
        assert(words_view(lits@) =~= list_literals(statements@, 0));
    }
    lits
}

/// `r` is `e` with the literal at position `c` replaced, where `pos` names a
/// parameter for it: a literal becomes that parameter, a constant slot is
/// dropped.
pub open spec fn replaced_expression(e: Expression, r: Expression, pos: Map<usize, ValueId>, c: nat) -> bool {
    match e {
        Expression::Literal { .. } => if c <= usize::MAX && pos.contains_key(c as usize) {
            r == Expression::Var(pos[c as usize])
        } else {
            r == e
        },
        Expression::SLoad { key, static_slot } => if static_slot is Some && c <= usize::MAX && pos.contains_key(
            c as usize,
        ) {
            r matches Expression::SLoad { key: k2, static_slot: None } && k2 == key
        } else {
            r == e
        },
        _ => r == e,
    }
}

/// `r` is region `a` with its literals from position `c` on replaced.
pub open spec fn replaced_region(a: Region, r: Region, pos: Map<usize, ValueId>, c: nat) -> bool
    decreases a, 0int,
{
    r.yields == a.yields && replaced_list(a.statements@, r.statements@, pos, c, 0)
}

/// `r[i..]` is `s[i..]` with their literals from position `c` on replaced, and
/// both lists have the same length.
pub open spec fn replaced_list(s: Seq<Statement>, r: Seq<Statement>, pos: Map<usize, ValueId>, c: nat, i: int) -> bool
    decreases s, s.len() - i,
{
    if i < 0 || i >= s.len() {
        r.len() == s.len()
    } else {
        replaced_statement(s[i], r[i], pos, c) && replaced_list(
            s,
            r,
            pos,
            c + statement_literals(s[i]).len(),
            i + 1,
        )
    }
}

/// The cases `r[j..]` are `cs[j..]` with their literals from position `c` on replaced.
pub open spec fn replaced_cases(cs: Seq<SwitchCase>, r: Seq<SwitchCase>, pos: Map<usize, ValueId>, c: nat, j: int) -> bool
    decreases cs, cs.len() - j,
{
    if j < 0 || j >= cs.len() {
        r.len() == cs.len()
    } else {
        r[j].value == cs[j].value && replaced_region(cs[j].body, r[j].body, pos, c) && replaced_cases(
            cs,
            r,
            pos,
            c + list_literals(cs[j].body.statements@, 0).len(),
            j + 1,
        )
    }
}

/// `r` is statement `s` with its literals, from position `c` on, replaced where
/// `pos` names a parameter for them.
pub open spec fn replaced_statement(s: Statement, r: Statement, pos: Map<usize, ValueId>, c: nat) -> bool
    decreases s, 1int,
{
    match s {
        Statement::Let { bindings, value } => r matches Statement::Let { bindings: b2, value: v2 } && b2 == bindings
            && replaced_expression(value, v2, pos, c),
        Statement::Expression(e) => r matches Statement::Expression(e2) && replaced_expression(e, e2, pos, c),
        Statement::SStore { key, value, static_slot } => if static_slot is Some && c <= usize::MAX
            && pos.contains_key(c as usize) {
            r matches Statement::SStore { key: k2, value: v2, static_slot: None } && k2 == key && v2 == value
        } else {
            r == s
        },
        Statement::If { condition, inputs, then_region, else_region, outputs } => r matches Statement::If {
            condition: c2,
            inputs: i2,
            then_region: t2,
            else_region: e2,
            outputs: o2,
        } && c2 == condition && i2 == inputs && o2 == outputs && replaced_region(then_region, t2, pos, c)
            && match else_region {
            Some(er) => e2 matches Some(er2) && replaced_region(
                er,
                er2,
                pos,
                c + list_literals(then_region.statements@, 0).len(),
            ),
            None => e2 is None,
        },
        Statement::Switch { scrutinee, inputs, cases, default, outputs } => r matches Statement::Switch {
            scrutinee: s2,
            inputs: i2,
            cases: c2,
            default: d2,
            outputs: o2,
        } && s2 == scrutinee && i2 == inputs && o2 == outputs && replaced_cases(cases@, c2@, pos, c, 0)
            && match default {
            Some(d) => d2 matches Some(dd) && replaced_region(d, dd, pos, c + cases_literals(cases@, 0).len()),
            None => d2 is None,
        },
        Statement::For {
            initial_values,
            loop_variables,
            condition_statements,
            condition,
            body,
            post_input_variables,
            post,
            outputs,
        } => {
            let c1 = c + list_literals(condition_statements@, 0).len();
            let c2 = c1 + expression_literals(condition).len();
            let c3 = c2 + list_literals(body.statements@, 0).len();
            r matches Statement::For {
                initial_values: iv2,
                loop_variables: lv2,
                condition_statements: cs2,
                condition: cond2,
                body: b2,
                post_input_variables: pv2,
                post: p2,
                outputs: o2,
            } && iv2 == initial_values && lv2 == loop_variables && pv2 == post_input_variables && o2 == outputs
                && replaced_list(condition_statements@, cs2@, pos, c, 0) && replaced_expression(
                condition,
                cond2,
                pos,
                c1,
            ) && replaced_region(body, b2, pos, c2) && replaced_region(post, p2, pos, c3)
        },
        Statement::Block(region) => r matches Statement::Block(r2) && replaced_region(region, r2, pos, c),
        _ => r == s,
    }
}

fn replace_expression(e: Expression, positions: &BTreeMap<usize, ValueId>, counter: usize) -> (r: (Expression, usize))
    requires
        counter + expression_literals(e).len() <= usize::MAX,
    ensures
        replaced_expression(e, r.0, positions@, counter as nat),
        r.1 == counter + expression_literals(e).len(),
{
    match e {
        Expression::Literal { value, value_type } => {
            match positions.get(&counter) {
                Some(id) => (Expression::Var(*id), counter + 1),
                None => (Expression::Literal { value, value_type }, counter + 1),
            }
        },
        Expression::SLoad { key, static_slot } => {
            match static_slot {
                Some(slot) => {
                    if positions.contains_key(&counter) {
                        (Expression::SLoad { key, static_slot: None }, counter + 1)
                    } else {
                        (Expression::SLoad { key, static_slot: Some(slot) }, counter + 1)
                    }
                },
                None => (Expression::SLoad { key, static_slot: None }, counter),
            }
        },
        other => (other, counter),
    }
}

proof fn lemma_replaced_list(s: Seq<Statement>, r: Seq<Statement>, pos: Map<usize, ValueId>, c0: nat, i: int)
    requires
        0 <= i <= s.len(),
        r.len() == s.len(),
        forall|k: int|
            i <= k < s.len() ==> replaced_statement(
                s[k],
                #[trigger] r[k],
                pos,
                c0 + (list_literals(s, i).len() - list_literals(s, k).len()) as nat,
            ),
    ensures
        replaced_list(s, r, pos, c0, i),
    decreases s.len() - i,
{
    if i < s.len() {
        assert(list_literals(s, i) == statement_literals(s[i]) + list_literals(s, i + 1));
        assert forall|k: int|
            i + 1 <= k < s.len() implies replaced_statement(
            s[k],
            #[trigger] r[k],
            pos,
            (c0 + statement_literals(s[i]).len()) as nat + (list_literals(s, i + 1).len() - list_literals(
                s,
                k,
            ).len()) as nat,
        ) by {
            lemma_list_literals_suffix(s, i + 1, k);
        }
        lemma_replaced_list(s, r, pos, (c0 + statement_literals(s[i]).len()) as nat, i + 1);
    }
}

proof fn lemma_list_literals_suffix(s: Seq<Statement>, i: int, k: int)
    requires
        0 <= i <= k <= s.len(),
    ensures
        list_literals(s, i).len() >= list_literals(s, k).len(),
    decreases k - i,
{
    if i < k {
        lemma_list_literals_suffix(s, i + 1, k);
    }
}

/// Replaces the literals of statements, from position `counter` on.
#[verifier::loop_isolation(false)]
fn replace_list(statements: Vec<Statement>, positions: &BTreeMap<usize, ValueId>, counter: usize) -> (r: (Vec<Statement>, usize))
    requires
        counter + list_literals(statements@, 0).len() <= usize::MAX,
    ensures
        replaced_list(statements@, r.0@, positions@, counter as nat, 0),
        r.1 == counter + list_literals(statements@, 0).len(),
    decreases statements@, 1int,
{
    let ghost s1 = statements@;
    let mut statements = statements;
    let mut c = counter;
    let n = statements.len();
    for i in 0..n
        invariant
            n == s1.len(),
            statements@.len() == n,
            forall|k: int| i <= k < n ==> #[trigger] statements@[k] == s1[k],
            c == counter + (list_literals(s1, 0).len() - list_literals(s1, i as int).len()),
            list_literals(s1, 0).len() >= list_literals(s1, i as int).len(),
            counter + list_literals(s1, 0).len() <= usize::MAX,
            forall|k: int|
                0 <= k < i ==> replaced_statement(
                    s1[k],
                    #[trigger] statements@[k],
                    positions@,
                    (counter + (list_literals(s1, 0).len() - list_literals(s1, k).len())) as nat,
                ),
    {
        let mut statement = Statement::Stop;
        std::mem::swap(&mut statement, &mut statements[i]);
        proof {
            assert(statement == s1[i as int]);
            assert(list_literals(s1, i as int) == statement_literals(s1[i as int]) + list_literals(s1, i + 1));
            lemma_list_literals_suffix(s1, 0, i + 1);
        }
        let (replaced, next) = replace_statement(statement, positions, c);
        statements.set(i, replaced);
        c = next;
    }
    proof {
        assert forall|k: int|
            0 <= k < s1.len() implies replaced_statement(
            s1[k],
            #[trigger] statements@[k],
            positions@,
            counter as nat + (list_literals(s1, 0).len() - list_literals(s1, k).len()) as nat,
        ) by {
            lemma_list_literals_suffix(s1, 0, k);
        }
        lemma_replaced_list(s1, statements@, positions@, counter as nat, 0);
    }
    (statements, c)
}

proof fn lemma_cases_literals_suffix(cs: Seq<SwitchCase>, j: int, k: int)
    requires
        0 <= j <= k <= cs.len(),
    ensures
        cases_literals(cs, j).len() >= cases_literals(cs, k).len(),
    decreases k - j,
{
    if j < k {
        lemma_cases_literals_suffix(cs, j + 1, k);
    }
}

proof fn lemma_replaced_cases(cs: Seq<SwitchCase>, r: Seq<SwitchCase>, pos: Map<usize, ValueId>, c0: nat, j: int)
    requires
        0 <= j <= cs.len(),
        r.len() == cs.len(),
        forall|k: int|
            j <= k < cs.len() ==> (#[trigger] r[k]).value == cs[k].value && replaced_region(
                cs[k].body,
                r[k].body,
                pos,
                c0 + (cases_literals(cs, j).len() - cases_literals(cs, k).len()) as nat,
            ),
    ensures
        replaced_cases(cs, r, pos, c0, j),
    decreases cs.len() - j,
{
    if j < cs.len() {
        assert forall|k: int|
            j + 1 <= k < cs.len() implies (#[trigger] r[k]).value == cs[k].value && replaced_region(
            cs[k].body,
            r[k].body,
            pos,
            (c0 + list_literals(cs[j].body.statements@, 0).len()) as nat + (cases_literals(cs, j + 1).len()
                - cases_literals(cs, k).len()) as nat,
        ) by {
            lemma_cases_literals_suffix(cs, j + 1, k);
        }
        lemma_replaced_cases(cs, r, pos, (c0 + list_literals(cs[j].body.statements@, 0).len()) as nat, j + 1);
    }
}

#[verifier::loop_isolation(false)]
fn replace_cases(cases: Vec<SwitchCase>, positions: &BTreeMap<usize, ValueId>, counter: usize) -> (r: (Vec<SwitchCase>, usize))
    requires
        counter + cases_literals(cases@, 0).len() <= usize::MAX,
    ensures
        replaced_cases(cases@, r.0@, positions@, counter as nat, 0),
        r.1 == counter + cases_literals(cases@, 0).len(),
    decreases cases@, 1int,
{
    let ghost c1 = cases@;
    let mut cases = cases;
    let mut c = counter;
    let n = cases.len();
    for j in 0..n
        invariant
            n == c1.len(),
            cases@.len() == n,
            forall|k: int| j <= k < n ==> #[trigger] cases@[k] == c1[k],
            c == counter + (cases_literals(c1, 0).len() - cases_literals(c1, j as int).len()),
            cases_literals(c1, 0).len() >= cases_literals(c1, j as int).len(),
            counter + cases_literals(c1, 0).len() <= usize::MAX,
            forall|k: int|
                0 <= k < j ==> (#[trigger] cases@[k]).value == c1[k].value && replaced_region(
                    c1[k].body,
                    cases@[k].body,
                    positions@,
                    (counter + (cases_literals(c1, 0).len() - cases_literals(c1, k).len())) as nat,
                ),
    {
        let mut case = SwitchCase {
            value: Uint::zero(),
            body: Region { statements: Vec::new(), yields: Vec::new() },
        };
        std::mem::swap(&mut case, &mut cases[j]);
        proof {
            assert(case == c1[j as int]);
            assert(cases_literals(c1, j as int) == list_literals(c1[j as int].body.statements@, 0) + cases_literals(
                c1,
                j + 1,
            ));
            lemma_cases_literals_suffix(c1, 0, j + 1);
        }
        let SwitchCase { value, body } = case;
        let (body, next) = replace_region(body, positions, c);
        cases.set(j, SwitchCase { value, body });
        c = next;
    }
    proof {
        assert forall|k: int|
            0 <= k < c1.len() implies (#[trigger] cases@[k]).value == c1[k].value && replaced_region(
            c1[k].body,
            cases@[k].body,
            positions@,
            counter as nat + (cases_literals(c1, 0).len() - cases_literals(c1, k).len()) as nat,
        ) by {
            lemma_cases_literals_suffix(c1, 0, k);
        }
        lemma_replaced_cases(c1, cases@, positions@, counter as nat, 0);
    }
    (cases, c)
}

fn replace_region(region: Region, positions: &BTreeMap<usize, ValueId>, counter: usize) -> (r: (Region, usize))
    requires
        counter + list_literals(region.statements@, 0).len() <= usize::MAX,
    ensures
        replaced_region(region, r.0, positions@, counter as nat),
        r.1 == counter + list_literals(region.statements@, 0).len(),
    decreases region, 2int,
{
    let Region { statements, yields } = region;
    let (statements, c) = replace_list(statements, positions, counter);
    (Region { statements, yields }, c)
}

/// Replaces the literals of a statement and its regions, from position `counter` on.
fn replace_statement(s: Statement, positions: &BTreeMap<usize, ValueId>, counter: usize) -> (r: (Statement, usize))
    requires
        counter + statement_literals(s).len() <= usize::MAX,
    ensures
        replaced_statement(s, r.0, positions@, counter as nat),
        r.1 == counter + statement_literals(s).len(),
    decreases s, 3int,
{
    match s {
        Statement::Let { bindings, value } => {
            let (value, c) = replace_expression(value, positions, counter);
            (Statement::Let { bindings, value }, c)
        },
        Statement::Expression(value) => {
            let (value, c) = replace_expression(value, positions, counter);
            (Statement::Expression(value), c)
        },
        Statement::SStore { key, value, static_slot } => {
            match static_slot {
                Some(slot) => {
                    if positions.contains_key(&counter) {
                        (Statement::SStore { key, value, static_slot: None }, counter + 1)
                    } else {
                        (Statement::SStore { key, value, static_slot: Some(slot) }, counter + 1)
                    }
                },
                None => (Statement::SStore { key, value, static_slot: None }, counter),
            }
        },
        Statement::If { condition, inputs, then_region, else_region, outputs } => {
            let (then_region, c1) = replace_region(then_region, positions, counter);
            let (else_region, c2) = match else_region {
                Some(r) => {
                    let (r2, c2) = replace_region(r, positions, c1);
                    (Some(r2), c2)
                },
                None => (None, c1),
            };
            (Statement::If { condition, inputs, then_region, else_region, outputs }, c2)
        },
        Statement::Switch { scrutinee, inputs, cases, default, outputs } => {
            let (cases, c1) = replace_cases(cases, positions, counter);
            let (default, c2) = match default {
                Some(r) => {
                    let (r2, c2) = replace_region(r, positions, c1);
                    (Some(r2), c2)
                },
                None => (None, c1),
            };
            (Statement::Switch { scrutinee, inputs, cases, default, outputs }, c2)
        },
        Statement::For {
            initial_values,
            loop_variables,
            condition_statements,
            condition,
            body,
            post_input_variables,
            post,
            outputs,
        } => {
            let (condition_statements, c1) = replace_list(condition_statements, positions, counter);
            let (condition, c2) = replace_expression(condition, positions, c1);
            let (body, c3) = replace_region(body, positions, c2);
            let (post, c4) = replace_region(post, positions, c3);
            (
                Statement::For {
                    initial_values,
                    loop_variables,
                    condition_statements,
                    condition,
                    body,
                    post_input_variables,
                    post,
                    outputs,
                },
                c4,
            )
        },
        Statement::Block(region) => {
            let (region, c) = replace_region(region, positions, counter);
            (Statement::Block(region), c)
        },
        other => (other, counter),
    }
}

/// Replaces the literals at the positions that `positions` names with the
/// parameters it gives for them: a literal becomes a use of its parameter and a
/// constant storage slot is dropped. Positions are counted in walk order, as
/// [`collect_literals_ordered`] counts them.
pub fn replace_literals_with_params(statements: Vec<Statement>, positions: &BTreeMap<usize, ValueId>) -> (r: Vec<Statement>)
    requires
        list_literals(statements@, 0).len() <= usize::MAX,
    ensures
        replaced_list(statements@, r@, positions@, 0, 0),
{
    let (r, _) = replace_list(statements, positions, 0);
    r
}

} // verus!
