//! The fuzzy canonical form of a function: its canonical encoding with each
//! literal value replaced by its position among the function's literals.
//!
//! Two functions with the same fuzzy form are structurally identical and may
//! differ only in the values of their literals (and of constant storage slots);
//! switch case values are kept, since a case label must stay a constant.

use crate::canon::{
    binop_code, constant_bytes, enc_expression, enc_id, enc_id_list, enc_ids, enc_statement, enc_value,
    enc_value2, enc_value3, enc_value_list, enc_values, le_u32, le_u64, push_constant, push_u32_le, push_u64_le, type_code,
    unaryop_code, binop_tag, type_tag, unaryop_tag, CanonState, Canonicalizer,
};
use crate::dedup::{canon_ids, parameter_types, push_type_tags, type_codes};
use crate::ir::{Expression, Function, Region, Statement, SwitchCase, Type, ValueId};
use vstd::prelude::*;

verus! {

/// The state of a fuzzy encoding: the renumbering of ids and the position of
/// the next literal.
pub struct FuzzState {
    pub canon: CanonState,
    pub lits: u32,
}

/// The position after `n`.
pub open spec fn next_position(n: u32) -> u32 {
    if n == u32::MAX {
        0
    } else {
        (n + 1) as u32
    }
}

/// The marker that stands for the literal at position `n`.
pub open spec fn literal_marker(n: u32) -> Seq<u8> {
    seq![0xFFu8] + le_u32(n)
}

/// The fuzzy encoding of an expression.
pub open spec fn fz_expression(st: FuzzState, e: Expression) -> (FuzzState, Seq<u8>) {
    match e {
        Expression::Literal { value_type, .. } => (
            FuzzState { lits: next_position(st.lits), ..st },
            seq![0x01u8] + literal_marker(st.lits) + seq![type_code(value_type)],
        ),
        Expression::Var(id) => {
            let (c1, b) = enc_id(st.canon, id);
            (FuzzState { canon: c1, ..st }, seq![0x02u8] + b)
        },
        Expression::Binary { operation, lhs, rhs } => {
            let (c1, b) = enc_value2(st.canon, lhs, rhs);
            (FuzzState { canon: c1, ..st }, seq![0x03u8, binop_code(operation)] + b)
        },
        Expression::Ternary { operation, a, b, n } => {
            let (c1, x) = enc_value3(st.canon, a, b, n);
            (FuzzState { canon: c1, ..st }, seq![0x04u8, binop_code(operation)] + x)
        },
        Expression::Unary { operation, operand } => {
            let (c1, b) = enc_value(st.canon, operand);
            (FuzzState { canon: c1, ..st }, seq![0x05u8, unaryop_code(operation)] + b)
        },
        Expression::Call { function, arguments } => {
            let (c1, b) = enc_values(st.canon, arguments@, 0);
            (
                FuzzState { canon: c1, ..st },
                seq![0x06u8] + le_u32(function.0) + le_u64(arguments.len() as u64) + b,
            )
        },
        Expression::SLoad { key, static_slot } => {
            let (c1, b) = enc_value(st.canon, key);
            if static_slot is Some {
                (
                    FuzzState { canon: c1, lits: next_position(st.lits) },
                    seq![0x12u8] + b + seq![1u8] + literal_marker(st.lits),
                )
            } else {
                (FuzzState { canon: c1, ..st }, seq![0x12u8] + b + seq![0u8])
            }
        },
        _ => {
            let (c1, b) = enc_expression(st.canon, e);
            (FuzzState { canon: c1, ..st }, b)
        },
    }
}

/// The fuzzy encoding of a region: its statement count, its statements and its yields.
pub open spec fn fz_region(st: FuzzState, r: Region) -> (FuzzState, Seq<u8>)
    decreases r, 0int,
{
    let (st1, body) = fz_statements(st, r.statements@, 0);
    let (c2, ys) = enc_value_list(st1.canon, r.yields@);
    (FuzzState { canon: c2, ..st1 }, le_u64(r.statements.len() as u64) + body + ys)
}

/// The fuzzy encoding of an optional region.
pub open spec fn fz_option_region(st: FuzzState, r: Option<Region>) -> (FuzzState, Seq<u8>)
    decreases r, 0int,
{
    match r {
        Some(r) => {
            let (st1, b) = fz_region(st, r);
            (st1, seq![1u8] + b)
        },
        None => (st, seq![0u8]),
    }
}

/// The fuzzy encoding of switch cases `cs[j..]`: each value concretely, then its body.
pub open spec fn fz_cases(st: FuzzState, cs: Seq<SwitchCase>, j: int) -> (FuzzState, Seq<u8>)
    decreases cs, cs.len() - j,
{
    if j < 0 || j >= cs.len() {
        (st, Seq::empty())
    } else {
        let (st1, b) = fz_region(st, cs[j].body);
        let (st2, rest) = fz_cases(st1, cs, j + 1);
        (st2, constant_bytes(cs[j].value@) + b + rest)
    }
}

/// The fuzzy encoding of statements `ss[i..]`, in order.
pub open spec fn fz_statements(st: FuzzState, ss: Seq<Statement>, i: int) -> (FuzzState, Seq<u8>)
    decreases ss, ss.len() - i,
{
    if i < 0 || i >= ss.len() {
        (st, Seq::empty())
    } else {
        let (st1, b) = fz_statement(st, ss[i]);
        let (st2, rest) = fz_statements(st1, ss, i + 1);
        (st2, b + rest)
    }
}

/// The fuzzy encoding of a statement.
pub open spec fn fz_statement(st: FuzzState, s: Statement) -> (FuzzState, Seq<u8>)
    decreases s, 0int,
{
    match s {
        Statement::Let { bindings, value } => {
            let (c1, b) = enc_id_list(st.canon, bindings@);
            let (st2, e) = fz_expression(FuzzState { canon: c1, ..st }, value);
            (st2, seq![0x80u8] + b + e)
        },
        Statement::SStore { key, value, static_slot } => {
            let (c1, b) = enc_value2(st.canon, key, value);
            if static_slot is Some {
                (
                    FuzzState { canon: c1, lits: next_position(st.lits) },
                    seq![0x84u8] + b + seq![1u8] + literal_marker(st.lits),
                )
            } else {
                (FuzzState { canon: c1, ..st }, seq![0x84u8] + b + seq![0u8])
            }
        },
        Statement::If { condition, inputs, then_region, else_region, outputs } => {
            let (c1, cb) = enc_value(st.canon, condition);
            let (c2, ib) = enc_value_list(c1, inputs@);
            let (st3, tb) = fz_region(FuzzState { canon: c2, ..st }, then_region);
            let (st4, eb) = fz_option_region(st3, else_region);
            let (c5, ob) = enc_id_list(st4.canon, outputs@);
            (FuzzState { canon: c5, ..st4 }, seq![0x85u8] + cb + ib + tb + eb + ob)
        },
        Statement::Switch { scrutinee, inputs, cases, default, outputs } => {
            let (c1, sb) = enc_value(st.canon, scrutinee);
            let (c2, ib) = enc_value_list(c1, inputs@);
            let (st3, cb) = fz_cases(FuzzState { canon: c2, ..st }, cases@, 0);
            let (st4, db) = fz_option_region(st3, default);
            let (c5, ob) = enc_id_list(st4.canon, outputs@);
            (
                FuzzState { canon: c5, ..st4 },
                seq![0x86u8] + sb + ib + seq![cases.len() as u8] + cb + db + ob,
            )
        },
        Statement::For {
            initial_values,
            loop_variables,
            condition_statements,
            condition,
            body,
            post,
            outputs,
            ..
        } => {
            let (c1, ivb) = enc_value_list(st.canon, initial_values@);
            let (c2, lvb) = enc_id_list(c1, loop_variables@);
            let (st3, csb) = fz_statements(FuzzState { canon: c2, ..st }, condition_statements@, 0);
            let (st4, cb) = fz_expression(st3, condition);
            let (st5, bb) = fz_region(st4, body);
            let (st6, pb) = fz_region(st5, post);
            let (c7, ob) = enc_id_list(st6.canon, outputs@);
            (
                FuzzState { canon: c7, ..st6 },
                seq![0x87u8] + ivb + lvb + seq![condition_statements.len() as u8] + csb + cb + bb + pb + ob,
            )
        },
        Statement::Block(r) => {
            let (st1, b) = fz_region(st, r);
            (st1, seq![0x88u8] + b)
        },
        Statement::Expression(e) => {
            let (st1, b) = fz_expression(st, e);
            (st1, seq![0x89u8] + b)
        },
        _ => {
            let (c1, b) = enc_statement(st.canon, s);
            (FuzzState { canon: c1, ..st }, b)
        },
    }
}

/// The fuzzy canonical form of a function: parameter and return types, each list
/// prefixed by its count; its body in fuzzy form with parameters and initial
/// return values numbered first; then a separator and its fall-through return values.
pub open spec fn fuzzy_form(f: Function) -> Seq<u8> {
    let header = seq![f.parameters.len() as u8] + type_codes(parameter_types(f)) + seq![f.returns.len() as u8]
        + type_codes(f.returns@);
    let st0 = CanonState { ids: Map::empty(), next: 0 };
    let st1 = canon_ids(st0, f.parameters@.map_values(|p: (ValueId, Type)| p.0), 0);
    let st2 = canon_ids(st1, f.return_values_initial@, 0);
    let (st3, body) = fz_statements(FuzzState { canon: st2, lits: 0 }, f.body.statements@, 0);
    let rets = enc_ids(st3.canon, f.return_values@, 0).1;
    header + body + seq![0xFEu8] + rets
}

/// A fuzzy encoder: a canonicalizer and the position of the next literal.
pub struct FuzzyEncoder {
    canon: Canonicalizer,
    lits: u32,
}

impl FuzzyEncoder {
    /// The encoder's state.
    pub closed spec fn state(&self) -> FuzzState {
        FuzzState { canon: self.canon.state(), lits: self.lits }
    }

    fn next_literal(&mut self, buf: &mut Vec<u8>)
        ensures
            final(self).state() == (FuzzState { lits: next_position(old(self).state().lits), ..old(self).state() }),
            final(buf)@ == old(buf)@ + literal_marker(old(self).state().lits),
    {
        buf.push(0xFF);
        push_u32_le(buf, self.lits);
        self.lits = if self.lits == u32::MAX {
            0
        } else {
            self.lits + 1
        };
        proof {
            assert(buf@ =~= old(buf)@ + literal_marker(old(self).state().lits));
        }
    }

    /// Appends the fuzzy encoding of an expression.
    #[verifier::rlimit(40)]
    fn encode_expression(&mut self, expression: &Expression, buf: &mut Vec<u8>)
        ensures
            final(self).state() == fz_expression(old(self).state(), *expression).0,
            final(buf)@ == old(buf)@ + fz_expression(old(self).state(), *expression).1,
    {
        let ghost b0 = buf@;
        match expression {
            Expression::Literal { value_type, .. } => {
                buf.push(0x01);
                self.next_literal(buf);
                buf.push(type_tag(value_type));
                proof {
                    assert(buf@ =~= b0 + fz_expression(old(self).state(), *expression).1);
                }
            },
            Expression::Var(id) => {
                buf.push(0x02);
                self.canon.encode_value_id(*id, buf);
                proof {
                    assert(buf@ =~= b0 + fz_expression(old(self).state(), *expression).1);
                }
            },
            Expression::Binary { operation, lhs, rhs } => {
                buf.push(0x03);
                buf.push(binop_tag(*operation));
                self.canon.encode_value2(lhs, rhs, buf);
                proof {
                    assert(buf@ =~= b0 + fz_expression(old(self).state(), *expression).1);
                }
            },
            Expression::Ternary { operation, a, b, n } => {
                buf.push(0x04);
                buf.push(binop_tag(*operation));
                self.canon.encode_value3(a, b, n, buf);
                proof {
                    assert(buf@ =~= b0 + fz_expression(old(self).state(), *expression).1);
                }
            },
            Expression::Unary { operation, operand } => {
                buf.push(0x05);
                buf.push(unaryop_tag(*operation));
                self.canon.encode_value(operand, buf);
                proof {
                    assert(buf@ =~= b0 + fz_expression(old(self).state(), *expression).1);
                }
            },
            Expression::Call { function, arguments } => {
                buf.push(0x06);
                push_u32_le(buf, function.0);
                push_u64_le(buf, arguments.len() as u64);
                self.canon.encode_values(arguments, buf);
                proof {
                    assert(buf@ =~= b0 + fz_expression(old(self).state(), *expression).1);
                }
            },
            Expression::SLoad { key, static_slot } => {
                buf.push(0x12);
                self.canon.encode_value(key, buf);
                if static_slot.is_some() {
                    buf.push(1);
                    self.next_literal(buf);
                } else {
                    buf.push(0);
                }
                proof {
                    assert(buf@ =~= b0 + fz_expression(old(self).state(), *expression).1);
                }
            },
            _ => {
                self.canon.encode_expression(expression, buf);
                proof {
                    assert(buf@ =~= b0 + fz_expression(old(self).state(), *expression).1);
                }
            },
        }
    }

    /// Appends the fuzzy encoding of a region.
    fn encode_region(&mut self, region: &Region, buf: &mut Vec<u8>)
        ensures
            final(self).state() == fz_region(old(self).state(), *region).0,
            final(buf)@ == old(buf)@ + fz_region(old(self).state(), *region).1,
        decreases *region, 0int,
    {
        push_u64_le(buf, region.statements.len() as u64);
        self.encode_statements(&region.statements, buf);
        self.canon.encode_value_list(&region.yields, buf);
        proof {
            assert(buf@ =~= old(buf)@ + fz_region(old(self).state(), *region).1);
        }
    }

    fn encode_option_region(&mut self, region: &Option<Region>, buf: &mut Vec<u8>)
        ensures
            final(self).state() == fz_option_region(old(self).state(), *region).0,
            final(buf)@ == old(buf)@ + fz_option_region(old(self).state(), *region).1,
        decreases *region, 0int,
    {
        match region {
            Some(r) => {
                buf.push(1);
                self.encode_region(r, buf);
            },
            None => {
                buf.push(0);
            },
        }
        proof {
            assert(buf@ =~= old(buf)@ + fz_option_region(old(self).state(), *region).1);
        }
    }

    fn encode_cases(&mut self, cases: &Vec<SwitchCase>, buf: &mut Vec<u8>)
        ensures
            final(self).state() == fz_cases(old(self).state(), cases@, 0).0,
            final(buf)@ == old(buf)@ + fz_cases(old(self).state(), cases@, 0).1,
        decreases cases@, 0int,
    {
        let n = cases.len();
        let ghost st0 = self.state();
        let ghost b0 = buf@;
        for i in 0..n
            invariant
                n == cases@.len(),
                fz_cases(st0, cases@, 0).0 == fz_cases(self.state(), cases@, i as int).0,
                b0 + fz_cases(st0, cases@, 0).1 == buf@ + fz_cases(self.state(), cases@, i as int).1,
        {
            let ghost st = self.state();
            let ghost b = buf@;
            push_constant(buf, &cases[i].value);
            self.encode_region(&cases[i].body, buf);
            proof {
                let r = fz_cases(self.state(), cases@, i + 1);
                assert(b + fz_cases(st, cases@, i as int).1 =~= buf@ + r.1);
            }
        }
        proof {
            assert(buf@ + fz_cases(self.state(), cases@, n as int).1 =~= buf@);
        }
    }

    fn encode_statements(&mut self, statements: &Vec<Statement>, buf: &mut Vec<u8>)
        ensures
            final(self).state() == fz_statements(old(self).state(), statements@, 0).0,
            final(buf)@ == old(buf)@ + fz_statements(old(self).state(), statements@, 0).1,
        decreases statements@, 0int,
    {
        let n = statements.len();
        let ghost st0 = self.state();
        let ghost b0 = buf@;
        for i in 0..n
            invariant
                n == statements@.len(),
                fz_statements(st0, statements@, 0).0 == fz_statements(self.state(), statements@, i as int).0,
                b0 + fz_statements(st0, statements@, 0).1 == buf@ + fz_statements(
                    self.state(),
                    statements@,
                    i as int,
                ).1,
        {
            let ghost st = self.state();
            let ghost b = buf@;
            self.encode_statement(&statements[i], buf);
            proof {
                let r = fz_statements(self.state(), statements@, i + 1);
                assert(b + fz_statements(st, statements@, i as int).1 =~= buf@ + r.1);
            }
        }
        proof {
            assert(buf@ + fz_statements(self.state(), statements@, n as int).1 =~= buf@);
        }
    }

    /// Appends the fuzzy encoding of a statement.
    #[verifier::rlimit(40)]
    fn encode_statement(&mut self, statement: &Statement, buf: &mut Vec<u8>)
        ensures
            final(self).state() == fz_statement(old(self).state(), *statement).0,
            final(buf)@ == old(buf)@ + fz_statement(old(self).state(), *statement).1,
        decreases *statement, 1int,
    {
        let ghost b0 = buf@;
        match statement {
            Statement::Let { bindings, value } => {
                buf.push(0x80);
                self.canon.encode_id_list(bindings, buf);
                self.encode_expression(value, buf);
                proof {
                    assert(buf@ =~= b0 + fz_statement(old(self).state(), *statement).1);
                }
            },
            Statement::SStore { key, value, static_slot } => {
                buf.push(0x84);
                self.canon.encode_value2(key, value, buf);
                if static_slot.is_some() {
                    buf.push(1);
                    self.next_literal(buf);
                } else {
                    buf.push(0);
                }
                proof {
                    assert(buf@ =~= b0 + fz_statement(old(self).state(), *statement).1);
                }
            },
            Statement::If { condition, inputs, then_region, else_region, outputs } => {
                buf.push(0x85);
                self.canon.encode_value(condition, buf);
                self.canon.encode_value_list(inputs, buf);
                self.encode_region(then_region, buf);
                self.encode_option_region(else_region, buf);
                self.canon.encode_id_list(outputs, buf);
                proof {
                    assert(buf@ =~= b0 + fz_statement(old(self).state(), *statement).1);
                }
            },
            Statement::Switch { scrutinee, inputs, cases, default, outputs } => {
                buf.push(0x86);
                self.canon.encode_value(scrutinee, buf);
                self.canon.encode_value_list(inputs, buf);
                buf.push(cases.len() as u8);
                self.encode_cases(cases, buf);
                self.encode_option_region(default, buf);
                self.canon.encode_id_list(outputs, buf);
                proof {
                    assert(buf@ =~= b0 + fz_statement(old(self).state(), *statement).1);
                }
            },
            Statement::For {
                initial_values,
                loop_variables,
                condition_statements,
                condition,
                body,
                post,
                outputs,
                ..
            } => {
                buf.push(0x87);
                self.canon.encode_value_list(initial_values, buf);
                self.canon.encode_id_list(loop_variables, buf);
                buf.push(condition_statements.len() as u8);
                self.encode_statements(condition_statements, buf);
                self.encode_expression(condition, buf);
                self.encode_region(body, buf);
                self.encode_region(post, buf);
                self.canon.encode_id_list(outputs, buf);
                proof {
                    assert(buf@ =~= b0 + fz_statement(old(self).state(), *statement).1);
                }
            },
            Statement::Block(region) => {
                buf.push(0x88);
                self.encode_region(region, buf);
                proof {
                    assert(buf@ =~= b0 + fz_statement(old(self).state(), *statement).1);
                }
            },
            Statement::Expression(expression) => {
                buf.push(0x89);
                self.encode_expression(expression, buf);
                proof {
                    assert(buf@ =~= b0 + fz_statement(old(self).state(), *statement).1);
                }
            },
            _ => {
                self.canon.encode_statement(statement, buf);
                proof {
                    assert(buf@ =~= b0 + fz_statement(old(self).state(), *statement).1);
                }
            },
        }
    }
}

/// Produces the fuzzy canonical form of a function, in which each literal is
/// replaced by its position.
pub fn fuzzy_canonicalize_function(function: &Function) -> (r: Vec<u8>)
    ensures
        r@ == fuzzy_form(*function),
{
    let mut canon = Canonicalizer::new();
    let mut buf: Vec<u8> = Vec::new();
    let mut parameter_types_vec: Vec<Type> = Vec::new();
    for i in 0..function.parameters.len()
        invariant
            parameter_types_vec@ == parameter_types(*function).take(i as int),
    {
        parameter_types_vec.push(function.parameters[i].1);
        proof {
            assert(parameter_types_vec@ =~= parameter_types(*function).take(i + 1));
        }
    }
    proof {
        assert(parameter_types_vec@ =~= parameter_types(*function));
    }
    buf.push(function.parameters.len() as u8);
    push_type_tags(&mut buf, &parameter_types_vec);
    buf.push(function.returns.len() as u8);
    push_type_tags(&mut buf, &function.returns);
    let ghost header = buf@;
    let ghost pids = function.parameters@.map_values(|p: (ValueId, Type)| p.0);
    let ghost st0 = canon.state();
    let np = function.parameters.len();
    for i in 0..np
        invariant
            np == function.parameters@.len(),
            pids == function.parameters@.map_values(|p: (ValueId, Type)| p.0),
            canon_ids(canon.state(), pids, i as int) == canon_ids(st0, pids, 0),
    {
        canon.get_or_insert(function.parameters[i].0);
    }
    let ghost st1 = canon.state();
    let nr = function.return_values_initial.len();
    for i in 0..nr
        invariant
            nr == function.return_values_initial@.len(),
            canon_ids(canon.state(), function.return_values_initial@, i as int) == canon_ids(
                st1,
                function.return_values_initial@,
                0,
            ),
    {
        canon.get_or_insert(function.return_values_initial[i]);
    }
    let mut encoder = FuzzyEncoder { canon, lits: 0 };
    encoder.encode_statements(&function.body.statements, &mut buf);
    buf.push(0xFE);
    encoder.canon.encode_ids(&function.return_values, &mut buf);
    proof {
        assert(buf@ =~= fuzzy_form(*function));
    }
    buf
}

} // verus!
