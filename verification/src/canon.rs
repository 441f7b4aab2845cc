//! Canonical byte encodings of function bodies, for finding duplicates.
//!
//! Value ids are renumbered 0, 1, 2, ... in order of first occurrence; function
//! ids are kept, since they name functions of the whole object.

use crate::ir::{
    AddressSpace, BinaryOperation, BitWidth, CallKind, CreateKind, Expression, MemoryRegion, Region,
    Statement, SwitchCase, Type, UnaryOperation, Value, ValueId,
};
use crate::uint::{nat_to_bytes_le, uint_to_bytes_be, uint_to_bytes_le, Uint};
use std::collections::BTreeMap;
use vstd::prelude::*;
use vstd::utf8::encode_utf8;

verus! {

/// The four little-endian bytes of `n`.
pub open spec fn le_u32(n: u32) -> Seq<u8> {
    seq![(n % 256) as u8, ((n / 256) % 256) as u8, ((n / 65536) % 256) as u8, ((n / 16777216) % 256) as u8]
}

/// The eight little-endian bytes of `n`.
#[verifier::opaque]
pub open spec fn le_u64(n: u64) -> Seq<u8> {
    le_u32((n % 0x1_0000_0000) as u32) + le_u32((n / 0x1_0000_0000) as u32)
}

/// The tag of a width.
pub open spec fn width_code(w: BitWidth) -> u8 {
    match w {
        BitWidth::I1 => 1,
        BitWidth::I8 => 8,
        BitWidth::I32 => 32,
        BitWidth::I64 => 64,
        BitWidth::I128 => 128,
        BitWidth::I160 => 160,
        BitWidth::I256 => 0,
    }
}

/// The tag of a type.
pub open spec fn type_code(t: Type) -> u8 {
    match t {
        Type::Int(w) => width_code(w),
        Type::Ptr(a) => match a {
            AddressSpace::Heap => 0xE0,
            AddressSpace::Stack => 0xE1,
            AddressSpace::Storage => 0xE2,
            AddressSpace::Code => 0xE3,
        },
        Type::Void => 0xFF,
    }
}

/// The tag of a binary operation.
pub open spec fn binop_code(op: BinaryOperation) -> u8 {
    match op {
        BinaryOperation::Add => 0,
        BinaryOperation::Sub => 1,
        BinaryOperation::Mul => 2,
        BinaryOperation::Div => 3,
        BinaryOperation::SDiv => 4,
        BinaryOperation::Mod => 5,
        BinaryOperation::SMod => 6,
        BinaryOperation::Exp => 7,
        BinaryOperation::AddMod => 8,
        BinaryOperation::MulMod => 9,
        BinaryOperation::And => 10,
        BinaryOperation::Or => 11,
        BinaryOperation::Xor => 12,
        BinaryOperation::Shl => 13,
        BinaryOperation::Shr => 14,
        BinaryOperation::Sar => 15,
        BinaryOperation::Lt => 16,
        BinaryOperation::Gt => 17,
        BinaryOperation::Slt => 18,
        BinaryOperation::Sgt => 19,
        BinaryOperation::Eq => 20,
        BinaryOperation::Byte => 21,
        BinaryOperation::SignExtend => 22,
    }
}

/// The tag of a unary operation.
pub open spec fn unaryop_code(op: UnaryOperation) -> u8 {
    match op {
        UnaryOperation::IsZero => 0,
        UnaryOperation::Not => 1,
        UnaryOperation::Clz => 2,
    }
}

/// The tag of a memory region.
pub open spec fn region_code(r: MemoryRegion) -> u8 {
    match r {
        MemoryRegion::Scratch => 0,
        MemoryRegion::FreePointerSlot => 1,
        MemoryRegion::Dynamic => 2,
        MemoryRegion::Unknown => 3,
    }
}

/// The tag of a call kind.
pub open spec fn callkind_code(k: CallKind) -> u8 {
    match k {
        CallKind::Call => 0,
        CallKind::CallCode => 1,
        CallKind::DelegateCall => 2,
        CallKind::StaticCall => 3,
    }
}

/// The tag of a creation kind.
pub open spec fn createkind_code(k: CreateKind) -> u8 {
    match k {
        CreateKind::Create => 0,
        CreateKind::Create2 => 1,
    }
}

/// The tag of an expression without operands; 0 for any other.
pub open spec fn nullary_code(e: Expression) -> u8 {
    match e {
        Expression::CallValue => 0x40,
        Expression::Caller => 0x41,
        Expression::Origin => 0x42,
        Expression::CallDataSize => 0x43,
        Expression::CodeSize => 0x44,
        Expression::GasPrice => 0x45,
        Expression::ReturnDataSize => 0x46,
        Expression::Coinbase => 0x47,
        Expression::Timestamp => 0x48,
        Expression::Number => 0x49,
        Expression::Difficulty => 0x4A,
        Expression::GasLimit => 0x4B,
        Expression::ChainId => 0x4C,
        Expression::SelfBalance => 0x4D,
        Expression::BaseFee => 0x4E,
        Expression::BlobBaseFee => 0x4F,
        Expression::Gas => 0x50,
        Expression::MSize => 0x51,
        Expression::Address => 0x52,
        _ => 0x00,
    }
}

/// The renumbering so far: canonical numbers of the value ids seen, and the next
/// number to give.
pub struct CanonState {
    pub ids: Map<u32, u32>,
    pub next: u32,
}

/// Bytes prefixed by their count in eight little-endian bytes.
pub open spec fn counted_bytes(bytes: Seq<u8>) -> Seq<u8> {
    le_u64(bytes.len() as u64) + bytes
}

/// The little-endian bytes of a constant prefixed by their count.
pub open spec fn constant_bytes(n: nat) -> Seq<u8> {
    counted_bytes(nat_to_bytes_le(n))
}

/// The canonical number of a value id: its earlier number, or the next one.
pub open spec fn canon_id(st: CanonState, id: u32) -> (CanonState, u32) {
    if st.ids.contains_key(id) {
        (st, st.ids[id])
    } else {
        let next = if st.next == u32::MAX {
            0
        } else {
            (st.next + 1) as u32
        };
        (CanonState { ids: st.ids.insert(id, st.next), next }, st.next)
    }
}

/// The encoding of a value id: its canonical number.
pub open spec fn enc_id(st: CanonState, id: ValueId) -> (CanonState, Seq<u8>) {
    let (st1, c) = canon_id(st, id.0);
    (st1, le_u32(c))
}

/// The encoding of a value: its id, then its type.
pub open spec fn enc_value(st: CanonState, v: Value) -> (CanonState, Seq<u8>) {
    let (st1, b) = enc_id(st, v.id);
    (st1, b.push(type_code(v.value_type)))
}

/// The encoding of values `vs[i..]`, in order.
pub open spec fn enc_values(st: CanonState, vs: Seq<Value>, i: int) -> (CanonState, Seq<u8>)
    decreases vs.len() - i,
{
    if i < 0 || i >= vs.len() {
        (st, Seq::empty())
    } else {
        let (st1, b) = enc_value(st, vs[i]);
        let (st2, rest) = enc_values(st1, vs, i + 1);
        (st2, b + rest)
    }
}

/// The encoding of ids `ids[i..]`, in order.
pub open spec fn enc_ids(st: CanonState, ids: Seq<ValueId>, i: int) -> (CanonState, Seq<u8>)
    decreases ids.len() - i,
{
    if i < 0 || i >= ids.len() {
        (st, Seq::empty())
    } else {
        let (st1, b) = enc_id(st, ids[i]);
        let (st2, rest) = enc_ids(st1, ids, i + 1);
        (st2, b + rest)
    }
}

/// The encoding of a list of values prefixed by its count in eight bytes.
pub open spec fn enc_value_list(st: CanonState, vs: Seq<Value>) -> (CanonState, Seq<u8>) {
    let (st1, b) = enc_values(st, vs, 0);
    (st1, le_u64(vs.len() as u64) + b)
}

/// The encoding of a list of ids prefixed by its count in eight bytes.
pub open spec fn enc_id_list(st: CanonState, ids: Seq<ValueId>) -> (CanonState, Seq<u8>) {
    let (st1, b) = enc_ids(st, ids, 0);
    (st1, le_u64(ids.len() as u64) + b)
}

/// The encoding of one value, then another.
pub open spec fn enc_value2(st: CanonState, a: Value, b: Value) -> (CanonState, Seq<u8>) {
    let (st1, x) = enc_value(st, a);
    let (st2, y) = enc_value(st1, b);
    (st2, x + y)
}

/// The encoding of three values in order.
pub open spec fn enc_value3(st: CanonState, a: Value, b: Value, c: Value) -> (CanonState, Seq<u8>) {
    let (st1, x) = enc_value2(st, a, b);
    let (st2, y) = enc_value(st1, c);
    (st2, x + y)
}

/// The encoding of a name: its UTF-8 bytes prefixed by their count.
pub open spec fn name_bytes(s: Seq<char>) -> Seq<u8> {
    counted_bytes(encode_utf8(s))
}

/// The encoding of an expression.
pub open spec fn enc_expression(st: CanonState, e: Expression) -> (CanonState, Seq<u8>) {
    match e {
        Expression::Literal { value, value_type } => (
            st,
            seq![0x01u8] + constant_bytes(value@) + seq![type_code(value_type)],
        ),
        Expression::Var(id) => {
            let (st1, b) = enc_id(st, id);
            (st1, seq![0x02u8] + b)
        },
        Expression::Binary { operation, lhs, rhs } => {
            let (st1, b) = enc_value2(st, lhs, rhs);
            (st1, seq![0x03u8, binop_code(operation)] + b)
        },
        Expression::Ternary { operation, a, b, n } => {
            let (st1, x) = enc_value3(st, a, b, n);
            (st1, seq![0x04u8, binop_code(operation)] + x)
        },
        Expression::Unary { operation, operand } => {
            let (st1, b) = enc_value(st, operand);
            (st1, seq![0x05u8, unaryop_code(operation)] + b)
        },
        Expression::Call { function, arguments } => {
            let (st1, b) = enc_values(st, arguments@, 0);
            (st1, seq![0x06u8] + le_u32(function.0) + le_u64(arguments.len() as u64) + b)
        },
        Expression::CallDataLoad { offset } => {
            let (st1, b) = enc_value(st, offset);
            (st1, seq![0x10u8] + b)
        },
        Expression::MLoad { offset, region } => {
            let (st1, b) = enc_value(st, offset);
            (st1, seq![0x11u8] + b + seq![region_code(region)])
        },
        Expression::SLoad { key, static_slot } => {
            let (st1, b) = enc_value(st, key);
            (
                st1,
                seq![0x12u8] + b + match static_slot {
                    Some(slot) => seq![1u8] + constant_bytes(slot@),
                    None => seq![0u8],
                },
            )
        },
        Expression::TLoad { key } => {
            let (st1, b) = enc_value(st, key);
            (st1, seq![0x13u8] + b)
        },
        Expression::Keccak256 { offset, length } => {
            let (st1, b) = enc_value2(st, offset, length);
            (st1, seq![0x14u8] + b)
        },
        Expression::Keccak256Pair { word0, word1 } => {
            let (st1, b) = enc_value2(st, word0, word1);
            (st1, seq![0x24u8] + b)
        },
        Expression::Keccak256Single { word0 } => {
            let (st1, b) = enc_value(st, word0);
            (st1, seq![0x25u8] + b)
        },
        Expression::MappingSLoad { key, slot } => {
            let (st1, b) = enc_value2(st, key, slot);
            (st1, seq![0x27u8] + b)
        },
        Expression::Truncate { value, to } => {
            let (st1, b) = enc_value(st, value);
            (st1, seq![0x15u8] + b + seq![width_code(to)])
        },
        Expression::ZeroExtend { value, to } => {
            let (st1, b) = enc_value(st, value);
            (st1, seq![0x16u8] + b + seq![width_code(to)])
        },
        Expression::SignExtendTo { value, to } => {
            let (st1, b) = enc_value(st, value);
            (st1, seq![0x17u8] + b + seq![width_code(to)])
        },
        Expression::ExtCodeSize { address } => {
            let (st1, b) = enc_value(st, address);
            (st1, seq![0x20u8] + b)
        },
        Expression::ExtCodeHash { address } => {
            let (st1, b) = enc_value(st, address);
            (st1, seq![0x21u8] + b)
        },
        Expression::Balance { address } => {
            let (st1, b) = enc_value(st, address);
            (st1, seq![0x22u8] + b)
        },
        Expression::BlockHash { number } => {
            let (st1, b) = enc_value(st, number);
            (st1, seq![0x23u8] + b)
        },
        Expression::BlobHash { index } => {
            let (st1, b) = enc_value(st, index);
            (st1, seq![0x26u8] + b)
        },
        Expression::DataOffset { id } => (st, seq![0x30u8] + name_bytes(id@)),
        Expression::DataSize { id } => (st, seq![0x31u8] + name_bytes(id@)),
        Expression::LoadImmutable { key } => (st, seq![0x32u8] + name_bytes(key@)),
        Expression::LinkerSymbol { path } => (st, seq![0x33u8] + name_bytes(path@)),
        _ => (st, seq![nullary_code(e)]),
    }
}

/// The encoding of an optional value.
pub open spec fn enc_option_value(st: CanonState, v: Option<Value>) -> (CanonState, Seq<u8>) {
    match v {
        Some(v) => {
            let (st1, b) = enc_value(st, v);
            (st1, seq![1u8] + b)
        },
        None => (st, seq![0u8]),
    }
}

/// The big-endian bytes of words, concatenated.
pub open spec fn words_be(ws: Seq<Uint>, i: int) -> Seq<u8>
    decreases ws.len() - i,
{
    if i < 0 || i >= ws.len() {
        Seq::empty()
    } else {
        counted_bytes(nat_to_bytes_le(ws[i]@).reverse()) + words_be(ws, i + 1)
    }
}

/// The encoding of a region: its statement count in four bytes, its statements,
/// then its yields as a counted list.
pub open spec fn enc_region(st: CanonState, r: Region) -> (CanonState, Seq<u8>)
    decreases r, 0int,
{
    let (st1, body) = enc_statements(st, r.statements@, 0);
    let (st2, ys) = enc_value_list(st1, r.yields@);
    (st2, le_u64(r.statements.len() as u64) + body + ys)
}

/// The encoding of an optional region.
pub open spec fn enc_option_region(st: CanonState, r: Option<Region>) -> (CanonState, Seq<u8>)
    decreases r, 0int,
{
    match r {
        Some(r) => {
            let (st1, b) = enc_region(st, r);
            (st1, seq![1u8] + b)
        },
        None => (st, seq![0u8]),
    }
}

/// The encoding of switch cases `cs[j..]`: each value's counted bytes, then its body.
pub open spec fn enc_cases(st: CanonState, cs: Seq<SwitchCase>, j: int) -> (CanonState, Seq<u8>)
    decreases cs, cs.len() - j,
{
    if j < 0 || j >= cs.len() {
        (st, Seq::empty())
    } else {
        let (st1, b) = enc_region(st, cs[j].body);
        let (st2, rest) = enc_cases(st1, cs, j + 1);
        (st2, constant_bytes(cs[j].value@) + b + rest)
    }
}

/// The encoding of statements `ss[i..]`, in order.
pub open spec fn enc_statements(st: CanonState, ss: Seq<Statement>, i: int) -> (CanonState, Seq<u8>)
    decreases ss, ss.len() - i,
{
    if i < 0 || i >= ss.len() {
        (st, Seq::empty())
    } else {
        let (st1, b) = enc_statement(st, ss[i]);
        let (st2, rest) = enc_statements(st1, ss, i + 1);
        (st2, b + rest)
    }
}

/// The encoding of a statement.
pub open spec fn enc_statement(st: CanonState, s: Statement) -> (CanonState, Seq<u8>)
    decreases s, 0int,
{
    match s {
        Statement::Let { bindings, value } => {
            let (st1, b) = enc_id_list(st, bindings@);
            let (st2, e) = enc_expression(st1, value);
            (st2, seq![0x80u8] + b + e)
        },
        Statement::MStore { offset, value, region } => {
            let (st1, b) = enc_value2(st, offset, value);
            (st1, seq![0x81u8] + b + seq![region_code(region)])
        },
        Statement::MStore8 { offset, value, region } => {
            let (st1, b) = enc_value2(st, offset, value);
            (st1, seq![0x82u8] + b + seq![region_code(region)])
        },
        Statement::MCopy { dest, src, length } => {
            let (st1, b) = enc_value3(st, dest, src, length);
            (st1, seq![0x83u8] + b)
        },
        Statement::SStore { key, value, static_slot } => {
            let (st1, b) = enc_value2(st, key, value);
            (
                st1,
                seq![0x84u8] + b + match static_slot {
                    Some(slot) => seq![1u8] + constant_bytes(slot@),
                    None => seq![0u8],
                },
            )
        },
        Statement::TStore { key, value } => {
            let (st1, b) = enc_value2(st, key, value);
            (st1, seq![0x85u8] + b)
        },
        Statement::MappingSStore { key, slot, value } => {
            let (st1, b) = enc_value3(st, key, slot, value);
            (st1, seq![0xA5u8] + b)
        },
        Statement::If { condition, inputs, then_region, else_region, outputs } => {
            let (st1, c) = enc_value(st, condition);
            let (st2, i) = enc_value_list(st1, inputs@);
            let (st3, t) = enc_region(st2, then_region);
            let (st4, e) = enc_option_region(st3, else_region);
            let (st5, o) = enc_id_list(st4, outputs@);
            (st5, seq![0x86u8] + c + i + t + e + o)
        },
        Statement::Switch { scrutinee, inputs, cases, default, outputs } => {
            let (st1, c) = enc_value(st, scrutinee);
            let (st2, i) = enc_value_list(st1, inputs@);
            let (st3, cs) = enc_cases(st2, cases@, 0);
            let (st4, d) = enc_option_region(st3, default);
            let (st5, o) = enc_id_list(st4, outputs@);
            (st5, seq![0x87u8] + c + i + le_u64(cases.len() as u64) + cs + d + o)
        },
        Statement::For {
            initial_values,
            loop_variables,
            condition_statements,
            condition,
            body,
            post_input_variables,
            post,
            outputs,
        } => {
            let (st1, iv) = enc_value_list(st, initial_values@);
            let (st2, lv) = enc_id_list(st1, loop_variables@);
            let (st3, cs) = enc_statements(st2, condition_statements@, 0);
            let (st4, c) = enc_expression(st3, condition);
            let (st5, b) = enc_region(st4, body);
            let (st6, pv) = enc_id_list(st5, post_input_variables@);
            let (st7, p) = enc_region(st6, post);
            let (st8, o) = enc_id_list(st7, outputs@);
            (
                st8,
                seq![0x88u8] + iv + lv + le_u64(condition_statements.len() as u64) + cs + c + b + pv
                    + p + o,
            )
        },
        Statement::Block(r) => {
            let (st1, b) = enc_region(st, r);
            (st1, seq![0x89u8] + b)
        },
        Statement::Revert { offset, length } => {
            let (st1, b) = enc_value2(st, offset, length);
            (st1, seq![0x90u8] + b)
        },
        Statement::Return { offset, length } => {
            let (st1, b) = enc_value2(st, offset, length);
            (st1, seq![0x91u8] + b)
        },
        Statement::Stop => (st, seq![0x92u8]),
        Statement::Invalid => (st, seq![0x93u8]),
        Statement::PanicRevert { code } => (st, seq![0xA2u8, code]),
        Statement::ErrorStringRevert { length, data } => (
            st,
            seq![0xA3u8, length] + le_u64(data.len() as u64) + words_be(data@, 0),
        ),
        Statement::CustomErrorRevert { selector, arguments } => {
            let (st1, b) = enc_values(st, arguments@, 0);
            (
                st1,
                seq![0xA4u8] + le_u64(arguments.len() as u64) + counted_bytes(nat_to_bytes_le(selector@).reverse()) + b,
            )
        },
        Statement::ExternalCall {
            kind,
            gas,
            address,
            value,
            args_offset,
            args_length,
            ret_offset,
            ret_length,
            result,
        } => {
            let (st1, a) = enc_value2(st, gas, address);
            let (st2, v) = enc_option_value(st1, value);
            let (st3, b) = enc_value2(st2, args_offset, args_length);
            let (st4, c) = enc_value2(st3, ret_offset, ret_length);
            let (st5, r) = enc_id(st4, result);
            (st5, seq![0x94u8, callkind_code(kind)] + a + v + b + c + r)
        },
        Statement::Create { kind, value, offset, length, salt, result } => {
            let (st1, a) = enc_value3(st, value, offset, length);
            let (st2, sb) = enc_option_value(st1, salt);
            let (st3, r) = enc_id(st2, result);
            (st3, seq![0x95u8, createkind_code(kind)] + a + sb + r)
        },
        Statement::Log { offset, length, topics } => {
            let (st1, a) = enc_value2(st, offset, length);
            let (st2, t) = enc_value_list(st1, topics@);
            (st2, seq![0x96u8] + a + t)
        },
        Statement::CodeCopy { dest, offset, length } => {
            let (st1, b) = enc_value3(st, dest, offset, length);
            (st1, seq![0x97u8] + b)
        },
        Statement::ExtCodeCopy { address, dest, offset, length } => {
            let (st1, b) = enc_value3(st, address, dest, offset);
            let (st2, c) = enc_value(st1, length);
            (st2, seq![0x98u8] + b + c)
        },
        Statement::ReturnDataCopy { dest, offset, length } => {
            let (st1, b) = enc_value3(st, dest, offset, length);
            (st1, seq![0x99u8] + b)
        },
        Statement::DataCopy { dest, offset, length } => {
            let (st1, b) = enc_value3(st, dest, offset, length);
            (st1, seq![0x9Au8] + b)
        },
        Statement::CallDataCopy { dest, offset, length } => {
            let (st1, b) = enc_value3(st, dest, offset, length);
            (st1, seq![0x9Bu8] + b)
        },
        Statement::SetImmutable { key, value } => {
            let (st1, b) = enc_value(st, value);
            (st1, seq![0x9Cu8] + name_bytes(key@) + b)
        },
        Statement::Leave { return_values } => {
            let (st1, b) = enc_value_list(st, return_values@);
            (st1, seq![0x9Du8] + b)
        },
        Statement::Expression(e) => {
            let (st1, b) = enc_expression(st, e);
            (st1, seq![0x9Eu8] + b)
        },
        Statement::SelfDestruct { address } => {
            let (st1, b) = enc_value(st, address);
            (st1, seq![0x9Fu8] + b)
        },
        Statement::Break { values } => {
            let (st1, b) = enc_value_list(st, values@);
            (st1, seq![0xA0u8] + b)
        },
        Statement::Continue { values } => {
            let (st1, b) = enc_value_list(st, values@);
            (st1, seq![0xA1u8] + b)
        },
    }
}

proof fn lemma_le_u32_injective(a: u32, b: u32)
    requires
        le_u32(a) == le_u32(b),
    ensures
        a == b,
{
    assert(le_u32(a)[0] == le_u32(b)[0]);
    assert(le_u32(a)[1] == le_u32(b)[1]);
    assert(le_u32(a)[2] == le_u32(b)[2]);
    assert(le_u32(a)[3] == le_u32(b)[3]);
    assert(a % 256 == b % 256);
    assert((a / 256) % 256 == (b / 256) % 256);
    assert((a / 65536) % 256 == (b / 65536) % 256);
    assert((a / 16777216) % 256 == (b / 16777216) % 256);
    assert(a == b) by (bit_vector)
        requires
            a % 256 == b % 256,
            (a / 256) % 256 == (b / 256) % 256,
            (a / 65536) % 256 == (b / 65536) % 256,
            (a / 16777216) % 256 == (b / 16777216) % 256,
    ;
}

proof fn lemma_le_u64_len(n: u64)
    ensures
        le_u64(n).len() == 8,
{
    reveal(le_u64);
}

proof fn lemma_le_u64_injective(a: u64, b: u64)
    requires
        le_u64(a) == le_u64(b),
    ensures
        a == b,
        le_u64(a).len() == 8,
{
    reveal(le_u64);
    let la = le_u32((a % 0x1_0000_0000) as u32);
    let ha = le_u32((a / 0x1_0000_0000) as u32);
    let lb = le_u32((b % 0x1_0000_0000) as u32);
    let hb = le_u32((b / 0x1_0000_0000) as u32);
    assert(le_u64(a).subrange(0, 4) =~= la);
    assert(le_u64(a).subrange(4, 8) =~= ha);
    assert(le_u64(b).subrange(0, 4) =~= lb);
    assert(le_u64(b).subrange(4, 8) =~= hb);
    lemma_le_u32_injective((a % 0x1_0000_0000) as u32, (b % 0x1_0000_0000) as u32);
    lemma_le_u32_injective((a / 0x1_0000_0000) as u32, (b / 0x1_0000_0000) as u32);
}

proof fn lemma_bytes_le_injective(a: nat, b: nat)
    requires
        nat_to_bytes_le(a) == nat_to_bytes_le(b),
    ensures
        a == b,
    decreases a,
{
    if a < 256 {
        if b >= 256 {
            assert(nat_to_bytes_le(b / 256).len() >= 1) by {
                lemma_bytes_len(b / 256);
            }
            assert(nat_to_bytes_le(b).len() >= 2);
        } else {
            assert(nat_to_bytes_le(a) == seq![a as u8]);
            assert(nat_to_bytes_le(b) == seq![b as u8]);
            assert(seq![a as u8][0] == a as u8);
            assert(seq![b as u8][0] == b as u8);
            assert(a as u8 == b as u8);
        }
    } else {
        if b < 256 {
            lemma_bytes_len(a / 256);
            assert(nat_to_bytes_le(a).len() >= 2);
        } else {
            let ta = nat_to_bytes_le(a / 256);
            let tb = nat_to_bytes_le(b / 256);
            assert(nat_to_bytes_le(a) == seq![(a % 256) as u8] + ta);
            assert(nat_to_bytes_le(b) == seq![(b % 256) as u8] + tb);
            assert(nat_to_bytes_le(a).subrange(1, nat_to_bytes_le(a).len() as int) =~= ta);
            assert(nat_to_bytes_le(b).subrange(1, nat_to_bytes_le(b).len() as int) =~= tb);
            lemma_bytes_le_injective(a / 256, b / 256);
            assert((seq![(a % 256) as u8] + ta)[0] == (a % 256) as u8);
            assert((seq![(b % 256) as u8] + tb)[0] == (b % 256) as u8);
            assert((a % 256) as u8 == (b % 256) as u8);
            assert(a % 256 == b % 256);
            assert(a == 256 * (a / 256) + a % 256);
            assert(b == 256 * (b / 256) + b % 256);
        }
    }
}

proof fn lemma_bytes_len(n: nat)
    ensures
        nat_to_bytes_le(n).len() >= 1,
    decreases n,
{
    if n >= 256 {
        lemma_bytes_len(n / 256);
    }
}

/// The counted big-endian bytes of words: equal encodings of the same number
/// of words are encodings of equal words.
#[verifier::rlimit(40)]
proof fn lemma_words_be_injective(w1: Seq<Uint>, w2: Seq<Uint>, i: int)
    requires
        0 <= i <= w1.len(),
        w1.len() == w2.len(),
        words_be(w1, i) == words_be(w2, i),
        forall|k: int| 0 <= k < w1.len() ==> nat_to_bytes_le(#[trigger] w1[k]@).len() <= u64::MAX,
        forall|k: int| 0 <= k < w2.len() ==> nat_to_bytes_le(#[trigger] w2[k]@).len() <= u64::MAX,
    ensures
        forall|k: int| i <= k < w1.len() ==> (#[trigger] w1[k])@ == w2[k]@,
    decreases w1.len() - i,
{
    if i < w1.len() {
        let x = nat_to_bytes_le(w1[i]@).reverse();
        let y = nat_to_bytes_le(w2[i]@).reverse();
        let e1 = words_be(w1, i);
        let e2 = words_be(w2, i);
        let c1 = counted_bytes(x);
        let c2 = counted_bytes(y);
        assert(e1 == c1 + words_be(w1, i + 1));
        assert(e2 == c2 + words_be(w2, i + 1));
        assert(w1[i]@ >= 0);
        assert(x.len() == nat_to_bytes_le(w1[i]@).len());
        assert(y.len() == nat_to_bytes_le(w2[i]@).len());
        let p1 = le_u64(x.len() as u64);
        let p2 = le_u64(y.len() as u64);
        lemma_le_u64_len(x.len() as u64);
        lemma_le_u64_len(y.len() as u64);
        assert(e1.subrange(0, 8) =~= p1);
        assert(e2.subrange(0, 8) =~= p2);
        lemma_le_u64_injective(x.len() as u64, y.len() as u64);
        assert(x.len() == y.len());
        assert(e1.subrange(8, 8 + x.len() as int) =~= x);
        assert(e2.subrange(8, 8 + y.len() as int) =~= y);
        assert(x.reverse() =~= nat_to_bytes_le(w1[i]@));
        assert(y.reverse() =~= nat_to_bytes_le(w2[i]@));
        lemma_bytes_le_injective(w1[i]@, w2[i]@);
        assert(e1.subrange(8 + x.len() as int, e1.len() as int) =~= words_be(w1, i + 1));
        assert(e2.subrange(8 + y.len() as int, e2.len() as int) =~= words_be(w2, i + 1));
        lemma_words_be_injective(w1, w2, i + 1);
    }
}

/// Revert strings encode faithfully: two revert-string statements whose
/// words each take fewer than 2^64 bytes get the same encoding only when they
/// revert with the same length and the same words.
pub proof fn law_revert_string_encoding_is_faithful(st1: CanonState, st2: CanonState, a: Statement, b: Statement)
    requires
        a is ErrorStringRevert,
        b is ErrorStringRevert,
        forall|k: int|
            0 <= k < a->ErrorStringRevert_data@.len() ==> nat_to_bytes_le(
                (#[trigger] a->ErrorStringRevert_data@[k])@,
            ).len() <= u64::MAX,
        forall|k: int|
            0 <= k < b->ErrorStringRevert_data@.len() ==> nat_to_bytes_le(
                (#[trigger] b->ErrorStringRevert_data@[k])@,
            ).len() <= u64::MAX,
        enc_statement(st1, a).1 == enc_statement(st2, b).1,
    ensures
        a->ErrorStringRevert_length == b->ErrorStringRevert_length,
        a->ErrorStringRevert_data@.len() == b->ErrorStringRevert_data@.len(),
        forall|k: int|
            0 <= k < a->ErrorStringRevert_data@.len() ==> (#[trigger] a->ErrorStringRevert_data@[k])@
                == b->ErrorStringRevert_data@[k]@,
{
    let d1 = a->ErrorStringRevert_data@;
    let d2 = b->ErrorStringRevert_data@;
    let e1 = enc_statement(st1, a).1;
    let e2 = enc_statement(st2, b).1;
    reveal(le_u64);
    let p1 = le_u64(d1.len() as u64);
    let p2 = le_u64(d2.len() as u64);
    assert(e1 == seq![0xA3u8, a->ErrorStringRevert_length] + p1 + words_be(d1, 0));
    assert(e2 == seq![0xA3u8, b->ErrorStringRevert_length] + p2 + words_be(d2, 0));
    assert(e1[1] == a->ErrorStringRevert_length);
    assert(e2[1] == b->ErrorStringRevert_length);
    assert(e1.subrange(2, 10) =~= p1);
    assert(e2.subrange(2, 10) =~= p2);
    lemma_le_u64_injective(d1.len() as u64, d2.len() as u64);
    assert(e1.subrange(10, e1.len() as int) =~= words_be(d1, 0));
    assert(e2.subrange(10, e2.len() as int) =~= words_be(d2, 0));
    lemma_words_be_injective(d1, d2, 0);
}

broadcast use vstd::laws_cmp::group_laws_cmp;

/// Appends the four little-endian bytes of `n`.
pub(crate) fn push_u32_le(buf: &mut Vec<u8>, n: u32)
    ensures
        final(buf)@ == old(buf)@ + le_u32(n),
{
    buf.push((n % 256) as u8);
    buf.push(((n / 256) % 256) as u8);
    buf.push(((n / 65536) % 256) as u8);
    buf.push(((n / 16777216) % 256) as u8);
    proof {
        assert(buf@ =~= old(buf)@ + le_u32(n));
    }
}

/// Appends the eight little-endian bytes of `n`.
pub(crate) fn push_u64_le(buf: &mut Vec<u8>, n: u64)
    ensures
        final(buf)@ == old(buf)@ + le_u64(n),
{
    push_u32_le(buf, (n % 0x1_0000_0000) as u32);
    push_u32_le(buf, (n / 0x1_0000_0000) as u32);
    proof {
        reveal(le_u64);
        assert(buf@ =~= old(buf)@ + le_u64(n));
    }
}

/// Appends bytes.
fn push_bytes(buf: &mut Vec<u8>, bytes: &[u8])
    ensures
        final(buf)@ == old(buf)@ + bytes@,
{
    let n = bytes.len();
    for i in 0..n
        invariant
            n == bytes@.len(),
            buf@ == old(buf)@ + bytes@.take(i as int),
    {
        buf.push(bytes[i]);
        proof {
            assert(bytes@.take(i + 1) =~= bytes@.take(i as int).push(bytes@[i as int]));
            assert(buf@ =~= old(buf)@ + bytes@.take(i + 1));
        }
    }
    proof {
        assert(bytes@.take(n as int) =~= bytes@);
    }
}

/// Appends bytes prefixed by their count in eight bytes.
fn push_counted(buf: &mut Vec<u8>, bytes: &[u8])
    ensures
        final(buf)@ == old(buf)@ + counted_bytes(bytes@),
{
    push_u64_le(buf, bytes.len() as u64);
    push_bytes(buf, bytes);
    proof {
        assert(buf@ =~= old(buf)@ + counted_bytes(bytes@));
    }
}

/// Appends the little-endian bytes of a constant prefixed by their count.
pub(crate) fn push_constant(buf: &mut Vec<u8>, value: &Uint)
    ensures
        final(buf)@ == old(buf)@ + constant_bytes(value@),
{
    let bytes = uint_to_bytes_le(value);
    push_counted(buf, bytes.as_slice());
}

/// Appends the UTF-8 bytes of a name prefixed by their count.
fn push_name(buf: &mut Vec<u8>, name: &String)
    ensures
        final(buf)@ == old(buf)@ + name_bytes(name@),
{
    let bytes = name.as_str().as_bytes();
    push_counted(buf, bytes);
}

/// The tag of a width.
pub fn bitwidth_tag(w: BitWidth) -> (r: u8)
    ensures
        r == width_code(w),
{
    match w {
        BitWidth::I1 => 1,
        BitWidth::I8 => 8,
        BitWidth::I32 => 32,
        BitWidth::I64 => 64,
        BitWidth::I128 => 128,
        BitWidth::I160 => 160,
        BitWidth::I256 => 0,
    }
}

/// The tag of a type.
pub fn type_tag(t: &Type) -> (r: u8)
    ensures
        r == type_code(*t),
{
    match t {
        Type::Int(w) => bitwidth_tag(*w),
        Type::Ptr(a) => match a {
            AddressSpace::Heap => 0xE0,
            AddressSpace::Stack => 0xE1,
            AddressSpace::Storage => 0xE2,
            AddressSpace::Code => 0xE3,
        },
        Type::Void => 0xFF,
    }
}

/// The tag of a binary operation.
pub fn binop_tag(op: BinaryOperation) -> (r: u8)
    ensures
        r == binop_code(op),
{
    match op {
        BinaryOperation::Add => 0,
        BinaryOperation::Sub => 1,
        BinaryOperation::Mul => 2,
        BinaryOperation::Div => 3,
        BinaryOperation::SDiv => 4,
        BinaryOperation::Mod => 5,
        BinaryOperation::SMod => 6,
        BinaryOperation::Exp => 7,
        BinaryOperation::AddMod => 8,
        BinaryOperation::MulMod => 9,
        BinaryOperation::And => 10,
        BinaryOperation::Or => 11,
        BinaryOperation::Xor => 12,
        BinaryOperation::Shl => 13,
        BinaryOperation::Shr => 14,
        BinaryOperation::Sar => 15,
        BinaryOperation::Lt => 16,
        BinaryOperation::Gt => 17,
        BinaryOperation::Slt => 18,
        BinaryOperation::Sgt => 19,
        BinaryOperation::Eq => 20,
        BinaryOperation::Byte => 21,
        BinaryOperation::SignExtend => 22,
    }
}

/// The tag of a unary operation.
pub fn unaryop_tag(op: UnaryOperation) -> (r: u8)
    ensures
        r == unaryop_code(op),
{
    match op {
        UnaryOperation::IsZero => 0,
        UnaryOperation::Not => 1,
        UnaryOperation::Clz => 2,
    }
}

/// The tag of a memory region.
pub fn region_tag(region: &MemoryRegion) -> (r: u8)
    ensures
        r == region_code(*region),
{
    match region {
        MemoryRegion::Scratch => 0,
        MemoryRegion::FreePointerSlot => 1,
        MemoryRegion::Dynamic => 2,
        MemoryRegion::Unknown => 3,
    }
}

/// The tag of a call kind.
pub fn callkind_tag(kind: CallKind) -> (r: u8)
    ensures
        r == callkind_code(kind),
{
    match kind {
        CallKind::Call => 0,
        CallKind::CallCode => 1,
        CallKind::DelegateCall => 2,
        CallKind::StaticCall => 3,
    }
}

/// The tag of a creation kind.
pub fn createkind_tag(kind: CreateKind) -> (r: u8)
    ensures
        r == createkind_code(kind),
{
    match kind {
        CreateKind::Create => 0,
        CreateKind::Create2 => 1,
    }
}

/// The tag of an expression without operands; 0 for any other.
pub fn nullary_expr_tag(e: &Expression) -> (r: u8)
    ensures
        r == nullary_code(*e),
{
    match e {
        Expression::CallValue => 0x40,
        Expression::Caller => 0x41,
        Expression::Origin => 0x42,
        Expression::CallDataSize => 0x43,
        Expression::CodeSize => 0x44,
        Expression::GasPrice => 0x45,
        Expression::ReturnDataSize => 0x46,
        Expression::Coinbase => 0x47,
        Expression::Timestamp => 0x48,
        Expression::Number => 0x49,
        Expression::Difficulty => 0x4A,
        Expression::GasLimit => 0x4B,
        Expression::ChainId => 0x4C,
        Expression::SelfBalance => 0x4D,
        Expression::BaseFee => 0x4E,
        Expression::BlobBaseFee => 0x4F,
        Expression::Gas => 0x50,
        Expression::MSize => 0x51,
        Expression::Address => 0x52,
        _ => 0x00,
    }
}

/// Renumbers value ids in order of first occurrence while encoding.
pub struct Canonicalizer {
    id_map: BTreeMap<u32, u32>,
    next_id: u32,
}

impl Canonicalizer {
    /// The renumbering so far.
    pub closed spec fn state(&self) -> CanonState {
        CanonState { ids: self.id_map@, next: self.next_id }
    }

    /// A canonicalizer that has seen no value.
    pub fn new() -> (r: Canonicalizer)
        ensures
            r.state() == (CanonState { ids: Map::empty(), next: 0 }),
    {
        Canonicalizer { id_map: BTreeMap::new(), next_id: 0 }
    }

    /// The canonical number of a value id, giving it the next number on first sight.
    pub fn get_or_insert(&mut self, id: ValueId) -> (r: u32)
        ensures
            (final(self).state(), r) == canon_id(old(self).state(), id.0),
    {
        match self.id_map.get(&id.0) {
            Some(n) => *n,
            None => {
                let n = self.next_id;
                self.id_map.insert(id.0, n);
                self.next_id = if self.next_id == u32::MAX {
                    0
                } else {
                    self.next_id + 1
                };
                n
            },
        }
    }

    /// Appends the encoding of a value id.
    pub fn encode_value_id(&mut self, id: ValueId, buf: &mut Vec<u8>)
        ensures
            final(self).state() == enc_id(old(self).state(), id).0,
            final(buf)@ == old(buf)@ + enc_id(old(self).state(), id).1,
    {
        let canonical = self.get_or_insert(id);
        push_u32_le(buf, canonical);
    }

    /// Appends the encoding of a value.
    pub fn encode_value(&mut self, value: &Value, buf: &mut Vec<u8>)
        ensures
            final(self).state() == enc_value(old(self).state(), *value).0,
            final(buf)@ == old(buf)@ + enc_value(old(self).state(), *value).1,
    {
        self.encode_value_id(value.id, buf);
        buf.push(type_tag(&value.value_type));
        proof {
            assert(buf@ =~= old(buf)@ + enc_value(old(self).state(), *value).1);
        }
    }

    /// Appends the encodings of values, in order.
    pub(crate) fn encode_values(&mut self, values: &Vec<Value>, buf: &mut Vec<u8>)
        ensures
            final(self).state() == enc_values(old(self).state(), values@, 0).0,
            final(buf)@ == old(buf)@ + enc_values(old(self).state(), values@, 0).1,
    {
        let n = values.len();
        let ghost st0 = self.state();
        let ghost b0 = buf@;
        for i in 0..n
            invariant
                n == values@.len(),
                enc_values(st0, values@, 0).0 == enc_values(self.state(), values@, i as int).0,
                b0 + enc_values(st0, values@, 0).1 == buf@ + enc_values(self.state(), values@, i as int).1,
        {
            let ghost st = self.state();
            let ghost b = buf@;
            self.encode_value(&values[i], buf);
            proof {
                let r = enc_values(self.state(), values@, i + 1);
                assert(b + enc_values(st, values@, i as int).1 =~= buf@ + r.1);
            }
        }
        proof {
            assert(buf@ + enc_values(self.state(), values@, n as int).1 =~= buf@);
        }
    }

    /// Appends the encodings of ids, in order.
    pub(crate) fn encode_ids(&mut self, ids: &Vec<ValueId>, buf: &mut Vec<u8>)
        ensures
            final(self).state() == enc_ids(old(self).state(), ids@, 0).0,
            final(buf)@ == old(buf)@ + enc_ids(old(self).state(), ids@, 0).1,
    {
        let n = ids.len();
        let ghost st0 = self.state();
        let ghost b0 = buf@;
        for i in 0..n
            invariant
                n == ids@.len(),
                enc_ids(st0, ids@, 0).0 == enc_ids(self.state(), ids@, i as int).0,
                b0 + enc_ids(st0, ids@, 0).1 == buf@ + enc_ids(self.state(), ids@, i as int).1,
        {
            let ghost st = self.state();
            let ghost b = buf@;
            self.encode_value_id(ids[i], buf);
            proof {
                let r = enc_ids(self.state(), ids@, i + 1);
                assert(b + enc_ids(st, ids@, i as int).1 =~= buf@ + r.1);
            }
        }
        proof {
            assert(buf@ + enc_ids(self.state(), ids@, n as int).1 =~= buf@);
        }
    }

    /// Appends a counted list of values.
    pub(crate) fn encode_value_list(&mut self, values: &Vec<Value>, buf: &mut Vec<u8>)
        ensures
            final(self).state() == enc_value_list(old(self).state(), values@).0,
            final(buf)@ == old(buf)@ + enc_value_list(old(self).state(), values@).1,
    {
        push_u64_le(buf, values.len() as u64);
        self.encode_values(values, buf);
        proof {
            assert(buf@ =~= old(buf)@ + enc_value_list(old(self).state(), values@).1);
        }
    }

    /// Appends a counted list of ids.
    pub(crate) fn encode_id_list(&mut self, ids: &Vec<ValueId>, buf: &mut Vec<u8>)
        ensures
            final(self).state() == enc_id_list(old(self).state(), ids@).0,
            final(buf)@ == old(buf)@ + enc_id_list(old(self).state(), ids@).1,
    {
        push_u64_le(buf, ids.len() as u64);
        self.encode_ids(ids, buf);
        proof {
            assert(buf@ =~= old(buf)@ + enc_id_list(old(self).state(), ids@).1);
        }
    }
}

impl Canonicalizer {
    /// Appends the encodings of two values.
    pub(crate) fn encode_value2(&mut self, a: &Value, b: &Value, buf: &mut Vec<u8>)
        ensures
            final(self).state() == enc_value2(old(self).state(), *a, *b).0,
            final(buf)@ == old(buf)@ + enc_value2(old(self).state(), *a, *b).1,
    {
        self.encode_value(a, buf);
        self.encode_value(b, buf);
        proof {
            assert(buf@ =~= old(buf)@ + enc_value2(old(self).state(), *a, *b).1);
        }
    }

    /// Appends the encodings of three values.
    pub(crate) fn encode_value3(&mut self, a: &Value, b: &Value, c: &Value, buf: &mut Vec<u8>)
        ensures
            final(self).state() == enc_value3(old(self).state(), *a, *b, *c).0,
            final(buf)@ == old(buf)@ + enc_value3(old(self).state(), *a, *b, *c).1,
    {
        self.encode_value2(a, b, buf);
        self.encode_value(c, buf);
        proof {
            assert(buf@ =~= old(buf)@ + enc_value3(old(self).state(), *a, *b, *c).1);
        }
    }

    /// Appends a tag, then the encoding of one value.
    fn encode_tagged_value(&mut self, tag: u8, v: &Value, buf: &mut Vec<u8>)
        ensures
            final(self).state() == enc_value(old(self).state(), *v).0,
            final(buf)@ == old(buf)@ + seq![tag] + enc_value(old(self).state(), *v).1,
    {
        buf.push(tag);
        self.encode_value(v, buf);
        proof {
            assert(buf@ =~= old(buf)@ + seq![tag] + enc_value(old(self).state(), *v).1);
        }
    }

    /// Appends the encoding of an expression.
    pub fn encode_expression(&mut self, expression: &Expression, buf: &mut Vec<u8>)
        ensures
            final(self).state() == enc_expression(old(self).state(), *expression).0,
            final(buf)@ == old(buf)@ + enc_expression(old(self).state(), *expression).1,
    {
        let ghost st0 = self.state();
        let ghost b0 = buf@;
        match expression {
            Expression::Literal { value, value_type } => {
                buf.push(0x01);
                push_constant(buf, value);
                buf.push(type_tag(value_type));
            },
            Expression::Var(id) => {
                buf.push(0x02);
                self.encode_value_id(*id, buf);
            },
            Expression::Binary { operation, lhs, rhs } => {
                buf.push(0x03);
                buf.push(binop_tag(*operation));
                self.encode_value2(lhs, rhs, buf);
            },
            Expression::Ternary { operation, a, b, n } => {
                buf.push(0x04);
                buf.push(binop_tag(*operation));
                self.encode_value3(a, b, n, buf);
            },
            Expression::Unary { operation, operand } => {
                buf.push(0x05);
                buf.push(unaryop_tag(*operation));
                self.encode_value(operand, buf);
            },
            Expression::Call { function, arguments } => {
                buf.push(0x06);
                push_u32_le(buf, function.0);
                push_u64_le(buf, arguments.len() as u64);
                self.encode_values(arguments, buf);
            },
            Expression::CallDataLoad { offset } => self.encode_tagged_value(0x10, offset, buf),
            Expression::MLoad { offset, region } => {
                self.encode_tagged_value(0x11, offset, buf);
                buf.push(region_tag(region));
            },
            Expression::SLoad { key, static_slot } => {
                self.encode_tagged_value(0x12, key, buf);
                if let Some(slot) = static_slot {
                    buf.push(1);
                    push_constant(buf, slot);
                } else {
                    buf.push(0);
                }
            },
            Expression::TLoad { key } => self.encode_tagged_value(0x13, key, buf),
            Expression::Keccak256 { offset, length } => {
                buf.push(0x14);
                self.encode_value2(offset, length, buf);
            },
            Expression::Keccak256Pair { word0, word1 } => {
                buf.push(0x24);
                self.encode_value2(word0, word1, buf);
            },
            Expression::Keccak256Single { word0 } => self.encode_tagged_value(0x25, word0, buf),
            Expression::MappingSLoad { key, slot } => {
                buf.push(0x27);
                self.encode_value2(key, slot, buf);
            },
            Expression::Truncate { value, to } => {
                self.encode_tagged_value(0x15, value, buf);
                buf.push(bitwidth_tag(*to));
            },
            Expression::ZeroExtend { value, to } => {
                self.encode_tagged_value(0x16, value, buf);
                buf.push(bitwidth_tag(*to));
            },
            Expression::SignExtendTo { value, to } => {
                self.encode_tagged_value(0x17, value, buf);
                buf.push(bitwidth_tag(*to));
            },
            Expression::ExtCodeSize { address } => self.encode_tagged_value(0x20, address, buf),
            Expression::ExtCodeHash { address } => self.encode_tagged_value(0x21, address, buf),
            Expression::Balance { address } => self.encode_tagged_value(0x22, address, buf),
            Expression::BlockHash { number } => self.encode_tagged_value(0x23, number, buf),
            Expression::BlobHash { index } => self.encode_tagged_value(0x26, index, buf),
            Expression::DataOffset { id } => {
                buf.push(0x30);
                push_name(buf, id);
            },
            Expression::DataSize { id } => {
                buf.push(0x31);
                push_name(buf, id);
            },
            Expression::LoadImmutable { key } => {
                buf.push(0x32);
                push_name(buf, key);
            },
            Expression::LinkerSymbol { path } => {
                buf.push(0x33);
                push_name(buf, path);
            },
            _ => {
                buf.push(nullary_expr_tag(expression));
            },
        }
        proof {
            assert(buf@ =~= b0 + enc_expression(st0, *expression).1);
        }
    }
}

impl Canonicalizer {
    /// Appends the encodings of statements, in order.
    pub fn encode_statements(&mut self, statements: &Vec<Statement>, buf: &mut Vec<u8>)
        ensures
            final(self).state() == enc_statements(old(self).state(), statements@, 0).0,
            final(buf)@ == old(buf)@ + enc_statements(old(self).state(), statements@, 0).1,
        decreases statements@, 0int,
    {
        let n = statements.len();
        let ghost st0 = self.state();
        let ghost b0 = buf@;
        for i in 0..n
            invariant
                n == statements@.len(),
                enc_statements(st0, statements@, 0).0 == enc_statements(self.state(), statements@, i as int).0,
                b0 + enc_statements(st0, statements@, 0).1 == buf@ + enc_statements(
                    self.state(),
                    statements@,
                    i as int,
                ).1,
        {
            let ghost st = self.state();
            let ghost b = buf@;
            self.encode_statement(&statements[i], buf);
            proof {
                let r = enc_statements(self.state(), statements@, i + 1);
                assert(b + enc_statements(st, statements@, i as int).1 =~= buf@ + r.1);
            }
        }
        proof {
            assert(buf@ + enc_statements(self.state(), statements@, n as int).1 =~= buf@);
        }
    }

    /// Appends the encoding of a region.
    pub fn encode_region(&mut self, region: &Region, buf: &mut Vec<u8>)
        ensures
            final(self).state() == enc_region(old(self).state(), *region).0,
            final(buf)@ == old(buf)@ + enc_region(old(self).state(), *region).1,
        decreases *region, 0int,
    {
        push_u64_le(buf, region.statements.len() as u64);
        self.encode_statements(&region.statements, buf);
        self.encode_value_list(&region.yields, buf);
        proof {
            assert(buf@ =~= old(buf)@ + enc_region(old(self).state(), *region).1);
        }
    }

    /// Appends the encoding of an optional region.
    fn encode_option_region(&mut self, region: &Option<Region>, buf: &mut Vec<u8>)
        ensures
            final(self).state() == enc_option_region(old(self).state(), *region).0,
            final(buf)@ == old(buf)@ + enc_option_region(old(self).state(), *region).1,
        decreases *region, 0int,
    {
        match region {
            Some(r) => {
                buf.push(1);
                self.encode_region(r, buf);
            },
            None => {
                buf.push(0);
            },
        }
        proof {
            assert(buf@ =~= old(buf)@ + enc_option_region(old(self).state(), *region).1);
        }
    }

    /// Appends the encodings of switch cases, in order.
    fn encode_cases(&mut self, cases: &Vec<SwitchCase>, buf: &mut Vec<u8>)
        ensures
            final(self).state() == enc_cases(old(self).state(), cases@, 0).0,
            final(buf)@ == old(buf)@ + enc_cases(old(self).state(), cases@, 0).1,
        decreases cases@, 0int,
    {
        let n = cases.len();
        let ghost st0 = self.state();
        let ghost b0 = buf@;
        for i in 0..n
            invariant
                n == cases@.len(),
                enc_cases(st0, cases@, 0).0 == enc_cases(self.state(), cases@, i as int).0,
                b0 + enc_cases(st0, cases@, 0).1 == buf@ + enc_cases(self.state(), cases@, i as int).1,
        {
            let ghost st = self.state();
            let ghost b = buf@;
            push_constant(buf, &cases[i].value);
            self.encode_region(&cases[i].body, buf);
            proof {
                let r = enc_cases(self.state(), cases@, i + 1);
                assert(b + enc_cases(st, cases@, i as int).1 =~= buf@ + r.1);
            }
        }
        proof {
            assert(buf@ + enc_cases(self.state(), cases@, n as int).1 =~= buf@);
        }
    }

    /// Appends the encoding of an optional value.
    fn encode_option_value(&mut self, value: &Option<Value>, buf: &mut Vec<u8>)
        ensures
            final(self).state() == enc_option_value(old(self).state(), *value).0,
            final(buf)@ == old(buf)@ + enc_option_value(old(self).state(), *value).1,
    {
        match value {
            Some(v) => {
                buf.push(1);
                self.encode_value(v, buf);
            },
            None => {
                buf.push(0);
            },
        }
        proof {
            assert(buf@ =~= old(buf)@ + enc_option_value(old(self).state(), *value).1);
        }
    }

    /// Appends the big-endian bytes of each word.
    fn encode_words(&self, words: &Vec<Uint>, buf: &mut Vec<u8>)
        ensures
            final(buf)@ == old(buf)@ + words_be(words@, 0),
    {
        let n = words.len();
        let ghost b0 = buf@;
        for i in 0..n
            invariant
                n == words@.len(),
                b0 + words_be(words@, 0) == buf@ + words_be(words@, i as int),
        {
            let ghost b = buf@;
            let bytes = uint_to_bytes_be(&words[i]);
            push_counted(buf, bytes.as_slice());
            proof {
                assert(b + words_be(words@, i as int) =~= buf@ + words_be(words@, i + 1));
            }
        }
        proof {
            assert(buf@ + words_be(words@, n as int) =~= buf@);
        }
    }

    /// Appends the encoding of a `for` statement.
    #[verifier::spinoff_prover]
    #[verifier::rlimit(60)]
    fn encode_for_statement(&mut self, statement: &Statement, buf: &mut Vec<u8>)
        requires
            statement is For,
        ensures
            final(self).state() == enc_statement(old(self).state(), *statement).0,
            final(buf)@ == old(buf)@ + enc_statement(old(self).state(), *statement).1,
        decreases *statement, 0int,
    {
        let ghost st0 = self.state();
        let ghost b0 = buf@;
        match statement {
            Statement::For {
                initial_values,
                loop_variables,
                condition_statements,
                condition,
                body,
                post_input_variables,
                post,
                outputs,
            } => {
                buf.push(0x88);
                self.encode_value_list(initial_values, buf);
                self.encode_id_list(loop_variables, buf);
                push_u64_le(buf, condition_statements.len() as u64);
                self.encode_statements(condition_statements, buf);
                self.encode_expression(condition, buf);
                self.encode_region(body, buf);
                self.encode_id_list(post_input_variables, buf);
                self.encode_region(post, buf);
                self.encode_id_list(outputs, buf);
                proof {
                    assert(buf@ =~= b0 + enc_statement(st0, *statement).1);
                }
            },
            _ => {},
        }
    }

    /// Appends the encoding of a statement with nested regions.
    #[verifier::spinoff_prover]
    fn encode_control_statement(&mut self, statement: &Statement, buf: &mut Vec<u8>)
        requires
            statement is If || statement is Switch || statement is For,
        ensures
            final(self).state() == enc_statement(old(self).state(), *statement).0,
            final(buf)@ == old(buf)@ + enc_statement(old(self).state(), *statement).1,
        decreases *statement, 1int,
    {
        let ghost st0 = self.state();
        let ghost b0 = buf@;
        match statement {
            Statement::If { condition, inputs, then_region, else_region, outputs } => {
                buf.push(0x86);
                self.encode_value(condition, buf);
                self.encode_value_list(inputs, buf);
                self.encode_region(then_region, buf);
                self.encode_option_region(else_region, buf);
                self.encode_id_list(outputs, buf);
                proof {
                    assert(buf@ =~= b0 + enc_statement(st0, *statement).1);
                }
            },
            Statement::Switch { scrutinee, inputs, cases, default, outputs } => {
                buf.push(0x87);
                self.encode_value(scrutinee, buf);
                self.encode_value_list(inputs, buf);
                push_u64_le(buf, cases.len() as u64);
                self.encode_cases(cases, buf);
                self.encode_option_region(default, buf);
                self.encode_id_list(outputs, buf);
                proof {
                    assert(buf@ =~= b0 + enc_statement(st0, *statement).1);
                }
            },
            Statement::For { .. } => self.encode_for_statement(statement, buf),
            _ => {},
        }
    }

    /// Appends the encoding of a statement with effects on storage, memory or other accounts.
    #[verifier::spinoff_prover]
    fn encode_effect_statement(&mut self, statement: &Statement, buf: &mut Vec<u8>)
        requires
            statement is MCopy || statement is SStore || statement is TStore || statement is MappingSStore || statement is ErrorStringRevert || statement is CustomErrorRevert || statement is ExternalCall || statement is Create || statement is Log || statement is CodeCopy || statement is ExtCodeCopy || statement is ReturnDataCopy || statement is DataCopy || statement is CallDataCopy || statement is SetImmutable,
        ensures
            final(self).state() == enc_statement(old(self).state(), *statement).0,
            final(buf)@ == old(buf)@ + enc_statement(old(self).state(), *statement).1,
        decreases *statement, 0int,
    {
        let ghost st0 = self.state();
        let ghost b0 = buf@;
        match statement {
            Statement::MCopy { dest, src, length } => {
                buf.push(0x83);
                self.encode_value3(dest, src, length, buf);
                proof {
                    assert(buf@ =~= b0 + enc_statement(st0, *statement).1);
                }
            },
            Statement::SStore { key, value, static_slot } => {
                buf.push(0x84);
                self.encode_value2(key, value, buf);
                if let Some(slot) = static_slot {
                    buf.push(1);
                    push_constant(buf, slot);
                } else {
                    buf.push(0);
                }
                proof {
                    assert(buf@ =~= b0 + enc_statement(st0, *statement).1);
                }
            },
            Statement::TStore { key, value } => {
                buf.push(0x85);
                self.encode_value2(key, value, buf);
                proof {
                    assert(buf@ =~= b0 + enc_statement(st0, *statement).1);
                }
            },
            Statement::MappingSStore { key, slot, value } => {
                buf.push(0xA5);
                self.encode_value3(key, slot, value, buf);
                proof {
                    assert(buf@ =~= b0 + enc_statement(st0, *statement).1);
                }
            },
            Statement::ErrorStringRevert { length, data } => {
                buf.push(0xA3);
                buf.push(*length);
                push_u64_le(buf, data.len() as u64);
                self.encode_words(data, buf);
                proof {
                    assert(buf@ =~= b0 + enc_statement(st0, *statement).1);
                }
            },
            Statement::CustomErrorRevert { selector, arguments } => {
                buf.push(0xA4);
                push_u64_le(buf, arguments.len() as u64);
                let bytes = uint_to_bytes_be(selector);
                push_counted(buf, bytes.as_slice());
                self.encode_values(arguments, buf);
                proof {
                    assert(buf@ =~= b0 + enc_statement(st0, *statement).1);
                }
            },
            Statement::ExternalCall {
                kind,
                gas,
                address,
                value,
                args_offset,
                args_length,
                ret_offset,
                ret_length,
                result,
            } => {
                buf.push(0x94);
                buf.push(callkind_tag(*kind));
                self.encode_value2(gas, address, buf);
                self.encode_option_value(value, buf);
                self.encode_value2(args_offset, args_length, buf);
                self.encode_value2(ret_offset, ret_length, buf);
                self.encode_value_id(*result, buf);
                proof {
                    assert(buf@ =~= b0 + enc_statement(st0, *statement).1);
                }
            },
            Statement::Create { kind, value, offset, length, salt, result } => {
                buf.push(0x95);
                buf.push(createkind_tag(*kind));
                self.encode_value3(value, offset, length, buf);
                self.encode_option_value(salt, buf);
                self.encode_value_id(*result, buf);
                proof {
                    assert(buf@ =~= b0 + enc_statement(st0, *statement).1);
                }
            },
            Statement::Log { offset, length, topics } => {
                buf.push(0x96);
                self.encode_value2(offset, length, buf);
                self.encode_value_list(topics, buf);
                proof {
                    assert(buf@ =~= b0 + enc_statement(st0, *statement).1);
                }
            },
            Statement::CodeCopy { dest, offset, length } => {
                buf.push(0x97);
                self.encode_value3(dest, offset, length, buf);
                proof {
                    assert(buf@ =~= b0 + enc_statement(st0, *statement).1);
                }
            },
            Statement::ExtCodeCopy { address, dest, offset, length } => {
                buf.push(0x98);
                self.encode_value3(address, dest, offset, buf);
                self.encode_value(length, buf);
                proof {
                    assert(buf@ =~= b0 + enc_statement(st0, *statement).1);
                }
            },
            Statement::ReturnDataCopy { dest, offset, length } => {
                buf.push(0x99);
                self.encode_value3(dest, offset, length, buf);
                proof {
                    assert(buf@ =~= b0 + enc_statement(st0, *statement).1);
                }
            },
            Statement::DataCopy { dest, offset, length } => {
                buf.push(0x9A);
                self.encode_value3(dest, offset, length, buf);
                proof {
                    assert(buf@ =~= b0 + enc_statement(st0, *statement).1);
                }
            },
            Statement::CallDataCopy { dest, offset, length } => {
                buf.push(0x9B);
                self.encode_value3(dest, offset, length, buf);
                proof {
                    assert(buf@ =~= b0 + enc_statement(st0, *statement).1);
                }
            },
            Statement::SetImmutable { key, value } => {
                buf.push(0x9C);
                push_name(buf, key);
                self.encode_value(value, buf);
                proof {
                    assert(buf@ =~= b0 + enc_statement(st0, *statement).1);
                }
            },
            _ => {},
        }
    }

    /// Appends the encoding of a statement.
    #[verifier::spinoff_prover]
    pub fn encode_statement(&mut self, statement: &Statement, buf: &mut Vec<u8>)
        ensures
            final(self).state() == enc_statement(old(self).state(), *statement).0,
            final(buf)@ == old(buf)@ + enc_statement(old(self).state(), *statement).1,
        decreases *statement, 2int,
    {
        let ghost st0 = self.state();
        let ghost b0 = buf@;
        match statement {
            Statement::If { .. } | Statement::Switch { .. } | Statement::For { .. } => self.encode_control_statement(statement, buf),
            Statement::MCopy { .. } | Statement::SStore { .. } | Statement::TStore { .. } | Statement::MappingSStore { .. } | Statement::ErrorStringRevert { .. } | Statement::CustomErrorRevert { .. } | Statement::ExternalCall { .. } | Statement::Create { .. } | Statement::Log { .. } | Statement::CodeCopy { .. } | Statement::ExtCodeCopy { .. } | Statement::ReturnDataCopy { .. } | Statement::DataCopy { .. } | Statement::CallDataCopy { .. } | Statement::SetImmutable { .. } => self.encode_effect_statement(statement, buf),
            Statement::Let { bindings, value } => {
                buf.push(0x80);
                self.encode_id_list(bindings, buf);
                self.encode_expression(value, buf);
                proof {
                    assert(buf@ =~= b0 + enc_statement(st0, *statement).1);
                }
            },
            Statement::MStore { offset, value, region } => {
                buf.push(0x81);
                self.encode_value2(offset, value, buf);
                buf.push(region_tag(region));
                proof {
                    assert(buf@ =~= b0 + enc_statement(st0, *statement).1);
                }
            },
            Statement::MStore8 { offset, value, region } => {
                buf.push(0x82);
                self.encode_value2(offset, value, buf);
                buf.push(region_tag(region));
                proof {
                    assert(buf@ =~= b0 + enc_statement(st0, *statement).1);
                }
            },
            Statement::Block(region) => {
                buf.push(0x89);
                self.encode_region(region, buf);
                proof {
                    assert(buf@ =~= b0 + enc_statement(st0, *statement).1);
                }
            },
            Statement::Revert { offset, length } => {
                buf.push(0x90);
                self.encode_value2(offset, length, buf);
                proof {
                    assert(buf@ =~= b0 + enc_statement(st0, *statement).1);
                }
            },
            Statement::Return { offset, length } => {
                buf.push(0x91);
                self.encode_value2(offset, length, buf);
                proof {
                    assert(buf@ =~= b0 + enc_statement(st0, *statement).1);
                }
            },
            Statement::Stop => {
                buf.push(0x92);
                proof {
                    assert(buf@ =~= b0 + enc_statement(st0, *statement).1);
                }
            },
            Statement::Invalid => {
                buf.push(0x93);
                proof {
                    assert(buf@ =~= b0 + enc_statement(st0, *statement).1);
                }
            },
            Statement::PanicRevert { code } => {
                buf.push(0xA2);
                buf.push(*code);
                proof {
                    assert(buf@ =~= b0 + enc_statement(st0, *statement).1);
                }
            },
            Statement::Leave { return_values } => {
                buf.push(0x9D);
                self.encode_value_list(return_values, buf);
                proof {
                    assert(buf@ =~= b0 + enc_statement(st0, *statement).1);
                }
            },
            Statement::Expression(expression) => {
                buf.push(0x9E);
                self.encode_expression(expression, buf);
                proof {
                    assert(buf@ =~= b0 + enc_statement(st0, *statement).1);
                }
            },
            Statement::SelfDestruct { address } => {
                self.encode_tagged_value(0x9F, address, buf);
                proof {
                    assert(buf@ =~= b0 + enc_statement(st0, *statement).1);
                }
            },
            Statement::Break { values } => {
                buf.push(0xA0);
                self.encode_value_list(values, buf);
                proof {
                    assert(buf@ =~= b0 + enc_statement(st0, *statement).1);
                }
            },
            Statement::Continue { values } => {
                buf.push(0xA1);
                self.encode_value_list(values, buf);
                proof {
                    assert(buf@ =~= b0 + enc_statement(st0, *statement).1);
                }
            },
        }
    }
}

/// Distinct binary operations have distinct tags.
pub proof fn law_binop_codes_distinct(a: BinaryOperation, b: BinaryOperation)
    requires
        a != b,
    ensures
        binop_code(a) != binop_code(b),
{
    match a {
        BinaryOperation::Add => assert(binop_code(a) == 0),
        BinaryOperation::Sub => assert(binop_code(a) == 1),
        BinaryOperation::Mul => assert(binop_code(a) == 2),
        BinaryOperation::Div => assert(binop_code(a) == 3),
        BinaryOperation::SDiv => assert(binop_code(a) == 4),
        BinaryOperation::Mod => assert(binop_code(a) == 5),
        BinaryOperation::SMod => assert(binop_code(a) == 6),
        BinaryOperation::Exp => assert(binop_code(a) == 7),
        BinaryOperation::AddMod => assert(binop_code(a) == 8),
        BinaryOperation::MulMod => assert(binop_code(a) == 9),
        BinaryOperation::And => assert(binop_code(a) == 10),
        BinaryOperation::Or => assert(binop_code(a) == 11),
        BinaryOperation::Xor => assert(binop_code(a) == 12),
        BinaryOperation::Shl => assert(binop_code(a) == 13),
        BinaryOperation::Shr => assert(binop_code(a) == 14),
        BinaryOperation::Sar => assert(binop_code(a) == 15),
        BinaryOperation::Lt => assert(binop_code(a) == 16),
        BinaryOperation::Gt => assert(binop_code(a) == 17),
        BinaryOperation::Slt => assert(binop_code(a) == 18),
        BinaryOperation::Sgt => assert(binop_code(a) == 19),
        BinaryOperation::Eq => assert(binop_code(a) == 20),
        BinaryOperation::Byte => assert(binop_code(a) == 21),
        BinaryOperation::SignExtend => assert(binop_code(a) == 22),
    }
}

/// Distinct unary operations have distinct tags.
pub proof fn law_unaryop_codes_distinct(a: UnaryOperation, b: UnaryOperation)
    requires
        a != b,
    ensures
        unaryop_code(a) != unaryop_code(b),
{
}

/// Binary expressions over different operations never encode alike, whatever
/// their operands and the ids numbered so far.
pub proof fn law_binary_encodings_tell_operations_apart(st1: CanonState, st2: CanonState, e1: Expression, e2: Expression)
    requires
        e1 is Binary,
        e2 is Binary,
        e1->Binary_operation != e2->Binary_operation,
    ensures
        enc_expression(st1, e1).1 != enc_expression(st2, e2).1,
{
    law_binop_codes_distinct(e1->Binary_operation, e2->Binary_operation);
    let x = enc_expression(st1, e1).1;
    let y = enc_expression(st2, e2).1;
    assert(x[1] == binop_code(e1->Binary_operation));
    assert(y[1] == binop_code(e2->Binary_operation));
}

/// Unary expressions over different operations never encode alike.
pub proof fn law_unary_encodings_tell_operations_apart(st1: CanonState, st2: CanonState, e1: Expression, e2: Expression)
    requires
        e1 is Unary,
        e2 is Unary,
        e1->Unary_operation != e2->Unary_operation,
    ensures
        enc_expression(st1, e1).1 != enc_expression(st2, e2).1,
{
    law_unaryop_codes_distinct(e1->Unary_operation, e2->Unary_operation);
    let x = enc_expression(st1, e1).1;
    let y = enc_expression(st2, e2).1;
    assert(x[1] == unaryop_code(e1->Unary_operation));
    assert(y[1] == unaryop_code(e2->Unary_operation));
}

/// Distinct types have distinct tags, so functions with different signatures
/// never share a canonical encoding.
pub proof fn law_type_codes_distinct(a: Type, b: Type)
    requires
        a != b,
    ensures
        type_code(a) != type_code(b),
{
}

/// Distinct memory regions have distinct tags.
pub proof fn law_region_codes_distinct(a: MemoryRegion, b: MemoryRegion)
    requires
        a != b,
    ensures
        region_code(a) != region_code(b),
{
}

/// Distinct call kinds have distinct tags.
pub proof fn law_callkind_codes_distinct(a: CallKind, b: CallKind)
    requires
        a != b,
    ensures
        callkind_code(a) != callkind_code(b),
{
}

/// Distinct create kinds have distinct tags.
pub proof fn law_createkind_codes_distinct(a: CreateKind, b: CreateKind)
    requires
        a != b,
    ensures
        createkind_code(a) != createkind_code(b),
{
}

} // verus!
