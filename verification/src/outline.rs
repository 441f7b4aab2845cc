//! Outlining of Solidity revert patterns.
//!
//! Solidity reverts with `Panic(uint256)` by storing the selector word at
//! offset 0 and the code at offset 4 and reverting with the 0x24 bytes at 0; it
//! reverts with a custom error by storing the selector word at 0 and each
//! argument at `4 + 32 * i`. Such windows collapse into `PanicRevert` and
//! `CustomErrorRevert` statements, but only where the revert data would be
//! exactly the canonical payload: every payload store is the last write to its
//! offset and nothing else in the window writes inside the reverted range or has
//! an effect.

use crate::ir::{BitWidth, Expression, Statement, Type, Value, ValueId};
use crate::keccak_fold::constants_view;
use crate::uint::{two_pow, uint_add, uint_eq, uint_from_u64, uint_shl, uint_to_u64, Uint};
use std::collections::{BTreeMap, BTreeSet};
use vstd::prelude::*;

verus! {

/// Whether evaluating an expression may have an effect or depend on state that
/// statements change: internal calls, hashes of memory, and memory and storage
/// reads.
pub open spec fn has_side_effects(e: Expression) -> bool {
    match e {
        Expression::Call { .. }
        | Expression::Keccak256 { .. }
        | Expression::Keccak256Pair { .. }
        | Expression::Keccak256Single { .. }
        | Expression::MLoad { .. }
        | Expression::SLoad { .. }
        | Expression::TLoad { .. }
        | Expression::MappingSLoad { .. }
        | Expression::MSize => true,
        _ => false,
    }
}

/// Returns whether an expression may have a side effect.
pub fn expr_has_side_effects(expression: &Expression) -> (r: bool)
    ensures
        r == has_side_effects(*expression),
{
    match expression {
        Expression::Call { .. }
        | Expression::Keccak256 { .. }
        | Expression::Keccak256Pair { .. }
        | Expression::Keccak256Single { .. }
        | Expression::MLoad { .. }
        | Expression::SLoad { .. }
        | Expression::TLoad { .. }
        | Expression::MappingSLoad { .. }
        | Expression::MSize => true,
        _ => false,
    }
}

/// Whether a statement never falls through.
pub open spec fn terminates(s: Statement) -> bool {
    match s {
        Statement::Revert { .. }
        | Statement::Return { .. }
        | Statement::Stop
        | Statement::Invalid
        | Statement::PanicRevert { .. }
        | Statement::ErrorStringRevert { .. }
        | Statement::CustomErrorRevert { .. }
        | Statement::Leave { .. }
        | Statement::SelfDestruct { .. } => true,
        _ => false,
    }
}

/// Returns whether a statement is a control-flow terminator (no fall-through).
pub fn is_terminator(statement: &Statement) -> (r: bool)
    ensures
        r == terminates(*statement),
{
    match statement {
        Statement::Revert { .. }
        | Statement::Return { .. }
        | Statement::Stop
        | Statement::Invalid
        | Statement::PanicRevert { .. }
        | Statement::ErrorStringRevert { .. }
        | Statement::CustomErrorRevert { .. }
        | Statement::Leave { .. }
        | Statement::SelfDestruct { .. } => true,
        _ => false,
    }
}

/// Whether `id` is known to hold `v`.
pub open spec fn const_is(c: Map<u32, nat>, id: u32, v: nat) -> bool {
    c.contains_key(id) && c[id] == v
}

/// Returns whether `id` is known to hold `expected`.
fn is_const_value(id: ValueId, expected: u64, constants: &BTreeMap<u32, Uint>) -> (r: bool)
    ensures
        r == const_is(constants_view(constants@), id.0, expected as nat),
{
    match constants.get(&id.0) {
        Some(v) => {
            let e = uint_from_u64(expected);
            uint_eq(v, &e)
        },
        None => false,
    }
}

/// The 64 lowercase hex digits of the word that holds the `Panic(uint256)` selector.
pub open spec fn panic_selector_hex() -> Seq<char> {
    "4e487b7100000000000000000000000000000000000000000000000000000000"@
}

/// `revive_common::PANIC_UINT256_SELECTOR_WORD_HEX`: the 64 hex digits of the
/// 32-byte word holding the `Panic(uint256)` selector in its high-order bytes.
#[verifier::external_body]
fn panic_selector_word_hex() -> (r: &'static str)
    ensures
        r@ == panic_selector_hex(),
{
    revive_common::PANIC_UINT256_SELECTOR_WORD_HEX
}

/// The value of a lowercase hex digit.
pub open spec fn hex_digit(c: char) -> Option<nat> {
    if '0' <= c && c <= '9' {
        Some((c as nat - '0' as nat) as nat)
    } else if 'a' <= c && c <= 'f' {
        Some((c as nat - 'a' as nat + 10) as nat)
    } else {
        None
    }
}

/// The value of a string of lowercase hex digits, if it is one.
pub open spec fn hex_value(s: Seq<char>) -> Option<nat>
    decreases s.len(),
{
    if s.len() == 0 {
        Some(0)
    } else {
        match (hex_value(s.drop_last()), hex_digit(s.last())) {
            (Some(v), Some(d)) => Some(v * 16 + d),
            _ => None,
        }
    }
}

/// Reads a string of lowercase hex digits.
fn parse_hex(s: &str) -> (r: Option<Uint>)
    ensures
        match hex_value(s@) {
            Some(v) => r matches Some(u) && u@ == v,
            None => r is None,
        },
{
    let n = s.unicode_len();
    let mut acc = uint_from_u64(0);
    let mut i: usize = 0;
    while i < n
        invariant
            n == s@.len(),
            i <= n,
            hex_value(s@.subrange(0, i as int)) == Some(acc@),
        decreases n - i,
    {
        let c = s.get_char(i);
        let d: u64 = if '0' <= c && c <= '9' {
            (c as u64) - ('0' as u64)
        } else if 'a' <= c && c <= 'f' {
            (c as u64) - ('a' as u64) + 10
        } else {
            proof {
                assert(s@.subrange(0, i + 1).drop_last() =~= s@.subrange(0, i as int));
                assert(s@.subrange(0, i + 1).last() == c);
                lemma_hex_prefix_none(s@, (i + 1) as int);
            }
            return None;
        };
        let shifted = uint_shl(&acc, 4);
        let digit = uint_from_u64(d);
        acc = uint_add(&shifted, &digit);
        proof {
            assert(s@.subrange(0, i + 1).drop_last() =~= s@.subrange(0, i as int));
            assert(s@.subrange(0, i + 1).last() == c);
            assert(two_pow(4) == 16) by {
                reveal_with_fuel(two_pow, 5);
            }
        }
        i = i + 1;
    }
    proof {
        assert(s@.subrange(0, n as int) =~= s@);
    }
    Some(acc)
}

proof fn lemma_hex_prefix_none(s: Seq<char>, i: int)
    requires
        0 < i <= s.len(),
        hex_value(s.subrange(0, i)) is None,
    ensures
        hex_value(s) is None,
    decreases s.len() - i,
{
    if i < s.len() {
        assert(s.subrange(0, i + 1).drop_last() =~= s.subrange(0, i));
        lemma_hex_prefix_none(s, i + 1);
    } else {
        assert(s.subrange(0, i) =~= s);
    }
}

/// Whether `v` is the word whose 64 hex digits are the panic selector word's:
/// the word that holds the `Panic(uint256)` selector.
fn is_panic_selector_word(v: &Uint) -> (r: bool)
    ensures
        r == (hex_value(panic_selector_hex()) == Some(v@)),
{
    match parse_hex(panic_selector_word_hex()) {
        Some(w) => uint_eq(v, &w),
        None => false,
    }
}

/// Whether a statement may be dropped when a panic window collapses: a store
/// at offset 0, at offset 4 or at or past 0x24, or a binding or expression
/// without side effects.
pub open spec fn window_droppable(c: Map<u32, nat>, s: Statement) -> bool {
    match s {
        Statement::MStore { offset, .. } => const_is(c, offset.id.0, 0) || const_is(c, offset.id.0, 4) || (
        c.contains_key(offset.id.0) && 0x24 <= c[offset.id.0] <= u64::MAX),
        Statement::Let { value, .. } => !has_side_effects(value),
        Statement::Expression(value) => !has_side_effects(value),
        _ => false,
    }
}

fn panic_window_droppable(statement: &Statement, constants: &BTreeMap<u32, Uint>) -> (r: bool)
    ensures
        r == window_droppable(constants_view(constants@), *statement),
{
    match statement {
        Statement::MStore { offset, .. } => {
            if is_const_value(offset.id, 0, constants) || is_const_value(offset.id, 4, constants) {
                true
            } else {
                match constants.get(&offset.id.0) {
                    Some(v) => match uint_to_u64(v) {
                        Some(o) => o >= 0x24,
                        None => false,
                    },
                    None => false,
                }
            }
        },
        Statement::Let { value, .. } => !expr_has_side_effects(value),
        Statement::Expression(value) => !expr_has_side_effects(value),
        _ => false,
    }
}

/// Whether a statement is a store to the known constant offset `offset`.
pub open spec fn stores_at(c: Map<u32, nat>, s: Statement, offset: nat) -> bool {
    s matches Statement::MStore { offset: o, .. } && const_is(c, o.id.0, offset)
}

/// Whether any of `statements[start..]` stores to the known constant offset `offset`.
fn any_mstore_to_offset(statements: &Vec<Statement>, start: usize, offset: u64, constants: &BTreeMap<u32, Uint>) -> (r: bool)
    ensures
        r == exists|k: int|
            start <= k < statements@.len() && stores_at(constants_view(constants@), #[trigger] statements@[k], offset as nat),
{
    let mut k = start;
    while k < statements.len()
        invariant
            start <= k,
            forall|m: int|
                start <= m < k && m < statements@.len() ==> !stores_at(
                    constants_view(constants@),
                    #[trigger] statements@[m],
                    offset as nat,
                ),
        decreases statements@.len() - k,
    {
        if let Statement::MStore { offset: o, .. } = &statements[k] {
            if is_const_value(o.id, offset, constants) {
                proof {
                    assert(stores_at(constants_view(constants@), statements@[k as int], offset as nat));
                }
                return true;
            }
        }
        k = k + 1;
    }
    false
}

/// `j` starts a panic window of `s` that ends at its end with code `code`: a
/// store of the selector word at offset 0 at `j` and of `code` at offset 4 at a
/// later `m`, both the last stores to their offsets, and every statement from
/// `j` on droppable.
pub open spec fn panic_window(c: Map<u32, nat>, s: Seq<Statement>, j: int, code: u8) -> bool {
    &&& 0 <= j < s.len()
    &&& s[j] matches Statement::MStore { offset, value, .. } && const_is(c, offset.id.0, 0) && c.contains_key(
        value.id.0,
    ) && hex_value(panic_selector_hex()) == Some(c[value.id.0])
    &&& forall|k: int| j <= k < s.len() ==> window_droppable(c, #[trigger] s[k])
    &&& forall|k: int| j < k < s.len() ==> !stores_at(c, #[trigger] s[k], 0)
    &&& exists|m: int|
        j < m < s.len() && (#[trigger] s[m] matches Statement::MStore { offset, value, .. } && const_is(
            c,
            offset.id.0,
            4,
        ) && const_is(c, value.id.0, code as nat)) && forall|k: int| m < k < s.len() ==> !stores_at(
            c,
            #[trigger] s[k],
            4,
        )
}

/// Scanning back from `end` over bindings and expression statements, the
/// index of the first statement that is neither, where it lies at or after
/// `limit`.
pub open spec fn scan_back(s: Seq<Statement>, end: int, limit: int) -> Option<int>
    decreases end - limit,
{
    if end <= limit || end <= 0 || end > s.len() {
        None
    } else if s[end - 1] is Let || s[end - 1] is Expression {
        scan_back(s, end - 1, limit)
    } else {
        Some(end - 1)
    }
}

/// Ten statements back from `end`, or the start.
pub open spec fn ten_back(end: int) -> int {
    if end >= 10 {
        end - 10
    } else {
        0
    }
}

/// What the backward search for the panic pattern finds in `s`: the nearest
/// statement at most ten back from the end, scanning over bindings and
/// expressions, must store a code below 256 at offset 4; the nearest one at
/// most ten back from that store must store the panic selector at offset 0,
/// with every statement from it on droppable, no later store at 0 and no store
/// at 4 after the first store.
pub open spec fn panic_search(c: Map<u32, nat>, s: Seq<Statement>) -> Option<(int, u8)> {
    if s.len() < 2 {
        None
    } else {
        match scan_back(s, s.len() as int, ten_back(s.len() as int)) {
            Some(m) => if s[m] is MStore && const_is(c, s[m]->MStore_offset.id.0, 4) && c.contains_key(
                s[m]->MStore_value.id.0,
            ) && c[s[m]->MStore_value.id.0] < 256 {
                match scan_back(s, m, ten_back(m)) {
                    Some(j) => if s[j] is MStore && const_is(c, s[j]->MStore_offset.id.0, 0) && c.contains_key(
                        s[j]->MStore_value.id.0,
                    ) && hex_value(panic_selector_hex()) == Some(c[s[j]->MStore_value.id.0]) && (forall|q: int|
                        j <= q < s.len() ==> window_droppable(c, #[trigger] s[q])) && !(exists|k: int|
                        j + 1 <= k < s.len() && stores_at(c, #[trigger] s[k], 0)) && !(exists|k: int|
                        m + 1 <= k < s.len() && stores_at(c, #[trigger] s[k], 4)) {
                        Some((j, c[s[m]->MStore_value.id.0] as u8))
                    } else {
                        None
                    },
                    None => None,
                }
            } else {
                None
            },
            None => None,
        }
    }
}

/// The search result with its index as an integer.
pub open spec fn found_at(r: Option<(usize, u8)>) -> Option<(int, u8)> {
    match r {
        Some((j, code)) => Some((j as int, code)),
        None => None,
    }
}

/// Scans back from `end` over bindings and expression statements to the
/// first statement that is neither, at or after `limit`.
fn scan_back_from(statements: &Vec<Statement>, end: usize, limit: usize) -> (r: Option<usize>)
    requires
        end <= statements@.len(),
    ensures
        match r {
            Some(i) => scan_back(statements@, end as int, limit as int) == Some(i as int),
            None => scan_back(statements@, end as int, limit as int) is None,
        },
{
    let mut j = end;
    while j > limit
        invariant
            j <= end,
            end <= statements@.len(),
            scan_back(statements@, end as int, limit as int) == scan_back(statements@, j as int, limit as int),
        decreases j,
    {
        match &statements[j - 1] {
            Statement::Let { .. } | Statement::Expression(..) => {},
            _ => return Some(j - 1),
        }
        j = j - 1;
    }
    None
}

/// Looks backwards from the end of `statements` for the panic pattern:
/// `mstore(0, selector)`, bindings, `mstore(4, code)`, bindings. Only a code
/// that fits in a byte is taken: the high bits of a larger code would be part
/// of the revert data.
pub fn find_panic_pattern_backwards(statements: &Vec<Statement>, constants: &BTreeMap<u32, Uint>) -> (r: Option<(usize, u8)>)
    ensures
        found_at(r) == panic_search(constants_view(constants@), statements@),
        r matches Some((j, code)) ==> panic_window(constants_view(constants@), statements@, j as int, code),
{
    let ghost c = constants_view(constants@);
    let ghost s = statements@;
    let len = statements.len();
    if len < 2 {
        return None;
    }
    let limit = if len >= 10 {
        len - 10
    } else {
        0
    };
    let m = match scan_back_from(statements, len, limit) {
        Some(m) => m,
        None => return None,
    };
    proof {
        lemma_scan_back_range(s, len as int, limit as int);
    }
    let code: u8 = match &statements[m] {
        Statement::MStore { offset, value, .. } => {
            if !is_const_value(offset.id, 4, constants) {
                return None;
            }
            match constants.get(&value.id.0) {
                Some(code_val) => match uint_to_u64(code_val) {
                    Some(code) => {
                        if code < 256 {
                            proof {
                                assert(c.contains_key(value.id.0) && c[value.id.0] == code_val@);
                            }
                            code as u8
                        } else {
                            return None;
                        }
                    },
                    None => return None,
                },
                None => return None,
            }
        },
        _ => return None,
    };
    let limit2 = if m >= 10 {
        m - 10
    } else {
        0
    };
    let idx = match scan_back_from(statements, m, limit2) {
        Some(i) => i,
        None => return None,
    };
    proof {
        lemma_scan_back_range(s, m as int, limit2 as int);
    }
    match &statements[idx] {
        Statement::MStore { offset, value, .. } => {
            if !is_const_value(offset.id, 0, constants) {
                return None;
            }
            let sel = match constants.get(&value.id.0) {
                Some(sel) => sel,
                None => return None,
            };
            if !is_panic_selector_word(sel) {
                return None;
            }
            proof {
                assert(c.contains_key(value.id.0) && c[value.id.0] == sel@);
            }
            let mut all_droppable = true;
            let mut k = idx;
            while k < len
                invariant
                    c == constants_view(constants@),
                    idx <= k <= len,
                    len == statements@.len(),
                    all_droppable == forall|q: int| idx <= q < k ==> window_droppable(c, #[trigger] statements@[q]),
                decreases len - k,
            {
                if !panic_window_droppable(&statements[k], constants) {
                    all_droppable = false;
                }
                k = k + 1;
            }
            if all_droppable && !any_mstore_to_offset(statements, idx + 1, 0, constants) && !any_mstore_to_offset(
                statements,
                m + 1,
                4,
                constants,
            ) {
                proof {
                    lemma_scan_back_range(s, len as int, limit as int);
                    lemma_scan_back_range(s, m as int, limit2 as int);
                    let mm = m as int;
                    assert(idx < mm < s.len());
                    assert(forall|k: int| idx < k < s.len() ==> !stores_at(c, #[trigger] s[k], 0));
                    assert(forall|k: int| mm < k < s.len() ==> !stores_at(c, #[trigger] s[k], 4));
                }
                Some((idx, code))
            } else {
                None
            }
        },
        _ => None,
    }
}

proof fn lemma_scan_back_range(s: Seq<Statement>, end: int, limit: int)
    ensures
        scan_back(s, end, limit) matches Some(i) ==> limit <= i < end && 0 <= i < s.len(),
    decreases end - limit,
{
    if !(end <= limit || end <= 0 || end > s.len()) && (s[end - 1] is Let || s[end - 1] is Expression) {
        lemma_scan_back_range(s, end - 1, limit);
    }
}

/// Whether a statement list holds a `revert`.
pub open spec fn has_revert(s: Seq<Statement>) -> bool {
    exists|i: int| 0 <= i < s.len() && #[trigger] s[i] is Revert
}

fn contains_revert(statements: &Vec<Statement>) -> (r: bool)
    ensures
        r == has_revert(statements@),
{
    let mut i: usize = 0;
    while i < statements.len()
        invariant
            i <= statements@.len(),
            forall|k: int| 0 <= k < i ==> !(#[trigger] statements@[k] is Revert),
        decreases statements@.len() - i,
    {
        if let Statement::Revert { .. } = &statements[i] {
            return true;
        }
        i = i + 1;
    }
    false
}

/// The constants of a scope together with the literals that single bindings
/// in `s` hold, a later binding over an earlier one.
pub open spec fn window_view(c: Map<u32, nat>, s: Seq<Statement>) -> Map<u32, nat>
    decreases s.len(),
{
    if s.len() == 0 {
        c
    } else {
        let c1 = window_view(c, s.drop_last());
        match s.last() {
            Statement::Let { bindings, value: Expression::Literal { value, .. } } => if bindings@.len() == 1 {
                c1.insert(bindings@[0].0, value@)
            } else {
                c1
            },
            _ => c1,
        }
    }
}

/// The constants of a scope together with the literals that single bindings in
/// `statements` hold.
fn window_constants(statements: &Vec<Statement>, scope_constants: &BTreeMap<u32, Uint>) -> (r: BTreeMap<u32, Uint>)
    ensures
        constants_view(r@) == window_view(constants_view(scope_constants@), statements@),
{
    let ghost c0 = constants_view(scope_constants@);
    let mut constants = scope_constants.clone();
    for i in 0..statements.len()
        invariant
            constants_view(constants@) == window_view(c0, statements@.subrange(0, i as int)),
    {
        proof {
            assert(statements@.subrange(0, i + 1).drop_last() =~= statements@.subrange(0, i as int));
            assert(statements@.subrange(0, i + 1).last() == statements@[i as int]);
        }
        let ghost before = constants@;
        if let Statement::Let { bindings, value: Expression::Literal { value, .. } } = &statements[i] {
            if bindings.len() == 1 {
                let v = value.clone();
                constants.insert(bindings[0].0, v);
                proof {
                    assert(constants_view(constants@) =~= constants_view(before).insert(bindings@[0].0, value@));
                }
            }
        }
    }
    proof {
        assert(statements@.subrange(0, statements@.len() as int) =~= statements@);
    }
    constants
}

/// A binding of `id` to the word zero.
pub open spec fn zero_binding(s: Statement) -> bool {
    s matches Statement::Let { bindings, value: Expression::Literal { value, value_type } } && bindings@.len()
        == 1 && value@ == 0 && value_type == Type::Int(BitWidth::I256)
}

/// A binding of exactly `id` to the word zero.
pub open spec fn zero_binding_of(s: Statement, id: ValueId) -> bool {
    &&& zero_binding(s)
    &&& s matches Statement::Let { bindings, .. } && bindings@ == seq![id]
}

fn zero_let(id: ValueId) -> (r: Statement)
    ensures
        zero_binding_of(r, id),
{
    let mut bindings: Vec<ValueId> = Vec::new();
    bindings.push(id);
    let r = Statement::Let {
        bindings,
        value: Expression::Literal { value: Uint::zero(), value_type: Type::Int(BitWidth::I256) },
    };
    proof {
        assert(r matches Statement::Let { bindings: b, .. } && b@ =~= seq![id]);
    }
    r
}

/// The ids among `bindings` that `extra` names, in order.
pub open spec fn named_ids(bindings: Seq<ValueId>, extra: Set<u32>) -> Seq<ValueId>
    decreases bindings.len(),
{
    if bindings.len() == 0 {
        bindings
    } else if extra.contains(bindings.last().0) {
        named_ids(bindings.drop_last(), extra).push(bindings.last())
    } else {
        named_ids(bindings.drop_last(), extra)
    }
}

/// The ids that the bindings of `s` bind and `extra` names, in order.
pub open spec fn rescued_ids(s: Seq<Statement>, extra: Set<u32>) -> Seq<ValueId>
    decreases s.len(),
{
    if s.len() == 0 {
        Seq::empty()
    } else {
        rescued_ids(s.drop_last(), extra) + match s.last() {
            Statement::Let { bindings, .. } => named_ids(bindings@, extra),
            _ => Seq::empty(),
        }
    }
}

/// A revert of the 36 bytes from offset 0 that a panic returns.
pub open spec fn panic_revert_shape(c: Map<u32, nat>, s: Statement) -> bool {
    s matches Statement::Revert { offset, length } && const_is(c, offset.id.0, 0) && const_is(c, length.id.0, 0x24)
}

/// `out` is `result` with `s` appended, where a revert that ends a panic
/// window collapses it: the window goes, each id it bound that `extra` names
/// is bound to zero, and the panic takes the revert's place.
pub open spec fn panic_step(
    c: Map<u32, nat>,
    extra: Set<u32>,
    result: Seq<Statement>,
    s: Statement,
    out: Seq<Statement>,
) -> bool {
    match panic_search(c, result) {
        Some((start, code)) => if panic_revert_shape(c, s) {
            let rescued = rescued_ids(result.subrange(start, result.len() as int), extra);
            &&& out.len() == start + rescued.len() + 1
            &&& out.subrange(0, start) == result.subrange(0, start)
            &&& forall|q: int|
                0 <= q < rescued.len() ==> zero_binding_of(#[trigger] out[start + q], rescued[q])
            &&& out.last() == Statement::PanicRevert { code }
        } else {
            out == result.push(s)
        },
        None => out == result.push(s),
    }
}

/// `out` is what collapsing the panic windows of `s`, statement by statement,
/// gives, with the known constants `c` and the ids `extra` still in use after.
pub open spec fn panic_collapsed(c: Map<u32, nat>, extra: Set<u32>, s: Seq<Statement>, out: Seq<Statement>) -> bool
    decreases s.len(),
{
    if s.len() == 0 {
        out.len() == 0
    } else {
        exists|mid: Seq<Statement>|
            #![trigger crate::simplified::witness(mid)]
            panic_collapsed(c, extra, s.drop_last(), mid) && panic_step(c, extra, mid, s.last(), out)
    }
}

/// Replaces the Solidity panic revert pattern with `PanicRevert { code }`.
///
/// A window ending in `revert(0, 0x24)` whose stores write exactly the panic
/// payload collapses; the bindings it held are dropped, except those that
/// `extra_used` (an enclosing region's yields) still names, which are bound to
/// zero before the panic: the panic diverges, so that value is never observed.
/// The known constants are those of the scope and the literals that single
/// bindings of the list hold.
pub fn outline_panic_patterns(
    statements: Vec<Statement>,
    scope_constants: &BTreeMap<u32, Uint>,
    extra_used: &BTreeSet<u32>,
) -> (r: Vec<Statement>)
    ensures
        !has_revert(statements@) ==> r@ == statements@,
        has_revert(statements@) ==> panic_collapsed(
            window_view(constants_view(scope_constants@), statements@),
            extra_used@,
            statements@,
            r@,
        ),
{
    if !contains_revert(&statements) {
        return statements;
    }
    let constants = window_constants(&statements, scope_constants);
    let ghost c = constants_view(constants@);
    let ghost extra = extra_used@;
    let ghost s1 = statements@;
    let mut statements = statements;
    let mut result: Vec<Statement> = Vec::new();
    let n = statements.len();
    proof {
        assert(s1.subrange(0, 0).len() == 0);
    }
    for i in 0..n
        invariant
            n == s1.len(),
            c == constants_view(constants@),
            extra == extra_used@,
            statements@.len() == n,
            forall|k: int| i <= k < n ==> #[trigger] statements@[k] == s1[k],
            panic_collapsed(c, extra, s1.subrange(0, i as int), result@),
    {
        let mut statement = Statement::Stop;
        std::mem::swap(&mut statement, &mut statements[i]);
        let ghost r0 = result@;
        proof {
            assert(statement == s1[i as int]);
        }
        let mut collapsed = false;
        if let Statement::Revert { offset, length } = &statement {
            if is_const_value(offset.id, 0, &constants) && is_const_value(length.id, 0x24, &constants) {
                if let Some((start, code)) = find_panic_pattern_backwards(&result, &constants) {
                    let ghost win = r0.subrange(start as int, r0.len() as int);
                    let mut rescued: Vec<ValueId> = Vec::new();
                    let len = result.len();
                    proof {
                        assert(r0.subrange(start as int, start as int).len() == 0);
                    }
                    for k in start..len
                        invariant
                            result@ == r0,
                            len == r0.len(),
                            start <= len,
                            extra == extra_used@,
                            rescued@ == rescued_ids(r0.subrange(start as int, k as int), extra),
                    {
                        proof {
                            assert(r0.subrange(start as int, k + 1).drop_last() =~= r0.subrange(start as int, k as int));
                            assert(r0.subrange(start as int, k + 1).last() == r0[k as int]);
                        }
                        let ghost before = rescued@;
                        if let Statement::Let { bindings, .. } = &result[k] {
                            proof {
                                assert(bindings@.subrange(0, 0) =~= Seq::<ValueId>::empty());
                                assert(before =~= before + named_ids(bindings@.subrange(0, 0), extra));
                            }
                            for b in 0..bindings.len()
                                invariant
                                    extra == extra_used@,
                                    rescued@ == before + named_ids(bindings@.subrange(0, b as int), extra),
                            {
                                proof {
                                    assert(bindings@.subrange(0, b + 1).drop_last() =~= bindings@.subrange(0, b as int));
                                    assert(bindings@.subrange(0, b + 1).last() == bindings@[b as int]);
                                }
                                if extra_used.contains(&bindings[b].0) {
                                    rescued.push(bindings[b]);
                                }
                                proof {
                                    assert(rescued@ =~= before + named_ids(bindings@.subrange(0, b + 1), extra));
                                }
                            }
                            proof {
                                assert(bindings@.subrange(0, bindings@.len() as int) =~= bindings@);
                            }
                        } else {
                            proof {
                                assert(rescued@ =~= before + Seq::<ValueId>::empty());
                            }
                        }
                    }
                    result.truncate(start);
                    let ghost base = result@;
                    proof {
                        assert(r0.subrange(start as int, len as int) =~= win);
                    }
                    for q in 0..rescued.len()
                        invariant
                            base == r0.subrange(0, start as int),
                            result@.len() == start + q,
                            result@.subrange(0, start as int) == base,
                            forall|p: int|
                                0 <= p < q ==> zero_binding_of(#[trigger] result@[start + p], rescued@[p]),
                    {
                        let ghost rq = result@;
                        result.push(zero_let(rescued[q]));
                        proof {
                            assert(result@.subrange(0, start as int) =~= rq.subrange(0, start as int));
                            assert forall|p: int| 0 <= p < q + 1 implies zero_binding_of(#[trigger] result@[start + p], rescued@[p]) by {
                                if p < q {
                                    assert(result@[start + p] == rq[start + p]);
                                }
                            }
                        }
                    }
                    let ghost rp = result@;
                    result.push(Statement::PanicRevert { code });
                    proof {
                        assert(result@.subrange(0, start as int) =~= rp.subrange(0, start as int));
                        assert forall|p: int| 0 <= p < rescued@.len() implies zero_binding_of(#[trigger] result@[start + p], rescued@[p]) by {
                            assert(result@[start + p] == rp[start + p]);
                        }
                    }
                    collapsed = true;
                }
            }
        }
        if !collapsed {
            result.push(statement);
        }
        proof {
            assert(panic_step(c, extra, r0, s1[i as int], result@));
            assert(s1.subrange(0, i + 1).drop_last() =~= s1.subrange(0, i as int));
            assert(s1.subrange(0, i + 1).last() == s1[i as int]);
            assert(crate::simplified::witness(r0));
        }
    }
    proof {
        assert(s1.subrange(0, n as int) =~= s1);
    }
    result
}

/// Whether a statement may stay in a custom error window whose revert covers
/// `[0, revert_length)`: a store at or past the end, at offset 0, or at an
/// argument offset `4 + 32 * i`; or any binding or expression.
pub open spec fn custom_window_safe(c: Map<u32, nat>, s: Statement, revert_length: nat) -> bool {
    match s {
        Statement::MStore { offset, .. } => c.contains_key(offset.id.0) && c[offset.id.0] <= u64::MAX && (
        c[offset.id.0] >= revert_length || c[offset.id.0] == 0 || (c[offset.id.0] >= 4 && (c[offset.id.0] - 4)
            % 0x20 == 0)),
        Statement::Let { .. } | Statement::Expression(..) => true,
        _ => false,
    }
}

/// The offset of argument `i` of a custom error.
pub open spec fn argument_offset(i: nat) -> nat {
    4 + 0x20 * i
}

/// Exactly one of `s[start..]` stores at the known constant offset `p`.
pub open spec fn stored_once(c: Map<u32, nat>, s: Seq<Statement>, start: int, p: nat) -> bool {
    exists|k: int|
        start <= k < s.len() && stores_at(c, #[trigger] s[k], p) && forall|k2: int|
            start <= k2 < s.len() && k2 != k ==> !stores_at(c, #[trigger] s[k2], p)
}

/// `s[start..]` is a custom error window with selector word `selector` and
/// arguments `arguments`: the selector and each argument are stored exactly
/// once at their offsets, and nothing else in the window writes inside the
/// reverted range or is anything but a store, a binding or an expression.
pub open spec fn custom_error_window(
    c: Map<u32, nat>,
    s: Seq<Statement>,
    start: int,
    selector: nat,
    arguments: Seq<Value>,
) -> bool {
    &&& 0 <= start < s.len()
    &&& forall|k: int|
        start <= k < s.len() ==> custom_window_safe(c, #[trigger] s[k], argument_offset(arguments.len()))
    &&& stored_once(c, s, start, 0)
    &&& forall|i: int| 0 <= i < arguments.len() ==> stored_once(c, s, start, #[trigger] argument_offset(i as nat))
    &&& exists|k: int|
        start <= k < s.len() && (#[trigger] s[k] matches Statement::MStore { offset, value, .. } && const_is(
            c,
            offset.id.0,
            0,
        ) && const_is(c, value.id.0, selector))
    &&& forall|i: int|
        0 <= i < arguments.len() ==> exists|k: int|
            start <= k < s.len() && (#[trigger] s[k] matches Statement::MStore { offset, value, .. } && const_is(
                c,
                offset.id.0,
                argument_offset(i as nat),
            ) && value == #[trigger] arguments[i])
}

/// Whether exactly one of `statements[start..]` stores at the constant offset `p`.
fn stored_exactly_once(statements: &Vec<Statement>, start: usize, p: u64, constants: &BTreeMap<u32, Uint>) -> (r: bool)
    requires
        start <= statements@.len(),
    ensures
        r == stored_once(constants_view(constants@), statements@, start as int, p as nat),
{
    let ghost c = constants_view(constants@);
    let mut found: Option<usize> = None;
    let mut k = start;
    while k < statements.len()
        invariant
            c == constants_view(constants@),
            start <= k <= statements@.len(),
            match found {
                Some(f) => start <= f < k && stores_at(c, statements@[f as int], p as nat) && forall|q: int|
                    start <= q < k && q != f ==> !stores_at(c, #[trigger] statements@[q], p as nat),
                None => forall|q: int| start <= q < k ==> !stores_at(c, #[trigger] statements@[q], p as nat),
            },
        decreases statements@.len() - k,
    {
        if let Statement::MStore { offset, .. } = &statements[k] {
            if is_const_value(offset.id, p, constants) {
                proof {
                    assert(stores_at(c, statements@[k as int], p as nat));
                }
                if found.is_some() {
                    proof {
                        let f = found->0 as int;
                        let kk = k as int;
                        assert forall|k0: int|
                            start <= k0 < statements@.len() && stores_at(c, #[trigger] statements@[k0], p as nat) implies
                            exists|k2: int| start <= k2 < statements@.len() && k2 != k0 && stores_at(c, #[trigger] statements@[k2], p as nat) by {
                            if k0 == f {
                                assert(stores_at(c, statements@[kk], p as nat));
                            } else {
                                assert(stores_at(c, statements@[f], p as nat));
                            }
                        }
                    }
                    return false;
                }
                found = Some(k);
            }
        }
        k = k + 1;
    }
    match found {
        Some(f) => {
            proof {
                assert(stores_at(c, statements@[f as int], p as nat));
            }
            true
        },
        None => false,
    }
}

/// Whether the search for a custom error window may pass over a statement: a
/// store, a binding or an expression.
pub open spec fn custom_scannable(s: Statement) -> bool {
    s is MStore || s is Let || s is Expression
}

/// Twenty statements back from `end`, or the start.
pub open spec fn twenty_back(end: int) -> int {
    if end >= 20 {
        end - 20
    } else {
        0
    }
}

/// The start of the longest run of `s[limit..end]` that ends at `end` and is
/// made of stores, bindings and expressions.
pub open spec fn custom_floor(s: Seq<Statement>, end: int, limit: int) -> int
    decreases end - limit,
{
    if end <= limit || end > s.len() {
        end
    } else if custom_scannable(s[end - 1]) {
        custom_floor(s, end - 1, limit)
    } else {
        end
    }
}

/// A store of a known word at offset 0.
pub open spec fn selector_store(c: Map<u32, nat>, s: Statement) -> bool {
    s matches Statement::MStore { offset, value, .. } && const_is(c, offset.id.0, 0) && c.contains_key(value.id.0)
}

/// The argument a store writes, by its known offset `4 + 32 * i`.
pub open spec fn argument_index(c: Map<u32, nat>, s: Statement) -> Option<nat> {
    match s {
        Statement::MStore { offset, .. } => if c.contains_key(offset.id.0) && c[offset.id.0] >= 4 && (c[offset.id.0]
            - 4) % 0x20 == 0 {
            Some(((c[offset.id.0] - 4) / 0x20) as nat)
        } else {
            None
        },
        _ => None,
    }
}

/// A store that belongs to a custom error with `n` arguments: of its selector
/// or of one of its arguments.
pub open spec fn pattern_store(c: Map<u32, nat>, s: Statement, n: nat) -> bool {
    selector_store(c, s) || (argument_index(c, s) matches Some(i) && i < n)
}

/// The first pattern store of `s[k..]`, or the length of `s`.
pub open spec fn first_pattern(c: Map<u32, nat>, s: Seq<Statement>, n: nat, k: int) -> int
    decreases s.len() - k,
{
    if k < 0 || k >= s.len() {
        s.len() as int
    } else if pattern_store(c, s[k], n) {
        k
    } else {
        first_pattern(c, s, n, k + 1)
    }
}

/// Where the search for a custom error with `n` arguments looks: from the
/// start of the run of stores, bindings and expressions that ends the list,
/// at most twenty statements back.
pub open spec fn custom_floor_of(s: Seq<Statement>) -> int {
    custom_floor(s, s.len() as int, twenty_back(s.len() as int))
}

/// Where a custom error window with `n` arguments starts: at its first pattern store.
pub open spec fn custom_start(c: Map<u32, nat>, s: Seq<Statement>, n: nat) -> int {
    first_pattern(c, s, n, custom_floor_of(s))
}

/// Whether `s` ends in a custom error window with `n` arguments: the searched
/// tail holds a selector store and a store of each argument, and from the
/// first of those stores on the window is safe and stores the selector and
/// each argument exactly once.
pub open spec fn custom_found(c: Map<u32, nat>, s: Seq<Statement>, n: nat) -> bool {
    let lo = custom_floor_of(s);
    let e = custom_start(c, s, n);
    &&& s.len() >= 1 + n
    &&& exists|k: int| lo <= k < s.len() && #[trigger] selector_store(c, s[k])
    &&& forall|i: int|
        0 <= i < n ==> exists|k: int| lo <= k < s.len() && stores_at(c, #[trigger] s[k], #[trigger] argument_offset(i as nat))
    &&& forall|k: int| e <= k < s.len() ==> custom_window_safe(c, #[trigger] s[k], argument_offset(n))
    &&& stored_once(c, s, e, 0)
    &&& forall|i: int| 0 <= i < n ==> stored_once(c, s, e, #[trigger] argument_offset(i as nat))
}

proof fn lemma_argument_index(c: Map<u32, nat>, s: Statement, i: nat)
    ensures
        stores_at(c, s, argument_offset(i)) <==> argument_index(c, s) == Some(i),
{
    if s is MStore {
        let o = s->MStore_offset.id.0;
        if c.contains_key(o) {
            let v = c[o];
            if v == argument_offset(i) {
                assert(v >= 4 && (v - 4) % 0x20 == 0 && (v - 4) / 0x20 == i) by (nonlinear_arith)
                    requires
                        v == 4 + 0x20 * i,
                ;
            }
            if v >= 4 && (v - 4) % 0x20 == 0 && (v - 4) / 0x20 == i {
                assert(v == 4 + 0x20 * i) by (nonlinear_arith)
                    requires
                        v >= 4,
                        (v - 4) % 0x20 == 0,
                        (v - 4) / 0x20 == i,
                ;
            }
        }
    }
}

proof fn lemma_custom_floor(s: Seq<Statement>, end: int, limit: int)
    requires
        limit <= end <= s.len(),
    ensures
        limit <= custom_floor(s, end, limit) <= end,
        forall|k: int| custom_floor(s, end, limit) <= k < end ==> custom_scannable(#[trigger] s[k]),
    decreases end - limit,
{
    if end > limit && custom_scannable(s[end - 1]) {
        lemma_custom_floor(s, end - 1, limit);
    }
}

proof fn lemma_first_pattern(c: Map<u32, nat>, s: Seq<Statement>, n: nat, k: int)
    requires
        0 <= k <= s.len(),
    ensures
        k <= first_pattern(c, s, n, k) <= s.len(),
        first_pattern(c, s, n, k) < s.len() ==> pattern_store(c, s[first_pattern(c, s, n, k)], n),
        forall|q: int| k <= q < first_pattern(c, s, n, k) ==> !pattern_store(c, #[trigger] s[q], n),
    decreases s.len() - k,
{
    if k < s.len() && !pattern_store(c, s[k], n) {
        lemma_first_pattern(c, s, n, k + 1);
    }
}

/// Whether a statement may stand in a custom error window of `revert_length` bytes.
fn custom_safe(statement: &Statement, revert_length: u64, constants: &BTreeMap<u32, Uint>) -> (r: bool)
    ensures
        r == custom_window_safe(constants_view(constants@), *statement, revert_length as nat),
{
    match statement {
        Statement::MStore { offset, .. } => match constants.get(&offset.id.0) {
            Some(off_val) => match uint_to_u64(off_val) {
                Some(off) => off >= revert_length || off == 0 || (off >= 4 && (off - 4) % 0x20 == 0),
                None => false,
            },
            None => false,
        },
        Statement::Let { .. } | Statement::Expression(..) => true,
        _ => false,
    }
}

fn is_custom_scannable(statement: &Statement) -> (r: bool)
    ensures
        r == custom_scannable(*statement),
{
    match statement {
        Statement::MStore { .. } | Statement::Let { .. } | Statement::Expression(..) => true,
        _ => false,
    }
}

/// Looks backwards from the end of `statements` for the custom error pattern
/// with `num_args` arguments: `mstore(0, selector)` and `mstore(4 + 32 * i, arg_i)`
/// among bindings.
pub fn find_custom_error_pattern_backwards(
    statements: &Vec<Statement>,
    constants: &BTreeMap<u32, Uint>,
    num_args: usize,
) -> (r: Option<(usize, Uint, Vec<Value>)>)
    requires
        num_args < 0x100_0000,
    ensures
        r is Some <==> custom_found(constants_view(constants@), statements@, num_args as nat),
        r matches Some((start, selector, arguments)) ==> start == custom_start(
            constants_view(constants@),
            statements@,
            num_args as nat,
        ) && arguments@.len() == num_args && custom_error_window(
            constants_view(constants@),
            statements@,
            start as int,
            selector@,
            arguments@,
        ),
{
    let ghost c = constants_view(constants@);
    let ghost s = statements@;
    let ghost n = num_args as nat;
    let len = statements.len();
    if len < 1 + num_args {
        return None;
    }
    let mut found_selector: Option<Uint> = None;
    let mut arguments: Vec<Option<Value>> = Vec::new();
    for i in 0..num_args
        invariant
            arguments@.len() == i,
            forall|q: int| 0 <= q < i ==> arguments@[q] is None,
    {
        arguments.push(None);
    }
    let mut earliest = len;
    let search_limit = if len >= 20 {
        len - 20
    } else {
        0
    };
    proof {
        assert(search_limit == twenty_back(len as int));
    }
    let mut j = len;
    while j > search_limit && is_custom_scannable(&statements[j - 1])
        invariant
            c == constants_view(constants@),
            s == statements@,
            n == num_args,
            num_args < 0x100_0000,
            len == s.len(),
            arguments@.len() == num_args,
            search_limit <= j <= len,
            search_limit == twenty_back(len as int),
            custom_floor_of(s) == custom_floor(s, j as int, search_limit as int),
            earliest == first_pattern(c, s, n, j as int),
            found_selector is Some <==> exists|k: int| j <= k < len && #[trigger] selector_store(c, s[k]),
            found_selector matches Some(sel) ==> exists|k: int|
                j <= k < len && (#[trigger] s[k] matches Statement::MStore { offset, value, .. } && const_is(
                    c,
                    offset.id.0,
                    0,
                ) && const_is(c, value.id.0, sel@)),
            forall|i: int|
                0 <= i < num_args ==> (#[trigger] arguments@[i] is Some <==> exists|k: int|
                    j <= k < len && stores_at(c, #[trigger] s[k], argument_offset(i as nat))),
            forall|i: int|
                0 <= i < num_args ==> (#[trigger] arguments@[i] matches Some(v) ==> exists|k: int|
                    j <= k < len && (#[trigger] s[k] matches Statement::MStore { offset, value, .. } && const_is(
                        c,
                        offset.id.0,
                        argument_offset(i as nat),
                    ) && value == v)),
        decreases j,
    {
        let idx = j - 1;
        let ghost args0 = arguments@;
        let ghost sel0 = found_selector;
        proof {
            assert(first_pattern(c, s, n, idx as int) == if pattern_store(c, s[idx as int], n) {
                idx as int
            } else {
                first_pattern(c, s, n, j as int)
            });
        }
        match &statements[idx] {
            Statement::MStore { offset, value, .. } => {
                match constants.get(&offset.id.0) {
                    Some(off_val) => {
                        proof {
                            assert(c.contains_key(offset.id.0) && c[offset.id.0] == off_val@);
                        }
                        let zero = uint_from_u64(0);
                        let four = uint_from_u64(4);
                        if uint_eq(off_val, &zero) {
                            proof {
                                assert(argument_index(c, s[idx as int]) is None);
                                assert forall|i: int| 0 <= i < num_args implies !stores_at(c, s[idx as int], #[trigger] argument_offset(i as nat)) by {
                                    lemma_argument_index(c, s[idx as int], i as nat);
                                }
                            }
                            match constants.get(&value.id.0) {
                                Some(sel) => {
                                    proof {
                                        assert(c.contains_key(value.id.0) && c[value.id.0] == sel@);
                                        assert(selector_store(c, s[idx as int]));
                                    }
                                    found_selector = Some(sel.clone());
                                    earliest = idx;
                                },
                                None => {
                                    proof {
                                        assert(!selector_store(c, s[idx as int]));
                                    }
                                },
                            }
                        } else if uint_eq(off_val, &four) && num_args >= 1 {
                            proof {
                                assert(argument_offset(0) == 4);
                                assert(argument_index(c, s[idx as int]) == Some(0nat));
                                assert(!selector_store(c, s[idx as int]));
                                assert forall|i: int| 0 <= i < num_args && i != 0 implies !stores_at(c, s[idx as int], #[trigger] argument_offset(i as nat)) by {
                                    lemma_argument_index(c, s[idx as int], i as nat);
                                }
                            }
                            arguments.set(0, Some(*value));
                            earliest = idx;
                        } else {
                            proof {
                                assert(!selector_store(c, s[idx as int]));
                            }
                            match uint_to_u64(off_val) {
                                Some(off) => {
                                    if off >= 0x24 && (off - 4) % 0x20 == 0 {
                                        let arg_idx = (off - 4) / 0x20;
                                        proof {
                                            assert(argument_index(c, s[idx as int]) == Some(arg_idx as nat));
                                            assert forall|i: int| 0 <= i < num_args && i != arg_idx implies !stores_at(c, s[idx as int], #[trigger] argument_offset(i as nat)) by {
                                                lemma_argument_index(c, s[idx as int], i as nat);
                                            }
                                        }
                                        if arg_idx < num_args as u64 {
                                            proof {
                                                lemma_argument_index(c, s[idx as int], arg_idx as nat);
                                            }
                                            arguments.set(arg_idx as usize, Some(*value));
                                            earliest = idx;
                                        }
                                    } else {
                                        proof {
                                            assert(argument_index(c, s[idx as int]) is None || argument_index(c, s[idx as int]) == Some(0nat));
                                            assert forall|i: int| 0 <= i < num_args implies !stores_at(c, s[idx as int], #[trigger] argument_offset(i as nat)) by {
                                                lemma_argument_index(c, s[idx as int], i as nat);
                                            }
                                        }
                                    }
                                },
                                None => {
                                    proof {
                                        assert(argument_index(c, s[idx as int]) matches Some(q) ==> q >= 0x100_0000);
                                        assert forall|i: int| 0 <= i < num_args implies !stores_at(c, s[idx as int], #[trigger] argument_offset(i as nat)) by {
                                            lemma_argument_index(c, s[idx as int], i as nat);
                                        }
                                    }
                                },
                            }
                        }
                    },
                    None => {
                        proof {
                            assert(!pattern_store(c, s[idx as int], n));
                            assert forall|i: int| 0 <= i < num_args implies !stores_at(c, s[idx as int], #[trigger] argument_offset(i as nat)) by {
                                lemma_argument_index(c, s[idx as int], i as nat);
                            }
                        }
                    },
                }
            },
            _ => {
                proof {
                    assert(!pattern_store(c, s[idx as int], n));
                    assert forall|i: int| 0 <= i < num_args implies !stores_at(c, s[idx as int], #[trigger] argument_offset(i as nat)) by {
                        lemma_argument_index(c, s[idx as int], i as nat);
                    }
                }
            },
        }
        proof {
            assert forall|i: int|
                0 <= i < num_args implies (#[trigger] arguments@[i] is Some <==> exists|k: int|
                    idx <= k < len && stores_at(c, #[trigger] s[k], argument_offset(i as nat))) by {
                if stores_at(c, s[idx as int], argument_offset(i as nat)) {
                    assert(arguments@[i] is Some);
                } else if arguments@[i] is Some {
                    assert(args0[i] is Some);
                }
            }
            assert forall|i: int|
                0 <= i < num_args implies (#[trigger] arguments@[i] matches Some(v) ==> exists|k: int|
                    idx <= k < len && (#[trigger] s[k] matches Statement::MStore { offset, value, .. } && const_is(
                        c,
                        offset.id.0,
                        argument_offset(i as nat),
                    ) && value == v)) by {
                if arguments@[i] != args0[i] {
                    lemma_argument_index(c, s[idx as int], i as nat);
                }
            }
        }
        j = idx;
    }
    proof {
        lemma_custom_floor(s, len as int, search_limit as int);
        assert(custom_floor_of(s) == j);
    }
    let selector = match found_selector {
        Some(sel) => sel,
        None => return None,
    };
    let mut args: Vec<Value> = Vec::new();
    for i in 0..num_args
        invariant
            args@.len() == i,
            arguments@.len() == num_args,
            forall|q: int| 0 <= q < i ==> arguments@[q] == Some(#[trigger] args@[q]),
            c == constants_view(constants@),
            s == statements@,
            n == num_args,
            len == s.len(),
            j <= len,
            custom_floor_of(s) == j,
            forall|i: int|
                0 <= i < num_args ==> (#[trigger] arguments@[i] is Some <==> exists|k: int|
                    j <= k < len && stores_at(c, #[trigger] s[k], argument_offset(i as nat))),
    {
        match arguments[i] {
            Some(v) => args.push(v),
            None => {
                proof {
                    assert(arguments@[i as int] is None);
                    assert(!(exists|k: int| j <= k < len && stores_at(c, #[trigger] s[k], argument_offset(i as nat))));
                }
                return None;
            },
        }
    }
    let ghost sk = choose|k: int| j <= k < len && #[trigger] selector_store(c, s[k]);
    proof {
        lemma_first_pattern(c, s, n, j as int);
        assert(pattern_store(c, s[sk], n));
        assert(earliest <= sk);
        assert(earliest == custom_start(c, s, n));
    }
    let revert_length: u64 = 4 + (num_args as u64) * 0x20;
    proof {
        assert(revert_length == argument_offset(num_args as nat));
    }
    let mut k = earliest;
    while k < len
        invariant
            c == constants_view(constants@),
            s == statements@,
            len == s.len(),
            earliest <= k <= len,
            n == num_args,
            earliest == custom_start(c, s, n),
            revert_length == argument_offset(num_args as nat),
            forall|q: int| earliest <= q < k ==> custom_window_safe(c, #[trigger] s[q], revert_length as nat),
        decreases len - k,
    {
        if !custom_safe(&statements[k], revert_length, constants) {
            return None;
        }
        k = k + 1;
    }
    if !stored_exactly_once(statements, earliest, 0, constants) {
        return None;
    }
    for i in 0..num_args
        invariant
            c == constants_view(constants@),
            s == statements@,
            len == s.len(),
            earliest <= len,
            num_args < 0x100_0000,
            n == num_args,
            earliest == custom_start(c, s, n),
            forall|q: int| 0 <= q < i ==> stored_once(c, s, earliest as int, #[trigger] argument_offset(q as nat)),
    {
        let p: u64 = 4 + (i as u64) * 0x20;
        proof {
            assert(p as nat == argument_offset(i as nat));
        }
        if !stored_exactly_once(statements, earliest, p, constants) {
            proof {
                let ii: int = i as int;
                assert(!stored_once(c, s, earliest as int, argument_offset(ii as nat)));
                if custom_found(c, s, n) {
                    assert(stored_once(c, s, custom_start(c, s, n), argument_offset(ii as nat)));
                }
            }
            return None;
        }
    }
    proof {
        assert forall|i: int| 0 <= i < args@.len() implies exists|k: int|
            earliest <= k < len && (#[trigger] s[k] matches Statement::MStore { offset, value, .. }
                && const_is(c, offset.id.0, argument_offset(i as nat)) && value == #[trigger] args@[i]) by {
            assert(arguments@[i] == Some(args@[i]));
            let k = choose|k: int|
                j <= k < len && (#[trigger] s[k] matches Statement::MStore { offset, value, .. } && const_is(
                    c,
                    offset.id.0,
                    argument_offset(i as nat),
                ) && value == args@[i]);
            lemma_argument_index(c, s[k], i as nat);
            assert(pattern_store(c, s[k], n));
        }
        let ks = choose|k: int|
            j <= k < len && (#[trigger] s[k] matches Statement::MStore { offset, value, .. } && const_is(
                c,
                offset.id.0,
                0,
            ) && const_is(c, value.id.0, selector@));
        assert(selector_store(c, s[ks]));
        assert(pattern_store(c, s[ks], n));
        assert(custom_found(c, s, n));
    }
    Some((earliest, selector, args))
}

/// The number of arguments of a custom error that a revert of `total` bytes
/// returns.
pub open spec fn custom_arg_count(total: nat) -> Option<nat> {
    if total == 4 {
        Some(0)
    } else if total >= 0x24 && (total - 4) % 0x20 == 0 && (total - 4) / 0x20 < 0x100_0000 {
        Some(((total - 4) / 0x20) as nat)
    } else {
        None
    }
}

/// The number of arguments of the custom error a statement reverts with: a
/// revert from offset 0 of a known length.
pub open spec fn revert_arg_count(c: Map<u32, nat>, s: Statement) -> Option<nat> {
    match s {
        Statement::Revert { offset, length } => if const_is(c, offset.id.0, 0) && c.contains_key(length.id.0) {
            custom_arg_count(c[length.id.0])
        } else {
            None
        },
        _ => None,
    }
}

/// `s` without its stores, in order.
pub open spec fn without_stores(s: Seq<Statement>) -> Seq<Statement>
    decreases s.len(),
{
    if s.len() == 0 {
        s
    } else if s.last() is MStore {
        without_stores(s.drop_last())
    } else {
        without_stores(s.drop_last()).push(s.last())
    }
}

/// `out` is `result` with `s` appended, where a revert that ends a custom
/// error window collapses it: the window's stores go, its other statements
/// stay, and the custom error takes the revert's place.
pub open spec fn custom_step(c: Map<u32, nat>, result: Seq<Statement>, s: Statement, out: Seq<Statement>) -> bool {
    match revert_arg_count(c, s) {
        Some(n) => if custom_found(c, result, n) {
            let start = custom_start(c, result, n);
            let kept = result.subrange(0, start) + without_stores(result.subrange(start, result.len() as int));
            &&& out.len() == kept.len() + 1
            &&& out.drop_last() == kept
            &&& out.last() matches Statement::CustomErrorRevert { selector, arguments } && arguments@.len() == n
                && custom_error_window(c, result, start, selector@, arguments@)
        } else {
            out == result.push(s)
        },
        None => out == result.push(s),
    }
}

/// `out` is what collapsing the custom error windows of `s`, statement by
/// statement, gives, with the known constants `c`.
pub open spec fn custom_collapsed(c: Map<u32, nat>, s: Seq<Statement>, out: Seq<Statement>) -> bool
    decreases s.len(),
{
    if s.len() == 0 {
        out.len() == 0
    } else {
        exists|mid: Seq<Statement>|
            #![trigger crate::simplified::witness(mid)]
            custom_collapsed(c, s.drop_last(), mid) && custom_step(c, mid, s.last(), out)
    }
}

/// Replaces custom error reverts `mstore(0, selector)`, `mstore(4 + 32 * i, arg_i)`,
/// `revert(0, 4 + 32 * n)` with `CustomErrorRevert { selector, arguments }`; the
/// window's bindings stay, its stores go. The known constants are those of
/// the scope and the literals that single bindings of the list hold.
pub fn outline_custom_error_patterns(
    statements: Vec<Statement>,
    scope_constants: &BTreeMap<u32, Uint>,
) -> (r: Vec<Statement>)
    ensures
        !has_revert(statements@) ==> r@ == statements@,
        has_revert(statements@) ==> custom_collapsed(
            window_view(constants_view(scope_constants@), statements@),
            statements@,
            r@,
        ),
{
    if !contains_revert(&statements) {
        return statements;
    }
    let constants = window_constants(&statements, scope_constants);
    let ghost c = constants_view(constants@);
    let ghost s1 = statements@;
    let mut statements = statements;
    let mut result: Vec<Statement> = Vec::new();
    let n = statements.len();
    proof {
        assert(s1.subrange(0, 0).len() == 0);
    }
    for i in 0..n
        invariant
            n == s1.len(),
            c == constants_view(constants@),
            statements@.len() == n,
            forall|k: int| i <= k < n ==> #[trigger] statements@[k] == s1[k],
            custom_collapsed(c, s1.subrange(0, i as int), result@),
    {
        let mut statement = Statement::Stop;
        std::mem::swap(&mut statement, &mut statements[i]);
        let ghost r0 = result@;
        proof {
            assert(statement == s1[i as int]);
        }
        let mut collapsed = false;
        if let Statement::Revert { offset, length } = &statement {
            if is_const_value(offset.id, 0, &constants) {
                let total = match constants.get(&length.id.0) {
                    Some(v) => uint_to_u64(v),
                    None => None,
                };
                if let Some(total_len) = total {
                    let num_args: Option<usize> = if total_len == 4 {
                        Some(0)
                    } else if total_len >= 0x24 && (total_len - 4) % 0x20 == 0 && (total_len - 4) / 0x20
                        < 0x100_0000 {
                        Some(((total_len - 4) / 0x20) as usize)
                    } else {
                        None
                    };
                    proof {
                        assert(c.contains_key(length.id.0) && c[length.id.0] == total_len);
                        assert(revert_arg_count(c, statement) == match num_args {
                            Some(a) => Some(a as nat),
                            None => None::<nat>,
                        });
                    }
                    if let Some(num_args) = num_args {
                        if let Some((start, selector, arguments)) = find_custom_error_pattern_backwards(
                            &result,
                            &constants,
                            num_args,
                        ) {
                            let mut window = result.split_off(start);
                            let ghost win0 = window@;
                            let wl = window.len();
                            proof {
                                assert(win0 == r0.subrange(start as int, r0.len() as int));
                                assert(win0.subrange(0, 0).len() == 0);
                                assert(result@ =~= r0.subrange(0, start as int) + without_stores(win0.subrange(0, 0)));
                            }
                            for w in 0..wl
                                invariant
                                    wl == win0.len(),
                                    window@.len() == wl,
                                    forall|k: int| w <= k < wl ==> #[trigger] window@[k] == win0[k],
                                    result@ == r0.subrange(0, start as int) + without_stores(win0.subrange(0, w as int)),
                            {
                                let mut st = Statement::Stop;
                                std::mem::swap(&mut st, &mut window[w]);
                                proof {
                                    assert(st == win0[w as int]);
                                    assert(win0.subrange(0, w + 1).drop_last() =~= win0.subrange(0, w as int));
                                    assert(win0.subrange(0, w + 1).last() == win0[w as int]);
                                }
                                let ghost rb = result@;
                                match st {
                                    Statement::MStore { .. } => {},
                                    other => result.push(other),
                                }
                                proof {
                                    assert(result@ =~= r0.subrange(0, start as int) + without_stores(win0.subrange(0, w + 1)));
                                }
                            }
                            proof {
                                assert(win0.subrange(0, wl as int) =~= win0);
                            }
                            let ghost kept = result@;
                            result.push(Statement::CustomErrorRevert { selector, arguments });
                            proof {
                                assert(result@.drop_last() =~= kept);
                            }
                            collapsed = true;
                        }
                    }
                }
            }
        }
        if !collapsed {
            result.push(statement);
        }
        proof {
            assert(custom_step(c, r0, s1[i as int], result@));
            assert(s1.subrange(0, i + 1).drop_last() =~= s1.subrange(0, i as int));
            assert(s1.subrange(0, i + 1).last() == s1[i as int]);
            assert(crate::simplified::witness(r0));
        }
    }
    proof {
        assert(s1.subrange(0, n as int) =~= s1);
    }
    result
}

} // verus!
