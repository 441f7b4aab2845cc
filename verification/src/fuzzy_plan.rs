//! When a group of functions with the same fuzzy form is merged.
//!
//! The members' literal lists must have one length and differ somewhere;
//! the differing positions are grouped by the pattern of values they hold
//! across the members, one new parameter per group, at most four; the
//! members must take and return the same types; and the first member must
//! be large enough for the width of the new parameters.

use crate::fuzzy::fuzzy_form;
use crate::ir::{width_bits, width_for_bits, BitWidth, Function, FunctionId, Type};
use crate::literals::list_literals;
use crate::uint::nat_bits;
use vstd::prelude::*;

verus! {

/// The index of the first of `fs[i..]` with the id `id`.
pub open spec fn index_from(fs: Seq<Function>, id: FunctionId, i: int) -> Option<int>
    decreases fs.len() - i,
{
    if i < 0 || i >= fs.len() {
        None
    } else if fs[i].id == id {
        Some(i)
    } else {
        index_from(fs, id, i + 1)
    }
}

/// The index of the first function of `fs` with the id `id`.
pub open spec fn index_of(fs: Seq<Function>, id: FunctionId) -> Option<int> {
    index_from(fs, id, 0)
}

pub proof fn lemma_index_from(fs: Seq<Function>, id: FunctionId, i: int)
    requires
        0 <= i,
    ensures
        index_from(fs, id, i) matches Some(k) ==> i <= k < fs.len() && fs[k].id == id && forall|q: int|
            i <= q < k ==> fs[q].id != id,
        index_from(fs, id, i) is None ==> forall|q: int| i <= q < fs.len() ==> fs[q].id != id,
    decreases fs.len() - i,
{
    if i < fs.len() && fs[i].id != id {
        lemma_index_from(fs, id, i + 1);
    }
}

/// The literal lists of the members, in member order, where each member is
/// one of `fs`.
pub open spec fn members_literals(fs: Seq<Function>, members: Seq<FunctionId>) -> Option<Seq<Seq<nat>>> {
    if forall|m: int| 0 <= m < members.len() ==> #[trigger] index_of(fs, members[m]) is Some {
        Some(Seq::new(members.len(), |m: int| list_literals(fs[index_of(fs, members[m])->0].body.statements@, 0)))
    } else {
        None
    }
}

/// Whether some member holds at `pos` another value than the first.
pub open spec fn differs_at(ls: Seq<Seq<nat>>, pos: int) -> bool {
    exists|m: int| 0 <= m < ls.len() && #[trigger] ls[m][pos] != ls[0][pos]
}

/// The positions below `n` at which the members differ, in order.
pub open spec fn differing_positions(ls: Seq<Seq<nat>>, n: int) -> Seq<usize>
    decreases n,
{
    if n <= 0 {
        Seq::empty()
    } else {
        differing_positions(ls, n - 1) + if differs_at(ls, n - 1) {
            seq![(n - 1) as usize]
        } else {
            Seq::empty()
        }
    }
}

/// Whether every member holds the same value at `a` as at `b`.
pub open spec fn same_pattern_at(ls: Seq<Seq<nat>>, a: int, b: int) -> bool {
    forall|m: int| 0 <= m < ls.len() ==> a < (#[trigger] ls[m]).len() && b < ls[m].len() && ls[m][a] == ls[m][b]
}

/// The first of the groups `gs[g..]` whose first position holds the same
/// pattern as `pos`.
pub open spec fn first_group(gs: Seq<Seq<usize>>, ls: Seq<Seq<nat>>, pos: usize, g: int) -> Option<int>
    decreases gs.len() - g,
{
    if g < 0 || g >= gs.len() {
        None
    } else if gs[g].len() > 0 && same_pattern_at(ls, pos as int, gs[g][0] as int) {
        Some(g)
    } else {
        first_group(gs, ls, pos, g + 1)
    }
}

pub proof fn lemma_first_group(gs: Seq<Seq<usize>>, ls: Seq<Seq<nat>>, pos: usize, g: int)
    requires
        0 <= g,
    ensures
        first_group(gs, ls, pos, g) matches Some(k) ==> g <= k < gs.len(),
    decreases gs.len() - g,
{
    if g < gs.len() {
        lemma_first_group(gs, ls, pos, g + 1);
    }
}

/// The differing positions `ds` grouped in order: each joins the first group
/// whose first position holds the same pattern, or starts a new one.
pub open spec fn grouped(ls: Seq<Seq<nat>>, ds: Seq<usize>) -> Seq<Seq<usize>>
    decreases ds.len(),
{
    if ds.len() == 0 {
        Seq::empty()
    } else {
        let gs = grouped(ls, ds.subrange(0, ds.len() - 1));
        let pos = ds[ds.len() - 1];
        match first_group(gs, ls, pos, 0) {
            Some(g) => gs.update(g, gs[g].push(pos)),
            None => gs.push(seq![pos]),
        }
    }
}

/// The largest of `row[ps[..k]]`, where in range, and 0.
pub open spec fn row_max(row: Seq<nat>, ps: Seq<usize>, k: int) -> nat
    decreases k,
{
    if k <= 0 {
        0
    } else {
        let prev = row_max(row, ps, k - 1);
        let v = if (ps[k - 1] as int) < row.len() {
            row[ps[k - 1] as int]
        } else {
            0
        };
        if prev < v {
            v
        } else {
            prev
        }
    }
}

/// The largest value that the first `m` members hold at the positions `ps`, and 0.
pub open spec fn group_max(ls: Seq<Seq<nat>>, ps: Seq<usize>, m: int) -> nat
    decreases m,
{
    if m <= 0 {
        0
    } else {
        let prev = group_max(ls, ps, m - 1);
        let v = row_max(ls[m - 1], ps, ps.len() as int);
        if prev < v {
            v
        } else {
            prev
        }
    }
}

/// The width of the parameter for the positions `ps`: the narrowest that
/// holds every value there.
pub open spec fn parameter_width(ls: Seq<Seq<nat>>, ps: Seq<usize>) -> BitWidth {
    width_for_bits(nat_bits(group_max(ls, ps, ls.len() as int)))
}

/// Whether every new parameter fits in 64 bits.
pub open spec fn all_narrow(ls: Seq<Seq<nat>>, gs: Seq<Seq<usize>>) -> bool {
    forall|g: int| 0 <= g < gs.len() ==> width_bits(parameter_width(ls, #[trigger] gs[g])) <= 64
}

/// Whether two functions take parameters of the same types and return the
/// same types.
pub open spec fn signature_matches(f: Function, g: Function) -> bool {
    &&& f.parameters@.len() == g.parameters@.len()
    &&& f.returns@ == g.returns@
    &&& forall|i: int| 0 <= i < f.parameters@.len() ==> (#[trigger] f.parameters@[i]).1 == g.parameters@[i].1
}

/// Whether every member after the first is one of `fs` with the signature of
/// the first.
pub open spec fn members_compatible(fs: Seq<Function>, members: Seq<FunctionId>) -> bool {
    forall|m: int|
        1 <= m < members.len() ==> #[trigger] index_of(fs, members[m]) is Some && signature_matches(
            fs[index_of(fs, members[m])->0],
            fs[index_of(fs, members[0])->0],
        )
}

/// Whether the functions `members` of `fs`, which share a fuzzy form, are
/// merged: at least two; every one is there; their literal lists have one
/// length and differ somewhere; at most `max_params` patterns of differing
/// values; the same signatures; and the first function has at least
/// `narrow_size` statements, or `wide_size` where a new parameter is wider
/// than 64 bits.
pub open spec fn merge_decided(
    fs: Seq<Function>,
    members: Seq<FunctionId>,
    max_params: nat,
    narrow_size: nat,
    wide_size: nat,
) -> bool {
    &&& members.len() >= 2
    &&& members_literals(fs, members) matches Some(ls) && {
        let n = ls[0].len() as int;
        let ds = differing_positions(ls, n);
        let gs = grouped(ls, ds);
        &&& forall|m: int| 0 <= m < ls.len() ==> (#[trigger] ls[m]).len() == n
        &&& ds.len() > 0
        &&& gs.len() <= max_params
        &&& members_compatible(fs, members)
        &&& fs[index_of(fs, members[0])->0].size_estimate >= if all_narrow(ls, gs) {
            narrow_size
        } else {
            wide_size
        }
    }
}

/// The index of the first of the groups `gs[g..]` whose form is `key`.
pub open spec fn form_index(gs: Seq<(Seq<u8>, Seq<FunctionId>)>, key: Seq<u8>, g: int) -> Option<int>
    decreases gs.len() - g,
{
    if g < 0 || g >= gs.len() {
        None
    } else if gs[g].0 == key {
        Some(g)
    } else {
        form_index(gs, key, g + 1)
    }
}

pub proof fn lemma_form_index(gs: Seq<(Seq<u8>, Seq<FunctionId>)>, key: Seq<u8>, g: int)
    requires
        0 <= g,
    ensures
        form_index(gs, key, g) matches Some(k) ==> g <= k < gs.len() && gs[k].0 == key,
        form_index(gs, key, g) is None ==> forall|q: int| g <= q < gs.len() ==> gs[q].0 != key,
    decreases gs.len() - g,
{
    if g < gs.len() && gs[g].0 != key {
        lemma_form_index(gs, key, g + 1);
    }
}

/// The functions of `fs[..n]` with at least `min_size` statements grouped by
/// fuzzy form, each group with its form, in order of first member; the
/// members of a group in order.
pub open spec fn fuzzy_grouping(fs: Seq<Function>, n: int, min_size: nat) -> Seq<(Seq<u8>, Seq<FunctionId>)>
    decreases n,
{
    if n <= 0 || n > fs.len() {
        Seq::empty()
    } else {
        let prev = fuzzy_grouping(fs, n - 1, min_size);
        let f = fs[n - 1];
        if f.size_estimate >= min_size {
            let key = fuzzy_form(f);
            match form_index(prev, key, 0) {
                Some(g) => prev.update(g, (prev[g].0, prev[g].1.push(f.id))),
                None => prev.push((key, seq![f.id])),
            }
        } else {
            prev
        }
    }
}

/// Whether `a` comes before `b` in lexicographic byte order.
pub open spec fn bytes_lt(a: Seq<u8>, b: Seq<u8>) -> bool
    decreases a.len(),
{
    if a.len() == 0 {
        b.len() > 0
    } else if b.len() == 0 {
        false
    } else if a[0] != b[0] {
        a[0] < b[0]
    } else {
        bytes_lt(a.drop_first(), b.drop_first())
    }
}

/// `order` lists each index of `forms` once, the forms in increasing byte order.
pub open spec fn sorted_order(forms: Seq<Seq<u8>>, order: Seq<usize>) -> bool {
    &&& order.len() == forms.len()
    &&& forall|i: int| 0 <= i < order.len() ==> (#[trigger] order[i] as int) < forms.len()
    &&& forall|i: int, j: int| 0 <= i < j < order.len() ==> order[i] != order[j]
    &&& forall|i: int, j: int|
        0 <= i < j < order.len() ==> bytes_lt(forms[#[trigger] order[i] as int], forms[#[trigger] order[j] as int])
}

pub proof fn lemma_bytes_lt_irreflexive(a: Seq<u8>)
    ensures
        !bytes_lt(a, a),
    decreases a.len(),
{
    if a.len() > 0 {
        lemma_bytes_lt_irreflexive(a.drop_first());
    }
}

pub proof fn lemma_bytes_lt_total(a: Seq<u8>, b: Seq<u8>)
    ensures
        a != b ==> bytes_lt(a, b) || bytes_lt(b, a),
    decreases a.len(),
{
    if a.len() == 0 {
        if b.len() == 0 {
            assert(a =~= b);
        }
    } else if b.len() > 0 && a[0] == b[0] {
        lemma_bytes_lt_total(a.drop_first(), b.drop_first());
        if a.drop_first() == b.drop_first() {
            assert(a =~= seq![a[0]] + a.drop_first());
            assert(b =~= seq![b[0]] + b.drop_first());
        }
    }
}

pub proof fn lemma_bytes_lt_transitive(a: Seq<u8>, b: Seq<u8>, c: Seq<u8>)
    requires
        bytes_lt(a, b),
        bytes_lt(b, c),
    ensures
        bytes_lt(a, c),
    decreases a.len(),
{
    if a.len() > 0 && b.len() > 0 && c.len() > 0 && a[0] == b[0] && b[0] == c[0] {
        lemma_bytes_lt_transitive(a.drop_first(), b.drop_first(), c.drop_first());
    }
}

/// The forms of the groups are distinct.
pub proof fn lemma_grouping_forms_distinct(fs: Seq<Function>, n: int, min_size: nat)
    ensures
        forall|g1: int, g2: int|
            0 <= g1 < g2 < fuzzy_grouping(fs, n, min_size).len() ==> #[trigger] fuzzy_grouping(fs, n, min_size)[g1].0
                != #[trigger] fuzzy_grouping(fs, n, min_size)[g2].0,
    decreases n,
{
    if n > 0 && n <= fs.len() {
        lemma_grouping_forms_distinct(fs, n - 1, min_size);
        let prev = fuzzy_grouping(fs, n - 1, min_size);
        let f = fs[n - 1];
        if f.size_estimate >= min_size {
            lemma_form_index(prev, fuzzy_form(f), 0);
        }
    }
}

} // verus!
