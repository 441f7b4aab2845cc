//! SSA construction helpers: fresh value ids and lexically scoped variable bindings.
//!
//! The builder hands out value ids in increasing order and tracks, per lexical
//! scope, which SSA value each source variable currently names. Entering a scope
//! saves the current bindings; exiting restores them.

use crate::ir::{Type, Value, ValueId};
use vstd::prelude::*;
use vstd::string::StringExecFns;

verus! {

/// The bindings that a list of distinct-named entries denotes.
pub open spec fn entries_map(s: Seq<(String, Value)>) -> Map<Seq<char>, Value>
    decreases s.len(),
{
    if s.len() == 0 {
        Map::empty()
    } else {
        entries_map(s.drop_last()).insert(s.last().0@, s.last().1)
    }
}

/// No name occurs twice.
pub open spec fn distinct_names(s: Seq<(String, Value)>) -> bool {
    forall|i: int, j: int| 0 <= i < j < s.len() ==> s[i].0@ != s[j].0@
}

proof fn lemma_entries_map(s: Seq<(String, Value)>)
    requires
        distinct_names(s),
    ensures
        forall|i: int|
            0 <= i < s.len() ==> #[trigger] entries_map(s).contains_key(s[i].0@) && entries_map(
                s,
            )[s[i].0@] == s[i].1,
        forall|k: Seq<char>|
            #[trigger] entries_map(s).contains_key(k) ==> exists|i: int|
                0 <= i < s.len() && s[i].0@ == k,
    decreases s.len(),
{
    if s.len() > 0 {
        let t = s.drop_last();
        assert(distinct_names(t)) by {
            assert forall|a: int, b: int| 0 <= a < b < t.len() implies t[a].0@ != t[b].0@ by {
                assert(t[a] == s[a] && t[b] == s[b]);
            }
        }
        lemma_entries_map(t);
        assert forall|i: int| 0 <= i < s.len() implies #[trigger] entries_map(s).contains_key(
            s[i].0@,
        ) && entries_map(s)[s[i].0@] == s[i].1 by {
            assert(s.last() == s[s.len() - 1]);
            if i < s.len() - 1 {
                assert(t[i] == s[i]);
                assert(s[i].0@ != s[s.len() - 1].0@);
                assert(entries_map(t).contains_key(t[i].0@));
            }
        }
        assert forall|k: Seq<char>| #[trigger] entries_map(s).contains_key(k) implies exists|i: int|
            0 <= i < s.len() && s[i].0@ == k by {
            assert(s.last() == s[s.len() - 1]);
            if k != s.last().0@ {
                assert(entries_map(t).contains_key(k));
                let i = choose|i: int| 0 <= i < t.len() && t[i].0@ == k;
                assert(s[i] == t[i]);
            } else {
                assert(s[s.len() - 1].0@ == k);
            }
        }
    }
}

proof fn lemma_entries_map_update(s: Seq<(String, Value)>, i: int, k: String, v: Value)
    requires
        distinct_names(s),
        0 <= i < s.len(),
        k@ == s[i].0@,
    ensures
        entries_map(s.update(i, (k, v))) == entries_map(s).insert(s[i].0@, v),
        distinct_names(s.update(i, (k, v))),
    decreases s.len(),
{
    let u = s.update(i, (k, v));
    assert(distinct_names(u)) by {
        assert forall|a: int, b: int| 0 <= a < b < u.len() implies u[a].0@ != u[b].0@ by {
            assert(s[a].0@ != s[b].0@);
        }
    }
    if i == s.len() - 1 {
        assert(u.drop_last() == s.drop_last());
        lemma_entries_map(s.drop_last());
        assert(entries_map(s.drop_last()).insert(s[i].0@, v) == entries_map(s).insert(s[i].0@, v));
    } else {
        lemma_entries_map_update(s.drop_last(), i, k, v);
        assert(u.drop_last() == s.drop_last().update(i, (k, v)));
        assert(u.last() == s.last());
        assert(entries_map(u) == entries_map(s).insert(s[i].0@, v));
    }
}

/// A set of variable bindings: variable name to SSA value.
pub struct Scope {
    entries: Vec<(String, Value)>,
}

impl Scope {
    #[verifier::type_invariant]
    spec fn inv(self) -> bool {
        distinct_names(self.entries@)
    }
}

impl View for Scope {
    type V = Map<Seq<char>, Value>;

    closed spec fn view(&self) -> Map<Seq<char>, Value> {
        entries_map(self.entries@)
    }
}

impl Clone for Scope {
    fn clone(&self) -> (r: Self)
        ensures
            r@ == self@,
    {
        proof {
            use_type_invariant(self);
        }
        let mut entries: Vec<(String, Value)> = Vec::new();
        let n = self.entries.len();
        for i in 0..n
            invariant
                n == self.entries@.len(),
                entries@.len() == i,
                forall|j: int| 0 <= j < i ==> (#[trigger] entries@[j]).0@ == self.entries@[j].0@,
                forall|j: int| 0 <= j < i ==> (#[trigger] entries@[j]).1 == self.entries@[j].1,
        {
            let name = self.entries[i].0.clone();
            entries.push((name, self.entries[i].1));
        }
        proof {
            lemma_same_names_same_map(entries@, self.entries@);
        }
        Scope { entries }
    }
}

proof fn lemma_same_names_same_map(a: Seq<(String, Value)>, b: Seq<(String, Value)>)
    requires
        a.len() == b.len(),
        forall|j: int| 0 <= j < a.len() ==> (#[trigger] a[j]).0@ == b[j].0@,
        forall|j: int| 0 <= j < a.len() ==> (#[trigger] a[j]).1 == b[j].1,
    ensures
        entries_map(a) == entries_map(b),
        distinct_names(a) == distinct_names(b),
    decreases a.len(),
{
    assert(distinct_names(a) == distinct_names(b)) by {
        if distinct_names(a) {
            assert forall|i: int, j: int| 0 <= i < j < b.len() implies b[i].0@ != b[j].0@ by {
                assert(a[i].0@ != a[j].0@);
            }
        }
        if distinct_names(b) {
            assert forall|i: int, j: int| 0 <= i < j < a.len() implies a[i].0@ != a[j].0@ by {
                assert(b[i].0@ != b[j].0@);
            }
        }
    }
    if a.len() > 0 {
        assert(a.last() == a[a.len() - 1]);
        assert(b.last() == b[b.len() - 1]);
        lemma_same_names_same_map(a.drop_last(), b.drop_last());
        assert(a.last().0@ == b.last().0@);
    }
}

impl Scope {
    /// An empty scope.
    pub fn new() -> (r: Scope)
        ensures
            r@ == Map::<Seq<char>, Value>::empty(),
    {
        Scope { entries: Vec::new() }
    }

    /// The number of bindings.
    pub fn len(&self) -> (r: usize)
        ensures
            r == self@.len(),
    {
        proof {
            use_type_invariant(self);
            lemma_entries_len(self.entries@);
        }
        self.entries.len()
    }

    fn position(&self, name: &str) -> (r: Option<usize>)
        ensures
            match r {
                Some(i) => i < self.entries@.len() && self.entries@[i as int].0@ == name@,
                None => forall|j: int|
                    0 <= j < self.entries@.len() ==> self.entries@[j].0@ != name@,
            },
    {
        let key = String::from_str(name);
        let n = self.entries.len();
        for i in 0..n
            invariant
                n == self.entries@.len(),
                key@ == name@,
                forall|j: int| 0 <= j < i ==> self.entries@[j].0@ != name@,
        {
            if self.entries[i].0 == key {
                return Some(i);
            }
        }
        None
    }

    /// The value bound to `name`, if any.
    pub fn get(&self, name: &str) -> (r: Option<Value>)
        ensures
            r == (if self@.contains_key(name@) {
                Some(self@[name@])
            } else {
                None::<Value>
            }),
    {
        proof {
            use_type_invariant(self);
            lemma_entries_map(self.entries@);
        }
        match self.position(name) {
            Some(i) => Some(self.entries[i].1),
            None => None,
        }
    }

    /// Whether `name` is bound.
    pub fn contains_key(&self, name: &str) -> (r: bool)
        ensures
            r == self@.contains_key(name@),
    {
        proof {
            use_type_invariant(self);
            lemma_entries_map(self.entries@);
        }
        self.position(name).is_some()
    }

    /// Binds `name` to `value`, replacing an earlier binding.
    pub fn insert(&mut self, name: &str, value: Value)
        ensures
            final(self)@ == old(self)@.insert(name@, value),
    {
        proof {
            use_type_invariant(&*self);
        }
        let ghost old_entries = self.entries@;
        let pos = self.position(name);
        let mut entries: Vec<(String, Value)> = Vec::new();
        std::mem::swap(&mut entries, &mut self.entries);
        match pos {
            Some(i) => {
                let key = entries[i].0.clone();
                entries.set(i, (key, value));
                proof {
                    lemma_entries_map_update(old_entries, i as int, key, value);
                }
            },
            None => {
                let key = String::from_str(name);
                entries.push((key, value));
                proof {
                    assert(entries@.drop_last() == old_entries);
                    assert(distinct_names(entries@)) by {
                        assert forall|a: int, b: int|
                            0 <= a < b < entries@.len() implies entries@[a].0@
                            != entries@[b].0@ by {
                            if b < old_entries.len() {
                                assert(old_entries[a] == entries@[a]);
                                assert(old_entries[b] == entries@[b]);
                            } else {
                                assert(old_entries[a] == entries@[a]);
                            }
                        }
                    }
                }
            },
        }
        self.entries = entries;
    }
}

proof fn lemma_entries_len(s: Seq<(String, Value)>)
    requires
        distinct_names(s),
    ensures
        entries_map(s).len() == s.len(),
        entries_map(s).dom().finite(),
    decreases s.len(),
{
    if s.len() > 0 {
        let t = s.drop_last();
        lemma_entries_len(t);
        lemma_entries_map(t);
        if entries_map(t).contains_key(s.last().0@) {
            let i = choose|i: int| 0 <= i < t.len() && t[i].0@ == s.last().0@;
            assert(s[i] == t[i]);
            assert(false);
        }
    }
}

} // verus!

verus! {

/// The abstract state of an [`SsaBuilder`].
pub struct SsaState {
    /// The id that the next allocation returns.
    pub next: nat,
    /// Bindings of the current scope.
    pub current: Map<Seq<char>, Value>,
    /// Saved bindings of the enclosing scopes, innermost last.
    pub saved: Seq<Map<Seq<char>, Value>>,
}

/// The state after entering a scope: the current bindings are saved and stay visible.
pub open spec fn spec_enter_scope(s: SsaState) -> SsaState {
    SsaState { next: s.next, current: s.current, saved: s.saved.push(s.current) }
}

/// The state after exiting a scope: the innermost saved bindings come back.
pub open spec fn spec_exit_scope(s: SsaState) -> SsaState {
    SsaState { next: s.next, current: s.saved.last(), saved: s.saved.drop_last() }
}

/// The state after binding `name` to `value` in the current scope.
pub open spec fn spec_bind(s: SsaState, name: Seq<char>, value: Value) -> SsaState {
    SsaState { next: s.next, current: s.current.insert(name, value), saved: s.saved }
}

/// The value that `name` denotes in a state.
pub open spec fn spec_lookup(s: SsaState, name: Seq<char>) -> Option<Value> {
    if s.current.contains_key(name) {
        Some(s.current[name])
    } else {
        None
    }
}

/// SSA builder that tracks variable definitions and creates fresh value ids.
pub struct SsaBuilder {
    next_value_id: ValueId,
    current_scope: Scope,
    scope_stack: Vec<Scope>,
}

impl View for SsaBuilder {
    type V = SsaState;

    closed spec fn view(&self) -> SsaState {
        SsaState {
            next: self.next_value_id.0 as nat,
            current: self.current_scope@,
            saved: self.scope_stack@.map_values(|s: Scope| s@),
        }
    }
}

impl SsaBuilder {
    /// A builder with no bindings whose first id is 0.
    pub fn new() -> (r: SsaBuilder)
        ensures
            r@.next == 0,
            r@.current == Map::<Seq<char>, Value>::empty(),
            r@.saved.len() == 0,
    {
        let r = SsaBuilder {
            next_value_id: ValueId(0),
            current_scope: Scope::new(),
            scope_stack: Vec::new(),
        };
        assert(r@.saved =~= Seq::<Map<Seq<char>, Value>>::empty());
        r
    }

    /// Allocates a fresh value id: ids are handed out in increasing order.
    pub fn fresh_id(&mut self) -> (r: ValueId)
        requires
            old(self)@.next < u32::MAX,
        ensures
            r.0 == old(self)@.next,
            final(self)@ == (SsaState { next: old(self)@.next + 1, ..old(self)@ }),
    {
        self.next_value_id.fresh()
    }

    /// Allocates a fresh value of the given type.
    pub fn fresh_typed_value(&mut self, value_type: Type) -> (r: Value)
        requires
            old(self)@.next < u32::MAX,
        ensures
            r.id.0 == old(self)@.next,
            r.value_type == value_type,
            final(self)@ == (SsaState { next: old(self)@.next + 1, ..old(self)@ }),
    {
        let id = self.fresh_id();
        Value::new(id, value_type)
    }

    /// Declares a new variable in the current scope; it must not be bound there yet.
    pub fn declare(&mut self, name: &str, value: Value)
        requires
            !old(self)@.current.contains_key(name@),
        ensures
            final(self)@ == spec_bind(old(self)@, name@, value),
    {
        self.current_scope.insert(name, value);
    }

    /// Assigns a new value to a variable that is bound in the current scope.
    pub fn assign(&mut self, name: &str, value: Value)
        requires
            old(self)@.current.contains_key(name@),
        ensures
            final(self)@ == spec_bind(old(self)@, name@, value),
    {
        self.current_scope.insert(name, value);
    }

    /// The current SSA value of a variable.
    pub fn lookup(&self, name: &str) -> (r: Option<Value>)
        ensures
            r == spec_lookup(self@, name@),
    {
        self.current_scope.get(name)
    }

    /// Enters a new scope, saving the current bindings.
    pub fn enter_scope(&mut self)
        ensures
            final(self)@ == spec_enter_scope(old(self)@),
    {
        let saved = self.current_scope.clone();
        self.scope_stack.push(saved);
        proof {
            assert(self@.saved =~= old(self)@.saved.push(old(self)@.current));
        }
    }

    /// Exits the current scope, restoring the saved bindings; returns the bindings
    /// of the scope that was left. There must be a scope to exit.
    pub fn exit_scope(&mut self) -> (r: Scope)
        requires
            old(self)@.saved.len() > 0,
        ensures
            r@ == old(self)@.current,
            final(self)@ == spec_exit_scope(old(self)@),
    {
        let mut exited = self.scope_stack.pop().unwrap();
        std::mem::swap(&mut exited, &mut self.current_scope);
        proof {
            assert(self@.saved =~= old(self)@.saved.drop_last());
        }
        exited
    }

    /// The bindings of the current scope.
    pub fn current_scope(&self) -> (r: &Scope)
        ensures
            r@ == self@.current,
    {
        &self.current_scope
    }

    /// Replaces the current bindings with `scope`.
    pub fn restore_scope(&mut self, scope: Scope)
        ensures
            final(self)@ == (SsaState { current: scope@, ..old(self)@ }),
    {
        self.current_scope = scope;
    }

    /// The id that the next allocation will return.
    pub fn peek_next_id(&self) -> (r: ValueId)
        ensures
            r.0 == self@.next,
    {
        self.next_value_id
    }
}

/// Exiting a scope right after entering one gives back the state before the enter.
pub proof fn law_exit_undoes_enter(s: SsaState)
    ensures
        spec_exit_scope(spec_enter_scope(s)) == s,
{
    assert(spec_enter_scope(s).saved.drop_last() =~= s.saved);
}

/// Bindings made inside a scope are forgotten when the scope is left: after
/// entering, binding any name and exiting, every name denotes what it did before.
pub proof fn law_scope_bindings_are_local(s: SsaState, name: Seq<char>, value: Value, other: Seq<char>)
    ensures
        spec_lookup(spec_exit_scope(spec_bind(spec_enter_scope(s), name, value)), other)
            == spec_lookup(s, other),
{
}

/// A lookup right after a binding finds the bound value.
pub proof fn law_lookup_after_bind(s: SsaState, name: Seq<char>, value: Value)
    ensures
        spec_lookup(spec_bind(s, name, value), name) == Some(value),
{
}

/// A binding leaves every other name as it was.
pub proof fn law_bind_keeps_other_names(s: SsaState, name: Seq<char>, value: Value, other: Seq<char>)
    requires
        other != name,
    ensures
        spec_lookup(spec_bind(s, name, value), other) == spec_lookup(s, other),
{
}

/// One step a builder can take on its bindings.
pub enum ScopeStep {
    /// Hand out a fresh id.
    Fresh,
    /// Bind a name, as a declaration or an assignment does.
    Bind(Seq<char>, Value),
    /// Enter a scope.
    Enter,
    /// Exit a scope.
    Exit,
}

/// The state after one step.
pub open spec fn scope_step(s: SsaState, step: ScopeStep) -> SsaState {
    match step {
        ScopeStep::Fresh => SsaState { next: s.next + 1, ..s },
        ScopeStep::Bind(name, value) => spec_bind(s, name, value),
        ScopeStep::Enter => spec_enter_scope(s),
        ScopeStep::Exit => spec_exit_scope(s),
    }
}

/// The state after the steps in order.
pub open spec fn scope_run(s: SsaState, steps: Seq<ScopeStep>) -> SsaState
    decreases steps.len(),
{
    if steps.len() == 0 {
        s
    } else {
        scope_step(scope_run(s, steps.drop_last()), steps.last())
    }
}

/// Scopes entered less scopes exited by the steps.
pub open spec fn scope_depth(steps: Seq<ScopeStep>) -> int
    decreases steps.len(),
{
    if steps.len() == 0 {
        0
    } else {
        scope_depth(steps.drop_last()) + match steps.last() {
            ScopeStep::Enter => 1int,
            ScopeStep::Exit => -1int,
            _ => 0int,
        }
    }
}

/// No prefix of the steps exits a scope it did not enter.
pub open spec fn never_below(steps: Seq<ScopeStep>) -> bool {
    forall|i: int| 0 <= i <= steps.len() ==> scope_depth(#[trigger] steps.take(i)) >= 0
}

proof fn lemma_scope_run(s: SsaState, steps: Seq<ScopeStep>)
    requires
        never_below(steps),
    ensures
        scope_run(s, steps).saved.len() == s.saved.len() + scope_depth(steps),
        scope_run(s, steps).saved.subrange(0, s.saved.len() as int) == s.saved,
        scope_run(s, steps).next >= s.next,
    decreases steps.len(),
{
    if steps.len() > 0 {
        let init = steps.drop_last();
        assert forall|i: int| 0 <= i <= init.len() implies scope_depth(#[trigger] init.take(i)) >= 0 by {
            assert(init.take(i) =~= steps.take(i));
        }
        lemma_scope_run(s, init);
        assert(steps.take(steps.len() as int) =~= steps);
        assert(scope_depth(steps.take(steps.len() as int)) >= 0);
        let t = scope_run(s, init);
        match steps.last() {
            ScopeStep::Enter => {
                assert(t.saved.push(t.current).subrange(0, s.saved.len() as int) =~= s.saved);
            },
            ScopeStep::Exit => {
                assert(t.saved.len() > s.saved.len());
                assert(t.saved.drop_last().subrange(0, s.saved.len() as int) =~= s.saved);
            },
            _ => {},
        }
    }
}

/// Exiting a scope undoes whatever happened since it was entered: after
/// entering, any run of steps that exits only scopes it entered and leaves as
/// many as it entered, then exiting, the bindings and the saved scopes are
/// those from before, the innermost bindings are handed back, and the id
/// counter is never rewound.
pub proof fn law_exit_restores_bindings(s: SsaState, steps: Seq<ScopeStep>)
    requires
        never_below(steps),
        scope_depth(steps) == 0,
    ensures
        spec_exit_scope(scope_run(spec_enter_scope(s), steps)).current == s.current,
        spec_exit_scope(scope_run(spec_enter_scope(s), steps)).saved == s.saved,
        spec_exit_scope(scope_run(spec_enter_scope(s), steps)).next == scope_run(spec_enter_scope(s), steps).next,
        scope_run(spec_enter_scope(s), steps).next >= s.next,
{
    let e = spec_enter_scope(s);
    lemma_scope_run(e, steps);
    let t = scope_run(e, steps);
    assert(t.saved =~= e.saved);
    assert(t.saved.drop_last() =~= s.saved);
}

} // verus!
