use vstd::prelude::*;

use indexmap::IndexMap;
use std::rc::Rc;

use crate::cli::Args;
use crate::error::{ParserMessage, ParserWarning, ParserWarningType};
use crate::instruction::{Function, InstructionResult};
use crate::token::{Token, TokenKind};
use crate::variable::Variable;

verus! {

/// The insertion-ordered hash map of the `indexmap` crate.
#[verifier::external_type_specification]
#[verifier::external_body]
#[verifier::reject_recursive_types(K)]
#[verifier::reject_recursive_types(V)]
#[verifier::reject_recursive_types(S)]
pub struct ExIndexMap<K, V, S>(IndexMap<K, V, S>);

/// The entries of a map of variables, in insertion order.
pub uninterp spec fn variable_entries(m: IndexMap<String, Variable>) -> Seq<(Seq<char>, Variable)>;

/// The entries of a map of functions, in insertion order.
pub uninterp spec fn function_entries(m: IndexMap<String, Function>) -> Seq<(Seq<char>, Function)>;

/// No key occurs twice among the entries.
pub open spec fn keys_distinct<V>(entries: Seq<(Seq<char>, V)>) -> bool {
    forall|i: int, j: int|
        0 <= i < entries.len() && 0 <= j < entries.len() && i != j ==> entries[i].0
            != entries[j].0
}

/// The index of the entry with key `key`, if there is one.
pub open spec fn entry_index<V>(entries: Seq<(Seq<char>, V)>, key: Seq<char>) -> Option<int> {
    if exists|i: int| 0 <= i < entries.len() && entries[i].0 == key {
        Some(choose|i: int| 0 <= i < entries.len() && entries[i].0 == key)
    } else {
        None
    }
}

/// The value stored under `key`, if any.
pub open spec fn entry_value<V>(entries: Seq<(Seq<char>, V)>, key: Seq<char>) -> Option<V> {
    match entry_index(entries, key) {
        Some(i) => Some(entries[i].1),
        None => None,
    }
}

/// The entries after storing `value` under `key`: an entry with that key keeps its
/// place and takes the new value; otherwise the entry is added last.
pub open spec fn entries_insert<V>(entries: Seq<(Seq<char>, V)>, key: Seq<char>, value: V) -> Seq<
    (Seq<char>, V),
> {
    match entry_index(entries, key) {
        Some(i) => entries.update(i, (key, value)),
        None => entries.push((key, value)),
    }
}

/// Entries with the same keys, in the same order and without repeats, store a key at
/// the same place.
pub proof fn lemma_same_keys<V, W>(a: Seq<(Seq<char>, V)>, b: Seq<(Seq<char>, W)>, key: Seq<char>)
    requires
        a.len() == b.len(),
        forall|i: int| 0 <= i < a.len() ==> #[trigger] a[i].0 == b[i].0,
        keys_distinct(a),
    ensures
        entry_index(a, key) == entry_index(b, key),
{
    if exists|i: int| 0 <= i < a.len() && a[i].0 == key {
        let i = choose|i: int| 0 <= i < a.len() && a[i].0 == key;
        assert(b[i].0 == key);
        let ea = entry_index(a, key);
        let eb = entry_index(b, key);
        assert(eb is Some);
        let x = eb->0;
        assert(0 <= x < b.len() && b[x].0 == key);
        assert(a[x].0 == key);
        let y = ea->0;
        assert(0 <= y < a.len() && a[y].0 == key);
        assert(x == y);
    } else {
        if exists|i: int| 0 <= i < b.len() && b[i].0 == key {
            let j = choose|i: int| 0 <= i < b.len() && b[i].0 == key;
            assert(a[j].0 == key);
        }
    }
}

proof fn lemma_insert_distinct<V>(entries: Seq<(Seq<char>, V)>, key: Seq<char>, value: V)
    requires
        keys_distinct(entries),
    ensures
        keys_distinct(entries_insert(entries, key, value)),
        entry_value(entries_insert(entries, key, value), key) == Some(value),
        forall|k: Seq<char>|
            k != key ==> entry_value(entries_insert(entries, key, value), k) == entry_value(
                entries,
                k,
            ),
{
    let n = entries_insert(entries, key, value);
    match entry_index(entries, key) {
        Some(i) => {
            assert(n[i].0 == key);
        },
        None => {
            assert(n[entries.len() as int].0 == key);
        },
    }
    assert forall|k: Seq<char>| k != key implies entry_value(n, k) == entry_value(entries, k) by {
        if exists|i: int| 0 <= i < entries.len() && entries[i].0 == k {
            let i = choose|i: int| 0 <= i < entries.len() && entries[i].0 == k;
            assert(n[i].0 == k);
            let j = choose|j: int| 0 <= j < n.len() && n[j].0 == k;
            assert(j == i);
        } else {
            if exists|j: int| 0 <= j < n.len() && n[j].0 == k {
                let j = choose|j: int| 0 <= j < n.len() && n[j].0 == k;
                assert(entries[j].0 == k);
            }
        }
    }
    let i = choose|i: int| 0 <= i < n.len() && n[i].0 == key;
    match entry_index(entries, key) {
        Some(m) => {
            assert(i == m);
        },
        None => {
            assert(i == entries.len());
        },
    }
}

/// An empty map of variables; calls `IndexMap::new`.
#[verifier::external_body]
fn new_variable_map() -> (r: IndexMap<String, Variable>)
    ensures
        variable_entries(r) == Seq::<(Seq<char>, Variable)>::empty(),
{
    IndexMap::new()
}

/// Stores a variable under `key`; calls `IndexMap::insert`, which keeps the place of an
/// entry whose key is already present and adds a new one last.
#[verifier::external_body]
fn insert_variable(m: &mut IndexMap<String, Variable>, key: String, value: Variable)
    requires
        keys_distinct(variable_entries(*old(m))),
    ensures
        variable_entries(*final(m)) == entries_insert(variable_entries(*old(m)), key@, value),
{
    m.insert(key, value);
}

/// The variable stored under `key`; calls `IndexMap::get`.
#[verifier::external_body]
fn get_variable<'a>(m: &'a IndexMap<String, Variable>, key: &str) -> (r: Option<&'a Variable>)
    requires
        keys_distinct(variable_entries(*m)),
    ensures
        r is Some <==> entry_value(variable_entries(*m), key@) is Some,
        r matches Some(v) ==> *v == entry_value(variable_entries(*m), key@)->0,
{
    m.get(key)
}

/// The stored variables, in insertion order; calls `IndexMap::values`.
#[verifier::external_body]
fn variable_values(m: &IndexMap<String, Variable>) -> (r: Vec<Variable>)
    ensures
        r@ == variable_entries(*m).map_values(|e: (Seq<char>, Variable)| e.1),
{
    m.values().cloned().collect()
}

/// An empty map of functions; calls `IndexMap::new`.
#[verifier::external_body]
fn new_function_map() -> (r: IndexMap<String, Function>)
    ensures
        function_entries(r) == Seq::<(Seq<char>, Function)>::empty(),
{
    IndexMap::new()
}

/// Stores a function under `key`; calls `IndexMap::insert`, which keeps the place of an
/// entry whose key is already present and adds a new one last.
#[verifier::external_body]
fn insert_function(m: &mut IndexMap<String, Function>, key: String, value: Function)
    requires
        keys_distinct(function_entries(*old(m))),
    ensures
        function_entries(*final(m)) == entries_insert(function_entries(*old(m)), key@, value),
{
    m.insert(key, value);
}

/// The function stored under `key`; calls `IndexMap::get`.
#[verifier::external_body]
fn get_function_entry<'a>(m: &'a IndexMap<String, Function>, key: &str) -> (r: Option<&'a Function>)
    requires
        keys_distinct(function_entries(*m)),
    ensures
        r is Some <==> entry_value(function_entries(*m), key@) is Some,
        r matches Some(f) ==> *f == entry_value(function_entries(*m), key@)->0,
{
    m.get(key)
}

/// The entries of a map of shared functions, in insertion order.
pub uninterp spec fn shared_function_entries(m: IndexMap<String, Rc<Function>>) -> Seq<(Seq<char>, Function)>;

/// An empty map of shared functions; calls `IndexMap::new`.
#[verifier::external_body]
fn new_shared_function_map() -> (r: IndexMap<String, Rc<Function>>)
    ensures
        shared_function_entries(r) == Seq::<(Seq<char>, Function)>::empty(),
{
    IndexMap::new()
}

/// Stores a shared function under `key`; calls `IndexMap::insert`, which keeps the
/// place of an entry whose key is already present and adds a new one last.
#[verifier::external_body]
fn insert_shared_function(m: &mut IndexMap<String, Rc<Function>>, key: String, value: Rc<Function>)
    requires
        keys_distinct(shared_function_entries(*old(m))),
    ensures
        shared_function_entries(*final(m)) == entries_insert(shared_function_entries(*old(m)), key@, *value),
{
    m.insert(key, value);
}

/// The shared function stored under `key`; calls `IndexMap::get`.
#[verifier::external_body]
fn get_shared_function<'a>(m: &'a IndexMap<String, Rc<Function>>, key: &str) -> (r: Option<&'a Rc<Function>>)
    requires
        keys_distinct(shared_function_entries(*m)),
    ensures
        r is Some <==> entry_value(shared_function_entries(*m), key@) is Some,
        r matches Some(f) ==> **f == entry_value(shared_function_entries(*m), key@)->0,
{
    m.get(key)
}

/// Another handle on the function that `f` holds; calls `Rc::clone`, which gives a
/// pointer to the same allocation.
#[verifier::external_body]
fn share(f: &Rc<Function>) -> (r: Rc<Function>)
    ensures
        *r == **f,
{
    Rc::clone(f)
}

/// Whether two tokens are equal, the tokens before them included.
pub open spec fn tokens_equal(a: Token, b: Token) -> bool
    decreases a,
{
    &&& a.token_type@ == b.token_type@
    &&& a.file@ == b.file@
    &&& a.row == b.row
    &&& a.column == b.column
    &&& a.line@ == b.line@
    &&& match (a.last_token, b.last_token) {
        (None, None) => true,
        (Some(x), Some(y)) => tokens_equal(*x, *y),
        _ => false,
    }
}

/// Whether two tokens are equal, the tokens before them included.
pub fn same_token(a: &Token, b: &Token) -> (r: bool)
    ensures
        r == tokens_equal(*a, *b),
    decreases a,
{
    if !(a.token_type.same(&b.token_type) && a.file.eq(&b.file) && a.row == b.row && a.column
        == b.column && a.line.eq(&b.line)) {
        return false;
    }
    match (&a.last_token, &b.last_token) {
        (None, None) => true,
        (Some(x), Some(y)) => same_token(x, y),
        (Some(_), None) => false,
        (None, Some(_)) => false,
    }
}

/// The scopes of variables and the functions known while parsing and type checking.
pub struct ParseEnvironment {
    pub variables: Vec<IndexMap<String, Variable>>,
    pub functions: IndexMap<String, Function>,
    pub args: Args,
}

/// The warnings about the variables of a scope that are never read: for each such
/// variable whose name does not start with `_`, in order, "not read" at its last
/// assignment if it was assigned after its declaration, else "unused" at its name.
pub open spec fn unused_warnings(vars: Seq<Variable>) -> Seq<ParserWarning>
    decreases vars.len(),
{
    if vars.len() == 0 {
        seq![]
    } else {
        let v = vars.last();
        unused_warnings(vars.drop_last()) + if !v.read && v.name@[0] != '_' {
            if !tokens_equal(v.declaration_token, v.last_assignment_token) {
                seq![
                    ParserWarning {
                        warning_type: ParserWarningType::VariableNotRead,
                        token: v.last_assignment_token,
                    },
                ]
            } else {
                seq![
                    ParserWarning {
                        warning_type: ParserWarningType::UnusedVariable,
                        token: v.identifier_token,
                    },
                ]
            }
        } else {
            seq![]
        }
    }
}

/// The warnings about the variables of a scope that are never reassigned: for each
/// variable that is not a constant, was not assigned after its declaration and whose
/// name does not start with `_`, in order, at its declaration.
pub open spec fn unassigned_warnings(vars: Seq<Variable>) -> Seq<ParserWarning>
    decreases vars.len(),
{
    if vars.len() == 0 {
        seq![]
    } else {
        let v = vars.last();
        unassigned_warnings(vars.drop_last()) + if !v.constant && !v.assigned && v.name@[0]
            != '_' {
            seq![
                ParserWarning {
                    warning_type: ParserWarningType::VariableNeverReAssigned,
                    token: v.declaration_token,
                },
            ]
        } else {
            seq![]
        }
    }
}

/// The messages of a sequence of warnings.
pub open spec fn as_messages(ws: Seq<ParserWarning>) -> Seq<ParserMessage> {
    ws.map_values(|w: ParserWarning| ParserMessage::Warning(w))
}

impl ParseEnvironment {
    /// The variables of each scope, innermost last, as entries in declaration order.
    pub closed spec fn scopes(&self) -> Seq<Seq<(Seq<char>, Variable)>> {
        self.variables@.map_values(|m: IndexMap<String, Variable>| variable_entries(m))
    }

    /// The known functions, as entries in the order of their first definition.
    pub closed spec fn function_table(&self) -> Seq<(Seq<char>, Function)> {
        function_entries(self.functions)
    }

    /// The environment is consistent: no name occurs twice in a scope, and every
    /// variable has a name and is stored under it.
    pub closed spec fn wf(&self) -> bool {
        &&& forall|i: int|
            0 <= i < self.variables@.len() ==> #[trigger] keys_distinct(
                variable_entries(self.variables@[i]),
            )
        &&& forall|i: int, j: int|
            0 <= i < self.variables@.len() && 0 <= j < variable_entries(self.variables@[i]).len()
                ==> (#[trigger] variable_entries(self.variables@[i])[j]).1.name@.len() > 0
                && variable_entries(self.variables@[i])[j].0 == variable_entries(
                self.variables@[i],
            )[j].1.name@
        &&& keys_distinct(function_entries(self.functions))
    }

    /// What consistency gives the entries: no name occurs twice among the functions
    /// or in a scope.
    pub proof fn lemma_distinct(&self)
        requires
            self.wf(),
        ensures
            keys_distinct(self.function_table()),
            forall|i: int| 0 <= i < self.scopes().len() ==> keys_distinct(#[trigger] self.scopes()[i]),
    {
        assert forall|i: int| 0 <= i < self.scopes().len() implies keys_distinct(#[trigger] self.scopes()[i]) by {
            assert(self.scopes()[i] == variable_entries(self.variables@[i]));
        }
    }

    /// An environment with one empty scope and no functions.
    pub fn new(args: Args) -> (r: ParseEnvironment)
        ensures
            r.wf(),
            r.scopes() == seq![Seq::<(Seq<char>, Variable)>::empty()],
            r.function_table() == Seq::<(Seq<char>, Function)>::empty(),
            r.args == args,
    {
        let mut variables = Vec::new();
        variables.push(new_variable_map());
        let r = ParseEnvironment { variables, functions: new_function_map(), args };
        assert(r.scopes() =~= seq![Seq::<(Seq<char>, Variable)>::empty()]);
        r
    }

    /// Opens a new innermost scope.
    pub fn add_scope(&mut self)
        requires
            old(self).wf(),
        ensures
            final(self).wf(),
            final(self).scopes() == old(self).scopes().push(Seq::empty()),
            names_kept(old(self).scopes(), final(self).scopes()),
            final(self).function_table() == old(self).function_table(),
            final(self).args == old(self).args,
    {
        self.variables.push(new_variable_map());
        assert(self.scopes() =~= old(self).scopes().push(Seq::empty()));
        assert forall|i: int| 0 <= i < old(self).scopes().len() - 1 implies same_keys(
            #[trigger] self.scopes()[i],
            old(self).scopes()[i],
        ) by {
            assert(self.scopes()[i] == old(self).scopes()[i]);
        }
    }
}

/// The index of the innermost of the first `n` scopes that has a variable `key`.
pub open spec fn innermost_scope(scopes: Seq<Seq<(Seq<char>, Variable)>>, n: int, key: Seq<char>) -> Option<int>
    decreases n,
{
    if n <= 0 {
        None
    } else if entry_value(scopes[n - 1], key) is Some {
        Some(n - 1)
    } else {
        innermost_scope(scopes, n - 1, key)
    }
}

/// The variable `key` as the innermost scope that has one holds it.
pub open spec fn scoped_lookup(scopes: Seq<Seq<(Seq<char>, Variable)>>, key: Seq<char>) -> Option<Variable> {
    match innermost_scope(scopes, scopes.len() as int, key) {
        Some(i) => entry_value(scopes[i], key),
        None => None,
    }
}

/// The scopes after storing `v`: in the innermost scope that has a variable of that
/// name, else in the innermost scope.
pub open spec fn scoped_insert(scopes: Seq<Seq<(Seq<char>, Variable)>>, v: Variable) -> Seq<Seq<(Seq<char>, Variable)>> {
    let i = match innermost_scope(scopes, scopes.len() as int, v.name@) {
        Some(i) => i,
        None => scopes.len() - 1,
    };
    scopes.update(i, entries_insert(scopes[i], v.name@, v))
}

proof fn lemma_innermost_bounds(scopes: Seq<Seq<(Seq<char>, Variable)>>, n: int, key: Seq<char>)
    requires
        n <= scopes.len(),
    ensures
        innermost_scope(scopes, n, key) matches Some(i) ==> 0 <= i < n && entry_value(
            scopes[i],
            key,
        ) is Some,
        innermost_scope(scopes, n, key) is None ==> forall|i: int|
            0 <= i < n ==> entry_value(#[trigger] scopes[i], key) is None,
        innermost_scope(scopes, n, key) matches Some(i) ==> forall|j: int|
            i < j < n ==> entry_value(#[trigger] scopes[j], key) is None,
    decreases n,
{
    if n > 0 {
        lemma_innermost_bounds(scopes, n - 1, key);
    }
}

/// The innermost of the first `n` scopes that has `key` is `i` when scope `i` has it
/// and none after it does.
proof fn lemma_innermost_is(scopes: Seq<Seq<(Seq<char>, Variable)>>, n: int, key: Seq<char>, i: int)
    requires
        0 <= i < n <= scopes.len(),
        entry_value(scopes[i], key) is Some,
        forall|j: int| i < j < n ==> entry_value(#[trigger] scopes[j], key) is None,
    ensures
        innermost_scope(scopes, n, key) == Some(i),
    decreases n,
{
    if n - 1 != i {
        lemma_innermost_is(scopes, n - 1, key, i);
    }
}

/// Scopes that agree on `key` find the same innermost scope for it.
proof fn lemma_innermost_same(
    a: Seq<Seq<(Seq<char>, Variable)>>,
    b: Seq<Seq<(Seq<char>, Variable)>>,
    n: int,
    key: Seq<char>,
)
    requires
        n <= a.len(),
        n <= b.len(),
        forall|j: int| 0 <= j < n ==> entry_value(#[trigger] a[j], key) == entry_value(b[j], key),
    ensures
        innermost_scope(a, n, key) == innermost_scope(b, n, key),
    decreases n,
{
    if n > 0 {
        assert(entry_value(a[n - 1], key) == entry_value(b[n - 1], key));
        lemma_innermost_same(a, b, n - 1, key);
    }
}

/// Reading a name right after storing a variable gives that variable back, and
/// storing a variable leaves what every other name reads as it was.
pub proof fn law_lookup_after_insert(scopes: Seq<Seq<(Seq<char>, Variable)>>, v: Variable, k: Seq<char>)
    requires
        scopes.len() >= 1,
        forall|i: int| 0 <= i < scopes.len() ==> keys_distinct(#[trigger] scopes[i]),
    ensures
        scoped_lookup(scoped_insert(scopes, v), v.name@) == Some(v),
        k != v.name@ ==> scoped_lookup(scoped_insert(scopes, v), k) == scoped_lookup(scopes, k),
{
    let n = scopes.len() as int;
    let key = v.name@;
    lemma_innermost_bounds(scopes, n, key);
    let i = match innermost_scope(scopes, n, key) {
        Some(i) => i,
        None => n - 1,
    };
    let after = scoped_insert(scopes, v);
    lemma_insert_distinct(scopes[i], key, v);
    assert(after[i] == entries_insert(scopes[i], key, v));
    assert forall|j: int| i < j < n implies entry_value(#[trigger] after[j], key) is None by {
        assert(after[j] == scopes[j]);
    }
    lemma_innermost_is(after, n, key, i);
    if k != key {
        assert forall|j: int| 0 <= j < n implies entry_value(#[trigger] after[j], k) == entry_value(
            scopes[j],
            k,
        ) by {
            if j != i {
                assert(after[j] == scopes[j]);
            }
        }
        lemma_innermost_same(after, scopes, n, k);
        lemma_innermost_bounds(scopes, n, k);
        match innermost_scope(scopes, n, k) {
            Some(m) => {
                assert(entry_value(after[m], k) == entry_value(scopes[m], k));
            },
            None => {},
        }
    }
}

/// Whether the scope `a` has a variable `k` exactly when the scope `b` has one.
pub open spec fn same_keys(a: Seq<(Seq<char>, Variable)>, b: Seq<(Seq<char>, Variable)>) -> bool {
    forall|k: Seq<char>| #[trigger] entry_value(a, k) is Some <==> entry_value(b, k) is Some
}

/// Whether the scopes `after` keep the names of the scopes `before`: every scope but
/// the innermost of `before` has the same names, the innermost has kept its names and
/// may have gained some, and scopes may have been opened after it.
pub open spec fn names_kept(before: Seq<Seq<(Seq<char>, Variable)>>, after: Seq<Seq<(Seq<char>, Variable)>>) -> bool {
    &&& after.len() >= before.len()
    &&& forall|i: int| 0 <= i < before.len() - 1 ==> same_keys(#[trigger] after[i], before[i])
    &&& forall|k: Seq<char>|
        before.len() > 0 && entry_value(before.last(), k) is Some ==> entry_value(
            #[trigger] after[before.len() - 1],
            k,
        ) is Some
}

/// Whether two stacks of scopes hold the same names, scope by scope.
pub open spec fn same_names(a: Seq<Seq<(Seq<char>, Variable)>>, b: Seq<Seq<(Seq<char>, Variable)>>) -> bool {
    &&& a.len() == b.len()
    &&& forall|i: int| 0 <= i < a.len() ==> same_keys(#[trigger] a[i], b[i])
}

/// Keeping names is transitive.
pub proof fn lemma_names_kept_trans(
    a: Seq<Seq<(Seq<char>, Variable)>>,
    b: Seq<Seq<(Seq<char>, Variable)>>,
    c: Seq<Seq<(Seq<char>, Variable)>>,
)
    requires
        names_kept(a, b),
        names_kept(b, c),
    ensures
        names_kept(a, c),
{
    assert forall|i: int| 0 <= i < a.len() - 1 implies same_keys(#[trigger] c[i], a[i]) by {
        assert(same_keys(b[i], a[i]));
        assert(same_keys(c[i], b[i]));
    }
    assert forall|k: Seq<char>|
        a.len() > 0 && entry_value(a.last(), k) is Some implies entry_value(
            #[trigger] c[a.len() - 1],
            k,
        ) is Some by {
        assert(entry_value(b[a.len() - 1], k) is Some);
        if a.len() < b.len() {
            assert(same_keys(c[a.len() - 1], b[a.len() - 1]));
        }
    }
}

/// Storing a variable keeps the names of the scopes.
proof fn lemma_insert_names_kept(scopes: Seq<Seq<(Seq<char>, Variable)>>, v: Variable)
    requires
        scopes.len() >= 1,
        forall|i: int| 0 <= i < scopes.len() ==> keys_distinct(#[trigger] scopes[i]),
    ensures
        names_kept(scopes, scoped_insert(scopes, v)),
{
    let n = scopes.len() as int;
    let key = v.name@;
    lemma_innermost_bounds(scopes, n, key);
    let i = match innermost_scope(scopes, n, key) {
        Some(i) => i,
        None => n - 1,
    };
    let after = scoped_insert(scopes, v);
    lemma_insert_distinct(scopes[i], key, v);
    assert forall|j: int| 0 <= j < n - 1 implies same_keys(#[trigger] after[j], scopes[j]) by {
        if j != i {
            assert(after[j] == scopes[j]);
        } else {
            assert(entry_value(scopes[i], key) is Some);
        }
    }
    assert forall|k: Seq<char>|
        entry_value(scopes.last(), k) is Some implies entry_value(#[trigger] after[n - 1], k) is Some by {
        if i != n - 1 {
            assert(after[n - 1] == scopes[n - 1]);
        } else if k == key {
        } else {
        }
    }
}

impl ParseEnvironment {
    /// The innermost scope that has a variable `name`, if any; searched from the
    /// innermost scope outwards.
    fn find_scope(&self, name: &str) -> (r: Option<usize>)
        requires
            self.wf(),
        ensures
            r matches Some(i) ==> Some(i as int) == innermost_scope(self.scopes(), self.scopes().len() as int, name@),
            r is None ==> innermost_scope(self.scopes(), self.scopes().len() as int, name@) is None,
    {
        let mut n = self.variables.len();
        while n > 0
            invariant
                self.wf(),
                n <= self.variables@.len(),
                innermost_scope(self.scopes(), n as int, name@) == innermost_scope(
                    self.scopes(),
                    self.scopes().len() as int,
                    name@,
                ),
            decreases n,
        {
            assert(self.scopes()[n - 1] == variable_entries(self.variables@[n - 1]));
            if get_variable(&self.variables[n - 1], name).is_some() {
                return Some(n - 1);
            }
            n -= 1;
        }
        None
    }

    /// Stores a variable: in the innermost scope that already has one of that name,
    /// else in the innermost scope.
    pub fn insert(&mut self, variable: Variable)
        requires
            old(self).wf(),
            old(self).scopes().len() >= 1,
            variable.name@.len() > 0,
        ensures
            final(self).wf(),
            final(self).scopes() == scoped_insert(old(self).scopes(), variable),
            final(self).scopes().len() == old(self).scopes().len(),
            names_kept(old(self).scopes(), final(self).scopes()),
            scoped_lookup(final(self).scopes(), variable.name@) == Some(variable),
            forall|k: Seq<char>|
                k != variable.name@ ==> #[trigger] scoped_lookup(final(self).scopes(), k)
                    == scoped_lookup(old(self).scopes(), k),
            final(self).function_table() == old(self).function_table(),
            final(self).args == old(self).args,
    {
        proof {
            assert forall|j: int| 0 <= j < self.scopes().len() implies keys_distinct(
                #[trigger] self.scopes()[j],
            ) by {
                assert(self.scopes()[j] == variable_entries(self.variables@[j]));
            }
            assert forall|k: Seq<char>| k != variable.name@ implies #[trigger] scoped_lookup(
                scoped_insert(self.scopes(), variable),
                k,
            ) == scoped_lookup(self.scopes(), k) by {
                law_lookup_after_insert(self.scopes(), variable, k);
            }
            law_lookup_after_insert(self.scopes(), variable, variable.name@);
            lemma_insert_names_kept(self.scopes(), variable);
        }
        let i = match self.find_scope(variable.name.as_str()) {
            Some(i) => i,
            None => self.variables.len() - 1,
        };
        proof {
            lemma_innermost_bounds(self.scopes(), self.scopes().len() as int, variable.name@);
        }
        let ghost old_entries = variable_entries(self.variables@[i as int]);
        let ghost pushed = variable;
        let mut scope = new_variable_map();
        std::mem::swap(&mut scope, &mut self.variables[i]);
        assert(keys_distinct(variable_entries(scope)));
        insert_variable(&mut scope, variable.name.clone(), variable);
        self.variables.set(i, scope);
        proof {
            lemma_insert_distinct(old_entries, pushed.name@, pushed);
            assert(self.scopes() =~= scoped_insert(old(self).scopes(), pushed));
            let n = entries_insert(old_entries, pushed.name@, pushed);
            assert forall|k: int| 0 <= k < n.len() implies (#[trigger] n[k]).1.name@.len() > 0 && n[k].0 == n[k].1.name@ by {
                match entry_index(old_entries, pushed.name@) {
                    Some(m) => {
                        if k != m {
                            assert(n[k] == old_entries[k]);
                        }
                    },
                    None => {
                        if k < old_entries.len() {
                            assert(n[k] == old_entries[k]);
                        }
                    },
                }
            }
        }
    }

    /// The variable `name` as the innermost scope that has one holds it.
    pub fn get(&self, name: &str) -> (r: Option<Variable>)
        requires
            self.wf(),
        ensures
            r == scoped_lookup(self.scopes(), name@),
    {
        proof {
            lemma_innermost_bounds(self.scopes(), self.scopes().len() as int, name@);
        }
        match self.find_scope(name) {
            Some(i) => {
                assert(self.scopes()[i as int] == variable_entries(self.variables@[i as int]));
                match get_variable(&self.variables[i], name) {
                    Some(v) => Some(v.clone()),
                    None => None,
                }
            },
            None => None,
        }
    }

    /// Records a function under its name, replacing one of the same name.
    pub fn add_function(&mut self, function: Function)
        requires
            old(self).wf(),
        ensures
            final(self).wf(),
            final(self).scopes() == old(self).scopes(),
            final(self).function_table() == entries_insert(
                old(self).function_table(),
                function.name@,
                function,
            ),
            final(self).args == old(self).args,
    {
        proof {
            lemma_insert_distinct(function_entries(self.functions), function.name@, function);
        }
        let name = function.name.clone();
        insert_function(&mut self.functions, name, function);
    }

    /// The function named `name`, if one is known.
    pub fn get_function(&self, name: &str) -> (r: Option<&Function>)
        requires
            self.wf(),
        ensures
            r is Some <==> entry_value(self.function_table(), name@) is Some,
            r matches Some(f) ==> *f == entry_value(self.function_table(), name@)->0,
    {
        get_function_entry(&self.functions, name)
    }

    /// The warnings about the variables of the innermost scope that are never read.
    fn check_unused(&self, messages: &mut Vec<ParserMessage>)
        requires
            self.wf(),
            self.scopes().len() >= 1,
        ensures
            final(messages)@ == old(messages)@ + as_messages(
                unused_warnings(self.scopes().last().map_values(|e: (Seq<char>, Variable)| e.1)),
            ),
    {
        let last = self.variables.len() - 1;
        let vars = variable_values(&self.variables[last]);
        let ghost all = vars@;
        assert(self.scopes().last() == variable_entries(self.variables@[last as int]));
        let mut i: usize = 0;
        while i < vars.len()
            invariant
                self.wf(),
                vars@ == all,
                all == self.scopes().last().map_values(|e: (Seq<char>, Variable)| e.1),
                i <= vars@.len(),
                forall|j: int| 0 <= j < all.len() ==> (#[trigger] all[j]).name@.len() > 0,
                messages@ == old(messages)@ + as_messages(unused_warnings(all.take(i as int))),
            decreases vars@.len() - i,
        {
            let v = &vars[i];
            assert(all.take(i + 1).drop_last() =~= all.take(i as int));
            assert(all.take(i + 1).last() == all[i as int]);
            let first = crate::text::chars_of(v.name.as_str());
            if !v.read && first[0] != '_' {
                if !same_token(&v.declaration_token, &v.last_assignment_token) {
                    messages.push(
                        ParserMessage::Warning(
                            ParserWarning::new(
                                ParserWarningType::VariableNotRead,
                                v.last_assignment_token.clone(),
                            ),
                        ),
                    );
                } else {
                    messages.push(
                        ParserMessage::Warning(
                            ParserWarning::new(
                                ParserWarningType::UnusedVariable,
                                v.identifier_token.clone(),
                            ),
                        ),
                    );
                }
            }
            i += 1;
            assert(messages@ =~= old(messages)@ + as_messages(unused_warnings(all.take(i as int))));
        }
        assert(all.take(vars@.len() as int) =~= all);
    }

    /// The warnings about the variables of the innermost scope that are never
    /// reassigned.
    fn check_assigned(&self, messages: &mut Vec<ParserMessage>)
        requires
            self.wf(),
            self.scopes().len() >= 1,
        ensures
            final(messages)@ == old(messages)@ + as_messages(
                unassigned_warnings(self.scopes().last().map_values(|e: (Seq<char>, Variable)| e.1)),
            ),
    {
        let last = self.variables.len() - 1;
        let vars = variable_values(&self.variables[last]);
        let ghost all = vars@;
        assert(self.scopes().last() == variable_entries(self.variables@[last as int]));
        let mut i: usize = 0;
        while i < vars.len()
            invariant
                self.wf(),
                vars@ == all,
                all == self.scopes().last().map_values(|e: (Seq<char>, Variable)| e.1),
                i <= vars@.len(),
                forall|j: int| 0 <= j < all.len() ==> (#[trigger] all[j]).name@.len() > 0,
                messages@ == old(messages)@ + as_messages(unassigned_warnings(all.take(i as int))),
            decreases vars@.len() - i,
        {
            let v = &vars[i];
            assert(all.take(i + 1).drop_last() =~= all.take(i as int));
            assert(all.take(i + 1).last() == all[i as int]);
            let first = crate::text::chars_of(v.name.as_str());
            if !v.constant && !v.assigned && first[0] != '_' {
                messages.push(
                    ParserMessage::Warning(
                        ParserWarning::new(
                            ParserWarningType::VariableNeverReAssigned,
                            v.declaration_token.clone(),
                        ),
                    ),
                );
            }
            i += 1;
            assert(messages@ =~= old(messages)@ + as_messages(unassigned_warnings(all.take(i as int))));
        }
        assert(all.take(vars@.len() as int) =~= all);
    }

    /// Closes the innermost scope, after the warnings about its variables.
    pub fn remove_scope(&mut self, messages: &mut Vec<ParserMessage>)
        requires
            old(self).wf(),
            old(self).scopes().len() >= 1,
        ensures
            final(self).wf(),
            final(self).scopes() == old(self).scopes().drop_last(),
            final(self).function_table() == old(self).function_table(),
            final(self).args == old(self).args,
            final(messages)@ == old(messages)@ + as_messages(
                unused_warnings(old(self).scopes().last().map_values(|e: (Seq<char>, Variable)| e.1)),
            ) + as_messages(
                unassigned_warnings(old(self).scopes().last().map_values(|e: (Seq<char>, Variable)| e.1)),
            ),
    {
        self.check_unused(messages);
        self.check_assigned(messages);
        self.variables.pop();
        assert(self.scopes() =~= old(self).scopes().drop_last());
    }
}

/// The entries of a map of run-time values, in insertion order.
pub uninterp spec fn value_entries(m: IndexMap<String, InstructionResult>) -> Seq<(Seq<char>, InstructionResult)>;

/// An empty map of values; calls `IndexMap::new`.
#[verifier::external_body]
fn new_value_map() -> (r: IndexMap<String, InstructionResult>)
    ensures
        value_entries(r) == Seq::<(Seq<char>, InstructionResult)>::empty(),
{
    IndexMap::new()
}

/// Stores a value under `key`; calls `IndexMap::insert`, which keeps the place of an
/// entry whose key is already present and adds a new one last.
#[verifier::external_body]
fn insert_value(m: &mut IndexMap<String, InstructionResult>, key: String, value: InstructionResult)
    requires
        keys_distinct(value_entries(*old(m))),
    ensures
        value_entries(*final(m)) == entries_insert(value_entries(*old(m)), key@, value),
{
    m.insert(key, value);
}

/// The value stored under `key`; calls `IndexMap::get`.
#[verifier::external_body]
fn get_value<'a>(m: &'a IndexMap<String, InstructionResult>, key: &str) -> (r: Option<&'a InstructionResult>)
    requires
        keys_distinct(value_entries(*m)),
    ensures
        r is Some <==> entry_value(value_entries(*m), key@) is Some,
        r matches Some(v) ==> *v == entry_value(value_entries(*m), key@)->0,
{
    m.get(key)
}

/// The variables of one call: a stack of scopes, innermost last.
pub struct Frame {
    pub variables: Vec<IndexMap<String, InstructionResult>>,
}

/// The names of a running program: a stack of frames (one per test or call, the
/// current one last), the global constants, and the functions.
pub struct Environment {
    pub frames: Vec<Frame>,
    pub global_constants: IndexMap<String, InstructionResult>,
    pub functions: IndexMap<String, Rc<Function>>,
}

/// The innermost of the first `n` scopes that holds `key`.
pub open spec fn value_scope<V>(scopes: Seq<Seq<(Seq<char>, V)>>, n: int, key: Seq<char>) -> Option<int>
    decreases n,
{
    if n <= 0 {
        None
    } else if entry_value(scopes[n - 1], key) is Some {
        Some(n - 1)
    } else {
        value_scope(scopes, n - 1, key)
    }
}

pub proof fn lemma_value_scope_bounds<V>(scopes: Seq<Seq<(Seq<char>, V)>>, n: int, key: Seq<char>)
    requires
        n <= scopes.len(),
    ensures
        value_scope(scopes, n, key) matches Some(i) ==> 0 <= i < n && entry_value(scopes[i], key) is Some
            && forall|j: int| i < j < n ==> entry_value(#[trigger] scopes[j], key) is None,
        value_scope(scopes, n, key) is None ==> forall|j: int| 0 <= j < n ==> entry_value(#[trigger] scopes[j], key) is None,
    decreases n,
{
    if n > 0 {
        lemma_value_scope_bounds(scopes, n - 1, key);
    }
}

proof fn lemma_value_scope_update(
    scopes: Seq<Seq<(Seq<char>, InstructionResult)>>,
    t: int,
    scope: Seq<(Seq<char>, InstructionResult)>,
    key: Seq<char>,
    n: int,
)
    requires
        0 <= t < n <= scopes.len(),
        entry_value(scope, key) is Some,
        forall|j: int| t < j < n ==> entry_value(#[trigger] scopes[j], key) is None,
    ensures
        value_scope(scopes.update(t, scope), n, key) == Some(t),
    decreases n,
{
    if n - 1 > t {
        lemma_value_scope_update(scopes, t, scope, key, n - 1);
    }
}

/// Scopes that agree on `key` find the same innermost scope holding it.
proof fn lemma_value_scope_same(
    a: Seq<Seq<(Seq<char>, InstructionResult)>>,
    b: Seq<Seq<(Seq<char>, InstructionResult)>>,
    n: int,
    key: Seq<char>,
)
    requires
        n <= a.len(),
        n <= b.len(),
        forall|j: int| 0 <= j < n ==> entry_value(#[trigger] a[j], key) == entry_value(b[j], key),
    ensures
        value_scope(a, n, key) == value_scope(b, n, key),
    decreases n,
{
    if n > 0 {
        assert(entry_value(a[n - 1], key) == entry_value(b[n - 1], key));
        lemma_value_scope_same(a, b, n - 1, key);
    }
}

/// Scopes that have the same keys, scope by scope, find the same innermost scope
/// holding a key.
pub proof fn lemma_value_scope_keys<V, W>(
    a: Seq<Seq<(Seq<char>, V)>>,
    b: Seq<Seq<(Seq<char>, W)>>,
    n: int,
    key: Seq<char>,
)
    requires
        n <= a.len(),
        n <= b.len(),
        forall|j: int| 0 <= j < n ==> (entry_value(#[trigger] a[j], key) is Some) == (entry_value(b[j], key) is Some),
    ensures
        value_scope(a, n, key) == value_scope(b, n, key),
    decreases n,
{
    if n > 0 {
        assert((entry_value(a[n - 1], key) is Some) == (entry_value(b[n - 1], key) is Some));
        lemma_value_scope_keys(a, b, n - 1, key);
    }
}

/// The scopes after storing `value` under `key`: in the innermost scope that holds
/// the key, else in the innermost scope.
pub open spec fn scoped_store<V>(scopes: Seq<Seq<(Seq<char>, V)>>, key: Seq<char>, value: V) -> Seq<Seq<(Seq<char>, V)>> {
    let t = match value_scope(scopes, scopes.len() as int, key) {
        Some(i) => i,
        None => scopes.len() - 1,
    };
    scopes.update(t, entries_insert(scopes[t], key, value))
}

impl Environment {
    /// The scopes of each frame, as entries.
    pub closed spec fn frames_view(&self) -> Seq<Seq<Seq<(Seq<char>, InstructionResult)>>> {
        self.frames@.map_values(|f: Frame| f.variables@.map_values(|m: IndexMap<String, InstructionResult>| value_entries(m)))
    }

    /// The global constants, as entries.
    pub closed spec fn globals(&self) -> Seq<(Seq<char>, InstructionResult)> {
        value_entries(self.global_constants)
    }

    /// The functions, as entries.
    pub closed spec fn function_table(&self) -> Seq<(Seq<char>, Function)> {
        shared_function_entries(self.functions)
    }

    /// No name occurs twice in a map.
    pub closed spec fn wf(&self) -> bool {
        &&& forall|i: int, j: int|
            0 <= i < self.frames@.len() && 0 <= j < self.frames@[i].variables@.len() ==> keys_distinct(
                value_entries(#[trigger] self.frames@[i].variables@[j]),
            )
        &&& keys_distinct(value_entries(self.global_constants))
        &&& keys_distinct(shared_function_entries(self.functions))
    }

    /// What consistency gives the entries: no name occurs twice in a scope or among
    /// the constants.
    pub proof fn lemma_values_distinct(&self)
        requires
            self.wf(),
        ensures
            keys_distinct(self.globals()),
            forall|i: int, j: int|
                0 <= i < self.frames_view().len() && 0 <= j < self.frames_view()[i].len() ==> keys_distinct(
                    #[trigger] self.frames_view()[i][j],
                ),
    {
        assert forall|i: int, j: int|
            0 <= i < self.frames_view().len() && 0 <= j < self.frames_view()[i].len() implies keys_distinct(
                #[trigger] self.frames_view()[i][j],
            ) by {
            assert(self.frames_view()[i][j] == value_entries(self.frames@[i].variables@[j]));
        }
    }

    /// The value of `key`: from the innermost scope of the current frame that holds
    /// it, else from the global constants.
    pub open spec fn lookup(&self, key: Seq<char>) -> Option<InstructionResult> {
        let frames = self.frames_view();
        if frames.len() == 0 {
            entry_value(self.globals(), key)
        } else {
            match value_scope(frames.last(), frames.last().len() as int, key) {
                Some(i) => entry_value(frames.last()[i], key),
                None => entry_value(self.globals(), key),
            }
        }
    }

    /// An environment without frames, constants or functions.
    pub fn new() -> (r: Environment)
        ensures
            r.wf(),
            r.frames_view().len() == 0,
            r.globals().len() == 0,
            r.function_table().len() == 0,
    {
        let r = Environment { frames: Vec::new(), global_constants: new_value_map(), functions: new_shared_function_map() };
        assert(r.frames_view() =~= seq![]);
        r
    }

    /// Starts a frame with one empty scope.
    pub fn add_frame(&mut self)
        requires
            old(self).wf(),
        ensures
            final(self).wf(),
            final(self).frames_view() == old(self).frames_view().push(seq![seq![]]),
            final(self).globals() == old(self).globals(),
            final(self).function_table() == old(self).function_table(),
    {
        let mut variables = Vec::new();
        variables.push(new_value_map());
        self.frames.push(Frame { variables });
        assert(self.frames@.last().variables@.map_values(|m: IndexMap<String, InstructionResult>| value_entries(m)) =~= seq![seq![]]);
        assert(self.frames_view() =~= old(self).frames_view().push(seq![seq![]]));
    }

    /// Ends the current frame.
    pub fn remove_frame(&mut self)
        requires
            old(self).wf(),
        ensures
            final(self).wf(),
            final(self).frames_view() == if old(self).frames_view().len() > 0 {
                old(self).frames_view().drop_last()
            } else {
                old(self).frames_view()
            },
            final(self).globals() == old(self).globals(),
            final(self).function_table() == old(self).function_table(),
    {
        self.frames.pop();
        assert(self.frames_view() =~= if old(self).frames_view().len() > 0 {
            old(self).frames_view().drop_last()
        } else {
            old(self).frames_view()
        });
    }

    /// Opens a scope in the current frame.
    pub fn add_scope(&mut self)
        requires
            old(self).wf(),
            old(self).frames_view().len() > 0,
        ensures
            final(self).wf(),
            final(self).frames_view() == old(self).frames_view().update(
                old(self).frames_view().len() - 1,
                old(self).frames_view().last().push(seq![]),
            ),
            final(self).globals() == old(self).globals(),
            final(self).function_table() == old(self).function_table(),
            forall|k: Seq<char>| #[trigger] final(self).lookup(k) == old(self).lookup(k),
    {
        let n = self.frames.len() - 1;
        let mut frame = Frame { variables: Vec::new() };
        std::mem::swap(&mut frame, &mut self.frames[n]);
        let ghost before = frame.variables@;
        let m = new_value_map();
        frame.variables.push(m);
        proof {
            let f = |m: IndexMap<String, InstructionResult>| value_entries(m);
            assert(frame.variables@.map_values(f) =~= before.map_values(f).push(seq![]));
            assert(before == old(self).frames@[n as int].variables@);
        }
        self.frames.set(n, frame);
        assert(self.frames_view() =~= old(self).frames_view().update(
            old(self).frames_view().len() - 1,
            old(self).frames_view().last().push(seq![]),
        ));
        proof {
            let last = old(self).frames_view().last();
            let pushed = last.push(seq![]);
            assert forall|k: Seq<char>| #[trigger] self.lookup(k) == old(self).lookup(k) by {
                assert(entry_value(pushed[last.len() as int], k) is None);
                assert forall|j: int| 0 <= j < last.len() implies entry_value(#[trigger] pushed[j], k)
                    == entry_value(last[j], k) by {
                    assert(pushed[j] == last[j]);
                }
                lemma_value_scope_same(pushed, last, last.len() as int, k);
                lemma_value_scope_bounds(last, last.len() as int, k);
                match value_scope(last, last.len() as int, k) {
                    Some(i) => {
                        assert(pushed[i] == last[i]);
                    },
                    None => {},
                }
            }
        }
    }

    /// Closes the innermost scope of the current frame.
    pub fn remove_scope(&mut self)
        requires
            old(self).wf(),
            old(self).frames_view().len() > 0,
        ensures
            final(self).wf(),
            final(self).frames_view().len() == old(self).frames_view().len(),
            final(self).frames_view().drop_last() == old(self).frames_view().drop_last(),
            final(self).frames_view().last() == if old(self).frames_view().last().len() > 0 {
                old(self).frames_view().last().drop_last()
            } else {
                old(self).frames_view().last()
            },
            final(self).globals() == old(self).globals(),
            final(self).function_table() == old(self).function_table(),
    {
        let n = self.frames.len() - 1;
        let mut frame = Frame { variables: Vec::new() };
        std::mem::swap(&mut frame, &mut self.frames[n]);
        frame.variables.pop();
        self.frames.set(n, frame);
        assert(self.frames_view().drop_last() =~= old(self).frames_view().drop_last());
        assert(self.frames_view().last() =~= if old(self).frames_view().last().len() > 0 {
            old(self).frames_view().last().drop_last()
        } else {
            old(self).frames_view().last()
        });
    }

    /// The value of `name` (see `lookup`).
    pub fn get(&self, name: &str) -> (r: Option<InstructionResult>)
        requires
            self.wf(),
        ensures
            match self.lookup(name@) {
                Some(v) => r is Some && r->0@ == v@,
                None => r is None,
            },
    {
        let len = self.frames.len();
        if len == 0 {
            return match get_value(&self.global_constants, name) {
                Some(v) => Some(v.clone()),
                None => None,
            };
        }
        let frame = &self.frames[len - 1];
        let ghost scopes = self.frames_view().last();
        assert(scopes == frame.variables@.map_values(|m: IndexMap<String, InstructionResult>| value_entries(m)));
        let mut n = frame.variables.len();
        while n > 0
            invariant
                self.wf(),
                len == self.frames@.len(),
                len > 0,
                *frame == self.frames@[len - 1],
                scopes == frame.variables@.map_values(|m: IndexMap<String, InstructionResult>| value_entries(m)),
                n <= frame.variables@.len(),
                value_scope(scopes, n as int, name@) == value_scope(scopes, scopes.len() as int, name@),
            decreases n,
        {
            assert(scopes[n - 1] == value_entries(frame.variables@[n - 1]));
            match get_value(&frame.variables[n - 1], name) {
                Some(v) => {
                    return Some(v.clone());
                },
                None => {},
            }
            n -= 1;
        }
        match get_value(&self.global_constants, name) {
            Some(v) => Some(v.clone()),
            None => None,
        }
    }

    /// Stores `value` under `name`: without a frame, as a global constant; else in the
    /// innermost scope of the current frame that holds the name, or else in its
    /// innermost scope.
    pub fn insert(&mut self, name: String, value: InstructionResult)
        requires
            old(self).wf(),
            old(self).frames_view().len() > 0 ==> old(self).frames_view().last().len() > 0,
        ensures
            final(self).wf(),
            final(self).frames_view().len() == old(self).frames_view().len(),
            final(self).function_table() == old(self).function_table(),
            final(self).lookup(name@) == Some(value),
            forall|k: Seq<char>| k != name@ ==> #[trigger] final(self).lookup(k) == old(self).lookup(k),
            old(self).frames_view().len() == 0 ==> final(self).globals() == entries_insert(
                old(self).globals(),
                name@,
                value,
            ) && final(self).frames_view() == old(self).frames_view(),
            old(self).frames_view().len() > 0 ==> final(self).frames_view() == old(self).frames_view().update(
                old(self).frames_view().len() - 1,
                scoped_store(old(self).frames_view().last(), name@, value),
            ),
            old(self).frames_view().len() > 0 ==> final(self).globals() == old(self).globals(),
            old(self).frames_view().len() > 0 ==> final(self).frames_view().last().len() == old(self).frames_view().last().len(),
            old(self).frames_view().len() > 0 ==> final(self).frames_view().drop_last() == old(self).frames_view().drop_last(),
    {
        let len = self.frames.len();
        if len == 0 {
            proof {
                lemma_insert_distinct(value_entries(self.global_constants), name@, value);
            }
            let ghost key = name@;
            insert_value(&mut self.global_constants, name, value);
            assert(self.frames_view() =~= old(self).frames_view());
            assert forall|k: Seq<char>| k != key implies #[trigger] self.lookup(k) == old(self).lookup(k) by {}
            return;
        }
        let ghost scopes = self.frames_view().last();
        let mut frame = Frame { variables: Vec::new() };
        std::mem::swap(&mut frame, &mut self.frames[len - 1]);
        assert(scopes == frame.variables@.map_values(|m: IndexMap<String, InstructionResult>| value_entries(m)));
        assert(forall|j: int| 0 <= j < frame.variables@.len() ==> keys_distinct(value_entries(#[trigger] frame.variables@[j]))) by {
            assert forall|j: int| 0 <= j < frame.variables@.len() implies keys_distinct(value_entries(#[trigger] frame.variables@[j])) by {
                assert(old(self).frames@[len - 1].variables@[j] == frame.variables@[j]);
            }
        }
        let mut n = frame.variables.len();
        let mut found = false;
        let mut target = frame.variables.len() - 1;
        while n > 0 && !found
            invariant
                n <= frame.variables@.len(),
                frame.variables@.len() > 0,
                target < frame.variables@.len(),
                scopes == frame.variables@.map_values(|m: IndexMap<String, InstructionResult>| value_entries(m)),
                forall|j: int| 0 <= j < frame.variables@.len() ==> keys_distinct(value_entries(#[trigger] frame.variables@[j])),
                !found ==> value_scope(scopes, n as int, name@) == value_scope(scopes, scopes.len() as int, name@),
                !found ==> target == frame.variables@.len() - 1,
                found ==> value_scope(scopes, scopes.len() as int, name@) == Some(target as int),
            decreases n + if found { 0int } else { 1int },
        {
            assert(scopes[n - 1] == value_entries(frame.variables@[n - 1]));
            if get_value(&frame.variables[n - 1], name.as_str()).is_some() {
                target = n - 1;
                found = true;
            } else {
                n -= 1;
            }
        }
        proof {
            lemma_value_scope_bounds(scopes, scopes.len() as int, name@);
        }
        let ghost old_scope = value_entries(frame.variables@[target as int]);
        let ghost key = name@;
        let ghost stored = value;
        let mut scope = new_value_map();
        std::mem::swap(&mut scope, &mut frame.variables[target]);
        proof {
            lemma_insert_distinct(old_scope, key, stored);
        }
        insert_value(&mut scope, name, value);
        frame.variables.set(target, scope);
        self.frames.set(len - 1, frame);
        proof {
            let new_scopes = scopes.update(target as int, entries_insert(old_scope, key, stored));
            assert(self.frames_view().last() =~= new_scopes);
            assert(self.frames_view().drop_last() =~= old(self).frames_view().drop_last());
            lemma_value_scope_update(scopes, target as int, entries_insert(old_scope, key, stored), key, scopes.len() as int);
            assert forall|k: Seq<char>| k != key implies #[trigger] self.lookup(k) == old(self).lookup(k) by {
                assert forall|j: int| 0 <= j < scopes.len() implies entry_value(#[trigger] new_scopes[j], k)
                    == entry_value(scopes[j], k) by {
                    if j != target {
                        assert(new_scopes[j] == scopes[j]);
                    }
                }
                lemma_value_scope_same(new_scopes, scopes, scopes.len() as int, k);
                lemma_value_scope_bounds(scopes, scopes.len() as int, k);
                match value_scope(scopes, scopes.len() as int, k) {
                    Some(i) => {
                        assert(entry_value(new_scopes[i], k) == entry_value(scopes[i], k));
                    },
                    None => {},
                }
            }
        }
    }

    /// Makes `function` known under its name.
    pub fn add_function(&mut self, function: Function)
        requires
            old(self).wf(),
        ensures
            final(self).wf(),
            final(self).frames_view() == old(self).frames_view(),
            final(self).globals() == old(self).globals(),
            final(self).function_table() == entries_insert(old(self).function_table(), function.name@, function),
    {
        proof {
            lemma_insert_distinct(shared_function_entries(self.functions), function.name@, function);
        }
        let name = function.name.clone();
        insert_shared_function(&mut self.functions, name, Rc::new(function));
    }

    /// Whether a frame is running.
    pub fn has_frame(&self) -> (r: bool)
        ensures
            r == (self.frames_view().len() > 0),
    {
        self.frames.len() > 0
    }

    /// Whether `insert` has a place to store a value: there is no frame, or the
    /// current frame has a scope.
    pub fn can_insert(&self) -> (r: bool)
        ensures
            r == (self.frames_view().len() == 0 || self.frames_view().last().len() > 0),
    {
        let n = self.frames.len();
        n == 0 || self.frames[n - 1].variables.len() > 0
    }

    /// The function known under `name`.
    pub fn get_function(&self, name: &str) -> (r: Option<Rc<Function>>)
        requires
            self.wf(),
        ensures
            r is Some <==> entry_value(self.function_table(), name@) is Some,
            r matches Some(f) ==> *f == entry_value(self.function_table(), name@)->0,
    {
        match get_shared_function(&self.functions, name) {
            Some(f) => Some(share(f)),
            None => None,
        }
    }
}

} // verus!
