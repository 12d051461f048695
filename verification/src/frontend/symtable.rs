//! The symbol table: a stack of lexical scopes.
//!
//! A scope maps names to entries. A name is looked up from the innermost
//! scope outward, so a name of an inner scope hides the same name further
//! out, and leaving a scope discards what was inserted into it.

use super::irgen::IrGenResult;
use super::types::{Type, TypeView};
use super::value::{ComptimeVal, ComptimeValView};
use vstd::prelude::*;
use vstd::string::StringExecFns;

verus! {

/// What is known of a declared name.
#[derive(Debug)]
pub struct SymbolEntry {
    /// The type of the symbol.
    pub ty: Type,
    /// The value of the symbol, where it is known at compile time.
    pub comptime: Option<ComptimeVal>,
    /// What the symbol is bound to in the intermediate representation, once
    /// lowering has bound it.
    pub ir_value: Option<IrGenResult>,
}

/// What a [`SymbolEntry`] holds.
pub struct SymbolEntryView {
    pub ty: TypeView,
    pub comptime: Option<ComptimeValView>,
    pub ir_value: Option<IrGenResult>,
}

/// What a [`SymbolTable`] holds: the scopes from the outermost to the
/// innermost, and the return type of the function being worked on.
pub struct SymbolTableView {
    pub scopes: Seq<Map<Seq<char>, SymbolEntryView>>,
    pub curr_ret_ty: Option<TypeView>,
}

/// A stack of scopes, innermost last.
#[derive(Debug)]
pub struct ScopeStack {
    /// The entries of each scope. Within a scope the last entry of a name is
    /// the one that counts.
    stack: Vec<Vec<(String, SymbolEntry)>>,
}

/// The symbol table: the scopes that are open, and the return type of the
/// function being worked on.
#[derive(Debug)]
pub struct SymbolTable {
    /// The scopes that are open.
    pub scopes: ScopeStack,
    /// The return type of the function whose body is being worked on.
    pub curr_ret_ty: Option<Type>,
}

impl SymbolEntryView {
    /// The entry of a name of which only the type is known.
    pub open spec fn from_ty(ty: TypeView) -> SymbolEntryView {
        SymbolEntryView { ty, comptime: None, ir_value: None }
    }
}

/// The entry that `name` resolves to in `scopes`: that of the innermost
/// scope that holds the name.
pub open spec fn lookup_in(scopes: Seq<Map<Seq<char>, SymbolEntryView>>, name: Seq<char>) -> Option<
    SymbolEntryView,
>
    decreases scopes.len(),
{
    if scopes.len() == 0 {
        None
    } else if scopes.last().contains_key(name) {
        Some(scopes.last()[name])
    } else {
        lookup_in(scopes.drop_last(), name)
    }
}

/// `scopes` with the entry that `name` resolves to replaced by `entry`;
/// `scopes` itself where the name does not resolve.
pub open spec fn rebind_in(
    scopes: Seq<Map<Seq<char>, SymbolEntryView>>,
    name: Seq<char>,
    entry: SymbolEntryView,
) -> Seq<Map<Seq<char>, SymbolEntryView>>
    decreases scopes.len(),
{
    if scopes.len() == 0 {
        scopes
    } else if scopes.last().contains_key(name) {
        scopes.update(scopes.len() - 1, scopes.last().insert(name, entry))
    } else {
        rebind_in(scopes.drop_last(), name, entry).push(scopes.last())
    }
}

impl SymbolTableView {
    /// The table with no scope.
    pub open spec fn empty() -> SymbolTableView {
        SymbolTableView { scopes: Seq::empty(), curr_ret_ty: None }
    }

    /// The number of scopes.
    pub open spec fn depth(self) -> nat {
        self.scopes.len()
    }

    /// The table with a new, empty innermost scope.
    pub open spec fn enter(self) -> SymbolTableView {
        SymbolTableView { scopes: self.scopes.push(Map::empty()), ..self }
    }

    /// The table without its innermost scope.
    pub open spec fn leave(self) -> SymbolTableView {
        if self.scopes.len() == 0 {
            self
        } else {
            SymbolTableView { scopes: self.scopes.drop_last(), ..self }
        }
    }

    /// The table with `name` bound to `entry` in the scope that lies `upper`
    /// scopes outside the innermost one.
    pub open spec fn insert_upper(
        self,
        name: Seq<char>,
        entry: SymbolEntryView,
        upper: nat,
    ) -> SymbolTableView {
        let at = self.scopes.len() - 1 - upper;
        SymbolTableView { scopes: self.scopes.update(at, self.scopes[at].insert(name, entry)), ..self }
    }

    /// The table with `name` bound to `entry` in the innermost scope.
    pub open spec fn insert(self, name: Seq<char>, entry: SymbolEntryView) -> SymbolTableView {
        self.insert_upper(name, entry, 0)
    }

    /// The entry that `name` resolves to.
    pub open spec fn lookup(self, name: Seq<char>) -> Option<SymbolEntryView> {
        lookup_in(self.scopes, name)
    }

    /// The table with the entry that `name` resolves to replaced by `entry`.
    pub open spec fn rebind(self, name: Seq<char>, entry: SymbolEntryView) -> SymbolTableView {
        SymbolTableView { scopes: rebind_in(self.scopes, name, entry), ..self }
    }

    /// The table with the return type of the function being worked on set
    /// to `ty`.
    pub open spec fn with_ret_ty(self, ty: Option<TypeView>) -> SymbolTableView {
        SymbolTableView { curr_ret_ty: ty, ..self }
    }
}

/// The view of an optional compile-time value.
pub open spec fn comptime_option_view(value: Option<ComptimeVal>) -> Option<ComptimeValView> {
    match value {
        Some(v) => Some(v@),
        None => None,
    }
}

/// The view of an optional entry.
pub open spec fn entry_option_view(entry: Option<&SymbolEntry>) -> Option<SymbolEntryView> {
    match entry {
        Some(e) => Some(e@),
        None => None,
    }
}

impl SymbolEntry {
    pub open spec fn view(&self) -> SymbolEntryView {
        SymbolEntryView {
            ty: self.ty@,
            comptime: comptime_option_view(self.comptime),
            ir_value: self.ir_value,
        }
    }

    /// The entry of a name of which only the type is known.
    pub fn from_ty(ty: Type) -> (r: SymbolEntry)
        ensures
            r@ == SymbolEntryView::from_ty(ty@),
    {
        SymbolEntry { ty, comptime: None, ir_value: None }
    }
}

/// The scope that a list of entries stands for: of two entries with one name
/// the later counts.
spec fn scope_of(entries: Seq<(String, SymbolEntry)>) -> Map<Seq<char>, SymbolEntryView>
    decreases entries.len(),
{
    if entries.len() == 0 {
        Map::empty()
    } else {
        scope_of(entries.drop_last()).insert(entries.last().0@, entries.last().1@)
    }
}

/// A name that no entry has is not in the scope.
proof fn lemma_scope_missing(entries: Seq<(String, SymbolEntry)>, name: Seq<char>)
    requires
        forall|i: int| 0 <= i < entries.len() ==> (#[trigger] entries[i]).0@ != name,
    ensures
        !scope_of(entries).contains_key(name),
    decreases entries.len(),
{
    if entries.len() > 0 {
        lemma_scope_missing(entries.drop_last(), name);
    }
}

/// The scope maps a name to its last entry.
proof fn lemma_scope_found(entries: Seq<(String, SymbolEntry)>, at: int)
    requires
        0 <= at < entries.len(),
        forall|i: int| at < i < entries.len() ==> (#[trigger] entries[i]).0@ != entries[at].0@,
    ensures
        scope_of(entries).contains_key(entries[at].0@),
        scope_of(entries)[entries[at].0@] == entries[at].1@,
    decreases entries.len(),
{
    if at < entries.len() - 1 {
        lemma_scope_found(entries.drop_last(), at);
    }
}

/// Replacing the last entry of a name rebinds the name in the scope.
proof fn lemma_scope_replaced(
    entries: Seq<(String, SymbolEntry)>,
    at: int,
    name: String,
    entry: SymbolEntry,
)
    requires
        0 <= at < entries.len(),
        name@ == entries[at].0@,
        forall|i: int| at < i < entries.len() ==> (#[trigger] entries[i]).0@ != name@,
    ensures
        scope_of(entries.update(at, (name, entry))) == scope_of(entries).insert(name@, entry@),
    decreases entries.len(),
{
    let updated = entries.update(at, (name, entry));
    if at < entries.len() - 1 {
        lemma_scope_replaced(entries.drop_last(), at, name, entry);
        assert(updated.drop_last() =~= entries.drop_last().update(at, (name, entry)));
        assert(scope_of(updated) =~= scope_of(entries).insert(name@, entry@));
    } else {
        assert(updated.drop_last() =~= entries.drop_last());
        assert(scope_of(updated) =~= scope_of(entries).insert(name@, entry@));
    }
}

/// The index of the last entry of `name` in `entries`.
fn position(entries: &Vec<(String, SymbolEntry)>, name: &String) -> (r: Option<usize>)
    ensures
        match r {
            Some(at) => {
                &&& at < entries.len()
                &&& entries@[at as int].0@ == name@
                &&& forall|i: int| at < i < entries.len() ==> (#[trigger] entries@[i]).0@ != name@
            },
            None => forall|i: int| 0 <= i < entries.len() ==> (#[trigger] entries@[i]).0@ != name@,
        },
{
    let mut i: usize = entries.len();
    while i > 0
        invariant
            i <= entries.len(),
            forall|j: int| i <= j < entries.len() ==> (#[trigger] entries@[j]).0@ != name@,
        decreases i,
    {
        i -= 1;
        if entries[i].0 == *name {
            return Some(i);
        }
    }
    None
}

/// Binds `name` to `entry` in the scope `entries`.
fn bind(entries: &mut Vec<(String, SymbolEntry)>, name: String, entry: SymbolEntry)
    ensures
        scope_of(final(entries)@) == scope_of(old(entries)@).insert(name@, entry@),
{
    match position(entries, &name) {
        Some(at) => {
            proof {
                lemma_scope_replaced(entries@, at as int, name, entry);
            }
            entries.set(at, (name, entry));
        },
        None => {
            entries.push((name, entry));
            assert(entries@.drop_last() =~= old(entries)@);
        },
    }
}

/// Where a name resolves in `scopes`: in scope `at`, and in no scope
/// further in.
pub open spec fn resolves_at(scopes: Seq<Map<Seq<char>, SymbolEntryView>>, name: Seq<char>, at: int) -> bool {
    &&& 0 <= at < scopes.len()
    &&& scopes[at].contains_key(name)
    &&& forall|i: int| at < i < scopes.len() ==> !(#[trigger] scopes[i]).contains_key(name)
}

/// A name that resolves in scope `at` resolves to the entry of that scope,
/// and is rebound there.
pub proof fn lemma_resolves_at(
    scopes: Seq<Map<Seq<char>, SymbolEntryView>>,
    name: Seq<char>,
    at: int,
    entry: SymbolEntryView,
)
    requires
        resolves_at(scopes, name, at),
    ensures
        lookup_in(scopes, name) == Some(scopes[at][name]),
        rebind_in(scopes, name, entry) == scopes.update(at, scopes[at].insert(name, entry)),
    decreases scopes.len(),
{
    if at < scopes.len() - 1 {
        lemma_resolves_at(scopes.drop_last(), name, at, entry);
        assert(rebind_in(scopes, name, entry) =~= scopes.update(
            at,
            scopes[at].insert(name, entry),
        ));
    }
}

/// A name that no scope holds does not resolve.
pub proof fn lemma_resolves_nowhere(
    scopes: Seq<Map<Seq<char>, SymbolEntryView>>,
    name: Seq<char>,
    entry: SymbolEntryView,
)
    requires
        forall|i: int| 0 <= i < scopes.len() ==> !(#[trigger] scopes[i]).contains_key(name),
    ensures
        lookup_in(scopes, name) is None,
        rebind_in(scopes, name, entry) == scopes,
    decreases scopes.len(),
{
    if scopes.len() > 0 {
        lemma_resolves_nowhere(scopes.drop_last(), name, entry);
        assert(rebind_in(scopes, name, entry) =~= scopes);
    }
}

/// The scopes that lists of entries stand for.
spec fn scopes_of(rows: Seq<Vec<(String, SymbolEntry)>>) -> Seq<
    Map<Seq<char>, SymbolEntryView>,
> {
    Seq::new(rows.len(), |i: int| scope_of(rows[i]@))
}

/// `after` is `before` with the entry at place `at` of scope `scope`
/// replaced by `entry`.
spec fn entry_replaced(
    before: Seq<Vec<(String, SymbolEntry)>>,
    after: Seq<Vec<(String, SymbolEntry)>>,
    scope: int,
    at: int,
    entry: SymbolEntry,
) -> bool {
    &&& 0 <= scope < before.len()
    &&& 0 <= at < before[scope]@.len()
    &&& after.len() == before.len()
    &&& forall|i: int| 0 <= i < before.len() && i != scope ==> after[i] == before[i]
    &&& after[scope]@ == before[scope]@.update(at, (before[scope]@[at].0, entry))
}

/// Replacing the entry that a name resolves to rebinds the name.
proof fn lemma_entry_replaced(
    before: Seq<Vec<(String, SymbolEntry)>>,
    after: Seq<Vec<(String, SymbolEntry)>>,
    scope: int,
    at: int,
    entry: SymbolEntry,
)
    requires
        entry_replaced(before, after, scope, at, entry),
        resolves_at(scopes_of(before), before[scope]@[at].0@, scope),
        forall|i: int|
            at < i < before[scope]@.len() ==> (#[trigger] before[scope]@[i]).0@ != before[scope]@[at].0@,
    ensures
        scopes_of(after) == rebind_in(scopes_of(before), before[scope]@[at].0@, entry@),
{
    let name = before[scope]@[at].0;
    lemma_resolves_at(scopes_of(before), name@, scope, entry@);
    lemma_scope_replaced(before[scope]@, at, name, entry);
    assert(scopes_of(after) =~= scopes_of(before).update(
        scope,
        scopes_of(before)[scope].insert(name@, entry@),
    ));
}

/// The entry at place `at` of scope `scope`, to be changed in place.
fn entry_mut(rows: &mut Vec<Vec<(String, SymbolEntry)>>, scope: usize, at: usize) -> (r:
    &mut SymbolEntry)
    requires
        scope < old(rows)@.len(),
        at < old(rows)@[scope as int]@.len(),
    ensures
        *r == old(rows)@[scope as int]@[at as int].1,
        entry_replaced(old(rows)@, final(rows)@, scope as int, at as int, *final(r)),
{
    &mut rows[scope][at].1
}

impl ScopeStack {
    /// The scopes, innermost last.
    pub closed spec fn view(&self) -> Seq<Map<Seq<char>, SymbolEntryView>> {
        scopes_of(self.stack@)
    }

    /// The stack with no scope.
    pub fn new() -> (r: ScopeStack)
        ensures
            r@ == Seq::<Map<Seq<char>, SymbolEntryView>>::empty(),
    {
        let r = ScopeStack { stack: Vec::new() };
        assert(r@ =~= Seq::empty());
        r
    }

    /// Opens a new, empty innermost scope.
    pub fn push_scope(&mut self)
        ensures
            final(self)@ == old(self)@.push(Map::empty()),
    {
        self.stack.push(Vec::new());
        assert(self@ =~= old(self)@.push(Map::empty()));
    }

    /// Closes the innermost scope, if there is one.
    pub fn pop_scope(&mut self)
        ensures
            old(self)@.len() == 0 ==> final(self)@ == old(self)@,
            old(self)@.len() > 0 ==> final(self)@ == old(self)@.drop_last(),
    {
        self.stack.pop();
        proof {
            if old(self)@.len() > 0 {
                assert(self@ =~= old(self)@.drop_last());
            } else {
                assert(self@ =~= old(self)@);
            }
        }
    }

    /// Binds `name` to `entry` in the scope that lies `upper` scopes outside
    /// the innermost one.
    pub fn bind_upper(&mut self, name: &str, entry: SymbolEntry, upper: usize)
        requires
            upper < old(self)@.len(),
        ensures
            final(self)@ == old(self)@.update(
                old(self)@.len() - 1 - upper,
                old(self)@[old(self)@.len() - 1 - upper].insert(name@, entry@),
            ),
    {
        let at = self.stack.len() - 1 - upper;
        bind(&mut self.stack[at], String::from_str(name), entry);
        assert(self@ =~= old(self)@.update(at as int, old(self)@[at as int].insert(name@, entry@)));
    }

    /// The scope in which `name` resolves, and the place of its entry there.
    fn locate(&self, name: &str) -> (r: Option<(usize, usize)>)
        ensures
            match r {
                Some((scope, at)) => {
                    &&& resolves_at(self@, name@, scope as int)
                    &&& at < self.stack@[scope as int].len()
                    &&& self.stack@[scope as int]@[at as int].0@ == name@
                    &&& self.stack@[scope as int]@[at as int].1@ == self@[scope as int][name@]
                    &&& forall|i: int|
                        at < i < self.stack@[scope as int].len() ==> (
                        #[trigger] self.stack@[scope as int]@[i]).0@ != name@
                },
                None => forall|i: int|
                    0 <= i < self@.len() ==> !(#[trigger] self@[i]).contains_key(name@),
            },
    {
        let key = String::from_str(name);
        let mut i: usize = self.stack.len();
        while i > 0
            invariant
                i <= self.stack.len(),
                key@ == name@,
                forall|j: int| i <= j < self@.len() ==> !(#[trigger] self@[j]).contains_key(name@),
            decreases i,
        {
            i -= 1;
            match position(&self.stack[i], &key) {
                Some(at) => {
                    proof {
                        lemma_scope_found(self.stack@[i as int]@, at as int);
                    }
                    return Some((i, at));
                },
                None => {
                    proof {
                        lemma_scope_missing(self.stack@[i as int]@, name@);
                    }
                },
            }
        }
        None
    }

    /// The entry that `name` resolves to.
    pub fn find(&self, name: &str) -> (r: Option<&SymbolEntry>)
        ensures
            entry_option_view(r) == lookup_in(self@, name@),
    {
        match self.locate(name) {
            Some((scope, at)) => {
                proof {
                    lemma_resolves_at(self@, name@, scope as int, arbitrary());
                }
                Some(&self.stack[scope][at].1)
            },
            None => {
                proof {
                    lemma_resolves_nowhere(self@, name@, arbitrary());
                }
                None
            },
        }
    }

    /// The entry that `name` resolves to, to be changed in place.
    pub fn find_mut(&mut self, name: &str) -> (r: Option<&mut SymbolEntry>)
        ensures
            match r {
                Some(entry) => {
                    &&& lookup_in(old(self)@, name@) == Some(entry@)
                    &&& final(self)@ == rebind_in(old(self)@, name@, final(entry)@)
                },
                None => lookup_in(old(self)@, name@) is None && final(self)@ == old(self)@,
            },
    {
        match self.locate(name) {
            Some((scope, at)) => {
                proof {
                    let before = self.stack@;
                    lemma_resolves_at(self@, name@, scope as int, arbitrary());
                    assert forall|after: Seq<Vec<(String, SymbolEntry)>>, entry: SymbolEntry| #[trigger]
                        entry_replaced(before, after, scope as int, at as int, entry) implies scopes_of(
                        after,
                    ) == rebind_in(scopes_of(before), name@, entry@) by {
                        lemma_entry_replaced(before, after, scope as int, at as int, entry);
                    }
                }
                Some(entry_mut(&mut self.stack, scope, at))
            },
            None => {
                proof {
                    lemma_resolves_nowhere(self@, name@, arbitrary());
                }
                None
            },
        }
    }
}

impl SymbolTable {
    pub open spec fn view(&self) -> SymbolTableView {
        SymbolTableView {
            scopes: self.scopes@,
            curr_ret_ty: super::ast::type_option_view(self.curr_ret_ty),
        }
    }

    /// Enters a new, empty scope.
    pub fn enter_scope(&mut self)
        ensures
            final(self)@ == old(self)@.enter(),
    {
        self.scopes.push_scope();
    }

    /// Leaves the innermost scope, and discards what was inserted into it.
    pub fn leave_scope(&mut self)
        ensures
            final(self)@ == old(self)@.leave(),
    {
        self.scopes.pop_scope();
    }

    /// Binds `name` to `entry` in the innermost scope.
    pub fn insert(&mut self, name: &str, entry: SymbolEntry)
        requires
            old(self)@.depth() > 0,
        ensures
            final(self)@ == old(self)@.insert(name@, entry@),
    {
        self.scopes.bind_upper(name, entry, 0);
    }

    /// Binds `name` to `entry` in the scope that lies `upper` scopes outside
    /// the innermost one.
    pub fn insert_upper(&mut self, name: &str, entry: SymbolEntry, upper: usize)
        requires
            upper < old(self)@.depth(),
        ensures
            final(self)@ == old(self)@.insert_upper(name@, entry@, upper as nat),
    {
        self.scopes.bind_upper(name, entry, upper);
    }

    /// The entry that `name` resolves to: that of the innermost scope that
    /// holds the name.
    pub fn lookup(&self, name: &str) -> (r: Option<&SymbolEntry>)
        ensures
            entry_option_view(r) == self@.lookup(name@),
    {
        self.scopes.find(name)
    }

    /// The entry that `name` resolves to, to be changed in place.
    pub fn lookup_mut(&mut self, name: &str) -> (r: Option<&mut SymbolEntry>)
        ensures
            match r {
                Some(entry) => {
                    &&& old(self)@.lookup(name@) == Some(entry@)
                    &&& final(self)@ == old(self)@.rebind(name@, final(entry)@)
                },
                None => old(self)@.lookup(name@) is None && final(self)@ == old(self)@,
            },
    {
        self.scopes.find_mut(name)
    }

    /// Declares the functions of the run-time library. The library has no
    /// functions yet, so the table stays as it is.
    pub fn register_sysylib(&mut self)
        ensures
            final(self)@ == old(self)@,
    {
    }
}

/// Shadowing. A name bound in the innermost scope resolves to that binding,
/// whatever the scopes further out hold; binding another name, or entering a
/// scope, leaves what the name resolves to as it was; and once a scope is
/// left, the table is what it was before the scope was entered, so the name
/// resolves to the outer binding again.
pub proof fn lemma_shadowing(
    table: SymbolTableView,
    name: Seq<char>,
    inner: SymbolEntryView,
    other: Seq<char>,
    entry: SymbolEntryView,
)
    requires
        table.depth() > 0,
    ensures
        table.insert(name, inner).lookup(name) == Some(inner),
        other != name ==> table.insert(other, entry).lookup(name) == table.lookup(name),
        table.enter().lookup(name) == table.lookup(name),
        table.enter().insert(name, inner).lookup(name) == Some(inner),
        table.enter().leave() == table,
        table.enter().insert(name, inner).leave() == table,
        table.enter().insert(name, inner).leave().lookup(name) == table.lookup(name),
{
    let scopes = table.scopes;
    assert(table.insert(other, entry).scopes.drop_last() =~= scopes.drop_last());
    assert(table.enter().scopes.drop_last() =~= scopes);
    assert(table.enter().insert(name, inner).scopes.drop_last() =~= scopes);
}

/// A name bound one scope outside the innermost one survives the leaving of
/// the innermost scope: it is then bound in what has become the innermost
/// scope. Until then it resolves as well, to that binding unless the
/// innermost scope holds the name itself. It does not survive the leaving of
/// the scope that it was bound in.
pub proof fn lemma_outer_binding_survives(
    table: SymbolTableView,
    name: Seq<char>,
    entry: SymbolEntryView,
)
    requires
        table.depth() >= 2,
    ensures
        table.insert_upper(name, entry, 1).lookup(name) is Some,
        !table.scopes.last().contains_key(name) ==> table.insert_upper(name, entry, 1).lookup(name)
            == Some(entry),
        table.insert_upper(name, entry, 1).leave() == table.leave().insert(name, entry),
        table.insert_upper(name, entry, 1).leave().lookup(name) == Some(entry),
        table.insert_upper(name, entry, 1).leave().leave() == table.leave().leave(),
{
    let bound = table.insert_upper(name, entry, 1);
    assert(bound.scopes.drop_last().drop_last() =~= table.scopes.drop_last().drop_last());
    assert(bound.scopes.drop_last() =~= table.leave().insert(name, entry).scopes);
    assert(bound.scopes.last() == table.scopes.last());
    assert(bound.scopes.drop_last().last().contains_key(name));
}

impl Default for SymbolTable {
    fn default() -> (r: Self)
        ensures
            r@ == SymbolTableView::empty(),
    {
        SymbolTable { scopes: ScopeStack::new(), curr_ret_ty: None }
    }
}

} // verus!
