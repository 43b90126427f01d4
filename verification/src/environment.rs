//! The environment: the scopes in which names are bound to values.
//!
//! All scopes of a program live in one arena and are named by their position in
//! it. A scope may have a parent, which stands before it in the arena; the scope
//! at position 0 is the global one and has none. A function holds the position of
//! the scope it was declared in, and so goes on seeing that scope, and what is
//! assigned in it later, for as long as the function is held: a scope in which a
//! function was declared stays for good. Any other scope is given up when it is
//! left, if it is the last of the arena then.

use vstd::prelude::*;
use crate::error::{error_view, result_view, ErrorType, ErrorView};
use crate::value::{Value, ValueView};

verus! {

/// A name with its value.
pub struct Binding {
    pub name: String,
    pub value: Value,
}

/// One scope: its parent, its bindings, and whether a function holds it.
pub struct Scope {
    pub parent: Option<usize>,
    pub bindings: Vec<Binding>,
    pub captured: bool,
}

/// What a [`Scope`] is in contracts: its parent, the value of each name it
/// binds, and whether a function holds it.
pub struct ScopeView {
    pub parent: Option<usize>,
    pub bindings: Map<Seq<char>, ValueView>,
    pub captured: bool,
}

/// The global scope before anything is declared. It stays for good.
pub open spec fn global_scope() -> ScopeView {
    ScopeView { parent: None, bindings: Map::empty(), captured: true }
}

/// A new scope under `parent`.
pub open spec fn child_scope(parent: usize) -> ScopeView {
    ScopeView { parent: Some(parent), bindings: Map::empty(), captured: false }
}

/// The value of `name` in a list of bindings from position `from` on: that of the
/// first binding of the name.
pub open spec fn bound_from(bindings: Seq<Binding>, from: int, name: Seq<char>) -> Option<
    ValueView,
>
    decreases bindings.len() - from,
{
    if 0 <= from < bindings.len() {
        if bindings[from].name@ == name {
            Some(bindings[from].value@)
        } else {
            bound_from(bindings, from + 1, name)
        }
    } else {
        None
    }
}

impl View for Scope {
    type V = ScopeView;

    open spec fn view(&self) -> ScopeView {
        ScopeView {
            parent: self.parent,
            bindings: Map::new(
                |name: Seq<char>| bound_from(self.bindings@, 0, name) is Some,
                |name: Seq<char>| bound_from(self.bindings@, 0, name)->0,
            ),
            captured: self.captured,
        }
    }
}

/// The scopes are in order: there is a global scope, and every parent stands
/// before its child.
pub open spec fn well_formed(scopes: Seq<ScopeView>) -> bool {
    &&& scopes.len() > 0
    &&& forall|i: int|
        0 <= i < scopes.len() ==> match (#[trigger] scopes[i]).parent {
            Some(parent) => parent < i,
            None => true,
        }
}

/// The scope in which `name` is found from `scope`: `scope` itself where it binds
/// the name, else the one found from its parent.
pub open spec fn resolve(scopes: Seq<ScopeView>, scope: int, name: Seq<char>) -> Option<int>
    decreases scope,
{
    if 0 <= scope < scopes.len() {
        if scopes[scope].bindings.contains_key(name) {
            Some(scope)
        } else {
            match scopes[scope].parent {
                Some(parent) => if parent < scope {
                    resolve(scopes, parent as int, name)
                } else {
                    None
                },
                None => None,
            }
        }
    } else {
        None
    }
}

/// The value of `name` as seen from `scope`.
pub open spec fn lookup(scopes: Seq<ScopeView>, scope: int, name: Seq<char>) -> Option<ValueView> {
    match resolve(scopes, scope, name) {
        Some(found) => Some(scopes[found].bindings[name]),
        None => None,
    }
}

/// What reading `name` from `scope` gives, on line `line`: its value, or the error
/// that names it.
pub open spec fn get_model(scopes: Seq<ScopeView>, scope: int, name: Seq<char>, line: usize)
    -> Result<ValueView, ErrorView> {
    match lookup(scopes, scope, name) {
        Some(value) => Ok(value),
        None => Err(ErrorView::NameError { name, line }),
    }
}

/// The scopes after `value` is assigned to `name` from `scope`, and what the
/// assignment gives: the innermost scope that binds the name holds the value; or
/// nothing changes and the error names the name, where no scope binds it.
pub open spec fn assign_model(
    scopes: Seq<ScopeView>,
    scope: int,
    name: Seq<char>,
    value: ValueView,
    line: usize,
) -> (Seq<ScopeView>, Result<(), ErrorView>) {
    match resolve(scopes, scope, name) {
        Some(holder) => (with_binding(scopes, holder, name, value), Ok(())),
        None => (scopes, Err(ErrorView::NameError { name, line })),
    }
}

/// The scopes with `name` bound to `value` in `scope`.
pub open spec fn with_binding(
    scopes: Seq<ScopeView>,
    scope: int,
    name: Seq<char>,
    value: ValueView,
) -> Seq<ScopeView> {
    scopes.update(
        scope,
        ScopeView { bindings: scopes[scope].bindings.insert(name, value), ..scopes[scope] },
    )
}

/// The scopes with `scope` held by a function.
pub open spec fn with_capture(scopes: Seq<ScopeView>, scope: int) -> Seq<ScopeView> {
    scopes.update(scope, ScopeView { captured: true, ..scopes[scope] })
}

/// The scopes after `scope` is left: without it where it is the last and no
/// function holds it, else as they are.
pub open spec fn released(scopes: Seq<ScopeView>, scope: int) -> Seq<ScopeView> {
    if scopes.len() > 1 && scope == scopes.len() - 1 && !scopes[scope].captured {
        scopes.drop_last()
    } else {
        scopes
    }
}

/// The scopes after every scope at the end that no function holds is given up,
/// as when the statements that were in them are given up.
pub open spec fn settled(scopes: Seq<ScopeView>) -> Seq<ScopeView>
    decreases scopes.len(),
{
    if scopes.len() > 1 && !scopes.last().captured {
        settled(scopes.drop_last())
    } else {
        scopes
    }
}

/// No two of the bindings are of one name.
pub open spec fn distinct_names(bindings: Seq<Binding>) -> bool {
    forall|i: int, j: int|
        0 <= i < j < bindings.len() ==> (#[trigger] bindings[i]).name@ != (
        #[trigger] bindings[j]).name@
}

/// The scopes of a program.
pub struct Environment {
    scopes: Vec<Scope>,
}

impl View for Environment {
    type V = Seq<ScopeView>;

    closed spec fn view(&self) -> Seq<ScopeView> {
        Seq::new(self.scopes@.len(), |i: int| self.scopes@[i]@)
    }
}

impl Environment {
    /// The environment is in order: its scopes are, as [`well_formed`] says, and
    /// no scope binds a name twice.
    pub closed spec fn wf(&self) -> bool {
        &&& well_formed(self@)
        &&& forall|s: int|
            0 <= s < self.scopes@.len() ==> distinct_names(#[trigger] self.scopes@[s].bindings@)
    }

    /// What an environment in order holds of.
    pub proof fn lemma_wf(&self)
        ensures
            self.wf() ==> well_formed(self@),
    {
    }

    /// An environment with the global scope alone, which binds nothing.
    pub fn new() -> (environment: Environment)
        ensures
            environment.wf(),
            environment@ == seq![global_scope()],
    {
        let mut scopes: Vec<Scope> = Vec::new();
        let global = Scope { parent: None, bindings: Vec::new(), captured: true };
        assert(global@.bindings =~= Map::empty());
        scopes.push(global);
        let environment = Environment { scopes };
        assert(environment@ =~= seq![global_scope()]);
        environment
    }

    /// The number of scopes.
    pub fn len(&self) -> (count: usize)
        ensures
            count == self@.len(),
    {
        self.scopes.len()
    }

    /// A new scope under `parent`, which binds nothing. Gives its position.
    pub fn push_child(&mut self, parent: usize) -> (child: usize)
        requires
            old(self).wf(),
            parent < old(self)@.len(),
        ensures
            final(self).wf(),
            child == old(self)@.len(),
            final(self)@ == old(self)@.push(child_scope(parent)),
    {
        let child = self.scopes.len();
        let scope = Scope { parent: Some(parent), bindings: Vec::new(), captured: false };
        assert(scope@.bindings =~= Map::empty());
        self.scopes.push(scope);
        assert(self@ =~= old(self)@.push(child_scope(parent)));
        child
    }

    /// Notes that a function holds `scope`: the scope stays for good.
    pub fn capture(&mut self, scope: usize)
        requires
            old(self).wf(),
            scope < old(self)@.len(),
        ensures
            final(self).wf(),
            final(self)@.len() == old(self)@.len(),
            final(self)@ == with_capture(old(self)@, scope as int),
    {
        self.scopes[scope].captured = true;
        proof {
            assert(self.scopes@[scope as int]@.bindings =~= old(self)@[scope as int].bindings);
            assert(self@ =~= with_capture(old(self)@, scope as int));
        }
    }

    /// Leaves `scope`: gives it up where it is the last scope and no function holds
    /// it. The global scope is never given up.
    pub fn release(&mut self, scope: usize)
        requires
            old(self).wf(),
            scope < old(self)@.len(),
        ensures
            final(self).wf(),
            final(self)@ == released(old(self)@, scope as int),
    {
        if self.scopes.len() > 1 && scope == self.scopes.len() - 1 && !self.scopes[scope].captured {
            self.scopes.pop();
            proof {
                assert(self@ =~= old(self)@.drop_last());
            }
        }
    }

    /// Gives up every scope at the end that no function holds. The global scope is
    /// never given up.
    pub fn settle(&mut self)
        requires
            old(self).wf(),
        ensures
            final(self).wf(),
            final(self)@ == settled(old(self)@),
            0 < final(self)@.len() <= old(self)@.len(),
    {
        while self.scopes.len() > 1 && !self.scopes[self.scopes.len() - 1].captured
            invariant
                self.wf(),
                settled(self@) == settled(old(self)@),
                0 < self@.len() <= old(self)@.len(),
            decreases self.scopes.len(),
        {
            let ghost before = self@;
            self.scopes.pop();
            proof {
                assert(self@ =~= before.drop_last());
            }
        }
    }

    /// The position in `scope` of the first binding of `name`, if there is one.
    fn position(&self, scope: usize, name: &String) -> (found: Option<usize>)
        requires
            scope < self@.len(),
        ensures
            match found {
                Some(i) => {
                    &&& i < self.scopes@[scope as int].bindings@.len()
                    &&& self.scopes@[scope as int].bindings@[i as int].name@ == name@
                    &&& bound_from(self.scopes@[scope as int].bindings@, 0, name@) == Some(
                        self.scopes@[scope as int].bindings@[i as int].value@,
                    )
                    &&& forall|j: int|
                        0 <= j < i ==> self.scopes@[scope as int].bindings@[j].name@ != name@
                },
                None => {
                    &&& bound_from(self.scopes@[scope as int].bindings@, 0, name@) is None
                    &&& forall|j: int|
                        0 <= j < self.scopes@[scope as int].bindings@.len()
                            ==> self.scopes@[scope as int].bindings@[j].name@ != name@
                },
            },
    {
        let bindings = &self.scopes[scope].bindings;
        let mut i: usize = 0;
        while i < bindings.len()
            invariant
                i <= bindings@.len(),
                scope < self.scopes@.len(),
                *bindings == self.scopes@[scope as int].bindings,
                bound_from(bindings@, 0, name@) == bound_from(bindings@, i as int, name@),
                forall|j: int| 0 <= j < i ==> bindings@[j].name@ != name@,
            decreases bindings@.len() - i,
        {
            if bindings[i].name == *name {
                return Some(i);
            }
            i += 1;
        }
        None
    }

    /// Binds `name` to `value` in `scope`, in place of what the scope bound it to
    /// before. What other scopes bind stays as it is.
    pub fn define(&mut self, scope: usize, name: String, value: Value)
        requires
            old(self).wf(),
            scope < old(self)@.len(),
        ensures
            final(self).wf(),
            final(self)@.len() == old(self)@.len(),
            final(self)@ == with_binding(old(self)@, scope as int, name@, value@),
    {
        let ghost before = self.scopes@[scope as int].bindings@;
        let ghost name_view = name@;
        let ghost value_view = value@;
        match self.position(scope, &name) {
            Some(i) => {
                self.scopes[scope].bindings[i].value = value;
                proof {
                    let after = self.scopes@[scope as int].bindings@;
                    assert forall|n: Seq<char>|
                        bound_from(after, 0, n) == (if n == name_view {
                            Some(value_view)
                        } else {
                            bound_from(before, 0, n)
                        }) by {
                        lemma_bound_replaced(before, after, i as int, 0, n);
                    }
                }
            },
            None => {
                self.scopes[scope].bindings.push(Binding { name, value });
                proof {
                    let after = self.scopes@[scope as int].bindings@;
                    assert forall|n: Seq<char>|
                        bound_from(after, 0, n) == (if n == name_view {
                            Some(value_view)
                        } else {
                            bound_from(before, 0, n)
                        }) by {
                        lemma_bound_pushed(before, after, 0, n);
                    }
                }
            },
        }
        proof {
            assert(self.scopes@[scope as int]@.bindings =~= old(self)@[scope as int].bindings.insert(
                name_view,
                value_view,
            ));
            assert(self@ =~= with_binding(old(self)@, scope as int, name_view, value_view));
        }
    }

    /// The scope in which `name` is found from `scope`.
    fn find(&self, scope: usize, name: &String) -> (found: Option<(usize, usize)>)
        requires
            self.wf(),
            scope < self@.len(),
        ensures
            match found {
                Some((holder, i)) => {
                    &&& resolve(self@, scope as int, name@) == Some(holder as int)
                    &&& holder < self@.len()
                    &&& i < self.scopes@[holder as int].bindings@.len()
                    &&& self.scopes@[holder as int].bindings@[i as int].name@ == name@
                    &&& self@[holder as int].bindings[name@]
                        == self.scopes@[holder as int].bindings@[i as int].value@
                    &&& forall|j: int|
                        0 <= j < i ==> self.scopes@[holder as int].bindings@[j].name@ != name@
                },
                None => resolve(self@, scope as int, name@) is None,
            },
    {
        let mut current = scope;
        loop
            invariant
                self.wf(),
                current < self@.len(),
                resolve(self@, current as int, name@) == resolve(self@, scope as int, name@),
            decreases current,
        {
            match self.position(current, name) {
                Some(i) => {
                    return Some((current, i));
                },
                None => {},
            }
            match self.scopes[current].parent {
                Some(parent) => {
                    assert(self@[current as int].parent == Some(parent));
                    current = parent;
                },
                None => {
                    return None;
                },
            }
        }
    }

    /// The value of `name` as seen from `scope`: a copy of what the innermost scope
    /// that binds it holds. Where no scope from `scope` outwards binds the name,
    /// the error that says so, with `line`.
    pub fn get(&self, scope: usize, name: &String, line: usize) -> (result: Result<
        Value,
        ErrorType,
    >)
        requires
            self.wf(),
            scope < self@.len(),
        ensures
            result_view(result) == get_model(self@, scope as int, name@, line),
    {
        match self.find(scope, name) {
            Some((holder, i)) => Ok(self.scopes[holder].bindings[i].value.clone()),
            None => Err(ErrorType::NameError { name: name.clone(), line }),
        }
    }

    /// Gives `name` the value `value` in the innermost scope, from `scope`
    /// outwards, that binds it. Where none binds it, nothing changes and the error
    /// says so, with `line`: assigning never declares a name.
    pub fn assign(&mut self, scope: usize, name: &String, value: Value, line: usize) -> (result:
        Result<(), ErrorType>)
        requires
            old(self).wf(),
            scope < old(self)@.len(),
        ensures
            final(self).wf(),
            final(self)@.len() == old(self)@.len(),
            (final(self)@, error_view(result)) == assign_model(
                old(self)@,
                scope as int,
                name@,
                value@,
                line,
            ),
    {
        match self.find(scope, name) {
            Some((holder, i)) => {
                let ghost before = self.scopes@[holder as int].bindings@;
                let ghost value_view = value@;
                self.scopes[holder].bindings[i].value = value;
                proof {
                    let after = self.scopes@[holder as int].bindings@;
                    assert forall|n: Seq<char>|
                        bound_from(after, 0, n) == (if n == name@ {
                            Some(value_view)
                        } else {
                            bound_from(before, 0, n)
                        }) by {
                        lemma_bound_replaced(before, after, i as int, 0, n);
                    }
                    assert(self.scopes@[holder as int]@.bindings =~= old(
                        self,
                    )@[holder as int].bindings.insert(name@, value_view));
                    assert(self@ =~= with_binding(old(self)@, holder as int, name@, value_view));
                }
                Ok(())
            },
            None => Err(ErrorType::NameError { name: name.clone(), line }),
        }
    }
}

/// A name that is found is found in a scope that exists and binds it, no further
/// out than where the search began.
pub proof fn lemma_resolve_bounds(scopes: Seq<ScopeView>, scope: int, name: Seq<char>)
    ensures
        match resolve(scopes, scope, name) {
            Some(holder) => 0 <= holder <= scope && holder < scopes.len()
                && scopes[holder].bindings.contains_key(name),
            None => true,
        },
    decreases scope,
{
    if 0 <= scope < scopes.len() && !scopes[scope].bindings.contains_key(name) {
        match scopes[scope].parent {
            Some(parent) => {
                if parent < scope {
                    lemma_resolve_bounds(scopes, parent as int, name);
                }
            },
            None => {},
        }
    }
}

/// A new scope sees what its parent sees: a function that is called sees, from
/// the scope of the call, every name of the scope it was declared in.
pub proof fn lemma_child_sees_parent(scopes: Seq<ScopeView>, parent: usize, name: Seq<char>)
    requires
        parent < scopes.len(),
    ensures
        lookup(scopes.push(child_scope(parent)), scopes.len() as int, name) == lookup(
            scopes,
            parent as int,
            name,
        ),
{
    let more = scopes.push(child_scope(parent));
    lemma_resolve_prefix(scopes, more, parent as int, name);
    lemma_resolve_bounds(scopes, parent as int, name);
}

/// Scopes that are added do not change what is found from the scopes before them.
proof fn lemma_resolve_prefix(
    scopes: Seq<ScopeView>,
    more: Seq<ScopeView>,
    scope: int,
    name: Seq<char>,
)
    requires
        scopes.len() <= more.len(),
        forall|i: int| 0 <= i < scopes.len() ==> more[i] == scopes[i],
        0 <= scope < scopes.len(),
    ensures
        resolve(more, scope, name) == resolve(scopes, scope, name),
    decreases scope,
{
    if !scopes[scope].bindings.contains_key(name) {
        match scopes[scope].parent {
            Some(parent) => {
                if parent < scope {
                    lemma_resolve_prefix(scopes, more, parent as int, name);
                }
            },
            None => {},
        }
    }
}

/// What is bound to a name in a scope is what the name has from that scope on
/// inwards, as far as no scope between binds the name itself: from every scope
/// that found the name in `holder` before, the name now has the value `value`.
/// This is how a function sees what is assigned, after its declaration, to a
/// variable of the scope it was declared in.
pub proof fn lemma_binding_is_seen(
    scopes: Seq<ScopeView>,
    holder: int,
    name: Seq<char>,
    value: ValueView,
    from: int,
)
    requires
        0 <= holder < scopes.len(),
        resolve(scopes, from, name) == Some(holder),
    ensures
        lookup(with_binding(scopes, holder, name, value), from, name) == Some(value),
    decreases from,
{
    let after = with_binding(scopes, holder, name, value);
    if 0 <= from < scopes.len() {
        if from == holder {
            assert(after[from].bindings.contains_key(name));
        } else if scopes[from].bindings.contains_key(name) {
        } else {
            assert(after[from] == scopes[from]);
            match scopes[from].parent {
                Some(parent) => {
                    if parent < from {
                        lemma_binding_is_seen(scopes, holder, name, value, parent as int);
                    }
                },
                None => {},
            }
        }
    }
}

/// What is bound to a name in a scope that binds that name already changes the
/// value of no other name, seen from anywhere.
pub proof fn lemma_binding_leaves_others(
    scopes: Seq<ScopeView>,
    holder: int,
    name: Seq<char>,
    value: ValueView,
    from: int,
    other: Seq<char>,
)
    requires
        0 <= holder < scopes.len(),
        other != name,
    ensures
        lookup(with_binding(scopes, holder, name, value), from, other) == lookup(
            scopes,
            from,
            other,
        ),
    decreases from,
{
    let after = with_binding(scopes, holder, name, value);
    if 0 <= from < scopes.len() {
        if from == holder {
            assert(after[from].bindings.contains_key(other) == scopes[from].bindings.contains_key(
                other,
            ));
        } else {
            assert(after[from] == scopes[from]);
        }
        if !scopes[from].bindings.contains_key(other) {
            match scopes[from].parent {
                Some(parent) => {
                    if parent < from {
                        lemma_binding_leaves_others(
                            scopes,
                            holder,
                            name,
                            value,
                            parent as int,
                            other,
                        );
                        lemma_resolve_bounds(scopes, parent as int, other);
                        lemma_resolve_bounds(after, parent as int, other);
                    }
                },
                None => {},
            }
        }
    }
}

/// After the value of the first binding of a name is replaced, that name has the
/// new value and every other name the value it had.
proof fn lemma_bound_replaced(
    before: Seq<Binding>,
    after: Seq<Binding>,
    i: int,
    from: int,
    name: Seq<char>,
)
    requires
        0 <= i < before.len(),
        0 <= from <= i,
        after.len() == before.len(),
        after[i].name@ == before[i].name@,
        forall|j: int| 0 <= j < before.len() && j != i ==> after[j] == before[j],
        forall|j: int| 0 <= j < i ==> before[j].name@ != before[i].name@,
    ensures
        bound_from(after, from, name) == (if name == before[i].name@ {
            Some(after[i].value@)
        } else {
            bound_from(before, from, name)
        }),
    decreases i - from,
{
    if from < i {
        lemma_bound_replaced(before, after, i, from + 1, name);
    } else {
        if name != before[i].name@ {
            lemma_bound_same(before, after, i + 1, name);
        }
    }
}

/// Equal bindings from a position on give equal values from there on.
proof fn lemma_bound_same(before: Seq<Binding>, after: Seq<Binding>, from: int, name: Seq<char>)
    requires
        0 <= from,
        after.len() == before.len(),
        forall|j: int| from <= j < before.len() ==> after[j] == before[j],
    ensures
        bound_from(after, from, name) == bound_from(before, from, name),
    decreases before.len() - from,
{
    if from < before.len() {
        lemma_bound_same(before, after, from + 1, name);
    }
}

/// After a binding of a name that was not bound is added, that name has the new
/// value and every other name the value it had.
proof fn lemma_bound_pushed(before: Seq<Binding>, after: Seq<Binding>, from: int, name: Seq<char>)
    requires
        0 <= from <= before.len(),
        after.len() == before.len() + 1,
        forall|j: int| 0 <= j < before.len() ==> after[j] == before[j],
        forall|j: int| 0 <= j < before.len() ==> before[j].name@ != after[before.len() as int].name@,
    ensures
        bound_from(after, from, name) == (if name == after[before.len() as int].name@ {
            Some(after[before.len() as int].value@)
        } else {
            bound_from(before, from, name)
        }),
    decreases before.len() - from,
{
    if from < before.len() {
        lemma_bound_pushed(before, after, from + 1, name);
    } else {
        assert(bound_from(after, from + 1, name) is None);
    }
}

} // verus!
