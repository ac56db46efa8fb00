//! The environment: a chain of scopes, innermost last.
//!
//! A block shares the scopes that enclose it: what it assigns to an outer
//! name stays assigned when the block is left, what it defines goes with
//! its own scope.

use vstd::prelude::*;
use crate::error::RuntimeError;
use crate::error::RuntimeErrorView;
use crate::value::Value;
use crate::value::ValueView;

verus! {

/// A scope in contracts: the names it binds, each with its value.
pub type Scope = Map<Seq<char>, ValueView>;

/// The index of the innermost scope that binds `name`.
pub open spec fn holder(scopes: Seq<Scope>, name: Seq<char>) -> Option<int>
    decreases scopes.len(),
{
    if scopes.len() == 0 {
        None
    } else if scopes.last().dom().contains(name) {
        Some(scopes.len() - 1)
    } else {
        holder(scopes.drop_last(), name)
    }
}

/// The value of `name`: that of the innermost scope that binds it.
pub open spec fn lookup(scopes: Seq<Scope>, name: Seq<char>) -> Option<ValueView> {
    match holder(scopes, name) {
        Some(i) => Some(scopes[i][name]),
        None => None,
    }
}

/// The scopes after `name` is defined as `value`: the innermost scope binds
/// it, whatever it or an outer scope bound before.
pub open spec fn defined(scopes: Seq<Scope>, name: Seq<char>, value: ValueView) -> Seq<Scope>
    recommends
        scopes.len() > 0,
{
    scopes.update(scopes.len() - 1, scopes.last().insert(name, value))
}

/// The scopes after `value` is assigned to `name`: the innermost scope that
/// binds the name binds it to `value`. None where no scope binds it.
pub open spec fn assigned(scopes: Seq<Scope>, name: Seq<char>, value: ValueView) -> Option<
    Seq<Scope>,
> {
    match holder(scopes, name) {
        Some(i) => Some(scopes.update(i, scopes[i].insert(name, value))),
        None => None,
    }
}

/// The innermost holder of a name is a scope of the chain that binds it,
/// and no scope further in binds it.
pub proof fn lemma_holder(scopes: Seq<Scope>, name: Seq<char>)
    ensures
        match holder(scopes, name) {
            Some(i) => 0 <= i < scopes.len() && scopes[i].dom().contains(name) && forall|j: int|
                i < j < scopes.len() ==> !(#[trigger] scopes[j]).dom().contains(name),
            None => forall|j: int|
                0 <= j < scopes.len() ==> !(#[trigger] scopes[j]).dom().contains(name),
        },
    decreases scopes.len(),
{
    if scopes.len() > 0 && !scopes.last().dom().contains(name) {
        let front = scopes.drop_last();
        lemma_holder(front, name);
        assert(forall|j: int| 0 <= j < front.len() ==> front[j] == scopes[j]);
    }
}

/// The holder among the first `n` scopes is the holder among all of them
/// when none of the others binds the name.
pub proof fn lemma_holder_take(scopes: Seq<Scope>, name: Seq<char>, n: int)
    requires
        0 <= n <= scopes.len(),
        forall|j: int| n <= j < scopes.len() ==> !(#[trigger] scopes[j]).dom().contains(name),
    ensures
        holder(scopes, name) == holder(scopes.take(n), name),
    decreases scopes.len() - n,
{
    if n < scopes.len() {
        assert(scopes.drop_last().take(n) =~= scopes.take(n));
        lemma_holder_take(scopes.drop_last(), name, n);
    } else {
        assert(scopes.take(n) =~= scopes);
    }
}

/// A name with its value.
#[derive(Debug)]
pub struct Binding {
    pub name: String,
    pub value: Value,
}

/// The scope that a list of bindings makes. Where a name occurs twice, the
/// later binding counts.
pub open spec fn scope_of(bindings: Seq<Binding>) -> Scope
    decreases bindings.len(),
{
    if bindings.len() == 0 {
        Map::empty()
    } else {
        scope_of(bindings.drop_last()).insert(bindings.last().name@, bindings.last().value@)
    }
}

/// No name occurs twice in the list.
pub open spec fn distinct(bindings: Seq<Binding>) -> bool {
    forall|i: int, j: int|
        0 <= i < j < bindings.len() ==> (#[trigger] bindings[i]).name@ != (
        #[trigger] bindings[j]).name@
}

/// A scope binds exactly the names in its list.
pub proof fn lemma_scope_names(bindings: Seq<Binding>, name: Seq<char>)
    ensures
        scope_of(bindings).dom().contains(name) <==> exists|i: int|
            0 <= i < bindings.len() && (#[trigger] bindings[i]).name@ == name,
    decreases bindings.len(),
{
    if bindings.len() > 0 {
        let front = bindings.drop_last();
        lemma_scope_names(front, name);
        if scope_of(bindings).dom().contains(name) {
            if bindings.last().name@ == name {
                assert(bindings[bindings.len() - 1].name@ == name);
            } else {
                let i = choose|i: int| 0 <= i < front.len() && (#[trigger] front[i]).name@ == name;
                assert(bindings[i].name@ == name);
            }
        } else {
            assert forall|i: int| 0 <= i < bindings.len() implies (#[trigger] bindings[i]).name@
                != name by {
                if i < front.len() {
                    assert(front[i].name@ != name);
                }
            }
        }
    }
}

/// Where no name occurs twice, a scope gives each name the value in its list.
pub proof fn lemma_scope_value(bindings: Seq<Binding>, i: int)
    requires
        distinct(bindings),
        0 <= i < bindings.len(),
    ensures
        scope_of(bindings).dom().contains(bindings[i].name@),
        scope_of(bindings)[bindings[i].name@] == bindings[i].value@,
    decreases bindings.len(),
{
    if i < bindings.len() - 1 {
        let front = bindings.drop_last();
        assert(front[i] == bindings[i]);
        lemma_scope_value(front, i);
    }
}

/// Where no name occurs twice, giving the name at `i` another value changes
/// the scope as an insertion does.
pub proof fn lemma_scope_update(bindings: Seq<Binding>, i: int, fresh: Binding)
    requires
        distinct(bindings),
        0 <= i < bindings.len(),
        fresh.name@ == bindings[i].name@,
    ensures
        distinct(bindings.update(i, fresh)),
        scope_of(bindings.update(i, fresh)) == scope_of(bindings).insert(
            fresh.name@,
            fresh.value@,
        ),
    decreases bindings.len(),
{
    let after = bindings.update(i, fresh);
    let front = bindings.drop_last();
    if i == bindings.len() - 1 {
        assert(after.drop_last() =~= front);
        assert(scope_of(after) =~= scope_of(bindings).insert(fresh.name@, fresh.value@));
    } else {
        assert(front[i] == bindings[i]);
        lemma_scope_update(front, i, fresh);
        assert(after.drop_last() =~= front.update(i, fresh));
        assert(after.last() == bindings.last());
        assert(bindings.last().name@ != fresh.name@);
        assert(scope_of(after) =~= scope_of(bindings).insert(fresh.name@, fresh.value@));
    }
}

/// The scopes that a list of binding lists makes.
pub open spec fn scopes_of(lists: Seq<Vec<Binding>>) -> Seq<Scope> {
    lists.map_values(|list: Vec<Binding>| scope_of(list@))
}

/// The environment of a running program.
#[derive(Debug)]
pub struct Env {
    scopes: Vec<Vec<Binding>>,
}

impl View for Env {
    type V = Seq<Scope>;

    closed spec fn view(&self) -> Seq<Scope> {
        scopes_of(self.scopes@)
    }
}

/// The position of `name` in the list.
fn find(bindings: &Vec<Binding>, name: &str) -> (r: Option<usize>)
    ensures
        match r {
            Some(i) => i < bindings@.len() && bindings@[i as int].name@ == name@,
            None => forall|i: int| 0 <= i < bindings@.len() ==> bindings@[i].name@ != name@,
        },
{
    let mut i: usize = 0;
    while i < bindings.len()
        invariant
            i <= bindings@.len(),
            forall|j: int| 0 <= j < i ==> bindings@[j].name@ != name@,
        decreases bindings@.len() - i,
    {
        if bindings[i].name.as_str().eq(name) {
            return Some(i);
        }
        i += 1;
    }
    None
}

impl Env {
    /// The invariant of an environment: there is a global scope, and no
    /// scope lists a name twice.
    pub closed spec fn wf(&self) -> bool {
        &&& self.scopes@.len() >= 1
        &&& forall|i: int| 0 <= i < self.scopes@.len() ==> distinct((#[trigger] self.scopes@[i])@)
    }

    /// An environment with an empty global scope.
    pub fn new() -> (r: Env)
        ensures
            r.wf(),
            r@ == seq![Map::<Seq<char>, ValueView>::empty()],
    {
        let mut scopes: Vec<Vec<Binding>> = Vec::new();
        scopes.push(Vec::new());
        let r = Env { scopes };
        assert(r@ =~= seq![Map::<Seq<char>, ValueView>::empty()]);
        r
    }

    /// The number of scopes, the global one included.
    pub fn depth(&self) -> (r: usize)
        requires
            self.wf(),
        ensures
            r == self@.len(),
            r >= 1,
    {
        self.scopes.len()
    }

    /// Opens a scope inside the current one.
    pub fn enter_scope(&mut self)
        requires
            old(self).wf(),
        ensures
            final(self).wf(),
            final(self)@ == old(self)@.push(Map::empty()),
    {
        self.scopes.push(Vec::new());
        assert(self@ =~= old(self)@.push(Map::empty()));
    }

    /// Leaves the current scope, which must not be the global one.
    pub fn exit_scope(&mut self)
        requires
            old(self).wf(),
            old(self)@.len() >= 2,
        ensures
            final(self).wf(),
            final(self)@ == old(self)@.drop_last(),
    {
        self.scopes.pop();
        assert(self@ =~= old(self)@.drop_last());
    }

    /// Binds `name` to `value` in the current scope.
    pub fn define(&mut self, name: String, value: Value)
        requires
            old(self).wf(),
        ensures
            final(self).wf(),
            final(self)@ == defined(old(self)@, name@, value@),
    {
        let last = self.scopes.len() - 1;
        let ghost before = self.scopes@[last as int]@;
        let fresh = Binding { name, value };
        match find(&self.scopes[last], fresh.name.as_str()) {
            Some(i) => {
                proof {
                    lemma_scope_update(before, i as int, fresh);
                }
                self.scopes[last][i] = fresh;
            },
            None => {
                self.scopes[last].push(fresh);
                assert(self.scopes@[last as int]@.drop_last() =~= before);
            },
        }
        assert(self@ =~= defined(old(self)@, name@, value@));
    }

    /// Rebinds `name`, in the innermost scope that binds it, to `value`.
    /// Fails, and changes nothing, where no scope binds the name.
    pub fn assign(&mut self, name: &str, value: Value) -> (r: Result<(), RuntimeError>)
        requires
            old(self).wf(),
        ensures
            final(self).wf(),
            match assigned(old(self)@, name@, value@) {
                Some(scopes) => r.is_ok() && final(self)@ == scopes,
                None => r.is_err() && r.unwrap_err()@ == RuntimeErrorView::UndefinedVariable(
                    name@,
                ) && final(self)@ == old(self)@,
            },
    {
        let mut i: usize = self.scopes.len();
        while i > 0
            invariant
                i <= self.scopes@.len(),
                self.wf(),
                self.scopes@ == old(self).scopes@,
                self@ == old(self)@,
                forall|j: int|
                    i <= j < self.scopes@.len() ==> !(#[trigger] self@[j]).dom().contains(name@),
            decreases i,
        {
            i -= 1;
            let ghost before = self.scopes@[i as int]@;
            match find(&self.scopes[i], name) {
                Some(at) => {
                    let fresh = Binding { name: self.scopes[i][at].name.clone(), value };
                    proof {
                        lemma_scope_update(before, at as int, fresh);
                        lemma_scope_value(before, at as int);
                        lemma_holder_take(old(self)@, name@, i + 1);
                        assert(old(self)@.take(i + 1).last() == scope_of(before));
                    }
                    self.scopes[i][at] = fresh;
                    assert(self@ =~= old(self)@.update(
                        i as int,
                        old(self)@[i as int].insert(name@, value@),
                    ));
                    return Ok(());
                },
                None => {
                    proof {
                        lemma_scope_names(before, name@);
                    }
                },
            }
        }
        proof {
            lemma_holder_take(old(self)@, name@, 0);
        }
        Err(RuntimeError::UndefinedVariable(String::from_str(name)))
    }

    /// The value of `name`: that of the innermost scope that binds it. Fails
    /// where no scope binds the name.
    pub fn get(&self, name: &str) -> (r: Result<Value, RuntimeError>)
        requires
            self.wf(),
        ensures
            match lookup(self@, name@) {
                Some(value) => r.is_ok() && r.unwrap()@ == value,
                None => r.is_err() && r.unwrap_err()@ == RuntimeErrorView::UndefinedVariable(
                    name@,
                ),
            },
    {
        let mut i: usize = self.scopes.len();
        while i > 0
            invariant
                i <= self.scopes@.len(),
                self.wf(),
                forall|j: int|
                    i <= j < self.scopes@.len() ==> !(#[trigger] self@[j]).dom().contains(name@),
            decreases i,
        {
            i -= 1;
            let ghost here = self.scopes@[i as int]@;
            match find(&self.scopes[i], name) {
                Some(at) => {
                    proof {
                        lemma_scope_value(here, at as int);
                        lemma_holder_take(self@, name@, i + 1);
                        assert(self@.take(i + 1).last() == scope_of(here));
                    }
                    return Ok(self.scopes[i][at].value.duplicate());
                },
                None => {
                    proof {
                        lemma_scope_names(here, name@);
                    }
                },
            }
        }
        proof {
            lemma_holder_take(self@, name@, 0);
        }
        Err(RuntimeError::UndefinedVariable(String::from_str(name)))
    }
}

} // verus!
