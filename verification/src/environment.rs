//! Lexical scopes: a store of scope records, each with its bindings and
//! the handle of the scope that encloses it.

use crate::token::{LiteralValue, Token, ValueV};
use vstd::prelude::*;
use vstd::string::*;

verus! {

/// A name was looked up or assigned that no scope of the chain declares.
#[derive(Debug, PartialEq)]
pub struct EnvironmentError {
    pub msg: String,
}

/// One scope: its bindings in the order they were made, and the scope
/// around it.
#[derive(Debug)]
pub struct Scope {
    pub values: Vec<(String, LiteralValue)>,
    pub enclosing: Option<usize>,
}

/// A scope as a map from names to values.
pub struct ScopeV {
    pub values: Map<Seq<char>, ValueV>,
    pub enclosing: Option<usize>,
}

/// The scopes of a program. A scope is named by its handle, the place it
/// has in the store; the global scope has handle 0.
#[derive(Debug)]
pub struct Environment {
    pub scopes: Vec<Scope>,
}

/// The map that a list of bindings stands for: a later binding of a name
/// replaces an earlier one.
pub open spec fn bindings(list: Seq<(String, LiteralValue)>) -> Map<Seq<char>, ValueV>
    decreases list.len(),
{
    if list.len() == 0 {
        Map::empty()
    } else {
        bindings(list.drop_last()).insert(list.last().0@, list.last().1@)
    }
}

impl View for Scope {
    type V = ScopeV;

    open spec fn view(&self) -> ScopeV {
        ScopeV { values: bindings(self.values@), enclosing: self.enclosing }
    }
}

impl View for Environment {
    type V = Seq<ScopeV>;

    open spec fn view(&self) -> Seq<ScopeV> {
        Seq::new(self.scopes@.len(), |i: int| self.scopes@[i]@)
    }
}

/// The scope, starting at `scope` and going outwards, that binds `name`.
/// A scope is enclosed only by a scope made before it.
pub open spec fn resolve(scopes: Seq<ScopeV>, scope: usize, name: Seq<char>) -> Option<usize>
    decreases scope,
{
    if scope >= scopes.len() {
        None
    } else if scopes[scope as int].values.contains_key(name) {
        Some(scope)
    } else {
        match scopes[scope as int].enclosing {
            Some(outer) if outer < scope => resolve(scopes, outer, name),
            _ => None,
        }
    }
}

/// The value that `name` has when seen from `scope`.
pub open spec fn lookup(scopes: Seq<ScopeV>, scope: usize, name: Seq<char>) -> Option<ValueV> {
    match resolve(scopes, scope, name) {
        Some(owner) => Some(scopes[owner as int].values[name]),
        None => None,
    }
}

/// The scopes after `name` was bound to `value` in `scope`.
pub open spec fn bound(scopes: Seq<ScopeV>, scope: usize, name: Seq<char>, value: ValueV) -> Seq<
    ScopeV,
> {
    if scope < scopes.len() {
        scopes.update(
            scope as int,
            ScopeV {
                values: scopes[scope as int].values.insert(name, value),
                enclosing: scopes[scope as int].enclosing,
            },
        )
    } else {
        scopes
    }
}

/// The scopes after `name`, as seen from `scope`, was given `value`; `None`
/// where no scope of the chain binds it.
pub open spec fn assigned(scopes: Seq<ScopeV>, scope: usize, name: Seq<char>, value: ValueV) -> Option<
    Seq<ScopeV>,
> {
    match resolve(scopes, scope, name) {
        Some(owner) => Some(bound(scopes, owner, name, value)),
        None => None,
    }
}

/// The scopes with a new, empty scope inside `enclosing` at their end.
pub open spec fn extended(scopes: Seq<ScopeV>, enclosing: usize) -> Seq<ScopeV> {
    scopes.push(ScopeV { values: Map::empty(), enclosing: Some(enclosing) })
}

/// All bindings that are seen from `scope`, in one map on top of `under`:
/// the bindings of `scope` first, then those of the scopes around it, from
/// the inside out. Where two of the scopes bind one name, the outer binding
/// stays.
pub open spec fn flattened(
    scopes: Seq<ScopeV>,
    scope: usize,
    under: Map<Seq<char>, ValueV>,
) -> Map<Seq<char>, ValueV>
    decreases scope,
{
    if scope >= scopes.len() {
        under
    } else {
        let merged = under.union_prefer_right(scopes[scope as int].values);
        match scopes[scope as int].enclosing {
            Some(outer) if outer < scope => flattened(scopes, outer, merged),
            _ => merged,
        }
    }
}

/// The message for a name that was read and is bound nowhere.
pub open spec fn missing_message(name: Seq<char>) -> Seq<char> {
    "Couldn't Find Variable: "@ + name
}

/// The message for a name that was assigned and is bound nowhere.
pub open spec fn undeclared_message(name: Seq<char>) -> Seq<char> {
    "Variable "@ + name + " not yet declared"@
}

/// A name that stands at no place from `from` on is bound as in the list
/// up to `from`.
pub proof fn lemma_bindings_skip(list: Seq<(String, LiteralValue)>, name: Seq<char>, from: int)
    requires
        0 <= from <= list.len(),
        forall|j: int| from <= j < list.len() ==> (#[trigger] list[j]).0@ != name,
    ensures
        bindings(list).contains_key(name) == bindings(list.take(from)).contains_key(name),
        bindings(list).contains_key(name) ==> bindings(list)[name] == bindings(list.take(from))[name],
    decreases list.len(),
{
    if from == list.len() {
        assert(list.take(from) == list);
    } else {
        let shorter = list.drop_last();
        lemma_bindings_skip(shorter, name, from);
        assert(shorter.take(from) == list.take(from));
    }
}

/// A name is bound to the value at the last place where it stands.
pub proof fn lemma_bindings_last(list: Seq<(String, LiteralValue)>, name: Seq<char>, at: int)
    requires
        0 <= at < list.len(),
        list[at].0@ == name,
        forall|j: int| at < j < list.len() ==> (#[trigger] list[j]).0@ != name,
    ensures
        bindings(list).contains_key(name),
        bindings(list)[name] == list[at].1@,
{
    lemma_bindings_skip(list, name, at + 1);
    assert(list.take(at + 1).drop_last() == list.take(at));
    assert(list.take(at + 1).last() == list[at]);
}

/// Replacing the last binding of a name in the list replaces it in the map.
pub proof fn lemma_bindings_update(
    list: Seq<(String, LiteralValue)>,
    at: int,
    entry: (String, LiteralValue),
)
    requires
        0 <= at < list.len(),
        list[at].0@ == entry.0@,
        forall|j: int| at < j < list.len() ==> (#[trigger] list[j]).0@ != entry.0@,
    ensures
        bindings(list.update(at, entry)) == bindings(list).insert(entry.0@, entry.1@),
    decreases list.len(),
{
    let changed = list.update(at, entry);
    if at == list.len() - 1 {
        assert(changed.drop_last() == list.drop_last());
        assert(bindings(changed) =~= bindings(list).insert(entry.0@, entry.1@));
    } else {
        lemma_bindings_update(list.drop_last(), at, entry);
        assert(changed.drop_last() == list.drop_last().update(at, entry));
        assert(changed.last() == list.last());
        assert(bindings(changed) =~= bindings(list).insert(entry.0@, entry.1@));
    }
}

/// The scope that binds a name is a scope of the store, no younger than
/// the scope the search began in, and binds the name.
pub proof fn lemma_resolve_owner(scopes: Seq<ScopeV>, scope: usize, name: Seq<char>)
    ensures
        resolve(scopes, scope, name) matches Some(owner) ==> owner <= scope && owner < scopes.len()
            && scopes[owner as int].values.contains_key(name),
    decreases scope,
{
    if scope < scopes.len() && !scopes[scope as int].values.contains_key(name) {
        match scopes[scope as int].enclosing {
            Some(outer) => {
                if outer < scope {
                    lemma_resolve_owner(scopes, outer, name);
                }
            },
            None => {},
        }
    }
}

impl Scope {
    /// The place of the last binding of `name`.
    fn find(&self, name: &String) -> (r: Option<usize>)
        ensures
            match r {
                Some(at) => at < self.values@.len() && self.values@[at as int].0@ == name@
                    && self@.values.contains_key(name@) && self@.values[name@]
                    == self.values@[at as int].1@ && forall|j: int|
                    at < j < self.values@.len() ==> (#[trigger] self.values@[j]).0@ != name@,
                None => !self@.values.contains_key(name@),
            },
    {
        let mut i: usize = self.values.len();
        while i > 0
            invariant
                i <= self.values@.len(),
                forall|j: int| i <= j < self.values@.len() ==> (#[trigger] self.values@[j]).0@ != name@,
            decreases i,
        {
            i = i - 1;
            if self.values[i].0 == *name {
                proof {
                    lemma_bindings_last(self.values@, name@, i as int);
                }
                return Some(i);
            }
        }
        proof {
            lemma_bindings_skip(self.values@, name@, 0);
            assert(self.values@.take(0) =~= Seq::empty());
        }
        None
    }

    fn write(&mut self, name: String, value: LiteralValue)
        ensures
            final(self)@.values == old(self)@.values.insert(name@, value@),
            final(self).enclosing == old(self).enclosing,
    {
        match self.find(&name) {
            Some(at) => {
                proof {
                    lemma_bindings_update(self.values@, at as int, (name, value));
                }
                self.values.set(at, (name, value));
            },
            None => {
                self.values.push((name, value));
                assert(self.values@.drop_last() == old(self).values@);
            },
        }
    }
}

impl Environment {
    /// A store that holds the global scope alone.
    pub fn new_global() -> (r: Environment)
        ensures
            r@ == seq![ScopeV { values: Map::empty(), enclosing: None }],
    {
        let mut scopes: Vec<Scope> = Vec::new();
        scopes.push(Scope { values: Vec::new(), enclosing: None });
        let r = Environment { scopes };
        assert(r@ =~= seq![ScopeV { values: Map::empty(), enclosing: None }]);
        r
    }

    /// The number of scopes.
    pub fn len(&self) -> (r: usize)
        ensures
            r == self@.len(),
    {
        self.scopes.len()
    }

    /// Adds an empty scope inside `enclosing` and returns its handle.
    pub fn new_local(&mut self, enclosing: usize) -> (r: usize)
        ensures
            r == old(self)@.len(),
            final(self)@ == extended(old(self)@, enclosing),
    {
        let handle = self.scopes.len();
        self.scopes.push(Scope { values: Vec::new(), enclosing: Some(enclosing) });
        assert(self@ =~= extended(old(self)@, enclosing));
        handle
    }

    /// Binds `name` to `value` in `scope`, whether or not the scope bound
    /// it before. A handle of no scope leaves the store as it is.
    pub fn define(&mut self, scope: usize, name: String, value: LiteralValue)
        ensures
            final(self)@ == bound(old(self)@, scope, name@, value@),
    {
        if scope < self.scopes.len() {
            self.scopes[scope].write(name, value);
            assert(self@ =~= bound(old(self)@, scope, name@, value@));
        }
    }

    /// The handle of the scope that binds `name`, seen from `scope`, and
    /// the place of the binding in that scope.
    fn locate(&self, scope: usize, name: &String) -> (r: Option<(usize, usize)>)
        ensures
            match r {
                Some((owner, at)) => resolve(self@, scope, name@) == Some(owner) && owner
                    < self.scopes@.len() && at < self.scopes@[owner as int].values@.len()
                    && self@[owner as int].values[name@]
                    == self.scopes@[owner as int].values@[at as int].1@,
                None => resolve(self@, scope, name@) is None,
            },
    {
        let mut at: usize = scope;
        loop
            invariant
                resolve(self@, at, name@) == resolve(self@, scope, name@),
            decreases at,
        {
            if at >= self.scopes.len() {
                return None;
            }
            match self.scopes[at].find(name) {
                Some(place) => {
                    return Some((at, place));
                },
                None => {},
            }
            match self.scopes[at].enclosing {
                Some(outer) => {
                    if outer < at {
                        at = outer;
                    } else {
                        return None;
                    }
                },
                None => {
                    return None;
                },
            }
        }
    }

    /// The handle of the scope that binds `name`, seen from `scope`.
    pub fn owner(&self, scope: usize, name: &String) -> (r: Option<usize>)
        ensures
            r == resolve(self@, scope, name@),
    {
        match self.locate(scope, name) {
            Some((owner, _)) => Some(owner),
            None => None,
        }
    }

    /// The value of the variable that `name` names, seen from `scope`.
    pub fn get(&self, scope: usize, name: &Token) -> (r: Result<LiteralValue, EnvironmentError>)
        ensures
            match r {
                Ok(v) => lookup(self@, scope, name.lexeme@) == Some(v@),
                Err(e) => lookup(self@, scope, name.lexeme@) is None && e.msg@ == missing_message(
                    name.lexeme@,
                ),
            },
    {
        match self.locate(scope, &name.lexeme) {
            Some((owner, at)) => Ok(self.scopes[owner].values[at].1.clone()),
            None => Err(
                EnvironmentError {
                    msg: "Couldn't Find Variable: ".to_owned().concat(name.lexeme.as_str()),
                },
            ),
        }
    }

    /// Gives the variable that `name` names, seen from `scope`, a new
    /// value. A name that no scope of the chain binds is not bound by this.
    pub fn assign(&mut self, scope: usize, name: &Token, value: LiteralValue) -> (r: Option<
        EnvironmentError,
    >)
        ensures
            match r {
                None => assigned(old(self)@, scope, name.lexeme@, value@) == Some(final(self)@),
                Some(e) => assigned(old(self)@, scope, name.lexeme@, value@) is None && final(self)@
                    == old(self)@ && e.msg@ == undeclared_message(name.lexeme@),
            },
    {
        match self.owner(scope, &name.lexeme) {
            Some(owner) => {
                self.define(owner, name.lexeme.clone(), value);
                None
            },
            None => Some(
                EnvironmentError {
                    msg: "Variable ".to_owned().concat(name.lexeme.as_str()).concat(
                        " not yet declared",
                    ),
                },
            ),
        }
    }
}

impl Environment {
    /// Adds the bindings of one scope of `from` to the global scope of
    /// this store.
    fn absorb(&mut self, from: &Environment, scope: usize)
        requires
            scope < from@.len(),
            old(self)@.len() == 1,
        ensures
            final(self)@ == seq![
                ScopeV {
                    values: old(self)@[0].values.union_prefer_right(from@[scope as int].values),
                    enclosing: old(self)@[0].enclosing,
                },
            ],
    {
        let ghost under = self@[0].values;
        let ghost list = from.scopes@[scope as int].values@;
        let n = from.scopes[scope].values.len();
        let mut i: usize = 0;
        assert(bindings(list.take(0)) =~= Map::<Seq<char>, ValueV>::empty());
        assert(under.union_prefer_right(bindings(list.take(0))) =~= under);
        assert(self@[0] == (ScopeV {
            values: under.union_prefer_right(bindings(list.take(0))),
            enclosing: old(self)@[0].enclosing,
        }));
        assert(self@ =~= seq![
            ScopeV {
                values: under.union_prefer_right(bindings(list.take(0))),
                enclosing: old(self)@[0].enclosing,
            },
        ]);
        while i < n
            invariant
                scope < from.scopes@.len(),
                list == from.scopes@[scope as int].values@,
                n == list.len(),
                i <= n,
                self@ == seq![
                    ScopeV {
                        values: under.union_prefer_right(bindings(list.take(i as int))),
                        enclosing: old(self)@[0].enclosing,
                    },
                ],
            decreases n - i,
        {
            let name = from.scopes[scope].values[i].0.clone();
            let value = from.scopes[scope].values[i].1.clone();
            self.define(0, name, value);
            proof {
                let shorter = list.take(i as int);
                let longer = list.take(i + 1);
                assert(longer.drop_last() == shorter);
                assert(longer.last() == list[i as int]);
                assert(under.union_prefer_right(bindings(longer)) =~= under.union_prefer_right(
                    bindings(shorter),
                ).insert(list[i as int].0@, list[i as int].1@));
                assert(self@ =~= seq![
                    ScopeV {
                        values: under.union_prefer_right(bindings(longer)),
                        enclosing: old(self)@[0].enclosing,
                    },
                ]);
            }
            i = i + 1;
        }
        assert(list.take(n as int) == list);
    }

    /// A store of one scope that binds all that is seen from `scope`.
    pub fn full_clone(&self, scope: usize) -> (r: Environment)
        ensures
            r@ == seq![
                ScopeV { values: flattened(self@, scope, Map::empty()), enclosing: None },
            ],
    {
        let mut copy = Environment::new_global();
        let mut at: usize = scope;
        loop
            invariant
                copy@.len() == 1,
                copy@[0].enclosing is None,
                flattened(self@, at, copy@[0].values) == flattened(self@, scope, Map::empty()),
            decreases at,
        {
            if at >= self.scopes.len() {
                assert(copy@ =~= seq![
                    ScopeV { values: flattened(self@, scope, Map::empty()), enclosing: None },
                ]);
                return copy;
            }
            copy.absorb(self, at);
            match self.scopes[at].enclosing {
                Some(outer) => {
                    if outer < at {
                        at = outer;
                    } else {
                        return copy;
                    }
                },
                None => {
                    return copy;
                },
            }
        }
    }
}

} // verus!
