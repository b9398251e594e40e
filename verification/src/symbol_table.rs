//! The mapping from names to storage slots.
//!
//! A table is a stack of scopes, the global scope at the bottom and the
//! current scope on top. A scope is the list of the names declared in it;
//! the position of a name in that list is its slot. Slots are therefore
//! dense, start at zero and follow the order of declaration, and no name
//! occurs twice in one scope.
use vstd::prelude::*;

verus! {

/// Where a binding lives.
#[derive(Clone, Copy, Debug, PartialEq, Eq, Structural)]
pub enum SymbolScope {
    Global,
    Local,
}

/// A name resolved to a scope and a slot in it.
#[derive(Clone, Debug, PartialEq, Eq)]
pub struct Symbol {
    pub name: String,
    pub scope: SymbolScope,
    pub index: usize,
}

/// The names of one scope, in the order of their slots.
pub type Scope = Seq<Seq<char>>;

/// The kind of the scope at `depth`, counted from the global scope.
pub open spec fn scope_kind(depth: nat) -> SymbolScope {
    if depth == 0 {
        SymbolScope::Global
    } else {
        SymbolScope::Local
    }
}

/// A stack of scopes is well formed if it holds the global scope at least
/// and no scope holds a name twice.
pub open spec fn well_formed(scopes: Seq<Scope>) -> bool {
    &&& scopes.len() >= 1
    &&& forall|d: int| 0 <= d < scopes.len() ==> (#[trigger] scopes[d]).no_duplicates()
}

/// The scope after `name` has been declared in it: a new name takes the
/// next slot, a name that the scope holds already keeps its slot.
pub open spec fn declare(scope: Scope, name: Seq<char>) -> Scope {
    if scope.contains(name) {
        scope
    } else {
        scope.push(name)
    }
}

/// The slot of `name` in a scope that holds it.
pub open spec fn slot_of(scope: Scope, name: Seq<char>) -> nat {
    scope.index_of(name) as nat
}

/// The stack after `name` has been declared in the current scope.
pub open spec fn define_in(scopes: Seq<Scope>, name: Seq<char>) -> Seq<Scope> {
    scopes.update(scopes.len() - 1, declare(scopes.last(), name))
}

/// The depth and the slot under which `name` is found in the innermost
/// `visible` scopes, looking from the current scope outwards.
pub open spec fn lookup(scopes: Seq<Scope>, name: Seq<char>, visible: nat) -> Option<(nat, nat)>
    decreases visible,
{
    if visible == 0 {
        None
    } else if scopes[visible - 1].contains(name) {
        Some(((visible - 1) as nat, slot_of(scopes[visible - 1], name)))
    } else {
        lookup(scopes, name, (visible - 1) as nat)
    }
}

/// The names of a list of strings.
pub open spec fn names_of(scope: Seq<String>) -> Scope {
    Seq::new(scope.len(), |i: int| scope[i]@)
}

/// In a scope without duplicates, a name has the slot at which it stands.
pub proof fn lemma_slot_is_position(scope: Scope, name: Seq<char>, i: int)
    requires
        scope.no_duplicates(),
        0 <= i < scope.len(),
        scope[i] == name,
    ensures
        scope.contains(name),
        slot_of(scope, name) == i,
{
}

/// Declaring a name keeps a scope free of duplicates and leaves the slots
/// of the names that it held untouched.
pub proof fn lemma_declare(scope: Scope, name: Seq<char>)
    requires
        scope.no_duplicates(),
    ensures
        declare(scope, name).no_duplicates(),
        declare(scope, name).contains(name),
        scope.is_prefix_of(declare(scope, name)),
        scope.contains(name) ==> declare(scope, name) == scope,
        !scope.contains(name) ==> slot_of(declare(scope, name), name) == scope.len(),
{
    if !scope.contains(name) {
        let grown = scope.push(name);
        assert(grown[scope.len() as int] == name);
        lemma_slot_is_position(grown, name, scope.len() as int);
    }
}

/// A stack of scopes in which names are bound to slots.
#[derive(Debug)]
pub struct SymbolTable {
    outer: Vec<Vec<String>>,
    current: Vec<String>,
}

impl View for SymbolTable {
    type V = Seq<Scope>;

    closed spec fn view(&self) -> Seq<Scope> {
        Seq::new(self.outer@.len(), |d: int| names_of(self.outer@[d]@)).push(
            names_of(self.current@),
        )
    }
}

/// The first position of `name` in `scope`.
fn position(scope: &Vec<String>, name: &String) -> (r: Option<usize>)
    ensures
        match r {
            Some(i) => i < scope.len() && scope[i as int]@ == name@,
            None => !names_of(scope@).contains(name@),
        },
{
    let mut i: usize = 0;
    while i < scope.len()
        invariant
            i <= scope.len(),
            forall|j: int| 0 <= j < i ==> scope[j]@ != name@,
        decreases scope.len() - i,
    {
        if scope[i].eq(name) {
            return Some(i);
        }
        i += 1;
    }
    assert forall|j: int| 0 <= j < names_of(scope@).len() implies names_of(scope@)[j] != name@ by {
        assert(names_of(scope@)[j] == scope[j]@);
    }
    None
}

impl SymbolTable {
    /// A table that holds the global scope alone, with no name in it.
    pub fn new() -> (table: SymbolTable)
        ensures
            table@ == seq![Seq::<Seq<char>>::empty()],
            well_formed(table@),
    {
        let table = SymbolTable { outer: Vec::new(), current: Vec::new() };
        assert(names_of(table.current@) =~= Seq::<Seq<char>>::empty());
        assert(table@ =~= seq![Seq::<Seq<char>>::empty()]);
        table
    }

    /// Declares `name` in the current scope and returns its symbol.
    ///
    /// A name that the current scope does not hold yet gets the next free
    /// slot. A name that it holds already keeps its slot, and the scope does
    /// not grow.
    pub fn define(&mut self, name: &str) -> (symbol: Symbol)
        requires
            well_formed(old(self)@),
        ensures
            well_formed(final(self)@),
            final(self)@ == define_in(old(self)@, name@),
            symbol.name@ == name@,
            symbol.scope == scope_kind((old(self)@.len() - 1) as nat),
            symbol.index == slot_of(final(self)@.last(), name@),
    {
        let owned = String::from_str(name);
        let ghost before = self@;
        let ghost scope = names_of(self.current@);
        assert(before.last() == scope);
        proof {
            lemma_declare(scope, name@);
        }
        let index = match position(&self.current, &owned) {
            Some(i) => {
                proof {
                    assert(scope[i as int] == name@);
                    lemma_slot_is_position(scope, name@, i as int);
                    assert(self@ =~= define_in(before, name@));
                }
                i
            },
            None => {
                let i = self.current.len();
                self.current.push(owned.clone());
                proof {
                    assert(names_of(self.current@) =~= scope.push(name@));
                    assert(self@ =~= define_in(before, name@));
                }
                i
            },
        };
        let scope = if self.outer.len() == 0 {
            SymbolScope::Global
        } else {
            SymbolScope::Local
        };
        Symbol { name: owned, scope, index }
    }

    /// Finds the binding of `name`, looking in the current scope first and
    /// then in each enclosing scope in turn.
    pub fn resolve(&self, name: &str) -> (r: Option<Symbol>)
        requires
            well_formed(self@),
        ensures
            match lookup(self@, name@, self@.len()) {
                Some((depth, slot)) => r matches Some(symbol) && symbol.name@ == name@
                    && symbol.scope == scope_kind(depth) && symbol.index == slot,
                None => r is None,
            },
    {
        let owned = String::from_str(name);
        let ghost scopes = self@;
        if let Some(i) = position(&self.current, &owned) {
            proof {
                assert(scopes.last()[i as int] == name@);
                lemma_slot_is_position(scopes.last(), name@, i as int);
            }
            let scope = if self.outer.len() == 0 {
                SymbolScope::Global
            } else {
                SymbolScope::Local
            };
            return Some(Symbol { name: owned, scope, index: i });
        }
        let mut d: usize = self.outer.len();
        while d > 0
            invariant
                d <= self.outer.len(),
                scopes == self@,
                well_formed(scopes),
                owned@ == name@,
                lookup(scopes, name@, scopes.len()) == lookup(scopes, name@, d as nat),
            decreases d,
        {
            d -= 1;
            assert(scopes[d as int] == names_of(self.outer@[d as int]@));
            if let Some(i) = position(&self.outer[d], &owned) {
                proof {
                    assert(scopes[d as int][i as int] == name@);
                    lemma_slot_is_position(scopes[d as int], name@, i as int);
                }
                let scope = if d == 0 {
                    SymbolScope::Global
                } else {
                    SymbolScope::Local
                };
                return Some(Symbol { name: owned, scope, index: i });
            }
        }
        None
    }

    /// Opens a new, empty scope inside the current one.
    pub fn enter_scope(&mut self)
        requires
            well_formed(old(self)@),
        ensures
            well_formed(final(self)@),
            final(self)@ == old(self)@.push(Seq::<Seq<char>>::empty()),
    {
        let ghost before = self@;
        let mut scope: Vec<String> = Vec::new();
        core::mem::swap(&mut self.current, &mut scope);
        self.outer.push(scope);
        proof {
            assert(names_of(self.current@) =~= Seq::<Seq<char>>::empty());
            assert(self@ =~= before.push(Seq::<Seq<char>>::empty()));
        }
    }

    /// Closes the current scope and goes back to the enclosing one.
    ///
    /// The global scope cannot be closed: the table then stays as it is, and
    /// the result is `false`.
    pub fn exit_scope(&mut self) -> (closed: bool)
        requires
            well_formed(old(self)@),
        ensures
            well_formed(final(self)@),
            closed == (old(self)@.len() > 1),
            closed ==> final(self)@ == old(self)@.drop_last(),
            !closed ==> final(self)@ == old(self)@,
    {
        let ghost before = self@;
        match self.outer.pop() {
            Some(scope) => {
                self.current = scope;
                proof {
                    assert(self@ =~= before.drop_last());
                }
                true
            },
            None => {
                proof {
                    assert(self@ =~= before);
                }
                false
            },
        }
    }
}

} // verus!
