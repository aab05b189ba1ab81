//! The symbol table: atom names interned to dense integer ids.

use vstd::prelude::*;
use vstd::hash_map::StringHashMap;

verus! {

/// Maps each atom name to a stable id and back. Ids are handed out in
/// order, starting at zero; no name is ever removed.
///
/// The view is the sequence of names, indexed by id.
pub struct SymbolTable {
    symbols: Vec<String>,
    symbols_to_indeces: StringHashMap<usize>,
}

/// The id that `name` has in `names`, when it occurs there.
pub open spec fn symbol_id(names: Seq<Seq<char>>, name: Seq<char>) -> int {
    names.index_of(name)
}

/// The names after `name` has been interned.
pub open spec fn interned_names(names: Seq<Seq<char>>, name: Seq<char>) -> Seq<Seq<char>> {
    if names.contains(name) {
        names
    } else {
        names.push(name)
    }
}

/// The id that interning gives to `name`: the one it has, or the next free one.
pub open spec fn interned_id(names: Seq<Seq<char>>, name: Seq<char>) -> int {
    if names.contains(name) {
        symbol_id(names, name)
    } else {
        names.len() as int
    }
}

/// Once a name is interned it keeps its id, whatever is interned after it:
/// the same name always gets the same id.
pub proof fn lemma_interned_id_is_kept(names: Seq<Seq<char>>, name: Seq<char>, other: Seq<char>)
    requires
        names.no_duplicates(),
    ensures
        interned_names(names, name).no_duplicates(),
        interned_id(interned_names(names, name), name) == interned_id(names, name),
        interned_id(interned_names(interned_names(names, name), other), name) == interned_id(
            names,
            name,
        ),
{
    let once = interned_names(names, name);
    let id = interned_id(names, name);
    if names.contains(name) {
        let at = names.index_of(name);
        assert(0 <= at < names.len() && names[at] == name);
    } else {
        assert(once[names.len() as int] == name);
    }
    assert(0 <= id < once.len() && once[id] == name);
    assert(once.contains(name));
    let found = once.index_of(name);
    assert(0 <= found < once.len() && once[found] == name);
    assert(found == id);
    let twice = interned_names(once, other);
    assert(twice[id] == name);
    assert(twice.contains(name));
    let again = twice.index_of(name);
    assert(0 <= again < twice.len() && twice[again] == name);
    if once.contains(other) {
    } else {
        assert forall|i: int, j: int|
            0 <= i < twice.len() && 0 <= j < twice.len() && i != j implies twice[i]
            != twice[j] by {
            if i < once.len() && j < once.len() {
            } else if i < once.len() {
                assert(once[i] != other);
            } else {
                assert(once[j] != other);
            }
        }
    }
    assert(again == id);
}

impl View for SymbolTable {
    type V = Seq<Seq<char>>;

    closed spec fn view(&self) -> Seq<Seq<char>> {
        Seq::new(self.symbols@.len(), |i: int| self.symbols@[i]@)
    }
}

impl SymbolTable {
    /// The index agrees with the list of names, in both directions.
    pub closed spec fn wf(&self) -> bool {
        &&& forall|i: int|
            0 <= i < self.symbols@.len() ==> {
                &&& self.symbols_to_indeces@.contains_key(#[trigger] self.symbols@[i]@)
                &&& self.symbols_to_indeces@[self.symbols@[i]@] == i
            }
        &&& forall|name: Seq<char>| #[trigger]
            self.symbols_to_indeces@.contains_key(name) ==> {
                &&& self.symbols_to_indeces@[name] < self.symbols@.len()
                &&& self.symbols@[self.symbols_to_indeces@[name] as int]@ == name
            }
    }

    /// The table never holds more names than an id can count.
    pub proof fn lemma_len_fits(&self)
        ensures
            self@.len() <= usize::MAX,
    {
        assert(self.symbols.len() == self.symbols@.len());
    }

    /// In a well-formed table no name occurs twice.
    pub proof fn lemma_names_distinct(&self)
        requires
            self.wf(),
        ensures
            self@.no_duplicates(),
    {
        assert forall|i: int, j: int|
            0 <= i < self@.len() && 0 <= j < self@.len() && i != j implies self@[i] != self@[j] by {
            assert(self.symbols_to_indeces@[self.symbols@[i]@] == i);
            assert(self.symbols_to_indeces@[self.symbols@[j]@] == j);
        }
    }

    /// A table without names.
    pub fn new() -> (table: Self)
        ensures
            table.wf(),
            table@ == Seq::<Seq<char>>::empty(),
    {
        let table = SymbolTable { symbols: Vec::new(), symbols_to_indeces: StringHashMap::new() };
        assert(table@ =~= Seq::<Seq<char>>::empty());
        table
    }

    /// The number of names interned so far.
    pub fn len(&self) -> (count: usize)
        ensures
            count == self@.len(),
    {
        self.symbols.len()
    }

    /// The names in id order.
    pub fn names(&self) -> (names: &Vec<String>)
        ensures
            names@.len() == self@.len(),
            forall|i: int| 0 <= i < names@.len() ==> (#[trigger] names@[i])@ == self@[i],
    {
        &self.symbols
    }

    /// Appends a name that the table does not hold yet and returns its id.
    fn push(&mut self, symbol: &str) -> (index: usize)
        requires
            old(self).wf(),
            !old(self)@.contains(symbol@),
        ensures
            final(self).wf(),
            final(self)@ == old(self)@.push(symbol@),
            index == old(self)@.len(),
    {
        self.symbols.push(symbol.to_owned());
        let index = self.symbols.len() - 1;
        self.symbols_to_indeces.insert(symbol.to_owned(), index);
        proof {
            assert(final(self)@ =~= old(self)@.push(symbol@));
            assert forall|i: int| 0 <= i < self.symbols@.len() implies {
                &&& self.symbols_to_indeces@.contains_key(#[trigger] self.symbols@[i]@)
                &&& self.symbols_to_indeces@[self.symbols@[i]@] == i
            } by {
                if i < index {
                    assert(old(self)@[i] == old(self).symbols@[i]@);
                    assert(old(self).symbols@[i]@ != symbol@);
                }
            }
            assert forall|name: Seq<char>| #[trigger]
                self.symbols_to_indeces@.contains_key(name) implies {
                &&& self.symbols_to_indeces@[name] < self.symbols@.len()
                &&& self.symbols@[self.symbols_to_indeces@[name] as int]@ == name
            } by {
                if name != symbol@ {
                    assert(old(self).symbols_to_indeces@.contains_key(name));
                }
            }
        }
        index
    }

    /// The name that was interned as `index`.
    pub fn get(&self, index: usize) -> (name: &str)
        requires
            index < self@.len(),
        ensures
            name@ == self@[index as int],
    {
        self.symbols[index].as_str()
    }

    /// The id of `symbol`, if it has been interned.
    pub fn get_index(&self, symbol: &str) -> (found: Option<usize>)
        requires
            self.wf(),
        ensures
            found is Some <==> self@.contains(symbol@),
            found is Some ==> found->0 < self@.len() && self@[found->0 as int] == symbol@,
            found is Some ==> found->0 == symbol_id(self@, symbol@),
    {
        let found = self.symbols_to_indeces.get(symbol);
        proof {
            self.lemma_names_distinct();
        }
        match found {
            Some(index) => {
                proof {
                    assert(self@[*index as int] == symbol@);
                    assert(self@.contains(symbol@));
                    let chosen = self@.index_of(symbol@);
                    assert(0 <= chosen < self@.len() && self@[chosen] == symbol@);
                    assert(chosen == *index);
                }
                Some(*index)
            },
            None => {
                proof {
                    if self@.contains(symbol@) {
                        let i = choose|i: int| 0 <= i < self@.len() && self@[i] == symbol@;
                        assert(self.symbols_to_indeces@.contains_key(self.symbols@[i]@));
                    }
                }
                None
            },
        }
    }

    /// The id of `symbol`: the one it already has, or else the next free id,
    /// under which the name is then stored.
    pub fn intern(&mut self, symbol: &str) -> (index: usize)
        requires
            old(self).wf(),
        ensures
            final(self).wf(),
            final(self)@ == interned_names(old(self)@, symbol@),
            index == interned_id(old(self)@, symbol@),
            index < final(self)@.len(),
            final(self)@[index as int] == symbol@,
    {
        match self.get_index(symbol) {
            Some(prev_index) => prev_index,
            None => self.push(symbol),
        }
    }
}

} // verus!
