//! The symbol table: one flat scope from names to stack slots.

use vstd::prelude::*;

verus! {

/// The slots of the variables declared so far. A later declaration of a name
/// replaces an earlier one; nothing is ever removed.
pub struct SymbolTable {
    entries: Vec<(String, usize)>,
}

/// The table that a list of declarations gives, the last of them first.
pub closed spec fn bindings(entries: Seq<(String, usize)>) -> Map<Seq<char>, usize>
    decreases entries.len(),
{
    if entries.len() == 0 {
        Map::empty()
    } else {
        bindings(entries.drop_last()).insert(entries.last().0@, entries.last().1)
    }
}

impl View for SymbolTable {
    type V = Map<Seq<char>, usize>;

    closed spec fn view(&self) -> Map<Seq<char>, usize> {
        bindings(self.entries@)
    }
}

impl SymbolTable {
    /// A table without any name.
    pub fn new() -> (r: SymbolTable)
        ensures
            r@ == Map::<Seq<char>, usize>::empty(),
    {
        SymbolTable { entries: Vec::new() }
    }

    /// Binds `name` to `slot`.
    pub fn insert(&mut self, name: String, slot: usize)
        ensures
            final(self)@ == old(self)@.insert(name@, slot),
    {
        let ghost before = self.entries@;
        self.entries.push((name, slot));
        assert(self.entries@.drop_last() =~= before);
    }

    /// The slot that `name` is bound to.
    pub fn get(&self, name: &String) -> (r: Option<usize>)
        ensures
            r == (if self@.contains_key(name@) {
                Some(self@[name@])
            } else {
                None
            }),
    {
        let mut i: usize = self.entries.len();
        assert(self.entries@.take(i as int) =~= self.entries@);
        while i > 0
            invariant
                i <= self.entries.len(),
                self@.contains_key(name@) == bindings(self.entries@.take(i as int)).contains_key(
                    name@,
                ),
                self@.contains_key(name@) ==> self@[name@] == bindings(
                    self.entries@.take(i as int),
                )[name@],
            decreases i,
        {
            i -= 1;
            assert(self.entries@.take(i + 1).drop_last() =~= self.entries@.take(i as int));
            if self.entries[i].0 == *name {
                return Some(self.entries[i].1);
            }
        }
        None
    }
}

} // verus!
