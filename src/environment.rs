use vstd::prelude::*;

use crate::lox_value::{LoxValue, ValueView};
use crate::token::Token;

verus! {

/// The error of reading a name that was never defined.
#[derive(Debug, Clone, Copy, PartialEq, Eq, Structural)]
pub enum EnvironmentError {
    UndefinedVariable,
}

/// The bindings of a list of definitions, a later one overriding an
/// earlier one of the same name.
pub open spec fn bindings(entries: Seq<(String, LoxValue)>) -> Map<Seq<char>, ValueView>
    decreases entries.len(),
{
    if entries.len() == 0 {
        Map::empty()
    } else {
        bindings(entries.drop_last()).insert(entries.last().0@, entries.last().1@)
    }
}

/// No name appears in two entries.
pub open spec fn names_unique(entries: Seq<(String, LoxValue)>) -> bool {
    forall|i: int, j: int|
        0 <= i < j < entries.len() ==> (#[trigger] entries[i]).0@ != (#[trigger] entries[j]).0@
}

/// Replacing the entry of a name replaces its binding.
proof fn lemma_bindings_update(entries: Seq<(String, LoxValue)>, i: int, e: (String, LoxValue))
    requires
        0 <= i < entries.len(),
        entries[i].0@ == e.0@,
        names_unique(entries),
    ensures
        bindings(entries.update(i, e)) == bindings(entries).insert(e.0@, e.1@),
    decreases entries.len(),
{
    let updated = entries.update(i, e);
    let n = entries.len() - 1;
    if i == n {
        assert(updated.drop_last() =~= entries.drop_last());
        assert(bindings(updated) =~= bindings(entries).insert(e.0@, e.1@));
    } else {
        assert(updated.drop_last() =~= entries.drop_last().update(i, e));
        assert(entries.drop_last()[i] == entries[i]);
        lemma_bindings_update(entries.drop_last(), i, e);
        assert(entries[i].0@ != entries[n].0@);
        assert(updated.last() == entries.last());
        assert(bindings(updated) =~= bindings(entries).insert(e.0@, e.1@));
    }
}

/// The variables of a run: a mapping from name to value, one entry per name.
pub struct Environment {
    entries: Vec<(String, LoxValue)>,
}

impl Environment {
    /// Well-formedness: one entry per name.
    pub closed spec fn wf(&self) -> bool {
        names_unique(self.entries@)
    }
}

impl View for Environment {
    type V = Map<Seq<char>, ValueView>;

    closed spec fn view(&self) -> Map<Seq<char>, ValueView> {
        bindings(self.entries@)
    }
}

impl Environment {
    pub fn new() -> (r: Self)
        ensures
            r.wf(),
            r@ == Map::<Seq<char>, ValueView>::empty(),
    {
        Environment { entries: Vec::new() }
    }

    /// Binds `name` to `value`, replacing any earlier binding of it.
    pub fn define(&mut self, name: String, value: LoxValue)
        requires
            old(self).wf(),
        ensures
            final(self).wf(),
            final(self)@ == old(self)@.insert(name@, value@),
    {
        let ghost before = self.entries@;
        let mut i: usize = 0;
        while i < self.entries.len()
            invariant
                before == self.entries@,
                before == old(self).entries@,
                names_unique(before),
                i <= before.len(),
                forall|j: int| 0 <= j < i ==> (#[trigger] before[j]).0@ != name@,
            decreases before.len() - i,
        {
            if self.entries[i].0 == name {
                let entry = (name, value);
                proof {
                    lemma_bindings_update(before, i as int, entry);
                    assert forall|x: int, y: int|
                        0 <= x < y < before.len() implies (#[trigger] before.update(
                            i as int,
                            entry,
                        )[x]).0@ != (#[trigger] before.update(i as int, entry)[y]).0@ by {}
                }
                self.entries.set(i, entry);
                return;
            }
            i += 1;
        }
        self.entries.push((name, value));
        proof {
            assert(self.entries@.drop_last() =~= before);
            assert forall|a: int, b: int|
                0 <= a < b < self.entries@.len() implies (#[trigger] self.entries@[a]).0@
                != (#[trigger] self.entries@[b]).0@ by {
                if b < before.len() {
                    assert(self.entries@[a] == before[a]);
                    assert(self.entries@[b] == before[b]);
                } else {
                    assert(self.entries@[a] == before[a]);
                }
            }
        }
    }

    /// The value bound to the token's name.
    pub fn get(&self, name: &Token) -> (r: Result<LoxValue, EnvironmentError>)
        ensures
            self@.contains_key(name.lexeme@) ==> r is Ok && r->Ok_0@ == self@[name.lexeme@],
            !self@.contains_key(name.lexeme@) ==> r == Err::<LoxValue, EnvironmentError>(
                EnvironmentError::UndefinedVariable,
            ),
    {
        let ghost all = self.entries@;
        let mut i = self.entries.len();
        assert(all.take(i as int) =~= all);
        while i > 0
            invariant
                i <= all.len(),
                all == self.entries@,
                bindings(all).contains_key(name.lexeme@) == bindings(
                    all.take(i as int),
                ).contains_key(name.lexeme@),
                bindings(all)[name.lexeme@] == bindings(all.take(i as int))[name.lexeme@],
            decreases i,
        {
            assert(all.take(i as int).drop_last() =~= all.take(i - 1));
            assert(all.take(i as int).last() == all[i - 1]);
            if self.entries[i - 1].0 == name.lexeme {
                assert(bindings(all.take(i as int)) == bindings(all.take(i - 1)).insert(
                    all[i - 1].0@,
                    all[i - 1].1@,
                ));
                assert(bindings(all.take(i as int)).contains_key(name.lexeme@));
                return Ok(self.entries[i - 1].1.duplicate());
            }
            i = i - 1;
        }
        assert(all.take(0) =~= Seq::<(String, LoxValue)>::empty());
        Err(EnvironmentError::UndefinedVariable)
    }
}

} // verus!
