//! The collection of live outputs, keyed by monitor identity.

use crate::model::{Output, OutputView};
use vstd::prelude::*;

verus! {

/// Monitors with their outputs, as plain values, in the order in which the
/// monitors were first entered.
pub type Entries = Seq<(Seq<char>, OutputView)>;

/// The position of the first entry named `name`, or the number of entries
/// where there is none.
pub open spec fn find_name(entries: Entries, name: Seq<char>) -> int
    decreases entries.len(),
{
    if entries.len() == 0 || entries[0].0 == name {
        0
    } else {
        1 + find_name(entries.skip(1), name)
    }
}

/// Some entry is named `name`.
pub open spec fn has_name(entries: Entries, name: Seq<char>) -> bool {
    find_name(entries, name) < entries.len()
}

/// The output entered under `name`.
pub open spec fn lookup(entries: Entries, name: Seq<char>) -> Option<OutputView> {
    if has_name(entries, name) {
        Some(entries[find_name(entries, name)].1)
    } else {
        None
    }
}

/// No two entries have the same name.
pub open spec fn distinct_names(entries: Entries) -> bool {
    forall|i: int, j: int|
        0 <= i < j < entries.len() ==> (#[trigger] entries[i]).0 != (#[trigger] entries[j]).0
}

/// The entries after `output` is entered under `name`: where the name is
/// there already its output is replaced and its place kept, otherwise the
/// entry comes last.
pub open spec fn inserted(entries: Entries, name: Seq<char>, output: OutputView) -> Entries {
    if has_name(entries, name) {
        entries.update(find_name(entries, name), (name, output))
    } else {
        entries.push((name, output))
    }
}

/// The position found lies within the entries or just behind them; the
/// entry there, if any, has the name, and no entry before it has.
pub proof fn lemma_find_name(entries: Entries, name: Seq<char>)
    ensures
        0 <= find_name(entries, name) <= entries.len(),
        has_name(entries, name) ==> entries[find_name(entries, name)].0 == name,
        forall|k: int| 0 <= k < find_name(entries, name) ==> (#[trigger] entries[k]).0 != name,
    decreases entries.len(),
{
    if entries.len() == 0 || entries[0].0 == name {
    } else {
        lemma_find_name(entries.skip(1), name);
        assert forall|k: int| 0 <= k < find_name(entries, name) implies (#[trigger] entries[k]).0
            != name by {
            if k > 0 {
                assert(entries.skip(1)[k - 1] == entries[k]);
            }
        }
    }
}

/// Entering an output keeps the names distinct, and the entered name then
/// leads to that output.
pub proof fn lemma_inserted(entries: Entries, name: Seq<char>, output: OutputView)
    requires
        distinct_names(entries),
    ensures
        distinct_names(inserted(entries, name, output)),
        lookup(inserted(entries, name, output), name) == Some(output),
        forall|other: Seq<char>|
            other != name ==> lookup(inserted(entries, name, output), other) == lookup(
                entries,
                other,
            ),
{
    let after = inserted(entries, name, output);
    lemma_find_name(entries, name);
    lemma_find_name(after, name);
    let i = find_name(entries, name);
    assert forall|a: int, b: int| 0 <= a < b < after.len() implies (#[trigger] after[a]).0 != (
    #[trigger] after[b]).0 by {
        if has_name(entries, name) {
            assert(after[a].0 == entries[a].0);
            assert(after[b].0 == entries[b].0);
        } else {
            if b == entries.len() {
                assert(after[a] == entries[a]);
            } else {
                assert(after[a] == entries[a]);
                assert(after[b] == entries[b]);
            }
        }
    }
    assert(after[i].0 == name);
    if find_name(after, name) > i {
        assert(after[i].0 != name);
    }
    assert forall|other: Seq<char>| other != name implies lookup(after, other) == lookup(
        entries,
        other,
    ) by {
        lemma_find_name(entries, other);
        lemma_find_name(after, other);
        let p = find_name(entries, other);
        let q = find_name(after, other);
        if p < entries.len() {
            assert(after[p].0 == other);
            if q < p {
                assert(entries[q].0 == after[q].0);
            }
            if p < q {
                assert(after[p].0 != other);
            }
        } else {
            if q < after.len() {
                if q < entries.len() {
                    assert(entries[q].0 == after[q].0);
                }
            }
        }
    }
}

/// The live outputs, each under the identity of its monitor. An identity
/// occurs once; the outputs keep the order in which their identities were
/// first entered.
#[derive(Debug)]
pub struct ConnectedOutputs {
    entries: Vec<(String, Output)>,
}

impl View for ConnectedOutputs {
    type V = Entries;

    closed spec fn view(&self) -> Entries {
        Seq::new(self.entries@.len(), |i: int| (self.entries@[i].0@, self.entries@[i].1@))
    }
}

impl Clone for ConnectedOutputs {
    fn clone(&self) -> (r: Self)
        ensures
            r@ == self@,
    {
        proof {
            use_type_invariant(self);
        }
        let mut entries: Vec<(String, Output)> = Vec::new();
        let mut i: usize = 0;
        while i < self.entries.len()
            invariant
                i <= self.entries@.len(),
                entries@.len() == i,
                forall|k: int|
                    0 <= k < i ==> (#[trigger] entries@[k]).0@ == self.entries@[k].0@
                        && entries@[k].1@ == self.entries@[k].1@,
            decreases self.entries@.len() - i,
        {
            entries.push((self.entries[i].0.clone(), self.entries[i].1.clone()));
            i += 1;
        }
        assert(Seq::new(entries@.len(), |k: int| (entries@[k].0@, entries@[k].1@)) =~= self@);
        ConnectedOutputs { entries }
    }
}

impl ConnectedOutputs {
    #[verifier::type_invariant]
    spec fn well_formed(self) -> bool {
        distinct_names(self@)
    }

    /// A collection without outputs.
    pub fn new() -> (r: Self)
        ensures
            r@ == Entries::empty(),
    {
        let r = ConnectedOutputs { entries: Vec::new() };
        assert(r@ =~= Entries::empty());
        r
    }

    /// The number of outputs. No identity occurs twice among them.
    pub fn len(&self) -> (n: usize)
        ensures
            n == self@.len(),
            distinct_names(self@),
    {
        proof {
            use_type_invariant(self);
        }
        self.entries.len()
    }

    /// Whether there is no output.
    pub fn is_empty(&self) -> (r: bool)
        ensures
            r == (self@.len() == 0),
    {
        self.entries.len() == 0
    }

    /// The identity at position `i`.
    pub fn name_at(&self, i: usize) -> (r: &String)
        requires
            i < self@.len(),
        ensures
            r@ == self@[i as int].0,
    {
        &self.entries[i].0
    }

    /// The output at position `i`.
    pub fn output_at(&self, i: usize) -> (r: &Output)
        requires
            i < self@.len(),
        ensures
            r@ == self@[i as int].1,
    {
        &self.entries[i].1
    }

    /// The position of the output entered under `name`.
    pub fn position(&self, name: &str) -> (r: Option<usize>)
        ensures
            match r {
                Some(i) => has_name(self@, name@) && i == find_name(self@, name@),
                None => !has_name(self@, name@),
            },
    {
        let wanted = name.to_owned();
        let mut i: usize = 0;
        assert(self@.skip(0) =~= self@);
        while i < self.entries.len()
            invariant
                i <= self@.len(),
                self@.len() == self.entries@.len(),
                wanted@ == name@,
                find_name(self@, name@) == i + find_name(self@.skip(i as int), name@),
            decreases self.entries@.len() - i,
        {
            assert(self@.skip(i as int)[0] == self@[i as int]);
            if self.entries[i].0 == wanted {
                return Some(i);
            }
            assert(self@.skip(i as int).skip(1) =~= self@.skip(i + 1));
            i += 1;
        }
        None
    }

    /// Whether an output is entered under `name`.
    pub fn contains_key(&self, name: &str) -> (r: bool)
        ensures
            r == has_name(self@, name@),
    {
        self.position(name).is_some()
    }

    /// The output entered under `name`.
    pub fn get(&self, name: &str) -> (r: Option<&Output>)
        ensures
            match r {
                Some(output) => lookup(self@, name@) == Some(output@),
                None => lookup(self@, name@).is_none(),
            },
    {
        match self.position(name) {
            Some(i) => Some(&self.entries[i].1),
            None => None,
        }
    }

    /// Enters `output` under `name`. An output that was there under the
    /// same name leaves and is returned; the new one takes its place.
    pub fn insert(&mut self, name: String, output: Output) -> (r: Option<Output>)
        ensures
            final(self)@ == inserted(old(self)@, name@, output@),
            match r {
                Some(previous) => lookup(old(self)@, name@) == Some(previous@),
                None => lookup(old(self)@, name@).is_none(),
            },
    {
        proof {
            use_type_invariant(&*self);
            lemma_inserted(self@, name@, output@);
        }
        let ghost before = self@;
        let found = self.position(name.as_str());
        let mut entries: Vec<(String, Output)> = Vec::new();
        std::mem::swap(&mut entries, &mut self.entries);
        let ghost held = Seq::new(entries@.len(), |i: int| (entries@[i].0@, entries@[i].1@));
        assert(held =~= before);
        match found {
            Some(i) => {
                let previous = entries.remove(i);
                entries.insert(i, (name, output));
                assert(Seq::new(entries@.len(), |k: int| (entries@[k].0@, entries@[k].1@))
                    =~= inserted(before, name@, output@));
                self.entries = entries;
                Some(previous.1)
            },
            None => {
                entries.push((name, output));
                assert(Seq::new(entries@.len(), |k: int| (entries@[k].0@, entries@[k].1@))
                    =~= inserted(before, name@, output@));
                self.entries = entries;
                None
            },
        }
    }
}

} // verus!
