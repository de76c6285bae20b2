//! The command and the options of a command line, each with its parameters.

use vstd::prelude::*;

use crate::text::{join_slices, joined, str_views, views};

verus! {

/// A command or option with its parameters.
pub type Entry = (Seq<char>, Seq<Seq<char>>);

/// Where `entries` holds the key `key`, if it does.
pub open spec fn holds_at(entries: Seq<Entry>, key: Seq<char>, i: int) -> bool {
    0 <= i < entries.len() && entries[i].0 == key
}

/// Whether `entries` holds the key `key`.
pub open spec fn holds(entries: Seq<Entry>, key: Seq<char>) -> bool {
    exists|i: int| holds_at(entries, key, i)
}

/// Whether no key occurs twice in `entries`.
pub open spec fn are_distinct(entries: Seq<Entry>) -> bool {
    forall|i: int, j: int|
        #![trigger entries[i], entries[j]]
        0 <= i < entries.len() && 0 <= j < entries.len() && entries[i].0 == entries[j].0 ==> i == j
}

/// The map from the keys of `entries` to their parameters.
pub open spec fn map_of(entries: Seq<Entry>) -> Map<Seq<char>, Seq<Seq<char>>> {
    Map::new(
        |key: Seq<char>| holds(entries, key),
        |key: Seq<char>| entries[choose|i: int| holds_at(entries, key, i)].1,
    )
}

pub(crate) proof fn lemma_map_of(entries: Seq<Entry>, key: Seq<char>, i: int)
    requires
        are_distinct(entries),
        holds_at(entries, key, i),
    ensures
        map_of(entries).dom().contains(key),
        map_of(entries)[key] == entries[i].1,
{
    let j = choose|j: int| holds_at(entries, key, j);
    assert(entries[i].0 == entries[j].0);
}

pub(crate) proof fn lemma_map_push(entries: Seq<Entry>, entry: Entry)
    requires
        are_distinct(entries),
        !holds(entries, entry.0),
    ensures
        are_distinct(entries.push(entry)),
        map_of(entries.push(entry)) == map_of(entries).insert(entry.0, entry.1),
{
    let new = entries.push(entry);
    assert forall|i: int| 0 <= i < entries.len() implies (#[trigger] entries[i]).0 != entry.0 by {
        assert(!holds_at(entries, entry.0, i));
    }
    assert(are_distinct(new));
    assert forall|key: Seq<char>| #[trigger] holds(new, key) == (holds(entries, key) || key
        == entry.0) by {
        if key == entry.0 {
            assert(holds_at(new, key, entries.len() as int));
        }
        if holds(entries, key) {
            let i = choose|i: int| holds_at(entries, key, i);
            assert(holds_at(new, key, i));
        }
        if holds(new, key) && key != entry.0 {
            let i = choose|i: int| holds_at(new, key, i);
            assert(holds_at(entries, key, i));
        }
    }
    assert forall|key: Seq<char>| holds(new, key) implies #[trigger] map_of(new)[key] == map_of(
        entries,
    ).insert(entry.0, entry.1)[key] by {
        if key == entry.0 {
            lemma_map_of(new, key, entries.len() as int);
        } else {
            let i = choose|i: int| holds_at(entries, key, i);
            lemma_map_of(entries, key, i);
            lemma_map_of(new, key, i);
        }
    }
    assert(map_of(new) =~= map_of(entries).insert(entry.0, entry.1));
}

pub(crate) proof fn lemma_map_update(entries: Seq<Entry>, i: int, params: Seq<Seq<char>>)
    requires
        are_distinct(entries),
        0 <= i < entries.len(),
    ensures
        are_distinct(entries.update(i, (entries[i].0, params))),
        map_of(entries.update(i, (entries[i].0, params))) == map_of(entries).insert(
            entries[i].0,
            params,
        ),
{
    let new = entries.update(i, (entries[i].0, params));
    assert forall|j: int| 0 <= j < new.len() implies (#[trigger] new[j]).0 == entries[j].0 by {}
    assert(are_distinct(new)) by {
        assert forall|j: int, k: int|
            #![trigger new[j], new[k]]
            0 <= j < new.len() && 0 <= k < new.len() && new[j].0 == new[k].0 implies j == k by {
            assert(entries[j].0 == entries[k].0);
        }
    }
    assert(holds_at(entries, entries[i].0, i));
    assert forall|key: Seq<char>| #[trigger] holds(new, key) == holds(entries, key) by {
        if holds(entries, key) {
            let j = choose|j: int| holds_at(entries, key, j);
            assert(holds_at(new, key, j));
        }
        if holds(new, key) {
            let j = choose|j: int| holds_at(new, key, j);
            assert(holds_at(entries, key, j));
        }
    }
    assert forall|key: Seq<char>| holds(new, key) implies #[trigger] map_of(new)[key] == map_of(
        entries,
    ).insert(entries[i].0, params)[key] by {
        let j = choose|j: int| holds_at(new, key, j);
        lemma_map_of(new, key, j);
        lemma_map_of(entries, key, j);
        if key == entries[i].0 {
            assert(entries[j].0 == entries[i].0);
        }
    }
    assert(map_of(new) =~= map_of(entries).insert(entries[i].0, params));
}

proof fn lemma_map_remove(entries: Seq<Entry>, i: int)
    requires
        are_distinct(entries),
        0 <= i < entries.len(),
    ensures
        are_distinct(entries.remove(i)),
        map_of(entries.remove(i)) == map_of(entries).remove(entries[i].0),
{
    let new = entries.remove(i);
    let gone = entries[i].0;
    assert forall|j: int| 0 <= j < new.len() implies #[trigger] new[j] == entries[if j < i {
        j
    } else {
        j + 1
    }] by {}
    assert(are_distinct(new)) by {
        assert forall|j: int, k: int|
            #![trigger new[j], new[k]]
            0 <= j < new.len() && 0 <= k < new.len() && new[j].0 == new[k].0 implies j == k by {
            let jj = if j < i {
                j
            } else {
                j + 1
            };
            let kk = if k < i {
                k
            } else {
                k + 1
            };
            assert(entries[jj].0 == entries[kk].0);
        }
    }
    assert forall|key: Seq<char>| #[trigger] holds(new, key) == (holds(entries, key) && key
        != gone) by {
        if holds(new, key) {
            let j = choose|j: int| holds_at(new, key, j);
            let jj = if j < i {
                j
            } else {
                j + 1
            };
            assert(holds_at(entries, key, jj));
            if key == gone {
                assert(entries[jj].0 == entries[i].0);
            }
        }
        if holds(entries, key) && key != gone {
            let j = choose|j: int| holds_at(entries, key, j);
            assert(holds_at(new, key, if j < i {
                j
            } else {
                j - 1
            }));
        }
    }
    assert forall|key: Seq<char>| holds(new, key) implies #[trigger] map_of(new)[key] == map_of(
        entries,
    ).remove(gone)[key] by {
        let j = choose|j: int| holds_at(new, key, j);
        lemma_map_of(new, key, j);
        lemma_map_of(entries, key, if j < i {
            j
        } else {
            j + 1
        });
    }
    assert(map_of(new) =~= map_of(entries).remove(gone));
}

/// The command and the options that are still to be read, each with its parameters.
///
/// Each key occurs once. The module that reads an option takes the option's entry
/// out; what no module took is left over.
pub struct ParsePayload<'a> {
    entries: Vec<(String, Vec<&'a str>)>,
}

/// The keys and parameters of a list of entries.
pub open spec fn entry_views(entries: Seq<(String, Vec<&str>)>) -> Seq<Entry> {
    entries.map_values(|entry: (String, Vec<&str>)| (entry.0@, str_views(entry.1@)))
}

impl<'a> View for ParsePayload<'a> {
    type V = Map<Seq<char>, Seq<Seq<char>>>;

    open spec fn view(&self) -> Map<Seq<char>, Seq<Seq<char>>> {
        map_of(self.entries())
    }
}

/// The line that reports one entry: the option, a blank and its parameters.
pub open spec fn entry_line(entry: Entry) -> Seq<char> {
    entry.0 + " "@ + joined(entry.1, " "@)
}

impl<'a> ParsePayload<'a> {
    /// The entries in the order in which they are kept.
    pub closed spec fn entries(&self) -> Seq<Entry> {
        entry_views(self.entries@)
    }

    #[verifier::type_invariant]
    closed spec fn has_distinct_keys(&self) -> bool {
        are_distinct(entry_views(self.entries@))
    }

    /// A payload without entries.
    pub fn new() -> (payload: Self)
        ensures
            payload@ == Map::<Seq<char>, Seq<Seq<char>>>::empty(),
            payload.entries() == Seq::<Entry>::empty(),
    {
        let payload = ParsePayload { entries: Vec::new() };
        assert(payload.entries() =~= Seq::<Entry>::empty());
        assert forall|key: Seq<char>| !holds(payload.entries(), key) by {}
        assert(payload@ =~= Map::empty());
        payload
    }

    fn position(&self, key: &str) -> (found: Option<usize>)
        ensures
            match found {
                Some(i) => holds_at(self.entries(), key@, i as int),
                None => !holds(self.entries(), key@),
            },
    {
        let wanted = key.to_owned();
        let mut i: usize = 0;
        while i < self.entries.len()
            invariant
                wanted@ == key@,
                i <= self.entries@.len(),
                forall|j: int| 0 <= j < i ==> !#[trigger] holds_at(self.entries(), key@, j),
            decreases self.entries@.len() - i,
        {
            assert(self.entries()[i as int].0 == self.entries@[i as int].0@);
            if self.entries[i].0 == wanted {
                return Some(i);
            }
            i = i + 1;
        }
        assert forall|j: int| !#[trigger] holds_at(self.entries(), key@, j) by {}
        None
    }

    /// Whether the command or option `key` has an entry.
    pub fn contains_key(&self, key: &str) -> (contained: bool)
        ensures
            contained == self@.dom().contains(key@),
    {
        match self.position(key) {
            Some(_) => true,
            None => false,
        }
    }

    /// Whether nothing is left.
    pub fn is_empty(&self) -> (empty: bool)
        ensures
            empty == (self@ == Map::<Seq<char>, Seq<Seq<char>>>::empty()),
            empty == (self.entries().len() == 0),
    {
        let empty = self.entries.len() == 0;
        proof {
            if empty {
                assert forall|key: Seq<char>| !holds(self.entries(), key) by {}
                assert(self@ =~= Map::empty());
            } else {
                assert(holds_at(self.entries(), self.entries()[0].0, 0));
                assert(self@.dom().contains(self.entries()[0].0));
            }
        }
        empty
    }

    /// Gives `key` the parameters `params`, in place of those it had.
    pub fn insert(&mut self, key: String, params: Vec<&'a str>)
        ensures
            final(self)@ == old(self)@.insert(key@, str_views(params@)),
    {
        proof {
            use_type_invariant(&*self);
        }
        let ghost before = self.entries();
        let found = self.position(key.as_str());
        let mut entries: Vec<(String, Vec<&'a str>)> = Vec::new();
        std::mem::swap(&mut entries, &mut self.entries);
        match found {
            Some(i) => {
                entries.set(i, (key, params));
                proof {
                    lemma_map_update(before, i as int, str_views(params@));
                    assert(entry_views(entries@) =~= before.update(
                        i as int,
                        (key@, str_views(params@)),
                    ));
                }
            },
            None => {
                entries.push((key, params));
                proof {
                    lemma_map_push(before, (key@, str_views(params@)));
                    assert(entry_views(entries@) =~= before.push((key@, str_views(params@))));
                }
            },
        }
        self.entries = entries;
    }

    /// Adds `param` to the parameters of `key`.
    pub fn push_param(&mut self, key: &str, param: &'a str)
        requires
            old(self)@.dom().contains(key@),
        ensures
            final(self)@ == old(self)@.insert(key@, old(self)@[key@].push(param@)),
    {
        proof {
            use_type_invariant(&*self);
        }
        let ghost before = self.entries();
        let found = self.position(key);
        let mut entries: Vec<(String, Vec<&'a str>)> = Vec::new();
        std::mem::swap(&mut entries, &mut self.entries);
        if let Some(i) = found {
            let (name, mut params) = entries.remove(i);
            let ghost had = str_views(params@);
            params.push(param);
            entries.insert(i, (name, params));
            proof {
                assert(str_views(params@) =~= had.push(param@));
                assert(before[i as int] == (name@, had));
                lemma_map_of(before, key@, i as int);
                lemma_map_update(before, i as int, had.push(param@));
                assert(entry_views(entries@) =~= before.update(
                    i as int,
                    (name@, had.push(param@)),
                ));
            }
        }
        self.entries = entries;
    }

    /// Takes out the entry of `key`, and returns its parameters.
    pub fn remove(&mut self, key: &str) -> (params: Option<Vec<&'a str>>)
        ensures
            final(self)@ == old(self)@.remove(key@),
            match params {
                Some(list) => old(self)@.dom().contains(key@) && str_views(list@) == old(
                    self,
                )@[key@],
                None => !old(self)@.dom().contains(key@),
            },
    {
        proof {
            use_type_invariant(&*self);
        }
        let ghost before = self.entries();
        let found = self.position(key);
        let mut entries: Vec<(String, Vec<&'a str>)> = Vec::new();
        std::mem::swap(&mut entries, &mut self.entries);
        let mut taken: Option<Vec<&'a str>> = None;
        match found {
            Some(i) => {
                let (name, params) = entries.remove(i);
                proof {
                    assert(before[i as int] == (name@, str_views(params@)));
                    lemma_map_of(before, key@, i as int);
                    lemma_map_remove(before, i as int);
                    assert(entry_views(entries@) =~= before.remove(i as int));
                }
                taken = Some(params);
            },
            None => {
                assert(map_of(before) =~= map_of(before).remove(key@));
            },
        }
        self.entries = entries;
        taken
    }

    /// One line for each entry that is left.
    pub fn lines(&self) -> (lines: Vec<String>)
        ensures
            are_distinct(self.entries()),
            views(lines@) == self.entries().map_values(|entry: Entry| entry_line(entry)),
    {
        proof {
            use_type_invariant(self);
        }
        let mut lines: Vec<String> = Vec::new();
        let mut i: usize = 0;
        while i < self.entries.len()
            invariant
                i <= self.entries@.len(),
                lines@.len() == i,
                forall|j: int|
                    0 <= j < i ==> (#[trigger] lines@[j])@ == entry_line(self.entries()[j]),
            decreases self.entries@.len() - i,
        {
            let mut line = self.entries[i].0.clone();
            line.append(" ");
            let params = join_slices(&self.entries[i].1, " ");
            line.append(params.as_str());
            lines.push(line);
            i = i + 1;
        }
        assert(views(lines@) =~= self.entries().map_values(|entry: Entry| entry_line(entry)));
        lines
    }
}

} // verus!
