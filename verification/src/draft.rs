//! The config being edited: its settings, in the order they were added with each key once, its
//! label and the file it was loaded from.
use vstd::prelude::*;
use crate::yaml::{YamlValue, YamlView};
use crate::text::owned;
use crate::yaml::text_equal;

verus! {

/// The index of the setting named `k`, if any.
pub open spec fn entry_index(s: Seq<(Seq<char>, YamlView)>, k: Seq<char>) -> Option<int> {
    if exists|i: int| 0 <= i < s.len() && s[i].0 == k {
        Some(choose|i: int| 0 <= i < s.len() && s[i].0 == k)
    } else {
        None
    }
}

/// Whether every key occurs once.
pub open spec fn keys_unique(s: Seq<(Seq<char>, YamlView)>) -> bool {
    forall|i: int, j: int| 0 <= i < j < s.len() ==> (#[trigger] s[i]).0 != (#[trigger] s[j]).0
}

/// The value of the setting named `k`, if any.
pub open spec fn entry_get(s: Seq<(Seq<char>, YamlView)>, k: Seq<char>) -> Option<YamlView> {
    match entry_index(s, k) {
        Some(i) => Some(s[i].1),
        None => None,
    }
}

/// The settings after setting `k` to `v`: an existing setting keeps its place, a new one goes
/// last.
pub open spec fn entry_insert(s: Seq<(Seq<char>, YamlView)>, k: Seq<char>, v: YamlView) -> Seq<
    (Seq<char>, YamlView),
> {
    match entry_index(s, k) {
        Some(i) => s.update(i, (k, v)),
        None => s.push((k, v)),
    }
}

/// The settings after removing `k`, the others keeping their order.
pub open spec fn entry_remove(s: Seq<(Seq<char>, YamlView)>, k: Seq<char>) -> Seq<
    (Seq<char>, YamlView),
> {
    match entry_index(s, k) {
        Some(i) => s.remove(i),
        None => s,
    }
}

/// The view of each entry.
pub open spec fn entries_view(e: Seq<(String, YamlValue)>) -> Seq<(Seq<char>, YamlView)> {
    e.map_values(|p: (String, YamlValue)| (p.0@, p.1@))
}

/// In a list whose keys are unique, the entry found under a key is the one at its index.
pub proof fn lemma_entry_index(s: Seq<(Seq<char>, YamlView)>, k: Seq<char>, i: int)
    requires
        keys_unique(s),
        0 <= i < s.len(),
        s[i].0 == k,
    ensures
        entry_index(s, k) == Some(i),
{
    let j = choose|j: int| 0 <= j < s.len() && s[j].0 == k;
    assert(0 <= j < s.len() && s[j].0 == k);
    if j < i {
        assert(s[j].0 != s[i].0);
    }
    if i < j {
        assert(s[i].0 != s[j].0);
    }
}

/// The settings of a config: each key once, in the order they were first set.
pub struct DraftValues {
    entries: Vec<(String, YamlValue)>,
}

impl DraftValues {
    #[verifier::type_invariant]
    spec fn well_formed(self) -> bool {
        keys_unique(entries_view(self.entries@))
    }

    /// The settings, in order.
    pub closed spec fn view_entries(&self) -> Seq<(Seq<char>, YamlView)> {
        entries_view(self.entries@)
    }

    /// No settings.
    pub fn new() -> (r: DraftValues)
        ensures
            r.view_entries() == Seq::<(Seq<char>, YamlView)>::empty(),
    {
        let r = DraftValues { entries: Vec::new() };
        assert(entries_view(r.entries@) =~= Seq::<(Seq<char>, YamlView)>::empty());
        r
    }

    /// The settings, in order.
    pub fn entries(&self) -> (r: &Vec<(String, YamlValue)>)
        ensures
            entries_view(r@) == self.view_entries(),
            keys_unique(self.view_entries()),
    {
        proof {
            use_type_invariant(self);
        }
        &self.entries
    }

    /// How many settings there are.
    pub fn len(&self) -> (r: usize)
        ensures
            r == self.view_entries().len(),
    {
        self.entries.len()
    }

    /// Whether there are no settings.
    pub fn is_empty(&self) -> (r: bool)
        ensures
            r == (self.view_entries().len() == 0),
    {
        self.entries.len() == 0
    }

    /// The keys, in order.
    pub fn keys(&self) -> (r: Vec<String>)
        ensures
            r@.len() == self.view_entries().len(),
            forall|i: int| 0 <= i < r@.len() ==> (#[trigger] r@[i])@ == self.view_entries()[i].0,
    {
        let mut r: Vec<String> = Vec::new();
        let mut i: usize = 0;
        while i < self.entries.len()
            invariant
                i <= self.entries@.len(),
                r@.len() == i,
                forall|t: int| 0 <= t < i ==> (#[trigger] r@[t])@ == self.entries@[t].0@,
            decreases self.entries@.len() - i,
        {
            r.push(self.entries[i].0.clone());
            i = i + 1;
        }
        r
    }

    fn find(&self, key: &str) -> (r: Option<usize>)
        ensures
            match r {
                Some(i) => i < self.view_entries().len() && entry_index(self.view_entries(), key@)
                    == Some(i as int),
                None => entry_index(self.view_entries(), key@) is None,
            },
    {
        proof {
            use_type_invariant(self);
        }
        let k = owned(key);
        let ghost ev = entries_view(self.entries@);
        let mut i: usize = 0;
        while i < self.entries.len()
            invariant
                i <= self.entries@.len(),
                k@ == key@,
                ev == entries_view(self.entries@),
                keys_unique(ev),
                forall|j: int| 0 <= j < i ==> (#[trigger] self.entries@[j]).0@ != key@,
            decreases self.entries@.len() - i,
        {
            if text_equal(&self.entries[i].0, &k) {
                proof {
                    assert(ev[i as int].0 == key@);
                    lemma_entry_index(ev, key@, i as int);
                }
                return Some(i);
            }
            i = i + 1;
        }
        proof {
            if exists|j: int| 0 <= j < ev.len() && ev[j].0 == key@ {
                let j = choose|j: int| 0 <= j < ev.len() && ev[j].0 == key@;
                assert(self.entries@[j].0@ == key@);
            }
        }
        None
    }

    /// The value of the setting named `key`, if any.
    pub fn get(&self, key: &str) -> (r: Option<&YamlValue>)
        ensures
            match r {
                Some(v) => entry_get(self.view_entries(), key@) == Some(v@),
                None => entry_get(self.view_entries(), key@) is None,
            },
    {
        match self.find(key) {
            Some(i) => Some(&self.entries[i].1),
            None => None,
        }
    }

    /// Whether a setting named `key` is present.
    pub fn contains_key(&self, key: &str) -> (r: bool)
        ensures
            r == (entry_index(self.view_entries(), key@) is Some),
    {
        self.find(key).is_some()
    }

    /// Sets `key` to `value`: an existing setting keeps its place, a new one goes last.
    pub fn insert(&mut self, key: String, value: YamlValue)
        ensures
            final(self).view_entries() == entry_insert(old(self).view_entries(), key@, value@),
            keys_unique(old(self).view_entries()),
            keys_unique(final(self).view_entries()),
    {
        proof {
            use_type_invariant(&*self);
        }
        let ghost ev = entries_view(self.entries@);
        let ghost kv = key@;
        let ghost vv = value@;
        let found = self.find(key.as_str());
        let mut entries: Vec<(String, YamlValue)> = Vec::new();
        std::mem::swap(&mut entries, &mut self.entries);
        match found {
            Some(i) => {
                entries.set(i, (key, value));
                proof {
                    assert(entries_view(entries@) =~= ev.update(i as int, (kv, vv)));
                    let nv = entries_view(entries@);
                    assert forall|a: int, b: int| 0 <= a < b < nv.len() implies (#[trigger] nv[a]).0
                        != (#[trigger] nv[b]).0 by {
                        if a == i {
                            assert(ev[i as int].0 == kv);
                            assert(ev[a].0 != ev[b].0);
                        } else if b == i {
                            assert(ev[i as int].0 == kv);
                            assert(ev[a].0 != ev[b].0);
                        } else {
                            assert(ev[a].0 != ev[b].0);
                        }
                    }
                }
            },
            None => {
                entries.push((key, value));
                proof {
                    assert(entries_view(entries@) =~= ev.push((kv, vv)));
                    let nv = entries_view(entries@);
                    assert forall|a: int, b: int| 0 <= a < b < nv.len() implies (#[trigger] nv[a]).0
                        != (#[trigger] nv[b]).0 by {
                        if b == ev.len() {
                            assert(nv[a] == ev[a]);
                            if ev[a].0 == kv {
                                assert(exists|j: int| 0 <= j < ev.len() && ev[j].0 == kv);
                            }
                        } else {
                            assert(ev[a].0 != ev[b].0);
                        }
                    }
                }
            },
        }
        self.entries = entries;
    }

    /// Removes the setting named `key`, the others keeping their order.
    pub fn shift_remove(&mut self, key: &str)
        ensures
            final(self).view_entries() == entry_remove(old(self).view_entries(), key@),
    {
        proof {
            use_type_invariant(&*self);
        }
        let ghost ev = entries_view(self.entries@);
        match self.find(key) {
            Some(i) => {
                let mut entries: Vec<(String, YamlValue)> = Vec::new();
                std::mem::swap(&mut entries, &mut self.entries);
                let _gone = entries.remove(i);
                proof {
                    assert(entries_view(entries@) =~= ev.remove(i as int));
                    let nv = entries_view(entries@);
                    assert forall|a: int, b: int| 0 <= a < b < nv.len() implies (#[trigger] nv[a]).0
                        != (#[trigger] nv[b]).0 by {
                        let a2 = if a < i { a } else { a + 1 };
                        let b2 = if b < i { b } else { b + 1 };
                        assert(nv[a] == ev[a2] && nv[b] == ev[b2]);
                    }
                }
                self.entries = entries;
            },
            None => {},
        }
    }

    /// Removes every setting.
    pub fn clear(&mut self)
        ensures
            final(self).view_entries() == Seq::<(Seq<char>, YamlView)>::empty(),
    {
        self.entries = Vec::new();
        assert(entries_view(self.entries@) =~= Seq::<(Seq<char>, YamlView)>::empty());
    }
}

/// A config being edited.
pub struct ConfigDraft {
    pub values: DraftValues,
    /// The name the user gave the config.
    pub label: String,
    /// The file the config was loaded from or last saved to.
    pub path: Option<String>,
}

} // verus!
