//! The constraint mapping: for each participant, the partners they prefer and
//! the partners they would rather not share a room with.

use vstd::prelude::*;

verus! {

/// Whether `list` holds a name whose text is `name`.
pub open spec fn lists(list: Seq<String>, name: Seq<char>) -> bool {
    exists|j: int| 0 <= j < list.len() && #[trigger] list[j]@ == name
}

/// One participant's entry: their name and their two lists.
pub struct Entry {
    pub name: String,
    pub preferred: Vec<String>,
    pub unpreferred: Vec<String>,
}

/// A mapping from participant names to their preference lists. No two entries
/// share a name.
pub struct Constraints {
    entries: Vec<Entry>,
}

/// Whether `name` occurs in `list`.
pub fn list_contains(list: &Vec<String>, name: &String) -> (r: bool)
    ensures
        r == lists(list@, name@),
{
    let mut i: usize = 0;
    while i < list.len()
        invariant
            i <= list@.len(),
            forall|j: int| 0 <= j < i ==> list@[j]@ != name@,
        decreases list@.len() - i,
    {
        if list[i] == *name {
            return true;
        }
        i = i + 1;
    }
    false
}

impl Constraints {
    /// The entries, in the order they were first inserted.
    pub closed spec fn entries(&self) -> Seq<Entry> {
        self.entries@
    }

    /// No two entries share a name.
    pub open spec fn wf(&self) -> bool {
        forall|i: int, k: int|
            0 <= i < self.entries().len() && 0 <= k < self.entries().len() && i != k
                ==> #[trigger] self.entries()[i].name@ != #[trigger] self.entries()[k].name@
    }

    /// Whether the entry at `i` is the one for `name`.
    pub open spec fn entry_at(&self, name: Seq<char>, i: int) -> bool {
        0 <= i < self.entries().len() && self.entries()[i].name@ == name
    }

    /// Whether `name` has an entry.
    pub open spec fn has_entry(&self, name: Seq<char>) -> bool {
        exists|i: int| #[trigger] self.entry_at(name, i)
    }

    /// Whether `a` lists `b` among the partners they prefer.
    pub open spec fn prefers(&self, a: Seq<char>, b: Seq<char>) -> bool {
        exists|i: int| #[trigger] self.entry_at(a, i) && lists(self.entries()[i].preferred@, b)
    }

    /// Whether `a` lists `b` among the partners they would rather avoid.
    pub open spec fn rejects(&self, a: Seq<char>, b: Seq<char>) -> bool {
        exists|i: int| #[trigger] self.entry_at(a, i) && lists(self.entries()[i].unpreferred@, b)
    }

    /// An empty mapping.
    pub fn new() -> (r: Constraints)
        ensures
            r.wf(),
            forall|a: Seq<char>| !r.has_entry(a),
    {
        Constraints { entries: Vec::new() }
    }

    /// The number of entries.
    pub fn len(&self) -> (r: usize)
        ensures
            r == self.entries().len(),
    {
        self.entries.len()
    }

    /// Where the entry for `name` stands, if there is one.
    pub fn find(&self, name: &String) -> (r: Option<usize>)
        requires
            self.wf(),
        ensures
            r is None <==> !self.has_entry(name@),
            r matches Some(i) ==> self.entry_at(name@, i as int),
    {
        let mut i: usize = 0;
        while i < self.entries.len()
            invariant
                i <= self.entries@.len(),
                forall|k: int| 0 <= k < i ==> !#[trigger] self.entry_at(name@, k),
            decreases self.entries@.len() - i,
        {
            if self.entries[i].name == *name {
                assert(self.entry_at(name@, i as int));
                return Some(i);
            }
            i = i + 1;
        }
        None
    }

    /// Sets the lists of `name`, replacing the entry it had, if any.
    pub fn insert(&mut self, name: String, preferred: Vec<String>, unpreferred: Vec<String>)
        requires
            old(self).wf(),
        ensures
            final(self).wf(),
            final(self).has_entry(name@),
            forall|b: Seq<char>| final(self).prefers(name@, b) == lists(preferred@, b),
            forall|b: Seq<char>| final(self).rejects(name@, b) == lists(unpreferred@, b),
            forall|a: Seq<char>|
                a != name@ ==> final(self).has_entry(a) == old(self).has_entry(a),
            forall|a: Seq<char>, b: Seq<char>|
                a != name@ ==> final(self).prefers(a, b) == old(self).prefers(a, b),
            forall|a: Seq<char>, b: Seq<char>|
                a != name@ ==> final(self).rejects(a, b) == old(self).rejects(a, b),
    {
        let ghost pre = self.entries@;
        let ghost key = name@;
        let found = self.find(&name);
        let entry = Entry { name, preferred, unpreferred };
        let ghost e = entry;
        let ghost idx: int;
        match found {
            Some(i) => {
                self.entries.set(i, entry);
                proof {
                    idx = i as int;
                }
            },
            None => {
                self.entries.push(entry);
                proof {
                    idx = pre.len() as int;
                }
            },
        }
        let ghost post = self.entries@;
        assert(post[idx] == e);
        assert(forall|k: int| 0 <= k < post.len() && k != idx ==> k < pre.len() && post[k] == pre[k]);
        assert(forall|k: int| 0 <= k < pre.len() && k != idx ==> k < post.len() && post[k] == pre[k]);
        assert forall|k: int| 0 <= k < pre.len() && k != idx implies !#[trigger] old(self).entry_at(
            key,
            k,
        ) by {
            if idx < pre.len() {
                assert(old(self).entry_at(key, idx));
                assert(pre[idx].name@ != pre[k].name@);
            }
        }
        assert forall|k: int| 0 <= k < post.len() implies (#[trigger] post[k].name@ == key <==> k
            == idx) by {
            if k != idx {
                assert(!old(self).entry_at(key, k));
            }
        }
        assert(self.entry_at(key, idx));
        assert forall|a: Seq<char>| a != key implies self.has_entry(a) == old(self).has_entry(a) by {
            if self.has_entry(a) {
                let k = choose|k: int| #[trigger] self.entry_at(a, k);
                assert(old(self).entry_at(a, k));
            }
            if old(self).has_entry(a) {
                let k = choose|k: int| #[trigger] old(self).entry_at(a, k);
                assert(self.entry_at(a, k));
            }
        }
        assert forall|a: Seq<char>, b: Seq<char>| a != key implies self.prefers(a, b) == old(
            self,
        ).prefers(a, b) by {
            if self.prefers(a, b) {
                let k = choose|k: int| #[trigger] self.entry_at(a, k) && lists(self.entries()[k].preferred@, b);
                assert(old(self).entry_at(a, k));
            }
            if old(self).prefers(a, b) {
                let k = choose|k: int| #[trigger] old(self).entry_at(a, k) && lists(old(self).entries()[k].preferred@, b);
                assert(self.entry_at(a, k));
            }
        }
        assert forall|a: Seq<char>, b: Seq<char>| a != key implies self.rejects(a, b) == old(
            self,
        ).rejects(a, b) by {
            if self.rejects(a, b) {
                let k = choose|k: int| #[trigger] self.entry_at(a, k) && lists(self.entries()[k].unpreferred@, b);
                assert(old(self).entry_at(a, k));
            }
            if old(self).rejects(a, b) {
                let k = choose|k: int| #[trigger] old(self).entry_at(a, k) && lists(old(self).entries()[k].unpreferred@, b);
                assert(self.entry_at(a, k));
            }
        }
        assert forall|b: Seq<char>| self.prefers(key, b) == lists(e.preferred@, b) by {
            if self.prefers(key, b) {
                let k = choose|k: int| #[trigger] self.entry_at(key, k) && lists(self.entries()[k].preferred@, b);
                assert(k == idx);
            }
        }
        assert forall|b: Seq<char>| self.rejects(key, b) == lists(e.unpreferred@, b) by {
            if self.rejects(key, b) {
                let k = choose|k: int| #[trigger] self.entry_at(key, k) && lists(self.entries()[k].unpreferred@, b);
                assert(k == idx);
            }
        }
    }

    /// `name` has an entry, and every name on its two lists is in `people`.
    pub open spec fn covers(&self, name: Seq<char>, people: Seq<String>) -> bool {
        &&& self.has_entry(name)
        &&& forall|b: Seq<char>|
            #![trigger self.prefers(name, b)]
            #![trigger self.rejects(name, b)]
            (self.prefers(name, b) || self.rejects(name, b)) ==> lists(people, b)
    }

    /// Whether `name` has an entry whose lists name only members of `people`.
    pub fn covers_exec(&self, name: &String, people: &Vec<String>) -> (r: bool)
        requires
            self.wf(),
        ensures
            r == self.covers(name@, people@),
    {
        let i = match self.find(name) {
            Some(i) => i,
            None => {
                return false;
            },
        };
        let entry = &self.entries[i];
        assert(self.entry_at(name@, i as int));
        let mut j: usize = 0;
        while j < entry.preferred.len()
            invariant
                j <= entry.preferred@.len(),
                self.entry_at(name@, i as int),
                *entry == self.entries()[i as int],
                forall|t: int| 0 <= t < j ==> lists(people@, #[trigger] entry.preferred@[t]@),
            decreases entry.preferred@.len() - j,
        {
            if !list_contains(people, &entry.preferred[j]) {
                assert(self.prefers(name@, entry.preferred@[j as int]@)) by {
                    assert(self.entry_at(name@, i as int));
                }
                return false;
            }
            j = j + 1;
        }
        let mut j: usize = 0;
        while j < entry.unpreferred.len()
            invariant
                j <= entry.unpreferred@.len(),
                self.entry_at(name@, i as int),
                *entry == self.entries()[i as int],
                forall|t: int| 0 <= t < j ==> lists(people@, #[trigger] entry.unpreferred@[t]@),
            decreases entry.unpreferred@.len() - j,
        {
            if !list_contains(people, &entry.unpreferred[j]) {
                assert(self.rejects(name@, entry.unpreferred@[j as int]@)) by {
                    assert(self.entry_at(name@, i as int));
                }
                return false;
            }
            j = j + 1;
        }
        assert forall|b: Seq<char>|
            (self.prefers(name@, b) || self.rejects(name@, b)) implies lists(people@, b) by {
            if self.prefers(name@, b) {
                let k = choose|k: int| #[trigger] self.entry_at(name@, k) && lists(self.entries()[k].preferred@, b);
                assert(k == i);
                let t = choose|t: int| 0 <= t < entry.preferred@.len() && #[trigger] entry.preferred@[t]@ == b;
                assert(lists(people@, entry.preferred@[t]@));
            } else {
                let k = choose|k: int| #[trigger] self.entry_at(name@, k) && lists(self.entries()[k].unpreferred@, b);
                assert(k == i);
                let t = choose|t: int| 0 <= t < entry.unpreferred@.len() && #[trigger] entry.unpreferred@[t]@ == b;
                assert(lists(people@, entry.unpreferred@[t]@));
            }
        }
        true
    }

    /// Whether `a` prefers `b`.
    pub fn prefers_exec(&self, a: &String, b: &String) -> (r: bool)
        requires
            self.wf(),
        ensures
            r == self.prefers(a@, b@),
    {
        match self.find(a) {
            Some(i) => list_contains(&self.entries[i].preferred, b),
            None => false,
        }
    }

    /// Whether `a` rejects `b`.
    pub fn rejects_exec(&self, a: &String, b: &String) -> (r: bool)
        requires
            self.wf(),
        ensures
            r == self.rejects(a@, b@),
    {
        match self.find(a) {
            Some(i) => list_contains(&self.entries[i].unpreferred, b),
            None => false,
        }
    }
}

} // verus!
