use vstd::prelude::*;

use crate::text::str_eq;

verus! {

/// Target names paired with image references, as plain character sequences.
pub open spec fn pairs_view(v: Seq<(String, String)>) -> Seq<(Seq<char>, Seq<char>)> {
    v.map_values(|p: (String, String)| (p.0@, p.1@))
}

/// The mapping that a list of pairs describes, a later pair overriding an
/// earlier one with the same name.
pub open spec fn map_of(e: Seq<(Seq<char>, Seq<char>)>) -> Map<Seq<char>, Seq<char>>
    decreases e.len(),
{
    if e.len() == 0 {
        Map::empty()
    } else {
        map_of(e.drop_last()).insert(e.last().0, e.last().1)
    }
}

/// No name occurs twice.
pub open spec fn names_unique(e: Seq<(Seq<char>, Seq<char>)>) -> bool {
    forall|i: int, j: int| 0 <= i < e.len() && 0 <= j < e.len() && i != j ==> e[i].0 != e[j].0
}

proof fn lemma_map_of_absent(e: Seq<(Seq<char>, Seq<char>)>, k: Seq<char>)
    requires
        forall|i: int| 0 <= i < e.len() ==> e[i].0 != k,
    ensures
        !map_of(e).contains_key(k),
    decreases e.len(),
{
    if e.len() > 0 {
        lemma_map_of_absent(e.drop_last(), k);
    }
}

proof fn lemma_map_of_at(e: Seq<(Seq<char>, Seq<char>)>, i: int)
    requires
        names_unique(e),
        0 <= i < e.len(),
    ensures
        map_of(e).contains_key(e[i].0),
        map_of(e)[e[i].0] == e[i].1,
    decreases e.len(),
{
    if i < e.len() - 1 {
        let t = e.drop_last();
        assert(names_unique(t));
        lemma_map_of_at(t, i);
        assert(e.last().0 != e[i].0);
    }
}

proof fn lemma_map_of_update(e: Seq<(Seq<char>, Seq<char>)>, i: int, v: Seq<char>)
    requires
        names_unique(e),
        0 <= i < e.len(),
    ensures
        map_of(e.update(i, (e[i].0, v))) == map_of(e).insert(e[i].0, v),
    decreases e.len(),
{
    let u = e.update(i, (e[i].0, v));
    if i == e.len() - 1 {
        assert(u.drop_last() =~= e.drop_last());
        assert(map_of(u) =~= map_of(e).insert(e[i].0, v));
    } else {
        let t = e.drop_last();
        assert(names_unique(t));
        assert(u.drop_last() =~= t.update(i, (t[i].0, v)));
        lemma_map_of_update(t, i, v);
        assert(e.last().0 != e[i].0);
        assert(map_of(u) =~= map_of(e).insert(e[i].0, v));
    }
}

/// What each display target was last successfully updated with.
///
/// A target without an entry has never been updated; no image reference
/// counts as equal to that absence.
pub struct PushState {
    entries: Vec<(String, String)>,
}

impl View for PushState {
    type V = Map<Seq<char>, Seq<char>>;

    closed spec fn view(&self) -> Map<Seq<char>, Seq<char>> {
        map_of(pairs_view(self.entries@))
    }
}

impl PushState {
    /// Well-formed: each target name has at most one entry.
    pub closed spec fn wf(&self) -> bool {
        names_unique(pairs_view(self.entries@))
    }

    /// The state in which no target has a recorded image.
    pub fn new() -> (r: PushState)
        ensures
            r.wf(),
            r@ == Map::<Seq<char>, Seq<char>>::empty(),
    {
        let r = PushState { entries: Vec::new() };
        assert(pairs_view(r.entries@) =~= Seq::empty());
        r
    }

    /// Builds the state that a list of pairs describes, a later pair
    /// overriding an earlier one with the same name.
    pub fn from_entries(pairs: Vec<(String, String)>) -> (r: PushState)
        ensures
            r.wf(),
            r@ == map_of(pairs_view(pairs@)),
    {
        let mut r = PushState::new();
        let mut i: usize = 0;
        while i < pairs.len()
            invariant
                i <= pairs@.len(),
                r.wf(),
                r@ == map_of(pairs_view(pairs@).take(i as int)),
            decreases pairs@.len() - i,
        {
            let name = pairs[i].0.clone();
            let path = pairs[i].1.clone();
            proof {
                assert(pairs_view(pairs@).take(i + 1).drop_last() =~= pairs_view(pairs@).take(
                    i as int,
                ));
            }
            r.record(name, path);
            i += 1;
        }
        assert(pairs_view(pairs@).take(i as int) =~= pairs_view(pairs@));
        r
    }

    /// The pairs to persist; loading them back with `from_entries` gives
    /// this state again.
    pub fn entries(&self) -> (r: Vec<(String, String)>)
        requires
            self.wf(),
        ensures
            names_unique(pairs_view(r@)),
            map_of(pairs_view(r@)) == self@,
    {
        let mut r: Vec<(String, String)> = Vec::new();
        let mut i: usize = 0;
        while i < self.entries.len()
            invariant
                i <= self.entries@.len(),
                r@.len() == i,
                forall|j: int|
                    0 <= j < i ==> #[trigger] r@[j].0@ == self.entries@[j].0@ && r@[j].1@
                        == self.entries@[j].1@,
            decreases self.entries@.len() - i,
        {
            let name = self.entries[i].0.clone();
            let path = self.entries[i].1.clone();
            r.push((name, path));
            i += 1;
        }
        assert(pairs_view(r@) =~= pairs_view(self.entries@));
        r
    }

    fn position(&self, name: &str) -> (r: Option<usize>)
        ensures
            match r {
                Some(i) => i < self.entries@.len() && self.entries@[i as int].0@ == name@,
                None => forall|i: int|
                    0 <= i < self.entries@.len() ==> self.entries@[i].0@ != name@,
            },
    {
        let mut i: usize = 0;
        while i < self.entries.len()
            invariant
                i <= self.entries@.len(),
                forall|j: int| 0 <= j < i ==> self.entries@[j].0@ != name@,
            decreases self.entries@.len() - i,
        {
            if str_eq(self.entries[i].0.as_str(), name) {
                return Some(i);
            }
            i += 1;
        }
        None
    }

    /// The image last recorded for target `name`, if any.
    pub fn get(&self, name: &str) -> (r: Option<&String>)
        requires
            self.wf(),
        ensures
            match r {
                Some(v) => self@.contains_key(name@) && self@[name@] == v@,
                None => !self@.contains_key(name@),
            },
    {
        match self.position(name) {
            Some(i) => {
                proof {
                    lemma_map_of_at(pairs_view(self.entries@), i as int);
                }
                Some(&self.entries[i].1)
            },
            None => {
                proof {
                    lemma_map_of_absent(pairs_view(self.entries@), name@);
                }
                None
            },
        }
    }

    /// Records that target `name` now shows `path`.
    pub fn record(&mut self, name: String, path: String)
        requires
            old(self).wf(),
        ensures
            final(self).wf(),
            final(self)@ == old(self)@.insert(name@, path@),
    {
        let ghost e = pairs_view(self.entries@);
        match self.position(name.as_str()) {
            Some(i) => {
                proof {
                    lemma_map_of_update(e, i as int, path@);
                }
                self.entries.set(i, (name, path));
                let ghost u = e.update(i as int, (e[i as int].0, path@));
                assert(pairs_view(self.entries@) =~= u);
                assert forall|a: int, b: int|
                    0 <= a < u.len() && 0 <= b < u.len() && a != b implies u[a].0 != u[b].0 by {
                    assert(u[a].0 == e[a].0 && u[b].0 == e[b].0);
                }
            },
            None => {
                self.entries.push((name, path));
                let ghost u = pairs_view(self.entries@);
                assert(u.drop_last() =~= e);
                assert forall|a: int, b: int|
                    0 <= a < u.len() && 0 <= b < u.len() && a != b implies u[a].0 != u[b].0 by {
                    if a < e.len() && b < e.len() {
                        assert(u[a] == e[a] && u[b] == e[b]);
                    } else if a < e.len() {
                        assert(u[a] == e[a]);
                    } else {
                        assert(u[b] == e[b]);
                    }
                }
            },
        }
    }
}

/// Persisting the state and loading it again keeps what was recorded: once
/// `name` is recorded as showing `path`, the stored pairs describe `path` for
/// `name` and, for every other target, what was there before.
pub proof fn lemma_record_round_trip(
    before: Map<Seq<char>, Seq<char>>,
    name: Seq<char>,
    path: Seq<char>,
    stored: Seq<(Seq<char>, Seq<char>)>,
)
    requires
        map_of(stored) == before.insert(name, path),
    ensures
        map_of(stored).contains_key(name),
        map_of(stored)[name] == path,
        forall|k: Seq<char>|
            k != name ==> (#[trigger] map_of(stored).contains_key(k) == before.contains_key(k)
                && (before.contains_key(k) ==> map_of(stored)[k] == before[k])),
{
}

/// The file that holds the record inside the configuration directory `dir`.
pub fn state_path(dir: &str) -> (r: String)
    ensures
        r@ == dir@ + "/state.json"@,
{
    let mut r = String::from_str(dir);
    r.append("/state.json");
    r
}

} // verus!
