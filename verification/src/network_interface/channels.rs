use vstd::prelude::*;

verus! {

/// The index of the first occurrence of `t` in `s`.
pub open spec fn first_index(s: Seq<usize>, t: usize) -> int {
    choose|i: int| 0 <= i < s.len() && s[i] == t && forall|j: int| 0 <= j < i ==> s[j] != t
}

/// `s` without any occurrence of `t`, the other tokens in their order.
pub open spec fn remove_all(s: Seq<usize>, t: usize) -> Seq<usize>
    decreases s.len(),
{
    if s.len() == 0 {
        s
    } else if s.last() == t {
        remove_all(s.drop_last(), t)
    } else {
        remove_all(s.drop_last(), t).push(s.last())
    }
}

/// No occurrence of `t` is left, and every other member stays.
pub proof fn lemma_remove_all_members(s: Seq<usize>, t: usize)
    ensures
        !remove_all(s, t).contains(t),
        forall|u: usize| u != t ==> (#[trigger] remove_all(s, t).contains(u) <==> s.contains(u)),
    decreases s.len(),
{
    if s.len() > 0 {
        let init = s.drop_last();
        lemma_remove_all_members(init, t);
        let r = remove_all(s, t);
        let ri = remove_all(init, t);
        if s.last() == t {
            assert(r == ri);
        } else {
            assert(r == ri.push(s.last()));
        }
        assert forall|u: usize| u != t implies (#[trigger] r.contains(u) <==> s.contains(u)) by {
            if s.contains(u) {
                let k = choose|k: int| 0 <= k < s.len() && s[k] == u;
                if k < init.len() {
                    assert(init[k] == u);
                    assert(init.contains(u));
                    assert(ri.contains(u));
                    let j = choose|j: int| 0 <= j < ri.len() && ri[j] == u;
                    assert(r[j] == u);
                } else {
                    assert(r[r.len() - 1] == u);
                }
            }
            if r.contains(u) {
                let k = choose|k: int| 0 <= k < r.len() && r[k] == u;
                if k < ri.len() {
                    assert(ri[k] == u);
                    assert(ri.contains(u));
                    assert(init.contains(u));
                    let j = choose|j: int| 0 <= j < init.len() && init[j] == u;
                    assert(s[j] == u);
                } else {
                    assert(s[s.len() - 1] == u);
                }
            }
        }
        if r.contains(t) {
            let k = choose|k: int| 0 <= k < r.len() && r[k] == t;
            if k < ri.len() {
                assert(ri[k] == t);
            }
        }
    }
}

/// `s` without the first occurrence of `t`; `s` itself when `t` does not occur.
pub open spec fn remove_first(s: Seq<usize>, t: usize) -> Seq<usize> {
    if s.contains(t) {
        s.remove(first_index(s, t))
    } else {
        s
    }
}

/// The channel list read as a map from names to members.
pub open spec fn entries_map(v: Seq<(String, Vec<usize>)>) -> Map<Seq<char>, Seq<usize>> {
    Map::new(
        |n: Seq<char>| exists|i: int| 0 <= i < v.len() && v[i].0@ == n,
        |n: Seq<char>| v[choose|i: int| 0 <= i < v.len() && v[i].0@ == n].1@,
    )
}

/// No two channels of the list have the same name.
pub open spec fn names_distinct(v: Seq<(String, Vec<usize>)>) -> bool {
    forall|i: int, j: int| 0 <= i < v.len() && 0 <= j < v.len() && i != j ==> v[i].0@ != v[j].0@
}


/// In a list with distinct names, the map reads every entry back.
pub proof fn lemma_entries_lookup(v: Seq<(String, Vec<usize>)>, i: int)
    requires
        names_distinct(v),
        0 <= i < v.len(),
    ensures
        entries_map(v).contains_key(v[i].0@),
        entries_map(v)[v[i].0@] == v[i].1@,
{
    let n = v[i].0@;
    assert(exists|k: int| 0 <= k < v.len() && v[k].0@ == n);
    let k = choose|k: int| 0 <= k < v.len() && v[k].0@ == n;
    assert(k == i);
}


/// Replacing the members of entry `i` replaces them in the map, and keeps the
/// names distinct.
pub proof fn lemma_entries_update(v: Seq<(String, Vec<usize>)>, i: int, e: (String, Vec<usize>))
    requires
        names_distinct(v),
        0 <= i < v.len(),
        e.0@ == v[i].0@,
    ensures
        names_distinct(v.update(i, e)),
        entries_map(v.update(i, e)) == entries_map(v).insert(v[i].0@, e.1@),
{
    let w = v.update(i, e);
    assert(names_distinct(w));
    assert forall|n: Seq<char>| #[trigger] entries_map(w).contains_key(n) <==> entries_map(
        v,
    ).insert(v[i].0@, e.1@).contains_key(n) by {
        if exists|k: int| 0 <= k < w.len() && w[k].0@ == n {
            let k = choose|k: int| 0 <= k < w.len() && w[k].0@ == n;
            assert(v[k].0@ == n);
        }
        if exists|k: int| 0 <= k < v.len() && v[k].0@ == n {
            let k = choose|k: int| 0 <= k < v.len() && v[k].0@ == n;
            assert(w[k].0@ == n);
        }
    }
    assert forall|n: Seq<char>| #[trigger] entries_map(w).contains_key(n) implies entries_map(w)[n]
        == entries_map(v).insert(v[i].0@, e.1@)[n] by {
        let k = choose|k: int| 0 <= k < w.len() && w[k].0@ == n;
        lemma_entries_lookup(w, k);
        if k != i {
            lemma_entries_lookup(v, k);
        }
    }
    assert(entries_map(w) =~= entries_map(v).insert(v[i].0@, e.1@));
}

/// Appending an entry with a new name adds it to the map, and keeps the names
/// distinct.
pub proof fn lemma_entries_push(v: Seq<(String, Vec<usize>)>, e: (String, Vec<usize>))
    requires
        names_distinct(v),
        !entries_map(v).contains_key(e.0@),
    ensures
        names_distinct(v.push(e)),
        entries_map(v.push(e)) == entries_map(v).insert(e.0@, e.1@),
{
    let w = v.push(e);
    assert forall|i: int, j: int| 0 <= i < w.len() && 0 <= j < w.len() && i != j implies w[i].0@
        != w[j].0@ by {
        if i == v.len() {
            assert(v[j].0@ == w[j].0@);
        } else if j == v.len() {
            assert(v[i].0@ == w[i].0@);
        }
    }
    assert forall|n: Seq<char>| #[trigger] entries_map(w).contains_key(n) <==> entries_map(
        v,
    ).insert(e.0@, e.1@).contains_key(n) by {
        if exists|k: int| 0 <= k < w.len() && w[k].0@ == n {
            let k = choose|k: int| 0 <= k < w.len() && w[k].0@ == n;
            if k < v.len() {
                assert(v[k].0@ == n);
            }
        }
        if exists|k: int| 0 <= k < v.len() && v[k].0@ == n {
            let k = choose|k: int| 0 <= k < v.len() && v[k].0@ == n;
            assert(w[k].0@ == n);
        }
        if n == e.0@ {
            assert(w[v.len() as int].0@ == n);
        }
    }
    assert forall|n: Seq<char>| #[trigger] entries_map(w).contains_key(n) implies entries_map(w)[n]
        == entries_map(v).insert(e.0@, e.1@)[n] by {
        let k = choose|k: int| 0 <= k < w.len() && w[k].0@ == n;
        lemma_entries_lookup(w, k);
        if k < v.len() {
            assert(v[k] == w[k]);
            lemma_entries_lookup(v, k);
        }
    }
    assert(entries_map(w) =~= entries_map(v).insert(e.0@, e.1@));
}

/// Taking every occurrence of `t` out of each entry does the same to every
/// channel of the map.
pub proof fn lemma_entries_remove_everywhere(
    v: Seq<(String, Vec<usize>)>,
    w: Seq<(String, Vec<usize>)>,
    t: usize,
)
    requires
        names_distinct(v),
        w.len() == v.len(),
        forall|k: int| 0 <= k < v.len() ==> #[trigger] w[k].0@ == v[k].0@,
        forall|k: int| 0 <= k < v.len() ==> #[trigger] w[k].1@ == remove_all(v[k].1@, t),
    ensures
        names_distinct(w),
        entries_map(w) == entries_map(v).map_values(|s: Seq<usize>| remove_all(s, t)),
{
    assert(names_distinct(w)) by {
        assert forall|i: int, j: int| 0 <= i < w.len() && 0 <= j < w.len() && i != j implies w[i].0@
            != w[j].0@ by {
            assert(w[i].0@ == v[i].0@);
            assert(w[j].0@ == v[j].0@);
        }
    }
    let f = |s: Seq<usize>| remove_all(s, t);
    assert forall|n: Seq<char>| #[trigger] entries_map(w).contains_key(n) <==> entries_map(
        v,
    ).contains_key(n) by {
        if exists|k: int| 0 <= k < w.len() && w[k].0@ == n {
            let k = choose|k: int| 0 <= k < w.len() && w[k].0@ == n;
            assert(v[k].0@ == n);
        }
        if exists|k: int| 0 <= k < v.len() && v[k].0@ == n {
            let k = choose|k: int| 0 <= k < v.len() && v[k].0@ == n;
            assert(w[k].0@ == n);
        }
    }
    assert forall|n: Seq<char>| #[trigger] entries_map(w).contains_key(n) implies entries_map(w)[n]
        == entries_map(v).map_values(f)[n] by {
        let k = choose|k: int| 0 <= k < w.len() && w[k].0@ == n;
        lemma_entries_lookup(w, k);
        assert(v[k].0@ == n);
        lemma_entries_lookup(v, k);
    }
    assert(entries_map(w) =~= entries_map(v).map_values(f));
}

/// The channels of the server: for each name, the tokens of its members in
/// the order they joined. A member may be listed more than once.
pub struct ChannelList {
    entries: Vec<(String, Vec<usize>)>,
}

/// What `remove_member` found.
pub enum RemoveOutcome {
    /// There is no channel of that name; nothing changed.
    NoSuchChannel,
    /// The token is not a member of the channel; nothing changed.
    NotMember,
    /// The first occurrence of the token has left the channel.
    Removed,
}

impl ChannelList {
    /// The channels by name.
    pub closed spec fn map(&self) -> Map<Seq<char>, Seq<usize>> {
        entries_map(self.entries@)
    }

    /// No two channels share a name.
    pub closed spec fn wf(&self) -> bool {
        names_distinct(self.entries@)
    }

    /// No channels.
    pub fn new() -> (c: ChannelList)
        ensures
            c.wf(),
            c.map() == Map::<Seq<char>, Seq<usize>>::empty(),
    {
        let c = ChannelList { entries: Vec::new() };
        assert(entries_map(c.entries@) =~= Map::<Seq<char>, Seq<usize>>::empty());
        c
    }

    /// The index of the channel called `name`.
    fn find(&self, name: &String) -> (r: Option<usize>)
        ensures
            match r {
                Some(i) => i < self.entries@.len() && self.entries@[i as int].0@ == name@,
                None => forall|i: int|
                    0 <= i < self.entries@.len() ==> self.entries@[i].0@ != name@,
            },
    {
        let mut i: usize = 0;
        while i < self.entries.len()
            invariant
                i <= self.entries@.len(),
                forall|k: int| 0 <= k < i ==> self.entries@[k].0@ != name@,
            decreases self.entries@.len() - i,
        {
            if self.entries[i].0 == *name {
                return Some(i);
            }
            i = i + 1;
        }
        None
    }



    /// The members of the channel called `name`, if there is one.
    pub fn members(&self, name: &String) -> (r: Option<&Vec<usize>>)
        requires
            self.wf(),
        ensures
            match r {
                Some(m) => self.map().contains_key(name@) && m@ == self.map()[name@],
                None => !self.map().contains_key(name@),
            },
    {
        match self.find(name) {
            Some(i) => {
                proof {
                    lemma_entries_lookup(self.entries@, i as int);
                }
                Some(&self.entries[i].1)
            },
            None => None,
        }
    }

    /// Appends `t` to the members of channel `name`, which is created with no
    /// members first when it does not exist.
    pub fn append_member(&mut self, name: String, t: usize)
        requires
            old(self).wf(),
        ensures
            final(self).wf(),
            final(self).map() == old(self).map().insert(
                name@,
                members_of(old(self).map(), name@).push(t),
            ),
    {
        match self.find(&name) {
            Some(i) => {
                let ghost before = self.entries@;
                proof {
                    lemma_entries_lookup(before, i as int);
                }
                let (n, mut members) = self.entries.remove(i);
                members.push(t);
                self.entries.insert(i, (n, members));
                proof {
                    assert(self.entries@ =~= before.update(i as int, (n, members)));
                    lemma_entries_update(before, i as int, (n, members));
                }
            },
            None => {
                let ghost before = self.entries@;
                let ghost key = name@;
                let mut members = Vec::new();
                members.push(t);
                assert(members@ =~= Seq::<usize>::empty().push(t));
                let entry = (name, members);
                proof {
                    // no entry has the name, so the map has no such key
                    if entries_map(before).contains_key(key) {
                        let k = choose|k: int| 0 <= k < before.len() && before[k].0@ == key;
                        assert(before[k].0@ != key);
                    }
                    lemma_entries_push(before, entry);
                }
                self.entries.push(entry);
            },
        }
    }

    /// Takes the first occurrence of `t` out of channel `name`.
    pub fn remove_member(&mut self, name: &String, t: usize) -> (r: RemoveOutcome)
        requires
            old(self).wf(),
        ensures
            final(self).wf(),
            match r {
                RemoveOutcome::NoSuchChannel => !old(self).map().contains_key(name@) && final(self).map()
                    == old(self).map(),
                RemoveOutcome::NotMember => old(self).map().contains_key(name@) && !old(self).map()[name@].contains(t)
                    && final(self).map() == old(self).map(),
                RemoveOutcome::Removed => old(self).map().contains_key(name@) && old(self).map()[name@].contains(t)
                    && final(self).map() == old(self).map().insert(
                    name@,
                    remove_first(old(self).map()[name@], t),
                ),
            },
    {
        match self.find(name) {
            Some(i) => {
                let ghost before = self.entries@;
                proof {
                    lemma_entries_lookup(before, i as int);
                }
                match position(&self.entries[i].1, t) {
                    Some(place) => {
                        let (n, mut members) = self.entries.remove(i);
                        let ghost old_members = members@;
                        members.remove(place);
                        proof {
                            assert(first_index(old_members, t) == place as int);
                        }
                        self.entries.insert(i, (n, members));
                        proof {
                            assert(self.entries@ =~= before.update(i as int, (n, members)));
                            lemma_entries_update(before, i as int, (n, members));
                        }
                        RemoveOutcome::Removed
                    },
                    None => RemoveOutcome::NotMember,
                }
            },
            None => RemoveOutcome::NoSuchChannel,
        }
    }

    /// Takes every occurrence of `t` out of every channel.
    pub fn remove_everywhere(&mut self, t: usize)
        requires
            old(self).wf(),
        ensures
            final(self).wf(),
            final(self).map() == old(self).map().map_values(|s: Seq<usize>| remove_all(s, t)),
    {
        let ghost before = self.entries@;
        let mut k: usize = 0;
        while k < self.entries.len()
            invariant
                names_distinct(before),
                self.entries@.len() == before.len(),
                k <= before.len(),
                forall|j: int| 0 <= j < before.len() ==> #[trigger] self.entries@[j].0@ == before[j].0@,
                forall|j: int| 0 <= j < k ==> #[trigger] self.entries@[j].1@ == remove_all(before[j].1@, t),
                forall|j: int| k <= j < before.len() ==> #[trigger] self.entries@[j].1@ == before[j].1@,
            decreases before.len() - k,
        {
            let ghost current = self.entries@;
            let entry = self.entries.remove(k);
            assert(entry == current[k as int]);
            let (n, members) = entry;
            let kept = without(&members, t);
            self.entries.insert(k, (n, kept));
            assert(self.entries@ =~= current.update(k as int, (n, kept)));
            assert(current[k as int].0@ == before[k as int].0@);
            assert forall|j: int| 0 <= j < before.len() implies #[trigger] self.entries@[j].0@
                == before[j].0@ by {
                if j != k {
                    assert(self.entries@[j] == current[j]);
                    assert(current[j].0@ == before[j].0@);
                }
            }
            k = k + 1;
        }
        proof {
            lemma_entries_remove_everywhere(before, self.entries@, t);
        }
    }
}

/// `members` without any occurrence of `t`.
fn without(members: &Vec<usize>, t: usize) -> (kept: Vec<usize>)
    ensures
        kept@ == remove_all(members@, t),
{
    let mut kept: Vec<usize> = Vec::new();
    let mut i: usize = 0;
    while i < members.len()
        invariant
            i <= members@.len(),
            kept@ == remove_all(members@.take(i as int), t),
        decreases members@.len() - i,
    {
        assert(members@.take(i + 1).drop_last() =~= members@.take(i as int));
        if members[i] != t {
            kept.push(members[i]);
        }
        i = i + 1;
    }
    assert(members@.take(i as int) =~= members@);
    kept
}

/// The members of channel `chan`, or no one if there is no such channel.
pub open spec fn members_of(channels: Map<Seq<char>, Seq<usize>>, chan: Seq<char>) -> Seq<usize> {
    if channels.contains_key(chan) {
        channels[chan]
    } else {
        Seq::empty()
    }
}

/// The index of the first occurrence of `t` in `members`.
fn position(members: &Vec<usize>, t: usize) -> (r: Option<usize>)
    ensures
        match r {
            Some(i) => i < members@.len() && members@[i as int] == t && forall|j: int|
                0 <= j < i ==> members@[j] != t,
            None => !members@.contains(t),
        },
{
    let mut i: usize = 0;
    while i < members.len()
        invariant
            i <= members@.len(),
            forall|k: int| 0 <= k < i ==> members@[k] != t,
        decreases members@.len() - i,
    {
        if members[i] == t {
            return Some(i);
        }
        i = i + 1;
    }
    None
}

} // verus!

verus! {

/// Leaving `t` out of a joined list is leaving it out of each part and
/// joining the results: the order of what stays is kept.
pub proof fn lemma_remove_all_concat(a: Seq<usize>, b: Seq<usize>, t: usize)
    ensures
        remove_all(a + b, t) == remove_all(a, t) + remove_all(b, t),
    decreases b.len(),
{
    if b.len() == 0 {
        assert(a + b =~= a);
        assert(remove_all(a, t) + remove_all(b, t) =~= remove_all(a, t));
    } else {
        let bi = b.drop_last();
        lemma_remove_all_concat(a, bi, t);
        assert((a + b).drop_last() =~= a + bi);
        assert((a + b).last() == b.last());
        if b.last() == t {
            assert(remove_all(a, t) + remove_all(b, t) =~= remove_all(a, t) + remove_all(bi, t));
        } else {
            assert(remove_all(a, t) + remove_all(b, t) =~= (remove_all(a, t) + remove_all(
                bi,
                t,
            )).push(b.last()));
        }
    }
}

/// A single member is kept exactly when it is not `t`.
pub proof fn lemma_remove_all_single(x: usize, t: usize)
    ensures
        remove_all(seq![x], t) == if x == t {
            Seq::<usize>::empty()
        } else {
            seq![x]
        },
{
    assert(seq![x].drop_last() =~= Seq::<usize>::empty());
    assert(remove_all(Seq::<usize>::empty(), t) == Seq::<usize>::empty());
    assert(seq![x].last() == x);
    assert(Seq::<usize>::empty().push(x) =~= seq![x]);
}

/// Leaving `t` out keeps exactly the members that are not `t`, in their
/// order: it is the list filtered by `!= t`.
pub proof fn lemma_remove_all_is_filter(s: Seq<usize>, t: usize)
    ensures
        remove_all(s, t) == s.filter(|x: usize| x != t),
    decreases s.len(),
{
    reveal_with_fuel(Seq::filter, 1);
    if s.len() > 0 {
        lemma_remove_all_is_filter(s.drop_last(), t);
    }
}

} // verus!
