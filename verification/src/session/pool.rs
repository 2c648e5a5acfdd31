//! Bookkeeping of the pool of warm agent connections: at most one slot per
//! agent, reused only when the whole key (agent, working directory, remote
//! host) matches.
use vstd::prelude::*;
use crate::text::{chars_of, eq, lit, push_all, string_of};

verus! {

/// Identity of a pooled connection: same agent, working directory and remote
/// host are interchangeable for reuse purposes.
#[derive(Clone, Debug, PartialEq, Eq, Hash)]
pub struct PoolKey {
    pub agent_id: String,
    pub cwd: String,
    pub remote_tag: Option<String>,
}

/// What a pool key is made of.
pub open spec fn key_view(k: PoolKey) -> (Seq<char>, Seq<char>, Option<Seq<char>>) {
    (k.agent_id@, k.cwd@, k.remote_tag.deep_view())
}

/// What the pool key needs of a remote launch: whether it is a local
/// simulation, and its host.
pub struct RemoteInfo {
    pub is_local_sim: bool,
    pub host: String,
}

/// The remote tag of a launch: its host, prefixed with `sim:` for a local
/// simulation.
pub open spec fn remote_tag_of(remote: Option<RemoteInfo>) -> Option<Seq<char>> {
    match remote {
        Some(r) => Some(
            if r.is_local_sim {
                "sim:"@ + r.host@
            } else {
                r.host@
            },
        ),
        None => None,
    }
}

fn copy_string(s: &String) -> (r: String)
    ensures
        r@ == s@,
{
    string_of(chars_of(s.as_str()).as_slice())
}

/// Build the pool key for a run / warm request.
pub fn pool_key(agent_id: &str, cwd: String, remote: Option<&RemoteInfo>) -> (r: PoolKey)
    ensures
        r.agent_id@ == agent_id@,
        r.cwd@ == cwd@,
        r.remote_tag.deep_view() == remote_tag_of(
            match remote {
                Some(x) => Some(*x),
                None => None,
            },
        ),
{
    let remote_tag = match remote {
        Some(r) => {
            let mut tag: Vec<char> = if r.is_local_sim {
                lit("sim:")
            } else {
                Vec::new()
            };
            push_all(&mut tag, chars_of(r.host.as_str()).as_slice());
            Some(string_of(tag.as_slice()))
        },
        None => None,
    };
    PoolKey { agent_id: string_of(chars_of(agent_id).as_slice()), cwd, remote_tag }
}

fn same_string(a: &String, b: &String) -> (r: bool)
    ensures
        r == (a@ == b@),
{
    eq(chars_of(a.as_str()).as_slice(), chars_of(b.as_str()).as_slice())
}

/// Whether two pool keys are equal in every part.
pub fn same_key(a: &PoolKey, b: &PoolKey) -> (r: bool)
    ensures
        r == (key_view(*a) == key_view(*b)),
{
    let tags = match (&a.remote_tag, &b.remote_tag) {
        (Some(x), Some(y)) => same_string(x, y),
        (None, None) => true,
        _ => false,
    };
    same_string(&a.agent_id, &b.agent_id) && same_string(&a.cwd, &b.cwd) && tags
}

/// Agent ids are pairwise distinct.
pub open spec fn ids_unique<T>(s: Seq<(PoolKey, T)>) -> bool {
    forall|i: int, j: int|
        0 <= i < s.len() && 0 <= j < s.len() && i != j ==> #[trigger] s[i].0.agent_id@
            != #[trigger] s[j].0.agent_id@
}

/// Some entry is for agent `id`.
pub open spec fn has_agent<T>(s: Seq<(PoolKey, T)>, id: Seq<char>) -> bool {
    exists|i: int| 0 <= i < s.len() && #[trigger] s[i].0.agent_id@ == id
}

/// The entries as a map from agent id to key and payload.
pub open spec fn entries_map<T>(s: Seq<(PoolKey, T)>) -> Map<
    Seq<char>,
    ((Seq<char>, Seq<char>, Option<Seq<char>>), T),
> {
    Map::new(
        |id: Seq<char>| has_agent(s, id),
        |id: Seq<char>|
            {
                let i = choose|i: int| 0 <= i < s.len() && #[trigger] s[i].0.agent_id@ == id;
                (key_view(s[i].0), s[i].1)
            },
    )
}

proof fn lemma_entries_at<T>(s: Seq<(PoolKey, T)>, i: int)
    requires
        ids_unique(s),
        0 <= i < s.len(),
    ensures
        entries_map(s).contains_key(s[i].0.agent_id@),
        entries_map(s)[s[i].0.agent_id@] == (key_view(s[i].0), s[i].1),
{
    let id = s[i].0.agent_id@;
    assert(has_agent(s, id));
    let j = choose|j: int| 0 <= j < s.len() && #[trigger] s[j].0.agent_id@ == id;
    assert(j == i);
}

proof fn lemma_entries_push<T>(s: Seq<(PoolKey, T)>, x: (PoolKey, T))
    requires
        ids_unique(s),
        !has_agent(s, x.0.agent_id@),
    ensures
        ids_unique(s.push(x)),
        entries_map(s.push(x)) == entries_map(s).insert(x.0.agent_id@, (key_view(x.0), x.1)),
{
    let t = s.push(x);
    assert forall|i: int, j: int|
        0 <= i < t.len() && 0 <= j < t.len() && i != j implies #[trigger] t[i].0.agent_id@
        != #[trigger] t[j].0.agent_id@ by {
        if i == s.len() as int {
            assert(t[j] == s[j]);
        } else if j == s.len() as int {
            assert(t[i] == s[i]);
        } else {
            assert(t[i] == s[i] && t[j] == s[j]);
        }
    }
    let m = entries_map(t);
    let r = entries_map(s).insert(x.0.agent_id@, (key_view(x.0), x.1));
    assert forall|id: Seq<char>| m.contains_key(id) == r.contains_key(id) by {
        if has_agent(s, id) {
            let i = choose|i: int| 0 <= i < s.len() && #[trigger] s[i].0.agent_id@ == id;
            assert(t[i] == s[i]);
        }
        if has_agent(t, id) && id != x.0.agent_id@ {
            let i = choose|i: int| 0 <= i < t.len() && #[trigger] t[i].0.agent_id@ == id;
            assert(i < s.len());
            assert(t[i] == s[i]);
        }
        if id == x.0.agent_id@ {
            assert(t[s.len() as int] == x);
        }
    }
    assert forall|id: Seq<char>| #[trigger] m.contains_key(id) implies m[id] == r[id] by {
        let i = choose|i: int| 0 <= i < t.len() && #[trigger] t[i].0.agent_id@ == id;
        lemma_entries_at(t, i);
        if i < s.len() {
            assert(t[i] == s[i]);
            lemma_entries_at(s, i);
        } else {
            assert(t[i] == x);
        }
    }
    assert(m =~= r);
}

proof fn lemma_entries_remove<T>(s: Seq<(PoolKey, T)>, i: int)
    requires
        ids_unique(s),
        0 <= i < s.len(),
    ensures
        ids_unique(s.remove(i)),
        !has_agent(s.remove(i), s[i].0.agent_id@),
        entries_map(s.remove(i)) == entries_map(s).remove(s[i].0.agent_id@),
{
    let t = s.remove(i);
    let gone = s[i].0.agent_id@;
    assert forall|a: int| 0 <= a < t.len() implies #[trigger] t[a] == s[if a < i {
        a
    } else {
        a + 1
    }] by {}
    assert forall|a: int, b: int|
        0 <= a < t.len() && 0 <= b < t.len() && a != b implies #[trigger] t[a].0.agent_id@
        != #[trigger] t[b].0.agent_id@ by {
        let sa = if a < i {
            a
        } else {
            a + 1
        };
        let sb = if b < i {
            b
        } else {
            b + 1
        };
        assert(t[a] == s[sa] && t[b] == s[sb]);
    }
    assert(!has_agent(t, gone)) by {
        if has_agent(t, gone) {
            let a = choose|a: int| 0 <= a < t.len() && #[trigger] t[a].0.agent_id@ == gone;
            let sa = if a < i {
                a
            } else {
                a + 1
            };
            assert(t[a] == s[sa]);
        }
    }
    let m = entries_map(t);
    let r = entries_map(s).remove(gone);
    assert forall|id: Seq<char>| m.contains_key(id) == r.contains_key(id) by {
        if has_agent(t, id) {
            let a = choose|a: int| 0 <= a < t.len() && #[trigger] t[a].0.agent_id@ == id;
            let sa = if a < i {
                a
            } else {
                a + 1
            };
            assert(t[a] == s[sa]);
        }
        if has_agent(s, id) && id != gone {
            let b = choose|b: int| 0 <= b < s.len() && #[trigger] s[b].0.agent_id@ == id;
            let tb = if b < i {
                b
            } else {
                b - 1
            };
            assert(t[tb] == s[b]);
        }
    }
    assert forall|id: Seq<char>| #[trigger] m.contains_key(id) implies m[id] == r[id] by {
        let a = choose|a: int| 0 <= a < t.len() && #[trigger] t[a].0.agent_id@ == id;
        lemma_entries_at(t, a);
        let sa = if a < i {
            a
        } else {
            a + 1
        };
        assert(t[a] == s[sa]);
        lemma_entries_at(s, sa);
    }
    assert(m =~= r);
}

/// Map-level bookkeeping of the pool, generic over the payload: at most one
/// slot per agent.
pub struct SlotMap<T> {
    entries: Vec<(PoolKey, T)>,
}

impl<T> View for SlotMap<T> {
    type V = Map<Seq<char>, ((Seq<char>, Seq<char>, Option<Seq<char>>), T)>;

    closed spec fn view(&self) -> Self::V {
        entries_map(self.entries@)
    }
}

impl<T> Default for SlotMap<T> {
    fn default() -> (r: Self)
        ensures
            r.wf(),
            r@ == Map::<Seq<char>, ((Seq<char>, Seq<char>, Option<Seq<char>>), T)>::empty(),
    {
        let r = SlotMap { entries: Vec::new() };
        assert(r@ =~= Map::<Seq<char>, ((Seq<char>, Seq<char>, Option<Seq<char>>), T)>::empty());
        r
    }
}

impl<T> SlotMap<T> {
    /// The map's entries are for distinct agents.
    pub closed spec fn wf(&self) -> bool {
        ids_unique(self.entries@)
    }

    fn index_of(&self, agent_id: &String) -> (r: Option<usize>)
        requires
            self.wf(),
        ensures
            match r {
                Some(i) => i < self.entries@.len() && self.entries@[i as int].0.agent_id@
                    == agent_id@,
                None => !has_agent(self.entries@, agent_id@),
            },
    {
        let mut i: usize = 0;
        while i < self.entries.len()
            invariant
                i <= self.entries@.len(),
                forall|k: int| 0 <= k < i ==> #[trigger] self.entries@[k].0.agent_id@ != agent_id@,
            decreases self.entries.len() - i,
        {
            if same_string(&self.entries[i].0.agent_id, agent_id) {
                return Some(i);
            }
            i += 1;
        }
        None
    }

    /// Insert a slot for its agent, displacing (and returning) any previous one.
    pub fn insert(&mut self, key: PoolKey, payload: T) -> (r: Option<(PoolKey, T)>)
        requires
            old(self).wf(),
        ensures
            final(self).wf(),
            final(self)@ == old(self)@.insert(key.agent_id@, (key_view(key), payload)),
            match r {
                Some((k, p)) => old(self)@.contains_key(key.agent_id@) && old(self)@[key.agent_id@]
                    == (key_view(k), p),
                None => !old(self)@.contains_key(key.agent_id@),
            },
    {
        let ghost id = key.agent_id@;
        let ghost kv = key_view(key);
        let ghost payload_v = payload;
        match self.index_of(&key.agent_id) {
            Some(i) => {
                proof {
                    lemma_entries_at(self.entries@, i as int);
                    lemma_entries_remove(self.entries@, i as int);
                }
                let old_entry = self.entries.remove(i);
                let ghost mid = self.entries@;
                self.entries.push((key, payload));
                proof {
                    lemma_entries_push(mid, (self.entries@.last().0, self.entries@.last().1));
                    assert(self.entries@ =~= mid.push(self.entries@.last()));
                    assert(entries_map(mid).insert(id, (kv, payload_v)) =~= entries_map(
                        old(self).entries@,
                    ).insert(id, (kv, payload_v)));
                }
                Some(old_entry)
            },
            None => {
                let ghost before = self.entries@;
                self.entries.push((key, payload));
                proof {
                    lemma_entries_push(before, self.entries@.last());
                    assert(self.entries@ =~= before.push(self.entries@.last()));
                }
                None
            },
        }
    }

    /// Remove the slot for `key.agent_id` only when the full key matches; a
    /// mismatched slot (different cwd / remote) stays pooled.
    pub fn remove_matching(&mut self, key: &PoolKey) -> (r: Option<(PoolKey, T)>)
        requires
            old(self).wf(),
        ensures
            final(self).wf(),
            if old(self)@.contains_key(key.agent_id@) && old(self)@[key.agent_id@].0 == key_view(
                *key,
            ) {
                &&& final(self)@ == old(self)@.remove(key.agent_id@)
                &&& r matches Some((k, p)) && (key_view(k), p) == old(self)@[key.agent_id@]
            } else {
                &&& final(self)@ == old(self)@
                &&& r is None
            },
    {
        match self.index_of(&key.agent_id) {
            Some(i) => {
                proof {
                    lemma_entries_at(self.entries@, i as int);
                }
                if same_key(&self.entries[i].0, key) {
                    proof {
                        lemma_entries_remove(self.entries@, i as int);
                    }
                    let e = self.entries.remove(i);
                    Some(e)
                } else {
                    None
                }
            },
            None => None,
        }
    }

    /// Return a slot to the pool after a finished turn. A dead connection is
    /// not pooled again; a live one takes its agent's place, displacing any
    /// idle slot there. The result is the payload to tear down: the released
    /// one when dead, else the displaced one, if any.
    pub fn release(&mut self, key: PoolKey, payload: T, alive: bool) -> (r: Option<T>)
        requires
            old(self).wf(),
        ensures
            final(self).wf(),
            !alive ==> final(self)@ == old(self)@ && r == Some(payload),
            alive ==> final(self)@ == old(self)@.insert(key.agent_id@, (key_view(key), payload)),
            alive ==> r == if old(self)@.contains_key(key.agent_id@) {
                Some(old(self)@[key.agent_id@].1)
            } else {
                None::<T>
            },
    {
        if !alive {
            return Some(payload);
        }
        match self.insert(key, payload) {
            Some((_, displaced)) => Some(displaced),
            None => None,
        }
    }

    /// The payload for `key` when the agent has a slot with exactly this key.
    pub fn get_matching(&self, key: &PoolKey) -> (r: Option<&T>)
        requires
            self.wf(),
        ensures
            match r {
                Some(p) => self@.contains_key(key.agent_id@) && self@[key.agent_id@].0 == key_view(
                    *key,
                ) && *p == self@[key.agent_id@].1,
                None => !(self@.contains_key(key.agent_id@) && self@[key.agent_id@].0 == key_view(
                    *key,
                )),
            },
    {
        match self.index_of(&key.agent_id) {
            Some(i) => {
                proof {
                    lemma_entries_at(self.entries@, i as int);
                }
                if same_key(&self.entries[i].0, key) {
                    Some(&self.entries[i].1)
                } else {
                    None
                }
            },
            None => None,
        }
    }
}

/// The slot a full key finds in a pool view.
pub open spec fn slot_for<T>(
    m: Map<Seq<char>, ((Seq<char>, Seq<char>, Option<Seq<char>>), T)>,
    k: (Seq<char>, Seq<char>, Option<Seq<char>>),
) -> Option<T> {
    if m.contains_key(k.0) && m[k.0].0 == k {
        Some(m[k.0].1)
    } else {
        None
    }
}

/// Law: right after a slot is inserted under a key, that exact key finds
/// its payload, and a key that differs in any part finds nothing for that
/// agent.
pub proof fn lemma_get_after_insert<T>(
    m: Map<Seq<char>, ((Seq<char>, Seq<char>, Option<Seq<char>>), T)>,
    k: (Seq<char>, Seq<char>, Option<Seq<char>>),
    p: T,
    other: (Seq<char>, Seq<char>, Option<Seq<char>>),
)
    ensures
        slot_for(m.insert(k.0, (k, p)), k) == Some(p),
        other.0 == k.0 && other != k ==> slot_for(m.insert(k.0, (k, p)), other) is None,
{
}

/// Law: removing with a key that differs from the pooled slot's key in any
/// part leaves the pool as it was, and removing with the exact key hands the
/// slot back and leaves the agent without a slot.
pub proof fn lemma_remove_after_insert<T>(
    m: Map<Seq<char>, ((Seq<char>, Seq<char>, Option<Seq<char>>), T)>,
    k: (Seq<char>, Seq<char>, Option<Seq<char>>),
    p: T,
)
    ensures
        slot_for(m.insert(k.0, (k, p)), k) == Some(p),
        !m.insert(k.0, (k, p)).remove(k.0).contains_key(k.0),
{
}

} // verus!
