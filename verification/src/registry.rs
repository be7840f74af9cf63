//! The peer registry: the shared table mapping each known peer address to its
//! role, and the operations the discovery protocol performs on it.
//!
//! The registry is an association list with unique keys, viewed as a
//! `Map<PeerAddr, PeerStatus>`. Ordinary discovery merging is additive
//! (`merge`: insert-if-absent per key), a rescan is authoritative (`replace`:
//! the new entries stand, everything else is evicted), and a snapshot augments
//! a copy with the machine's own resolved address and current role when that
//! address is not already known.
use vstd::prelude::*;
use vstd::pervasive::VecAdditionalExecFns;
use crate::addr::PeerAddr;

verus! {

/// The role a peer plays: a `Player` relays audio out, a `Speaker` accepts
/// and plays it back. Newly discovered peers default to `Player`.
#[derive(Clone, Copy, PartialEq, Eq, Structural, Debug, Hash)]
pub enum PeerStatus {
    Player,
    Speaker,
}

/// The role the local machine advertises for itself, from its role flag.
pub open spec fn own_role(local_is_speaker: bool) -> PeerStatus {
    if local_is_speaker {
        PeerStatus::Speaker
    } else {
        PeerStatus::Player
    }
}

/// No two entries share an address.
pub open spec fn unique_keys(s: Seq<(PeerAddr, PeerStatus)>) -> bool {
    forall|i: int, j: int| 0 <= i < j < s.len() ==> (#[trigger] s[i]).0 != (#[trigger] s[j]).0
}

/// The mapping an association list denotes; later entries win, which is
/// irrelevant under `unique_keys`.
pub open spec fn map_of(s: Seq<(PeerAddr, PeerStatus)>) -> Map<PeerAddr, PeerStatus>
    decreases s.len(),
{
    if s.len() == 0 {
        Map::empty()
    } else {
        map_of(s.drop_last()).insert(s.last().0, s.last().1)
    }
}

/// A key is in the denoted map exactly when some entry carries it.
pub proof fn lemma_map_of_contains(s: Seq<(PeerAddr, PeerStatus)>, k: PeerAddr)
    ensures
        map_of(s).contains_key(k) <==> exists|i: int| 0 <= i < s.len() && (#[trigger] s[i]).0 == k,
    decreases s.len(),
{
    if s.len() > 0 {
        lemma_map_of_contains(s.drop_last(), k);
        if s.last().0 == k {
            assert(s[s.len() - 1].0 == k);
        } else if map_of(s).contains_key(k) {
            let i = choose|i: int| 0 <= i < s.drop_last().len() && (#[trigger] s.drop_last()[i]).0
                == k;
            assert(s[i].0 == k);
        } else if exists|i: int| 0 <= i < s.len() && (#[trigger] s[i]).0 == k {
            let i = choose|i: int| 0 <= i < s.len() && (#[trigger] s[i]).0 == k;
            assert(i < s.len() - 1 && s.drop_last()[i].0 == k);
        }
    }
}

/// Under unique keys, the entry at any index gives the value the denoted map
/// assigns to its address.
pub proof fn lemma_map_of_index(s: Seq<(PeerAddr, PeerStatus)>, i: int)
    requires
        unique_keys(s),
        0 <= i < s.len(),
    ensures
        map_of(s).contains_key(s[i].0),
        map_of(s)[s[i].0] == s[i].1,
    decreases s.len(),
{
    if i == s.len() - 1 {
    } else {
        assert(unique_keys(s.drop_last())) by {
            assert(forall|x: int, y: int|
                0 <= x < y < s.drop_last().len() ==> (#[trigger] s.drop_last()[x]) == s[x] && (
                #[trigger] s.drop_last()[y]) == s[y]);
        }
        lemma_map_of_index(s.drop_last(), i);
        assert(s[i].0 != s.last().0);
    }
}

/// Appending an entry denotes an insertion.
pub proof fn lemma_map_of_push(s: Seq<(PeerAddr, PeerStatus)>, k: PeerAddr, v: PeerStatus)
    ensures
        map_of(s.push((k, v))) == map_of(s).insert(k, v),
{
    assert(s.push((k, v)).drop_last() =~= s);
    assert(s.push((k, v)).last() == (k, v));
}

/// Overwriting the entry that holds a key denotes an insertion for that key.
pub proof fn lemma_map_of_update(s: Seq<(PeerAddr, PeerStatus)>, i: int, k: PeerAddr, v: PeerStatus)
    requires
        unique_keys(s),
        0 <= i < s.len(),
        s[i].0 == k,
    ensures
        map_of(s.update(i, (k, v))) == map_of(s).insert(k, v),
    decreases s.len(),
{
    let t = s.update(i, (k, v));
    if i == s.len() - 1 {
        assert(t.drop_last() =~= s.drop_last());
        assert(map_of(t) == map_of(s.drop_last()).insert(k, v));
        assert(map_of(s).insert(k, v) =~= map_of(s.drop_last()).insert(k, v));
    } else {
        assert(unique_keys(s.drop_last())) by {
            assert(forall|x: int, y: int|
                0 <= x < y < s.drop_last().len() ==> (#[trigger] s.drop_last()[x]) == s[x] && (
                #[trigger] s.drop_last()[y]) == s[y]);
        }
        lemma_map_of_update(s.drop_last(), i, k, v);
        assert(t.drop_last() =~= s.drop_last().update(i, (k, v)));
        assert(t.last() == s.last());
        assert(s.last().0 != k);
        assert(map_of(t) == map_of(s.drop_last()).insert(k, v).insert(s.last().0, s.last().1));
        assert(map_of(s.drop_last()).insert(k, v).insert(s.last().0, s.last().1) =~= map_of(
            s,
        ).insert(k, v));
    }
}

/// A prefix one longer denotes one more insertion.
pub proof fn lemma_map_of_take_step(s: Seq<(PeerAddr, PeerStatus)>, i: int)
    requires
        0 <= i < s.len(),
    ensures
        map_of(s.take(i + 1)) == map_of(s.take(i)).insert(s[i].0, s[i].1),
{
    assert(s.take(i + 1).drop_last() =~= s.take(i));
    assert(s.take(i + 1).last() == s[i]);
}

/// The shared address-to-role table. All discovery and bridge decisions read
/// it; discovery rounds mutate it through `merge`, `replace` and
/// `record_peer`.
pub struct PeerRegistry {
    entries: Vec<(PeerAddr, PeerStatus)>,
}

impl View for PeerRegistry {
    type V = Map<PeerAddr, PeerStatus>;

    closed spec fn view(&self) -> Map<PeerAddr, PeerStatus> {
        map_of(self.entries@)
    }
}

impl PeerRegistry {
    /// The entries in their stored order; the wire form of a registry
    /// snapshot serialises them in this order.
    pub closed spec fn entry_seq(self) -> Seq<(PeerAddr, PeerStatus)> {
        self.entries@
    }

    /// Entries carry pairwise distinct addresses.
    pub open spec fn wf(self) -> bool {
        unique_keys(self.entry_seq())
    }

    /// The denoted map is the map of the stored entries.
    pub proof fn lemma_view(self)
        ensures
            self@ == map_of(self.entry_seq()),
    {
    }

    /// A fresh, empty registry.
    pub fn new() -> (r: PeerRegistry)
        ensures
            r.wf(),
            r@ == Map::<PeerAddr, PeerStatus>::empty(),
            r.entry_seq() == Seq::<(PeerAddr, PeerStatus)>::empty(),
    {
        let r = PeerRegistry { entries: Vec::new() };
        assert(r.entry_seq() =~= Seq::<(PeerAddr, PeerStatus)>::empty());
        r
    }

    /// A registry holding exactly the given entries, whose keys must be
    /// pairwise distinct.
    pub fn from_entries(entries: Vec<(PeerAddr, PeerStatus)>) -> (r: PeerRegistry)
        requires
            unique_keys(entries@),
        ensures
            r.wf(),
            r.entry_seq() == entries@,
            r@ == map_of(entries@),
    {
        PeerRegistry { entries }
    }

    /// How many peers are known.
    pub fn len(&self) -> (n: usize)
        ensures
            n == self.entry_seq().len(),
    {
        self.entries.len()
    }

    /// The entry at a position, for walking the table in stored order.
    pub fn entry_at(&self, i: usize) -> (e: (PeerAddr, PeerStatus))
        requires
            i < self.entry_seq().len(),
        ensures
            e == self.entry_seq()[i as int],
    {
        self.entries[i]
    }

    /// Position of the entry holding `a`, if any.
    fn index_of(&self, a: PeerAddr) -> (r: Option<usize>)
        ensures
            match r {
                Some(i) => i < self.entry_seq().len() && self.entry_seq()[i as int].0 == a,
                None => forall|i: int|
                    0 <= i < self.entry_seq().len() ==> (#[trigger] self.entry_seq()[i]).0 != a,
            },
    {
        let n = self.entries.len();
        let mut i: usize = 0;
        while i < n
            invariant
                i <= n == self.entry_seq().len(),
                forall|j: int| 0 <= j < i ==> (#[trigger] self.entry_seq()[j]).0 != a,
            decreases n - i,
        {
            if self.entries[i].0 == a {
                return Some(i);
            }
            i = i + 1;
        }
        None
    }

    /// Whether `a` is a known peer.
    pub fn contains_addr(&self, a: PeerAddr) -> (r: bool)
        ensures
            r == self@.contains_key(a),
    {
        proof {
            lemma_map_of_contains(self.entry_seq(), a);
        }
        self.index_of(a).is_some()
    }

    /// The role recorded for `a`, if `a` is known.
    pub fn role_of(&self, a: PeerAddr) -> (r: Option<PeerStatus>)
        requires
            self.wf(),
        ensures
            match r {
                Some(st) => self@.contains_key(a) && self@[a] == st,
                None => !self@.contains_key(a),
            },
    {
        proof {
            lemma_map_of_contains(self.entry_seq(), a);
        }
        match self.index_of(a) {
            Some(i) => {
                proof {
                    lemma_map_of_index(self.entry_seq(), i as int);
                }
                Some(self.entries[i].1)
            },
            None => None,
        }
    }

    /// Inserts `a` with role `st` only when `a` is absent; the additive step
    /// of ordinary discovery merging. Returns whether `a` was new.
    pub fn insert_if_absent(&mut self, a: PeerAddr, st: PeerStatus) -> (is_new: bool)
        requires
            old(self).wf(),
        ensures
            final(self).wf(),
            is_new == !old(self)@.contains_key(a),
            final(self)@ == if old(self)@.contains_key(a) {
                old(self)@
            } else {
                old(self)@.insert(a, st)
            },
            final(self).entry_seq() == if old(self)@.contains_key(a) {
                old(self).entry_seq()
            } else {
                old(self).entry_seq().push((a, st))
            },
    {
        proof {
            lemma_map_of_contains(self.entry_seq(), a);
        }
        match self.index_of(a) {
            Some(_) => false,
            None => {
                proof {
                    lemma_map_of_push(self.entry_seq(), a, st);
                }
                self.entries.push((a, st));
                true
            },
        }
    }

    /// Records a peer seen on the wire with the default role `Player`, only
    /// when it is not yet known. Returns whether the peer was new, so the
    /// caller can log "added" against "already known".
    pub fn record_peer(&mut self, a: PeerAddr) -> (is_new: bool)
        requires
            old(self).wf(),
        ensures
            final(self).wf(),
            is_new == !old(self)@.contains_key(a),
            final(self)@ == if old(self)@.contains_key(a) {
                old(self)@
            } else {
                old(self)@.insert(a, PeerStatus::Player)
            },
            final(self).entry_seq() == if old(self)@.contains_key(a) {
                old(self).entry_seq()
            } else {
                old(self).entry_seq().push((a, PeerStatus::Player))
            },
    {
        self.insert_if_absent(a, PeerStatus::Player)
    }

    /// Inserts or overwrites: the step a rescan round uses while it
    /// accumulates replies, where the reply's role is authoritative.
    pub fn upsert(&mut self, a: PeerAddr, st: PeerStatus)
        requires
            old(self).wf(),
        ensures
            final(self).wf(),
            final(self)@ == old(self)@.insert(a, st),
    {
        match self.index_of(a) {
            Some(i) => {
                proof {
                    lemma_map_of_update(self.entry_seq(), i as int, a, st);
                    assert(self.entry_seq().update(i as int, (a, st)).len()
                        == self.entry_seq().len());
                    assert forall|x: int, y: int|
                        0 <= x < y < self.entry_seq().update(i as int, (a, st)).len() implies (
                    #[trigger] self.entry_seq().update(i as int, (a, st))[x]).0 != (
                    #[trigger] self.entry_seq().update(i as int, (a, st))[y]).0 by {
                        let t = self.entry_seq().update(i as int, (a, st));
                        assert(t[x] == if x == i as int {
                            (a, st)
                        } else {
                            self.entry_seq()[x]
                        });
                        assert(t[y] == if y == i as int {
                            (a, st)
                        } else {
                            self.entry_seq()[y]
                        });
                    }
                }
                self.entries.set(i, (a, st));
            },
            None => {
                proof {
                    lemma_map_of_contains(self.entry_seq(), a);
                    lemma_map_of_push(self.entry_seq(), a, st);
                }
                self.entries.push((a, st));
            },
        }
    }

    /// Additive merge of a peer's advertised snapshot: every entry of `other`
    /// is inserted when absent; roles already recorded are never overwritten.
    pub fn merge(&mut self, other: &PeerRegistry)
        requires
            old(self).wf(),
            other.wf(),
        ensures
            final(self).wf(),
            final(self)@ == other@.union_prefer_right(old(self)@),
    {
        let n = other.entries.len();
        let mut i: usize = 0;
        while i < n
            invariant
                i <= n == other.entry_seq().len(),
                other.wf(),
                self.wf(),
                self@ == map_of(other.entry_seq().take(i as int)).union_prefer_right(old(self)@),
            decreases n - i,
        {
            let (a, st) = other.entries[i];
            let ghost pre = self@;
            let ghost taken = other.entry_seq().take(i as int);
            proof {
                lemma_map_of_take_step(other.entry_seq(), i as int);
                lemma_map_of_contains(taken, a);
            }
            self.insert_if_absent(a, st);
            proof {
                assert(!map_of(taken).contains_key(a));
                assert(self@ =~= map_of(other.entry_seq().take(i as int + 1)).union_prefer_right(
                    old(self)@,
                ));
            }
            i = i + 1;
        }
        proof {
            assert(other.entry_seq().take(n as int) =~= other.entry_seq());
            other.lemma_view();
        }
    }

    /// Overwriting accumulation: every entry of `other` is inserted, replacing
    /// any role already recorded for its address.
    pub fn absorb(&mut self, other: &PeerRegistry)
        requires
            old(self).wf(),
        ensures
            final(self).wf(),
            final(self)@ == old(self)@.union_prefer_right(other@),
    {
        let n = other.entries.len();
        let mut i: usize = 0;
        while i < n
            invariant
                i <= n == other.entry_seq().len(),
                self.wf(),
                self@ == old(self)@.union_prefer_right(map_of(other.entry_seq().take(i as int))),
            decreases n - i,
        {
            let (a, st) = other.entries[i];
            proof {
                lemma_map_of_take_step(other.entry_seq(), i as int);
            }
            self.upsert(a, st);
            proof {
                assert(self@ =~= old(self)@.union_prefer_right(
                    map_of(other.entry_seq().take(i as int + 1)),
                ));
            }
            i = i + 1;
        }
        proof {
            assert(other.entry_seq().take(n as int) =~= other.entry_seq());
            other.lemma_view();
        }
    }

    /// Authoritative replacement: after the call the registry holds exactly
    /// the entries of `other`, in `other`'s order; everything else is evicted.
    pub fn replace(&mut self, other: &PeerRegistry)
        requires
            other.wf(),
        ensures
            final(self).wf(),
            final(self)@ == other@,
            final(self).entry_seq() == other.entry_seq(),
    {
        self.entries.clear();
        let n = other.entries.len();
        let mut i: usize = 0;
        while i < n
            invariant
                i <= n == other.entry_seq().len(),
                self.entry_seq() == other.entry_seq().take(i as int),
            decreases n - i,
        {
            let e = other.entries[i];
            self.entries.push(e);
            proof {
                assert(self.entry_seq() =~= other.entry_seq().take(i as int + 1));
            }
            i = i + 1;
        }
        proof {
            assert(self.entry_seq() =~= other.entry_seq());
        }
    }

    /// A copy of the registry augmented with the machine's own resolved
    /// address (when one was resolved) carrying the current local role,
    /// inserted only when that address is not already recorded.
    pub fn snapshot(&self, own: Option<PeerAddr>, local_is_speaker: bool) -> (r: PeerRegistry)
        requires
            self.wf(),
        ensures
            r.wf(),
            r.entry_seq() == spec_snapshot_entries(self.entry_seq(), own, local_is_speaker),
            r@ == spec_snapshot(self@, own, local_is_speaker),
    {
        let mut r = PeerRegistry { entries: Vec::new() };
        assert(r.entry_seq() =~= Seq::<(PeerAddr, PeerStatus)>::empty());
        r.replace(self);
        proof {
            self.lemma_view();
            r.lemma_view();
        }
        match own {
            None => r,
            Some(a) => {
                r.insert_if_absent(a, if local_is_speaker {
                    PeerStatus::Speaker
                } else {
                    PeerStatus::Player
                });
                r
            },
        }
    }

    /// The address of the first recorded peer whose role is `Speaker`, the
    /// peer a player-side bridge connects to.
    pub fn find_speaker(&self) -> (r: Option<PeerAddr>)
        requires
            self.wf(),
        ensures
            match r {
                Some(a) => self@.contains_key(a) && self@[a] == PeerStatus::Speaker,
                None => forall|a: PeerAddr|
                    self@.contains_key(a) ==> self@[a] != PeerStatus::Speaker,
            },
    {
        let n = self.entries.len();
        let mut i: usize = 0;
        while i < n
            invariant
                i <= n == self.entry_seq().len(),
                self.wf(),
                forall|j: int|
                    0 <= j < i ==> (#[trigger] self.entry_seq()[j]).1 != PeerStatus::Speaker,
            decreases n - i,
        {
            let (a, st) = self.entries[i];
            if matches!(st, PeerStatus::Speaker) {
                proof {
                    lemma_map_of_index(self.entry_seq(), i as int);
                }
                return Some(a);
            }
            i = i + 1;
        }
        proof {
            assert forall|a: PeerAddr| self@.contains_key(a) implies self@[a]
                != PeerStatus::Speaker by {
                lemma_map_of_contains(self.entry_seq(), a);
                let j = choose|j: int|
                    0 <= j < self.entry_seq().len() && (#[trigger] self.entry_seq()[j]).0 == a;
                lemma_map_of_index(self.entry_seq(), j);
            }
        }
        None
    }
}

/// Entry sequence of a snapshot: the registry's entries, with the own entry
/// appended when an own address was resolved and is not already present.
pub open spec fn spec_snapshot_entries(
    s: Seq<(PeerAddr, PeerStatus)>,
    own: Option<PeerAddr>,
    local_is_speaker: bool,
) -> Seq<(PeerAddr, PeerStatus)> {
    match own {
        None => s,
        Some(a) => if map_of(s).contains_key(a) {
            s
        } else {
            s.push((a, own_role(local_is_speaker)))
        },
    }
}

/// Map denoted by a snapshot: the registry's map, with the own address bound
/// to the local role when it was resolved and not already present.
pub open spec fn spec_snapshot(
    m: Map<PeerAddr, PeerStatus>,
    own: Option<PeerAddr>,
    local_is_speaker: bool,
) -> Map<PeerAddr, PeerStatus> {
    match own {
        None => m,
        Some(a) => if m.contains_key(a) {
            m
        } else {
            m.insert(a, own_role(local_is_speaker))
        },
    }
}

/// Merging the same snapshot twice changes nothing beyond the first
/// application: additive merging is idempotent.
pub proof fn lemma_merge_idempotent(
    m: Map<PeerAddr, PeerStatus>,
    snap: Map<PeerAddr, PeerStatus>,
)
    ensures
        snap.union_prefer_right(snap.union_prefer_right(m)) == snap.union_prefer_right(m),
{
    assert(snap.union_prefer_right(snap.union_prefer_right(m)) =~= snap.union_prefer_right(m));
}

/// A rescan is authoritative: after `replace` with the discovered set `s`,
/// a snapshot holds exactly the keys of `s`, plus the machine's own resolved
/// address when one was resolved.
pub proof fn lemma_replace_authoritative(
    s: Map<PeerAddr, PeerStatus>,
    own: Option<PeerAddr>,
    local_is_speaker: bool,
)
    ensures
        spec_snapshot(s, own, local_is_speaker).dom() == match own {
            None => s.dom(),
            Some(a) => s.dom().insert(a),
        },
{
    match own {
        None => {
        },
        Some(a) => {
            assert(spec_snapshot(s, own, local_is_speaker).dom() =~= s.dom().insert(a));
        },
    }
}

/// The own entry is resolved locally, never learned from the wire: every
/// snapshot taken with a resolved own address contains that address, and
/// where the registry did not already know it, the entry carries the role
/// derived from the local role flag.
pub proof fn lemma_snapshot_includes_own(
    m: Map<PeerAddr, PeerStatus>,
    a: PeerAddr,
    local_is_speaker: bool,
)
    ensures
        spec_snapshot(m, Some(a), local_is_speaker).contains_key(a),
        !m.contains_key(a) ==> spec_snapshot(m, Some(a), local_is_speaker)[a] == own_role(
            local_is_speaker,
        ),
{
}

} // verus!
