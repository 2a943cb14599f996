//! Persistent state of the engine: the configuration record, the wager
//! record, and the store that maps live wager ids to records.

use vstd::prelude::*;

use crate::balance::{bal_wf, empty_bal, BalV, GenericBalance};
use crate::error::ContractError;
use crate::lex::{lemma_lex_total, lemma_lex_trans, lex_le, sorted_ids, str_lex_le};

verus! {

/// The configuration record: the address that instantiated the engine
/// and the address currently authorized to resolve wagers.
#[derive(Debug)]
pub struct State {
    pub creator: String,
    pub owner: String,
}

/// Abstract form of the configuration record.
#[verifier::ext_equal]
pub ghost struct StateV {
    pub creator: Seq<char>,
    pub owner: Seq<char>,
}

impl View for State {
    type V = StateV;

    open spec fn view(&self) -> StateV {
        StateV { creator: self.creator@, owner: self.owner@ }
    }
}

impl Clone for State {
    fn clone(&self) -> (res: Self)
        ensures
            res == *self,
    {
        State { creator: self.creator.clone(), owner: self.owner.clone() }
    }
}

/// A live wager: the authority snapshotted at creation, the two
/// participants and their bundles. `user2` is `None` until a second
/// party has joined.
#[derive(Debug)]
pub struct Wager {
    pub arbiter: String,
    pub user1: String,
    pub user2: Option<String>,
    pub user1_balance: GenericBalance,
    pub user2_balance: GenericBalance,
}

/// Abstract form of a wager record.
#[verifier::ext_equal]
pub ghost struct WagerV {
    pub arbiter: Seq<char>,
    pub user1: Seq<char>,
    pub user2: Option<Seq<char>>,
    pub user1_balance: BalV,
    pub user2_balance: BalV,
}

impl View for Wager {
    type V = WagerV;

    open spec fn view(&self) -> WagerV {
        WagerV {
            arbiter: self.arbiter@,
            user1: self.user1@,
            user2: match self.user2 {
                Some(u) => Some(u@),
                None => None,
            },
            user1_balance: self.user1_balance@,
            user2_balance: self.user2_balance@,
        }
    }
}

impl Clone for Wager {
    fn clone(&self) -> (res: Self)
        ensures
            res@ == self@,
    {
        Wager {
            arbiter: self.arbiter.clone(),
            user1: self.user1.clone(),
            user2: match &self.user2 {
                Some(u) => Some(u.clone()),
                None => None,
            },
            user1_balance: self.user1_balance.clone(),
            user2_balance: self.user2_balance.clone(),
        }
    }
}

/// Wager validity: both bundles are well formed, and until a second
/// party joins, the second bundle is empty.
pub open spec fn wager_wf(w: WagerV) -> bool {
    &&& bal_wf(w.user1_balance)
    &&& bal_wf(w.user2_balance)
    &&& w.user2 is None ==> w.user2_balance == empty_bal()
}

/// One stored record: a live id and its wager.
#[derive(Debug)]
struct StoreEntry {
    id: String,
    wager: Wager,
}

/// Whether no id occurs twice in a sequence of entries.
spec fn ids_unique(s: Seq<StoreEntry>) -> bool {
    forall|i: int, j: int| 0 <= i < j < s.len() ==> s[i].id@ != s[j].id@
}

/// The map a sequence of entries denotes.
spec fn entries_map(s: Seq<StoreEntry>) -> Map<Seq<char>, WagerV>
    decreases s.len(),
{
    if s.len() == 0 {
        Map::empty()
    } else {
        entries_map(s.drop_last()).insert(s.last().id@, s.last().wager@)
    }
}

/// The map of a sequence of entries contains exactly the ids of the
/// entries and, when ids are unique, maps each id to its wager.
proof fn lemma_entries_map(s: Seq<StoreEntry>)
    ensures
        forall|k: Seq<char>| #[trigger] entries_map(s).contains_key(k) <==> exists|i: int|
            0 <= i < s.len() && #[trigger] s[i].id@ == k,
        ids_unique(s) ==> forall|i: int| 0 <= i < s.len() ==> entries_map(s).contains_key(
            #[trigger] s[i].id@,
        ) && entries_map(s)[s[i].id@] == s[i].wager@,
    decreases s.len(),
{
    if s.len() > 0 {
        lemma_entries_map(s.drop_last());
        let inner = entries_map(s.drop_last());
        let m = entries_map(s);
        assert forall|k: Seq<char>| #[trigger] m.contains_key(k) implies exists|i: int|
            0 <= i < s.len() && #[trigger] s[i].id@ == k by {
            if k == s.last().id@ {
                assert(s[s.len() - 1].id@ == k);
            } else {
                let i = choose|i: int| 0 <= i < s.drop_last().len() && #[trigger] s.drop_last()[i].id@
                    == k;
                assert(s[i].id@ == k);
            }
        }
        assert forall|k: Seq<char>| (exists|i: int| 0 <= i < s.len() && #[trigger] s[i].id@ == k)
            implies #[trigger] m.contains_key(k) by {
            let i = choose|i: int| 0 <= i < s.len() && #[trigger] s[i].id@ == k;
            if i < s.len() - 1 {
                assert(s.drop_last()[i].id@ == k);
            }
        }
        if ids_unique(s) {
            assert(ids_unique(s.drop_last()));
            assert forall|i: int| 0 <= i < s.len() implies m.contains_key(#[trigger] s[i].id@)
                && m[s[i].id@] == s[i].wager@ by {
                if i < s.len() - 1 {
                    assert(s.drop_last()[i].id@ == s[i].id@);
                    assert(s[i].id@ != s.last().id@);
                }
            }
        }
    }
}

/// The store of live wagers, keyed by id.
#[derive(Debug)]
pub struct WagerStore {
    entries: Vec<StoreEntry>,
}

impl View for WagerStore {
    type V = Map<Seq<char>, WagerV>;

    closed spec fn view(&self) -> Map<Seq<char>, WagerV> {
        entries_map(self.entries@)
    }
}

impl WagerStore {
    /// The store invariant: live ids are unique.
    pub closed spec fn wf(&self) -> bool {
        ids_unique(self.entries@)
    }

    /// An empty store.
    pub fn new() -> (s: WagerStore)
        ensures
            s@ == Map::<Seq<char>, WagerV>::empty(),
            s.wf(),
    {
        WagerStore { entries: Vec::new() }
    }

    /// Index of the entry holding `id`, if `id` is live.
    fn find_entry(&self, id: &String) -> (r: Option<usize>)
        requires
            self.wf(),
        ensures
            match r {
                Some(i) => {
                    &&& i < self.entries@.len()
                    &&& self.entries@[i as int].id@ == id@
                    &&& self@.contains_key(id@)
                    &&& self@[id@] == self.entries@[i as int].wager@
                },
                None => !self@.contains_key(id@),
            },
    {
        proof {
            lemma_entries_map(self.entries@);
        }
        let n = self.entries.len();
        let mut i: usize = 0;
        while i < n
            invariant
                self.wf(),
                n == self.entries@.len(),
                i <= n,
                forall|j: int| 0 <= j < i ==> #[trigger] self.entries@[j].id@ != id@,
            decreases n - i,
        {
            if self.entries[i].id == *id {
                proof {
                    lemma_entries_map(self.entries@);
                }
                return Some(i);
            }
            i = i + 1;
        }
        proof {
            lemma_entries_map(self.entries@);
        }
        None
    }

    /// Whether `id` is live.
    pub fn has(&self, id: &String) -> (r: bool)
        requires
            self.wf(),
        ensures
            r == self@.contains_key(id@),
    {
        self.find_entry(id).is_some()
    }

    /// Insert a new wager under `id`; fails with `AlreadyInUse` when the
    /// id already maps to a live record, leaving the store unchanged.
    pub fn create(&mut self, id: String, wager: Wager) -> (r: Result<(), ContractError>)
        requires
            old(self).wf(),
        ensures
            final(self).wf(),
            match r {
                Ok(()) => !old(self)@.contains_key(id@) && final(self)@ == old(self)@.insert(
                    id@,
                    wager@,
                ),
                Err(e) => {
                    &&& e == ContractError::AlreadyInUse
                    &&& old(self)@.contains_key(id@)
                    &&& final(self)@ == old(self)@
                },
            },
    {
        match self.find_entry(&id) {
            Some(_) => Err(ContractError::AlreadyInUse),
            None => {
                let ghost s0 = self.entries@;
                proof {
                    lemma_entries_map(s0);
                }
                self.entries.push(StoreEntry { id, wager });
                proof {
                    assert(self.entries@.drop_last() =~= s0);
                    assert forall|i: int, j: int| 0 <= i < j < self.entries@.len() implies self
                        .entries@[i].id@ != self.entries@[j].id@ by {
                        if j < s0.len() {
                            assert(s0[i].id@ != s0[j].id@);
                        }
                    }
                }
                Ok(())
            }
        }
    }

    /// The wager under `id`; fails with `WagerDoesNotExist` when `id` is
    /// not live.
    pub fn load(&self, id: &String) -> (r: Result<Wager, ContractError>)
        requires
            self.wf(),
        ensures
            match r {
                Ok(w) => self@.contains_key(id@) && w@ == self@[id@],
                Err(e) => e == ContractError::WagerDoesNotExist && !self@.contains_key(id@),
            },
    {
        match self.find_entry(id) {
            Some(i) => Ok(self.entries[i].wager.clone()),
            None => Err(ContractError::WagerDoesNotExist),
        }
    }

    /// Replace the wager under `id`; fails with `WagerDoesNotExist` when
    /// `id` is not live, leaving the store unchanged.
    pub fn update(&mut self, id: &String, wager: Wager) -> (r: Result<(), ContractError>)
        requires
            old(self).wf(),
        ensures
            final(self).wf(),
            match r {
                Ok(()) => old(self)@.contains_key(id@) && final(self)@ == old(self)@.insert(
                    id@,
                    wager@,
                ),
                Err(e) => {
                    &&& e == ContractError::WagerDoesNotExist
                    &&& !old(self)@.contains_key(id@)
                    &&& final(self)@ == old(self)@
                },
            },
    {
        match self.find_entry(id) {
            Some(i) => {
                let ghost s0 = self.entries@;
                self.entries[i].wager = wager;
                proof {
                    assert(ids_unique(self.entries@)) by {
                        assert forall|p: int, q: int| 0 <= p < q < self.entries@.len() implies self
                            .entries@[p].id@ != self.entries@[q].id@ by {
                            assert(s0[p].id@ != s0[q].id@);
                            assert(self.entries@[p].id@ == s0[p].id@);
                            assert(self.entries@[q].id@ == s0[q].id@);
                        }
                    }
                    lemma_entries_map_replace(s0, i as int, self.entries@[i as int]);
                }
                Ok(())
            }
            None => Err(ContractError::WagerDoesNotExist),
        }
    }

    /// Delete the entry under `id`, if it is live.
    pub fn remove(&mut self, id: &String)
        requires
            old(self).wf(),
        ensures
            final(self).wf(),
            final(self)@ == old(self)@.remove(id@),
    {
        match self.find_entry(id) {
            Some(i) => {
                let ghost s0 = self.entries@;
                self.entries.remove(i);
                proof {
                    assert(ids_unique(self.entries@)) by {
                        assert forall|p: int, q: int| 0 <= p < q < self.entries@.len() implies self
                            .entries@[p].id@ != self.entries@[q].id@ by {
                            s0.remove_ensures(i as int);
                            let p0 = if p < i { p } else { p + 1 };
                            let q0 = if q < i { q } else { q + 1 };
                            assert(self.entries@[p].id@ == s0[p0].id@);
                            assert(self.entries@[q].id@ == s0[q0].id@);
                            assert(s0[p0].id@ != s0[q0].id@);
                        }
                    }
                    lemma_entries_map_remove(s0, i as int);
                }
            }
            None => {
                proof {
                    lemma_entries_map(self.entries@);
                    assert(self@.remove(id@) =~= self@);
                }
            }
        }
    }

    /// The ids of all live wagers, ascending in lexicographic order.
    pub fn list_ids(&self) -> (r: Vec<String>)
        requires
            self.wf(),
        ensures
            sorted_ids(id_seq(r@)),
            distinct_ids(r@),
            forall|j: int| 0 <= j < r@.len() ==> self@.contains_key(#[trigger] r@[j]@),
            forall|k: Seq<char>| #[trigger] self@.contains_key(k) ==> exists|j: int|
                0 <= j < r@.len() && #[trigger] r@[j]@ == k,
    {
        proof {
            lemma_entries_map(self.entries@);
        }
        let n = self.entries.len();
        let mut out: Vec<String> = Vec::new();
        let mut i: usize = 0;
        while i < n
            invariant
                self.wf(),
                n == self.entries@.len(),
                i <= n,
                sorted_ids(id_seq(out@)),
                distinct_ids(out@),
                lists_prefix(out@, self.entries@, i as int),
            decreases n - i,
        {
            let id = self.entries[i].id.clone();
            let ghost out0 = out@;
            let p = insert_pos(&out, &id);
            out.insert(p, id);
            proof {
                out0.insert_ensures(p as int, out@[p as int]);
                lemma_insert_keeps_listing(out0, out@, self.entries@, i as int, p as int);
            }
            i = i + 1;
        }
        proof {
            lemma_entries_map(self.entries@);
            assert forall|j: int| 0 <= j < out@.len() implies self@.contains_key(
                #[trigger] out@[j]@,
            ) by {
                let t = choose|t: int| 0 <= t < n && #[trigger] out@[j]@ == self.entries@[t].id@;
                assert(self.entries@[t].id@ == out@[j]@);
            }
            assert forall|k: Seq<char>| #[trigger] self@.contains_key(k) implies exists|j: int|
                0 <= j < out@.len() && #[trigger] out@[j]@ == k by {
                let t = choose|t: int| 0 <= t < self.entries@.len() && #[trigger] self.entries@[t].id@
                    == k;
                let j = choose|j: int| 0 <= j < out@.len() && out@[j]@ == self.entries@[t].id@;
                assert(out@[j]@ == k);
            }
        }
        out
    }
}

/// The ids of all live wagers in a store, ascending in lexicographic
/// order.
pub fn all_wager_ids(storage: &WagerStore) -> (r: Vec<String>)
    requires
        storage.wf(),
    ensures
        sorted_ids(id_seq(r@)),
        distinct_ids(r@),
        forall|j: int| 0 <= j < r@.len() ==> storage@.contains_key(#[trigger] r@[j]@),
        forall|k: Seq<char>| #[trigger] storage@.contains_key(k) ==> exists|j: int|
            0 <= j < r@.len() && #[trigger] r@[j]@ == k,
{
    storage.list_ids()
}

/// The views of a sequence of strings.
pub open spec fn id_seq(r: Seq<String>) -> Seq<Seq<char>> {
    r.map_values(|s: String| s@)
}

/// No string occurs twice.
pub open spec fn distinct_ids(r: Seq<String>) -> bool {
    forall|i: int, j: int| 0 <= i < j < r.len() ==> r[i]@ != r[j]@
}

/// `out` lists exactly the ids of the first `i` entries.
spec fn lists_prefix(out: Seq<String>, entries: Seq<StoreEntry>, i: int) -> bool {
    &&& forall|j: int| 0 <= j < out.len() ==> exists|t: int|
        0 <= t < i && #[trigger] out[j]@ == entries[t].id@
    &&& forall|t: int| 0 <= t < i ==> exists|j: int|
        0 <= j < out.len() && out[j]@ == #[trigger] entries[t].id@
}

/// The position at which `id` belongs in the sorted list `out`.
fn insert_pos(out: &Vec<String>, id: &String) -> (p: usize)
    ensures
        p <= out@.len(),
        forall|q: int| 0 <= q < p ==> lex_le(#[trigger] out@[q]@, id@),
        p < out@.len() ==> !lex_le(out@[p as int]@, id@),
{
    let m = out.len();
    let mut p: usize = 0;
    while p < m
        invariant
            m == out@.len(),
            p <= m,
            forall|q: int| 0 <= q < p ==> lex_le(#[trigger] out@[q]@, id@),
        decreases m - p,
    {
        if !str_lex_le(&out[p], id) {
            return p;
        }
        p = p + 1;
    }
    p
}

/// Inserting the id of entry `i` at its sorted position keeps the
/// listing sorted, duplicate-free, and in step with the first `i + 1`
/// entries.
#[verifier::rlimit(100)]
proof fn lemma_insert_keeps_listing(
    out0: Seq<String>,
    outn: Seq<String>,
    entries: Seq<StoreEntry>,
    i: int,
    pi: int,
)
    requires
        ids_unique(entries),
        0 <= i < entries.len(),
        0 <= pi <= out0.len(),
        outn.len() == out0.len() + 1,
        forall|x: int| 0 <= x < pi ==> #[trigger] outn[x] == out0[x],
        forall|x: int| pi <= x < out0.len() ==> outn[x + 1] == #[trigger] out0[x],
        outn[pi]@ == entries[i].id@,
        sorted_ids(id_seq(out0)),
        forall|q: int| 0 <= q < pi ==> lex_le(#[trigger] out0[q]@, entries[i].id@),
        pi < out0.len() ==> !lex_le(out0[pi]@, entries[i].id@),
        distinct_ids(out0),
        lists_prefix(out0, entries, i),
    ensures
        sorted_ids(id_seq(outn)),
        distinct_ids(outn),
        lists_prefix(outn, entries, i + 1),
{
    let idv = entries[i].id@;
    assert(forall|x: int| 0 <= x < outn.len() ==> #[trigger] id_seq(outn)[x] == outn[x]@);
    assert(forall|x: int| 0 <= x < out0.len() ==> #[trigger] id_seq(out0)[x] == out0[x]@);
    if pi < out0.len() {
        lemma_lex_total(out0[pi]@, idv);
        assert(lex_le(idv, out0[pi]@));
    }
    assert forall|a: int, b: int| 0 <= a < b < outn.len() implies lex_le(
        #[trigger] id_seq(outn)[a],
        #[trigger] id_seq(outn)[b],
    ) by {
        if b < pi {
            assert(lex_le(id_seq(out0)[a], id_seq(out0)[b]));
        } else if a < pi && b == pi {
            assert(lex_le(out0[a]@, idv));
        } else if a < pi && b > pi {
            assert(outn[b]@ == out0[b - 1]@);
            assert(lex_le(id_seq(out0)[a], id_seq(out0)[b - 1]));
        } else if a == pi {
            assert(b > pi);
            assert(outn[b]@ == out0[b - 1]@);
            if b - 1 > pi {
                assert(lex_le(id_seq(out0)[pi], id_seq(out0)[b - 1]));
                lemma_lex_trans(idv, out0[pi]@, out0[b - 1]@);
            }
        } else {
            assert(a > pi && b > pi);
            assert(outn[a]@ == out0[a - 1]@);
            assert(outn[b]@ == out0[b - 1]@);
            assert(lex_le(id_seq(out0)[a - 1], id_seq(out0)[b - 1]));
        }
    }
    assert forall|j1: int, j2: int| 0 <= j1 < j2 < outn.len() implies outn[j1]@ != outn[j2]@ by {
        if j1 == pi || j2 == pi {
            let other = if j1 == pi { j2 } else { j1 };
            let o0 = if other < pi { other } else { other - 1 };
            assert(outn[other]@ == out0[o0]@);
            if out0[o0]@ == idv {
                let t = choose|t: int| 0 <= t < i && out0[o0]@ == entries[t].id@;
                assert(entries[t].id@ != entries[i].id@);
            }
        } else {
            let a0 = if j1 < pi { j1 } else { j1 - 1 };
            let b0 = if j2 < pi { j2 } else { j2 - 1 };
            assert(outn[j1]@ == out0[a0]@);
            assert(outn[j2]@ == out0[b0]@);
        }
    }
    assert forall|t: int| 0 <= t < i + 1 implies exists|j: int|
        0 <= j < outn.len() && outn[j]@ == #[trigger] entries[t].id@ by {
        if t == i {
            assert(outn[pi]@ == entries[t].id@);
        } else {
            let j0 = choose|j0: int| 0 <= j0 < out0.len() && out0[j0]@ == entries[t].id@;
            let j = if j0 < pi { j0 } else { j0 + 1 };
            assert(outn[j]@ == out0[j0]@);
        }
    }
    assert forall|j: int| 0 <= j < outn.len() implies exists|t: int|
        0 <= t < i + 1 && #[trigger] outn[j]@ == entries[t].id@ by {
        if j == pi {
            assert(outn[j]@ == entries[i].id@);
        } else {
            let j0 = if j < pi { j } else { j - 1 };
            assert(outn[j]@ == out0[j0]@);
            let t = choose|t: int| 0 <= t < i && out0[j0]@ == entries[t].id@;
            assert(outn[j]@ == entries[t].id@);
        }
    }
}

/// Replacing the wager of entry `i` in place replaces its value in the
/// denoted map.
proof fn lemma_entries_map_replace(s: Seq<StoreEntry>, i: int, e2: StoreEntry)
    requires
        ids_unique(s),
        0 <= i < s.len(),
        e2.id@ == s[i].id@,
    ensures
        entries_map(s.update(i, e2)) == entries_map(s).insert(e2.id@, e2.wager@),
    decreases s.len(),
{
    let su = s.update(i, e2);
    if i == s.len() - 1 {
        assert(su.drop_last() =~= s.drop_last());
        assert(su.last() == e2);
    } else {
        assert(su.drop_last() =~= s.drop_last().update(i, e2));
        assert(ids_unique(s.drop_last()));
        assert(s.drop_last()[i].id@ == s[i].id@);
        lemma_entries_map_replace(s.drop_last(), i, e2);
        assert(su.last() == s.last());
        assert(s[i].id@ != s.last().id@);
        assert(entries_map(s.drop_last()).insert(e2.id@, e2.wager@).insert(
            s.last().id@,
            s.last().wager@,
        ) =~= entries_map(s.drop_last()).insert(s.last().id@, s.last().wager@).insert(
            e2.id@,
            e2.wager@,
        ));
    }
}

/// Removing entry `i` removes its id from the denoted map.
proof fn lemma_entries_map_remove(s: Seq<StoreEntry>, i: int)
    requires
        ids_unique(s),
        0 <= i < s.len(),
    ensures
        entries_map(s.remove(i)) == entries_map(s).remove(s[i].id@),
    decreases s.len(),
{
    let sr = s.remove(i);
    if i == s.len() - 1 {
        assert(sr =~= s.drop_last());
        lemma_entries_map(s.drop_last());
        assert(entries_map(s.drop_last()).insert(s.last().id@, s.last().wager@).remove(s[i].id@)
            =~= entries_map(s.drop_last()));
    } else {
        assert(sr.drop_last() =~= s.drop_last().remove(i));
        assert(ids_unique(s.drop_last()));
        lemma_entries_map_remove(s.drop_last(), i);
        assert(sr.last() == s.last());
        assert(s.drop_last()[i].id@ == s[i].id@);
        assert(s[i].id@ != s.last().id@);
        assert(entries_map(s.drop_last()).remove(s[i].id@).insert(s.last().id@, s.last().wager@)
            =~= entries_map(s.drop_last()).insert(s.last().id@, s.last().wager@).remove(s[i].id@));
    }
}

} // verus!
