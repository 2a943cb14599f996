//! The multi-asset balance model: bundles of native coins (keyed by
//! denomination) and cw20 token amounts (keyed by contract address),
//! with the merge and set-equality operations the wager engine needs.

use vstd::prelude::*;

verus! {

/// Abstract form of one balance entry: a key (denomination or token
/// contract address) and a non-negative amount.
pub ghost struct EntryV {
    pub key: Seq<char>,
    pub amount: int,
}

/// Index of the first entry of `s` whose key is `k`, or -1 if none.
pub open spec fn find_key(s: Seq<EntryV>, k: Seq<char>) -> int
    decreases s.len(),
{
    if s.len() == 0 {
        -1
    } else if s[0].key == k {
        0
    } else {
        let r = find_key(s.drop_first(), k);
        if r == -1 {
            -1
        } else {
            r + 1
        }
    }
}

/// The amount held under key `k`, if any.
pub open spec fn lookup(s: Seq<EntryV>, k: Seq<char>) -> Option<int> {
    let i = find_key(s, k);
    if i == -1 {
        None
    } else {
        Some(s[i].amount)
    }
}

/// Merge a single entry into a sequence of entries: amounts add when the
/// key is already present, otherwise the entry is appended.
pub open spec fn merge_one(s: Seq<EntryV>, e: EntryV) -> Seq<EntryV> {
    let i = find_key(s, e.key);
    if i == -1 {
        s.push(e)
    } else {
        s.update(i, EntryV { key: e.key, amount: s[i].amount + e.amount })
    }
}

/// Merge each entry of `inc`, in order, into `s`.
pub open spec fn merge_entries(s: Seq<EntryV>, inc: Seq<EntryV>) -> Seq<EntryV>
    decreases inc.len(),
{
    if inc.len() == 0 {
        s
    } else {
        merge_entries(merge_one(s, inc[0]), inc.drop_first())
    }
}

/// No key occurs twice.
pub open spec fn unique_keys(s: Seq<EntryV>) -> bool {
    forall|i: int, j: int| 0 <= i < j < s.len() ==> s[i].key != s[j].key
}

/// Every amount is representable as a `u128`.
pub open spec fn amounts_bounded(s: Seq<EntryV>) -> bool {
    forall|i: int| 0 <= i < s.len() ==> 0 <= #[trigger] s[i].amount <= u128::MAX
}

/// The merge of `inc` into `s` stays within `u128` at every step.
pub open spec fn merge_fits(s: Seq<EntryV>, inc: Seq<EntryV>) -> bool
    decreases inc.len(),
{
    if inc.len() == 0 {
        true
    } else {
        let i = find_key(s, inc[0].key);
        &&& (i != -1 ==> s[i].amount + inc[0].amount <= u128::MAX)
        &&& merge_fits(merge_one(s, inc[0]), inc.drop_first())
    }
}

/// Two entry sequences hold the same set of key-to-amount pairs.
pub open spec fn entries_equiv(a: Seq<EntryV>, b: Seq<EntryV>) -> bool {
    forall|k: Seq<char>| #[trigger] lookup(a, k) == #[trigger] lookup(b, k)
}

/// `find_key` returns the index of the first entry with the given key,
/// and -1 exactly when no entry has it.
pub proof fn lemma_find_key(s: Seq<EntryV>, k: Seq<char>)
    ensures
        find_key(s, k) == -1 <==> (forall|i: int| 0 <= i < s.len() ==> #[trigger] s[i].key != k),
        find_key(s, k) != -1 ==> {
            let f = find_key(s, k);
            &&& 0 <= f < s.len()
            &&& s[f].key == k
            &&& forall|j: int| 0 <= j < f ==> #[trigger] s[j].key != k
        },
    decreases s.len(),
{
    if s.len() > 0 {
        lemma_find_key(s.drop_first(), k);
        assert(forall|i: int|
            1 <= i < s.len() ==> #[trigger] s[i].key == s.drop_first()[i - 1].key);
    }
}

/// Merging a concatenation is merging one part after the other.
pub proof fn lemma_merge_entries_append(s: Seq<EntryV>, a: Seq<EntryV>, b: Seq<EntryV>)
    ensures
        merge_entries(s, a + b) == merge_entries(merge_entries(s, a), b),
    decreases a.len(),
{
    if a.len() == 0 {
        assert(a + b =~= b);
    } else {
        assert((a + b).drop_first() =~= a.drop_first() + b);
        lemma_merge_entries_append(merge_one(s, a[0]), a.drop_first(), b);
    }
}

/// Merging one entry keeps keys unique and, when the merge fits,
/// amounts bounded.
pub proof fn lemma_merge_one_wf(s: Seq<EntryV>, e: EntryV)
    requires
        unique_keys(s),
        amounts_bounded(s),
        0 <= e.amount <= u128::MAX,
        find_key(s, e.key) != -1 ==> s[find_key(s, e.key)].amount + e.amount <= u128::MAX,
    ensures
        unique_keys(merge_one(s, e)),
        amounts_bounded(merge_one(s, e)),
{
    lemma_find_key(s, e.key);
}

/// A merge that fits keeps the bundle well formed.
pub proof fn lemma_merge_entries_wf(s: Seq<EntryV>, inc: Seq<EntryV>)
    requires
        unique_keys(s),
        amounts_bounded(s),
        amounts_bounded(inc),
        merge_fits(s, inc),
    ensures
        unique_keys(merge_entries(s, inc)),
        amounts_bounded(merge_entries(s, inc)),
    decreases inc.len(),
{
    if inc.len() > 0 {
        lemma_merge_one_wf(s, inc[0]);
        assert(amounts_bounded(inc.drop_first()));
        lemma_merge_entries_wf(merge_one(s, inc[0]), inc.drop_first());
    }
}

/// Every pair of `a` is also a pair of `b`: each key of `a` holds the
/// same amount in `b`.
pub open spec fn entries_sub(a: Seq<EntryV>, b: Seq<EntryV>) -> bool {
    forall|i: int| 0 <= i < a.len() ==> #[trigger] lookup(b, a[i].key) == Some(a[i].amount)
}

/// With unique keys on both sides, set-equality is mutual containment.
pub proof fn lemma_equiv_by_sub(a: Seq<EntryV>, b: Seq<EntryV>)
    requires
        unique_keys(a),
        unique_keys(b),
    ensures
        entries_equiv(a, b) <==> (entries_sub(a, b) && entries_sub(b, a)),
{
    if entries_sub(a, b) && entries_sub(b, a) {
        assert forall|k: Seq<char>| #[trigger] lookup(a, k) == #[trigger] lookup(b, k) by {
            lemma_find_key(a, k);
            lemma_find_key(b, k);
            let fa = find_key(a, k);
            let fb = find_key(b, k);
            if fa != -1 {
                assert(lookup(b, a[fa].key) == Some(a[fa].amount));
            } else if fb != -1 {
                assert(lookup(a, b[fb].key) == Some(b[fb].amount));
                assert(false);
            }
        }
    }
    if entries_equiv(a, b) {
        assert forall|i: int| 0 <= i < a.len() implies #[trigger] lookup(b, a[i].key) == Some(
            a[i].amount,
        ) by {
            let k = a[i].key;
            lemma_find_key(a, k);
            let fa = find_key(a, k);
            assert(fa != -1);
            assert(fa == i) by {
                if fa < i {
                    assert(a[fa].key != a[i].key);
                } else if fa > i {
                    assert(a[i].key != a[fa].key);
                }
            }
            assert(lookup(b, k) == lookup(a, k));
        }
        assert forall|i: int| 0 <= i < b.len() implies #[trigger] lookup(a, b[i].key) == Some(
            b[i].amount,
        ) by {
            let k = b[i].key;
            lemma_find_key(b, k);
            let fb = find_key(b, k);
            assert(fb != -1);
            assert(fb == i) by {
                if fb < i {
                    assert(b[fb].key != b[i].key);
                } else if fb > i {
                    assert(b[i].key != b[fb].key);
                }
            }
            assert(lookup(a, k) == lookup(b, k));
        }
    }
}

/// Abstract form of a whole bundle: native entries and cw20 entries.
#[verifier::ext_equal]
pub ghost struct BalV {
    pub native: Seq<EntryV>,
    pub cw20: Seq<EntryV>,
}

/// The bundle invariant: unique keys on both sides, amounts
/// representable as `u128`.
pub open spec fn bal_wf(b: BalV) -> bool {
    &&& unique_keys(b.native)
    &&& unique_keys(b.cw20)
    &&& amounts_bounded(b.native)
    &&& amounts_bounded(b.cw20)
}

/// The bundle with no entries at all.
pub open spec fn empty_bal() -> BalV {
    BalV { native: Seq::empty(), cw20: Seq::empty() }
}

/// Merge an incoming bundle into a target bundle, side by side.
pub open spec fn merge_bal(t: BalV, inc: BalV) -> BalV {
    BalV { native: merge_entries(t.native, inc.native), cw20: merge_entries(t.cw20, inc.cw20) }
}

/// The whole merge stays within `u128`.
pub open spec fn bal_fits(t: BalV, inc: BalV) -> bool {
    merge_fits(t.native, inc.native) && merge_fits(t.cw20, inc.cw20)
}

/// Set-equality of bundles: the same keys hold the same amounts on
/// both sides, regardless of entry order.
pub open spec fn bal_equiv(a: BalV, b: BalV) -> bool {
    entries_equiv(a.native, b.native) && entries_equiv(a.cw20, b.cw20)
}

/// A native asset holding: an amount of one denomination.
#[derive(Debug)]
pub struct Coin {
    pub denom: String,
    pub amount: u128,
}

impl View for Coin {
    type V = EntryV;

    open spec fn view(&self) -> EntryV {
        EntryV { key: self.denom@, amount: self.amount as int }
    }
}

impl Clone for Coin {
    fn clone(&self) -> (res: Self)
        ensures
            res == *self,
    {
        Coin { denom: self.denom.clone(), amount: self.amount }
    }
}

/// A cw20 token holding: an amount owed by one token contract.
#[derive(Debug)]
pub struct Cw20Coin {
    pub address: String,
    pub amount: u128,
}

impl View for Cw20Coin {
    type V = EntryV;

    open spec fn view(&self) -> EntryV {
        EntryV { key: self.address@, amount: self.amount as int }
    }
}

impl Clone for Cw20Coin {
    fn clone(&self) -> (res: Self)
        ensures
            res == *self,
    {
        Cw20Coin { address: self.address.clone(), amount: self.amount }
    }
}

/// What a caller attached to a call: either a bundle of native coins or
/// a single cw20 token amount.
#[derive(Debug)]
pub enum Balance {
    Native(Vec<Coin>),
    Cw20(Cw20Coin),
}

/// The entries of a sequence of native coins.
pub open spec fn coin_entries(s: Seq<Coin>) -> Seq<EntryV> {
    s.map_values(|c: Coin| c@)
}

/// The entries of a sequence of cw20 holdings.
pub open spec fn token_entries(s: Seq<Cw20Coin>) -> Seq<EntryV> {
    s.map_values(|c: Cw20Coin| c@)
}

impl View for Balance {
    type V = BalV;

    open spec fn view(&self) -> BalV {
        match self {
            Balance::Native(coins) => BalV { native: coin_entries(coins@), cw20: Seq::empty() },
            Balance::Cw20(token) => BalV { native: Seq::empty(), cw20: seq![token@] },
        }
    }
}

/// An aggregated holding of native and cw20 amounts.
#[derive(Debug)]
pub struct GenericBalance {
    pub native: Vec<Coin>,
    pub cw20: Vec<Cw20Coin>,
}

impl View for GenericBalance {
    type V = BalV;

    open spec fn view(&self) -> BalV {
        BalV { native: coin_entries(self.native@), cw20: token_entries(self.cw20@) }
    }
}

impl Clone for GenericBalance {
    fn clone(&self) -> (res: Self)
        ensures
            res@ == self@,
    {
        let mut native: Vec<Coin> = Vec::new();
        let mut cw20: Vec<Cw20Coin> = Vec::new();
        let mut i: usize = 0;
        while i < self.native.len()
            invariant
                i <= self.native@.len(),
                native@ =~= self.native@.take(i as int),
            decreases self.native@.len() - i,
        {
            native.push(self.native[i].clone());
            i = i + 1;
        }
        let mut j: usize = 0;
        while j < self.cw20.len()
            invariant
                j <= self.cw20@.len(),
                cw20@ =~= self.cw20@.take(j as int),
            decreases self.cw20@.len() - j,
        {
            cw20.push(self.cw20[j].clone());
            j = j + 1;
        }
        proof {
            assert(native@ =~= self.native@);
            assert(cw20@ =~= self.cw20@);
        }
        GenericBalance { native, cw20 }
    }
}

impl GenericBalance {
    /// The bundle invariant, at the executable type.
    pub open spec fn wf(&self) -> bool {
        bal_wf(self@)
    }

    /// A bundle with no native or token entries.
    pub fn new() -> (b: GenericBalance)
        ensures
            b@ == empty_bal(),
            b.wf(),
    {
        let b = GenericBalance { native: Vec::new(), cw20: Vec::new() };
        proof {
            assert(b@ =~= empty_bal());
        }
        b
    }
}

impl Balance {
    /// Whether this attachment is a well-formed bundle: no key occurs
    /// twice.
    pub fn is_wf(&self) -> (r: bool)
        ensures
            r == bal_wf(self@),
    {
        match self {
            Balance::Native(coins) => {
                let ghost es = coin_entries(coins@);
                let n = coins.len();
                let mut i: usize = 0;
                while i < n
                    invariant
                        es == coin_entries(coins@),
                        self@ == (BalV { native: es, cw20: Seq::<EntryV>::empty() }),
                        n == coins@.len(),
                        i <= n,
                        forall|p: int, q: int| 0 <= p < q < i ==> es[p].key != es[q].key,
                    decreases n - i,
                {
                    let mut j: usize = 0;
                    while j < i
                        invariant
                            es == coin_entries(coins@),
                            self@ == (BalV { native: es, cw20: Seq::<EntryV>::empty() }),
                            n == coins@.len(),
                            j <= i < n,
                            forall|p: int| 0 <= p < j ==> es[p].key != es[i as int].key,
                        decreases i - j,
                    {
                        if coins[j].denom == coins[i].denom {
                            proof {
                                assert(es[j as int].key == es[i as int].key);
                                assert(!unique_keys(es));
                            }
                            return false;
                        }
                        j = j + 1;
                    }
                    i = i + 1;
                }
                proof {
                    assert(unique_keys(es));
                    assert(amounts_bounded(es)) by {
                        assert(forall|p: int| 0 <= p < es.len() ==> #[trigger] es[p].amount
                            == coins@[p].amount as int);
                    }
                    assert(unique_keys(Seq::<EntryV>::empty()));
                    assert(amounts_bounded(Seq::<EntryV>::empty()));
                }
                true
            }
            Balance::Cw20(token) => {
                proof {
                    let es = seq![token@];
                    assert(unique_keys(es));
                    assert(amounts_bounded(es)) by {
                        assert(es[0].amount == token.amount as int);
                    }
                    assert(unique_keys(Seq::<EntryV>::empty()));
                    assert(amounts_bounded(Seq::<EntryV>::empty()));
                }
                true
            }
        }
    }
}

/// Index of the first coin with the given denomination, if any.
fn find_coin(v: &Vec<Coin>, key: &String) -> (r: Option<usize>)
    ensures
        match r {
            Some(i) => i < v@.len() && find_key(coin_entries(v@), key@) == i as int,
            None => find_key(coin_entries(v@), key@) == -1,
        },
{
    let n = v.len();
    let mut i: usize = 0;
    while i < n
        invariant
            n == v@.len(),
            i <= n,
            forall|j: int| 0 <= j < i ==> #[trigger] coin_entries(v@)[j].key != key@,
        decreases n - i,
    {
        if v[i].denom == *key {
            proof {
                let s = coin_entries(v@);
                assert(s[i as int].key == key@);
                lemma_find_key(s, key@);
                let f = find_key(s, key@);
                assert(f != -1);
                assert(!(f < i)) by {
                    if 0 <= f < i {
                        assert(s[f].key != key@);
                    }
                }
                assert(!(f > i)) by {
                    if f > i {
                        assert(s[i as int].key != key@);
                    }
                }
            }
            return Some(i);
        }
        i = i + 1;
    }
    proof {
        lemma_find_key(coin_entries(v@), key@);
    }
    None
}

/// Merge one coin into a native side, adding amounts on an existing
/// denomination and appending otherwise.
fn merge_coin(v: &mut Vec<Coin>, c: Coin)
    requires
        ({
            let s = coin_entries(old(v)@);
            let f = find_key(s, c@.key);
            f != -1 ==> s[f].amount + c@.amount <= u128::MAX
        }),
    ensures
        coin_entries(final(v)@) == merge_one(coin_entries(old(v)@), c@),
{
    let ghost s0 = coin_entries(v@);
    match find_coin(v, &c.denom) {
        Some(i) => {
            proof {
                lemma_find_key(s0, c@.key);
                assert(s0[i as int].key == c@.key);
                assert(s0[i as int].amount == v@[i as int]@.amount);
            }
            let added = v[i].amount + c.amount;
            v[i].amount = added;
            proof {
                assert(coin_entries(v@) =~= merge_one(s0, c@));
            }
        }
        None => {
            v.push(c);
            proof {
                assert(coin_entries(v@) =~= merge_one(s0, c@));
            }
        }
    }
}

/// Index of the first token entry with the given contract address, if any.
fn find_token(v: &Vec<Cw20Coin>, key: &String) -> (r: Option<usize>)
    ensures
        match r {
            Some(i) => i < v@.len() && find_key(token_entries(v@), key@) == i as int,
            None => find_key(token_entries(v@), key@) == -1,
        },
{
    let n = v.len();
    let mut i: usize = 0;
    while i < n
        invariant
            n == v@.len(),
            i <= n,
            forall|j: int| 0 <= j < i ==> #[trigger] token_entries(v@)[j].key != key@,
        decreases n - i,
    {
        if v[i].address == *key {
            proof {
                let s = token_entries(v@);
                assert(s[i as int].key == key@);
                lemma_find_key(s, key@);
                let f = find_key(s, key@);
                assert(f != -1);
                assert(!(f < i)) by {
                    if 0 <= f < i {
                        assert(s[f].key != key@);
                    }
                }
                assert(!(f > i)) by {
                    if f > i {
                        assert(s[i as int].key != key@);
                    }
                }
            }
            return Some(i);
        }
        i = i + 1;
    }
    proof {
        lemma_find_key(token_entries(v@), key@);
    }
    None
}

/// Merge one token amount into a cw20 side.
fn merge_token(v: &mut Vec<Cw20Coin>, c: Cw20Coin)
    requires
        ({
            let s = token_entries(old(v)@);
            let f = find_key(s, c@.key);
            f != -1 ==> s[f].amount + c@.amount <= u128::MAX
        }),
    ensures
        token_entries(final(v)@) == merge_one(token_entries(old(v)@), c@),
{
    let ghost s0 = token_entries(v@);
    match find_token(v, &c.address) {
        Some(i) => {
            proof {
                lemma_find_key(s0, c@.key);
                assert(s0[i as int].key == c@.key);
                assert(s0[i as int].amount == v@[i as int]@.amount);
            }
            let added = v[i].amount + c.amount;
            v[i].amount = added;
            proof {
                assert(token_entries(v@) =~= merge_one(s0, c@));
            }
        }
        None => {
            v.push(c);
            proof {
                assert(token_entries(v@) =~= merge_one(s0, c@));
            }
        }
    }
}

/// The amount `v` holds under the given denomination, if any.
fn coin_amount(v: &Vec<Coin>, key: &String) -> (r: Option<u128>)
    ensures
        match r {
            Some(x) => lookup(coin_entries(v@), key@) == Some(x as int),
            None => lookup(coin_entries(v@), key@) is None,
        },
{
    match find_coin(v, key) {
        Some(i) => Some(v[i].amount),
        None => None,
    }
}

/// The amount `v` holds under the given token contract address, if any.
fn token_amount(v: &Vec<Cw20Coin>, key: &String) -> (r: Option<u128>)
    ensures
        match r {
            Some(x) => lookup(token_entries(v@), key@) == Some(x as int),
            None => lookup(token_entries(v@), key@) is None,
        },
{
    match find_token(v, key) {
        Some(i) => Some(v[i].amount),
        None => None,
    }
}

/// Whether every pair of `a` also stands in `b`.
fn coins_covered(a: &Vec<Coin>, b: &Vec<Coin>) -> (r: bool)
    ensures
        r == entries_sub(coin_entries(a@), coin_entries(b@)),
{
    let n = a.len();
    let mut i: usize = 0;
    while i < n
        invariant
            n == a@.len(),
            i <= n,
            forall|j: int| 0 <= j < i ==> #[trigger] lookup(coin_entries(b@), coin_entries(a@)[j].key)
                == Some(coin_entries(a@)[j].amount),
        decreases n - i,
    {
        let ok = match coin_amount(b, &a[i].denom) {
            Some(x) => x == a[i].amount,
            None => false,
        };
        if !ok {
            proof {
                let ae = coin_entries(a@);
                assert(ae[i as int].key == a@[i as int].denom@);
                assert(ae[i as int].amount == a@[i as int].amount as int);
                assert(lookup(coin_entries(b@), ae[i as int].key) != Some(ae[i as int].amount));
            }
            return false;
        }
        i = i + 1;
    }
    true
}

/// Whether every pair of `a` also stands in `b`.
fn tokens_covered(a: &Vec<Cw20Coin>, b: &Vec<Cw20Coin>) -> (r: bool)
    ensures
        r == entries_sub(token_entries(a@), token_entries(b@)),
{
    let n = a.len();
    let mut i: usize = 0;
    while i < n
        invariant
            n == a@.len(),
            i <= n,
            forall|j: int| 0 <= j < i ==> #[trigger] lookup(
                token_entries(b@),
                token_entries(a@)[j].key,
            ) == Some(token_entries(a@)[j].amount),
        decreases n - i,
    {
        let ok = match token_amount(b, &a[i].address) {
            Some(x) => x == a[i].amount,
            None => false,
        };
        if !ok {
            proof {
                let ae = token_entries(a@);
                assert(ae[i as int].key == a@[i as int].address@);
                assert(ae[i as int].amount == a@[i as int].amount as int);
                assert(lookup(token_entries(b@), ae[i as int].key) != Some(ae[i as int].amount));
            }
            return false;
        }
        i = i + 1;
    }
    true
}

impl GenericBalance {
    /// Merge an incoming balance into this bundle: amounts add on a key
    /// already present, other entries are appended; no key is ever
    /// removed.
    pub fn add_tokens(&mut self, add: Balance)
        requires
            bal_fits(old(self)@, add@),
        ensures
            final(self)@ == merge_bal(old(self)@, add@),
            bal_wf(old(self)@) ==> final(self).wf(),
    {
        let ghost t0 = self@;
        match add {
            Balance::Native(coins) => {
                let ghost inc = coin_entries(coins@);
                let n = coins.len();
                proof {
                    assert(inc.take(0) =~= Seq::<EntryV>::empty());
                    assert(inc.skip(0) =~= inc);
                    assert(t0.cw20 == token_entries(self.cw20@));
                }
                let mut i: usize = 0;
                while i < n
                    invariant
                        inc == coin_entries(coins@),
                        n == coins@.len(),
                        inc.len() == n,
                        i <= n,
                        coin_entries(self.native@) == merge_entries(t0.native, inc.take(i as int)),
                        merge_fits(coin_entries(self.native@), inc.skip(i as int)),
                        token_entries(self.cw20@) == t0.cw20,
                    decreases n - i,
                {
                    let ghost s_cur = coin_entries(self.native@);
                    let c = coins[i].clone();
                    proof {
                        let sk = inc.skip(i as int);
                        assert(sk.len() > 0);
                        assert(sk[0] == inc[i as int]);
                        assert(c@ == inc[i as int]);
                        assert(merge_fits(s_cur, sk));
                        assert(find_key(s_cur, sk[0].key) != -1 ==> s_cur[find_key(
                            s_cur,
                            sk[0].key,
                        )].amount + sk[0].amount <= u128::MAX);
                    }
                    merge_coin(&mut self.native, c);
                    proof {
                        assert(inc.take(i as int + 1) =~= inc.take(i as int) + seq![inc[i as int]]);
                        lemma_merge_entries_append(t0.native, inc.take(i as int), seq![inc[i as int]]);
                        assert(merge_entries(s_cur, seq![inc[i as int]]) == merge_one(s_cur, inc[i as int]))
                            by {
                            let one = seq![inc[i as int]];
                            assert(one.len() == 1);
                            assert(one[0] == inc[i as int]);
                            assert(one.drop_first() =~= Seq::<EntryV>::empty());
                            assert(merge_entries(merge_one(s_cur, one[0]), Seq::<EntryV>::empty())
                                == merge_one(s_cur, one[0]));
                            assert(merge_entries(s_cur, one) == merge_entries(
                                merge_one(s_cur, one[0]),
                                one.drop_first(),
                            ));
                        }
                        assert(inc.skip(i as int).drop_first() =~= inc.skip(i as int + 1));
                    }
                    i = i + 1;
                }
                proof {
                    assert(inc.take(n as int) =~= inc);
                    assert(self@ =~= merge_bal(t0, BalV { native: inc, cw20: Seq::empty() }));
                    if bal_wf(t0) {
                        assert(forall|j: int|
                            0 <= j < inc.len() ==> 0 <= #[trigger] inc[j].amount <= u128::MAX);
                        lemma_merge_entries_wf(t0.native, inc);
                    }
                }
            }
            Balance::Cw20(token) => {
                let ghost inc = seq![token@];
                proof {
                    assert(inc[0] == token@);
                    assert(inc.drop_first() =~= Seq::<EntryV>::empty());
                }
                merge_token(&mut self.cw20, token);
                proof {
                    assert(merge_entries(t0.cw20, inc) == merge_one(t0.cw20, inc[0])) by {
                        assert(inc.drop_first() =~= Seq::<EntryV>::empty());
                        assert(merge_entries(merge_one(t0.cw20, inc[0]), Seq::<EntryV>::empty())
                            == merge_one(t0.cw20, inc[0]));
                    }
                    assert(merge_entries(t0.native, Seq::<EntryV>::empty()) == t0.native);
                    assert(self@ =~= merge_bal(t0, BalV { native: Seq::empty(), cw20: inc }));
                    if bal_wf(t0) {
                        lemma_merge_entries_wf(t0.cw20, inc);
                    }
                }
            }
        }
    }

    /// Set-equality: both bundles hold the same key-to-amount pairs on
    /// the native side and on the cw20 side, in any entry order.
    pub fn equals(&self, other: &GenericBalance) -> (r: bool)
        requires
            self.wf(),
            other.wf(),
        ensures
            r == bal_equiv(self@, other@),
    {
        proof {
            lemma_equiv_by_sub(self@.native, other@.native);
            lemma_equiv_by_sub(self@.cw20, other@.cw20);
        }
        let native_ok = coins_covered(&self.native, &other.native) && coins_covered(
            &other.native,
            &self.native,
        );
        let cw20_ok = tokens_covered(&self.cw20, &other.cw20) && tokens_covered(
            &other.cw20,
            &self.cw20,
        );
        native_ok && cw20_ok
    }

    /// Whether merging `add` into this bundle stays within `u128`
    /// everywhere, so that `add_tokens` may be called.
    pub fn can_add(&self, add: &Balance) -> (r: bool)
        ensures
            r == bal_fits(self@, add@),
    {
        let ghost t0 = self@;
        match add {
            Balance::Native(coins) => {
                proof {
                    assert(merge_fits(t0.cw20, Seq::<EntryV>::empty()));
                }
                let mut scratch = self.clone().native;
                let ghost inc = coin_entries(coins@);
                let n = coins.len();
                proof {
                    assert(inc.take(0) =~= Seq::<EntryV>::empty());
                    assert(inc.skip(0) =~= inc);
                }
                let mut i: usize = 0;
                while i < n
                    invariant
                        inc == coin_entries(coins@),
                        n == coins@.len(),
                        inc.len() == n,
                        i <= n,
                        t0 == self@,
                        add@ == (BalV { native: inc, cw20: Seq::<EntryV>::empty() }),
                        merge_fits(t0.cw20, Seq::<EntryV>::empty()),
                        coin_entries(scratch@) == merge_entries(t0.native, inc.take(i as int)),
                        merge_fits(t0.native, inc) == merge_fits(
                            coin_entries(scratch@),
                            inc.skip(i as int),
                        ),
                    decreases n - i,
                {
                    let ghost s_cur = coin_entries(scratch@);
                    let c = coins[i].clone();
                    proof {
                        let sk = inc.skip(i as int);
                        assert(sk.len() > 0);
                        assert(sk[0] == inc[i as int]);
                        assert(c@ == inc[i as int]);
                        lemma_find_key(s_cur, c@.key);
                    }
                    match find_coin(&scratch, &c.denom) {
                        Some(j) => {
                            if c.amount > u128::MAX - scratch[j].amount {
                                proof {
                                    let sk = inc.skip(i as int);
                                    assert(s_cur[find_key(s_cur, sk[0].key)].amount + sk[0].amount
                                        > u128::MAX);
                                    assert(!merge_fits(s_cur, sk));
                                }
                                return false;
                            }
                        }
                        None => {}
                    }
                    merge_coin(&mut scratch, c);
                    proof {
                        let sk = inc.skip(i as int);
                        assert(inc.take(i as int + 1) =~= inc.take(i as int) + seq![inc[i as int]]);
                        lemma_merge_entries_append(t0.native, inc.take(i as int), seq![inc[i as int]]);
                        assert(merge_entries(s_cur, seq![inc[i as int]]) == merge_one(
                            s_cur,
                            inc[i as int],
                        )) by {
                            let one = seq![inc[i as int]];
                            assert(one.drop_first() =~= Seq::<EntryV>::empty());
                            assert(merge_entries(merge_one(s_cur, one[0]), Seq::<EntryV>::empty())
                                == merge_one(s_cur, one[0]));
                        }
                        assert(sk.drop_first() =~= inc.skip(i as int + 1));
                    }
                    i = i + 1;
                }
                proof {
                    assert(inc.skip(n as int) =~= Seq::<EntryV>::empty());
                    assert(merge_fits(coin_entries(scratch@), Seq::<EntryV>::empty()));
                }
                true
            }
            Balance::Cw20(token) => {
                proof {
                    assert(merge_fits(t0.native, Seq::<EntryV>::empty()));
                    assert(seq![token@].drop_first() =~= Seq::<EntryV>::empty());
                    lemma_find_key(t0.cw20, token@.key);
                }
                match find_token(&self.cw20, &token.address) {
                    Some(j) => {
                        if token.amount > u128::MAX - self.cw20[j].amount {
                            proof {
                                assert(!merge_fits(t0.cw20, seq![token@]));
                            }
                            false
                        } else {
                            proof {
                                assert(merge_fits(
                                    merge_one(t0.cw20, token@),
                                    Seq::<EntryV>::empty(),
                                ));
                            }
                            true
                        }
                    }
                    None => {
                        proof {
                            assert(merge_fits(merge_one(t0.cw20, token@), Seq::<EntryV>::empty()));
                        }
                        true
                    }
                }
            }
        }
    }
}

} // verus!
