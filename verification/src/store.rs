//! The keyed store: a mapping from byte-string keys to values with optional
//! absolute expiry, read with lazy-expiry semantics.

use vstd::prelude::*;

use crate::text::{copy_bytes, eq_bytes};

verus! {

/// A stored value together with its optional absolute expiry, a timestamp in
/// milliseconds on the caller's clock.
pub struct StoreValue {
    pub value: Vec<u8>,
    pub expiry: Option<u64>,
}

/// The model of one entry.
pub struct EntryModel {
    pub value: Seq<u8>,
    pub expiry: Option<u64>,
}

impl View for StoreValue {
    type V = EntryModel;

    open spec fn view(&self) -> EntryModel {
        EntryModel { value: self.value@, expiry: self.expiry }
    }
}

/// An entry is visible at `now` when it has no expiry or its expiry lies
/// strictly in the future; an expired entry is logically absent even while it
/// sits in the map.
pub open spec fn entry_live(e: EntryModel, now: u64) -> bool {
    match e.expiry {
        Option::None => true,
        Option::Some(t) => t > now,
    }
}

/// What a lookup of `k` at time `now` returns on store model `m`.
pub open spec fn store_lookup(m: Map<Seq<u8>, EntryModel>, k: Seq<u8>, now: u64) -> Option<
    Seq<u8>,
> {
    if m.contains_key(k) && entry_live(m[k], now) {
        Some(m[k].value)
    } else {
        None
    }
}

/// What storing `v` under `k` does to store model `m`: a relative expiry of
/// `d` milliseconds becomes the absolute timestamp `now + d`.
pub open spec fn store_set_model(
    m: Map<Seq<u8>, EntryModel>,
    k: Seq<u8>,
    v: Seq<u8>,
    expire_after: Option<u64>,
    now: u64,
) -> Map<Seq<u8>, EntryModel> {
    m.insert(k, EntryModel { value: v, expiry: abs_expiry(expire_after, now) })
}

/// The absolute expiry a relative one stands for at time `now`.
pub open spec fn abs_expiry(expire_after: Option<u64>, now: u64) -> Option<u64> {
    match expire_after {
        Option::None => None,
        Option::Some(d) => Some(px_expiry(now, d)),
    }
}

/// The absolute expiry of a relative one: `now + d`, saturating at the top of
/// the clock.
pub open spec fn px_expiry(now: u64, d: u64) -> u64 {
    if now + d <= u64::MAX {
        (now + d) as u64
    } else {
        u64::MAX
    }
}

/// The map a list of entries stands for; a later entry for a key would win.
spec fn entries_map(s: Seq<(Vec<u8>, StoreValue)>) -> Map<Seq<u8>, EntryModel>
    decreases s.len(),
{
    if s.len() == 0 {
        Map::empty()
    } else {
        entries_map(s.drop_last()).insert(s.last().0@, s.last().1@)
    }
}

/// A key is in the map exactly when some entry holds it.
proof fn lemma_entries_map_membership(s: Seq<(Vec<u8>, StoreValue)>, k: Seq<u8>)
    ensures
        entries_map(s).contains_key(k) <==> exists|i: int|
            0 <= i < s.len() && (#[trigger] s[i]).0@ == k,
    decreases s.len(),
{
    if s.len() > 0 {
        lemma_entries_map_membership(s.drop_last(), k);
        if s.last().0@ == k {
            assert(s[s.len() - 1].0@ == k);
        } else if entries_map(s).contains_key(k) {
            let i = choose|i: int| 0 <= i < s.len() - 1 && (#[trigger] s.drop_last()[i]).0@ == k;
            assert(s[i].0@ == k);
        } else {
            assert forall|i: int| 0 <= i < s.len() implies (#[trigger] s[i]).0@ != k by {
                if i < s.len() - 1 {
                    assert(s.drop_last()[i] == s[i]);
                }
            }
        }
    }
}

/// With unique keys, the map holds each entry's value under its key.
proof fn lemma_entries_map_value(s: Seq<(Vec<u8>, StoreValue)>, i: int)
    requires
        0 <= i < s.len(),
        forall|a: int, b: int|
            0 <= a < b < s.len() ==> (#[trigger] s[a]).0@ != (#[trigger] s[b]).0@,
    ensures
        entries_map(s)[s[i].0@] == s[i].1@,
        entries_map(s).contains_key(s[i].0@),
    decreases s.len(),
{
    if i == s.len() - 1 {
    } else {
        assert forall|a: int, b: int|
            0 <= a < b < s.len() - 1 implies (#[trigger] s.drop_last()[a]).0@ != (
        #[trigger] s.drop_last()[b]).0@ by {
            assert(s.drop_last()[a] == s[a]);
            assert(s.drop_last()[b] == s[b]);
        }
        assert(s.drop_last()[i] == s[i]);
        lemma_entries_map_value(s.drop_last(), i);
        assert(s[i].0@ != s.last().0@);
    }
}

/// The shared mapping from key to entry. Keys are unique; the list order
/// carries no meaning.
pub struct Store {
    entries: Vec<(Vec<u8>, StoreValue)>,
}

impl View for Store {
    type V = Map<Seq<u8>, EntryModel>;

    closed spec fn view(&self) -> Map<Seq<u8>, EntryModel> {
        entries_map(self.entries@)
    }
}

impl Store {
    /// No two entries hold the same key.
    pub closed spec fn wf(self) -> bool {
        forall|a: int, b: int|
            0 <= a < b < self.entries@.len() ==> (#[trigger] self.entries@[a]).0@ != (
            #[trigger] self.entries@[b]).0@
    }

    /// An empty store.
    pub fn new() -> (s: Store)
        ensures
            s.wf(),
            s@ == Map::<Seq<u8>, EntryModel>::empty(),
    {
        Store { entries: Vec::new() }
    }

    /// Inserts or overwrites the entry for `key`. A duration sets the expiry
    /// to `now` plus that many milliseconds; `None` means the entry never
    /// expires, and it replaces any earlier expiry. Always succeeds.
    pub fn set(&mut self, key: Vec<u8>, value: Vec<u8>, expire_after: Option<u64>, now: u64)
        requires
            old(self).wf(),
        ensures
            final(self).wf(),
            final(self)@ == store_set_model(old(self)@, key@, value@, expire_after, now),
    {
        let expiry: Option<u64> = match expire_after {
            Some(d) => Some(
                if d <= u64::MAX - now {
                    now + d
                } else {
                    u64::MAX
                },
            ),
            None => None,
        };
        let n = self.entries.len();
        let mut i: usize = 0;
        while i < n
            invariant
                i <= n,
                n == self.entries@.len(),
                *self == *old(self),
                self.wf(),
                expiry == abs_expiry(expire_after, now),
                forall|j: int| 0 <= j < i ==> (#[trigger] self.entries@[j]).0@ != key@,
            decreases n - i,
        {
            if eq_bytes(&self.entries[i].0, &key) {
                proof {
                    lemma_set_at_index(
                        self.entries@,
                        i as int,
                        (key, StoreValue { value: value, expiry: expiry }),
                    );
                }
                self.entries.set(i, (key, StoreValue { value, expiry }));
                return ;
            }
            i += 1;
        }
        proof {
            assert(self.entries@.push((key, StoreValue { value: value, expiry })).drop_last()
                =~= self.entries@);
            assert forall|a: int, b: int|
                0 <= a < b < self.entries@.len() + 1 implies (#[trigger] self.entries@.push(
                (key, StoreValue { value: value, expiry }),
            )[a]).0@ != (#[trigger] self.entries@.push(
                (key, StoreValue { value: value, expiry }),
            )[b]).0@ by {
                if b < self.entries@.len() {
                } else {
                    assert(self.entries@.push((key, StoreValue { value: value, expiry }))[a]
                        == self.entries@[a]);
                }
            }
        }
        self.entries.push((key, StoreValue { value, expiry }));
    }

    /// Looks `key` up at time `now`: the value if the entry is present and
    /// live, absent otherwise — also when the entry merely expired.
    pub fn get(&self, key: &Vec<u8>, now: u64) -> (r: Option<Vec<u8>>)
        requires
            self.wf(),
        ensures
            match r {
                Some(v) => store_lookup(self@, key@, now) == Some(v@),
                None => store_lookup(self@, key@, now) is None,
            },
    {
        let n = self.entries.len();
        let mut i: usize = 0;
        while i < n
            invariant
                i <= n,
                n == self.entries@.len(),
                self.wf(),
                forall|j: int| 0 <= j < i ==> (#[trigger] self.entries@[j]).0@ != key@,
            decreases n - i,
        {
            if eq_bytes(&self.entries[i].0, key) {
                proof {
                    lemma_entries_map_value(self.entries@, i as int);
                }
                let live = match self.entries[i].1.expiry {
                    Some(t) => t > now,
                    None => true,
                };
                if live {
                    return Some(copy_bytes(&self.entries[i].1.value));
                } else {
                    return None;
                }
            }
            i += 1;
        }
        proof {
            lemma_entries_map_membership(self.entries@, key@);
        }
        None
    }
}

/// Replacing the entry at `i` by one with the same key updates the map at
/// that key and keeps the keys unique.
proof fn lemma_set_at_index(s: Seq<(Vec<u8>, StoreValue)>, i: int, p: (Vec<u8>, StoreValue))
    requires
        0 <= i < s.len(),
        s[i].0@ == p.0@,
        forall|a: int, b: int|
            0 <= a < b < s.len() ==> (#[trigger] s[a]).0@ != (#[trigger] s[b]).0@,
    ensures
        entries_map(s.update(i, p)) == entries_map(s).insert(p.0@, p.1@),
        forall|a: int, b: int|
            0 <= a < b < s.len() ==> (#[trigger] s.update(i, p)[a]).0@ != (#[trigger] s.update(
                i,
                p,
            )[b]).0@,
    decreases s.len(),
{
    let s2 = s.update(i, p);
    assert forall|a: int, b: int| 0 <= a < b < s.len() implies (#[trigger] s2[a]).0@ != (
    #[trigger] s2[b]).0@ by {
        assert(s2[a].0@ == s[a].0@);
        assert(s2[b].0@ == s[b].0@);
    }
    if i == s.len() - 1 {
        assert(s2.drop_last() =~= s.drop_last());
        assert(s2.last() == p);
        assert(entries_map(s2) =~= entries_map(s).insert(p.0@, p.1@));
    } else {
        assert(s2.drop_last() =~= s.drop_last().update(i, p));
        assert(s2.last() == s.last());
        assert(s.drop_last()[i] == s[i]);
        assert forall|a: int, b: int|
            0 <= a < b < s.len() - 1 implies (#[trigger] s.drop_last()[a]).0@ != (
        #[trigger] s.drop_last()[b]).0@ by {
            assert(s.drop_last()[a] == s[a]);
            assert(s.drop_last()[b] == s[b]);
        }
        lemma_set_at_index(s.drop_last(), i, p);
        assert(p.0@ != s.last().0@) by {
            assert(s[i].0@ != s[s.len() - 1].0@);
        }
        assert(entries_map(s2) =~= entries_map(s).insert(p.0@, p.1@));
    }
}

/// Every value of a store model fits in memory. Trivial of a store that
/// exists, but stated where a law needs it of a model alone.
pub open spec fn store_model_wf(m: Map<Seq<u8>, EntryModel>) -> bool {
    forall|k: Seq<u8>| m.contains_key(k) ==> (#[trigger] m[k]).value.len() <= usize::MAX
}

/// A store that exists in memory satisfies `store_model_wf`.
pub proof fn lemma_store_model_wf(s: Store)
    requires
        s.wf(),
    ensures
        store_model_wf(s@),
{
    broadcast use vstd::std_specs::vec::group_vec_axioms;

    assert forall|k: Seq<u8>| s@.contains_key(k) implies (#[trigger] s@[k]).value.len()
        <= usize::MAX by {
        lemma_entries_map_membership(s.entries@, k);
        let i = choose|i: int| 0 <= i < s.entries@.len() && (#[trigger] s.entries@[i]).0@ == k;
        lemma_entries_map_value(s.entries@, i);
        let v = s.entries@[i].1.value;
        assert(v.len() == v@.len());
    }
}

// ---------------------------------------------------------------------------
// Laws of expiry
// ---------------------------------------------------------------------------

/// Expiry semantics: after storing `v` under `k` at time `now` with a
/// relative expiry of `d` milliseconds, a lookup strictly before `now + d`
/// returns `v`, and a lookup at or after `now + d` finds the key absent.
pub proof fn lemma_expiry_semantics(
    m: Map<Seq<u8>, EntryModel>,
    k: Seq<u8>,
    v: Seq<u8>,
    now: u64,
    d: u64,
    t: u64,
)
    ensures
        t < px_expiry(now, d) ==> store_lookup(store_set_model(m, k, v, Some(d), now), k, t)
            == Some(v),
        t >= px_expiry(now, d) ==> store_lookup(store_set_model(m, k, v, Some(d), now), k, t)
            is None,
{
}

/// A value stored without expiry stays visible at every later time.
pub proof fn lemma_no_expiry_persists(
    m: Map<Seq<u8>, EntryModel>,
    k: Seq<u8>,
    v: Seq<u8>,
    now: u64,
    t: u64,
)
    ensures
        store_lookup(store_set_model(m, k, v, None, now), k, t) == Some(v),
{
}

/// Overwrite: a later unconditional set replaces both the value and any
/// earlier expiry, so the key stays visible at every time.
pub proof fn lemma_overwrite_clears_expiry(
    m: Map<Seq<u8>, EntryModel>,
    k: Seq<u8>,
    v1: Seq<u8>,
    v2: Seq<u8>,
    e1: Option<u64>,
    now1: u64,
    now2: u64,
    t: u64,
)
    ensures
        store_lookup(
            store_set_model(store_set_model(m, k, v1, e1, now1), k, v2, None, now2),
            k,
            t,
        ) == Some(v2),
{
}

} // verus!
