//! Breedable-creature registry ("creature registry").
//!
//! The registry owns the creature records, the identifier counter, the
//! ownership map and its holdings index, and the four relationship maps
//! (parents, children, siblings, partners). It exposes three transitions —
//! `create`, `transfer`, `breed` — each of which checks every precondition
//! before any write: on failure it returns a named error and the registry
//! is left exactly as it was, the event log included. On success exactly
//! one record (`Created`, `Transferred`, `Breed`) is appended to the log;
//! delivering the log to observers is the surrounding runtime's concern.
//!
//! Identifiers are allocated by a monotone counter, `0` first, and never
//! reused: the creatures alive are exactly the ids below the counter.

use vstd::prelude::*;
use crate::AccountId;
use crate::dna::DNA_BYTES;
use crate::dna::SEED_BYTES;
use crate::dna::child_genome;
use crate::dna::combine_dna;
use crate::dna::combine_dna_spec;
use crate::dna::derived_entropy;
use crate::dna::random_value;

verus! {

/// A creature: a fixed 16-byte genome, immutable once created.
#[derive(Clone, Copy, Debug)]
pub struct Kitty(pub [u8; 16]);

/// Reasons a creature transition is refused. Every one is a precondition
/// violation; the failing transition writes nothing.
#[derive(Clone, Copy, PartialEq, Eq, Structural, Debug)]
pub enum KittyError {
    KittiesCountOverflow,
    RequireDifferentParent,
    InvalidKittyId,
    MoneyNotEnough,
    KittyNotExists,
    NotKittyOwner,
    TransferToSelf,
}

/// A notification record, appended by each successful transition and
/// consumed by external observers.
#[derive(Clone, Copy, PartialEq, Eq, Structural, Debug)]
pub enum KittyEvent {
    Created { owner: AccountId, kitty_id: u32 },
    Transferred { from: AccountId, to: AccountId, kitty_id: u32 },
    Breed { owner: AccountId, kitty_id: u32 },
}

/// The currency collaborator: holds and reserves account balances. The
/// runtime implements it; nothing is assumed here of how it decides, so
/// every verified caller states what holds whichever way `reserve` went.
pub trait ReserveCurrency {
    /// Attempts to place `amount` of `who`'s free balance on hold; an `Err`
    /// means the account cannot cover it.
    fn reserve(&mut self, who: AccountId, amount: u64) -> Result<(), ()>;
}

/// A map from 64-bit key to an ordered list of creature ids, held as a list
/// of entries with pairwise distinct keys. An absent key holds the empty
/// list. Backs the holdings index (keyed by owner) and the children map
/// (keyed by an encoded parent pair).
pub struct IdIndex {
    pub entries: Vec<(u64, Vec<u32>)>,
}

impl IdIndex {
    /// Well-formedness: no key is recorded twice.
    pub open spec fn wf(self) -> bool {
        forall|i: int, j: int|
            0 <= i < j < self.entries@.len() ==> (#[trigger] self.entries@[i]).0
                != (#[trigger] self.entries@[j]).0
    }

    /// Whether an entry for `key` exists.
    pub open spec fn has_key(self, key: u64) -> bool {
        exists|i: int| 0 <= i < self.entries@.len() && (#[trigger] self.entries@[i]).0 == key
    }

    /// The position of the entry for `key`; meaningful only when
    /// `has_key(key)` holds (and then unique, by `wf`).
    pub open spec fn key_index(self, key: u64) -> int {
        choose|i: int| 0 <= i < self.entries@.len() && (#[trigger] self.entries@[i]).0 == key
    }

    /// The list under `key`; an absent key holds the empty list.
    pub open spec fn list_of(self, key: u64) -> Seq<u32> {
        if self.has_key(key) {
            self.entries@[self.key_index(key)].1@
        } else {
            Seq::empty()
        }
    }

    /// Any position holding `key` is the unique one `key_index` names.
    proof fn lemma_key_index_unique(self, key: u64, i: int)
        requires
            self.wf(),
            0 <= i < self.entries@.len(),
            self.entries@[i].0 == key,
        ensures
            self.has_key(key),
            self.key_index(key) == i,
            self.list_of(key) == self.entries@[i].1@,
    {
        assert(self.has_key(key));
        let j = self.key_index(key);
        if j < i {
            assert(self.entries@[j].0 != self.entries@[i].0);
        } else if i < j {
            assert(self.entries@[i].0 != self.entries@[j].0);
        }
    }

    /// An empty index: every key holds the empty list.
    pub fn new() -> (r: IdIndex)
        ensures
            r.wf(),
            forall|k: u64| (#[trigger] r.list_of(k)) == Seq::<u32>::empty(),
    {
        let r = IdIndex { entries: Vec::new() };
        proof {
            assert forall|k: u64| (#[trigger] r.list_of(k)) == Seq::<u32>::empty() by {
                assert(!r.has_key(k));
            }
        }
        r
    }

    /// Finds the position of the entry for `key`, if one exists.
    fn find(&self, key: u64) -> (r: Option<usize>)
        requires
            self.wf(),
        ensures
            match r {
                Some(i) => {
                    &&& i < self.entries@.len()
                    &&& self.entries@[i as int].0 == key
                    &&& self.has_key(key)
                    &&& self.key_index(key) == i
                },
                None => !self.has_key(key),
            },
    {
        let n = self.entries.len();
        let mut i: usize = 0;
        while i < n
            invariant
                n == self.entries@.len(),
                i <= n,
                self.wf(),
                forall|k: int| 0 <= k < i ==> (#[trigger] self.entries@[k]).0 != key,
            decreases n - i,
        {
            if self.entries[i].0 == key {
                proof {
                    self.lemma_key_index_unique(key, i as int);
                }
                return Some(i);
            }
            i += 1;
        }
        None
    }

    /// A copy of the list under `key`.
    pub fn get_list(&self, key: u64) -> (r: Vec<u32>)
        requires
            self.wf(),
        ensures
            r@ == self.list_of(key),
    {
        let mut out: Vec<u32> = Vec::new();
        let i = match self.find(key) {
            None => {
                return out;
            },
            Some(i) => i,
        };
        let n = self.entries[i].1.len();
        let mut p: usize = 0;
        while p < n
            invariant
                i < self.entries@.len(),
                n == self.entries@[i as int].1@.len(),
                p <= n,
                out@ == self.entries@[i as int].1@.subrange(0, p as int),
            decreases n - p,
        {
            out.push(self.entries[i].1[p]);
            proof {
                assert(out@ =~= self.entries@[i as int].1@.subrange(0, p + 1));
            }
            p += 1;
        }
        proof {
            assert(out@ =~= self.entries@[i as int].1@);
        }
        out
    }

    /// Appends `id` to the list under `key`, creating the entry if absent.
    pub fn push_id(&mut self, key: u64, id: u32)
        requires
            old(self).wf(),
        ensures
            final(self).wf(),
            final(self).list_of(key) == old(self).list_of(key).push(id),
            forall|k: u64| k != key ==> (#[trigger] final(self).list_of(k)) == old(self).list_of(k),
    {
        let ghost pre = *self;
        match self.find(key) {
            Some(i) => {
                self.entries[i].1.push(id);
                proof {
                    assert(self.entries@ =~= pre.entries@.update(i as int, self.entries@[i as int]));
                    assert(self.entries@[i as int].0 == key);
                    assert(self.entries@[i as int].1@ == pre.entries@[i as int].1@.push(id));
                    assert forall|i2: int, j2: int| 0 <= i2 < j2 < self.entries@.len()
                        implies (#[trigger] self.entries@[i2]).0 != (#[trigger] self.entries@[j2]).0 by {
                        assert(self.entries@[i2].0 == pre.entries@[i2].0);
                        assert(self.entries@[j2].0 == pre.entries@[j2].0);
                        assert(pre.entries@[i2].0 != pre.entries@[j2].0);
                    }
                    self.lemma_key_index_unique(key, i as int);
                    assert forall|k: u64| k != key
                        implies (#[trigger] self.list_of(k)) == pre.list_of(k) by {
                        self.lemma_lists_match(pre, k, i as int);
                    }
                }
            },
            None => {
                let mut l: Vec<u32> = Vec::new();
                l.push(id);
                self.entries.push((key, l));
                proof {
                    let n = pre.entries@.len() as int;
                    assert forall|i2: int, j2: int| 0 <= i2 < j2 < self.entries@.len()
                        implies (#[trigger] self.entries@[i2]).0 != (#[trigger] self.entries@[j2]).0 by {
                        if j2 == n {
                            if self.entries@[i2].0 == key {
                                assert(pre.entries@[i2].0 == key);
                                assert(pre.has_key(key));
                            }
                        } else {
                            assert(self.entries@[i2] == pre.entries@[i2]);
                            assert(self.entries@[j2] == pre.entries@[j2]);
                        }
                    }
                    self.lemma_key_index_unique(key, n);
                    assert(self.list_of(key) =~= pre.list_of(key).push(id));
                    assert forall|k: u64| k != key
                        implies (#[trigger] self.list_of(k)) == pre.list_of(k) by {
                        self.lemma_lists_match(pre, k, n);
                    }
                }
            },
        }
    }

    /// Helper: when the entries agree everywhere but at `i`, whose key is
    /// not `k`, the list under `k` is unchanged.
    proof fn lemma_lists_match(self, pre: IdIndex, k: u64, i: int)
        requires
            self.wf(),
            pre.wf(),
            pre.entries@.len() <= self.entries@.len() <= pre.entries@.len() + 1,
            forall|j: int| 0 <= j < pre.entries@.len() && j != i ==> #[trigger] self.entries@[j]
                == pre.entries@[j],
            forall|j: int| 0 <= j < self.entries@.len() ==> (#[trigger] self.entries@[j]).0
                == if j < pre.entries@.len() { pre.entries@[j].0 } else { self.entries@[i].0 },
            0 <= i < self.entries@.len(),
            self.entries@[i].0 != k,
        ensures
            self.list_of(k) == pre.list_of(k),
    {
        if self.has_key(k) {
            let j = self.key_index(k);
            assert(self.entries@[j].0 == k);
            assert(j != i);
            assert(j < pre.entries@.len());
            assert(pre.entries@[j].0 == k);
            pre.lemma_key_index_unique(k, j);
            self.lemma_key_index_unique(k, j);
            assert(self.entries@[j] == pre.entries@[j]);
        } else {
            if pre.has_key(k) {
                let j = pre.key_index(k);
                assert(pre.entries@[j].0 == k);
                assert(j != i || self.entries@[i].0 == k);
                assert(self.entries@[j].0 == k);
                assert(self.has_key(k));
            }
        }
    }

    /// Removes the first occurrence of `id` from the list under `key`.
    pub fn remove_id(&mut self, key: u64, id: u32)
        requires
            old(self).wf(),
            old(self).list_of(key).contains(id),
        ensures
            final(self).wf(),
            exists|p: int|
                {
                    &&& 0 <= p < old(self).list_of(key).len()
                    &&& old(self).list_of(key)[p] == id
                    &&& (#[trigger] old(self).list_of(key).remove(p)) == final(self).list_of(key)
                },
            forall|k: u64| k != key ==> (#[trigger] final(self).list_of(k)) == old(self).list_of(k),
    {
        let ghost pre = *self;
        proof {
            assert(pre.has_key(key));
        }
        let i = match self.find(key) {
            None => {
                proof {
                    assert(false);
                }
                return;
            },
            Some(i) => i,
        };
        let n = self.entries[i].1.len();
        let mut p: usize = 0;
        while p < n
            invariant
                *self == pre,
                pre == *old(self),
                i < self.entries@.len(),
                self.entries@[i as int].0 == key,
                self.wf(),
                self.key_index(key) == i,
                self.has_key(key),
                n == self.entries@[i as int].1@.len(),
                p <= n,
                self.list_of(key).contains(id),
                forall|k: int| 0 <= k < p ==> self.entries@[i as int].1@[k] != id,
            decreases n - p,
        {
            if self.entries[i].1[p] == id {
                self.entries[i].1.remove(p);
                proof {
                    assert(self.entries@ =~= pre.entries@.update(i as int, self.entries@[i as int]));
                    assert(self.entries@[i as int].0 == key);
                    assert(self.entries@[i as int].1@ == pre.entries@[i as int].1@.remove(p as int));
                    assert forall|i2: int, j2: int| 0 <= i2 < j2 < self.entries@.len()
                        implies (#[trigger] self.entries@[i2]).0 != (#[trigger] self.entries@[j2]).0 by {
                        assert(self.entries@[i2].0 == pre.entries@[i2].0);
                        assert(self.entries@[j2].0 == pre.entries@[j2].0);
                        assert(pre.entries@[i2].0 != pre.entries@[j2].0);
                    }
                    self.lemma_key_index_unique(key, i as int);
                    assert(pre.list_of(key)[p as int] == id);
                    assert(pre.list_of(key).remove(p as int) == self.list_of(key));
                    assert forall|k: u64| k != key
                        implies (#[trigger] self.list_of(k)) == pre.list_of(k) by {
                        self.lemma_lists_match(pre, k, i as int);
                    }
                }
                return;
            }
            p += 1;
        }
        proof {
            let q = choose|q: int| 0 <= q < self.list_of(key).len() && self.list_of(key)[q] == id;
            assert(self.entries@[i as int].1@[q] != id);
            assert(false);
        }
    }
}

/// Encodes an ordered parent pair as one 64-bit map key: the first id in
/// the high half, the second in the low half.
pub open spec fn pair_key_spec(a: u32, b: u32) -> u64 {
    ((a as u64) * 0x1_0000_0000 + (b as u64)) as u64
}

/// Encodes an ordered parent pair as one 64-bit map key.
pub fn pair_key(a: u32, b: u32) -> (r: u64)
    ensures
        r == pair_key_spec(a, b),
{
    (a as u64) * 0x1_0000_0000 + (b as u64)
}

/// The pair encoding is injective: distinct ordered pairs get distinct keys.
pub proof fn lemma_pair_key_injective(a1: u32, b1: u32, a2: u32, b2: u32)
    requires
        pair_key_spec(a1, b1) == pair_key_spec(a2, b2),
    ensures
        a1 == a2,
        b1 == b2,
{
    assert((a1 as u64) * 0x1_0000_0000 + (b1 as u64) <= 0xffff_ffff_ffff_ffff);
    assert((a2 as u64) * 0x1_0000_0000 + (b2 as u64) <= 0xffff_ffff_ffff_ffff);
    assert(a1 == a2 && b1 == b2) by (nonlinear_arith)
        requires
            (a1 as u64) * 0x1_0000_0000 + (b1 as u64) == (a2 as u64) * 0x1_0000_0000 + (b2 as u64),
            (b1 as u64) < 0x1_0000_0000,
            (b2 as u64) < 0x1_0000_0000,
    ;
}

/// The creature registry's full state: records, counter, ownership and the
/// relationship maps. The identifier counter is the number of allocated
/// creatures: the ids alive are exactly those below it.
pub struct KittyRegistry {
    /// Genome of each allocated creature, indexed by id; the length of this
    /// list is the identifier counter (the next unallocated id).
    pub kitties: Vec<Kitty>,
    /// Current owner of each allocated creature, indexed by id.
    pub owners: Vec<AccountId>,
    /// Holdings index: owner to the ids it holds, in acquisition order.
    pub holdings: IdIndex,
    /// Breeding parents of each creature; `None` for created creatures.
    pub parents: Vec<Option<(u32, u32)>>,
    /// Children map: encoded ordered parent pair to the ids bred from that
    /// exact pair, oldest first.
    pub children: IdIndex,
    /// Full siblings of each creature: the ids bred from the same ordered
    /// pair, earlier ones listed at birth, later ones cross-linked in.
    pub siblings: Vec<Vec<u32>>,
    /// Breeding partners of each creature, one entry per breeding.
    pub partners: Vec<Vec<u32>>,
    /// Ordered log of the events emitted by successful transitions.
    pub events: Vec<KittyEvent>,
}

impl KittyRegistry {
    /// The identifier counter: the next unallocated id.
    pub open spec fn count(self) -> nat {
        self.kitties@.len()
    }

    /// A creature exists exactly when its id is below the counter.
    pub open spec fn kitty_exists(self, id: u32) -> bool {
        (id as int) < self.kitties@.len()
    }

    /// The recorded owner of creature `id` (meaningful when it exists).
    pub open spec fn owner_spec(self, id: u32) -> AccountId {
        self.owners@[id as int]
    }

    /// The genome of creature `id` (meaningful when it exists).
    pub open spec fn genome(self, id: u32) -> Seq<u8> {
        self.kitties@[id as int].0@
    }

    /// The ids held by `o`, in acquisition order.
    pub open spec fn holdings_of(self, o: AccountId) -> Seq<u32> {
        self.holdings.list_of(o)
    }

    /// The ids bred from the exact ordered pair `(a, b)`, oldest first.
    pub open spec fn children_of(self, a: u32, b: u32) -> Seq<u32> {
        self.children.list_of(pair_key_spec(a, b))
    }

    /// The recorded full siblings of creature `id`.
    pub open spec fn siblings_of(self, id: u32) -> Seq<u32> {
        self.siblings@[id as int]@
    }

    /// The recorded breeding partners of creature `id`.
    pub open spec fn partners_of(self, id: u32) -> Seq<u32> {
        self.partners@[id as int]@
    }

    /// The recorded parents of creature `id`; `None` for created creatures.
    pub open spec fn parents_of(self, id: u32) -> Option<(u32, u32)> {
        self.parents@[id as int]
    }

    /// Well-formedness, preserved by every transition:
    /// - the per-id maps all have the counter's length, and the counter has
    ///   not passed the identifier space's maximum;
    /// - the holdings index mirrors the ownership map: everything a
    ///   holdings list holds is an allocated creature of that very owner,
    ///   each allocated creature appears in its owner's list, and no list
    ///   repeats an id — together, each creature sits in exactly one
    ///   owner's list, exactly once;
    /// - the children lists hold allocated, pairwise distinct ids.
    pub open spec fn wf(self) -> bool {
        let n = self.kitties@.len() as int;
        &&& self.owners@.len() == n
        &&& self.parents@.len() == n
        &&& self.siblings@.len() == n
        &&& self.partners@.len() == n
        &&& n <= u32::MAX as int
        &&& self.holdings.wf()
        &&& self.children.wf()
        &&& forall|o: u64, p: int|
            0 <= p < self.holdings.list_of(o).len() ==> (#[trigger] self.holdings.list_of(o)[p]
                as int) < n && self.owners@[self.holdings.list_of(o)[p] as int] == o
        &&& forall|id: int|
            0 <= id < n ==> (#[trigger] self.holdings.list_of(
                self.owners@[id],
            )).contains(id as u32)
        &&& forall|o: u64, p: int, q: int|
            #![trigger self.holdings.list_of(o)[p], self.holdings.list_of(o)[q]]
            0 <= p < q < self.holdings.list_of(o).len()
                ==> self.holdings.list_of(o)[p] != self.holdings.list_of(o)[q]
        &&& forall|k: u64, p: int|
            0 <= p < self.children.list_of(k).len() ==> (#[trigger] self.children.list_of(k)[p]
                as int) < n
        &&& forall|k: u64, p: int, q: int|
            #![trigger self.children.list_of(k)[p], self.children.list_of(k)[q]]
            0 <= p < q < self.children.list_of(k).len()
                ==> self.children.list_of(k)[p] != self.children.list_of(k)[q]
    }

    /// The state change `insert_kitty` makes: the creature is recorded with
    /// the next id under `owner`, the counter advances by one, and no
    /// parentage, sibling, partner or children entry is written.
    pub open spec fn kitty_inserted(pre: Self, post: Self, owner: AccountId, id: u32, dna: Seq<u8>) -> bool {
        &&& id as int == pre.kitties@.len()
        &&& post.kitties@.len() == pre.kitties@.len() + 1
        &&& forall|k: int| 0 <= k < pre.kitties@.len() ==> #[trigger] post.kitties@[k] == pre.kitties@[k]
        &&& post.genome(id) == dna
        &&& post.owners@ == pre.owners@.push(owner)
        &&& post.parents@ == pre.parents@.push(None::<(u32, u32)>)
        &&& post.siblings@.len() == pre.siblings@.len() + 1
        &&& forall|k: int| 0 <= k < pre.siblings@.len() ==> #[trigger] post.siblings@[k]@ == pre.siblings@[k]@
        &&& post.siblings_of(id).len() == 0
        &&& post.partners@.len() == pre.partners@.len() + 1
        &&& forall|k: int| 0 <= k < pre.partners@.len() ==> #[trigger] post.partners@[k]@ == pre.partners@[k]@
        &&& post.partners_of(id).len() == 0
        &&& post.holdings_of(owner) == pre.holdings_of(owner).push(id)
        &&& forall|o: AccountId| o != owner ==> (#[trigger] post.holdings_of(o)) == pre.holdings_of(o)
    }

    /// An empty registry: no creature has been allocated.
    pub fn new() -> (r: KittyRegistry)
        ensures
            r.wf(),
            r.count() == 0,
            r.events@.len() == 0,
    {
        KittyRegistry {
            kitties: Vec::new(),
            owners: Vec::new(),
            holdings: IdIndex::new(),
            parents: Vec::new(),
            children: IdIndex::new(),
            siblings: Vec::new(),
            partners: Vec::new(),
            events: Vec::new(),
        }
    }

    /// The identifier counter, as the next id's type.
    pub fn kitties_count(&self) -> (r: u32)
        requires
            self.wf(),
        ensures
            r as nat == self.count(),
    {
        self.kitties.len() as u32
    }

    /// The next unallocated identifier; refused once the counter has
    /// reached the identifier space's maximum.
    pub fn next_kitty_id(&self) -> (r: Result<u32, KittyError>)
        requires
            self.wf(),
        ensures
            match r {
                Ok(id) => self.count() < u32::MAX as nat && id as nat == self.count(),
                Err(e) => self.count() == u32::MAX as nat && e == KittyError::KittiesCountOverflow,
            },
    {
        let id = self.kitties.len();
        if id >= u32::MAX as usize {
            return Err(KittyError::KittiesCountOverflow);
        }
        Ok(id as u32)
    }

    /// Records a creature with the next id under `owner`: writes the
    /// genome, the owner and the holdings entry and advances the counter.
    /// No relationship entry is written.
    pub fn insert_kitty(&mut self, owner: AccountId, kitty_id: u32, kitty: Kitty)
        requires
            old(self).wf(),
            kitty_id as int == old(self).kitties@.len(),
            old(self).count() < u32::MAX as nat,
        ensures
            final(self).wf(),
            Self::kitty_inserted(*old(self), *final(self), owner, kitty_id, kitty.0@),
            final(self).children == old(self).children,
            final(self).events@ == old(self).events@,
    {
        let ghost pre = *self;
        let ghost n = self.kitties@.len() as int;
        self.kitties.push(kitty);
        self.owners.push(owner);
        self.parents.push(None);
        self.siblings.push(Vec::new());
        self.partners.push(Vec::new());
        self.holdings.push_id(owner, kitty_id);
        proof {
            // the new id is in no old holdings list
            assert forall|o: u64, p: int| 0 <= p < self.holdings.list_of(o).len()
                implies (#[trigger] self.holdings.list_of(o)[p] as int) < n + 1
                    && self.owners@[self.holdings.list_of(o)[p] as int] == o by {
                if o == owner {
                    assert(self.holdings.list_of(o) == pre.holdings.list_of(o).push(kitty_id));
                    if p < pre.holdings.list_of(o).len() {
                        assert(pre.holdings.list_of(o)[p] == self.holdings.list_of(o)[p]);
                        assert((pre.holdings.list_of(o)[p] as int) < n);
                    } else {
                        assert(self.holdings.list_of(o)[p] == kitty_id);
                    }
                } else {
                    assert(self.holdings.list_of(o) == pre.holdings.list_of(o));
                    assert((pre.holdings.list_of(o)[p] as int) < n);
                }
            }
            assert forall|id: int| 0 <= id < n + 1
                implies (#[trigger] self.holdings.list_of(self.owners@[id])).contains(id as u32) by {
                if id < n {
                    let o = pre.owners@[id];
                    assert(self.owners@[id] == o);
                    assert(pre.holdings.list_of(o).contains(id as u32));
                    let q = choose|q: int|
                        0 <= q < pre.holdings.list_of(o).len() && pre.holdings.list_of(o)[q]
                            == id as u32;
                    if o == owner {
                        assert(self.holdings.list_of(o)[q] == id as u32);
                    } else {
                        assert(self.holdings.list_of(o)[q] == id as u32);
                    }
                } else {
                    assert(self.owners@[id] == owner);
                    let l = self.holdings.list_of(owner);
                    assert(l == pre.holdings.list_of(owner).push(kitty_id));
                    assert(l[l.len() - 1] == kitty_id);
                }
            }
            assert forall|o: u64, p: int, q: int|
                #![trigger self.holdings.list_of(o)[p], self.holdings.list_of(o)[q]]
                0 <= p < q < self.holdings.list_of(o).len()
                implies self.holdings.list_of(o)[p] != self.holdings.list_of(o)[q] by {
                if o == owner {
                    assert(self.holdings.list_of(o) == pre.holdings.list_of(o).push(kitty_id));
                    let l0 = pre.holdings.list_of(o);
                    if q < l0.len() {
                        assert(l0[p] != l0[q]);
                    } else {
                        // l[q] is the new id, above every allocated id
                        assert(self.holdings.list_of(o)[q] == kitty_id);
                        assert((l0[p] as int) < n);
                        assert(self.holdings.list_of(o)[p] == l0[p]);
                    }
                } else {
                    assert(self.holdings.list_of(o) == pre.holdings.list_of(o));
                    assert(pre.holdings.list_of(o)[p] != pre.holdings.list_of(o)[q]);
                }
            }
            assert forall|k: u64, p: int| 0 <= p < self.children.list_of(k).len()
                implies (#[trigger] self.children.list_of(k)[p] as int) < n + 1 by {
                assert((pre.children.list_of(k)[p] as int) < n);
            }
            assert forall|k: u64, p: int, q: int|
                #![trigger self.children.list_of(k)[p], self.children.list_of(k)[q]]
                0 <= p < q < self.children.list_of(k).len()
                implies self.children.list_of(k)[p] != self.children.list_of(k)[q] by {
                assert(pre.children.list_of(k)[p] != pre.children.list_of(k)[q]);
            }
        }
    }

    /// `create(sender, deposit, seed, extrinsic_index, currency)`: derives
    /// a fresh genome from the block seed, the caller and the execution
    /// index, reserves the creation deposit, allocates the next id and
    /// records the creature under `sender`. On success it appends
    /// `Created(sender, id)` to the event log.
    ///
    /// The counter is checked before anything is reserved. Whether funds
    /// suffice is the currency collaborator's decision: with headroom in
    /// the counter the call returns the new id, or the funding error if the
    /// collaborator refused; either way the registry itself changes only on
    /// full success.
    pub fn create<C: ReserveCurrency>(
        &mut self,
        sender: AccountId,
        deposit: u64,
        seed: &[u8; SEED_BYTES],
        extrinsic_index: Option<u32>,
        currency: &mut C,
    ) -> (r: Result<u32, KittyError>)
        requires
            old(self).wf(),
        ensures
            final(self).wf(),
            match r {
                Ok(id) => {
                    &&& old(self).count() < u32::MAX as nat
                    &&& id as nat == old(self).count()
                    &&& Self::kitty_inserted(
                        *old(self),
                        *final(self),
                        sender,
                        id,
                        derived_entropy(seed@, sender, extrinsic_index),
                    )
                    &&& final(self).children == old(self).children
                    &&& final(self).events@ == old(self).events@.push(
                        KittyEvent::Created { owner: sender, kitty_id: id },
                    )
                },
                Err(KittyError::KittiesCountOverflow) => old(self).count() == u32::MAX as nat
                    && *final(self) == *old(self),
                Err(KittyError::MoneyNotEnough) => old(self).count() < u32::MAX as nat
                    && *final(self) == *old(self),
                Err(_) => false,
            },
    {
        let kitty_id = match self.next_kitty_id() {
            Err(e) => {
                return Err(e);
            },
            Ok(id) => id,
        };
        let dna = random_value(seed, sender, extrinsic_index);
        if currency.reserve(sender, deposit).is_err() {
            return Err(KittyError::MoneyNotEnough);
        }
        self.insert_kitty(sender, kitty_id, Kitty(dna));
        let ghost mid = *self;
        self.events.push(KittyEvent::Created { owner: sender, kitty_id });
        proof {
            assert(self.holdings == mid.holdings);
            assert(self.holdings_of(sender) == mid.holdings_of(sender));
            assert forall|o: AccountId| o != sender
                implies (#[trigger] self.holdings_of(o)) == old(self).holdings_of(o) by {
                assert(mid.holdings_of(o) == old(self).holdings_of(o));
            }
        }
        Ok(kitty_id)
    }

    /// The state change a successful `transfer` makes: the ownership entry
    /// of `id` is rewritten to `to`, the id moves from `sender`'s holdings
    /// list to the end of `to`'s, and nothing else — no genome, no counter,
    /// no relationship entry.
    pub open spec fn transferred(pre: Self, post: Self, sender: AccountId, to: AccountId, id: u32) -> bool {
        &&& post.kitties@ == pre.kitties@
        &&& post.owners@ == pre.owners@.update(id as int, to)
        &&& post.parents@ == pre.parents@
        &&& post.siblings@ == pre.siblings@
        &&& post.partners@ == pre.partners@
        &&& post.children == pre.children
        &&& exists|p: int|
            #![trigger pre.holdings_of(sender)[p]]
            {
                &&& 0 <= p < pre.holdings_of(sender).len()
                &&& pre.holdings_of(sender)[p] == id
                &&& post.holdings_of(sender) == pre.holdings_of(sender).remove(p)
            }
        &&& post.holdings_of(to) == pre.holdings_of(to).push(id)
        &&& forall|o: AccountId| o != sender && o != to ==> (#[trigger] post.holdings_of(o)) == pre.holdings_of(o)
    }

    /// `transfer(sender, to, kitty_id)`: passes `kitty_id` from `sender` to
    /// `to`. Accepted exactly when the creature exists, `sender` is its
    /// recorded owner and `to` differs from `sender`; the checks are made
    /// in that order. On success it appends
    /// `Transferred(sender, to, kitty_id)` to the event log.
    pub fn transfer(&mut self, sender: AccountId, to: AccountId, kitty_id: u32) -> (r: Result<(), KittyError>)
        requires
            old(self).wf(),
        ensures
            final(self).wf(),
            match r {
                Ok(_) => {
                    &&& old(self).kitty_exists(kitty_id)
                    &&& old(self).owner_spec(kitty_id) == sender
                    &&& to != sender
                    &&& Self::transferred(*old(self), *final(self), sender, to, kitty_id)
                    &&& final(self).events@ == old(self).events@.push(
                        KittyEvent::Transferred { from: sender, to, kitty_id },
                    )
                },
                Err(KittyError::KittyNotExists) => !old(self).kitty_exists(kitty_id)
                    && *final(self) == *old(self),
                Err(KittyError::NotKittyOwner) => old(self).kitty_exists(kitty_id)
                    && old(self).owner_spec(kitty_id) != sender && *final(self) == *old(self),
                Err(KittyError::TransferToSelf) => old(self).kitty_exists(kitty_id)
                    && old(self).owner_spec(kitty_id) == sender && to == sender
                    && *final(self) == *old(self),
                Err(_) => false,
            },
    {
        if kitty_id as usize >= self.owners.len() {
            return Err(KittyError::KittyNotExists);
        }
        let owner = self.owners[kitty_id as usize];
        if owner != sender {
            return Err(KittyError::NotKittyOwner);
        }
        if sender == to {
            return Err(KittyError::TransferToSelf);
        }
        let ghost pre = *self;
        let ghost n = self.kitties@.len() as int;
        self.owners[kitty_id as usize] = to;
        proof {
            assert(pre.holdings.list_of(sender).contains(kitty_id));
            assert(self.holdings == pre.holdings);
        }
        self.holdings.remove_id(sender, kitty_id);
        let ghost mid_holdings = self.holdings;
        self.holdings.push_id(to, kitty_id);
        self.events.push(KittyEvent::Transferred { from: sender, to, kitty_id });
        proof {
            let l0 = pre.holdings.list_of(sender);
            let p = choose|p: int|
                {
                    &&& 0 <= p < l0.len()
                    &&& l0[p] == kitty_id
                    &&& l0.remove(p) == mid_holdings.list_of(sender)
                };
            l0.remove_ensures(p);
            assert(self.holdings.list_of(sender) == l0.remove(p)) by {
                assert(mid_holdings.list_of(to) == pre.holdings.list_of(to));
                assert(to != sender);
            }
            // no position of the shortened list still holds the id
            assert forall|q: int| 0 <= q < l0.remove(p).len()
                implies l0.remove(p)[q] != kitty_id by {
                if q < p {
                    assert(l0.remove(p)[q] == l0[q]);
                    assert(l0[q] != l0[p]);
                } else {
                    assert(l0.remove(p)[q] == l0[q + 1]);
                    assert(l0[p] != l0[q + 1]);
                }
            }
            // the id was never in the recipient's old list
            assert forall|q: int| 0 <= q < pre.holdings.list_of(to).len()
                implies pre.holdings.list_of(to)[q] != kitty_id by {
                if pre.holdings.list_of(to)[q] == kitty_id {
                    assert(pre.owners@[kitty_id as int] == to);
                }
            }
            // holdings lists still hold allocated ids of their owner
            assert forall|o: u64, q: int| 0 <= q < self.holdings.list_of(o).len()
                implies (#[trigger] self.holdings.list_of(o)[q] as int) < n
                    && self.owners@[self.holdings.list_of(o)[q] as int] == o by {
                if o == sender {
                    let e = self.holdings.list_of(o)[q];
                    assert(self.holdings.list_of(o) == l0.remove(p));
                    assert(e != kitty_id);
                    assert(l0.remove(p)[q] == if q < p { l0[q] } else { l0[q + 1] });
                    assert((e as int) < n && pre.owners@[e as int] == sender);
                    assert(self.owners@[e as int] == pre.owners@[e as int]);
                } else if o == to {
                    assert(self.holdings.list_of(to) == pre.holdings.list_of(to).push(kitty_id));
                    if q < pre.holdings.list_of(to).len() {
                        let e = pre.holdings.list_of(to)[q];
                        assert((e as int) < n && pre.owners@[e as int] == to);
                        assert(e != kitty_id);
                        assert(self.owners@[e as int] == to);
                    } else {
                        assert(self.holdings.list_of(to)[q] == kitty_id);
                        assert(self.owners@[kitty_id as int] == to);
                    }
                } else {
                    assert(self.holdings.list_of(o) == pre.holdings.list_of(o));
                    let e = pre.holdings.list_of(o)[q];
                    assert((e as int) < n && pre.owners@[e as int] == o);
                    assert(e != kitty_id);
                    assert(self.owners@[e as int] == o);
                }
            }
            // every allocated id still sits in its owner's list
            assert forall|id: int| 0 <= id < n
                implies (#[trigger] self.holdings.list_of(self.owners@[id])).contains(id as u32) by {
                if id == kitty_id as int {
                    assert(self.owners@[id] == to);
                    let l = self.holdings.list_of(to);
                    assert(l == pre.holdings.list_of(to).push(kitty_id));
                    assert(l[l.len() - 1] == kitty_id);
                } else {
                    let o = pre.owners@[id];
                    assert(self.owners@[id] == o);
                    assert(pre.holdings.list_of(o).contains(id as u32));
                    let q = choose|q: int|
                        0 <= q < pre.holdings.list_of(o).len() && pre.holdings.list_of(o)[q]
                            == id as u32;
                    if o == sender {
                        assert(l0[q] == id as u32);
                        assert(q != p);
                        if q < p {
                            assert(l0.remove(p)[q] == id as u32);
                        } else {
                            assert(l0.remove(p)[q - 1] == id as u32);
                        }
                        assert(self.holdings.list_of(o) == l0.remove(p));
                    } else if o == to {
                        assert(self.holdings.list_of(o)[q] == id as u32);
                    } else {
                        assert(self.holdings.list_of(o) == pre.holdings.list_of(o));
                        assert(self.holdings.list_of(o)[q] == id as u32);
                    }
                }
            }
            // no list repeats an id
            assert forall|o: u64, a: int, b: int|
                #![trigger self.holdings.list_of(o)[a], self.holdings.list_of(o)[b]]
                0 <= a < b < self.holdings.list_of(o).len()
                implies self.holdings.list_of(o)[a] != self.holdings.list_of(o)[b] by {
                if o == sender {
                    assert(self.holdings.list_of(o) == l0.remove(p));
                    let a0 = if a < p { a } else { a + 1 };
                    let b0 = if b < p { b } else { b + 1 };
                    assert(l0.remove(p)[a] == l0[a0]);
                    assert(l0.remove(p)[b] == l0[b0]);
                    assert(l0[a0] != l0[b0]);
                } else if o == to {
                    let lt = pre.holdings.list_of(to);
                    assert(self.holdings.list_of(o) == lt.push(kitty_id));
                    if b < lt.len() {
                        assert(lt[a] != lt[b]);
                    } else {
                        assert(self.holdings.list_of(o)[b] == kitty_id);
                        assert(self.holdings.list_of(o)[a] == lt[a]);
                        assert(lt[a] != kitty_id);
                    }
                } else {
                    assert(self.holdings.list_of(o) == pre.holdings.list_of(o));
                    assert(pre.holdings.list_of(o)[a] != pre.holdings.list_of(o)[b]);
                }
            }
            // children untouched
            assert forall|k: u64, q: int| 0 <= q < self.children.list_of(k).len()
                implies (#[trigger] self.children.list_of(k)[q] as int) < n by {
                assert(pre.children.list_of(k)[q] == self.children.list_of(k)[q]);
            }
            assert forall|k: u64, a: int, b: int|
                #![trigger self.children.list_of(k)[a], self.children.list_of(k)[b]]
                0 <= a < b < self.children.list_of(k).len()
                implies self.children.list_of(k)[a] != self.children.list_of(k)[b] by {
                assert(pre.children.list_of(k)[a] != pre.children.list_of(k)[b]);
            }
            assert(self.owners@ =~= pre.owners@.update(kitty_id as int, to));
            assert(pre.holdings_of(sender)[p] == kitty_id);
            assert(self.holdings_of(sender) == pre.holdings_of(sender).remove(p));
            assert(self.holdings_of(to) == pre.holdings_of(to).push(kitty_id));
            assert forall|o: AccountId| o != sender && o != to
                implies (#[trigger] self.holdings_of(o)) == pre.holdings_of(o) by {
                assert(mid_holdings.list_of(o) == pre.holdings.list_of(o));
                assert(self.holdings.list_of(o) == mid_holdings.list_of(o));
            }
            assert(Self::transferred(pre, *self, sender, to, kitty_id));
        }
        Ok(())
    }

    /// The state change a successful `breed` makes: a creature with the
    /// combined genome is recorded with the next id under the caller, its
    /// parentage is set to the ordered pair, the pair's children list gains
    /// it, it is cross-linked as a full sibling with the pair's earlier
    /// children, and each parent records the other as a partner.
    pub open spec fn kitty_bred(
        pre: Self,
        post: Self,
        sender: AccountId,
        id1: u32,
        id2: u32,
        nid: u32,
        dna: Seq<u8>,
    ) -> bool {
        &&& nid as int == pre.kitties@.len()
        &&& post.kitties@.len() == pre.kitties@.len() + 1
        &&& forall|k: int| 0 <= k < pre.kitties@.len() ==> #[trigger] post.kitties@[k] == pre.kitties@[k]
        &&& post.genome(nid) == dna
        &&& post.owners@ == pre.owners@.push(sender)
        &&& post.parents@ == pre.parents@.push(Some((id1, id2)))
        &&& post.holdings_of(sender) == pre.holdings_of(sender).push(nid)
        &&& forall|o: AccountId| o != sender ==> (#[trigger] post.holdings_of(o)) == pre.holdings_of(o)
        &&& post.children_of(id1, id2) == pre.children_of(id1, id2).push(nid)
        &&& forall|a: u32, b: u32| (a, b) != (id1, id2) ==> (#[trigger] post.children_of(a, b)) == pre.children_of(a, b)
        &&& post.siblings@.len() == pre.siblings@.len() + 1
        &&& post.siblings_of(nid) == pre.children_of(id1, id2)
        &&& forall|w: int| 0 <= w < pre.siblings@.len() ==> (#[trigger] post.siblings@[w]@)
            == if pre.children_of(id1, id2).contains(w as u32) {
                pre.siblings@[w]@.push(nid)
            } else {
                pre.siblings@[w]@
            }
        &&& post.partners@.len() == pre.partners@.len() + 1
        &&& post.partners_of(nid).len() == 0
        &&& post.partners_of(id1) == pre.partners_of(id1).push(id2)
        &&& post.partners_of(id2) == pre.partners_of(id2).push(id1)
        &&& forall|w: int| 0 <= w < pre.partners@.len() && w != id1 as int && w != id2 as int
            ==> (#[trigger] post.partners@[w]@) == pre.partners@[w]@
    }

    /// `breed(sender, kitty_id_1, kitty_id_2, seed, extrinsic_index)`:
    /// breeds a new creature from two existing, distinct parents. The new
    /// genome takes each bit from one of the parents, chosen by the derived
    /// selector entropy. The caller owns the child; it need not own either
    /// parent. On success it appends `Breed(sender, new_id)` to the event
    /// log.
    ///
    /// Checked in order: the first parent exists, the second exists, the
    /// parents differ, the counter has headroom.
    pub fn breed(
        &mut self,
        sender: AccountId,
        kitty_id_1: u32,
        kitty_id_2: u32,
        seed: &[u8; SEED_BYTES],
        extrinsic_index: Option<u32>,
    ) -> (r: Result<u32, KittyError>)
        requires
            old(self).wf(),
        ensures
            final(self).wf(),
            match r {
                Ok(nid) => {
                    &&& old(self).kitty_exists(kitty_id_1)
                    &&& old(self).kitty_exists(kitty_id_2)
                    &&& kitty_id_1 != kitty_id_2
                    &&& old(self).count() < u32::MAX as nat
                    &&& nid as nat == old(self).count()
                    &&& Self::kitty_bred(
                        *old(self),
                        *final(self),
                        sender,
                        kitty_id_1,
                        kitty_id_2,
                        nid,
                        child_genome(
                            old(self).genome(kitty_id_1),
                            old(self).genome(kitty_id_2),
                            derived_entropy(seed@, sender, extrinsic_index),
                        ),
                    )
                    &&& final(self).events@ == old(self).events@.push(
                        KittyEvent::Breed { owner: sender, kitty_id: nid },
                    )
                },
                Err(KittyError::InvalidKittyId) => (!old(self).kitty_exists(kitty_id_1) || !old(
                    self,
                ).kitty_exists(kitty_id_2)) && *final(self) == *old(self),
                Err(KittyError::RequireDifferentParent) => old(self).kitty_exists(kitty_id_1)
                    && old(self).kitty_exists(kitty_id_2) && kitty_id_1 == kitty_id_2
                    && *final(self) == *old(self),
                Err(KittyError::KittiesCountOverflow) => old(self).kitty_exists(kitty_id_1)
                    && old(self).kitty_exists(kitty_id_2) && kitty_id_1 != kitty_id_2
                    && old(self).count() == u32::MAX as nat && *final(self) == *old(self),
                Err(_) => false,
            },
    {
        if kitty_id_1 as usize >= self.kitties.len() {
            return Err(KittyError::InvalidKittyId);
        }
        if kitty_id_2 as usize >= self.kitties.len() {
            return Err(KittyError::InvalidKittyId);
        }
        if kitty_id_1 == kitty_id_2 {
            return Err(KittyError::RequireDifferentParent);
        }
        let kitty_id = match self.next_kitty_id() {
            Err(e) => {
                return Err(e);
            },
            Ok(id) => id,
        };
        let selector = random_value(seed, sender, extrinsic_index);
        let dna1 = self.kitties[kitty_id_1 as usize].0;
        let dna2 = self.kitties[kitty_id_2 as usize].0;
        let mut new_dna: [u8; DNA_BYTES] = [0u8; DNA_BYTES];
        let mut i: usize = 0;
        while i < DNA_BYTES
            invariant
                i <= DNA_BYTES,
                forall|k: int| 0 <= k < i ==> #[trigger] new_dna@[k] == combine_dna_spec(
                    dna1@[k],
                    dna2@[k],
                    selector@[k],
                ),
            decreases DNA_BYTES - i,
        {
            new_dna[i] = combine_dna(dna1[i], dna2[i], selector[i]);
            i += 1;
        }
        proof {
            assert(new_dna@ =~= child_genome(dna1@, dna2@, selector@));
        }
        let ghost pre = *self;
        let ghost n = self.kitties@.len() as int;
        self.insert_kitty(sender, kitty_id, Kitty(new_dna));
        let ghost a = *self;
        self.parents[kitty_id as usize] = Some((kitty_id_1, kitty_id_2));
        self.partners[kitty_id_1 as usize].push(kitty_id_2);
        self.partners[kitty_id_2 as usize].push(kitty_id_1);
        let ghost b = *self;
        let key = pair_key(kitty_id_1, kitty_id_2);
        let sibs = self.children.get_list(key);
        self.children.push_id(key, kitty_id);
        proof {
            assert(a.children == pre.children);
            assert(sibs@ == pre.children_of(kitty_id_1, kitty_id_2));
            assert forall|p: int| 0 <= p < sibs@.len() implies (#[trigger] sibs@[p] as int) < n by {
                assert(pre.children.list_of(key)[p] == sibs@[p]);
            }
            assert forall|p: int, q: int| 0 <= p < q < sibs@.len() implies sibs@[p] != sibs@[q] by {
                assert(pre.children.list_of(key)[p] != pre.children.list_of(key)[q]);
            }
        }
        let ghost mid = *self;
        let ghost base = self.siblings@;
        let mut j: usize = 0;
        while j < sibs.len()
            invariant
                j <= sibs@.len(),
                n + 1 <= u32::MAX as int,
                kitty_id as int == n,
                base.len() == n + 1,
                forall|p: int| 0 <= p < sibs@.len() ==> (#[trigger] sibs@[p] as int) < n,
                forall|p: int, q: int| 0 <= p < q < sibs@.len() ==> sibs@[p] != sibs@[q],
                self.kitties == mid.kitties,
                self.owners == mid.owners,
                self.parents == mid.parents,
                self.partners == mid.partners,
                self.holdings == mid.holdings,
                self.children == mid.children,
                self.events == mid.events,
                self.siblings@.len() == base.len(),
                forall|w: int| 0 <= w < base.len() ==> (#[trigger] self.siblings@[w]@)
                    == if sibs@.take(j as int).contains(w as u32) {
                        base[w]@.push(kitty_id)
                    } else {
                        base[w]@
                    },
            decreases sibs@.len() - j,
        {
            let w = sibs[j];
            let ghost prevsib = self.siblings@;
            self.siblings[w as usize].push(kitty_id);
            proof {
                let tk = sibs@.take(j as int);
                let tk1 = sibs@.take(j + 1);
                assert(tk1 =~= tk.push(w));
                assert(self.siblings@ =~= prevsib.update(w as int, self.siblings@[w as int]));
                assert(self.siblings@[w as int]@ == prevsib[w as int]@.push(kitty_id));
                assert(!tk.contains(w)) by {
                    if tk.contains(w) {
                        let q = choose|q: int| 0 <= q < tk.len() && tk[q] == w;
                        assert(sibs@[q] == w);
                        assert(sibs@[q] != sibs@[j as int]);
                    }
                }
                assert forall|w2: int| 0 <= w2 < base.len() implies (#[trigger] self.siblings@[w2]@)
                    == if tk1.contains(w2 as u32) {
                        base[w2]@.push(kitty_id)
                    } else {
                        base[w2]@
                    } by {
                    if w2 == w as int {
                        assert(tk1[j as int] == w);
                        assert(tk1.contains(w));
                        assert(prevsib[w2]@ == base[w2]@);
                    } else {
                        assert(self.siblings@[w2]@ == prevsib[w2]@);
                        if tk1.contains(w2 as u32) {
                            let q = choose|q: int| 0 <= q < tk1.len() && tk1[q] == w2 as u32;
                            assert(q != j as int);
                            assert(tk[q] == w2 as u32);
                            assert(tk.contains(w2 as u32));
                        } else {
                            if tk.contains(w2 as u32) {
                                let q = choose|q: int| 0 <= q < tk.len() && tk[q] == w2 as u32;
                                assert(tk1[q] == w2 as u32);
                                assert(tk1.contains(w2 as u32));
                            }
                        }
                    }
                }
            }
            j += 1;
        }
        proof {
            assert(sibs@.take(sibs@.len() as int) =~= sibs@);
        }
        let ghost looped = *self;
        self.siblings[kitty_id as usize] = sibs;
        self.events.push(KittyEvent::Breed { owner: sender, kitty_id });
        proof {
            let post = *self;
            assert(looped.events@ == pre.events@) by {
                assert(mid.events@ == b.events@);
                assert(b.events@ == a.events@);
                assert(a.events@ == pre.events@);
            }
            assert(post.events@ == pre.events@.push(KittyEvent::Breed { owner: sender, kitty_id }));
            assert(post.siblings@ =~= looped.siblings@.update(kitty_id as int, post.siblings@[kitty_id as int]));
            // the new creature is in no earlier children list, so the loop
            // left every pre-existing sibling list as described
            assert(!sibs@.contains(kitty_id as u32)) by {
                if sibs@.contains(kitty_id) {
                    let q = choose|q: int| 0 <= q < sibs@.len() && sibs@[q] == kitty_id;
                    assert((sibs@[q] as int) < n);
                }
            }
            // --- well-formedness ---
            assert(post.owners@.len() == n + 1);
            assert(post.parents@.len() == n + 1);
            assert(post.siblings@.len() == n + 1);
            assert(post.partners@.len() == n + 1);
            assert(post.holdings == a.holdings);
            assert(post.owners@ == a.owners@);
            assert forall|o: u64, p: int| 0 <= p < post.holdings.list_of(o).len()
                implies (#[trigger] post.holdings.list_of(o)[p] as int) < n + 1
                    && post.owners@[post.holdings.list_of(o)[p] as int] == o by {
                assert((a.holdings.list_of(o)[p] as int) < n + 1);
                assert(a.owners@[a.holdings.list_of(o)[p] as int] == o);
            }
            assert forall|id: int| 0 <= id < n + 1
                implies (#[trigger] post.holdings.list_of(post.owners@[id])).contains(id as u32) by {
                assert(a.holdings.list_of(a.owners@[id]).contains(id as u32));
            }
            assert forall|o: u64, p: int, q: int|
                #![trigger post.holdings.list_of(o)[p], post.holdings.list_of(o)[q]]
                0 <= p < q < post.holdings.list_of(o).len()
                implies post.holdings.list_of(o)[p] != post.holdings.list_of(o)[q] by {
                assert(a.holdings.list_of(o)[p] != a.holdings.list_of(o)[q]);
            }
            assert forall|k: u64, p: int| 0 <= p < post.children.list_of(k).len()
                implies (#[trigger] post.children.list_of(k)[p] as int) < n + 1 by {
                if k == key {
                    assert(post.children.list_of(k) == pre.children.list_of(k).push(kitty_id));
                    if p < pre.children.list_of(k).len() {
                        assert((pre.children.list_of(k)[p] as int) < n);
                        assert(post.children.list_of(k)[p] == pre.children.list_of(k)[p]);
                    } else {
                        assert(post.children.list_of(k)[p] == kitty_id);
                    }
                } else {
                    assert(post.children.list_of(k) == pre.children.list_of(k));
                    assert((pre.children.list_of(k)[p] as int) < n);
                }
            }
            assert forall|k: u64, p: int, q: int|
                #![trigger post.children.list_of(k)[p], post.children.list_of(k)[q]]
                0 <= p < q < post.children.list_of(k).len()
                implies post.children.list_of(k)[p] != post.children.list_of(k)[q] by {
                if k == key {
                    let l0 = pre.children.list_of(k);
                    assert(post.children.list_of(k) == l0.push(kitty_id));
                    if q < l0.len() {
                        assert(l0[p] != l0[q]);
                    } else {
                        assert(post.children.list_of(k)[q] == kitty_id);
                        assert((l0[p] as int) < n);
                        assert(post.children.list_of(k)[p] == l0[p]);
                    }
                } else {
                    assert(post.children.list_of(k) == pre.children.list_of(k));
                    assert(pre.children.list_of(k)[p] != pre.children.list_of(k)[q]);
                }
            }
            assert(post.wf());
            // --- the transition predicate ---
            assert forall|k: int| 0 <= k < n implies #[trigger] post.kitties@[k] == pre.kitties@[k] by {
                assert(a.kitties@[k] == pre.kitties@[k]);
            }
            assert(post.genome(kitty_id) == child_genome(
                pre.genome(kitty_id_1),
                pre.genome(kitty_id_2),
                derived_entropy(seed@, sender, extrinsic_index),
            ));
            assert(post.parents@ =~= pre.parents@.push(Some((kitty_id_1, kitty_id_2))));
            assert(post.holdings_of(sender) == pre.holdings_of(sender).push(kitty_id));
            assert forall|o: AccountId| o != sender
                implies (#[trigger] post.holdings_of(o)) == pre.holdings_of(o) by {
                assert(a.holdings_of(o) == pre.holdings_of(o));
            }
            assert(post.children_of(kitty_id_1, kitty_id_2) == pre.children_of(
                kitty_id_1,
                kitty_id_2,
            ).push(kitty_id));
            assert forall|a2: u32, b2: u32| (a2, b2) != (kitty_id_1, kitty_id_2)
                implies (#[trigger] post.children_of(a2, b2)) == pre.children_of(a2, b2) by {
                if pair_key_spec(a2, b2) == key {
                    lemma_pair_key_injective(a2, b2, kitty_id_1, kitty_id_2);
                } else {
                    assert(post.children.list_of(pair_key_spec(a2, b2)) == mid.children.list_of(
                        pair_key_spec(a2, b2),
                    ));
                    assert(mid.children.list_of(pair_key_spec(a2, b2)) == pre.children.list_of(
                        pair_key_spec(a2, b2),
                    ));
                }
            }
            assert(post.siblings_of(kitty_id) == pre.children_of(kitty_id_1, kitty_id_2));
            assert forall|w: int| 0 <= w < n implies (#[trigger] post.siblings@[w]@)
                == if pre.children_of(kitty_id_1, kitty_id_2).contains(w as u32) {
                    pre.siblings@[w]@.push(kitty_id)
                } else {
                    pre.siblings@[w]@
                } by {
                assert(post.siblings@[w]@ == looped.siblings@[w]@);
                assert(looped.siblings@[w]@ == if sibs@.contains(w as u32) {
                    base[w]@.push(kitty_id)
                } else {
                    base[w]@
                });
                assert(base[w]@ == a.siblings@[w]@);
                assert(a.siblings@[w]@ == pre.siblings@[w]@);
            }
            assert(post.partners_of(kitty_id).len() == 0) by {
                assert(a.partners_of(kitty_id).len() == 0);
                assert(post.partners@[kitty_id as int]@ == b.partners@[kitty_id as int]@);
                assert(b.partners@[kitty_id as int]@ == a.partners@[kitty_id as int]@);
            }
            assert(post.partners_of(kitty_id_1) == pre.partners_of(kitty_id_1).push(kitty_id_2)) by {
                assert(a.partners@[kitty_id_1 as int]@ == pre.partners@[kitty_id_1 as int]@);
                assert(b.partners@[kitty_id_1 as int]@ == a.partners@[kitty_id_1 as int]@.push(
                    kitty_id_2,
                ));
                assert(post.partners@[kitty_id_1 as int]@ == b.partners@[kitty_id_1 as int]@);
            }
            assert(post.partners_of(kitty_id_2) == pre.partners_of(kitty_id_2).push(kitty_id_1)) by {
                assert(a.partners@[kitty_id_2 as int]@ == pre.partners@[kitty_id_2 as int]@);
                assert(b.partners@[kitty_id_2 as int]@ == a.partners@[kitty_id_2 as int]@.push(
                    kitty_id_1,
                ));
                assert(post.partners@[kitty_id_2 as int]@ == b.partners@[kitty_id_2 as int]@);
            }
            assert forall|w: int| 0 <= w < n && w != kitty_id_1 as int && w != kitty_id_2 as int
                implies (#[trigger] post.partners@[w]@) == pre.partners@[w]@ by {
                assert(post.partners@[w]@ == b.partners@[w]@);
                assert(b.partners@[w]@ == a.partners@[w]@);
                assert(a.partners@[w]@ == pre.partners@[w]@);
            }
            assert(Self::kitty_bred(
                pre,
                post,
                sender,
                kitty_id_1,
                kitty_id_2,
                kitty_id,
                child_genome(
                    pre.genome(kitty_id_1),
                    pre.genome(kitty_id_2),
                    derived_entropy(seed@, sender, extrinsic_index),
                ),
            ));
        }
        Ok(kitty_id)
    }

    /// The genome of creature `kitty_id`, if it exists.
    pub fn kitties(&self, kitty_id: u32) -> (r: Option<Kitty>)
        ensures
            match r {
                Some(k) => self.kitty_exists(kitty_id) && k.0@ == self.genome(kitty_id),
                None => !self.kitty_exists(kitty_id),
            },
    {
        if (kitty_id as usize) < self.kitties.len() {
            Some(self.kitties[kitty_id as usize])
        } else {
            None
        }
    }

    /// The owner of creature `kitty_id`, if it exists.
    pub fn kitty_owner(&self, kitty_id: u32) -> (r: Option<AccountId>)
        requires
            self.wf(),
        ensures
            match r {
                Some(o) => self.kitty_exists(kitty_id) && o == self.owner_spec(kitty_id),
                None => !self.kitty_exists(kitty_id),
            },
    {
        if (kitty_id as usize) < self.owners.len() {
            Some(self.owners[kitty_id as usize])
        } else {
            None
        }
    }

    /// The ids held by `owner`, in acquisition order.
    pub fn kitty_total(&self, owner: AccountId) -> (r: Vec<u32>)
        requires
            self.wf(),
        ensures
            r@ == self.holdings_of(owner),
    {
        self.holdings.get_list(owner)
    }

    /// The recorded parents of creature `kitty_id`: `None` when it does not
    /// exist or was created rather than bred.
    pub fn kitty_parents(&self, kitty_id: u32) -> (r: Option<(u32, u32)>)
        requires
            self.wf(),
        ensures
            r == if self.kitty_exists(kitty_id) {
                self.parents_of(kitty_id)
            } else {
                None::<(u32, u32)>
            },
    {
        if (kitty_id as usize) < self.parents.len() {
            self.parents[kitty_id as usize]
        } else {
            None
        }
    }

    /// The ids bred from the exact ordered pair `(a, b)`, oldest first.
    pub fn kitty_children(&self, a: u32, b: u32) -> (r: Vec<u32>)
        requires
            self.wf(),
        ensures
            r@ == self.children_of(a, b),
    {
        self.children.get_list(pair_key(a, b))
    }

    /// The recorded full siblings of creature `kitty_id` (empty when it
    /// does not exist).
    pub fn kitty_sibling(&self, kitty_id: u32) -> (r: Vec<u32>)
        requires
            self.wf(),
        ensures
            self.kitty_exists(kitty_id) ==> r@ == self.siblings_of(kitty_id),
            !self.kitty_exists(kitty_id) ==> r@.len() == 0,
    {
        if (kitty_id as usize) < self.siblings.len() {
            copy_ids(&self.siblings[kitty_id as usize])
        } else {
            Vec::new()
        }
    }

    /// The recorded breeding partners of creature `kitty_id` (empty when it
    /// does not exist).
    pub fn kitty_partner(&self, kitty_id: u32) -> (r: Vec<u32>)
        requires
            self.wf(),
        ensures
            self.kitty_exists(kitty_id) ==> r@ == self.partners_of(kitty_id),
            !self.kitty_exists(kitty_id) ==> r@.len() == 0,
    {
        if (kitty_id as usize) < self.partners.len() {
            copy_ids(&self.partners[kitty_id as usize])
        } else {
            Vec::new()
        }
    }
}

/// A copy of a list of ids.
fn copy_ids(v: &Vec<u32>) -> (r: Vec<u32>)
    ensures
        r@ == v@,
{
    let mut out: Vec<u32> = Vec::new();
    let n = v.len();
    let mut i: usize = 0;
    while i < n
        invariant
            n == v@.len(),
            i <= n,
            out@ == v@.subrange(0, i as int),
        decreases n - i,
    {
        out.push(v[i]);
        proof {
            assert(out@ =~= v@.subrange(0, i + 1));
        }
        i += 1;
    }
    proof {
        assert(out@ =~= v@);
    }
    out
}

/// Law: a successful `create` advances the identifier counter by exactly
/// one and assigns it an id that was never allocated before; every id
/// already allocated stays allocated.
pub proof fn lemma_create_allocates(
    pre: KittyRegistry,
    post: KittyRegistry,
    owner: AccountId,
    id: u32,
    dna: Seq<u8>,
)
    requires
        KittyRegistry::kitty_inserted(pre, post, owner, id, dna),
    ensures
        post.count() == pre.count() + 1,
        id as nat == pre.count(),
        !pre.kitty_exists(id),
        post.kitty_exists(id),
        forall|x: u32| pre.kitty_exists(x) ==> post.kitty_exists(x),
{
}

/// Law: a successful `breed` advances the identifier counter by exactly
/// one and assigns the child an id that was never allocated before; every
/// id already allocated stays allocated.
pub proof fn lemma_breed_allocates(
    pre: KittyRegistry,
    post: KittyRegistry,
    sender: AccountId,
    id1: u32,
    id2: u32,
    nid: u32,
    dna: Seq<u8>,
)
    requires
        KittyRegistry::kitty_bred(pre, post, sender, id1, id2, nid, dna),
    ensures
        post.count() == pre.count() + 1,
        nid as nat == pre.count(),
        !pre.kitty_exists(nid),
        post.kitty_exists(nid),
        forall|x: u32| pre.kitty_exists(x) ==> post.kitty_exists(x),
{
}

/// Law: ownership is unique — in any well-formed state, two occurrences of
/// one creature id in holdings lists coincide: the lists belong to the same
/// owner, the recorded owner of the creature, and the positions are equal.
/// With `lemma_ownership_present` below: every allocated id appears in
/// exactly one owner's list, exactly once.
pub proof fn lemma_ownership_unique(
    s: KittyRegistry,
    id: u32,
    o1: AccountId,
    p1: int,
    o2: AccountId,
    p2: int,
)
    requires
        s.wf(),
        0 <= p1 < s.holdings_of(o1).len(),
        s.holdings_of(o1)[p1] == id,
        0 <= p2 < s.holdings_of(o2).len(),
        s.holdings_of(o2)[p2] == id,
    ensures
        s.kitty_exists(id),
        o1 == s.owner_spec(id),
        o1 == o2,
        p1 == p2,
{
    assert(s.holdings.list_of(o1)[p1] == id);
    assert(s.holdings.list_of(o2)[p2] == id);
    assert(s.owners@[id as int] == o1);
    assert(s.owners@[id as int] == o2);
    if p1 < p2 {
        assert(s.holdings.list_of(o1)[p1] != s.holdings.list_of(o1)[p2]);
    } else if p2 < p1 {
        assert(s.holdings.list_of(o1)[p2] != s.holdings.list_of(o1)[p1]);
    }
}

/// Law: ownership is total — in any well-formed state, every allocated
/// creature id does appear in its recorded owner's holdings list.
pub proof fn lemma_ownership_present(s: KittyRegistry, id: u32)
    requires
        s.wf(),
        s.kitty_exists(id),
    ensures
        s.holdings_of(s.owner_spec(id)).contains(id),
{
    assert(s.holdings.list_of(s.owners@[id as int]).contains(id));
}

/// Law: a successful `transfer` preserves the total supply — the set of
/// allocated ids, the identifier counter and every creature's genome are
/// unchanged; only ownership moves.
pub proof fn lemma_transfer_preserves_supply(
    pre: KittyRegistry,
    post: KittyRegistry,
    sender: AccountId,
    to: AccountId,
    id: u32,
)
    requires
        KittyRegistry::transferred(pre, post, sender, to, id),
    ensures
        post.count() == pre.count(),
        forall|x: u32| post.kitty_exists(x) == pre.kitty_exists(x),
        forall|x: u32| pre.kitty_exists(x) ==> post.genome(x) == pre.genome(x),
{
}

} // verus!
