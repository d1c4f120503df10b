//! Content-ownership attestation registry ("claim registry").
//!
//! A claim is an opaque byte sequence, 2 to 10 bytes long, acting as a
//! fingerprint of attested content. The registry maps each claim key to the
//! account holding it and the block height recorded when the mapping was
//! last written. Holding the mapping is the sole proof of attestation.
//!
//! Each transition checks every precondition before any write: on failure
//! it returns a named error and the registry is left exactly as it was, the
//! event log included. On success exactly one record (`ClaimCreated`,
//! `ClaimRevoked`, `ClaimTransfer`) is appended to the log; delivering the
//! log to observers is the surrounding runtime's concern.

use vstd::prelude::*;
use crate::AccountId;
use crate::BlockNumber;

verus! {

/// Shortest claim key accepted.
pub const MIN_CLAIM_LEN: usize = 2;

/// Longest claim key accepted.
pub const MAX_CLAIM_LEN: usize = 10;

/// Reasons a claim transition is refused. Every one is a precondition
/// violation; the failing transition writes nothing.
#[derive(Clone, Copy, PartialEq, Eq, Structural, Debug)]
pub enum ClaimError {
    ClaimTooShort,
    ClaimTooLong,
    ClaimAlreadyExist,
    ClaimNotExist,
    NotClaimOwner,
    NotTransferToSelf,
}

/// One attestation: the claim key, the account holding it, and the height
/// recorded when this mapping was last written.
pub struct ClaimRecord {
    pub claim: Vec<u8>,
    pub owner: AccountId,
    pub height: BlockNumber,
}

/// A notification record, appended by each successful transition and
/// consumed by external observers.
#[derive(PartialEq, Eq, Debug)]
pub enum ClaimEvent {
    ClaimCreated { owner: AccountId, claim: Vec<u8> },
    ClaimRevoked { owner: AccountId, claim: Vec<u8> },
    ClaimTransfer { from: AccountId, claim: Vec<u8>, to: AccountId },
}

/// Whether `e` announces that `owner` attested key `c`.
pub open spec fn is_claim_created_event(e: ClaimEvent, owner: AccountId, c: Seq<u8>) -> bool {
    match e {
        ClaimEvent::ClaimCreated { owner: o, claim: cl } => o == owner && cl@ == c,
        _ => false,
    }
}

/// Whether `e` announces that `owner` revoked key `c`.
pub open spec fn is_claim_revoked_event(e: ClaimEvent, owner: AccountId, c: Seq<u8>) -> bool {
    match e {
        ClaimEvent::ClaimRevoked { owner: o, claim: cl } => o == owner && cl@ == c,
        _ => false,
    }
}

/// Whether `e` announces that `from` passed key `c` to `to`.
pub open spec fn is_claim_transfer_event(e: ClaimEvent, from: AccountId, c: Seq<u8>, to: AccountId) -> bool {
    match e {
        ClaimEvent::ClaimTransfer { from: f, claim: cl, to: t } => f == from && cl@ == c && t == to,
        _ => false,
    }
}

/// The claim registry: a map from claim key to `(owner, height)`, held as a
/// list of records whose keys are pairwise distinct, and the ordered log of
/// events its transitions have emitted.
pub struct ClaimRegistry {
    pub proofs: Vec<ClaimRecord>,
    pub events: Vec<ClaimEvent>,
}

impl ClaimRegistry {
    /// Well-formedness: no claim key is recorded twice.
    pub open spec fn wf(self) -> bool {
        forall|i: int, j: int|
            0 <= i < j < self.proofs@.len() ==> (#[trigger] self.proofs@[i]).claim@
                != (#[trigger] self.proofs@[j]).claim@
    }

    /// Whether a mapping for key `c` exists.
    pub open spec fn has_claim(self, c: Seq<u8>) -> bool {
        exists|i: int| 0 <= i < self.proofs@.len() && (#[trigger] self.proofs@[i]).claim@ == c
    }

    /// The position of the record for key `c`; meaningful only when
    /// `has_claim(c)` holds (and then unique, by `wf`).
    pub open spec fn claim_index(self, c: Seq<u8>) -> int {
        choose|i: int| 0 <= i < self.proofs@.len() && (#[trigger] self.proofs@[i]).claim@ == c
    }

    /// The account holding key `c` (meaningful only when `has_claim(c)`).
    pub open spec fn owner_of(self, c: Seq<u8>) -> AccountId {
        self.proofs@[self.claim_index(c)].owner
    }

    /// The height recorded for key `c` (meaningful only when `has_claim(c)`).
    pub open spec fn height_of(self, c: Seq<u8>) -> BlockNumber {
        self.proofs@[self.claim_index(c)].height
    }

    /// Acceptance condition of `create_claim`: the key has a lawful length
    /// and is not yet attested.
    pub open spec fn accepts_create(self, c: Seq<u8>) -> bool {
        MIN_CLAIM_LEN <= c.len() <= MAX_CLAIM_LEN && !self.has_claim(c)
    }

    /// The successful `create_claim` transition from `pre` to `post`:
    /// one record is appended and every other mapping is untouched.
    pub open spec fn created(pre: Self, post: Self, sender: AccountId, c: Seq<u8>, h: BlockNumber) -> bool {
        &&& post.proofs@.len() == pre.proofs@.len() + 1
        &&& forall|k: int| 0 <= k < pre.proofs@.len() ==> post.proofs@[k] == pre.proofs@[k]
        &&& post.proofs@.last().claim@ == c
        &&& post.proofs@.last().owner == sender
        &&& post.proofs@.last().height == h
        &&& post.has_claim(c)
        &&& post.owner_of(c) == sender
        &&& post.height_of(c) == h
        &&& forall|d: Seq<u8>| d != c ==> (#[trigger] post.has_claim(d)) == pre.has_claim(d)
        &&& forall|d: Seq<u8>| d != c && #[trigger] pre.has_claim(d)
                ==> post.owner_of(d) == pre.owner_of(d) && post.height_of(d) == pre.height_of(d)
    }

    /// The successful `revoke_claim` transition: the record for `c` is
    /// removed and every other mapping is untouched.
    pub open spec fn revoked(pre: Self, post: Self, c: Seq<u8>) -> bool {
        &&& post.proofs@ == pre.proofs@.remove(pre.claim_index(c))
        &&& !post.has_claim(c)
        &&& forall|d: Seq<u8>| d != c ==> (#[trigger] post.has_claim(d)) == pre.has_claim(d)
        &&& forall|d: Seq<u8>| d != c && #[trigger] pre.has_claim(d)
                ==> post.owner_of(d) == pre.owner_of(d) && post.height_of(d) == pre.height_of(d)
    }

    /// The successful `transfer_claim` transition: the record for `c` is
    /// rewritten to `(receiver, h)` and every other mapping is untouched.
    /// The stored height is overwritten with the transfer height.
    pub open spec fn claim_transferred(pre: Self, post: Self, c: Seq<u8>, receiver: AccountId, h: BlockNumber) -> bool {
        &&& post.proofs@.len() == pre.proofs@.len()
        &&& forall|k: int| 0 <= k < pre.proofs@.len() && k != pre.claim_index(c)
                ==> post.proofs@[k] == pre.proofs@[k]
        &&& post.proofs@[pre.claim_index(c)].claim@ == c
        &&& post.has_claim(c)
        &&& post.owner_of(c) == receiver
        &&& post.height_of(c) == h
        &&& forall|d: Seq<u8>| (#[trigger] post.has_claim(d)) == pre.has_claim(d)
        &&& forall|d: Seq<u8>| d != c && #[trigger] pre.has_claim(d)
                ==> post.owner_of(d) == pre.owner_of(d) && post.height_of(d) == pre.height_of(d)
    }

    /// Any position holding key `c` is the unique one `claim_index` names.
    proof fn lemma_index_unique(self, c: Seq<u8>, i: int)
        requires
            self.wf(),
            0 <= i < self.proofs@.len(),
            self.proofs@[i].claim@ == c,
        ensures
            self.has_claim(c),
            self.claim_index(c) == i,
    {
        assert(self.has_claim(c));
        let j = self.claim_index(c);
        if j < i {
            assert(self.proofs@[j].claim@ != self.proofs@[i].claim@);
        } else if i < j {
            assert(self.proofs@[i].claim@ != self.proofs@[j].claim@);
        }
    }

    /// Every event of `pre` stands unchanged in `post`, and exactly one —
    /// the last — was appended after them.
    pub open spec fn event_appended(pre: Self, post: Self) -> bool {
        &&& post.events@.len() == pre.events@.len() + 1
        &&& forall|k: int| 0 <= k < pre.events@.len() ==> post.events@[k] == pre.events@[k]
    }

    /// An empty registry: nothing is attested, nothing was emitted.
    pub fn new() -> (r: ClaimRegistry)
        ensures
            r.wf(),
            r.proofs@.len() == 0,
            r.events@.len() == 0,
            forall|c: Seq<u8>| !(#[trigger] r.has_claim(c)),
    {
        ClaimRegistry { proofs: Vec::new(), events: Vec::new() }
    }

    /// Finds the position of the record for `claim`, if one exists.
    fn find(&self, claim: &Vec<u8>) -> (r: Option<usize>)
        requires
            self.wf(),
        ensures
            match r {
                Some(i) => {
                    &&& i < self.proofs@.len()
                    &&& self.proofs@[i as int].claim@ == claim@
                    &&& self.has_claim(claim@)
                    &&& self.claim_index(claim@) == i
                },
                None => !self.has_claim(claim@),
            },
    {
        let n = self.proofs.len();
        let mut i: usize = 0;
        while i < n
            invariant
                n == self.proofs@.len(),
                i <= n,
                self.wf(),
                forall|k: int| 0 <= k < i ==> (#[trigger] self.proofs@[k]).claim@ != claim@,
            decreases n - i,
        {
            if bytes_eq(&self.proofs[i].claim, claim) {
                proof {
                    self.lemma_index_unique(claim@, i as int);
                }
                return Some(i);
            }
            i += 1;
        }
        None
    }

    /// The `(owner, height)` recorded for `claim`, if it is attested.
    pub fn get_claim(&self, claim: &Vec<u8>) -> (r: Option<(AccountId, BlockNumber)>)
        requires
            self.wf(),
        ensures
            match r {
                Some(p) => {
                    &&& self.has_claim(claim@)
                    &&& p.0 == self.owner_of(claim@)
                    &&& p.1 == self.height_of(claim@)
                },
                None => !self.has_claim(claim@),
            },
    {
        match self.find(claim) {
            None => None,
            Some(i) => Some((self.proofs[i].owner, self.proofs[i].height)),
        }
    }

    /// `create_claim(sender, claim, height)`: attests `claim` to `sender` at
    /// `height`. Accepted exactly when the key length lies in
    /// `[MIN_CLAIM_LEN, MAX_CLAIM_LEN]` and the key is not yet attested; the
    /// checks are made in the order too-short, too-long, already-present.
    pub fn create_claim(&mut self, sender: AccountId, claim: Vec<u8>, height: BlockNumber) -> (r: Result<(), ClaimError>)
        requires
            old(self).wf(),
        ensures
            final(self).wf(),
            r == Ok::<(), ClaimError>(()) <==> old(self).accepts_create(claim@),
            r == Err::<(), ClaimError>(ClaimError::ClaimTooShort) <==> claim@.len() < MIN_CLAIM_LEN,
            r == Err::<(), ClaimError>(ClaimError::ClaimTooLong) <==> claim@.len() > MAX_CLAIM_LEN,
            r == Err::<(), ClaimError>(ClaimError::ClaimAlreadyExist)
                <==> MIN_CLAIM_LEN <= claim@.len() <= MAX_CLAIM_LEN && old(self).has_claim(claim@),
            r.is_err() ==> *final(self) == *old(self),
            r.is_ok() ==> Self::created(*old(self), *final(self), sender, claim@, height),
            r.is_ok() ==> Self::event_appended(*old(self), *final(self))
                && is_claim_created_event(final(self).events@.last(), sender, claim@),
    {
        if claim.len() < MIN_CLAIM_LEN {
            return Err(ClaimError::ClaimTooShort);
        }
        if claim.len() > MAX_CLAIM_LEN {
            return Err(ClaimError::ClaimTooLong);
        }
        if let Some(_i) = self.find(&claim) {
            return Err(ClaimError::ClaimAlreadyExist);
        }
        let ghost pre = *self;
        let ghost c = claim@;
        let claim_copy = clone_bytes(&claim);
        self.proofs.push(ClaimRecord { claim, owner: sender, height });
        self.events.push(ClaimEvent::ClaimCreated { owner: sender, claim: claim_copy });
        proof {
            let n = pre.proofs@.len() as int;
            assert forall|i: int, j: int| 0 <= i < j < self.proofs@.len()
                implies (#[trigger] self.proofs@[i]).claim@ != (#[trigger] self.proofs@[j]).claim@ by {
                if j == n {
                    if self.proofs@[i].claim@ == c {
                        assert(pre.proofs@[i].claim@ == c);
                        assert(pre.has_claim(c));
                    }
                } else {
                    assert(pre.proofs@[i].claim@ != pre.proofs@[j].claim@);
                }
            }
            self.lemma_index_unique(c, n);
            assert forall|d: Seq<u8>| d != c implies (#[trigger] self.has_claim(d)) == pre.has_claim(d) by {
                if self.has_claim(d) {
                    let i = self.claim_index(d);
                    assert(self.proofs@[i].claim@ == d);
                    assert(i != n);
                    assert(pre.proofs@[i].claim@ == d);
                    assert(pre.has_claim(d));
                }
                if pre.has_claim(d) {
                    let i = pre.claim_index(d);
                    assert(pre.proofs@[i].claim@ == d);
                    assert(self.proofs@[i].claim@ == d);
                    assert(self.has_claim(d));
                }
            }
            assert forall|d: Seq<u8>| d != c && #[trigger] pre.has_claim(d)
                implies self.owner_of(d) == pre.owner_of(d) && self.height_of(d) == pre.height_of(d) by {
                let i = pre.claim_index(d);
                assert(pre.proofs@[i].claim@ == d);
                assert(self.proofs@[i].claim@ == d);
                self.lemma_index_unique(d, i);
                pre.lemma_index_unique(d, i);
            }
        }
        Ok(())
    }

    /// `revoke_claim(sender, claim)`: removes the mapping for `claim`.
    /// Accepted exactly when the key is attested and `sender` holds it.
    pub fn revoke_claim(&mut self, sender: AccountId, claim: Vec<u8>) -> (r: Result<(), ClaimError>)
        requires
            old(self).wf(),
        ensures
            final(self).wf(),
            r == Ok::<(), ClaimError>(())
                <==> old(self).has_claim(claim@) && old(self).owner_of(claim@) == sender,
            r == Err::<(), ClaimError>(ClaimError::ClaimNotExist) <==> !old(self).has_claim(claim@),
            r == Err::<(), ClaimError>(ClaimError::NotClaimOwner)
                <==> old(self).has_claim(claim@) && old(self).owner_of(claim@) != sender,
            r.is_err() ==> *final(self) == *old(self),
            r.is_ok() ==> Self::revoked(*old(self), *final(self), claim@),
            r.is_ok() ==> Self::event_appended(*old(self), *final(self))
                && is_claim_revoked_event(final(self).events@.last(), sender, claim@),
    {
        let i = match self.find(&claim) {
            None => {
                return Err(ClaimError::ClaimNotExist);
            },
            Some(i) => i,
        };
        if self.proofs[i].owner != sender {
            return Err(ClaimError::NotClaimOwner);
        }
        let ghost pre = *self;
        let ghost c = claim@;
        self.proofs.remove(i);
        self.events.push(ClaimEvent::ClaimRevoked { owner: sender, claim });
        proof {
            let n = pre.proofs@.len() as int;
            pre.proofs@.remove_ensures(i as int);
            assert forall|k: int| 0 <= k < self.proofs@.len()
                implies (#[trigger] self.proofs@[k]).claim@ != c by {
                if k < i {
                    assert(self.proofs@[k] == pre.proofs@[k]);
                    pre.lemma_index_unique(c, i as int);
                    if pre.proofs@[k].claim@ == c {
                        pre.lemma_index_unique(c, k);
                    }
                } else {
                    assert(self.proofs@[k] == pre.proofs@[k + 1]);
                    if pre.proofs@[k + 1].claim@ == c {
                        pre.lemma_index_unique(c, k + 1);
                        pre.lemma_index_unique(c, i as int);
                    }
                }
            }
            assert forall|i2: int, j2: int| 0 <= i2 < j2 < self.proofs@.len()
                implies (#[trigger] self.proofs@[i2]).claim@ != (#[trigger] self.proofs@[j2]).claim@ by {
                let oi = if i2 < i as int { i2 } else { i2 + 1 };
                let oj = if j2 < i as int { j2 } else { j2 + 1 };
                assert(self.proofs@[i2] == pre.proofs@[oi]);
                assert(self.proofs@[j2] == pre.proofs@[oj]);
                assert(pre.proofs@[oi].claim@ != pre.proofs@[oj].claim@);
            }
            assert(!self.has_claim(c)) by {
                if self.has_claim(c) {
                    let k = self.claim_index(c);
                    assert(self.proofs@[k].claim@ == c);
                }
            }
            assert forall|d: Seq<u8>| d != c implies (#[trigger] self.has_claim(d)) == pre.has_claim(d) by {
                if self.has_claim(d) {
                    let k = self.claim_index(d);
                    assert(self.proofs@[k].claim@ == d);
                    if k < i as int {
                        assert(pre.proofs@[k].claim@ == d);
                    } else {
                        assert(pre.proofs@[k + 1].claim@ == d);
                    }
                    assert(pre.has_claim(d));
                }
                if pre.has_claim(d) {
                    let k = pre.claim_index(d);
                    assert(pre.proofs@[k].claim@ == d);
                    assert(k != i as int) by {
                        pre.lemma_index_unique(c, i as int);
                    }
                    if k < i as int {
                        assert(self.proofs@[k].claim@ == d);
                    } else {
                        assert(self.proofs@[k - 1].claim@ == d);
                    }
                    assert(self.has_claim(d));
                }
            }
            assert forall|d: Seq<u8>| d != c && #[trigger] pre.has_claim(d)
                implies self.owner_of(d) == pre.owner_of(d) && self.height_of(d) == pre.height_of(d) by {
                let k = pre.claim_index(d);
                assert(pre.proofs@[k].claim@ == d);
                assert(k != i as int) by {
                    pre.lemma_index_unique(c, i as int);
                }
                pre.lemma_index_unique(d, k);
                if k < i as int {
                    assert(self.proofs@[k] == pre.proofs@[k]);
                    self.lemma_index_unique(d, k);
                } else {
                    assert(self.proofs@[k - 1] == pre.proofs@[k]);
                    self.lemma_index_unique(d, k - 1);
                }
            }
        }
        Ok(())
    }

    /// `transfer_claim(sender, claim, receiver, height)`: rewrites the
    /// mapping for `claim` to `(receiver, height)`. Accepted exactly when
    /// the key is attested, `sender` holds it, and `receiver` differs from
    /// `sender`. The recorded height becomes the transfer height.
    pub fn transfer_claim(&mut self, sender: AccountId, claim: Vec<u8>, receiver: AccountId, height: BlockNumber) -> (r: Result<(), ClaimError>)
        requires
            old(self).wf(),
        ensures
            final(self).wf(),
            r == Ok::<(), ClaimError>(())
                <==> old(self).has_claim(claim@) && old(self).owner_of(claim@) == sender
                    && receiver != sender,
            r == Err::<(), ClaimError>(ClaimError::ClaimNotExist) <==> !old(self).has_claim(claim@),
            r == Err::<(), ClaimError>(ClaimError::NotClaimOwner)
                <==> old(self).has_claim(claim@) && old(self).owner_of(claim@) != sender,
            r == Err::<(), ClaimError>(ClaimError::NotTransferToSelf)
                <==> old(self).has_claim(claim@) && old(self).owner_of(claim@) == sender
                    && receiver == sender,
            r.is_err() ==> *final(self) == *old(self),
            r.is_ok() ==> Self::claim_transferred(*old(self), *final(self), claim@, receiver, height),
            r.is_ok() ==> Self::event_appended(*old(self), *final(self))
                && is_claim_transfer_event(final(self).events@.last(), sender, claim@, receiver),
    {
        let i = match self.find(&claim) {
            None => {
                return Err(ClaimError::ClaimNotExist);
            },
            Some(i) => i,
        };
        if self.proofs[i].owner != sender {
            return Err(ClaimError::NotClaimOwner);
        }
        if sender == receiver {
            return Err(ClaimError::NotTransferToSelf);
        }
        let ghost pre = *self;
        let ghost c = claim@;
        let claim_copy = clone_bytes(&claim);
        self.proofs[i] = ClaimRecord { claim, owner: receiver, height };
        self.events.push(ClaimEvent::ClaimTransfer { from: sender, claim: claim_copy, to: receiver });
        proof {
            assert(self.proofs@ == pre.proofs@.update(i as int, self.proofs@[i as int]));
            assert forall|i2: int, j2: int| 0 <= i2 < j2 < self.proofs@.len()
                implies (#[trigger] self.proofs@[i2]).claim@ != (#[trigger] self.proofs@[j2]).claim@ by {
                assert(self.proofs@[i2].claim@ == pre.proofs@[i2].claim@);
                assert(self.proofs@[j2].claim@ == pre.proofs@[j2].claim@);
                assert(pre.proofs@[i2].claim@ != pre.proofs@[j2].claim@);
            }
            self.lemma_index_unique(c, i as int);
            assert forall|d: Seq<u8>| (#[trigger] self.has_claim(d)) == pre.has_claim(d) by {
                if self.has_claim(d) {
                    let k = self.claim_index(d);
                    assert(self.proofs@[k].claim@ == d);
                    assert(pre.proofs@[k].claim@ == d);
                    assert(pre.has_claim(d));
                }
                if pre.has_claim(d) {
                    let k = pre.claim_index(d);
                    assert(pre.proofs@[k].claim@ == d);
                    assert(self.proofs@[k].claim@ == d);
                    assert(self.has_claim(d));
                }
            }
            assert forall|d: Seq<u8>| d != c && #[trigger] pre.has_claim(d)
                implies self.owner_of(d) == pre.owner_of(d) && self.height_of(d) == pre.height_of(d) by {
                let k = pre.claim_index(d);
                assert(pre.proofs@[k].claim@ == d);
                assert(k != i as int) by {
                    pre.lemma_index_unique(c, i as int);
                }
                assert(self.proofs@[k] == pre.proofs@[k]);
                pre.lemma_index_unique(d, k);
                self.lemma_index_unique(d, k);
            }
        }
        Ok(())
    }
}

/// Law: a created claim that is then revoked leaves the registry without the
/// key, and a later `create_claim` of the same key — by any account — is
/// accepted again.
pub proof fn lemma_claim_lifecycle_roundtrip(s0: ClaimRegistry, s1: ClaimRegistry, s2: ClaimRegistry, a: AccountId, c: Seq<u8>, h: BlockNumber)
    requires
        s0.accepts_create(c),
        ClaimRegistry::created(s0, s1, a, c, h),
        ClaimRegistry::revoked(s1, s2, c),
    ensures
        !s2.has_claim(c),
        s2.accepts_create(c),
{
}

/// A copy of a byte vector.
fn clone_bytes(v: &Vec<u8>) -> (r: Vec<u8>)
    ensures
        r@ == v@,
{
    let mut out: Vec<u8> = Vec::new();
    let n = v.len();
    let mut i: usize = 0;
    while i < n
        invariant
            n == v@.len(),
            i <= n,
            out@ == v@.subrange(0, i as int),
        decreases n - i,
    {
        out.push(v[i]);
        proof {
            assert(out@ =~= v@.subrange(0, i + 1));
        }
        i += 1;
    }
    proof {
        assert(out@ =~= v@);
    }
    out
}

/// Byte-for-byte equality of two byte vectors.
fn bytes_eq(a: &Vec<u8>, b: &Vec<u8>) -> (r: bool)
    ensures
        r == (a@ == b@),
{
    if a.len() != b.len() {
        return false;
    }
    let n = a.len();
    let mut i: usize = 0;
    while i < n
        invariant
            n == a@.len(),
            a@.len() == b@.len(),
            i <= n,
            forall|k: int| 0 <= k < i ==> a@[k] == b@[k],
        decreases n - i,
    {
        if a[i] != b[i] {
            return false;
        }
        i += 1;
    }
    proof {
        assert(a@ =~= b@);
    }
    true
}

} // verus!
