use vstd::prelude::*;

use crate::addressing::derive_record_address;
use crate::addressing::derived_of;
use crate::errors::MyError;
use crate::identity::Identity;
use crate::store::spec_initialize_account;
use crate::store::spec_store_interaction;
use crate::store::wf_view;
use crate::store::InteractionAccount;
use crate::store::InteractionAccountView;

verus! {

/// One slot of the ledger: an owner identity and that owner's record store.
pub struct LedgerEntry {
    pub owner: Identity,
    pub account: InteractionAccount,
}

/// The account storage of the hosting runtime, as this library models it:
/// at most one record store per owner identity, created exactly once and
/// located again on every later operation by rederiving the owner's address.
pub struct Ledger {
    entries: Vec<LedgerEntry>,
}

/// The map an entry sequence denotes: each owner to that owner's store,
/// later entries winning (well-formed ledgers have no duplicate owners).
pub open spec fn entries_map(s: Seq<LedgerEntry>) -> Map<Seq<u8>, InteractionAccountView>
    decreases s.len(),
{
    if s.len() == 0 {
        Map::empty()
    } else {
        entries_map(s.drop_last()).insert(s.last().owner@, s.last().account@)
    }
}

impl View for Ledger {
    type V = Map<Seq<u8>, InteractionAccountView>;

    closed spec fn view(&self) -> Map<Seq<u8>, InteractionAccountView> {
        entries_map(self.entries@)
    }
}

/// An owner is a key of the denoted map exactly when some entry carries it.
proof fn lemma_entries_map_contains(s: Seq<LedgerEntry>, k: Seq<u8>)
    ensures
        entries_map(s).contains_key(k) <==> exists|i: int|
            0 <= i < s.len() && (#[trigger] s[i]).owner@ == k,
    decreases s.len(),
{
    if s.len() == 0 {
    } else {
        let s0 = s.drop_last();
        lemma_entries_map_contains(s0, k);
        if s.last().owner@ == k {
            assert(s[s.len() - 1].owner@ == k);
        } else {
            if exists|i: int| 0 <= i < s0.len() && (#[trigger] s0[i]).owner@ == k {
                let i = choose|i: int| 0 <= i < s0.len() && (#[trigger] s0[i]).owner@ == k;
                assert(s[i].owner@ == k);
            }
            if exists|i: int| 0 <= i < s.len() && (#[trigger] s[i]).owner@ == k {
                let i = choose|i: int| 0 <= i < s.len() && (#[trigger] s[i]).owner@ == k;
                assert(s0[i].owner@ == k);
            }
        }
    }
}

/// When no later entry repeats the owner of entry `i`, the denoted map sends
/// that owner to that entry's store.
proof fn lemma_entries_map_index(s: Seq<LedgerEntry>, i: int)
    requires
        0 <= i < s.len(),
        forall|j: int| i < j < s.len() ==> (#[trigger] s[j]).owner@ != s[i].owner@,
    ensures
        entries_map(s).contains_key(s[i].owner@),
        entries_map(s)[s[i].owner@] == s[i].account@,
    decreases s.len(),
{
    if i == s.len() - 1 {
    } else {
        let s0 = s.drop_last();
        assert(s0[i] == s[i]);
        lemma_entries_map_index(s0, i);
        assert(s.last().owner@ != s[i].owner@);
    }
}

/// Appending an entry denotes inserting its owner's store into the map.
proof fn lemma_entries_map_push(s: Seq<LedgerEntry>, e: LedgerEntry)
    ensures
        entries_map(s.push(e)) == entries_map(s).insert(e.owner@, e.account@),
{
    assert(s.push(e).drop_last() =~= s);
    assert(s.push(e).last() == e);
}

/// Replacing entry `i` by one with the same owner denotes inserting the new
/// store under that owner, when owners are pairwise distinct.
proof fn lemma_entries_map_update(s: Seq<LedgerEntry>, i: int, e: LedgerEntry)
    requires
        0 <= i < s.len(),
        e.owner@ == s[i].owner@,
        forall|j: int, l: int|
            0 <= j < l < s.len() ==> (#[trigger] s[j]).owner@ != (#[trigger] s[l]).owner@,
    ensures
        entries_map(s.update(i, e)) == entries_map(s).insert(e.owner@, e.account@),
    decreases s.len(),
{
    let su = s.update(i, e);
    if i == s.len() - 1 {
        assert(su.drop_last() =~= s.drop_last());
        assert(su.last() == e);
        assert(entries_map(s.drop_last()).insert(s.last().owner@, s.last().account@).insert(
            e.owner@,
            e.account@,
        ) =~= entries_map(s.drop_last()).insert(e.owner@, e.account@));
    } else {
        let s0 = s.drop_last();
        assert(su.drop_last() =~= s0.update(i, e));
        assert(su.last() == s.last());
        assert(s0[i] == s[i]);
        lemma_entries_map_update(s0, i, e);
        assert(s.last().owner@ != e.owner@);
        assert(entries_map(s0).insert(e.owner@, e.account@).insert(
            s.last().owner@,
            s.last().account@,
        ) =~= entries_map(s0).insert(s.last().owner@, s.last().account@).insert(
            e.owner@,
            e.account@,
        ));
    }
}

/// What one initialization attempt does to the modeled storage: nothing when
/// the owner admits no derived address, nothing when the owner's store
/// already exists, and otherwise exactly one fresh, empty store for the
/// owner, whose derived address is returned.
pub open spec fn spec_initialize(
    m: Map<Seq<u8>, InteractionAccountView>,
    owner: Seq<u8>,
) -> (Map<Seq<u8>, InteractionAccountView>, Result<Seq<u8>, MyError>) {
    match derived_of(owner) {
        None => (m, Err(MyError::AddressDerivation)),
        Some(p) => if m.contains_key(owner) {
            (m, Err(MyError::AlreadyInitialized))
        } else {
            (m.insert(owner, spec_initialize_account(owner)), Ok(p.0))
        },
    }
}

/// The model of an initialization result: the fresh store's address, or the
/// error unchanged.
pub open spec fn initialize_result_view(r: Result<Identity, MyError>) -> Result<Seq<u8>, MyError> {
    match r {
        Ok(a) => Ok(a@),
        Err(e) => Err(e),
    }
}

impl Ledger {
    /// Well-formedness of the modeled storage: owners are pairwise distinct,
    /// every store is well-formed, and every store's authority is the owner
    /// it is filed under — the authority is set once, at creation, from the
    /// owner, and never changes.
    pub closed spec fn wf(&self) -> bool {
        &&& forall|j: int, l: int|
            0 <= j < l < self.entries@.len() ==> (#[trigger] self.entries@[j]).owner@
                != (#[trigger] self.entries@[l]).owner@
        &&& forall|j: int|
            0 <= j < self.entries@.len() ==> wf_view((#[trigger] self.entries@[j]).account@)
        &&& forall|j: int|
            0 <= j < self.entries@.len() ==> (#[trigger] self.entries@[j]).account@.authority
                == self.entries@[j].owner@
    }

    /// Storage with no record store in it at all.
    pub fn new() -> (r: Ledger)
        ensures
            r@ == Map::<Seq<u8>, InteractionAccountView>::empty(),
            r.wf(),
    {
        let r = Ledger { entries: Vec::new() };
        proof {
            assert(r.entries@.len() == 0);
        }
        r
    }

    /// The position of `owner`'s entry, or nothing when no store exists for
    /// this owner.
    fn find_index(&self, owner: &Identity) -> (r: Option<usize>)
        ensures
            match r {
                Some(i) => i < self.entries@.len() && self.entries@[i as int].owner@ == owner@
                    && self@.contains_key(owner@),
                None => !self@.contains_key(owner@),
            },
    {
        let mut i: usize = 0;
        while i < self.entries.len()
            invariant
                i <= self.entries@.len(),
                forall|j: int| 0 <= j < i ==> (#[trigger] self.entries@[j]).owner@ != owner@,
            decreases self.entries@.len() - i,
        {
            if self.entries[i].owner.equals(owner) {
                proof {
                    lemma_entries_map_contains(self.entries@, owner@);
                    assert(self.entries@[i as int].owner@ == owner@);
                }
                return Some(i);
            }
            i += 1;
        }
        proof {
            lemma_entries_map_contains(self.entries@, owner@);
        }
        None
    }

    /// Whether a record store exists for `owner`.
    pub fn has_store(&self, owner: &Identity) -> (r: bool)
        ensures
            r <==> self@.contains_key(owner@),
    {
        self.find_index(owner).is_some()
    }

    /// Creates the record store of `owner`, exactly once: the store is
    /// placed at the address derived from the owner's identity, its
    /// authority is set to the owner, and its log starts empty. A second
    /// call for the same owner finds the address occupied and fails with
    /// `AlreadyInitialized`, touching nothing. The allocation fee is debited
    /// from the payer by the hosting runtime; this logic does not compute it.
    pub fn initialize(&mut self, _payer: &Identity, owner: &Identity) -> (r: Result<
        Identity,
        MyError,
    >)
        requires
            old(self).wf(),
        ensures
            final(self).wf(),
            final(self)@ == spec_initialize(old(self)@, owner@).0,
            initialize_result_view(r) == spec_initialize(old(self)@, owner@).1,
    {
        let derived = derive_record_address(owner);
        match derived {
            Err(_) => Err(MyError::AddressDerivation),
            Ok((address, _bump)) => {
                match self.find_index(owner) {
                    Some(_) => Err(MyError::AlreadyInitialized),
                    None => {
                        let account = InteractionAccount::initialize(*owner);
                        self.entries.push(LedgerEntry { owner: *owner, account });
                        proof {
                            let e = final(self).entries@.last();
                            lemma_entries_map_push(old(self).entries@, e);
                            lemma_entries_map_contains(old(self).entries@, owner@);
                        }
                        Ok(address)
                    },
                }
            },
        }
    }

    /// Appends one interaction to the store of `owner`, on behalf of
    /// `caller`, at runtime-clock time `now`: the caller must equal the
    /// stored authority exactly and the store must still have room, and on
    /// any failure nothing changes.
    pub fn store_interaction(&mut self, owner: &Identity, caller: &Identity, now: i64) -> (r:
        Result<(), MyError>)
        requires
            old(self).wf(),
            old(self)@.contains_key(owner@),
        ensures
            final(self).wf(),
            final(self)@ == old(self)@.insert(
                owner@,
                spec_store_interaction(old(self)@[owner@], caller@, now as int).0,
            ),
            r == spec_store_interaction(old(self)@[owner@], caller@, now as int).1,
            r is Err ==> final(self)@ == old(self)@,
    {
        match self.find_index(owner) {
            // The precondition has the store existing, so this arm cannot run.
            None => {
                proof {
                    assert(false);
                }
                Err(MyError::InvalidAuthority)
            },
            Some(i) => {
                proof {
                    lemma_entries_map_index(self.entries@, i as int);
                }
                let r = self.entries[i].account.store_interaction(caller, now);
                proof {
                    let e = final(self).entries@[i as int];
                    lemma_entries_map_update(old(self).entries@, i as int, e);
                    if r is Err {
                        assert(final(self)@ =~= old(self)@);
                    }
                }
                r
            },
        }
    }

    /// Proves, at the protocol level, that the owner's record store is
    /// reachable: it mutates nothing and never fails, for any caller —
    /// reading is not gated by the authority check. Actual data retrieval is
    /// a passive external read of the persisted bytes.
    pub fn read_interactions(&self, owner: &Identity) -> (r: Result<(), MyError>)
        requires
            self.wf(),
            self@.contains_key(owner@),
        ensures
            r == Ok::<(), MyError>(()),
    {
        Ok(())
    }

    /// The record store of `owner`, for inspection, or nothing when no store
    /// exists for this owner.
    pub fn record_store(&self, owner: &Identity) -> (r: Option<&InteractionAccount>)
        requires
            self.wf(),
        ensures
            match r {
                Some(a) => self@.contains_key(owner@) && a@ == self@[owner@],
                None => !self@.contains_key(owner@),
            },
    {
        match self.find_index(owner) {
            Some(i) => {
                proof {
                    lemma_entries_map_index(self.entries@, i as int);
                }
                Some(&self.entries[i].account)
            },
            None => None,
        }
    }
}

/// Initialization happens exactly once per owner: after one success, a
/// second attempt for the same owner fails with `AlreadyInitialized` and
/// leaves every store — the fresh one included — untouched.
pub proof fn lemma_initialize_exactly_once(m: Map<Seq<u8>, InteractionAccountView>, owner: Seq<u8>)
    ensures
        ({
            let (m1, r1) = spec_initialize(m, owner);
            r1 is Ok ==> spec_initialize(m1, owner) == (
                m1,
                Err::<Seq<u8>, MyError>(MyError::AlreadyInitialized),
            )
        }),
{
}

/// A fresh initialization files the store under its owner, records the
/// owner as the store's authority, and leaves the interaction log empty.
pub proof fn lemma_initialize_fresh_store(m: Map<Seq<u8>, InteractionAccountView>, owner: Seq<u8>)
    ensures
        ({
            let (m1, r1) = spec_initialize(m, owner);
            r1 is Ok ==> m1.contains_key(owner) && m1[owner] == spec_initialize_account(owner)
                && m1[owner].authority == owner && m1[owner].interactions.len() == 0
        }),
{
}

} // verus!
