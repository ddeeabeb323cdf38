use vstd::prelude::*;

use crate::errors::MyError;
use crate::identity::Identity;

verus! {

/// Hard capacity ceiling of one record store: the backing storage is
/// allocated once, at creation, and can never grow past this many entries.
pub const MAX_INTERACTIONS: usize = 10;

/// Bytes a full record store occupies, format discriminator excluded:
/// the authority, a 4-byte length prefix, and one 40-byte slot
/// (32-byte identity + 8-byte timestamp) per possible entry.
pub const MAX_SIZE: usize = 32 + 4 + MAX_INTERACTIONS * (32 + 8);

/// One immutable log entry: who interacted, and when (whole seconds).
#[derive(Clone, Copy, Debug)]
pub struct Interaction {
    pub wallet_address: Identity,
    pub last_interaction_timestamp: i64,
}

/// Mathematical model of one log entry.
#[verifier::ext_equal]
pub ghost struct InteractionView {
    pub wallet_address: Seq<u8>,
    pub last_interaction_timestamp: int,
}

impl View for Interaction {
    type V = InteractionView;

    open spec fn view(&self) -> InteractionView {
        InteractionView {
            wallet_address: self.wallet_address@,
            last_interaction_timestamp: self.last_interaction_timestamp as int,
        }
    }
}

/// The per-owner persisted entity: an authority fixed at creation, and an
/// append-only, capacity-bounded log of interactions.
#[derive(Debug)]
pub struct InteractionAccount {
    pub authority: Identity,
    pub interactions: Vec<Interaction>,
}

/// Mathematical model of one record store.
#[verifier::ext_equal]
pub ghost struct InteractionAccountView {
    pub authority: Seq<u8>,
    pub interactions: Seq<InteractionView>,
}

impl View for InteractionAccount {
    type V = InteractionAccountView;

    open spec fn view(&self) -> InteractionAccountView {
        InteractionAccountView {
            authority: self.authority@,
            interactions: self.interactions@.map_values(|x: Interaction| x@),
        }
    }
}

/// Well-formedness of a record store: the log never exceeds the fixed
/// capacity, and every entry is self-attributed — its wallet address equals
/// the store's authority, because only the authority may append.
pub open spec fn wf_view(a: InteractionAccountView) -> bool {
    &&& a.interactions.len() <= MAX_INTERACTIONS
    &&& forall|i: int|
        0 <= i < a.interactions.len() ==> (#[trigger] a.interactions[i]).wallet_address
            == a.authority
}

/// The store a fresh initialization produces: the given authority, no entries.
pub open spec fn spec_initialize_account(authority: Seq<u8>) -> InteractionAccountView {
    InteractionAccountView { authority, interactions: Seq::empty() }
}

/// The store and result one append attempt produces: rejected outright on an
/// authority mismatch, rejected when the store is full, and otherwise grown
/// by exactly one entry at the tail.
pub open spec fn spec_store_interaction(
    a: InteractionAccountView,
    caller: Seq<u8>,
    now: int,
) -> (InteractionAccountView, Result<(), MyError>) {
    if caller != a.authority {
        (a, Err(MyError::InvalidAuthority))
    } else if a.interactions.len() >= MAX_INTERACTIONS {
        (a, Err(MyError::CapacityExceeded))
    } else {
        (
            InteractionAccountView {
                authority: a.authority,
                interactions: a.interactions.push(
                    InteractionView { wallet_address: caller, last_interaction_timestamp: now },
                ),
            },
            Ok(()),
        )
    }
}

impl InteractionAccount {
    pub open spec fn wf(&self) -> bool {
        wf_view(self@)
    }

    /// Creates the record store for `authority`: authority set once, log empty.
    pub fn initialize(authority: Identity) -> (r: InteractionAccount)
        ensures
            r@ == spec_initialize_account(authority@),
            r.wf(),
    {
        let r = InteractionAccount { authority, interactions: Vec::new() };
        proof {
            assert(r@ =~= spec_initialize_account(authority@));
        }
        r
    }

    /// Appends one interaction for `caller` at time `now`, after the
    /// authority and capacity checks; on any failure the store is unchanged.
    pub fn store_interaction(&mut self, caller: &Identity, now: i64) -> (r: Result<(), MyError>)
        ensures
            final(self)@ == spec_store_interaction(old(self)@, caller@, now as int).0,
            r == spec_store_interaction(old(self)@, caller@, now as int).1,
    {
        if !caller.equals(&self.authority) {
            return Err(MyError::InvalidAuthority);
        }
        if self.interactions.len() >= MAX_INTERACTIONS {
            return Err(MyError::CapacityExceeded);
        }
        self.interactions.push(
            Interaction { wallet_address: *caller, last_interaction_timestamp: now },
        );
        proof {
            assert(final(self)@.interactions =~= spec_store_interaction(
                old(self)@,
                caller@,
                now as int,
            ).0.interactions);
            assert(final(self)@ =~= spec_store_interaction(old(self)@, caller@, now as int).0);
        }
        Ok(())
    }

    /// Proves nothing but reachability: reading mutates nothing and never
    /// fails; actual data retrieval is a passive read of persisted state.
    pub fn read_interactions(&self) -> (r: Result<(), MyError>)
        ensures
            r == Ok::<(), MyError>(()),
    {
        Ok(())
    }
}

/// An append by the authority of a store that still has room succeeds, grows
/// the log by exactly one entry at the tail, records the caller and the
/// timestamp there, and leaves every prior entry and the authority unchanged.
pub proof fn lemma_store_appends(a: InteractionAccountView, caller: Seq<u8>, now: int)
    requires
        caller == a.authority,
        a.interactions.len() < MAX_INTERACTIONS,
    ensures
        ({
            let (a1, r1) = spec_store_interaction(a, caller, now);
            &&& r1 == Ok::<(), MyError>(())
            &&& a1.interactions.len() == a.interactions.len() + 1
            &&& a1.interactions.last() == (InteractionView {
                wallet_address: caller,
                last_interaction_timestamp: now,
            })
            &&& forall|i: int|
                0 <= i < a.interactions.len() ==> a1.interactions[i] == a.interactions[i]
            &&& a1.authority == a.authority
        }),
{
}

/// An append by anyone but the stored authority fails with
/// `InvalidAuthority` and leaves the store exactly as it was.
pub proof fn lemma_store_wrong_authority(a: InteractionAccountView, caller: Seq<u8>, now: int)
    requires
        caller != a.authority,
    ensures
        spec_store_interaction(a, caller, now) == (a, Err::<(), MyError>(MyError::InvalidAuthority)),
{
}

/// Appends by the authority succeed exactly while the log holds fewer than
/// `MAX_INTERACTIONS` entries; once it is full every further append fails
/// with `CapacityExceeded` and leaves the store exactly as it was.
pub proof fn lemma_store_capacity(a: InteractionAccountView, caller: Seq<u8>, now: int)
    requires
        caller == a.authority,
    ensures
        ({
            let (a1, r1) = spec_store_interaction(a, caller, now);
            &&& (r1 == Ok::<(), MyError>(()) <==> a.interactions.len() < MAX_INTERACTIONS)
            &&& (a.interactions.len() >= MAX_INTERACTIONS ==> (a1, r1) == (
                a,
                Err::<(), MyError>(MyError::CapacityExceeded),
            ))
        }),
{
}

/// The store after `n` append attempts, all by `caller` at time `now`,
/// paired with the result of the last attempt (vacuously `Ok` for none).
pub open spec fn spec_store_repeated(
    a: InteractionAccountView,
    caller: Seq<u8>,
    now: int,
    n: nat,
) -> (InteractionAccountView, Result<(), MyError>)
    decreases n,
{
    if n == 0 {
        (a, Ok(()))
    } else {
        spec_store_interaction(spec_store_repeated(a, caller, now, (n - 1) as nat).0, caller, now)
    }
}

/// Starting from a fresh store, repeated appends by the authority fill it to
/// exactly `MAX_INTERACTIONS` entries and no further: each of the first
/// `MAX_INTERACTIONS` attempts succeeds, and every attempt past the ceiling
/// fails with `CapacityExceeded`, leaving the length at the ceiling.
pub proof fn lemma_store_fills_to_capacity(
    a: InteractionAccountView,
    caller: Seq<u8>,
    now: int,
    n: nat,
)
    requires
        a.authority == caller,
        a.interactions.len() == 0,
    ensures
        ({
            let (an, rn) = spec_store_repeated(a, caller, now, n);
            &&& an.authority == caller
            &&& an.interactions.len() == if n <= MAX_INTERACTIONS {
                n as int
            } else {
                MAX_INTERACTIONS as int
            }
            &&& (1 <= n <= MAX_INTERACTIONS ==> rn == Ok::<(), MyError>(()))
            &&& (n > MAX_INTERACTIONS ==> rn == Err::<(), MyError>(MyError::CapacityExceeded))
        }),
    decreases n,
{
    if n > 0 {
        lemma_store_fills_to_capacity(a, caller, now, (n - 1) as nat);
    }
}

/// Well-formedness — the capacity bound and self-attribution of every entry —
/// is preserved by every append attempt, successful or failed.
pub proof fn lemma_store_preserves_wf(a: InteractionAccountView, caller: Seq<u8>, now: int)
    requires
        wf_view(a),
    ensures
        wf_view(spec_store_interaction(a, caller, now).0),
{
}

} // verus!
