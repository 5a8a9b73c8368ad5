//! The offer registry: every pending swap proposal, two secondary indexes,
//! and the three transitions that move an offer through its life.
//!
//! An offer is `NONEXISTENT`, becomes `ACTIVE` through [`Escrow::create_offer`],
//! and returns to `NONEXISTENT` through [`Escrow::cancel_offer`] or
//! [`Escrow::accept_offer`]; ids are never reused. The registry proves, as
//! part of every transition, that a live offer's id is filed under exactly
//! its creator in the created index and exactly its requested counterparty
//! in the wanted index, and that a cleared id is filed nowhere.
//!
//! The registry holds no custody itself: a mutating call returns the
//! [`Transfer`]s the surrounding ledger must execute atomically with the
//! state change.

use vstd::prelude::*;
use crate::asset::Asset;
use crate::asset::AssetView;
use crate::asset::bytes_eq;
use crate::asset::copy_bytes;
use crate::index::OfferIndex;
use crate::index::no_dup;
use crate::index::swap_removed;

verus! {

/// One pending swap proposal: who deposited which non-fungible unit, and
/// which exact asset from which counterparty is demanded in return.
pub struct Offer {
    pub creator: Vec<u8>,
    pub identifier: Vec<u8>,
    pub nonce: u64,
    pub accepted_token: Vec<u8>,
    pub accepted_nonce: u64,
    pub accepted_amount: u128,
    pub accepted_address: Vec<u8>,
}

/// The mathematical value of an [`Offer`].
pub ghost struct OfferView {
    pub creator: Seq<u8>,
    pub identifier: Seq<u8>,
    pub nonce: u64,
    pub accepted_token: Seq<u8>,
    pub accepted_nonce: u64,
    pub accepted_amount: u128,
    pub accepted_address: Seq<u8>,
}

impl View for Offer {
    type V = OfferView;

    open spec fn view(&self) -> OfferView {
        OfferView {
            creator: self.creator@,
            identifier: self.identifier@,
            nonce: self.nonce,
            accepted_token: self.accepted_token@,
            accepted_nonce: self.accepted_nonce,
            accepted_amount: self.accepted_amount,
            accepted_address: self.accepted_address@,
        }
    }
}

impl Offer {
    /// A fresh offer record equal to this one.
    pub fn duplicate(&self) -> (r: Offer)
        ensures
            r@ == self@,
    {
        Offer {
            creator: copy_bytes(&self.creator),
            identifier: copy_bytes(&self.identifier),
            nonce: self.nonce,
            accepted_token: copy_bytes(&self.accepted_token),
            accepted_nonce: self.accepted_nonce,
            accepted_amount: self.accepted_amount,
            accepted_address: copy_bytes(&self.accepted_address),
        }
    }
}

/// Why a transition was refused. Every failure leaves the registry exactly
/// as it was.
#[derive(Clone, Copy, Debug, PartialEq, Eq, Structural)]
pub enum EscrowError {
    /// The deposit attached to `create_offer` is not a singleton
    /// non-fungible unit.
    InvalidDeposit,
    /// The named offer id has no live record.
    OfferNotFound,
    /// The caller of `cancel_offer` is not the offer's creator.
    Unauthorized,
    /// The asset attached to `accept_offer` differs from the offer's
    /// requested asset.
    PaymentMismatch,
}

/// An instruction to the surrounding ledger: hand `asset` to `to`.
pub struct Transfer {
    pub to: Vec<u8>,
    pub asset: Asset,
}

/// The mathematical value of a [`Transfer`].
pub ghost struct TransferView {
    pub to: Seq<u8>,
    pub asset: AssetView,
}

impl View for Transfer {
    type V = TransferView;

    open spec fn view(&self) -> TransferView {
        TransferView { to: self.to@, asset: self.asset@ }
    }
}

/// A deposit is acceptable only as a single non-fungible unit: a positive
/// sub-unit index and a quantity of exactly one.
pub open spec fn valid_deposit(a: AssetView) -> bool {
    a.nonce > 0 && a.amount == 1
}

/// The payment `p` is exactly the asset the offer `o` demands.
pub open spec fn payment_matches(o: OfferView, p: AssetView) -> bool {
    p.identifier == o.accepted_token && p.nonce == o.accepted_nonce && p.amount
        == o.accepted_amount
}

/// The offer registry.
///
/// `offers` is the main record store: the slot at position `i` carries the
/// offer with id `i + 1`, or nothing once that offer has been cancelled or
/// accepted, so ids stay monotonically increasing and are never reused.
pub struct Escrow {
    pub last_offer_id: u32,
    pub offers: Vec<Option<Offer>>,
    pub created: OfferIndex,
    pub wanted: OfferIndex,
}

impl Escrow {
    /// The offer with id `id` is active.
    pub open spec fn live(self, id: u32) -> bool {
        &&& 1 <= id <= self.offers@.len()
        &&& self.offers@[id as int - 1] is Some
    }

    /// The record of the live offer `id`.
    pub open spec fn offer_at(self, id: u32) -> OfferView
        recommends
            self.live(id),
    {
        (self.offers@[id as int - 1]->Some_0)@
    }

    /// The ids the created index files under `addr`.
    pub open spec fn created_ids(self, addr: Seq<u8>) -> Seq<u32> {
        self.created.ids_of(addr)
    }

    /// The ids the wanted index files under `addr`.
    pub open spec fn wanted_ids(self, addr: Seq<u8>) -> Seq<u32> {
        self.wanted.ids_of(addr)
    }

    /// Well-formedness: the id counter matches the record store, the indexes
    /// are well-formed, every live offer is filed under its creator and its
    /// requested counterparty, and everything either index files is a live
    /// offer filed under the right address.
    pub open spec fn wf(self) -> bool {
        &&& self.last_offer_id == self.offers@.len()
        &&& self.created.wf()
        &&& self.wanted.wf()
        &&& forall|id: u32|
            #[trigger] self.live(id) ==> self.created_ids(self.offer_at(id).creator).contains(id)
                && self.wanted_ids(self.offer_at(id).accepted_address).contains(id)
        &&& forall|a: Seq<u8>, id: u32|
            #[trigger] self.created_ids(a).contains(id) ==> self.live(id) && self.offer_at(
                id,
            ).creator == a
        &&& forall|a: Seq<u8>, id: u32|
            #[trigger] self.wanted_ids(a).contains(id) ==> self.live(id) && self.offer_at(
                id,
            ).accepted_address == a
    }

    /// A fresh registry with no offers and empty indexes.
    pub fn init() -> (r: Escrow)
        ensures
            r.wf(),
            r.last_offer_id == 0,
            forall|id: u32| !r.live(id),
            forall|a: Seq<u8>| r.created_ids(a) == Seq::<u32>::empty(),
            forall|a: Seq<u8>| r.wanted_ids(a) == Seq::<u32>::empty(),
    {
        Escrow {
            last_offer_id: 0,
            offers: Vec::new(),
            created: OfferIndex::empty(),
            wanted: OfferIndex::empty(),
        }
    }

    /// Whether the offer `offer_id` is active.
    pub fn has_offer(&self, offer_id: u32) -> (r: bool)
        ensures
            r == self.live(offer_id),
    {
        offer_id >= 1 && (offer_id as usize) <= self.offers.len() && self.offers[offer_id as usize
            - 1].is_some()
    }

    /// Opens a new offer: the caller deposits a single non-fungible unit and
    /// names the exact asset, and the counterparty, wanted in exchange.
    ///
    /// A deposit that is not a singleton non-fungible unit is refused with
    /// `InvalidDeposit` and nothing changes. Otherwise the next id is
    /// allocated, the record is stored, and the id is filed under the caller
    /// in the created index and under `accepted_address` in the wanted
    /// index. The deposit stays in the registry's custody.
    pub fn create_offer(
        &mut self,
        caller: &Vec<u8>,
        deposit: &Asset,
        accepted_token: Vec<u8>,
        accepted_nonce: u64,
        accepted_amount: u128,
        accepted_address: Vec<u8>,
    ) -> (r: Result<u32, EscrowError>)
        requires
            old(self).wf(),
            old(self).last_offer_id < u32::MAX,
        ensures
            final(self).wf(),
            !valid_deposit(deposit@) ==> r == Err::<u32, EscrowError>(EscrowError::InvalidDeposit)
                && *final(self) == *old(self),
            valid_deposit(deposit@) ==> ({
                let id = (old(self).last_offer_id + 1) as u32;
                &&& r == Ok::<u32, EscrowError>(id)
                &&& final(self).last_offer_id == id
                &&& final(self).live(id)
                &&& final(self).offer_at(id) == (OfferView {
                    creator: caller@,
                    identifier: deposit@.identifier,
                    nonce: deposit@.nonce,
                    accepted_token: accepted_token@,
                    accepted_nonce: accepted_nonce,
                    accepted_amount: accepted_amount,
                    accepted_address: accepted_address@,
                })
                &&& forall|oid: u32|
                    oid != id ==> final(self).live(oid) == old(self).live(oid)
                &&& forall|oid: u32|
                    oid != id && old(self).live(oid) ==> final(self).offer_at(oid) == old(
                        self,
                    ).offer_at(oid)
                &&& final(self).created_ids(caller@) == old(self).created_ids(caller@).push(id)
                &&& final(self).wanted_ids(accepted_address@) == old(self).wanted_ids(
                    accepted_address@,
                ).push(id)
                &&& forall|a: Seq<u8>|
                    a != caller@ ==> final(self).created_ids(a) == old(self).created_ids(a)
                &&& forall|a: Seq<u8>|
                    a != accepted_address@ ==> final(self).wanted_ids(a) == old(self).wanted_ids(a)
            }),
    {
        if !(deposit.nonce > 0 && deposit.amount == 1) {
            return Err(EscrowError::InvalidDeposit);
        }
        let id = self.last_offer_id + 1;
        proof {
            assert forall|a: Seq<u8>| !(#[trigger] old(self).created.ids_of(a)).contains(id) by {
                if old(self).created_ids(a).contains(id) {
                    assert(old(self).live(id));
                }
            }
            assert forall|a: Seq<u8>| !(#[trigger] old(self).wanted.ids_of(a)).contains(id) by {
                if old(self).wanted_ids(a).contains(id) {
                    assert(old(self).live(id));
                }
            }
        }
        self.created.insert(caller, id);
        self.wanted.insert(&accepted_address, id);
        let offer = Offer {
            creator: copy_bytes(caller),
            identifier: copy_bytes(&deposit.identifier),
            nonce: deposit.nonce,
            accepted_token,
            accepted_nonce,
            accepted_amount,
            accepted_address,
        };
        self.offers.push(Some(offer));
        self.last_offer_id = id;
        proof {
            let pre = *old(self);
            let post = *self;
            assert(post.offers@ == pre.offers@.push(Some(offer)));
            assert(post.live(id) && post.offer_at(id) == offer@);
            assert forall|oid: u32| oid != id implies post.live(oid) == pre.live(oid) by {
                if pre.live(oid) {
                    assert(post.offers@[oid as int - 1] == pre.offers@[oid as int - 1]);
                }
                if post.live(oid) {
                    assert(oid as int - 1 < pre.offers@.len());
                    assert(post.offers@[oid as int - 1] == pre.offers@[oid as int - 1]);
                }
            }
            assert forall|oid: u32| oid != id && pre.live(oid) implies post.offer_at(oid) == pre
                .offer_at(oid) by {
                assert(post.offers@[oid as int - 1] == pre.offers@[oid as int - 1]);
            }
            assert forall|oid: u32| #[trigger] post.live(oid) implies post.created_ids(
                post.offer_at(oid).creator,
            ).contains(oid) && post.wanted_ids(post.offer_at(oid).accepted_address).contains(
                oid,
            ) by {
                if oid == id {
                    crate::index::lemma_push_contains(pre.created_ids(caller@), id, id);
                    crate::index::lemma_push_contains(pre.wanted_ids(offer@.accepted_address), id, id);
                } else {
                    assert(pre.live(oid));
                    assert(pre.created_ids(pre.offer_at(oid).creator).contains(oid));
                    assert(pre.wanted_ids(pre.offer_at(oid).accepted_address).contains(oid));
                    assert(post.offer_at(oid) == pre.offer_at(oid));
                    let c = pre.offer_at(oid).creator;
                    if c == caller@ {
                        crate::index::lemma_push_contains(pre.created_ids(c), id, oid);
                    }
                    let w = pre.offer_at(oid).accepted_address;
                    if w == offer@.accepted_address {
                        crate::index::lemma_push_contains(pre.wanted_ids(w), id, oid);
                    }
                }
            }
            assert forall|a: Seq<u8>, oid: u32| #[trigger] post.created_ids(a).contains(oid)
                implies post.live(oid) && post.offer_at(oid).creator == a by {
                if a == caller@ {
                    crate::index::lemma_push_contains(pre.created_ids(a), id, oid);
                    if oid == id {
                    } else {
                        assert(pre.created_ids(a).contains(oid));
                    }
                } else {
                    assert(pre.created_ids(a).contains(oid));
                }
            }
            assert forall|a: Seq<u8>, oid: u32| #[trigger] post.wanted_ids(a).contains(oid)
                implies post.live(oid) && post.offer_at(oid).accepted_address == a by {
                if a == offer@.accepted_address {
                    crate::index::lemma_push_contains(pre.wanted_ids(a), id, oid);
                    if oid == id {
                    } else {
                        assert(pre.wanted_ids(a).contains(oid));
                    }
                } else {
                    assert(pre.wanted_ids(a).contains(oid));
                }
            }
        }
        Ok(id)
    }

    /// Clears the live offer `offer_id`: deletes its record and takes its id
    /// out of both indexes, returning the record that was stored.
    fn clear_offer(&mut self, offer_id: u32) -> (offer: Offer)
        requires
            old(self).wf(),
            old(self).live(offer_id),
        ensures
            final(self).wf(),
            offer@ == old(self).offer_at(offer_id),
            final(self).last_offer_id == old(self).last_offer_id,
            !final(self).live(offer_id),
            forall|oid: u32| oid != offer_id ==> final(self).live(oid) == old(self).live(oid),
            forall|oid: u32|
                oid != offer_id && old(self).live(oid) ==> final(self).offer_at(oid) == old(
                    self,
                ).offer_at(oid),
            final(self).created_ids(offer@.creator) == swap_removed(
                old(self).created_ids(offer@.creator),
                offer_id,
            ),
            final(self).wanted_ids(offer@.accepted_address) == swap_removed(
                old(self).wanted_ids(offer@.accepted_address),
                offer_id,
            ),
            forall|a: Seq<u8>|
                a != old(self).offer_at(offer_id).creator ==> final(self).created_ids(a) == old(
                    self,
                ).created_ids(a),
            forall|a: Seq<u8>|
                a != old(self).offer_at(offer_id).accepted_address ==> final(self).wanted_ids(a)
                    == old(self).wanted_ids(a),
    {
        let idx = (offer_id - 1) as usize;
        let offer = self.offers[idx].as_ref().unwrap().duplicate();
        self.offers[idx] = None;
        proof {
            assert(old(self).live(offer_id));
            assert(old(self).created_ids(offer@.creator).contains(offer_id));
            assert(old(self).wanted_ids(offer@.accepted_address).contains(offer_id));
        }
        self.created.remove(&offer.creator, offer_id);
        self.wanted.remove(&offer.accepted_address, offer_id);
        proof {
            let pre = *old(self);
            let post = *self;
            let o = offer@;
            assert(post.offers@ == pre.offers@.update(offer_id as int - 1, None::<Offer>));
            assert(!post.live(offer_id));
            assert forall|oid: u32| oid != offer_id implies post.live(oid) == pre.live(oid) by {
                if 1 <= oid <= pre.offers@.len() {
                    assert(post.offers@[oid as int - 1] == pre.offers@[oid as int - 1]);
                }
            }
            assert forall|oid: u32| oid != offer_id && pre.live(oid) implies post.offer_at(oid)
                == pre.offer_at(oid) by {
                assert(post.offers@[oid as int - 1] == pre.offers@[oid as int - 1]);
            }
            assert forall|oid: u32| #[trigger] post.live(oid) implies post.created_ids(
                post.offer_at(oid).creator,
            ).contains(oid) && post.wanted_ids(post.offer_at(oid).accepted_address).contains(
                oid,
            ) by {
                assert(oid != offer_id);
                assert(pre.live(oid));
                assert(pre.created_ids(pre.offer_at(oid).creator).contains(oid));
                assert(pre.wanted_ids(pre.offer_at(oid).accepted_address).contains(oid));
                assert(post.offer_at(oid) == pre.offer_at(oid));
            }
            assert forall|a: Seq<u8>, oid: u32| #[trigger] post.created_ids(a).contains(oid)
                implies post.live(oid) && post.offer_at(oid).creator == a by {
                if a == o.creator {
                    assert(oid != offer_id);
                    assert(pre.created_ids(a).contains(oid));
                } else {
                    assert(pre.created_ids(a).contains(oid));
                    assert(pre.offer_at(oid).creator == a);
                    assert(oid != offer_id);
                }
                assert(pre.live(oid));
                assert(post.offer_at(oid) == pre.offer_at(oid));
            }
            assert forall|a: Seq<u8>, oid: u32| #[trigger] post.wanted_ids(a).contains(oid)
                implies post.live(oid) && post.offer_at(oid).accepted_address == a by {
                if a == o.accepted_address {
                    assert(oid != offer_id);
                    assert(pre.wanted_ids(a).contains(oid));
                } else {
                    assert(pre.wanted_ids(a).contains(oid));
                    assert(pre.offer_at(oid).accepted_address == a);
                    assert(oid != offer_id);
                }
                assert(pre.live(oid));
                assert(post.offer_at(oid) == pre.offer_at(oid));
            }
        }
        offer
    }

    /// Withdraws an offer. Only the creator may cancel; the deposited unit
    /// goes back to the creator.
    ///
    /// An id without a live record is refused with `OfferNotFound`; a caller
    /// other than the creator is refused with `Unauthorized`; either way
    /// nothing changes. On success the record and both index entries are
    /// gone and the returned transfer hands the original deposit back to the
    /// creator.
    pub fn cancel_offer(&mut self, caller: &Vec<u8>, offer_id: u32) -> (r: Result<
        Transfer,
        EscrowError,
    >)
        requires
            old(self).wf(),
        ensures
            final(self).wf(),
            !old(self).live(offer_id) ==> r == Err::<Transfer, EscrowError>(
                EscrowError::OfferNotFound,
            ) && *final(self) == *old(self),
            old(self).live(offer_id) && old(self).offer_at(offer_id).creator != caller@ ==> r
                == Err::<Transfer, EscrowError>(EscrowError::Unauthorized) && *final(self) == *old(
                self,
            ),
            old(self).live(offer_id) && old(self).offer_at(offer_id).creator == caller@ ==> ({
                let o = old(self).offer_at(offer_id);
                &&& r is Ok
                &&& (r->Ok_0)@ == (TransferView {
                    to: o.creator,
                    asset: AssetView { identifier: o.identifier, nonce: o.nonce, amount: 1 },
                })
                &&& !final(self).live(offer_id)
                &&& final(self).last_offer_id == old(self).last_offer_id
                &&& forall|oid: u32|
                    oid != offer_id ==> final(self).live(oid) == old(self).live(oid)
                &&& forall|oid: u32|
                    oid != offer_id && old(self).live(oid) ==> final(self).offer_at(oid) == old(
                        self,
                    ).offer_at(oid)
                &&& final(self).created_ids(o.creator) == swap_removed(
                    old(self).created_ids(o.creator),
                    offer_id,
                )
                &&& final(self).wanted_ids(o.accepted_address) == swap_removed(
                    old(self).wanted_ids(o.accepted_address),
                    offer_id,
                )
                &&& forall|a: Seq<u8>|
                    a != o.creator ==> final(self).created_ids(a) == old(self).created_ids(a)
                &&& forall|a: Seq<u8>|
                    a != o.accepted_address ==> final(self).wanted_ids(a) == old(self).wanted_ids(
                        a,
                    )
            }),
    {
        if !self.has_offer(offer_id) {
            return Err(EscrowError::OfferNotFound);
        }
        let idx = (offer_id - 1) as usize;
        let is_creator = bytes_eq(&self.offers[idx].as_ref().unwrap().creator, caller);
        if !is_creator {
            return Err(EscrowError::Unauthorized);
        }
        let offer = self.clear_offer(offer_id);
        let asset = Asset { identifier: offer.identifier, nonce: offer.nonce, amount: 1 };
        Ok(Transfer { to: offer.creator, asset })
    }

    /// Fulfils an offer: the fulfiller pays exactly the requested asset, the
    /// creator receives that payment, and the fulfiller receives the
    /// deposited unit.
    ///
    /// The named counterparty is an index key, not a gate: any caller whose
    /// payment matches exactly may fulfil the offer. An id without a live
    /// record is refused with `OfferNotFound`; a payment that differs in
    /// identifier, sub-unit index or quantity is refused with
    /// `PaymentMismatch`; either way nothing changes.
    pub fn accept_offer(&mut self, fulfiller: &Vec<u8>, offer_id: u32, payment: Asset) -> (r:
        Result<(Transfer, Transfer), EscrowError>)
        requires
            old(self).wf(),
        ensures
            final(self).wf(),
            !old(self).live(offer_id) ==> r == Err::<(Transfer, Transfer), EscrowError>(
                EscrowError::OfferNotFound,
            ) && *final(self) == *old(self),
            old(self).live(offer_id) && !payment_matches(old(self).offer_at(offer_id), payment@)
                ==> r == Err::<(Transfer, Transfer), EscrowError>(EscrowError::PaymentMismatch)
                && *final(self) == *old(self),
            old(self).live(offer_id) && payment_matches(old(self).offer_at(offer_id), payment@)
                ==> ({
                let o = old(self).offer_at(offer_id);
                &&& r is Ok
                &&& ((r->Ok_0).0)@ == (TransferView { to: o.creator, asset: payment@ })
                &&& ((r->Ok_0).1)@ == (TransferView {
                    to: fulfiller@,
                    asset: AssetView { identifier: o.identifier, nonce: o.nonce, amount: 1 },
                })
                &&& !final(self).live(offer_id)
                &&& final(self).last_offer_id == old(self).last_offer_id
                &&& forall|oid: u32|
                    oid != offer_id ==> final(self).live(oid) == old(self).live(oid)
                &&& forall|oid: u32|
                    oid != offer_id && old(self).live(oid) ==> final(self).offer_at(oid) == old(
                        self,
                    ).offer_at(oid)
                &&& final(self).created_ids(o.creator) == swap_removed(
                    old(self).created_ids(o.creator),
                    offer_id,
                )
                &&& final(self).wanted_ids(o.accepted_address) == swap_removed(
                    old(self).wanted_ids(o.accepted_address),
                    offer_id,
                )
                &&& forall|a: Seq<u8>|
                    a != o.creator ==> final(self).created_ids(a) == old(self).created_ids(a)
                &&& forall|a: Seq<u8>|
                    a != o.accepted_address ==> final(self).wanted_ids(a) == old(self).wanted_ids(
                        a,
                    )
            }),
    {
        if !self.has_offer(offer_id) {
            return Err(EscrowError::OfferNotFound);
        }
        let idx = (offer_id - 1) as usize;
        let matches = {
            let o = self.offers[idx].as_ref().unwrap();
            bytes_eq(&payment.identifier, &o.accepted_token) && payment.nonce == o.accepted_nonce
                && payment.amount == o.accepted_amount
        };
        if !matches {
            return Err(EscrowError::PaymentMismatch);
        }
        let offer = self.clear_offer(offer_id);
        let to_creator = Transfer { to: offer.creator, asset: payment };
        let deposit = Asset { identifier: offer.identifier, nonce: offer.nonce, amount: 1 };
        let to_fulfiller = Transfer { to: copy_bytes(fulfiller), asset: deposit };
        Ok((to_creator, to_fulfiller))
    }

    /// The record of offer `offer_id`, while it is live.
    pub fn offers(&self, offer_id: u32) -> (r: Option<&Offer>)
        ensures
            r is Some <==> self.live(offer_id),
            r is Some ==> (r->Some_0)@ == self.offer_at(offer_id),
    {
        if offer_id >= 1 && (offer_id as usize) <= self.offers.len() {
            self.offers[offer_id as usize - 1].as_ref()
        } else {
            None
        }
    }

    /// The ids of the offers `address` created, in index order.
    pub fn created_offers(&self, address: &Vec<u8>) -> (r: Vec<u32>)
        requires
            self.wf(),
        ensures
            r@ == self.created_ids(address@),
    {
        self.created.get_ids(address)
    }

    /// The ids of the offers naming `address` as requested counterparty, in
    /// index order.
    pub fn wanted_offers(&self, address: &Vec<u8>) -> (r: Vec<u32>)
        requires
            self.wf(),
        ensures
            r@ == self.wanted_ids(address@),
    {
        self.wanted.get_ids(address)
    }

    /// `out` is the listing of `ids` against this registry: the same ids in
    /// the same order, each paired with its current record.
    pub open spec fn listing_matches(self, ids: Seq<u32>, out: Seq<(u32, OfferView)>) -> bool {
        &&& out.len() == ids.len()
        &&& forall|i: int|
            0 <= i < ids.len() ==> (#[trigger] out[i]).0 == ids[i] && out[i].1 == self.offer_at(
                ids[i],
            )
    }

    /// The live offer `offer_id` paired with its id.
    pub fn get_offer_result(&self, offer_id: u32) -> (r: (u32, Offer))
        requires
            self.live(offer_id),
        ensures
            r.0 == offer_id,
            r.1@ == self.offer_at(offer_id),
    {
        let idx = (offer_id - 1) as usize;
        let offer = self.offers[idx].as_ref().unwrap().duplicate();
        (offer_id, offer)
    }

    /// Lists the offers `address` created, in the created index's order,
    /// each id resolved to its current record.
    pub fn get_created_offers(&self, address: &Vec<u8>) -> (r: Vec<(u32, Offer)>)
        requires
            self.wf(),
        ensures
            r@.len() == self.created_ids(address@).len(),
            forall|i: int|
                0 <= i < r@.len() ==> (#[trigger] r@[i]).0 == self.created_ids(address@)[i]
                    && r@[i].1@ == self.offer_at(self.created_ids(address@)[i]),
            self.listing_matches(
                self.created_ids(address@),
                r@.map_values(|p: (u32, Offer)| (p.0, p.1@)),
            ),
    {
        let ids = self.created.get_ids(address);
        let n = ids.len();
        let mut r: Vec<(u32, Offer)> = Vec::new();
        let mut i: usize = 0;
        while i < n
            invariant
                self.wf(),
                ids@ == self.created_ids(address@),
                n == ids@.len(),
                i <= n,
                r@.len() == i,
                forall|j: int|
                    0 <= j < i ==> (#[trigger] r@[j]).0 == ids@[j] && r@[j].1@ == self.offer_at(
                        ids@[j],
                    ),
            decreases n - i,
        {
            let id = ids[i];
            proof {
                assert(self.created_ids(address@)[i as int] == id);
                assert(self.created_ids(address@).contains(id));
            }
            let pair = self.get_offer_result(id);
            r.push(pair);
            i += 1;
        }
        proof {
            let out = r@.map_values(|p: (u32, Offer)| (p.0, p.1@));
            assert forall|j: int| 0 <= j < out.len() implies (#[trigger] out[j]).0
                == self.created_ids(address@)[j] && out[j].1 == self.offer_at(
                self.created_ids(address@)[j],
            ) by {
                assert(out[j] == (r@[j].0, r@[j].1@));
            }
        }
        r
    }

    /// Lists the offers naming `address` as requested counterparty, in the
    /// wanted index's order, each id resolved to its current record.
    pub fn get_wanted_offers(&self, address: &Vec<u8>) -> (r: Vec<(u32, Offer)>)
        requires
            self.wf(),
        ensures
            r@.len() == self.wanted_ids(address@).len(),
            forall|i: int|
                0 <= i < r@.len() ==> (#[trigger] r@[i]).0 == self.wanted_ids(address@)[i]
                    && r@[i].1@ == self.offer_at(self.wanted_ids(address@)[i]),
            self.listing_matches(
                self.wanted_ids(address@),
                r@.map_values(|p: (u32, Offer)| (p.0, p.1@)),
            ),
    {
        let ids = self.wanted.get_ids(address);
        let n = ids.len();
        let mut r: Vec<(u32, Offer)> = Vec::new();
        let mut i: usize = 0;
        while i < n
            invariant
                self.wf(),
                ids@ == self.wanted_ids(address@),
                n == ids@.len(),
                i <= n,
                r@.len() == i,
                forall|j: int|
                    0 <= j < i ==> (#[trigger] r@[j]).0 == ids@[j] && r@[j].1@ == self.offer_at(
                        ids@[j],
                    ),
            decreases n - i,
        {
            let id = ids[i];
            proof {
                assert(self.wanted_ids(address@)[i as int] == id);
                assert(self.wanted_ids(address@).contains(id));
            }
            let pair = self.get_offer_result(id);
            r.push(pair);
            i += 1;
        }
        proof {
            let out = r@.map_values(|p: (u32, Offer)| (p.0, p.1@));
            assert forall|j: int| 0 <= j < out.len() implies (#[trigger] out[j]).0
                == self.wanted_ids(address@)[j] && out[j].1 == self.offer_at(
                self.wanted_ids(address@)[j],
            ) by {
                assert(out[j] == (r@[j].0, r@[j].1@));
            }
        }
        r
    }
}

/// A live offer is filed exactly once in each index: under its creator in
/// the created index — and under no other address — and under its requested
/// counterparty in the wanted index, likewise under no other address; and
/// the list that files it does so at a single position.
pub proof fn lemma_live_offer_indexed_once(s: Escrow, id: u32)
    requires
        s.wf(),
        s.live(id),
    ensures
        s.created_ids(s.offer_at(id).creator).contains(id),
        forall|a: Seq<u8>| a != s.offer_at(id).creator ==> !(#[trigger] s.created_ids(a)).contains(id),
        s.wanted_ids(s.offer_at(id).accepted_address).contains(id),
        forall|a: Seq<u8>|
            a != s.offer_at(id).accepted_address ==> !(#[trigger] s.wanted_ids(a)).contains(id),
        no_dup(s.created_ids(s.offer_at(id).creator)),
        no_dup(s.wanted_ids(s.offer_at(id).accepted_address)),
{
    s.created.lemma_ids_of_no_dup(s.offer_at(id).creator);
    s.wanted.lemma_ids_of_no_dup(s.offer_at(id).accepted_address);
}

/// An id with no live record — never created, cancelled, or accepted — is
/// filed in neither index, under any address.
pub proof fn lemma_dead_offer_unindexed(s: Escrow, id: u32)
    requires
        s.wf(),
        !s.live(id),
    ensures
        forall|a: Seq<u8>| !(#[trigger] s.created_ids(a)).contains(id),
        forall|a: Seq<u8>| !(#[trigger] s.wanted_ids(a)).contains(id),
{
}

/// Reads are idempotent: any two listings drawn from the same registry
/// state over the same id sequence are identical, element for element.
pub proof fn lemma_listing_unique(
    s: Escrow,
    ids: Seq<u32>,
    out1: Seq<(u32, OfferView)>,
    out2: Seq<(u32, OfferView)>,
)
    requires
        s.listing_matches(ids, out1),
        s.listing_matches(ids, out2),
    ensures
        out1 == out2,
{
    assert forall|i: int| 0 <= i < out1.len() implies out1[i] == out2[i] by {}
    assert(out1 =~= out2);
}

} // verus!
