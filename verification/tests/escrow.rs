use escrow::asset::Asset;
use escrow::escrow::Escrow;
use escrow::escrow::EscrowError;

fn bytes(s: &str) -> Vec<u8> {
    s.as_bytes().to_vec()
}

fn nft_deposit() -> Asset {
    Asset { identifier: bytes("X-01"), nonce: 5, amount: 1 }
}

/// A registry holding the offer of scenario 1: party A deposits
/// (X-01, nonce 5, qty 1) and asks B for (Y-01, nonce 3, qty 100).
fn registry_with_offer_one() -> Escrow {
    let mut e = Escrow::init();
    let r = e.create_offer(&bytes("A"), &nft_deposit(), bytes("Y-01"), 3, 100, bytes("B"));
    assert_eq!(r, Ok(1));
    e
}

#[test]
fn create_rejects_fungible_deposit() {
    let mut e = Escrow::init();
    let fungible = Asset { identifier: bytes("X-01"), nonce: 0, amount: 1 };
    let r = e.create_offer(&bytes("A"), &fungible, bytes("Y-01"), 3, 100, bytes("B"));
    assert_eq!(r, Err(EscrowError::InvalidDeposit));
    assert!(!e.has_offer(1));
    assert_eq!(e.get_created_offers(&bytes("A")).len(), 0);
    assert_eq!(e.get_wanted_offers(&bytes("B")).len(), 0);
}

#[test]
fn create_rejects_non_singleton_deposit() {
    let mut e = Escrow::init();
    let two_units = Asset { identifier: bytes("X-01"), nonce: 5, amount: 2 };
    let r = e.create_offer(&bytes("A"), &two_units, bytes("Y-01"), 3, 100, bytes("B"));
    assert_eq!(r, Err(EscrowError::InvalidDeposit));
    let zero_units = Asset { identifier: bytes("X-01"), nonce: 5, amount: 0 };
    let r = e.create_offer(&bytes("A"), &zero_units, bytes("Y-01"), 3, 100, bytes("B"));
    assert_eq!(r, Err(EscrowError::InvalidDeposit));
    assert_eq!(e.get_created_offers(&bytes("A")).len(), 0);
    assert_eq!(e.get_wanted_offers(&bytes("B")).len(), 0);
}

#[test]
fn create_lists_offer_in_both_indexes() {
    let e = registry_with_offer_one();
    let created = e.get_created_offers(&bytes("A"));
    assert_eq!(created.len(), 1);
    assert_eq!(created[0].0, 1);
    assert!(created[0].1.creator == bytes("A"));
    assert!(created[0].1.identifier == bytes("X-01"));
    assert_eq!(created[0].1.nonce, 5);
    assert!(created[0].1.accepted_token == bytes("Y-01"));
    assert_eq!(created[0].1.accepted_nonce, 3);
    assert_eq!(created[0].1.accepted_amount, 100);
    assert!(created[0].1.accepted_address == bytes("B"));
    let wanted = e.get_wanted_offers(&bytes("B"));
    assert_eq!(wanted.len(), 1);
    assert_eq!(wanted[0].0, 1);
    assert!(wanted[0].1.creator == bytes("A"));
    assert_eq!(e.get_created_offers(&bytes("B")).len(), 0);
    assert_eq!(e.get_wanted_offers(&bytes("A")).len(), 0);
}

#[test]
fn cancel_nonexistent_fails() {
    let mut e = Escrow::init();
    let r = e.cancel_offer(&bytes("A"), 1);
    assert!(matches!(r, Err(EscrowError::OfferNotFound)));
    let mut e = registry_with_offer_one();
    let r = e.cancel_offer(&bytes("A"), 7);
    assert!(matches!(r, Err(EscrowError::OfferNotFound)));
}

#[test]
fn cancel_by_non_creator_fails_and_keeps_offer() {
    let mut e = registry_with_offer_one();
    let r = e.cancel_offer(&bytes("B"), 1);
    assert!(matches!(r, Err(EscrowError::Unauthorized)));
    assert!(e.has_offer(1));
    assert_eq!(e.get_created_offers(&bytes("A")).len(), 1);
    assert_eq!(e.get_wanted_offers(&bytes("B")).len(), 1);
}

#[test]
fn accept_with_mismatched_asset_fails_and_keeps_offer() {
    let mut e = registry_with_offer_one();
    let wrong_identifier = Asset { identifier: bytes("Z-01"), nonce: 3, amount: 100 };
    let r = e.accept_offer(&bytes("B"), 1, wrong_identifier);
    assert!(matches!(r, Err(EscrowError::PaymentMismatch)));
    let wrong_nonce = Asset { identifier: bytes("Y-01"), nonce: 4, amount: 100 };
    let r = e.accept_offer(&bytes("B"), 1, wrong_nonce);
    assert!(matches!(r, Err(EscrowError::PaymentMismatch)));
    let wrong_amount = Asset { identifier: bytes("Y-01"), nonce: 3, amount: 99 };
    let r = e.accept_offer(&bytes("B"), 1, wrong_amount);
    assert!(matches!(r, Err(EscrowError::PaymentMismatch)));
    assert!(e.has_offer(1));
    assert_eq!(e.get_created_offers(&bytes("A")).len(), 1);
    assert_eq!(e.get_wanted_offers(&bytes("B")).len(), 1);
}

#[test]
fn accept_nonexistent_fails() {
    let mut e = Escrow::init();
    let payment = Asset { identifier: bytes("Y-01"), nonce: 3, amount: 100 };
    let r = e.accept_offer(&bytes("B"), 1, payment);
    assert!(matches!(r, Err(EscrowError::OfferNotFound)));
}

#[test]
fn accept_swaps_assets_and_clears_offer() {
    let mut e = registry_with_offer_one();
    let payment = Asset { identifier: bytes("Y-01"), nonce: 3, amount: 100 };
    let (to_creator, to_fulfiller) = e.accept_offer(&bytes("B"), 1, payment).unwrap();
    assert!(to_creator.to == bytes("A"));
    assert!(to_creator.asset.identifier == bytes("Y-01"));
    assert_eq!(to_creator.asset.nonce, 3);
    assert_eq!(to_creator.asset.amount, 100);
    assert!(to_fulfiller.to == bytes("B"));
    assert!(to_fulfiller.asset.identifier == bytes("X-01"));
    assert_eq!(to_fulfiller.asset.nonce, 5);
    assert_eq!(to_fulfiller.asset.amount, 1);
    assert!(!e.has_offer(1));
    assert_eq!(e.get_created_offers(&bytes("A")).len(), 0);
    assert_eq!(e.get_wanted_offers(&bytes("B")).len(), 0);
}

#[test]
fn cancel_returns_deposit_and_clears_offer() {
    let mut e = registry_with_offer_one();
    let payment = Asset { identifier: bytes("Y-01"), nonce: 3, amount: 100 };
    assert!(e.accept_offer(&bytes("B"), 1, payment).is_ok());
    let r = e.create_offer(&bytes("A"), &nft_deposit(), bytes("Y-01"), 3, 100, bytes("B"));
    assert_eq!(r, Ok(2));
    let refund = e.cancel_offer(&bytes("A"), 2).unwrap();
    assert!(refund.to == bytes("A"));
    assert!(refund.asset.identifier == bytes("X-01"));
    assert_eq!(refund.asset.nonce, 5);
    assert_eq!(refund.asset.amount, 1);
    assert!(!e.has_offer(2));
    assert_eq!(e.get_created_offers(&bytes("A")).len(), 0);
    assert_eq!(e.get_wanted_offers(&bytes("B")).len(), 0);
    let r = e.cancel_offer(&bytes("A"), 2);
    assert!(matches!(r, Err(EscrowError::OfferNotFound)));
}

#[test]
fn offer_ids_are_never_reused() {
    let mut e = registry_with_offer_one();
    assert!(e.cancel_offer(&bytes("A"), 1).is_ok());
    let r = e.create_offer(&bytes("A"), &nft_deposit(), bytes("Y-01"), 3, 100, bytes("B"));
    assert_eq!(r, Ok(2));
    assert!(!e.has_offer(1));
    assert!(e.has_offer(2));
}

#[test]
fn repeated_reads_return_identical_results() {
    let mut e = registry_with_offer_one();
    let other = Asset { identifier: bytes("X-02"), nonce: 9, amount: 1 };
    let r = e.create_offer(&bytes("A"), &other, bytes("Y-02"), 7, 50, bytes("B"));
    assert_eq!(r, Ok(2));
    let c1 = e.get_created_offers(&bytes("A"));
    let c2 = e.get_created_offers(&bytes("A"));
    assert_eq!(c1.len(), c2.len());
    for i in 0..c1.len() {
        assert_eq!(c1[i].0, c2[i].0);
        assert!(c1[i].1.creator == c2[i].1.creator);
        assert!(c1[i].1.identifier == c2[i].1.identifier);
        assert_eq!(c1[i].1.nonce, c2[i].1.nonce);
        assert!(c1[i].1.accepted_token == c2[i].1.accepted_token);
        assert_eq!(c1[i].1.accepted_nonce, c2[i].1.accepted_nonce);
        assert_eq!(c1[i].1.accepted_amount, c2[i].1.accepted_amount);
        assert!(c1[i].1.accepted_address == c2[i].1.accepted_address);
    }
    let w1 = e.get_wanted_offers(&bytes("B"));
    let w2 = e.get_wanted_offers(&bytes("B"));
    assert_eq!(w1.len(), w2.len());
    assert_eq!(w1.len(), 2);
    for i in 0..w1.len() {
        assert_eq!(w1[i].0, w2[i].0);
        assert!(w1[i].1.identifier == w2[i].1.identifier);
    }
    assert_eq!(c1[0].0, 1);
    assert_eq!(c1[1].0, 2);
}

#[test]
fn counterparty_field_does_not_gate_acceptance() {
    let mut e = registry_with_offer_one();
    let payment = Asset { identifier: bytes("Y-01"), nonce: 3, amount: 100 };
    let (to_creator, to_fulfiller) = e.accept_offer(&bytes("C"), 1, payment).unwrap();
    assert!(to_creator.to == bytes("A"));
    assert!(to_fulfiller.to == bytes("C"));
    assert!(!e.has_offer(1));
}

#[test]
fn storage_views_report_ids_and_records() {
    let e = registry_with_offer_one();
    assert_eq!(e.created_offers(&bytes("A")), vec![1]);
    assert_eq!(e.wanted_offers(&bytes("B")), vec![1]);
    assert_eq!(e.created_offers(&bytes("B")), Vec::<u32>::new());
    assert!(e.offers(1).is_some());
    assert!(e.offers(1).unwrap().creator == bytes("A"));
    assert!(e.offers(2).is_none());
    assert!(e.offers(0).is_none());
    assert_eq!(e.last_offer_id, 1);
}

#[test]
fn swap_removal_keeps_other_offers_listed() {
    let mut e = registry_with_offer_one();
    let d2 = Asset { identifier: bytes("X-02"), nonce: 2, amount: 1 };
    let d3 = Asset { identifier: bytes("X-03"), nonce: 3, amount: 1 };
    assert_eq!(e.create_offer(&bytes("A"), &d2, bytes("Y-01"), 3, 10, bytes("B")), Ok(2));
    assert_eq!(e.create_offer(&bytes("A"), &d3, bytes("Y-01"), 3, 20, bytes("B")), Ok(3));
    assert!(e.cancel_offer(&bytes("A"), 1).is_ok());
    let created = e.get_created_offers(&bytes("A"));
    assert_eq!(created.len(), 2);
    assert_eq!(created[0].0, 3);
    assert_eq!(created[1].0, 2);
    let wanted = e.get_wanted_offers(&bytes("B"));
    assert_eq!(wanted.len(), 2);
    assert_eq!(wanted[0].0, 3);
    assert_eq!(wanted[1].0, 2);
}
