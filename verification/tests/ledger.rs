use donation_ledger::ledger::Donation;
use donation_ledger::records::{DonationError, Identity};

const TS: u64 = 1_700_000_000;

fn usd() -> Identity {
    Identity(900)
}

#[test]
fn test_initialize() {
    let mut ledger = Donation::new();
    ledger.initialize();
    assert_eq!(ledger.donation_count(), 0);
}

#[test]
fn test_donate() {
    let mut ledger = Donation::new();
    ledger.initialize();

    let donor = Identity(1);
    let recipient = Identity(2);
    let asset = Identity(3);
    let amount = 1000i128;

    let donation_id = ledger
        .donate(true, TS, donor, recipient, amount, asset, None)
        .unwrap();
    assert_eq!(donation_id, 0u64);
    assert_eq!(ledger.donation_count(), 1);
    assert_eq!(ledger.total_donated(recipient), amount);
}

#[test]
fn scenario_three_donations() {
    let a = Identity(10);
    let b = Identity(20);
    let c = Identity(30);
    let d = Identity(40);

    let mut ledger = Donation::new();
    ledger.initialize();
    assert_eq!(ledger.donate(true, TS, a, b, 100, usd(), None), Ok(0));
    assert_eq!(ledger.donate(true, TS + 1, a, c, 50, usd(), None), Ok(1));
    assert_eq!(ledger.donate(true, TS + 2, d, b, 25, usd(), None), Ok(2));

    assert_eq!(ledger.donation_count(), 3);
    assert_eq!(ledger.total_donated(b), 125);
    assert_eq!(ledger.total_donated(c), 50);

    let by_a = ledger.get_donor_donations(a, 10);
    assert_eq!(by_a.len(), 2);
    assert_eq!(by_a[0].recipient, c);
    assert_eq!(by_a[0].amount, 50);
    assert_eq!(by_a[1].recipient, b);
    assert_eq!(by_a[1].amount, 100);

    let to_b = ledger.get_recipient_donations(b, 1);
    assert_eq!(to_b.len(), 1);
    assert_eq!(to_b[0].donor, d);
    assert_eq!(to_b[0].amount, 25);
}

#[test]
fn unauthorized_changes_nothing() {
    let mut ledger = Donation::new();
    ledger.initialize();
    assert_eq!(
        ledger.donate(true, TS, Identity(1), Identity(2), 10, usd(), None),
        Ok(0)
    );
    let refused = ledger.donate(false, TS, Identity(1), Identity(2), 99, usd(), None);
    assert_eq!(refused, Err(DonationError::Unauthorized));
    assert_eq!(ledger.donation_count(), 1);
    assert_eq!(ledger.total_donated(Identity(2)), 10);
}

#[test]
fn aggregate_overflow_is_refused() {
    let mut ledger = Donation::new();
    ledger.initialize();
    assert_eq!(
        ledger.donate(true, TS, Identity(1), Identity(2), i128::MAX, usd(), None),
        Ok(0)
    );
    let overflowing = ledger.donate(true, TS, Identity(1), Identity(2), 1, usd(), None);
    assert_eq!(overflowing, Err(DonationError::Overflow));
    assert_eq!(ledger.donation_count(), 1);
    assert_eq!(ledger.total_donated(Identity(2)), i128::MAX);

    let negative = ledger.donate(true, TS, Identity(1), Identity(3), i128::MIN, usd(), None);
    assert_eq!(negative, Ok(1));
    let underflowing = ledger.donate(true, TS, Identity(1), Identity(3), -1, usd(), None);
    assert_eq!(underflowing, Err(DonationError::Overflow));
    assert_eq!(ledger.total_donated(Identity(3)), i128::MIN);
}

#[test]
fn zero_and_negative_amounts_are_recorded() {
    let mut ledger = Donation::new();
    ledger.initialize();
    assert_eq!(ledger.donate(true, TS, Identity(1), Identity(2), 0, usd(), None), Ok(0));
    assert_eq!(
        ledger.donate(true, TS, Identity(1), Identity(2), -75, usd(), None),
        Ok(1)
    );
    assert_eq!(ledger.donation_count(), 2);
    assert_eq!(ledger.total_donated(Identity(2)), -75);
    assert_eq!(ledger.get_donation(1).unwrap().amount, -75);
}

#[test]
fn get_donation_roundtrip_and_absent() {
    let mut ledger = Donation::new();
    ledger.initialize();
    let memo = Some(String::from("for the well"));
    assert_eq!(
        ledger.donate(true, TS, Identity(7), Identity(8), 42, usd(), memo.clone()),
        Ok(0)
    );

    let rec = ledger.get_donation(0).unwrap();
    assert_eq!(rec.donor, Identity(7));
    assert_eq!(rec.recipient, Identity(8));
    assert_eq!(rec.amount, 42);
    assert_eq!(rec.asset, usd());
    assert_eq!(rec.timestamp, TS);
    assert_eq!(rec.memo, memo);

    assert!(ledger.get_donation(1).is_none());
    assert!(ledger.get_donation(u64::MAX).is_none());
}

#[test]
fn pagination_limits() {
    let a = Identity(1);
    let b = Identity(2);
    let mut ledger = Donation::new();
    ledger.initialize();
    for k in 0..5i128 {
        assert_eq!(ledger.donate(true, TS + k as u64, a, b, k, usd(), None), Ok(k as u64));
    }
    // an interloper the donor query must skip
    assert_eq!(ledger.donate(true, TS + 9, Identity(3), b, 7, usd(), None), Ok(5));

    assert_eq!(ledger.get_donor_donations(a, 0).len(), 0);
    assert_eq!(ledger.get_recipient_donations(b, 0).len(), 0);

    let two = ledger.get_donor_donations(a, 2);
    assert_eq!(two.len(), 2);
    assert_eq!(two[0].amount, 4);
    assert_eq!(two[1].amount, 3);

    let all = ledger.get_donor_donations(a, u32::MAX);
    assert_eq!(all.len(), 5);
    for (pos, rec) in all.iter().enumerate() {
        assert_eq!(rec.donor, a);
        assert_eq!(rec.amount, (4 - pos) as i128);
    }
}

#[test]
fn reads_are_idempotent() {
    let mut ledger = Donation::new();
    ledger.initialize();
    ledger
        .donate(true, TS, Identity(1), Identity(2), 11, usd(), None)
        .unwrap();
    ledger
        .donate(true, TS, Identity(3), Identity(2), 22, usd(), None)
        .unwrap();

    assert_eq!(ledger.donation_count(), ledger.donation_count());
    assert_eq!(ledger.get_donation(0), ledger.get_donation(0));
    assert_eq!(ledger.get_donation(99), ledger.get_donation(99));
    assert_eq!(ledger.total_donated(Identity(2)), ledger.total_donated(Identity(2)));
    assert_eq!(
        ledger.get_donor_donations(Identity(1), 10),
        ledger.get_donor_donations(Identity(1), 10)
    );
    assert_eq!(
        ledger.get_recipient_donations(Identity(2), 10),
        ledger.get_recipient_donations(Identity(2), 10)
    );
}

#[test]
fn reinitialize_resets_counter_but_keeps_records() {
    let mut ledger = Donation::new();
    ledger.initialize();
    ledger
        .donate(true, TS, Identity(1), Identity(2), 100, usd(), None)
        .unwrap();
    ledger
        .donate(true, TS, Identity(1), Identity(2), 200, usd(), None)
        .unwrap();

    // the documented hazard: the counter resets, records and totals stay
    ledger.initialize();
    assert_eq!(ledger.donation_count(), 0);
    assert_eq!(ledger.get_donation(0).unwrap().amount, 100);
    assert_eq!(ledger.total_donated(Identity(2)), 300);

    // the next donation overwrites identifier 0 and double-counts
    assert_eq!(ledger.donate(true, TS, Identity(5), Identity(2), 1, usd(), None), Ok(0));
    assert_eq!(ledger.donation_count(), 1);
    assert_eq!(ledger.get_donation(0).unwrap().donor, Identity(5));
    assert_eq!(ledger.get_donation(1).unwrap().amount, 200);
    assert_eq!(ledger.total_donated(Identity(2)), 301);
}
