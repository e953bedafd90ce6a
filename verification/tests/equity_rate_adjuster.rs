use equity_mobility::equity_rate_adjuster::{ApplicationStatus, EquityRateAdjuster, Error};

fn b(s: &str) -> Vec<u8> {
    s.as_bytes().to_vec()
}

fn new_adjuster(base_rate: i32) -> (EquityRateAdjuster, Vec<u8>, Vec<u8>) {
    let admin = b("GADMIN_PRINCIPAL");
    let oracle = b("GORACLE_PRINCIPAL");
    let adjuster = EquityRateAdjuster::initialize(admin.clone(), oracle.clone(), base_rate);
    (adjuster, admin, oracle)
}

#[test]
fn test_adjuster_initialize() {
    let (adjuster, admin, oracle) = new_adjuster(10);
    assert_eq!(adjuster.admin, admin);
    assert_eq!(adjuster.oracle, oracle);
    assert_eq!(adjuster.base_rate, 10);
    assert_eq!(adjuster.max_rate_adjustment, 15);
    assert!(adjuster.applications.is_empty());
}

#[test]
fn test_equity_rate_math_exact() {
    // base_rate 10, factors income 2, pollution 9, transport 2,
    // density 7: raw equity 90 + 45 + 72 + 21 = 228, score 57;
    // equity adjustment (100-57)*15/100 = 6, factor reductions -12,
    // so the adjusted rate is max(1, 10 + 6) = 16.
    let (mut adjuster, _, oracle) = new_adjuster(10);
    let borrower = b("GBORROWER_PRINCIPAL");
    let location = b("scored_zone");
    adjuster.update_urban_data(&oracle, &location, 2, 9, 2, 7, 0).unwrap();

    let id = adjuster.submit_application(&borrower, &b("asset_x"), 5000, &location, 1).unwrap();
    let app = adjuster.get_application(&id).unwrap();
    assert_eq!(app.equity_score, 57);
    assert_eq!(app.adjusted_rate, 16);
    assert_eq!(app.base_rate, 10);
    assert_eq!(app.status, ApplicationStatus::Pending);
    assert_eq!(app.urban_data.income_level, 2);

    let delta = adjuster.calculate_rate_adjustment(&location, 2).unwrap();
    assert_eq!(delta, 6);
}

#[test]
fn test_mock_urban_data_is_digest_derived() {
    // sha256("metro_east") begins 0x50 0x10 0xd6 0x3c, so the mock
    // factors are 1, 7, 3 and 3, giving score 52 and, under base
    // rate 10, an adjusted rate of 12.
    let (mut adjuster, _, _) = new_adjuster(10);
    let borrower = b("GBORROWER_PRINCIPAL");
    let id = adjuster.submit_application(&borrower, &b("asset_x"), 5000, &b("metro_east"), 1).unwrap();
    let app = adjuster.get_application(&id).unwrap();
    assert_eq!(app.urban_data.income_level, 1);
    assert_eq!(app.urban_data.pollution_level, 7);
    assert_eq!(app.urban_data.public_transport_score, 3);
    assert_eq!(app.urban_data.population_density, 3);
    assert_eq!(app.equity_score, 52);
    assert_eq!(app.adjusted_rate, 12);
}

#[test]
fn test_application_id_is_stable() {
    // the application id hashes borrower, asset and timestamp:
    // sha256("GBORROWER_ALPHA_asset_ebike_001_77") truncated to its
    // first eight bytes
    let (mut adjuster, _, _) = new_adjuster(10);
    let id = adjuster
        .submit_application(&b("GBORROWER_ALPHA"), &b("asset_ebike_001"), 100, &b("zone1"), 77)
        .unwrap();
    assert_eq!(id, vec![6u8, 90, 114, 216, 1, 111, 59, 26]);

    let (mut adjuster2, _, _) = new_adjuster(10);
    let id2 = adjuster2
        .submit_application(&b("GBORROWER_ALPHA"), &b("asset_ebike_001"), 100, &b("zone1"), 77)
        .unwrap();
    assert_eq!(id, id2);
}

#[test]
fn test_resubmission_same_second_replaces() {
    // an identical submission within one timestamp hashes to the
    // same id and replaces the stored application
    let (mut adjuster, _, _) = new_adjuster(10);
    let borrower = b("GBORROWER_PRINCIPAL");
    let id1 = adjuster.submit_application(&borrower, &b("asset_x"), 100, &b("zone1"), 7).unwrap();
    let id2 = adjuster.submit_application(&borrower, &b("asset_x"), 200, &b("zone1"), 7).unwrap();
    assert_eq!(id1, id2);
    let (pending, approved, rejected) = adjuster.get_stats();
    assert_eq!((pending, approved, rejected), (1, 0, 0));
    assert_eq!(adjuster.get_application(&id1).unwrap().requested_amount, 200);
}

#[test]
fn test_submit_invalid_amount() {
    let (mut adjuster, _, _) = new_adjuster(10);
    let r = adjuster.submit_application(&b("GBORROWER_PRINCIPAL"), &b("asset_x"), 0, &b("zone1"), 1);
    assert_eq!(r, Err(Error::INVALID_AMOUNT));
    let r = adjuster.submit_application(&b("GBORROWER_PRINCIPAL"), &b("asset_x"), -5, &b("zone1"), 1);
    assert_eq!(r, Err(Error::INVALID_AMOUNT));
}

#[test]
fn test_approve_and_reject_lifecycle() {
    let (mut adjuster, admin, _) = new_adjuster(10);
    let borrower = b("GBORROWER_PRINCIPAL");
    let id1 = adjuster.submit_application(&borrower, &b("asset_x"), 100, &b("zone1"), 1).unwrap();
    let id2 = adjuster.submit_application(&borrower, &b("asset_y"), 100, &b("zone1"), 2).unwrap();

    adjuster.approve_application(&admin, &id1).unwrap();
    assert_eq!(adjuster.get_application(&id1).unwrap().status, ApplicationStatus::Approved);

    adjuster.reject_application(&admin, &id2).unwrap();
    assert_eq!(adjuster.get_application(&id2).unwrap().status, ApplicationStatus::Rejected);

    // a decided application is terminal
    assert_eq!(adjuster.approve_application(&admin, &id1), Err(Error::INVALID_STATUS));
    assert_eq!(adjuster.reject_application(&admin, &id1), Err(Error::INVALID_STATUS));

    let stats = adjuster.get_stats();
    assert_eq!(stats, (0, 1, 1));
}

#[test]
fn test_approve_unauthorized_and_missing() {
    let (mut adjuster, admin, _) = new_adjuster(10);
    let borrower = b("GBORROWER_PRINCIPAL");
    let id = adjuster.submit_application(&borrower, &b("asset_x"), 100, &b("zone1"), 1).unwrap();
    assert_eq!(adjuster.approve_application(&b("GOUTSIDER"), &id), Err(Error::UNAUTHORIZED));
    assert_eq!(adjuster.approve_application(&admin, &b("missing")), Err(Error::APPLICATION_NOT_FOUND));
    assert_eq!(adjuster.get_application(&id).unwrap().status, ApplicationStatus::Pending);
}

#[test]
fn test_urban_data_round_trip() {
    let (mut adjuster, _, oracle) = new_adjuster(10);
    let location = b("zone1");
    assert_eq!(adjuster.get_urban_data_for_location(&location).err(), Some(Error::DATA_NOT_FOUND));

    adjuster.update_urban_data(&oracle, &location, 4, 5, 6, 7, 42).unwrap();
    let u = adjuster.get_urban_data_for_location(&location).unwrap();
    assert_eq!(u.location, location);
    assert_eq!(u.income_level, 4);
    assert_eq!(u.pollution_level, 5);
    assert_eq!(u.public_transport_score, 6);
    assert_eq!(u.population_density, 7);
    assert_eq!(u.timestamp, 42);

    // an oracle update replaces the cached entry
    adjuster.update_urban_data(&oracle, &location, 1, 2, 3, 4, 43).unwrap();
    let u = adjuster.get_urban_data_for_location(&location).unwrap();
    assert_eq!(u.income_level, 1);
    assert_eq!(u.timestamp, 43);

    assert_eq!(adjuster.update_urban_data(&b("GOUTSIDER"), &location, 1, 2, 3, 4, 44), Err(Error::UNAUTHORIZED));
}

#[test]
fn test_get_borrower_applications() {
    let (mut adjuster, _, _) = new_adjuster(10);
    let alice = b("GALICE_PRINCIPAL");
    let bob = b("GBOB_PRINCIPAL");
    adjuster.submit_application(&alice, &b("asset_x"), 100, &b("zone1"), 1).unwrap();
    adjuster.submit_application(&bob, &b("asset_y"), 100, &b("zone1"), 2).unwrap();
    adjuster.submit_application(&alice, &b("asset_z"), 100, &b("zone2"), 3).unwrap();

    let apps = adjuster.get_borrower_applications(&alice);
    assert_eq!(apps.len(), 2);
    assert!(apps.iter().all(|a| a.borrower == alice));
    assert_eq!(adjuster.get_borrower_applications(&b("GNOBODY")).len(), 0);
}

#[test]
fn test_adjusted_rate_stays_in_bounds() {
    // the adjusted rate is at least 1 and at most the base rate plus
    // the 12 points of factor reductions, whatever the location
    let (mut adjuster, _, oracle) = new_adjuster(3);
    let locations = ["zone1", "zone2", "metro_east", "harbor_low_income", "suburban_area"];
    for (i, loc) in locations.iter().enumerate() {
        let id = adjuster
            .submit_application(&b("GBORROWER_PRINCIPAL"), &b("asset_x"), 100, &b(loc), i as u64)
            .unwrap();
        let app = adjuster.get_application(&id).unwrap();
        assert!(app.adjusted_rate >= 1);
        assert!(app.adjusted_rate <= app.base_rate + 12);
        assert!(app.equity_score >= 0 && app.equity_score <= 100);
    }
    // with oracle data chosen for maximal reductions the floor holds
    adjuster.update_urban_data(&oracle, &b("deep_zone"), 1, 10, 1, 10, 9).unwrap();
    let id = adjuster
        .submit_application(&b("GBORROWER_PRINCIPAL"), &b("asset_x"), 100, &b("deep_zone"), 10)
        .unwrap();
    let app = adjuster.get_application(&id).unwrap();
    assert!(app.adjusted_rate >= 1);
    assert!(app.adjusted_rate <= 15);
}
