use equity_mobility::revenue_distributor::{Error, RevenueDistributor};

fn b(s: &str) -> Vec<u8> {
    s.as_bytes().to_vec()
}

fn new_distributor(rate: i32) -> (RevenueDistributor, Vec<u8>, Vec<u8>) {
    let admin = b("GADMIN_PRINCIPAL");
    let oracle = b("GORACLE_PRINCIPAL");
    let d = RevenueDistributor::initialize(admin.clone(), oracle.clone(), b("GLOANPOOL_CONTRACT"), rate);
    (d, admin, oracle)
}

#[test]
fn test_distributor_initialize() {
    let (d, admin, oracle) = new_distributor(20);
    assert_eq!(d.admin, admin);
    assert_eq!(d.oracle, oracle);
    assert_eq!(d.equity_bonus_rate, 20);
    assert_eq!(d.impact_bonus_rate, 10);
}

#[test]
fn test_record_revenue_round_trip() {
    // a recorded observation reads back field-equal, with the
    // contract-supplied timestamp
    let (mut d, _, oracle) = new_distributor(20);
    let asset_id = b("ebike_001");
    d.record_revenue(&oracle, &asset_id, 1000, 10, 2000, 6, 99).unwrap();

    let rev = d.get_revenue(&asset_id).unwrap();
    assert_eq!(rev.asset_id, asset_id);
    assert_eq!(rev.revenue_amount, 1000);
    assert_eq!(rev.ride_count, 10);
    assert_eq!(rev.co2_saved, 2000);
    assert_eq!(rev.underserved_rides, 6);
    assert_eq!(rev.timestamp, 99);

    // a new observation overwrites the old one
    d.record_revenue(&oracle, &asset_id, 500, 5, 100, 1, 100).unwrap();
    let rev = d.get_revenue(&asset_id).unwrap();
    assert_eq!(rev.revenue_amount, 500);
    assert_eq!(rev.timestamp, 100);
}

#[test]
fn test_record_revenue_unauthorized() {
    let (mut d, admin, _) = new_distributor(20);
    let r = d.record_revenue(&admin, &b("ebike_001"), 1000, 10, 2000, 6, 99);
    assert_eq!(r, Err(Error::UNAUTHORIZED));
    assert_eq!(d.get_revenue(&b("ebike_001")).err(), Some(Error::REVENUE_NOT_FOUND));
}

#[test]
fn test_distribute_revenue_exact() {
    // revenue 1000 at bonus rate 20: pool 200, distributable 800;
    // investments 600 and 200 of 800 total; 6 of 10 rides
    // underserved gives ratio 60; CO2 2000 and ratio over 50 give
    // multiplier 100 + 10 + 10 = 120
    let (mut d, admin, oracle) = new_distributor(20);
    let asset_id = b("ebike_001");
    d.record_revenue(&oracle, &asset_id, 1000, 10, 2000, 6, 99).unwrap();

    let investors = vec![b("GINVESTOR_ONE_PRINCIPAL"), b("GINVESTOR_TWO_PRINCIPAL")];
    let amounts: Vec<i128> = vec![600, 200];
    let scores: Vec<i32> = vec![50, 100];
    let id = d.distribute_revenue(&admin, &asset_id, &investors, &amounts, &scores, 120).unwrap();

    let dist = d.get_distribution(&id).unwrap();
    assert_eq!(dist.asset_id, asset_id);
    assert_eq!(dist.total_revenue, 1000);
    assert_eq!(dist.equity_bonus_pool, 200);
    assert_eq!(dist.distribution_amount, 800);
    assert_eq!(dist.timestamp, 120);
    assert_eq!(dist.distributions.len(), 2);

    let one = &dist.distributions[0];
    assert_eq!(one.investor, investors[0]);
    assert_eq!(one.base_amount, 600);
    // base bonus 200*50/100 = 100, raised by 60 percent: 160
    assert_eq!(one.equity_bonus, 160);
    assert_eq!(one.total_amount, 760);
    assert_eq!(one.equity_score, 50);
    assert_eq!(one.impact_multiplier, 120);

    let two = &dist.distributions[1];
    assert_eq!(two.base_amount, 200);
    // base bonus 200*100/100 = 200, raised by 60 percent: 320
    assert_eq!(two.equity_bonus, 320);
    assert_eq!(two.total_amount, 520);
    // the multiplier is recorded but never applied to the totals
    assert_eq!(two.impact_multiplier, 120);
}

#[test]
fn test_distribute_revenue_zero_guards() {
    // no rides: the underserved ratio is 0; no investment: every
    // base amount is 0
    let (mut d, admin, oracle) = new_distributor(20);
    let asset_id = b("ebike_001");
    d.record_revenue(&oracle, &asset_id, 1000, 0, 0, 0, 1).unwrap();

    let investors = vec![b("GINVESTOR_ONE_PRINCIPAL")];
    let amounts: Vec<i128> = vec![0];
    let scores: Vec<i32> = vec![80];
    let id = d.distribute_revenue(&admin, &asset_id, &investors, &amounts, &scores, 2).unwrap();
    let dist = d.get_distribution(&id).unwrap();
    let row = &dist.distributions[0];
    assert_eq!(row.base_amount, 0);
    // base bonus 200*80/100 = 160 with no underserved raise
    assert_eq!(row.equity_bonus, 160);
    assert_eq!(row.total_amount, 160);
    assert_eq!(row.impact_multiplier, 100);
}

#[test]
fn test_distribute_revenue_errors() {
    let (mut d, admin, oracle) = new_distributor(20);
    let asset_id = b("ebike_001");
    let investors = vec![b("GINVESTOR_ONE_PRINCIPAL")];
    let amounts: Vec<i128> = vec![600];
    let scores: Vec<i32> = vec![50, 100];

    assert_eq!(
        d.distribute_revenue(&oracle, &asset_id, &investors, &amounts, &scores, 1),
        Err(Error::UNAUTHORIZED)
    );
    assert_eq!(
        d.distribute_revenue(&admin, &asset_id, &investors, &amounts, &scores, 1),
        Err(Error::REVENUE_NOT_FOUND)
    );
    d.record_revenue(&oracle, &asset_id, 1000, 10, 2000, 6, 1).unwrap();
    assert_eq!(
        d.distribute_revenue(&admin, &asset_id, &investors, &amounts, &scores, 1),
        Err(Error::INVALID_INPUT)
    );
    assert_eq!(d.get_distribution(&b("missing")).err(), Some(Error::DISTRIBUTION_NOT_FOUND));
}

#[test]
fn test_update_rates_validation() {
    let (mut d, admin, _) = new_distributor(20);
    assert_eq!(d.update_equity_bonus_rate(&b("GOUTSIDER"), 30), Err(Error::UNAUTHORIZED));
    assert_eq!(d.update_equity_bonus_rate(&admin, 51), Err(Error::INVALID_RATE));
    assert_eq!(d.update_equity_bonus_rate(&admin, -1), Err(Error::INVALID_RATE));
    d.update_equity_bonus_rate(&admin, 50).unwrap();
    assert_eq!(d.equity_bonus_rate, 50);

    assert_eq!(d.update_impact_bonus_rate(&b("GOUTSIDER"), 5), Err(Error::UNAUTHORIZED));
    assert_eq!(d.update_impact_bonus_rate(&admin, 26), Err(Error::INVALID_RATE));
    d.update_impact_bonus_rate(&admin, 25).unwrap();
    assert_eq!(d.impact_bonus_rate, 25);
}

#[test]
fn test_impact_metrics_and_stats() {
    let (mut d, admin, oracle) = new_distributor(20);
    d.record_revenue(&oracle, &b("a1"), 1000, 10, 2000, 6, 1).unwrap();
    d.record_revenue(&oracle, &b("a2"), 500, 4, 300, 1, 2).unwrap();

    let (co2, rides, underserved) = d.get_impact_metrics();
    assert_eq!((co2, rides, underserved), (2300, 14, 7));

    let investors = vec![b("GINVESTOR_ONE_PRINCIPAL")];
    let amounts: Vec<i128> = vec![100];
    let scores: Vec<i32> = vec![50];
    d.distribute_revenue(&admin, &b("a1"), &investors, &amounts, &scores, 3).unwrap();
    d.distribute_revenue(&admin, &b("a2"), &investors, &amounts, &scores, 4).unwrap();

    let (n_dists, total_revenue, n_assets) = d.get_stats();
    assert_eq!((n_dists, total_revenue, n_assets), (2, 1500, 2));

    let for_a1 = d.get_asset_distributions(&b("a1"));
    assert_eq!(for_a1.len(), 1);
    assert_eq!(for_a1[0].total_revenue, 1000);
}

#[test]
fn test_distribution_id_deterministic() {
    // two equal runs produce the same digest-derived distribution id
    let run = || {
        let (mut d, admin, oracle) = new_distributor(20);
        d.record_revenue(&oracle, &b("a1"), 1000, 10, 2000, 6, 1).unwrap();
        let investors = vec![b("GINVESTOR_ONE_PRINCIPAL")];
        let amounts: Vec<i128> = vec![100];
        let scores: Vec<i32> = vec![50];
        d.distribute_revenue(&admin, &b("a1"), &investors, &amounts, &scores, 7).unwrap()
    };
    assert_eq!(run(), run());
}
