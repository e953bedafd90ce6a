use equity_mobility::loan_pool::{AssetStatus, Error, LoanPool};

fn b(s: &str) -> Vec<u8> {
    s.as_bytes().to_vec()
}

fn new_pool() -> (LoanPool, Vec<u8>, Vec<u8>) {
    let admin = b("GADMIN_PRINCIPAL");
    let oracle = b("GORACLE_PRINCIPAL");
    let pool = LoanPool::initialize(admin.clone(), oracle.clone());
    (pool, admin, oracle)
}

#[test]
fn test_initialize() {
    let (pool, admin, oracle) = new_pool();
    assert_eq!(pool.admin, admin);
    assert_eq!(pool.equity_oracle, oracle);
    assert_eq!(pool.total_pool_balance, 0);
}

#[test]
fn test_create_asset() {
    let (mut pool, admin, _) = new_pool();
    let asset_id = b("ebike_001");
    let name = b("Downtown E-Bikes");
    let asset_type = b("e-bike");
    let target_amount = 10000;
    let location = b("downtown_low_income");

    pool.create_asset(&admin, &asset_id, name.clone(), asset_type.clone(), target_amount, location.clone(), 0)
        .unwrap();

    let asset = pool.get_asset(&asset_id).unwrap();
    assert_eq!(asset.id, asset_id);
    assert_eq!(asset.name, name);
    assert_eq!(asset.asset_type, asset_type);
    assert_eq!(asset.target_amount, target_amount);
    assert_eq!(asset.funded_amount, 0);
    assert_eq!(asset.location, location);
    assert_eq!(asset.status, AssetStatus::Funding);
    assert!(asset.equity_score > 0);
}

#[test]
fn test_invest_with_equity_bonus() {
    let (mut pool, admin, _) = new_pool();
    let investor = b("GINVESTOR_PRINCIPAL");
    let asset_id = b("ebike_002");
    let location = b("underserved_zone");

    pool.create_asset(&admin, &asset_id, b("Community E-Bikes"), b("e-bike"), 5000, location, 0)
        .unwrap();

    let investment_amount = 1000;
    let equity_bonus = pool.invest(&investor, &asset_id, investment_amount, 0).unwrap();

    assert!(equity_bonus > 0);

    let asset = pool.get_asset(&asset_id).unwrap();
    assert_eq!(asset.funded_amount, investment_amount);
    assert_eq!(asset.investors.len(), 1);
    assert_eq!(asset.investors[0], investor);

    assert_eq!(pool.get_pool_balance(), investment_amount);
}

#[test]
fn test_multiple_investments() {
    let (mut pool, admin, _) = new_pool();
    let investor1 = b("GINVESTOR_ONE_PRINCIPAL");
    let investor2 = b("GINVESTOR_TWO_PRINCIPAL");
    let asset_id = b("shuttle_001");

    pool.create_asset(&admin, &asset_id, b("Community Shuttle"), b("shuttle"), 20000, b("suburban_area"), 0)
        .unwrap();

    pool.invest(&investor1, &asset_id, 8000, 1).unwrap();
    pool.invest(&investor2, &asset_id, 12000, 2).unwrap();

    let asset = pool.get_asset(&asset_id).unwrap();
    assert_eq!(asset.funded_amount, 20000);
    assert_eq!(asset.status, AssetStatus::Funded);
    assert_eq!(asset.investors.len(), 2);

    let investments = pool.get_asset_investments(&asset_id);
    assert_eq!(investments.len(), 2);
}

#[test]
fn test_equity_score_calculation() {
    let (mut pool, admin, _) = new_pool();
    let low_income_asset = b("low_income_asset");
    pool.create_asset(&admin, &low_income_asset, b("Low Income E-Bikes"), b("e-bike"), 5000, b("low_income_zone"), 0)
        .unwrap();

    let high_income_asset = b("high_income_asset");
    pool.create_asset(&admin, &high_income_asset, b("High Income E-Bikes"), b("e-bike"), 5000, b("high_income_zone"), 0)
        .unwrap();

    let low_income_equity = pool.get_asset(&low_income_asset).unwrap().equity_score;
    let high_income_equity = pool.get_asset(&high_income_asset).unwrap().equity_score;

    assert!(low_income_equity >= 0 && low_income_equity <= 100);
    assert!(high_income_equity >= 0 && high_income_equity <= 100);
}

#[test]
fn test_asset_lifecycle() {
    let (mut pool, admin, _) = new_pool();
    let investor = b("GINVESTOR_PRINCIPAL");
    let asset_id = b("lifecycle_test");

    pool.create_asset(&admin, &asset_id, b("Lifecycle Test"), b("e-bike"), 1000, b("test_zone"), 0)
        .unwrap();

    pool.invest(&investor, &asset_id, 1000, 1).unwrap();
    let asset = pool.get_asset(&asset_id).unwrap();
    assert_eq!(asset.status, AssetStatus::Funded);

    pool.deploy_asset(&admin, &asset_id).unwrap();
    let asset = pool.get_asset(&asset_id).unwrap();
    assert_eq!(asset.status, AssetStatus::Deployed);

    pool.complete_asset(&admin, &asset_id).unwrap();
    let asset = pool.get_asset(&asset_id).unwrap();
    assert_eq!(asset.status, AssetStatus::Completed);
}

#[test]
fn test_get_all_assets() {
    let (mut pool, admin, _) = new_pool();
    pool.create_asset(&admin, &b("asset1"), b("Asset 1"), b("e-bike"), 1000, b("zone1"), 0)
        .unwrap();
    pool.create_asset(&admin, &b("asset2"), b("Asset 2"), b("shuttle"), 2000, b("zone2"), 0)
        .unwrap();

    let all_assets = pool.get_all_assets();
    assert_eq!(all_assets.len(), 2);
}

#[test]
#[should_panic(expected = "ASSET_NOT_FOUND")]
fn test_get_nonexistent_asset() {
    let (pool, _, _) = new_pool();
    pool.get_asset(&b("nonexistent")).unwrap();
}

#[test]
#[should_panic(expected = "INVALID_AMOUNT")]
fn test_invest_invalid_amount() {
    let (mut pool, admin, _) = new_pool();
    let investor = b("GINVESTOR_PRINCIPAL");
    let asset_id = b("test_asset");
    pool.create_asset(&admin, &asset_id, b("Test Asset"), b("e-bike"), 1000, b("test_zone"), 0)
        .unwrap();

    pool.invest(&investor, &asset_id, 0, 1).unwrap();
}

#[test]
fn test_equity_bonus_calculation() {
    let (mut pool, admin, _) = new_pool();
    let investor = b("GINVESTOR_PRINCIPAL");

    let underserved_asset = b("underserved_asset");
    pool.create_asset(&admin, &underserved_asset, b("Underserved Asset"), b("e-bike"), 1000, b("underserved_zone"), 0)
        .unwrap();
    let underserved_bonus = pool.invest(&investor, &underserved_asset, 500, 1).unwrap();

    let regular_asset = b("regular_asset");
    pool.create_asset(&admin, &regular_asset, b("Regular Asset"), b("e-bike"), 1000, b("regular_zone"), 0)
        .unwrap();
    let regular_bonus = pool.invest(&investor, &regular_asset, 500, 2).unwrap();

    assert!(underserved_bonus >= regular_bonus);
    assert!(underserved_bonus <= 25);
    assert!(regular_bonus <= 25);
}

#[test]
fn test_create_fund_first_investment() {
    // first investment into a fresh low-income asset: the amount is
    // recorded, funding stays open, the pool balance follows, and
    // the underserved rule fires in the bonus
    let (mut pool, admin, _) = new_pool();
    let asset_id = b("ebike_001");
    pool.create_asset(&admin, &asset_id, b("Downtown E-Bikes"), b("e-bike"), 10000, b("downtown_low_income"), 0)
        .unwrap();
    let bonus = pool.invest(&b("GINVESTOR_PRINCIPAL"), &asset_id, 1000, 1).unwrap();
    assert!(bonus >= 15);
    let asset = pool.get_asset(&asset_id).unwrap();
    assert_eq!(asset.funded_amount, 1000);
    assert_eq!(asset.status, AssetStatus::Funding);
    assert_eq!(pool.get_pool_balance(), 1000);
}

#[test]
fn test_exact_equity_score_for_known_location() {
    // sha256("downtown_low_income") starts with byte 0x01, so the
    // score is 1 % 101 = 1, plus 20 for the low-income tag.
    let (mut pool, admin, _) = new_pool();
    let asset_id = b("ebike_001");
    pool.create_asset(&admin, &asset_id, b("Downtown E-Bikes"), b("e-bike"), 10000, b("downtown_low_income"), 0)
        .unwrap();
    let asset = pool.get_asset(&asset_id).unwrap();
    assert_eq!(asset.equity_score, 21);
}

#[test]
fn test_short_investor_gets_first_time_bonus() {
    let (mut pool, admin, _) = new_pool();
    let asset_id = b("bonus_asset");
    pool.create_asset(&admin, &asset_id, b("Bonus Asset"), b("e-bike"), 1000, b("underserved_zone"), 0)
        .unwrap();
    // 15 for the underserved location plus 10 for a short investor
    // identifier, capped at 25.
    let bonus = pool.invest(&b("GSHORT"), &asset_id, 100, 1).unwrap();
    assert_eq!(bonus, 25);
    // a long identifier earns the location bonus alone
    let bonus2 = pool.invest(&b("GLONG_INVESTOR_PRINCIPAL"), &asset_id, 100, 2).unwrap();
    assert_eq!(bonus2, 15);
}

#[test]
fn test_create_asset_unauthorized() {
    let (mut pool, _, _) = new_pool();
    let outsider = b("GOUTSIDER_PRINCIPAL");
    let r = pool.create_asset(&outsider, &b("a1"), b("Asset"), b("e-bike"), 1000, b("zone1"), 0);
    assert_eq!(r, Err(Error::UNAUTHORIZED));
}

#[test]
fn test_create_asset_duplicate() {
    let (mut pool, admin, _) = new_pool();
    pool.create_asset(&admin, &b("a1"), b("Asset"), b("e-bike"), 1000, b("zone1"), 0).unwrap();
    let r = pool.create_asset(&admin, &b("a1"), b("Asset Again"), b("e-bike"), 2000, b("zone2"), 1);
    assert_eq!(r, Err(Error::ASSET_EXISTS));
}

#[test]
fn test_invest_missing_asset() {
    let (mut pool, _, _) = new_pool();
    let r = pool.invest(&b("GINVESTOR_PRINCIPAL"), &b("missing"), 100, 0);
    assert_eq!(r, Err(Error::ASSET_NOT_FOUND));
}

#[test]
fn test_invest_after_funding_closed() {
    let (mut pool, admin, _) = new_pool();
    let asset_id = b("a1");
    pool.create_asset(&admin, &asset_id, b("Asset"), b("e-bike"), 1000, b("zone1"), 0).unwrap();
    pool.invest(&b("GINVESTOR_PRINCIPAL"), &asset_id, 1000, 1).unwrap();
    let r = pool.invest(&b("GINVESTOR_PRINCIPAL"), &asset_id, 100, 2);
    assert_eq!(r, Err(Error::ASSET_NOT_FUNDING));
}

#[test]
fn test_deploy_requires_funded() {
    let (mut pool, admin, _) = new_pool();
    let asset_id = b("a1");
    pool.create_asset(&admin, &asset_id, b("Asset"), b("e-bike"), 1000, b("zone1"), 0).unwrap();
    assert_eq!(pool.deploy_asset(&admin, &asset_id), Err(Error::ASSET_NOT_FUNDED));
    assert_eq!(pool.deploy_asset(&b("GOUTSIDER"), &asset_id), Err(Error::UNAUTHORIZED));
    assert_eq!(pool.deploy_asset(&admin, &b("missing")), Err(Error::ASSET_NOT_FOUND));
}

#[test]
fn test_complete_requires_deployed() {
    let (mut pool, admin, _) = new_pool();
    let asset_id = b("a1");
    pool.create_asset(&admin, &asset_id, b("Asset"), b("e-bike"), 1000, b("zone1"), 0).unwrap();
    pool.invest(&b("GINVESTOR_PRINCIPAL"), &asset_id, 1000, 1).unwrap();
    assert_eq!(pool.complete_asset(&admin, &asset_id), Err(Error::ASSET_NOT_DEPLOYED));
    assert_eq!(pool.complete_asset(&b("GOUTSIDER"), &asset_id), Err(Error::UNAUTHORIZED));
    assert_eq!(pool.complete_asset(&admin, &b("missing")), Err(Error::ASSET_NOT_FOUND));
}

#[test]
fn test_funded_amount_tracks_investment_sum() {
    // the funded amount of each asset is the sum of its recorded
    // investments, and the pool balance sums over every asset
    let (mut pool, admin, _) = new_pool();
    pool.create_asset(&admin, &b("a1"), b("Asset 1"), b("e-bike"), 10000, b("zone1"), 0).unwrap();
    pool.create_asset(&admin, &b("a2"), b("Asset 2"), b("shuttle"), 10000, b("zone2"), 0).unwrap();
    pool.invest(&b("GINVESTOR_ONE_PRINCIPAL"), &b("a1"), 100, 1).unwrap();
    pool.invest(&b("GINVESTOR_TWO_PRINCIPAL"), &b("a1"), 250, 2).unwrap();
    pool.invest(&b("GINVESTOR_ONE_PRINCIPAL"), &b("a2"), 400, 3).unwrap();

    let a1 = pool.get_asset(&b("a1")).unwrap();
    let a2 = pool.get_asset(&b("a2")).unwrap();
    let sum1: i128 = pool.get_asset_investments(&b("a1")).iter().map(|i| i.amount).sum();
    let sum2: i128 = pool.get_asset_investments(&b("a2")).iter().map(|i| i.amount).sum();
    assert_eq!(a1.funded_amount, sum1);
    assert_eq!(a2.funded_amount, sum2);
    assert_eq!(a1.funded_amount, 350);
    assert_eq!(a2.funded_amount, 400);
    assert_eq!(pool.get_pool_balance(), 750);
    assert_eq!(a1.status, AssetStatus::Funding);
}

#[test]
fn test_getters_do_not_change_state() {
    let (mut pool, admin, _) = new_pool();
    pool.create_asset(&admin, &b("a1"), b("Asset 1"), b("e-bike"), 1000, b("zone1"), 0).unwrap();
    pool.invest(&b("GINVESTOR_PRINCIPAL"), &b("a1"), 100, 1).unwrap();

    let before_balance = pool.get_pool_balance();
    let before_asset = pool.get_asset(&b("a1")).unwrap();
    let _ = pool.get_all_assets();
    let _ = pool.get_asset_investments(&b("a1"));
    let after_balance = pool.get_pool_balance();
    let after_asset = pool.get_asset(&b("a1")).unwrap();
    assert_eq!(before_balance, after_balance);
    assert_eq!(before_asset.funded_amount, after_asset.funded_amount);
    assert_eq!(before_asset.status, after_asset.status);
    assert_eq!(before_asset.investors.len(), after_asset.investors.len());
}

#[test]
fn test_large_amounts() {
    // amounts near the top of the 128-bit range are bookkept without
    // overflow
    let big: i128 = i128::MAX / 4;
    let (mut pool, admin, _) = new_pool();
    let asset_id = b("a1");
    pool.create_asset(&admin, &asset_id, b("Asset"), b("e-bike"), big * 2, b("zone1"), 0).unwrap();
    pool.invest(&b("GINVESTOR_ONE_PRINCIPAL"), &asset_id, big, 1).unwrap();
    pool.invest(&b("GINVESTOR_TWO_PRINCIPAL"), &asset_id, big, 2).unwrap();
    let asset = pool.get_asset(&asset_id).unwrap();
    assert_eq!(asset.funded_amount, big * 2);
    assert_eq!(asset.status, AssetStatus::Funded);
    assert_eq!(pool.get_pool_balance(), big * 2);
}

#[test]
fn test_identical_runs_agree() {
    // two fresh pools fed the same transactions end in the same
    // observable state
    let run = || {
        let (mut pool, admin, _) = new_pool();
        pool.create_asset(&admin, &b("a1"), b("Asset 1"), b("e-bike"), 1000, b("downtown_low_income"), 5)
            .unwrap();
        let bonus = pool.invest(&b("GINVESTOR_PRINCIPAL"), &b("a1"), 600, 6).unwrap();
        (bonus, pool.get_asset(&b("a1")).unwrap().equity_score, pool.get_pool_balance())
    };
    assert_eq!(run(), run());
}
