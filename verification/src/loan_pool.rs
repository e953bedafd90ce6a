//! The loan pool: a catalog of mobility assets crowdfunded by
//! investors, with location-driven equity scores and bonuses.
//!
//! The pool state is the single root record a ledger transaction reads
//! and writes back; each method is one transaction, taking the calling
//! principal and the ledger timestamp as arguments.
use vstd::prelude::*;
use crate::bytes::{bytes_contains, bytes_eq, contains_seq};
use crate::digest::{sha256, sha256_of};

verus! {

/// Lifecycle of a mobility asset.
#[derive(Clone, Copy, Debug, PartialEq, Eq, Structural)]
pub enum AssetStatus {
    Funding,
    Funded,
    Deployed,
    Completed,
}

/// Error codes of the loan pool, as the ledger surfaces them.
#[allow(non_camel_case_types)]
#[derive(Clone, Copy, Debug, PartialEq, Eq, Structural)]
pub enum Error {
    UNAUTHORIZED,
    ASSET_EXISTS,
    ASSET_NOT_FOUND,
    INVALID_AMOUNT,
    ASSET_NOT_FUNDING,
    ASSET_NOT_FUNDED,
    ASSET_NOT_DEPLOYED,
}

/// A mobility asset that can be funded.
#[derive(Debug)]
pub struct MobilityAsset {
    pub id: Vec<u8>,
    pub name: Vec<u8>,
    pub asset_type: Vec<u8>,
    pub target_amount: i128,
    pub funded_amount: i128,
    pub location: Vec<u8>,
    pub equity_score: i32,
    pub status: AssetStatus,
    pub investors: Vec<Vec<u8>>,
    pub created_at: u64,
}

/// An investor's contribution; append-only, never mutated.
#[derive(Debug)]
pub struct Investment {
    pub investor: Vec<u8>,
    pub asset_id: Vec<u8>,
    pub amount: i128,
    pub equity_bonus: i32,
    pub timestamp: u64,
}

#[verifier::ext_equal]
pub struct MobilityAssetView {
    pub id: Seq<u8>,
    pub name: Seq<u8>,
    pub asset_type: Seq<u8>,
    pub target_amount: int,
    pub funded_amount: int,
    pub location: Seq<u8>,
    pub equity_score: int,
    pub status: AssetStatus,
    pub investors: Seq<Seq<u8>>,
    pub created_at: int,
}

#[verifier::ext_equal]
pub struct InvestmentView {
    pub investor: Seq<u8>,
    pub asset_id: Seq<u8>,
    pub amount: int,
    pub equity_bonus: int,
    pub timestamp: int,
}

impl View for MobilityAsset {
    type V = MobilityAssetView;

    open spec fn view(&self) -> MobilityAssetView {
        MobilityAssetView {
            id: self.id@,
            name: self.name@,
            asset_type: self.asset_type@,
            target_amount: self.target_amount as int,
            funded_amount: self.funded_amount as int,
            location: self.location@,
            equity_score: self.equity_score as int,
            status: self.status,
            investors: self.investors.deep_view(),
            created_at: self.created_at as int,
        }
    }
}

impl DeepView for MobilityAsset {
    type V = MobilityAssetView;

    open spec fn deep_view(&self) -> MobilityAssetView {
        self.view()
    }
}

impl View for Investment {
    type V = InvestmentView;

    open spec fn view(&self) -> InvestmentView {
        InvestmentView {
            investor: self.investor@,
            asset_id: self.asset_id@,
            amount: self.amount as int,
            equity_bonus: self.equity_bonus as int,
            timestamp: self.timestamp as int,
        }
    }
}

impl DeepView for Investment {
    type V = InvestmentView;

    open spec fn deep_view(&self) -> InvestmentView {
        self.view()
    }
}

impl Clone for MobilityAsset {
    fn clone(&self) -> (r: Self)
        ensures
            r@ == self@,
    {
        let investors = clone_principals(&self.investors);
        MobilityAsset {
            id: self.id.clone(),
            name: self.name.clone(),
            asset_type: self.asset_type.clone(),
            target_amount: self.target_amount,
            funded_amount: self.funded_amount,
            location: self.location.clone(),
            equity_score: self.equity_score,
            status: self.status,
            investors,
            created_at: self.created_at,
        }
    }
}

impl Clone for Investment {
    fn clone(&self) -> (r: Self)
        ensures
            r@ == self@,
    {
        Investment {
            investor: self.investor.clone(),
            asset_id: self.asset_id.clone(),
            amount: self.amount,
            equity_bonus: self.equity_bonus,
            timestamp: self.timestamp,
        }
    }
}

/// A copy of a list of principals, view for view.
fn clone_principals(v: &Vec<Vec<u8>>) -> (r: Vec<Vec<u8>>)
    ensures
        r.deep_view() == v.deep_view(),
{
    let mut r: Vec<Vec<u8>> = Vec::new();
    let mut i: usize = 0;
    while i < v.len()
        invariant
            0 <= i <= v.len(),
            r.len() == i,
            r.deep_view() == v.deep_view().subrange(0, i as int),
        decreases v.len() - i,
    {
        let c = v[i].clone();
        proof {
            assert(c@ =~= v@[i as int]@);
            assert(c.deep_view() =~= v@[i as int].deep_view());
        }
        let ghost r0 = r@;
        let ghost rd0 = r.deep_view();
        r.push(c);
        proof {
            assert forall|k: int| 0 <= k < i implies r.deep_view()[k] == v.deep_view()[k] by {
                assert(r@[k] == r0[k]);
                assert(rd0[k] == r0[k].deep_view());
            }
            assert(r.deep_view() =~~= v.deep_view().subrange(0, i + 1));
        }
        i = i + 1;
    }
    proof {
        assert(v.deep_view().subrange(0, v.deep_view().len() as int) =~= v.deep_view());
    }
    r
}

/// The byte string `low_income`.
pub open spec fn low_income_tag() -> Seq<u8> {
    seq![108u8, 111u8, 119u8, 95u8, 105u8, 110u8, 99u8, 111u8, 109u8, 101u8]
}

/// The byte string `underserved`.
pub open spec fn underserved_tag() -> Seq<u8> {
    seq![117u8, 110u8, 100u8, 101u8, 114u8, 115u8, 101u8, 114u8, 118u8, 101u8, 100u8]
}

fn low_income_needle() -> (r: Vec<u8>)
    ensures
        r@ == low_income_tag(),
{
    let r: Vec<u8> = vec![108u8, 111u8, 119u8, 95u8, 105u8, 110u8, 99u8, 111u8, 109u8, 101u8];
    proof {
        assert(r@ =~= low_income_tag());
    }
    r
}

fn underserved_needle() -> (r: Vec<u8>)
    ensures
        r@ == underserved_tag(),
{
    let r: Vec<u8> = vec![117u8, 110u8, 100u8, 101u8, 114u8, 115u8, 101u8, 114u8, 118u8, 101u8, 100u8];
    proof {
        assert(r@ =~= underserved_tag());
    }
    r
}

/// A location is underserved when its identifier carries one of the
/// two tags.
pub open spec fn is_underserved(loc: Seq<u8>) -> bool {
    contains_seq(loc, low_income_tag()) || contains_seq(loc, underserved_tag())
}

fn check_underserved(loc: &Vec<u8>) -> (r: bool)
    ensures
        r == is_underserved(loc@),
{
    let low = low_income_needle();
    let und = underserved_needle();
    bytes_contains(loc, &low) || bytes_contains(loc, &und)
}

/// Equity score of an asset at creation: the first digest byte of the
/// location, reduced mod 101, plus 20 for an underserved location
/// (not re-clamped, so up to 120).
pub open spec fn spec_asset_equity_score(loc: Seq<u8>) -> int {
    (sha256_of(loc)[0] as int) % 101 + if is_underserved(loc) {
        20int
    } else {
        0int
    }
}

fn calculate_equity_score(location: &Vec<u8>) -> (r: i32)
    ensures
        r as int == spec_asset_equity_score(location@),
        0 <= r <= 120,
{
    let hash = sha256(location);
    let score: i32 = (hash[0] % 101) as i32;
    if check_underserved(location) {
        score + 20
    } else {
        score
    }
}

/// Equity bonus of a single investment: 15 for an underserved
/// location, 10 for a short (first-time) investor identifier,
/// capped at 25.
pub open spec fn spec_investor_equity_bonus(investor: Seq<u8>, loc: Seq<u8>) -> int {
    let b = (if is_underserved(loc) {
        15int
    } else {
        0int
    }) + (if investor.len() < 10 {
        10int
    } else {
        0int
    });
    if b > 25 {
        25
    } else {
        b
    }
}

/// Asset ids are pairwise distinct.
pub open spec fn unique_asset_ids(s: Seq<MobilityAssetView>) -> bool {
    forall|i: int, j: int| 0 <= i < j < s.len() ==> (#[trigger] s[i]).id != (#[trigger] s[j]).id
}

/// Some asset in `s` carries the id.
pub open spec fn has_asset(s: Seq<MobilityAssetView>, id: Seq<u8>) -> bool {
    exists|i: int| 0 <= i < s.len() && (#[trigger] s[i]).id == id
}

/// The position of the asset with the id; meaningful when `has_asset`
/// holds and ids are unique.
pub open spec fn asset_index(s: Seq<MobilityAssetView>, id: Seq<u8>) -> int {
    choose|i: int| 0 <= i < s.len() && (#[trigger] s[i]).id == id
}

/// The asset with the id.
pub open spec fn asset_at(s: Seq<MobilityAssetView>, id: Seq<u8>) -> MobilityAssetView {
    s[asset_index(s, id)]
}

/// With unique ids, a position holding the id is the position
/// `asset_index` names.
pub proof fn lemma_asset_at(s: Seq<MobilityAssetView>, id: Seq<u8>, i: int)
    requires
        unique_asset_ids(s),
        0 <= i < s.len(),
        s[i].id == id,
    ensures
        has_asset(s, id),
        asset_index(s, id) == i,
        asset_at(s, id) == s[i],
{
    assert(has_asset(s, id));
    let j = asset_index(s, id);
    assert(0 <= j < s.len() && s[j].id == id);
    if i != j {
        assert(s[i].id != s[j].id);
    }
}

/// Total invested in the asset with the given id.
pub open spec fn sum_invested(invs: Seq<InvestmentView>, id: Seq<u8>) -> int
    decreases invs.len(),
{
    if invs.len() == 0 {
        0
    } else {
        sum_invested(invs.drop_last(), id) + if invs.last().asset_id == id {
            invs.last().amount
        } else {
            0int
        }
    }
}

/// Total amount over all investments.
pub open spec fn sum_amounts(invs: Seq<InvestmentView>) -> int
    decreases invs.len(),
{
    if invs.len() == 0 {
        0
    } else {
        sum_amounts(invs.drop_last()) + invs.last().amount
    }
}

pub proof fn lemma_sum_invested_push(invs: Seq<InvestmentView>, x: InvestmentView, id: Seq<u8>)
    ensures
        sum_invested(invs.push(x), id) == sum_invested(invs, id) + if x.asset_id == id {
            x.amount
        } else {
            0int
        },
{
    assert(invs.push(x).drop_last() =~= invs);
    assert(invs.push(x).last() == x);
}

pub proof fn lemma_sum_amounts_push(invs: Seq<InvestmentView>, x: InvestmentView)
    ensures
        sum_amounts(invs.push(x)) == sum_amounts(invs) + x.amount,
{
    assert(invs.push(x).drop_last() =~= invs);
    assert(invs.push(x).last() == x);
}

/// An id that no investment carries has a zero total.
pub proof fn lemma_sum_invested_absent(invs: Seq<InvestmentView>, id: Seq<u8>)
    requires
        forall|j: int| 0 <= j < invs.len() ==> (#[trigger] invs[j]).asset_id != id,
    ensures
        sum_invested(invs, id) == 0,
    decreases invs.len(),
{
    if invs.len() > 0 {
        lemma_sum_invested_absent(invs.drop_last(), id);
    }
}

#[verifier::ext_equal]
pub struct LoanPoolView {
    pub admin: Seq<u8>,
    pub assets: Seq<MobilityAssetView>,
    pub investments: Seq<InvestmentView>,
    pub total_pool_balance: int,
    pub equity_oracle: Seq<u8>,
}

impl LoanPoolView {
    /// Well-formed pool state: asset ids are unique; every asset's
    /// `funded_amount` is the sum of the amounts of its investments;
    /// the pool balance is the sum over all investments; targets are
    /// positive, amounts positive, and every investment names a
    /// catalogued asset.
    pub open spec fn wf(self) -> bool {
        &&& unique_asset_ids(self.assets)
        &&& forall|i: int|
            0 <= i < self.assets.len() ==> (#[trigger] self.assets[i]).funded_amount
                == sum_invested(self.investments, self.assets[i].id)
        &&& forall|i: int| 0 <= i < self.assets.len() ==> (#[trigger] self.assets[i]).target_amount > 0
        &&& forall|j: int| 0 <= j < self.investments.len() ==> (#[trigger] self.investments[j]).amount > 0
        &&& forall|j: int|
            0 <= j < self.investments.len() ==> has_asset(
                self.assets,
                (#[trigger] self.investments[j]).asset_id,
            )
        &&& self.total_pool_balance == sum_amounts(self.investments)
    }
}

/// The loan pool contract state: the root record of the contract.
pub struct LoanPool {
    pub admin: Vec<u8>,
    pub assets: Vec<MobilityAsset>,
    pub investments: Vec<Investment>,
    pub total_pool_balance: i128,
    pub equity_oracle: Vec<u8>,
}

impl View for LoanPool {
    type V = LoanPoolView;

    open spec fn view(&self) -> LoanPoolView {
        LoanPoolView {
            admin: self.admin@,
            assets: self.assets.deep_view(),
            investments: self.investments.deep_view(),
            total_pool_balance: self.total_pool_balance as int,
            equity_oracle: self.equity_oracle@,
        }
    }
}

/// Position of the asset carrying `id`, scanned in catalog order.
fn find_asset_index(assets: &Vec<MobilityAsset>, id: &Vec<u8>) -> (r: Option<usize>)
    ensures
        match r {
            Some(k) => 0 <= k < assets.deep_view().len() && assets.deep_view()[k as int].id == id@,
            None => !has_asset(assets.deep_view(), id@),
        },
{
    let mut i: usize = 0;
    while i < assets.len()
        invariant
            0 <= i <= assets.len(),
            forall|k: int| 0 <= k < i ==> (#[trigger] assets.deep_view()[k]).id != id@,
        decreases assets.len() - i,
    {
        if bytes_eq(&assets[i].id, id) {
            return Some(i);
        }
        i = i + 1;
    }
    None
}

fn calculate_investor_equity_bonus(investor: &Vec<u8>, location: &Vec<u8>) -> (r: i32)
    ensures
        r as int == spec_investor_equity_bonus(investor@, location@),
        0 <= r <= 25,
{
    let mut bonus: i32 = 0;
    if check_underserved(location) {
        bonus = bonus + 15;
    }
    if investor.len() < 10 {
        bonus = bonus + 10;
    }
    if bonus > 25 {
        bonus = 25;
    }
    bonus
}

impl LoanPool {
    /// Create the pool with its admin and equity oracle principals.
    pub fn initialize(admin: Vec<u8>, equity_oracle: Vec<u8>) -> (p: LoanPool)
        ensures
            p@.wf(),
            p@.admin == admin@,
            p@.equity_oracle == equity_oracle@,
            p@.assets == Seq::<MobilityAssetView>::empty(),
            p@.investments == Seq::<InvestmentView>::empty(),
            p@.total_pool_balance == 0,
    {
        let p = LoanPool {
            admin,
            assets: Vec::new(),
            investments: Vec::new(),
            total_pool_balance: 0,
            equity_oracle,
        };
        proof {
            assert(p@.assets =~= Seq::<MobilityAssetView>::empty());
            assert(p@.investments =~= Seq::<InvestmentView>::empty());
        }
        p
    }

    /// Admin only: add a new asset to the catalog, in `Funding` status,
    /// with the location-derived equity score.
    pub fn create_asset(
        &mut self,
        caller: &Vec<u8>,
        asset_id: &Vec<u8>,
        name: Vec<u8>,
        asset_type: Vec<u8>,
        target_amount: i128,
        location: Vec<u8>,
        now: u64,
    ) -> (r: Result<(), Error>)
        requires
            old(self)@.wf(),
            target_amount > 0,
        ensures
            final(self)@.wf(),
            final(self)@.admin == old(self)@.admin,
            final(self)@.equity_oracle == old(self)@.equity_oracle,
            final(self)@.investments == old(self)@.investments,
            final(self)@.total_pool_balance == old(self)@.total_pool_balance,
            r is Ok <==> (caller@ == old(self)@.admin && !has_asset(old(self)@.assets, asset_id@)),
            match r {
                Ok(()) => final(self)@.assets == old(self)@.assets.push(
                    MobilityAssetView {
                        id: asset_id@,
                        name: name@,
                        asset_type: asset_type@,
                        target_amount: target_amount as int,
                        funded_amount: 0,
                        location: location@,
                        equity_score: spec_asset_equity_score(location@),
                        status: AssetStatus::Funding,
                        investors: Seq::<Seq<u8>>::empty(),
                        created_at: now as int,
                    },
                ),
                Err(e) => {
                    &&& final(self)@ == old(self)@
                    &&& (e == Error::UNAUTHORIZED <==> caller@ != old(self)@.admin)
                    &&& (e == Error::ASSET_EXISTS <==> caller@ == old(self)@.admin && has_asset(
                        old(self)@.assets,
                        asset_id@,
                    ))
                },
            },
    {
        if !bytes_eq(caller, &self.admin) {
            return Err(Error::UNAUTHORIZED);
        }
        if let Some(_k) = find_asset_index(&self.assets, asset_id) {
            proof {
                assert(has_asset(self@.assets, asset_id@));
            }
            return Err(Error::ASSET_EXISTS);
        }
        let equity_score = calculate_equity_score(&location);
        let asset = MobilityAsset {
            id: asset_id.clone(),
            name,
            asset_type,
            target_amount,
            funded_amount: 0,
            location,
            equity_score,
            status: AssetStatus::Funding,
            investors: Vec::new(),
            created_at: now,
        };
        let ghost s0 = self@;
        proof {
            assert(asset@.id =~= asset_id@);
            assert(asset@.investors =~= Seq::<Seq<u8>>::empty());
        }
        self.assets.push(asset);
        proof {
            assert(self@.assets =~= s0.assets.push(
                MobilityAssetView {
                    id: asset_id@,
                    name: name@,
                    asset_type: asset_type@,
                    target_amount: target_amount as int,
                    funded_amount: 0,
                    location: location@,
                    equity_score: spec_asset_equity_score(location@),
                    status: AssetStatus::Funding,
                    investors: Seq::<Seq<u8>>::empty(),
                    created_at: now as int,
                },
            ));
            assert forall|j: int|
                0 <= j < s0.investments.len() implies (#[trigger] s0.investments[j]).asset_id
                != asset_id@ by {
                assert(has_asset(s0.assets, s0.investments[j].asset_id));
            }
            lemma_sum_invested_absent(s0.investments, asset_id@);
            assert forall|i: int|
                0 <= i < self@.assets.len() implies (#[trigger] self@.assets[i]).funded_amount
                == sum_invested(self@.investments, self@.assets[i].id) by {
                if i < s0.assets.len() {
                    assert(s0.assets[i].funded_amount == sum_invested(
                        s0.investments,
                        s0.assets[i].id,
                    ));
                }
            }
            assert(unique_asset_ids(self@.assets));
            assert(forall|i: int|
                0 <= i < self@.assets.len() ==> (#[trigger] self@.assets[i]).target_amount > 0);
            assert(forall|j: int|
                0 <= j < self@.investments.len() ==> (#[trigger] self@.investments[j]).amount > 0);
            assert forall|j: int|
                0 <= j < self@.investments.len() implies has_asset(
                self@.assets,
                (#[trigger] self@.investments[j]).asset_id,
            ) by {
                assert(has_asset(s0.assets, s0.investments[j].asset_id));
                let w = choose|i: int|
                    0 <= i < s0.assets.len() && (#[trigger] s0.assets[i]).id
                        == s0.investments[j].asset_id;
                assert(self@.assets[w].id == s0.investments[j].asset_id);
            }
            assert(self@.total_pool_balance == sum_amounts(self@.investments));
        }
        Ok(())
    }

    /// Invest in a funding asset: appends the investor and an
    /// `Investment` record, raises `funded_amount` and the pool
    /// balance, and flips the status to `Funded` exactly when the
    /// target is reached. Returns the investment's equity bonus.
    pub fn invest(
        &mut self,
        investor: &Vec<u8>,
        asset_id: &Vec<u8>,
        amount: i128,
        now: u64,
    ) -> (r: Result<i32, Error>)
        requires
            old(self)@.wf(),
            (amount > 0 && has_asset(old(self)@.assets, asset_id@) && asset_at(
                old(self)@.assets,
                asset_id@,
            ).status == AssetStatus::Funding) ==> {
                &&& asset_at(old(self)@.assets, asset_id@).funded_amount + amount <= i128::MAX
                &&& old(self)@.total_pool_balance + amount <= i128::MAX
            },
        ensures
            final(self)@.wf(),
            final(self)@.admin == old(self)@.admin,
            final(self)@.equity_oracle == old(self)@.equity_oracle,
            r is Ok <==> (amount > 0 && has_asset(old(self)@.assets, asset_id@) && asset_at(
                old(self)@.assets,
                asset_id@,
            ).status == AssetStatus::Funding),
            match r {
                Ok(bonus) => ({
                    let s = old(self)@;
                    let k = asset_index(s.assets, asset_id@);
                    let a = s.assets[k];
                    &&& bonus as int == spec_investor_equity_bonus(investor@, a.location)
                    &&& final(self)@.assets == s.assets.update(
                        k,
                        spec_invest_asset(a, investor@, amount as int),
                    )
                    &&& final(self)@.investments == s.investments.push(
                        InvestmentView {
                            investor: investor@,
                            asset_id: asset_id@,
                            amount: amount as int,
                            equity_bonus: spec_investor_equity_bonus(investor@, a.location),
                            timestamp: now as int,
                        },
                    )
                    &&& final(self)@.total_pool_balance == s.total_pool_balance + amount
                    &&& (asset_at(final(self)@.assets, asset_id@).status == AssetStatus::Funded
                        <==> asset_at(final(self)@.assets, asset_id@).funded_amount >= asset_at(
                        final(self)@.assets,
                        asset_id@,
                    ).target_amount)
                }),
                Err(e) => {
                    &&& final(self)@ == old(self)@
                    &&& (e == Error::INVALID_AMOUNT <==> amount <= 0)
                    &&& (e == Error::ASSET_NOT_FOUND <==> amount > 0 && !has_asset(
                        old(self)@.assets,
                        asset_id@,
                    ))
                    &&& (e == Error::ASSET_NOT_FUNDING <==> amount > 0 && has_asset(
                        old(self)@.assets,
                        asset_id@,
                    ) && asset_at(old(self)@.assets, asset_id@).status != AssetStatus::Funding)
                },
            },
    {
        if amount <= 0 {
            return Err(Error::INVALID_AMOUNT);
        }
        let k = match find_asset_index(&self.assets, asset_id) {
            None => {
                return Err(Error::ASSET_NOT_FOUND);
            },
            Some(k) => k,
        };
        proof {
            lemma_asset_at(self@.assets, asset_id@, k as int);
        }
        if !matches!(self.assets[k].status, AssetStatus::Funding) {
            return Err(Error::ASSET_NOT_FUNDING);
        }
        let ghost s0 = self@;
        let equity_bonus = calculate_investor_equity_bonus(investor, &self.assets[k].location);
        let investment = Investment {
            investor: investor.clone(),
            asset_id: asset_id.clone(),
            amount,
            equity_bonus,
            timestamp: now,
        };
        let mut a = self.assets[k].clone();
        let new_funded = a.funded_amount + amount;
        a.funded_amount = new_funded;
        let inv_clone = investor.clone();
        proof {
            assert(inv_clone@ =~= investor@);
        }
        a.investors.push(inv_clone);
        if new_funded >= a.target_amount {
            a.status = AssetStatus::Funded;
        }
        proof {
            assert(a.investors.deep_view() =~~= s0.assets[k as int].investors.push(investor@));
            assert(a@ =~~= spec_invest_asset(s0.assets[k as int], investor@, amount as int));
        }
        self.assets[k] = a;
        self.investments.push(investment);
        self.total_pool_balance = self.total_pool_balance + amount;
        proof {
            let ghost inv = InvestmentView {
                investor: investor@,
                asset_id: asset_id@,
                amount: amount as int,
                equity_bonus: spec_investor_equity_bonus(investor@, s0.assets[k as int].location),
                timestamp: now as int,
            };
            assert(self@.assets =~= s0.assets.update(
                k as int,
                spec_invest_asset(s0.assets[k as int], investor@, amount as int),
            ));
            assert(self@.investments =~= s0.investments.push(inv));
            lemma_invest_preserves_wf(s0, self@, k as int, inv);
            lemma_asset_at(self@.assets, asset_id@, k as int);
        }
        Ok(equity_bonus)
    }

    /// Admin only: move a `Funded` asset to `Deployed`.
    pub fn deploy_asset(&mut self, caller: &Vec<u8>, asset_id: &Vec<u8>) -> (r: Result<(), Error>)
        requires
            old(self)@.wf(),
        ensures
            final(self)@.wf(),
            final(self)@.admin == old(self)@.admin,
            final(self)@.equity_oracle == old(self)@.equity_oracle,
            final(self)@.investments == old(self)@.investments,
            final(self)@.total_pool_balance == old(self)@.total_pool_balance,
            r is Ok <==> (caller@ == old(self)@.admin && has_asset(old(self)@.assets, asset_id@)
                && asset_at(old(self)@.assets, asset_id@).status == AssetStatus::Funded),
            match r {
                Ok(()) => final(self)@.assets == old(self)@.assets.update(
                    asset_index(old(self)@.assets, asset_id@),
                    MobilityAssetView {
                        status: AssetStatus::Deployed,
                        ..asset_at(old(self)@.assets, asset_id@)
                    },
                ),
                Err(e) => {
                    &&& final(self)@ == old(self)@
                    &&& (e == Error::UNAUTHORIZED <==> caller@ != old(self)@.admin)
                    &&& (e == Error::ASSET_NOT_FOUND <==> caller@ == old(self)@.admin && !has_asset(
                        old(self)@.assets,
                        asset_id@,
                    ))
                    &&& (e == Error::ASSET_NOT_FUNDED <==> caller@ == old(self)@.admin && has_asset(
                        old(self)@.assets,
                        asset_id@,
                    ) && asset_at(old(self)@.assets, asset_id@).status != AssetStatus::Funded)
                },
            },
    {
        if !bytes_eq(caller, &self.admin) {
            return Err(Error::UNAUTHORIZED);
        }
        let k = match find_asset_index(&self.assets, asset_id) {
            None => {
                return Err(Error::ASSET_NOT_FOUND);
            },
            Some(k) => k,
        };
        proof {
            lemma_asset_at(self@.assets, asset_id@, k as int);
        }
        if !matches!(self.assets[k].status, AssetStatus::Funded) {
            return Err(Error::ASSET_NOT_FUNDED);
        }
        let ghost s0 = self@;
        let mut a = self.assets[k].clone();
        a.status = AssetStatus::Deployed;
        proof {
            assert(a@ =~~= MobilityAssetView {
                status: AssetStatus::Deployed,
                ..s0.assets[k as int]
            });
        }
        self.assets[k] = a;
        proof {
            assert(self@.assets =~= s0.assets.update(k as int, self@.assets[k as int]));
            lemma_wf_after_asset_update(s0, self@, k as int);
        }
        Ok(())
    }

    /// Admin only: move a `Deployed` asset to `Completed`.
    pub fn complete_asset(&mut self, caller: &Vec<u8>, asset_id: &Vec<u8>) -> (r: Result<
        (),
        Error,
    >)
        requires
            old(self)@.wf(),
        ensures
            final(self)@.wf(),
            final(self)@.admin == old(self)@.admin,
            final(self)@.equity_oracle == old(self)@.equity_oracle,
            final(self)@.investments == old(self)@.investments,
            final(self)@.total_pool_balance == old(self)@.total_pool_balance,
            r is Ok <==> (caller@ == old(self)@.admin && has_asset(old(self)@.assets, asset_id@)
                && asset_at(old(self)@.assets, asset_id@).status == AssetStatus::Deployed),
            match r {
                Ok(()) => final(self)@.assets == old(self)@.assets.update(
                    asset_index(old(self)@.assets, asset_id@),
                    MobilityAssetView {
                        status: AssetStatus::Completed,
                        ..asset_at(old(self)@.assets, asset_id@)
                    },
                ),
                Err(e) => {
                    &&& final(self)@ == old(self)@
                    &&& (e == Error::UNAUTHORIZED <==> caller@ != old(self)@.admin)
                    &&& (e == Error::ASSET_NOT_FOUND <==> caller@ == old(self)@.admin && !has_asset(
                        old(self)@.assets,
                        asset_id@,
                    ))
                    &&& (e == Error::ASSET_NOT_DEPLOYED <==> caller@ == old(self)@.admin
                        && has_asset(old(self)@.assets, asset_id@) && asset_at(
                        old(self)@.assets,
                        asset_id@,
                    ).status != AssetStatus::Deployed)
                },
            },
    {
        if !bytes_eq(caller, &self.admin) {
            return Err(Error::UNAUTHORIZED);
        }
        let k = match find_asset_index(&self.assets, asset_id) {
            None => {
                return Err(Error::ASSET_NOT_FOUND);
            },
            Some(k) => k,
        };
        proof {
            lemma_asset_at(self@.assets, asset_id@, k as int);
        }
        if !matches!(self.assets[k].status, AssetStatus::Deployed) {
            return Err(Error::ASSET_NOT_DEPLOYED);
        }
        let ghost s0 = self@;
        let mut a = self.assets[k].clone();
        a.status = AssetStatus::Completed;
        proof {
            assert(a@ =~~= MobilityAssetView {
                status: AssetStatus::Completed,
                ..s0.assets[k as int]
            });
        }
        self.assets[k] = a;
        proof {
            assert(self@.assets =~= s0.assets.update(k as int, self@.assets[k as int]));
            lemma_wf_after_asset_update(s0, self@, k as int);
        }
        Ok(())
    }

    /// The asset carrying the id, or `ASSET_NOT_FOUND`.
    pub fn get_asset(&self, asset_id: &Vec<u8>) -> (r: Result<MobilityAsset, Error>)
        requires
            self@.wf(),
        ensures
            match r {
                Ok(a) => has_asset(self@.assets, asset_id@) && a@ == asset_at(
                    self@.assets,
                    asset_id@,
                ),
                Err(e) => e == Error::ASSET_NOT_FOUND && !has_asset(self@.assets, asset_id@),
            },
    {
        match find_asset_index(&self.assets, asset_id) {
            None => Err(Error::ASSET_NOT_FOUND),
            Some(k) => {
                proof {
                    lemma_asset_at(self@.assets, asset_id@, k as int);
                }
                Ok(self.assets[k].clone())
            },
        }
    }

    /// Every asset, in catalog order.
    pub fn get_all_assets(&self) -> (r: Vec<MobilityAsset>)
        ensures
            r.deep_view() == self@.assets,
    {
        let mut r: Vec<MobilityAsset> = Vec::new();
        let mut i: usize = 0;
        while i < self.assets.len()
            invariant
                0 <= i <= self.assets.len(),
                r.len() == i,
                r.deep_view() == self@.assets.subrange(0, i as int),
            decreases self.assets.len() - i,
        {
            let ghost r0 = r@;
            let ghost rd0 = r.deep_view();
            r.push(self.assets[i].clone());
            proof {
                assert forall|k: int| 0 <= k < i implies r.deep_view()[k] == self@.assets[k] by {
                    assert(r@[k] == r0[k]);
                    assert(rd0[k] == r0[k].deep_view());
                }
                assert(r.deep_view() =~~= self@.assets.subrange(0, i + 1));
            }
            i = i + 1;
        }
        proof {
            assert(self@.assets.subrange(0, self@.assets.len() as int) =~= self@.assets);
        }
        r
    }

    /// The investments recorded for one asset, in record order.
    pub fn get_asset_investments(&self, asset_id: &Vec<u8>) -> (r: Vec<Investment>)
        ensures
            r.deep_view() == investments_for(self@.investments, asset_id@),
    {
        let mut r: Vec<Investment> = Vec::new();
        let mut i: usize = 0;
        while i < self.investments.len()
            invariant
                0 <= i <= self.investments.len(),
                r.deep_view() == investments_for(
                    self@.investments.subrange(0, i as int),
                    asset_id@,
                ),
            decreases self.investments.len() - i,
        {
            let ghost rd0 = r.deep_view();
            let ghost pre = self@.investments.subrange(0, i as int);
            let ghost cur = self@.investments.subrange(0, i + 1);
            let hit = bytes_eq(&self.investments[i].asset_id, asset_id);
            if hit {
                let ghost r0 = r@;
                r.push(self.investments[i].clone());
                proof {
                    assert forall|k: int| 0 <= k < r0.len() implies r.deep_view()[k] == rd0[k] by {
                        assert(r@[k] == r0[k]);
                        assert(rd0[k] == r0[k].deep_view());
                    }
                }
            }
            proof {
                assert(cur.drop_last() =~= pre);
                assert(cur.last() == self@.investments[i as int]);
                if hit {
                    assert(r.deep_view() =~~= investments_for(cur, asset_id@));
                } else {
                    assert(r.deep_view() =~~= investments_for(cur, asset_id@));
                }
            }
            i = i + 1;
        }
        proof {
            assert(self@.investments.subrange(0, self@.investments.len() as int)
                =~= self@.investments);
        }
        r
    }

    /// The pool's running balance: the sum of all recorded investments.
    pub fn get_pool_balance(&self) -> (r: i128)
        ensures
            r as int == self@.total_pool_balance,
    {
        self.total_pool_balance
    }
}

/// The investments that name the given asset, in record order.
pub open spec fn investments_for(s: Seq<InvestmentView>, id: Seq<u8>) -> Seq<InvestmentView>
    decreases s.len(),
{
    if s.len() == 0 {
        Seq::<InvestmentView>::empty()
    } else {
        investments_for(s.drop_last(), id) + if s.last().asset_id == id {
            seq![s.last()]
        } else {
            Seq::<InvestmentView>::empty()
        }
    }
}

/// Rewriting one asset in place, with id, funded amount and target
/// unchanged, keeps the pool well-formed.
proof fn lemma_wf_after_asset_update(s0: LoanPoolView, s1: LoanPoolView, k: int)
    requires
        s0.wf(),
        0 <= k < s0.assets.len(),
        s1.assets == s0.assets.update(k, s1.assets[k]),
        s1.assets[k].id == s0.assets[k].id,
        s1.assets[k].funded_amount == s0.assets[k].funded_amount,
        s1.assets[k].target_amount == s0.assets[k].target_amount,
        s1.investments == s0.investments,
        s1.total_pool_balance == s0.total_pool_balance,
    ensures
        s1.wf(),
{
    assert(s1.assets.len() == s0.assets.len());
    assert forall|j: int|
        0 <= j < s1.investments.len() implies has_asset(
        s1.assets,
        (#[trigger] s1.investments[j]).asset_id,
    ) by {
        assert(has_asset(s0.assets, s0.investments[j].asset_id));
        let w = choose|i: int|
            0 <= i < s0.assets.len() && (#[trigger] s0.assets[i]).id == s0.investments[j].asset_id;
        assert(s1.assets[w].id == s0.investments[j].asset_id);
    }
}

/// One successful investment, as it rewrites the asset: the amount is
/// added, the investor appended, and the status becomes `Funded`
/// exactly when the new total reaches the target.
pub open spec fn spec_invest_asset(
    a: MobilityAssetView,
    investor: Seq<u8>,
    amount: int,
) -> MobilityAssetView {
    MobilityAssetView {
        funded_amount: a.funded_amount + amount,
        investors: a.investors.push(investor),
        status: if a.funded_amount + amount >= a.target_amount {
            AssetStatus::Funded
        } else {
            AssetStatus::Funding
        },
        ..a
    }
}

/// In any well-formed pool, the funded amount of every catalogued
/// asset is exactly the sum of the amounts of the investments
/// recorded for it, and the pool balance is the sum over all
/// investments.
pub proof fn lemma_asset_funding_invariant(p: LoanPoolView, id: Seq<u8>)
    requires
        p.wf(),
        has_asset(p.assets, id),
    ensures
        asset_at(p.assets, id).funded_amount == sum_invested(p.investments, id),
        p.total_pool_balance == sum_amounts(p.investments),
{
    let k = asset_index(p.assets, id);
    assert(0 <= k < p.assets.len() && p.assets[k].id == id);
}

/// A well-formed pool stays well-formed under one investment step.
proof fn lemma_invest_preserves_wf(s0: LoanPoolView, s1: LoanPoolView, k: int, inv: InvestmentView)
    requires
        s0.wf(),
        0 <= k < s0.assets.len(),
        inv.asset_id == s0.assets[k].id,
        inv.amount > 0,
        s0.assets[k].status == AssetStatus::Funding,
        s1.assets == s0.assets.update(k, spec_invest_asset(s0.assets[k], inv.investor, inv.amount)),
        s1.investments == s0.investments.push(inv),
        s1.total_pool_balance == s0.total_pool_balance + inv.amount,
    ensures
        s1.wf(),
{
    let id = s0.assets[k].id;
    lemma_sum_amounts_push(s0.investments, inv);
    assert forall|i: int|
        0 <= i < s1.assets.len() implies (#[trigger] s1.assets[i]).funded_amount == sum_invested(
        s1.investments,
        s1.assets[i].id,
    ) by {
        lemma_sum_invested_push(s0.investments, inv, s1.assets[i].id);
        if i != k {
            assert(s0.assets[i].id != id);
            assert(s1.assets[i] == s0.assets[i]);
        }
    }
    assert forall|j: int|
        0 <= j < s1.investments.len() implies has_asset(
        s1.assets,
        (#[trigger] s1.investments[j]).asset_id,
    ) by {
        if j < s0.investments.len() {
            assert(has_asset(s0.assets, s0.investments[j].asset_id));
            let w = choose|i: int|
                0 <= i < s0.assets.len() && (#[trigger] s0.assets[i]).id
                    == s0.investments[j].asset_id;
            assert(s1.assets[w].id == s0.investments[j].asset_id);
        } else {
            assert(s1.assets[k].id == id);
        }
    }
}

} // verus!
