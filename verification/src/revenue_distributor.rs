//! The revenue distributor: oracle-reported ride revenue per asset,
//! distributed to investors in proportion to their investments, with
//! an equity bonus pool shared by equity score and underserved-ride
//! ratio, and an advisory impact multiplier.
//!
//! Each method is one ledger transaction over the contract's root
//! record, taking the calling principal and the ledger timestamp as
//! arguments.
use vstd::prelude::*;
use crate::arith::{div_i128, div_i32, lemma_frac_le, lemma_mul_upper};
use crate::bytes::{bytes_eq, dec_digits, push_bytes, u64_to_dec};
use crate::digest::{first_eight, sha256, sha256_of};
use vstd::arithmetic::div_mod::{lemma_div_is_ordered, lemma_div_pos_is_pos};
use vstd::arithmetic::mul::{lemma_mul_inequality, lemma_mul_nonnegative};

verus! {

/// Error codes of the revenue distributor, as the ledger surfaces
/// them.
#[allow(non_camel_case_types)]
#[derive(Clone, Copy, Debug, PartialEq, Eq, Structural)]
pub enum Error {
    UNAUTHORIZED,
    REVENUE_NOT_FOUND,
    INVALID_INPUT,
    INVALID_RATE,
    DISTRIBUTION_NOT_FOUND,
}

/// The latest ride-revenue observation for an asset; overwritten on
/// each oracle update.
#[derive(Debug)]
pub struct RideRevenue {
    pub asset_id: Vec<u8>,
    pub revenue_amount: i128,
    pub ride_count: i32,
    pub co2_saved: i32,
    pub underserved_rides: i32,
    pub timestamp: u64,
}

/// One investor's share of a distribution.
#[derive(Debug)]
pub struct InvestorDistribution {
    pub investor: Vec<u8>,
    pub base_amount: i128,
    pub equity_bonus: i128,
    pub total_amount: i128,
    pub equity_score: i32,
    pub impact_multiplier: i32,
}

/// An immutable distribution ledger entry.
#[derive(Debug)]
pub struct RevenueDistribution {
    pub id: Vec<u8>,
    pub asset_id: Vec<u8>,
    pub total_revenue: i128,
    pub distribution_amount: i128,
    pub equity_bonus_pool: i128,
    pub timestamp: u64,
    pub distributions: Vec<InvestorDistribution>,
}

#[verifier::ext_equal]
pub struct RideRevenueView {
    pub asset_id: Seq<u8>,
    pub revenue_amount: int,
    pub ride_count: int,
    pub co2_saved: int,
    pub underserved_rides: int,
    pub timestamp: int,
}

#[verifier::ext_equal]
pub struct InvestorDistributionView {
    pub investor: Seq<u8>,
    pub base_amount: int,
    pub equity_bonus: int,
    pub total_amount: int,
    pub equity_score: int,
    pub impact_multiplier: int,
}

#[verifier::ext_equal]
pub struct RevenueDistributionView {
    pub id: Seq<u8>,
    pub asset_id: Seq<u8>,
    pub total_revenue: int,
    pub distribution_amount: int,
    pub equity_bonus_pool: int,
    pub timestamp: int,
    pub distributions: Seq<InvestorDistributionView>,
}

impl View for RideRevenue {
    type V = RideRevenueView;

    open spec fn view(&self) -> RideRevenueView {
        RideRevenueView {
            asset_id: self.asset_id@,
            revenue_amount: self.revenue_amount as int,
            ride_count: self.ride_count as int,
            co2_saved: self.co2_saved as int,
            underserved_rides: self.underserved_rides as int,
            timestamp: self.timestamp as int,
        }
    }
}

impl DeepView for RideRevenue {
    type V = RideRevenueView;

    open spec fn deep_view(&self) -> RideRevenueView {
        self.view()
    }
}

impl View for InvestorDistribution {
    type V = InvestorDistributionView;

    open spec fn view(&self) -> InvestorDistributionView {
        InvestorDistributionView {
            investor: self.investor@,
            base_amount: self.base_amount as int,
            equity_bonus: self.equity_bonus as int,
            total_amount: self.total_amount as int,
            equity_score: self.equity_score as int,
            impact_multiplier: self.impact_multiplier as int,
        }
    }
}

impl DeepView for InvestorDistribution {
    type V = InvestorDistributionView;

    open spec fn deep_view(&self) -> InvestorDistributionView {
        self.view()
    }
}

impl View for RevenueDistribution {
    type V = RevenueDistributionView;

    open spec fn view(&self) -> RevenueDistributionView {
        RevenueDistributionView {
            id: self.id@,
            asset_id: self.asset_id@,
            total_revenue: self.total_revenue as int,
            distribution_amount: self.distribution_amount as int,
            equity_bonus_pool: self.equity_bonus_pool as int,
            timestamp: self.timestamp as int,
            distributions: self.distributions.deep_view(),
        }
    }
}

impl DeepView for RevenueDistribution {
    type V = RevenueDistributionView;

    open spec fn deep_view(&self) -> RevenueDistributionView {
        self.view()
    }
}

impl Clone for RideRevenue {
    fn clone(&self) -> (r: Self)
        ensures
            r@ == self@,
    {
        RideRevenue {
            asset_id: self.asset_id.clone(),
            revenue_amount: self.revenue_amount,
            ride_count: self.ride_count,
            co2_saved: self.co2_saved,
            underserved_rides: self.underserved_rides,
            timestamp: self.timestamp,
        }
    }
}

impl Clone for InvestorDistribution {
    fn clone(&self) -> (r: Self)
        ensures
            r@ == self@,
    {
        InvestorDistribution {
            investor: self.investor.clone(),
            base_amount: self.base_amount,
            equity_bonus: self.equity_bonus,
            total_amount: self.total_amount,
            equity_score: self.equity_score,
            impact_multiplier: self.impact_multiplier,
        }
    }
}

impl Clone for RevenueDistribution {
    fn clone(&self) -> (r: Self)
        ensures
            r@ == self@,
    {
        let mut entries: Vec<InvestorDistribution> = Vec::new();
        let mut i: usize = 0;
        while i < self.distributions.len()
            invariant
                0 <= i <= self.distributions.len(),
                entries.len() == i,
                entries.deep_view() == self.distributions.deep_view().subrange(0, i as int),
            decreases self.distributions.len() - i,
        {
            let ghost r0 = entries@;
            let ghost rd0 = entries.deep_view();
            entries.push(self.distributions[i].clone());
            proof {
                assert forall|k: int|
                    0 <= k < i implies entries.deep_view()[k] == self.distributions.deep_view()[k] by {
                    assert(entries@[k] == r0[k]);
                    assert(rd0[k] == r0[k].deep_view());
                }
                assert(entries.deep_view() =~~= self.distributions.deep_view().subrange(0, i + 1));
            }
            i = i + 1;
        }
        proof {
            assert(self.distributions.deep_view().subrange(
                0,
                self.distributions.deep_view().len() as int,
            ) =~= self.distributions.deep_view());
        }
        RevenueDistribution {
            id: self.id.clone(),
            asset_id: self.asset_id.clone(),
            total_revenue: self.total_revenue,
            distribution_amount: self.distribution_amount,
            equity_bonus_pool: self.equity_bonus_pool,
            timestamp: self.timestamp,
            distributions: entries,
        }
    }
}

/// The equity bonus pool taken out of a revenue observation.
pub open spec fn spec_pool(revenue: int, rate: int) -> int {
    revenue * rate / 100
}

/// Percentage of rides in underserved areas; 0 when no rides were
/// observed.
pub open spec fn spec_usr_ratio(underserved: int, rides: int) -> int {
    if rides > 0 {
        underserved * 100 / rides
    } else {
        0
    }
}

/// The score-proportional share of the bonus pool.
pub open spec fn spec_base_bonus(pool: int, score: int) -> int {
    pool * score / 100
}

/// An investor's equity bonus: the score share of the pool, raised by
/// the underserved-ride ratio.
pub open spec fn spec_equity_bonus(pool: int, score: int, underserved: int, rides: int) -> int {
    spec_base_bonus(pool, score) + spec_base_bonus(pool, score) * spec_usr_ratio(
        underserved,
        rides,
    ) / 100
}

/// The advisory impact multiplier: 100 percent, plus 10 for notable
/// CO2 savings, plus the impact bonus rate when underserved rides
/// dominate. Recorded per investor but never applied to amounts.
pub open spec fn spec_impact_multiplier(
    co2: int,
    underserved: int,
    rides: int,
    impact_rate: int,
) -> int {
    100 + (if co2 > 1000 {
        10int
    } else {
        0int
    }) + (if rides > 0 && spec_usr_ratio(underserved, rides) > 50 {
        impact_rate
    } else {
        0int
    })
}

/// Total of a list of amounts.
pub open spec fn sum_i128(s: Seq<i128>) -> int
    decreases s.len(),
{
    if s.len() == 0 {
        0
    } else {
        sum_i128(s.drop_last()) + s.last()
    }
}

/// A prefix of non-negative amounts never exceeds the whole sum, and
/// sums of non-negative amounts are non-negative.
pub proof fn lemma_sum_i128_prefix(s: Seq<i128>, i: int)
    requires
        forall|j: int| 0 <= j < s.len() ==> 0 <= #[trigger] s[j],
        0 <= i <= s.len(),
    ensures
        0 <= sum_i128(s.subrange(0, i)),
        sum_i128(s.subrange(0, i)) <= sum_i128(s),
    decreases s.len() - i, i,
{
    if i == s.len() {
        assert(s.subrange(0, i) =~= s);
        lemma_sum_i128_nonneg(s);
    } else {
        lemma_sum_i128_prefix(s, i + 1);
        let a = s.subrange(0, i);
        let b = s.subrange(0, i + 1);
        assert(b.drop_last() =~= a);
        assert(b.last() == s[i]);
        lemma_sum_i128_nonneg(a);
    }
}

pub proof fn lemma_sum_i128_nonneg(s: Seq<i128>)
    requires
        forall|j: int| 0 <= j < s.len() ==> 0 <= #[trigger] s[j],
    ensures
        0 <= sum_i128(s),
    decreases s.len(),
{
    if s.len() > 0 {
        lemma_sum_i128_nonneg(s.drop_last());
    }
}

/// Each non-negative amount is at most the total.
pub proof fn lemma_sum_i128_element(s: Seq<i128>, i: int)
    requires
        forall|j: int| 0 <= j < s.len() ==> 0 <= #[trigger] s[j],
        0 <= i < s.len(),
    ensures
        s[i] <= sum_i128(s),
    decreases s.len(),
{
    if i == s.len() - 1 {
        lemma_sum_i128_nonneg(s.drop_last());
    } else {
        lemma_sum_i128_element(s.drop_last(), i);
        assert(s.drop_last()[i] == s[i]);
    }
}

/// The preimage hashed into a distribution id: the `dist_` prefix,
/// the asset and the decimal timestamp, joined by underscores.
pub open spec fn spec_dist_preimage(asset_id: Seq<u8>, now: nat) -> Seq<u8> {
    seq![100u8, 105u8, 115u8, 116u8, 95u8] + asset_id + seq![95u8] + dec_digits(now)
}

/// A distribution id: the first eight bytes of the preimage digest.
pub open spec fn spec_distribution_id(asset_id: Seq<u8>, now: nat) -> Seq<u8> {
    sha256_of(spec_dist_preimage(asset_id, now)).subrange(0, 8)
}

/// The per-investor rows of one distribution, in input order.
pub open spec fn spec_distribution_entries(
    investors: Seq<Seq<u8>>,
    amounts: Seq<i128>,
    scores: Seq<i32>,
    rev: RideRevenueView,
    pool: int,
    dist_amount: int,
    total: int,
    impact_rate: int,
) -> Seq<InvestorDistributionView> {
    Seq::new(
        investors.len(),
        |i: int|
            {
                let base = if total > 0 {
                    dist_amount * amounts[i] / total
                } else {
                    0int
                };
                let bonus = spec_equity_bonus(
                    pool,
                    scores[i] as int,
                    rev.underserved_rides,
                    rev.ride_count,
                );
                InvestorDistributionView {
                    investor: investors[i],
                    base_amount: base,
                    equity_bonus: bonus,
                    total_amount: base + bonus,
                    equity_score: scores[i] as int,
                    impact_multiplier: spec_impact_multiplier(
                        rev.co2_saved,
                        rev.underserved_rides,
                        rev.ride_count,
                        impact_rate,
                    ),
                }
            },
    )
}

/// The machine bounds under which one distribution computes without
/// overflow, phrased over the quantities of the distribution rule.
pub open spec fn distribute_fits(
    rev: RideRevenueView,
    rate: int,
    amounts: Seq<i128>,
    scores: Seq<i32>,
) -> bool {
    let pool = spec_pool(rev.revenue_amount, rate);
    let dist = rev.revenue_amount - pool;
    let usr = spec_usr_ratio(rev.underserved_rides, rev.ride_count);
    &&& forall|i: int| 0 <= i < amounts.len() ==> 0 <= #[trigger] amounts[i]
    &&& forall|i: int| 0 <= i < scores.len() ==> 0 <= #[trigger] scores[i] <= 100
    &&& rev.revenue_amount * rate <= i128::MAX
    &&& rev.underserved_rides * 100 <= i32::MAX
    &&& sum_i128(amounts) <= i128::MAX
    &&& forall|i: int| 0 <= i < amounts.len() ==> dist * #[trigger] amounts[i] <= i128::MAX
    &&& pool * 100 <= i128::MAX
    &&& pool * usr <= i128::MAX
    &&& dist + pool + pool * usr / 100 <= i128::MAX
}

/// Revenue observations name pairwise distinct assets.
pub open spec fn unique_revenue_assets(s: Seq<RideRevenueView>) -> bool {
    forall|i: int, j: int|
        0 <= i < j < s.len() ==> (#[trigger] s[i]).asset_id != (#[trigger] s[j]).asset_id
}

/// Some observation names the asset.
pub open spec fn has_revenue(s: Seq<RideRevenueView>, asset_id: Seq<u8>) -> bool {
    exists|i: int| 0 <= i < s.len() && (#[trigger] s[i]).asset_id == asset_id
}

pub open spec fn revenue_index(s: Seq<RideRevenueView>, asset_id: Seq<u8>) -> int {
    choose|i: int| 0 <= i < s.len() && (#[trigger] s[i]).asset_id == asset_id
}

/// The observation for the asset.
pub open spec fn revenue_at(s: Seq<RideRevenueView>, asset_id: Seq<u8>) -> RideRevenueView {
    s[revenue_index(s, asset_id)]
}

/// With unique assets, a position naming the asset is the one
/// `revenue_index` names.
pub proof fn lemma_revenue_at(s: Seq<RideRevenueView>, asset_id: Seq<u8>, i: int)
    requires
        unique_revenue_assets(s),
        0 <= i < s.len(),
        s[i].asset_id == asset_id,
    ensures
        has_revenue(s, asset_id),
        revenue_index(s, asset_id) == i,
        revenue_at(s, asset_id) == s[i],
{
    assert(has_revenue(s, asset_id));
    let j = revenue_index(s, asset_id);
    assert(0 <= j < s.len() && s[j].asset_id == asset_id);
    if i != j {
        assert(s[i].asset_id != s[j].asset_id);
    }
}

/// The store after an oracle update: the observation for the asset
/// replaced, or appended when none was there.
pub open spec fn store_revenue(s: Seq<RideRevenueView>, r: RideRevenueView) -> Seq<
    RideRevenueView,
> {
    if has_revenue(s, r.asset_id) {
        s.update(revenue_index(s, r.asset_id), r)
    } else {
        s.push(r)
    }
}

/// Properties of one `set` on the revenue store.
pub proof fn lemma_store_revenue_props(s: Seq<RideRevenueView>, r: RideRevenueView)
    requires
        unique_revenue_assets(s),
    ensures
        unique_revenue_assets(store_revenue(s, r)),
        has_revenue(store_revenue(s, r), r.asset_id),
        revenue_at(store_revenue(s, r), r.asset_id) == r,
        forall|i: int|
            0 <= i < store_revenue(s, r).len() ==> (#[trigger] store_revenue(s, r)[i] == r || (0
                <= i < s.len() && store_revenue(s, r)[i] == s[i] && s[i].asset_id != r.asset_id)),
{
    let t = store_revenue(s, r);
    if has_revenue(s, r.asset_id) {
        let k = revenue_index(s, r.asset_id);
        assert(0 <= k < s.len() && s[k].asset_id == r.asset_id);
        assert forall|i: int|
            0 <= i < t.len() implies (#[trigger] t[i] == r || (0 <= i < s.len() && t[i] == s[i]
            && s[i].asset_id != r.asset_id)) by {
            if i != k {
                assert(s[i].asset_id != s[k].asset_id);
            }
        }
        assert forall|i: int, j: int| 0 <= i < j < t.len() implies (#[trigger] t[i]).asset_id
            != (#[trigger] t[j]).asset_id by {
            assert(s[i].asset_id != s[j].asset_id);
            if i == k {
                assert(t[i].asset_id == s[i].asset_id);
            }
            if j == k {
                assert(t[j].asset_id == s[j].asset_id);
            }
        }
        lemma_revenue_at(t, r.asset_id, k);
    } else {
        assert(t[s.len() as int] == r);
        assert forall|i: int, j: int| 0 <= i < j < t.len() implies (#[trigger] t[i]).asset_id
            != (#[trigger] t[j]).asset_id by {
            if j == s.len() {
                assert(t[i] == s[i]);
                assert(!(0 <= i < s.len() && s[i].asset_id == r.asset_id));
            } else {
                assert(s[i].asset_id != s[j].asset_id);
            }
        }
        lemma_revenue_at(t, r.asset_id, s.len() as int);
    }
}

/// Distribution ids are pairwise distinct.
pub open spec fn unique_dist_ids(s: Seq<RevenueDistributionView>) -> bool {
    forall|i: int, j: int| 0 <= i < j < s.len() ==> (#[trigger] s[i]).id != (#[trigger] s[j]).id
}

/// Some distribution carries the id.
pub open spec fn has_dist(s: Seq<RevenueDistributionView>, id: Seq<u8>) -> bool {
    exists|i: int| 0 <= i < s.len() && (#[trigger] s[i]).id == id
}

pub open spec fn dist_index(s: Seq<RevenueDistributionView>, id: Seq<u8>) -> int {
    choose|i: int| 0 <= i < s.len() && (#[trigger] s[i]).id == id
}

/// The distribution with the id.
pub open spec fn dist_at(s: Seq<RevenueDistributionView>, id: Seq<u8>) -> RevenueDistributionView {
    s[dist_index(s, id)]
}

/// With unique ids, a position holding the id is the one `dist_index`
/// names.
pub proof fn lemma_dist_at(s: Seq<RevenueDistributionView>, id: Seq<u8>, i: int)
    requires
        unique_dist_ids(s),
        0 <= i < s.len(),
        s[i].id == id,
    ensures
        has_dist(s, id),
        dist_index(s, id) == i,
        dist_at(s, id) == s[i],
{
    assert(has_dist(s, id));
    let j = dist_index(s, id);
    assert(0 <= j < s.len() && s[j].id == id);
    if i != j {
        assert(s[i].id != s[j].id);
    }
}

/// The ledger after `set`: the distribution under that id replaced,
/// or appended when none was there.
pub open spec fn store_dist(
    s: Seq<RevenueDistributionView>,
    d: RevenueDistributionView,
) -> Seq<RevenueDistributionView> {
    if has_dist(s, d.id) {
        s.update(dist_index(s, d.id), d)
    } else {
        s.push(d)
    }
}

/// Properties of one `set` on the distribution ledger.
pub proof fn lemma_store_dist_props(s: Seq<RevenueDistributionView>, d: RevenueDistributionView)
    requires
        unique_dist_ids(s),
    ensures
        unique_dist_ids(store_dist(s, d)),
        has_dist(store_dist(s, d), d.id),
        dist_at(store_dist(s, d), d.id) == d,
        forall|i: int|
            0 <= i < store_dist(s, d).len() ==> (#[trigger] store_dist(s, d)[i] == d || (0 <= i
                < s.len() && store_dist(s, d)[i] == s[i] && s[i].id != d.id)),
{
    let t = store_dist(s, d);
    if has_dist(s, d.id) {
        let k = dist_index(s, d.id);
        assert(0 <= k < s.len() && s[k].id == d.id);
        assert forall|i: int|
            0 <= i < t.len() implies (#[trigger] t[i] == d || (0 <= i < s.len() && t[i] == s[i]
            && s[i].id != d.id)) by {
            if i != k {
                assert(s[i].id != s[k].id);
            }
        }
        assert forall|i: int, j: int| 0 <= i < j < t.len() implies (#[trigger] t[i]).id
            != (#[trigger] t[j]).id by {
            assert(s[i].id != s[j].id);
            if i == k {
                assert(t[i].id == s[i].id);
            }
            if j == k {
                assert(t[j].id == s[j].id);
            }
        }
        lemma_dist_at(t, d.id, k);
    } else {
        assert(t[s.len() as int] == d);
        assert forall|i: int, j: int| 0 <= i < j < t.len() implies (#[trigger] t[i]).id
            != (#[trigger] t[j]).id by {
            if j == s.len() {
                assert(t[i] == s[i]);
                assert(!(0 <= i < s.len() && s[i].id == d.id));
            } else {
                assert(s[i].id != s[j].id);
            }
        }
        lemma_dist_at(t, d.id, s.len() as int);
    }
}

#[verifier::ext_equal]
pub struct RevenueDistributorView {
    pub admin: Seq<u8>,
    pub oracle: Seq<u8>,
    pub loan_pool: Seq<u8>,
    pub distributions: Seq<RevenueDistributionView>,
    pub ride_revenues: Seq<RideRevenueView>,
    pub equity_bonus_rate: int,
    pub impact_bonus_rate: int,
}

impl RevenueDistributorView {
    /// Well-formed distributor state: one observation per asset, all
    /// observation fields non-negative; unique distribution ids with
    /// non-negative revenue totals; rates inside their documented
    /// ranges.
    pub open spec fn wf(self) -> bool {
        &&& unique_revenue_assets(self.ride_revenues)
        &&& unique_dist_ids(self.distributions)
        &&& forall|i: int|
            0 <= i < self.ride_revenues.len() ==> {
                let r = #[trigger] self.ride_revenues[i];
                &&& 0 <= r.revenue_amount
                &&& 0 <= r.ride_count
                &&& 0 <= r.co2_saved
                &&& 0 <= r.underserved_rides
            }
        &&& forall|i: int|
            0 <= i < self.distributions.len() ==> 0 <= (#[trigger] self.distributions[i]).total_revenue
        &&& 0 <= self.equity_bonus_rate <= 50
        &&& 0 <= self.impact_bonus_rate <= 25
    }
}

/// The revenue distributor contract state: the root record of the
/// contract.
pub struct RevenueDistributor {
    pub admin: Vec<u8>,
    pub oracle: Vec<u8>,
    pub loan_pool: Vec<u8>,
    pub distributions: Vec<RevenueDistribution>,
    pub ride_revenues: Vec<RideRevenue>,
    pub equity_bonus_rate: i32,
    pub impact_bonus_rate: i32,
}

impl View for RevenueDistributor {
    type V = RevenueDistributorView;

    open spec fn view(&self) -> RevenueDistributorView {
        RevenueDistributorView {
            admin: self.admin@,
            oracle: self.oracle@,
            loan_pool: self.loan_pool@,
            distributions: self.distributions.deep_view(),
            ride_revenues: self.ride_revenues.deep_view(),
            equity_bonus_rate: self.equity_bonus_rate as int,
            impact_bonus_rate: self.impact_bonus_rate as int,
        }
    }
}

/// Position of the observation naming `asset_id`.
fn find_revenue_index(revs: &Vec<RideRevenue>, asset_id: &Vec<u8>) -> (r: Option<usize>)
    ensures
        match r {
            Some(k) => 0 <= k < revs.deep_view().len() && revs.deep_view()[k as int].asset_id
                == asset_id@,
            None => !has_revenue(revs.deep_view(), asset_id@),
        },
{
    let mut i: usize = 0;
    while i < revs.len()
        invariant
            0 <= i <= revs.len(),
            forall|k: int| 0 <= k < i ==> (#[trigger] revs.deep_view()[k]).asset_id != asset_id@,
        decreases revs.len() - i,
    {
        if bytes_eq(&revs[i].asset_id, asset_id) {
            return Some(i);
        }
        i = i + 1;
    }
    None
}

/// Position of the distribution carrying `id`.
fn find_dist_index(dists: &Vec<RevenueDistribution>, id: &Vec<u8>) -> (r: Option<usize>)
    ensures
        match r {
            Some(k) => 0 <= k < dists.deep_view().len() && dists.deep_view()[k as int].id == id@,
            None => !has_dist(dists.deep_view(), id@),
        },
{
    let mut i: usize = 0;
    while i < dists.len()
        invariant
            0 <= i <= dists.len(),
            forall|k: int| 0 <= k < i ==> (#[trigger] dists.deep_view()[k]).id != id@,
        decreases dists.len() - i,
    {
        if bytes_eq(&dists[i].id, id) {
            return Some(i);
        }
        i = i + 1;
    }
    None
}

/// `set` on the distribution ledger: replace the entry under the id,
/// or append.
fn set_distribution(dists: &mut Vec<RevenueDistribution>, d: RevenueDistribution)
    requires
        unique_dist_ids(old(dists).deep_view()),
    ensures
        final(dists).deep_view() == store_dist(old(dists).deep_view(), d@),
{
    let ghost s0 = dists.deep_view();
    let ghost dv = d@;
    match find_dist_index(dists, &d.id) {
        Some(k) => {
            proof {
                lemma_dist_at(s0, dv.id, k as int);
            }
            dists[k] = d;
            proof {
                assert(dists.deep_view() =~~= s0.update(k as int, dv));
            }
        },
        None => {
            dists.push(d);
            proof {
                assert(dists.deep_view() =~~= s0.push(dv));
            }
        },
    }
}

/// The preimage and digest behind a distribution id.
fn generate_distribution_id(asset_id: &Vec<u8>, now: u64) -> (r: Vec<u8>)
    ensures
        r@ == spec_distribution_id(asset_id@, now as nat),
{
    let mut pre: Vec<u8> = vec![100u8, 105u8, 115u8, 116u8, 95u8];
    push_bytes(&mut pre, asset_id);
    pre.push(95u8);
    let digits = u64_to_dec(now);
    push_bytes(&mut pre, &digits);
    proof {
        assert(pre@ =~= spec_dist_preimage(asset_id@, now as nat));
    }
    let hash = sha256(&pre);
    first_eight(&hash)
}

impl RevenueDistributor {
    /// Create the distributor with its principals and the equity
    /// bonus rate; the impact bonus rate starts at 10 percent.
    pub fn initialize(
        admin: Vec<u8>,
        oracle: Vec<u8>,
        loan_pool: Vec<u8>,
        equity_bonus_rate: i32,
    ) -> (d: RevenueDistributor)
        requires
            0 <= equity_bonus_rate <= 50,
        ensures
            d@.wf(),
            d@.admin == admin@,
            d@.oracle == oracle@,
            d@.loan_pool == loan_pool@,
            d@.distributions == Seq::<RevenueDistributionView>::empty(),
            d@.ride_revenues == Seq::<RideRevenueView>::empty(),
            d@.equity_bonus_rate == equity_bonus_rate as int,
            d@.impact_bonus_rate == 10,
    {
        let d = RevenueDistributor {
            admin,
            oracle,
            loan_pool,
            distributions: Vec::new(),
            ride_revenues: Vec::new(),
            equity_bonus_rate,
            impact_bonus_rate: 10,
        };
        proof {
            assert(d@.distributions =~= Seq::<RevenueDistributionView>::empty());
            assert(d@.ride_revenues =~= Seq::<RideRevenueView>::empty());
        }
        d
    }

    /// Oracle only: record the latest revenue observation for an
    /// asset, overwriting the previous one.
    pub fn record_revenue(
        &mut self,
        caller: &Vec<u8>,
        asset_id: &Vec<u8>,
        revenue_amount: i128,
        ride_count: i32,
        co2_saved: i32,
        underserved_rides: i32,
        now: u64,
    ) -> (r: Result<(), Error>)
        requires
            old(self)@.wf(),
            0 <= revenue_amount,
            0 <= ride_count,
            0 <= co2_saved,
            0 <= underserved_rides,
        ensures
            final(self)@.wf(),
            final(self)@.admin == old(self)@.admin,
            final(self)@.oracle == old(self)@.oracle,
            final(self)@.loan_pool == old(self)@.loan_pool,
            final(self)@.distributions == old(self)@.distributions,
            final(self)@.equity_bonus_rate == old(self)@.equity_bonus_rate,
            final(self)@.impact_bonus_rate == old(self)@.impact_bonus_rate,
            r is Ok <==> caller@ == old(self)@.oracle,
            match r {
                Ok(()) => final(self)@.ride_revenues == store_revenue(
                    old(self)@.ride_revenues,
                    RideRevenueView {
                        asset_id: asset_id@,
                        revenue_amount: revenue_amount as int,
                        ride_count: ride_count as int,
                        co2_saved: co2_saved as int,
                        underserved_rides: underserved_rides as int,
                        timestamp: now as int,
                    },
                ),
                Err(e) => final(self)@ == old(self)@ && e == Error::UNAUTHORIZED && caller@
                    != old(self)@.oracle,
            },
    {
        if !bytes_eq(caller, &self.oracle) {
            return Err(Error::UNAUTHORIZED);
        }
        let ghost s0 = self@;
        let revenue = RideRevenue {
            asset_id: asset_id.clone(),
            revenue_amount,
            ride_count,
            co2_saved,
            underserved_rides,
            timestamp: now,
        };
        let ghost rv = revenue@;
        let ghost k0 = if has_revenue(s0.ride_revenues, asset_id@) {
            revenue_index(s0.ride_revenues, asset_id@)
        } else {
            s0.ride_revenues.len() as int
        };
        match find_revenue_index(&self.ride_revenues, asset_id) {
            Some(k) => {
                proof {
                    lemma_revenue_at(s0.ride_revenues, asset_id@, k as int);
                }
                self.ride_revenues[k] = revenue;
                proof {
                    assert(self@.ride_revenues =~~= s0.ride_revenues.update(k as int, rv));
                }
            },
            None => {
                self.ride_revenues.push(revenue);
                proof {
                    assert(self@.ride_revenues =~~= s0.ride_revenues.push(rv));
                }
            },
        }
        proof {
            lemma_store_revenue_props(s0.ride_revenues, rv);
        }
        Ok(())
    }

    /// Admin only: distribute the asset's latest revenue over the
    /// given investors. The bonus pool is the rate share of the
    /// revenue; each investor receives the investment-proportional
    /// share of the rest plus an equity bonus, and the advisory
    /// impact multiplier is recorded. Returns the new distribution's
    /// id.
    pub fn distribute_revenue(
        &mut self,
        caller: &Vec<u8>,
        asset_id: &Vec<u8>,
        investors: &Vec<Vec<u8>>,
        investment_amounts: &Vec<i128>,
        equity_scores: &Vec<i32>,
        now: u64,
    ) -> (r: Result<Vec<u8>, Error>)
        requires
            old(self)@.wf(),
            (caller@ == old(self)@.admin && has_revenue(old(self)@.ride_revenues, asset_id@)
                && investors@.len() == investment_amounts@.len() && investors@.len()
                == equity_scores@.len()) ==> distribute_fits(
                revenue_at(old(self)@.ride_revenues, asset_id@),
                old(self)@.equity_bonus_rate,
                investment_amounts@,
                equity_scores@,
            ),
        ensures
            final(self)@.wf(),
            final(self)@.admin == old(self)@.admin,
            final(self)@.oracle == old(self)@.oracle,
            final(self)@.loan_pool == old(self)@.loan_pool,
            final(self)@.ride_revenues == old(self)@.ride_revenues,
            final(self)@.equity_bonus_rate == old(self)@.equity_bonus_rate,
            final(self)@.impact_bonus_rate == old(self)@.impact_bonus_rate,
            r is Ok <==> (caller@ == old(self)@.admin && has_revenue(
                old(self)@.ride_revenues,
                asset_id@,
            ) && investors@.len() == investment_amounts@.len() && investors@.len()
                == equity_scores@.len()),
            match r {
                Ok(id) => ({
                    let s = old(self)@;
                    let rev = revenue_at(s.ride_revenues, asset_id@);
                    let pool = spec_pool(rev.revenue_amount, s.equity_bonus_rate);
                    let dist_amount = rev.revenue_amount - pool;
                    let total = sum_i128(investment_amounts@);
                    &&& id@ == spec_distribution_id(asset_id@, now as nat)
                    &&& final(self)@.distributions == store_dist(
                        s.distributions,
                        RevenueDistributionView {
                            id: spec_distribution_id(asset_id@, now as nat),
                            asset_id: asset_id@,
                            total_revenue: rev.revenue_amount,
                            distribution_amount: dist_amount,
                            equity_bonus_pool: pool,
                            timestamp: now as int,
                            distributions: spec_distribution_entries(
                                investors.deep_view(),
                                investment_amounts@,
                                equity_scores@,
                                rev,
                                pool,
                                dist_amount,
                                total,
                                s.impact_bonus_rate,
                            ),
                        },
                    )
                }),
                Err(e) => {
                    &&& final(self)@ == old(self)@
                    &&& (e == Error::UNAUTHORIZED <==> caller@ != old(self)@.admin)
                    &&& (e == Error::REVENUE_NOT_FOUND <==> caller@ == old(self)@.admin
                        && !has_revenue(old(self)@.ride_revenues, asset_id@))
                    &&& (e == Error::INVALID_INPUT <==> caller@ == old(self)@.admin && has_revenue(
                        old(self)@.ride_revenues,
                        asset_id@,
                    ) && !(investors@.len() == investment_amounts@.len() && investors@.len()
                        == equity_scores@.len()))
                },
            },
    {
        if !bytes_eq(caller, &self.admin) {
            return Err(Error::UNAUTHORIZED);
        }
        let rk = match find_revenue_index(&self.ride_revenues, asset_id) {
            None => {
                return Err(Error::REVENUE_NOT_FOUND);
            },
            Some(k) => k,
        };
        proof {
            lemma_revenue_at(self@.ride_revenues, asset_id@, rk as int);
        }
        if investors.len() != investment_amounts.len() || investors.len() != equity_scores.len() {
            return Err(Error::INVALID_INPUT);
        }
        let ghost s0 = self@;
        let ghost rev = revenue_at(s0.ride_revenues, asset_id@);
        let revenue_amount = self.ride_revenues[rk].revenue_amount;
        let ride_count = self.ride_revenues[rk].ride_count;
        let co2_saved = self.ride_revenues[rk].co2_saved;
        let underserved_rides = self.ride_revenues[rk].underserved_rides;
        proof {
            assert(revenue_amount as int == rev.revenue_amount);
            assert(distribute_fits(rev, s0.equity_bonus_rate, investment_amounts@, equity_scores@));
        }
        let mut total_investment: i128 = 0;
        let mut i: usize = 0;
        while i < investment_amounts.len()
            invariant
                0 <= i <= investment_amounts.len(),
                forall|j: int|
                    0 <= j < investment_amounts@.len() ==> 0 <= #[trigger] investment_amounts@[j],
                sum_i128(investment_amounts@) <= i128::MAX,
                total_investment as int == sum_i128(investment_amounts@.subrange(0, i as int)),
            decreases investment_amounts.len() - i,
        {
            proof {
                let a = investment_amounts@.subrange(0, i as int);
                let b = investment_amounts@.subrange(0, i + 1);
                assert(b.drop_last() =~= a);
                assert(b.last() == investment_amounts@[i as int]);
                lemma_sum_i128_prefix(investment_amounts@, i + 1);
                lemma_sum_i128_nonneg(a);
            }
            total_investment = total_investment + investment_amounts[i];
            i = i + 1;
        }
        proof {
            assert(investment_amounts@.subrange(0, investment_amounts@.len() as int)
                =~= investment_amounts@);
        }
        let rate = self.equity_bonus_rate;
        proof {
            lemma_mul_nonnegative(revenue_amount as int, rate as int);
        }
        let pool = div_i128(revenue_amount * (rate as i128), 100);
        proof {
            lemma_frac_le(revenue_amount as int, rate as int, 100);
        }
        let distribution_amount = revenue_amount - pool;
        let usr: i32 = if ride_count > 0 {
            div_i32(underserved_rides * 100, ride_count)
        } else {
            0
        };
        proof {
            assert(usr as int == spec_usr_ratio(rev.underserved_rides, rev.ride_count));
            if ride_count > 0 {
                lemma_div_pos_is_pos(rev.underserved_rides * 100, rev.ride_count);
            }
        }
        let mut impact_multiplier: i32 = 100;
        if co2_saved > 1000 {
            impact_multiplier = impact_multiplier + 10;
        }
        if ride_count > 0 && usr > 50 {
            impact_multiplier = impact_multiplier + self.impact_bonus_rate;
        }
        proof {
            assert(impact_multiplier as int == spec_impact_multiplier(
                rev.co2_saved,
                rev.underserved_rides,
                rev.ride_count,
                s0.impact_bonus_rate,
            ));
        }
        let ghost entries_spec = spec_distribution_entries(
            investors.deep_view(),
            investment_amounts@,
            equity_scores@,
            rev,
            pool as int,
            distribution_amount as int,
            total_investment as int,
            s0.impact_bonus_rate,
        );
        let mut entries: Vec<InvestorDistribution> = Vec::new();
        let mut i: usize = 0;
        while i < investors.len()
            invariant
                0 <= i <= investors.len(),
                investors@.len() == investment_amounts@.len(),
                investors@.len() == equity_scores@.len(),
                entries.len() == i,
                forall|k: int| 0 <= k < i ==> #[trigger] entries.deep_view()[k] == entries_spec[k],
                entries_spec == spec_distribution_entries(
                    investors.deep_view(),
                    investment_amounts@,
                    equity_scores@,
                    rev,
                    pool as int,
                    distribution_amount as int,
                    total_investment as int,
                    s0.impact_bonus_rate,
                ),
                distribute_fits(rev, s0.equity_bonus_rate, investment_amounts@, equity_scores@),
                pool as int == spec_pool(rev.revenue_amount, s0.equity_bonus_rate),
                0 <= pool <= rev.revenue_amount,
                distribution_amount as int == rev.revenue_amount - pool,
                total_investment as int == sum_i128(investment_amounts@),
                usr as int == spec_usr_ratio(rev.underserved_rides, rev.ride_count),
                0 <= usr,
                impact_multiplier as int == spec_impact_multiplier(
                    rev.co2_saved,
                    rev.underserved_rides,
                    rev.ride_count,
                    s0.impact_bonus_rate,
                ),
            decreases investors.len() - i,
        {
            let amount = investment_amounts[i];
            let score = equity_scores[i];
            let base_amount: i128 = if total_investment > 0 {
                proof {
                    lemma_sum_i128_element(investment_amounts@, i as int);
                    lemma_frac_le(
                        distribution_amount as int,
                        amount as int,
                        total_investment as int,
                    );
                }
                div_i128(distribution_amount * amount, total_investment)
            } else {
                0
            };
            proof {
                lemma_mul_upper(pool as int, score as int, 100);
            }
            let base_bonus = div_i128(pool * (score as i128), 100);
            proof {
                lemma_frac_le(pool as int, score as int, 100);
                lemma_mul_inequality(base_bonus as int, pool as int, usr as int);
                lemma_mul_nonnegative(base_bonus as int, usr as int);
                lemma_div_is_ordered((base_bonus as int) * (usr as int), (pool as int) * (
                usr as int), 100);
                lemma_div_pos_is_pos((base_bonus as int) * (usr as int), 100);
            }
            let underserved_bonus = div_i128(base_bonus * (usr as i128), 100);
            let equity_bonus = base_bonus + underserved_bonus;
            let total_amount = base_amount + equity_bonus;
            let inv_clone = investors[i].clone();
            proof {
                assert(inv_clone@ =~= investors@[i as int]@);
            }
            let entry = InvestorDistribution {
                investor: inv_clone,
                base_amount,
                equity_bonus,
                total_amount,
                equity_score: score,
                impact_multiplier,
            };
            proof {
                assert(entry@ =~~= entries_spec[i as int]);
            }
            let ghost e0 = entries@;
            let ghost ed0 = entries.deep_view();
            entries.push(entry);
            proof {
                assert forall|k: int| 0 <= k < i implies #[trigger] entries.deep_view()[k]
                    == entries_spec[k] by {
                    assert(entries@[k] == e0[k]);
                    assert(ed0[k] == e0[k].deep_view());
                }
                assert(entries.deep_view()[i as int] == entries_spec[i as int]);
            }
            i = i + 1;
        }
        let distribution_id = generate_distribution_id(asset_id, now);
        let distribution = RevenueDistribution {
            id: distribution_id.clone(),
            asset_id: asset_id.clone(),
            total_revenue: revenue_amount,
            distribution_amount,
            equity_bonus_pool: pool,
            timestamp: now,
            distributions: entries,
        };
        let ghost dv = distribution@;
        proof {
            assert(dv.distributions =~~= entries_spec);
            assert(dv =~~= RevenueDistributionView {
                id: spec_distribution_id(asset_id@, now as nat),
                asset_id: asset_id@,
                total_revenue: rev.revenue_amount,
                distribution_amount: rev.revenue_amount - spec_pool(
                    rev.revenue_amount,
                    s0.equity_bonus_rate,
                ),
                equity_bonus_pool: spec_pool(rev.revenue_amount, s0.equity_bonus_rate),
                timestamp: now as int,
                distributions: entries_spec,
            });
        }
        set_distribution(&mut self.distributions, distribution);
        proof {
            lemma_store_dist_props(s0.distributions, dv);
        }
        Ok(distribution_id)
    }

    /// The latest revenue observation for an asset, or
    /// `REVENUE_NOT_FOUND`.
    pub fn get_revenue(&self, asset_id: &Vec<u8>) -> (r: Result<RideRevenue, Error>)
        requires
            self@.wf(),
        ensures
            match r {
                Ok(rev) => has_revenue(self@.ride_revenues, asset_id@) && rev@ == revenue_at(
                    self@.ride_revenues,
                    asset_id@,
                ),
                Err(e) => e == Error::REVENUE_NOT_FOUND && !has_revenue(
                    self@.ride_revenues,
                    asset_id@,
                ),
            },
    {
        match find_revenue_index(&self.ride_revenues, asset_id) {
            None => Err(Error::REVENUE_NOT_FOUND),
            Some(k) => {
                proof {
                    lemma_revenue_at(self@.ride_revenues, asset_id@, k as int);
                }
                Ok(self.ride_revenues[k].clone())
            },
        }
    }

    /// The distribution under the id, or `DISTRIBUTION_NOT_FOUND`.
    pub fn get_distribution(&self, distribution_id: &Vec<u8>) -> (r: Result<
        RevenueDistribution,
        Error,
    >)
        requires
            self@.wf(),
        ensures
            match r {
                Ok(d) => has_dist(self@.distributions, distribution_id@) && d@ == dist_at(
                    self@.distributions,
                    distribution_id@,
                ),
                Err(e) => e == Error::DISTRIBUTION_NOT_FOUND && !has_dist(
                    self@.distributions,
                    distribution_id@,
                ),
            },
    {
        match find_dist_index(&self.distributions, distribution_id) {
            None => Err(Error::DISTRIBUTION_NOT_FOUND),
            Some(k) => {
                proof {
                    lemma_dist_at(self@.distributions, distribution_id@, k as int);
                }
                Ok(self.distributions[k].clone())
            },
        }
    }

    /// Every distribution recorded for one asset, in ledger order.
    pub fn get_asset_distributions(&self, asset_id: &Vec<u8>) -> (r: Vec<RevenueDistribution>)
        ensures
            r.deep_view() == distributions_for(self@.distributions, asset_id@),
    {
        let mut r: Vec<RevenueDistribution> = Vec::new();
        let mut i: usize = 0;
        while i < self.distributions.len()
            invariant
                0 <= i <= self.distributions.len(),
                r.deep_view() == distributions_for(
                    self@.distributions.subrange(0, i as int),
                    asset_id@,
                ),
            decreases self.distributions.len() - i,
        {
            let ghost rd0 = r.deep_view();
            let ghost pre = self@.distributions.subrange(0, i as int);
            let ghost cur = self@.distributions.subrange(0, i + 1);
            if bytes_eq(&self.distributions[i].asset_id, asset_id) {
                let ghost r0 = r@;
                r.push(self.distributions[i].clone());
                proof {
                    assert forall|k: int| 0 <= k < r0.len() implies r.deep_view()[k] == rd0[k] by {
                        assert(r@[k] == r0[k]);
                        assert(rd0[k] == r0[k].deep_view());
                    }
                }
            }
            proof {
                assert(cur.drop_last() =~= pre);
                assert(cur.last() == self@.distributions[i as int]);
                assert(r.deep_view() =~~= distributions_for(cur, asset_id@));
            }
            i = i + 1;
        }
        proof {
            assert(self@.distributions.subrange(0, self@.distributions.len() as int)
                =~= self@.distributions);
        }
        r
    }

    /// Totals of CO2 saved, rides and underserved rides over all
    /// observations.
    pub fn get_impact_metrics(&self) -> (r: (i32, i32, i32))
        requires
            self@.wf(),
            sum_co2(self@.ride_revenues) <= i32::MAX,
            sum_rides(self@.ride_revenues) <= i32::MAX,
            sum_underserved(self@.ride_revenues) <= i32::MAX,
        ensures
            r.0 as int == sum_co2(self@.ride_revenues),
            r.1 as int == sum_rides(self@.ride_revenues),
            r.2 as int == sum_underserved(self@.ride_revenues),
    {
        let mut co2: i32 = 0;
        let mut rides: i32 = 0;
        let mut underserved: i32 = 0;
        let mut i: usize = 0;
        while i < self.ride_revenues.len()
            invariant
                0 <= i <= self.ride_revenues.len(),
                self@.wf(),
                self@.ride_revenues.len() == self.ride_revenues.len(),
                sum_co2(self@.ride_revenues) <= i32::MAX,
                sum_rides(self@.ride_revenues) <= i32::MAX,
                sum_underserved(self@.ride_revenues) <= i32::MAX,
                co2 as int == sum_co2(self@.ride_revenues.subrange(0, i as int)),
                rides as int == sum_rides(self@.ride_revenues.subrange(0, i as int)),
                underserved as int == sum_underserved(self@.ride_revenues.subrange(0, i as int)),
            decreases self.ride_revenues.len() - i,
        {
            let ghost pre = self@.ride_revenues.subrange(0, i as int);
            let ghost cur = self@.ride_revenues.subrange(0, i + 1);
            proof {
                assert(cur.drop_last() =~= pre);
                assert(cur.last() == self@.ride_revenues[i as int]);
                lemma_revenue_sums_prefix(self@.ride_revenues, i + 1);
                lemma_revenue_sums_nonneg(pre);
            }
            co2 = co2 + self.ride_revenues[i].co2_saved;
            rides = rides + self.ride_revenues[i].ride_count;
            underserved = underserved + self.ride_revenues[i].underserved_rides;
            i = i + 1;
        }
        proof {
            assert(self@.ride_revenues.subrange(0, self@.ride_revenues.len() as int)
                =~= self@.ride_revenues);
        }
        (co2, rides, underserved)
    }

    /// Admin only: set the equity bonus rate, 0..50 percent.
    pub fn update_equity_bonus_rate(&mut self, caller: &Vec<u8>, new_rate: i32) -> (r: Result<
        (),
        Error,
    >)
        requires
            old(self)@.wf(),
        ensures
            final(self)@.wf(),
            r is Ok <==> (caller@ == old(self)@.admin && 0 <= new_rate <= 50),
            match r {
                Ok(()) => final(self)@ == RevenueDistributorView {
                    equity_bonus_rate: new_rate as int,
                    ..old(self)@
                },
                Err(e) => {
                    &&& final(self)@ == old(self)@
                    &&& (e == Error::UNAUTHORIZED <==> caller@ != old(self)@.admin)
                    &&& (e == Error::INVALID_RATE <==> caller@ == old(self)@.admin && !(0
                        <= new_rate <= 50))
                },
            },
    {
        if !bytes_eq(caller, &self.admin) {
            return Err(Error::UNAUTHORIZED);
        }
        if new_rate < 0 || new_rate > 50 {
            return Err(Error::INVALID_RATE);
        }
        self.equity_bonus_rate = new_rate;
        proof {
            assert(self@ =~~= RevenueDistributorView {
                equity_bonus_rate: new_rate as int,
                ..self@
            });
        }
        Ok(())
    }

    /// Admin only: set the impact bonus rate, 0..25 percent.
    pub fn update_impact_bonus_rate(&mut self, caller: &Vec<u8>, new_rate: i32) -> (r: Result<
        (),
        Error,
    >)
        requires
            old(self)@.wf(),
        ensures
            final(self)@.wf(),
            r is Ok <==> (caller@ == old(self)@.admin && 0 <= new_rate <= 25),
            match r {
                Ok(()) => final(self)@ == RevenueDistributorView {
                    impact_bonus_rate: new_rate as int,
                    ..old(self)@
                },
                Err(e) => {
                    &&& final(self)@ == old(self)@
                    &&& (e == Error::UNAUTHORIZED <==> caller@ != old(self)@.admin)
                    &&& (e == Error::INVALID_RATE <==> caller@ == old(self)@.admin && !(0
                        <= new_rate <= 25))
                },
            },
    {
        if !bytes_eq(caller, &self.admin) {
            return Err(Error::UNAUTHORIZED);
        }
        if new_rate < 0 || new_rate > 25 {
            return Err(Error::INVALID_RATE);
        }
        self.impact_bonus_rate = new_rate;
        Ok(())
    }

    /// Counts of distributions and observed assets, and the total
    /// revenue over all distributions.
    pub fn get_stats(&self) -> (r: (i32, i128, i32))
        requires
            self@.wf(),
            self@.distributions.len() <= i32::MAX,
            self@.ride_revenues.len() <= i32::MAX,
            sum_total_revenue(self@.distributions) <= i128::MAX,
        ensures
            r.0 as int == self@.distributions.len(),
            r.1 as int == sum_total_revenue(self@.distributions),
            r.2 as int == self@.ride_revenues.len(),
    {
        let mut total_revenue: i128 = 0;
        let mut i: usize = 0;
        while i < self.distributions.len()
            invariant
                0 <= i <= self.distributions.len(),
                self@.wf(),
                self@.distributions.len() == self.distributions.len(),
                sum_total_revenue(self@.distributions) <= i128::MAX,
                total_revenue as int == sum_total_revenue(
                    self@.distributions.subrange(0, i as int),
                ),
            decreases self.distributions.len() - i,
        {
            let ghost pre = self@.distributions.subrange(0, i as int);
            let ghost cur = self@.distributions.subrange(0, i + 1);
            proof {
                assert(cur.drop_last() =~= pre);
                assert(cur.last() == self@.distributions[i as int]);
                lemma_total_revenue_prefix(self@.distributions, i + 1);
                lemma_total_revenue_nonneg(pre);
            }
            total_revenue = total_revenue + self.distributions[i].total_revenue;
            i = i + 1;
        }
        proof {
            assert(self@.distributions.subrange(0, self@.distributions.len() as int)
                =~= self@.distributions);
        }
        (self.distributions.len() as i32, total_revenue, self.ride_revenues.len() as i32)
    }
}

/// The distributions that name the given asset, in ledger order.
pub open spec fn distributions_for(
    s: Seq<RevenueDistributionView>,
    asset_id: Seq<u8>,
) -> Seq<RevenueDistributionView>
    decreases s.len(),
{
    if s.len() == 0 {
        Seq::<RevenueDistributionView>::empty()
    } else {
        distributions_for(s.drop_last(), asset_id) + if s.last().asset_id == asset_id {
            seq![s.last()]
        } else {
            Seq::<RevenueDistributionView>::empty()
        }
    }
}

/// Total CO2 saved over all observations.
pub open spec fn sum_co2(s: Seq<RideRevenueView>) -> int
    decreases s.len(),
{
    if s.len() == 0 {
        0
    } else {
        sum_co2(s.drop_last()) + s.last().co2_saved
    }
}

/// Total rides over all observations.
pub open spec fn sum_rides(s: Seq<RideRevenueView>) -> int
    decreases s.len(),
{
    if s.len() == 0 {
        0
    } else {
        sum_rides(s.drop_last()) + s.last().ride_count
    }
}

/// Total underserved rides over all observations.
pub open spec fn sum_underserved(s: Seq<RideRevenueView>) -> int
    decreases s.len(),
{
    if s.len() == 0 {
        0
    } else {
        sum_underserved(s.drop_last()) + s.last().underserved_rides
    }
}

/// Total revenue over all distributions.
pub open spec fn sum_total_revenue(s: Seq<RevenueDistributionView>) -> int
    decreases s.len(),
{
    if s.len() == 0 {
        0
    } else {
        sum_total_revenue(s.drop_last()) + s.last().total_revenue
    }
}

/// The three observation sums are non-negative for non-negative
/// observations.
proof fn lemma_revenue_sums_nonneg(s: Seq<RideRevenueView>)
    requires
        forall|i: int|
            0 <= i < s.len() ==> {
                let r = #[trigger] s[i];
                &&& 0 <= r.ride_count
                &&& 0 <= r.co2_saved
                &&& 0 <= r.underserved_rides
            },
    ensures
        0 <= sum_co2(s),
        0 <= sum_rides(s),
        0 <= sum_underserved(s),
    decreases s.len(),
{
    if s.len() > 0 {
        lemma_revenue_sums_nonneg(s.drop_last());
    }
}

/// Prefix sums of the observations never exceed the whole sums.
proof fn lemma_revenue_sums_prefix(s: Seq<RideRevenueView>, i: int)
    requires
        forall|j: int|
            0 <= j < s.len() ==> {
                let r = #[trigger] s[j];
                &&& 0 <= r.ride_count
                &&& 0 <= r.co2_saved
                &&& 0 <= r.underserved_rides
            },
        0 <= i <= s.len(),
    ensures
        sum_co2(s.subrange(0, i)) <= sum_co2(s),
        sum_rides(s.subrange(0, i)) <= sum_rides(s),
        sum_underserved(s.subrange(0, i)) <= sum_underserved(s),
    decreases s.len() - i,
{
    if i == s.len() {
        assert(s.subrange(0, i) =~= s);
    } else {
        lemma_revenue_sums_prefix(s, i + 1);
        let a = s.subrange(0, i);
        let b = s.subrange(0, i + 1);
        assert(b.drop_last() =~= a);
        assert(b.last() == s[i]);
    }
}

proof fn lemma_total_revenue_nonneg(s: Seq<RevenueDistributionView>)
    requires
        forall|i: int| 0 <= i < s.len() ==> 0 <= (#[trigger] s[i]).total_revenue,
    ensures
        0 <= sum_total_revenue(s),
    decreases s.len(),
{
    if s.len() > 0 {
        lemma_total_revenue_nonneg(s.drop_last());
    }
}

proof fn lemma_total_revenue_prefix(s: Seq<RevenueDistributionView>, i: int)
    requires
        forall|j: int| 0 <= j < s.len() ==> 0 <= (#[trigger] s[j]).total_revenue,
        0 <= i <= s.len(),
    ensures
        sum_total_revenue(s.subrange(0, i)) <= sum_total_revenue(s),
    decreases s.len() - i,
{
    if i == s.len() {
        assert(s.subrange(0, i) =~= s);
    } else {
        lemma_total_revenue_prefix(s, i + 1);
        let a = s.subrange(0, i);
        let b = s.subrange(0, i + 1);
        assert(b.drop_last() =~= a);
        assert(b.last() == s[i]);
    }
}

} // verus!
