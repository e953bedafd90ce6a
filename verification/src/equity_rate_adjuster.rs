//! The equity rate adjuster: loan applications scored against urban
//! factors of their location, with an adjusted interest rate derived
//! from the equity score.
//!
//! Each method is one ledger transaction over the contract's root
//! record, taking the calling principal and the ledger timestamp as
//! arguments.
use vstd::prelude::*;
use crate::arith::div_i32;
use crate::bytes::{bytes_eq, dec_digits, push_bytes, u64_to_dec};
use crate::digest::{first_eight, sha256, sha256_of};

verus! {

/// Lifecycle of a loan application. Only the first three states are
/// reachable here; `Active` and `Completed` belong to a later stage of
/// the loan's life.
#[derive(Clone, Copy, Debug, PartialEq, Eq, Structural)]
pub enum ApplicationStatus {
    Pending,
    Approved,
    Rejected,
    Active,
    Completed,
}

/// Error codes of the rate adjuster, as the ledger surfaces them.
#[allow(non_camel_case_types)]
#[derive(Clone, Copy, Debug, PartialEq, Eq, Structural)]
pub enum Error {
    INVALID_AMOUNT,
    APPLICATION_NOT_FOUND,
    INVALID_STATUS,
    UNAUTHORIZED,
    DATA_NOT_FOUND,
}

/// Urban factors of a location, each on the ordinal scale 1 to 10.
#[derive(Debug)]
pub struct UrbanData {
    pub location: Vec<u8>,
    pub income_level: i32,
    pub pollution_level: i32,
    pub public_transport_score: i32,
    pub population_density: i32,
    pub timestamp: u64,
}

/// A loan application with its equity score and adjusted rate.
#[derive(Debug)]
pub struct LoanApplication {
    pub id: Vec<u8>,
    pub borrower: Vec<u8>,
    pub asset_id: Vec<u8>,
    pub requested_amount: i128,
    pub base_rate: i32,
    pub adjusted_rate: i32,
    pub equity_score: i32,
    pub urban_data: UrbanData,
    pub status: ApplicationStatus,
    pub created_at: u64,
}

#[verifier::ext_equal]
pub struct UrbanDataView {
    pub location: Seq<u8>,
    pub income_level: int,
    pub pollution_level: int,
    pub public_transport_score: int,
    pub population_density: int,
    pub timestamp: int,
}

#[verifier::ext_equal]
pub struct LoanApplicationView {
    pub id: Seq<u8>,
    pub borrower: Seq<u8>,
    pub asset_id: Seq<u8>,
    pub requested_amount: int,
    pub base_rate: int,
    pub adjusted_rate: int,
    pub equity_score: int,
    pub urban_data: UrbanDataView,
    pub status: ApplicationStatus,
    pub created_at: int,
}

impl View for UrbanData {
    type V = UrbanDataView;

    open spec fn view(&self) -> UrbanDataView {
        UrbanDataView {
            location: self.location@,
            income_level: self.income_level as int,
            pollution_level: self.pollution_level as int,
            public_transport_score: self.public_transport_score as int,
            population_density: self.population_density as int,
            timestamp: self.timestamp as int,
        }
    }
}

impl DeepView for UrbanData {
    type V = UrbanDataView;

    open spec fn deep_view(&self) -> UrbanDataView {
        self.view()
    }
}

impl View for LoanApplication {
    type V = LoanApplicationView;

    open spec fn view(&self) -> LoanApplicationView {
        LoanApplicationView {
            id: self.id@,
            borrower: self.borrower@,
            asset_id: self.asset_id@,
            requested_amount: self.requested_amount as int,
            base_rate: self.base_rate as int,
            adjusted_rate: self.adjusted_rate as int,
            equity_score: self.equity_score as int,
            urban_data: self.urban_data@,
            status: self.status,
            created_at: self.created_at as int,
        }
    }
}

impl DeepView for LoanApplication {
    type V = LoanApplicationView;

    open spec fn deep_view(&self) -> LoanApplicationView {
        self.view()
    }
}

impl Clone for UrbanData {
    fn clone(&self) -> (r: Self)
        ensures
            r@ == self@,
    {
        UrbanData {
            location: self.location.clone(),
            income_level: self.income_level,
            pollution_level: self.pollution_level,
            public_transport_score: self.public_transport_score,
            population_density: self.population_density,
            timestamp: self.timestamp,
        }
    }
}

impl Clone for LoanApplication {
    fn clone(&self) -> (r: Self)
        ensures
            r@ == self@,
    {
        LoanApplication {
            id: self.id.clone(),
            borrower: self.borrower.clone(),
            asset_id: self.asset_id.clone(),
            requested_amount: self.requested_amount,
            base_rate: self.base_rate,
            adjusted_rate: self.adjusted_rate,
            equity_score: self.equity_score,
            urban_data: self.urban_data.clone(),
            status: self.status,
            created_at: self.created_at,
        }
    }
}

/// All four urban factors lie on the 1..10 scale.
pub open spec fn valid_urban(u: UrbanDataView) -> bool {
    &&& 1 <= u.income_level <= 10
    &&& 1 <= u.pollution_level <= 10
    &&& 1 <= u.public_transport_score <= 10
    &&& 1 <= u.population_density <= 10
}

/// Equity score of urban data: a weighted sum of need indicators,
/// divided by four and capped at 100.
pub open spec fn spec_equity_score(u: UrbanDataView) -> int {
    let raw = (11 - u.income_level) * 10 + u.pollution_level * 5 + (11
        - u.public_transport_score) * 8 + u.population_density * 3;
    let s = raw / 4;
    if s > 100 {
        100int
    } else {
        s
    }
}

/// The equity score of valid urban data lies in 0..100.
pub proof fn lemma_equity_score_range(u: UrbanDataView)
    requires
        valid_urban(u),
    ensures
        0 <= spec_equity_score(u) <= 100,
{
}

/// The adjusted interest rate: the base rate, lowered by the
/// equity-score share of `mra` (the maximum rate adjustment) and
/// raised by up to 12 points of factor-specific reductions of the
/// adjustment, floored at 1 percent.
pub open spec fn spec_adjusted_rate(base_rate: int, equity_score: int, u: UrbanDataView, mra: int) -> int {
    let equity_adjustment = (100 - equity_score) * mra / 100;
    let additional = (if u.income_level <= 3 {
        -5int
    } else {
        0int
    }) + (if u.pollution_level >= 8 {
        -3int
    } else {
        0int
    }) + (if u.public_transport_score <= 3 {
        -4int
    } else {
        0int
    });
    let adjusted = base_rate - (equity_adjustment + additional);
    if adjusted < 1 {
        1int
    } else {
        adjusted
    }
}

/// The adjusted rate of any application is at least 1 and at most the
/// base rate plus the 12 points of factor reductions; a fortiori it is
/// below `base_rate + 12 + mra`.
pub proof fn lemma_adjusted_rate_bounds(base_rate: int, equity_score: int, u: UrbanDataView, mra: int)
    requires
        0 <= base_rate,
        0 <= equity_score <= 100,
        0 <= mra,
    ensures
        1 <= spec_adjusted_rate(base_rate, equity_score, u, mra),
        spec_adjusted_rate(base_rate, equity_score, u, mra) <= base_rate + 12,
        spec_adjusted_rate(base_rate, equity_score, u, mra) <= base_rate + 12 + mra,
{
    assert((100 - equity_score) * mra >= 0) by (nonlinear_arith)
        requires
            0 <= equity_score <= 100,
            0 <= mra,
    ;
    assert((100 - equity_score) * mra / 100 >= 0);
}

/// Deterministic mock urban data for a location the oracle has not
/// covered: the first four digest bytes, each reduced mod 10 plus 1.
pub open spec fn spec_mock_urban(loc: Seq<u8>, now: int) -> UrbanDataView {
    UrbanDataView {
        location: loc,
        income_level: (sha256_of(loc)[0] as int) % 10 + 1,
        pollution_level: (sha256_of(loc)[1] as int) % 10 + 1,
        public_transport_score: (sha256_of(loc)[2] as int) % 10 + 1,
        population_density: (sha256_of(loc)[3] as int) % 10 + 1,
        timestamp: now,
    }
}

/// Cache locations are pairwise distinct.
pub open spec fn unique_locations(s: Seq<UrbanDataView>) -> bool {
    forall|i: int, j: int|
        0 <= i < j < s.len() ==> (#[trigger] s[i]).location != (#[trigger] s[j]).location
}

/// Some cache entry carries the location.
pub open spec fn has_urban(s: Seq<UrbanDataView>, loc: Seq<u8>) -> bool {
    exists|i: int| 0 <= i < s.len() && (#[trigger] s[i]).location == loc
}

pub open spec fn urban_index(s: Seq<UrbanDataView>, loc: Seq<u8>) -> int {
    choose|i: int| 0 <= i < s.len() && (#[trigger] s[i]).location == loc
}

/// The cache entry for the location.
pub open spec fn urban_at(s: Seq<UrbanDataView>, loc: Seq<u8>) -> UrbanDataView {
    s[urban_index(s, loc)]
}

/// With unique locations, a position holding the location is the one
/// `urban_index` names.
pub proof fn lemma_urban_at(s: Seq<UrbanDataView>, loc: Seq<u8>, i: int)
    requires
        unique_locations(s),
        0 <= i < s.len(),
        s[i].location == loc,
    ensures
        has_urban(s, loc),
        urban_index(s, loc) == i,
        urban_at(s, loc) == s[i],
{
    assert(has_urban(s, loc));
    let j = urban_index(s, loc);
    assert(0 <= j < s.len() && s[j].location == loc);
    if i != j {
        assert(s[i].location != s[j].location);
    }
}

/// The urban data submission resolves for a location: the cached
/// entry, or the deterministic mock when the cache misses.
pub open spec fn spec_resolved_urban(cache: Seq<UrbanDataView>, loc: Seq<u8>, now: int) -> UrbanDataView {
    if has_urban(cache, loc) {
        urban_at(cache, loc)
    } else {
        spec_mock_urban(loc, now)
    }
}

/// The cache after `set`: the entry for the location replaced, or
/// appended when none was there.
pub open spec fn store_urban(cache: Seq<UrbanDataView>, u: UrbanDataView) -> Seq<UrbanDataView> {
    if has_urban(cache, u.location) {
        cache.update(urban_index(cache, u.location), u)
    } else {
        cache.push(u)
    }
}

/// Application ids are pairwise distinct.
pub open spec fn unique_app_ids(s: Seq<LoanApplicationView>) -> bool {
    forall|i: int, j: int| 0 <= i < j < s.len() ==> (#[trigger] s[i]).id != (#[trigger] s[j]).id
}

/// Some application carries the id.
pub open spec fn has_app(s: Seq<LoanApplicationView>, id: Seq<u8>) -> bool {
    exists|i: int| 0 <= i < s.len() && (#[trigger] s[i]).id == id
}

pub open spec fn app_index(s: Seq<LoanApplicationView>, id: Seq<u8>) -> int {
    choose|i: int| 0 <= i < s.len() && (#[trigger] s[i]).id == id
}

/// The application with the id.
pub open spec fn app_at(s: Seq<LoanApplicationView>, id: Seq<u8>) -> LoanApplicationView {
    s[app_index(s, id)]
}

/// With unique ids, a position holding the id is the one `app_index`
/// names.
pub proof fn lemma_app_at(s: Seq<LoanApplicationView>, id: Seq<u8>, i: int)
    requires
        unique_app_ids(s),
        0 <= i < s.len(),
        s[i].id == id,
    ensures
        has_app(s, id),
        app_index(s, id) == i,
        app_at(s, id) == s[i],
{
    assert(has_app(s, id));
    let j = app_index(s, id);
    assert(0 <= j < s.len() && s[j].id == id);
    if i != j {
        assert(s[i].id != s[j].id);
    }
}

/// The store after `set`: the application under that id replaced, or
/// appended when none was there.
pub open spec fn store_app(
    s: Seq<LoanApplicationView>,
    a: LoanApplicationView,
) -> Seq<LoanApplicationView> {
    if has_app(s, a.id) {
        s.update(app_index(s, a.id), a)
    } else {
        s.push(a)
    }
}

/// The preimage hashed into an application id: borrower, asset and
/// decimal timestamp, joined by underscores.
pub open spec fn spec_app_preimage(borrower: Seq<u8>, asset_id: Seq<u8>, now: nat) -> Seq<u8> {
    borrower + seq![95u8] + asset_id + seq![95u8] + dec_digits(now)
}

/// An application id: the first eight bytes of the preimage digest.
pub open spec fn spec_application_id(borrower: Seq<u8>, asset_id: Seq<u8>, now: nat) -> Seq<u8> {
    sha256_of(spec_app_preimage(borrower, asset_id, now)).subrange(0, 8)
}

#[verifier::ext_equal]
pub struct EquityRateAdjusterView {
    pub admin: Seq<u8>,
    pub oracle: Seq<u8>,
    pub applications: Seq<LoanApplicationView>,
    pub urban_data_cache: Seq<UrbanDataView>,
    pub base_rate: int,
    pub max_rate_adjustment: int,
}

impl EquityRateAdjusterView {
    /// Well-formed adjuster state: unique application ids and cache
    /// locations; factors on the 1..10 scale everywhere; every
    /// application's score in 0..100, its amount positive, and its
    /// adjusted rate between 1 and its base rate plus 12.
    pub open spec fn wf(self) -> bool {
        &&& unique_app_ids(self.applications)
        &&& unique_locations(self.urban_data_cache)
        &&& forall|i: int|
            0 <= i < self.applications.len() ==> valid_urban(
                (#[trigger] self.applications[i]).urban_data,
            )
        &&& forall|i: int|
            0 <= i < self.applications.len() ==> {
                let a = #[trigger] self.applications[i];
                &&& 0 <= a.equity_score <= 100
                &&& a.requested_amount > 0
                &&& 0 <= a.base_rate
                &&& 1 <= a.adjusted_rate <= a.base_rate + 12
            }
        &&& forall|i: int|
            0 <= i < self.urban_data_cache.len() ==> valid_urban(
                #[trigger] self.urban_data_cache[i],
            )
        &&& 0 <= self.base_rate <= i32::MAX - 12
        &&& 0 <= self.max_rate_adjustment <= 100
    }
}

/// The rate adjuster contract state: the root record of the contract.
pub struct EquityRateAdjuster {
    pub admin: Vec<u8>,
    pub oracle: Vec<u8>,
    pub applications: Vec<LoanApplication>,
    pub urban_data_cache: Vec<UrbanData>,
    pub base_rate: i32,
    pub max_rate_adjustment: i32,
}

impl View for EquityRateAdjuster {
    type V = EquityRateAdjusterView;

    open spec fn view(&self) -> EquityRateAdjusterView {
        EquityRateAdjusterView {
            admin: self.admin@,
            oracle: self.oracle@,
            applications: self.applications.deep_view(),
            urban_data_cache: self.urban_data_cache.deep_view(),
            base_rate: self.base_rate as int,
            max_rate_adjustment: self.max_rate_adjustment as int,
        }
    }
}

/// Position of the cache entry for `loc`.
fn find_urban_index(cache: &Vec<UrbanData>, loc: &Vec<u8>) -> (r: Option<usize>)
    ensures
        match r {
            Some(k) => 0 <= k < cache.deep_view().len() && cache.deep_view()[k as int].location
                == loc@,
            None => !has_urban(cache.deep_view(), loc@),
        },
{
    let mut i: usize = 0;
    while i < cache.len()
        invariant
            0 <= i <= cache.len(),
            forall|k: int| 0 <= k < i ==> (#[trigger] cache.deep_view()[k]).location != loc@,
        decreases cache.len() - i,
    {
        if bytes_eq(&cache[i].location, loc) {
            return Some(i);
        }
        i = i + 1;
    }
    None
}

/// Properties of one `set` on the application store: ids stay unique,
/// the new record is present, and every other record is carried over
/// unchanged from a position whose id differs from the new one.
pub proof fn lemma_store_app_props(s: Seq<LoanApplicationView>, a: LoanApplicationView)
    requires
        unique_app_ids(s),
    ensures
        unique_app_ids(store_app(s, a)),
        store_app(s, a).len() == if has_app(s, a.id) {
            s.len()
        } else {
            s.len() + 1
        },
        forall|i: int|
            0 <= i < store_app(s, a).len() ==> (#[trigger] store_app(s, a)[i] == a || (0 <= i
                < s.len() && store_app(s, a)[i] == s[i] && s[i].id != a.id)),
{
    let t = store_app(s, a);
    if has_app(s, a.id) {
        let k = app_index(s, a.id);
        assert(0 <= k < s.len() && s[k].id == a.id);
        assert forall|i: int|
            0 <= i < t.len() implies (#[trigger] t[i] == a || (0 <= i < s.len() && t[i] == s[i]
            && s[i].id != a.id)) by {
            if i != k {
                assert(s[i].id != s[k].id);
            }
        }
        assert forall|i: int, j: int| 0 <= i < j < t.len() implies (#[trigger] t[i]).id
            != (#[trigger] t[j]).id by {
            assert(s[i].id != s[j].id);
            if i == k {
                assert(t[i].id == s[i].id);
            }
            if j == k {
                assert(t[j].id == s[j].id);
            }
        }
    } else {
        assert forall|i: int, j: int| 0 <= i < j < t.len() implies (#[trigger] t[i]).id
            != (#[trigger] t[j]).id by {
            if j == s.len() {
                assert(t[i] == s[i]);
                assert(!(0 <= i < s.len() && s[i].id == a.id));
            } else {
                assert(s[i].id != s[j].id);
            }
        }
    }
}

/// Properties of one `set` on the urban data cache, as for the
/// application store.
pub proof fn lemma_store_urban_props(s: Seq<UrbanDataView>, u: UrbanDataView)
    requires
        unique_locations(s),
    ensures
        unique_locations(store_urban(s, u)),
        has_urban(store_urban(s, u), u.location),
        forall|i: int|
            0 <= i < store_urban(s, u).len() ==> (#[trigger] store_urban(s, u)[i] == u || (0 <= i
                < s.len() && store_urban(s, u)[i] == s[i] && s[i].location != u.location)),
{
    let t = store_urban(s, u);
    if has_urban(s, u.location) {
        let k = urban_index(s, u.location);
        assert(0 <= k < s.len() && s[k].location == u.location);
        assert(t[k] == u);
        assert forall|i: int|
            0 <= i < t.len() implies (#[trigger] t[i] == u || (0 <= i < s.len() && t[i] == s[i]
            && s[i].location != u.location)) by {
            if i != k {
                assert(s[i].location != s[k].location);
            }
        }
        assert forall|i: int, j: int| 0 <= i < j < t.len() implies (#[trigger] t[i]).location
            != (#[trigger] t[j]).location by {
            assert(s[i].location != s[j].location);
            if i == k {
                assert(t[i].location == s[i].location);
            }
            if j == k {
                assert(t[j].location == s[j].location);
            }
        }
    } else {
        assert(t[s.len() as int] == u);
        assert forall|i: int, j: int| 0 <= i < j < t.len() implies (#[trigger] t[i]).location
            != (#[trigger] t[j]).location by {
            if j == s.len() {
                assert(t[i] == s[i]);
                assert(!(0 <= i < s.len() && s[i].location == u.location));
            } else {
                assert(s[i].location != s[j].location);
            }
        }
    }
}

/// Position of the application carrying `id`.
fn find_app_index(apps: &Vec<LoanApplication>, id: &Vec<u8>) -> (r: Option<usize>)
    ensures
        match r {
            Some(k) => 0 <= k < apps.deep_view().len() && apps.deep_view()[k as int].id == id@,
            None => !has_app(apps.deep_view(), id@),
        },
{
    let mut i: usize = 0;
    while i < apps.len()
        invariant
            0 <= i <= apps.len(),
            forall|k: int| 0 <= k < i ==> (#[trigger] apps.deep_view()[k]).id != id@,
        decreases apps.len() - i,
    {
        if bytes_eq(&apps[i].id, id) {
            return Some(i);
        }
        i = i + 1;
    }
    None
}

/// `set` on the application store: replace the record under the id,
/// or append.
fn set_application(apps: &mut Vec<LoanApplication>, a: LoanApplication)
    requires
        unique_app_ids(old(apps).deep_view()),
    ensures
        final(apps).deep_view() == store_app(old(apps).deep_view(), a@),
{
    let ghost s0 = apps.deep_view();
    let ghost av = a@;
    match find_app_index(apps, &a.id) {
        Some(k) => {
            proof {
                lemma_app_at(s0, av.id, k as int);
            }
            apps[k] = a;
            proof {
                assert(apps.deep_view() =~~= s0.update(k as int, av));
            }
        },
        None => {
            apps.push(a);
            proof {
                assert(apps.deep_view() =~~= s0.push(av));
            }
        },
    }
}

/// `set` on the urban data cache: replace the entry for the location,
/// or append.
fn set_urban(cache: &mut Vec<UrbanData>, u: UrbanData)
    requires
        unique_locations(old(cache).deep_view()),
    ensures
        final(cache).deep_view() == store_urban(old(cache).deep_view(), u@),
{
    let ghost s0 = cache.deep_view();
    let ghost uv = u@;
    match find_urban_index(cache, &u.location) {
        Some(k) => {
            proof {
                lemma_urban_at(s0, uv.location, k as int);
            }
            cache[k] = u;
            proof {
                assert(cache.deep_view() =~~= s0.update(k as int, uv));
            }
        },
        None => {
            cache.push(u);
            proof {
                assert(cache.deep_view() =~~= s0.push(uv));
            }
        },
    }
}

/// Deterministic mock urban data on a cache miss.
fn generate_mock_urban_data(location: &Vec<u8>, now: u64) -> (u: UrbanData)
    ensures
        u@ == spec_mock_urban(location@, now as int),
        valid_urban(u@),
{
    let hash = sha256(location);
    let u = UrbanData {
        location: location.clone(),
        income_level: (hash[0] % 10) as i32 + 1,
        pollution_level: (hash[1] % 10) as i32 + 1,
        public_transport_score: (hash[2] % 10) as i32 + 1,
        population_density: (hash[3] % 10) as i32 + 1,
        timestamp: now,
    };
    proof {
        assert(u@ =~~= spec_mock_urban(location@, now as int));
    }
    u
}

/// Equity score of urban data on the 1..10 scale.
fn calculate_equity_score(u: &UrbanData) -> (r: i32)
    requires
        valid_urban(u@),
    ensures
        r as int == spec_equity_score(u@),
        0 <= r <= 100,
{
    let raw: i32 = (11 - u.income_level) * 10 + u.pollution_level * 5 + (11
        - u.public_transport_score) * 8 + u.population_density * 3;
    let s = div_i32(raw, 4);
    if s > 100 {
        100
    } else {
        s
    }
}

/// The adjusted rate from base rate, score and urban factors.
fn calculate_adjusted_rate(base_rate: i32, equity_score: i32, u: &UrbanData, mra: i32) -> (r: i32)
    requires
        0 <= base_rate <= i32::MAX - 12,
        0 <= equity_score <= 100,
        0 <= mra <= 100,
    ensures
        r as int == spec_adjusted_rate(base_rate as int, equity_score as int, u@, mra as int),
        1 <= r <= base_rate + 12,
{
    proof {
        assert((100 - equity_score) * mra >= 0 && (100 - equity_score) * mra <= 10000) by (nonlinear_arith)
            requires
                0 <= equity_score <= 100,
                0 <= mra <= 100,
        ;
    }
    let equity_adjustment = div_i32((100 - equity_score) * mra, 100);
    let mut additional: i32 = 0;
    if u.income_level <= 3 {
        additional = additional - 5;
    }
    if u.pollution_level >= 8 {
        additional = additional - 3;
    }
    if u.public_transport_score <= 3 {
        additional = additional - 4;
    }
    let total_adjustment = equity_adjustment + additional;
    let adjusted_rate = base_rate - total_adjustment;
    if adjusted_rate < 1 {
        1
    } else {
        adjusted_rate
    }
}

/// The preimage and digest behind an application id.
fn generate_application_id(borrower: &Vec<u8>, asset_id: &Vec<u8>, now: u64) -> (r: Vec<u8>)
    ensures
        r@ == spec_application_id(borrower@, asset_id@, now as nat),
{
    let mut pre: Vec<u8> = Vec::new();
    push_bytes(&mut pre, borrower);
    pre.push(95u8);
    push_bytes(&mut pre, asset_id);
    pre.push(95u8);
    let digits = u64_to_dec(now);
    push_bytes(&mut pre, &digits);
    proof {
        assert(pre@ =~= spec_app_preimage(borrower@, asset_id@, now as nat));
    }
    let hash = sha256(&pre);
    first_eight(&hash)
}

impl EquityRateAdjuster {
    /// Create the adjuster with its admin and oracle principals and
    /// the default base rate; the maximum rate adjustment starts at
    /// 15 percent.
    pub fn initialize(admin: Vec<u8>, oracle: Vec<u8>, base_rate: i32) -> (c: EquityRateAdjuster)
        requires
            0 <= base_rate <= i32::MAX - 12,
        ensures
            c@.wf(),
            c@.admin == admin@,
            c@.oracle == oracle@,
            c@.applications == Seq::<LoanApplicationView>::empty(),
            c@.urban_data_cache == Seq::<UrbanDataView>::empty(),
            c@.base_rate == base_rate as int,
            c@.max_rate_adjustment == 15,
    {
        let c = EquityRateAdjuster {
            admin,
            oracle,
            applications: Vec::new(),
            urban_data_cache: Vec::new(),
            base_rate,
            max_rate_adjustment: 15,
        };
        proof {
            assert(c@.applications =~= Seq::<LoanApplicationView>::empty());
            assert(c@.urban_data_cache =~= Seq::<UrbanDataView>::empty());
        }
        c
    }

    /// The urban data a submission uses: the cached entry for the
    /// location, or the deterministic mock on a miss.
    fn resolve_urban(&self, location: &Vec<u8>, now: u64) -> (u: UrbanData)
        requires
            self@.wf(),
        ensures
            u@ == spec_resolved_urban(self@.urban_data_cache, location@, now as int),
            valid_urban(u@),
            u@.location == location@,
    {
        match find_urban_index(&self.urban_data_cache, location) {
            Some(k) => {
                proof {
                    lemma_urban_at(self@.urban_data_cache, location@, k as int);
                }
                self.urban_data_cache[k].clone()
            },
            None => generate_mock_urban_data(location, now),
        }
    }

    /// Submit a loan application: the location's urban data (cached or
    /// mock) yields the equity score and the adjusted rate; the
    /// application is stored under its digest-derived id and the
    /// urban data is cached.
    pub fn submit_application(
        &mut self,
        borrower: &Vec<u8>,
        asset_id: &Vec<u8>,
        requested_amount: i128,
        location: &Vec<u8>,
        now: u64,
    ) -> (r: Result<Vec<u8>, Error>)
        requires
            old(self)@.wf(),
        ensures
            final(self)@.wf(),
            final(self)@.admin == old(self)@.admin,
            final(self)@.oracle == old(self)@.oracle,
            final(self)@.base_rate == old(self)@.base_rate,
            final(self)@.max_rate_adjustment == old(self)@.max_rate_adjustment,
            r is Ok <==> requested_amount > 0,
            match r {
                Ok(id) => ({
                    let s = old(self)@;
                    let u = spec_resolved_urban(s.urban_data_cache, location@, now as int);
                    let app = LoanApplicationView {
                        id: spec_application_id(borrower@, asset_id@, now as nat),
                        borrower: borrower@,
                        asset_id: asset_id@,
                        requested_amount: requested_amount as int,
                        base_rate: s.base_rate,
                        adjusted_rate: spec_adjusted_rate(
                            s.base_rate,
                            spec_equity_score(u),
                            u,
                            s.max_rate_adjustment,
                        ),
                        equity_score: spec_equity_score(u),
                        urban_data: u,
                        status: ApplicationStatus::Pending,
                        created_at: now as int,
                    };
                    &&& id@ == app.id
                    &&& final(self)@.applications == store_app(s.applications, app)
                    &&& final(self)@.urban_data_cache == store_urban(s.urban_data_cache, u)
                }),
                Err(e) => {
                    &&& final(self)@ == old(self)@
                    &&& e == Error::INVALID_AMOUNT
                    &&& requested_amount <= 0
                },
            },
    {
        if requested_amount <= 0 {
            return Err(Error::INVALID_AMOUNT);
        }
        let ghost s0 = self@;
        let application_id = generate_application_id(borrower, asset_id, now);
        let urban_data = self.resolve_urban(location, now);
        let equity_score = calculate_equity_score(&urban_data);
        let adjusted_rate = calculate_adjusted_rate(
            self.base_rate,
            equity_score,
            &urban_data,
            self.max_rate_adjustment,
        );
        let application = LoanApplication {
            id: application_id.clone(),
            borrower: borrower.clone(),
            asset_id: asset_id.clone(),
            requested_amount,
            base_rate: self.base_rate,
            adjusted_rate,
            equity_score,
            urban_data: urban_data.clone(),
            status: ApplicationStatus::Pending,
            created_at: now,
        };
        let ghost appv = application@;
        proof {
            assert(appv =~~= LoanApplicationView {
                id: spec_application_id(borrower@, asset_id@, now as nat),
                borrower: borrower@,
                asset_id: asset_id@,
                requested_amount: requested_amount as int,
                base_rate: s0.base_rate,
                adjusted_rate: spec_adjusted_rate(
                    s0.base_rate,
                    spec_equity_score(urban_data@),
                    urban_data@,
                    s0.max_rate_adjustment,
                ),
                equity_score: spec_equity_score(urban_data@),
                urban_data: urban_data@,
                status: ApplicationStatus::Pending,
                created_at: now as int,
            });
        }
        set_application(&mut self.applications, application);
        set_urban(&mut self.urban_data_cache, urban_data);
        proof {
            lemma_store_app_props(s0.applications, appv);
            lemma_store_urban_props(s0.urban_data_cache, spec_resolved_urban(
                s0.urban_data_cache,
                location@,
                now as int,
            ));
            lemma_equity_score_range(appv.urban_data);
            lemma_adjusted_rate_bounds(
                s0.base_rate,
                appv.equity_score,
                appv.urban_data,
                s0.max_rate_adjustment,
            );
        }
        Ok(application_id)
    }

    /// Admin only: approve a pending application.
    pub fn approve_application(&mut self, caller: &Vec<u8>, application_id: &Vec<u8>) -> (r:
        Result<(), Error>)
        requires
            old(self)@.wf(),
        ensures
            final(self)@.wf(),
            final(self)@.admin == old(self)@.admin,
            final(self)@.oracle == old(self)@.oracle,
            final(self)@.base_rate == old(self)@.base_rate,
            final(self)@.max_rate_adjustment == old(self)@.max_rate_adjustment,
            final(self)@.urban_data_cache == old(self)@.urban_data_cache,
            r is Ok <==> (caller@ == old(self)@.admin && has_app(
                old(self)@.applications,
                application_id@,
            ) && app_at(old(self)@.applications, application_id@).status
                == ApplicationStatus::Pending),
            match r {
                Ok(()) => final(self)@.applications == old(self)@.applications.update(
                    app_index(old(self)@.applications, application_id@),
                    LoanApplicationView {
                        status: ApplicationStatus::Approved,
                        ..app_at(old(self)@.applications, application_id@)
                    },
                ),
                Err(e) => {
                    &&& final(self)@ == old(self)@
                    &&& (e == Error::UNAUTHORIZED <==> caller@ != old(self)@.admin)
                    &&& (e == Error::APPLICATION_NOT_FOUND <==> caller@ == old(self)@.admin
                        && !has_app(old(self)@.applications, application_id@))
                    &&& (e == Error::INVALID_STATUS <==> caller@ == old(self)@.admin && has_app(
                        old(self)@.applications,
                        application_id@,
                    ) && app_at(old(self)@.applications, application_id@).status
                        != ApplicationStatus::Pending)
                },
            },
    {
        self.decide_application(caller, application_id, ApplicationStatus::Approved)
    }

    /// Admin only: reject a pending application.
    pub fn reject_application(&mut self, caller: &Vec<u8>, application_id: &Vec<u8>) -> (r: Result<
        (),
        Error,
    >)
        requires
            old(self)@.wf(),
        ensures
            final(self)@.wf(),
            final(self)@.admin == old(self)@.admin,
            final(self)@.oracle == old(self)@.oracle,
            final(self)@.base_rate == old(self)@.base_rate,
            final(self)@.max_rate_adjustment == old(self)@.max_rate_adjustment,
            final(self)@.urban_data_cache == old(self)@.urban_data_cache,
            r is Ok <==> (caller@ == old(self)@.admin && has_app(
                old(self)@.applications,
                application_id@,
            ) && app_at(old(self)@.applications, application_id@).status
                == ApplicationStatus::Pending),
            match r {
                Ok(()) => final(self)@.applications == old(self)@.applications.update(
                    app_index(old(self)@.applications, application_id@),
                    LoanApplicationView {
                        status: ApplicationStatus::Rejected,
                        ..app_at(old(self)@.applications, application_id@)
                    },
                ),
                Err(e) => {
                    &&& final(self)@ == old(self)@
                    &&& (e == Error::UNAUTHORIZED <==> caller@ != old(self)@.admin)
                    &&& (e == Error::APPLICATION_NOT_FOUND <==> caller@ == old(self)@.admin
                        && !has_app(old(self)@.applications, application_id@))
                    &&& (e == Error::INVALID_STATUS <==> caller@ == old(self)@.admin && has_app(
                        old(self)@.applications,
                        application_id@,
                    ) && app_at(old(self)@.applications, application_id@).status
                        != ApplicationStatus::Pending)
                },
            },
    {
        self.decide_application(caller, application_id, ApplicationStatus::Rejected)
    }

    /// The shared admin decision on a pending application.
    fn decide_application(
        &mut self,
        caller: &Vec<u8>,
        application_id: &Vec<u8>,
        verdict: ApplicationStatus,
    ) -> (r: Result<(), Error>)
        requires
            old(self)@.wf(),
            verdict == ApplicationStatus::Approved || verdict == ApplicationStatus::Rejected,
        ensures
            final(self)@.wf(),
            final(self)@.admin == old(self)@.admin,
            final(self)@.oracle == old(self)@.oracle,
            final(self)@.base_rate == old(self)@.base_rate,
            final(self)@.max_rate_adjustment == old(self)@.max_rate_adjustment,
            final(self)@.urban_data_cache == old(self)@.urban_data_cache,
            r is Ok <==> (caller@ == old(self)@.admin && has_app(
                old(self)@.applications,
                application_id@,
            ) && app_at(old(self)@.applications, application_id@).status
                == ApplicationStatus::Pending),
            match r {
                Ok(()) => final(self)@.applications == old(self)@.applications.update(
                    app_index(old(self)@.applications, application_id@),
                    LoanApplicationView {
                        status: verdict,
                        ..app_at(old(self)@.applications, application_id@)
                    },
                ),
                Err(e) => {
                    &&& final(self)@ == old(self)@
                    &&& (e == Error::UNAUTHORIZED <==> caller@ != old(self)@.admin)
                    &&& (e == Error::APPLICATION_NOT_FOUND <==> caller@ == old(self)@.admin
                        && !has_app(old(self)@.applications, application_id@))
                    &&& (e == Error::INVALID_STATUS <==> caller@ == old(self)@.admin && has_app(
                        old(self)@.applications,
                        application_id@,
                    ) && app_at(old(self)@.applications, application_id@).status
                        != ApplicationStatus::Pending)
                },
            },
    {
        if !bytes_eq(caller, &self.admin) {
            return Err(Error::UNAUTHORIZED);
        }
        let k = match find_app_index(&self.applications, application_id) {
            None => {
                return Err(Error::APPLICATION_NOT_FOUND);
            },
            Some(k) => k,
        };
        proof {
            lemma_app_at(self@.applications, application_id@, k as int);
        }
        if !matches!(self.applications[k].status, ApplicationStatus::Pending) {
            return Err(Error::INVALID_STATUS);
        }
        let ghost s0 = self@;
        let mut a = self.applications[k].clone();
        a.status = verdict;
        proof {
            assert(a@ =~~= LoanApplicationView { status: verdict, ..s0.applications[k as int] });
        }
        self.applications[k] = a;
        proof {
            assert(self@.applications =~= s0.applications.update(
                k as int,
                self@.applications[k as int],
            ));
            assert forall|i: int, j: int|
                0 <= i < j < self@.applications.len() implies (#[trigger] self@.applications[i]).id
                != (#[trigger] self@.applications[j]).id by {
                assert(s0.applications[i].id != s0.applications[j].id);
            }
        }
        Ok(())
    }

    /// The application under the id, or `APPLICATION_NOT_FOUND`.
    pub fn get_application(&self, application_id: &Vec<u8>) -> (r: Result<LoanApplication, Error>)
        requires
            self@.wf(),
        ensures
            match r {
                Ok(a) => has_app(self@.applications, application_id@) && a@ == app_at(
                    self@.applications,
                    application_id@,
                ),
                Err(e) => e == Error::APPLICATION_NOT_FOUND && !has_app(
                    self@.applications,
                    application_id@,
                ),
            },
    {
        match find_app_index(&self.applications, application_id) {
            None => Err(Error::APPLICATION_NOT_FOUND),
            Some(k) => {
                proof {
                    lemma_app_at(self@.applications, application_id@, k as int);
                }
                Ok(self.applications[k].clone())
            },
        }
    }

    /// Every application of the borrower, in store order.
    pub fn get_borrower_applications(&self, borrower: &Vec<u8>) -> (r: Vec<LoanApplication>)
        ensures
            r.deep_view() == applications_of(self@.applications, borrower@),
    {
        let mut r: Vec<LoanApplication> = Vec::new();
        let mut i: usize = 0;
        while i < self.applications.len()
            invariant
                0 <= i <= self.applications.len(),
                r.deep_view() == applications_of(
                    self@.applications.subrange(0, i as int),
                    borrower@,
                ),
            decreases self.applications.len() - i,
        {
            let ghost rd0 = r.deep_view();
            let ghost pre = self@.applications.subrange(0, i as int);
            let ghost cur = self@.applications.subrange(0, i + 1);
            if bytes_eq(&self.applications[i].borrower, borrower) {
                let ghost r0 = r@;
                r.push(self.applications[i].clone());
                proof {
                    assert forall|k: int| 0 <= k < r0.len() implies r.deep_view()[k] == rd0[k] by {
                        assert(r@[k] == r0[k]);
                        assert(rd0[k] == r0[k].deep_view());
                    }
                }
            }
            proof {
                assert(cur.drop_last() =~= pre);
                assert(cur.last() == self@.applications[i as int]);
                assert(r.deep_view() =~~= applications_of(cur, borrower@));
            }
            i = i + 1;
        }
        proof {
            assert(self@.applications.subrange(0, self@.applications.len() as int)
                =~= self@.applications);
        }
        r
    }

    /// Oracle only: replace the cached urban data for a location.
    pub fn update_urban_data(
        &mut self,
        caller: &Vec<u8>,
        location: &Vec<u8>,
        income_level: i32,
        pollution_level: i32,
        public_transport_score: i32,
        population_density: i32,
        now: u64,
    ) -> (r: Result<(), Error>)
        requires
            old(self)@.wf(),
            1 <= income_level <= 10,
            1 <= pollution_level <= 10,
            1 <= public_transport_score <= 10,
            1 <= population_density <= 10,
        ensures
            final(self)@.wf(),
            final(self)@.admin == old(self)@.admin,
            final(self)@.oracle == old(self)@.oracle,
            final(self)@.base_rate == old(self)@.base_rate,
            final(self)@.max_rate_adjustment == old(self)@.max_rate_adjustment,
            final(self)@.applications == old(self)@.applications,
            r is Ok <==> caller@ == old(self)@.oracle,
            match r {
                Ok(()) => final(self)@.urban_data_cache == store_urban(
                    old(self)@.urban_data_cache,
                    UrbanDataView {
                        location: location@,
                        income_level: income_level as int,
                        pollution_level: pollution_level as int,
                        public_transport_score: public_transport_score as int,
                        population_density: population_density as int,
                        timestamp: now as int,
                    },
                ),
                Err(e) => final(self)@ == old(self)@ && e == Error::UNAUTHORIZED && caller@
                    != old(self)@.oracle,
            },
    {
        if !bytes_eq(caller, &self.oracle) {
            return Err(Error::UNAUTHORIZED);
        }
        let ghost s0 = self@;
        let urban_data = UrbanData {
            location: location.clone(),
            income_level,
            pollution_level,
            public_transport_score,
            population_density,
            timestamp: now,
        };
        let ghost uv = urban_data@;
        set_urban(&mut self.urban_data_cache, urban_data);
        proof {
            assert(uv =~~= UrbanDataView {
                location: location@,
                income_level: income_level as int,
                pollution_level: pollution_level as int,
                public_transport_score: public_transport_score as int,
                population_density: population_density as int,
                timestamp: now as int,
            });
            lemma_store_urban_props(s0.urban_data_cache, uv);
        }
        Ok(())
    }

    /// The cached urban data for a location, or `DATA_NOT_FOUND`.
    pub fn get_urban_data_for_location(&self, location: &Vec<u8>) -> (r: Result<UrbanData, Error>)
        requires
            self@.wf(),
        ensures
            match r {
                Ok(u) => has_urban(self@.urban_data_cache, location@) && u@ == urban_at(
                    self@.urban_data_cache,
                    location@,
                ),
                Err(e) => e == Error::DATA_NOT_FOUND && !has_urban(
                    self@.urban_data_cache,
                    location@,
                ),
            },
    {
        match find_urban_index(&self.urban_data_cache, location) {
            None => Err(Error::DATA_NOT_FOUND),
            Some(k) => {
                proof {
                    lemma_urban_at(self@.urban_data_cache, location@, k as int);
                }
                Ok(self.urban_data_cache[k].clone())
            },
        }
    }

    /// The signed difference the location's urban data makes to the
    /// base rate; reads the cache (or the mock) without writing it.
    pub fn calculate_rate_adjustment(&self, location: &Vec<u8>, now: u64) -> (r: Result<i32, Error>)
        requires
            self@.wf(),
        ensures
            ({
                let u = spec_resolved_urban(self@.urban_data_cache, location@, now as int);
                r == Ok::<i32, Error>(
                    (spec_adjusted_rate(
                        self@.base_rate,
                        spec_equity_score(u),
                        u,
                        self@.max_rate_adjustment,
                    ) - self@.base_rate) as i32,
                )
            }),
    {
        let urban_data = self.resolve_urban(location, now);
        let equity_score = calculate_equity_score(&urban_data);
        let adjusted_rate = calculate_adjusted_rate(
            self.base_rate,
            equity_score,
            &urban_data,
            self.max_rate_adjustment,
        );
        Ok(adjusted_rate - self.base_rate)
    }

    /// Counts of pending, approved and rejected applications.
    pub fn get_stats(&self) -> (r: (i32, i32, i32))
        requires
            self@.applications.len() <= i32::MAX,
        ensures
            r.0 as int == count_status(self@.applications, ApplicationStatus::Pending),
            r.1 as int == count_status(self@.applications, ApplicationStatus::Approved),
            r.2 as int == count_status(self@.applications, ApplicationStatus::Rejected),
    {
        let mut pending: i32 = 0;
        let mut approved: i32 = 0;
        let mut rejected: i32 = 0;
        let mut i: usize = 0;
        while i < self.applications.len()
            invariant
                0 <= i <= self.applications.len(),
                self.applications.len() <= i32::MAX,
                0 <= pending <= i,
                0 <= approved <= i,
                0 <= rejected <= i,
                pending as int == count_status(
                    self@.applications.subrange(0, i as int),
                    ApplicationStatus::Pending,
                ),
                approved as int == count_status(
                    self@.applications.subrange(0, i as int),
                    ApplicationStatus::Approved,
                ),
                rejected as int == count_status(
                    self@.applications.subrange(0, i as int),
                    ApplicationStatus::Rejected,
                ),
            decreases self.applications.len() - i,
        {
            let ghost pre = self@.applications.subrange(0, i as int);
            let ghost cur = self@.applications.subrange(0, i + 1);
            match self.applications[i].status {
                ApplicationStatus::Pending => {
                    pending = pending + 1;
                },
                ApplicationStatus::Approved => {
                    approved = approved + 1;
                },
                ApplicationStatus::Rejected => {
                    rejected = rejected + 1;
                },
                _ => {},
            }
            proof {
                assert(cur.drop_last() =~= pre);
                assert(cur.last() == self@.applications[i as int]);
            }
            i = i + 1;
        }
        proof {
            assert(self@.applications.subrange(0, self@.applications.len() as int)
                =~= self@.applications);
        }
        (pending, approved, rejected)
    }
}

/// The applications of one borrower, in store order.
pub open spec fn applications_of(
    s: Seq<LoanApplicationView>,
    borrower: Seq<u8>,
) -> Seq<LoanApplicationView>
    decreases s.len(),
{
    if s.len() == 0 {
        Seq::<LoanApplicationView>::empty()
    } else {
        applications_of(s.drop_last(), borrower) + if s.last().borrower == borrower {
            seq![s.last()]
        } else {
            Seq::<LoanApplicationView>::empty()
        }
    }
}

/// How many applications are in the given status.
pub open spec fn count_status(s: Seq<LoanApplicationView>, st: ApplicationStatus) -> int
    decreases s.len(),
{
    if s.len() == 0 {
        0
    } else {
        count_status(s.drop_last(), st) + if s.last().status == st {
            1int
        } else {
            0int
        }
    }
}

} // verus!
