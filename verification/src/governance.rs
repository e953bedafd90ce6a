//! Governance: equity-weighted voting on proposals. Voters carry an
//! oracle-maintained stake and equity score; a vote above the
//! proposal's equity threshold is boosted; proposals pass on quorum
//! and a yes majority, and only the admin executes them.
//!
//! Each method is one ledger transaction over the contract's root
//! record, taking the calling principal and the ledger timestamp as
//! arguments.
use vstd::prelude::*;
use crate::arith::div_i128;
use crate::bytes::{bytes_eq, dec_digits, push_bytes, u64_to_dec};
use crate::digest::{first_eight, sha256, sha256_of};
use vstd::arithmetic::div_mod::lemma_div_pos_is_pos;
use vstd::arithmetic::mul::lemma_mul_nonnegative;

verus! {

/// A ballot choice.
#[derive(Clone, Copy, Debug, PartialEq, Eq, Structural)]
pub enum VoteChoice {
    Yes,
    No,
    Abstain,
}

/// Lifecycle of a proposal.
#[derive(Clone, Copy, Debug, PartialEq, Eq, Structural)]
pub enum ProposalStatus {
    Active,
    Passed,
    Failed,
    Executed,
}

/// Error codes of governance, as the ledger surfaces them.
#[allow(non_camel_case_types)]
#[derive(Clone, Copy, Debug, PartialEq, Eq, Structural)]
pub enum Error {
    DURATION_TOO_SHORT,
    PROPOSAL_EXISTS,
    PROPOSAL_NOT_FOUND,
    PROPOSAL_NOT_ACTIVE,
    VOTING_ENDED,
    ALREADY_VOTED,
    VOTING_NOT_ENDED,
    PROPOSAL_NOT_PASSED,
    UNKNOWN_PROPOSAL_TYPE,
    UNAUTHORIZED,
    VOTER_NOT_FOUND,
}

/// A governance proposal with its weighted tallies.
#[derive(Debug)]
pub struct Proposal {
    pub id: Vec<u8>,
    pub title: Vec<u8>,
    pub description: Vec<u8>,
    pub proposer: Vec<u8>,
    pub proposal_type: Vec<u8>,
    pub target_asset: Option<Vec<u8>>,
    pub amount: Option<i128>,
    pub start_time: u64,
    pub end_time: u64,
    pub status: ProposalStatus,
    pub yes_votes: i128,
    pub no_votes: i128,
    pub total_votes: i128,
    pub equity_boost_threshold: i32,
}

/// One recorded ballot.
#[derive(Debug)]
pub struct Vote {
    pub voter: Vec<u8>,
    pub proposal_id: Vec<u8>,
    pub vote: VoteChoice,
    pub voting_power: i128,
    pub equity_boost: i128,
    pub total_power: i128,
    pub equity_score: i32,
    pub timestamp: u64,
}

/// A voter's stake and equity data, maintained by the oracle.
#[derive(Debug)]
pub struct VoterData {
    pub address: Vec<u8>,
    pub stake_amount: i128,
    pub equity_score: i32,
    pub voting_power: i128,
    pub last_vote_time: u64,
    pub total_votes_cast: i32,
}

#[verifier::ext_equal]
pub struct ProposalView {
    pub id: Seq<u8>,
    pub title: Seq<u8>,
    pub description: Seq<u8>,
    pub proposer: Seq<u8>,
    pub proposal_type: Seq<u8>,
    pub target_asset: Option<Seq<u8>>,
    pub amount: Option<int>,
    pub start_time: int,
    pub end_time: int,
    pub status: ProposalStatus,
    pub yes_votes: int,
    pub no_votes: int,
    pub total_votes: int,
    pub equity_boost_threshold: int,
}

#[verifier::ext_equal]
pub struct VoteView {
    pub voter: Seq<u8>,
    pub proposal_id: Seq<u8>,
    pub vote: VoteChoice,
    pub voting_power: int,
    pub equity_boost: int,
    pub total_power: int,
    pub equity_score: int,
    pub timestamp: int,
}

#[verifier::ext_equal]
pub struct VoterDataView {
    pub address: Seq<u8>,
    pub stake_amount: int,
    pub equity_score: int,
    pub voting_power: int,
    pub last_vote_time: int,
    pub total_votes_cast: int,
}

impl View for Proposal {
    type V = ProposalView;

    open spec fn view(&self) -> ProposalView {
        ProposalView {
            id: self.id@,
            title: self.title@,
            description: self.description@,
            proposer: self.proposer@,
            proposal_type: self.proposal_type@,
            target_asset: match self.target_asset {
                Option::Some(v) => Option::Some(v@),
                Option::None => Option::None,
            },
            amount: match self.amount {
                Option::Some(a) => Option::Some(a as int),
                Option::None => Option::None,
            },
            start_time: self.start_time as int,
            end_time: self.end_time as int,
            status: self.status,
            yes_votes: self.yes_votes as int,
            no_votes: self.no_votes as int,
            total_votes: self.total_votes as int,
            equity_boost_threshold: self.equity_boost_threshold as int,
        }
    }
}

impl DeepView for Proposal {
    type V = ProposalView;

    open spec fn deep_view(&self) -> ProposalView {
        self.view()
    }
}

impl View for Vote {
    type V = VoteView;

    open spec fn view(&self) -> VoteView {
        VoteView {
            voter: self.voter@,
            proposal_id: self.proposal_id@,
            vote: self.vote,
            voting_power: self.voting_power as int,
            equity_boost: self.equity_boost as int,
            total_power: self.total_power as int,
            equity_score: self.equity_score as int,
            timestamp: self.timestamp as int,
        }
    }
}

impl DeepView for Vote {
    type V = VoteView;

    open spec fn deep_view(&self) -> VoteView {
        self.view()
    }
}

impl View for VoterData {
    type V = VoterDataView;

    open spec fn view(&self) -> VoterDataView {
        VoterDataView {
            address: self.address@,
            stake_amount: self.stake_amount as int,
            equity_score: self.equity_score as int,
            voting_power: self.voting_power as int,
            last_vote_time: self.last_vote_time as int,
            total_votes_cast: self.total_votes_cast as int,
        }
    }
}

impl DeepView for VoterData {
    type V = VoterDataView;

    open spec fn deep_view(&self) -> VoterDataView {
        self.view()
    }
}

impl Clone for Proposal {
    fn clone(&self) -> (r: Self)
        ensures
            r@ == self@,
    {
        Proposal {
            id: self.id.clone(),
            title: self.title.clone(),
            description: self.description.clone(),
            proposer: self.proposer.clone(),
            proposal_type: self.proposal_type.clone(),
            target_asset: match &self.target_asset {
                Option::Some(v) => Option::Some(v.clone()),
                Option::None => Option::None,
            },
            amount: self.amount,
            start_time: self.start_time,
            end_time: self.end_time,
            status: self.status,
            yes_votes: self.yes_votes,
            no_votes: self.no_votes,
            total_votes: self.total_votes,
            equity_boost_threshold: self.equity_boost_threshold,
        }
    }
}

impl Clone for Vote {
    fn clone(&self) -> (r: Self)
        ensures
            r@ == self@,
    {
        Vote {
            voter: self.voter.clone(),
            proposal_id: self.proposal_id.clone(),
            vote: self.vote,
            voting_power: self.voting_power,
            equity_boost: self.equity_boost,
            total_power: self.total_power,
            equity_score: self.equity_score,
            timestamp: self.timestamp,
        }
    }
}

impl Clone for VoterData {
    fn clone(&self) -> (r: Self)
        ensures
            r@ == self@,
    {
        VoterData {
            address: self.address.clone(),
            stake_amount: self.stake_amount,
            equity_score: self.equity_score,
            voting_power: self.voting_power,
            last_vote_time: self.last_vote_time,
            total_votes_cast: self.total_votes_cast,
        }
    }
}

/// Weighted tally of the ballots on one proposal with one choice.
pub open spec fn tally(votes: Seq<VoteView>, pid: Seq<u8>, choice: VoteChoice) -> int
    decreases votes.len(),
{
    if votes.len() == 0 {
        0
    } else {
        tally(votes.drop_last(), pid, choice) + if votes.last().proposal_id == pid
            && votes.last().vote == choice {
            votes.last().total_power
        } else {
            0int
        }
    }
}

/// Weighted tally of every ballot on one proposal, abstentions
/// included.
pub open spec fn tally_all(votes: Seq<VoteView>, pid: Seq<u8>) -> int
    decreases votes.len(),
{
    if votes.len() == 0 {
        0
    } else {
        tally_all(votes.drop_last(), pid) + if votes.last().proposal_id == pid {
            votes.last().total_power
        } else {
            0int
        }
    }
}

/// The ballots on one proposal, in record order.
pub open spec fn votes_for(votes: Seq<VoteView>, pid: Seq<u8>) -> Seq<VoteView>
    decreases votes.len(),
{
    if votes.len() == 0 {
        Seq::<VoteView>::empty()
    } else {
        votes_for(votes.drop_last(), pid) + if votes.last().proposal_id == pid {
            seq![votes.last()]
        } else {
            Seq::<VoteView>::empty()
        }
    }
}

/// The voter has a recorded ballot on the proposal.
pub open spec fn has_voted(votes: Seq<VoteView>, pid: Seq<u8>, voter: Seq<u8>) -> bool {
    exists|i: int|
        0 <= i < votes.len() && (#[trigger] votes[i]).proposal_id == pid && votes[i].voter == voter
}

/// Proposal ids are pairwise distinct.
pub open spec fn unique_proposal_ids(s: Seq<ProposalView>) -> bool {
    forall|i: int, j: int| 0 <= i < j < s.len() ==> (#[trigger] s[i]).id != (#[trigger] s[j]).id
}

/// Some proposal carries the id.
pub open spec fn has_proposal(s: Seq<ProposalView>, id: Seq<u8>) -> bool {
    exists|i: int| 0 <= i < s.len() && (#[trigger] s[i]).id == id
}

pub open spec fn proposal_index(s: Seq<ProposalView>, id: Seq<u8>) -> int {
    choose|i: int| 0 <= i < s.len() && (#[trigger] s[i]).id == id
}

/// The proposal with the id.
pub open spec fn proposal_at(s: Seq<ProposalView>, id: Seq<u8>) -> ProposalView {
    s[proposal_index(s, id)]
}

/// With unique ids, a position holding the id is the one
/// `proposal_index` names.
pub proof fn lemma_proposal_at(s: Seq<ProposalView>, id: Seq<u8>, i: int)
    requires
        unique_proposal_ids(s),
        0 <= i < s.len(),
        s[i].id == id,
    ensures
        has_proposal(s, id),
        proposal_index(s, id) == i,
        proposal_at(s, id) == s[i],
{
    assert(has_proposal(s, id));
    let j = proposal_index(s, id);
    assert(0 <= j < s.len() && s[j].id == id);
    if i != j {
        assert(s[i].id != s[j].id);
    }
}

/// Voter addresses are pairwise distinct.
pub open spec fn unique_voters(s: Seq<VoterDataView>) -> bool {
    forall|i: int, j: int|
        0 <= i < j < s.len() ==> (#[trigger] s[i]).address != (#[trigger] s[j]).address
}

/// Some voter record carries the address.
pub open spec fn has_voter(s: Seq<VoterDataView>, addr: Seq<u8>) -> bool {
    exists|i: int| 0 <= i < s.len() && (#[trigger] s[i]).address == addr
}

pub open spec fn voter_index(s: Seq<VoterDataView>, addr: Seq<u8>) -> int {
    choose|i: int| 0 <= i < s.len() && (#[trigger] s[i]).address == addr
}

/// The voter record for the address.
pub open spec fn voter_at(s: Seq<VoterDataView>, addr: Seq<u8>) -> VoterDataView {
    s[voter_index(s, addr)]
}

/// With unique addresses, a position holding the address is the one
/// `voter_index` names.
pub proof fn lemma_voter_at(s: Seq<VoterDataView>, addr: Seq<u8>, i: int)
    requires
        unique_voters(s),
        0 <= i < s.len(),
        s[i].address == addr,
    ensures
        has_voter(s, addr),
        voter_index(s, addr) == i,
        voter_at(s, addr) == s[i],
{
    assert(has_voter(s, addr));
    let j = voter_index(s, addr);
    assert(0 <= j < s.len() && s[j].address == addr);
    if i != j {
        assert(s[i].address != s[j].address);
    }
}

/// A fresh voter record: no stake, no score, nothing cast yet.
pub open spec fn default_voter(addr: Seq<u8>) -> VoterDataView {
    VoterDataView {
        address: addr,
        stake_amount: 0,
        equity_score: 0,
        voting_power: 0,
        last_vote_time: 0,
        total_votes_cast: 0,
    }
}

/// The record a transaction works on: the stored one, or the fresh
/// default.
pub open spec fn voter_or_default(s: Seq<VoterDataView>, addr: Seq<u8>) -> VoterDataView {
    if has_voter(s, addr) {
        voter_at(s, addr)
    } else {
        default_voter(addr)
    }
}

/// The store after `set`: the record for the address replaced, or
/// appended when none was there.
pub open spec fn store_voter(s: Seq<VoterDataView>, v: VoterDataView) -> Seq<VoterDataView> {
    if has_voter(s, v.address) {
        s.update(voter_index(s, v.address), v)
    } else {
        s.push(v)
    }
}

/// Properties of one `set` on the voter store.
pub proof fn lemma_store_voter_props(s: Seq<VoterDataView>, v: VoterDataView)
    requires
        unique_voters(s),
    ensures
        unique_voters(store_voter(s, v)),
        has_voter(store_voter(s, v), v.address),
        voter_at(store_voter(s, v), v.address) == v,
        forall|i: int|
            0 <= i < store_voter(s, v).len() ==> (#[trigger] store_voter(s, v)[i] == v || (0 <= i
                < s.len() && store_voter(s, v)[i] == s[i] && s[i].address != v.address)),
{
    let t = store_voter(s, v);
    if has_voter(s, v.address) {
        let k = voter_index(s, v.address);
        assert(0 <= k < s.len() && s[k].address == v.address);
        assert forall|i: int|
            0 <= i < t.len() implies (#[trigger] t[i] == v || (0 <= i < s.len() && t[i] == s[i]
            && s[i].address != v.address)) by {
            if i != k {
                assert(s[i].address != s[k].address);
            }
        }
        assert forall|i: int, j: int| 0 <= i < j < t.len() implies (#[trigger] t[i]).address
            != (#[trigger] t[j]).address by {
            assert(s[i].address != s[j].address);
            if i == k {
                assert(t[i].address == s[i].address);
            }
            if j == k {
                assert(t[j].address == s[j].address);
            }
        }
        lemma_voter_at(t, v.address, k);
    } else {
        assert(t[s.len() as int] == v);
        assert forall|i: int, j: int| 0 <= i < j < t.len() implies (#[trigger] t[i]).address
            != (#[trigger] t[j]).address by {
            if j == s.len() {
                assert(t[i] == s[i]);
                assert(!(0 <= i < s.len() && s[i].address == v.address));
            } else {
                assert(s[i].address != s[j].address);
            }
        }
        lemma_voter_at(t, v.address, s.len() as int);
    }
}

/// Total raw voting power of every known voter.
pub open spec fn sum_voting_power(s: Seq<VoterDataView>) -> int
    decreases s.len(),
{
    if s.len() == 0 {
        0
    } else {
        sum_voting_power(s.drop_last()) + s.last().voting_power
    }
}

pub proof fn lemma_tally_push(votes: Seq<VoteView>, x: VoteView, pid: Seq<u8>, choice: VoteChoice)
    ensures
        tally(votes.push(x), pid, choice) == tally(votes, pid, choice) + if x.proposal_id == pid
            && x.vote == choice {
            x.total_power
        } else {
            0int
        },
        tally_all(votes.push(x), pid) == tally_all(votes, pid) + if x.proposal_id == pid {
            x.total_power
        } else {
            0int
        },
{
    assert(votes.push(x).drop_last() =~= votes);
    assert(votes.push(x).last() == x);
}

/// A proposal no ballot names has zero tallies and no ballot list.
pub proof fn lemma_votes_absent(votes: Seq<VoteView>, pid: Seq<u8>)
    requires
        forall|i: int| 0 <= i < votes.len() ==> (#[trigger] votes[i]).proposal_id != pid,
    ensures
        tally(votes, pid, VoteChoice::Yes) == 0,
        tally(votes, pid, VoteChoice::No) == 0,
        tally_all(votes, pid) == 0,
        votes_for(votes, pid) == Seq::<VoteView>::empty(),
    decreases votes.len(),
{
    if votes.len() > 0 {
        lemma_votes_absent(votes.drop_last(), pid);
        assert(votes_for(votes, pid) =~= Seq::<VoteView>::empty());
    } else {
        assert(votes_for(votes, pid) =~= Seq::<VoteView>::empty());
    }
}

/// With non-negative ballot weights, tallies are non-negative.
pub proof fn lemma_tally_nonneg(votes: Seq<VoteView>, pid: Seq<u8>, choice: VoteChoice)
    requires
        forall|i: int| 0 <= i < votes.len() ==> 0 <= (#[trigger] votes[i]).total_power,
    ensures
        0 <= tally(votes, pid, choice),
        0 <= tally_all(votes, pid),
    decreases votes.len(),
{
    if votes.len() > 0 {
        lemma_tally_nonneg(votes.drop_last(), pid, choice);
    }
}

/// The yes and no buckets partition at most the full weighted tally:
/// every ballot counts once toward `total`, and abstentions count
/// toward neither bucket.
pub proof fn lemma_tally_partition(votes: Seq<VoteView>, pid: Seq<u8>)
    requires
        forall|i: int| 0 <= i < votes.len() ==> 0 <= (#[trigger] votes[i]).total_power,
    ensures
        tally(votes, pid, VoteChoice::Yes) + tally(votes, pid, VoteChoice::No) <= tally_all(
            votes,
            pid,
        ),
    decreases votes.len(),
{
    if votes.len() > 0 {
        lemma_tally_partition(votes.drop_last(), pid);
    }
}

#[verifier::ext_equal]
pub struct GovernanceView {
    pub admin: Seq<u8>,
    pub oracle: Seq<u8>,
    pub loan_pool: Seq<u8>,
    pub proposals: Seq<ProposalView>,
    pub votes: Seq<VoteView>,
    pub voters: Seq<VoterDataView>,
    pub min_proposal_duration: int,
    pub quorum_threshold: int,
    pub equity_boost_multiplier: int,
}

impl GovernanceView {
    /// Well-formed governance state: unique proposal ids and voter
    /// addresses; every proposal's weighted tallies equal the sums of
    /// `total_power` over its recorded ballots, by choice; every
    /// ballot's `total_power` splits into its power and boost, both
    /// non-negative, at most one ballot per voter and proposal, and
    /// every ballot names a known proposal; every voter's cached
    /// power equals the stake, with score in 0..100.
    pub open spec fn wf(self) -> bool {
        &&& unique_proposal_ids(self.proposals)
        &&& unique_voters(self.voters)
        &&& forall|i: int|
            0 <= i < self.proposals.len() ==> {
                let p = #[trigger] self.proposals[i];
                &&& p.yes_votes == tally(self.votes, p.id, VoteChoice::Yes)
                &&& p.no_votes == tally(self.votes, p.id, VoteChoice::No)
                &&& p.total_votes == tally_all(self.votes, p.id)
            }
        &&& forall|i: int|
            0 <= i < self.votes.len() ==> {
                let v = #[trigger] self.votes[i];
                &&& v.total_power == v.voting_power + v.equity_boost
                &&& 0 <= v.voting_power
                &&& 0 <= v.equity_boost
                &&& has_proposal(self.proposals, v.proposal_id)
            }
        &&& forall|i: int, j: int|
            0 <= i < j < self.votes.len() ==> !((#[trigger] self.votes[i]).proposal_id
                == (#[trigger] self.votes[j]).proposal_id && self.votes[i].voter
                == self.votes[j].voter)
        &&& forall|i: int|
            0 <= i < self.voters.len() ==> {
                let v = #[trigger] self.voters[i];
                &&& 0 <= v.stake_amount
                &&& v.voting_power == v.stake_amount
                &&& 0 <= v.equity_score <= 100
                &&& 0 <= v.total_votes_cast
            }
        &&& 100 <= self.equity_boost_multiplier <= 200
        &&& 0 <= self.quorum_threshold
    }
}

/// The tallies of any known proposal in a well-formed state are the
/// ballot sums, and the yes and no buckets never exceed the total.
pub proof fn lemma_proposal_tally_invariant(g: GovernanceView, pid: Seq<u8>)
    requires
        g.wf(),
        has_proposal(g.proposals, pid),
    ensures
        proposal_at(g.proposals, pid).total_votes == tally_all(g.votes, pid),
        proposal_at(g.proposals, pid).yes_votes + proposal_at(g.proposals, pid).no_votes
            <= proposal_at(g.proposals, pid).total_votes,
{
    let k = proposal_index(g.proposals, pid);
    assert(0 <= k < g.proposals.len() && g.proposals[k].id == pid);
    lemma_tally_partition(g.votes, pid);
}

/// The governance contract state: the root record of the contract.
/// Ballots are kept as one flat record list; the ballots of one
/// proposal are those that carry its id, in record order.
pub struct Governance {
    pub admin: Vec<u8>,
    pub oracle: Vec<u8>,
    pub loan_pool: Vec<u8>,
    pub proposals: Vec<Proposal>,
    pub votes: Vec<Vote>,
    pub voters: Vec<VoterData>,
    pub min_proposal_duration: u64,
    pub quorum_threshold: i32,
    pub equity_boost_multiplier: i32,
}

impl View for Governance {
    type V = GovernanceView;

    open spec fn view(&self) -> GovernanceView {
        GovernanceView {
            admin: self.admin@,
            oracle: self.oracle@,
            loan_pool: self.loan_pool@,
            proposals: self.proposals.deep_view(),
            votes: self.votes.deep_view(),
            voters: self.voters.deep_view(),
            min_proposal_duration: self.min_proposal_duration as int,
            quorum_threshold: self.quorum_threshold as int,
            equity_boost_multiplier: self.equity_boost_multiplier as int,
        }
    }
}

/// The raw voting power a ballot carries: one to one with the stake.
pub open spec fn spec_voting_power(vd: VoterDataView) -> int {
    vd.stake_amount
}

/// The equity boost: the percentage over 100 of the multiplier,
/// applied to the cached voting power, for voters at or above the
/// proposal's threshold.
pub open spec fn spec_equity_boost(vd: VoterDataView, p: ProposalView, multiplier: int) -> int {
    if vd.equity_score >= p.equity_boost_threshold {
        vd.voting_power * (multiplier - 100) / 100
    } else {
        0
    }
}

/// The full weight of a ballot: raw power plus boost.
pub open spec fn spec_total_power(vd: VoterDataView, p: ProposalView, multiplier: int) -> int {
    spec_voting_power(vd) + spec_equity_boost(vd, p, multiplier)
}

/// The machine bounds under which one ballot computes and tallies
/// without overflow.
pub open spec fn vote_fits(s: GovernanceView, pid: Seq<u8>, voter: Seq<u8>) -> bool {
    let p = proposal_at(s.proposals, pid);
    let vd = voter_or_default(s.voters, voter);
    let tp = spec_total_power(vd, p, s.equity_boost_multiplier);
    &&& vd.voting_power * (s.equity_boost_multiplier - 100) <= i128::MAX
    &&& vd.stake_amount + spec_equity_boost(vd, p, s.equity_boost_multiplier) <= i128::MAX
    &&& p.yes_votes + tp <= i128::MAX
    &&& p.no_votes + tp <= i128::MAX
    &&& p.total_votes + tp <= i128::MAX
    &&& vd.total_votes_cast + 1 <= i32::MAX
}

/// The outcome of finalization: failed below quorum, else passed
/// exactly on a strict yes majority.
pub open spec fn spec_finalize_outcome(
    p: ProposalView,
    total_possible: int,
    quorum: int,
) -> ProposalStatus {
    let participation = if total_possible > 0 {
        p.total_votes * 100 / total_possible
    } else {
        0int
    };
    if participation < quorum {
        ProposalStatus::Failed
    } else if p.yes_votes > p.no_votes {
        ProposalStatus::Passed
    } else {
        ProposalStatus::Failed
    }
}

/// The machine bounds under which finalization computes without
/// overflow.
pub open spec fn finalize_fits(s: GovernanceView, pid: Seq<u8>) -> bool {
    &&& sum_voting_power(s.voters) <= i128::MAX
    &&& proposal_at(s.proposals, pid).total_votes * 100 <= i128::MAX
}

/// The preimage hashed into a proposal id: the `prop_` prefix, the
/// proposer, the title and the decimal timestamp, joined by
/// underscores.
pub open spec fn spec_proposal_preimage(proposer: Seq<u8>, title: Seq<u8>, now: nat) -> Seq<u8> {
    seq![112u8, 114u8, 111u8, 112u8, 95u8] + proposer + seq![95u8] + title + seq![95u8]
        + dec_digits(now)
}

/// A proposal id: the first eight bytes of the preimage digest.
pub open spec fn spec_proposal_id(proposer: Seq<u8>, title: Seq<u8>, now: nat) -> Seq<u8> {
    sha256_of(spec_proposal_preimage(proposer, title, now)).subrange(0, 8)
}

/// The byte string `asset_funding`.
pub open spec fn asset_funding_tag() -> Seq<u8> {
    seq![97u8, 115u8, 115u8, 101u8, 116u8, 95u8, 102u8, 117u8, 110u8, 100u8, 105u8, 110u8, 103u8]
}

/// The byte string `rate_adjustment`.
pub open spec fn rate_adjustment_tag() -> Seq<u8> {
    seq![
        114u8,
        97u8,
        116u8,
        101u8,
        95u8,
        97u8,
        100u8,
        106u8,
        117u8,
        115u8,
        116u8,
        109u8,
        101u8,
        110u8,
        116u8,
    ]
}

/// The byte string `policy_change`.
pub open spec fn policy_change_tag() -> Seq<u8> {
    seq![112u8, 111u8, 108u8, 105u8, 99u8, 121u8, 95u8, 99u8, 104u8, 97u8, 110u8, 103u8, 101u8]
}

/// The three proposal types execution recognises.
pub open spec fn is_known_proposal_type(t: Seq<u8>) -> bool {
    t == asset_funding_tag() || t == rate_adjustment_tag() || t == policy_change_tag()
}

fn asset_funding_needle() -> (r: Vec<u8>)
    ensures
        r@ == asset_funding_tag(),
{
    let r: Vec<u8> = vec![
        97u8, 115u8, 115u8, 101u8, 116u8, 95u8, 102u8, 117u8, 110u8, 100u8, 105u8, 110u8, 103u8,
    ];
    proof {
        assert(r@ =~= asset_funding_tag());
    }
    r
}

fn rate_adjustment_needle() -> (r: Vec<u8>)
    ensures
        r@ == rate_adjustment_tag(),
{
    let r: Vec<u8> = vec![
        114u8, 97u8, 116u8, 101u8, 95u8, 97u8, 100u8, 106u8, 117u8, 115u8, 116u8, 109u8, 101u8,
        110u8, 116u8,
    ];
    proof {
        assert(r@ =~= rate_adjustment_tag());
    }
    r
}

fn policy_change_needle() -> (r: Vec<u8>)
    ensures
        r@ == policy_change_tag(),
{
    let r: Vec<u8> = vec![
        112u8, 111u8, 108u8, 105u8, 99u8, 121u8, 95u8, 99u8, 104u8, 97u8, 110u8, 103u8, 101u8,
    ];
    proof {
        assert(r@ =~= policy_change_tag());
    }
    r
}

/// Position of the proposal carrying `id`.
fn find_proposal_index(props: &Vec<Proposal>, id: &Vec<u8>) -> (r: Option<usize>)
    ensures
        match r {
            Some(k) => 0 <= k < props.deep_view().len() && props.deep_view()[k as int].id == id@,
            None => !has_proposal(props.deep_view(), id@),
        },
{
    let mut i: usize = 0;
    while i < props.len()
        invariant
            0 <= i <= props.len(),
            forall|k: int| 0 <= k < i ==> (#[trigger] props.deep_view()[k]).id != id@,
        decreases props.len() - i,
    {
        if bytes_eq(&props[i].id, id) {
            return Some(i);
        }
        i = i + 1;
    }
    None
}

/// Position of the voter record for `addr`.
fn find_voter_index(voters: &Vec<VoterData>, addr: &Vec<u8>) -> (r: Option<usize>)
    ensures
        match r {
            Some(k) => 0 <= k < voters.deep_view().len() && voters.deep_view()[k as int].address
                == addr@,
            None => !has_voter(voters.deep_view(), addr@),
        },
{
    let mut i: usize = 0;
    while i < voters.len()
        invariant
            0 <= i <= voters.len(),
            forall|k: int| 0 <= k < i ==> (#[trigger] voters.deep_view()[k]).address != addr@,
        decreases voters.len() - i,
    {
        if bytes_eq(&voters[i].address, addr) {
            return Some(i);
        }
        i = i + 1;
    }
    None
}

/// Whether the voter already has a ballot on the proposal.
fn exists_vote(votes: &Vec<Vote>, pid: &Vec<u8>, voter: &Vec<u8>) -> (r: bool)
    ensures
        r == has_voted(votes.deep_view(), pid@, voter@),
{
    let mut i: usize = 0;
    while i < votes.len()
        invariant
            0 <= i <= votes.len(),
            forall|k: int|
                0 <= k < i ==> !((#[trigger] votes.deep_view()[k]).proposal_id == pid@
                    && votes.deep_view()[k].voter == voter@),
        decreases votes.len() - i,
    {
        if bytes_eq(&votes[i].proposal_id, pid) && bytes_eq(&votes[i].voter, voter) {
            proof {
                assert((votes.deep_view()[i as int]).proposal_id == pid@
                    && votes.deep_view()[i as int].voter == voter@);
            }
            return true;
        }
        i = i + 1;
    }
    false
}

/// `set` on the voter store: replace the record for the address, or
/// append.
fn set_voter(voters: &mut Vec<VoterData>, v: VoterData)
    requires
        unique_voters(old(voters).deep_view()),
    ensures
        final(voters).deep_view() == store_voter(old(voters).deep_view(), v@),
{
    let ghost s0 = voters.deep_view();
    let ghost vv = v@;
    match find_voter_index(voters, &v.address) {
        Some(k) => {
            proof {
                lemma_voter_at(s0, vv.address, k as int);
            }
            voters[k] = v;
            proof {
                assert(voters.deep_view() =~~= s0.update(k as int, vv));
            }
        },
        None => {
            voters.push(v);
            proof {
                assert(voters.deep_view() =~~= s0.push(vv));
            }
        },
    }
}

/// The preimage and digest behind a proposal id.
fn generate_proposal_id(proposer: &Vec<u8>, title: &Vec<u8>, now: u64) -> (r: Vec<u8>)
    ensures
        r@ == spec_proposal_id(proposer@, title@, now as nat),
{
    let mut pre: Vec<u8> = vec![112u8, 114u8, 111u8, 112u8, 95u8];
    push_bytes(&mut pre, proposer);
    pre.push(95u8);
    push_bytes(&mut pre, title);
    pre.push(95u8);
    let digits = u64_to_dec(now);
    push_bytes(&mut pre, &digits);
    proof {
        assert(pre@ =~= spec_proposal_preimage(proposer@, title@, now as nat));
    }
    let hash = sha256(&pre);
    first_eight(&hash)
}

/// One ballot, as it rewrites the proposal's tallies: the weight goes
/// to the chosen bucket (to neither on an abstention) and always to
/// the total.
pub open spec fn spec_apply_vote(p: ProposalView, choice: VoteChoice, tp: int) -> ProposalView {
    ProposalView {
        yes_votes: p.yes_votes + if choice == VoteChoice::Yes {
            tp
        } else {
            0int
        },
        no_votes: p.no_votes + if choice == VoteChoice::No {
            tp
        } else {
            0int
        },
        total_votes: p.total_votes + tp,
        ..p
    }
}

/// A well-formed governance state stays well-formed under one ballot.
proof fn lemma_vote_preserves_wf(
    s0: GovernanceView,
    s1: GovernanceView,
    k: int,
    vv: VoteView,
    nv: VoterDataView,
)
    requires
        s0.wf(),
        0 <= k < s0.proposals.len(),
        vv.proposal_id == s0.proposals[k].id,
        !has_voted(s0.votes, vv.proposal_id, vv.voter),
        vv.total_power == vv.voting_power + vv.equity_boost,
        0 <= vv.voting_power,
        0 <= vv.equity_boost,
        s1.votes == s0.votes.push(vv),
        s1.proposals == s0.proposals.update(k, spec_apply_vote(s0.proposals[k], vv.vote, vv.total_power)),
        0 <= nv.stake_amount,
        nv.voting_power == nv.stake_amount,
        0 <= nv.equity_score <= 100,
        0 <= nv.total_votes_cast,
        s1.voters == store_voter(s0.voters, nv),
        s1.quorum_threshold == s0.quorum_threshold,
        s1.equity_boost_multiplier == s0.equity_boost_multiplier,
    ensures
        s1.wf(),
{
    let pid = s0.proposals[k].id;
    assert forall|i: int, j: int|
        0 <= i < j < s1.proposals.len() implies (#[trigger] s1.proposals[i]).id
        != (#[trigger] s1.proposals[j]).id by {
        assert(s0.proposals[i].id != s0.proposals[j].id);
    }
    assert forall|i: int|
        0 <= i < s1.proposals.len() implies {
        let p = #[trigger] s1.proposals[i];
        &&& p.yes_votes == tally(s1.votes, p.id, VoteChoice::Yes)
        &&& p.no_votes == tally(s1.votes, p.id, VoteChoice::No)
        &&& p.total_votes == tally_all(s1.votes, p.id)
    } by {
        lemma_tally_push(s0.votes, vv, s1.proposals[i].id, VoteChoice::Yes);
        lemma_tally_push(s0.votes, vv, s1.proposals[i].id, VoteChoice::No);
        if i != k {
            assert(s0.proposals[i].id != pid);
            assert(s1.proposals[i] == s0.proposals[i]);
        }
    }
    assert forall|i: int, j: int|
        0 <= i < j < s1.votes.len() implies !((#[trigger] s1.votes[i]).proposal_id
        == (#[trigger] s1.votes[j]).proposal_id && s1.votes[i].voter == s1.votes[j].voter) by {
        if j < s0.votes.len() {
            assert(s1.votes[i] == s0.votes[i] && s1.votes[j] == s0.votes[j]);
        } else {
            assert(s1.votes[j] == vv);
            assert(s1.votes[i] == s0.votes[i]);
            assert(!(s0.votes[i].proposal_id == vv.proposal_id && s0.votes[i].voter == vv.voter));
        }
    }
    assert forall|i: int|
        0 <= i < s1.votes.len() implies has_proposal(
        s1.proposals,
        (#[trigger] s1.votes[i]).proposal_id,
    ) by {
        if i < s0.votes.len() {
            assert(has_proposal(s0.proposals, s0.votes[i].proposal_id));
            let w = choose|m: int|
                0 <= m < s0.proposals.len() && (#[trigger] s0.proposals[m]).id
                    == s0.votes[i].proposal_id;
            assert(s1.proposals[w].id == s1.votes[i].proposal_id);
        } else {
            assert(s1.proposals[k].id == pid);
        }
    }
    lemma_store_voter_props(s0.voters, nv);
    assert forall|i: int|
        0 <= i < s1.voters.len() implies {
        let v = #[trigger] s1.voters[i];
        &&& 0 <= v.stake_amount
        &&& v.voting_power == v.stake_amount
        &&& 0 <= v.equity_score <= 100
        &&& 0 <= v.total_votes_cast
    } by {
        assert(s1.voters[i] == nv || (0 <= i < s0.voters.len() && s1.voters[i] == s0.voters[i]
            && s0.voters[i].address != nv.address));
    }
}

impl Governance {
    /// Create the governance contract with its principals and the
    /// minimum proposal duration; quorum starts at 10 percent and
    /// the equity boost multiplier at 150.
    pub fn initialize(
        admin: Vec<u8>,
        oracle: Vec<u8>,
        loan_pool: Vec<u8>,
        min_proposal_duration: u64,
    ) -> (g: Governance)
        ensures
            g@.wf(),
            g@.admin == admin@,
            g@.oracle == oracle@,
            g@.loan_pool == loan_pool@,
            g@.proposals == Seq::<ProposalView>::empty(),
            g@.votes == Seq::<VoteView>::empty(),
            g@.voters == Seq::<VoterDataView>::empty(),
            g@.min_proposal_duration == min_proposal_duration as int,
            g@.quorum_threshold == 10,
            g@.equity_boost_multiplier == 150,
    {
        let g = Governance {
            admin,
            oracle,
            loan_pool,
            proposals: Vec::new(),
            votes: Vec::new(),
            voters: Vec::new(),
            min_proposal_duration,
            quorum_threshold: 10,
            equity_boost_multiplier: 150,
        };
        proof {
            assert(g@.proposals =~= Seq::<ProposalView>::empty());
            assert(g@.votes =~= Seq::<VoteView>::empty());
            assert(g@.voters =~= Seq::<VoterDataView>::empty());
        }
        g
    }

    /// Create a proposal: it runs from now for the given duration,
    /// starts `Active` with zero tallies, and is stored under its
    /// digest-derived id. The equity boost threshold starts at 70.
    pub fn create_proposal(
        &mut self,
        proposer: &Vec<u8>,
        title: &Vec<u8>,
        description: Vec<u8>,
        proposal_type: Vec<u8>,
        target_asset: Option<Vec<u8>>,
        amount: Option<i128>,
        duration: u64,
        now: u64,
    ) -> (r: Result<Vec<u8>, Error>)
        requires
            old(self)@.wf(),
            now + duration <= u64::MAX,
        ensures
            final(self)@.wf(),
            final(self)@.admin == old(self)@.admin,
            final(self)@.oracle == old(self)@.oracle,
            final(self)@.loan_pool == old(self)@.loan_pool,
            final(self)@.votes == old(self)@.votes,
            final(self)@.voters == old(self)@.voters,
            final(self)@.min_proposal_duration == old(self)@.min_proposal_duration,
            final(self)@.quorum_threshold == old(self)@.quorum_threshold,
            final(self)@.equity_boost_multiplier == old(self)@.equity_boost_multiplier,
            r is Ok <==> (duration >= old(self)@.min_proposal_duration && !has_proposal(
                old(self)@.proposals,
                spec_proposal_id(proposer@, title@, now as nat),
            )),
            match r {
                Ok(id) => ({
                    &&& id@ == spec_proposal_id(proposer@, title@, now as nat)
                    &&& final(self)@.proposals == old(self)@.proposals.push(
                        ProposalView {
                            id: spec_proposal_id(proposer@, title@, now as nat),
                            title: title@,
                            description: description@,
                            proposer: proposer@,
                            proposal_type: proposal_type@,
                            target_asset: match target_asset {
                                Option::Some(v) => Option::Some(v@),
                                Option::None => Option::None,
                            },
                            amount: match amount {
                                Option::Some(a) => Option::Some(a as int),
                                Option::None => Option::None,
                            },
                            start_time: now as int,
                            end_time: now + duration,
                            status: ProposalStatus::Active,
                            yes_votes: 0,
                            no_votes: 0,
                            total_votes: 0,
                            equity_boost_threshold: 70,
                        },
                    )
                }),
                Err(e) => {
                    &&& final(self)@ == old(self)@
                    &&& (e == Error::DURATION_TOO_SHORT <==> duration < old(
                        self,
                    )@.min_proposal_duration)
                    &&& (e == Error::PROPOSAL_EXISTS <==> duration >= old(
                        self,
                    )@.min_proposal_duration && has_proposal(
                        old(self)@.proposals,
                        spec_proposal_id(proposer@, title@, now as nat),
                    ))
                },
            },
    {
        if duration < self.min_proposal_duration {
            return Err(Error::DURATION_TOO_SHORT);
        }
        let proposal_id = generate_proposal_id(proposer, title, now);
        if let Some(_k) = find_proposal_index(&self.proposals, &proposal_id) {
            proof {
                assert(has_proposal(self@.proposals, proposal_id@));
            }
            return Err(Error::PROPOSAL_EXISTS);
        }
        let ghost s0 = self@;
        let end_time = now + duration;
        let proposal = Proposal {
            id: proposal_id.clone(),
            title: title.clone(),
            description,
            proposal_type,
            proposer: proposer.clone(),
            target_asset,
            amount,
            start_time: now,
            end_time,
            status: ProposalStatus::Active,
            yes_votes: 0,
            no_votes: 0,
            total_votes: 0,
            equity_boost_threshold: 70,
        };
        let ghost pv = proposal@;
        self.proposals.push(proposal);
        proof {
            assert(self@.proposals =~~= s0.proposals.push(pv));
            assert forall|i: int|
                0 <= i < s0.votes.len() implies (#[trigger] s0.votes[i]).proposal_id != pv.id by {
                assert(has_proposal(s0.proposals, s0.votes[i].proposal_id));
            }
            lemma_votes_absent(s0.votes, pv.id);
            assert forall|i: int|
                0 <= i < self@.proposals.len() implies {
                let p = #[trigger] self@.proposals[i];
                &&& p.yes_votes == tally(self@.votes, p.id, VoteChoice::Yes)
                &&& p.no_votes == tally(self@.votes, p.id, VoteChoice::No)
                &&& p.total_votes == tally_all(self@.votes, p.id)
            } by {
                if i < s0.proposals.len() {
                    assert(s0.proposals[i].yes_votes == tally(
                        s0.votes,
                        s0.proposals[i].id,
                        VoteChoice::Yes,
                    ));
                }
            }
            assert forall|i: int|
                0 <= i < self@.votes.len() implies has_proposal(
                self@.proposals,
                (#[trigger] self@.votes[i]).proposal_id,
            ) by {
                assert(has_proposal(s0.proposals, s0.votes[i].proposal_id));
                let w = choose|m: int|
                    0 <= m < s0.proposals.len() && (#[trigger] s0.proposals[m]).id
                        == s0.votes[i].proposal_id;
                assert(self@.proposals[w].id == self@.votes[i].proposal_id);
            }
        }
        Ok(proposal_id)
    }

    /// Oracle only: set a voter's stake and equity score; the cached
    /// voting power is recomputed, ballot statistics are kept.
    pub fn update_voter_data(
        &mut self,
        caller: &Vec<u8>,
        voter: &Vec<u8>,
        stake_amount: i128,
        equity_score: i32,
    ) -> (r: Result<(), Error>)
        requires
            old(self)@.wf(),
            0 <= stake_amount,
            0 <= equity_score <= 100,
        ensures
            final(self)@.wf(),
            final(self)@.admin == old(self)@.admin,
            final(self)@.oracle == old(self)@.oracle,
            final(self)@.loan_pool == old(self)@.loan_pool,
            final(self)@.proposals == old(self)@.proposals,
            final(self)@.votes == old(self)@.votes,
            final(self)@.min_proposal_duration == old(self)@.min_proposal_duration,
            final(self)@.quorum_threshold == old(self)@.quorum_threshold,
            final(self)@.equity_boost_multiplier == old(self)@.equity_boost_multiplier,
            r is Ok <==> caller@ == old(self)@.oracle,
            match r {
                Ok(()) => final(self)@.voters == store_voter(
                    old(self)@.voters,
                    VoterDataView {
                        address: voter@,
                        stake_amount: stake_amount as int,
                        equity_score: equity_score as int,
                        voting_power: stake_amount as int,
                        last_vote_time: voter_or_default(old(self)@.voters, voter@).last_vote_time,
                        total_votes_cast: voter_or_default(
                            old(self)@.voters,
                            voter@,
                        ).total_votes_cast,
                    },
                ),
                Err(e) => final(self)@ == old(self)@ && e == Error::UNAUTHORIZED && caller@
                    != old(self)@.oracle,
            },
    {
        if !bytes_eq(caller, &self.oracle) {
            return Err(Error::UNAUTHORIZED);
        }
        let ghost s0 = self@;
        let mut vd: VoterData = match find_voter_index(&self.voters, voter) {
            Some(vk) => {
                proof {
                    lemma_voter_at(s0.voters, voter@, vk as int);
                }
                self.voters[vk].clone()
            },
            None => VoterData {
                address: voter.clone(),
                stake_amount: 0,
                equity_score: 0,
                voting_power: 0,
                last_vote_time: 0,
                total_votes_cast: 0,
            },
        };
        vd.stake_amount = stake_amount;
        vd.equity_score = equity_score;
        vd.voting_power = stake_amount;
        proof {
            assert(vd@ =~~= VoterDataView {
                address: voter@,
                stake_amount: stake_amount as int,
                equity_score: equity_score as int,
                voting_power: stake_amount as int,
                last_vote_time: voter_or_default(s0.voters, voter@).last_vote_time,
                total_votes_cast: voter_or_default(s0.voters, voter@).total_votes_cast,
            });
        }
        let ghost nv = vd@;
        set_voter(&mut self.voters, vd);
        proof {
            lemma_store_voter_props(s0.voters, nv);
            assert forall|i: int|
                0 <= i < self@.voters.len() implies {
                let v = #[trigger] self@.voters[i];
                &&& 0 <= v.stake_amount
                &&& v.voting_power == v.stake_amount
                &&& 0 <= v.equity_score <= 100
                &&& 0 <= v.total_votes_cast
            } by {
                assert(self@.voters[i] == nv || (0 <= i < s0.voters.len() && self@.voters[i]
                    == s0.voters[i] && s0.voters[i].address != nv.address));
            }
        }
        Ok(())
    }

    /// Cast a ballot: the voter's stake gives the raw power, the
    /// equity boost applies at or above the proposal's threshold,
    /// and the weighted ballot joins the proposal's tallies. Returns
    /// the ballot's full weight.
    pub fn vote(
        &mut self,
        voter: &Vec<u8>,
        proposal_id: &Vec<u8>,
        vote_choice: VoteChoice,
        now: u64,
    ) -> (r: Result<i128, Error>)
        requires
            old(self)@.wf(),
            (has_proposal(old(self)@.proposals, proposal_id@) && proposal_at(
                old(self)@.proposals,
                proposal_id@,
            ).status == ProposalStatus::Active && now <= proposal_at(
                old(self)@.proposals,
                proposal_id@,
            ).end_time && !has_voted(old(self)@.votes, proposal_id@, voter@)) ==> vote_fits(
                old(self)@,
                proposal_id@,
                voter@,
            ),
        ensures
            final(self)@.wf(),
            final(self)@.admin == old(self)@.admin,
            final(self)@.oracle == old(self)@.oracle,
            final(self)@.loan_pool == old(self)@.loan_pool,
            final(self)@.min_proposal_duration == old(self)@.min_proposal_duration,
            final(self)@.quorum_threshold == old(self)@.quorum_threshold,
            final(self)@.equity_boost_multiplier == old(self)@.equity_boost_multiplier,
            r is Ok <==> (has_proposal(old(self)@.proposals, proposal_id@) && proposal_at(
                old(self)@.proposals,
                proposal_id@,
            ).status == ProposalStatus::Active && now <= proposal_at(
                old(self)@.proposals,
                proposal_id@,
            ).end_time && !has_voted(old(self)@.votes, proposal_id@, voter@)),
            match r {
                Ok(tp) => ({
                    let s = old(self)@;
                    let p = proposal_at(s.proposals, proposal_id@);
                    let k = proposal_index(s.proposals, proposal_id@);
                    let vd = voter_or_default(s.voters, voter@);
                    let boost = spec_equity_boost(vd, p, s.equity_boost_multiplier);
                    &&& tp as int == spec_total_power(vd, p, s.equity_boost_multiplier)
                    &&& final(self)@.votes == s.votes.push(
                        VoteView {
                            voter: voter@,
                            proposal_id: proposal_id@,
                            vote: vote_choice,
                            voting_power: vd.stake_amount,
                            equity_boost: boost,
                            total_power: tp as int,
                            equity_score: vd.equity_score,
                            timestamp: now as int,
                        },
                    )
                    &&& final(self)@.proposals == s.proposals.update(
                        k,
                        spec_apply_vote(p, vote_choice, tp as int),
                    )
                    &&& final(self)@.voters == store_voter(
                        s.voters,
                        VoterDataView {
                            last_vote_time: now as int,
                            total_votes_cast: vd.total_votes_cast + 1,
                            ..vd
                        },
                    )
                }),
                Err(e) => {
                    &&& final(self)@ == old(self)@
                    &&& (e == Error::PROPOSAL_NOT_FOUND <==> !has_proposal(
                        old(self)@.proposals,
                        proposal_id@,
                    ))
                    &&& (e == Error::PROPOSAL_NOT_ACTIVE <==> has_proposal(
                        old(self)@.proposals,
                        proposal_id@,
                    ) && proposal_at(old(self)@.proposals, proposal_id@).status
                        != ProposalStatus::Active)
                    &&& (e == Error::VOTING_ENDED <==> has_proposal(
                        old(self)@.proposals,
                        proposal_id@,
                    ) && proposal_at(old(self)@.proposals, proposal_id@).status
                        == ProposalStatus::Active && now > proposal_at(
                        old(self)@.proposals,
                        proposal_id@,
                    ).end_time)
                    &&& (e == Error::ALREADY_VOTED <==> has_proposal(
                        old(self)@.proposals,
                        proposal_id@,
                    ) && proposal_at(old(self)@.proposals, proposal_id@).status
                        == ProposalStatus::Active && now <= proposal_at(
                        old(self)@.proposals,
                        proposal_id@,
                    ).end_time && has_voted(old(self)@.votes, proposal_id@, voter@))
                },
            },
    {
        let k = match find_proposal_index(&self.proposals, proposal_id) {
            None => {
                return Err(Error::PROPOSAL_NOT_FOUND);
            },
            Some(k) => k,
        };
        proof {
            lemma_proposal_at(self@.proposals, proposal_id@, k as int);
        }
        if !matches!(self.proposals[k].status, ProposalStatus::Active) {
            return Err(Error::PROPOSAL_NOT_ACTIVE);
        }
        if now > self.proposals[k].end_time {
            return Err(Error::VOTING_ENDED);
        }
        if exists_vote(&self.votes, proposal_id, voter) {
            return Err(Error::ALREADY_VOTED);
        }
        let ghost s0 = self@;
        let vd: VoterData = match find_voter_index(&self.voters, voter) {
            Some(vk) => {
                proof {
                    lemma_voter_at(s0.voters, voter@, vk as int);
                }
                self.voters[vk].clone()
            },
            None => VoterData {
                address: voter.clone(),
                stake_amount: 0,
                equity_score: 0,
                voting_power: 0,
                last_vote_time: 0,
                total_votes_cast: 0,
            },
        };
        proof {
            assert(vd@ =~~= voter_or_default(s0.voters, voter@));
        }
        let voting_power = vd.stake_amount;
        let pct = self.equity_boost_multiplier - 100;
        let equity_boost: i128 = if vd.equity_score >= self.proposals[k].equity_boost_threshold {
            proof {
                lemma_mul_nonnegative(vd@.voting_power, pct as int);
            }
            div_i128(vd.voting_power * (pct as i128), 100)
        } else {
            0
        };
        proof {
            if vd@.equity_score >= s0.proposals[k as int].equity_boost_threshold {
                lemma_div_pos_is_pos(vd@.voting_power * (pct as int), 100);
            }
        }
        let total_power = voting_power + equity_boost;
        let vote_rec = Vote {
            voter: voter.clone(),
            proposal_id: proposal_id.clone(),
            vote: vote_choice,
            voting_power,
            equity_boost,
            total_power,
            equity_score: vd.equity_score,
            timestamp: now,
        };
        let ghost vv = vote_rec@;
        self.votes.push(vote_rec);
        proof {
            assert(self@.votes =~~= s0.votes.push(vv));
        }
        let mut p = self.proposals[k].clone();
        match vote_choice {
            VoteChoice::Yes => {
                p.yes_votes = p.yes_votes + total_power;
            },
            VoteChoice::No => {
                p.no_votes = p.no_votes + total_power;
            },
            VoteChoice::Abstain => {},
        }
        p.total_votes = p.total_votes + total_power;
        proof {
            assert(p@ =~~= spec_apply_vote(s0.proposals[k as int], vote_choice, vv.total_power));
        }
        self.proposals[k] = p;
        let mut nvd = vd;
        nvd.last_vote_time = now;
        nvd.total_votes_cast = nvd.total_votes_cast + 1;
        let ghost nv = nvd@;
        set_voter(&mut self.voters, nvd);
        proof {
            assert(self@.proposals =~~= s0.proposals.update(
                k as int,
                spec_apply_vote(s0.proposals[k as int], vote_choice, vv.total_power),
            ));
            lemma_vote_preserves_wf(s0, self@, k as int, vv, nv);
            lemma_proposal_at(self@.proposals, proposal_id@, k as int);
        }
        Ok(total_power)
    }

    /// After the voting window: fail the proposal below quorum, else
    /// pass it exactly on a strict yes majority. Returns the
    /// outcome.
    pub fn finalize_proposal(&mut self, proposal_id: &Vec<u8>, now: u64) -> (r: Result<
        ProposalStatus,
        Error,
    >)
        requires
            old(self)@.wf(),
            (has_proposal(old(self)@.proposals, proposal_id@) && proposal_at(
                old(self)@.proposals,
                proposal_id@,
            ).status == ProposalStatus::Active && now > proposal_at(
                old(self)@.proposals,
                proposal_id@,
            ).end_time) ==> finalize_fits(old(self)@, proposal_id@),
        ensures
            final(self)@.wf(),
            final(self)@.admin == old(self)@.admin,
            final(self)@.oracle == old(self)@.oracle,
            final(self)@.loan_pool == old(self)@.loan_pool,
            final(self)@.votes == old(self)@.votes,
            final(self)@.voters == old(self)@.voters,
            final(self)@.min_proposal_duration == old(self)@.min_proposal_duration,
            final(self)@.quorum_threshold == old(self)@.quorum_threshold,
            final(self)@.equity_boost_multiplier == old(self)@.equity_boost_multiplier,
            r is Ok <==> (has_proposal(old(self)@.proposals, proposal_id@) && proposal_at(
                old(self)@.proposals,
                proposal_id@,
            ).status == ProposalStatus::Active && now > proposal_at(
                old(self)@.proposals,
                proposal_id@,
            ).end_time),
            match r {
                Ok(outcome) => ({
                    let s = old(self)@;
                    let p = proposal_at(s.proposals, proposal_id@);
                    let k = proposal_index(s.proposals, proposal_id@);
                    &&& outcome == spec_finalize_outcome(
                        p,
                        sum_voting_power(s.voters),
                        s.quorum_threshold,
                    )
                    &&& final(self)@.proposals == s.proposals.update(
                        k,
                        ProposalView { status: outcome, ..p },
                    )
                }),
                Err(e) => {
                    &&& final(self)@ == old(self)@
                    &&& (e == Error::PROPOSAL_NOT_FOUND <==> !has_proposal(
                        old(self)@.proposals,
                        proposal_id@,
                    ))
                    &&& (e == Error::PROPOSAL_NOT_ACTIVE <==> has_proposal(
                        old(self)@.proposals,
                        proposal_id@,
                    ) && proposal_at(old(self)@.proposals, proposal_id@).status
                        != ProposalStatus::Active)
                    &&& (e == Error::VOTING_NOT_ENDED <==> has_proposal(
                        old(self)@.proposals,
                        proposal_id@,
                    ) && proposal_at(old(self)@.proposals, proposal_id@).status
                        == ProposalStatus::Active && now <= proposal_at(
                        old(self)@.proposals,
                        proposal_id@,
                    ).end_time)
                },
            },
    {
        let k = match find_proposal_index(&self.proposals, proposal_id) {
            None => {
                return Err(Error::PROPOSAL_NOT_FOUND);
            },
            Some(k) => k,
        };
        proof {
            lemma_proposal_at(self@.proposals, proposal_id@, k as int);
        }
        if !matches!(self.proposals[k].status, ProposalStatus::Active) {
            return Err(Error::PROPOSAL_NOT_ACTIVE);
        }
        if now <= self.proposals[k].end_time {
            return Err(Error::VOTING_NOT_ENDED);
        }
        let ghost s0 = self@;
        let mut total_possible: i128 = 0;
        let mut i: usize = 0;
        while i < self.voters.len()
            invariant
                0 <= i <= self.voters.len(),
                self@.wf(),
                self@ == s0,
                self@.voters.len() == self.voters.len(),
                sum_voting_power(self@.voters) <= i128::MAX,
                total_possible as int == sum_voting_power(self@.voters.subrange(0, i as int)),
            decreases self.voters.len() - i,
        {
            let ghost pre = self@.voters.subrange(0, i as int);
            let ghost cur = self@.voters.subrange(0, i + 1);
            proof {
                assert(cur.drop_last() =~= pre);
                assert(cur.last() == self@.voters[i as int]);
                lemma_sum_voting_power_prefix(self@.voters, i + 1);
                lemma_sum_voting_power_nonneg(pre);
            }
            total_possible = total_possible + self.voters[i].voting_power;
            i = i + 1;
        }
        proof {
            assert(self@.voters.subrange(0, self@.voters.len() as int) =~= self@.voters);
        }
        let total_votes = self.proposals[k].total_votes;
        proof {
            lemma_tally_nonneg(s0.votes, s0.proposals[k as int].id, VoteChoice::Yes);
            lemma_mul_nonnegative(total_votes as int, 100);
        }
        let participation_rate: i128 = if total_possible > 0 {
            div_i128(total_votes * 100, total_possible)
        } else {
            0
        };
        let outcome: ProposalStatus = if participation_rate < self.quorum_threshold as i128 {
            ProposalStatus::Failed
        } else if self.proposals[k].yes_votes > self.proposals[k].no_votes {
            ProposalStatus::Passed
        } else {
            ProposalStatus::Failed
        };
        proof {
            assert(outcome == spec_finalize_outcome(
                s0.proposals[k as int],
                sum_voting_power(s0.voters),
                s0.quorum_threshold,
            ));
        }
        let mut p = self.proposals[k].clone();
        p.status = outcome;
        proof {
            assert(p@ =~~= ProposalView { status: outcome, ..s0.proposals[k as int] });
        }
        self.proposals[k] = p;
        proof {
            assert(self@.proposals =~= s0.proposals.update(k as int, self@.proposals[k as int]));
            lemma_proposal_rewrite_preserves_wf(s0, self@, k as int);
        }
        Ok(outcome)
    }

    /// Admin only: execute a passed proposal of a recognised type.
    /// The side effects on other contracts are outside this core;
    /// the proposal is marked `Executed`.
    pub fn execute_proposal(&mut self, caller: &Vec<u8>, proposal_id: &Vec<u8>) -> (r: Result<
        (),
        Error,
    >)
        requires
            old(self)@.wf(),
        ensures
            final(self)@.wf(),
            final(self)@.admin == old(self)@.admin,
            final(self)@.oracle == old(self)@.oracle,
            final(self)@.loan_pool == old(self)@.loan_pool,
            final(self)@.votes == old(self)@.votes,
            final(self)@.voters == old(self)@.voters,
            final(self)@.min_proposal_duration == old(self)@.min_proposal_duration,
            final(self)@.quorum_threshold == old(self)@.quorum_threshold,
            final(self)@.equity_boost_multiplier == old(self)@.equity_boost_multiplier,
            r is Ok <==> (caller@ == old(self)@.admin && has_proposal(
                old(self)@.proposals,
                proposal_id@,
            ) && proposal_at(old(self)@.proposals, proposal_id@).status == ProposalStatus::Passed
                && is_known_proposal_type(
                proposal_at(old(self)@.proposals, proposal_id@).proposal_type,
            )),
            match r {
                Ok(()) => final(self)@.proposals == old(self)@.proposals.update(
                    proposal_index(old(self)@.proposals, proposal_id@),
                    ProposalView {
                        status: ProposalStatus::Executed,
                        ..proposal_at(old(self)@.proposals, proposal_id@)
                    },
                ),
                Err(e) => {
                    &&& final(self)@ == old(self)@
                    &&& (e == Error::UNAUTHORIZED <==> caller@ != old(self)@.admin)
                    &&& (e == Error::PROPOSAL_NOT_FOUND <==> caller@ == old(self)@.admin
                        && !has_proposal(old(self)@.proposals, proposal_id@))
                    &&& (e == Error::PROPOSAL_NOT_PASSED <==> caller@ == old(self)@.admin
                        && has_proposal(old(self)@.proposals, proposal_id@) && proposal_at(
                        old(self)@.proposals,
                        proposal_id@,
                    ).status != ProposalStatus::Passed)
                    &&& (e == Error::UNKNOWN_PROPOSAL_TYPE <==> caller@ == old(self)@.admin
                        && has_proposal(old(self)@.proposals, proposal_id@) && proposal_at(
                        old(self)@.proposals,
                        proposal_id@,
                    ).status == ProposalStatus::Passed && !is_known_proposal_type(
                        proposal_at(old(self)@.proposals, proposal_id@).proposal_type,
                    ))
                },
            },
    {
        if !bytes_eq(caller, &self.admin) {
            return Err(Error::UNAUTHORIZED);
        }
        let k = match find_proposal_index(&self.proposals, proposal_id) {
            None => {
                return Err(Error::PROPOSAL_NOT_FOUND);
            },
            Some(k) => k,
        };
        proof {
            lemma_proposal_at(self@.proposals, proposal_id@, k as int);
        }
        if !matches!(self.proposals[k].status, ProposalStatus::Passed) {
            return Err(Error::PROPOSAL_NOT_PASSED);
        }
        let funding = asset_funding_needle();
        let rate = rate_adjustment_needle();
        let policy = policy_change_needle();
        let known = bytes_eq(&self.proposals[k].proposal_type, &funding) || bytes_eq(
            &self.proposals[k].proposal_type,
            &rate,
        ) || bytes_eq(&self.proposals[k].proposal_type, &policy);
        if !known {
            return Err(Error::UNKNOWN_PROPOSAL_TYPE);
        }
        let ghost s0 = self@;
        let mut p = self.proposals[k].clone();
        p.status = ProposalStatus::Executed;
        proof {
            assert(p@ =~~= ProposalView {
                status: ProposalStatus::Executed,
                ..s0.proposals[k as int]
            });
        }
        self.proposals[k] = p;
        proof {
            assert(self@.proposals =~= s0.proposals.update(k as int, self@.proposals[k as int]));
            lemma_proposal_rewrite_preserves_wf(s0, self@, k as int);
        }
        Ok(())
    }

    /// The proposal under the id, or `PROPOSAL_NOT_FOUND`.
    pub fn get_proposal(&self, proposal_id: &Vec<u8>) -> (r: Result<Proposal, Error>)
        requires
            self@.wf(),
        ensures
            match r {
                Ok(p) => has_proposal(self@.proposals, proposal_id@) && p@ == proposal_at(
                    self@.proposals,
                    proposal_id@,
                ),
                Err(e) => e == Error::PROPOSAL_NOT_FOUND && !has_proposal(
                    self@.proposals,
                    proposal_id@,
                ),
            },
    {
        match find_proposal_index(&self.proposals, proposal_id) {
            None => Err(Error::PROPOSAL_NOT_FOUND),
            Some(k) => {
                proof {
                    lemma_proposal_at(self@.proposals, proposal_id@, k as int);
                }
                Ok(self.proposals[k].clone())
            },
        }
    }

    /// The ballots on one proposal, in record order.
    pub fn get_proposal_votes(&self, proposal_id: &Vec<u8>) -> (r: Vec<Vote>)
        ensures
            r.deep_view() == votes_for(self@.votes, proposal_id@),
    {
        let mut r: Vec<Vote> = Vec::new();
        let mut i: usize = 0;
        while i < self.votes.len()
            invariant
                0 <= i <= self.votes.len(),
                r.deep_view() == votes_for(self@.votes.subrange(0, i as int), proposal_id@),
            decreases self.votes.len() - i,
        {
            let ghost rd0 = r.deep_view();
            let ghost pre = self@.votes.subrange(0, i as int);
            let ghost cur = self@.votes.subrange(0, i + 1);
            if bytes_eq(&self.votes[i].proposal_id, proposal_id) {
                let ghost r0 = r@;
                r.push(self.votes[i].clone());
                proof {
                    assert forall|k: int| 0 <= k < r0.len() implies r.deep_view()[k] == rd0[k] by {
                        assert(r@[k] == r0[k]);
                        assert(rd0[k] == r0[k].deep_view());
                    }
                }
            }
            proof {
                assert(cur.drop_last() =~= pre);
                assert(cur.last() == self@.votes[i as int]);
                assert(r.deep_view() =~~= votes_for(cur, proposal_id@));
            }
            i = i + 1;
        }
        proof {
            assert(self@.votes.subrange(0, self@.votes.len() as int) =~= self@.votes);
        }
        r
    }

    /// The voter record for the address, or `VOTER_NOT_FOUND`.
    pub fn get_voter_data(&self, voter: &Vec<u8>) -> (r: Result<VoterData, Error>)
        requires
            self@.wf(),
        ensures
            match r {
                Ok(v) => has_voter(self@.voters, voter@) && v@ == voter_at(self@.voters, voter@),
                Err(e) => e == Error::VOTER_NOT_FOUND && !has_voter(self@.voters, voter@),
            },
    {
        match find_voter_index(&self.voters, voter) {
            None => Err(Error::VOTER_NOT_FOUND),
            Some(k) => {
                proof {
                    lemma_voter_at(self@.voters, voter@, k as int);
                }
                Ok(self.voters[k].clone())
            },
        }
    }

    /// Every proposal still in `Active` status, in store order.
    pub fn get_active_proposals(&self) -> (r: Vec<Proposal>)
        ensures
            r.deep_view() == active_proposals(self@.proposals),
    {
        let mut r: Vec<Proposal> = Vec::new();
        let mut i: usize = 0;
        while i < self.proposals.len()
            invariant
                0 <= i <= self.proposals.len(),
                r.deep_view() == active_proposals(self@.proposals.subrange(0, i as int)),
            decreases self.proposals.len() - i,
        {
            let ghost rd0 = r.deep_view();
            let ghost pre = self@.proposals.subrange(0, i as int);
            let ghost cur = self@.proposals.subrange(0, i + 1);
            if matches!(self.proposals[i].status, ProposalStatus::Active) {
                let ghost r0 = r@;
                r.push(self.proposals[i].clone());
                proof {
                    assert forall|k: int| 0 <= k < r0.len() implies r.deep_view()[k] == rd0[k] by {
                        assert(r@[k] == r0[k]);
                        assert(rd0[k] == r0[k].deep_view());
                    }
                }
            }
            proof {
                assert(cur.drop_last() =~= pre);
                assert(cur.last() == self@.proposals[i as int]);
                assert(r.deep_view() =~~= active_proposals(cur));
            }
            i = i + 1;
        }
        proof {
            assert(self@.proposals.subrange(0, self@.proposals.len() as int) =~= self@.proposals);
        }
        r
    }

    /// Counts of all, active and passed proposals, and of known
    /// voters.
    pub fn get_stats(&self) -> (r: (i32, i32, i32, i32))
        requires
            self@.proposals.len() <= i32::MAX,
            self@.voters.len() <= i32::MAX,
        ensures
            r.0 as int == self@.proposals.len(),
            r.1 as int == count_proposals(self@.proposals, ProposalStatus::Active),
            r.2 as int == count_proposals(self@.proposals, ProposalStatus::Passed),
            r.3 as int == self@.voters.len(),
    {
        let mut active: i32 = 0;
        let mut passed: i32 = 0;
        let mut i: usize = 0;
        while i < self.proposals.len()
            invariant
                0 <= i <= self.proposals.len(),
                self@.proposals.len() == self.proposals.len(),
                0 <= active <= i,
                0 <= passed <= i,
                self.proposals.len() <= i32::MAX,
                active as int == count_proposals(
                    self@.proposals.subrange(0, i as int),
                    ProposalStatus::Active,
                ),
                passed as int == count_proposals(
                    self@.proposals.subrange(0, i as int),
                    ProposalStatus::Passed,
                ),
            decreases self.proposals.len() - i,
        {
            let ghost pre = self@.proposals.subrange(0, i as int);
            let ghost cur = self@.proposals.subrange(0, i + 1);
            match self.proposals[i].status {
                ProposalStatus::Active => {
                    active = active + 1;
                },
                ProposalStatus::Passed => {
                    passed = passed + 1;
                },
                _ => {},
            }
            proof {
                assert(cur.drop_last() =~= pre);
                assert(cur.last() == self@.proposals[i as int]);
            }
            i = i + 1;
        }
        proof {
            assert(self@.proposals.subrange(0, self@.proposals.len() as int) =~= self@.proposals);
        }
        (self.proposals.len() as i32, active, passed, self.voters.len() as i32)
    }
}

/// The proposals in `Active` status, in store order.
pub open spec fn active_proposals(s: Seq<ProposalView>) -> Seq<ProposalView>
    decreases s.len(),
{
    if s.len() == 0 {
        Seq::<ProposalView>::empty()
    } else {
        active_proposals(s.drop_last()) + if s.last().status == ProposalStatus::Active {
            seq![s.last()]
        } else {
            Seq::<ProposalView>::empty()
        }
    }
}

/// How many proposals are in the given status.
pub open spec fn count_proposals(s: Seq<ProposalView>, st: ProposalStatus) -> int
    decreases s.len(),
{
    if s.len() == 0 {
        0
    } else {
        count_proposals(s.drop_last(), st) + if s.last().status == st {
            1int
        } else {
            0int
        }
    }
}

proof fn lemma_sum_voting_power_nonneg(s: Seq<VoterDataView>)
    requires
        forall|i: int| 0 <= i < s.len() ==> 0 <= (#[trigger] s[i]).voting_power,
    ensures
        0 <= sum_voting_power(s),
    decreases s.len(),
{
    if s.len() > 0 {
        lemma_sum_voting_power_nonneg(s.drop_last());
    }
}

proof fn lemma_sum_voting_power_prefix(s: Seq<VoterDataView>, i: int)
    requires
        forall|j: int| 0 <= j < s.len() ==> 0 <= (#[trigger] s[j]).voting_power,
        0 <= i <= s.len(),
    ensures
        sum_voting_power(s.subrange(0, i)) <= sum_voting_power(s),
    decreases s.len() - i,
{
    if i == s.len() {
        assert(s.subrange(0, i) =~= s);
    } else {
        lemma_sum_voting_power_prefix(s, i + 1);
        let a = s.subrange(0, i);
        let b = s.subrange(0, i + 1);
        assert(b.drop_last() =~= a);
        assert(b.last() == s[i]);
    }
}

/// Rewriting one proposal in place, with id and tallies unchanged,
/// keeps the governance state well-formed.
proof fn lemma_proposal_rewrite_preserves_wf(s0: GovernanceView, s1: GovernanceView, k: int)
    requires
        s0.wf(),
        0 <= k < s0.proposals.len(),
        s1.proposals == s0.proposals.update(k, s1.proposals[k]),
        s1.proposals[k].id == s0.proposals[k].id,
        s1.proposals[k].yes_votes == s0.proposals[k].yes_votes,
        s1.proposals[k].no_votes == s0.proposals[k].no_votes,
        s1.proposals[k].total_votes == s0.proposals[k].total_votes,
        s1.votes == s0.votes,
        s1.voters == s0.voters,
        s1.quorum_threshold == s0.quorum_threshold,
        s1.equity_boost_multiplier == s0.equity_boost_multiplier,
    ensures
        s1.wf(),
{
    assert(s1.proposals.len() == s0.proposals.len());
    assert forall|i: int|
        0 <= i < s1.votes.len() implies has_proposal(
        s1.proposals,
        (#[trigger] s1.votes[i]).proposal_id,
    ) by {
        assert(has_proposal(s0.proposals, s0.votes[i].proposal_id));
        let w = choose|m: int|
            0 <= m < s0.proposals.len() && (#[trigger] s0.proposals[m]).id
                == s0.votes[i].proposal_id;
        assert(s1.proposals[w].id == s1.votes[i].proposal_id);
    }
}

} // verus!
