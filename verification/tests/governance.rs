use equity_mobility::governance::{Error, Governance, ProposalStatus, VoteChoice};

fn b(s: &str) -> Vec<u8> {
    s.as_bytes().to_vec()
}

fn new_gov(min_duration: u64) -> (Governance, Vec<u8>, Vec<u8>) {
    let admin = b("GADMIN_PRINCIPAL");
    let oracle = b("GORACLE_PRINCIPAL");
    let g = Governance::initialize(admin.clone(), oracle.clone(), b("GLOANPOOL_CONTRACT"), min_duration);
    (g, admin, oracle)
}

fn make_proposal(g: &mut Governance, proposer: &Vec<u8>, title: &str, now: u64) -> Vec<u8> {
    g.create_proposal(
        proposer,
        &b(title),
        b("a proposal description"),
        b("asset_funding"),
        Some(b("ebike_001")),
        Some(5000),
        1000,
        now,
    )
    .unwrap()
}

#[test]
fn test_governance_initialize() {
    let (g, admin, oracle) = new_gov(100);
    assert_eq!(g.admin, admin);
    assert_eq!(g.oracle, oracle);
    assert_eq!(g.min_proposal_duration, 100);
    assert_eq!(g.quorum_threshold, 10);
    assert_eq!(g.equity_boost_multiplier, 150);
}

#[test]
fn test_create_proposal_and_getters() {
    let (mut g, _, _) = new_gov(100);
    let proposer = b("GPROPOSER_PRINCIPAL");
    let id = make_proposal(&mut g, &proposer, "Fund downtown e-bikes", 50);

    let p = g.get_proposal(&id).unwrap();
    assert_eq!(p.id, id);
    assert_eq!(p.proposer, proposer);
    assert_eq!(p.proposal_type, b("asset_funding"));
    assert_eq!(p.target_asset, Some(b("ebike_001")));
    assert_eq!(p.amount, Some(5000));
    assert_eq!(p.start_time, 50);
    assert_eq!(p.end_time, 1050);
    assert_eq!(p.status, ProposalStatus::Active);
    assert_eq!(p.yes_votes, 0);
    assert_eq!(p.no_votes, 0);
    assert_eq!(p.total_votes, 0);
    assert_eq!(p.equity_boost_threshold, 70);

    assert_eq!(g.get_active_proposals().len(), 1);
    assert_eq!(g.get_proposal(&b("missing")).err(), Some(Error::PROPOSAL_NOT_FOUND));
}

#[test]
fn test_create_proposal_errors() {
    let (mut g, _, _) = new_gov(100);
    let proposer = b("GPROPOSER_PRINCIPAL");
    let r = g.create_proposal(&proposer, &b("Too quick"), b("d"), b("policy_change"), None, None, 99, 0);
    assert_eq!(r, Err(Error::DURATION_TOO_SHORT));

    // an identical proposer, title and timestamp hash to the same
    // id, so the duplicate is refused
    make_proposal(&mut g, &proposer, "Fund downtown e-bikes", 50);
    let r = g.create_proposal(
        &proposer,
        &b("Fund downtown e-bikes"),
        b("other description"),
        b("rate_adjustment"),
        None,
        None,
        2000,
        50,
    );
    assert_eq!(r, Err(Error::PROPOSAL_EXISTS));
}

#[test]
fn test_vote_tallying_with_boost() {
    // stake 100 and equity score 80 over threshold 70 at multiplier
    // 150: voting power 100, boost 50, total power 150
    let (mut g, _, oracle) = new_gov(100);
    let voter = b("GVOTER_PRINCIPAL");
    g.update_voter_data(&oracle, &voter, 100, 80).unwrap();

    let vd = g.get_voter_data(&voter).unwrap();
    assert_eq!(vd.stake_amount, 100);
    assert_eq!(vd.voting_power, 100);
    assert_eq!(vd.equity_score, 80);

    let id = make_proposal(&mut g, &b("GPROPOSER_PRINCIPAL"), "Boosted vote", 0);
    let total_power = g.vote(&voter, &id, VoteChoice::Yes, 10).unwrap();
    assert_eq!(total_power, 150);

    let p = g.get_proposal(&id).unwrap();
    assert_eq!(p.yes_votes, 150);
    assert_eq!(p.no_votes, 0);
    assert_eq!(p.total_votes, 150);

    let votes = g.get_proposal_votes(&id);
    assert_eq!(votes.len(), 1);
    assert_eq!(votes[0].voting_power, 100);
    assert_eq!(votes[0].equity_boost, 50);
    assert_eq!(votes[0].total_power, 150);
    assert_eq!(votes[0].vote, VoteChoice::Yes);
}

#[test]
fn test_vote_without_boost_and_abstain() {
    // a score below the threshold earns no boost; an abstention
    // counts toward the total but to neither bucket
    let (mut g, _, oracle) = new_gov(100);
    let yes_voter = b("GVOTER_ONE_PRINCIPAL");
    let abstainer = b("GVOTER_TWO_PRINCIPAL");
    g.update_voter_data(&oracle, &yes_voter, 100, 50).unwrap();
    g.update_voter_data(&oracle, &abstainer, 40, 50).unwrap();

    let id = make_proposal(&mut g, &b("GPROPOSER_PRINCIPAL"), "Plain votes", 0);
    assert_eq!(g.vote(&yes_voter, &id, VoteChoice::Yes, 1).unwrap(), 100);
    assert_eq!(g.vote(&abstainer, &id, VoteChoice::Abstain, 2).unwrap(), 40);

    let p = g.get_proposal(&id).unwrap();
    assert_eq!(p.yes_votes, 100);
    assert_eq!(p.no_votes, 0);
    assert_eq!(p.total_votes, 140);
    assert!(p.yes_votes + p.no_votes <= p.total_votes);
}

#[test]
fn test_vote_errors() {
    let (mut g, _, oracle) = new_gov(100);
    let voter = b("GVOTER_PRINCIPAL");
    g.update_voter_data(&oracle, &voter, 100, 80).unwrap();

    assert_eq!(g.vote(&voter, &b("missing"), VoteChoice::Yes, 1), Err(Error::PROPOSAL_NOT_FOUND));

    let id = make_proposal(&mut g, &b("GPROPOSER_PRINCIPAL"), "Error cases", 0);
    assert_eq!(g.vote(&voter, &id, VoteChoice::Yes, 2000), Err(Error::VOTING_ENDED));
    g.vote(&voter, &id, VoteChoice::Yes, 10).unwrap();
    assert_eq!(g.vote(&voter, &id, VoteChoice::No, 11), Err(Error::ALREADY_VOTED));

    g.finalize_proposal(&id, 1001).unwrap();
    assert_eq!(g.vote(&b("GVOTER_TWO_PRINCIPAL"), &id, VoteChoice::Yes, 1002), Err(Error::PROPOSAL_NOT_ACTIVE));
}

#[test]
fn test_finalize_with_quorum() {
    // one voter of power 100; one boosted yes ballot of weight 150;
    // participation 150 percent clears the 10 percent quorum and the
    // yes majority passes the proposal
    let (mut g, admin, oracle) = new_gov(100);
    let voter = b("GVOTER_PRINCIPAL");
    g.update_voter_data(&oracle, &voter, 100, 80).unwrap();

    let id = make_proposal(&mut g, &b("GPROPOSER_PRINCIPAL"), "Quorum pass", 0);
    g.vote(&voter, &id, VoteChoice::Yes, 10).unwrap();

    assert_eq!(g.finalize_proposal(&id, 500), Err(Error::VOTING_NOT_ENDED));
    let outcome = g.finalize_proposal(&id, 1001).unwrap();
    assert_eq!(outcome, ProposalStatus::Passed);
    assert_eq!(g.get_proposal(&id).unwrap().status, ProposalStatus::Passed);

    g.execute_proposal(&admin, &id).unwrap();
    assert_eq!(g.get_proposal(&id).unwrap().status, ProposalStatus::Executed);
}

#[test]
fn test_finalize_below_quorum_fails() {
    // a large idle stake keeps participation under the quorum
    let (mut g, _, oracle) = new_gov(100);
    let small = b("GVOTER_ONE_PRINCIPAL");
    let whale = b("GVOTER_TWO_PRINCIPAL");
    g.update_voter_data(&oracle, &small, 5, 50).unwrap();
    g.update_voter_data(&oracle, &whale, 1000, 50).unwrap();

    let id = make_proposal(&mut g, &b("GPROPOSER_PRINCIPAL"), "Quorum fail", 0);
    g.vote(&small, &id, VoteChoice::Yes, 10).unwrap();
    // participation 5 * 100 / 1005 = 0, below the quorum of 10
    let outcome = g.finalize_proposal(&id, 1001).unwrap();
    assert_eq!(outcome, ProposalStatus::Failed);
}

#[test]
fn test_finalize_tie_fails() {
    let (mut g, _, oracle) = new_gov(100);
    let a = b("GVOTER_ONE_PRINCIPAL");
    let c = b("GVOTER_TWO_PRINCIPAL");
    g.update_voter_data(&oracle, &a, 100, 10).unwrap();
    g.update_voter_data(&oracle, &c, 100, 10).unwrap();

    let id = make_proposal(&mut g, &b("GPROPOSER_PRINCIPAL"), "Tied vote", 0);
    g.vote(&a, &id, VoteChoice::Yes, 10).unwrap();
    g.vote(&c, &id, VoteChoice::No, 11).unwrap();
    let outcome = g.finalize_proposal(&id, 1001).unwrap();
    assert_eq!(outcome, ProposalStatus::Failed);
}

#[test]
fn test_finalize_with_no_voters() {
    // with no stakeholders the participation falls to 0 and the
    // proposal fails
    let (mut g, _, _) = new_gov(100);
    let id = make_proposal(&mut g, &b("GPROPOSER_PRINCIPAL"), "Nobody voted", 0);
    let outcome = g.finalize_proposal(&id, 1001).unwrap();
    assert_eq!(outcome, ProposalStatus::Failed);
}

#[test]
fn test_execute_errors() {
    let (mut g, admin, oracle) = new_gov(100);
    let voter = b("GVOTER_PRINCIPAL");
    g.update_voter_data(&oracle, &voter, 100, 80).unwrap();

    assert_eq!(g.execute_proposal(&b("GOUTSIDER"), &b("missing")), Err(Error::UNAUTHORIZED));
    assert_eq!(g.execute_proposal(&admin, &b("missing")), Err(Error::PROPOSAL_NOT_FOUND));

    let id = make_proposal(&mut g, &b("GPROPOSER_PRINCIPAL"), "Not yet passed", 0);
    assert_eq!(g.execute_proposal(&admin, &id), Err(Error::PROPOSAL_NOT_PASSED));

    // a passed proposal of an unrecognised type is refused
    let odd = g
        .create_proposal(&b("GPROPOSER_PRINCIPAL"), &b("Odd type"), b("d"), b("budget_rework"), None, None, 1000, 1)
        .unwrap();
    g.vote(&voter, &odd, VoteChoice::Yes, 10).unwrap();
    g.finalize_proposal(&odd, 1002).unwrap();
    assert_eq!(g.execute_proposal(&admin, &odd), Err(Error::UNKNOWN_PROPOSAL_TYPE));
}

#[test]
fn test_update_voter_data_errors_and_stats() {
    let (mut g, admin, oracle) = new_gov(100);
    let voter = b("GVOTER_PRINCIPAL");
    assert_eq!(g.update_voter_data(&admin, &voter, 100, 80), Err(Error::UNAUTHORIZED));
    assert_eq!(g.get_voter_data(&voter).err(), Some(Error::VOTER_NOT_FOUND));

    g.update_voter_data(&oracle, &voter, 100, 80).unwrap();
    let id = make_proposal(&mut g, &b("GPROPOSER_PRINCIPAL"), "Voter stats", 0);
    g.vote(&voter, &id, VoteChoice::No, 10).unwrap();

    let vd = g.get_voter_data(&voter).unwrap();
    assert_eq!(vd.total_votes_cast, 1);
    assert_eq!(vd.last_vote_time, 10);

    // a stake update keeps the ballot statistics
    g.update_voter_data(&oracle, &voter, 400, 90).unwrap();
    let vd = g.get_voter_data(&voter).unwrap();
    assert_eq!(vd.stake_amount, 400);
    assert_eq!(vd.voting_power, 400);
    assert_eq!(vd.total_votes_cast, 1);
    assert_eq!(vd.last_vote_time, 10);

    let (total, active, passed, voters) = g.get_stats();
    assert_eq!((total, active, passed, voters), (1, 1, 0, 1));
}
