use price_oracle::{
    batch_to_sign, commit_hash, message_to_sign, Address, Asset, BatchItem, ConsumerAccessMode, Env, ErrorCode, Event,
    FinalityStatus, PriceOracleContract, RelayedSubmission, RelayerFailureReason, Reveal,
    SourceHealthStatus, Transfer,
};

fn address(n: u8) -> Address {
    Address { is_contract: false, id: [n; 32] }
}

const ADMIN: u8 = 200;

/// The circumstances of a call that every address below a limit authorizes.
fn at(ledger: u32, timestamp: u64) -> Env {
    let mut authorized = Vec::new();
    for n in 0..=ADMIN {
        authorized.push(address(n));
    }
    Env { ledger, timestamp, ledger_hash: [7; 32], cpu_instructions: 0, memory_bytes: 0, authorized }
}

fn by_nobody() -> Env {
    Env { authorized: Vec::new(), ..at(100, 1_000_000) }
}

/// An oracle with the sources 1 to `sources` and the assets 101 to 100 + `assets`.
fn oracle(sources: u8, assets: u8) -> PriceOracleContract {
    let env = at(100, 1_000_000);
    let mut o = PriceOracleContract::new();
    assert_eq!(o.initialize(&env, address(ADMIN), 1, 100, 8, "test".to_string()), Ok(()));
    for n in 1..=sources {
        assert_eq!(o.add_source(&env, address(n), format!("source {}", n)), Ok(()));
    }
    for n in 1..=assets {
        assert_eq!(o.register_asset(&env, address(100 + n)), Ok(()));
    }
    o
}

fn hex(text: &str) -> [u8; 32] {
    let mut out = [0u8; 32];
    for (i, b) in out.iter_mut().enumerate() {
        *b = u8::from_str_radix(&text[2 * i..2 * i + 2], 16).unwrap();
    }
    out
}

fn submit(o: &mut PriceOracleContract, env: &Env, source: u8, asset: u8, price: i128) {
    assert_eq!(o.submit_price(env, address(source), address(asset), price, env.timestamp, 0), Ok(()));
}

#[test]
fn sources_come_and_go() {
    let mut o = oracle(2, 0);
    let env = at(100, 1_000_000);
    assert_eq!(o.add_source(&env, address(1), "again".to_string()), Err(ErrorCode::SourceAlreadyExists));
    assert_eq!(o.set_max_sources(&env, 2), Ok(()));
    assert_eq!(o.add_source(&env, address(3), "three".to_string()), Err(ErrorCode::MaxSourcesReached));
    assert_eq!(o.remove_source(&env, address(1)), Ok(()));
    assert_eq!(o.remove_source(&env, address(1)), Err(ErrorCode::SourceNotFound));
    assert_eq!(o.get_sources(), vec![address(2)]);
    assert_eq!(o.get_oracle_sources().unwrap()[0].1.as_str(), "source 2");
    assert_eq!(o.add_source(&by_nobody(), address(3), "three".to_string()), Err(ErrorCode::NotAuthorized));
}

#[test]
fn a_silent_source_becomes_inactive() {
    let mut o = oracle(1, 1);
    assert_eq!(o.set_heartbeat_interval(&at(100, 1_000_000), 60), Ok(()));
    submit(&mut o, &at(101, 1_000_010), 1, 101, 100);
    assert_eq!(o.submit_heartbeat(&at(101, 1_000_010), address(1)), Ok(()));
    assert_eq!(o.get_source_last_heartbeat(address(1)), Ok(1_000_010));
    assert_eq!(o.is_source_inactive(&at(102, 1_000_070), address(1)), Ok(false));
    assert_eq!(o.is_source_inactive(&at(102, 1_000_071), address(1)), Ok(true));
    assert_eq!(o.get_source_health(&at(102, 1_000_060), address(1)), SourceHealthStatus::Healthy);
    assert_eq!(o.get_source_health(&at(102, 1_000_131), address(1)), SourceHealthStatus::Degraded);
    assert_eq!(o.get_missed_heartbeats(&at(102, 1_000_131), address(1)), 2);
    assert_eq!(o.get_source_health(&at(102, 1_000_190), address(1)), SourceHealthStatus::Inactive);
    assert_eq!(o.get_source_health(&at(102, 1_000_190), address(9)), SourceHealthStatus::Inactive);
}

#[test]
fn a_healthy_source_sends_prices_too() {
    let mut o = oracle(1, 1);
    let s = address(1);
    assert_eq!(o.set_heartbeat_interval(&at(100, 1_000_000), 60), Ok(()));
    assert_eq!(o.get_source_health(&at(101, 1_000_010), s), SourceHealthStatus::Degraded);
    assert_eq!(o.submit_price(&at(101, 1_000_010), s, address(101), 100, 900_000, 0), Ok(()));
    assert_eq!(o.get_source_health(&at(101, 1_000_010), s), SourceHealthStatus::Healthy);
    assert_eq!(o.submit_heartbeat(&at(102, 1_000_060), s), Ok(()));
    assert_eq!(o.get_source_health(&at(103, 1_000_070), s), SourceHealthStatus::Healthy);
    assert_eq!(o.get_source_health(&at(103, 1_000_071), s), SourceHealthStatus::Degraded);
    submit(&mut o, &at(103, 1_000_071), 1, 101, 100);
    assert_eq!(o.get_source_health(&at(103, 1_000_071), s), SourceHealthStatus::Healthy);
    assert_eq!(o.mark_source_inactive(&at(103, 1_000_071), s), Ok(()));
    assert_eq!(o.get_source_health(&at(103, 1_000_071), s), SourceHealthStatus::Inactive);
}

#[test]
fn a_source_that_was_marked_is_active_again_with_its_heartbeat() {
    let mut o = oracle(1, 0);
    let env = at(100, 1_000_000);
    assert_eq!(o.mark_source_inactive(&env, address(1)), Ok(()));
    assert_eq!(o.is_source_inactive(&env, address(1)), Ok(true));
    assert_eq!(o.get_inactive_sources(&env), Ok(1));
    assert_eq!(o.submit_heartbeat(&env, address(1)), Ok(()));
    assert_eq!(o.is_source_inactive(&env, address(1)), Ok(false));
    assert!(o.take_events().iter().any(|e| matches!(e, Event::SourceActiveAgain { .. })));
}

#[test]
fn pruning_keeps_enough_sources() {
    let mut o = oracle(4, 0);
    let env = at(100, 1_000_000);
    assert_eq!(o.set_min_sources_required(&env, 2), Ok(()));
    assert_eq!(o.set_max_inactive_ledgers(&env, 10), Ok(()));
    assert_eq!(o.submit_heartbeat(&at(200, 1_000_000), address(4)), Ok(()));
    assert_eq!(o.check_and_prune_inactive_sources(&at(205, 1_000_000)), 2);
    assert_eq!(o.get_sources(), vec![address(3), address(4)]);
    assert_eq!(o.get_source_health(&at(205, 1_000_000), address(1)), SourceHealthStatus::AutoRemoved);
    assert_eq!(o.check_and_prune_inactive_sources(&at(205, 1_000_000)), 0);
}

#[test]
fn the_time_for_a_heartbeat_grows_with_those_missed() {
    let mut o = oracle(0, 0);
    assert_eq!(o.set_heartbeat_interval(&at(100, 1_000_000), 100), Ok(()));
    assert_eq!(o.compute_adaptive_interval(0), 100);
    assert_eq!(o.compute_adaptive_interval(5), 150);
    assert_eq!(o.compute_adaptive_interval(1_000_000), 300);
}

#[test]
fn a_suspended_source_is_refused_and_its_weight_counts() {
    let mut o = oracle(3, 1);
    let env = at(110, 1_000_000);
    assert_eq!(o.set_aggregation_method(&env, 3), Ok(()));
    assert_eq!(o.record_source_standing(&env, address(3), false, 10), Ok(()));
    assert_eq!(o.get_source_reputation(address(3)), 10);
    submit(&mut o, &env, 1, 101, 100);
    submit(&mut o, &env, 2, 101, 200);
    submit(&mut o, &env, 3, 101, 300);
    assert_eq!(o.get_aggregate_price(address(101)).unwrap().price, 300);
    assert_eq!(o.record_source_standing(&env, address(3), true, 10), Ok(()));
    assert_eq!(o.submit_price(&env, address(3), address(101), 5, 1_000_000, 0), Err(ErrorCode::NotAuthorized));
}

#[test]
fn a_removal_can_be_announced_first() {
    let mut o = oracle(2, 0);
    let env = at(100, 1_000_000);
    assert_eq!(o.set_removal_cooldown(&env, 10), Ok(()));
    assert_eq!(o.mark_source_for_removal(&env, address(1)), Ok(()));
    assert!(o.is_source_pending_removal(address(1)));
    assert_eq!(o.finalize_source_removal(&at(105, 1_000_000), address(1)), Err(ErrorCode::TimelockNotReady));
    assert_eq!(o.finalize_source_removal(&at(110, 1_000_000), address(1)), Ok(()));
    assert_eq!(o.get_sources(), vec![address(2)]);
}

#[test]
fn a_commitment_is_the_digest_of_what_is_revealed() {
    let salt = b"salt".to_vec();
    let hash = commit_hash(100, &salt, 100).unwrap();
    assert_eq!(hash, hex("1f425d7a328b168b444672dc42a72e2f955483ff2294e3657692e1e0635ad21f"));
    assert_eq!(commit_hash(100, &vec![0; 1_799_981], 100), None);
}

#[test]
fn a_committed_price_is_revealed_in_its_window() {
    let mut o = oracle(1, 1);
    let (s, a) = (address(1), address(101));
    assert_eq!(o.current_round_ledger(&at(105, 1_000_000)), 100);
    let hash = commit_hash(100, &b"salt".to_vec(), 100).unwrap();
    assert_eq!(o.commit_price(&at(105, 1_000_000), s, a, hash), Ok(()));
    assert_eq!(o.commit_price(&at(106, 1_000_000), s, a, hash), Err(ErrorCode::AlreadyCommitted));
    let reveal = |o: &mut PriceOracleContract, ledger: u32, price: i128| {
        o.reveal_price(&at(ledger, 1_000_000), s, a, price, b"salt".to_vec(), 100)
    };
    assert_eq!(reveal(&mut o, 119, 100), Err(ErrorCode::RevealWindowClosed));
    assert_eq!(reveal(&mut o, 140, 100), Err(ErrorCode::CommitExpired));
    assert_eq!(reveal(&mut o, 120, 101), Err(ErrorCode::CommitHashMismatch));
    assert_eq!(reveal(&mut o, 120, 100), Ok(()));
    assert_eq!(o.get_aggregate_price(a).unwrap().price, 100);
    assert_eq!(reveal(&mut o, 120, 100), Err(ErrorCode::CommitNotFound));
}

#[test]
fn a_commitment_is_not_kept_for_ever() {
    let mut o = oracle(1, 1);
    let (s, a) = (address(1), address(101));
    let hash = commit_hash(100, &b"salt".to_vec(), 100).unwrap();
    assert_eq!(o.commit_price(&at(105, 1_000_000), s, a, hash), Ok(()));
    let reveal = |o: &mut PriceOracleContract, ledger: u32| {
        o.reveal_price(&at(ledger, 1_000_000), s, a, 100, b"salt".to_vec(), 100)
    };
    assert_eq!(reveal(&mut o, 146), Err(ErrorCode::CommitExpired));
    assert_eq!(reveal(&mut o, 147), Err(ErrorCode::CommitNotFound));
    assert_eq!(o.set_commit_window(&at(140, 1_000_000), 50), Ok(()));
    assert_eq!(o.commit_price(&at(146, 1_000_000), s, a, hash), Err(ErrorCode::AlreadyCommitted));
    assert_eq!(o.commit_price(&at(147, 1_000_000), s, a, hash), Ok(()));
    assert_eq!(reveal(&mut o, 150), Ok(()));
}

#[test]
fn several_prices_are_revealed_together() {
    let mut o = oracle(1, 2);
    let s = address(1);
    for (asset, price) in [(101, 5), (102, 6)] {
        let hash = commit_hash(price, &vec![asset], 100).unwrap();
        assert_eq!(o.commit_price(&at(100, 1_000_000), s, address(asset), hash), Ok(()));
    }
    let reveals = |second: i128| {
        vec![
            Reveal { asset: address(101), price: 5, salt: vec![101], round_ledger: 100 },
            Reveal { asset: address(102), price: second, salt: vec![102], round_ledger: 100 },
        ]
    };
    let env = at(120, 1_000_000);
    assert_eq!(o.reveal_prices_batch(&env, s, &reveals(7)), Err(ErrorCode::CommitHashMismatch));
    assert_eq!(o.get_aggregate_price(address(101)), None);
    assert_eq!(o.reveal_prices_batch(&env, s, &reveals(6)), Ok(()));
    assert_eq!(o.get_aggregate_price(address(102)).unwrap().price, 6);
}

#[test]
fn an_aggregate_becomes_final() {
    let mut o = oracle(1, 1);
    let a = address(101);
    assert_eq!(o.mark_price_pending(&at(110, 1_000_000), a), Err(ErrorCode::NoData));
    submit(&mut o, &at(110, 1_000_000), 1, 101, 100);
    assert_eq!(o.mark_price_pending(&at(110, 1_000_000), a), Ok(()));
    assert_eq!(o.get_finality_status(a, 110), Ok(FinalityStatus::Pending));
    assert_eq!(o.try_finalize_price(&at(173, 1_000_000), a, 110), Ok(false));
    assert_eq!(o.try_finalize_price(&at(174, 1_000_000), a, 110), Ok(true));
    assert_eq!(o.try_finalize_price(&at(175, 1_000_000), a, 110), Err(ErrorCode::AlreadyFinalized));
    assert_eq!(o.get_finalized_price(&at(180, 1_000_000), a, 64).unwrap().aggregate.price, 100);
    assert_eq!(o.get_finalized_price(&at(180, 1_000_000), a, 71).err(), Some(ErrorCode::InsufficientFinality));
    assert!(o.take_events().iter().any(|e| matches!(e, Event::PricePendingFinality { finality_ledger: 174, .. })));
}

#[test]
fn an_aggregate_can_be_retracted() {
    let mut o = oracle(1, 1);
    let a = address(101);
    submit(&mut o, &at(110, 1_000_000), 1, 101, 100);
    assert_eq!(o.mark_price_pending(&at(110, 1_000_000), a), Ok(()));
    assert!(!o.check_reorg(&at(120, 1_000_000), a, 110));
    let reorganized = Env { ledger_hash: [8; 32], ..at(110, 1_000_000) };
    assert!(o.check_reorg(&reorganized, a, 110));
    assert_eq!(o.retract_price(&at(111, 1_000_000), a, 110), Ok(()));
    assert_eq!(o.try_finalize_price(&at(174, 1_000_000), a, 110), Err(ErrorCode::PriceRetracted));
}

#[test]
fn who_pays_more_is_served_first() {
    let mut o = oracle(2, 1);
    let env = at(110, 1_000_000);
    let asset = Asset::Stellar(address(101));
    assert_eq!(o.fm_set_min_priority_fee(&env, 10), Ok(()));
    assert_eq!(o.fm_enqueue_submission(&env, address(1), asset, 100, 1_000_000, 9), Err(ErrorCode::FeeMarketBelowMinimum));
    assert_eq!(o.fm_enqueue_submission(&env, address(1), asset, 0, 1_000_000, 10), Err(ErrorCode::InvalidPrice));
    assert_eq!(o.fm_enqueue_submission(&env, address(1), asset, 100, 1_000_000, 10), Ok(()));
    assert_eq!(o.fm_enqueue_submission(&env, address(2), asset, 300, 1_000_000, 25), Ok(()));
    assert_eq!(o.fm_get_pending_submissions(), 2);
    assert_eq!(o.fm_process_fee_market(&env), Ok(2));
    assert_eq!(o.get_aggregate_price(address(101)).unwrap().price, 200);
    assert_eq!(o.fm_get_source_fee_balance(address(1)), 8);
    assert_eq!(o.fm_get_source_fee_balance(address(2)), 20);
    assert_eq!(o.fm_get_treasury_fee_balance(), 7);
    assert_eq!(o.fm_get_pending_submissions(), 0);
}

#[test]
fn a_relayer_submits_for_sources() {
    let mut o = oracle(2, 2);
    let env = at(110, 1_000_100);
    let r = address(50);
    assert_eq!(
        o.submit_price_relayed(&env, r, address(1), address(101), 100, 1_000_000),
        Err(ErrorCode::RelayerNotAuthorized)
    );
    assert_eq!(o.add_relayer(&env, r, "fifty".to_string()), Ok(()));
    assert_eq!(o.add_relayer(&env, r, "fifty".to_string()), Err(ErrorCode::RelayerAlreadyExists));
    assert_eq!(o.add_relayer(&env, address(51), "other".to_string()), Ok(()));
    assert_eq!(o.set_relayer_fee_per_submission(&env, 7), Ok(()));
    assert_eq!(o.submit_price_relayed(&env, r, address(1), address(101), 100, 1_000_000), Ok(()));
    let leg = |source: u8, fee: i128| RelayedSubmission {
        source: address(source),
        asset: address(102),
        price: 200,
        timestamp: 1_000_090,
        priority_fee: fee,
    };
    assert_eq!(o.submit_prices_relayed(&env, r, vec![]), Err(ErrorCode::BatchEmpty));
    assert_eq!(o.submit_prices_relayed(&env, r, vec![leg(1, 0); 51]), Err(ErrorCode::BatchTooLarge));
    assert_eq!(o.submit_prices_relayed(&env, r, vec![leg(1, 1), leg(2, 2)]), Err(ErrorCode::BatchNotFeePrioritized));
    assert_eq!(o.submit_prices_relayed(&env, r, vec![leg(1, 2), leg(2, 1)]), Ok(()));
    assert_eq!(o.get_relayer_submission_count(r), 3);
    assert_eq!(o.get_relayer_fee_balance(r), 21);
    assert_eq!(o.record_relayer_failure(&env, r, RelayerFailureReason::InvalidSubmission), Ok(()));
    let d = o.get_relayer_dashboard(r);
    assert_eq!((d.submissions, d.success_rate_bps, d.average_latency, d.percentile), (3, 7500, 40, 100));
    assert_eq!((d.fees, d.rewards, d.bond), (21, 0, 0));
    assert_eq!(d.by_asset, vec![(address(101), 1), (address(102), 2)]);
    assert_eq!(o.get_relayer_dashboard(address(51)).percentile, 50);
    assert_eq!(o.remove_relayer(&env, r), Ok(()));
    assert!(!o.is_relayer(r));
}

#[test]
fn a_slash_moves_a_part_of_the_bond() {
    let mut o = oracle(0, 0);
    let env = at(110, 1_000_000);
    let r = address(50);
    assert_eq!(o.add_relayer(&env, r, "fifty".to_string()), Ok(()));
    assert_eq!(o.set_relayer_bond_amount(&env, 1000), Ok(()));
    assert_eq!(o.deposit_relayer_bond(&env, r), Err(ErrorCode::StakeTokenNotConfigured));
    assert_eq!(o.set_stake_token_contract(&env, address(60)), Ok(()));
    assert_eq!(o.deposit_relayer_bond(&env, r), Ok(()));
    assert_eq!(o.get_relayer_bond_balance(r), 1000);
    assert!(matches!(o.take_transfers()[..], [Transfer::Receive { amount: 1000, .. }]));
    assert_eq!(o.set_relayer_slash_percent(&env, 30), Ok(()));
    assert_eq!(o.set_relayer_failure_threshold(&env, 1), Ok(()));
    assert_eq!(o.slash_relayer(&env, r, false), Err(ErrorCode::RelayerFailureThresholdNotReached));
    assert_eq!(o.slash_relayer(&env, r, true), Ok(()));
    assert_eq!(o.get_relayer_bond_balance(r), 700);
    assert_eq!(o.relayers.treasury, 300);
    assert_eq!(o.withdraw_relayer_bond(&env, r), Ok(()));
    assert!(matches!(o.take_transfers()[..], [Transfer::Send { amount: 700, .. }]));
}

#[test]
fn a_reward_grows_with_the_accuracy() {
    let mut o = oracle(1, 1);
    let env = at(110, 1_000_000);
    let r = address(50);
    assert_eq!(o.add_relayer(&env, r, "fifty".to_string()), Ok(()));
    let relay = |o: &mut PriceOracleContract, price: i128| {
        o.submit_price_relayed(&env, r, address(1), address(101), price, 1_000_000)
    };
    assert_eq!(relay(&mut o, 1000), Ok(()));
    assert_eq!(o.get_relayer_reward_balance(r), 0);
    assert_eq!(o.set_relayer_reward_rate(&env, 1000), Ok(()));
    assert_eq!(relay(&mut o, 1000), Ok(()));
    assert_eq!(o.get_relayer_reward_balance(r), 1000);
    assert_eq!(relay(&mut o, 1250), Ok(()));
    assert_eq!(o.get_relayer_reward_balance(r), 1750);
    assert_eq!(relay(&mut o, 5000), Ok(()));
    assert_eq!(o.get_relayer_reward_balance(r), 1750);
    assert_eq!(o.get_relayer_dashboard(r).rewards, 1750);
}

#[test]
fn each_price_of_a_relayed_batch_is_rewarded() {
    let mut o = oracle(1, 2);
    let env = at(110, 1_000_000);
    let r = address(50);
    assert_eq!(o.add_relayer(&env, r, "fifty".to_string()), Ok(()));
    assert_eq!(o.set_relayer_reward_rate(&env, 1000), Ok(()));
    let leg = |asset: u8, price: i128| RelayedSubmission {
        source: address(1),
        asset: address(asset),
        price,
        timestamp: 1_000_000,
        priority_fee: 0,
    };
    let legs = vec![leg(101, 200), leg(101, 180), leg(102, 7)];
    assert_eq!(o.submit_prices_relayed(&env, r, legs), Ok(()));
    assert_eq!(o.get_relayer_reward_balance(r), 1000 + 900 + 1000);
}

#[test]
fn a_batch_is_signed_as_a_whole() {
    let item = |nonce: u64| BatchItem { asset: address(101), price: 100, timestamp: 1_000_000, nonce };
    let message = batch_to_sign(&address(1), &vec![item(1), item(2)]);
    assert_eq!(message.len(), 33 + 2 * 65);
    assert_eq!(message[..33], [&[0u8][..], &[1; 32]].concat());
    assert_eq!(message[33..66], [&[0u8][..], &[101; 32]].concat());
    assert_eq!(message[66..82], 100i128.to_le_bytes());
    assert_eq!(message[82..90], 1_000_000u64.to_le_bytes());
    assert_eq!(message[90..98], 1u64.to_le_bytes());
    assert_ne!(message, batch_to_sign(&address(2), &vec![item(1), item(2)]));
    assert_ne!(message, batch_to_sign(&address(1), &vec![item(2), item(1)]));
}

#[test]
fn a_salt_that_is_too_long_is_refused_last() {
    let mut o = oracle(1, 1);
    let long = || vec![0u8; 1_799_981];
    let (s, a) = (address(1), address(101));
    let batch = || vec![Reveal { asset: a, price: 100, salt: long(), round_ledger: 100 }];
    assert_eq!(o.reveal_price(&by_nobody(), s, a, 100, long(), 100), Err(ErrorCode::NotAuthorized));
    assert_eq!(o.reveal_prices_batch(&by_nobody(), s, &batch()), Err(ErrorCode::NotAuthorized));
    let env = at(110, 1_000_000);
    assert_eq!(o.reveal_price(&env, s, a, 100, long(), 100), Err(ErrorCode::InvalidConfiguration));
    assert_eq!(o.reveal_prices_batch(&env, s, &batch()), Err(ErrorCode::InvalidConfiguration));
}

#[test]
fn a_subscription_is_paid_and_refunded() {
    let mut o = oracle(0, 0);
    let env = at(100, 1_000_000);
    let c = address(70);
    assert_eq!(o.subscribe(&env, c, 1000), Err(ErrorCode::InvalidDuration));
    assert_eq!(o.set_subscription_price(&env, 1000, 500), Ok(()));
    assert_eq!(o.set_subscription_token(&env, address(60)), Ok(()));
    assert_eq!(o.get_subscription_plans(), vec![(1000, 500)]);
    assert_eq!(o.subscribe(&env, c, 1000), Ok(()));
    assert_eq!(o.get_subscription_expiry(c), 1_001_000);
    assert_eq!(o.cancel_subscription(&at(100, 1_000_250), c), Ok(()));
    let transfers = o.take_transfers();
    assert!(matches!(transfers[..], [Transfer::Receive { amount: 500, .. }, Transfer::Send { amount: 375, .. }]));
    assert_eq!(o.cancel_subscription(&env, c), Err(ErrorCode::NoActiveSubscription));
    assert_eq!(o.renew_subscription(&env, c), Err(ErrorCode::NoData));
    assert_eq!(o.subscribe(&env, c, 1000), Ok(()));
    assert_eq!(o.renew_subscription(&at(100, 1_000_400), c), Ok(()));
    assert_eq!(o.get_subscription_expiry(c), 1_001_600);
    assert_eq!(o.renew_subscription(&at(100, 2_000_000), c), Err(ErrorCode::SubscriptionExpired));
}

#[test]
fn access_is_granted_by_mode() {
    let mut o = oracle(1, 1);
    let env = at(110, 1_000_000);
    submit(&mut o, &env, 1, 101, 100);
    let c = address(70);
    assert!(o.is_consumer_authorized(c));
    assert_eq!(o.set_consumer_access_mode(&env, 3), Err(ErrorCode::InvalidConfiguration));
    assert_eq!(o.set_consumer_access_mode(&env, 1), Ok(()));
    assert_eq!(o.get_price_authorized(&env, c, address(101), 0), Err(ErrorCode::NotAuthorized));
    assert_eq!(o.add_authorized_consumer(&env, c), Ok(()));
    assert_eq!(o.get_price_authorized(&env, c, address(101), 0).unwrap().unwrap().price, 100);
    assert_eq!(o.set_consumer_access_mode(&env, 2), Ok(()));
    assert!(o.is_consumer_authorized(address(71)));
    assert_eq!(o.remove_authorized_consumer(&env, c), Ok(()));
    assert!(!o.is_consumer_authorized(c));
    assert_eq!(o.get_consumer_access_mode(), ConsumerAccessMode::BlockedOnly);
}

#[test]
fn consumers_are_told_of_new_prices() {
    let mut o = oracle(0, 1);
    let env = at(110, 1_000_000);
    assert_eq!(o.subscribe_price_updates(&env, address(70), address(101)), Ok(()));
    assert_eq!(o.subscribe_price_updates(&env, address(70), address(101)), Ok(()));
    assert_eq!(o.subscribe_price_updates(&env, address(71), address(101)), Ok(()));
    assert_eq!(o.get_subscribed_consumers(address(101)), Ok(vec![address(70), address(71)]));
    assert_eq!(o.unsubscribe_price_updates(&env, address(70), address(101)), Ok(()));
    assert_eq!(o.get_subscribed_consumers(address(101)), Ok(vec![address(71)]));
    assert_eq!(o.get_subscribed_consumers(address(150)), Err(ErrorCode::AssetNotRegistered));
    assert_eq!(o.set_notification_preference(&env, 4, "c".repeat(257), "t".to_string()), Err(ErrorCode::NotificationConfigInvalid));
    assert_eq!(o.set_notification_preference(&env, 4, "mail".to_string(), "t".to_string()), Ok(()));
    assert_eq!(o.list_notification_event_types(), vec![4]);
    assert_eq!(o.list_notification_preferences(4)[0].target.as_str(), "t");
    assert_eq!(o.clear_notification_preferences(&env, 4), Ok(()));
    assert!(o.list_notification_event_types().is_empty());
}

#[test]
fn a_channel_only_advances() {
    let mut o = oracle(1, 1);
    let env = at(110, 1_000_000);
    let s = address(1);
    let item = |nonce: u64| BatchItem { asset: address(101), price: 5, timestamp: 1, nonce };
    assert_eq!(o.sc_submit_batch(&env, s, vec![item(1)], true), Err(ErrorCode::ChannelNotFound));
    assert_eq!(o.sc_open_channel(&env, s, 0, address(60)), Err(ErrorCode::InvalidPrice));
    assert_eq!(o.sc_open_channel(&env, s, 90, address(60)), Ok(()));
    assert_eq!(o.sc_open_channel(&env, s, 90, address(60)), Err(ErrorCode::ChannelAlreadyOpen));
    assert_eq!(o.sc_submit_batch(&env, s, vec![item(1), item(3)], false), Err(ErrorCode::NotAuthorized));
    assert_eq!(o.sc_submit_batch(&env, s, vec![item(1), item(3)], true), Ok(()));
    assert_eq!(o.sc_submit_batch(&env, s, vec![item(3)], true), Err(ErrorCode::InvalidTimestamp));
    assert_eq!(o.sc_get_channel(s).unwrap().latest.unwrap().nonce, 3);
    assert_eq!(o.sc_dispute_channel(&at(209, 1_000_000), s, vec![item(4)], true), Err(ErrorCode::TimelockNotReady));
    assert_eq!(o.sc_dispute_channel(&at(210, 1_000_000), s, vec![item(4)], true), Ok(()));
    assert_eq!(o.sc_close_channel(&env, s), Ok(()));
    assert!(matches!(o.take_transfers()[..], [Transfer::Receive { amount: 90, .. }, Transfer::Send { amount: 90, .. }]));
    assert_eq!(o.sc_get_channel(s), None);
}

#[test]
fn a_signed_price_needs_a_fresh_nonce() {
    let mut o = oracle(1, 1);
    let env = at(110, 1_000_000);
    let (s, a) = (address(1), address(101));
    let send = |o: &mut PriceOracleContract, nonce: u64, until: u32, valid: bool| {
        o.submit_price_with_proof(&env, s, a, 100, 1_000_000, nonce, until, valid)
    };
    assert_eq!(send(&mut o, 1, 200, true), Err(ErrorCode::SigningKeyNotRegistered));
    assert_eq!(o.register_submission_key(&env, s, [4; 32]), Ok(()));
    assert_eq!(o.get_submission_key(s), Some([4; 32]));
    assert_eq!(send(&mut o, 1, 109, true), Err(ErrorCode::SignatureExpired));
    assert_eq!(send(&mut o, 0, 200, true), Err(ErrorCode::InvalidNonce));
    assert_eq!(send(&mut o, 1, 200, false), Err(ErrorCode::NotAuthorized));
    assert_eq!(send(&mut o, 1, 200, true), Ok(()));
    assert_eq!(send(&mut o, 1, 200, true), Err(ErrorCode::InvalidNonce));
    let message = message_to_sign(&s, &a, 100, 1_000_000, 1, 200);
    assert_ne!(message, message_to_sign(&s, &a, 100, 1_000_000, 2, 200));
}

#[test]
fn a_proof_attests_a_price() {
    let mut o = oracle(1, 1);
    let env = at(110, 1_000_000);
    let word = |n: u64| {
        let mut w = [0u8; 32];
        w[24..].copy_from_slice(&n.to_be_bytes());
        w
    };
    let signals = vec![word(0), word(250), word(999_999)];
    let send = |o: &mut PriceOracleContract, signals: Vec<[u8; 32]>, valid: bool| {
        o.zk_submit_price(&env, address(1), address(101), signals, valid)
    };
    assert_eq!(send(&mut o, signals.clone(), true), Err(ErrorCode::ZkVkNotSet));
    assert_eq!(o.zk_set_verification_key(&env, vec![1, 2]), Ok(()));
    assert_eq!(send(&mut o, vec![word(0)], true), Err(ErrorCode::ZkInvalidPublicSignals));
    assert_eq!(send(&mut o, signals.clone(), false), Err(ErrorCode::ZkProofInvalid));
    assert_eq!(send(&mut o, signals, true), Ok(()));
    let a = o.get_aggregate_price(address(101)).unwrap();
    assert_eq!((a.price, a.timestamp), (250, 999_999));
}

#[test]
fn time_sets_an_aggregation_off() {
    let mut o = oracle(1, 1);
    let env = at(110, 1_000_000);
    submit(&mut o, &env, 1, 101, 100);
    assert_eq!(o.poke_time_trigger(&env, address(101)), Ok(false));
    assert_eq!(o.set_time_trigger(&env, address(101), 60), Ok(()));
    assert_eq!(o.poke_time_trigger(&at(120, 1_000_100), address(101)), Ok(true));
    assert_eq!(o.poke_time_trigger(&at(121, 1_000_159), address(101)), Ok(false));
    assert_eq!(o.poke_time_trigger(&at(122, 1_000_160), address(101)), Ok(true));
    assert_eq!(o.get_aggregate_price(address(101)).unwrap().ledger, 122);
    assert_eq!(o.trigger_aggregation(&at(123, 1_000_160), address(101)), Ok(()));
    assert_eq!(o.trigger_aggregation(&at(130, 1_000_160), address(101)), Err(ErrorCode::InvalidConfiguration));
}
