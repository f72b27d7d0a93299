use price_oracle::{
    commit_hash, Address, Asset, Env, ErrorCode, Event, PriceEventPayload, PriceOracleContract, Symbol,
};

fn address(n: u8) -> Address {
    Address { is_contract: false, id: [n; 32] }
}

const ADMIN: u8 = 200;

/// The circumstances of a call that every address below a limit authorizes.
fn at(ledger: u32, timestamp: u64) -> Env {
    let mut authorized = Vec::new();
    for n in 0..=ADMIN {
        authorized.push(address(n));
    }
    Env { ledger, timestamp, ledger_hash: [7; 32], cpu_instructions: 0, memory_bytes: 0, authorized }
}

fn by_nobody() -> Env {
    Env { authorized: Vec::new(), ..at(100, 1_000_000) }
}

/// An oracle with the sources 1 to `sources` and the assets 101 to 100 + `assets`.
fn oracle(sources: u8, assets: u8) -> PriceOracleContract {
    let env = at(100, 1_000_000);
    let mut o = PriceOracleContract::new();
    assert_eq!(o.initialize(&env, address(ADMIN), 1, 100, 8, "test".to_string()), Ok(()));
    for n in 1..=sources {
        assert_eq!(o.add_source(&env, address(n), format!("source {}", n)), Ok(()));
    }
    for n in 1..=assets {
        assert_eq!(o.register_asset(&env, address(100 + n)), Ok(()));
    }
    o
}

fn submit(o: &mut PriceOracleContract, env: &Env, source: u8, asset: u8, price: i128) {
    assert_eq!(o.submit_price(env, address(source), address(asset), price, env.timestamp, 0), Ok(()));
}

const INVALID: Result<(), ErrorCode> = Err(ErrorCode::InvalidConfiguration);

#[test]
fn settings_of_aggregation() {
    let mut o = oracle(3, 1);
    let env = at(110, 1_000_000);
    assert_eq!(o.set_max_price_deviation(&env, 100_001), INVALID);
    assert_eq!(o.set_max_price_deviation(&env, 700), Ok(()));
    assert_eq!(o.get_max_price_deviation(), Ok(700));
    assert_eq!(o.get_query_rate_limit(), 100);
    assert_eq!(o.set_query_rate_limit(&env, 0), INVALID);
    assert_eq!(o.get_aggregation_cooldown(), 10);
    assert_eq!(o.set_aggregation_cooldown(&env, 3), Ok(()));
    assert_eq!(o.get_aggregation_cooldown(), 3);
    assert_eq!(o.get_max_history_per_asset(), 1000);
    assert_eq!(o.set_max_history_per_asset(&env, 5), Ok(()));
    assert_eq!(o.get_max_history_per_asset(), 5);
    assert_eq!(o.get_max_events_per_call(), 20);
    assert_eq!(o.set_max_events_per_call(&env, 2), Ok(()));
    assert_eq!(o.get_max_events_per_call(), 2);
    assert_eq!(o.get_max_aggregation_sources(), 0);
    assert_eq!(o.set_max_aggregation_sources(&env, 2), Ok(()));
    assert_eq!(o.get_max_aggregation_sources(), 2);
    for (source, price) in [(1, 100), (2, 200), (3, 900)] {
        submit(&mut o, &env, source, 101, price);
    }
    assert_eq!(o.get_aggregate_price(address(101)).unwrap().price, 150);
    assert_eq!(o.get_latest_ledger(&env), Ok(110));
}

#[test]
fn silent_sources_do_not_count() {
    let mut o = oracle(2, 1);
    assert_eq!(o.get_min_submission_interval(), 0);
    assert_eq!(o.set_min_submission_interval(&at(100, 1_000_000), 5), Ok(()));
    assert_eq!(o.get_min_submission_interval(), 5);
    submit(&mut o, &at(110, 1_000_000), 1, 101, 100);
    submit(&mut o, &at(115, 1_000_000), 2, 101, 300);
    assert_eq!(o.get_compliant_sources(&at(115, 1_000_000), address(101)), vec![address(1), address(2)]);
    assert_eq!(o.get_compliant_sources(&at(116, 1_000_000), address(101)), vec![address(2)]);
    submit(&mut o, &at(116, 1_000_000), 2, 101, 300);
    assert_eq!(o.get_aggregate_price(address(101)).unwrap().price, 300);
    assert_eq!(o.get_last_price_ledger(address(2)), 116);
}

#[test]
fn prices_that_belong_together_are_flagged_when_out_of_line() {
    let mut o = oracle(1, 2);
    let env = at(110, 1_000_000);
    let (s, a, b) = (address(1), address(101), address(102));
    assert_eq!(o.set_correlation_pair(&env, a, b, 20_001, 20_000, true), INVALID);
    assert_eq!(o.set_correlation_pair(&by_nobody(), a, b, 1, 2, true), Err(ErrorCode::NotAuthorized));
    assert_eq!(o.set_correlation_pair(&env, a, b, 15_000, 20_000, true), Ok(()));
    submit(&mut o, &env, 1, 101, 200);
    submit(&mut o, &env, 1, 102, 100);
    assert!(!o.is_correlation_flagged(s, b));
    submit(&mut o, &env, 1, 102, 99);
    assert!(o.is_correlation_flagged(s, b));
    assert!(!o.is_correlation_flagged(s, a));
    assert_eq!(o.clear_correlation_flag(&env, s, b), Ok(()));
    assert!(!o.is_correlation_flagged(s, b));
    assert_eq!(o.set_correlation_pair(&env, a, b, 15_000, 20_000, false), Ok(()));
    submit(&mut o, &env, 1, 102, 1);
    assert!(!o.is_correlation_flagged(s, b));
}

#[test]
fn settings_of_assets() {
    let mut o = oracle(1, 1);
    let env = at(110, 1_000_000);
    let a = address(101);
    assert_eq!(o.get_max_assets(), 100);
    assert_eq!(o.set_max_assets(&env, 0), INVALID);
    assert_eq!(o.get_asset_decimals(a), 8);
    assert_eq!(o.set_asset_decimals(&env, a, 19), INVALID);
    assert_eq!(o.set_asset_decimals(&env, address(150), 6), Err(ErrorCode::AssetNotRegistered));
    assert_eq!(o.set_asset_decimals(&env, a, 6), Ok(()));
    assert_eq!(o.get_asset_decimals(a), 6);
    assert_eq!(o.clear_asset_decimals(&env, a), Ok(()));
    assert_eq!(o.get_asset_decimals(a), 8);
    assert_eq!(o.set_inactivity_timeout(&env, 9), Ok(()));
    assert_eq!(o.get_inactivity_timeout(), 9);
    assert_eq!(o.set_asset_inactivity_timeout(&env, a, 4), Ok(()));
    assert_eq!(o.get_asset_inactivity_timeout(a), 4);
    assert_eq!(o.set_asset_inactivity_timeout(&env, a, 0), Ok(()));
    assert_eq!(o.get_asset_inactivity_timeout(a), 9);
    assert_eq!(o.get_price_bounds(a).min_price, 0);
    assert_eq!(o.set_price_bounds(&env, a, 3, 9, 1), Ok(()));
    assert_eq!(o.get_price_bounds(a).min_price, 3);
    assert_eq!(o.set_optimistic_dispute_window(&env, 0), INVALID);
    assert_eq!(o.set_optimistic_dispute_window(&env, 30), Ok(()));
    assert_eq!(o.get_optimistic_dispute_window(), 30);
    assert_eq!(o.set_optimistic_min_bond(&env, 0), INVALID);
    assert_eq!(o.set_optimistic_min_bond(&env, 70), Ok(()));
    assert_eq!(o.get_optimistic_min_bond(), 70);
    assert_eq!(o.base(), Ok(Asset::Other(usd())));
    assert_eq!(o.assets(), Ok(vec![Asset::Stellar(a)]));
    assert_eq!(o.decimals(), Ok(8));
    assert_eq!(o.resolution(), Ok(0));
}

fn usd() -> Symbol {
    let mut s = Symbol { text: [0; 32] };
    s.text[..3].copy_from_slice(b"USD");
    s
}

#[test]
fn settings_of_other_chains() {
    let mut o = oracle(1, 1);
    let env = at(110, 1_000_000);
    assert_eq!(o.get_cross_ref_deviation_bps(), 500);
    assert_eq!(o.set_cross_ref_deviation_bps(&env, 100_001), INVALID);
    assert_eq!(o.set_cross_ref_deviation_bps(&env, 100), Ok(()));
    assert_eq!(o.get_cross_ref_deviation_bps(), 100);
    assert_eq!(o.set_cross_chain_verification_enabled(&env, true), Ok(()));
    assert!(o.is_cross_chain_verification_enabled());
    assert_eq!(o.set_cross_chain_deviation_threshold(&env, 10_000), INVALID);
    assert_eq!(o.set_cross_chain_deviation_threshold(&env, 9_999), Ok(()));
    assert_eq!(o.get_cross_chain_deviation_threshold(), 9_999);
    let send = |o: &mut PriceOracleContract, asset: u8, price: i128| {
        o.submit_cross_chain_price(&env, address(asset), address(60), price, 8, "ethereum".to_string(), 1)
    };
    assert_eq!(send(&mut o, 150, 5), Err(ErrorCode::AssetNotRegistered));
    assert_eq!(send(&mut o, 101, 0), Err(ErrorCode::InvalidPrice));
    assert_eq!(send(&mut o, 101, 5), Ok(()));
    assert_eq!(o.relay_get_config(), None);
    let payload = PriceEventPayload { symbol: usd(), price: 5, timestamp: 6, ledger: 7 };
    o.relay_emit_price_update(usd(), payload);
    assert!(matches!(o.take_events()[..], [Event::PriceUpdate { .. }]));
    assert_eq!(o.bridge_get_oracle(address(1), address(2)), None);
    assert_eq!(o.vdf_get_sampling_size(), 3);
}

#[test]
fn settings_of_windows() {
    let mut o = oracle(1, 1);
    let env = at(110, 1_000_000);
    assert_eq!((o.get_commit_window(), o.get_reveal_window()), (20, 20));
    assert_eq!(o.set_commit_window(&env, 0), INVALID);
    assert_eq!(o.set_reveal_window(&env, 0), INVALID);
    assert_eq!(o.set_commit_window(&env, 7), Ok(()));
    assert_eq!(o.set_reveal_window(&env, 9), Ok(()));
    assert_eq!((o.get_commit_window(), o.get_reveal_window()), (7, 9));
    assert_eq!(o.current_round_ledger(&at(30, 1)), 28);
    assert_eq!(o.get_finality_ledgers(), 64);
    assert_eq!(o.set_finality_ledgers(&env, 0), INVALID);
    assert_eq!(o.set_finality_ledgers(&env, 8), Ok(()));
    assert_eq!(o.get_finality_ledgers(), 8);
    assert_eq!(o.get_timelock_duration(), Ok(10));
    assert_eq!(o.set_timelock_duration(&env, 2), Ok(()));
    assert_eq!(o.get_timelock_duration(), Ok(2));
    assert_eq!(o.get_max_inactive_ledgers(), 64);
    assert_eq!(o.set_max_inactive_ledgers(&env, 0), INVALID);
    assert_eq!(o.get_heartbeat_window(), 10);
    assert_eq!(o.set_heartbeat_window(&env, 0), INVALID);
    assert_eq!(o.set_heartbeat_window(&env, 4), Ok(()));
    assert_eq!(o.get_heartbeat_window(), 4);
    assert_eq!(o.set_bft_parameters(&env, 2, 1), Ok(()));
    assert_eq!((o.get_bft_fault_tolerance(), o.get_bft_aggregation_method()), (2, 1));
    assert_eq!(o.start_aggregation_round(&env, 9, 9), INVALID);
    assert_eq!(o.start_aggregation_round(&env, 9, 10), Ok(()));
    let round = o.get_current_aggregation_round().unwrap();
    assert_eq!((round.start_ledger, round.end_ledger), (9, 10));
    assert_eq!(o.recovery_get_delay(), 17_280);
    assert_eq!(o.recovery_get_threshold(), 0);
    assert!(o.recovery_get_guardians().is_empty());
    assert!(o.ms_get_governors().is_empty());
    assert_eq!(o.ms_get_required_approvals(), 0);
}

#[test]
fn settings_of_triggers() {
    let mut o = oracle(1, 1);
    let env = at(110, 1_000_000);
    let a = address(101);
    assert_eq!(o.set_time_trigger(&env, address(150), 5), Err(ErrorCode::AssetNotRegistered));
    assert_eq!(o.set_time_trigger(&env, a, 5), Ok(()));
    assert_eq!(o.set_submission_threshold_trigger(&env, a, 6), Ok(()));
    assert_eq!(o.set_deviation_trigger(&env, a, 100_001), INVALID);
    assert_eq!(o.set_deviation_trigger(&env, a, 7), Ok(()));
    assert_eq!(o.get_time_trigger(a), 5);
    assert_eq!(o.get_submission_threshold_trigger(a), 6);
    assert_eq!(o.get_deviation_trigger(a), 7);
    assert_eq!(o.submit_price_with_volume(&env, address(1), a, 50, 1_000_000, Some(9)), Ok(()));
    assert_eq!(o.get_aggregate_price(a).unwrap().price, 50);
    assert_eq!(o.set_interpolation_enabled(&env, true), Ok(()));
    assert!(o.get_interpolation_enabled());
    assert_eq!(o.set_compaction_threshold_bps(&env, 12), Ok(()));
    assert_eq!(o.get_compaction_threshold_bps(), 12);
    assert!(o.zk_get_verification_key().is_none());
}

#[test]
fn settings_of_fees_and_pools() {
    let mut o = oracle(1, 1);
    let env = at(110, 1_000_000);
    assert_eq!(o.fm_get_min_priority_fee(), 0);
    assert_eq!(o.fm_get_fee_distribution_ratio(), 80);
    assert_eq!(o.fm_set_fee_distribution_ratio(&env, 101), INVALID);
    assert_eq!(o.fm_set_fee_distribution_ratio(&env, 50), Ok(()));
    assert_eq!(o.fm_get_fee_distribution_ratio(), 50);
    assert_eq!(o.fm_set_treasury_address(&env, address(60)), Ok(()));
    assert_eq!(o.fee_market.treasury_address, Some(address(60)));
    assert_eq!(o.amm_get_max_deviation_bps(), 500);
    assert_eq!(o.amm_set_max_deviation_bps(&env, 100_001), INVALID);
    assert_eq!(o.amm_set_max_deviation_bps(&env, 5), Ok(()));
    assert_eq!(o.amm_get_max_deviation_bps(), 5);
    assert_eq!(o.amm_get_weight(address(101)), None);
    assert_eq!(o.amm_set_weight(&env, address(101), 10_001, true), INVALID);
    assert_eq!(o.amm_set_weight(&env, address(101), 10_000, true), Ok(()));
    assert_eq!(o.amm_get_weight(address(101)).unwrap().weight_bps, 10_000);
    assert_eq!(o.get_relayer_fee_per_submission(), 0);
    assert_eq!(o.get_relayer_bond_amount(), 0);
    assert_eq!(o.get_relayer_slash_percent(), 0);
    assert_eq!(o.get_relayer_failure_threshold(), 0);
    assert_eq!(o.get_relayer_reward_rate(), 0);
    assert_eq!(o.get_stake_token_contract(), None);
    assert!(o.get_relayer_info(address(50)).is_none());
    assert_eq!(o.get_subscription_token(), None);
    assert_eq!(o.get_admin_op_daily_limit(0), 0);
}

#[test]
fn what_is_known_of_a_source() {
    let mut o = oracle(1, 1);
    let env = at(110, 1_000_000);
    let s = address(1);
    assert_eq!(o.set_source_deviation_tolerance(&env, s, 30), Ok(()));
    assert_eq!(o.get_source_deviation_tolerance(s), Some(30));
    assert_eq!(o.set_source_deviation_tolerance(&env, s, 0), Ok(()));
    assert_eq!(o.get_source_deviation_tolerance(s), None);
    assert_eq!(o.add_source_with_assets(&env, address(2), "two".to_string(), vec![address(101)]), Ok(()));
    assert_eq!(o.get_source_assets(address(2)), vec![address(101)]);
    assert_eq!(o.remove_source_asset(&env, address(2), address(101)), Ok(()));
    assert!(o.get_source_assets(address(2)).is_empty());
    assert_eq!(o.add_source_asset(&env, address(2), address(101)), Ok(()));
    assert_eq!(o.get_source_assets(address(2)), vec![address(101)]);
    assert_eq!(o.set_source_verification(&env, s, true, "kyc".to_string(), address(60)), Ok(()));
    assert!(o.get_source_verification(s).unwrap().verified);
    assert_eq!(o.mark_source_for_removal(&env, s), Ok(()));
    assert_eq!(o.cancel_source_removal(&env, s), Ok(()));
    assert!(!o.is_source_pending_removal(s));
    assert!(o.get_source_governance().is_none());
    assert_eq!(o.set_reputation_decay_factor(&env, 3), Ok(()));
    assert_eq!(o.get_reputation_decay_factor(), 3);
    assert_eq!(o.get_removal_cooldown(), 0);
    assert_eq!(o.set_source_bond(&env, 40), Ok(()));
    assert_eq!(o.get_source_bond(), 40);
    assert_eq!(o.get_source_deposited_bond(s), 0);
    assert_eq!(o.deposit_source_bond(&env, s), Err(ErrorCode::StakeTokenNotConfigured));
    assert_eq!(o.set_stake_token_contract(&env, address(60)), Ok(()));
    assert_eq!(o.deposit_source_bond(&env, s), Ok(()));
    assert_eq!(o.get_source_deposited_bond(s), 40);
    assert_eq!(o.delegate_role(&env, address(5), 1), Ok(()));
    assert_eq!(o.get_address_roles(address(5)), vec![1]);
}

#[test]
fn an_emergency_can_be_ended_early() {
    let mut o = oracle(1, 1);
    let env = at(110, 1_000_000);
    assert_eq!(o.cancel_emergency_pause(&env), Err(ErrorCode::NoData));
    assert_eq!(o.emergency_pause(&env, "e".to_string(), 10), Ok(()));
    assert_eq!(o.get_emergency_pause().unwrap().until_ledger, 120);
    assert_eq!(o.cancel_emergency_pause(&env), Ok(()));
    assert!(!o.is_emergency_pause_active(&env));
}

#[test]
fn authorized_consumers_read_the_standard_interface() {
    let mut o = oracle(1, 1);
    let env = at(110, 1_000_000);
    let asset = Asset::Stellar(address(101));
    submit(&mut o, &env, 1, 101, 50);
    let c = address(70);
    assert_eq!(o.lastprice_authorized(&env, c, asset).unwrap().unwrap().price, 50);
    assert_eq!(o.price_authorized(&env, c, asset, 1_000_000).unwrap().unwrap().price, 50);
    assert_eq!(o.prices_authorized(&env, c, asset, 3).unwrap().unwrap().len(), 1);
    assert_eq!(o.set_consumer_access_mode(&env, 1), Ok(()));
    assert_eq!(o.lastprice_authorized(&env, c, asset), Err(ErrorCode::NotAuthorized));
    assert_eq!(o.price_authorized(&env, c, asset, 1_000_000), Err(ErrorCode::NotAuthorized));
    assert_eq!(o.prices_authorized(&env, c, asset, 3), Err(ErrorCode::NotAuthorized));
}

#[test]
fn a_digest_can_be_taken_of_the_longest_salt() {
    let salt = vec![7u8; 1_799_980];
    let h = commit_hash(1, &salt, 2).unwrap();
    assert_ne!(h, commit_hash(2, &salt, 2).unwrap());
}
