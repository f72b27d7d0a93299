use price_oracle::aggregation::{combine, deviation_bps, mean, median, trimmed_mean, weighted_median};
use price_oracle::{
    geometric_mean, Address, AggregatePrice, AggregationMethod, Asset, Env, ErrorCode, Event, PriceData,
    PriceOracleContract, Symbol, TwapMethod,
};

fn address(n: u8) -> Address {
    Address { is_contract: false, id: [n; 32] }
}

const ADMIN: u8 = 200;

/// The circumstances of a call that every address below a limit authorizes.
fn at(ledger: u32, timestamp: u64) -> Env {
    let mut authorized = Vec::new();
    for n in 0..=ADMIN {
        authorized.push(address(n));
    }
    Env { ledger, timestamp, ledger_hash: [7; 32], cpu_instructions: 0, memory_bytes: 0, authorized }
}

fn by_nobody() -> Env {
    Env { authorized: Vec::new(), ..at(100, 1_000_000) }
}

/// An oracle with the sources 1 to `sources` and the assets 101 to 100 + `assets`.
fn oracle(sources: u8, assets: u8) -> PriceOracleContract {
    let env = at(100, 1_000_000);
    let mut o = PriceOracleContract::new();
    assert_eq!(o.initialize(&env, address(ADMIN), 1, 100, 8, "test".to_string()), Ok(()));
    for n in 1..=sources {
        assert_eq!(o.add_source(&env, address(n), format!("source {}", n)), Ok(()));
    }
    for n in 1..=assets {
        assert_eq!(o.register_asset(&env, address(100 + n)), Ok(()));
    }
    o
}

fn submit(o: &mut PriceOracleContract, env: &Env, source: u8, asset: u8, price: i128) {
    assert_eq!(o.submit_price(env, address(source), address(asset), price, env.timestamp, 0), Ok(()));
}

#[test]
fn the_median_of_an_odd_number_is_the_middle_one() {
    assert_eq!(median(&vec![30, 10, 20]), 20);
    assert_eq!(median(&vec![7]), 7);
}

#[test]
fn the_median_of_an_even_number_is_the_midpoint() {
    assert_eq!(median(&vec![40, 10, 30, 21]), 25);
    assert_eq!(median(&vec![i128::MAX, i128::MAX - 2]), i128::MAX - 1);
}

#[test]
fn the_mean_is_rounded_down() {
    assert_eq!(mean(&vec![10, 20, 25]), 18);
    assert_eq!(mean(&vec![i128::MAX, i128::MAX, i128::MAX]), i128::MAX);
}

#[test]
fn the_trimmed_mean_leaves_out_a_tenth_on_each_side() {
    let prices: Vec<i128> = vec![1_000_000, 10, 12, 14, 16, 18, 20, 22, 24, 1];
    assert_eq!(trimmed_mean(&prices), 17);
    assert_eq!(trimmed_mean(&vec![1, 2, 9]), 4);
}

#[test]
fn the_weighted_median_is_where_half_of_the_weight_is_reached() {
    assert_eq!(weighted_median(&vec![10, 20, 30], &vec![1, 1, 1]), 20);
    assert_eq!(weighted_median(&vec![10, 20, 30], &vec![1, 1, 5]), 30);
    assert_eq!(weighted_median(&vec![30, 10], &vec![1, 1]), 10);
}

#[test]
fn the_geometric_mean_is_rounded_down() {
    assert_eq!(geometric_mean(&vec![2, 8]), 4);
    assert_eq!(geometric_mean(&vec![1, 10, 100]), 10);
    assert_eq!(geometric_mean(&vec![2, 3]), 2);
    assert_eq!(geometric_mean(&vec![i128::MAX, i128::MAX, i128::MAX]), i128::MAX);
    assert_eq!(geometric_mean(&vec![1_000_000_000_000_000_000_000, 4_000_000_000_000_000_000_000]), 2_000_000_000_000_000_000_000);
}

#[test]
fn a_deviation_is_counted_in_ten_thousandths() {
    assert_eq!(deviation_bps(105, 100), 500);
    assert_eq!(deviation_bps(95, 100), 500);
    assert_eq!(deviation_bps(100, 3), 323_333);
    assert_eq!(deviation_bps(i128::MAX, 1), u32::MAX);
}

#[test]
fn every_method_stays_between_the_lowest_and_the_highest_price() {
    let prices: Vec<i128> = vec![90, 110, 100, 95, 400];
    let weights: Vec<u32> = vec![1, 2, 3, 4, 5];
    for method in [
        AggregationMethod::Median,
        AggregationMethod::Mean,
        AggregationMethod::TrimmedMean,
        AggregationMethod::WeightedMedian,
    ] {
        let p = combine(method, &prices, &weights);
        assert!(90 <= p && p <= 400);
    }
}

#[test]
fn a_minority_does_not_move_the_median() {
    let mut o = oracle(5, 1);
    let env = at(110, 1_000_100);
    for (source, price) in [(1, 100), (2, 101), (3, 102), (4, i128::MAX), (5, 1)] {
        submit(&mut o, &env, source, 101, price);
    }
    assert_eq!(o.get_aggregate_price(address(101)).unwrap().price, 101);
}

#[test]
fn an_aggregate_needs_enough_sources() {
    let mut o = oracle(3, 1);
    let env = at(110, 1_000_100);
    assert_eq!(o.set_min_sources_required(&env, 2), Ok(()));
    submit(&mut o, &env, 1, 101, 100);
    assert_eq!(o.get_aggregate_price(address(101)), None);
    assert_eq!(o.trigger_aggregation(&env, address(101)), Err(ErrorCode::InsufficientSources));
    submit(&mut o, &env, 2, 101, 300);
    let a = o.get_aggregate_price(address(101)).unwrap();
    assert_eq!(a, AggregatePrice { price: 200, timestamp: 1_000_100, num_sources: 2, ledger: 110 });
}

#[test]
fn the_method_can_be_chosen() {
    let mut o = oracle(3, 1);
    let env = at(110, 1_000_100);
    assert_eq!(o.set_aggregation_method(&env, 4), Err(ErrorCode::InvalidConfiguration));
    assert_eq!(o.set_aggregation_method(&env, 1), Ok(()));
    assert_eq!(o.get_aggregation_method(), 1);
    for (source, price) in [(1, 10), (2, 20), (3, 90)] {
        submit(&mut o, &env, source, 101, price);
    }
    assert_eq!(o.get_aggregate_price(address(101)).unwrap().price, 40);
}

#[test]
fn a_submission_is_refused_for_each_reason() {
    let mut o = oracle(1, 1);
    let env = at(110, 1_000_000);
    let (s, a) = (address(1), address(101));
    assert_eq!(o.submit_price(&by_nobody(), s, a, 1, 1_000_000, 0), Err(ErrorCode::NotAuthorized));
    assert_eq!(o.submit_price(&env, address(9), a, 1, 1_000_000, 0), Err(ErrorCode::SourceNotFound));
    assert_eq!(o.submit_price(&env, s, address(150), 1, 1_000_000, 0), Err(ErrorCode::AssetNotRegistered));
    assert_eq!(o.submit_price(&env, s, a, 0, 1_000_000, 0), Err(ErrorCode::InvalidPrice));
    assert_eq!(o.submit_price(&env, s, a, -5, 1_000_000, 0), Err(ErrorCode::InvalidPrice));
    assert_eq!(o.submit_price(&env, s, a, 1, 1_000_301, 0), Err(ErrorCode::InvalidTimestamp));
    assert_eq!(o.set_price_bounds(&env, a, 50, 500, 0), Ok(()));
    assert_eq!(o.submit_price(&env, s, a, 49, 1_000_000, 0), Err(ErrorCode::PriceBelowMinimum));
    assert_eq!(o.submit_price(&env, s, a, 50, 1_000_300, 0), Ok(()));
    assert_eq!(o.freeze_price(&env, a, "maintenance".to_string()), Ok(()));
    assert_eq!(o.submit_price(&env, s, a, 60, 1_000_000, 0), Err(ErrorCode::PriceFrozen));
    assert_eq!(o.unfreeze_price(&env, a), Ok(()));
    assert_eq!(o.pause(&env), Ok(()));
    assert_eq!(o.submit_price(&env, s, a, 60, 1_000_000, 0), Err(ErrorCode::ContractPaused));
    assert_eq!(o.unpause(&env), Ok(()));
    assert_eq!(o.set_bft_parameters(&env, 1, 0), Ok(()));
    assert_eq!(o.submit_price(&env, s, a, 60, 1_000_000, 0), Err(ErrorCode::CommitRevealRequired));
    assert_eq!(o.enter(), Ok(()));
    assert_eq!(o.submit_price(&env, s, a, 60, 1_000_000, 0), Err(ErrorCode::Reentrancy));
    assert_eq!(o.enter(), Err(ErrorCode::Reentrancy));
    o.exit();
    assert_eq!(o.get_aggregate_price(a).unwrap().price, 50);
}

#[test]
fn a_batch_is_stored_as_a_whole_or_not_at_all() {
    let mut o = oracle(1, 2);
    let env = at(110, 1_000_000);
    let good = vec![(address(101), 5, 1_000_000), (address(102), 6, 1_000_000)];
    let bad = vec![(address(101), 7, 1_000_000), (address(102), 0, 1_000_000)];
    assert_eq!(o.submit_prices(&env, address(1), good), Ok(()));
    assert_eq!(o.submit_prices(&env, address(1), bad), Err(ErrorCode::InvalidPrice));
    assert_eq!(o.get_aggregate_price(address(101)).unwrap().price, 5);
    assert_eq!(o.get_aggregate_price(address(102)).unwrap().price, 6);
    assert_eq!(o.get_source_price(address(101), address(1)).unwrap().price, 5);
}

#[test]
fn the_version_moves_only_with_the_price() {
    let mut o = oracle(1, 1);
    let a = address(101);
    assert_eq!(o.get_aggregate_with_version(a), Err(ErrorCode::NoData));
    submit(&mut o, &at(110, 1_000_000), 1, 101, 100);
    assert_eq!(o.get_aggregate_with_version(a).unwrap().version, 0);
    submit(&mut o, &at(111, 1_000_000), 1, 101, 100);
    assert_eq!(o.get_aggregate_with_version(a).unwrap().version, 0);
    submit(&mut o, &at(112, 1_000_000), 1, 101, 101);
    assert_eq!(o.get_aggregate_with_version(a).unwrap().version, 1);
}

#[test]
fn a_frozen_price_is_reported_unchanged() {
    let mut o = oracle(1, 1);
    let env = at(110, 1_000_000);
    let a = address(101);
    assert_eq!(o.freeze_price(&env, a, "x".to_string()), Err(ErrorCode::NoData));
    submit(&mut o, &env, 1, 101, 100);
    assert_eq!(o.freeze_price(&env, a, "x".repeat(257)), Err(ErrorCode::ReasonTooLong));
    assert_eq!(o.freeze_price(&env, a, "x".to_string()), Ok(()));
    assert!(o.is_price_frozen(a));
    assert_eq!(o.freeze_price(&env, a, "x".to_string()), Err(ErrorCode::PriceFrozen));
    let late = at(9_000, 9_000_000);
    assert_eq!(o.get_price(&late, a, 1).unwrap().unwrap().price, 100);
    assert_eq!(o.unfreeze_price(&env, a), Ok(()));
    assert_eq!(o.unfreeze_price(&env, a), Err(ErrorCode::PriceNotFrozen));
    assert_eq!(o.get_price(&late, a, 1).unwrap(), None);
    let events = o.take_events();
    assert!(events.iter().any(|e| matches!(e, Event::PriceStale { timestamp: 1_000_000, .. })));
    assert!(o.take_events().is_empty());
}

#[test]
fn a_ledger_holds_a_limited_number_of_queries() {
    let mut o = oracle(1, 1);
    let env = at(110, 1_000_000);
    submit(&mut o, &env, 1, 101, 100);
    assert_eq!(o.set_query_rate_limit(&env, 2), Ok(()));
    assert!(o.get_price(&env, address(101), 0).is_ok());
    assert!(o.get_price(&env, address(101), 0).is_ok());
    assert_eq!(o.get_price(&env, address(101), 0), Err(ErrorCode::RateLimitExceeded));
    assert!(o.get_price(&at(111, 1_000_000), address(101), 0).is_ok());
    assert_eq!(o.get_price(&env, address(150), 0), Err(ErrorCode::AssetNotRegistered));
}

#[test]
fn a_resolution_hides_old_prices() {
    let mut o = oracle(1, 1);
    let env = at(110, 1_000_000);
    submit(&mut o, &env, 1, 101, 100);
    assert_eq!(o.set_resolution(&env, 60), Ok(()));
    let asset = Asset::Stellar(address(101));
    assert!(o.lastprice(&at(111, 1_000_060), asset).unwrap().is_some());
    assert!(o.lastprice(&at(111, 1_000_061), asset).unwrap().is_none());
    assert_eq!(o.set_asset_resolution(&env, address(101), 600), Ok(()));
    assert_eq!(o.lastprice(&at(111, 1_000_061), asset), Ok(Some(PriceData { price: 100, timestamp: 1_000_000 })));
    assert!(o.lastprice(&env, Asset::Other(Symbol { text: [0; 32] })).unwrap().is_none());
}

/// Ledgers 110, 120 and 140 with the prices 100, 200 and 400.
fn with_history() -> PriceOracleContract {
    let mut o = oracle(1, 1);
    submit(&mut o, &at(110, 1_000_110), 1, 101, 100);
    submit(&mut o, &at(120, 1_000_120), 1, 101, 200);
    submit(&mut o, &at(140, 1_000_140), 1, 101, 400);
    o
}

#[test]
fn history_is_kept_by_ledger() {
    let o = with_history();
    let a = address(101);
    assert_eq!(o.get_historical_price(a, 120).unwrap().price, 200);
    assert_eq!(o.has_historical_price(a, 121), Ok(false));
    assert_eq!(o.get_historical_price(a, 121), Err(ErrorCode::NoData));
    assert_eq!(o.get_historical_prices(a, 0, 101), Err(ErrorCode::NoData));
    let range = o.get_historical_prices(a, 111, 140).unwrap();
    assert_eq!(range.iter().map(|e| e.price).collect::<Vec<_>>(), vec![200, 400]);
    let (page, next) = o.get_historical_prices_paginated(a, 0, 2).unwrap();
    assert_eq!(page.iter().map(|e| e.ledger).collect::<Vec<_>>(), vec![110, 120]);
    let (rest, end) = o.get_historical_prices_paginated(a, next.unwrap(), 2).unwrap();
    assert_eq!(rest.iter().map(|e| e.ledger).collect::<Vec<_>>(), vec![140]);
    assert_eq!(end, None);
    assert_eq!(o.get_historical_prices_paginated(a, 0, 0), Err(ErrorCode::InvalidPageSize));
}

#[test]
fn a_price_between_two_records_can_be_estimated() {
    let mut o = with_history();
    let env = at(150, 1_000_150);
    assert_eq!(o.set_interpolation_enabled(&env, true), Ok(()));
    let e = o.get_historical_price(address(101), 130).unwrap();
    assert_eq!((e.price, e.is_interpolated), (300, true));
}

#[test]
fn the_standard_interface_reads_the_history() {
    let o = with_history();
    let env = at(150, 1_000_150);
    let asset = Asset::Stellar(address(101));
    assert_eq!(o.price(&env, asset, 1_000_125), Ok(Some(PriceData { price: 200, timestamp: 1_000_120 })));
    assert_eq!(o.price(&env, asset, 1_000_000), Ok(None));
    let newest = o.prices(&env, asset, 2).unwrap().unwrap();
    assert_eq!(newest.iter().map(|d| d.price).collect::<Vec<_>>(), vec![400, 200]);
}

#[test]
fn an_average_over_time_weighs_each_ledger() {
    let o = with_history();
    let env = at(149, 1_000_150);
    // ten ledgers at 100, twenty at 200, ten at 400
    let arithmetic = o.get_twap(&env, address(101), 1000, TwapMethod::Arithmetic).unwrap();
    assert_eq!(arithmetic, PriceData { price: 225, timestamp: 1_000_140 });
    let geometric = o.get_twap(&env, address(101), 1000, TwapMethod::Geometric).unwrap();
    assert_eq!(geometric.price, 200);
    let recent = o.get_twap(&env, address(101), 9, TwapMethod::Arithmetic).unwrap();
    assert_eq!(recent.price, 400);
    assert_eq!(o.get_twap(&env, address(150), 9, TwapMethod::Arithmetic), None);
    assert_eq!(o.get_twap(&env, address(101), 8, TwapMethod::Geometric), None);
}

#[test]
fn an_export_passes_its_check() {
    let o = with_history();
    let snapshot = o.export_history(address(101), 0, 10).unwrap();
    assert_eq!(snapshot.entries.len(), 3);
    assert_eq!((snapshot.from_ledger, snapshot.to_ledger, snapshot.next_cursor), (0, 140, None));
    assert_eq!(o.verify_export(address(101), 0, 140, snapshot.data_hash), Ok(true));
    assert_eq!(o.verify_export(address(101), 0, 140, snapshot.data_hash ^ 1), Ok(false));
    assert_eq!(o.verify_export(address(101), 111, 119, 0), Err(ErrorCode::ExportNotFound));
    assert_eq!(o.export_history(address(101), 0, 201).err(), Some(ErrorCode::ExportLimitExceeded));
    assert_eq!(o.export_history(address(101), 0, 0).err(), Some(ErrorCode::ExportLimitExceeded));
}

#[test]
fn compaction_keeps_the_ends() {
    let mut o = oracle(1, 1);
    for (i, price) in [1000, 1001, 1002, 2000, 2001].into_iter().enumerate() {
        submit(&mut o, &at(110 + i as u32, 1_000_000), 1, 101, price);
    }
    let env = at(150, 1_000_000);
    assert_eq!(o.set_compaction_threshold_bps(&env, 100), Ok(()));
    let m = o.compact_history(&env, address(101)).unwrap();
    assert_eq!((m.entries_before, m.entries_after, m.ledger), (5, 3, 150));
    let kept = o.get_historical_prices(address(101), 100, 200).unwrap();
    assert_eq!(kept.iter().map(|e| e.price).collect::<Vec<_>>(), vec![1000, 2000, 2001]);
    assert_eq!(o.get_compaction_metadata(address(101)), Some(m));
}

#[test]
fn close_prices_are_merged_when_another_is_recorded() {
    let mut o = oracle(1, 1);
    let env = at(100, 1_000_000);
    assert_eq!(o.set_compaction_threshold_bps(&env, 100), Ok(()));
    for (i, price) in [1000, 1001, 1002, 2000, 2001].into_iter().enumerate() {
        submit(&mut o, &at(110 + i as u32, 1_000_000), 1, 101, price);
    }
    let kept = o.get_historical_prices(address(101), 100, 200).unwrap();
    assert_eq!(kept.iter().map(|e| e.price).collect::<Vec<_>>(), vec![1000, 2000, 2001]);
    let m = o.compact_history(&env, address(101)).unwrap();
    assert_eq!((m.entries_before, m.entries_after), (3, 3));
    assert_eq!(o.set_compaction_threshold_bps(&env, 0), Ok(()));
    submit(&mut o, &at(120, 1_000_000), 1, 101, 2001);
    assert_eq!(o.get_historical_prices(address(101), 100, 200).unwrap().len(), 4);
}

#[test]
fn sharding_a_second_time_moves_nothing() {
    let mut o = with_history();
    let env = at(150, 1_000_150);
    assert_eq!(o.migrate_history_to_shards(&env, address(101)), Ok(3));
    assert_eq!(o.migrate_history_to_shards(&env, address(101)), Ok(0));
    assert_eq!(o.get_bucket_entries(address(101), 120).unwrap().len(), 3);
    submit(&mut o, &at(160, 1_000_160), 1, 101, 500);
    assert_eq!(o.migrate_history_to_shards(&env, address(101)), Ok(1));
}

#[test]
fn the_oldest_records_are_dropped_and_announced() {
    let mut o = oracle(1, 1);
    assert_eq!(o.set_max_history_length(&at(100, 1_000_000), 2), Ok(()));
    for i in 0..4u32 {
        submit(&mut o, &at(110 + i, 1_000_000), 1, 101, 100 + i as i128);
    }
    let kept = o.price_history(address(101), None, None);
    assert_eq!(kept.iter().map(|e| e.ledger).collect::<Vec<_>>(), vec![112, 113]);
    let pruned = o.take_events().iter().filter(|e| matches!(e, Event::HistoryPruned { .. })).count();
    assert_eq!(pruned, 2);
}

#[test]
fn a_round_limits_what_counts() {
    let mut o = oracle(2, 1);
    let env = at(110, 1_000_000);
    submit(&mut o, &env, 1, 101, 100);
    assert_eq!(o.start_aggregation_round(&env, 120, 130), Ok(()));
    submit(&mut o, &at(125, 1_000_000), 2, 101, 300);
    assert_eq!(o.get_aggregate_price(address(101)).unwrap().price, 300);
    assert_eq!(o.clear_aggregation_round(&env), Ok(()));
    submit(&mut o, &at(126, 1_000_000), 2, 101, 300);
    assert_eq!(o.get_aggregate_price(address(101)).unwrap().price, 200);
}

#[test]
fn a_trial_aggregation_stores_nothing() {
    let o = oracle(2, 1);
    let trial = vec![(address(1), 100), (address(2), 300)];
    assert_eq!(o.simulate_aggregation(address(101), &trial), Some(200));
    assert_eq!(o.get_aggregate_price(address(101)), None);
}

#[test]
fn deviations_are_reported() {
    let mut o = oracle(1, 1);
    submit(&mut o, &at(110, 1_000_000), 1, 101, 1000);
    submit(&mut o, &at(111, 1_000_000), 1, 101, 1100);
    submit(&mut o, &at(112, 1_000_000), 1, 101, 1100);
    let report = o.get_source_deviation_report(address(1), address(101), 10);
    assert_eq!((report.avg_deviation_bps, report.max_deviation_bps, report.num_rounds), (500, 1000, 2));
    let report = o.get_source_deviation_report(address(1), address(101), 1);
    assert_eq!((report.avg_deviation_bps, report.max_deviation_bps, report.num_rounds), (0, 0, 1));
}

#[test]
fn the_cost_of_a_submission_is_kept() {
    let mut o = oracle(1, 1);
    let before = at(110, 1_000_000);
    let after = Env { cpu_instructions: 500, memory_bytes: 64, ..at(110, 1_000_000) };
    o.record_submit_gas(&before, &after);
    let (cpu, memory, last) = o.get_gas_stats(&after);
    assert_eq!((cpu, memory), (500, 64));
    let last = last.unwrap();
    assert_eq!((last.operation.as_str(), last.cpu_instructions, last.memory_bytes), ("submit_price", 500, 64));
}

#[test]
fn storage_is_estimated() {
    let mut o = oracle(2, 2);
    let env = at(110, 1_000_000);
    submit(&mut o, &env, 1, 101, 100);
    submit(&mut o, &env, 2, 101, 100);
    let b = o.get_storage_budget(address(101)).unwrap();
    assert_eq!((b.history_entries, b.submission_entries, b.total_entries), (1, 2, 5));
    assert_eq!((b.term_cost, b.monthly_cost), (50_000, 200_000));
    assert_eq!(o.get_storage_budget(address(150)), Err(ErrorCode::AssetNotRegistered));
    let t = o.get_total_storage_budget().unwrap();
    assert_eq!((t.assets, t.total_entries, t.term_cost), (2, 6, 60_000));
    let s = o.oracle_state_analyze();
    assert_eq!((s.sources, s.assets, s.priced_assets, s.frozen_assets, s.history_entries), (2, 2, 1, 0, 1));
}
