use price_oracle::bridges::{payload_digest, rescale, root_of};
use price_oracle::pools::spot;
use price_oracle::{
    mul_div, Address, AssetPricingConfig, BridgeOracleConfig, CrossChainRelayConfig, Env, ErrorCode, Event,
    FeedMetadata, PriceEventPayload, PriceOracleContract, StellarHeader, Symbol,
};

fn address(n: u8) -> Address {
    Address { is_contract: false, id: [n; 32] }
}

const ADMIN: u8 = 200;

/// The circumstances of a call that every address below a limit authorizes.
fn at(ledger: u32, timestamp: u64) -> Env {
    let mut authorized = Vec::new();
    for n in 0..=ADMIN {
        authorized.push(address(n));
    }
    Env { ledger, timestamp, ledger_hash: [7; 32], cpu_instructions: 0, memory_bytes: 0, authorized }
}

fn by_nobody() -> Env {
    Env { authorized: Vec::new(), ..at(100, 1_000_000) }
}

/// An oracle with the sources 1 to `sources` and the assets 101 to 100 + `assets`.
fn oracle(sources: u8, assets: u8) -> PriceOracleContract {
    let env = at(100, 1_000_000);
    let mut o = PriceOracleContract::new();
    assert_eq!(o.initialize(&env, address(ADMIN), 1, 100, 8, "test".to_string()), Ok(()));
    for n in 1..=sources {
        assert_eq!(o.add_source(&env, address(n), format!("source {}", n)), Ok(()));
    }
    for n in 1..=assets {
        assert_eq!(o.register_asset(&env, address(100 + n)), Ok(()));
    }
    o
}

fn hex(text: &str) -> [u8; 32] {
    let mut out = [0u8; 32];
    for (i, b) in out.iter_mut().enumerate() {
        *b = u8::from_str_radix(&text[2 * i..2 * i + 2], 16).unwrap();
    }
    out
}

fn symbol(text: &str) -> Symbol {
    let mut s = Symbol { text: [0; 32] };
    s.text[..text.len()].copy_from_slice(text.as_bytes());
    s
}

fn submit(o: &mut PriceOracleContract, env: &Env, source: u8, asset: u8, price: i128) {
    assert_eq!(o.submit_price(env, address(source), address(asset), price, env.timestamp, 0), Ok(()));
}

#[test]
fn a_swap_keeps_the_product() {
    let mut o = oracle(0, 0);
    let env = at(100, 1_000_000);
    let p = symbol("XY");
    let (x, y) = (address(1), address(2));
    assert_eq!(o.amm_init(&env, p, x, y, 0, 5), Err(ErrorCode::InvalidConfiguration));
    assert_eq!(o.amm_init(&env, p, x, y, 1_000, 1_000), Ok(()));
    assert_eq!(o.amm_init(&env, p, x, y, 1_000, 1_000), Err(ErrorCode::PoolAlreadyExists));
    assert_eq!(o.amm_init(&env, symbol("Z"), x, y, i128::MAX, 2), Err(ErrorCode::ArithmeticOverflow));
    assert_eq!(o.amm_swap(&env, address(9), symbol("Q"), x, y, 100, 0), Err(ErrorCode::PoolNotFound));
    assert_eq!(o.amm_swap(&env, address(9), p, x, y, 100, 91), Err(ErrorCode::SlippageExceeded));
    assert_eq!(o.amm_swap(&env, address(9), p, x, y, 100, 90), Ok(90));
    let pool = o.amm_get_pool(p).unwrap();
    assert_eq!((pool.reserve_x, pool.reserve_y), (1_100, 910));
    assert!(pool.k >= 1_000_000);
    assert_eq!(o.amm_add_liquidity(&env, address(9), p, 10, 10), Ok(()));
    assert_eq!(o.amm_get_pool(p).unwrap().k, 1_110 * 920);
    assert_eq!(o.amm_set_status(&env, p, false), Ok(()));
    assert_eq!(o.amm_swap(&env, address(9), p, y, x, 10, 0), Err(ErrorCode::PoolNotFound));
}

#[test]
fn a_swap_far_from_the_oracle_price_is_refused() {
    let mut o = oracle(1, 1);
    let env = at(110, 1_000_000);
    submit(&mut o, &env, 1, 101, 100_000_000);
    let p = symbol("XY");
    let (x, y) = (address(101), address(2));
    assert_eq!(o.amm_init(&env, p, x, y, 1_000_000, 1_000_000), Ok(()));
    assert_eq!(o.amm_swap(&env, address(9), p, x, y, 500_000, 0), Err(ErrorCode::AmmPriceManipulation));
    assert_eq!(o.amm_swap(&env, address(9), p, x, y, 1_000, 0), Ok(996));
}

#[test]
fn a_pool_draws_the_aggregate_towards_its_price() {
    let mut o = oracle(1, 1);
    let env = at(110, 1_000_000);
    let p = symbol("XY");
    assert_eq!(o.amm_init(&env, p, address(101), address(2), 1_000, 2_000), Ok(()));
    submit(&mut o, &env, 1, 101, 100_000_000);
    assert_eq!(o.get_aggregate_price(address(101)).unwrap().price, 100_000_000);
    assert_eq!(o.amm_set_weight(&env, address(101), 2_500, true), Ok(()));
    submit(&mut o, &env, 1, 101, 100_000_000);
    assert_eq!(o.get_aggregate_price(address(101)).unwrap().price, 125_000_000);
    assert_eq!(o.simulate_aggregation(address(101), &vec![(address(1), 300_000_000)]), Some(275_000_000));
    assert_eq!(o.amm_set_weight(&env, address(101), 10_000, true), Ok(()));
    submit(&mut o, &env, 1, 101, 100_000_000);
    assert_eq!(o.get_aggregate_price(address(101)).unwrap().price, 200_000_000);
    assert_eq!(o.amm_set_weight(&env, address(101), 10_000, false), Ok(()));
    submit(&mut o, &env, 1, 101, 100_000_000);
    assert_eq!(o.get_aggregate_price(address(101)).unwrap().price, 100_000_000);
    assert_eq!(o.amm_set_weight(&env, address(101), 10_000, true), Ok(()));
    assert_eq!(o.amm_set_status(&env, p, false), Ok(()));
    submit(&mut o, &env, 1, 101, 100_000_000);
    assert_eq!(o.get_aggregate_price(address(101)).unwrap().price, 100_000_000);
}

#[test]
fn a_pool_gives_a_spot_price() {
    let mut o = oracle(0, 0);
    let env = at(100, 1_000_000);
    assert_eq!(spot(4, 10, 2), Some(250));
    assert_eq!(spot(0, 10, 2), None);
    assert_eq!(o.soroswap_register_pool(&env, address(1), address(2), 4, 10, 30), Ok(()));
    assert_eq!(o.get_soroswap_price(address(1), address(2)), Some(250_000_000));
    assert_eq!(o.soroswap_set_pool_status(&env, address(1), address(2), false), Ok(()));
    assert_eq!(o.get_soroswap_price(address(1), address(2)), None);
    assert_eq!(o.dex_register_pool(&env, address(1), address(2), 5, 10), Ok(()));
    let d = o.get_dex_price(address(1)).unwrap();
    assert_eq!((d.paired_asset, d.price), (address(2), 200_000_000));
}

#[test]
fn a_price_changes_its_decimals() {
    assert_eq!(rescale(123, 2, 5), Some(123_000));
    assert_eq!(rescale(123_999, 5, 2), Some(123));
    assert_eq!(rescale(-123_999, 5, 2), Some(-123));
    assert_eq!(rescale(i128::MAX, 0, 1), None);
    assert_eq!(rescale(rescale(77, 3, 11).unwrap(), 11, 3), Some(77));
    assert_eq!(mul_div(u128::MAX, u128::MAX, u128::MAX), Some(u128::MAX));
}

#[test]
fn a_bridge_reports_prices() {
    let mut o = oracle(0, 0);
    let env = at(110, 1_000_000);
    let config = BridgeOracleConfig {
        source_asset: address(1),
        target_asset: address(2),
        oracle: address(60),
        source_decimals: 6,
    };
    assert_eq!(o.bridge_register_oracle(&env, config), Ok(()));
    assert_eq!(o.bridge_submit_price(&env, address(1), address(2), 0, 1), Err(ErrorCode::InvalidConfiguration));
    assert_eq!(o.bridge_submit_price(&by_nobody(), address(1), address(2), 5, 1), Err(ErrorCode::NotAuthorized));
    assert_eq!(o.bridge_submit_price(&env, address(1), address(2), 5, 1), Ok(()));
    assert_eq!(o.bridge_get_price(address(1), address(2)).unwrap().price, 5);
    assert_eq!(o.bridge_normalize_price(5, 8, &config), Ok(500));
}

#[test]
fn a_header_has_the_digest_that_it_is_said_to_have() {
    let o = oracle(0, 0);
    let mut header = StellarHeader {
        sequence: 7,
        tx_set_hash: [1; 32],
        bucket_list_hash: [2; 32],
        expected_hash: hex("7c6e2ab9d1a65020ed89050e9293af81a2916e85488ba57ee996dd02e48bbe39"),
    };
    assert!(o.relay_verify_header(&header));
    header.sequence = 8;
    assert!(!o.relay_verify_header(&header));
}

#[test]
fn a_proof_leads_from_a_message_to_the_root() {
    let mut o = oracle(0, 0);
    let env = at(110, 1_000_000);
    let payload = PriceEventPayload { symbol: symbol("BTC"), price: 5, timestamp: 6, ledger: 7 };
    let leaf = hex("ce56d3b27fe0a0c9aaae647cb48ff1eacd443470389fd8bab5816f1fdd7ac45b");
    let right = hex("b91e6f924a6b6e3cd97f724a2a432b438d527cf2ca5cfb0358907de0cddd14a0");
    let left = hex("a729bebe4aadbf5c7c400922d4ba811995286dedf23adcc7a061435357145c50");
    assert_eq!(payload_digest(&payload), leaf);
    assert_eq!(root_of(&leaf, &vec![[9; 32]], 0), right);
    assert_eq!(root_of(&leaf, &vec![[9; 32]], 1), left);
    assert!(!o.relay_verify_event_proof(left, &vec![[9; 32]], payload));
    let config = CrossChainRelayConfig { quorum_threshold_bps: 6_700, merkle_path_bits: 1 };
    assert_eq!(o.relay_set_config(&env, config), Ok(()));
    assert!(o.relay_verify_event_proof(left, &vec![[9; 32]], payload));
    assert!(!o.relay_verify_event_proof(right, &vec![[9; 32]], payload));
}

#[test]
fn enough_validators_must_have_signed() {
    let mut o = oracle(0, 0);
    let three = vec![[1; 32], [2; 32], [3; 32]];
    let four = vec![[1; 32], [2; 32], [3; 32], [4; 32]];
    assert!(!o.relay_verify_validator_set(&three, &vec![true, true, true]));
    let config = CrossChainRelayConfig { quorum_threshold_bps: 6_700, merkle_path_bits: 1 };
    assert_eq!(o.relay_set_config(&at(110, 1_000_000), config), Ok(()));
    assert!(o.relay_verify_validator_set(&four, &vec![true, true, true, false]));
    assert!(!o.relay_verify_validator_set(&three, &vec![true, true, false]));
    assert!(!o.relay_verify_validator_set(&Vec::new(), &Vec::new()));
    assert!(o.relay_verify_validator_set(&four, &vec![true, true, true]));
    assert!(!o.relay_verify_validator_set(&four, &vec![true, true]));
    assert!(!o.relay_verify_validator_set(&three, &vec![true, false, false, true, true]));
}

#[test]
fn sources_are_sampled_by_the_randomness_of_the_ledger() {
    let mut o = oracle(5, 0);
    let env = at(100, 1_000_000);
    let seed = hex("112d998f550a7abb34cd4d51a917815dd5d19d577e17e23471063fe4a72bb383");
    let output = hex("52b2518fff25897630650ab732be6a189a2d280e2463692fab80249f754e57cd");
    assert_eq!(o.vdf_get_current_seed(&env), seed);
    let proof = b"proof".to_vec();
    assert!(o.vdf_verify_proof(seed, &proof, 10, output));
    assert!(!o.vdf_verify_proof(seed, &proof, 11, output));
    assert!(!o.vdf_verify_proof(seed, &Vec::new(), 10, output));
    assert_eq!(o.vdf_sample_sources(&env, &proof, output, 10), vec![address(5), address(3), address(1)]);
    assert_eq!(o.vdf_sample_sources(&env, &Vec::new(), output, 10).len(), 5);
    assert_eq!(o.vdf_set_sampling_size(&env, 0), Err(ErrorCode::InvalidConfiguration));
    assert_eq!(o.vdf_set_sampling_size(&env, 9), Ok(()));
    let mut all = o.vdf_sample_sources(&env, &proof, output, 10);
    all.sort_by_key(|a| a.id);
    assert_eq!(all, o.get_sources());
}

#[test]
fn another_oracle_can_disagree() {
    let mut o = oracle(1, 1);
    let env = at(110, 1_000_000);
    submit(&mut o, &env, 1, 101, 110);
    assert_eq!(o.find_reference(address(101)), None);
    assert_eq!(o.get_cross_reference(address(101), 100).map(|r| r.deviation_bps), None);
    assert_eq!(o.add_reference_oracle(&env, address(60), vec![(address(101), address(61))]), Ok(()));
    assert_eq!(o.find_reference(address(101)), Some((address(60), address(61))));
    let r = o.get_cross_reference(address(101), 100).unwrap();
    assert_eq!((r.our_price, r.reference_price, r.deviation_bps), (110, 100, 1000));
    assert!(o.take_events().iter().any(|e| matches!(e, Event::CrossRefDeviation { deviation_bps: 1000, .. })));
    assert_eq!(o.get_cross_reference(address(101), 109).unwrap().deviation_bps, 91);
    assert!(o.take_events().is_empty());
    assert_eq!(o.remove_reference_oracle(&env, address(60)), Ok(()));
    assert!(o.get_reference_oracles().is_empty());
}

#[test]
fn exotic_assets_are_priced_by_their_components() {
    let mut o = oracle(1, 2);
    let env = at(110, 1_000_000);
    // eight decimals: 2 and 10
    submit(&mut o, &env, 1, 101, 200_000_000);
    submit(&mut o, &env, 1, 102, 1_000_000_000);
    let one: i128 = 1_000_000_000_000_000_000;
    let (lp, index, call, put) = (address(110), address(111), address(112), address(113));
    assert_eq!(o.exotic_get_price(lp), Err(ErrorCode::ExoticAssetNotConfigured));
    assert_eq!(o.exotic_set_config(&by_nobody(), lp, AssetPricingConfig::Direct), Err(ErrorCode::NotAuthorized));
    let pool = AssetPricingConfig::LPToken {
        asset_a: address(101),
        reserve_a: 50,
        asset_b: address(102),
        reserve_b: 10,
        supply: 100,
    };
    assert_eq!(o.exotic_set_config(&env, lp, pool), Ok(()));
    assert_eq!(o.exotic_get_price(lp), Ok(2 * one));
    let basket = AssetPricingConfig::Index { components: vec![(address(101), 5_000), (lp, 2_500), (address(102), 2_500)] };
    assert_eq!(o.exotic_set_config(&env, index, basket), Ok(()));
    assert_eq!(o.exotic_get_price(index), Ok(4 * one));
    let option = |is_call: bool| AssetPricingConfig::OptionOn { underlying: address(102), strike: 7 * one as u128, is_call };
    assert_eq!(o.exotic_set_config(&env, call, option(true)), Ok(()));
    assert_eq!(o.exotic_set_config(&env, put, option(false)), Ok(()));
    assert_eq!(o.exotic_get_price(call), Ok(3 * one));
    assert_eq!(o.exotic_get_price(put), Ok(0));
    assert_eq!(o.exotic_set_config(&env, address(101), AssetPricingConfig::Direct), Ok(()));
    assert_eq!(o.exotic_get_price(address(101)), Ok(2 * one));
    assert!(matches!(o.exotic_get_config(address(101)), Some(AssetPricingConfig::Direct)));
}

#[test]
fn exotic_assets_without_a_price_are_refused() {
    let mut o = oracle(1, 1);
    let env = at(110, 1_000_000);
    submit(&mut o, &env, 1, 101, 100);
    let basket = |n: u8| AssetPricingConfig::Index { components: vec![(address(n), 10_000)] };
    // 120 holds itself; 121 to 125 form a chain that ends in 101
    assert_eq!(o.exotic_set_config(&env, address(120), basket(120)), Ok(()));
    assert_eq!(o.exotic_get_price(address(120)), Err(ErrorCode::ExoticCycleDetected));
    for n in 121..125 {
        assert_eq!(o.exotic_set_config(&env, address(n), basket(n + 1)), Ok(()));
    }
    assert_eq!(o.exotic_set_config(&env, address(125), basket(101)), Ok(()));
    assert_eq!(o.exotic_get_price(address(121)), Err(ErrorCode::ExoticCycleLimitExceeded));
    assert_eq!(o.exotic_get_price(address(122)), Ok(1_000_000_000_000));
    assert_eq!(o.exotic_set_config(&env, address(130), basket(131)), Ok(()));
    assert_eq!(o.exotic_get_price(address(130)), Err(ErrorCode::NoData));
    let empty = AssetPricingConfig::LPToken {
        asset_a: address(101),
        reserve_a: 1,
        asset_b: address(101),
        reserve_b: 1,
        supply: 0,
    };
    assert_eq!(o.exotic_set_config(&env, address(131), empty), Ok(()));
    assert_eq!(o.exotic_get_price(address(131)), Err(ErrorCode::ArithmeticOverflow));
}

#[test]
fn documents_and_feeds_are_listed() {
    let mut o = oracle(1, 1);
    let env = at(110, 1_000_000);
    assert!(!o.did_verify(address(80)));
    assert_eq!(o.did_register(&env, address(80), "d".repeat(4097)), Err(ErrorCode::InvalidConfiguration));
    assert_eq!(o.did_register(&env, address(80), "doc".to_string()), Ok(()));
    assert_eq!(o.did_get_document(address(80)).unwrap().as_str(), "doc");
    assert_eq!(o.did_link_source(&env, address(1), address(80), true), Ok(()));
    assert_eq!(o.did_get_source_link(address(1)).unwrap().did, address(80));
    assert_eq!(o.did_get_all_source_links().len(), 1);
    let feed = FeedMetadata { asset: address(101), name: "feed".to_string(), decimals: 8 };
    assert_eq!(o.metadata_register_feed(&env, feed), Ok(()));
    assert_eq!(o.metadata_get_feed(address(101)).unwrap().name.as_str(), "feed");
    assert_eq!(o.metadata_list_feeds().len(), 1);
    assert!(o.metadata_get().is_none());
}
