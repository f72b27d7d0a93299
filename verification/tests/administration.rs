use price_oracle::{
    Address, BatchOperation, Env, ErrorCode, OperationType, PriceOracleContract,
};

fn address(n: u8) -> Address {
    Address { is_contract: false, id: [n; 32] }
}

const ADMIN: u8 = 200;

/// The circumstances of a call that every address below a limit authorizes.
fn at(ledger: u32, timestamp: u64) -> Env {
    let mut authorized = Vec::new();
    for n in 0..=ADMIN {
        authorized.push(address(n));
    }
    Env { ledger, timestamp, ledger_hash: [7; 32], cpu_instructions: 0, memory_bytes: 0, authorized }
}

fn by_nobody() -> Env {
    Env { authorized: Vec::new(), ..at(100, 1_000_000) }
}

/// An oracle with the sources 1 to `sources` and the assets 101 to 100 + `assets`.
fn oracle(sources: u8, assets: u8) -> PriceOracleContract {
    let env = at(100, 1_000_000);
    let mut o = PriceOracleContract::new();
    assert_eq!(o.initialize(&env, address(ADMIN), 1, 100, 8, "test".to_string()), Ok(()));
    for n in 1..=sources {
        assert_eq!(o.add_source(&env, address(n), format!("source {}", n)), Ok(()));
    }
    for n in 1..=assets {
        assert_eq!(o.register_asset(&env, address(100 + n)), Ok(()));
    }
    o
}

#[test]
fn a_contract_is_initialized_once() {
    let env = at(100, 1_000_000);
    let mut o = PriceOracleContract::new();
    assert_eq!(o.get_description().unwrap().as_str(), "Stellar Price Oracle");
    assert_eq!(o.get_admin(), None);
    assert_eq!(o.initialize(&by_nobody(), address(ADMIN), 2, 50, 18, String::new()), Err(ErrorCode::NotAuthorized));
    let long = "x".repeat(257);
    assert_eq!(o.initialize(&env, address(ADMIN), 2, 50, 18, long), Err(ErrorCode::DescriptionTooLong));
    assert_eq!(o.initialize(&env, address(ADMIN), 0, 0, 18, "d".to_string()), Ok(()));
    assert_eq!(o.get_min_sources_required(), Ok(1));
    assert_eq!(o.get_max_history_length(), Ok(100));
    assert_eq!(o.initialize(&env, address(ADMIN), 2, 50, 18, String::new()), Err(ErrorCode::AlreadyInitialized));
}

#[test]
fn settings_are_read_back() {
    let mut o = oracle(0, 0);
    let env = at(100, 1_000_000);
    assert_eq!(o.set_decimals(&env, 9), Ok(()));
    assert_eq!(o.get_decimals(), Ok(9));
    assert_eq!(o.set_resolution(&env, 30), Ok(()));
    assert_eq!(o.get_resolution(), Ok(30));
    assert_eq!(o.set_timestamp_threshold(&env, 10), Ok(()));
    assert_eq!(o.get_timestamp_threshold(), Ok(10));
    assert_eq!(o.set_heartbeat_interval(&env, 60), Ok(()));
    assert_eq!(o.get_heartbeat_interval(), Ok(60));
    assert_eq!(o.set_max_sources(&env, 7), Ok(()));
    assert_eq!(o.get_max_sources(), 7);
    assert_eq!(o.set_description(&env, "new".to_string()), Ok(()));
    assert_eq!(o.get_description().unwrap().as_str(), "new");
    assert_eq!(o.set_description(&env, "y".repeat(300)), Err(ErrorCode::DescriptionTooLong));
    assert_eq!(o.set_decimals(&by_nobody(), 3), Err(ErrorCode::NotAuthorized));
    assert_eq!(o.upgrade(&env, [9; 32]), Ok([9; 32]));
    assert_eq!(o.upgrade(&by_nobody(), [9; 32]), Err(ErrorCode::NotAuthorized));
}

#[test]
fn a_new_administrator_replaces_the_old_one() {
    let mut o = oracle(0, 0);
    let mut env = at(100, 1_000_000);
    assert_eq!(o.set_admin(&env, address(5)), Ok(()));
    assert_eq!(o.get_admin_address(), Ok(address(5)));
    env.authorized = vec![address(ADMIN)];
    assert_eq!(o.set_decimals(&env, 3), Err(ErrorCode::NotAuthorized));
    env.authorized = vec![address(5)];
    assert_eq!(o.set_decimals(&env, 3), Ok(()));
}

#[test]
fn a_rollback_undoes_a_change() {
    let mut o = oracle(0, 0);
    let env = at(100, 1_000_000);
    assert_eq!(o.get_decimals(), Ok(8));
    assert_eq!(o.set_decimals(&env, 9), Ok(()));
    let snapshots = o.get_config_history(5);
    assert_eq!(snapshots.len(), 1);
    assert_eq!((snapshots[0].version, snapshots[0].config.decimals), (1, 8));
    assert_eq!(o.rollback_config(&env, 7), Err(ErrorCode::ConfigVersionNotFound));
    assert_eq!(o.rollback_config(&env, 1), Ok(()));
    assert_eq!(o.get_decimals(), Ok(8));
    assert_eq!(o.get_config_history(1)[0].config.decimals, 9);
}

fn number(n: u32) -> Vec<u8> {
    n.to_be_bytes().to_vec()
}

#[test]
fn an_operation_waits_for_its_time() {
    let mut o = oracle(0, 0);
    let env = at(100, 1_000_000);
    assert_eq!(o.propose_operation(&env, 8, number(1)), Err(ErrorCode::InvalidOperationType));
    let id = o.propose_operation(&env, 5, number(12)).unwrap();
    assert_eq!(id, 1);
    assert_eq!(o.execute_operation(&at(109, 1_000_000), id), Err(ErrorCode::TimelockNotReady));
    assert_eq!(o.execute_operation(&at(110, 1_000_000), id), Ok(Ok(None)));
    assert_eq!(o.get_decimals(), Ok(12));
    assert_eq!(o.execute_operation(&at(111, 1_000_000), id), Err(ErrorCode::OperationNotFound));
    let next = o.propose_set_admin(&env, address(5)).unwrap();
    assert_eq!(next, 2);
    assert_eq!(o.cancel_operation(&env, next), Ok(()));
    assert_eq!(o.cancel_operation(&env, next), Err(ErrorCode::OperationNotFound));
}

#[test]
fn an_upgrade_gives_back_the_code() {
    let mut o = oracle(0, 0);
    let id = o.propose_operation(&at(100, 1_000_000), 0, vec![3; 32]).unwrap();
    assert_eq!(o.execute_operation(&at(110, 1_000_000), id), Ok(Ok(Some([3; 32]))));
}

#[test]
fn the_bytes_of_an_operation_are_read_when_it_is_executed() {
    let mut o = oracle(0, 0);
    let env = at(100, 1_000_000);
    let later = at(110, 1_000_000);
    let mut run = |op_type: u32, data: Vec<u8>| {
        let id = o.propose_operation(&env, op_type, data).unwrap();
        let outcome = o.execute_operation(&later, id).unwrap();
        assert_eq!(o.execute_operation(&later, id), Err(ErrorCode::OperationNotFound));
        outcome
    };
    assert_eq!(run(0, vec![3; 31]), Err(ErrorCode::InvalidConfiguration));
    assert_eq!(run(1, vec![3; 33]), Err(ErrorCode::InvalidConfiguration));
    assert_eq!(run(2, number(0)), Err(ErrorCode::InvalidConfiguration));
    assert_eq!(run(3, vec![]), Err(ErrorCode::InvalidConfiguration));
    assert_eq!(run(4, vec![0; 5]), Err(ErrorCode::InvalidConfiguration));
    assert_eq!(run(6, vec![0xff]), Err(ErrorCode::InvalidConfiguration));
    assert_eq!(run(6, vec![b'z'; 257]), Err(ErrorCode::DescriptionTooLong));
    assert_eq!(run(7, number(1)), Err(ErrorCode::InvalidConfiguration));
    assert_eq!(run(4, number(66_051)), Ok(None));
    assert_eq!(run(6, "pri\u{e7}e \u{20ac}".as_bytes().to_vec()), Ok(None));
    assert_eq!(run(7, 4_294_967_298u64.to_be_bytes().to_vec()), Ok(None));
    let mut admin = vec![0];
    admin.extend_from_slice(&[5; 32]);
    assert_eq!(run(1, admin), Ok(None));
    assert_eq!(o.get_description().unwrap().as_str(), "pri\u{e7}e \u{20ac}");
    assert_eq!(o.resolution(), Ok(66_051));
    assert_eq!(o.get_admin(), Some(address(5)));
}

#[test]
fn a_number_is_given_to_one_proposal_only() {
    let mut o = oracle(0, 0);
    let env = at(100, 1_000_000);
    assert_eq!(o.propose_operation(&env, 5, number(3)), Ok(1));
    assert_eq!(o.cancel_operation(&env, 1), Ok(()));
    assert_eq!(o.propose_operation(&env, 5, number(3)), Ok(2));
    assert_eq!(o.execute_operation(&at(110, 1_000_000), 2), Ok(Ok(None)));
    assert_eq!(o.propose_operation(&env, 5, number(3)), Ok(3));
    assert_eq!(o.propose_batch(&env, vec![]), Ok(1));
    assert_eq!(o.execute_batch(&at(110, 1_000_000), 1), Ok(None));
    assert_eq!(o.propose_batch(&env, vec![]), Ok(2));
    assert_eq!(o.cancel_batch(&env, 2), Ok(()));
    assert_eq!(o.propose_batch(&env, vec![]), Ok(3));
}

#[test]
fn a_priority_has_its_own_delay() {
    let mut o = oracle(0, 0);
    let env = at(100, 1_000_000);
    assert_eq!(o.get_priority_delay(3), Err(ErrorCode::InvalidPriority));
    assert_eq!(o.get_priority_delay(0), Ok(10));
    assert_eq!(o.set_priority_delay(&env, 0, 2), Ok(()));
    assert_eq!(o.get_priority_delay(0), Ok(2));
    assert_eq!(o.propose_operation_with_priority(&env, 5, number(4), 9), Err(ErrorCode::InvalidPriority));
    let id = o.propose_operation_with_priority(&env, 5, number(4), 0).unwrap();
    assert_eq!(o.execute_operation(&at(101, 1_000_000), id), Err(ErrorCode::TimelockNotReady));
    assert_eq!(o.execute_operation(&at(102, 1_000_000), id), Ok(Ok(None)));
    assert_eq!(o.get_decimals(), Ok(4));
}

#[test]
fn a_batch_that_simulates_executes() {
    let mut o = oracle(0, 0);
    let ops = || {
        vec![
            BatchOperation { op_type: OperationType::SetDecimals, data: number(3) },
            BatchOperation { op_type: OperationType::SetDescription, data: b"b".to_vec() },
        ]
    };
    let simulated = o.simulate_batch(&ops());
    assert!(simulated.all_succeed);
    assert_eq!((simulated.results.len(), simulated.warning_count), (2, 0));
    let id = o.propose_batch(&at(100, 1_000_000), ops()).unwrap();
    assert_eq!(o.execute_batch(&at(105, 1_000_000), id), Err(ErrorCode::TimelockNotReady));
    assert_eq!(o.execute_batch(&at(110, 1_000_000), id), Ok(None));
    assert_eq!(o.get_decimals(), Ok(3));
    assert_eq!(o.get_description().unwrap().as_str(), "b");
}

#[test]
fn a_batch_with_a_bad_operation_changes_nothing() {
    let mut o = oracle(0, 0);
    let ops = || {
        vec![
            BatchOperation { op_type: OperationType::SetDecimals, data: number(3) },
            BatchOperation { op_type: OperationType::SetDescription, data: vec![b'z'; 300] },
        ]
    };
    let simulated = o.simulate_batch(&ops());
    assert!(!simulated.all_succeed);
    assert_eq!(simulated.warning_count, 1);
    assert_eq!(simulated.results[1].error, Some(ErrorCode::DescriptionTooLong));
    let id = o.propose_batch(&at(100, 1_000_000), ops()).unwrap();
    assert_eq!(o.execute_batch(&at(110, 1_000_000), id), Err(ErrorCode::DescriptionTooLong));
    assert_eq!(o.get_decimals(), Ok(8));
    assert_eq!(o.cancel_batch(&at(110, 1_000_000), id), Ok(()));
}

#[test]
fn governors_approve_in_turn() {
    let mut o = oracle(0, 0);
    let env = at(100, 1_000_000);
    let governors = vec![address(1), address(2), address(3)];
    assert_eq!(o.ms_set_governors(&env, governors.clone(), 4), Err(ErrorCode::InvalidConfiguration));
    assert_eq!(o.ms_set_governors(&env, governors, 2), Ok(()));
    assert_eq!(o.ms_propose_operation(&env, address(9), 5, number(2)), Err(ErrorCode::NotAuthorized));
    let id = o.ms_propose_operation(&env, address(1), 5, number(2)).unwrap();
    let behind = o.ms_propose_operation(&env, address(1), 5, number(3)).unwrap();
    assert_eq!(o.ms_get_queue_head(), id);
    assert_eq!(o.ms_approve_operation(&env, address(1), id), Ok(()));
    assert_eq!(o.ms_approve_operation(&env, address(1), id), Err(ErrorCode::AlreadyApproved));
    assert_eq!(o.ms_execute_operation(&env, address(1), id), Err(ErrorCode::MsQuorumNotReached));
    assert_eq!(o.ms_approve_operation(&env, address(2), id), Ok(()));
    assert_eq!(o.ms_retract_approval(&env, address(3), id), Err(ErrorCode::ApprovalNotFound));
    assert_eq!(o.ms_execute_operation(&env, address(1), behind), Err(ErrorCode::MsNotQueueHead));
    assert_eq!(o.ms_execute_operation(&env, address(1), id), Err(ErrorCode::TimelockNotReady));
    assert_eq!(o.ms_get_operation(id).unwrap().approvals.len(), 2);
    assert_eq!(o.ms_execute_operation(&at(110, 1_000_000), address(1), id), Ok(Ok(None)));
    assert_eq!(o.get_decimals(), Ok(2));
    assert_eq!(o.ms_get_queue_head(), behind);
    assert_eq!(o.ms_cancel_operation(&env, address(ADMIN), behind), Ok(()));
    assert_eq!(o.ms_get_operation(behind).err(), Some(ErrorCode::OperationNotFound));
}

#[test]
fn guardians_recover_the_office() {
    let mut o = oracle(0, 0);
    let env = at(100, 1_000_000);
    assert_eq!(o.recovery_set_guardians(&env, vec![address(1)], 0), Err(ErrorCode::InvalidGuardianConfig));
    assert_eq!(o.recovery_set_guardians(&env, vec![address(1), address(2)], 2), Ok(()));
    assert_eq!(o.recovery_set_delay(&env, 0), Err(ErrorCode::InvalidConfiguration));
    assert_eq!(o.recovery_set_delay(&env, 50), Ok(()));
    assert_eq!(o.recovery_execute(&env), Err(ErrorCode::RecoveryNotPending));
    assert_eq!(o.recovery_approve(&env, address(3), address(9)), Err(ErrorCode::NotGuardian));
    assert_eq!(o.recovery_approve(&env, address(1), address(9)), Ok(()));
    assert_eq!(o.recovery_approve(&env, address(1), address(9)), Err(ErrorCode::RecoveryAlreadyApproved));
    assert_eq!(o.recovery_approve(&env, address(2), address(8)), Err(ErrorCode::RecoveryAlreadyPending));
    assert_eq!(o.recovery_execute(&at(500, 1_000_000)), Err(ErrorCode::RecoveryDelayNotElapsed));
    assert_eq!(o.recovery_approve(&at(120, 1_000_000), address(2), address(9)), Ok(()));
    assert_eq!(o.recovery_execute(&at(169, 1_000_000)), Err(ErrorCode::RecoveryDelayNotElapsed));
    assert_eq!(o.recovery_execute(&at(170, 1_000_000)), Ok(()));
    assert_eq!(o.get_admin(), Some(address(9)));
    assert!(o.recovery_get_pending().is_none());
}

#[test]
fn a_recovery_counts_the_guardians_of_the_day() {
    let mut o = oracle(0, 0);
    let env = at(100, 1_000_000);
    let (a, b, c) = (address(1), address(2), address(3));
    assert_eq!(o.recovery_set_delay(&env, 50), Ok(()));
    assert_eq!(o.recovery_set_guardians(&env, vec![a, b], 2), Ok(()));
    assert_eq!(o.recovery_approve(&env, a, address(9)), Ok(()));
    assert_eq!(o.recovery_approve(&env, b, address(9)), Ok(()));
    assert_eq!(o.recovery_get_pending().unwrap().threshold_ledger, Some(100));
    assert_eq!(o.recovery_set_guardians(&at(110, 1_000_000), vec![b, c], 2), Ok(()));
    assert_eq!(o.recovery_get_pending().unwrap().approvals, vec![b]);
    assert_eq!(o.recovery_execute(&at(500, 1_000_000)), Err(ErrorCode::RecoveryDelayNotElapsed));
    assert_eq!(o.recovery_set_guardians(&at(120, 1_000_000), vec![b, c], 1), Ok(()));
    assert_eq!(o.recovery_execute(&at(169, 1_000_000)), Err(ErrorCode::RecoveryDelayNotElapsed));
    assert_eq!(o.recovery_set_guardians(&at(130, 1_000_000), vec![c], 1), Ok(()));
    assert_eq!(o.recovery_execute(&at(500, 1_000_000)), Err(ErrorCode::RecoveryNotPending));
}

#[test]
fn the_administrator_can_stop_a_recovery() {
    let mut o = oracle(0, 0);
    let env = at(100, 1_000_000);
    assert_eq!(o.recovery_set_guardians(&env, vec![address(1)], 1), Ok(()));
    assert_eq!(o.recovery_cancel(&env), Err(ErrorCode::RecoveryNotPending));
    assert_eq!(o.recovery_approve(&env, address(1), address(9)), Ok(()));
    assert_eq!(o.recovery_cancel(&env), Ok(()));
    assert_eq!(o.recovery_execute(&at(90_000, 1_000_000)), Err(ErrorCode::RecoveryNotPending));
}

#[test]
fn an_emergency_ends_by_itself() {
    let mut o = oracle(1, 1);
    let env = at(100, 1_000_000);
    assert_eq!(o.emergency_pause(&env, "e".to_string(), 0), Err(ErrorCode::InvalidConfiguration));
    assert_eq!(o.emergency_pause(&env, "e".to_string(), 10), Ok(()));
    assert!(o.is_emergency_pause_active(&at(109, 1_000_000)));
    assert_eq!(o.submit_price(&env, address(1), address(101), 5, 1_000_000, 0), Err(ErrorCode::ContractPaused));
    assert_eq!(o.extend_emergency_pause(&env, 5), Ok(()));
    assert!(o.is_emergency_pause_active(&at(114, 1_000_000)));
    assert!(!o.is_emergency_pause_active(&at(115, 1_000_000)));
    assert_eq!(o.submit_price(&at(115, 1_000_000), address(1), address(101), 5, 1_000_000, 0), Ok(()));
}

#[test]
fn operations_of_a_day_are_limited() {
    let mut o = oracle(0, 0);
    let env = at(100, 1_000_000);
    assert_eq!(o.set_admin_op_daily_limit(&env, 0, 0), Err(ErrorCode::InvalidConfiguration));
    assert_eq!(o.set_admin_op_daily_limit(&env, 0, 1), Ok(()));
    assert_eq!(o.add_source(&env, address(1), "a".to_string()), Ok(()));
    assert_eq!(o.get_admin_op_daily_count(&env, 0), 1);
    assert_eq!(o.add_source(&env, address(2), "b".to_string()), Err(ErrorCode::DailyLimitExceeded));
    assert_eq!(o.add_source(&at(200, 1_086_400), address(2), "b".to_string()), Ok(()));
}

#[test]
fn a_migration_is_done_in_steps() {
    let mut o = oracle(0, 5);
    let env = at(100, 1_000_000);
    assert_eq!(o.get_storage_version(), 1);
    assert_eq!(o.migrate_storage(&env, 3), Ok(()));
    let state = o.get_migration_state().unwrap();
    assert_eq!((state.processed, state.total), (3, 5));
    assert_eq!(o.get_storage_version(), 1);
    assert_eq!(o.migrate_storage(&env, 3), Ok(()));
    assert_eq!(o.get_storage_version(), 2);
    assert_eq!(o.get_migration_state(), None);
    assert_eq!(o.migrate_storage(&env, 3), Ok(()));
    assert_eq!(o.get_storage_version(), 2);
}

#[test]
fn assets_come_and_go() {
    let mut o = oracle(1, 1);
    let env = at(100, 1_000_000);
    assert_eq!(o.register_asset(&env, address(101)), Err(ErrorCode::AssetAlreadyRegistered));
    assert_eq!(o.set_max_assets(&env, 2), Ok(()));
    assert_eq!(o.register_asset(&env, address(102)), Ok(()));
    assert_eq!(o.register_asset(&env, address(103)), Err(ErrorCode::MaxAssetsReached));
    assert_eq!(o.get_all_assets(), vec![address(101), address(102)]);
    assert_eq!(o.unregister_asset(&env, address(101)), Ok(()));
    assert_eq!(o.unregister_asset(&env, address(101)), Err(ErrorCode::AssetNotRegistered));
    assert_eq!(o.is_asset_registered(address(101)), Ok(false));
    assert_eq!(o.get_all_assets(), vec![address(102)]);
    assert_eq!(o.pause_asset(&env, address(102)), Ok(()));
    assert!(o.is_asset_paused(address(102)));
    assert_eq!(o.submit_price(&env, address(1), address(102), 5, 1_000_000, 0), Err(ErrorCode::ContractPaused));
    assert_eq!(o.unpause_asset(&env, address(102)), Ok(()));
    assert_eq!(o.submit_price(&env, address(1), address(102), 5, 1_000_000, 0), Ok(()));
}

#[test]
fn an_inactive_asset_is_deregistered() {
    let mut o = oracle(1, 1);
    assert!(!o.is_asset_inactive(&at(9_000, 1_000_000), address(101)));
    assert_eq!(o.set_inactivity_timeout(&at(100, 1_000_000), 50), Ok(()));
    assert!(!o.is_asset_inactive(&at(150, 1_000_000), address(101)));
    assert!(o.is_asset_inactive(&at(151, 1_000_000), address(101)));
    assert_eq!(o.check_and_deregister_if_inactive(&at(151, 1_000_000), address(101)), Ok(()));
    assert_eq!(o.is_asset_registered(address(101)), Ok(false));
}

#[test]
fn roles_are_delegated_and_revoked() {
    let mut o = oracle(0, 0);
    let env = at(100, 1_000_000);
    assert!(!o.has_role(address(5), 2));
    assert_eq!(o.delegate_role(&env, address(5), 2), Ok(()));
    assert!(o.has_role(address(5), 2));
    assert_eq!(o.get_role_holders(2), vec![address(5)]);
    assert_eq!(o.get_roles_for_holder(address(5)), vec![2]);
    assert_eq!(o.revoke_role(&env, address(5), 2), Ok(()));
    assert!(!o.has_role(address(5), 2));
}

#[test]
fn sources_can_need_approval() {
    let mut o = oracle(0, 0);
    let env = at(100, 1_000_000);
    assert_eq!(o.set_source_governance(&env, vec![address(1), address(2)], 2), Ok(()));
    let id = o.propose_source(&env, address(1), address(9), "nine".to_string()).unwrap();
    assert_eq!(o.is_source(address(9)), Ok(false));
    assert_eq!(o.approve_source(&env, address(1), id), Ok(()));
    assert_eq!(o.approve_source(&env, address(1), id), Err(ErrorCode::AlreadyApproved));
    assert_eq!(o.approve_source(&env, address(2), id), Ok(()));
    assert_eq!(o.is_source(address(9)), Ok(true));
    assert!(o.get_source_proposal(id).unwrap().accepted);
}

#[test]
fn the_health_of_the_oracle_is_summed_up() {
    let mut o = oracle(2, 2);
    let env = at(110, 1_000_000);
    assert_eq!(o.submit_price(&env, address(1), address(101), 5, 1_000_000, 0), Ok(()));
    let h = o.health_check(&env);
    assert_eq!((h.registered_sources, h.registered_assets, h.priced_assets), (2, 2, 1));
    assert_eq!((h.paused, h.last_aggregation_ledger), (false, 110));
}
