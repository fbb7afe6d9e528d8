use stacks_atlas_signer::events::{SignerEvent, StackerDBChunksEvent};
use stacks_atlas_signer::keys::QualifiedContractIdentifier;
use stacks_atlas_signer::runloop::{
    signer_slot_of, ClientError, GlobalConfig, Network, RegisteredSignersInfo, RunLoop,
    RunLoopCommand, StacksAddress, State,
};
use stacks_atlas_signer::signer::{
    BlockValidateResponse, ChunkRoute, Command, NakamotoBlock, Sha512Trunc256Sum, SignerAction,
    SignerConfig, State as SignerState,
};
use stacks_atlas_signer::vecmap::VecMap;

fn global() -> GlobalConfig {
    GlobalConfig {
        event_timeout_ms: 5_000,
        network: Network::Testnet,
        dkg_end_timeout_ms: Some(1),
        dkg_private_timeout_ms: Some(2),
        dkg_public_timeout_ms: Some(3),
        nonce_timeout_ms: Some(4),
        sign_timeout_ms: None,
        tx_fee_ms: 10_000,
    }
}

fn signer_config(reward_cycle: u64, signer_id: u32) -> SignerConfig {
    SignerConfig {
        reward_cycle,
        signer_id,
        signer_slot_id: signer_id,
        key_ids: vec![],
        coordinator_ids: vec![0],
        mainnet: false,
        dkg_end_timeout_ms: None,
        dkg_private_timeout_ms: None,
        dkg_public_timeout_ms: None,
        nonce_timeout_ms: None,
        sign_timeout_ms: None,
        tx_fee_ms: 0,
    }
}

fn address(n: u8) -> StacksAddress {
    StacksAddress { version: 26, bytes: [n; 20] }
}

/// The reward cycle and the state of the signer of each parity.
fn signers(runloop: &mut RunLoop) -> Vec<Option<(u64, SignerState)>> {
    [0u64, 1].iter().map(|slot| runloop.signer(*slot).map(|s| (s.reward_cycle, s.state))).collect()
}

#[test]
fn a_new_runloop_has_no_signer() {
    let mut runloop = RunLoop::from(global());
    assert_eq!(runloop.state, State::Uninitialized);
    assert_eq!(runloop.config, global());
    assert!(runloop.needs_refresh(10));
    assert!(runloop.needs_refresh(11));
    assert_eq!(signers(&mut runloop), vec![None, None]);
    assert_eq!(runloop.get_event_timeout(), 5_000);
    runloop.set_event_timeout(7);
    assert_eq!(runloop.get_event_timeout(), 7);
    assert_eq!(runloop.config.tx_fee_ms, 10_000);
}

#[test]
fn the_slot_of_a_signer_is_the_first_that_is_its_own() {
    let slots = vec![address(1), address(2), address(3), address(2)];
    assert_eq!(signer_slot_of(&address(1), &slots), Some(0));
    assert_eq!(signer_slot_of(&address(2), &slots), Some(1));
    assert_eq!(signer_slot_of(&address(3), &slots), Some(2));
    assert_eq!(signer_slot_of(&address(4), &slots), None);
    assert_eq!(signer_slot_of(&StacksAddress { version: 22, bytes: [1; 20] }, &slots), None);
    assert_eq!(signer_slot_of(&address(1), &vec![]), None);
}

fn registered() -> RegisteredSignersInfo {
    let mut signer_address_ids = VecMap::new();
    signer_address_ids.insert(address(1), 0);
    signer_address_ids.insert(address(2), 1);
    signer_address_ids.insert(address(5), 2);
    let mut signer_key_ids = VecMap::new();
    signer_key_ids.insert(0, vec![1, 2]);
    signer_key_ids.insert(1, vec![3, 4, 5]);
    RegisteredSignersInfo { signer_address_ids, signer_key_ids }
}

#[test]
fn the_configuration_of_a_registered_signer() {
    let runloop = RunLoop::from(global());
    let slots = vec![address(1), address(2), address(5)];
    let info = registered();
    let config = runloop
        .get_signer_config(11, true, &address(2), &slots, Some(&info), &vec![2, 0, 1])
        .expect("no error")
        .expect("a configuration");
    assert_eq!(config.reward_cycle, 11);
    assert_eq!(config.signer_id, 1);
    assert_eq!(config.signer_slot_id, 1);
    assert_eq!(config.key_ids, vec![3, 4, 5]);
    assert_eq!(config.coordinator_ids, vec![2, 0, 1]);
    assert!(!config.mainnet);
    assert_eq!(config.dkg_end_timeout_ms, Some(1));
    assert_eq!(config.dkg_private_timeout_ms, Some(2));
    assert_eq!(config.dkg_public_timeout_ms, Some(3));
    assert_eq!(config.nonce_timeout_ms, Some(4));
    assert_eq!(config.sign_timeout_ms, None);
    assert_eq!(config.tx_fee_ms, 10_000);
    // a signer without keys of its own
    let config = runloop
        .get_signer_config(11, true, &address(5), &slots, Some(&info), &vec![])
        .unwrap()
        .unwrap();
    assert_eq!((config.signer_id, config.signer_slot_id), (2, 2));
    assert!(config.key_ids.is_empty());
    let mainnet = RunLoop::from(GlobalConfig { network: Network::Mainnet, ..global() });
    let config = mainnet
        .get_signer_config(12, true, &address(1), &slots, Some(&info), &vec![])
        .unwrap()
        .unwrap();
    assert!(config.mainnet);
}

#[test]
fn no_configuration_for_a_signer_that_is_not_registered() {
    let runloop = RunLoop::from(global());
    let slots = vec![address(1), address(2), address(6)];
    let info = registered();
    assert!(matches!(
        runloop.get_signer_config(11, false, &address(2), &slots, Some(&info), &vec![]),
        Err(ClientError::RewardSetNotYetCalculated(11))
    ));
    // no slot
    assert!(matches!(
        runloop.get_signer_config(11, true, &address(9), &slots, Some(&info), &vec![]),
        Ok(None)
    ));
    // no reward set
    assert!(matches!(
        runloop.get_signer_config(11, true, &address(2), &slots, None, &vec![]),
        Ok(None)
    ));
    // a slot, but not in the reward set
    assert!(matches!(
        runloop.get_signer_config(11, true, &address(6), &slots, Some(&info), &vec![]),
        Ok(None)
    ));
}

#[test]
fn refresh_errors() {
    assert!(!RunLoop::refresh_error_stops(&ClientError::NotRegistered, true));
    assert!(!RunLoop::refresh_error_stops(&ClientError::NotRegistered, false));
    assert!(RunLoop::refresh_error_stops(&ClientError::RewardSetNotYetCalculated(3), true));
    assert!(!RunLoop::refresh_error_stops(&ClientError::RewardSetNotYetCalculated(3), false));
    let failure = ClientError::RequestFailure("timeout".to_string());
    assert!(RunLoop::refresh_error_stops(&failure, true));
    assert!(RunLoop::refresh_error_stops(&failure, false));
}

#[test]
fn a_refresh_without_signers_leaves_the_runloop_uninitialized() {
    let mut runloop = RunLoop::from(global());
    assert!(runloop.refresh_signer_config(10, Ok(None)).is_ok());
    assert!(matches!(
        runloop.refresh_signer_config(11, Err(ClientError::NotRegistered)),
        Err(ClientError::NotRegistered)
    ));
    assert!(matches!(runloop.finish_refresh(), Err(ClientError::NotRegistered)));
    assert_eq!(runloop.state, State::Uninitialized);
    assert!(runloop.refresh_signer_config(11, Ok(Some(signer_config(11, 4)))).is_ok());
    assert!(runloop.finish_refresh().is_ok());
    assert_eq!(runloop.state, State::Initialized);
    assert_eq!(signers(&mut runloop), vec![None, Some((11, SignerState::Idle))]);
}

#[test]
fn a_command_without_signers_is_dropped() {
    let mut runloop = RunLoop::from(global());
    let outcomes = runloop.run_one_pass(
        &Err(ClientError::NotRegistered),
        Some(&SignerEvent::BlockProposal(BlockValidateResponse::Accept {
            block: NakamotoBlock {
                signer_signature_hash: Sha512Trunc256Sum([1; 32]),
                txids: vec![],
                bytes: vec![],
            },
        })),
        Some(RunLoopCommand { command: Command::Dkg, reward_cycle: 10 }),
    );
    assert!(outcomes.is_empty());
    assert_eq!(runloop.state, State::Uninitialized);
    assert_eq!(signers(&mut runloop), vec![None, None]);
    // a refresh that holds no signer either: nothing to route to
    let outcomes = runloop.run_one_pass(
        &Ok(()),
        None,
        Some(RunLoopCommand { command: Command::Dkg, reward_cycle: 10 }),
    );
    assert!(outcomes.is_empty());
    assert_eq!(runloop.state, State::Uninitialized);
}

fn two_signers() -> RunLoop {
    let mut runloop = RunLoop::from(global());
    runloop.refresh_signer_config(10, Ok(Some(signer_config(10, 0)))).unwrap();
    runloop.refresh_signer_config(11, Ok(Some(signer_config(11, 1)))).unwrap();
    runloop.finish_refresh().unwrap();
    runloop
}

#[test]
fn a_new_reward_cycle_replaces_the_signer_of_its_parity() {
    let mut runloop = two_signers();
    assert_eq!(
        signers(&mut runloop),
        vec![Some((10, SignerState::Idle)), Some((11, SignerState::Idle))]
    );
    // nothing to do while the cycles stand
    assert!(!runloop.needs_refresh(10));
    assert!(!runloop.needs_refresh(11));
    assert!(runloop
        .refresh_signer_config(11, Err(ClientError::RequestFailure("not asked".to_string())))
        .is_ok());
    // the chain moves on to cycle 12
    assert!(runloop.needs_refresh(12));
    runloop.refresh_signer_config(11, Ok(None)).unwrap();
    runloop.refresh_signer_config(12, Ok(Some(signer_config(12, 7)))).unwrap();
    assert!(!runloop.needs_refresh(12));
    assert!(runloop.needs_refresh(10));
    assert!(!runloop.needs_refresh(11));
    assert_eq!(
        signers(&mut runloop),
        vec![Some((12, SignerState::Idle)), Some((11, SignerState::Idle))]
    );
    assert_eq!(runloop.signer(0).map(|s| s.signer_id), Some(7));
    // the signer of cycle 11 stays until its tenure is over
    let outcomes = runloop.run_one_pass(&Ok(()), None, None);
    assert_eq!(outcomes.len(), 2);
    assert!(!runloop.needs_refresh(11));
    assert!(runloop.signer(2).is_none());
    // commands reach the new signer, not the one it replaced
    let outcomes = runloop.run_one_pass(
        &Ok(()),
        None,
        Some(RunLoopCommand { command: Command::Dkg, reward_cycle: 10 }),
    );
    assert!(outcomes.iter().all(|o| o.started.is_none()));
    let outcomes = runloop.run_one_pass(
        &Ok(()),
        None,
        Some(RunLoopCommand { command: Command::Dkg, reward_cycle: 12 }),
    );
    assert_eq!(outcomes[0].slot, 0);
    assert!(matches!(outcomes[0].started, Some(Command::Dkg)));
    assert!(outcomes[1].started.is_none());
}

#[test]
fn a_refresh_that_finds_nothing_keeps_the_old_signer() {
    let mut runloop = two_signers();
    runloop.refresh_signer_config(12, Ok(None)).unwrap();
    assert!(!runloop.needs_refresh(10));
    assert!(matches!(
        runloop.refresh_signer_config(12, Err(ClientError::RewardSetNotYetCalculated(12))),
        Err(ClientError::RewardSetNotYetCalculated(12))
    ));
    assert!(!runloop.needs_refresh(10));
}

#[test]
fn a_pass_routes_the_command_and_the_event() {
    let mut runloop = two_signers();
    let event = SignerEvent::BlockProposal(BlockValidateResponse::Reject {
        block: NakamotoBlock {
            signer_signature_hash: Sha512Trunc256Sum([3; 32]),
            txids: vec![],
            bytes: vec![1],
        },
        reason_code: 9,
    });
    let outcomes = runloop.run_one_pass(
        &Err(ClientError::RequestFailure("node down".to_string())),
        Some(&event),
        Some(RunLoopCommand {
            command: Command::Sign { message: vec![7], is_taproot: false, merkle_root: None },
            reward_cycle: 11,
        }),
    );
    // the runloop was initialized before: the pass is made all the same
    assert_eq!(outcomes.len(), 2);
    assert_eq!((outcomes[0].slot, outcomes[1].slot), (0, 1));
    for outcome in outcomes.iter() {
        assert_eq!(outcome.actions.len(), 1);
        assert!(matches!(outcome.actions[0], SignerAction::BroadcastRejection(h, _) if h.0 == [3; 32]));
        assert!(outcome.route.is_none());
    }
    assert!(outcomes[0].started.is_none());
    assert!(matches!(&outcomes[1].started, Some(Command::Sign { message, .. }) if *message == vec![7]));
    assert_eq!(
        signers(&mut runloop),
        vec![Some((10, SignerState::Idle)), Some((11, SignerState::Sign))]
    );
    assert_eq!(runloop.signer(0).map(|s| s.blocks.len()), Some(1));
    // the signer of cycle 11 is signing now: its next command waits
    let outcomes = runloop.run_one_pass(
        &Ok(()),
        None,
        Some(RunLoopCommand { command: Command::Dkg, reward_cycle: 11 }),
    );
    assert!(outcomes.iter().all(|o| o.started.is_none() && o.actions.is_empty()));
    assert_eq!(runloop.signer(1).map(|s| s.commands.len()), Some(1));
    assert_eq!(runloop.state, State::Initialized);
}

#[test]
fn chunks_are_routed_for_every_signer() {
    let mut runloop = two_signers();
    let event = SignerEvent::StackerDB(StackerDBChunksEvent {
        contract_id: QualifiedContractIdentifier {
            issuer_version: 26,
            issuer: [0; 20],
            name: "signers".to_string(),
        },
        modified_slots: vec![],
    });
    let outcomes = runloop.run_one_pass(&Ok(()), Some(&event), None);
    assert_eq!(outcomes.len(), 2);
    assert!(outcomes.iter().all(|o| o.route == Some(ChunkRoute::Signers)));
}

#[test]
fn a_command_for_a_cycle_without_signer_is_dropped() {
    let mut runloop = two_signers();
    assert!(!runloop.route_command(RunLoopCommand { command: Command::Dkg, reward_cycle: 12 }));
    assert!(!runloop.route_command(RunLoopCommand { command: Command::Dkg, reward_cycle: 9 }));
    assert!(runloop.route_command(RunLoopCommand { command: Command::Dkg, reward_cycle: 10 }));
    let outcomes = runloop.run_one_pass(&Ok(()), None, None);
    assert!(matches!(outcomes[0].started, Some(Command::Dkg)));
    assert!(outcomes[1].started.is_none());
}

#[test]
fn a_new_coordinator_is_noted() {
    let mut runloop = two_signers();
    assert!(!runloop.on_coordinator_refreshed(0, 0));
    assert!(runloop.on_coordinator_refreshed(0, 3));
    assert_eq!(runloop.signer(0).map(|s| (s.coordinator_id, s.state)), Some((3, SignerState::Idle)));
    assert_eq!(runloop.signer(1).map(|s| s.coordinator_id), Some(0));
    assert!(!runloop.on_coordinator_refreshed(0, 3));
    assert!(runloop.on_coordinator_refreshed(1, 3));
    let mut empty = RunLoop::from(global());
    assert!(!empty.on_coordinator_refreshed(0, 3));
    assert!(!runloop.on_coordinator_refreshed(7, 3));
}

#[test]
fn signers_whose_tenure_is_over_are_removed() {
    let mut runloop = two_signers();
    runloop.cleanup_stale_signers();
    assert_eq!(
        signers(&mut runloop),
        vec![Some((10, SignerState::Idle)), Some((11, SignerState::Idle))]
    );
    assert!(runloop.end_tenure(1));
    assert!(!runloop.end_tenure(5));
    assert_eq!(
        signers(&mut runloop),
        vec![Some((10, SignerState::Idle)), Some((11, SignerState::TenureExceeded))]
    );
    runloop.cleanup_stale_signers();
    assert_eq!(signers(&mut runloop), vec![Some((10, SignerState::Idle)), None]);
    runloop.cleanup_stale_signers();
    assert_eq!(signers(&mut runloop), vec![Some((10, SignerState::Idle)), None]);
    assert!(!runloop.end_tenure(1));
    // a pass ends with the cleanup
    assert!(runloop.end_tenure(0));
    let outcomes = runloop.run_one_pass(
        &Ok(()),
        None,
        Some(RunLoopCommand { command: Command::Dkg, reward_cycle: 10 }),
    );
    assert_eq!(outcomes.len(), 1);
    assert!(outcomes[0].started.is_none());
    assert_eq!(signers(&mut runloop), vec![None, None]);
    assert!(matches!(runloop.finish_refresh(), Err(ClientError::NotRegistered)));
    assert_eq!(runloop.state, State::Initialized);
}

#[test]
fn the_signer_of_the_cycle_before_stays_until_its_tenure_is_over() {
    let mut runloop = two_signers();
    runloop.refresh_signer_config(12, Ok(Some(signer_config(12, 0)))).unwrap();
    runloop.refresh_signer_config(13, Ok(None)).unwrap();
    for _ in 0..3 {
        runloop.run_one_pass(&Ok(()), None, None);
        assert_eq!(
            signers(&mut runloop),
            vec![Some((12, SignerState::Idle)), Some((11, SignerState::Idle))]
        );
    }
    runloop.end_tenure(1);
    runloop.run_one_pass(&Ok(()), None, None);
    assert_eq!(signers(&mut runloop), vec![Some((12, SignerState::Idle)), None]);
}
