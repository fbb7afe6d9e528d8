use stacks_atlas_signer::events::{SignerEvent, StackerDBChunksEvent};
use stacks_atlas_signer::keys::QualifiedContractIdentifier;
use stacks_atlas_signer::signer::{
    calculate_coordinator, route_chunks, BlockInfo, BlockResponse, BlockValidateResponse,
    ChunkRoute, Command, NakamotoBlock, RejectCode, Sha512Trunc256Sum, Signer, SignerAction,
    SignerConfig, State, Txid,
};

fn config(reward_cycle: u64, signer_id: u32) -> SignerConfig {
    SignerConfig {
        reward_cycle,
        signer_id,
        signer_slot_id: signer_id + 10,
        key_ids: vec![1, 2],
        coordinator_ids: vec![0, 1, 2],
        mainnet: false,
        dkg_end_timeout_ms: None,
        dkg_private_timeout_ms: None,
        dkg_public_timeout_ms: Some(5),
        nonce_timeout_ms: None,
        sign_timeout_ms: None,
        tx_fee_ms: 10,
    }
}

fn block(hash: u8, txids: &[u8]) -> NakamotoBlock {
    NakamotoBlock {
        signer_signature_hash: Sha512Trunc256Sum([hash; 32]),
        txids: txids.iter().map(|t| Txid([*t; 32])).collect(),
        bytes: vec![hash, 0xb1, 0x0c],
    }
}

fn vote(signer: &Signer, hash: u8) -> Option<Vec<u8>> {
    signer.blocks.get(&Sha512Trunc256Sum([hash; 32])).and_then(|info| info.vote.clone())
}

fn valid(signer: &Signer, hash: u8) -> Option<bool> {
    signer.blocks.get(&Sha512Trunc256Sum([hash; 32])).map(|info| info.valid)
}

#[test]
fn a_fresh_signer_is_idle() {
    let signer = Signer::from(config(10, 3));
    assert_eq!(signer.reward_cycle, 10);
    assert_eq!(signer.signer_id, 3);
    assert_eq!(signer.signer_slot_id, 13);
    assert_eq!(signer.state, State::Idle);
    assert!(signer.blocks.is_empty());
    assert!(signer.commands.is_empty());
    assert_eq!(signer.coordinator_id, 0);
    assert_eq!(calculate_coordinator(&vec![5, 6, 7]), 0);
    assert_eq!(calculate_coordinator(&vec![]), 0);
}

#[test]
fn the_coordinator_queues_one_sign_command_for_a_valid_block() {
    let mut signer = Signer::from(config(10, 0));
    signer.commands.push_back(Command::Dkg);
    let actions =
        signer.handle_block_validate_response(BlockValidateResponse::Accept { block: block(1, &[]) });
    assert!(actions.is_empty());
    assert_eq!(signer.commands.len(), 2);
    assert!(matches!(signer.commands[0], Command::Dkg));
    match &signer.commands[1] {
        Command::Sign { message, is_taproot, merkle_root } => {
            assert_eq!(*message, vec![1, 0xb1, 0x0c]);
            assert!(!*is_taproot);
            assert!(merkle_root.is_none());
        }
        other => panic!("unexpected: {:?}", other),
    }
    assert_eq!(valid(&signer, 1), Some(true));
    assert_eq!(vote(&signer, 1), None);
    assert_eq!(signer.state, State::Idle);
}

#[test]
fn another_signer_queues_nothing_for_a_valid_block() {
    let mut signer = Signer::from(config(10, 2));
    let actions =
        signer.handle_block_validate_response(BlockValidateResponse::Accept { block: block(1, &[]) });
    assert!(actions.is_empty());
    assert!(signer.commands.is_empty());
    assert_eq!(valid(&signer, 1), Some(true));
}

#[test]
fn a_rejected_block_is_marked_and_its_rejection_broadcast() {
    for signer_id in [0u32, 2] {
        let mut signer = Signer::from(config(10, signer_id));
        // the block was seen and found valid before
        signer.handle_block_validate_response(BlockValidateResponse::Accept { block: block(1, &[]) });
        let queued = signer.commands.len();
        let actions = signer.handle_block_validate_response(BlockValidateResponse::Reject {
            block: block(1, &[]),
            reason_code: 4,
        });
        assert_eq!(actions.len(), 1);
        match actions[0] {
            SignerAction::BroadcastRejection(hash, code) => {
                assert_eq!(hash.0, [1u8; 32]);
                assert_eq!(code, RejectCode::ValidationFailed(4));
            }
        }
        assert_eq!(valid(&signer, 1), Some(false));
        assert_eq!(signer.commands.len(), queued);
        assert_eq!(signer.blocks.len(), 1);
    }
    // a block that was never seen is cached as invalid
    let mut signer = Signer::from(config(10, 0));
    let actions = signer.handle_block_validate_response(BlockValidateResponse::Reject {
        block: block(2, &[]),
        reason_code: 0,
    });
    assert_eq!(actions.len(), 1);
    assert_eq!(valid(&signer, 2), Some(false));
    assert!(signer.commands.is_empty());
}

#[test]
fn a_block_passes_if_it_is_valid_and_holds_no_listed_transaction() {
    let info = |valid: bool, txids: &[u8]| BlockInfo { block: block(1, txids), vote: None, valid };
    let listed = vec![Txid([7; 32]), Txid([8; 32])];
    assert!(Signer::validate_block(&info(true, &[1, 2, 3]), &listed));
    assert!(Signer::validate_block(&info(true, &[]), &listed));
    assert!(Signer::validate_block(&info(true, &[7]), &vec![]));
    assert!(!Signer::validate_block(&info(true, &[1, 8, 3]), &listed));
    assert!(!Signer::validate_block(&info(true, &[7]), &listed));
    assert!(!Signer::validate_block(&info(false, &[1, 2, 3]), &listed));
    assert!(!Signer::validate_block(&info(false, &[]), &vec![]));
}

#[test]
fn the_vote_on_a_valid_block_is_its_hash() {
    let mut signer = Signer::from(config(10, 1));
    signer.handle_block_validate_response(BlockValidateResponse::Accept { block: block(5, &[1]) });
    let mut message = vec![0xde, 0xad];
    assert!(signer.validate_nonce_request(&mut message, Some(block(5, &[1])), &vec![Txid([9; 32])]));
    assert_eq!(message, vec![5u8; 32]);
    assert_eq!(vote(&signer, 5), Some(vec![5u8; 32]));
    assert_eq!(valid(&signer, 5), Some(true));
}

#[test]
fn the_vote_on_an_invalid_block_is_its_hash_and_the_no_byte() {
    let mut no = vec![5u8; 32];
    no.push(0x6e);
    // the node rejected the block
    let mut signer = Signer::from(config(10, 1));
    signer.handle_block_validate_response(BlockValidateResponse::Reject {
        block: block(5, &[1]),
        reason_code: 1,
    });
    let mut message = vec![];
    assert!(signer.validate_nonce_request(&mut message, Some(block(5, &[1])), &vec![]));
    assert_eq!(message, no);
    assert_eq!(vote(&signer, 5), Some(no.clone()));
    // the block holds a listed transaction
    let mut signer = Signer::from(config(10, 1));
    signer.handle_block_validate_response(BlockValidateResponse::Accept { block: block(5, &[1]) });
    let mut message = vec![];
    assert!(signer.validate_nonce_request(&mut message, Some(block(5, &[1])), &vec![Txid([1; 32])]));
    assert_eq!(message, no);
    // the block was never validated
    let mut signer = Signer::from(config(10, 1));
    let mut message = vec![];
    assert!(signer.validate_nonce_request(&mut message, Some(block(5, &[])), &vec![]));
    assert_eq!(message, no);
    assert_eq!(valid(&signer, 5), Some(false));
    assert_eq!(message.len(), 33);
    assert_eq!(message[32], b'n');
}

#[test]
fn a_vote_cast_stands() {
    let mut signer = Signer::from(config(10, 1));
    signer.handle_block_validate_response(BlockValidateResponse::Accept { block: block(5, &[]) });
    let mut message = vec![];
    signer.validate_nonce_request(&mut message, Some(block(5, &[])), &vec![]);
    assert_eq!(message, vec![5u8; 32]);
    // the node thinks again
    signer.handle_block_validate_response(BlockValidateResponse::Reject {
        block: block(5, &[]),
        reason_code: 1,
    });
    let mut message = vec![1, 2, 3];
    assert!(signer.validate_nonce_request(&mut message, Some(block(5, &[])), &vec![]));
    assert_eq!(message, vec![5u8; 32]);
    assert_eq!(vote(&signer, 5), Some(vec![5u8; 32]));
    assert_eq!(valid(&signer, 5), Some(false));
}

#[test]
fn a_nonce_request_that_is_no_block_is_turned_down() {
    let mut signer = Signer::from(config(10, 1));
    let mut message = vec![1, 2, 3];
    assert!(!signer.validate_nonce_request(&mut message, None, &vec![]));
    assert_eq!(message, vec![1, 2, 3]);
    assert!(signer.blocks.is_empty());
}

#[test]
fn a_share_request_is_rewritten_to_the_vote_cast() {
    let mut signer = Signer::from(config(10, 1));
    let hash = Sha512Trunc256Sum([5; 32]);
    // no block, no vote: the message stands
    let mut message = vec![1, 2, 3];
    assert!(signer.validate_signature_share_request(&mut message, &hash));
    assert_eq!(message, vec![1, 2, 3]);
    // a block without a vote: the message stands
    signer.handle_block_validate_response(BlockValidateResponse::Accept { block: block(5, &[]) });
    assert!(signer.validate_signature_share_request(&mut message, &hash));
    assert_eq!(message, vec![1, 2, 3]);
    // a vote: it replaces the message
    let mut nonce = vec![];
    signer.validate_nonce_request(&mut nonce, Some(block(5, &[])), &vec![Txid([0; 32])]);
    assert!(signer.validate_signature_share_request(&mut message, &hash));
    assert_eq!(message, vec![5u8; 32]);
    // the vote again: nothing changes
    assert!(signer.validate_signature_share_request(&mut message, &hash));
    assert_eq!(message, vec![5u8; 32]);
    // another block has no vote
    let mut other = vec![9];
    assert!(signer.validate_signature_share_request(&mut other, &Sha512Trunc256Sum([6; 32])));
    assert_eq!(other, vec![9]);
}

#[test]
fn an_idle_signer_takes_up_its_oldest_command() {
    let mut signer = Signer::from(config(10, 1));
    assert!(signer.process_next_command().is_none());
    signer.commands.push_back(Command::Sign {
        message: vec![1],
        is_taproot: true,
        merkle_root: Some([2; 32]),
    });
    signer.commands.push_back(Command::Dkg);
    match signer.process_next_command() {
        Some(Command::Sign { message, is_taproot, merkle_root }) => {
            assert_eq!(message, vec![1]);
            assert!(is_taproot);
            assert_eq!(merkle_root, Some([2; 32]));
        }
        other => panic!("unexpected: {:?}", other),
    }
    assert_eq!(signer.state, State::Sign);
    assert_eq!(signer.commands.len(), 1);
    // a signer that is busy takes up nothing
    assert!(signer.process_next_command().is_none());
    assert_eq!(signer.commands.len(), 1);
    signer.state = State::Idle;
    assert!(matches!(signer.process_next_command(), Some(Command::Dkg)));
    assert_eq!(signer.state, State::Dkg);
    for state in [State::Uninitialized, State::TenureExceeded, State::Dkg] {
        signer.state = state;
        signer.commands.push_back(Command::Dkg);
        assert!(signer.process_next_command().is_none());
        assert_eq!(signer.state, state);
    }
}

#[test]
fn a_signature_closes_the_round() {
    let mut no = vec![5u8; 32];
    no.push(b'n');
    let seen = || {
        let mut signer = Signer::from(config(10, 1));
        signer.handle_block_validate_response(BlockValidateResponse::Accept { block: block(5, &[]) });
        signer.state = State::Sign;
        signer
    };
    let mut signer = seen();
    match signer.process_signature(&vec![5u8; 32], true) {
        Some(BlockResponse::Accepted(hash)) => assert_eq!(hash.0, [5u8; 32]),
        other => panic!("unexpected: {:?}", other),
    }
    assert_eq!(signer.state, State::Idle);
    assert!(signer.blocks.is_empty());
    let mut signer = seen();
    match signer.process_signature(&no, true) {
        Some(BlockResponse::Rejected(hash, code)) => {
            assert_eq!(hash.0, [5u8; 32]);
            assert_eq!(code, RejectCode::SignedRejection);
        }
        other => panic!("unexpected: {:?}", other),
    }
    assert!(signer.blocks.is_empty());
    // a signature that does not verify is not passed on
    let mut signer = seen();
    assert!(signer.process_signature(&vec![5u8; 32], false).is_none());
    assert_eq!(signer.state, State::Idle);
    assert!(signer.blocks.is_empty());
    // a block that was never seen, and a message that is no vote
    let mut signer = seen();
    assert!(signer.process_signature(&vec![6u8; 32], true).is_none());
    assert!(signer.process_signature(&vec![5u8; 31], true).is_none());
    assert!(signer.process_signature(&vec![], true).is_none());
    assert_eq!(signer.blocks.len(), 1);
    assert_eq!(signer.state, State::Idle);
}

#[test]
fn a_new_coordinator_resets_the_signer() {
    let mut signer = Signer::from(config(10, 1));
    signer.state = State::Sign;
    assert!(!signer.refresh_coordinator(0));
    assert_eq!(signer.state, State::Sign);
    assert!(signer.refresh_coordinator(2));
    assert_eq!(signer.state, State::Idle);
    assert_eq!(signer.coordinator_id, 2);
    signer.state = State::Dkg;
    assert!(!signer.refresh_coordinator(2));
    assert_eq!(signer.state, State::Dkg);
}

fn boot(name: &str, mainnet: bool) -> QualifiedContractIdentifier {
    QualifiedContractIdentifier {
        issuer_version: if mainnet { 22 } else { 26 },
        issuer: [0u8; 20],
        name: name.to_string(),
    }
}

#[test]
fn chunks_go_by_their_contract() {
    assert_eq!(route_chunks(&boot("signers", true), true), ChunkRoute::Signers);
    assert_eq!(route_chunks(&boot("miners", true), true), ChunkRoute::Miners);
    assert_eq!(route_chunks(&boot("signers", false), false), ChunkRoute::Signers);
    assert_eq!(route_chunks(&boot("miners", false), false), ChunkRoute::Miners);
    assert_eq!(route_chunks(&boot("pox-4", true), true), ChunkRoute::Ignored);
    assert_eq!(route_chunks(&boot("signers", true), false), ChunkRoute::Ignored);
    assert_eq!(route_chunks(&boot("miners", false), true), ChunkRoute::Ignored);
    let elsewhere = QualifiedContractIdentifier { issuer: [1u8; 20], ..boot("miners", true) };
    assert_eq!(route_chunks(&elsewhere, true), ChunkRoute::Ignored);
}

#[test]
fn a_signer_deals_with_events() {
    let mut signer = Signer::from(config(10, 0));
    let (actions, route) = signer.process_event(None);
    assert!(actions.is_empty() && route.is_none());
    let chunks = SignerEvent::StackerDB(StackerDBChunksEvent {
        contract_id: boot("miners", false),
        modified_slots: vec![],
    });
    let (actions, route) = signer.process_event(Some(&chunks));
    assert!(actions.is_empty());
    assert_eq!(route, Some(ChunkRoute::Miners));
    assert!(signer.blocks.is_empty() && signer.commands.is_empty());
    let proposal = SignerEvent::BlockProposal(BlockValidateResponse::Accept { block: block(3, &[]) });
    let (actions, route) = signer.process_event(Some(&proposal));
    assert!(actions.is_empty() && route.is_none());
    assert_eq!(signer.commands.len(), 1);
    assert_eq!(valid(&signer, 3), Some(true));
    let proposal = SignerEvent::BlockProposal(BlockValidateResponse::Reject {
        block: block(3, &[]),
        reason_code: 2,
    });
    let (actions, _) = signer.process_event(Some(&proposal));
    assert_eq!(actions.len(), 1);
    assert_eq!(valid(&signer, 3), Some(false));
    assert_eq!(signer.commands.len(), 1);
}
