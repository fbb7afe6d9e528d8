//! One signer, bound to one reward cycle: the blocks it has seen, the
//! votes it has cast and the commands it has still to run.

use vstd::prelude::*;
use std::collections::VecDeque;
use crate::events::SignerEvent;
use crate::keys::{bytes_clone, bytes_eq, ContractIdView, KeyEq, QualifiedContractIdentifier};
use vstd::string::StringExecFns;
use crate::vecmap::{VecMap, lemma_key_index, lemma_update_value};

verus! {

/// The byte appended to a block's hash to vote against the block.
pub const VOTE_NO: u8 = 0x6e;

/// A signer operation.
#[derive(Debug)]
pub enum Command {
    /// Generate a new aggregate key.
    Dkg,
    /// Sign a message.
    Sign {
        /// The bytes to sign.
        message: Vec<u8>,
        /// Whether to make a taproot signature.
        is_taproot: bool,
        /// The taproot merkle root, if any.
        merkle_root: Option<[u8; 32]>,
    },
}

/// The digest a block is signed by.
#[derive(Clone, Copy, Debug)]
pub struct Sha512Trunc256Sum(pub [u8; 32]);

impl View for Sha512Trunc256Sum {
    type V = Seq<u8>;

    open spec fn view(&self) -> Seq<u8> {
        self.0@
    }
}

impl KeyEq for Sha512Trunc256Sum {
    fn key_eq(&self, other: &Self) -> (r: bool) {
        bytes_eq(self.0.as_slice(), other.0.as_slice())
    }
}

/// The identifier of a transaction.
#[derive(Clone, Copy, Debug)]
pub struct Txid(pub [u8; 32]);

impl View for Txid {
    type V = Seq<u8>;

    open spec fn view(&self) -> Seq<u8> {
        self.0@
    }
}

impl KeyEq for Txid {
    fn key_eq(&self, other: &Self) -> (r: bool) {
        bytes_eq(self.0.as_slice(), other.0.as_slice())
    }
}

/// What a signer reads of a proposed block.
#[derive(Debug)]
pub struct NakamotoBlock {
    /// The digest the block is signed by.
    pub signer_signature_hash: Sha512Trunc256Sum,
    /// The transactions of the block.
    pub txids: Vec<Txid>,
    /// The block as it goes over the wire.
    pub bytes: Vec<u8>,
}

/// What a signer knows of a block.
#[derive(Debug)]
pub struct BlockInfo {
    pub block: NakamotoBlock,
    /// The vote cast on the block, once there is one.
    pub vote: Option<Vec<u8>>,
    /// Whether the node found the block valid.
    pub valid: bool,
}

/// The node's verdict on a block proposal.
#[derive(Debug)]
pub enum BlockValidateResponse {
    Accept { block: NakamotoBlock },
    Reject { block: NakamotoBlock, reason_code: u8 },
}

/// Why a block is rejected.
#[derive(Clone, Copy, Debug, PartialEq, Eq, Structural)]
pub enum RejectCode {
    /// The node found the block invalid, for the reason given.
    ValidationFailed(u8),
    /// The signers voted against the block.
    SignedRejection,
}

/// What the signers say of a block once a signing round is over.
#[derive(Clone, Copy, Debug)]
pub enum BlockResponse {
    Accepted(Sha512Trunc256Sum),
    Rejected(Sha512Trunc256Sum, RejectCode),
}

/// Something a signer wants done outside.
#[derive(Clone, Copy, Debug)]
pub enum SignerAction {
    /// Tell the miners that the block is rejected.
    BroadcastRejection(Sha512Trunc256Sum, RejectCode),
}

/// Where a signer stands.
#[derive(Clone, Copy, Debug, PartialEq, Eq, Structural)]
pub enum State {
    Uninitialized,
    Idle,
    Dkg,
    Sign,
    TenureExceeded,
}

/// What a signer is made from.
#[derive(Debug)]
pub struct SignerConfig {
    pub reward_cycle: u64,
    pub signer_id: u32,
    pub signer_slot_id: u32,
    pub key_ids: Vec<u32>,
    pub coordinator_ids: Vec<u32>,
    pub mainnet: bool,
    pub dkg_end_timeout_ms: Option<u64>,
    pub dkg_private_timeout_ms: Option<u64>,
    pub dkg_public_timeout_ms: Option<u64>,
    pub nonce_timeout_ms: Option<u64>,
    pub sign_timeout_ms: Option<u64>,
    pub tx_fee_ms: u64,
}

/// The signer of one reward cycle.
#[derive(Debug)]
pub struct Signer {
    pub reward_cycle: u64,
    pub signer_id: u32,
    pub signer_slot_id: u32,
    pub state: State,
    /// The blocks seen, by signature hash.
    pub blocks: VecMap<Sha512Trunc256Sum, BlockInfo>,
    /// The commands still to run, the oldest first.
    pub commands: VecDeque<Command>,
    /// The signer that drives the rounds.
    pub coordinator_id: u32,
    pub config: SignerConfig,
}

/// The signer that drives the rounds of a set of signers.
pub open spec fn coordinator_of(signer_ids: Seq<u32>) -> u32 {
    0
}

/// Picks the coordinator: the first signer.
pub fn calculate_coordinator(signer_ids: &Vec<u32>) -> (r: u32)
    ensures
        r == coordinator_of(signer_ids@),
{
    0
}

/// Whether the block has one of the transactions `transactions`.
pub open spec fn includes_any(block: NakamotoBlock, transactions: Seq<Txid>) -> bool {
    exists|i: int, j: int|
        0 <= i < transactions.len() && 0 <= j < block.txids@.len() && (#[trigger] transactions[i])@ == (
        #[trigger] block.txids@[j])@
}

/// Whether a block passes: the node found it valid, and it holds none of
/// the listed transactions.
pub open spec fn block_passes(info: BlockInfo, transactions: Seq<Txid>) -> bool {
    info.valid && !includes_any(info.block, transactions)
}

/// The vote on a block with signature hash `hash`: the hash itself for
/// yes, the hash and the no byte for no.
pub open spec fn vote_bytes(hash: Seq<u8>, yes: bool) -> Seq<u8> {
    if yes {
        hash
    } else {
        hash.push(VOTE_NO)
    }
}

/// What is known of `block`: what the cache has under its hash, or the
/// block as new, not valid and without a vote.
pub open spec fn known_or_new(
    blocks: Map<Seq<u8>, BlockInfo>,
    block: NakamotoBlock,
) -> BlockInfo {
    if blocks.contains_key(block.signer_signature_hash@) {
        blocks[block.signer_signature_hash@]
    } else {
        BlockInfo { block, vote: None, valid: false }
    }
}

/// How a signer files the node's verdict on a block: a block found valid
/// is marked so, and the coordinator queues one command to sign it; a
/// block found invalid is marked so, its rejection is to be broadcast,
/// and nothing is queued.
pub open spec fn validated(
    before: Signer,
    response: BlockValidateResponse,
    after: Signer,
    actions: Seq<SignerAction>,
) -> bool {
    &&& after.reward_cycle == before.reward_cycle
    &&& after.signer_id == before.signer_id
    &&& after.signer_slot_id == before.signer_slot_id
    &&& after.state == before.state
    &&& after.coordinator_id == before.coordinator_id
    &&& after.config == before.config
    &&& match response {
        BlockValidateResponse::Accept { block } => {
            &&& after.blocks@ == before.blocks@.insert(
                block.signer_signature_hash@,
                BlockInfo { valid: true, ..known_or_new(before.blocks@, block) },
            )
            &&& actions.len() == 0
            &&& if before.is_coordinator() {
                &&& after.commands@.len() == before.commands@.len() + 1
                &&& after.commands@.drop_last() == before.commands@
                &&& after.commands@.last() matches Command::Sign { message, is_taproot, merkle_root }
                &&& message@ == block.bytes@
                &&& !is_taproot
                &&& merkle_root is None
            } else {
                after.commands@ == before.commands@
            }
        },
        BlockValidateResponse::Reject { block, reason_code } => {
            &&& after.blocks@ == before.blocks@.insert(
                block.signer_signature_hash@,
                BlockInfo { valid: false, ..known_or_new(before.blocks@, block) },
            )
            &&& after.commands@ == before.commands@
            &&& actions.len() == 1
            &&& actions[0] matches SignerAction::BroadcastRejection(hash, code)
            &&& hash == block.signer_signature_hash
            &&& code == RejectCode::ValidationFailed(reason_code)
        },
    }
}

/// How an idle signer takes up its oldest command: it goes on to
/// generate a key or to sign, and the command is `taken`. A signer that is
/// not idle, or has no command, stays as it is.
pub open spec fn took_command(before: Signer, after: Signer, taken: Option<Command>) -> bool {
    &&& after.reward_cycle == before.reward_cycle
    &&& after.signer_id == before.signer_id
    &&& after.signer_slot_id == before.signer_slot_id
    &&& after.coordinator_id == before.coordinator_id
    &&& after.blocks == before.blocks
    &&& after.config == before.config
    &&& if before.state == State::Idle && before.commands@.len() > 0 {
        &&& taken == Some(before.commands@[0])
        &&& after.commands@ == before.commands@.subrange(1, before.commands@.len() as int)
        &&& after.state == match before.commands@[0] {
            Command::Dkg => State::Dkg,
            Command::Sign { .. } => State::Sign,
        }
    } else {
        taken is None && after.commands@ == before.commands@ && after.state == before.state
    }
}

/// Two blocks that read the same.
pub open spec fn same_block(a: NakamotoBlock, b: NakamotoBlock) -> bool {
    &&& a.signer_signature_hash == b.signer_signature_hash
    &&& a.bytes@ == b.bytes@
    &&& a.txids@ == b.txids@
}

/// Two verdicts that read the same.
pub open spec fn same_response(a: BlockValidateResponse, b: BlockValidateResponse) -> bool {
    match (a, b) {
        (
            BlockValidateResponse::Accept { block: x },
            BlockValidateResponse::Accept { block: y },
        ) => same_block(x, y),
        (
            BlockValidateResponse::Reject { block: x, reason_code: c },
            BlockValidateResponse::Reject { block: y, reason_code: d },
        ) => same_block(x, y) && c == d,
        _ => false,
    }
}

impl Clone for NakamotoBlock {
    fn clone(&self) -> (r: Self)
        ensures
            same_block(r, *self),
    {
        let mut txids: Vec<Txid> = Vec::new();
        let mut i: usize = 0;
        while i < self.txids.len()
            invariant
                i <= self.txids@.len(),
                txids@ == self.txids@.subrange(0, i as int),
            decreases self.txids@.len() - i,
        {
            txids.push(self.txids[i]);
            i += 1;
            assert(txids@ =~= self.txids@.subrange(0, i as int));
        }
        assert(self.txids@.subrange(0, self.txids@.len() as int) =~= self.txids@);
        NakamotoBlock {
            signer_signature_hash: self.signer_signature_hash,
            txids,
            bytes: bytes_clone(self.bytes.as_slice()),
        }
    }
}

impl Clone for BlockValidateResponse {
    fn clone(&self) -> (r: Self)
        ensures
            same_response(r, *self),
    {
        match self {
            BlockValidateResponse::Accept { block } => BlockValidateResponse::Accept {
                block: block.clone(),
            },
            BlockValidateResponse::Reject { block, reason_code } => BlockValidateResponse::Reject {
                block: block.clone(),
                reason_code: *reason_code,
            },
        }
    }
}

/// Where the chunks of a stacker DB contract go.
#[derive(Clone, Copy, Debug, PartialEq, Eq, Structural)]
pub enum ChunkRoute {
    /// To the handling of the signers' messages.
    Signers,
    /// To the handling of the miners' messages.
    Miners,
    /// Nowhere.
    Ignored,
}

/// The version byte of the boot address.
pub open spec fn boot_version(mainnet: bool) -> u8 {
    if mainnet {
        22
    } else {
        26
    }
}

/// Whether `id` is the boot contract `name` of the network.
pub open spec fn is_boot_contract(id: ContractIdView, name: Seq<char>, mainnet: bool) -> bool {
    &&& id.issuer_version == boot_version(mainnet)
    &&& id.issuer == Seq::new(20, |i: int| 0u8)
    &&& id.name == name
}

/// Where the chunks of the contract `id` go: those of the boot contract
/// `signers` to the signers' handling, those of `miners` to the miners',
/// all others nowhere.
pub open spec fn chunk_route(id: ContractIdView, mainnet: bool) -> ChunkRoute {
    if is_boot_contract(id, "signers"@, mainnet) {
        ChunkRoute::Signers
    } else if is_boot_contract(id, "miners"@, mainnet) {
        ChunkRoute::Miners
    } else {
        ChunkRoute::Ignored
    }
}

/// Where the chunks of a contract go; see `chunk_route`.
pub fn route_chunks(contract_id: &QualifiedContractIdentifier, mainnet: bool) -> (r: ChunkRoute)
    ensures
        r == chunk_route(contract_id@, mainnet),
{
    let version: u8 = if mainnet {
        22
    } else {
        26
    };
    let zeros: [u8; 20] = [0u8; 20];
    assert(zeros@ =~= Seq::new(20, |i: int| 0u8));
    if contract_id.issuer_version != version || !bytes_eq(
        contract_id.issuer.as_slice(),
        zeros.as_slice(),
    ) {
        return ChunkRoute::Ignored;
    }
    if contract_id.name == String::from_str("signers") {
        ChunkRoute::Signers
    } else if contract_id.name == String::from_str("miners") {
        ChunkRoute::Miners
    } else {
        ChunkRoute::Ignored
    }
}

/// How a signer deals with an event: the node's verdict on a block is
/// filed, see `validated`; the chunks of a stacker DB are sent on their
/// way, which leaves the signer as it is.
pub open spec fn processed(
    before: Signer,
    event: Option<SignerEvent>,
    after: Signer,
    actions: Seq<SignerAction>,
    route: Option<ChunkRoute>,
) -> bool {
    match event {
        None => after == before && actions.len() == 0 && route is None,
        Some(SignerEvent::StackerDB(chunks)) => after == before && actions.len() == 0 && route
            == Some(chunk_route(chunks.contract_id@, before.config.mainnet)),
        Some(SignerEvent::BlockProposal(response)) => route is None && exists|
            copy: BlockValidateResponse,
        |
            same_response(copy, response) && #[trigger] validated(before, copy, after, actions),
    }
}

impl Signer {
    /// No block is cached twice.
    pub open spec fn wf(&self) -> bool {
        self.blocks.wf()
    }

    /// Deals with an event; see `processed`.
    pub fn process_event(&mut self, event: Option<&SignerEvent>) -> (r: (
        Vec<SignerAction>,
        Option<ChunkRoute>,
    ))
        requires
            old(self).wf(),
        ensures
            final(self).wf(),
            processed(
                *old(self),
                match event {
                    Some(e) => Some(*e),
                    None => None,
                },
                *final(self),
                r.0@,
                r.1,
            ),
    {
        match event {
            None => (Vec::new(), None),
            Some(SignerEvent::StackerDB(chunks)) => {
                (Vec::new(), Some(route_chunks(&chunks.contract_id, self.config.mainnet)))
            },
            Some(SignerEvent::BlockProposal(response)) => {
                let copy = response.clone();
                let actions = self.handle_block_validate_response(copy);
                assert(validated(*old(self), copy, *self, actions@));
                (actions, None)
            },
        }
    }

    /// Whether this signer drives the rounds.
    pub open spec fn is_coordinator(&self) -> bool {
        self.coordinator_id == self.signer_id
    }

    /// A signer for the reward cycle of `config`: idle, with no block seen
    /// and no command to run.
    pub fn from(config: SignerConfig) -> (r: Signer)
        ensures
            r.wf(),
            r.reward_cycle == config.reward_cycle,
            r.signer_id == config.signer_id,
            r.signer_slot_id == config.signer_slot_id,
            r.state == State::Idle,
            r.blocks.entries@.len() == 0,
            r.commands@.len() == 0,
            r.coordinator_id == coordinator_of(config.coordinator_ids@),
            r.config == config,
    {
        let coordinator_id = calculate_coordinator(&config.coordinator_ids);
        Signer {
            reward_cycle: config.reward_cycle,
            signer_id: config.signer_id,
            signer_slot_id: config.signer_slot_id,
            state: State::Idle,
            blocks: VecMap::new(),
            commands: VecDeque::new(),
            coordinator_id,
            config,
        }
    }

    /// Takes note of the coordinator chosen. Where it changed, the signer
    /// starts over from `Idle`.
    pub fn refresh_coordinator(&mut self, coordinator_id: u32) -> (updated: bool)
        ensures
            updated == (coordinator_id != old(self).coordinator_id),
            final(self).coordinator_id == coordinator_id,
            final(self).state == if updated {
                State::Idle
            } else {
                old(self).state
            },
            final(self).reward_cycle == old(self).reward_cycle,
            final(self).signer_id == old(self).signer_id,
            final(self).signer_slot_id == old(self).signer_slot_id,
            final(self).blocks == old(self).blocks,
            final(self).commands == old(self).commands,
            final(self).config == old(self).config,
    {
        if coordinator_id != self.coordinator_id {
            self.coordinator_id = coordinator_id;
            self.state = State::Idle;
            true
        } else {
            false
        }
    }

    /// Whether a block passes: the node found it valid, and it holds none
    /// of the transactions `transactions`.
    pub fn validate_block(block_info: &BlockInfo, transactions: &Vec<Txid>) -> (r: bool)
        ensures
            r == block_passes(*block_info, transactions@),
    {
        if !block_info.valid {
            return false;
        }
        let mut i: usize = 0;
        while i < transactions.len()
            invariant
                i <= transactions@.len(),
                forall|a: int, b: int|
                    0 <= a < i && 0 <= b < block_info.block.txids@.len() ==> (
                    #[trigger] transactions@[a])@ != (#[trigger] block_info.block.txids@[b])@,
            decreases transactions@.len() - i,
        {
            let mut j: usize = 0;
            while j < block_info.block.txids.len()
                invariant
                    j <= block_info.block.txids@.len(),
                    i < transactions@.len(),
                    forall|b: int|
                        0 <= b < j ==> transactions@[i as int]@ != (
                        #[trigger] block_info.block.txids@[b])@,
                decreases block_info.block.txids@.len() - j,
            {
                if transactions[i].key_eq(&block_info.block.txids[j]) {
                    return false;
                }
                j += 1;
            }
            i += 1;
        }
        true
    }

    /// Files the node's verdict on a block. A block found valid is marked
    /// so, and the coordinator queues one command to sign it. A block found
    /// invalid is marked so, and its rejection is to be broadcast; nothing
    /// is queued.
    pub fn handle_block_validate_response(&mut self, response: BlockValidateResponse) -> (actions:
        Vec<SignerAction>)
        requires
            old(self).wf(),
        ensures
            final(self).wf(),
            validated(*old(self), response, *final(self), actions@),
    {
        let mut actions: Vec<SignerAction> = Vec::new();
        match response {
            BlockValidateResponse::Accept { block } => {
                if self.coordinator_id == self.signer_id {
                    let message: Vec<u8> = bytes_clone(block.bytes.as_slice());
                    self.commands.push_back(
                        Command::Sign { message, is_taproot: false, merkle_root: None },
                    );
                    assert(self.commands@.drop_last() =~= old(self).commands@);
                }
                self.mark_block(block, true);
            },
            BlockValidateResponse::Reject { block, reason_code } => {
                let hash = block.signer_signature_hash;
                self.mark_block(block, false);
                actions.push(
                    SignerAction::BroadcastRejection(hash, RejectCode::ValidationFailed(reason_code)),
                );
            },
        }
        actions
    }

    /// Marks `block` as valid or not, caching it where it is new.
    fn mark_block(&mut self, block: NakamotoBlock, valid: bool)
        requires
            old(self).wf(),
        ensures
            final(self).wf(),
            final(self).blocks@ == old(self).blocks@.insert(
                block.signer_signature_hash@,
                BlockInfo { valid, ..known_or_new(old(self).blocks@, block) },
            ),
            final(self).reward_cycle == old(self).reward_cycle,
            final(self).signer_id == old(self).signer_id,
            final(self).signer_slot_id == old(self).signer_slot_id,
            final(self).state == old(self).state,
            final(self).coordinator_id == old(self).coordinator_id,
            final(self).commands == old(self).commands,
            final(self).config == old(self).config,
    {
        let ghost entries0 = self.blocks.entries@;
        match self.blocks.find(&block.signer_signature_hash) {
            Some(i) => {
                proof {
                    lemma_key_index(entries0, i as int);
                }
                self.blocks.entries[i].1.valid = valid;
                proof {
                    let e = self.blocks.entries@[i as int];
                    assert(self.blocks.entries@ =~= entries0.update(i as int, e));
                    lemma_update_value(entries0, i as int, e.0, e.1);
                }
            },
            None => {
                let hash = block.signer_signature_hash;
                self.blocks.insert(hash, BlockInfo { block, vote: None, valid });
            },
        }
    }

    /// Answers a nonce request: the request's message is the signer's vote
    /// on the block it came for. `decoded` is the block the message
    /// decodes to, if it is one; anything else is turned down. A vote cast
    /// before stands; else the vote is yes if the block passes, no if not.
    pub fn validate_nonce_request(
        &mut self,
        message: &mut Vec<u8>,
        decoded: Option<NakamotoBlock>,
        expected_transactions: &Vec<Txid>,
    ) -> (r: bool)
        requires
            old(self).wf(),
        ensures
            final(self).wf(),
            final(self).reward_cycle == old(self).reward_cycle,
            final(self).signer_id == old(self).signer_id,
            final(self).signer_slot_id == old(self).signer_slot_id,
            final(self).state == old(self).state,
            final(self).coordinator_id == old(self).coordinator_id,
            final(self).commands == old(self).commands,
            final(self).config == old(self).config,
            match decoded {
                None => !r && final(message)@ == old(message)@ && final(self).blocks == old(
                    self,
                ).blocks,
                Some(block) => {
                    let info = known_or_new(old(self).blocks@, block);
                    let vote = match info.vote {
                        Some(v) => v@,
                        None => vote_bytes(
                            block.signer_signature_hash@,
                            block_passes(info, expected_transactions@),
                        ),
                    };
                    &&& r
                    &&& final(message)@ == vote
                    &&& final(self).blocks@.dom() == old(self).blocks@.dom().insert(
                        block.signer_signature_hash@,
                    )
                    &&& forall|h: Seq<u8>|
                        old(self).blocks@.contains_key(h) && h != block.signer_signature_hash@
                            ==> final(self).blocks@[h] == old(self).blocks@[h]
                    &&& final(self).blocks@[block.signer_signature_hash@].block == info.block
                    &&& final(self).blocks@[block.signer_signature_hash@].valid == info.valid
                    &&& final(self).blocks@[block.signer_signature_hash@].vote matches Some(v)
                    &&& v@ == vote
                },
            },
    {
        let block = match decoded {
            Some(b) => b,
            None => {
                return false;
            },
        };
        let hash = block.signer_signature_hash;
        let ghost entries0 = self.blocks.entries@;
        let at: usize = match self.blocks.find(&hash) {
            Some(i) => i,
            None => {
                self.blocks.insert(hash, BlockInfo { block, vote: None, valid: false });
                self.blocks.entries.len() - 1
            },
        };
        let ghost entries1 = self.blocks.entries@;
        proof {
            lemma_key_index(entries1, at as int);
        }
        let ghost info = entries1[at as int].1;
        assert(info == known_or_new(old(self).blocks@, block)) by {
            if has_block(entries0, hash@) {
                lemma_key_index(entries0, at as int);
            }
        }
        let vote: Vec<u8> = match &self.blocks.entries[at].1.vote {
            Some(v) => bytes_clone(v.as_slice()),
            None => {
                let mut vote_bytes: Vec<u8> = bytes_clone(hash.0.as_slice());
                if !Self::validate_block(&self.blocks.entries[at].1, expected_transactions) {
                    vote_bytes.push(VOTE_NO);
                }
                vote_bytes
            },
        };
        self.blocks.entries[at].1.vote = Some(bytes_clone(vote.as_slice()));
        proof {
            let e = self.blocks.entries@[at as int];
            assert(self.blocks.entries@ =~= entries1.update(at as int, e));
            lemma_update_value(entries1, at as int, e.0, e.1);
            assert(self.blocks@.dom() =~= old(self).blocks@.dom().insert(hash@));
        }
        *message = vote;
        true
    }

    /// Answers a request for a signature share on the block with the
    /// given signature hash: the vote cast on that block replaces the
    /// request's message; where no vote was cast, the message stands.
    pub fn validate_signature_share_request(
        &self,
        message: &mut Vec<u8>,
        signer_signature_hash: &Sha512Trunc256Sum,
    ) -> (r: bool)
        requires
            self.wf(),
        ensures
            r,
            final(message)@ == match prior_vote(self.blocks@, signer_signature_hash@) {
                Some(v) => v@,
                None => old(message)@,
            },
    {
        match self.blocks.get(signer_signature_hash) {
            Some(info) => {
                match &info.vote {
                    Some(vote) => {
                        *message = bytes_clone(vote.as_slice());
                    },
                    None => {},
                }
            },
            None => {},
        }
        true
    }

    /// Takes up the oldest command if the signer is idle: the signer goes
    /// on to generate a key or to sign, and the command is handed out to be
    /// run.
    pub fn process_next_command(&mut self) -> (r: Option<Command>)
        ensures
            took_command(*old(self), *final(self), r),
    {
        match self.state {
            State::Idle => {
                match self.commands.pop_front() {
                    Some(command) => {
                        match &command {
                            Command::Dkg => {
                                self.state = State::Dkg;
                            },
                            Command::Sign { .. } => {
                                self.state = State::Sign;
                            },
                        }
                        Some(command)
                    },
                    None => None,
                }
            },
            _ => None,
        }
    }

    /// Closes a signing round over `message`. The block the message votes
    /// on leaves the cache; if the signature verified, the block is
    /// accepted where the message is its bare hash, and rejected by the
    /// signers where it is not. The signer is idle again.
    pub fn process_signature(&mut self, message: &Vec<u8>, verified: bool) -> (r: Option<
        BlockResponse,
    >)
        requires
            old(self).wf(),
        ensures
            final(self).wf(),
            final(self).state == State::Idle,
            final(self).reward_cycle == old(self).reward_cycle,
            final(self).signer_id == old(self).signer_id,
            final(self).signer_slot_id == old(self).signer_slot_id,
            final(self).coordinator_id == old(self).coordinator_id,
            final(self).commands == old(self).commands,
            final(self).config == old(self).config,
            if message@.len() >= 32 && old(self).blocks@.contains_key(message@.subrange(0, 32)) {
                let hash = message@.subrange(0, 32);
                &&& final(self).blocks@ == old(self).blocks@.remove(hash)
                &&& match r {
                    Some(BlockResponse::Accepted(h)) => verified && message@ == hash && h@ == hash,
                    Some(BlockResponse::Rejected(h, code)) => verified && message@ != hash && h@
                        == hash && code == RejectCode::SignedRejection,
                    None => !verified,
                }
            } else {
                r is None && final(self).blocks@ == old(self).blocks@
            },
    {
        self.state = State::Idle;
        if message.len() < 32 {
            return None;
        }
        let mut hash_bytes: [u8; 32] = [0u8; 32];
        let mut i: usize = 0;
        while i < 32
            invariant
                i <= 32,
                message@.len() >= 32,
                forall|j: int| 0 <= j < i ==> hash_bytes@[j] == message@[j],
            decreases 32 - i,
        {
            hash_bytes[i] = message[i];
            i += 1;
        }
        let hash = Sha512Trunc256Sum(hash_bytes);
        assert(hash@ =~= message@.subrange(0, 32));
        match self.blocks.remove(&hash) {
            Some(_) => {
                if !verified {
                    None
                } else if message.len() == 32 {
                    assert(message@ =~= hash@);
                    Some(BlockResponse::Accepted(hash))
                } else {
                    Some(BlockResponse::Rejected(hash, RejectCode::SignedRejection))
                }
            },
            None => None,
        }
    }
}

/// Whether `entries` has a block under the hash `h`.
pub open spec fn has_block(entries: Seq<(Sha512Trunc256Sum, BlockInfo)>, h: Seq<u8>) -> bool {
    crate::vecmap::has_key(entries, h)
}

/// The vote cast on the block with signature hash `h`, if any.
pub open spec fn prior_vote(blocks: Map<Seq<u8>, BlockInfo>, h: Seq<u8>) -> Option<Vec<u8>> {
    if blocks.contains_key(h) {
        blocks[h].vote
    } else {
        None
    }
}

/// A vote on a block that has none yet is the block's signature hash if
/// the block passes, and the hash followed by the no byte if it does not.
pub proof fn lemma_first_vote(hash: Seq<u8>, info: BlockInfo, transactions: Seq<Txid>)
    requires
        hash.len() == 32,
    ensures
        block_passes(info, transactions) ==> vote_bytes(hash, block_passes(info, transactions))
            == hash,
        !block_passes(info, transactions) ==> vote_bytes(hash, block_passes(info, transactions))
            == hash + seq![0x6eu8],
{
    assert(hash.push(VOTE_NO) =~= hash + seq![0x6eu8]);
}

/// A request for a signature share keeps its message exactly when no vote
/// was cast on its block, or the vote cast is that very message.
pub proof fn lemma_share_request_unchanged(
    blocks: Map<Seq<u8>, BlockInfo>,
    hash: Seq<u8>,
    before: Seq<u8>,
    after: Seq<u8>,
)
    requires
        after == match prior_vote(blocks, hash) {
            Some(v) => v@,
            None => before,
        },
    ensures
        after == before <==> (prior_vote(blocks, hash) is None || prior_vote(blocks, hash).unwrap()@
            == before),
{
}

} // verus!
