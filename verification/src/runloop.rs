//! The signer's run-loop: which signer serves which reward cycle, and
//! where commands and events go.

use vstd::prelude::*;
use crate::keys::{bytes_eq, pages_clone, KeyEq};
use crate::events::SignerEvent;
use crate::signer::{
    ChunkRoute, Command, coordinator_of, processed, Signer, SignerAction, SignerConfig,
    State as SignerState, took_command,
};
use crate::vecmap::VecMap;

verus! {

/// Which operation to perform.
#[derive(Debug)]
pub struct RunLoopCommand {
    /// Which signer operation to perform.
    pub command: Command,
    /// The reward cycle the operation is for.
    pub reward_cycle: u64,
}

/// The runloop state.
#[derive(Clone, Copy, Debug, PartialEq, Eq, Structural)]
pub enum State {
    /// The runloop is uninitialized.
    Uninitialized,
    /// The runloop is initialized.
    Initialized,
}

/// The network the signer works on.
#[derive(Clone, Copy, Debug, PartialEq, Eq, Structural)]
pub enum Network {
    Mainnet,
    Testnet,
}

impl Network {
    pub fn is_mainnet(&self) -> (r: bool)
        ensures
            r == (*self == Network::Mainnet),
    {
        match self {
            Network::Mainnet => true,
            Network::Testnet => false,
        }
    }
}

/// The options of the signer.
#[derive(Clone, Copy, Debug, PartialEq, Eq, Structural)]
pub struct GlobalConfig {
    /// How long to wait for an event, in milliseconds.
    pub event_timeout_ms: u64,
    pub network: Network,
    pub dkg_end_timeout_ms: Option<u64>,
    pub dkg_private_timeout_ms: Option<u64>,
    pub dkg_public_timeout_ms: Option<u64>,
    pub nonce_timeout_ms: Option<u64>,
    pub sign_timeout_ms: Option<u64>,
    pub tx_fee_ms: u64,
}

/// What can go wrong on the way to the node.
#[derive(Debug)]
pub enum ClientError {
    /// The signer is not registered for the reward cycle.
    NotRegistered,
    /// The reward set of the given cycle is not calculated yet.
    RewardSetNotYetCalculated(u64),
    /// The node could not be asked.
    RequestFailure(String),
}

/// An address on the chain.
#[derive(Clone, Copy, Debug)]
pub struct StacksAddress {
    pub version: u8,
    pub bytes: [u8; 20],
}

impl View for StacksAddress {
    type V = (u8, Seq<u8>);

    open spec fn view(&self) -> (u8, Seq<u8>) {
        (self.version, self.bytes@)
    }
}

impl KeyEq for StacksAddress {
    fn key_eq(&self, other: &Self) -> (r: bool) {
        self.version == other.version && bytes_eq(self.bytes.as_slice(), other.bytes.as_slice())
    }
}

/// The signers registered for a reward cycle.
#[derive(Debug)]
pub struct RegisteredSignersInfo {
    /// The ID of each signer, by address.
    pub signer_address_ids: VecMap<StacksAddress, u32>,
    /// The key IDs of each signer, by signer ID.
    pub signer_key_ids: VecMap<u32, Vec<u32>>,
}

/// The position of the first of the first `n` slots that belongs to
/// `addr`, if one does.
pub open spec fn slot_of(addr: (u8, Seq<u8>), slots: Seq<StacksAddress>, from: int) -> Option<int>
    decreases slots.len() - from,
{
    if from < 0 || from >= slots.len() {
        None
    } else if slots[from]@ == addr {
        Some(from)
    } else {
        slot_of(addr, slots, from + 1)
    }
}

/// The slot of the signer with address `current_addr`: the first slot
/// that belongs to it.
pub fn signer_slot_of(current_addr: &StacksAddress, slots: &Vec<StacksAddress>) -> (r: Option<u32>)
    requires
        slots@.len() <= u32::MAX,
    ensures
        match r {
            Some(i) => slot_of(current_addr@, slots@, 0) == Some(i as int),
            None => slot_of(current_addr@, slots@, 0) is None,
        },
{
    let mut i: usize = 0;
    while i < slots.len() && !slots[i].key_eq(current_addr)
        invariant
            i <= slots@.len(),
            slot_of(current_addr@, slots@, 0) == slot_of(current_addr@, slots@, i as int),
        decreases slots@.len() - i,
    {
        i += 1;
    }
    if i < slots.len() {
        Some(i as u32)
    } else {
        None
    }
}

/// The key IDs of signer `id`, none where the set lists none.
pub open spec fn key_ids_of(info: RegisteredSignersInfo, id: u32) -> Seq<u32> {
    if info.signer_key_ids@.contains_key(id) {
        info.signer_key_ids@[id]@
    } else {
        Seq::empty()
    }
}

/// What the run-loop makes of what the node says about a reward cycle:
/// an error while the reward set is not calculated, nothing where the
/// signer has no slot or is not in the reward set, and else the
/// configuration of the signer for that cycle.
pub open spec fn signer_config_for(
    config: GlobalConfig,
    reward_cycle: u64,
    reward_set_calculated: bool,
    current_addr: StacksAddress,
    slots: Seq<StacksAddress>,
    registered: Option<RegisteredSignersInfo>,
    coordinator_ids: Seq<u32>,
    r: Result<Option<SignerConfig>, ClientError>,
) -> bool {
    if !reward_set_calculated {
        r matches Err(ClientError::RewardSetNotYetCalculated(c)) && c == reward_cycle
    } else {
        match (slot_of(current_addr@, slots, 0), registered) {
            (Some(slot), Some(info)) => if info.signer_address_ids@.contains_key(current_addr@) {
                &&& r matches Ok(Some(cfg))
                &&& cfg.reward_cycle == reward_cycle
                &&& cfg.signer_id == info.signer_address_ids@[current_addr@]
                &&& cfg.signer_slot_id == slot
                &&& cfg.key_ids@ == key_ids_of(info, cfg.signer_id)
                &&& cfg.coordinator_ids@ == coordinator_ids
                &&& cfg.mainnet == (config.network == Network::Mainnet)
                &&& cfg.dkg_end_timeout_ms == config.dkg_end_timeout_ms
                &&& cfg.dkg_private_timeout_ms == config.dkg_private_timeout_ms
                &&& cfg.dkg_public_timeout_ms == config.dkg_public_timeout_ms
                &&& cfg.nonce_timeout_ms == config.nonce_timeout_ms
                &&& cfg.sign_timeout_ms == config.sign_timeout_ms
                &&& cfg.tx_fee_ms == config.tx_fee_ms
            } else {
                r matches Ok(None)
            },
            _ => r matches Ok(None),
        }
    }
}

/// The active signers by reward-cycle parity, kept in a
/// `hashbrown::HashMap`.
#[verifier::external_body]
#[derive(Debug)]
pub struct SignerTable {
    inner: hashbrown::HashMap<u64, Signer>,
}

/// What a table holds: the signer under each key.
pub uninterp spec fn signers_in(t: SignerTable) -> Map<u64, Signer>;

/// The table without signers.
pub open spec fn no_signers() -> Map<u64, Signer> {
    Map::empty()
}

/// The signer under `k`, if there is one.
pub open spec fn signer_at(m: Map<u64, Signer>, k: u64) -> Option<Signer> {
    if m.contains_key(k) {
        Some(m[k])
    } else {
        None
    }
}

/// Calls `hashbrown::HashMap::with_capacity`: the table made holds
/// nothing.
#[verifier::external_body]
fn table_with_capacity(capacity: usize) -> (t: SignerTable)
    ensures
        signers_in(t) == no_signers(),
{
    SignerTable { inner: hashbrown::HashMap::with_capacity(capacity) }
}

/// Calls `hashbrown::HashMap::get`: the signer under the key, if there is
/// one.
#[verifier::external_body]
fn table_get(t: &SignerTable, k: u64) -> (r: Option<&Signer>)
    ensures
        match r {
            Some(s) => signer_at(signers_in(*t), k) == Some(*s),
            None => signer_at(signers_in(*t), k) is None,
        },
{
    t.inner.get(&k)
}

/// Calls `hashbrown::HashMap::insert`: the signer is put under the key,
/// and the one that was there is returned.
#[verifier::external_body]
fn table_insert(t: &mut SignerTable, k: u64, v: Signer) -> (r: Option<Signer>)
    ensures
        signers_in(*final(t)) == signers_in(*old(t)).insert(k, v),
        r == signer_at(signers_in(*old(t)), k),
{
    t.inner.insert(k, v)
}

/// Calls `hashbrown::HashMap::remove`: the signer under the key leaves the
/// table and is returned.
#[verifier::external_body]
fn table_remove(t: &mut SignerTable, k: u64) -> (r: Option<Signer>)
    ensures
        signers_in(*final(t)) == signers_in(*old(t)).remove(k),
        r == signer_at(signers_in(*old(t)), k),
{
    t.inner.remove(&k)
}

/// What one signer did in a pass.
#[derive(Debug)]
pub struct SlotOutcome {
    /// The parity of the signer's reward cycle.
    pub slot: u64,
    /// What the signer wants done outside.
    pub actions: Vec<SignerAction>,
    /// Where the chunks of the event go, if it brought any.
    pub route: Option<ChunkRoute>,
    /// The command the signer took up, which is to be run.
    pub started: Option<Command>,
}

/// How a signer goes through a pass: it deals with the event, then takes
/// up a command if it is idle.
pub open spec fn slot_pass(
    before: Signer,
    event: Option<SignerEvent>,
    after: Signer,
    out: SlotOutcome,
) -> bool {
    exists|mid: Signer|
        #![trigger took_command(mid, after, out.started)]
        processed(before, event, mid, out.actions@, out.route) && took_command(
            mid,
            after,
            out.started,
        )
}

/// How a command is routed: it is queued with the signer of its reward
/// cycle; a command for a cycle that no signer serves is dropped.
pub open spec fn command_routed(
    before: Map<u64, Signer>,
    command: RunLoopCommand,
    after: Map<u64, Signer>,
    queued: bool,
) -> bool {
    let k = (command.reward_cycle % 2) as u64;
    &&& after.dom() == before.dom()
    &&& queued == (before.contains_key(k) && before[k].reward_cycle == command.reward_cycle)
    &&& forall|j: u64| before.contains_key(j) && (j != k || !queued) ==> after[j] == before[j]
    &&& queued ==> {
        &&& after[k].commands@ == before[k].commands@.push(command.command)
        &&& after[k].reward_cycle == before[k].reward_cycle
        &&& after[k].signer_id == before[k].signer_id
        &&& after[k].signer_slot_id == before[k].signer_slot_id
        &&& after[k].state == before[k].state
        &&& after[k].coordinator_id == before[k].coordinator_id
        &&& after[k].blocks == before[k].blocks
        &&& after[k].config == before[k].config
    }
}

/// How the signers go through a pass. The command is routed; each signer,
/// the even one first, deals with the event and takes up a command; the
/// signers whose tenure is over are removed. `outcomes` holds one entry
/// for each signer, in that order.
pub open spec fn pass_made(
    before: Map<u64, Signer>,
    event: Option<SignerEvent>,
    cmd: Option<RunLoopCommand>,
    after: Map<u64, Signer>,
    outcomes: Seq<SlotOutcome>,
) -> bool {
    exists|routed: Map<u64, Signer>, passed: Map<u64, Signer>|
        pass_through(before, event, cmd, routed, passed, after, outcomes)
}

/// A pass in which the signers stand as `routed` once the command is
/// routed, and as `passed` once each has gone through the pass.
pub open spec fn pass_through(
    before: Map<u64, Signer>,
    event: Option<SignerEvent>,
    cmd: Option<RunLoopCommand>,
    routed: Map<u64, Signer>,
    passed: Map<u64, Signer>,
    after: Map<u64, Signer>,
    outcomes: Seq<SlotOutcome>,
) -> bool {
    &&& match cmd {
        Some(command) => command_routed(
            before,
            command,
            routed,
            before.contains_key((command.reward_cycle % 2) as u64) && before[(command.reward_cycle
                % 2) as u64].reward_cycle == command.reward_cycle,
        ),
        None => routed == before,
    }
    &&& passed.dom() == routed.dom()
    &&& after == without_stale(passed)
    &&& outcomes.len() == (if routed.contains_key(0) {
        1int
    } else {
        0int
    }) + (if routed.contains_key(1) {
        1int
    } else {
        0int
    })
    &&& routed.contains_key(0) ==> outcomes[0].slot == 0 && slot_pass(
        routed[0],
        event,
        passed[0],
        outcomes[0],
    )
    &&& routed.contains_key(1) ==> outcomes.last().slot == 1 && slot_pass(
        routed[1],
        event,
        passed[1],
        outcomes.last(),
    )
}

/// The runloop for the signer.
#[derive(Debug)]
pub struct RunLoop {
    /// Configuration info.
    pub config: GlobalConfig,
    /// The signer for an odd or even reward cycle, by reward cycle % 2.
    pub stacks_signers: SignerTable,
    /// The state of the runloop.
    pub state: State,
}

/// What is left of the signers once those whose tenure is over are gone.
pub open spec fn without_stale(m: Map<u64, Signer>) -> Map<u64, Signer> {
    Map::new(
        |k: u64| m.contains_key(k) && m[k].state != SignerState::TenureExceeded,
        |k: u64| m[k],
    )
}

/// Whether the signers have to be made anew for `reward_cycle`: no signer
/// serves its parity, or the one that does serves another cycle.
pub open spec fn stale_for(m: Map<u64, Signer>, reward_cycle: u64) -> bool {
    let k = (reward_cycle % 2) as u64;
    !m.contains_key(k) || m[k].reward_cycle != reward_cycle
}

/// Whether a failed refresh of one reward cycle stops the attempt. That
/// the signer is not registered never does; that the reward set is not
/// calculated yet does for the current cycle only; anything else does.
pub open spec fn stops_refresh(e: ClientError, is_current: bool) -> bool {
    match e {
        ClientError::NotRegistered => false,
        ClientError::RewardSetNotYetCalculated(_) => is_current,
        ClientError::RequestFailure(_) => true,
    }
}

impl RunLoop {
    /// The signers by reward-cycle parity.
    pub open spec fn signers(&self) -> Map<u64, Signer> {
        signers_in(self.stacks_signers)
    }

    /// The signers stand under the parities zero and one only.
    pub open spec fn wf(&self) -> bool {
        forall|k: u64|
            #![trigger self.signers().contains_key(k)]
            #![trigger self.signers()[k]]
            self.signers().contains_key(k) ==> k < 2 && self.signers()[k].wf()
    }

    /// Creates a new runloop from a config.
    pub fn from(config: GlobalConfig) -> (r: RunLoop)
        ensures
            r.wf(),
            r.config == config,
            r.signers() == no_signers(),
            r.state == State::Uninitialized,
    {
        RunLoop { config, stacks_signers: table_with_capacity(2), state: State::Uninitialized }
    }

    /// The signer of parity `slot`, if there is one.
    pub fn signer(&self, slot: u64) -> (r: Option<&Signer>)
        ensures
            match r {
                Some(s) => signer_at(self.signers(), slot) == Some(*s),
                None => signer_at(self.signers(), slot) is None,
            },
    {
        table_get(&self.stacks_signers, slot)
    }

    /// Sets how long the receiver waits for an event.
    pub fn set_event_timeout(&mut self, timeout_ms: u64)
        ensures
            final(self).config == (GlobalConfig { event_timeout_ms: timeout_ms, ..old(self).config }),
            final(self).stacks_signers == old(self).stacks_signers,
            final(self).state == old(self).state,
    {
        self.config.event_timeout_ms = timeout_ms;
    }

    /// How long the receiver waits for an event.
    pub fn get_event_timeout(&self) -> (r: u64)
        ensures
            r == self.config.event_timeout_ms,
    {
        self.config.event_timeout_ms
    }

    /// The configuration of the signer for a reward cycle, from what the
    /// node says about the cycle; see `signer_config_for`.
    pub fn get_signer_config(
        &self,
        reward_cycle: u64,
        reward_set_calculated: bool,
        current_addr: &StacksAddress,
        signer_slots: &Vec<StacksAddress>,
        registered_signers: Option<&RegisteredSignersInfo>,
        coordinator_ids: &Vec<u32>,
    ) -> (r: Result<Option<SignerConfig>, ClientError>)
        requires
            signer_slots@.len() <= u32::MAX,
            registered_signers matches Some(info) ==> info.signer_address_ids.wf()
                && info.signer_key_ids.wf(),
        ensures
            signer_config_for(
                self.config,
                reward_cycle,
                reward_set_calculated,
                *current_addr,
                signer_slots@,
                match registered_signers {
                    Some(info) => Some(*info),
                    None => None,
                },
                coordinator_ids@,
                r,
            ),
    {
        if !reward_set_calculated {
            return Err(ClientError::RewardSetNotYetCalculated(reward_cycle));
        }
        let signer_slot_id: u32 = match signer_slot_of(current_addr, signer_slots) {
            Some(slot) => slot,
            None => {
                return Ok(None);
            },
        };
        let registered_signers: &RegisteredSignersInfo = match registered_signers {
            Some(info) => info,
            None => {
                return Ok(None);
            },
        };
        let signer_id: u32 = match registered_signers.signer_address_ids.get(current_addr) {
            Some(id) => *id,
            None => {
                return Ok(None);
            },
        };
        let key_ids: Vec<u32> = match registered_signers.signer_key_ids.get(&signer_id) {
            Some(ids) => pages_clone(ids),
            None => Vec::new(),
        };
        Ok(
            Some(
                SignerConfig {
                    reward_cycle,
                    signer_id,
                    signer_slot_id,
                    key_ids,
                    coordinator_ids: pages_clone(coordinator_ids),
                    mainnet: self.config.network.is_mainnet(),
                    dkg_end_timeout_ms: self.config.dkg_end_timeout_ms,
                    dkg_private_timeout_ms: self.config.dkg_private_timeout_ms,
                    dkg_public_timeout_ms: self.config.dkg_public_timeout_ms,
                    nonce_timeout_ms: self.config.nonce_timeout_ms,
                    sign_timeout_ms: self.config.sign_timeout_ms,
                    tx_fee_ms: self.config.tx_fee_ms,
                },
            ),
        )
    }

    /// Whether the signer for `reward_cycle` has to be made anew.
    pub fn needs_refresh(&self, reward_cycle: u64) -> (r: bool)
        ensures
            r == stale_for(self.signers(), reward_cycle),
    {
        let reward_index: u64 = reward_cycle % 2;
        match table_get(&self.stacks_signers, reward_index) {
            Some(stacks_signer) => stacks_signer.reward_cycle != reward_cycle,
            None => true,
        }
    }

    /// Refreshes the signer for a reward cycle. `fetched` is what
    /// `get_signer_config` made of the node's answers; it is read only
    /// where the signer has to be made anew. A configuration found then
    /// puts a fresh signer in the place of its parity; an error is handed
    /// on.
    pub fn refresh_signer_config(
        &mut self,
        reward_cycle: u64,
        fetched: Result<Option<SignerConfig>, ClientError>,
    ) -> (r: Result<(), ClientError>)
        requires
            old(self).wf(),
        ensures
            final(self).wf(),
            final(self).config == old(self).config,
            final(self).state == old(self).state,
            if !stale_for(old(self).signers(), reward_cycle) {
                r is Ok && final(self).signers() == old(self).signers()
            } else {
                match fetched {
                    Err(e) => r == Err::<(), ClientError>(e) && final(self).signers() == old(
                        self,
                    ).signers(),
                    Ok(None) => r is Ok && final(self).signers() == old(self).signers(),
                    Ok(Some(cfg)) => {
                        &&& r is Ok
                        &&& final(self).signers().dom() == old(self).signers().dom().insert(
                            (reward_cycle % 2) as u64,
                        )
                        &&& forall|k: u64|
                            old(self).signers().contains_key(k) && k != reward_cycle % 2
                                ==> final(self).signers()[k] == old(self).signers()[k]
                        &&& Self::fresh_signer(final(self).signers()[(reward_cycle % 2) as u64], cfg)
                    },
                }
            },
    {
        let reward_index: u64 = reward_cycle % 2;
        if self.needs_refresh(reward_cycle) {
            match fetched {
                Err(e) => {
                    return Err(e);
                },
                Ok(Some(new_signer_config)) => {
                    let signer = Signer::from(new_signer_config);
                    table_insert(&mut self.stacks_signers, reward_index, signer);
                    assert(self.signers().dom() =~= old(self).signers().dom().insert(reward_index));
                },
                Ok(None) => {},
            }
        }
        Ok(())
    }

    /// `s` is the signer made from `cfg`.
    pub open spec fn fresh_signer(s: Signer, cfg: SignerConfig) -> bool {
        &&& s.reward_cycle == cfg.reward_cycle
        &&& s.signer_id == cfg.signer_id
        &&& s.signer_slot_id == cfg.signer_slot_id
        &&& s.state == SignerState::Idle
        &&& s.blocks.entries@.len() == 0
        &&& s.commands@.len() == 0
        &&& s.coordinator_id == coordinator_of(cfg.coordinator_ids@)
        &&& s.config == cfg
    }

    /// Whether a failed refresh of one reward cycle stops the attempt, so
    /// that all of it is tried again later.
    pub fn refresh_error_stops(e: &ClientError, is_current: bool) -> (r: bool)
        ensures
            r == stops_refresh(*e, is_current),
    {
        match e {
            ClientError::NotRegistered => false,
            ClientError::RewardSetNotYetCalculated(_) => is_current,
            ClientError::RequestFailure(_) => true,
        }
    }

    /// Takes note of the coordinator chosen for the signer of parity
    /// `slot`; see `Signer::refresh_coordinator`.
    pub fn on_coordinator_refreshed(&mut self, slot: u64, coordinator_id: u32) -> (updated: bool)
        requires
            old(self).wf(),
        ensures
            final(self).wf(),
            final(self).config == old(self).config,
            final(self).state == old(self).state,
            match signer_at(old(self).signers(), slot) {
                None => !updated && final(self).signers() == old(self).signers(),
                Some(s) => {
                    &&& updated == (coordinator_id != s.coordinator_id)
                    &&& final(self).signers().dom() == old(self).signers().dom()
                    &&& forall|k: u64|
                        old(self).signers().contains_key(k) && k != slot ==> final(self).signers()[k]
                            == old(self).signers()[k]
                    &&& final(self).signers()[slot].coordinator_id == coordinator_id
                    &&& final(self).signers()[slot].state == if updated {
                        SignerState::Idle
                    } else {
                        s.state
                    }
                    &&& final(self).signers()[slot].reward_cycle == s.reward_cycle
                    &&& final(self).signers()[slot].signer_id == s.signer_id
                    &&& final(self).signers()[slot].signer_slot_id == s.signer_slot_id
                    &&& final(self).signers()[slot].blocks == s.blocks
                    &&& final(self).signers()[slot].commands == s.commands
                    &&& final(self).signers()[slot].config == s.config
                },
            },
    {
        match table_remove(&mut self.stacks_signers, slot) {
            Some(mut stacks_signer) => {
                let updated = stacks_signer.refresh_coordinator(coordinator_id);
                table_insert(&mut self.stacks_signers, slot, stacks_signer);
                assert(self.signers().dom() =~= old(self).signers().dom());
                updated
            },
            None => {
                assert(self.signers() =~= old(self).signers());
                false
            },
        }
    }

    /// Notes that the tenure of the signer of parity `slot` is over; the
    /// next cleanup removes it.
    pub fn end_tenure(&mut self, slot: u64) -> (ended: bool)
        requires
            old(self).wf(),
        ensures
            final(self).wf(),
            final(self).config == old(self).config,
            final(self).state == old(self).state,
            ended == old(self).signers().contains_key(slot),
            final(self).signers().dom() == old(self).signers().dom(),
            forall|k: u64|
                old(self).signers().contains_key(k) && k != slot ==> final(self).signers()[k] == old(
                    self,
                ).signers()[k],
            ended ==> final(self).signers()[slot] == (Signer {
                state: SignerState::TenureExceeded,
                ..old(self).signers()[slot]
            }),
    {
        match table_remove(&mut self.stacks_signers, slot) {
            Some(mut stacks_signer) => {
                stacks_signer.state = SignerState::TenureExceeded;
                table_insert(&mut self.stacks_signers, slot, stacks_signer);
                assert(self.signers().dom() =~= old(self).signers().dom());
                true
            },
            None => {
                assert(self.signers() =~= old(self).signers());
                false
            },
        }
    }

    /// Ends an attempt to refresh the signers: with no signer at all the
    /// signer is not registered, and the attempt is to be made again; else
    /// the runloop is initialized.
    pub fn finish_refresh(&mut self) -> (r: Result<(), ClientError>)
        requires
            old(self).wf(),
        ensures
            final(self).wf(),
            final(self).config == old(self).config,
            final(self).signers() == old(self).signers(),
            if old(self).signers() == no_signers() {
                r matches Err(ClientError::NotRegistered) && final(self).state == old(self).state
            } else {
                r is Ok && final(self).state == State::Initialized
            },
    {
        let none: bool = table_get(&self.stacks_signers, 0).is_none() && table_get(
            &self.stacks_signers,
            1,
        ).is_none();
        proof {
            if none {
                assert(self.signers() =~= no_signers());
            }
        }
        if none {
            Err(ClientError::NotRegistered)
        } else {
            self.state = State::Initialized;
            assert(self.signers() == old(self).signers());
            Ok(())
        }
    }

    /// Removes the signers whose tenure is over.
    pub fn cleanup_stale_signers(&mut self)
        requires
            old(self).wf(),
        ensures
            final(self).wf(),
            final(self).signers() == without_stale(old(self).signers()),
            final(self).config == old(self).config,
            final(self).state == old(self).state,
    {
        let mut index: u64 = 0;
        while index < 2
            invariant
                index <= 2,
                old(self).wf(),
                self.config == old(self).config,
                self.state == old(self).state,
                forall|k: u64|
                    self.signers().contains_key(k) <==> old(self).signers().contains_key(k) && (k
                        >= index || old(self).signers()[k].state != SignerState::TenureExceeded),
                forall|k: u64|
                    self.signers().contains_key(k) ==> #[trigger] self.signers()[k] == old(
                        self,
                    ).signers()[k],
            decreases 2 - index,
        {
            let stale: bool = match table_get(&self.stacks_signers, index) {
                Some(stacks_signer) => stacks_signer.state == SignerState::TenureExceeded,
                None => false,
            };
            if stale {
                table_remove(&mut self.stacks_signers, index);
            }
            index += 1;
        }
        assert(self.signers() =~= without_stale(old(self).signers()));
    }

    /// Queues a command with the signer of its reward cycle. A command
    /// for a cycle that no signer serves is dropped.
    pub fn route_command(&mut self, command: RunLoopCommand) -> (queued: bool)
        requires
            old(self).wf(),
        ensures
            final(self).wf(),
            final(self).config == old(self).config,
            final(self).state == old(self).state,
            command_routed(old(self).signers(), command, final(self).signers(), queued),
    {
        let reward_cycle: u64 = command.reward_cycle;
        let reward_index: u64 = reward_cycle % 2;
        match table_remove(&mut self.stacks_signers, reward_index) {
            Some(mut stacks_signer) => {
                let queued: bool = stacks_signer.reward_cycle == reward_cycle;
                if queued {
                    stacks_signer.commands.push_back(command.command);
                }
                table_insert(&mut self.stacks_signers, reward_index, stacks_signer);
                assert(self.signers().dom() =~= old(self).signers().dom());
                queued
            },
            None => {
                assert(self.signers() =~= old(self).signers());
                false
            },
        }
    }
}

impl RunLoop {
    /// Lets the signer of parity `slot`, if there is one, go through the
    /// pass.
    fn pass_slot(&mut self, slot: u64, event: Option<&SignerEvent>, outcomes: &mut Vec<SlotOutcome>)
        requires
            old(self).wf(),
            slot < 2,
        ensures
            final(self).wf(),
            final(self).config == old(self).config,
            final(self).state == old(self).state,
            final(self).signers().dom() == old(self).signers().dom(),
            forall|k: u64|
                old(self).signers().contains_key(k) && k != slot ==> final(self).signers()[k] == old(
                    self,
                ).signers()[k],
            if old(self).signers().contains_key(slot) {
                &&& final(outcomes)@.len() == old(outcomes)@.len() + 1
                &&& final(outcomes)@.drop_last() == old(outcomes)@
                &&& final(outcomes)@.last().slot == slot
                &&& slot_pass(
                    old(self).signers()[slot],
                    match event {
                        Some(e) => Some(*e),
                        None => None,
                    },
                    final(self).signers()[slot],
                    final(outcomes)@.last(),
                )
            } else {
                final(outcomes)@ == old(outcomes)@
            },
    {
        match table_remove(&mut self.stacks_signers, slot) {
            Some(mut stacks_signer) => {
                let ghost before = stacks_signer;
                assert(old(self).signers().contains_key(slot));
                assert(old(self).signers()[slot].wf());
                let (actions, route) = stacks_signer.process_event(event);
                let ghost mid = stacks_signer;
                let started = stacks_signer.process_next_command();
                let out = SlotOutcome { slot, actions, route, started };
                assert(took_command(mid, stacks_signer, out.started));
                outcomes.push(out);
                assert(outcomes@.drop_last() =~= old(outcomes)@);
                table_insert(&mut self.stacks_signers, slot, stacks_signer);
                assert(self.signers().dom() =~= old(self).signers().dom());
            },
            None => {
                assert(self.signers() =~= old(self).signers());
            },
        }
    }

    /// One pass of the runloop. `refreshed` is how the refresh of the
    /// signers ended. A runloop that was never initialized and could not
    /// be now drops the event and the command. Else the pass is made; see
    /// `pass_made`.
    pub fn run_one_pass(
        &mut self,
        refreshed: &Result<(), ClientError>,
        event: Option<&SignerEvent>,
        cmd: Option<RunLoopCommand>,
    ) -> (outcomes: Vec<SlotOutcome>)
        requires
            old(self).wf(),
        ensures
            final(self).wf(),
            final(self).config == old(self).config,
            final(self).state == old(self).state,
            if refreshed is Err && old(self).state == State::Uninitialized {
                outcomes@.len() == 0 && final(self).signers() == old(self).signers()
            } else {
                pass_made(
                    old(self).signers(),
                    match event {
                        Some(e) => Some(*e),
                        None => None,
                    },
                    cmd,
                    final(self).signers(),
                    outcomes@,
                )
            },
    {
        let mut outcomes: Vec<SlotOutcome> = Vec::new();
        if refreshed.is_err() {
            match self.state {
                State::Uninitialized => {
                    return outcomes;
                },
                State::Initialized => {},
            }
        }
        match cmd {
            Some(command) => {
                let queued = self.route_command(command);
                assert(command_routed(old(self).signers(), command, self.signers(), queued));
            },
            None => {},
        }
        let ghost routed = self.signers();
        self.pass_slot(0, event, &mut outcomes);
        self.pass_slot(1, event, &mut outcomes);
        let ghost passed = self.signers();
        self.cleanup_stale_signers();
        assert(pass_through(
            old(self).signers(),
            match event {
                Some(e) => Some(*e),
                None => None,
            },
            cmd,
            routed,
            passed,
            self.signers(),
            outcomes@,
        ));
        outcomes
    }
}

} // verus!
