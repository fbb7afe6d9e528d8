//! The downloader: the batches that wait, the one that is being worked
//! on, and what is known of the peers.

use vstd::prelude::*;
use crate::batch::{
    AttachmentsBatch, BatchView, missing_of, nothing_missing, random_u64, resolved, retry_delay,
};
use crate::machine::{batch_action_for, BatchAction};
use crate::context::{AttachmentsBatchStateContext, lemma_plan_len, plan_len, planned_requests};
use crate::digest::hash160;
use crate::machine::{batch_step, BatchEvent};
use crate::pq::pushed;
use crate::types::{ConnectionOptions, MAX_RETRY_DELAY};
use crate::vecmap::{inserted, key_index};
use crate::keys::{ContractIdView, Hash160, KeyEq};
use crate::machine::AttachmentsBatchStateMachine;
use crate::pq::{key_ge, Prioritized, PriorityQueue, pushed_onto};
use crate::reliability::ReliabilityReport;
use crate::types::{Attachment, AttachmentInstance};
use crate::vecmap::{VecMap, lemma_key_index};

verus! {

/// What the store knows of the content an instance refers to.
#[derive(Debug)]
pub enum StorageLookup {
    /// The content is there and validated.
    Validated(Attachment),
    /// The content was seen, and is not bound to an instance yet.
    Inboxed(Attachment),
    /// The content is not there.
    Unknown,
}

/// Something to write to the store.
#[derive(Debug)]
pub enum StorageWrite {
    /// Keep this content as validated.
    InstantiatedAttachment(Attachment),
    /// Keep this instance; the flag says whether its content is there.
    Instance(AttachmentInstance, bool),
}

/// A write to the store as a value.
pub enum WriteView {
    InstantiatedAttachment(Seq<u8>),
    Instance(AttachmentInstance, bool),
}

impl View for StorageWrite {
    type V = WriteView;

    open spec fn view(&self) -> WriteView {
        match self {
            StorageWrite::InstantiatedAttachment(a) => WriteView::InstantiatedAttachment(a@),
            StorageWrite::Instance(i, present) => WriteView::Instance(*i, *present),
        }
    }
}

/// What admitting new instances comes to.
#[derive(Debug)]
pub struct Admission {
    /// The instances whose content is at hand, each with its content.
    pub resolved: Vec<(AttachmentInstance, Attachment)>,
    /// What is to be written to the store, in this order.
    pub writes: Vec<StorageWrite>,
}

/// A list of writes as values.
pub open spec fn write_views(w: Seq<StorageWrite>) -> Seq<WriteView> {
    Seq::new(w.len(), |i: int| w[i]@)
}

/// A list of resolved instances, each with its content as a value.
pub open spec fn resolved_views(r: Seq<(AttachmentInstance, Attachment)>) -> Seq<
    (AttachmentInstance, Seq<u8>),
> {
    Seq::new(r.len(), |i: int| (r[i].0, r[i].1@))
}

/// A list of batches as values.
pub open spec fn batch_views(b: Seq<AttachmentsBatch>) -> Seq<BatchView> {
    Seq::new(b.len(), |i: int| b[i]@)
}

/// The content an instance is resolved with at once, if any: none of it
/// for the empty hash, else what the store has.
pub open spec fn content_at_hand(instance: AttachmentInstance, lookup: StorageLookup) -> Option<
    Seq<u8>,
> {
    if instance.content_hash.is_empty_spec() {
        Some(Seq::empty())
    } else {
        match lookup {
            StorageLookup::Validated(a) => Some(a@),
            StorageLookup::Inboxed(a) => Some(a@),
            StorageLookup::Unknown => None,
        }
    }
}

/// What admitting one instance writes to the store: the instance, marked
/// present where its content is at hand, after the content itself where
/// that was only seen before; an instance of the initial batch whose
/// content is missing is not written again.
pub open spec fn writes_for(
    instance: AttachmentInstance,
    lookup: StorageLookup,
    initial_batch: bool,
) -> Seq<WriteView> {
    if instance.content_hash.is_empty_spec() {
        seq![WriteView::Instance(instance, true)]
    } else {
        match lookup {
            StorageLookup::Validated(a) => seq![WriteView::Instance(instance, true)],
            StorageLookup::Inboxed(a) => seq![
                WriteView::InstantiatedAttachment(a@),
                WriteView::Instance(instance, true),
            ],
            StorageLookup::Unknown => if initial_batch {
                Seq::empty()
            } else {
                seq![WriteView::Instance(instance, false)]
            },
        }
    }
}

/// The writes for the first `n` instances.
pub open spec fn all_writes(
    new: Seq<(AttachmentInstance, StorageLookup)>,
    initial_batch: bool,
    n: int,
) -> Seq<WriteView>
    decreases n,
{
    if n <= 0 {
        Seq::empty()
    } else {
        all_writes(new, initial_batch, n - 1) + writes_for(new[n - 1].0, new[n - 1].1, initial_batch)
    }
}

/// Those of the first `n` instances whose content is at hand, with it.
pub open spec fn all_resolved(new: Seq<(AttachmentInstance, StorageLookup)>, n: int) -> Seq<
    (AttachmentInstance, Seq<u8>),
>
    decreases n,
{
    if n <= 0 {
        Seq::empty()
    } else {
        let before = all_resolved(new, n - 1);
        match content_at_hand(new[n - 1].0, new[n - 1].1) {
            Some(content) => before.push((new[n - 1].0, content)),
            None => before,
        }
    }
}

/// The batch that misses `a` and nothing else.
pub open spec fn batch_of_one(a: AttachmentInstance) -> BatchView {
    BatchView {
        block_height: a.block_height,
        index_block_hash: a.index_block_hash@,
        missing: Map::<ContractIdView, Map<u32, Hash160>>::empty().insert(
            a.contract_id@,
            Map::<u32, Hash160>::empty().insert(a.attachment_index, a.content_hash),
        ),
        retry_count: 0,
        retry_deadline: 0,
    }
}

/// The batch `b` once it misses `a` too.
pub open spec fn batch_with(b: BatchView, a: AttachmentInstance) -> BatchView {
    BatchView {
        missing: b.missing.insert(
            a.contract_id@,
            missing_of(b.missing, a.contract_id@).insert(a.attachment_index, a.content_hash),
        ),
        ..b
    }
}

/// Where the batch of block `block` stands among `batches`, or their
/// number where there is none.
pub open spec fn batch_for(batches: Seq<BatchView>, block: Seq<u8>, from: int) -> int
    decreases batches.len() - from,
{
    if from < 0 || from >= batches.len() {
        batches.len() as int
    } else if batches[from].index_block_hash == block {
        from
    } else {
        batch_for(batches, block, from + 1)
    }
}

/// The per-block batches once `a` is missing: `a` joins the batch of its
/// block, unless that batch is of another height; where its block has no
/// batch yet, it begins one.
pub open spec fn with_missing(batches: Seq<BatchView>, a: AttachmentInstance) -> Seq<BatchView> {
    let i = batch_for(batches, a.index_block_hash@, 0);
    if i < batches.len() {
        if batches[i].block_height == a.block_height {
            batches.update(i, batch_with(batches[i], a))
        } else {
            batches
        }
    } else {
        batches.push(batch_of_one(a))
    }
}

/// The per-block batches of those among the first `n` instances whose
/// content is missing.
pub open spec fn pending_batches(new: Seq<(AttachmentInstance, StorageLookup)>, n: int) -> Seq<
    BatchView,
>
    decreases n,
{
    if n <= 0 {
        Seq::empty()
    } else {
        let before = pending_batches(new, n - 1);
        if content_at_hand(new[n - 1].0, new[n - 1].1) is None {
            with_missing(before, new[n - 1].0)
        } else {
            before
        }
    }
}

/// `a` is the instance that the attachment `index` of `contract` in the
/// batch `b` came from: it names them, and it is of the batch's block.
pub open spec fn instance_of(
    a: AttachmentInstance,
    b: BatchView,
    contract: ContractIdView,
    index: u32,
) -> bool {
    &&& a.contract_id@ == contract
    &&& a.attachment_index == index
    &&& a.block_height == b.block_height
    &&& a.index_block_hash@ == b.index_block_hash
}

proof fn lemma_batch_for(batches: Seq<BatchView>, block: Seq<u8>, from: int)
    requires
        0 <= from <= batches.len(),
    ensures
        from <= batch_for(batches, block, from) <= batches.len(),
        batch_for(batches, block, from) < batches.len() ==> batches[batch_for(
            batches,
            block,
            from,
        )].index_block_hash == block,
    decreases batches.len() - from,
{
    if from < batches.len() && batches[from].index_block_hash != block {
        lemma_batch_for(batches, block, from + 1);
    }
}

/// All the attachments a batch misses are of the batch's own block:
/// each came from an admitted instance of that block and height.
pub proof fn lemma_batches_hold_one_block(new: Seq<(AttachmentInstance, StorageLookup)>, n: int)
    requires
        0 <= n <= new.len(),
    ensures
        forall|i: int, c: ContractIdView, index: u32|
            0 <= i < pending_batches(new, n).len() && pending_batches(new, n)[i].missing.contains_key(
                c,
            ) && #[trigger] pending_batches(new, n)[i].missing[c].contains_key(index)
                ==> exists|j: int|
                0 <= j < n && #[trigger] instance_of(new[j].0, pending_batches(new, n)[i], c, index),
    decreases n,
{
    if n > 0 {
        lemma_batches_hold_one_block(new, n - 1);
        let before = pending_batches(new, n - 1);
        let after = pending_batches(new, n);
        let a = new[n - 1].0;
        lemma_batch_for(before, a.index_block_hash@, 0);
        let at = batch_for(before, a.index_block_hash@, 0);
        assert forall|i: int, c: ContractIdView, index: u32|
            0 <= i < after.len() && after[i].missing.contains_key(c)
                && #[trigger] after[i].missing[c].contains_key(index) implies exists|j: int|
            0 <= j < n && #[trigger] instance_of(new[j].0, after[i], c, index) by {
            let came_with_a = content_at_hand(a, new[n - 1].1) is None && (if at < before.len() {
                i == at && before[at].block_height == a.block_height
            } else {
                i == before.len()
            }) && c == a.contract_id@ && index == a.attachment_index;
            if came_with_a {
                assert(instance_of(new[n - 1].0, after[i], c, index));
            } else {
                assert(i < before.len());
                assert(before[i].missing.contains_key(c) && before[i].missing[c].contains_key(index));
                let j = choose|j: int|
                    0 <= j < n - 1 && #[trigger] instance_of(new[j].0, before[i], c, index);
                assert(instance_of(new[j].0, after[i], c, index));
            }
        }
    }
}

/// The report known of the peer `url`, the empty one where none is.
pub open spec fn report_or_empty(
    reports: Map<Seq<char>, ReliabilityReport>,
    url: Seq<char>,
) -> ReliabilityReport {
    if reports.contains_key(url) {
        reports[url]
    } else {
        ReliabilityReport { total_requests_sent: 0, total_requests_success: 0 }
    }
}

/// The first `n` of the peers to ask, each with the report known of it.
pub open spec fn snapshot(
    urls: Seq<String>,
    reports: Map<Seq<char>, ReliabilityReport>,
    n: int,
) -> Seq<(String, ReliabilityReport)>
    decreases n,
{
    if n <= 0 {
        Seq::empty()
    } else {
        inserted(snapshot(urls, reports, n - 1), urls[n - 1], report_or_empty(reports, urls[n - 1]@))
    }
}

/// Whether the reports of `peers` can each count `planned` more requests.
pub open spec fn can_count(peers: Seq<(String, ReliabilityReport)>, planned: nat) -> bool {
    forall|i: int| 0 <= i < peers.len() ==> (#[trigger] peers[i]).1.total_requests_sent + planned < u32::MAX
}

/// How a tick ended.
#[derive(Debug)]
pub enum RunOutcome {
    /// There is nothing to do: no batch is due, or no peer to ask.
    Idle,
    /// The next batch may take more requests than a peer's report can
    /// still count: it was left in the queue.
    Saturated,
    /// A batch is under way.
    Pending,
    /// A batch went through the pipeline; its context is to be completed.
    Finished(AttachmentsBatchStateContext),
}

/// What completing a batch comes to.
#[derive(Debug)]
pub struct Completion {
    /// The instances resolved, each with its content.
    pub resolved: Vec<(AttachmentInstance, Attachment)>,
    /// What is to be written to the store, in this order.
    pub writes: Vec<StorageWrite>,
    /// The events to deregister.
    pub events_to_deregister: Vec<usize>,
}

/// The pairs the first `n` downloads resolve: each download with every
/// instance the store knows for its hash.
pub open spec fn completed_pairs(
    attachments: Seq<Attachment>,
    found: Seq<Vec<AttachmentInstance>>,
    n: int,
) -> Seq<(AttachmentInstance, Seq<u8>)>
    decreases n,
{
    if n <= 0 {
        Seq::empty()
    } else {
        let instances = if n - 1 < found.len() {
            found[n - 1]@
        } else {
            Seq::empty()
        };
        completed_pairs(attachments, found, n - 1) + Seq::new(
            instances.len(),
            |k: int| (instances[k], attachments[n - 1]@),
        )
    }
}

/// What is still missing once the first `n` downloads are struck.
pub open spec fn missing_after(
    missing: Map<ContractIdView, Map<u32, Hash160>>,
    attachments: Seq<Attachment>,
    n: int,
) -> Map<ContractIdView, Map<u32, Hash160>>
    decreases n,
{
    if n <= 0 {
        missing
    } else {
        resolved(missing_after(missing, attachments, n - 1), hash160(attachments[n - 1]@))
    }
}

/// How completing the batch of `ctx` takes the downloader from `before` to
/// `after`. Each download is written to the store and resolves the
/// instances found for its hash, and is struck from the batch. The
/// reports of the batch's peers replace those known before. A batch that
/// still misses something is tried again later, unless it has been tried
/// as often as allowed.
pub open spec fn completion_step(
    before: AttachmentsDownloader,
    ctx: AttachmentsBatchStateContext,
    found: Seq<Vec<AttachmentInstance>>,
    now: u64,
    random: u64,
    after: AttachmentsDownloader,
    r: Completion,
) -> bool {
    let n = ctx.attachments@.len() as int;
    let missing = missing_after(ctx.attachments_batch.missing(), ctx.attachments@, n);
    let queue = before.priority_queue.items@;
    &&& resolved_views(r.resolved@) == completed_pairs(ctx.attachments@, found, n)
    &&& write_views(r.writes@) == Seq::new(
        n as nat,
        |i: int| WriteView::InstantiatedAttachment(ctx.attachments@[i]@),
    )
    &&& r.events_to_deregister == ctx.events_to_deregister
    &&& after.reliability_reports@ == before.reliability_reports@.union_prefer_right(ctx.peers@)
    &&& after.initial_batch == before.initial_batch
    &&& after.ongoing_batch == before.ongoing_batch
    &&& after.processed_batches == before.processed_batches
    &&& if nothing_missing(missing) || ctx.attachments_batch.retry_count + 1
        >= ctx.connection_options.max_attachment_retry_count {
        after.priority_queue.items@ == queue
    } else {
        exists|b: AttachmentsBatch|
            {
                &&& b.wf()
                &&& b@ == (BatchView {
                    block_height: ctx.attachments_batch.block_height,
                    index_block_hash: ctx.attachments_batch.index_block_hash@,
                    missing,
                    retry_count: (ctx.attachments_batch.retry_count + 1) as u64,
                    retry_deadline: (now + retry_delay(
                        (ctx.attachments_batch.retry_count + 1) as nat,
                        random as nat,
                    )) as u64,
                })
                &&& after.priority_queue.items@ == #[trigger] pushed(queue, b)
            }
    }
}

/// How the tables of the downloader stand after a step of the pipeline
/// ended in `next`.
pub open spec fn advanced(
    next: AttachmentsBatchStateMachine,
    after: AttachmentsDownloader,
    outcome: RunOutcome,
) -> bool {
    match next {
        AttachmentsBatchStateMachine::Done(c) => outcome == RunOutcome::Finished(c)
            && after.ongoing_batch is None,
        _ => outcome is Pending && after.ongoing_batch == Some(next),
    }
}

/// How one tick takes the downloader from `before` to `after`. A batch
/// under way takes one step. Else, if a batch is due and there are peers,
/// the batch at the head of the queue is begun with a snapshot of the
/// peers' reports and takes its first step.
pub open spec fn run_step(
    before: AttachmentsDownloader,
    now: u64,
    peer_urls: Seq<String>,
    options: ConnectionOptions,
    event: BatchEvent,
    after: AttachmentsDownloader,
    outcome: RunOutcome,
) -> bool {
    &&& after.initial_batch == before.initial_batch
    &&& after.processed_batches == before.processed_batches
    &&& after.reliability_reports == before.reliability_reports
    &&& match before.ongoing_batch {
        Some(fsm) => {
            &&& after.priority_queue == before.priority_queue
            &&& exists|next: AttachmentsBatchStateMachine|
                #![trigger batch_step(fsm, event, next)]
                batch_step(fsm, event, next) && advanced(next, after, outcome)
        },
        None => {
            let peers = snapshot(peer_urls, before.reliability_reports@, peer_urls.len() as int);
            let queue = before.priority_queue.items@;
            if !any_ready(queue, now) || peers.len() == 0 {
                outcome is Idle && after == before
            } else if !can_count(
                peers,
                plan_len(
                    queue[0].attachments_instances.entries@,
                    peers.len(),
                    queue[0].attachments_instances.entries@.len() as int,
                ) + queue[0].count_spec(),
            ) {
                outcome is Saturated && after == before
            } else {
                &&& after.priority_queue.items@ == queue.subrange(1, queue.len() as int)
                &&& exists|ctx: AttachmentsBatchStateContext, next: AttachmentsBatchStateMachine|
                    #![trigger batch_step(AttachmentsBatchStateMachine::Initialized(ctx), event, next)]
                    {
                        &&& ctx.attachments_batch == queue[0]
                        &&& ctx.peers.entries@ == peers
                        &&& ctx.connection_options == options
                        &&& ctx.dns_lookups.entries@.len() == 0
                        &&& ctx.inventories.entries@.len() == 0
                        &&& ctx.attachments@.len() == 0
                        &&& ctx.events_to_deregister@.len() == 0
                        &&& batch_step(AttachmentsBatchStateMachine::Initialized(ctx), event, next)
                        &&& advanced(next, after, outcome)
                    }
            }
        },
    }
}

/// The downloader: the batches that wait, in the order they are served,
/// the batch under way, and the reports of the peers.
#[derive(Debug)]
pub struct AttachmentsDownloader {
    pub priority_queue: PriorityQueue<AttachmentsBatch>,
    pub initial_batch: Vec<AttachmentInstance>,
    pub ongoing_batch: Option<AttachmentsBatchStateMachine>,
    pub processed_batches: Vec<AttachmentsBatch>,
    pub reliability_reports: VecMap<String, ReliabilityReport>,
}

/// Whether one of `batches` is due at `now`.
pub open spec fn any_ready(batches: Seq<AttachmentsBatch>, now: u64) -> bool {
    exists|i: int| 0 <= i < batches.len() && #[trigger] batches[i].retry_deadline < now
}

impl AttachmentsDownloader {
    /// The queue is in serving order, the tables list nothing twice, and
    /// the batch under way, if there is one, is not through yet.
    pub open spec fn wf(&self) -> bool {
        &&& self.priority_queue.wf()
        &&& forall|i: int|
            0 <= i < self.priority_queue.items@.len() ==> (#[trigger] self.priority_queue.items@[i]).wf()
        &&& self.reliability_reports.wf()
        &&& forall|i: int|
            0 <= i < self.reliability_reports.entries@.len() ==> (
            #[trigger] self.reliability_reports.entries@[i]).1.wf()
        &&& match self.ongoing_batch {
            Some(fsm) => fsm.wf() && !(fsm is Done) && fsm.context().attachments_batch.count_spec()
                <= usize::MAX,
            None => true,
        }
    }

    /// A downloader that has the instances of `initial_batch` still to
    /// admit.
    pub fn new(initial_batch: Vec<AttachmentInstance>) -> (r: AttachmentsDownloader)
        ensures
            r.wf(),
            r.initial_batch == initial_batch,
            r.priority_queue.items@.len() == 0,
            r.ongoing_batch is None,
            r.processed_batches@.len() == 0,
            r.reliability_reports.entries@.len() == 0,
    {
        AttachmentsDownloader {
            priority_queue: PriorityQueue::new(),
            ongoing_batch: None,
            processed_batches: Vec::new(),
            reliability_reports: VecMap::new(),
            initial_batch,
        }
    }

    /// Admits freshly found instances. An instance whose content is at
    /// hand, because its hash is the empty one or because the store has the
    /// content, is resolved at once; the others are gathered into one batch
    /// per block, and each batch is queued. The result also lists what is
    /// to be written to the store.
    pub fn enqueue_new_attachments(
        &mut self,
        new_attachments: Vec<(AttachmentInstance, StorageLookup)>,
        initial_batch: bool,
    ) -> (r: Admission)
        requires
            old(self).wf(),
        ensures
            final(self).wf(),
            resolved_views(r.resolved@) == all_resolved(
                new_attachments@,
                new_attachments@.len() as int,
            ),
            write_views(r.writes@) == all_writes(
                new_attachments@,
                initial_batch,
                new_attachments@.len() as int,
            ),
            exists|batches: Seq<AttachmentsBatch>|
                batch_views(batches) == pending_batches(
                    new_attachments@,
                    new_attachments@.len() as int,
                ) && final(self).priority_queue.items@ == #[trigger] pushed_onto(
                    old(self).priority_queue.items@,
                    batches,
                ),
            final(self).initial_batch == old(self).initial_batch,
            final(self).ongoing_batch == old(self).ongoing_batch,
            final(self).processed_batches == old(self).processed_batches,
            final(self).reliability_reports == old(self).reliability_reports,
    {
        let mut resolved: Vec<(AttachmentInstance, Attachment)> = Vec::new();
        let mut writes: Vec<StorageWrite> = Vec::new();
        let mut batches: Vec<AttachmentsBatch> = Vec::new();
        let ghost new = new_attachments@;
        let n: usize = new_attachments.len();
        assert(resolved_views(resolved@) =~= all_resolved(new, 0));
        assert(write_views(writes@) =~= all_writes(new, initial_batch, 0));
        assert(batch_views(batches@) =~= pending_batches(new, 0));
        let mut j: usize = 0;
        while j < n
            invariant
                j <= n,
                n == new.len(),
                new == new_attachments@,
                resolved_views(resolved@) == all_resolved(new, j as int),
                write_views(writes@) == all_writes(new, initial_batch, j as int),
                batch_views(batches@) == pending_batches(new, j as int),
                forall|i: int|
                    0 <= i < batches@.len() ==> {
                        &&& (#[trigger] batches@[i]).wf()
                        &&& batches@[i].attachments_instances.entries@.len() > 0
                        &&& batches@[i].count_spec() <= j
                    },
            decreases n - j,
        {
            let instance: &AttachmentInstance = &new_attachments[j].0;
            let lookup: &StorageLookup = &new_attachments[j].1;
            let ghost resolved0 = resolved@;
            let ghost writes0 = writes@;
            let ghost batches0 = batches@;
            let mut pending: bool = false;
            if instance.content_hash.is_empty() {
                writes.push(StorageWrite::Instance(instance.clone(), true));
                resolved.push((instance.clone(), Attachment::empty()));
            } else {
                match lookup {
                    StorageLookup::Validated(entry) => {
                        writes.push(StorageWrite::Instance(instance.clone(), true));
                        resolved.push((instance.clone(), entry.clone()));
                    },
                    StorageLookup::Inboxed(attachment) => {
                        writes.push(StorageWrite::InstantiatedAttachment(attachment.clone()));
                        writes.push(StorageWrite::Instance(instance.clone(), true));
                        resolved.push((instance.clone(), attachment.clone()));
                    },
                    StorageLookup::Unknown => {
                        pending = true;
                    },
                }
            }
            if pending {
                let mut at: usize = 0;
                while at < batches.len() && !batches[at].index_block_hash.key_eq(
                    &instance.index_block_hash,
                )
                    invariant
                        at <= batches@.len(),
                        batches@ == batches0,
                        batch_views(batches0) == pending_batches(new, j as int),
                        batch_for(batch_views(batches0), instance.index_block_hash@, 0) == batch_for(
                            batch_views(batches0),
                            instance.index_block_hash@,
                            at as int,
                        ),
                    decreases batches@.len() - at,
                {
                    assert(batch_views(batches0)[at as int].index_block_hash
                        != instance.index_block_hash@);
                    at += 1;
                }
                if at < batches.len() {
                    assert(batch_views(batches0)[at as int].index_block_hash
                        == instance.index_block_hash@);
                    assert(batches0[at as int].wf());
                    batches[at].track_attachment(instance);
                    assert(batch_views(batches@) =~= with_missing(batch_views(batches0), *instance));
                    assert forall|i: int| 0 <= i < batches@.len() implies {
                        &&& (#[trigger] batches@[i]).wf()
                        &&& batches@[i].attachments_instances.entries@.len() > 0
                        &&& batches@[i].count_spec() <= j + 1
                    } by {
                        if i != at {
                            assert(batches@[i] == batches0[i]);
                        }
                    }
                } else {
                    let mut batch = AttachmentsBatch::new();
                    batch.track_attachment(instance);
                    assert(batch@.missing =~= batch_of_one(*instance).missing);
                    batches.push(batch);
                    assert(batch_views(batches@) =~= with_missing(batch_views(batches0), *instance));
                    assert forall|i: int| 0 <= i < batches@.len() implies {
                        &&& (#[trigger] batches@[i]).wf()
                        &&& batches@[i].attachments_instances.entries@.len() > 0
                        &&& batches@[i].count_spec() <= j + 1
                    } by {
                        if i < batches0.len() {
                            assert(batches@[i] == batches0[i]);
                        }
                    }
                }
                if !initial_batch {
                    writes.push(StorageWrite::Instance(instance.clone(), false));
                }
            }
            proof {
                let w = writes_for(new[j as int].0, new[j as int].1, initial_batch);
                assert(write_views(writes@) =~= write_views(writes0) + w);
                match content_at_hand(new[j as int].0, new[j as int].1) {
                    Some(content) => {
                        assert(resolved_views(resolved@) =~= resolved_views(resolved0).push(
                            (new[j as int].0, content),
                        ));
                    },
                    None => {
                        assert(resolved_views(resolved@) =~= resolved_views(resolved0));
                    },
                }
            }
            j += 1;
        }
        let ghost all = batches@;
        let ghost queue0 = self.priority_queue.items@;
        assert(all.subrange(0, 0) =~= Seq::<AttachmentsBatch>::empty());
        while batches.len() > 0
            invariant
                batches@.len() <= all.len(),
                batches@ == all.subrange(all.len() - batches@.len(), all.len() as int),
                queue0 == old(self).priority_queue.items@,
                self.wf(),
                self.priority_queue.items@ == pushed_onto(
                    queue0,
                    all.subrange(0, all.len() - batches@.len()),
                ),
                forall|i: int|
                    0 <= i < all.len() ==> (#[trigger] all[i]).wf() && all[i].count_spec()
                        <= usize::MAX,
                self.initial_batch == old(self).initial_batch,
                self.ongoing_batch == old(self).ongoing_batch,
                self.processed_batches == old(self).processed_batches,
                self.reliability_reports == old(self).reliability_reports,
            decreases batches@.len(),
        {
            let ghost k = all.len() - batches@.len();
            let ghost items0 = self.priority_queue.items@;
            let batch = batches.remove(0);
            assert(batch == all[k]);
            assert(batches@ =~= all.subrange(k + 1, all.len() as int));
            self.priority_queue.push(batch);
            proof {
                assert(all.subrange(0, k + 1).drop_last() =~= all.subrange(0, k));
                assert(all.subrange(0, k + 1).last() == batch);
                assert forall|i: int| 0 <= i < self.priority_queue.items@.len() implies (
                #[trigger] self.priority_queue.items@[i]).wf() by {
                    let y = self.priority_queue.items@[i];
                    if y != batch {
                        assert(items0.contains(y));
                        let a = choose|a: int| 0 <= a < items0.len() && items0[a] == y;
                        assert(items0[a].wf());
                    }
                }
            }
        }
        assert(all.subrange(0, all.len() as int) =~= all);
        Admission { resolved, writes }
    }

    /// The instances the downloader was made with, which are still to be
    /// admitted; they are handed out once.
    pub fn take_initial_batch(&mut self) -> (r: Vec<AttachmentInstance>)
        ensures
            r == old(self).initial_batch,
            final(self).initial_batch@.len() == 0,
            final(self).priority_queue == old(self).priority_queue,
            final(self).ongoing_batch == old(self).ongoing_batch,
            final(self).processed_batches == old(self).processed_batches,
            final(self).reliability_reports == old(self).reliability_reports,
    {
        let mut taken: Vec<AttachmentInstance> = Vec::new();
        std::mem::swap(&mut self.initial_batch, &mut taken);
        taken
    }

    /// The peers to ask, each with the report known of it.
    fn peers_snapshot(&self, peer_urls: &Vec<String>) -> (peers: VecMap<String, ReliabilityReport>)
        requires
            self.wf(),
        ensures
            peers.wf(),
            peers.entries@ == snapshot(
                peer_urls@,
                self.reliability_reports@,
                peer_urls@.len() as int,
            ),
            forall|i: int| 0 <= i < peers.entries@.len() ==> (#[trigger] peers.entries@[i]).1.wf(),
    {
        let mut peers: VecMap<String, ReliabilityReport> = VecMap::new();
        let mut i: usize = 0;
        while i < peer_urls.len()
            invariant
                i <= peer_urls@.len(),
                self.wf(),
                peers.wf(),
                peers.entries@ == snapshot(peer_urls@, self.reliability_reports@, i as int),
                forall|a: int| 0 <= a < peers.entries@.len() ==> (#[trigger] peers.entries@[a]).1.wf(),
            decreases peer_urls@.len() - i,
        {
            let peer_url: &String = &peer_urls[i];
            let report: ReliabilityReport = match self.reliability_reports.find(peer_url) {
                Some(at) => {
                    proof {
                        lemma_key_index(self.reliability_reports.entries@, at as int);
                    }
                    self.reliability_reports.entries[at].1
                },
                None => ReliabilityReport::empty(),
            };
            let ghost before = peers.entries@;
            peers.insert(peer_url.clone(), report);
            assert forall|a: int| 0 <= a < peers.entries@.len() implies (
            #[trigger] peers.entries@[a]).1.wf() by {
                if peers.entries@[a] != (*peer_url, report) {
                    assert(peers.entries@[a] == before[a]);
                }
            }
            i += 1;
        }
        peers
    }

    /// One tick: the batch under way takes a step, or the batch that is
    /// due next is begun. Nothing is sent from here: `next_action` says
    /// what the caller is to do before the next tick, and `event` is what
    /// came of it.
    pub fn run(
        &mut self,
        now: u64,
        peer_urls: &Vec<String>,
        connection_options: &ConnectionOptions,
        event: BatchEvent,
    ) -> (outcome: RunOutcome)
        requires
            old(self).wf(),
        ensures
            final(self).wf(),
            run_step(*old(self), now, peer_urls@, *connection_options, event, *final(self), outcome),
            outcome matches RunOutcome::Finished(c) ==> c.wf() && c.attachments_batch.count_spec()
                <= usize::MAX,
    {
        let ongoing_fsm = match self.ongoing_batch.take() {
            Some(batch) => batch,
            None => {
                if self.priority_queue.is_empty() || !self.has_ready_batches(now) {
                    return RunOutcome::Idle;
                }
                let peers = self.peers_snapshot(peer_urls);
                if peers.is_empty() {
                    return RunOutcome::Idle;
                }
                let ghost queue = self.priority_queue.items@;
                assert(queue[0].wf());
                assert(queue[0].comparable());
                let planned = planned_requests(&self.priority_queue.items[0], peers.len());
                let enough: bool = match planned {
                    Some(p) => Self::reports_can_count(&peers, p),
                    None => false,
                };
                if !enough {
                    proof {
                        if planned is None {
                            let p = plan_len(
                                queue[0].attachments_instances.entries@,
                                peers.entries@.len(),
                                queue[0].attachments_instances.entries@.len() as int,
                            ) + queue[0].count_spec();
                            assert(peers.entries@[0].1.total_requests_sent + p >= u32::MAX);
                        }
                    }
                    return RunOutcome::Saturated;
                }
                let attachments_batch = match self.pop_next_ready_batch(now) {
                    Some(ready_batch) => ready_batch,
                    None => {
                        return RunOutcome::Idle;
                    },
                };
                let ctx = AttachmentsBatchStateContext::new(
                    attachments_batch,
                    peers,
                    connection_options,
                );
                proof {
                    lemma_plan_len(
                        ctx.attachments_batch.block_height,
                        ctx.attachments_batch.index_block_hash@,
                        ctx.attachments_batch.attachments_instances.entries@,
                        ctx.peers.entries@,
                        ctx.attachments_batch.attachments_instances.entries@.len() as int,
                    );
                }
                AttachmentsBatchStateMachine::new(ctx)
            },
        };
        let progress = AttachmentsBatchStateMachine::try_proceed(ongoing_fsm, event);
        assert(batch_step(ongoing_fsm, event, progress));
        match progress {
            AttachmentsBatchStateMachine::Done(context) => RunOutcome::Finished(context),
            next_state => {
                self.ongoing_batch = Some(next_state);
                RunOutcome::Pending
            },
        }
    }

    /// What the caller is to do before the next tick.
    pub fn next_action(&self) -> (a: BatchAction)
        ensures
            match self.ongoing_batch {
                Some(fsm) => batch_action_for(fsm, a),
                None => a is Nothing,
            },
    {
        match &self.ongoing_batch {
            Some(fsm) => fsm.next_action(),
            None => BatchAction::Nothing,
        }
    }

    /// The hashes of the content a batch has downloaded, in order: what
    /// the store is to be asked for instances of before `complete`.
    pub fn downloaded_hashes(context: &AttachmentsBatchStateContext) -> (hashes: Vec<Hash160>)
        ensures
            hashes@.len() == context.attachments@.len(),
            forall|i: int|
                0 <= i < hashes@.len() ==> (#[trigger] hashes@[i])@ == hash160(context.attachments@[i]@),
    {
        let mut hashes: Vec<Hash160> = Vec::new();
        let mut i: usize = 0;
        while i < context.attachments.len()
            invariant
                i <= context.attachments@.len(),
                hashes@.len() == i,
                forall|j: int|
                    0 <= j < i ==> (#[trigger] hashes@[j])@ == hash160(context.attachments@[j]@),
            decreases context.attachments@.len() - i,
        {
            hashes.push(context.attachments[i].hash());
            i += 1;
        }
        hashes
    }

    /// Takes over the reports of a batch's peers.
    fn merge_reports(&mut self, peers: &VecMap<String, ReliabilityReport>)
        requires
            old(self).wf(),
            peers.wf(),
            forall|i: int| 0 <= i < peers.entries@.len() ==> (#[trigger] peers.entries@[i]).1.wf(),
        ensures
            final(self).wf(),
            final(self).reliability_reports@ == old(self).reliability_reports@.union_prefer_right(
                peers@,
            ),
            final(self).priority_queue == old(self).priority_queue,
            final(self).initial_batch == old(self).initial_batch,
            final(self).ongoing_batch == old(self).ongoing_batch,
            final(self).processed_batches == old(self).processed_batches,
    {
        let ghost mine0 = self.reliability_reports@;
        let ghost theirs = peers.entries@;
        let mut j: usize = 0;
        while j < peers.entries.len()
            invariant
                j <= theirs.len(),
                theirs == peers.entries@,
                peers.wf(),
                forall|i: int| 0 <= i < theirs.len() ==> (#[trigger] theirs[i]).1.wf(),
                mine0 == old(self).reliability_reports@,
                self.wf(),
                self.priority_queue == old(self).priority_queue,
                self.initial_batch == old(self).initial_batch,
                self.ongoing_batch == old(self).ongoing_batch,
                self.processed_batches == old(self).processed_batches,
                forall|k: Seq<char>|
                    self.reliability_reports@.contains_key(k) <==> (mine0.contains_key(k)
                        || exists|a: int| 0 <= a < j && #[trigger] theirs[a].0@ == k),
                forall|a: int|
                    0 <= a < j ==> self.reliability_reports@[(#[trigger] theirs[a]).0@] == theirs[a].1,
                forall|k: Seq<char>|
                    mine0.contains_key(k) && !(exists|a: int| 0 <= a < j && #[trigger] theirs[a].0@ == k)
                        ==> #[trigger] self.reliability_reports@[k] == mine0[k],
            decreases theirs.len() - j,
        {
            let peer_url: String = peers.entries[j].0.clone();
            let report: ReliabilityReport = peers.entries[j].1;
            let ghost before = self.reliability_reports.entries@;
            self.reliability_reports.insert(peer_url, report);
            assert forall|a: int| 0 <= a < self.reliability_reports.entries@.len() implies (
            #[trigger] self.reliability_reports.entries@[a]).1.wf() by {
                if self.reliability_reports.entries@[a] != (peer_url, report) {
                    assert(self.reliability_reports.entries@[a] == before[a]);
                }
            }
            assert forall|a: int| 0 <= a < j + 1 implies self.reliability_reports@[(
            #[trigger] theirs[a]).0@] == theirs[a].1 by {
                if a < j {
                    assert(theirs[a].0@ != theirs[j as int].0@);
                }
            }
            assert forall|k: Seq<char>|
                mine0.contains_key(k) && !(exists|a: int| 0 <= a < j + 1 && #[trigger] theirs[a].0@ == k)
                    implies #[trigger] self.reliability_reports@[k] == mine0[k] by {
                assert(theirs[j as int].0@ != k);
                assert(!(exists|a: int| 0 <= a < j && #[trigger] theirs[a].0@ == k));
            }
            j += 1;
        }
        proof {
            let merged = self.reliability_reports@;
            assert forall|k: Seq<char>| merged.contains_key(k) <==> (mine0.contains_key(k)
                || peers@.contains_key(k)) by {
                if peers@.contains_key(k) {
                    let a = key_index(theirs, k);
                    assert(theirs[a].0@ == k);
                }
            }
            assert forall|k: Seq<char>| merged.contains_key(k) implies merged[k]
                == mine0.union_prefer_right(peers@)[k] by {
                if peers@.contains_key(k) {
                    let a = key_index(theirs, k);
                    lemma_key_index(theirs, a);
                    assert(merged[theirs[a].0@] == theirs[a].1);
                } else {
                    assert(!(exists|a: int| 0 <= a < theirs.len() && #[trigger] theirs[a].0@ == k));
                }
            }
            assert(merged =~= mine0.union_prefer_right(peers@));
        }
    }

    /// Completes a batch that went through the pipeline; see
    /// `completion_step`. `found` holds, for each download in order, the
    /// instances the store knows for its hash; `random` is the jitter of
    /// the retry delay.
    pub fn complete_with(
        &mut self,
        context: AttachmentsBatchStateContext,
        found: &Vec<Vec<AttachmentInstance>>,
        now: u64,
        random: u64,
    ) -> (r: Completion)
        requires
            old(self).wf(),
            context.wf(),
            context.attachments_batch.count_spec() <= usize::MAX,
            context.attachments_batch.retry_count < u64::MAX,
            now + MAX_RETRY_DELAY <= u64::MAX,
        ensures
            final(self).wf(),
            completion_step(*old(self), context, found@, now, random, *final(self), r),
    {
        let AttachmentsBatchStateContext {
            attachments_batch,
            peers,
            connection_options,
            dns_lookups,
            inventories,
            attachments,
            events_to_deregister,
        } = context;
        let mut batch = attachments_batch;
        let mut resolved_attachments: Vec<(AttachmentInstance, Attachment)> = Vec::new();
        let mut writes: Vec<StorageWrite> = Vec::new();
        let ghost missing0 = batch.missing();
        let n: usize = attachments.len();
        assert(resolved_views(resolved_attachments@) =~= completed_pairs(attachments@, found@, 0));
        let mut i: usize = 0;
        while i < n
            invariant
                i <= n,
                n == attachments@.len(),
                batch.wf(),
                batch.count_spec() <= usize::MAX,
                batch.block_height == attachments_batch.block_height,
                batch.index_block_hash == attachments_batch.index_block_hash,
                batch.retry_count == attachments_batch.retry_count,
                batch.retry_deadline == attachments_batch.retry_deadline,
                batch.missing() == missing_after(missing0, attachments@, i as int),
                resolved_views(resolved_attachments@) == completed_pairs(
                    attachments@,
                    found@,
                    i as int,
                ),
                writes@.len() == i,
                forall|a: int|
                    0 <= a < i ==> (#[trigger] writes@[a])@ == WriteView::InstantiatedAttachment(
                        attachments@[a]@,
                    ),
            decreases n - i,
        {
            let attachment: &Attachment = &attachments[i];
            let hash: Hash160 = attachment.hash();
            writes.push(StorageWrite::InstantiatedAttachment(attachment.clone()));
            let ghost pairs0 = resolved_views(resolved_attachments@);
            let ghost instances = if i < found@.len() {
                found@[i as int]@
            } else {
                Seq::empty()
            };
            if i < found.len() {
                let attachments_instances: &Vec<AttachmentInstance> = &found[i];
                assert(resolved_views(resolved_attachments@) =~= pairs0 + Seq::new(
                    0 as nat,
                    |a: int| (instances[a], attachment@),
                ));
                let mut k: usize = 0;
                while k < attachments_instances.len()
                    invariant
                        k <= attachments_instances@.len(),
                        instances == attachments_instances@,
                        resolved_views(resolved_attachments@) == pairs0 + Seq::new(
                            k as nat,
                            |a: int| (instances[a], attachment@),
                        ),
                    decreases attachments_instances@.len() - k,
                {
                    let ghost prev = resolved_attachments@;
                    resolved_attachments.push((attachments_instances[k].clone(), attachment.clone()));
                    assert(resolved_views(resolved_attachments@) =~= resolved_views(prev).push(
                        (instances[k as int], attachment@),
                    ));
                    k += 1;
                    assert(resolved_views(resolved_attachments@) =~= pairs0 + Seq::new(
                        k as nat,
                        |a: int| (instances[a], attachment@),
                    ));
                }
            } else {
                assert(resolved_views(resolved_attachments@) =~= pairs0 + Seq::new(
                    0 as nat,
                    |a: int| (instances[a], attachment@),
                ));
            }
            batch.resolve_attachment(&hash);
            i += 1;
        }
        assert(write_views(writes@) =~= Seq::new(
            n as nat,
            |i: int| WriteView::InstantiatedAttachment(attachments@[i]@),
        ));
        self.merge_reports(&peers);
        if !batch.has_fully_succeed() {
            batch.bump_retry_count_with(now, random);
            if batch.retry_count < connection_options.max_attachment_retry_count {
                let ghost items0 = self.priority_queue.items@;
                proof {
                    assert(batch.missing() == missing_after(missing0, attachments@, n as int));
                }
                self.priority_queue.push(batch);
                proof {
                    assert forall|a: int| 0 <= a < self.priority_queue.items@.len() implies (
                    #[trigger] self.priority_queue.items@[a]).wf() by {
                        let y = self.priority_queue.items@[a];
                        if y != batch {
                            assert(items0.contains(y));
                            let b = choose|b: int| 0 <= b < items0.len() && items0[b] == y;
                            assert(items0[b].wf());
                        }
                    }
                }
            }
        }
        Completion { resolved: resolved_attachments, writes, events_to_deregister }
    }

    /// Completes a batch that went through the pipeline, drawing the
    /// jitter of the retry delay; see `complete_with`.
    pub fn complete(
        &mut self,
        context: AttachmentsBatchStateContext,
        found: &Vec<Vec<AttachmentInstance>>,
        now: u64,
    ) -> (r: Completion)
        requires
            old(self).wf(),
            context.wf(),
            context.attachments_batch.count_spec() <= usize::MAX,
            context.attachments_batch.retry_count < u64::MAX,
            now + MAX_RETRY_DELAY <= u64::MAX,
        ensures
            final(self).wf(),
            exists|random: u64|
                completion_step(*old(self), context, found@, now, random, *final(self), r),
    {
        let random: u64 = random_u64();
        self.complete_with(context, found, now, random)
    }

    fn reports_can_count(peers: &VecMap<String, ReliabilityReport>, planned: u32) -> (r: bool)
        ensures
            r == can_count(peers.entries@, planned as nat),
    {
        let mut i: usize = 0;
        while i < peers.entries.len()
            invariant
                i <= peers.entries@.len(),
                forall|a: int|
                    0 <= a < i ==> (#[trigger] peers.entries@[a]).1.total_requests_sent + planned
                        < u32::MAX,
            decreases peers.entries@.len() - i,
        {
            if peers.entries[i].1.total_requests_sent as u64 + planned as u64 >= u32::MAX as u64 {
                return false;
            }
            i += 1;
        }
        true
    }

    /// Whether a batch in the queue is due: its retry deadline has passed.
    pub fn has_ready_batches(&self, now: u64) -> (r: bool)
        ensures
            r == any_ready(self.priority_queue.items@, now),
    {
        let mut i: usize = 0;
        while i < self.priority_queue.items.len()
            invariant
                i <= self.priority_queue.items@.len(),
                forall|j: int|
                    0 <= j < i ==> (#[trigger] self.priority_queue.items@[j]).retry_deadline >= now,
            decreases self.priority_queue.items@.len() - i,
        {
            if self.priority_queue.items[i].retry_deadline < now {
                return true;
            }
            i += 1;
        }
        false
    }

    /// Takes the next batch out of the queue if it is due. The batches are
    /// served by deadline first, so a batch is due exactly when the head
    /// of the queue is, and no batch left behind is due earlier than the
    /// one returned.
    pub fn pop_next_ready_batch(&mut self, now: u64) -> (r: Option<AttachmentsBatch>)
        requires
            old(self).wf(),
        ensures
            final(self).wf(),
            r is Some <==> any_ready(old(self).priority_queue.items@, now),
            match r {
                Some(batch) => {
                    &&& batch == old(self).priority_queue.items@[0]
                    &&& batch.wf()
                    &&& batch.comparable()
                    &&& batch.retry_deadline < now
                    &&& final(self).priority_queue.items@ == old(self).priority_queue.items@.subrange(
                        1,
                        old(self).priority_queue.items@.len() as int,
                    )
                    &&& forall|i: int|
                        0 <= i < old(self).priority_queue.items@.len() ==> batch.retry_deadline <= (
                        #[trigger] old(self).priority_queue.items@[i]).retry_deadline
                },
                None => *final(self) == *old(self),
            },
            final(self).initial_batch == old(self).initial_batch,
            final(self).ongoing_batch == old(self).ongoing_batch,
            final(self).processed_batches == old(self).processed_batches,
            final(self).reliability_reports == old(self).reliability_reports,
    {
        let ghost items = self.priority_queue.items@;
        let next_is_ready: bool = match self.priority_queue.peek() {
            Some(next) => next.retry_deadline < now,
            None => false,
        };
        proof {
            if items.len() > 0 {
                assert forall|i: int| 0 <= i < items.len() implies items[0].retry_deadline <= (
                #[trigger] items[i]).retry_deadline by {
                    if i > 0 {
                        assert(key_ge(items[0].priority_key(), items[i].priority_key()));
                    }
                }
            }
        }
        if next_is_ready {
            let r = self.priority_queue.pop();
            assert(items[0].wf());
            assert forall|i: int| 0 <= i < self.priority_queue.items@.len() implies (
            #[trigger] self.priority_queue.items@[i]).wf() by {
                assert(items[i + 1].wf());
            }
            r
        } else {
            None
        }
    }
}

} // verus!
