use stacks_atlas_signer::batch::AttachmentsBatch;
use stacks_atlas_signer::batched::{
    BatchedRequestsState, RequestPoll, RequestsAction, RequestsEvent,
};
use stacks_atlas_signer::dns::{DnsAction, DnsEvent, LookupTarget, QueueOutcome};
use stacks_atlas_signer::downloader::{
    AttachmentsDownloader, RunOutcome, StorageLookup, StorageWrite,
};
use stacks_atlas_signer::keys::{Hash160, QualifiedContractIdentifier, StacksBlockId};
use stacks_atlas_signer::machine::{AttachmentsBatchStateMachine, BatchAction, BatchEvent};
use stacks_atlas_signer::context::AttachmentsBatchStateContext;
use stacks_atlas_signer::reliability::ReliabilityReport;
use stacks_atlas_signer::requests::Requestable;
use stacks_atlas_signer::types::{
    Attachment, AttachmentInstance, AttachmentPage, ConnectionOptions, GetAttachmentsInvResponse,
    HttpRequestType, HttpResponseType,
};

const PEER: &str = "http://127.0.0.1:20443";
const NOW: u64 = 1_000;

fn options() -> ConnectionOptions {
    ConnectionOptions {
        dns_timeout: 15_000,
        max_inflight_attachments: 6,
        max_attachment_retry_count: 3,
    }
}

fn contract() -> QualifiedContractIdentifier {
    QualifiedContractIdentifier { issuer_version: 22, issuer: [7u8; 20], name: "names".to_string() }
}

fn content(i: u8) -> Vec<u8> {
    vec![i, i + 1, i + 2]
}

fn instance_for(index: u32, data: &[u8]) -> AttachmentInstance {
    AttachmentInstance {
        content_hash: Attachment::new(data.to_vec()).hash(),
        attachment_index: index,
        block_height: 5,
        index_block_hash: StacksBlockId([9u8; 32]),
        contract_id: contract(),
    }
}

fn three_instances() -> Vec<AttachmentInstance> {
    vec![instance_for(1, &content(10)), instance_for(2, &content(20)), instance_for(3, &content(30))]
}

fn seeded() -> AttachmentsDownloader {
    let mut downloader = AttachmentsDownloader::new(three_instances());
    let initial = downloader.take_initial_batch();
    assert_eq!(initial.len(), 3);
    assert!(downloader.initial_batch.is_empty());
    let admission = downloader.enqueue_new_attachments(
        initial.into_iter().map(|i| (i, StorageLookup::Unknown)).collect(),
        true,
    );
    assert!(admission.resolved.is_empty());
    assert!(admission.writes.is_empty());
    assert_eq!(downloader.priority_queue.len(), 1);
    downloader
}

/// Plays the peer up to the downloads: the lookup, and an inventory that
/// has everything on page zero. Returns the number of inventory requests.
fn up_to_the_downloads(downloader: &mut AttachmentsDownloader) -> usize {
    let peers = vec![PEER.to_string()];
    // the batch is begun
    assert!(matches!(downloader.next_action(), BatchAction::Nothing));
    assert!(matches!(
        downloader.run(NOW, &peers, &options(), BatchEvent::Tick),
        RunOutcome::Pending
    ));
    // the peer's URL names an address: nothing is queued
    match downloader.next_action() {
        BatchAction::Dns(DnsAction::QueueLookups(targets)) => {
            assert_eq!(targets.len(), 1);
            assert!(matches!(targets[0], LookupTarget::Address(_)));
        }
        other => panic!("unexpected: {:?}", other),
    }
    let event = BatchEvent::Dns(DnsEvent::Queued(vec![QueueOutcome::Queued]));
    assert!(matches!(downloader.run(NOW, &peers, &options(), event), RunOutcome::Pending));
    match downloader.next_action() {
        BatchAction::Dns(DnsAction::Poll(requests)) => assert!(requests.is_empty()),
        other => panic!("unexpected: {:?}", other),
    }
    let event = BatchEvent::Dns(DnsEvent::Polled(vec![]));
    assert!(matches!(downloader.run(NOW, &peers, &options(), event), RunOutcome::Pending));
    // one inventory request
    let count = match downloader.next_action() {
        BatchAction::Requests(RequestsAction::Begin { count }) => count,
        other => panic!("unexpected: {:?}", other),
    };
    match &downloader.ongoing_batch {
        Some(AttachmentsBatchStateMachine::DownloadingAttachmentsInv(
            BatchedRequestsState::BeginRequests(queue, _),
            context,
        )) => {
            assert_eq!(queue.items.len(), 1);
            assert_eq!(queue.items[0].get_url(), PEER);
            assert_eq!(queue.items[0].pages, vec![0]);
            assert_eq!(queue.items[0].block_height, 5);
            assert_eq!(queue.items[0].reliability_report, ReliabilityReport::empty());
            match queue.items[0].make_request_type() {
                HttpRequestType::GetAttachmentsInv { index_block_hash, pages_indexes } => {
                    assert_eq!(index_block_hash.0, [9u8; 32]);
                    assert_eq!(pages_indexes, vec![0]);
                }
                other => panic!("unexpected: {:?}", other),
            }
            assert_eq!(context.dns_lookups.entries.len(), 1);
            assert_eq!(context.dns_lookups.entries[0].0, PEER);
        }
        other => panic!("unexpected: {:?}", other),
    }
    let event = BatchEvent::Requests(RequestsEvent::Begun(vec![Some(100)]));
    assert!(matches!(downloader.run(NOW, &peers, &options(), event), RunOutcome::Pending));
    assert!(matches!(downloader.next_action(), BatchAction::Requests(RequestsAction::Poll)));
    // still waiting
    let event = BatchEvent::Requests(RequestsEvent::Polled(vec![RequestPoll::Waiting]));
    assert!(matches!(downloader.run(NOW, &peers, &options(), event), RunOutcome::Pending));
    assert!(matches!(downloader.next_action(), BatchAction::Requests(RequestsAction::Poll)));
    let inventory = GetAttachmentsInvResponse {
        block_id: StacksBlockId([9u8; 32]),
        pages: vec![AttachmentPage { index: 0, inventory: vec![0, 1, 1, 1, 0, 0, 0, 0] }],
    };
    let event = BatchEvent::Requests(RequestsEvent::Polled(vec![RequestPoll::Response(
        HttpResponseType::GetAttachmentsInv(inventory),
    )]));
    assert!(matches!(downloader.run(NOW, &peers, &options(), event), RunOutcome::Pending));
    count
}

fn begin_downloads(downloader: &mut AttachmentsDownloader) -> Vec<Hash160> {
    let peers = vec![PEER.to_string()];
    match downloader.next_action() {
        BatchAction::Requests(RequestsAction::Begin { count }) => assert_eq!(count, 3),
        other => panic!("unexpected: {:?}", other),
    }
    let asked: Vec<Hash160> = match &downloader.ongoing_batch {
        Some(AttachmentsBatchStateMachine::DownloadingAttachment(
            BatchedRequestsState::BeginRequests(queue, _),
            context,
        )) => {
            assert_eq!(context.peers.entries[0].1, ReliabilityReport::new(1, 1));
            queue
                .items
                .iter()
                .map(|request| {
                    assert_eq!(request.get_url(), PEER);
                    assert_eq!(request.sources.entries.len(), 1);
                    match request.make_request_type() {
                        HttpRequestType::GetAttachment { content_hash } => content_hash,
                        other => panic!("unexpected: {:?}", other),
                    }
                })
                .collect()
        }
        other => panic!("unexpected: {:?}", other),
    };
    let event = BatchEvent::Requests(RequestsEvent::Begun(vec![Some(1), Some(2), Some(3)]));
    assert!(matches!(downloader.run(NOW, &peers, &options(), event), RunOutcome::Pending));
    asked
}

fn finished(outcome: RunOutcome) -> AttachmentsBatchStateContext {
    match outcome {
        RunOutcome::Finished(context) => context,
        other => panic!("unexpected: {:?}", other),
    }
}

#[test]
fn three_attachments_from_one_peer() {
    let mut downloader = seeded();
    assert_eq!(up_to_the_downloads(&mut downloader), 1);
    let asked = begin_downloads(&mut downloader);
    let instances = three_instances();
    let by_hash = |hash: &Hash160| -> u8 {
        for (i, instance) in instances.iter().enumerate() {
            if instance.content_hash.0 == hash.0 {
                return (i as u8 + 1) * 10;
            }
        }
        panic!("a hash that was not asked for");
    };
    // the open requests are looked at in the order they were begun
    let replies: Vec<RequestPoll> = asked
        .iter()
        .map(|hash| {
            RequestPoll::Response(HttpResponseType::GetAttachment(Attachment::new(content(
                by_hash(hash),
            ))))
        })
        .collect();
    let peers = vec![PEER.to_string()];
    let context = finished(downloader.run(
        NOW,
        &peers,
        &options(),
        BatchEvent::Requests(RequestsEvent::Polled(replies)),
    ));
    assert!(downloader.ongoing_batch.is_none());
    assert!(matches!(downloader.next_action(), BatchAction::Nothing));
    assert_eq!(context.attachments.len(), 3);
    assert!(context.events_to_deregister.is_empty());

    let hashes = AttachmentsDownloader::downloaded_hashes(&context);
    let found: Vec<Vec<AttachmentInstance>> = hashes
        .iter()
        .map(|hash| {
            instances.iter().filter(|i| i.content_hash.0 == hash.0).cloned().collect()
        })
        .collect();
    let completion = downloader.complete(context, &found, NOW);
    assert_eq!(completion.resolved.len(), 3);
    for (instance, attachment) in completion.resolved.iter() {
        assert_eq!(attachment.hash().0, instance.content_hash.0);
    }
    let mut indexes: Vec<u32> = completion.resolved.iter().map(|(i, _)| i.attachment_index).collect();
    indexes.sort();
    assert_eq!(indexes, vec![1, 2, 3]);
    assert_eq!(completion.writes.len(), 3);
    assert!(completion
        .writes
        .iter()
        .all(|w| matches!(w, StorageWrite::InstantiatedAttachment(_))));
    assert!(completion.events_to_deregister.is_empty());
    // nothing is left to do
    assert!(downloader.priority_queue.is_empty());
    assert!(!downloader.has_ready_batches(u64::MAX));
    // one inventory and three downloads, all answered
    assert_eq!(downloader.reliability_reports.entries.len(), 1);
    assert_eq!(downloader.reliability_reports.entries[0].0, PEER);
    let report = downloader.reliability_reports.entries[0].1;
    assert_eq!(report, ReliabilityReport::new(4, 4));
    assert_eq!(report.score(), 5);
    assert!(matches!(
        downloader.run(NOW, &peers, &options(), BatchEvent::Tick),
        RunOutcome::Idle
    ));
}

#[test]
fn a_peer_that_has_nothing_after_all() {
    let mut downloader = seeded();
    up_to_the_downloads(&mut downloader);
    begin_downloads(&mut downloader);
    let replies = vec![
        RequestPoll::Response(HttpResponseType::NotFound),
        RequestPoll::Response(HttpResponseType::NotFound),
        RequestPoll::Response(HttpResponseType::NotFound),
    ];
    let peers = vec![PEER.to_string()];
    let context = finished(downloader.run(
        NOW,
        &peers,
        &options(),
        BatchEvent::Requests(RequestsEvent::Polled(replies)),
    ));
    assert!(context.attachments.is_empty());
    let mut events = context.events_to_deregister.clone();
    events.sort();
    assert_eq!(events, vec![1, 2, 3]);
    let completion = downloader.complete(context, &vec![], NOW);
    assert!(completion.resolved.is_empty());
    assert!(completion.writes.is_empty());
    let mut events = completion.events_to_deregister.clone();
    events.sort();
    assert_eq!(events, vec![1, 2, 3]);
    // the batch waits for its next try
    assert_eq!(downloader.priority_queue.len(), 1);
    let batch = &downloader.priority_queue.items[0];
    assert_eq!(batch.retry_count, 1);
    assert!(batch.retry_deadline >= NOW + 2);
    assert!(batch.retry_deadline <= NOW + 3);
    assert_eq!(batch.attachments_instances_count(), 3);
    // only the inventory was answered
    assert_eq!(downloader.reliability_reports.entries[0].1, ReliabilityReport::new(1, 1));
    assert!(!downloader.has_ready_batches(NOW + 2));
    assert!(downloader.has_ready_batches(NOW + 4));
}

#[test]
fn a_batch_is_dropped_when_it_was_tried_often_enough() {
    let mut downloader = seeded();
    downloader.priority_queue.items[0].retry_count = 2;
    up_to_the_downloads(&mut downloader);
    begin_downloads(&mut downloader);
    let replies = vec![
        RequestPoll::ConnectFailed,
        RequestPoll::Response(HttpResponseType::Other),
        RequestPoll::Response(HttpResponseType::NotFound),
    ];
    let peers = vec![PEER.to_string()];
    let context = finished(downloader.run(
        NOW,
        &peers,
        &options(),
        BatchEvent::Requests(RequestsEvent::Polled(replies)),
    ));
    assert_eq!(context.events_to_deregister.len(), 2);
    let completion = downloader.complete_with(context, &vec![], NOW, 12345);
    assert!(completion.resolved.is_empty());
    assert!(downloader.priority_queue.is_empty());
    // the inventory counted as a success, the other answer as a failure
    assert_eq!(downloader.reliability_reports.entries[0].1, ReliabilityReport::new(2, 1));
}

#[test]
fn a_partly_resolved_batch_is_queued_again() {
    let mut downloader = seeded();
    up_to_the_downloads(&mut downloader);
    let asked = begin_downloads(&mut downloader);
    let instances = three_instances();
    let first = instances.iter().find(|i| i.content_hash.0 == asked[0].0).unwrap().clone();
    let data = content(first.attachment_index as u8 * 10);
    let replies = vec![
        RequestPoll::Response(HttpResponseType::GetAttachment(Attachment::new(data.clone()))),
        RequestPoll::Response(HttpResponseType::NotFound),
        RequestPoll::Connecting,
    ];
    let peers = vec![PEER.to_string()];
    let event = BatchEvent::Requests(RequestsEvent::Polled(replies));
    assert!(matches!(downloader.run(NOW, &peers, &options(), event), RunOutcome::Pending));
    // one request is still open
    let event = BatchEvent::Requests(RequestsEvent::Polled(vec![RequestPoll::ConnectFailed]));
    let context = finished(downloader.run(NOW, &peers, &options(), event));
    assert_eq!(context.attachments.len(), 1);
    assert_eq!(context.attachments[0].content, data);
    let completion = downloader.complete_with(context, &vec![vec![first.clone()]], NOW, 5);
    assert_eq!(completion.resolved.len(), 1);
    assert_eq!(completion.resolved[0].0.attachment_index, first.attachment_index);
    assert_eq!(completion.resolved[0].1.content, data);
    assert_eq!(completion.events_to_deregister.len(), 2);
    assert_eq!(downloader.priority_queue.len(), 1);
    let batch = &downloader.priority_queue.items[0];
    assert_eq!(batch.attachments_instances_count(), 2);
    assert_eq!((batch.retry_count, batch.retry_deadline), (1, NOW + 2));
    assert_eq!(downloader.reliability_reports.entries[0].1, ReliabilityReport::new(2, 2));
}

#[test]
fn nothing_is_begun_without_peers() {
    let mut downloader = seeded();
    assert!(matches!(
        downloader.run(NOW, &vec![], &options(), BatchEvent::Tick),
        RunOutcome::Idle
    ));
    assert_eq!(downloader.priority_queue.len(), 1);
    assert!(downloader.ongoing_batch.is_none());
}

#[test]
fn nothing_is_begun_before_the_deadline() {
    let mut downloader = seeded();
    let peers = vec![PEER.to_string()];
    // a fresh batch is due at once, but not at time zero
    assert!(matches!(downloader.run(0, &peers, &options(), BatchEvent::Tick), RunOutcome::Idle));
    downloader.priority_queue.items[0].retry_deadline = 2_000;
    assert!(matches!(
        downloader.run(2_000, &peers, &options(), BatchEvent::Tick),
        RunOutcome::Idle
    ));
    assert!(matches!(
        downloader.run(2_001, &peers, &options(), BatchEvent::Tick),
        RunOutcome::Pending
    ));
    assert!(downloader.priority_queue.is_empty());
}

#[test]
fn a_batch_is_not_begun_when_the_reports_are_full() {
    let mut downloader = seeded();
    downloader
        .reliability_reports
        .insert(PEER.to_string(), ReliabilityReport::new(u32::MAX - 4, 7));
    let peers = vec![PEER.to_string()];
    // one inventory request and three downloads may be counted: four
    assert!(matches!(
        downloader.run(NOW, &peers, &options(), BatchEvent::Tick),
        RunOutcome::Saturated
    ));
    assert_eq!(downloader.priority_queue.len(), 1);
    downloader
        .reliability_reports
        .insert(PEER.to_string(), ReliabilityReport::new(u32::MAX - 5, 7));
    assert!(matches!(
        downloader.run(NOW, &peers, &options(), BatchEvent::Tick),
        RunOutcome::Pending
    ));
}

#[test]
fn the_peers_are_taken_with_their_reports() {
    let mut downloader = seeded();
    downloader.reliability_reports.insert("http://10.0.0.2:1".to_string(), ReliabilityReport::new(9, 8));
    let peers = vec![
        "http://10.0.0.1:1".to_string(),
        "http://10.0.0.2:1".to_string(),
        "http://10.0.0.1:1".to_string(),
    ];
    assert!(matches!(
        downloader.run(NOW, &peers, &options(), BatchEvent::Tick),
        RunOutcome::Pending
    ));
    match &downloader.ongoing_batch {
        Some(AttachmentsBatchStateMachine::DNSLookup(_, context)) => {
            assert_eq!(
                context.peers.entries,
                vec![
                    ("http://10.0.0.1:1".to_string(), ReliabilityReport::empty()),
                    ("http://10.0.0.2:1".to_string(), ReliabilityReport::new(9, 8)),
                ]
            );
            assert_eq!(context.get_peers_urls(), vec!["http://10.0.0.1:1", "http://10.0.0.2:1"]);
        }
        other => panic!("unexpected: {:?}", other),
    }
}

fn batch_due(deadline: u64, name: u8) -> AttachmentsBatch {
    let mut batch = AttachmentsBatch::new();
    batch.track_attachment(&AttachmentInstance {
        content_hash: Hash160([name; 20]),
        attachment_index: 1,
        block_height: name as u64,
        index_block_hash: StacksBlockId([name; 32]),
        contract_id: contract(),
    });
    batch.retry_deadline = deadline;
    batch
}

#[test]
fn the_batch_that_is_due_is_popped() {
    let mut downloader = AttachmentsDownloader::new(vec![]);
    downloader.priority_queue.push(batch_due(100, 0xa));
    downloader.priority_queue.push(batch_due(50, 0xb));
    assert!(downloader.has_ready_batches(75));
    let popped = downloader.pop_next_ready_batch(75).expect("a batch is due");
    assert_eq!(popped.retry_deadline, 50);
    assert_eq!(popped.block_height, 0xb);
    assert_eq!(downloader.priority_queue.len(), 1);
    // the other one is not due yet
    assert!(!downloader.has_ready_batches(75));
    assert!(downloader.pop_next_ready_batch(75).is_none());
    assert_eq!(downloader.priority_queue.len(), 1);
}

#[test]
fn no_batch_is_popped_before_its_deadline() {
    let mut downloader = AttachmentsDownloader::new(vec![]);
    downloader.priority_queue.push(batch_due(100, 0xa));
    downloader.priority_queue.push(batch_due(50, 0xb));
    assert!(!downloader.has_ready_batches(40));
    assert!(downloader.pop_next_ready_batch(40).is_none());
    assert!(!downloader.has_ready_batches(50));
    assert!(downloader.pop_next_ready_batch(50).is_none());
    assert_eq!(downloader.priority_queue.len(), 2);
    assert!(downloader.has_ready_batches(51));
    let empty = AttachmentsDownloader::new(vec![]);
    assert!(!empty.has_ready_batches(u64::MAX));
}

#[test]
fn the_earlier_deadline_is_popped_first_whatever_the_size() {
    let mut downloader = AttachmentsDownloader::new(vec![]);
    let mut large = AttachmentsBatch::new();
    for index in 0..20 {
        large.track_attachment(&AttachmentInstance {
            content_hash: Hash160([index as u8 + 1; 20]),
            attachment_index: index,
            block_height: 1,
            index_block_hash: StacksBlockId([1; 32]),
            contract_id: contract(),
        });
    }
    large.retry_deadline = 60;
    downloader.priority_queue.push(large);
    downloader.priority_queue.push(batch_due(59, 0xb));
    assert_eq!(downloader.pop_next_ready_batch(1_000).map(|b| b.retry_deadline), Some(59));
    assert_eq!(downloader.pop_next_ready_batch(1_000).map(|b| b.retry_deadline), Some(60));
    assert!(downloader.pop_next_ready_batch(1_000).is_none());
}

#[test]
fn admission_resolves_what_is_at_hand() {
    let mut downloader = AttachmentsDownloader::new(vec![]);
    let unbound = AttachmentInstance {
        content_hash: Hash160::empty(),
        attachment_index: 1,
        block_height: 5,
        index_block_hash: StacksBlockId([9u8; 32]),
        contract_id: contract(),
    };
    let known = instance_for(2, &content(20));
    let seen = instance_for(3, &content(30));
    let missing = instance_for(4, &content(40));
    let elsewhere = AttachmentInstance {
        index_block_hash: StacksBlockId([8u8; 32]),
        ..instance_for(5, &content(50))
    };
    let admission = downloader.enqueue_new_attachments(
        vec![
            // the lookup of an unbound instance is not read
            (unbound.clone(), StorageLookup::Validated(Attachment::new(content(99)))),
            (known.clone(), StorageLookup::Validated(Attachment::new(content(20)))),
            (seen.clone(), StorageLookup::Inboxed(Attachment::new(content(30)))),
            (missing.clone(), StorageLookup::Unknown),
            (elsewhere.clone(), StorageLookup::Unknown),
        ],
        false,
    );
    let resolved: Vec<(u32, Vec<u8>)> = admission
        .resolved
        .iter()
        .map(|(i, a)| (i.attachment_index, a.content.clone()))
        .collect();
    assert_eq!(resolved, vec![(1, vec![]), (2, content(20)), (3, content(30))]);
    let writes: Vec<String> = admission
        .writes
        .iter()
        .map(|w| match w {
            StorageWrite::InstantiatedAttachment(a) => format!("attachment {:?}", a.content),
            StorageWrite::Instance(i, present) => {
                format!("instance {} {}", i.attachment_index, present)
            }
        })
        .collect();
    assert_eq!(
        writes,
        vec![
            "instance 1 true".to_string(),
            "instance 2 true".to_string(),
            format!("attachment {:?}", content(30)),
            "instance 3 true".to_string(),
            "instance 4 false".to_string(),
            "instance 5 false".to_string(),
        ]
    );
    // one batch per block
    assert_eq!(downloader.priority_queue.len(), 2);
    let blocks: Vec<u8> =
        downloader.priority_queue.items.iter().map(|b| b.index_block_hash.0[0]).collect();
    assert_eq!(blocks, vec![9, 8]);
    for batch in downloader.priority_queue.items.iter() {
        assert_eq!(batch.attachments_instances_count(), 1);
        assert_eq!((batch.retry_count, batch.retry_deadline), (0, 0));
    }
}

#[test]
fn the_initial_batch_is_not_written_again() {
    let mut downloader = AttachmentsDownloader::new(vec![]);
    let admission = downloader.enqueue_new_attachments(
        vec![
            (instance_for(4, &content(40)), StorageLookup::Unknown),
            (instance_for(2, &content(20)), StorageLookup::Validated(Attachment::new(content(20)))),
        ],
        true,
    );
    assert_eq!(admission.resolved.len(), 1);
    assert_eq!(admission.writes.len(), 1);
    assert!(matches!(&admission.writes[0], StorageWrite::Instance(i, true) if i.attachment_index == 2));
    assert_eq!(downloader.priority_queue.len(), 1);
    let nothing = downloader.enqueue_new_attachments(vec![], false);
    assert!(nothing.resolved.is_empty() && nothing.writes.is_empty());
    assert_eq!(downloader.priority_queue.len(), 1);
}

#[test]
fn instances_of_one_block_and_two_heights_do_not_mix() {
    let mut downloader = AttachmentsDownloader::new(vec![]);
    let first = instance_for(1, &content(10));
    let other_height = AttachmentInstance { block_height: 6, ..instance_for(2, &content(20)) };
    downloader.enqueue_new_attachments(
        vec![(first, StorageLookup::Unknown), (other_height, StorageLookup::Unknown)],
        false,
    );
    assert_eq!(downloader.priority_queue.len(), 1);
    assert_eq!(downloader.priority_queue.items[0].block_height, 5);
    assert_eq!(downloader.priority_queue.items[0].attachments_instances_count(), 1);
}
