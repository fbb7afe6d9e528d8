use stacks_atlas_signer::batch::AttachmentsBatch;
use stacks_atlas_signer::batched::{
    BatchedRequestsResult, BatchedRequestsState, RequestPoll, RequestsAction, RequestsEvent,
};
use stacks_atlas_signer::context::AttachmentsBatchStateContext;
use stacks_atlas_signer::dns::BatchedDNSLookupsResults;
use stacks_atlas_signer::keys::{Hash160, QualifiedContractIdentifier, StacksBlockId};
use stacks_atlas_signer::pq::{Prioritized, PriorityQueue};
use stacks_atlas_signer::reliability::{Rank, ReliabilityReport};
use stacks_atlas_signer::requests::{
    AttachmentRequest, AttachmentsInventoryRequest, InventoryKey, Requestable,
};
use stacks_atlas_signer::types::{
    Attachment, AttachmentInstance, AttachmentPage, ConnectionOptions, GetAttachmentsInvResponse,
    HttpResponseType, IpAddress, SocketAddress,
};
use stacks_atlas_signer::vecmap::VecMap;

fn options() -> ConnectionOptions {
    ConnectionOptions {
        dns_timeout: 15_000,
        max_inflight_attachments: 2,
        max_attachment_retry_count: 3,
    }
}

fn contract(name: &str) -> QualifiedContractIdentifier {
    QualifiedContractIdentifier { issuer_version: 22, issuer: [7u8; 20], name: name.to_string() }
}

fn instance(name: &str, index: u32, hash: u8) -> AttachmentInstance {
    AttachmentInstance {
        content_hash: Hash160([hash; 20]),
        attachment_index: index,
        block_height: 5,
        index_block_hash: StacksBlockId([9u8; 32]),
        contract_id: contract(name),
    }
}

fn peers(list: &[(&str, u32, u32)]) -> VecMap<String, ReliabilityReport> {
    let mut map = VecMap::new();
    for (url, sent, success) in list {
        map.insert(url.to_string(), ReliabilityReport::new(*sent, *success));
    }
    map
}

fn context(list: &[(&str, u32, u32)]) -> AttachmentsBatchStateContext {
    let mut batch = AttachmentsBatch::new();
    // "names" misses attachments on ten pages, "other" on one
    for page in 0u32..10 {
        batch.track_attachment(&instance("names", page * 8 + 1, page as u8 + 1));
    }
    batch.track_attachment(&instance("other", 2, 0x51));
    batch.track_attachment(&instance("other", 3, 0x52));
    AttachmentsBatchStateContext::new(batch, peers(list), &options())
}

#[test]
fn a_new_context_knows_the_batch_and_the_peers() {
    let ctx = context(&[("http://a", 0, 0), ("http://b", 4, 4)]);
    assert_eq!(ctx.attachments_batch.attachments_instances_count(), 12);
    assert_eq!(ctx.get_peers_urls(), vec!["http://a", "http://b"]);
    assert_eq!(ctx.connection_options, options());
    assert!(ctx.dns_lookups.is_empty());
    assert!(ctx.inventories.is_empty());
    assert!(ctx.attachments.is_empty());
    assert!(ctx.events_to_deregister.is_empty());
}

#[test]
fn one_inventory_request_per_contract_peer_and_run_of_pages() {
    let ctx = context(&[("http://a", 0, 0), ("http://b", 4, 4)]);
    let mut queue = ctx.get_prioritized_attachments_inventory_requests();
    // "names": 2 peers x 2 runs of pages; "other": 2 peers x 1
    assert_eq!(queue.len(), 6);
    let mut seen: Vec<(String, String, Vec<u32>)> = Vec::new();
    let mut last: Option<AttachmentsInventoryRequest> = None;
    while let Some(request) = queue.pop() {
        assert_eq!(request.block_height, 5);
        assert_eq!(request.index_block_hash.0, [9u8; 32]);
        if let Some(before) = &last {
            assert_ne!(before.compare(&request), Rank::Lower);
        }
        seen.push((request.get_url().clone(), request.contract_id.name.clone(), request.pages.clone()));
        last = Some(request);
    }
    // the more reliable peer first; among equals, in the order they were made
    assert_eq!(
        seen,
        vec![
            ("http://b".to_string(), "names".to_string(), (0u32..8).collect::<Vec<u32>>()),
            ("http://b".to_string(), "names".to_string(), vec![8, 9]),
            ("http://b".to_string(), "other".to_string(), vec![0]),
            ("http://a".to_string(), "names".to_string(), (0u32..8).collect::<Vec<u32>>()),
            ("http://a".to_string(), "names".to_string(), vec![8, 9]),
            ("http://a".to_string(), "other".to_string(), vec![0]),
        ]
    );
}

#[test]
fn no_peers_no_inventory_requests() {
    let ctx = context(&[]);
    assert!(ctx.get_prioritized_attachments_inventory_requests().is_empty());
    assert!(ctx.get_prioritized_attachments_requests().is_empty());
}

fn inventory(pages: &[(u32, &[u8])]) -> GetAttachmentsInvResponse {
    GetAttachmentsInvResponse {
        block_id: StacksBlockId([9u8; 32]),
        pages: pages
            .iter()
            .map(|(index, bits)| AttachmentPage { index: *index, inventory: bits.to_vec() })
            .collect(),
    }
}

fn inventory_request(url: &str, name: &str, pages: Vec<u32>) -> AttachmentsInventoryRequest {
    AttachmentsInventoryRequest {
        url: url.to_string(),
        contract_id: contract(name),
        pages,
        block_height: 5,
        index_block_hash: StacksBlockId([9u8; 32]),
        reliability_report: ReliabilityReport::empty(),
    }
}

fn with_inventories() -> AttachmentsBatchStateContext {
    let ctx = context(&[("http://a", 0, 0), ("http://b", 4, 4), ("http://c", 9, 0)]);
    let mut results: BatchedRequestsResult<AttachmentsInventoryRequest> =
        BatchedRequestsResult::empty();
    // the answers are merged from the last to the first
    results.succeeded.insert(
        inventory_request("http://c", "other", vec![0]),
        Some(HttpResponseType::Other),
    );
    results.succeeded.insert(
        inventory_request("http://b", "other", vec![0]),
        Some(HttpResponseType::GetAttachmentsInv(inventory(&[(0, &[0, 0, 1, 1])]))),
    );
    results.succeeded.insert(
        inventory_request("http://a", "other", vec![0]),
        Some(HttpResponseType::GetAttachmentsInv(inventory(&[
            (7, &[1, 1, 1, 1]),
            (0, &[0, 0, 0, 1]),
            (0, &[1, 1, 1, 1]),
        ]))),
    );
    results.succeeded.insert(
        inventory_request("http://a", "names", vec![8, 9]),
        Some(HttpResponseType::GetAttachmentsInv(inventory(&[(8, &[0, 1]), (9, &[0])]))),
    );
    results.succeeded.insert(inventory_request("http://b", "names", vec![8, 9]), None);
    results.faulty_peers.insert(41, "http://c".to_string());
    results.faulty_peers.insert(40, "http://b".to_string());
    ctx.extend_with_inventories(results)
}

#[test]
fn inventories_are_filed_and_counted() {
    let ctx = with_inventories();
    assert_eq!(
        ctx.peers.entries,
        vec![
            ("http://a".to_string(), ReliabilityReport::new(2, 2)),
            ("http://b".to_string(), ReliabilityReport::new(6, 5)),
            ("http://c".to_string(), ReliabilityReport::new(10, 0)),
        ]
    );
    assert_eq!(ctx.events_to_deregister, vec![41, 40]);
    let filed: Vec<(String, Vec<u32>, Vec<String>)> = ctx
        .inventories
        .entries
        .iter()
        .map(|(key, by_peer)| {
            (
                key.contract_id.name.clone(),
                key.pages.clone(),
                by_peer.entries.iter().map(|(url, _)| url.clone()).collect(),
            )
        })
        .collect();
    assert_eq!(
        filed,
        vec![
            ("names".to_string(), vec![8, 9], vec!["http://a".to_string()]),
            ("other".to_string(), vec![0], vec!["http://a".to_string(), "http://b".to_string()]),
        ]
    );
    let key = InventoryKey {
        contract_id: contract("other"),
        pages: vec![0],
        index_block_hash: StacksBlockId([9u8; 32]),
    };
    assert!(ctx.inventories.contains_key(&key));
}

#[test]
fn attachments_are_asked_of_the_peers_that_have_them() {
    let ctx = with_inventories();
    let mut queue = ctx.get_prioritized_attachments_requests();
    let mut asked: Vec<(u8, Vec<(String, ReliabilityReport)>, String)> = Vec::new();
    while let Some(request) = queue.pop() {
        asked.push((
            request.content_hash.0[0],
            request.sources.entries.clone(),
            request.get_url().clone(),
        ));
    }
    let a = ("http://a".to_string(), ReliabilityReport::new(2, 2));
    let b = ("http://b".to_string(), ReliabilityReport::new(6, 5));
    assert_eq!(
        asked,
        vec![
            // index 3 of "other": both peers have it, the better one is asked
            (0x52, vec![a.clone(), b.clone()], "http://b".to_string()),
            // index 2 of "other": the first page zero of peer a says no, peer b says yes
            (0x51, vec![b.clone()], "http://b".to_string()),
            // index 65 of "names", page 8, position 1: peer a, who scores lower, has it
            (9, vec![a.clone()], "http://a".to_string()),
        ]
    );
}

#[test]
fn content_is_asked_for_once() {
    let mut batch = AttachmentsBatch::new();
    batch.track_attachment(&instance("names", 1, 0xaa));
    batch.track_attachment(&instance("names", 2, 0xaa));
    batch.track_attachment(&instance("other", 1, 0xaa));
    let ctx = AttachmentsBatchStateContext::new(batch, peers(&[("http://a", 0, 0)]), &options());
    let mut results: BatchedRequestsResult<AttachmentsInventoryRequest> =
        BatchedRequestsResult::empty();
    for name in ["names", "other"] {
        results.succeeded.insert(
            inventory_request("http://a", name, vec![0]),
            Some(HttpResponseType::GetAttachmentsInv(inventory(&[(0, &[1, 1, 1])]))),
        );
    }
    let ctx = ctx.extend_with_inventories(results);
    let queue = ctx.get_prioritized_attachments_requests();
    assert_eq!(queue.len(), 1);
    assert_eq!(queue.items[0].content_hash.0, [0xaa; 20]);
}

#[test]
fn a_page_that_was_not_asked_for_is_not_trusted() {
    let mut batch = AttachmentsBatch::new();
    batch.track_attachment(&instance("names", 9, 0xaa));
    let ctx = AttachmentsBatchStateContext::new(batch, peers(&[("http://a", 0, 0)]), &options());
    let mut results: BatchedRequestsResult<AttachmentsInventoryRequest> =
        BatchedRequestsResult::empty();
    // the answer is filed under pages [0], attachment 9 lies on page 1
    results.succeeded.insert(
        inventory_request("http://a", "names", vec![0]),
        Some(HttpResponseType::GetAttachmentsInv(inventory(&[(1, &[1, 1, 1])]))),
    );
    let ctx = ctx.extend_with_inventories(results);
    assert!(ctx.get_prioritized_attachments_requests().is_empty());
}

#[test]
fn the_request_with_more_sources_goes_first() {
    let one = || {
        let mut sources = VecMap::new();
        sources.insert("http://a".to_string(), ReliabilityReport::new(50, 50));
        AttachmentRequest { content_hash: Hash160([1; 20]), sources }
    };
    let two = || {
        let mut sources = VecMap::new();
        sources.insert("http://b".to_string(), ReliabilityReport::new(1, 0));
        sources.insert("http://c".to_string(), ReliabilityReport::new(2, 0));
        AttachmentRequest { content_hash: Hash160([2; 20]), sources }
    };
    assert_eq!(two().compare(&one()), Rank::Higher);
    assert_eq!(one().compare(&two()), Rank::Lower);
    let better = || {
        let mut sources = VecMap::new();
        sources.insert("http://d".to_string(), ReliabilityReport::new(60, 0));
        AttachmentRequest { content_hash: Hash160([3; 20]), sources }
    };
    assert_eq!(better().compare(&one()), Rank::Higher);
    assert_eq!(one().compare(&one()), Rank::Same);
    let mut queue: PriorityQueue<AttachmentRequest> = PriorityQueue::new();
    queue.push(one());
    queue.push(two());
    queue.push(better());
    let order: Vec<u8> =
        std::iter::from_fn(|| queue.pop()).map(|r| r.content_hash.0[0]).collect();
    assert_eq!(order, vec![2, 3, 1]);
}

#[test]
fn the_most_reliable_source_is_the_last_of_the_best() {
    let mut sources = VecMap::new();
    sources.insert("http://a".to_string(), ReliabilityReport::new(5, 5));
    sources.insert("http://b".to_string(), ReliabilityReport::new(6, 0));
    sources.insert("http://c".to_string(), ReliabilityReport::new(1, 1));
    let request = AttachmentRequest { content_hash: Hash160([1; 20]), sources };
    let (url, report) = request.get_most_reliable_source();
    assert_eq!(url, "http://b");
    assert_eq!(*report, ReliabilityReport::new(6, 0));
    assert_eq!(request.to_string(), "<Request<Attachment>: url=http://b>");
    assert_eq!(
        inventory_request("http://a", "names", vec![0]).to_string(),
        "<Request<AttachmentsInventory>: url=http://a>"
    );
}

#[test]
fn downloads_are_kept_once_and_counted() {
    let ctx = with_inventories();
    let request = |hash: u8, url: &str| {
        let mut sources = VecMap::new();
        sources.insert(url.to_string(), ReliabilityReport::empty());
        AttachmentRequest { content_hash: Hash160([hash; 20]), sources }
    };
    let mut results: BatchedRequestsResult<AttachmentRequest> = BatchedRequestsResult::empty();
    results.succeeded.insert(
        request(1, "http://a"),
        Some(HttpResponseType::GetAttachment(Attachment::new(vec![1, 2, 3]))),
    );
    results.succeeded.insert(
        request(2, "http://b"),
        Some(HttpResponseType::GetAttachment(Attachment::new(vec![1, 2, 3]))),
    );
    results.succeeded.insert(request(3, "http://b"), Some(HttpResponseType::Other));
    results.succeeded.insert(
        request(4, "http://a"),
        Some(HttpResponseType::GetAttachment(Attachment::new(vec![4]))),
    );
    results.faulty_peers.insert(7, "http://c".to_string());
    let ctx = ctx.extend_with_attachments(results);
    let kept: Vec<Vec<u8>> = ctx.attachments.iter().map(|a| a.content.clone()).collect();
    assert_eq!(kept, vec![vec![4], vec![1, 2, 3]]);
    assert_eq!(
        ctx.peers.entries,
        vec![
            ("http://a".to_string(), ReliabilityReport::new(4, 4)),
            ("http://b".to_string(), ReliabilityReport::new(8, 6)),
            ("http://c".to_string(), ReliabilityReport::new(10, 0)),
        ]
    );
    assert_eq!(ctx.events_to_deregister, vec![41, 40, 7]);
}

#[test]
fn lookups_are_taken_over() {
    let mut ctx = context(&[("http://a", 0, 0)]);
    let addr = |n: u32| SocketAddress { ip: IpAddress::V4(n), port: 1 };
    ctx.dns_lookups.insert("http://a".to_string(), None);
    ctx.dns_lookups.insert("http://z".to_string(), Some(vec![addr(9)]));
    let mut results = BatchedDNSLookupsResults::new();
    results.dns_lookups.insert("http://a".to_string(), Some(vec![addr(1), addr(2)]));
    results.dns_lookups.insert("http://b".to_string(), None);
    let ctx = ctx.extend_with_dns_lookups(results);
    let mut lookups = ctx.dns_lookups.entries.clone();
    lookups.sort_by(|x, y| x.0.cmp(&y.0));
    assert_eq!(
        lookups,
        vec![
            ("http://a".to_string(), Some(vec![addr(1), addr(2)])),
            ("http://b".to_string(), None),
            ("http://z".to_string(), Some(vec![addr(9)])),
        ]
    );
}

fn queue_of(n: u32) -> PriorityQueue<AttachmentsInventoryRequest> {
    let mut queue = PriorityQueue::new();
    for i in 0..n {
        let mut request = inventory_request("http://a", "names", vec![i]);
        request.reliability_report = ReliabilityReport::new(100 - i, 0);
        queue.push(request);
    }
    queue
}

#[test]
fn requests_are_begun_a_few_at_a_time() {
    let state = BatchedRequestsState::new(queue_of(5));
    assert_eq!(state.next_action(2), RequestsAction::Begin { count: 2 });
    assert_eq!(state.next_action(9), RequestsAction::Begin { count: 5 });
    assert_eq!(state.next_action(0), RequestsAction::Begin { count: 0 });
    // the second request could not be begun: it is dropped
    let state =
        BatchedRequestsState::try_proceed(state, RequestsEvent::Begun(vec![Some(7), None]), 2);
    match &state {
        BatchedRequestsState::PollRequests(queue, results) => {
            assert_eq!(queue.len(), 3);
            assert_eq!(queue.items[0].pages, vec![2]);
            assert_eq!(results.remaining.entries.len(), 1);
            assert_eq!(results.remaining.entries[0].0, 7);
            assert_eq!(results.remaining.entries[0].1.pages, vec![0]);
        }
        other => panic!("unexpected: {:?}", other),
    }
    assert_eq!(state.next_action(2), RequestsAction::Poll);
    let state = BatchedRequestsState::try_proceed(
        state,
        RequestsEvent::Polled(vec![RequestPoll::Connecting]),
        2,
    );
    assert!(matches!(state, BatchedRequestsState::PollRequests(_, _)));
    let state = BatchedRequestsState::try_proceed(
        state,
        RequestsEvent::Polled(vec![RequestPoll::Response(HttpResponseType::Other)]),
        2,
    );
    // the queue is not empty: the machine begins again
    match &state {
        BatchedRequestsState::BeginRequests(queue, results) => {
            assert_eq!(queue.len(), 3);
            assert!(results.remaining.is_empty());
            assert_eq!(results.succeeded.entries.len(), 1);
            assert!(matches!(results.succeeded.entries[0].1, Some(HttpResponseType::Other)));
        }
        other => panic!("unexpected: {:?}", other),
    }
    let state =
        BatchedRequestsState::try_proceed(state, RequestsEvent::Begun(vec![Some(1), Some(2)]), 2);
    let state = BatchedRequestsState::try_proceed(
        state,
        RequestsEvent::Polled(vec![
            RequestPoll::ConnectFailed,
            RequestPoll::Response(HttpResponseType::NotFound),
        ]),
        2,
    );
    let state = BatchedRequestsState::try_proceed(state, RequestsEvent::Begun(vec![Some(2)]), 2);
    let state = BatchedRequestsState::try_proceed(
        state,
        RequestsEvent::Polled(vec![RequestPoll::Response(HttpResponseType::Other)]),
        2,
    );
    match &state {
        BatchedRequestsState::Done(results) => {
            assert!(results.remaining.is_empty());
            assert_eq!(results.succeeded.entries.len(), 2);
            let mut faulty: Vec<usize> = results.faulty_peers.entries.iter().map(|e| e.0).collect();
            faulty.sort();
            assert_eq!(faulty, vec![1, 2]);
            assert!(results.errors.is_empty());
        }
        other => panic!("unexpected: {:?}", other),
    }
    assert_eq!(state.next_action(2), RequestsAction::Nothing);
}

#[test]
fn an_event_that_does_not_fit_the_requests_changes_nothing() {
    let state = BatchedRequestsState::new(queue_of(3));
    let state = BatchedRequestsState::try_proceed(state, RequestsEvent::Begun(vec![Some(1)]), 2);
    assert!(matches!(&state, BatchedRequestsState::BeginRequests(q, _) if q.len() == 3));
    let state = BatchedRequestsState::try_proceed(state, RequestsEvent::Polled(vec![]), 2);
    assert!(matches!(&state, BatchedRequestsState::BeginRequests(q, _) if q.len() == 3));
    let state =
        BatchedRequestsState::try_proceed(state, RequestsEvent::Begun(vec![Some(1), Some(2)]), 2);
    let state = BatchedRequestsState::try_proceed(state, RequestsEvent::Polled(vec![]), 2);
    assert!(matches!(&state, BatchedRequestsState::PollRequests(_, r) if r.remaining.len() == 2));
    let state = BatchedRequestsState::try_proceed(state, RequestsEvent::Begun(vec![]), 2);
    assert!(matches!(&state, BatchedRequestsState::PollRequests(_, r) if r.remaining.len() == 2));
}

#[test]
fn an_empty_queue_is_done_after_one_round() {
    let state: BatchedRequestsState<AttachmentsInventoryRequest> =
        BatchedRequestsState::new(PriorityQueue::new());
    let state = BatchedRequestsState::try_proceed(state, RequestsEvent::Begun(vec![]), 4);
    let state = BatchedRequestsState::try_proceed(state, RequestsEvent::Polled(vec![]), 4);
    assert!(matches!(state, BatchedRequestsState::Done(_)));
    let results: BatchedRequestsResult<AttachmentsInventoryRequest> =
        BatchedRequestsResult::new(VecMap::new());
    assert!(results.remaining.is_empty() && results.succeeded.is_empty());
}
