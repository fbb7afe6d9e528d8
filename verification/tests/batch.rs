use stacks_atlas_signer::batch::AttachmentsBatch;
use stacks_atlas_signer::keys::{Hash160, QualifiedContractIdentifier, StacksBlockId};
use stacks_atlas_signer::pq::{Prioritized, PriorityQueue};
use stacks_atlas_signer::reliability::Rank;
use stacks_atlas_signer::types::{AttachmentInstance, MAX_RETRY_DELAY};

fn contract(name: &str) -> QualifiedContractIdentifier {
    QualifiedContractIdentifier { issuer_version: 22, issuer: [7u8; 20], name: name.to_string() }
}

fn instance(name: &str, index: u32, hash: u8, height: u64, block: u8) -> AttachmentInstance {
    AttachmentInstance {
        content_hash: Hash160([hash; 20]),
        attachment_index: index,
        block_height: height,
        index_block_hash: StacksBlockId([block; 32]),
        contract_id: contract(name),
    }
}

fn missing(batch: &AttachmentsBatch, name: &str) -> Vec<(u32, u8)> {
    let mut out = Vec::new();
    for (c, inner) in batch.attachments_instances.entries.iter() {
        if c.name == name {
            for (index, hash) in inner.entries.iter() {
                out.push((*index, hash.0[0]));
            }
        }
    }
    out
}

#[test]
fn a_new_batch_is_empty() {
    let batch = AttachmentsBatch::new();
    assert_eq!(batch.block_height, 0);
    assert_eq!(batch.index_block_hash.0, [0u8; 32]);
    assert_eq!(batch.retry_count, 0);
    assert_eq!(batch.retry_deadline, 0);
    assert_eq!(batch.attachments_instances_count(), 0);
    assert!(batch.has_fully_succeed());
}

#[test]
fn the_first_instance_decides_the_block() {
    let mut batch = AttachmentsBatch::new();
    batch.track_attachment(&instance("names", 3, 0xaa, 10, 1));
    assert_eq!(batch.block_height, 10);
    assert_eq!(batch.index_block_hash.0, [1u8; 32]);
    assert_eq!(batch.attachments_instances_count(), 1);
    assert!(!batch.has_fully_succeed());
    assert_eq!(missing(&batch, "names"), vec![(3, 0xaa)]);
}

#[test]
fn instances_of_another_block_are_refused() {
    let mut batch = AttachmentsBatch::new();
    batch.track_attachment(&instance("names", 3, 0xaa, 10, 1));
    batch.track_attachment(&instance("names", 4, 0xbb, 11, 1));
    batch.track_attachment(&instance("names", 5, 0xcc, 10, 2));
    batch.track_attachment(&instance("other", 6, 0xdd, 11, 2));
    assert_eq!(batch.attachments_instances_count(), 1);
    assert_eq!(batch.block_height, 10);
    assert_eq!(batch.index_block_hash.0, [1u8; 32]);
    assert_eq!(missing(&batch, "names"), vec![(3, 0xaa)]);
    assert_eq!(missing(&batch, "other"), vec![]);
}

#[test]
fn instances_are_kept_by_contract_and_index() {
    let mut batch = AttachmentsBatch::new();
    batch.track_attachment(&instance("names", 3, 0xaa, 10, 1));
    batch.track_attachment(&instance("names", 4, 0xbb, 10, 1));
    batch.track_attachment(&instance("other", 3, 0xcc, 10, 1));
    // the same slot again: the later hash stands
    batch.track_attachment(&instance("names", 3, 0xdd, 10, 1));
    assert_eq!(batch.attachments_instances_count(), 3);
    assert_eq!(missing(&batch, "names"), vec![(3, 0xdd), (4, 0xbb)]);
    assert_eq!(missing(&batch, "other"), vec![(3, 0xcc)]);
}

#[test]
fn missing_pages_are_listed_once_and_in_order() {
    let mut batch = AttachmentsBatch::new();
    for index in [17u32, 1, 8, 0, 16, 23, 800] {
        batch.track_attachment(&instance("names", index, index as u8, 10, 1));
    }
    assert_eq!(batch.get_missing_pages_for_contract_id(&contract("names")), vec![0, 1, 2, 100]);
    assert_eq!(batch.get_missing_pages_for_contract_id(&contract("other")), Vec::<u32>::new());
    assert_eq!(
        batch.get_paginated_missing_pages_for_contract_id(&contract("names")),
        vec![vec![0, 1, 2, 100]]
    );
    assert_eq!(
        batch.get_paginated_missing_pages_for_contract_id(&contract("other")),
        Vec::<Vec<u32>>::new()
    );
}

#[test]
fn pages_are_requested_eight_at_a_time() {
    let mut batch = AttachmentsBatch::new();
    for page in (0u32..17).rev() {
        batch.track_attachment(&instance("names", page * 8 + 3, page as u8, 10, 1));
    }
    let pages = batch.get_paginated_missing_pages_for_contract_id(&contract("names"));
    assert_eq!(
        pages,
        vec![(0u32..8).collect::<Vec<u32>>(), (8u32..16).collect::<Vec<u32>>(), vec![16]]
    );
    let mut batch = AttachmentsBatch::new();
    for page in 0u32..16 {
        batch.track_attachment(&instance("names", page * 8, page as u8, 10, 1));
    }
    let pages = batch.get_paginated_missing_pages_for_contract_id(&contract("names"));
    assert_eq!(pages.len(), 2);
    assert_eq!(pages[1], (8u32..16).collect::<Vec<u32>>());
}

#[test]
fn resolving_strikes_the_hash_in_every_contract() {
    let mut batch = AttachmentsBatch::new();
    batch.track_attachment(&instance("names", 1, 0xaa, 10, 1));
    batch.track_attachment(&instance("names", 2, 0xbb, 10, 1));
    batch.track_attachment(&instance("other", 7, 0xaa, 10, 1));
    batch.resolve_attachment(&Hash160([0xaa; 20]));
    assert_eq!(batch.attachments_instances_count(), 1);
    assert_eq!(missing(&batch, "names"), vec![(2, 0xbb)]);
    assert_eq!(missing(&batch, "other"), vec![]);
    // the contract stays known, with nothing missing
    assert_eq!(batch.attachments_instances.entries.len(), 2);
    assert_eq!(batch.block_height, 10);
}

#[test]
fn resolving_twice_is_resolving_once() {
    let mut once = AttachmentsBatch::new();
    let mut twice = AttachmentsBatch::new();
    for batch in [&mut once, &mut twice] {
        batch.track_attachment(&instance("names", 1, 0xaa, 10, 1));
        batch.track_attachment(&instance("names", 2, 0xbb, 10, 1));
        batch.track_attachment(&instance("other", 7, 0xaa, 10, 1));
    }
    once.resolve_attachment(&Hash160([0xaa; 20]));
    twice.resolve_attachment(&Hash160([0xaa; 20]));
    twice.resolve_attachment(&Hash160([0xaa; 20]));
    assert_eq!(missing(&once, "names"), missing(&twice, "names"));
    assert_eq!(missing(&once, "other"), missing(&twice, "other"));
    assert_eq!(once.attachments_instances_count(), twice.attachments_instances_count());
    // a hash that is not missing changes nothing
    twice.resolve_attachment(&Hash160([0x01; 20]));
    assert_eq!(missing(&once, "names"), missing(&twice, "names"));
}

#[test]
fn the_retry_delay_doubles_and_is_capped() {
    let mut batch = AttachmentsBatch::new();
    batch.bump_retry_count_with(1000, 0);
    assert_eq!((batch.retry_count, batch.retry_deadline), (1, 1002));
    batch.bump_retry_count_with(1000, 0);
    assert_eq!((batch.retry_count, batch.retry_deadline), (2, 1004));
    batch.bump_retry_count_with(1000, 0);
    assert_eq!((batch.retry_count, batch.retry_deadline), (3, 1008));
    batch.retry_count = 8;
    batch.bump_retry_count_with(1000, 0);
    assert_eq!((batch.retry_count, batch.retry_deadline), (9, 1512));
    batch.bump_retry_count_with(1000, 0);
    assert_eq!((batch.retry_count, batch.retry_deadline), (10, 1000 + MAX_RETRY_DELAY));
    batch.retry_count = 70;
    batch.bump_retry_count_with(1000, u64::MAX);
    assert_eq!((batch.retry_count, batch.retry_deadline), (71, 1600));
}

#[test]
fn the_jitter_is_up_to_half_the_delay() {
    let mut batch = AttachmentsBatch::new();
    // first failure: 2 + random % 1
    batch.bump_retry_count_with(50, u64::MAX);
    assert_eq!(batch.retry_deadline, 52);
    // second failure: 4 + random % 2
    batch.bump_retry_count_with(50, 7);
    assert_eq!(batch.retry_deadline, 55);
    // third failure: 8 + random % 4
    batch.bump_retry_count_with(50, 6);
    assert_eq!(batch.retry_deadline, 60);
    // ninth failure: 512 + random % 256, capped
    batch.retry_count = 8;
    batch.bump_retry_count_with(50, 255);
    assert_eq!(batch.retry_deadline, 650);
    batch.retry_count = 8;
    batch.bump_retry_count_with(50, 87);
    assert_eq!(batch.retry_deadline, 50 + 512 + 87);
}

#[test]
fn a_drawn_retry_delay_is_within_bounds() {
    for start in [0u64, 1, 2, 5, 8, 9, 10, 63, 64, 100] {
        for _ in 0..50 {
            let mut batch = AttachmentsBatch::new();
            batch.retry_count = start;
            batch.bump_retry_count(1_000_000);
            assert_eq!(batch.retry_count, start + 1);
            assert!(batch.retry_deadline >= 1_000_002);
            assert!(batch.retry_deadline <= 1_000_000 + MAX_RETRY_DELAY);
        }
    }
    let mut batch = AttachmentsBatch::new();
    batch.bump_retry_count(77);
    assert_eq!(batch.retry_deadline, 79);
}

fn batch_with(deadline: u64, count: u32, height: u64) -> AttachmentsBatch {
    let mut batch = AttachmentsBatch::new();
    for index in 0..count {
        batch.track_attachment(&instance("names", index, index as u8 + 1, height, 1));
    }
    batch.block_height = height;
    batch.retry_deadline = deadline;
    batch
}

#[test]
fn batches_rank_by_deadline_then_size_then_height() {
    let early_small = batch_with(50, 1, 9);
    let late_large = batch_with(100, 5, 1);
    assert_eq!(early_small.compare(&late_large), Rank::Higher);
    assert_eq!(late_large.compare(&early_small), Rank::Lower);
    let large = batch_with(50, 3, 9);
    assert_eq!(large.compare(&early_small), Rank::Higher);
    assert_eq!(early_small.compare(&large), Rank::Lower);
    let low = batch_with(50, 1, 4);
    assert_eq!(low.compare(&early_small), Rank::Higher);
    assert_eq!(early_small.compare(&low), Rank::Lower);
    assert_eq!(early_small.compare(&batch_with(50, 1, 9)), Rank::Same);
}

#[test]
fn the_queue_serves_the_earlier_deadline_first() {
    let mut queue: PriorityQueue<AttachmentsBatch> = PriorityQueue::new();
    queue.push(batch_with(100, 9, 1));
    queue.push(batch_with(50, 1, 1));
    queue.push(batch_with(75, 4, 1));
    queue.push(batch_with(50, 2, 1));
    assert_eq!(queue.len(), 4);
    assert_eq!(queue.peek().map(|b| (b.retry_deadline, b.attachments_instances_count())), Some((50, 2)));
    let order: Vec<(u64, usize)> = std::iter::from_fn(|| queue.pop())
        .map(|b| (b.retry_deadline, b.attachments_instances_count()))
        .collect();
    assert_eq!(order, vec![(50, 2), (50, 1), (75, 4), (100, 9)]);
    assert!(queue.is_empty());
    assert!(queue.pop().is_none());
}

#[test]
fn equal_batches_are_served_in_the_order_they_came() {
    let mut queue: PriorityQueue<AttachmentsBatch> = PriorityQueue::new();
    let mut first = batch_with(50, 1, 1);
    first.retry_count = 1;
    let mut second = batch_with(50, 1, 1);
    second.retry_count = 2;
    queue.push(first);
    queue.push(second);
    assert_eq!(queue.pop().map(|b| b.retry_count), Some(1));
    assert_eq!(queue.pop().map(|b| b.retry_count), Some(2));
}
