//! The working set of one batch: its peers and their reports, and what
//! the lookups, the inventories and the downloads have brought so far.

use vstd::prelude::*;
use crate::batch::{
    AttachmentsBatch, missing_count, missing_of, MissingByIndex, page_of, page_requests,
};
use crate::keys::{ContractIdView, Hash160, KeyEq, QualifiedContractIdentifier};
use crate::pq::{PriorityQueue, pushed_all, Prioritized};
use crate::reliability::{ReliabilityReport, lemma_score_fits};
use crate::requests::{
    AttachmentRequest, AttachmentRequestView, AttachmentsInventoryRequest, InventoryKey,
    InventoryRequestView, lemma_best_source, Requestable, Sources, sources_view,
};
use crate::batched::BatchedRequestsResult;
use crate::dns::BatchedDNSLookupsResults;
use crate::types::{
    Attachment, AttachmentPage, ATTACHMENTS_INV_PAGE_SIZE, ConnectionOptions,
    GetAttachmentsInvResponse, HttpResponseType, SocketAddress,
};
use crate::vecmap::{
    distinct_keys, has_key, inserted, key_index, lemma_key_index, lemma_push_new,
    lemma_update_value, VecMap,
};

verus! {

/// The answers to one inventory request, by peer.
pub type InventoryByPeer = VecMap<String, GetAttachmentsInvResponse>;

/// What a batch works with and gathers on its way through the pipeline.
#[derive(Debug)]
pub struct AttachmentsBatchStateContext {
    pub attachments_batch: AttachmentsBatch,
    pub peers: VecMap<String, ReliabilityReport>,
    pub connection_options: ConnectionOptions,
    pub dns_lookups: VecMap<String, Option<Vec<SocketAddress>>>,
    pub inventories: VecMap<InventoryKey, InventoryByPeer>,
    /// The content downloaded, each piece once.
    pub attachments: Vec<Attachment>,
    pub events_to_deregister: Vec<usize>,
}

/// The inventory request for the pages `pages` of `contract` to `peer`.
pub open spec fn inventory_request_view(
    height: u64,
    block: Seq<u8>,
    contract: ContractIdView,
    peer: (String, ReliabilityReport),
    pages: Seq<u32>,
) -> InventoryRequestView {
    InventoryRequestView {
        url: peer.0@,
        contract_id: contract,
        pages,
        block_height: height,
        index_block_hash: block,
        reliability_report: peer.1,
    }
}

/// The inventory requests for one contract to one peer: one per page
/// request.
pub open spec fn inv_for_peer(
    height: u64,
    block: Seq<u8>,
    contract: ContractIdView,
    peer: (String, ReliabilityReport),
    chunks: Seq<Seq<u32>>,
) -> Seq<InventoryRequestView> {
    Seq::new(chunks.len(), |k: int| inventory_request_view(height, block, contract, peer, chunks[k]))
}

/// The inventory requests for one contract to the first `n` peers.
pub open spec fn inv_for_contract(
    height: u64,
    block: Seq<u8>,
    contract: ContractIdView,
    peers: Seq<(String, ReliabilityReport)>,
    chunks: Seq<Seq<u32>>,
    n: int,
) -> Seq<InventoryRequestView>
    decreases n,
{
    if n <= 0 {
        Seq::empty()
    } else {
        inv_for_contract(height, block, contract, peers, chunks, n - 1) + inv_for_peer(
            height,
            block,
            contract,
            peers[n - 1],
            chunks,
        )
    }
}

/// The inventory requests for the first `m` contracts of a batch: for
/// each contract, for each peer, one per page request.
pub open spec fn inv_for_batch(
    height: u64,
    block: Seq<u8>,
    contracts: Seq<(QualifiedContractIdentifier, MissingByIndex)>,
    peers: Seq<(String, ReliabilityReport)>,
    m: int,
) -> Seq<InventoryRequestView>
    decreases m,
{
    if m <= 0 {
        Seq::empty()
    } else {
        inv_for_batch(height, block, contracts, peers, m - 1) + inv_for_contract(
            height,
            block,
            contracts[m - 1].0@,
            peers,
            page_requests(contracts[m - 1].1@),
            peers.len() as int,
        )
    }
}

/// How many inventory requests the first `m` contracts call for with
/// `n_peers` peers.
pub open spec fn plan_len(
    contracts: Seq<(QualifiedContractIdentifier, MissingByIndex)>,
    n_peers: nat,
    m: int,
) -> nat
    decreases m,
{
    if m <= 0 {
        0
    } else {
        plan_len(contracts, n_peers, m - 1) + n_peers * page_requests(contracts[m - 1].1@).len()
    }
}

proof fn lemma_inv_for_contract_len(
    height: u64,
    block: Seq<u8>,
    contract: ContractIdView,
    peers: Seq<(String, ReliabilityReport)>,
    chunks: Seq<Seq<u32>>,
    n: int,
)
    requires
        0 <= n,
    ensures
        inv_for_contract(height, block, contract, peers, chunks, n).len() == n * chunks.len(),
    decreases n,
{
    if n > 0 {
        lemma_inv_for_contract_len(height, block, contract, peers, chunks, n - 1);
        assert(n * chunks.len() == (n - 1) * chunks.len() + chunks.len()) by (nonlinear_arith);
    } else {
        assert(0 * chunks.len() == 0) by (nonlinear_arith);
    }
}

/// The plan holds as many requests as `plan_len` says.
pub proof fn lemma_plan_len(
    height: u64,
    block: Seq<u8>,
    contracts: Seq<(QualifiedContractIdentifier, MissingByIndex)>,
    peers: Seq<(String, ReliabilityReport)>,
    m: int,
)
    ensures
        inv_for_batch(height, block, contracts, peers, m).len() == plan_len(contracts, peers.len(), m),
    decreases m,
{
    if m > 0 {
        lemma_plan_len(height, block, contracts, peers, m - 1);
        lemma_inv_for_contract_len(
            height,
            block,
            contracts[m - 1].0@,
            peers,
            page_requests(contracts[m - 1].1@),
            peers.len() as int,
        );
    }
}

/// How many requests a batch may take with `n_peers` peers: its
/// inventory requests and one download per missing attachment. `None`
/// where that is more than a report can count.
pub fn planned_requests(batch: &AttachmentsBatch, n_peers: usize) -> (r: Option<u32>)
    requires
        batch.wf(),
        batch.count_spec() <= usize::MAX,
    ensures
        match r {
            Some(v) => v == plan_len(
                batch.attachments_instances.entries@,
                n_peers as nat,
                batch.attachments_instances.entries@.len() as int,
            ) + batch.count_spec(),
            None => plan_len(
                batch.attachments_instances.entries@,
                n_peers as nat,
                batch.attachments_instances.entries@.len() as int,
            ) + batch.count_spec() > u32::MAX,
        },
{
    let ghost contracts = batch.attachments_instances.entries@;
    let count: usize = batch.attachments_instances_count();
    if count > u32::MAX as usize {
        return None;
    }
    let mut total: u64 = 0;
    let n: usize = batch.attachments_instances.entries.len();
    let mut i: usize = 0;
    while i < n
        invariant
            i <= n,
            n == contracts.len(),
            contracts == batch.attachments_instances.entries@,
            batch.wf(),
            total == plan_len(contracts, n_peers as nat, i as int),
            total <= u32::MAX,
        decreases n - i,
    {
        proof {
            lemma_key_index(contracts, i as int);
        }
        let chunks: usize = batch.get_paginated_missing_pages_for_contract_id(
            &batch.attachments_instances.entries[i].0,
        ).len();
        assert(chunks == page_requests(contracts[i as int].1@).len());
        let ghost rest = plan_len(contracts, n_peers as nat, n as int);
        proof {
            lemma_plan_len_monotone(contracts, n_peers as nat, i + 1, n as int);
        }
        match (n_peers as u64).checked_mul(chunks as u64) {
            Some(product) => {
                if product > u32::MAX as u64 - total {
                    return None;
                }
                total = total + product;
            },
            None => {
                return None;
            },
        }
        i += 1;
    }
    if total + count as u64 > u32::MAX as u64 {
        None
    } else {
        Some((total + count as u64) as u32)
    }
}

proof fn lemma_plan_len_monotone(
    contracts: Seq<(QualifiedContractIdentifier, MissingByIndex)>,
    n_peers: nat,
    a: int,
    b: int,
)
    requires
        a <= b,
    ensures
        plan_len(contracts, n_peers, a) <= plan_len(contracts, n_peers, b),
    decreases b - a,
{
    if a < b {
        lemma_plan_len_monotone(contracts, n_peers, a, b - 1);
        assert(n_peers * page_requests(contracts[b - 1].1@).len() >= 0) by (nonlinear_arith);
    }
}

/// The views of a sequence of inventory requests.
pub open spec fn inventory_views(requests: Seq<AttachmentsInventoryRequest>) -> Seq<
    InventoryRequestView,
> {
    Seq::new(requests.len(), |i: int| requests[i]@)
}

/// The position of the first page from `from` on with index `page_index`;
/// the number of pages where there is none.
pub open spec fn first_page_from(pages: Seq<AttachmentPage>, page_index: u32, from: int) -> int
    decreases pages.len() - from,
{
    if from < 0 || from >= pages.len() {
        pages.len() as int
    } else if pages[from].index == page_index {
        from
    } else {
        first_page_from(pages, page_index, from + 1)
    }
}

/// Whether the inventory `response` says that its peer has the attachment
/// at `position` of page `page_index`: the first page with that index has
/// a one there.
pub open spec fn has_attachment(
    response: GetAttachmentsInvResponse,
    page_index: u32,
    position: u32,
) -> bool {
    let i = first_page_from(response.pages@, page_index, 0);
    &&& 0 <= i < response.pages@.len()
    &&& position < response.pages@[i].inventory@.len()
    &&& response.pages@[i].inventory@[position as int] == 1
}

fn has_attachment_in(response: &GetAttachmentsInvResponse, page_index: u32, position: u32) -> (r:
    bool)
    ensures
        r == has_attachment(*response, page_index, position),
{
    let mut i: usize = 0;
    while i < response.pages.len() && response.pages[i].index != page_index
        invariant
            i <= response.pages@.len(),
            first_page_from(response.pages@, page_index, 0) == first_page_from(
                response.pages@,
                page_index,
                i as int,
            ),
        decreases response.pages@.len() - i,
    {
        i += 1;
    }
    if i < response.pages.len() {
        let inventory: &Vec<u8> = &response.pages[i].inventory;
        (position as usize) < inventory.len() && inventory[position as usize] == 1
    } else {
        false
    }
}

/// The peers among the first `n` of `responses` whose inventory has the
/// attachment, each with its report.
pub open spec fn sources_upto(
    responses: Seq<(String, GetAttachmentsInvResponse)>,
    peers: Map<Seq<char>, ReliabilityReport>,
    page_index: u32,
    position: u32,
    n: int,
) -> Seq<(String, ReliabilityReport)>
    decreases n,
{
    if n <= 0 {
        Seq::empty()
    } else {
        let s = sources_upto(responses, peers, page_index, position, n - 1);
        if has_attachment(responses[n - 1].1, page_index, position) {
            inserted(s, responses[n - 1].0, peers[responses[n - 1].0@])
        } else {
            s
        }
    }
}

/// The requests after the missing attachment `index` with content hash
/// `hash` was considered under an inventory of the pages `pages`: a request
/// is added if the page is among them, no request asks for that content
/// yet, and some peer has it.
pub open spec fn att_step(
    acc: Seq<AttachmentRequestView>,
    pages: Seq<u32>,
    responses: Seq<(String, GetAttachmentsInvResponse)>,
    peers: Map<Seq<char>, ReliabilityReport>,
    index: u32,
    hash: Hash160,
) -> Seq<AttachmentRequestView> {
    let page_index = page_of(index);
    let position = index % ATTACHMENTS_INV_PAGE_SIZE;
    let sources = sources_upto(responses, peers, page_index, position, responses.len() as int);
    if !pages.contains(page_index) {
        acc
    } else if asks_for(acc, hash@) {
        acc
    } else if sources.len() == 0 {
        acc
    } else {
        acc.push(AttachmentRequestView { content_hash: hash@, sources: sources_view(sources) })
    }
}

/// Whether one of `acc` asks for the content with hash `h`.
pub open spec fn asks_for(acc: Seq<AttachmentRequestView>, h: Seq<u8>) -> bool {
    exists|i: int| 0 <= i < acc.len() && #[trigger] acc[i].content_hash == h
}

/// The requests after the first `n` missing attachments of a contract
/// were considered under one inventory.
pub open spec fn att_for_entry(
    acc: Seq<AttachmentRequestView>,
    pages: Seq<u32>,
    responses: Seq<(String, GetAttachmentsInvResponse)>,
    peers: Map<Seq<char>, ReliabilityReport>,
    missing: Seq<(u32, Hash160)>,
    n: int,
) -> Seq<AttachmentRequestView>
    decreases n,
{
    if n <= 0 {
        acc
    } else {
        att_step(
            att_for_entry(acc, pages, responses, peers, missing, n - 1),
            pages,
            responses,
            peers,
            missing[n - 1].0,
            missing[n - 1].1,
        )
    }
}

/// The missing attachments of the contract `c`, none where the batch does
/// not know the contract.
pub open spec fn contract_missing(
    contracts: Seq<(QualifiedContractIdentifier, MissingByIndex)>,
    c: ContractIdView,
) -> Seq<(u32, Hash160)> {
    if has_key(contracts, c) {
        contracts[key_index(contracts, c)].1.entries@
    } else {
        Seq::empty()
    }
}

/// The attachment requests after the first `m` inventories were gone
/// through.
pub open spec fn att_for_all(
    inventories: Seq<(InventoryKey, InventoryByPeer)>,
    contracts: Seq<(QualifiedContractIdentifier, MissingByIndex)>,
    peers: Map<Seq<char>, ReliabilityReport>,
    m: int,
) -> Seq<AttachmentRequestView>
    decreases m,
{
    if m <= 0 {
        Seq::empty()
    } else {
        let missing = contract_missing(contracts, inventories[m - 1].0.contract_id@);
        att_for_entry(
            att_for_all(inventories, contracts, peers, m - 1),
            inventories[m - 1].0.pages@,
            inventories[m - 1].1.entries@,
            peers,
            missing,
            missing.len() as int,
        )
    }
}

/// The views of a sequence of attachment requests.
pub open spec fn attachment_views(requests: Seq<AttachmentRequest>) -> Seq<AttachmentRequestView> {
    Seq::new(requests.len(), |i: int| requests[i]@)
}

/// The content hashes of the first `n` contracts' missing attachments.
pub open spec fn all_hashes(
    contracts: Seq<(QualifiedContractIdentifier, MissingByIndex)>,
    n: int,
) -> Seq<Seq<u8>>
    decreases n,
{
    if n <= 0 {
        Seq::empty()
    } else {
        all_hashes(contracts, n - 1) + Seq::new(
            contracts[n - 1].1.entries@.len(),
            |j: int| contracts[n - 1].1.entries@[j].1@,
        )
    }
}

proof fn lemma_all_hashes(contracts: Seq<(QualifiedContractIdentifier, MissingByIndex)>, n: int)
    requires
        0 <= n <= contracts.len(),
    ensures
        all_hashes(contracts, n).len() == missing_count(contracts, n),
        forall|i: int, j: int|
            0 <= i < n && 0 <= j < contracts[i].1.entries@.len() ==> all_hashes(contracts, n).contains(
                (#[trigger] contracts[i].1.entries@[j]).1@,
            ),
    decreases n,
{
    if n > 0 {
        lemma_all_hashes(contracts, n - 1);
        let prev = all_hashes(contracts, n - 1);
        let last = Seq::new(
            contracts[n - 1].1.entries@.len(),
            |j: int| contracts[n - 1].1.entries@[j].1@,
        );
        assert forall|i: int, j: int|
            0 <= i < n && 0 <= j < contracts[i].1.entries@.len() implies all_hashes(
            contracts,
            n,
        ).contains((#[trigger] contracts[i].1.entries@[j]).1@) by {
            let h = contracts[i].1.entries@[j].1@;
            if i < n - 1 {
                assert(prev.contains(h));
                let a = choose|a: int| 0 <= a < prev.len() && prev[a] == h;
                assert((prev + last)[a] == h);
            } else {
                assert((prev + last)[prev.len() + j] == h);
            }
        }
    }
}

/// Requests for distinct content, each for content that is missing, are no
/// more than the missing attachments.
proof fn lemma_requests_bound(
    hashes: Seq<Seq<u8>>,
    contracts: Seq<(QualifiedContractIdentifier, MissingByIndex)>,
)
    requires
        hashes.no_duplicates(),
        forall|a: int|
            0 <= a < hashes.len() ==> all_hashes(contracts, contracts.len() as int).contains(
                #[trigger] hashes[a],
            ),
    ensures
        hashes.len() <= missing_count(contracts, contracts.len() as int),
{
    let all = all_hashes(contracts, contracts.len() as int);
    lemma_all_hashes(contracts, contracts.len() as int);
    hashes.unique_seq_to_set();
    vstd::seq_lib::seq_to_set_is_finite(all);
    vstd::seq_lib::seq_to_set_is_finite(hashes);
    all.lemma_cardinality_of_set();
    assert(hashes.to_set().subset_of(all.to_set())) by {
        assert forall|h: Seq<u8>| hashes.to_set().contains(h) implies all.to_set().contains(h) by {
            let a = choose|a: int| 0 <= a < hashes.len() && hashes[a] == h;
            assert(all.contains(hashes[a]));
        }
    }
    vstd::set_lib::lemma_len_subset(hashes.to_set(), all.to_set());
}

/// The inventories as a map: by request key, then by peer.
pub open spec fn inventories_map(m: VecMap<InventoryKey, InventoryByPeer>) -> Map<
    (ContractIdView, Seq<u32>, Seq<u8>),
    Map<Seq<char>, GetAttachmentsInvResponse>,
> {
    m@.map_values(|inner: InventoryByPeer| inner@)
}

/// What merging the answers of a round changes.
pub struct MergeTables {
    pub peers: Map<Seq<char>, ReliabilityReport>,
    pub inventories: Map<
        (ContractIdView, Seq<u32>, Seq<u8>),
        Map<Seq<char>, GetAttachmentsInvResponse>,
    >,
    /// The content downloaded, each piece once, as it came in.
    pub attachments: Seq<Seq<u8>>,
}

/// The answers filed under `key`, none where there are none yet.
pub open spec fn answers_under(
    m: Map<(ContractIdView, Seq<u32>, Seq<u8>), Map<Seq<char>, GetAttachmentsInvResponse>>,
    key: (ContractIdView, Seq<u32>, Seq<u8>),
) -> Map<Seq<char>, GetAttachmentsInvResponse> {
    if m.contains_key(key) {
        m[key]
    } else {
        Map::empty()
    }
}

/// The tables after the answer to one inventory request was merged: an
/// inventory is filed under the request's key and its peer, and counts as
/// a success of that peer; any other answer counts as a failure.
pub open spec fn merge_inventory(
    t: MergeTables,
    request: AttachmentsInventoryRequest,
    response: Option<HttpResponseType>,
) -> MergeTables {
    let url = request.url@;
    let key = (request.contract_id@, request.pages@, request.index_block_hash@);
    match response {
        Some(HttpResponseType::GetAttachmentsInv(inventory)) => MergeTables {
            peers: t.peers.insert(url, t.peers[url].bumped_success()),
            inventories: t.inventories.insert(
                key,
                answers_under(t.inventories, key).insert(url, inventory),
            ),
            ..t
        },
        _ => MergeTables { peers: t.peers.insert(url, t.peers[url].bumped_failure()), ..t },
    }
}

/// The tables after all answers to inventory requests were merged, from
/// the last to the first.
pub open spec fn merge_inventories(
    t: MergeTables,
    answers: Seq<(AttachmentsInventoryRequest, Option<HttpResponseType>)>,
) -> MergeTables
    decreases answers.len(),
{
    if answers.len() == 0 {
        t
    } else {
        merge_inventories(
            merge_inventory(t, answers.last().0, answers.last().1),
            answers.drop_last(),
        )
    }
}

/// The tables after the answer to one attachment request was merged:
/// content is kept unless the same content is there already, and counts
/// as a success of the peer asked; any other answer counts as a failure.
pub open spec fn merge_attachment(
    t: MergeTables,
    request: AttachmentRequest,
    response: Option<HttpResponseType>,
) -> MergeTables {
    let url = request.url_spec()@;
    match response {
        Some(HttpResponseType::GetAttachment(attachment)) => MergeTables {
            peers: t.peers.insert(url, t.peers[url].bumped_success()),
            attachments: if t.attachments.contains(attachment@) {
                t.attachments
            } else {
                t.attachments.push(attachment@)
            },
            ..t
        },
        _ => MergeTables { peers: t.peers.insert(url, t.peers[url].bumped_failure()), ..t },
    }
}

/// The tables after all answers to attachment requests were merged, from
/// the last to the first.
pub open spec fn merge_attachments(
    t: MergeTables,
    answers: Seq<(AttachmentRequest, Option<HttpResponseType>)>,
) -> MergeTables
    decreases answers.len(),
{
    if answers.len() == 0 {
        t
    } else {
        merge_attachments(
            merge_attachment(t, answers.last().0, answers.last().1),
            answers.drop_last(),
        )
    }
}

/// The event IDs of the peers that failed.
pub open spec fn faulty_event_ids(faulty: Seq<(usize, String)>) -> Seq<usize> {
    Seq::new(faulty.len(), |i: int| faulty[i].0)
}

/// The contents of a list of attachments.
pub open spec fn contents(attachments: Seq<Attachment>) -> Seq<Seq<u8>> {
    Seq::new(attachments.len(), |i: int| attachments[i]@)
}

/// Counts one more request for the peer `url`, successful or not.
fn bump_peer(peers: &mut VecMap<String, ReliabilityReport>, url: &String, success: bool)
    requires
        old(peers).wf(),
        old(peers)@.contains_key(url@),
        old(peers)@[url@].total_requests_sent < u32::MAX,
        old(peers)@[url@].wf(),
    ensures
        final(peers).wf(),
        final(peers).entries@.len() == old(peers).entries@.len(),
        final(peers)@ == old(peers)@.insert(
            url@,
            if success {
                old(peers)@[url@].bumped_success()
            } else {
                old(peers)@[url@].bumped_failure()
            },
        ),
        final(peers)@.dom() == old(peers)@.dom(),
        forall|i: int|
            0 <= i < old(peers).entries@.len() ==> {
                &&& (#[trigger] final(peers).entries@[i]).0 == old(peers).entries@[i].0
                &&& final(peers).entries@[i].1.total_requests_sent <= old(
                    peers,
                ).entries@[i].1.total_requests_sent + 1
                &&& (old(peers).entries@[i].1.wf() ==> final(peers).entries@[i].1.wf())
            },
{
    let found = peers.find(url);
    let at: usize = found.unwrap();
    proof {
        lemma_key_index(peers.entries@, at as int);
    }
    if success {
        peers.entries[at].1.bump_successful_requests();
    } else {
        peers.entries[at].1.bump_failed_requests();
    }
    proof {
        let e = peers.entries@[at as int];
        assert(peers.entries@ =~= old(peers).entries@.update(at as int, e));
        lemma_update_value(old(peers).entries@, at as int, e.0, e.1);
        assert(peers@.dom() =~= old(peers)@.dom());
    }
}

fn holds_content(attachments: &Vec<Attachment>, attachment: &Attachment) -> (r: bool)
    ensures
        r == contents(attachments@).contains(attachment@),
{
    let mut i: usize = 0;
    while i < attachments.len()
        invariant
            i <= attachments@.len(),
            forall|j: int| 0 <= j < i ==> contents(attachments@)[j] != attachment@,
        decreases attachments@.len() - i,
    {
        if attachments[i].key_eq(attachment) {
            assert(contents(attachments@)[i as int] == attachment@);
            return true;
        }
        i += 1;
    }
    false
}

fn pages_contain(pages: &Vec<u32>, page_index: u32) -> (r: bool)
    ensures
        r == pages@.contains(page_index),
{
    let mut i: usize = 0;
    while i < pages.len()
        invariant
            i <= pages@.len(),
            forall|j: int| 0 <= j < i ==> pages@[j] != page_index,
        decreases pages@.len() - i,
    {
        if pages[i] == page_index {
            return true;
        }
        i += 1;
    }
    false
}

fn is_enqueued(enqueued: &Vec<Hash160>, hash: &Hash160) -> (r: bool)
    ensures
        r == exists|i: int| 0 <= i < enqueued@.len() && (#[trigger] enqueued@[i])@ == hash@,
{
    let mut i: usize = 0;
    while i < enqueued.len()
        invariant
            i <= enqueued@.len(),
            forall|j: int| 0 <= j < i ==> (#[trigger] enqueued@[j])@ != hash@,
        decreases enqueued@.len() - i,
    {
        if enqueued[i].key_eq(hash) {
            return true;
        }
        i += 1;
    }
    false
}

impl AttachmentsBatchStateContext {
    /// The tables list nothing twice, every peer that answered is a peer
    /// of the batch, and no report counts more successes than requests.
    pub open spec fn wf(&self) -> bool {
        &&& self.attachments_batch.wf()
        &&& self.peers.wf()
        &&& self.dns_lookups.wf()
        &&& self.inventories.wf()
        &&& forall|i: int|
            0 <= i < self.inventories.entries@.len() ==> (#[trigger] self.inventories.entries@[i]).1.wf()
        &&& forall|i: int, j: int|
            0 <= i < self.inventories.entries@.len() && 0 <= j
                < self.inventories.entries@[i].1.entries@.len() ==> self.peers@.contains_key(
                (#[trigger] self.inventories.entries@[i].1.entries@[j]).0@,
            )
        &&& forall|i: int, j: int|
            0 <= i < j < self.attachments@.len() ==> self.attachments@[i]@ != self.attachments@[j]@
        &&& forall|i: int| 0 <= i < self.peers.entries@.len() ==> (#[trigger] self.peers.entries@[i]).1.wf()
    }

    /// Every peer's report can count `budget` more requests.
    pub open spec fn headroom(&self, budget: nat) -> bool {
        forall|i: int|
            0 <= i < self.peers.entries@.len() ==> (#[trigger] self.peers.entries@[i]).1.total_requests_sent
                + budget < u32::MAX
    }

    /// The inventory requests this batch calls for.
    pub open spec fn inventory_plan(&self) -> Seq<InventoryRequestView> {
        inv_for_batch(
            self.attachments_batch.block_height,
            self.attachments_batch.index_block_hash@,
            self.attachments_batch.attachments_instances.entries@,
            self.peers.entries@,
            self.attachments_batch.attachments_instances.entries@.len() as int,
        )
    }

    /// The attachment requests the inventories call for.
    pub open spec fn attachment_plan(&self) -> Seq<AttachmentRequestView> {
        att_for_all(
            self.inventories.entries@,
            self.attachments_batch.attachments_instances.entries@,
            self.peers@,
            self.inventories.entries@.len() as int,
        )
    }

    /// The peers whose inventory has the attachment at `position` of page
    /// `page_index`, each with its report.
    fn collect_sources(&self, responses: &InventoryByPeer, page_index: u32, position: u32) -> (sources:
        Sources)
        requires
            self.wf(),
            self.headroom(0),
            responses.wf(),
            forall|j: int|
                0 <= j < responses.entries@.len() ==> self.peers@.contains_key(
                    (#[trigger] responses.entries@[j]).0@,
                ),
        ensures
            sources.wf(),
            sources.entries@ == sources_upto(
                responses.entries@,
                self.peers@,
                page_index,
                position,
                responses.entries@.len() as int,
            ),
            forall|j: int|
                0 <= j < sources.entries@.len() ==> {
                    &&& self.peers@.contains_key((#[trigger] sources.entries@[j]).0@)
                    &&& sources.entries@[j].1.score_spec() <= u32::MAX
                },
    {
        let mut sources: Sources = VecMap::new();
        let mut j: usize = 0;
        while j < responses.entries.len()
            invariant
                j <= responses.entries@.len(),
                self.wf(),
                self.headroom(0),
                responses.wf(),
                forall|j: int|
                    0 <= j < responses.entries@.len() ==> self.peers@.contains_key(
                        (#[trigger] responses.entries@[j]).0@,
                    ),
                sources.wf(),
                sources.entries@ == sources_upto(
                    responses.entries@,
                    self.peers@,
                    page_index,
                    position,
                    j as int,
                ),
                forall|a: int|
                    0 <= a < sources.entries@.len() ==> {
                        &&& self.peers@.contains_key((#[trigger] sources.entries@[a]).0@)
                        &&& sources.entries@[a].1.score_spec() <= u32::MAX
                    },
            decreases responses.entries@.len() - j,
        {
            let peer_url: &String = &responses.entries[j].0;
            let response: &GetAttachmentsInvResponse = &responses.entries[j].1;
            if has_attachment_in(response, page_index, position) {
                let found = self.peers.find(peer_url);
                assert(found is Some);
                let at: usize = found.unwrap();
                let report: ReliabilityReport = self.peers.entries[at].1;
                proof {
                    lemma_key_index(self.peers.entries@, at as int);
                    lemma_score_fits(report);
                }
                let ghost before = sources.entries@;
                sources.insert(peer_url.clone(), report);
                assert forall|a: int| 0 <= a < sources.entries@.len() implies {
                    &&& self.peers@.contains_key((#[trigger] sources.entries@[a]).0@)
                    &&& sources.entries@[a].1.score_spec() <= u32::MAX
                } by {
                    if sources.entries@[a] != (*peer_url, report) {
                        assert(sources.entries@[a] == before[a]);
                    }
                }
            }
            j += 1;
        }
        sources
    }

    /// The attachment requests the inventories call for, the request with
    /// the most sources first: one per missing content that lies on a page
    /// an inventory covers and that some peer has, its sources being the
    /// peers of the first inventory that shows it.
    pub fn get_prioritized_attachments_requests(&self) -> (queue: PriorityQueue<AttachmentRequest>)
        requires
            self.wf(),
            self.headroom(0),
        ensures
            queue.wf(),
            queue.items@.len() == self.attachment_plan().len(),
            queue.items@.len() <= self.attachments_batch.count_spec(),
            exists|requests: Seq<AttachmentRequest>|
                attachment_views(requests) == self.attachment_plan() && queue.items@ == pushed_all(
                    requests,
                ),
            forall|i: int|
                0 <= i < queue.items@.len() ==> self.peers@.contains_key(
                    (#[trigger] queue.items@[i]).url_spec()@,
                ),
    {
        let mut queue: PriorityQueue<AttachmentRequest> = PriorityQueue::new();
        let mut enqueued: Vec<Hash160> = Vec::new();
        let ghost mut requests: Seq<AttachmentRequest> = Seq::empty();
        let ghost contracts = self.attachments_batch.attachments_instances.entries@;
        let ghost inventories = self.inventories.entries@;
        let ghost peers = self.peers@;
        let n: usize = self.inventories.entries.len();
        assert(attachment_views(requests) =~= att_for_all(inventories, contracts, peers, 0));
        let mut i: usize = 0;
        while i < n
            invariant
                i <= n,
                n == inventories.len(),
                self.wf(),
                self.headroom(0),
                contracts == self.attachments_batch.attachments_instances.entries@,
                inventories == self.inventories.entries@,
                peers == self.peers@,
                queue.wf(),
                queue.items@ == pushed_all(requests),
                queue.items@.len() == requests.len(),
                attachment_views(requests) == att_for_all(inventories, contracts, peers, i as int),
                enqueued@.len() == requests.len(),
                forall|a: int|
                    0 <= a < requests.len() ==> (#[trigger] enqueued@[a])@
                        == requests[a].content_hash@,
                forall|a: int, b: int|
                    0 <= a < b < requests.len() ==> requests[a].content_hash@ != requests[b].content_hash@,
                forall|a: int|
                    0 <= a < requests.len() ==> {
                        &&& (#[trigger] requests[a]).comparable()
                        &&& self.peers@.contains_key(requests[a].url_spec()@)
                        &&& all_hashes(contracts, contracts.len() as int).contains(
                            requests[a].content_hash@,
                        )
                    },
            decreases n - i,
        {
            let key: &InventoryKey = &self.inventories.entries[i].0;
            let peers_responses: &InventoryByPeer = &self.inventories.entries[i].1;
            let ghost missing = contract_missing(contracts, key.contract_id@);
            let ghost acc0 = att_for_all(inventories, contracts, peers, i as int);
            match self.attachments_batch.attachments_instances.find(&key.contract_id) {
                None => {
                    assert(missing.len() == 0);
                },
                Some(c) => {
                    let missing_attachments: &MissingByIndex =
                        &self.attachments_batch.attachments_instances.entries[c].1;
                    assert(missing == missing_attachments.entries@);
                    let m_len: usize = missing_attachments.entries.len();
                    let mut m: usize = 0;
                    while m < m_len
                        invariant
                            m <= m_len,
                            i < n,
                            n == inventories.len(),
                            c < contracts.len(),
                            m_len == missing.len(),
                            missing == missing_attachments.entries@,
                            missing == contracts[c as int].1.entries@,
                            self.wf(),
                            self.headroom(0),
                            contracts == self.attachments_batch.attachments_instances.entries@,
                            inventories == self.inventories.entries@,
                            *key == inventories[i as int].0,
                            *peers_responses == inventories[i as int].1,
                            peers == self.peers@,
                            queue.wf(),
                            queue.items@ == pushed_all(requests),
                            queue.items@.len() == requests.len(),
                            attachment_views(requests) == att_for_entry(
                                acc0,
                                key.pages@,
                                peers_responses.entries@,
                                peers,
                                missing,
                                m as int,
                            ),
                            enqueued@.len() == requests.len(),
                            forall|a: int|
                                0 <= a < requests.len() ==> (#[trigger] enqueued@[a])@
                                    == requests[a].content_hash@,
                            forall|a: int, b: int|
                                0 <= a < b < requests.len() ==> requests[a].content_hash@
                                    != requests[b].content_hash@,
                            forall|a: int|
                                0 <= a < requests.len() ==> {
                                    &&& (#[trigger] requests[a]).comparable()
                                    &&& self.peers@.contains_key(requests[a].url_spec()@)
                                    &&& all_hashes(contracts, contracts.len() as int).contains(
                                        requests[a].content_hash@,
                                    )
                                },
                        decreases m_len - m,
                    {
                        let attachment_index: u32 = missing_attachments.entries[m].0;
                        let content_hash: Hash160 = missing_attachments.entries[m].1;
                        let page_index: u32 = attachment_index / ATTACHMENTS_INV_PAGE_SIZE;
                        let position_in_page: u32 = attachment_index % ATTACHMENTS_INV_PAGE_SIZE;
                        let ghost acc = attachment_views(requests);
                        if pages_contain(&key.pages, page_index) {
                            let already: bool = is_enqueued(&enqueued, &content_hash);
                            proof {
                                if already {
                                    let a = choose|a: int|
                                        0 <= a < enqueued@.len() && (#[trigger] enqueued@[a])@
                                            == content_hash@;
                                    assert(acc[a].content_hash == content_hash@);
                                }
                                if asks_for(acc, content_hash@) {
                                    let a = choose|a: int|
                                        0 <= a < acc.len() && #[trigger] acc[a].content_hash
                                            == content_hash@;
                                    assert(enqueued@[a]@ == content_hash@);
                                }
                            }
                            if !already {
                                assert(self.inventories.entries@[i as int].1.wf());
                                let sources = self.collect_sources(
                                    peers_responses,
                                    page_index,
                                    position_in_page,
                                );
                                if !sources.is_empty() {
                                    let request = AttachmentRequest { sources, content_hash };
                                    proof {
                                        let before = requests;
                                        requests = requests.push(request);
                                        assert(requests.drop_last() =~= before);
                                        assert(attachment_views(requests) =~= acc.push(request@));
                                        lemma_best_source(
                                            request.sources.entries@,
                                            request.sources.entries@.len() as int,
                                        );
                                        lemma_all_hashes(contracts, contracts.len() as int);
                                        assert(contracts[c as int].1.entries@[m as int].1@
                                            == content_hash@);
                                        assert forall|a: int, b: int|
                                            0 <= a < b < requests.len() implies requests[a].content_hash@
                                            != requests[b].content_hash@ by {
                                            if b == requests.len() - 1 {
                                                assert(acc[a].content_hash == before[a].content_hash@);
                                            }
                                        }
                                    }
                                    enqueued.push(content_hash);
                                    queue.push(request);
                                }
                            }
                        }
                        m += 1;
                    }
                },
            }
            i += 1;
        }
        proof {
            crate::pq::lemma_pushed_all(requests);
            assert forall|a: int| 0 <= a < queue.items@.len() implies self.peers@.contains_key(
                (#[trigger] queue.items@[a]).url_spec()@,
            ) by {
                assert(pushed_all(requests).contains(queue.items@[a]));
                assert(requests.contains(queue.items@[a]));
                let b = choose|b: int| 0 <= b < requests.len() && requests[b] == queue.items@[a];
                assert(self.peers@.contains_key(requests[b].url_spec()@));
            }
            assert(attachment_views(requests).len() == requests.len());
            let hashes = Seq::new(requests.len(), |a: int| requests[a].content_hash@);
            assert(hashes.no_duplicates());
            assert forall|a: int| 0 <= a < hashes.len() implies all_hashes(
                contracts,
                contracts.len() as int,
            ).contains(#[trigger] hashes[a]) by {
                assert(requests[a].comparable());
            }
            lemma_requests_bound(hashes, contracts);
        }
        queue
    }

    /// What merging changes, as it stands.
    pub open spec fn tables(&self) -> MergeTables {
        MergeTables {
            peers: self.peers@,
            inventories: inventories_map(self.inventories),
            attachments: contents(self.attachments@),
        }
    }

    /// Takes over the addresses a lookup round found; where both know a
    /// URL, the round's result stands.
    pub fn extend_with_dns_lookups(self, results: BatchedDNSLookupsResults) -> (r:
        AttachmentsBatchStateContext)
        requires
            self.wf(),
            results.wf(),
        ensures
            r.wf(),
            r.dns_lookups@ == self.dns_lookups@.union_prefer_right(results.dns_lookups@),
            r.attachments_batch == self.attachments_batch,
            r.peers == self.peers,
            r.connection_options == self.connection_options,
            r.inventories == self.inventories,
            r.attachments == self.attachments,
            r.events_to_deregister == self.events_to_deregister,
    {
        let mut ctx = self;
        let mut found: Vec<(String, Option<Vec<SocketAddress>>)> = results.dns_lookups.entries;
        let ghost found0 = found@;
        let ghost mine0 = self.dns_lookups@;
        while found.len() > 0
            invariant
                found@.len() <= found0.len(),
                found@ == found0.subrange(0, found@.len() as int),
                distinct_keys(found0),
                mine0 == self.dns_lookups@,
                ctx.wf(),
                ctx.attachments_batch == self.attachments_batch,
                ctx.peers == self.peers,
                ctx.connection_options == self.connection_options,
                ctx.inventories == self.inventories,
                ctx.attachments == self.attachments,
                ctx.events_to_deregister == self.events_to_deregister,
                forall|k: Seq<char>|
                    ctx.dns_lookups@.contains_key(k) <==> (mine0.contains_key(k) || exists|a: int|
                        found@.len() <= a < found0.len() && #[trigger] found0[a].0@ == k),
                forall|a: int|
                    found@.len() <= a < found0.len() ==> ctx.dns_lookups@[(#[trigger] found0[a]).0@]
                        == found0[a].1,
                forall|k: Seq<char>|
                    mine0.contains_key(k) && !(exists|a: int|
                        found@.len() <= a < found0.len() && #[trigger] found0[a].0@ == k)
                        ==> #[trigger] ctx.dns_lookups@[k] == mine0[k],
            decreases found@.len(),
        {
            let ghost before = ctx.dns_lookups@;
            let ghost j = found@.len() - 1;
            let (k, v) = found.pop().unwrap();
            assert(found@ =~= found0.subrange(0, j));
            assert((k, v) == found0[j]);
            ctx.dns_lookups.insert(k, v);
            assert forall|a: int| j <= a < found0.len() implies ctx.dns_lookups@[(
            #[trigger] found0[a]).0@] == found0[a].1 by {
                if a > j {
                    assert(found0[j].0@ != found0[a].0@);
                }
            }
            assert forall|q: Seq<char>|
                mine0.contains_key(q) && !(exists|a: int|
                    j <= a < found0.len() && #[trigger] found0[a].0@ == q)
                    implies #[trigger] ctx.dns_lookups@[q] == mine0[q] by {
                assert(found0[j].0@ != q);
                assert(!(exists|a: int| j + 1 <= a < found0.len() && #[trigger] found0[a].0@ == q));
            }
        }
        proof {
            let theirs = results.dns_lookups@;
            assert forall|k: Seq<char>| ctx.dns_lookups@.contains_key(k) <==> (mine0.contains_key(k)
                || theirs.contains_key(k)) by {
                if theirs.contains_key(k) {
                    let a = key_index(found0, k);
                    assert(found0[a].0@ == k);
                }
            }
            assert forall|k: Seq<char>| ctx.dns_lookups@.contains_key(k) implies ctx.dns_lookups@[k]
                == mine0.union_prefer_right(theirs)[k] by {
                if theirs.contains_key(k) {
                    let a = key_index(found0, k);
                    lemma_key_index(found0, a);
                    assert(ctx.dns_lookups@[found0[a].0@] == found0[a].1);
                } else {
                    assert(!(exists|a: int| 0 <= a < found0.len() && #[trigger] found0[a].0@ == k));
                }
            }
            assert(ctx.dns_lookups@ =~= mine0.union_prefer_right(theirs));
        }
        ctx
    }

    /// Appends the event IDs of the peers that failed.
    fn note_faulty(&mut self, faulty: &VecMap<usize, String>)
        ensures
            final(self).events_to_deregister@ == old(self).events_to_deregister@ + faulty_event_ids(
                faulty.entries@,
            ),
            final(self).attachments_batch == old(self).attachments_batch,
            final(self).peers == old(self).peers,
            final(self).connection_options == old(self).connection_options,
            final(self).dns_lookups == old(self).dns_lookups,
            final(self).inventories == old(self).inventories,
            final(self).attachments == old(self).attachments,
    {
        let mut i: usize = 0;
        while i < faulty.entries.len()
            invariant
                i <= faulty.entries@.len(),
                self.events_to_deregister@ == old(self).events_to_deregister@ + faulty_event_ids(
                    faulty.entries@,
                ).subrange(0, i as int),
                self.attachments_batch == old(self).attachments_batch,
                self.peers == old(self).peers,
                self.connection_options == old(self).connection_options,
                self.dns_lookups == old(self).dns_lookups,
                self.inventories == old(self).inventories,
                self.attachments == old(self).attachments,
            decreases faulty.entries@.len() - i,
        {
            self.events_to_deregister.push(faulty.entries[i].0);
            i += 1;
            assert(self.events_to_deregister@ =~= old(self).events_to_deregister@ + faulty_event_ids(
                faulty.entries@,
            ).subrange(0, i as int));
        }
        assert(faulty_event_ids(faulty.entries@).subrange(0, faulty.entries@.len() as int)
            =~= faulty_event_ids(faulty.entries@));
    }

    /// Files the answer `inventory` of the peer `url` under `key`.
    fn file_inventory(&mut self, key: InventoryKey, url: String, inventory: GetAttachmentsInvResponse)
        requires
            old(self).wf(),
            old(self).peers@.contains_key(url@),
        ensures
            final(self).wf(),
            inventories_map(final(self).inventories) == inventories_map(old(self).inventories).insert(
                key@,
                answers_under(inventories_map(old(self).inventories), key@).insert(url@, inventory),
            ),
            final(self).inventories.entries@.len() <= old(self).inventories.entries@.len() + 1,
            final(self).attachments_batch == old(self).attachments_batch,
            final(self).peers == old(self).peers,
            final(self).connection_options == old(self).connection_options,
            final(self).dns_lookups == old(self).dns_lookups,
            final(self).attachments == old(self).attachments,
            final(self).events_to_deregister == old(self).events_to_deregister,
    {
        let ghost entries0 = self.inventories.entries@;
        let ghost map0 = inventories_map(self.inventories);
        match self.inventories.find(&key) {
            Some(i) => {
                proof {
                    lemma_key_index(entries0, i as int);
                }
                let ghost inner0 = entries0[i as int].1.entries@;
                self.inventories.entries[i].1.insert(url, inventory);
                let ghost e = self.inventories.entries@[i as int];
                assert(self.inventories.entries@ =~= entries0.update(i as int, e));
                proof {
                    lemma_update_value(entries0, i as int, e.0, e.1);
                    assert(inventories_map(self.inventories) =~= map0.insert(
                        key@,
                        answers_under(map0, key@).insert(url@, inventory),
                    ));
                    assert forall|a: int, b: int|
                        0 <= a < self.inventories.entries@.len() && 0 <= b
                            < self.inventories.entries@[a].1.entries@.len()
                            implies self.peers@.contains_key(
                        (#[trigger] self.inventories.entries@[a].1.entries@[b]).0@,
                    ) by {
                        if a == i {
                            if self.inventories.entries@[a].1.entries@[b].0@ != url@ {
                                assert(self.inventories.entries@[a].1.entries@[b] == inner0[b]);
                                assert(self.peers@.contains_key(entries0[a].1.entries@[b].0@));
                            }
                        } else {
                            assert(self.peers@.contains_key(entries0[a].1.entries@[b].0@));
                        }
                    }
                }
            },
            None => {
                let mut responses: InventoryByPeer = VecMap::new();
                responses.insert(url, inventory);
                proof {
                    lemma_push_new(entries0, key, responses);
                }
                self.inventories.insert(key, responses);
                proof {
                    assert(inventories_map(self.inventories) =~= map0.insert(
                        key@,
                        answers_under(map0, key@).insert(url@, inventory),
                    ));
                    assert forall|a: int, b: int|
                        0 <= a < self.inventories.entries@.len() && 0 <= b
                            < self.inventories.entries@[a].1.entries@.len()
                            implies self.peers@.contains_key(
                        (#[trigger] self.inventories.entries@[a].1.entries@[b]).0@,
                    ) by {
                        if a < entries0.len() {
                            assert(self.peers@.contains_key(entries0[a].1.entries@[b].0@));
                        }
                    }
                }
            },
        }
    }

    /// Merges the answers to the inventory requests: each inventory is
    /// filed under its request and peer and counts as a success of the
    /// peer, any other answer as a failure, and the events of the peers
    /// that failed are noted for deregistration.
    pub fn extend_with_inventories(
        self,
        results: BatchedRequestsResult<AttachmentsInventoryRequest>,
    ) -> (r: AttachmentsBatchStateContext)
        requires
            self.wf(),
            results.wf(),
            self.headroom(results.succeeded.entries@.len()),
            forall|i: int|
                0 <= i < results.succeeded.entries@.len() ==> self.peers@.contains_key(
                    (#[trigger] results.succeeded.entries@[i]).0.url@,
                ),
        ensures
            r.wf(),
            r.tables() == merge_inventories(self.tables(), results.succeeded.entries@),
            r.events_to_deregister@ == self.events_to_deregister@ + faulty_event_ids(
                results.faulty_peers.entries@,
            ),
            r.attachments_batch == self.attachments_batch,
            r.connection_options == self.connection_options,
            r.dns_lookups == self.dns_lookups,
            r.attachments == self.attachments,
            r.peers@.dom() == self.peers@.dom(),
            r.peers.entries@.len() == self.peers.entries@.len(),
            forall|i: int|
                0 <= i < r.peers.entries@.len() ==> (#[trigger] r.peers.entries@[i]).1.total_requests_sent
                    <= self.peers.entries@[i].1.total_requests_sent + results.succeeded.entries@.len(),
            r.inventories.entries@.len() <= self.inventories.entries@.len()
                + results.succeeded.entries@.len(),
    {
        let mut ctx = self;
        let BatchedRequestsResult { remaining, succeeded, errors, faulty_peers } = results;
        let mut answers: Vec<(AttachmentsInventoryRequest, Option<HttpResponseType>)> =
            succeeded.entries;
        let ghost answers0 = answers@;
        let ghost peers0 = self.peers.entries@;
        while answers.len() > 0
            invariant
                answers@.len() <= answers0.len(),
                answers@ == answers0.subrange(0, answers@.len() as int),
                peers0 == self.peers.entries@,
                ctx.wf(),
                ctx.peers@.dom() == self.peers@.dom(),
                ctx.peers.entries@.len() == peers0.len(),
                forall|i: int|
                    0 <= i < answers0.len() ==> self.peers@.contains_key(
                        (#[trigger] answers0[i]).0.url@,
                    ),
                forall|i: int|
                    0 <= i < peers0.len() ==> (#[trigger] peers0[i]).1.total_requests_sent
                        + answers0.len() < u32::MAX,
                forall|i: int|
                    0 <= i < peers0.len() ==> (#[trigger] ctx.peers.entries@[i]).1.total_requests_sent
                        <= peers0[i].1.total_requests_sent + (answers0.len() - answers@.len()),
                ctx.inventories.entries@.len() <= self.inventories.entries@.len() + (answers0.len()
                    - answers@.len()),
                merge_inventories(ctx.tables(), answers@) == merge_inventories(
                    self.tables(),
                    answers0,
                ),
                ctx.events_to_deregister == self.events_to_deregister,
                ctx.attachments_batch == self.attachments_batch,
                ctx.connection_options == self.connection_options,
                ctx.dns_lookups == self.dns_lookups,
                ctx.attachments == self.attachments,
            decreases answers@.len(),
        {
            let ghost before = answers@;
            let ghost t = ctx.tables();
            let ghost inv_len = ctx.inventories.entries@.len();
            let (request, response) = answers.pop().unwrap();
            assert(answers@ =~= before.drop_last());
            assert((request, response) == answers0[answers@.len() as int]);
            let url: String = request.url.clone();
            proof {
                let at = key_index(ctx.peers.entries@, url@);
                lemma_key_index(ctx.peers.entries@, at);
            }
            match response {
                Some(HttpResponseType::GetAttachmentsInv(inventory)) => {
                    let key = request.key();
                    ctx.file_inventory(key, url.clone(), inventory);
                    bump_peer(&mut ctx.peers, &url, true);
                },
                _ => {
                    bump_peer(&mut ctx.peers, &url, false);
                },
            }
            assert(ctx.tables() == merge_inventory(t, request, response));
            assert(ctx.wf());
        }
        ctx.note_faulty(&faulty_peers);
        ctx
    }

    /// Merges the answers to the attachment requests: content is kept,
    /// each piece once, and counts as a success of the peer asked, any
    /// other answer as a failure, and the events of the peers that failed
    /// are noted for deregistration.
    pub fn extend_with_attachments(self, results: BatchedRequestsResult<AttachmentRequest>) -> (r:
        AttachmentsBatchStateContext)
        requires
            self.wf(),
            results.wf(),
            self.headroom(results.succeeded.entries@.len()),
            forall|i: int|
                0 <= i < results.succeeded.entries@.len() ==> self.peers@.contains_key(
                    (#[trigger] results.succeeded.entries@[i]).0.url_spec()@,
                ),
        ensures
            r.wf(),
            r.tables() == merge_attachments(self.tables(), results.succeeded.entries@),
            r.events_to_deregister@ == self.events_to_deregister@ + faulty_event_ids(
                results.faulty_peers.entries@,
            ),
            r.attachments_batch == self.attachments_batch,
            r.connection_options == self.connection_options,
            r.dns_lookups == self.dns_lookups,
            r.inventories == self.inventories,
            r.peers@.dom() == self.peers@.dom(),
            r.peers.entries@.len() == self.peers.entries@.len(),
            forall|i: int|
                0 <= i < r.peers.entries@.len() ==> (#[trigger] r.peers.entries@[i]).1.total_requests_sent
                    <= self.peers.entries@[i].1.total_requests_sent + results.succeeded.entries@.len(),
    {
        let mut ctx = self;
        let BatchedRequestsResult { remaining, succeeded, errors, faulty_peers } = results;
        let mut answers: Vec<(AttachmentRequest, Option<HttpResponseType>)> = succeeded.entries;
        let ghost answers0 = answers@;
        let ghost peers0 = self.peers.entries@;
        while answers.len() > 0
            invariant
                answers@.len() <= answers0.len(),
                answers@ == answers0.subrange(0, answers@.len() as int),
                peers0 == self.peers.entries@,
                ctx.wf(),
                ctx.peers@.dom() == self.peers@.dom(),
                ctx.peers.entries@.len() == peers0.len(),
                forall|i: int|
                    0 <= i < answers0.len() ==> (#[trigger] answers0[i]).0.comparable()
                        && self.peers@.contains_key(answers0[i].0.url_spec()@),
                forall|i: int|
                    0 <= i < peers0.len() ==> (#[trigger] peers0[i]).1.total_requests_sent
                        + answers0.len() < u32::MAX,
                forall|i: int|
                    0 <= i < peers0.len() ==> (#[trigger] ctx.peers.entries@[i]).1.total_requests_sent
                        <= peers0[i].1.total_requests_sent + (answers0.len() - answers@.len()),
                merge_attachments(ctx.tables(), answers@) == merge_attachments(
                    self.tables(),
                    answers0,
                ),
                ctx.events_to_deregister == self.events_to_deregister,
                ctx.attachments_batch == self.attachments_batch,
                ctx.connection_options == self.connection_options,
                ctx.dns_lookups == self.dns_lookups,
                ctx.inventories == self.inventories,
            decreases answers@.len(),
        {
            let ghost before = answers@;
            let ghost t = ctx.tables();
            let ghost had = ctx.attachments@;
            let (request, response) = answers.pop().unwrap();
            assert(answers@ =~= before.drop_last());
            assert((request, response) == answers0[answers@.len() as int]);
            let url: String = request.get_url().clone();
            proof {
                let at = key_index(ctx.peers.entries@, url@);
                lemma_key_index(ctx.peers.entries@, at);
            }
            match response {
                Some(HttpResponseType::GetAttachment(attachment)) => {
                    if !holds_content(&ctx.attachments, &attachment) {
                        ctx.attachments.push(attachment);
                        assert(contents(ctx.attachments@) =~= contents(had).push(attachment@));
                        assert forall|i: int, j: int|
                            0 <= i < j < ctx.attachments@.len() implies ctx.attachments@[i]@
                            != ctx.attachments@[j]@ by {
                            if j == had.len() {
                                assert(contents(had)[i] == had[i]@);
                            } else {
                                assert(had[i]@ != had[j]@);
                            }
                        }
                    }
                    bump_peer(&mut ctx.peers, &url, true);
                },
                _ => {
                    bump_peer(&mut ctx.peers, &url, false);
                },
            }
            assert(ctx.tables() == merge_attachment(t, request, response));
            assert(ctx.wf());
        }
        ctx.note_faulty(&faulty_peers);
        ctx
    }

    /// The context of a batch that is about to begin.
    pub fn new(
        attachments_batch: AttachmentsBatch,
        peers: VecMap<String, ReliabilityReport>,
        connection_options: &ConnectionOptions,
    ) -> (r: AttachmentsBatchStateContext)
        ensures
            r.attachments_batch == attachments_batch,
            r.peers == peers,
            r.connection_options == *connection_options,
            r.dns_lookups.entries@.len() == 0,
            r.inventories.entries@.len() == 0,
            r.attachments@.len() == 0,
            r.events_to_deregister@.len() == 0,
            attachments_batch.wf() && peers.wf() && (forall|i: int|
                0 <= i < peers.entries@.len() ==> (#[trigger] peers.entries@[i]).1.wf()) ==> r.wf(),
    {
        AttachmentsBatchStateContext {
            attachments_batch,
            peers,
            connection_options: *connection_options,
            dns_lookups: VecMap::new(),
            inventories: VecMap::new(),
            attachments: Vec::new(),
            events_to_deregister: Vec::new(),
        }
    }

    /// The URLs of the batch's peers.
    pub fn get_peers_urls(&self) -> (urls: Vec<String>)
        ensures
            urls@.len() == self.peers.entries@.len(),
            forall|i: int| 0 <= i < urls@.len() ==> #[trigger] urls@[i] == self.peers.entries@[i].0,
    {
        let mut urls: Vec<String> = Vec::new();
        let mut i: usize = 0;
        while i < self.peers.entries.len()
            invariant
                i <= self.peers.entries@.len(),
                urls@.len() == i,
                forall|j: int| 0 <= j < i ==> #[trigger] urls@[j] == self.peers.entries@[j].0,
            decreases self.peers.entries@.len() - i,
        {
            urls.push(self.peers.entries[i].0.clone());
            i += 1;
        }
        urls
    }

    /// The inventory requests of the batch, the most reliable peer
    /// first: for each contract with missing attachments and each peer,
    /// one request per run of pages.
    pub fn get_prioritized_attachments_inventory_requests(&self) -> (queue: PriorityQueue<
        AttachmentsInventoryRequest,
    >)
        requires
            self.wf(),
            self.headroom(0),
        ensures
            queue.wf(),
            queue.items@.len() == self.inventory_plan().len(),
            exists|requests: Seq<AttachmentsInventoryRequest>|
                inventory_views(requests) == self.inventory_plan() && queue.items@ == pushed_all(
                    requests,
                ),
            forall|i: int|
                0 <= i < queue.items@.len() ==> self.peers@.contains_key(
                    (#[trigger] queue.items@[i]).url@,
                ),
    {
        let mut queue: PriorityQueue<AttachmentsInventoryRequest> = PriorityQueue::new();
        let ghost mut requests: Seq<AttachmentsInventoryRequest> = Seq::empty();
        let ghost height = self.attachments_batch.block_height;
        let ghost block = self.attachments_batch.index_block_hash@;
        let ghost contracts = self.attachments_batch.attachments_instances.entries@;
        let ghost peers = self.peers.entries@;
        let n_contracts: usize = self.attachments_batch.attachments_instances.entries.len();
        let n_peers: usize = self.peers.entries.len();
        assert(inventory_views(requests) =~= inv_for_batch(height, block, contracts, peers, 0));
        let mut i: usize = 0;
        while i < n_contracts
            invariant
                i <= n_contracts,
                n_contracts == contracts.len(),
                n_peers == peers.len(),
                self.wf(),
                self.headroom(0),
                height == self.attachments_batch.block_height,
                block == self.attachments_batch.index_block_hash@,
                contracts == self.attachments_batch.attachments_instances.entries@,
                peers == self.peers.entries@,
                queue.wf(),
                queue.items@ == pushed_all(requests),
                queue.items@.len() == requests.len(),
                inventory_views(requests) == inv_for_batch(height, block, contracts, peers, i as int),
                forall|a: int| 0 <= a < requests.len() ==> self.peers@.contains_key(
                    (#[trigger] requests[a]).url@,
                ),
            decreases n_contracts - i,
        {
            let contract_id: &QualifiedContractIdentifier =
                &self.attachments_batch.attachments_instances.entries[i].0;
            proof {
                lemma_key_index(contracts, i as int);
            }
            let pages_batches = self.attachments_batch.get_paginated_missing_pages_for_contract_id(
                contract_id,
            );
            let ghost chunks = page_requests(contracts[i as int].1@);
            assert(missing_of(self.attachments_batch.missing(), contract_id@) == contracts[i as int].1@);
            let ghost done = inv_for_batch(height, block, contracts, peers, i as int);
            assert(inventory_views(requests) =~= done + inv_for_contract(
                height,
                block,
                contract_id@,
                peers,
                chunks,
                0,
            ));
            let mut j: usize = 0;
            while j < n_peers
                invariant
                    j <= n_peers,
                    i < n_contracts,
                    n_contracts == contracts.len(),
                    n_peers == peers.len(),
                    self.wf(),
                    self.headroom(0),
                    height == self.attachments_batch.block_height,
                    block == self.attachments_batch.index_block_hash@,
                    contracts == self.attachments_batch.attachments_instances.entries@,
                    peers == self.peers.entries@,
                    *contract_id == contracts[i as int].0,
                    chunks == page_requests(contracts[i as int].1@),
                    pages_batches@.len() == chunks.len(),
                    forall|k: int|
                        0 <= k < pages_batches@.len() ==> (#[trigger] pages_batches@[k])@ == chunks[k],
                    queue.wf(),
                    queue.items@ == pushed_all(requests),
                    queue.items@.len() == requests.len(),
                    done == inv_for_batch(height, block, contracts, peers, i as int),
                    inventory_views(requests) == done + inv_for_contract(
                        height,
                        block,
                        contract_id@,
                        peers,
                        chunks,
                        j as int,
                    ),
                    forall|a: int| 0 <= a < requests.len() ==> self.peers@.contains_key(
                        (#[trigger] requests[a]).url@,
                    ),
                decreases n_peers - j,
            {
                let peer_url: &String = &self.peers.entries[j].0;
                let reliability_report: ReliabilityReport = self.peers.entries[j].1;
                proof {
                    lemma_key_index(peers, j as int);
                    lemma_score_fits(reliability_report);
                }
                let ghost done_peers = done + inv_for_contract(
                    height,
                    block,
                    contract_id@,
                    peers,
                    chunks,
                    j as int,
                );
                let ghost for_peer = inv_for_peer(height, block, contract_id@, peers[j as int], chunks);
                assert(inventory_views(requests) =~= done_peers + for_peer.subrange(0, 0));
                let mut k: usize = 0;
                while k < pages_batches.len()
                    invariant
                        k <= pages_batches@.len(),
                        j < n_peers,
                        n_peers == peers.len(),
                        peers == self.peers.entries@,
                        self.peers@.contains_key(peer_url@),
                        *peer_url == peers[j as int].0,
                        reliability_report == peers[j as int].1,
                        reliability_report.score_spec() <= u32::MAX,
                        height == self.attachments_batch.block_height,
                        block == self.attachments_batch.index_block_hash@,
                        pages_batches@.len() == chunks.len(),
                        forall|k: int|
                            0 <= k < pages_batches@.len() ==> (#[trigger] pages_batches@[k])@
                                == chunks[k],
                        queue.wf(),
                        queue.items@ == pushed_all(requests),
                        queue.items@.len() == requests.len(),
                        for_peer == inv_for_peer(height, block, contract_id@, peers[j as int], chunks),
                        inventory_views(requests) == done_peers + for_peer.subrange(0, k as int),
                        forall|a: int| 0 <= a < requests.len() ==> self.peers@.contains_key(
                            (#[trigger] requests[a]).url@,
                        ),
                    decreases pages_batches@.len() - k,
                {
                    let request = AttachmentsInventoryRequest {
                        url: peer_url.clone(),
                        reliability_report,
                        contract_id: contract_id.clone(),
                        pages: crate::keys::pages_clone(&pages_batches[k]),
                        block_height: self.attachments_batch.block_height,
                        index_block_hash: self.attachments_batch.index_block_hash,
                    };
                    proof {
                        let before = requests;
                        requests = requests.push(request);
                        assert(requests.drop_last() =~= before);
                        assert(request@ == for_peer[k as int]);
                        assert(inventory_views(requests) =~= inventory_views(before).push(request@));
                        assert(for_peer.subrange(0, k + 1) =~= for_peer.subrange(0, k as int).push(
                            for_peer[k as int],
                        ));
                        assert(inventory_views(requests) =~= done_peers + for_peer.subrange(0, k + 1));
                    }
                    queue.push(request);
                    k += 1;
                }
                j += 1;
                assert(for_peer.subrange(0, for_peer.len() as int) =~= for_peer);
                assert(inventory_views(requests) =~= done + inv_for_contract(
                    height,
                    block,
                    contract_id@,
                    peers,
                    chunks,
                    j as int,
                ));
            }
            i += 1;
        }
        proof {
            crate::pq::lemma_pushed_all(requests);
            assert forall|a: int| 0 <= a < queue.items@.len() implies self.peers@.contains_key(
                (#[trigger] queue.items@[a]).url@,
            ) by {
                assert(pushed_all(requests).contains(queue.items@[a]));
                assert(requests.contains(queue.items@[a]));
                let b = choose|b: int| 0 <= b < requests.len() && requests[b] == queue.items@[a];
                assert(self.peers@.contains_key(requests[b].url@));
            }
            assert(inventory_views(requests).len() == requests.len());
        }
        queue
    }
}

} // verus!
