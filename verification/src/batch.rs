//! One unit of work of the downloader: the attachments of one block that
//! are still missing, and when to try for them again.

use vstd::prelude::*;
use vstd::arithmetic::power2::{pow2, lemma_pow2_strictly_increases, lemma2_to64};
use crate::keys::{Hash160, KeyEq, QualifiedContractIdentifier, ContractIdView, StacksBlockId};
use crate::pq::{key_rank, Prioritized};
use crate::reliability::Rank;
use crate::types::{
    AttachmentInstance, ATTACHMENTS_INV_PAGE_SIZE, MAX_ATTACHMENT_INV_PAGES_PER_REQUEST,
    MAX_RETRY_DELAY,
};
use crate::vecmap::{
    has_key, key_index, lemma_key_index, lemma_push_new, lemma_update_value, VecMap,
};

verus! {

/// The missing attachments of one contract: content hash by index.
pub type MissingByIndex = VecMap<u32, Hash160>;

/// The missing attachments of a block, by contract.
pub type MissingByContract = VecMap<QualifiedContractIdentifier, MissingByIndex>;

/// How many attachments the first `n` contracts of `s` miss.
pub open spec fn missing_count(s: Seq<(QualifiedContractIdentifier, MissingByIndex)>, n: int) -> nat
    decreases n,
{
    if n <= 0 {
        0
    } else {
        missing_count(s, n - 1) + s[n - 1].1.entries@.len()
    }
}

proof fn lemma_count_prefix(
    s: Seq<(QualifiedContractIdentifier, MissingByIndex)>,
    t: Seq<(QualifiedContractIdentifier, MissingByIndex)>,
    n: int,
)
    requires
        0 <= n <= s.len(),
        n <= t.len(),
        forall|i: int| 0 <= i < n ==> s[i].1.entries@.len() == t[i].1.entries@.len(),
    ensures
        missing_count(s, n) == missing_count(t, n),
    decreases n,
{
    if n > 0 {
        lemma_count_prefix(s, t, n - 1);
    }
}

proof fn lemma_count_shrinks(
    s: Seq<(QualifiedContractIdentifier, MissingByIndex)>,
    t: Seq<(QualifiedContractIdentifier, MissingByIndex)>,
    n: int,
)
    requires
        0 <= n <= s.len(),
        n <= t.len(),
        forall|i: int| 0 <= i < n ==> t[i].1.entries@.len() <= s[i].1.entries@.len(),
    ensures
        missing_count(t, n) <= missing_count(s, n),
    decreases n,
{
    if n > 0 {
        lemma_count_shrinks(s, t, n - 1);
    }
}

proof fn lemma_count_update(
    s: Seq<(QualifiedContractIdentifier, MissingByIndex)>,
    i: int,
    e: (QualifiedContractIdentifier, MissingByIndex),
    n: int,
)
    requires
        0 <= i < s.len(),
        0 <= n <= s.len(),
    ensures
        missing_count(s.update(i, e), n) == if i < n {
            missing_count(s, n) - s[i].1.entries@.len() + e.1.entries@.len()
        } else {
            missing_count(s, n) as int
        },
    decreases n,
{
    if n > 0 {
        lemma_count_update(s, i, e, n - 1);
    }
}

/// The missing attachments as a map: by contract, then by index.
pub open spec fn missing_map(m: MissingByContract) -> Map<ContractIdView, Map<u32, Hash160>> {
    m@.map_values(|inner: MissingByIndex| inner@)
}

/// The missing attachments of `c`, none where the contract is not there.
pub open spec fn missing_of(
    m: Map<ContractIdView, Map<u32, Hash160>>,
    c: ContractIdView,
) -> Map<u32, Hash160> {
    if m.contains_key(c) {
        m[c]
    } else {
        Map::empty()
    }
}

/// What is left of one contract's missing attachments once the content
/// with hash `h` has arrived.
pub open spec fn without_hash(inner: Map<u32, Hash160>, h: Seq<u8>) -> Map<u32, Hash160> {
    Map::new(|k: u32| inner.contains_key(k) && inner[k]@ != h, |k: u32| inner[k])
}

/// What is left missing once the content with hash `h` has arrived.
pub open spec fn resolved(m: Map<ContractIdView, Map<u32, Hash160>>, h: Seq<u8>) -> Map<
    ContractIdView,
    Map<u32, Hash160>,
> {
    m.map_values(|inner: Map<u32, Hash160>| without_hash(inner, h))
}

/// Nothing is missing: no contract has an attachment left.
pub open spec fn nothing_missing(m: Map<ContractIdView, Map<u32, Hash160>>) -> bool {
    forall|c: ContractIdView| m.contains_key(c) ==> (#[trigger] m[c]).dom() =~= Set::empty()
}

proof fn lemma_count_zero(s: Seq<(QualifiedContractIdentifier, MissingByIndex)>, n: int)
    requires
        0 <= n <= s.len(),
    ensures
        missing_count(s, n) == 0 <==> forall|i: int|
            0 <= i < n ==> (#[trigger] s[i]).1.entries@.len() == 0,
    decreases n,
{
    if n > 0 {
        lemma_count_zero(s, n - 1);
        if missing_count(s, n) == 0 {
            assert forall|i: int| 0 <= i < n implies (#[trigger] s[i]).1.entries@.len() == 0 by {
                if i < n - 1 {
                    assert(s[i].1.entries@.len() == 0);
                }
            }
        }
    }
}

/// Resolving a hash a second time changes nothing.
pub proof fn lemma_resolve_idempotent(m: Map<ContractIdView, Map<u32, Hash160>>, h: Seq<u8>)
    ensures
        resolved(resolved(m, h), h) == resolved(m, h),
{
    assert forall|c: ContractIdView| m.contains_key(c) implies #[trigger] resolved(resolved(m, h), h)[c]
        == resolved(m, h)[c] by {
        assert(without_hash(without_hash(m[c], h), h) =~= without_hash(m[c], h));
    }
    assert(resolved(resolved(m, h), h) =~= resolved(m, h));
}

/// The page an attachment index lies on.
pub open spec fn page_of(index: u32) -> u32 {
    index / ATTACHMENTS_INV_PAGE_SIZE
}

/// Each element is greater than the one before it.
pub open spec fn strictly_increasing(s: Seq<u32>) -> bool {
    forall|i: int, j: int| 0 <= i < j < s.len() ==> s[i] < s[j]
}

/// `pages` lists, in increasing order, the pages some missing attachment
/// of `inner` lies on.
pub open spec fn is_page_list(pages: Seq<u32>, inner: Map<u32, Hash160>) -> bool {
    &&& strictly_increasing(pages)
    &&& forall|p: u32|
        pages.contains(p) <==> exists|idx: u32| #[trigger] inner.contains_key(idx) && page_of(idx) == p
}

/// The pages some missing attachment of `inner` lies on, in increasing
/// order.
pub open spec fn page_list(inner: Map<u32, Hash160>) -> Seq<u32> {
    choose|pages: Seq<u32>| is_page_list(pages, inner)
}

/// Two increasing lists with the same elements are the same list.
pub proof fn lemma_increasing_unique(a: Seq<u32>, b: Seq<u32>)
    requires
        strictly_increasing(a),
        strictly_increasing(b),
        forall|x: u32| a.contains(x) <==> b.contains(x),
    ensures
        a == b,
    decreases a.len(),
{
    if a.len() == 0 {
        if b.len() > 0 {
            assert(b.contains(b[0]));
        }
        assert(a =~= b);
    } else {
        assert(a.contains(a.last()));
        assert(b.contains(a.last()));
        assert(b.len() > 0);
        assert(b.contains(b.last()));
        assert(a.contains(b.last()));
        let ia = choose|i: int| 0 <= i < a.len() && a[i] == b.last();
        let ib = choose|i: int| 0 <= i < b.len() && b[i] == a.last();
        assert(a.last() == b.last()) by {
            if ia < a.len() - 1 {
                assert(a[ia] < a[a.len() - 1]);
            }
            if ib < b.len() - 1 {
                assert(b[ib] < b[b.len() - 1]);
            }
        }
        let a0 = a.drop_last();
        let b0 = b.drop_last();
        assert forall|x: u32| a0.contains(x) <==> b0.contains(x) by {
            if a0.contains(x) {
                let i = choose|i: int| 0 <= i < a0.len() && a0[i] == x;
                assert(a[i] == x);
                assert(a[i] < a[a.len() - 1]);
                assert(a.contains(x));
                let j = choose|j: int| 0 <= j < b.len() && b[j] == x;
                assert(b0[j] == x);
            }
            if b0.contains(x) {
                let i = choose|i: int| 0 <= i < b0.len() && b0[i] == x;
                assert(b[i] == x);
                assert(b[i] < b[b.len() - 1]);
                assert(b.contains(x));
                let j = choose|j: int| 0 <= j < a.len() && a[j] == x;
                assert(a0[j] == x);
            }
        }
        assert forall|i: int, j: int| 0 <= i < j < a0.len() implies a0[i] < a0[j] by {
            assert(a[i] < a[j]);
        }
        assert forall|i: int, j: int| 0 <= i < j < b0.len() implies b0[i] < b0[j] by {
            assert(b[i] < b[j]);
        }
        lemma_increasing_unique(a0, b0);
        assert(a =~= a0.push(a.last()));
        assert(b =~= b0.push(b.last()));
    }
}

/// `pages` cut into runs of `size`, the last one possibly shorter.
pub open spec fn chunks_of(pages: Seq<u32>, size: int) -> Seq<Seq<u32>> {
    Seq::new(
        ((pages.len() + size - 1) / size) as nat,
        |i: int|
            pages.subrange(
                i * size,
                if (i + 1) * size <= pages.len() {
                    (i + 1) * size
                } else {
                    pages.len() as int
                },
            ),
    )
}

/// `chunks` cuts `pages` into runs of `size`, the last one possibly shorter.
pub open spec fn is_chunking(chunks: Seq<Vec<u32>>, pages: Seq<u32>, size: int) -> bool {
    &&& chunks.len() == chunks_of(pages, size).len()
    &&& forall|i: int| 0 <= i < chunks.len() ==> (#[trigger] chunks[i])@ == chunks_of(pages, size)[i]
}

/// The page requests for one contract's missing attachments.
pub open spec fn page_requests(inner: Map<u32, Hash160>) -> Seq<Seq<u32>> {
    chunks_of(page_list(inner), MAX_ATTACHMENT_INV_PAGES_PER_REQUEST as int)
}

/// How long a batch waits after its `count`-th failure, `random` being
/// the jitter drawn.
pub open spec fn retry_delay(count: nat, random: nat) -> nat {
    let delay = pow2(count) + random % pow2((count - 1) as nat);
    if delay < MAX_RETRY_DELAY {
        delay
    } else {
        MAX_RETRY_DELAY as nat
    }
}

/// A retry waits at least two seconds and at most `MAX_RETRY_DELAY`.
pub proof fn lemma_retry_delay_bounds(count: nat, random: nat)
    requires
        count >= 1,
    ensures
        2 <= retry_delay(count, random) <= MAX_RETRY_DELAY,
{
    lemma2_to64();
    if count > 1 {
        lemma_pow2_strictly_increases(1, count);
    }
    let half = pow2((count - 1) as nat);
    vstd::arithmetic::power2::lemma_pow2_pos((count - 1) as nat);
    vstd::arithmetic::div_mod::lemma_mod_bound(random as int, half as int);
}

/// Calls `rand::thread_rng` and `Rng::gen`: a number drawn from the
/// thread's generator. Nothing is claimed of it.
#[verifier::external_body]
pub(crate) fn random_u64() -> (r: u64) {
    rand::Rng::gen::<u64>(&mut rand::thread_rng())
}

/// Puts `x` into the increasing list `v`, unless it is there.
fn insert_sorted(v: &mut Vec<u32>, x: u32)
    requires
        strictly_increasing(old(v)@),
    ensures
        strictly_increasing(final(v)@),
        forall|y: u32| final(v)@.contains(y) <==> (old(v)@.contains(y) || y == x),
        final(v)@.len() <= old(v)@.len() + 1,
{
    let mut p: usize = 0;
    while p < v.len() && v[p] < x
        invariant
            p <= v@.len(),
            v@ == old(v)@,
            forall|i: int| 0 <= i < p ==> v@[i] < x,
        decreases v@.len() - p,
    {
        p += 1;
    }
    if p < v.len() && v[p] == x {
        assert(old(v)@.contains(x));
        return ;
    }
    v.insert(p, x);
    let ghost s = old(v)@;
    let ghost t = v@;
    assert(t == s.insert(p as int, x));
    assert forall|i: int, j: int| 0 <= i < j < t.len() implies t[i] < t[j] by {
        if j == p {
        } else if i == p {
            assert(s[p as int] >= x);
            assert(s[p as int] != x);
            if j - 1 > p {
                assert(s[p as int] < s[j - 1]);
            }
        } else {
            let i0 = if i < p { i } else { i - 1 };
            let j0 = if j < p { j } else { j - 1 };
            assert(s[i0] < s[j0]);
        }
    }
    assert forall|y: u32| t.contains(y) <==> (s.contains(y) || y == x) by {
        if s.contains(y) {
            let i = choose|i: int| 0 <= i < s.len() && s[i] == y;
            let i1 = if i < p { i } else { i + 1 };
            assert(t[i1] == y);
        }
        if y == x {
            assert(t[p as int] == y);
        }
        if t.contains(y) {
            let i = choose|i: int| 0 <= i < t.len() && t[i] == y;
            if i != p {
                let i0 = if i < p { i } else { i - 1 };
                assert(s[i0] == y);
            }
        }
    }
}

/// The attachments of one block that are still missing, by contract and
/// index, and the state of the batch's retries.
#[derive(Debug)]
pub struct AttachmentsBatch {
    pub block_height: u64,
    pub index_block_hash: StacksBlockId,
    pub attachments_instances: MissingByContract,
    pub retry_count: u64,
    pub retry_deadline: u64,
}

/// A batch as a value: its block, what is missing, and its retry state.
pub struct BatchView {
    pub block_height: u64,
    pub index_block_hash: Seq<u8>,
    pub missing: Map<ContractIdView, Map<u32, Hash160>>,
    pub retry_count: u64,
    pub retry_deadline: u64,
}

impl View for AttachmentsBatch {
    type V = BatchView;

    open spec fn view(&self) -> BatchView {
        BatchView {
            block_height: self.block_height,
            index_block_hash: self.index_block_hash@,
            missing: self.missing(),
            retry_count: self.retry_count,
            retry_deadline: self.retry_deadline,
        }
    }
}

impl AttachmentsBatch {
    /// No contract, and within a contract no index, is listed twice.
    pub open spec fn wf(&self) -> bool {
        &&& self.attachments_instances.wf()
        &&& forall|i: int|
            0 <= i < self.attachments_instances.entries@.len() ==> (
            #[trigger] self.attachments_instances.entries@[i]).1.wf()
    }

    /// What is missing: by contract, then by attachment index.
    pub open spec fn missing(&self) -> Map<ContractIdView, Map<u32, Hash160>> {
        missing_map(self.attachments_instances)
    }

    /// How many attachments are missing.
    pub open spec fn count_spec(&self) -> nat {
        missing_count(
            self.attachments_instances.entries@,
            self.attachments_instances.entries@.len() as int,
        )
    }

    /// Whether the batch refuses `a`: it holds another block's attachments.
    pub open spec fn refuses(&self, a: &AttachmentInstance) -> bool {
        self.attachments_instances.entries@.len() > 0 && (self.block_height != a.block_height
            || self.index_block_hash@ != a.index_block_hash@)
    }

    /// A batch that misses nothing and belongs to no block yet.
    pub fn new() -> (b: AttachmentsBatch)
        ensures
            b.wf(),
            b.block_height == 0,
            b.index_block_hash@ == Seq::new(32, |i: int| 0u8),
            b.attachments_instances.entries@.len() == 0,
            b.missing() == Map::<ContractIdView, Map<u32, Hash160>>::empty(),
            b.count_spec() == 0,
            b.retry_count == 0,
            b.retry_deadline == 0,
    {
        let b = AttachmentsBatch {
            block_height: 0,
            index_block_hash: StacksBlockId([0u8; 32]),
            attachments_instances: VecMap::new(),
            retry_count: 0,
            retry_deadline: 0,
        };
        assert(b.index_block_hash@ =~= Seq::new(32, |i: int| 0u8));
        assert(b.missing() =~= Map::<ContractIdView, Map<u32, Hash160>>::empty());
        b
    }

    /// Notes that the attachment `attachment` refers to is missing. The
    /// first instance decides the batch's block; an instance of another
    /// block is refused, so that all instances of a batch share one block.
    pub fn track_attachment(&mut self, attachment: &AttachmentInstance)
        requires
            old(self).wf(),
        ensures
            final(self).wf(),
            old(self).refuses(attachment) ==> *final(self) == *old(self),
            !old(self).refuses(attachment) ==> {
                &&& final(self).block_height == attachment.block_height
                &&& final(self).index_block_hash@ == attachment.index_block_hash@
                &&& final(self).retry_count == old(self).retry_count
                &&& final(self).retry_deadline == old(self).retry_deadline
                &&& final(self).missing() == old(self).missing().insert(
                    attachment.contract_id@,
                    missing_of(old(self).missing(), attachment.contract_id@).insert(
                        attachment.attachment_index,
                        attachment.content_hash,
                    ),
                )
            },
            final(self).count_spec() <= old(self).count_spec() + 1,
            final(self).attachments_instances.entries@.len() > 0 || old(self).refuses(attachment),
    {
        if self.attachments_instances.is_empty() {
            self.block_height = attachment.block_height;
            self.index_block_hash = attachment.index_block_hash;
        } else {
            if self.block_height != attachment.block_height || !self.index_block_hash.key_eq(
                &attachment.index_block_hash,
            ) {
                return ;
            }
        }
        let inner_key: u32 = attachment.attachment_index;
        let ghost entries0 = self.attachments_instances.entries@;
        let ghost map0 = old(self).missing();
        let ghost c = attachment.contract_id@;
        match self.attachments_instances.find(&attachment.contract_id) {
            Some(i) => {
                let ghost inner0 = entries0[i as int].1;
                proof {
                    lemma_key_index(entries0, i as int);
                }
                self.attachments_instances.entries[i].1.insert(inner_key, attachment.content_hash);
                let ghost e = self.attachments_instances.entries@[i as int];
                assert(self.attachments_instances.entries@ =~= entries0.update(i as int, e));
                proof {
                    lemma_update_value(entries0, i as int, e.0, e.1);
                    lemma_count_update(entries0, i as int, e, entries0.len() as int);
                    assert(self.missing() =~= map0.insert(
                        c,
                        missing_of(map0, c).insert(inner_key, attachment.content_hash),
                    ));
                }
            },
            None => {
                let mut missing_attachments: MissingByIndex = VecMap::new();
                missing_attachments.insert(inner_key, attachment.content_hash);
                let contract_id = attachment.contract_id.clone();
                proof {
                    lemma_push_new(entries0, contract_id, missing_attachments);
                    lemma_count_prefix(
                        entries0,
                        entries0.push((contract_id, missing_attachments)),
                        entries0.len() as int,
                    );
                }
                self.attachments_instances.insert(contract_id, missing_attachments);
                proof {
                    assert(self.missing() =~= map0.insert(
                        c,
                        missing_of(map0, c).insert(inner_key, attachment.content_hash),
                    ));
                }
            },
        }
    }

    /// Draws the jitter and schedules the next try; see
    /// `bump_retry_count_with`.
    pub fn bump_retry_count(&mut self, now: u64)
        requires
            old(self).retry_count < u64::MAX,
            now + MAX_RETRY_DELAY <= u64::MAX,
        ensures
            final(self).retry_count == old(self).retry_count + 1,
            exists|random: u64|
                final(self).retry_deadline == now + retry_delay(
                    final(self).retry_count as nat,
                    random as nat,
                ),
            now + 2 <= final(self).retry_deadline <= now + MAX_RETRY_DELAY,
            final(self).block_height == old(self).block_height,
            final(self).index_block_hash == old(self).index_block_hash,
            final(self).attachments_instances == old(self).attachments_instances,
    {
        let random: u64 = random_u64();
        self.bump_retry_count_with(now, random);
    }

    /// Counts one more failed round and schedules the next try: the wait
    /// doubles with each failure, with a jitter of up to half as much
    /// again, and never exceeds `MAX_RETRY_DELAY`.
    pub fn bump_retry_count_with(&mut self, now: u64, random: u64)
        requires
            old(self).retry_count < u64::MAX,
            now + MAX_RETRY_DELAY <= u64::MAX,
        ensures
            final(self).retry_count == old(self).retry_count + 1,
            final(self).retry_deadline == now + retry_delay(
                final(self).retry_count as nat,
                random as nat,
            ),
            now + 2 <= final(self).retry_deadline <= now + MAX_RETRY_DELAY,
            final(self).block_height == old(self).block_height,
            final(self).index_block_hash == old(self).index_block_hash,
            final(self).attachments_instances == old(self).attachments_instances,
    {
        self.retry_count += 1;
        let count: u64 = self.retry_count;
        proof {
            lemma_retry_delay_bounds(count as nat, random as nat);
            lemma2_to64();
        }
        let delay: u64 = if count >= 10 {
            proof {
                if count > 10 {
                    lemma_pow2_strictly_increases(10, count as nat);
                }
                let half = pow2((count - 1) as nat);
                vstd::arithmetic::power2::lemma_pow2_pos((count - 1) as nat);
                vstd::arithmetic::div_mod::lemma_mod_bound(random as int, half as int);
            }
            MAX_RETRY_DELAY
        } else {
            let full: u64 = 1u64 << count;
            let half: u64 = 1u64 << (count - 1);
            proof {
                vstd::bits::lemma_u64_shl_is_mul(1, count);
                vstd::bits::lemma_u64_shl_is_mul(1, (count - 1) as u64);
                vstd::arithmetic::power2::lemma_pow2_pos((count - 1) as nat);
                lemma_pow2_strictly_increases(count as nat, 10);
                if count > 1 {
                    lemma_pow2_strictly_increases((count - 1) as nat, 10);
                }
            }
            assert(full == pow2(count as nat));
            assert(half == pow2((count - 1) as nat));
            let jittered: u64 = full + random % half;
            if jittered < MAX_RETRY_DELAY {
                jittered
            } else {
                MAX_RETRY_DELAY
            }
        };
        self.retry_deadline = now + delay;
    }

    /// Whether nothing is missing any more.
    pub fn has_fully_succeed(&self) -> (r: bool)
        requires
            self.count_spec() <= usize::MAX,
        ensures
            r == (self.count_spec() == 0),
            self.wf() ==> r == nothing_missing(self.missing()),
    {
        proof {
            if self.wf() {
                self.lemma_nothing_missing();
            }
        }
        self.attachments_instances_count() == 0
    }

    /// No attachment is counted exactly when no contract has one left.
    pub proof fn lemma_nothing_missing(&self)
        requires
            self.wf(),
        ensures
            (self.count_spec() == 0) <==> nothing_missing(self.missing()),
    {
        let s = self.attachments_instances.entries@;
        lemma_count_zero(s, s.len() as int);
        if self.count_spec() == 0 {
            assert forall|c: ContractIdView| self.missing().contains_key(c) implies (
            #[trigger] self.missing()[c]).dom() =~= Set::empty() by {
                let i = key_index(s, c);
                lemma_key_index(s, i);
                assert(s[i].1.entries@.len() == 0);
                assert forall|k: u32| !s[i].1@.dom().contains(k) by {
                    if has_key(s[i].1.entries@, k) {
                        let j = key_index(s[i].1.entries@, k);
                    }
                }
            }
        }
        if nothing_missing(self.missing()) {
            assert forall|i: int| 0 <= i < s.len() implies (#[trigger] s[i]).1.entries@.len() == 0 by {
                lemma_key_index(s, i);
                assert(self.missing().contains_key(s[i].0@));
                assert(self.missing()[s[i].0@] == s[i].1@);
                if s[i].1.entries@.len() > 0 {
                    lemma_key_index(s[i].1.entries@, 0);
                    assert(s[i].1@.dom().contains(s[i].1.entries@[0].0));
                }
            }
        }
    }

    /// The pages the missing attachments of `contract_id` lie on, in
    /// increasing order.
    pub fn get_missing_pages_for_contract_id(&self, contract_id: &QualifiedContractIdentifier) -> (r:
        Vec<u32>)
        requires
            self.wf(),
        ensures
            is_page_list(r@, missing_of(self.missing(), contract_id@)),
            r@ == page_list(missing_of(self.missing(), contract_id@)),
    {
        let r = self.missing_pages(contract_id);
        proof {
            let inner = missing_of(self.missing(), contract_id@);
            lemma_increasing_unique(r@, page_list(inner));
        }
        r
    }

    fn missing_pages(&self, contract_id: &QualifiedContractIdentifier) -> (r: Vec<u32>)
        requires
            self.wf(),
        ensures
            is_page_list(r@, missing_of(self.missing(), contract_id@)),
    {
        let mut pages_indexes: Vec<u32> = Vec::new();
        match self.attachments_instances.find(contract_id) {
            Some(i) => {
                proof {
                    lemma_key_index(self.attachments_instances.entries@, i as int);
                }
                let missing_attachments: &MissingByIndex = &self.attachments_instances.entries[i].1;
                let ghost inner = missing_attachments@;
                assert(inner == missing_of(self.missing(), contract_id@));
                let mut j: usize = 0;
                while j < missing_attachments.entries.len()
                    invariant
                        j <= missing_attachments.entries@.len(),
                        missing_attachments.wf(),
                        inner == missing_attachments@,
                        strictly_increasing(pages_indexes@),
                        forall|p: u32|
                            pages_indexes@.contains(p) <==> exists|k: int|
                                0 <= k < j && page_of(
                                    #[trigger] missing_attachments.entries@[k].0,
                                ) == p,
                    decreases missing_attachments.entries@.len() - j,
                {
                    let attachment_index: u32 = missing_attachments.entries[j].0;
                    let page_index: u32 = attachment_index / ATTACHMENTS_INV_PAGE_SIZE;
                    let ghost before = pages_indexes@;
                    insert_sorted(&mut pages_indexes, page_index);
                    j += 1;
                    assert forall|p: u32| pages_indexes@.contains(p) <==> exists|k: int|
                        0 <= k < j && page_of(#[trigger] missing_attachments.entries@[k].0) == p by {
                        if pages_indexes@.contains(p) {
                            if before.contains(p) {
                                let k = choose|k: int|
                                    0 <= k < j - 1 && page_of(
                                        #[trigger] missing_attachments.entries@[k].0,
                                    ) == p;
                                assert(page_of(missing_attachments.entries@[k].0) == p);
                            } else {
                                assert(page_of(missing_attachments.entries@[j - 1].0) == p);
                            }
                        }
                        if exists|k: int|
                            0 <= k < j && page_of(#[trigger] missing_attachments.entries@[k].0) == p {
                            let k = choose|k: int|
                                0 <= k < j && page_of(#[trigger] missing_attachments.entries@[k].0)
                                    == p;
                            if k < j - 1 {
                                assert(before.contains(p));
                            }
                        }
                    }
                }
                assert forall|p: u32| pages_indexes@.contains(p) <==> exists|idx: u32| #[trigger]
                    inner.contains_key(idx) && page_of(idx) == p by {
                    if pages_indexes@.contains(p) {
                        let k = choose|k: int|
                            0 <= k < j && page_of(#[trigger] missing_attachments.entries@[k].0) == p;
                        lemma_key_index(missing_attachments.entries@, k);
                        assert(inner.contains_key(missing_attachments.entries@[k].0));
                    }
                    if exists|idx: u32| #[trigger] inner.contains_key(idx) && page_of(idx) == p {
                        let idx = choose|idx: u32| #[trigger]
                            inner.contains_key(idx) && page_of(idx) == p;
                        assert(has_key(missing_attachments.entries@, idx));
                        let k = key_index(missing_attachments.entries@, idx);
                        assert(page_of(missing_attachments.entries@[k].0) == p);
                    }
                }
            },
            None => {
                assert(missing_of(self.missing(), contract_id@) =~= Map::empty());
            },
        }
        pages_indexes
    }

    /// The pages of `get_missing_pages_for_contract_id`, cut into requests
    /// of at most `MAX_ATTACHMENT_INV_PAGES_PER_REQUEST` pages.
    pub fn get_paginated_missing_pages_for_contract_id(
        &self,
        contract_id: &QualifiedContractIdentifier,
    ) -> (r: Vec<Vec<u32>>)
        requires
            self.wf(),
        ensures
            is_chunking(
                r@,
                page_list(missing_of(self.missing(), contract_id@)),
                MAX_ATTACHMENT_INV_PAGES_PER_REQUEST as int,
            ),
            r@.len() == page_requests(missing_of(self.missing(), contract_id@)).len(),
            forall|i: int|
                0 <= i < r@.len() ==> (#[trigger] r@[i])@ == page_requests(
                    missing_of(self.missing(), contract_id@),
                )[i],
    {
        let mut paginated: Vec<Vec<u32>> = Vec::new();
        let pages_indexes = self.get_missing_pages_for_contract_id(contract_id);
        let n: usize = pages_indexes.len();
        let mut start: usize = 0;
        while start < n
            invariant
                n == pages_indexes@.len(),
                start == (if paginated@.len() * 8 <= n {
                    (paginated@.len() * 8) as int
                } else {
                    n as int
                }),
                paginated@.len() * 8 < n + 8,
                forall|i: int|
                    0 <= i < paginated@.len() ==> (#[trigger] paginated@[i])@
                        == pages_indexes@.subrange(
                        i * 8,
                        if (i + 1) * 8 <= n {
                            (i + 1) * 8
                        } else {
                            n as int
                        },
                    ),
            decreases n - start,
        {
            let end: usize = if n - start >= MAX_ATTACHMENT_INV_PAGES_PER_REQUEST {
                start + MAX_ATTACHMENT_INV_PAGES_PER_REQUEST
            } else {
                n
            };
            let mut page: Vec<u32> = Vec::new();
            let mut k: usize = start;
            while k < end
                invariant
                    start <= k <= end <= n,
                    n == pages_indexes@.len(),
                    page@ == pages_indexes@.subrange(start as int, k as int),
                decreases end - k,
            {
                page.push(pages_indexes[k]);
                k += 1;
                assert(page@ =~= pages_indexes@.subrange(start as int, k as int));
            }
            paginated.push(page);
            start = end;
        }
        assert(is_chunking(paginated@, pages_indexes@, MAX_ATTACHMENT_INV_PAGES_PER_REQUEST as int));
        paginated
    }

    /// Strikes, in every contract, the attachments whose content has the
    /// hash `content_hash`.
    pub fn resolve_attachment(&mut self, content_hash: &Hash160)
        requires
            old(self).wf(),
        ensures
            final(self).wf(),
            final(self).missing() == resolved(old(self).missing(), content_hash@),
            final(self).count_spec() <= old(self).count_spec(),
            final(self).block_height == old(self).block_height,
            final(self).index_block_hash == old(self).index_block_hash,
            final(self).retry_count == old(self).retry_count,
            final(self).retry_deadline == old(self).retry_deadline,
            final(self).attachments_instances.entries@.len() == old(
                self,
            ).attachments_instances.entries@.len(),
    {
        let ghost entries0 = self.attachments_instances.entries@;
        let ghost h = content_hash@;
        let n: usize = self.attachments_instances.entries.len();
        let mut i: usize = 0;
        while i < n
            invariant
                i <= n,
                n == entries0.len(),
                h == content_hash@,
                entries0 == old(self).attachments_instances.entries@,
                old(self).wf(),
                self.attachments_instances.entries@.len() == n,
                self.block_height == old(self).block_height,
                self.index_block_hash == old(self).index_block_hash,
                self.retry_count == old(self).retry_count,
                self.retry_deadline == old(self).retry_deadline,
                forall|k: int|
                    0 <= k < n ==> (#[trigger] self.attachments_instances.entries@[k]).0
                        == entries0[k].0,
                forall|k: int|
                    i <= k < n ==> (#[trigger] self.attachments_instances.entries@[k]).1
                        == entries0[k].1,
                forall|k: int|
                    0 <= k < i ==> {
                        &&& (#[trigger] self.attachments_instances.entries@[k]).1.wf()
                        &&& self.attachments_instances.entries@[k].1@ == without_hash(entries0[k].1@, h)
                        &&& self.attachments_instances.entries@[k].1.entries@.len()
                            <= entries0[k].1.entries@.len()
                    },
            decreases n - i,
        {
            let mut kept: MissingByIndex = VecMap::new();
            let ghost inner = entries0[i as int].1;
            assert(inner.wf());
            let m: usize = self.attachments_instances.entries[i].1.entries.len();
            let mut j: usize = 0;
            while j < m
                invariant
                    j <= m,
                    i < n,
                    n == self.attachments_instances.entries@.len(),
                    m == inner.entries@.len(),
                    inner.wf(),
                    self.attachments_instances.entries@[i as int].1 == inner,
                    h == content_hash@,
                    kept.wf(),
                    kept.entries@.len() <= j,
                    forall|k: u32|
                        kept@.contains_key(k) <==> exists|a: int|
                            0 <= a < j && #[trigger] inner.entries@[a].0 == k && inner.entries@[a].1@
                                != h,
                    forall|a: int|
                        0 <= a < j && inner.entries@[a].1@ != h ==> kept@[(
                        #[trigger] inner.entries@[a]).0] == inner.entries@[a].1,
                decreases m - j,
            {
                let k: u32 = self.attachments_instances.entries[i].1.entries[j].0;
                let hash: Hash160 = self.attachments_instances.entries[i].1.entries[j].1;
                let ghost kept0 = kept@;
                if !hash.key_eq(content_hash) {
                    kept.insert(k, hash);
                }
                j += 1;
                assert forall|q: u32| kept@.contains_key(q) <==> exists|a: int|
                    0 <= a < j && #[trigger] inner.entries@[a].0 == q && inner.entries@[a].1@
                        != h by {
                    if kept@.contains_key(q) {
                        if kept0.contains_key(q) {
                            let a = choose|a: int|
                                0 <= a < j - 1 && #[trigger] inner.entries@[a].0 == q
                                    && inner.entries@[a].1@ != h;
                            assert(inner.entries@[a].0 == q);
                        } else {
                            assert(inner.entries@[j - 1].0 == q);
                        }
                    }
                }
                assert forall|a: int| 0 <= a < j && inner.entries@[a].1@ != h implies kept@[(
                #[trigger] inner.entries@[a]).0] == inner.entries@[a].1 by {
                    if a < j - 1 {
                        assert(inner.entries@[a].0 != inner.entries@[j - 1].0);
                    }
                }
            }
            proof {
                assert forall|q: u32| kept@.contains_key(q) <==> without_hash(inner@, h).contains_key(
                    q,
                ) by {
                    if kept@.contains_key(q) {
                        let a = choose|a: int|
                            0 <= a < m && #[trigger] inner.entries@[a].0 == q && inner.entries@[a].1@
                                != h;
                        lemma_key_index(inner.entries@, a);
                    }
                    if without_hash(inner@, h).contains_key(q) {
                        let a = key_index(inner.entries@, q);
                        lemma_key_index(inner.entries@, a);
                        assert(inner.entries@[a].0 == q);
                    }
                }
                assert forall|q: u32| kept@.contains_key(q) implies #[trigger] kept@[q] == without_hash(
                    inner@,
                    h,
                )[q] by {
                    let a = choose|a: int|
                        0 <= a < m && #[trigger] inner.entries@[a].0 == q && inner.entries@[a].1@ != h;
                    lemma_key_index(inner.entries@, a);
                }
                assert(kept@ =~= without_hash(inner@, h));
            }
            self.attachments_instances.entries[i].1 = kept;
            i += 1;
        }
        proof {
            let entries1 = self.attachments_instances.entries@;
            assert forall|a: int, b: int| 0 <= a < b < entries1.len() implies entries1[a].0@
                != entries1[b].0@ by {
                assert(entries0[a].0@ != entries0[b].0@);
            }
            lemma_count_shrinks(entries0, entries1, n as int);
            assert forall|c: ContractIdView| has_key(entries1, c) <==> has_key(entries0, c) by {
                if has_key(entries1, c) {
                    let a = key_index(entries1, c);
                    assert(entries0[a].0@ == c);
                }
                if has_key(entries0, c) {
                    let a = key_index(entries0, c);
                    assert(entries1[a].0@ == c);
                }
            }
            assert forall|c: ContractIdView| has_key(entries1, c) implies #[trigger] self.missing()[c]
                == resolved(old(self).missing(), h)[c] by {
                let a = key_index(entries1, c);
                lemma_key_index(entries1, a);
                assert(entries0[a].0@ == c);
                lemma_key_index(entries0, a);
            }
            assert(self.missing() =~= resolved(old(self).missing(), h));
        }
    }

    /// How many attachments are missing, over all contracts.
    pub fn attachments_instances_count(&self) -> (r: usize)
        requires
            self.count_spec() <= usize::MAX,
        ensures
            r == self.count_spec(),
    {
        let mut count: usize = 0;
        let mut i: usize = 0;
        let n: usize = self.attachments_instances.entries.len();
        proof {
            lemma_count_monotone(self.attachments_instances.entries@, 0, n as int);
        }
        while i < n
            invariant
                i <= n,
                n == self.attachments_instances.entries@.len(),
                count == missing_count(self.attachments_instances.entries@, i as int),
                self.count_spec() <= usize::MAX,
            decreases n - i,
        {
            proof {
                lemma_count_monotone(self.attachments_instances.entries@, i + 1, n as int);
            }
            count = count + self.attachments_instances.entries[i].1.entries.len();
            i += 1;
        }
        count
    }
}

proof fn lemma_count_monotone(
    s: Seq<(QualifiedContractIdentifier, MissingByIndex)>,
    a: int,
    b: int,
)
    requires
        a <= b,
    ensures
        missing_count(s, a) <= missing_count(s, b),
    decreases b - a,
{
    if a < b {
        lemma_count_monotone(s, a, b - 1);
    }
}

impl Prioritized for AttachmentsBatch {
    open spec fn comparable(&self) -> bool {
        self.count_spec() <= usize::MAX
    }

    /// The earlier deadline first, then the more missing attachments, then
    /// the lower block.
    open spec fn priority_key(&self) -> (int, int, int) {
        (-(self.retry_deadline as int), self.count_spec() as int, -(self.block_height as int))
    }

    fn compare(&self, other: &Self) -> (r: Rank) {
        if self.retry_deadline != other.retry_deadline {
            if self.retry_deadline < other.retry_deadline {
                Rank::Higher
            } else {
                Rank::Lower
            }
        } else {
            let mine: usize = self.attachments_instances_count();
            let theirs: usize = other.attachments_instances_count();
            if mine != theirs {
                if mine < theirs {
                    Rank::Lower
                } else {
                    Rank::Higher
                }
            } else if self.block_height != other.block_height {
                if self.block_height < other.block_height {
                    Rank::Higher
                } else {
                    Rank::Lower
                }
            } else {
                Rank::Same
            }
        }
    }
}

/// A batch that is due earlier is served first, whatever the sizes.
pub proof fn lemma_earlier_deadline_first(a: AttachmentsBatch, b: AttachmentsBatch)
    requires
        a.retry_deadline < b.retry_deadline,
    ensures
        key_rank(a.priority_key(), b.priority_key()) == Rank::Higher,
        key_rank(b.priority_key(), a.priority_key()) == Rank::Lower,
{
}

} // verus!
