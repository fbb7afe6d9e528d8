//! The two kinds of request a batch sends: for a peer's inventory, and for
//! the content of one attachment.

use vstd::prelude::*;
use vstd::string::StringExecFns;
use crate::keys::{ContractIdView, Hash160, KeyEq, QualifiedContractIdentifier, StacksBlockId};
use crate::pq::Prioritized;
use crate::reliability::{Rank, ReliabilityReport};
use crate::types::HttpRequestType;
use crate::vecmap::VecMap;

verus! {

/// A request that can be sent to a peer.
pub trait Requestable: Prioritized + KeyEq {
    /// The URL of the peer the request goes to.
    spec fn url_spec(&self) -> String;

    fn get_url(&self) -> (r: &String)
        requires
            self.comparable(),
        ensures
            *r == self.url_spec(),
    ;
}

/// A request for a peer's inventory of some pages of a contract's
/// attachments.
#[derive(Debug)]
pub struct AttachmentsInventoryRequest {
    pub url: String,
    pub contract_id: QualifiedContractIdentifier,
    pub pages: Vec<u32>,
    pub block_height: u64,
    pub index_block_hash: StacksBlockId,
    pub reliability_report: ReliabilityReport,
}

/// An inventory request as a value.
pub struct InventoryRequestView {
    pub url: Seq<char>,
    pub contract_id: ContractIdView,
    pub pages: Seq<u32>,
    pub block_height: u64,
    pub index_block_hash: Seq<u8>,
    pub reliability_report: ReliabilityReport,
}

impl View for AttachmentsInventoryRequest {
    type V = InventoryRequestView;

    open spec fn view(&self) -> InventoryRequestView {
        InventoryRequestView {
            url: self.url@,
            contract_id: self.contract_id@,
            pages: self.pages@,
            block_height: self.block_height,
            index_block_hash: self.index_block_hash@,
            reliability_report: self.reliability_report,
        }
    }
}

/// What the answers to inventory requests are filed under.
#[derive(Debug)]
pub struct InventoryKey {
    pub contract_id: QualifiedContractIdentifier,
    pub pages: Vec<u32>,
    pub index_block_hash: StacksBlockId,
}

impl View for InventoryKey {
    type V = (ContractIdView, Seq<u32>, Seq<u8>);

    open spec fn view(&self) -> (ContractIdView, Seq<u32>, Seq<u8>) {
        (self.contract_id@, self.pages@, self.index_block_hash@)
    }
}

impl KeyEq for InventoryKey {
    fn key_eq(&self, other: &Self) -> (r: bool) {
        self.contract_id.key_eq(&other.contract_id) && self.pages.key_eq(&other.pages)
            && self.index_block_hash.key_eq(&other.index_block_hash)
    }
}

impl KeyEq for AttachmentsInventoryRequest {
    fn key_eq(&self, other: &Self) -> (r: bool) {
        self.url == other.url && self.contract_id.key_eq(&other.contract_id) && self.pages.key_eq(
            &other.pages,
        ) && self.block_height == other.block_height && self.index_block_hash.key_eq(
            &other.index_block_hash,
        ) && self.reliability_report == other.reliability_report
    }
}

/// No element of `s` occurs twice.
pub open spec fn no_repeats(s: Seq<u32>) -> bool {
    forall|i: int, j: int| 0 <= i < j < s.len() ==> s[i] != s[j]
}

impl AttachmentsInventoryRequest {
    /// What the answer to this request is filed under.
    pub fn key(&self) -> (k: InventoryKey)
        ensures
            k@ == (self.contract_id@, self.pages@, self.index_block_hash@),
            k.contract_id == self.contract_id,
            k.index_block_hash == self.index_block_hash,
    {
        InventoryKey {
            contract_id: self.contract_id.clone(),
            pages: crate::keys::pages_clone(&self.pages),
            index_block_hash: self.index_block_hash,
        }
    }

    /// The request in words.
    pub fn to_string(&self) -> (r: String)
        ensures
            r@ == "<Request<AttachmentsInventory>: url="@ + self.url@ + ">"@,
    {
        String::from_str("<Request<AttachmentsInventory>: url=").concat(self.url.as_str()).concat(">")
    }

    /// What is asked of the peer: its inventory of this request's pages,
    /// each page once.
    pub fn make_request_type(&self) -> (r: HttpRequestType)
        ensures
            r matches HttpRequestType::GetAttachmentsInv { index_block_hash, pages_indexes }
                && index_block_hash == self.index_block_hash && no_repeats(pages_indexes@)
                && forall|p: u32| pages_indexes@.contains(p) <==> self.pages@.contains(p),
    {
        let mut pages_indexes: Vec<u32> = Vec::new();
        let mut i: usize = 0;
        while i < self.pages.len()
            invariant
                i <= self.pages@.len(),
                no_repeats(pages_indexes@),
                forall|p: u32|
                    pages_indexes@.contains(p) <==> self.pages@.subrange(0, i as int).contains(p),
            decreases self.pages@.len() - i,
        {
            let page: u32 = self.pages[i];
            let mut found: bool = false;
            let mut j: usize = 0;
            while j < pages_indexes.len()
                invariant
                    j <= pages_indexes@.len(),
                    found == exists|k: int| 0 <= k < j && pages_indexes@[k] == page,
                decreases pages_indexes@.len() - j,
            {
                if pages_indexes[j] == page {
                    found = true;
                }
                j += 1;
            }
            let ghost before = pages_indexes@;
            let ghost prefix = self.pages@.subrange(0, i as int);
            if !found {
                pages_indexes.push(page);
            }
            i += 1;
            proof {
                let prefix1 = self.pages@.subrange(0, i as int);
                assert(prefix1 =~= prefix.push(page));
                assert forall|p: u32| pages_indexes@.contains(p) <==> prefix1.contains(p) by {
                    if pages_indexes@.contains(p) {
                        let k = choose|k: int| 0 <= k < pages_indexes@.len() && pages_indexes@[k] == p;
                        if k < before.len() {
                            assert(before[k] == p);
                            assert(before.contains(p));
                            let a = choose|a: int| 0 <= a < prefix.len() && prefix[a] == p;
                            assert(prefix1[a] == p);
                        } else {
                            assert(prefix1[i - 1] == p);
                        }
                    }
                    if prefix1.contains(p) {
                        let a = choose|a: int| 0 <= a < prefix1.len() && prefix1[a] == p;
                        if a < i - 1 {
                            assert(prefix[a] == p);
                            assert(prefix.contains(p));
                            assert(before.contains(p));
                            let k = choose|k: int| 0 <= k < before.len() && before[k] == p;
                            assert(pages_indexes@[k] == p);
                        } else if found {
                            assert(p == page);
                            let k = choose|k: int| 0 <= k < before.len() && before[k] == page;
                            assert(pages_indexes@[k] == p);
                        } else {
                            assert(pages_indexes@[before.len() as int] == p);
                        }
                    }
                }
            }
        }
        assert(self.pages@.subrange(0, self.pages@.len() as int) =~= self.pages@);
        HttpRequestType::GetAttachmentsInv {
            index_block_hash: self.index_block_hash,
            pages_indexes,
        }
    }
}

impl Prioritized for AttachmentsInventoryRequest {
    open spec fn comparable(&self) -> bool {
        self.reliability_report.score_spec() <= u32::MAX
    }

    /// The more reliable peer first.
    open spec fn priority_key(&self) -> (int, int, int) {
        (
            self.reliability_report.score_spec() as int,
            self.reliability_report.total_requests_success as int,
            0,
        )
    }

    fn compare(&self, other: &Self) -> (r: Rank) {
        self.reliability_report.compare(&other.reliability_report)
    }
}

impl Requestable for AttachmentsInventoryRequest {
    open spec fn url_spec(&self) -> String {
        self.url
    }

    fn get_url(&self) -> (r: &String) {
        &self.url
    }
}

/// The peers that have an attachment, each with its report.
pub type Sources = VecMap<String, ReliabilityReport>;

/// The position of the best of the first `n` sources: the last of those
/// with the highest score.
pub open spec fn best_source(s: Seq<(String, ReliabilityReport)>, n: int) -> int
    decreases n,
{
    if n <= 1 {
        0
    } else {
        let b = best_source(s, n - 1);
        if s[n - 1].1.score_spec() >= s[b].1.score_spec() {
            n - 1
        } else {
            b
        }
    }
}

/// No source scores higher than the best one.
pub proof fn lemma_best_source(s: Seq<(String, ReliabilityReport)>, n: int)
    requires
        1 <= n <= s.len(),
    ensures
        0 <= best_source(s, n) < n,
        forall|i: int|
            0 <= i < n ==> (#[trigger] s[i]).1.score_spec() <= s[best_source(s, n)].1.score_spec(),
    decreases n,
{
    if n > 1 {
        lemma_best_source(s, n - 1);
    }
}

/// A request for the content with a given hash, with the peers that
/// have it.
#[derive(Debug)]
pub struct AttachmentRequest {
    pub content_hash: Hash160,
    pub sources: Sources,
}

/// An attachment request as a value.
pub struct AttachmentRequestView {
    pub content_hash: Seq<u8>,
    pub sources: Seq<(Seq<char>, ReliabilityReport)>,
}

/// The sources of a request as values.
pub open spec fn sources_view(s: Seq<(String, ReliabilityReport)>) -> Seq<
    (Seq<char>, ReliabilityReport),
> {
    Seq::new(s.len(), |i: int| (s[i].0@, s[i].1))
}

impl View for AttachmentRequest {
    type V = AttachmentRequestView;

    open spec fn view(&self) -> AttachmentRequestView {
        AttachmentRequestView {
            content_hash: self.content_hash@,
            sources: sources_view(self.sources.entries@),
        }
    }
}

impl KeyEq for AttachmentRequest {
    fn key_eq(&self, other: &Self) -> (r: bool) {
        if !self.content_hash.key_eq(&other.content_hash) {
            return false;
        }
        if self.sources.entries.len() != other.sources.entries.len() {
            assert(self@.sources.len() != other@.sources.len());
            return false;
        }
        let mut i: usize = 0;
        while i < self.sources.entries.len()
            invariant
                i <= self.sources.entries@.len(),
                self.sources.entries@.len() == other.sources.entries@.len(),
                forall|j: int| 0 <= j < i ==> self@.sources[j] == other@.sources[j],
            decreases self.sources.entries@.len() - i,
        {
            if !(self.sources.entries[i].0 == other.sources.entries[i].0
                && self.sources.entries[i].1 == other.sources.entries[i].1) {
                assert(self@.sources[i as int] != other@.sources[i as int]);
                return false;
            }
            i += 1;
        }
        assert(self@.sources =~= other@.sources);
        true
    }
}

impl AttachmentRequest {
    /// The source to ask: the one with the highest score.
    pub fn get_most_reliable_source(&self) -> (r: (&String, &ReliabilityReport))
        requires
            self.comparable(),
        ensures
            ({
                let b = best_source(self.sources.entries@, self.sources.entries@.len() as int);
                &&& 0 <= b < self.sources.entries@.len()
                &&& *r.0 == self.sources.entries@[b].0
                &&& *r.1 == self.sources.entries@[b].1
                &&& forall|i: int|
                    0 <= i < self.sources.entries@.len() ==> (
                    #[trigger] self.sources.entries@[i]).1.score_spec() <= r.1.score_spec()
            }),
    {
        let mut best: usize = 0;
        let mut i: usize = 1;
        while i < self.sources.entries.len()
            invariant
                1 <= i <= self.sources.entries@.len(),
                self.comparable(),
                best == best_source(self.sources.entries@, i as int),
                0 <= best < i,
            decreases self.sources.entries@.len() - i,
        {
            if self.sources.entries[i].1.score() >= self.sources.entries[best].1.score() {
                best = i;
            }
            i += 1;
        }
        proof {
            lemma_best_source(self.sources.entries@, self.sources.entries@.len() as int);
        }
        (&self.sources.entries[best].0, &self.sources.entries[best].1)
    }

    /// The request in words.
    pub fn to_string(&self) -> (r: String)
        requires
            self.comparable(),
        ensures
            r@ == "<Request<Attachment>: url="@ + self.url_spec()@ + ">"@,
    {
        String::from_str("<Request<Attachment>: url=").concat(self.get_url().as_str()).concat(">")
    }

    /// What is asked of the peer: the content with this request's hash.
    pub fn make_request_type(&self) -> (r: HttpRequestType)
        ensures
            r == (HttpRequestType::GetAttachment { content_hash: self.content_hash }),
    {
        HttpRequestType::GetAttachment { content_hash: self.content_hash }
    }

    /// The report of the best source.
    pub open spec fn best_report(&self) -> ReliabilityReport {
        self.sources.entries@[best_source(
            self.sources.entries@,
            self.sources.entries@.len() as int,
        )].1
    }
}

impl Prioritized for AttachmentRequest {
    open spec fn comparable(&self) -> bool {
        &&& self.sources.entries@.len() > 0
        &&& forall|i: int|
            0 <= i < self.sources.entries@.len() ==> (#[trigger] self.sources.entries@[i]).1.score_spec()
                <= u32::MAX
    }

    /// The request with more sources first, then the one whose best source
    /// is the more reliable.
    open spec fn priority_key(&self) -> (int, int, int) {
        (
            self.sources.entries@.len() as int,
            self.best_report().score_spec() as int,
            self.best_report().total_requests_success as int,
        )
    }

    fn compare(&self, other: &Self) -> (r: Rank) {
        let mine: usize = self.sources.entries.len();
        let theirs: usize = other.sources.entries.len();
        if mine != theirs {
            if mine < theirs {
                Rank::Lower
            } else {
                Rank::Higher
            }
        } else {
            let (_, report) = self.get_most_reliable_source();
            let (_, other_report) = other.get_most_reliable_source();
            report.compare(other_report)
        }
    }
}

impl Requestable for AttachmentRequest {
    open spec fn url_spec(&self) -> String {
        self.sources.entries@[best_source(
            self.sources.entries@,
            self.sources.entries@.len() as int,
        )].0
    }

    fn get_url(&self) -> (r: &String) {
        let (url, _) = self.get_most_reliable_source();
        url
    }
}

} // verus!
