//! Plain values the downloader works on: addresses, errors, attachments
//! and what the chain says about them.

use vstd::prelude::*;
use crate::digest::{hash160, hash160_of};
use crate::keys::{bytes_eq, Hash160, KeyEq, QualifiedContractIdentifier, StacksBlockId};

verus! {

/// How many attachments one inventory page covers.
pub const ATTACHMENTS_INV_PAGE_SIZE: u32 = 8;

/// How many pages one inventory request may ask for.
pub const MAX_ATTACHMENT_INV_PAGES_PER_REQUEST: usize = 8;

/// The longest wait, in seconds, before a failed batch is tried again.
pub const MAX_RETRY_DELAY: u64 = 600;

/// An IP address, as a number.
#[derive(Clone, Copy, Debug, PartialEq, Eq, Structural)]
pub enum IpAddress {
    V4(u32),
    V6(u128),
}

/// An address a peer can be reached at.
#[derive(Clone, Copy, Debug, PartialEq, Eq, Structural)]
pub struct SocketAddress {
    pub ip: IpAddress,
    pub port: u16,
}

/// What can go wrong with one peer while the batch goes on.
#[derive(Debug)]
pub enum NetError {
    /// The peer's data URL does not parse.
    InvalidUrl,
    /// The resolver refused or failed a lookup.
    LookupError(String),
    /// The connection to the peer failed.
    ConnectionError(String),
}

impl Clone for NetError {
    fn clone(&self) -> (r: Self)
        ensures
            r == *self,
    {
        match self {
            NetError::InvalidUrl => NetError::InvalidUrl,
            NetError::LookupError(m) => NetError::LookupError(m.clone()),
            NetError::ConnectionError(m) => NetError::ConnectionError(m.clone()),
        }
    }
}

/// The limits a batch runs under.
#[derive(Clone, Copy, Debug, PartialEq, Eq, Structural)]
pub struct ConnectionOptions {
    /// How long a lookup may take, in milliseconds.
    pub dns_timeout: u128,
    /// How many requests may be open at once.
    pub max_inflight_attachments: u64,
    /// After how many failed rounds a batch is dropped.
    pub max_attachment_retry_count: u64,
}

/// One on-chain reference to an attachment.
#[derive(Debug)]
pub struct AttachmentInstance {
    pub content_hash: Hash160,
    pub attachment_index: u32,
    pub block_height: u64,
    pub index_block_hash: StacksBlockId,
    pub contract_id: QualifiedContractIdentifier,
}

impl Clone for AttachmentInstance {
    fn clone(&self) -> (r: Self)
        ensures
            r == *self,
    {
        AttachmentInstance {
            content_hash: self.content_hash,
            attachment_index: self.attachment_index,
            block_height: self.block_height,
            index_block_hash: self.index_block_hash,
            contract_id: self.contract_id.clone(),
        }
    }
}

/// One page of a peer's inventory: a flag per attachment of that page.
#[derive(Debug)]
pub struct AttachmentPage {
    pub index: u32,
    pub inventory: Vec<u8>,
}

/// A peer's answer to an inventory request.
#[derive(Debug)]
pub struct GetAttachmentsInvResponse {
    pub block_id: StacksBlockId,
    pub pages: Vec<AttachmentPage>,
}

/// Content that the chain refers to by its hash.
#[derive(Debug)]
pub struct Attachment {
    pub content: Vec<u8>,
}

impl View for Attachment {
    type V = Seq<u8>;

    open spec fn view(&self) -> Seq<u8> {
        self.content@
    }
}

impl KeyEq for Attachment {
    fn key_eq(&self, other: &Self) -> (r: bool) {
        bytes_eq(self.content.as_slice(), other.content.as_slice())
    }
}

impl Clone for Attachment {
    fn clone(&self) -> (r: Self)
        ensures
            r@ == self@,
    {
        Attachment { content: crate::keys::bytes_clone(self.content.as_slice()) }
    }
}

impl Attachment {
    pub fn new(content: Vec<u8>) -> (r: Attachment)
        ensures
            r.content == content,
    {
        Attachment { content }
    }

    /// The attachment without content, which an empty hash is bound to.
    pub fn empty() -> (r: Attachment)
        ensures
            r@ == Seq::<u8>::empty(),
    {
        Attachment { content: Vec::new() }
    }

    /// The hash the chain knows this content by.
    pub fn hash(&self) -> (r: Hash160)
        ensures
            r@ == hash160(self@),
    {
        hash160_of(self.content.as_slice())
    }
}

/// What a request asks a peer for.
#[derive(Debug)]
pub enum HttpRequestType {
    /// The peer's inventory of the given pages at the given block.
    GetAttachmentsInv { index_block_hash: StacksBlockId, pages_indexes: Vec<u32> },
    /// The content with the given hash.
    GetAttachment { content_hash: Hash160 },
}

/// What a peer answered.
#[derive(Debug)]
pub enum HttpResponseType {
    GetAttachmentsInv(GetAttachmentsInvResponse),
    GetAttachment(Attachment),
    NotFound,
    /// Any other answer.
    Other,
}

} // verus!
