//! Low-level encoding of trie nodes: paths, child pointers and hashes as
//! they lie in a byte stream.

use vstd::prelude::*;
use crate::digest::{sha512_256, sha512_256_digest};

verus! {

/// The longest path a node may hold, in bytes.
pub const TRIEPATH_MAX_LEN: usize = 32;

/// The length of an encoded node hash.
pub const TRIEHASH_ENCODED_SIZE: usize = 32;

/// The length of an encoded child pointer.
pub const TRIEPTR_SIZE: usize = 10;

/// The length of the value a leaf holds.
pub const MARF_VALUE_ENCODED_SIZE: usize = 40;

/// What is wrong with the bytes of a node.
#[derive(Clone, Copy, Debug, PartialEq, Eq, Structural)]
pub enum Corruption {
    /// The stream ends before the length of the path.
    MissingPathLength,
    /// The path claims more than `TRIEPATH_MAX_LEN` bytes.
    PathTooLong { got: u8 },
    /// The stream ends before the path does.
    ShortPath { expected: u8 },
    /// The byte is no node ID.
    BadNodeId { id: u8 },
    /// The stream ends before the node ID.
    MissingNodeId,
    /// The node ID read is not the one expected.
    UnexpectedNodeId,
    /// The stream ends before the child pointers do.
    ShortPtrs { needed: usize },
    /// The stream ends before the hash does.
    ShortHash,
    /// The stream ends before the block identifier does.
    ShortBlockIdentifier,
    /// The stream ends before the leaf's value does.
    ShortLeafValue,
    /// An empty node was stored.
    StoredEmptyNode,
}

/// Why bytes could not be decoded.
#[derive(Clone, Copy, Debug, PartialEq, Eq, Structural)]
pub enum Error {
    CorruptionError(Corruption),
}

/// Node IDs, as stored in the low seven bits of an ID byte.
pub const NODE_EMPTY: u8 = 0;

/// A leaf.
pub const NODE_LEAF: u8 = 1;

/// A node with up to 4 children.
pub const NODE_4: u8 = 2;

/// A node with up to 16 children.
pub const NODE_16: u8 = 3;

/// A node with up to 48 children.
pub const NODE_48: u8 = 4;

/// A node with up to 256 children.
pub const NODE_256: u8 = 5;

/// A byte stream with a read position.
#[derive(Debug)]
pub struct ByteReader {
    pub data: Vec<u8>,
    pub pos: usize,
}

impl ByteReader {
    pub open spec fn wf(&self) -> bool {
        self.pos <= self.data@.len()
    }

    /// The bytes not read yet.
    pub open spec fn rest(&self) -> Seq<u8> {
        self.data@.subrange(self.pos as int, self.data@.len() as int)
    }

    pub fn new(data: Vec<u8>) -> (r: ByteReader)
        ensures
            r.wf(),
            r.data == data,
            r.pos == 0,
            r.rest() == data@,
    {
        let r = ByteReader { data, pos: 0 };
        assert(r.rest() =~= data@);
        r
    }

    /// Reads exactly `n` bytes. Where fewer are left, nothing is returned
    /// and the stream is left at its end.
    pub fn read_exact(&mut self, n: usize) -> (r: Option<Vec<u8>>)
        requires
            old(self).wf(),
        ensures
            final(self).wf(),
            final(self).data == old(self).data,
            match r {
                Some(bytes) => {
                    &&& n <= old(self).rest().len()
                    &&& bytes@ == old(self).rest().subrange(0, n as int)
                    &&& final(self).pos == old(self).pos + n
                    &&& final(self).rest() == old(self).rest().subrange(
                        n as int,
                        old(self).rest().len() as int,
                    )
                },
                None => {
                    &&& n > old(self).rest().len()
                    &&& final(self).pos == old(self).data@.len()
                },
            },
    {
        let left: usize = self.data.len() - self.pos;
        if n > left {
            self.pos = self.data.len();
            return None;
        }
        let mut out: Vec<u8> = Vec::new();
        let start: usize = self.pos;
        let mut i: usize = 0;
        while i < n
            invariant
                i <= n,
                start + n <= self.data@.len(),
                self.data@.len() <= usize::MAX,
                out@ == self.data@.subrange(start as int, start + i),
            decreases n - i,
        {
            out.push(self.data[start + i]);
            i += 1;
            assert(out@ =~= self.data@.subrange(start as int, start + i));
        }
        self.pos = start + n;
        assert(out@ =~= old(self).rest().subrange(0, n as int));
        assert(self.rest() =~= old(self).rest().subrange(n as int, old(self).rest().len() as int));
        Some(out)
    }

    /// Moves the read position to `pos`, or to the end where the stream is
    /// shorter.
    pub fn seek(&mut self, pos: u64)
        requires
            old(self).wf(),
        ensures
            final(self).wf(),
            final(self).data == old(self).data,
            final(self).pos == if pos <= old(self).data@.len() {
                pos as int
            } else {
                old(self).data@.len() as int
            },
    {
        if pos <= self.data.len() as u64 {
            self.pos = pos as usize;
        } else {
            self.pos = self.data.len();
        }
    }
}

/// The size of an encoded path: one length byte and the path.
pub fn get_path_byte_len(p: &Vec<u8>) -> (r: usize)
    requires
        p@.len() < 255,
    ensures
        r == 1 + p@.len(),
{
    let path_len_byte_len: usize = 1;
    path_len_byte_len + p.len()
}

/// The encoding of a path: its length in one byte, then its bytes.
pub open spec fn encoded_path(path: Seq<u8>) -> Seq<u8> {
    seq![(path.len() % 256) as u8] + path
}

/// Appends the encoding of `path` to `w`.
pub fn write_path_to_bytes(path: &[u8], w: &mut Vec<u8>) -> (r: Result<(), Error>)
    ensures
        r is Ok,
        final(w)@ == old(w)@ + encoded_path(path@),
{
    let len_byte: u8 = (path.len() % 256) as u8;
    w.push(len_byte);
    let mut i: usize = 0;
    while i < path.len()
        invariant
            i <= path@.len(),
            w@ == old(w)@ + seq![len_byte] + path@.subrange(0, i as int),
        decreases path@.len() - i,
    {
        w.push(path[i]);
        i += 1;
        assert(w@ =~= old(w)@ + seq![len_byte] + path@.subrange(0, i as int));
    }
    assert(path@.subrange(0, path@.len() as int) =~= path@);
    assert(w@ =~= old(w)@ + encoded_path(path@));
    Ok(())
}

/// What decoding a path from `input` gives.
pub open spec fn decoded_path(input: Seq<u8>) -> Result<Seq<u8>, Error> {
    if input.len() < 1 {
        Err(Error::CorruptionError(Corruption::MissingPathLength))
    } else if input[0] > TRIEPATH_MAX_LEN {
        Err(Error::CorruptionError(Corruption::PathTooLong { got: input[0] }))
    } else if input.len() < 1 + input[0] {
        Err(Error::CorruptionError(Corruption::ShortPath { expected: input[0] }))
    } else {
        Ok(input.subrange(1, 1 + input[0]))
    }
}

/// Decodes a path: a length byte of at most `TRIEPATH_MAX_LEN`, then that
/// many bytes.
pub fn path_from_bytes(r: &mut ByteReader) -> (res: Result<Vec<u8>, Error>)
    requires
        old(r).wf(),
    ensures
        final(r).wf(),
        final(r).data == old(r).data,
        match res {
            Ok(path) => {
                &&& decoded_path(old(r).rest()) == Ok::<Seq<u8>, Error>(path@)
                &&& final(r).pos == old(r).pos + 1 + path@.len()
            },
            Err(e) => {
                &&& decoded_path(old(r).rest()) == Err::<Seq<u8>, Error>(e)
                &&& final(r).pos == if e == Error::CorruptionError(Corruption::PathTooLong {
                    got: old(r).rest()[0],
                }) && old(r).rest().len() >= 1 {
                    old(r).pos + 1
                } else {
                    old(r).data@.len() as int
                }
            },
        },
{
    let lenbuf = match r.read_exact(1) {
        Some(b) => b,
        None => {
            return Err(Error::CorruptionError(Corruption::MissingPathLength));
        },
    };
    let len: u8 = lenbuf[0];
    if len as usize > TRIEPATH_MAX_LEN {
        return Err(Error::CorruptionError(Corruption::PathTooLong { got: len }));
    }
    match r.read_exact(len as usize) {
        Some(path) => {
            assert(path@ =~= old(r).rest().subrange(1, 1 + len));
            Ok(path)
        },
        None => Err(Error::CorruptionError(Corruption::ShortPath { expected: len })),
    }
}

/// A node ID without its back-pointer flag.
pub open spec fn clear_backptr_spec(id: u8) -> u8 {
    id & 0x7f
}

/// A node ID without its back-pointer flag.
pub fn clear_backptr(id: u8) -> (r: u8)
    ensures
        r == clear_backptr_spec(id),
        r <= 0x7f,
{
    assert(id & 0x7f <= 0x7f) by (bit_vector);
    id & 0x7f
}

/// Whether a byte, its flag aside, is one of the six node IDs.
pub open spec fn valid_node_id(nid: u8) -> bool {
    clear_backptr_spec(nid) <= NODE_256
}

/// Whether a byte, its flag aside, is a node ID.
pub fn check_node_id(nid: u8) -> (r: bool)
    ensures
        r == valid_node_id(nid),
{
    let node_id: u8 = clear_backptr(nid);
    node_id <= NODE_256
}

/// How many child pointers a node of the given kind holds.
pub open spec fn ptr_count(node_id: u8) -> nat {
    let id = clear_backptr_spec(node_id);
    if id == NODE_LEAF {
        1
    } else if id == NODE_4 {
        4
    } else if id == NODE_16 {
        16
    } else if id == NODE_48 {
        48
    } else {
        256
    }
}

/// How many child pointers a node of the given kind holds.
pub fn node_id_to_ptr_count(node_id: u8) -> (r: usize)
    requires
        valid_node_id(node_id),
        clear_backptr_spec(node_id) != NODE_EMPTY,
    ensures
        r == ptr_count(node_id),
{
    let id: u8 = clear_backptr(node_id);
    if id == NODE_LEAF {
        1
    } else if id == NODE_4 {
        4
    } else if id == NODE_16 {
        16
    } else if id == NODE_48 {
        48
    } else {
        256
    }
}

/// A pointer to a child node.
#[derive(Clone, Copy, Debug, PartialEq, Eq, Structural)]
pub struct TriePtr {
    pub id: u8,
    pub chr: u8,
    pub ptr: u32,
    pub back_block: u32,
}

/// The number four bytes spell, the first being the most significant.
pub open spec fn be_u32(b0: u8, b1: u8, b2: u8, b3: u8) -> u32 {
    (b0 as u32) << 24 | (b1 as u32) << 16 | (b2 as u32) << 8 | (b3 as u32)
}

/// The number four bytes spell, the first being the least significant.
pub open spec fn le_u32(b0: u8, b1: u8, b2: u8, b3: u8) -> u32 {
    be_u32(b3, b2, b1, b0)
}

/// The pointer encoded in the ten bytes of `b` from `at` on.
pub open spec fn decoded_ptr(b: Seq<u8>, at: int) -> TriePtr {
    TriePtr {
        id: b[at],
        chr: b[at + 1],
        ptr: be_u32(b[at + 2], b[at + 3], b[at + 4], b[at + 5]),
        back_block: be_u32(b[at + 6], b[at + 7], b[at + 8], b[at + 9]),
    }
}

fn read_be_u32(b0: u8, b1: u8, b2: u8, b3: u8) -> (r: u32)
    ensures
        r == be_u32(b0, b1, b2, b3),
{
    (b0 as u32) << 24 | (b1 as u32) << 16 | (b2 as u32) << 8 | (b3 as u32)
}

impl TriePtr {
    /// The pointer that points to no node.
    pub fn default() -> (r: TriePtr)
        ensures
            r == (TriePtr { id: NODE_EMPTY, chr: 0, ptr: 0, back_block: 0 }),
    {
        TriePtr { id: NODE_EMPTY, chr: 0, ptr: 0, back_block: 0 }
    }

    /// Decodes the pointer that starts at `at`.
    pub fn from_bytes(bytes: &Vec<u8>, at: usize) -> (r: TriePtr)
        requires
            at + TRIEPTR_SIZE <= bytes@.len(),
        ensures
            r == decoded_ptr(bytes@, at as int),
    {
        let len: usize = bytes.len();
        assert(at + TRIEPTR_SIZE <= len);
        TriePtr {
            id: bytes[at],
            chr: bytes[at + 1],
            ptr: read_be_u32(bytes[at + 2], bytes[at + 3], bytes[at + 4], bytes[at + 5]),
            back_block: read_be_u32(bytes[at + 6], bytes[at + 7], bytes[at + 8], bytes[at + 9]),
        }
    }
}

/// The size of an encoded list of child pointers: the node ID and the
/// pointers.
pub fn get_ptrs_byte_len(ptrs: &Vec<TriePtr>) -> (r: usize)
    requires
        1 + TRIEPTR_SIZE * ptrs@.len() <= usize::MAX,
    ensures
        r == 1 + TRIEPTR_SIZE * ptrs@.len(),
{
    let node_id_len: usize = 1;
    node_id_len + TRIEPTR_SIZE * ptrs.len()
}

/// What decoding the child pointers of a node of kind `node_id` from
/// `input` gives: the ID byte read and the pointers.
pub open spec fn decoded_ptrs(node_id: u8, input: Seq<u8>) -> Result<(u8, Seq<TriePtr>), Error> {
    if !valid_node_id(node_id) {
        Err(Error::CorruptionError(Corruption::BadNodeId { id: node_id }))
    } else if input.len() < 1 {
        Err(Error::CorruptionError(Corruption::MissingNodeId))
    } else if clear_backptr_spec(input[0]) != clear_backptr_spec(node_id) {
        Err(Error::CorruptionError(Corruption::UnexpectedNodeId))
    } else if input.len() < 1 + ptr_count(node_id) * TRIEPTR_SIZE {
        Err(
            Error::CorruptionError(
                Corruption::ShortPtrs { needed: (ptr_count(node_id) * TRIEPTR_SIZE) as usize },
            ),
        )
    } else {
        Ok(
            (
                input[0],
                Seq::new(ptr_count(node_id), |i: int| decoded_ptr(input, 1 + i * TRIEPTR_SIZE)),
            ),
        )
    }
}

/// Decodes the child pointers of a node into the front of `ptrs_buf` and
/// returns the ID byte read. On an error `ptrs_buf` is as it was.
pub fn ptrs_from_bytes(node_id: u8, r: &mut ByteReader, ptrs_buf: &mut Vec<TriePtr>) -> (res:
    Result<u8, Error>)
    requires
        old(r).wf(),
        valid_node_id(node_id) ==> clear_backptr_spec(node_id) != NODE_EMPTY && old(ptrs_buf)@.len()
            >= ptr_count(node_id),
    ensures
        final(r).wf(),
        final(r).data == old(r).data,
        final(ptrs_buf)@.len() == old(ptrs_buf)@.len(),
        match res {
            Ok(nid) => {
                &&& decoded_ptrs(node_id, old(r).rest()) matches Ok((id, ptrs))
                &&& nid == id
                &&& final(ptrs_buf)@.subrange(0, ptr_count(node_id) as int) == ptrs
                &&& final(ptrs_buf)@.subrange(
                    ptr_count(node_id) as int,
                    old(ptrs_buf)@.len() as int,
                ) == old(ptrs_buf)@.subrange(ptr_count(node_id) as int, old(ptrs_buf)@.len() as int)
                &&& final(r).pos == old(r).pos + 1 + ptr_count(node_id) * TRIEPTR_SIZE
            },
            Err(e) => {
                &&& decoded_ptrs(node_id, old(r).rest()) == Err::<(u8, Seq<TriePtr>), Error>(e)
                &&& final(ptrs_buf)@ == old(ptrs_buf)@
                &&& final(r).pos == if !valid_node_id(node_id) {
                    old(r).pos as int
                } else if e == Error::CorruptionError(Corruption::UnexpectedNodeId) {
                    old(r).pos + 1
                } else {
                    old(r).data@.len() as int
                }
            },
        },
{
    if !check_node_id(node_id) {
        return Err(Error::CorruptionError(Corruption::BadNodeId { id: node_id }));
    }
    let idbuf = match r.read_exact(1) {
        Some(b) => b,
        None => {
            return Err(Error::CorruptionError(Corruption::MissingNodeId));
        },
    };
    let nid: u8 = idbuf[0];
    if clear_backptr(nid) != clear_backptr(node_id) {
        return Err(Error::CorruptionError(Corruption::UnexpectedNodeId));
    }
    let num_ptrs: usize = node_id_to_ptr_count(node_id);
    let bytes = match r.read_exact(num_ptrs * TRIEPTR_SIZE) {
        Some(b) => b,
        None => {
            return Err(
                Error::CorruptionError(Corruption::ShortPtrs { needed: num_ptrs * TRIEPTR_SIZE }),
            );
        },
    };
    let ghost input = old(r).rest();
    let mut i: usize = 0;
    while i < num_ptrs
        invariant
            i <= num_ptrs,
            num_ptrs == ptr_count(node_id),
            num_ptrs <= 256,
            num_ptrs <= ptrs_buf@.len(),
            ptrs_buf@.len() == old(ptrs_buf)@.len(),
            bytes@.len() == num_ptrs * TRIEPTR_SIZE,
            input.len() >= 1 + num_ptrs * TRIEPTR_SIZE,
            bytes@ == input.subrange(1, 1 + num_ptrs * TRIEPTR_SIZE),
            forall|j: int|
                0 <= j < i ==> #[trigger] ptrs_buf@[j] == decoded_ptr(input, 1 + j * TRIEPTR_SIZE),
            forall|j: int| i <= j < ptrs_buf@.len() ==> #[trigger] ptrs_buf@[j] == old(ptrs_buf)@[j],
        decreases num_ptrs - i,
    {
        let p = TriePtr::from_bytes(&bytes, i * TRIEPTR_SIZE);
        assert(p == decoded_ptr(input, 1 + i * TRIEPTR_SIZE));
        ptrs_buf.set(i, p);
        i += 1;
    }
    assert(ptrs_buf@.subrange(0, num_ptrs as int) =~= Seq::new(
        ptr_count(node_id),
        |i: int| decoded_ptr(input, 1 + i * TRIEPTR_SIZE),
    ));
    assert(ptrs_buf@.subrange(num_ptrs as int, old(ptrs_buf)@.len() as int) =~= old(
        ptrs_buf,
    )@.subrange(num_ptrs as int, old(ptrs_buf)@.len() as int));
    Ok(nid)
}

/// The hash of a node.
#[derive(Clone, Copy, Debug)]
pub struct TrieHash(pub [u8; 32]);

/// The hashes of `hashes`, one after the other.
pub open spec fn joined_hashes(hashes: Seq<TrieHash>) -> Seq<u8>
    decreases hashes.len(),
{
    if hashes.len() == 0 {
        Seq::empty()
    } else {
        joined_hashes(hashes.drop_last()) + hashes.last().0@
    }
}

/// The hash of a node: the digest of its consensus bytes followed by the
/// hashes of its children.
pub fn get_node_hash(node_consensus_bytes: &[u8], child_hashes: &Vec<TrieHash>) -> (r: TrieHash)
    ensures
        r.0@ == sha512_256(node_consensus_bytes@ + joined_hashes(child_hashes@)),
{
    let mut input: Vec<u8> = crate::keys::bytes_clone(node_consensus_bytes);
    let mut i: usize = 0;
    while i < child_hashes.len()
        invariant
            i <= child_hashes@.len(),
            input@ == node_consensus_bytes@ + joined_hashes(child_hashes@.subrange(0, i as int)),
        decreases child_hashes@.len() - i,
    {
        let h: &TrieHash = &child_hashes[i];
        let ghost before = input@;
        let mut j: usize = 0;
        while j < 32
            invariant
                j <= 32,
                h.0@.len() == 32,
                input@ == before + h.0@.subrange(0, j as int),
            decreases 32 - j,
        {
            input.push(h.0[j]);
            j += 1;
            assert(input@ =~= before + h.0@.subrange(0, j as int));
        }
        assert(h.0@.subrange(0, 32) =~= h.0@);
        i += 1;
        assert(child_hashes@.subrange(0, i as int).drop_last() =~= child_hashes@.subrange(
            0,
            i - 1,
        ));
        assert(input@ =~= node_consensus_bytes@ + joined_hashes(
            child_hashes@.subrange(0, i as int),
        ));
    }
    assert(child_hashes@.subrange(0, child_hashes@.len() as int) =~= child_hashes@);
    TrieHash(sha512_256_digest(input.as_slice()))
}

/// The hash of a leaf: the digest of its consensus bytes.
pub fn get_leaf_hash(leaf_consensus_bytes: &[u8]) -> (r: TrieHash)
    ensures
        r.0@ == sha512_256(leaf_consensus_bytes@),
{
    TrieHash(sha512_256_digest(leaf_consensus_bytes))
}

/// Reads the 32 bytes of a hash.
pub fn read_hash_bytes(f: &mut ByteReader) -> (res: Result<[u8; 32], Error>)
    requires
        old(f).wf(),
    ensures
        final(f).wf(),
        final(f).data == old(f).data,
        match res {
            Ok(h) => {
                &&& old(f).rest().len() >= 32
                &&& h@ == old(f).rest().subrange(0, 32)
                &&& final(f).pos == old(f).pos + 32
            },
            Err(e) => old(f).rest().len() < 32 && e == Error::CorruptionError(
                Corruption::ShortHash,
            ) && final(f).pos == old(f).data@.len(),
        },
{
    match f.read_exact(32) {
        Some(bytes) => {
            let mut h: [u8; 32] = [0u8; 32];
            let mut i: usize = 0;
            while i < 32
                invariant
                    i <= 32,
                    bytes@.len() == 32,
                    forall|j: int| 0 <= j < i ==> h@[j] == bytes@[j],
                decreases 32 - i,
            {
                h[i] = bytes[i];
                i += 1;
            }
            assert(h@ =~= bytes@);
            Ok(h)
        },
        None => Err(Error::CorruptionError(Corruption::ShortHash)),
    }
}

/// Reads a block identifier: four bytes, the least significant first.
pub fn read_block_identifier(f: &mut ByteReader) -> (res: Result<u32, Error>)
    requires
        old(f).wf(),
    ensures
        final(f).wf(),
        final(f).data == old(f).data,
        match res {
            Ok(id) => {
                let b = old(f).rest();
                &&& b.len() >= 4
                &&& id == le_u32(b[0], b[1], b[2], b[3])
                &&& final(f).pos == old(f).pos + 4
            },
            Err(e) => old(f).rest().len() < 4 && e == Error::CorruptionError(
                Corruption::ShortBlockIdentifier,
            ) && final(f).pos == old(f).data@.len(),
        },
{
    match f.read_exact(4) {
        Some(bytes) => Ok(read_be_u32(bytes[3], bytes[2], bytes[1], bytes[0])),
        None => Err(Error::CorruptionError(Corruption::ShortBlockIdentifier)),
    }
}

/// Reads the hash of the node that `ptr` points to.
pub fn read_node_hash_bytes(f: &mut ByteReader, ptr: &TriePtr) -> (res: Result<[u8; 32], Error>)
    requires
        old(f).wf(),
    ensures
        final(f).wf(),
        final(f).data == old(f).data,
        match res {
            Ok(h) => {
                &&& ptr.ptr + 32 <= old(f).data@.len()
                &&& h@ == old(f).data@.subrange(ptr.ptr as int, ptr.ptr + 32)
                &&& final(f).pos == ptr.ptr + 32
            },
            Err(e) => ptr.ptr + 32 > old(f).data@.len() && e == Error::CorruptionError(
                Corruption::ShortHash,
            ) && final(f).pos == old(f).data@.len(),
        },
{
    f.seek(ptr.ptr as u64);
    let ghost at = f.pos;
    let res = read_hash_bytes(f);
    proof {
        if res is Ok {
            assert(res.unwrap()@ =~= old(f).data@.subrange(ptr.ptr as int, ptr.ptr + 32));
        }
    }
    res
}

/// A node of the trie.
#[derive(Debug)]
pub enum TrieNodeType {
    Node4 { path: Vec<u8>, ptrs: Vec<TriePtr> },
    Node16 { path: Vec<u8>, ptrs: Vec<TriePtr> },
    Node48 { path: Vec<u8>, ptrs: Vec<TriePtr> },
    Node256 { path: Vec<u8>, ptrs: Vec<TriePtr> },
    Leaf { path: Vec<u8>, data: Vec<u8> },
}

/// A node as a value: its kind, its path, and its child pointers or, for
/// a leaf, its value.
pub struct NodeView {
    pub id: u8,
    pub path: Seq<u8>,
    pub ptrs: Seq<TriePtr>,
    pub data: Seq<u8>,
}

impl View for TrieNodeType {
    type V = NodeView;

    open spec fn view(&self) -> NodeView {
        match self {
            TrieNodeType::Node4 { path, ptrs } => NodeView {
                id: NODE_4,
                path: path@,
                ptrs: ptrs@,
                data: Seq::empty(),
            },
            TrieNodeType::Node16 { path, ptrs } => NodeView {
                id: NODE_16,
                path: path@,
                ptrs: ptrs@,
                data: Seq::empty(),
            },
            TrieNodeType::Node48 { path, ptrs } => NodeView {
                id: NODE_48,
                path: path@,
                ptrs: ptrs@,
                data: Seq::empty(),
            },
            TrieNodeType::Node256 { path, ptrs } => NodeView {
                id: NODE_256,
                path: path@,
                ptrs: ptrs@,
                data: Seq::empty(),
            },
            TrieNodeType::Leaf { path, data } => NodeView {
                id: NODE_LEAF,
                path: path@,
                ptrs: Seq::empty(),
                data: data@,
            },
        }
    }
}

/// What decoding the body of a node of kind `id` from `input` gives: for
/// a leaf its ID byte, its path and its value; for any other node its
/// child pointers, led by the ID byte, and its path.
pub open spec fn decoded_body(id: u8, input: Seq<u8>) -> Result<NodeView, Error> {
    if id == NODE_LEAF {
        if input.len() < 1 {
            Err(Error::CorruptionError(Corruption::MissingNodeId))
        } else if clear_backptr_spec(input[0]) != NODE_LEAF {
            Err(Error::CorruptionError(Corruption::UnexpectedNodeId))
        } else {
            let rest = input.subrange(1, input.len() as int);
            match decoded_path(rest) {
                Err(e) => Err(e),
                Ok(path) => if rest.len() < 1 + path.len() + MARF_VALUE_ENCODED_SIZE {
                    Err(Error::CorruptionError(Corruption::ShortLeafValue))
                } else {
                    Ok(
                        NodeView {
                            id,
                            path,
                            ptrs: Seq::empty(),
                            data: rest.subrange(
                                1 + path.len() as int,
                                1 + path.len() + MARF_VALUE_ENCODED_SIZE,
                            ),
                        },
                    )
                },
            }
        }
    } else {
        match decoded_ptrs(id, input) {
            Err(e) => Err(e),
            Ok((_, ptrs)) => {
                let rest = input.subrange(1 + ptr_count(id) * TRIEPTR_SIZE, input.len() as int);
                match decoded_path(rest) {
                    Err(e) => Err(e),
                    Ok(path) => Ok(NodeView { id, path, ptrs, data: Seq::empty() }),
                }
            },
        }
    }
}

/// What decoding a node of kind `ptr_id` from `input` gives: the node and
/// its hash, which comes first.
pub open spec fn decoded_node(ptr_id: u8, input: Seq<u8>) -> Result<(NodeView, Seq<u8>), Error> {
    if input.len() < TRIEHASH_ENCODED_SIZE {
        Err(Error::CorruptionError(Corruption::ShortHash))
    } else if ptr_id == NODE_EMPTY {
        Err(Error::CorruptionError(Corruption::StoredEmptyNode))
    } else if ptr_id > NODE_256 {
        Err(Error::CorruptionError(Corruption::BadNodeId { id: ptr_id }))
    } else {
        match decoded_body(ptr_id, input.subrange(TRIEHASH_ENCODED_SIZE as int, input.len() as int)) {
            Err(e) => Err(e),
            Ok(node) => Ok((node, input.subrange(0, TRIEHASH_ENCODED_SIZE as int))),
        }
    }
}

fn default_ptrs(count: usize) -> (r: Vec<TriePtr>)
    ensures
        r@.len() == count,
{
    let mut ptrs: Vec<TriePtr> = Vec::new();
    let mut i: usize = 0;
    while i < count
        invariant
            i <= count,
            ptrs@.len() == i,
        decreases count - i,
    {
        ptrs.push(TriePtr::default());
        i += 1;
    }
    ptrs
}

/// Decodes the body of a node of kind `id`; see `decoded_body`.
fn node_from_bytes(id: u8, f: &mut ByteReader) -> (res: Result<TrieNodeType, Error>)
    requires
        old(f).wf(),
        NODE_LEAF <= id <= NODE_256,
    ensures
        final(f).wf(),
        final(f).data == old(f).data,
        match res {
            Ok(node) => decoded_body(id, old(f).rest()) == Ok::<NodeView, Error>(node@)
                && final(f).pos == old(f).pos + node_byte_len(node@),
            Err(e) => decoded_body(id, old(f).rest()) == Err::<NodeView, Error>(e),
        },
{
    assert(id & 0x7f == id) by (bit_vector)
        requires
            id <= 5,
    ;
    let ghost input = f.rest();
    if id == NODE_LEAF {
        let idbuf = match f.read_exact(1) {
            Some(b) => b,
            None => {
                return Err(Error::CorruptionError(Corruption::MissingNodeId));
            },
        };
        if clear_backptr(idbuf[0]) != NODE_LEAF {
            return Err(Error::CorruptionError(Corruption::UnexpectedNodeId));
        }
        let ghost rest = f.rest();
        assert(rest == input.subrange(1, input.len() as int));
        let path = match path_from_bytes(f) {
            Ok(p) => p,
            Err(e) => {
                return Err(e);
            },
        };
        assert(f.rest() =~= rest.subrange(1 + path@.len() as int, rest.len() as int));
        match f.read_exact(MARF_VALUE_ENCODED_SIZE) {
            Some(data) => {
                assert(data@ =~= rest.subrange(
                    1 + path@.len() as int,
                    1 + path@.len() + MARF_VALUE_ENCODED_SIZE,
                ));
                Ok(TrieNodeType::Leaf { path, data })
            },
            None => Err(Error::CorruptionError(Corruption::ShortLeafValue)),
        }
    } else {
        let count: usize = node_id_to_ptr_count(id);
        let mut ptrs: Vec<TriePtr> = default_ptrs(count);
        match ptrs_from_bytes(id, f, &mut ptrs) {
            Ok(_) => {},
            Err(e) => {
                return Err(e);
            },
        }
        assert(ptrs@ =~= ptrs@.subrange(0, count as int));
        let ghost rest = f.rest();
        assert(rest =~= input.subrange(1 + ptr_count(id) * TRIEPTR_SIZE, input.len() as int));
        let path = match path_from_bytes(f) {
            Ok(p) => p,
            Err(e) => {
                return Err(e);
            },
        };
        if id == NODE_4 {
            Ok(TrieNodeType::Node4 { path, ptrs })
        } else if id == NODE_16 {
            Ok(TrieNodeType::Node16 { path, ptrs })
        } else if id == NODE_48 {
            Ok(TrieNodeType::Node48 { path, ptrs })
        } else {
            Ok(TrieNodeType::Node256 { path, ptrs })
        }
    }
}

/// Decodes a node where the stream stands: its hash, then the node of
/// the kind `ptr_id`.
pub fn read_nodetype_at_head(f: &mut ByteReader, ptr_id: u8) -> (res: Result<
    (TrieNodeType, TrieHash),
    Error,
>)
    requires
        old(f).wf(),
    ensures
        final(f).wf(),
        final(f).data == old(f).data,
        match res {
            Ok((node, hash)) => decoded_node(ptr_id, old(f).rest()) == Ok::<
                (NodeView, Seq<u8>),
                Error,
            >((node@, hash.0@)) && final(f).pos == old(f).pos + TRIEHASH_ENCODED_SIZE
                + node_byte_len(node@),
            Err(e) => decoded_node(ptr_id, old(f).rest()) == Err::<(NodeView, Seq<u8>), Error>(e),
        },
{
    let ghost input = f.rest();
    let h = match read_hash_bytes(f) {
        Ok(h) => h,
        Err(e) => {
            return Err(e);
        },
    };
    assert(f.rest() =~= input.subrange(TRIEHASH_ENCODED_SIZE as int, input.len() as int));
    if ptr_id == NODE_EMPTY {
        return Err(Error::CorruptionError(Corruption::StoredEmptyNode));
    }
    if ptr_id > NODE_256 {
        return Err(Error::CorruptionError(Corruption::BadNodeId { id: ptr_id }));
    }
    match node_from_bytes(ptr_id, f) {
        Ok(node) => Ok((node, TrieHash(h))),
        Err(e) => Err(e),
    }
}

/// Decodes the node that `ptr` points to.
pub fn read_nodetype(f: &mut ByteReader, ptr: &TriePtr) -> (res: Result<
    (TrieNodeType, TrieHash),
    Error,
>)
    requires
        old(f).wf(),
    ensures
        final(f).wf(),
        final(f).data == old(f).data,
        ({
            let at = if ptr.ptr <= old(f).data@.len() {
                ptr.ptr as int
            } else {
                old(f).data@.len() as int
            };
            let input = old(f).data@.subrange(at, old(f).data@.len() as int);
            match res {
                Ok((node, hash)) => decoded_node(ptr.id, input) == Ok::<(NodeView, Seq<u8>), Error>(
                    (node@, hash.0@),
                ),
                Err(e) => decoded_node(ptr.id, input) == Err::<(NodeView, Seq<u8>), Error>(e),
            }
        }),
{
    f.seek(ptr.ptr as u64);
    read_nodetype_at_head(f, ptr.id)
}

/// The four bytes of a number, the most significant first.
pub open spec fn be_bytes(x: u32) -> Seq<u8> {
    seq![(x >> 24) as u8, ((x >> 16) & 0xff) as u8, ((x >> 8) & 0xff) as u8, (x & 0xff) as u8]
}

/// The encoding of a child pointer.
pub open spec fn encoded_ptr(p: TriePtr) -> Seq<u8> {
    seq![p.id, p.chr] + be_bytes(p.ptr) + be_bytes(p.back_block)
}

/// The encodings of the first `n` pointers, one after the other.
pub open spec fn encoded_ptrs(ptrs: Seq<TriePtr>, n: int) -> Seq<u8>
    decreases n,
{
    if n <= 0 {
        Seq::empty()
    } else {
        encoded_ptrs(ptrs, n - 1) + encoded_ptr(ptrs[n - 1])
    }
}

/// The encoding of a node: its ID, then its pointers and its path or,
/// for a leaf, its path and its value.
pub open spec fn encoded_node(node: NodeView) -> Seq<u8> {
    if node.id == NODE_LEAF {
        seq![node.id] + encoded_path(node.path) + node.data
    } else {
        seq![node.id] + encoded_ptrs(node.ptrs, node.ptrs.len() as int) + encoded_path(node.path)
    }
}

/// The length of the encoding of a node.
pub open spec fn node_byte_len(node: NodeView) -> int {
    if node.id == NODE_LEAF {
        (1 + 1 + node.path.len() + node.data.len()) as int
    } else {
        1 + TRIEPTR_SIZE * node.ptrs.len() + 1 + node.path.len()
    }
}

proof fn lemma_encoded_ptrs_len(ptrs: Seq<TriePtr>, n: int)
    requires
        0 <= n <= ptrs.len(),
    ensures
        encoded_ptrs(ptrs, n).len() == TRIEPTR_SIZE * n,
    decreases n,
{
    if n > 0 {
        lemma_encoded_ptrs_len(ptrs, n - 1);
    }
}

/// The encoding of a node is as long as `node_byte_len` says.
pub proof fn lemma_encoded_node_len(node: NodeView)
    ensures
        encoded_node(node).len() == node_byte_len(node),
{
    lemma_encoded_ptrs_len(node.ptrs, node.ptrs.len() as int);
}

fn push_be_bytes(w: &mut Vec<u8>, x: u32)
    ensures
        final(w)@ == old(w)@ + be_bytes(x),
{
    w.push((x >> 24) as u8);
    w.push(((x >> 16) & 0xff) as u8);
    w.push(((x >> 8) & 0xff) as u8);
    w.push((x & 0xff) as u8);
    assert(w@ =~= old(w)@ + be_bytes(x));
}

fn write_ptrs(w: &mut Vec<u8>, ptrs: &Vec<TriePtr>)
    ensures
        final(w)@ == old(w)@ + encoded_ptrs(ptrs@, ptrs@.len() as int),
{
    let mut i: usize = 0;
    assert(w@ =~= old(w)@ + encoded_ptrs(ptrs@, 0));
    while i < ptrs.len()
        invariant
            i <= ptrs@.len(),
            w@ == old(w)@ + encoded_ptrs(ptrs@, i as int),
        decreases ptrs@.len() - i,
    {
        let p: TriePtr = ptrs[i];
        let ghost before = w@;
        w.push(p.id);
        w.push(p.chr);
        push_be_bytes(w, p.ptr);
        push_be_bytes(w, p.back_block);
        assert(w@ =~= before + encoded_ptr(p));
        i += 1;
        assert(w@ =~= old(w)@ + encoded_ptrs(ptrs@, i as int));
    }
}

fn append_bytes(w: &mut Vec<u8>, bytes: &Vec<u8>)
    ensures
        final(w)@ == old(w)@ + bytes@,
{
    let mut i: usize = 0;
    assert(w@ =~= old(w)@ + bytes@.subrange(0, 0));
    while i < bytes.len()
        invariant
            i <= bytes@.len(),
            w@ == old(w)@ + bytes@.subrange(0, i as int),
        decreases bytes@.len() - i,
    {
        w.push(bytes[i]);
        i += 1;
        assert(w@ =~= old(w)@ + bytes@.subrange(0, i as int));
    }
    assert(bytes@.subrange(0, bytes@.len() as int) =~= bytes@);
}

/// How many bytes a node takes when written, its hash included.
pub fn get_node_byte_len(node: &TrieNodeType) -> (r: usize)
    requires
        TRIEHASH_ENCODED_SIZE + node_byte_len(node@) <= usize::MAX,
    ensures
        r == TRIEHASH_ENCODED_SIZE + node_byte_len(node@),
{
    let hash_len: usize = TRIEHASH_ENCODED_SIZE;
    let node_byte_len: usize = match node {
        TrieNodeType::Leaf { path, data } => 1 + 1 + path.len() + data.len(),
        TrieNodeType::Node4 { path, ptrs } => 1 + TRIEPTR_SIZE * ptrs.len() + 1 + path.len(),
        TrieNodeType::Node16 { path, ptrs } => 1 + TRIEPTR_SIZE * ptrs.len() + 1 + path.len(),
        TrieNodeType::Node48 { path, ptrs } => 1 + TRIEPTR_SIZE * ptrs.len() + 1 + path.len(),
        TrieNodeType::Node256 { path, ptrs } => 1 + TRIEPTR_SIZE * ptrs.len() + 1 + path.len(),
    };
    hash_len + node_byte_len
}

/// Appends a node to `f`: its hash, then its encoding. Returns the
/// number of bytes written.
pub fn write_nodetype_bytes(f: &mut Vec<u8>, node: &TrieNodeType, hash: TrieHash) -> (r: Result<
    u64,
    Error,
>)
    requires
        TRIEHASH_ENCODED_SIZE + node_byte_len(node@) <= u64::MAX,
    ensures
        final(f)@ == old(f)@ + hash.0@ + encoded_node(node@),
        r == Ok::<u64, Error>((TRIEHASH_ENCODED_SIZE + node_byte_len(node@)) as u64),
{
    let mut written: Vec<u8> = Vec::new();
    let mut i: usize = 0;
    while i < 32
        invariant
            i <= 32,
            hash.0@.len() == 32,
            written@ == hash.0@.subrange(0, i as int),
        decreases 32 - i,
    {
        written.push(hash.0[i]);
        i += 1;
        assert(written@ =~= hash.0@.subrange(0, i as int));
    }
    assert(hash.0@.subrange(0, 32) =~= hash.0@);
    let ghost head = written@;
    match node {
        TrieNodeType::Leaf { path, data } => {
            written.push(NODE_LEAF);
            write_path_to_bytes(path.as_slice(), &mut written);
            append_bytes(&mut written, data);
        },
        TrieNodeType::Node4 { path, ptrs } => {
            written.push(NODE_4);
            write_ptrs(&mut written, ptrs);
            write_path_to_bytes(path.as_slice(), &mut written);
        },
        TrieNodeType::Node16 { path, ptrs } => {
            written.push(NODE_16);
            write_ptrs(&mut written, ptrs);
            write_path_to_bytes(path.as_slice(), &mut written);
        },
        TrieNodeType::Node48 { path, ptrs } => {
            written.push(NODE_48);
            write_ptrs(&mut written, ptrs);
            write_path_to_bytes(path.as_slice(), &mut written);
        },
        TrieNodeType::Node256 { path, ptrs } => {
            written.push(NODE_256);
            write_ptrs(&mut written, ptrs);
            write_path_to_bytes(path.as_slice(), &mut written);
        },
    }
    assert(written@ =~= hash.0@ + encoded_node(node@));
    proof {
        lemma_encoded_node_len(node@);
    }
    let count: u64 = written.len() as u64;
    append_bytes(f, &written);
    assert(f@ =~= old(f)@ + hash.0@ + encoded_node(node@));
    Ok(count)
}

/// How many of the first `n` pointers point to a node.
pub open spec fn children_among(children: Seq<TriePtr>, n: int) -> nat
    decreases n,
{
    if n <= 0 {
        0
    } else {
        children_among(children, n - 1) + if children[n - 1].id != NODE_EMPTY {
            1nat
        } else {
            0nat
        }
    }
}

/// Counts the pointers that point to a node.
pub fn count_children(children: &Vec<TriePtr>) -> (cnt: usize)
    ensures
        cnt == children_among(children@, children@.len() as int),
{
    let mut cnt: usize = 0;
    let mut i: usize = 0;
    while i < children.len()
        invariant
            i <= children@.len(),
            cnt <= i,
            cnt == children_among(children@, i as int),
        decreases children@.len() - i,
    {
        if children[i].id != NODE_EMPTY {
            cnt += 1;
        }
        i += 1;
    }
    cnt
}

} // verus!
