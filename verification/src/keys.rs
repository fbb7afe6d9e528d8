//! Identifiers the downloader keys its tables by, and the equality the
//! tables rely on.

use vstd::prelude::*;

verus! {

/// A value that can key a table: two keys are the same entry exactly when
/// their views are equal.
pub trait KeyEq: View + Sized {
    fn key_eq(&self, other: &Self) -> (r: bool)
        ensures
            r == (self@ == other@),
    ;
}

impl KeyEq for usize {
    fn key_eq(&self, other: &Self) -> (r: bool) {
        *self == *other
    }
}

impl KeyEq for u32 {
    fn key_eq(&self, other: &Self) -> (r: bool) {
        *self == *other
    }
}

impl KeyEq for String {
    fn key_eq(&self, other: &Self) -> (r: bool) {
        *self == *other
    }
}

/// Whether two byte strings hold the same bytes.
pub fn bytes_eq(a: &[u8], b: &[u8]) -> (r: bool)
    ensures
        r == (a@ == b@),
{
    if a.len() != b.len() {
        return false;
    }
    let mut i: usize = 0;
    while i < a.len()
        invariant
            a@.len() == b@.len(),
            i <= a@.len(),
            forall|j: int| 0 <= j < i ==> a@[j] == b@[j],
        decreases a@.len() - i,
    {
        if a[i] != b[i] {
            return false;
        }
        i += 1;
    }
    assert(a@ =~= b@);
    true
}

/// A copy of a byte string.
pub fn bytes_clone(a: &[u8]) -> (r: Vec<u8>)
    ensures
        r@ == a@,
{
    let mut out: Vec<u8> = Vec::new();
    let mut i: usize = 0;
    while i < a.len()
        invariant
            i <= a@.len(),
            out@ == a@.subrange(0, i as int),
        decreases a@.len() - i,
    {
        out.push(a[i]);
        i += 1;
        assert(out@ =~= a@.subrange(0, i as int));
    }
    assert(a@.subrange(0, a@.len() as int) =~= a@);
    out
}

impl KeyEq for Vec<u32> {
    fn key_eq(&self, other: &Self) -> (r: bool) {
        if self.len() != other.len() {
            return false;
        }
        let mut i: usize = 0;
        while i < self.len()
            invariant
                self@.len() == other@.len(),
                i <= self@.len(),
                forall|j: int| 0 <= j < i ==> self@[j] == other@[j],
            decreases self@.len() - i,
        {
            if self[i] != other[i] {
                return false;
            }
            i += 1;
        }
        assert(self@ =~= other@);
        true
    }
}

/// A copy of a list of page indexes.
pub fn pages_clone(pages: &Vec<u32>) -> (r: Vec<u32>)
    ensures
        r@ == pages@,
{
    let mut out: Vec<u32> = Vec::new();
    let mut i: usize = 0;
    while i < pages.len()
        invariant
            i <= pages@.len(),
            out@ == pages@.subrange(0, i as int),
        decreases pages@.len() - i,
    {
        out.push(pages[i]);
        i += 1;
        assert(out@ =~= pages@.subrange(0, i as int));
    }
    assert(pages@.subrange(0, pages@.len() as int) =~= pages@);
    out
}

/// A 20-byte content hash.
#[derive(Clone, Copy, Debug)]
pub struct Hash160(pub [u8; 20]);

impl View for Hash160 {
    type V = Seq<u8>;

    open spec fn view(&self) -> Seq<u8> {
        self.0@
    }
}

impl Hash160 {
    /// The all-zero hash, which stands for "no content".
    pub fn empty() -> (r: Hash160)
        ensures
            r@ == Seq::new(20, |i: int| 0u8),
    {
        let r = Hash160([0u8; 20]);
        assert(r@ =~= Seq::new(20, |i: int| 0u8));
        r
    }

    /// Whether this is the all-zero hash.
    pub open spec fn is_empty_spec(&self) -> bool {
        self@ == Seq::new(20, |i: int| 0u8)
    }

    /// Whether this is the all-zero hash.
    pub fn is_empty(&self) -> (r: bool)
        ensures
            r == self.is_empty_spec(),
    {
        self.key_eq(&Hash160::empty())
    }
}

impl KeyEq for Hash160 {
    fn key_eq(&self, other: &Self) -> (r: bool) {
        bytes_eq(self.0.as_slice(), other.0.as_slice())
    }
}

/// The 32-byte identifier of a block in the chain index.
#[derive(Clone, Copy, Debug)]
pub struct StacksBlockId(pub [u8; 32]);

impl View for StacksBlockId {
    type V = Seq<u8>;

    open spec fn view(&self) -> Seq<u8> {
        self.0@
    }
}

impl KeyEq for StacksBlockId {
    fn key_eq(&self, other: &Self) -> (r: bool) {
        bytes_eq(self.0.as_slice(), other.0.as_slice())
    }
}

/// A contract's fully qualified name: the issuing principal and the
/// contract's own name.
#[derive(Debug)]
pub struct QualifiedContractIdentifier {
    pub issuer_version: u8,
    pub issuer: [u8; 20],
    pub name: String,
}

/// A contract's name as a value.
pub struct ContractIdView {
    pub issuer_version: u8,
    pub issuer: Seq<u8>,
    pub name: Seq<char>,
}

impl View for QualifiedContractIdentifier {
    type V = ContractIdView;

    open spec fn view(&self) -> ContractIdView {
        ContractIdView {
            issuer_version: self.issuer_version,
            issuer: self.issuer@,
            name: self.name@,
        }
    }
}

impl KeyEq for QualifiedContractIdentifier {
    fn key_eq(&self, other: &Self) -> (r: bool) {
        self.issuer_version == other.issuer_version && bytes_eq(
            self.issuer.as_slice(),
            other.issuer.as_slice(),
        ) && self.name == other.name
    }
}

impl Clone for QualifiedContractIdentifier {
    fn clone(&self) -> (r: Self)
        ensures
            r == *self,
    {
        QualifiedContractIdentifier {
            issuer_version: self.issuer_version,
            issuer: self.issuer,
            name: self.name.clone(),
        }
    }
}

} // verus!
