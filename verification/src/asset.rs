//! Plain-value representations of ledger identities and assets.
//!
//! An address and a token identifier are opaque byte strings: the registry
//! only ever compares them and hands them back to the host, so `Vec<u8>`
//! carries them faithfully. A quantity is a `u128`. An [`Asset`] bundles the
//! (identifier, sub-unit index, quantity) triple shared by deposits,
//! requested payments and outgoing transfers.

use vstd::prelude::*;

verus! {

/// One concrete asset: an identifier, the sub-unit index (nonce) that picks
/// an instance inside that identifier's namespace, and a quantity.
pub struct Asset {
    pub identifier: Vec<u8>,
    pub nonce: u64,
    pub amount: u128,
}

/// The mathematical value of an [`Asset`].
pub ghost struct AssetView {
    pub identifier: Seq<u8>,
    pub nonce: u64,
    pub amount: u128,
}

impl View for Asset {
    type V = AssetView;

    open spec fn view(&self) -> AssetView {
        AssetView { identifier: self.identifier@, nonce: self.nonce, amount: self.amount }
    }
}

/// Byte-string equality, decided element by element.
pub fn bytes_eq(a: &Vec<u8>, b: &Vec<u8>) -> (r: bool)
    ensures
        r == (a@ == b@),
{
    if a.len() != b.len() {
        assert(a@ != b@);
        return false;
    }
    let n = a.len();
    let mut i: usize = 0;
    while i < n
        invariant
            n == a@.len() && n == b@.len(),
            i <= n,
            forall|j: int| 0 <= j < i ==> a@[j] == b@[j],
        decreases n - i,
    {
        if a[i] != b[i] {
            return false;
        }
        i += 1;
    }
    assert(a@ =~= b@);
    true
}

/// A fresh byte string holding the same bytes.
pub fn copy_bytes(src: &Vec<u8>) -> (r: Vec<u8>)
    ensures
        r@ == src@,
{
    let n = src.len();
    let mut r: Vec<u8> = Vec::new();
    let mut i: usize = 0;
    while i < n
        invariant
            n == src@.len(),
            i <= n,
            r@ =~= src@.subrange(0, i as int),
        decreases n - i,
    {
        r.push(src[i]);
        i += 1;
    }
    assert(r@ =~= src@);
    r
}

} // verus!
