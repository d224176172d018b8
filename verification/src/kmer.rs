//! The number of k-mers that one sequence record holds.

use vstd::prelude::*;

verus! {

/// The number of positions at which a substring of `k` residues starts in a
/// record of `len` residues: `len - k + 1`, or zero where that is negative.
pub open spec fn kmers(len: nat, k: nat) -> nat {
    if len - k + 1 > 0 {
        (len - k + 1) as nat
    } else {
        0
    }
}

/// Computes [`kmers`] on machine integers. A record that is shorter than `k`
/// gives zero, never a wrapped value. The one pair that is left out has a
/// result that no `usize` holds.
pub fn kmers_in_record(len: usize, k: usize) -> (count: usize)
    requires
        k >= 1 || len < usize::MAX,
    ensures
        count == kmers(len as nat, k as nat),
{
    if k == 0 {
        len + 1
    } else {
        len.saturating_sub(k - 1)
    }
}

/// A record that is one residue short of `k` holds no k-mer, and a record of
/// exactly `k` residues holds one.
pub proof fn lemma_kmers_threshold(k: nat)
    requires
        k >= 1,
    ensures
        kmers((k - 1) as nat, k) == 0,
        kmers(k, k) == 1,
{
}

/// A record that is shorter than `k` holds no k-mer; from `k - 1` residues
/// on, each further residue adds one.
pub proof fn lemma_kmers_growth(len: nat, k: nat)
    ensures
        len < k ==> kmers(len, k) == 0,
        len + 1 >= k ==> kmers(len + 1, k) == kmers(len, k) + 1,
        kmers(len, k) <= len + 1,
{
}

} // verus!
