//! The duplication check: functions that share a signature or a body shape.

use vstd::prelude::*;
use crate::idiom::FunctionIdioms;
use crate::text::eq_str;

verus! {

/// The demerits each duplication signal adds.
pub const DRY_WEIGHT: u32 = 3;

/// Which fingerprint two functions are compared by.
#[derive(Clone, Copy)]
pub enum Fingerprint {
    Signature,
    Body,
}

/// The fingerprint of the given kind.
pub open spec fn key_of(f: FunctionIdioms, kind: Fingerprint) -> Seq<char> {
    match kind {
        Fingerprint::Signature => f.sig_fingerprint@,
        Fingerprint::Body => f.body_fingerprint@,
    }
}

/// Whether the function at `i` shares a non-empty fingerprint with another
/// function of the list.
pub open spec fn is_duplicate(fs: Seq<FunctionIdioms>, i: int, kind: Fingerprint) -> bool {
    &&& key_of(fs[i], kind).len() > 0
    &&& exists|j: int| 0 <= j < fs.len() && j != i && #[trigger] key_of(fs[j], kind) == key_of(fs[i], kind)
}

/// The demerits the duplication check gives the function at `i`.
pub open spec fn dry_demerits(fs: Seq<FunctionIdioms>, i: int) -> int {
    (if is_duplicate(fs, i, Fingerprint::Signature) { DRY_WEIGHT as int } else { 0 })
        + (if is_duplicate(fs, i, Fingerprint::Body) { DRY_WEIGHT as int } else { 0 })
}

fn key<'a>(f: &'a FunctionIdioms, kind: Fingerprint) -> (k: &'a String)
    ensures
        k@ == key_of(*f, kind),
{
    match kind {
        Fingerprint::Signature => &f.sig_fingerprint,
        Fingerprint::Body => &f.body_fingerprint,
    }
}

/// For each function, whether it shares a non-empty fingerprint of the given
/// kind with another function of the list.
pub fn find_duplicate_indices(functions: &[FunctionIdioms], kind: Fingerprint) -> (flagged: Vec<bool>)
    ensures
        flagged@.len() == functions@.len(),
        forall|i: int| 0 <= i < functions@.len() ==> #[trigger] flagged@[i] == is_duplicate(functions@, i, kind),
{
    let n = functions.len();
    let mut flagged: Vec<bool> = Vec::new();
    let mut i: usize = 0;
    while i < n
        invariant
            n == functions@.len(),
            i <= n,
            flagged@.len() == i,
            forall|k: int| 0 <= k < i ==> #[trigger] flagged@[k] == is_duplicate(functions@, k, kind),
        decreases n - i,
    {
        let ki = key(&functions[i], kind);
        let mut dup = false;
        if !ki.as_str().is_empty() {
            let mut j: usize = 0;
            while j < n
                invariant
                    n == functions@.len(),
                    i < n,
                    j <= n,
                    ki@ == key_of(functions@[i as int], kind),
                    !dup ==> forall|m: int| 0 <= m < j && m != i ==> #[trigger] key_of(functions@[m], kind) != ki@,
                    dup ==> exists|m: int| 0 <= m < n && m != i && #[trigger] key_of(functions@[m], kind) == ki@,
                decreases n - j,
            {
                if j != i && !dup {
                    let kj = key(&functions[j], kind);
                    if eq_str(kj.as_str(), ki.as_str()) {
                        dup = true;
                        assert(key_of(functions@[j as int], kind) == ki@);
                    }
                }
                j = j + 1;
            }
        }
        proof {
            if ki@.len() > 0 {
                assert(ki@.len() == key_of(functions@[i as int], kind).len());
            }
        }
        flagged.push(dup);
        i = i + 1;
    }
    flagged
}

/// Adds `DRY_WEIGHT` demerits to each function that shares its signature
/// fingerprint with another, and again to each that shares its body
/// fingerprint; empty fingerprints are ignored and nothing else changes.
pub fn check_dryness(functions: &mut [FunctionIdioms])
    requires
        forall|i: int| 0 <= i < old(functions)@.len()
            ==> old(functions)@[i].demerits + #[trigger] dry_demerits(old(functions)@, i) <= u32::MAX,
    ensures
        final(functions)@.len() == old(functions)@.len(),
        forall|i: int| 0 <= i < final(functions)@.len() ==> {
            let f = #[trigger] final(functions)@[i];
            let o = old(functions)@[i];
            &&& f.demerits == o.demerits + dry_demerits(old(functions)@, i)
            &&& f == FunctionIdioms { demerits: f.demerits, ..o }
        },
{
    let sig_flagged = find_duplicate_indices(functions, Fingerprint::Signature);
    let body_flagged = find_duplicate_indices(functions, Fingerprint::Body);
    let ghost orig = functions@;
    let mut i: usize = 0;
    while i < functions.len()
        invariant
            i <= functions@.len(),
            functions@.len() == orig.len(),
            sig_flagged@.len() == orig.len(),
            body_flagged@.len() == orig.len(),
            forall|k: int| 0 <= k < orig.len() ==> #[trigger] sig_flagged@[k] == is_duplicate(orig, k, Fingerprint::Signature),
            forall|k: int| 0 <= k < orig.len() ==> #[trigger] body_flagged@[k] == is_duplicate(orig, k, Fingerprint::Body),
            forall|k: int| 0 <= k < orig.len() ==> orig[k].demerits + #[trigger] dry_demerits(orig, k) <= u32::MAX,
            forall|k: int| i <= k < orig.len() ==> #[trigger] functions@[k] == orig[k],
            forall|k: int| 0 <= k < i ==> {
                let f = #[trigger] functions@[k];
                &&& f.demerits == orig[k].demerits + dry_demerits(orig, k)
                &&& f == FunctionIdioms { demerits: f.demerits, ..orig[k] }
            },
        decreases functions@.len() - i,
    {
        proof {
            assert(orig[i as int].demerits + dry_demerits(orig, i as int) <= u32::MAX);
        }
        if sig_flagged[i] {
            functions[i].demerits = functions[i].demerits + DRY_WEIGHT;
        }
        if body_flagged[i] {
            functions[i].demerits = functions[i].demerits + DRY_WEIGHT;
        }
        i = i + 1;
    }
}

/// Two functions that share a non-empty fingerprint are both flagged as
/// duplicates.
pub proof fn lemma_shared_fingerprint_flags_both(fs: Seq<FunctionIdioms>, i: int, j: int, kind: Fingerprint)
    requires
        0 <= i < fs.len(),
        0 <= j < fs.len(),
        i != j,
        key_of(fs[i], kind) == key_of(fs[j], kind),
        key_of(fs[i], kind).len() > 0,
    ensures
        is_duplicate(fs, i, kind),
        is_duplicate(fs, j, kind),
{
    assert(key_of(fs[j], kind) == key_of(fs[i], kind));
    assert(key_of(fs[i], kind) == key_of(fs[j], kind));
}

/// A function whose fingerprint is empty is never flagged by that
/// fingerprint, and one whose fingerprint no other function has is not
/// flagged either.
pub proof fn lemma_unshared_fingerprint_not_flagged(fs: Seq<FunctionIdioms>, i: int, kind: Fingerprint)
    requires
        0 <= i < fs.len(),
        key_of(fs[i], kind).len() == 0
            || forall|j: int| 0 <= j < fs.len() && j != i ==> #[trigger] key_of(fs[j], kind) != key_of(fs[i], kind),
    ensures
        !is_duplicate(fs, i, kind),
{
}

/// The duplication check adds no demerits, three (one signal) or six (both
/// signals).
pub proof fn lemma_dry_demerits_stack(fs: Seq<FunctionIdioms>, i: int)
    ensures
        dry_demerits(fs, i) == 0 || dry_demerits(fs, i) == 3 || dry_demerits(fs, i) == 6,
        dry_demerits(fs, i) == 6 <==> (is_duplicate(fs, i, Fingerprint::Signature) && is_duplicate(fs, i, Fingerprint::Body)),
        dry_demerits(fs, i) == 0 <==> (!is_duplicate(fs, i, Fingerprint::Signature) && !is_duplicate(fs, i, Fingerprint::Body)),
{
}

/// Whether the duplication check can add its demerits to every function
/// without leaving `u32`: the condition under which `check_dryness` can run.
pub fn fits_dry_demerits(functions: &[FunctionIdioms]) -> (b: bool)
    ensures
        b == forall|i: int| 0 <= i < functions@.len()
            ==> functions@[i].demerits + #[trigger] dry_demerits(functions@, i) <= u32::MAX,
{
    let sig_flagged = find_duplicate_indices(functions, Fingerprint::Signature);
    let body_flagged = find_duplicate_indices(functions, Fingerprint::Body);
    let mut i: usize = 0;
    while i < functions.len()
        invariant
            i <= functions@.len(),
            sig_flagged@.len() == functions@.len(),
            body_flagged@.len() == functions@.len(),
            forall|k: int| 0 <= k < functions@.len() ==> #[trigger] sig_flagged@[k] == is_duplicate(functions@, k, Fingerprint::Signature),
            forall|k: int| 0 <= k < functions@.len() ==> #[trigger] body_flagged@[k] == is_duplicate(functions@, k, Fingerprint::Body),
            forall|k: int| 0 <= k < i ==> functions@[k].demerits + #[trigger] dry_demerits(functions@, k) <= u32::MAX,
        decreases functions@.len() - i,
    {
        let extra: u64 = (if sig_flagged[i] { 3u64 } else { 0u64 }) + (if body_flagged[i] { 3u64 } else { 0u64 });
        assert(extra == dry_demerits(functions@, i as int));
        if functions[i].demerits as u64 + extra > u32::MAX as u64 {
            return false;
        }
        i = i + 1;
    }
    true
}

} // verus!
