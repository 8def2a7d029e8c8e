//! Which transactions of a batch are new to the ledger, judged by their import hash.
use vstd::prelude::*;
use crate::models::Transaction;
use crate::text::{chars_of, str_equals};

verus! {

pub open spec fn hash_of(batch: Seq<Transaction>, i: int) -> Seq<char> {
    batch[i].import_hash@
}

/// The positions among the first `n` of `batch` that are stored when it is inserted
/// into a ledger already holding `existing` hashes: a transaction with an empty hash
/// is always stored; one with a hash is skipped when that hash is already held or
/// was stored earlier in the same batch.
pub open spec fn inserted(existing: Seq<Seq<char>>, batch: Seq<Transaction>, n: nat) -> Seq<int>
    decreases n,
{
    if n == 0 {
        Seq::empty()
    } else {
        let prev = inserted(existing, batch, (n - 1) as nat);
        let h = hash_of(batch, n - 1);
        if h.len() == 0 || !(existing.contains(h) || exists|k: int|
            0 <= k < prev.len() && #[trigger] hash_of(batch, prev[k]) == h) {
            prev.push(n - 1)
        } else {
            prev
        }
    }
}

/// The hashes a ledger holds after inserting `batch` into one holding `existing`.
pub open spec fn stored_after(existing: Seq<Seq<char>>, batch: Seq<Transaction>) -> Seq<Seq<char>> {
    let ins = inserted(existing, batch, batch.len());
    existing + Seq::new(ins.len(), |k: int| hash_of(batch, ins[k]))
}

pub open spec fn views(v: Seq<String>) -> Seq<Seq<char>> {
    v.map_values(|s: String| s@)
}

/// The positions of the transactions of `batch` to store, in order, given the
/// hashes the ledger already holds.
pub fn select_new(existing: &Vec<String>, batch: &Vec<Transaction>) -> (r: Vec<usize>)
    ensures
        r@.len() == inserted(views(existing@), batch@, batch@.len() as nat).len(),
        forall|k: int| 0 <= k < r@.len() ==> #[trigger] r@[k] == inserted(views(existing@), batch@, batch@.len() as nat)[k],
{
    let ghost ex = views(existing@);
    let mut out: Vec<usize> = Vec::new();
    let mut i: usize = 0;
    while i < batch.len()
        invariant
            i <= batch@.len(),
            ex == views(existing@),
            out@.len() == inserted(ex, batch@, i as nat).len(),
            forall|k: int| 0 <= k < out@.len() ==> #[trigger] out@[k] == inserted(ex, batch@, i as nat)[k],
            forall|k: int| 0 <= k < out@.len() ==> #[trigger] out@[k] < i,
        decreases batch@.len() - i,
    {
        let h = &batch[i].import_hash;
        let ghost prev = inserted(ex, batch@, i as nat);
        let mut dup = false;
        if chars_of(h.as_str()).len() > 0 {
            let mut k: usize = 0;
            while k < existing.len() && !dup
                invariant
                    k <= existing@.len(),
                    ex == views(existing@),
                    dup == exists|m: int| 0 <= m < k && #[trigger] ex[m] == h@,
                decreases existing@.len() - k,
            {
                if str_equals(existing[k].as_str(), h.as_str()) {
                    dup = true;
                    assert(ex[k as int] == h@);
                }
                k = k + 1;
            }
            let mut k2: usize = 0;
            while k2 < out.len() && !dup
                invariant
                    k2 <= out@.len(),
                    out@.len() == prev.len(),
                    forall|m: int| 0 <= m < out@.len() ==> #[trigger] out@[m] == prev[m],
                    forall|m: int| 0 <= m < out@.len() ==> #[trigger] out@[m] < i,
                    i < batch@.len(),
                    dup == ((exists|m: int| 0 <= m < ex.len() && #[trigger] ex[m] == h@) || exists|m: int|
                        0 <= m < k2 && #[trigger] hash_of(batch@, prev[m]) == h@),
                decreases out@.len() - k2,
            {
                let j = out[k2];
                if str_equals(batch[j].import_hash.as_str(), h.as_str()) {
                    dup = true;
                    assert(hash_of(batch@, prev[k2 as int]) == h@);
                }
                k2 = k2 + 1;
            }
            proof {
                if !dup {
                    assert(!ex.contains(h@));
                }
                if ex.contains(h@) {
                    let m = choose|m: int| 0 <= m < ex.len() && ex[m] == h@;
                    assert(dup);
                }
            }
        }
        proof {
            assert(hash_of(batch@, i as int) == h@);
            assert(inserted(ex, batch@, (i + 1) as nat) == if !dup {
                prev.push(i as int)
            } else {
                prev
            });
        }
        if !dup {
            out.push(i);
        }
        i = i + 1;
    }
    out
}

} // verus!

verus! {

proof fn lemma_inserted_prefix(existing: Seq<Seq<char>>, batch: Seq<Transaction>, n: nat, m: nat)
    requires
        n <= m <= batch.len(),
    ensures
        inserted(existing, batch, n).len() <= inserted(existing, batch, m).len(),
        forall|k: int|
            0 <= k < inserted(existing, batch, n).len() ==> #[trigger] inserted(existing, batch, n)[k]
                == inserted(existing, batch, m)[k],
    decreases m - n,
{
    if n < m {
        lemma_inserted_prefix(existing, batch, n, (m - 1) as nat);
    }
}

/// After inserting the first `n`, each of them with a hash has that hash held
/// before or stored by the batch.
proof fn lemma_inserted_cover(existing: Seq<Seq<char>>, batch: Seq<Transaction>, n: nat, t: int)
    requires
        0 <= t < n <= batch.len(),
        hash_of(batch, t).len() > 0,
    ensures
        existing.contains(hash_of(batch, t)) || exists|k: int|
            0 <= k < inserted(existing, batch, n).len() && #[trigger] hash_of(batch, inserted(existing, batch, n)[k])
                == hash_of(batch, t),
    decreases n,
{
    let prev = inserted(existing, batch, (n - 1) as nat);
    let cur = inserted(existing, batch, n);
    lemma_inserted_prefix(existing, batch, (n - 1) as nat, n);
    if t < n - 1 {
        lemma_inserted_cover(existing, batch, (n - 1) as nat, t);
        if !existing.contains(hash_of(batch, t)) {
            let k = choose|k: int| 0 <= k < prev.len() && #[trigger] hash_of(batch, prev[k]) == hash_of(batch, t);
            assert(hash_of(batch, cur[k]) == hash_of(batch, t));
        }
    } else {
        if cur.len() > prev.len() {
            assert(cur[prev.len() as int] == t);
            assert(hash_of(batch, cur[prev.len() as int]) == hash_of(batch, t));
        } else if !existing.contains(hash_of(batch, t)) {
            let k = choose|k: int| 0 <= k < prev.len() && #[trigger] hash_of(batch, prev[k]) == hash_of(batch, t);
            assert(hash_of(batch, cur[k]) == hash_of(batch, t));
        }
    }
}

proof fn lemma_nothing_new(held: Seq<Seq<char>>, batch: Seq<Transaction>, n: nat)
    requires
        n <= batch.len(),
        forall|t: int| 0 <= t < batch.len() ==> #[trigger] hash_of(batch, t).len() > 0 && held.contains(hash_of(batch, t)),
    ensures
        inserted(held, batch, n).len() == 0,
    decreases n,
{
    if n > 0 {
        lemma_nothing_new(held, batch, (n - 1) as nat);
        assert(hash_of(batch, n - 1).len() > 0 && held.contains(hash_of(batch, n - 1)));
    }
}

/// Importing the same batch twice stores nothing the second time, as long as
/// every transaction in it carries an import hash.
pub proof fn lemma_reimport_idempotent(existing: Seq<Seq<char>>, batch: Seq<Transaction>)
    requires
        forall|t: int| 0 <= t < batch.len() ==> (#[trigger] hash_of(batch, t)).len() > 0,
    ensures
        inserted(stored_after(existing, batch), batch, batch.len()).len() == 0,
{
    let held = stored_after(existing, batch);
    let ins = inserted(existing, batch, batch.len());
    assert forall|t: int| 0 <= t < batch.len() implies #[trigger] hash_of(batch, t).len() > 0 && held.contains(hash_of(batch, t)) by {
        lemma_inserted_cover(existing, batch, batch.len(), t);
        if existing.contains(hash_of(batch, t)) {
            let m = choose|m: int| 0 <= m < existing.len() && existing[m] == hash_of(batch, t);
            assert(held[m] == hash_of(batch, t));
        } else {
            let k = choose|k: int| 0 <= k < ins.len() && #[trigger] hash_of(batch, ins[k]) == hash_of(batch, t);
            assert(held[existing.len() + k] == hash_of(batch, t));
        }
    }
    lemma_nothing_new(held, batch, batch.len());
}

} // verus!
