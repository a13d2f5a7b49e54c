use vstd::prelude::*;
use crate::types::{Bettor, Identity};

verus! {

/// The most entries one side of a market can hold.
pub const LEDGER_CAPACITY: usize = 20;

/// Sum of all stakes recorded in a ledger.
pub open spec fn ledger_sum(s: Seq<Bettor>) -> int
    decreases s.len(),
{
    if s.len() == 0 {
        0
    } else {
        ledger_sum(s.drop_last()) + s.last().amount
    }
}

/// The ledger holds an entry for `id`.
pub open spec fn has_entry(s: Seq<Bettor>, id: Identity) -> bool {
    exists|i: int| 0 <= i < s.len() && (#[trigger] s[i]).bettor == id
}

/// The position of `id`'s entry (meaningful when `has_entry(s, id)`).
pub open spec fn entry_index(s: Seq<Bettor>, id: Identity) -> int {
    choose|i: int| 0 <= i < s.len() && (#[trigger] s[i]).bettor == id
}

/// The stake recorded for `id` (meaningful when `has_entry(s, id)`).
pub open spec fn stake_of(s: Seq<Bettor>, id: Identity) -> u64 {
    s[entry_index(s, id)].amount
}

/// No identity appears twice in the ledger.
pub open spec fn ids_unique(s: Seq<Bettor>) -> bool {
    forall|i: int, j: int|
        0 <= i < s.len() && 0 <= j < s.len() && (#[trigger] s[i]).bettor == (#[trigger] s[j]).bettor
            ==> i == j
}

/// The ledger after `id` stakes `amount`: an existing entry grows, otherwise a
/// new entry is appended.
pub open spec fn ledger_upsert(s: Seq<Bettor>, id: Identity, amount: u64) -> Seq<Bettor> {
    if has_entry(s, id) {
        s.update(
            entry_index(s, id),
            Bettor { bettor: id, amount: (stake_of(s, id) + amount) as u64 },
        )
    } else {
        s.push(Bettor { bettor: id, amount })
    }
}

/// The ledger with `id`'s entry taken out.
pub open spec fn ledger_remove(s: Seq<Bettor>, id: Identity) -> Seq<Bettor> {
    s.remove(entry_index(s, id))
}

/// In a ledger without duplicates, any position holding `id` is its entry.
pub proof fn lemma_entry_index_unique(s: Seq<Bettor>, id: Identity, i: int)
    requires
        ids_unique(s),
        0 <= i < s.len(),
        s[i].bettor == id,
    ensures
        has_entry(s, id),
        entry_index(s, id) == i,
{
    assert(has_entry(s, id));
}

/// Replacing one entry changes the sum by the difference of the amounts.
pub proof fn lemma_sum_update(s: Seq<Bettor>, i: int, b: Bettor)
    requires
        0 <= i < s.len(),
    ensures
        ledger_sum(s.update(i, b)) == ledger_sum(s) - s[i].amount + b.amount,
    decreases s.len(),
{
    let t = s.update(i, b);
    if i == s.len() - 1 {
        assert(t.drop_last() =~= s.drop_last());
    } else {
        assert(t.drop_last() =~= s.drop_last().update(i, b));
        lemma_sum_update(s.drop_last(), i, b);
    }
}

/// Appending an entry adds its amount to the sum.
pub proof fn lemma_sum_push(s: Seq<Bettor>, b: Bettor)
    ensures
        ledger_sum(s.push(b)) == ledger_sum(s) + b.amount,
{
    assert(s.push(b).drop_last() =~= s);
}

/// Removing an entry subtracts its amount from the sum.
pub proof fn lemma_sum_remove(s: Seq<Bettor>, i: int)
    requires
        0 <= i < s.len(),
    ensures
        ledger_sum(s.remove(i)) == ledger_sum(s) - s[i].amount,
    decreases s.len(),
{
    let t = s.remove(i);
    if i == s.len() - 1 {
        assert(t =~= s.drop_last());
    } else {
        assert(t.drop_last() =~= s.drop_last().remove(i));
        assert(t.last() == s.last());
        lemma_sum_remove(s.drop_last(), i);
    }
}

/// A ledger's sum is never negative.
pub proof fn lemma_sum_nonneg(s: Seq<Bettor>)
    ensures
        ledger_sum(s) >= 0,
    decreases s.len(),
{
    if s.len() > 0 {
        lemma_sum_nonneg(s.drop_last());
    }
}

/// No single stake exceeds the ledger's sum.
pub proof fn lemma_entry_le_sum(s: Seq<Bettor>, i: int)
    requires
        0 <= i < s.len(),
    ensures
        s[i].amount <= ledger_sum(s),
    decreases s.len(),
{
    lemma_sum_nonneg(s.drop_last());
    if i < s.len() - 1 {
        lemma_entry_le_sum(s.drop_last(), i);
    }
}

/// Staking keeps identities unique and adds the stake to the sum.
pub proof fn lemma_upsert(s: Seq<Bettor>, id: Identity, amount: u64)
    requires
        ids_unique(s),
        has_entry(s, id) ==> stake_of(s, id) + amount <= u64::MAX,
    ensures
        ids_unique(ledger_upsert(s, id, amount)),
        ledger_sum(ledger_upsert(s, id, amount)) == ledger_sum(s) + amount,
        has_entry(ledger_upsert(s, id, amount), id),
        stake_of(ledger_upsert(s, id, amount), id) == (if has_entry(s, id) {
            stake_of(s, id) + amount
        } else {
            amount as int
        }),
        ledger_upsert(s, id, amount).len() == s.len() + (if has_entry(s, id) { 0int } else { 1int }),
{
    let t = ledger_upsert(s, id, amount);
    if has_entry(s, id) {
        let i = entry_index(s, id);
        lemma_sum_update(s, i, t[i]);
        lemma_entry_index_unique(t, id, i);
    } else {
        lemma_sum_push(s, t.last());
        lemma_entry_index_unique(t, id, s.len() as int);
    }
}

/// Removing an entry keeps identities unique and leaves no entry for `id`.
pub proof fn lemma_remove(s: Seq<Bettor>, id: Identity)
    requires
        ids_unique(s),
        has_entry(s, id),
    ensures
        ids_unique(ledger_remove(s, id)),
        !has_entry(ledger_remove(s, id), id),
        ledger_sum(ledger_remove(s, id)) == ledger_sum(s) - stake_of(s, id),
{
    let i = entry_index(s, id);
    let t = ledger_remove(s, id);
    lemma_sum_remove(s, i);
    assert forall|a: int, b: int|
        0 <= a < t.len() && 0 <= b < t.len() && (#[trigger] t[a]).bettor == (#[trigger] t[b]).bettor
        implies a == b by {
        let a2 = if a < i { a } else { a + 1 };
        let b2 = if b < i { b } else { b + 1 };
        assert(t[a] == s[a2]);
        assert(t[b] == s[b2]);
    }
    if has_entry(t, id) {
        let k = entry_index(t, id);
        let k2 = if k < i { k } else { k + 1 };
        assert(t[k] == s[k2]);
    }
}

/// Removing one entry never brings in an identity that was absent.
pub proof fn lemma_remove_keeps_absent(s: Seq<Bettor>, id: Identity, other: Identity)
    requires
        has_entry(s, id),
        !has_entry(s, other),
    ensures
        !has_entry(ledger_remove(s, id), other),
{
    let i = entry_index(s, id);
    let t = ledger_remove(s, id);
    if has_entry(t, other) {
        let k = entry_index(t, other);
        let k2 = if k < i { k } else { k + 1 };
        assert(t[k] == s[k2]);
    }
}

/// Linear lookup of `id`'s position in a ledger.
pub fn find_bettor(ledger: &Vec<Bettor>, id: &Identity) -> (r: Option<usize>)
    ensures
        match r {
            Some(i) => i < ledger@.len() && ledger@[i as int].bettor == *id,
            None => !has_entry(ledger@, *id),
        },
{
    let mut i: usize = 0;
    while i < ledger.len()
        invariant
            0 <= i <= ledger@.len(),
            forall|k: int| 0 <= k < i ==> (#[trigger] ledger@[k]).bettor != *id,
        decreases ledger@.len() - i,
    {
        if ledger[i].bettor.same_as(id) {
            return Some(i);
        }
        i = i + 1;
    }
    None
}

/// Sum of the ledger's stakes; `None` when it does not fit in 64 bits.
pub fn ledger_total(ledger: &Vec<Bettor>) -> (r: Option<u64>)
    ensures
        match r {
            Some(v) => v == ledger_sum(ledger@),
            None => ledger_sum(ledger@) > u64::MAX,
        },
{
    let mut acc: u64 = 0;
    let mut i: usize = 0;
    while i < ledger.len()
        invariant
            0 <= i <= ledger@.len(),
            acc == ledger_sum(ledger@.subrange(0, i as int)),
        decreases ledger@.len() - i,
    {
        let ghost before = ledger@.subrange(0, i as int);
        let ghost after = ledger@.subrange(0, i as int + 1);
        assert(after.drop_last() =~= before);
        match acc.checked_add(ledger[i].amount) {
            Some(v) => acc = v,
            None => {
                proof {
                    lemma_sum_prefix_le(ledger@, i as int + 1);
                }
                return None;
            },
        }
        i = i + 1;
    }
    assert(ledger@.subrange(0, ledger@.len() as int) =~= ledger@);
    Some(acc)
}

/// A prefix's sum never exceeds the whole ledger's sum.
pub proof fn lemma_sum_prefix_le(s: Seq<Bettor>, n: int)
    requires
        0 <= n <= s.len(),
    ensures
        ledger_sum(s.subrange(0, n)) <= ledger_sum(s),
    decreases s.len(),
{
    if n < s.len() {
        assert(s.drop_last().subrange(0, n) =~= s.subrange(0, n));
        lemma_sum_prefix_le(s.drop_last(), n);
    } else {
        assert(s.subrange(0, n) =~= s);
    }
}

/// Whether every identity appears at most once in the ledger.
pub fn ledger_ids_unique(ledger: &Vec<Bettor>) -> (r: bool)
    ensures
        r == ids_unique(ledger@),
{
    let mut i: usize = 0;
    while i < ledger.len()
        invariant
            0 <= i <= ledger@.len(),
            forall|a: int, b: int|
                0 <= a < i && 0 <= b < i && (#[trigger] ledger@[a]).bettor == (#[trigger] ledger@[b]).bettor
                    ==> a == b,
        decreases ledger@.len() - i,
    {
        let mut j: usize = 0;
        while j < i
            invariant
                0 <= j <= i < ledger@.len(),
                forall|b: int| 0 <= b < j ==> (#[trigger] ledger@[b]).bettor != ledger@[i as int].bettor,
            decreases i - j,
        {
            if ledger[j].bettor.same_as(&ledger[i].bettor) {
                return false;
            }
            j = j + 1;
        }
        i = i + 1;
    }
    true
}

} // verus!
