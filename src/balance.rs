use crate::amount::Wei;
use vstd::prelude::*;

verus! {

/// The accounts of `s` (address and balance, in order) whose balance is below
/// `threshold`, with those balances.
pub open spec fn insufficient(s: Seq<(Vec<u8>, Wei)>, threshold: nat) -> Seq<(Seq<u8>, nat)>
    decreases s.len(),
{
    if s.len() == 0 {
        Seq::empty()
    } else {
        let rest = insufficient(s.drop_last(), threshold);
        if s.last().1.value() < threshold {
            rest.push((s.last().0@, s.last().1.value()))
        } else {
            rest
        }
    }
}

/// A value transfer from the funding account.
#[derive(Clone, Debug, PartialEq, Eq)]
pub struct Transfer {
    pub to: Vec<u8>,
    pub amount: Wei,
}

/// The accounts whose balance is strictly below the threshold, in input
/// order, each with its balance.
pub fn find_insufficient(balances: &Vec<(Vec<u8>, Wei)>, threshold: &Wei) -> (r: Vec<(Vec<u8>, Wei)>)
    ensures
        r@.map_values(|p: (Vec<u8>, Wei)| (p.0@, p.1.value())) == insufficient(
            balances@,
            threshold.value(),
        ),
{
    let mut r: Vec<(Vec<u8>, Wei)> = Vec::new();
    let mut i: usize = 0;
    while i < balances.len()
        invariant
            i <= balances.len(),
            r@.map_values(|p: (Vec<u8>, Wei)| (p.0@, p.1.value())) == insufficient(
                balances@.take(i as int),
                threshold.value(),
            ),
        decreases balances.len() - i,
    {
        let ghost prev = r@;
        proof {
            assert(balances@.take(i as int + 1).drop_last() =~= balances@.take(i as int));
        }
        if balances[i].1.lt(threshold) {
            let addr = balances[i].0.clone();
            r.push((addr, balances[i].1));
            assert(r@.map_values(|p: (Vec<u8>, Wei)| (p.0@, p.1.value())) =~= prev.map_values(
                |p: (Vec<u8>, Wei)| (p.0@, p.1.value()),
            ).push((balances@[i as int].0@, balances@[i as int].1.value())));
        }
        i = i + 1;
    }
    assert(balances@.take(balances.len() as int) =~= balances@);
    r
}

/// The transfers that bring every account below the threshold up to it: one
/// transfer of the threshold amount to each such account, in input order.
pub fn funding_transfers(balances: &Vec<(Vec<u8>, Wei)>, threshold: &Wei) -> (r: Vec<Transfer>)
    ensures
        r@.len() == insufficient(balances@, threshold.value()).len(),
        forall|k: int|
            0 <= k < r@.len() ==> {
                &&& r@[k].to@ == insufficient(balances@, threshold.value())[k].0
                &&& r@[k].amount == *threshold
            },
{
    let short = find_insufficient(balances, threshold);
    let mut r: Vec<Transfer> = Vec::new();
    let mut i: usize = 0;
    while i < short.len()
        invariant
            i <= short.len(),
            r@.len() == i,
            short@.map_values(|p: (Vec<u8>, Wei)| (p.0@, p.1.value())) == insufficient(
                balances@,
                threshold.value(),
            ),
            forall|k: int|
                0 <= k < i ==> {
                    &&& r@[k].to@ == short@[k].0@
                    &&& r@[k].amount == *threshold
                },
        decreases short.len() - i,
    {
        r.push(Transfer { to: short[i].0.clone(), amount: *threshold });
        i = i + 1;
    }
    r
}

/// Every account reported as insufficient holds less than the threshold.
pub proof fn lemma_insufficient_below(s: Seq<(Vec<u8>, Wei)>, threshold: nat)
    ensures
        forall|k: int|
            0 <= k < insufficient(s, threshold).len() ==> #[trigger] insufficient(
                s,
                threshold,
            )[k].1 < threshold,
    decreases s.len(),
{
    if s.len() > 0 {
        lemma_insufficient_below(s.drop_last(), threshold);
        let rp = insufficient(s.drop_last(), threshold);
        let r = insufficient(s, threshold);
        assert forall|k: int| 0 <= k < r.len() implies #[trigger] r[k].1 < threshold by {
            if k < rp.len() {
                assert(r[k] == rp[k]);
            }
        }
    }
}

/// An account is reported as insufficient exactly when some entry for its
/// address holds less than the threshold.
pub proof fn lemma_insufficient_members(s: Seq<(Vec<u8>, Wei)>, threshold: nat, a: Seq<u8>)
    ensures
        (exists|k: int| 0 <= k < insufficient(s, threshold).len() && #[trigger] insufficient(
            s,
            threshold,
        )[k].0 == a) <==> (exists|j: int|
            0 <= j < s.len() && #[trigger] s[j].0@ == a && s[j].1.value() < threshold),
    decreases s.len(),
{
    if s.len() > 0 {
        let p = s.drop_last();
        lemma_insufficient_members(p, threshold, a);
        let rp = insufficient(p, threshold);
        let r = insufficient(s, threshold);
        if exists|j: int| 0 <= j < s.len() && #[trigger] s[j].0@ == a && s[j].1.value() < threshold {
            let j = choose|j: int| 0 <= j < s.len() && #[trigger] s[j].0@ == a && s[j].1.value() < threshold;
            if j < p.len() {
                assert(p[j].0@ == a);
                let k = choose|k: int| 0 <= k < rp.len() && #[trigger] rp[k].0 == a;
                assert(r[k] == rp[k]);
            } else {
                assert(r[rp.len() as int].0 == a);
            }
        }
        if exists|k: int| 0 <= k < r.len() && #[trigger] r[k].0 == a {
            let k = choose|k: int| 0 <= k < r.len() && #[trigger] r[k].0 == a;
            if k < rp.len() {
                assert(rp[k].0 == a);
                let j = choose|j: int| 0 <= j < p.len() && #[trigger] p[j].0@ == a && p[j].1.value() < threshold;
                assert(s[j] == p[j]);
            } else {
                assert(s[s.len() - 1].0@ == a);
            }
        }
    }
}

/// Funding is idempotent: an account already at or above the threshold gets
/// no transfer, so a re-run after funding sends nothing to it.
pub proof fn lemma_funded_account_gets_no_transfer(s: Seq<(Vec<u8>, Wei)>, threshold: nat, a: Seq<u8>)
    requires
        forall|j: int| 0 <= j < s.len() && #[trigger] s[j].0@ == a ==> s[j].1.value() >= threshold,
    ensures
        forall|k: int| 0 <= k < insufficient(s, threshold).len() ==> #[trigger] insufficient(
            s,
            threshold,
        )[k].0 != a,
{
    lemma_insufficient_members(s, threshold, a);
}

/// Funding reaches the threshold: every account either already holds the
/// threshold or is listed for a transfer, and a transfer carries the whole
/// threshold, so each account ends at or above it.
pub proof fn lemma_every_account_reaches_threshold(s: Seq<(Vec<u8>, Wei)>, threshold: nat)
    ensures
        forall|j: int|
            0 <= j < s.len() ==> (#[trigger] s[j]).1.value() >= threshold || exists|k: int|
                0 <= k < insufficient(s, threshold).len() && #[trigger] insufficient(
                    s,
                    threshold,
                )[k].0 == s[j].0@,
{
    assert forall|j: int| 0 <= j < s.len() implies (#[trigger] s[j]).1.value() >= threshold
        || exists|k: int|
        0 <= k < insufficient(s, threshold).len() && #[trigger] insufficient(s, threshold)[k].0
            == s[j].0@ by {
        lemma_insufficient_members(s, threshold, s[j].0@);
    }
}

} // verus!
