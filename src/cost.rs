use crate::amount::{capped, parse_uint, uint_from_text, Wei};
use crate::error::{Phase, ProvisionError};
use vstd::prelude::*;

verus! {

/// The literal value a transaction declares, zero where it declares none or
/// one that does not parse.
pub open spec fn declared_amount(v: Option<String>) -> nat {
    match v {
        Some(s) => match uint_from_text(s@) {
            Some(n) => n,
            None => 0,
        },
        None => 0,
    }
}

/// The sum of the declared values of a sequence of transactions.
pub open spec fn declared_total(vs: Seq<Option<String>>) -> nat
    decreases vs.len(),
{
    if vs.len() == 0 {
        0
    } else {
        declared_total(vs.drop_last()) + declared_amount(vs.last())
    }
}

/// The declared total is additive: the total of two lists of transactions
/// one after the other is the sum of their totals.
pub proof fn lemma_declared_total_append(a: Seq<Option<String>>, b: Seq<Option<String>>)
    ensures
        declared_total(a + b) == declared_total(a) + declared_total(b),
    decreases b.len(),
{
    if b.len() > 0 {
        lemma_declared_total_append(a, b.drop_last());
        assert((a + b).drop_last() =~= a + b.drop_last());
    } else {
        assert(a + b =~= a);
    }
}

/// Each transaction adds its own declared value to the total: a value that
/// reads as `n` adds `n`, and a missing value or one that does not read adds
/// nothing. So values reading 100 and 200 beside a missing one total 300.
pub proof fn lemma_declared_total_of_three(x: String, y: String, m: nat, n: nat)
    requires
        uint_from_text(x@) == Some(m),
        uint_from_text(y@) == Some(n),
    ensures
        declared_total(seq![Some(x), Some(y), None]) == m + n,
{
    let s = seq![Some(x), Some(y), None::<String>];
    assert(s.drop_last() =~= seq![Some(x), Some(y)]);
    assert(s.drop_last().drop_last() =~= seq![Some(x)]);
    assert(s.drop_last().drop_last().drop_last() =~= Seq::<Option<String>>::empty());
    assert(seq![Some(x)].drop_last() =~= Seq::<Option<String>>::empty());
    assert(declared_total(Seq::<Option<String>>::empty()) == 0);
    assert(seq![Some(x)].last() == Some(x));
    assert(declared_amount(Some(x)) == m);
    assert(declared_total(seq![Some(x)]) == m);
    assert(seq![Some(x), Some(y)].last() == Some(y));
    assert(declared_amount(Some(y)) == n);
    assert(declared_total(seq![Some(x), Some(y)]) == m + n);
}

/// The cost of a phase, and whether it came from simulation or from the
/// static fallback (with the reason simulation failed).
#[derive(Clone, Debug, PartialEq, Eq)]
pub enum CostEstimate {
    Estimated(Wei),
    Fallback { amount: Wei, reason: String },
}

impl CostEstimate {
    pub open spec fn spec_amount(&self) -> Wei {
        match self {
            CostEstimate::Estimated(a) => *a,
            CostEstimate::Fallback { amount, .. } => *amount,
        }
    }

    pub fn amount(&self) -> (r: Wei)
        ensures
            r == self.spec_amount(),
    {
        match self {
            CostEstimate::Estimated(a) => *a,
            CostEstimate::Fallback { amount, .. } => *amount,
        }
    }
}

/// The value one transaction declares: its literal read as an integer, or
/// zero.
pub fn declared_value(v: &Option<String>) -> (r: Wei)
    ensures
        r.value() == declared_amount(*v),
{
    match v {
        Some(s) => match parse_uint(s.as_str()) {
            Some(w) => w,
            None => Wei::zero(),
        },
        None => Wei::zero(),
    }
}

/// The static setup cost: the sum of every declared value, held at the
/// largest 256-bit amount where it does not fit.
pub fn fallback_setup_cost(values: &Vec<Option<String>>) -> (r: Wei)
    ensures
        r.value() == capped(declared_total(values@)),
{
    let mut acc = Wei::zero();
    let mut i: usize = 0;
    while i < values.len()
        invariant
            i <= values.len(),
            acc.value() == capped(declared_total(values@.take(i as int))),
        decreases values.len() - i,
    {
        let d = declared_value(&values[i]);
        proof {
            let pre = values@.take(i as int);
            let next = values@.take(i as int + 1);
            assert(next.drop_last() =~= pre);
            assert(next.last() == values@[i as int]);
        }
        acc = acc.saturating_add(&d);
        i = i + 1;
    }
    assert(values@.take(values.len() as int) =~= values@);
    acc
}

/// The setup cost: the simulated estimate when there is one, else the static
/// sum of declared values, tagged with why simulation failed.
pub fn setup_cost(simulated: Result<Wei, String>, values: &Vec<Option<String>>) -> (r:
    CostEstimate)
    ensures
        match simulated {
            Ok(c) => r == CostEstimate::Estimated(c),
            Err(e) => r is Fallback && r->reason == e && r->amount.value() == capped(
                declared_total(values@),
            ),
        },
{
    match simulated {
        Ok(c) => CostEstimate::Estimated(c),
        Err(e) => CostEstimate::Fallback { amount: fallback_setup_cost(values), reason: e },
    }
}

/// Lets a phase proceed only when the minimum balance covers its cost.
pub fn check_cost(phase: Phase, min_balance: Wei, cost: Wei) -> (r: Result<(), ProvisionError>)
    ensures
        r is Ok <==> cost.value() <= min_balance.value(),
        r is Err ==> r == Err::<(), ProvisionError>(
            ProvisionError::CostTooHigh { phase, min_balance, cost },
        ),
{
    if min_balance.lt(&cost) {
        Err(ProvisionError::CostTooHigh { phase, min_balance, cost })
    } else {
        Ok(())
    }
}

} // verus!
