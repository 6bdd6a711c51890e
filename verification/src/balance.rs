//! Balance aggregation: the net balance of one account's transactions and
//! the budget total across a user's accounts, both pure folds over data
//! that was fetched once upstream.
use vstd::prelude::*;

use crate::ledger::Transaction;

verus! {

/// Sum of the inflows of a transaction sequence.
pub open spec fn sum_inflow(s: Seq<Transaction>) -> nat
    decreases s.len(),
{
    if s.len() == 0 {
        0
    } else {
        sum_inflow(s.drop_last()) + s.last().inflow as nat
    }
}

/// Sum of the outflows of a transaction sequence.
pub open spec fn sum_outflow(s: Seq<Transaction>) -> nat
    decreases s.len(),
{
    if s.len() == 0 {
        0
    } else {
        sum_outflow(s.drop_last()) + s.last().outflow as nat
    }
}

/// The net balance of an account: all inflows minus all outflows.
pub open spec fn net_balance(s: Seq<Transaction>) -> int {
    sum_inflow(s) - sum_outflow(s)
}

/// Sum of a sequence of per-account balances.
pub open spec fn sum_balances(s: Seq<i64>) -> int
    decreases s.len(),
{
    if s.len() == 0 {
        0
    } else {
        sum_balances(s.drop_last()) + s.last()
    }
}

proof fn lemma_sum_inflow_prefix(s: Seq<Transaction>, i: int)
    requires
        0 <= i <= s.len(),
    ensures
        sum_inflow(s.take(i)) <= sum_inflow(s),
    decreases s.len() - i,
{
    if i == s.len() {
        assert(s.take(i) =~= s);
    } else {
        lemma_sum_inflow_prefix(s, i + 1);
        assert(s.take(i + 1).drop_last() =~= s.take(i));
    }
}

proof fn lemma_sum_outflow_prefix(s: Seq<Transaction>, i: int)
    requires
        0 <= i <= s.len(),
    ensures
        sum_outflow(s.take(i)) <= sum_outflow(s),
    decreases s.len() - i,
{
    if i == s.len() {
        assert(s.take(i) =~= s);
    } else {
        lemma_sum_outflow_prefix(s, i + 1);
        assert(s.take(i + 1).drop_last() =~= s.take(i));
    }
}

/// Net balance of one account: the sum of every transaction's inflow
/// minus the sum of every outflow. `None` exactly when one of the two
/// sums does not fit the minor-unit type.
#[verifier::loop_isolation(false)]
pub fn account_balance(transactions: &Vec<Transaction>) -> (r: Option<i64>)
    ensures
        r is Some <==> sum_inflow(transactions@) <= i64::MAX && sum_outflow(transactions@)
            <= i64::MAX,
        r matches Some(v) ==> v == net_balance(transactions@),
{
    let n = transactions.len();
    let mut in_sum: u64 = 0;
    let mut out_sum: u64 = 0;
    let mut i: usize = 0;
    while i < n
        invariant
            0 <= i <= n,
            in_sum as int == sum_inflow(transactions@.take(i as int)),
            out_sum as int == sum_outflow(transactions@.take(i as int)),
        decreases n - i,
    {
        let tx = &transactions[i];
        proof {
            assert(transactions@.take(i + 1).drop_last() =~= transactions@.take(i as int));
            assert(transactions@.take(i + 1).last() == transactions@[i as int]);
        }
        if in_sum > u64::MAX - tx.inflow {
            proof {
                lemma_sum_inflow_prefix(transactions@, i + 1);
            }
            return None;
        }
        in_sum = in_sum + tx.inflow;
        if out_sum > u64::MAX - tx.outflow {
            proof {
                lemma_sum_outflow_prefix(transactions@, i + 1);
            }
            return None;
        }
        out_sum = out_sum + tx.outflow;
        i += 1;
    }
    proof {
        assert(transactions@.take(n as int) =~= transactions@);
    }
    if in_sum > i64::MAX as u64 || out_sum > i64::MAX as u64 {
        return None;
    }
    Some((in_sum as i64) - (out_sum as i64))
}

/// The budget total: the sum of a user's per-account balances, 0 for a
/// user without accounts. `None` exactly when the exact sum does not fit
/// the minor-unit type.
#[verifier::loop_isolation(false)]
pub fn budget_total(balances: &Vec<i64>) -> (r: Option<i64>)
    ensures
        r is Some <==> i64::MIN <= sum_balances(balances@) <= i64::MAX,
        r matches Some(v) ==> v == sum_balances(balances@),
{
    let n = balances.len();
    let mut acc: i128 = 0;
    let mut i: usize = 0;
    while i < n
        invariant
            0 <= i <= n,
            acc as int == sum_balances(balances@.take(i as int)),
            (i as int) * i64::MIN <= acc as int <= (i as int) * i64::MAX,
        decreases n - i,
    {
        let b = balances[i];
        proof {
            assert(balances@.take(i + 1).drop_last() =~= balances@.take(i as int));
            assert(balances@.take(i + 1).last() == balances@[i as int]);
            assert((i + 1) * i64::MIN == (i as int) * i64::MIN + i64::MIN);
            assert((i + 1) * i64::MAX == (i as int) * i64::MAX + i64::MAX);
            assert(((i + 1) as int) * i64::MIN >= 0x1_0000_0000_0000_0000 * (i64::MIN as int))
                by (nonlinear_arith)
                requires
                    0 <= i,
                    i + 1 <= 0x1_0000_0000_0000_0000,
            ;
            assert(((i + 1) as int) * i64::MAX <= 0x1_0000_0000_0000_0000 * (i64::MAX as int))
                by (nonlinear_arith)
                requires
                    0 <= i,
                    i + 1 <= 0x1_0000_0000_0000_0000,
            ;
        }
        acc = acc + (b as i128);
        i += 1;
    }
    proof {
        assert(balances@.take(n as int) =~= balances@);
    }
    if acc < i64::MIN as i128 || acc > i64::MAX as i128 {
        return None;
    }
    Some(acc as i64)
}

} // verus!
