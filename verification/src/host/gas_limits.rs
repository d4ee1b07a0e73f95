//! How the gas of a block is shared out among its subblocks.

use vstd::prelude::*;

use crate::primitives::{parse_u64, parsed_u64};

verus! {

/// The gas limit of the only subblock of a block without transactions.
pub const DEFAULT_SUBBLOCK_GAS_LIMIT: u64 = 1_000_000;

/// The greatest number of subblocks where the environment sets none.
pub const DEFAULT_MAX_SUBBLOCK_COUNT: u64 = 7;

/// The greatest number of subblocks, from the value of `MAX_SUBBLOCK_COUNT` in the environment.
/// There is no answer where the value is not a number.
pub fn max_subblock_count(var: Option<&str>) -> (r: Option<u64>)
    ensures
        r == (match var {
            Some(text) => parsed_u64(text@),
            None => Some(DEFAULT_MAX_SUBBLOCK_COUNT),
        }),
{
    match var {
        Some(text) => parse_u64(text),
        None => Some(DEFAULT_MAX_SUBBLOCK_COUNT),
    }
}

/// The sum of a sequence of amounts of gas.
pub open spec fn gas_sum(gas: Seq<u64>) -> nat
    decreases gas.len(),
{
    if gas.len() == 0 {
        0
    } else {
        gas_sum(gas.drop_last()) + gas.last() as nat
    }
}

/// The gas that a subblock aims at: the smallest whole amount greater than an equal share.
pub open spec fn target_gas(total_gas: nat, max_subblock_count: nat) -> nat {
    (total_gas + max_subblock_count) / max_subblock_count
}

/// The split of the first transactions of a block.
pub struct Split {
    /// The limits of the subblocks that are closed.
    pub limits: Seq<u64>,
    /// Gas of the transactions in the closed subblocks.
    pub closed: nat,
    /// Gas of all transactions so far.
    pub used: nat,
}

/// The split before the first transaction.
pub open spec fn empty_split() -> Split {
    Split { limits: Seq::empty(), closed: 0, used: 0 }
}

/// The cumulative gas that the open subblock should end at.
pub open spec fn next_target(split: Split, target: nat) -> nat {
    (split.limits.len() + 1) * target
}

/// Closes the open subblock.
pub open spec fn close(split: Split) -> Split {
    Split {
        limits: split.limits.push((split.used - split.closed) as u64),
        closed: split.used,
        used: split.used,
    }
}

/// Adds a transaction without closing a subblock.
pub open spec fn grow(split: Split, gas: u64) -> Split {
    Split { used: split.used + gas as nat, ..split }
}

/// Takes one more transaction. A transaction that would carry the open subblock further than half
/// a target beyond its mark opens a new subblock, unless the open one has no gas yet. Otherwise
/// it joins the open subblock, which closes once it has passed its mark.
pub open spec fn split_step(split: Split, gas: u64, target: nat) -> Split {
    let mark = next_target(split, target);
    if split.used != split.closed && split.used + gas as nat > mark + target / 2 {
        grow(close(split), gas)
    } else if split.used + gas as nat > mark {
        close(grow(split, gas))
    } else {
        grow(split, gas)
    }
}

/// The split after a run of transactions.
pub open spec fn split_of(gas: Seq<u64>, target: nat) -> Split
    decreases gas.len(),
{
    if gas.len() == 0 {
        empty_split()
    } else {
        split_step(split_of(gas.drop_last(), target), gas.last(), target)
    }
}

/// The limits of all subblocks: those closed and, where it has gas, the open one.
pub open spec fn gas_limits(gas: Seq<u64>, target: nat) -> Seq<u64> {
    let split = split_of(gas, target);
    if split.used != split.closed {
        close(split).limits
    } else {
        split.limits
    }
}

/// What holds of every split: the gas adds up, and each closed subblock has passed its mark.
proof fn lemma_split(gas: Seq<u64>, target: nat)
    requires
        gas_sum(gas) <= u64::MAX,
    ensures
        split_of(gas, target).used == gas_sum(gas),
        split_of(gas, target).closed == gas_sum(split_of(gas, target).limits),
        split_of(gas, target).closed <= split_of(gas, target).used,
        split_of(gas, target).limits.len() * target <= gas_sum(gas),
        split_of(gas, target).limits.len() > 0 ==> split_of(gas, target).limits.len() * target
            < gas_sum(gas),
    decreases gas.len(),
{
    if gas.len() > 0 {
        let before = split_of(gas.drop_last(), target);
        let tx = gas.last();
        lemma_split(gas.drop_last(), target);
        let after = split_step(before, tx, target);
        let mark = next_target(before, target);
        let n = before.limits.len();
        assert((n + 1) * target == n * target + target) by (nonlinear_arith);
        assert(close(before).limits.drop_last() =~= before.limits);
        assert(close(grow(before, tx)).limits.drop_last() =~= before.limits);
        assert(after.limits.len() == n || after.limits.len() == n + 1);
    } else {
        assert(0 * target == 0) by (nonlinear_arith);
    }
}

/// The limits of the subblocks add up to the gas of all transactions.
pub proof fn law_limits_cover_the_block(gas: Seq<u64>, target: nat)
    requires
        gas_sum(gas) <= u64::MAX,
    ensures
        gas_sum(gas_limits(gas, target)) == gas_sum(gas),
{
    lemma_split(gas, target);
    let split = split_of(gas, target);
    assert(close(split).limits.drop_last() =~= split.limits);
}

/// Where every transaction uses gas, closed subblocks have a positive limit.
proof fn lemma_closed_positive(gas: Seq<u64>, target: nat)
    requires
        gas_sum(gas) <= u64::MAX,
        forall|i: int| 0 <= i < gas.len() ==> #[trigger] gas[i] > 0,
    ensures
        forall|i: int|
            0 <= i < split_of(gas, target).limits.len() ==> #[trigger] split_of(
                gas,
                target,
            ).limits[i] > 0,
    decreases gas.len(),
{
    if gas.len() > 0 {
        lemma_closed_positive(gas.drop_last(), target);
        lemma_split(gas.drop_last(), target);
    }
}

/// Where every transaction uses gas, no subblock gets a limit of zero.
pub proof fn law_limits_are_positive(gas: Seq<u64>, target: nat)
    requires
        gas_sum(gas) <= u64::MAX,
        forall|i: int| 0 <= i < gas.len() ==> #[trigger] gas[i] > 0,
    ensures
        forall|i: int|
            0 <= i < gas_limits(gas, target).len() ==> #[trigger] gas_limits(gas, target)[i] > 0,
{
    lemma_split(gas, target);
    lemma_closed_positive(gas, target);
}

/// A block is never split into more subblocks than allowed.
pub proof fn law_limits_keep_the_count(gas: Seq<u64>, max_subblock_count: nat)
    requires
        gas_sum(gas) <= u64::MAX,
        max_subblock_count > 0,
    ensures
        gas_limits(gas, target_gas(gas_sum(gas), max_subblock_count)).len() <= max_subblock_count,
{
    let total = gas_sum(gas);
    let target = target_gas(total, max_subblock_count);
    lemma_split(gas, target);
    let n = split_of(gas, target).limits.len();
    assert(max_subblock_count * target > total) by (nonlinear_arith)
        requires
            target == (total + max_subblock_count) / max_subblock_count,
            max_subblock_count > 0,
    ;
    if n > 0 {
        assert(n < max_subblock_count) by (nonlinear_arith)
            requires
                n * target < total,
                max_subblock_count * target > total,
        ;
    }
}

/// Positions at which a sequence of transactions is cut into runs: each run starts where the one
/// before it ends, the first at the first transaction.
pub open spec fn are_cuts(cuts: Seq<int>, len: int) -> bool {
    &&& cuts.len() >= 1
    &&& cuts[0] == 0
    &&& forall|i: int, j: int| 0 <= i < j < cuts.len() ==> (#[trigger] cuts[i]) < (
    #[trigger] cuts[j])
    &&& cuts.last() <= len
}

/// Each limit is the gas of the run of transactions between two cuts.
pub open spec fn limits_match_cuts(limits: Seq<u64>, cuts: Seq<int>, gas: Seq<u64>) -> bool {
    &&& limits.len() == cuts.len() - 1
    &&& forall|i: int|
        0 <= i < limits.len() ==> #[trigger] limits[i] as nat == gas_sum(
            gas.subrange(cuts[i], cuts[i + 1]),
        )
}

/// The gas of a run is the difference of the gas up to its ends.
proof fn lemma_sum_subrange(gas: Seq<u64>, from: int, to: int)
    requires
        0 <= from <= to <= gas.len(),
    ensures
        gas_sum(gas.subrange(from, to)) == gas_sum(gas.take(to)) - gas_sum(gas.take(from)),
    decreases to - from,
{
    if from == to {
        assert(gas.subrange(from, to) =~= Seq::empty());
    } else {
        lemma_sum_subrange(gas, from, to - 1);
        assert(gas.subrange(from, to).drop_last() =~= gas.subrange(from, to - 1));
        assert(gas.take(to).drop_last() =~= gas.take(to - 1));
    }
}

/// Closed subblocks are runs of transactions, and the open one starts behind them.
proof fn lemma_split_cuts(gas: Seq<u64>, target: nat) -> (cuts: Seq<int>)
    requires
        gas_sum(gas) <= u64::MAX,
        target > 0,
    ensures
        are_cuts(cuts, gas.len() as int),
        limits_match_cuts(split_of(gas, target).limits, cuts, gas),
        split_of(gas, target).closed == gas_sum(gas.take(cuts.last())),
    decreases gas.len(),
{
    if gas.len() == 0 {
        assert(gas.take(0) =~= Seq::empty());
        seq![0int]
    } else {
        let shorter = gas.drop_last();
        lemma_split(shorter, target);
        let cuts = lemma_split_cuts(shorter, target);
        let before = split_of(shorter, target);
        let after = split_of(gas, target);
        let last = cuts.last();
        assert(0 <= last);
        assert(gas.take(last) =~= shorter.take(last));
        assert(gas.take(gas.len() - 1) =~= shorter);
        assert(gas.take(gas.len() as int) =~= gas);
        assert forall|i: int| 0 <= i < before.limits.len() implies #[trigger] before.limits[i]
            == gas_sum(gas.subrange(cuts[i], cuts[i + 1])) by {
            assert(0 <= cuts[i] < cuts[i + 1] <= last);
            assert(gas.subrange(cuts[i], cuts[i + 1]) =~= shorter.subrange(cuts[i], cuts[i + 1]));
        }
        if after.limits.len() == before.limits.len() {
            cuts
        } else {
            let end = if before.used != before.closed && before.used + gas.last() as nat
                > next_target(before, target) + target / 2 {
                gas.len() - 1
            } else {
                gas.len() as int
            };
            let longer = cuts.push(end);
            lemma_sum_subrange(gas, last, end);
            assert(last < end) by {
                if last == end {
                    assert(shorter.take(last) =~= shorter);
                }
            }
            assert(after.closed == gas_sum(gas.take(end)));
            assert forall|i: int| 0 <= i < after.limits.len() implies #[trigger] after.limits[i]
                == gas_sum(gas.subrange(longer[i], longer[i + 1])) by {
                if i < before.limits.len() {
                    assert(after.limits[i] == before.limits[i]);
                }
            }
            longer
        }
    }
}

/// Every subblock limit is the gas of a run of consecutive transactions, at least one in each, and
/// the runs follow each other from the first transaction on. Where every transaction uses gas,
/// they end with the last one.
pub proof fn law_limits_are_runs(gas: Seq<u64>, target: nat) -> (cuts: Seq<int>)
    requires
        gas_sum(gas) <= u64::MAX,
        target > 0,
    ensures
        are_cuts(cuts, gas.len() as int),
        limits_match_cuts(gas_limits(gas, target), cuts, gas),
        (forall|i: int| 0 <= i < gas.len() ==> #[trigger] gas[i] > 0) ==> cuts.last()
            == gas.len(),
{
    let cuts = lemma_split_cuts(gas, target);
    lemma_split(gas, target);
    let split = split_of(gas, target);
    if split.used == split.closed {
        if cuts.last() < gas.len() && gas[cuts.last()] > 0 {
            lemma_take_sum(gas, cuts.last() + 1);
            assert(gas.take(cuts.last() + 1).drop_last() =~= gas.take(cuts.last()));
        }
        cuts
    } else {
        let end = gas.len() as int;
        let last = cuts.last();
        let longer = cuts.push(end);
        assert(0 <= last);
        assert(gas.take(end) =~= gas);
        lemma_sum_subrange(gas, last, end);
        assert(last < end) by {
            if last == end {
                assert(gas.take(last) =~= gas);
            }
        }
        assert forall|i: int| 0 <= i < gas_limits(gas, target).len() implies #[trigger] gas_limits(
            gas,
            target,
        )[i] as nat == gas_sum(gas.subrange(longer[i], longer[i + 1])) by {
            if i < split.limits.len() {
                assert(gas_limits(gas, target)[i] == split.limits[i]);
            }
        }
        longer
    }
}

/// Shares out the gas of a block: the limit of each subblock, from the gas that each transaction
/// used, the gas used by the whole block, and the greatest number of subblocks.
pub fn compute_subblock_gas_limits(
    tx_gas_used: &Vec<u64>,
    total_gas: u64,
    max_subblock_count: u64,
) -> (r: Vec<u64>)
    requires
        tx_gas_used@.len() > 0 ==> max_subblock_count > 0 && gas_sum(tx_gas_used@) == total_gas,
    ensures
        tx_gas_used@.len() == 0 ==> r@ == seq![DEFAULT_SUBBLOCK_GAS_LIMIT],
        tx_gas_used@.len() > 0 ==> {
            &&& r@ == gas_limits(
                tx_gas_used@,
                target_gas(total_gas as nat, max_subblock_count as nat),
            )
            &&& r@.len() <= max_subblock_count
            &&& gas_sum(r@) == total_gas
        },
{
    // A block without transactions has one subblock.
    if tx_gas_used.len() == 0 {
        let mut r: Vec<u64> = Vec::new();
        r.push(DEFAULT_SUBBLOCK_GAS_LIMIT);
        assert(r@ =~= seq![DEFAULT_SUBBLOCK_GAS_LIMIT]);
        return r;
    }
    let ghost gas = tx_gas_used@;
    let ghost target = target_gas(total_gas as nat, max_subblock_count as nat);
    // The gas that each subblock aims at.
    let subblock_gas: u128 = (total_gas as u128 + max_subblock_count as u128)
        / max_subblock_count as u128;
    assert(subblock_gas == target);
    // Gas of the closed subblocks.
    let mut prev: u64 = 0;
    // Gas of all transactions so far.
    let mut curr: u64 = 0;
    // Cumulative gas that the open subblock should end at.
    let mut next: u128 = subblock_gas;
    let mut limits: Vec<u64> = Vec::new();
    let mut i: usize = 0;
    assert(gas.take(0) =~= Seq::empty());
    proof {
        assert(subblock_gas <= 2 * 0xffff_ffff_ffff_ffff) by (nonlinear_arith)
            requires
                subblock_gas as int == (total_gas as int + max_subblock_count as int)
                    / max_subblock_count as int,
                max_subblock_count > 0,
                total_gas <= 0xffff_ffff_ffff_ffff,
                max_subblock_count <= 0xffff_ffff_ffff_ffff,
        ;
        assert((0 + 1) * target == target) by (nonlinear_arith);
    }
    while i < tx_gas_used.len()
        invariant
            i <= tx_gas_used.len(),
            gas == tx_gas_used@,
            gas_sum(gas) == total_gas,
            subblock_gas == target,
            subblock_gas <= 2 * 0xffff_ffff_ffff_ffff,
            limits@ == split_of(gas.take(i as int), target).limits,
            prev == split_of(gas.take(i as int), target).closed,
            curr == split_of(gas.take(i as int), target).used,
            next == next_target(split_of(gas.take(i as int), target), target),
        decreases tx_gas_used.len() - i,
    {
        let ghost split = split_of(gas.take(i as int), target);
        proof {
            assert(gas.take(i + 1).drop_last() =~= gas.take(i as int));
            assert(gas.take(i + 1).last() == gas[i as int]);
            lemma_take_sum(gas, i as int);
            lemma_take_sum(gas, i + 1);
            lemma_split(gas.take(i as int), target);
            lemma_split(gas.take(i + 1), target);
            let n = split.limits.len();
            assert((n + 1) * target == n * target + target) by (nonlinear_arith);
            assert((n + 2) * target == n * target + 2 * target) by (nonlinear_arith);
        }
        let tx_gas: u64 = tx_gas_used[i];
        let grown: u64 = curr + tx_gas;
        if curr != prev && grown as u128 > next + subblock_gas / 2 {
            limits.push(curr - prev);
            prev = curr;
            curr = grown;
            next = next + subblock_gas;
        } else {
            curr = grown;
            if curr as u128 > next {
                limits.push(curr - prev);
                prev = curr;
                next = next + subblock_gas;
            }
        }
        i = i + 1;
    }
    assert(gas.take(i as int) =~= gas);
    proof {
        lemma_split(gas, target);
        law_limits_cover_the_block(gas, target);
        law_limits_keep_the_count(gas, max_subblock_count as nat);
    }
    // The open subblock is the last one.
    if curr != prev {
        limits.push(curr - prev);
    }
    limits
}

/// Adds up amounts of gas.
fn sum_gas(gas: &Vec<u64>) -> (r: Option<u64>)
    ensures
        match r {
            Some(sum) => gas_sum(gas@) == sum,
            None => gas_sum(gas@) > u64::MAX,
        },
{
    let ghost all = gas@;
    assert(all.take(0) =~= Seq::empty());
    let mut sum: u64 = 0;
    let mut i: usize = 0;
    while i < gas.len()
        invariant
            i <= gas.len(),
            all == gas@,
            sum == gas_sum(all.take(i as int)),
        decreases gas.len() - i,
    {
        proof {
            assert(all.take(i + 1).drop_last() =~= all.take(i as int));
            assert(all.take(i + 1).last() == all[i as int]);
            lemma_take_sum(all, i + 1);
        }
        if gas[i] > u64::MAX - sum {
            return None;
        }
        sum = sum + gas[i];
        i = i + 1;
    }
    assert(all.take(i as int) =~= all);
    Some(sum)
}

/// The gas limits of a block can be computed: there is a receipt for each transaction and, where
/// there are any, the greatest number of subblocks is a positive number and the gas of the receipts
/// adds up to that of the block.
pub open spec fn can_share_gas(
    transaction_count: nat,
    receipt_gas: Seq<u64>,
    total_gas: u64,
    max_subblock_count: Option<u64>,
) -> bool {
    &&& receipt_gas.len() == transaction_count
    &&& receipt_gas.len() > 0 ==> {
        &&& max_subblock_count matches Some(count)
        &&& count > 0
        &&& gas_sum(receipt_gas) == total_gas
    }
}

/// Shares out the gas of a block with so many transactions, from the gas in its receipts. There is
/// no answer where the receipts are not those of the block, or where no subblock is allowed.
pub fn subblock_gas_limits(
    transaction_count: usize,
    receipt_gas: &Vec<u64>,
    total_gas: u64,
    max_subblock_count: Option<u64>,
) -> (r: Option<Vec<u64>>)
    ensures
        match r {
            Some(limits) => {
                &&& can_share_gas(
                    transaction_count as nat,
                    receipt_gas@,
                    total_gas,
                    max_subblock_count,
                )
                &&& limits@ == (if transaction_count == 0 {
                    seq![DEFAULT_SUBBLOCK_GAS_LIMIT]
                } else {
                    gas_limits(
                        receipt_gas@,
                        target_gas(total_gas as nat, max_subblock_count->0 as nat),
                    )
                })
                &&& transaction_count > 0 ==> limits@.len() <= max_subblock_count->0
                    && gas_sum(limits@) == total_gas
            },
            None => !can_share_gas(
                transaction_count as nat,
                receipt_gas@,
                total_gas,
                max_subblock_count,
            ),
        },
{
    if receipt_gas.len() != transaction_count {
        return None;
    }
    if receipt_gas.len() == 0 {
        return Some(compute_subblock_gas_limits(receipt_gas, total_gas, 0));
    }
    let count: u64 = match max_subblock_count {
        Some(count) => count,
        None => {
            return None;
        },
    };
    match sum_gas(receipt_gas) {
        Some(sum) if sum == total_gas && count > 0 => Some(
            compute_subblock_gas_limits(receipt_gas, total_gas, count),
        ),
        _ => None,
    }
}

/// A part of the transactions uses no more gas than all of them.
proof fn lemma_take_sum(gas: Seq<u64>, i: int)
    requires
        0 <= i <= gas.len(),
    ensures
        gas_sum(gas.take(i)) <= gas_sum(gas),
    decreases gas.len() - i,
{
    if i < gas.len() {
        lemma_take_sum(gas, i + 1);
        assert(gas.take(i + 1).drop_last() =~= gas.take(i));
    } else {
        assert(gas.take(i) =~= gas);
    }
}

/// The gas of the first transactions.
pub open spec fn gas_up_to(gas: Seq<u64>, n: int) -> nat {
    gas_sum(gas.take(n))
}

/// The run of transactions of a subblock ends near its mark. It does not go on beyond the mark, and
/// takes no further transaction that would carry it more than half a target beyond the mark; its
/// first transaction it takes in any case. It has passed the mark before it, and where transactions
/// follow, it has passed its own mark or the next one would have carried it too far.
pub open spec fn ends_near_mark(gas: Seq<u64>, target: nat, i: int, from: int, to: int) -> bool {
    let mark = (i + 1) * target;
    &&& forall|j: int| from < j < to ==> #[trigger] gas_up_to(gas, j + 1) <= mark + target / 2
    &&& forall|j: int| from + 1 < j < to ==> #[trigger] gas_up_to(gas, j) <= mark
    &&& gas_up_to(gas, to) > i * target
    &&& to < gas.len() ==> gas_up_to(gas, to) > mark || gas_up_to(gas, to + 1) > mark + target / 2
}

/// More transactions use more gas.
proof fn lemma_gas_grows(gas: Seq<u64>, i: int, j: int)
    requires
        0 <= i <= j <= gas.len(),
        forall|k: int| 0 <= k < gas.len() ==> #[trigger] gas[k] > 0,
    ensures
        gas_up_to(gas, i) <= gas_up_to(gas, j),
        i < j ==> gas_up_to(gas, i) < gas_up_to(gas, j),
    decreases j - i,
{
    if i < j {
        lemma_gas_grows(gas, i, j - 1);
        assert(gas.take(j).drop_last() =~= gas.take(j - 1));
        assert(gas.take(j).last() == gas[j - 1]);
    }
}

/// What holds of the cuts after a run of transactions, each of which uses gas.
spec fn are_marked(gas: Seq<u64>, target: nat, split: Split, cuts: Seq<int>) -> bool {
    let n = split.limits.len();
    let last = cuts.last();
    let len = gas.len() as int;
    let mark = (n + 1) * target;
    &&& cuts.len() == n + 1
    &&& cuts[0] == 0
    &&& forall|i: int, j: int| 0 <= i < j < cuts.len() ==> (#[trigger] cuts[i]) < (
    #[trigger] cuts[j])
    &&& 0 <= last <= len
    &&& split.used == gas_up_to(gas, len)
    &&& split.closed == gas_up_to(gas, last)
    &&& forall|i: int|
        0 <= i < n ==> #[trigger] split.limits[i] == gas_up_to(gas, cuts[i + 1]) - gas_up_to(
            gas,
            cuts[i],
        ) && ends_near_mark(gas, target, i, cuts[i], cuts[i + 1])
    &&& forall|j: int|
        last < j < len ==> #[trigger] gas_up_to(gas, j + 1) <= mark + target / 2
    &&& forall|j: int| last + 1 < j <= len ==> #[trigger] gas_up_to(gas, j) <= mark
    &&& last < len ==> gas_up_to(gas, last + 1) > n * target
    &&& last == len && n > 0 ==> gas_up_to(gas, last) > n * target
}

/// A run keeps its end with one more transaction behind it, where it had not reached the end
/// before or has passed its mark.
proof fn lemma_mark_stays(shorter: Seq<u64>, gas: Seq<u64>, target: nat, i: int, from: int, to: int)
    requires
        gas.len() == shorter.len() + 1,
        gas.drop_last() == shorter,
        0 <= from < to <= shorter.len(),
        ends_near_mark(shorter, target, i, from, to),
        to == shorter.len() ==> gas_up_to(shorter, to) > (i + 1) * target || gas_up_to(gas, to + 1)
            > (i + 1) * target + target / 2,
    ensures
        ends_near_mark(gas, target, i, from, to),
{
    assert forall|j: int| 0 <= j <= shorter.len() implies #[trigger] gas_up_to(gas, j) == gas_up_to(
        shorter,
        j,
    ) by {
        assert(gas.take(j) =~= shorter.take(j));
    }
    assert forall|j: int| from < j < to implies #[trigger] gas_up_to(gas, j + 1) <= (i + 1) * target
        + target / 2 by {
        assert(gas_up_to(shorter, j + 1) <= (i + 1) * target + target / 2);
    }
    assert forall|j: int| from + 1 < j < to implies #[trigger] gas_up_to(gas, j) <= (i + 1)
        * target by {
        assert(gas_up_to(shorter, j) <= (i + 1) * target);
    }
    if to < shorter.len() {
        assert(gas_up_to(gas, to + 1) == gas_up_to(shorter, to + 1));
    }
}

/// Every closed subblock ends near its mark, and the open one has not gone beyond its own.
proof fn lemma_split_marks(gas: Seq<u64>, target: nat) -> (cuts: Seq<int>)
    requires
        gas_sum(gas) <= u64::MAX,
        forall|k: int| 0 <= k < gas.len() ==> #[trigger] gas[k] > 0,
    ensures
        are_marked(gas, target, split_of(gas, target), cuts),
    decreases gas.len(),
{
    if gas.len() == 0 {
        assert(gas.take(0) =~= gas);
        seq![0int]
    } else {
        let shorter = gas.drop_last();
        let len = shorter.len() as int;
        let tx = gas.last();
        assert forall|k: int| 0 <= k < shorter.len() implies #[trigger] shorter[k] > 0 by {
            assert(shorter[k] == gas[k]);
        }
        assert(tx == gas[len]);
        let cuts = lemma_split_marks(shorter, target);
        let before = split_of(shorter, target);
        let after = split_of(gas, target);
        let n = before.limits.len() as int;
        let last = cuts.last();
        let mark = (n + 1) * target;
        assert(mark == n * target + target) by (nonlinear_arith)
            requires
                mark == (n + 1) * target,
        ;
        assert(cuts.last() == cuts[n]);
        assert forall|j: int| 0 <= j <= len implies #[trigger] gas_up_to(gas, j) == gas_up_to(
            shorter,
            j,
        ) by {
            assert(gas.take(j) =~= shorter.take(j));
        }
        assert(gas.take(len + 1) =~= gas);
        assert(gas.take(len) =~= shorter);
        assert(shorter.take(len) =~= shorter);
        lemma_split(shorter, target);
        assert(gas_up_to(gas, len + 1) == before.used + tx);
        // the runs that were closed before
        assert forall|i: int| 0 <= i < n implies #[trigger] before.limits[i] == gas_up_to(
            gas,
            cuts[i + 1],
        ) - gas_up_to(gas, cuts[i]) && ends_near_mark(gas, target, i, cuts[i], cuts[i + 1]) by {
            assert(before.limits[i] == gas_up_to(shorter, cuts[i + 1]) - gas_up_to(
                shorter,
                cuts[i],
            ));
            assert(cuts[i] < cuts[i + 1]);
            if i > 0 {
                assert(cuts[0] < cuts[i]);
            }
            if i + 1 < n {
                assert(cuts[i + 1] < cuts[n]);
            }
            lemma_mark_stays(shorter, gas, target, i, cuts[i], cuts[i + 1]);
        }
        // the open run
        assert(before.used != before.closed <==> last < len) by {
            lemma_gas_grows(shorter, last, len);
        }
        assert forall|j: int| last < j < len implies #[trigger] gas_up_to(gas, j + 1) <= mark
            + target / 2 by {
            assert(gas_up_to(shorter, j + 1) <= mark + target / 2);
        }
        assert forall|j: int| last + 1 < j <= len implies #[trigger] gas_up_to(gas, j) <= mark by {
            assert(gas_up_to(shorter, j) <= mark);
        }
        lemma_gas_grows(gas, len, len + 1);
        if last < len {
            lemma_gas_grows(gas, last + 1, len);
            assert(gas_up_to(gas, last + 1) > n * target);
        } else {
            assert(gas_up_to(gas, last + 1) > n * target) by {
                if n == 0 {
                    assert(n * target == 0) by (nonlinear_arith)
                        requires
                            n == 0,
                    ;
                }
            }
        }
        if last < len && gas_up_to(gas, len + 1) > mark + target / 2 {
            let longer = cuts.push(len);
            assert(longer.last() == len);
            assert((n + 2) * target == mark + target) by (nonlinear_arith)
                requires
                    mark == (n + 1) * target,
            ;
            assert(ends_near_mark(gas, target, n, last, len));
            assert(after.limits[n] == gas_up_to(gas, len) - gas_up_to(gas, last)) by {
                lemma_take_sum(gas, len);
            }
            assert forall|i: int| 0 <= i < n + 1 implies #[trigger] after.limits[i] == gas_up_to(
                gas,
                longer[i + 1],
            ) - gas_up_to(gas, longer[i]) && ends_near_mark(
                gas,
                target,
                i,
                longer[i],
                longer[i + 1],
            ) by {
                if i < n {
                    assert(after.limits[i] == before.limits[i]);
                }
            }
            assert(are_marked(gas, target, after, longer));
            longer
        } else if gas_up_to(gas, len + 1) > mark {
            let longer = cuts.push(len + 1);
            assert(longer.last() == len + 1);
            assert(ends_near_mark(gas, target, n, last, len + 1));
            assert forall|i: int| 0 <= i < n + 1 implies #[trigger] after.limits[i] == gas_up_to(
                gas,
                longer[i + 1],
            ) - gas_up_to(gas, longer[i]) && ends_near_mark(
                gas,
                target,
                i,
                longer[i],
                longer[i + 1],
            ) by {
                if i < n {
                    assert(after.limits[i] == before.limits[i]);
                }
            }
            assert(are_marked(gas, target, after, longer));
            longer
        } else {
            assert forall|j: int| last < j < len + 1 implies #[trigger] gas_up_to(gas, j + 1) <= mark
                + target / 2 by {
                if j < len {
                    assert(gas_up_to(gas, j + 1) <= mark + target / 2);
                } else {
                    assert(j + 1 == len + 1);
                }
            }
            assert forall|j: int| last + 1 < j <= len + 1 implies #[trigger] gas_up_to(gas, j)
                <= mark by {
                if j == len + 1 {
                    assert(gas_up_to(gas, len + 1) <= mark);
                }
            }
            assert(after.limits == before.limits);
            assert(after.closed == gas_up_to(gas, last));
            assert(after.used == gas_up_to(gas, len + 1));
            assert(are_marked(gas, target, after, cuts));
            cuts
        }
    }
}

/// Where every transaction uses gas, the limits are the gas of runs of transactions, one behind the
/// other and without a rest, and every run ends near its mark: the first so many subblocks together
/// use more gas than one target less than their number, and at most half a target more than their
/// number, unless the last of them is a single transaction. A subblock ends as soon as it has
/// passed its mark, and no sooner than it has to: where transactions follow, it has passed its
/// mark, or the next one would have carried it more than half a target beyond it.
pub proof fn law_limits_end_near_their_marks(gas: Seq<u64>, target: nat) -> (cuts: Seq<int>)
    requires
        gas_sum(gas) <= u64::MAX,
        forall|i: int| 0 <= i < gas.len() ==> #[trigger] gas[i] > 0,
    ensures
        cuts.len() == gas_limits(gas, target).len() + 1,
        cuts[0] == 0,
        cuts.last() == gas.len(),
        forall|i: int, j: int| 0 <= i < j < cuts.len() ==> (#[trigger] cuts[i]) < (
        #[trigger] cuts[j]),
        forall|i: int|
            0 <= i < gas_limits(gas, target).len() ==> {
                &&& gas_limits(gas, target)[i] == gas_up_to(gas, cuts[i + 1]) - gas_up_to(
                    gas,
                    #[trigger] cuts[i],
                )
                &&& gas_up_to(gas, cuts[i + 1]) > i * target
                &&& cuts[i + 1] > cuts[i] + 1 ==> gas_up_to(gas, cuts[i + 1]) <= (i + 1) * target
                    + target / 2
                &&& cuts[i + 1] < gas.len() ==> gas_up_to(gas, cuts[i + 1]) > (i + 1) * target
                    || gas_up_to(gas, cuts[i + 1] + 1) > (i + 1) * target + target / 2
            },
        forall|i: int, j: int|
            0 <= i < gas_limits(gas, target).len() && (#[trigger] cuts[i]) + 1 < j < cuts[i + 1]
                ==> #[trigger] gas_up_to(gas, j) <= (i + 1) * target,
{
    let cuts = lemma_split_marks(gas, target);
    let split = split_of(gas, target);
    let n = split.limits.len() as int;
    let len = gas.len() as int;
    let limits = gas_limits(gas, target);
    let last = cuts.last();
    assert(cuts.last() == cuts[n]);
    assert(gas.take(len) =~= gas);
    lemma_gas_grows(gas, last, len);
    let all = if split.used != split.closed {
        cuts.push(len)
    } else {
        cuts
    };
    if split.used != split.closed {
        assert(all.last() == len);
        lemma_gas_grows(gas, last + 1, len);
        assert(ends_near_mark(gas, target, n, last, len));
        assert(limits[n] == gas_up_to(gas, len) - gas_up_to(gas, last));
    }
    assert forall|i: int| 0 <= i < limits.len() implies #[trigger] limits[i] == gas_up_to(
        gas,
        all[i + 1],
    ) - gas_up_to(gas, all[i]) && ends_near_mark(gas, target, i, all[i], all[i + 1]) by {
        if i < n {
            assert(limits[i] == split.limits[i]);
        }
    }
    assert forall|i: int| 0 <= i < limits.len() implies {
        &&& limits[i] == gas_up_to(gas, all[i + 1]) - gas_up_to(gas, #[trigger] all[i])
        &&& gas_up_to(gas, all[i + 1]) > i * target
        &&& all[i + 1] > all[i] + 1 ==> gas_up_to(gas, all[i + 1]) <= (i + 1) * target + target / 2
        &&& all[i + 1] < gas.len() ==> gas_up_to(gas, all[i + 1]) > (i + 1) * target || gas_up_to(
            gas,
            all[i + 1] + 1,
        ) > (i + 1) * target + target / 2
    } by {
        assert(limits[i] == gas_up_to(gas, all[i + 1]) - gas_up_to(gas, all[i]));
        if all[i + 1] > all[i] + 1 {
            assert(gas_up_to(gas, (all[i + 1] - 1) + 1) <= (i + 1) * target + target / 2);
        }
    }
    assert forall|i: int, j: int|
        0 <= i < limits.len() && (#[trigger] all[i]) + 1 < j < all[i + 1] implies
        #[trigger] gas_up_to(gas, j) <= (i + 1) * target by {
        assert(limits[i] == gas_up_to(gas, all[i + 1]) - gas_up_to(gas, all[i]));
    }
    assert(all.len() == limits.len() + 1);
    assert(all.last() == len);
    assert forall|i: int, j: int| 0 <= i < j < all.len() implies (#[trigger] all[i]) < (
    #[trigger] all[j]) by {
        if j == n + 1 && i < n {
            assert(cuts[i] < cuts[n]);
        }
    }
    all
}

/// The target is the smallest whole amount of gas of which the allowed number of subblocks takes
/// more than the block uses.
pub proof fn law_target_is_the_least(total_gas: nat, max_subblock_count: nat)
    requires
        max_subblock_count > 0,
    ensures
        target_gas(total_gas, max_subblock_count) > 0,
        target_gas(total_gas, max_subblock_count) * max_subblock_count > total_gas,
        (target_gas(total_gas, max_subblock_count) - 1) * max_subblock_count <= total_gas,
{
    let target = target_gas(total_gas, max_subblock_count);
    assert(target > 0 && target * max_subblock_count > total_gas && (target - 1)
        * max_subblock_count <= total_gas) by (nonlinear_arith)
        requires
            target == (total_gas + max_subblock_count) / max_subblock_count,
            max_subblock_count > 0,
    ;
}

/// Gas adds up.
pub proof fn law_gas_sum(a: Seq<u64>, gas: u64)
    ensures
        gas_sum(Seq::<u64>::empty()) == 0,
        gas_sum(a.push(gas)) == gas_sum(a) + gas,
{
    assert(a.push(gas).drop_last() =~= a);
}

/// Gas is shared out exactly where the receipts are those of the block: one for each transaction
/// and with the gas of the block. A block with transactions needs a positive number of subblocks.
pub proof fn law_gas_is_shared_where_receipts_fit(
    transaction_count: nat,
    receipt_gas: Seq<u64>,
    total_gas: u64,
    max_subblock_count: Option<u64>,
)
    ensures
        ({
            let shared = can_share_gas(
                transaction_count,
                receipt_gas,
                total_gas,
                max_subblock_count,
            );
            &&& receipt_gas.len() != transaction_count ==> !shared
            &&& receipt_gas.len() == 0 && transaction_count == 0 ==> shared
            &&& receipt_gas.len() > 0 && gas_sum(receipt_gas) != total_gas ==> !shared
            &&& receipt_gas.len() > 0 && max_subblock_count is None ==> !shared
            &&& receipt_gas.len() > 0 && max_subblock_count == Some(0u64) ==> !shared
            &&& receipt_gas.len() == transaction_count && gas_sum(receipt_gas) == total_gas
                && max_subblock_count is Some && max_subblock_count->0 > 0 ==> shared
        }),
{
}

} // verus!
