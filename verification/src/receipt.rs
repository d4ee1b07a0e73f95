//! Logs and receipts of executed transactions.

use vstd::prelude::*;

use crate::bloom::{
    accrue_bloom, accrue_raw_log, bloom_or, empty_bloom, law_bloom_or_associative,
    law_bloom_or_commutative, law_bloom_or_empty, log_bloom, zero_bloom, Bloom,
};
use crate::data::{lemma_arrays_model, lemma_bytes_model, Data};
use crate::primitives::{Address, B256};

verus! {

/// A log entry that a transaction wrote.
#[derive(Debug)]
pub struct Log {
    pub address: Address,
    pub topics: Vec<B256>,
    pub data: Vec<u8>,
}

/// The model of a [`Log`].
pub struct LogModel {
    pub address: Address,
    pub topics: Seq<B256>,
    pub data: Seq<u8>,
}

impl Data for Log {
    type M = LogModel;

    open spec fn model(&self) -> LogModel {
        LogModel { address: self.address, topics: self.topics@, data: self.data@ }
    }

    fn copied(&self) -> (r: Self) {
        let r: Log = Log {
            address: self.address,
            topics: self.topics.copied(),
            data: self.data.copied(),
        };
        proof {
            lemma_arrays_model(&self.topics);
            lemma_arrays_model(&r.topics);
            lemma_bytes_model(&self.data);
            lemma_bytes_model(&r.data);
        }
        r
    }

    fn same(&self, other: &Self) -> (r: bool) {
        proof {
            lemma_arrays_model(&self.topics);
            lemma_arrays_model(&other.topics);
            lemma_bytes_model(&self.data);
            lemma_bytes_model(&other.data);
        }
        self.address.same(&other.address) && self.topics.same(&other.topics) && self.data.same(
            &other.data,
        )
    }
}

/// The receipt of a transaction.
#[derive(Debug)]
pub struct Receipt {
    pub tx_type: u8,
    pub success: bool,
    /// Gas used in the block up to and with this transaction.
    pub cumulative_gas_used: u64,
    pub logs: Vec<Log>,
}

/// The model of a [`Receipt`].
pub struct ReceiptModel {
    pub tx_type: u8,
    pub success: bool,
    pub cumulative_gas_used: u64,
    pub logs: Seq<LogModel>,
}

impl Data for Receipt {
    type M = ReceiptModel;

    open spec fn model(&self) -> ReceiptModel {
        ReceiptModel {
            tx_type: self.tx_type,
            success: self.success,
            cumulative_gas_used: self.cumulative_gas_used,
            logs: self.logs.model(),
        }
    }

    fn copied(&self) -> (r: Self) {
        Receipt {
            tx_type: self.tx_type,
            success: self.success,
            cumulative_gas_used: self.cumulative_gas_used,
            logs: self.logs.copied(),
        }
    }

    fn same(&self, other: &Self) -> (r: bool) {
        self.tx_type == other.tx_type && self.success == other.success && self.cumulative_gas_used
            == other.cumulative_gas_used && self.logs.same(&other.logs)
    }
}

/// The filter of a sequence of logs.
pub open spec fn logs_bloom(logs: Seq<LogModel>) -> Seq<u8>
    decreases logs.len(),
{
    if logs.len() == 0 {
        empty_bloom()
    } else {
        bloom_or(logs_bloom(logs.drop_last()), log_bloom(logs.last().address, logs.last().topics))
    }
}

/// The filter of a sequence of receipts.
pub open spec fn receipts_bloom(receipts: Seq<ReceiptModel>) -> Seq<u8>
    decreases receipts.len(),
{
    if receipts.len() == 0 {
        empty_bloom()
    } else {
        bloom_or(receipts_bloom(receipts.drop_last()), logs_bloom(receipts.last().logs))
    }
}

/// A filter has 256 bytes.
pub proof fn lemma_receipts_bloom_len(receipts: Seq<ReceiptModel>)
    ensures
        receipts_bloom(receipts).len() == 256,
{
}

/// The filter of two runs of receipts is the union of the filters of the runs.
pub proof fn law_receipts_bloom_concat(a: Seq<ReceiptModel>, b: Seq<ReceiptModel>)
    ensures
        receipts_bloom(a + b) == bloom_or(receipts_bloom(a), receipts_bloom(b)),
    decreases b.len(),
{
    if b.len() == 0 {
        assert(a + b =~= a);
        lemma_receipts_bloom_len(a);
        law_bloom_or_empty(receipts_bloom(a));
    } else {
        law_receipts_bloom_concat(a, b.drop_last());
        assert((a + b).drop_last() =~= a + b.drop_last());
        law_bloom_or_associative(
            receipts_bloom(a),
            receipts_bloom(b.drop_last()),
            logs_bloom(b.last().logs),
        );
    }
}

impl Receipt {
    /// The filter of the logs of the receipt.
    pub fn bloom(&self) -> (r: Bloom)
        ensures
            r@ == logs_bloom(self.model().logs),
    {
        let mut bloom: Bloom = zero_bloom();
        let ghost logs = self.logs.model();
        let mut i: usize = 0;
        while i < self.logs.len()
            invariant
                i <= self.logs.len(),
                logs == self.logs.model(),
                bloom@ == logs_bloom(logs.take(i as int)),
            decreases self.logs.len() - i,
        {
            let log: &Log = &self.logs[i];
            bloom = accrue_raw_log(bloom, log.address, &log.topics);
            proof {
                assert(logs.take(i + 1).drop_last() =~= logs.take(i as int));
                assert(logs.take(i + 1).last() == log.model());
            }
            i = i + 1;
        }
        assert(logs.take(i as int) =~= logs);
        bloom
    }
}

/// Accumulates the filters of all receipts.
pub fn accrue_receipts(receipts: &Vec<Receipt>) -> (r: Bloom)
    ensures
        r@ == receipts_bloom(receipts.model()),
{
    let mut bloom: Bloom = zero_bloom();
    let ghost all = receipts.model();
    let mut i: usize = 0;
    while i < receipts.len()
        invariant
            i <= receipts.len(),
            all == receipts.model(),
            bloom@ == receipts_bloom(all.take(i as int)),
        decreases receipts.len() - i,
    {
        let other: Bloom = receipts[i].bloom();
        bloom = accrue_bloom(bloom, &other);
        proof {
            assert(all.take(i + 1).drop_last() =~= all.take(i as int));
            assert(all.take(i + 1).last() == receipts@[i as int].model());
        }
        i = i + 1;
    }
    assert(all.take(i as int) =~= all);
    bloom
}

/// The gas that a run of receipts leaves used: that of the last receipt, or nothing.
pub open spec fn last_gas_used(receipts: Seq<ReceiptModel>) -> u64 {
    if receipts.len() == 0 {
        0
    } else {
        receipts.last().cumulative_gas_used
    }
}

/// The cumulative gas of the last receipt, or zero without receipts.
pub fn last_cumulative_gas(receipts: &Vec<Receipt>) -> (r: u64)
    ensures
        r == last_gas_used(receipts.model()),
{
    if receipts.len() == 0 {
        0
    } else {
        receipts[receipts.len() - 1].cumulative_gas_used
    }
}

/// The filter of logs has the bits of each log, and none beside them: without logs it is empty, and
/// one more log adds its own bits. So it is with receipts.
pub proof fn law_blooms_grow(
    logs: Seq<LogModel>,
    log: LogModel,
    receipts: Seq<ReceiptModel>,
    receipt: ReceiptModel,
)
    ensures
        logs_bloom(Seq::<LogModel>::empty()) == empty_bloom(),
        logs_bloom(logs.push(log)) == bloom_or(
            logs_bloom(logs),
            log_bloom(log.address, log.topics),
        ),
        receipts_bloom(Seq::<ReceiptModel>::empty()) == empty_bloom(),
        receipts_bloom(receipts.push(receipt)) == bloom_or(
            receipts_bloom(receipts),
            logs_bloom(receipt.logs),
        ),
{
    assert(logs.push(log).drop_last() =~= logs);
    assert(receipts.push(receipt).drop_last() =~= receipts);
}

/// A filter that covers another covers it still with more bits.
proof fn lemma_cover_grows(a: Seq<u8>, b: Seq<u8>, part: Seq<u8>)
    requires
        bloom_or(a, part) == a,
    ensures
        bloom_or(bloom_or(a, b), part) == bloom_or(a, b),
{
    law_bloom_or_associative(a, b, part);
    law_bloom_or_commutative(b, part);
    law_bloom_or_associative(a, part, b);
}

/// The filter of logs covers each of the logs.
proof fn lemma_logs_are_covered(logs: Seq<LogModel>, k: int)
    requires
        0 <= k < logs.len(),
    ensures
        bloom_or(logs_bloom(logs), log_bloom(logs[k].address, logs[k].topics)) == logs_bloom(logs),
    decreases logs.len(),
{
    let rest = logs.drop_last();
    let last = log_bloom(logs.last().address, logs.last().topics);
    if k < rest.len() {
        lemma_logs_are_covered(rest, k);
        assert(rest[k] == logs[k]);
        lemma_cover_grows(logs_bloom(rest), last, log_bloom(logs[k].address, logs[k].topics));
    } else {
        law_bloom_or_associative(logs_bloom(rest), last, last);
        assert(bloom_or(logs_bloom(rest), bloom_or(last, last)) =~= bloom_or(
            logs_bloom(rest),
            last,
        )) by {
            assert forall|i: int| 0 <= i < 256 implies bloom_or(
                logs_bloom(rest),
                bloom_or(last, last),
            )[i] == bloom_or(logs_bloom(rest), last)[i] by {
                let y = last[i];
                assert(y | y == y) by (bit_vector);
            }
        }
    }
}

/// The filter of receipts covers every log of every receipt.
pub proof fn law_every_log_is_covered(receipts: Seq<ReceiptModel>, i: int, k: int)
    requires
        0 <= i < receipts.len(),
        0 <= k < receipts[i].logs.len(),
    ensures
        ({
            let log = receipts[i].logs[k];
            bloom_or(receipts_bloom(receipts), log_bloom(log.address, log.topics))
                == receipts_bloom(receipts)
        }),
    decreases receipts.len(),
{
    let rest = receipts.drop_last();
    let last = logs_bloom(receipts.last().logs);
    let log = receipts[i].logs[k];
    let part = log_bloom(log.address, log.topics);
    if i < rest.len() {
        law_every_log_is_covered(rest, i, k);
        assert(rest[i] == receipts[i]);
        lemma_cover_grows(receipts_bloom(rest), last, part);
    } else {
        lemma_logs_are_covered(receipts.last().logs, k);
        law_bloom_or_associative(receipts_bloom(rest), last, part);
    }
}

/// The gas that receipts leave used is that of the last one.
pub proof fn law_last_gas_used(receipts: Seq<ReceiptModel>, receipt: ReceiptModel)
    ensures
        last_gas_used(Seq::<ReceiptModel>::empty()) == 0,
        last_gas_used(receipts.push(receipt)) == receipt.cumulative_gas_used,
{
}

/// The model of a receipt and of a log holds every field of it.
pub proof fn law_receipt_model(receipt: Receipt, log: Log)
    ensures
        receipt.model().tx_type == receipt.tx_type,
        receipt.model().success == receipt.success,
        receipt.model().cumulative_gas_used == receipt.cumulative_gas_used,
        receipt.model().logs == receipt.logs.model(),
        log.model().address == log.address,
        log.model().topics == log.topics@,
        log.model().data == log.data@,
{
}

} // verus!
