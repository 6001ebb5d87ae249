//! Per-channel writer: splits timestamps, stages `ts_msp` index rows on
//! partition change, and hands out row batches when the acceptor is full.
use vstd::prelude::*;
use crate::acceptor::{decode_elems, elem_width, rows_view, ElemKind, MsgAcceptor, Row};
use crate::bytes::{bytes_in, lemma_round_trip, pow256};
use crate::error::Error;
use crate::timesplit::{split_spec, ts_msp_lsp_gen, SEC, TS_SPLIT_MIN};
use crate::types::{dtype_mark, dtype_mark_spec, ByteOrder, ScalarType, Shape};

verus! {

/// The acceptor that a `(scalar_type, shape, byte_order)` combination selects:
/// its element type and whether it takes arrays. `None` where unsupported.
pub open spec fn acceptor_choice(t: ScalarType, s: Shape, o: ByteOrder) -> Option<(ElemKind, bool)> {
    match s {
        Shape::Scalar => match o {
            ByteOrder::BE => match t {
                ScalarType::U16 => Some((ElemKind::I16, false)),
                ScalarType::U32 => Some((ElemKind::I32, false)),
                ScalarType::F32 => Some((ElemKind::F32, false)),
                ScalarType::F64 => Some((ElemKind::F64, false)),
                _ => None,
            },
            ByteOrder::LE => None,
        },
        Shape::Wave(_) => match t {
            ScalarType::U16 => Some((ElemKind::I16, true)),
            ScalarType::I16 => Some((ElemKind::I16, true)),
            ScalarType::F32 => Some((ElemKind::F32, true)),
            ScalarType::F64 => Some((ElemKind::F64, true)),
            _ => None,
        },
        Shape::Image(_, _) => None,
    }
}

/// Partition width: 100 seconds for scalars, 10 seconds for arrays.
pub open spec fn bucket_of(array: bool) -> u64 {
    if array {
        (10 * SEC) as u64
    } else {
        (100 * SEC) as u64
    }
}

/// The partition key of `ts`.
pub open spec fn msp_of(ts: u64, series: u32, bucket: u64) -> u64 {
    split_spec(ts as nat, series as nat, bucket as nat).0 as u64
}

/// The index row that a sample in partition `msp` causes, given the last
/// partition written: one exactly when the partition changed.
pub open spec fn new_index_row(last: Option<u64>, msp: u64) -> Option<u64> {
    if last == Some(msp) {
        None
    } else {
        Some(msp)
    }
}

/// A row of the `ts_msp` index table.
#[derive(Clone, Copy, Debug, PartialEq, Eq, Structural)]
pub struct TsMspRow {
    pub series: i32,
    pub ts_msp: i64,
    pub dtype_mark: i32,
}

/// What one `write_msg` asks the store to do, in order: the optional index
/// row, then the optional batch of rows.
pub struct WritePlan {
    pub ts_msp_row: Option<TsMspRow>,
    pub batch: Option<Vec<Row>>,
}

/// The result of a finished write: rows written and elapsed nanoseconds.
#[derive(Clone, Copy, Debug, PartialEq, Eq, Structural)]
pub struct ChannelWriteRes {
    pub nrows: u32,
    pub dt_ns: u64,
}

/// Writer for one channel: the series, its partition width, the last
/// partition that got an index row, and the acceptor that stages rows.
pub struct ChannelWriterAll {
    series: u32,
    bucket: u64,
    ts_msp_last: Option<u64>,
    acceptor: MsgAcceptor,
    dtype_mark: u32,
}

impl ChannelWriterAll {
    pub closed spec fn spec_series(&self) -> u32 {
        self.series
    }

    pub closed spec fn spec_bucket(&self) -> u64 {
        self.bucket
    }

    pub closed spec fn spec_last(&self) -> Option<u64> {
        self.ts_msp_last
    }

    pub closed spec fn spec_dtype_mark(&self) -> u32 {
        self.dtype_mark
    }

    pub closed spec fn spec_acceptor(&self) -> MsgAcceptor {
        self.acceptor
    }

    /// Staged rows not yet handed out.
    pub open spec fn rows(&self) -> Seq<(i32, i64, i64, i64, Seq<u64>)> {
        self.spec_acceptor().rows()
    }

    pub closed spec fn wf(&self) -> bool {
        &&& self.bucket > 0
        &&& self.acceptor.spec_series() == self.series
        &&& self.bucket == bucket_of(self.acceptor.spec_array())
        &&& self.acceptor.rows().len() < self.acceptor.flush_at()
    }

    /// Selects the acceptor for the combination; fails with `Config` where
    /// the combination is not supported.
    pub fn new(
        series: u32,
        scalar_type: ScalarType,
        shape: Shape,
        byte_order: ByteOrder,
        array_truncate: usize,
    ) -> (r: Result<Self, Error>)
        ensures
            match acceptor_choice(scalar_type, shape, byte_order) {
                None => r == Err::<Self, Error>(Error::Config),
                Some((k, array)) => r matches Ok(w) && {
                    &&& w.wf()
                    &&& w.spec_series() == series
                    &&& w.spec_last() is None
                    &&& w.spec_dtype_mark() == dtype_mark_spec(scalar_type, shape)
                    &&& w.spec_bucket() == bucket_of(array)
                    &&& w.rows().len() == 0
                    &&& w.spec_acceptor().spec_kind() == k
                    &&& w.spec_acceptor().spec_order() == byte_order
                    &&& w.spec_acceptor().spec_array() == array
                    &&& (array ==> w.spec_acceptor().spec_array_truncate() == array_truncate)
                },
            },
    {
        let choice: Option<(ElemKind, bool)> = match shape {
            Shape::Scalar => match byte_order {
                ByteOrder::BE => match scalar_type {
                    ScalarType::U16 => Some((ElemKind::I16, false)),
                    ScalarType::U32 => Some((ElemKind::I32, false)),
                    ScalarType::F32 => Some((ElemKind::F32, false)),
                    ScalarType::F64 => Some((ElemKind::F64, false)),
                    _ => None,
                },
                ByteOrder::LE => None,
            },
            Shape::Wave(_) => match scalar_type {
                ScalarType::U16 => Some((ElemKind::I16, true)),
                ScalarType::I16 => Some((ElemKind::I16, true)),
                ScalarType::F32 => Some((ElemKind::F32, true)),
                ScalarType::F64 => Some((ElemKind::F64, true)),
                _ => None,
            },
            Shape::Image(_, _) => None,
        };
        match choice {
            None => Err(Error::Config),
            Some((kind, array)) => {
                let (acceptor, bucket) = if array {
                    (MsgAcceptor::new_array(kind, byte_order, series, array_truncate), 10 * SEC)
                } else {
                    (MsgAcceptor::new_scalar(kind, byte_order, series), 100 * SEC)
                };
                Ok(ChannelWriterAll {
                    series,
                    bucket,
                    ts_msp_last: None,
                    acceptor,
                    dtype_mark: dtype_mark(scalar_type, shape),
                })
            },
        }
    }

    /// The element type that rows carry.
    pub fn elem_kind(&self) -> (r: ElemKind)
        requires
            self.wf(),
        ensures
            r == self.spec_acceptor().spec_kind(),
    {
        self.acceptor.elem_kind()
    }

    /// Whether rows carry arrays.
    pub fn takes_arrays(&self) -> (r: bool)
        requires
            self.wf(),
        ensures
            r == self.spec_acceptor().spec_array(),
    {
        self.acceptor.takes_arrays()
    }

    pub fn dtype_mark(&self) -> (r: u32)
        ensures
            r == self.spec_dtype_mark(),
    {
        self.dtype_mark
    }

    /// The effect of one `write_msg` from `pre` to `post` with result `r`.
    pub open spec fn write_effect(
        pre: &Self,
        post: &Self,
        ts: u64,
        pulse: u64,
        data: Seq<u8>,
        r: &Result<WritePlan, Error>,
    ) -> bool {
        &&& post.wf()
        &&& post.spec_series() == pre.spec_series()
        &&& post.spec_bucket() == pre.spec_bucket()
        &&& post.spec_dtype_mark() == pre.spec_dtype_mark()
        &&& post.spec_acceptor().spec_kind() == pre.spec_acceptor().spec_kind()
        &&& post.spec_acceptor().spec_order() == pre.spec_acceptor().spec_order()
        &&& post.spec_acceptor().spec_array() == pre.spec_acceptor().spec_array()
        &&& post.spec_acceptor().spec_array_truncate() == pre.spec_acceptor().spec_array_truncate()
        &&& ({
            let series = pre.spec_series();
            let bucket = pre.spec_bucket();
            let sp = split_spec(ts as nat, series as nat, bucket as nat);
            let msp = sp.0 as u64;
            let lsp = sp.1 as u64;
            match pre.spec_acceptor().decoded(data) {
                None => *r == Err::<WritePlan, Error>(Error::Protocol) && post.spec_last()
                    == pre.spec_last() && post.rows() == pre.rows(),
                Some(vals) => *r matches Ok(plan) && {
                    let staged = pre.rows().push(
                        (series as i32, msp as i64, lsp as i64, pulse as i64, vals),
                    );
                    &&& post.spec_last() == Some(msp)
                    &&& plan.ts_msp_row == match new_index_row(pre.spec_last(), msp) {
                        Some(m) => Some(
                            TsMspRow {
                                series: series as i32,
                                ts_msp: m as i64,
                                dtype_mark: pre.spec_dtype_mark() as i32,
                            },
                        ),
                        None => None,
                    }
                    &&& if staged.len() >= pre.spec_acceptor().flush_at() {
                        &&& plan.batch matches Some(b)
                        &&& rows_view(b@) == staged
                        &&& b@.len() <= 171
                        &&& post.rows().len() == 0
                    } else {
                        &&& plan.batch is None
                        &&& post.rows() == staged
                    }
                },
            }
        })
    }

    /// Stages one sample. The index row comes the first time the series
    /// enters a partition; the batch comes when the acceptor is full. A
    /// payload that does not decode leaves the writer as it was.
    pub fn write_msg_impl(&mut self, ts: u64, pulse: u64, data: &[u8]) -> (r: Result<WritePlan, Error>)
        requires
            old(self).wf(),
        ensures
            Self::write_effect(old(self), final(self), ts, pulse, data@, &r),
    {
        let (ts_msp, ts_lsp) = ts_msp_lsp_gen(ts, self.series, self.bucket);
        let res = self.acceptor.accept(ts_msp as i64, ts_lsp as i64, pulse as i64, data);
        if res.is_err() {
            return Err(Error::Protocol);
        }
        let ts_msp_row = if self.ts_msp_last == Some(ts_msp) {
            None
        } else {
            Some(TsMspRow { series: self.series as i32, ts_msp: ts_msp as i64, dtype_mark: self.dtype_mark as i32 })
        };
        self.ts_msp_last = Some(ts_msp);
        let batch = if self.acceptor.should_flush() {
            Some(self.acceptor.flush_batch())
        } else {
            None
        };
        Ok(WritePlan { ts_msp_row, batch })
    }

    /// Same as `write_msg_impl`.
    pub fn write_msg(&mut self, ts: u64, pulse: u64, data: &[u8]) -> (r: Result<WritePlan, Error>)
        requires
            old(self).wf(),
        ensures
            Self::write_effect(old(self), final(self), ts, pulse, data@, &r),
    {
        self.write_msg_impl(ts, pulse, data)
    }
}

/// Which part of a write runs next.
#[derive(Clone, Copy, Debug, PartialEq, Eq, Structural)]
pub enum WriteStep {
    Index,
    Batch,
    Done,
}

/// Progress of the store operations of one `WritePlan`: the index insert
/// first, then the batch; `nn` rows are reported once anything ran.
pub struct ChannelWriteSeq {
    nn: u32,
    index_pending: bool,
    batch_pending: bool,
    ran: bool,
}

impl ChannelWriteSeq {
    pub closed spec fn spec_nn(&self) -> u32 {
        self.nn
    }

    pub closed spec fn spec_index_pending(&self) -> bool {
        self.index_pending
    }

    pub closed spec fn spec_batch_pending(&self) -> bool {
        self.batch_pending
    }

    pub closed spec fn spec_ran(&self) -> bool {
        self.ran
    }

    /// The next step: the index insert while pending, then the batch.
    pub open spec fn step_spec(&self) -> WriteStep {
        if self.spec_index_pending() {
            WriteStep::Index
        } else if self.spec_batch_pending() {
            WriteStep::Batch
        } else {
            WriteStep::Done
        }
    }

    /// The operations of `plan`, none run yet.
    pub fn new(plan: &WritePlan) -> (r: Self)
        requires
            plan.batch matches Some(b) ==> b@.len() <= u32::MAX,
        ensures
            r.spec_index_pending() == plan.ts_msp_row is Some,
            r.spec_batch_pending() == plan.batch is Some,
            !r.spec_ran(),
            r.spec_nn() == match plan.batch {
                Some(b) => b@.len() as u32,
                None => 0u32,
            },
    {
        let nn: u32 = match &plan.batch {
            Some(b) => b.len() as u32,
            None => 0,
        };
        ChannelWriteSeq {
            nn,
            index_pending: plan.ts_msp_row.is_some(),
            batch_pending: plan.batch.is_some(),
            ran: false,
        }
    }

    pub fn next_step(&self) -> (r: WriteStep)
        ensures
            r == self.step_spec(),
    {
        if self.index_pending {
            WriteStep::Index
        } else if self.batch_pending {
            WriteStep::Batch
        } else {
            WriteStep::Done
        }
    }

    /// The current step finished without error.
    pub fn step_done(&mut self)
        requires
            old(self).step_spec() != WriteStep::Done,
        ensures
            final(self).spec_ran(),
            final(self).spec_nn() == old(self).spec_nn(),
            old(self).step_spec() == WriteStep::Index ==> !final(self).spec_index_pending()
                && final(self).spec_batch_pending() == old(self).spec_batch_pending(),
            old(self).step_spec() == WriteStep::Batch ==> !final(self).spec_index_pending()
                && !final(self).spec_batch_pending(),
    {
        if self.index_pending {
            self.index_pending = false;
        } else {
            self.batch_pending = false;
        }
        self.ran = true;
    }

    /// The result once done: `nn` rows and the elapsed time when anything
    /// ran, else zero rows in zero time.
    pub fn result(&self, dt_ns: u64) -> (r: ChannelWriteRes)
        requires
            self.step_spec() == WriteStep::Done,
        ensures
            r == (if self.spec_ran() {
                ChannelWriteRes { nrows: self.spec_nn(), dt_ns }
            } else {
                ChannelWriteRes { nrows: 0, dt_ns: 0 }
            }),
    {
        if self.ran {
            ChannelWriteRes { nrows: self.nn, dt_ns }
        } else {
            ChannelWriteRes { nrows: 0, dt_ns: 0 }
        }
    }
}

/// Later timestamps never fall in an earlier partition.
pub proof fn lemma_msp_monotonic(series: u32, bucket: u64, ts_a: u64, ts_b: u64)
    requires
        bucket > 0,
        ts_a <= ts_b,
    ensures
        msp_of(ts_a, series, bucket) <= msp_of(ts_b, series, bucket),
{
    if ts_a >= TS_SPLIT_MIN {
        let b = bucket as int;
        let off = (series as int) % b;
        let a1 = ts_a - off;
        let a2 = ts_b - off;
        assert(0 <= off <= series) by (nonlinear_arith)
            requires
                off == (series as int) % b,
                b > 0,
        ;
        vstd::arithmetic::div_mod::lemma_div_is_ordered(a1, a2, b);
        vstd::arithmetic::mul::lemma_mul_inequality(a1 / b, a2 / b, b);
        vstd::arithmetic::div_mod::lemma_fundamental_div_mod(a2, b);
        assert(0 <= a2 % b) by {
            vstd::arithmetic::div_mod::lemma_mod_pos_bound(a2, b);
        }
        assert((a2 / b) * b + off <= ts_b) by (nonlinear_arith)
            requires
                a2 == b * (a2 / b) + a2 % b,
                0 <= a2 % b,
                a2 == ts_b - off,
        ;
        vstd::arithmetic::div_mod::lemma_div_pos_is_pos(a1, b);
        assert(0 <= (a1 / b) * b) by (nonlinear_arith)
            requires
                a1 / b >= 0,
                b > 0,
        ;
    }
}

/// The index rows that a writer whose last partition is `last` emits for
/// the timestamps `ts`, in order.
pub open spec fn index_rows(last: Option<u64>, series: u32, bucket: u64, ts: Seq<u64>) -> Seq<u64>
    decreases ts.len(),
{
    if ts.len() == 0 {
        seq![]
    } else {
        let m = msp_of(ts[0], series, bucket);
        let rest = index_rows(Some(m), series, bucket, ts.drop_first());
        match new_index_row(last, m) {
            Some(x) => seq![x] + rest,
            None => rest,
        }
    }
}

pub open spec fn nondecreasing(ts: Seq<u64>) -> bool {
    forall|i: int, j: int| 0 <= i <= j < ts.len() ==> ts[i] <= ts[j]
}

pub open spec fn strictly_increasing(s: Seq<u64>) -> bool {
    forall|i: int, j: int| 0 <= i < j < s.len() ==> s[i] < s[j]
}

proof fn lemma_index_rows_above(l: u64, series: u32, bucket: u64, ts: Seq<u64>)
    requires
        bucket > 0,
        nondecreasing(ts),
        ts.len() > 0 ==> l <= msp_of(ts[0], series, bucket),
    ensures
        strictly_increasing(index_rows(Some(l), series, bucket, ts)),
        forall|k: int|
            0 <= k < index_rows(Some(l), series, bucket, ts).len() ==> l < #[trigger] index_rows(
                Some(l),
                series,
                bucket,
                ts,
            )[k],
    decreases ts.len(),
{
    if ts.len() > 0 {
        let m = msp_of(ts[0], series, bucket);
        let tail = ts.drop_first();
        if tail.len() > 0 {
            lemma_msp_monotonic(series, bucket, ts[0], tail[0]);
        }
        lemma_index_rows_above(m, series, bucket, tail);
    }
}

/// A writer fed non-decreasing timestamps never emits two index rows for
/// the same partition: the partitions it emits strictly increase.
pub proof fn lemma_index_rows_distinct(last: Option<u64>, series: u32, bucket: u64, ts: Seq<u64>)
    requires
        bucket > 0,
        nondecreasing(ts),
    ensures
        strictly_increasing(index_rows(last, series, bucket, ts)),
        forall|i: int, j: int|
            0 <= i < j < index_rows(last, series, bucket, ts).len() ==> index_rows(
                last,
                series,
                bucket,
                ts,
            )[i] != index_rows(last, series, bucket, ts)[j],
{
    if ts.len() > 0 {
        let m = msp_of(ts[0], series, bucket);
        let tail = ts.drop_first();
        if tail.len() > 0 {
            lemma_msp_monotonic(series, bucket, ts[0], tail[0]);
        }
        lemma_index_rows_above(m, series, bucket, tail);
        let rest = index_rows(Some(m), series, bucket, tail);
        if new_index_row(last, m) is Some {
            let all = seq![m] + rest;
            assert forall|i: int, j: int| 0 <= i < j < all.len() implies all[i] < all[j] by {
                if i > 0 {
                    assert(all[i] == rest[i - 1]);
                }
                assert(all[j] == rest[j - 1]);
            }
        }
    }
}

/// The bits of a scalar, written in the payload's byte order, decode to the
/// same bits, for every combination that a scalar writer accepts.
pub proof fn lemma_scalar_round_trip(t: ScalarType, o: ByteOrder, bits: nat)
    requires
        acceptor_choice(t, Shape::Scalar, o) is Some,
        bits < pow256(elem_width(acceptor_choice(t, Shape::Scalar, o)->Some_0.0)),
    ensures
        ({
            let k = acceptor_choice(t, Shape::Scalar, o)->Some_0.0;
            let payload = bytes_in(o, bits, elem_width(k));
            &&& payload.len() == elem_width(k)
            &&& decode_elems(k, o, payload, 1) == seq![bits as u64]
        }),
{
    let k = acceptor_choice(t, Shape::Scalar, o)->Some_0.0;
    let w = elem_width(k);
    let payload = bytes_in(o, bits, w);
    lemma_round_trip(o, bits, w);
    assert(payload.subrange(0, w as int) =~= payload);
    assert(decode_elems(k, o, payload, 1) =~= seq![bits as u64]);
}

} // verus!
