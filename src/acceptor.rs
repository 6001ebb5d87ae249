//! Message acceptors: staging buffers that decode sample payloads into rows
//! for one series until a batch is due.
use vstd::prelude::*;
use crate::bytes::{read_uint, value_in};
use crate::error::Error;
use crate::types::ByteOrder;

verus! {

/// Element type as stored: the bits of each element are kept unchanged.
#[derive(Clone, Copy, Debug, PartialEq, Eq, Structural)]
pub enum ElemKind {
    I16,
    I32,
    F32,
    F64,
}

pub open spec fn elem_width(k: ElemKind) -> nat {
    match k {
        ElemKind::I16 => 2,
        ElemKind::I32 => 4,
        ElemKind::F32 => 4,
        ElemKind::F64 => 8,
    }
}

impl ElemKind {
    /// Bytes per element.
    pub fn width(&self) -> (r: usize)
        ensures
            r == elem_width(*self),
    {
        match self {
            ElemKind::I16 => 2,
            ElemKind::I32 => 4,
            ElemKind::F32 => 4,
            ElemKind::F64 => 8,
        }
    }
}

pub open spec fn min_nat(a: nat, b: nat) -> nat {
    if a <= b {
        a
    } else {
        b
    }
}

/// The bits of element `i` of `data`.
pub open spec fn elem_at(k: ElemKind, o: ByteOrder, data: Seq<u8>, i: int) -> u64 {
    value_in(o, data.subrange(i * elem_width(k), i * elem_width(k) + elem_width(k))) as u64
}

/// The elements of `data`: whole elements only, at most `limit` of them.
pub open spec fn decode_elems(k: ElemKind, o: ByteOrder, data: Seq<u8>, limit: nat) -> Seq<u64> {
    Seq::new(min_nat(data.len() / elem_width(k), limit), |i: int| elem_at(k, o, data, i))
}

/// One staged row: `(series, ts_msp, ts_lsp, pulse, values)`.
pub struct Row {
    pub series: i32,
    pub ts_msp: i64,
    pub ts_lsp: i64,
    pub pulse: i64,
    pub values: Vec<u64>,
}

impl View for Row {
    type V = (i32, i64, i64, i64, Seq<u64>);

    open spec fn view(&self) -> Self::V {
        (self.series, self.ts_msp, self.ts_lsp, self.pulse, self.values@)
    }
}

/// The rows of `v`, each as its view.
pub open spec fn rows_view(v: Seq<Row>) -> Seq<(i32, i64, i64, i64, Seq<u64>)> {
    v.map_values(|r: Row| r@)
}

/// Staging buffer for one series, parameterised by element type, byte order
/// and whether samples are scalars or arrays.
pub struct MsgAcceptor {
    kind: ElemKind,
    order: ByteOrder,
    array: bool,
    series: u32,
    array_truncate: usize,
    values: Vec<Row>,
}

/// Buffered rows at which a scalar acceptor of `series` flushes.
pub open spec fn scalar_flush_at(series: u32) -> nat {
    140 + (series as nat) % 32
}

/// Buffered rows at which an array acceptor of `series` flushes.
pub open spec fn array_flush_at(series: u32) -> nat {
    40 + (series as nat) % 8
}

impl MsgAcceptor {
    pub closed spec fn rows(&self) -> Seq<(i32, i64, i64, i64, Seq<u64>)> {
        rows_view(self.values@)
    }

    pub closed spec fn spec_kind(&self) -> ElemKind {
        self.kind
    }

    pub closed spec fn spec_order(&self) -> ByteOrder {
        self.order
    }

    pub closed spec fn spec_array(&self) -> bool {
        self.array
    }

    pub closed spec fn spec_series(&self) -> u32 {
        self.series
    }

    pub closed spec fn spec_array_truncate(&self) -> usize {
        self.array_truncate
    }

    /// Rows at which this acceptor flushes.
    pub open spec fn flush_at(&self) -> nat {
        if self.spec_array() {
            array_flush_at(self.spec_series())
        } else {
            scalar_flush_at(self.spec_series())
        }
    }

    /// The values that a payload `data` yields, or `None` where a scalar
    /// payload is shorter than one element.
    pub open spec fn decoded(&self, data: Seq<u8>) -> Option<Seq<u64>> {
        if self.spec_array() {
            Some(decode_elems(self.spec_kind(), self.spec_order(), data, self.spec_array_truncate() as nat))
        } else if data.len() < elem_width(self.spec_kind()) {
            None
        } else {
            Some(decode_elems(self.spec_kind(), self.spec_order(), data, 1))
        }
    }

    /// An acceptor for scalar samples.
    pub fn new_scalar(kind: ElemKind, order: ByteOrder, series: u32) -> (r: Self)
        ensures
            r.rows().len() == 0,
            r.spec_kind() == kind,
            r.spec_order() == order,
            !r.spec_array(),
            r.spec_series() == series,
    {
        MsgAcceptor { kind, order, array: false, series, array_truncate: 1, values: Vec::new() }
    }

    /// An acceptor for array samples that keeps at most `array_truncate`
    /// elements per sample.
    pub fn new_array(kind: ElemKind, order: ByteOrder, series: u32, array_truncate: usize) -> (r: Self)
        ensures
            r.rows().len() == 0,
            r.spec_kind() == kind,
            r.spec_order() == order,
            r.spec_array(),
            r.spec_series() == series,
            r.spec_array_truncate() == array_truncate,
    {
        MsgAcceptor { kind, order, array: true, series, array_truncate, values: Vec::new() }
    }

    pub fn elem_kind(&self) -> (r: ElemKind)
        ensures
            r == self.spec_kind(),
    {
        self.kind
    }

    pub fn takes_arrays(&self) -> (r: bool)
        ensures
            r == self.spec_array(),
    {
        self.array
    }

    pub fn len(&self) -> (r: usize)
        ensures
            r == self.rows().len(),
    {
        self.values.len()
    }

    /// Decodes the payload and stages one row. A scalar payload shorter than
    /// one element is a protocol error and stages nothing.
    pub fn accept(&mut self, ts_msp: i64, ts_lsp: i64, pulse: i64, data: &[u8]) -> (r: Result<(), Error>)
        ensures
            final(self).spec_kind() == old(self).spec_kind(),
            final(self).spec_order() == old(self).spec_order(),
            final(self).spec_array() == old(self).spec_array(),
            final(self).spec_series() == old(self).spec_series(),
            final(self).spec_array_truncate() == old(self).spec_array_truncate(),
            match old(self).decoded(data@) {
                Some(vals) => r is Ok && final(self).rows() == old(self).rows().push(
                    (old(self).spec_series() as i32, ts_msp, ts_lsp, pulse, vals),
                ),
                None => r == Err::<(), Error>(Error::Protocol) && final(self).rows() == old(self).rows(),
            },
    {
        let w = self.kind.width();
        let n = data.len();
        let limit = if self.array {
            self.array_truncate
        } else {
            if n < w {
                return Err(Error::Protocol);
            }
            1
        };
        let whole = n / w;
        let count = if whole <= limit {
            whole
        } else {
            limit
        };
        let mut vals: Vec<u64> = Vec::with_capacity(count);
        let mut i: usize = 0;
        while i < count
            invariant
                i <= count,
                count <= n / w,
                w == elem_width(self.kind),
                n == data@.len(),
                vals@.len() == i,
                forall|j: int| 0 <= j < i ==> vals@[j] == elem_at(self.kind, self.order, data@, j),
            decreases count - i,
        {
            assert((i + 1) * w <= n) by (nonlinear_arith)
                requires
                    i < count,
                    count <= n / w,
                    w > 0,
            ;
            let x = read_uint(data, i * w, w, self.order);
            assert(i * w + w == (i + 1) * w) by (nonlinear_arith);
            vals.push(x);
            i = i + 1;
        }
        proof {
            let expect = if self.array {
                decode_elems(self.kind, self.order, data@, self.array_truncate as nat)
            } else {
                decode_elems(self.kind, self.order, data@, 1)
            };
            assert(vals@ =~= expect);
        }
        let row = Row { series: self.series as i32, ts_msp, ts_lsp, pulse, values: vals };
        let ghost before = self.values@;
        self.values.push(row);
        proof {
            assert(rows_view(self.values@) =~= rows_view(before).push(row@));
        }
        Ok(())
    }

    /// True once the buffer holds enough rows for a batch: `140 + series mod 32`
    /// for scalars, `40 + series mod 8` for arrays.
    pub fn should_flush(&self) -> (r: bool)
        ensures
            r == (self.rows().len() >= self.flush_at()),
    {
        if self.array {
            self.values.len() >= 40 + (self.series % 8) as usize
        } else {
            self.values.len() >= 140 + (self.series % 32) as usize
        }
    }

    /// Drains the buffer: the rows come out in the order they were staged,
    /// one statement each, and the buffer is left empty.
    pub fn flush_batch(&mut self) -> (r: Vec<Row>)
        ensures
            rows_view(r@) == old(self).rows(),
            r@.len() == old(self).rows().len(),
            final(self).rows().len() == 0,
            final(self).spec_kind() == old(self).spec_kind(),
            final(self).spec_order() == old(self).spec_order(),
            final(self).spec_array() == old(self).spec_array(),
            final(self).spec_series() == old(self).spec_series(),
            final(self).spec_array_truncate() == old(self).spec_array_truncate(),
    {
        let mut vt: Vec<Row> = Vec::new();
        core::mem::swap(&mut vt, &mut self.values);
        proof {
            assert(rows_view(self.values@) =~= Seq::<(i32, i64, i64, i64, Seq<u64>)>::empty());
        }
        vt
    }
}

} // verus!
