use netfetch::acceptor::{ElemKind, MsgAcceptor};
use netfetch::channelwriter::{ChannelWriteSeq, ChannelWriterAll, WritePlan, WriteStep};
use netfetch::error::Error;
use netfetch::timesplit::{ts_msp_lsp_1, ts_msp_lsp_2, ts_msp_lsp_gen, SEC};
use netfetch::types::{dtype_mark, ByteOrder, ScalarType, Shape};

#[test]
fn split_example_from_partition_rules() {
    let r = ts_msp_lsp_gen(123 * SEC, 5, 100 * SEC);
    assert_eq!(r, (100 * SEC + 5, 23 * SEC - 5));
}

#[test]
fn split_below_threshold_is_zero() {
    assert_eq!(ts_msp_lsp_gen(0, 5, 100 * SEC), (0, 0));
    assert_eq!(ts_msp_lsp_gen(2 * SEC, 7, 100 * SEC), (0, 0));
    assert_eq!(ts_msp_lsp_gen(u32::MAX as u64, 9, 10 * SEC), (0, 0));
}

#[test]
fn split_at_threshold_uses_formula() {
    let ts = 1u64 << 32;
    let (msp, lsp) = ts_msp_lsp_gen(ts, 3, 1000);
    assert_eq!(msp, ((ts - 3) / 1000) * 1000 + 3);
    assert_eq!(lsp, (ts - 3) % 1000);
    assert!(lsp < 1000);
    assert_eq!(msp + lsp, ts);
}

#[test]
fn split_offset_is_series_mod_bucket() {
    let ts = 10_000_000_000u64;
    let (msp, lsp) = ts_msp_lsp_gen(ts, 1234, 1000);
    assert_eq!(msp, 10_000_000_234 - 1000);
    assert_eq!(lsp, 766);
}

#[test]
fn split_scalar_and_wave_buckets() {
    assert_eq!(ts_msp_lsp_1(123 * SEC, 5), (100 * SEC + 5, 23 * SEC - 5));
    assert_eq!(ts_msp_lsp_2(123 * SEC, 5), (120 * SEC + 5, 3 * SEC - 5));
}

#[test]
fn dtype_marks() {
    assert_eq!(dtype_mark(ScalarType::U16, Shape::Scalar), 5);
    assert_eq!(dtype_mark(ScalarType::F64, Shape::Wave(8)), 1012);
    assert_eq!(dtype_mark(ScalarType::F32, Shape::Image(2, 3)), 2011);
    assert_eq!(dtype_mark(ScalarType::BOOL, Shape::Scalar), 0);
}

#[test]
fn unsupported_combinations_fail() {
    assert!(matches!(
        ChannelWriterAll::new(1, ScalarType::F32, Shape::Scalar, ByteOrder::LE, 0),
        Err(Error::Config)
    ));
    assert!(matches!(
        ChannelWriterAll::new(1, ScalarType::U16, Shape::Image(4, 4), ByteOrder::BE, 0),
        Err(Error::Config)
    ));
    assert!(matches!(
        ChannelWriterAll::new(1, ScalarType::STRING, Shape::Wave(3), ByteOrder::BE, 0),
        Err(Error::Config)
    ));
    assert!(matches!(
        ChannelWriterAll::new(1, ScalarType::I16, Shape::Scalar, ByteOrder::BE, 0),
        Err(Error::Config)
    ));
}

fn write(w: &mut ChannelWriterAll, ts: u64, pulse: u64, data: &[u8]) -> WritePlan {
    match w.write_msg(ts, pulse, data) {
        Ok(p) => p,
        Err(e) => panic!("write failed: {}", e.describe()),
    }
}

#[test]
fn scalar_f32_be_writer_emits_one_index_row_and_one_batch() {
    let mut w = ChannelWriterAll::new(7, ScalarType::F32, Shape::Scalar, ByteOrder::BE, 0).unwrap();
    let bytes = [0x3f, 0x80, 0x00, 0x00];
    let mut index_rows = Vec::new();
    let mut batches = Vec::new();
    // Series 7 flushes at 140 + 7 rows.
    for i in 0..147u64 {
        let plan = write(&mut w, 2_000_000_000, 1 + i, &bytes);
        if i < 146 {
            assert!(plan.batch.is_none());
        }
        if let Some(r) = plan.ts_msp_row {
            index_rows.push(r);
        }
        if let Some(b) = plan.batch {
            batches.push(b);
        }
    }
    assert_eq!(index_rows.len(), 1);
    assert_eq!(index_rows[0].series, 7);
    assert_eq!(index_rows[0].ts_msp, 0);
    assert_eq!(index_rows[0].dtype_mark, 11);
    assert_eq!(batches.len(), 1);
    assert_eq!(batches[0].len(), 147);
    let row = &batches[0][0];
    assert_eq!(row.series, 7);
    assert_eq!(row.pulse, 1);
    assert_eq!(row.values.len(), 1);
    assert_eq!(f32::from_bits(row.values[0] as u32), 1.0f32);
}

#[test]
fn index_row_only_on_partition_change() {
    let mut w = ChannelWriterAll::new(5, ScalarType::U16, Shape::Scalar, ByteOrder::BE, 0).unwrap();
    let a = write(&mut w, 123 * SEC, 1, &[0, 1]);
    let b = write(&mut w, 150 * SEC, 2, &[0, 2]);
    let c = write(&mut w, 200 * SEC + 5, 3, &[0, 3]);
    let d = write(&mut w, 250 * SEC, 4, &[0, 4]);
    assert_eq!(a.ts_msp_row.map(|r| r.ts_msp), Some((100 * SEC + 5) as i64));
    assert!(b.ts_msp_row.is_none());
    assert_eq!(c.ts_msp_row.map(|r| r.ts_msp), Some((200 * SEC + 5) as i64));
    assert!(d.ts_msp_row.is_none());
}

#[test]
fn short_scalar_payload_is_protocol_error() {
    let mut w = ChannelWriterAll::new(5, ScalarType::F64, Shape::Scalar, ByteOrder::BE, 0).unwrap();
    assert!(matches!(w.write_msg(123 * SEC, 1, &[1, 2, 3]), Err(Error::Protocol)));
    // The failed write leaves the writer as it was: the next sample still
    // gets the index row.
    let p = write(&mut w, 123 * SEC, 1, &[0; 8]);
    assert!(p.ts_msp_row.is_some());
}

#[test]
fn array_f64_le_truncates_to_three() {
    let vals = [1.5f64, -2.0, 3.25, 4.0, 5.0];
    let mut payload = Vec::new();
    for v in vals.iter() {
        payload.extend_from_slice(&v.to_le_bytes());
    }
    assert_eq!(payload.len(), 40);
    let mut w = ChannelWriterAll::new(8, ScalarType::F64, Shape::Wave(5), ByteOrder::LE, 3).unwrap();
    // Series 8 flushes at 40 + 0 rows.
    let mut batch = None;
    for i in 0..40u64 {
        let plan = write(&mut w, 20 * SEC, i, &payload);
        if plan.batch.is_some() {
            batch = plan.batch;
        }
    }
    let batch = batch.expect("a batch after 40 rows");
    assert_eq!(batch.len(), 40);
    for row in batch.iter() {
        assert_eq!(row.values.len(), 3);
        assert_eq!(f64::from_bits(row.values[0]), 1.5);
        assert_eq!(f64::from_bits(row.values[1]), -2.0);
        assert_eq!(f64::from_bits(row.values[2]), 3.25);
    }
}

#[test]
fn array_decode_counts_whole_elements() {
    let mut a = MsgAcceptor::new_array(ElemKind::F32, ByteOrder::BE, 1, 100);
    a.accept(0, 0, 0, &[0u8; 10]).unwrap();
    a.accept(0, 0, 0, &[]).unwrap();
    let mut b = MsgAcceptor::new_array(ElemKind::I16, ByteOrder::LE, 1, 1);
    b.accept(0, 0, 0, &[1, 2, 3, 4, 5]).unwrap();
    let ra = a.flush_batch();
    let rb = b.flush_batch();
    assert_eq!(ra[0].values.len(), 2);
    assert_eq!(ra[1].values.len(), 0);
    assert_eq!(rb[0].values, vec![0x0201]);
}

#[test]
fn scalar_round_trip_keeps_bits() {
    let cases: [(ScalarType, u64); 4] = [
        (ScalarType::U16, 0xbeef),
        (ScalarType::U32, 0xdead_beef),
        (ScalarType::F32, (-1.25f32).to_bits() as u64),
        (ScalarType::F64, 6.02e23f64.to_bits()),
    ];
    for (t, bits) in cases.iter() {
        let width = match t {
            ScalarType::U16 => 2,
            ScalarType::U32 | ScalarType::F32 => 4,
            _ => 8,
        };
        let payload = bits.to_be_bytes()[8 - width..].to_vec();
        let mut w = ChannelWriterAll::new(31, *t, Shape::Scalar, ByteOrder::BE, 0).unwrap();
        let mut rows = Vec::new();
        for _ in 0..(140 + 31) {
            let plan = write(&mut w, 500 * SEC, 0, &payload);
            if let Some(b) = plan.batch {
                rows = b;
            }
        }
        assert_eq!(rows.len(), 171);
        assert_eq!(rows[0].values, vec![*bits]);
    }
}

#[test]
fn big_and_little_endian_read_differently() {
    let mut le = MsgAcceptor::new_array(ElemKind::I32, ByteOrder::LE, 0, 4);
    let mut be = MsgAcceptor::new_array(ElemKind::I32, ByteOrder::BE, 0, 4);
    le.accept(1, 2, 3, &[1, 2, 3, 4]).unwrap();
    be.accept(1, 2, 3, &[1, 2, 3, 4]).unwrap();
    assert_eq!(le.flush_batch()[0].values, vec![0x0403_0201]);
    assert_eq!(be.flush_batch()[0].values, vec![0x0102_0304]);
}

#[test]
fn flush_batch_drains_everything() {
    let mut a = MsgAcceptor::new_scalar(ElemKind::I16, ByteOrder::BE, 3);
    for i in 0..5i64 {
        a.accept(10, i, 100 + i, &[0, i as u8]).unwrap();
    }
    assert_eq!(a.len(), 5);
    assert!(!a.should_flush());
    let rows = a.flush_batch();
    assert_eq!(rows.len(), 5);
    assert_eq!(a.len(), 0);
    for (i, r) in rows.iter().enumerate() {
        assert_eq!(r.ts_lsp, i as i64);
        assert_eq!(r.pulse, 100 + i as i64);
        assert_eq!(r.values, vec![i as u64]);
    }
}

#[test]
fn flush_thresholds_follow_series() {
    let mut s = MsgAcceptor::new_scalar(ElemKind::I16, ByteOrder::BE, 33);
    for _ in 0..140 {
        s.accept(0, 0, 0, &[0, 0]).unwrap();
    }
    assert!(!s.should_flush());
    s.accept(0, 0, 0, &[0, 0]).unwrap();
    assert!(s.should_flush());
    let mut a = MsgAcceptor::new_array(ElemKind::I16, ByteOrder::BE, 15, 1);
    for _ in 0..46 {
        a.accept(0, 0, 0, &[0, 0]).unwrap();
    }
    assert!(!a.should_flush());
    a.accept(0, 0, 0, &[0, 0]).unwrap();
    assert!(a.should_flush());
}

#[test]
fn write_sequence_runs_index_then_batch() {
    let mut w = ChannelWriterAll::new(0, ScalarType::U32, Shape::Scalar, ByteOrder::BE, 0).unwrap();
    let mut last = None;
    for _ in 0..140 {
        last = Some(write(&mut w, 300 * SEC, 0, &[0, 0, 0, 1]));
    }
    let plan = last.unwrap();
    assert!(plan.ts_msp_row.is_none());
    assert!(plan.batch.is_some());
    let mut seq = ChannelWriteSeq::new(&plan);
    assert_eq!(seq.next_step(), WriteStep::Batch);
    seq.step_done();
    assert_eq!(seq.next_step(), WriteStep::Done);
    let res = seq.result(1234);
    assert_eq!(res.nrows, 140);
    assert_eq!(res.dt_ns, 1234);

    let plan = write(&mut w, 400 * SEC, 0, &[0, 0, 0, 2]);
    let mut seq = ChannelWriteSeq::new(&plan);
    assert_eq!(seq.next_step(), WriteStep::Index);
    seq.step_done();
    assert_eq!(seq.next_step(), WriteStep::Done);
    let res = seq.result(99);
    assert_eq!(res.nrows, 0);
    assert_eq!(res.dt_ns, 99);
}

#[test]
fn write_sequence_with_nothing_to_do() {
    let plan = WritePlan { ts_msp_row: None, batch: None };
    let seq = ChannelWriteSeq::new(&plan);
    assert_eq!(seq.next_step(), WriteStep::Done);
    let res = seq.result(5000);
    assert_eq!(res.nrows, 0);
    assert_eq!(res.dt_ns, 0);
}
