use urbilateria::models::deepseek_v41::engram::{
    check_row, plan_row_reads, EngramError, EngramTable, RowRead,
};
use urbilateria::storage::{DType, TensorIndex, TensorInfo};

fn tensor(dtype: DType, shape: &[u64], offset: u64) -> TensorInfo {
    TensorInfo {
        dtype,
        shape: shape.to_vec(),
        data_len: shape.iter().product(),
        shard: 0,
        data_offset: offset,
    }
}

/// Six rows of sixty-four values, each with two scales.
fn table_index(scales_first: bool) -> TensorIndex {
    let mut index = TensorIndex::new(1, 1000, 396);
    let (weight, scale) = if scales_first { (12, 0) } else { (0, 384) };
    assert!(index.declare(
        "layers.1.engram.embed.weight".to_string(),
        tensor(DType::F8E4M3, &[6, 64], weight),
    ));
    assert!(index.declare(
        "layers.1.engram.embed.scale".to_string(),
        tensor(DType::F8E8M0, &[6, 2], scale),
    ));
    index
}

fn message(error: EngramError) -> String {
    error.message().unwrap()
}

fn spans(reads: &[RowRead]) -> Vec<(u64, usize)> {
    reads.iter().map(|read| (read.offset, read.length)).collect()
}

/// What a list of reads gives of a table whose bytes are made by `byte`.
fn fetch(reads: &[RowRead], byte: impl Fn(u64) -> u8) -> Vec<u8> {
    let mut bytes = Vec::new();
    for read in reads {
        for offset in read.offset..read.offset + read.length as u64 {
            bytes.push(byte(offset));
        }
    }
    bytes
}

#[test]
fn batched_rows_preserve_native_values_caller_order_and_duplicates() {
    for scales_first in [false, true] {
        let index = table_index(scales_first);
        let table = EngramTable::open(&index, 1, 6, 64).unwrap();
        let ids = vec![5, 1, 2, 1, 0];
        let plan = table.plan_rows(&ids).unwrap();
        assert_eq!(plan.rows, vec![0, 1, 2, 5]);
        assert_eq!(plan.values_first, !scales_first);
        // Every byte of row r is r, of the values and of the scales.
        let values = fetch(&plan.value_reads, |offset| (offset / 64) as u8);
        let scales = fetch(&plan.scale_reads, |offset| (offset / 2) as u8);
        assert_eq!(values.len(), plan.rows.len() * 64);
        assert_eq!(scales.len(), plan.rows.len() * 2);
        for (&row, &place) in ids.iter().zip(&plan.places) {
            assert_eq!(plan.rows[place], row);
            assert!(values[place * 64..place * 64 + 64]
                .iter()
                .all(|&byte| usize::from(byte) == row));
            assert!(scales[place * 2..place * 2 + 2]
                .iter()
                .all(|&byte| usize::from(byte) == row));
        }
        let single = table.plan_rows(&vec![5]).unwrap();
        assert_eq!(spans(&single.value_reads), [(320, 64)]);
        assert!(table.plan_rows(&Vec::new()).unwrap().rows.is_empty());
        assert!(message(table.plan_rows(&vec![0, 6]).unwrap_err()).contains("row 6"));
        assert!(
            message(check_row(3, &vec![0x7f; 64], &vec![None, None]).unwrap_err())
                .contains("E4M3 NaN")
        );
        assert!(check_row(3, &vec![0x38; 64], &vec![None, None]).is_ok());
    }
}

#[test]
fn contiguous_reads_are_capped_and_sparse_gaps_are_never_read() {
    let rows = (0..300).chain([10_000_000, 10_000_001]).collect::<Vec<_>>();
    let reads = plan_row_reads(&rows, 256).unwrap();
    assert_eq!(
        spans(&reads),
        [(0, 65_536), (65_536, 11_264), (2_560_000_000, 512)]
    );
    let bytes = fetch(&reads, |offset| (offset / 256) as u8);
    assert_eq!(bytes.len(), rows.len() * 256);
    assert_eq!(
        reads.iter().map(|read| read.length).sum::<usize>(),
        bytes.len()
    );
    for (&row, bytes) in rows.iter().zip(bytes.chunks_exact(256)) {
        assert!(bytes.iter().all(|&byte| byte == row as u8));
    }
}

#[test]
fn row_offset_overflow_is_rejected_before_reading() {
    let error = plan_row_reads(&vec![usize::MAX], 256).unwrap_err();
    assert!(message(error).contains("offset overflows"));
}

#[test]
fn tables_of_another_shape_are_refused() {
    let index = table_index(false);
    assert!(EngramTable::open(&index, 1, 7, 64).is_err());
    assert!(EngramTable::open(&index, 2, 6, 64).is_err());
    let table = EngramTable::open(&index, 1, 6, 64).unwrap();
    assert_eq!(table.row_storage_bytes(), 66);
}

#[test]
fn a_scale_that_cannot_be_decoded_names_its_row() {
    let error = check_row(
        4,
        &vec![0x38; 64],
        &vec![None, Some("not a scale".to_string())],
    )
    .unwrap_err();
    assert!(message(error).contains("row 4"));
}
