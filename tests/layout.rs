use music_mesa_tables::layout::{read_block, read_values, RawOpacityContent, RawTableContent};
use music_mesa_tables::record::{ByteCursor, RecordError};

fn record_u32(vals: &[u32]) -> Vec<u8> {
    let size = (vals.len() * 4) as u32;
    let mut out = size.to_le_bytes().to_vec();
    for v in vals {
        out.extend_from_slice(&v.to_le_bytes());
    }
    out.extend_from_slice(&size.to_le_bytes());
    out
}

fn record_f64(vals: &[f64]) -> Vec<u8> {
    let size = (vals.len() * 8) as u32;
    let mut out = size.to_le_bytes().to_vec();
    for v in vals {
        out.extend_from_slice(&v.to_le_bytes());
    }
    out.extend_from_slice(&size.to_le_bytes());
    out
}

fn as_f64(bits: &[u64]) -> Vec<f64> {
    bits.iter().map(|b| f64::from_bits(*b)).collect()
}

/// Energy axis of 2 points, volume axis of 3 points, 2 variables; the file
/// runs over volume in the outer loop.
fn eos_bytes() -> Vec<u8> {
    let mut data = record_u32(&[2, 3, 2]);
    data.extend(record_f64(&[0.0, 7.0, 14.0]));
    data.extend(record_f64(&[10.5, 17.5]));
    for iv in 0..3 {
        for ie in 0..2 {
            let base = (100 * iv + 10 * ie) as f64;
            data.extend(record_f64(&[base, base + 1.0]));
        }
    }
    data
}

#[test]
fn eos_table_axes_and_transposition() {
    let data = eos_bytes();
    let mut reader = ByteCursor::new(&data);
    let content = RawTableContent::read_from(&mut reader).expect("table well formed");
    assert_eq!(reader.remaining(), 0);
    assert_eq!(content.n_vars, 2);
    assert_eq!(as_f64(&content.log_volume), vec![0.0, 7.0, 14.0]);
    assert_eq!(as_f64(&content.log_energy), vec![10.5, 17.5]);
    assert_eq!(content.values.len(), 2);
    for ie in 0..2 {
        assert_eq!(content.values[ie].len(), 3);
        for iv in 0..3 {
            let base = (100 * iv + 10 * ie) as f64;
            assert_eq!(as_f64(&content.values[ie][iv]), vec![base, base + 1.0]);
        }
    }
}

#[test]
fn eos_table_truncated() {
    let mut data = eos_bytes();
    data.truncate(data.len() - 3);
    let mut reader = ByteCursor::new(&data);
    assert_eq!(
        RawTableContent::read_from(&mut reader).err(),
        Some(RecordError::UnexpectedEof)
    );
}

#[test]
fn eos_table_bad_axis_record() {
    let mut data = record_u32(&[2, 3, 2]);
    data.extend(record_f64(&[0.0, 7.0]));
    let mut reader = ByteCursor::new(&data);
    assert_eq!(
        RawTableContent::read_from(&mut reader).err(),
        Some(RecordError::SizeMismatch { expected: 24, found: 16 })
    );
}

/// 2 metallicities, 2 hydrogen fractions, 2 temperatures, 3 ratios; the
/// header lists the ratio count before the temperature count.
fn opacity_bytes() -> Vec<u8> {
    let mut data = record_u32(&[2, 2, 3, 2]);
    data.extend(record_f64(&[0.0, 0.02]));
    data.extend(record_f64(&[0.0, 0.7]));
    data.extend(record_f64(&[3.75, 4.0]));
    data.extend(record_f64(&[-8.0, -7.5, -7.0]));
    for iz in 0..2 {
        for ix in 0..2 {
            for it in 0..2 {
                let base = (1000 * iz + 100 * ix + 10 * it) as f64;
                data.extend(record_f64(&[base, base + 1.0, base + 2.0]));
            }
        }
    }
    data
}

#[test]
fn opacity_table_axes_and_values() {
    let data = opacity_bytes();
    let mut reader = ByteCursor::new(&data);
    let content = RawOpacityContent::read_from(&mut reader).expect("table well formed");
    assert_eq!(reader.remaining(), 0);
    assert_eq!(as_f64(&content.metallicities), vec![0.0, 0.02]);
    assert_eq!(as_f64(&content.h_fracs), vec![0.0, 0.7]);
    assert_eq!(as_f64(&content.log_temperature), vec![3.75, 4.0]);
    assert_eq!(as_f64(&content.log_r), vec![-8.0, -7.5, -7.0]);
    for iz in 0..2 {
        for ix in 0..2 {
            for it in 0..2 {
                let base = (1000 * iz + 100 * ix + 10 * it) as f64;
                assert_eq!(
                    as_f64(&content.values[iz][ix][it]),
                    vec![base, base + 1.0, base + 2.0]
                );
            }
        }
    }
}

#[test]
fn opacity_table_bad_trailer() {
    let mut data = opacity_bytes();
    let n = data.len();
    data[n - 4] = 0;
    let mut reader = ByteCursor::new(&data);
    assert_eq!(
        RawOpacityContent::read_from(&mut reader).err(),
        Some(RecordError::TrailerMismatch { leading: 24, trailing: 0 })
    );
}

#[test]
fn values_and_blocks() {
    let mut data = record_f64(&[1.5]);
    data.extend(record_f64(&[1.0, 2.0]));
    data.extend(record_f64(&[3.0, 4.0]));
    data.extend(record_f64(&[5.0, 6.0]));
    data.extend(record_f64(&[7.0, 8.0]));
    let mut reader = ByteCursor::new(&data);
    let single = read_values(&mut reader, 1).expect("record well formed");
    assert_eq!(as_f64(&single), vec![1.5]);
    let block = read_block(&mut reader, 2, 2, 2).expect("records well formed");
    assert_eq!(as_f64(&block[0][0]), vec![1.0, 2.0]);
    assert_eq!(as_f64(&block[0][1]), vec![3.0, 4.0]);
    assert_eq!(as_f64(&block[1][0]), vec![5.0, 6.0]);
    assert_eq!(as_f64(&block[1][1]), vec![7.0, 8.0]);
    assert_eq!(reader.remaining(), 0);
}
