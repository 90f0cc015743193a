use music_mesa_tables::record::{read_fort_record, ByteCursor, RecordError};

#[test]
fn read_3_u32() {
    let raw_record = [
        12_u8, 0, 0, 0, 0x12, 0x34, 0x56, 0x78, 0x9a, 0xbc, 0xde, 0xf0, 42, 0, 0, 0, 12, 0, 0, 0,
    ];
    let mut buf = [0_u32; 3];
    let mut reader = ByteCursor::new(raw_record.as_slice());
    read_fort_record(&mut reader, &mut buf).expect("record well formed");
    assert_eq!(buf, [0x78563412, 0xf0debc9a, 42]);
}

#[test]
fn read_2_f64() {
    let mut raw_record = [
        16_u8, 0, 0, 0, 0, 0, 0, 0, 0, 0, 0xf0, 0x3f, 0, 0, 0, 0, 0, 0, 0, 0, 16, 0, 0, 0,
    ];
    for (i, b) in std::f64::consts::PI.to_le_bytes().into_iter().enumerate() {
        raw_record[12 + i] = b;
    }
    let mut bits = [0_u64; 2];
    let mut reader = ByteCursor::new(raw_record.as_slice());
    read_fort_record(&mut reader, &mut bits).expect("record well formed");
    let buf = bits.map(f64::from_bits);
    assert_eq!(buf, [1.0, std::f64::consts::PI]);
}

#[test]
fn cursor_moves_past_record() {
    let raw_record = [4_u8, 0, 0, 0, 7, 0, 0, 0, 4, 0, 0, 0, 99];
    let mut buf = [0_u32; 1];
    let mut reader = ByteCursor::new(raw_record.as_slice());
    assert_eq!(reader.remaining(), 13);
    read_fort_record(&mut reader, &mut buf).expect("record well formed");
    assert_eq!(buf, [7]);
    assert_eq!(reader.remaining(), 1);
}

#[test]
fn empty_record() {
    let raw_record = [0_u8, 0, 0, 0, 0, 0, 0, 0];
    let mut buf: [u64; 0] = [];
    let mut reader = ByteCursor::new(raw_record.as_slice());
    assert_eq!(read_fort_record(&mut reader, &mut buf), Ok(()));
    assert_eq!(reader.remaining(), 0);
}

#[test]
fn leading_size_mismatch() {
    let raw_record = [8_u8, 0, 0, 0, 1, 0, 0, 0, 2, 0, 0, 0, 8, 0, 0, 0];
    let mut buf = [0_u32; 3];
    let mut reader = ByteCursor::new(raw_record.as_slice());
    assert_eq!(
        read_fort_record(&mut reader, &mut buf),
        Err(RecordError::SizeMismatch { expected: 12, found: 8 })
    );
}

#[test]
fn trailing_size_mismatch() {
    let raw_record = [4_u8, 0, 0, 0, 1, 0, 0, 0, 5, 0, 0, 0];
    let mut buf = [0_u32; 1];
    let mut reader = ByteCursor::new(raw_record.as_slice());
    assert_eq!(
        read_fort_record(&mut reader, &mut buf),
        Err(RecordError::TrailerMismatch { leading: 4, trailing: 5 })
    );
}

#[test]
fn truncated_record() {
    let mut buf = [0_u32; 2];
    let short_payload = [8_u8, 0, 0, 0, 1, 0, 0, 0, 2, 0];
    let mut reader = ByteCursor::new(short_payload.as_slice());
    assert_eq!(read_fort_record(&mut reader, &mut buf), Err(RecordError::UnexpectedEof));
    let no_trailer = [8_u8, 0, 0, 0, 1, 0, 0, 0, 2, 0, 0, 0, 8, 0];
    let mut reader = ByteCursor::new(no_trailer.as_slice());
    assert_eq!(read_fort_record(&mut reader, &mut buf), Err(RecordError::UnexpectedEof));
    let no_header = [8_u8, 0];
    let mut reader = ByteCursor::new(no_header.as_slice());
    assert_eq!(read_fort_record(&mut reader, &mut buf), Err(RecordError::UnexpectedEof));
}
