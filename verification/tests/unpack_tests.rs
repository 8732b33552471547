use pngedit::unpack;

#[test]
fn unpack_test_2() {
    let v: Vec<u8> = vec![0b1111_1111; 8];
    let x = unpack(&v, 2, 8 * 4);
    assert_eq!(x, [0b0000_0011; 8 * 4]);
}

#[test]
fn unpack_test_4() {
    let v: Vec<u8> = vec![0b1111_1111; 8];
    let x = unpack(&v, 4, 8 * 2);
    assert_eq!(x, [0b0000_1111; 8 * 2]);
}

#[test]
fn unpack_test_4_2() {
    let v: Vec<u8> = vec![0b1011_1011; 8];
    let x = unpack(&v, 4, 8 * 2);
    assert_eq!(x, [0b0000_1011; 8 * 2]);
}

#[test]
fn unpack_test_4_width() {
    let v: Vec<u8> = vec![0x01, 0x2a, 0x34, 0x5b, 0x67, 0x8c];
    let x = unpack(&v, 4, 3);
    let res = [0, 1, 2, 3, 4, 5, 6, 7, 8];
    assert_eq!(x, res);
}

#[test]
fn unpack_depth_1() {
    // Two rows of five samples: three padding bits at each row's end drop.
    let v: Vec<u8> = vec![0b1010_1111, 0b0101_0000];
    let x = unpack(&v, 1, 5);
    assert_eq!(x, [1, 0, 1, 0, 1, 0, 1, 0, 1, 0]);
}

#[test]
fn unpack_depth_8_copies() {
    let v: Vec<u8> = vec![7, 0, 255, 42];
    let x = unpack(&v, 8, 2);
    assert_eq!(x, [7, 0, 255, 42]);
}

#[test]
fn unpack_empty_input() {
    let v: Vec<u8> = Vec::new();
    let x = unpack(&v, 2, 13);
    assert_eq!(x.len(), 0);
}

#[test]
fn unpack_sample_count() {
    // 3 bytes per row at depth 4 and width 5; two rows of input give
    // exactly line_width * rows samples.
    let v: Vec<u8> = vec![0x01, 0x23, 0x45, 0x67, 0x89, 0xab];
    let x = unpack(&v, 4, 5);
    assert_eq!(x.len(), 10);
    assert_eq!(x, [0, 1, 2, 3, 4, 6, 7, 8, 9, 0xa]);
}
