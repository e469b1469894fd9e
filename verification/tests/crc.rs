use fit::crc::{crc_16, crc_update};

/// The check value, one bit at a time.
fn bitwise(bytes: &[u8]) -> u16 {
    let mut crc: u16 = 0;
    for byte in bytes {
        crc ^= *byte as u16;
        for _ in 0..8 {
            crc = if crc & 1 == 1 { (crc >> 1) ^ 0xA001 } else { crc >> 1 };
        }
    }
    crc
}

#[test]
fn crc_of_nothing_is_zero() {
    assert_eq!(crc_16(&[]), 0);
}

#[test]
fn crc_of_the_check_string() {
    assert_eq!(crc_16(b"123456789"), 0xBB3D);
}

#[test]
fn crc_of_a_file_header() {
    let header = [0x0E, 0x20, 0x8B, 0x08, 0x24, 0x00, 0x00, 0x00, 0x2E, 0x46, 0x49, 0x54];
    assert_eq!(crc_16(&header), 0xA38E);
}

#[test]
fn crc_of_single_bytes() {
    assert_eq!(crc_16(&[0x00]), 0x0000);
    assert_eq!(crc_16(&[0x01]), 0xC0C1);
    assert_eq!(crc_16(&[0xFF]), 0x4040);
    assert_eq!(crc_update(0, 0x80), 0xA001);
}

#[test]
fn crc_agrees_with_division_bit_by_bit() {
    let mut bytes: Vec<u8> = Vec::new();
    let mut x: u32 = 12345;
    for _ in 0..300 {
        x = x.wrapping_mul(1103515245).wrapping_add(12345);
        bytes.push((x >> 16) as u8);
        assert_eq!(crc_16(&bytes), bitwise(&bytes));
    }
}

#[test]
fn crc_update_continues_a_check() {
    let bytes = [0x10u8, 0x32, 0x54, 0x76, 0x98];
    let mut crc = 0u16;
    for byte in bytes {
        crc = crc_update(crc, byte);
    }
    assert_eq!(crc, crc_16(&bytes));
}

#[test]
fn crc_over_data_and_its_check_value_is_zero() {
    let data = b"flexible and interoperable";
    let crc = crc_16(data);
    let mut all = data.to_vec();
    all.push((crc & 0xFF) as u8);
    all.push((crc >> 8) as u8);
    assert_eq!(crc_16(&all), 0);
}
