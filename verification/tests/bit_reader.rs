use fit::bit_reader::BitReader;
use fit::fit::{BaseType, Value};

struct Scenario {
    data: &'static [u64],
    base_type: BaseType,
    n_bits_to_read: &'static [usize],
    values: &'static [u64],
}

impl Scenario {
    fn to_value(&self) -> Value {
        Value::Array(
            self.data
                .iter()
                .map(|d| match self.base_type {
                    BaseType::UInt8 => Value::UInt8(*d as u8),
                    BaseType::UInt16 => Value::UInt16(*d as u16),
                    BaseType::UInt32 => Value::UInt32(*d as u32),
                    _ => panic!("Not supported"),
                })
                .collect::<Vec<_>>(),
        )
    }
}

#[test]
fn from_byte_array_tests() {
    let mut reader = BitReader::new(Value::Array(vec![Value::UInt8(0xAA), Value::UInt8(0xAA)]));
    let values = &[0u8, 1, 0, 1, 0, 1, 0, 1, 0, 1, 0, 1, 0, 1, 0, 1];
    for (index, expected) in values.iter().enumerate() {
        assert_eq!(reader.consumed, index);
        assert!(reader.available());
        assert_eq!(Some(*expected), reader.next());
        assert_eq!(reader.consumed, index + 1);
        assert_eq!(reader.available(), index + 1 != values.len());
    }
    let scenarios = vec![
        Scenario {
            data: &[0xAA],
            base_type: BaseType::UInt8,
            n_bits_to_read: &[4, 4],
            values: &[0xA, 0xA],
        },
        Scenario {
            data: &[0xAA],
            base_type: BaseType::UInt8,
            n_bits_to_read: &[8],
            values: &[0xAA],
        },
        Scenario {
            data: &[0xAA, 0xAA],
            base_type: BaseType::UInt8,
            n_bits_to_read: &[16],
            values: &[0xAAAA],
        },
        Scenario {
            data: &[0xFF, 0xFF],
            base_type: BaseType::UInt8,
            n_bits_to_read: &[16],
            values: &[0xFFFF],
        },
        Scenario {
            data: &[0xAA, 0xAA, 0xAA, 0x2A],
            base_type: BaseType::UInt8,
            n_bits_to_read: &[32],
            values: &[0x2AAAAAAA],
        },
        Scenario {
            data: &[0x10, 0x32, 0x54, 0x76],
            base_type: BaseType::UInt8,
            n_bits_to_read: &[32],
            values: &[0x76543210],
        },
    ];
    for scenario in scenarios.iter() {
        let mut reader = BitReader::new(scenario.to_value());
        for (index, value) in scenario.values.iter().enumerate() {
            assert_eq!(Some(*value), reader.read_bits(scenario.n_bits_to_read[index]),);
        }
    }
}

#[test]
fn from_integer_tests() {
    let mut reader = BitReader::new(Value::UInt16(0x0FAA));
    let values = &[0u8, 1, 0, 1, 0, 1, 0, 1, 1, 1, 1, 1, 0, 0, 0, 0];
    for value in values {
        assert_eq!(Some(*value), reader.next())
    }
    let scenarios = vec![
        Scenario {
            data: &[0xAA],
            base_type: BaseType::UInt8,
            n_bits_to_read: &[4],
            values: &[0xA],
        },
        Scenario {
            data: &[0xAA],
            base_type: BaseType::UInt8,
            n_bits_to_read: &[4, 4],
            values: &[0xA, 0xA],
        },
        Scenario {
            data: &[0xAA],
            base_type: BaseType::UInt8,
            n_bits_to_read: &[4, 1, 1, 1, 1],
            values: &[0xA, 0x0, 0x1, 0x0, 0x1],
        },
        Scenario {
            data: &[0xAA],
            base_type: BaseType::UInt16,
            n_bits_to_read: &[4, 1, 1, 1, 1],
            values: &[0xA, 0x0, 0x1, 0x0, 0x1],
        },
        Scenario {
            data: &[0xAAAA, 0x2AAA],
            base_type: BaseType::UInt16,
            n_bits_to_read: &[32],
            values: &[0x2AAAAAAA],
        },
        Scenario {
            data: &[0xAAAAAAAA],
            base_type: BaseType::UInt32,
            n_bits_to_read: &[16, 8, 8],
            values: &[0xAAAA, 0xAA, 0xAA],
        },
    ];

    for scenario in scenarios {
        let mut reader = BitReader::new(scenario.to_value());
        for (index, value) in scenario.values.iter().enumerate() {
            assert_eq!(Some(*value), reader.read_bits(scenario.n_bits_to_read[index]));
        }
    }
}

#[test]
fn exception() {
    // When reading more bits than available bts should got None
    let mut reader = BitReader::new(Value::UInt16(0xAAAA));
    reader.read_bits(16);
    assert_eq!(reader.next(), None);

    let mut reader = BitReader::new(Value::UInt16(0xAAAA));
    assert_eq!(reader.read_bits(32), None);
}

#[test]
fn a_failed_read_takes_the_rest() {
    let mut reader = BitReader::new(Value::UInt8(0xFF));
    assert_eq!(reader.read_bits(5), Some(0x1F));
    assert_eq!(reader.read_bits(4), None);
    assert_eq!(reader.consumed, 8);
    assert_eq!(reader.read_bits(1), None);
    assert_eq!(reader.read_bits(0), Some(0));
}

#[test]
fn wide_reads() {
    let mut reader = BitReader::new(Value::UInt64(0xFEDC_BA98_7654_3210));
    assert_eq!(reader.read_bits(64), Some(0xFEDC_BA98_7654_3210));
    let mut reader = BitReader::new(Value::Array(vec![
        Value::UInt32(0x7654_3210),
        Value::UInt32(0xFEDC_BA98),
    ]));
    assert_eq!(reader.read_bits(4), Some(0));
    assert_eq!(reader.read_bits(60), Some(0x0FED_CBA9_8765_4321));
}

#[test]
fn only_unsigned_integers_give_bits() {
    assert!(BitReader::try_new(&Value::UInt8z(1)).is_some());
    assert!(BitReader::try_new(&Value::Byte(1)).is_some());
    assert!(BitReader::try_new(&Value::Enum(1)).is_none());
    assert!(BitReader::try_new(&Value::SInt32(1)).is_none());
    assert!(BitReader::try_new(&Value::String(String::from("1"))).is_none());
    assert!(BitReader::try_new(&Value::Array(vec![])).is_none());
    assert!(BitReader::try_new(&Value::Array(vec![Value::UInt8(1), Value::SInt8(1)])).is_none());
    let reader = BitReader::try_new(&Value::Array(vec![Value::UInt16(1), Value::UInt16(2)])).unwrap();
    assert_eq!(reader.per_size, 16);
    assert_eq!(reader.total, 32);
    assert_eq!(reader.bytes, vec![1, 2]);
}
