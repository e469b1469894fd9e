use fit::accumulator::{AccumulatedField, Accumulator};

#[test]
fn accumulator_it_works() {
    let mut accumulator = Accumulator::new();
    accumulator.add(0, 0, 0);
    assert_eq!(accumulator.accumulate(0, 0, 1, 8), 1);

    accumulator.add(0, 0, 0);
    assert_eq!(accumulator.accumulate(0, 0, 2, 8), 2);

    accumulator.add(0, 0, 0);
    assert_eq!(accumulator.accumulate(0, 0, 3, 8), 3);

    accumulator.add(0, 0, 0);
    assert_eq!(accumulator.accumulate(0, 0, 4, 8), 4);
}

#[test]
fn accumulate_without_a_counter_returns_the_sample() {
    let mut accumulator = Accumulator::new();
    assert_eq!(accumulator.accumulate(7, 3, 250, 8), 250);
    accumulator.add(7, 4, 10);
    assert_eq!(accumulator.accumulate(7, 3, 251, 8), 251);
}

#[test]
fn accumulate_unwraps_a_rolling_counter() {
    let mut accumulator = Accumulator::new();
    accumulator.add(20, 5, 250);
    assert_eq!(accumulator.accumulate(20, 5, 254, 8), 254);
    assert_eq!(accumulator.accumulate(20, 5, 3, 8), 259);
    assert_eq!(accumulator.accumulate(20, 5, 3, 8), 259);
    assert_eq!(accumulator.accumulate(20, 5, 2, 8), 514);
}

#[test]
fn accumulate_keeps_counters_apart() {
    let mut accumulator = Accumulator::new();
    accumulator.add(1, 2, 100);
    accumulator.add(2, 1, 7);
    assert_eq!(accumulator.accumulate(1, 2, 101, 8), 101);
    assert_eq!(accumulator.accumulate(2, 1, 6, 4), 22);
}

#[test]
fn accumulated_field_steps_by_the_masked_difference() {
    let mut field = AccumulatedField::new(0xFFF0);
    assert_eq!(field.accumulate(0x0005, 12), 0xFFF0 + 0x15);
    assert_eq!(field.last_value, 5);
    let mut wide = AccumulatedField::new(5);
    assert_eq!(wide.accumulate(4, 64), 4);
    let mut top = AccumulatedField::new(u64::MAX);
    assert_eq!(top.accumulate(0, 8), 0);
}

#[test]
fn reconstructed_values_never_fall() {
    let samples: [u64; 8] = [3, 200, 255, 0, 17, 16, 250, 2];
    let mut field = AccumulatedField::new(0);
    let mut previous = 0u64;
    for sample in samples {
        let next = field.accumulate(sample, 8);
        assert!(next >= previous);
        assert!(next - previous <= 255);
        assert_eq!(next & 0xFF, sample);
        previous = next;
    }
}
