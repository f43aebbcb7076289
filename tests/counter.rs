use paper_clock::counter::{
    apply_write, encode_base, is_region_wf, plan_increment, read_and_increment_counter,
    read_counter, set_counter, CounterWrite,
};

fn fresh(len: usize, base: u32) -> Vec<u8> {
    let mut region = vec![0xAB; len];
    set_counter(&mut region, base);
    region
}

#[test]
fn set_writes_big_endian_base_and_erased_field() {
    let region = fresh(8, 0x0102_0304);
    assert_eq!(region, vec![1, 2, 3, 4, 0xFF, 0xFF, 0xFF, 0xFF]);
}

#[test]
fn encode_base_is_big_endian() {
    assert_eq!(encode_base(0xDEAD_BEEF), vec![0xDE, 0xAD, 0xBE, 0xEF]);
    assert_eq!(encode_base(0), vec![0, 0, 0, 0]);
}

#[test]
fn eight_byte_region_counts_thirty_two_then_rebases() {
    let mut region = fresh(8, 0);
    for expected in 0..32u32 {
        match plan_increment(&region) {
            Some((v, CounterWrite::Program { .. })) => assert_eq!(v, expected),
            other => panic!("unexpected plan {:?}", other),
        }
        assert_eq!(read_and_increment_counter(&mut region), Some(expected));
    }
    assert_eq!(region, vec![0, 0, 0, 0, 0, 0, 0, 0]);
    assert_eq!(read_counter(&region), Some(32));
    assert_eq!(plan_increment(&region), Some((32, CounterWrite::Reset { base: 33 })));
    assert_eq!(read_and_increment_counter(&mut region), Some(32));
    assert_eq!(region, vec![0, 0, 0, 33, 0xFF, 0xFF, 0xFF, 0xFF]);
    assert_eq!(read_counter(&region), Some(33));
    assert_eq!(read_and_increment_counter(&mut region), Some(33));
}

#[test]
fn increments_grow_by_exactly_one_across_a_rebase() {
    let mut region = fresh(6, 1000);
    let mut last = read_and_increment_counter(&mut region).unwrap();
    for _ in 0..100 {
        let v = read_and_increment_counter(&mut region).unwrap();
        assert_eq!(v, last + 1);
        last = v;
    }
}

#[test]
fn erase_happens_once_per_cycle() {
    let len = 7usize;
    let bits = 8 * (len as u32 - 4);
    let mut region = fresh(len, 500);
    let mut erases = 0;
    for i in 0..=bits {
        let (v, w) = plan_increment(&region).unwrap();
        assert_eq!(v, 500 + i);
        if let CounterWrite::Reset { base } = w {
            erases += 1;
            assert_eq!(i, bits);
            assert_eq!(base, 500 + bits + 1);
        }
        apply_write(&mut region, w);
    }
    assert_eq!(erases, 1);
    assert_eq!(read_counter(&region), Some(500 + bits + 1));
}

#[test]
fn set_then_read_then_increment_returns_the_set_value() {
    let mut region = fresh(16, 77);
    for _ in 0..20 {
        read_and_increment_counter(&mut region);
    }
    set_counter(&mut region, 123_456);
    assert_eq!(read_counter(&region), Some(123_456));
    assert_eq!(read_and_increment_counter(&mut region), Some(123_456));
    assert_eq!(read_counter(&region), Some(123_457));
}

#[test]
fn first_increment_programs_the_top_bit_of_the_first_byte() {
    let region = fresh(8, 5);
    assert_eq!(plan_increment(&region), Some((5, CounterWrite::Program { offset: 4, byte: 0x7F })));
}

#[test]
fn partly_spent_region_reads_base_plus_cleared_bits() {
    let region = vec![0, 0, 1, 0, 0x00, 0x00, 0x1F, 0xFF, 0xFF];
    assert!(is_region_wf(&region));
    assert_eq!(read_counter(&region), Some(256 + 16 + 3));
    assert_eq!(
        plan_increment(&region),
        Some((275, CounterWrite::Program { offset: 6, byte: 0x0F }))
    );
}

#[test]
fn malformed_regions_are_refused() {
    assert_eq!(read_counter(&[0, 0, 0]), None);
    let not_unary = vec![0, 0, 0, 0, 0x5A];
    assert!(!is_region_wf(&not_unary));
    assert_eq!(read_counter(&not_unary), None);
    let gap = vec![0, 0, 0, 0, 0x7F, 0x00];
    assert_eq!(read_counter(&gap), None);
    let mut copy = gap.clone();
    assert_eq!(read_and_increment_counter(&mut copy), None);
    assert_eq!(copy, gap);
}

#[test]
fn value_at_the_top_of_the_range_reads_but_does_not_increment() {
    let mut region = fresh(8, u32::MAX);
    assert_eq!(read_counter(&region), Some(u32::MAX));
    assert_eq!(plan_increment(&region), None);
    assert_eq!(read_and_increment_counter(&mut region), None);
    let over = vec![0xFF, 0xFF, 0xFF, 0xFF, 0x7F];
    assert_eq!(read_counter(&over), None);
}

#[test]
fn four_byte_region_rebases_on_every_increment() {
    let mut region = fresh(4, 9);
    assert_eq!(plan_increment(&region), Some((9, CounterWrite::Reset { base: 10 })));
    assert_eq!(read_and_increment_counter(&mut region), Some(9));
    assert_eq!(region, vec![0, 0, 0, 10]);
}
