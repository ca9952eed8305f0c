use datamodel::bit_array::BitArray;

#[test]
fn eat_exact_leaves_zero_remaining() {
    let mut ba = BitArray::new(vec![0xFF], None);
    assert_eq!(ba.remaining(), 8);
    let eaten = ba.eat(8);
    assert!(eaten.is_some());
    assert_eq!(ba.remaining(), 0);
    assert_eq!(eaten.unwrap().remaining(), 8);
}

#[test]
fn eat_past_end_fails_and_keeps_head() {
    let mut ba = BitArray::new(vec![0xFF], None);
    let eaten = ba.eat(9);
    assert!(eaten.is_none());
    assert_eq!(ba.remaining(), 8);
    let first = ba.eat(3);
    assert!(first.is_some());
    assert_eq!(ba.remaining(), 5);
    let second = ba.eat(6);
    assert!(second.is_none());
    assert_eq!(ba.remaining(), 5);
}

#[test]
fn peek_reads_most_significant_first() {
    let ba = BitArray::new(vec![0xAB, 0xCD], None);
    assert_eq!(ba.peek(4), 0xA);
    assert_eq!(ba.peek(8), 0xAB);
    assert_eq!(ba.peek(16), 0xABCD);
}

#[test]
fn eat_then_peek_returns_consumed_bits() {
    let mut ba = BitArray::new(vec![0xAB, 0xCD], None);
    let eaten = ba.eat(12).unwrap();
    assert_eq!(eaten.peek(12), 0xABC);
    assert_eq!(ba.peek(4), 0xD);
}

#[test]
fn new_with_offset_starts_mid_stream() {
    let ba = BitArray::new(vec![0xAB], Some(4));
    assert_eq!(ba.remaining(), 4);
    assert_eq!(ba.peek(4), 0xB);
}

#[test]
fn extend_appends_live_bits() {
    let mut out = BitArray::new(Vec::new(), None);
    let a = BitArray::new(vec![0xAB], None);
    let mut b = BitArray::new(vec![0xCD], None);
    b.eat(4);
    out.extend(&a);
    out.extend(&b);
    assert_eq!(out.num_bits(), 12);
    assert_eq!(out.peek(12), 0xABD);
}

#[test]
fn extend_packs_bytes_with_zero_padding() {
    let mut out = BitArray::new(Vec::new(), None);
    let mut a = BitArray::new(vec![0xFF], None);
    a.eat(4);
    out.extend(&a);
    assert_eq!(out.num_bits(), 4);
    assert_eq!(out.bytes().as_slice(), &[0xF0]);
}

#[test]
fn advance_to_match_commits_speculative_work() {
    let mut ba = BitArray::new(vec![0xAB, 0xCD], None);
    let mut speculative = ba.clone();
    speculative.eat(8);
    ba.advance_to_match(&speculative);
    assert_eq!(ba.remaining(), 8);
    assert_eq!(ba.peek(8), 0xCD);
}

#[test]
fn clone_has_independent_head() {
    let mut ba = BitArray::new(vec![0xAB], None);
    let copy = ba.clone();
    ba.eat(4);
    assert_eq!(ba.remaining(), 4);
    assert_eq!(copy.remaining(), 8);
}
