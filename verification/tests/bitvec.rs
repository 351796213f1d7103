use game_network::bitvec::{compressed_len, BitVec, CompressedBitVec};
use std::collections::VecDeque;

fn bits(text: &str) -> BitVec {
    let slice: Vec<bool> = text.chars().map(|c| c == '1').collect();
    BitVec::from_slice(&slice)
}

fn text(bitvec: &BitVec) -> String {
    let mut out = String::new();
    for bit in bitvec {
        out.push(if bit { '1' } else { '0' });
    }
    out
}

fn deque(elements: &[&str]) -> VecDeque<BitVec> {
    elements.iter().map(|element| bits(element)).collect()
}

#[test]
fn new_bitvec_is_empty() {
    let bitvec = BitVec::new();
    assert_eq!(0, bitvec.len());
    assert!(bitvec.is_empty());
    assert_eq!(None, bitvec.get(0));
    assert_eq!("", text(&bitvec));
}

#[test]
fn pushed_bits_are_found() {
    let mut bitvec = BitVec::new();
    for i in 0..100usize {
        bitvec.push(i % 3 == 0);
    }
    assert_eq!(100, bitvec.len());
    assert!(!bitvec.is_empty());
    for i in 0..100usize {
        assert_eq!(Some(i % 3 == 0), bitvec.get(i));
    }
    assert_eq!(None, bitvec.get(100));
    assert_eq!(None, bitvec.get(usize::MAX));
}

#[test]
fn a_full_word_is_not_empty() {
    let bitvec = BitVec::from_slice(&[true; 32]);
    assert_eq!(32, bitvec.len());
    assert!(!bitvec.is_empty());
    assert_eq!(Some(true), bitvec.get(31));
    assert_eq!(None, bitvec.get(32));
}

#[test]
fn append_crosses_words() {
    let mut bitvec = BitVec::from_slice(&[false; 30]);
    bitvec.append(&bits("10110"));
    assert_eq!(35, bitvec.len());
    assert_eq!(Some(bits("0010110")), bitvec.range(28..35));
}

#[test]
fn appended_bits_come_after_the_old_ones() {
    let mut bitvec = bits("0110");
    let other = bits("10");
    bitvec.append(&other);
    assert_eq!(bits("011010"), bitvec);
    assert_eq!(Some(bits("0110")), bitvec.range(0..4));
    assert_eq!(Some(bits("10")), bitvec.range(4..6));
    assert_eq!(bits("10"), other);
}

#[test]
fn range_ends_within_the_vector() {
    let bitvec = bits("011010");
    assert_eq!(Some(bits("110")), bitvec.range(1..4));
    assert_eq!(Some(bits("")), bitvec.range(4..4));
    assert_eq!(Some(bits("")), bitvec.range(9..2));
    assert_eq!(None, bitvec.range(4..7));
}

#[test]
fn equality_is_that_of_the_bits() {
    assert_eq!(bits("0110"), bits("0110"));
    assert!(bits("0110") != bits("01100"));
    assert!(bits("0110") != bits("0111"));
    assert_eq!(bits("0110"), bits("0110").clone());
}

#[test]
fn compressed_bits_are_exact() {
    // A new element takes a one-bit and its own bits, a repeated one a zero-bit.
    let comp = CompressedBitVec::compress(&deque(&["01", "01", "11", "11", "01"])).unwrap();
    let (storage, len_of_last, element_size) = comp.to_parts();
    // The bits are 101 0 111 0 101, the first one in the lowest position.
    assert_eq!(vec![0b101_0_111_0_101u32], storage);
    assert_eq!(11, len_of_last);
    assert_eq!(2, element_size);
}

#[test]
fn decompress_undoes_compress() {
    for elements in [
        deque(&[]),
        deque(&["", ""]),
        deque(&["101", "101", "001"]),
        deque(&["1111000011110000111100001111000011110000"; 7]),
        deque(&["0", "1", "1", "0", "0"]),
    ] {
        let comp = CompressedBitVec::compress(&elements).unwrap();
        assert_eq!(Some(elements), comp.decompress());
    }
}

#[test]
fn compress_rejects_different_sizes() {
    assert!(CompressedBitVec::compress(&deque(&["10", "101"])).is_none());
}

#[test]
fn compressed_len_counts_bits() {
    assert_eq!(Some(0), compressed_len(&deque(&[])));
    assert_eq!(Some(11), compressed_len(&deque(&["01", "01", "11", "11", "01"])));
}

#[test]
fn compressing_costs_at_most_a_bit_per_element() {
    let different = deque(&["000", "001", "010", "011"]);
    assert_eq!(Some(4 * (3 + 1)), compressed_len(&different));
    let repeated = deque(&["000"; 10]);
    assert_eq!(Some(3 + 10), compressed_len(&repeated));
}

#[test]
fn decompress_rejects_a_repetition_of_nothing() {
    let comp = CompressedBitVec::from_parts(vec![0b0], 1, 3).unwrap();
    assert_eq!(None, comp.decompress());
}

#[test]
fn decompress_rejects_a_short_element() {
    let comp = CompressedBitVec::from_parts(vec![0b011], 3, 3).unwrap();
    assert_eq!(None, comp.decompress());
    let huge = CompressedBitVec::from_parts(vec![0b011], 3, usize::MAX).unwrap();
    assert_eq!(None, huge.decompress());
}

#[test]
fn decompress_rejects_more_bits_than_there_are() {
    let comp = CompressedBitVec::from_parts(vec![0b1], 33, 31).unwrap();
    assert_eq!(None, comp.decompress());
    let exact = CompressedBitVec::from_parts(vec![0b1], 32, 31).unwrap();
    assert_eq!(1, exact.decompress().unwrap().len());
}

#[test]
fn parts_without_words_stand_for_nothing() {
    assert!(CompressedBitVec::from_parts(vec![], 0, 1).is_none());
}

#[test]
fn parts_give_the_value_back() {
    let comp = CompressedBitVec::compress(&deque(&["0110", "0110", "1001"])).unwrap();
    let (storage, len_of_last, element_size) = comp.to_parts();
    let again = CompressedBitVec::from_parts(storage, len_of_last, element_size).unwrap();
    assert_eq!(comp, again);
    assert_eq!(Some(deque(&["0110", "0110", "1001"])), again.decompress());

    // An empty payload still has a word on the network.
    let empty = CompressedBitVec::compress(&deque(&[])).unwrap();
    assert_eq!((vec![0u32], 0u8, 0usize), empty.to_parts());
}

#[test]
fn received_values_keep_their_words() {
    let part = |storage: Vec<u32>, len_of_last: u8| {
        CompressedBitVec::from_parts(storage, len_of_last, 2).unwrap()
    };
    // A bit that is not in use tells values apart, as does a word that is not.
    assert!(part(vec![0], 0) != part(vec![1], 0));
    assert!(part(vec![0b101], 3) != part(vec![0b1101], 3));
    assert!(part(vec![7], 32) != part(vec![7, 0], 0));
    assert!(part(vec![7], 40) != part(vec![7], 41));
    assert_eq!(part(vec![7, 9], 3), part(vec![7, 9], 3).clone());
    assert_eq!((vec![0b1101u32], 3u8, 2usize), part(vec![0b1101], 3).to_parts());
    // They still stand for the same elements.
    assert_eq!(part(vec![0b101], 3).decompress(), part(vec![0b1101], 3).decompress());
    assert_eq!(Some(deque(&["01"])), part(vec![0b1101], 3).decompress());
}

#[test]
fn compressing_gives_one_value() {
    let elements = deque(&["1010101010101010101010101010101", "0101010101010101010101010101010"]);
    let one = CompressedBitVec::compress(&elements).unwrap();
    let two = CompressedBitVec::compress(&elements).unwrap();
    assert_eq!(one, two);
    let (storage, len_of_last, _) = one.to_parts();
    assert_eq!(2, storage.len());
    assert_eq!(32, len_of_last);
}
