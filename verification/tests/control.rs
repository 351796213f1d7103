use game_network::bitvec::BitVec;
use game_network::control::{CompressedControllerSequence, ControllerSequence};

fn state(number: u8) -> BitVec {
    let mut bitvec = BitVec::new();
    for k in 0..4u8 {
        bitvec.push((number >> k) & 1 == 1);
    }
    bitvec
}

fn sequence(numbers: &[u8]) -> ControllerSequence {
    let mut seq = ControllerSequence::new();
    for number in numbers {
        seq.push(state(*number));
    }
    seq
}

fn compressed(seq: &ControllerSequence) -> CompressedControllerSequence {
    assert!(seq.compressed_size_fits());
    seq.to_compressed().unwrap()
}

/// A sequence with the given start tick.
fn starting_at(start_tick: usize, numbers: &[u8]) -> ControllerSequence {
    let (_, states) = compressed(&sequence(numbers)).into_parts();
    CompressedControllerSequence::from_parts(start_tick, states)
        .to_controller_sequence()
        .unwrap()
}

#[test]
fn last_tick_counts_states() {
    assert_eq!(0, ControllerSequence::new().last_tick());
    assert!(ControllerSequence::new().is_empty());
    assert_eq!(3, sequence(&[1, 2, 3]).last_tick());
    assert!(!sequence(&[1]).is_empty());
    assert_eq!(12, starting_at(10, &[1, 2]).last_tick());
}

#[test]
fn sequences_survive_compression() {
    let seq = starting_at(7, &[1, 1, 2, 15, 15, 15]);
    let back = compressed(&seq).to_controller_sequence().unwrap();
    assert_eq!(13, back.last_tick());
    assert_eq!(compressed(&seq), compressed(&back));
    assert!(compressed(&seq) != compressed(&sequence(&[1, 1, 2, 15, 15, 15])));
    assert_eq!(compressed(&seq), compressed(&seq).clone());
    assert_eq!(compressed(&seq), compressed(&seq.clone()));
}

#[test]
fn states_of_different_sizes_are_not_compressed() {
    let mut seq = sequence(&[1, 2]);
    assert!(seq.is_equally_sized());
    seq.push(BitVec::from_slice(&[true]));
    assert!(!seq.is_equally_sized());
    assert!(seq.to_compressed().is_none());
}

#[test]
fn append_skips_the_ticks_between_the_starts() {
    let mut seq = sequence(&[1, 2]);
    seq.append(starting_at(1, &[3, 4, 5]));
    assert_eq!(compressed(&sequence(&[1, 2, 4, 5])), compressed(&seq));
    // Nothing is left of a sequence that starts later than it is long.
    seq.append(starting_at(9, &[6, 7]));
    assert_eq!(compressed(&sequence(&[1, 2, 4, 5])), compressed(&seq));
    // Nor of one that starts no later.
    seq.append(sequence(&[8]));
    assert_eq!(compressed(&sequence(&[1, 2, 4, 5])), compressed(&seq));
    // As many are skipped however long the sequence is that grows.
    let mut longer = sequence(&[1, 2, 3]);
    longer.append(starting_at(1, &[3, 4, 5]));
    assert_eq!(compressed(&sequence(&[1, 2, 3, 4, 5])), compressed(&longer));
}

#[test]
fn remove_till_tick_removes_earlier_ticks() {
    let mut seq = sequence(&[1, 2, 3, 4, 5]);
    seq.remove_till_tick(0);
    assert_eq!(compressed(&sequence(&[1, 2, 3, 4, 5])), compressed(&seq));
    seq.remove_till_tick(3);
    assert_eq!(compressed(&starting_at(3, &[4, 5])), compressed(&seq));
    assert_eq!(5, seq.last_tick());
    seq.remove_till_tick(4);
    assert_eq!(compressed(&starting_at(4, &[5])), compressed(&seq));
    assert_eq!(5, seq.last_tick());
}

#[test]
fn remove_till_tick_keeps_later_ticks() {
    let mut seq = starting_at(10, &[1, 2]);
    seq.remove_till_tick(4);
    assert_eq!(compressed(&starting_at(10, &[1, 2])), compressed(&seq));
    seq.remove_till_tick(10);
    assert_eq!(compressed(&starting_at(10, &[1, 2])), compressed(&seq));
}

#[test]
fn remove_till_tick_removes_all_at_most() {
    let mut seq = starting_at(10, &[1, 2]);
    seq.remove_till_tick(40);
    assert!(seq.is_empty());
    assert_eq!(12, seq.last_tick());
    seq.push(state(3));
    assert_eq!(compressed(&starting_at(12, &[3])), compressed(&seq));

    // One state of tick 0 is none of the ticks before 0.
    let mut one = sequence(&[1]);
    one.remove_till_tick(0);
    assert!(!one.is_empty());
    one.remove_till_tick(1);
    assert!(one.is_empty());
    assert_eq!(1, one.last_tick());
}

#[test]
fn removals_add_up() {
    let mut once = sequence(&[1, 2, 3, 4, 5]);
    once.remove_till_tick(3);
    for ticks in [[2, 3], [3, 2], [3, 3]] {
        let mut twice = sequence(&[1, 2, 3, 4, 5]);
        twice.remove_till_tick(ticks[0]);
        twice.remove_till_tick(ticks[1]);
        assert_eq!(compressed(&once), compressed(&twice));
    }
}

#[test]
fn broken_payloads_stand_for_no_sequence() {
    let (_, states) = compressed(&sequence(&[1])).into_parts();
    let (storage, len_of_last, element_size) = states.to_parts();
    let broken = game_network::bitvec::CompressedBitVec::from_parts(
        storage,
        len_of_last - 1,
        element_size,
    )
    .unwrap();
    let input = CompressedControllerSequence::from_parts(0, broken);
    assert!(input.to_controller_sequence().is_none());
}
