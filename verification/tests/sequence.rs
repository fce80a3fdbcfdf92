use pixelshift::error::MergeError;
use pixelshift::sequence::{map_sequence, MAX_SEQUENCE};

#[test]
fn sequence_numbers_map_to_their_slots() {
    let expected: [(u32, u32); 16] = [
        (1, 1),
        (1, 0),
        (1, 3),
        (1, 2),
        (0, 1),
        (0, 0),
        (0, 3),
        (0, 2),
        (3, 1),
        (3, 0),
        (3, 3),
        (3, 2),
        (2, 1),
        (2, 0),
        (2, 3),
        (2, 2),
    ];
    for seq in 1..=16u32 {
        assert_eq!(map_sequence(seq), Ok(expected[(seq - 1) as usize]), "sequence {}", seq);
    }
}

#[test]
fn sixteen_sequence_numbers_take_sixteen_slots() {
    let mut taken = [false; 16];
    for seq in 1..=MAX_SEQUENCE {
        let (group, position) = map_sequence(seq).unwrap();
        assert!(group < 4 && position < 4);
        let slot = (4 * group + position) as usize;
        assert!(!taken[slot], "slot {} taken twice", slot);
        taken[slot] = true;
    }
    assert!(taken.iter().all(|t| *t));
}

#[test]
fn a_run_of_four_shares_a_group_and_takes_four_positions() {
    for run in 0..4u32 {
        let slots: Vec<(u32, u32)> =
            (1..=4u32).map(|k| map_sequence(4 * run + k).unwrap()).collect();
        assert!(slots.iter().all(|slot| slot.0 == slots[0].0));
        let mut positions: Vec<u32> = slots.iter().map(|slot| slot.1).collect();
        positions.sort();
        assert_eq!(positions, vec![0, 1, 2, 3]);
    }
}

#[test]
fn first_four_shots_are_group_one() {
    for seq in 1..=4u32 {
        assert_eq!(map_sequence(seq).unwrap().0, 1);
    }
    for seq in 5..=8u32 {
        assert_eq!(map_sequence(seq).unwrap().0, 0);
    }
}

#[test]
fn sequence_zero_is_refused() {
    assert_eq!(map_sequence(0), Err(MergeError::InvalidSequence(0)));
}

#[test]
fn sequence_beyond_sixteen_is_refused() {
    assert_eq!(map_sequence(17), Err(MergeError::InvalidSequence(17)));
    assert_eq!(map_sequence(20), Err(MergeError::InvalidSequence(20)));
    assert_eq!(map_sequence(u32::MAX), Err(MergeError::InvalidSequence(u32::MAX)));
}
