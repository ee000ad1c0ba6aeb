use phase_table::lookup::{AlwaysValid, FirstSlotZero, LookupPattern};
use phase_table::phase_table::{
    build_phase_lookup_table, check_maskable, BuildError, FlatMoveIndex, PhaseLookupTable, PhasePatternIndex,
};
use phase_table::prune_table::{Depth, PhasePruneTable, PruneTable};
use phase_table::puzzle::{apply_transformation, mask, parity, PermutationPuzzle};

fn toy_puzzle() -> PermutationPuzzle {
    PermutationPuzzle::try_new(
        vec![0, 1, 2],
        vec![vec![1, 0, 2], vec![0, 2, 1], vec![1, 2, 0]],
    )
    .unwrap()
}

fn toy_table() -> PhaseLookupTable {
    build_phase_lookup_table::<AlwaysValid>(&toy_puzzle(), &vec![0, 1, 2], 100).unwrap()
}

fn key_of(p: Vec<u8>) -> LookupPattern {
    LookupPattern::try_new::<AlwaysValid>(&p, &vec![0, 1, 2]).unwrap()
}

fn step(t: &PhaseLookupTable, i: usize, m: usize) -> Option<usize> {
    t.apply_move(PhasePatternIndex(i), FlatMoveIndex(m)).map(|j| j.0)
}

#[test]
fn phase_lookup_table_test() {
    let pz = toy_puzzle();
    let phase_mask = vec![0, 1, 2];
    let table = build_phase_lookup_table::<AlwaysValid>(&pz, &phase_mask, 100).unwrap();
    let cube_pattern_index = PhasePatternIndex(0);
    let first_move_index = FlatMoveIndex(0);
    let moved_index = table.apply_move(cube_pattern_index, first_move_index).unwrap();
    let lookup_pattern = table.lookup_pattern(moved_index);
    assert_eq!(Some(moved_index), table.index_of(lookup_pattern));
    let other_pattern = apply_transformation(&pz.default_pattern, &pz.moves[0]);
    let other_lookup_pattern =
        LookupPattern::try_new::<AlwaysValid>(&other_pattern, &phase_mask).unwrap();
    assert_eq!(Some(moved_index), table.index_of(&other_lookup_pattern));
}

#[test]
fn toy_enumeration_order_and_depths() {
    let t = toy_table();
    assert_eq!(t.len(), 6);
    let expected: Vec<Vec<u8>> = vec![
        vec![0, 1, 2],
        vec![1, 0, 2],
        vec![0, 2, 1],
        vec![1, 2, 0],
        vec![2, 0, 1],
        vec![2, 1, 0],
    ];
    for (i, p) in expected.iter().enumerate() {
        assert_eq!(t.index_of(&key_of(p.clone())), Some(PhasePatternIndex(i)));
    }
    assert_eq!(t.exact_depths, vec![0, 1, 1, 1, 2, 2]);
}

#[test]
fn toy_transitions_match_adjacency() {
    let t = toy_table();
    assert_eq!(step(&t, 0, 0), Some(1));
    assert_eq!(step(&t, 0, 1), Some(2));
    assert_eq!(step(&t, 0, 2), Some(3));
    assert_eq!(step(&t, 1, 0), Some(0));
    assert_eq!(step(&t, 1, 1), Some(3));
    assert_eq!(step(&t, 1, 2), Some(2));
}

#[test]
fn transitions_agree_with_recomputed_keys() {
    let pz = toy_puzzle();
    let t = toy_table();
    for i in 0..t.len() {
        let rep = t.lookup_pattern(PhasePatternIndex(i)).masked_pattern.clone();
        for m in 0..pz.moves.len() {
            let q = apply_transformation(&rep, &pz.moves[m]);
            let j = step(&t, i, m).unwrap();
            assert_eq!(t.index_of(&key_of(q)), Some(PhasePatternIndex(j)));
        }
    }
}

#[test]
fn reverse_lookup_returns_each_index() {
    let t = toy_table();
    for i in 0..t.len() {
        let k = t.lookup_pattern(PhasePatternIndex(i));
        assert_eq!(t.index_of(k), Some(PhasePatternIndex(i)));
    }
}

#[test]
fn building_twice_gives_the_same_table() {
    let a = toy_table();
    let b = toy_table();
    assert_eq!(a.len(), b.len());
    assert_eq!(a.exact_depths, b.exact_depths);
    assert_eq!(a.move_application_table, b.move_application_table);
    for i in 0..a.len() {
        let ka = a.lookup_pattern(PhasePatternIndex(i));
        let kb = b.lookup_pattern(PhasePatternIndex(i));
        assert_eq!(ka.masked_pattern, kb.masked_pattern);
        assert_eq!(ka.parity, kb.parity);
    }
}

#[test]
fn rejecting_phase_gives_absent_transitions() {
    let t = build_phase_lookup_table::<FirstSlotZero>(&toy_puzzle(), &vec![0, 1, 2], 100).unwrap();
    assert_eq!(t.len(), 2);
    assert_eq!(step(&t, 0, 0), None);
    assert_eq!(step(&t, 0, 1), Some(1));
    assert_eq!(step(&t, 0, 2), None);
    assert_eq!(step(&t, 1, 0), None);
    assert_eq!(step(&t, 1, 1), Some(0));
    assert_eq!(step(&t, 1, 2), None);
    assert!(LookupPattern::try_new::<FirstSlotZero>(&vec![1, 0, 2], &vec![0, 1, 2]).is_none());
}

#[test]
fn masking_merges_patterns() {
    let t = build_phase_lookup_table::<AlwaysValid>(&toy_puzzle(), &vec![0, 0, 0], 100).unwrap();
    assert_eq!(t.len(), 2);
    assert_eq!(t.exact_depths, vec![0, 1]);
    assert_eq!(step(&t, 0, 0), Some(1));
    assert_eq!(step(&t, 0, 2), Some(0));
    assert_eq!(mask(&vec![2, 0, 1], &vec![0, 0, 1]), vec![1, 0, 0]);
}

#[test]
fn parity_separates_masked_equal_patterns() {
    let t = build_phase_lookup_table::<AlwaysValid>(&toy_puzzle(), &vec![0, 0, 1], 100).unwrap();
    assert_eq!(t.len(), 6);
    assert_eq!(t.exact_depths, vec![0, 1, 1, 1, 2, 2]);
    assert_eq!(t.lookup_pattern(PhasePatternIndex(1)).masked_pattern, vec![0, 0, 1]);
    assert_eq!(t.lookup_pattern(PhasePatternIndex(1)).parity, 1);
    assert_eq!(step(&t, 0, 0), Some(1));
    assert_eq!(step(&t, 0, 1), Some(2));
    assert_eq!(step(&t, 1, 0), Some(0));
}

#[test]
fn parity_counts_inversions() {
    assert_eq!(parity(&vec![0, 1, 2]), 0);
    assert_eq!(parity(&vec![1, 0, 2]), 1);
    assert_eq!(parity(&vec![2, 0, 1]), 0);
    assert_eq!(parity(&vec![2, 1, 0]), 1);
    assert_eq!(parity(&vec![3, 2, 1, 0]), 0);
    assert_eq!(parity(&vec![1, 1, 0]), 0);
    assert_eq!(parity(&vec![]), 0);
}

#[test]
fn invariant_does_not_depend_on_phase() {
    let a = LookupPattern::try_new::<AlwaysValid>(&vec![1, 0, 2], &vec![0, 1, 2]).unwrap();
    let b = LookupPattern::try_new::<FirstSlotZero>(&vec![1, 0, 2], &vec![0, 0, 0]).unwrap();
    assert_eq!(a.parity, 1);
    assert_eq!(b.parity, 1);
}

#[test]
fn auxiliary_invariant_splits_keys() {
    let k = LookupPattern::try_new::<FirstSlotZero>(&vec![0, 2, 1], &vec![0, 0, 0]).unwrap();
    assert_eq!(k.masked_pattern, vec![0, 0, 0]);
    assert_eq!(k.parity, 1);
    let t = build_phase_lookup_table::<FirstSlotZero>(&toy_puzzle(), &vec![0, 0, 0], 100).unwrap();
    assert_eq!(t.len(), 2);
    assert_eq!(t.lookup_pattern(PhasePatternIndex(0)).parity, 0);
    assert_eq!(t.lookup_pattern(PhasePatternIndex(1)).parity, 1);
    assert_eq!(t.lookup_pattern(PhasePatternIndex(1)).masked_pattern, vec![0, 0, 0]);
}

#[test]
fn mask_too_short_is_detected() {
    assert!(!check_maskable(&vec![0, 1, 2], &vec![0, 1]));
    assert!(check_maskable(&vec![0, 1, 2], &vec![0, 1, 2]));
    assert!(check_maskable(&vec![], &vec![]));
}

#[test]
fn capacity_is_enforced() {
    let r = build_phase_lookup_table::<AlwaysValid>(&toy_puzzle(), &vec![0, 1, 2], 5);
    assert_eq!(r.err(), Some(BuildError::CapacityExceeded));
    assert!(build_phase_lookup_table::<AlwaysValid>(&toy_puzzle(), &vec![0, 1, 2], 6).is_ok());
}

#[test]
fn ill_fitting_moves_are_refused() {
    assert!(PermutationPuzzle::try_new(vec![0, 1], vec![vec![0, 2]]).is_none());
    assert!(PermutationPuzzle::try_new(vec![0, 1], vec![vec![0]]).is_none());
    assert!(PermutationPuzzle::try_new(vec![0, 1], vec![vec![1, 0]]).is_some());
}

#[test]
fn apply_transformation_permutes() {
    assert_eq!(apply_transformation(&vec![5, 6, 7], &vec![2, 0, 1]), vec![7, 5, 6]);
}

#[test]
fn prune_table_bounds_and_deepening() {
    let t = toy_table();
    let mut p = PhasePruneTable::new(&t);
    assert_eq!(p.lookup(PhasePatternIndex(4)), Depth(0));
    p.extend_for_search_depth(Depth(1), 10);
    assert_eq!(p.lookup(PhasePatternIndex(4)), Depth(1));
    assert_eq!(p.lookup(PhasePatternIndex(0)), Depth(0));
    p.extend_for_search_depth(Depth(5), 10);
    assert_eq!(p.lookup(PhasePatternIndex(4)), Depth(2));
    assert_eq!(p.lookup(PhasePatternIndex(99)), Depth(0));
}

#[test]
fn deepening_to_a_covered_depth_changes_nothing() {
    let t = toy_table();
    let mut p = PhasePruneTable::new(&t);
    p.extend_for_search_depth(Depth(2), 0);
    let before: Vec<Depth> = (0..8).map(|i| p.lookup(PhasePatternIndex(i))).collect();
    p.extend_for_search_depth(Depth(1), 0);
    p.extend_for_search_depth(Depth(2), 0);
    let after: Vec<Depth> = (0..8).map(|i| p.lookup(PhasePatternIndex(i))).collect();
    assert_eq!(before, after);
}
