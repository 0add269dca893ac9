use zkcomp::circuit::{Family, Role, Signal};
use zkcomp::evaluate::{eval_circuit, evaluate_comparator, evaluate_range};

// Bit vectors are least significant first: bit index 0 is the lowest bit,
// matching the witness encoding.
fn bits4(x: usize) -> Vec<u8> {
    vec![(x & 1) as u8, ((x >> 1) & 1) as u8, ((x >> 2) & 1) as u8, ((x >> 3) & 1) as u8]
}

fn value_of(bits: &[u8]) -> usize {
    let mut v: usize = 0;
    for (i, b) in bits.iter().enumerate() {
        v += (*b as usize) << i;
    }
    v
}

#[test]
fn width_four_concrete_scenarios() {
    // 6 against 7: the compared operand is larger.
    assert_eq!(evaluate_comparator(4, &bits4(6), &bits4(7)), Some(1));
    // 8 against 7: the compared operand is smaller.
    assert_eq!(evaluate_comparator(4, &bits4(8), &bits4(7)), Some(0));
    // Equal operands.
    assert_eq!(evaluate_comparator(4, &bits4(10), &bits4(10)), Some(0));
}

#[test]
fn comparator_matches_unsigned_comparison_exhaustively() {
    for a in 0usize..8 {
        for b in 0usize..8 {
            let av = vec![(a & 1) as u8, ((a >> 1) & 1) as u8, ((a >> 2) & 1) as u8];
            let bv = vec![(b & 1) as u8, ((b >> 1) & 1) as u8, ((b >> 2) & 1) as u8];
            assert_eq!(value_of(&av), a);
            assert_eq!(value_of(&bv), b);
            let expected = if b > a { 1u8 } else { 0u8 };
            assert_eq!(evaluate_comparator(3, &av, &bv), Some(expected), "a={} b={}", a, b);
        }
    }
}

#[test]
fn range_results_are_independently_correct() {
    for a in 0usize..4 {
        for b in 0usize..4 {
            for c in 0usize..4 {
                let av = vec![(a & 1) as u8, ((a >> 1) & 1) as u8];
                let bv = vec![(b & 1) as u8, ((b >> 1) & 1) as u8];
                let cv = vec![(c & 1) as u8, ((c >> 1) & 1) as u8];
                let (rb, rc) = evaluate_range(2, &av, &bv, &cv).unwrap();
                assert_eq!(rb, if b > a { 1 } else { 0 });
                assert_eq!(rc, if c > a { 1 } else { 0 });
            }
        }
    }
}

#[test]
fn range_scenario_between() {
    // Composing the two boolean outputs is the caller's step; here the
    // shared operand 5 gives res_B = 1 (7 > 5) and res_C = 0 (2 <= 5).
    let a = bits4(5);
    let b = bits4(7);
    let c = bits4(2);
    assert_eq!(evaluate_range(4, &a, &b, &c), Some((1, 0)));
}

#[test]
fn malformed_requests_are_rejected() {
    // Width zero.
    assert_eq!(evaluate_comparator(0, &vec![], &vec![]), None);
    // Length mismatch.
    assert_eq!(evaluate_comparator(4, &bits4(1), &vec![0, 1]), None);
    // A non-bit entry.
    assert_eq!(evaluate_comparator(2, &vec![0, 2], &vec![0, 1]), None);
    assert_eq!(evaluate_range(2, &vec![0, 1], &vec![0, 1], &vec![3, 0]), None);
}

fn sig(family: Family, role: Role, index: usize) -> Signal {
    Signal { family, role, index }
}

#[test]
fn accumulator_is_monotone_during_evaluation() {
    let n = 4usize;
    for a in 0usize..16 {
        for b in 0usize..16 {
            let env = eval_circuit(2, n, &bits4(a), &bits4(b), &vec![]);
            for i in 0..n - 1 {
                let hi = env.get(&sig(Family::B, Role::Acc, i)).unwrap();
                let lo = env.get(&sig(Family::B, Role::Acc, i + 1)).unwrap();
                assert!(hi >= lo, "acc not monotone at {} for a={} b={}", i, a, b);
            }
        }
    }
}

#[test]
fn at_most_one_transition_indicator() {
    let n = 4usize;
    for a in 0usize..16 {
        for b in 0usize..16 {
            let env = eval_circuit(2, n, &bits4(a), &bits4(b), &vec![]);
            let mut ones: usize = 0;
            for i in 0..n {
                let f = env.get(&sig(Family::B, Role::Fdiff, i)).unwrap();
                assert!(f == 0 || f == 1);
                if f == 1 {
                    ones += 1;
                }
            }
            assert!(ones <= 1, "several transitions for a={} b={}", a, b);
            if a == b {
                assert_eq!(ones, 0);
            } else {
                assert_eq!(ones, 1);
            }
        }
    }
}
