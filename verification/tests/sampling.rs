use reservoir::choose_from_slice;
use reservoir::choose_from_slice_mut;
use reservoir::choose_n;
use reservoir::choose_n_fill;
use reservoir::choose_one;
use reservoir::rand_index;
use reservoir::shuffle;
use reservoir::Hint;
use reservoir::VecSequence;

fn seq_exact(values: &[u32]) -> VecSequence<u32> {
    VecSequence::new(values.to_vec(), Hint::Exact)
}

fn seq_capped(values: &[u32], cap: usize) -> VecSequence<u32> {
    VecSequence::new(values.to_vec(), Hint::Capped(cap))
}

#[test]
fn rand_index_stays_below_bound() {
    let rng = fastrand::Rng::with_seed(1);
    for bound in 1..50usize {
        for _ in 0..200 {
            assert!(rand_index(&rng, bound) < bound);
        }
    }
}

#[test]
fn rand_index_reaches_every_value() {
    let rng = fastrand::Rng::with_seed(2);
    let mut seen = [false; 7];
    for _ in 0..2000 {
        seen[rand_index(&rng, 7)] = true;
    }
    assert!(seen.iter().all(|&s| s));
}

#[test]
fn choose_one_empty_returns_none() {
    let rng = fastrand::Rng::with_seed(3);
    assert_eq!(choose_one(seq_exact(&[]), &rng), None);
    assert_eq!(choose_one(seq_capped(&[], 0), &rng), None);
    assert_eq!(choose_one(seq_capped(&[], 4), &rng), None);
}

#[test]
fn choose_one_returns_an_element() {
    let rng = fastrand::Rng::with_seed(4);
    let values = [10, 20, 30, 40];
    for cap in [0usize, 1, 2, 3, 10] {
        for _ in 0..100 {
            let got = choose_one(seq_capped(&values, cap), &rng).unwrap();
            assert!(values.contains(&got));
        }
        let got = choose_one(seq_exact(&values), &rng).unwrap();
        assert!(values.contains(&got));
    }
}

#[test]
fn choose_one_singleton() {
    let rng = fastrand::Rng::with_seed(5);
    assert_eq!(choose_one(seq_exact(&[99]), &rng), Some(99));
    assert_eq!(choose_one(seq_capped(&[99], 0), &rng), Some(99));
}

fn check_uniform_one(seed: u64, make: impl Fn(&[u32]) -> VecSequence<u32>) {
    let rng = fastrand::Rng::with_seed(seed);
    let values = [0, 1, 2, 3, 4];
    let trials = 20000;
    let mut counts = [0u32; 5];
    for _ in 0..trials {
        let got = choose_one(make(&values), &rng).unwrap();
        counts[got as usize] += 1;
    }
    // expected 4000 per element; allow a generous band around it
    for &c in counts.iter() {
        assert!((3500..=4500).contains(&c), "skewed counts: {counts:?}");
    }
}

#[test]
fn choose_one_uniform_exact_hint() {
    check_uniform_one(6, seq_exact);
}

#[test]
fn choose_one_uniform_unknown_length() {
    check_uniform_one(7, |v| seq_capped(v, 0));
}

#[test]
fn choose_one_uniform_chunked() {
    check_uniform_one(8, |v| seq_capped(v, 2));
    check_uniform_one(9, |v| seq_capped(v, 3));
    check_uniform_one(10, |v| seq_capped(v, 100));
}

#[test]
fn choose_n_exact_count_and_distinct_positions() {
    let rng = fastrand::Rng::with_seed(11);
    let values: Vec<u32> = (0..10).collect();
    for cap in [0usize, 4, 100] {
        for _ in 0..200 {
            let got = choose_n(seq_capped(&values, cap), &rng, 3);
            assert_eq!(got.len(), 3);
            for &g in got.iter() {
                assert!(values.contains(&g));
            }
            // all source values are distinct, so distinct positions mean
            // distinct values
            assert!(got[0] != got[1] && got[0] != got[2] && got[1] != got[2]);
        }
    }
}

#[test]
fn choose_n_short_input_returns_everything() {
    let rng = fastrand::Rng::with_seed(12);
    let values = [5, 6, 7];
    let got = choose_n(seq_capped(&values, 0), &rng, 8);
    assert_eq!(got, vec![5, 6, 7]);
    let got = choose_n(seq_exact(&values), &rng, 3);
    assert_eq!(got, vec![5, 6, 7]);
}

#[test]
fn choose_n_zero_returns_empty_and_draws_nothing() {
    let rng = fastrand::Rng::with_seed(13);
    let got = choose_n(seq_capped(&[1, 2, 3], 0), &rng, 0);
    assert!(got.is_empty());
    // no random draw may have happened: a twin generator stays in step
    let twin = fastrand::Rng::with_seed(13);
    assert_eq!(rng.u64(..), twin.u64(..));
}

#[test]
fn choose_n_fill_short_input() {
    let rng = fastrand::Rng::with_seed(14);
    let mut buf = vec![0u32; 5];
    let filled = choose_n_fill(seq_capped(&[8, 9], 0), &rng, &mut buf);
    assert_eq!(filled, 2);
    assert_eq!(buf, vec![8, 9, 0, 0, 0]);
}

#[test]
fn choose_n_fill_full_input() {
    let rng = fastrand::Rng::with_seed(15);
    let values: Vec<u32> = (100..110).collect();
    for _ in 0..200 {
        let mut buf = vec![0u32; 4];
        let filled = choose_n_fill(seq_capped(&values, 0), &rng, &mut buf);
        assert_eq!(filled, 4);
        for &b in buf.iter() {
            assert!(values.contains(&b));
        }
        for a in 0..4 {
            for b in (a + 1)..4 {
                assert_ne!(buf[a], buf[b]);
            }
        }
    }
}

#[test]
fn choose_n_fill_empty_buffer() {
    let rng = fastrand::Rng::with_seed(16);
    let mut buf: Vec<u32> = Vec::new();
    let filled = choose_n_fill(seq_capped(&[1, 2, 3], 0), &rng, &mut buf);
    assert_eq!(filled, 0);
    assert!(buf.is_empty());
}

#[test]
fn choose_n_inclusion_uniform() {
    let rng = fastrand::Rng::with_seed(17);
    let values: Vec<u32> = (0..10).collect();
    let trials = 20000;
    let mut counts = [0u32; 10];
    for _ in 0..trials {
        let got = choose_n(seq_capped(&values, 0), &rng, 3);
        for g in got {
            counts[g as usize] += 1;
        }
    }
    // each element is included with probability 3/10: expected 6000
    for &c in counts.iter() {
        assert!((5400..=6600).contains(&c), "skewed counts: {counts:?}");
    }
}

#[test]
fn shuffle_is_a_permutation() {
    let rng = fastrand::Rng::with_seed(18);
    for _ in 0..500 {
        let mut v = vec![1, 2, 3, 4, 5];
        shuffle(&mut v, &rng);
        let mut sorted = v.clone();
        sorted.sort();
        assert_eq!(sorted, vec![1, 2, 3, 4, 5]);
    }
}

#[test]
fn shuffle_reaches_every_permutation_uniformly() {
    let rng = fastrand::Rng::with_seed(19);
    let trials = 24000;
    let mut counts = vec![0u32; 3125];
    for _ in 0..trials {
        let mut v = vec![1u32, 2, 3, 4, 5];
        shuffle(&mut v, &rng);
        let mut code = 0usize;
        for (i, &x) in v.iter().enumerate() {
            code += (x as usize - 1) * 5usize.pow(i as u32);
        }
        counts[code] += 1;
    }
    let nonzero = counts.iter().filter(|&&c| c > 0).count();
    assert_eq!(nonzero, 120);
    // expected 200 per permutation; allow a generous band around it
    for &c in counts.iter().filter(|&&c| c > 0) {
        assert!((120..=280).contains(&c), "skewed permutation count: {c}");
    }
}

#[test]
fn shuffle_boundaries_are_no_ops() {
    let rng = fastrand::Rng::with_seed(20);
    let mut empty: Vec<u32> = Vec::new();
    shuffle(&mut empty, &rng);
    assert!(empty.is_empty());
    let mut one = vec![42];
    shuffle(&mut one, &rng);
    assert_eq!(one, vec![42]);
}

#[test]
fn choose_from_slice_empty_returns_none() {
    let rng = fastrand::Rng::with_seed(21);
    let empty: Vec<u32> = Vec::new();
    assert_eq!(choose_from_slice(&empty, &rng), None);
}

#[test]
fn choose_from_slice_returns_an_element_and_does_not_mutate() {
    let rng = fastrand::Rng::with_seed(22);
    let v = vec![3, 1, 4, 1, 5];
    for _ in 0..100 {
        let got = *choose_from_slice(&v, &rng).unwrap();
        assert!(v.contains(&got));
    }
    assert_eq!(v, vec![3, 1, 4, 1, 5]);
}

#[test]
fn choose_from_slice_uniform() {
    let rng = fastrand::Rng::with_seed(23);
    let v = vec![0u32, 1, 2, 3];
    let mut counts = [0u32; 4];
    for _ in 0..20000 {
        counts[*choose_from_slice(&v, &rng).unwrap() as usize] += 1;
    }
    // expected 5000 per element
    for &c in counts.iter() {
        assert!((4400..=5600).contains(&c), "skewed counts: {counts:?}");
    }
}

#[test]
fn choose_from_slice_mut_empty_returns_none() {
    let rng = fastrand::Rng::with_seed(24);
    let mut empty: Vec<u32> = Vec::new();
    assert_eq!(choose_from_slice_mut(&mut empty, &rng), None);
}

#[test]
fn choose_from_slice_mut_writes_one_position() {
    let rng = fastrand::Rng::with_seed(25);
    for _ in 0..100 {
        let mut v = vec![1u32, 2, 3, 4];
        let before = v.clone();
        *choose_from_slice_mut(&mut v, &rng).unwrap() = 77;
        let changed: Vec<usize> = (0..4).filter(|&i| v[i] != before[i]).collect();
        assert_eq!(changed.len(), 1);
        assert_eq!(v[changed[0]], 77);
    }
}

#[test]
fn one_pass_samplers_do_not_alter_element_values() {
    let rng = fastrand::Rng::with_seed(26);
    let values = [7u32, 8, 9, 10];
    let got = choose_one(seq_capped(&values, 0), &rng).unwrap();
    assert!(values.contains(&got));
    let got = choose_n(seq_capped(&values, 2), &rng, 2);
    for g in got {
        assert!(values.contains(&g));
    }
    let mut buf = vec![0u32; 2];
    choose_n_fill(seq_exact(&values), &rng, &mut buf);
    for b in buf {
        assert!(values.contains(&b));
    }
}
