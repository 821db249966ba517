use line_sampler::reservoir::Reservoir;
use line_sampler::sampler::{sample, sample_text, sample_with_draws, Sampler};
use std::collections::HashSet;

fn lines_of(items: &[&str]) -> Vec<Vec<u8>> {
    items.iter().map(|s| s.as_bytes().to_vec()).collect()
}

fn sorted_lines(text: &[u8]) -> Vec<Vec<u8>> {
    let mut v: Vec<Vec<u8>> = text
        .split(|b| *b == b'\n')
        .map(|l| l.to_vec())
        .collect();
    assert_eq!(v.pop(), Some(Vec::new()));
    v.sort();
    v
}

#[test]
fn scenario_more_slots_than_lines() {
    let out = sample_text(b"a\nb\nc\n", 5);
    assert_eq!(sorted_lines(&out), lines_of(&["a", "b", "c"]));
}

#[test]
fn scenario_empty_input() {
    assert!(sample_text(b"", 10).is_empty());
}

#[test]
fn scenario_single_line() {
    assert_eq!(sample_text(b"only\n", 1), b"only\n".to_vec());
}

#[test]
fn scenario_zero_size() {
    assert!(sample_text(b"a\nb\nc\nd\ne\n", 0).is_empty());
}

#[test]
fn scenario_unterminated_line() {
    assert_eq!(sample_text(b"x", 1), b"x\n".to_vec());
}

#[test]
fn scenario_million_lines() {
    let mut sampler = Sampler::new(100);
    for i in 0..1_000_000u32 {
        sampler.push(i.to_string().into_bytes());
    }
    assert_eq!(sampler.seen(), 1_000_000);
    let out = sampler.finish();
    assert_eq!(out.len(), 100);
    let distinct: HashSet<&Vec<u8>> = out.iter().collect();
    assert_eq!(distinct.len(), 100);
    for line in &out {
        let n: u32 = String::from_utf8(line.clone()).unwrap().parse().unwrap();
        assert!(n < 1_000_000);
    }
}

#[test]
fn count_is_min_of_lines_and_size() {
    let input = lines_of(&["1", "2", "3", "4", "5", "6", "7"]);
    for k in 0..10usize {
        assert_eq!(sample(&input, k).len(), k.min(7));
    }
    assert_eq!(sample(&Vec::new(), 3).len(), 0);
}

#[test]
fn every_sampled_line_is_from_input() {
    let input = lines_of(&["red", "green", "blue", "cyan", "red"]);
    for k in 0..7usize {
        for line in sample(&input, k) {
            assert!(input.contains(&line));
        }
    }
}

#[test]
fn large_size_keeps_everything_and_sorts_alike() {
    let input = lines_of(&["d", "b", "a", "b", "c"]);
    let mut out = sample(&input, 5);
    assert_eq!(out, input);
    out.sort();
    let mut sorted = input.clone();
    sorted.sort();
    assert_eq!(out, sorted);
}

#[test]
fn size_zero_gives_nothing() {
    let input = lines_of(&["a", "b", "c"]);
    assert!(sample(&input, 0).is_empty());
}

#[test]
fn size_one_gives_one_line() {
    let input = lines_of(&["a", "b", "c", "d"]);
    let out = sample(&input, 1);
    assert_eq!(out.len(), 1);
    assert!(input.contains(&out[0]));
}

#[test]
fn draws_decide_replacement() {
    let input = lines_of(&["a", "b", "c", "d", "e"]);
    // d (index 3) draws 0: replaces slot 0; e (index 4) draws 4: dropped.
    assert_eq!(sample_with_draws(&input, &[0, 0, 0, 0, 4], 2), lines_of(&["d", "b"]));
    // c draws 1: slot 1; d draws 3: dropped; e draws 0: slot 0.
    assert_eq!(sample_with_draws(&input, &[0, 1, 1, 3, 0], 2), lines_of(&["e", "c"]));
    assert_eq!(sample_with_draws(&input, &[0, 1, 2, 3, 4], 2), lines_of(&["a", "b"]));
    assert_eq!(sample_with_draws(&input, &[0, 0, 0, 0, 0], 0), Vec::<Vec<u8>>::new());
    assert_eq!(sample_with_draws(&input, &[0, 1, 2, 3, 4], 9), input);
}

#[test]
fn reservoir_offer_fills_then_replaces() {
    let mut r = Reservoir::new(2);
    assert_eq!(r.capacity(), 2);
    assert!(!r.needs_draw());
    r.offer(b"a".to_vec(), 0);
    r.offer(b"b".to_vec(), 0);
    assert!(r.needs_draw());
    assert_eq!(r.len(), 2);
    r.offer(b"c".to_vec(), 1);
    r.offer(b"d".to_vec(), 2);
    assert_eq!(r.seen(), 4);
    assert_eq!(r.into_lines(), lines_of(&["a", "c"]));
}

#[test]
fn selection_frequencies_are_uniform() {
    let n = 10usize;
    let k = 3usize;
    let trials = 20_000usize;
    let input: Vec<Vec<u8>> = (0..n).map(|i| vec![i as u8]).collect();
    let mut single = vec![0usize; n];
    let mut pair_01 = 0usize;
    for _ in 0..trials {
        let out = sample(&input, k);
        assert_eq!(out.len(), k);
        for line in &out {
            single[line[0] as usize] += 1;
        }
        if out.contains(&vec![0u8]) && out.contains(&vec![1u8]) {
            pair_01 += 1;
        }
    }
    let t = trials as f64;
    let p = k as f64 / n as f64;
    let tol = 5.0 * (p * (1.0 - p) / t).sqrt();
    for count in &single {
        assert!((*count as f64 / t - p).abs() < tol, "frequency {}", count);
    }
    let q = (k * (k - 1)) as f64 / (n * (n - 1)) as f64;
    let tol_q = 5.0 * (q * (1.0 - q) / t).sqrt();
    assert!((pair_01 as f64 / t - q).abs() < tol_q, "pair frequency {}", pair_01);
}

#[test]
fn repeated_runs_differ() {
    let input: Vec<Vec<u8>> = (0..1000u32).map(|i| i.to_string().into_bytes()).collect();
    let first = sample(&input, 10);
    let mut differs = false;
    for _ in 0..20 {
        if sample(&input, 10) != first {
            differs = true;
        }
    }
    assert!(differs);
}
