use brute_match::frequency::calculate_byte_frequencies;
use brute_match::orchestrator::{prepare_workers, worker_seeds};
use brute_match::sampler::{SearchError, WeightedSampler};
use brute_match::window::{same_bytes, SlidingWindow};
use brute_match::worker::{search_stream, MatchResult, SearchWorker, WorkerState};

fn worker_for(target: &[u8], seed: u64) -> SearchWorker {
    let target = target.to_vec();
    let model = calculate_byte_frequencies(&target);
    SearchWorker::new(&target, &model, seed).unwrap()
}

#[test]
fn frequencies_of_hello() {
    let model = calculate_byte_frequencies(b"hello");
    assert_eq!(model.symbols(), &vec![b'e', b'h', b'l', b'o']);
    assert_eq!(model.weights(), &vec![1, 1, 2, 1]);
}

#[test]
fn frequencies_of_empty_payload() {
    let model = calculate_byte_frequencies(&[]);
    assert!(model.symbols().is_empty());
    assert!(model.weights().is_empty());
}

#[test]
fn frequencies_cover_extreme_byte_values() {
    let model = calculate_byte_frequencies(&[255, 0, 255, 255]);
    assert_eq!(model.symbols(), &vec![0, 255]);
    assert_eq!(model.weights(), &vec![1, 3]);
}

#[test]
fn sampler_refuses_empty_model() {
    let model = calculate_byte_frequencies(&[]);
    assert_eq!(WeightedSampler::new(&model, 7).err(), Some(SearchError::ConfigurationError));
}

#[test]
fn sampler_with_one_symbol_always_draws_it() {
    let model = calculate_byte_frequencies(&[0x41]);
    let mut sampler = WeightedSampler::new(&model, 12345).unwrap();
    assert_eq!(sampler.seed(), 12345);
    for _ in 0..1000 {
        assert_eq!(sampler.next_byte(), 0x41);
    }
}

#[test]
fn sampler_draws_only_bytes_of_the_target() {
    let model = calculate_byte_frequencies(b"xyz");
    let mut sampler = WeightedSampler::new(&model, 3).unwrap();
    for _ in 0..1000 {
        let b = sampler.next_byte();
        assert!(b == b'x' || b == b'y' || b == b'z');
    }
}

#[test]
fn sampler_frequencies_follow_the_histogram() {
    // 'a' three times, 'b' once: 'a' should come up about 75% of the time.
    let model = calculate_byte_frequencies(b"abaa");
    let mut sampler = WeightedSampler::new(&model, 99).unwrap();
    let draws = 100_000;
    let mut a = 0u32;
    let mut b = 0u32;
    for _ in 0..draws {
        match sampler.next_byte() {
            b'a' => a += 1,
            b'b' => b += 1,
            other => panic!("unexpected byte {}", other),
        }
    }
    let fa = a as f64 / draws as f64;
    let fb = b as f64 / draws as f64;
    assert!((fa - 0.75).abs() < 0.01, "frequency of a: {}", fa);
    assert!((fb - 0.25).abs() < 0.01, "frequency of b: {}", fb);
}

#[test]
fn sampler_is_deterministic_for_a_seed() {
    let model = calculate_byte_frequencies(b"abcdefgh");
    let mut s1 = WeightedSampler::new(&model, 42).unwrap();
    let mut s2 = WeightedSampler::new(&model, 42).unwrap();
    let a: Vec<u8> = (0..500).map(|_| s1.next_byte()).collect();
    let b: Vec<u8> = (0..500).map(|_| s2.next_byte()).collect();
    assert_eq!(a, b);
    // The draws are not all the same byte.
    assert!(a.iter().any(|&x| x != a[0]));
}

#[test]
fn window_keeps_tail_and_counts_evictions() {
    let mut w = SlidingWindow::new(vec![1, 2, 3]);
    assert!(!w.push_and_check(9));
    assert!(!w.push_and_check(1));
    assert_eq!(w.offset(), 0);
    assert!(!w.push_and_check(2));
    assert_eq!(w.offset(), 0);
    assert_eq!(w.buffer(), &vec![9, 1, 2]);
    assert!(w.push_and_check(3));
    assert_eq!(w.offset(), 1);
    assert_eq!(w.buffer(), &vec![1, 2, 3]);
    assert!(!w.push_and_check(4));
    assert_eq!(w.offset(), 2);
    assert_eq!(w.buffer(), &vec![2, 3, 4]);
    assert_eq!(w.target(), &vec![1, 2, 3]);
}

#[test]
fn window_buffer_never_exceeds_target_length() {
    let mut w = SlidingWindow::new(vec![5, 5]);
    for i in 0..50u8 {
        w.push_and_check(i);
        assert!(w.buffer().len() <= 2);
    }
    assert_eq!(w.offset(), 48);
}

#[test]
fn same_bytes_compares_content_and_length() {
    assert!(same_bytes(&vec![1, 2], &vec![1, 2]));
    assert!(!same_bytes(&vec![1, 2], &vec![1, 3]));
    assert!(!same_bytes(&vec![1, 2], &vec![1, 2, 3]));
    assert!(same_bytes(&vec![], &vec![]));
}

#[test]
fn stream_search_reports_first_match() {
    let r = search_stream(&vec![1, 2], 77, &vec![2, 1, 1, 2, 1, 2]);
    assert_eq!(r, Some(MatchResult { offset: 2, seed: 77, generated: 4 }));
}

#[test]
fn stream_search_without_match() {
    assert_eq!(search_stream(&vec![1, 2], 0, &vec![2, 2, 1]), None);
    assert_eq!(search_stream(&vec![1, 2], 0, &vec![]), None);
}

#[test]
fn stream_search_offset_zero_when_match_fills_window() {
    let r = search_stream(&vec![7, 8, 9], 1, &vec![7, 8, 9, 7]);
    assert_eq!(r, Some(MatchResult { offset: 0, seed: 1, generated: 3 }));
}

#[test]
fn single_byte_target_matches_after_one_byte() {
    for seed in [0u64, 1, 2, 1_000_000, u64::MAX] {
        let mut w = worker_for(&[0x41], seed);
        let r = w.run(u64::MAX);
        assert_eq!(r, Some(MatchResult { offset: 0, seed, generated: 1 }));
        assert_eq!(w.buffer(), &vec![0x41]);
    }
}

#[test]
fn empty_target_starts_no_worker() {
    let target: Vec<u8> = Vec::new();
    let model = calculate_byte_frequencies(&target);
    assert!(matches!(SearchWorker::new(&target, &model, 5), Err(SearchError::ConfigurationError)));
    assert!(matches!(prepare_workers(&target, 5, 4), Err(SearchError::ConfigurationError)));
    assert!(matches!(prepare_workers(&target, 5, 0), Err(SearchError::ConfigurationError)));
}

#[test]
fn match_leaves_window_equal_to_target() {
    let target = b"abc";
    let mut w = worker_for(target, 2024);
    let r = w.run(u64::MAX).unwrap();
    assert_eq!(w.buffer(), &target.to_vec());
    assert_eq!(w.state(), WorkerState::Terminated);
    assert_eq!(r.generated, w.generated());
    assert_eq!(r.offset, r.generated - 3);
    assert_eq!(r.seed, 2024);
}

#[test]
fn repeated_runs_with_one_seed_agree() {
    let target = b"abca";
    let r1 = worker_for(target, 31337).run(u64::MAX);
    let r2 = worker_for(target, 31337).run(u64::MAX);
    assert!(r1.is_some());
    assert_eq!(r1, r2);
}

#[test]
fn two_workers_with_one_seed_report_the_same() {
    let target = b"zzy".to_vec();
    let mut a = prepare_workers(&target, 9, 1).unwrap();
    let mut b = prepare_workers(&target, 9, 1).unwrap();
    let ra = a[0].run(u64::MAX).unwrap();
    let rb = b[0].run(u64::MAX).unwrap();
    assert_eq!(ra.offset, rb.offset);
    assert_eq!(ra.generated, rb.generated);
    assert_eq!(ra, rb);
}

#[test]
fn worker_matches_stream_search_on_its_own_draws() {
    let target = b"abc".to_vec();
    let mut w = worker_for(&target, 11);
    let r = w.run(u64::MAX).unwrap();
    // Redraw the same bytes with a sampler of the same seed.
    let model = calculate_byte_frequencies(&target);
    let mut s = WeightedSampler::new(&model, 11).unwrap();
    let drawn: Vec<u8> = (0..r.generated).map(|_| s.next_byte()).collect();
    assert_eq!(search_stream(&target, 11, &drawn), Some(r));
}

#[test]
fn offset_tracks_generated_bytes() {
    let target = b"abcdefghij".to_vec();
    let mut w = worker_for(&target, 8);
    for _ in 0..25 {
        let before = w.generated();
        if w.run(1).is_some() {
            break;
        }
        assert_eq!(w.generated(), before + 1);
        let g = w.generated();
        assert_eq!(w.offset(), if g >= 10 { g - 10 } else { 0 });
        assert!(w.buffer().len() <= 10);
    }
}

#[test]
fn budget_limits_drawing() {
    let target = vec![0u8, 1, 2, 3, 4, 5, 6, 7, 8, 9, 10, 11, 12, 13, 14, 15];
    let mut w = worker_for(&target, 3);
    assert_eq!(w.run(0), None);
    assert_eq!(w.generated(), 0);
    // A 16-byte target over 16 symbols is practically never hit in 100 draws.
    assert_eq!(w.run(100), None);
    assert_eq!(w.generated(), 100);
    assert_eq!(w.state(), WorkerState::Running);
    assert_eq!(w.offset(), 84);
}

#[test]
fn terminated_worker_reports_once() {
    let mut w = worker_for(&[0x41], 4);
    assert!(w.run(10).is_some());
    assert_eq!(w.run(10), None);
    assert_eq!(w.generated(), 1);
    assert_eq!(w.state(), WorkerState::Terminated);
}

#[test]
fn seeds_are_consecutive() {
    assert_eq!(worker_seeds(10, 4), vec![10, 11, 12, 13]);
    assert_eq!(worker_seeds(10, 0), Vec::<u64>::new());
}

#[test]
fn seeds_wrap_around() {
    assert_eq!(worker_seeds(u64::MAX - 1, 3), vec![u64::MAX - 1, u64::MAX, 0]);
}

#[test]
fn prepared_workers_get_consecutive_seeds() {
    let ws = prepare_workers(&b"hello".to_vec(), 100, 3).unwrap();
    assert_eq!(ws.len(), 3);
    for (i, w) in ws.iter().enumerate() {
        assert_eq!(w.seed(), 100 + i as u64);
        assert_eq!(w.generated(), 0);
        assert_eq!(w.state(), WorkerState::Running);
    }
}

#[test]
fn model_counts_by_byte() {
    let model = calculate_byte_frequencies(b"banana");
    assert_eq!(model.count(b'a'), 3);
    assert_eq!(model.count(b'n'), 2);
    assert_eq!(model.count(b'b'), 1);
    assert_eq!(model.count(b'z'), 0);
    assert_eq!(calculate_byte_frequencies(&[]).count(0), 0);
}
