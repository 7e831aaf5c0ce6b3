use chess::{arrange_samples, Benchmark, BenchmarkResult};

#[test]
fn benchmark_builder_defaults_and_settings() {
    let b: Benchmark<fn(&u32)> = Benchmark::new();
    assert!(b.sizes.is_none());
    assert!(b.threads.is_none());
    assert_eq!(b.runs, 20);
    assert!(b.functions.is_empty());
    fn noop(_: &u32) {}
    let b = b.sizes(vec![8, 16]).threads(vec![1, 2]).runs(3).add_function(noop, "noop".to_string());
    assert_eq!(b.sizes, Some(vec![8, 16]));
    assert_eq!(b.threads, Some(vec![1, 2]));
    assert_eq!(b.runs, 3);
    assert_eq!(b.functions.len(), 1);
    assert_eq!(b.functions[0].0, "noop");
}

#[test]
fn benchmark_result_keeps_axes() {
    let r = BenchmarkResult::new(vec![vec![vec![vec![5, 6]]]], vec!["a".to_string(), "b".to_string()], vec![1], vec![8]);
    assert_eq!(r.data[0][0][0], vec![5, 6]);
    assert_eq!(r.functions, vec!["a", "b"]);
    assert_eq!(r.threads, vec![1]);
    assert_eq!(r.sizes, vec![8]);
}

#[test]
fn samples_are_arranged_by_thread_size_run_function() {
    let samples: Vec<u64> = (0..24).collect();
    let data = arrange_samples(&samples, 2, 3, 2, 2).unwrap();
    assert_eq!(data.len(), 2);
    for a in 0..2 {
        assert_eq!(data[a].len(), 3);
        for b in 0..3 {
            assert_eq!(data[a][b].len(), 2);
            for c in 0..2 {
                assert_eq!(data[a][b][c].len(), 2);
                for d in 0..2 {
                    assert_eq!(data[a][b][c][d], (((a * 3 + b) * 2 + c) * 2 + d) as u64);
                }
            }
        }
    }
    assert_eq!(data[1][2][1], vec![22, 23]);
}

#[test]
fn wrong_number_of_samples_is_refused() {
    let samples: Vec<u64> = vec![1, 2, 3];
    assert!(arrange_samples(&samples, 2, 1, 1, 2).is_none());
    assert!(arrange_samples(&samples, usize::MAX, usize::MAX, 2, 1).is_none());
    let empty: Vec<u64> = Vec::new();
    assert_eq!(arrange_samples(&empty, 0, 5, 5, 5), Some(Vec::new()));
    assert!(arrange_samples(&empty, 1, 1, 1, 1).is_none());
    assert_eq!(arrange_samples(&vec![7], 1, 1, 1, 1), Some(vec![vec![vec![vec![7]]]]));
}
