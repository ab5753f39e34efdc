use rust_rdma_bench::cli::{power_of_two_sizes, ClientArgs, Mode, Plan, Transport};

fn args(mode: Vec<Mode>, size: Vec<usize>) -> ClientArgs {
    ClientArgs {
        host: "127.0.0.1".to_string(),
        port: 18515,
        device: None,
        transport: Transport::Rc,
        mode,
        size,
        min_size: 8,
        max_size: 1 << 16,
        iterations: 1000,
        tx_depth: 32,
    }
}

#[test]
fn mode_names() {
    assert_eq!(Mode::Bandwidth.name(), "bandwidth");
    assert_eq!(Mode::Latency.name(), "latency");
    assert_eq!(Mode::Accuracy.name(), "accuracy");
    assert_eq!(Mode::RdmaWrite.name(), "rdma-write");
    assert_eq!(Mode::RdmaRead.name(), "rdma-read");
}

#[test]
fn mode_min_sizes() {
    assert_eq!(Mode::Accuracy.min_msg_size(), 8);
    assert_eq!(Mode::Bandwidth.min_msg_size(), 1);
    assert_eq!(Mode::Latency.min_msg_size(), 1);
    assert_eq!(Mode::RdmaRead.min_msg_size(), 1);
}

#[test]
fn suite_order() {
    assert_eq!(Mode::all(), vec![Mode::Bandwidth, Mode::Latency, Mode::Accuracy]);
}

#[test]
fn sweep_rounds_bounds_inwards() {
    assert_eq!(
        power_of_two_sizes(4000, 100000).unwrap(),
        vec![4096, 8192, 16384, 32768, 65536]
    );
}

#[test]
fn sweep_default_bounds() {
    let v = power_of_two_sizes(8, 1 << 16).unwrap();
    assert_eq!(v.len(), 14);
    assert_eq!(v[0], 8);
    assert_eq!(v[13], 65536);
}

#[test]
fn sweep_single_point() {
    assert_eq!(power_of_two_sizes(1, 1).unwrap(), vec![1]);
    assert_eq!(power_of_two_sizes(3, 4).unwrap(), vec![4]);
}

#[test]
fn sweep_errors() {
    assert_eq!(power_of_two_sizes(0, 10).unwrap_err(), "--min-size must be greater than zero");
    assert_eq!(
        power_of_two_sizes(10, 5).unwrap_err(),
        "--max-size must not be smaller than --min-size"
    );
    assert_eq!(
        power_of_two_sizes(5, 7).unwrap_err(),
        "no power-of-two message size lies between 5 and 7"
    );
    assert_eq!(
        power_of_two_sizes(usize::MAX, usize::MAX).unwrap_err(),
        format!("no power-of-two message size lies between {} and {}", usize::MAX, usize::MAX)
    );
}

#[test]
fn sweep_top_of_range() {
    let top = 1usize << (usize::BITS - 1);
    assert_eq!(power_of_two_sizes(top, usize::MAX).unwrap(), vec![top]);
    assert_eq!(power_of_two_sizes(top - 1, usize::MAX).unwrap(), vec![top]);
}

#[test]
fn plan_defaults_to_full_suite() {
    let p = args(vec![], vec![]).plan().unwrap();
    assert_eq!(p.modes, vec![Mode::Bandwidth, Mode::Latency, Mode::Accuracy]);
    assert_eq!(p.sizes, (3..=16).map(|k| 1usize << k).collect::<Vec<_>>());
    assert!(!p.is_single_run());
}

#[test]
fn plan_sorts_and_dedups_sizes() {
    let p = args(vec![Mode::Latency], vec![3, 1, 3, 2, 4096, 1]).plan().unwrap();
    assert_eq!(p.modes, vec![Mode::Latency]);
    assert_eq!(p.sizes, vec![1, 2, 3, 4096]);
}

#[test]
fn plan_keeps_mode_order() {
    let p = args(vec![Mode::Accuracy, Mode::Bandwidth], vec![64]).plan().unwrap();
    assert_eq!(p.modes, vec![Mode::Accuracy, Mode::Bandwidth]);
}

#[test]
fn plan_rejects_zero_iterations() {
    let mut a = args(vec![], vec![]);
    a.iterations = 0;
    assert_eq!(a.plan().err().unwrap(), "--iterations must be greater than zero");
}

#[test]
fn plan_rejects_zero_size() {
    let a = args(vec![Mode::Bandwidth], vec![5, 0, 7]);
    assert_eq!(a.plan().err().unwrap(), "--size must be greater than zero");
}

#[test]
fn plan_propagates_sweep_error() {
    let mut a = args(vec![], vec![]);
    a.min_size = 0;
    assert_eq!(a.plan().err().unwrap(), "--min-size must be greater than zero");
    a.min_size = 100;
    a.max_size = 120;
    assert_eq!(
        a.plan().err().unwrap(),
        "no power-of-two message size lies between 100 and 120"
    );
}

#[test]
fn single_run_detection() {
    let single = Plan { modes: vec![Mode::Accuracy], sizes: vec![4] };
    assert!(single.is_single_run());
    let sweep = Plan { modes: vec![Mode::Accuracy], sizes: vec![4, 8] };
    assert!(!sweep.is_single_run());
}

#[test]
fn single_run_is_run_as_asked() {
    let single = Plan { modes: vec![Mode::Accuracy], sizes: vec![4] };
    assert_eq!(single.runs(), vec![(Mode::Accuracy, 4)]);
}

#[test]
fn sweep_skips_sizes_a_mode_cannot_use() {
    let p = Plan {
        modes: vec![Mode::Bandwidth, Mode::Accuracy],
        sizes: vec![1, 4, 8, 16],
    };
    assert_eq!(
        p.runs(),
        vec![
            (Mode::Bandwidth, 1),
            (Mode::Bandwidth, 4),
            (Mode::Bandwidth, 8),
            (Mode::Bandwidth, 16),
            (Mode::Accuracy, 8),
            (Mode::Accuracy, 16),
        ]
    );
}
