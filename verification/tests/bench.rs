use rust_rdma_bench::bench::bandwidth::{drain_step, warmup_count, WARMUP_ITERS};
use rust_rdma_bench::bench::latency::{another_round_follows, Wait, WaitStep, WR_RECV, WR_SEND};
use rust_rdma_bench::bench::rdma::responder_window;
use rust_rdma_bench::bench::window::{Posts, Step, Stream};
use rust_rdma_bench::bench::{supported, window, Role};
use rust_rdma_bench::cli::{Mode, Transport};

#[test]
fn supported_combinations() {
    for m in [Mode::Bandwidth, Mode::Latency, Mode::Accuracy, Mode::RdmaWrite, Mode::RdmaRead] {
        assert!(!supported(Transport::Ud, m));
        assert!(supported(Transport::Rc, m));
    }
    assert!(!supported(Transport::Uc, Mode::RdmaRead));
    assert!(supported(Transport::Uc, Mode::RdmaWrite));
    assert!(supported(Transport::Uc, Mode::Accuracy));
}

#[test]
fn warmup_is_bounded_by_every_depth() {
    assert_eq!(warmup_count(1000, 32, 32), 32);
    assert_eq!(warmup_count(1000, 1000, 1000), WARMUP_ITERS);
    assert_eq!(warmup_count(5, 32, 32), 5);
    assert_eq!(warmup_count(1000, 32, 7), 7);
}

#[test]
fn draining() {
    assert_eq!(drain_step(10, 3), 7);
    assert_eq!(drain_step(3, 10), 0);
}

#[test]
fn shared_window() {
    assert_eq!(window(32, 1000), 32);
    assert_eq!(window(0, 1000), 1);
    assert_eq!(window(32, 5), 5);
}

#[test]
fn stream_keeps_window_full() {
    let (mut s, first) = Stream::new(10, 4);
    assert_eq!(first, Posts { first: 0, count: 4 });
    assert_eq!(s.on_completions(3), Posts { first: 4, count: 3 });
    assert_eq!(s.posted(), 7);
    assert_eq!(s.on_completions(4), Posts { first: 7, count: 3 });
    assert_eq!(s.posted(), 10);
    assert!(!s.is_done());
    assert_eq!(s.missing(), 3);
    assert_eq!(s.on_completions(3), Posts { first: 10, count: 0 });
    assert!(s.is_done());
    assert_eq!(s.completed(), 10);
    assert_eq!(s.missing(), 0);
}

#[test]
fn stream_shorter_than_window() {
    let (s, first) = Stream::new(3, 32);
    assert_eq!(first, Posts { first: 0, count: 3 });
    assert_eq!(s.posted(), 3);
}

#[test]
fn receiver_gives_up_when_idle() {
    let (mut s, _) = Stream::new(10, 4);
    assert_eq!(s.on_poll(0, false), Step::Wait);
    assert_eq!(s.on_poll(2, false), Step::Refill(Posts { first: 4, count: 2 }));
    assert_eq!(s.on_poll(0, true), Step::GiveUp);
    assert_eq!(s.completed(), 2);
}

#[test]
fn ping_waits_for_send_and_echo() {
    let mut w = Wait::new(WR_SEND | WR_RECV);
    assert!(w.clock_due());
    assert_eq!(w.after_poll(&vec![WR_SEND], false), WaitStep::Continue);
    assert_eq!(w.remaining(), WR_RECV);
    assert!(!w.clock_due());
    assert_eq!(w.after_poll(&vec![], true), WaitStep::Continue);
    assert_eq!(w.after_poll(&vec![WR_RECV], false), WaitStep::Satisfied);
    assert!(w.is_satisfied());
}

#[test]
fn wait_times_out_on_clock_polls() {
    let mut w = Wait::new(WR_RECV);
    assert_eq!(w.after_poll(&vec![], true), WaitStep::TimedOut);
    let mut w = Wait::new(WR_RECV);
    for _ in 0..100 {
        assert_eq!(w.after_poll(&vec![], false), WaitStep::Continue);
    }
    assert!(w.clock_due());
    assert_eq!(w.after_poll(&vec![], true), WaitStep::TimedOut);
}

#[test]
fn next_echo_receive() {
    assert!(another_round_follows(0, 2));
    assert!(!another_round_follows(1, 2));
    assert!(!another_round_follows(5, 2));
}

#[test]
fn rdma_responder() {
    assert_eq!(responder_window(Role::Server, 16, 1000).unwrap(), 16);
    assert_eq!(responder_window(Role::Server, 0, 1000).unwrap(), 1);
    let e = responder_window(Role::Client, 16, 1000).unwrap_err();
    assert!(e.starts_with("this build of rust-rdma-bench cannot initiate RDMA WRITE/READ"));
}
