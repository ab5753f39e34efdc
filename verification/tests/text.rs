use rust_rdma_bench::cli::Mode;
use rust_rdma_bench::report::header;
use rust_rdma_bench::text::{push_decimal, push_right_aligned};

#[test]
fn decimal_numbers() {
    for n in [0usize, 7, 10, 99, 100, 18515, 65536, usize::MAX] {
        let mut s = String::from("x=");
        push_decimal(&mut s, n);
        assert_eq!(s, format!("x={n}"));
    }
}

#[test]
fn right_alignment() {
    let mut s = String::new();
    push_right_aligned(&mut s, "ab", 5);
    assert_eq!(s, "   ab");
    let mut t = String::from("|");
    push_right_aligned(&mut t, "toolong", 3);
    assert_eq!(t, "|toolong");
}

#[test]
fn bandwidth_header() {
    let want = format!(
        "{:>8}  {:>12}  {:>10}  {:>18}  {:>14}",
        "#bytes", "#iterations", "tx_depth", "BW avg[Gb/sec]", "MsgRate[Mpps]"
    );
    assert_eq!(header(Mode::Bandwidth), want);
    assert_eq!(header(Mode::RdmaWrite), want);
    assert_eq!(header(Mode::RdmaRead), want);
}

#[test]
fn latency_header() {
    let want = format!(
        "{:>8}  {:>12}  {:>12}  {:>12}  {:>16}  {:>12}  {:>14}  {:>10}  {:>12}",
        "#bytes",
        "#iterations",
        "t_min[usec]",
        "t_max[usec]",
        "t_typical[usec]",
        "t_avg[usec]",
        "t_stdev[usec]",
        "99%[usec]",
        "99.9%[usec]"
    );
    assert_eq!(header(Mode::Latency), want);
}

#[test]
fn accuracy_header() {
    let want = format!(
        "{:>8}  {:>12}  {:>10}  {:>8}  {:>6}  {:>10}  {:>12}  {:>12}",
        "#bytes",
        "#iterations",
        "#received",
        "#lost",
        "#dup",
        "#corrupt",
        "ByteAcc[%]",
        "BitAcc[%]"
    );
    assert_eq!(header(Mode::Accuracy), want);
}
