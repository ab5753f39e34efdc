use rust_rdma_bench::cli::{ClientArgs, Mode, Transport};
use rust_rdma_bench::comm::{
    accept_ack, cq_capacity, line_is_message, rejection, BenchmarkRequest, Endpoint, HandshakeAck,
};
use rust_rdma_bench::device::pick_device;

fn req(transport: Transport, mode: Mode) -> BenchmarkRequest {
    BenchmarkRequest { transport, mode, msg_size: 64, iterations: 10, tx_depth: 4 }
}

#[test]
fn unsupported_requests_are_refused() {
    assert_eq!(
        rejection(&req(Transport::Ud, Mode::Bandwidth)).unwrap(),
        "Ud/Bandwidth is not implemented yet"
    );
    assert_eq!(
        rejection(&req(Transport::Uc, Mode::RdmaRead)).unwrap(),
        format!("{:?}/{:?} is not implemented yet", "Uc", "RdmaRead").replace('"', "")
    );
    assert!(rejection(&req(Transport::Rc, Mode::Accuracy)).is_none());
}

#[test]
fn client_reads_the_answer() {
    let ep = Endpoint { num: 7, lid: 3, gid: Some([1; 16]) };
    assert_eq!(accept_ack(HandshakeAck::Accept { endpoint: ep }).unwrap(), ep);
    assert_eq!(
        accept_ack(HandshakeAck::Unsupported("Ud/Latency is not implemented yet".into()))
            .unwrap_err(),
        "server rejected benchmark request: Ud/Latency is not implemented yet"
    );
}

#[test]
fn request_for_a_run() {
    let args = ClientArgs {
        host: "h".into(),
        port: 1,
        device: None,
        transport: Transport::Uc,
        mode: vec![],
        size: vec![],
        min_size: 8,
        max_size: 16,
        iterations: 99,
        tx_depth: 5,
    };
    let r = BenchmarkRequest::for_run(&args, Mode::Latency, 512);
    assert_eq!(
        r,
        BenchmarkRequest {
            transport: Transport::Uc,
            mode: Mode::Latency,
            msg_size: 512,
            iterations: 99,
            tx_depth: 5
        }
    );
}

#[test]
fn completion_queue_size() {
    assert_eq!(cq_capacity(32), Some(64));
    assert_eq!(cq_capacity(0), Some(0));
    assert_eq!(cq_capacity(usize::MAX), None);
    assert_eq!(cq_capacity((i32::MAX / 2) as usize), Some(i32::MAX - 1));
    assert_eq!(cq_capacity((i32::MAX / 2) as usize + 1), None);
}

#[test]
fn closed_connection_line() {
    assert!(!line_is_message(""));
    assert!(line_is_message("{}\n"));
}

#[test]
fn device_choice() {
    let names = vec![Some("mlx4_0".to_string()), None, Some("rxe0".to_string())];
    assert_eq!(pick_device(&names, None), Ok(0));
    assert_eq!(pick_device(&names, Some("rxe0")), Ok(2));
    assert_eq!(
        pick_device(&names, Some("rxe9")),
        Err("no RDMA device named 'rxe9' found".to_string())
    );
    assert_eq!(pick_device(&vec![], None), Err("no RDMA device available".to_string()));
}
