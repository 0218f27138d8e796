//! Workers without privileges.
use custos::bench::packet_of;
use custos::k8s::{
    check_descriptors, check_peer, frame_line, receive_socket_fd, ring_map, LineReader, RelayLoop,
    RelayTask, RingKind, WorkerConfig,
};
use custos::packet_gen::TrafficProfile;
use custos::tx::FrameDesc;

#[test]
fn handing_over() {
    assert_eq!(
        receive_socket_fd("/var/run/custos.sock"),
        Err("Not implemented".to_string())
    );
    assert_eq!(check_peer(0), Ok(()));
    assert_eq!(check_peer(10001), Ok(()));
    assert_eq!(check_peer(65534), Ok(()));
    assert_eq!(
        check_peer(1000),
        Err("Unauthorized peer connection from UID 1000".to_string())
    );
    assert_eq!(check_descriptors(2), Ok(()));
    assert_eq!(
        check_descriptors(1),
        Err("Failed to receive both socket and memfd file descriptors".to_string())
    );
}

#[test]
fn settings_of_a_worker() {
    let config = WorkerConfig::for_rings(16, 2048, 3, 8001);
    assert_eq!(config.rx_size, 16);
    assert_eq!(config.tx_size, 16);
    assert_eq!(config.fill_size, 16);
    assert_eq!(config.comp_size, 16);
    assert_eq!(config.queue_id, 3);
    assert_eq!(config.mode, "forward");
    assert_eq!(config.umem_size(), 32768);
    assert_eq!(config.rules().target_port, 8001);
    assert_eq!(config.rules().max_dimensions, 4);
    let addrs = config.initial_fill(16).unwrap();
    assert_eq!(addrs.len(), 16);
    assert_eq!(addrs[15], 15 * 2048);
    assert_eq!(
        config.initial_fill(15),
        Err("Failed to populate initial Fill ring slots".to_string())
    );
}

#[test]
fn a_line_is_read_back() {
    let line = frame_line(b"{\"frame_count\":1}");
    let mut reader = LineReader::new();
    let mut read = 0;
    for byte in line.iter().chain(b"rest".iter()) {
        read += 1;
        if reader.push(*byte) {
            break;
        }
    }
    assert_eq!(read, line.len());
    assert_eq!(
        reader.chars().iter().collect::<String>(),
        "{\"frame_count\":1}\n"
    );
}

#[test]
fn rings_are_mapped_side_by_side() {
    let rx = ring_map(RingKind::Rx, 320, 2048);
    assert_eq!((rx.len, rx.page_offset, rx.mask), (320 + 32768, 0, 2047));
    assert_eq!(ring_map(RingKind::Tx, 320, 8).page_offset, 0x80000000);
    let fill = ring_map(RingKind::Fill, 320, 2048);
    assert_eq!((fill.len, fill.page_offset), (320 + 16384, 0x100000000));
    assert_eq!(
        ring_map(RingKind::Completion, 0, 1).page_offset,
        0x180000000
    );
}

#[test]
fn a_turn_sends_or_drops_every_packet() {
    let config = WorkerConfig::for_rings(16, 2048, 0, 50051).rules();
    let mut relay = RelayLoop::new(true);
    let frames = [
        FrameDesc::new(0, 76),
        FrameDesc::new(2048, 76),
        FrameDesc::new(4096, 76),
    ];
    let mut packets = [
        packet_of(TrafficProfile::ValidPacked),
        packet_of(TrafficProfile::WrongPort),
        packet_of(TrafficProfile::ValidPacked),
    ];
    assert_eq!(relay.task(), RelayTask::Peek);
    relay.peeked(&frames);
    // The first is sent, with its addresses swapped.
    assert_eq!(relay.task(), RelayTask::Inspect);
    relay.inspect(&mut packets[0], &config);
    assert_eq!(relay.task(), RelayTask::Send);
    assert_eq!(relay.current(), frames[0]);
    assert_eq!(&packets[0][0..6], &[2, 0, 0, 0, 0, 1]);
    relay.send_slot(true);
    // The second is not valid.
    relay.inspect(&mut packets[1], &config);
    assert_eq!(relay.task(), RelayTask::GiveBack);
    assert_eq!(packets[1], packet_of(TrafficProfile::WrongPort));
    relay.given_back();
    // For the third there is no slot.
    relay.inspect(&mut packets[2], &config);
    relay.send_slot(false);
    assert_eq!(relay.task(), RelayTask::GiveBack);
    assert_eq!(relay.current(), frames[2]);
    relay.given_back();
    assert_eq!(relay.task(), RelayTask::Release(3));
    relay.done();
    assert_eq!(relay.task(), RelayTask::Complete);
    relay.found_completed(&[0]);
    assert_eq!(relay.task(), RelayTask::Refill);
    assert_eq!(relay.completed(), &[0]);
    relay.refilled(1);
    assert_eq!(relay.task(), RelayTask::CheckTx);
    relay.wakeup_needed(true);
    assert_eq!(relay.task(), RelayTask::WakeTx);
    relay.done();
    assert_eq!(relay.task(), RelayTask::CheckFill);
    relay.wakeup_needed(false);
    assert_eq!(relay.task(), RelayTask::Report);
    relay.done();
    assert_eq!(relay.task(), RelayTask::Peek);
    let counts = relay.counts();
    assert_eq!(counts.rx_packets, 3);
    assert_eq!(counts.tx_packets, 1);
    assert_eq!(counts.drop_packets, 2);
    assert_eq!(counts.recycled_packets, 1);
}

#[test]
fn a_reader_holds_the_first_line() {
    for (bytes, held) in [
        (&b"one\ntwo\n"[..], "one\n"),
        (&b"\ntwo"[..], "\n"),
        (&b"no end"[..], "no end"),
        (&b""[..], ""),
    ] {
        let mut reader = LineReader::new();
        for byte in bytes {
            if reader.push(*byte) {
                break;
            }
        }
        assert_eq!(reader.chars().iter().collect::<String>(), held);
    }
}
