//! What becomes of a packet.
use custos::bench::packet_of;
use custos::common::OperationMode;
use custos::inspect::{inspect_headers, inspect_packet, relay_packet, settle_packet, Verdict};
use custos::metrics::ThreadStats;
use custos::packet_gen::TrafficProfile;
use custos::protobuf::ValidationConfig;

#[test]
fn only_valid_packets_are_sent_on() {
    let config = ValidationConfig::default();
    for (profile, verdict) in [
        (TrafficProfile::ValidPacked, Verdict::Transmit),
        (TrafficProfile::ValidUnpacked, Verdict::Transmit),
        (TrafficProfile::InvalidShapeValue, Verdict::Recycle),
        (TrafficProfile::BufferUnderflow, Verdict::Recycle),
        (TrafficProfile::WrongPort, Verdict::Recycle),
        (TrafficProfile::BadHttp2, Verdict::Recycle),
    ] {
        for mode in [OperationMode::Forward, OperationMode::Echo] {
            let mut stats = ThreadStats::default();
            let packet = packet_of(profile);
            let mut buf = packet.clone();
            assert_eq!(inspect_packet(&mut stats, &mut buf, &config, mode), verdict);
            let swapped = verdict == Verdict::Transmit && mode == OperationMode::Echo;
            assert_eq!(buf == packet, !swapped);
            assert_eq!(&buf[12..], &packet[12..]);
            assert_eq!(stats.drop_validation_failed, (verdict == Verdict::Recycle) as u64);
        }
    }
}

#[test]
fn sizes_have_four_classes() {
    let mut stats = ThreadStats::default();
    for len in [0usize, 64, 65, 256, 257, 1024, 1025, 5000] {
        let mut buf = vec![0u8; len];
        inspect_packet(
            &mut stats,
            &mut buf,
            &ValidationConfig::default(),
            OperationMode::Forward,
        );
    }
    assert_eq!(stats.hist_payload_0_64, 2);
    assert_eq!(stats.hist_payload_65_256, 2);
    assert_eq!(stats.hist_payload_257_1024, 2);
    assert_eq!(stats.hist_payload_1025_2048, 2);
    assert_eq!(stats.hist_payload_2049_inf, 0);
    assert_eq!(stats.rx_bytes, 7691);
}

#[test]
fn packets_can_be_relayed_unchecked() {
    let mut stats = ThreadStats::default();
    let mut buf: Vec<u8> = (0..14).collect();
    relay_packet(&mut stats, &mut buf, OperationMode::Forward);
    assert_eq!(buf, (0..14).collect::<Vec<u8>>());
    relay_packet(&mut stats, &mut buf, OperationMode::Echo);
    assert_eq!(&buf[..12], &[6, 7, 8, 9, 10, 11, 0, 1, 2, 3, 4, 5]);
    assert_eq!(stats.rx_bytes, 28);
}

#[test]
fn chosen_packets_are_dropped() {
    let mut stats = ThreadStats::default();
    let mut dropped = 0;
    let mut buf = packet_of(TrafficProfile::ValidPacked);
    let error = inspect_headers(&mut stats, &buf, 50051);
    assert_eq!(error, None);
    assert_eq!(
        settle_packet(&mut buf, OperationMode::Echo, error, true, &mut dropped),
        Verdict::Recycle
    );
    assert_eq!(dropped, 1);
    assert_eq!(buf, packet_of(TrafficProfile::ValidPacked));
    assert_eq!(
        settle_packet(&mut buf, OperationMode::Echo, error, false, &mut dropped),
        Verdict::Transmit
    );
    assert_ne!(buf, packet_of(TrafficProfile::ValidPacked));
}
