//! The benchmark: mixes of traffic, counting and reporting.
use custos::bench::{
    count_deltas, next_wire_packet, packet_gap_nanos, packet_of, pause_nanos,
    render_bench_metrics, run_in_memory_validation, run_packet, run_worker_turn, session_over,
    BenchCounters, CustosMetrics, PerformanceHistory, TestProfile, BURST_CYCLE,
};
use custos::packet_gen::TrafficProfile;
use custos::protobuf::ValidationConfig;

#[test]
fn rates_and_workers() {
    assert_eq!(TestProfile::Light.target_pps(None), 10_000);
    assert_eq!(TestProfile::HeavyBurst.target_pps(None), 1_000_000);
    assert_eq!(TestProfile::Sustained.target_pps(None), 1_000_000);
    assert_eq!(TestProfile::Light.target_pps(Some(7)), 7);
    assert_eq!(TestProfile::HeavyBurst.num_workers(), 4);
    assert_eq!(TestProfile::HeavyBurst.worker_rate(None), 250_000);
    assert_eq!(TestProfile::Sustained.worker_rate(Some(7)), 3);
}

#[test]
fn rolls_pick_kinds_of_packets() {
    assert_eq!(
        TestProfile::Light.choose_in_memory(94),
        TrafficProfile::ValidPacked
    );
    assert_eq!(
        TestProfile::Light.choose_in_memory(95),
        TrafficProfile::WrongPort
    );
    assert_eq!(
        TestProfile::HeavyBurst.choose_in_memory(92),
        TrafficProfile::BadTcpChecksum
    );
    assert_eq!(
        TestProfile::HeavyBurst.choose_in_capture(95),
        TrafficProfile::BadTcpChecksum
    );
    assert_eq!(
        TestProfile::Sustained.choose_in_memory(99),
        TrafficProfile::RecursionLimitExceeded
    );
    assert_eq!(
        TestProfile::HeavyBurst.choose_on_wire(80),
        TrafficProfile::InvalidShapeValue
    );
    assert_eq!(
        TestProfile::Light.choose_in_capture(95),
        TrafficProfile::WrongPort
    );
}

#[test]
fn mixes_have_the_same_share_of_valid_packets_everywhere() {
    let sound = |kind: TrafficProfile| {
        kind == TrafficProfile::ValidPacked || kind == TrafficProfile::ValidUnpacked
    };
    for (profile, share) in [
        (TestProfile::Light, 95),
        (TestProfile::HeavyBurst, 80),
        (TestProfile::Sustained, 90),
    ] {
        let count = |choose: &dyn Fn(u32) -> TrafficProfile| {
            (0..100).filter(|roll| sound(choose(*roll))).count()
        };
        assert_eq!(count(&|roll| profile.choose_in_memory(roll)), share);
        assert_eq!(count(&|roll| profile.choose_on_wire(roll)), share);
        assert_eq!(count(&|roll| profile.choose_in_capture(roll)), share);
    }
}

#[test]
fn bursts_leap_and_keep_to_the_mean() {
    let burst = TestProfile::HeavyBurst;
    assert_eq!(burst.slot_rate(None, 0), 1_250_000);
    assert_eq!(burst.slot_rate(None, 8), 1_250_000);
    assert_eq!(burst.slot_rate(None, 9), 25_000);
    assert_eq!(burst.slot_rate(None, 48), 25_000);
    assert_eq!(burst.slot_rate(None, 49), 1_250_000);
    assert_eq!(burst.slot_rate(Some(400), 0), 100);
    for profile in [
        TestProfile::Light,
        TestProfile::HeavyBurst,
        TestProfile::Sustained,
    ] {
        let sum: u64 = (98..147).map(|slot| profile.slot_rate(None, slot)).sum();
        assert_eq!(
            sum * profile.num_workers() as u64,
            BURST_CYCLE * profile.target_pps(None)
        );
    }
}

#[test]
fn pauses_keep_to_the_rate() {
    // A hundred packets at 10,000 in a second take 10 ms.
    assert_eq!(pause_nanos(4_000_000, 10_000), 6_000_000);
    assert_eq!(pause_nanos(10_000_000, 10_000), 0);
    assert_eq!(packet_gap_nanos(500_000), 2_000);
    assert!(!session_over(19, 10));
    assert!(session_over(20, 10));
    assert!(session_over(0, 0));
}

#[test]
fn packets_are_validated_and_counted() {
    let config = ValidationConfig::default();
    let packet = packet_of(TrafficProfile::ValidPacked);
    let (shape, len) = run_in_memory_validation(&packet, &config).unwrap();
    assert_eq!(&shape[..len], &[1, 3, 224, 224]);

    let mut counters = BenchCounters::new();
    run_packet(&mut counters, &config, TrafficProfile::ValidPacked);
    run_packet(&mut counters, &config, TrafficProfile::WrongPort);
    run_packet(&mut counters, &config, TrafficProfile::InvalidVarint);
    let m = counters.snapshot();
    assert_eq!(m.rx_packets, 3);
    assert_eq!(m.tx_packets, 1);
    assert_eq!(m.drop_validation_failed, 2);
    assert_eq!(m.protocol_counts.protobuf, 1);
    assert_eq!(m.parser_failures.wrong_port, 1);
    assert_eq!(m.anomalies.invalid_varint, 1);
    assert_eq!(m.rx_bytes, 76 + 76 + 80);
}

#[test]
fn every_packet_is_sent_or_dropped() {
    let config = ValidationConfig::default();
    for profile in [
        TestProfile::Light,
        TestProfile::HeavyBurst,
        TestProfile::Sustained,
    ] {
        let mut counters = BenchCounters::new();
        for _ in 0..500 {
            run_worker_turn(&mut counters, &config, profile);
        }
        let m = counters.snapshot();
        assert_eq!(m.rx_packets, 500);
        assert_eq!(m.tx_packets + m.drop_validation_failed, 500);
        assert!(m.tx_packets > 0);
    }
}

#[test]
fn wire_packets_are_of_the_kinds_of_their_mix() {
    let valid = packet_of(TrafficProfile::ValidPacked);
    let invalid = packet_of(TrafficProfile::InvalidShapeValue);
    let mut seen = [0u32; 2];
    for _ in 0..2000 {
        let packet = next_wire_packet(TestProfile::HeavyBurst);
        if packet == valid {
            seen[0] += 1;
        } else if packet == invalid {
            seen[1] += 1;
        } else {
            panic!("a packet of another kind");
        }
    }
    assert!(seen[0] > 0 && seen[1] > 0);
    let wrong_port = packet_of(TrafficProfile::WrongPort);
    for _ in 0..200 {
        let packet = next_wire_packet(TestProfile::Light);
        assert!(packet == valid || packet == wrong_port);
    }
}

#[test]
fn sent_packets_are_counted() {
    let mut counters = BenchCounters::new();
    counters.record_sent(100);
    counters.record_sent(50);
    let m = counters.snapshot();
    assert_eq!((m.tx_packets, m.tx_bytes), (2, 150));
}

#[test]
fn deltas_do_not_fall_below_zero() {
    let mut last = CustosMetrics::default();
    let mut now = CustosMetrics::default();
    last.rx_packets = 10;
    now.rx_packets = 25;
    last.tx_bytes = 10;
    now.tx_bytes = 5;
    let d = count_deltas(&now, &last);
    assert_eq!(d.rx_packets, 15);
    assert_eq!(d.tx_bytes, 0);
}

#[test]
fn a_full_history_slides() {
    let mut history = PerformanceHistory::new(3, 0.0f64);
    assert_eq!(history.rx_pps, vec![0.0, 0.0, 0.0]);
    history.push(1.0, 2.0, 3.0);
    history.push(4.0, 5.0, 6.0);
    assert_eq!(history.rx_pps, vec![0.0, 1.0, 4.0]);
    assert_eq!(history.rx_gbps, vec![0.0, 2.0, 5.0]);
    assert_eq!(history.drop_pps, vec![0.0, 3.0, 6.0]);
}

#[test]
fn report_as_prometheus_text() {
    let mut m = CustosMetrics::default();
    m.rx_packets = 12;
    m.protocol_counts.protobuf = 5;
    let text = render_bench_metrics(&m, "1.50", "0.25");
    assert!(text.starts_with(
        "# HELP custos_rx_packets Total number of packets received by the interface\n\
         # TYPE custos_rx_packets counter\n\
         custos_rx_packets 12\n\n"
    ));
    assert!(text.contains("custos_rx_pps 1.50\n"));
    assert!(text.contains("custos_rx_gbps 0.25\n"));
    assert!(text.ends_with("custos_protobuf_matches 5\n"));
}
