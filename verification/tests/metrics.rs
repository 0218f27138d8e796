//! Counters and their exposition.
use custos::grpc::ParseError;
use custos::metrics::{counters_fit, sum_stats, ThreadStats};
use custos::prometheus::{render_prometheus_metrics, Gauges};
use custos::protobuf::{ProtoError, ValidationError};

fn gauges() -> Gauges {
    Gauges {
        uptime: "2.00".to_string(),
        latency_sum: "0.000000800".to_string(),
        rx_pps: "150.00".to_string(),
        tx_pps: "147.50".to_string(),
        rx_bps: "0.00".to_string(),
        tx_bps: "0.00".to_string(),
    }
}

#[test]
fn test_thread_stats_recording() {
    let mut stats = ThreadStats::default();
    stats.rx_packets += 10;
    stats.rx_bytes += 15000;
    stats.record_payload_size(100);
    stats.record_payload_size(1200);
    stats.record_latency_ns(450);

    assert_eq!(stats.rx_packets, 10);
    assert_eq!(stats.rx_bytes, 15000);
    assert_eq!(stats.hist_payload_65_256, 1);
    assert_eq!(stats.hist_payload_1025_2048, 1);
    assert_eq!(stats.hist_latency_500ns, 1);
}

#[test]
fn test_prometheus_exposition_format() {
    let mut stats1 = ThreadStats::default();
    stats1.rx_packets = 100;
    stats1.tx_packets = 95;
    stats1.drop_validation_failed = 5;
    stats1.stat_ipv4 = 100;
    stats1.stat_grpc = 95;
    stats1.record_payload_size(500);
    stats1.record_latency_ns(800);

    let mut stats2 = ThreadStats::default();
    stats2.rx_packets = 200;
    stats2.tx_packets = 200;

    let metrics_text = render_prometheus_metrics(&[stats1, stats2], &gauges());

    assert!(metrics_text.contains("custos_up 1"));
    assert!(metrics_text.contains("custos_rx_packets_total 300"));
    assert!(metrics_text.contains("custos_tx_packets_total 295"));
    assert!(metrics_text.contains("custos_dropped_packets_total{reason=\"validation_failed\"} 5"));
    assert!(metrics_text.contains("custos_core_rx_packets_total{core=\"0\"} 100"));
    assert!(metrics_text.contains("custos_core_rx_packets_total{core=\"1\"} 200"));
    assert!(metrics_text.contains("custos_protocol_packets_total{protocol=\"grpc\"} 95"));
    assert!(metrics_text.contains("custos_payload_bytes_bucket{le=\"1024\"} 1"));
    assert!(metrics_text.contains("custos_processing_latency_seconds_bucket{le=\"0.000001\"} 1"));
}

#[test]
fn classes_have_inclusive_upper_bounds() {
    let mut stats = ThreadStats::default();
    for size in [0, 64, 65, 256, 257, 1024, 1025, 2048, 2049, 70000] {
        stats.record_payload_size(size);
    }
    assert_eq!(stats.hist_payload_0_64, 2);
    assert_eq!(stats.hist_payload_65_256, 2);
    assert_eq!(stats.hist_payload_257_1024, 2);
    assert_eq!(stats.hist_payload_1025_2048, 2);
    assert_eq!(stats.hist_payload_2049_inf, 2);

    for nanos in [
        0, 100, 101, 500, 501, 1_000, 1_001, 5_000, 5_001, 10_000, 10_001, 50_000, 50_001,
    ] {
        stats.record_latency_ns(nanos);
    }
    assert_eq!(stats.hist_latency_100ns, 2);
    assert_eq!(stats.hist_latency_500ns, 2);
    assert_eq!(stats.hist_latency_1us, 2);
    assert_eq!(stats.hist_latency_5us, 2);
    assert_eq!(stats.hist_latency_10us, 2);
    assert_eq!(stats.hist_latency_50us, 2);
    assert_eq!(stats.hist_latency_inf, 1);
    assert_eq!(stats.latency_count, 13);
    assert_eq!(stats.latency_sum_ns, 133_206);
}

#[test]
fn buckets_of_the_text_add_up() {
    let mut stats = ThreadStats::default();
    for size in [10, 20, 100, 300, 1500, 3000] {
        stats.record_payload_size(size);
    }
    let text = render_prometheus_metrics(&[stats], &gauges());
    assert!(text.contains("custos_payload_bytes_bucket{le=\"64\"} 2\n"));
    assert!(text.contains("custos_payload_bytes_bucket{le=\"256\"} 3\n"));
    assert!(text.contains("custos_payload_bytes_bucket{le=\"1024\"} 4\n"));
    assert!(text.contains("custos_payload_bytes_bucket{le=\"2048\"} 5\n"));
    assert!(text.contains("custos_payload_bytes_bucket{le=\"+Inf\"} 6\n"));
    assert!(text.contains("custos_payload_bytes_count 6\n"));
}

#[test]
fn outcomes_count_how_far_a_packet_got() {
    let mut stats = ThreadStats::default();
    stats.record_outcome(Ok(()));
    stats.record_outcome(Err(ValidationError::Parse(ParseError::BufferTooSmall)));
    stats.record_outcome(Err(ValidationError::Parse(ParseError::BadIpChecksum)));
    stats.record_outcome(Err(ValidationError::Parse(ParseError::WrongPort)));
    stats.record_outcome(Err(ValidationError::Parse(ParseError::PayloadOverflow)));
    stats.record_outcome(Err(ValidationError::Proto(ProtoError::RecursionLimit)));
    assert_eq!(stats.drop_validation_failed, 5);
    assert_eq!(stats.stat_ipv4, 5);
    assert_eq!(stats.stat_tcp, 4);
    assert_eq!(stats.stat_http2_data, 3);
    assert_eq!(stats.stat_grpc, 2);
    assert_eq!(stats.stat_protobuf, 1);
    assert_eq!(stats.err_too_small, 1);
    assert_eq!(stats.err_bad_ip_csum, 1);
    assert_eq!(stats.err_wrong_port, 1);
    assert_eq!(stats.err_l4_overflow, 1);
    assert_eq!(stats.anomaly_recursion_limit, 1);
}

#[test]
fn counters_wrap_around() {
    let mut stats = ThreadStats::default();
    stats.hist_payload_0_64 = u64::MAX;
    stats.record_payload_size(1);
    assert_eq!(stats.hist_payload_0_64, 0);
}

#[test]
fn sums_over_workers() {
    let mut a = ThreadStats::default();
    a.rx_bytes = 7;
    a.err_bad_grpc = 1;
    let mut b = ThreadStats::default();
    b.rx_bytes = 8;
    b.latency_count = 3;
    let sum = sum_stats(&[a, b]);
    assert_eq!(sum.rx_bytes, 15);
    assert_eq!(sum.err_bad_grpc, 1);
    assert_eq!(sum.latency_count, 3);
    assert_eq!(sum_stats(&[]), ThreadStats::default());
}

#[test]
fn counters_that_run_over_are_noticed() {
    let mut a = ThreadStats::default();
    let mut b = ThreadStats::default();
    assert!(counters_fit(&[]));
    assert!(counters_fit(&[a, b]));
    a.err_bad_grpc = u64::MAX;
    assert!(counters_fit(&[a, b]));
    b.err_bad_grpc = 1;
    assert!(!counters_fit(&[a, b]));
    let mut c = ThreadStats::default();
    c.hist_payload_0_64 = u64::MAX;
    assert!(counters_fit(&[c]));
    c.hist_payload_2049_inf = 1;
    assert!(!counters_fit(&[c]));
    let mut d = ThreadStats::default();
    d.hist_latency_inf = u64::MAX;
    d.hist_latency_1us = 1;
    assert!(!counters_fit(&[d]));
}

#[test]
fn joined_lists_add_up() {
    let mut a = ThreadStats::default();
    a.rx_packets = 3;
    a.record_payload_size(10);
    let mut b = ThreadStats::default();
    b.rx_packets = 4;
    b.record_payload_size(20);
    b.record_payload_size(5000);
    let text = render_prometheus_metrics(&[a, b], &gauges());
    assert!(text.contains("custos_rx_packets_total 7\n"));
    assert!(text.contains("custos_core_rx_packets_total{core=\"0\"} 3\n"));
    assert!(text.contains("custos_core_rx_packets_total{core=\"1\"} 4\n"));
    assert!(!text.contains("core=\"2\""));
    assert!(text.contains("custos_payload_bytes_bucket{le=\"64\"} 2\n"));
    assert!(text.contains("custos_payload_bytes_bucket{le=\"+Inf\"} 3\n"));
}

#[test]
fn buckets_count_what_was_recorded() {
    let sizes = [1usize, 64, 70, 300, 300, 1500, 9000];
    let times = [50u64, 100, 700, 60_000, 2_000];
    let mut a = ThreadStats::default();
    let mut b = ThreadStats::default();
    for (i, size) in sizes.iter().enumerate() {
        if i % 2 == 0 {
            a.record_payload_size(*size);
        } else {
            b.record_payload_size(*size);
        }
    }
    for time in times {
        a.record_latency_ns(time);
    }
    let text = render_prometheus_metrics(&[a, b], &gauges());
    for bound in [64usize, 256, 1024, 2048] {
        let n = sizes.iter().filter(|s| **s <= bound).count();
        assert!(text.contains(&format!(
            "custos_payload_bytes_bucket{{le=\"{}\"}} {}\n",
            bound, n
        )));
    }
    for (label, bound) in [("0.0000001", 100u64), ("0.000001", 1_000), ("0.00005", 50_000)] {
        let n = times.iter().filter(|t| **t <= bound).count();
        assert!(text.contains(&format!(
            "custos_processing_latency_seconds_bucket{{le=\"{}\"}} {}\n",
            label, n
        )));
    }
    assert!(text.contains("custos_payload_bytes_count 7\n"));
    assert!(text.contains("custos_processing_latency_seconds_count 5\n"));
}
