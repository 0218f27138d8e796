//! Reports of a packet loop.
use custos::metrics::ThreadStats;
use custos::report::{render_json, render_text};

fn stats() -> ThreadStats {
    let mut t = ThreadStats::default();
    t.rx_packets = 1;
    t.tx_packets = 2;
    t.recycled_packets = 3;
    t.drop_validation_failed = 4;
    t.rx_bytes = 5;
    t.tx_bytes = 6;
    t.stat_protobuf = 7;
    t.err_l4_overflow = 8;
    t.anomaly_invalid_varint_bytes = 9;
    t.hist_payload_1025_2048 = 10;
    t
}

#[test]
fn report_as_json() {
    assert_eq!(
        render_json(&stats()),
        r#"{
  "rx_packets": 1,
  "tx_packets": 2,
  "recycled_packets": 3,
  "drop_validation_failed": 4,
  "rx_bytes": 5,
  "tx_bytes": 6,
  "protocol_counts": {
    "ipv4": 0,
    "tcp": 0,
    "http2": 0,
    "grpc": 0,
    "protobuf": 7
  },
  "parser_failures": {
    "too_small": 0,
    "non_ipv4": 0,
    "bad_ip_len": 0,
    "non_tcp": 0,
    "bad_ip_csum": 0,
    "bad_tcp_len": 0,
    "wrong_port": 0,
    "bad_http2": 0,
    "non_http2_data": 0,
    "bad_grpc": 0,
    "l4_overflow": 8
  },
  "anomaly_counts": {
    "invalid_varint": 0,
    "invalid_wire_type": 0,
    "recursion_limit": 0,
    "buffer_underflow": 0,
    "shape_dim_limit": 0,
    "shape_val_invalid": 0,
    "tensor_size_limit": 0,
    "invalid_varint_bytes": 9
  },
  "histogram_payload_sizes": {
    "0_64": 0,
    "65_256": 0,
    "257_1024": 0,
    "1025_2048": 10
  }
}"#
    );
}

#[test]
fn report_as_text() {
    let text = render_text(&stats());
    assert!(text.starts_with(
        "# HELP custos_rx_packets Total received packets.\n\
         # TYPE custos_rx_packets counter\n\
         custos_rx_packets 1\n\n\
         # HELP custos_tx_packets Total transmitted packets.\n"
    ));
    assert!(text.contains(
        "custos_drop_validation_failed 4\n\n# HELP custos_rx_bytes Total received bytes.\n"
    ));
    assert!(text.contains("custos_protocol_total{proto=\"protobuf\"} 7\n\n# HELP custos_parser"));
    assert!(text.contains("custos_parser_failures_total{reason=\"l4_overflow\"} 8\n\n"));
    assert!(text.contains("custos_anomalies_total{reason=\"invalid_varint_bytes\"} 9\n\n"));
    assert!(text.ends_with(
        "custos_payload_size_bucket{le=\"1024\"} 0\ncustos_payload_size_bucket{le=\"2048\"} 10\n"
    ));
}
