//! Counters as Prometheus text.
use crate::metrics;
use crate::metrics::{
    histograms_fit, latency_buckets, payload_buckets, sum_stats, summed, totals_fit, Counter,
    ThreadStats,
};
use crate::text;
use crate::text::decimal_text;
use vstd::prelude::*;

verus! {

// ---------------------------------------------------------------------------
// Lines
// ---------------------------------------------------------------------------

/// The two lines that introduce a metric.
pub open spec fn header(name: Seq<char>, help: Seq<char>, kind: Seq<char>) -> Seq<char> {
    "# HELP "@ + name + " "@ + help + "\n# TYPE "@ + name + " "@ + kind + "\n"@
}

/// A line with the value of a metric.
pub open spec fn sample(name: Seq<char>, value: Seq<char>) -> Seq<char> {
    name + " "@ + value + "\n"@
}

/// A line with the value of a metric under one label.
pub open spec fn labelled(name: Seq<char>, label: Seq<char>, key: Seq<char>, value: int) -> Seq<
    char,
> {
    name + "{"@ + label + "=\""@ + key + "\"} "@ + text::decimal(value as nat) + "\n"@
}

/// A metric with a single value, and an empty line.
pub open spec fn family(
    name: Seq<char>,
    help: Seq<char>,
    kind: Seq<char>,
    value: Seq<char>,
) -> Seq<char> {
    header(name, help, kind) + sample(name, value) + "\n"@
}

pub(crate) fn header_text(name: &str, help: &str, kind: &str) -> (s: String)
    ensures
        s@ == header(name@, help@, kind@),
{
    let mut s: String = "# HELP ".to_owned();
    s.append(name);
    s.append(" ");
    s.append(help);
    s.append("\n# TYPE ");
    s.append(name);
    s.append(" ");
    s.append(kind);
    s.append("\n");
    s
}

pub(crate) fn sample_text(name: &str, value: &str) -> (s: String)
    ensures
        s@ == sample(name@, value@),
{
    let mut s: String = name.to_owned();
    s.append(" ");
    s.append(value);
    s.append("\n");
    s
}

fn labelled_text(name: &str, label: &str, key: &str, value: u64) -> (s: String)
    ensures
        s@ == labelled(name@, label@, key@, value as int),
{
    let mut s: String = name.to_owned();
    s.append("{");
    s.append(label);
    s.append("=\"");
    s.append(key);
    s.append("\"} ");
    s.append(decimal_text(value).as_str());
    s.append("\n");
    s
}

pub(crate) fn family_text(name: &str, help: &str, kind: &str, value: &str) -> (s: String)
    ensures
        s@ == family(name@, help@, kind@, value@),
{
    let mut s: String = header_text(name, help, kind);
    s.append(sample_text(name, value).as_str());
    s.append("\n");
    s
}

/// A counter with a single value, and an empty line.
pub open spec fn counter(name: Seq<char>, help: Seq<char>, value: u64) -> Seq<char> {
    family(name, help, "counter"@, text::decimal(value as nat))
}

pub(crate) fn counter_text(name: &str, help: &str, value: u64) -> (s: String)
    ensures
        s@ == counter(name@, help@, value),
{
    family_text(name, help, "counter", decimal_text(value).as_str())
}

/// A line for each entry, with the name of the entry as the label.
pub open spec fn lines(name: Seq<char>, label: Seq<char>, entries: Seq<(Seq<char>, u64)>) -> Seq<
    char,
>
    decreases entries.len(),
{
    if entries.len() == 0 {
        Seq::empty()
    } else {
        lines(name, label, entries.drop_last()) + labelled(
            name,
            label,
            entries.last().0,
            entries.last().1 as int,
        )
    }
}

/// A counter with labels.
pub open spec fn counters(
    name: Seq<char>,
    help: Seq<char>,
    label: Seq<char>,
    entries: Seq<(Seq<char>, u64)>,
) -> Seq<char> {
    header(name, help, "counter"@) + lines(name, label, entries)
}

/// Counters under their names.
pub open spec fn named(list: Seq<(&str, u64)>) -> Seq<(Seq<char>, u64)> {
    list.map_values(|e: (&str, u64)| (e.0@, e.1))
}

fn lines_text(name: &str, label: &str, list: &Vec<(&str, u64)>) -> (s: String)
    ensures
        s@ == lines(name@, label@, named(list@)),
{
    let mut s: String = String::new();
    let ghost all = named(list@);
    let mut i: usize = 0;
    assert(all.take(0) =~= Seq::empty());
    while i < list.len()
        invariant
            i <= list@.len(),
            all == named(list@),
            s@ == lines(name@, label@, all.take(i as int)),
        decreases list@.len() - i,
    {
        assert(all.take(i + 1).drop_last() =~= all.take(i as int));
        assert(all.take(i + 1).last() == (list@[i as int].0@, list@[i as int].1));
        s.append(labelled_text(name, label, list[i].0, list[i].1).as_str());
        i = i + 1;
    }
    assert(all.take(i as int) =~= all);
    s
}

pub(crate) fn counters_text(name: &str, help: &str, label: &str, list: &Vec<(&str, u64)>) -> (s:
    String)
    ensures
        s@ == counters(name@, help@, label@, named(list@)),
{
    let mut s: String = header_text(name, help, "counter");
    s.append(lines_text(name, label, list).as_str());
    s
}

// ---------------------------------------------------------------------------
// Entries
// ---------------------------------------------------------------------------

/// Packets by the layer they got to.
pub open spec fn protocols(t: ThreadStats) -> Seq<(Seq<char>, u64)> {
    seq![
        ("ipv4"@, t.stat_ipv4),
        ("tcp"@, t.stat_tcp),
        ("http2"@, t.stat_http2_data),
        ("grpc"@, t.stat_grpc),
        ("protobuf"@, t.stat_protobuf),
    ]
}

pub(crate) fn list_protocols(t: &ThreadStats) -> (list: Vec<(&'static str, u64)>)
    ensures
        named(list@) == protocols(*t),
{
    let list: Vec<(&str, u64)> = vec![
        ("ipv4", t.stat_ipv4),
        ("tcp", t.stat_tcp),
        ("http2", t.stat_http2_data),
        ("grpc", t.stat_grpc),
        ("protobuf", t.stat_protobuf),
    ];
    assert(named(list@) =~= protocols(*t));
    list
}

/// Packets by what was wrong with their headers.
pub open spec fn failures(t: ThreadStats) -> Seq<(Seq<char>, u64)> {
    seq![
        ("too_small"@, t.err_too_small),
        ("non_ipv4"@, t.err_non_ipv4),
        ("bad_ip_len"@, t.err_bad_ip_len),
        ("non_tcp"@, t.err_non_tcp),
        ("bad_ip_csum"@, t.err_bad_ip_csum),
        ("bad_tcp_len"@, t.err_bad_tcp_len),
        ("wrong_port"@, t.err_wrong_port),
        ("bad_http2"@, t.err_bad_http2),
        ("non_http2_data"@, t.err_non_http2_data),
        ("bad_grpc"@, t.err_bad_grpc),
        ("l4_overflow"@, t.err_l4_overflow),
    ]
}

pub(crate) fn list_failures(t: &ThreadStats) -> (list: Vec<(&'static str, u64)>)
    ensures
        named(list@) == failures(*t),
{
    let list: Vec<(&str, u64)> = vec![
        ("too_small", t.err_too_small),
        ("non_ipv4", t.err_non_ipv4),
        ("bad_ip_len", t.err_bad_ip_len),
        ("non_tcp", t.err_non_tcp),
        ("bad_ip_csum", t.err_bad_ip_csum),
        ("bad_tcp_len", t.err_bad_tcp_len),
        ("wrong_port", t.err_wrong_port),
        ("bad_http2", t.err_bad_http2),
        ("non_http2_data", t.err_non_http2_data),
        ("bad_grpc", t.err_bad_grpc),
        ("l4_overflow", t.err_l4_overflow),
    ];
    assert(named(list@) =~= failures(*t));
    list
}

/// Packets by what was wrong with their payload.
pub open spec fn anomalies(t: ThreadStats) -> Seq<(Seq<char>, u64)> {
    seq![
        ("invalid_varint"@, t.anomaly_invalid_varint),
        ("invalid_wire_type"@, t.anomaly_invalid_wire_type),
        ("recursion_limit"@, t.anomaly_recursion_limit),
        ("buffer_underflow"@, t.anomaly_buffer_underflow),
        ("shape_dim_limit"@, t.anomaly_shape_dim_limit),
        ("shape_val_invalid"@, t.anomaly_shape_val_invalid),
        ("tensor_size_limit"@, t.anomaly_tensor_size_limit),
        ("invalid_varint_bytes"@, t.anomaly_invalid_varint_bytes),
    ]
}

pub(crate) fn list_anomalies(t: &ThreadStats) -> (list: Vec<(&'static str, u64)>)
    ensures
        named(list@) == anomalies(*t),
{
    let list: Vec<(&str, u64)> = vec![
        ("invalid_varint", t.anomaly_invalid_varint),
        ("invalid_wire_type", t.anomaly_invalid_wire_type),
        ("recursion_limit", t.anomaly_recursion_limit),
        ("buffer_underflow", t.anomaly_buffer_underflow),
        ("shape_dim_limit", t.anomaly_shape_dim_limit),
        ("shape_val_invalid", t.anomaly_shape_val_invalid),
        ("tensor_size_limit", t.anomaly_tensor_size_limit),
        ("invalid_varint_bytes", t.anomaly_invalid_varint_bytes),
    ];
    assert(named(list@) =~= anomalies(*t));
    list
}

/// Packets up to each size.
pub open spec fn size_entries(t: ThreadStats) -> Seq<(Seq<char>, u64)> {
    let buckets = payload_buckets(t);
    seq![
        ("64"@, buckets[0] as u64),
        ("256"@, buckets[1] as u64),
        ("1024"@, buckets[2] as u64),
        ("2048"@, buckets[3] as u64),
        ("+Inf"@, buckets[4] as u64),
    ]
}

fn list_size_entries(t: &ThreadStats) -> (list: Vec<(&'static str, u64)>)
    requires
        payload_buckets(*t)[4] <= u64::MAX,
    ensures
        named(list@) == size_entries(*t),
{
    let le_64: u64 = t.hist_payload_0_64;
    let le_256: u64 = le_64 + t.hist_payload_65_256;
    let le_1024: u64 = le_256 + t.hist_payload_257_1024;
    let le_2048: u64 = le_1024 + t.hist_payload_1025_2048;
    let all: u64 = le_2048 + t.hist_payload_2049_inf;
    let list: Vec<(&str, u64)> = vec![
        ("64", le_64),
        ("256", le_256),
        ("1024", le_1024),
        ("2048", le_2048),
        ("+Inf", all),
    ];
    assert(named(list@) =~= size_entries(*t));
    list
}

/// Packets up to each processing time.
pub open spec fn latency_entries(t: ThreadStats) -> Seq<(Seq<char>, u64)> {
    let buckets = latency_buckets(t);
    seq![
        ("0.0000001"@, buckets[0] as u64),
        ("0.0000005"@, buckets[1] as u64),
        ("0.000001"@, buckets[2] as u64),
        ("0.000005"@, buckets[3] as u64),
        ("0.00001"@, buckets[4] as u64),
        ("0.00005"@, buckets[5] as u64),
        ("+Inf"@, buckets[6] as u64),
    ]
}

fn list_latency_entries(t: &ThreadStats) -> (list: Vec<(&'static str, u64)>)
    requires
        latency_buckets(*t)[6] <= u64::MAX,
    ensures
        named(list@) == latency_entries(*t),
{
    let le_100ns: u64 = t.hist_latency_100ns;
    let le_500ns: u64 = le_100ns + t.hist_latency_500ns;
    let le_1us: u64 = le_500ns + t.hist_latency_1us;
    let le_5us: u64 = le_1us + t.hist_latency_5us;
    let le_10us: u64 = le_5us + t.hist_latency_10us;
    let le_50us: u64 = le_10us + t.hist_latency_50us;
    let all: u64 = le_50us + t.hist_latency_inf;
    let list: Vec<(&str, u64)> = vec![
        ("0.0000001", le_100ns),
        ("0.0000005", le_500ns),
        ("0.000001", le_1us),
        ("0.000005", le_5us),
        ("0.00001", le_10us),
        ("0.00005", le_50us),
        ("+Inf", all),
    ];
    assert(named(list@) =~= latency_entries(*t));
    list
}

// ---------------------------------------------------------------------------
// The whole text
// ---------------------------------------------------------------------------

/// The figures that are computed with fractions, already rendered.
#[derive(Debug)]
pub struct Gauges {
    /// Seconds since the start, with three decimals.
    pub uptime: String,
    /// Processing time of all packets that were timed in seconds, with nine
    /// decimals.
    pub latency_sum: String,
    /// Packets received in a second, with two decimals.
    pub rx_pps: String,
    /// Packets sent in a second, with two decimals.
    pub tx_pps: String,
    /// Bytes received in a second, with two decimals.
    pub rx_bps: String,
    /// Bytes sent in a second, with two decimals.
    pub tx_bps: String,
}

/// The totals over all cores: `t` are the added counters.
#[verifier::opaque]
pub open spec fn total_section(t: ThreadStats, g: Gauges) -> Seq<char> {
    family("custos_up"@, "Appliance status (1 for running)."@, "gauge"@, "1"@)
        + family("custos_uptime_seconds"@, "Appliance uptime in seconds."@, "counter"@, g.uptime@)
        + counter(
            "custos_rx_packets_total"@,
            "Total packets received across all cores."@,
            t.rx_packets,
        )
        + counter("custos_rx_bytes_total"@, "Total bytes received across all cores."@, t.rx_bytes)
        + counter(
            "custos_tx_packets_total"@,
            "Total packets transmitted across all cores."@,
            t.tx_packets,
        )
        + counter(
            "custos_tx_bytes_total"@,
            "Total bytes transmitted across all cores."@,
            t.tx_bytes,
        )
        + counter(
            "custos_recycled_packets_total"@,
            "Total frames recycled back to UMEM fill ring."@,
            t.recycled_packets,
        )
        + counters(
            "custos_dropped_packets_total"@,
            "Total dropped packets by drop reason."@,
            "reason"@,
            drops(t),
        ) + "\n"@
}

/// Packets that were dropped.
pub open spec fn drops(t: ThreadStats) -> Seq<(Seq<char>, u64)> {
    seq![
        ("validation_failed"@, t.drop_validation_failed),
    ]
}

fn list_drops(t: &ThreadStats) -> (list: Vec<(&'static str, u64)>)
    ensures
        named(list@) == drops(*t),
{
    let list: Vec<(&str, u64)> = vec![
        ("validation_failed", t.drop_validation_failed),
    ];
    assert(named(list@) =~= drops(*t));
    list
}

fn total_section_text(t: &ThreadStats, gauges: &Gauges) -> (s: String)
    ensures
        s@ == total_section(*t, *gauges),
{
    proof {
        reveal(total_section);
    }
    let mut s: String = family_text("custos_up", "Appliance status (1 for running).", "gauge", "1");
    s.append(
        family_text(
            "custos_uptime_seconds",
            "Appliance uptime in seconds.",
            "counter",
            gauges.uptime.as_str(),
        ).as_str(),
    );
    s.append(
        counter_text(
            "custos_rx_packets_total",
            "Total packets received across all cores.",
            t.rx_packets,
        ).as_str(),
    );
    s.append(
        counter_text(
            "custos_rx_bytes_total",
            "Total bytes received across all cores.",
            t.rx_bytes,
        ).as_str(),
    );
    s.append(
        counter_text(
            "custos_tx_packets_total",
            "Total packets transmitted across all cores.",
            t.tx_packets,
        ).as_str(),
    );
    s.append(
        counter_text(
            "custos_tx_bytes_total",
            "Total bytes transmitted across all cores.",
            t.tx_bytes,
        ).as_str(),
    );
    s.append(
        counter_text(
            "custos_recycled_packets_total",
            "Total frames recycled back to UMEM fill ring.",
            t.recycled_packets,
        ).as_str(),
    );
    s.append(
        counters_text(
            "custos_dropped_packets_total",
            "Total dropped packets by drop reason.",
            "reason",
            &list_drops(t),
        ).as_str(),
    );
    s.append("\n");
    s
}

/// What introduces the metrics of single cores.
#[verifier::opaque]
pub open spec fn core_header() -> Seq<char> {
    header("custos_core_rx_packets_total"@, "Received packets per CPU core."@, "counter"@)
        + header("custos_core_tx_packets_total"@, "Transmitted packets per CPU core."@, "counter"@)
        + header("custos_core_dropped_packets_total"@, "Dropped packets per CPU core."@, "counter"@)
        + header("custos_core_rx_bytes_total"@, "Received bytes per CPU core."@, "counter"@)
        + header("custos_core_tx_bytes_total"@, "Transmitted bytes per CPU core."@, "counter"@)
}

fn core_header_text() -> (s: String)
    ensures
        s@ == core_header(),
{
    proof {
        reveal(core_header);
    }
    let mut s: String = header_text(
        "custos_core_rx_packets_total",
        "Received packets per CPU core.",
        "counter",
    );
    s.append(
        header_text(
            "custos_core_tx_packets_total",
            "Transmitted packets per CPU core.",
            "counter",
        ).as_str(),
    );
    s.append(
        header_text(
            "custos_core_dropped_packets_total",
            "Dropped packets per CPU core.",
            "counter",
        ).as_str(),
    );
    s.append(
        header_text(
            "custos_core_rx_bytes_total",
            "Received bytes per CPU core.",
            "counter",
        ).as_str(),
    );
    s.append(
        header_text(
            "custos_core_tx_bytes_total",
            "Transmitted bytes per CPU core.",
            "counter",
        ).as_str(),
    );
    s
}

/// The metrics of one core.
#[verifier::opaque]
pub open spec fn core_section(index: int, t: ThreadStats) -> Seq<char> {
    let key = text::decimal(index as nat);
    labelled("custos_core_rx_packets_total"@, "core"@, key, t.rx_packets as int)
        + labelled("custos_core_tx_packets_total"@, "core"@, key, t.tx_packets as int)
        + labelled(
            "custos_core_dropped_packets_total"@,
            "core"@,
            key,
            t.drop_validation_failed as int,
        )
        + labelled("custos_core_rx_bytes_total"@, "core"@, key, t.rx_bytes as int)
        + labelled("custos_core_tx_bytes_total"@, "core"@, key, t.tx_bytes as int)
}

fn core_section_text(index: usize, t: &ThreadStats) -> (s: String)
    ensures
        s@ == core_section(index as int, *t),
{
    proof {
        reveal(core_section);
    }
    let key: String = decimal_text(index as u64);
    let mut s: String = labelled_text(
        "custos_core_rx_packets_total",
        "core",
        key.as_str(),
        t.rx_packets,
    );
    s.append(
        labelled_text("custos_core_tx_packets_total", "core", key.as_str(), t.tx_packets).as_str(),
    );
    s.append(
        labelled_text(
            "custos_core_dropped_packets_total",
            "core",
            key.as_str(),
            t.drop_validation_failed,
        ).as_str(),
    );
    s.append(
        labelled_text("custos_core_rx_bytes_total", "core", key.as_str(), t.rx_bytes).as_str(),
    );
    s.append(
        labelled_text("custos_core_tx_bytes_total", "core", key.as_str(), t.tx_bytes).as_str(),
    );
    s
}

/// The metrics of some cores, in the order of the list: the first has the number
/// `first`, and each of the others the next one.
pub open spec fn core_sections_from(first: int, stats: Seq<ThreadStats>) -> Seq<char>
    decreases stats.len(),
{
    if stats.len() == 0 {
        Seq::empty()
    } else {
        core_sections_from(first, stats.drop_last()) + core_section(
            first + stats.len() - 1,
            stats.last(),
        )
    }
}

/// The metrics of every core, in the order of the list.
pub open spec fn core_sections(stats: Seq<ThreadStats>) -> Seq<char> {
    core_sections_from(0, stats)
}

fn core_sections_text(stats_list: &[ThreadStats]) -> (s: String)
    ensures
        s@ == core_sections(stats_list@),
{
    let mut s: String = String::new();
    let mut i: usize = 0;
    assert(stats_list@.take(0) =~= Seq::<ThreadStats>::empty());
    while i < stats_list.len()
        invariant
            i <= stats_list@.len(),
            s@ == core_sections(stats_list@.take(i as int)),
        decreases stats_list@.len() - i,
    {
        assert(stats_list@.take(i + 1).drop_last() =~= stats_list@.take(i as int));
        s.append(core_section_text(i, &stats_list[i]).as_str());
        i = i + 1;
    }
    assert(stats_list@.take(i as int) =~= stats_list@);
    s
}

/// Packets by protocol, by what was wrong with their headers and by what was wrong
/// with their payload.
#[verifier::opaque]
pub open spec fn reason_section(t: ThreadStats) -> Seq<char> {
    counters(
        "custos_protocol_packets_total"@,
        "Total packets inspected by protocol."@,
        "protocol"@,
        protocols(t),
    ) + "\n"@ + counters(
        "custos_parser_errors_total"@,
        "Total L2-L5 parser errors by reason."@,
        "reason"@,
        failures(t),
    ) + "\n"@ + counters(
        "custos_anomalies_total"@,
        "Total Protobuf wire-format anomalies by type."@,
        "type"@,
        anomalies(t),
    ) + "\n"@
}

fn reason_section_text(t: &ThreadStats) -> (s: String)
    ensures
        s@ == reason_section(*t),
{
    proof {
        reveal(reason_section);
    }
    let mut s: String = counters_text(
        "custos_protocol_packets_total",
        "Total packets inspected by protocol.",
        "protocol",
        &list_protocols(t),
    );
    s.append("\n");
    s.append(
        counters_text(
            "custos_parser_errors_total",
            "Total L2-L5 parser errors by reason.",
            "reason",
            &list_failures(t),
        ).as_str(),
    );
    s.append("\n");
    s.append(
        counters_text(
            "custos_anomalies_total",
            "Total Protobuf wire-format anomalies by type.",
            "type",
            &list_anomalies(t),
        ).as_str(),
    );
    s.append("\n");
    s
}

/// The histogram of packet sizes.
#[verifier::opaque]
pub open spec fn payload_section(t: ThreadStats) -> Seq<char> {
    header("custos_payload_bytes"@, "Payload size histogram in bytes."@, "histogram"@) + lines(
        "custos_payload_bytes_bucket"@,
        "le"@,
        size_entries(t),
    ) + sample(
        "custos_payload_bytes_count"@,
        text::decimal(payload_buckets(t)[4] as nat),
    ) + "\n"@
}

fn payload_section_text(t: &ThreadStats) -> (s: String)
    requires
        payload_buckets(*t)[4] <= u64::MAX,
    ensures
        s@ == payload_section(*t),
{
    proof {
        reveal(payload_section);
    }
    let list: Vec<(&str, u64)> = list_size_entries(t);
    let mut s: String = header_text(
        "custos_payload_bytes",
        "Payload size histogram in bytes.",
        "histogram",
    );
    s.append(lines_text("custos_payload_bytes_bucket", "le", &list).as_str());
    assert(named(list@).len() == 5);
    assert(named(list@)[4].1 == list@[4].1);
    s.append(sample_text("custos_payload_bytes_count", decimal_text(list[4].1).as_str()).as_str());
    s.append("\n");
    s
}

/// The histogram of processing times.
#[verifier::opaque]
pub open spec fn latency_section(t: ThreadStats, sum: Seq<char>) -> Seq<char> {
    header(
        "custos_processing_latency_seconds"@,
        "Packet processing latency histogram in seconds."@,
        "histogram"@,
    ) + lines(
        "custos_processing_latency_seconds_bucket"@,
        "le"@,
        latency_entries(t),
    ) + sample("custos_processing_latency_seconds_sum"@, sum) + sample(
        "custos_processing_latency_seconds_count"@,
        text::decimal(t.latency_count as nat),
    ) + "\n"@
}

fn latency_section_text(t: &ThreadStats, sum: &str) -> (s: String)
    requires
        latency_buckets(*t)[6] <= u64::MAX,
    ensures
        s@ == latency_section(*t, sum@),
{
    proof {
        reveal(latency_section);
    }
    let mut s: String = header_text(
        "custos_processing_latency_seconds",
        "Packet processing latency histogram in seconds.",
        "histogram",
    );
    let list: Vec<(&str, u64)> = list_latency_entries(t);
    s.append(lines_text("custos_processing_latency_seconds_bucket", "le", &list).as_str());
    s.append(sample_text("custos_processing_latency_seconds_sum", sum).as_str());
    s.append(
        sample_text(
            "custos_processing_latency_seconds_count",
            decimal_text(t.latency_count).as_str(),
        ).as_str(),
    );
    s.append("\n");
    s
}

/// The rates.
#[verifier::opaque]
pub open spec fn rate_section(g: Gauges) -> Seq<char> {
    family("custos_rx_pps"@, "Calculated RX rate in packets per second."@, "gauge"@, g.rx_pps@)
        + family(
            "custos_tx_pps"@,
            "Calculated TX rate in packets per second."@,
            "gauge"@,
            g.tx_pps@,
        )
        + family("custos_rx_bps"@, "Calculated RX rate in bytes per second."@, "gauge"@, g.rx_bps@)
        + header("custos_tx_bps"@, "Calculated TX rate in bytes per second."@, "gauge"@)
        + sample("custos_tx_bps"@, g.tx_bps@)
}

fn rate_section_text(gauges: &Gauges) -> (s: String)
    ensures
        s@ == rate_section(*gauges),
{
    proof {
        reveal(rate_section);
    }
    let mut s: String = family_text(
        "custos_rx_pps",
        "Calculated RX rate in packets per second.",
        "gauge",
        gauges.rx_pps.as_str(),
    );
    s.append(
        family_text(
            "custos_tx_pps",
            "Calculated TX rate in packets per second.",
            "gauge",
            gauges.tx_pps.as_str(),
        ).as_str(),
    );
    s.append(
        family_text(
            "custos_rx_bps",
            "Calculated RX rate in bytes per second.",
            "gauge",
            gauges.rx_bps.as_str(),
        ).as_str(),
    );
    s.append(
        header_text("custos_tx_bps", "Calculated TX rate in bytes per second.", "gauge").as_str(),
    );
    s.append(sample_text("custos_tx_bps", gauges.tx_bps.as_str()).as_str());
    s
}

/// The whole text, from the added counters and the lines of the cores.
pub open spec fn exposition_of(t: ThreadStats, cores: Seq<char>, g: Gauges) -> Seq<char> {
    total_section(t, g) + core_header() + cores + "\n"@ + reason_section(t) + payload_section(t)
        + latency_section(t, g.latency_sum@) + rate_section(g)
}

/// The whole text.
pub open spec fn exposition(stats: Seq<ThreadStats>, g: Gauges) -> Seq<char> {
    exposition_of(summed(stats), core_sections(stats), g)
}

/// Renders the counters of all workers as Prometheus text.
pub fn render_prometheus_metrics(stats_list: &[ThreadStats], gauges: &Gauges) -> (s: String)
    requires
        totals_fit(stats_list@),
        histograms_fit(stats_list@),
    ensures
        s@ == exposition(stats_list@, *gauges),
{
    let t: ThreadStats = sum_stats(stats_list);
    proof {
        assert(t.get(Counter::HistPayload064) == t.hist_payload_0_64);
        assert(t.get(Counter::HistPayload65256) == t.hist_payload_65_256);
        assert(t.get(Counter::HistPayload2571024) == t.hist_payload_257_1024);
        assert(t.get(Counter::HistPayload10252048) == t.hist_payload_1025_2048);
        assert(t.get(Counter::HistPayload2049Inf) == t.hist_payload_2049_inf);
        assert(t.get(Counter::HistLatency100ns) == t.hist_latency_100ns);
        assert(t.get(Counter::HistLatency500ns) == t.hist_latency_500ns);
        assert(t.get(Counter::HistLatency1us) == t.hist_latency_1us);
        assert(t.get(Counter::HistLatency5us) == t.hist_latency_5us);
        assert(t.get(Counter::HistLatency10us) == t.hist_latency_10us);
        assert(t.get(Counter::HistLatency50us) == t.hist_latency_50us);
        assert(t.get(Counter::HistLatencyInf) == t.hist_latency_inf);
    }
    let mut s: String = total_section_text(&t, gauges);
    s.append(core_header_text().as_str());
    s.append(core_sections_text(stats_list).as_str());
    s.append("\n");
    s.append(reason_section_text(&t).as_str());
    s.append(payload_section_text(&t).as_str());
    s.append(latency_section_text(&t, gauges.latency_sum.as_str()).as_str());
    s.append(rate_section_text(gauges).as_str());
    s
}

// ---------------------------------------------------------------------------
// Laws
// ---------------------------------------------------------------------------

/// The lines of two lists of cores, the second numbered on from the first, are the
/// lines of both together.
pub proof fn core_lines_join(first: int, a: Seq<ThreadStats>, b: Seq<ThreadStats>)
    ensures
        core_sections_from(first, a + b) == core_sections_from(first, a) + core_sections_from(
            first + a.len(),
            b,
        ),
    decreases b.len(),
{
    if b.len() == 0 {
        assert(a + b =~= a);
        assert(core_sections_from(first, a) + Seq::<char>::empty() =~= core_sections_from(
            first,
            a,
        ));
    } else {
        assert((a + b).drop_last() =~= a + b.drop_last());
        core_lines_join(first, a, b.drop_last());
        let whole = core_sections_from(first, a + b);
        assert(whole =~= core_sections_from(first, a) + core_sections_from(first + a.len(), b));
    }
}

/// The text for two lists of workers together shows the sums of what the texts for
/// each of them show, counter by counter and bucket by bucket. It has the lines of
/// the cores of the first list, then those of the second, numbered on, and no
/// others.
pub proof fn joined_lists_add_up(a: Seq<ThreadStats>, b: Seq<ThreadStats>, g: Gauges)
    requires
        totals_fit(a + b),
    ensures
        exposition(a + b, g) == exposition_of(
            summed(a + b),
            core_sections(a) + core_sections_from(a.len() as int, b),
            g,
        ),
        forall|c: Counter| #[trigger]
            summed(a + b).get(c) == summed(a).get(c) + summed(b).get(c),
        forall|i: int|
            0 <= i < 5 ==> #[trigger] payload_buckets(summed(a + b))[i] == payload_buckets(
                summed(a),
            )[i] + payload_buckets(summed(b))[i],
        forall|i: int|
            0 <= i < 7 ==> #[trigger] latency_buckets(summed(a + b))[i] == latency_buckets(
                summed(a),
            )[i] + latency_buckets(summed(b))[i],
{
    metrics::joined_workers_add_up(a, b);
    core_lines_join(0, a, b);
}

/// In the text, the line of each bucket shows how many values all workers recorded
/// that are not above its upper end. The last line of each histogram shows as many
/// as its line with the number of all, which is the number of recordings.
pub proof fn shown_buckets_count_recordings(
    stats: Seq<ThreadStats>,
    runs: Seq<Seq<metrics::Recording>>,
)
    requires
        metrics::all_recorded(stats, runs),
        metrics::recordings(runs) <= u64::MAX,
    ensures
        ({
            let t = summed(stats);
            &&& forall|i: int|
                0 <= i < 5 ==> (#[trigger] size_entries(t)[i]).1 == metrics::all_sizes_up_to(
                    runs,
                    metrics::payload_bound(i),
                )
            &&& payload_buckets(t)[4] == size_entries(t)[4].1
            &&& size_entries(t)[4].1 == metrics::all_sizes_up_to(runs, None)
            &&& forall|i: int|
                0 <= i < 7 ==> (#[trigger] latency_entries(t)[i]).1
                    == metrics::all_latencies_up_to(runs, metrics::latency_bound(i))
            &&& t.latency_count == latency_entries(t)[6].1
            &&& latency_entries(t)[6].1 == metrics::all_latencies_up_to(runs, None)
        }),
{
    let t = summed(stats);
    metrics::buckets_count_all_runs(stats, runs);
    assert(payload_buckets(t)[4] == metrics::all_sizes_up_to(runs, metrics::payload_bound(4)));
    assert(latency_buckets(t)[6] == metrics::all_latencies_up_to(
        runs,
        metrics::latency_bound(6),
    ));
    assert forall|i: int| 0 <= i < 5 implies (#[trigger] size_entries(t)[i]).1
        == metrics::all_sizes_up_to(runs, metrics::payload_bound(i)) by {
        metrics::buckets_never_fall(t, i, 4);
        assert(payload_buckets(t)[i] == metrics::all_sizes_up_to(
            runs,
            metrics::payload_bound(i),
        ));
    }
    assert forall|i: int| 0 <= i < 7 implies (#[trigger] latency_entries(t)[i]).1
        == metrics::all_latencies_up_to(runs, metrics::latency_bound(i)) by {
        metrics::buckets_never_fall(t, i, 6);
        assert(latency_buckets(t)[i] == metrics::all_latencies_up_to(
            runs,
            metrics::latency_bound(i),
        ));
    }
}

/// A metric under one label, as a scrape names it.
pub open spec fn series(metric: Seq<char>, label: Seq<char>, key: Seq<char>) -> Seq<char> {
    metric + seq!['{'] + label + seq!['=', '"'] + key + seq!['"', '}']
}

/// What a scrape calls each counter over all workers; `None` for the counters that are
/// shown as part of a histogram.
pub open spec fn scraped_name(c: Counter) -> Option<Seq<char>> {
    match c {
        Counter::RxPackets => Some("custos_rx_packets_total"@),
        Counter::RxBytes => Some("custos_rx_bytes_total"@),
        Counter::TxPackets => Some("custos_tx_packets_total"@),
        Counter::TxBytes => Some("custos_tx_bytes_total"@),
        Counter::RecycledPackets => Some("custos_recycled_packets_total"@),
        Counter::DropValidationFailed => Some(
            series("custos_dropped_packets_total"@, "reason"@, "validation_failed"@),
        ),
        Counter::StatIpv4 => Some(series("custos_protocol_packets_total"@, "protocol"@, "ipv4"@)),
        Counter::StatTcp => Some(series("custos_protocol_packets_total"@, "protocol"@, "tcp"@)),
        Counter::StatHttp2Data => Some(
            series("custos_protocol_packets_total"@, "protocol"@, "http2"@),
        ),
        Counter::StatGrpc => Some(series("custos_protocol_packets_total"@, "protocol"@, "grpc"@)),
        Counter::StatProtobuf => Some(
            series("custos_protocol_packets_total"@, "protocol"@, "protobuf"@),
        ),
        Counter::ErrTooSmall => Some(
            series("custos_parser_errors_total"@, "reason"@, "too_small"@),
        ),
        Counter::ErrNonIpv4 => Some(series("custos_parser_errors_total"@, "reason"@, "non_ipv4"@)),
        Counter::ErrBadIpLen => Some(
            series("custos_parser_errors_total"@, "reason"@, "bad_ip_len"@),
        ),
        Counter::ErrNonTcp => Some(series("custos_parser_errors_total"@, "reason"@, "non_tcp"@)),
        Counter::ErrBadIpCsum => Some(
            series("custos_parser_errors_total"@, "reason"@, "bad_ip_csum"@),
        ),
        Counter::ErrBadTcpLen => Some(
            series("custos_parser_errors_total"@, "reason"@, "bad_tcp_len"@),
        ),
        Counter::ErrWrongPort => Some(
            series("custos_parser_errors_total"@, "reason"@, "wrong_port"@),
        ),
        Counter::ErrBadHttp2 => Some(
            series("custos_parser_errors_total"@, "reason"@, "bad_http2"@),
        ),
        Counter::ErrNonHttp2Data => Some(
            series("custos_parser_errors_total"@, "reason"@, "non_http2_data"@),
        ),
        Counter::ErrBadGrpc => Some(series("custos_parser_errors_total"@, "reason"@, "bad_grpc"@)),
        Counter::ErrL4Overflow => Some(
            series("custos_parser_errors_total"@, "reason"@, "l4_overflow"@),
        ),
        Counter::AnomalyInvalidVarint => Some(
            series("custos_anomalies_total"@, "type"@, "invalid_varint"@),
        ),
        Counter::AnomalyInvalidWireType => Some(
            series("custos_anomalies_total"@, "type"@, "invalid_wire_type"@),
        ),
        Counter::AnomalyRecursionLimit => Some(
            series("custos_anomalies_total"@, "type"@, "recursion_limit"@),
        ),
        Counter::AnomalyBufferUnderflow => Some(
            series("custos_anomalies_total"@, "type"@, "buffer_underflow"@),
        ),
        Counter::AnomalyShapeDimLimit => Some(
            series("custos_anomalies_total"@, "type"@, "shape_dim_limit"@),
        ),
        Counter::AnomalyShapeValInvalid => Some(
            series("custos_anomalies_total"@, "type"@, "shape_val_invalid"@),
        ),
        Counter::AnomalyTensorSizeLimit => Some(
            series("custos_anomalies_total"@, "type"@, "tensor_size_limit"@),
        ),
        Counter::AnomalyInvalidVarintBytes => Some(
            series("custos_anomalies_total"@, "type"@, "invalid_varint_bytes"@),
        ),
        Counter::LatencyCount => Some("custos_processing_latency_seconds_count"@),
        _ => None,
    }
}

/// `text` has the line with `name`, a space and `value`.
#[verifier::opaque]
pub open spec fn shows(text: Seq<char>, name: Seq<char>, value: Seq<char>) -> bool {
    exists|before: Seq<char>, after: Seq<char>| #[trigger] shown_between(
        text,
        before,
        name + seq![' '] + value,
        after,
    )
}

/// `text` declares a metric to be of a kind.
pub open spec fn declared(text: Seq<char>, name: Seq<char>, kind: Seq<char>) -> bool {
    shows(text, "# TYPE "@ + name, kind)
}

/// `text` has `line` as a whole line, between `before` and `after`.
pub open spec fn shown_between(
    text: Seq<char>,
    before: Seq<char>,
    line: Seq<char>,
    after: Seq<char>,
) -> bool {
    ends_line(before) && text == before + line + seq!['\n'] + after
}

/// `text` is made of whole lines.
#[verifier::opaque]
pub open spec fn ends_line(text: Seq<char>) -> bool {
    text.len() == 0 || text.last() == '\n'
}

/// Whole lines stay whole lines beside others.
pub proof fn lines_stay(a: Seq<char>, b: Seq<char>)
    requires
        ends_line(a),
        ends_line(b),
    ensures
        ends_line(a + b),
        forall|name: Seq<char>, value: Seq<char>| #[trigger]
            shows(a, name, value) ==> shows(a + b, name, value),
        forall|name: Seq<char>, value: Seq<char>| #[trigger]
            shows(b, name, value) ==> shows(a + b, name, value),
{
    reveal(shows);
    reveal(ends_line);
    if b.len() == 0 {
        assert(a + b =~= a);
    } else {
        assert((a + b).last() == b.last());
    }
    assert forall|name: Seq<char>, value: Seq<char>| #[trigger] shows(a, name, value) implies shows(
        a + b,
        name,
        value,
    ) by {
        let line = name + seq![' '] + value;
        let (before, after) = choose|before: Seq<char>, after: Seq<char>| #[trigger]
            shown_between(a, before, line, after);
        assert(a + b =~= before + line + seq!['\n'] + (after + b));
        assert(shown_between(a + b, before, line, after + b));
    }
    assert forall|name: Seq<char>, value: Seq<char>| #[trigger] shows(b, name, value) implies shows(
        a + b,
        name,
        value,
    ) by {
        let line = name + seq![' '] + value;
        let (before, after) = choose|before: Seq<char>, after: Seq<char>| #[trigger]
            shown_between(b, before, line, after);
        assert(a + b =~= (a + before) + line + seq!['\n'] + after);
        if before.len() == 0 {
            assert(a + before =~= a);
        } else {
            assert((a + before).last() == before.last());
        }
        assert(shown_between(a + b, a + before, line, after));
    }
}

/// A line with a value is shown.
pub proof fn sample_shows(name: Seq<char>, value: Seq<char>)
    ensures
        ends_line(sample(name, value)),
        shows(sample(name, value), name, value),
{
    reveal(shows);
    reveal(ends_line);
    reveal_strlit(" ");
    reveal_strlit("\n");
    let line = name + seq![' '] + value;
    assert(" "@ =~= seq![' ']);
    assert("\n"@ =~= seq!['\n']);
    let none = Seq::<char>::empty();
    assert(sample(name, value) =~= none + line + seq!['\n'] + none);
    assert(shown_between(sample(name, value), none, line, none));
}

proof fn labelled_shows(name: Seq<char>, label: Seq<char>, key: Seq<char>, value: int)
    ensures
        ends_line(labelled(name, label, key, value)),
        shows(
            labelled(name, label, key, value),
            series(name, label, key),
            text::decimal(value as nat),
        ),
{
    reveal(shows);
    reveal(ends_line);
    reveal_strlit("{");
    reveal_strlit("=\"");
    reveal_strlit("\"} ");
    reveal_strlit("\n");
    assert("{"@ =~= seq!['{']);
    assert("=\""@ =~= seq!['=', '"']);
    assert("\"} "@ =~= seq!['"', '}', ' ']);
    assert("\n"@ =~= seq!['\n']);
    let whole = labelled(name, label, key, value);
    let line = series(name, label, key) + seq![' '] + text::decimal(value as nat);
    let none = Seq::<char>::empty();
    assert(whole =~= none + line + seq!['\n'] + none);
    assert(shown_between(whole, none, line, none));
}

/// What introduces a metric is made of whole lines, which explain it and declare its kind.
pub proof fn header_ends(name: Seq<char>, help: Seq<char>, kind: Seq<char>)
    ensures
        ends_line(header(name, help, kind)),
        declared(header(name, help, kind), name, kind),
        shows(header(name, help, kind), "# HELP "@ + name, help),
{
    reveal(shows);
    reveal(ends_line);
    reveal_strlit(" ");
    reveal_strlit("\n");
    reveal_strlit("# TYPE ");
    reveal_strlit("\n# TYPE ");
    assert(" "@ =~= seq![' ']);
    assert("\n"@ =~= seq!['\n']);
    assert("\n# TYPE "@ =~= seq!['\n'] + "# TYPE "@);
    let whole = header(name, help, kind);
    let none = Seq::<char>::empty();
    let first = "# HELP "@ + name + seq![' '] + help;
    let second = "# TYPE "@ + name + seq![' '] + kind;
    assert(whole.last() == '\n');
    assert(whole =~= none + first + seq!['\n'] + (second + seq!['\n']));
    assert(shown_between(whole, none, first, second + seq!['\n']));
    assert(whole =~= (first + seq!['\n']) + second + seq!['\n'] + none);
    assert((first + seq!['\n']).last() == '\n');
    assert(shown_between(whole, first + seq!['\n'], second, none));
}

/// A newline alone is a whole line.
pub proof fn newline_ends()
    ensures
        ends_line("\n"@),
{
    reveal(ends_line);
    reveal_strlit("\n");
}

/// A metric with a single value is shown under its name.
pub proof fn family_shows(name: Seq<char>, help: Seq<char>, kind: Seq<char>, value: Seq<char>)
    ensures
        ends_line(family(name, help, kind, value)),
        shows(family(name, help, kind, value), name, value),
        declared(family(name, help, kind, value), name, kind),
{
    header_ends(name, help, kind);
    sample_shows(name, value);
    newline_ends();
    lines_stay(header(name, help, kind), sample(name, value));
    lines_stay(header(name, help, kind) + sample(name, value), "\n"@);
}

/// A counter is shown under its name.
pub proof fn counter_shows(name: Seq<char>, help: Seq<char>, value: u64)
    ensures
        ends_line(counter(name, help, value)),
        shows(counter(name, help, value), name, text::decimal(value as nat)),
        declared(counter(name, help, value), name, "counter"@),
{
    family_shows(name, help, "counter"@, text::decimal(value as nat));
}

/// The line of each entry is shown.
proof fn lines_show(name: Seq<char>, label: Seq<char>, entries: Seq<(Seq<char>, u64)>)
    ensures
        ends_line(lines(name, label, entries)),
        forall|i: int|
            0 <= i < entries.len() ==> shows(
                lines(name, label, entries),
                series(name, label, (#[trigger] entries[i]).0),
                text::decimal(entries[i].1 as nat),
            ),
    decreases entries.len(),
{
    reveal(ends_line);
    if entries.len() > 0 {
        let front = entries.drop_last();
        let last = entries.last();
        lines_show(name, label, front);
        labelled_shows(name, label, last.0, last.1 as int);
        lines_stay(lines(name, label, front), labelled(name, label, last.0, last.1 as int));
        assert forall|i: int| 0 <= i < entries.len() implies shows(
            lines(name, label, entries),
            series(name, label, (#[trigger] entries[i]).0),
            text::decimal(entries[i].1 as nat),
        ) by {
            if i < front.len() {
                assert(front[i] == entries[i]);
            }
        }
    }
}

/// A counter with labels is shown under each of them.
pub proof fn counters_show(
    name: Seq<char>,
    help: Seq<char>,
    label: Seq<char>,
    entries: Seq<(Seq<char>, u64)>,
)
    ensures
        ends_line(counters(name, help, label, entries)),
        forall|i: int|
            0 <= i < entries.len() ==> shows(
                counters(name, help, label, entries),
                series(name, label, (#[trigger] entries[i]).0),
                text::decimal(entries[i].1 as nat),
            ),
        declared(counters(name, help, label, entries), name, "counter"@),
{
    header_ends(name, help, "counter"@);
    lines_show(name, label, entries);
    lines_stay(header(name, help, "counter"@), lines(name, label, entries));
}

/// A counter of `t` is shown under its name.
pub open spec fn shows_counter(text: Seq<char>, t: ThreadStats, c: Counter) -> bool {
    scraped_name(c) matches Some(name) && shows(text, name, text::decimal(t.get(c) as nat))
}

proof fn totals_shown(t: ThreadStats, g: Gauges)
    ensures
        ends_line(total_section(t, g)),
        declared(total_section(t, g), "custos_up"@, "gauge"@),
        declared(total_section(t, g), "custos_uptime_seconds"@, "counter"@),
        declared(total_section(t, g), "custos_rx_packets_total"@, "counter"@),
        declared(total_section(t, g), "custos_rx_bytes_total"@, "counter"@),
        declared(total_section(t, g), "custos_tx_packets_total"@, "counter"@),
        declared(total_section(t, g), "custos_tx_bytes_total"@, "counter"@),
        declared(total_section(t, g), "custos_recycled_packets_total"@, "counter"@),
        declared(total_section(t, g), "custos_dropped_packets_total"@, "counter"@),
        shows(total_section(t, g), "custos_up"@, "1"@),
        shows(total_section(t, g), "custos_uptime_seconds"@, g.uptime@),
        shows_counter(total_section(t, g), t, Counter::RxPackets),
        shows_counter(total_section(t, g), t, Counter::RxBytes),
        shows_counter(total_section(t, g), t, Counter::TxPackets),
        shows_counter(total_section(t, g), t, Counter::TxBytes),
        shows_counter(total_section(t, g), t, Counter::RecycledPackets),
        shows_counter(total_section(t, g), t, Counter::DropValidationFailed),
{
    reveal(total_section);
    let s1 = family("custos_up"@, "Appliance status (1 for running)."@, "gauge"@, "1"@);
    let f2 = family(
        "custos_uptime_seconds"@,
        "Appliance uptime in seconds."@,
        "counter"@,
        g.uptime@,
    );
    let f3 = counter(
        "custos_rx_packets_total"@,
        "Total packets received across all cores."@,
        t.rx_packets,
    );
    let f4 = counter(
        "custos_rx_bytes_total"@,
        "Total bytes received across all cores."@,
        t.rx_bytes,
    );
    let f5 = counter(
        "custos_tx_packets_total"@,
        "Total packets transmitted across all cores."@,
        t.tx_packets,
    );
    let f6 = counter(
        "custos_tx_bytes_total"@,
        "Total bytes transmitted across all cores."@,
        t.tx_bytes,
    );
    let f7 = counter(
        "custos_recycled_packets_total"@,
        "Total frames recycled back to UMEM fill ring."@,
        t.recycled_packets,
    );
    let f8 = counters(
        "custos_dropped_packets_total"@,
        "Total dropped packets by drop reason."@,
        "reason"@,
        drops(t),
    );
    family_shows("custos_up"@, "Appliance status (1 for running)."@, "gauge"@, "1"@);
    family_shows(
        "custos_uptime_seconds"@,
        "Appliance uptime in seconds."@,
        "counter"@,
        g.uptime@,
    );
    counter_shows(
        "custos_rx_packets_total"@,
        "Total packets received across all cores."@,
        t.rx_packets,
    );
    counter_shows(
        "custos_rx_bytes_total"@,
        "Total bytes received across all cores."@,
        t.rx_bytes,
    );
    counter_shows(
        "custos_tx_packets_total"@,
        "Total packets transmitted across all cores."@,
        t.tx_packets,
    );
    counter_shows(
        "custos_tx_bytes_total"@,
        "Total bytes transmitted across all cores."@,
        t.tx_bytes,
    );
    counter_shows(
        "custos_recycled_packets_total"@,
        "Total frames recycled back to UMEM fill ring."@,
        t.recycled_packets,
    );
    counters_show(
        "custos_dropped_packets_total"@,
        "Total dropped packets by drop reason."@,
        "reason"@,
        drops(t),
    );
    assert(drops(t)[0].0 == "validation_failed"@);
    newline_ends();
    lines_stay(s1, f2);
    lines_stay(s1 + f2, f3);
    lines_stay(s1 + f2 + f3, f4);
    lines_stay(s1 + f2 + f3 + f4, f5);
    lines_stay(s1 + f2 + f3 + f4 + f5, f6);
    lines_stay(s1 + f2 + f3 + f4 + f5 + f6, f7);
    lines_stay(s1 + f2 + f3 + f4 + f5 + f6 + f7, f8);
    lines_stay(s1 + f2 + f3 + f4 + f5 + f6 + f7 + f8, "\n"@);
}

proof fn reasons_shown(t: ThreadStats)
    ensures
        ends_line(reason_section(t)),
        declared(reason_section(t), "custos_protocol_packets_total"@, "counter"@),
        declared(reason_section(t), "custos_parser_errors_total"@, "counter"@),
        declared(reason_section(t), "custos_anomalies_total"@, "counter"@),
        shows_counter(reason_section(t), t, Counter::StatIpv4),
        shows_counter(reason_section(t), t, Counter::StatTcp),
        shows_counter(reason_section(t), t, Counter::StatHttp2Data),
        shows_counter(reason_section(t), t, Counter::StatGrpc),
        shows_counter(reason_section(t), t, Counter::StatProtobuf),
        shows_counter(reason_section(t), t, Counter::ErrTooSmall),
        shows_counter(reason_section(t), t, Counter::ErrNonIpv4),
        shows_counter(reason_section(t), t, Counter::ErrBadIpLen),
        shows_counter(reason_section(t), t, Counter::ErrNonTcp),
        shows_counter(reason_section(t), t, Counter::ErrBadIpCsum),
        shows_counter(reason_section(t), t, Counter::ErrBadTcpLen),
        shows_counter(reason_section(t), t, Counter::ErrWrongPort),
        shows_counter(reason_section(t), t, Counter::ErrBadHttp2),
        shows_counter(reason_section(t), t, Counter::ErrNonHttp2Data),
        shows_counter(reason_section(t), t, Counter::ErrBadGrpc),
        shows_counter(reason_section(t), t, Counter::ErrL4Overflow),
        shows_counter(reason_section(t), t, Counter::AnomalyInvalidVarint),
        shows_counter(reason_section(t), t, Counter::AnomalyInvalidWireType),
        shows_counter(reason_section(t), t, Counter::AnomalyRecursionLimit),
        shows_counter(reason_section(t), t, Counter::AnomalyBufferUnderflow),
        shows_counter(reason_section(t), t, Counter::AnomalyShapeDimLimit),
        shows_counter(reason_section(t), t, Counter::AnomalyShapeValInvalid),
        shows_counter(reason_section(t), t, Counter::AnomalyTensorSizeLimit),
        shows_counter(reason_section(t), t, Counter::AnomalyInvalidVarintBytes),
{
    reveal(reason_section);
    let a = counters(
        "custos_protocol_packets_total"@,
        "Total packets inspected by protocol."@,
        "protocol"@,
        protocols(t),
    );
    let b = counters(
        "custos_parser_errors_total"@,
        "Total L2-L5 parser errors by reason."@,
        "reason"@,
        failures(t),
    );
    let c = counters(
        "custos_anomalies_total"@,
        "Total Protobuf wire-format anomalies by type."@,
        "type"@,
        anomalies(t),
    );
    counters_show(
        "custos_protocol_packets_total"@,
        "Total packets inspected by protocol."@,
        "protocol"@,
        protocols(t),
    );
    counters_show(
        "custos_parser_errors_total"@,
        "Total L2-L5 parser errors by reason."@,
        "reason"@,
        failures(t),
    );
    counters_show(
        "custos_anomalies_total"@,
        "Total Protobuf wire-format anomalies by type."@,
        "type"@,
        anomalies(t),
    );
    assert(protocols(t)[0].0 == "ipv4"@);
    assert(protocols(t)[1].0 == "tcp"@);
    assert(protocols(t)[2].0 == "http2"@);
    assert(protocols(t)[3].0 == "grpc"@);
    assert(protocols(t)[4].0 == "protobuf"@);
    assert(failures(t)[0].0 == "too_small"@);
    assert(failures(t)[1].0 == "non_ipv4"@);
    assert(failures(t)[2].0 == "bad_ip_len"@);
    assert(failures(t)[3].0 == "non_tcp"@);
    assert(failures(t)[4].0 == "bad_ip_csum"@);
    assert(failures(t)[5].0 == "bad_tcp_len"@);
    assert(failures(t)[6].0 == "wrong_port"@);
    assert(failures(t)[7].0 == "bad_http2"@);
    assert(failures(t)[8].0 == "non_http2_data"@);
    assert(failures(t)[9].0 == "bad_grpc"@);
    assert(failures(t)[10].0 == "l4_overflow"@);
    assert(anomalies(t)[0].0 == "invalid_varint"@);
    assert(anomalies(t)[1].0 == "invalid_wire_type"@);
    assert(anomalies(t)[2].0 == "recursion_limit"@);
    assert(anomalies(t)[3].0 == "buffer_underflow"@);
    assert(anomalies(t)[4].0 == "shape_dim_limit"@);
    assert(anomalies(t)[5].0 == "shape_val_invalid"@);
    assert(anomalies(t)[6].0 == "tensor_size_limit"@);
    assert(anomalies(t)[7].0 == "invalid_varint_bytes"@);
    newline_ends();
    lines_stay(a, "\n"@);
    lines_stay(a + "\n"@, b);
    lines_stay(a + "\n"@ + b, "\n"@);
    lines_stay(a + "\n"@ + b + "\n"@, c);
    lines_stay(a + "\n"@ + b + "\n"@ + c, "\n"@);
}

proof fn sizes_shown(t: ThreadStats)
    requires
        payload_buckets(t)[4] <= u64::MAX,
    ensures
        ends_line(payload_section(t)),
        declared(payload_section(t), "custos_payload_bytes"@, "histogram"@),
        shows(
            payload_section(t),
            series("custos_payload_bytes_bucket"@, "le"@, "64"@),
            text::decimal((t.get(Counter::HistPayload064)) as nat),
        ),
        shows(
            payload_section(t),
            series("custos_payload_bytes_bucket"@, "le"@, "256"@),
            text::decimal(
                (t.get(Counter::HistPayload064) + t.get(Counter::HistPayload65256)) as nat,
            ),
        ),
        shows(
            payload_section(t),
            series("custos_payload_bytes_bucket"@, "le"@, "1024"@),
            text::decimal(
                (t.get(Counter::HistPayload064) + t.get(Counter::HistPayload65256)
                    + t.get(Counter::HistPayload2571024)) as nat,
            ),
        ),
        shows(
            payload_section(t),
            series("custos_payload_bytes_bucket"@, "le"@, "2048"@),
            text::decimal(
                (t.get(Counter::HistPayload064) + t.get(Counter::HistPayload65256)
                    + t.get(Counter::HistPayload2571024)
                    + t.get(Counter::HistPayload10252048)) as nat,
            ),
        ),
        shows(
            payload_section(t),
            series("custos_payload_bytes_bucket"@, "le"@, "+Inf"@),
            text::decimal(
                (t.get(Counter::HistPayload064) + t.get(Counter::HistPayload65256)
                    + t.get(Counter::HistPayload2571024)
                    + t.get(Counter::HistPayload10252048)
                    + t.get(Counter::HistPayload2049Inf)) as nat,
            ),
        ),
        shows(
            payload_section(t),
            "custos_payload_bytes_count"@,
            text::decimal(
                (t.get(Counter::HistPayload064) + t.get(Counter::HistPayload65256)
                    + t.get(Counter::HistPayload2571024)
                    + t.get(Counter::HistPayload10252048)
                    + t.get(Counter::HistPayload2049Inf)) as nat,
            ),
        ),
{
    reveal(payload_section);
    metrics::fields_are_counters(t);
    let a = header("custos_payload_bytes"@, "Payload size histogram in bytes."@, "histogram"@);
    let b = lines("custos_payload_bytes_bucket"@, "le"@, size_entries(t));
    let c = sample("custos_payload_bytes_count"@, text::decimal(payload_buckets(t)[4] as nat));
    header_ends("custos_payload_bytes"@, "Payload size histogram in bytes."@, "histogram"@);
    lines_show("custos_payload_bytes_bucket"@, "le"@, size_entries(t));
    sample_shows("custos_payload_bytes_count"@, text::decimal(payload_buckets(t)[4] as nat));
    newline_ends();
    assert(size_entries(t)[0].0 == "64"@);
    assert(size_entries(t)[1].0 == "256"@);
    assert(size_entries(t)[2].0 == "1024"@);
    assert(size_entries(t)[3].0 == "2048"@);
    assert(size_entries(t)[4].0 == "+Inf"@);
    lines_stay(a, b);
    lines_stay(a + b, c);
    lines_stay(a + b + c, "\n"@);
}

proof fn latencies_shown(t: ThreadStats, sum: Seq<char>)
    requires
        latency_buckets(t)[6] <= u64::MAX,
    ensures
        ends_line(latency_section(t, sum)),
        declared(latency_section(t, sum), "custos_processing_latency_seconds"@, "histogram"@),
        shows(latency_section(t, sum), "custos_processing_latency_seconds_sum"@, sum),
        shows_counter(latency_section(t, sum), t, Counter::LatencyCount),
        shows(
            latency_section(t, sum),
            series("custos_processing_latency_seconds_bucket"@, "le"@, "0.0000001"@),
            text::decimal((t.get(Counter::HistLatency100ns)) as nat),
        ),
        shows(
            latency_section(t, sum),
            series("custos_processing_latency_seconds_bucket"@, "le"@, "0.0000005"@),
            text::decimal(
                (t.get(Counter::HistLatency100ns) + t.get(Counter::HistLatency500ns)) as nat,
            ),
        ),
        shows(
            latency_section(t, sum),
            series("custos_processing_latency_seconds_bucket"@, "le"@, "0.000001"@),
            text::decimal(
                (t.get(Counter::HistLatency100ns) + t.get(Counter::HistLatency500ns)
                    + t.get(Counter::HistLatency1us)) as nat,
            ),
        ),
        shows(
            latency_section(t, sum),
            series("custos_processing_latency_seconds_bucket"@, "le"@, "0.000005"@),
            text::decimal(
                (t.get(Counter::HistLatency100ns) + t.get(Counter::HistLatency500ns)
                    + t.get(Counter::HistLatency1us) + t.get(Counter::HistLatency5us)) as nat,
            ),
        ),
        shows(
            latency_section(t, sum),
            series("custos_processing_latency_seconds_bucket"@, "le"@, "0.00001"@),
            text::decimal(
                (t.get(Counter::HistLatency100ns) + t.get(Counter::HistLatency500ns)
                    + t.get(Counter::HistLatency1us) + t.get(Counter::HistLatency5us)
                    + t.get(Counter::HistLatency10us)) as nat,
            ),
        ),
        shows(
            latency_section(t, sum),
            series("custos_processing_latency_seconds_bucket"@, "le"@, "0.00005"@),
            text::decimal(
                (t.get(Counter::HistLatency100ns) + t.get(Counter::HistLatency500ns)
                    + t.get(Counter::HistLatency1us) + t.get(Counter::HistLatency5us)
                    + t.get(Counter::HistLatency10us) + t.get(Counter::HistLatency50us)) as nat,
            ),
        ),
        shows(
            latency_section(t, sum),
            series("custos_processing_latency_seconds_bucket"@, "le"@, "+Inf"@),
            text::decimal(
                (t.get(Counter::HistLatency100ns) + t.get(Counter::HistLatency500ns)
                    + t.get(Counter::HistLatency1us) + t.get(Counter::HistLatency5us)
                    + t.get(Counter::HistLatency10us) + t.get(Counter::HistLatency50us)
                    + t.get(Counter::HistLatencyInf)) as nat,
            ),
        ),
{
    reveal(latency_section);
    metrics::fields_are_counters(t);
    let a = header(
        "custos_processing_latency_seconds"@,
        "Packet processing latency histogram in seconds."@,
        "histogram"@,
    );
    let b = lines("custos_processing_latency_seconds_bucket"@, "le"@, latency_entries(t));
    let c = sample("custos_processing_latency_seconds_sum"@, sum);
    let d = sample(
        "custos_processing_latency_seconds_count"@,
        text::decimal(t.latency_count as nat),
    );
    header_ends(
        "custos_processing_latency_seconds"@,
        "Packet processing latency histogram in seconds."@,
        "histogram"@,
    );
    lines_show("custos_processing_latency_seconds_bucket"@, "le"@, latency_entries(t));
    sample_shows("custos_processing_latency_seconds_sum"@, sum);
    sample_shows(
        "custos_processing_latency_seconds_count"@,
        text::decimal(t.latency_count as nat),
    );
    newline_ends();
    assert(latency_entries(t)[0].0 == "0.0000001"@);
    assert(latency_entries(t)[1].0 == "0.0000005"@);
    assert(latency_entries(t)[2].0 == "0.000001"@);
    assert(latency_entries(t)[3].0 == "0.000005"@);
    assert(latency_entries(t)[4].0 == "0.00001"@);
    assert(latency_entries(t)[5].0 == "0.00005"@);
    assert(latency_entries(t)[6].0 == "+Inf"@);
    lines_stay(a, b);
    lines_stay(a + b, c);
    lines_stay(a + b + c, d);
    lines_stay(a + b + c + d, "\n"@);
}

proof fn rates_shown(g: Gauges)
    ensures
        ends_line(rate_section(g)),
        declared(rate_section(g), "custos_rx_pps"@, "gauge"@),
        declared(rate_section(g), "custos_tx_pps"@, "gauge"@),
        declared(rate_section(g), "custos_rx_bps"@, "gauge"@),
        declared(rate_section(g), "custos_tx_bps"@, "gauge"@),
        shows(rate_section(g), "custos_rx_pps"@, g.rx_pps@),
        shows(rate_section(g), "custos_tx_pps"@, g.tx_pps@),
        shows(rate_section(g), "custos_rx_bps"@, g.rx_bps@),
        shows(rate_section(g), "custos_tx_bps"@, g.tx_bps@),
{
    reveal(rate_section);
    let a = family(
        "custos_rx_pps"@,
        "Calculated RX rate in packets per second."@,
        "gauge"@,
        g.rx_pps@,
    );
    let b = family(
        "custos_tx_pps"@,
        "Calculated TX rate in packets per second."@,
        "gauge"@,
        g.tx_pps@,
    );
    let c = family(
        "custos_rx_bps"@,
        "Calculated RX rate in bytes per second."@,
        "gauge"@,
        g.rx_bps@,
    );
    let d = header("custos_tx_bps"@, "Calculated TX rate in bytes per second."@, "gauge"@);
    let e = sample("custos_tx_bps"@, g.tx_bps@);
    family_shows(
        "custos_rx_pps"@,
        "Calculated RX rate in packets per second."@,
        "gauge"@,
        g.rx_pps@,
    );
    family_shows(
        "custos_tx_pps"@,
        "Calculated TX rate in packets per second."@,
        "gauge"@,
        g.tx_pps@,
    );
    family_shows(
        "custos_rx_bps"@,
        "Calculated RX rate in bytes per second."@,
        "gauge"@,
        g.rx_bps@,
    );
    header_ends("custos_tx_bps"@, "Calculated TX rate in bytes per second."@, "gauge"@);
    sample_shows("custos_tx_bps"@, g.tx_bps@);
    lines_stay(a, b);
    lines_stay(a + b, c);
    lines_stay(a + b + c, d);
    lines_stay(a + b + c + d, e);
}

/// The lines of one core are shown under its number.
pub open spec fn shows_core(text: Seq<char>, index: int, t: ThreadStats) -> bool {
    &&& shows(
        text,
        series("custos_core_rx_packets_total"@, "core"@, text::decimal(index as nat)),
        text::decimal(t.get(Counter::RxPackets) as nat),
    )
    &&& shows(
        text,
        series("custos_core_tx_packets_total"@, "core"@, text::decimal(index as nat)),
        text::decimal(t.get(Counter::TxPackets) as nat),
    )
    &&& shows(
        text,
        series("custos_core_dropped_packets_total"@, "core"@, text::decimal(index as nat)),
        text::decimal(t.get(Counter::DropValidationFailed) as nat),
    )
    &&& shows(
        text,
        series("custos_core_rx_bytes_total"@, "core"@, text::decimal(index as nat)),
        text::decimal(t.get(Counter::RxBytes) as nat),
    )
    &&& shows(
        text,
        series("custos_core_tx_bytes_total"@, "core"@, text::decimal(index as nat)),
        text::decimal(t.get(Counter::TxBytes) as nat),
    )
}

proof fn core_shown(index: int, t: ThreadStats)
    ensures
        ends_line(core_section(index, t)),
        shows_core(core_section(index, t), index, t),
{
    reveal(core_section);
    let key = text::decimal(index as nat);
    let a = labelled("custos_core_rx_packets_total"@, "core"@, key, t.rx_packets as int);
    let b = labelled("custos_core_tx_packets_total"@, "core"@, key, t.tx_packets as int);
    let c = labelled(
        "custos_core_dropped_packets_total"@,
        "core"@,
        key,
        t.drop_validation_failed as int,
    );
    let d = labelled("custos_core_rx_bytes_total"@, "core"@, key, t.rx_bytes as int);
    let e = labelled("custos_core_tx_bytes_total"@, "core"@, key, t.tx_bytes as int);
    labelled_shows("custos_core_rx_packets_total"@, "core"@, key, t.rx_packets as int);
    labelled_shows("custos_core_tx_packets_total"@, "core"@, key, t.tx_packets as int);
    labelled_shows(
        "custos_core_dropped_packets_total"@,
        "core"@,
        key,
        t.drop_validation_failed as int,
    );
    labelled_shows("custos_core_rx_bytes_total"@, "core"@, key, t.rx_bytes as int);
    labelled_shows("custos_core_tx_bytes_total"@, "core"@, key, t.tx_bytes as int);
    lines_stay(a, b);
    lines_stay(a + b, c);
    lines_stay(a + b + c, d);
    lines_stay(a + b + c + d, e);
}

proof fn cores_shown(stats: Seq<ThreadStats>)
    ensures
        ends_line(core_sections(stats)),
        forall|i: int|
            0 <= i < stats.len() ==> shows_core(core_sections(stats), i, #[trigger] stats[i]),
    decreases stats.len(),
{
    reveal(ends_line);
    if stats.len() > 0 {
        let front = stats.drop_last();
        let last = stats.len() - 1;
        cores_shown(front);
        core_shown(last, stats.last());
        lines_stay(core_sections(front), core_section(last, stats.last()));
        assert(core_sections(stats) == core_sections(front) + core_section(last, stats.last()));
        assert forall|i: int| 0 <= i < stats.len() implies shows_core(
            core_sections(stats),
            i,
            #[trigger] stats[i],
        ) by {
            if i < last {
                assert(front[i] == stats[i]);
                assert(shows_core(core_sections(front), i, front[i]));
            }
        }
    }
}

proof fn core_header_ends()
    ensures
        ends_line(core_header()),
        declared(core_header(), "custos_core_rx_packets_total"@, "counter"@),
        declared(core_header(), "custos_core_tx_packets_total"@, "counter"@),
        declared(core_header(), "custos_core_dropped_packets_total"@, "counter"@),
        declared(core_header(), "custos_core_rx_bytes_total"@, "counter"@),
        declared(core_header(), "custos_core_tx_bytes_total"@, "counter"@),
{
    reveal(core_header);
    let a = header(
        "custos_core_rx_packets_total"@,
        "Received packets per CPU core."@,
        "counter"@,
    );
    let b = header(
        "custos_core_tx_packets_total"@,
        "Transmitted packets per CPU core."@,
        "counter"@,
    );
    let c = header(
        "custos_core_dropped_packets_total"@,
        "Dropped packets per CPU core."@,
        "counter"@,
    );
    let d = header("custos_core_rx_bytes_total"@, "Received bytes per CPU core."@, "counter"@);
    let e = header("custos_core_tx_bytes_total"@, "Transmitted bytes per CPU core."@, "counter"@);
    header_ends(
        "custos_core_rx_packets_total"@,
        "Received packets per CPU core."@,
        "counter"@,
    );
    header_ends(
        "custos_core_tx_packets_total"@,
        "Transmitted packets per CPU core."@,
        "counter"@,
    );
    header_ends(
        "custos_core_dropped_packets_total"@,
        "Dropped packets per CPU core."@,
        "counter"@,
    );
    header_ends("custos_core_rx_bytes_total"@, "Received bytes per CPU core."@, "counter"@);
    header_ends("custos_core_tx_bytes_total"@, "Transmitted bytes per CPU core."@, "counter"@);
    lines_stay(a, b);
    lines_stay(a + b, c);
    lines_stay(a + b + c, d);
    lines_stay(a + b + c + d, e);
}

/// The text shows every counter over all workers, and every counter of a single core,
/// under its own name, on a line of its own: the name, a space and the value in
/// decimal notation. The other figures are shown as they were given.
pub proof fn every_counter_is_shown(stats: Seq<ThreadStats>, g: Gauges)
    requires
        totals_fit(stats),
        histograms_fit(stats),
    ensures
        forall|c: Counter|
            scraped_name(c) is Some ==> shows(
                exposition(stats, g),
                scraped_name(c)->0,
                text::decimal(#[trigger] metrics::total(stats, c) as nat),
            ),
        forall|i: int|
            0 <= i < stats.len() ==> shows_core(exposition(stats, g), i, #[trigger] stats[i]),
        shows(exposition(stats, g), "custos_up"@, "1"@),
        shows(exposition(stats, g), "custos_uptime_seconds"@, g.uptime@),
        shows(
            exposition(stats, g),
            "custos_processing_latency_seconds_sum"@,
            g.latency_sum@,
        ),
        shows(exposition(stats, g), "custos_rx_pps"@, g.rx_pps@),
        shows(exposition(stats, g), "custos_tx_pps"@, g.tx_pps@),
        shows(exposition(stats, g), "custos_rx_bps"@, g.rx_bps@),
        shows(exposition(stats, g), "custos_tx_bps"@, g.tx_bps@),
{
    let t = summed(stats);
    metrics::summed_gets(stats);
    sections_end(stats, g);
    sections_are_shown(t, core_sections(stats), g);
    totals_shown(t, g);
    cores_shown(stats);
    reasons_shown(t);
    latencies_shown(t, g.latency_sum@);
    rates_shown(g);
    assert forall|i: int| 0 <= i < stats.len() implies shows_core(
        exposition(stats, g),
        i,
        #[trigger] stats[i],
    ) by {
        assert(shows_core(core_sections(stats), i, stats[i]));
    }
    assert forall|c: Counter| scraped_name(c) is Some implies shows(
        exposition(stats, g),
        scraped_name(c)->0,
        text::decimal(#[trigger] metrics::total(stats, c) as nat),
    ) by {
        assert(t.get(c) == metrics::total(stats, c));
        assert(shows_counter(total_section(t, g), t, c) || shows_counter(reason_section(t), t, c)
            || shows_counter(latency_section(t, g.latency_sum@), t, c));
    }
}

/// The text shows, for each bucket of a histogram, how many values of all workers are
/// not above its upper end.
pub proof fn every_bucket_is_shown(stats: Seq<ThreadStats>, g: Gauges)
    requires
        totals_fit(stats),
        histograms_fit(stats),
    ensures
        ({
            let s = exposition(stats, g);
            let n = |c: Counter| metrics::total(stats, c);
            let size = |key: Seq<char>, value: int| shows(
                s,
                series("custos_payload_bytes_bucket"@, "le"@, key),
                text::decimal(value as nat),
            );
            let time = |key: Seq<char>, value: int| shows(
                s,
                series("custos_processing_latency_seconds_bucket"@, "le"@, key),
                text::decimal(value as nat),
            );
            &&& size("64"@, n(Counter::HistPayload064))
            &&& size("256"@, n(Counter::HistPayload064) + n(Counter::HistPayload65256))
            &&& size(
                "1024"@,
                n(Counter::HistPayload064) + n(Counter::HistPayload65256)
                    + n(Counter::HistPayload2571024),
            )
            &&& size(
                "2048"@,
                n(Counter::HistPayload064) + n(Counter::HistPayload65256)
                    + n(Counter::HistPayload2571024) + n(Counter::HistPayload10252048),
            )
            &&& size(
                "+Inf"@,
                n(Counter::HistPayload064) + n(Counter::HistPayload65256)
                    + n(Counter::HistPayload2571024) + n(Counter::HistPayload10252048)
                    + n(Counter::HistPayload2049Inf),
            )
            &&& shows(
                s,
                "custos_payload_bytes_count"@,
                text::decimal(
                    (n(Counter::HistPayload064) + n(Counter::HistPayload65256)
                        + n(Counter::HistPayload2571024) + n(Counter::HistPayload10252048)
                        + n(Counter::HistPayload2049Inf)) as nat,
                ),
            )
            &&& time("0.0000001"@, n(Counter::HistLatency100ns))
            &&& time("0.0000005"@, n(Counter::HistLatency100ns) + n(Counter::HistLatency500ns))
            &&& time(
                "0.000001"@,
                n(Counter::HistLatency100ns) + n(Counter::HistLatency500ns)
                    + n(Counter::HistLatency1us),
            )
            &&& time(
                "0.000005"@,
                n(Counter::HistLatency100ns) + n(Counter::HistLatency500ns)
                    + n(Counter::HistLatency1us) + n(Counter::HistLatency5us),
            )
            &&& time(
                "0.00001"@,
                n(Counter::HistLatency100ns) + n(Counter::HistLatency500ns)
                    + n(Counter::HistLatency1us) + n(Counter::HistLatency5us)
                    + n(Counter::HistLatency10us),
            )
            &&& time(
                "0.00005"@,
                n(Counter::HistLatency100ns) + n(Counter::HistLatency500ns)
                    + n(Counter::HistLatency1us) + n(Counter::HistLatency5us)
                    + n(Counter::HistLatency10us) + n(Counter::HistLatency50us),
            )
            &&& time(
                "+Inf"@,
                n(Counter::HistLatency100ns) + n(Counter::HistLatency500ns)
                    + n(Counter::HistLatency1us) + n(Counter::HistLatency5us)
                    + n(Counter::HistLatency10us) + n(Counter::HistLatency50us)
                    + n(Counter::HistLatencyInf),
            )
        }),
{
    let t = summed(stats);
    metrics::summed_gets(stats);
    sections_end(stats, g);
    sections_are_shown(t, core_sections(stats), g);
    sizes_shown(t);
    latencies_shown(t, g.latency_sum@);
    assert(t.get(Counter::HistPayload064) == metrics::total(stats, Counter::HistPayload064));
    assert(t.get(Counter::HistPayload65256) == metrics::total(stats, Counter::HistPayload65256));
    assert(t.get(Counter::HistPayload2571024) == metrics::total(
        stats,
        Counter::HistPayload2571024,
    ));
    assert(t.get(Counter::HistPayload10252048) == metrics::total(
        stats,
        Counter::HistPayload10252048,
    ));
    assert(t.get(Counter::HistPayload2049Inf) == metrics::total(
        stats,
        Counter::HistPayload2049Inf,
    ));
    assert(t.get(Counter::HistLatency100ns) == metrics::total(stats, Counter::HistLatency100ns));
    assert(t.get(Counter::HistLatency500ns) == metrics::total(stats, Counter::HistLatency500ns));
    assert(t.get(Counter::HistLatency1us) == metrics::total(stats, Counter::HistLatency1us));
    assert(t.get(Counter::HistLatency5us) == metrics::total(stats, Counter::HistLatency5us));
    assert(t.get(Counter::HistLatency10us) == metrics::total(stats, Counter::HistLatency10us));
    assert(t.get(Counter::HistLatency50us) == metrics::total(stats, Counter::HistLatency50us));
    assert(t.get(Counter::HistLatencyInf) == metrics::total(stats, Counter::HistLatencyInf));
}

/// Whatever a section shows, the whole text shows.
proof fn sections_are_shown(t: ThreadStats, cores: Seq<char>, g: Gauges)
    requires
        ends_line(cores),
        ends_line(total_section(t, g)),
        ends_line(reason_section(t)),
        ends_line(payload_section(t)),
        ends_line(latency_section(t, g.latency_sum@)),
        ends_line(rate_section(g)),
    ensures
        forall|name: Seq<char>, value: Seq<char>| #[trigger]
            shows(total_section(t, g), name, value) ==> shows(
                exposition_of(t, cores, g),
                name,
                value,
            ),
        forall|name: Seq<char>, value: Seq<char>| #[trigger]
            shows(core_header(), name, value) ==> shows(
                exposition_of(t, cores, g),
                name,
                value,
            ),
        forall|name: Seq<char>, value: Seq<char>| #[trigger]
            shows(cores, name, value) ==> shows(exposition_of(t, cores, g), name, value),
        forall|name: Seq<char>, value: Seq<char>| #[trigger]
            shows(reason_section(t), name, value) ==> shows(
                exposition_of(t, cores, g),
                name,
                value,
            ),
        forall|name: Seq<char>, value: Seq<char>| #[trigger]
            shows(payload_section(t), name, value) ==> shows(
                exposition_of(t, cores, g),
                name,
                value,
            ),
        forall|name: Seq<char>, value: Seq<char>| #[trigger]
            shows(latency_section(t, g.latency_sum@), name, value) ==> shows(
                exposition_of(t, cores, g),
                name,
                value,
            ),
        forall|name: Seq<char>, value: Seq<char>| #[trigger]
            shows(rate_section(g), name, value) ==> shows(
                exposition_of(t, cores, g),
                name,
                value,
            ),
{
    let a = total_section(t, g);
    let b = core_header();
    let d = reason_section(t);
    let e = payload_section(t);
    let f = latency_section(t, g.latency_sum@);
    core_header_ends();
    newline_ends();
    lines_stay(a, b);
    lines_stay(a + b, cores);
    lines_stay(a + b + cores, "\n"@);
    lines_stay(a + b + cores + "\n"@, d);
    lines_stay(a + b + cores + "\n"@ + d, e);
    lines_stay(a + b + cores + "\n"@ + d + e, f);
    lines_stay(a + b + cores + "\n"@ + d + e + f, rate_section(g));
}

/// The histograms of the counters that were added up fit where the sums do.
proof fn histograms_stay(stats: Seq<ThreadStats>)
    requires
        totals_fit(stats),
        histograms_fit(stats),
    ensures
        payload_buckets(summed(stats))[4] <= u64::MAX,
        latency_buckets(summed(stats))[6] <= u64::MAX,
{
    let t = summed(stats);
    metrics::summed_gets(stats);
    metrics::fields_are_counters(t);
    assert(t.get(Counter::HistPayload064) == metrics::total(stats, Counter::HistPayload064));
    assert(t.get(Counter::HistPayload65256) == metrics::total(stats, Counter::HistPayload65256));
    assert(t.get(Counter::HistPayload2571024) == metrics::total(
        stats,
        Counter::HistPayload2571024,
    ));
    assert(t.get(Counter::HistPayload10252048) == metrics::total(
        stats,
        Counter::HistPayload10252048,
    ));
    assert(t.get(Counter::HistPayload2049Inf) == metrics::total(
        stats,
        Counter::HistPayload2049Inf,
    ));
    assert(t.get(Counter::HistLatency100ns) == metrics::total(stats, Counter::HistLatency100ns));
    assert(t.get(Counter::HistLatency500ns) == metrics::total(stats, Counter::HistLatency500ns));
    assert(t.get(Counter::HistLatency1us) == metrics::total(stats, Counter::HistLatency1us));
    assert(t.get(Counter::HistLatency5us) == metrics::total(stats, Counter::HistLatency5us));
    assert(t.get(Counter::HistLatency10us) == metrics::total(stats, Counter::HistLatency10us));
    assert(t.get(Counter::HistLatency50us) == metrics::total(stats, Counter::HistLatency50us));
    assert(t.get(Counter::HistLatencyInf) == metrics::total(stats, Counter::HistLatencyInf));
}

/// Every section is made of whole lines.
proof fn sections_end(stats: Seq<ThreadStats>, g: Gauges)
    requires
        totals_fit(stats),
        histograms_fit(stats),
    ensures
        payload_buckets(summed(stats))[4] <= u64::MAX,
        latency_buckets(summed(stats))[6] <= u64::MAX,
        ends_line(core_sections(stats)),
        ends_line(total_section(summed(stats), g)),
        ends_line(reason_section(summed(stats))),
        ends_line(payload_section(summed(stats))),
        ends_line(latency_section(summed(stats), g.latency_sum@)),
        ends_line(rate_section(g)),
{
    let t = summed(stats);
    histograms_stay(stats);
    totals_shown(t, g);
    cores_shown(stats);
    reasons_shown(t);
    sizes_shown(t);
    latencies_shown(t, g.latency_sum@);
    rates_shown(g);
}

/// The text declares the kind of every metric that it shows.
pub proof fn every_metric_is_declared(stats: Seq<ThreadStats>, g: Gauges)
    requires
        totals_fit(stats),
        histograms_fit(stats),
    ensures
        declared(exposition(stats, g), "custos_up"@, "gauge"@),
        declared(exposition(stats, g), "custos_uptime_seconds"@, "counter"@),
        declared(exposition(stats, g), "custos_rx_packets_total"@, "counter"@),
        declared(exposition(stats, g), "custos_rx_bytes_total"@, "counter"@),
        declared(exposition(stats, g), "custos_tx_packets_total"@, "counter"@),
        declared(exposition(stats, g), "custos_tx_bytes_total"@, "counter"@),
        declared(exposition(stats, g), "custos_recycled_packets_total"@, "counter"@),
        declared(exposition(stats, g), "custos_dropped_packets_total"@, "counter"@),
        declared(exposition(stats, g), "custos_core_rx_packets_total"@, "counter"@),
        declared(exposition(stats, g), "custos_core_tx_packets_total"@, "counter"@),
        declared(exposition(stats, g), "custos_core_dropped_packets_total"@, "counter"@),
        declared(exposition(stats, g), "custos_core_rx_bytes_total"@, "counter"@),
        declared(exposition(stats, g), "custos_core_tx_bytes_total"@, "counter"@),
        declared(exposition(stats, g), "custos_protocol_packets_total"@, "counter"@),
        declared(exposition(stats, g), "custos_parser_errors_total"@, "counter"@),
        declared(exposition(stats, g), "custos_anomalies_total"@, "counter"@),
        declared(exposition(stats, g), "custos_payload_bytes"@, "histogram"@),
        declared(exposition(stats, g), "custos_processing_latency_seconds"@, "histogram"@),
        declared(exposition(stats, g), "custos_rx_pps"@, "gauge"@),
        declared(exposition(stats, g), "custos_tx_pps"@, "gauge"@),
        declared(exposition(stats, g), "custos_rx_bps"@, "gauge"@),
        declared(exposition(stats, g), "custos_tx_bps"@, "gauge"@),
{
    let t = summed(stats);
    sections_end(stats, g);
    sections_are_shown(t, core_sections(stats), g);
    totals_shown(t, g);
    core_header_ends();
    reasons_shown(t);
    sizes_shown(t);
    latencies_shown(t, g.latency_sum@);
    rates_shown(g);
}

} // verus!
