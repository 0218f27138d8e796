//! The counters of a packet loop as JSON and as Prometheus text.
use crate::metrics::{Counter, ThreadStats};
use crate::prometheus::{
    anomalies, counter, counter_shows, counter_text, counters, counters_show, counters_text,
    ends_line, failures, lines_stay, list_anomalies, list_failures, list_protocols, named,
    newline_ends, protocols, series, shows,
};
use crate::text;
use crate::text::decimal_text;
use vstd::prelude::*;

verus! {

/// Packets and bytes.
pub open spec fn totals(t: ThreadStats) -> Seq<(Seq<char>, u64)> {
    seq![
        ("rx_packets"@, t.rx_packets),
        ("tx_packets"@, t.tx_packets),
        ("recycled_packets"@, t.recycled_packets),
        ("drop_validation_failed"@, t.drop_validation_failed),
        ("rx_bytes"@, t.rx_bytes),
        ("tx_bytes"@, t.tx_bytes),
    ]
}

fn list_totals(t: &ThreadStats) -> (list: Vec<(&'static str, u64)>)
    ensures
        named(list@) == totals(*t),
{
    let list: Vec<(&str, u64)> = vec![
        ("rx_packets", t.rx_packets),
        ("tx_packets", t.tx_packets),
        ("recycled_packets", t.recycled_packets),
        ("drop_validation_failed", t.drop_validation_failed),
        ("rx_bytes", t.rx_bytes),
        ("tx_bytes", t.tx_bytes),
    ];
    assert(named(list@) =~= totals(*t));
    list
}

/// Packets by their size.
pub open spec fn sizes(t: ThreadStats) -> Seq<(Seq<char>, u64)> {
    seq![
        ("0_64"@, t.hist_payload_0_64),
        ("65_256"@, t.hist_payload_65_256),
        ("257_1024"@, t.hist_payload_257_1024),
        ("1025_2048"@, t.hist_payload_1025_2048),
    ]
}

fn list_sizes(t: &ThreadStats) -> (list: Vec<(&'static str, u64)>)
    ensures
        named(list@) == sizes(*t),
{
    let list: Vec<(&str, u64)> = vec![
        ("0_64", t.hist_payload_0_64),
        ("65_256", t.hist_payload_65_256),
        ("257_1024", t.hist_payload_257_1024),
        ("1025_2048", t.hist_payload_1025_2048),
    ];
    assert(named(list@) =~= sizes(*t));
    list
}

/// Packets by their size, each class under its upper bound.
pub open spec fn size_bounds(t: ThreadStats) -> Seq<(Seq<char>, u64)> {
    seq![
        ("64"@, t.hist_payload_0_64),
        ("256"@, t.hist_payload_65_256),
        ("1024"@, t.hist_payload_257_1024),
        ("2048"@, t.hist_payload_1025_2048),
    ]
}

fn list_size_bounds(t: &ThreadStats) -> (list: Vec<(&'static str, u64)>)
    ensures
        named(list@) == size_bounds(*t),
{
    let list: Vec<(&str, u64)> = vec![
        ("64", t.hist_payload_0_64),
        ("256", t.hist_payload_65_256),
        ("1024", t.hist_payload_257_1024),
        ("2048", t.hist_payload_1025_2048),
    ];
    assert(named(list@) =~= size_bounds(*t));
    list
}

// ---------------------------------------------------------------------------
// JSON
// ---------------------------------------------------------------------------

/// A member of a JSON object with a number as its value.
pub open spec fn member(indent: Seq<char>, entry: (Seq<char>, u64)) -> Seq<char> {
    indent + "\""@ + entry.0 + "\": "@ + text::decimal(entry.1 as nat)
}

/// Members of a JSON object, each on a line of its own.
pub open spec fn members(indent: Seq<char>, entries: Seq<(Seq<char>, u64)>) -> Seq<char>
    decreases entries.len(),
{
    if entries.len() == 0 {
        Seq::empty()
    } else if entries.len() == 1 {
        member(indent, entries[0])
    } else {
        members(indent, entries.drop_last()) + ",\n"@ + member(indent, entries.last())
    }
}

/// A member of a JSON object with an object as its value.
pub open spec fn group(name: Seq<char>, entries: Seq<(Seq<char>, u64)>) -> Seq<char> {
    "  \""@ + name + "\": {\n"@ + members("    "@, entries) + "\n  }"@
}

/// The counters as a JSON object.
pub open spec fn json_report(t: ThreadStats) -> Seq<char> {
    "{\n"@ + members("  "@, totals(t)) + ",\n"@ + group("protocol_counts"@, protocols(t)) + ",\n"@
        + group("parser_failures"@, failures(t)) + ",\n"@ + group("anomaly_counts"@, anomalies(t))
        + ",\n"@ + group("histogram_payload_sizes"@, sizes(t)) + "\n}"@
}

fn push_members(s: &mut String, indent: &str, list: &Vec<(&str, u64)>)
    ensures
        final(s)@ == old(s)@ + members(indent@, named(list@)),
{
    let ghost before = s@;
    let ghost all = named(list@);
    let mut i: usize = 0;
    assert(all.take(0) =~= Seq::empty());
    assert(before + Seq::<char>::empty() =~= before);
    while i < list.len()
        invariant
            i <= list@.len(),
            all == named(list@),
            s@ == before + members(indent@, all.take(i as int)),
        decreases list@.len() - i,
    {
        assert(all.take(i + 1).drop_last() =~= all.take(i as int));
        assert(all.take(i + 1).last() == (list@[i as int].0@, list@[i as int].1));
        if i > 0 {
            s.append(",\n");
        }
        s.append(indent);
        s.append("\"");
        s.append(list[i].0);
        s.append("\": ");
        s.append(decimal_text(list[i].1).as_str());
        assert(s@ =~= before + members(indent@, all.take(i + 1)));
        i = i + 1;
    }
    assert(all.take(i as int) =~= all);
}

fn push_group(s: &mut String, name: &str, list: &Vec<(&str, u64)>)
    ensures
        final(s)@ == old(s)@ + group(name@, named(list@)),
{
    s.append("  \"");
    s.append(name);
    s.append("\": {\n");
    push_members(s, "    ", list);
    s.append("\n  }");
    assert(s@ =~= old(s)@ + group(name@, named(list@)));
}

/// Renders the counters as a JSON object.
pub fn render_json(t: &ThreadStats) -> (s: String)
    ensures
        s@ == json_report(*t),
{
    let mut s: String = "{\n".to_owned();
    push_members(&mut s, "  ", &list_totals(t));
    s.append(",\n");
    push_group(&mut s, "protocol_counts", &list_protocols(t));
    s.append(",\n");
    push_group(&mut s, "parser_failures", &list_failures(t));
    s.append(",\n");
    push_group(&mut s, "anomaly_counts", &list_anomalies(t));
    s.append(",\n");
    push_group(&mut s, "histogram_payload_sizes", &list_sizes(t));
    s.append("\n}");
    s
}

// ---------------------------------------------------------------------------
// Prometheus text
// ---------------------------------------------------------------------------

/// The counters as Prometheus text.
pub open spec fn text_report(t: ThreadStats) -> Seq<char> {
    counter("custos_rx_packets"@, "Total received packets."@, t.rx_packets)
        + counter("custos_tx_packets"@, "Total transmitted packets."@, t.tx_packets)
        + counter("custos_recycled_packets"@, "Total recycled packets."@, t.recycled_packets)
        + counter(
            "custos_drop_validation_failed"@,
            "Total packets dropped due to validation failure."@,
            t.drop_validation_failed,
        )
        + counter("custos_rx_bytes"@, "Total received bytes."@, t.rx_bytes)
        + counters(
            "custos_protocol_total"@,
            "Total packets parsed by protocol layer."@,
            "proto"@,
            protocols(t),
        ) + "\n"@
        + counters(
            "custos_parser_failures_total"@,
            "Total parser failures at L2-L5 layer."@,
            "reason"@,
            failures(t),
        ) + "\n"@
        + counters(
            "custos_anomalies_total"@,
            "Total protobuf and shape anomalies."@,
            "reason"@,
            anomalies(t),
        ) + "\n"@
        + counters(
            "custos_payload_size_bucket"@,
            "Histogram of payload sizes."@,
            "le"@,
            size_bounds(t),
        )
}

/// Renders the counters as Prometheus text.
pub fn render_text(t: &ThreadStats) -> (s: String)
    ensures
        s@ == text_report(*t),
{
    let mut s: String = counter_text("custos_rx_packets", "Total received packets.", t.rx_packets);
    s.append(
        counter_text("custos_tx_packets", "Total transmitted packets.", t.tx_packets).as_str(),
    );
    s.append(
        counter_text(
            "custos_recycled_packets",
            "Total recycled packets.",
            t.recycled_packets,
        ).as_str(),
    );
    s.append(
        counter_text(
            "custos_drop_validation_failed",
            "Total packets dropped due to validation failure.",
            t.drop_validation_failed,
        ).as_str(),
    );
    s.append(counter_text("custos_rx_bytes", "Total received bytes.", t.rx_bytes).as_str());
    s.append(
        counters_text(
            "custos_protocol_total",
            "Total packets parsed by protocol layer.",
            "proto",
            &list_protocols(t),
        ).as_str(),
    );
    s.append("\n");
    s.append(
        counters_text(
            "custos_parser_failures_total",
            "Total parser failures at L2-L5 layer.",
            "reason",
            &list_failures(t),
        ).as_str(),
    );
    s.append("\n");
    s.append(
        counters_text(
            "custos_anomalies_total",
            "Total protobuf and shape anomalies.",
            "reason",
            &list_anomalies(t),
        ).as_str(),
    );
    s.append("\n");
    s.append(
        counters_text(
            "custos_payload_size_bucket",
            "Histogram of payload sizes.",
            "le",
            &list_size_bounds(t),
        ).as_str(),
    );
    s
}

// ---------------------------------------------------------------------------
// Laws
// ---------------------------------------------------------------------------

/// What the Prometheus text calls each counter; `None` for those that it leaves out.
pub open spec fn line_name(c: Counter) -> Option<Seq<char>> {
    match c {
        Counter::RxPackets => Some("custos_rx_packets"@),
        Counter::TxPackets => Some("custos_tx_packets"@),
        Counter::RecycledPackets => Some("custos_recycled_packets"@),
        Counter::DropValidationFailed => Some("custos_drop_validation_failed"@),
        Counter::RxBytes => Some("custos_rx_bytes"@),
        Counter::StatIpv4 => Some(series("custos_protocol_total"@, "proto"@, "ipv4"@)),
        Counter::StatTcp => Some(series("custos_protocol_total"@, "proto"@, "tcp"@)),
        Counter::StatHttp2Data => Some(series("custos_protocol_total"@, "proto"@, "http2"@)),
        Counter::StatGrpc => Some(series("custos_protocol_total"@, "proto"@, "grpc"@)),
        Counter::StatProtobuf => Some(series("custos_protocol_total"@, "proto"@, "protobuf"@)),
        Counter::ErrTooSmall => Some(
            series("custos_parser_failures_total"@, "reason"@, "too_small"@),
        ),
        Counter::ErrNonIpv4 => Some(
            series("custos_parser_failures_total"@, "reason"@, "non_ipv4"@),
        ),
        Counter::ErrBadIpLen => Some(
            series("custos_parser_failures_total"@, "reason"@, "bad_ip_len"@),
        ),
        Counter::ErrNonTcp => Some(series("custos_parser_failures_total"@, "reason"@, "non_tcp"@)),
        Counter::ErrBadIpCsum => Some(
            series("custos_parser_failures_total"@, "reason"@, "bad_ip_csum"@),
        ),
        Counter::ErrBadTcpLen => Some(
            series("custos_parser_failures_total"@, "reason"@, "bad_tcp_len"@),
        ),
        Counter::ErrWrongPort => Some(
            series("custos_parser_failures_total"@, "reason"@, "wrong_port"@),
        ),
        Counter::ErrBadHttp2 => Some(
            series("custos_parser_failures_total"@, "reason"@, "bad_http2"@),
        ),
        Counter::ErrNonHttp2Data => Some(
            series("custos_parser_failures_total"@, "reason"@, "non_http2_data"@),
        ),
        Counter::ErrBadGrpc => Some(
            series("custos_parser_failures_total"@, "reason"@, "bad_grpc"@),
        ),
        Counter::ErrL4Overflow => Some(
            series("custos_parser_failures_total"@, "reason"@, "l4_overflow"@),
        ),
        Counter::AnomalyInvalidVarint => Some(
            series("custos_anomalies_total"@, "reason"@, "invalid_varint"@),
        ),
        Counter::AnomalyInvalidWireType => Some(
            series("custos_anomalies_total"@, "reason"@, "invalid_wire_type"@),
        ),
        Counter::AnomalyRecursionLimit => Some(
            series("custos_anomalies_total"@, "reason"@, "recursion_limit"@),
        ),
        Counter::AnomalyBufferUnderflow => Some(
            series("custos_anomalies_total"@, "reason"@, "buffer_underflow"@),
        ),
        Counter::AnomalyShapeDimLimit => Some(
            series("custos_anomalies_total"@, "reason"@, "shape_dim_limit"@),
        ),
        Counter::AnomalyShapeValInvalid => Some(
            series("custos_anomalies_total"@, "reason"@, "shape_val_invalid"@),
        ),
        Counter::AnomalyTensorSizeLimit => Some(
            series("custos_anomalies_total"@, "reason"@, "tensor_size_limit"@),
        ),
        Counter::AnomalyInvalidVarintBytes => Some(
            series("custos_anomalies_total"@, "reason"@, "invalid_varint_bytes"@),
        ),
        Counter::HistPayload064 => Some(series("custos_payload_size_bucket"@, "le"@, "64"@)),
        Counter::HistPayload65256 => Some(series("custos_payload_size_bucket"@, "le"@, "256"@)),
        Counter::HistPayload2571024 => Some(series("custos_payload_size_bucket"@, "le"@, "1024"@)),
        Counter::HistPayload10252048 => Some(series("custos_payload_size_bucket"@, "le"@, "2048"@)),
        _ => None,
    }
}

/// Where the JSON object has each counter: in which of its groups, if in one, and under
/// which name.
pub open spec fn json_place(c: Counter) -> Option<(Option<Seq<char>>, Seq<char>)> {
    match c {
        Counter::RxPackets => Some((None, "rx_packets"@)),
        Counter::TxPackets => Some((None, "tx_packets"@)),
        Counter::RecycledPackets => Some((None, "recycled_packets"@)),
        Counter::DropValidationFailed => Some((None, "drop_validation_failed"@)),
        Counter::RxBytes => Some((None, "rx_bytes"@)),
        Counter::TxBytes => Some((None, "tx_bytes"@)),
        Counter::StatIpv4 => Some((Some("protocol_counts"@), "ipv4"@)),
        Counter::StatTcp => Some((Some("protocol_counts"@), "tcp"@)),
        Counter::StatHttp2Data => Some((Some("protocol_counts"@), "http2"@)),
        Counter::StatGrpc => Some((Some("protocol_counts"@), "grpc"@)),
        Counter::StatProtobuf => Some((Some("protocol_counts"@), "protobuf"@)),
        Counter::ErrTooSmall => Some((Some("parser_failures"@), "too_small"@)),
        Counter::ErrNonIpv4 => Some((Some("parser_failures"@), "non_ipv4"@)),
        Counter::ErrBadIpLen => Some((Some("parser_failures"@), "bad_ip_len"@)),
        Counter::ErrNonTcp => Some((Some("parser_failures"@), "non_tcp"@)),
        Counter::ErrBadIpCsum => Some((Some("parser_failures"@), "bad_ip_csum"@)),
        Counter::ErrBadTcpLen => Some((Some("parser_failures"@), "bad_tcp_len"@)),
        Counter::ErrWrongPort => Some((Some("parser_failures"@), "wrong_port"@)),
        Counter::ErrBadHttp2 => Some((Some("parser_failures"@), "bad_http2"@)),
        Counter::ErrNonHttp2Data => Some((Some("parser_failures"@), "non_http2_data"@)),
        Counter::ErrBadGrpc => Some((Some("parser_failures"@), "bad_grpc"@)),
        Counter::ErrL4Overflow => Some((Some("parser_failures"@), "l4_overflow"@)),
        Counter::AnomalyInvalidVarint => Some((Some("anomaly_counts"@), "invalid_varint"@)),
        Counter::AnomalyInvalidWireType => Some((Some("anomaly_counts"@), "invalid_wire_type"@)),
        Counter::AnomalyRecursionLimit => Some((Some("anomaly_counts"@), "recursion_limit"@)),
        Counter::AnomalyBufferUnderflow => Some((Some("anomaly_counts"@), "buffer_underflow"@)),
        Counter::AnomalyShapeDimLimit => Some((Some("anomaly_counts"@), "shape_dim_limit"@)),
        Counter::AnomalyShapeValInvalid => Some((Some("anomaly_counts"@), "shape_val_invalid"@)),
        Counter::AnomalyTensorSizeLimit => Some((Some("anomaly_counts"@), "tensor_size_limit"@)),
        Counter::AnomalyInvalidVarintBytes => Some(
            (Some("anomaly_counts"@), "invalid_varint_bytes"@),
        ),
        Counter::HistPayload064 => Some((Some("histogram_payload_sizes"@), "0_64"@)),
        Counter::HistPayload65256 => Some((Some("histogram_payload_sizes"@), "65_256"@)),
        Counter::HistPayload2571024 => Some((Some("histogram_payload_sizes"@), "257_1024"@)),
        Counter::HistPayload10252048 => Some((Some("histogram_payload_sizes"@), "1025_2048"@)),
        _ => None,
    }
}

/// `text` has a member `key` with the number `value`, and then no more digits.
#[verifier::opaque]
pub open spec fn has_member(text: Seq<char>, key: Seq<char>, value: Seq<char>) -> bool {
    exists|before: Seq<char>, after: Seq<char>| #[trigger] member_between(
        text,
        before,
        key,
        value,
        after,
    )
}

/// `text` has a member `key` with the number `value` between `before` and `after`.
pub open spec fn member_between(
    text: Seq<char>,
    before: Seq<char>,
    key: Seq<char>,
    value: Seq<char>,
    after: Seq<char>,
) -> bool {
    &&& text == before + seq!['"'] + key + seq!['"', ':', ' '] + value + after
    &&& after.len() > 0 && (after[0] == ',' || after[0] == '\n')
}

/// `text` has an object `name` with a member `key` and the number `value`.
pub open spec fn has_in_group(
    text: Seq<char>,
    name: Seq<char>,
    key: Seq<char>,
    value: Seq<char>,
) -> bool {
    exists|before: Seq<char>, inside: Seq<char>, after: Seq<char>|
        text == #[trigger] grouped(before, name, inside, after) && has_member(inside, key, value)
}

/// A text with an object in it.
pub open spec fn grouped(
    before: Seq<char>,
    name: Seq<char>,
    inside: Seq<char>,
    after: Seq<char>,
) -> Seq<char> {
    before + seq!['"'] + name + seq!['"', ':', ' ', '{'] + inside + seq!['}'] + after
}

proof fn members_stay(a: Seq<char>, text: Seq<char>, b: Seq<char>)
    ensures
        forall|key: Seq<char>, value: Seq<char>| #[trigger]
            has_member(text, key, value) ==> has_member(a + text + b, key, value),
{
    reveal(has_member);
    assert forall|key: Seq<char>, value: Seq<char>| #[trigger]
        has_member(text, key, value) implies has_member(a + text + b, key, value) by {
        let (before, after) = choose|before: Seq<char>, after: Seq<char>| #[trigger]
            member_between(text, before, key, value, after);
        assert(a + text + b =~= (a + before) + seq!['"'] + key + seq!['"', ':', ' '] + value + (
        after + b));
        assert(member_between(a + text + b, a + before, key, value, after + b));
    }
}

/// Each member is there, whatever closes the list.
proof fn members_are_there(
    indent: Seq<char>,
    entries: Seq<(Seq<char>, u64)>,
    tail: Seq<char>,
)
    requires
        tail.len() > 0,
        tail[0] == ',' || tail[0] == '\n',
    ensures
        forall|i: int|
            0 <= i < entries.len() ==> has_member(
                members(indent, entries) + tail,
                (#[trigger] entries[i]).0,
                text::decimal(entries[i].1 as nat),
            ),
    decreases entries.len(),
{
    reveal(has_member);
    reveal_strlit("\"");
    reveal_strlit("\": ");
    reveal_strlit(",\n");
    assert("\""@ =~= seq!['"']);
    assert("\": "@ =~= seq!['"', ':', ' ']);
    assert(",\n"@ =~= seq![',', '\n']);
    if entries.len() > 0 {
        let last = entries.last();
        let value = text::decimal(last.1 as nat);
        let whole = members(indent, entries) + tail;
        let front = entries.drop_last();
        let before = if entries.len() == 1 {
            indent
        } else {
            members(indent, front) + ",\n"@ + indent
        };
        assert(entries.len() == 1 ==> entries[0] == last);
        assert(whole =~= before + seq!['"'] + last.0 + seq!['"', ':', ' '] + value + tail);
        assert(member_between(whole, before, last.0, value, tail));
        if entries.len() > 1 {
            let rest = ",\n"@ + member(indent, last) + tail;
            members_are_there(indent, front, rest);
            assert(whole =~= members(indent, front) + rest);
        }
        assert forall|i: int| 0 <= i < entries.len() implies has_member(
            whole,
            (#[trigger] entries[i]).0,
            text::decimal(entries[i].1 as nat),
        ) by {
            if i < front.len() {
                assert(front[i] == entries[i]);
            }
        }
    }
}

/// The object of a group has the members of the group.
proof fn group_is_there(
    a: Seq<char>,
    name: Seq<char>,
    entries: Seq<(Seq<char>, u64)>,
    b: Seq<char>,
)
    ensures
        forall|i: int|
            0 <= i < entries.len() ==> has_in_group(
                a + group(name, entries) + b,
                name,
                (#[trigger] entries[i]).0,
                text::decimal(entries[i].1 as nat),
            ),
{
    reveal_strlit("  \"");
    reveal_strlit("\": {\n");
    reveal_strlit("\n  }");
    assert("  \""@ =~= seq![' ', ' ', '"']);
    assert("\": {\n"@ =~= seq!['"', ':', ' ', '{', '\n']);
    assert("\n  }"@ =~= seq!['\n', ' ', ' ', '}']);
    let tail = seq!['\n', ' ', ' '];
    let list = members("    "@, entries) + tail;
    members_are_there("    "@, entries, tail);
    members_stay(seq!['\n'], list, Seq::empty());
    let inside = seq!['\n'] + list + Seq::<char>::empty();
    let before = a + seq![' ', ' '];
    let whole = a + group(name, entries) + b;
    assert(whole =~= grouped(before, name, inside, b));
}

/// The pieces of the object, put together in other ways.
proof fn object_in_pieces(
    open: Seq<char>,
    a: Seq<char>,
    n: Seq<char>,
    b: Seq<char>,
    d: Seq<char>,
    e: Seq<char>,
    f: Seq<char>,
    close: Seq<char>,
)
    ensures
        ({
            let whole = open + a + n + b + n + d + n + e + n + f + close;
            &&& whole == open + (a + (n + b + n + d + n + e + n + f + close)) + Seq::empty()
            &&& whole == (open + a + n) + b + (n + d + n + e + n + f + close)
            &&& whole == (open + a + n + b + n) + d + (n + e + n + f + close)
            &&& whole == (open + a + n + b + n + d + n) + e + (n + f + close)
        }),
{
    let whole = open + a + n + b + n + d + n + e + n + f + close;
    assert(whole =~= open + (a + (n + b + n + d + n + e + n + f + close)) + Seq::<char>::empty());
    assert(whole =~= (open + a + n) + b + (n + d + n + e + n + f + close));
    assert(whole =~= (open + a + n + b + n) + d + (n + e + n + f + close));
    assert(whole =~= (open + a + n + b + n + d + n) + e + (n + f + close));
}

/// Whatever the lists hold, the object has it.
proof fn object_has_its_lists(t: ThreadStats)
    ensures
        forall|i: int|
            0 <= i < totals(t).len() ==> has_member(
                json_report(t),
                (#[trigger] totals(t)[i]).0,
                text::decimal(totals(t)[i].1 as nat),
            ),
        forall|i: int|
            0 <= i < protocols(t).len() ==> has_in_group(
                json_report(t),
                "protocol_counts"@,
                (#[trigger] protocols(t)[i]).0,
                text::decimal(protocols(t)[i].1 as nat),
            ),
        forall|i: int|
            0 <= i < failures(t).len() ==> has_in_group(
                json_report(t),
                "parser_failures"@,
                (#[trigger] failures(t)[i]).0,
                text::decimal(failures(t)[i].1 as nat),
            ),
        forall|i: int|
            0 <= i < anomalies(t).len() ==> has_in_group(
                json_report(t),
                "anomaly_counts"@,
                (#[trigger] anomalies(t)[i]).0,
                text::decimal(anomalies(t)[i].1 as nat),
            ),
        forall|i: int|
            0 <= i < sizes(t).len() ==> has_in_group(
                json_report(t),
                "histogram_payload_sizes"@,
                (#[trigger] sizes(t)[i]).0,
                text::decimal(sizes(t)[i].1 as nat),
            ),
{
    let open = "{\n"@;
    let n = ",\n"@;
    let a = members("  "@, totals(t));
    let b = group("protocol_counts"@, protocols(t));
    let d = group("parser_failures"@, failures(t));
    let e = group("anomaly_counts"@, anomalies(t));
    let f = group("histogram_payload_sizes"@, sizes(t));
    let close = "\n}"@;
    let rest = n + b + n + d + n + e + n + f + close;
    object_in_pieces(open, a, n, b, d, e, f, close);
    assert(rest[0] == ',') by {
        reveal_strlit(",\n");
        assert(n =~= seq![',', '\n']);
        assert(rest[0] == n[0]);
    }
    members_are_there("  "@, totals(t), rest);
    members_stay(open, a + rest, Seq::empty());
    group_is_there(
        open + a + n,
        "protocol_counts"@,
        protocols(t),
        n + d + n + e + n + f + close,
    );
    group_is_there(open + a + n + b + n, "parser_failures"@, failures(t), n + e + n + f + close);
    group_is_there(open + a + n + b + n + d + n, "anomaly_counts"@, anomalies(t), n + f + close);
    group_is_there(
        open + a + n + b + n + d + n + e + n,
        "histogram_payload_sizes"@,
        sizes(t),
        close,
    );
}

/// The JSON object has every counter under its own name, with its value.
pub proof fn json_has_every_counter(t: ThreadStats, c: Counter)
    requires
        json_place(c) is Some,
    ensures
        ({
            let (group, key) = json_place(c)->0;
            let value = text::decimal(t.get(c) as nat);
            match group {
                None => has_member(json_report(t), key, value),
                Some(name) => has_in_group(json_report(t), name, key, value),
            }
        }),
{
    object_has_its_lists(t);
    match c {
        Counter::RxPackets => {
            assert(totals(t)[0] == ("rx_packets"@, t.get(c)));
        },
        Counter::TxPackets => {
            assert(totals(t)[1] == ("tx_packets"@, t.get(c)));
        },
        Counter::RecycledPackets => {
            assert(totals(t)[2] == ("recycled_packets"@, t.get(c)));
        },
        Counter::DropValidationFailed => {
            assert(totals(t)[3] == ("drop_validation_failed"@, t.get(c)));
        },
        Counter::RxBytes => {
            assert(totals(t)[4] == ("rx_bytes"@, t.get(c)));
        },
        Counter::TxBytes => {
            assert(totals(t)[5] == ("tx_bytes"@, t.get(c)));
        },
        Counter::StatIpv4 => {
            assert(protocols(t)[0] == ("ipv4"@, t.get(c)));
        },
        Counter::StatTcp => {
            assert(protocols(t)[1] == ("tcp"@, t.get(c)));
        },
        Counter::StatHttp2Data => {
            assert(protocols(t)[2] == ("http2"@, t.get(c)));
        },
        Counter::StatGrpc => {
            assert(protocols(t)[3] == ("grpc"@, t.get(c)));
        },
        Counter::StatProtobuf => {
            assert(protocols(t)[4] == ("protobuf"@, t.get(c)));
        },
        Counter::ErrTooSmall => {
            assert(failures(t)[0] == ("too_small"@, t.get(c)));
        },
        Counter::ErrNonIpv4 => {
            assert(failures(t)[1] == ("non_ipv4"@, t.get(c)));
        },
        Counter::ErrBadIpLen => {
            assert(failures(t)[2] == ("bad_ip_len"@, t.get(c)));
        },
        Counter::ErrNonTcp => {
            assert(failures(t)[3] == ("non_tcp"@, t.get(c)));
        },
        Counter::ErrBadIpCsum => {
            assert(failures(t)[4] == ("bad_ip_csum"@, t.get(c)));
        },
        Counter::ErrBadTcpLen => {
            assert(failures(t)[5] == ("bad_tcp_len"@, t.get(c)));
        },
        Counter::ErrWrongPort => {
            assert(failures(t)[6] == ("wrong_port"@, t.get(c)));
        },
        Counter::ErrBadHttp2 => {
            assert(failures(t)[7] == ("bad_http2"@, t.get(c)));
        },
        Counter::ErrNonHttp2Data => {
            assert(failures(t)[8] == ("non_http2_data"@, t.get(c)));
        },
        Counter::ErrBadGrpc => {
            assert(failures(t)[9] == ("bad_grpc"@, t.get(c)));
        },
        Counter::ErrL4Overflow => {
            assert(failures(t)[10] == ("l4_overflow"@, t.get(c)));
        },
        Counter::AnomalyInvalidVarint => {
            assert(anomalies(t)[0] == ("invalid_varint"@, t.get(c)));
        },
        Counter::AnomalyInvalidWireType => {
            assert(anomalies(t)[1] == ("invalid_wire_type"@, t.get(c)));
        },
        Counter::AnomalyRecursionLimit => {
            assert(anomalies(t)[2] == ("recursion_limit"@, t.get(c)));
        },
        Counter::AnomalyBufferUnderflow => {
            assert(anomalies(t)[3] == ("buffer_underflow"@, t.get(c)));
        },
        Counter::AnomalyShapeDimLimit => {
            assert(anomalies(t)[4] == ("shape_dim_limit"@, t.get(c)));
        },
        Counter::AnomalyShapeValInvalid => {
            assert(anomalies(t)[5] == ("shape_val_invalid"@, t.get(c)));
        },
        Counter::AnomalyTensorSizeLimit => {
            assert(anomalies(t)[6] == ("tensor_size_limit"@, t.get(c)));
        },
        Counter::AnomalyInvalidVarintBytes => {
            assert(anomalies(t)[7] == ("invalid_varint_bytes"@, t.get(c)));
        },
        Counter::HistPayload064 => {
            assert(sizes(t)[0] == ("0_64"@, t.get(c)));
        },
        Counter::HistPayload65256 => {
            assert(sizes(t)[1] == ("65_256"@, t.get(c)));
        },
        Counter::HistPayload2571024 => {
            assert(sizes(t)[2] == ("257_1024"@, t.get(c)));
        },
        Counter::HistPayload10252048 => {
            assert(sizes(t)[3] == ("1025_2048"@, t.get(c)));
        },
        _ => {},
    }
}

/// Whatever a piece of the text shows, the text shows.
proof fn pieces_are_shown(
    p0: Seq<char>,
    p1: Seq<char>,
    p2: Seq<char>,
    p3: Seq<char>,
    p4: Seq<char>,
    q0: Seq<char>,
    q1: Seq<char>,
    q2: Seq<char>,
    q3: Seq<char>,
    n: Seq<char>,
)
    requires
        ends_line(p0),
        ends_line(p1),
        ends_line(p2),
        ends_line(p3),
        ends_line(p4),
        ends_line(q0),
        ends_line(q1),
        ends_line(q2),
        ends_line(q3),
        ends_line(n),
    ensures
        ({
            let whole = p0 + p1 + p2 + p3 + p4 + q0 + n + q1 + n + q2 + n + q3;
            forall|name: Seq<char>, value: Seq<char>|
                #![trigger shows(p0, name, value)]
                #![trigger shows(p1, name, value)]
                #![trigger shows(p2, name, value)]
                #![trigger shows(p3, name, value)]
                #![trigger shows(p4, name, value)]
                #![trigger shows(q0, name, value)]
                #![trigger shows(q1, name, value)]
                #![trigger shows(q2, name, value)]
                #![trigger shows(q3, name, value)]
                (shows(p0, name, value)
                    || shows(p1, name, value)
                    || shows(p2, name, value)
                    || shows(p3, name, value)
                    || shows(p4, name, value)
                    || shows(q0, name, value)
                    || shows(q1, name, value)
                    || shows(q2, name, value)
                    || shows(q3, name, value)) ==> shows(
                    whole,
                    name,
                    value,
                )
        }),
{
    lines_stay(p0, p1);
    lines_stay(p0 + p1, p2);
    lines_stay(p0 + p1 + p2, p3);
    lines_stay(p0 + p1 + p2 + p3, p4);
    lines_stay(p0 + p1 + p2 + p3 + p4, q0);
    lines_stay(p0 + p1 + p2 + p3 + p4 + q0, n);
    lines_stay(p0 + p1 + p2 + p3 + p4 + q0 + n, q1);
    lines_stay(p0 + p1 + p2 + p3 + p4 + q0 + n + q1, n);
    lines_stay(p0 + p1 + p2 + p3 + p4 + q0 + n + q1 + n, q2);
    lines_stay(p0 + p1 + p2 + p3 + p4 + q0 + n + q1 + n + q2, n);
    lines_stay(p0 + p1 + p2 + p3 + p4 + q0 + n + q1 + n + q2 + n, q3);
}

/// The Prometheus text shows every counter that it has under its own name, on a line of
/// its own.
pub proof fn text_shows_every_counter(t: ThreadStats, c: Counter)
    requires
        line_name(c) is Some,
    ensures
        shows(text_report(t), line_name(c)->0, text::decimal(t.get(c) as nat)),
{
    let p0 = counter("custos_rx_packets"@, "Total received packets."@, t.rx_packets);
    let p1 = counter("custos_tx_packets"@, "Total transmitted packets."@, t.tx_packets);
    let p2 = counter("custos_recycled_packets"@, "Total recycled packets."@, t.recycled_packets);
    let p3 = counter(
        "custos_drop_validation_failed"@,
        "Total packets dropped due to validation failure."@,
        t.drop_validation_failed,
    );
    let p4 = counter("custos_rx_bytes"@, "Total received bytes."@, t.rx_bytes);
    let q0 = counters(
        "custos_protocol_total"@,
        "Total packets parsed by protocol layer."@,
        "proto"@,
        protocols(t),
    );
    let q1 = counters(
        "custos_parser_failures_total"@,
        "Total parser failures at L2-L5 layer."@,
        "reason"@,
        failures(t),
    );
    let q2 = counters(
        "custos_anomalies_total"@,
        "Total protobuf and shape anomalies."@,
        "reason"@,
        anomalies(t),
    );
    let q3 = counters(
        "custos_payload_size_bucket"@,
        "Histogram of payload sizes."@,
        "le"@,
        size_bounds(t),
    );
    counter_shows("custos_rx_packets"@, "Total received packets."@, t.rx_packets);
    counter_shows("custos_tx_packets"@, "Total transmitted packets."@, t.tx_packets);
    counter_shows("custos_recycled_packets"@, "Total recycled packets."@, t.recycled_packets);
    counter_shows(
        "custos_drop_validation_failed"@,
        "Total packets dropped due to validation failure."@,
        t.drop_validation_failed,
    );
    counter_shows("custos_rx_bytes"@, "Total received bytes."@, t.rx_bytes);
    counters_show(
        "custos_protocol_total"@,
        "Total packets parsed by protocol layer."@,
        "proto"@,
        protocols(t),
    );
    counters_show(
        "custos_parser_failures_total"@,
        "Total parser failures at L2-L5 layer."@,
        "reason"@,
        failures(t),
    );
    counters_show(
        "custos_anomalies_total"@,
        "Total protobuf and shape anomalies."@,
        "reason"@,
        anomalies(t),
    );
    counters_show(
        "custos_payload_size_bucket"@,
        "Histogram of payload sizes."@,
        "le"@,
        size_bounds(t),
    );
    newline_ends();
    pieces_are_shown(p0, p1, p2, p3, p4, q0, q1, q2, q3, "\n"@);
    match c {
        Counter::RxPackets => {
            assert(shows(p0, line_name(c)->0, text::decimal(t.get(c) as nat)));
        },
        Counter::TxPackets => {
            assert(shows(p1, line_name(c)->0, text::decimal(t.get(c) as nat)));
        },
        Counter::RecycledPackets => {
            assert(shows(p2, line_name(c)->0, text::decimal(t.get(c) as nat)));
        },
        Counter::DropValidationFailed => {
            assert(shows(p3, line_name(c)->0, text::decimal(t.get(c) as nat)));
        },
        Counter::RxBytes => {
            assert(shows(p4, line_name(c)->0, text::decimal(t.get(c) as nat)));
        },
        Counter::StatIpv4 => {
            assert(protocols(t)[0] == ("ipv4"@, t.get(c)));
        },
        Counter::StatTcp => {
            assert(protocols(t)[1] == ("tcp"@, t.get(c)));
        },
        Counter::StatHttp2Data => {
            assert(protocols(t)[2] == ("http2"@, t.get(c)));
        },
        Counter::StatGrpc => {
            assert(protocols(t)[3] == ("grpc"@, t.get(c)));
        },
        Counter::StatProtobuf => {
            assert(protocols(t)[4] == ("protobuf"@, t.get(c)));
        },
        Counter::ErrTooSmall => {
            assert(failures(t)[0] == ("too_small"@, t.get(c)));
        },
        Counter::ErrNonIpv4 => {
            assert(failures(t)[1] == ("non_ipv4"@, t.get(c)));
        },
        Counter::ErrBadIpLen => {
            assert(failures(t)[2] == ("bad_ip_len"@, t.get(c)));
        },
        Counter::ErrNonTcp => {
            assert(failures(t)[3] == ("non_tcp"@, t.get(c)));
        },
        Counter::ErrBadIpCsum => {
            assert(failures(t)[4] == ("bad_ip_csum"@, t.get(c)));
        },
        Counter::ErrBadTcpLen => {
            assert(failures(t)[5] == ("bad_tcp_len"@, t.get(c)));
        },
        Counter::ErrWrongPort => {
            assert(failures(t)[6] == ("wrong_port"@, t.get(c)));
        },
        Counter::ErrBadHttp2 => {
            assert(failures(t)[7] == ("bad_http2"@, t.get(c)));
        },
        Counter::ErrNonHttp2Data => {
            assert(failures(t)[8] == ("non_http2_data"@, t.get(c)));
        },
        Counter::ErrBadGrpc => {
            assert(failures(t)[9] == ("bad_grpc"@, t.get(c)));
        },
        Counter::ErrL4Overflow => {
            assert(failures(t)[10] == ("l4_overflow"@, t.get(c)));
        },
        Counter::AnomalyInvalidVarint => {
            assert(anomalies(t)[0] == ("invalid_varint"@, t.get(c)));
        },
        Counter::AnomalyInvalidWireType => {
            assert(anomalies(t)[1] == ("invalid_wire_type"@, t.get(c)));
        },
        Counter::AnomalyRecursionLimit => {
            assert(anomalies(t)[2] == ("recursion_limit"@, t.get(c)));
        },
        Counter::AnomalyBufferUnderflow => {
            assert(anomalies(t)[3] == ("buffer_underflow"@, t.get(c)));
        },
        Counter::AnomalyShapeDimLimit => {
            assert(anomalies(t)[4] == ("shape_dim_limit"@, t.get(c)));
        },
        Counter::AnomalyShapeValInvalid => {
            assert(anomalies(t)[5] == ("shape_val_invalid"@, t.get(c)));
        },
        Counter::AnomalyTensorSizeLimit => {
            assert(anomalies(t)[6] == ("tensor_size_limit"@, t.get(c)));
        },
        Counter::AnomalyInvalidVarintBytes => {
            assert(anomalies(t)[7] == ("invalid_varint_bytes"@, t.get(c)));
        },
        Counter::HistPayload064 => {
            assert(size_bounds(t)[0] == ("64"@, t.get(c)));
        },
        Counter::HistPayload65256 => {
            assert(size_bounds(t)[1] == ("256"@, t.get(c)));
        },
        Counter::HistPayload2571024 => {
            assert(size_bounds(t)[2] == ("1024"@, t.get(c)));
        },
        Counter::HistPayload10252048 => {
            assert(size_bounds(t)[3] == ("2048"@, t.get(c)));
        },
        _ => {},
    }
}

} // verus!
