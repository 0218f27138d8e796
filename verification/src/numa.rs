//! CPU cores: which of them belong to a NUMA node, and which one a worker is
//! pinned to.
use crate::text;
use crate::text::{
    chars_of, parse_i32, parse_unsigned, signed_decimal_text, split_text, trim,
};
use vstd::prelude::*;

verus! {

/// The number of a core that a text stands for: digits, with a plus sign in front
/// or without, whose value fits in `usize`.
pub open spec fn core_number(s: Seq<char>) -> Option<usize> {
    match text::unsigned_value(s) {
        Some(n) if n <= usize::MAX => Some(n as usize),
        _ => None,
    }
}

/// The number of a core that a text stands for.
pub fn parse_core(chars: &Vec<char>) -> (r: Option<usize>)
    ensures
        r == core_number(chars@),
{
    match parse_unsigned(chars) {
        Some(n) => {
            if n <= usize::MAX as u64 {
                Some(n as usize)
            } else {
                None
            }
        },
        None => None,
    }
}

// ---------------------------------------------------------------------------
// The node of an interface
// ---------------------------------------------------------------------------

/// The file that names the NUMA node of a network interface.
pub fn numa_node_path(interface: &str) -> (path: String)
    ensures
        path@ == "/sys/class/net/"@ + interface@ + "/device/numa_node"@,
{
    let mut path: String = "/sys/class/net/".to_owned();
    path.append(interface);
    path.append("/device/numa_node");
    path
}

/// The node that a text names. A negative number stands for no node.
pub open spec fn named_node(content: Seq<char>) -> Option<i32> {
    match text::i32_value(text::trimmed(content)) {
        Some(node) if node >= 0 => Some(node),
        _ => None,
    }
}

/// The NUMA node of a network interface, from the content of the file that names
/// it. There is no node where there is no such file.
pub fn get_interface_numa_node(content: Option<&str>) -> (node: Option<i32>)
    ensures
        node == match content {
            Some(content) => named_node(content@),
            None => None,
        },
{
    match content {
        Some(content) => {
            let chars: Vec<char> = trim(&chars_of(content));
            match parse_i32(&chars) {
                Some(node) => {
                    if node >= 0 {
                        Some(node)
                    } else {
                        None
                    }
                },
                None => None,
            }
        },
        None => None,
    }
}

// ---------------------------------------------------------------------------
// The cores of a node
// ---------------------------------------------------------------------------

/// The file that lists the cores of a NUMA node.
pub fn cpulist_path(node: i32) -> (path: String)
    ensures
        path@ == "/sys/devices/system/node/node"@ + text::signed_decimal(node as int)
            + "/cpulist"@,
{
    let mut path: String = "/sys/devices/system/node/node".to_owned();
    path.append(signed_decimal_text(node as i64).as_str());
    path.append("/cpulist");
    path
}

/// The numbers from `start` to `end`, both of them counted.
pub open spec fn core_range(start: usize, end: usize) -> Seq<usize> {
    if start > end {
        Seq::empty()
    } else {
        Seq::new((end - start + 1) as nat, |i: int| (start + i) as usize)
    }
}

/// The cores that one entry of a core list stands for: one number, or two with a
/// hyphen between them. Whatever follows a second hyphen is passed over, and an
/// entry that cannot be read stands for no core.
pub open spec fn entry_cores(entry: Seq<char>) -> Seq<usize> {
    let ends = text::parts(entry, '-');
    if ends.len() > 1 {
        match (core_number(ends[0]), core_number(ends[1])) {
            (Some(start), Some(end)) => core_range(start, end),
            _ => Seq::empty(),
        }
    } else {
        match core_number(entry) {
            Some(core) => seq![core],
            None => Seq::empty(),
        }
    }
}

/// The cores that some entries stand for, in their order.
pub open spec fn entries_cores(entries: Seq<Seq<char>>) -> Seq<usize>
    decreases entries.len(),
{
    if entries.len() == 0 {
        Seq::empty()
    } else {
        entries_cores(entries.drop_last()) + entry_cores(entries.last())
    }
}

/// The cores that a core list stands for.
pub open spec fn listed_cores(content: Seq<char>) -> Seq<usize> {
    entries_cores(text::parts(text::trimmed(content), ','))
}

/// Adds the numbers from `start` to `end`.
fn push_range(cores: &mut Vec<usize>, start: usize, end: usize)
    ensures
        final(cores)@ == old(cores)@ + core_range(start, end),
{
    if start > end {
        assert(cores@ =~= old(cores)@ + core_range(start, end));
        return ;
    }
    let ghost before = cores@;
    let ghost range = core_range(start, end);
    let mut core: usize = start;
    while core < end
        invariant
            start <= core <= end,
            range == core_range(start, end),
            cores@ == before + range.take(core - start),
        decreases end - core,
    {
        assert(range.take(core - start).push(core) =~= range.take(core + 1 - start));
        cores.push(core);
        assert(cores@ =~= before + range.take(core + 1 - start));
        core = core + 1;
    }
    assert(range.take(end - start).push(end) =~= range);
    cores.push(end);
    assert(cores@ =~= before + range);
}

/// Adds the cores that an entry stands for.
fn push_entry(cores: &mut Vec<usize>, entry: &Vec<char>)
    ensures
        final(cores)@ == old(cores)@ + entry_cores(entry@),
{
    let ends: Vec<Vec<char>> = split_text(entry, '-');
    assert(old(cores)@ + Seq::<usize>::empty() =~= old(cores)@);
    if ends.len() > 1 {
        match (parse_core(&ends[0]), parse_core(&ends[1])) {
            (Some(start), Some(end)) => push_range(cores, start, end),
            _ => {},
        }
    } else {
        match parse_core(entry) {
            Some(core) => {
                cores.push(core);
                assert(cores@ =~= old(cores)@ + seq![core]);
            },
            None => {},
        }
    }
}

/// The cores of a NUMA node, from the content of the file that lists them, or a
/// message where there is no such file.
pub fn get_numa_cores(cpulist: Option<&str>) -> (r: Result<Vec<usize>, String>)
    ensures
        match cpulist {
            Some(content) => r is Ok && r->Ok_0@ == listed_cores(content@),
            None => r is Err && r->Err_0@ == "NUMA node cpulist not found on this system"@,
        },
{
    match cpulist {
        Some(content) => {
            let entries: Vec<Vec<char>> = split_text(&trim(&chars_of(content)), ',');
            let ghost all = text::parts(text::trimmed(content@), ',');
            let mut cores: Vec<usize> = Vec::new();
            let mut i: usize = 0;
            while i < entries.len()
                invariant
                    i <= entries@.len(),
                    entries@.len() == all.len(),
                    forall|j: int| 0 <= j < all.len() ==> (#[trigger] entries@[j])@ == all[j],
                    cores@ == entries_cores(all.take(i as int)),
                decreases entries@.len() - i,
            {
                push_entry(&mut cores, &entries[i]);
                assert(all.take(i + 1).drop_last() =~= all.take(i as int));
                i = i + 1;
            }
            assert(all.take(i as int) =~= all);
            Ok(cores)
        },
        None => Err("NUMA node cpulist not found on this system".to_owned()),
    }
}

/// The core of a node that a worker is pinned to: the one it prefers where the
/// node has it, else one that the preference picks among them.
pub open spec fn node_core(cores: Seq<usize>, preferred: usize) -> usize
    recommends
        cores.len() > 0,
{
    if cores.contains(preferred) {
        preferred
    } else {
        cores[preferred as int % cores.len() as int]
    }
}

/// The core of a node that a worker is pinned to, or a message where the node has
/// none.
pub fn choose_node_core(cores: &Vec<usize>, preferred: usize) -> (r: Result<usize, String>)
    ensures
        if cores@.len() == 0 {
            r is Err && r->Err_0@ == "No CPU cores available on target NUMA node"@
        } else {
            r == Ok::<usize, String>(node_core(cores@, preferred))
        },
{
    if cores.len() == 0 {
        return Err("No CPU cores available on target NUMA node".to_owned());
    }
    let mut i: usize = 0;
    while i < cores.len()
        invariant
            i <= cores@.len(),
            forall|j: int| 0 <= j < i ==> cores@[j] != preferred,
        decreases cores@.len() - i,
    {
        if cores[i] == preferred {
            return Ok(preferred);
        }
        i = i + 1;
    }
    Ok(cores[preferred % cores.len()])
}

// ---------------------------------------------------------------------------
// The cores of the workers
// ---------------------------------------------------------------------------

/// The core that an entry of a list given by hand stands for. White space around
/// it does not count.
pub open spec fn given_core(entry: Seq<char>) -> Option<usize> {
    core_number(text::trimmed(entry))
}

/// The cores of a list given by hand, or the place of the first entry that is
/// none.
pub fn parse_core_list(list: &str) -> (r: Result<Vec<usize>, usize>)
    ensures
        ({
            let entries = text::parts(list@, ',');
            match r {
                Ok(cores) => {
                    &&& cores@.len() == entries.len()
                    &&& cores@.len() > 0
                    &&& forall|i: int|
                        0 <= i < entries.len() ==> given_core(entries[i]) == Some(
                            #[trigger] cores@[i],
                        )
                },
                Err(at) => {
                    &&& at < entries.len()
                    &&& given_core(entries[at as int]) is None
                    &&& forall|i: int| 0 <= i < at ==> given_core(#[trigger] entries[i]) is Some
                },
            }
        }),
        r is Ok <==> forall|i: int|
            0 <= i < text::parts(list@, ',').len() ==> given_core(
                #[trigger] text::parts(list@, ',')[i],
            ) is Some,
{
    let entries: Vec<Vec<char>> = split_text(&chars_of(list), ',');
    let ghost all = text::parts(list@, ',');
    let mut cores: Vec<usize> = Vec::new();
    let mut i: usize = 0;
    while i < entries.len()
        invariant
            i <= entries@.len(),
            entries@.len() == all.len(),
            all == text::parts(list@, ','),
            forall|j: int| 0 <= j < all.len() ==> (#[trigger] entries@[j])@ == all[j],
            cores@.len() == i,
            forall|j: int| 0 <= j < i ==> given_core(all[j]) == Some(#[trigger] cores@[j]),
        decreases entries@.len() - i,
    {
        match parse_core(&trim(&entries[i])) {
            Some(core) => cores.push(core),
            None => {
                assert forall|j: int| 0 <= j < i implies given_core(#[trigger] all[j]) is Some by {
                    assert(given_core(all[j]) == Some(cores@[j]));
                }
                return Err(i);
            },
        }
        i = i + 1;
    }
    assert forall|j: int| 0 <= j < all.len() implies given_core(#[trigger] all[j]) is Some by {
        assert(given_core(all[j]) == Some(cores@[j]));
    }
    Ok(cores)
}

/// Number of cores that are online, from what the system reports: a negative
/// report stands for eight.
pub fn online_cores(reported: i64) -> (n: usize)
    requires
        reported <= usize::MAX,
    ensures
        n == if reported < 0 {
            8
        } else {
            reported
        },
{
    if reported < 0 {
        8
    } else {
        reported as usize
    }
}

/// Number of queues: as many as were asked for, else one for every two cores and
/// at least one. None is an error.
pub fn queue_count(asked: Option<usize>, online: usize) -> (r: Result<usize, String>)
    ensures
        match asked {
            Some(0usize) => r is Err && r->Err_0@ == "--queues must be greater than zero"@,
            Some(n) => r == Ok::<usize, String>(n),
            None => r == Ok::<usize, String>(
                if online < 2 {
                    1
                } else {
                    online / 2
                },
            ),
        },
        r matches Ok(n) ==> n > 0,
        r is Err <==> asked == Some(0usize),
        asked is None && online >= 2 ==> 2 * r->Ok_0 <= online < 2 * r->Ok_0 + 2,
{
    let queues: usize = match asked {
        Some(n) => n,
        None => if online / 2 == 0 {
            1
        } else {
            online / 2
        },
    };
    if queues == 0 {
        return Err("--queues must be greater than zero".to_owned());
    }
    Ok(queues)
}

/// The cores of the workers: those given by hand, else those of the interface's
/// node, else all that are online.
pub fn pin_layout(
    given: Option<Vec<usize>>,
    node: Option<Vec<usize>>,
    online: usize,
) -> (layout: Vec<usize>)
    ensures
        match (given, node) {
            (Some(cores), _) => layout@ == cores@,
            (None, Some(cores)) => layout@ == cores@,
            (None, None) => layout@ == Seq::new(online as nat, |i: int| i as usize),
        },
        given matches Some(cores) ==> layout@ == cores@,
        given is None && node is None ==> layout@.no_duplicates() && forall|core: usize| #[trigger]
            layout@.contains(core) <==> core < online,
{
    match (given, node) {
        (Some(cores), _) => cores,
        (None, Some(cores)) => cores,
        (None, None) => {
            let mut layout: Vec<usize> = Vec::new();
            let mut i: usize = 0;
            while i < online
                invariant
                    i <= online,
                    layout@ == Seq::new(i as nat, |j: int| j as usize),
                decreases online - i,
            {
                layout.push(i);
                i = i + 1;
                assert(layout@ =~= Seq::new(i as nat, |j: int| j as usize));
            }
            assert forall|core: usize| #[trigger] layout@.contains(core) <==> core < online by {
                if core < online {
                    assert(layout@[core as int] == core);
                }
            }
            layout
        },
    }
}

/// The core that the worker of a queue is pinned to: the queues go round the
/// layout.
pub fn queue_core(layout: &Vec<usize>, queue: usize) -> (core: usize)
    requires
        layout@.len() > 0,
    ensures
        core == layout@[queue as int % layout@.len() as int],
        queue < layout@.len() ==> core == layout@[queue as int],
        layout@.contains(core),
{
    proof {
        if queue < layout@.len() {
            vstd::arithmetic::div_mod::lemma_small_mod(queue as nat, layout@.len());
        }
    }
    layout[queue % layout.len()]
}

// ---------------------------------------------------------------------------
// Laws
// ---------------------------------------------------------------------------

/// A range lists the cores between its ends, both of them counted, and no other,
/// and none of them twice.
pub proof fn range_lists_each_core_once(start: usize, end: usize, core: usize)
    ensures
        core_range(start, end).contains(core) <==> start <= core <= end,
        core_range(start, end).no_duplicates(),
{
    let range = core_range(start, end);
    if start <= core <= end {
        assert(range[core - start] == core);
    }
}

/// A worker is only ever pinned to a core of the node.
pub proof fn chosen_core_is_on_the_node(cores: Seq<usize>, preferred: usize)
    requires
        cores.len() > 0,
    ensures
        cores.contains(node_core(cores, preferred)),
        cores.contains(preferred) ==> node_core(cores, preferred) == preferred,
        !cores.contains(preferred) && preferred < cores.len() ==> node_core(cores, preferred)
            == cores[preferred as int],
        forall|other: usize|
            !cores.contains(preferred) && !cores.contains(other) && other == preferred
                + cores.len() ==> #[trigger] node_core(cores, other) == node_core(
                cores,
                preferred,
            ),
{
    if preferred < cores.len() {
        vstd::arithmetic::div_mod::lemma_small_mod(preferred as nat, cores.len());
    }
    vstd::arithmetic::div_mod::lemma_mod_add_multiples_vanish(
        preferred as int,
        cores.len() as int,
    );
    let i = preferred as int % cores.len() as int;
    assert(0 <= i < cores.len());
    assert(cores.contains(cores[i]));
}

/// With no more queues than cores, and no core listed twice, no two workers share
/// a core.
pub proof fn few_queues_share_no_core(layout: Seq<usize>, a: usize, b: usize)
    requires
        layout.no_duplicates(),
        a < layout.len(),
        b < layout.len(),
        a != b,
    ensures
        layout[a as int % layout.len() as int] != layout[b as int % layout.len() as int],
{
    vstd::arithmetic::div_mod::lemma_small_mod(a as nat, layout.len());
    vstd::arithmetic::div_mod::lemma_small_mod(b as nat, layout.len());
}

/// An entry of a core list: one core, or a range.
pub open spec fn entry_text(range: (usize, usize)) -> Seq<char> {
    if range.0 == range.1 {
        text::decimal(range.0 as nat)
    } else {
        text::decimal(range.0 as nat) + seq!['-'] + text::decimal(range.1 as nat)
    }
}

/// The entries of a core list.
pub open spec fn entry_texts(ranges: Seq<(usize, usize)>) -> Seq<Seq<char>> {
    ranges.map_values(|r: (usize, usize)| entry_text(r))
}

/// The cores of all ranges, in their order.
pub open spec fn cores_of(ranges: Seq<(usize, usize)>) -> Seq<usize>
    decreases ranges.len(),
{
    if ranges.len() == 0 {
        Seq::empty()
    } else {
        core_range(ranges[0].0, ranges[0].1) + cores_of(ranges.skip(1))
    }
}

proof fn decimal_has_no(n: nat, c: char)
    requires
        !('0' <= c && c <= '9'),
    ensures
        !text::decimal(n).contains(c),
{
    text::decimal_is_digits(n);
}

/// An entry of a core list stands for the cores that it was written for.
pub proof fn entry_is_read_back(range: (usize, usize))
    ensures
        entry_cores(entry_text(range)) == core_range(range.0, range.1),
        !entry_text(range).contains(','),
        entry_text(range).len() > 0,
        !text::white_space(entry_text(range)[0]),
        !text::white_space(entry_text(range).last()),
{
    let a = text::decimal(range.0 as nat);
    let b = text::decimal(range.1 as nat);
    text::decimal_is_digits(range.0 as nat);
    text::decimal_is_digits(range.1 as nat);
    decimal_has_no(range.0 as nat, '-');
    decimal_has_no(range.1 as nat, '-');
    decimal_has_no(range.0 as nat, ',');
    decimal_has_no(range.1 as nat, ',');
    text::numbers_are_read_back(range.0 as u64, 0);
    text::numbers_are_read_back(range.1 as u64, 0);
    if range.0 == range.1 {
        text::joined_texts_are_split(seq![a], '-');
        assert(core_range(range.0, range.1) =~= seq![range.0]);
    } else {
        let list = seq![a, b];
        assert(list.skip(1) =~= seq![b]);
        assert(text::joined(list.skip(1), '-') == b);
        assert(text::joined(list, '-') == entry_text(range));
        text::joined_texts_are_split(list, '-');
        assert(entry_text(range).last() == b.last());
        if entry_text(range).contains(',') {
            let i = choose|i: int|
                0 <= i < entry_text(range).len() && entry_text(range)[i] == ',';
            if i < a.len() {
                assert(a[i] == ',');
            } else if i > a.len() {
                assert(b[i - a.len() - 1] == ',');
            }
        }
    }
}

proof fn entries_in_order(ranges: Seq<(usize, usize)>)
    ensures
        entries_cores(entry_texts(ranges)) == cores_of(ranges),
    decreases ranges.len(),
{
    if ranges.len() > 0 {
        let front = ranges.drop_last();
        entries_in_order(front);
        entry_is_read_back(ranges.last());
        assert(entry_texts(ranges).drop_last() =~= entry_texts(front));
        assert(entry_texts(ranges).last() == entry_text(ranges.last()));
        cores_push(front, ranges.last());
        assert(front.push(ranges.last()) =~= ranges);
    }
}

proof fn cores_push(ranges: Seq<(usize, usize)>, r: (usize, usize))
    ensures
        cores_of(ranges.push(r)) == cores_of(ranges) + core_range(r.0, r.1),
    decreases ranges.len(),
{
    let all = ranges.push(r);
    if ranges.len() == 0 {
        assert(all.skip(1) =~= Seq::<(usize, usize)>::empty());
        assert(cores_of(all.skip(1)) =~= Seq::<usize>::empty());
        assert(cores_of(all) =~= cores_of(ranges) + core_range(r.0, r.1));
    } else {
        cores_push(ranges.skip(1), r);
        assert(all.skip(1) =~= ranges.skip(1).push(r));
        assert(cores_of(all) =~= cores_of(ranges) + core_range(r.0, r.1));
    }
}

/// A core list in the notation of the kernel, single cores and ranges with commas between
/// them and white space around, lists exactly those cores, in their order.
pub proof fn core_list_is_read_back(
    ranges: Seq<(usize, usize)>,
    before: Seq<char>,
    after: Seq<char>,
)
    requires
        ranges.len() > 0,
        forall|i: int| 0 <= i < before.len() ==> text::white_space(before[i]),
        forall|i: int| 0 <= i < after.len() ==> text::white_space(after[i]),
    ensures
        listed_cores(before + text::joined(entry_texts(ranges), ',') + after) == cores_of(ranges),
{
    let list = entry_texts(ranges);
    assert forall|i: int| 0 <= i < list.len() implies !(#[trigger] list[i]).contains(',') by {
        entry_is_read_back(ranges[i]);
    }
    text::joined_texts_are_split(list, ',');
    joined_ends(ranges);
    text::surrounding_space_is_trimmed(before, text::joined(list, ','), after);
    entries_in_order(ranges);
}

proof fn joined_ends(ranges: Seq<(usize, usize)>)
    requires
        ranges.len() > 0,
    ensures
        ({
            let s = text::joined(entry_texts(ranges), ',');
            s.len() > 0 && !text::white_space(s[0]) && !text::white_space(s.last())
        }),
    decreases ranges.len(),
{
    entry_is_read_back(ranges[0]);
    let list = entry_texts(ranges);
    assert(list[0] == entry_text(ranges[0]));
    if ranges.len() > 1 {
        joined_ends(ranges.skip(1));
        assert(list.skip(1) =~= entry_texts(ranges.skip(1)));
        let s = text::joined(list, ',');
        assert(s.last() == text::joined(list.skip(1), ',').last());
    }
}

/// A node is read back from its number, with white space around it; a negative number
/// names none.
pub proof fn node_is_read_back(node: i32, before: Seq<char>, after: Seq<char>)
    requires
        forall|i: int| 0 <= i < before.len() ==> text::white_space(before[i]),
        forall|i: int| 0 <= i < after.len() ==> text::white_space(after[i]),
    ensures
        named_node(before + text::signed_decimal(node as int) + after) == if node >= 0 {
            Some(node)
        } else {
            None
        },
{
    let s = text::signed_decimal(node as int);
    let n = if node >= 0 {
        node as nat
    } else {
        (-(node as int)) as nat
    };
    text::decimal_is_digits(n);
    text::numbers_are_read_back(0, node);
    assert(s.last() == text::decimal(n).last());
    text::surrounding_space_is_trimmed(before, s, after);
}

} // verus!
