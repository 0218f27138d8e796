//! Cores of nodes and workers.
use custos::numa::{
    choose_node_core, cpulist_path, get_interface_numa_node, get_numa_cores, numa_node_path,
    online_cores, parse_core_list, pin_layout, queue_core, queue_count,
};

#[test]
fn paths_of_the_files() {
    assert_eq!(
        numa_node_path("eth0"),
        "/sys/class/net/eth0/device/numa_node"
    );
    assert_eq!(
        cpulist_path(1),
        "/sys/devices/system/node/node1/cpulist"
    );
    assert_eq!(
        cpulist_path(-1),
        "/sys/devices/system/node/node-1/cpulist"
    );
}

#[test]
fn node_of_an_interface() {
    assert_eq!(get_interface_numa_node(Some("1\n")), Some(1));
    assert_eq!(get_interface_numa_node(Some(" 0 ")), Some(0));
    assert_eq!(get_interface_numa_node(Some("-1\n")), None);
    assert_eq!(get_interface_numa_node(Some("x")), None);
    assert_eq!(get_interface_numa_node(Some("2147483648")), None);
    assert_eq!(get_interface_numa_node(None), None);
}

#[test]
fn cores_of_a_node() {
    assert_eq!(get_numa_cores(Some("0-3,8,10-11\n")), Ok(vec![0, 1, 2, 3, 8, 10, 11]));
    assert_eq!(get_numa_cores(Some("5-5")), Ok(vec![5]));
    assert_eq!(get_numa_cores(Some("5-4")), Ok(vec![]));
    assert_eq!(get_numa_cores(Some("1, 2,x,3-y,4-6-9,-7")), Ok(vec![1, 4, 5, 6]));
    assert_eq!(get_numa_cores(Some("")), Ok(vec![]));
    assert_eq!(
        get_numa_cores(None),
        Err("NUMA node cpulist not found on this system".to_string())
    );
}

#[test]
fn a_worker_is_pinned_to_its_node() {
    assert_eq!(choose_node_core(&vec![4, 5, 6], 5), Ok(5));
    assert_eq!(choose_node_core(&vec![4, 5, 6], 7), Ok(5));
    assert_eq!(choose_node_core(&vec![4, 5, 6], 0), Ok(4));
    assert_eq!(
        choose_node_core(&vec![], 0),
        Err("No CPU cores available on target NUMA node".to_string())
    );
}

#[test]
fn cores_given_by_hand() {
    assert_eq!(parse_core_list("2, 4 ,6"), Ok(vec![2, 4, 6]));
    assert_eq!(parse_core_list("7"), Ok(vec![7]));
    assert_eq!(parse_core_list(""), Err(0));
    assert_eq!(parse_core_list("1,,3"), Err(1));
    assert_eq!(parse_core_list("1,2,-3"), Err(2));
}

#[test]
fn queues_and_their_cores() {
    assert_eq!(online_cores(-1), 8);
    assert_eq!(online_cores(6), 6);
    assert_eq!(queue_count(None, 8), Ok(4));
    assert_eq!(queue_count(None, 1), Ok(1));
    assert_eq!(queue_count(Some(3), 8), Ok(3));
    assert_eq!(
        queue_count(Some(0), 8),
        Err("--queues must be greater than zero".to_string())
    );
    assert_eq!(pin_layout(Some(vec![9]), Some(vec![1]), 4), vec![9]);
    assert_eq!(pin_layout(None, Some(vec![1]), 4), vec![1]);
    assert_eq!(pin_layout(None, None, 4), vec![0, 1, 2, 3]);
    let layout = vec![2, 4, 6];
    assert_eq!(queue_core(&layout, 1), 4);
    assert_eq!(queue_core(&layout, 3), 2);
}

#[test]
fn few_queues_share_no_core() {
    let layout = get_numa_cores(Some("4-11")).unwrap();
    assert_eq!(layout, (4..=11).collect::<Vec<usize>>());
    for a in 0..layout.len() {
        for b in 0..a {
            assert_ne!(queue_core(&layout, a), queue_core(&layout, b));
        }
    }
}
