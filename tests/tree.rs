use process_tree::tree::{build_process_tree, ProcessRecord, ProcessTree};

#[derive(Clone, Copy, Debug, PartialEq)]
struct Usage {
    cpu: f32,
    gpu: f32,
}

fn rec(pid: u32, name: &str, parent: Option<u32>) -> ProcessRecord<Usage> {
    ProcessRecord {
        pid,
        name: name.to_string(),
        usage: Usage { cpu: 1.5, gpu: 0.0 },
        memory_usage: 1024 * pid as u64,
        disk_read_bytes: 10,
        disk_write_bytes: 20,
        parent_pid: parent,
    }
}

fn children(t: &ProcessTree<Usage>, pid: u32) -> Option<Vec<u32>> {
    t.process_relationships.get(&pid).cloned()
}

fn check_agreement(t: &ProcessTree<Usage>) {
    for p in &t.processes {
        let list = children(t, p.pid).expect("every record has a key");
        assert_eq!(p.has_children, !list.is_empty());
        assert_eq!(t.processes.iter().filter(|q| q.pid == p.pid).count(), 1);
    }
    for key in t.process_relationships.keys() {
        assert_eq!(t.processes.iter().filter(|q| q.pid == *key).count(), 1);
    }
}

#[test]
fn empty_input_gives_empty_snapshot() {
    let t = build_process_tree::<Usage>(&vec![]);
    assert!(t.processes.is_empty());
    assert!(t.process_relationships.is_empty());
}

#[test]
fn dangling_parent_is_kept_but_not_indexed() {
    let t = build_process_tree(&vec![rec(5, "orphan", Some(99))]);
    assert_eq!(t.processes.len(), 1);
    let p = &t.processes[0];
    assert_eq!(p.pid, 5);
    assert_eq!(p.parent_pid, Some(99));
    assert!(!p.has_children);
    assert_eq!(children(&t, 5), Some(vec![]));
    assert_eq!(children(&t, 99), None);
    assert_eq!(t.process_relationships.len(), 1);
}

#[test]
fn self_parent_is_its_own_child() {
    let t = build_process_tree(&vec![rec(7, "loop", Some(7))]);
    assert_eq!(children(&t, 7), Some(vec![7]));
    assert_eq!(t.processes.len(), 1);
    assert!(t.processes[0].has_children);
    assert_eq!(t.processes[0].parent_pid, Some(7));
}

#[test]
fn duplicate_pid_last_record_wins() {
    let t = build_process_tree(&vec![rec(3, "a", None), rec(3, "b", None)]);
    assert_eq!(t.processes.len(), 1);
    assert_eq!(t.processes[0].pid, 3);
    assert_eq!(t.processes[0].name, "b");
    assert_eq!(t.process_relationships.len(), 1);
    assert_eq!(children(&t, 3), Some(vec![]));
}

#[test]
fn duplicate_child_is_listed_once_under_its_last_parent() {
    let input = vec![
        rec(1, "p1", None),
        rec(2, "p2", None),
        rec(3, "old", Some(1)),
        rec(3, "new", Some(2)),
    ];
    let t = build_process_tree(&input);
    assert_eq!(children(&t, 1), Some(vec![]));
    assert_eq!(children(&t, 2), Some(vec![3]));
    let pids: Vec<u32> = t.processes.iter().map(|p| p.pid).collect();
    assert_eq!(pids, vec![1, 2, 3]);
    assert!(!t.processes[0].has_children);
    assert!(t.processes[1].has_children);
    assert_eq!(t.processes[2].name, "new");
    assert_eq!(t.processes[2].parent_pid, Some(2));
}

#[test]
fn children_keep_input_order() {
    let input = vec![
        rec(30, "c", Some(1)),
        rec(1, "root", None),
        rec(10, "a", Some(1)),
        rec(20, "b", Some(1)),
        rec(11, "grandchild", Some(10)),
    ];
    let t = build_process_tree(&input);
    assert_eq!(children(&t, 1), Some(vec![30, 10, 20]));
    assert_eq!(children(&t, 10), Some(vec![11]));
    assert_eq!(children(&t, 30), Some(vec![]));
    let pids: Vec<u32> = t.processes.iter().map(|p| p.pid).collect();
    assert_eq!(pids, vec![30, 1, 10, 20, 11]);
    let with_children: Vec<u32> = t.processes.iter().filter(|p| p.has_children).map(|p| p.pid).collect();
    assert_eq!(with_children, vec![1, 10]);
    check_agreement(&t);
}

#[test]
fn fields_are_carried_unchanged() {
    let mut r = rec(42, "worker", Some(1));
    r.usage = Usage { cpu: 12.25, gpu: 3.5 };
    r.memory_usage = 7_000_000;
    r.disk_read_bytes = 123;
    r.disk_write_bytes = 456;
    let t = build_process_tree(&vec![r]);
    let p = &t.processes[0];
    assert_eq!(p.name, "worker");
    assert_eq!(p.usage, Usage { cpu: 12.25, gpu: 3.5 });
    assert_eq!(p.memory_usage, 7_000_000);
    assert_eq!(p.disk_read_bytes, 123);
    assert_eq!(p.disk_write_bytes, 456);
    assert_eq!(p.parent_pid, Some(1));
}

#[test]
fn building_twice_gives_equal_snapshots() {
    let input = vec![
        rec(1, "init", None),
        rec(4, "x", Some(1)),
        rec(2, "y", Some(1)),
        rec(4, "x2", Some(2)),
        rec(9, "z", Some(4)),
    ];
    let a = build_process_tree(&input);
    let b = build_process_tree(&input);
    let key = |t: &ProcessTree<Usage>| -> Vec<(u32, String, Option<u32>, bool)> {
        t.processes.iter().map(|p| (p.pid, p.name.clone(), p.parent_pid, p.has_children)).collect()
    };
    assert_eq!(key(&a), key(&b));
    assert_eq!(a.process_relationships, b.process_relationships);
    assert_eq!(children(&a, 2), Some(vec![4]));
    assert_eq!(children(&a, 1), Some(vec![2]));
}

#[test]
fn index_and_flags_agree_on_mixed_input() {
    let input = vec![
        rec(1, "init", Some(0)),
        rec(2, "a", Some(1)),
        rec(3, "b", Some(2)),
        rec(3, "b", Some(1)),
        rec(8, "self", Some(8)),
        rec(5, "gone", Some(77)),
        rec(6, "top", None),
    ];
    let t = build_process_tree(&input);
    check_agreement(&t);
    assert_eq!(t.processes.len(), 6);
    assert_eq!(t.process_relationships.len(), 6);
    assert_eq!(children(&t, 1), Some(vec![2, 3]));
    assert_eq!(children(&t, 2), Some(vec![]));
    assert_eq!(children(&t, 0), None);
}
