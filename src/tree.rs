//! Building a `ProcessTree` from raw process records.
use std::collections::HashMap;
use vstd::prelude::*;

verus! {

/// One raw process record, as captured once per scan.
///
/// `usage` carries the readings that the tree never inspects (CPU and GPU
/// percentages in practice); it is copied unchanged into the output.
pub struct ProcessRecord<U> {
    pub pid: u32,
    pub name: String,
    pub usage: U,
    pub memory_usage: u64,
    pub disk_read_bytes: u64,
    pub disk_write_bytes: u64,
    pub parent_pid: Option<u32>,
}

/// A record of the snapshot: every raw field plus whether the process has
/// observed children.
pub struct ProcessInfo<U> {
    pub pid: u32,
    pub name: String,
    pub usage: U,
    pub memory_usage: u64,
    pub disk_read_bytes: u64,
    pub disk_write_bytes: u64,
    pub parent_pid: Option<u32>,
    pub has_children: bool,
}

/// Record `i` is the last one in `rs` that carries its pid.
pub open spec fn is_last<U>(rs: Seq<ProcessRecord<U>>, i: int) -> bool {
    forall|j: int| i < j < rs.len() ==> rs[j].pid != rs[i].pid
}

/// Some record of `rs` carries pid `p`.
pub open spec fn observed<U>(rs: Seq<ProcessRecord<U>>, p: u32) -> bool {
    exists|j: int| 0 <= j < rs.len() && rs[j].pid == p
}

/// The indices below `n` of the records that survive: the last one of each pid.
pub open spec fn kept_upto<U>(rs: Seq<ProcessRecord<U>>, n: int) -> Seq<int>
    decreases n,
{
    if n <= 0 {
        seq![]
    } else if is_last(rs, n - 1) {
        kept_upto(rs, n - 1).push(n - 1)
    } else {
        kept_upto(rs, n - 1)
    }
}

/// The surviving records among the first `n`, in input order.
pub open spec fn survivors_upto<U>(rs: Seq<ProcessRecord<U>>, n: int) -> Seq<ProcessRecord<U>> {
    kept_upto(rs, n).map_values(|i: int| rs[i])
}

/// The surviving records: for each pid, its last record, in input order.
pub open spec fn survivors<U>(rs: Seq<ProcessRecord<U>>) -> Seq<ProcessRecord<U>> {
    survivors_upto(rs, rs.len() as int)
}

/// The pids of the records of `s` whose parent is `p`, in the order of `s`.
pub open spec fn children_of<U>(s: Seq<ProcessRecord<U>>, p: u32) -> Seq<u32>
    decreases s.len(),
{
    if s.len() == 0 {
        seq![]
    } else if s.last().parent_pid == Some(p) {
        children_of(s.drop_last(), p).push(s.last().pid)
    } else {
        children_of(s.drop_last(), p)
    }
}

/// A snapshot: the surviving records, enriched, and the index from each
/// observed pid to the pids of its direct children.
pub struct ProcessTree<U> {
    pub processes: Vec<ProcessInfo<U>>,
    pub process_relationships: HashMap<u32, Vec<u32>>,
}

/// The snapshot record made of `r`.
pub open spec fn enriched<U>(r: ProcessRecord<U>, has_children: bool) -> ProcessInfo<U> {
    ProcessInfo {
        pid: r.pid,
        name: r.name,
        usage: r.usage,
        memory_usage: r.memory_usage,
        disk_read_bytes: r.disk_read_bytes,
        disk_write_bytes: r.disk_write_bytes,
        parent_pid: r.parent_pid,
        has_children,
    }
}

/// The records of the snapshot of `rs`: one per surviving record, in input
/// order, marked as having children when some surviving record names it as
/// its parent.
pub open spec fn snapshot_processes<U>(rs: Seq<ProcessRecord<U>>) -> Seq<ProcessInfo<U>> {
    let s = survivors(rs);
    s.map_values(|r: ProcessRecord<U>| enriched(r, children_of(s, r.pid).len() > 0))
}

/// The child index of the snapshot of `rs`: every observed pid, and only
/// those, mapped to the pids of the surviving records that name it as parent.
pub open spec fn snapshot_relationships<U>(rs: Seq<ProcessRecord<U>>) -> Map<u32, Seq<u32>> {
    Map::new(|p: u32| observed(rs, p), |p: u32| children_of(survivors(rs), p))
}

impl<U> ProcessTree<U> {
    /// The child index, with each list seen as a sequence.
    pub open spec fn relationships(&self) -> Map<u32, Seq<u32>> {
        self.process_relationships@.map_values(|v: Vec<u32>| v@)
    }

    /// This tree is the snapshot of the records `rs`.
    pub open spec fn is_built_from(&self, rs: Seq<ProcessRecord<U>>) -> bool {
        &&& self.processes@ == snapshot_processes(rs)
        &&& self.relationships() == snapshot_relationships(rs)
    }
}

/// `i` is the position of the last record of `rs` with pid `p`.
pub open spec fn last_position<U>(rs: Seq<ProcessRecord<U>>, p: u32, i: int) -> bool {
    &&& 0 <= i < rs.len()
    &&& rs[i].pid == p
    &&& is_last(rs, i)
}

proof fn lemma_children_push<U>(s: Seq<ProcessRecord<U>>, r: ProcessRecord<U>, p: u32)
    ensures
        children_of(s.push(r), p) == (if r.parent_pid == Some(p) {
            children_of(s, p).push(r.pid)
        } else {
            children_of(s, p)
        }),
{
    assert(s.push(r).drop_last() =~= s);
}

proof fn lemma_survivors_step<U>(rs: Seq<ProcessRecord<U>>, i: int)
    requires
        0 <= i < rs.len(),
    ensures
        survivors_upto(rs, i + 1) == (if is_last(rs, i) {
            survivors_upto(rs, i).push(rs[i])
        } else {
            survivors_upto(rs, i)
        }),
{
    if is_last(rs, i) {
        assert(survivors_upto(rs, i + 1) =~= survivors_upto(rs, i).push(rs[i]));
    }
}

/// First pass: the last position of each pid, and an empty child list for
/// each observed pid.
fn index_pids<U>(records: &Vec<ProcessRecord<U>>) -> (r: (HashMap<u32, usize>, HashMap<u32, Vec<u32>>))
    ensures
        forall|p: u32| r.0@.contains_key(p) <==> observed(records@, p),
        forall|p: u32| r.0@.contains_key(p) ==> last_position(records@, p, r.0@[p] as int),
        r.1@.dom() == r.0@.dom(),
        forall|p: u32| r.1@.contains_key(p) ==> r.1@[p]@ == Seq::<u32>::empty(),
{
    broadcast use vstd::std_specs::hash::group_hash_axioms;

    let mut last: HashMap<u32, usize> = HashMap::new();
    let mut rel: HashMap<u32, Vec<u32>> = HashMap::new();
    let n = records.len();
    let mut i: usize = 0;
    while i < n
        invariant
            n == records.len(),
            i <= n,
            forall|p: u32|
                last@.contains_key(p) <==> exists|j: int| 0 <= j < i && records@[j].pid == p,
            forall|p: u32|
                #![trigger last@[p]]
                last@.contains_key(p) ==> {
                    &&& last@[p] < i
                    &&& records@[last@[p] as int].pid == p
                    &&& forall|j: int| last@[p] < j < i ==> records@[j].pid != p
                },
            rel@.dom() == last@.dom(),
            forall|p: u32| rel@.contains_key(p) ==> rel@[p]@ == Seq::<u32>::empty(),
        decreases n - i,
    {
        let pid = records[i].pid;
        last.insert(pid, i);
        rel.insert(pid, Vec::new());
        i = i + 1;
    }
    (last, rel)
}

/// `i` is the last position of its pid exactly when the index says so.
proof fn lemma_last_check<U>(rs: Seq<ProcessRecord<U>>, i: int, lp: int)
    requires
        0 <= i < rs.len(),
        last_position(rs, rs[i].pid, lp),
    ensures
        is_last(rs, i) <==> lp == i,
{
    if lp != i && lp < i {
        assert(rs[i].pid != rs[lp].pid);
    }
}

/// Second pass: append each surviving record's pid to the list of its
/// parent, where that parent was observed.
fn link_children<U>(
    records: &Vec<ProcessRecord<U>>,
    last: &HashMap<u32, usize>,
    rel: &mut HashMap<u32, Vec<u32>>,
)
    requires
        forall|p: u32| last@.contains_key(p) <==> observed(records@, p),
        forall|p: u32| last@.contains_key(p) ==> last_position(records@, p, last@[p] as int),
        old(rel)@.dom() == last@.dom(),
        forall|p: u32| old(rel)@.contains_key(p) ==> old(rel)@[p]@ == Seq::<u32>::empty(),
    ensures
        final(rel)@.dom() == last@.dom(),
        forall|p: u32|
            final(rel)@.contains_key(p) ==> final(rel)@[p]@ == children_of(survivors(records@), p),
{
    broadcast use vstd::std_specs::hash::group_hash_axioms;

    let n = records.len();
    let mut i: usize = 0;
    while i < n
        invariant
            n == records.len(),
            i <= n,
            forall|p: u32| last@.contains_key(p) <==> observed(records@, p),
            forall|p: u32| last@.contains_key(p) ==> last_position(records@, p, last@[p] as int),
            rel@.dom() == last@.dom(),
            forall|p: u32|
                rel@.contains_key(p) ==> rel@[p]@ == children_of(
                    survivors_upto(records@, i as int),
                    p,
                ),
        decreases n - i,
    {
        let ghost rs = records@;
        let ghost before = rel@;
        proof {
            lemma_survivors_step(rs, i as int);
        }
        let pid = records[i].pid;
        assert(observed(rs, pid));
        let lp = match last.get(&pid) {
            Some(v) => *v,
            None => i,
        };
        proof {
            lemma_last_check(rs, i as int, lp as int);
        }
        if lp == i {
            let r = &records[i];
            proof {
                assert forall|p: u32| #[trigger] children_of(survivors_upto(rs, i + 1), p) == (if r.parent_pid == Some(p) {
                    children_of(survivors_upto(rs, i as int), p).push(pid)
                } else {
                    children_of(survivors_upto(rs, i as int), p)
                }) by {
                    lemma_children_push(survivors_upto(rs, i as int), rs[i as int], p);
                }
            }
            match r.parent_pid {
                Some(pp) => {
                    match rel.remove(&pp) {
                        Some(mut v) => {
                            v.push(pid);
                            rel.insert(pp, v);
                            assert(rel@ =~= before.insert(pp, v));
                        },
                        None => {},
                    }
                },
                None => {},
            }
        }
        i = i + 1;
    }
}

/// Third pass: one snapshot record per surviving record, in input order.
fn enrich<U: Copy>(
    records: &Vec<ProcessRecord<U>>,
    last: &HashMap<u32, usize>,
    rel: &HashMap<u32, Vec<u32>>,
) -> (out: Vec<ProcessInfo<U>>)
    requires
        forall|p: u32| last@.contains_key(p) <==> observed(records@, p),
        forall|p: u32| last@.contains_key(p) ==> last_position(records@, p, last@[p] as int),
        rel@.dom() == last@.dom(),
        forall|p: u32| rel@.contains_key(p) ==> rel@[p]@ == children_of(survivors(records@), p),
    ensures
        out@ == snapshot_processes(records@),
{
    broadcast use vstd::std_specs::hash::group_hash_axioms;

    let ghost rs = records@;
    let ghost all = survivors(rs);
    let mut out: Vec<ProcessInfo<U>> = Vec::new();
    let n = records.len();
    let mut i: usize = 0;
    while i < n
        invariant
            n == records.len(),
            i <= n,
            rs == records@,
            all == survivors(rs),
            forall|p: u32| last@.contains_key(p) <==> observed(rs, p),
            forall|p: u32| last@.contains_key(p) ==> last_position(rs, p, last@[p] as int),
            rel@.dom() == last@.dom(),
            forall|p: u32| rel@.contains_key(p) ==> rel@[p]@ == children_of(all, p),
            out@ == survivors_upto(rs, i as int).map_values(
                |r: ProcessRecord<U>| enriched(r, children_of(all, r.pid).len() > 0),
            ),
        decreases n - i,
    {
        proof {
            lemma_survivors_step(rs, i as int);
        }
        let pid = records[i].pid;
        assert(observed(rs, pid));
        let lp = match last.get(&pid) {
            Some(v) => *v,
            None => i,
        };
        proof {
            lemma_last_check(rs, i as int, lp as int);
        }
        if lp == i {
            let r = &records[i];
            let has_children = match rel.get(&pid) {
                Some(v) => v.len() > 0,
                None => false,
            };
            let info = ProcessInfo {
                pid,
                name: r.name.clone(),
                usage: r.usage,
                memory_usage: r.memory_usage,
                disk_read_bytes: r.disk_read_bytes,
                disk_write_bytes: r.disk_write_bytes,
                parent_pid: r.parent_pid,
                has_children,
            };
            assert(info == enriched(rs[i as int], children_of(all, pid).len() > 0));
            out.push(info);
        }
        assert(out@ =~= survivors_upto(rs, i + 1).map_values(
            |r: ProcessRecord<U>| enriched(r, children_of(all, r.pid).len() > 0),
        ));
        i = i + 1;
    }
    out
}

/// Builds the snapshot of one captured enumeration of processes.
///
/// For each pid, the last record that carries it wins; the surviving records
/// keep their input order. Every observed pid gets an entry in the child
/// index, listing the surviving records that name it as parent, in input
/// order. A parent pid that was not observed adds to no list, and the record
/// keeps it as its `parent_pid`. `has_children` is set exactly when the
/// record's own list is non-empty.
pub fn build_process_tree<U: Copy>(records: &Vec<ProcessRecord<U>>) -> (tree: ProcessTree<U>)
    ensures
        tree.is_built_from(records@),
{
    let (last, mut rel) = index_pids(records);
    link_children(records, &last, &mut rel);
    let processes = enrich(records, &last, &rel);
    let tree = ProcessTree { processes, process_relationships: rel };
    assert(tree.relationships() =~= snapshot_relationships(records@));
    tree
}

proof fn lemma_kept_facts<U>(rs: Seq<ProcessRecord<U>>, n: int)
    requires
        0 <= n <= rs.len(),
    ensures
        forall|k: int|
            #![trigger kept_upto(rs, n)[k]]
            0 <= k < kept_upto(rs, n).len() ==> 0 <= kept_upto(rs, n)[k] < n && is_last(
                rs,
                kept_upto(rs, n)[k],
            ),
        forall|k1: int, k2: int|
            0 <= k1 < k2 < kept_upto(rs, n).len() ==> kept_upto(rs, n)[k1] < kept_upto(rs, n)[k2],
        forall|i: int|
            0 <= i < n && is_last(rs, i) ==> exists|k: int|
                0 <= k < kept_upto(rs, n).len() && kept_upto(rs, n)[k] == i,
    decreases n,
{
    if n > 0 {
        lemma_kept_facts(rs, n - 1);
        let prev = kept_upto(rs, n - 1);
        let cur = kept_upto(rs, n);
        assert forall|i: int| 0 <= i < n && is_last(rs, i) implies exists|k: int|
            0 <= k < cur.len() && cur[k] == i by {
            if i < n - 1 {
                let k = choose|k: int| 0 <= k < prev.len() && prev[k] == i;
                assert(cur[k] == i);
            } else {
                assert(cur[prev.len() as int] == i);
            }
        }
    }
}

proof fn lemma_observed_has_last<U>(rs: Seq<ProcessRecord<U>>, p: u32, j: int)
    requires
        0 <= j < rs.len(),
        rs[j].pid == p,
    ensures
        exists|i: int| last_position(rs, p, i),
    decreases rs.len() - j,
{
    if is_last(rs, j) {
        assert(last_position(rs, p, j));
    } else {
        let j2 = choose|j2: int| j < j2 < rs.len() && rs[j2].pid == rs[j].pid;
        lemma_observed_has_last(rs, p, j2);
    }
}

/// Every pid of the child index belongs to exactly one record of the
/// snapshot, and every record's pid is a key of the index.
pub proof fn lemma_one_record_per_key<U>(rs: Seq<ProcessRecord<U>>, t: ProcessTree<U>)
    requires
        t.is_built_from(rs),
    ensures
        forall|p: u32|
            t.relationships().contains_key(p) ==> exists|k: int|
                0 <= k < t.processes@.len() && t.processes@[k].pid == p,
        forall|k1: int, k2: int|
            0 <= k1 < t.processes@.len() && 0 <= k2 < t.processes@.len()
                && t.processes@[k1].pid == t.processes@[k2].pid ==> k1 == k2,
        forall|k: int|
            0 <= k < t.processes@.len() ==> t.relationships().contains_key(
                #[trigger] t.processes@[k].pid,
            ),
{
    let n = rs.len() as int;
    let kept = kept_upto(rs, n);
    let procs = t.processes@;
    lemma_kept_facts(rs, n);
    assert forall|p: u32| t.relationships().contains_key(p) implies exists|k: int|
        0 <= k < procs.len() && procs[k].pid == p by {
        let j = choose|j: int| 0 <= j < rs.len() && rs[j].pid == p;
        lemma_observed_has_last(rs, p, j);
        let i = choose|i: int| last_position(rs, p, i);
        let k = choose|k: int| 0 <= k < kept.len() && kept[k] == i;
        assert(procs[k].pid == p);
    }
    assert forall|k1: int, k2: int|
        0 <= k1 < procs.len() && 0 <= k2 < procs.len() && procs[k1].pid == procs[k2].pid implies k1
        == k2 by {
        if k1 < k2 {
            assert(rs[kept[k2]].pid != rs[kept[k1]].pid);
        } else if k2 < k1 {
            assert(rs[kept[k1]].pid != rs[kept[k2]].pid);
        }
    }
    assert forall|k: int| 0 <= k < procs.len() implies t.relationships().contains_key(
        #[trigger] procs[k].pid,
    ) by {
        assert(observed(rs, rs[kept[k]].pid));
    }
}

/// A record of the snapshot has children exactly when its pid's list in the
/// child index is non-empty.
pub proof fn lemma_has_children_matches_index<U>(rs: Seq<ProcessRecord<U>>, t: ProcessTree<U>)
    requires
        t.is_built_from(rs),
    ensures
        forall|k: int|
            #![trigger t.processes@[k]]
            0 <= k < t.processes@.len() ==> {
                &&& t.relationships().contains_key(t.processes@[k].pid)
                &&& t.processes@[k].has_children <==> t.relationships()[t.processes@[k].pid].len()
                    > 0
            },
{
    lemma_one_record_per_key(rs, t);
}

/// Two snapshots built from the same records are equal: same records in the
/// same order, same child index with the same list orders.
pub proof fn lemma_build_is_deterministic<U>(
    rs: Seq<ProcessRecord<U>>,
    t1: ProcessTree<U>,
    t2: ProcessTree<U>,
)
    requires
        t1.is_built_from(rs),
        t2.is_built_from(rs),
    ensures
        t1.processes@ == t2.processes@,
        t1.relationships() == t2.relationships(),
{
}

} // verus!
