//! Whole-plan and incremental validation: structural conflicts on each
//! executable node, a conservative cycle check over the children relation,
//! and the per-edit handlers that keep a plan and its summary consistent.

use vstd::prelude::*;
use crate::error::FileMoverError;
use crate::plan::{
    MovePlan, PlanNode, PlanNodeId, Conflict, OpKind, ValidationDelta, PlanSummaryDiff,
    PlanSummary, spec_executable, is_executable_kind, nodes_bounded, summary_matches,
    compute_summary, sum_dirs_from, sum_files_from, sum_bytes_from, any_bytes_from,
    sum_cross_from, sum_conflicts_from, sum_warnings_from, lemma_sum_bounds, Permission,
};
use crate::path::{spec_path_starts_with, path_starts_with, spec_is_cross_volume,
    is_cross_volume_path, spec_last_segment, spec_parent, spec_join};
use crate::text::eq_str;

verus! {

/// The free space the engine assumes of a destination volume; resource
/// probes are approximated by this fixed budget.
pub const APPROX_AVAILABLE_SPACE: u64 = 1073741824;

/// The first index of the node carrying `id`.
pub open spec fn index_of_id(nodes: Seq<PlanNode>, i: int, id: PlanNodeId) -> Option<int>
    decreases nodes.len() - i,
{
    if i < 0 || i >= nodes.len() {
        None
    } else if nodes[i].id == id {
        Some(i)
    } else {
        index_of_id(nodes, i + 1, id)
    }
}

/// An index returned by `index_of_id` is in range and carries the id.
pub proof fn lemma_index_of_id(nodes: Seq<PlanNode>, i: int, id: PlanNodeId)
    ensures
        match index_of_id(nodes, i, id) {
            Option::None => true,
            Option::Some(j) => i <= j < nodes.len() && nodes[j].id == id,
        },
    decreases nodes.len() - i,
{
    if 0 <= i < nodes.len() && nodes[i].id != id {
        lemma_index_of_id(nodes, i + 1, id);
    }
}

/// With unique ids, a node's id finds its own index.
pub proof fn lemma_index_of_own_id(nodes: Seq<PlanNode>, i: int, j: int)
    requires
        crate::plan::ids_unique(nodes),
        0 <= i <= j < nodes.len(),
    ensures
        index_of_id(nodes, i, nodes[j].id) == Some(j),
    decreases j - i,
{
    if i < j {
        assert(nodes[i].id != nodes[j].id);
        lemma_index_of_own_id(nodes, i + 1, j);
    }
}

/// Finds the first node carrying `id`.
pub fn find_node_index(nodes: &Vec<PlanNode>, id: PlanNodeId) -> (r: Option<usize>)
    ensures
        match r {
            Option::None => index_of_id(nodes@, 0, id) is None,
            Option::Some(j) => index_of_id(nodes@, 0, id) == Some(j as int),
        },
{
    let n = nodes.len();
    let mut i: usize = 0;
    while i < n
        invariant
            i <= n,
            n == nodes@.len(),
            index_of_id(nodes@, 0, id) == index_of_id(nodes@, i as int, id),
        decreases n - i,
    {
        if nodes[i].id == id {
            return Some(i);
        }
        i = i + 1;
    }
    None
}

// ---------------------------------------------------------------------------
// Structural conflicts of one node against the whole plan.
// ---------------------------------------------------------------------------
/// A node takes part in validation when it is executable and actually moves.
pub open spec fn node_applicable(n: PlanNode) -> bool {
    spec_executable(n.kind) && n.path_before@ != n.path_after@
}

/// Every applicable node whose destination coincides with another
/// executable node's source carries the `CycleDetected` conflict.
pub open spec fn cycle_flagged(nodes: Seq<PlanNode>) -> bool {
    forall|m: int|
        0 <= m < nodes.len() && node_applicable(#[trigger] nodes[m]) && dest_hits_a_source(
            nodes,
            m,
        ) ==> nodes[m].conflicts@.contains(Conflict::CycleDetected)
}

/// The node's destination coincides with the source of another executable
/// node of the plan.
pub open spec fn dest_hits_a_source(nodes: Seq<PlanNode>, i: int) -> bool {
    exists|j: int|
        0 <= j < nodes.len() && j != i && spec_executable((#[trigger] nodes[j]).kind)
            && nodes[j].path_before@ == nodes[i].path_after@
}

pub open spec fn node_dest_inside(n: PlanNode) -> bool {
    spec_path_starts_with(n.path_after@, n.path_before@)
}

pub open spec fn node_no_space(n: PlanNode) -> bool {
    n.size_bytes is Some && n.size_bytes->0 > APPROX_AVAILABLE_SPACE
}

/// The structural conflicts of node `i`, in their fixed order.
pub open spec fn structural_conflicts(nodes: Seq<PlanNode>, i: int) -> Seq<Conflict> {
    if !node_applicable(nodes[i]) {
        Seq::empty()
    } else {
        (if dest_hits_a_source(nodes, i) {
            seq![Conflict::CycleDetected]
        } else {
            Seq::<Conflict>::empty()
        }) + (if node_dest_inside(nodes[i]) {
            seq![Conflict::DestInsideSource]
        } else {
            Seq::<Conflict>::empty()
        }) + (if node_no_space(nodes[i]) {
            seq![
                Conflict::NoSpace {
                    required: nodes[i].size_bytes->0,
                    available: APPROX_AVAILABLE_SPACE,
                },
            ]
        } else {
            Seq::<Conflict>::empty()
        })
    }
}

/// The resource conflicts that a set of probe answers warrants: too little
/// free space, a failed write probe.
pub open spec fn spec_resource_conflicts(
    size_bytes: Option<u64>,
    available: Option<u64>,
    write_ok: Option<bool>,
) -> Seq<Conflict> {
    (if size_bytes is Some && available is Some && size_bytes->0 > available->0 {
        seq![Conflict::NoSpace { required: size_bytes->0, available: available->0 }]
    } else {
        Seq::<Conflict>::empty()
    }) + (if write_ok == Some(false) {
        seq![Conflict::Permission { required: Permission::FileSystemWrite }]
    } else {
        Seq::<Conflict>::empty()
    })
}

impl PlanValidator {
    /// The resource conflicts of one node, computed from the answers the
    /// filesystem probes gave: the node's size, the free space of the
    /// destination volume, and whether a probe write to the destination
    /// parent succeeded. An unanswered probe — a deadline passed, an
    /// unreadable volume — raises no conflict.
    pub fn resource_conflicts(
        size_bytes: Option<u64>,
        available: Option<u64>,
        write_ok: Option<bool>,
    ) -> (r: Vec<Conflict>)
        ensures
            r@ == spec_resource_conflicts(size_bytes, available, write_ok),
    {
        let mut r: Vec<Conflict> = Vec::new();
        if let (Some(required), Some(avail)) = (size_bytes, available) {
            if required > avail {
                r.push(Conflict::NoSpace { required, available: avail });
            }
        }
        if write_ok == Some(false) {
            r.push(Conflict::Permission { required: Permission::FileSystemWrite });
        }
        proof {
            assert(r@ =~= spec_resource_conflicts(size_bytes, available, write_ok));
        }
        r
    }
}

/// Computes the structural conflicts of node `i`.
pub fn node_structural_conflicts(nodes: &Vec<PlanNode>, i: usize) -> (r: Vec<Conflict>)
    requires
        i < nodes@.len(),
    ensures
        r@ == structural_conflicts(nodes@, i as int),
{
    let node = &nodes[i];
    let mut out: Vec<Conflict> = Vec::new();
    if !is_executable_kind(node.kind) || eq_str(node.path_before.as_str(), node.path_after.as_str())
    {
        proof {
            assert(out@ =~= structural_conflicts(nodes@, i as int));
        }
        return out;
    }
    let n = nodes.len();
    let mut j: usize = 0;
    let mut hit = false;
    while j < n
        invariant
            j <= n,
            n == nodes@.len(),
            i < n,
            hit ==> dest_hits_a_source(nodes@, i as int),
            !hit ==> forall|m: int|
                0 <= m < j && m != i ==> !(spec_executable((#[trigger] nodes@[m]).kind)
                    && nodes@[m].path_before@ == nodes@[i as int].path_after@),
        decreases n - j,
    {
        if j != i && !hit {
            let other = &nodes[j];
            if is_executable_kind(other.kind) && eq_str(
                other.path_before.as_str(),
                nodes[i].path_after.as_str(),
            ) {
                hit = true;
            }
        }
        j = j + 1;
    }
    if hit {
        out.push(Conflict::CycleDetected);
    }
    if path_starts_with(nodes[i].path_after.as_str(), nodes[i].path_before.as_str()) {
        out.push(Conflict::DestInsideSource);
    }
    match nodes[i].size_bytes {
        Some(sz) => {
            if sz > APPROX_AVAILABLE_SPACE {
                out.push(Conflict::NoSpace { required: sz, available: APPROX_AVAILABLE_SPACE });
            }
        },
        None => {},
    }
    proof {
        assert(out@ =~= structural_conflicts(nodes@, i as int));
    }
    out
}

// ---------------------------------------------------------------------------
// Cycle detection over the children relation.
// ---------------------------------------------------------------------------
/// A child edge is ordered when the child's source path lies strictly inside
/// its parent's. A plan whose edges are all ordered can have no cycle, since
/// source paths grow strictly along every edge.
pub open spec fn child_edge_ok(nodes: Seq<PlanNode>, i: int, k: int) -> bool {
    match index_of_id(nodes, 0, nodes[i].children@[k]) {
        Option::None => false,
        Option::Some(c) => spec_path_starts_with(nodes[c].path_before@, nodes[i].path_before@)
            && nodes[c].path_before@.len() > nodes[i].path_before@.len(),
    }
}

/// Every child edge of the plan is ordered.
pub open spec fn children_ordered(nodes: Seq<PlanNode>) -> bool {
    forall|i: int, k: int|
        0 <= i < nodes.len() && 0 <= k < nodes[i].children@.len() ==> #[trigger] child_edge_ok(
            nodes,
            i,
            k,
        )
}

/// Whether node `j` is reachable from node `i` along child edges within
/// `fuel` steps.
pub open spec fn reaches(nodes: Seq<PlanNode>, i: int, j: int, fuel: nat) -> bool
    decreases fuel,
{
    fuel > 0 && exists|k: int|
        0 <= k < nodes[i].children@.len() && match index_of_id(
            nodes,
            0,
            (#[trigger] nodes[i].children@[k]),
        ) {
            Option::None => false,
            Option::Some(c) => c == j || reaches(nodes, c, j, (fuel - 1) as nat),
        }
}

/// Along ordered edges, reachability strictly lengthens the source path, so
/// no node reaches itself: the children relation is acyclic.
pub proof fn lemma_ordered_reach_longer(nodes: Seq<PlanNode>, i: int, j: int, fuel: nat)
    requires
        children_ordered(nodes),
        0 <= i < nodes.len(),
        reaches(nodes, i, j, fuel),
    ensures
        0 <= j < nodes.len(),
        nodes[j].path_before@.len() > nodes[i].path_before@.len(),
    decreases fuel,
{
    let k = choose|k: int|
        0 <= k < nodes[i].children@.len() && match index_of_id(
            nodes,
            0,
            (#[trigger] nodes[i].children@[k]),
        ) {
            Option::None => false,
            Option::Some(c) => c == j || reaches(nodes, c, j, (fuel - 1) as nat),
        };
    assert(child_edge_ok(nodes, i, k));
    let c = index_of_id(nodes, 0, nodes[i].children@[k])->0;
    lemma_index_of_id(nodes, 0, nodes[i].children@[k]);
    if c != j {
        lemma_ordered_reach_longer(nodes, c, j, (fuel - 1) as nat);
    }
}

/// The law behind the cycle check: when every child edge of a plan is
/// ordered, no node reaches itself along the children relation, whatever
/// the traversal depth.
pub proof fn lemma_children_acyclic(nodes: Seq<PlanNode>, i: int, fuel: nat)
    requires
        children_ordered(nodes),
        0 <= i < nodes.len(),
    ensures
        !reaches(nodes, i, i, fuel),
{
    if reaches(nodes, i, i, fuel) {
        lemma_ordered_reach_longer(nodes, i, i, fuel);
    }
}


/// Whether node `target` is reachable from itself within as many steps as
/// there are nodes: computed by iterating, per fuel step, which nodes can
/// reach `target`.
fn reaches_self(nodes: &Vec<PlanNode>, target: usize) -> (r: bool)
    requires
        target < nodes@.len(),
    ensures
        r == reaches(nodes@, target as int, target as int, nodes@.len() as nat),
{
    let n = nodes.len();
    let mut b: Vec<bool> = Vec::new();
    let mut z: usize = 0;
    while z < n
        invariant
            z <= n,
            b@.len() == z,
            forall|x: int| 0 <= x < z ==> !(#[trigger] b@[x]),
        decreases n - z,
    {
        b.push(false);
        z = z + 1;
    }
    let mut f: usize = 0;
    while f < n
        invariant
            f <= n,
            n == nodes@.len(),
            target < n,
            b@.len() == n,
            forall|x: int|
                0 <= x < n ==> #[trigger] b@[x] == reaches(nodes@, x, target as int, f as nat),
        decreases n - f,
    {
        let mut nb: Vec<bool> = Vec::new();
        let mut x: usize = 0;
        while x < n
            invariant
                x <= n,
                n == nodes@.len(),
                target < n,
                f < n,
                b@.len() == n,
                forall|y: int|
                    0 <= y < n ==> #[trigger] b@[y] == reaches(nodes@, y, target as int, f as nat),
                nb@.len() == x,
                forall|y: int|
                    0 <= y < x ==> #[trigger] nb@[y] == reaches(
                        nodes@,
                        y,
                        target as int,
                        (f + 1) as nat,
                    ),
            decreases n - x,
        {
            let m = nodes[x].children.len();
            let mut kk: usize = 0;
            let mut hit = false;
            while kk < m
                invariant_except_break
                    !hit,
                invariant
                    kk <= m,
                    x < n,
                    target < n,
                    f < n,
                    n == nodes@.len(),
                    b@.len() == n,
                    m == nodes@[x as int].children@.len(),
                    forall|y: int|
                        0 <= y < n ==> #[trigger] b@[y] == reaches(
                            nodes@,
                            y,
                            target as int,
                            f as nat,
                        ),
                    !hit ==> forall|k2: int|
                        0 <= k2 < kk ==> !(match index_of_id(
                            nodes@,
                            0,
                            #[trigger] nodes@[x as int].children@[k2],
                        ) {
                            Option::None => false,
                            Option::Some(c) => c == target as int || reaches(
                                nodes@,
                                c,
                                target as int,
                                f as nat,
                            ),
                        }),
                ensures
                    hit == reaches(nodes@, x as int, target as int, (f + 1) as nat),
                decreases m - kk,
            {
                let child_id = nodes[x].children[kk];
                match find_node_index(nodes, child_id) {
                    Some(c) => {
                        proof {
                            lemma_index_of_id(nodes@, 0, child_id);
                        }
                        if c == target || b[c] {
                            hit = true;
                            proof {
                                assert(reaches(nodes@, x as int, target as int, (f + 1) as nat));
                            }
                            break ;
                        }
                    },
                    None => {},
                }
                kk = kk + 1;
            }
            nb.push(hit);
            x = x + 1;
        }
        b = nb;
        f = f + 1;
    }
    b[target]
}

// ---------------------------------------------------------------------------
// The validator.
// ---------------------------------------------------------------------------
/// Validates plans as wholes and applies incremental edits.
pub struct PlanValidator {}

impl PlanValidator {
    pub fn new() -> (r: Self) {
        Self {  }
    }

    /// Whether the two paths lie on different volumes.
    pub fn is_cross_volume(&self, source: &str, dest: &str) -> (r: bool)
        ensures
            r == spec_is_cross_volume(source@, dest@),
    {
        is_cross_volume_path(source, dest)
    }

    /// Whether moving `required_size` bytes would exceed the assumed free
    /// space of the destination volume.
    pub fn check_disk_space(&self, required_size: u64) -> (r: Option<Conflict>)
        ensures
            match r {
                Option::None => required_size <= APPROX_AVAILABLE_SPACE,
                Option::Some(c) => required_size > APPROX_AVAILABLE_SPACE && c == (
                Conflict::NoSpace { required: required_size, available: APPROX_AVAILABLE_SPACE }),
            },
    {
        if required_size > APPROX_AVAILABLE_SPACE {
            Some(Conflict::NoSpace { required: required_size, available: APPROX_AVAILABLE_SPACE })
        } else {
            None
        }
    }

    /// Whether following children ids can return to a starting node: the
    /// plan's children relation has a cycle. A plan whose child edges are
    /// all ordered by source paths passes (`lemma_children_acyclic`).
    pub fn detect_cycle(&self, plan: &MovePlan) -> (r: bool)
        ensures
            r == exists|i: int|
                0 <= i < plan.nodes@.len() && reaches(
                    plan.nodes@,
                    i,
                    i,
                    plan.nodes@.len() as nat,
                ),
    {
        let n = plan.nodes.len();
        let mut i: usize = 0;
        while i < n
            invariant
                i <= n,
                n == plan.nodes@.len(),
                forall|t: int|
                    0 <= t < i ==> !(#[trigger] reaches(plan.nodes@, t, t, n as nat)),
            decreases n - i,
        {
            if reaches_self(&plan.nodes, i) {
                return true;
            }
            i = i + 1;
        }
        false
    }
}

impl Default for PlanValidator {
    fn default() -> Self {
        Self::new()
    }
}

// ---------------------------------------------------------------------------
// Summary differences.
// ---------------------------------------------------------------------------
/// Summary fields small enough for signed differences.
pub open spec fn summary_in_range(s: PlanSummary) -> bool {
    &&& s.count_dirs <= 0x7fff_ffff_ffff_ffff
    &&& s.count_files <= 0x7fff_ffff_ffff_ffff
    &&& s.cross_volume <= 0x7fff_ffff_ffff_ffff
    &&& s.conflicts <= 0x7fff_ffff_ffff_ffff
    &&& s.warnings <= 0x7fff_ffff_ffff_ffff
    &&& (s.total_bytes is Some ==> s.total_bytes->0 <= 0x7fff_ffff_ffff_ffff)
}

/// The signed difference between the reduction over `nodes` and a previous
/// summary, with the recomputed summary it was taken against.
pub fn summary_diff_for(nodes: &Vec<PlanNode>, old_summary: &PlanSummary) -> (r: (
    PlanSummary,
    PlanSummaryDiff,
))
    requires
        nodes_bounded(nodes@),
        summary_in_range(*old_summary),
    ensures
        summary_matches(nodes@, r.0),
        r.1.count_dirs_delta as int == sum_dirs_from(nodes@, 0) - old_summary.count_dirs,
        r.1.count_files_delta as int == sum_files_from(nodes@, 0) - old_summary.count_files,
        r.1.cross_volume_delta as int == sum_cross_from(nodes@, 0) - old_summary.cross_volume,
        r.1.conflicts_delta as int == sum_conflicts_from(nodes@, 0) - old_summary.conflicts,
        r.1.warnings_delta as int == sum_warnings_from(nodes@, 0) - old_summary.warnings,
        match (r.0.total_bytes, old_summary.total_bytes) {
            (Option::Some(n), Option::Some(o)) => r.1.total_bytes_delta == Some((n - o) as i64),
            (Option::Some(n), Option::None) => r.1.total_bytes_delta == Some(n as i64),
            (Option::None, Option::Some(o)) => r.1.total_bytes_delta == Some((-(o as int)) as i64),
            (Option::None, Option::None) => r.1.total_bytes_delta is None,
        },
{
    proof {
        lemma_sum_bounds(nodes@, 0);
        crate::plan::lemma_bytes_le_raw(nodes@, 0);
    }
    let news = compute_summary(nodes);
    let diff = PlanSummaryDiff {
        count_dirs_delta: news.count_dirs as i64 - old_summary.count_dirs as i64,
        count_files_delta: news.count_files as i64 - old_summary.count_files as i64,
        total_bytes_delta: match (news.total_bytes, old_summary.total_bytes) {
            (Some(n), Some(o)) => Some(n as i64 - o as i64),
            (Some(n), None) => Some(n as i64),
            (None, Some(o)) => Some(-(o as i64)),
            (None, None) => None,
        },
        cross_volume_delta: news.cross_volume as i64 - old_summary.cross_volume as i64,
        conflicts_delta: news.conflicts as i64 - old_summary.conflicts as i64,
        warnings_delta: news.warnings as i64 - old_summary.warnings as i64,
    };
    (news, diff)
}

/// A structural copy of one conflict.
pub fn clone_conflict(c: &Conflict) -> (r: Conflict)
    ensures
        r == *c,
{
    match c {
        Conflict::NameExists { existing_path } => Conflict::NameExists {
            existing_path: existing_path.clone(),
        },
        Conflict::CycleDetected => Conflict::CycleDetected,
        Conflict::DestInsideSource => Conflict::DestInsideSource,
        Conflict::NoSpace { required, available } => Conflict::NoSpace {
            required: *required,
            available: *available,
        },
        Conflict::Permission { required } => Conflict::Permission { required: *required },
    }
}

/// A structural copy of a conflict list.
pub fn clone_conflicts(v: &Vec<Conflict>) -> (r: Vec<Conflict>)
    ensures
        r@ == v@,
{
    let n = v.len();
    let mut out: Vec<Conflict> = Vec::new();
    let mut i: usize = 0;
    while i < n
        invariant
            i <= n,
            n == v@.len(),
            out@ == v@.subrange(0, i as int),
        decreases n - i,
    {
        out.push(clone_conflict(&v[i]));
        i = i + 1;
        proof {
            assert(out@ =~= v@.subrange(0, i as int));
        }
    }
    proof {
        assert(out@ =~= v@);
    }
    out
}

// ---------------------------------------------------------------------------
// The SetSkip edit.
// ---------------------------------------------------------------------------
/// Fields no edit ever touches.
pub open spec fn node_core_eq(a: PlanNode, b: PlanNode) -> bool {
    &&& a.id == b.id
    &&& a.is_dir == b.is_dir
    &&& a.name_before@ == b.name_before@
    &&& a.path_before@ == b.path_before@
    &&& a.size_bytes == b.size_bytes
    &&& a.warnings@ == b.warnings@
    &&& a.children@ == b.children@
    &&& a.rule_id == b.rule_id
}

/// Skipping a node: the kind becomes `Skip`, the conflicts move aside into
/// the prior fields, the destination is untouched.
pub open spec fn skip_rel(pre: PlanNode, post: PlanNode) -> bool {
    &&& node_core_eq(pre, post)
    &&& post.name_after@ == pre.name_after@
    &&& post.path_after@ == pre.path_after@
    &&& post.kind == OpKind::Skip
    &&& post.conflicts@.len() == 0
    &&& post.prior_kind == Some(pre.kind)
    &&& post.prior_conflicts@ == pre.conflicts@
}

/// Un-skipping a node: the prior kind (or `Move`, when none was recorded)
/// and the prior conflicts come back.
pub open spec fn unskip_rel(pre: PlanNode, post: PlanNode) -> bool {
    &&& node_core_eq(pre, post)
    &&& post.name_after@ == pre.name_after@
    &&& post.path_after@ == pre.path_after@
    &&& post.kind == (match pre.prior_kind {
        Option::Some(k) => k,
        Option::None => OpKind::Move,
    })
    &&& post.conflicts@ == pre.prior_conflicts@
    &&& post.prior_kind is None
    &&& post.prior_conflicts@.len() == 0
}

/// One reservation of `p` removed from `ex`.
pub open spec fn spec_release_first(ex: Seq<String>, p: Seq<char>) -> Seq<String> {
    match crate::resolver::ConflictResolver::first_index_from(ex, 0, p) {
        Option::None => ex,
        Option::Some(i) => ex.remove(i),
    }
}

/// The difference compares the reduction over `nodes` with `old_summary`,
/// field by field.
pub open spec fn diff_matches(nodes: Seq<PlanNode>, old_summary: PlanSummary, d: PlanSummaryDiff) -> bool {
    &&& d.count_dirs_delta as int == sum_dirs_from(nodes, 0) - old_summary.count_dirs
    &&& d.count_files_delta as int == sum_files_from(nodes, 0) - old_summary.count_files
    &&& d.cross_volume_delta as int == sum_cross_from(nodes, 0) - old_summary.cross_volume
    &&& d.conflicts_delta as int == sum_conflicts_from(nodes, 0) - old_summary.conflicts
    &&& d.warnings_delta as int == sum_warnings_from(nodes, 0) - old_summary.warnings
    &&& match (any_bytes_from(nodes, 0), old_summary.total_bytes) {
        (true, Option::Some(o)) => d.total_bytes_delta == Some(
            (sum_bytes_from(nodes, 0) - o) as i64,
        ),
        (true, Option::None) => d.total_bytes_delta == Some(sum_bytes_from(nodes, 0) as i64),
        (false, Option::Some(o)) => d.total_bytes_delta == Some((-(o as int)) as i64),
        (false, Option::None) => d.total_bytes_delta is None,
    }
}

/// A zero summary difference.
pub open spec fn zero_diff(d: PlanSummaryDiff) -> bool {
    &&& d.count_dirs_delta == 0
    &&& d.count_files_delta == 0
    &&& d.total_bytes_delta is None
    &&& d.cross_volume_delta == 0
    &&& d.conflicts_delta == 0
    &&& d.warnings_delta == 0
}


// ---------------------------------------------------------------------------
// The per-edit effects, named so that the dispatching layers carry them.
// `pre_nodes`/`post_nodes` are the node arena before and after the edit,
// `rpre`/`rpost` the resolver, `old_summary` the summary the delta's signed
// difference was taken against.
// ---------------------------------------------------------------------------
/// The whole effect of `SetSkip`.

pub open spec fn skip_edit_post(
    pre_nodes: Seq<PlanNode>,
    post_nodes: Seq<PlanNode>,
    rpre: crate::resolver::ConflictResolver,
    rpost: crate::resolver::ConflictResolver,
    old_summary: PlanSummary,
    r: Result<ValidationDelta, FileMoverError>,
    node_id: PlanNodeId,
    skip: bool,
) -> bool {
    rpost.auto_rename_counters@ == rpre.auto_rename_counters@ && match index_of_id(
        pre_nodes,
        0,
        node_id,
    ) {
        Option::None => {
            &&& r is Err
            &&& r->Err_0 is PlanValidation
            &&& post_nodes == pre_nodes
            &&& rpost.existing_paths@ == rpre.existing_paths@
        },
        Option::Some(i) => {
            let pre = pre_nodes[i];
            &&& r is Ok
            &&& r->Ok_0.affected_nodes@ == seq![node_id]
            &&& post_nodes.len() == pre_nodes.len()
            &&& (forall|j: int|
                0 <= j < pre_nodes.len() && j != i ==> post_nodes[j] == pre_nodes[j])
            &&& if skip {
                if pre.kind == OpKind::Skip {
                    &&& post_nodes == pre_nodes
                    &&& rpost.existing_paths@ == rpre.existing_paths@
                    &&& r->Ok_0.resolved_conflicts@.len() == 0
                    &&& r->Ok_0.new_conflicts@.len() == 0
                    &&& zero_diff(r->Ok_0.summary_diff)
                } else {
                    &&& skip_rel(pre, post_nodes[i])
                    &&& r->Ok_0.resolved_conflicts@ == pre.conflicts@
                    &&& r->Ok_0.new_conflicts@.len() == 0
                    &&& (if spec_executable(pre.kind) {
                        rpost.existing_paths@ == spec_release_first(
                            rpre.existing_paths@,
                            pre.path_after@,
                        )
                    } else {
                        rpost.existing_paths@ == rpre.existing_paths@
                    })
                    &&& diff_matches(post_nodes, old_summary, r->Ok_0.summary_diff)
                }
            } else {
                if pre.kind != OpKind::Skip {
                    &&& post_nodes == pre_nodes
                    &&& rpost.existing_paths@ == rpre.existing_paths@
                    &&& r->Ok_0.resolved_conflicts@.len() == 0
                    &&& r->Ok_0.new_conflicts@.len() == 0
                    &&& zero_diff(r->Ok_0.summary_diff)
                } else {
                    &&& unskip_rel(pre, post_nodes[i])
                    &&& r->Ok_0.new_conflicts@ == pre.prior_conflicts@
                    &&& r->Ok_0.resolved_conflicts@.len() == 0
                    &&& (if spec_executable(post_nodes[i].kind) {
                        &&& rpost.existing_paths@.len() == rpre.existing_paths@.len() + 1
                        &&& rpost.existing_paths@.drop_last() == rpre.existing_paths@
                        &&& rpost.existing_paths@.last()@ == pre.path_after@
                    } else {
                        rpost.existing_paths@ == rpre.existing_paths@
                    })
                    &&& diff_matches(post_nodes, old_summary, r->Ok_0.summary_diff)
                }
            }
        },
    }
}

/// The whole effect of `ExcludeNode`.
pub open spec fn exclude_edit_post(
    pre_nodes: Seq<PlanNode>,
    post_nodes: Seq<PlanNode>,
    rpre: crate::resolver::ConflictResolver,
    rpost: crate::resolver::ConflictResolver,
    old_summary: PlanSummary,
    r: Result<ValidationDelta, FileMoverError>,
    node_id: PlanNodeId,
) -> bool {
    &&& rpost.auto_rename_counters@ == rpre.auto_rename_counters@
    &&& match index_of_id(pre_nodes, 0, node_id) {
        Option::None => {
            &&& r is Err
            &&& r->Err_0 is PlanValidation
            &&& post_nodes == pre_nodes
            &&& rpost.existing_paths@ == rpre.existing_paths@
        },
        Option::Some(i) => {
            let target = pre_nodes[i].path_before@;
            &&& r is Ok
            &&& post_nodes.len() == pre_nodes.len()
            &&& (forall|j: int|
                0 <= j < pre_nodes.len() ==> (if excl_hit(pre_nodes[j], target) {
                    exclude_rel(pre_nodes[j], #[trigger] post_nodes[j])
                } else {
                    post_nodes[j] == pre_nodes[j]
                }))
            &&& r->Ok_0.affected_nodes@ == excl_affected_ids(pre_nodes, 0, target)
            &&& r->Ok_0.resolved_conflicts@ == excl_resolved(pre_nodes, 0, target)
            &&& r->Ok_0.new_conflicts@.len() == 0
            &&& rpost.existing_paths@ == excl_release_fold(
                rpre.existing_paths@,
                pre_nodes,
                0,
                target,
            )
            &&& diff_matches(post_nodes, old_summary, r->Ok_0.summary_diff)
        },
    }
}

/// The whole effect of `SetConflictPolicy`.
pub open spec fn policy_edit_post(
    pre_nodes: Seq<PlanNode>,
    post_nodes: Seq<PlanNode>,
    rpre: crate::resolver::ConflictResolver,
    rpost: crate::resolver::ConflictResolver,
    old_summary: PlanSummary,
    r: Result<ValidationDelta, FileMoverError>,
    node_id: PlanNodeId,
    policy: crate::rule::ConflictPolicy,
) -> bool {
    match index_of_id(pre_nodes, 0, node_id) {
        Option::None => {
            &&& r is Err
            &&& r->Err_0 is PlanValidation
            &&& post_nodes == pre_nodes
            &&& rpost == rpre
        },
        Option::Some(i) => {
            let pre = pre_nodes[i];
            let rework = policy is AutoRename && spec_executable(pre.kind) && filter_ne(
                pre.conflicts@,
                0,
            ).len() > 0;
            &&& post_nodes.len() == pre_nodes.len()
            &&& (forall|j: int|
                0 <= j < pre_nodes.len() && j != i ==> post_nodes[j] == pre_nodes[j])
            &&& if !rework {
                &&& r is Ok
                &&& post_nodes == pre_nodes
                &&& rpost == rpre
                &&& r->Ok_0.affected_nodes@ == seq![node_id]
                &&& r->Ok_0.new_conflicts@.len() == 0
                &&& r->Ok_0.resolved_conflicts@.len() == 0
                &&& zero_diff(r->Ok_0.summary_diff)
            } else {
                let ex1 = spec_release_first(rpre.existing_paths@, pre.path_after@);
                let start = crate::resolver::counter_from(
                    rpre.auto_rename_counters@,
                    0,
                    pre.path_after@,
                ) as nat;
                let outcome: Option<Seq<char>> = if !crate::resolver::name_taken(
                    ex1,
                    pre.path_after@,
                ) {
                    Some(pre.path_after@)
                } else {
                    match crate::resolver::free_candidate_from(ex1, pre.path_after@, start + 1) {
                        Option::Some(k) => Some(
                            crate::resolver::candidate_name(pre.path_after@, k),
                        ),
                        Option::None => None,
                    }
                };
                match outcome {
                    Option::Some(newp) => {
                        &&& r is Ok
                        &&& node_core_eq(pre, post_nodes[i])
                        &&& post_nodes[i].kind == pre.kind
                        &&& post_nodes[i].path_after@ == newp
                        &&& post_nodes[i].name_after@ == spec_last_segment(newp)
                        &&& post_nodes[i].conflicts@ == filter_non_ne(pre.conflicts@, 0)
                        &&& post_nodes[i].prior_kind == pre.prior_kind
                        &&& post_nodes[i].prior_conflicts@ == pre.prior_conflicts@
                        &&& rpost.existing_paths@.len() == ex1.len() + 1
                        &&& rpost.existing_paths@.drop_last() == ex1
                        &&& rpost.existing_paths@.last()@ == newp
                        &&& r->Ok_0.affected_nodes@ == seq![node_id]
                        &&& r->Ok_0.resolved_conflicts@ == filter_ne(pre.conflicts@, 0)
                        &&& r->Ok_0.new_conflicts@.len() == 0
                        &&& diff_matches(post_nodes, old_summary, r->Ok_0.summary_diff)
                    },
                    Option::None => {
                        &&& r is Err
                        &&& r->Err_0 is PlanValidation
                        &&& post_nodes == pre_nodes
                        &&& rpost.existing_paths@.len() == ex1.len() + 1
                        &&& rpost.existing_paths@.drop_last() == ex1
                        &&& rpost.existing_paths@.last()@ == pre.path_after@
                    },
                }
            }
        },
    }
}

/// The whole effect of `RenameNode`.
pub open spec fn rename_edit_post(
    pre_nodes: Seq<PlanNode>,
    post_nodes: Seq<PlanNode>,
    rpre: crate::resolver::ConflictResolver,
    rpost: crate::resolver::ConflictResolver,
    old_summary: PlanSummary,
    r: Result<ValidationDelta, FileMoverError>,
    node_id: PlanNodeId,
    new_name: Seq<char>,
) -> bool {
    &&& rpost.auto_rename_counters@ == rpre.auto_rename_counters@
    &&& match index_of_id(pre_nodes, 0, node_id) {
        Option::None => {
            &&& r is Err
            &&& r->Err_0 is PlanValidation
            &&& post_nodes == pre_nodes
            &&& rpost.existing_paths@ == rpre.existing_paths@
        },
        Option::Some(i) => {
            let pre = pre_nodes[i];
            let oldp = pre.path_after@;
            let newp = spec_join(spec_parent(oldp), new_name);
            let ex1 = if spec_executable(pre.kind) {
                spec_release_first(rpre.existing_paths@, oldp)
            } else {
                rpre.existing_paths@
            };
            let taken = crate::resolver::name_taken(ex1, newp);
            &&& r is Ok
            &&& post_nodes.len() == pre_nodes.len()
            &&& node_core_eq(pre, post_nodes[i])
            &&& post_nodes[i].kind == pre.kind
            &&& post_nodes[i].name_after@ == new_name
            &&& post_nodes[i].path_after@ == newp
            &&& post_nodes[i].prior_kind == pre.prior_kind
            &&& post_nodes[i].prior_conflicts@ == pre.prior_conflicts@
            &&& rename_conflicts_ok(pre.conflicts@, post_nodes[i].conflicts@, taken, newp)
            &&& (forall|j: int|
                0 <= j < pre_nodes.len() && j != i ==> (if spec_path_starts_with(
                    (#[trigger] pre_nodes[j]).path_after@,
                    oldp,
                ) {
                    &&& node_core_eq(pre_nodes[j], post_nodes[j])
                    &&& post_nodes[j].kind == pre_nodes[j].kind
                    &&& post_nodes[j].name_after@ == pre_nodes[j].name_after@
                    &&& post_nodes[j].conflicts@ == pre_nodes[j].conflicts@
                    &&& post_nodes[j].prior_kind == pre_nodes[j].prior_kind
                    &&& post_nodes[j].prior_conflicts@ == pre_nodes[j].prior_conflicts@
                    &&& post_nodes[j].path_after@ == newp + pre_nodes[j].path_after@.subrange(
                        oldp.len() as int,
                        pre_nodes[j].path_after@.len() as int,
                    )
                } else {
                    post_nodes[j] == pre_nodes[j]
                }))
            &&& (if spec_executable(pre.kind) {
                &&& rpost.existing_paths@.len() == ex1.len() + 1
                &&& rpost.existing_paths@.drop_last() == ex1
                &&& rpost.existing_paths@.last()@ == newp
            } else {
                rpost.existing_paths@ == ex1
            })
            &&& r->Ok_0.affected_nodes@ == seq![node_id]
            &&& r->Ok_0.resolved_conflicts@ == filter_ne(pre.conflicts@, 0)
            &&& (taken ==> r->Ok_0.new_conflicts@.len() == 1 && crate::resolver::is_name_exists(
                r->Ok_0.new_conflicts@[0],
                newp,
            ))
            &&& (!taken ==> r->Ok_0.new_conflicts@.len() == 0)
            &&& diff_matches(post_nodes, old_summary, r->Ok_0.summary_diff)
        },
    }
}

impl PlanValidator {
    /// Applies `SetSkip`. Skipping an executable node records its kind and
    /// conflicts in the prior fields, clears them, and frees one reservation
    /// of its destination; un-skipping restores them and re-reserves the
    /// destination. The returned difference compares the reduction over the
    /// edited nodes with the summary the plan carried.
    pub fn handle_skip_change(
        &self,
        plan: &mut MovePlan,
        resolver: &mut crate::resolver::ConflictResolver,
        node_id: PlanNodeId,
        skip: bool,
    ) -> (r: Result<ValidationDelta, FileMoverError>)
        requires
            nodes_bounded(old(plan).nodes@),
            summary_in_range(old(plan).summary),
        ensures
            final(plan).summary == old(plan).summary,
            final(plan).roots@ == old(plan).roots@,
            nodes_bounded(final(plan).nodes@),
            final(resolver).auto_rename_counters@ == old(resolver).auto_rename_counters@,
            match index_of_id(old(plan).nodes@, 0, node_id) {
                Option::None => {
                    &&& r is Err
                    &&& r->Err_0 is PlanValidation
                    &&& final(plan).nodes@ == old(plan).nodes@
                    &&& final(resolver).existing_paths@ == old(resolver).existing_paths@
                },
                Option::Some(i) => {
                    let pre = old(plan).nodes@[i];
                    &&& r is Ok
                    &&& r->Ok_0.affected_nodes@ == seq![node_id]
                    &&& final(plan).nodes@.len() == old(plan).nodes@.len()
                    &&& (forall|j: int|
                        0 <= j < old(plan).nodes@.len() && j != i ==> final(plan).nodes@[j] == old(
                            plan,
                        ).nodes@[j])
                    &&& if skip {
                        if pre.kind == OpKind::Skip {
                            &&& final(plan).nodes@ == old(plan).nodes@
                            &&& final(resolver).existing_paths@ == old(resolver).existing_paths@
                            &&& r->Ok_0.resolved_conflicts@.len() == 0
                            &&& r->Ok_0.new_conflicts@.len() == 0
                            &&& zero_diff(r->Ok_0.summary_diff)
                        } else {
                            &&& skip_rel(pre, final(plan).nodes@[i])
                            &&& r->Ok_0.resolved_conflicts@ == pre.conflicts@
                            &&& r->Ok_0.new_conflicts@.len() == 0
                            &&& (if spec_executable(pre.kind) {
                                final(resolver).existing_paths@ == spec_release_first(
                                    old(resolver).existing_paths@,
                                    pre.path_after@,
                                )
                            } else {
                                final(resolver).existing_paths@ == old(resolver).existing_paths@
                            })
                            &&& diff_matches(final(plan).nodes@, old(plan).summary, r->Ok_0.summary_diff)
                        }
                    } else {
                        if pre.kind != OpKind::Skip {
                            &&& final(plan).nodes@ == old(plan).nodes@
                            &&& final(resolver).existing_paths@ == old(resolver).existing_paths@
                            &&& r->Ok_0.resolved_conflicts@.len() == 0
                            &&& r->Ok_0.new_conflicts@.len() == 0
                            &&& zero_diff(r->Ok_0.summary_diff)
                        } else {
                            &&& unskip_rel(pre, final(plan).nodes@[i])
                            &&& r->Ok_0.new_conflicts@ == pre.prior_conflicts@
                            &&& r->Ok_0.resolved_conflicts@.len() == 0
                            &&& (if spec_executable(final(plan).nodes@[i].kind) {
                                &&& final(resolver).existing_paths@.len() == old(resolver).existing_paths@.len() + 1
                                &&& final(resolver).existing_paths@.drop_last() == old(resolver).existing_paths@
                                &&& final(resolver).existing_paths@.last()@ == pre.path_after@
                            } else {
                                final(resolver).existing_paths@ == old(resolver).existing_paths@
                            })
                            &&& diff_matches(final(plan).nodes@, old(plan).summary, r->Ok_0.summary_diff)
                        }
                    }
                },
            },

    {
        let idx = match find_node_index(&plan.nodes, node_id) {
            Some(i) => i,
            None => {
                return Err(FileMoverError::PlanValidation {
                    message: "no plan node carries this id".to_owned(),
                });
            },
        };
        proof {
            lemma_index_of_id(plan.nodes@, 0, node_id);
        }
        let zero = PlanSummaryDiff {
            count_dirs_delta: 0,
            count_files_delta: 0,
            total_bytes_delta: None,
            cross_volume_delta: 0,
            conflicts_delta: 0,
            warnings_delta: 0,
        };
        if skip {
            if matches!(plan.nodes[idx].kind, OpKind::Skip) {
                return Ok(ValidationDelta {
                    affected_nodes: vec![node_id],
                    new_conflicts: Vec::new(),
                    resolved_conflicts: Vec::new(),
                    summary_diff: zero,
                });
            }
            let node = plan.nodes.remove(idx);
            if is_executable_kind(node.kind) {
                resolver.release_path(node.path_after.as_str());
            }
            let resolved = clone_conflicts(&node.conflicts);
            let prior = node.kind;
            let new_node = PlanNode {
                kind: OpKind::Skip,
                conflicts: Vec::new(),
                prior_kind: Some(prior),
                prior_conflicts: node.conflicts,
                ..node
            };
            plan.nodes.insert(idx, new_node);
            proof {
                assert(forall|j: int|
                    0 <= j < old(plan).nodes@.len() && j != idx as int ==> final(plan).nodes@[j]
                        == old(plan).nodes@[j]);
                crate::plan::lemma_raw_bytes_congruent(plan.nodes@, old(plan).nodes@, 0);
                assert(nodes_bounded(plan.nodes@));
            }
            let (news, diff) = summary_diff_for(&plan.nodes, &plan.summary);
            proof {
                crate::plan::lemma_sum_bounds(plan.nodes@, 0);
            }
            return Ok(ValidationDelta {
                affected_nodes: vec![node_id],
                new_conflicts: Vec::new(),
                resolved_conflicts: resolved,
                summary_diff: diff,
            });
        }
        if !matches!(plan.nodes[idx].kind, OpKind::Skip) {
            return Ok(ValidationDelta {
                affected_nodes: vec![node_id],
                new_conflicts: Vec::new(),
                resolved_conflicts: Vec::new(),
                summary_diff: zero,
            });
        }
        let node = plan.nodes.remove(idx);
        let restored_kind = match node.prior_kind {
            Some(k) => k,
            None => OpKind::Move,
        };
        if is_executable_kind(restored_kind) {
            resolver.add_existing_path(node.path_after.clone());
        }
        let restored = clone_conflicts(&node.prior_conflicts);
        let new_node = PlanNode {
            kind: restored_kind,
            conflicts: node.prior_conflicts,
            prior_kind: None,
            prior_conflicts: Vec::new(),
            ..node
        };
        plan.nodes.insert(idx, new_node);
        proof {
            assert(forall|j: int|
                0 <= j < old(plan).nodes@.len() && j != idx as int ==> final(plan).nodes@[j] == old(
                    plan,
                ).nodes@[j]);
            crate::plan::lemma_raw_bytes_congruent(plan.nodes@, old(plan).nodes@, 0);
            assert(nodes_bounded(plan.nodes@));
        }
        let (news, diff) = summary_diff_for(&plan.nodes, &plan.summary);
        Ok(ValidationDelta {
            affected_nodes: vec![node_id],
            new_conflicts: restored,
            resolved_conflicts: Vec::new(),
            summary_diff: diff,
        })
    }
}

// ---------------------------------------------------------------------------
// The ExcludeNode edit.
// ---------------------------------------------------------------------------
/// A node falls under an exclusion of `target` when its source path lies at
/// or inside `target`.
pub open spec fn excl_hit(n: PlanNode, target: Seq<char>) -> bool {
    spec_path_starts_with(n.path_before@, target)
}

/// Excluding a node: the kind becomes `NoOp` and the conflicts are dropped.
pub open spec fn exclude_rel(pre: PlanNode, post: PlanNode) -> bool {
    &&& node_core_eq(pre, post)
    &&& post.name_after@ == pre.name_after@
    &&& post.path_after@ == pre.path_after@
    &&& post.kind == OpKind::NoOp
    &&& post.conflicts@.len() == 0
    &&& post.prior_kind == pre.prior_kind
    &&& post.prior_conflicts@ == pre.prior_conflicts@
}

/// The ids of the nodes an exclusion of `target` touches, in plan order.
pub open spec fn excl_affected_ids(nodes: Seq<PlanNode>, i: int, target: Seq<char>) -> Seq<
    PlanNodeId,
>
    decreases nodes.len() - i,
{
    if i < 0 || i >= nodes.len() {
        Seq::empty()
    } else {
        (if excl_hit(nodes[i], target) {
            seq![nodes[i].id]
        } else {
            Seq::<PlanNodeId>::empty()
        }) + excl_affected_ids(nodes, i + 1, target)
    }
}

/// The conflicts an exclusion of `target` drops, in plan order.
pub open spec fn excl_resolved(nodes: Seq<PlanNode>, i: int, target: Seq<char>) -> Seq<Conflict>
    decreases nodes.len() - i,
{
    if i < 0 || i >= nodes.len() {
        Seq::empty()
    } else {
        (if excl_hit(nodes[i], target) {
            nodes[i].conflicts@
        } else {
            Seq::<Conflict>::empty()
        }) + excl_resolved(nodes, i + 1, target)
    }
}

/// The reservations left after an exclusion of `target` frees one
/// reservation per touched executable node, in plan order.
pub open spec fn excl_release_fold(
    ex: Seq<String>,
    nodes: Seq<PlanNode>,
    i: int,
    target: Seq<char>,
) -> Seq<String>
    decreases nodes.len() - i,
{
    if i < 0 || i >= nodes.len() {
        ex
    } else {
        let ex2 = if excl_hit(nodes[i], target) && spec_executable(nodes[i].kind) {
            spec_release_first(ex, nodes[i].path_after@)
        } else {
            ex
        };
        excl_release_fold(ex2, nodes, i + 1, target)
    }
}

impl PlanValidator {
    /// Applies `ExcludeNode`: the named node and every node whose source
    /// path lies inside it become `NoOp`, their conflicts are dropped, and
    /// one reservation of each of their destinations is freed.
    pub fn handle_exclude_change(
        &self,
        plan: &mut MovePlan,
        resolver: &mut crate::resolver::ConflictResolver,
        node_id: PlanNodeId,
    ) -> (r: Result<ValidationDelta, FileMoverError>)
        requires
            nodes_bounded(old(plan).nodes@),
            summary_in_range(old(plan).summary),
        ensures
            final(plan).summary == old(plan).summary,
            final(plan).roots@ == old(plan).roots@,
            nodes_bounded(final(plan).nodes@),
            final(resolver).auto_rename_counters@ == old(resolver).auto_rename_counters@,
            match index_of_id(old(plan).nodes@, 0, node_id) {
                Option::None => {
                    &&& r is Err
                    &&& r->Err_0 is PlanValidation
                    &&& final(plan).nodes@ == old(plan).nodes@
                    &&& final(resolver).existing_paths@ == old(resolver).existing_paths@
                },
                Option::Some(i) => {
                    let target = old(plan).nodes@[i].path_before@;
                    &&& r is Ok
                    &&& final(plan).nodes@.len() == old(plan).nodes@.len()
                    &&& (forall|j: int|
                        0 <= j < old(plan).nodes@.len() ==> (if excl_hit(
                            old(plan).nodes@[j],
                            target,
                        ) {
                            exclude_rel(old(plan).nodes@[j], #[trigger] final(plan).nodes@[j])
                        } else {
                            final(plan).nodes@[j] == old(plan).nodes@[j]
                        }))
                    &&& r->Ok_0.affected_nodes@ == excl_affected_ids(old(plan).nodes@, 0, target)
                    &&& r->Ok_0.resolved_conflicts@ == excl_resolved(old(plan).nodes@, 0, target)
                    &&& r->Ok_0.new_conflicts@.len() == 0
                    &&& final(resolver).existing_paths@ == excl_release_fold(
                        old(resolver).existing_paths@,
                        old(plan).nodes@,
                        0,
                        target,
                    )
                    &&& diff_matches(final(plan).nodes@, old(plan).summary, r->Ok_0.summary_diff)
                },
            },

    {
        let idx = match find_node_index(&plan.nodes, node_id) {
            Some(i) => i,
            None => {
                return Err(FileMoverError::PlanValidation {
                    message: "no plan node carries this id".to_owned(),
                });
            },
        };
        proof {
            lemma_index_of_id(plan.nodes@, 0, node_id);
        }
        let target = plan.nodes[idx].path_before.clone();
        let ghost target_v = target@;
        let ghost nodes0 = plan.nodes@;
        let ghost ex0 = resolver.existing_paths@;
        let n = plan.nodes.len();
        let mut affected: Vec<PlanNodeId> = Vec::new();
        let mut resolved: Vec<Conflict> = Vec::new();
        let mut j: usize = 0;
        while j < n
            invariant
                j <= n,
                n == nodes0.len(),
                target_v == target@,
                nodes0 == old(plan).nodes@,
                ex0 == old(resolver).existing_paths@,
                plan.nodes@.len() == n,
                plan.summary == old(plan).summary,
                plan.roots@ == old(plan).roots@,
                forall|m: int| j <= m < n ==> plan.nodes@[m] == nodes0[m],
                forall|m: int|
                    0 <= m < j ==> (if excl_hit(nodes0[m], target_v) {
                        exclude_rel(nodes0[m], #[trigger] plan.nodes@[m])
                    } else {
                        plan.nodes@[m] == nodes0[m]
                    }),
                affected@ + excl_affected_ids(nodes0, j as int, target_v) == excl_affected_ids(
                    nodes0,
                    0,
                    target_v,
                ),
                resolved@ + excl_resolved(nodes0, j as int, target_v) == excl_resolved(
                    nodes0,
                    0,
                    target_v,
                ),
                excl_release_fold(resolver.existing_paths@, nodes0, j as int, target_v)
                    == excl_release_fold(ex0, nodes0, 0, target_v),
                resolver.auto_rename_counters@ == old(resolver).auto_rename_counters@,
                nodes_bounded(nodes0),
            decreases n - j,
        {
            if path_starts_with(plan.nodes[j].path_before.as_str(), target.as_str()) {
                let ghost nodes_before = plan.nodes@;
                let ghost affected_before = affected@;
                let ghost resolved_before = resolved@;
                let ghost ex_before = resolver.existing_paths@;
                let node = plan.nodes.remove(j);
                if is_executable_kind(node.kind) {
                    resolver.release_path(node.path_after.as_str());
                }
                affected.push(node.id);
                let mut dropped = clone_conflicts(&node.conflicts);
                resolved.append(&mut dropped);
                let new_node = PlanNode { kind: OpKind::NoOp, conflicts: Vec::new(), ..node };
                plan.nodes.insert(j, new_node);
                proof {
                    assert(plan.nodes@ =~= nodes_before.update(j as int, plan.nodes@[j as int]));
                    assert(exclude_rel(nodes0[j as int], plan.nodes@[j as int]));
                    assert(affected@ + excl_affected_ids(nodes0, j + 1, target_v)
                        =~= affected_before + (seq![nodes0[j as int].id] + excl_affected_ids(
                        nodes0,
                        j + 1,
                        target_v,
                    )));
                    assert(resolved@ + excl_resolved(nodes0, j + 1, target_v) =~= resolved_before
                        + (nodes0[j as int].conflicts@ + excl_resolved(nodes0, j + 1, target_v)));
                    assert(excl_release_fold(resolver.existing_paths@, nodes0, j + 1, target_v)
                        == excl_release_fold(ex_before, nodes0, j as int, target_v));
                }
            }
            j = j + 1;
        }
        proof {
            assert(affected@ =~= affected@ + excl_affected_ids(nodes0, n as int, target_v));
            assert(resolved@ =~= resolved@ + excl_resolved(nodes0, n as int, target_v));
            crate::plan::lemma_raw_bytes_congruent(plan.nodes@, nodes0, 0);
            assert(nodes_bounded(plan.nodes@));
        }
        let (news, diff) = summary_diff_for(&plan.nodes, &plan.summary);
        Ok(ValidationDelta {
            affected_nodes: affected,
            new_conflicts: Vec::new(),
            resolved_conflicts: resolved,
            summary_diff: diff,
        })
    }
}

// ---------------------------------------------------------------------------
// NameExists filtering, shared by the policy and rename edits.
// ---------------------------------------------------------------------------
pub open spec fn is_ne_conflict(c: Conflict) -> bool {
    c is NameExists
}

/// The conflicts of `cs` that are not `NameExists`, in order.
pub open spec fn filter_non_ne(cs: Seq<Conflict>, i: int) -> Seq<Conflict>
    decreases cs.len() - i,
{
    if i < 0 || i >= cs.len() {
        Seq::empty()
    } else {
        (if is_ne_conflict(cs[i]) {
            Seq::<Conflict>::empty()
        } else {
            seq![cs[i]]
        }) + filter_non_ne(cs, i + 1)
    }
}

/// The `NameExists` conflicts of `cs`, in order.
pub open spec fn filter_ne(cs: Seq<Conflict>, i: int) -> Seq<Conflict>
    decreases cs.len() - i,
{
    if i < 0 || i >= cs.len() {
        Seq::empty()
    } else {
        (if is_ne_conflict(cs[i]) {
            seq![cs[i]]
        } else {
            Seq::<Conflict>::empty()
        }) + filter_ne(cs, i + 1)
    }
}

/// Splits a conflict list into its non-`NameExists` and `NameExists` parts.
pub fn split_name_exists(v: &Vec<Conflict>) -> (r: (Vec<Conflict>, Vec<Conflict>))
    ensures
        r.0@ == filter_non_ne(v@, 0),
        r.1@ == filter_ne(v@, 0),
{
    let n = v.len();
    let mut keep: Vec<Conflict> = Vec::new();
    let mut dropped: Vec<Conflict> = Vec::new();
    let mut i: usize = 0;
    while i < n
        invariant
            i <= n,
            n == v@.len(),
            keep@ + filter_non_ne(v@, i as int) == filter_non_ne(v@, 0),
            dropped@ + filter_ne(v@, i as int) == filter_ne(v@, 0),
        decreases n - i,
    {
        let ghost keep_before = keep@;
        let ghost dropped_before = dropped@;
        let c = clone_conflict(&v[i]);
        if matches!(c, Conflict::NameExists { .. }) {
            dropped.push(c);
        } else {
            keep.push(c);
        }
        i = i + 1;
        proof {
            assert(keep@ + filter_non_ne(v@, i as int) =~= keep_before + filter_non_ne(
                v@,
                i - 1,
            ));
            assert(dropped@ + filter_ne(v@, i as int) =~= dropped_before + filter_ne(v@, i - 1));
        }
    }
    proof {
        assert(keep@ =~= keep@ + filter_non_ne(v@, n as int));
        assert(dropped@ =~= dropped@ + filter_ne(v@, n as int));
    }
    (keep, dropped)
}

/// The non-`NameExists` part is never longer than the list.
pub proof fn lemma_filter_non_ne_len(cs: Seq<Conflict>, i: int)
    ensures
        filter_non_ne(cs, i).len() <= cs.len() - i || filter_non_ne(cs, i).len() == 0,
        0 <= i <= cs.len() ==> filter_non_ne(cs, i).len() <= cs.len() - i,
    decreases cs.len() - i,
{
    if 0 <= i < cs.len() {
        lemma_filter_non_ne_len(cs, i + 1);
    }
}

impl PlanValidator {
    /// Applies `SetConflictPolicy`. Under `AutoRename`, an executable node
    /// with a pending `NameExists` conflict is re-resolved: its reservation
    /// is freed, the destination keeps its path when no other claim holds
    /// it and is renamed to the next free alternative otherwise, and the
    /// `NameExists` conflicts are dropped. Under `Skip` and `Overwrite` the
    /// node keeps its conflicts unchanged.
    pub fn handle_policy_change(
        &self,
        plan: &mut MovePlan,
        resolver: &mut crate::resolver::ConflictResolver,
        node_id: PlanNodeId,
        policy: crate::rule::ConflictPolicy,
    ) -> (r: Result<ValidationDelta, FileMoverError>)
        requires
            nodes_bounded(old(plan).nodes@),
            summary_in_range(old(plan).summary),
        ensures
            final(plan).summary == old(plan).summary,
            final(plan).roots@ == old(plan).roots@,
            nodes_bounded(final(plan).nodes@),
            match index_of_id(old(plan).nodes@, 0, node_id) {
                Option::None => {
                    &&& r is Err
                    &&& r->Err_0 is PlanValidation
                    &&& final(plan).nodes@ == old(plan).nodes@
                    &&& *final(resolver) == *old(resolver)
                },
                Option::Some(i) => {
                    let pre = old(plan).nodes@[i];
                    let rework = policy is AutoRename && spec_executable(pre.kind) && filter_ne(
                        pre.conflicts@,
                        0,
                    ).len() > 0;
                    &&& final(plan).nodes@.len() == old(plan).nodes@.len()
                    &&& (forall|j: int|
                        0 <= j < old(plan).nodes@.len() && j != i ==> final(plan).nodes@[j] == old(
                            plan,
                        ).nodes@[j])
                    &&& if !rework {
                        &&& r is Ok
                        &&& final(plan).nodes@ == old(plan).nodes@
                        &&& *final(resolver) == *old(resolver)
                        &&& r->Ok_0.affected_nodes@ == seq![node_id]
                        &&& r->Ok_0.new_conflicts@.len() == 0
                        &&& r->Ok_0.resolved_conflicts@.len() == 0
                        &&& zero_diff(r->Ok_0.summary_diff)
                    } else {
                        let ex1 = spec_release_first(
                            old(resolver).existing_paths@,
                            pre.path_after@,
                        );
                        let start = crate::resolver::counter_from(
                            old(resolver).auto_rename_counters@,
                            0,
                            pre.path_after@,
                        ) as nat;
                        let outcome: Option<Seq<char>> = if !crate::resolver::name_taken(
                            ex1,
                            pre.path_after@,
                        ) {
                            Some(pre.path_after@)
                        } else {
                            match crate::resolver::free_candidate_from(
                                ex1,
                                pre.path_after@,
                                start + 1,
                            ) {
                                Option::Some(k) => Some(
                                    crate::resolver::candidate_name(pre.path_after@, k),
                                ),
                                Option::None => None,
                            }
                        };
                        match outcome {
                            Option::Some(newp) => {
                                &&& r is Ok
                                &&& node_core_eq(pre, final(plan).nodes@[i])
                                &&& final(plan).nodes@[i].kind == pre.kind
                                &&& final(plan).nodes@[i].path_after@ == newp
                                &&& final(plan).nodes@[i].name_after@ == spec_last_segment(newp)
                                &&& final(plan).nodes@[i].conflicts@ == filter_non_ne(
                                    pre.conflicts@,
                                    0,
                                )
                                &&& final(plan).nodes@[i].prior_kind == pre.prior_kind
                                &&& final(plan).nodes@[i].prior_conflicts@ == pre.prior_conflicts@
                                &&& final(resolver).existing_paths@.len() == ex1.len() + 1
                                &&& final(resolver).existing_paths@.drop_last() == ex1
                                &&& final(resolver).existing_paths@.last()@ == newp
                                &&& r->Ok_0.affected_nodes@ == seq![node_id]
                                &&& r->Ok_0.resolved_conflicts@ == filter_ne(pre.conflicts@, 0)
                                &&& r->Ok_0.new_conflicts@.len() == 0
                                &&& diff_matches(
                                    final(plan).nodes@,
                                    old(plan).summary,
                                    r->Ok_0.summary_diff,
                                )
                            },
                            Option::None => {
                                &&& r is Err
                                &&& r->Err_0 is PlanValidation
                                &&& final(plan).nodes@ == old(plan).nodes@
                                &&& final(resolver).existing_paths@.len() == ex1.len() + 1
                                &&& final(resolver).existing_paths@.drop_last() == ex1
                                &&& final(resolver).existing_paths@.last()@ == pre.path_after@
                            },
                        }
                    }
                },
            },

    {
        let idx = match find_node_index(&plan.nodes, node_id) {
            Some(i) => i,
            None => {
                return Err(FileMoverError::PlanValidation {
                    message: "no plan node carries this id".to_owned(),
                });
            },
        };
        proof {
            lemma_index_of_id(plan.nodes@, 0, node_id);
        }
        let zero = PlanSummaryDiff {
            count_dirs_delta: 0,
            count_files_delta: 0,
            total_bytes_delta: None,
            cross_volume_delta: 0,
            conflicts_delta: 0,
            warnings_delta: 0,
        };
        let (keep, dropped) = split_name_exists(&plan.nodes[idx].conflicts);
        let rework = matches!(policy, crate::rule::ConflictPolicy::AutoRename)
            && is_executable_kind(plan.nodes[idx].kind) && dropped.len() > 0;
        if !rework {
            return Ok(ValidationDelta {
                affected_nodes: vec![node_id],
                new_conflicts: Vec::new(),
                resolved_conflicts: Vec::new(),
                summary_diff: zero,
            });
        }
        let node = plan.nodes.remove(idx);
        resolver.release_path(node.path_after.as_str());
        let newp: String;
        if !resolver.path_exists(node.path_after.as_str()) {
            newp = node.path_after.clone();
        } else {
            match resolver.generate_auto_renamed_path(node.path_after.as_str()) {
                Ok(p2) => {
                    newp = p2;
                },
                Err(e) => {
                    resolver.add_existing_path(node.path_after.clone());
                    plan.nodes.insert(idx, node);
                    proof {
                        assert(plan.nodes@ =~= old(plan).nodes@);
                    }
                    return Err(e);
                },
            }
        }
        resolver.add_existing_path(newp.clone());
        let new_name = crate::path::last_segment(newp.as_str());
        let new_node = PlanNode { name_after: new_name, path_after: newp, conflicts: keep, ..node };
        plan.nodes.insert(idx, new_node);
        proof {
            assert(forall|j: int|
                0 <= j < old(plan).nodes@.len() && j != idx as int ==> final(plan).nodes@[j] == old(
                    plan,
                ).nodes@[j]);
            lemma_filter_non_ne_len(old(plan).nodes@[idx as int].conflicts@, 0);
            crate::plan::lemma_raw_bytes_congruent(plan.nodes@, old(plan).nodes@, 0);
            assert(nodes_bounded(plan.nodes@));
        }
        let (news, diff) = summary_diff_for(&plan.nodes, &plan.summary);
        Ok(ValidationDelta {
            affected_nodes: vec![node_id],
            new_conflicts: Vec::new(),
            resolved_conflicts: dropped,
            summary_diff: diff,
        })
    }
}

// ---------------------------------------------------------------------------
// The RenameNode edit.
// ---------------------------------------------------------------------------
/// Replaces the first `old_len` characters of `path` by `new_prefix`.
fn replace_prefix(path: &str, old_len: usize, new_prefix: &str) -> (r: String)
    requires
        old_len <= path@.len(),
    ensures
        r@ == new_prefix@ + path@.subrange(old_len as int, path@.len() as int),
{
    let pv = crate::text::str_to_chars(path);
    let nv = crate::text::str_to_chars(new_prefix);
    let mut out: Vec<char> = Vec::new();
    let m = nv.len();
    let mut i: usize = 0;
    while i < m
        invariant
            i <= m,
            m == nv@.len(),
            nv@ == new_prefix@,
            out@ == new_prefix@.subrange(0, i as int),
        decreases m - i,
    {
        out.push(nv[i]);
        i = i + 1;
        proof {
            assert(out@ =~= new_prefix@.subrange(0, i as int));
        }
    }
    proof {
        assert(out@ =~= new_prefix@);
    }
    let n = pv.len();
    let mut j: usize = old_len;
    while j < n
        invariant
            old_len <= j <= n,
            n == pv@.len(),
            pv@ == path@,
            out@ == new_prefix@ + path@.subrange(old_len as int, j as int),
        decreases n - j,
    {
        out.push(pv[j]);
        j = j + 1;
        proof {
            assert(out@ =~= new_prefix@ + path@.subrange(old_len as int, j as int));
        }
    }
    crate::text::chars_to_string(&out)
}

/// The node's conflicts after a rename: its `NameExists` entries are dropped
/// and, when the new destination is taken, one `NameExists` for it appended
/// (unless the remaining list already fills the bound).
pub open spec fn rename_conflicts_ok(
    pre: Seq<Conflict>,
    post: Seq<Conflict>,
    taken: bool,
    newp: Seq<char>,
) -> bool {
    let kept = filter_non_ne(pre, 0);
    if taken && kept.len() < 8 {
        &&& post.len() == kept.len() + 1
        &&& post.subrange(0, kept.len() as int) == kept
        &&& crate::resolver::is_name_exists(post.last(), newp)
    } else {
        post == kept
    }
}

impl PlanValidator {
    /// Applies `RenameNode`: the final segment of the node's destination is
    /// replaced by `new_name`, its reservation moves to the new path, its
    /// `NameExists` conflicts are re-derived against the new path, and the
    /// destinations of the nodes under the old destination follow the rename.
    pub fn handle_rename_change(
        &self,
        plan: &mut MovePlan,
        resolver: &mut crate::resolver::ConflictResolver,
        node_id: PlanNodeId,
        new_name: String,
    ) -> (r: Result<ValidationDelta, FileMoverError>)
        requires
            nodes_bounded(old(plan).nodes@),
            summary_in_range(old(plan).summary),
        ensures
            final(plan).summary == old(plan).summary,
            final(plan).roots@ == old(plan).roots@,
            nodes_bounded(final(plan).nodes@),
            final(resolver).auto_rename_counters@ == old(resolver).auto_rename_counters@,
            match index_of_id(old(plan).nodes@, 0, node_id) {
                Option::None => {
                    &&& r is Err
                    &&& r->Err_0 is PlanValidation
                    &&& final(plan).nodes@ == old(plan).nodes@
                    &&& final(resolver).existing_paths@ == old(resolver).existing_paths@
                },
                Option::Some(i) => {
                    let pre = old(plan).nodes@[i];
                    let oldp = pre.path_after@;
                    let newp = spec_join(spec_parent(oldp), new_name@);
                    let ex1 = if spec_executable(pre.kind) {
                        spec_release_first(old(resolver).existing_paths@, oldp)
                    } else {
                        old(resolver).existing_paths@
                    };
                    let taken = crate::resolver::name_taken(ex1, newp);
                    &&& r is Ok
                    &&& final(plan).nodes@.len() == old(plan).nodes@.len()
                    &&& node_core_eq(pre, final(plan).nodes@[i])
                    &&& final(plan).nodes@[i].kind == pre.kind
                    &&& final(plan).nodes@[i].name_after@ == new_name@
                    &&& final(plan).nodes@[i].path_after@ == newp
                    &&& final(plan).nodes@[i].prior_kind == pre.prior_kind
                    &&& final(plan).nodes@[i].prior_conflicts@ == pre.prior_conflicts@
                    &&& rename_conflicts_ok(
                        pre.conflicts@,
                        final(plan).nodes@[i].conflicts@,
                        taken,
                        newp,
                    )
                    &&& (forall|j: int|
                        0 <= j < old(plan).nodes@.len() && j != i ==> (if spec_path_starts_with(
                            (#[trigger] old(plan).nodes@[j]).path_after@,
                            oldp,
                        ) {
                            &&& node_core_eq(old(plan).nodes@[j], final(plan).nodes@[j])
                            &&& final(plan).nodes@[j].kind == old(plan).nodes@[j].kind
                            &&& final(plan).nodes@[j].name_after@ == old(
                                plan,
                            ).nodes@[j].name_after@
                            &&& final(plan).nodes@[j].conflicts@ == old(plan).nodes@[j].conflicts@
                            &&& final(plan).nodes@[j].prior_kind == old(plan).nodes@[j].prior_kind
                            &&& final(plan).nodes@[j].prior_conflicts@ == old(
                                plan,
                            ).nodes@[j].prior_conflicts@
                            &&& final(plan).nodes@[j].path_after@ == newp + old(
                                plan,
                            ).nodes@[j].path_after@.subrange(
                                oldp.len() as int,
                                old(plan).nodes@[j].path_after@.len() as int,
                            )
                        } else {
                            final(plan).nodes@[j] == old(plan).nodes@[j]
                        }))
                    &&& (if spec_executable(pre.kind) {
                        &&& final(resolver).existing_paths@.len() == ex1.len() + 1
                        &&& final(resolver).existing_paths@.drop_last() == ex1
                        &&& final(resolver).existing_paths@.last()@ == newp
                    } else {
                        final(resolver).existing_paths@ == ex1
                    })
                    &&& r->Ok_0.affected_nodes@ == seq![node_id]
                    &&& r->Ok_0.resolved_conflicts@ == filter_ne(pre.conflicts@, 0)
                    &&& (taken ==> r->Ok_0.new_conflicts@.len() == 1
                        && crate::resolver::is_name_exists(r->Ok_0.new_conflicts@[0], newp))
                    &&& (!taken ==> r->Ok_0.new_conflicts@.len() == 0)
                    &&& diff_matches(final(plan).nodes@, old(plan).summary, r->Ok_0.summary_diff)
                },
            },

    {
        let idx = match find_node_index(&plan.nodes, node_id) {
            Some(i) => i,
            None => {
                return Err(FileMoverError::PlanValidation {
                    message: "no plan node carries this id".to_owned(),
                });
            },
        };
        proof {
            lemma_index_of_id(plan.nodes@, 0, node_id);
        }
        let ghost nodes0 = plan.nodes@;
        let ghost nn = new_name@;
        let node = plan.nodes.remove(idx);
        let old_after = node.path_after.clone();
        let parent_dir = crate::path::parent_path(old_after.as_str());
        let newp = crate::path::join_path(parent_dir.as_str(), new_name.as_str());
        let executable = is_executable_kind(node.kind);
        if executable {
            resolver.release_path(old_after.as_str());
        }
        let taken = resolver.path_exists(newp.as_str());
        if executable {
            resolver.add_existing_path(newp.clone());
        }
        let (mut keep, dropped) = split_name_exists(&node.conflicts);
        let ghost kept0 = keep@;
        let mut new_conflicts: Vec<Conflict> = Vec::new();
        if taken {
            new_conflicts.push(Conflict::NameExists { existing_path: newp.clone() });
            if keep.len() < 8 {
                keep.push(Conflict::NameExists { existing_path: newp.clone() });
                proof {
                    assert(keep@.subrange(0, kept0.len() as int) =~= kept0);
                    assert(crate::resolver::is_name_exists(keep@.last(), newp@));
                }
            }
        }
        proof {
            lemma_filter_non_ne_len(nodes0[idx as int].conflicts@, 0);
        }
        proof {
            assert(rename_conflicts_ok(nodes0[idx as int].conflicts@, keep@, taken, newp@));
        }
        let new_node = PlanNode {
            name_after: new_name,
            path_after: newp.clone(),
            conflicts: keep,
            ..node
        };
        plan.nodes.insert(idx, new_node);
        proof {
            assert(plan.nodes@ =~= nodes0.update(idx as int, plan.nodes@[idx as int]));
        }
        let old_after_len = old_after.unicode_len();
        let n = plan.nodes.len();
        let mut j: usize = 0;
        while j < n
            invariant
                j <= n,
                n == plan.nodes@.len(),
                n == nodes0.len(),
                idx < n,
                old_after_len == nodes0[idx as int].path_after@.len(),
                old_after@ == nodes0[idx as int].path_after@,
                newp@ == plan.nodes@[idx as int].path_after@,
                plan.summary == old(plan).summary,
                plan.roots@ == old(plan).roots@,
                node_core_eq(nodes0[idx as int], plan.nodes@[idx as int]),
                plan.nodes@[idx as int].name_after@ == nn,
                rename_conflicts_ok(
                    nodes0[idx as int].conflicts@,
                    plan.nodes@[idx as int].conflicts@,
                    taken,
                    newp@,
                ),
                plan.nodes@[idx as int].kind == nodes0[idx as int].kind,
                plan.nodes@[idx as int].prior_kind == nodes0[idx as int].prior_kind,
                plan.nodes@[idx as int].prior_conflicts@ == nodes0[idx as int].prior_conflicts@,
                plan.nodes@[idx as int].conflicts@.len() <= 8,
                forall|m: int| j <= m < n && m != idx as int ==> plan.nodes@[m] == nodes0[m],
                plan.nodes@.len() == nodes0.len(),
                forall|m: int|
                    0 <= m < j && m != idx as int ==> (if spec_path_starts_with(
                        (#[trigger] nodes0[m]).path_after@,
                        old_after@,
                    ) {
                        &&& node_core_eq(nodes0[m], plan.nodes@[m])
                        &&& plan.nodes@[m].kind == nodes0[m].kind
                        &&& plan.nodes@[m].name_after@ == nodes0[m].name_after@
                        &&& plan.nodes@[m].conflicts@ == nodes0[m].conflicts@
                        &&& plan.nodes@[m].prior_kind == nodes0[m].prior_kind
                        &&& plan.nodes@[m].prior_conflicts@ == nodes0[m].prior_conflicts@
                        &&& plan.nodes@[m].path_after@ == newp@ + nodes0[m].path_after@.subrange(
                            old_after@.len() as int,
                            nodes0[m].path_after@.len() as int,
                        )
                    } else {
                        plan.nodes@[m] == nodes0[m]
                    }),
            decreases n - j,
        {
            if j != idx {
                let ghost before = plan.nodes@;
                if path_starts_with(plan.nodes[j].path_after.as_str(), old_after.as_str()) {
                    let other = plan.nodes.remove(j);
                    let rebased = replace_prefix(
                        other.path_after.as_str(),
                        old_after_len,
                        newp.as_str(),
                    );
                    let updated = PlanNode { path_after: rebased, ..other };
                    plan.nodes.insert(j, updated);
                    proof {
                        assert(plan.nodes@ =~= before.update(j as int, plan.nodes@[j as int]));
                    }
                }
            }
            j = j + 1;
        }
        proof {
            assert forall|m: int| 0 <= m < n implies (#[trigger] plan.nodes@[m]).size_bytes
                == nodes0[m].size_bytes by {
                if m != idx as int && spec_path_starts_with(nodes0[m].path_after@, old_after@) {
                    assert(node_core_eq(nodes0[m], plan.nodes@[m]));
                }
            }
            crate::plan::lemma_raw_bytes_congruent(plan.nodes@, nodes0, 0);
            assert forall|m: int| 0 <= m < n implies (#[trigger] plan.nodes@[m]).conflicts@.len()
                <= 8 && plan.nodes@[m].warnings@.len() <= 8 && plan.nodes@[m].prior_conflicts@.len()
                <= 8 by {
                if m != idx as int && spec_path_starts_with(nodes0[m].path_after@, old_after@) {
                    assert(node_core_eq(nodes0[m], plan.nodes@[m]));
                    assert(plan.nodes@[m].conflicts@ == nodes0[m].conflicts@);
                }
            }
            assert(nodes_bounded(plan.nodes@));
        }
        let (news, diff) = summary_diff_for(&plan.nodes, &plan.summary);
        Ok(ValidationDelta {
            affected_nodes: vec![node_id],
            new_conflicts,
            resolved_conflicts: dropped,
            summary_diff: diff,
        })
    }
}

// ---------------------------------------------------------------------------
// Whole-plan validation and the edit dispatcher.
// ---------------------------------------------------------------------------
/// Whether a conflict list already holds a conflict of this value.
pub open spec fn contains_eqv(cs: Seq<Conflict>, c: Conflict) -> bool {
    exists|j: int| 0 <= j < cs.len() && crate::plan::conflict_eqv(#[trigger] cs[j], c)
}

/// Whether a conflict is of the kinds the structural recheck produces.
pub open spec fn is_structural_kind(c: Conflict) -> bool {
    c is CycleDetected || c is DestInsideSource || c is NoSpace
}

/// Whether validating node `i` would change its conflict set: some freshly
/// warranted structural conflict is not recorded on it, or it carries a
/// conflict of a structural kind that the recheck no longer warrants.
pub open spec fn node_conflicts_changed(nodes: Seq<PlanNode>, i: int) -> bool {
    ||| exists|q: int|
        0 <= q < structural_conflicts(nodes, i).len() && !contains_eqv(
            nodes[i].conflicts@,
            #[trigger] structural_conflicts(nodes, i)[q],
        )
    ||| exists|q: int|
        0 <= q < nodes[i].conflicts@.len() && is_structural_kind(
            #[trigger] nodes[i].conflicts@[q],
        ) && !contains_eqv(structural_conflicts(nodes, i), nodes[i].conflicts@[q])
}

/// The ids of the nodes whose conflict set validation would change, in plan
/// order.
pub open spec fn full_affected(nodes: Seq<PlanNode>, i: int) -> Seq<PlanNodeId>
    decreases nodes.len() - i,
{
    if i < 0 || i >= nodes.len() {
        Seq::empty()
    } else {
        (if node_conflicts_changed(nodes, i) {
            seq![nodes[i].id]
        } else {
            Seq::<PlanNodeId>::empty()
        }) + full_affected(nodes, i + 1)
    }
}

/// Whether a conflict is of the kinds the structural recheck produces.
fn is_structural_conflict(c: &Conflict) -> (r: bool)
    ensures
        r == is_structural_kind(*c),
{
    match c {
        Conflict::CycleDetected => true,
        Conflict::DestInsideSource => true,
        Conflict::NoSpace { .. } => true,
        _ => false,
    }
}

/// Whether a conflict list already holds a conflict of this value.
fn contains_conflict(cs: &Vec<Conflict>, c: &Conflict) -> (r: bool)
    ensures
        r == contains_eqv(cs@, *c),
{
    let n = cs.len();
    let mut j: usize = 0;
    while j < n
        invariant
            j <= n,
            n == cs@.len(),
            forall|m: int| 0 <= m < j ==> !crate::plan::conflict_eqv(#[trigger] cs@[m], *c),
        decreases n - j,
    {
        if crate::plan::conflict_eq(&cs[j], c) {
            return true;
        }
        j = j + 1;
    }
    false
}

/// Every structural conflict of the plan, in plan order.
pub open spec fn full_new_conflicts(nodes: Seq<PlanNode>, i: int) -> Seq<Conflict>
    decreases nodes.len() - i,
{
    if i < 0 || i >= nodes.len() {
        Seq::empty()
    } else {
        structural_conflicts(nodes, i) + full_new_conflicts(nodes, i + 1)
    }
}

impl PlanValidator {
    /// Validates the whole plan: collects the structural conflicts of every
    /// node (destination hitting another source, destination inside source,
    /// exceeded space), reports the nodes whose recorded conflict set the
    /// checks would change, and compares the recorded summary with the
    /// reduction over the nodes. The plan itself is left untouched.
    pub fn validate_full_plan(&self, plan: &MovePlan) -> (r: Result<
        ValidationDelta,
        FileMoverError,
    >)
        requires
            nodes_bounded(plan.nodes@),
            summary_in_range(plan.summary),
        ensures
            r is Ok,
            r->Ok_0.affected_nodes@ == full_affected(plan.nodes@, 0),
            r->Ok_0.new_conflicts@ == full_new_conflicts(plan.nodes@, 0),
            r->Ok_0.resolved_conflicts@.len() == 0,
            diff_matches(plan.nodes@, plan.summary, r->Ok_0.summary_diff),
    {
        let n = plan.nodes.len();
        let mut affected: Vec<PlanNodeId> = Vec::new();
        let mut new_conflicts: Vec<Conflict> = Vec::new();
        let mut i: usize = 0;
        while i < n
            invariant
                i <= n,
                n == plan.nodes@.len(),
                affected@ + full_affected(plan.nodes@, i as int) == full_affected(plan.nodes@, 0),
                new_conflicts@ + full_new_conflicts(plan.nodes@, i as int) == full_new_conflicts(
                    plan.nodes@,
                    0,
                ),
            decreases n - i,
        {
            let ghost affected_before = affected@;
            let ghost conflicts_before = new_conflicts@;
            let mut cs = node_structural_conflicts(&plan.nodes, i);
            let m = cs.len();
            let mut q: usize = 0;
            let mut fresh = false;
            while q < m
                invariant_except_break
                    !fresh,
                invariant
                    q <= m,
                    i < plan.nodes@.len(),
                    m == cs@.len(),
                    cs@ == structural_conflicts(plan.nodes@, i as int),
                    forall|w: int|
                        0 <= w < q ==> contains_eqv(
                            plan.nodes@[i as int].conflicts@,
                            #[trigger] cs@[w],
                        ),
                ensures
                    fresh == exists|w: int|
                        0 <= w < structural_conflicts(plan.nodes@, i as int).len()
                            && !contains_eqv(
                            plan.nodes@[i as int].conflicts@,
                            #[trigger] structural_conflicts(plan.nodes@, i as int)[w],
                        ),
                decreases m - q,
            {
                if !contains_conflict(&plan.nodes[i].conflicts, &cs[q]) {
                    fresh = true;
                    break ;
                }
                q = q + 1;
            }
            let rc = plan.nodes[i].conflicts.len();
            let mut q2: usize = 0;
            let mut stale = false;
            while q2 < rc
                invariant_except_break
                    !stale,
                invariant
                    q2 <= rc,
                    i < plan.nodes@.len(),
                    rc == plan.nodes@[i as int].conflicts@.len(),
                    m == cs@.len(),
                    cs@ == structural_conflicts(plan.nodes@, i as int),
                    forall|w: int|
                        0 <= w < q2 ==> !(is_structural_kind(
                            #[trigger] plan.nodes@[i as int].conflicts@[w],
                        ) && !contains_eqv(
                            structural_conflicts(plan.nodes@, i as int),
                            plan.nodes@[i as int].conflicts@[w],
                        )),
                ensures
                    stale == exists|w: int|
                        0 <= w < plan.nodes@[i as int].conflicts@.len() && is_structural_kind(
                            #[trigger] plan.nodes@[i as int].conflicts@[w],
                        ) && !contains_eqv(
                            structural_conflicts(plan.nodes@, i as int),
                            plan.nodes@[i as int].conflicts@[w],
                        ),
                decreases rc - q2,
            {
                let keep = is_structural_conflict(&plan.nodes[i].conflicts[q2])
                    && !contains_conflict(&cs, &plan.nodes[i].conflicts[q2]);
                if keep {
                    stale = true;
                    break ;
                }
                q2 = q2 + 1;
            }
            let changed = fresh || stale;
            proof {
                assert(changed == node_conflicts_changed(plan.nodes@, i as int));
            }
            if changed {
                affected.push(plan.nodes[i].id);
            }
            new_conflicts.append(&mut cs);
            i = i + 1;
            proof {
                assert(affected@ + full_affected(plan.nodes@, i as int) =~= affected_before
                    + full_affected(plan.nodes@, i - 1));
                assert(new_conflicts@ + full_new_conflicts(plan.nodes@, i as int)
                    =~= conflicts_before + full_new_conflicts(plan.nodes@, i - 1));
            }
        }
        proof {
            assert(affected@ =~= affected@ + full_affected(plan.nodes@, n as int));
            assert(new_conflicts@ =~= new_conflicts@ + full_new_conflicts(plan.nodes@, n as int));
        }
        let (news, diff) = summary_diff_for(&plan.nodes, &plan.summary);
        Ok(ValidationDelta {
            affected_nodes: affected,
            new_conflicts,
            resolved_conflicts: Vec::new(),
            summary_diff: diff,
        })
    }

    /// Routes one edit to its handler. The per-edit guarantees are stated on
    /// the handlers; every route leaves the node sequence bounded and the
    /// summary and roots untouched, so the planner can recompute the summary
    /// afterwards.
    pub fn validate_incremental_change(
        &self,
        plan: &mut MovePlan,
        resolver: &mut crate::resolver::ConflictResolver,
        change: crate::plan::NodeChange,
    ) -> (r: Result<ValidationDelta, FileMoverError>)
        requires
            nodes_bounded(old(plan).nodes@),
            summary_in_range(old(plan).summary),
        ensures
            nodes_bounded(final(plan).nodes@),
            final(plan).summary == old(plan).summary,
            final(plan).roots@ == old(plan).roots@,
            match change {
                crate::plan::NodeChange::SetSkip(id, skip) => skip_edit_post(
                    old(plan).nodes@,
                    final(plan).nodes@,
                    *old(resolver),
                    *final(resolver),
                    old(plan).summary,
                    r,
                    id,
                    skip,
                ),
                crate::plan::NodeChange::SetConflictPolicy(id, policy) => policy_edit_post(
                    old(plan).nodes@,
                    final(plan).nodes@,
                    *old(resolver),
                    *final(resolver),
                    old(plan).summary,
                    r,
                    id,
                    policy,
                ),
                crate::plan::NodeChange::RenameNode(id, name) => rename_edit_post(
                    old(plan).nodes@,
                    final(plan).nodes@,
                    *old(resolver),
                    *final(resolver),
                    old(plan).summary,
                    r,
                    id,
                    name@,
                ),
                crate::plan::NodeChange::ExcludeNode(id) => exclude_edit_post(
                    old(plan).nodes@,
                    final(plan).nodes@,
                    *old(resolver),
                    *final(resolver),
                    old(plan).summary,
                    r,
                    id,
                ),
            },
    {
        match change {
            crate::plan::NodeChange::SetSkip(id, skip) => self.handle_skip_change(
                plan,
                resolver,
                id,
                skip,
            ),
            crate::plan::NodeChange::SetConflictPolicy(id, policy) => self.handle_policy_change(
                plan,
                resolver,
                id,
                policy,
            ),
            crate::plan::NodeChange::RenameNode(id, name) => self.handle_rename_change(
                plan,
                resolver,
                id,
                name,
            ),
            crate::plan::NodeChange::ExcludeNode(id) => self.handle_exclude_change(
                plan,
                resolver,
                id,
            ),
        }
    }
}

// ---------------------------------------------------------------------------
// The skip/unskip round trip.
// ---------------------------------------------------------------------------
/// Law: skipping an executable node and then un-skipping it restores the
/// node — its kind, destination and conflicts — exactly; and since no other
/// node changes and summary contributions do not read the prior fields, the
/// recomputed summary is restored with it.
pub proof fn lemma_skip_unskip_roundtrip(pre: PlanNode, mid: PlanNode, post: PlanNode)
    requires
        skip_rel(pre, mid),
        unskip_rel(mid, post),
    ensures
        node_core_eq(pre, post),
        post.kind == pre.kind,
        post.name_after@ == pre.name_after@,
        post.path_after@ == pre.path_after@,
        post.conflicts@ == pre.conflicts@,
        dir_contrib_eq(pre, post),
{
}

/// All summary contributions of two nodes coincide.
pub open spec fn dir_contrib_eq(a: PlanNode, b: PlanNode) -> bool {
    &&& crate::plan::dir_contrib(a) == crate::plan::dir_contrib(b)
    &&& crate::plan::file_contrib(a) == crate::plan::file_contrib(b)
    &&& crate::plan::bytes_contrib(a) == crate::plan::bytes_contrib(b)
    &&& crate::plan::has_bytes(a) == crate::plan::has_bytes(b)
    &&& crate::plan::cross_contrib(a) == crate::plan::cross_contrib(b)
    &&& crate::plan::conflicts_contrib(a) == crate::plan::conflicts_contrib(b)
    &&& crate::plan::warnings_contrib(a) == crate::plan::warnings_contrib(b)
}

/// Law, at the plan level: after a skip/unskip pair on one node, every
/// summary reduction over the plan equals what it was before the pair.
pub proof fn lemma_skip_unskip_summary(a: Seq<PlanNode>, c: Seq<PlanNode>, i: int)
    requires
        a.len() == c.len(),
        0 <= i < a.len(),
        forall|j: int| 0 <= j < a.len() && j != i ==> a[j] == c[j],
        dir_contrib_eq(a[i], c[i]),
    ensures
        sum_dirs_from(a, 0) == sum_dirs_from(c, 0),
        sum_files_from(a, 0) == sum_files_from(c, 0),
        sum_bytes_from(a, 0) == sum_bytes_from(c, 0),
        any_bytes_from(a, 0) == any_bytes_from(c, 0),
        sum_cross_from(a, 0) == sum_cross_from(c, 0),
        sum_conflicts_from(a, 0) == sum_conflicts_from(c, 0),
        sum_warnings_from(a, 0) == sum_warnings_from(c, 0),
{
    crate::plan::lemma_sums_congruent(a, c, 0);
}


/// Sequences whose nodes carry the same ids index an id at the same place.
pub proof fn lemma_index_same_ids(a: Seq<PlanNode>, b: Seq<PlanNode>, i: int, id: PlanNodeId)
    requires
        a.len() == b.len(),
        forall|j: int| 0 <= j < a.len() ==> (#[trigger] a[j]).id == b[j].id,
    ensures
        index_of_id(a, i, id) == index_of_id(b, i, id),
    decreases a.len() - i,
{
    if 0 <= i < a.len() {
        lemma_index_same_ids(a, b, i + 1, id);
    }
}

/// Law, for the whole plan: applying `SetSkip(id, true)` and then
/// `SetSkip(id, false)` through the validator restores the plan — the
/// edited node's kind, destination and conflicts, every other node
/// untouched, and every summary reduction — provided the node was not
/// already skipped. (On an already-skipped node the pair restores the
/// recorded prior kind instead, so the proviso is needed.)
pub proof fn lemma_skip_unskip_plan(
    n0: Seq<PlanNode>,
    n1: Seq<PlanNode>,
    n2: Seq<PlanNode>,
    ra: crate::resolver::ConflictResolver,
    rb: crate::resolver::ConflictResolver,
    rc: crate::resolver::ConflictResolver,
    s0: PlanSummary,
    s1: PlanSummary,
    d1: Result<ValidationDelta, FileMoverError>,
    d2: Result<ValidationDelta, FileMoverError>,
    node_id: PlanNodeId,
)
    requires
        skip_edit_post(n0, n1, ra, rb, s0, d1, node_id, true),
        skip_edit_post(n1, n2, rb, rc, s1, d2, node_id, false),
        index_of_id(n0, 0, node_id) is Some,
        n0[index_of_id(n0, 0, node_id)->0].kind != OpKind::Skip,
    ensures
        n2.len() == n0.len(),
        forall|j: int|
            0 <= j < n0.len() && j != index_of_id(n0, 0, node_id)->0 ==> n2[j] == n0[j],
        ({
            let i = index_of_id(n0, 0, node_id)->0;
            &&& n2[i].kind == n0[i].kind
            &&& n2[i].name_after@ == n0[i].name_after@
            &&& n2[i].path_after@ == n0[i].path_after@
            &&& n2[i].conflicts@ == n0[i].conflicts@
            &&& node_core_eq(n0[i], n2[i])
        }),
        sum_dirs_from(n2, 0) == sum_dirs_from(n0, 0),
        sum_files_from(n2, 0) == sum_files_from(n0, 0),
        sum_bytes_from(n2, 0) == sum_bytes_from(n0, 0),
        any_bytes_from(n2, 0) == any_bytes_from(n0, 0),
        sum_cross_from(n2, 0) == sum_cross_from(n0, 0),
        sum_conflicts_from(n2, 0) == sum_conflicts_from(n0, 0),
        sum_warnings_from(n2, 0) == sum_warnings_from(n0, 0),
{
    let i = index_of_id(n0, 0, node_id)->0;
    lemma_index_of_id(n0, 0, node_id);
    assert(skip_rel(n0[i], n1[i]));
    assert forall|j: int| 0 <= j < n0.len() implies (#[trigger] n0[j]).id == n1[j].id by {
        if j == i {
        } else {
            assert(n1[j] == n0[j]);
        }
    }
    lemma_index_same_ids(n0, n1, 0, node_id);
    assert(n1[i].kind == OpKind::Skip);
    assert(unskip_rel(n1[i], n2[i]));
    lemma_skip_unskip_roundtrip(n0[i], n1[i], n2[i]);
    assert forall|j: int|
        0 <= j < n0.len() && j != i implies #[trigger] n2[j] == n0[j] by {
        assert(n1[j] == n0[j]);
        assert(n2[j] == n1[j]);
    }
    lemma_skip_unskip_summary(n0, n2, i);
}

} // verus!
