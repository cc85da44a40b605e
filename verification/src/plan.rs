//! The move plan: a flat arena of plan nodes, the conflicts attached to
//! them, and the derived summary together with its mathematical model.

use vstd::prelude::*;
use crate::path::spec_is_cross_volume;

verus! {

/// Identifier of a plan node, unique within its plan.
#[derive(Debug, Clone, Copy, PartialEq, Eq, Hash, Structural)]
pub struct PlanNodeId(pub u64);

/// The operation a node performs. `Skip` and `NoOp` nodes are not executed.
#[derive(Debug, Clone, Copy, PartialEq, Eq, Structural)]
pub enum OpKind {
    Move,
    CopyDelete,
    Rename,
    Skip,
    NoOp,
}

/// A blocking condition on a node; a node with a conflict is not executed
/// unless its policy resolves it.
#[derive(Debug, Clone, PartialEq)]
pub enum Conflict {
    NameExists { existing_path: String },
    CycleDetected,
    DestInsideSource,
    NoSpace { required: u64, available: u64 },
    Permission { required: Permission },
}

#[derive(Debug, Clone, Copy, PartialEq, Eq, Structural)]
pub enum Permission {
    Administrator,
    FileSystemWrite,
    NetworkAccess,
}

/// One pending folder operation.
#[derive(Debug, Clone, PartialEq)]
pub struct PlanNode {
    pub id: PlanNodeId,
    pub is_dir: bool,
    pub name_before: String,
    pub path_before: String,
    pub name_after: String,
    pub path_after: String,
    pub kind: OpKind,
    pub size_bytes: Option<u64>,
    pub warnings: Vec<crate::rule::Warning>,
    pub conflicts: Vec<Conflict>,
    pub children: Vec<PlanNodeId>,
    pub rule_id: Option<u64>,
    /// The kind the node had before it was last skipped, restored by
    /// un-skipping; `None` when the node was never skipped.
    pub prior_kind: Option<OpKind>,
    /// The conflicts the node had before it was last skipped.
    pub prior_conflicts: Vec<Conflict>,
}

/// A validated set of pending folder operations with its derived summary.
#[derive(Debug, Clone, PartialEq)]
pub struct MovePlan {
    pub roots: Vec<PlanNodeId>,
    pub nodes: Vec<PlanNode>,
    pub summary: PlanSummary,
}

/// Aggregate over the executable nodes of a plan.
#[derive(Debug, Clone, PartialEq)]
pub struct PlanSummary {
    pub count_dirs: u64,
    pub count_files: u64,
    pub total_bytes: Option<u64>,
    pub cross_volume: u64,
    pub conflicts: u64,
    pub warnings: u64,
}

impl PlanSummary {
    pub fn empty() -> (r: Self)
        ensures
            r.count_dirs == 0,
            r.count_files == 0,
            r.total_bytes is None,
            r.cross_volume == 0,
            r.conflicts == 0,
            r.warnings == 0,
    {
        Self {
            count_dirs: 0,
            count_files: 0,
            total_bytes: None,
            cross_volume: 0,
            conflicts: 0,
            warnings: 0,
        }
    }
}

impl Default for PlanSummary {
    fn default() -> (r: Self)
        ensures
            r.count_dirs == 0,
            r.count_files == 0,
            r.total_bytes is None,
            r.cross_volume == 0,
            r.conflicts == 0,
            r.warnings == 0,
    {
        Self::empty()
    }
}

/// A user edit to one node of a plan.
#[derive(Debug, Clone, PartialEq)]
pub enum NodeChange {
    SetSkip(PlanNodeId, bool),
    SetConflictPolicy(PlanNodeId, crate::rule::ConflictPolicy),
    RenameNode(PlanNodeId, String),
    ExcludeNode(PlanNodeId),
}

/// The minimal state change produced by one edit.
#[derive(Debug, Clone, PartialEq)]
pub struct ValidationDelta {
    pub affected_nodes: Vec<PlanNodeId>,
    pub new_conflicts: Vec<Conflict>,
    pub resolved_conflicts: Vec<Conflict>,
    pub summary_diff: PlanSummaryDiff,
}

/// Signed change of each summary field.
#[derive(Debug, Clone, PartialEq)]
pub struct PlanSummaryDiff {
    pub count_dirs_delta: i64,
    pub count_files_delta: i64,
    pub total_bytes_delta: Option<i64>,
    pub cross_volume_delta: i64,
    pub conflicts_delta: i64,
    pub warnings_delta: i64,
}

// ---------------------------------------------------------------------------
// The mathematical model of the summary.
// ---------------------------------------------------------------------------
/// A node is executable unless its kind is `Skip` or `NoOp`.
pub open spec fn spec_executable(k: OpKind) -> bool {
    match k {
        OpKind::Skip => false,
        OpKind::NoOp => false,
        _ => true,
    }
}

/// A node is executable unless its kind is `Skip` or `NoOp`.
pub fn is_executable_kind(k: OpKind) -> (r: bool)
    ensures
        r == spec_executable(k),
{
    match k {
        OpKind::Skip => false,
        OpKind::NoOp => false,
        _ => true,
    }
}

pub open spec fn dir_contrib(n: PlanNode) -> int {
    if spec_executable(n.kind) && n.is_dir {
        1
    } else {
        0
    }
}

pub open spec fn file_contrib(n: PlanNode) -> int {
    if spec_executable(n.kind) && !n.is_dir {
        1
    } else {
        0
    }
}

pub open spec fn has_bytes(n: PlanNode) -> bool {
    spec_executable(n.kind) && n.size_bytes is Some
}

pub open spec fn bytes_contrib(n: PlanNode) -> int {
    if has_bytes(n) {
        n.size_bytes->0 as int
    } else {
        0
    }
}

pub open spec fn cross_contrib(n: PlanNode) -> int {
    if spec_executable(n.kind) && spec_is_cross_volume(n.path_before@, n.path_after@) {
        1
    } else {
        0
    }
}

pub open spec fn conflicts_contrib(n: PlanNode) -> int {
    if spec_executable(n.kind) {
        n.conflicts@.len() as int
    } else {
        0
    }
}

pub open spec fn warnings_contrib(n: PlanNode) -> int {
    if spec_executable(n.kind) {
        n.warnings@.len() as int
    } else {
        0
    }
}

pub open spec fn sum_dirs_from(nodes: Seq<PlanNode>, i: int) -> int
    decreases nodes.len() - i,
{
    if i < 0 || i >= nodes.len() {
        0
    } else {
        dir_contrib(nodes[i]) + sum_dirs_from(nodes, i + 1)
    }
}

pub open spec fn sum_files_from(nodes: Seq<PlanNode>, i: int) -> int
    decreases nodes.len() - i,
{
    if i < 0 || i >= nodes.len() {
        0
    } else {
        file_contrib(nodes[i]) + sum_files_from(nodes, i + 1)
    }
}

pub open spec fn sum_bytes_from(nodes: Seq<PlanNode>, i: int) -> int
    decreases nodes.len() - i,
{
    if i < 0 || i >= nodes.len() {
        0
    } else {
        bytes_contrib(nodes[i]) + sum_bytes_from(nodes, i + 1)
    }
}

/// The size recorded on a node, whatever its kind.
pub open spec fn raw_bytes_contrib(n: PlanNode) -> int {
    if n.size_bytes is Some {
        n.size_bytes->0 as int
    } else {
        0
    }
}

/// The total of the recorded sizes, whatever the kinds; edits to kinds and
/// conflicts leave it unchanged.
pub open spec fn raw_bytes_from(nodes: Seq<PlanNode>, i: int) -> int
    decreases nodes.len() - i,
{
    if i < 0 || i >= nodes.len() {
        0
    } else {
        raw_bytes_contrib(nodes[i]) + raw_bytes_from(nodes, i + 1)
    }
}

/// The executable byte total never exceeds the raw total.
pub proof fn lemma_bytes_le_raw(nodes: Seq<PlanNode>, i: int)
    ensures
        0 <= sum_bytes_from(nodes, i) <= raw_bytes_from(nodes, i),
    decreases nodes.len() - i,
{
    if 0 <= i < nodes.len() {
        lemma_bytes_le_raw(nodes, i + 1);
    }
}

/// A plan of at most a million nodes, each of at most four terabytes, keeps
/// its raw byte total far below the signed 64-bit bound.
pub proof fn lemma_raw_bytes_small(nodes: Seq<PlanNode>, i: int)
    requires
        nodes.len() <= 0x100000,
        0 <= i <= nodes.len(),
        forall|j: int|
            0 <= j < nodes.len() ==> raw_bytes_contrib(#[trigger] nodes[j]) <= 0x400_0000_0000,
    ensures
        raw_bytes_from(nodes, i) <= 0x400_0000_0000 * (nodes.len() - i),
        raw_bytes_from(nodes, i) <= 0x7fff_ffff_ffff_ffff,
    decreases nodes.len() - i,
{
    if i >= nodes.len() {
        assert(raw_bytes_from(nodes, i) == 0);
    } else {
        lemma_raw_bytes_small(nodes, i + 1);
        assert(raw_bytes_from(nodes, i) <= 0x400_0000_0000 * (nodes.len() - i)) by (
        nonlinear_arith)
            requires
                raw_bytes_from(nodes, i) == raw_bytes_contrib(nodes[i]) + raw_bytes_from(
                    nodes,
                    i + 1,
                ),
                raw_bytes_contrib(nodes[i]) <= 0x400_0000_0000,
                raw_bytes_from(nodes, i + 1) <= 0x400_0000_0000 * (nodes.len() - i - 1),
        ;
        assert(0x400_0000_0000 * (nodes.len() - i) <= 0x7fff_ffff_ffff_ffff) by (nonlinear_arith)
            requires
                0 <= i,
                nodes.len() <= 0x100000,
        ;
    }
}

/// Node sequences with the same recorded sizes have the same raw total.
pub proof fn lemma_raw_bytes_congruent(a: Seq<PlanNode>, b: Seq<PlanNode>, i: int)
    requires
        a.len() == b.len(),
        forall|j: int| 0 <= j < a.len() ==> (#[trigger] a[j]).size_bytes == b[j].size_bytes,
    ensures
        raw_bytes_from(a, i) == raw_bytes_from(b, i),
    decreases a.len() - i,
{
    if 0 <= i < a.len() {
        lemma_raw_bytes_congruent(a, b, i + 1);
    }
}

pub open spec fn any_bytes_from(nodes: Seq<PlanNode>, i: int) -> bool
    decreases nodes.len() - i,
{
    if i < 0 || i >= nodes.len() {
        false
    } else {
        has_bytes(nodes[i]) || any_bytes_from(nodes, i + 1)
    }
}

pub open spec fn sum_cross_from(nodes: Seq<PlanNode>, i: int) -> int
    decreases nodes.len() - i,
{
    if i < 0 || i >= nodes.len() {
        0
    } else {
        cross_contrib(nodes[i]) + sum_cross_from(nodes, i + 1)
    }
}

pub open spec fn sum_conflicts_from(nodes: Seq<PlanNode>, i: int) -> int
    decreases nodes.len() - i,
{
    if i < 0 || i >= nodes.len() {
        0
    } else {
        conflicts_contrib(nodes[i]) + sum_conflicts_from(nodes, i + 1)
    }
}

pub open spec fn sum_warnings_from(nodes: Seq<PlanNode>, i: int) -> int
    decreases nodes.len() - i,
{
    if i < 0 || i >= nodes.len() {
        0
    } else {
        warnings_contrib(nodes[i]) + sum_warnings_from(nodes, i + 1)
    }
}

/// The summary is exactly the reduction of the node sequence: this is the
/// model every observable plan is held to.
pub open spec fn summary_matches(nodes: Seq<PlanNode>, s: PlanSummary) -> bool {
    &&& s.count_dirs == sum_dirs_from(nodes, 0)
    &&& s.count_files == sum_files_from(nodes, 0)
    &&& (s.total_bytes is Some <==> any_bytes_from(nodes, 0))
    &&& (s.total_bytes is Some ==> s.total_bytes->0 == sum_bytes_from(nodes, 0))
    &&& s.cross_volume == sum_cross_from(nodes, 0)
    &&& s.conflicts == sum_conflicts_from(nodes, 0)
    &&& s.warnings == sum_warnings_from(nodes, 0)
}

/// Size bounds under which the summary arithmetic cannot overflow.
pub open spec fn nodes_bounded(nodes: Seq<PlanNode>) -> bool {
    &&& nodes.len() <= 0x7fff_ffff
    &&& forall|i: int|
        0 <= i < nodes.len() ==> (#[trigger] nodes[i]).conflicts@.len() <= 8
            && nodes[i].warnings@.len() <= 8 && nodes[i].prior_conflicts@.len() <= 8
    &&& raw_bytes_from(nodes, 0) <= 0x7fff_ffff_ffff_ffff
}

/// Node identifiers are unique within the node sequence.
pub open spec fn ids_unique(nodes: Seq<PlanNode>) -> bool {
    forall|i: int, j: int|
        0 <= i < nodes.len() && 0 <= j < nodes.len() && i != j ==> (#[trigger] nodes[i]).id != (
        #[trigger] nodes[j]).id
}

/// A skipped or excluded node carries no conflicts.
pub open spec fn inert_nodes_conflict_free(nodes: Seq<PlanNode>) -> bool {
    forall|i: int|
        0 <= i < nodes.len() && !spec_executable((#[trigger] nodes[i]).kind) ==> nodes[i].conflicts@.len()
            == 0
}

/// Well-formedness of an observable plan.
pub open spec fn plan_wf(p: MovePlan) -> bool {
    &&& nodes_bounded(p.nodes@)
    &&& ids_unique(p.nodes@)
    &&& inert_nodes_conflict_free(p.nodes@)
    &&& summary_matches(p.nodes@, p.summary)
}

// ---------------------------------------------------------------------------
// Bounds on the partial sums.
// ---------------------------------------------------------------------------
pub proof fn lemma_sum_bounds(nodes: Seq<PlanNode>, i: int)
    requires
        0 <= i <= nodes.len(),
        forall|k: int|
            0 <= k < nodes.len() ==> (#[trigger] nodes[k]).conflicts@.len() <= 8
                && nodes[k].warnings@.len() <= 8,
    ensures
        0 <= sum_dirs_from(nodes, i) <= nodes.len() - i,
        0 <= sum_files_from(nodes, i) <= nodes.len() - i,
        0 <= sum_cross_from(nodes, i) <= nodes.len() - i,
        0 <= sum_conflicts_from(nodes, i) <= 8 * (nodes.len() - i),
        0 <= sum_warnings_from(nodes, i) <= 8 * (nodes.len() - i),
        0 <= sum_bytes_from(nodes, i),
    decreases nodes.len() - i,
{
    if i < nodes.len() {
        lemma_sum_bounds(nodes, i + 1);
    }
}

/// Summary sums read only the kind, size, warning, conflict and path fields;
/// two node sequences that agree on those from position `i` on have the same
/// sums.
pub proof fn lemma_sums_congruent(a: Seq<PlanNode>, b: Seq<PlanNode>, i: int)
    requires
        a.len() == b.len(),
        forall|j: int|
            0 <= j < a.len() ==> dir_contrib(#[trigger] a[j]) == dir_contrib(b[j]) && file_contrib(
                a[j],
            ) == file_contrib(b[j]) && bytes_contrib(a[j]) == bytes_contrib(b[j]) && has_bytes(
                a[j],
            ) == has_bytes(b[j]) && cross_contrib(a[j]) == cross_contrib(b[j]) && conflicts_contrib(
                a[j],
            ) == conflicts_contrib(b[j]) && warnings_contrib(a[j]) == warnings_contrib(b[j]),
    ensures
        sum_dirs_from(a, i) == sum_dirs_from(b, i),
        sum_files_from(a, i) == sum_files_from(b, i),
        sum_bytes_from(a, i) == sum_bytes_from(b, i),
        any_bytes_from(a, i) == any_bytes_from(b, i),
        sum_cross_from(a, i) == sum_cross_from(b, i),
        sum_conflicts_from(a, i) == sum_conflicts_from(b, i),
        sum_warnings_from(a, i) == sum_warnings_from(b, i),
    decreases a.len() - i,
{
    if 0 <= i < a.len() {
        lemma_sums_congruent(a, b, i + 1);
    }
}

/// Conflicts compared by value.
pub open spec fn conflict_eqv(a: Conflict, b: Conflict) -> bool {
    match (a, b) {
        (Conflict::NameExists { existing_path: p1 }, Conflict::NameExists { existing_path: p2 }) => p1@
            == p2@,
        (Conflict::CycleDetected, Conflict::CycleDetected) => true,
        (Conflict::DestInsideSource, Conflict::DestInsideSource) => true,
        (
            Conflict::NoSpace { required: r1, available: a1 },
            Conflict::NoSpace { required: r2, available: a2 },
        ) => r1 == r2 && a1 == a2,
        (Conflict::Permission { required: q1 }, Conflict::Permission { required: q2 }) => q1 == q2,
        _ => false,
    }
}

/// Conflicts compared by value.
pub fn conflict_eq(a: &Conflict, b: &Conflict) -> (r: bool)
    ensures
        r == conflict_eqv(*a, *b),
{
    match (a, b) {
        (Conflict::NameExists { existing_path: p1 }, Conflict::NameExists { existing_path: p2 }) => p1.eq(
            p2,
        ),
        (Conflict::CycleDetected, Conflict::CycleDetected) => true,
        (Conflict::DestInsideSource, Conflict::DestInsideSource) => true,
        (
            Conflict::NoSpace { required: r1, available: a1 },
            Conflict::NoSpace { required: r2, available: a2 },
        ) => *r1 == *r2 && *a1 == *a2,
        (Conflict::Permission { required: q1 }, Conflict::Permission { required: q2 }) => *q1
            == *q2,
        _ => false,
    }
}

/// Conflict sequences compared element by element.
pub open spec fn conflicts_eqv(a: Seq<Conflict>, b: Seq<Conflict>) -> bool {
    a.len() == b.len() && forall|i: int| 0 <= i < a.len() ==> conflict_eqv(#[trigger] a[i], b[i])
}

/// Plan nodes compared by value.
pub open spec fn node_eqv(a: PlanNode, b: PlanNode) -> bool {
    &&& a.id == b.id
    &&& a.is_dir == b.is_dir
    &&& a.name_before@ == b.name_before@
    &&& a.path_before@ == b.path_before@
    &&& a.name_after@ == b.name_after@
    &&& a.path_after@ == b.path_after@
    &&& a.kind == b.kind
    &&& a.size_bytes == b.size_bytes
    &&& a.warnings@ == b.warnings@
    &&& conflicts_eqv(a.conflicts@, b.conflicts@)
    &&& a.children@ == b.children@
    &&& a.rule_id == b.rule_id
    &&& a.prior_kind == b.prior_kind
    &&& conflicts_eqv(a.prior_conflicts@, b.prior_conflicts@)
}

/// Summaries compared by value.
pub open spec fn summary_eqv(a: PlanSummary, b: PlanSummary) -> bool {
    &&& a.count_dirs == b.count_dirs
    &&& a.count_files == b.count_files
    &&& a.total_bytes == b.total_bytes
    &&& a.cross_volume == b.cross_volume
    &&& a.conflicts == b.conflicts
    &&& a.warnings == b.warnings
}

/// Plans compared by value.
pub open spec fn plan_eqv(a: MovePlan, b: MovePlan) -> bool {
    &&& a.roots@ == b.roots@
    &&& a.nodes@.len() == b.nodes@.len()
    &&& forall|i: int| 0 <= i < a.nodes@.len() ==> node_eqv(#[trigger] a.nodes@[i], b.nodes@[i])
    &&& summary_eqv(a.summary, b.summary)
}

/// Computes the plan summary as the reduction over executable nodes.
pub fn compute_summary(nodes: &Vec<PlanNode>) -> (s: PlanSummary)
    requires
        nodes_bounded(nodes@),
    ensures
        summary_matches(nodes@, s),
{
    let n = nodes.len();
    let mut dirs: u64 = 0;
    let mut files: u64 = 0;
    let mut bytes: u64 = 0;
    let mut got_bytes = false;
    let mut cross: u64 = 0;
    let mut conflicts: u64 = 0;
    let mut warnings: u64 = 0;
    let mut i: usize = 0;
    proof {
        lemma_sum_bounds(nodes@, 0);
        lemma_bytes_le_raw(nodes@, 0);
    }
    while i < n
        invariant
            sum_bytes_from(nodes@, 0) <= 0x7fff_ffff_ffff_ffff,
            i <= n,
            n == nodes@.len(),
            nodes_bounded(nodes@),
            dirs + sum_dirs_from(nodes@, i as int) == sum_dirs_from(nodes@, 0),
            files + sum_files_from(nodes@, i as int) == sum_files_from(nodes@, 0),
            bytes + sum_bytes_from(nodes@, i as int) == sum_bytes_from(nodes@, 0),
            got_bytes || bytes == 0,
            (got_bytes || any_bytes_from(nodes@, i as int)) == any_bytes_from(nodes@, 0),
            cross + sum_cross_from(nodes@, i as int) == sum_cross_from(nodes@, 0),
            conflicts + sum_conflicts_from(nodes@, i as int) == sum_conflicts_from(nodes@, 0),
            warnings + sum_warnings_from(nodes@, i as int) == sum_warnings_from(nodes@, 0),
            dirs <= i,
            files <= i,
            cross <= i,
            conflicts <= 8 * i,
            warnings <= 8 * i,
            bytes <= 0x7fff_ffff_ffff_ffff,
        decreases n - i,
    {
        proof {
            lemma_sum_bounds(nodes@, i + 1);
            lemma_bytes_le_raw(nodes@, i + 1);
        }
        let node = &nodes[i];
        if is_executable_kind(node.kind) {
            if node.is_dir {
                dirs = dirs + 1;
            } else {
                files = files + 1;
            }
            match node.size_bytes {
                Some(sz) => {
                    bytes = bytes + sz;
                    got_bytes = true;
                },
                None => {},
            }
            if crate::path::is_cross_volume_path(node.path_before.as_str(), node.path_after.as_str()) {
                cross = cross + 1;
            }
            conflicts = conflicts + node.conflicts.len() as u64;
            warnings = warnings + node.warnings.len() as u64;
        }
        i = i + 1;
    }
    PlanSummary {
        count_dirs: dirs,
        count_files: files,
        total_bytes: if got_bytes {
            Some(bytes)
        } else {
            None
        },
        cross_volume: cross,
        conflicts,
        warnings,
    }
}

} // verus!
