//! Plan generation: folder hits are ordered deterministically (rule
//! priority, then source path), turned into plan nodes with template-expanded
//! destinations, resolved against the reserved-destination set, validated
//! structurally, and linked into a forest by source-path ancestry. The
//! summary is the reduction over the executable nodes, and stays so under
//! every edit.

use vstd::prelude::*;
use crate::error::FileMoverError;
use crate::rule::{Rule, FolderHit, ConflictPolicy, Warning};
use crate::config::PlanOptions;
use crate::plan::{
    MovePlan, PlanNode, PlanNodeId, Conflict, OpKind, PlanSummary, PlanSummaryDiff,
    ValidationDelta, NodeChange, spec_executable, is_executable_kind, nodes_bounded, ids_unique,
    inert_nodes_conflict_free, summary_matches, compute_summary, raw_bytes_from, raw_bytes_contrib,
};
use crate::template::{TemplateEngine, PlanDate, spec_expand};
use crate::resolver::{ConflictResolver, name_taken, is_name_exists};
use crate::validator::{
    PlanValidator, structural_conflicts, node_structural_conflicts, children_ordered,
    child_edge_ok, summary_in_range, index_of_id, is_ne_conflict, node_dest_inside,
};
use crate::path::{spec_path_starts_with, path_starts_with, spec_is_cross_volume,
    is_cross_volume_path, spec_last_segment, last_segment};
use crate::text::eq_str;

verus! {

// ---------------------------------------------------------------------------
// The canonical hit order: rule priority, then source path.
// ---------------------------------------------------------------------------
/// Lexicographic order on character sequences, from position `i`.
pub open spec fn lex_le_from(a: Seq<char>, b: Seq<char>, i: int) -> bool
    decreases a.len() - i,
{
    if i < 0 || i >= a.len() {
        true
    } else if i >= b.len() {
        false
    } else if (a[i] as u32) < (b[i] as u32) {
        true
    } else if (a[i] as u32) > (b[i] as u32) {
        false
    } else {
        lex_le_from(a, b, i + 1)
    }
}

pub open spec fn lex_le(a: Seq<char>, b: Seq<char>) -> bool {
    lex_le_from(a, b, 0)
}

/// Lexicographic order is reflexive.
pub proof fn lemma_lex_refl(a: Seq<char>, i: int)
    ensures
        lex_le_from(a, a, i),
    decreases a.len() - i,
{
    if 0 <= i < a.len() {
        lemma_lex_refl(a, i + 1);
    }
}

/// Lexicographic order is total.
pub proof fn lemma_lex_total(a: Seq<char>, b: Seq<char>, i: int)
    ensures
        lex_le_from(a, b, i) || lex_le_from(b, a, i),
    decreases a.len() - i,
{
    if 0 <= i < a.len() && i < b.len() && (a[i] as u32) == (b[i] as u32) {
        lemma_lex_total(a, b, i + 1);
    }
}

/// Lexicographic order is transitive.
pub proof fn lemma_lex_trans(a: Seq<char>, b: Seq<char>, c: Seq<char>, i: int)
    requires
        lex_le_from(a, b, i),
        lex_le_from(b, c, i),
    ensures
        lex_le_from(a, c, i),
    decreases a.len() - i,
{
    if 0 <= i < a.len() && i < b.len() && i < c.len() && (a[i] as u32) == (b[i] as u32) && (
    b[i] as u32) == (c[i] as u32) {
        lemma_lex_trans(a, b, c, i + 1);
    }
}

/// Compares two string slices lexicographically.
pub fn str_lex_le(a: &str, b: &str) -> (r: bool)
    ensures
        r == lex_le(a@, b@),
{
    let av = crate::text::str_to_chars(a);
    let bv = crate::text::str_to_chars(b);
    let na = av.len();
    let nb = bv.len();
    let mut i: usize = 0;
    while i < na
        invariant
            i <= na,
            na == a@.len(),
            nb == b@.len(),
            av@ == a@,
            bv@ == b@,
            lex_le(a@, b@) == lex_le_from(a@, b@, i as int),
        decreases na - i,
    {
        if i >= nb {
            return false;
        }
        let ca = av[i] as u32;
        let cb = bv[i] as u32;
        if ca < cb {
            return true;
        }
        if ca > cb {
            return false;
        }
        i = i + 1;
    }
    true
}

/// The canonical order on hits: ascending rule priority, ties by source path.
pub open spec fn hit_le(pa: u32, ha: FolderHit, pb: u32, hb: FolderHit) -> bool {
    pa < pb || (pa == pb && lex_le(ha.path@, hb.path@))
}

pub proof fn lemma_hit_le_refl(pa: u32, ha: FolderHit)
    ensures
        hit_le(pa, ha, pa, ha),
{
    lemma_lex_refl(ha.path@, 0);
}

pub proof fn lemma_hit_le_total(pa: u32, ha: FolderHit, pb: u32, hb: FolderHit)
    ensures
        hit_le(pa, ha, pb, hb) || hit_le(pb, hb, pa, ha),
{
    lemma_lex_total(ha.path@, hb.path@, 0);
}

pub proof fn lemma_hit_le_trans(
    pa: u32,
    ha: FolderHit,
    pb: u32,
    hb: FolderHit,
    pc: u32,
    hc: FolderHit,
)
    requires
        hit_le(pa, ha, pb, hb),
        hit_le(pb, hb, pc, hc),
    ensures
        hit_le(pa, ha, pc, hc),
{
    if pa == pb && pb == pc {
        lemma_lex_trans(ha.path@, hb.path@, hc.path@, 0);
    }
}

/// Sorts hit indices into the canonical order. The result is a permutation
/// of `0 .. hits.len()`.
fn sort_hit_indices(hits: &Vec<FolderHit>, prio: &Vec<u32>) -> (perm: Vec<usize>)
    requires
        prio@.len() == hits@.len(),
    ensures
        perm@.len() == hits@.len(),
        forall|k: int| 0 <= k < perm@.len() ==> (#[trigger] perm@[k]) < hits@.len(),
        perm@.no_duplicates(),
        forall|x: int, y: int|
            0 <= x < y < perm@.len() ==> hit_le(
                prio@[#[trigger] perm@[x] as int],
                hits@[perm@[x] as int],
                prio@[#[trigger] perm@[y] as int],
                hits@[perm@[y] as int],
            ),
{
    let n = hits.len();
    let mut rest: Vec<usize> = Vec::new();
    let mut i: usize = 0;
    while i < n
        invariant
            i <= n,
            rest@.len() == i,
            forall|k: int| 0 <= k < i ==> rest@[k] == k,
        decreases n - i,
    {
        rest.push(i);
        i = i + 1;
    }
    proof {
        assert(forall|k: int| 0 <= k < rest@.len() ==> (#[trigger] rest@[k]) < n);
        assert(rest@.no_duplicates());
    }
    let mut out: Vec<usize> = Vec::new();
    while rest.len() > 0
        invariant
            prio@.len() == hits@.len(),
            n == hits@.len(),
            out@.len() + rest@.len() == n,
            forall|k: int| 0 <= k < out@.len() ==> (#[trigger] out@[k]) < n,
            forall|k: int| 0 <= k < rest@.len() ==> (#[trigger] rest@[k]) < n,
            out@.no_duplicates(),
            rest@.no_duplicates(),
            forall|x: int, y: int|
                0 <= x < out@.len() && 0 <= y < rest@.len() ==> (#[trigger] out@[x]) != (
                #[trigger] rest@[y]),
            forall|x: int, y: int|
                0 <= x < y < out@.len() ==> hit_le(
                    prio@[#[trigger] out@[x] as int],
                    hits@[out@[x] as int],
                    prio@[#[trigger] out@[y] as int],
                    hits@[out@[y] as int],
                ),
            forall|x: int, y: int|
                0 <= x < out@.len() && 0 <= y < rest@.len() ==> hit_le(
                    prio@[#[trigger] out@[x] as int],
                    hits@[out@[x] as int],
                    prio@[#[trigger] rest@[y] as int],
                    hits@[rest@[y] as int],
                ),
        decreases rest@.len(),
    {
        let m = rest.len();
        let mut best: usize = 0;
        let mut k: usize = 1;
        proof {
            lemma_hit_le_refl(prio@[rest@[0] as int], hits@[rest@[0] as int]);
        }
        while k < m
            invariant
                1 <= k <= m,
                best < k,
                m == rest@.len(),
                prio@.len() == hits@.len(),
                n == hits@.len(),
                forall|q: int| 0 <= q < m ==> (#[trigger] rest@[q]) < n,
                forall|q: int|
                    0 <= q < k ==> hit_le(
                        prio@[rest@[best as int] as int],
                        hits@[rest@[best as int] as int],
                        prio@[(#[trigger] rest@[q]) as int],
                        hits@[rest@[q] as int],
                    ),
            decreases m - k,
        {
            let a = rest[k];
            let b = rest[best];
            let a_first = if prio[a] < prio[b] {
                true
            } else if prio[a] == prio[b] {
                str_lex_le(hits[a].path.as_str(), hits[b].path.as_str())
            } else {
                false
            };
            proof {
                lemma_hit_le_total(
                    prio@[a as int],
                    hits@[a as int],
                    prio@[b as int],
                    hits@[b as int],
                );
            }
            if a_first {
                proof {
                    lemma_hit_le_refl(prio@[a as int], hits@[a as int]);
                    assert forall|q: int| 0 <= q < k + 1 implies hit_le(
                        prio@[rest@[k as int] as int],
                        hits@[rest@[k as int] as int],
                        prio@[(#[trigger] rest@[q]) as int],
                        hits@[rest@[q] as int],
                    ) by {
                        if q < k {
                            lemma_hit_le_trans(
                                prio@[a as int],
                                hits@[a as int],
                                prio@[b as int],
                                hits@[b as int],
                                prio@[rest@[q] as int],
                                hits@[rest@[q] as int],
                            );
                        }
                    }
                }
                best = k;
            }
            k = k + 1;
        }
        let ghost out_before = out@;
        let ghost rest_before = rest@;
        let ghost bi = best as int;
        let chosen = rest.remove(best);
        out.push(chosen);
        proof {
            assert(forall|y: int|
                0 <= y < rest@.len() ==> #[trigger] rest@[y] == (if y < bi {
                    rest_before[y]
                } else {
                    rest_before[y + 1]
                }));
            assert forall|x: int, y: int|
                0 <= x < out@.len() && 0 <= y < rest@.len() implies (#[trigger] out@[x]) != (
            #[trigger] rest@[y]) by {}
            assert forall|x: int, y: int|
                0 <= x < out@.len() && 0 <= y < rest@.len() implies hit_le(
                prio@[(#[trigger] out@[x]) as int],
                hits@[out@[x] as int],
                prio@[(#[trigger] rest@[y]) as int],
                hits@[rest@[y] as int],
            ) by {}
            assert(rest@.no_duplicates());
            assert(out@.no_duplicates());
        }
    }
    out
}

// ---------------------------------------------------------------------------
// Rule lookup.
// ---------------------------------------------------------------------------
/// The first index of the rule carrying `id`.
pub open spec fn rule_index(rules: Seq<Rule>, i: int, id: u64) -> Option<int>
    decreases rules.len() - i,
{
    if i < 0 || i >= rules.len() {
        None
    } else if rules[i].id == id {
        Some(i)
    } else {
        rule_index(rules, i + 1, id)
    }
}

pub proof fn lemma_rule_index(rules: Seq<Rule>, i: int, id: u64)
    ensures
        match rule_index(rules, i, id) {
            Option::None => true,
            Option::Some(j) => i <= j < rules.len() && rules[j].id == id,
        },
    decreases rules.len() - i,
{
    if 0 <= i < rules.len() && rules[i].id != id {
        lemma_rule_index(rules, i + 1, id);
    }
}

/// Finds the first rule carrying `id`.
fn find_rule_index(rules: &Vec<Rule>, id: u64) -> (r: Option<usize>)
    ensures
        match r {
            Option::None => rule_index(rules@, 0, id) is None,
            Option::Some(j) => rule_index(rules@, 0, id) == Some(j as int),
        },
{
    let n = rules.len();
    let mut i: usize = 0;
    while i < n
        invariant
            i <= n,
            n == rules@.len(),
            rule_index(rules@, 0, id) == rule_index(rules@, i as int, id),
        decreases n - i,
    {
        if rules[i].id == id {
            return Some(i);
        }
        i = i + 1;
    }
    None
}

// ---------------------------------------------------------------------------
// The planner.
// ---------------------------------------------------------------------------
/// Whether a conflict list holds a `NameExists` entry.
pub open spec fn has_ne(cs: Seq<Conflict>) -> bool {
    exists|i: int| 0 <= i < cs.len() && is_ne_conflict(#[trigger] cs[i])
}

/// The first of the plan invariants: two executable nodes that are both free
/// of `NameExists` conflicts never share a destination. (A node that kept a
/// collision under the `Skip` or `Overwrite` policy carries the conflict
/// that names it.)
pub open spec fn dests_distinct(nodes: Seq<PlanNode>) -> bool {
    forall|i: int, j: int|
        0 <= i < nodes.len() && 0 <= j < nodes.len() && i != j && spec_executable(
            (#[trigger] nodes[i]).kind,
        ) && spec_executable((#[trigger] nodes[j]).kind) && !has_ne(nodes[i].conflicts@) && !has_ne(
            nodes[j].conflicts@,
        ) ==> nodes[i].path_after@ != nodes[j].path_after@
}

/// The second of the plan invariants: an executable node whose destination
/// lies inside its source, other than by the two being one path, carries the
/// conflict saying so.
pub open spec fn dest_inside_flagged(nodes: Seq<PlanNode>) -> bool {
    forall|i: int|
        0 <= i < nodes.len() && spec_executable((#[trigger] nodes[i]).kind)
            && nodes[i].path_before@ != nodes[i].path_after@ && spec_path_starts_with(
            nodes[i].path_after@,
            nodes[i].path_before@,
        ) ==> nodes[i].conflicts@.contains(Conflict::DestInsideSource)
}

/// A node whose kind is `NoOp` keeps its source as its destination and
/// contributes nothing to the summary.
pub open spec fn noop_nodes_inert(nodes: Seq<PlanNode>) -> bool {
    forall|i: int|
        0 <= i < nodes.len() && (#[trigger] nodes[i]).kind == OpKind::NoOp ==> nodes[i].path_after@
            == nodes[i].path_before@
}


/// Every hit names a rule that the rule list holds.
pub open spec fn hits_have_rules(hits: Seq<FolderHit>, rules: Seq<Rule>) -> bool {
    forall|i: int|
        0 <= i < hits.len() ==> (#[trigger] hits[i]).matched_rule is Some && rule_index(
            rules,
            0,
            hits[i].matched_rule->0,
        ) is Some
}

/// The rule a hit names: the first rule carrying its id.
pub open spec fn hit_rule(hits: Seq<FolderHit>, rules: Seq<Rule>, i: int) -> Rule {
    rules[rule_index(rules, 0, hits[i].matched_rule->0)->0]
}

/// Whether the expanded destinations collide nowhere: no two hits expand
/// to the same destination, and none lands on a path already known to be
/// taken. Under this condition a plan generation never renames and never
/// exhausts the renamer, so it is owed success whatever the policy.
pub open spec fn no_dest_collisions(
    hits: Seq<FolderHit>,
    rules: Seq<Rule>,
    d: PlanDate,
    seed: Seq<String>,
) -> bool {
    &&& (forall|a: int, b: int|
        0 <= a < hits.len() && 0 <= b < hits.len() && a != b ==> spec_expand(
            hit_rule(hits, rules, a),
            (#[trigger] hits[a]).path@,
            d,
        )->0 != spec_expand(hit_rule(hits, rules, b), (#[trigger] hits[b]).path@, d)->0)
    &&& (forall|a: int, p: int|
        0 <= a < hits.len() && 0 <= p < seed.len() ==> (#[trigger] seed[p])@ != spec_expand(
            hit_rule(hits, rules, a),
            (#[trigger] hits[a]).path@,
            d,
        )->0)
}

/// The priority of the rule a hit names.
pub open spec fn hit_prio(hits: Seq<FolderHit>, rules: Seq<Rule>, i: int) -> u32 {
    hit_rule(hits, rules, i).priority
}

/// Every hit's rule template expands for the hit's path.
pub open spec fn templates_expand(hits: Seq<FolderHit>, rules: Seq<Rule>, d: PlanDate) -> bool {
    forall|i: int|
        0 <= i < hits.len() ==> spec_expand(
            hit_rule(hits, rules, i),
            (#[trigger] hits[i]).path@,
            d,
        ) is Some
}

/// The operation for a source and a desired destination.
pub open spec fn spec_op_kind(src: Seq<char>, dst: Seq<char>) -> OpKind {
    if src == dst {
        OpKind::NoOp
    } else if spec_is_cross_volume(src, dst) {
        OpKind::CopyDelete
    } else {
        OpKind::Move
    }
}

/// How a created node relates to the hit it came from: the source fields are
/// copied, the kind follows the desired expansion, and the destination is
/// the expansion itself or, under renaming, a bounded alternative of it.
pub open spec fn node_from_hit(
    n: PlanNode,
    h: FolderHit,
    rules: Seq<Rule>,
    policy: ConflictPolicy,
    d: PlanDate,
) -> bool {
    &&& h.matched_rule is Some
    &&& rule_index(rules, 0, h.matched_rule->0) is Some
    &&& {
        let rule = rules[rule_index(rules, 0, h.matched_rule->0)->0];
        let ex = spec_expand(rule, h.path@, d);
        &&& ex is Some
        &&& n.is_dir
        &&& n.name_before@ == h.name@
        &&& n.path_before@ == h.path@
        &&& n.size_bytes == h.size_bytes
        &&& n.warnings@ == h.warnings@
        &&& n.rule_id == h.matched_rule
        &&& n.kind == spec_op_kind(h.path@, ex->0)
        &&& n.name_after@ == spec_last_segment(n.path_after@)
        &&& (n.path_after@ == ex->0 || (policy is AutoRename && exists|k: nat|
            1 <= k <= 9999 && n.path_after@ == crate::resolver::candidate_name(ex->0, k)))
        &&& (!spec_executable(n.kind) ==> n.path_after@ == ex->0)
        &&& n.prior_kind is None
        &&& n.prior_conflicts@.len() == 0
    }
}

/// The created nodes are the hits, reordered by ascending rule priority and
/// then source path: `pm` maps node positions to hit positions, one-to-one.
pub open spec fn plan_orders_hits(
    nodes: Seq<PlanNode>,
    hits: Seq<FolderHit>,
    rules: Seq<Rule>,
    policy: ConflictPolicy,
    d: PlanDate,
    pm: Seq<int>,
) -> bool {
    &&& pm.len() == hits.len()
    &&& nodes.len() == hits.len()
    &&& (forall|k: int| 0 <= k < pm.len() ==> 0 <= #[trigger] pm[k] < hits.len())
    &&& (forall|k1: int, k2: int|
        0 <= k1 < pm.len() && 0 <= k2 < pm.len() && k1 != k2 ==> #[trigger] pm[k1] != #[trigger] pm[k2])
    &&& (forall|k: int|
        0 <= k < nodes.len() ==> node_from_hit(#[trigger] nodes[k], hits[pm[k]], rules, policy, d))
    &&& (forall|x: int, y: int|
        0 <= x < y < nodes.len() ==> hit_le(
            hit_prio(hits, rules, #[trigger] pm[x]),
            hits[pm[x]],
            hit_prio(hits, rules, #[trigger] pm[y]),
            hits[pm[y]],
        ))
}

/// Whether node `i`'s source path lies strictly above node `j`'s.
pub open spec fn is_ancestor_node(nodes: Seq<PlanNode>, i: int, j: int) -> bool {
    &&& 0 <= i < nodes.len()
    &&& 0 <= j < nodes.len()
    &&& i != j
    &&& spec_path_starts_with(nodes[j].path_before@, nodes[i].path_before@)
    &&& nodes[i].path_before@ != nodes[j].path_before@
}

/// The deepest strict ancestor of node `j` among the first `k` nodes — the
/// earliest such index on equal depths — or -1 when there is none.
pub open spec fn best_parent_upto(nodes: Seq<PlanNode>, j: int, k: int) -> int
    decreases k,
{
    if k <= 0 {
        -1
    } else {
        let prev = best_parent_upto(nodes, j, k - 1);
        if is_ancestor_node(nodes, k - 1, j) && (prev == -1 || nodes[k - 1].path_before@.len()
            > nodes[prev].path_before@.len()) {
            k - 1
        } else {
            prev
        }
    }
}

/// The parent assigned to node `j`: its deepest strict ancestor, or -1.
pub open spec fn spec_parent_idx(nodes: Seq<PlanNode>, j: int) -> int {
    best_parent_upto(nodes, j, nodes.len() as int)
}

/// The children of node `i` among the first `k` nodes, in plan order.
pub open spec fn children_upto(nodes: Seq<PlanNode>, i: int, k: int) -> Seq<PlanNodeId>
    decreases k,
{
    if k <= 0 {
        Seq::empty()
    } else {
        children_upto(nodes, i, k - 1) + (if spec_parent_idx(nodes, k - 1) == i {
            seq![nodes[k - 1].id]
        } else {
            Seq::<PlanNodeId>::empty()
        })
    }
}

/// The ids of the parentless nodes among the first `k`, in plan order.
pub open spec fn roots_upto(nodes: Seq<PlanNode>, k: int) -> Seq<PlanNodeId>
    decreases k,
{
    if k <= 0 {
        Seq::empty()
    } else {
        roots_upto(nodes, k - 1) + (if spec_parent_idx(nodes, k - 1) == -1 {
            seq![nodes[k - 1].id]
        } else {
            Seq::<PlanNodeId>::empty()
        })
    }
}

/// Each node's children are exactly the nodes whose assigned parent it is,
/// so the edges form a forest: every node hangs under at most one parent.
pub open spec fn plan_children_edges(nodes: Seq<PlanNode>) -> bool {
    forall|i: int|
        0 <= i < nodes.len() ==> (#[trigger] nodes[i].children@) == children_upto(
            nodes,
            i,
            nodes.len() as int,
        )
}

/// An assigned parent lies in range and is a strict ancestor.
pub proof fn lemma_best_parent(nodes: Seq<PlanNode>, j: int, k: int)
    ensures
        best_parent_upto(nodes, j, k) == -1 || (0 <= best_parent_upto(nodes, j, k) < k
            && is_ancestor_node(nodes, best_parent_upto(nodes, j, k), j)),
    decreases k,
{
    if k > 0 {
        lemma_best_parent(nodes, j, k - 1);
    }
}

/// The parent choice reads only source paths and ids, so node sequences
/// that agree on those agree on it.
pub proof fn lemma_parent_congruent(a: Seq<PlanNode>, b: Seq<PlanNode>, j: int, k: int)
    requires
        a.len() == b.len(),
        forall|m: int|
            0 <= m < a.len() ==> (#[trigger] a[m]).path_before@ == b[m].path_before@ && a[m].id
                == b[m].id,
    ensures
        best_parent_upto(a, j, k) == best_parent_upto(b, j, k),
    decreases k,
{
    if k > 0 {
        lemma_parent_congruent(a, b, j, k - 1);
        lemma_best_parent(a, j, k - 1);
        lemma_best_parent(b, j, k - 1);
    }
}

/// The children assignment reads only source paths and ids.
pub proof fn lemma_children_congruent(a: Seq<PlanNode>, b: Seq<PlanNode>, i: int, k: int)
    requires
        k <= a.len(),
        a.len() == b.len(),
        forall|m: int|
            0 <= m < a.len() ==> (#[trigger] a[m]).path_before@ == b[m].path_before@ && a[m].id
                == b[m].id,
    ensures
        children_upto(a, i, k) == children_upto(b, i, k),
    decreases k,

{
    if k > 0 {
        lemma_children_congruent(a, b, i, k - 1);
        lemma_parent_congruent(a, b, k - 1, a.len() as int);
        assert(a[k - 1].path_before@ == b[k - 1].path_before@ && a[k - 1].id == b[k - 1].id);
    }
    assert(children_upto(a, i, k) =~= children_upto(b, i, k));
}

/// The root choice reads only source paths and ids.
pub proof fn lemma_roots_congruent(a: Seq<PlanNode>, b: Seq<PlanNode>, k: int)
    requires
        k <= a.len(),
        a.len() == b.len(),
        forall|m: int|
            0 <= m < a.len() ==> (#[trigger] a[m]).path_before@ == b[m].path_before@ && a[m].id
                == b[m].id,
    ensures
        roots_upto(a, k) == roots_upto(b, k),
    decreases k,
{
    if k > 0 {
        lemma_roots_congruent(a, b, k - 1);
        lemma_parent_congruent(a, b, k - 1, a.len() as int);
        assert(a[k - 1].path_before@ == b[k - 1].path_before@ && a[k - 1].id == b[k - 1].id);
    }
    assert(roots_upto(a, k) =~= roots_upto(b, k));
}

/// Every recorded child of node `i` is the id of a node assigned to it.
pub proof fn lemma_children_upto_elem(nodes: Seq<PlanNode>, i: int, k: int, q: int)
    requires
        k <= nodes.len(),
        0 <= q < children_upto(nodes, i, k).len(),
    ensures
        exists|t: int|
            0 <= t < k && #[trigger] spec_parent_idx(nodes, t) == i && children_upto(
                nodes,
                i,
                k,
            )[q] == nodes[t].id,
    decreases k,
{
    if k > 0 {
        let pre = children_upto(nodes, i, k - 1);
        if q < pre.len() {
            lemma_children_upto_elem(nodes, i, k - 1, q);
            let t = choose|t: int|
                0 <= t < k - 1 && #[trigger] spec_parent_idx(nodes, t) == i && children_upto(
                    nodes,
                    i,
                    k - 1,
                )[q] == nodes[t].id;
            assert(children_upto(nodes, i, k)[q] == pre[q]);
        } else {
            assert(spec_parent_idx(nodes, k - 1) == i);
            assert(children_upto(nodes, i, k)[q] == nodes[k - 1].id);
        }
    }
}

/// What `create_plan` guarantees of every plan it returns.
pub open spec fn plan_invariants(plan: MovePlan) -> bool {
    &&& nodes_bounded(plan.nodes@)
    &&& ids_unique(plan.nodes@)
    &&& inert_nodes_conflict_free(plan.nodes@)
    &&& summary_matches(plan.nodes@, plan.summary)
    &&& children_ordered(plan.nodes@)
    &&& dests_distinct(plan.nodes@)
    &&& dest_inside_flagged(plan.nodes@)
    &&& noop_nodes_inert(plan.nodes@)
}

/// The outcome counts of a simulated run.
#[derive(Debug, Clone, PartialEq)]
pub struct SimulationReport {
    pub success_estimate: u64,
    pub conflicts_remaining: u64,
    pub skipped_count: u64,
    pub estimated_duration_secs: u64,
}

impl SimulationReport {
    pub fn new() -> (r: Self)
        ensures
            r.success_estimate == 0,
            r.conflicts_remaining == 0,
            r.skipped_count == 0,
            r.estimated_duration_secs == 0,
    {
        Self { success_estimate: 0, conflicts_remaining: 0, skipped_count: 0, estimated_duration_secs: 0 }
    }
}

pub open spec fn count_skipped_from(nodes: Seq<PlanNode>, i: int) -> int
    decreases nodes.len() - i,
{
    if i < 0 || i >= nodes.len() {
        0
    } else {
        (if spec_executable(nodes[i].kind) {
            0int
        } else {
            1int
        }) + count_skipped_from(nodes, i + 1)
    }
}

pub open spec fn count_success_from(nodes: Seq<PlanNode>, i: int) -> int
    decreases nodes.len() - i,
{
    if i < 0 || i >= nodes.len() {
        0
    } else {
        (if spec_executable(nodes[i].kind) && nodes[i].conflicts@.len() == 0 {
            1int
        } else {
            0int
        }) + count_success_from(nodes, i + 1)
    }
}

pub open spec fn count_conflicted_from(nodes: Seq<PlanNode>, i: int) -> int
    decreases nodes.len() - i,
{
    if i < 0 || i >= nodes.len() {
        0
    } else {
        (if spec_executable(nodes[i].kind) && nodes[i].conflicts@.len() > 0 {
            1int
        } else {
            0int
        }) + count_conflicted_from(nodes, i + 1)
    }
}

proof fn lemma_count_bounds(nodes: Seq<PlanNode>, i: int)
    requires
        0 <= i <= nodes.len(),
    ensures
        0 <= count_skipped_from(nodes, i) <= nodes.len() - i,
        0 <= count_success_from(nodes, i) <= nodes.len() - i,
        0 <= count_conflicted_from(nodes, i) <= nodes.len() - i,
    decreases nodes.len() - i,
{
    if i < nodes.len() {
        lemma_count_bounds(nodes, i + 1);
    }
}

/// Orchestrates plan generation and editing: expands templates, resolves
/// destination conflicts, validates, and keeps the summary equal to the
/// reduction over executable nodes.
pub struct MovePlanner {
    pub template_engine: TemplateEngine,
    pub conflict_resolver: ConflictResolver,
    pub validator: PlanValidator,
    /// Paths known to be taken on disk, seeding each generation's resolver.
    pub known_existing: Vec<String>,
}

impl MovePlanner {
    pub fn new() -> (r: Self)
        ensures
            r.known_existing@.len() == 0,
    {
        Self {
            template_engine: TemplateEngine::new(),
            conflict_resolver: ConflictResolver::new(),
            validator: PlanValidator::new(),
            known_existing: Vec::new(),
        }
    }

    /// Seeds future plan generations with a path known to be taken on disk.
    pub fn add_existing_path(&mut self, path: String)
        ensures
            final(self).known_existing@ == old(self).known_existing@.push(path),
    {
        self.known_existing.push(path);
    }

    /// Whether the two paths lie on different volumes.
    pub fn is_cross_volume(&self, source: &str, dest: &str) -> (r: bool)
        ensures
            r == spec_is_cross_volume(source@, dest@),
    {
        is_cross_volume_path(source, dest)
    }

    /// The operation for a source and destination: nothing when they are one
    /// path, a copy-and-delete across volumes, a rename within one.
    pub fn determine_operation_kind(&self, source: &str, dest: &str) -> (r: OpKind)
        ensures
            source@ == dest@ ==> r == OpKind::NoOp,
            source@ != dest@ && spec_is_cross_volume(source@, dest@) ==> r == OpKind::CopyDelete,
            source@ != dest@ && !spec_is_cross_volume(source@, dest@) ==> r == OpKind::Move,
    {
        if eq_str(source, dest) {
            OpKind::NoOp
        } else if is_cross_volume_path(source, dest) {
            OpKind::CopyDelete
        } else {
            OpKind::Move
        }
    }
}

/// A copy of a warning list.
fn clone_warnings(v: &Vec<Warning>) -> (r: Vec<Warning>)
    ensures
        r@ == v@,
{
    let n = v.len();
    let mut out: Vec<Warning> = Vec::new();
    let mut i: usize = 0;
    while i < n
        invariant
            i <= n,
            n == v@.len(),
            out@ == v@.subrange(0, i as int),
        decreases n - i,
    {
        out.push(v[i]);
        i = i + 1;
        proof {
            assert(out@ =~= v@.subrange(0, i as int));
        }
    }
    proof {
        assert(out@ =~= v@);
    }
    out
}

/// A `NameExists` conflict occurs in a concatenation exactly when it occurs
/// in one of the parts.
proof fn lemma_has_ne_concat(a: Seq<Conflict>, b: Seq<Conflict>)
    ensures
        has_ne(a + b) == (has_ne(a) || has_ne(b)),
{
    if has_ne(a) {
        let i = choose|i: int| 0 <= i < a.len() && is_ne_conflict(#[trigger] a[i]);
        assert((a + b)[i] == a[i]);
        assert(has_ne(a + b));
    }
    if has_ne(b) {
        let i = choose|i: int| 0 <= i < b.len() && is_ne_conflict(#[trigger] b[i]);
        assert((a + b)[a.len() + i] == b[i]);
        assert(has_ne(a + b));
    }
    if has_ne(a + b) {
        let i = choose|i: int| 0 <= i < (a + b).len() && is_ne_conflict(#[trigger] (a + b)[i]);
        if i < a.len() {
            assert(a[i] == (a + b)[i]);
        } else {
            assert(b[i - a.len()] == (a + b)[i]);
        }
    }
}

/// Structural conflicts never include a `NameExists`.
proof fn lemma_structural_no_ne(nodes: Seq<PlanNode>, i: int)
    ensures
        !has_ne(structural_conflicts(nodes, i)),
{
    let s = structural_conflicts(nodes, i);
    assert forall|j: int| 0 <= j < s.len() implies !is_ne_conflict(#[trigger] s[j]) by {
        if node_applicable_at(nodes, i) {
        }
    }
}

/// Helper naming the applicability test of `structural_conflicts`.
pub open spec fn node_applicable_at(nodes: Seq<PlanNode>, i: int) -> bool {
    crate::validator::node_applicable(nodes[i])
}

impl MovePlanner {
    /// Generates a plan against a fixed clock reading. Hits are ordered by
    /// rule priority and then source path; each hit becomes one node whose
    /// destination is the expanded template, resolved under the default
    /// conflict policy against the reserved set seeded with the known
    /// on-disk paths; structural conflicts are attached; the summary is the
    /// reduction over the executable nodes. Fails with `PlanValidation` when
    /// a hit has no known rule or the auto-renamer is exhausted, and with a
    /// `Config` error when a rule's template is malformed.
    #[verifier::rlimit(100)]
    pub fn create_plan_at(
        &mut self,
        folder_hits: &Vec<FolderHit>,
        rules: &Vec<Rule>,
        options: PlanOptions,
        date: PlanDate,
    ) -> (r: Result<MovePlan, FileMoverError>)
        requires
            folder_hits@.len() <= 0x100000,
            forall|i: int|
                0 <= i < folder_hits@.len() ==> ((#[trigger] folder_hits@[i]).size_bytes is Some
                    ==> folder_hits@[i].size_bytes->0 <= 0x400_0000_0000),
            forall|i: int| 0 <= i < folder_hits@.len() ==> (#[trigger] folder_hits@[i]).warnings@.len() <= 8,
        ensures
            r is Err ==> (r->Err_0 is PlanValidation || r->Err_0 is Config),
            !hits_have_rules(folder_hits@, rules@) ==> r is Err && r->Err_0 is PlanValidation,
            r is Err && r->Err_0 is Config ==> !templates_expand(folder_hits@, rules@, date),
            hits_have_rules(folder_hits@, rules@) && templates_expand(folder_hits@, rules@, date)
                && !(options.default_conflict_policy is AutoRename) ==> r is Ok,
            hits_have_rules(folder_hits@, rules@) && templates_expand(folder_hits@, rules@, date)
                && no_dest_collisions(folder_hits@, rules@, date, old(self).known_existing@)
                ==> r is Ok,
            hits_have_rules(folder_hits@, rules@) && templates_expand(folder_hits@, rules@, date)
                && r is Err ==> options.default_conflict_policy is AutoRename && r->Err_0
                is PlanValidation,
            r is Ok ==> plan_invariants(r->Ok_0),
            r is Ok ==> r->Ok_0.nodes@.len() == folder_hits@.len(),
            r is Ok ==> exists|pm: Seq<int>|
                plan_orders_hits(
                    r->Ok_0.nodes@,
                    folder_hits@,
                    rules@,
                    options.default_conflict_policy,
                    date,
                    pm,
                ),
            r is Ok ==> r->Ok_0.roots@ == roots_upto(
                r->Ok_0.nodes@,
                r->Ok_0.nodes@.len() as int,
            ),
            r is Ok ==> plan_children_edges(r->Ok_0.nodes@),
            r is Ok ==> crate::validator::cycle_flagged(r->Ok_0.nodes@),
            r is Ok && options.default_conflict_policy is AutoRename ==> forall|k: int|
                0 <= k < r->Ok_0.nodes@.len() ==> !has_ne(
                    (#[trigger] r->Ok_0.nodes@[k]).conflicts@,
                ),
    {
        let n = folder_hits.len();
        self.conflict_resolver.reset();
        let seeds = self.known_existing.len();
        let mut si: usize = 0;
        while si < seeds
            invariant
                si <= seeds,
                seeds == self.known_existing@.len(),
                self.known_existing@ == old(self).known_existing@,
                self.conflict_resolver.existing_paths@.len() == si,
                forall|p: int|
                    0 <= p < si ==> (#[trigger] self.conflict_resolver.existing_paths@[p])@
                        == old(self).known_existing@[p]@,
            decreases seeds - si,
        {
            let p = self.known_existing[si].clone();
            self.conflict_resolver.add_existing_path(p);
            si = si + 1;
        }
        let ghost seed0 = self.conflict_resolver.existing_paths@;
        let mut prio: Vec<u32> = Vec::new();
        let mut hi: usize = 0;
        while hi < n
            invariant
                hi <= n,
                n == folder_hits@.len(),
                prio@.len() == hi,
                forall|m: int|
                    0 <= m < hi ==> (#[trigger] folder_hits@[m]).matched_rule is Some
                        && rule_index(rules@, 0, folder_hits@[m].matched_rule->0) is Some,
                forall|m: int|
                    0 <= m < hi ==> prio@[m] == hit_prio(folder_hits@, rules@, m),
            decreases n - hi,
        {
            let rid = match folder_hits[hi].matched_rule {
                Some(x) => x,
                None => {
                    proof {
                        assert(!hits_have_rules(folder_hits@, rules@)) by {
                            assert(!((folder_hits@[hi as int]).matched_rule is Some));
                        }
                    }
                    return Err(FileMoverError::PlanValidation {
                        message: "a folder hit names no rule".to_owned(),
                    });
                },
            };
            let ridx = match find_rule_index(rules, rid) {
                Some(x) => x,
                None => {
                    proof {
                        assert(!hits_have_rules(folder_hits@, rules@)) by {
                            assert(rule_index(
                                rules@,
                                0,
                                folder_hits@[hi as int].matched_rule->0,
                            ) is None);
                        }
                    }
                    return Err(FileMoverError::PlanValidation {
                        message: "a folder hit names an unknown rule".to_owned(),
                    });
                },
            };
            proof {
                lemma_rule_index(rules@, 0, rid);
            }
            prio.push(rules[ridx].priority);
            hi = hi + 1;
        }
        proof {
            assert(hits_have_rules(folder_hits@, rules@));
        }
        let mut ti: usize = 0;
        while ti < n
            invariant
                ti <= n,
                n == folder_hits@.len(),
                hits_have_rules(folder_hits@, rules@),
                forall|m: int|
                    0 <= m < ti ==> spec_expand(
                        hit_rule(folder_hits@, rules@, m),
                        (#[trigger] folder_hits@[m]).path@,
                        date,
                    ) is Some,
            decreases n - ti,
        {
            let h = &folder_hits[ti];
            let rid = match h.matched_rule {
                Some(x) => x,
                None => {
                    proof {
                        assert(false);
                    }
                    return Err(FileMoverError::PlanValidation {
                        message: "a folder hit names no rule".to_owned(),
                    });
                },
            };
            let ridx = match find_rule_index(rules, rid) {
                Some(x) => x,
                None => {
                    proof {
                        assert(false);
                    }
                    return Err(FileMoverError::PlanValidation {
                        message: "a folder hit names an unknown rule".to_owned(),
                    });
                },
            };
            proof {
                lemma_rule_index(rules@, 0, rid);
            }
            match self.template_engine.expand_template(&rules[ridx], h.path.as_str(), date) {
                Ok(_) => {},
                Err(e) => {
                    proof {
                        assert(!templates_expand(folder_hits@, rules@, date)) by {
                            assert(spec_expand(
                                hit_rule(folder_hits@, rules@, ti as int),
                                folder_hits@[ti as int].path@,
                                date,
                            ) is None);
                        }
                    }
                    return Err(e);
                },
            }
            ti = ti + 1;
        }
        proof {
            assert(templates_expand(folder_hits@, rules@, date));
        }
        let perm = sort_hit_indices(folder_hits, &prio);
        let mut nodes: Vec<PlanNode> = Vec::new();
        let mut k: usize = 0;
        while k < n
            invariant
                k <= n,
                k == nodes@.len(),
                n == folder_hits@.len(),
                n <= 0x100000,
                perm@.len() == n,
                forall|x: int| 0 <= x < n ==> (#[trigger] perm@[x]) < n,
                forall|m: int|
                    0 <= m < n ==> (#[trigger] folder_hits@[m]).matched_rule is Some
                        && rule_index(rules@, 0, folder_hits@[m].matched_rule->0) is Some,
                forall|m: int|
                    0 <= m < n ==> ((#[trigger] folder_hits@[m]).size_bytes is Some
                        ==> folder_hits@[m].size_bytes->0 <= 0x400_0000_0000),
                forall|m: int| 0 <= m < n ==> (#[trigger] folder_hits@[m]).warnings@.len() <= 8,
                forall|m: int|
                    0 <= m < k ==> (#[trigger] nodes@[m]).id == PlanNodeId((m + 1) as u64),
                forall|m: int|
                    0 <= m < k ==> (#[trigger] nodes@[m]).conflicts@.len() <= 1
                        && nodes@[m].warnings@.len() <= 8 && nodes@[m].prior_conflicts@.len() == 0
                        && nodes@[m].children@.len() == 0 && nodes@[m].prior_kind is None,
                forall|m: int|
                    0 <= m < k ==> raw_bytes_contrib(#[trigger] nodes@[m]) <= 0x400_0000_0000,
                forall|m: int|
                    0 <= m < k ==> ((#[trigger] nodes@[m]).kind == OpKind::NoOp
                        ==> nodes@[m].path_after@ == nodes@[m].path_before@),
                forall|m: int|
                    0 <= m < k ==> ((#[trigger] nodes@[m]).kind == OpKind::NoOp || spec_executable(
                        nodes@[m].kind,
                    )),
                forall|m: int|
                    0 <= m < k && !spec_executable((#[trigger] nodes@[m]).kind)
                        ==> nodes@[m].conflicts@.len() == 0,
                forall|m: int|
                    0 <= m < k && spec_executable((#[trigger] nodes@[m]).kind) ==> name_taken(
                        self.conflict_resolver.existing_paths@,
                        nodes@[m].path_after@,
                    ),
                forall|m1: int, m2: int|
                    0 <= m1 < k && 0 <= m2 < k && m1 != m2 && spec_executable(
                        (#[trigger] nodes@[m1]).kind,
                    ) && spec_executable((#[trigger] nodes@[m2]).kind) && !has_ne(
                        nodes@[m1].conflicts@,
                    ) && !has_ne(nodes@[m2].conflicts@) ==> nodes@[m1].path_after@
                        != nodes@[m2].path_after@,
                options.default_conflict_policy is AutoRename ==> forall|m: int|
                    0 <= m < k ==> !has_ne((#[trigger] nodes@[m]).conflicts@),
                hits_have_rules(folder_hits@, rules@),
                forall|m: int|
                    0 <= m < n ==> spec_expand(
                        hit_rule(folder_hits@, rules@, m),
                        (#[trigger] folder_hits@[m]).path@,
                        date,
                    ) is Some,
                forall|m: int|
                    0 <= m < k ==> node_from_hit(
                        #[trigger] nodes@[m],
                        folder_hits@[perm@[m] as int],
                        rules@,
                        options.default_conflict_policy,
                        date,
                    ),
                perm@.no_duplicates(),
                seed0.len() == old(self).known_existing@.len(),
                forall|p: int|
                    0 <= p < seed0.len() ==> (#[trigger] seed0[p])@ == old(
                        self,
                    ).known_existing@[p]@,
                no_dest_collisions(folder_hits@, rules@, date, old(self).known_existing@)
                    ==> forall|p: int|
                    0 <= p < self.conflict_resolver.existing_paths@.len() ==> ((0 <= p
                        < seed0.len() && (#[trigger] self.conflict_resolver.existing_paths@[p])@
                        == seed0[p]@) || (exists|m: int|
                        0 <= m < k && self.conflict_resolver.existing_paths@[p]@ == spec_expand(
                            hit_rule(folder_hits@, rules@, (#[trigger] perm@[m]) as int),
                            folder_hits@[perm@[m] as int].path@,
                            date,
                        )->0)),
            decreases n - k,
        {
            let idx = perm[k];
            let h = &folder_hits[idx];
            let rid = match h.matched_rule {
                Some(x) => x,
                None => {
                    proof {
                        assert(false);
                    }
                    return Err(FileMoverError::PlanValidation {
                        message: "a folder hit names no rule".to_owned(),
                    });
                },
            };
            let ridx = match find_rule_index(rules, rid) {
                Some(x) => x,
                None => {
                    proof {
                        assert(false);
                    }
                    return Err(FileMoverError::PlanValidation {
                        message: "a folder hit names an unknown rule".to_owned(),
                    });
                },
            };
            proof {
                lemma_rule_index(rules@, 0, rid);
                assert(hit_rule(folder_hits@, rules@, idx as int) == rules@[ridx as int]);
            }
            let rule = &rules[ridx];
            let desired = match self.template_engine.expand_template(rule, h.path.as_str(), date) {
                Ok(d) => d,
                Err(e) => {
                    return Err(e);
                },
            };
            let kind = self.determine_operation_kind(h.path.as_str(), desired.as_str());
            let ghost desired_v = desired@;
            let ghost ex_before = self.conflict_resolver.existing_paths@;
            let ghost cs_before = self.conflict_resolver.auto_rename_counters@;
            let mut path_after = desired;
            let mut conflicts: Vec<Conflict> = Vec::new();
            proof {
                if no_dest_collisions(folder_hits@, rules@, date, old(self).known_existing@) {
                    assert(!name_taken(ex_before, desired_v)) by {
                        if name_taken(ex_before, desired_v) {
                            let p = choose|p: int|
                                0 <= p < ex_before.len() && ex_before[p]@ == desired_v;
                            assert(desired_v == spec_expand(
                                hit_rule(folder_hits@, rules@, idx as int),
                                folder_hits@[idx as int].path@,
                                date,
                            )->0);
                            if 0 <= p < seed0.len() && ex_before[p]@ == seed0[p]@ {
                                assert(old(self).known_existing@[p]@ == desired_v);
                                assert(false);
                            } else {
                                let m = choose|m: int|
                                    0 <= m < k && ex_before[p]@ == spec_expand(
                                        hit_rule(
                                            folder_hits@,
                                            rules@,
                                            (#[trigger] perm@[m]) as int,
                                        ),
                                        folder_hits@[perm@[m] as int].path@,
                                        date,
                                    )->0;
                                assert(perm@[m] != perm@[k as int]);
                                assert(false);
                            }
                        }
                    }
                }
            }
            if is_executable_kind(kind) {
                match self.conflict_resolver.resolve_conflicts(
                    path_after.as_str(),
                    options.default_conflict_policy,
                ) {
                    Ok(rr) => {
                        path_after = rr.0;
                        conflicts = rr.1;
                    },
                    Err(e) => {
                        proof {
                            if no_dest_collisions(
                                folder_hits@,
                                rules@,
                                date,
                                old(self).known_existing@,
                            ) {
                                assert(false);
                            }
                        }
                        return Err(e);
                    },
                }
                proof {
                    let exf = self.conflict_resolver.existing_paths@;
                    if name_taken(ex_before, desired_v)
                        && options.default_conflict_policy is AutoRename {
                        crate::resolver::lemma_free_candidate_is_free(
                            ex_before,
                            desired_v,
                            crate::resolver::counter_from(cs_before, 0, desired_v) as nat + 1,
                        );
                    }
                    assert(exf.len() == ex_before.len() + 1 && exf.drop_last() == ex_before
                        && exf.last()@ == path_after@);
                    assert(name_taken(exf, path_after@)) by {
                        assert(exf[exf.len() - 1]@ == path_after@);
                    }
                    assert forall|p: Seq<char>| name_taken(ex_before, p) implies name_taken(
                        exf,
                        p,
                    ) by {
                        let w = choose|w: int| 0 <= w < ex_before.len() && ex_before[w]@ == p;
                        assert(exf[w]@ == p);
                    }
                    if !has_ne(conflicts@) {
                        assert(!name_taken(ex_before, path_after@)) by {
                            if !(options.default_conflict_policy is AutoRename) {
                                if name_taken(ex_before, desired_v) {
                                    assert(is_ne_conflict(conflicts@[0]));
                                }
                            }
                        }
                    }
                    if conflicts@.len() > 0 && !(options.default_conflict_policy is AutoRename)
                        && name_taken(ex_before, desired_v) {
                        assert(is_ne_conflict(conflicts@[0]));
                        assert(has_ne(conflicts@));
                    }
                    if name_taken(ex_before, desired_v)
                        && options.default_conflict_policy is AutoRename {
                        let start = crate::resolver::counter_from(
                            cs_before,
                            0,
                            desired_v,
                        ) as nat;
                        crate::resolver::lemma_free_candidate_bound(
                            ex_before,
                            desired_v,
                            start + 1,
                        );
                        let kk = crate::resolver::free_candidate_from(
                            ex_before,
                            desired_v,
                            start + 1,
                        )->0;
                        assert(1 <= kk <= 9999 && path_after@ == crate::resolver::candidate_name(
                            desired_v,
                            kk,
                        ));
                    }
                    assert(path_after@ == desired_v || (
                    options.default_conflict_policy is AutoRename && exists|kk: nat|
                        1 <= kk <= 9999 && path_after@ == crate::resolver::candidate_name(
                            desired_v,
                            kk,
                        )));
                }
            }
            let name_after = last_segment(path_after.as_str());
            let node = PlanNode {
                id: PlanNodeId(k as u64 + 1),
                is_dir: true,
                name_before: h.name.clone(),
                path_before: h.path.clone(),
                name_after,
                path_after,
                kind,
                size_bytes: h.size_bytes,
                warnings: clone_warnings(&h.warnings),
                conflicts,
                children: Vec::new(),
                rule_id: h.matched_rule,
                prior_kind: None,
                prior_conflicts: Vec::new(),
            };
            let ghost nodes_before = nodes@;
            nodes.push(node);
            k = k + 1;
            proof {
                assert(forall|m: int| 0 <= m < k - 1 ==> nodes@[m] == nodes_before[m]);
                assert(rule_index(rules@, 0, folder_hits@[idx as int].matched_rule->0) == Some(
                    ridx as int,
                ));
                assert(node_from_hit(
                    nodes@[k - 1],
                    folder_hits@[perm@[k - 1] as int],
                    rules@,
                    options.default_conflict_policy,
                    date,
                ));
                if no_dest_collisions(folder_hits@, rules@, date, old(self).known_existing@) {
                    let exn = self.conflict_resolver.existing_paths@;
                    assert forall|p: int| 0 <= p < exn.len() implies ((0 <= p < seed0.len() && (
                    #[trigger] exn[p])@ == seed0[p]@) || (exists|m: int|
                        0 <= m < k && exn[p]@ == spec_expand(
                            hit_rule(folder_hits@, rules@, (#[trigger] perm@[m]) as int),
                            folder_hits@[perm@[m] as int].path@,
                            date,
                        )->0)) by {
                        if p < ex_before.len() {
                            if spec_executable(kind) {
                                assert(exn.drop_last()[p] == exn[p]);
                                assert(exn[p]@ == ex_before[p]@);
                            } else {
                                assert(exn[p]@ == ex_before[p]@);
                            }
                            if !(0 <= p < seed0.len() && ex_before[p]@ == seed0[p]@) {
                                let m = choose|m: int|
                                    0 <= m < k - 1 && ex_before[p]@ == spec_expand(
                                        hit_rule(
                                            folder_hits@,
                                            rules@,
                                            (#[trigger] perm@[m]) as int,
                                        ),
                                        folder_hits@[perm@[m] as int].path@,
                                        date,
                                    )->0;
                                assert(0 <= m < k);
                            }
                        } else {
                            assert(spec_executable(kind));
                            assert(exn[p]@ == desired_v);
                            assert(desired_v == spec_expand(
                                hit_rule(folder_hits@, rules@, (perm@[k - 1]) as int),
                                folder_hits@[perm@[k - 1] as int].path@,
                                date,
                            )->0);
                        }
                    }
                }
            }
        }
        // Structural validation: attach the whole-plan conflicts of each node.
        let ghost resolved = nodes@;
        let mut extra: Vec<Vec<Conflict>> = Vec::new();
        let mut i2: usize = 0;
        while i2 < n
            invariant
                i2 <= n,
                n == nodes@.len(),
                nodes@ == resolved,
                extra@.len() == i2,
                forall|m: int|
                    0 <= m < i2 ==> (#[trigger] extra@[m])@ == structural_conflicts(resolved, m),
            decreases n - i2,
        {
            let cs = node_structural_conflicts(&nodes, i2);
            extra.push(cs);
            i2 = i2 + 1;
        }
        let mut i3: usize = 0;
        while i3 < n
            invariant
                i3 <= n,
                n == nodes@.len(),
                n == resolved.len(),
                extra@.len() == n,
                forall|m: int|
                    0 <= m < n ==> (#[trigger] extra@[m])@ == structural_conflicts(resolved, m),
                forall|m: int| i3 <= m < n ==> nodes@[m] == resolved[m],
                forall|m: int|
                    0 <= m < i3 ==> {
                        let pre = resolved[m];
                        let post = #[trigger] nodes@[m];
                        &&& post.id == pre.id
                        &&& post.is_dir == pre.is_dir
                        &&& post.name_before@ == pre.name_before@
                        &&& post.path_before@ == pre.path_before@
                        &&& post.name_after@ == pre.name_after@
                        &&& post.path_after@ == pre.path_after@
                        &&& post.kind == pre.kind
                        &&& post.size_bytes == pre.size_bytes
                        &&& post.warnings@ == pre.warnings@
                        &&& post.children@ == pre.children@
                        &&& post.rule_id == pre.rule_id
                        &&& post.prior_kind == pre.prior_kind
                        &&& post.prior_conflicts@ == pre.prior_conflicts@
                        &&& post.conflicts@ == pre.conflicts@ + structural_conflicts(resolved, m)
                    },
            decreases n - i3,
        {
            let ghost before = nodes@;
            let mut cs = crate::validator::clone_conflicts(&extra[i3]);
            let node = nodes.remove(i3);
            let mut merged = node.conflicts;
            merged.append(&mut cs);
            let new_node = PlanNode { conflicts: merged, ..node };
            nodes.insert(i3, new_node);
            proof {
                assert(nodes@ =~= before.update(i3 as int, nodes@[i3 as int]));
            }
            i3 = i3 + 1;
        }
        proof {
            assert forall|m: int| 0 <= m < n implies #[trigger] structural_conflicts(
                resolved,
                m,
            ).len() <= 3 by {}
        }
        let ghost staged = nodes@;
        let mut par: Vec<usize> = Vec::new();
        let mut j5: usize = 0;
        while j5 < n
            invariant
                j5 <= n,
                n == nodes@.len(),
                nodes@ == staged,
                par@.len() == j5,
                forall|m: int|
                    0 <= m < j5 ==> (#[trigger] par@[m]) as int == (if spec_parent_idx(staged, m)
                        == -1 {
                        n as int
                    } else {
                        spec_parent_idx(staged, m)
                    }),
            decreases n - j5,
        {
            let mut best: usize = n;
            let mut i5: usize = 0;
            while i5 < n
                invariant
                    i5 <= n,
                    j5 < n,
                    n == nodes@.len(),
                    nodes@ == staged,
                    best <= n,
                    (best as int) == (if best_parent_upto(staged, j5 as int, i5 as int) == -1 {
                        n as int
                    } else {
                        best_parent_upto(staged, j5 as int, i5 as int)
                    }),
                decreases n - i5,
            {
                proof {
                    lemma_best_parent(staged, j5 as int, i5 as int);
                }
                let anc = i5 != j5 && path_starts_with(
                    nodes[j5].path_before.as_str(),
                    nodes[i5].path_before.as_str(),
                ) && !eq_str(nodes[i5].path_before.as_str(), nodes[j5].path_before.as_str());
                let deeper = best == n || nodes[i5].path_before.unicode_len()
                    > nodes[best].path_before.unicode_len();
                if anc && deeper {
                    best = i5;
                }
                i5 = i5 + 1;
            }
            par.push(best);
            j5 = j5 + 1;
        }
        let mut kid: Vec<Vec<PlanNodeId>> = Vec::new();
        let mut i6: usize = 0;
        while i6 < n
            invariant
                i6 <= n,
                kid@.len() == i6,
                forall|m: int|
                    0 <= m < i6 ==> (#[trigger] kid@[m])@ == Seq::<PlanNodeId>::empty(),
            decreases n - i6,
        {
            kid.push(Vec::new());
            i6 = i6 + 1;
        }
        let mut j6: usize = 0;
        while j6 < n
            invariant
                j6 <= n,
                n == nodes@.len(),
                nodes@ == staged,
                kid@.len() == n,
                par@.len() == n,
                forall|m: int|
                    0 <= m < n ==> (#[trigger] par@[m]) as int == (if spec_parent_idx(staged, m)
                        == -1 {
                        n as int
                    } else {
                        spec_parent_idx(staged, m)
                    }),
                forall|m: int|
                    0 <= m < n ==> (#[trigger] kid@[m])@ == children_upto(staged, m, j6 as int),
            decreases n - j6,
        {
            let p = par[j6];
            let ghost before = kid@;
            if p < n {
                let mut row = kid.remove(p);
                row.push(nodes[j6].id);
                kid.insert(p, row);
                proof {
                    assert(kid@ =~= before.update(p as int, kid@[p as int]));
                }
            }
            proof {
                assert forall|m: int| 0 <= m < n implies (#[trigger] kid@[m])@ == children_upto(
                    staged,
                    m,
                    (j6 + 1) as int,
                ) by {
                    if p < n && m == p as int {
                        assert(spec_parent_idx(staged, j6 as int) == m);
                        assert(children_upto(staged, m, (j6 + 1) as int) =~= before[m]@
                            + seq![staged[j6 as int].id]);
                        assert(kid@[m]@ =~= before[m]@ + seq![staged[j6 as int].id]);
                    } else {
                        assert(spec_parent_idx(staged, j6 as int) != m);
                        assert(children_upto(staged, m, (j6 + 1) as int) =~= children_upto(
                            staged,
                            m,
                            j6 as int,
                        ));
                        assert(kid@[m]@ == before[m]@);
                    }
                }
            }
            j6 = j6 + 1;
        }
        let ghost kidrows = kid@;
        let mut i7: usize = 0;
        while i7 < n
            invariant
                i7 <= n,
                n == nodes@.len(),
                staged.len() == n,
                kidrows.len() == n,
                kid@ == kidrows.skip(i7 as int),
                forall|m: int| i7 <= m < n ==> nodes@[m] == staged[m],
                forall|m: int|
                    0 <= m < i7 ==> {
                        let pre = staged[m];
                        let post = #[trigger] nodes@[m];
                        &&& post.id == pre.id
                        &&& post.is_dir == pre.is_dir
                        &&& post.name_before@ == pre.name_before@
                        &&& post.path_before@ == pre.path_before@
                        &&& post.name_after@ == pre.name_after@
                        &&& post.path_after@ == pre.path_after@
                        &&& post.kind == pre.kind
                        &&& post.size_bytes == pre.size_bytes
                        &&& post.warnings@ == pre.warnings@
                        &&& post.children@ == kidrows[m]@
                        &&& post.rule_id == pre.rule_id
                        &&& post.prior_kind == pre.prior_kind
                        &&& post.prior_conflicts@ == pre.prior_conflicts@
                        &&& post.conflicts@ == pre.conflicts@
                    },
            decreases n - i7,
        {
            let ghost before = nodes@;
            let row = kid.remove(0);
            let node = nodes.remove(i7);
            let new_node = PlanNode { children: row, ..node };
            nodes.insert(i7, new_node);
            proof {
                assert(nodes@ =~= before.update(i7 as int, nodes@[i7 as int]));
                assert(kid@ =~= kidrows.skip((i7 + 1) as int));
            }
            i7 = i7 + 1;
        }
        proof {
            assert forall|m: int| 0 <= m < n implies {
                let pre = resolved[m];
                let post = #[trigger] nodes@[m];
                &&& post.id == pre.id
                &&& post.is_dir == pre.is_dir
                &&& post.name_before@ == pre.name_before@
                &&& post.path_before@ == pre.path_before@
                &&& post.name_after@ == pre.name_after@
                &&& post.path_after@ == pre.path_after@
                &&& post.kind == pre.kind
                &&& post.size_bytes == pre.size_bytes
                &&& post.warnings@ == pre.warnings@
                &&& post.children@ == children_upto(staged, m, n as int)
                &&& post.rule_id == pre.rule_id
                &&& post.prior_kind == pre.prior_kind
                &&& post.prior_conflicts@ == pre.prior_conflicts@
                &&& post.conflicts@ == pre.conflicts@ + structural_conflicts(resolved, m)
            } by {}
        }
        let mut roots: Vec<PlanNodeId> = Vec::new();
        let mut i4: usize = 0;
        while i4 < n
            invariant
                i4 <= n,
                n == nodes@.len(),
                staged.len() == n,
                par@.len() == n,
                forall|m: int|
                    0 <= m < n ==> (#[trigger] par@[m]) as int == (if spec_parent_idx(staged, m)
                        == -1 {
                        n as int
                    } else {
                        spec_parent_idx(staged, m)
                    }),
                forall|m: int| 0 <= m < n ==> (#[trigger] nodes@[m]).id == staged[m].id,
                roots@ == roots_upto(staged, i4 as int),
            decreases n - i4,
        {
            if par[i4] == n {
                roots.push(nodes[i4].id);
            }
            proof {
                lemma_best_parent(staged, i4 as int, n as int);
                assert(par@[i4 as int] as int == (if spec_parent_idx(staged, i4 as int) == -1 {
                    n as int
                } else {
                    spec_parent_idx(staged, i4 as int)
                }));
                assert(nodes@[i4 as int].id == staged[i4 as int].id);
                assert(roots@ =~= roots_upto(staged, (i4 + 1) as int));
            }
            i4 = i4 + 1;
        }
        proof {
            assert forall|m: int| 0 <= m < n implies raw_bytes_contrib(#[trigger] nodes@[m])
                <= 0x400_0000_0000 by {
                assert(nodes@[m].size_bytes == resolved[m].size_bytes);
            }
            crate::plan::lemma_raw_bytes_small(nodes@, 0);
            assert(nodes_bounded(nodes@));
            assert forall|m: int| 0 <= m < n implies has_ne((#[trigger] nodes@[m]).conflicts@)
                == has_ne(resolved[m].conflicts@) by {
                lemma_has_ne_concat(resolved[m].conflicts@, structural_conflicts(resolved, m));
                lemma_structural_no_ne(resolved, m);
            }
            assert(ids_unique(nodes@));
            assert(inert_nodes_conflict_free(nodes@)) by {
                assert forall|m: int|
                    0 <= m < n && !spec_executable((#[trigger] nodes@[m]).kind) implies nodes@[m].conflicts@.len()
                    == 0 by {
                    assert(structural_conflicts(resolved, m) =~= Seq::<Conflict>::empty());
                }
            }
            assert forall|m: int| 0 <= m < n implies (#[trigger] nodes@[m]).path_before@
                == staged[m].path_before@ && nodes@[m].id == staged[m].id by {}
            assert forall|i: int| 0 <= i < n implies #[trigger] children_upto(nodes@, i, n as int)
                == children_upto(staged, i, n as int) by {
                lemma_children_congruent(nodes@, staged, i, n as int);
            }
            assert(plan_children_edges(nodes@));
            lemma_roots_congruent(nodes@, staged, n as int);
            assert(roots@ == roots_upto(nodes@, n as int));
            assert(children_ordered(nodes@)) by {
                assert forall|i: int, k: int|
                    0 <= i < nodes@.len() && 0 <= k < nodes@[i].children@.len() implies #[trigger] child_edge_ok(
                    nodes@,
                    i,
                    k,
                ) by {
                    assert(nodes@[i].children@ == children_upto(nodes@, i, n as int));
                    lemma_children_upto_elem(nodes@, i, n as int, k);
                    let t = choose|t: int|
                        0 <= t < n && #[trigger] spec_parent_idx(nodes@, t) == i && children_upto(
                            nodes@,
                            i,
                            n as int,
                        )[k] == nodes@[t].id;
                    lemma_best_parent(nodes@, t, n as int);
                    assert(is_ancestor_node(nodes@, i, t));
                    crate::validator::lemma_index_of_own_id(nodes@, 0, t);
                    assert(spec_path_starts_with(nodes@[t].path_before@, nodes@[i].path_before@));
                    if nodes@[t].path_before@.len() == nodes@[i].path_before@.len() {
                        assert(nodes@[t].path_before@.subrange(
                            0,
                            nodes@[i].path_before@.len() as int,
                        ) =~= nodes@[t].path_before@);
                        assert(false);
                    }
                    assert(nodes@[t].path_before@.len() > nodes@[i].path_before@.len());
                }
            }
            assert(dests_distinct(nodes@));
            assert(crate::validator::cycle_flagged(nodes@)) by {
                assert forall|m: int|
                    0 <= m < n && crate::validator::node_applicable(#[trigger] nodes@[m])
                        && crate::validator::dest_hits_a_source(
                        nodes@,
                        m,
                    ) implies nodes@[m].conflicts@.contains(Conflict::CycleDetected) by {
                    let j = choose|j: int|
                        0 <= j < nodes@.len() && j != m && spec_executable(
                            (#[trigger] nodes@[j]).kind,
                        ) && nodes@[j].path_before@ == nodes@[m].path_after@;
                    assert(crate::validator::dest_hits_a_source(resolved, m)) by {
                        assert(0 <= j < resolved.len() && j != m && spec_executable(
                            resolved[j].kind,
                        ) && resolved[j].path_before@ == resolved[m].path_after@);
                    }
                    let s = structural_conflicts(resolved, m);
                    assert(s[0] == Conflict::CycleDetected);
                    assert(nodes@[m].conflicts@[resolved[m].conflicts@.len() as int]
                        == Conflict::CycleDetected);
                }
            }
            assert(dest_inside_flagged(nodes@)) by {
                assert forall|m: int|
                    0 <= m < n && spec_executable((#[trigger] nodes@[m]).kind)
                        && nodes@[m].path_before@ != nodes@[m].path_after@ && spec_path_starts_with(
                        nodes@[m].path_after@,
                        nodes@[m].path_before@,
                    ) implies nodes@[m].conflicts@.contains(Conflict::DestInsideSource) by {
                    let s = structural_conflicts(resolved, m);
                    let cyc: int = if crate::validator::dest_hits_a_source(resolved, m) {
                        1
                    } else {
                        0
                    };
                    assert(s[cyc] == Conflict::DestInsideSource);
                    assert(nodes@[m].conflicts@[resolved[m].conflicts@.len() + cyc]
                        == Conflict::DestInsideSource);
                }
            }
            assert(noop_nodes_inert(nodes@));
            assert forall|m: int|
                0 <= m < n implies node_from_hit(
                #[trigger] nodes@[m],
                folder_hits@[perm@[m] as int],
                rules@,
                options.default_conflict_policy,
                date,
            ) by {
                assert(node_from_hit(
                    resolved[m],
                    folder_hits@[perm@[m] as int],
                    rules@,
                    options.default_conflict_policy,
                    date,
                ));
            }
            let pm = Seq::new(n as nat, |q: int| perm@[q] as int);
            assert(plan_orders_hits(
                nodes@,
                folder_hits@,
                rules@,
                options.default_conflict_policy,
                date,
                pm,
            )) by {
                assert forall|k1: int, k2: int|
                    0 <= k1 < pm.len() && 0 <= k2 < pm.len() && k1 != k2 implies #[trigger] pm[k1]
                    != #[trigger] pm[k2] by {
                    if k1 < k2 {
                        assert(perm@[k1] != perm@[k2]);
                    } else {
                        assert(perm@[k2] != perm@[k1]);
                    }
                }
                assert forall|x: int, y: int|
                    0 <= x < y < nodes@.len() implies hit_le(
                    hit_prio(folder_hits@, rules@, #[trigger] pm[x]),
                    folder_hits@[pm[x]],
                    hit_prio(folder_hits@, rules@, #[trigger] pm[y]),
                    folder_hits@[pm[y]],
                ) by {
                    assert(hit_le(
                        prio@[perm@[x] as int],
                        folder_hits@[perm@[x] as int],
                        prio@[perm@[y] as int],
                        folder_hits@[perm@[y] as int],
                    ));
                }
            }
        }
        let summary = compute_summary(&nodes);
        Ok(MovePlan { roots, nodes, summary })
    }

    /// Generates a plan at the current UTC date. The clock is read once and
    /// threaded through every template expansion, so the date variables are
    /// stable across the whole plan.
    pub fn create_plan(
        &mut self,
        folder_hits: &Vec<FolderHit>,
        rules: &Vec<Rule>,
        options: PlanOptions,
    ) -> (r: Result<MovePlan, FileMoverError>)
        requires
            folder_hits@.len() <= 0x100000,
            forall|i: int|
                0 <= i < folder_hits@.len() ==> ((#[trigger] folder_hits@[i]).size_bytes is Some
                    ==> folder_hits@[i].size_bytes->0 <= 0x400_0000_0000),
            forall|i: int| 0 <= i < folder_hits@.len() ==> (#[trigger] folder_hits@[i]).warnings@.len() <= 8,
        ensures
            r is Err ==> (r->Err_0 is PlanValidation || r->Err_0 is Config),
            !hits_have_rules(folder_hits@, rules@) ==> r is Err && r->Err_0 is PlanValidation,
            r is Ok ==> plan_invariants(r->Ok_0),
            r is Ok ==> r->Ok_0.nodes@.len() == folder_hits@.len(),
            r is Ok ==> exists|d: PlanDate, pm: Seq<int>|
                d.valid() && plan_orders_hits(
                    r->Ok_0.nodes@,
                    folder_hits@,
                    rules@,
                    options.default_conflict_policy,
                    d,
                    pm,
                ),
            hits_have_rules(folder_hits@, rules@) && (forall|d: PlanDate|
                d.valid() ==> #[trigger] templates_expand(folder_hits@, rules@, d)) && !(
            options.default_conflict_policy is AutoRename) ==> r is Ok,
            hits_have_rules(folder_hits@, rules@) && (forall|d: PlanDate|
                d.valid() ==> #[trigger] templates_expand(folder_hits@, rules@, d)
                    && no_dest_collisions(folder_hits@, rules@, d, old(self).known_existing@))
                ==> r is Ok,
            r is Ok ==> r->Ok_0.roots@ == roots_upto(
                r->Ok_0.nodes@,
                r->Ok_0.nodes@.len() as int,
            ),
            r is Ok ==> plan_children_edges(r->Ok_0.nodes@),
            r is Ok ==> crate::validator::cycle_flagged(r->Ok_0.nodes@),
            r is Ok && options.default_conflict_policy is AutoRename ==> forall|k: int|
                0 <= k < r->Ok_0.nodes@.len() ==> !has_ne(
                    (#[trigger] r->Ok_0.nodes@[k]).conflicts@,
                ),
    {
        let date = PlanDate::now();
        let result = self.create_plan_at(folder_hits, rules, options, date);
        proof {
            assert(date.valid());
            assert(templates_expand(folder_hits@, rules@, date) || !templates_expand(
                folder_hits@,
                rules@,
                date,
            ));
            if result is Ok {
                let pm = choose|pm: Seq<int>|
                    plan_orders_hits(
                        result->Ok_0.nodes@,
                        folder_hits@,
                        rules@,
                        options.default_conflict_policy,
                        date,
                        pm,
                    );
                assert(date.valid() && plan_orders_hits(
                    result->Ok_0.nodes@,
                    folder_hits@,
                    rules@,
                    options.default_conflict_policy,
                    date,
                    pm,
                ));
            }
        }
        result
    }

    /// Applies one user edit through the validator and recomputes the
    /// summary, so that it equals the reduction over the executable nodes at
    /// every observation point.
    pub fn update_plan_with_change(&mut self, plan: &mut MovePlan, change: NodeChange) -> (r:
        Result<ValidationDelta, FileMoverError>)
        requires
            nodes_bounded(old(plan).nodes@),
            summary_in_range(old(plan).summary),
        ensures
            nodes_bounded(final(plan).nodes@),
            summary_matches(final(plan).nodes@, final(plan).summary),
            final(plan).roots@ == old(plan).roots@,
            final(self).known_existing@ == old(self).known_existing@,
            match change {
                NodeChange::SetSkip(id, skip) => crate::validator::skip_edit_post(
                    old(plan).nodes@,
                    final(plan).nodes@,
                    old(self).conflict_resolver,
                    final(self).conflict_resolver,
                    old(plan).summary,
                    r,
                    id,
                    skip,
                ),
                NodeChange::SetConflictPolicy(id, policy) => crate::validator::policy_edit_post(
                    old(plan).nodes@,
                    final(plan).nodes@,
                    old(self).conflict_resolver,
                    final(self).conflict_resolver,
                    old(plan).summary,
                    r,
                    id,
                    policy,
                ),
                NodeChange::RenameNode(id, name) => crate::validator::rename_edit_post(
                    old(plan).nodes@,
                    final(plan).nodes@,
                    old(self).conflict_resolver,
                    final(self).conflict_resolver,
                    old(plan).summary,
                    r,
                    id,
                    name@,
                ),
                NodeChange::ExcludeNode(id) => crate::validator::exclude_edit_post(
                    old(plan).nodes@,
                    final(plan).nodes@,
                    old(self).conflict_resolver,
                    final(self).conflict_resolver,
                    old(plan).summary,
                    r,
                    id,
                ),
            },
    {
        let result = self.validator.validate_incremental_change(
            plan,
            &mut self.conflict_resolver,
            change,
        );
        plan.summary = compute_summary(&plan.nodes);
        result
    }

    /// Counts the outcome of running the plan: executable nodes without
    /// conflicts succeed, executable nodes with conflicts remain blocked,
    /// and the rest are skipped. The duration estimate is two seconds per
    /// counted directory.
    pub fn simulate_plan(&self, plan: &MovePlan) -> (r: Result<SimulationReport, FileMoverError>)
        requires
            summary_in_range(plan.summary),
        ensures
            r is Ok,
            r->Ok_0.success_estimate as int == count_success_from(plan.nodes@, 0),
            r->Ok_0.conflicts_remaining as int == count_conflicted_from(plan.nodes@, 0),
            r->Ok_0.skipped_count as int == count_skipped_from(plan.nodes@, 0),
            r->Ok_0.estimated_duration_secs == plan.summary.count_dirs * 2,
    {
        let n = plan.nodes.len();
        let mut success: u64 = 0;
        let mut conflicted: u64 = 0;
        let mut skipped: u64 = 0;
        let mut i: usize = 0;
        proof {
            lemma_count_bounds(plan.nodes@, 0);
        }
        while i < n
            invariant
                i <= n,
                n == plan.nodes@.len(),
                success + count_success_from(plan.nodes@, i as int) == count_success_from(
                    plan.nodes@,
                    0,
                ),
                conflicted + count_conflicted_from(plan.nodes@, i as int) == count_conflicted_from(
                    plan.nodes@,
                    0,
                ),
                skipped + count_skipped_from(plan.nodes@, i as int) == count_skipped_from(
                    plan.nodes@,
                    0,
                ),
                success <= i,
                conflicted <= i,
                skipped <= i,
            decreases n - i,
        {
            proof {
                lemma_count_bounds(plan.nodes@, i + 1);
            }
            let node = &plan.nodes[i];
            if is_executable_kind(node.kind) {
                if node.conflicts.len() == 0 {
                    success = success + 1;
                } else {
                    conflicted = conflicted + 1;
                }
            } else {
                skipped = skipped + 1;
            }
            i = i + 1;
        }
        Ok(SimulationReport {
            success_estimate: success,
            conflicts_remaining: conflicted,
            skipped_count: skipped,
            estimated_duration_secs: plan.summary.count_dirs * 2,
        })
    }
}

impl Default for MovePlanner {
    fn default() -> Self {
        Self::new()
    }
}




/// Law: a hit whose template expands to its own source path becomes an
/// inert node of the plan — kind `NoOp`, no conflicts, and zero
/// contribution to every summary field — in any plan whose nodes were
/// created from the hits and whose inert nodes carry no conflicts, as
/// `create_plan` guarantees of every plan it returns.
pub proof fn lemma_noop_hit_inert(
    nodes: Seq<PlanNode>,
    hits: Seq<FolderHit>,
    rules: Seq<Rule>,
    policy: ConflictPolicy,
    d: PlanDate,
    pm: Seq<int>,
    k: int,
)
    requires
        plan_orders_hits(nodes, hits, rules, policy, d, pm),
        inert_nodes_conflict_free(nodes),
        0 <= k < nodes.len(),
        spec_expand(hit_rule(hits, rules, pm[k]), hits[pm[k]].path@, d) == Some(
            hits[pm[k]].path@,
        ),
    ensures
        nodes[k].kind == OpKind::NoOp,
        nodes[k].conflicts@.len() == 0,
        crate::plan::dir_contrib(nodes[k]) == 0,
        crate::plan::file_contrib(nodes[k]) == 0,
        !crate::plan::has_bytes(nodes[k]),
        crate::plan::bytes_contrib(nodes[k]) == 0,
        crate::plan::cross_contrib(nodes[k]) == 0,
        crate::plan::conflicts_contrib(nodes[k]) == 0,
        crate::plan::warnings_contrib(nodes[k]) == 0,
{
    assert(node_from_hit(nodes[k], hits[pm[k]], rules, policy, d));
    assert(nodes[k].kind == spec_op_kind(hits[pm[k]].path@, hits[pm[k]].path@));
    assert(!spec_executable(nodes[k].kind));
}

} // verus!
