//! `glctl lineage`: the nodes and edges of the lineage, or of the parent
//! chain of one generation.

use vstd::prelude::*;
use crate::commands::fsck::has_id;
use crate::error::{CliError, CliResult};
use crate::models::generation::{clone_opt_string, clone_strings, opt_view};
use crate::models::{Generation, Relation, Score};
use crate::order::{is_stable_order, lemma_distinct_positions_bounded, order_keys, stable_order};
use crate::text::{
    bool_text, bool_to_string, concat, decimal, pad_right, push_padded_right, push_str, string_of,
    usize_to_string,
};
use crate::time::{rfc3339_text, Timestamp};

verus! {

/// Options of `glctl lineage`.
#[derive(Debug, Clone, PartialEq, Eq)]
pub struct LineageArgs {
    /// Print JSON instead of text.
    pub json: bool,
    /// Only the chain from this generation up to its root.
    pub from: Option<String>,
}

/// A generation as a node of the lineage.
#[derive(Debug, Clone, PartialEq, Eq)]
pub struct LineageNode {
    pub id: String,
    pub parent_id: Option<String>,
    pub soul: String,
    pub score: Score,
    pub success: bool,
    pub created_at: String,
    pub tags: Vec<String>,
}

/// A relation as an edge of the lineage.
#[derive(Debug, Clone, PartialEq, Eq)]
pub struct LineageEdge {
    pub from: String,
    pub to: String,
    pub relation_type: String,
    pub created_at: String,
}

/// The lineage: its nodes and the edges between them.
#[derive(Debug, Clone, PartialEq, Eq)]
pub struct LineageOutput {
    pub nodes: Vec<LineageNode>,
    pub edges: Vec<LineageEdge>,
}

/// The creation instants of the generations, in order.
pub open spec fn created_ats(all: Seq<Generation>) -> Seq<Timestamp> {
    Seq::new(all.len(), |i: int| all[i].created_at)
}

/// The creation instants of a list of generations.
pub fn creation_instants(all: &Vec<Generation>) -> (ts: Vec<Timestamp>)
    ensures
        ts@ == created_ats(all@),
{
    let mut ts: Vec<Timestamp> = Vec::new();
    for i in 0..all.len()
        invariant
            ts@ == created_ats(all@).take(i as int),
    {
        ts.push(all[i].created_at);
        proof {
            assert(created_ats(all@).take(i + 1) =~= created_ats(all@).take(i as int).push(
                all@[i as int].created_at,
            ));
        }
    }
    proof {
        assert(created_ats(all@).take(all.len() as int) =~= created_ats(all@));
    }
    ts
}

/// `n` shows generation `g`.
pub open spec fn node_shows(n: LineageNode, g: Generation) -> bool {
    &&& n.id@ == g.id@
    &&& opt_view(n.parent_id) == opt_view(g.parent_id)
    &&& n.soul@ == g.soul@
    &&& n.score == g.metrics.score
    &&& n.success == g.metrics.success
    &&& n.created_at@ == rfc3339_text(g.created_at.spec_secs(), g.created_at.spec_nanos())
    &&& n.tags@ == g.tags@
}

/// The node of generation `g`.
pub fn node_of(g: &Generation) -> (n: LineageNode)
    ensures
        node_shows(n, *g),
{
    LineageNode {
        id: g.id.clone(),
        parent_id: clone_opt_string(&g.parent_id),
        soul: g.soul.clone(),
        score: g.metrics.score.duplicate(),
        success: g.metrics.success,
        created_at: g.created_at.to_rfc3339(),
        tags: clone_strings(&g.tags),
    }
}

/// `e` shows relation `r`.
pub open spec fn edge_shows(e: LineageEdge, r: Relation) -> bool {
    &&& e.from@ == r.from@
    &&& e.to@ == r.to@
    &&& e.relation_type@ == r.relation_type.spec_name()
    &&& e.created_at@ == rfc3339_text(r.created_at.spec_secs(), r.created_at.spec_nanos())
}

/// The edge of relation `r`.
pub fn edge_of(r: &Relation) -> (e: LineageEdge)
    ensures
        edge_shows(e, *r),
{
    LineageEdge {
        from: r.from.clone(),
        to: r.to.clone(),
        relation_type: r.relation_type.name(),
        created_at: r.created_at.to_rfc3339(),
    }
}

/// Position `k` holds the last generation of `all` with the id `id`: the
/// one that a map from ids to generations, filled in order, keeps.
pub open spec fn is_last_with_id(all: Seq<Generation>, k: int, id: Seq<char>) -> bool {
    &&& 0 <= k < all.len()
    &&& all[k].id@ == id
    &&& forall|j: int| k < j < all.len() ==> (#[trigger] all[j]).id@ != id
}

/// Some position of the chain `c` holds a generation with the id `id`.
pub open spec fn chain_has_id(all: Seq<Generation>, c: Seq<usize>, id: Seq<char>) -> bool {
    exists|t: int| 0 <= t < c.len() && all[(#[trigger] c[t]) as int].id@ == id
}

/// `c` is the parent chain from `leaf`: it starts at the generation with
/// id `leaf`, each next entry is the generation named by the parent of the
/// one before, no id occurs twice, and it stops at a generation without a
/// parent, at a parent that no generation has, or at a parent already in
/// the chain.
pub open spec fn is_parent_chain(all: Seq<Generation>, leaf: Seq<char>, c: Seq<usize>) -> bool {
    &&& c.len() >= 1
    &&& is_last_with_id(all, c[0] as int, leaf)
    &&& forall|t: int|
        0 <= t < c.len() - 1 ==> (#[trigger] all[c[t] as int]).parent_id is Some && is_last_with_id(
            all,
            c[t + 1] as int,
            all[c[t] as int].parent_id->0@,
        )
    &&& forall|a: int, b: int| 0 <= a < b < c.len() ==> all[c[a] as int].id@ != all[c[b] as int].id@
    &&& match all[c.last() as int].parent_id {
        None => true,
        Some(p) => !has_id(all, p@) || chain_has_id(all, c, p@),
    }
}

/// The id that the chain `c` from `leaf` looks up next.
pub open spec fn next_in_chain(all: Seq<Generation>, leaf: Seq<char>, c: Seq<usize>) -> Option<Seq<char>> {
    if c.len() == 0 {
        Some(leaf)
    } else {
        opt_view(all[c.last() as int].parent_id)
    }
}

/// The position of the last generation with the id `id`, if any.
pub fn last_with_id(all: &Vec<Generation>, id: &String) -> (r: Option<usize>)
    ensures
        r matches Some(k) ==> is_last_with_id(all@, k as int, id@),
        r is None ==> !has_id(all@, id@),
{
    let mut k = all.len();
    while k > 0
        invariant
            k <= all.len(),
            forall|j: int| k <= j < all.len() ==> (#[trigger] all@[j]).id@ != id@,
        decreases k,
    {
        k = k - 1;
        if all[k].id == *id {
            return Some(k);
        }
    }
    None
}

/// Whether a generation of the chain `c` has the id `id`.
fn chain_contains(all: &Vec<Generation>, c: &Vec<usize>, id: &String) -> (r: bool)
    requires
        forall|t: int| 0 <= t < c.len() ==> (#[trigger] c[t]) < all.len(),
    ensures
        r == chain_has_id(all@, c@, id@),
{
    for t in 0..c.len()
        invariant
            forall|s: int| 0 <= s < c.len() ==> (#[trigger] c[s]) < all.len(),
            forall|s: int| 0 <= s < t ==> all@[(#[trigger] c@[s]) as int].id@ != id@,
    {
        if all[c[t]].id == *id {
            return true;
        }
    }
    false
}

/// The parent chain from the generation with id `leaf`, which exists.
pub fn parent_chain(all: &Vec<Generation>, leaf: &String) -> (c: Vec<usize>)
    requires
        has_id(all@, leaf@),
    ensures
        is_parent_chain(all@, leaf@, c@),
        forall|t: int| 0 <= t < c.len() ==> (#[trigger] c[t]) < all.len(),
{
    let mut c: Vec<usize> = Vec::new();
    let mut cursor: Option<String> = Some(leaf.clone());
    loop
        invariant_except_break
            opt_view(cursor) == next_in_chain(all@, leaf@, c@),
        invariant
            has_id(all@, leaf@),
            c.len() <= all.len(),
            forall|t: int| 0 <= t < c.len() ==> (#[trigger] c[t]) < all.len(),
            c.len() >= 1 ==> is_last_with_id(all@, c[0] as int, leaf@),
            forall|t: int|
                0 <= t < c.len() - 1 ==> (#[trigger] all@[c[t] as int]).parent_id is Some
                    && is_last_with_id(all@, c[t + 1] as int, all@[c[t] as int].parent_id->0@),
            forall|a: int, b: int|
                0 <= a < b < c.len() ==> all@[c[a] as int].id@ != all@[c[b] as int].id@,
        ensures
            is_parent_chain(all@, leaf@, c@),
        decreases all.len() - c.len(),
    {
        let id = match cursor {
            None => {
                break;
            },
            Some(id) => id,
        };
        if chain_contains(all, &c, &id) {
            break;
        }
        match last_with_id(all, &id) {
            None => {
                break;
            },
            Some(k) => {
                let ghost old_c = c@;
                c.push(k);
                proof {
                    assert forall|a: int, b: int| 0 <= a < b < c.len() implies all@[c[a] as int].id@
                        != all@[c[b] as int].id@ by {
                        if b == c.len() - 1 {
                            if all@[c[a] as int].id@ == id@ {
                                assert(chain_has_id(all@, old_c, id@));
                            }
                        }
                    }
                    assert forall|a: int, b: int| 0 <= a < b < c.len() implies c[a] != c[b] by {
                        assert(all@[c[a] as int].id@ != all@[c[b] as int].id@);
                    }
                    lemma_distinct_positions_bounded(c@, all.len() as int);
                }
                cursor = clone_opt_string(&all[k].parent_id);
            },
        }
    }
    c
}

/// Some node among the positions `p` has the id `id`.
pub open spec fn among_nodes(all: Seq<Generation>, p: Seq<usize>, id: Seq<char>) -> bool {
    exists|t: int| 0 <= t < p.len() && all[(#[trigger] p[t]) as int].id@ == id
}

/// The relations among the first `n` whose two endpoints are both nodes.
pub open spec fn edges_among(all: Seq<Generation>, p: Seq<usize>, rels: Seq<Relation>, n: int) -> Seq<
    Relation,
>
    decreases n,
{
    if n <= 0 || n > rels.len() {
        seq![]
    } else {
        let r = rels[n - 1];
        edges_among(all, p, rels, n - 1) + if among_nodes(all, p, r.from@) && among_nodes(
            all,
            p,
            r.to@,
        ) {
            seq![r]
        } else {
            seq![]
        }
    }
}

/// The lineage shows the generations at positions `p`, in that order, and
/// the relations between them, in their own order.
pub open spec fn shows_lineage(
    out: LineageOutput,
    all: Seq<Generation>,
    rels: Seq<Relation>,
    p: Seq<usize>,
) -> bool {
    let es = edges_among(all, p, rels, rels.len() as int);
    &&& out.nodes@.len() == p.len()
    &&& forall|t: int| 0 <= t < p.len() ==> node_shows(#[trigger] out.nodes@[t], all[p[t] as int])
    &&& out.edges@.len() == es.len()
    &&& forall|t: int| 0 <= t < es.len() ==> edge_shows(#[trigger] out.edges@[t], es[t])
}

/// The message when the repository holds no generation.
pub open spec fn no_generations_message() -> Seq<char> {
    "no generations found"@
}

/// Whether a node among positions `p` has the id `id`.
fn nodes_contain(all: &Vec<Generation>, p: &Vec<usize>, id: &String) -> (r: bool)
    requires
        forall|t: int| 0 <= t < p.len() ==> (#[trigger] p[t]) < all.len(),
    ensures
        r == among_nodes(all@, p@, id@),
{
    for t in 0..p.len()
        invariant
            forall|s: int| 0 <= s < p.len() ==> (#[trigger] p[s]) < all.len(),
            forall|s: int| 0 <= s < t ==> all@[(#[trigger] p@[s]) as int].id@ != id@,
    {
        if all[p[t]].id == *id {
            return true;
        }
    }
    false
}

/// The lineage of the generations at positions `p`.
fn build_lineage(all: &Vec<Generation>, rels: &Vec<Relation>, p: &Vec<usize>) -> (out: LineageOutput)
    requires
        forall|t: int| 0 <= t < p.len() ==> (#[trigger] p[t]) < all.len(),
    ensures
        shows_lineage(out, all@, rels@, p@),
{
    let mut nodes: Vec<LineageNode> = Vec::new();
    for t in 0..p.len()
        invariant
            forall|s: int| 0 <= s < p.len() ==> (#[trigger] p[s]) < all.len(),
            nodes.len() == t,
            forall|s: int| 0 <= s < t ==> node_shows(#[trigger] nodes@[s], all@[p@[s] as int]),
    {
        nodes.push(node_of(&all[p[t]]));
    }
    let mut edges: Vec<LineageEdge> = Vec::new();
    let ghost chosen: Seq<Relation> = seq![];
    for i in 0..rels.len()
        invariant
            forall|s: int| 0 <= s < p.len() ==> (#[trigger] p[s]) < all.len(),
            chosen == edges_among(all@, p@, rels@, i as int),
            edges.len() == chosen.len(),
            forall|s: int| 0 <= s < chosen.len() ==> edge_shows(#[trigger] edges@[s], chosen[s]),
    {
        let r = &rels[i];
        if nodes_contain(all, p, &r.from) && nodes_contain(all, p, &r.to) {
            edges.push(edge_of(r));
            proof {
                chosen = chosen.push(*r);
            }
        }
        proof {
            assert(edges_among(all@, p@, rels@, i + 1) =~= chosen);
        }
    }
    LineageOutput { nodes, edges }
}

/// The lineage of a repository: with no `from`, every generation in
/// ascending order of creation (stable for equal instants); with `from`,
/// the parent chain from that generation. Edges are the relations whose
/// two endpoints are nodes.
pub fn lineage_view(all: &Vec<Generation>, rels: &Vec<Relation>, args: &LineageArgs) -> (r: CliResult<LineageOutput>)
    ensures
        all@.len() == 0 ==> (r matches Err(CliError::NoData(m)) && m@ == no_generations_message()),
        all@.len() > 0 && args.from is Some && !has_id(all@, args.from->0@) ==> (r matches Err(
            CliError::NoData(m),
        ) && m@ == "generation '"@ + args.from->0@ + "' not found"@),
        all@.len() > 0 && args.from is None ==> (r matches Ok(out) && exists|p: Seq<usize>|
            is_stable_order(order_keys(created_ats(all@), false), p) && shows_lineage(out, all@, rels@, p)),
        all@.len() > 0 && args.from is Some && has_id(all@, args.from->0@) ==> (r matches Ok(out)
            && exists|p: Seq<usize>|
            is_parent_chain(all@, args.from->0@, p) && shows_lineage(out, all@, rels@, p)),
{
    if all.len() == 0 {
        return Err(CliError::NoData("no generations found".to_string()));
    }
    match &args.from {
        Some(leaf) => {
            if last_with_id(all, leaf).is_none() {
                return Err(
                    CliError::NoData(concat(&concat("generation '", leaf), "' not found")),
                );
            }
            let c = parent_chain(all, leaf);
            let out = build_lineage(all, rels, &c);
            let r = Ok(out);
            proof {
                assert(is_parent_chain(all@, args.from->0@, c@) && shows_lineage(out, all@, rels@, c@));
                assert(r matches Ok(o) && o == out);
                assert(exists|p: Seq<usize>| is_parent_chain(all@, args.from->0@, p) && shows_lineage(out, all@, rels@, p));
            }
            r
        },
        None => {
            let ts = creation_instants(all);
            let p = stable_order(&ts, false);
            proof {
                assert forall|t: int| 0 <= t < p.len() implies (#[trigger] p[t]) < all.len() by {
                    assert(p@[t] < order_keys(ts@, false).len());
                }
            }
            let out = build_lineage(all, rels, &p);
            Ok(out)
        },
    }
}

/// The text line of a node.
pub open spec fn node_text(n: LineageNode) -> Seq<char> {
    let parent = match n.parent_id {
        Some(p) => p@,
        None => "(seed)"@,
    };
    "  "@ + pad_right(n.id@, 22) + " parent="@ + pad_right(parent, 22) + " score="@
        + n.score.text_2dp@ + " success="@ + bool_text(n.success) + " soul="@ + n.soul@ + "\n"@
}

/// The text line of an edge.
pub open spec fn edge_text(e: LineageEdge) -> Seq<char> {
    "  "@ + e.from@ + " --"@ + e.relation_type@ + "--> "@ + e.to@ + "\n"@
}

/// The node lines of the first `k` nodes.
pub open spec fn nodes_text(ns: Seq<LineageNode>, k: int) -> Seq<char>
    decreases k,
{
    if k <= 0 || k > ns.len() {
        seq![]
    } else {
        nodes_text(ns, k - 1) + node_text(ns[k - 1])
    }
}

/// The edge lines of the first `k` edges.
pub open spec fn edges_text(es: Seq<LineageEdge>, k: int) -> Seq<char>
    decreases k,
{
    if k <= 0 || k > es.len() {
        seq![]
    } else {
        edges_text(es, k - 1) + edge_text(es[k - 1])
    }
}

/// The text form of a lineage: a heading with the counts, the nodes and
/// the edges.
pub open spec fn spec_lineage_text(out: LineageOutput) -> Seq<char> {
    "Lineage ("@ + decimal(out.nodes@.len()) + " nodes, "@ + decimal(out.edges@.len()) + " edges)\n\nNodes:\n"@
        + nodes_text(out.nodes@, out.nodes@.len() as int) + "\nEdges:\n"@ + edges_text(
        out.edges@,
        out.edges@.len() as int,
    )
}

/// Appends the text line of a node.
fn push_node_line(v: &mut Vec<char>, n: &LineageNode)
    ensures
        final(v)@ == old(v)@ + node_text(*n),
{
    let ghost start = v@;
    push_str(v, "  ");
    push_padded_right(v, &n.id, 22);
    push_str(v, " parent=");
    match &n.parent_id {
        Some(p) => push_padded_right(v, p, 22),
        None => push_padded_right(v, "(seed)", 22),
    }
    push_str(v, " score=");
    push_str(v, &n.score.text_2dp);
    push_str(v, " success=");
    push_str(v, &bool_to_string(n.success));
    push_str(v, " soul=");
    push_str(v, &n.soul);
    push_str(v, "\n");
    proof {
        assert(v@ =~= start + node_text(*n));
    }
}

/// The text that `glctl lineage` prints without `--json`.
pub fn lineage_text(out: &LineageOutput) -> (t: String)
    ensures
        t@ == spec_lineage_text(*out),
        forall|k: int|
            #![trigger out.nodes@[k]]
            0 <= k < out.nodes@.len() ==> ({
                let ns = out.nodes@;
                let heading = "Lineage ("@ + decimal(ns.len()) + " nodes, "@ + decimal(out.edges@.len())
                    + " edges)\n\nNodes:\n"@;
                let start: int = heading.len() as int + nodes_text(ns, k).len();
                let w = "  "@ + pad_right(ns[k].id@, 22) + " parent="@ + pad_right(
                    match ns[k].parent_id {
                        Some(p) => p@,
                        None => "(seed)"@,
                    },
                    22,
                );
                t@.subrange(start, start + w.len() as int) == w
            }),
{
    let mut v: Vec<char> = Vec::new();
    push_str(&mut v, "Lineage (");
    push_str(&mut v, &usize_to_string(out.nodes.len()));
    push_str(&mut v, " nodes, ");
    push_str(&mut v, &usize_to_string(out.edges.len()));
    push_str(&mut v, " edges)\n\nNodes:\n");
    let ghost head = v@;
    for i in 0..out.nodes.len()
        invariant
            v@ == head + nodes_text(out.nodes@, i as int),
    {
        push_node_line(&mut v, &out.nodes[i]);
        proof {
            assert(v@ =~= head + nodes_text(out.nodes@, i + 1));
        }
    }
    push_str(&mut v, "\nEdges:\n");
    let ghost mid = v@;
    for i in 0..out.edges.len()
        invariant
            v@ == mid + edges_text(out.edges@, i as int),
    {
        let e = &out.edges[i];
        push_str(&mut v, "  ");
        push_str(&mut v, &e.from);
        push_str(&mut v, " --");
        push_str(&mut v, &e.relation_type);
        push_str(&mut v, "--> ");
        push_str(&mut v, &e.to);
        push_str(&mut v, "\n");
        proof {
            assert(v@ =~= mid + edges_text(out.edges@, i + 1));
        }
    }
    proof {
        assert(v@ =~= spec_lineage_text(*out));
        assert forall|k: int|
            #![trigger out.nodes@[k]]
            0 <= k < out.nodes@.len() implies ({
                let ns = out.nodes@;
                let heading = "Lineage ("@ + decimal(ns.len()) + " nodes, "@ + decimal(out.edges@.len())
                    + " edges)\n\nNodes:\n"@;
                let start: int = heading.len() as int + nodes_text(ns, k).len();
                let w = "  "@ + pad_right(ns[k].id@, 22) + " parent="@ + pad_right(
                    match ns[k].parent_id {
                        Some(p) => p@,
                        None => "(seed)"@,
                    },
                    22,
                );
                v@.subrange(start, start + w.len() as int) == w
            }) by {
            law_lineage_lines_show_id_and_parent(*out, k);
        }
    }
    string_of(v.as_slice())
}

/// The lines of the first `t` nodes are a prefix of the lines of the first
/// `n`, for `t <= n`.
proof fn lemma_nodes_prefix(ns: Seq<LineageNode>, t: int, n: int)
    requires
        0 <= t <= n <= ns.len(),
    ensures
        nodes_text(ns, t).len() <= nodes_text(ns, n).len(),
        nodes_text(ns, n).take(nodes_text(ns, t).len() as int) == nodes_text(ns, t),
    decreases n,
{
    if t < n {
        lemma_nodes_prefix(ns, t, n - 1);
        let a = nodes_text(ns, n - 1);
        let b = nodes_text(ns, t);
        assert(nodes_text(ns, n) == a + node_text(ns[n - 1]));
        assert((a + node_text(ns[n - 1])).take(b.len() as int) =~= a.take(b.len() as int));
    } else {
        assert(nodes_text(ns, n).take(nodes_text(ns, n).len() as int) =~= nodes_text(ns, n));
    }
}

/// In the text form of a lineage, the line of node `t` (which begins after
/// the heading and the lines of the nodes before it) starts with two
/// spaces, the node's id padded to 22, ` parent=` and its parent id padded
/// to 22, or `(seed)` for a node without a parent.
pub proof fn law_lineage_lines_show_id_and_parent(out: LineageOutput, t: int)
    requires
        0 <= t < out.nodes@.len(),
    ensures
        ({
            let ns = out.nodes@;
            let text = spec_lineage_text(out);
            let heading = "Lineage ("@ + decimal(ns.len()) + " nodes, "@ + decimal(out.edges@.len())
                + " edges)\n\nNodes:\n"@;
            let start: int = heading.len() as int + nodes_text(ns, t).len();
            let w = "  "@ + pad_right(ns[t].id@, 22) + " parent="@ + pad_right(
                match ns[t].parent_id {
                    Some(p) => p@,
                    None => "(seed)"@,
                },
                22,
            );
            text.subrange(start, start + w.len() as int) == w
        }),
{
    let ns = out.nodes@;
    let n = ns.len() as int;
    lemma_nodes_prefix(ns, t + 1, n);
    let heading = "Lineage ("@ + decimal(ns.len()) + " nodes, "@ + decimal(out.edges@.len())
        + " edges)\n\nNodes:\n"@;
    let before = nodes_text(ns, t);
    let line = node_text(ns[t]);
    let upto = nodes_text(ns, t + 1);
    assert(upto == before + line);
    let all_lines = nodes_text(ns, n);
    let rest = "\nEdges:\n"@ + edges_text(out.edges@, out.edges@.len() as int);
    let text = spec_lineage_text(out);
    assert(text =~= heading + all_lines + rest);
    let start: int = heading.len() as int + before.len();
    let w = "  "@ + pad_right(ns[t].id@, 22) + " parent="@ + pad_right(
        match ns[t].parent_id {
            Some(p) => p@,
            None => "(seed)"@,
        },
        22,
    );
    assert(line.take(w.len() as int) =~= w);
    assert forall|i: int| 0 <= i < w.len() implies text.subrange(start, start + w.len() as int)[i] == w[i] by {
        assert(text[start + i] == all_lines[before.len() + i]);
        assert(all_lines[before.len() + i] == upto[before.len() + i]);
        assert(upto[before.len() + i] == line[i]);
    }
    assert(text.subrange(start, start + w.len() as int) =~= w);
}

} // verus!
