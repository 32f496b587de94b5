//! `glctl graph`: the lineage as a Mermaid flowchart.

use vstd::prelude::*;
use crate::commands::fsck::{contains_id, has_id};
use crate::commands::lineage::{created_ats, creation_instants};
use crate::error::{CliError, CliResult};
use crate::models::{Generation, Relation};
use crate::order::{is_stable_order, order_keys, stable_order};
use crate::text::{chars_of, occurs_in, push_str, string_of};

verus! {

/// Options of `glctl graph` (there are none).
#[derive(Debug, Clone, PartialEq, Eq)]
pub struct GraphArgs {}

/// A character that may stand in a Mermaid node id.
pub open spec fn node_id_char(c: char) -> bool {
    ('a' <= c <= 'z') || ('A' <= c <= 'Z') || ('0' <= c <= '9') || c == '_'
}

/// `id` made safe as a Mermaid node id: every character other than an
/// ASCII letter, digit or `_` becomes `_`.
pub open spec fn spec_sanitize_node_id(id: Seq<char>) -> Seq<char> {
    Seq::new(id.len(), |i: int| if node_id_char(id[i]) { id[i] } else { '_' })
}

/// Makes `id` safe as a Mermaid node id.
pub fn sanitize_node_id(id: &str) -> (s: String)
    ensures
        s@ == spec_sanitize_node_id(id@),
{
    let cs = chars_of(id);
    let mut v: Vec<char> = Vec::new();
    for i in 0..cs.len()
        invariant
            cs@ == id@,
            v@ == spec_sanitize_node_id(id@).take(i as int),
    {
        let c = cs[i];
        let d = if ('a' <= c && c <= 'z') || ('A' <= c && c <= 'Z') || ('0' <= c && c <= '9') || c == '_' {
            c
        } else {
            '_'
        };
        v.push(d);
        proof {
            assert(spec_sanitize_node_id(id@).take(i + 1) =~= spec_sanitize_node_id(id@).take(i as int).push(d));
        }
    }
    proof {
        assert(spec_sanitize_node_id(id@).take(cs.len() as int) =~= spec_sanitize_node_id(id@));
    }
    string_of(v.as_slice())
}

/// The escape of one character of a Mermaid label: `\` doubled, `"` as
/// `&quot;`, a line feed as a space.
pub open spec fn escaped_char(c: char) -> Seq<char> {
    if c == '\\' {
        seq!['\\', '\\']
    } else if c == '"' {
        seq!['&', 'q', 'u', 'o', 't', ';']
    } else if c == '\n' {
        seq![' ']
    } else {
        seq![c]
    }
}

/// `s` escaped for a Mermaid label, character by character (what the
/// successive replacements of `\`, `"` and line feeds give).
pub open spec fn spec_escape_label(s: Seq<char>) -> Seq<char>
    decreases s.len(),
{
    if s.len() == 0 {
        seq![]
    } else {
        spec_escape_label(s.drop_last()) + escaped_char(s.last())
    }
}

/// Escapes `s` for use inside a Mermaid label.
pub fn escape_label(s: &str) -> (r: String)
    ensures
        r@ == spec_escape_label(s@),
{
    let cs = chars_of(s);
    let v = escape_chars(&cs);
    string_of(v.as_slice())
}

/// Escapes characters for use inside a Mermaid label.
fn escape_chars(cs: &Vec<char>) -> (v: Vec<char>)
    ensures
        v@ == spec_escape_label(cs@),
{
    let mut v: Vec<char> = Vec::new();
    for i in 0..cs.len()
        invariant
            v@ == spec_escape_label(cs@.take(i as int)),
    {
        let c = cs[i];
        if c == '\\' {
            v.push('\\');
            v.push('\\');
        } else if c == '"' {
            v.push('&');
            v.push('q');
            v.push('u');
            v.push('o');
            v.push('t');
            v.push(';');
        } else if c == '\n' {
            v.push(' ');
        } else {
            v.push(c);
        }
        proof {
            assert(cs@.take(i + 1).drop_last() =~= cs@.take(i as int));
            assert(cs@.take(i + 1).last() == c);
            assert(v@ =~= spec_escape_label(cs@.take(i as int)) + escaped_char(c));
        }
    }
    proof {
        assert(cs@.take(cs.len() as int) =~= cs@);
    }
    v
}

/// `s` cut to its first `max` characters, with `…` appended where it was
/// longer.
pub open spec fn spec_truncate(s: Seq<char>, max: nat) -> Seq<char> {
    if s.len() <= max {
        s
    } else {
        s.take(max as int).push('\u{2026}')
    }
}

/// Cuts `s` to at most `max` characters, marking a cut with `…`.
pub fn truncate(s: &str, max: usize) -> (r: String)
    ensures
        r@ == spec_truncate(s@, max as nat),
{
    let v = truncate_chars(&chars_of(s), max);
    string_of(v.as_slice())
}

/// Cuts characters to at most `max`, marking a cut with `…`.
fn truncate_chars(cs: &Vec<char>, max: usize) -> (v: Vec<char>)
    ensures
        v@ == spec_truncate(cs@, max as nat),
{
    if cs.len() <= max {
        return cs.clone();
    }
    let mut v: Vec<char> = Vec::new();
    for i in 0..max
        invariant
            max < cs.len(),
            v@ == cs@.take(i as int),
    {
        v.push(cs[i]);
        proof {
            assert(cs@.take(i + 1) =~= cs@.take(i as int).push(cs@[i as int]));
        }
    }
    v.push('\u{2026}');
    v
}

/// The line of generation `g`: its sanitized id, then a label with its id,
/// the first 40 characters of its soul, and its score to two decimals.
pub open spec fn node_line(g: Generation) -> Seq<char> {
    "  "@ + spec_sanitize_node_id(g.id@) + "[\""@ + spec_escape_label(g.id@) + "<br/>"@
        + spec_escape_label(spec_truncate(g.soul@, 40)) + "<br/>score: "@ + g.metrics.score.text_2dp@
        + "\"]\n"@
}

/// The line of relation `r`: an arrow labelled with its type.
pub open spec fn edge_line(r: Relation) -> Seq<char> {
    "  "@ + spec_sanitize_node_id(r.from@) + " -->|"@ + r.relation_type.spec_name() + "| "@
        + spec_sanitize_node_id(r.to@) + "\n"@
}

/// The node lines of the first `n` positions of `p`.
pub open spec fn node_lines(all: Seq<Generation>, p: Seq<usize>, n: int) -> Seq<char>
    decreases n,
{
    if n <= 0 || n > p.len() {
        seq![]
    } else {
        node_lines(all, p, n - 1) + node_line(all[p[n - 1] as int])
    }
}

/// The edge lines of the first `n` relations, for those whose two
/// endpoints are generations.
pub open spec fn edge_lines(all: Seq<Generation>, rels: Seq<Relation>, n: int) -> Seq<char>
    decreases n,
{
    if n <= 0 || n > rels.len() {
        seq![]
    } else {
        let r = rels[n - 1];
        edge_lines(all, rels, n - 1) + if has_id(all, r.from@) && has_id(all, r.to@) {
            edge_line(r)
        } else {
            seq![]
        }
    }
}

/// The flowchart of the generations at positions `p` and of the relations.
pub open spec fn graph_text(all: Seq<Generation>, rels: Seq<Relation>, p: Seq<usize>) -> Seq<char> {
    "graph TD\n"@ + node_lines(all, p, p.len() as int) + edge_lines(all, rels, rels.len() as int)
}

/// Appends characters to `v`.
fn push_chars(v: &mut Vec<char>, w: &Vec<char>)
    ensures
        final(v)@ == old(v)@ + w@,
{
    let mut x = w.clone();
    proof {
        assert(x@ =~= w@);
    }
    v.append(&mut x);
}

/// The Mermaid flowchart of the lineage: `graph TD`, one node per
/// generation in ascending order of creation (stable for equal instants),
/// then one arrow per relation whose two endpoints are generations, in the
/// order of the relations.
pub fn render_graph(all: &Vec<Generation>, rels: &Vec<Relation>) -> (r: CliResult<String>)
    ensures
        all@.len() == 0 ==> (r matches Err(CliError::NoData(m)) && m@ == "no generations found"@),
        all@.len() > 0 ==> (r matches Ok(text) && exists|p: Seq<usize>|
            is_stable_order(order_keys(created_ats(all@), false), p) && text@ == graph_text(
                all@,
                rels@,
                p,
            )),
        all@.len() > 0 ==> (r matches Ok(text) && exists|p: Seq<usize>|
            is_stable_order(order_keys(created_ats(all@), false), p) && text@ == graph_text(all@, rels@, p)
                && forall|k: int|
                0 <= k < rels@.len() && !(has_id(all@, (#[trigger] rels@[k]).from@) && has_id(all@, rels@[k].to@))
                    ==> text@ == graph_text(all@, rels@.remove(k), p)),
        r matches Ok(text) ==> forall|k: int|
            0 <= k < rels@.len() && has_id(all@, (#[trigger] rels@[k]).from@) && has_id(all@, rels@[k].to@)
                ==> occurs_in(
                text@,
                "  "@ + spec_sanitize_node_id(rels@[k].from@) + " -->|"@ + rels@[k].relation_type.spec_name()
                    + "| "@ + spec_sanitize_node_id(rels@[k].to@) + "\n"@,
            ),
{
    if all.len() == 0 {
        return Err(CliError::NoData("no generations found".to_string()));
    }
    let ts = creation_instants(all);
    let p = stable_order(&ts, false);
    let mut out: Vec<char> = Vec::new();
    push_str(&mut out, "graph TD\n");
    let ghost head = out@;
    for t in 0..p.len()
        invariant
            forall|s: int| 0 <= s < p.len() ==> (#[trigger] p@[s]) < all.len(),
            out@ == head + node_lines(all@, p@, t as int),
    {
        let g = &all[p[t]];
        push_str(&mut out, "  ");
        push_str(&mut out, &sanitize_node_id(&g.id));
        push_str(&mut out, "[\"");
        push_str(&mut out, &escape_label(&g.id));
        push_str(&mut out, "<br/>");
        push_str(&mut out, &escape_label(&truncate(&g.soul, 40)));
        push_str(&mut out, "<br/>score: ");
        push_str(&mut out, &g.metrics.score.text_2dp);
        push_str(&mut out, "\"]\n");
        proof {
            assert(out@ =~= head + node_lines(all@, p@, t as int + 1));
        }
    }
    let ghost mid = out@;
    for i in 0..rels.len()
        invariant
            out@ == mid + edge_lines(all@, rels@, i as int),
    {
        let r = &rels[i];
        if contains_id(all, &r.from) && contains_id(all, &r.to) {
            push_str(&mut out, "  ");
            push_str(&mut out, &sanitize_node_id(&r.from));
            push_str(&mut out, " -->|");
            push_str(&mut out, &r.relation_type.name());
            push_str(&mut out, "| ");
            push_str(&mut out, &sanitize_node_id(&r.to));
            push_str(&mut out, "\n");
        }
        proof {
            assert(out@ =~= mid + edge_lines(all@, rels@, i + 1));
        }
    }
    let text = string_of(out.as_slice());
    proof {
        assert(text@ =~= graph_text(all@, rels@, p@));
        assert forall|k: int| 0 <= k < rels@.len() implies (!(has_id(all@, (#[trigger] rels@[k]).from@) && has_id(
            all@,
            rels@[k].to@,
        )) ==> text@ == graph_text(all@, rels@.remove(k), p@)) && (has_id(all@, rels@[k].from@) && has_id(
            all@,
            rels@[k].to@,
        ) ==> occurs_in(
            text@,
            "  "@ + spec_sanitize_node_id(rels@[k].from@) + " -->|"@ + rels@[k].relation_type.spec_name()
                + "| "@ + spec_sanitize_node_id(rels@[k].to@) + "\n"@,
        )) by {
            law_graph_arrows_join_generations(all@, rels@, p@, k);
        }
    }
    Ok(text)
}

/// Two relation lists that agree on their first `m` entries give the same
/// arrow lines for them.
proof fn lemma_edge_lines_same_prefix(all: Seq<Generation>, a: Seq<Relation>, b: Seq<Relation>, m: int)
    requires
        0 <= m <= a.len(),
        m <= b.len(),
        forall|i: int| 0 <= i < m ==> a[i] == b[i],
    ensures
        edge_lines(all, a, m) == edge_lines(all, b, m),
    decreases m,
{
    if m > 0 {
        lemma_edge_lines_same_prefix(all, a, b, m - 1);
        assert(a[m - 1] == b[m - 1]);
    }
}

/// Leaving out relation `k`, one of whose endpoints is no generation, keeps
/// the arrow lines of the first `m` relations (`m > k`).
proof fn lemma_edge_lines_remove(all: Seq<Generation>, rels: Seq<Relation>, k: int, m: int)
    requires
        0 <= k < m <= rels.len(),
        !(has_id(all, rels[k].from@) && has_id(all, rels[k].to@)),
    ensures
        edge_lines(all, rels.remove(k), m - 1) == edge_lines(all, rels, m),
    decreases m,
{
    let short = rels.remove(k);
    if m == k + 1 {
        lemma_edge_lines_same_prefix(all, rels, short, k);
        assert(edge_lines(all, rels, m) =~= edge_lines(all, rels, k));
    } else {
        lemma_edge_lines_remove(all, rels, k, m - 1);
        assert(short[m - 2] == rels[m - 1]);
    }
}

/// The arrow line of a relation `k < m` between two generations occurs in
/// the arrow lines of the first `m` relations.
proof fn lemma_edge_line_listed(all: Seq<Generation>, rels: Seq<Relation>, m: int, k: int)
    requires
        0 <= k < m <= rels.len(),
        has_id(all, rels[k].from@) && has_id(all, rels[k].to@),
    ensures
        occurs_in(edge_lines(all, rels, m), edge_line(rels[k])),
    decreases m,
{
    let prev = edge_lines(all, rels, m - 1);
    let r = rels[m - 1];
    let last = if has_id(all, r.from@) && has_id(all, r.to@) {
        edge_line(r)
    } else {
        seq![]
    };
    let whole = edge_lines(all, rels, m);
    assert(whole == prev + last);
    let w = edge_line(rels[k]);
    if k < m - 1 {
        lemma_edge_line_listed(all, rels, m - 1, k);
        let i = choose|i: int| 0 <= i && i + w.len() <= prev.len() && #[trigger] prev.subrange(i, i + w.len() as int) == w;
        assert(whole.subrange(i, i + w.len() as int) =~= prev.subrange(i, i + w.len() as int));
    } else {
        assert(whole.subrange(prev.len() as int, prev.len() + w.len() as int) =~= w);
    }
}

/// The arrows of the flowchart are those of the relations between two
/// generations: a relation whose `from` or `to` is the id of no generation
/// adds no line (the chart is the same without it), and a relation whose
/// two endpoints are generations has its arrow line
/// `  {from} -->|{type}| {to}` in the chart, with both ids sanitized.
pub proof fn law_graph_arrows_join_generations(
    all: Seq<Generation>,
    rels: Seq<Relation>,
    p: Seq<usize>,
    k: int,
)
    requires
        0 <= k < rels.len(),
    ensures
        !((exists|j: int| 0 <= j < all.len() && all[j].id@ == rels[k].from@) && (exists|j: int|
            0 <= j < all.len() && all[j].id@ == rels[k].to@)) ==> graph_text(all, rels, p) == graph_text(
            all,
            rels.remove(k),
            p,
        ),
        ((exists|j: int| 0 <= j < all.len() && all[j].id@ == rels[k].from@) && (exists|j: int|
            0 <= j < all.len() && all[j].id@ == rels[k].to@)) ==> occurs_in(
            graph_text(all, rels, p),
            "  "@ + spec_sanitize_node_id(rels[k].from@) + " -->|"@ + rels[k].relation_type.spec_name()
                + "| "@ + spec_sanitize_node_id(rels[k].to@) + "\n"@,
        ),
{
    let n = rels.len() as int;
    if !(has_id(all, rels[k].from@) && has_id(all, rels[k].to@)) {
        lemma_edge_lines_remove(all, rels, k, n);
        assert(graph_text(all, rels, p) =~= graph_text(all, rels.remove(k), p));
    } else {
        lemma_edge_line_listed(all, rels, n, k);
        let head = "graph TD\n"@ + node_lines(all, p, p.len() as int);
        let lines = edge_lines(all, rels, n);
        let w = edge_line(rels[k]);
        let i = choose|i: int| 0 <= i && i + w.len() <= lines.len() && #[trigger] lines.subrange(i, i + w.len() as int) == w;
        let text = graph_text(all, rels, p);
        assert(text == head + lines);
        assert(text.subrange(head.len() + i, head.len() + i + w.len() as int) =~= lines.subrange(
            i,
            i + w.len() as int,
        ));
    }
}

} // verus!
