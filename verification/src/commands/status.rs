//! `glctl status`: a summary of a company's repository.

use vstd::prelude::*;
use crate::models::generation::{bits_finite, is_finite, total_order_after, total_order_key};
use crate::models::{Generation, Relation, Score};
use crate::order::stable_before;
use crate::storage::{company_dir, spec_company_dir};
use crate::text::{bool_text, bool_to_string, decimal, ends_with, occurs_in, push_str, string_of, usize_to_string};
use crate::time::rfc3339_text;

verus! {

/// Options of `glctl status`.
#[derive(Debug, Clone, PartialEq, Eq)]
pub struct StatusArgs {
    /// Print one JSON object.
    pub json: bool,
}

/// The ids of the generations, in order.
pub open spec fn generation_ids(all: Seq<Generation>) -> Seq<Seq<char>> {
    Seq::new(all.len(), |i: int| all[i].id@)
}

/// The targets (`to`) of the relations, in order.
pub open spec fn relation_targets(rels: Seq<Relation>) -> Seq<Seq<char>> {
    Seq::new(rels.len(), |i: int| rels[i].to@)
}

/// The parent ids that the generations name, in order.
pub open spec fn named_parents(all: Seq<Generation>) -> Seq<Seq<char>>
    decreases all.len(),
{
    if all.len() == 0 {
        seq![]
    } else {
        named_parents(all.drop_last()) + match all.last().parent_id {
            Some(p) => seq![p@],
            None => seq![],
        }
    }
}

/// The number of generations without a parent.
pub open spec fn seed_count(all: Seq<Generation>) -> nat
    decreases all.len(),
{
    if all.len() == 0 {
        0
    } else {
        seed_count(all.drop_last()) + if all.last().parent_id is None {
            1nat
        } else {
            0nat
        }
    }
}

/// The number of distinct generation ids that no relation points to.
pub open spec fn head_count(all: Seq<Generation>, rels: Seq<Relation>) -> nat {
    generation_ids(all).to_set().difference(relation_targets(rels).to_set()).len()
}

/// The number of distinct parent ids that no generation has.
pub open spec fn dangling_parent_count(all: Seq<Generation>) -> nat {
    named_parents(all).to_set().difference(generation_ids(all).to_set()).len()
}

/// Position `k` holds the latest generation: the last one in ascending
/// order of creation, where generations created at the same instant keep
/// their order.
pub open spec fn is_latest(all: Seq<Generation>, k: int) -> bool {
    &&& 0 <= k < all.len()
    &&& forall|j: int|
        0 <= j < all.len() && j != k ==> stable_before(
            (#[trigger] all[j]).created_at.key(),
            j,
            all[k].created_at.key(),
            k,
        )
}

/// A generation that can be the best: it succeeded and its score is
/// finite.
pub open spec fn best_eligible(g: Generation) -> bool {
    g.metrics.success && bits_finite(g.metrics.score.bits)
}

/// Generation `j` ranks below generation `k` for the best: a lower score
/// in the order of `f64::total_cmp`, or an equal score and an earlier place
/// in ascending order of creation.
pub open spec fn ranks_below(all: Seq<Generation>, j: int, k: int) -> bool {
    let sj = total_order_key(all[j].metrics.score.bits);
    let sk = total_order_key(all[k].metrics.score.bits);
    sj < sk || (sj == sk && stable_before(all[j].created_at.key(), j, all[k].created_at.key(), k))
}

/// Position `k` holds the best generation: the eligible one with the
/// highest score; among equal scores the last in ascending order of
/// creation, as `max_by` over that order picks it.
pub open spec fn is_best(all: Seq<Generation>, k: int) -> bool {
    &&& 0 <= k < all.len()
    &&& best_eligible(all[k])
    &&& forall|j: int|
        0 <= j < all.len() && j != k && best_eligible(#[trigger] all[j]) ==> ranks_below(all, j, k)
}

/// No generation can be the best.
pub open spec fn none_eligible(all: Seq<Generation>) -> bool {
    forall|j: int| 0 <= j < all.len() ==> !best_eligible(#[trigger] all[j])
}

/// A generation as the status shows it.
#[derive(Debug, Clone, PartialEq, Eq)]
pub struct StatusGeneration {
    pub id: String,
    pub score: Score,
    pub success: bool,
    pub created_at: String,
}

/// `s` shows generation `g`.
pub open spec fn status_shows(s: StatusGeneration, g: Generation) -> bool {
    &&& s.id@ == g.id@
    &&& s.score == g.metrics.score
    &&& s.success == g.metrics.success
    &&& s.created_at@ == rfc3339_text(g.created_at.spec_secs(), g.created_at.spec_nanos())
}

/// The status entry of generation `g`.
pub fn status_generation(g: &Generation) -> (s: StatusGeneration)
    ensures
        status_shows(s, *g),
{
    StatusGeneration {
        id: g.id.clone(),
        score: g.metrics.score.duplicate(),
        success: g.metrics.success,
        created_at: g.created_at.to_rfc3339(),
    }
}

/// The summary of a company's repository.
#[derive(Debug, Clone, PartialEq, Eq)]
pub struct StatusSummary {
    pub company_id: String,
    pub data_dir: String,
    pub company_dir: String,
    pub generation_count: usize,
    pub relation_count: usize,
    pub seed_count: usize,
    pub head_count: usize,
    pub latest: Option<StatusGeneration>,
    pub best: Option<StatusGeneration>,
    pub dangling_parent_count: usize,
}

/// The number of distinct entries of `s` that are not in `excl`, counted at
/// their first occurrence.
pub open spec fn distinct_outside(s: Seq<Seq<char>>, excl: Set<Seq<char>>) -> nat
    decreases s.len(),
{
    if s.len() == 0 {
        0
    } else {
        distinct_outside(s.drop_last(), excl) + if !s.drop_last().contains(s.last())
            && !excl.contains(s.last()) {
            1nat
        } else {
            0nat
        }
    }
}

/// Counting first occurrences outside `excl` counts the set difference.
pub proof fn lemma_distinct_outside(s: Seq<Seq<char>>, excl: Set<Seq<char>>)
    ensures
        distinct_outside(s, excl) == s.to_set().difference(excl).len(),
        s.to_set().difference(excl).finite(),
    decreases s.len(),
{
    broadcast use vstd::seq_lib::group_seq_properties;
    broadcast use vstd::set_lib::group_set_properties;
    if s.len() == 0 {
        assert(s.to_set().difference(excl) =~= Set::<Seq<char>>::empty());
    } else {
        let t = s.drop_last();
        let x = s.last();
        lemma_distinct_outside(t, excl);
        assert(s =~= t.push(x));
        assert(s.to_set() =~= t.to_set().insert(x));
        let d = t.to_set().difference(excl);
        if t.contains(x) {
            assert(s.to_set().difference(excl) =~= d);
        } else if excl.contains(x) {
            assert(s.to_set().difference(excl) =~= d);
        } else {
            assert(s.to_set().difference(excl) =~= d.insert(x));
            assert(!d.contains(x));
        }
    }
}

/// Whether `x` occurs among the first `n` entries of `ids`.
fn occurs_before(all: &Vec<Generation>, n: usize, x: &String) -> (r: bool)
    requires
        n <= all.len(),
    ensures
        r == generation_ids(all@).take(n as int).contains(x@),
{
    for j in 0..n
        invariant
            n <= all.len(),
            forall|k: int| 0 <= k < j ==> generation_ids(all@)[k] != x@,
    {
        if all[j].id == *x {
            proof {
                assert(generation_ids(all@).take(n as int)[j as int] == x@);
            }
            return true;
        }
    }
    false
}

/// Whether some relation points to `x`.
fn is_target(rels: &Vec<Relation>, x: &String) -> (r: bool)
    ensures
        r == relation_targets(rels@).to_set().contains(x@),
{
    for j in 0..rels.len()
        invariant
            forall|k: int| 0 <= k < j ==> relation_targets(rels@)[k] != x@,
    {
        if rels[j].to == *x {
            proof {
                assert(relation_targets(rels@)[j as int] == x@);
            }
            return true;
        }
    }
    false
}

/// Whether some generation has the id `x`.
fn is_generation_id(all: &Vec<Generation>, x: &String) -> (r: bool)
    ensures
        r == generation_ids(all@).to_set().contains(x@),
{
    for j in 0..all.len()
        invariant
            forall|k: int| 0 <= k < j ==> generation_ids(all@)[k] != x@,
    {
        if all[j].id == *x {
            proof {
                assert(generation_ids(all@)[j as int] == x@);
            }
            return true;
        }
    }
    false
}

/// The number of distinct generation ids that no relation points to.
pub fn count_heads(all: &Vec<Generation>, rels: &Vec<Relation>) -> (n: usize)
    ensures
        n == head_count(all@, rels@),
{
    let ghost excl = relation_targets(rels@).to_set();
    let ghost ids = generation_ids(all@);
    let mut n: usize = 0;
    for i in 0..all.len()
        invariant
            excl == relation_targets(rels@).to_set(),
            ids == generation_ids(all@),
            n == distinct_outside(ids.take(i as int), excl),
            n <= i,
    {
        proof {
            assert(ids.take(i + 1).drop_last() =~= ids.take(i as int));
            assert(ids.take(i + 1).last() == all@[i as int].id@);
        }
        if !occurs_before(all, i, &all[i].id) && !is_target(rels, &all[i].id) {
            n = n + 1;
        }
    }
    proof {
        assert(ids.take(all.len() as int) =~= ids);
        lemma_distinct_outside(ids, excl);
    }
    n
}

/// Whether the parent id `x` is named by one of the first `n` generations.
fn named_before(all: &Vec<Generation>, n: usize, x: &String) -> (r: bool)
    requires
        n <= all.len(),
    ensures
        r == named_parents(all@.take(n as int)).contains(x@),
{
    let mut found = false;
    for j in 0..n
        invariant
            n <= all.len(),
            found == named_parents(all@.take(j as int)).contains(x@),
    {
        proof {
            assert(all@.take(j + 1).drop_last() =~= all@.take(j as int));
        }
        match &all[j].parent_id {
            Some(p) => {
                if *p == *x {
                    found = true;
                }
            },
            None => {},
        }
        proof {
            broadcast use vstd::seq_lib::group_seq_properties;
            let pre = named_parents(all@.take(j as int));
            match all@[j as int].parent_id {
                Some(p) => {
                    assert(named_parents(all@.take(j + 1)) =~= pre + seq![p@]);
                    assert((pre + seq![p@]).contains(x@) == (pre.contains(x@) || p@ == x@)) by {
                        if p@ == x@ {
                            assert((pre + seq![p@])[pre.len() as int] == x@);
                        }
                        if (pre + seq![p@]).contains(x@) && !pre.contains(x@) {
                            let k = choose|k: int| 0 <= k < (pre + seq![p@]).len() && (pre + seq![p@])[k] == x@;
                            if k < pre.len() {
                                assert(pre[k] == x@);
                            }
                        }
                        if pre.contains(x@) {
                            let k = choose|k: int| 0 <= k < pre.len() && pre[k] == x@;
                            assert((pre + seq![p@])[k] == x@);
                        }
                    }
                },
                None => {
                    assert(named_parents(all@.take(j + 1)) =~= pre);
                },
            }
        }
    }
    found
}

/// The number of distinct parent ids that no generation has.
pub fn count_dangling_parents(all: &Vec<Generation>) -> (n: usize)
    ensures
        n == dangling_parent_count(all@),
{
    let ghost excl = generation_ids(all@).to_set();
    let mut n: usize = 0;
    for i in 0..all.len()
        invariant
            excl == generation_ids(all@).to_set(),
            n == distinct_outside(named_parents(all@.take(i as int)), excl),
            n <= i,
    {
        let ghost pre = named_parents(all@.take(i as int));
        proof {
            assert(all@.take(i + 1).drop_last() =~= all@.take(i as int));
        }
        match &all[i].parent_id {
            Some(p) => {
                if !named_before(all, i, p) && !is_generation_id(all, p) {
                    n = n + 1;
                }
                proof {
                    let s = named_parents(all@.take(i + 1));
                    assert(s =~= pre + seq![p@]);
                    assert(s.drop_last() =~= pre);
                }
            },
            None => {
                proof {
                    assert(named_parents(all@.take(i + 1)) =~= pre);
                }
            },
        }
    }
    proof {
        assert(all@.take(all.len() as int) =~= all@);
        lemma_distinct_outside(named_parents(all@), excl);
    }
    n
}

/// The number of generations without a parent.
pub fn count_seeds(all: &Vec<Generation>) -> (n: usize)
    ensures
        n == seed_count(all@),
{
    let mut n: usize = 0;
    for i in 0..all.len()
        invariant
            n == seed_count(all@.take(i as int)),
            n <= i,
    {
        proof {
            assert(all@.take(i + 1).drop_last() =~= all@.take(i as int));
        }
        if all[i].parent_id.is_none() {
            n = n + 1;
        }
    }
    proof {
        assert(all@.take(all.len() as int) =~= all@);
    }
    n
}

/// The position of the latest generation, if there is one.
pub fn latest_position(all: &Vec<Generation>) -> (r: Option<usize>)
    ensures
        all@.len() == 0 <==> r is None,
        r matches Some(k) ==> is_latest(all@, k as int),
{
    if all.len() == 0 {
        return None;
    }
    let mut k: usize = 0;
    for i in 1..all.len()
        invariant
            1 <= all.len(),
            k < i,
            forall|j: int|
                0 <= j < i && j != k ==> stable_before(
                    (#[trigger] all@[j]).created_at.key(),
                    j,
                    all@[k as int].created_at.key(),
                    k as int,
                ),
    {
        if !all[k].created_at.is_after(&all[i].created_at) {
            k = i;
        }
    }
    Some(k)
}

/// Whether generation `g` can be the best.
fn eligible(g: &Generation) -> (r: bool)
    ensures
        r == best_eligible(*g),
{
    g.metrics.success && is_finite(g.metrics.score.bits)
}

/// The position of the best generation, if any generation is eligible.
pub fn best_position(all: &Vec<Generation>) -> (r: Option<usize>)
    ensures
        r is None <==> none_eligible(all@),
        r matches Some(k) ==> is_best(all@, k as int),
{
    let mut best: Option<usize> = None;
    for i in 0..all.len()
        invariant
            best is None <==> (forall|j: int| 0 <= j < i ==> !best_eligible(#[trigger] all@[j])),
            best matches Some(k) ==> k < i && best_eligible(all@[k as int]) && forall|j: int|
                0 <= j < i && j != k && best_eligible(#[trigger] all@[j]) ==> ranks_below(all@, j, k as int),
    {
        if eligible(&all[i]) {
            match best {
                None => {
                    best = Some(i);
                },
                Some(k) => {
                    let sk = all[k].metrics.score.bits;
                    let si = all[i].metrics.score.bits;
                    let replace = total_order_after(si, sk) || (!total_order_after(sk, si)
                        && !all[k].created_at.is_after(&all[i].created_at));
                    if replace {
                        best = Some(i);
                        proof {
                            assert forall|j: int|
                                0 <= j < i + 1 && j != i && best_eligible(#[trigger] all@[j]) implies ranks_below(
                                all@,
                                j,
                                i as int,
                            ) by {
                                if j != k {
                                    assert(ranks_below(all@, j, k as int));
                                }
                            }
                        }
                    }
                },
            }
        }
    }
    best
}

/// `s` is the status of the repository of `company_id` under `data_dir`
/// with the generations `all` and the relations `rels`.
pub open spec fn is_status_of(
    s: StatusSummary,
    company_id: Seq<char>,
    data_dir: Seq<char>,
    all: Seq<Generation>,
    rels: Seq<Relation>,
) -> bool {
    &&& s.company_id@ == company_id
    &&& s.data_dir@ == data_dir
    &&& s.company_dir@ == spec_company_dir(data_dir, company_id)
    &&& s.generation_count == all.len()
    &&& s.relation_count == rels.len()
    &&& s.seed_count == seed_count(all)
    &&& s.head_count == head_count(all, rels)
    &&& s.dangling_parent_count == dangling_parent_count(all)
    &&& (all.len() == 0 <==> s.latest is None)
    &&& (s.latest matches Some(l) ==> exists|k: int| is_latest(all, k) && status_shows(l, all[k]))
    &&& (s.best is None <==> none_eligible(all))
    &&& (s.best matches Some(b) ==> exists|k: int| is_best(all, k) && status_shows(b, all[k]))
}

/// The summary of a company's repository: the scope, the counts of
/// generations, relations, seeds (no parent), heads (ids that no relation
/// points to) and dangling parents (parent ids that no generation has),
/// and the latest and the best generation.
pub fn status_summary(company_id: &str, data_dir: &str, all: &Vec<Generation>, rels: &Vec<Relation>) -> (s: StatusSummary)
    ensures
        is_status_of(s, company_id@, data_dir@, all@, rels@),
{
    let latest = match latest_position(all) {
        Some(k) => {
            let g = status_generation(&all[k]);
            proof {
                assert(is_latest(all@, k as int) && status_shows(g, all@[k as int]));
            }
            Some(g)
        },
        None => None,
    };
    let best = match best_position(all) {
        Some(k) => {
            let g = status_generation(&all[k]);
            proof {
                assert(is_best(all@, k as int) && status_shows(g, all@[k as int]));
            }
            Some(g)
        },
        None => None,
    };
    StatusSummary {
        company_id: company_id.to_string(),
        data_dir: data_dir.to_string(),
        company_dir: company_dir(data_dir, company_id),
        generation_count: all.len(),
        relation_count: rels.len(),
        seed_count: count_seeds(all),
        head_count: count_heads(all, rels),
        latest,
        best,
        dangling_parent_count: count_dangling_parents(all),
    }
}

/// The line of a shown generation: `{label}: {id} score={:.3} success={}`.
pub open spec fn status_line(label: Seq<char>, g: StatusGeneration) -> Seq<char> {
    label + ": "@ + g.id@ + " score="@ + g.score.text_3dp@ + " success="@ + bool_text(g.success) + "\n"@
}

/// The text form of a summary: the company, its directory, the counts, and
/// the latest and best generations where there are any.
pub open spec fn spec_status_text(s: StatusSummary) -> Seq<char> {
    "company: "@ + s.company_id@ + "\n"@ + "repo: "@ + s.company_dir@ + "\n"@ + "generations: "@
        + decimal(s.generation_count as nat) + "  relations: "@ + decimal(s.relation_count as nat)
        + "  seeds: "@ + decimal(s.seed_count as nat) + "  heads: "@ + decimal(s.head_count as nat)
        + "\n"@ + "dangling parents: "@ + decimal(s.dangling_parent_count as nat) + "\n"@ + match s.latest {
        Some(g) => status_line("latest"@, g),
        None => seq![],
    } + match s.best {
        Some(g) => status_line("best"@, g),
        None => seq![],
    }
}

/// Appends the line of a shown generation.
fn push_status_line(v: &mut Vec<char>, label: &str, g: &StatusGeneration)
    ensures
        final(v)@ == old(v)@ + status_line(label@, *g),
{
    push_str(v, label);
    push_str(v, ": ");
    push_str(v, &g.id);
    push_str(v, " score=");
    push_str(v, &g.score.text_3dp);
    push_str(v, " success=");
    push_str(v, &bool_to_string(g.success));
    push_str(v, "\n");
    proof {
        assert(v@ =~= old(v)@ + status_line(label@, *g));
    }
}

/// The text that `glctl status` prints without `--json`.
pub fn status_text(s: &StatusSummary) -> (t: String)
    ensures
        t@ == spec_status_text(*s),
        s.best matches Some(b) ==> ends_with(
            t@,
            "best: "@ + b.id@ + " score="@ + b.score.text_3dp@ + " success="@ + bool_text(b.success)
                + "\n"@,
        ),
        s.latest matches Some(l) ==> occurs_in(
            t@,
            "latest: "@ + l.id@ + " score="@ + l.score.text_3dp@ + " success="@ + bool_text(l.success)
                + "\n"@,
        ),
{
    let mut v: Vec<char> = Vec::new();
    push_str(&mut v, "company: ");
    push_str(&mut v, &s.company_id);
    push_str(&mut v, "\nrepo: ");
    push_str(&mut v, &s.company_dir);
    push_str(&mut v, "\ngenerations: ");
    push_str(&mut v, &usize_to_string(s.generation_count));
    push_str(&mut v, "  relations: ");
    push_str(&mut v, &usize_to_string(s.relation_count));
    push_str(&mut v, "  seeds: ");
    push_str(&mut v, &usize_to_string(s.seed_count));
    push_str(&mut v, "  heads: ");
    push_str(&mut v, &usize_to_string(s.head_count));
    push_str(&mut v, "\ndangling parents: ");
    push_str(&mut v, &usize_to_string(s.dangling_parent_count));
    push_str(&mut v, "\n");
    let ghost head = v@;
    match &s.latest {
        Some(g) => push_status_line(&mut v, "latest", g),
        None => {},
    }
    let ghost mid = v@;
    match &s.best {
        Some(g) => push_status_line(&mut v, "best", g),
        None => {},
    }
    proof {
        reveal_strlit("company: ");
        reveal_strlit("\n");
        reveal_strlit("\nrepo: ");
        reveal_strlit("repo: ");
        reveal_strlit("\ngenerations: ");
        reveal_strlit("generations: ");
        reveal_strlit("\ndangling parents: ");
        reveal_strlit("dangling parents: ");
        assert(v@ =~= spec_status_text(*s));
        law_status_text_shows_latest_and_best(*s);
    }
    string_of(v.as_slice())
}

/// The text form of a summary ends with the line of the best generation
/// whenever there is one, whatever the latest generation is, and holds the
/// line of the latest generation whenever there is one:
/// `best: {id} score={:.3} success={}` and
/// `latest: {id} score={:.3} success={}`; without a best generation it ends
/// with the latest line.
pub proof fn law_status_text_shows_latest_and_best(s: StatusSummary)
    ensures
        s.best matches Some(b) ==> ends_with(
            spec_status_text(s),
            "best: "@ + b.id@ + " score="@ + b.score.text_3dp@ + " success="@ + bool_text(b.success)
                + "\n"@,
        ),
        s.latest matches Some(l) ==> occurs_in(
            spec_status_text(s),
            "latest: "@ + l.id@ + " score="@ + l.score.text_3dp@ + " success="@ + bool_text(l.success)
                + "\n"@,
        ),
        s.latest matches Some(l) ==> s.best is None ==> ends_with(
            spec_status_text(s),
            "latest: "@ + l.id@ + " score="@ + l.score.text_3dp@ + " success="@ + bool_text(l.success)
                + "\n"@,
        ),
{
    reveal_strlit("best");
    reveal_strlit("latest");
    reveal_strlit("best: ");
    reveal_strlit("latest: ");
    reveal_strlit(": ");
    let text = spec_status_text(s);
    let head = "company: "@ + s.company_id@ + "\n"@ + "repo: "@ + s.company_dir@ + "\n"@ + "generations: "@
        + decimal(s.generation_count as nat) + "  relations: "@ + decimal(s.relation_count as nat)
        + "  seeds: "@ + decimal(s.seed_count as nat) + "  heads: "@ + decimal(s.head_count as nat)
        + "\n"@ + "dangling parents: "@ + decimal(s.dangling_parent_count as nat) + "\n"@;
    let lpart = match s.latest {
        Some(g) => status_line("latest"@, g),
        None => seq![],
    };
    let bpart = match s.best {
        Some(g) => status_line("best"@, g),
        None => seq![],
    };
    assert(text == head + lpart + bpart);
    if let Some(b) = s.best {
        let w = "best: "@ + b.id@ + " score="@ + b.score.text_3dp@ + " success="@ + bool_text(b.success)
            + "\n"@;
        assert(bpart =~= w);
        assert(text.skip(text.len() - w.len()) =~= w);
    }
    if let Some(l) = s.latest {
        let w = "latest: "@ + l.id@ + " score="@ + l.score.text_3dp@ + " success="@ + bool_text(l.success)
            + "\n"@;
        assert(lpart =~= w);
        assert(text.subrange(head.len() as int, head.len() + w.len() as int) =~= w);
        if s.best is None {
            assert(text.skip(text.len() - w.len()) =~= w);
        }
    }
}

} // verus!
