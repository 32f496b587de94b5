//! `glctl push`: the snapshot of a company's repository sent to glhub.

use vstd::prelude::*;
use crate::commands::lineage::{created_ats, creation_instants};
use crate::commands::status::{
    best_eligible, count_heads, count_seeds, generation_ids, head_count, is_best, is_latest, is_status_of,
    none_eligible, ranks_below, seed_count, StatusSummary,
};
use crate::error::{CliError, CliResult};
use crate::models::generation::{is_finite, opt_view, total_order_after, total_order_key};
use crate::models::{Generation, Relation};
use crate::order::{
    holds_position, is_stable_order, law_stable_order_is_a_unique_permutation, order_keys, stable_before, stable_order,
};
use vstd::relations::injective_on;
use crate::text::{chars_of, concat, decimal, string_of};

verus! {

/// Options of `glctl push`.
#[derive(Debug, Clone, PartialEq, Eq)]
pub struct PushArgs {
    /// The glhub base URL.
    pub remote: Option<String>,
}

/// The status block of a push payload.
#[derive(Debug, Clone, PartialEq, Eq)]
pub struct PushStatus {
    pub company_id: String,
    pub generation_count: usize,
    pub relation_count: usize,
    pub seed_count: usize,
    pub head_count: usize,
    pub latest_generation_id: Option<String>,
    pub best_generation_id: Option<String>,
}

/// The schema version of the push payload.
pub open spec fn push_schema_version() -> Seq<char> {
    "glhub-push/v1"@
}

/// The schema version that a push payload declares.
pub fn schema_version() -> (s: String)
    ensures
        s@ == push_schema_version(),
{
    "glhub-push/v1".to_string()
}

/// The id of the last generation of the list, if there is one.
pub open spec fn last_id(all: Seq<Generation>) -> Option<Seq<char>> {
    if all.len() == 0 {
        None
    } else {
        Some(all.last().id@)
    }
}

/// Generation `j` ranks below generation `k` of the list for the best: a
/// lower score in the order of `f64::total_cmp`, or an equal score and an
/// earlier place in the list.
pub open spec fn ranks_below_in_list(all: Seq<Generation>, j: int, k: int) -> bool {
    let sj = total_order_key(all[j].metrics.score.bits);
    let sk = total_order_key(all[k].metrics.score.bits);
    sj < sk || (sj == sk && j < k)
}

/// Position `k` holds the best generation of the list as `max_by` over it
/// picks one: an eligible generation with the highest score, the last in
/// the list among equal scores.
pub open spec fn is_best_in_list(all: Seq<Generation>, k: int) -> bool {
    &&& 0 <= k < all.len()
    &&& best_eligible(all[k])
    &&& forall|j: int|
        0 <= j < all.len() && j != k && best_eligible(#[trigger] all[j]) ==> ranks_below_in_list(all, j, k)
}

/// `ps` is the push status of the repository of `company_id` with the
/// generations `all`, in the order given, and the relations `rels`.
pub open spec fn is_push_status_of(
    ps: PushStatus,
    company_id: Seq<char>,
    all: Seq<Generation>,
    rels: Seq<Relation>,
) -> bool {
    &&& ps.company_id@ == company_id
    &&& ps.generation_count == all.len()
    &&& ps.relation_count == rels.len()
    &&& ps.seed_count == seed_count(all)
    &&& ps.head_count == head_count(all, rels)
    &&& opt_view(ps.latest_generation_id) == last_id(all)
    &&& (ps.best_generation_id is None <==> none_eligible(all))
    &&& (ps.best_generation_id matches Some(b) ==> exists|k: int| is_best_in_list(all, k) && b@ == all[k].id@)
}

/// The position of the best generation of the list, if any generation is
/// eligible.
fn best_in_list_position(all: &Vec<Generation>) -> (r: Option<usize>)
    ensures
        r is None <==> none_eligible(all@),
        r matches Some(k) ==> is_best_in_list(all@, k as int),
{
    let mut best: Option<usize> = None;
    for i in 0..all.len()
        invariant
            best is None <==> (forall|j: int| 0 <= j < i ==> !best_eligible(#[trigger] all@[j])),
            best matches Some(k) ==> k < i && best_eligible(all@[k as int]) && forall|j: int|
                0 <= j < i && j != k && best_eligible(#[trigger] all@[j]) ==> ranks_below_in_list(
                    all@,
                    j,
                    k as int,
                ),
    {
        if all[i].metrics.success && is_finite(all[i].metrics.score.bits) {
            match best {
                None => {
                    best = Some(i);
                },
                Some(k) => {
                    if !total_order_after(all[k].metrics.score.bits, all[i].metrics.score.bits) {
                        best = Some(i);
                        proof {
                            assert forall|j: int|
                                0 <= j < i + 1 && j != i && best_eligible(#[trigger] all@[j]) implies ranks_below_in_list(
                                all@,
                                j,
                                i as int,
                            ) by {
                                if j != k {
                                    assert(ranks_below_in_list(all@, j, k as int));
                                }
                            }
                        }
                    }
                },
            }
        }
    }
    best
}

/// The status block of a push over the generations in the order given: the
/// scope, the counts of generations, relations, seeds and heads, the id of
/// the last generation and the id of the best one.
pub fn push_status(company_id: &str, all: &Vec<Generation>, rels: &Vec<Relation>) -> (ps: PushStatus)
    ensures
        is_push_status_of(ps, company_id@, all@, rels@),
{
    let latest = if all.len() == 0 {
        None
    } else {
        Some(all[all.len() - 1].id.clone())
    };
    let best = match best_in_list_position(all) {
        Some(k) => {
            let id = all[k].id.clone();
            proof {
                assert(is_best_in_list(all@, k as int) && id@ == all@[k as int].id@);
            }
            Some(id)
        },
        None => None,
    };
    PushStatus {
        company_id: company_id.to_string(),
        generation_count: all.len(),
        relation_count: rels.len(),
        seed_count: count_seeds(all),
        head_count: count_heads(all, rels),
        latest_generation_id: latest,
        best_generation_id: best,
    }
}

/// The order in which the payload lists the generations: ascending order
/// of creation, stable for equal instants.
pub fn payload_order(all: &Vec<Generation>) -> (p: Vec<usize>)
    ensures
        is_stable_order(order_keys(created_ats(all@), false), p@),
{
    let ts = creation_instants(all);
    stable_order(&ts, false)
}

/// `s` without its trailing `/` characters.
pub open spec fn trim_trailing_slashes(s: Seq<char>) -> Seq<char>
    decreases s.len(),
{
    if s.len() > 0 && s.last() == '/' {
        trim_trailing_slashes(s.drop_last())
    } else {
        s
    }
}

/// The remote that a command talks to: the flag, else the environment
/// value, else the default, without trailing `/`.
pub open spec fn spec_resolve_remote(
    flag: Option<Seq<char>>,
    env: Option<Seq<char>>,
    default: Seq<char>,
) -> Seq<char> {
    trim_trailing_slashes(
        match flag {
            Some(f) => f,
            None => match env {
                Some(e) => e,
                None => default,
            },
        },
    )
}

/// The default glhub URL of `push`.
pub open spec fn default_push_remote() -> Seq<char> {
    "http://127.0.0.1:3201"@
}

/// Resolves the remote: `--remote`, else the environment value, else
/// `default`, with trailing `/` removed (`trim_end_matches('/')`).
pub fn resolve_remote(flag: Option<&str>, env: Option<&str>, default: &str) -> (r: String)
    ensures
        r@ == spec_resolve_remote(
            match flag {
                Some(f) => Some(f@),
                None => None,
            },
            match env {
                Some(e) => Some(e@),
                None => None,
            },
            default@,
        ),
{
    let chosen = match flag {
        Some(f) => f,
        None => match env {
            Some(e) => e,
            None => default,
        },
    };
    let cs = chars_of(chosen);
    let mut n = cs.len();
    proof {
        assert(cs@.take(n as int) =~= cs@);
    }
    while n > 0 && cs[n - 1] == '/'
        invariant
            n <= cs.len(),
            trim_trailing_slashes(cs@.take(n as int)) == trim_trailing_slashes(cs@),
        decreases n,
    {
        proof {
            assert(cs@.take(n as int).drop_last() =~= cs@.take(n - 1));
        }
        n = n - 1;
    }
    let mut v: Vec<char> = Vec::new();
    for i in 0..n
        invariant
            n <= cs.len(),
            v@ == cs@.take(i as int),
    {
        v.push(cs[i]);
        proof {
            assert(cs@.take(i + 1) =~= cs@.take(i as int).push(cs@[i as int]));
        }
    }
    proof {
        assert(trim_trailing_slashes(cs@.take(n as int)) == cs@.take(n as int));
    }
    string_of(v.as_slice())
}

/// The endpoint of a push on the remote `remote`.
pub fn push_url(remote: &str) -> (u: String)
    ensures
        u@ == remote@ + "/api/push"@,
{
    concat(remote, "/api/push")
}

/// The outcome of a push from glhub's answer: its body when the status code
/// is a success (200 to 299), else an error with the status and the body.
pub fn push_outcome(code: u16, status_shown: &str, body: &str) -> (r: CliResult<String>)
    ensures
        200 <= code < 300 ==> (r matches Ok(b) && b@ == body@),
        !(200 <= code < 300) ==> (r matches Err(CliError::Error(m)) && m@ == "glhub rejected push with "@
            + status_shown@ + ": "@ + body@),
{
    if 200 <= code && code < 300 {
        Ok(body.to_string())
    } else {
        Err(CliError::Error(concat(&concat(&concat("glhub rejected push with ", status_shown), ": "), body)))
    }
}

/// At most one position holds the latest generation.
pub proof fn lemma_latest_unique(all: Seq<Generation>, a: int, b: int)
    requires
        is_latest(all, a),
        is_latest(all, b),
    ensures
        a == b,
{
    if a != b {
        assert(stable_before(all[a].created_at.key(), a, all[b].created_at.key(), b));
        assert(stable_before(all[b].created_at.key(), b, all[a].created_at.key(), a));
    }
}

/// At most one position holds the best generation.
pub proof fn lemma_best_unique(all: Seq<Generation>, a: int, b: int)
    requires
        is_best(all, a),
        is_best(all, b),
    ensures
        a == b,
{
    if a != b {
        assert(ranks_below(all, a, b));
        assert(ranks_below(all, b, a));
    }
}

/// At most one position holds the best generation of the list.
pub proof fn lemma_best_in_list_unique(all: Seq<Generation>, a: int, b: int)
    requires
        is_best_in_list(all, a),
        is_best_in_list(all, b),
    ensures
        a == b,
{
    if a != b {
        assert(ranks_below_in_list(all, a, b));
        assert(ranks_below_in_list(all, b, a));
    }
}

/// The generations of `all` in the order of the positions `p`.
pub open spec fn listed_in(all: Seq<Generation>, p: Seq<usize>) -> Seq<Generation> {
    Seq::new(p.len(), |i: int| all[p[i] as int])
}

/// The positions of the generations without a parent.
spec fn seed_positions(all: Seq<Generation>) -> Set<int> {
    Set::new(|i: int| 0 <= i < all.len() && all[i].parent_id is None)
}

proof fn lemma_seed_positions(all: Seq<Generation>)
    ensures
        seed_positions(all).finite(),
        seed_positions(all).len() == seed_count(all),
    decreases all.len(),
{
    if all.len() == 0 {
        assert(seed_positions(all) =~= Set::<int>::empty());
    } else {
        let prev = all.drop_last();
        lemma_seed_positions(prev);
        let n = all.len() - 1;
        if all.last().parent_id is None {
            assert(seed_positions(all) =~= seed_positions(prev).insert(n));
            assert(!seed_positions(prev).contains(n));
        } else {
            assert(seed_positions(all) =~= seed_positions(prev));
        }
    }
}

/// Listing the generations in a stable order of creation keeps their ids,
/// their number of seeds, and which of them are eligible for the best.
proof fn lemma_listed_in_stable_order(all: Seq<Generation>, p: Seq<usize>)
    requires
        is_stable_order(order_keys(created_ats(all), false), p),
    ensures
        listed_in(all, p).len() == all.len(),
        forall|i: int| 0 <= i < p.len() ==> p[i] < all.len(),
        forall|j: int| 0 <= j < all.len() ==> #[trigger] holds_position(p, j),
        forall|i: int, k: int| 0 <= i < k < p.len() ==> p[i] != p[k],
        seed_count(listed_in(all, p)) == seed_count(all),
        generation_ids(listed_in(all, p)).to_set() == generation_ids(all).to_set(),
        none_eligible(listed_in(all, p)) == none_eligible(all),
{
    let keys = order_keys(created_ats(all), false);
    law_stable_order_is_a_unique_permutation(keys, p, p);
    let ord = listed_in(all, p);
    lemma_seed_positions(all);
    lemma_seed_positions(ord);
    let f = |i: int| p[i] as int;
    assert(injective_on(f, seed_positions(ord))) by {
        assert forall|x1: int, x2: int|
            seed_positions(ord).contains(x1) && seed_positions(ord).contains(x2) && #[trigger] f(x1)
                == #[trigger] f(x2) implies x1 == x2 by {
            if x1 < x2 {
                assert(p[x1] != p[x2]);
            } else if x2 < x1 {
                assert(p[x2] != p[x1]);
            }
        }
    }
    assert(seed_positions(ord).map(f) =~= seed_positions(all)) by {
        assert forall|x: int| seed_positions(all).contains(x) implies seed_positions(ord).map(f).contains(x) by {
            assert(holds_position(p, x));
            let i = choose|i: int| 0 <= i < p.len() && p[i] == x;
            assert(seed_positions(ord).contains(i) && f(i) == x);
        }
    }
    vstd::set_lib::lemma_map_size(seed_positions(ord), seed_positions(all), f);
    assert(generation_ids(ord).to_set() =~= generation_ids(all).to_set()) by {
        assert forall|id: Seq<char>| generation_ids(all).to_set().contains(id) implies generation_ids(
            ord,
        ).to_set().contains(id) by {
            let j = choose|j: int| 0 <= j < generation_ids(all).len() && generation_ids(all)[j] == id;
            assert(holds_position(p, j));
            let i = choose|i: int| 0 <= i < p.len() && p[i] == j;
            assert(generation_ids(ord)[i] == id);
        }
        assert forall|id: Seq<char>| generation_ids(ord).to_set().contains(id) implies generation_ids(
            all,
        ).to_set().contains(id) by {
            let i = choose|i: int| 0 <= i < generation_ids(ord).len() && generation_ids(ord)[i] == id;
            assert(generation_ids(all)[p[i] as int] == id);
        }
    }
    if none_eligible(all) {
        assert forall|i: int| 0 <= i < ord.len() implies !best_eligible(#[trigger] ord[i]) by {
            assert(ord[i] == all[p[i] as int]);
        }
    }
    if none_eligible(ord) {
        assert forall|j: int| 0 <= j < all.len() implies !best_eligible(#[trigger] all[j]) by {
            assert(holds_position(p, j));
            let i = choose|i: int| 0 <= i < p.len() && p[i] == j;
            assert(ord[i] == all[j]);
        }
    }
}

/// What a push reports agrees with `status` on the same repository, when
/// the push lists the generations in ascending order of creation as
/// `payload_order` gives it: the same counts of generations, relations,
/// seeds and heads, and the ids of the same latest and best generations.
pub proof fn law_push_status_agrees_with_status(
    s: StatusSummary,
    ps: PushStatus,
    company_id: Seq<char>,
    data_dir: Seq<char>,
    all: Seq<Generation>,
    rels: Seq<Relation>,
    p: Seq<usize>,
)
    requires
        is_status_of(s, company_id, data_dir, all, rels),
        is_stable_order(order_keys(created_ats(all), false), p),
        is_push_status_of(ps, company_id, listed_in(all, p), rels),
    ensures
        ps.company_id@ == s.company_id@,
        ps.generation_count == s.generation_count,
        ps.relation_count == s.relation_count,
        ps.seed_count == s.seed_count,
        ps.head_count == s.head_count,
        opt_view(ps.latest_generation_id) == match s.latest {
            Some(l) => Some(l.id@),
            None => None,
        },
        opt_view(ps.best_generation_id) == match s.best {
            Some(b) => Some(b.id@),
            None => None,
        },
{
    let keys = order_keys(created_ats(all), false);
    let ord = listed_in(all, p);
    lemma_listed_in_stable_order(all, p);
    if s.latest is Some {
        let l = s.latest->0;
        let k1 = choose|k: int| is_latest(all, k) && crate::commands::status::status_shows(l, all[k]);
        let n = ord.len() - 1;
        let k2 = p[n] as int;
        assert(ord[n] == all[k2]);
        assert forall|j: int| 0 <= j < all.len() && j != k2 implies stable_before(
            (#[trigger] all[j]).created_at.key(),
            j,
            all[k2].created_at.key(),
            k2,
        ) by {
            assert(holds_position(p, j));
            let i = choose|i: int| 0 <= i < p.len() && p[i] == j;
            assert(i < n);
            assert(keys[p[i] as int] == all[j].created_at.key());
            assert(keys[p[n] as int] == all[k2].created_at.key());
        }
        assert(is_latest(all, k2));
        lemma_latest_unique(all, k1, k2);
    }
    if s.best is Some {
        let b = s.best->0;
        let k1 = choose|k: int| is_best(all, k) && crate::commands::status::status_shows(b, all[k]);
        let i2 = choose|k: int| is_best_in_list(ord, k) && ps.best_generation_id->0@ == ord[k].id@;
        let k2 = p[i2] as int;
        assert(ord[i2] == all[k2]);
        assert forall|j: int| 0 <= j < all.len() && j != k2 && best_eligible(#[trigger] all[j]) implies ranks_below(
            all,
            j,
            k2,
        ) by {
            assert(holds_position(p, j));
            let i = choose|i: int| 0 <= i < p.len() && p[i] == j;
            assert(ord[i] == all[j]);
            assert(ranks_below_in_list(ord, i, i2));
            assert(keys[p[i] as int] == all[j].created_at.key());
            assert(keys[p[i2] as int] == all[k2].created_at.key());
            if i < i2 {
                assert(stable_before(keys[p[i] as int], p[i] as int, keys[p[i2] as int], p[i2] as int));
            }
        }
        assert(is_best(all, k2));
        lemma_best_unique(all, k1, k2);
    }
}

} // verus!
