//! `glctl fsck`: the integrity checks of a repository.

use vstd::prelude::*;
use crate::error::{CliError, CliResult};
use crate::models::generation::{bits_finite, bits_in_unit_interval, in_unit_interval, is_finite, sign_bit};
use crate::models::{Generation, Relation};
use crate::text::{chars_of, concat, decimal, is_digit, push_str, string_of, usize_to_string};

verus! {

/// Options of `glctl fsck`.
#[derive(Debug, Clone, PartialEq, Eq)]
pub struct FsckArgs {
    /// Print the report as one JSON object.
    pub json: bool,
}

/// An id of the form `gen-YYYYMMDD-NNN`: sixteen characters, the prefix
/// `gen-`, eight digits, `-`, three digits.
pub open spec fn spec_valid_generation_id(id: Seq<char>) -> bool {
    &&& id.len() == 16
    &&& id[0] == 'g' && id[1] == 'e' && id[2] == 'n' && id[3] == '-'
    &&& forall|i: int| 4 <= i < 12 ==> is_digit(#[trigger] id[i])
    &&& id[12] == '-'
    &&& forall|i: int| 13 <= i < 16 ==> is_digit(#[trigger] id[i])
}

/// Whether `id` has the form `gen-YYYYMMDD-NNN`.
pub fn valid_generation_id(id: &str) -> (r: bool)
    ensures
        r == spec_valid_generation_id(id@),
{
    let cs = chars_of(id);
    if cs.len() != 16 {
        return false;
    }
    if !(cs[0] == 'g' && cs[1] == 'e' && cs[2] == 'n' && cs[3] == '-' && cs[12] == '-') {
        return false;
    }
    for i in 4..12
        invariant
            cs@ == id@,
            cs.len() == 16,
            forall|k: int| 4 <= k < i ==> is_digit(#[trigger] cs@[k]),
    {
        if !('0' <= cs[i] && cs[i] <= '9') {
            return false;
        }
    }
    for i in 13..16
        invariant
            cs@ == id@,
            cs.len() == 16,
            forall|k: int| 13 <= k < i ==> is_digit(#[trigger] cs@[k]),
    {
        if !('0' <= cs[i] && cs[i] <= '9') {
            return false;
        }
    }
    true
}

/// One problem that `fsck` found.
#[derive(Debug, Clone, PartialEq, Eq)]
pub struct FsckIssue {
    /// Always `error`.
    pub severity: String,
    /// The kind of problem, such as `missing_parent`.
    pub code: String,
    /// What is wrong, naming the records involved.
    pub message: String,
}

/// What `fsck` reports of a repository.
#[derive(Debug, Clone, PartialEq, Eq)]
pub struct FsckReport {
    /// No issue was found.
    pub ok: bool,
    pub generation_count: usize,
    pub relation_count: usize,
    pub issue_count: usize,
    pub issues: Vec<FsckIssue>,
}

/// An issue as its code and its message.
pub type IssueView = (Seq<char>, Seq<char>);

/// The issues of a list, as codes and messages.
pub open spec fn issue_views(issues: Seq<FsckIssue>) -> Seq<IssueView> {
    Seq::new(issues.len(), |i: int| (issues[i].code@, issues[i].message@))
}

/// The issue `(code, message)` where `cond` holds, else none.
pub open spec fn issue_if(cond: bool, code: Seq<char>, message: Seq<char>) -> Seq<IssueView> {
    if cond {
        seq![(code, message)]
    } else {
        seq![]
    }
}

/// Some generation of `all` has the id `id`.
pub open spec fn has_id(all: Seq<Generation>, id: Seq<char>) -> bool {
    exists|k: int| 0 <= k < all.len() && (#[trigger] all[k]).id@ == id
}

/// The number of generations of `all` with the id `id`.
pub open spec fn id_count(all: Seq<Generation>, id: Seq<char>) -> nat
    decreases all.len(),
{
    if all.len() == 0 {
        0
    } else {
        id_count(all.drop_last(), id) + if all.last().id@ == id {
            1nat
        } else {
            0nat
        }
    }
}

/// The checks of one generation against the whole list `all`, in order:
/// the shape of its id, the range of its score, its parent, the number of
/// its configuration patches.
pub open spec fn generation_issues(all: Seq<Generation>, g: Generation) -> Seq<IssueView> {
    let id = g.id@;
    let bits = g.metrics.score.bits;
    issue_if(
        !spec_valid_generation_id(id),
        "invalid_generation_id"@,
        "generation id '"@ + id + "' does not match gen-YYYYMMDD-NNN"@,
    ) + issue_if(
        !bits_in_unit_interval(bits) || !bits_finite(bits),
        "invalid_score"@,
        "generation '"@ + id + "' has invalid score "@ + g.metrics.score.text@,
    ) + match g.parent_id {
        Some(p) => issue_if(
            !has_id(all, p@),
            "missing_parent"@,
            "generation '"@ + id + "' references missing parent '"@ + p@ + "'"@,
        ),
        None => seq![],
    } + issue_if(
        g.config_patches@.len() > 3,
        "too_many_config_patches"@,
        "generation '"@ + id + "' has "@ + decimal(g.config_patches@.len()) + " config_patches; max is 3"@,
    )
}

/// The per-generation issues of the first `n` generations of `all`.
pub open spec fn per_generation_issues(all: Seq<Generation>, n: int) -> Seq<IssueView>
    decreases n,
{
    if n <= 0 || n > all.len() {
        seq![]
    } else {
        per_generation_issues(all, n - 1) + generation_issues(all, all[n - 1])
    }
}

/// Position `i` holds the first generation of `all` with its id.
pub open spec fn first_of_id(all: Seq<Generation>, i: int) -> bool {
    forall|j: int| 0 <= j < i ==> (#[trigger] all[j]).id@ != all[i].id@
}

/// One issue per id that occurs more than once among the first `n`
/// generations, at its first occurrence, with the number of occurrences in
/// all of `all`.
pub open spec fn duplicate_issues(all: Seq<Generation>, n: int) -> Seq<IssueView>
    decreases n,
{
    if n <= 0 || n > all.len() {
        seq![]
    } else {
        let id = all[n - 1].id@;
        duplicate_issues(all, n - 1) + issue_if(
            first_of_id(all, n - 1) && id_count(all, id) > 1,
            "duplicate_generation_id"@,
            "generation id '"@ + id + "' appears "@ + decimal(id_count(all, id)) + " times"@,
        )
    }
}

/// Some relation goes from `from` to `to`.
pub open spec fn has_edge(rels: Seq<Relation>, from: Seq<char>, to: Seq<char>) -> bool {
    exists|k: int| 0 <= k < rels.len() && (#[trigger] rels[k]).from@ == from && rels[k].to@ == to
}

/// One issue for each of the first `n` generations whose parent exists but
/// has no relation edge to it.
pub open spec fn missing_relation_issues(all: Seq<Generation>, rels: Seq<Relation>, n: int) -> Seq<
    IssueView,
>
    decreases n,
{
    if n <= 0 || n > all.len() {
        seq![]
    } else {
        let g = all[n - 1];
        missing_relation_issues(all, rels, n - 1) + match g.parent_id {
            Some(p) => issue_if(
                has_id(all, p@) && !has_edge(rels, p@, g.id@),
                "missing_relation"@,
                "generation '"@ + g.id@ + "' has parent '"@ + p@ + "' but no relation edge"@,
            ),
            None => seq![],
        }
    }
}

/// The endpoint checks of the first `n` relations: a missing `from`, then a
/// missing `to`, for each.
pub open spec fn endpoint_issues(all: Seq<Generation>, rels: Seq<Relation>, n: int) -> Seq<
    IssueView,
>
    decreases n,
{
    if n <= 0 || n > rels.len() {
        seq![]
    } else {
        let r = rels[n - 1];
        endpoint_issues(all, rels, n - 1) + issue_if(
            !has_id(all, r.from@),
            "relation_missing_from"@,
            "relation "@ + r.from@ + " -> "@ + r.to@ + " has missing from endpoint"@,
        ) + issue_if(
            !has_id(all, r.to@),
            "relation_missing_to"@,
            "relation "@ + r.from@ + " -> "@ + r.to@ + " has missing to endpoint"@,
        )
    }
}

/// All issues of a repository, in the order in which `fsck` reports them.
pub open spec fn spec_fsck_issues(all: Seq<Generation>, rels: Seq<Relation>) -> Seq<IssueView> {
    per_generation_issues(all, all.len() as int) + duplicate_issues(all, all.len() as int)
        + missing_relation_issues(all, rels, all.len() as int) + endpoint_issues(
        all,
        rels,
        rels.len() as int,
    )
}

/// Whether some generation has the id `id`.
pub(crate) fn contains_id(all: &Vec<Generation>, id: &String) -> (r: bool)
    ensures
        r == has_id(all@, id@),
{
    for k in 0..all.len()
        invariant
            forall|j: int| 0 <= j < k ==> (#[trigger] all@[j]).id@ != id@,
    {
        if all[k].id == *id {
            return true;
        }
    }
    false
}

/// The number of generations with the id `id`.
fn count_id(all: &Vec<Generation>, id: &String) -> (n: usize)
    ensures
        n == id_count(all@, id@),
{
    let mut n: usize = 0;
    for k in 0..all.len()
        invariant
            n == id_count(all@.take(k as int), id@),
            n <= k,
    {
        proof {
            assert(all@.take(k + 1).drop_last() =~= all@.take(k as int));
        }
        if all[k].id == *id {
            n = n + 1;
        }
    }
    proof {
        assert(all@.take(all.len() as int) =~= all@);
    }
    n
}

/// Whether position `i` holds the first generation with its id.
fn is_first_of_id(all: &Vec<Generation>, i: usize) -> (r: bool)
    requires
        i < all.len(),
    ensures
        r == first_of_id(all@, i as int),
{
    for j in 0..i
        invariant
            i < all.len(),
            forall|k: int| 0 <= k < j ==> (#[trigger] all@[k]).id@ != all@[i as int].id@,
    {
        if all[j].id == all[i].id {
            return false;
        }
    }
    true
}

/// Whether some relation goes from `from` to `to`.
fn contains_edge(rels: &Vec<Relation>, from: &String, to: &String) -> (r: bool)
    ensures
        r == has_edge(rels@, from@, to@),
{
    for k in 0..rels.len()
        invariant
            forall|j: int| 0 <= j < k ==> !((#[trigger] rels@[j]).from@ == from@ && rels@[j].to@ == to@),
    {
        if rels[k].from == *from && rels[k].to == *to {
            return true;
        }
    }
    false
}

/// An issue of severity `error`.
fn issue(code: &str, message: String) -> (i: FsckIssue)
    ensures
        i.severity@ == "error"@,
        i.code@ == code@,
        i.message@ == message@,
{
    FsckIssue { severity: "error".to_string(), code: code.to_string(), message }
}

/// Appends the issue `(code, message)` to `issues` where `cond` holds.
fn push_issue_if(issues: &mut Vec<FsckIssue>, cond: bool, code: &str, message: String)
    requires
        forall|k: int| 0 <= k < old(issues)@.len() ==> (#[trigger] old(issues)@[k]).severity@ == "error"@,
    ensures
        issue_views(final(issues)@) == issue_views(old(issues)@) + issue_if(cond, code@, message@),
        forall|k: int| 0 <= k < final(issues)@.len() ==> (#[trigger] final(issues)@[k]).severity@ == "error"@,
{
    if cond {
        issues.push(issue(code, message));
    }
    proof {
        assert(issue_views(issues@) =~= issue_views(old(issues)@) + issue_if(cond, code@, message@));
    }
}

/// Runs every integrity check over the generations and relations of a
/// repository: id shape, score range, missing parents, the number of
/// configuration patches, duplicate ids, missing relation edges and
/// relation endpoints.
pub fn fsck_report(generations: &Vec<Generation>, relations: &Vec<Relation>) -> (r: FsckReport)
    ensures
        issue_views(r.issues@) == spec_fsck_issues(generations@, relations@),
        forall|k: int| 0 <= k < r.issues@.len() ==> (#[trigger] r.issues@[k]).severity@ == "error"@,
        r.ok == (r.issues@.len() == 0),
        r.ok ==> forall|k: int|
            0 <= k < relations@.len() ==> (exists|j: int|
                0 <= j < generations@.len() && generations@[j].id@ == (#[trigger] relations@[k]).from@)
                && (exists|j: int| 0 <= j < generations@.len() && generations@[j].id@ == relations@[k].to@),
        r.issue_count == r.issues@.len(),
        r.generation_count == generations@.len(),
        r.relation_count == relations@.len(),
{
    let ghost all = generations@;
    let ghost rels = relations@;
    let mut issues: Vec<FsckIssue> = Vec::new();
    let n = generations.len();
    for i in 0..n
        invariant
            n == generations.len(),
            all == generations@,
            issue_views(issues@) == per_generation_issues(all, i as int),
            forall|k: int| 0 <= k < issues@.len() ==> (#[trigger] issues@[k]).severity@ == "error"@,
    {
        let g = &generations[i];
        let ghost before = issue_views(issues@);
        let bad_id = !valid_generation_id(&g.id);
        push_issue_if(
            &mut issues,
            bad_id,
            "invalid_generation_id",
            concat(&concat("generation id '", &g.id), "' does not match gen-YYYYMMDD-NNN"),
        );
        let bits = g.metrics.score.bits;
        let bad_score = !in_unit_interval(bits) || !is_finite(bits);
        push_issue_if(
            &mut issues,
            bad_score,
            "invalid_score",
            concat(&concat(&concat("generation '", &g.id), "' has invalid score "), &g.metrics.score.text),
        );
        let ghost mid = issue_views(issues@);
        match &g.parent_id {
            Some(p) => {
                let missing = !contains_id(generations, p);
                push_issue_if(
                    &mut issues,
                    missing,
                    "missing_parent",
                    concat(
                        &concat(&concat(&concat("generation '", &g.id), "' references missing parent '"), p),
                        "'",
                    ),
                );
            },
            None => {
                proof {
                    assert(issue_views(issues@) =~= mid + seq![]);
                }
            },
        }
        let np = g.config_patches.len();
        push_issue_if(
            &mut issues,
            np > 3,
            "too_many_config_patches",
            concat(
                &concat(&concat(&concat("generation '", &g.id), "' has "), &usize_to_string(np)),
                " config_patches; max is 3",
            ),
        );
        proof {
            assert(issue_views(issues@) =~= before + generation_issues(all, all[i as int]));
        }
    }
    let ghost part1 = issue_views(issues@);
    assert(part1 == per_generation_issues(all, all.len() as int));
    for i in 0..n
        invariant
            n == generations.len(),
            all == generations@,
            issue_views(issues@) == part1 + duplicate_issues(all, i as int),
            forall|k: int| 0 <= k < issues@.len() ==> (#[trigger] issues@[k]).severity@ == "error"@,
    {
        let ghost before = issue_views(issues@);
        let first = is_first_of_id(generations, i);
        let count = count_id(generations, &generations[i].id);
        let id = &generations[i].id;
        push_issue_if(
            &mut issues,
            first && count > 1,
            "duplicate_generation_id",
            concat(&concat(&concat(&concat("generation id '", id), "' appears "), &usize_to_string(count)), " times"),
        );
        proof {
            assert(issue_views(issues@) =~= part1 + duplicate_issues(all, i + 1));
        }
    }
    let ghost part2 = issue_views(issues@);
    for i in 0..n
        invariant
            n == generations.len(),
            all == generations@,
            rels == relations@,
            issue_views(issues@) == part2 + missing_relation_issues(all, rels, i as int),
            forall|k: int| 0 <= k < issues@.len() ==> (#[trigger] issues@[k]).severity@ == "error"@,
    {
        let g = &generations[i];
        match &g.parent_id {
            Some(p) => {
                let cond = contains_id(generations, p) && !contains_edge(relations, p, &g.id);
                push_issue_if(
                    &mut issues,
                    cond,
                    "missing_relation",
                    concat(
                        &concat(&concat(&concat("generation '", &g.id), "' has parent '"), p),
                        "' but no relation edge",
                    ),
                );
            },
            None => {},
        }
        proof {
            assert(issue_views(issues@) =~= part2 + missing_relation_issues(all, rels, i + 1));
        }
    }
    let ghost part3 = issue_views(issues@);
    let m = relations.len();
    for i in 0..m
        invariant
            m == relations.len(),
            all == generations@,
            rels == relations@,
            issue_views(issues@) == part3 + endpoint_issues(all, rels, i as int),
            forall|k: int| 0 <= k < issues@.len() ==> (#[trigger] issues@[k]).severity@ == "error"@,
    {
        let r = &relations[i];
        let ghost before = issue_views(issues@);
        let head = concat(&concat(&concat("relation ", &r.from), " -> "), &r.to);
        let no_from = !contains_id(generations, &r.from);
        push_issue_if(&mut issues, no_from, "relation_missing_from", concat(&head, " has missing from endpoint"));
        let no_to = !contains_id(generations, &r.to);
        push_issue_if(&mut issues, no_to, "relation_missing_to", concat(&head, " has missing to endpoint"));
        proof {
            assert(issue_views(issues@) =~= part3 + endpoint_issues(all, rels, i + 1));
        }
    }
    proof {
        assert(issue_views(issues@) =~= spec_fsck_issues(all, rels));
        assert forall|k: int| 0 <= k < rels.len() implies spec_fsck_issues(all, rels).len() == 0 ==> (exists|j: int|
            0 <= j < all.len() && all[j].id@ == (#[trigger] rels[k]).from@) && (exists|j: int|
            0 <= j < all.len() && all[j].id@ == rels[k].to@) by {
            law_fsck_checks_relation_endpoints(all, rels, k);
        }
    }
    let count = issues.len();
    FsckReport {
        ok: count == 0,
        generation_count: n,
        relation_count: m,
        issue_count: count,
        issues,
    }
}

/// The outcome of `fsck`: success when the report is clean, else an error
/// that gives the number of issues.
pub fn fsck_outcome(report: &FsckReport) -> (r: CliResult<()>)
    ensures
        report.ok ==> r is Ok,
        !report.ok ==> (r matches Err(CliError::Error(m)) && m@ == "fsck found "@ + decimal(
            report.issue_count as nat,
        ) + " issue(s)"@),
{
    if report.ok {
        Ok(())
    } else {
        Err(CliError::Error(concat(&concat("fsck found ", &usize_to_string(report.issue_count)), " issue(s)")))
    }
}

/// The issue lines of the first `k` issues: `code: message`.
pub open spec fn issue_lines(issues: Seq<FsckIssue>, k: int) -> Seq<char>
    decreases k,
{
    if k <= 0 || k > issues.len() {
        seq![]
    } else {
        issue_lines(issues, k - 1) + issues[k - 1].code@ + ": "@ + issues[k - 1].message@ + "\n"@
    }
}

/// The text form of a report.
pub open spec fn spec_fsck_text(r: FsckReport) -> Seq<char> {
    if r.ok {
        "ok: "@ + decimal(r.generation_count as nat) + " generations, "@ + decimal(
            r.relation_count as nat,
        ) + " relations\n"@
    } else {
        "not ok: "@ + decimal(r.issue_count as nat) + " issue(s), "@ + decimal(
            r.generation_count as nat,
        ) + " generations, "@ + decimal(r.relation_count as nat) + " relations\n"@ + issue_lines(
            r.issues@,
            r.issues@.len() as int,
        )
    }
}

/// The text that `glctl fsck` prints without `--json`.
pub fn fsck_text(r: &FsckReport) -> (t: String)
    ensures
        t@ == spec_fsck_text(*r),
{
    let mut v: Vec<char> = Vec::new();
    if r.ok {
        push_str(&mut v, "ok: ");
        push_str(&mut v, &usize_to_string(r.generation_count));
        push_str(&mut v, " generations, ");
        push_str(&mut v, &usize_to_string(r.relation_count));
        push_str(&mut v, " relations\n");
        proof {
            assert(v@ =~= spec_fsck_text(*r));
        }
        return string_of(v.as_slice());
    }
    push_str(&mut v, "not ok: ");
    push_str(&mut v, &usize_to_string(r.issue_count));
    push_str(&mut v, " issue(s), ");
    push_str(&mut v, &usize_to_string(r.generation_count));
    push_str(&mut v, " generations, ");
    push_str(&mut v, &usize_to_string(r.relation_count));
    push_str(&mut v, " relations\n");
    let ghost head = v@;
    for i in 0..r.issues.len()
        invariant
            v@ == head + issue_lines(r.issues@, i as int),
    {
        let ghost before = v@;
        push_str(&mut v, &r.issues[i].code);
        push_str(&mut v, ": ");
        push_str(&mut v, &r.issues[i].message);
        push_str(&mut v, "\n");
        proof {
            assert(v@ =~= head + issue_lines(r.issues@, i + 1));
        }
    }
    proof {
        assert(v@ =~= spec_fsck_text(*r));
    }
    string_of(v.as_slice())
}

/// The checks of one generation find nothing: its id has the form
/// `gen-YYYYMMDD-NNN`, its score is a finite value in `[0.0, 1.0]`, its
/// parent (if any) has a record in `all`, and it has at most three
/// configuration patches.
pub open spec fn generation_is_clean(all: Seq<Generation>, g: Generation) -> bool {
    &&& spec_valid_generation_id(g.id@)
    &&& bits_in_unit_interval(g.metrics.score.bits) && bits_finite(g.metrics.score.bits)
    &&& (g.parent_id matches Some(p) ==> has_id(all, p@))
    &&& g.config_patches@.len() <= 3
}

/// Where the parent of `g` has a record, an edge goes from it to `g`.
pub open spec fn parent_edge_recorded(all: Seq<Generation>, rels: Seq<Relation>, g: Generation) -> bool {
    g.parent_id matches Some(p) ==> (has_id(all, p@) ==> has_edge(rels, p@, g.id@))
}

/// Both endpoints of `r` have a record in `all`.
pub open spec fn endpoints_found(all: Seq<Generation>, r: Relation) -> bool {
    has_id(all, r.from@) && has_id(all, r.to@)
}

proof fn lemma_has_id_push(all: Seq<Generation>, g: Generation, id: Seq<char>)
    ensures
        has_id(all.push(g), id) <==> (has_id(all, id) || g.id@ == id),
{
    let all2 = all.push(g);
    if has_id(all, id) {
        let k = choose|k: int| 0 <= k < all.len() && (#[trigger] all[k]).id@ == id;
        assert(all2[k] == all[k]);
    }
    if g.id@ == id {
        assert(all2[all.len() as int] == g);
    }
    if has_id(all2, id) {
        let k = choose|k: int| 0 <= k < all2.len() && (#[trigger] all2[k]).id@ == id;
        if k < all.len() {
            assert(all2[k] == all[k]);
        }
    }
}

proof fn lemma_has_edge_push(rels: Seq<Relation>, r: Relation, from: Seq<char>, to: Seq<char>)
    ensures
        has_edge(rels.push(r), from, to) <==> (has_edge(rels, from, to) || (r.from@ == from
            && r.to@ == to)),
{
    let rels2 = rels.push(r);
    if has_edge(rels, from, to) {
        let k = choose|k: int| 0 <= k < rels.len() && (#[trigger] rels[k]).from@ == from && rels[k].to@ == to;
        assert(rels2[k] == rels[k]);
    }
    if r.from@ == from && r.to@ == to {
        assert(rels2[rels.len() as int] == r);
    }
    if has_edge(rels2, from, to) {
        let k = choose|k: int| 0 <= k < rels2.len() && (#[trigger] rels2[k]).from@ == from && rels2[k].to@ == to;
        if k < rels.len() {
            assert(rels2[k] == rels[k]);
        }
    }
}

proof fn lemma_per_generation_clean(all: Seq<Generation>, n: int)
    requires
        0 <= n <= all.len(),
    ensures
        per_generation_issues(all, n).len() == 0 <==> forall|k: int|
            0 <= k < n ==> generation_is_clean(all, #[trigger] all[k]),
    decreases n,
{
    if n > 0 {
        lemma_per_generation_clean(all, n - 1);
        let g = all[n - 1];
        assert(generation_issues(all, g).len() == 0 <==> generation_is_clean(all, g));
    }
}

proof fn lemma_id_count_push(all: Seq<Generation>, g: Generation, id: Seq<char>)
    ensures
        id_count(all.push(g), id) == id_count(all, id) + if g.id@ == id {
            1nat
        } else {
            0nat
        },
{
    assert(all.push(g).drop_last() =~= all);
}

proof fn lemma_id_count_absent(all: Seq<Generation>, id: Seq<char>)
    requires
        !has_id(all, id),
    ensures
        id_count(all, id) == 0,
    decreases all.len(),
{
    if all.len() > 0 {
        assert forall|k: int| 0 <= k < all.drop_last().len() implies (#[trigger] all.drop_last()[k]).id@ != id by {
            assert(all.drop_last()[k] == all[k]);
        }
        lemma_id_count_absent(all.drop_last(), id);
        assert(all[all.len() - 1].id@ != id);
    }
}

proof fn lemma_duplicates_clean(all: Seq<Generation>, n: int)
    requires
        0 <= n <= all.len(),
    ensures
        duplicate_issues(all, n).len() == 0 <==> forall|k: int|
            0 <= k < n && first_of_id(all, k) ==> id_count(all, (#[trigger] all[k]).id@) <= 1,
    decreases n,
{
    if n > 0 {
        lemma_duplicates_clean(all, n - 1);
    }
}

proof fn lemma_missing_relations_clean(all: Seq<Generation>, rels: Seq<Relation>, n: int)
    requires
        0 <= n <= all.len(),
    ensures
        missing_relation_issues(all, rels, n).len() == 0 <==> forall|k: int|
            0 <= k < n ==> parent_edge_recorded(all, rels, #[trigger] all[k]),
    decreases n,
{
    if n > 0 {
        lemma_missing_relations_clean(all, rels, n - 1);
    }
}

proof fn lemma_endpoints_clean(all: Seq<Generation>, rels: Seq<Relation>, n: int)
    requires
        0 <= n <= rels.len(),
    ensures
        endpoint_issues(all, rels, n).len() == 0 <==> forall|k: int|
            0 <= k < n ==> endpoints_found(all, #[trigger] rels[k]),
    decreases n,
{
    if n > 0 {
        lemma_endpoints_clean(all, rels, n - 1);
    }
}

/// A finite score in `[0.0, 1.0]`: every bit pattern of the unit interval
/// is finite.
proof fn lemma_unit_interval_is_finite(bits: u64)
    requires
        bits_in_unit_interval(bits),
    ensures
        bits_finite(bits),
{
    if bits == 0x8000_0000_0000_0000 {
        assert(bits as int % sign_bit() == 0);
    } else {
        assert(bits as int % sign_bit() == bits as int);
    }
}

/// `glctl new` keeps a clean repository clean: where `fsck` finds nothing
/// in `all` and `rels`, it finds nothing after a new generation `g` is
/// added together with the relation `rel` that `parent_relation` makes for
/// it, provided that the id of `g` is well formed and not yet taken (as
/// `next_generation_id` gives), that `validate_new` accepted its score, that
/// its parent has a record, and that it has at most three configuration
/// patches.
pub proof fn law_new_keeps_repository_clean(
    all: Seq<Generation>,
    rels: Seq<Relation>,
    g: Generation,
    rel: Option<Relation>,
)
    requires
        spec_fsck_issues(all, rels) == Seq::<IssueView>::empty(),
        spec_valid_generation_id(g.id@),
        !has_id(all, g.id@),
        bits_in_unit_interval(g.metrics.score.bits),
        g.parent_id matches Some(p) ==> has_id(all, p@),
        g.config_patches@.len() <= 3,
        rel is Some <==> g.parent_id is Some,
        rel matches Some(r) ==> r.from@ == g.parent_id->0@ && r.to@ == g.id@,
    ensures
        spec_fsck_issues(
            all.push(g),
            match rel {
                Some(r) => rels.push(r),
                None => rels,
            },
        ) == Seq::<IssueView>::empty(),
{
    let all2 = all.push(g);
    let rels2 = match rel {
        Some(r) => rels.push(r),
        None => rels,
    };
    let n = all.len() as int;
    let m = rels.len() as int;
    assert(per_generation_issues(all, n).len() == 0);
    assert(duplicate_issues(all, n).len() == 0);
    assert(missing_relation_issues(all, rels, n).len() == 0);
    assert(endpoint_issues(all, rels, m).len() == 0);
    lemma_per_generation_clean(all, n);
    lemma_duplicates_clean(all, n);
    lemma_missing_relations_clean(all, rels, n);
    lemma_endpoints_clean(all, rels, m);
    lemma_unit_interval_is_finite(g.metrics.score.bits);
    // Which ids and edges exist after the addition.
    assert forall|id: Seq<char>| #[trigger] has_id(all2, id) <==> (has_id(all, id) || g.id@ == id) by {
        lemma_has_id_push(all, g, id);
    }
    assert forall|f: Seq<char>, t: Seq<char>| has_edge(rels, f, t) implies #[trigger] has_edge(rels2, f, t) by {
        match rel {
            Some(r) => lemma_has_edge_push(rels, r, f, t),
            None => {},
        }
    }
    // The checks of each generation.
    assert forall|k: int| 0 <= k < n + 1 implies generation_is_clean(all2, #[trigger] all2[k]) by {
        if k < n {
            assert(all2[k] == all[k]);
            assert(generation_is_clean(all, all[k]));
        } else {
            assert(all2[k] == g);
        }
    }
    lemma_per_generation_clean(all2, n + 1);
    // Duplicate ids.
    assert forall|k: int| 0 <= k < n + 1 && first_of_id(all2, k) implies id_count(
        all2,
        (#[trigger] all2[k]).id@,
    ) <= 1 by {
        lemma_id_count_push(all, g, all2[k].id@);
        if k < n {
            assert(all2[k] == all[k]);
            assert forall|j: int| 0 <= j < k implies (#[trigger] all[j]).id@ != all[k].id@ by {
                assert(all2[j] == all[j]);
            }
            assert(first_of_id(all, k));
            assert(all[k].id@ != g.id@);
        } else {
            assert(all2[k] == g);
            lemma_id_count_absent(all, g.id@);
        }
    }
    lemma_duplicates_clean(all2, n + 1);
    // Parent edges.
    assert forall|k: int| 0 <= k < n + 1 implies parent_edge_recorded(all2, rels2, #[trigger] all2[k]) by {
        if k < n {
            assert(all2[k] == all[k]);
            assert(generation_is_clean(all, all[k]));
            assert(parent_edge_recorded(all, rels, all[k]));
        } else {
            assert(all2[k] == g);
            if let Some(r) = rel {
                lemma_has_edge_push(rels, r, r.from@, r.to@);
            }
        }
    }
    lemma_missing_relations_clean(all2, rels2, n + 1);
    // Relation endpoints.
    assert forall|k: int| 0 <= k < rels2.len() implies endpoints_found(all2, #[trigger] rels2[k]) by {
        if k < m {
            assert(rels2[k] == rels[k]);
            assert(endpoints_found(all, rels[k]));
        } else {
            assert(rels2[k] == rel->0);
        }
    }
    lemma_endpoints_clean(all2, rels2, rels2.len() as int);
    assert(spec_fsck_issues(all2, rels2) =~= Seq::<IssueView>::empty());
}

/// The issue of relation `k` with a missing `from` endpoint lies in the
/// endpoint issues of the first `n` relations, and so does the one with a
/// missing `to` endpoint.
proof fn lemma_endpoint_issue_listed(all: Seq<Generation>, rels: Seq<Relation>, n: int, k: int)
    requires
        0 <= k < n <= rels.len(),
    ensures
        !has_id(all, rels[k].from@) ==> endpoint_issues(all, rels, n).contains(
            (
                "relation_missing_from"@,
                "relation "@ + rels[k].from@ + " -> "@ + rels[k].to@ + " has missing from endpoint"@,
            ),
        ),
        !has_id(all, rels[k].to@) ==> endpoint_issues(all, rels, n).contains(
            (
                "relation_missing_to"@,
                "relation "@ + rels[k].from@ + " -> "@ + rels[k].to@ + " has missing to endpoint"@,
            ),
        ),
    decreases n,
{
    let from_issue = (
        "relation_missing_from"@,
        "relation "@ + rels[k].from@ + " -> "@ + rels[k].to@ + " has missing from endpoint"@,
    );
    let to_issue = (
        "relation_missing_to"@,
        "relation "@ + rels[k].from@ + " -> "@ + rels[k].to@ + " has missing to endpoint"@,
    );
    let prev = endpoint_issues(all, rels, n - 1);
    let r = rels[n - 1];
    let a = issue_if(
        !has_id(all, r.from@),
        "relation_missing_from"@,
        "relation "@ + r.from@ + " -> "@ + r.to@ + " has missing from endpoint"@,
    );
    let b = issue_if(
        !has_id(all, r.to@),
        "relation_missing_to"@,
        "relation "@ + r.from@ + " -> "@ + r.to@ + " has missing to endpoint"@,
    );
    let whole = endpoint_issues(all, rels, n);
    assert(whole == prev + a + b);
    if k < n - 1 {
        lemma_endpoint_issue_listed(all, rels, n - 1, k);
        if !has_id(all, rels[k].from@) {
            let i = choose|i: int| 0 <= i < prev.len() && prev[i] == from_issue;
            assert(whole[i] == from_issue);
        }
        if !has_id(all, rels[k].to@) {
            let i = choose|i: int| 0 <= i < prev.len() && prev[i] == to_issue;
            assert(whole[i] == to_issue);
        }
    } else {
        if !has_id(all, rels[k].from@) {
            assert(whole[prev.len() as int] == from_issue);
        }
        if !has_id(all, rels[k].to@) {
            assert(whole[prev.len() + a.len() as int] == to_issue);
        }
    }
}

/// `fsck` checks both endpoints of every relation: a relation whose `from`
/// or `to` is the id of no generation gets an issue `relation_missing_from`
/// or `relation_missing_to` that names it, so a repository is reported
/// clean only when every relation joins two generations.
pub proof fn law_fsck_checks_relation_endpoints(all: Seq<Generation>, rels: Seq<Relation>, k: int)
    requires
        0 <= k < rels.len(),
    ensures
        !(exists|j: int| 0 <= j < all.len() && all[j].id@ == rels[k].from@) ==> spec_fsck_issues(
            all,
            rels,
        ).contains(
            (
                "relation_missing_from"@,
                "relation "@ + rels[k].from@ + " -> "@ + rels[k].to@ + " has missing from endpoint"@,
            ),
        ),
        !(exists|j: int| 0 <= j < all.len() && all[j].id@ == rels[k].to@) ==> spec_fsck_issues(
            all,
            rels,
        ).contains(
            (
                "relation_missing_to"@,
                "relation "@ + rels[k].from@ + " -> "@ + rels[k].to@ + " has missing to endpoint"@,
            ),
        ),
        spec_fsck_issues(all, rels).len() == 0 ==> (exists|j: int|
            0 <= j < all.len() && all[j].id@ == rels[k].from@) && (exists|j: int|
            0 <= j < all.len() && all[j].id@ == rels[k].to@),
{
    lemma_endpoint_issue_listed(all, rels, rels.len() as int, k);
    let head = per_generation_issues(all, all.len() as int) + duplicate_issues(all, all.len() as int)
        + missing_relation_issues(all, rels, all.len() as int);
    let tail = endpoint_issues(all, rels, rels.len() as int);
    let whole = spec_fsck_issues(all, rels);
    assert(whole == head + tail);
    if !has_id(all, rels[k].from@) {
        let x = (
            "relation_missing_from"@,
            "relation "@ + rels[k].from@ + " -> "@ + rels[k].to@ + " has missing from endpoint"@,
        );
        let i = choose|i: int| 0 <= i < tail.len() && tail[i] == x;
        assert(whole[head.len() as int + i] == x);
    }
    if !has_id(all, rels[k].to@) {
        let x = (
            "relation_missing_to"@,
            "relation "@ + rels[k].from@ + " -> "@ + rels[k].to@ + " has missing to endpoint"@,
        );
        let i = choose|i: int| 0 <= i < tail.len() && tail[i] == x;
        assert(whole[head.len() as int + i] == x);
    }
}

} // verus!
