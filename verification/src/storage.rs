//! The layout of the company-scoped lineage store and the choice of new
//! generation ids.
//!
//! Layout: `{data_dir}/companies/{company_id}/generations/{id}.yaml` and
//! `{data_dir}/companies/{company_id}/generations/relations/{from}-{to}.yaml`.

use vstd::prelude::*;
use crate::error::{CliError, CliResult};
use crate::text::{
    all_digits, is_digit, lemma_decimal_digits, lemma_parse_zero_padded, chars_of, concat, decimal, ends_with, has_prefix, has_suffix, parse_u32,
    parsed_u32, slice_chars, starts_with, string_of, views, zero_padded, zero_padded3,
};
use crate::time::{in_four_digit_years, utc_date_text, Timestamp};
use crate::commands::fsck::spec_valid_generation_id;

verus! {

/// `PathBuf::join` on Unix: an absolute `part` replaces `base`; otherwise a
/// `/` is put between them unless `base` is empty or already ends in one.
pub open spec fn spec_path_join(base: Seq<char>, part: Seq<char>) -> Seq<char> {
    if part.len() > 0 && part[0] == '/' {
        part
    } else if base.len() == 0 || base.last() == '/' {
        base + part
    } else {
        base + seq!['/'] + part
    }
}

/// Joins `part` onto the path `base`, as `PathBuf::join` does on Unix.
pub fn path_join(base: &str, part: &str) -> (p: String)
    ensures
        p@ == spec_path_join(base@, part@),
{
    let b = chars_of(base);
    let mut q = chars_of(part);
    if q.len() > 0 && q[0] == '/' {
        return string_of(q.as_slice());
    }
    let mut v = b;
    if v.len() > 0 && v[v.len() - 1] != '/' {
        v.push('/');
    }
    v.append(&mut q);
    proof {
        if base@.len() == 0 || base@.last() == '/' {
            assert(v@ =~= base@ + part@);
        } else {
            assert(v@ =~= base@ + seq!['/'] + part@);
        }
    }
    string_of(v.as_slice())
}

/// The data root when none is configured.
pub open spec fn default_data_dir() -> Seq<char> {
    "./data/glctl"@
}

/// The data root: the value of `GLCTL_DATA_DIR` where it is set and not
/// empty, else `./data/glctl`.
pub fn data_dir(configured: Option<&str>) -> (d: String)
    ensures
        d@ == (match configured {
            Some(p) => if p@.len() > 0 { p@ } else { default_data_dir() },
            None => default_data_dir(),
        }),
{
    match configured {
        Some(p) => {
            if !p.is_empty() {
                p.to_string()
            } else {
                "./data/glctl".to_string()
            }
        },
        None => "./data/glctl".to_string(),
    }
}

/// A character that a company id may hold: an ASCII letter or digit, `_`
/// or `-`.
pub open spec fn company_id_char(c: char) -> bool {
    ('a' <= c <= 'z') || ('A' <= c <= 'Z') || ('0' <= c <= '9') || c == '_' || c == '-'
}

/// A company id that scopes the store: not empty, and made of ASCII letters,
/// digits, `_` and `-` only.
pub open spec fn valid_company_id(id: Seq<char>) -> bool {
    id.len() > 0 && forall|i: int| 0 <= i < id.len() ==> company_id_char(#[trigger] id[i])
}

/// The error when no company scope is set.
pub open spec fn missing_company_message() -> Seq<char> {
    "GLCTL_COMPANY_ID must be set"@
}

/// The error for a company id with other characters.
pub open spec fn invalid_company_message(id: Seq<char>) -> Seq<char> {
    "invalid GLCTL_COMPANY_ID '"@ + id + "': use ASCII letters, digits, '_' and '-' only"@
}

/// The company scope from the value of `GLCTL_COMPANY_ID`: it is required,
/// and it must be a valid company id.
pub fn company_id(configured: Option<&str>) -> (r: CliResult<String>)
    ensures
        (configured is None || configured->0@.len() == 0) ==> (r matches Err(CliError::Error(m))
            && m@ == missing_company_message()),
        configured is Some && configured->0@.len() > 0 && valid_company_id(configured->0@) ==> (r matches Ok(s)
            && s@ == configured->0@),
        configured is Some && configured->0@.len() > 0 && !valid_company_id(configured->0@) ==> (r matches Err(
            CliError::Error(m),
        ) && m@ == invalid_company_message(configured->0@)),
{
    match configured {
        None => Err(CliError::Error("GLCTL_COMPANY_ID must be set".to_string())),
        Some(id) => {
            let cs = chars_of(id);
            if cs.len() == 0 {
                return Err(CliError::Error("GLCTL_COMPANY_ID must be set".to_string()));
            }
            for i in 0..cs.len()
                invariant
                    cs@ == id@,
                    configured == Some(id),
                    id@.len() > 0,
                    forall|k: int| 0 <= k < i ==> company_id_char(#[trigger] cs@[k]),
            {
                let c = cs[i];
                if !(('a' <= c && c <= 'z') || ('A' <= c && c <= 'Z') || ('0' <= c && c <= '9')
                    || c == '_' || c == '-') {
                    proof {
                        assert(!company_id_char(id@[i as int]));
                        assert(!valid_company_id(id@));
                    }
                    let m = concat(&concat("invalid GLCTL_COMPANY_ID '", id), "': use ASCII letters, digits, '_' and '-' only");
                    return Err(CliError::Error(m));
                }
            }
            Ok(id.to_string())
        },
    }
}

/// The directory of one company: `{data_dir}/companies/{company_id}`.
pub open spec fn spec_company_dir(data_dir: Seq<char>, company_id: Seq<char>) -> Seq<char> {
    spec_path_join(spec_path_join(data_dir, "companies"@), company_id)
}

/// The generations directory under a company directory.
pub open spec fn spec_generations_dir(company_dir: Seq<char>) -> Seq<char> {
    spec_path_join(company_dir, "generations"@)
}

/// The relations directory under a company directory.
pub open spec fn spec_relations_dir(company_dir: Seq<char>) -> Seq<char> {
    spec_path_join(spec_generations_dir(company_dir), "relations"@)
}

/// The file of generation `id`.
pub open spec fn spec_generation_path(company_dir: Seq<char>, id: Seq<char>) -> Seq<char> {
    spec_path_join(spec_generations_dir(company_dir), id + ".yaml"@)
}

/// The file of the relation from `from` to `to`.
pub open spec fn spec_relation_path(company_dir: Seq<char>, from: Seq<char>, to: Seq<char>) -> Seq<
    char,
> {
    spec_path_join(spec_relations_dir(company_dir), from + "-"@ + to + ".yaml"@)
}

/// The directory of one company.
pub fn company_dir(data_dir: &str, company_id: &str) -> (p: String)
    ensures
        p@ == spec_company_dir(data_dir@, company_id@),
{
    path_join(&path_join(data_dir, "companies"), company_id)
}

/// The directory that holds the generation records of a company.
pub fn generations_dir(company_dir: &str) -> (p: String)
    ensures
        p@ == spec_generations_dir(company_dir@),
{
    path_join(company_dir, "generations")
}

/// The directory that holds the relation records of a company.
pub fn relations_dir(company_dir: &str) -> (p: String)
    ensures
        p@ == spec_relations_dir(company_dir@),
{
    path_join(&generations_dir(company_dir), "relations")
}

/// The record file of generation `id`.
pub fn generation_path(company_dir: &str, id: &str) -> (p: String)
    ensures
        p@ == spec_generation_path(company_dir@, id@),
{
    path_join(&generations_dir(company_dir), &concat(id, ".yaml"))
}

/// The record file of the relation from `from` to `to`.
pub fn relation_path(company_dir: &str, from: &str, to: &str) -> (p: String)
    ensures
        p@ == spec_relation_path(company_dir@, from@, to@),
{
    let name = concat(&concat(&concat(from, "-"), to), ".yaml");
    path_join(&relations_dir(company_dir), &name)
}

/// A directory entry is a record when its name ends in `.yaml`.
pub open spec fn is_record_name(name: Seq<char>) -> bool {
    ends_with(name, ".yaml"@)
}

/// Whether a directory entry with this name holds a record.
pub fn is_record_file_name(name: &str) -> (r: bool)
    ensures
        r == is_record_name(name@),
{
    let cs = chars_of(name);
    let suffix = chars_of(".yaml");
    has_suffix(cs.as_slice(), suffix.as_slice())
}

/// The number of records among the directory entries, each given by its
/// name and whether it is a regular file.
pub open spec fn spec_record_count(entries: Seq<(String, bool)>) -> nat
    decreases entries.len(),
{
    if entries.len() == 0 {
        0
    } else {
        let e = entries.last();
        spec_record_count(entries.drop_last()) + if e.1 && is_record_name(e.0@) {
            1nat
        } else {
            0nat
        }
    }
}

/// Counts the record files among directory entries.
pub fn count_records(entries: &Vec<(String, bool)>) -> (n: usize)
    ensures
        n == spec_record_count(entries@),
{
    let mut n: usize = 0;
    for i in 0..entries.len()
        invariant
            n == spec_record_count(entries@.take(i as int)),
            n <= i,
    {
        proof {
            assert(entries@.take(i + 1).drop_last() =~= entries@.take(i as int));
        }
        if entries[i].1 && is_record_file_name(&entries[i].0) {
            n = n + 1;
        }
    }
    proof {
        assert(entries@.take(entries.len() as int) =~= entries@);
    }
    n
}

/// The id prefix of the generations of one day: `gen-{date}-`.
pub open spec fn day_prefix(date: Seq<char>) -> Seq<char> {
    "gen-"@ + date + "-"@
}

/// The sequence number of a directory entry among the ids of one day: the
/// entry is a record named `{prefix}{n}.yaml` with `n` a `u32` as
/// `str::parse` reads it.
pub open spec fn same_day_seq(name: Seq<char>, prefix: Seq<char>) -> Option<u32> {
    if is_record_name(name) {
        let stem = name.take(name.len() - 5);
        if starts_with(stem, prefix) {
            parsed_u32(stem.skip(prefix.len() as int))
        } else {
            None
        }
    } else {
        None
    }
}

/// The largest sequence number of the day among the names, or 0.
pub open spec fn max_same_day_seq(names: Seq<Seq<char>>, prefix: Seq<char>) -> u32
    decreases names.len(),
{
    if names.len() == 0 {
        0
    } else {
        let m = max_same_day_seq(names.drop_last(), prefix);
        match same_day_seq(names.last(), prefix) {
            Some(n) => if n > m {
                n
            } else {
                m
            },
            None => m,
        }
    }
}

/// The generation id `gen-{date}-{seq:03}`.
pub open spec fn spec_generation_id(date: Seq<char>, seq: nat) -> Seq<char> {
    day_prefix(date) + zero_padded(decimal(seq), 3)
}

/// The sequence number of one directory entry among the ids of a day.
fn entry_seq(name: &str, prefix: &Vec<char>) -> (r: Option<u32>)
    ensures
        r == same_day_seq(name@, prefix@),
{
    if !is_record_file_name(name) {
        return None;
    }
    let cs = chars_of(name);
    proof {
        reveal_strlit(".yaml");
    }
    let stem = slice_chars(cs.as_slice(), 0, cs.len() - 5);
    proof {
        assert(stem@ =~= name@.take(name@.len() - 5));
    }
    if !has_prefix(stem.as_slice(), prefix.as_slice()) {
        return None;
    }
    let rest = slice_chars(stem.as_slice(), prefix.len(), stem.len());
    proof {
        assert(rest@ =~= stem@.skip(prefix@.len() as int));
    }
    parse_u32(rest.as_slice())
}

/// The largest sequence number of the day with id prefix `prefix` among the
/// entry names, or 0.
fn day_max_seq(names: &Vec<String>, prefix: &Vec<char>) -> (m: u32)
    ensures
        m == max_same_day_seq(views(names@), prefix@),
{
    let mut max_seq: u32 = 0;
    for i in 0..names.len()
        invariant
            max_seq == max_same_day_seq(views(names@).take(i as int), prefix@),
    {
        proof {
            assert(views(names@).take(i + 1).drop_last() =~= views(names@).take(i as int));
            assert(views(names@).take(i + 1).last() == names@[i as int]@);
        }
        match entry_seq(&names[i], prefix) {
            Some(n) => {
                if n > max_seq {
                    max_seq = n;
                }
            },
            None => {},
        }
    }
    proof {
        assert(views(names@).take(names.len() as int) =~= views(names@));
    }
    max_seq
}

/// The id `gen-{date}-{seq:03}` spelled from the day prefix `gen-{date}-`.
fn id_from_prefix(prefix: Vec<char>, seq: u32, Ghost(date): Ghost<Seq<char>>) -> (id: String)
    requires
        prefix@ == day_prefix(date),
    ensures
        id@ == spec_generation_id(date, seq as nat),
{
    let mut v = prefix;
    let mut digits = zero_padded3(seq);
    v.append(&mut digits);
    string_of(v.as_slice())
}

/// The id of the next generation of the day `date` (`YYYYMMDD`), given the
/// names of the entries of the generations directory: the largest sequence
/// number of that day among the record files, plus one, zero-padded to three
/// digits.
pub fn next_generation_id_for_date(date: &str, names: &Vec<String>) -> (id: String)
    requires
        max_same_day_seq(views(names@), day_prefix(date@)) < u32::MAX,
    ensures
        id@ == spec_generation_id(date@, (max_same_day_seq(views(names@), day_prefix(date@)) + 1) as nat),
{
    let prefix = chars_of(&concat(&concat("gen-", date), "-"));
    let max_seq = day_max_seq(names, &prefix);
    id_from_prefix(prefix, max_seq + 1, Ghost(date@))
}

/// The id of the next generation created at `now`, given the names of the
/// entries of the generations directory; `None` when the day already holds
/// sequence number `u32::MAX`, which has no successor. In the years 0000 to
/// 9999, and while the day holds fewer than 999 generations, the id passes
/// the id check of `fsck`.
pub fn next_generation_id(now: &Timestamp, names: &Vec<String>) -> (r: Option<String>)
    ensures
        ({
            let date = utc_date_text(now.spec_secs(), now.spec_nanos());
            let m = max_same_day_seq(views(names@), day_prefix(date));
            &&& r is None <==> m == u32::MAX
            &&& r matches Some(id) ==> id@ == spec_generation_id(date, (m + 1) as nat)
            &&& r matches Some(id) ==> (in_four_digit_years(now.spec_secs()) && m < 999
                ==> spec_valid_generation_id(id@))
        }),
{
    let date = now.date_yyyymmdd();
    let prefix = chars_of(&concat(&concat("gen-", &date), "-"));
    let max_seq = day_max_seq(names, &prefix);
    if max_seq == u32::MAX {
        None
    } else {
        proof {
            if in_four_digit_years(now.spec_secs()) && max_seq < 999 {
                law_next_id_is_well_formed(date@, views(names@));
            }
        }
        Some(id_from_prefix(prefix, max_seq + 1, Ghost(date@)))
    }
}

/// A path that does not start with `/` is joined below its base.
pub open spec fn is_relative(p: Seq<char>) -> bool {
    !(p.len() > 0 && p[0] == '/')
}

/// The companies directory under the data root ends in `companies`, so a
/// relative part is joined onto it after a `/`.
proof fn lemma_company_dir_shape(data_dir: Seq<char>, c: Seq<char>)
    requires
        valid_company_id(c),
    ensures
        spec_company_dir(data_dir, c) == spec_path_join(data_dir, "companies"@) + seq!['/'] + c,
        spec_path_join(data_dir, "companies"@).len() > 0,
        spec_company_dir(data_dir, c).len() > 0,
        spec_company_dir(data_dir, c).last() != '/',
{
    reveal_strlit("companies");
    let d = spec_path_join(data_dir, "companies"@);
    assert(d.last() == 's');
    assert(company_id_char(c[0]));
    assert(company_id_char(c[c.len() - 1]));
    assert((d + seq!['/'] + c).last() == c[c.len() - 1]);
}

/// Two directories `{root}/{c1}` and `{root}/{c2}` of different valid company
/// ids share no path below them.
proof fn lemma_distinct_company_subtrees(
    root: Seq<char>,
    c1: Seq<char>,
    c2: Seq<char>,
    t1: Seq<char>,
    t2: Seq<char>,
)
    requires
        valid_company_id(c1),
        valid_company_id(c2),
        c1 != c2,
    ensures
        root + seq!['/'] + c1 + seq!['/'] + t1 != root + seq!['/'] + c2 + seq!['/'] + t2,
{
    let p1 = root + seq!['/'] + c1 + seq!['/'] + t1;
    let p2 = root + seq!['/'] + c2 + seq!['/'] + t2;
    let base: int = root.len() as int + 1;
    if p1 == p2 {
        if c1.len() == c2.len() {
            assert forall|k: int| 0 <= k < c1.len() implies c1[k] == c2[k] by {
                assert(p1[base + k] == c1[k]);
                assert(p2[base + k] == c2[k]);
            }
            assert(c1 =~= c2);
        } else if c1.len() < c2.len() {
            assert(p1[base + c1.len()] == '/');
            assert(p2[base + c1.len()] == c2[c1.len() as int]);
            assert(company_id_char(c2[c1.len() as int]));
        } else {
            assert(p2[base + c2.len()] == '/');
            assert(p1[base + c2.len()] == c1[c2.len() as int]);
            assert(company_id_char(c1[c2.len() as int]));
        }
    }
}

/// Every read and write is scoped by the company: for a valid company id,
/// the file of a generation and the file of a relation (named by ids that do
/// not start with `/`) lie in `{company_dir}/generations/`, and no
/// generation file, nor relation file, of one company is one of another.
pub proof fn law_records_are_company_scoped(
    data_dir: Seq<char>,
    c1: Seq<char>,
    c2: Seq<char>,
    id1: Seq<char>,
    id2: Seq<char>,
    from1: Seq<char>,
    to1: Seq<char>,
    from2: Seq<char>,
    to2: Seq<char>,
)
    requires
        valid_company_id(c1),
        valid_company_id(c2),
        is_relative(id1),
        is_relative(id2),
        is_relative(from1),
        is_relative(from2),
    ensures
        starts_with(
            spec_generation_path(spec_company_dir(data_dir, c1), id1),
            spec_company_dir(data_dir, c1) + "/generations/"@,
        ),
        starts_with(
            spec_relation_path(spec_company_dir(data_dir, c1), from1, to1),
            spec_company_dir(data_dir, c1) + "/generations/"@,
        ),
        c1 != c2 ==> spec_generation_path(spec_company_dir(data_dir, c1), id1)
            != spec_generation_path(spec_company_dir(data_dir, c2), id2),
        c1 != c2 ==> spec_relation_path(spec_company_dir(data_dir, c1), from1, to1)
            != spec_relation_path(spec_company_dir(data_dir, c2), from2, to2),
{
    reveal_strlit("generations");
    reveal_strlit("relations");
    reveal_strlit(".yaml");
    reveal_strlit("-");
    reveal_strlit("/generations/");
    let root = spec_path_join(data_dir, "companies"@);
    lemma_company_dir_shape(data_dir, c1);
    lemma_company_dir_shape(data_dir, c2);
    let gen_tail = |id: Seq<char>| "generations"@ + seq!['/'] + (id + ".yaml"@);
    let rel_tail = |f: Seq<char>, t: Seq<char>|
        "generations"@ + seq!['/'] + "relations"@ + seq!['/'] + (f + "-"@ + t + ".yaml"@);
    assert forall|c: Seq<char>, id: Seq<char>| valid_company_id(c) && is_relative(id) implies
        #[trigger] spec_generation_path(spec_company_dir(data_dir, c), id)
            == root + seq!['/'] + c + seq!['/'] + gen_tail(id) by {
        lemma_company_dir_shape(data_dir, c);
        let cd = spec_company_dir(data_dir, c);
        let gd = cd + seq!['/'] + "generations"@;
        assert(spec_generations_dir(cd) == gd);
        assert(gd.last() == 's');
        assert((id + ".yaml"@)[0] != '/');
        assert(spec_generation_path(cd, id) =~= root + seq!['/'] + c + seq!['/'] + gen_tail(id));
    }
    assert forall|c: Seq<char>, f: Seq<char>, t: Seq<char>| valid_company_id(c) && is_relative(f) implies
        #[trigger] spec_relation_path(spec_company_dir(data_dir, c), f, t)
            == root + seq!['/'] + c + seq!['/'] + rel_tail(f, t) by {
        lemma_company_dir_shape(data_dir, c);
        let cd = spec_company_dir(data_dir, c);
        let gd = cd + seq!['/'] + "generations"@;
        assert(spec_generations_dir(cd) == gd);
        assert(gd.last() == 's');
        let rd = gd + seq!['/'] + "relations"@;
        assert(spec_relations_dir(cd) == rd);
        assert(rd.last() == 's');
        assert((f + "-"@ + t + ".yaml"@)[0] != '/');
        assert(spec_relation_path(cd, f, t) =~= root + seq!['/'] + c + seq!['/'] + rel_tail(f, t));
    }
    let cd1 = spec_company_dir(data_dir, c1);
    let g1 = spec_generation_path(cd1, id1);
    let r1 = spec_relation_path(cd1, from1, to1);
    assert(g1.take((cd1.len() + 13) as int) =~= cd1 + "/generations/"@);
    assert(r1.take((cd1.len() + 13) as int) =~= cd1 + "/generations/"@);
    if c1 != c2 {
        lemma_distinct_company_subtrees(root, c1, c2, gen_tail(id1), gen_tail(id2));
        lemma_distinct_company_subtrees(root, c1, c2, rel_tail(from1, to1), rel_tail(from2, to2));
    }
}

/// Every sequence number of the day among the names is at most their
/// largest.
proof fn lemma_max_same_day_seq(names: Seq<Seq<char>>, prefix: Seq<char>, i: int)
    requires
        0 <= i < names.len(),
        same_day_seq(names[i], prefix) is Some,
    ensures
        same_day_seq(names[i], prefix)->0 <= max_same_day_seq(names, prefix),
    decreases names.len(),
{
    if i < names.len() - 1 {
        lemma_max_same_day_seq(names.drop_last(), prefix, i);
        assert(names.drop_last()[i] == names[i]);
    }
}

/// A new generation never takes the file of an existing one: no record
/// among the directory entries has the stem `gen-{date}-{NNN}` that
/// `next_generation_id_for_date` gives.
pub proof fn law_next_id_is_fresh(date: Seq<char>, names: Seq<Seq<char>>)
    requires
        max_same_day_seq(names, day_prefix(date)) < u32::MAX,
    ensures
        forall|i: int|
            0 <= i < names.len() && is_record_name(#[trigger] names[i]) ==> names[i].take(
                names[i].len() - 5,
            ) != spec_generation_id(date, (max_same_day_seq(names, day_prefix(date)) + 1) as nat),
{
    let prefix = day_prefix(date);
    let m = max_same_day_seq(names, prefix);
    let next = (m + 1) as u32;
    let id = spec_generation_id(date, next as nat);
    lemma_parse_zero_padded(next);
    assert forall|i: int| 0 <= i < names.len() && is_record_name(#[trigger] names[i]) implies names[i].take(
        names[i].len() - 5,
    ) != id by {
        let stem = names[i].take(names[i].len() - 5);
        if stem == id {
            assert(stem.take(prefix.len() as int) =~= prefix);
            assert(stem.skip(prefix.len() as int) =~= zero_padded(decimal(next as nat), 3));
            assert(same_day_seq(names[i], prefix) == Some(next));
            lemma_max_same_day_seq(names, prefix, i);
        }
    }
}

/// A new generation's id passes the id check of `fsck` when the date is
/// eight digits and the day holds fewer than 999 generations.
pub proof fn law_next_id_is_well_formed(date: Seq<char>, names: Seq<Seq<char>>)
    requires
        date.len() == 8,
        all_digits(date),
        max_same_day_seq(names, day_prefix(date)) < 999,
    ensures
        spec_valid_generation_id(
            spec_generation_id(date, (max_same_day_seq(names, day_prefix(date)) + 1) as nat),
        ),
{
    let next = (max_same_day_seq(names, day_prefix(date)) + 1) as u32;
    lemma_parse_zero_padded(next);
    let pad = zero_padded(decimal(next as nat), 3);
    let id = spec_generation_id(date, next as nat);
    reveal_strlit("gen-");
    reveal_strlit("-");
    assert(id =~= seq!['g', 'e', 'n', '-'] + date + seq!['-'] + pad);
    assert forall|i: int| 4 <= i < 12 implies is_digit(#[trigger] id[i]) by {
        assert(id[i] == date[i - 4]);
    }
    assert forall|i: int| 13 <= i < 16 implies is_digit(#[trigger] id[i]) by {
        assert(id[i] == pad[i - 13]);
    }
}

} // verus!
