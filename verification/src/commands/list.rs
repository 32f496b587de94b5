//! `glctl list`: the generations, newest first.

use vstd::prelude::*;
use crate::commands::lineage::{created_ats, creation_instants};
use crate::error::{CliError, CliResult};
use crate::models::generation::{clone_opt_string, clone_strings, opt_view};
use crate::models::{Generation, Score};
use crate::order::{is_stable_order, order_keys, stable_order};
use crate::text::{
    bool_text, bool_to_string, pad_left, pad_right, push_padded_left, push_padded_right, push_str,
    string_of,
};
use crate::time::rfc3339_text;

verus! {

/// Options of `glctl list`.
#[derive(Debug, Clone, PartialEq, Eq)]
pub struct ListArgs {
    /// Print a JSON array instead of a table.
    pub json: bool,
    /// Only the first N generations.
    pub limit: Option<usize>,
}

/// One row of the list.
#[derive(Debug, Clone, PartialEq, Eq)]
pub struct ListItem {
    pub id: String,
    pub parent_id: Option<String>,
    pub soul: String,
    pub score: Score,
    pub success: bool,
    pub created_at: String,
    pub tags: Vec<String>,
}

/// `it` shows generation `g`.
pub open spec fn item_shows(it: ListItem, g: Generation) -> bool {
    &&& it.id@ == g.id@
    &&& opt_view(it.parent_id) == opt_view(g.parent_id)
    &&& it.soul@ == g.soul@
    &&& it.score == g.metrics.score
    &&& it.success == g.metrics.success
    &&& it.created_at@ == rfc3339_text(g.created_at.spec_secs(), g.created_at.spec_nanos())
    &&& it.tags@ == g.tags@
}

/// The row of generation `g`.
pub fn item_of(g: &Generation) -> (it: ListItem)
    ensures
        item_shows(it, *g),
{
    ListItem {
        id: g.id.clone(),
        parent_id: clone_opt_string(&g.parent_id),
        soul: g.soul.clone(),
        score: g.metrics.score.duplicate(),
        success: g.metrics.success,
        created_at: g.created_at.to_rfc3339(),
        tags: clone_strings(&g.tags),
    }
}

/// The number of rows: all generations, or at most `limit`.
pub open spec fn listed_count(n: nat, limit: Option<usize>) -> nat {
    match limit {
        Some(l) => if (l as nat) < n {
            l as nat
        } else {
            n
        },
        None => n,
    }
}

/// The rows of `glctl list`: the generations in descending order of
/// creation (generations created at the same instant keep their order),
/// cut to `limit` rows where one is given.
pub fn list_view(all: &Vec<Generation>, args: &ListArgs) -> (r: CliResult<Vec<ListItem>>)
    ensures
        all@.len() == 0 ==> (r matches Err(CliError::NoData(m)) && m@ == "no generations found"@),
        all@.len() > 0 ==> (r matches Ok(items) && exists|p: Seq<usize>|
            is_stable_order(order_keys(created_ats(all@), true), p) && items@.len() == listed_count(
                all@.len(),
                args.limit,
            ) && forall|t: int| 0 <= t < items@.len() ==> item_shows(#[trigger] items@[t], all@[p[t] as int])),
{
    if all.len() == 0 {
        return Err(CliError::NoData("no generations found".to_string()));
    }
    let ts = creation_instants(all);
    let p = stable_order(&ts, true);
    let n = match args.limit {
        Some(l) => if l < p.len() {
            l
        } else {
            p.len()
        },
        None => p.len(),
    };
    let mut items: Vec<ListItem> = Vec::new();
    for t in 0..n
        invariant
            n <= p.len(),
            p.len() == all.len(),
            forall|s: int| 0 <= s < p.len() ==> (#[trigger] p@[s]) < all.len(),
            items.len() == t,
            forall|s: int| 0 <= s < t ==> item_shows(#[trigger] items@[s], all@[p@[s] as int]),
    {
        items.push(item_of(&all[p[t]]));
    }
    let r = Ok(items);
    proof {
        assert(is_stable_order(order_keys(created_ats(all@), true), p@));
    }
    r
}

/// The heading row of the table.
pub open spec fn table_heading() -> Seq<char> {
    pad_right("ID"@, 22) + " "@ + pad_right("PARENT"@, 22) + " "@ + pad_left("SCORE"@, 5) + " "@
        + pad_right("SUCCESS"@, 8) + " "@ + pad_right("CREATED_AT"@, 25) + " SOUL\n"@
}

/// The table row of an item.
pub open spec fn row_text(it: ListItem) -> Seq<char> {
    let parent = match it.parent_id {
        Some(p) => p@,
        None => "(seed)"@,
    };
    pad_right(it.id@, 22) + " "@ + pad_right(parent, 22) + " "@ + pad_left(it.score.text_2dp@, 5)
        + " "@ + pad_right(bool_text(it.success), 8) + " "@ + pad_right(it.created_at@, 25) + " "@
        + it.soul@ + "\n"@
}

/// The rows of the first `k` items.
pub open spec fn rows_text(items: Seq<ListItem>, k: int) -> Seq<char>
    decreases k,
{
    if k <= 0 || k > items.len() {
        seq![]
    } else {
        rows_text(items, k - 1) + row_text(items[k - 1])
    }
}

/// Appends the row of an item.
fn push_row(v: &mut Vec<char>, it: &ListItem)
    ensures
        final(v)@ == old(v)@ + row_text(*it),
{
    let ghost start = v@;
    push_padded_right(v, &it.id, 22);
    push_str(v, " ");
    match &it.parent_id {
        Some(p) => push_padded_right(v, p, 22),
        None => push_padded_right(v, "(seed)", 22),
    }
    push_str(v, " ");
    push_padded_left(v, &it.score.text_2dp, 5);
    push_str(v, " ");
    push_padded_right(v, &bool_to_string(it.success), 8);
    push_str(v, " ");
    push_padded_right(v, &it.created_at, 25);
    push_str(v, " ");
    push_str(v, &it.soul);
    push_str(v, "\n");
    proof {
        assert(v@ =~= start + row_text(*it));
    }
}

/// The table that `glctl list` prints without `--json`.
pub fn list_table(items: &Vec<ListItem>) -> (t: String)
    ensures
        t@ == table_heading() + rows_text(items@, items@.len() as int),
        forall|k: int|
            #![trigger items@[k]]
            0 <= k < items@.len() ==> ({
                let start: int = table_heading().len() as int + rows_text(items@, k).len();
                let w = pad_right(items@[k].id@, 22) + " "@ + pad_right(
                    match items@[k].parent_id {
                        Some(p) => p@,
                        None => "(seed)"@,
                    },
                    22,
                );
                t@.subrange(start, start + w.len() as int) == w
            }),
{
    let mut v: Vec<char> = Vec::new();
    push_padded_right(&mut v, "ID", 22);
    push_str(&mut v, " ");
    push_padded_right(&mut v, "PARENT", 22);
    push_str(&mut v, " ");
    push_padded_left(&mut v, "SCORE", 5);
    push_str(&mut v, " ");
    push_padded_right(&mut v, "SUCCESS", 8);
    push_str(&mut v, " ");
    push_padded_right(&mut v, "CREATED_AT", 25);
    push_str(&mut v, " SOUL\n");
    let ghost head = v@;
    proof {
        assert(head =~= table_heading());
    }
    for i in 0..items.len()
        invariant
            v@ == head + rows_text(items@, i as int),
    {
        push_row(&mut v, &items[i]);
        proof {
            assert(v@ =~= head + rows_text(items@, i + 1));
        }
    }
    proof {
        reveal_strlit(" ");
        assert(v@ == table_heading() + rows_text(items@, items@.len() as int));
        assert forall|k: int|
            #![trigger items@[k]]
            0 <= k < items@.len() implies ({
                let start: int = table_heading().len() as int + rows_text(items@, k).len();
                let w = pad_right(items@[k].id@, 22) + " "@ + pad_right(
                    match items@[k].parent_id {
                        Some(p) => p@,
                        None => "(seed)"@,
                    },
                    22,
                );
                v@.subrange(start, start + w.len() as int) == w
            }) by {
            law_list_rows_show_id_and_parent(items@, k);
        }
    }
    string_of(v.as_slice())
}

/// The rows of the first `t` items are a prefix of the rows of the first
/// `n`, for `t <= n`.
proof fn lemma_rows_prefix(items: Seq<ListItem>, t: int, n: int)
    requires
        0 <= t <= n <= items.len(),
    ensures
        rows_text(items, t).len() <= rows_text(items, n).len(),
        rows_text(items, n).take(rows_text(items, t).len() as int) == rows_text(items, t),
    decreases n,
{
    if t < n {
        lemma_rows_prefix(items, t, n - 1);
        let a = rows_text(items, n - 1);
        let b = rows_text(items, t);
        assert(rows_text(items, n) == a + row_text(items[n - 1]));
        assert((a + row_text(items[n - 1])).take(b.len() as int) =~= a.take(b.len() as int));
    } else {
        assert(rows_text(items, n).take(rows_text(items, n).len() as int) =~= rows_text(items, n));
    }
}

/// Each row of the table starts with the item's id and then its parent:
/// in the row of item `t` (which begins after the heading and the rows
/// before it), the ID column holds the item's id padded to 22 and, after a
/// space, the PARENT column holds its parent id padded to 22, or `(seed)`
/// for an item without a parent.
pub proof fn law_list_rows_show_id_and_parent(items: Seq<ListItem>, t: int)
    requires
        0 <= t < items.len(),
    ensures
        ({
            let table = table_heading() + rows_text(items, items.len() as int);
            let start: int = table_heading().len() as int + rows_text(items, t).len();
            let id_col = pad_right(items[t].id@, 22);
            let parent_col = pad_right(
                match items[t].parent_id {
                    Some(p) => p@,
                    None => "(seed)"@,
                },
                22,
            );
            table.subrange(start, start + id_col.len() + 1 + parent_col.len() as int) == id_col + " "@
                + parent_col
        }),
{
    let n = items.len() as int;
    lemma_rows_prefix(items, t + 1, n);
    let before = rows_text(items, t);
    let row = row_text(items[t]);
    let upto = rows_text(items, t + 1);
    assert(upto == before + row);
    let all_rows = rows_text(items, n);
    let table = table_heading() + all_rows;
    let start: int = table_heading().len() as int + before.len();
    let id_col = pad_right(items[t].id@, 22);
    let parent_col = pad_right(
        match items[t].parent_id {
            Some(p) => p@,
            None => "(seed)"@,
        },
        22,
    );
    let w = id_col + " "@ + parent_col;
    reveal_strlit(" ");
    assert(row.take(w.len() as int) =~= w);
    assert forall|i: int| 0 <= i < w.len() implies table.subrange(start, start + w.len() as int)[i] == w[i] by {
        assert(table[start + i] == all_rows[before.len() + i]);
        assert(all_rows[before.len() + i] == upto[before.len() + i]);
        assert(upto[before.len() + i] == row[i]);
    }
    assert(table.subrange(start, start + w.len() as int) =~= w);
}

} // verus!
