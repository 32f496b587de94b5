//! `glctl new`: the checks on a new generation and the records it makes.

use vstd::prelude::*;
use crate::error::{CliError, CliResult};
use crate::models::generation::{bits_in_unit_interval, in_unit_interval};
use crate::models::{ConfigPatch, Generation, Metrics, Relation, RelationType, Retrospective, Score};
use crate::text::{concat, is_blank, trim_ws};
use crate::time::Timestamp;

verus! {

/// What `glctl new` is asked to record. Scores and patch values are `f64`
/// bit patterns; the multi-knob patches and the retrospective cases arrive
/// already parsed from their JSON flags.
#[derive(Debug, Clone)]
pub struct NewRequest {
    pub soul: String,
    pub parent: Option<String>,
    pub gains: Vec<String>,
    pub losses: Vec<String>,
    pub note: String,
    pub score: Score,
    pub exec_time: Option<i64>,
    pub success: bool,
    pub tags: Vec<String>,
    pub config_patch_key: Option<String>,
    pub config_patch_from: Option<u64>,
    pub config_patch_to: Option<u64>,
    pub config_patch_reason: Option<String>,
    pub config_patches: Vec<ConfigPatch>,
    pub retrospective: Retrospective,
}

/// The message for a blank soul.
pub open spec fn empty_soul_message() -> Seq<char> {
    "--soul must not be empty"@
}

/// The message for a score outside `[0.0, 1.0]`.
pub open spec fn score_range_message(score: Score) -> Seq<char> {
    "--score must be in [0.0, 1.0], got "@ + score.text@
}

/// The message when only some of the four config-patch flags are given.
pub open spec fn partial_patch_message() -> Seq<char> {
    "--config-patch-key, --config-patch-from, --config-patch-to, --config-patch-reason must be provided together (all or none)"@
}

/// All four config-patch flags are given.
pub open spec fn patch_given(r: NewRequest) -> bool {
    r.config_patch_key is Some && r.config_patch_from is Some && r.config_patch_to is Some
        && r.config_patch_reason is Some
}

/// None of the four config-patch flags is given.
pub open spec fn patch_absent(r: NewRequest) -> bool {
    r.config_patch_key is None && r.config_patch_from is None && r.config_patch_to is None
        && r.config_patch_reason is None
}

/// Checks a request: the soul is not blank, the score lies in
/// `[0.0, 1.0]`, and the config-patch flags come all together or not at
/// all. Gives the single patch that the flags describe.
pub fn validate_new(req: &NewRequest) -> (r: CliResult<Option<ConfigPatch>>)
    ensures
        trim_ws(req.soul@).len() == 0 ==> (r matches Err(CliError::Error(m)) && m@ == empty_soul_message()),
        trim_ws(req.soul@).len() > 0 && !bits_in_unit_interval(req.score.bits) ==> (r matches Err(
            CliError::Error(m),
        ) && m@ == score_range_message(req.score)),
        trim_ws(req.soul@).len() > 0 && bits_in_unit_interval(req.score.bits) ==> {
            &&& patch_absent(*req) ==> r == Ok::<Option<ConfigPatch>, CliError>(None)
            &&& patch_given(*req) ==> (r matches Ok(Some(p)) && p.key == req.config_patch_key->0
                && p.from_bits == req.config_patch_from->0 && p.to_bits == req.config_patch_to->0
                && p.reason == req.config_patch_reason->0)
            &&& !patch_absent(*req) && !patch_given(*req) ==> (r matches Err(CliError::Error(m))
                && m@ == partial_patch_message())
        },
{
    if is_blank(&req.soul) {
        return Err(CliError::Error("--soul must not be empty".to_string()));
    }
    if !in_unit_interval(req.score.bits) {
        return Err(CliError::Error(concat("--score must be in [0.0, 1.0], got ", &req.score.text)));
    }
    match (&req.config_patch_key, req.config_patch_from, req.config_patch_to, &req.config_patch_reason) {
        (None, None, None, None) => Ok(None),
        (Some(key), Some(from), Some(to), Some(reason)) => Ok(
            Some(ConfigPatch { key: key.clone(), from_bits: from, to_bits: to, reason: reason.clone() }),
        ),
        _ => Err(
            CliError::Error(
                "--config-patch-key, --config-patch-from, --config-patch-to, --config-patch-reason must be provided together (all or none)".to_string(),
            ),
        ),
    }
}

/// The generation that a checked request records under `id`, created at
/// `now`, with the single patch `config_patch`.
pub fn new_generation(req: NewRequest, id: String, now: Timestamp, config_patch: Option<ConfigPatch>) -> (g: Generation)
    ensures
        g.id == id,
        g.parent_id == req.parent,
        g.created_at == now,
        g.soul == req.soul,
        g.gains == req.gains,
        g.losses == req.losses,
        g.philosophical_note == req.note,
        g.metrics.score == req.score,
        g.metrics.execution_time_s == req.exec_time,
        g.metrics.success == req.success,
        g.tags == req.tags,
        g.config_patch == config_patch,
        g.config_patches == req.config_patches,
        g.retrospective == req.retrospective,
{
    Generation {
        id,
        parent_id: req.parent,
        created_at: now,
        soul: req.soul,
        gains: req.gains,
        losses: req.losses,
        philosophical_note: req.note,
        metrics: Metrics { score: req.score, execution_time_s: req.exec_time, success: req.success },
        tags: req.tags,
        config_patch,
        config_patches: req.config_patches,
        retrospective: req.retrospective,
    }
}

/// The edge that records where a new generation came from: `evolved_from`
/// from its parent to it, made only when the parent's record exists.
pub fn parent_relation(g: &Generation, parent_exists: bool) -> (r: Option<Relation>)
    ensures
        r is Some <==> (g.parent_id is Some && parent_exists),
        r matches Some(rel) ==> {
            &&& rel.from@ == g.parent_id->0@
            &&& rel.to@ == g.id@
            &&& rel.relation_type == RelationType::EvolvedFrom
            &&& rel.created_at == g.created_at
            &&& rel.note@ == Seq::<char>::empty()
        },
{
    match &g.parent_id {
        Some(p) => {
            if parent_exists {
                Some(
                    Relation {
                        from: p.clone(),
                        to: g.id.clone(),
                        relation_type: RelationType::EvolvedFrom,
                        created_at: g.created_at,
                        note: String::new(),
                    },
                )
            } else {
                None
            }
        },
        None => None,
    }
}

/// The warning when the parent of a new generation has no record.
pub fn missing_parent_warning(parent: &str) -> (w: String)
    ensures
        w@ == "warning: parent generation '"@ + parent@ + "' not found; skipping relation"@,
{
    concat(&concat("warning: parent generation '", parent), "' not found; skipping relation")
}

} // verus!
