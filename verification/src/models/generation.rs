//! Generation and Relation records.
//!
//! Floating-point values are held as their IEEE 754 bit patterns (what
//! `f64::to_bits` gives); the comparisons that the commands make on them are
//! stated over those bits.

use vstd::prelude::*;
use crate::time::Timestamp;

verus! {

/// 2^63: the sign bit of an `f64` bit pattern.
pub open spec fn sign_bit() -> int {
    0x8000_0000_0000_0000
}

/// The `f64` with bit pattern `bits` lies in `[0.0, 1.0]`: the non-negative
/// values up to 1.0 (bits `0x3FF0_0000_0000_0000`) and -0.0, which compares
/// equal to 0.0. NaN lies in no range.
pub open spec fn bits_in_unit_interval(bits: u64) -> bool {
    bits <= 0x3FF0_0000_0000_0000 || bits == 0x8000_0000_0000_0000
}

/// The `f64` with bit pattern `bits` is finite: its exponent field is not
/// all ones, so it is neither infinite nor NaN.
pub open spec fn bits_finite(bits: u64) -> bool {
    bits as int % sign_bit() < 0x7FF0_0000_0000_0000
}

/// The position of the `f64` with bit pattern `bits` in the total order of
/// `f64::total_cmp`: the bit pattern read as a signed integer, with the
/// magnitude bits flipped on negative values.
pub open spec fn total_order_key(bits: u64) -> int {
    if (bits as int) < sign_bit() {
        bits as int
    } else {
        -1 - (bits as int - sign_bit())
    }
}

/// Whether the `f64` with bit pattern `bits` lies in `[0.0, 1.0]`.
pub fn in_unit_interval(bits: u64) -> (r: bool)
    ensures
        r == bits_in_unit_interval(bits),
{
    bits <= 0x3FF0_0000_0000_0000 || bits == 0x8000_0000_0000_0000
}

/// Whether the `f64` with bit pattern `bits` is finite.
pub fn is_finite(bits: u64) -> (r: bool)
    ensures
        r == bits_finite(bits),
{
    bits % 0x8000_0000_0000_0000 < 0x7FF0_0000_0000_0000
}

/// Whether `a` comes after `b` in the order of `f64::total_cmp`.
pub fn total_order_after(a: u64, b: u64) -> (r: bool)
    ensures
        r == (total_order_key(a) > total_order_key(b)),
{
    let sa = a >= 0x8000_0000_0000_0000;
    let sb = b >= 0x8000_0000_0000_0000;
    if !sa && !sb {
        a > b
    } else if sa && sb {
        a < b
    } else {
        sb
    }
}

/// A quality score: the bit pattern of the `f64` and its renderings `{}`,
/// `{:.2}` and `{:.3}`, as Rust's formatter writes them.
#[derive(Debug, Clone, PartialEq, Eq)]
pub struct Score {
    pub bits: u64,
    pub text: String,
    pub text_2dp: String,
    pub text_3dp: String,
}

impl Score {
    /// A copy of the score.
    pub fn duplicate(&self) -> (r: Score)
        ensures
            r == *self,
    {
        Score {
            bits: self.bits,
            text: self.text.clone(),
            text_2dp: self.text_2dp.clone(),
            text_3dp: self.text_3dp.clone(),
        }
    }
}

/// Execution quality of a generation.
#[derive(Debug, Clone, PartialEq, Eq)]
pub struct Metrics {
    pub score: Score,
    pub execution_time_s: Option<i64>,
    pub success: bool,
}

impl Default for Metrics {
    /// The default metrics: score 0.0, no execution time, success.
    fn default() -> (m: Metrics)
        ensures
            m.score.bits == 0,
            m.score.text@ == "0"@,
            m.score.text_2dp@ == "0.00"@,
            m.score.text_3dp@ == "0.000"@,
            m.execution_time_s is None,
            m.success,
    {
        Metrics {
            score: Score {
                bits: 0,
                text: "0".to_string(),
                text_2dp: "0.00".to_string(),
                text_3dp: "0.000".to_string(),
            },
            execution_time_s: None,
            success: true,
        }
    }
}

impl Metrics {

    /// A copy of the metrics.
    pub fn duplicate(&self) -> (r: Metrics)
        ensures
            r == *self,
    {
        Metrics {
            score: self.score.duplicate(),
            execution_time_s: self.execution_time_s,
            success: self.success,
        }
    }
}

/// A proposed change of one configuration value; all four fields are
/// required. `from_bits` and `to_bits` are the `f64` bit patterns.
#[derive(Debug, Clone, PartialEq, Eq)]
pub struct ConfigPatch {
    pub key: String,
    pub from_bits: u64,
    pub to_bits: u64,
    pub reason: String,
}

impl ConfigPatch {
    /// A copy of the patch.
    pub fn duplicate(&self) -> (r: ConfigPatch)
        ensures
            r == *self,
    {
        ConfigPatch {
            key: self.key.clone(),
            from_bits: self.from_bits,
            to_bits: self.to_bits,
            reason: self.reason.clone(),
        }
    }
}

/// A case that shaped the judgment of a generation.
#[derive(Debug, Clone, PartialEq, Eq)]
pub struct RetrospectiveCase {
    pub name: String,
    pub impact: String,
}

/// What a generation learned: what not to repeat, what to do, the skills
/// made, the bugs fixed and the cases that changed judgment.
#[derive(Debug, Clone, PartialEq, Eq)]
pub struct Retrospective {
    pub do_not: Vec<String>,
    pub do_: Vec<String>,
    pub skills: Vec<String>,
    pub bugs_fixed: Vec<String>,
    pub cases: Vec<RetrospectiveCase>,
}

impl Retrospective {
    /// The retrospective records nothing.
    pub open spec fn spec_is_empty(&self) -> bool {
        &&& self.do_not@.len() == 0
        &&& self.do_@.len() == 0
        &&& self.skills@.len() == 0
        &&& self.bugs_fixed@.len() == 0
        &&& self.cases@.len() == 0
    }

    /// A retrospective that records nothing.
    pub fn empty() -> (r: Retrospective)
        ensures
            r.spec_is_empty(),
    {
        Retrospective {
            do_not: Vec::new(),
            do_: Vec::new(),
            skills: Vec::new(),
            bugs_fixed: Vec::new(),
            cases: Vec::new(),
        }
    }

    /// Whether every list of the retrospective is empty (then it is left out
    /// of the stored record).
    pub fn is_empty(&self) -> (r: bool)
        ensures
            r == self.spec_is_empty(),
    {
        self.do_not.len() == 0 && self.do_.len() == 0 && self.skills.len() == 0
            && self.bugs_fixed.len() == 0 && self.cases.len() == 0
    }
}

/// The kind of an edge between two generations.
#[derive(Debug, Clone, Copy, PartialEq, Eq)]
pub enum RelationType {
    EvolvedFrom,
    ForkedFrom,
    MergedFrom,
}

impl RelationType {
    /// The snake_case name of the relation type.
    pub open spec fn spec_name(self) -> Seq<char> {
        match self {
            RelationType::EvolvedFrom => "evolved_from"@,
            RelationType::ForkedFrom => "forked_from"@,
            RelationType::MergedFrom => "merged_from"@,
        }
    }

    /// The snake_case name of the relation type, as it is displayed and
    /// stored.
    pub fn name(&self) -> (s: String)
        ensures
            s@ == self.spec_name(),
    {
        match self {
            RelationType::EvolvedFrom => "evolved_from".to_string(),
            RelationType::ForkedFrom => "forked_from".to_string(),
            RelationType::MergedFrom => "merged_from".to_string(),
        }
    }
}

/// One recorded evolution step.
#[derive(Debug, Clone)]
pub struct Generation {
    pub id: String,
    pub parent_id: Option<String>,
    pub created_at: Timestamp,
    pub soul: String,
    pub gains: Vec<String>,
    pub losses: Vec<String>,
    pub philosophical_note: String,
    pub metrics: Metrics,
    pub tags: Vec<String>,
    pub config_patch: Option<ConfigPatch>,
    pub config_patches: Vec<ConfigPatch>,
    pub retrospective: Retrospective,
}

/// A copy of a list of strings.
pub fn clone_strings(v: &Vec<String>) -> (r: Vec<String>)
    ensures
        r@ == v@,
{
    let r = v.clone();
    proof {
        assert forall|i: int| 0 <= i < v.len() implies r@[i] == v@[i] by {
            assert(cloned::<String>(v[i], r[i]));
        }
        assert(r@ =~= v@);
    }
    r
}

/// The character view of an optional string.
pub open spec fn opt_view(o: Option<String>) -> Option<Seq<char>> {
    match o {
        Some(s) => Some(s@),
        None => None,
    }
}

/// A copy of an optional string.
pub fn clone_opt_string(o: &Option<String>) -> (r: Option<String>)
    ensures
        r == *o,
{
    match o {
        Some(s) => Some(s.clone()),
        None => None,
    }
}

/// An edge between two generations.
#[derive(Debug, Clone)]
pub struct Relation {
    pub from: String,
    pub to: String,
    pub relation_type: RelationType,
    pub created_at: Timestamp,
    pub note: String,
}

} // verus!

