//! `glctl init`: the directories of a company's repository.

use vstd::prelude::*;
use crate::storage::{
    company_dir, generations_dir, relations_dir, spec_company_dir, spec_generations_dir,
    spec_relations_dir,
};

verus! {

/// Options of `glctl init`.
#[derive(Debug, Clone, PartialEq, Eq)]
pub struct InitArgs {
    /// Print one JSON object.
    pub json: bool,
}

/// What `init` reports: the scope and its directories.
#[derive(Debug, Clone, PartialEq, Eq)]
pub struct InitReport {
    pub company_id: String,
    pub data_dir: String,
    pub company_dir: String,
    pub generations_dir: String,
    pub relations_dir: String,
}

/// The directories of the repository of `company_id` under `data_dir`.
pub fn init_report(company_id: &str, data_dir: &str) -> (r: InitReport)
    ensures
        r.company_id@ == company_id@,
        r.data_dir@ == data_dir@,
        r.company_dir@ == spec_company_dir(data_dir@, company_id@),
        r.generations_dir@ == spec_generations_dir(spec_company_dir(data_dir@, company_id@)),
        r.relations_dir@ == spec_relations_dir(spec_company_dir(data_dir@, company_id@)),
{
    let cd = company_dir(data_dir, company_id);
    InitReport {
        company_id: company_id.to_string(),
        data_dir: data_dir.to_string(),
        generations_dir: generations_dir(&cd),
        relations_dir: relations_dir(&cd),
        company_dir: cd,
    }
}

} // verus!
