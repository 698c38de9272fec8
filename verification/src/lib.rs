use vstd::prelude::*;

pub mod text;
pub mod digest;
pub mod error;
pub mod github;
pub mod cache;
pub mod install;
pub mod json;
pub mod json_nav;
pub mod validation;
pub mod repository;
pub mod plan;
pub mod plan_validation;
pub mod plan_summary;
pub mod report;
pub mod cache_status;
pub mod workflow_text;
pub mod audit;
pub mod workflow_audit;
pub mod release_record;
pub mod release;
pub mod package;
pub mod archive;
pub mod installation;
pub mod subprocess;
pub mod history;
pub mod collect;

verus! {

} // verus!
