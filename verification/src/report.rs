//! The record that reports the outcome of a run.

use vstd::prelude::*;
use vstd::string::StringExecFns;
use crate::registry::mode_name;
use crate::script::{parameter_suffix, Plan, push_parameter_suffix};
use crate::text::{decimal, push_decimal};

verus! {

/// The file that the record of a run is written to.
pub open spec fn result_path_of(plan: Plan) -> Seq<char> {
    "/results/result_"@ + mode_name(plan.variant) + parameter_suffix(plan) + ".json"@
}

/// The record of a run: a flat JSON object. `runtime` is the measured time
/// in seconds, already written out as a JSON number.
pub open spec fn result_record_of(plan: Plan, runtime: Seq<char>) -> Seq<char> {
    "{\"name\":\""@ + mode_name(plan.variant) + "\",\"size\":"@ + decimal(plan.total_size as nat)
        + ",\"block_size\":"@ + decimal(plan.block_size as nat) + ",\"run\":"@ + decimal(
        plan.run as nat,
    ) + ",\"runtime\":"@ + runtime + "}"@
}

/// The file that the record of a run is written to.
pub fn result_path(plan: &Plan) -> (path: String)
    ensures
        path@ == result_path_of(*plan),
{
    let mut path = String::from_str("/results/result_");
    let name = plan.variant.name();
    path.append(name.as_str());
    push_parameter_suffix(&mut path, plan);
    path.append(".json");
    path
}

/// The record of a run that took `runtime` seconds.
pub fn result_record(plan: &Plan, runtime: &str) -> (record: String)
    ensures
        record@ == result_record_of(*plan, runtime@),
{
    let mut record = String::from_str("{\"name\":\"");
    let name = plan.variant.name();
    record.append(name.as_str());
    record.append("\",\"size\":");
    push_decimal(&mut record, plan.total_size);
    record.append(",\"block_size\":");
    push_decimal(&mut record, plan.block_size as u64);
    record.append(",\"run\":");
    push_decimal(&mut record, plan.run as u64);
    record.append(",\"runtime\":");
    record.append(runtime);
    record.append("}");
    record
}

} // verus!
