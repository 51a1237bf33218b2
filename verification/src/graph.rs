//! The correlation graph of files and the entities they mention. Not
//! written yet; its commands give the notice that says so.
use vstd::prelude::*;

verus! {

/// `--graph-stats` is not written yet: its notice.
pub fn stats() -> (n: String)
    ensures
        n@ == "genie (rust): --graph-stats not yet implemented (RUST_PLAN.md M4)."@,
{
    "genie (rust): --graph-stats not yet implemented (RUST_PLAN.md M4).".to_string()
}

/// `--graph-query` is not written yet: its notice.
pub fn query(_cypher: &str) -> (n: String)
    ensures
        n@ == "genie (rust): --graph-query not yet implemented (RUST_PLAN.md M4)."@,
{
    "genie (rust): --graph-query not yet implemented (RUST_PLAN.md M4).".to_string()
}

} // verus!
