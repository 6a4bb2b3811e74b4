use vstd::prelude::*;
use vstd::string::StringExecFns;

verus! {

/// Where the exported catalog lives, relative to the serving program's
/// manifest directory `base`.
pub fn data_file_path(base: &str) -> (r: String)
    ensures
        r@ == base@ + "/../../data/entities.json"@,
{
    let mut r = base.to_owned();
    r.append("/../../data/entities.json");
    r
}

} // verus!
