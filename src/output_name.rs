//! The name of the output file when none is given.
use vstd::prelude::*;
use vstd::string::StringExecFns;

verus! {

/// The default output file name for a conversion made at `timestamp`:
/// `ynab <timestamp>.csv`, placed by the caller beside the input file.
pub fn output_file_name(timestamp: &str) -> (r: String)
    ensures
        r@ == "ynab "@ + timestamp@ + ".csv"@,
{
    let mut name = String::from_str("ynab ");
    name.append(timestamp);
    name.append(".csv");
    name
}

} // verus!
