use vstd::prelude::*;
use vstd::string::*;

verus! {

/// Name of the output file written for the input file `file_name` when a
/// whole directory is processed: the input's name behind `palettify-`.
pub fn output_file_name(file_name: &str) -> (name: String)
    ensures
        name@ == "palettify-"@ + file_name@,
{
    let mut name = String::from_str("palettify-");
    name.append(file_name);
    name
}

} // verus!
