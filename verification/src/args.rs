//! Plain argument data and its one validation rule.
use vstd::prelude::*;
use vstd::string::StringExecFns;

verus! {

/// The command-line arguments as plain data: the operation to run, the file
/// it works on, and the optional chunk type, message and output file.
pub struct Args {
    pub operation: String,
    pub file_path: String,
    pub chunk_type: Option<String>,
    pub message: Option<String>,
    pub output_file: Option<String>,
}

/// True iff the two texts hold the same characters.
fn str_eq(a: &str, b: &str) -> (r: bool)
    ensures
        r == (a@ == b@),
{
    let sa = String::from_str(a);
    let sb = String::from_str(b);
    sa == sb
}

/// Accepts exactly the four operations the tool offers; anything else is
/// rejected with a message naming it.
pub fn validate_operation(operation: &str) -> (r: Result<(), String>)
    ensures
        r is Ok <==> (operation@ == "encode"@ || operation@ == "decode"@ || operation@ == "remove"@
            || operation@ == "print"@),
        r matches Err(m) ==> m@ == "Invalid operation: "@ + operation@,
{
    if str_eq(operation, "encode") || str_eq(operation, "decode") || str_eq(operation, "remove")
        || str_eq(operation, "print") {
        Ok(())
    } else {
        let mut m = String::from_str("Invalid operation: ");
        m.append(operation);
        Err(m)
    }
}

} // verus!
