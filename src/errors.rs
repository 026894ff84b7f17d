//! Error messages at two levels of detail.
use vstd::prelude::*;
use vstd::string::*;

verus! {

/// Append `detail` to `msg` when verbose; the short form is `msg` alone.
pub fn add_err(msg: String, verbose: bool, detail: &str) -> (r: String)
    ensures
        verbose ==> r@ == msg@ + "; details: "@ + detail@,
        !verbose ==> r@ == msg@,
{
    let mut msg = msg;
    if verbose {
        msg.append("; details: ");
        msg.append(detail);
    }
    msg
}

} // verus!
