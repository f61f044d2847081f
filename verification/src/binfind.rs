//! Finding the executable for a keyword: script runtimes, platform path
//! variants, and the decision over filesystem probe results.

use vstd::prelude::*;

use crate::strutil::str_eq;

verus! {

/// Executable names used to run certain script file extensions.
pub fn get_script_runtime(script_extension: &str) -> (r: Option<&str>)
    ensures
        script_extension@ == "py"@ ==> (r matches Some(rt) && rt@ == "python3"@),
        script_extension@ == "js"@ ==> (r matches Some(rt) && rt@ == "node"@),
        script_extension@ == "vbs"@ ==> (r matches Some(rt) && rt@ == "wscript"@),
        script_extension@ != "py"@ && script_extension@ != "js"@ && script_extension@ != "vbs"@
            ==> r is None,
{
    proof {
        reveal_strlit("py");
        reveal_strlit("js");
        reveal_strlit("vbs");
        assert("py"@[0] == 'p' && "js"@[0] == 'j' && "vbs"@[0] == 'v');
        assert("py"@ != "js"@ && "py"@ != "vbs"@ && "js"@ != "vbs"@);
    }
    if str_eq(script_extension, "py") {
        Some("python3")
    } else if str_eq(script_extension, "js") {
        Some("node")
    } else if str_eq(script_extension, "vbs") {
        Some("wscript")
    } else {
        None
    }
}

} // verus!
