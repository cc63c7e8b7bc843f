//! The activation help table: one row per shell family, each carrying the
//! command that activates an environment at a given path. Rendering the rows
//! into a drawn table is left to the terminal layer.

use vstd::prelude::*;
use vstd::string::*;

verus! {

broadcast use vstd::string::group_string_axioms;

/// The rows of the activation help table for the environment at `path_str`:
/// a shell family label and the command to activate with.
pub fn create_comfy_table(path_str: &str) -> (r: Vec<(String, String)>)
    ensures
        r@.len() == 6,
        r@[0].0@ == "bash/zsh"@ && r@[0].1@ == "source "@ + path_str@ + "/bin/activate"@,
        r@[1].0@ == "fish"@ && r@[1].1@ == "source "@ + path_str@ + "/bin/activate.fish"@,
        r@[2].0@ == "csh/tsch"@ && r@[2].1@ == "source "@ + path_str@ + "/bin/activate.csh"@,
        r@[3].0@ == "pwsh"@ && r@[3].1@ == path_str@ + "/bin/Activate.ps1"@,
        r@[4].0@ == "cmd.exe"@ && r@[4].1@ == path_str@ + "\\Scripts\\activate.bat"@,
        r@[5].0@ == "PowerShell"@ && r@[5].1@ == path_str@ + "\\Scripts\\Activate.ps1"@,
{
    let mut r: Vec<(String, String)> = Vec::new();

    let mut c0 = String::from_str("source ");
    c0.append(path_str);
    c0.append("/bin/activate");
    r.push((String::from_str("bash/zsh"), c0));

    let mut c1 = String::from_str("source ");
    c1.append(path_str);
    c1.append("/bin/activate.fish");
    r.push((String::from_str("fish"), c1));

    let mut c2 = String::from_str("source ");
    c2.append(path_str);
    c2.append("/bin/activate.csh");
    r.push((String::from_str("csh/tsch"), c2));

    let mut c3 = path_str.to_owned();
    c3.append("/bin/Activate.ps1");
    r.push((String::from_str("pwsh"), c3));

    let mut c4 = path_str.to_owned();
    c4.append("\\Scripts\\activate.bat");
    r.push((String::from_str("cmd.exe"), c4));

    let mut c5 = path_str.to_owned();
    c5.append("\\Scripts\\Activate.ps1");
    r.push((String::from_str("PowerShell"), c5));

    r
}

} // verus!
