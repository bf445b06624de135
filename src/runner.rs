use vstd::prelude::*;
use crate::text::join2;

verus! {

/// The error of a tool run that could not be started.
pub open spec fn spawn_error_of(cause: Seq<char>) -> Seq<char> {
    "Failed to execute rclone: "@ + cause + ". Make sure rclone is installed."@
}

/// The result of a finished tool run: its standard output when it exited with
/// success and printed valid text; the captured error stream when it failed;
/// an encoding error when its output was not text.
pub open spec fn outcome_of(exit_success: bool, stdout: Result<Seq<char>, Seq<char>>, stderr: Seq<char>) -> Result<
    Seq<char>,
    Seq<char>,
> {
    if !exit_success {
        Err("Rclone error: "@ + stderr)
    } else {
        match stdout {
            Ok(o) => Ok(o),
            Err(e) => Err("Invalid UTF-8 output: "@ + e),
        }
    }
}

/// The characters of a result of texts.
pub open spec fn result_chars(r: Result<String, String>) -> Result<Seq<char>, Seq<char>> {
    match r {
        Ok(s) => Ok(s@),
        Err(e) => Err(e@),
    }
}

/// The error reported when the tool could not be started for `cause`.
pub fn spawn_error(cause: &str) -> (r: String)
    ensures
        r@ == spawn_error_of(cause@),
{
    let mut s = join2("Failed to execute rclone: ", cause);
    s.append(". Make sure rclone is installed.");
    s
}

/// The result of a finished tool run, from its exit status, its decoded
/// standard output (or the decoding error) and its error stream.
pub fn tool_outcome(exit_success: bool, stdout: Result<String, String>, stderr: &str) -> (r: Result<String, String>)
    ensures
        result_chars(r) == outcome_of(exit_success, result_chars(stdout), stderr@),
{
    if !exit_success {
        return Err(join2("Rclone error: ", stderr));
    }
    match stdout {
        Ok(o) => Ok(o),
        Err(e) => Err(join2("Invalid UTF-8 output: ", e.as_str())),
    }
}

} // verus!
