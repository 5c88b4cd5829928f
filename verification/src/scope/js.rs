//! Fragment scripts: the author's script runs with `document` scoped to one
//! fragment instance through the embedded runtime's `__statica.run`.

use vstd::prelude::*;

use crate::text::{trim, trim_str};

verus! {

/// The wrapped script: the runtime, then a `__statica.run` call for
/// `scope_id` whose function body is the trimmed author script.
pub open spec fn wrapped_script_spec(runtime: Seq<char>, body: Seq<char>, scope_id: Seq<char>) -> Seq<char> {
    runtime + "\n__statica.run(document.currentScript, \""@ + scope_id + "\", function (document) {\n  "@
        + trim(body) + "\n});\n"@
}

/// Wrap an author script so `document` is scoped to this fragment instance;
/// `runtime` is the text of the embedded scope runtime.
pub fn wrap_script_with_scope(runtime: &str, body: &str, scope_id: &str) -> (r: String)
    ensures
        r@ == wrapped_script_spec(runtime@, body@, scope_id@),
{
    let mut s = String::from_str(runtime);
    s.append("\n__statica.run(document.currentScript, \"");
    s.append(scope_id);
    s.append("\", function (document) {\n  ");
    s.append(trim_str(body).as_str());
    s.append("\n});\n");
    s
}

} // verus!
