//! The shell scripts an interface runs around bringing the tunnel up and
//! down, and how a script text is cut into commands.

use vstd::prelude::*;
use vstd::string::*;
use crate::protobuf::{Interface, clone_opt_string};
use crate::text::{chars_of, split_on, split_str, string_of, trim_chars, trimmed};

verus! {

/// The scripts of an interface, each optional.
pub struct Scripts {
    pub pre_up: Option<String>,
    pub post_up: Option<String>,
    pub pre_down: Option<String>,
    pub post_down: Option<String>,
}

/// The text of an optional string.
pub open spec fn opt_view(s: Option<String>) -> Option<Seq<char>> {
    match s {
        Some(x) => Some(x@),
        None => None,
    }
}

impl Default for Scripts {
    fn default() -> (r: Scripts)
        ensures
            r.pre_up is None,
            r.post_up is None,
            r.pre_down is None,
            r.post_down is None,
    {
        Scripts { pre_up: None, post_up: None, pre_down: None, post_down: None }
    }
}

impl Scripts {
    /// The scripts the interface configuration names.
    pub fn load_from_interface(interface: &Interface) -> (r: Scripts)
        ensures
            opt_view(r.pre_up) == opt_view(interface.pre_up),
            opt_view(r.post_up) == opt_view(interface.post_up),
            opt_view(r.pre_down) == opt_view(interface.pre_down),
            opt_view(r.post_down) == opt_view(interface.post_down),
    {
        Scripts {
            pre_up: clone_opt_string(&interface.pre_up),
            post_up: clone_opt_string(&interface.post_up),
            pre_down: clone_opt_string(&interface.pre_down),
            post_down: clone_opt_string(&interface.post_down),
        }
    }
}

/// The commands of a script: the pieces between `;`, each without its
/// surrounding white space, in order.
pub open spec fn script_commands_spec(script: Seq<char>) -> Seq<Seq<char>> {
    split_on(script, ';').map_values(|p: Seq<char>| trimmed(p))
}

/// Cuts a script into the commands that are run one after the other.
pub fn script_commands(script: &str) -> (r: Vec<String>)
    ensures
        r@.map_values(|c: String| c@) == script_commands_spec(script@),
{
    let parts = split_str(script, ';');
    let mut r: Vec<String> = Vec::new();
    let mut i: usize = 0;
    while i < parts.len()
        invariant
            i <= parts@.len(),
            parts@.map_values(|x: &str| x@) == split_on(script@, ';'),
            r@.len() == i,
            forall|k: int| 0 <= k < i ==> #[trigger] r@[k]@ == trimmed(parts@[k]@),
        decreases parts.len() - i,
    {
        let cs = chars_of(parts[i]);
        let t = trim_chars(cs.as_slice());
        r.push(string_of(t.as_slice()));
        i = i + 1;
    }
    proof {
        let a = r@.map_values(|c: String| c@);
        let b = script_commands_spec(script@);
        assert forall|k: int| 0 <= k < a.len() implies a[k] == b[k] by {
            assert(parts@.map_values(|x: &str| x@)[k] == parts@[k]@);
        }
        assert(a =~= b);
    }
    r
}

/// What running a script does next.
pub enum ScriptStep {
    /// Run this command.
    Run(String),
    /// Every command ran and succeeded.
    Done,
    /// A command failed (to start or to run): the script stops with its
    /// error, and the commands after it do not run.
    Failed(String),
}

/// The next step of running the commands of a script one after the other,
/// in order: `ran` of them have run so far, and `failure` is the error of
/// the last one, where it failed.
pub fn script_step(commands: &Vec<String>, ran: usize, failure: Option<String>) -> (r: ScriptStep)
    requires
        ran <= commands@.len(),
    ensures
        failure matches Some(e) ==> r == ScriptStep::Failed(e),
        failure is None && ran < commands@.len() ==> (r matches ScriptStep::Run(c) && c@ == commands@[ran as int]@),
        failure is None && ran == commands@.len() ==> r is Done,
{
    match failure {
        Some(e) => ScriptStep::Failed(e),
        None => if ran < commands.len() {
            ScriptStep::Run(commands[ran].clone())
        } else {
            ScriptStep::Done
        },
    }
}

} // verus!
