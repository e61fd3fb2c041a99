//! The decisions of the `rah` commands: reading their arguments and choosing what
//! they print.

use vstd::prelude::*;

use crate::text::{contains_str, occurs_at, split_once, split_once_char, str_eq};
use crate::tools::requirement::{
    lemma_parse_well_formed, parse_requirement, well_formed_requirement, RequirementError, RequirementErrorView,
    RequirementView, ToolRequirement,
};

verus! {

/// Why a command's arguments were refused.
#[derive(Debug, Clone, PartialEq, Eq)]
pub enum CommandError {
    /// A tool argument is not a requirement.
    Requirement(RequirementError),
    /// No tool was given.
    NoTools,
    /// An assignment has no `=`; holds the argument.
    NotAnAssignment(String),
    /// An assignment's key is empty.
    EmptyKey,
    /// The shell is not supported; holds its name.
    UnsupportedShell(String),
}

/// The requirements written as arguments, in order; the first that fails to parse
/// gives its error.
pub open spec fn parsed_all(args: Seq<Seq<char>>) -> Result<Seq<RequirementView>, RequirementErrorView>
    decreases args.len(),
{
    if args.len() == 0 {
        Ok(Seq::empty())
    } else {
        match parsed_all(args.drop_last()) {
            Err(e) => Err(e),
            Ok(earlier) => match parse_requirement(args.last()) {
                Ok(r) => Ok(earlier.push(r)),
                Err(e) => Err(e),
            },
        }
    }
}

/// Once an argument fails, all of them fail the same way.
proof fn lemma_parsed_all_error_stays(args: Seq<Seq<char>>, n: int)
    requires
        0 <= n <= args.len(),
        parsed_all(args.take(n)) is Err,
    ensures
        parsed_all(args) == parsed_all(args.take(n)),
    decreases args.len() - n,
{
    if n < args.len() {
        assert(args.take(n + 1).drop_last() =~= args.take(n));
        lemma_parsed_all_error_stays(args, n + 1);
    } else {
        assert(args.take(n) =~= args);
    }
}

/// Every requirement the arguments parse to is well formed.
pub proof fn lemma_parsed_all_well_formed(args: Seq<Seq<char>>)
    requires
        parsed_all(args) is Ok,
    ensures
        forall|j: int| 0 <= j < parsed_all(args)->Ok_0.len() ==> well_formed_requirement(
            #[trigger] parsed_all(args)->Ok_0[j],
        ),
    decreases args.len(),
{
    if args.len() > 0 {
        lemma_parsed_all_well_formed(args.drop_last());
        lemma_parse_well_formed(args.last());
        let earlier = parsed_all(args.drop_last())->Ok_0;
        assert forall|j: int| 0 <= j < parsed_all(args)->Ok_0.len() implies well_formed_requirement(
            #[trigger] parsed_all(args)->Ok_0[j],
        ) by {
            if j < earlier.len() {
                assert(parsed_all(args)->Ok_0[j] == earlier[j]);
            }
        }
    }
}

/// The requirements for `rah use`: every argument parsed in order (the first
/// failure is the error), and at least one tool.
pub fn requirements_from_args(tools: &Vec<String>) -> (r: Result<Vec<ToolRequirement>, CommandError>)
    ensures
        match parsed_all(tools@.map_values(|t: String| t@)) {
            Err(e) => r matches Err(CommandError::Requirement(x)) && x@ == e,
            Ok(reqs) => if reqs.len() == 0 {
                r matches Err(CommandError::NoTools)
            } else {
                r matches Ok(v) && v@.map_values(|q: ToolRequirement| q@) == reqs
            },
        },
{
    let ghost args = tools@.map_values(|t: String| t@);
    let mut reqs: Vec<ToolRequirement> = Vec::new();
    let mut i: usize = 0;
    assert(args.take(0) =~= Seq::<Seq<char>>::empty());
    assert(reqs@.map_values(|q: ToolRequirement| q@) =~= Seq::<RequirementView>::empty());
    while i < tools.len()
        invariant
            args == tools@.map_values(|t: String| t@),
            i <= tools.len(),
            parsed_all(args.take(i as int)) == Ok::<Seq<RequirementView>, RequirementErrorView>(
                reqs@.map_values(|q: ToolRequirement| q@),
            ),
        decreases tools.len() - i,
    {
        assert(args.take(i + 1).drop_last() =~= args.take(i as int));
        assert(args.take(i + 1).last() == tools@[i as int]@);
        match ToolRequirement::parse(tools[i].as_str()) {
            Ok(q) => {
                let ghost before = reqs@;
                reqs.push(q);
                assert(reqs@.map_values(|q: ToolRequirement| q@) =~= before.map_values(|q: ToolRequirement| q@).push(q@));
            },
            Err(e) => {
                proof {
                    lemma_parsed_all_error_stays(args, i as int + 1);
                }
                return Err(CommandError::Requirement(e));
            },
        }
        i = i + 1;
    }
    assert(args.take(tools.len() as int) =~= args);
    if reqs.len() == 0 {
        return Err(CommandError::NoTools);
    }
    Ok(reqs)
}

/// The requirements `rah exec` uses: the `--tool` override alone when given,
/// otherwise the project's.
pub fn exec_requirements(tool: Option<&str>, project: Vec<ToolRequirement>) -> (r: Result<Vec<ToolRequirement>, CommandError>)
    ensures
        match tool {
            Some(t) => match parse_requirement(t@) {
                Ok(q) => r matches Ok(v) && v@.len() == 1 && v@[0]@ == q,
                Err(e) => r matches Err(CommandError::Requirement(x)) && x@ == e,
            },
            None => r == Ok::<Vec<ToolRequirement>, CommandError>(project),
        },
{
    match tool {
        Some(t) => match ToolRequirement::parse(t) {
            Ok(q) => {
                let mut v: Vec<ToolRequirement> = Vec::new();
                v.push(q);
                Ok(v)
            },
            Err(e) => Err(CommandError::Requirement(e)),
        },
        None => Ok(project),
    }
}

/// A `KEY=VALUE` assignment for `rah set`: split at the first `=`, with a non-empty key.
pub fn parse_assignment(value: &str) -> (r: Result<(String, String), CommandError>)
    ensures
        match split_once(value@, '=') {
            None => r matches Err(CommandError::NotAnAssignment(v)) && v@ == value@,
            Some((k, v)) => if k.len() == 0 {
                r matches Err(CommandError::EmptyKey)
            } else {
                r matches Ok((key, val)) && key@ == k && val@ == v
            },
        },
{
    match split_once_char(value, '=') {
        None => Err(CommandError::NotAnAssignment(value.to_owned())),
        Some((k, v)) => {
            if k.unicode_len() == 0 {
                Err(CommandError::EmptyKey)
            } else {
                Ok((k, v))
            }
        },
    }
}

/// The hook for `bash` and `zsh`, which runs `rah env --shell <shell>` after each `rah`.
pub open spec fn posix_hook(shell: Seq<char>) -> Seq<char> {
    "_rah_hook() {\n    eval \"$(command rah env --shell "@ + shell
        + ")\"\n}\n\nrah() {\n    command rah \"$@\"\n    _rah_hook\n}\n\n_rah_hook"@
}

/// The hook for `fish`.
pub open spec fn fish_hook() -> Seq<char> {
    "function rah\n    command rah $argv\n    command rah env --shell fish | source\nend\n\nrah env --shell fish | source"@
}

/// The hook for PowerShell.
pub open spec fn powershell_hook() -> Seq<char> {
    "function rah {\n    & rah @args\n    Invoke-Expression (& rah env --shell powershell)\n}\n\nInvoke-Expression (& rah env --shell powershell)"@
}

/// The activation code `rah activate` prints for a shell.
pub open spec fn activation_for(shell: Seq<char>) -> Option<Seq<char>> {
    if shell == "bash"@ || shell == "zsh"@ {
        Some(posix_hook(shell))
    } else if shell == "fish"@ {
        Some(fish_hook())
    } else if shell == "powershell"@ || shell == "pwsh"@ {
        Some(powershell_hook())
    } else {
        None
    }
}

/// The shell activation code for `rah activate`.
pub fn activation_script(shell: &str) -> (r: Result<String, CommandError>)
    ensures
        match activation_for(shell@) {
            Some(code) => r matches Ok(s) && s@ == code,
            None => r matches Err(CommandError::UnsupportedShell(n)) && n@ == shell@,
        },
{
    if str_eq(shell, "bash") || str_eq(shell, "zsh") {
        let mut s = String::from_str("_rah_hook() {\n    eval \"$(command rah env --shell ");
        s.append(shell);
        s.append(")\"\n}\n\nrah() {\n    command rah \"$@\"\n    _rah_hook\n}\n\n_rah_hook");
        Ok(s)
    } else if str_eq(shell, "fish") {
        Ok(String::from_str(
            "function rah\n    command rah $argv\n    command rah env --shell fish | source\nend\n\nrah env --shell fish | source",
        ))
    } else if str_eq(shell, "powershell") || str_eq(shell, "pwsh") {
        Ok(String::from_str(
            "function rah {\n    & rah @args\n    Invoke-Expression (& rah env --shell powershell)\n}\n\nInvoke-Expression (& rah env --shell powershell)",
        ))
    } else {
        Err(CommandError::UnsupportedShell(shell.to_owned()))
    }
}

/// The activation code wraps `rah` so that it passes on every argument it is
/// given and then reloads the environment: for `bash` and `zsh` a `rah()`
/// function running `command rah "$@"` and then the hook, for `fish` a function
/// running `command rah $argv`, and for PowerShell a function running
/// `& rah @args`.
pub proof fn lemma_activation_forwards_arguments(shell: Seq<char>)
    ensures
        (shell == "bash"@ || shell == "zsh"@) ==> activation_for(shell) is Some && contains_str(
            activation_for(shell)->0,
            "rah() {\n    command rah \"$@\"\n    _rah_hook\n}"@,
        ),
        shell == "fish"@ ==> activation_for(shell) is Some && contains_str(
            activation_for(shell)->0,
            "function rah\n    command rah $argv\n"@,
        ),
        (shell == "powershell"@ || shell == "pwsh"@) ==> activation_for(shell) is Some && contains_str(
            activation_for(shell)->0,
            "function rah {\n    & rah @args\n"@,
        ),
{
    reveal_strlit("bash");
    reveal_strlit("zsh");
    reveal_strlit("fish");
    reveal_strlit("powershell");
    reveal_strlit("pwsh");
    reveal_strlit("rah() {\n    command rah \"$@\"\n    _rah_hook\n}");
    reveal_strlit("function rah\n    command rah $argv\n");
    reveal_strlit("function rah {\n    & rah @args\n");
    reveal_strlit("_rah_hook() {\n    eval \"$(command rah env --shell ");
    reveal_strlit(")\"\n}\n\nrah() {\n    command rah \"$@\"\n    _rah_hook\n}\n\n_rah_hook");
    reveal_strlit("function rah\n    command rah $argv\n    command rah env --shell fish | source\nend\n\nrah env --shell fish | source");
    reveal_strlit("function rah {\n    & rah @args\n    Invoke-Expression (& rah env --shell powershell)\n}\n\nInvoke-Expression (& rah env --shell powershell)");
    if shell == "bash"@ || shell == "zsh"@ {
        let head = "_rah_hook() {\n    eval \"$(command rah env --shell "@;
        let code = posix_hook(shell);
        let p: int = (head.len() + shell.len() + 6) as int;
        let t = "rah() {\n    command rah \"$@\"\n    _rah_hook\n}"@;
        let tail = ")\"\n}\n\nrah() {\n    command rah \"$@\"\n    _rah_hook\n}\n\n_rah_hook"@;
        assert(tail.subrange(6, 6 + t.len() as int) =~= t);
        assert(code == (head + shell) + tail);
        assert forall|i: int| 0 <= i < t.len() implies code.subrange(p, p + t.len() as int)[i] == t[i] by {
            assert(code[p + i] == tail[6 + i]);
            assert(tail.subrange(6, 6 + t.len() as int)[i] == tail[6 + i]);
        }
        assert(code.subrange(p, p + t.len() as int) =~= t);
        assert(occurs_at(code, t, p));
    }
    if shell == "fish"@ {
        let t = "function rah\n    command rah $argv\n"@;
        assert(fish_hook().subrange(0, t.len() as int) =~= t);
        assert(occurs_at(fish_hook(), t, 0));
        assert(shell[0] != "bash"@[0] && shell.len() != "zsh"@.len());
        assert(shell != "bash"@ && shell != "zsh"@);
        assert(activation_for(shell) == Some(fish_hook()));
        assert(contains_str(activation_for(shell)->0, t));
    }
    if shell == "powershell"@ || shell == "pwsh"@ {
        let t = "function rah {\n    & rah @args\n"@;
        assert(powershell_hook().subrange(0, t.len() as int) =~= t);
        assert(occurs_at(powershell_hook(), t, 0));
        assert(shell[0] != "bash"@[0] && shell[0] != "zsh"@[0] && shell[0] != "fish"@[0]);
        assert(shell != "bash"@ && shell != "zsh"@ && shell != "fish"@);
        assert(activation_for(shell) == Some(powershell_hook()));
        assert(contains_str(activation_for(shell)->0, t));
    }
}

/// The shells `rah completion` accepts.
pub open spec fn completion_shell(shell: Seq<char>) -> bool {
    shell == "bash"@ || shell == "zsh"@ || shell == "fish"@ || shell == "powershell"@ || shell == "elvish"@
}

/// Whether `rah completion` accepts the shell.
pub fn completion_supported(shell: &str) -> (b: bool)
    ensures
        b == completion_shell(shell@),
{
    str_eq(shell, "bash") || str_eq(shell, "zsh") || str_eq(shell, "fish") || str_eq(shell, "powershell")
        || str_eq(shell, "elvish")
}

} // verus!
