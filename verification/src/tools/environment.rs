//! The environment Rah resolves for a project, and how it is written for shells.

use vstd::prelude::*;

use crate::string_map::{sorted_pairs, StringMap};
use crate::text::{replace_char, single_quoted, str_eq};

verus! {

/// The complete environment Rah resolves for a project.
pub struct ResolvedEnvironment {
    /// Environment variables to inject into processes.
    pub variables: StringMap,
    /// Executables provided by Rah-managed tools: executable name to absolute path.
    pub executables: StringMap,
}

impl ResolvedEnvironment {
    /// An environment with no variables and no executables.
    pub fn new() -> (e: ResolvedEnvironment)
        ensures
            e.variables@ == Map::<Seq<char>, Seq<char>>::empty(),
            e.executables@ == Map::<Seq<char>, Seq<char>>::empty(),
    {
        ResolvedEnvironment { variables: StringMap::new(), executables: StringMap::new() }
    }
}

impl Default for ResolvedEnvironment {
    fn default() -> (e: ResolvedEnvironment)
        ensures
            e.variables@ == Map::<Seq<char>, Seq<char>>::empty(),
            e.executables@ == Map::<Seq<char>, Seq<char>>::empty(),
    {
        ResolvedEnvironment::new()
    }
}

/// POSIX single-quoting: `'` becomes `'\''` inside single quotes.
pub open spec fn posix_quoted(v: Seq<char>) -> Seq<char> {
    seq!['\''] + replace_char(v, '\'', seq!['\'', '\\', '\'', '\'']) + seq!['\'']
}

/// fish single-quoting: `'` becomes `\'` inside single quotes.
pub open spec fn fish_quoted(v: Seq<char>) -> Seq<char> {
    seq!['\''] + replace_char(v, '\'', seq!['\\', '\'']) + seq!['\'']
}

/// PowerShell single-quoting: `'` becomes `''` inside single quotes.
pub open spec fn powershell_quoted(v: Seq<char>) -> Seq<char> {
    seq!['\''] + replace_char(v, '\'', seq!['\'', '\'']) + seq!['\'']
}

/// Basic POSIX single-quote escaping.
pub fn shell_quote(value: &str) -> (q: String)
    ensures
        q@ == posix_quoted(value@),
{
    let q = single_quoted(value, "'\\''");
    proof {
        reveal_strlit("'\\''");
        assert("'\\''"@ =~= seq!['\'', '\\', '\'', '\'']);
    }
    q
}

/// Basic fish single-quote escaping.
pub fn fish_quote(value: &str) -> (q: String)
    ensures
        q@ == fish_quoted(value@),
{
    let q = single_quoted(value, "\\'");
    proof {
        reveal_strlit("\\'");
        assert("\\'"@ =~= seq!['\\', '\'']);
    }
    q
}

/// Basic PowerShell single-quote escaping.
pub fn powershell_quote(value: &str) -> (q: String)
    ensures
        q@ == powershell_quoted(value@),
{
    let q = single_quoted(value, "''");
    proof {
        reveal_strlit("''");
        assert("''"@ =~= seq!['\'', '\'']);
    }
    q
}

/// The shells Rah writes environments for.
#[derive(Debug, Clone, Copy, PartialEq, Eq, Structural)]
pub enum Shell {
    /// `bash` and `zsh`.
    Posix,
    /// `fish`.
    Fish,
    /// `powershell` and `pwsh`.
    PowerShell,
}

/// The shell a name selects, if it is supported.
pub open spec fn shell_named(name: Seq<char>) -> Option<Shell> {
    if name == "bash"@ || name == "zsh"@ {
        Some(Shell::Posix)
    } else if name == "fish"@ {
        Some(Shell::Fish)
    } else if name == "powershell"@ || name == "pwsh"@ {
        Some(Shell::PowerShell)
    } else {
        None
    }
}

/// The line that sets one variable in a shell.
pub open spec fn shell_line(shell: Shell, key: Seq<char>, value: Seq<char>) -> Seq<char> {
    match shell {
        Shell::Posix => "export "@ + key + "="@ + posix_quoted(value) + "\n"@,
        Shell::Fish => "set -gx "@ + key + " "@ + fish_quoted(value) + "\n"@,
        Shell::PowerShell => "$env:"@ + key + " = "@ + powershell_quoted(value) + "\n"@,
    }
}

/// The lines for a list of variables, in list order.
pub open spec fn shell_script(shell: Shell, pairs: Seq<(Seq<char>, Seq<char>)>) -> Seq<char>
    decreases pairs.len(),
{
    if pairs.len() == 0 {
        Seq::empty()
    } else {
        shell_script(shell, pairs.drop_last()) + shell_line(shell, pairs.last().0, pairs.last().1)
    }
}

/// The script that sets the variables of an environment, in key order.
pub open spec fn environment_script(shell: Shell, environment: &ResolvedEnvironment) -> Seq<char> {
    shell_script(shell, sorted_pairs(environment.variables@))
}

/// Sort variables for deterministic output: the entries in increasing key order.
pub fn sorted_variables(variables: &StringMap) -> (r: Vec<(String, String)>)
    ensures
        crate::string_map::pairs_view(r@) == sorted_pairs(variables@),
{
    variables.sorted_entries()
}

/// One line for `shell` setting `key` to `value`.
fn render_line(shell: Shell, key: &str, value: &str) -> (line: String)
    ensures
        line@ == shell_line(shell, key@, value@),
{
    let mut line = String::new();
    match shell {
        Shell::Posix => {
            line.append("export ");
            line.append(key);
            line.append("=");
            line.append(shell_quote(value).as_str());
        },
        Shell::Fish => {
            line.append("set -gx ");
            line.append(key);
            line.append(" ");
            line.append(fish_quote(value).as_str());
        },
        Shell::PowerShell => {
            line.append("$env:");
            line.append(key);
            line.append(" = ");
            line.append(powershell_quote(value).as_str());
        },
    }
    line.append("\n");
    line
}

/// The variables of `environment` as `shell` commands, one per line, in key order.
fn render_environment(shell: Shell, environment: &ResolvedEnvironment) -> (out: String)
    ensures
        out@ == environment_script(shell, environment),
{
    let pairs = sorted_variables(&environment.variables);
    let ghost ps = crate::string_map::pairs_view(pairs@);
    let mut out = String::new();
    let mut i: usize = 0;
    while i < pairs.len()
        invariant
            ps == crate::string_map::pairs_view(pairs@),
            i <= pairs.len(),
            out@ == shell_script(shell, ps.take(i as int)),
        decreases pairs.len() - i,
    {
        let line = render_line(shell, pairs[i].0.as_str(), pairs[i].1.as_str());
        out.append(line.as_str());
        assert(ps.take(i + 1).drop_last() =~= ps.take(i as int));
        i = i + 1;
    }
    assert(ps.take(pairs.len() as int) =~= ps);
    out
}

/// Render environment variables as POSIX shell exports.
pub fn render_posix_environment(environment: &ResolvedEnvironment) -> (out: String)
    ensures
        out@ == environment_script(Shell::Posix, environment),
{
    render_environment(Shell::Posix, environment)
}

/// Render environment variables for fish.
pub fn render_fish_environment(environment: &ResolvedEnvironment) -> (out: String)
    ensures
        out@ == environment_script(Shell::Fish, environment),
{
    render_environment(Shell::Fish, environment)
}

/// Render environment variables for PowerShell.
pub fn render_powershell_environment(environment: &ResolvedEnvironment) -> (out: String)
    ensures
        out@ == environment_script(Shell::PowerShell, environment),
{
    render_environment(Shell::PowerShell, environment)
}

/// Why an environment could not be written for a shell.
#[derive(Debug, Clone, PartialEq, Eq)]
pub enum EnvironmentError {
    /// The named shell is not supported; holds its name.
    UnsupportedShell(String),
}

/// Shell commands for a resolved environment: `bash`/`zsh` exports, `fish`
/// `set -gx`, or PowerShell `$env:` assignments; any other shell is refused.
pub fn render_shell_environment(environment: &ResolvedEnvironment, shell: &str) -> (r: Result<String, EnvironmentError>)
    ensures
        match shell_named(shell@) {
            Some(kind) => r matches Ok(out) && out@ == environment_script(kind, environment),
            None => r matches Err(EnvironmentError::UnsupportedShell(name)) && name@ == shell@,
        },
{
    if str_eq(shell, "bash") || str_eq(shell, "zsh") {
        Ok(render_posix_environment(environment))
    } else if str_eq(shell, "fish") {
        Ok(render_fish_environment(environment))
    } else if str_eq(shell, "powershell") || str_eq(shell, "pwsh") {
        Ok(render_powershell_environment(environment))
    } else {
        Err(EnvironmentError::UnsupportedShell(shell.to_owned()))
    }
}


/// Registering executables one after another, where an executable already
/// registered is never replaced: the first one wins.
pub open spec fn first_wins(m: Map<Seq<char>, Seq<char>>, found: Seq<(Seq<char>, Seq<char>)>) -> Map<Seq<char>, Seq<char>>
    decreases found.len(),
{
    if found.len() == 0 {
        m
    } else {
        let before = first_wins(m, found.drop_last());
        if before.contains_key(found.last().0) {
            before
        } else {
            before.insert(found.last().0, found.last().1)
        }
    }
}

/// Registering each tool's executables in turn.
pub open spec fn register_tools(m: Map<Seq<char>, Seq<char>>, tools: Seq<Seq<(Seq<char>, Seq<char>)>>) -> Map<Seq<char>, Seq<char>>
    decreases tools.len(),
{
    if tools.len() == 0 {
        m
    } else {
        first_wins(register_tools(m, tools.drop_last()), tools.last())
    }
}

/// All executables of all tools, tool after tool.
pub open spec fn flatten(tools: Seq<Seq<(Seq<char>, Seq<char>)>>) -> Seq<(Seq<char>, Seq<char>)>
    decreases tools.len(),
{
    if tools.len() == 0 {
        Seq::empty()
    } else {
        flatten(tools.drop_last()) + tools.last()
    }
}

/// Parts joined by a separator.
pub open spec fn join(parts: Seq<Seq<char>>, sep: Seq<char>) -> Seq<char>
    decreases parts.len(),
{
    if parts.len() == 0 {
        Seq::empty()
    } else if parts.len() == 1 {
        parts[0]
    } else {
        join(parts.drop_last(), sep) + sep + parts.last()
    }
}

/// The `PATH` with the tools' `bin` directories first, then the inherited one (if not empty).
pub open spec fn tool_path(bins: Seq<Seq<char>>, sep: Seq<char>, current: Seq<char>) -> Seq<char> {
    if current.len() == 0 {
        join(bins, sep)
    } else {
        join(bins, sep) + sep + current
    }
}

/// A tool installed on disk: its `bin` directory and the executables found in it,
/// each as (file name, absolute path), in directory order.
pub struct InstalledTool {
    pub bin: String,
    pub executables: Vec<(String, String)>,
}

/// The `bin` directories of the tools.
pub open spec fn tool_bins(tools: Seq<InstalledTool>) -> Seq<Seq<char>> {
    tools.map_values(|t: InstalledTool| t.bin@)
}

/// The executables of each tool.
pub open spec fn tool_executables(tools: Seq<InstalledTool>) -> Seq<Seq<(Seq<char>, Seq<char>)>> {
    tools.map_values(|t: InstalledTool| crate::string_map::pairs_view(t.executables@))
}

/// The variables of the environment made for `tools`: `PATH` (when there is a
/// tool) with the tools first, then the project's `[env]` over it.
pub open spec fn assembled_variables(
    tools: Seq<InstalledTool>,
    sep: Seq<char>,
    current: Seq<char>,
    project_env: Map<Seq<char>, Seq<char>>,
) -> Map<Seq<char>, Seq<char>> {
    let base = if tools.len() > 0 {
        Map::<Seq<char>, Seq<char>>::empty().insert("PATH"@, tool_path(tool_bins(tools), sep, current))
    } else {
        Map::<Seq<char>, Seq<char>>::empty()
    };
    base.union_prefer_right(project_env)
}

/// Register the executables found in one tool's `bin` directory; a name that is
/// already registered keeps its first path.
pub fn register_executables(executables: &mut StringMap, found: &Vec<(String, String)>)
    ensures
        final(executables)@ == first_wins(old(executables)@, crate::string_map::pairs_view(found@)),
{
    let ghost start = executables@;
    let ghost fv = crate::string_map::pairs_view(found@);
    let mut i: usize = 0;
    while i < found.len()
        invariant
            fv == crate::string_map::pairs_view(found@),
            i <= found.len(),
            executables@ == first_wins(start, fv.take(i as int)),
        decreases found.len() - i,
    {
        let name = found[i].0.clone();
        let path = found[i].1.clone();
        executables.insert_if_absent(name, path);
        assert(fv.take(i + 1).drop_last() =~= fv.take(i as int));
        i = i + 1;
    }
    assert(fv.take(found.len() as int) =~= fv);
}

/// The parts joined by `sep`.
pub fn join_strings(parts: &Vec<String>, sep: &str) -> (out: String)
    ensures
        out@ == join(parts@.map_values(|p: String| p@), sep@),
{
    let ghost pv = parts@.map_values(|p: String| p@);
    let mut out = String::new();
    let mut i: usize = 0;
    while i < parts.len()
        invariant
            pv == parts@.map_values(|p: String| p@),
            i <= parts.len(),
            out@ == join(pv.take(i as int), sep@),
        decreases parts.len() - i,
    {
        if i > 0 {
            out.append(sep);
        }
        out.append(parts[i].as_str());
        assert(pv.take(i + 1).drop_last() =~= pv.take(i as int));
        if i == 0 {
            assert(out@ =~= pv.take(1)[0]);
        }
        i = i + 1;
    }
    assert(pv.take(parts.len() as int) =~= pv);
    out
}

/// The environment for a set of installed tools, which is the computing part of
/// resolving a project's environment:
/// - every executable of every tool is registered, the first tool winning a name;
/// - when there is a tool, `PATH` holds the tools' `bin` directories first, joined
///   by `separator`, then the inherited `current_path` if it is not empty;
/// - the project's `[env]` variables come last and override anything else.
pub fn assemble_environment(
    tools: &Vec<InstalledTool>,
    separator: &str,
    current_path: &str,
    project_env: &StringMap,
) -> (e: ResolvedEnvironment)
    ensures
        e.executables@ == register_tools(Map::empty(), tool_executables(tools@)),
        e.variables@ == assembled_variables(tools@, separator@, current_path@, project_env@),
{
    let mut environment = ResolvedEnvironment::new();
    let mut bins: Vec<String> = Vec::new();
    let ghost te = tool_executables(tools@);
    let mut i: usize = 0;
    while i < tools.len()
        invariant
            te == tool_executables(tools@),
            i <= tools.len(),
            bins@.map_values(|p: String| p@) =~= tool_bins(tools@).take(i as int),
            environment.executables@ == register_tools(Map::empty(), te.take(i as int)),
            environment.variables@ == Map::<Seq<char>, Seq<char>>::empty(),
        decreases tools.len() - i,
    {
        let b = tools[i].bin.clone();
        let ghost before = bins@;
        bins.push(b);
        proof {
            assert(before.map_values(|p: String| p@).len() == before.len());
            assert(bins@ == before.push(b));
            assert(bins@.map_values(|p: String| p@) =~= before.map_values(|p: String| p@).push(b@));
            assert(tool_bins(tools@)[i as int] == b@);
        }
        register_executables(&mut environment.executables, &tools[i].executables);
        assert(te.take(i + 1).drop_last() =~= te.take(i as int));
        i = i + 1;
    }
    assert(te.take(tools.len() as int) =~= te);
    assert(tool_bins(tools@).take(tools.len() as int) =~= tool_bins(tools@));
    if tools.len() > 0 {
        let rah_path = join_strings(&bins, separator);
        let value = if current_path.unicode_len() == 0 {
            rah_path
        } else {
            let mut v = rah_path;
            v.append(separator);
            v.append(current_path);
            v
        };
        environment.variables.insert(String::from_str("PATH"), value);
    }
    apply_project_env(&mut environment.variables, project_env);
    environment
}

/// Load the project's `[env]` variables over the others: each one replaces any
/// variable of the same name.
pub fn apply_project_env(variables: &mut StringMap, project_env: &StringMap)
    ensures
        final(variables)@ == old(variables)@.union_prefer_right(project_env@),
{
    let entries = project_env.sorted_entries();
    let ghost ev = crate::string_map::pairs_view(entries@);
    let ghost start = variables@;
    let mut i: usize = 0;
    while i < entries.len()
        invariant
            ev == crate::string_map::pairs_view(entries@),
            crate::string_map::keys_sorted(ev),
            crate::string_map::pairs_map(ev) == project_env@,
            i <= entries.len(),
            variables@ == start.union_prefer_right(crate::string_map::pairs_map(ev.take(i as int))),
        decreases entries.len() - i,
    {
        let k = entries[i].0.clone();
        let v = entries[i].1.clone();
        variables.insert(k, v);
        proof {
            crate::string_map::lemma_pairs_map_take_push(ev, i as int);
            assert(variables@ =~= start.union_prefer_right(crate::string_map::pairs_map(ev.take(i + 1))));
        }
        i = i + 1;
    }
    assert(ev.take(entries.len() as int) =~= ev);
}


/// A name that was already registered keeps its path.
pub proof fn lemma_registered_name_kept(m: Map<Seq<char>, Seq<char>>, found: Seq<(Seq<char>, Seq<char>)>, k: Seq<char>)
    requires
        m.contains_key(k),
    ensures
        first_wins(m, found).contains_key(k),
        first_wins(m, found)[k] == m[k],
    decreases found.len(),
{
    if found.len() > 0 {
        lemma_registered_name_kept(m, found.drop_last(), k);
    }
}

/// A name that was not registered and is not found stays unregistered.
proof fn lemma_unfound_name_absent(m: Map<Seq<char>, Seq<char>>, found: Seq<(Seq<char>, Seq<char>)>, k: Seq<char>)
    requires
        !m.contains_key(k),
        forall|j: int| 0 <= j < found.len() ==> found[j].0 != k,
    ensures
        !first_wins(m, found).contains_key(k),
    decreases found.len(),
{
    if found.len() > 0 {
        let prefix = found.drop_last();
        assert forall|j: int| 0 <= j < prefix.len() implies prefix[j].0 != k by {
            assert(prefix[j] == found[j]);
        }
        lemma_unfound_name_absent(m, prefix, k);
    }
}

/// The first tool wins: a name that was not registered gets the path of its
/// first occurrence, whatever comes after it.
pub proof fn lemma_first_registration_wins(m: Map<Seq<char>, Seq<char>>, found: Seq<(Seq<char>, Seq<char>)>, i: int)
    requires
        0 <= i < found.len(),
        !m.contains_key(found[i].0),
        forall|j: int| 0 <= j < i ==> found[j].0 != found[i].0,
    ensures
        first_wins(m, found).contains_key(found[i].0),
        first_wins(m, found)[found[i].0] == found[i].1,
    decreases found.len(),
{
    let k = found[i].0;
    let prefix = found.drop_last();
    if i == found.len() - 1 {
        assert forall|j: int| 0 <= j < prefix.len() implies prefix[j].0 != k by {
            assert(prefix[j] == found[j]);
        }
        lemma_unfound_name_absent(m, prefix, k);
    } else {
        assert(prefix[i] == found[i]);
        assert forall|j: int| 0 <= j < i implies prefix[j].0 != prefix[i].0 by {
            assert(prefix[j] == found[j]);
        }
        lemma_first_registration_wins(m, prefix, i);
    }
}

/// Registering a list and then another is registering the two lists one after the other.
pub proof fn lemma_first_wins_concat(m: Map<Seq<char>, Seq<char>>, a: Seq<(Seq<char>, Seq<char>)>, b: Seq<(Seq<char>, Seq<char>)>)
    ensures
        first_wins(m, a + b) == first_wins(first_wins(m, a), b),
    decreases b.len(),
{
    if b.len() == 0 {
        assert(a + b =~= a);
    } else {
        assert((a + b).drop_last() =~= a + b.drop_last());
        lemma_first_wins_concat(m, a, b.drop_last());
    }
}

/// Registering the tools one by one is registering all their executables in order,
/// so across tools too the first tool that provides a name wins.
pub proof fn lemma_register_tools_is_flat(m: Map<Seq<char>, Seq<char>>, tools: Seq<Seq<(Seq<char>, Seq<char>)>>)
    ensures
        register_tools(m, tools) == first_wins(m, flatten(tools)),
    decreases tools.len(),
{
    if tools.len() > 0 {
        lemma_register_tools_is_flat(m, tools.drop_last());
        lemma_first_wins_concat(m, flatten(tools.drop_last()), tools.last());
    }
}

/// The project's `[env]` overrides: every variable it sets has its value, and every
/// other variable is as before.
pub proof fn lemma_project_env_overrides(before: Map<Seq<char>, Seq<char>>, project_env: Map<Seq<char>, Seq<char>>, k: Seq<char>)
    ensures
        project_env.contains_key(k) ==> before.union_prefer_right(project_env)[k] == project_env[k],
        !project_env.contains_key(k) ==> before.union_prefer_right(project_env).contains_key(k) == before.contains_key(k),
        !project_env.contains_key(k) && before.contains_key(k) ==> before.union_prefer_right(project_env)[k] == before[k],
{
}

/// Rah-managed binaries come first: unless the project's `[env]` sets `PATH`, the
/// resolved `PATH` starts with the tools' `bin` directories, in tool order.
pub proof fn lemma_tools_first_in_path(
    tools: Seq<InstalledTool>,
    sep: Seq<char>,
    current: Seq<char>,
    project_env: Map<Seq<char>, Seq<char>>,
)
    requires
        tools.len() > 0,
        !project_env.contains_key("PATH"@),
    ensures
        assembled_variables(tools, sep, current, project_env).contains_key("PATH"@),
        assembled_variables(tools, sep, current, project_env)["PATH"@].take(join(tool_bins(tools), sep).len() as int)
            == join(tool_bins(tools), sep),
{
    let j = join(tool_bins(tools), sep);
    let p = tool_path(tool_bins(tools), sep, current);
    assert(p.take(j.len() as int) =~= j);
}


/// How a POSIX shell reads a word made of single-quoted parts and backslash
/// escapes: inside quotes every character stands for itself up to the closing
/// quote; outside, a backslash takes the next character literally. `None` when a
/// quote is left open or a backslash ends the word.
pub open spec fn posix_read(q: Seq<char>, quoted: bool) -> Option<Seq<char>>
    decreases q.len(),
{
    if q.len() == 0 {
        if quoted { None } else { Some(Seq::empty()) }
    } else if quoted {
        if q[0] == '\'' {
            posix_read(q.drop_first(), false)
        } else {
            match posix_read(q.drop_first(), true) {
                Some(rest) => Some(seq![q[0]] + rest),
                None => None,
            }
        }
    } else if q[0] == '\'' {
        posix_read(q.drop_first(), true)
    } else if q[0] == '\\' {
        if q.len() < 2 {
            None
        } else {
            match posix_read(q.skip(2), false) {
                Some(rest) => Some(seq![q[1]] + rest),
                None => None,
            }
        }
    } else {
        match posix_read(q.drop_first(), false) {
            Some(rest) => Some(seq![q[0]] + rest),
            None => None,
        }
    }
}

/// `v` followed by what `rest` reads as, if it reads.
pub open spec fn then_read(v: Seq<char>, rest: Option<Seq<char>>) -> Option<Seq<char>> {
    match rest {
        Some(t) => Some(v + t),
        None => None,
    }
}

proof fn lemma_posix_read_quoted_body(v: Seq<char>, tail: Seq<char>)
    ensures
        posix_read(replace_char(v, '\'', seq!['\'', '\\', '\'', '\'']) + seq!['\''] + tail, true)
            == then_read(v, posix_read(tail, false)),
    decreases v.len(),
{
    let r = seq!['\'', '\\', '\'', '\''];
    if v.len() == 0 {
        let q = seq!['\''] + tail;
        assert(replace_char(v, '\'', r) + seq!['\''] + tail =~= q);
        assert(q.drop_first() =~= tail);
        assert(posix_read(q, true) == posix_read(q.drop_first(), false));
        match posix_read(tail, false) {
            Some(t) => assert(v + t =~= t),
            None => {},
        }
    } else {
        crate::text::lemma_replace_char_first(v, '\'', r);
        let rest = replace_char(v.drop_first(), '\'', r) + seq!['\''] + tail;
        lemma_posix_read_quoted_body(v.drop_first(), tail);
        let inner = posix_read(rest, true);
        if v[0] == '\'' {
            let q = r + rest;
            assert(replace_char(v, '\'', r) + seq!['\''] + tail =~= q);
            let q1 = q.drop_first();
            assert(q1 =~= seq!['\\', '\'', '\''] + rest);
            let q2 = q1.skip(2);
            assert(q2 =~= seq!['\''] + rest);
            assert(q2.drop_first() =~= rest);
            assert(posix_read(q, true) == posix_read(q1, false));
            assert(posix_read(q1, false) == then_read(seq![q1[1]], posix_read(q2, false)));
            assert(posix_read(q2, false) == posix_read(q2.drop_first(), true));
            assert(posix_read(q, true) == then_read(seq!['\''], inner));
        } else {
            let q = seq![v[0]] + rest;
            assert(replace_char(v, '\'', r) + seq!['\''] + tail =~= q);
            assert(q.drop_first() =~= rest);
            assert(posix_read(q, true) == then_read(seq![v[0]], posix_read(q.drop_first(), true)));
        }
        match posix_read(tail, false) {
            Some(t) => assert(seq![v[0]] + (v.drop_first() + t) =~= v + t),
            None => {},
        }
    }
}

/// A POSIX shell reads the quoted value back as the value.
pub proof fn lemma_posix_quote_reads_back(v: Seq<char>)
    ensures
        posix_read(posix_quoted(v), false) == Some(v),
{
    let body = replace_char(v, '\'', seq!['\'', '\\', '\'', '\'']);
    assert(posix_quoted(v).drop_first() =~= body + seq!['\''] + Seq::<char>::empty());
    lemma_posix_read_quoted_body(v, Seq::empty());
    assert(v + Seq::<char>::empty() =~= v);
}

/// How PowerShell reads a single-quoted string: inside the quotes `''` stands for
/// one quote and a lone quote closes the string, which must end there.
pub open spec fn powershell_read_body(q: Seq<char>) -> Option<Seq<char>>
    decreases q.len(),
{
    if q.len() == 0 {
        None
    } else if q[0] == '\'' {
        if q.len() >= 2 && q[1] == '\'' {
            then_read(seq!['\''], powershell_read_body(q.skip(2)))
        } else if q.len() == 1 {
            Some(Seq::empty())
        } else {
            None
        }
    } else {
        then_read(seq![q[0]], powershell_read_body(q.drop_first()))
    }
}

/// How PowerShell reads a single-quoted string literal.
pub open spec fn powershell_read(q: Seq<char>) -> Option<Seq<char>> {
    if q.len() > 0 && q[0] == '\'' {
        powershell_read_body(q.drop_first())
    } else {
        None
    }
}

/// PowerShell reads the quoted value back as the value.
pub proof fn lemma_powershell_quote_reads_back(v: Seq<char>)
    ensures
        powershell_read(powershell_quoted(v)) == Some(v),
    decreases v.len(),
{
    let r = seq!['\'', '\''];
    assert(powershell_quoted(v).drop_first() =~= replace_char(v, '\'', r) + seq!['\'']);
    lemma_powershell_body(v);
}

proof fn lemma_powershell_body(v: Seq<char>)
    ensures
        powershell_read_body(replace_char(v, '\'', seq!['\'', '\'']) + seq!['\'']) == Some(v),
    decreases v.len(),
{
    let r = seq!['\'', '\''];
    if v.len() == 0 {
        assert(replace_char(v, '\'', r) + seq!['\''] =~= seq!['\'']);
    } else {
        crate::text::lemma_replace_char_first(v, '\'', r);
        let rest = replace_char(v.drop_first(), '\'', r) + seq!['\''];
        lemma_powershell_body(v.drop_first());
        if v[0] == '\'' {
            let q = r + rest;
            assert(replace_char(v, '\'', r) + seq!['\''] =~= q);
            assert(q.skip(2) =~= rest);
        } else {
            let q = seq![v[0]] + rest;
            assert(replace_char(v, '\'', r) + seq!['\''] =~= q);
            assert(q.drop_first() =~= rest);
        }
        assert(seq![v[0]] + v.drop_first() =~= v);
    }
}

/// How fish reads a single-quoted string: inside the quotes `\'` stands for a
/// quote and `\\` for a backslash; a lone quote closes the string, which must end there.
pub open spec fn fish_read_body(q: Seq<char>) -> Option<Seq<char>>
    decreases q.len(),
{
    if q.len() == 0 {
        None
    } else if q[0] == '\'' {
        if q.len() == 1 { Some(Seq::empty()) } else { None }
    } else if q[0] == '\\' && q.len() >= 2 && (q[1] == '\'' || q[1] == '\\') {
        then_read(seq![q[1]], fish_read_body(q.skip(2)))
    } else {
        then_read(seq![q[0]], fish_read_body(q.drop_first()))
    }
}

/// How fish reads a single-quoted string literal.
pub open spec fn fish_read(q: Seq<char>) -> Option<Seq<char>> {
    if q.len() > 0 && q[0] == '\'' {
        fish_read_body(q.drop_first())
    } else {
        None
    }
}

proof fn lemma_fish_body(v: Seq<char>)
    requires
        !v.contains('\\'),
    ensures
        fish_read_body(replace_char(v, '\'', seq!['\\', '\'']) + seq!['\'']) == Some(v),
    decreases v.len(),
{
    let r = seq!['\\', '\''];
    if v.len() == 0 {
        assert(replace_char(v, '\'', r) + seq!['\''] =~= seq!['\'']);
    } else {
        crate::text::lemma_replace_char_first(v, '\'', r);
        let rest = replace_char(v.drop_first(), '\'', r) + seq!['\''];
        assert(!v.drop_first().contains('\\')) by {
            if v.drop_first().contains('\\') {
                let k = choose|k: int| 0 <= k < v.drop_first().len() && v.drop_first()[k] == '\\';
                assert(v[k + 1] == '\\');
            }
        }
        assert(v[0] != '\\');
        lemma_fish_body(v.drop_first());
        if v[0] == '\'' {
            let q = r + rest;
            assert(replace_char(v, '\'', r) + seq!['\''] =~= q);
            assert(q.skip(2) =~= rest);
        } else {
            let q = seq![v[0]] + rest;
            assert(replace_char(v, '\'', r) + seq!['\''] =~= q);
            assert(q.drop_first() =~= rest);
        }
        assert(seq![v[0]] + v.drop_first() =~= v);
    }
}

/// fish reads the quoted value back as the value, for values without a backslash.
/// (With a backslash before the end or before a quote, fish reads `\'` or `\\`
/// as an escape: `a\` is quoted as `'a\'`, which leaves the quote open.)
pub proof fn lemma_fish_quote_reads_back(v: Seq<char>)
    requires
        !v.contains('\\'),
    ensures
        fish_read(fish_quoted(v)) == Some(v),
{
    assert(fish_quoted(v).drop_first() =~= replace_char(v, '\'', seq!['\\', '\'']) + seq!['\'']);
    lemma_fish_body(v);
}

} // verus!
