//! The project configuration, `rah.toml`: its model, where it is found, and the
//! tool requirements it declares.

use vstd::prelude::*;

use crate::string_map::StringMap;
use crate::tools::requirement::{display_requirement, lemma_display_then_parse, recorded_name, well_formed_requirement, parse_requirement, RequirementError, RequirementErrorView, RequirementView, ToolRequirement};

verus! {

/// The contents of `rah.toml`.
pub struct RahConfig {
    /// `[tools]`: tool name to version.
    pub tools: StringMap,
    /// `[env]`: variables set for project commands.
    pub env: StringMap,
    /// `[tasks]`: task name to task, in name order.
    pub tasks: Vec<(String, Task)>,
    /// `[settings]`.
    pub settings: Settings,
}

/// A task of `rah.toml`.
pub struct Task {
    /// The command to run, if any.
    pub run: Option<String>,
    /// The tasks to run first.
    pub depends: Vec<String>,
}

/// The `[settings]` table.
#[derive(Debug, Clone, Copy, PartialEq, Eq, Structural)]
pub struct Settings {
    pub experimental: bool,
}

impl Default for Settings {
    fn default() -> (s: Settings)
        ensures
            s.experimental == false,
    {
        Settings { experimental: false }
    }
}

/// A place `rah.toml` could be: the file in one directory on the way up.
pub struct ConfigCandidate {
    /// The path of `rah.toml` in that directory.
    pub path: String,
    /// Whether that path is a file.
    pub is_file: bool,
}

/// `i` is the nearest candidate that is a file.
pub open spec fn is_nearest_config(candidates: Seq<ConfigCandidate>, i: int) -> bool {
    &&& 0 <= i < candidates.len()
    &&& candidates[i].is_file
    &&& forall|j: int| 0 <= j < i ==> !(#[trigger] candidates[j]).is_file
}

/// The nearest `rah.toml`: the first candidate (the start directory first, then
/// its parents in order) that is a file.
pub fn find(candidates: &Vec<ConfigCandidate>) -> (r: Option<String>)
    ensures
        match r {
            Some(path) => exists|i: int| is_nearest_config(candidates@, i) && path@ == candidates@[i].path@,
            None => forall|i: int| 0 <= i < candidates@.len() ==> !(#[trigger] candidates@[i]).is_file,
        },
{
    let mut i: usize = 0;
    while i < candidates.len()
        invariant
            i <= candidates.len(),
            forall|j: int| 0 <= j < i ==> !(#[trigger] candidates@[j]).is_file,
        decreases candidates.len() - i,
    {
        if candidates[i].is_file {
            assert(is_nearest_config(candidates@, i as int));
            return Some(candidates[i].path.clone());
        }
        i = i + 1;
    }
    None
}

/// The project configuration, if there is one: no `rah.toml` found is no
/// configuration, a found one gives its contents or the error loading it.
pub fn load_config<E>(located: Option<Result<RahConfig, E>>) -> (r: Result<Option<RahConfig>, E>)
    ensures
        match located {
            None => r matches Ok(None),
            Some(Ok(c)) => r == Ok::<Option<RahConfig>, E>(Some(c)),
            Some(Err(e)) => r == Err::<Option<RahConfig>, E>(e),
        },
{
    match located {
        None => Ok(None),
        Some(Ok(c)) => Ok(Some(c)),
        Some(Err(e)) => Err(e),
    }
}

/// Why the `[tools]` of a configuration do not give requirements.
#[derive(Debug, Clone, PartialEq, Eq)]
pub enum ToolsError {
    /// A tool's version is not a string; holds the tool's name.
    VersionNotString(String),
    /// `name@version` is not a valid requirement.
    Requirement(RequirementError),
}

/// The mathematical value of a [`ToolsError`].
pub enum ToolsErrorView {
    VersionNotString(Seq<char>),
    Requirement(RequirementErrorView),
}

/// The requirements of `[tools]` entries (name, version if it is a string): each is
/// `name@version` parsed; the first entry that fails gives the error.
pub open spec fn tools_requirements(entries: Seq<(Seq<char>, Option<Seq<char>>)>) -> Result<Seq<RequirementView>, ToolsErrorView>
    decreases entries.len(),
{
    if entries.len() == 0 {
        Ok(Seq::empty())
    } else {
        match tools_requirements(entries.drop_last()) {
            Err(e) => Err(e),
            Ok(earlier) => {
                let (name, version) = entries.last();
                match version {
                    None => Err(ToolsErrorView::VersionNotString(name)),
                    Some(v) => match parse_requirement(name + seq!['@'] + v) {
                        Ok(r) => Ok(earlier.push(r)),
                        Err(e) => Err(ToolsErrorView::Requirement(e)),
                    },
                }
            },
        }
    }
}

/// The entries, as character sequences.
pub open spec fn entries_view(entries: Seq<(String, Option<String>)>) -> Seq<(Seq<char>, Option<Seq<char>>)> {
    entries.map_values(|e: (String, Option<String>)| (e.0@, match e.1 {
        Some(v) => Some(v@),
        None => None,
    }))
}

/// The requirements the `[tools]` table declares, in table order.
pub fn tools_to_requirements(entries: &Vec<(String, Option<String>)>) -> (r: Result<Vec<ToolRequirement>, ToolsError>)
    ensures
        match r {
            Ok(reqs) => tools_requirements(entries_view(entries@)) == Ok::<Seq<RequirementView>, ToolsErrorView>(
                reqs@.map_values(|q: ToolRequirement| q@),
            ),
            Err(ToolsError::VersionNotString(n)) => tools_requirements(entries_view(entries@))
                == Err::<Seq<RequirementView>, ToolsErrorView>(ToolsErrorView::VersionNotString(n@)),
            Err(ToolsError::Requirement(e)) => tools_requirements(entries_view(entries@))
                == Err::<Seq<RequirementView>, ToolsErrorView>(ToolsErrorView::Requirement(e@)),
        },
{
    let ghost ev = entries_view(entries@);
    let mut reqs: Vec<ToolRequirement> = Vec::new();
    let mut i: usize = 0;
    assert(ev.take(0) =~= Seq::<(Seq<char>, Option<Seq<char>>)>::empty());
    assert(reqs@.map_values(|q: ToolRequirement| q@) =~= Seq::<RequirementView>::empty());
    while i < entries.len()
        invariant
            ev == entries_view(entries@),
            i <= entries.len(),
            tools_requirements(ev.take(i as int)) == Ok::<Seq<RequirementView>, ToolsErrorView>(
                reqs@.map_values(|q: ToolRequirement| q@),
            ),
        decreases entries.len() - i,
    {
        assert(ev.take(i + 1).drop_last() =~= ev.take(i as int));
        assert(ev.take(i + 1).last() == ev[i as int]);
        match &entries[i].1 {
            None => {
                assert(ev[i as int].1 is None);
                proof {
                    lemma_tools_error_stays(ev, i as int + 1);
                }
                return Err(ToolsError::VersionNotString(entries[i].0.clone()));
            },
            Some(v) => {
                let mut written = entries[i].0.clone();
                written.append("@");
                written.append(v.as_str());
                proof {
                    reveal_strlit("@");
                    assert("@"@ =~= seq!['@']);
                    assert(ev[i as int] == (entries@[i as int].0@, Some(v@)));
                }
                match ToolRequirement::parse(written.as_str()) {
                    Ok(q) => {
                        let ghost before = reqs@;
                        reqs.push(q);
                        assert(reqs@.map_values(|q: ToolRequirement| q@) =~= before.map_values(
                            |q: ToolRequirement| q@,
                        ).push(q@));
                    },
                    Err(e) => {
                        proof {
                            lemma_tools_error_stays(ev, i as int + 1);
                        }
                        return Err(ToolsError::Requirement(e));
                    },
                }
            },
        }
        i = i + 1;
    }
    assert(ev.take(entries.len() as int) =~= ev);
    Ok(reqs)
}

/// What `rah use` records is read back as the same requirement: a `[tools]`
/// entry holding a requirement's recorded name and its version gives that
/// requirement.
pub proof fn lemma_recorded_tool_reads_back(r: RequirementView)
    requires
        well_formed_requirement(r),
    ensures
        tools_requirements(seq![(recorded_name(r), Some(r.version))]) == Ok::<Seq<RequirementView>, ToolsErrorView>(seq![r]),
{
    let entries = seq![(recorded_name(r), Some(r.version))];
    assert(entries.drop_last() =~= Seq::<(Seq<char>, Option<Seq<char>>)>::empty());
    assert(tools_requirements(entries.drop_last()) == Ok::<Seq<RequirementView>, ToolsErrorView>(Seq::empty()));
    assert(entries.last() == (recorded_name(r), Some(r.version)));
    assert(recorded_name(r) + seq!['@'] + r.version =~= display_requirement(r));
    lemma_display_then_parse(r);
    assert(Seq::<RequirementView>::empty().push(r) =~= seq![r]);
}

/// Once an entry fails, the whole table fails the same way.
proof fn lemma_tools_error_stays(entries: Seq<(Seq<char>, Option<Seq<char>>)>, n: int)
    requires
        0 <= n <= entries.len(),
        tools_requirements(entries.take(n)) is Err,
    ensures
        tools_requirements(entries) == tools_requirements(entries.take(n)),
    decreases entries.len() - n,
{
    if n < entries.len() {
        assert(entries.take(n + 1).drop_last() =~= entries.take(n));
        lemma_tools_error_stays(entries, n + 1);
    } else {
        assert(entries.take(n) =~= entries);
    }
}

} // verus!
