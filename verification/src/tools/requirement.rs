//! Tool requirements written as `[backend:]name[@version]`.

use vstd::prelude::*;

use crate::text::{lemma_split_once_concat, lemma_split_once_none, lemma_split_once_parts, split_once, split_once_char};

verus! {

/// A requested tool: an optional backend, a name and a version.
#[derive(Debug, Clone, PartialEq, Eq)]
pub struct ToolRequirement {
    pub backend: Option<String>,
    pub name: String,
    pub version: String,
}

/// The mathematical value of a [`ToolRequirement`].
pub struct RequirementView {
    pub backend: Option<Seq<char>>,
    pub name: Seq<char>,
    pub version: Seq<char>,
}

impl View for ToolRequirement {
    type V = RequirementView;

    open spec fn view(&self) -> RequirementView {
        RequirementView {
            backend: match self.backend {
                Some(b) => Some(b@),
                None => None,
            },
            name: self.name@,
            version: self.version@,
        }
    }
}

/// Why a requirement string was refused.
#[derive(Debug, Clone, PartialEq, Eq)]
pub enum RequirementError {
    /// The part before `@` is empty.
    EmptyName,
    /// The part after `@` is empty.
    EmptyVersion,
    /// A `backend:name` with an empty side; holds the whole tool part.
    InvalidBackend(String),
}

/// The mathematical value of a [`RequirementError`].
pub enum RequirementErrorView {
    EmptyName,
    EmptyVersion,
    InvalidBackend(Seq<char>),
}

impl View for RequirementError {
    type V = RequirementErrorView;

    open spec fn view(&self) -> RequirementErrorView {
        match self {
            RequirementError::EmptyName => RequirementErrorView::EmptyName,
            RequirementError::EmptyVersion => RequirementErrorView::EmptyVersion,
            RequirementError::InvalidBackend(t) => RequirementErrorView::InvalidBackend(t@),
        }
    }
}

/// The version used when none is written.
pub open spec fn latest() -> Seq<char> {
    seq!['l', 'a', 't', 'e', 's', 't']
}

/// The tool part and version part of an input: split at the first `@`,
/// or the whole input with the version `latest`.
pub open spec fn tool_and_version(input: Seq<char>) -> (Seq<char>, Seq<char>) {
    match split_once(input, '@') {
        Some((tool, version)) => (tool, version),
        None => (input, latest()),
    }
}

/// What parsing a requirement string gives.
pub open spec fn parse_requirement(input: Seq<char>) -> Result<RequirementView, RequirementErrorView> {
    let (tool, version) = tool_and_version(input);
    if tool.len() == 0 {
        Err(RequirementErrorView::EmptyName)
    } else if version.len() == 0 {
        Err(RequirementErrorView::EmptyVersion)
    } else {
        match split_once(tool, ':') {
            Some((backend, name)) => {
                if backend.len() == 0 || name.len() == 0 {
                    Err(RequirementErrorView::InvalidBackend(tool))
                } else {
                    Ok(RequirementView { backend: Some(backend), name, version })
                }
            },
            None => Ok(RequirementView { backend: None, name: tool, version }),
        }
    }
}

/// The written form of a requirement: `backend:name@version` or `name@version`.
pub open spec fn display_requirement(r: RequirementView) -> Seq<char> {
    match r.backend {
        Some(b) => b + seq![':'] + r.name + seq!['@'] + r.version,
        None => r.name + seq!['@'] + r.version,
    }
}

/// The name a requirement is recorded under in `[tools]`: `backend:name` or `name`.
pub open spec fn recorded_name(r: RequirementView) -> Seq<char> {
    match r.backend {
        Some(b) => b + seq![':'] + r.name,
        None => r.name,
    }
}

/// The requirements that parsing can produce.
pub open spec fn well_formed_requirement(r: RequirementView) -> bool {
    &&& r.name.len() > 0
    &&& !r.name.contains('@')
    &&& r.version.len() > 0
    &&& match r.backend {
        Some(b) => b.len() > 0 && !b.contains(':') && !b.contains('@'),
        None => !r.name.contains(':'),
    }
}

/// Every requirement that parsing accepts is well formed: a non-empty name
/// without `@`, a non-empty version, and a non-empty backend without `:` or `@`
/// (or, without a backend, a name without `:`).
pub proof fn lemma_parse_well_formed(input: Seq<char>)
    requires
        parse_requirement(input) is Ok,
    ensures
        well_formed_requirement(parse_requirement(input)->Ok_0),
{
    let (tool, version) = tool_and_version(input);
    match split_once(input, '@') {
        Some(_) => {
            lemma_split_once_parts(input, '@');
        },
        None => {
            lemma_split_once_none(input, '@');
        },
    }
    assert(!tool.contains('@'));
    match split_once(tool, ':') {
        Some((b, n)) => {
            lemma_split_once_parts(tool, ':');
            assert forall|j: int| 0 <= j < b.len() implies b[j] != '@' by {
                assert(b[j] == tool[j]);
            }
            assert forall|j: int| 0 <= j < n.len() implies n[j] != '@' by {
                assert(n[j] == tool[b.len() + 1 + j]);
            }
        },
        None => {
            lemma_split_once_none(tool, ':');
        },
    }
}

/// Writing a well-formed requirement and parsing it back gives the same requirement.
pub proof fn lemma_display_then_parse(r: RequirementView)
    requires
        well_formed_requirement(r),
    ensures
        parse_requirement(display_requirement(r)) == Ok::<RequirementView, RequirementErrorView>(r),
{
    match r.backend {
        Some(b) => {
            let tool = b + seq![':'] + r.name;
            assert(display_requirement(r) =~= tool + seq!['@'] + r.version);
            assert forall|j: int| 0 <= j < tool.len() implies tool[j] != '@' by {
                if j < b.len() {
                    assert(tool[j] == b[j]);
                } else if j > b.len() {
                    assert(tool[j] == r.name[j - b.len() - 1]);
                }
            }
            lemma_split_once_concat(tool, '@', r.version);
            lemma_split_once_concat(b, ':', r.name);
        },
        None => {
            lemma_split_once_concat(r.name, '@', r.version);
            lemma_split_once_none(r.name, ':');
        },
    }
}

/// Parsing and writing back gives the input, with `@latest` added when no
/// version was written.
pub proof fn lemma_parse_then_display(input: Seq<char>)
    requires
        parse_requirement(input) is Ok,
    ensures
        display_requirement(parse_requirement(input)->Ok_0) == (if input.contains('@') {
            input
        } else {
            input + seq!['@'] + latest()
        }),
{
    let (tool, version) = tool_and_version(input);
    lemma_split_once_none(input, '@');
    if input.contains('@') {
        lemma_split_once_parts(input, '@');
    }
    match split_once(tool, ':') {
        Some((b, n)) => {
            lemma_split_once_parts(tool, ':');
            assert(display_requirement(parse_requirement(input)->Ok_0) =~= tool + seq!['@'] + version);
        },
        None => {},
    }
}

impl ToolRequirement {
    /// Parses `[backend:]name[@version]`; the version defaults to `latest`.
    pub fn parse(input: &str) -> (r: Result<ToolRequirement, RequirementError>)
        ensures
            match r {
                Ok(req) => parse_requirement(input@) == Ok::<RequirementView, RequirementErrorView>(req@),
                Err(e) => parse_requirement(input@) == Err::<RequirementView, RequirementErrorView>(e@),
            },
    {
        let (tool, version) = match split_once_char(input, '@') {
            Some((tool, version)) => (tool, version),
            None => {
                let latest_version = String::from_str("latest");
                proof {
                    reveal_strlit("latest");
                    assert(latest_version@ =~= latest());
                }
                (input.to_owned(), latest_version)
            },
        };
        assert(tool_and_version(input@) == (tool@, version@));
        if tool.unicode_len() == 0 {
            return Err(RequirementError::EmptyName);
        }
        if version.unicode_len() == 0 {
            return Err(RequirementError::EmptyVersion);
        }
        match split_once_char(tool.as_str(), ':') {
            Some((backend, name)) => {
                if backend.unicode_len() == 0 || name.unicode_len() == 0 {
                    return Err(RequirementError::InvalidBackend(tool));
                }
                Ok(ToolRequirement { backend: Some(backend), name, version })
            },
            None => Ok(ToolRequirement { backend: None, name: tool, version }),
        }
    }

    /// The name a requirement is recorded under in `[tools]`: `backend:name`, or
    /// the name alone.
    pub fn config_name(&self) -> (s: String)
        ensures
            s@ == recorded_name(self@),
    {
        match &self.backend {
            Some(b) => {
                let mut out = b.clone();
                out.append(":");
                out.append(self.name.as_str());
                proof {
                    reveal_strlit(":");
                }
                out
            },
            None => self.name.clone(),
        }
    }

    /// The written form `backend:name@version` (or `name@version`).
    pub fn to_string(&self) -> (s: String)
        ensures
            s@ == display_requirement(self@),
    {
        let mut out = String::new();
        match &self.backend {
            Some(b) => {
                out.append(b.as_str());
                out.append(":");
            },
            None => {},
        }
        out.append(self.name.as_str());
        out.append("@");
        out.append(self.version.as_str());
        proof {
            reveal_strlit(":");
            reveal_strlit("@");
        }
        out
    }
}

} // verus!
