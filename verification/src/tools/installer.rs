//! Installing tools: choosing the backend, and turning an unpacked archive into
//! `<install>/<tool>/<version>/bin/<executable>`.

use vstd::prelude::*;

use super::registry::ToolRegistry;
use super::backend::BackendKind;
use crate::text::{chars_of, codes, lowered, lowered_starts_with};

verus! {

/// Installs tools through the backends of its registry.
pub struct ToolInstaller {
    pub registry: ToolRegistry,
}

impl ToolInstaller {
    /// An installer over the default registry.
    pub fn new() -> (i: ToolInstaller)
        ensures
            i.registry.spec_backends() == seq![BackendKind::GitHub],
    {
        ToolInstaller { registry: ToolRegistry::new() }
    }
}

impl Default for ToolInstaller {
    fn default() -> (i: ToolInstaller)
        ensures
            i.registry.spec_backends() == seq![BackendKind::GitHub],
    {
        ToolInstaller::new()
    }
}

/// `name`, compared without regard to ASCII case, is `base`, or starts with
/// `dotted` (which is `base` followed by a dot).
pub open spec fn is_named(name: Seq<char>, base: Seq<char>, dotted: Seq<char>) -> bool {
    ||| lowered(name) == codes(base)
    ||| dotted.len() <= name.len() && lowered(name).take(dotted.len() as int) == codes(dotted)
}

/// Obvious metadata or documentation: `readme`, `license` or `copying`, alone or
/// with an extension, in any ASCII case.
pub open spec fn metadata_name(name: Seq<char>) -> bool {
    ||| is_named(name, "readme"@, "readme."@)
    ||| is_named(name, "license"@, "license."@)
    ||| is_named(name, "copying"@, "copying."@)
}

/// Metadata is told without regard to ASCII case: two names that differ only in
/// the case of ASCII letters are both metadata or both not, and every spelling of
/// `readme`, `license` or `copying`, alone or followed by a dot and more, is
/// metadata.
pub proof fn lemma_metadata_ignores_case(a: Seq<char>, b: Seq<char>)
    ensures
        lowered(a) == lowered(b) ==> (metadata_name(a) <==> metadata_name(b)),
        (lowered(a) == codes("readme"@) || lowered(a) == codes("license"@) || lowered(a) == codes("copying"@))
            ==> metadata_name(a),
        (a.len() >= 7 && lowered(a).take(7) == codes("readme."@)) ==> metadata_name(a),
        (a.len() >= 8 && lowered(a).take(8) == codes("license."@)) ==> metadata_name(a),
        (a.len() >= 8 && lowered(a).take(8) == codes("copying."@)) ==> metadata_name(a),
{
    if lowered(a) == lowered(b) {
        assert(a.len() == lowered(a).len() && b.len() == lowered(b).len());
    }
    reveal_strlit("readme.");
    reveal_strlit("license.");
    reveal_strlit("copying.");
    if lowered(a).take(7) == codes("readme."@) {
        assert(codes("readme."@).len() == 7);
    }
    if lowered(a).take(8) == codes("license."@) {
        assert(codes("license."@).len() == 8);
    }
    if lowered(a).take(8) == codes("copying."@) {
        assert(codes("copying."@).len() == 8);
    }
}

/// Whether a file name is obvious metadata or documentation.
pub fn is_metadata(name: &str) -> (b: bool)
    ensures
        b == metadata_name(name@),
{
    let chars = chars_of(name);
    lowered_starts_with(&chars, "readme", true) || lowered_starts_with(&chars, "readme.", false)
        || lowered_starts_with(&chars, "license", true) || lowered_starts_with(&chars, "license.", false)
        || lowered_starts_with(&chars, "copying", true) || lowered_starts_with(&chars, "copying.", false)
}

/// Why an unpacked archive could not be installed.
#[derive(Debug, Clone, Copy, PartialEq, Eq, Structural)]
pub enum InstallError {
    /// The archive held no files.
    NoFiles,
    /// A file's name is not valid Unicode.
    InvalidFileName,
}

/// What to do with the files of an unpacked archive.
pub struct NormalizationPlan {
    /// The positions of the files to copy into `bin`, in order.
    pub copies: Vec<usize>,
    /// The error reached after those copies, if any.
    pub error: Option<InstallError>,
}

/// The positions before `end` whose files are not metadata, in order.
pub open spec fn copies_before(names: Seq<Option<Seq<char>>>, end: int) -> Seq<usize>
    decreases end,
{
    if end <= 0 {
        Seq::empty()
    } else {
        let earlier = copies_before(names, end - 1);
        match names[end - 1] {
            Some(n) => if metadata_name(n) {
                earlier
            } else {
                earlier.push((end - 1) as usize)
            },
            None => earlier,
        }
    }
}

/// The position of the first file without a valid name, or the number of files.
pub open spec fn first_invalid(names: Seq<Option<Seq<char>>>, f: int) -> bool {
    &&& 0 <= f <= names.len()
    &&& forall|j: int| 0 <= j < f ==> names[j] is Some
    &&& f < names.len() ==> names[f] is None
}

/// The names of the files, as character sequences.
pub open spec fn names_view(names: Seq<Option<String>>) -> Seq<Option<Seq<char>>> {
    names.map_values(|n: Option<String>| match n {
        Some(s) => Some(s@),
        None => None,
    })
}

/// How the files of an unpacked archive (given by their names, `None` where a name
/// is not valid Unicode) become the tool's executables: an empty archive is an
/// error; otherwise each file in turn is copied unless it is metadata, until a
/// file without a valid name stops the installation with an error.
pub fn plan_normalization(names: &Vec<Option<String>>) -> (plan: NormalizationPlan)
    ensures
        names@.len() == 0 ==> plan.copies@.len() == 0 && plan.error == Some(InstallError::NoFiles),
        names@.len() > 0 ==> exists|f: int|
            first_invalid(names_view(names@), f) && plan.copies@ == copies_before(names_view(names@), f)
                && plan.error == (if f < names@.len() {
                Some(InstallError::InvalidFileName)
            } else {
                None
            }),
{
    let ghost nv = names_view(names@);
    let mut copies: Vec<usize> = Vec::new();
    if names.len() == 0 {
        return NormalizationPlan { copies, error: Some(InstallError::NoFiles) };
    }
    let mut i: usize = 0;
    while i < names.len()
        invariant
            nv == names_view(names@),
            i <= names.len(),
            forall|j: int| 0 <= j < i ==> nv[j] is Some,
            copies@ == copies_before(nv, i as int),
        decreases names.len() - i,
    {
        match &names[i] {
            Some(n) => {
                if !is_metadata(n.as_str()) {
                    copies.push(i);
                }
            },
            None => {
                assert(first_invalid(nv, i as int));
                return NormalizationPlan { copies, error: Some(InstallError::InvalidFileName) };
            },
        }
        i = i + 1;
    }
    assert(first_invalid(nv, i as int));
    NormalizationPlan { copies, error: None }
}

/// What installing a resolved tool version comes to.
#[derive(Debug, Clone, Copy, PartialEq, Eq, Structural)]
pub enum InstallStep {
    /// The version's directory is already there: it is the installation.
    UseExisting,
    /// Install into a temporary directory, then normalize into the version's directory.
    Install,
}

/// A version whose installation directory already exists is not installed again.
pub fn install_step(directory_exists: bool) -> (s: InstallStep)
    ensures
        s == (if directory_exists { InstallStep::UseExisting } else { InstallStep::Install }),
{
    if directory_exists {
        InstallStep::UseExisting
    } else {
        InstallStep::Install
    }
}

} // verus!
