//! Reading and editing `rah.toml` as a TOML document: the `[tools]` it declares,
//! and recording a tool in it. The TOML reading and printing, and the tables
//! themselves, are the `toml` crate's; what is read from a table and how it is
//! edited is verified here over a model of the tables' contents.

use vstd::prelude::*;

use crate::config::{
    entries_view, lemma_recorded_tool_reads_back, tools_requirements, tools_to_requirements, ToolsError, ToolsErrorView,
};
use crate::text::{is_blank, is_white_space};
use crate::tools::requirement::{recorded_name, well_formed_requirement, RequirementView, ToolRequirement};

verus! {

#[verifier::external_type_specification]
#[verifier::external_body]
pub struct ExTomlDeError(toml::de::Error);

#[verifier::external_type_specification]
#[verifier::external_body]
pub struct ExTomlSerError(toml::ser::Error);

#[verifier::external_type_specification]
#[verifier::external_body]
#[verifier::reject_recursive_types(K)]
#[verifier::reject_recursive_types(V)]
pub struct ExTomlMap<K, V>(toml::map::Map<K, V>);

#[verifier::external_type_specification]
#[verifier::external_body]
pub struct ExTomlValue(toml::Value);

/// What a TOML value is, as far as `rah.toml` is concerned: a string, a table
/// with its entries, or anything else (a number, a boolean, a date, an array).
pub enum ValueView {
    Str(Seq<char>),
    Table(Map<Seq<char>, ValueView>),
    Other,
}

/// The entries of a TOML table: each key with what its value is.
pub uninterp spec fn table_entries(t: toml::Table) -> Map<Seq<char>, ValueView>;

/// What a TOML value is.
pub uninterp spec fn value_view(v: toml::Value) -> ValueView;

/// The entries of the table `toml::from_str` reads from a text; `None` when the
/// text is not a TOML document.
pub uninterp spec fn toml_document(text: Seq<char>) -> Option<Map<Seq<char>, ValueView>>;

/// The text `toml::to_string_pretty` prints for a table; `None` when it fails.
pub uninterp spec fn toml_pretty(t: toml::Table) -> Option<Seq<char>>;

/// `a` comes before `b` in the order `str` compares in: lexicographically, by
/// characters (comparing the UTF-8 bytes, as `str` does, orders as the characters
/// do), a proper prefix first.
pub open spec fn key_less(a: Seq<char>, b: Seq<char>) -> bool
    decreases a.len(),
{
    if a.len() == 0 {
        b.len() > 0
    } else if b.len() == 0 {
        false
    } else if a[0] != b[0] {
        (a[0] as int) < (b[0] as int)
    } else {
        key_less(a.drop_first(), b.drop_first())
    }
}

/// `s` holds exactly `keys`, in strictly ascending order.
pub open spec fn orders_keys(s: Seq<Seq<char>>, keys: Set<Seq<char>>) -> bool {
    &&& forall|i: int, j: int| 0 <= i < j < s.len() ==> key_less(#[trigger] s[i], #[trigger] s[j])
    &&& forall|k: Seq<char>| #[trigger] s.contains(k) <==> keys.contains(k)
}

/// A set of keys in ascending order.
pub open spec fn sorted_keys(keys: Set<Seq<char>>) -> Seq<Seq<char>> {
    choose|s: Seq<Seq<char>>| orders_keys(s, keys)
}

/// No key comes before itself.
pub proof fn lemma_key_less_irreflexive(a: Seq<char>)
    ensures
        !key_less(a, a),
    decreases a.len(),
{
    if a.len() > 0 {
        lemma_key_less_irreflexive(a.drop_first());
    }
}

/// The key order is transitive.
pub proof fn lemma_key_less_transitive(a: Seq<char>, b: Seq<char>, c: Seq<char>)
    requires
        key_less(a, b),
        key_less(b, c),
    ensures
        key_less(a, c),
    decreases a.len(),
{
    if a.len() > 0 && b.len() > 0 && c.len() > 0 && a[0] == b[0] && b[0] == c[0] {
        lemma_key_less_transitive(a.drop_first(), b.drop_first(), c.drop_first());
    }
}

/// Of two different keys, one comes before the other.
pub proof fn lemma_key_less_total(a: Seq<char>, b: Seq<char>)
    requires
        a != b,
    ensures
        key_less(a, b) || key_less(b, a),
    decreases a.len(),
{
    if a.len() == 0 && b.len() == 0 {
        assert(a =~= b);
    } else if a.len() > 0 && b.len() > 0 && a[0] == b[0] {
        if a.drop_first() =~= b.drop_first() {
            assert forall|i: int| 0 <= i < a.len() implies a[i] == b[i] by {
                if i > 0 {
                    assert(a[i] == a.drop_first()[i - 1]);
                    assert(b[i] == b.drop_first()[i - 1]);
                }
            }
            assert(a =~= b);
        }
        lemma_key_less_total(a.drop_first(), b.drop_first());
    }
}

/// A set of keys has one ascending order: two sequences that hold the same keys,
/// each strictly ascending, are the same sequence.
pub proof fn lemma_ascending_keys_unique(s: Seq<Seq<char>>, t: Seq<Seq<char>>, keys: Set<Seq<char>>)
    requires
        orders_keys(s, keys),
        orders_keys(t, keys),
    ensures
        s == t,
    decreases s.len(),
{
    if s.len() == 0 {
        if t.len() > 0 {
            assert(t.contains(t[0]));
            assert(!s.contains(t[0]));
        }
        assert(s =~= t);
    } else if t.len() == 0 {
        assert(s.contains(s[0]));
        assert(!t.contains(s[0]));
    } else {
        assert(s.contains(s[0]));
        assert(t.contains(t[0]));
        if s[0] != t[0] {
            assert(t.contains(s[0]));
            assert(s.contains(t[0]));
            let j = choose|j: int| 0 <= j < t.len() && t[j] == s[0];
            let m = choose|m: int| 0 <= m < s.len() && s[m] == t[0];
            assert(j > 0 && m > 0);
            assert(key_less(t[0], t[j]));
            assert(key_less(s[0], s[m]));
            lemma_key_less_transitive(s[0], t[0], s[0]);
            lemma_key_less_irreflexive(s[0]);
        }
        let s1 = s.drop_first();
        let t1 = t.drop_first();
        let rest = keys.remove(s[0]);
        assert forall|i: int, j: int| 0 <= i < j < s1.len() implies key_less(#[trigger] s1[i], #[trigger] s1[j]) by {
            assert(s1[i] == s[i + 1] && s1[j] == s[j + 1]);
        }
        assert forall|i: int, j: int| 0 <= i < j < t1.len() implies key_less(#[trigger] t1[i], #[trigger] t1[j]) by {
            assert(t1[i] == t[i + 1] && t1[j] == t[j + 1]);
        }
        assert forall|k: Seq<char>| #[trigger] s1.contains(k) <==> rest.contains(k) by {
            if s1.contains(k) {
                let i = choose|i: int| 0 <= i < s1.len() && s1[i] == k;
                assert(s[i + 1] == k);
                assert(key_less(s[0], s[i + 1]));
                lemma_key_less_irreflexive(k);
                assert(s.contains(k));
            }
            if rest.contains(k) {
                assert(s.contains(k));
                let i = choose|i: int| 0 <= i < s.len() && s[i] == k;
                assert(i != 0);
                assert(s1[i - 1] == k);
            }
        }
        assert forall|k: Seq<char>| #[trigger] t1.contains(k) <==> rest.contains(k) by {
            if t1.contains(k) {
                let i = choose|i: int| 0 <= i < t1.len() && t1[i] == k;
                assert(t[i + 1] == k);
                assert(key_less(t[0], t[i + 1]));
                lemma_key_less_irreflexive(k);
                assert(t.contains(k));
            }
            if rest.contains(k) {
                assert(t.contains(k));
                let i = choose|i: int| 0 <= i < t.len() && t[i] == k;
                assert(i != 0);
                assert(t1[i - 1] == k);
            }
        }
        lemma_ascending_keys_unique(s1, t1, rest);
        assert forall|i: int| 0 <= i < s.len() implies s[i] == t[i] by {
            if i > 0 {
                assert(s[i] == s1[i - 1]);
                assert(t[i] == t1[i - 1]);
            }
        }
        assert(s =~= t);
    }
}

/// Trusted: `toml::from_str::<toml::Table>`. Claims that reading depends on the
/// text alone: the entries read, or the failure, are named `toml_document`;
/// which text gives which entries is the TOML grammar, not stated here.
#[verifier::external_body]
fn parse_table(text: &str) -> (r: Result<toml::Table, toml::de::Error>)
    ensures
        match r {
            Ok(t) => toml_document(text@) == Some(table_entries(t)),
            Err(_) => toml_document(text@) is None,
        },
{
    toml::from_str(text)
}

/// Trusted: `toml::Table::new`, an empty table.
#[verifier::external_body]
fn table_new() -> (r: toml::Table)
    ensures
        table_entries(r).dom().is_empty(),
{
    toml::Table::new()
}

/// Trusted: `toml::map::Map::get`: the value under `key`, if there is one.
#[verifier::external_body]
fn table_get<'a>(t: &'a toml::Table, key: &str) -> (r: Option<&'a toml::Value>)
    ensures
        match r {
            Some(v) => table_entries(*t).contains_key(key@) && value_view(*v) == table_entries(*t)[key@],
            None => !table_entries(*t).contains_key(key@),
        },
{
    t.get(key)
}

/// Trusted: `toml::map::Map::keys`, each key copied out. Without the
/// `preserve_order` feature of `toml` (the case here) a table keeps its entries
/// in the lexicographic order of `str`, as `toml::Table`'s documentation says:
/// the keys come out once each, strictly ascending.
#[verifier::external_body]
fn table_keys(t: &toml::Table) -> (r: Vec<String>)
    ensures
        orders_keys(r@.map_values(|k: String| k@), table_entries(*t).dom()),
{
    t.keys().cloned().collect()
}

/// Trusted: `toml::map::Map::insert`: `key` now holds `value`; the value it held
/// before, if any, is handed back.
#[verifier::external_body]
fn table_insert(t: &mut toml::Table, key: String, value: toml::Value) -> (r: Option<toml::Value>)
    ensures
        table_entries(*final(t)) == table_entries(*old(t)).insert(key@, value_view(value)),
        match r {
            Some(v) => table_entries(*old(t)).contains_key(key@) && value_view(v) == table_entries(*old(t))[key@],
            None => !table_entries(*old(t)).contains_key(key@),
        },
{
    t.insert(key, value)
}

/// Trusted: `toml::map::Map::entry` with `Entry::or_insert_with`: the value under
/// `key`, after putting an empty table there when there was none.
#[verifier::external_body]
fn table_entry_or_empty_table<'a>(t: &'a mut toml::Table, key: &str) -> (r: &'a mut toml::Value)
    ensures
        value_view(*r) == (if table_entries(*old(t)).contains_key(key@) {
            table_entries(*old(t))[key@]
        } else {
            ValueView::Table(Map::empty())
        }),
        table_entries(*final(t)) == table_entries(*old(t)).insert(key@, value_view(*final(r))),
{
    t.entry(key).or_insert_with(empty_table_value)
}

/// Trusted: `toml::Value::Table`, a table as a value.
#[verifier::external_body]
fn value_from_table(t: toml::Table) -> (v: toml::Value)
    ensures
        value_view(v) == ValueView::Table(table_entries(t)),
{
    toml::Value::Table(t)
}

/// Trusted: `toml::Value::String`, a string as a value.
#[verifier::external_body]
fn value_from_string(s: String) -> (v: toml::Value)
    ensures
        value_view(v) == ValueView::Str(s@),
{
    toml::Value::String(s)
}

/// Trusted: `toml::Value::as_table`: the table a value is, if it is one.
#[verifier::external_body]
fn value_as_table(v: &toml::Value) -> (r: Option<&toml::Table>)
    ensures
        match r {
            Some(t) => value_view(*v) == ValueView::Table(table_entries(*t)),
            None => !(value_view(*v) is Table),
        },
{
    v.as_table()
}

/// Trusted: `toml::Value::as_table_mut`: the table a value is, to change in place,
/// if it is one.
#[verifier::external_body]
fn value_as_table_mut(v: &mut toml::Value) -> (r: Option<&mut toml::Table>)
    ensures
        match r {
            Some(t) => value_view(*old(v)) == ValueView::Table(table_entries(*t))
                && value_view(*final(v)) == ValueView::Table(table_entries(*final(t))),
            None => !(value_view(*old(v)) is Table) && *final(v) == *old(v),
        },
{
    v.as_table_mut()
}

/// Trusted: `toml::Value::as_str`: the string a value is, if it is one.
#[verifier::external_body]
fn value_as_str(v: &toml::Value) -> (r: Option<&str>)
    ensures
        match r {
            Some(s) => value_view(*v) == ValueView::Str(s@),
            None => !(value_view(*v) is Str),
        },
{
    v.as_str()
}

/// Trusted: `toml::to_string_pretty` on a table. Printing depends on the table
/// alone (on more of it than its entries: which tables are inline or dotted, how
/// numbers and dates are written); its text, or its failure, is named
/// `toml_pretty`. What text a table prints to is not stated.
#[verifier::external_body]
fn print_table(t: &toml::Table) -> (r: Result<String, toml::ser::Error>)
    ensures
        match r {
            Ok(s) => toml_pretty(*t) == Some(s@),
            Err(_) => toml_pretty(*t) is None,
        },
{
    toml::to_string_pretty(t)
}

/// Trusted: the `Display` text of a `toml::de::Error`; nothing is claimed of it.
#[verifier::external_body]
fn read_error_message(e: &toml::de::Error) -> String {
    format!("{e}")
}

/// Trusted: the `Display` text of a `toml::ser::Error`; nothing is claimed of it.
#[verifier::external_body]
fn write_error_message(e: &toml::ser::Error) -> String {
    format!("{e}")
}

/// An empty table, as a value.
fn empty_table_value() -> (v: toml::Value)
    ensures
        value_view(v) == ValueView::Table(Map::empty()),
{
    let t = table_new();
    assert(table_entries(t) =~= Map::empty());
    value_from_table(t)
}

/// Why `rah.toml` could not be read or edited.
#[derive(Debug, Clone, PartialEq, Eq)]
pub enum DocumentError {
    /// The text is not a TOML document; holds the reader's message.
    Parse(String),
    /// `[tools]` is not a table.
    ToolsNotATable,
}

/// Why the tools of a `rah.toml` could not be read.
#[derive(Debug, Clone, PartialEq, Eq)]
pub enum ProjectToolsError {
    /// The text is not a TOML document; holds the reader's message.
    Parse(String),
    /// The `[tools]` entries do not give requirements.
    Tools(ToolsError),
}

/// The document a `rah.toml` text stands for: text that is only white space is an
/// empty table; any other text is read as TOML.
pub open spec fn document_of(contents: Seq<char>) -> Option<Map<Seq<char>, ValueView>> {
    if forall|i: int| 0 <= i < contents.len() ==> is_white_space(#[trigger] contents[i]) {
        Some(Map::empty())
    } else {
        toml_document(contents)
    }
}

/// The tools a document declares: its `tools` table, empty when there is no
/// `tools` key; `None` when `tools` is something other than a table.
pub open spec fn tools_table(doc: Map<Seq<char>, ValueView>) -> Option<Map<Seq<char>, ValueView>> {
    if !doc.contains_key("tools"@) {
        Some(Map::empty())
    } else {
        match doc["tools"@] {
            ValueView::Table(t) => Some(t),
            _ => None,
        }
    }
}

/// The document with `tools.<name>` set to the string `version` (the `tools` table
/// made first when there is none); `None` when `tools` is not a table.
pub open spec fn with_tool(doc: Map<Seq<char>, ValueView>, name: Seq<char>, version: Seq<char>) -> Option<
    Map<Seq<char>, ValueView>,
> {
    match tools_table(doc) {
        Some(t) => Some(doc.insert("tools"@, ValueView::Table(t.insert(name, ValueView::Str(version))))),
        None => None,
    }
}

/// Records `name = version` under `[tools]` of a document: `tools` becomes an
/// empty table first when it is absent; a `tools` that is not a table is refused
/// and the document left as it was.
pub fn add_tool_to_table(document: &mut toml::Table, name: &str, version: &str) -> (r: Result<(), DocumentError>)
    ensures
        match with_tool(table_entries(*old(document)), name@, version@) {
            Some(d) => r is Ok && table_entries(*final(document)) == d,
            None => r matches Err(DocumentError::ToolsNotATable) && table_entries(*final(document)) == table_entries(
                *old(document),
            ),
        },
{
    let ghost before = table_entries(*document);
    let tools = table_entry_or_empty_table(document, "tools");
    match value_as_table_mut(tools) {
        Some(t) => {
            let _ = table_insert(t, name.to_owned(), value_from_string(version.to_owned()));
            Ok(())
        },
        None => {
            assert(before.insert("tools"@, before["tools"@]) =~= before);
            Err(DocumentError::ToolsNotATable)
        },
    }
}

/// The document of a `rah.toml` text with `name = version` recorded under
/// `[tools]`: a blank text is an empty document, any other text must be TOML,
/// and a `tools` that is not a table is refused.
pub fn add_tool_to_document(contents: &str, name: &str, version: &str) -> (r: Result<toml::Table, DocumentError>)
    ensures
        match document_of(contents@) {
            None => r matches Err(DocumentError::Parse(_)),
            Some(doc) => match with_tool(doc, name@, version@) {
                Some(d) => r matches Ok(t) && table_entries(t) == d,
                None => r matches Err(DocumentError::ToolsNotATable),
            },
        },
{
    let mut document = if is_blank(contents) {
        let t = table_new();
        assert(table_entries(t) =~= Map::empty());
        t
    } else {
        match parse_table(contents) {
            Ok(t) => t,
            Err(e) => {
                return Err(DocumentError::Parse(read_error_message(&e)));
            },
        }
    };
    match add_tool_to_table(&mut document, name, version) {
        Ok(()) => Ok(document),
        Err(e) => Err(e),
    }
}

/// The text of a document as `toml::to_string_pretty` prints it, or the
/// printer's message when it cannot print it.
pub fn print_document(document: &toml::Table) -> (r: Result<String, String>)
    ensures
        match r {
            Ok(s) => toml_pretty(*document) == Some(s@),
            Err(_) => toml_pretty(*document) is None,
        },
{
    match print_table(document) {
        Ok(text) => Ok(text),
        Err(e) => Err(write_error_message(&e)),
    }
}

/// The string a value is, if it is one.
pub open spec fn str_of(v: ValueView) -> Option<Seq<char>> {
    match v {
        ValueView::Str(s) => Some(s),
        _ => None,
    }
}

/// The entries of a table in ascending key order: each key with its value when
/// that is a string.
pub open spec fn table_string_entries(t: Map<Seq<char>, ValueView>) -> Seq<(Seq<char>, Option<Seq<char>>)> {
    sorted_keys(t.dom()).map_values(|k: Seq<char>| (k, str_of(t[k])))
}

/// The `[tools]` entries of a document; `None` when `tools` is absent or not a table.
pub open spec fn tools_entries(doc: Map<Seq<char>, ValueView>) -> Option<Seq<(Seq<char>, Option<Seq<char>>)>> {
    if doc.contains_key("tools"@) {
        match doc["tools"@] {
            ValueView::Table(t) => Some(table_string_entries(t)),
            _ => None,
        }
    } else {
        None
    }
}

/// The entries of a tools table, in its key order.
fn string_entries(tools: &toml::Table) -> (entries: Vec<(String, Option<String>)>)
    ensures
        entries_view(entries@) == table_string_entries(table_entries(*tools)),
{
    let keys = table_keys(tools);
    let ghost m = table_entries(*tools);
    let ghost kv = keys@.map_values(|k: String| k@);
    let ghost f = |k: Seq<char>| (k, str_of(m[k]));
    proof {
        lemma_ascending_keys_unique(kv, sorted_keys(m.dom()), m.dom());
    }
    let mut entries: Vec<(String, Option<String>)> = Vec::new();
    let mut i: usize = 0;
    assert(entries_view(entries@) =~= kv.take(0).map_values(f));
    while i < keys.len()
        invariant
            i <= keys.len(),
            m == table_entries(*tools),
            kv == keys@.map_values(|k: String| k@),
            kv == sorted_keys(m.dom()),
            forall|k: Seq<char>| m.contains_key(k) <==> kv.contains(k),
            f == (|k: Seq<char>| (k, str_of(m[k]))),
            entries_view(entries@) == kv.take(i as int).map_values(f),
        decreases keys.len() - i,
    {
        let key = keys[i].as_str();
        assert(kv[i as int] == key@);
        assert(kv.contains(key@));
        let ghost before = entries@;
        match table_get(tools, key) {
            Some(v) => {
                let version: Option<String> = match value_as_str(v) {
                    Some(s) => Some(s.to_owned()),
                    None => None,
                };
                entries.push((key.to_owned(), version));
                assert(entries_view(entries@) =~= entries_view(before).push(f(key@)));
                assert(kv.take(i + 1) =~= kv.take(i as int).push(kv[i as int]));
                assert(kv.take(i + 1).map_values(f) =~= kv.take(i as int).map_values(f).push(f(kv[i as int])));
            },
            None => {
                assert(false);
            },
        }
        i = i + 1;
    }
    assert(kv.take(keys.len() as int) =~= kv);
    entries
}

/// The requirements a `rah.toml` text declares under `[tools]`, in the table's key
/// order: none when `tools` is absent or not a table.
pub fn project_tools(contents: &str) -> (r: Result<Vec<ToolRequirement>, ProjectToolsError>)
    ensures
        match toml_document(contents@) {
            None => r matches Err(ProjectToolsError::Parse(_)),
            Some(doc) => match tools_entries(doc) {
                None => r matches Ok(v) && v@.len() == 0,
                Some(entries) => match tools_requirements(entries) {
                    Ok(reqs) => r matches Ok(v) && v@.map_values(|q: ToolRequirement| q@) == reqs,
                    Err(ToolsErrorView::VersionNotString(n)) => r matches Err(
                        ProjectToolsError::Tools(ToolsError::VersionNotString(m)),
                    ) && m@ == n,
                    Err(ToolsErrorView::Requirement(e)) => r matches Err(ProjectToolsError::Tools(ToolsError::Requirement(x)))
                        && x@ == e,
                },
            },
        },
{
    let document = match parse_table(contents) {
        Ok(t) => t,
        Err(e) => {
            return Err(ProjectToolsError::Parse(read_error_message(&e)));
        },
    };
    let tools = match table_get(&document, "tools") {
        Some(v) => match value_as_table(v) {
            Some(t) => t,
            None => {
                return Ok(Vec::new());
            },
        },
        None => {
            return Ok(Vec::new());
        },
    };
    let entries = string_entries(tools);
    match tools_to_requirements(&entries) {
        Ok(reqs) => Ok(reqs),
        Err(e) => Err(ProjectToolsError::Tools(e)),
    }
}

/// Recording a tool sets `tools.<name>` to the version and changes nothing else:
/// every other key of the document keeps its value, and every other tool keeps
/// its entry.
pub proof fn lemma_recording_a_tool(doc: Map<Seq<char>, ValueView>, name: Seq<char>, version: Seq<char>)
    requires
        tools_table(doc) is Some,
    ensures
        with_tool(doc, name, version) matches Some(d) && tools_table(d) matches Some(t) && t.contains_key(name)
            && t[name] == ValueView::Str(version),
        with_tool(doc, name, version) matches Some(d) && forall|k: Seq<char>|
            k != "tools"@ ==> (#[trigger] d.contains_key(k) <==> doc.contains_key(k)) && (doc.contains_key(k) ==> d[k]
                == doc[k]),
        with_tool(doc, name, version) matches Some(d) && tools_table(d) matches Some(t) && forall|k: Seq<char>|
            k != name ==> (#[trigger] t.contains_key(k) <==> tools_table(doc)->0.contains_key(k)) && (t.contains_key(k)
                ==> t[k] == tools_table(doc)->0[k]),
{
}

/// What `rah use` records reads back: once a requirement is recorded in a
/// document under its recorded name with its version, the tools table holds that
/// version under that name, and that entry, read as `name@version`, gives the
/// requirement again.
pub proof fn lemma_recorded_requirement_reads_back(doc: Map<Seq<char>, ValueView>, r: RequirementView)
    requires
        tools_table(doc) is Some,
        well_formed_requirement(r),
    ensures
        with_tool(doc, recorded_name(r), r.version) matches Some(d) && tools_table(d) matches Some(t)
            && t.contains_key(recorded_name(r)) && str_of(t[recorded_name(r)]) == Some(r.version)
            && tools_requirements(seq![(recorded_name(r), str_of(t[recorded_name(r)]))]) == Ok::<
            Seq<RequirementView>,
            ToolsErrorView,
        >(seq![r]),
{
    lemma_recording_a_tool(doc, recorded_name(r), r.version);
    lemma_recorded_tool_reads_back(r);
}

/// The document after recording each `(name, version)` in turn; `None` when
/// `tools` is not a table.
pub open spec fn with_tools(doc: Map<Seq<char>, ValueView>, tools: Seq<(Seq<char>, Seq<char>)>) -> Option<
    Map<Seq<char>, ValueView>,
>
    decreases tools.len(),
{
    if tools.len() == 0 {
        Some(doc)
    } else {
        match with_tools(doc, tools.drop_last()) {
            Some(d) => with_tool(d, tools.last().0, tools.last().1),
            None => None,
        }
    }
}

/// The version last given for `name` among `(name, version)` pairs, if any.
pub open spec fn last_version(tools: Seq<(Seq<char>, Seq<char>)>, name: Seq<char>) -> Option<Seq<char>>
    decreases tools.len(),
{
    if tools.len() == 0 {
        None
    } else if tools.last().0 == name {
        Some(tools.last().1)
    } else {
        last_version(tools.drop_last(), name)
    }
}

/// Recording tools one after another leaves each named tool with the version
/// given for it last, every tool not named as it was, and every other key of the
/// document as it was.
pub proof fn lemma_recording_tools_in_turn(doc: Map<Seq<char>, ValueView>, tools: Seq<(Seq<char>, Seq<char>)>)
    requires
        tools_table(doc) is Some,
    ensures
        with_tools(doc, tools) matches Some(d) && tools_table(d) is Some && forall|k: Seq<char>|
            k != "tools"@ ==> (#[trigger] d.contains_key(k) <==> doc.contains_key(k)) && (doc.contains_key(k) ==> d[k]
                == doc[k]),
        with_tools(doc, tools) matches Some(d) && tools_table(d) matches Some(t) && forall|name: Seq<char>|
            match #[trigger] last_version(tools, name) {
                Some(v) => t.contains_key(name) && t[name] == ValueView::Str(v),
                None => (t.contains_key(name) <==> tools_table(doc)->0.contains_key(name)) && (t.contains_key(name)
                    ==> t[name] == tools_table(doc)->0[name]),
            },
    decreases tools.len(),
{
    if tools.len() > 0 {
        lemma_recording_tools_in_turn(doc, tools.drop_last());
        let d0 = with_tools(doc, tools.drop_last())->0;
        let t0 = tools_table(d0)->0;
        let (n, v) = tools.last();
        lemma_recording_a_tool(d0, n, v);
        let d = with_tool(d0, n, v)->0;
        let t = tools_table(d)->0;
        assert(with_tools(doc, tools) == Some(d));
        assert forall|name: Seq<char>| match #[trigger] last_version(tools, name) {
            Some(w) => t.contains_key(name) && t[name] == ValueView::Str(w),
            None => (t.contains_key(name) <==> tools_table(doc)->0.contains_key(name)) && (t.contains_key(name)
                ==> t[name] == tools_table(doc)->0[name]),
        } by {
            if name != n {
                assert(last_version(tools, name) == last_version(tools.drop_last(), name));
                assert(t.contains_key(name) <==> t0.contains_key(name));
            }
        }
    }
}

/// The version given last for a name is the one at its last position.
proof fn lemma_last_version_at(tools: Seq<(Seq<char>, Seq<char>)>, i: int)
    requires
        0 <= i < tools.len(),
        forall|j: int| i < j < tools.len() ==> #[trigger] tools[j].0 != tools[i].0,
    ensures
        last_version(tools, tools[i].0) == Some(tools[i].1),
    decreases tools.len(),
{
    if i < tools.len() - 1 {
        let shorter = tools.drop_last();
        assert(tools[tools.len() - 1].0 != tools[i].0);
        assert(shorter[i] == tools[i]);
        assert forall|j: int| i < j < shorter.len() implies #[trigger] shorter[j].0 != shorter[i].0 by {
            assert(shorter[j] == tools[j]);
        }
        lemma_last_version_at(shorter, i);
    }
}

/// The `(name, version)` pairs `rah use` records for requirements, in order.
pub open spec fn recorded_pairs(reqs: Seq<RequirementView>) -> Seq<(Seq<char>, Seq<char>)> {
    reqs.map_values(|r: RequirementView| (recorded_name(r), r.version))
}

/// What `rah use` records for several requirements reads back: after recording
/// them in order, each requirement that is the last with its recorded name has
/// its version under that name in `[tools]`, and that entry, read as
/// `name@version`, gives the requirement again.
pub proof fn lemma_use_records_each_last_requirement(doc: Map<Seq<char>, ValueView>, reqs: Seq<RequirementView>, i: int)
    requires
        tools_table(doc) is Some,
        0 <= i < reqs.len(),
        well_formed_requirement(reqs[i]),
        forall|j: int| i < j < reqs.len() ==> recorded_name(#[trigger] reqs[j]) != recorded_name(reqs[i]),
    ensures
        with_tools(doc, recorded_pairs(reqs)) matches Some(d) && tools_table(d) matches Some(t)
            && t.contains_key(recorded_name(reqs[i])) && t[recorded_name(reqs[i])] == ValueView::Str(reqs[i].version)
            && tools_requirements(seq![(recorded_name(reqs[i]), str_of(t[recorded_name(reqs[i])]))]) == Ok::<
            Seq<RequirementView>,
            ToolsErrorView,
        >(seq![reqs[i]]),
{
    let pairs = recorded_pairs(reqs);
    assert forall|j: int| i < j < pairs.len() implies #[trigger] pairs[j].0 != pairs[i].0 by {
        assert(pairs[j].0 == recorded_name(reqs[j]));
    }
    lemma_last_version_at(pairs, i);
    lemma_recording_tools_in_turn(doc, pairs);
    assert(last_version(pairs, recorded_name(reqs[i])) == Some(reqs[i].version));
    lemma_recorded_tool_reads_back(reqs[i]);
}

} // verus!
