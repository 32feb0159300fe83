//! The workspace root manifest, and member manifests: what `cargo furnish`
//! reads from them.

use vstd::prelude::*;

use crate::source::{opt_string, owned};
use crate::toml::{
    array_string_list, entry_keys, item_as_array, item_as_str, item_as_table, lookup,
    parse_document, parsed_toml, root_table, table_at, table_get, table_key_list, text_at,
    TomlModel,
};

verus! {

/// Information extracted from the workspace root `Cargo.toml`.
#[derive(Debug)]
pub struct WorkspaceInfo {
    /// Keys present in `[workspace.package]` (e.g. "edition", "license"),
    /// each once, in the order the manifest lists them.
    pub package_fields: Vec<String>,
    /// The `repository` value from `[workspace.package]`, if any.
    pub repository: Option<String>,
    /// The `license` value from `[workspace.package]`, if any.
    pub license: Option<String>,
    /// Whether `[workspace.lints]` (or sub-tables like `[workspace.lints.clippy]`) exists.
    pub has_workspace_lints: bool,
}

/// Why a manifest could not be read as the tool needs it.
#[derive(Debug, Clone, Copy, PartialEq, Eq, Structural)]
pub enum WorkspaceError {
    /// The manifest is not well-formed TOML.
    Parse,
    /// The root manifest has no `[workspace]` table.
    NoWorkspaceTable,
    /// The root manifest has no `[workspace.package]` table.
    NoWorkspacePackage,
    /// `[workspace] members` is missing or not an array.
    MembersNotFound,
    /// A workspace member is not a string.
    MemberNotString,
}

/// The characters of each string.
pub open spec fn string_views(v: Seq<String>) -> Seq<Seq<char>> {
    v.map_values(|s: String| s@)
}

/// The items of `s` in order, each kept only at its first occurrence.
pub open spec fn distinct(s: Seq<Seq<char>>) -> Seq<Seq<char>>
    decreases s.len(),
{
    if s.len() == 0 {
        Seq::empty()
    } else {
        let d = distinct(s.drop_last());
        if d.contains(s.last()) {
            d
        } else {
            d.push(s.last())
        }
    }
}

pub proof fn lemma_distinct_no_duplicates(s: Seq<Seq<char>>)
    ensures
        distinct(s).no_duplicates(),
        forall|x: Seq<char>| distinct(s).contains(x) <==> s.contains(x),
    decreases s.len(),
{
    if s.len() > 0 {
        lemma_distinct_no_duplicates(s.drop_last());
        let d = distinct(s.drop_last());
        assert forall|x: Seq<char>| distinct(s).contains(x) <==> s.contains(x) by {
            if s.contains(x) {
                let i = choose|i: int| 0 <= i < s.len() && s[i] == x;
                if i < s.len() - 1 {
                    assert(s.drop_last()[i] == x);
                }
            }
            if s.drop_last().contains(x) {
                let i = choose|i: int| 0 <= i < s.drop_last().len() && s.drop_last()[i] == x;
                assert(s[i] == x);
            }
            if !d.contains(s.last()) {
                assert(d.push(s.last())[d.len() as int] == s.last());
                if d.push(s.last()).contains(x) && x != s.last() {
                    let i = choose|i: int| 0 <= i < d.push(s.last()).len() && d.push(s.last())[i] == x;
                    assert(d[i] == x);
                }
                if d.contains(x) {
                    let i = choose|i: int| 0 <= i < d.len() && d[i] == x;
                    assert(d.push(s.last())[i] == x);
                }
            }
            assert(s[s.len() - 1] == s.last());
        }
    }
}

/// Whether `v` holds a string equal to `s`.
fn holds(v: &Vec<String>, s: &String) -> (r: bool)
    ensures
        r == string_views(v@).contains(s@),
{
    let n = v.len();
    let mut i: usize = 0;
    while i < n
        invariant
            i <= n == v@.len(),
            forall|j: int| 0 <= j < i ==> v@[j]@ != s@,
        decreases n - i,
    {
        if v[i] == *s {
            assert(string_views(v@)[i as int] == s@);
            return true;
        }
        i = i + 1;
    }
    assert(!string_views(v@).contains(s@)) by {
        if string_views(v@).contains(s@) {
            let j = choose|j: int| 0 <= j < string_views(v@).len() && string_views(v@)[j] == s@;
            assert(v@[j]@ == s@);
        }
    }
    false
}

/// Builds the workspace information from what the manifest holds: the keys of
/// `[workspace.package]` (kept once each, in order), its `repository` and
/// `license` strings, and whether `[workspace.lints]` exists.
pub fn workspace_info_from(
    package_keys: &Vec<String>,
    repository: Option<String>,
    license: Option<String>,
    has_workspace_lints: bool,
) -> (info: WorkspaceInfo)
    ensures
        string_views(info.package_fields@) == distinct(string_views(package_keys@)),
        opt_string(info.repository) == opt_string(repository),
        opt_string(info.license) == opt_string(license),
        info.has_workspace_lints == has_workspace_lints,
{
    let n = package_keys.len();
    let mut fields: Vec<String> = Vec::new();
    let mut i: usize = 0;
    while i < n
        invariant
            i <= n == package_keys@.len(),
            string_views(fields@) == distinct(string_views(package_keys@).take(i as int)),
        decreases n - i,
    {
        let ghost pre = string_views(package_keys@).take(i as int);
        let ghost cur = string_views(package_keys@).take(i + 1);
        assert(cur.drop_last() =~= pre);
        assert(cur.last() == package_keys@[i as int]@);
        if !holds(&fields, &package_keys[i]) {
            let ghost before = string_views(fields@);
            fields.push(package_keys[i].clone());
            assert(string_views(fields@) =~= before.push(package_keys@[i as int]@));
        }
        i = i + 1;
    }
    assert(string_views(package_keys@).take(n as int) =~= string_views(package_keys@));
    WorkspaceInfo { package_fields: fields, repository, license, has_workspace_lints }
}

/// What the workspace information holds: the keys of `[workspace.package]`,
/// its `repository` and `license` strings, and whether `[workspace.lints]`
/// exists.
pub open spec fn info_view(info: WorkspaceInfo) -> (
    Seq<Seq<char>>,
    Option<Seq<char>>,
    Option<Seq<char>>,
    bool,
) {
    (
        string_views(info.package_fields@),
        opt_string(info.repository),
        opt_string(info.license),
        info.has_workspace_lints,
    )
}

/// What the workspace root manifest `content` gives: the error when it is not
/// TOML, has no `[workspace]` table or no `[workspace.package]` table; else
/// the keys of `[workspace.package]` (each once, in order), its `repository`
/// and `license` when they are strings, and whether `[workspace]` has a
/// `lints` entry.
pub open spec fn workspace_view(content: Seq<char>) -> Result<
    (Seq<Seq<char>>, Option<Seq<char>>, Option<Seq<char>>, bool),
    WorkspaceError,
> {
    match parsed_toml(content) {
        None => Err(WorkspaceError::Parse),
        Some(root) => match table_at(root, "workspace"@) {
            None => Err(WorkspaceError::NoWorkspaceTable),
            Some(w) => match table_at(w, "package"@) {
                None => Err(WorkspaceError::NoWorkspacePackage),
                Some(p) => Ok(
                    (
                        distinct(entry_keys(p)),
                        text_at(p, "repository"@),
                        text_at(p, "license"@),
                        lookup(w, "lints"@) is Some,
                    ),
                ),
            },
        },
    }
}

/// Reads the workspace information from the text of the workspace root
/// `Cargo.toml`: `[workspace.package]` keys, `repository` and `license`, and
/// whether `[workspace.lints]` exists.
pub fn parse_workspace(content: &str) -> (r: Result<WorkspaceInfo, WorkspaceError>)
    ensures
        match workspace_view(content@) {
            Ok(v) => r matches Ok(info) && info_view(info) == v,
            Err(e) => r matches Err(e2) && e2 == e,
        },
        r matches Ok(info) ==> string_views(info.package_fields@).no_duplicates(),
{
    let doc = match parse_document(content) {
        Ok(d) => d,
        Err(_) => return Err(WorkspaceError::Parse),
    };
    let root = root_table(&doc);
    let workspace = match table_get(root, "workspace") {
        Some(item) => match item_as_table(item) {
            Some(t) => t,
            None => return Err(WorkspaceError::NoWorkspaceTable),
        },
        None => return Err(WorkspaceError::NoWorkspaceTable),
    };
    let package = match table_get(workspace, "package") {
        Some(item) => match item_as_table(item) {
            Some(t) => t,
            None => return Err(WorkspaceError::NoWorkspacePackage),
        },
        None => return Err(WorkspaceError::NoWorkspacePackage),
    };
    let keys = table_key_list(package);
    let repository = match table_get(package, "repository") {
        Some(item) => item_as_str(item),
        None => None,
    };
    let license = match table_get(package, "license") {
        Some(item) => item_as_str(item),
        None => None,
    };
    let has_lints = table_get(workspace, "lints").is_some();
    let info = workspace_info_from(&keys, repository, license, has_lints);
    proof {
        lemma_distinct_no_duplicates(string_views(keys@));
        assert(string_views(keys@) =~= entry_keys(crate::toml::table_model(*package)));
    }
    Ok(info)
}

/// The member patterns before the first member that is not a string, and
/// whether there is such a member.
pub open spec fn member_patterns(items: Seq<Option<Seq<char>>>) -> (Seq<Seq<char>>, bool)
    decreases items.len(),
{
    if items.len() == 0 {
        (Seq::empty(), false)
    } else {
        match items[0] {
            Some(p) => {
                let (rest, bad) = member_patterns(items.drop_first());
                (seq![p] + rest, bad)
            },
            None => (Seq::empty(), true),
        }
    }
}

/// The optional texts of optional strings.
pub open spec fn opt_views(v: Seq<Option<String>>) -> Seq<Option<Seq<char>>> {
    v.map_values(|o: Option<String>| opt_string(o))
}

/// Splits the `[workspace] members` values into the patterns that come before
/// the first value that is not a string, and the error for that value, if
/// there is one.
pub fn member_patterns_from(items: &Vec<Option<String>>) -> (r: (Vec<String>, Option<
    WorkspaceError,
>))
    ensures
        string_views(r.0@) == member_patterns(opt_views(items@)).0,
        r.1 == (if member_patterns(opt_views(items@)).1 {
            Some(WorkspaceError::MemberNotString)
        } else {
            None
        }),
{
    let n = items.len();
    let mut out: Vec<String> = Vec::new();
    let mut i: usize = 0;
    let ghost all = opt_views(items@);
    assert(all.skip(0) =~= all);
    while i < n
        invariant
            i <= n == items@.len(),
            all == opt_views(items@),
            member_patterns(all) == (string_views(out@) + member_patterns(all.skip(i as int)).0,
            member_patterns(all.skip(i as int)).1),
        decreases n - i,
    {
        let ghost rest = all.skip(i as int);
        assert(rest[0] == opt_string(items@[i as int]));
        assert(rest.drop_first() =~= all.skip(i + 1));
        match &items[i] {
            Some(p) => {
                let ghost before = string_views(out@);
                out.push(p.clone());
                assert(string_views(out@) =~= before.push(p@));
                assert(string_views(out@) + member_patterns(all.skip(i + 1)).0 =~= before
                    + member_patterns(rest).0);
            },
            None => {
                assert(string_views(out@) + member_patterns(rest).0 =~= string_views(out@));
                return (out, Some(WorkspaceError::MemberNotString));
            },
        }
        i = i + 1;
    }
    assert(all.skip(n as int) =~= Seq::<Option<Seq<char>>>::empty());
    assert(string_views(out@) + member_patterns(all.skip(n as int)).0 =~= string_views(out@));
    (out, None)
}

/// What the `[workspace] members` of the manifest `content` give: the error
/// when it is not TOML, or when `[workspace]` is not a table whose `members`
/// is an array; else the member patterns before the first member that is not
/// a string, and whether there is such a member.
pub open spec fn members_view(content: Seq<char>) -> Result<(Seq<Seq<char>>, bool), WorkspaceError> {
    match parsed_toml(content) {
        None => Err(WorkspaceError::Parse),
        Some(root) => match table_at(root, "workspace"@) {
            Some(w) => match lookup(w, "members"@) {
                Some(TomlModel::Array(items)) => Ok(member_patterns(items)),
                _ => Err(WorkspaceError::MembersNotFound),
            },
            None => Err(WorkspaceError::MembersNotFound),
        },
    }
}

/// Reads the `[workspace] members` patterns from the text of the workspace
/// root `Cargo.toml`: the patterns before the first member that is not a
/// string, and the error for that member, if there is one.
pub fn workspace_member_patterns(content: &str) -> (r: Result<
    (Vec<String>, Option<WorkspaceError>),
    WorkspaceError,
>)
    ensures
        match members_view(content@) {
            Ok((patterns, bad)) => r matches Ok((v, e)) && string_views(v@) == patterns && e == (
            if bad {
                Some(WorkspaceError::MemberNotString)
            } else {
                None
            }),
            Err(e) => r matches Err(e2) && e2 == e,
        },
{
    let doc = match parse_document(content) {
        Ok(d) => d,
        Err(_) => return Err(WorkspaceError::Parse),
    };
    let root = root_table(&doc);
    let members = match table_get(root, "workspace") {
        Some(item) => match item_as_table(item) {
            Some(t) => match table_get(t, "members") {
                Some(m) => item_as_array(m),
                None => None,
            },
            None => None,
        },
        None => None,
    };
    match members {
        Some(a) => {
            let items = array_string_list(a);
            assert(opt_views(items@) == crate::toml::array_model(*a));
            Ok(member_patterns_from(&items))
        },
        None => Err(WorkspaceError::MembersNotFound),
    }
}

/// Whether the text is a manifest with a `workspace` entry.
pub fn is_workspace_manifest(content: &str) -> (r: bool)
    ensures
        r == (parsed_toml(content@) matches Some(root) && lookup(root, "workspace"@) is Some),
{
    match parse_document(content) {
        Ok(doc) => table_get(root_table(&doc), "workspace").is_some(),
        Err(_) => false,
    }
}

/// The string under `key` in the `[package]` table of the manifest
/// `content`: `None` when it is not TOML, has no `[package]` table, or that
/// entry is missing or not a string.
pub open spec fn package_field_view(content: Seq<char>, key: Seq<char>) -> Option<Seq<char>> {
    match parsed_toml(content) {
        Some(root) => match table_at(root, "package"@) {
            Some(p) => text_at(p, key),
            None => None,
        },
        None => None,
    }
}

/// The string `[package] <key>` of a manifest, if the manifest is
/// well-formed and has one.
pub fn package_field(content: &str, key: &str) -> (r: Option<String>)
    ensures
        opt_string(r) == package_field_view(content@, key@),
{
    let doc = match parse_document(content) {
        Ok(d) => d,
        Err(_) => return None,
    };
    match table_get(root_table(&doc), "package") {
        Some(item) => match item_as_table(item) {
            Some(t) => match table_get(t, key) {
                Some(v) => item_as_str(v),
                None => None,
            },
            None => None,
        },
        None => None,
    }
}

/// The first member whose package name is `name`: `names[i]` is the package
/// name read from member `i`'s manifest, `None` when it has none.
pub fn find_member_by_name(names: &Vec<Option<String>>, name: &str) -> (r: Option<usize>)
    ensures
        match r {
            Some(i) => i < names@.len() && opt_string(names@[i as int]) == Some(name@)
                && forall|j: int| 0 <= j < i ==> opt_string(#[trigger] names@[j]) != Some(name@),
            None => forall|j: int|
                0 <= j < names@.len() ==> opt_string(#[trigger] names@[j]) != Some(name@),
        },
{
    let n = names.len();
    let target = owned(name);
    let mut i: usize = 0;
    while i < n
        invariant
            i <= n == names@.len(),
            target@ == name@,
            forall|j: int| 0 <= j < i ==> opt_string(#[trigger] names@[j]) != Some(name@),
        decreases n - i,
    {
        if let Some(s) = &names[i] {
            if *s == target {
                return Some(i);
            }
        }
        i = i + 1;
    }
    None
}

proof fn lemma_distinct_keys(p: Seq<(Seq<char>, TomlModel)>)
    ensures
        distinct(entry_keys(p)).no_duplicates(),
        forall|k: Seq<char>| #[trigger] distinct(entry_keys(p)).contains(k) <==> exists|i: int|
            0 <= i < p.len() && p[i].0 == k,
{
    let ks = entry_keys(p);
    lemma_distinct_no_duplicates(ks);
    assert forall|k: Seq<char>| #[trigger] distinct(ks).contains(k) <==> exists|i: int|
        0 <= i < p.len() && p[i].0 == k by {
        if ks.contains(k) {
            let i = choose|i: int| 0 <= i < ks.len() && ks[i] == k;
            assert(p[i].0 == k);
        }
        if exists|i: int| 0 <= i < p.len() && p[i].0 == k {
            let i = choose|i: int| 0 <= i < p.len() && p[i].0 == k;
            assert(ks[i] == k);
        }
    }
}

/// What the workspace reader answers, from what the manifest holds: not TOML
/// gives the parse error; a root without a `workspace` table (missing, or
/// another kind of value) gives `NoWorkspaceTable`; a `[workspace]` without a
/// `package` table gives `NoWorkspacePackage`. Otherwise the answer is the
/// workspace information: the keys of `[workspace.package]`, each once and
/// every one of them; its `repository` and `license` when they are strings,
/// else nothing; and whether `[workspace]` has a `lints` entry of any kind.
pub proof fn law_workspace_from_manifest(content: Seq<char>)
    ensures
        parsed_toml(content) is None ==> workspace_view(content) == Err::<
            (Seq<Seq<char>>, Option<Seq<char>>, Option<Seq<char>>, bool),
            WorkspaceError,
        >(WorkspaceError::Parse),
        parsed_toml(content) matches Some(root) ==> (!(lookup(root, "workspace"@) matches Some(
            TomlModel::Table(_),
        )) ==> workspace_view(content) == Err::<
            (Seq<Seq<char>>, Option<Seq<char>>, Option<Seq<char>>, bool),
            WorkspaceError,
        >(WorkspaceError::NoWorkspaceTable)),
        parsed_toml(content) matches Some(root) ==> (lookup(root, "workspace"@) matches Some(
            TomlModel::Table(w),
        ) ==> (!(lookup(w, "package"@) matches Some(TomlModel::Table(_))) ==> workspace_view(
            content,
        ) == Err::<
            (Seq<Seq<char>>, Option<Seq<char>>, Option<Seq<char>>, bool),
            WorkspaceError,
        >(WorkspaceError::NoWorkspacePackage))),
        parsed_toml(content) matches Some(root) ==> (lookup(root, "workspace"@) matches Some(
            TomlModel::Table(w),
        ) ==> (lookup(w, "package"@) matches Some(TomlModel::Table(p)) ==> {
            &&& workspace_view(content) is Ok
            &&& workspace_view(content)->Ok_0.0.no_duplicates()
            &&& forall|k: Seq<char>| #[trigger]
                workspace_view(content)->Ok_0.0.contains(k) <==> exists|i: int|
                    0 <= i < p.len() && p[i].0 == k
            &&& workspace_view(content)->Ok_0.1 == (match lookup(p, "repository"@) {
                Some(TomlModel::Text(r)) => Some(r),
                _ => None,
            })
            &&& workspace_view(content)->Ok_0.2 == (match lookup(p, "license"@) {
                Some(TomlModel::Text(l)) => Some(l),
                _ => None,
            })
            &&& (workspace_view(content)->Ok_0.3 <==> lookup(w, "lints"@) is Some)
        })),
{
    if let Some(root) = parsed_toml(content) {
        if let Some(TomlModel::Table(w)) = lookup(root, "workspace"@) {
            if let Some(TomlModel::Table(p)) = lookup(w, "package"@) {
                lemma_distinct_keys(p);
            }
        }
    }
}

proof fn lemma_member_patterns(items: Seq<Option<Seq<char>>>)
    ensures
        member_patterns(items).0.len() <= items.len(),
        forall|i: int|
            0 <= i < member_patterns(items).0.len() ==> items[i] == Some(
                #[trigger] member_patterns(items).0[i],
            ),
        member_patterns(items).1 <==> member_patterns(items).0.len() < items.len(),
        member_patterns(items).0.len() < items.len() ==> items[member_patterns(items).0.len() as int]
            is None,
    decreases items.len(),
{
    if items.len() > 0 {
        let t = items.drop_first();
        lemma_member_patterns(t);
        if let Some(p) = items[0] {
            let ps = member_patterns(items).0;
            assert(ps == seq![p] + member_patterns(t).0);
            assert forall|i: int| 0 <= i < ps.len() implies items[i] == Some(#[trigger] ps[i]) by {
                if i > 0 {
                    assert(ps[i] == member_patterns(t).0[i - 1]);
                    assert(items[i] == t[i - 1]);
                }
            }
            if ps.len() < items.len() {
                assert(items[ps.len() as int] == t[member_patterns(t).0.len() as int]);
            }
        }
    }
}

/// What the members reader answers, from what the manifest holds: not TOML
/// gives the parse error; without a `[workspace]` table whose `members` is an
/// array, `MembersNotFound`. Otherwise the patterns are the members in order
/// up to the first one that is not a string, and the "not a string" error
/// comes exactly when there is such a member.
pub proof fn law_members_from_manifest(content: Seq<char>)
    ensures
        parsed_toml(content) is None ==> members_view(content) == Err::<
            (Seq<Seq<char>>, bool),
            WorkspaceError,
        >(WorkspaceError::Parse),
        parsed_toml(content) matches Some(root) ==> (!(lookup(root, "workspace"@) matches Some(
            TomlModel::Table(w),
        ) && lookup(w, "members"@) matches Some(TomlModel::Array(_))) ==> members_view(content)
            == Err::<(Seq<Seq<char>>, bool), WorkspaceError>(WorkspaceError::MembersNotFound)),
        parsed_toml(content) matches Some(root) ==> (lookup(root, "workspace"@) matches Some(
            TomlModel::Table(w),
        ) ==> (lookup(w, "members"@) matches Some(TomlModel::Array(items)) ==> {
            &&& members_view(content) is Ok
            &&& members_view(content)->Ok_0.0.len() <= items.len()
            &&& forall|i: int|
                0 <= i < members_view(content)->Ok_0.0.len() ==> items[i] == Some(
                    #[trigger] members_view(content)->Ok_0.0[i],
                )
            &&& (members_view(content)->Ok_0.1 <==> members_view(content)->Ok_0.0.len()
                < items.len())
            &&& members_view(content)->Ok_0.0.len() < items.len() ==> items[members_view(
                content,
            )->Ok_0.0.len() as int] is None
        })),
{
    if let Some(root) = parsed_toml(content) {
        if let Some(TomlModel::Table(w)) = lookup(root, "workspace"@) {
            if let Some(TomlModel::Array(items)) = lookup(w, "members"@) {
                lemma_member_patterns(items);
            }
        }
    }
}

/// A manifest field is read from `[package]`: it is the string under the key
/// when the manifest is TOML, `package` is a table and that entry is a
/// string, and nothing otherwise.
pub proof fn law_package_field_from_manifest(content: Seq<char>, key: Seq<char>)
    ensures
        parsed_toml(content) matches Some(root) ==> (lookup(root, "package"@) matches Some(
            TomlModel::Table(p),
        ) ==> (lookup(p, key) matches Some(TomlModel::Text(v)) ==> package_field_view(content, key)
            == Some(v))),
        package_field_view(content, key) is Some ==> (parsed_toml(content) matches Some(root)
            && lookup(root, "package"@) matches Some(TomlModel::Table(p)) && lookup(p, key) == Some(
            TomlModel::Text(package_field_view(content, key)->0),
        )),
{
}

} // verus!
