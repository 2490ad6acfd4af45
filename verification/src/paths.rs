//! Where the gateway keeps its files.
use vstd::prelude::*;

use crate::decimal;
use crate::text;

verus! {

/// A path: a place that the system gave, and the names that are joined to it in turn.
#[derive(Debug)]
pub struct FilePath {
    pub base: String,
    pub parts: Vec<String>,
}

/// What a [`FilePath`] holds.
#[verifier::ext_equal]
pub struct PathView {
    pub base: Seq<char>,
    pub parts: Seq<Seq<char>>,
}

impl View for FilePath {
    type V = PathView;

    open spec fn view(&self) -> PathView {
        PathView { base: self.base@, parts: text::texts(self.parts@) }
    }
}

/// The path of one name below `base`.
pub open spec fn below(base: Seq<char>, name: Seq<char>) -> PathView {
    PathView { base, parts: seq![name] }
}

/// The path of one name below `base`.
pub fn child(base: &str, name: &str) -> (r: FilePath)
    ensures
        r@ == below(base@, name@),
{
    let parts: Vec<String> = vec![name.to_owned()];
    assert(text::texts(parts@) =~= seq![name@]);
    FilePath { base: base.to_owned(), parts }
}

/// The path of a name below a name below `base`.
pub fn grandchild(base: &str, outer: &str, inner: &str) -> (r: FilePath)
    ensures
        r@ == (PathView { base: base@, parts: seq![outer@, inner@] }),
{
    let parts: Vec<String> = vec![outer.to_owned(), inner.to_owned()];
    assert(text::texts(parts@) =~= seq![outer@, inner@]);
    FilePath { base: base.to_owned(), parts }
}

/// The path of a place itself.
pub open spec fn place(base: Seq<char>) -> PathView {
    PathView { base, parts: Seq::empty() }
}

/// The path of a place itself.
pub fn at(base: &str) -> (r: FilePath)
    ensures
        r@ == place(base@),
{
    let parts: Vec<String> = Vec::new();
    assert(text::texts(parts@) =~= Seq::empty());
    FilePath { base: base.to_owned(), parts }
}

impl FilePath {
    /// A copy of this path.
    pub fn copy(&self) -> (r: FilePath)
        ensures
            r@ == self@,
    {
        FilePath { base: self.base.clone(), parts: text::copy_texts(&self.parts) }
    }
}

/// What an optional path holds.
pub open spec fn opt_path(o: Option<FilePath>) -> Option<PathView> {
    match o {
        Some(p) => Some(p@),
        None => None,
    }
}

// ---------------------------------------------------------------------------
// What the environment says
// ---------------------------------------------------------------------------

/// What is known of a place that may hold the data of an older version.
#[derive(Clone, Copy, Debug, PartialEq, Eq, Structural)]
pub struct RootFacts {
    /// Whether it is the place of the data.
    pub is_data_root: bool,
    /// Whether it holds files of an older version.
    pub looks_legacy: bool,
}

/// What the environment says of places.
#[derive(Debug)]
pub struct Environment {
    /// The variable `OPENRELAY_DATA_DIR`.
    pub data_dir: Option<String>,
    /// The variable `OPENRELAY_ROOT`.
    pub root: Option<String>,
    /// The variable `OPENRELAY_STATIC_ROOT`.
    pub static_root: Option<String>,
    /// The variable `OPENRELAY_LEGACY_ROOT`.
    pub legacy_root: Option<String>,
    /// The variable `USERPROFILE`.
    pub user_profile: Option<String>,
    /// The variable `HOME`.
    pub home: Option<String>,
    /// The directory in which the gateway was started.
    pub current_dir: Option<String>,
    /// What is known of that directory.
    pub current_dir_facts: RootFacts,
    /// The directory of the program.
    pub exe_dir: Option<String>,
    /// Whether the panel lies beside the program.
    pub exe_dir_has_panel: bool,
    /// The directory of the sources.
    pub package_dir: String,
    /// What is known of the place of the panel.
    pub static_root_facts: RootFacts,
}

/// Where the gateway keeps its data and its panel, and where those of an older version may be.
#[derive(Debug)]
pub struct AppPaths {
    pub data_root: FilePath,
    pub static_root: FilePath,
    pub legacy_root: Option<FilePath>,
}

/// The place that a variable names, where it names one.
pub open spec fn named_place(value: Option<Seq<char>>) -> Option<Seq<char>> {
    match value {
        Some(v) => if text::blank(v) {
            None
        } else {
            Some(text::trimmed(v))
        },
        None => None,
    }
}

/// The place that a variable names, where it names one.
pub fn env_path(value: &Option<String>) -> (r: Option<String>)
    ensures
        text::opt_text(r) == named_place(text::opt_text(*value)),
{
    match value {
        Some(v) => {
            let t = text::trim(v.as_str());
            if t.as_str().is_empty() {
                None
            } else {
                Some(t)
            }
        },
        None => None,
    }
}

/// The directory of the user.
pub open spec fn user_dir(env: Environment) -> Option<Seq<char>> {
    match env.user_profile {
        Some(p) => Some(p@),
        None => text::opt_text(env.home),
    }
}

/// The directory of the user.
pub fn home_dir(env: &Environment) -> (r: Option<String>)
    ensures
        text::opt_text(r) == user_dir(*env),
{
    match &env.user_profile {
        Some(p) => Some(p.clone()),
        None => text::copy_opt(&env.home),
    }
}

/// Where the data are kept in the directory of a user.
pub fn default_data_root_for_home(home: &str) -> (r: FilePath)
    ensures
        r@ == below(home@, ".openrelay"@),
{
    child(home, ".openrelay")
}

/// Where the data are kept.
pub open spec fn data_place(env: Environment) -> PathView {
    match named_place(text::opt_text(env.data_dir)) {
        Some(p) => place(p),
        None => match named_place(text::opt_text(env.root)) {
            Some(p) => place(p),
            None => match user_dir(env) {
                Some(h) => below(h, ".openrelay"@),
                None => match env.current_dir {
                    Some(d) => place(d@),
                    None => place("."@),
                },
            },
        },
    }
}

/// Where the data are kept: where a variable says so, else in the directory of the user, else where
/// the gateway was started.
pub fn data_root_from_env(env: &Environment) -> (r: FilePath)
    ensures
        r@ == data_place(*env),
{
    if let Some(p) = env_path(&env.data_dir) {
        return at(p.as_str());
    }
    if let Some(p) = env_path(&env.root) {
        return at(p.as_str());
    }
    if let Some(h) = home_dir(env) {
        return default_data_root_for_home(h.as_str());
    }
    match &env.current_dir {
        Some(d) => at(d.as_str()),
        None => at("."),
    }
}

/// Where the data are kept.
pub fn root_from_env(env: &Environment) -> (r: FilePath)
    ensures
        r@ == data_place(*env),
{
    data_root_from_env(env)
}

/// Where the panel is kept.
pub open spec fn static_place(env: Environment) -> Seq<char> {
    match named_place(text::opt_text(env.static_root)) {
        Some(p) => p,
        None => match env.exe_dir {
            Some(d) => if env.exe_dir_has_panel {
                d@
            } else {
                env.package_dir@
            },
            None => env.package_dir@,
        },
    }
}

/// Where the panel is kept: where a variable says so, else beside the program, else with the
/// sources.
pub fn static_root_from_env(env: &Environment) -> (r: FilePath)
    ensures
        r@ == place(static_place(*env)),
{
    if let Some(p) = env_path(&env.static_root) {
        return at(p.as_str());
    }
    if let Some(d) = &env.exe_dir {
        if env.exe_dir_has_panel {
            return at(d.as_str());
        }
    }
    at(env.package_dir.as_str())
}

/// Whether a place holds the data of an older version, and not the present ones.
pub open spec fn is_legacy(f: RootFacts) -> bool {
    !f.is_data_root && f.looks_legacy
}

/// Where the data of an older version are.
pub open spec fn legacy_place(env: Environment) -> Option<PathView> {
    match named_place(text::opt_text(env.legacy_root)) {
        Some(p) => Some(place(p)),
        None => if env.current_dir is Some && is_legacy(env.current_dir_facts) {
            Some(place(env.current_dir->0@))
        } else if is_legacy(env.static_root_facts) {
            Some(place(static_place(env)))
        } else {
            None
        },
    }
}

/// Where the data of an older version are: where a variable says so, else where the gateway was
/// started, else with the panel, where they look like it.
pub fn legacy_root_from_env(env: &Environment) -> (r: Option<FilePath>)
    ensures
        opt_path(r) == legacy_place(*env),
{
    if let Some(p) = env_path(&env.legacy_root) {
        return Some(at(p.as_str()));
    }
    if let Some(d) = &env.current_dir {
        if !env.current_dir_facts.is_data_root && env.current_dir_facts.looks_legacy {
            return Some(at(d.as_str()));
        }
    }
    if !env.static_root_facts.is_data_root && env.static_root_facts.looks_legacy {
        Some(static_root_from_env(env))
    } else {
        None
    }
}

impl AppPaths {
    /// The places that the environment names.
    pub fn from_env(env: &Environment) -> (r: AppPaths)
        ensures
            r.data_root@ == data_place(*env),
            r.static_root@ == place(static_place(*env)),
            opt_path(r.legacy_root) == legacy_place(*env),
    {
        AppPaths {
            data_root: data_root_from_env(env),
            static_root: static_root_from_env(env),
            legacy_root: legacy_root_from_env(env),
        }
    }
}

/// The files of an older version that are looked for below a place.
pub fn legacy_markers(root: &str) -> (r: Vec<FilePath>)
    ensures
        r@.len() == 5,
        r@[0]@ == below(root@, "config.json"@),
        r@[1]@ == below(root@, "usage.jsonl"@),
        r@[2]@ == below(root@, "openrelay.db"@),
        r@[3]@ == below(root@, "litellm-config.yaml"@),
        r@[4]@ == below(root@, "conversations"@),
{
    vec![
        child(root, "config.json"),
        child(root, "usage.jsonl"),
        child(root, "openrelay.db"),
        child(root, "litellm-config.yaml"),
        child(root, "conversations"),
    ]
}

/// Whether a place looks like that of an older version, given which of its files are there.
pub fn looks_like_legacy_root(found: &Vec<bool>) -> (r: bool)
    ensures
        r == found@.contains(true),
{
    let n: usize = found.len();
    for i in 0..n
        invariant
            n == found@.len(),
            forall|j: int| 0 <= j < i ==> !#[trigger] found@[j],
    {
        if found[i] {
            assert(found@[i as int] == true);
            return true;
        }
    }
    assert(!found@.contains(true));
    false
}

/// A path as its parts, and as the parts of the place that it leads to where that is there.
#[derive(Debug)]
pub struct PathIdentity {
    pub raw: Vec<String>,
    pub canonical: Option<Vec<String>>,
}

/// Whether two paths lead to the same place: where both places are there they are held against each
/// other, else the paths.
pub open spec fn leads_same(a: PathIdentity, b: PathIdentity) -> bool {
    match (a.canonical, b.canonical) {
        (Some(x), Some(y)) => text::texts(x@) == text::texts(y@),
        _ => text::texts(a.raw@) == text::texts(b.raw@),
    }
}

/// Whether two paths lead to the same place.
pub fn same_path(left: &PathIdentity, right: &PathIdentity) -> (r: bool)
    ensures
        r == leads_same(*left, *right),
{
    match (&left.canonical, &right.canonical) {
        (Some(x), Some(y)) => text::same_list(x, y),
        _ => text::same_list(&left.raw, &right.raw),
    }
}

/// The port that a variable names, or the usual one.
pub open spec fn named_port(value: Option<Seq<char>>) -> u16 {
    match value {
        Some(v) => match decimal::parsed_number(v) {
            Some(n) => if n <= u16::MAX {
                n as u16
            } else {
                18783
            },
            None => 18783,
        },
        None => 18783,
    }
}

/// The port that a variable names, or the usual one.
pub fn port_from_env(value: Option<&str>) -> (r: u16)
    ensures
        r == named_port(text::opt_str(value)),
{
    match value {
        Some(v) => match decimal::parse_number(v) {
            Some(n) => if n <= 0xFFFF {
                n as u16
            } else {
                18783
            },
            None => 18783,
        },
        None => 18783,
    }
}

// ---------------------------------------------------------------------------
// What is promised of places
// ---------------------------------------------------------------------------

/// A variable names a place where it is set and not blank: without the whitespace around it.
pub proof fn law_variables_name_places(value: Seq<char>)
    ensures
        named_place(None) is None,
        text::blank(value) ==> named_place(Some(value)) is None,
        !text::blank(value) ==> named_place(Some(value)) == Some(text::trimmed(value)),
{
}

/// Whether a variable is set to something.
pub open spec fn is_set(o: Option<String>) -> bool {
    o is Some && !text::blank(o->0@)
}

/// The data are kept where the variable for them says, else where the older variable says, else in
/// the user's directory, else where the gateway was started.
pub proof fn law_data_have_a_place(env: Environment)
    ensures
        is_set(env.data_dir) ==> data_place(env) == place(text::trimmed(env.data_dir->0@)),
        !is_set(env.data_dir) && is_set(env.root) ==> data_place(env) == place(
            text::trimmed(env.root->0@),
        ),
        !is_set(env.data_dir) && !is_set(env.root) ==> {
            &&& env.user_profile is Some ==> data_place(env) == below(
                env.user_profile->0@,
                ".openrelay"@,
            )
            &&& env.user_profile is None && env.home is Some ==> data_place(env) == below(
                env.home->0@,
                ".openrelay"@,
            )
            &&& env.user_profile is None && env.home is None && env.current_dir is Some
                ==> data_place(env) == place(env.current_dir->0@)
            &&& env.user_profile is None && env.home is None && env.current_dir is None
                ==> data_place(env) == place("."@)
        },
{
}

/// The panel is where its variable says, else beside the program where it lies there, else with the
/// sources.
pub proof fn law_panel_has_a_place(env: Environment)
    ensures
        is_set(env.static_root) ==> static_place(env) == text::trimmed(env.static_root->0@),
        !is_set(env.static_root) && env.exe_dir is Some && env.exe_dir_has_panel ==> static_place(
            env,
        ) == env.exe_dir->0@,
        !is_set(env.static_root) && (env.exe_dir is None || !env.exe_dir_has_panel)
            ==> static_place(env) == env.package_dir@,
{
}

/// An older version is where its variable says, else where the gateway was started or where the
/// panel is, if its files lie there and it is not the place of the data.
pub proof fn law_older_version_has_a_place(env: Environment)
    ensures
        is_set(env.legacy_root) ==> legacy_place(env) == Some(
            place(text::trimmed(env.legacy_root->0@)),
        ),
        !is_set(env.legacy_root) ==> {
            let here = env.current_dir is Some && env.current_dir_facts.looks_legacy
                && !env.current_dir_facts.is_data_root;
            let there = env.static_root_facts.looks_legacy && !env.static_root_facts.is_data_root;
            &&& here ==> legacy_place(env) == Some(place(env.current_dir->0@))
            &&& !here && there ==> legacy_place(env) == Some(place(static_place(env)))
            &&& !here && !there ==> legacy_place(env) is None
        },
{
}

/// Two paths whose places are both there are the same if the places are; else if the paths are.
pub proof fn law_same_place_is_known(a: PathIdentity, b: PathIdentity)
    ensures
        leads_same(a, a),
        leads_same(a, b) == leads_same(b, a),
        a.canonical is Some && b.canonical is Some ==> leads_same(a, b) == (text::texts(
            a.canonical->0@,
        ) == text::texts(b.canonical->0@)),
        a.canonical is None || b.canonical is None ==> leads_same(a, b) == (text::texts(a.raw@)
            == text::texts(b.raw@)),
{
}

/// The port is the one that the variable names, in decimal; where it names none it is the usual one.
pub proof fn law_port_is_the_named_one(n: u64, s: Seq<char>)
    ensures
        n <= 65535 ==> named_port(Some(decimal::decimal(n as nat))) == n,
        n > 65535 ==> named_port(Some(decimal::decimal(n as nat))) == 18783,
        decimal::parsed_number(s) is None ==> named_port(Some(s)) == 18783,
        named_port(None) == 18783,
{
    decimal::law_number_reads_back(n);
}

} // verus!
