//! The version of the gateway, updates, and starting with the system.
use vstd::prelude::*;

use crate::decimal;
use crate::json;
use crate::json::Json;
use crate::paths;
use crate::secrets;
use crate::text;

verus! {

/// What is known of the running gateway.
#[derive(Debug)]
pub struct AppStatus {
    pub version: String,
    pub data_root: String,
    pub static_root: String,
    pub startup: StartupStatus,
    pub secrets_supported: bool,
}

/// Whether the gateway starts with the system.
#[derive(Debug)]
pub struct StartupStatus {
    pub supported: bool,
    pub enabled: bool,
    pub path: Option<String>,
}

/// The wish that the gateway starts with the system, or that it does not.
#[derive(Debug)]
pub struct StartupRequest {
    pub enabled: bool,
}

/// What is known of updates.
#[derive(Debug)]
pub struct UpdateInfo {
    pub current_version: String,
    pub latest_version: Option<String>,
    pub update_available: bool,
    pub release_url: Option<String>,
    pub changelog: Option<String>,
    pub error: Option<String>,
}

/// What a [`StartupStatus`] holds.
#[verifier::ext_equal]
pub struct StartupView {
    pub supported: bool,
    pub enabled: bool,
    pub path: Option<Seq<char>>,
}

/// What an [`UpdateInfo`] holds.
#[verifier::ext_equal]
pub struct UpdateView {
    pub current_version: Seq<char>,
    pub latest_version: Option<Seq<char>>,
    pub update_available: bool,
    pub release_url: Option<Seq<char>>,
    pub changelog: Option<Seq<char>>,
    pub error: Option<Seq<char>>,
}

impl View for StartupStatus {
    type V = StartupView;

    open spec fn view(&self) -> StartupView {
        StartupView {
            supported: self.supported,
            enabled: self.enabled,
            path: text::opt_text(self.path),
        }
    }
}

impl View for UpdateInfo {
    type V = UpdateView;

    open spec fn view(&self) -> UpdateView {
        UpdateView {
            current_version: self.current_version@,
            latest_version: text::opt_text(self.latest_version),
            update_available: self.update_available,
            release_url: text::opt_text(self.release_url),
            changelog: text::opt_text(self.changelog),
            error: text::opt_text(self.error),
        }
    }
}

/// What is known of the running gateway.
pub fn app_status(
    version: &str,
    data_root: &str,
    static_root: &str,
    startup: StartupStatus,
    on_windows: bool,
) -> (r: AppStatus)
    ensures
        r.version@ == version@,
        r.data_root@ == data_root@,
        r.static_root@ == static_root@,
        r.startup == startup,
        r.secrets_supported == on_windows,
{
    AppStatus {
        version: version.to_owned(),
        data_root: data_root.to_owned(),
        static_root: static_root.to_owned(),
        startup,
        secrets_supported: secrets::secrets_supported(on_windows),
    }
}

// ---------------------------------------------------------------------------
// Starting with the system
// ---------------------------------------------------------------------------

/// Where the script is kept that starts the gateway, given the directory for the data of programs.
pub fn startup_script_path(appdata: Option<&str>) -> (r: Option<paths::FilePath>)
    ensures
        match (r, appdata) {
            (Some(p), Some(a)) => p@ == (paths::PathView {
                base: a@,
                parts: seq![
                    "Microsoft"@,
                    "Windows"@,
                    "Start Menu"@,
                    "Programs"@,
                    "Startup"@,
                    "OpenRelay.cmd"@,
                ],
            }),
            (None, None) => true,
            _ => false,
        },
{
    match appdata {
        Some(a) => {
            let parts: Vec<String> = vec![
                "Microsoft".to_owned(),
                "Windows".to_owned(),
                "Start Menu".to_owned(),
                "Programs".to_owned(),
                "Startup".to_owned(),
                "OpenRelay.cmd".to_owned(),
            ];
            assert(text::texts(parts@) =~= seq![
                "Microsoft"@,
                "Windows"@,
                "Start Menu"@,
                "Programs"@,
                "Startup"@,
                "OpenRelay.cmd"@,
            ]);
            Some(paths::FilePath { base: a.to_owned(), parts })
        },
        None => None,
    }
}

/// Whether the gateway starts with the system, given where its script is kept and whether it is
/// there.
pub fn startup_status(on_windows: bool, path: Option<&str>, exists: bool) -> (r: StartupStatus)
    ensures
        r@ == (StartupView {
            supported: on_windows && path is Some,
            enabled: path is Some && exists,
            path: text::opt_str(path),
        }),
{
    let known = path.is_some();
    StartupStatus {
        supported: on_windows && known,
        enabled: known && exists,
        path: match path {
            Some(p) => Some(p.to_owned()),
            None => None,
        },
    }
}

/// What is done so that the gateway starts with the system, or does not.
#[derive(Clone, Copy, Debug, PartialEq, Eq, Structural)]
pub enum StartupAction {
    Nothing,
    WriteScript,
    RemoveScript,
}

/// What is done so that the gateway starts with the system, or does not: without a place for the
/// script nothing.
pub fn set_startup_enabled(enabled: bool, path_known: bool, exists: bool) -> (r: StartupAction)
    ensures
        r == (if !path_known {
            StartupAction::Nothing
        } else if enabled {
            StartupAction::WriteScript
        } else if exists {
            StartupAction::RemoveScript
        } else {
            StartupAction::Nothing
        }),
{
    if !path_known {
        StartupAction::Nothing
    } else if enabled {
        StartupAction::WriteScript
    } else if exists {
        StartupAction::RemoveScript
    } else {
        StartupAction::Nothing
    }
}

/// The script that starts the gateway.
pub fn startup_script(exe: &str) -> (r: String)
    ensures
        r@ == "@echo off\r\nstart \"OpenRelay\" \""@ + exe@ + "\"\r\n"@,
{
    text::cat3("@echo off\r\nstart \"OpenRelay\" \"", exe, "\"\r\n")
}

// ---------------------------------------------------------------------------
// Versions
// ---------------------------------------------------------------------------

/// The character that separates the parts of a version, for each that does.
pub open spec fn dotted_char(c: char) -> char {
    if c == '-' || c == '+' {
        '.'
    } else {
        c
    }
}

/// A version with the same separator everywhere.
pub open spec fn dotted(s: Seq<char>) -> Seq<char> {
    Seq::new(s.len(), |i: int| dotted_char(s[i]))
}

/// The number of a part of a version: zero where it is none.
pub open spec fn part_number(s: Seq<char>) -> u64 {
    match decimal::parsed_number(s) {
        Some(n) => n,
        None => 0,
    }
}

/// The numbers of a version.
pub open spec fn version_numbers(s: Seq<char>) -> Seq<u64> {
    let parts = text::split_on(dotted(text::drop_leading(s, 'v')), '.');
    Seq::new(parts.len(), |i: int| part_number(parts[i]))
}

/// Whether `a` comes before `b`, number by number; a shorter version comes before a longer one
/// that begins with it.
pub open spec fn numbers_lt(a: Seq<u64>, b: Seq<u64>) -> bool
    decreases a.len(),
{
    if b.len() == 0 {
        false
    } else if a.len() == 0 {
        true
    } else if a[0] != b[0] {
        a[0] < b[0]
    } else {
        numbers_lt(a.skip(1), b.skip(1))
    }
}

/// Whether the version `latest` comes after `current`.
pub open spec fn is_newer(latest: Seq<char>, current: Seq<char>) -> bool {
    numbers_lt(version_numbers(current), version_numbers(latest))
}

fn dot(s: &str) -> (r: String)
    ensures
        r@ == dotted(s@),
{
    let chars = text::chars_of(s);
    let n: usize = chars.len();
    let mut out = String::new();
    assert(dotted(s@).take(0) =~= Seq::empty());
    for i in 0..n
        invariant
            n == chars@.len(),
            chars@ == s@,
            out@ == dotted(s@).take(i as int),
    {
        let c = chars[i];
        let d = if c == '-' || c == '+' {
            '.'
        } else {
            c
        };
        out.push(d);
        assert(dotted(s@).take(i + 1) =~= dotted(s@).take(i as int).push(dotted_char(c)));
    }
    assert(dotted(s@).take(n as int) =~= dotted(s@));
    out
}

/// The numbers of a version.
pub fn version_parts(value: &str) -> (r: Vec<u64>)
    ensures
        r@ == version_numbers(value@),
{
    let plain = text::trim_leading(value, 'v');
    let same = dot(plain.as_str());
    let parts = text::split(same.as_str(), '.');
    let ghost all = text::texts(parts@);
    let mut out: Vec<u64> = Vec::new();
    let n: usize = parts.len();
    for i in 0..n
        invariant
            n == parts@.len(),
            all == text::texts(parts@),
            out@.len() == i,
            forall|j: int| 0 <= j < i ==> #[trigger] out@[j] == part_number(all[j]),
    {
        assert(all[i as int] == parts@[i as int]@);
        let v: u64 = match decimal::parse_number(parts[i].as_str()) {
            Some(k) => k,
            None => 0,
        };
        out.push(v);
    }
    assert(out@ =~= version_numbers(value@));
    out
}

/// Whether the version `latest` comes after `current`.
pub fn version_newer(latest: &str, current: &str) -> (r: bool)
    ensures
        r == is_newer(latest@, current@),
{
    let a = version_parts(current);
    let b = version_parts(latest);
    let mut i: usize = 0;
    assert(a@.skip(0) =~= a@);
    assert(b@.skip(0) =~= b@);
    while i < a.len() && i < b.len()
        invariant
            a@ == version_numbers(current@),
            b@ == version_numbers(latest@),
            i <= a@.len(),
            i <= b@.len(),
            numbers_lt(a@, b@) == numbers_lt(a@.skip(i as int), b@.skip(i as int)),
        decreases a@.len() - i,
    {
        assert(a@.skip(i as int)[0] == a@[i as int] && b@.skip(i as int)[0] == b@[i as int]);
        if a[i] != b[i] {
            return a[i] < b[i];
        }
        assert(a@.skip(i as int).skip(1) =~= a@.skip(i + 1));
        assert(b@.skip(i as int).skip(1) =~= b@.skip(i + 1));
        i = i + 1;
    }
    i < b.len()
}

proof fn lemma_numbers_order(a: Seq<u64>, b: Seq<u64>)
    ensures
        !(numbers_lt(a, b) && numbers_lt(b, a)),
        a == b || numbers_lt(a, b) || numbers_lt(b, a),
        numbers_lt(a, b) ==> a != b,
    decreases a.len(),
{
    if a.len() == 0 {
        if b.len() == 0 {
            assert(a =~= b);
        }
    } else if b.len() > 0 && a[0] == b[0] {
        lemma_numbers_order(a.skip(1), b.skip(1));
        if a.skip(1) == b.skip(1) {
            assert(a =~= seq![a[0]] + a.skip(1));
            assert(b =~= seq![b[0]] + b.skip(1));
        }
    }
}

proof fn lemma_numbers_transitive(a: Seq<u64>, b: Seq<u64>, c: Seq<u64>)
    requires
        numbers_lt(a, b),
        numbers_lt(b, c),
    ensures
        numbers_lt(a, c),
    decreases a.len(),
{
    if a.len() > 0 && a[0] == b[0] && b[0] == c[0] {
        lemma_numbers_transitive(a.skip(1), b.skip(1), c.skip(1));
    }
}

/// Of two versions at most one is newer, exactly one where their numbers differ, and none is newer
/// than itself.
pub proof fn law_versions_are_ordered(a: Seq<char>, b: Seq<char>)
    ensures
        !(is_newer(a, b) && is_newer(b, a)),
        is_newer(a, b) || is_newer(b, a) <==> version_numbers(a) != version_numbers(b),
        !is_newer(a, a),
{
    lemma_numbers_order(version_numbers(a), version_numbers(b));
    lemma_numbers_order(version_numbers(a), version_numbers(a));
}

/// What is newer than a newer version is newer.
pub proof fn law_newer_is_transitive(a: Seq<char>, b: Seq<char>, c: Seq<char>)
    requires
        is_newer(a, b),
        is_newer(b, c),
    ensures
        is_newer(a, c),
{
    lemma_numbers_transitive(version_numbers(c), version_numbers(b), version_numbers(a));
}

// ---------------------------------------------------------------------------
// Updates
// ---------------------------------------------------------------------------

/// What is known of updates where they could not be looked up.
pub open spec fn no_update_info(current: Seq<char>, error: Seq<char>) -> UpdateView {
    UpdateView {
        current_version: current,
        latest_version: None,
        update_available: false,
        release_url: None,
        changelog: None,
        error: Some(error),
    }
}

fn without_info(current: &str, error: String) -> (r: UpdateInfo)
    ensures
        r@ == no_update_info(current@, error@),
{
    UpdateInfo {
        current_version: current.to_owned(),
        latest_version: None,
        update_available: false,
        release_url: None,
        changelog: None,
        error: Some(error),
    }
}

/// What is known of updates where the releases could not be reached.
pub fn update_unreachable(current: &str) -> (r: UpdateInfo)
    ensures
        r@ == no_update_info(current@, "无法连接 GitHub Releases"@),
{
    without_info(current, "无法连接 GitHub Releases".to_owned())
}

/// What is known of updates where the releases answered with a status that is no success.
pub fn update_refused(current: &str, status_text: &str) -> (r: UpdateInfo)
    ensures
        r@ == no_update_info(current@, "GitHub Releases 返回 HTTP "@ + status_text@),
{
    without_info(current, text::cat("GitHub Releases 返回 HTTP ", status_text))
}

/// The version that a release names.
pub open spec fn release_version(v: json::JsonView) -> Option<Seq<char>> {
    let tag = match v.at("tag_name"@) {
        Some(t) => Some(t),
        None => v.at("name"@),
    };
    match json::text_of(tag) {
        Some(s) => Some(text::drop_leading(s, 'v')),
        None => None,
    }
}

/// What a release says of updates.
pub open spec fn update_info(current: Seq<char>, v: json::JsonView) -> UpdateView {
    UpdateView {
        current_version: current,
        latest_version: release_version(v),
        update_available: match release_version(v) {
            Some(latest) => is_newer(latest, current),
            None => false,
        },
        release_url: json::text_of(v.at("html_url"@)),
        changelog: match json::text_of(v.at("body"@)) {
            Some(b) => Some(text::clipped(b, 4000)),
            None => None,
        },
        error: None,
    }
}

/// What the latest release says of updates.
pub fn finish_update(current: &str, value: &Json) -> (r: UpdateInfo)
    ensures
        r@ == update_info(current@, value@),
{
    let tag = match value.get("tag_name") {
        Some(t) => Some(t),
        None => value.get("name"),
    };
    let latest_version = match tag {
        Some(t) => match t.as_text() {
            Some(s) => Some(text::trim_leading(s, 'v')),
            None => None,
        },
        None => None,
    };
    let update_available = match &latest_version {
        Some(latest) => version_newer(latest.as_str(), current),
        None => false,
    };
    let release_url = match value.text_at("html_url") {
        Some(s) => Some(s.to_owned()),
        None => None,
    };
    let changelog = match value.text_at("body") {
        Some(b) => Some(text::clip(b, 4000)),
        None => None,
    };
    UpdateInfo {
        current_version: current.to_owned(),
        latest_version,
        update_available,
        release_url,
        changelog,
        error: None,
    }
}

// ---------------------------------------------------------------------------
// What is promised of versions and updates
// ---------------------------------------------------------------------------

proof fn lemma_plain_digits(s: Seq<char>)
    requires
        decimal::all_digits(s),
    ensures
        !s.contains('.'),
        dotted(s) == s,
{
    assert forall|i: int| 0 <= i < s.len() implies s[i] != '.' && s[i] != '-' && s[i] != '+' by {
        assert(decimal::is_digit(s[i]));
    }
    assert(dotted(s) =~= s);
}

/// A version is made of the numbers that it is written with, with dots between them, and with or
/// without a `v` in front.
pub proof fn law_version_is_made_of_its_numbers(a: u64, b: u64, c: u64)
    ensures
        ({
            let s = decimal::decimal(a as nat) + "."@ + decimal::decimal(b as nat) + "."@
                + decimal::decimal(c as nat);
            &&& version_numbers(s) == seq![a, b, c]
            &&& version_numbers(seq!['v'] + s) == seq![a, b, c]
        }),
{
    reveal_strlit(".");
    assert("."@ =~= seq!['.']);
    let x = decimal::decimal(a as nat);
    let y = decimal::decimal(b as nat);
    let z = decimal::decimal(c as nat);
    decimal::law_number_is_written_digit_by_digit(a as nat, 0);
    decimal::law_number_is_written_digit_by_digit(b as nat, 0);
    decimal::law_number_is_written_digit_by_digit(c as nat, 0);
    lemma_plain_digits(x);
    lemma_plain_digits(y);
    lemma_plain_digits(z);
    let s = x + "."@ + y + "."@ + z;
    let parts = seq![x, y, z];
    reveal_with_fuel(text::joined, 4);
    assert(parts.drop_last() =~= seq![x, y]);
    assert(seq![x, y].drop_last() =~= seq![x]);
    assert(text::joined(parts, seq!['.']) =~= s);
    assert forall|i: int| 0 <= i < s.len() implies s[i] != '-' && s[i] != '+' by {
        if i < x.len() {
            assert(decimal::is_digit(x[i]));
        } else if x.len() < i < x.len() + 1 + y.len() {
            assert(decimal::is_digit(y[i - x.len() - 1]));
        } else if i > x.len() + 1 + y.len() {
            assert(decimal::is_digit(z[i - x.len() - y.len() - 2]));
        }
    }
    assert(dotted(s) =~= s);
    text::lemma_joined_split(parts, '.');
    assert(decimal::is_digit(x[0]));
    assert(s[0] == x[0]);
    assert(text::drop_leading(s, 'v') == s);
    let v = seq!['v'] + s;
    reveal_with_fuel(text::drop_leading, 2);
    assert(v.skip(1) =~= s);
    assert(text::drop_leading(v, 'v') == s);
    decimal::law_number_reads_back(a);
    decimal::law_number_reads_back(b);
    decimal::law_number_reads_back(c);
    assert(version_numbers(s) =~= seq![a, b, c]);
    assert(version_numbers(v) =~= seq![a, b, c]);
}

/// The first number that differs decides which version is newer; of two that begin alike the longer
/// one is.
pub proof fn law_first_number_that_differs_decides(
    front: Seq<u64>,
    x: u64,
    a: Seq<u64>,
    y: u64,
    b: Seq<u64>,
)
    ensures
        x < y ==> numbers_lt(front + seq![x] + a, front + seq![y] + b),
        x > y ==> !numbers_lt(front + seq![x] + a, front + seq![y] + b),
        numbers_lt(front, front + seq![y] + b),
    decreases front.len(),
{
    let s = front + seq![x] + a;
    let t = front + seq![y] + b;
    if front.len() == 0 {
        assert(s[0] == x && t[0] == y);
    } else {
        let rest = front.skip(1);
        assert(s.skip(1) =~= rest + seq![x] + a);
        assert(t.skip(1) =~= rest + seq![y] + b);
        assert(s[0] == front[0] && t[0] == front[0]);
        law_first_number_that_differs_decides(rest, x, a, y, b);
    }
}

/// An update is there if the release names a version that is newer than the present one: its tag,
/// or its name where it has no tag, without a `v` in front. Its address and the front of what it
/// says are shown.
pub proof fn law_newer_release_is_an_update(
    current: Seq<char>,
    v: json::JsonView,
    tag: Seq<char>,
    url: Seq<char>,
    body: Seq<char>,
)
    requires
        tag.len() == 0 || tag[0] != 'v',
    ensures
        ({
            let u = update_info(current, v);
            let named = v.at("tag_name"@) == Some(json::JsonView::Text(tag)) || v.at("tag_name"@)
                == Some(json::JsonView::Text(seq!['v'] + tag)) || (v.at("tag_name"@) is None
                && v.at("name"@) == Some(json::JsonView::Text(tag)));
            &&& u.current_version == current
            &&& u.error is None
            &&& named ==> u.latest_version == Some(tag) && u.update_available == is_newer(
                tag,
                current,
            )
            &&& v.at("tag_name"@) is None && v.at("name"@) is None ==> u.latest_version is None
                && !u.update_available
            &&& v.at("html_url"@) == Some(json::JsonView::Text(url)) ==> u.release_url == Some(url)
            &&& v.at("html_url"@) is None ==> u.release_url is None
            &&& v.at("body"@) == Some(json::JsonView::Text(body)) && body.len() <= 4000
                ==> u.changelog == Some(body)
            &&& v.at("body"@) == Some(json::JsonView::Text(body)) && body.len() > 4000
                ==> u.changelog == Some(body.take(4000))
            &&& v.at("body"@) is None ==> u.changelog is None
        }),
{
    reveal_with_fuel(text::drop_leading, 2);
    assert((seq!['v'] + tag).skip(1) =~= tag);
}

/// Where nothing could be looked up there is no update, and why is said.
pub proof fn law_no_update_without_a_release(current: Seq<char>, error: Seq<char>)
    ensures
        ({
            let u = no_update_info(current, error);
            &&& u.current_version == current
            &&& u.latest_version is None
            &&& !u.update_available
            &&& u.release_url is None
            &&& u.changelog is None
            &&& u.error == Some(error)
        }),
{
}

} // verus!
