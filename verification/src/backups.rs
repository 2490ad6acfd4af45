//! Snapshots of the configuration.
use vstd::prelude::*;

use crate::clock;
use crate::config;
use crate::config::AppConfig;
use crate::ids;
use crate::paths;
use crate::text;

verus! {

/// Why a snapshot could not be found.
#[derive(Clone, Copy, Debug, PartialEq, Eq, Structural)]
pub enum BackupError {
    NotFound,
    InvalidId,
}

impl BackupError {
    /// The error in words.
    pub fn message(&self) -> (r: String)
        ensures
            r@ == (match self {
                BackupError::NotFound => "backup not found"@,
                BackupError::InvalidId => "invalid backup id"@,
            }),
    {
        match self {
            BackupError::NotFound => "backup not found".to_owned(),
            BackupError::InvalidId => "invalid backup id".to_owned(),
        }
    }
}

/// What is known of a snapshot.
#[derive(Debug)]
pub struct BackupEntry {
    pub id: String,
    pub created_at: String,
    pub reason: String,
    pub provider_count: usize,
    pub model_count: usize,
    pub virtual_key_count: usize,
    pub size_bytes: u64,
}

/// What a [`BackupEntry`] holds.
#[verifier::ext_equal]
pub struct BackupView {
    pub id: Seq<char>,
    pub created_at: Seq<char>,
    pub reason: Seq<char>,
    pub provider_count: usize,
    pub model_count: usize,
    pub virtual_key_count: usize,
    pub size_bytes: u64,
}

impl View for BackupEntry {
    type V = BackupView;

    open spec fn view(&self) -> BackupView {
        BackupView {
            id: self.id@,
            created_at: self.created_at@,
            reason: self.reason@,
            provider_count: self.provider_count,
            model_count: self.model_count,
            virtual_key_count: self.virtual_key_count,
            size_bytes: self.size_bytes,
        }
    }
}

/// What the entries of a list hold.
pub open spec fn entries_of(v: Seq<BackupEntry>) -> Seq<BackupView> {
    Seq::new(v.len(), |i: int| v[i]@)
}

// ---------------------------------------------------------------------------
// Where snapshots are kept
// ---------------------------------------------------------------------------

/// Where snapshots are kept.
pub fn backups_dir(root: &str) -> (r: paths::FilePath)
    ensures
        r@ == paths::below(root@, "backups"@),
{
    paths::child(root, "backups")
}

/// Whether a character may stand in the identifier of a snapshot.
pub open spec fn is_id_char(c: char) -> bool {
    'a' <= c <= 'z' || 'A' <= c <= 'Z' || '0' <= c <= '9' || c == '-' || c == '_' || c == '.'
}

/// Whether a text is the identifier of a snapshot.
pub open spec fn is_backup_id(id: Seq<char>) -> bool {
    id.len() > 0 && forall|i: int| 0 <= i < id.len() ==> is_id_char(#[trigger] id[i])
}

/// Whether the text is the identifier of a snapshot.
pub fn valid_backup_id(id: &str) -> (r: bool)
    ensures
        r == is_backup_id(id@),
{
    let chars = text::chars_of(id);
    let n: usize = chars.len();
    if n == 0 {
        return false;
    }
    for i in 0..n
        invariant
            n == chars@.len(),
            chars@ == id@,
            forall|j: int| 0 <= j < i ==> is_id_char(#[trigger] id@[j]),
    {
        let c = chars[i];
        if !(('a' <= c && c <= 'z') || ('A' <= c && c <= 'Z') || ('0' <= c && c <= '9') || c == '-'
            || c == '_' || c == '.') {
            assert(!is_id_char(id@[i as int]));
            return false;
        }
    }
    true
}

/// Where the snapshot with an identifier is kept.
pub open spec fn snapshot_path(root: Seq<char>, id: Seq<char>) -> Result<
    paths::PathView,
    BackupError,
> {
    if is_backup_id(id) {
        Ok(paths::PathView { base: root, parts: seq!["backups"@, id + ".json"@] })
    } else {
        Err(BackupError::InvalidId)
    }
}

/// What a path, or the reason why there is none, holds.
pub open spec fn path_view(r: Result<paths::FilePath, BackupError>) -> Result<
    paths::PathView,
    BackupError,
> {
    match r {
        Ok(p) => Ok(p@),
        Err(e) => Err(e),
    }
}

/// Where the snapshot with an identifier is kept. A text that is no identifier is refused.
pub fn backup_path(root: &str, id: &str) -> (r: Result<paths::FilePath, BackupError>)
    ensures
        path_view(r) == snapshot_path(root@, id@),
{
    if !valid_backup_id(id) {
        return Err(BackupError::InvalidId);
    }
    let name = text::cat(id, ".json");
    Ok(paths::grandchild(root, "backups", name.as_str()))
}

/// Where the snapshot with an identifier is read from, given whether it is there.
pub fn existing_backup(root: &str, id: &str, exists: bool) -> (r: Result<
    paths::FilePath,
    BackupError,
>)
    ensures
        path_view(r) == (if is_backup_id(id@) && !exists {
            Err(BackupError::NotFound)
        } else {
            snapshot_path(root@, id@)
        }),
{
    match backup_path(root, id) {
        Ok(p) => if exists {
            Ok(p)
        } else {
            Err(BackupError::NotFound)
        },
        Err(e) => Err(e),
    }
}

/// A snapshot is kept in the directory of the snapshots itself: its identifier names no other
/// directory.
pub proof fn law_snapshot_stays_in_its_directory(root: Seq<char>, id: Seq<char>)
    ensures
        snapshot_path(root, id) matches Ok(p) ==> {
            &&& p.base == root
            &&& p.parts.len() == 2
            &&& p.parts[0] == "backups"@
            &&& !p.parts[1].contains('/')
            &&& !p.parts[1].contains('\\')
        },
{
    if is_backup_id(id) {
        reveal_strlit(".json");
        let name = id + ".json"@;
        assert forall|i: int| 0 <= i < name.len() implies name[i] != '/' && name[i] != '\\' by {
            if i < id.len() {
                assert(is_id_char(id[i]));
                assert(name[i] == id[i]);
            } else {
                assert(name[i] == ".json"@[i - id.len()]);
            }
        }
    }
}

// ---------------------------------------------------------------------------
// New snapshots
// ---------------------------------------------------------------------------

/// The identifier of a snapshot that was made at a time, with a random part.
pub fn backup_id(stamp: &str, random: &str) -> (r: String)
    ensures
        r@ == stamp@ + "-"@ + random@,
{
    text::cat3(stamp, "-", random)
}

/// A time and a random part make the identifier of a snapshot, which names that time.
pub proof fn law_new_snapshot_has_an_identifier(stamp: Seq<char>, random: Seq<char>)
    requires
        clock::is_stamp(stamp),
        ids::is_simple_id(random),
    ensures
        is_backup_id(stamp + "-"@ + random),
        text::before(stamp + "-"@ + random, '-') == stamp,
{
    reveal_strlit("-");
    let id = stamp + "-"@ + random;
    assert forall|i: int| 0 <= i < id.len() implies is_id_char(#[trigger] id[i]) by {
        if i < 20 {
            assert(id[i] == stamp[i]);
        } else if i > 20 {
            assert(id[i] == random[i - 21]);
            assert(ids::is_lower_hex(random[i - 21]));
        }
    }
    text::lemma_first_at(id, '-');
    let k = text::first_at(id, '-');
    assert(id[20] == '-');
    if k < 20 {
        assert(id[k] == stamp[k]);
    }
    assert(id.take(20) =~= stamp);
}

/// A new identifier of a snapshot: the time, and a random part. To the year 9999 it is one that a
/// snapshot can be kept under.
pub fn new_backup_id() -> (r: String)
    ensures
        exists|m: clock::Moment, random: Seq<char>|
            {
                &&& (#[trigger] clock::formatted(m.secs, m.nanos, clock::STAMP_FORMAT@)) is Some
                &&& #[trigger] ids::is_simple_id(random)
                &&& r@ == clock::formatted(m.secs, m.nanos, clock::STAMP_FORMAT@)->0 + "-"@ + random
                &&& m.secs < clock::YEAR_LIMIT ==> is_backup_id(r@)
            },
{
    let m = clock::now();
    let stamp = match clock::stamp_text(m) {
        Some(s) => s,
        None => String::new(),
    };
    let random = ids::new_simple_id();
    let r = backup_id(stamp.as_str(), random.as_str());
    assert(clock::formatted(m.secs, m.nanos, clock::STAMP_FORMAT@) == Some(stamp@));
    assert(ids::is_simple_id(random@));
    proof {
        if m.secs < clock::YEAR_LIMIT {
            law_new_snapshot_has_an_identifier(stamp@, random@);
        }
    }
    r
}

/// The reason for a snapshot: `manual` where none is given.
pub open spec fn reason_text(reason: Seq<char>) -> Seq<char> {
    if text::blank(reason) {
        "manual"@
    } else {
        text::trimmed(reason)
    }
}

/// The reason for a snapshot: `manual` where none is given.
pub fn backup_reason(reason: &str) -> (r: String)
    ensures
        r@ == reason_text(reason@),
{
    let t = text::trim(reason);
    if t.as_str().is_empty() {
        "manual".to_owned()
    } else {
        t
    }
}

/// The number of models of the first `n` providers.
pub open spec fn model_total(ps: Seq<config::ProviderView>, n: nat) -> nat
    decreases n,
{
    if n == 0 {
        0
    } else {
        model_total(ps, (n - 1) as nat) + ps[n - 1].models.len()
    }
}

/// The number of models of the configuration, where it is within the range of `usize`.
pub fn count_models(cfg: &AppConfig) -> (r: Option<usize>)
    ensures
        match r {
            Some(n) => n == model_total(cfg@.providers, cfg@.providers.len()),
            None => model_total(cfg@.providers, cfg@.providers.len()) > usize::MAX,
        },
{
    let mut total: usize = 0;
    let ghost ps = cfg@.providers;
    let n: usize = cfg.providers.len();
    for i in 0..n
        invariant
            n == cfg.providers@.len(),
            ps == config::providers_of(cfg.providers@),
            total == model_total(ps, i as nat),
    {
        let k: usize = cfg.providers[i].models.len();
        assert(ps[i as int] == cfg.providers@[i as int]@);
        assert(ps[i as int].models.len() == k);
        match total.checked_add(k) {
            Some(t) => {
                total = t;
            },
            None => {
                proof {
                    lemma_model_total(ps, (i + 1) as nat, n as nat);
                }
                return None;
            },
        }
    }
    Some(total)
}

proof fn lemma_model_total(ps: Seq<config::ProviderView>, i: nat, n: nat)
    requires
        i <= n,
    ensures
        model_total(ps, i) <= model_total(ps, n),
    decreases n,
{
    if i < n {
        lemma_model_total(ps, i, (n - 1) as nat);
    }
}

/// What is known of a snapshot of a configuration.
pub open spec fn described(
    id: Seq<char>,
    created_at: Seq<char>,
    reason: Seq<char>,
    c: config::ConfigView,
    size_bytes: u64,
) -> BackupView {
    BackupView {
        id,
        created_at,
        reason,
        provider_count: c.providers.len() as usize,
        model_count: model_total(c.providers, c.providers.len()) as usize,
        virtual_key_count: c.virtual_keys.len() as usize,
        size_bytes,
    }
}

/// What is known of a snapshot of the configuration.
pub fn entry_from_config(
    id: &str,
    created_at: &str,
    reason: &str,
    cfg: &AppConfig,
    size_bytes: u64,
) -> (r: BackupEntry)
    requires
        model_total(cfg@.providers, cfg@.providers.len()) <= usize::MAX,
    ensures
        r@ == described(id@, created_at@, reason@, cfg@, size_bytes),
{
    let model_count = match count_models(cfg) {
        Some(n) => n,
        None => 0,
    };
    BackupEntry {
        id: id.to_owned(),
        created_at: created_at.to_owned(),
        reason: reason.to_owned(),
        provider_count: cfg.providers.len(),
        model_count,
        virtual_key_count: cfg.virtual_keys.len(),
        size_bytes,
    }
}

// ---------------------------------------------------------------------------
// The list of snapshots
// ---------------------------------------------------------------------------

/// The identifier of the snapshot that a file of the directory holds, where it holds one.
pub open spec fn file_id(name: Seq<char>) -> Option<Seq<char>> {
    if text::ends(name, ".json"@) && is_backup_id(name.take(name.len() - ".json"@.len())) {
        Some(name.take(name.len() - ".json"@.len()))
    } else {
        None
    }
}

/// The identifier of the snapshot that the file holds, where it holds one.
pub fn backup_id_from_filename(name: &str) -> (r: Option<String>)
    ensures
        text::opt_text(r) == file_id(name@),
{
    match text::strip_suffix(name, ".json") {
        Some(id) => if valid_backup_id(id.as_str()) {
            Some(id)
        } else {
            None
        },
        None => None,
    }
}

/// The file of a snapshot is found in the list under the identifier of the snapshot.
pub proof fn law_snapshot_is_listed(id: Seq<char>)
    requires
        is_backup_id(id),
    ensures
        file_id(id + ".json"@) == Some(id),
{
    let name = id + ".json"@;
    assert(name.skip(name.len() - ".json"@.len()) =~= ".json"@);
    assert(name.take(name.len() - ".json"@.len()) =~= id);
}

/// When a snapshot was made, as its identifier says: what stands before the first hyphen.
pub fn backup_created_at(id: &str) -> (r: String)
    ensures
        r@ == text::before(id@, '-'),
{
    text::until(id, '-')
}

/// A list, with the latest identifier first, with one more entry; after those with the same
/// identifier.
pub open spec fn inserted(list: Seq<BackupView>, e: BackupView) -> Seq<BackupView>
    decreases list.len(),
{
    if list.len() == 0 {
        seq![e]
    } else if text::text_lt(list[0].id, e.id) {
        seq![e] + list
    } else {
        seq![list[0]] + inserted(list.skip(1), e)
    }
}

/// The entries with the latest identifier first.
pub open spec fn ordered(list: Seq<BackupView>) -> Seq<BackupView>
    decreases list.len(),
{
    if list.len() == 0 {
        list
    } else {
        inserted(ordered(list.drop_last()), list.last())
    }
}

fn insert(list: &mut Vec<BackupEntry>, e: BackupEntry)
    ensures
        entries_of(final(list)@) == inserted(entries_of(old(list)@), e@),
{
    let ghost all = entries_of(list@);
    let n: usize = list.len();
    let mut i: usize = 0;
    assert(all.skip(0) =~= all);
    assert(all.take(0) + inserted(all, e@) =~= inserted(all, e@));
    while i < n && !text::less(list[i].id.as_str(), e.id.as_str())
        invariant
            n == list@.len(),
            *list == *old(list),
            all == entries_of(list@),
            i <= n,
            all.take(i as int) + inserted(all.skip(i as int), e@) == inserted(all, e@),
        decreases n - i,
    {
        let ghost rest = all.skip(i as int);
        assert(rest[0] == list@[i as int]@);
        assert(rest.skip(1) =~= all.skip(i + 1));
        assert(all.take(i + 1) + inserted(rest.skip(1), e@) =~= all.take(i as int) + inserted(
            rest,
            e@,
        ));
        i = i + 1;
    }
    let ghost rest = all.skip(i as int);
    if i < n {
        assert(rest[0] == list@[i as int]@);
    }
    list.insert(i, e);
    assert(entries_of(list@) =~= all.take(i as int) + (seq![e@] + rest));
    if i == n {
        assert(rest =~= Seq::empty());
        assert(seq![e@] + rest =~= seq![e@]);
    }
}

/// The entries with the latest identifier first.
pub fn sort_backups(entries: Vec<BackupEntry>) -> (r: Vec<BackupEntry>)
    ensures
        entries_of(r@) == ordered(entries_of(entries@)),
{
    let ghost all = entries_of(entries@);
    let mut out: Vec<BackupEntry> = Vec::new();
    let n: usize = entries.len();
    assert(all.take(0) =~= Seq::empty());
    assert(entries_of(out@) =~= Seq::empty());
    for i in 0..n
        invariant
            n == entries@.len(),
            all == entries_of(entries@),
            entries_of(out@) == ordered(all.take(i as int)),
    {
        let e = entries[i].copy();
        assert(all.take(i + 1).drop_last() =~= all.take(i as int));
        assert(all.take(i + 1).last() == e@);
        insert(&mut out, e);
    }
    assert(all.take(n as int) =~= all);
    out
}

impl BackupEntry {
    /// A copy of this entry.
    pub fn copy(&self) -> (r: BackupEntry)
        ensures
            r@ == self@,
    {
        BackupEntry {
            id: self.id.clone(),
            created_at: self.created_at.clone(),
            reason: self.reason.clone(),
            provider_count: self.provider_count,
            model_count: self.model_count,
            virtual_key_count: self.virtual_key_count,
            size_bytes: self.size_bytes,
        }
    }
}

/// Whether no entry has a later identifier than one before it.
pub open spec fn is_descending(list: Seq<BackupView>) -> bool {
    forall|i: int, j: int|
        0 <= i < j < list.len() ==> !text::text_lt((#[trigger] list[i]).id, (#[trigger] list[j]).id)
}

proof fn lemma_inserted(list: Seq<BackupView>, e: BackupView)
    requires
        is_descending(list),
    ensures
        is_descending(inserted(list, e)),
        inserted(list, e).to_multiset() == list.to_multiset().insert(e),
        forall|i: int|
            0 <= i < inserted(list, e).len() ==> #[trigger] inserted(list, e)[i] == e || exists|k: int|
                0 <= k < list.len() && #[trigger] list[k] == inserted(list, e)[i],
    decreases list.len(),
{
    broadcast use vstd::seq_lib::group_to_multiset_ensures;

    let out = inserted(list, e);
    if list.len() == 0 {
        assert(out =~= list.push(e));
    } else if text::text_lt(list[0].id, e.id) {
        assert(out =~= list.insert(0, e));
        assert forall|i: int, j: int| 0 <= i < j < out.len() implies !text::text_lt(
            (#[trigger] out[i]).id,
            (#[trigger] out[j]).id,
        ) by {
            assert(out[j] == list[j - 1]);
            if i > 0 {
                assert(out[i] == list[i - 1]);
            } else if text::text_lt(e.id, list[j - 1].id) {
                text::lemma_text_lt_transitive(list[0].id, e.id, list[j - 1].id);
                if j > 1 {
                    assert(!text::text_lt(list[0].id, list[j - 1].id));
                } else {
                    text::lemma_text_lt_total(list[0].id, e.id);
                }
            }
        }
        assert forall|i: int| 0 <= i < out.len() implies #[trigger] out[i] == e || exists|k: int|
            0 <= k < list.len() && #[trigger] list[k] == out[i] by {
            if i > 0 {
                assert(out[i] == list[i - 1]);
            }
        }
    } else {
        let rest = list.skip(1);
        let tail = inserted(rest, e);
        assert forall|i: int, j: int| 0 <= i < j < rest.len() implies !text::text_lt(
            (#[trigger] rest[i]).id,
            (#[trigger] rest[j]).id,
        ) by {
            assert(rest[i] == list[i + 1] && rest[j] == list[j + 1]);
        }
        lemma_inserted(rest, e);
        assert(list =~= seq![list[0]] + rest);
        assert(out =~= seq![list[0]] + tail);
        vstd::seq_lib::lemma_multiset_commutative(seq![list[0]], rest);
        vstd::seq_lib::lemma_multiset_commutative(seq![list[0]], tail);
        assert(out.to_multiset() =~= list.to_multiset().insert(e));
        assert forall|i: int, j: int| 0 <= i < j < out.len() implies !text::text_lt(
            (#[trigger] out[i]).id,
            (#[trigger] out[j]).id,
        ) by {
            assert(out[j] == tail[j - 1]);
            if i > 0 {
                assert(out[i] == tail[i - 1]);
            } else if tail[j - 1] != e {
                let k = choose|k: int| 0 <= k < rest.len() && #[trigger] rest[k] == tail[j - 1];
                assert(rest[k] == list[k + 1]);
            }
        }
        assert forall|i: int| 0 <= i < out.len() implies #[trigger] out[i] == e || exists|k: int|
            0 <= k < list.len() && #[trigger] list[k] == out[i] by {
            if i > 0 {
                assert(out[i] == tail[i - 1]);
                if tail[i - 1] != e {
                    let k = choose|k: int|
                        0 <= k < rest.len() && #[trigger] rest[k] == tail[i - 1];
                    assert(rest[k] == list[k + 1]);
                }
            } else {
                assert(out[0] == list[0]);
            }
        }
    }
}

/// The list of snapshots holds each of them once, the latest identifier first.
pub proof fn law_list_is_ordered(list: Seq<BackupView>)
    ensures
        is_descending(ordered(list)),
        ordered(list).to_multiset() == list.to_multiset(),
    decreases list.len(),
{
    broadcast use vstd::seq_lib::group_to_multiset_ensures;

    if list.len() > 0 {
        law_list_is_ordered(list.drop_last());
        lemma_inserted(ordered(list.drop_last()), list.last());
        assert(list =~= list.drop_last().push(list.last()));
    }
}

/// A snapshot is described by what its configuration holds, with its identifier, its time, its
/// reason and its size.
pub proof fn law_snapshot_is_described(
    id: Seq<char>,
    created_at: Seq<char>,
    reason: Seq<char>,
    c: config::ConfigView,
    size_bytes: u64,
)
    requires
        c.providers.len() <= usize::MAX,
        c.virtual_keys.len() <= usize::MAX,
        config::models_before(c.providers, c.providers.len()) <= usize::MAX,
    ensures
        ({
            let b = described(id, created_at, reason, c, size_bytes);
            &&& b.id == id
            &&& b.created_at == created_at
            &&& b.reason == reason
            &&& b.size_bytes == size_bytes
            &&& b.provider_count == c.providers.len()
            &&& b.virtual_key_count == c.virtual_keys.len()
            &&& b.model_count == config::models_before(c.providers, c.providers.len())
        }),
{
    lemma_models_counted(c.providers, c.providers.len());
}

proof fn lemma_models_counted(ps: Seq<config::ProviderView>, n: nat)
    ensures
        model_total(ps, n) == config::models_before(ps, n),
    decreases n,
{
    if n > 0 {
        lemma_models_counted(ps, (n - 1) as nat);
    }
}

/// A snapshot has the reason that is given, without whitespace around it, and else was made by hand.
pub proof fn law_snapshot_has_a_reason(reason: Seq<char>)
    ensures
        text::blank(reason) ==> reason_text(reason) == "manual"@,
        !text::blank(reason) ==> reason_text(reason) == text::trimmed(reason),
{
}

/// A snapshot is kept under its identifier, which has letters, digits, hyphens, underscores and dots
/// and nothing else.
pub proof fn law_snapshot_is_kept_under_its_identifier(root: Seq<char>, id: Seq<char>, i: int)
    ensures
        is_backup_id(id) ==> snapshot_path(root, id) == Ok::<paths::PathView, BackupError>(
            paths::PathView { base: root, parts: seq!["backups"@, id + ".json"@] },
        ),
        !is_backup_id(id) ==> snapshot_path(root, id) == Err::<paths::PathView, BackupError>(
            BackupError::InvalidId,
        ),
        id.len() == 0 ==> !is_backup_id(id),
        0 <= i < id.len() && (id[i] == '/' || id[i] == '\\' || id[i] == ':' || id[i] == ' ' || id[i]
            > 'z') ==> !is_backup_id(id),
        id.len() == 1 && ('a' <= id[0] <= 'z' || 'A' <= id[0] <= 'Z' || '0' <= id[0] <= '9' || id[0]
            == '-' || id[0] == '_' || id[0] == '.') ==> is_backup_id(id),
{
    if 0 <= i < id.len() {
        assert(is_id_char(id[i]) || !is_id_char(id[i]));
    }
}

} // verus!
