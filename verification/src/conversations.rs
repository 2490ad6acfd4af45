//! Conversations that are kept.
use vstd::prelude::*;

use crate::clock;
use crate::config;
use crate::config::{AppConfig, ConversationStorage};
use crate::ids;
use crate::json;
use crate::json::{named, object, text_value, Json, Member};
use crate::paths;
use crate::text;
use crate::usage::Pagination;

verus! {

/// A conversation in the list.
#[derive(Debug)]
pub struct ConversationEntry {
    pub filename: String,
    pub timestamp: String,
    pub model: String,
    pub key_name: String,
    pub request_id: String,
}

/// A page of the list.
#[derive(Debug)]
pub struct ConversationPage {
    pub entries: Vec<ConversationEntry>,
    pub pagination: Pagination,
}

/// What a [`ConversationEntry`] holds.
#[verifier::ext_equal]
pub struct EntryView {
    pub filename: Seq<char>,
    pub timestamp: Seq<char>,
    pub model: Seq<char>,
    pub key_name: Seq<char>,
    pub request_id: Seq<char>,
}

impl View for ConversationEntry {
    type V = EntryView;

    open spec fn view(&self) -> EntryView {
        EntryView {
            filename: self.filename@,
            timestamp: self.timestamp@,
            model: self.model@,
            key_name: self.key_name@,
            request_id: self.request_id@,
        }
    }
}

// ---------------------------------------------------------------------------
// Where conversations are kept
// ---------------------------------------------------------------------------

/// The directory for conversations, where they are kept.
pub open spec fn directory(s: config::StorageView) -> Option<Seq<char>> {
    if s.enabled && !text::blank(s.directory) {
        Some(text::trimmed(s.directory))
    } else {
        None
    }
}

/// The directory for conversations, where they are kept.
pub fn storage_directory(cfg: &AppConfig) -> (r: Option<String>)
    ensures
        text::opt_text(r) == directory(cfg@.conversation_storage),
{
    if cfg.conversation_storage.enabled && !text::is_blank(
        cfg.conversation_storage.directory.as_str(),
    ) {
        Some(text::trim(cfg.conversation_storage.directory.as_str()))
    } else {
        None
    }
}

/// The setting that is saved, or `None` where conversations are to be kept and no directory is
/// named.
pub fn accept_storage(storage: &ConversationStorage) -> (r: Option<ConversationStorage>)
    ensures
        match r {
            Some(s) => {
                &&& !(storage.enabled && text::blank(storage.directory@))
                &&& s@ == (config::StorageView {
                    enabled: storage.enabled,
                    directory: text::trimmed(storage.directory@),
                })
            },
            None => storage.enabled && text::blank(storage.directory@),
        },
{
    if storage.enabled && text::is_blank(storage.directory.as_str()) {
        return None;
    }
    Some(
        ConversationStorage {
            enabled: storage.enabled,
            directory: text::trim(storage.directory.as_str()),
        },
    )
}

/// Whether a name is that of a conversation, and of nothing elsewhere.
pub open spec fn is_safe_name(name: Seq<char>) -> bool {
    !text::blank(name) && !name.contains('/') && !name.contains('\\') && text::ends(name, ".json"@)
}

/// Whether the name is that of a conversation, and of nothing elsewhere.
pub fn safe_conversation_filename(filename: &str) -> (r: bool)
    ensures
        r == is_safe_name(filename@),
{
    !text::is_blank(filename) && !text::contains_char(filename, '/') && !text::contains_char(
        filename,
        '\\',
    ) && text::ends_with(filename, ".json")
}

/// Where a conversation is kept.
pub open spec fn conversation_place(s: config::StorageView, name: Seq<char>) -> Option<
    paths::PathView,
> {
    match directory(s) {
        Some(d) => if is_safe_name(name) {
            Some(paths::below(d, name))
        } else {
            None
        },
        None => None,
    }
}

/// Where a conversation is kept, where conversations are and the name is one.
pub fn conversation_file_path(cfg: &AppConfig, filename: &str) -> (r: Option<paths::FilePath>)
    ensures
        paths::opt_path(r) == conversation_place(cfg@.conversation_storage, filename@),
{
    match storage_directory(cfg) {
        Some(d) => if safe_conversation_filename(filename) {
            Some(paths::child(d.as_str(), filename))
        } else {
            None
        },
        None => None,
    }
}

/// A conversation lies in the directory for conversations itself: its name leads nowhere else.
pub proof fn law_conversation_stays_in_its_directory(s: config::StorageView, name: Seq<char>)
    ensures
        conversation_place(s, name) matches Some(p) ==> {
            &&& p.parts == seq![name]
            &&& !name.contains('/')
            &&& !name.contains('\\')
            &&& directory(s) == Some(p.base)
        },
{
}

// ---------------------------------------------------------------------------
// Keeping a conversation
// ---------------------------------------------------------------------------

/// What is noted of a conversation when its request is sent on.
#[derive(Debug)]
pub struct ConversationTrace {
    pub directory: String,
    pub filename: String,
    pub timestamp: String,
    pub request_id: String,
    pub model: String,
    pub key_name: String,
    pub user_agent: String,
    pub input: Json,
}

/// What a [`ConversationTrace`] holds.
#[verifier::ext_equal]
pub struct TraceView {
    pub directory: Seq<char>,
    pub filename: Seq<char>,
    pub timestamp: Seq<char>,
    pub request_id: Seq<char>,
    pub model: Seq<char>,
    pub key_name: Seq<char>,
    pub user_agent: Seq<char>,
    pub input: json::JsonView,
}

impl View for ConversationTrace {
    type V = TraceView;

    open spec fn view(&self) -> TraceView {
        TraceView {
            directory: self.directory@,
            filename: self.filename@,
            timestamp: self.timestamp@,
            request_id: self.request_id@,
            model: self.model@,
            key_name: self.key_name@,
            user_agent: self.user_agent@,
            input: self.input@,
        }
    }
}

/// What an optional trace holds.
pub open spec fn opt_trace(o: Option<ConversationTrace>) -> Option<TraceView> {
    match o {
        Some(t) => Some(t@),
        None => None,
    }
}

/// The name of a conversation: the time without its dot, and the request.
pub open spec fn trace_name(stamp: Seq<char>, request_id: Seq<char>) -> Seq<char> {
    text::without(stamp, '.') + "-"@ + request_id + ".json"@
}

/// The request whose conversation is noted.
#[derive(Debug)]
pub struct TracedRequest {
    pub timestamp: String,
    pub request_id: String,
    pub model: String,
    pub key_name: String,
    pub user_agent: String,
}

/// What is noted of a conversation, where conversations are kept.
pub open spec fn traced(
    s: config::StorageView,
    q: TracedRequest,
    input: json::JsonView,
    stamp: Seq<char>,
) -> Option<TraceView> {
    match directory(s) {
        Some(d) => Some(
            TraceView {
                directory: d,
                filename: trace_name(stamp, q.request_id@),
                timestamp: q.timestamp@,
                request_id: q.request_id@,
                model: q.model@,
                key_name: q.key_name@,
                user_agent: q.user_agent@,
                input,
            },
        ),
        None => None,
    }
}

/// What is noted of a conversation at a time, where conversations are kept.
pub fn conversation_trace_at(cfg: &AppConfig, q: &TracedRequest, input: &Json, stamp: &str) -> (r:
    Option<ConversationTrace>)
    ensures
        opt_trace(r) == traced(cfg@.conversation_storage, *q, input@, stamp@),
{
    match storage_directory(cfg) {
        Some(d) => {
            let plain = text::remove_char(stamp, '.');
            Some(
                ConversationTrace {
                    directory: d,
                    filename: text::cat4(plain.as_str(), "-", q.request_id.as_str(), ".json"),
                    timestamp: q.timestamp.clone(),
                    request_id: q.request_id.clone(),
                    model: q.model.clone(),
                    key_name: q.key_name.clone(),
                    user_agent: q.user_agent.clone(),
                    input: input.copy(),
                },
            )
        },
        None => None,
    }
}

/// What is noted of a conversation now, where conversations are kept.
pub fn conversation_trace(cfg: &AppConfig, q: &TracedRequest, input: &Json) -> (r: Option<
    ConversationTrace,
>)
    ensures
        exists|m: clock::Moment, stamp: Seq<char>|
            {
                &&& #[trigger] clock::formatted(m.secs, m.nanos, clock::STAMP_FORMAT@) == Some(stamp)
                &&& m.secs < clock::YEAR_LIMIT ==> clock::is_stamp(stamp)
                &&& opt_trace(r) == #[trigger] traced(
                    cfg@.conversation_storage,
                    *q,
                    input@,
                    stamp,
                )
            },
{
    let m = clock::now();
    let stamp = match clock::stamp_text(m) {
        Some(s) => s,
        None => String::new(),
    };
    assert(clock::formatted(m.secs, m.nanos, clock::STAMP_FORMAT@) == Some(stamp@));
    conversation_trace_at(cfg, q, input, stamp.as_str())
}

/// A conversation as it is kept.
pub open spec fn record_form(
    t: TraceView,
    output: Option<json::JsonView>,
    output_raw: Option<Seq<char>>,
) -> json::JsonView {
    let common = seq![
        ("timestamp"@, json::JsonView::Text(t.timestamp)),
        ("request_id"@, json::JsonView::Text(t.request_id)),
        ("model"@, json::JsonView::Text(t.model)),
        ("key_name"@, json::JsonView::Text(t.key_name)),
        ("user_agent"@, json::JsonView::Text(t.user_agent)),
        ("input"@, t.input),
        (
            "output"@,
            match output {
                Some(o) => o,
                None => json::JsonView::Null,
            },
        ),
    ];
    json::JsonView::Object(
        match output_raw {
            Some(raw) => common.push(("output_raw"@, json::JsonView::Text(raw))),
            None => common,
        },
    )
}

/// The conversation as it is kept: the request, and the answer as a value or as a text.
pub fn conversation_record(
    t: &ConversationTrace,
    output: Option<&Json>,
    output_raw: Option<&str>,
) -> (r: Json)
    ensures
        r@ == record_form(t@, json::opt_json(output), text::opt_str(output_raw)),
{
    let out = match output {
        Some(o) => o.copy(),
        None => Json::Null,
    };
    let mut ms: Vec<Member> = vec![
        named("timestamp", text_value(t.timestamp.as_str())),
        named("request_id", text_value(t.request_id.as_str())),
        named("model", text_value(t.model.as_str())),
        named("key_name", text_value(t.key_name.as_str())),
        named("user_agent", text_value(t.user_agent.as_str())),
        named("input", t.input.copy()),
        named("output", out),
    ];
    if let Some(raw) = output_raw {
        ms.push(named("output_raw", text_value(raw)));
    }
    assert(json::members(ms@) =~= record_form(
        t@,
        json::opt_json(output),
        text::opt_str(output_raw),
    )->Object_0);
    object(ms)
}

/// The conversation with an answer: as a value where it is JSON, else as its text.
pub fn answer_record(t: &ConversationTrace, answer: Option<&Json>, raw: &str) -> (r: Json)
    ensures
        r@ == record_form(
            t@,
            json::opt_json(answer),
            if answer is Some {
                None
            } else {
                Some(raw@)
            },
        ),
{
    match answer {
        Some(v) => conversation_record(t, Some(v), None),
        None => conversation_record(t, None, Some(raw)),
    }
}

/// The conversation as it stands in the list.
pub fn trace_entry(t: &ConversationTrace) -> (r: ConversationEntry)
    ensures
        r@ == (EntryView {
            filename: t@.filename,
            timestamp: t@.timestamp,
            model: t@.model,
            key_name: t@.key_name,
            request_id: t@.request_id,
        }),
{
    ConversationEntry {
        filename: t.filename.clone(),
        timestamp: t.timestamp.clone(),
        model: t.model.clone(),
        key_name: t.key_name.clone(),
        request_id: t.request_id.clone(),
    }
}

/// In a new installation no conversation is kept.
pub proof fn law_by_default_no_conversation_is_kept(
    admin: config::AdminView,
    q: TracedRequest,
    input: json::JsonView,
    stamp: Seq<char>,
)
    ensures
        traced(config::default_config(admin).conversation_storage, q, input, stamp) is None,
{
}

/// A conversation is kept in the directory that the administrator names, and only then.
pub proof fn law_conversations_need_a_directory(
    s: config::StorageView,
    q: TracedRequest,
    input: json::JsonView,
    stamp: Seq<char>,
)
    ensures
        traced(s, q, input, stamp) is Some == (s.enabled && !text::blank(s.directory)),
        traced(s, q, input, stamp) matches Some(t) ==> t.directory == text::trimmed(s.directory),
{
}

// ---------------------------------------------------------------------------
// Reading a conversation back
// ---------------------------------------------------------------------------

/// The request that the name of a conversation names.
pub open spec fn name_request(name: Seq<char>) -> Option<Seq<char>> {
    if text::ends(name, ".json"@) {
        let stem = name.take(name.len() - ".json"@.len());
        if stem.contains('-') && !text::blank(stem.skip(text::first_at(stem, '-') + 1)) {
            Some(stem.skip(text::first_at(stem, '-') + 1))
        } else {
            None
        }
    } else {
        None
    }
}

/// The request that the name of a conversation names.
pub fn conversation_request_id_from_filename(filename: &str) -> (r: Option<String>)
    ensures
        text::opt_text(r) == name_request(filename@),
{
    match text::strip_suffix(filename, ".json") {
        Some(stem) => match text::split_once(stem.as_str(), '-') {
            Some((_head, id)) => if text::is_blank(id.as_str()) {
                None
            } else {
                Some(id)
            },
            None => None,
        },
        None => None,
    }
}

/// A conversation is kept under a name that can be asked for, and that names its request.
pub proof fn law_kept_conversation_can_be_asked_for(stamp: Seq<char>, request_id: Seq<char>)
    requires
        clock::is_stamp(stamp),
        ids::is_hyphenated_id(request_id),
    ensures
        is_safe_name(trace_name(stamp, request_id)),
        name_request(trace_name(stamp, request_id)) == Some(request_id),
{
    reveal_strlit("-");
    reveal_strlit(".json");
    let head = text::without(stamp, '.');
    let name = trace_name(stamp, request_id);
    assert(!stamp.contains('-') && !stamp.contains('/') && !stamp.contains('\\'));
    text::lemma_without(stamp, '.', '/');
    text::lemma_without(stamp, '.', '\\');
    assert forall|i: int| 0 <= i < name.len() implies name[i] != '/' && name[i] != '\\' by {
        let k = i - head.len() - 1;
        if i < head.len() {
            assert(name[i] == head[i]);
        } else if 0 <= k < request_id.len() {
            assert(name[i] == request_id[k]);
        } else if k >= request_id.len() {
            assert(name[i] == ".json"@[k - request_id.len()]);
        }
    }
    assert(name.skip(name.len() - ".json"@.len()) =~= ".json"@);
    assert(ids::is_lower_hex(request_id[35]));
    text::lemma_visible_end(request_id);
    law_name_names_its_request(stamp, request_id);
    assert(name.last() == ".json"@[4]);
    text::lemma_visible_end(name);
}

/// The name of a conversation names its request, as long as the time in it holds no hyphen.
pub proof fn law_name_names_its_request(stamp: Seq<char>, request_id: Seq<char>)
    requires
        !stamp.contains('-'),
        !text::blank(request_id),
    ensures
        name_request(trace_name(stamp, request_id)) == Some(request_id),
{
    reveal_strlit("-");
    reveal_strlit(".json");
    let head = text::without(stamp, '.');
    let name = trace_name(stamp, request_id);
    let stem = name.take(name.len() - ".json"@.len());
    text::lemma_without(stamp, '.', '-');
    assert(name.skip(name.len() - ".json"@.len()) =~= ".json"@);
    assert(stem =~= head + "-"@ + request_id);
    assert(stem[head.len() as int] == '-');
    assert forall|j: int| 0 <= j < head.len() implies stem[j] != '-' by {
        assert(stem[j] == head[j]);
    }
    text::lemma_first_at(stem, '-');
    let k = text::first_at(stem, '-');
    if k < head.len() {
        assert(stem[k] != '-');
    }
    if k > head.len() {
        assert(stem[head.len() as int] != '-');
    }
    assert(stem.skip(k + 1) =~= request_id);
}

/// A field of a conversation, where it says something.
pub open spec fn said(v: json::JsonView, name: Seq<char>) -> Option<Seq<char>> {
    match json::text_of(v.at(name)) {
        Some(s) => if text::blank(s) {
            None
        } else {
            Some(text::trimmed(s))
        },
        None => None,
    }
}

fn string_field(value: &Json, key: &str) -> (r: Option<String>)
    ensures
        text::opt_text(r) == said(value@, key@),
{
    match value.text_at(key) {
        Some(s) => {
            let t = text::trim(s);
            if t.as_str().is_empty() {
                None
            } else {
                Some(t)
            }
        },
        None => None,
    }
}

/// A conversation as it stands in the list, read from what is kept of it.
pub open spec fn entry_of_value(
    name: Seq<char>,
    v: json::JsonView,
    request_id: Seq<char>,
    timestamp: Seq<char>,
) -> EntryView {
    EntryView {
        filename: name,
        timestamp: config::or_text(said(v, "timestamp"@), timestamp),
        model: text::or_empty(said(v, "model"@)),
        key_name: config::or_text(said(v, "key_name"@), "master"@),
        request_id: config::or_text(said(v, "request_id"@), request_id),
    }
}

fn or_else(o: Option<String>, other: &str) -> (r: String)
    ensures
        r@ == config::or_text(text::opt_text(o), other@),
{
    match o {
        Some(s) => s,
        None => other.to_owned(),
    }
}

/// The conversation as it stands in the list, read from what is kept of it. What that does not say
/// is taken from elsewhere.
pub fn conversation_index_entry_from_value(
    filename: &str,
    value: &Json,
    fallback_request_id: &str,
    fallback_timestamp: &str,
) -> (r: ConversationEntry)
    ensures
        r@ == entry_of_value(filename@, value@, fallback_request_id@, fallback_timestamp@),
{
    let model = match string_field(value, "model") {
        Some(m) => m,
        None => String::new(),
    };
    ConversationEntry {
        filename: filename.to_owned(),
        timestamp: or_else(string_field(value, "timestamp"), fallback_timestamp),
        model,
        key_name: or_else(string_field(value, "key_name"), "master"),
        request_id: or_else(string_field(value, "request_id"), fallback_request_id),
    }
}

/// What an optional entry holds.
pub open spec fn opt_entry(o: Option<ConversationEntry>) -> Option<EntryView> {
    match o {
        Some(e) => Some(e@),
        None => None,
    }
}

/// A conversation as it stands in the list: what was recorded of its request where the name names
/// one, else what is kept of it, else its name alone.
pub open spec fn indexed_entry(
    name: Seq<char>,
    recorded: Option<EntryView>,
    value: Option<json::JsonView>,
    timestamp: Seq<char>,
) -> EntryView {
    let id = text::or_empty(name_request(name));
    if id.len() > 0 && recorded is Some {
        recorded->0
    } else {
        match value {
            Some(v) => entry_of_value(name, v, id, timestamp),
            None => EntryView {
                filename: name,
                timestamp,
                model: Seq::empty(),
                key_name: "master"@,
                request_id: id,
            },
        }
    }
}

/// The conversation as it stands in the list, given what was recorded of the request that its name
/// names, and what is kept of it where that can be read.
pub fn conversation_index_entry(
    filename: &str,
    recorded: Option<ConversationEntry>,
    value: Option<&Json>,
    fallback_timestamp: &str,
) -> (r: ConversationEntry)
    ensures
        r@ == indexed_entry(
            filename@,
            opt_entry(recorded),
            json::opt_json(value),
            fallback_timestamp@,
        ),
{
    let request_id = match conversation_request_id_from_filename(filename) {
        Some(id) => id,
        None => String::new(),
    };
    if !request_id.as_str().is_empty() {
        if let Some(e) = recorded {
            return e;
        }
    }
    match value {
        Some(v) => conversation_index_entry_from_value(
            filename,
            v,
            request_id.as_str(),
            fallback_timestamp,
        ),
        None => ConversationEntry {
            filename: filename.to_owned(),
            timestamp: fallback_timestamp.to_owned(),
            model: String::new(),
            key_name: "master".to_owned(),
            request_id,
        },
    }
}

// ---------------------------------------------------------------------------
// Keeping the list in step with the directory
// ---------------------------------------------------------------------------

/// A file as it was last seen.
#[derive(Debug)]
pub struct SeenFile {
    pub filename: String,
    pub size: u64,
    pub modified_at: i64,
}

/// What a [`SeenFile`] holds.
#[verifier::ext_equal]
pub struct SeenView {
    pub filename: Seq<char>,
    pub size: u64,
    pub modified_at: i64,
}

impl View for SeenFile {
    type V = SeenView;

    open spec fn view(&self) -> SeenView {
        SeenView { filename: self.filename@, size: self.size, modified_at: self.modified_at }
    }
}

/// What the files of a list hold.
pub open spec fn files_of(v: Seq<SeenFile>) -> Seq<SeenView> {
    Seq::new(v.len(), |i: int| v[i]@)
}

/// Whether the name of a file is that of a conversation.
pub open spec fn is_record_name(name: Seq<char>) -> bool {
    text::ends(name, ".json"@) && name.len() > ".json"@.len()
}

/// Whether the name of a file is that of a conversation.
pub fn is_record_file(name: &str) -> (r: bool)
    ensures
        r == is_record_name(name@),
{
    match text::strip_suffix(name, ".json") {
        Some(stem) => !stem.as_str().is_empty(),
        None => false,
    }
}

/// The time of a change in milliseconds, within the range of `i64`; zero where it is not known.
pub fn file_modified_at(millis: Option<u128>) -> (r: i64)
    ensures
        r == (match millis {
            Some(m) => if m > i64::MAX {
                i64::MAX
            } else {
                m as i64
            },
            None => 0,
        }),
{
    match millis {
        Some(m) => if m > 0x7FFF_FFFF_FFFF_FFFF {
            0x7FFF_FFFF_FFFF_FFFF
        } else {
            m as i64
        },
        None => 0,
    }
}

/// The first file of a list with a name.
pub open spec fn find_file(list: Seq<SeenView>, name: Seq<char>) -> Option<SeenView>
    decreases list.len(),
{
    if list.len() == 0 {
        None
    } else if list[0].filename == name {
        Some(list[0])
    } else {
        find_file(list.skip(1), name)
    }
}

/// Whether a file has to be read again: it is not in the list, or was changed since.
pub open spec fn is_stale(indexed: Seq<SeenView>, f: SeenView) -> bool {
    find_file(indexed, f.filename) != Some(f)
}

/// The numbers of the first `n` files that have to be read again.
pub open spec fn stale_numbers(indexed: Seq<SeenView>, present: Seq<SeenView>, n: nat) -> Seq<usize>
    decreases n,
{
    if n == 0 {
        Seq::empty()
    } else {
        let before = stale_numbers(indexed, present, (n - 1) as nat);
        if is_stale(indexed, present[n - 1]) {
            before.push((n - 1) as usize)
        } else {
            before
        }
    }
}

/// The names of the first `n` files of the list that are not in the directory.
pub open spec fn gone_names(indexed: Seq<SeenView>, present: Seq<SeenView>, n: nat) -> Seq<
    Seq<char>,
>
    decreases n,
{
    if n == 0 {
        Seq::empty()
    } else {
        let before = gone_names(indexed, present, (n - 1) as nat);
        if find_file(present, indexed[n - 1].filename) is None {
            before.push(indexed[n - 1].filename)
        } else {
            before
        }
    }
}

/// What is done so that the list is in step with the directory.
#[derive(Debug)]
pub struct SyncPlan {
    /// The files of the directory that are read again, by their numbers.
    pub refresh: Vec<usize>,
    /// The names that leave the list.
    pub remove: Vec<String>,
}

fn find<'a>(list: &'a Vec<SeenFile>, name: &str) -> (r: Option<&'a SeenFile>)
    ensures
        (match r {
            Some(f) => Some(f@),
            None => None,
        }) == find_file(files_of(list@), name@),
{
    let n: usize = list.len();
    let ghost all = files_of(list@);
    assert(all.skip(0) =~= all);
    for i in 0..n
        invariant
            n == list@.len(),
            all == files_of(list@),
            find_file(all, name@) == find_file(all.skip(i as int), name@),
    {
        assert(all.skip(i as int)[0] == list@[i as int]@);
        if text::same(list[i].filename.as_str(), name) {
            return Some(&list[i]);
        }
        assert(all.skip(i as int).skip(1) =~= all.skip(i + 1));
    }
    None
}

/// What is done so that the list is in step with the directory. Where that is gone, so are all its
/// files.
pub fn sync_conversation_index(
    indexed: &Vec<SeenFile>,
    directory_exists: bool,
    present: &Vec<SeenFile>,
) -> (r: SyncPlan)
    requires
        !directory_exists ==> present@.len() == 0,
    ensures
        r.refresh@ == stale_numbers(files_of(indexed@), files_of(present@), present@.len()),
        text::texts(r.remove@) == gone_names(
            files_of(indexed@),
            files_of(present@),
            indexed@.len(),
        ),
{
    let ghost old_list = files_of(indexed@);
    let ghost new_list = files_of(present@);
    let mut refresh: Vec<usize> = Vec::new();
    let n: usize = present.len();
    for i in 0..n
        invariant
            n == present@.len(),
            old_list == files_of(indexed@),
            new_list == files_of(present@),
            refresh@ == stale_numbers(old_list, new_list, i as nat),
    {
        let f = &present[i];
        assert(new_list[i as int] == f@);
        let fresh = match find(indexed, f.filename.as_str()) {
            Some(g) => {
                proof {
                    lemma_found(old_list, f@.filename);
                }
                g.size == f.size && g.modified_at == f.modified_at
            },
            None => false,
        };
        assert(fresh == !is_stale(old_list, f@));
        if !fresh {
            refresh.push(i);
        }
    }
    let mut remove: Vec<String> = Vec::new();
    let k: usize = indexed.len();
    assert(text::texts(remove@) =~= Seq::empty());
    for i in 0..k
        invariant
            k == indexed@.len(),
            old_list == files_of(indexed@),
            new_list == files_of(present@),
            text::texts(remove@) == gone_names(old_list, new_list, i as nat),
    {
        let f = &indexed[i];
        assert(old_list[i as int] == f@);
        if find(present, f.filename.as_str()).is_none() {
            proof {
                text::lemma_texts_push(remove@, f.filename);
            }
            remove.push(f.filename.clone());
        }
    }
    SyncPlan { refresh, remove }
}

proof fn lemma_found(list: Seq<SeenView>, name: Seq<char>)
    ensures
        find_file(list, name) matches Some(f) ==> f.filename == name,
    decreases list.len(),
{
    if list.len() > 0 && list[0].filename != name {
        lemma_found(list.skip(1), name);
    }
}

proof fn lemma_found_at(list: Seq<SeenView>, name: Seq<char>) -> (k: int)
    requires
        find_file(list, name) is Some,
    ensures
        0 <= k < list.len(),
        find_file(list, name) == Some(list[k]),
        list[k].filename == name,
    decreases list.len(),
{
    if list[0].filename == name {
        0
    } else {
        lemma_found_at(list.skip(1), name) + 1
    }
}

proof fn lemma_stale_listed(indexed: Seq<SeenView>, present: Seq<SeenView>, n: nat, k: int)
    requires
        0 <= k < n,
        n <= usize::MAX,
    ensures
        stale_numbers(indexed, present, n).contains(k as usize) == is_stale(indexed, present[k]),
    decreases n,
{
    let before = stale_numbers(indexed, present, (n - 1) as nat);
    let all = stale_numbers(indexed, present, n);
    lemma_stale_below(indexed, present, (n - 1) as nat);
    if k == n - 1 {
        if is_stale(indexed, present[k]) {
            assert(all.last() == k as usize);
        } else if all.contains(k as usize) {
            let j = choose|j: int| 0 <= j < all.len() && all[j] == k as usize;
            assert(before[j] < k as usize);
        }
    } else {
        lemma_stale_listed(indexed, present, (n - 1) as nat, k);
        if before.contains(k as usize) {
            let j = choose|j: int| 0 <= j < before.len() && before[j] == k as usize;
            assert(all[j] == before[j]);
        }
        if all.contains(k as usize) {
            let j = choose|j: int| 0 <= j < all.len() && all[j] == k as usize;
            if j < before.len() {
                assert(before[j] == all[j]);
            }
        }
    }
}

proof fn lemma_stale_below(indexed: Seq<SeenView>, present: Seq<SeenView>, n: nat)
    requires
        n <= usize::MAX,
    ensures
        forall|j: int|
            0 <= j < stale_numbers(indexed, present, n).len() ==> (#[trigger] stale_numbers(
                indexed,
                present,
                n,
            )[j]) < n,
    decreases n,
{
    if n > 0 {
        lemma_stale_below(indexed, present, (n - 1) as nat);
        let before = stale_numbers(indexed, present, (n - 1) as nat);
        let all = stale_numbers(indexed, present, n);
        assert forall|j: int| 0 <= j < all.len() implies (#[trigger] all[j]) < n by {
            if j < before.len() {
                assert(all[j] == before[j]);
            }
        }
    }
}

proof fn lemma_gone_listed(
    indexed: Seq<SeenView>,
    present: Seq<SeenView>,
    n: nat,
    name: Seq<char>,
)
    ensures
        gone_names(indexed, present, n).contains(name) == (find_file(present, name) is None
            && exists|k: int| 0 <= k < n && (#[trigger] indexed[k]).filename == name),
    decreases n,
{
    if n > 0 {
        lemma_gone_listed(indexed, present, (n - 1) as nat, name);
        let before = gone_names(indexed, present, (n - 1) as nat);
        let all = gone_names(indexed, present, n);
        let last = indexed[n - 1].filename;
        if before.contains(name) {
            let j = choose|j: int| 0 <= j < before.len() && before[j] == name;
            assert(all[j] == name);
        }
        if all.contains(name) && !before.contains(name) {
            let j = choose|j: int| 0 <= j < all.len() && all[j] == name;
            if j < before.len() {
                assert(before[j] == name);
            }
            assert(indexed[n - 1].filename == name);
        }
        if find_file(present, name) is None && last == name {
            assert(all.last() == name);
        }
    }
}

/// The list once a plan was carried out: what is read again replaces what was there, and what has
/// gone leaves.
pub open spec fn after_sync(
    indexed: Seq<SeenView>,
    present: Seq<SeenView>,
    refresh: Seq<usize>,
    remove: Seq<Seq<char>>,
    name: Seq<char>,
) -> Option<SeenView> {
    if exists|k: int|
        0 <= k < present.len() && (#[trigger] present[k]).filename == name && refresh.contains(
            k as usize,
        ) {
        find_file(present, name)
    } else if remove.contains(name) {
        None
    } else {
        find_file(indexed, name)
    }
}

/// Once the plan was carried out, the list holds each file of the directory as it is there, and no
/// other.
pub proof fn law_sync_brings_the_list_in_step(
    indexed: Seq<SeenView>,
    present: Seq<SeenView>,
    name: Seq<char>,
)
    requires
        present.len() <= usize::MAX,
        forall|i: int, j: int|
            0 <= i < j < present.len() ==> (#[trigger] present[i]).filename != (
            #[trigger] present[j]).filename,
    ensures
        after_sync(
            indexed,
            present,
            stale_numbers(indexed, present, present.len()),
            gone_names(indexed, present, indexed.len()),
            name,
        ) == find_file(present, name),
{
    let refresh = stale_numbers(indexed, present, present.len());
    let remove = gone_names(indexed, present, indexed.len());
    lemma_gone_listed(indexed, present, indexed.len(), name);
    if find_file(present, name) is Some {
        let k = lemma_found_at(present, name);
        lemma_stale_listed(indexed, present, present.len(), k);
        if is_stale(indexed, present[k]) {
            assert(present[k].filename == name && refresh.contains(k as usize));
        } else {
            assert forall|j: int|
                0 <= j < present.len() && (#[trigger] present[j]).filename == name implies j
                == k by {
                if j < k {
                    assert(present[j].filename != present[k].filename);
                } else if k < j {
                    assert(present[k].filename != present[j].filename);
                }
            }
        }
    } else {
        lemma_none(present, name);
        if find_file(indexed, name) is Some {
            let k = lemma_found_at(indexed, name);
            assert(indexed[k].filename == name);
        }
    }
}

proof fn lemma_none(list: Seq<SeenView>, name: Seq<char>)
    requires
        find_file(list, name) is None,
    ensures
        forall|k: int| 0 <= k < list.len() ==> (#[trigger] list[k]).filename != name,
    decreases list.len(),
{
    if list.len() > 0 {
        lemma_none(list.skip(1), name);
        assert forall|k: int| 0 <= k < list.len() implies (#[trigger] list[k]).filename != name by {
            if k > 0 {
                assert(list.skip(1)[k - 1] == list[k]);
            }
        }
    }
}

// ---------------------------------------------------------------------------
// What is promised of conversations
// ---------------------------------------------------------------------------

/// Conversations are kept in the directory that is named, without whitespace around it, where they
/// are to be kept and one is named.
pub proof fn law_conversations_are_kept_where_asked(s: config::StorageView)
    ensures
        s.enabled && !text::blank(s.directory) ==> directory(s) == Some(text::trimmed(s.directory)),
        !s.enabled ==> directory(s) is None,
        text::blank(s.directory) ==> directory(s) is None,
{
}

/// The name of a conversation ends in `.json` and leads nowhere else.
pub proof fn law_names_of_conversations_are_known(name: Seq<char>, stem: Seq<char>)
    ensures
        name.contains('/') || name.contains('\\') || text::blank(name) ==> !is_safe_name(name),
        !text::ends(name, ".json"@) ==> !is_safe_name(name) && !is_record_name(name),
        !stem.contains('/') && !stem.contains('\\') && !text::blank(stem + ".json"@)
            ==> is_safe_name(stem + ".json"@),
        stem.len() > 0 ==> is_record_name(stem + ".json"@),
        !is_record_name(".json"@),
{
    reveal_strlit(".json");
    let whole = stem + ".json"@;
    assert(whole.skip(whole.len() - ".json"@.len()) =~= ".json"@);
    if !stem.contains('/') && !stem.contains('\\') {
        assert forall|i: int| 0 <= i < whole.len() implies whole[i] != '/' && whole[i] != '\\' by {
            if i < stem.len() {
                assert(whole[i] == stem[i]);
            } else {
                assert(whole[i] == ".json"@[i - stem.len()]);
            }
        }
    }
}

/// A conversation that is kept is noted with all that is known of its request, under a name made of
/// the time and the request.
pub proof fn law_conversation_is_noted(
    s: config::StorageView,
    q: TracedRequest,
    input: json::JsonView,
    stamp: Seq<char>,
)
    ensures
        directory(s) is None ==> traced(s, q, input, stamp) is None,
        directory(s) is Some ==> match traced(s, q, input, stamp) {
            Some(t) => {
                &&& t.directory == directory(s)->0
                &&& t.timestamp == q.timestamp@
                &&& t.request_id == q.request_id@
                &&& t.model == q.model@
                &&& t.key_name == q.key_name@
                &&& t.user_agent == q.user_agent@
                &&& t.input == input
                &&& text::ends(t.filename, "-"@ + q.request_id@ + ".json"@)
                &&& text::begins(t.filename, text::without(stamp, '.'))
            },
            None => false,
        },
{
    let head = text::without(stamp, '.');
    let tail = "-"@ + q.request_id@ + ".json"@;
    let name = trace_name(stamp, q.request_id@);
    assert(name =~= head + tail);
    assert(name.skip(name.len() - tail.len()) =~= tail);
    assert(name.take(head.len() as int) =~= head);
}

/// What is kept of a conversation has the request and the answer: as a value where it is one, else as
/// its text.
pub proof fn law_record_has_request_and_answer(
    t: TraceView,
    answer: json::JsonView,
    raw: Seq<char>,
)
    ensures
        ({
            let a = record_form(t, Some(answer), None);
            let b = record_form(t, None, Some(raw));
            &&& a.at("timestamp"@) == Some(json::JsonView::Text(t.timestamp))
            &&& a.at("request_id"@) == Some(json::JsonView::Text(t.request_id))
            &&& a.at("model"@) == Some(json::JsonView::Text(t.model))
            &&& a.at("key_name"@) == Some(json::JsonView::Text(t.key_name))
            &&& a.at("user_agent"@) == Some(json::JsonView::Text(t.user_agent))
            &&& a.at("input"@) == Some(t.input)
            &&& a.at("output"@) == Some(answer)
            &&& a.at("output_raw"@) is None
            &&& b.at("timestamp"@) == Some(json::JsonView::Text(t.timestamp))
            &&& b.at("request_id"@) == Some(json::JsonView::Text(t.request_id))
            &&& b.at("model"@) == Some(json::JsonView::Text(t.model))
            &&& b.at("key_name"@) == Some(json::JsonView::Text(t.key_name))
            &&& b.at("user_agent"@) == Some(json::JsonView::Text(t.user_agent))
            &&& b.at("input"@) == Some(t.input)
            &&& b.at("output"@) == Some(json::JsonView::Null)
            &&& b.at("output_raw"@) == Some(json::JsonView::Text(raw))
        }),
{
    reveal_with_fuel(json::find_member, 9);
    reveal_strlit("timestamp");
    reveal_strlit("request_id");
    reveal_strlit("model");
    reveal_strlit("key_name");
    reveal_strlit("user_agent");
    reveal_strlit("input");
    reveal_strlit("output");
    reveal_strlit("output_raw");
    assert("timestamp"@[0] == 't' && "request_id"@[0] == 'r' && "model"@[0] == 'm' && "key_name"@[0]
        == 'k' && "user_agent"@[0] == 'u' && "input"@[0] == 'i' && "output"@[0] == 'o'
        && "output_raw"@[0] == 'o');
    assert("output"@.len() == 6 && "output_raw"@.len() == 10);
}

/// A conversation is listed with what is kept of it: what that says, without whitespace around it,
/// and else what is given.
pub proof fn law_listed_conversation_says_what_is_kept(
    name: Seq<char>,
    v: json::JsonView,
    id: Seq<char>,
    timestamp: Seq<char>,
    s: Seq<char>,
)
    requires
        !text::blank(s),
    ensures
        ({
            let e = entry_of_value(name, v, id, timestamp);
            let words = Some(json::JsonView::Text(s));
            &&& e.filename == name
            &&& v.at("timestamp"@) == words ==> e.timestamp == text::trimmed(s)
            &&& v.at("timestamp"@) is None ==> e.timestamp == timestamp
            &&& v.at("model"@) == words ==> e.model == text::trimmed(s)
            &&& v.at("model"@) is None ==> e.model.len() == 0
            &&& v.at("key_name"@) == words ==> e.key_name == text::trimmed(s)
            &&& v.at("key_name"@) is None ==> e.key_name == "master"@
            &&& v.at("request_id"@) == words ==> e.request_id == text::trimmed(s)
            &&& v.at("request_id"@) is None ==> e.request_id == id
        }),
{
}

/// What was recorded of the request comes first, where the name names one; then what is kept; a
/// conversation of which nothing is known is listed by its name and the time given.
pub proof fn law_recorded_request_comes_first(
    name: Seq<char>,
    id: Seq<char>,
    recorded: EntryView,
    v: json::JsonView,
    timestamp: Seq<char>,
)
    requires
        name_request(name) == Some(id),
        id.len() > 0,
    ensures
        indexed_entry(name, Some(recorded), Some(v), timestamp) == recorded,
        indexed_entry(name, Some(recorded), None, timestamp) == recorded,
        indexed_entry(name, None, Some(v), timestamp) == entry_of_value(name, v, id, timestamp),
        ({
            let e = indexed_entry(name, None, None, timestamp);
            &&& e.filename == name
            &&& e.timestamp == timestamp
            &&& e.request_id == id
            &&& e.key_name == "master"@
            &&& e.model.len() == 0
        }),
{
}

/// A file that is listed as it is there is not read again; one that is not listed, or was changed, is.
pub proof fn law_only_changed_files_are_read_again(
    indexed: Seq<SeenView>,
    present: Seq<SeenView>,
    i: int,
    k: int,
)
    requires
        present.len() <= usize::MAX,
        0 <= i < indexed.len(),
        0 <= k < present.len(),
        forall|j: int|
            0 <= j < indexed.len() && j != i ==> (#[trigger] indexed[j]).filename
                != indexed[i].filename,
        indexed[i].filename == present[k].filename,
    ensures
        stale_numbers(indexed, present, present.len()).contains(k as usize) == (indexed[i].size
            != present[k].size || indexed[i].modified_at != present[k].modified_at),
{
    lemma_stale_listed(indexed, present, present.len(), k);
    lemma_listed_is_found(indexed, i);
    let a = indexed[i];
    let b = present[k];
    assert(a == b <==> a.size == b.size && a.modified_at == b.modified_at);
}

proof fn lemma_listed_is_found(list: Seq<SeenView>, i: int)
    requires
        0 <= i < list.len(),
        forall|j: int|
            0 <= j < list.len() && j != i ==> (#[trigger] list[j]).filename != list[i].filename,
    ensures
        find_file(list, list[i].filename) == Some(list[i]),
    decreases list.len(),
{
    if i > 0 {
        let rest = list.skip(1);
        assert(list[0].filename != list[i].filename);
        assert(rest[i - 1] == list[i]);
        assert forall|j: int| 0 <= j < rest.len() && j != i - 1 implies (#[trigger] rest[j]).filename
            != rest[i - 1].filename by {
            assert(rest[j] == list[j + 1]);
        }
        lemma_listed_is_found(rest, i - 1);
    }
}

} // verus!
