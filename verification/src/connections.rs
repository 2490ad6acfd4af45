//! Requests that are under way.
use vstd::prelude::*;

use crate::conversations;
use crate::conversations::ConversationTrace;
use crate::json;
use crate::json::{array, named, number_value, object, text_value, Json, Member};
use crate::text;

verus! {

/// A request that is under way. The time at which it started is that of a clock that never goes
/// back, in milliseconds.
#[derive(Debug)]
pub struct ActiveConnection {
    pub request_id: String,
    pub model: String,
    pub key_name: String,
    pub user_agent: String,
    pub stream: bool,
    pub started_ms: u64,
}

/// What an [`ActiveConnection`] holds.
#[verifier::ext_equal]
pub struct ConnectionView {
    pub request_id: Seq<char>,
    pub model: Seq<char>,
    pub key_name: Seq<char>,
    pub user_agent: Seq<char>,
    pub stream: bool,
    pub started_ms: u64,
}

impl View for ActiveConnection {
    type V = ConnectionView;

    open spec fn view(&self) -> ConnectionView {
        ConnectionView {
            request_id: self.request_id@,
            model: self.model@,
            key_name: self.key_name@,
            user_agent: self.user_agent@,
            stream: self.stream,
            started_ms: self.started_ms,
        }
    }
}

/// What the requests of a list hold.
pub open spec fn connections_of(v: Seq<ActiveConnection>) -> Seq<ConnectionView> {
    Seq::new(v.len(), |i: int| v[i]@)
}

/// Whether a list is ordered by identifier, and each identifier stands there once.
pub open spec fn is_ordered(list: Seq<ConnectionView>) -> bool {
    forall|i: int, j: int|
        0 <= i < j < list.len() ==> text::text_lt(
            (#[trigger] list[i]).request_id,
            (#[trigger] list[j]).request_id,
        )
}

/// The request with an identifier.
pub open spec fn find_connection(list: Seq<ConnectionView>, id: Seq<char>) -> Option<ConnectionView>
    decreases list.len(),
{
    if list.len() == 0 {
        None
    } else if list[0].request_id == id {
        Some(list[0])
    } else {
        find_connection(list.skip(1), id)
    }
}

/// A list with one more request, in its place; it replaces one with the same identifier.
pub open spec fn entered(list: Seq<ConnectionView>, c: ConnectionView) -> Seq<ConnectionView>
    decreases list.len(),
{
    if list.len() == 0 {
        seq![c]
    } else if list[0].request_id == c.request_id {
        seq![c] + list.skip(1)
    } else if text::text_lt(c.request_id, list[0].request_id) {
        seq![c] + list
    } else {
        seq![list[0]] + entered(list.skip(1), c)
    }
}

/// A list without the request with an identifier.
pub open spec fn left(list: Seq<ConnectionView>, id: Seq<char>) -> Seq<ConnectionView>
    decreases list.len(),
{
    if list.len() == 0 {
        list
    } else if list[0].request_id == id {
        list.skip(1)
    } else {
        seq![list[0]] + left(list.skip(1), id)
    }
}

/// A request as it is listed.
pub open spec fn connection_form(c: ConnectionView, now_ms: u64) -> json::JsonView {
    json::JsonView::Object(
        seq![
            ("requestId"@, json::JsonView::Text(c.request_id)),
            ("model"@, json::JsonView::Text(c.model)),
            ("keyName"@, json::JsonView::Text(c.key_name)),
            ("userAgent"@, json::JsonView::Text(c.user_agent)),
            ("stream"@, json::JsonView::Bool(c.stream)),
            (
                "elapsedMs"@,
                json::JsonView::Number(json::Number::Unsigned(elapsed(c.started_ms, now_ms))),
            ),
        ],
    )
}

/// The time since a start.
pub open spec fn elapsed(started_ms: u64, now_ms: u64) -> u64 {
    if now_ms >= started_ms {
        (now_ms - started_ms) as u64
    } else {
        0
    }
}

/// The list of requests that are under way.
pub open spec fn list_form(list: Seq<ConnectionView>, now_ms: u64) -> json::JsonView {
    json::JsonView::Object(
        seq![
            ("count"@, json::JsonView::Number(json::Number::Unsigned(list.len() as u64))),
            (
                "entries"@,
                json::JsonView::Array(
                    Seq::new(list.len(), |i: int| connection_form(list[i], now_ms)),
                ),
            ),
        ],
    )
}

/// The requests that are under way, ordered by identifier.
#[derive(Debug)]
pub struct ConnectionRegistry {
    list: Vec<ActiveConnection>,
}

impl View for ConnectionRegistry {
    type V = Seq<ConnectionView>;

    closed spec fn view(&self) -> Seq<ConnectionView> {
        connections_of(self.list@)
    }
}

fn list_item(c: &ActiveConnection, now_ms: u64) -> (r: Json)
    ensures
        r@ == connection_form(c@, now_ms),
{
    let age: u64 = if now_ms >= c.started_ms {
        now_ms - c.started_ms
    } else {
        0
    };
    let ms: Vec<Member> = vec![
        named("requestId", text_value(c.request_id.as_str())),
        named("model", text_value(c.model.as_str())),
        named("keyName", text_value(c.key_name.as_str())),
        named("userAgent", text_value(c.user_agent.as_str())),
        named("stream", Json::Bool(c.stream)),
        named("elapsedMs", number_value(age)),
    ];
    assert(json::members(ms@) =~= connection_form(c@, now_ms)->Object_0);
    object(ms)
}

impl ConnectionRegistry {
    /// Whether the list is ordered by identifier, and each identifier stands there once.
    pub open spec fn is_valid(&self) -> bool {
        is_ordered(self@)
    }

    /// No request is under way.
    pub fn new() -> (r: ConnectionRegistry)
        ensures
            r.is_valid(),
            r@.len() == 0,
    {
        ConnectionRegistry { list: Vec::new() }
    }

    /// A request is under way from now on.
    pub fn insert_connection(&mut self, c: ActiveConnection)
        requires
            old(self).is_valid(),
        ensures
            final(self).is_valid(),
            final(self)@ == entered(old(self)@, c@),
    {
        let ghost all = connections_of(self.list@);
        proof {
            lemma_entered(all, c@, c@.request_id);
        }
        let n: usize = self.list.len();
        let mut i: usize = 0;
        assert(all.skip(0) =~= all);
        assert(all.take(0) + entered(all, c@) =~= entered(all, c@));
        while i < n
            invariant
                n == self.list@.len(),
                all == connections_of(self.list@),
                all == old(self)@,
                i <= n,
                all.take(i as int) + entered(all.skip(i as int), c@) == entered(all, c@),
                is_ordered(entered(all, c@)),
            decreases n - i,
        {
            let ghost rest = all.skip(i as int);
            assert(rest[0] == self.list@[i as int]@);
            assert(rest.skip(1) =~= all.skip(i + 1));
            if text::same(self.list[i].request_id.as_str(), c.request_id.as_str()) {
                self.list.set(i, c);
                assert(connections_of(self.list@) =~= all.take(i as int) + (seq![c@] + rest.skip(
                    1,
                )));
                return ;
            }
            if text::less(c.request_id.as_str(), self.list[i].request_id.as_str()) {
                self.list.insert(i, c);
                assert(connections_of(self.list@) =~= all.take(i as int) + (seq![c@] + rest));
                return ;
            }
            assert(all.take(i + 1) + entered(rest.skip(1), c@) =~= all.take(i as int) + entered(
                rest,
                c@,
            ));
            i = i + 1;
        }
        assert(all.skip(n as int) =~= Seq::empty());
        assert(all.take(n as int) =~= all);
        self.list.push(c);
        assert(connections_of(self.list@) =~= all + seq![c@]);
    }

    /// A request is no longer under way; the result says whether it was.
    pub fn remove_connection(&mut self, request_id: &str) -> (r: bool)
        requires
            old(self).is_valid(),
        ensures
            final(self).is_valid(),
            final(self)@ == left(old(self)@, request_id@),
            r == find_connection(old(self)@, request_id@) is Some,
    {
        let ghost all = connections_of(self.list@);
        proof {
            lemma_left(all, request_id@, request_id@);
        }
        let n: usize = self.list.len();
        let mut i: usize = 0;
        assert(all.skip(0) =~= all);
        assert(all.take(0) + left(all, request_id@) =~= left(all, request_id@));
        while i < n
            invariant
                n == self.list@.len(),
                all == connections_of(self.list@),
                all == old(self)@,
                self.list == old(self).list,
                i <= n,
                all.take(i as int) + left(all.skip(i as int), request_id@) == left(
                    all,
                    request_id@,
                ),
                find_connection(all, request_id@) == find_connection(
                    all.skip(i as int),
                    request_id@,
                ),
                is_ordered(left(all, request_id@)),
            decreases n - i,
        {
            let ghost rest = all.skip(i as int);
            assert(rest[0] == self.list@[i as int]@);
            assert(rest.skip(1) =~= all.skip(i + 1));
            if text::same(self.list[i].request_id.as_str(), request_id) {
                let _ = self.list.remove(i);
                assert(connections_of(self.list@) =~= all.take(i as int) + rest.skip(1));
                return true;
            }
            assert(all.take(i + 1) + left(rest.skip(1), request_id@) =~= all.take(i as int) + left(
                rest,
                request_id@,
            ));
            i = i + 1;
        }
        assert(all.skip(n as int) =~= Seq::empty());
        assert(all.take(n as int) =~= all);
        assert(left(all, request_id@) =~= all);
        false
    }

    /// The list of requests that are under way.
    pub fn connection_entries(&self, now_ms: u64) -> (r: Json)
        ensures
            r@ == list_form(self@, now_ms),
    {
        let mut out: Vec<Json> = Vec::new();
        let n: usize = self.list.len();
        for i in 0..n
            invariant
                n == self.list@.len(),
                out@.len() == i,
                forall|j: int|
                    0 <= j < i ==> (#[trigger] out@[j])@ == connection_form(
                        self.list@[j]@,
                        now_ms,
                    ),
        {
            out.push(list_item(&self.list[i], now_ms));
        }
        assert(json::items(out@) =~= Seq::new(
            self@.len(),
            |i: int| connection_form(self@[i], now_ms),
        ));
        let ms: Vec<Member> = vec![
            named("count", number_value(n as u64)),
            named("entries", array(out)),
        ];
        assert(json::members(ms@) =~= list_form(self@, now_ms)->Object_0);
        object(ms)
    }
}

proof fn lemma_entered(list: Seq<ConnectionView>, c: ConnectionView, id: Seq<char>)
    requires
        is_ordered(list),
    ensures
        is_ordered(entered(list, c)),
        find_connection(entered(list, c), id) == (if id == c.request_id {
            Some(c)
        } else {
            find_connection(list, id)
        }),
        forall|i: int|
            0 <= i < entered(list, c).len() ==> (#[trigger] entered(list, c)[i]).request_id
                == c.request_id || exists|k: int|
                0 <= k < list.len() && (#[trigger] list[k]).request_id == entered(
                    list,
                    c,
                )[i].request_id,
    decreases list.len(),
{
    reveal_with_fuel(find_connection, 2);
    let out = entered(list, c);
    if list.len() == 0 {
        assert(out.skip(1) =~= Seq::empty());
    } else if list[0].request_id == c.request_id {
        assert(out.skip(1) =~= list.skip(1));
        assert forall|i: int| 0 <= i < out.len() implies (#[trigger] out[i]).request_id
            == list[i].request_id by {}
        assert forall|i: int, j: int| 0 <= i < j < out.len() implies text::text_lt(
            (#[trigger] out[i]).request_id,
            (#[trigger] out[j]).request_id,
        ) by {
            assert(out[i].request_id == list[i].request_id);
            assert(out[j].request_id == list[j].request_id);
        }
    } else if text::text_lt(c.request_id, list[0].request_id) {
        assert(out.skip(1) =~= list);
        assert forall|i: int, j: int| 0 <= i < j < out.len() implies text::text_lt(
            (#[trigger] out[i]).request_id,
            (#[trigger] out[j]).request_id,
        ) by {
            assert(out[j] == list[j - 1]);
            if i > 0 {
                assert(out[i] == list[i - 1]);
            } else if j > 1 {
                text::lemma_text_lt_transitive(
                    c.request_id,
                    list[0].request_id,
                    list[j - 1].request_id,
                );
            }
        }
        assert forall|i: int| 0 <= i < out.len() implies (#[trigger] out[i]).request_id
            == c.request_id || exists|k: int|
            0 <= k < list.len() && (#[trigger] list[k]).request_id == out[i].request_id by {
            if i > 0 {
                assert(out[i] == list[i - 1]);
            }
        }
    } else {
        let rest = list.skip(1);
        let tail = entered(rest, c);
        assert forall|i: int, j: int| 0 <= i < j < rest.len() implies text::text_lt(
            (#[trigger] rest[i]).request_id,
            (#[trigger] rest[j]).request_id,
        ) by {
            assert(rest[i] == list[i + 1] && rest[j] == list[j + 1]);
        }
        lemma_entered(rest, c, id);
        text::lemma_text_lt_total(c.request_id, list[0].request_id);
        assert(out.skip(1) =~= tail);
        assert(out[0] == list[0]);
        assert forall|i: int, j: int| 0 <= i < j < out.len() implies text::text_lt(
            (#[trigger] out[i]).request_id,
            (#[trigger] out[j]).request_id,
        ) by {
            assert(out[j] == tail[j - 1]);
            if i > 0 {
                assert(out[i] == tail[i - 1]);
            } else if tail[j - 1].request_id != c.request_id {
                let k = choose|k: int|
                    0 <= k < rest.len() && (#[trigger] rest[k]).request_id == tail[j
                        - 1].request_id;
                assert(rest[k] == list[k + 1]);
            }
        }
        assert forall|i: int| 0 <= i < out.len() implies (#[trigger] out[i]).request_id
            == c.request_id || exists|k: int|
            0 <= k < list.len() && (#[trigger] list[k]).request_id == out[i].request_id by {
            if i > 0 {
                assert(out[i] == tail[i - 1]);
                if tail[i - 1].request_id != c.request_id {
                    let k = choose|k: int|
                        0 <= k < rest.len() && (#[trigger] rest[k]).request_id == tail[i
                            - 1].request_id;
                    assert(rest[k] == list[k + 1]);
                }
            } else {
                assert(list[0].request_id == out[0].request_id);
            }
        }
    }
}

proof fn lemma_left(list: Seq<ConnectionView>, id: Seq<char>, other: Seq<char>)
    requires
        is_ordered(list),
    ensures
        is_ordered(left(list, id)),
        find_connection(left(list, id), other) == (if other == id {
            None
        } else {
            find_connection(list, other)
        }),
        forall|i: int|
            0 <= i < left(list, id).len() ==> exists|k: int|
                0 <= k < list.len() && #[trigger] list[k] == (#[trigger] left(list, id)[i]),
    decreases list.len(),
{
    if list.len() > 0 {
        let rest = list.skip(1);
        assert forall|i: int, j: int| 0 <= i < j < rest.len() implies text::text_lt(
            (#[trigger] rest[i]).request_id,
            (#[trigger] rest[j]).request_id,
        ) by {
            assert(rest[i] == list[i + 1] && rest[j] == list[j + 1]);
        }
        if list[0].request_id == id {
            assert forall|i: int| 0 <= i < rest.len() implies (#[trigger] rest[i]).request_id
                != id by {
                assert(rest[i] == list[i + 1]);
                assert(text::text_lt(list[0].request_id, list[i + 1].request_id));
                text::lemma_text_lt_total(list[0].request_id, list[i + 1].request_id);
            }
            lemma_absent(rest, id);
            assert forall|i: int| 0 <= i < left(list, id).len() implies exists|k: int|
                0 <= k < list.len() && #[trigger] list[k] == (#[trigger] left(list, id)[i]) by {
                assert(list[i + 1] == left(list, id)[i]);
            }
        } else {
            lemma_left(rest, id, other);
            let tail = left(rest, id);
            let out = left(list, id);
            assert(out.skip(1) =~= tail);
            assert(out[0] == list[0]);
            assert forall|i: int, j: int| 0 <= i < j < out.len() implies text::text_lt(
                (#[trigger] out[i]).request_id,
                (#[trigger] out[j]).request_id,
            ) by {
                assert(out[j] == tail[j - 1]);
                if i > 0 {
                    assert(out[i] == tail[i - 1]);
                } else {
                    let k = choose|k: int| 0 <= k < rest.len() && #[trigger] rest[k] == tail[j - 1];
                    assert(rest[k] == list[k + 1]);
                }
            }
            assert forall|i: int| 0 <= i < out.len() implies exists|k: int|
                0 <= k < list.len() && #[trigger] list[k] == (#[trigger] out[i]) by {
                if i > 0 {
                    assert(out[i] == tail[i - 1]);
                    let k = choose|k: int| 0 <= k < rest.len() && #[trigger] rest[k] == tail[i - 1];
                    assert(rest[k] == list[k + 1]);
                } else {
                    assert(list[0] == out[0]);
                }
            }
        }
    }
}

proof fn lemma_absent(list: Seq<ConnectionView>, id: Seq<char>)
    requires
        forall|i: int| 0 <= i < list.len() ==> (#[trigger] list[i]).request_id != id,
    ensures
        find_connection(list, id) is None,
    decreases list.len(),
{
    if list.len() > 0 {
        assert(list[0].request_id != id);
        let rest = list.skip(1);
        assert forall|i: int| 0 <= i < rest.len() implies (#[trigger] rest[i]).request_id != id by {
            assert(rest[i] == list[i + 1]);
        }
        lemma_absent(rest, id);
    }
}

/// A request that was entered is found, and no other is touched.
pub proof fn law_entered_is_found(list: Seq<ConnectionView>, c: ConnectionView, id: Seq<char>)
    requires
        is_ordered(list),
    ensures
        find_connection(entered(list, c), id) == (if id == c.request_id {
            Some(c)
        } else {
            find_connection(list, id)
        }),
{
    lemma_entered(list, c, id);
}

/// A request that has left is not found, and no other is touched.
pub proof fn law_left_is_gone(list: Seq<ConnectionView>, id: Seq<char>, other: Seq<char>)
    requires
        is_ordered(list),
    ensures
        find_connection(left(list, id), other) == (if other == id {
            None
        } else {
            find_connection(list, other)
        }),
{
    lemma_left(list, id, other);
}

// ---------------------------------------------------------------------------
// Answers that come in pieces
// ---------------------------------------------------------------------------

/// What is left to do once an answer has come to its end.
#[derive(Debug)]
pub struct FinishedStream {
    pub output: Vec<u8>,
    pub conversation: Option<ConversationTrace>,
}

/// An answer that comes in pieces, with what has come of it so far.
#[derive(Debug)]
pub struct StreamCapture {
    output: Vec<u8>,
    conversation: Option<ConversationTrace>,
    finished: bool,
}

/// What a [`StreamCapture`] holds.
pub struct CaptureView {
    pub output: Seq<u8>,
    pub conversation: Option<conversations::TraceView>,
    pub finished: bool,
}

impl View for StreamCapture {
    type V = CaptureView;

    closed spec fn view(&self) -> CaptureView {
        CaptureView {
            output: self.output@,
            conversation: conversations::opt_trace(self.conversation),
            finished: self.finished,
        }
    }
}

impl StreamCapture {
    /// An answer of which nothing has come yet.
    pub fn new(conversation: Option<ConversationTrace>) -> (r: StreamCapture)
        ensures
            r@.output.len() == 0,
            r@.conversation == conversations::opt_trace(conversation),
            !r@.finished,
    {
        StreamCapture { output: Vec::new(), conversation, finished: false }
    }

    /// A piece of the answer has come.
    pub fn feed(&mut self, piece: &Vec<u8>)
        ensures
            final(self)@ == (CaptureView { output: old(self)@.output + piece@, ..old(self)@ }),
    {
        let n: usize = piece.len();
        let ghost before = self.output@;
        assert(before + piece@.take(0) =~= before);
        for i in 0..n
            invariant
                n == piece@.len(),
                self.output@ == before + piece@.take(i as int),
                self.conversation == old(self).conversation,
                self.finished == old(self).finished,
        {
            self.output.push(piece[i]);
            assert(before + piece@.take(i + 1) =~= (before + piece@.take(i as int)).push(
                piece@[i as int],
            ));
        }
        assert(piece@.take(n as int) =~= piece@);
    }

    /// The answer has come to its end, or is given up. What is left to do is handed out once.
    pub fn finish(&mut self) -> (r: Option<FinishedStream>)
        ensures
            r is None == old(self)@.finished,
            r matches Some(f) ==> f.output@ == old(self)@.output && conversations::opt_trace(
                f.conversation,
            ) == old(self)@.conversation,
            final(self)@ == (if old(self)@.finished {
                old(self)@
            } else {
                CaptureView { output: Seq::empty(), conversation: None, finished: true }
            }),
    {
        if self.finished {
            return None;
        }
        self.finished = true;
        let mut output: Vec<u8> = Vec::new();
        std::mem::swap(&mut output, &mut self.output);
        let conversation = self.conversation.take();
        Some(FinishedStream { output, conversation })
    }
}

/// The list counts the requests and has each of them in its place, with how long it has been under
/// way; one that seems to begin later has been so for no time.
pub proof fn law_requests_are_listed_as_they_are(list: Seq<ConnectionView>, now_ms: u64, i: int)
    requires
        0 <= i < list.len(),
    ensures
        list_form(list, now_ms).at("count"@) == Some(
            json::JsonView::Number(json::Number::Unsigned(list.len() as u64)),
        ),
        match list_form(list, now_ms).at("entries"@) {
            Some(json::JsonView::Array(entries)) => {
                let x = entries[i];
                let c = list[i];
                &&& entries.len() == list.len()
                &&& x.at("requestId"@) == Some(json::JsonView::Text(c.request_id))
                &&& x.at("model"@) == Some(json::JsonView::Text(c.model))
                &&& x.at("keyName"@) == Some(json::JsonView::Text(c.key_name))
                &&& x.at("userAgent"@) == Some(json::JsonView::Text(c.user_agent))
                &&& x.at("stream"@) == Some(json::JsonView::Bool(c.stream))
                &&& match x.at("elapsedMs"@) {
                    Some(json::JsonView::Number(json::Number::Unsigned(t))) => {
                        &&& now_ms >= c.started_ms ==> c.started_ms + t == now_ms
                        &&& now_ms < c.started_ms ==> t == 0
                    },
                    _ => false,
                }
            },
            _ => false,
        },
{
    reveal_with_fuel(json::find_member, 7);
    reveal_strlit("count");
    reveal_strlit("entries");
    reveal_strlit("requestId");
    reveal_strlit("model");
    reveal_strlit("keyName");
    reveal_strlit("userAgent");
    reveal_strlit("stream");
    reveal_strlit("elapsedMs");
    assert("count"@.len() == 5 && "entries"@.len() == 7);
    assert("requestId"@[0] == 'r' && "model"@[0] == 'm' && "keyName"@[0] == 'k' && "userAgent"@[0]
        == 'u' && "stream"@[0] == 's' && "elapsedMs"@[0] == 'e');
}

} // verus!
