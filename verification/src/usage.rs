//! The record of what was used.
use vstd::prelude::*;

use crate::clock;
use crate::config;
use crate::config::AppConfig;
use crate::decimal;
use crate::json;
use crate::json::{Json, Number};
use crate::text;

verus! {

/// What is recorded of a request.
#[derive(Debug)]
pub struct UsageLog {
    pub timestamp: String,
    pub request_id: String,
    pub model: String,
    pub key_name: String,
    pub input_tokens: u64,
    pub cached_tokens: u64,
    pub cached_write_tokens: u64,
    pub output_tokens: u64,
    pub cost: Number,
    pub status: u16,
    pub duration_ms: u64,
    pub stream: bool,
    pub user_agent: String,
    pub error: String,
    pub path: String,
}

/// What a [`UsageLog`] holds.
#[verifier::ext_equal]
pub struct UsageLogView {
    pub timestamp: Seq<char>,
    pub request_id: Seq<char>,
    pub model: Seq<char>,
    pub key_name: Seq<char>,
    pub input_tokens: u64,
    pub cached_tokens: u64,
    pub cached_write_tokens: u64,
    pub output_tokens: u64,
    pub cost: Number,
    pub status: u16,
    pub duration_ms: u64,
    pub stream: bool,
    pub user_agent: Seq<char>,
    pub error: Seq<char>,
    pub path: Seq<char>,
}

impl View for UsageLog {
    type V = UsageLogView;

    open spec fn view(&self) -> UsageLogView {
        UsageLogView {
            timestamp: self.timestamp@,
            request_id: self.request_id@,
            model: self.model@,
            key_name: self.key_name@,
            input_tokens: self.input_tokens,
            cached_tokens: self.cached_tokens,
            cached_write_tokens: self.cached_write_tokens,
            output_tokens: self.output_tokens,
            cost: self.cost,
            status: self.status,
            duration_ms: self.duration_ms,
            stream: self.stream,
            user_agent: self.user_agent@,
            error: self.error@,
            path: self.path@,
        }
    }
}

// ---------------------------------------------------------------------------
// Pages
// ---------------------------------------------------------------------------

/// Which page of a list is shown.
#[derive(Clone, Copy, Debug, PartialEq, Eq, Structural)]
pub struct Pagination {
    pub page: u64,
    pub page_size: u64,
    pub total: u64,
    pub total_pages: u64,
}

/// The number of a page: at least the first.
pub open spec fn real_page(page: u64) -> u64 {
    if page < 1 {
        1
    } else {
        page
    }
}

/// The size of a page: from one entry to a hundred.
pub open spec fn real_size(page_size: u64) -> u64 {
    if page_size < 1 {
        1
    } else if page_size > 100 {
        100
    } else {
        page_size
    }
}

/// The number of pages: at least one.
pub open spec fn page_count(total: u64, size: u64) -> u64 {
    let n = (total + size - 1) / (size as int);
    if n < 1 {
        1
    } else {
        n as u64
    }
}

/// The page that is shown, and how many entries stand before it.
pub open spec fn paged(page: u64, page_size: u64, total: u64) -> (Pagination, int) {
    let page = real_page(page);
    let page_size = real_size(page_size);
    (
        Pagination { page, page_size, total, total_pages: page_count(total, page_size) },
        (page - 1) * page_size,
    )
}

/// Whether the number of entries before a page is within the range of `u64`.
pub fn page_in_range(page: u64, page_size: u64) -> (r: bool)
    ensures
        r == ((real_page(page) - 1) * real_size(page_size) <= u64::MAX),
{
    let page: u64 = if page < 1 {
        1
    } else {
        page
    };
    let size: u64 = if page_size < 1 {
        1
    } else if page_size > 100 {
        100
    } else {
        page_size
    };
    assert(0 <= (page - 1) * size <= 0xFFFF_FFFF_FFFF_FFFF * 100) by (nonlinear_arith)
        requires
            1 <= page <= 0xFFFF_FFFF_FFFF_FFFF,
            1 <= size <= 100,
    ;
    let offset: u128 = (page - 1) as u128 * size as u128;
    offset <= 0xFFFF_FFFF_FFFF_FFFF
}

/// The page that is shown, and how many entries stand before it. A page past the end is empty.
pub fn paginate(page: u64, page_size: u64, total: u64) -> (r: (Pagination, u64))
    requires
        (real_page(page) - 1) * real_size(page_size) <= u64::MAX,
        total + real_size(page_size) <= u64::MAX,
    ensures
        r.0 == paged(page, page_size, total).0,
        r.1 == paged(page, page_size, total).1,
{
    let page: u64 = if page < 1 {
        1
    } else {
        page
    };
    let page_size: u64 = if page_size < 1 {
        1
    } else if page_size > 100 {
        100
    } else {
        page_size
    };
    let pages: u64 = (total + page_size - 1) / page_size;
    let total_pages: u64 = if pages < 1 {
        1
    } else {
        pages
    };
    (Pagination { page, page_size, total, total_pages }, (page - 1) * page_size)
}

/// The page that is shown where a page past the end is the last one.
pub open spec fn clamped_page(page: u64, page_size: u64, total: u64) -> u64 {
    let last = page_count(total, real_size(page_size));
    if real_page(page) < last {
        real_page(page)
    } else {
        last
    }
}

/// The page that is shown, and how many entries stand before it. A page past the end is the last
/// one.
pub fn paginate_clamped(page: u64, page_size: u64, total: u64) -> (r: (Pagination, u64))
    requires
        total + real_size(page_size) <= u64::MAX,
    ensures
        r.0 == paged(clamped_page(page, page_size, total), page_size, total).0,
        r.1 == paged(clamped_page(page, page_size, total), page_size, total).1,
{
    let wanted: u64 = if page < 1 {
        1
    } else {
        page
    };
    let size: u64 = if page_size < 1 {
        1
    } else if page_size > 100 {
        100
    } else {
        page_size
    };
    let pages: u64 = (total + size - 1) / size;
    let last: u64 = if pages < 1 {
        1
    } else {
        pages
    };
    let shown: u64 = if wanted < last {
        wanted
    } else {
        last
    };
    proof {
        lemma_last_page(total as int, size as int);
        if total == 0 {
            vstd::arithmetic::div_mod::lemma_basic_div(size - 1, size as int);
        }
        assert((last - 1) * size <= total || last == 1);
        assert(last == 1 ==> (last - 1) * size == 0) by (nonlinear_arith);
        assert((shown - 1) * size <= (last - 1) * size) by (nonlinear_arith)
            requires
                shown <= last,
                size >= 0,
        ;
    }
    paginate(shown, page_size, total)
}

proof fn lemma_last_page(total: int, size: int)
    requires
        total >= 0,
        1 <= size,
    ensures
        ((total + size - 1) / size - 1) * size < total || total == 0,
        (total + size - 1) / size * size >= total,
{
    let n = (total + size - 1) / size;
    vstd::arithmetic::div_mod::lemma_fundamental_div_mod(total + size - 1, size);
    assert((n - 1) * size == size * n - size) by (nonlinear_arith);
    assert(n * size == size * n) by (nonlinear_arith);
}

/// Each entry stands on exactly one page, which is one of the pages that are counted.
pub proof fn law_each_entry_has_one_page(page_size: u64, total: u64, entry: u64)
    requires
        entry < total,
        total + real_size(page_size) <= u64::MAX,
    ensures
        ({
            let size = real_size(page_size);
            let home = entry as int / size as int + 1;
            &&& 1 <= home <= page_count(total, size)
            &&& paged(home as u64, page_size, total).1 <= entry
                < paged(home as u64, page_size, total).1 + size
            &&& forall|other: u64|
                real_page(other) == other && (#[trigger] paged(other, page_size, total)).1 <= entry
                    && entry < paged(other, page_size, total).1 + size ==> other == home
        }),
{
    let size = real_size(page_size) as int;
    let e = entry as int;
    let home = e / size + 1;
    vstd::arithmetic::div_mod::lemma_fundamental_div_mod(e, size);
    lemma_last_page(total as int, size);
    let n = (total + size - 1) / size;
    assert(home <= n) by (nonlinear_arith)
        requires
            n * size >= total,
            e < total,
            e == size * (e / size) + e % size,
            0 <= e % size,
            size >= 1,
            home == e / size + 1,
    ;
    assert(n <= total) by (nonlinear_arith)
        requires
            (n - 1) * size < total,
            total >= 1,
            size >= 1,
    ;
    assert((home - 1) * size == size * (e / size)) by (nonlinear_arith)
        requires
            home == e / size + 1,
    ;
    assert(e / size >= 0) by (nonlinear_arith)
        requires
            e >= 0,
            size >= 1,
    ;
    assert forall|other: u64|
        real_page(other) == other && (#[trigger] paged(other, page_size, total)).1 <= entry && entry
            < paged(other, page_size, total).1 + size implies other == home by {
        let k = other as int;
        let q = e / size;
        assert(k - 1 == q) by (nonlinear_arith)
            requires
                (k - 1) * size <= e,
                e < (k - 1) * size + size,
                e == size * q + e % size,
                0 <= e % size < size,
                size >= 1,
        ;
    }
}

/// The entries of a list that a page shows: as many as its size, from the place after those that
/// stand before it.
pub open spec fn page_entries<T>(list: Seq<T>, page: u64, page_size: u64) -> Seq<T> {
    let (shown, offset) = paged(page, page_size, list.len() as u64);
    let end = offset + shown.page_size;
    if offset >= list.len() {
        Seq::empty()
    } else if end >= list.len() {
        list.skip(offset)
    } else {
        list.subrange(offset, end)
    }
}

/// The entries of the first `n` pages of a list, one page after another.
pub open spec fn first_pages<T>(list: Seq<T>, page_size: u64, n: nat) -> Seq<T>
    decreases n,
{
    if n == 0 {
        Seq::empty()
    } else {
        first_pages(list, page_size, (n - 1) as nat) + page_entries(list, n as u64, page_size)
    }
}

proof fn lemma_first_pages<T>(list: Seq<T>, page_size: u64, n: nat)
    requires
        list.len() <= u64::MAX,
        n <= u64::MAX,
    ensures
        first_pages(list, page_size, n) == (if n * real_size(page_size) <= list.len() {
            list.take((n * real_size(page_size)) as int)
        } else {
            list
        }),
    decreases n,
{
    let size = real_size(page_size) as int;
    if n == 0 {
        assert(n * size == 0) by (nonlinear_arith)
            requires
                n == 0,
        ;
        assert(list.take(0) =~= Seq::empty());
    } else {
        lemma_first_pages(list, page_size, (n - 1) as nat);
        assert((n - 1) * size + size == n * size) by (nonlinear_arith);
        assert((n - 1) * size >= 0) by (nonlinear_arith)
            requires
                n >= 1,
                size >= 1,
        ;
        let before = first_pages(list, page_size, (n - 1) as nat);
        let here = page_entries(list, n as u64, page_size);
        let whole = if n * size <= list.len() {
            list.take(n * size)
        } else {
            list
        };
        assert(before + here =~= whole);
    }
}

/// The pages, one after another, are the whole list, the latest entry first, given the entries in
/// the order in which they were made. Each page is counted in the same way.
pub proof fn law_pages_are_the_list<T>(rows: Seq<T>, page_size: u64)
    requires
        rows.len() + real_size(page_size) <= u64::MAX,
    ensures
        first_pages(
            rows.reverse(),
            page_size,
            page_count(rows.len() as u64, real_size(page_size)) as nat,
        ) == rows.reverse(),
        forall|page: u64|
            (#[trigger] paged(page, page_size, rows.len() as u64)).0 == (Pagination {
                page: real_page(page),
                page_size: real_size(page_size),
                total: rows.len() as u64,
                total_pages: page_count(rows.len() as u64, real_size(page_size)),
            }),
{
    let list = rows.reverse();
    let size = real_size(page_size) as int;
    let total = rows.len() as int;
    let pages = page_count(rows.len() as u64, real_size(page_size)) as nat;
    let n = (total + size - 1) / size;
    lemma_last_page(total, size);
    assert(0 <= n <= total + size - 1) by (nonlinear_arith)
        requires
            n == (total + size - 1) / size,
            total >= 0,
            size >= 1,
    ;
    assert(pages * size >= total) by (nonlinear_arith)
        requires
            n * size >= total,
            pages >= n,
            size >= 1,
    ;
    lemma_first_pages(list, page_size, pages);
    assert(list.take(total) =~= list);
}

/// A page after the last one has no entries.
pub proof fn law_no_entries_after_the_last_page<T>(list: Seq<T>, page: u64, page_size: u64)
    requires
        list.len() + real_size(page_size) <= u64::MAX,
        page > page_count(list.len() as u64, real_size(page_size)),
    ensures
        page_entries(list, page, page_size).len() == 0,
{
    let size = real_size(page_size) as int;
    let total = list.len() as int;
    let n = (total + size - 1) / size;
    lemma_last_page(total, size);
    assert(n <= total + size - 1) by (nonlinear_arith)
        requires
            n == (total + size - 1) / size,
            total >= 0,
            size >= 1,
    ;
    assert((page - 1) * size >= total) by (nonlinear_arith)
        requires
            n * size >= total,
            page - 1 >= n,
            size >= 1,
    ;
}

/// The page with the number zero is the first one.
pub proof fn law_page_zero_is_the_first<T>(list: Seq<T>, page_size: u64)
    ensures
        paged(0, page_size, list.len() as u64) == paged(1, page_size, list.len() as u64),
        page_entries(list, 0, page_size) == page_entries(list, 1, page_size),
{
}

/// A page past the end is shown as the last one, any other as itself.
pub proof fn law_clamped_page_exists(page: u64, page_size: u64, total: u64)
    requires
        total + real_size(page_size) <= u64::MAX,
    ensures
        1 <= clamped_page(page, page_size, total) <= page_count(total, real_size(page_size)),
        1 <= page <= page_count(total, real_size(page_size)) ==> clamped_page(
            page,
            page_size,
            total,
        ) == page,
{
}

// ---------------------------------------------------------------------------
// The table for other programs
// ---------------------------------------------------------------------------

/// The first line of the table.
pub const CSV_HEADER: &'static str =
    "timestamp,model,key_name,input_tokens,cached_tokens,cached_write_tokens,output_tokens,cost,status,duration_ms,stream,request_id,user_agent,error,path\n";

/// Whether a text has to be quoted in a cell.
pub open spec fn needs_quotes(s: Seq<char>) -> bool {
    s.contains(',') || s.contains('"') || s.contains('\n') || s.contains('\r')
}

/// A text as a cell: in quotes where it has to be, with its own quotes doubled.
pub open spec fn cell(s: Seq<char>) -> Seq<char> {
    if needs_quotes(s) {
        "\""@ + text::doubled(s, '"') + "\""@
    } else {
        s
    }
}

/// The text as a cell.
pub fn csv_cell(value: &str) -> (r: String)
    ensures
        r@ == cell(value@),
{
    if text::contains_char(value, ',') || text::contains_char(value, '"') || text::contains_char(
        value,
        '\n',
    ) || text::contains_char(value, '\r') {
        let inner = text::double_char(value, '"');
        text::cat3("\"", inner.as_str(), "\"")
    } else {
        value.to_owned()
    }
}

/// The text that a cell stands for.
pub open spec fn read_cell(s: Seq<char>) -> Seq<char> {
    if s.len() >= 2 && s[0] == '"' {
        text::undoubled(s.subrange(1, s.len() - 1), '"')
    } else {
        s
    }
}

/// A cell stands for the text that was written to it.
pub proof fn law_cell_reads_back(s: Seq<char>)
    ensures
        read_cell(cell(s)) == s,
{
    reveal_strlit("\"");
    assert("\""@ =~= seq!['"']);
    let c = cell(s);
    if needs_quotes(s) {
        assert(c.subrange(1, c.len() - 1) =~= text::doubled(s, '"'));
        text::lemma_undoubled(s, '"');
    } else if s.len() >= 2 && s[0] == '"' {
        assert(s.contains('"'));
    }
}

/// The parts of a line of the table, given the cost in words.
pub open spec fn row_cells(e: UsageLogView, cost: Seq<char>) -> Seq<Seq<char>> {
    seq![
        cell(e.timestamp),
        cell(e.model),
        cell(e.key_name),
        decimal::decimal(e.input_tokens as nat),
        decimal::decimal(e.cached_tokens as nat),
        decimal::decimal(e.cached_write_tokens as nat),
        decimal::decimal(e.output_tokens as nat),
        cost,
        decimal::decimal(e.status as nat),
        decimal::decimal(e.duration_ms as nat),
        if e.stream {
            "true"@
        } else {
            "false"@
        },
        cell(e.request_id),
        cell(e.user_agent),
        cell(e.error),
        cell(e.path),
    ]
}

/// A line of the table, given the cost in words.
pub open spec fn row(e: UsageLogView, cost: Seq<char>) -> Seq<char> {
    text::joined(row_cells(e, cost), ","@) + "\n"@
}

/// The line of the table for a request, given its cost in words.
pub fn csv_row(e: &UsageLog, cost: &str) -> (r: String)
    ensures
        r@ == row(e@, cost@),
{
    let stream = if e.stream {
        "true"
    } else {
        "false"
    };
    let cells: Vec<String> = vec![
        csv_cell(e.timestamp.as_str()),
        csv_cell(e.model.as_str()),
        csv_cell(e.key_name.as_str()),
        decimal::number_text(e.input_tokens),
        decimal::number_text(e.cached_tokens),
        decimal::number_text(e.cached_write_tokens),
        decimal::number_text(e.output_tokens),
        cost.to_owned(),
        decimal::number_text(e.status as u64),
        decimal::number_text(e.duration_ms),
        stream.to_owned(),
        csv_cell(e.request_id.as_str()),
        csv_cell(e.user_agent.as_str()),
        csv_cell(e.error.as_str()),
        csv_cell(e.path.as_str()),
    ];
    assert(text::texts(cells@) =~= row_cells(e@, cost@));
    let line = text::join(&cells, ",");
    text::cat(line.as_str(), "\n")
}

/// The lines of the table for the first `n` requests.
pub open spec fn rows(es: Seq<UsageLog>, costs: Seq<Seq<char>>, n: nat) -> Seq<char>
    decreases n,
{
    if n == 0 {
        Seq::empty()
    } else {
        rows(es, costs, (n - 1) as nat) + row(es[n - 1]@, costs[n - 1])
    }
}

/// The table of the given requests, given their costs in words.
pub fn export_usage_csv(entries: &Vec<UsageLog>, costs: &Vec<String>) -> (r: String)
    requires
        entries@.len() == costs@.len(),
    ensures
        r@ == CSV_HEADER@ + rows(entries@, text::texts(costs@), entries@.len()),
{
    let mut out = CSV_HEADER.to_owned();
    let ghost words = text::texts(costs@);
    let n: usize = entries.len();
    assert(CSV_HEADER@ + rows(entries@, words, 0) =~= CSV_HEADER@);
    for i in 0..n
        invariant
            n == entries@.len(),
            n == costs@.len(),
            words == text::texts(costs@),
            out@ == CSV_HEADER@ + rows(entries@, words, i as nat),
    {
        let line = csv_row(&entries[i], costs[i].as_str());
        assert(words[i as int] == costs@[i as int]@);
        out.append(line.as_str());
        assert(out@ =~= CSV_HEADER@ + rows(entries@, words, (i + 1) as nat));
    }
    out
}

// ---------------------------------------------------------------------------
// Records of older versions
// ---------------------------------------------------------------------------

/// The lines of a file that hold something, without the space around it.
pub open spec fn full_lines(parts: Seq<Seq<char>>) -> Seq<Seq<char>>
    decreases parts.len(),
{
    if parts.len() == 0 {
        parts
    } else if text::blank(parts.last()) {
        full_lines(parts.drop_last())
    } else {
        full_lines(parts.drop_last()).push(text::trimmed(parts.last()))
    }
}

/// The lines of a file that hold something, without the space around it.
pub fn usage_lines(raw: &str) -> (r: Vec<String>)
    ensures
        text::texts(r@) == full_lines(text::split_on(raw@, '\n')),
{
    let parts = text::split(raw, '\n');
    let mut out: Vec<String> = Vec::new();
    let ghost all = text::texts(parts@);
    let n: usize = parts.len();
    assert(text::texts(out@) =~= Seq::empty());
    assert(all.take(0) =~= Seq::empty());
    for i in 0..n
        invariant
            n == parts@.len(),
            all == text::texts(parts@),
            text::texts(out@) == full_lines(all.take(i as int)),
    {
        let line = text::trim(parts[i].as_str());
        assert(all.take(i + 1).drop_last() =~= all.take(i as int));
        assert(all.take(i + 1).last() == parts@[i as int]@);
        if !line.as_str().is_empty() {
            proof {
                text::lemma_texts_push(out@, line);
            }
            out.push(line);
        }
    }
    assert(all.take(n as int) =~= all);
    out
}

/// The text of a field, empty where there is none.
pub open spec fn text_field(v: json::JsonView, name: Seq<char>) -> Seq<char> {
    text::or_empty(json::text_of(v.at(name)))
}

/// The number of a field, zero where there is none.
pub open spec fn number_field(v: json::JsonView, name: Seq<char>) -> u64 {
    match json::unsigned_of(v.at(name)) {
        Some(n) => n,
        None => 0,
    }
}

/// The time of a field that holds it in milliseconds, as a text.
pub open spec fn millis_field(v: json::JsonView, name: Seq<char>) -> Option<Seq<char>> {
    match v.at(name) {
        Some(f) => match f.signed() {
            Some(millis) => {
                let m = clock::millis_moment(millis);
                clock::rfc3339_of(m.secs, m.nanos)
            },
            None => None,
        },
        None => None,
    }
}

/// The time of an older record: as a text, or in milliseconds in one of three fields, or else the
/// given one.
pub open spec fn old_timestamp(v: json::JsonView, fallback: Seq<char>) -> Seq<char> {
    let t = text_field(v, "timestamp"@);
    if !text::blank(t) {
        t
    } else {
        match millis_field(v, "timestamp"@) {
            Some(s) => s,
            None => match millis_field(v, "last_timestamp"@) {
                Some(s) => s,
                None => match millis_field(v, "first_timestamp"@) {
                    Some(s) => s,
                    None => fallback,
                },
            },
        }
    }
}

/// An older record in the present form.
pub open spec fn old_log(v: json::JsonView, fallback: Seq<char>) -> UsageLogView {
    UsageLogView {
        timestamp: old_timestamp(v, fallback),
        request_id: text_field(v, "request_id"@),
        model: text_field(v, "model"@),
        key_name: text_field(v, "key_name"@),
        input_tokens: number_field(v, "input_tokens"@),
        cached_tokens: number_field(v, "cached_tokens"@),
        cached_write_tokens: number_field(v, "cached_write_tokens"@),
        output_tokens: number_field(v, "output_tokens"@),
        cost: match json::number_of(v.at("cost"@)) {
            Some(n) => n,
            None => Number::Unsigned(0),
        },
        status: if number_field(v, "status"@) > u16::MAX {
            u16::MAX
        } else {
            number_field(v, "status"@) as u16
        },
        duration_ms: number_field(v, "duration_ms"@),
        stream: match v.at("stream"@) {
            Some(b) => b.truth() == Some(true),
            None => false,
        },
        user_agent: text_field(v, "user_agent"@),
        error: text_field(v, "error"@),
        path: text_field(v, "path"@),
    }
}

fn string_field(value: &Json, field: &str) -> (r: String)
    ensures
        r@ == text_field(value@, field@),
{
    match value.text_at(field) {
        Some(s) => s.to_owned(),
        None => String::new(),
    }
}

fn u64_field(value: &Json, field: &str) -> (r: u64)
    ensures
        r == number_field(value@, field@),
{
    match value.unsigned_at(field) {
        Some(n) => n,
        None => 0,
    }
}

fn time_field(value: &Json, field: &str) -> (r: Option<String>)
    ensures
        text::opt_text(r) == millis_field(value@, field@),
{
    match value.get(field) {
        Some(f) => match f.as_signed() {
            Some(millis) => clock::moment_text(clock::from_millis(millis)),
            None => None,
        },
        None => None,
    }
}

/// The time of an older record, or else the given one.
pub fn legacy_timestamp(value: &Json, fallback: &str) -> (r: String)
    ensures
        r@ == old_timestamp(value@, fallback@),
{
    let t = string_field(value, "timestamp");
    if !text::is_blank(t.as_str()) {
        return t;
    }
    if let Some(s) = time_field(value, "timestamp") {
        return s;
    }
    if let Some(s) = time_field(value, "last_timestamp") {
        return s;
    }
    if let Some(s) = time_field(value, "first_timestamp") {
        return s;
    }
    fallback.to_owned()
}

/// An older record in the present form, given the time of one that names none.
pub fn legacy_usage_log_at(value: &Json, fallback: &str) -> (r: UsageLog)
    ensures
        r@ == old_log(value@, fallback@),
{
    let status: u64 = u64_field(value, "status");
    let cost = match value.number_at("cost") {
        Some(n) => n,
        None => Number::Unsigned(0),
    };
    let stream = match value.get("stream") {
        Some(b) => match b.as_bool() {
            Some(t) => t,
            None => false,
        },
        None => false,
    };
    UsageLog {
        timestamp: legacy_timestamp(value, fallback),
        request_id: string_field(value, "request_id"),
        model: string_field(value, "model"),
        key_name: string_field(value, "key_name"),
        input_tokens: u64_field(value, "input_tokens"),
        cached_tokens: u64_field(value, "cached_tokens"),
        cached_write_tokens: u64_field(value, "cached_write_tokens"),
        output_tokens: u64_field(value, "output_tokens"),
        cost,
        status: if status > 0xFFFF {
            0xFFFF
        } else {
            status as u16
        },
        duration_ms: u64_field(value, "duration_ms"),
        stream,
        user_agent: string_field(value, "user_agent"),
        error: string_field(value, "error"),
        path: string_field(value, "path"),
    }
}

/// An older record in the present form. One that names no time is dated now.
pub fn legacy_usage_log(value: &Json) -> (r: UsageLog)
    ensures
        exists|now: clock::Moment|
            (#[trigger] clock::rfc3339_of(now.secs, now.nanos)) is Some && r@ == old_log(
                value@,
                clock::rfc3339_of(now.secs, now.nanos)->0,
            ),
{
    let now = clock::now_text();
    legacy_usage_log_at(value, now.as_str())
}

// ---------------------------------------------------------------------------
// Budgets that may be spent
// ---------------------------------------------------------------------------

/// A budget whose use is watched.
#[derive(Debug)]
pub struct BudgetWatch {
    pub kind: String,
    pub name: String,
    pub budget: Number,
}

/// What a [`BudgetWatch`] holds.
#[verifier::ext_equal]
pub struct WatchView {
    pub kind: Seq<char>,
    pub name: Seq<char>,
    pub budget: Number,
}

impl View for BudgetWatch {
    type V = WatchView;

    open spec fn view(&self) -> WatchView {
        WatchView { kind: self.kind@, name: self.name@, budget: self.budget }
    }
}

/// What the watched budgets of a list hold.
pub open spec fn watches_of(v: Seq<BudgetWatch>) -> Seq<WatchView> {
    Seq::new(v.len(), |i: int| v[i]@)
}

/// A watched budget where there is one.
pub open spec fn watched(kind: Seq<char>, name: Seq<char>, budget: Option<Number>) -> Seq<
    WatchView,
> {
    match budget {
        Some(b) => seq![WatchView { kind, name, budget: b }],
        None => Seq::empty(),
    }
}

/// The budgets of the first `n` models that were used.
pub open spec fn model_watches(limits: json::JsonView, models: Seq<Seq<char>>, n: nat) -> Seq<
    WatchView,
>
    decreases n,
{
    if n == 0 {
        Seq::empty()
    } else {
        let m = models[n - 1];
        model_watches(limits, models, (n - 1) as nat) + watched(
            "model"@,
            m,
            json::number_of(limits.at2(m, "budget"@)),
        )
    }
}

/// The budgets of the first `n` keys, where the key was used.
pub open spec fn key_watches(
    ks: Seq<config::VirtualKeyView>,
    used: Seq<Seq<char>>,
    n: nat,
) -> Seq<WatchView>
    decreases n,
{
    if n == 0 {
        Seq::empty()
    } else {
        let k = ks[n - 1];
        key_watches(ks, used, (n - 1) as nat) + watched(
            "key"@,
            k.name,
            if used.contains(k.name) {
                k.budget
            } else {
                None
            },
        )
    }
}

/// The budgets that are watched: the one for everyone, those of the models that were used, and
/// those of the keys that were used.
pub open spec fn all_watches(
    c: config::ConfigView,
    models: Seq<Seq<char>>,
    used_keys: Seq<Seq<char>>,
) -> Seq<WatchView> {
    watched("global"@, "全局预算"@, json::number_of(c.limits.at2("global"@, "budget"@)))
        + model_watches(c.limits, models, models.len()) + key_watches(
        c.virtual_keys,
        used_keys,
        c.virtual_keys.len(),
    )
}

fn watch(list: &mut Vec<BudgetWatch>, kind: &str, name: &str, budget: Option<Number>)
    ensures
        watches_of(final(list)@) == watches_of(old(list)@) + watched(kind@, name@, budget),
{
    let ghost was = list@;
    if let Some(b) = budget {
        list.push(BudgetWatch { kind: kind.to_owned(), name: name.to_owned(), budget: b });
    }
    assert(watches_of(list@) =~= watches_of(was) + watched(kind@, name@, budget));
}

fn budget_at(limits: &Json, name: &str) -> (r: Option<Number>)
    ensures
        r == json::number_of(limits@.at2(name@, "budget"@)),
{
    match limits.get2(name, "budget") {
        Some(v) => v.as_number(),
        None => None,
    }
}

/// The budgets that are watched, given the models and the keys that were used.
pub fn build_budget_watches(
    cfg: &AppConfig,
    models: &Vec<String>,
    used_keys: &Vec<String>,
) -> (r: Vec<BudgetWatch>)
    ensures
        watches_of(r@) == all_watches(cfg@, text::texts(models@), text::texts(used_keys@)),
{
    let mut out: Vec<BudgetWatch> = Vec::new();
    assert(watches_of(out@) =~= Seq::empty());
    let global = budget_at(&cfg.limits, "global");
    watch(&mut out, "global", "全局预算", global);
    let ghost ms = text::texts(models@);
    let ghost head = watches_of(out@);
    assert(head =~= watched(
        "global"@,
        "全局预算"@,
        json::number_of(cfg@.limits.at2("global"@, "budget"@)),
    ));
    let n: usize = models.len();
    assert(head + model_watches(cfg@.limits, ms, 0) =~= head);
    for i in 0..n
        invariant
            n == models@.len(),
            ms == text::texts(models@),
            watches_of(out@) == head + model_watches(cfg@.limits, ms, i as nat),
    {
        assert(ms[i as int] == models@[i as int]@);
        let b = budget_at(&cfg.limits, models[i].as_str());
        watch(&mut out, "model", models[i].as_str(), b);
        assert(watches_of(out@) =~= head + model_watches(cfg@.limits, ms, (i + 1) as nat));
    }
    let ghost mid = watches_of(out@);
    let ghost ks = cfg@.virtual_keys;
    let ghost used = text::texts(used_keys@);
    let k: usize = cfg.virtual_keys.len();
    assert(mid + key_watches(ks, used, 0) =~= mid);
    for i in 0..k
        invariant
            k == cfg.virtual_keys@.len(),
            ks == config::keys_of(cfg.virtual_keys@),
            used == text::texts(used_keys@),
            watches_of(out@) == mid + key_watches(ks, used, i as nat),
    {
        let key = &cfg.virtual_keys[i];
        assert(ks[i as int] == key@);
        let b = if text::holds(used_keys, key.name.as_str()) {
            key.budget
        } else {
            None
        };
        watch(&mut out, "key", key.name.as_str(), b);
        assert(watches_of(out@) =~= mid + key_watches(ks, used, (i + 1) as nat));
    }
    out
}

// ---------------------------------------------------------------------------
// What is promised of pages, tables and records
// ---------------------------------------------------------------------------

/// A page that can be shown is shown as it was asked for, with from one to a hundred entries; there
/// are as many pages as the entries fill, and the entries before a page are those of the pages
/// before it.
pub proof fn law_pages_are_as_asked(page: u64, page_size: u64, total: u64)
    requires
        1 <= page,
        1 <= page_size <= 100,
        1 <= total <= u64::MAX - 100,
    ensures
        ({
            let (p, offset) = paged(page, page_size, total);
            &&& p.page == page
            &&& p.page_size == page_size
            &&& p.total == total
            &&& (p.total_pages - 1) * page_size < total <= p.total_pages * page_size
            &&& offset == (page - 1) * page_size
        }),
        paged(page, 0, total).0.page_size == 1,
        paged(page, page_size, 0).0.total_pages == 1,
        forall|size: u64| size > 100 ==> (#[trigger] paged(page, size, total)).0.page_size == 100,
{
    let t = total as int;
    let s = page_size as int;
    let n = (t + s - 1) / s;
    vstd::arithmetic::div_mod::lemma_fundamental_div_mod(t + s - 1, s);
    vstd::arithmetic::div_mod::lemma_mod_bound(t + s - 1, s);
    assert((n - 1) * s < t <= n * s && 1 <= n <= t) by (nonlinear_arith)
        requires
            t + s - 1 == s * n + (t + s - 1) % s,
            0 <= (t + s - 1) % s < s,
            t >= 1,
            s >= 1,
    ;
    vstd::arithmetic::div_mod::lemma_fundamental_div_mod(s - 1, s);
    assert((s - 1) / s == 0) by {
        vstd::arithmetic::div_mod::lemma_basic_div(s - 1, s);
    }
}

/// A text without a comma, a quote or the end of a line is its own cell; any other stands in quotes.
pub proof fn law_cells_are_quoted_if_they_must(s: Seq<char>)
    ensures
        !s.contains(',') && !s.contains('"') && !s.contains('\n') && !s.contains('\r') ==> cell(s)
            == s,
        s.contains(',') || s.contains('"') || s.contains('\n') || s.contains('\r') ==> {
            &&& cell(s).len() >= 2
            &&& cell(s)[0] == '"'
            &&& cell(s).last() == '"'
            &&& !s.contains('"') ==> cell(s) == seq!['"'] + s + seq!['"']
        },
{
    reveal_strlit("\"");
    assert("\""@ =~= seq!['"']);
    lemma_nothing_doubled(s);
}

proof fn lemma_nothing_doubled(s: Seq<char>)
    ensures
        !s.contains('"') ==> text::doubled(s, '"') == s,
    decreases s.len(),
{
    if s.len() > 0 && !s.contains('"') {
        let init = s.drop_last();
        assert(s[s.len() - 1] != '"');
        assert(!init.contains('"')) by {
            if init.contains('"') {
                let i = choose|i: int| 0 <= i < init.len() && init[i] == '"';
                assert(s[i] == '"');
            }
        }
        lemma_nothing_doubled(init);
        assert(init.push(s.last()) =~= s);
    }
}

/// The names of the columns of the table.
pub open spec fn columns() -> Seq<Seq<char>> {
    seq![
        "timestamp"@,
        "model"@,
        "key_name"@,
        "input_tokens"@,
        "cached_tokens"@,
        "cached_write_tokens"@,
        "output_tokens"@,
        "cost"@,
        "status"@,
        "duration_ms"@,
        "stream"@,
        "request_id"@,
        "user_agent"@,
        "error"@,
        "path"@,
    ]
}

/// A line of the table has under each column what the record says of it, as the first line names
/// the columns.
pub proof fn law_rows_follow_the_columns(e: UsageLogView, cost: Seq<char>, k: int)
    requires
        0 <= k < 15,
    ensures
        ({
            let x = row_cells(e, cost)[k];
            let name = columns()[k];
            &&& row_cells(e, cost).len() == columns().len()
            &&& row(e, cost) == text::joined(row_cells(e, cost), ","@) + "\n"@
            &&& k == 0 ==> name == "timestamp"@ && x == cell(e.timestamp)
            &&& k == 1 ==> name == "model"@ && x == cell(e.model)
            &&& k == 2 ==> name == "key_name"@ && x == cell(e.key_name)
            &&& k == 3 ==> name == "input_tokens"@ && x == decimal::decimal(e.input_tokens as nat)
            &&& k == 4 ==> name == "cached_tokens"@ && x == decimal::decimal(e.cached_tokens as nat)
            &&& k == 5 ==> name == "cached_write_tokens"@ && x == decimal::decimal(
                e.cached_write_tokens as nat,
            )
            &&& k == 6 ==> name == "output_tokens"@ && x == decimal::decimal(e.output_tokens as nat)
            &&& k == 7 ==> name == "cost"@ && x == cost
            &&& k == 8 ==> name == "status"@ && x == decimal::decimal(e.status as nat)
            &&& k == 9 ==> name == "duration_ms"@ && x == decimal::decimal(e.duration_ms as nat)
            &&& k == 10 && e.stream ==> name == "stream"@ && x == "true"@
            &&& k == 10 && !e.stream ==> name == "stream"@ && x == "false"@
            &&& k == 11 ==> name == "request_id"@ && x == cell(e.request_id)
            &&& k == 12 ==> name == "user_agent"@ && x == cell(e.user_agent)
            &&& k == 13 ==> name == "error"@ && x == cell(e.error)
            &&& k == 14 ==> name == "path"@ && x == cell(e.path)
        }),
{
}

/// The lines of a file are those that are not blank, without the whitespace around them, in their
/// order.
pub proof fn law_lines_that_hold_something_are_kept(parts: Seq<Seq<char>>, line: Seq<char>)
    ensures
        !text::blank(line) ==> full_lines(parts.push(line)) == full_lines(parts).push(
            text::trimmed(line),
        ),
        text::blank(line) ==> full_lines(parts.push(line)) == full_lines(parts),
        full_lines(Seq::empty()).len() == 0,
{
    assert(parts.push(line).drop_last() =~= parts);
}

/// An older record is taken over field by field; a field that is missing counts as empty or zero,
/// and a status that is too great as the greatest.
pub proof fn law_older_records_are_taken_over(
    v: json::JsonView,
    fallback: Seq<char>,
    s: Seq<char>,
    n: u64,
    b: bool,
    cost: Number,
)
    ensures
        ({
            let r = old_log(v, fallback);
            let words = Some(json::JsonView::Text(s));
            let count = Some(json::JsonView::Number(Number::Unsigned(n)));
            &&& v.at("request_id"@) == words ==> r.request_id == s
            &&& v.at("model"@) == words ==> r.model == s
            &&& v.at("key_name"@) == words ==> r.key_name == s
            &&& v.at("user_agent"@) == words ==> r.user_agent == s
            &&& v.at("error"@) == words ==> r.error == s
            &&& v.at("path"@) == words ==> r.path == s
            &&& v.at("input_tokens"@) == count ==> r.input_tokens == n
            &&& v.at("cached_tokens"@) == count ==> r.cached_tokens == n
            &&& v.at("cached_write_tokens"@) == count ==> r.cached_write_tokens == n
            &&& v.at("output_tokens"@) == count ==> r.output_tokens == n
            &&& v.at("duration_ms"@) == count ==> r.duration_ms == n
            &&& v.at("status"@) == count && n <= 0xFFFF ==> r.status == n
            &&& v.at("status"@) == count && n > 0xFFFF ==> r.status == 0xFFFF
            &&& v.at("cost"@) == Some(json::JsonView::Number(cost)) ==> r.cost == cost
            &&& v.at("stream"@) == Some(json::JsonView::Bool(b)) ==> r.stream == b
            &&& v.at("request_id"@) is None ==> r.request_id.len() == 0
            &&& v.at("model"@) is None ==> r.model.len() == 0
            &&& v.at("key_name"@) is None ==> r.key_name.len() == 0
            &&& v.at("user_agent"@) is None ==> r.user_agent.len() == 0
            &&& v.at("error"@) is None ==> r.error.len() == 0
            &&& v.at("path"@) is None ==> r.path.len() == 0
            &&& v.at("input_tokens"@) is None ==> r.input_tokens == 0
            &&& v.at("cached_tokens"@) is None ==> r.cached_tokens == 0
            &&& v.at("cached_write_tokens"@) is None ==> r.cached_write_tokens == 0
            &&& v.at("output_tokens"@) is None ==> r.output_tokens == 0
            &&& v.at("duration_ms"@) is None ==> r.duration_ms == 0
            &&& v.at("status"@) is None ==> r.status == 0
            &&& v.at("cost"@) is None ==> r.cost == Number::Unsigned(0)
            &&& v.at("stream"@) is None ==> !r.stream
        }),
{
}

/// The time of an older record is the one that it names: as a text, else in milliseconds, first the
/// time itself, then that of the last of several requests, then that of the first; else it is the
/// one given.
pub proof fn law_older_records_keep_their_time(
    v: json::JsonView,
    fallback: Seq<char>,
    t: Seq<char>,
    millis: u64,
    shown: Seq<char>,
    m: clock::Moment,
)
    requires
        millis <= i64::MAX,
        m == clock::millis_moment(millis as i64),
        clock::rfc3339_of(m.secs, m.nanos) == Some(shown),
    ensures
        ({
            let r = old_log(v, fallback).timestamp;
            let at_that_time = Some(json::JsonView::Number(Number::Unsigned(millis)));
            &&& v.at("timestamp"@) == Some(json::JsonView::Text(t)) && !text::blank(t) ==> r == t
            &&& v.at("timestamp"@) == at_that_time ==> r == shown
            &&& v.at("timestamp"@) is None && v.at("last_timestamp"@) == at_that_time ==> r == shown
            &&& v.at("timestamp"@) is None && v.at("last_timestamp"@) is None && v.at(
                "first_timestamp"@,
            ) == at_that_time ==> r == shown
            &&& v.at("timestamp"@) is None && v.at("last_timestamp"@) is None && v.at(
                "first_timestamp"@,
            ) is None ==> r == fallback
        }),
{
    assert(text::blank(Seq::<char>::empty()));
}

proof fn lemma_model_watched(limits: json::JsonView, models: Seq<Seq<char>>, n: nat, i: int)
    requires
        0 <= i < n <= models.len(),
        json::number_of(limits.at2(models[i], "budget"@)) is Some,
    ensures
        model_watches(limits, models, n).contains(
            WatchView {
                kind: "model"@,
                name: models[i],
                budget: json::number_of(limits.at2(models[i], "budget"@))->0,
            },
        ),
    decreases n,
{
    let before = model_watches(limits, models, (n - 1) as nat);
    let own = watched(
        "model"@,
        models[n - 1],
        json::number_of(limits.at2(models[n - 1], "budget"@)),
    );
    let x = WatchView {
        kind: "model"@,
        name: models[i],
        budget: json::number_of(limits.at2(models[i], "budget"@))->0,
    };
    let all = model_watches(limits, models, n);
    assert(all == before + own);
    if i == n - 1 {
        assert(all[before.len() as int] == own[0]);
    } else {
        lemma_model_watched(limits, models, (n - 1) as nat, i);
        let k = choose|k: int| 0 <= k < before.len() && before[k] == x;
        assert(all[k] == x);
    }
}

proof fn lemma_key_watched(
    ks: Seq<config::VirtualKeyView>,
    used: Seq<Seq<char>>,
    n: nat,
    i: int,
)
    requires
        0 <= i < n <= ks.len(),
        used.contains(ks[i].name),
        ks[i].budget is Some,
    ensures
        key_watches(ks, used, n).contains(
            WatchView { kind: "key"@, name: ks[i].name, budget: ks[i].budget->0 },
        ),
    decreases n,
{
    let before = key_watches(ks, used, (n - 1) as nat);
    let x = WatchView { kind: "key"@, name: ks[i].name, budget: ks[i].budget->0 };
    let all = key_watches(ks, used, n);
    if i == n - 1 {
        assert(all[before.len() as int] == x);
    } else {
        lemma_key_watched(ks, used, (n - 1) as nat, i);
        let k = choose|k: int| 0 <= k < before.len() && before[k] == x;
        assert(all[k] == x);
    }
}

/// Each budget that is in use is watched: the one for everyone, that of each model that was used, and
/// that of each key that was used.
pub proof fn law_budgets_in_use_are_watched(
    c: config::ConfigView,
    models: Seq<Seq<char>>,
    used: Seq<Seq<char>>,
    i: int,
    b: Number,
)
    ensures
        ({
            let list = all_watches(c, models, used);
            let amount = Some(json::JsonView::Number(b));
            &&& c.limits.at2("global"@, "budget"@) == amount ==> list.contains(
                WatchView { kind: "global"@, name: "全局预算"@, budget: b },
            )
            &&& 0 <= i < models.len() && c.limits.at2(models[i], "budget"@) == amount
                ==> list.contains(WatchView { kind: "model"@, name: models[i], budget: b })
            &&& 0 <= i < c.virtual_keys.len() && used.contains(c.virtual_keys[i].name)
                && c.virtual_keys[i].budget == Some(b) ==> list.contains(
                WatchView { kind: "key"@, name: c.virtual_keys[i].name, budget: b },
            )
        }),
{
    let everyone = watched(
        "global"@,
        "全局预算"@,
        json::number_of(c.limits.at2("global"@, "budget"@)),
    );
    let of_models = model_watches(c.limits, models, models.len());
    let of_keys = key_watches(c.virtual_keys, used, c.virtual_keys.len());
    let list = all_watches(c, models, used);
    assert(list == everyone + of_models + of_keys);
    let amount = Some(json::JsonView::Number(b));
    if c.limits.at2("global"@, "budget"@) == amount {
        assert(list[0] == everyone[0]);
    }
    if 0 <= i < models.len() && c.limits.at2(models[i], "budget"@) == amount {
        lemma_model_watched(c.limits, models, models.len(), i);
        let x = WatchView { kind: "model"@, name: models[i], budget: b };
        let k = choose|k: int| 0 <= k < of_models.len() && of_models[k] == x;
        assert(list[everyone.len() + k] == x);
    }
    if 0 <= i < c.virtual_keys.len() && used.contains(c.virtual_keys[i].name)
        && c.virtual_keys[i].budget == Some(b) {
        lemma_key_watched(c.virtual_keys, used, c.virtual_keys.len(), i);
        let x = WatchView { kind: "key"@, name: c.virtual_keys[i].name, budget: b };
        let k = choose|k: int| 0 <= k < of_keys.len() && of_keys[k] == x;
        assert(list[everyone.len() + of_models.len() + k] == x);
    }
}

/// Whether a watched budget is one that is in use.
pub open spec fn is_in_use(
    c: config::ConfigView,
    models: Seq<Seq<char>>,
    used: Seq<Seq<char>>,
    x: WatchView,
) -> bool {
    let amount = Some(json::JsonView::Number(x.budget));
    ||| x.kind == "global"@ && c.limits.at2("global"@, "budget"@) == amount
    ||| x.kind == "model"@ && models.contains(x.name) && c.limits.at2(x.name, "budget"@) == amount
    ||| x.kind == "key"@ && used.contains(x.name) && exists|i: int|
        0 <= i < c.virtual_keys.len() && (#[trigger] c.virtual_keys[i]).name == x.name
            && c.virtual_keys[i].budget == Some(x.budget)
}

proof fn lemma_models_in_use(
    c: config::ConfigView,
    models: Seq<Seq<char>>,
    used: Seq<Seq<char>>,
    n: nat,
    k: int,
)
    requires
        n <= models.len(),
        0 <= k < model_watches(c.limits, models, n).len(),
    ensures
        is_in_use(c, models, used, model_watches(c.limits, models, n)[k]),
    decreases n,
{
    let before = model_watches(c.limits, models, (n - 1) as nat);
    if k < before.len() {
        lemma_models_in_use(c, models, used, (n - 1) as nat, k);
    } else {
        assert(models.contains(models[n - 1]));
    }
}

proof fn lemma_keys_in_use(
    c: config::ConfigView,
    models: Seq<Seq<char>>,
    used: Seq<Seq<char>>,
    n: nat,
    k: int,
)
    requires
        n <= c.virtual_keys.len(),
        0 <= k < key_watches(c.virtual_keys, used, n).len(),
    ensures
        is_in_use(c, models, used, key_watches(c.virtual_keys, used, n)[k]),
    decreases n,
{
    let before = key_watches(c.virtual_keys, used, (n - 1) as nat);
    if k < before.len() {
        lemma_keys_in_use(c, models, used, (n - 1) as nat, k);
    } else {
        let x = key_watches(c.virtual_keys, used, n)[k];
        assert(c.virtual_keys[n - 1].name == x.name);
    }
}

/// No other budget is watched.
pub proof fn law_no_other_budgets_are_watched(
    c: config::ConfigView,
    models: Seq<Seq<char>>,
    used: Seq<Seq<char>>,
    k: int,
)
    requires
        0 <= k < all_watches(c, models, used).len(),
    ensures
        is_in_use(c, models, used, all_watches(c, models, used)[k]),
{
    let everyone = watched(
        "global"@,
        "全局预算"@,
        json::number_of(c.limits.at2("global"@, "budget"@)),
    );
    let of_models = model_watches(c.limits, models, models.len());
    let of_keys = key_watches(c.virtual_keys, used, c.virtual_keys.len());
    let list = all_watches(c, models, used);
    assert(list == everyone + of_models + of_keys);
    if k < everyone.len() {
        assert(list[k] == everyone[k]);
    } else if k < everyone.len() + of_models.len() {
        assert(list[k] == of_models[k - everyone.len()]);
        lemma_models_in_use(c, models, used, models.len(), k - everyone.len());
    } else {
        assert(list[k] == of_keys[k - everyone.len() - of_models.len()]);
        lemma_keys_in_use(
            c,
            models,
            used,
            c.virtual_keys.len(),
            k - everyone.len() - of_models.len(),
        );
    }
}

/// The first line of the table names the columns.
pub proof fn law_header_names_the_columns()
    ensures
        CSV_HEADER@ == text::joined(columns(), ","@) + "\n"@,
{
    reveal_strlit(
        "timestamp,model,key_name,input_tokens,cached_tokens,cached_write_tokens,output_tokens,cost,status,duration_ms,stream,request_id,user_agent,error,path\n",
    );
    reveal_strlit(",");
    reveal_strlit("\n");
    reveal_strlit("timestamp");
    reveal_strlit("model");
    reveal_strlit("key_name");
    reveal_strlit("input_tokens");
    reveal_strlit("cached_tokens");
    reveal_strlit("cached_write_tokens");
    reveal_strlit("output_tokens");
    reveal_strlit("cost");
    reveal_strlit("status");
    reveal_strlit("duration_ms");
    reveal_strlit("stream");
    reveal_strlit("request_id");
    reveal_strlit("user_agent");
    reveal_strlit("error");
    reveal_strlit("path");
    let all = columns();
    let sep = ","@;
    assert(text::joined(all.take(1), sep) =~= all[0]);
    lemma_joined_next(all, sep, 1);
    lemma_joined_next(all, sep, 2);
    lemma_joined_next(all, sep, 3);
    lemma_joined_next(all, sep, 4);
    lemma_joined_next(all, sep, 5);
    lemma_joined_next(all, sep, 6);
    lemma_joined_next(all, sep, 7);
    lemma_joined_next(all, sep, 8);
    lemma_joined_next(all, sep, 9);
    lemma_joined_next(all, sep, 10);
    lemma_joined_next(all, sep, 11);
    lemma_joined_next(all, sep, 12);
    lemma_joined_next(all, sep, 13);
    lemma_joined_next(all, sep, 14);
    assert(all.take(15) =~= all);
    assert(CSV_HEADER@ =~= text::joined(all, sep) + "\n"@);
}

proof fn lemma_joined_next(parts: Seq<Seq<char>>, sep: Seq<char>, n: int)
    requires
        1 <= n < parts.len(),
    ensures
        text::joined(parts.take(n + 1), sep) == text::joined(parts.take(n), sep) + sep + parts[n],
{
    assert(parts.take(n + 1).drop_last() =~= parts.take(n));
}

} // verus!
