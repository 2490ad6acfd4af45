//! Operations on text, stated over the sequence of characters that a string holds.
use vstd::prelude::*;
use vstd::string::*;
use vstd::utf8::*;

verus! {

/// `String::push` of std: appends one character to the end of the string.
pub assume_specification[ String::push ](s: &mut String, c: char)
    ensures
        final(s)@ == old(s)@.push(c),
;

/// The texts that a sequence of strings holds.
pub open spec fn texts(v: Seq<String>) -> Seq<Seq<char>> {
    Seq::new(v.len(), |i: int| v[i]@)
}

/// The text that an optional string holds.
pub open spec fn opt_text(o: Option<String>) -> Option<Seq<char>> {
    match o {
        Some(s) => Some(s@),
        None => None,
    }
}

/// The text that an optional borrowed string holds.
pub open spec fn opt_str(o: Option<&str>) -> Option<Seq<char>> {
    match o {
        Some(s) => Some(s@),
        None => None,
    }
}

/// The optional text, or the empty text where there is none.
pub open spec fn or_empty(o: Option<Seq<char>>) -> Seq<char> {
    match o {
        Some(s) => s,
        None => Seq::empty(),
    }
}

/// The characters of `s`, in order.
pub fn chars_of(s: &str) -> (r: Vec<char>)
    ensures
        r@ == s@,
{
    let mut out: Vec<char> = Vec::new();
    for c in it: s.chars()
        invariant
            out@ == s@.take(it.index()),
            it.seq() == s@,
    {
        out.push(c);
        assert(s@.take(it.index() + 1) =~= s@.take(it.index()).push(c));
    }
    assert(s@.take(s@.len() as int) =~= s@);
    out
}

/// The text made of the characters `from..to` of `chars`.
pub fn slice_text(chars: &Vec<char>, from: usize, to: usize) -> (r: String)
    requires
        from <= to <= chars@.len(),
    ensures
        r@ == chars@.subrange(from as int, to as int),
{
    let mut out = String::new();
    let mut i: usize = from;
    while i < to
        invariant
            from <= i <= to <= chars@.len(),
            out@ == chars@.subrange(from as int, i as int),
        decreases to - i,
    {
        out.push(chars[i]);
        i = i + 1;
        assert(chars@.subrange(from as int, i as int) =~= chars@.subrange(
            from as int,
            i - 1,
        ).push(chars@[i - 1]));
    }
    out
}

/// Whether the two texts hold the same characters.
pub fn same(a: &str, b: &str) -> (r: bool)
    ensures
        r == (a@ == b@),
{
    a.to_owned() == b.to_owned()
}

/// Whether `list` holds the text `s`.
pub fn holds(list: &Vec<String>, s: &str) -> (r: bool)
    ensures
        r == texts(list@).contains(s@),
{
    let n: usize = list.len();
    for i in 0..n
        invariant
            n == list@.len(),
            forall|j: int| 0 <= j < i ==> (#[trigger] list@[j])@ != s@,
    {
        if same(list[i].as_str(), s) {
            assert(texts(list@)[i as int] == s@);
            return true;
        }
    }
    assert forall|j: int| 0 <= j < texts(list@).len() implies texts(list@)[j] != s@ by {
        assert(texts(list@)[j] == list@[j]@);
    }
    false
}

/// The two texts in a row.
pub fn cat(a: &str, b: &str) -> (r: String)
    ensures
        r@ == a@ + b@,
{
    a.to_owned().concat(b)
}

/// The three texts in a row.
pub fn cat3(a: &str, b: &str, c: &str) -> (r: String)
    ensures
        r@ == a@ + b@ + c@,
{
    a.to_owned().concat(b).concat(c)
}

/// The four texts in a row.
pub fn cat4(a: &str, b: &str, c: &str, d: &str) -> (r: String)
    ensures
        r@ == a@ + b@ + c@ + d@,
{
    a.to_owned().concat(b).concat(c).concat(d)
}

/// The five texts in a row.
pub fn cat5(a: &str, b: &str, c: &str, d: &str, e: &str) -> (r: String)
    ensures
        r@ == a@ + b@ + c@ + d@ + e@,
{
    a.to_owned().concat(b).concat(c).concat(d).concat(e)
}

/// A list with one more string holds one text more.
pub proof fn lemma_texts_push(v: Seq<String>, x: String)
    ensures
        texts(v.push(x)) == texts(v).push(x@),
{
    assert(texts(v.push(x)) =~= texts(v).push(x@));
}

/// Whether the two lists hold the same texts in the same order.
pub fn same_list(a: &Vec<String>, b: &Vec<String>) -> (r: bool)
    ensures
        r == (texts(a@) == texts(b@)),
{
    let n: usize = a.len();
    if n != b.len() {
        assert(texts(a@).len() != texts(b@).len());
        return false;
    }
    for i in 0..n
        invariant
            n == a@.len(),
            n == b@.len(),
            forall|j: int| 0 <= j < i ==> (#[trigger] a@[j])@ == b@[j]@,
    {
        if !same(a[i].as_str(), b[i].as_str()) {
            assert(texts(a@)[i as int] != texts(b@)[i as int]);
            return false;
        }
    }
    assert(texts(a@) =~= texts(b@));
    true
}

/// A copy of the list of strings.
pub fn copy_texts(list: &Vec<String>) -> (r: Vec<String>)
    ensures
        texts(r@) == texts(list@),
{
    let mut out: Vec<String> = Vec::new();
    let n: usize = list.len();
    for i in 0..n
        invariant
            n == list@.len(),
            out@.len() == i,
            forall|j: int| 0 <= j < i ==> (#[trigger] out@[j])@ == list@[j]@,
    {
        out.push(list[i].clone());
    }
    assert(texts(out@) =~= texts(list@));
    out
}

/// A copy of the optional string.
pub fn copy_opt(o: &Option<String>) -> (r: Option<String>)
    ensures
        opt_text(r) == opt_text(*o),
{
    match o {
        Some(s) => Some(s.clone()),
        None => None,
    }
}

// ---------------------------------------------------------------------------
// Whitespace
// ---------------------------------------------------------------------------

/// The characters with the Unicode property `White_Space`.
pub open spec fn is_white(c: char) -> bool {
    let u = c as u32;
    ||| 0x9 <= u <= 0xD
    ||| u == 0x20
    ||| u == 0x85
    ||| u == 0xA0
    ||| u == 0x1680
    ||| 0x2000 <= u <= 0x200A
    ||| u == 0x2028
    ||| u == 0x2029
    ||| u == 0x202F
    ||| u == 0x205F
    ||| u == 0x3000
}

/// `s` without its leading whitespace.
pub open spec fn trim_start(s: Seq<char>) -> Seq<char>
    decreases s.len(),
{
    if s.len() > 0 && is_white(s[0]) {
        trim_start(s.skip(1))
    } else {
        s
    }
}

/// `s` without its trailing whitespace.
pub open spec fn trim_end(s: Seq<char>) -> Seq<char>
    decreases s.len(),
{
    if s.len() > 0 && is_white(s.last()) {
        trim_end(s.drop_last())
    } else {
        s
    }
}

/// `s` without the whitespace at its two ends.
pub open spec fn trimmed(s: Seq<char>) -> Seq<char> {
    trim_end(trim_start(s))
}

/// Whether nothing is left of `s` once its whitespace is trimmed.
pub open spec fn blank(s: Seq<char>) -> bool {
    trimmed(s).len() == 0
}

/// Whether `c` is whitespace.
pub fn white(c: char) -> (r: bool)
    ensures
        r == is_white(c),
{
    let u: u32 = c as u32;
    (0x9 <= u && u <= 0xD) || u == 0x20 || u == 0x85 || u == 0xA0 || u == 0x1680 || (0x2000 <= u
        && u <= 0x200A) || u == 0x2028 || u == 0x2029 || u == 0x202F || u == 0x205F || u == 0x3000
}

proof fn lemma_trim_start(s: Seq<char>, i: int)
    requires
        0 <= i <= s.len(),
        forall|k: int| 0 <= k < i ==> is_white(#[trigger] s[k]),
        i == s.len() || !is_white(s[i]),
    ensures
        trim_start(s) == s.skip(i),
    decreases i,
{
    if i == 0 {
        assert(s.skip(0) =~= s);
    } else {
        assert(is_white(s[0]));
        let t = s.skip(1);
        assert forall|k: int| 0 <= k < i - 1 implies is_white(#[trigger] t[k]) by {
            assert(t[k] == s[k + 1]);
        }
        lemma_trim_start(t, i - 1);
        assert(t.skip(i - 1) =~= s.skip(i));
    }
}

proof fn lemma_trim_end(s: Seq<char>, j: int)
    requires
        0 <= j <= s.len(),
        forall|k: int| j <= k < s.len() ==> is_white(#[trigger] s[k]),
        j == 0 || !is_white(s[j - 1]),
    ensures
        trim_end(s) == s.take(j),
    decreases s.len(),
{
    if j == s.len() {
        assert(s.take(j) =~= s);
    } else {
        assert(is_white(s[s.len() - 1]));
        lemma_trim_end(s.drop_last(), j);
        assert(s.drop_last().take(j) =~= s.take(j));
    }
}

/// The text without the whitespace at its two ends, as `str::trim` gives it.
pub fn trim(s: &str) -> (r: String)
    ensures
        r@ == trimmed(s@),
{
    let chars = chars_of(s);
    let n: usize = chars.len();
    let mut i: usize = 0;
    while i < n && white(chars[i])
        invariant
            n == chars@.len(),
            i <= n,
            forall|k: int| 0 <= k < i ==> is_white(#[trigger] chars@[k]),
        decreases n - i,
    {
        i = i + 1;
    }
    let mut j: usize = n;
    while j > i && white(chars[j - 1])
        invariant
            n == chars@.len(),
            i <= j <= n,
            forall|k: int| j <= k < n ==> is_white(#[trigger] chars@[k]),
        decreases j,
    {
        j = j - 1;
    }
    proof {
        let t = chars@.skip(i as int);
        lemma_trim_start(chars@, i as int);
        assert forall|k: int| j - i <= k < t.len() implies is_white(#[trigger] t[k]) by {
            assert(t[k] == chars@[k + i]);
        }
        if j > i {
            assert(t[j - i - 1] == chars@[j - 1]);
        }
        lemma_trim_end(t, j - i);
        assert(t.take(j - i) =~= chars@.subrange(i as int, j as int));
    }
    slice_text(&chars, i, j)
}

/// A text without whitespace at its ends is left as it is.
pub proof fn lemma_trimmed_same(s: Seq<char>)
    requires
        s.len() > 0,
        !is_white(s[0]),
        !is_white(s.last()),
    ensures
        trimmed(s) == s,
{
}

proof fn lemma_trim_start_keeps_end(s: Seq<char>)
    requires
        s.len() > 0,
        !is_white(s.last()),
    ensures
        trim_start(s).len() > 0,
        trim_start(s).last() == s.last(),
    decreases s.len(),
{
    if is_white(s[0]) {
        lemma_trim_start_keeps_end(s.skip(1));
    }
}

/// A text that ends in something else than whitespace is not blank.
pub proof fn lemma_visible_end(s: Seq<char>)
    requires
        s.len() > 0,
        !is_white(s.last()),
    ensures
        !blank(s),
{
    lemma_trim_start_keeps_end(s);
}

/// Trimming makes no text longer.
pub proof fn lemma_trimmed_len(s: Seq<char>)
    ensures
        trimmed(s).len() <= s.len(),
{
    lemma_trim_start_len(s);
    lemma_trim_end_len(trim_start(s));
}

proof fn lemma_trim_start_len(s: Seq<char>)
    ensures
        trim_start(s).len() <= s.len(),
    decreases s.len(),
{
    if s.len() > 0 {
        lemma_trim_start_len(s.skip(1));
    }
}

proof fn lemma_trim_end_len(s: Seq<char>)
    ensures
        trim_end(s).len() <= s.len(),
    decreases s.len(),
{
    if s.len() > 0 {
        lemma_trim_end_len(s.drop_last());
    }
}

/// Whether the text holds nothing but whitespace.
pub fn is_blank(s: &str) -> (r: bool)
    ensures
        r == blank(s@),
{
    trim(s).as_str().is_empty()
}

// ---------------------------------------------------------------------------
// Prefixes, suffixes and occurrences
// ---------------------------------------------------------------------------

/// Whether `sub` stands in `s` at position `i`.
pub open spec fn occurs_at(s: Seq<char>, sub: Seq<char>, i: int) -> bool {
    &&& 0 <= i
    &&& i + sub.len() <= s.len()
    &&& s.subrange(i, i + sub.len()) == sub
}

/// Whether `sub` stands somewhere in `s`.
pub open spec fn includes(s: Seq<char>, sub: Seq<char>) -> bool {
    exists|i: int| #[trigger] occurs_at(s, sub, i)
}

/// Whether `s` begins with `p`.
pub open spec fn begins(s: Seq<char>, p: Seq<char>) -> bool {
    p.len() <= s.len() && s.take(p.len() as int) == p
}

/// Whether `s` ends with `p`.
pub open spec fn ends(s: Seq<char>, p: Seq<char>) -> bool {
    p.len() <= s.len() && s.skip(s.len() - p.len()) == p
}

/// What follows the prefix `p` in `s`, where `s` begins with it.
pub open spec fn after_prefix(s: Seq<char>, p: Seq<char>) -> Option<Seq<char>> {
    if begins(s, p) {
        Some(s.skip(p.len() as int))
    } else {
        None
    }
}

fn matches_at(s: &Vec<char>, sub: &Vec<char>, at: usize) -> (r: bool)
    ensures
        r == occurs_at(s@, sub@, at as int),
{
    let n: usize = s.len();
    let m: usize = sub.len();
    if at > n || m > n - at {
        return false;
    }
    for k in 0..m
        invariant
            n == s@.len(),
            m == sub@.len(),
            at + m <= n,
            forall|j: int| 0 <= j < k ==> s@[at + j] == #[trigger] sub@[j],
    {
        if s[at + k] != sub[k] {
            assert(s@.subrange(at as int, at + m)[k as int] != sub@[k as int]);
            return false;
        }
    }
    assert(s@.subrange(at as int, at + m) =~= sub@);
    true
}

/// Whether the text begins with `p`.
pub fn starts_with(s: &str, p: &str) -> (r: bool)
    ensures
        r == begins(s@, p@),
{
    let a = chars_of(s);
    let b = chars_of(p);
    assert(p@.len() <= s@.len() ==> s@.subrange(0, p@.len() as int) =~= s@.take(p@.len() as int));
    matches_at(&a, &b, 0)
}

/// Whether the text ends with `p`.
pub fn ends_with(s: &str, p: &str) -> (r: bool)
    ensures
        r == ends(s@, p@),
{
    let a = chars_of(s);
    let b = chars_of(p);
    if b.len() > a.len() {
        return false;
    }
    assert(s@.subrange(s@.len() - p@.len(), s@.len() as int) =~= s@.skip(s@.len() - p@.len()));
    matches_at(&a, &b, a.len() - b.len())
}

/// What follows the prefix `p`, where the text begins with it.
pub fn strip_prefix(s: &str, p: &str) -> (r: Option<String>)
    ensures
        opt_text(r) == after_prefix(s@, p@),
{
    if starts_with(s, p) {
        let a = chars_of(s);
        let b = chars_of(p);
        assert(s@.subrange(p@.len() as int, s@.len() as int) =~= s@.skip(p@.len() as int));
        Some(slice_text(&a, b.len(), a.len()))
    } else {
        None
    }
}

/// What stands before the suffix `p`, where the text ends with it.
pub fn strip_suffix(s: &str, p: &str) -> (r: Option<String>)
    ensures
        opt_text(r) == (if ends(s@, p@) {
            Some(s@.take(s@.len() - p@.len()))
        } else {
            None
        }),
{
    if ends_with(s, p) {
        let a = chars_of(s);
        let b = chars_of(p);
        assert(s@.subrange(0, s@.len() - p@.len()) =~= s@.take(s@.len() - p@.len()));
        Some(slice_text(&a, 0, a.len() - b.len()))
    } else {
        None
    }
}

/// Whether `sub` stands somewhere in the text.
pub fn contains(s: &str, sub: &str) -> (r: bool)
    ensures
        r == includes(s@, sub@),
{
    let a = chars_of(s);
    let b = chars_of(sub);
    let n: usize = a.len();
    let mut i: usize = 0;
    while i < n
        invariant
            n == a@.len(),
            a@ == s@,
            b@ == sub@,
            i <= n,
            forall|j: int| 0 <= j < i ==> !#[trigger] occurs_at(s@, sub@, j),
        decreases n - i,
    {
        if matches_at(&a, &b, i) {
            return true;
        }
        i = i + 1;
    }
    let last = matches_at(&a, &b, n);
    assert(last == occurs_at(s@, sub@, n as int));
    assert forall|j: int| #[trigger] occurs_at(s@, sub@, j) implies last by {
        assert(j <= n);
    }
    last
}

/// Whether the character stands somewhere in the text.
pub fn contains_char(s: &str, c: char) -> (r: bool)
    ensures
        r == s@.contains(c),
{
    let a = chars_of(s);
    let n: usize = a.len();
    for i in 0..n
        invariant
            n == a@.len(),
            a@ == s@,
            forall|j: int| 0 <= j < i ==> a@[j] != c,
    {
        if a[i] == c {
            assert(s@[i as int] == c);
            return true;
        }
    }
    false
}

// ---------------------------------------------------------------------------
// Splitting
// ---------------------------------------------------------------------------

/// Where `c` stands first in `s`; the length of `s` where it does not.
pub open spec fn first_at(s: Seq<char>, c: char) -> int
    decreases s.len(),
{
    if s.len() == 0 || s[0] == c {
        0
    } else {
        1 + first_at(s.skip(1), c)
    }
}

/// What stands before the first `c` of `s`: all of it where there is none.
pub open spec fn before(s: Seq<char>, c: char) -> Seq<char> {
    s.take(first_at(s, c))
}

/// The pieces of `s` between the occurrences of `c`.
pub open spec fn split_on(s: Seq<char>, c: char) -> Seq<Seq<char>>
    decreases s.len(),
{
    let k = first_at(s, c);
    if 0 <= k < s.len() {
        seq![s.take(k)] + split_on(s.skip(k + 1), c)
    } else {
        seq![s]
    }
}

/// `first_at` is the place of the first occurrence.
pub proof fn lemma_first_at(s: Seq<char>, c: char)
    ensures
        0 <= first_at(s, c) <= s.len(),
        forall|j: int| 0 <= j < first_at(s, c) ==> s[j] != c,
        first_at(s, c) < s.len() ==> s[first_at(s, c)] == c,
        s.contains(c) == (first_at(s, c) < s.len()),
    decreases s.len(),
{
    if s.len() == 0 || s[0] == c {
    } else {
        lemma_first_at(s.skip(1), c);
        let k = first_at(s.skip(1), c);
        assert forall|j: int| 0 <= j < 1 + k implies s[j] != c by {
            if j > 0 {
                assert(s.skip(1)[j - 1] == s[j]);
            }
        }
        if k < s.skip(1).len() {
            assert(s.skip(1)[k] == s[k + 1]);
        }
        if s.contains(c) {
            let j = choose|j: int| 0 <= j < s.len() && s[j] == c;
            assert(s.skip(1)[j - 1] == c);
        }
    }
}

proof fn lemma_first_at_is(s: Seq<char>, c: char, i: int)
    requires
        0 <= i <= s.len(),
        forall|j: int| 0 <= j < i ==> s[j] != c,
        i == s.len() || s[i] == c,
    ensures
        first_at(s, c) == i,
{
    lemma_first_at(s, c);
    let k = first_at(s, c);
    if k < i {
        assert(s[k] == c);
    } else if i < k {
        assert(s[i] != c);
    }
}

fn find_char(chars: &Vec<char>, c: char) -> (r: usize)
    ensures
        r == first_at(chars@, c),
        r <= chars@.len(),
{
    let n: usize = chars.len();
    let mut i: usize = 0;
    while i < n && chars[i] != c
        invariant
            n == chars@.len(),
            i <= n,
            forall|j: int| 0 <= j < i ==> chars@[j] != c,
        decreases n - i,
    {
        i = i + 1;
    }
    proof {
        lemma_first_at_is(chars@, c, i as int);
    }
    i
}

/// What stands before the first `c` of the text, which is all of it where there is none.
pub fn until(s: &str, c: char) -> (r: String)
    ensures
        r@ == before(s@, c),
{
    let chars = chars_of(s);
    let k = find_char(&chars, c);
    assert(chars@.subrange(0, k as int) =~= chars@.take(k as int));
    slice_text(&chars, 0, k)
}

/// The two pieces of the text around the first `c`, where it holds one.
pub fn split_once(s: &str, c: char) -> (r: Option<(String, String)>)
    ensures
        match r {
            Some((a, b)) => {
                &&& s@.contains(c)
                &&& a@ == before(s@, c)
                &&& b@ == s@.skip(first_at(s@, c) + 1)
            },
            None => !s@.contains(c),
        },
{
    let chars = chars_of(s);
    let n: usize = chars.len();
    let k = find_char(&chars, c);
    proof {
        lemma_first_at(s@, c);
    }
    if k < n {
        assert(chars@.subrange(0, k as int) =~= chars@.take(k as int));
        assert(chars@.subrange(k + 1, n as int) =~= chars@.skip(k + 1));
        Some((slice_text(&chars, 0, k), slice_text(&chars, k + 1, n)))
    } else {
        None
    }
}

/// The pieces of the text between the occurrences of `c`.
pub fn split(s: &str, c: char) -> (r: Vec<String>)
    ensures
        texts(r@) == split_on(s@, c),
        r@.len() >= 1,
{
    let mut out: Vec<String> = Vec::new();
    let mut rest = chars_of(s);
    assert(texts(out@) =~= Seq::<Seq<char>>::empty());
    assert(texts(out@) + split_on(rest@, c) =~= split_on(s@, c));
    loop
        invariant
            texts(out@) + split_on(rest@, c) == split_on(s@, c),
        decreases rest@.len(),
    {
        let n: usize = rest.len();
        let k = find_char(&rest, c);
        let ghost before_out = texts(out@);
        let ghost whole = rest@;
        assert(whole.subrange(0, k as int) =~= whole.take(k as int));
        out.push(slice_text(&rest, 0, k));
        assert(texts(out@) =~= before_out.push(whole.take(k as int)));
        if k == n {
            assert(whole.take(k as int) =~= whole);
            assert(texts(out@) =~= before_out + split_on(whole, c));
            return out;
        }
        let mut tail: Vec<char> = Vec::new();
        let mut i: usize = k + 1;
        while i < n
            invariant
                n == rest@.len(),
                rest@ == whole,
                k + 1 <= i <= n,
                tail@ == whole.subrange(k + 1, i as int),
            decreases n - i,
        {
            tail.push(rest[i]);
            i = i + 1;
            assert(whole.subrange(k + 1, i as int) =~= whole.subrange(k + 1, i - 1).push(
                whole[i - 1],
            ));
        }
        assert(tail@ =~= whole.skip(k + 1));
        rest = tail;
        assert(split_on(whole, c) =~= seq![whole.take(k as int)] + split_on(rest@, c));
        assert(texts(out@) + split_on(rest@, c) =~= before_out + split_on(whole, c));
    }
}

// ---------------------------------------------------------------------------
// Repeated characters at the ends
// ---------------------------------------------------------------------------

/// `s` without the run of `c` that it begins with.
pub open spec fn drop_leading(s: Seq<char>, c: char) -> Seq<char>
    decreases s.len(),
{
    if s.len() > 0 && s[0] == c {
        drop_leading(s.skip(1), c)
    } else {
        s
    }
}

/// `s` without the run of `c` that it ends with.
pub open spec fn drop_trailing(s: Seq<char>, c: char) -> Seq<char>
    decreases s.len(),
{
    if s.len() > 0 && s.last() == c {
        drop_trailing(s.drop_last(), c)
    } else {
        s
    }
}

/// The text without the run of `c` that it begins with.
pub fn trim_leading(s: &str, c: char) -> (r: String)
    ensures
        r@ == drop_leading(s@, c),
{
    let chars = chars_of(s);
    let n: usize = chars.len();
    let mut i: usize = 0;
    assert(chars@.skip(0) =~= chars@);
    while i < n && chars[i] == c
        invariant
            n == chars@.len(),
            i <= n,
            drop_leading(chars@.skip(i as int), c) == drop_leading(chars@, c),
        decreases n - i,
    {
        assert(chars@.skip(i as int).skip(1) =~= chars@.skip(i + 1));
        i = i + 1;
    }
    assert(chars@.subrange(i as int, n as int) =~= chars@.skip(i as int));
    slice_text(&chars, i, n)
}

/// The text without the run of `c` that it ends with.
pub fn trim_trailing(s: &str, c: char) -> (r: String)
    ensures
        r@ == drop_trailing(s@, c),
{
    let chars = chars_of(s);
    let n: usize = chars.len();
    let mut j: usize = n;
    assert(chars@.take(n as int) =~= chars@);
    while j > 0 && chars[j - 1] == c
        invariant
            n == chars@.len(),
            j <= n,
            drop_trailing(chars@.take(j as int), c) == drop_trailing(chars@, c),
        decreases j,
    {
        assert(chars@.take(j as int).drop_last() =~= chars@.take(j - 1));
        j = j - 1;
    }
    assert(chars@.subrange(0, j as int) =~= chars@.take(j as int));
    slice_text(&chars, 0, j)
}

// ---------------------------------------------------------------------------
// Rewriting
// ---------------------------------------------------------------------------

/// The ASCII lower case form of a character; any other character is itself.
pub open spec fn lower_char(c: char) -> char {
    if 'A' <= c <= 'Z' {
        (c as u32 + 32) as char
    } else {
        c
    }
}

/// `s` with its ASCII letters in lower case.
pub open spec fn lowered(s: Seq<char>) -> Seq<char> {
    Seq::new(s.len(), |i: int| lower_char(s[i]))
}

/// The text with its ASCII letters in lower case.
pub fn lower_ascii(s: &str) -> (r: String)
    ensures
        r@ == lowered(s@),
{
    let chars = chars_of(s);
    let n: usize = chars.len();
    let mut out = String::new();
    for i in 0..n
        invariant
            n == chars@.len(),
            out@ == lowered(chars@).take(i as int),
    {
        let c = chars[i];
        let l = if 'A' <= c && c <= 'Z' {
            ((c as u8) + 32) as char
        } else {
            c
        };
        out.push(l);
        assert(lowered(chars@).take(i + 1) =~= lowered(chars@).take(i as int).push(l));
    }
    assert(lowered(chars@).take(n as int) =~= lowered(chars@));
    out
}

/// What stands before the last `c` of `s`: all of it where there is none.
pub open spec fn before_last(s: Seq<char>, c: char) -> Seq<char>
    decreases s.len(),
{
    if !s.contains(c) {
        s
    } else if s.last() == c {
        s.drop_last()
    } else {
        before_last(s.drop_last(), c)
    }
}

/// What stands before the last `c` of the text: all of it where there is none.
pub fn until_last(s: &str, c: char) -> (r: String)
    ensures
        r@ == before_last(s@, c),
{
    let chars = chars_of(s);
    let n: usize = chars.len();
    let mut j: usize = n;
    assert(chars@.take(n as int) =~= chars@);
    while j > 0
        invariant
            n == chars@.len(),
            chars@ == s@,
            j <= n,
            forall|k: int| j <= k < n ==> chars@[k] != c,
            s@.contains(c) ==> before_last(chars@.take(j as int), c) == before_last(s@, c),
        decreases j,
    {
        let ghost t = chars@.take(j as int);
        assert(t.drop_last() =~= chars@.take(j - 1));
        if chars[j - 1] == c {
            assert(t.last() == c);
            assert(t.contains(c));
            assert(s@[j - 1] == c);
            assert(chars@.subrange(0, j - 1) =~= t.drop_last());
            return slice_text(&chars, 0, j - 1);
        }
        proof {
            if s@.contains(c) {
                let k = choose|k: int| 0 <= k < s@.len() && s@[k] == c;
                assert(k < j);
                assert(t[k] == c);
            }
        }
        j = j - 1;
    }
    s.to_owned()
}

/// What stands before the last `c` is no longer than the text.
pub proof fn lemma_before_last_len(s: Seq<char>, c: char)
    ensures
        before_last(s, c).len() <= s.len(),
    decreases s.len(),
{
    if s.contains(c) && s.last() != c {
        lemma_before_last_len(s.drop_last(), c);
    }
}

/// Dropping characters at an end makes no text longer.
pub proof fn lemma_drop_len(s: Seq<char>, c: char)
    ensures
        drop_leading(s, c).len() <= s.len(),
        drop_trailing(s, c).len() <= s.len(),
        before(s, c).len() <= s.len(),
    decreases s.len(),
{
    lemma_first_at(s, c);
    if s.len() > 0 {
        lemma_drop_len(s.skip(1), c);
        lemma_drop_len(s.drop_last(), c);
    }
}

/// Collapsing slashes makes no text longer.
pub proof fn lemma_slashes_len(s: Seq<char>)
    ensures
        single_slashes(s).len() <= s.len(),
    decreases s.len(),
{
    if s.len() == 0 {
    } else if s.len() >= 2 && s[0] == '/' && s[1] == '/' {
        lemma_slashes_len(s.skip(2));
    } else {
        lemma_slashes_len(s.skip(1));
    }
}

/// `s` with each `//`, found from left to right, made a single `/`.
pub open spec fn single_slashes(s: Seq<char>) -> Seq<char>
    decreases s.len(),
{
    if s.len() == 0 {
        s
    } else if s.len() >= 2 && s[0] == '/' && s[1] == '/' {
        seq!['/'] + single_slashes(s.skip(2))
    } else {
        seq![s[0]] + single_slashes(s.skip(1))
    }
}

/// Whether no slash follows another.
pub open spec fn has_single_slashes(s: Seq<char>) -> bool {
    forall|i: int, j: int|
        0 <= i < s.len() && j == i + 1 && j < s.len() ==> #[trigger] s[i] != '/' || #[trigger] s[j]
            != '/'
}

/// A text in which no slash follows another stays as it is.
pub proof fn lemma_slashes_same(s: Seq<char>)
    requires
        has_single_slashes(s),
    ensures
        single_slashes(s) == s,
    decreases s.len(),
{
    if s.len() > 0 {
        let rest = s.skip(1);
        assert forall|i: int, j: int|
            0 <= i < rest.len() && j == i + 1 && j < rest.len() implies #[trigger] rest[i] != '/'
            || #[trigger] rest[j] != '/' by {
            assert(rest[i] == s[i + 1] && rest[j] == s[j + 1]);
        }
        lemma_slashes_same(rest);
        if s.len() >= 2 {
            assert(s[0] != '/' || s[1] != '/');
        }
        assert(seq![s[0]] + rest =~= s);
    }
}

/// All of a text stands before a character that it does not hold.
pub proof fn lemma_before_same(s: Seq<char>, c: char)
    requires
        !s.contains(c),
    ensures
        before(s, c) == s,
{
    lemma_first_at(s, c);
    if first_at(s, c) < s.len() {
        assert(s[first_at(s, c)] == c);
    }
    assert(s.take(s.len() as int) =~= s);
}

/// The text with each `//`, found from left to right, made a single `/`.
pub fn collapse_slashes(s: &str) -> (r: String)
    ensures
        r@ == single_slashes(s@),
{
    let chars = chars_of(s);
    let n: usize = chars.len();
    let mut out = String::new();
    let mut i: usize = 0;
    assert(chars@.skip(0) =~= chars@);
    assert(out@ + single_slashes(chars@) =~= single_slashes(chars@));
    while i < n
        invariant
            n == chars@.len(),
            i <= n,
            out@ + single_slashes(chars@.skip(i as int)) == single_slashes(chars@),
        decreases n - i,
    {
        let ghost rest = chars@.skip(i as int);
        let ghost done = out@;
        if n - i >= 2 && chars[i] == '/' && chars[i + 1] == '/' {
            out.push('/');
            assert(rest.skip(2) =~= chars@.skip(i + 2));
            assert(out@ + single_slashes(rest.skip(2)) =~= done + single_slashes(rest));
            i = i + 2;
        } else {
            out.push(chars[i]);
            assert(rest.skip(1) =~= chars@.skip(i + 1));
            assert(out@ + single_slashes(rest.skip(1)) =~= done + single_slashes(rest));
            i = i + 1;
        }
    }
    assert(chars@.skip(n as int) =~= Seq::<char>::empty());
    assert(out@ =~= single_slashes(chars@));
    out
}

/// `s` with each `c` followed by a second one.
pub open spec fn doubled(s: Seq<char>, c: char) -> Seq<char>
    decreases s.len(),
{
    if s.len() == 0 {
        s
    } else if s.last() == c {
        doubled(s.drop_last(), c).push(c).push(c)
    } else {
        doubled(s.drop_last(), c).push(s.last())
    }
}

/// `s` with each pair of `c`, found from right to left, made a single one.
pub open spec fn undoubled(s: Seq<char>, c: char) -> Seq<char>
    decreases s.len(),
{
    if s.len() == 0 {
        s
    } else if s.len() >= 2 && s.last() == c && s[s.len() - 2] == c {
        undoubled(s.take(s.len() - 2), c).push(c)
    } else {
        undoubled(s.drop_last(), c).push(s.last())
    }
}

/// Making pairs single again gives back the text in which they were doubled.
pub proof fn lemma_undoubled(s: Seq<char>, c: char)
    ensures
        undoubled(doubled(s, c), c) == s,
    decreases s.len(),
{
    if s.len() > 0 {
        let init = s.drop_last();
        lemma_undoubled(init, c);
        let d = doubled(s, c);
        if s.last() == c {
            assert(d.take(d.len() - 2) =~= doubled(init, c));
        } else {
            assert(d.drop_last() =~= doubled(init, c));
        }
        assert(init.push(s.last()) =~= s);
    }
}

/// The text with each `c` followed by a second one.
pub fn double_char(s: &str, c: char) -> (r: String)
    ensures
        r@ == doubled(s@, c),
{
    let chars = chars_of(s);
    let n: usize = chars.len();
    let mut out = String::new();
    assert(chars@.take(0) =~= Seq::<char>::empty());
    for i in 0..n
        invariant
            n == chars@.len(),
            out@ == doubled(chars@.take(i as int), c),
    {
        let x = chars[i];
        out.push(x);
        if x == c {
            out.push(c);
        }
        assert(chars@.take(i + 1).drop_last() =~= chars@.take(i as int));
    }
    assert(chars@.take(n as int) =~= chars@);
    out
}

/// `s` without its occurrences of `c`.
pub open spec fn without(s: Seq<char>, c: char) -> Seq<char>
    decreases s.len(),
{
    if s.len() == 0 {
        s
    } else if s.last() == c {
        without(s.drop_last(), c)
    } else {
        without(s.drop_last(), c).push(s.last())
    }
}

/// Leaving out a character brings in no other.
pub proof fn lemma_without(s: Seq<char>, c: char, other: char)
    requires
        !s.contains(other),
    ensures
        !without(s, c).contains(other),
    decreases s.len(),
{
    if s.len() > 0 {
        let init = s.drop_last();
        assert(!init.contains(other)) by {
            if init.contains(other) {
                let k = choose|k: int| 0 <= k < init.len() && init[k] == other;
                assert(s[k] == other);
            }
        }
        lemma_without(init, c, other);
        assert(s[s.len() - 1] != other);
        let w = without(s, c);
        let v = without(init, c);
        assert forall|k: int| 0 <= k < w.len() implies w[k] != other by {
            if k < v.len() {
                assert(w[k] == v[k]);
            }
        }
    }
}

/// The text without its occurrences of `c`.
pub fn remove_char(s: &str, c: char) -> (r: String)
    ensures
        r@ == without(s@, c),
{
    let chars = chars_of(s);
    let n: usize = chars.len();
    let mut out = String::new();
    assert(chars@.take(0) =~= Seq::<char>::empty());
    for i in 0..n
        invariant
            n == chars@.len(),
            out@ == without(chars@.take(i as int), c),
    {
        if chars[i] != c {
            out.push(chars[i]);
        }
        assert(chars@.take(i + 1).drop_last() =~= chars@.take(i as int));
    }
    assert(chars@.take(n as int) =~= chars@);
    out
}

/// The first `limit` characters of `s`, or all of it where it is shorter.
pub open spec fn clipped(s: Seq<char>, limit: nat) -> Seq<char> {
    if s.len() <= limit {
        s
    } else {
        s.take(limit as int)
    }
}

/// The first `limit` characters of the text, or all of it where it is shorter.
pub fn clip(s: &str, limit: usize) -> (r: String)
    ensures
        r@ == clipped(s@, limit as nat),
{
    let chars = chars_of(s);
    let n: usize = if chars.len() <= limit {
        chars.len()
    } else {
        limit
    };
    assert(chars@.subrange(0, n as int) =~= clipped(s@, limit as nat));
    slice_text(&chars, 0, n)
}

/// The texts of `parts` with `sep` between them.
pub open spec fn joined(parts: Seq<Seq<char>>, sep: Seq<char>) -> Seq<char>
    decreases parts.len(),
{
    if parts.len() == 0 {
        Seq::empty()
    } else if parts.len() == 1 {
        parts[0]
    } else {
        joined(parts.drop_last(), sep) + sep + parts.last()
    }
}

proof fn lemma_joined_front(a: Seq<char>, rest: Seq<Seq<char>>, sep: Seq<char>)
    requires
        rest.len() > 0,
    ensures
        joined(seq![a] + rest, sep) == a + sep + joined(rest, sep),
    decreases rest.len(),
{
    reveal_with_fuel(joined, 2);
    let all = seq![a] + rest;
    assert(all.drop_last() =~= seq![a] + rest.drop_last());
    assert(all.last() == rest.last());
    if rest.len() == 1 {
        assert(rest.drop_last() =~= Seq::empty());
        assert(all.drop_last() =~= seq![a]);
    } else {
        lemma_joined_front(a, rest.drop_last(), sep);
        assert(joined(all, sep) =~= a + sep + joined(rest, sep));
    }
}

/// The pieces of a text, put together again with what they were split on, are the text.
pub proof fn lemma_split_joined(s: Seq<char>, c: char)
    ensures
        split_on(s, c).len() > 0,
        joined(split_on(s, c), seq![c]) == s,
    decreases s.len(),
{
    let k = first_at(s, c);
    lemma_first_at(s, c);
    if k < s.len() {
        let rest = split_on(s.skip(k + 1), c);
        lemma_split_joined(s.skip(k + 1), c);
        lemma_joined_front(s.take(k), rest, seq![c]);
        assert(s.take(k) + seq![c] + s.skip(k + 1) =~= s);
    }
}

/// Splitting on `c` leaves no `c` in the pieces.
pub proof fn lemma_split_free(s: Seq<char>, c: char)
    ensures
        forall|i: int| 0 <= i < split_on(s, c).len() ==> !(#[trigger] split_on(s, c)[i]).contains(c),
    decreases s.len(),
{
    let k = first_at(s, c);
    lemma_first_at(s, c);
    if k < s.len() {
        let rest = split_on(s.skip(k + 1), c);
        lemma_split_free(s.skip(k + 1), c);
        assert forall|i: int| 0 <= i < split_on(s, c).len() implies !(#[trigger] split_on(
            s,
            c,
        )[i]).contains(c) by {
            if i == 0 {
                assert forall|j: int| 0 <= j < s.take(k).len() implies s.take(k)[j] != c by {
                    assert(s.take(k)[j] == s[j]);
                }
            } else {
                assert(split_on(s, c)[i] == rest[i - 1]);
            }
        }
    }
}

/// Texts without a character, put together with a text without it between them, have none of it.
pub proof fn lemma_joined_free(parts: Seq<Seq<char>>, sep: Seq<char>, c: char)
    requires
        forall|i: int| 0 <= i < parts.len() ==> !(#[trigger] parts[i]).contains(c),
        !sep.contains(c),
    ensures
        !joined(parts, sep).contains(c),
    decreases parts.len(),
{
    let whole = joined(parts, sep);
    if parts.len() > 1 {
        let init = parts.drop_last();
        assert forall|i: int| 0 <= i < init.len() implies !(#[trigger] init[i]).contains(c) by {
            assert(init[i] == parts[i]);
        }
        lemma_joined_free(init, sep, c);
        assert(!parts[parts.len() - 1].contains(c));
        let head = joined(init, sep);
        if whole.contains(c) {
            let k = choose|k: int| 0 <= k < whole.len() && whole[k] == c;
            if k < head.len() {
                assert(head[k] == c);
            } else if k < head.len() + sep.len() {
                assert(sep[k - head.len()] == c);
            } else {
                assert(parts.last()[k - head.len() - sep.len()] == c);
            }
        }
    } else if parts.len() == 1 {
        assert(!parts[0].contains(c));
    }
}

/// Texts put together begin as the first of them does.
pub proof fn lemma_joined_begins(parts: Seq<Seq<char>>, sep: Seq<char>)
    requires
        parts.len() > 0,
        parts[0].len() > 0,
        sep.len() > 0,
    ensures
        joined(parts, sep).len() > 0,
        joined(parts, sep)[0] == parts[0][0],
        joined(parts, sep).len() > 1 ==> joined(parts, sep)[1] == (if parts[0].len()
            > 1 {
            parts[0][1]
        } else {
            sep[0]
        }),
    decreases parts.len(),
{
    if parts.len() > 1 {
        assert(parts.drop_last()[0] == parts[0]);
        lemma_joined_begins(parts.drop_last(), sep);
        let head = joined(parts.drop_last(), sep);
        if head.len() == 1 {
            lemma_joined_short(parts.drop_last(), sep);
        }
    }
}

proof fn lemma_joined_short(parts: Seq<Seq<char>>, sep: Seq<char>)
    requires
        parts.len() > 0,
        parts[0].len() > 0,
        sep.len() > 0,
        joined(parts, sep).len() == 1,
    ensures
        parts[0].len() == 1,
    decreases parts.len(),
{
    if parts.len() > 1 {
        assert(parts.drop_last()[0] == parts[0]);
        lemma_joined_begins(parts.drop_last(), sep);
    }
}

/// What stands before the last of a character is found where that character stands.
pub proof fn lemma_before_last_at(a: Seq<char>, c: char, b: Seq<char>)
    requires
        !b.contains(c),
    ensures
        before_last(a + seq![c] + b, c) == a,
    decreases b.len(),
{
    let s = a + seq![c] + b;
    assert(s[a.len() as int] == c);
    if b.len() == 0 {
        assert(s.drop_last() =~= a);
    } else {
        assert(s.last() == b.last());
        assert(b.contains(b.last()));
        let init = b.drop_last();
        assert(!init.contains(c)) by {
            if init.contains(c) {
                let i = choose|i: int| 0 <= i < init.len() && init[i] == c;
                assert(b[i] == c);
            }
        }
        assert(s.drop_last() =~= a + seq![c] + init);
        lemma_before_last_at(a, c, init);
    }
}

/// What stands before the first of a character is found where that character stands.
pub proof fn lemma_before_at(a: Seq<char>, c: char, b: Seq<char>)
    requires
        !a.contains(c),
    ensures
        before(a + seq![c] + b, c) == a,
{
    let s = a + seq![c] + b;
    lemma_first_at(s, c);
    let k = first_at(s, c);
    assert(s[a.len() as int] == c);
    if k < a.len() {
        assert(a[k] == c);
    }
    assert(s.take(a.len() as int) =~= a);
}

/// Texts without `c`, put together with `c` between them, are split into themselves.
pub proof fn lemma_joined_split(parts: Seq<Seq<char>>, c: char)
    requires
        parts.len() > 0,
        forall|i: int| 0 <= i < parts.len() ==> !(#[trigger] parts[i]).contains(c),
    ensures
        split_on(joined(parts, seq![c]), c) == parts,
    decreases parts.len(),
{
    let a = parts[0];
    lemma_first_at(a, c);
    if parts.len() == 1 {
        assert(split_on(a, c) =~= parts);
    } else {
        let rest = parts.skip(1);
        assert(parts =~= seq![a] + rest);
        assert forall|i: int| 0 <= i < rest.len() implies !(#[trigger] rest[i]).contains(c) by {
            assert(rest[i] == parts[i + 1]);
        }
        lemma_joined_split(rest, c);
        lemma_joined_front(a, rest, seq![c]);
        let whole = joined(parts, seq![c]);
        assert forall|j: int| 0 <= j < a.len() implies whole[j] != c by {
            assert(whole[j] == a[j]);
        }
        assert(whole[a.len() as int] == c);
        lemma_first_at_is(whole, c, a.len() as int);
        assert(whole.take(a.len() as int) =~= a);
        assert(whole.skip(a.len() as int + 1) =~= joined(rest, seq![c]));
    }
}

/// The texts of `parts` with `sep` between them.
pub fn join(parts: &Vec<String>, sep: &str) -> (r: String)
    ensures
        r@ == joined(texts(parts@), sep@),
{
    let mut out = String::new();
    let n: usize = parts.len();
    assert(texts(parts@).take(0) =~= Seq::<Seq<char>>::empty());
    for i in 0..n
        invariant
            n == parts@.len(),
            out@ == joined(texts(parts@).take(i as int), sep@),
    {
        let ghost all = texts(parts@);
        assert(all.take(i + 1).drop_last() =~= all.take(i as int));
        assert(all.take(i + 1).last() == parts@[i as int]@);
        if i > 0 {
            out.append(sep);
            out.append(parts[i].as_str());
        } else {
            out.append(parts[i].as_str());
            assert(out@ =~= parts@[0]@);
        }
    }
    assert(texts(parts@).take(n as int) =~= texts(parts@));
    out
}

// ---------------------------------------------------------------------------
// Order
// ---------------------------------------------------------------------------

/// Whether `a` comes before `b` in the order of code points, which is the order of strings.
pub open spec fn text_lt(a: Seq<char>, b: Seq<char>) -> bool
    decreases a.len(),
{
    if b.len() == 0 {
        false
    } else if a.len() == 0 {
        true
    } else if a[0] != b[0] {
        a[0] < b[0]
    } else {
        text_lt(a.skip(1), b.skip(1))
    }
}

/// Of two different texts one comes before the other.
pub proof fn lemma_text_lt_total(a: Seq<char>, b: Seq<char>)
    ensures
        a == b || text_lt(a, b) || text_lt(b, a),
        !(text_lt(a, b) && text_lt(b, a)),
        text_lt(a, b) ==> a != b,
    decreases a.len(),
{
    if a.len() > 0 && b.len() > 0 && a[0] == b[0] {
        lemma_text_lt_total(a.skip(1), b.skip(1));
        if a.skip(1) == b.skip(1) {
            assert(a =~= seq![a[0]] + a.skip(1));
            assert(b =~= seq![b[0]] + b.skip(1));
        }
    } else if a.len() == 0 && b.len() == 0 {
        assert(a =~= b);
    }
}

/// The order of texts is transitive.
pub proof fn lemma_text_lt_transitive(a: Seq<char>, b: Seq<char>, c: Seq<char>)
    requires
        text_lt(a, b),
        text_lt(b, c),
    ensures
        text_lt(a, c),
    decreases a.len(),
{
    if a.len() > 0 && b.len() > 0 && c.len() > 0 && a[0] == b[0] && b[0] == c[0] {
        lemma_text_lt_transitive(a.skip(1), b.skip(1), c.skip(1));
    }
}

/// Whether `a` comes before `b` in the order of strings.
pub fn less(a: &str, b: &str) -> (r: bool)
    ensures
        r == text_lt(a@, b@),
{
    let x = chars_of(a);
    let y = chars_of(b);
    let mut i: usize = 0;
    assert(x@.skip(0) =~= x@);
    assert(y@.skip(0) =~= y@);
    loop
        invariant
            x@ == a@,
            y@ == b@,
            i <= x@.len(),
            i <= y@.len(),
            text_lt(a@, b@) == text_lt(x@.skip(i as int), y@.skip(i as int)),
        decreases x@.len() - i,
    {
        if i == y.len() {
            return false;
        }
        if i == x.len() {
            return true;
        }
        if x[i] != y[i] {
            return x[i] < y[i];
        }
        assert(x@.skip(i as int).skip(1) =~= x@.skip(i + 1));
        assert(y@.skip(i as int).skip(1) =~= y@.skip(i + 1));
        i = i + 1;
    }
}

// ---------------------------------------------------------------------------
// Bytes
// ---------------------------------------------------------------------------

/// The number of bytes that a text takes.
pub open spec fn byte_len(s: Seq<char>) -> nat {
    encode_utf8(s).len()
}

/// Whether the first `head` and the last `tail` bytes of a text are texts.
pub open spec fn cuts_at(s: Seq<char>, head: nat, tail: nat) -> bool {
    let b = encode_utf8(s);
    &&& head <= b.len()
    &&& tail <= b.len()
    &&& is_char_boundary(b, head as int)
    &&& is_char_boundary(b, b.len() - tail)
}

/// The first `n` bytes of a text, as a text.
pub open spec fn byte_head(s: Seq<char>, n: nat) -> Seq<char> {
    decode_utf8(encode_utf8(s).subrange(0, n as int))
}

/// The last `n` bytes of a text, as a text.
pub open spec fn byte_tail(s: Seq<char>, n: nat) -> Seq<char> {
    let b = encode_utf8(s);
    decode_utf8(b.subrange(b.len() - n, b.len() as int))
}

/// The number of bytes that the text takes.
pub fn count_bytes(s: &str) -> (r: usize)
    ensures
        r == byte_len(s@),
{
    s.as_bytes().len()
}

/// Whether the first `head` and the last `tail` bytes of the text are texts.
pub fn can_cut(s: &str, head: usize, tail: usize) -> (r: bool)
    ensures
        r == cuts_at(s@, head as nat, tail as nat),
{
    let n: usize = s.as_bytes().len();
    head <= n && tail <= n && s.is_char_boundary(head) && s.is_char_boundary(n - tail)
}

/// The first `head` and the last `tail` bytes of the text.
pub fn cut(s: &str, head: usize, tail: usize) -> (r: (String, String))
    requires
        cuts_at(s@, head as nat, tail as nat),
    ensures
        r.0@ == byte_head(s@, head as nat),
        r.1@ == byte_tail(s@, tail as nat),
{
    let n: usize = s.as_bytes().len();
    let (first, _rest) = s.split_at(head);
    let (_init, last) = s.split_at(n - tail);
    proof {
        encode_utf8_decode_utf8(first@);
        encode_utf8_decode_utf8(last@);
    }
    (first.to_owned(), last.to_owned())
}

// ---------------------------------------------------------------------------
// What is promised of texts
// ---------------------------------------------------------------------------

/// Whether a text is whitespace all through.
pub open spec fn all_white(s: Seq<char>) -> bool {
    forall|i: int| 0 <= i < s.len() ==> is_white(#[trigger] s[i])
}

/// Among the ASCII characters the space and the controls from tab to carriage return are whitespace;
/// of the others the no-break space, the ideographic space and those of typesetting are, and no
/// letter.
pub proof fn law_whitespace_is_known(c: char)
    ensures
        (c as u32) < 128 ==> (is_white(c) == (c == ' ' || c == '\t' || c == '\n' || c == '\u{b}' || c
            == '\u{c}' || c == '\r')),
        is_white('\u{a0}'),
        is_white('\u{85}'),
        is_white('\u{2003}'),
        is_white('\u{2028}'),
        is_white('\u{3000}'),
        'a' <= c <= 'z' || 'A' <= c <= 'Z' || '0' <= c <= '9' ==> !is_white(c),
{
}

proof fn lemma_white_in_front(front: Seq<char>, s: Seq<char>)
    requires
        all_white(front),
        s.len() == 0 || !is_white(s[0]),
    ensures
        trim_start(front + s) == s,
    decreases front.len(),
{
    if front.len() == 0 {
        assert(front + s =~= s);
    } else {
        assert(is_white(front[0]));
        let rest = front.skip(1);
        assert forall|i: int| 0 <= i < rest.len() implies is_white(#[trigger] rest[i]) by {
            assert(rest[i] == front[i + 1]);
        }
        assert((front + s).skip(1) =~= rest + s);
        lemma_white_in_front(rest, s);
    }
}

proof fn lemma_white_at_the_end(s: Seq<char>, back: Seq<char>)
    requires
        all_white(back),
        s.len() == 0 || !is_white(s.last()),
    ensures
        trim_end(s + back) == s,
    decreases back.len(),
{
    if back.len() == 0 {
        assert(s + back =~= s);
    } else {
        assert(is_white(back[back.len() - 1]));
        let rest = back.drop_last();
        assert forall|i: int| 0 <= i < rest.len() implies is_white(#[trigger] rest[i]) by {
            assert(rest[i] == back[i]);
        }
        assert((s + back).last() == back[back.len() - 1]);
        assert((s + back).drop_last() =~= s + rest);
        lemma_white_at_the_end(s, rest);
    }
}

/// Trimming takes away the whitespace at the two ends, and nothing else.
pub proof fn law_whitespace_around_is_trimmed(front: Seq<char>, s: Seq<char>, back: Seq<char>)
    requires
        all_white(front),
        all_white(back),
        s.len() > 0,
        !is_white(s[0]),
        !is_white(s.last()),
    ensures
        trimmed(front + s + back) == s,
        !blank(front + s + back),
{
    assert(front + s + back =~= front + (s + back));
    assert((s + back)[0] == s[0]);
    lemma_white_in_front(front, s + back);
    lemma_white_at_the_end(s, back);
}

/// A text is blank if and only if it is whitespace all through.
pub proof fn law_blank_is_all_whitespace(s: Seq<char>)
    ensures
        blank(s) == all_white(s),
    decreases s.len(),
{
    if all_white(s) {
        assert(s + Seq::<char>::empty() =~= s);
        lemma_white_in_front(s, Seq::empty());
    } else if is_white(s[0]) {
        law_blank_is_all_whitespace(s.skip(1));
        if all_white(s.skip(1)) {
            assert forall|i: int| 0 <= i < s.len() implies is_white(#[trigger] s[i]) by {
                if i > 0 {
                    assert(s[i] == s.skip(1)[i - 1]);
                }
            }
        }
    } else {
        lemma_trim_end_keeps_front(s);
    }
}

proof fn lemma_trim_end_keeps_front(s: Seq<char>)
    requires
        s.len() > 0,
        !is_white(s[0]),
    ensures
        trim_end(s).len() > 0,
    decreases s.len(),
{
    if is_white(s.last()) {
        assert(s.drop_last()[0] == s[0]);
        lemma_trim_end_keeps_front(s.drop_last());
    }
}

/// Lower case is that of the ASCII letters: each capital letter becomes its small one, and nothing
/// else changes.
pub proof fn law_capital_letters_are_lowered(s: Seq<char>, i: int)
    requires
        0 <= i < s.len(),
    ensures
        lowered(s).len() == s.len(),
        'A' <= s[i] <= 'Z' ==> lowered(s)[i] as u32 == s[i] as u32 + 32 && 'a' <= lowered(s)[i]
            <= 'z',
        !('A' <= s[i] <= 'Z') ==> lowered(s)[i] == s[i],
        lowered(lowered(s)) == lowered(s),
{
    assert forall|k: int| 0 <= k < s.len() implies #[trigger] lowered(lowered(s))[k] == lowered(
        s,
    )[k] by {
        assert(lowered(s)[k] == lower_char(s[k]));
    }
    assert(lowered(lowered(s)) =~= lowered(s));
}

/// A text begins with what stands in front, ends with what stands at its end, and includes what
/// stands inside; behind what it begins with stands the rest.
pub proof fn law_parts_are_found(a: Seq<char>, part: Seq<char>, b: Seq<char>, s: Seq<char>)
    ensures
        begins(part + b, part),
        after_prefix(part + b, part) == Some(b),
        ends(a + part, part),
        includes(a + part + b, part),
        begins(s, part) ==> s == part + s.skip(part.len() as int),
        !begins(s, part) ==> after_prefix(s, part) is None,
        includes(s, part) ==> part.len() <= s.len(),
{
    assert((part + b).take(part.len() as int) =~= part);
    assert((part + b).skip(part.len() as int) =~= b);
    assert((a + part).skip((a + part).len() - part.len()) =~= part);
    let whole = a + part + b;
    assert(whole.subrange(a.len() as int, (a.len() + part.len()) as int) =~= part);
    assert(occurs_at(whole, part, a.len() as int));
    if begins(s, part) {
        assert(s =~= s.take(part.len() as int) + s.skip(part.len() as int));
    }
}

/// A text is clipped to its first characters, and a short one not at all.
pub proof fn law_clipped_is_the_front(s: Seq<char>, limit: nat)
    ensures
        s.len() <= limit ==> clipped(s, limit) == s,
        s.len() > limit ==> clipped(s, limit).len() == limit && begins(s, clipped(s, limit)),
{
}

/// Two texts are joined with the separator between them, and a list one text after the other.
pub proof fn law_texts_are_joined(
    a: Seq<char>,
    b: Seq<char>,
    parts: Seq<Seq<char>>,
    sep: Seq<char>,
)
    ensures
        joined(seq![a], sep) == a,
        joined(seq![a, b], sep) == a + sep + b,
        parts.len() > 0 ==> joined(parts.push(a), sep) == joined(parts, sep) + sep + a,
        joined(Seq::empty(), sep).len() == 0,
{
    reveal_with_fuel(joined, 3);
    assert(seq![a, b].drop_last() =~= seq![a]);
    assert(parts.push(a).drop_last() =~= parts);
}

/// The first place where two texts differ decides which comes first; a text comes before one that
/// goes on.
pub proof fn law_first_difference_decides(
    front: Seq<char>,
    x: char,
    a: Seq<char>,
    y: char,
    b: Seq<char>,
)
    ensures
        text_lt(front, front + seq![y] + b),
        !text_lt(front + seq![y] + b, front),
        x < y ==> text_lt(front + seq![x] + a, front + seq![y] + b),
        x > y ==> !text_lt(front + seq![x] + a, front + seq![y] + b),
        !text_lt(front, front),
    decreases front.len(),
{
    let s = front + seq![x] + a;
    let t = front + seq![y] + b;
    if front.len() == 0 {
        assert(s[0] == x && t[0] == y);
    } else {
        let rest = front.skip(1);
        assert(s.skip(1) =~= rest + seq![x] + a);
        assert(t.skip(1) =~= rest + seq![y] + b);
        assert(s[0] == front[0] && t[0] == front[0]);
        law_first_difference_decides(rest, x, a, y, b);
    }
}

/// Leaving out a character keeps all others, in their order.
pub proof fn law_other_characters_stay(a: Seq<char>, c: char, x: char)
    ensures
        !without(a, c).contains(c),
        x != c ==> without(a.push(x), c) == without(a, c).push(x),
        without(a.push(c), c) == without(a, c),
        !a.contains(c) ==> without(a, c) == a,
    decreases a.len(),
{
    assert(a.push(x).drop_last() =~= a);
    assert(a.push(c).drop_last() =~= a);
    if a.len() > 0 {
        let init = a.drop_last();
        law_other_characters_stay(init, c, x);
        if a.last() != c {
            let w = without(init, c).push(a.last());
            assert forall|i: int| 0 <= i < w.len() implies #[trigger] w[i] != c by {
                if i < without(init, c).len() {
                    assert(w[i] == without(init, c)[i]);
                }
            }
        }
        if !a.contains(c) {
            assert(a[a.len() - 1] != c);
            assert(!init.contains(c)) by {
                if init.contains(c) {
                    let i = choose|i: int| 0 <= i < init.len() && init[i] == c;
                    assert(a[i] == c);
                }
            }
            assert(init.push(a.last()) =~= a);
        }
    }
}

/// Two slashes become one; what stands before and after stays.
pub proof fn law_two_slashes_become_one(a: Seq<char>, b: Seq<char>)
    requires
        has_single_slashes(a),
        has_single_slashes(b),
        a.len() > 0 ==> a.last() != '/',
        b.len() > 0 ==> b[0] != '/',
    ensures
        single_slashes(a + seq!['/', '/'] + b) == a + seq!['/'] + b,
    decreases a.len(),
{
    let s = a + seq!['/', '/'] + b;
    if a.len() == 0 {
        assert(s.skip(2) =~= b);
        lemma_slashes_same(b);
        assert(seq!['/'] + b =~= a + seq!['/'] + b);
    } else {
        let rest = a.skip(1);
        assert(has_single_slashes(rest)) by {
            assert forall|i: int, j: int|
                0 <= i < rest.len() && j == i + 1 && j < rest.len() implies #[trigger] rest[i] != '/'
                || #[trigger] rest[j] != '/' by {
                assert(rest[i] == a[i + 1] && rest[j] == a[j + 1]);
            }
        }
        assert(s.skip(1) =~= rest + seq!['/', '/'] + b);
        assert(rest.len() > 0 ==> rest.last() == a.last());
        law_two_slashes_become_one(rest, b);
        if a.len() == 1 {
            assert(a[0] == a.last());
        } else {
            assert(s[0] == a[0] && s[1] == a[1]);
            assert(a[0] != '/' || a[1] != '/');
        }
        assert(seq![s[0]] + (rest + seq!['/'] + b) =~= a + seq!['/'] + b);
    }
}

} // verus!
