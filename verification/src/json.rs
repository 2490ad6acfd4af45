//! JSON values as plain data, and what the rules of the gateway read from them.
use vstd::arithmetic::div_mod::*;
use vstd::arithmetic::power2::*;
use vstd::prelude::*;

use crate::text::same;

verus! {

/// A JSON number. A number with a fraction or an exponent is held by the bits of the IEEE 754
/// double that it reads as.
#[derive(Clone, Copy, Debug, PartialEq, Eq, Structural)]
pub enum Number {
    /// A whole number that is not below zero.
    Unsigned(u64),
    /// A whole number below zero.
    Negative(i64),
    /// The bits of a double.
    Float(u64),
}

/// The bits of positive infinity: the greatest pattern of a double above zero.
pub const INFINITY_BITS: u64 = 0x7FF0_0000_0000_0000;

/// Whether the number is above zero. A pattern that is no number is not.
pub open spec fn is_positive(n: Number) -> bool {
    match n {
        Number::Unsigned(k) => k > 0,
        Number::Negative(_) => false,
        Number::Float(bits) => 0 < bits <= INFINITY_BITS,
    }
}

/// The whole part of a double, bounded by the range of `u64`: zero for a double below zero and for
/// a pattern that is no number, the greatest `u64` for one that is too great.
pub open spec fn float_whole(bits: u64) -> u64 {
    let exponent = bits as int / 0x10_0000_0000_0000;
    let mantissa = 0x10_0000_0000_0000 + bits as int % 0x10_0000_0000_0000;
    if bits > INFINITY_BITS || exponent < 1023 {
        0
    } else if exponent > 1086 {
        u64::MAX
    } else if exponent <= 1075 {
        (mantissa / pow2((1075 - exponent) as nat) as int) as u64
    } else {
        (mantissa * pow2((exponent - 1075) as nat)) as u64
    }
}

/// The number as a `u64`: itself where it is one, else its whole part within the range.
pub open spec fn whole_part(n: Number) -> u64 {
    match n {
        Number::Unsigned(k) => k,
        Number::Negative(_) => 0,
        Number::Float(bits) => float_whole(bits),
    }
}

impl Number {
    /// Whether the number is above zero.
    pub fn positive(&self) -> (r: bool)
        ensures
            r == is_positive(*self),
    {
        match self {
            Number::Unsigned(k) => *k > 0,
            Number::Negative(_) => false,
            Number::Float(bits) => 0 < *bits && *bits <= INFINITY_BITS,
        }
    }

    /// The number as a `u64`: itself where it is one, else its whole part within the range.
    pub fn to_whole(&self) -> (r: u64)
        ensures
            r == whole_part(*self),
    {
        match self {
            Number::Unsigned(k) => *k,
            Number::Negative(_) => 0,
            Number::Float(bits) => truncate(*bits),
        }
    }
}

fn truncate(bits: u64) -> (r: u64)
    ensures
        r == float_whole(bits),
{
    let exponent: u64 = bits / 0x10_0000_0000_0000;
    let mantissa: u64 = 0x10_0000_0000_0000 + bits % 0x10_0000_0000_0000;
    if bits > INFINITY_BITS || exponent < 1023 {
        return 0;
    }
    if exponent > 1086 {
        return u64::MAX;
    }
    let mut value: u64 = mantissa;
    if exponent <= 1075 {
        let steps: u64 = 1075 - exponent;
        let mut i: u64 = 0;
        proof {
            lemma2_to64();
        }
        assert(mantissa as int / 1 == mantissa);
        while i < steps
            invariant
                i <= steps,
                mantissa < 0x20_0000_0000_0000,
                value == mantissa as int / pow2(i as nat) as int,
            decreases steps - i,
        {
            proof {
                lemma_pow2_pos(i as nat);
                lemma_pow2_unfold((i + 1) as nat);
                lemma_div_denominator(mantissa as int, pow2(i as nat) as int, 2);
                assert(pow2(i as nat) * 2 == pow2((i + 1) as nat));
            }
            value = value / 2;
            i = i + 1;
        }
    } else {
        let steps: u64 = exponent - 1075;
        let mut i: u64 = 0;
        proof {
            lemma2_to64();
        }
        while i < steps
            invariant
                i <= steps <= 11,
                mantissa < 0x20_0000_0000_0000,
                value == mantissa * pow2(i as nat),
                value <= 0x20_0000_0000_0000 * pow2(i as nat),
            decreases steps - i,
        {
            proof {
                lemma_pow2_unfold((i + 1) as nat);
                assert(pow2((i + 1) as nat) == 2 * pow2(i as nat));
                if i < 10 {
                    lemma_pow2_strictly_increases(i as nat, 10);
                }
                assert(pow2(i as nat) <= 1024) by {
                    lemma2_to64();
                }
                assert(mantissa * pow2(i as nat) <= 0x1F_FFFF_FFFF_FFFF * 1024)
                    by (nonlinear_arith)
                    requires
                        mantissa <= 0x1F_FFFF_FFFF_FFFF,
                        pow2(i as nat) <= 1024,
                ;
                assert(mantissa * (2 * pow2(i as nat)) == 2 * (mantissa * pow2(i as nat)))
                    by (nonlinear_arith);
            }
            value = value * 2;
            i = i + 1;
        }
    }
    value
}

/// One named value of an object.
#[derive(Debug)]
pub struct Member {
    pub name: String,
    pub value: Json,
}

/// A JSON value. The members of an object stand in a fixed order, and the first of a name counts.
#[derive(Debug)]
pub enum Json {
    Null,
    Bool(bool),
    Number(Number),
    Text(String),
    Array(Vec<Json>),
    Object(Vec<Member>),
}

/// What a JSON value holds.
pub enum JsonView {
    Null,
    Bool(bool),
    Number(Number),
    Text(Seq<char>),
    Array(Seq<JsonView>),
    Object(Seq<(Seq<char>, JsonView)>),
}

impl View for Json {
    type V = JsonView;

    open spec fn view(&self) -> JsonView {
        self.model()
    }
}

/// What the members of an object hold.
pub open spec fn members(ms: Seq<Member>) -> Seq<(Seq<char>, JsonView)> {
    Seq::new(ms.len(), |i: int| (ms[i].name@, ms[i].value@))
}

/// What the items of an array hold.
pub open spec fn items(v: Seq<Json>) -> Seq<JsonView> {
    Seq::new(v.len(), |i: int| v[i]@)
}

/// The optional value that a lookup found.
pub open spec fn opt_json(o: Option<&Json>) -> Option<JsonView> {
    match o {
        Some(v) => Some(v@),
        None => None,
    }
}

/// The optional value that an optional tree holds.
pub open spec fn owned_json(o: Option<Json>) -> Option<JsonView> {
    match o {
        Some(v) => Some(v@),
        None => None,
    }
}

/// The first value named `name`.
pub open spec fn find_member(ms: Seq<(Seq<char>, JsonView)>, name: Seq<char>) -> Option<JsonView>
    decreases ms.len(),
{
    if ms.len() == 0 {
        None
    } else if ms[0].0 == name {
        Some(ms[0].1)
    } else {
        find_member(ms.skip(1), name)
    }
}

/// The members with the first value named `name` replaced, or with one of that name added at the
/// end where there is none.
pub open spec fn put_member(
    ms: Seq<(Seq<char>, JsonView)>,
    name: Seq<char>,
    value: JsonView,
) -> Seq<(Seq<char>, JsonView)>
    decreases ms.len(),
{
    if ms.len() == 0 {
        seq![(name, value)]
    } else if ms[0].0 == name {
        seq![(name, value)] + ms.skip(1)
    } else {
        seq![ms[0]] + put_member(ms.skip(1), name, value)
    }
}

/// The members that are not named `name`.
pub open spec fn drop_member(ms: Seq<(Seq<char>, JsonView)>, name: Seq<char>) -> Seq<
    (Seq<char>, JsonView),
>
    decreases ms.len(),
{
    if ms.len() == 0 {
        ms
    } else if ms.last().0 == name {
        drop_member(ms.drop_last(), name)
    } else {
        drop_member(ms.drop_last(), name).push(ms.last())
    }
}

impl JsonView {
    /// The value named `name`, where this is an object that has one.
    pub open spec fn at(self, name: Seq<char>) -> Option<JsonView> {
        match self {
            JsonView::Object(ms) => find_member(ms, name),
            _ => None,
        }
    }

    /// The value named `inner` of the value named `outer`.
    pub open spec fn at2(self, outer: Seq<char>, inner: Seq<char>) -> Option<JsonView> {
        match self.at(outer) {
            Some(v) => v.at(inner),
            None => None,
        }
    }

    /// The text, where this is one.
    pub open spec fn text(self) -> Option<Seq<char>> {
        match self {
            JsonView::Text(s) => Some(s),
            _ => None,
        }
    }

    /// The number, where this is one.
    pub open spec fn number(self) -> Option<Number> {
        match self {
            JsonView::Number(n) => Some(n),
            _ => None,
        }
    }

    /// The truth value, where this is one.
    pub open spec fn truth(self) -> Option<bool> {
        match self {
            JsonView::Bool(b) => Some(b),
            _ => None,
        }
    }

    /// The whole number that is not below zero, where this is one.
    pub open spec fn unsigned(self) -> Option<u64> {
        match self {
            JsonView::Number(Number::Unsigned(k)) => Some(k),
            _ => None,
        }
    }

    /// The whole number within the range of `i64`, where this is one.
    pub open spec fn signed(self) -> Option<i64> {
        match self {
            JsonView::Number(Number::Unsigned(k)) => if k <= i64::MAX {
                Some(k as i64)
            } else {
                None
            },
            JsonView::Number(Number::Negative(k)) => Some(k),
            _ => None,
        }
    }

    /// The items, where this is an array.
    pub open spec fn list(self) -> Option<Seq<JsonView>> {
        match self {
            JsonView::Array(s) => Some(s),
            _ => None,
        }
    }
}

/// The text of an optional value.
pub open spec fn text_of(o: Option<JsonView>) -> Option<Seq<char>> {
    match o {
        Some(v) => v.text(),
        None => None,
    }
}

/// The whole number of an optional value.
pub open spec fn unsigned_of(o: Option<JsonView>) -> Option<u64> {
    match o {
        Some(v) => v.unsigned(),
        None => None,
    }
}

/// The number of an optional value.
pub open spec fn number_of(o: Option<JsonView>) -> Option<Number> {
    match o {
        Some(v) => v.number(),
        None => None,
    }
}

/// Where a member was put, a lookup finds it; the others stay as they were.
pub proof fn lemma_put_find(
    ms: Seq<(Seq<char>, JsonView)>,
    name: Seq<char>,
    value: JsonView,
    other: Seq<char>,
)
    ensures
        find_member(put_member(ms, name, value), other) == (if other == name {
            Some(value)
        } else {
            find_member(ms, other)
        }),
    decreases ms.len(),
{
    reveal_with_fuel(find_member, 2);
    let out = put_member(ms, name, value);
    assert(out[0] == (if ms.len() == 0 || ms[0].0 == name {
        (name, value)
    } else {
        ms[0]
    }));
    if ms.len() == 0 {
        assert(out.skip(1) =~= Seq::<(Seq<char>, JsonView)>::empty());
    } else if ms[0].0 == name {
        assert(out.skip(1) =~= ms.skip(1));
    } else {
        assert(out.skip(1) =~= put_member(ms.skip(1), name, value));
        lemma_put_find(ms.skip(1), name, value, other);
    }
}

/// Where the members of a name were dropped, a lookup of it finds none.
pub proof fn lemma_drop_find(ms: Seq<(Seq<char>, JsonView)>, name: Seq<char>, other: Seq<char>)
    ensures
        find_member(drop_member(ms, name), other) == (if other == name {
            None
        } else {
            find_member(ms, other)
        }),
    decreases ms.len(),
{
    if ms.len() > 0 {
        lemma_drop_find(ms.drop_last(), name, other);
        assert(ms =~= ms.drop_last().push(ms.last()));
        lemma_find_push(ms.drop_last(), ms.last(), other);
        lemma_find_push(drop_member(ms.drop_last(), name), ms.last(), other);
    }
}

/// A member at the end is found only where no earlier one has its name.
pub proof fn lemma_find_push(
    ms: Seq<(Seq<char>, JsonView)>,
    m: (Seq<char>, JsonView),
    name: Seq<char>,
)
    ensures
        find_member(ms.push(m), name) == (match find_member(ms, name) {
            Some(v) => Some(v),
            None => if m.0 == name {
                Some(m.1)
            } else {
                None
            },
        }),
    decreases ms.len(),
{
    if ms.len() == 0 {
        assert(ms.push(m).skip(1) =~= ms);
    } else {
        assert(ms.push(m).skip(1) =~= ms.skip(1).push(m));
        lemma_find_push(ms.skip(1), m, name);
    }
}

/// An object holds what its members hold.
pub proof fn lemma_object(ms: Vec<Member>)
    ensures
        Json::Object(ms)@ == JsonView::Object(members(ms@)),
{
    assert(Json::Object(ms)@->Object_0 =~= members(ms@));
}

/// An array holds what its items hold.
pub proof fn lemma_array(v: Vec<Json>)
    ensures
        Json::Array(v)@ == JsonView::Array(items(v@)),
{
    assert(Json::Array(v)@->Array_0 =~= items(v@));
}

/// A list with one more item holds one value more.
pub proof fn lemma_items_push(v: Seq<Json>, x: Json)
    ensures
        items(v.push(x)) == items(v).push(x@),
{
    assert(items(v.push(x)) =~= items(v).push(x@));
}

/// A text value.
pub fn text_value(s: &str) -> (r: Json)
    ensures
        r@ == JsonView::Text(s@),
{
    Json::Text(s.to_owned())
}

/// A whole number.
pub fn number_value(n: u64) -> (r: Json)
    ensures
        r@ == JsonView::Number(Number::Unsigned(n)),
{
    Json::Number(Number::Unsigned(n))
}

/// A named value.
pub fn named(name: &str, value: Json) -> (r: Member)
    ensures
        r.name@ == name@,
        r.value == value,
{
    Member { name: name.to_owned(), value }
}

/// An object of these members.
pub fn object(ms: Vec<Member>) -> (r: Json)
    ensures
        r@ == JsonView::Object(members(ms@)),
{
    proof {
        lemma_object(ms);
    }
    Json::Object(ms)
}

/// An array of these items.
pub fn array(v: Vec<Json>) -> (r: Json)
    ensures
        r@ == JsonView::Array(items(v@)),
{
    proof {
        lemma_array(v);
    }
    Json::Array(v)
}

impl Json {
    /// What this value holds.
    pub open spec fn model(&self) -> JsonView
        decreases self,
    {
        match self {
            Json::Null => JsonView::Null,
            Json::Bool(b) => JsonView::Bool(*b),
            Json::Number(n) => JsonView::Number(*n),
            Json::Text(s) => JsonView::Text(s@),
            Json::Array(v) => JsonView::Array(
                Seq::new(
                    v@.len(),
                    |i: int|
                        if 0 <= i < v@.len() {
                            v@[i].model()
                        } else {
                            JsonView::Null
                        },
                ),
            ),
            Json::Object(ms) => JsonView::Object(
                Seq::new(
                    ms@.len(),
                    |i: int|
                        if 0 <= i < ms@.len() {
                            (ms@[i].name@, ms@[i].value.model())
                        } else {
                            (Seq::empty(), JsonView::Null)
                        },
                ),
            ),
        }
    }

    /// A copy of this value.
    pub fn copy(&self) -> (r: Json)
        ensures
            r@ == self@,
        decreases self,
    {
        match self {
            Json::Null => Json::Null,
            Json::Bool(b) => Json::Bool(*b),
            Json::Number(n) => Json::Number(*n),
            Json::Text(s) => Json::Text(s.clone()),
            Json::Array(v) => {
                let mut out: Vec<Json> = Vec::new();
                let n: usize = v.len();
                for i in 0..n
                    invariant
                        n == v@.len(),
                        self == Json::Array(*v),
                        out@.len() == i,
                        forall|j: int| 0 <= j < i ==> (#[trigger] out@[j])@ == v@[j]@,
                {
                    assert(decreases_to!(*self => self->Array_0));
                    out.push(v[i].copy());
                }
                proof {
                    lemma_array(out);
                    lemma_array(*v);
                    assert(items(out@) =~= items(v@));
                }
                Json::Array(out)
            },
            Json::Object(ms) => {
                let mut out: Vec<Member> = Vec::new();
                let n: usize = ms.len();
                for i in 0..n
                    invariant
                        n == ms@.len(),
                        self == Json::Object(*ms),
                        out@.len() == i,
                        forall|j: int|
                            0 <= j < i ==> (#[trigger] out@[j]).name@ == ms@[j].name@
                                && out@[j].value@ == ms@[j].value@,
                {
                    assert(decreases_to!(*self => self->Object_0));
                    assert(decreases_to!(ms@[i as int] => ms@[i as int].value));
                    out.push(Member { name: ms[i].name.clone(), value: ms[i].value.copy() });
                }
                proof {
                    lemma_object(out);
                    lemma_object(*ms);
                    assert(members(out@) =~= members(ms@));
                }
                Json::Object(out)
            },
        }
    }

    /// The value named `name`, where this is an object that has one.
    pub fn get(&self, name: &str) -> (r: Option<&Json>)
        ensures
            opt_json(r) == self@.at(name@),
    {
        match self {
            Json::Object(ms) => {
                let n: usize = ms.len();
                let mut i: usize = 0;
                let ghost all = members(ms@);
                proof {
                    lemma_object(*ms);
                    assert(all.skip(0) =~= all);
                }
                while i < n
                    invariant
                        n == ms@.len(),
                        all == members(ms@),
                        self@ == JsonView::Object(all),
                        i <= n,
                        find_member(all, name@) == find_member(all.skip(i as int), name@),
                    decreases n - i,
                {
                    if same(ms[i].name.as_str(), name) {
                        assert(all.skip(i as int)[0] == all[i as int]);
                        return Some(&ms[i].value);
                    }
                    assert(all.skip(i as int).skip(1) =~= all.skip(i + 1));
                    i = i + 1;
                }
                None
            },
            _ => None,
        }
    }

    /// The value named `inner` of the value named `outer`.
    pub fn get2(&self, outer: &str, inner: &str) -> (r: Option<&Json>)
        ensures
            opt_json(r) == self@.at2(outer@, inner@),
    {
        match self.get(outer) {
            Some(v) => v.get(inner),
            None => None,
        }
    }

    /// The text, where this is one.
    pub fn as_text(&self) -> (r: Option<&str>)
        ensures
            crate::text::opt_str(r) == self@.text(),
    {
        match self {
            Json::Text(s) => Some(s.as_str()),
            _ => None,
        }
    }

    /// The number, where this is one.
    pub fn as_number(&self) -> (r: Option<Number>)
        ensures
            r == self@.number(),
    {
        match self {
            Json::Number(n) => Some(*n),
            _ => None,
        }
    }

    /// The truth value, where this is one.
    pub fn as_bool(&self) -> (r: Option<bool>)
        ensures
            r == self@.truth(),
    {
        match self {
            Json::Bool(b) => Some(*b),
            _ => None,
        }
    }

    /// The whole number that is not below zero, where this is one.
    pub fn as_unsigned(&self) -> (r: Option<u64>)
        ensures
            r == self@.unsigned(),
    {
        match self {
            Json::Number(Number::Unsigned(k)) => Some(*k),
            _ => None,
        }
    }

    /// The whole number within the range of `i64`, where this is one.
    pub fn as_signed(&self) -> (r: Option<i64>)
        ensures
            r == self@.signed(),
    {
        match self {
            Json::Number(Number::Unsigned(k)) => if *k <= 0x7FFF_FFFF_FFFF_FFFF {
                Some(*k as i64)
            } else {
                None
            },
            Json::Number(Number::Negative(k)) => Some(*k),
            _ => None,
        }
    }

    /// The items, where this is an array.
    pub fn as_array(&self) -> (r: Option<&Vec<Json>>)
        ensures
            (match r {
                Some(v) => Some(items(v@)),
                None => None,
            }) == self@.list(),
    {
        match self {
            Json::Array(v) => {
                proof {
                    lemma_array(*v);
                }
                Some(v)
            },
            _ => None,
        }
    }

    /// The text named `name`, where this is an object that has one.
    pub fn text_at(&self, name: &str) -> (r: Option<&str>)
        ensures
            crate::text::opt_str(r) == text_of(self@.at(name@)),
    {
        match self.get(name) {
            Some(v) => v.as_text(),
            None => None,
        }
    }

    /// The whole number named `name`, where this is an object that has one.
    pub fn unsigned_at(&self, name: &str) -> (r: Option<u64>)
        ensures
            r == unsigned_of(self@.at(name@)),
    {
        match self.get(name) {
            Some(v) => v.as_unsigned(),
            None => None,
        }
    }

    /// The number named `name`, where this is an object that has one.
    pub fn number_at(&self, name: &str) -> (r: Option<Number>)
        ensures
            r == number_of(self@.at(name@)),
    {
        match self.get(name) {
            Some(v) => v.as_number(),
            None => None,
        }
    }

    /// Puts a value under `name`. A value that is no object stays as it is.
    pub fn put(&mut self, name: &str, value: Json)
        ensures
            final(self)@ == (match old(self)@ {
                JsonView::Object(ms) => JsonView::Object(put_member(ms, name@, value@)),
                other => other,
            }),
    {
        match self {
            Json::Object(ms) => {
                proof {
                    lemma_object(*ms);
                }
                put_into(ms, name, value);
                proof {
                    lemma_object(*ms);
                }
            },
            _ => {},
        }
    }

    /// Removes what stands under `name`. A value that is no object stays as it is.
    pub fn remove(&mut self, name: &str)
        ensures
            final(self)@ == (match old(self)@ {
                JsonView::Object(ms) => JsonView::Object(drop_member(ms, name@)),
                other => other,
            }),
    {
        match self {
            Json::Object(ms) => {
                proof {
                    lemma_object(*ms);
                }
                remove_from(ms, name);
                proof {
                    lemma_object(*ms);
                }
            },
            _ => {},
        }
    }
}

fn put_into(ms: &mut Vec<Member>, name: &str, value: Json)
    ensures
        members(final(ms)@) == put_member(members(old(ms)@), name@, value@),
{
    let n: usize = ms.len();
    let mut i: usize = 0;
    let ghost all = members(ms@);
    assert(all.skip(0) =~= all);
    assert(all.take(0) + put_member(all, name@, value@) =~= put_member(all, name@, value@));
    while i < n
        invariant
            n == ms@.len(),
            all == members(ms@),
            *ms == *old(ms),
            i <= n,
            all.take(i as int) + put_member(all.skip(i as int), name@, value@) == put_member(
                all,
                name@,
                value@,
            ),
        decreases n - i,
    {
        if same(ms[i].name.as_str(), name) {
            let m = named(name, value);
            ms.set(i, m);
            let ghost rest = all.skip(i as int);
            assert(rest[0] == all[i as int]);
            assert(rest.skip(1) =~= all.skip(i + 1));
            assert(members(ms@) =~= all.take(i as int) + (seq![(name@, value@)] + rest.skip(1)));
            return ;
        }
        let ghost rest = all.skip(i as int);
        assert(rest[0] == all[i as int]);
        assert(rest.skip(1) =~= all.skip(i + 1));
        assert(all.take(i + 1) + put_member(rest.skip(1), name@, value@) =~= all.take(i as int)
            + put_member(rest, name@, value@));
        i = i + 1;
    }
    assert(all.skip(n as int) =~= Seq::<(Seq<char>, JsonView)>::empty());
    assert(all.take(n as int) =~= all);
    ms.push(named(name, value));
    assert(members(ms@) =~= all.push((name@, value@)));
}

fn remove_from(ms: &mut Vec<Member>, name: &str)
    ensures
        members(final(ms)@) == drop_member(members(old(ms)@), name@),
{
    let mut i: usize = 0;
    let ghost all = members(ms@);
    let ghost n = ms@.len();
    let ghost mut done: int = 0;
    assert(all.take(0) =~= Seq::<(Seq<char>, JsonView)>::empty());
    assert(all.skip(0) =~= all);
    while i < ms.len()
        invariant
            all == members(old(ms)@),
            i <= ms@.len(),
            0 <= done <= all.len(),
            ms@.len() - i == all.len() - done,
            members(ms@).take(i as int) == drop_member(all.take(done), name@),
            members(ms@).skip(i as int) == all.skip(done),
        decreases ms@.len() - i,
    {
        let ghost now = members(ms@);
        assert(now[i as int] == now.skip(i as int)[0]);
        assert(all.skip(done)[0] == all[done]);
        assert(all.take(done + 1).drop_last() =~= all.take(done));
        if same(ms[i].name.as_str(), name) {
            let _ = ms.remove(i);
            assert(members(ms@) =~= now.remove(i as int));
            assert(members(ms@).take(i as int) =~= now.take(i as int));
            assert(members(ms@).skip(i as int) =~= now.skip(i as int).skip(1));
        } else {
            i = i + 1;
            assert(now.take(i as int) =~= now.take(i - 1).push(now[i - 1]));
            assert(now.skip(i as int) =~= now.skip(i - 1).skip(1));
        }
        assert(all.skip(done).skip(1) =~= all.skip(done + 1));
        proof {
            done = done + 1;
        }
    }
    assert(done == all.len());
    assert(all.take(done) =~= all);
    assert(members(ms@).take(i as int) =~= members(ms@));
}

// ---------------------------------------------------------------------------
// What is promised of values
// ---------------------------------------------------------------------------

/// A value is found under the first member of its name, and none where no member has the name.
pub proof fn law_first_member_is_found(
    before: Seq<(Seq<char>, JsonView)>,
    name: Seq<char>,
    value: JsonView,
    after: Seq<(Seq<char>, JsonView)>,
)
    requires
        forall|i: int| 0 <= i < before.len() ==> (#[trigger] before[i]).0 != name,
    ensures
        JsonView::Object(before + seq![(name, value)] + after).at(name) == Some(value),
        JsonView::Object(before).at(name) is None,
    decreases before.len(),
{
    let whole = before + seq![(name, value)] + after;
    if before.len() == 0 {
        assert(whole[0] == (name, value));
    } else {
        let rest = before.skip(1);
        assert(before[0].0 != name);
        assert forall|i: int| 0 <= i < rest.len() implies (#[trigger] rest[i]).0 != name by {
            assert(rest[i] == before[i + 1]);
        }
        law_first_member_is_found(rest, name, value, after);
        assert(whole[0] == before[0]);
        assert(whole.skip(1) =~= rest + seq![(name, value)] + after);
    }
}

/// What is put under a name is found there, what is dropped is not, and what stands under another
/// name stays.
pub proof fn law_members_are_put_and_dropped(
    ms: Seq<(Seq<char>, JsonView)>,
    name: Seq<char>,
    value: JsonView,
    other: Seq<char>,
)
    requires
        other != name,
    ensures
        find_member(put_member(ms, name, value), name) == Some(value),
        find_member(put_member(ms, name, value), other) == find_member(ms, other),
        find_member(drop_member(ms, name), name) is None,
        find_member(drop_member(ms, name), other) == find_member(ms, other),
{
    lemma_put_find(ms, name, value, other);
    lemma_put_find(ms, name, value, name);
    lemma_drop_find(ms, name, other);
    lemma_drop_find(ms, name, name);
}

/// A value is read as what it is, and as nothing else.
pub proof fn law_values_are_what_they_are(
    s: Seq<char>,
    b: bool,
    k: u64,
    m: i64,
    bits: u64,
    list: Seq<JsonView>,
    v: JsonView,
)
    ensures
        JsonView::Text(s).text() == Some(s),
        JsonView::Bool(b).truth() == Some(b),
        JsonView::Number(Number::Unsigned(k)).unsigned() == Some(k),
        k <= i64::MAX ==> JsonView::Number(Number::Unsigned(k)).signed() == Some(k as i64),
        k > i64::MAX ==> JsonView::Number(Number::Unsigned(k)).signed() is None,
        JsonView::Number(Number::Negative(m)).signed() == Some(m),
        JsonView::Number(Number::Negative(m)).unsigned() is None,
        JsonView::Number(Number::Float(bits)).unsigned() is None,
        JsonView::Number(Number::Float(bits)).signed() is None,
        JsonView::Number(Number::Float(bits)).number() == Some(Number::Float(bits)),
        JsonView::Array(list).list() == Some(list),
        !(v is Text) ==> v.text() is None,
        !(v is Bool) ==> v.truth() is None,
        !(v is Number) ==> v.number() is None && v.unsigned() is None && v.signed() is None,
        !(v is Array) ==> v.list() is None,
        !(v is Object) ==> v.at(s) is None,
{
}

/// A number is above zero where it is a whole number that is, or a double whose sign is not set and
/// that is neither zero nor no number.
pub proof fn law_positive_numbers_are_known(k: u64, m: i64, bits: u64)
    ensures
        is_positive(Number::Unsigned(k)) == (k != 0),
        !is_positive(Number::Negative(m)),
        bits >= 0x8000_0000_0000_0000 ==> !is_positive(Number::Float(bits)),
        bits == 0 ==> !is_positive(Number::Float(bits)),
        1 <= bits <= 0x7FEF_FFFF_FFFF_FFFF ==> is_positive(Number::Float(bits)),
        is_positive(Number::Float(0x7FF0_0000_0000_0000)),
        0x7FF0_0000_0000_0000 < bits ==> !is_positive(Number::Float(bits)),
{
}

/// The whole part of a number is the greatest whole number that is not above it, within the range: a
/// whole number is itself; a double below one, below zero or no number counts as zero, one beyond
/// the range as the greatest number in it; and any other, which is its mantissa times a power of
/// two, is rounded down.
pub proof fn law_whole_part_is_rounded_down(k: u64, m: i64, bits: u64)
    ensures
        whole_part(Number::Unsigned(k)) == k,
        whole_part(Number::Negative(m)) == 0,
        bits < 0x3FF0_0000_0000_0000 ==> whole_part(Number::Float(bits)) == 0,
        bits > 0x7FF0_0000_0000_0000 ==> whole_part(Number::Float(bits)) == 0,
        0x43F0_0000_0000_0000 <= bits <= 0x7FF0_0000_0000_0000 ==> whole_part(Number::Float(bits))
            == u64::MAX,
        0x3FF0_0000_0000_0000 <= bits < 0x43F0_0000_0000_0000 ==> {
            let exponent = bits as int / 0x10_0000_0000_0000 - 1075;
            let mantissa = 0x10_0000_0000_0000 + bits as int % 0x10_0000_0000_0000;
            let r = whole_part(Number::Float(bits)) as int;
            &&& exponent >= 0 ==> r == mantissa * pow2(exponent as nat)
            &&& exponent < 0 ==> r * pow2((-exponent) as nat) <= mantissa < (r + 1) * pow2(
                (-exponent) as nat,
            )
        },
{
    if 0x3FF0_0000_0000_0000 <= bits < 0x43F0_0000_0000_0000 {
        let exponent = bits as int / 0x10_0000_0000_0000 - 1075;
        let mantissa = 0x10_0000_0000_0000 + bits as int % 0x10_0000_0000_0000;
        lemma2_to64();
        if exponent < 0 {
            let p = pow2((-exponent) as nat) as int;
            lemma_pow2_pos((-exponent) as nat);
            lemma_fundamental_div_mod(mantissa, p);
            lemma_mod_bound(mantissa, p);
            let q = mantissa / p;
            assert(0 <= q <= mantissa) by (nonlinear_arith)
                requires
                    mantissa == p * q + mantissa % p,
                    0 <= mantissa % p < p,
                    p > 0,
                    mantissa >= 0,
            ;
            assert(q * p <= mantissa < (q + 1) * p) by (nonlinear_arith)
                requires
                    mantissa == p * q + mantissa % p,
                    0 <= mantissa % p < p,
            ;
        } else {
            let p = pow2(exponent as nat);
            assert(1 <= p <= 2048) by {
                lemma_pow2_pos(exponent as nat);
                if exponent < 11 {
                    lemma_pow2_strictly_increases(exponent as nat, 11);
                }
            }
            assert(0 <= mantissa * p <= 0x1F_FFFF_FFFF_FFFF * 2048) by (nonlinear_arith)
                requires
                    0 <= mantissa <= 0x1F_FFFF_FFFF_FFFF,
                    1 <= p <= 2048,
            ;
            if exponent == 0 {
                assert(mantissa / 1 == mantissa);
                assert(mantissa * 1 == mantissa);
            }
        }
    }
}

} // verus!
