//! JSON values of `serde_json`, and what they hold.
use crate::number::Real;
use vstd::prelude::*;

verus! {

/// What a JSON value holds. An object is a map: the order of its members does
/// not count.
#[verifier::ext_equal]
pub enum JsonView {
    Null,
    Bool(bool),
    Int(int),
    Real(Real),
    Text(Seq<char>),
    Array(Seq<JsonView>),
    Object(Map<Seq<char>, JsonView>),
}

impl JsonView {
    /// The member of that name, where there is one.
    pub open spec fn member(self, key: Seq<char>) -> Option<JsonView> {
        match self {
            JsonView::Object(m) => if m.contains_key(key) {
                Some(m[key])
            } else {
                None
            },
            _ => None,
        }
    }

    pub open spec fn text(self) -> Option<Seq<char>> {
        match self {
            JsonView::Text(s) => Some(s),
            _ => None,
        }
    }

    pub open spec fn items(self) -> Option<Seq<JsonView>> {
        match self {
            JsonView::Array(s) => Some(s),
            _ => None,
        }
    }

    /// The object without members.
    pub open spec fn empty() -> JsonView {
        JsonView::Object(Map::empty())
    }

    /// The object with that member set.
    pub open spec fn with(self, key: Seq<char>, value: JsonView) -> JsonView {
        JsonView::Object(self->Object_0.insert(key, value))
    }

    /// A number as JSON has it: `null` where it is not finite.
    pub open spec fn number(r: Real) -> JsonView {
        if r.finite() {
            JsonView::Real(r)
        } else {
            JsonView::Null
        }
    }
}

/// The member of an optional value.
pub open spec fn member_of(v: Option<JsonView>, key: Seq<char>) -> Option<JsonView> {
    match v {
        Some(v) => v.member(key),
        None => None,
    }
}

/// The texts among `items`, in order.
pub open spec fn texts_in(items: Seq<JsonView>) -> Seq<Seq<char>>
    decreases items.len(),
{
    if items.len() == 0 {
        Seq::empty()
    } else {
        match items.last() {
            JsonView::Text(s) => texts_in(items.drop_last()).push(s),
            _ => texts_in(items.drop_last()),
        }
    }
}

/// Texts as an array of JSON strings.
pub open spec fn text_array(list: Seq<Seq<char>>) -> JsonView {
    JsonView::Array(Seq::new(list.len(), |i: int| JsonView::Text(list[i])))
}

/// Nesting of arrays and objects is at most `depth`.
pub open spec fn shallow(v: JsonView, depth: nat) -> bool
    decreases depth,
{
    match v {
        JsonView::Array(items) => depth > 0 && forall|i: int|
            0 <= i < items.len() ==> shallow(#[trigger] items[i], (depth - 1) as nat),
        JsonView::Object(m) => depth > 0 && forall|k: Seq<char>|
            m.contains_key(k) ==> shallow(#[trigger] m[k], (depth - 1) as nat),
        _ => true,
    }
}

/// Equal but for the last digits of numbers with a fraction, down to `depth`
/// levels.
pub open spec fn alike(a: JsonView, b: JsonView, depth: nat) -> bool
    decreases depth,
{
    match (a, b) {
        (JsonView::Real(_), JsonView::Real(_)) => true,
        (JsonView::Array(x), JsonView::Array(y)) => depth > 0 && x.len() == y.len() && forall|i: int|
            0 <= i < x.len() ==> alike(#[trigger] x[i], y[i], (depth - 1) as nat),
        (JsonView::Object(x), JsonView::Object(y)) => depth > 0 && x.dom() == y.dom() && forall|
            k: Seq<char>,
        |
            x.contains_key(k) ==> alike(#[trigger] x[k], y[k], (depth - 1) as nat),
        _ => a == b,
    }
}

// ---------------------------------------------------------------------------
// serde_json
// ---------------------------------------------------------------------------

#[verifier::external_type_specification]
#[verifier::external_body]
pub struct ExValue(serde_json::Value);

#[verifier::external_type_specification]
#[verifier::external_body]
pub struct ExJsonError(serde_json::Error);

/// What a `serde_json::Value` holds.
pub uninterp spec fn json_of(v: serde_json::Value) -> JsonView;

/// What `serde_json::from_str` reads in a text, or what its error says.
pub uninterp spec fn json_text(text: Seq<char>) -> Result<JsonView, Seq<char>>;

/// What `serde_json::to_string` writes for a value.
pub uninterp spec fn json_written(v: JsonView) -> Seq<char>;

/// What `Value::as_f64` gives for a value.
pub uninterp spec fn json_number(v: JsonView) -> Option<Real>;

/// How `Debug` shows a list of values.
pub uninterp spec fn json_shown(items: Seq<JsonView>) -> Seq<char>;

/// What the values of a list hold.
pub open spec fn views(items: Seq<serde_json::Value>) -> Seq<JsonView> {
    Seq::new(items.len(), |i: int| json_of(items[i]))
}

/// `serde_json::from_str`: the value that a JSON text denotes, or the text of
/// the error, a function of the text.
#[verifier::external_body]
pub(crate) fn json_parse(text: &str) -> (r: Result<serde_json::Value, String>)
    ensures
        match r {
            Ok(v) => json_text(text@) == Ok::<JsonView, Seq<char>>(json_of(v)),
            Err(e) => json_text(text@) == Err::<JsonView, Seq<char>>(e@),
        },
{
    serde_json::from_str(text).map_err(|e| e.to_string())
}

/// `format!` of a list of values with `{:?}`: a function of what they hold.
/// The members of an object are shown in the order of their names.
#[verifier::external_body]
pub(crate) fn show_values(items: &Vec<serde_json::Value>) -> (text: String)
    ensures
        text@ == json_shown(views(items@)),
{
    format!("{items:?}")
}

/// `serde_json::to_string`: always succeeds on a `Value`. Reading the text
/// again gives the same value, but for the last digits of numbers with a
/// fraction, where the value is nested at most 127 levels deep, the parser's
/// limit. Such numbers are finite and written with the fewest digits that tell
/// them apart. The parser multiplies those digits by a power of ten, each
/// rounded; the product of the largest, 1.7976931348623157e308, stays finite.
#[verifier::external_body]
pub(crate) fn json_write(v: &serde_json::Value) -> (r: Result<String, serde_json::Error>)
    ensures
        match r {
            Ok(text) => {
                &&& text@ == json_written(json_of(*v))
                &&& shallow(json_of(*v), 127) ==> json_text(text@) is Ok && alike(
                    json_of(*v),
                    json_text(text@)->Ok_0,
                    127,
                )
            },
            Err(_) => false,
        },
{
    serde_json::to_string(v)
}

/// `Value::get` with a key: the member of an object, nothing of any other value.
#[verifier::external_body]
pub(crate) fn json_get<'a>(v: &'a serde_json::Value, key: &str) -> (r: Option<
    &'a serde_json::Value,
>)
    ensures
        match r {
            Some(m) => json_of(*v).member(key@) == Some(json_of(*m)),
            None => json_of(*v).member(key@) is None,
        },
{
    v.get(key)
}

/// `Value::as_str`: the text of a string, nothing of any other value.
#[verifier::external_body]
pub(crate) fn json_as_str<'a>(v: &'a serde_json::Value) -> (r: Option<&'a str>)
    ensures
        match r {
            Some(s) => json_of(*v).text() == Some(s@),
            None => json_of(*v).text() is None,
        },
{
    v.as_str()
}

/// `Value::as_array`: the items of an array, nothing of any other value.
#[verifier::external_body]
pub(crate) fn json_as_array<'a>(v: &'a serde_json::Value) -> (r: Option<&'a Vec<serde_json::Value>>)
    ensures
        match r {
            Some(items) => json_of(*v).items() == Some(views(items@)),
            None => json_of(*v).items() is None,
        },
{
    v.as_array()
}

/// `Value::as_f64`: a number with a fraction as it is, an integer converted,
/// nothing of any other value.
#[verifier::external_body]
pub(crate) fn json_as_real(v: &serde_json::Value) -> (r: Option<Real>)
    ensures
        r == json_number(json_of(*v)),
        match json_of(*v) {
            JsonView::Real(x) => r == Some(x),
            JsonView::Int(_) => r is Some,
            _ => r is None,
        },
{
    match v.as_f64() {
        Some(x) => Some(Real { bits: x.to_bits() }),
        None => None,
    }
}

/// `Value::from` of a string.
#[verifier::external_body]
pub(crate) fn json_string(text: &str) -> (v: serde_json::Value)
    ensures
        json_of(v) == JsonView::Text(text@),
{
    serde_json::Value::from(text)
}

/// `Value::from` of an integer.
#[verifier::external_body]
pub(crate) fn json_int(n: i64) -> (v: serde_json::Value)
    ensures
        json_of(v) == JsonView::Int(n as int),
{
    serde_json::Value::from(n)
}

/// `Value::from` of a floating-point number: `null` where it is not finite.
#[verifier::external_body]
pub(crate) fn json_real(r: Real) -> (v: serde_json::Value)
    ensures
        json_of(v) == JsonView::number(r),
{
    let x = <<arrow::datatypes::Float64Type as arrow::datatypes::ArrowPrimitiveType>::Native>::from_bits(
        r.bits,
    );
    serde_json::Value::from(x)
}

/// `Value::from` of a list of values: an array of them, in order.
#[verifier::external_body]
pub(crate) fn json_array(items: Vec<serde_json::Value>) -> (v: serde_json::Value)
    ensures
        json_of(v) == JsonView::Array(views(items@)),
{
    serde_json::Value::from(items)
}

/// `Value::default`: `null`.
#[verifier::external_body]
pub(crate) fn json_null() -> (v: serde_json::Value)
    ensures
        json_of(v) == JsonView::Null,
{
    serde_json::Value::default()
}

/// `Map::new` as a value: the object without members.
#[verifier::external_body]
pub(crate) fn json_object() -> (v: serde_json::Value)
    ensures
        json_of(v) == JsonView::empty(),
{
    serde_json::Value::Object(serde_json::Map::new())
}

/// Assignment through `Value`'s `IndexMut` with a key, which panics on a value
/// that is neither an object nor `null`: an object gets that member.
#[verifier::external_body]
pub(crate) fn json_put(object: &mut serde_json::Value, key: &str, value: serde_json::Value)
    requires
        json_of(*old(object)) is Object,
    ensures
        json_of(*final(object)) == json_of(*old(object)).with(key@, json_of(value)),
{
    object[key] = value;
}

// ---------------------------------------------------------------------------
// On top of them
// ---------------------------------------------------------------------------

/// The texts among the items of an array, in order.
pub(crate) fn texts_among(items: &Vec<serde_json::Value>) -> (out: Vec<String>)
    ensures
        crate::text::texts(out@) == texts_in(views(items@)),
{
    let mut out: Vec<String> = Vec::new();
    let mut i: usize = 0;
    assert(views(items@).take(0) == Seq::<JsonView>::empty());
    while i < items.len()
        invariant
            i <= items@.len(),
            crate::text::texts(out@) == texts_in(views(items@).take(i as int)),
        decreases items@.len() - i,
    {
        let ghost before = out@;
        assert(views(items@).take(i + 1).drop_last() == views(items@).take(i as int));
        assert(views(items@).take(i + 1).last() == json_of(items@[i as int]));
        match json_as_str(&items[i]) {
            Some(s) => {
                out.push(s.to_string());
                assert(crate::text::texts(out@) == crate::text::texts(before).push(s@));
            },
            None => {},
        }
        i = i + 1;
    }
    assert(views(items@).take(i as int) == views(items@));
    out
}

/// An array of strings.
pub(crate) fn json_texts(list: &Vec<String>) -> (v: serde_json::Value)
    ensures
        json_of(v) == text_array(crate::text::texts(list@)),
{
    let mut items: Vec<serde_json::Value> = Vec::new();
    let mut i: usize = 0;
    while i < list.len()
        invariant
            i <= list@.len(),
            items@.len() == i,
            forall|j: int| 0 <= j < i ==> json_of(#[trigger] items@[j]) == JsonView::Text(list@[j]@),
        decreases list@.len() - i,
    {
        items.push(json_string(list[i].as_str()));
        i = i + 1;
    }
    proof {
        let want = Seq::new(
            crate::text::texts(list@).len(),
            |i: int| JsonView::Text(crate::text::texts(list@)[i]),
        );
        assert(views(items@) =~= want);
    }
    json_array(items)
}

/// What reads like an array of texts is that array.
pub proof fn lemma_alike_texts(list: Seq<Seq<char>>, read: JsonView, depth: nat)
    requires
        alike(text_array(list), read, depth),
    ensures
        read == text_array(list),
{
    let own = text_array(list)->Array_0;
    match read {
        JsonView::Array(seen) => {
            assert forall|i: int| 0 <= i < seen.len() implies seen[i] == own[i] by {
                assert(alike(own[i], seen[i], (depth - 1) as nat));
            }
            assert(seen =~= own);
        },
        _ => {},
    }
}

pub proof fn lemma_alike_member(a: JsonView, b: JsonView, depth: nat, key: Seq<char>)
    requires
        depth > 0,
        alike(a, b, depth),
    ensures
        match a.member(key) {
            Some(x) => b.member(key) is Some && alike(x, b.member(key)->0, (depth - 1) as nat),
            None => b.member(key) is None,
        },
{
    match (a, b) {
        (JsonView::Object(x), JsonView::Object(y)) => {
            assert(x.dom().contains(key) == y.dom().contains(key));
            if x.contains_key(key) {
                assert(alike(x[key], y[key], (depth - 1) as nat));
            }
        },
        _ => {},
    }
}

/// The texts of a list are all found in the array of them, in order, and what
/// is no text does not count.
pub proof fn law_texts_are_found_in_order(a: Seq<JsonView>, b: Seq<JsonView>, list: Seq<Seq<char>>)
    ensures
        texts_in(a + b) == texts_in(a) + texts_in(b),
        b.len() == 1 && b[0] is Text ==> texts_in(b) == seq![b[0]->Text_0],
        b.len() == 1 && !(b[0] is Text) ==> texts_in(b).len() == 0,
        text_array(list) is Array,
        text_array(list)->Array_0.len() == list.len(),
        forall|i: int|
            #![trigger text_array(list)->Array_0[i]]
            0 <= i < list.len() ==> text_array(list)->Array_0[i] == JsonView::Text(list[i]),
    decreases b.len(),
{
    if b.len() == 0 {
        assert(a + b =~= a);
        assert(texts_in(a) + texts_in(b) =~= texts_in(a));
    } else {
        law_texts_are_found_in_order(a, b.drop_last(), list);
        assert((a + b).drop_last() =~= a + b.drop_last());
        assert((a + b).last() == b.last());
        if b.len() == 1 {
            assert(texts_in(b.drop_last()) =~= Seq::<Seq<char>>::empty());
        }
        if b.last() is Text {
            let t = b.last()->Text_0;
            assert(texts_in(a) + texts_in(b.drop_last()).push(t) =~= (texts_in(a) + texts_in(
                b.drop_last(),
            )).push(t));
            if b.len() == 1 {
                assert(texts_in(b) =~= seq![b[0]->Text_0]);
            }
        }
    }
}

/// Setting a member leaves the others as they are, and a number that is not
/// finite is written as `null`.
pub proof fn law_members_are_set(v: JsonView, key: Seq<char>, value: JsonView, other: Seq<char>, r: Real)
    requires
        v is Object,
    ensures
        v.with(key, value).member(key) == Some(value),
        other != key ==> v.with(key, value).member(other) == v.member(other),
        JsonView::empty().member(other) is None,
        r.finite() ==> JsonView::number(r) == JsonView::Real(r),
        !r.finite() ==> JsonView::number(r) is Null,
{
}

} // verus!
