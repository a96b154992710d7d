//! How values are compared, and how they are shown in a report.
use crate::json::{contents, numeral, Json, JsonNumber, JsonView, Numeral};
use crate::text::{concat3, same_text, str_of};
use serde_json::Value as SerdeValue;
use vstd::prelude::*;

verus! {

/// Whether two floats are equal that are not held alike.
pub uninterp spec fn equal_floats(a: Numeral, b: Numeral) -> bool;

/// Whether two numbers are equal: integers where they are the same, floats as floats, and an
/// integer never to a float.
pub open spec fn equal_numbers(a: Numeral, b: Numeral) -> bool {
    a == b || (a is Float && b is Float && equal_floats(a, b))
}

/// `serde_json::Number` compared with `==`: integers are equal where they are the same, and never
/// equal to a float; floats are compared as floats, and each is equal to itself, for a number is
/// finite.
#[verifier::external_body]
fn number_eq(a: &serde_json::Number, b: &serde_json::Number) -> (r: bool)
    ensures
        r == (numeral(*a) == numeral(*b) || (numeral(*a) is Float && numeral(*b) is Float
            && equal_floats(numeral(*a), numeral(*b)))),
{
    a == b
}

/// Whether two values are equal: numbers as numbers, everything else as what it is.
pub open spec fn alike(a: JsonView, b: JsonView) -> bool
    decreases a,
{
    match (a, b) {
        (JsonView::Null, JsonView::Null) => true,
        (JsonView::Bool(x), JsonView::Bool(y)) => x == y,
        (JsonView::Number(x), JsonView::Number(y)) => equal_numbers(x, y),
        (JsonView::Text(x), JsonView::Text(y)) => x == y,
        (JsonView::Array(x), JsonView::Array(y)) => x.len() == y.len() && (forall|i: int|
            0 <= i < x.len() ==> alike(#[trigger] x[i], y[i])),
        (JsonView::Object(x), JsonView::Object(y)) => x.len() == y.len() && (forall|i: int|
            0 <= i < x.len() ==> (#[trigger] x[i]).0 == y[i].0 && alike(x[i].1, y[i].1)),
        _ => false,
    }
}

impl JsonNumber {
    /// Whether two numbers are equal.
    pub fn equals(&self, other: &JsonNumber) -> (r: bool)
        ensures
            r == equal_numbers(self@, other@),
    {
        number_eq(&self.to_number(), &other.to_number())
    }
}

/// Whether two values are equal.
pub fn same_json(a: &Json, b: &Json) -> (r: bool)
    ensures
        r == alike(a@, b@),
    decreases a@,
{
    proof {
        a.lemma_view();
        b.lemma_view();
    }
    match (a, b) {
        (Json::Null, Json::Null) => true,
        (Json::Bool(x), Json::Bool(y)) => *x == *y,
        (Json::Number(x), Json::Number(y)) => x.equals(y),
        (Json::Text(x), Json::Text(y)) => same_text(x.as_str(), y.as_str()),
        (Json::Array(x), Json::Array(y)) => {
            if x.len() != y.len() {
                return false;
            }
            let mut i: usize = 0;
            while i < x.len()
                invariant
                    i <= x@.len() == y@.len(),
                    a@ == JsonView::Array(x@.map_values(|j: Json| j@)),
                    b@ == JsonView::Array(y@.map_values(|j: Json| j@)),
                    forall|k: int|
                        0 <= k < i ==> alike(#[trigger] a@->Array_0[k], b@->Array_0[k]),
                decreases x@.len() - i,
            {
                assert(x@[i as int]@ == a@->Array_0[i as int]);
                assert(y@[i as int]@ == b@->Array_0[i as int]);
                if !same_json(&x[i], &y[i]) {
                    return false;
                }
                i = i + 1;
            }
            true
        },
        (Json::Object(x), Json::Object(y)) => {
            let n: usize = x.len();
            if n != y.len() {
                return false;
            }
            let mut i: usize = 0;
            while i < n
                invariant
                    i <= n == x@.len(),
                    n == y@.len(),
                    a@ == JsonView::Object(x@),
                    b@ == JsonView::Object(y@),
                    forall|k: int|
                        0 <= k < i ==> (#[trigger] x@[k]).0 == y@[k].0 && alike(
                            x@[k].1,
                            y@[k].1,
                        ),
                decreases n - i,
            {
                assert(x@[i as int].1 == a@->Object_0[i as int].1);
                if !same_text(x.key_at(i), y.key_at(i)) || !same_json(x.value_at(i), y.value_at(i)) {
                    return false;
                }
                i = i + 1;
            }
            true
        },
        _ => false,
    }
}

/// Whether two values that may be missing are equal, or both are.
pub open spec fn alike_options(a: Option<JsonView>, b: Option<JsonView>) -> bool {
    match (a, b) {
        (Some(x), Some(y)) => alike(x, y),
        (None, None) => true,
        _ => false,
    }
}

/// Every value is equal to itself.
pub proof fn values_equal_themselves(v: JsonView)
    ensures
        alike(v, v),
    decreases v,
{
    match v {
        JsonView::Array(x) => {
            assert forall|i: int| 0 <= i < x.len() implies alike(#[trigger] x[i], x[i]) by {
                values_equal_themselves(x[i]);
            }
        },
        JsonView::Object(x) => {
            assert forall|i: int| 0 <= i < x.len() implies (#[trigger] x[i]).0 == x[i].0 && alike(
                x[i].1,
                x[i].1,
            ) by {
                values_equal_themselves(x[i].1);
            }
        },
        _ => {},
    }
}

/// How a value is shown in a report.
pub uninterp spec fn shown_value(v: JsonView) -> Seq<char>;

/// `serde_json::Value` as the report shows it, by its `Debug`.
#[verifier::external_body]
fn debug_value(v: &SerdeValue) -> (r: String)
    ensures
        r@ == shown_value(contents(*v)),
{
    format!("{v:?}")
}

/// How a text is shown in a report: in quotes, with what could not be seen spelt out.
pub uninterp spec fn quoted(s: Seq<char>) -> Seq<char>;

/// `str` as the report shows it, by its `Debug`.
#[verifier::external_body]
fn debug_text(s: &str) -> (r: String)
    ensures
        r@ == quoted(s@),
{
    format!("{s:?}")
}

/// How a number is shown in a report, as a float.
pub uninterp spec fn shown_float(n: Numeral) -> Seq<char>;

/// `serde_json::Number::as_f64` as the report shows it, by the `Debug` of what it returns.
#[verifier::external_body]
fn debug_float(n: &serde_json::Number) -> (r: String)
    ensures
        r@ == shown_float(numeral(*n)),
{
    format!("{:?}", n.as_f64())
}

/// How a value that may be missing is shown in a report.
pub open spec fn shown_option(v: Option<JsonView>) -> Seq<char> {
    match v {
        Some(x) => "Some("@ + shown_value(x) + ")"@,
        None => "None"@,
    }
}

/// How a text that may be missing is shown in a report.
pub open spec fn quoted_option(s: Option<Seq<char>>) -> Seq<char> {
    match s {
        Some(x) => "Some("@ + quoted(x) + ")"@,
        None => "None"@,
    }
}

/// How a number that may be missing is shown in a report.
pub open spec fn shown_number(n: Option<Numeral>) -> Seq<char> {
    match n {
        Some(x) => shown_float(x),
        None => "None"@,
    }
}

/// How a value is shown in a report.
pub fn show_value(v: &Json) -> (r: String)
    ensures
        r@ == shown_value(v@),
{
    debug_value(&v.to_value())
}

/// How a value that may be missing is shown in a report.
pub fn show_option(v: Option<&Json>) -> (r: String)
    ensures
        r@ == shown_option(crate::json::view_of_ref(v)),
{
    match v {
        Some(x) => {
            let t: String = show_value(x);
            concat3("Some(", t.as_str(), ")")
        },
        None => "None".to_owned(),
    }
}

/// How a text is shown in a report.
pub fn quote(s: &str) -> (r: String)
    ensures
        r@ == quoted(s@),
{
    debug_text(s)
}

/// How a text that may be missing is shown in a report.
pub fn quote_option(s: Option<&str>) -> (r: String)
    ensures
        r@ == quoted_option(str_of(s)),
{
    match s {
        Some(x) => {
            let t: String = debug_text(x);
            concat3("Some(", t.as_str(), ")")
        },
        None => "None".to_owned(),
    }
}

/// The number of an optional one.
pub open spec fn numeral_option(n: Option<JsonNumber>) -> Option<Numeral> {
    match n {
        Some(x) => Some(x@),
        None => None,
    }
}

/// How a number that may be missing is shown in a report.
pub fn show_number(n: &Option<JsonNumber>) -> (r: String)
    ensures
        r@ == shown_number(numeral_option(*n)),
{
    match n {
        Some(x) => debug_float(&x.to_number()),
        None => "None".to_owned(),
    }
}

/// Texts as they are shown in a report, one behind another.
pub open spec fn quoted_list(s: Seq<Seq<char>>) -> Seq<char>
    decreases s.len(),
{
    if s.len() == 0 {
        Seq::empty()
    } else if s.len() == 1 {
        quoted(s[0])
    } else {
        quoted_list(s.drop_last()) + ", "@ + quoted(s.last())
    }
}

/// How a set of texts is shown in a report.
pub open spec fn shown_set(s: Seq<Seq<char>>) -> Seq<char> {
    "{"@ + quoted_list(s) + "}"@
}

/// How a set of texts is shown in a report.
pub fn show_set(v: &Vec<String>) -> (r: String)
    ensures
        r@ == shown_set(crate::text::texts(v@)),
{
    let ghost all = crate::text::texts(v@);
    let mut out: String = String::new();
    let mut i: usize = 0;
    assert(all.take(0) =~= Seq::<Seq<char>>::empty());
    while i < v.len()
        invariant
            i <= v@.len(),
            all == crate::text::texts(v@),
            out@ == quoted_list(all.take(i as int)),
        decreases v@.len() - i,
    {
        assert(all.take(i + 1).drop_last() =~= all.take(i as int));
        assert(all.take(i + 1).last() == v@[i as int]@);
        let q: String = debug_text(v[i].as_str());
        if i > 0 {
            out.append(", ");
            out.append(q.as_str());
        } else {
            assert(all.take(1)[0] == v@[0]@);
            out = q;
        }
        i = i + 1;
    }
    assert(all.take(all.len() as int) =~= all);
    concat3("{", out.as_str(), "}")
}

/// Two values are equal only where they are of one kind: truth values and texts where they are
/// the same, numbers as numbers, arrays item by item, and objects field by field.
pub proof fn values_are_equal_by_what_they_hold(a: JsonView, b: JsonView, i: int)
    ensures
        alike(a, b) ==> {
            &&& a is Null <==> b is Null
            &&& a is Bool <==> b is Bool
            &&& a is Number <==> b is Number
            &&& a is Text <==> b is Text
            &&& a is Array <==> b is Array
            &&& a is Object <==> b is Object
            &&& a is Bool || a is Text || a is Null ==> a == b
            &&& a matches JsonView::Number(x) ==> (b matches JsonView::Number(y) ==> (x is Float
                <==> y is Float) && (x is Float || x == y))
            &&& a matches JsonView::Array(x) ==> (b matches JsonView::Array(y) ==> x.len()
                == y.len() && (0 <= i < x.len() ==> alike(x[i], y[i])))
            &&& a matches JsonView::Object(x) ==> (b matches JsonView::Object(y) ==> x.len()
                == y.len() && (0 <= i < x.len() ==> x[i].0 == y[i].0 && alike(x[i].1, y[i].1)))
        },
        a == b ==> alike(a, b),
{
    values_equal_themselves(a);
}

} // verus!
