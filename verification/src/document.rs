//! The configuration document, and what the management commands make of it.
//!
//! The document is edited through `toml_edit`, entry by entry: what a command does not name keeps
//! its place, and a refused command leaves the document alone.
use crate::json::{
    as_text, fields_member, nearest_float, numeral, numeral_as_i64, text_member, Fields, Json,
    JsonObject, JsonView,
};
use crate::keyed::{ascending, field};
use crate::text::{concat3, precedes, precedes_irreflexive, same_text, strip_prefix, stripped};
use toml_edit::Value as EditValue;
use vstd::prelude::*;

verus! {

#[verifier::external_type_specification]
#[verifier::external_body]
pub struct ExTable(toml_edit::Table);

#[verifier::external_type_specification]
#[verifier::external_body]
pub struct ExItem(toml_edit::Item);

#[verifier::external_type_specification]
#[verifier::external_body]
pub struct ExArrayOfTables(toml_edit::ArrayOfTables);

#[verifier::external_type_specification]
#[verifier::external_body]
pub struct ExEditValue(EditValue);

#[verifier::external_type_specification]
#[verifier::external_body]
pub struct ExArray(toml_edit::Array);

#[verifier::external_type_specification]
#[verifier::external_body]
pub struct ExInlineTable(toml_edit::InlineTable);

/// A TOML value. A date, and a float that no JSON number can be, is `Other`.
#[verifier::ext_equal]
pub enum TomlView {
    Bool(bool),
    Integer(i64),
    Float(serde_json::Number),
    Text(Seq<char>),
    Array(Seq<TomlView>),
    Inline(Seq<(Seq<char>, TomlView)>),
    Other,
}

/// What stands under a key of a table.
#[verifier::ext_equal]
pub enum ItemView {
    Nothing,
    Value(TomlView),
    Table(Seq<(Seq<char>, ItemView)>),
    Tables(Seq<ItemView>),
}

/// The entries of a table, in their order.
pub type Entries = Seq<(Seq<char>, ItemView)>;

/// The entries of an inline table, in their order.
pub type InlineEntries = Seq<(Seq<char>, TomlView)>;

/// The entries that a table holds.
pub uninterp spec fn entries(t: toml_edit::Table) -> Seq<(Seq<char>, ItemView)>;

/// What an item is.
pub uninterp spec fn item(i: toml_edit::Item) -> ItemView;

/// What an array of tables holds. Nothing keeps its elements from being something else than
/// tables.
pub uninterp spec fn tables(a: toml_edit::ArrayOfTables) -> Seq<ItemView>;

/// What a value is.
pub uninterp spec fn toml(v: EditValue) -> TomlView;

/// The values of an array.
pub uninterp spec fn elements(a: toml_edit::Array) -> Seq<TomlView>;

/// The entries that an inline table holds.
pub uninterp spec fn inline_entries(t: toml_edit::InlineTable) -> Seq<(Seq<char>, TomlView)>;

/// What stands under `key`.
pub open spec fn entry(e: Entries, key: Seq<char>) -> Option<ItemView>
    decreases e.len(),
{
    if e.len() == 0 {
        None
    } else if e[0].0 == key {
        Some(e[0].1)
    } else {
        entry(e.drop_first(), key)
    }
}

/// The entries with `value` under `key`: in place where the key is there, at the end otherwise.
pub open spec fn set_entry(e: Entries, key: Seq<char>, value: ItemView) -> Entries
    decreases e.len(),
{
    if e.len() == 0 {
        seq![(key, value)]
    } else if e[0].0 == key {
        seq![(key, value)] + e.drop_first()
    } else {
        seq![e[0]] + set_entry(e.drop_first(), key, value)
    }
}

/// What `key` stands for, where that is not nothing.
pub open spec fn present(e: Entries, key: Seq<char>) -> Option<ItemView> {
    match entry(e, key) {
        Some(ItemView::Nothing) => None,
        found => found,
    }
}

/// `toml_edit::Table::new`: a table without entries.
pub assume_specification[ toml_edit::Table::new ]() -> (r: toml_edit::Table)
    ensures
        entries(r) == Entries::empty(),
;

/// `toml_edit::Table::get`: the item under `key`, unless there is none.
pub assume_specification<'a>[ toml_edit::Table::get ](t: &'a toml_edit::Table, key: &str) -> (r:
    Option<&'a toml_edit::Item>)
    ensures
        match r {
            Some(i) => present(entries(*t), key@) == Some(item(*i)),
            None => present(entries(*t), key@) is None,
        },
;

/// `toml_edit::Table::get_mut`: the item under `key`, unless there is none; what is written
/// through it takes its place, and where nothing is written the table is what it was.
pub assume_specification<'a>[ toml_edit::Table::get_mut ](
    t: &'a mut toml_edit::Table,
    key: &str,
) -> (r: Option<&'a mut toml_edit::Item>)
    ensures
        match r {
            Some(i) => present(entries(*old(t)), key@) == Some(item(*i)) && entries(*final(t))
                == set_entry(entries(*old(t)), key@, item(*final(i))) && (*final(i) == *i
                ==> *final(t) == *old(t)),
            None => present(entries(*old(t)), key@) is None && *final(t) == *old(t),
        },
;

/// `toml_edit::Table::insert`: the item under `key` from then on, at the end of the table where
/// the key was not in it.
pub assume_specification[ toml_edit::Table::insert ](
    t: &mut toml_edit::Table,
    key: &str,
    i: toml_edit::Item,
) -> (r: Option<toml_edit::Item>)
    ensures
        entries(*final(t)) == set_entry(entries(*old(t)), key@, item(i)),
        match r {
            Some(was) => entry(entries(*old(t)), key@) == Some(item(was)),
            None => entry(entries(*old(t)), key@) is None,
        },
;

/// `toml_edit::Table::entry` with `or_insert`: the item under `key`, put there first where the key
/// is not in the table; what is written through it takes its place. Where the key is in the table
/// and nothing is written, the table is what it was.
#[verifier::external_body]
fn entry_or_insert<'a>(t: &'a mut toml_edit::Table, key: &str, i: toml_edit::Item) -> (r:
    &'a mut toml_edit::Item)
    ensures
        item(*r) == (match entry(entries(*old(t)), key@) {
            Some(found) => found,
            None => item(i),
        }),
        entries(*final(t)) == set_entry(entries(*old(t)), key@, item(*final(r))),
        entry(entries(*old(t)), key@) is Some && *final(r) == *r ==> *final(t) == *old(t),
{
    t.entry(key).or_insert(i)
}

/// `toml_edit::Item::as_table_mut`: the table, where the item is one.
pub assume_specification<'a>[ toml_edit::Item::as_table_mut ](i: &'a mut toml_edit::Item) -> (r:
    Option<&'a mut toml_edit::Table>)
    ensures
        match r {
            Some(t) => item(*old(i)) == ItemView::Table(entries(*t)) && item(*final(i))
                == ItemView::Table(entries(*final(t))),
            None => item(*old(i)) !is Table && *final(i) == *old(i),
        },
;

/// `toml_edit::Item::is_table`: whether the item is a table.
pub assume_specification[ toml_edit::Item::is_table ](i: &toml_edit::Item) -> (r: bool)
    ensures
        r == (item(*i) is Table),
;

/// `toml_edit::Item::as_array_of_tables_mut`: the tables, where the item is an array of them; what
/// is written through them takes their place, and where nothing is written the item is what it was.
pub assume_specification<'a>[ toml_edit::Item::as_array_of_tables_mut ](
    i: &'a mut toml_edit::Item,
) -> (r: Option<&'a mut toml_edit::ArrayOfTables>)
    ensures
        match r {
            Some(a) => item(*old(i)) == ItemView::Tables(tables(*a)) && item(*final(i))
                == ItemView::Tables(tables(*final(a))) && (*final(a) == *a ==> *final(i) == *old(
                i,
            )),
            None => item(*old(i)) !is Tables && *final(i) == *old(i),
        },
;

/// The text of an item, where it is one.
pub open spec fn item_text(i: ItemView) -> Option<Seq<char>> {
    match i {
        ItemView::Value(TomlView::Text(s)) => Some(s),
        _ => None,
    }
}

/// `toml_edit::Item::as_str`: the text, where the item is one.
pub assume_specification[ toml_edit::Item::as_str ](i: &toml_edit::Item) -> (r: Option<&str>)
    ensures
        match r {
            Some(s) => item_text(item(*i)) == Some(s@),
            None => item_text(item(*i)) is None,
        },
;

/// `toml_edit::ArrayOfTables::new`: no element.
pub assume_specification[ toml_edit::ArrayOfTables::new ]() -> (r: toml_edit::ArrayOfTables)
    ensures
        tables(r) == Seq::<ItemView>::empty(),
;

/// `toml_edit::ArrayOfTables::len`: how many elements there are.
pub assume_specification[ toml_edit::ArrayOfTables::len ](a: &toml_edit::ArrayOfTables) -> (r:
    usize)
    ensures
        r == tables(*a).len(),
;

/// `toml_edit::ArrayOfTables::get`: the element at an index, where there is one and it is a table.
pub assume_specification[ toml_edit::ArrayOfTables::get ](
    a: &toml_edit::ArrayOfTables,
    index: usize,
) -> (r: Option<&toml_edit::Table>)
    ensures
        match r {
            Some(t) => index < tables(*a).len() && tables(*a)[index as int] == ItemView::Table(
                entries(*t),
            ),
            None => index >= tables(*a).len() || tables(*a)[index as int] !is Table,
        },
;

/// `toml_edit::ArrayOfTables::get_mut`: the element at an index, where there is one and it is a
/// table; what is written through it takes its place.
pub assume_specification[ toml_edit::ArrayOfTables::get_mut ](
    a: &mut toml_edit::ArrayOfTables,
    index: usize,
) -> (r: Option<&mut toml_edit::Table>)
    ensures
        match r {
            Some(t) => index < tables(*old(a)).len() && tables(*old(a))[index as int]
                == ItemView::Table(entries(*t)) && tables(*final(a)) == tables(*old(a)).update(
                index as int,
                ItemView::Table(entries(*final(t))),
            ),
            None => (index >= tables(*old(a)).len() || tables(*old(a))[index as int] !is Table)
                && *final(a) == *old(a),
        },
;

/// `toml_edit::ArrayOfTables::push`: the table goes to the end.
pub assume_specification[ toml_edit::ArrayOfTables::push ](
    a: &mut toml_edit::ArrayOfTables,
    t: toml_edit::Table,
)
    ensures
        tables(*final(a)) == tables(*old(a)).push(ItemView::Table(entries(t))),
;

/// `toml_edit::ArrayOfTables::remove`: the element at an index leaves.
pub assume_specification[ toml_edit::ArrayOfTables::remove ](
    a: &mut toml_edit::ArrayOfTables,
    index: usize,
)
    requires
        index < tables(*old(a)).len(),
    ensures
        tables(*final(a)) == tables(*old(a)).remove(index as int),
;

/// `toml_edit::Array::new`: no value.
pub assume_specification[ toml_edit::Array::new ]() -> (r: toml_edit::Array)
    ensures
        elements(r) == Seq::<TomlView>::empty(),
;

/// `toml_edit::Array::push` of a value: it goes to the end.
#[verifier::external_body]
fn push_element(a: &mut toml_edit::Array, v: EditValue)
    ensures
        elements(*final(a)) == elements(*old(a)).push(toml(v)),
{
    a.push(v)
}

/// `toml_edit::InlineTable::new`: no entry.
pub assume_specification[ toml_edit::InlineTable::new ]() -> (r: toml_edit::InlineTable)
    ensures
        inline_entries(r) == InlineEntries::empty(),
;

/// `toml_edit::InlineTable::insert` of a key that is not in the table: it goes to the end.
#[verifier::external_body]
fn push_inline(t: &mut toml_edit::InlineTable, key: &str, v: EditValue)
    requires
        forall|i: int|
            0 <= i < inline_entries(*old(t)).len() ==> (#[trigger] inline_entries(*old(t))[i]).0
                != key@,
    ensures
        inline_entries(*final(t)) == inline_entries(*old(t)).push((key@, toml(v))),
{
    t.insert(key, v);
}

/// What a value of `toml_edit` is made from.
pub enum ValueParts {
    Bool(bool),
    Integer(i64),
    Text(String),
    Array(toml_edit::Array),
    Inline(toml_edit::InlineTable),
}

/// The `EditValue` of a truth value, an integer, a text, an array or an inline table.
#[verifier::external_body]
fn seal_value(parts: ValueParts) -> (r: EditValue)
    ensures
        toml(r) == (match parts {
            ValueParts::Bool(b) => TomlView::Bool(b),
            ValueParts::Integer(i) => TomlView::Integer(i),
            ValueParts::Text(s) => TomlView::Text(s@),
            ValueParts::Array(a) => TomlView::Array(elements(a)),
            ValueParts::Inline(t) => TomlView::Inline(inline_entries(t)),
        }),
{
    match parts {
        ValueParts::Bool(b) => EditValue::from(b),
        ValueParts::Integer(i) => EditValue::from(i),
        ValueParts::Text(s) => EditValue::from(s),
        ValueParts::Array(a) => EditValue::Array(a),
        ValueParts::Inline(t) => EditValue::InlineTable(t),
    }
}

/// `serde_json::Number::as_f64` with `toml_edit::Value::from`: the number as a TOML float. A
/// number of `serde_json` always has one.
#[verifier::external_body]
fn float_value(n: &serde_json::Number) -> (r: Option<EditValue>)
    ensures
        r is Some,
        toml(r->0) == TomlView::Float(nearest_float(numeral(*n))),
{
    n.as_f64().map(EditValue::from)
}

/// What an item of `toml_edit` is made from.
pub enum ItemParts {
    Value(EditValue),
    Table(toml_edit::Table),
    Tables(toml_edit::ArrayOfTables),
}

/// The `toml_edit::Item` of a value, a table or an array of tables.
#[verifier::external_body]
fn seal_item(parts: ItemParts) -> (r: toml_edit::Item)
    ensures
        item(r) == (match parts {
            ItemParts::Value(v) => ItemView::Value(toml(v)),
            ItemParts::Table(t) => ItemView::Table(entries(t)),
            ItemParts::Tables(a) => ItemView::Tables(tables(a)),
        }),
{
    match parts {
        ItemParts::Value(v) => toml_edit::Item::Value(v),
        ItemParts::Table(t) => toml_edit::Item::Table(t),
        ItemParts::Tables(a) => toml_edit::Item::ArrayOfTables(a),
    }
}

/// The TOML value of a JSON value. TOML has no null, so a value that holds one has none.
pub open spec fn toml_of(v: JsonView) -> Option<TomlView>
    decreases v,
{
    match v {
        JsonView::Null => None,
        JsonView::Bool(b) => Some(TomlView::Bool(b)),
        JsonView::Number(n) => Some(
            match numeral_as_i64(n) {
                Some(i) => TomlView::Integer(i),
                None => TomlView::Float(nearest_float(n)),
            },
        ),
        JsonView::Text(s) => Some(TomlView::Text(s)),
        JsonView::Array(items) => match toml_of_items(items) {
            Some(xs) => Some(TomlView::Array(xs)),
            None => None,
        },
        JsonView::Object(f) => match toml_of_fields(f) {
            Some(e) => Some(TomlView::Inline(e)),
            None => None,
        },
    }
}

/// The TOML values of JSON values, where each of them has one.
pub open spec fn toml_of_items(items: Seq<JsonView>) -> Option<Seq<TomlView>>
    decreases items,
{
    if items.len() == 0 {
        Some(Seq::empty())
    } else {
        match (toml_of_items(items.drop_last()), toml_of(items.last())) {
            (Some(xs), Some(x)) => Some(xs.push(x)),
            _ => None,
        }
    }
}

/// The entries of an inline table with the fields of an object.
pub open spec fn toml_of_fields(f: Fields) -> Option<InlineEntries>
    decreases f,
{
    if f.len() == 0 {
        Some(Seq::empty())
    } else {
        match (toml_of_fields(f.drop_last()), toml_of(f.last().1)) {
            (Some(e), Some(x)) => Some(e.push((f.last().0, x))),
            _ => None,
        }
    }
}

proof fn items_prefix(items: Seq<JsonView>, n: int)
    requires
        0 <= n <= items.len(),
        toml_of_items(items.take(n)) is None,
    ensures
        toml_of_items(items) is None,
    decreases items.len() - n,
{
    if n < items.len() {
        assert(items.take(n + 1).drop_last() =~= items.take(n));
        items_prefix(items, n + 1);
    } else {
        assert(items.take(n) =~= items);
    }
}

proof fn fields_prefix(f: Fields, n: int)
    requires
        0 <= n <= f.len(),
        toml_of_fields(f.take(n)) is None,
    ensures
        toml_of_fields(f) is None,
    decreases f.len() - n,
{
    if n < f.len() {
        assert(f.take(n + 1).drop_last() =~= f.take(n));
        fields_prefix(f, n + 1);
    } else {
        assert(f.take(n) =~= f);
    }
}

proof fn fields_keys(f: Fields)
    ensures
        toml_of_fields(f) matches Some(e) ==> e.len() == f.len() && forall|i: int|
            0 <= i < e.len() ==> (#[trigger] e[i]).0 == f[i].0,
    decreases f.len(),
{
    if f.len() > 0 {
        fields_keys(f.drop_last());
    }
}

/// The message for a value that TOML cannot hold.
pub open spec fn null_message() -> Seq<char> {
    "null values are not allowed in config"@
}

/// The TOML value of a JSON value.
pub fn json_value_to_edit(value: &Json) -> (r: Result<EditValue, String>)
    ensures
        match r {
            Ok(v) => toml_of(value@) == Some(toml(v)),
            Err(e) => toml_of(value@) is None && e@ == null_message(),
        },
    decreases value@, 1nat,
{
    proof {
        value.lemma_view();
    }
    match value {
        Json::Null => Err("null values are not allowed in config".to_owned()),
        Json::Bool(b) => Ok(seal_value(ValueParts::Bool(*b))),
        Json::Number(n) => match n.as_i64() {
            Some(i) => Ok(seal_value(ValueParts::Integer(i))),
            None => match float_value(&n.to_number()) {
                Some(v) => Ok(v),
                None => Err("null values are not allowed in config".to_owned()),
            },
        },
        Json::Text(s) => Ok(seal_value(ValueParts::Text(s.clone()))),
        Json::Array(items) => {
            let ghost all = items@.map_values(|j: Json| j@);
            let mut array = toml_edit::Array::new();
            let mut i: usize = 0;
            assert(all.take(0) =~= Seq::empty());
            while i < items.len()
                invariant
                    i <= items@.len(),
                    all == items@.map_values(|j: Json| j@),
                    value@ == JsonView::Array(all),
                    toml_of_items(all.take(i as int)) == Some(elements(array)),
                decreases items@.len() - i,
            {
                assert(items@[i as int]@ == value@->Array_0[i as int]);
                assert(all.take(i + 1).drop_last() =~= all.take(i as int));
                assert(all.take(i + 1).last() == items@[i as int]@);
                match json_value_to_edit(&items[i]) {
                    Ok(v) => push_element(&mut array, v),
                    Err(e) => {
                        proof {
                            items_prefix(all, i + 1);
                        }
                        return Err(e);
                    },
                }
                i = i + 1;
            }
            assert(all.take(all.len() as int) =~= all);
            Ok(seal_value(ValueParts::Array(array)))
        },
        Json::Object(o) => {
            assert(o@ == value@->Object_0);
            match json_object_to_inline(o) {
                Ok(t) => Ok(seal_value(ValueParts::Inline(t))),
                Err(e) => Err(e),
            }
        },
    }
}

/// The inline table with the fields of a JSON object.
pub fn json_object_to_inline(obj: &JsonObject) -> (r: Result<toml_edit::InlineTable, String>)
    ensures
        match r {
            Ok(t) => toml_of_fields(obj@) == Some(inline_entries(t)),
            Err(e) => toml_of_fields(obj@) is None && e@ == null_message(),
        },
    decreases obj@, 0nat,
{
    let mut inline = toml_edit::InlineTable::new();
    let n: usize = obj.len();
    let mut i: usize = 0;
    assert(obj@.take(0) =~= Fields::empty());
    while i < n
        invariant
            i <= n,
            n == obj@.len(),
            ascending(obj@),
            toml_of_fields(obj@.take(i as int)) == Some(inline_entries(inline)),
        decreases n - i,
    {
        assert(obj@.take(i + 1).drop_last() =~= obj@.take(i as int));
        assert(obj@.take(i + 1).last() == obj@[i as int]);
        match json_value_to_edit(obj.value_at(i)) {
            Ok(v) => {
                proof {
                    fields_keys(obj@.take(i as int));
                    assert forall|k: int| 0 <= k < inline_entries(inline).len() implies (
                    #[trigger] inline_entries(inline)[k]).0 != obj@[i as int].0 by {
                        assert(precedes(obj@[k].0, obj@[i as int].0));
                        precedes_irreflexive(obj@[k].0);
                    }
                }
                push_inline(&mut inline, obj.key_at(i), v);
            },
            Err(e) => {
                proof {
                    fields_prefix(obj@, i + 1);
                }
                return Err(e);
            },
        }
        i = i + 1;
    }
    assert(obj@.take(n as int) =~= obj@);
    Ok(inline)
}

/// A key that is not among the entries.
pub open spec fn absent(e: Entries, key: Seq<char>) -> bool {
    forall|i: int| 0 <= i < e.len() ==> (#[trigger] e[i]).0 != key
}

proof fn set_absent(e: Entries, key: Seq<char>, value: ItemView)
    requires
        absent(e, key),
    ensures
        set_entry(e, key, value) == e.push((key, value)),
    decreases e.len(),
{
    if e.len() > 0 {
        assert(e[0].0 != key);
        let t = e.drop_first();
        assert forall|i: int| 0 <= i < t.len() implies (#[trigger] t[i]).0 != key by {
            assert(t[i] == e[i + 1]);
        }
        set_absent(t, key, value);
        assert(e.push((key, value)) =~= seq![e[0]] + t.push((key, value)));
    } else {
        assert(e.push((key, value)) =~= seq![(key, value)]);
    }
}

proof fn set_same(e: Entries, key: Seq<char>)
    ensures
        entry(e, key) matches Some(found) ==> set_entry(e, key, found) == e,
    decreases e.len(),
{
    if e.len() > 0 {
        assert(e =~= seq![e[0]] + e.drop_first());
        set_same(e.drop_first(), key);
    }
}

/// What is set under a key stands there; every other key stands for what it did.
pub proof fn set_entry_reads_back(e: Entries, key: Seq<char>, value: ItemView, other: Seq<char>)
    ensures
        entry(set_entry(e, key, value), key) == Some(value),
        other != key ==> entry(set_entry(e, key, value), other) == entry(e, other),
    decreases e.len(),
{
    let r = set_entry(e, key, value);
    if e.len() == 0 {
        assert(r.drop_first() =~= e);
    } else if e[0].0 == key {
        assert(r.drop_first() =~= e.drop_first());
    } else {
        set_entry_reads_back(e.drop_first(), key, value, other);
        assert(r.drop_first() =~= set_entry(e.drop_first(), key, value));
    }
}

/// An array of objects, of one at least.
pub open spec fn object_array(v: JsonView) -> bool {
    match v {
        JsonView::Array(items) => items.len() > 0 && forall|i: int|
            0 <= i < items.len() ==> (#[trigger] items[i]) is Object,
        _ => false,
    }
}

/// What a JSON value becomes under a key of a table: an array of objects becomes an array of
/// tables, anything else a value.
pub open spec fn item_of(v: JsonView) -> Option<ItemView>
    decreases v, 1nat,
{
    if object_array(v) {
        match tables_of(v->Array_0) {
            Some(ts) => Some(ItemView::Tables(ts)),
            None => None,
        }
    } else {
        match toml_of(v) {
            Some(t) => Some(ItemView::Value(t)),
            None => None,
        }
    }
}

/// The tables that objects become.
pub open spec fn tables_of(items: Seq<JsonView>) -> Option<Seq<ItemView>>
    decreases items, 0nat,
{
    if items.len() == 0 {
        Some(Seq::empty())
    } else {
        match items.last() {
            JsonView::Object(f) => match (tables_of(items.drop_last()), table_of(f)) {
                (Some(ts), Some(t)) => Some(ts.push(ItemView::Table(t))),
                _ => None,
            },
            _ => None,
        }
    }
}

/// The table that an object becomes.
pub open spec fn table_of(f: Fields) -> Option<Entries>
    decreases f, 0nat,
{
    if f.len() == 0 {
        Some(Seq::empty())
    } else {
        match (table_of(f.drop_last()), item_of(f.last().1)) {
            (Some(e), Some(i)) => Some(e.push((f.last().0, i))),
            _ => None,
        }
    }
}

proof fn table_prefix(f: Fields, n: int)
    requires
        0 <= n <= f.len(),
        table_of(f.take(n)) is None,
    ensures
        table_of(f) is None,
    decreases f.len() - n,
{
    if n < f.len() {
        assert(f.take(n + 1).drop_last() =~= f.take(n));
        table_prefix(f, n + 1);
    } else {
        assert(f.take(n) =~= f);
    }
}

proof fn tables_prefix(items: Seq<JsonView>, n: int)
    requires
        0 <= n <= items.len(),
        tables_of(items.take(n)) is None,
    ensures
        tables_of(items) is None,
    decreases items.len() - n,
{
    if n < items.len() {
        assert(items.take(n + 1).drop_last() =~= items.take(n));
        tables_prefix(items, n + 1);
    } else {
        assert(items.take(n) =~= items);
    }
}

proof fn table_keys(f: Fields)
    ensures
        table_of(f) matches Some(e) ==> e.len() == f.len() && forall|i: int|
            0 <= i < e.len() ==> (#[trigger] e[i]).0 == f[i].0,
    decreases f.len(),
{
    if f.len() > 0 {
        table_keys(f.drop_last());
    }
}

/// Whether a value is an array of objects, of one at least.
fn is_object_array(value: &Json) -> (r: bool)
    ensures
        r == object_array(value@),
{
    proof {
        value.lemma_view();
    }
    match value {
        Json::Array(items) => {
            let ghost all = items@.map_values(|j: Json| j@);
            if items.len() == 0 {
                return false;
            }
            let mut i: usize = 0;
            while i < items.len()
                invariant
                    i <= items@.len(),
                    all == items@.map_values(|j: Json| j@),
                    value@ == JsonView::Array(all),
                    forall|k: int| 0 <= k < i ==> (#[trigger] all[k]) is Object,
                decreases items@.len() - i,
            {
                assert(all[i as int] == items@[i as int]@);
                if items[i].as_object().is_none() {
                    return false;
                }
                i = i + 1;
            }
            true
        },
        _ => false,
    }
}

/// The table that a JSON object becomes: arrays of objects become arrays of tables, nested
/// objects inline tables.
pub fn json_object_to_table(obj: &JsonObject) -> (r: Result<toml_edit::Table, String>)
    ensures
        match r {
            Ok(t) => table_of(obj@) == Some(entries(t)),
            Err(e) => table_of(obj@) is None && e@ == null_message(),
        },
    decreases obj@,
{
    let mut table = toml_edit::Table::new();
    let n: usize = obj.len();
    let mut i: usize = 0;
    assert(obj@.take(0) =~= Fields::empty());
    while i < n
        invariant
            i <= n,
            n == obj@.len(),
            ascending(obj@),
            table_of(obj@.take(i as int)) == Some(entries(table)),
        decreases n - i,
    {
        let value: &Json = obj.value_at(i);
        assert(obj@.take(i + 1).drop_last() =~= obj@.take(i as int));
        assert(obj@.take(i + 1).last() == obj@[i as int]);
        proof {
            value.lemma_view();
            table_keys(obj@.take(i as int));
            assert forall|k: int| 0 <= k < entries(table).len() implies (#[trigger] entries(
                table,
            )[k]).0 != obj@[i as int].0 by {
                assert(precedes(obj@[k].0, obj@[i as int].0));
                precedes_irreflexive(obj@[k].0);
            }
        }
        let made: Result<toml_edit::Item, String> = if is_object_array(value) {
            match value {
                Json::Array(items) => match json_objects_to_tables(items) {
                    Ok(a) => Ok(seal_item(ItemParts::Tables(a))),
                    Err(e) => Err(e),
                },
                _ => Err("null values are not allowed in config".to_owned()),
            }
        } else {
            match json_value_to_edit(value) {
                Ok(v) => Ok(seal_item(ItemParts::Value(v))),
                Err(e) => Err(e),
            }
        };
        assert(item_of(value@) == match made {
            Ok(it) => Some(item(it)),
            Err(_) => None,
        });
        match made {
            Ok(it) => {
                proof {
                    set_absent(entries(table), obj@[i as int].0, item(it));
                }
                table.insert(obj.key_at(i), it);
            },
            Err(e) => {
                proof {
                    table_prefix(obj@, i + 1);
                }
                return Err(e);
            },
        }
        i = i + 1;
    }
    assert(obj@.take(n as int) =~= obj@);
    Ok(table)
}

/// The array of tables that an array of objects becomes.
fn json_objects_to_tables(items: &Vec<Json>) -> (r: Result<toml_edit::ArrayOfTables, String>)
    requires
        object_array(JsonView::Array(items@.map_values(|j: Json| j@))),
    ensures
        match r {
            Ok(a) => tables_of(items@.map_values(|j: Json| j@)) == Some(tables(a)),
            Err(e) => tables_of(items@.map_values(|j: Json| j@)) is None && e@ == null_message(),
        },
    decreases items@.map_values(|j: Json| j@),
{
    let ghost all = items@.map_values(|j: Json| j@);
    let mut out = toml_edit::ArrayOfTables::new();
    let mut i: usize = 0;
    assert(all.take(0) =~= Seq::empty());
    while i < items.len()
        invariant
            i <= items@.len(),
            all == items@.map_values(|j: Json| j@),
            object_array(JsonView::Array(all)),
            tables_of(all.take(i as int)) == Some(tables(out)),
        decreases items@.len() - i,
    {
        assert(all.take(i + 1).drop_last() =~= all.take(i as int));
        assert(all.take(i + 1).last() == items@[i as int]@);
        assert(all[i as int] is Object);
        if let Some(o) = items[i].as_object() {
            assert(o@ == all[i as int]->Object_0);
            match json_object_to_table(o) {
                Ok(t) => out.push(t),
                Err(e) => {
                    proof {
                        tables_prefix(all, i + 1);
                    }
                    return Err(e);
                },
            }
        }
        i = i + 1;
    }
    assert(all.take(all.len() as int) =~= all);
    Ok(out)
}

/// A table with a patch merged in, as far as the merge went, and whether it went to the end.
/// An object merges into a table that stands under its key; anything else takes the key's place.
/// A value that TOML cannot hold ends the merge.
pub open spec fn merged(e: Entries, patch: Fields) -> (Entries, bool)
    decreases patch,
{
    if patch.len() == 0 {
        (e, true)
    } else {
        let key = patch[0].0;
        let value = patch[0].1;
        match (value, present(e, key)) {
            (JsonView::Object(inner), Some(ItemView::Table(t))) => {
                let (m, whole) = merged(t, inner);
                let next = set_entry(e, key, ItemView::Table(m));
                if whole {
                    merged(next, patch.drop_first())
                } else {
                    (next, false)
                }
            },
            _ => match toml_of(value) {
                Some(v) => merged(set_entry(e, key, ItemView::Value(v)), patch.drop_first()),
                None => (e, false),
            },
        }
    }
}

/// Merges a JSON object into a table, deeply.
pub fn merge_object_into_table(table: &mut toml_edit::Table, patch: &JsonObject) -> (r: Result<
    (),
    String,
>)
    ensures
        (entries(*final(table)), r is Ok) == merged(entries(*old(table)), patch@),
        r matches Err(e) ==> e@ == null_message(),
    decreases patch@,
{
    let ghost goal = merged(entries(*old(table)), patch@);
    let n: usize = patch.len();
    let mut i: usize = 0;
    assert(patch@.skip(0) =~= patch@);
    while i < n
        invariant
            i <= n,
            n == patch@.len(),
            merged(entries(*table), patch@.skip(i as int)) == goal,
            goal == merged(entries(*old(table)), patch@),
        decreases n - i,
    {
        let key: &str = patch.key_at(i);
        let value: &Json = patch.value_at(i);
        let ghost before = entries(*table);
        let ghost rest = patch@.skip(i as int);
        assert(rest[0] == patch@[i as int]);
        assert(rest.drop_first() =~= patch@.skip(i + 1));
        proof {
            value.lemma_view();
        }
        let nested: bool = match (value, table.get(key)) {
            (Json::Object(_), Some(it)) => it.is_table(),
            _ => false,
        };
        if nested {
            if let Json::Object(inner) = value {
                assert(inner@ == patch@[i as int].1->Object_0);
                let mut done: Result<(), String> = Ok(());
                if let Some(it) = table.get_mut(key) {
                    if let Some(t) = it.as_table_mut() {
                        done = merge_object_into_table(t, inner);
                    }
                }
                if let Err(e) = done {
                    return Err(e);
                }
            }
        } else {
            match json_value_to_edit(value) {
                Ok(v) => {
                    table.insert(key, seal_item(ItemParts::Value(v)));
                },
                Err(e) => {
                    return Err(e);
                },
            }
        }
        i = i + 1;
    }
    Ok(())
}

/// A device table of that name.
pub open spec fn named(device: ItemView, name: Seq<char>) -> bool {
    match device {
        ItemView::Table(e) => match present(e, "name"@) {
            Some(i) => item_text(i) == Some(name),
            None => false,
        },
        _ => false,
    }
}

/// The first device of that name.
pub open spec fn device_index(ts: Seq<ItemView>, name: Seq<char>) -> Option<int>
    decreases ts.len(),
{
    if ts.len() == 0 {
        None
    } else if named(ts[0], name) {
        Some(0)
    } else {
        match device_index(ts.drop_first(), name) {
            Some(i) => Some(i + 1),
            None => None,
        }
    }
}

proof fn device_found(ts: Seq<ItemView>, name: Seq<char>, i: int)
    requires
        0 <= i < ts.len(),
        named(ts[i], name),
        forall|j: int| 0 <= j < i ==> !named(#[trigger] ts[j], name),
    ensures
        device_index(ts, name) == Some(i),
    decreases i,
{
    if i > 0 {
        let t = ts.drop_first();
        assert forall|j: int| 0 <= j < i - 1 implies !named(#[trigger] t[j], name) by {
            assert(t[j] == ts[j + 1]);
        }
        assert(!named(ts[0], name));
        device_found(t, name, i - 1);
    }
}

proof fn device_missing(ts: Seq<ItemView>, name: Seq<char>)
    requires
        forall|j: int| 0 <= j < ts.len() ==> !named(#[trigger] ts[j], name),
    ensures
        device_index(ts, name) is None,
    decreases ts.len(),
{
    if ts.len() > 0 {
        let t = ts.drop_first();
        assert forall|j: int| 0 <= j < t.len() implies !named(#[trigger] t[j], name) by {
            assert(t[j] == ts[j + 1]);
        }
        device_missing(t, name);
    }
}

proof fn device_index_first(ts: Seq<ItemView>, name: Seq<char>)
    ensures
        device_index(ts, name) matches Some(i) ==> 0 <= i < ts.len() && named(ts[i], name)
            && forall|j: int| 0 <= j < i ==> !named(#[trigger] ts[j], name),
        device_index(ts, name) is None ==> forall|j: int|
            0 <= j < ts.len() ==> !named(#[trigger] ts[j], name),
    decreases ts.len(),
{
    if ts.len() > 0 && !named(ts[0], name) {
        let t = ts.drop_first();
        device_index_first(t, name);
        assert forall|j: int| 0 <= j < ts.len() && j != 0 implies #[trigger] ts[j] == t[j - 1] by {}
    }
}

/// The index of the first device of that name.
fn find_device(devices: &toml_edit::ArrayOfTables, name: &str) -> (r: Option<usize>)
    ensures
        match r {
            Some(i) => device_index(tables(*devices), name@) == Some(i as int) && i < tables(
                *devices,
            ).len() && named(tables(*devices)[i as int], name@),
            None => device_index(tables(*devices), name@) is None,
        },
{
    let n: usize = devices.len();
    let mut i: usize = 0;
    while i < n
        invariant
            i <= n,
            n == tables(*devices).len(),
            forall|j: int| 0 <= j < i ==> !named(#[trigger] tables(*devices)[j], name@),
        decreases n - i,
    {
        let hit: bool = match devices.get(i) {
            Some(t) => match t.get("name") {
                Some(it) => match it.as_str() {
                    Some(s) => same_text(s, name),
                    None => false,
                },
                None => false,
            },
            None => false,
        };
        if hit {
            proof {
                device_found(tables(*devices), name@, i as int);
            }
            return Some(i);
        }
        i = i + 1;
    }
    proof {
        device_missing(tables(*devices), name@);
    }
    None
}

/// What a management command makes of the document's root table, and why it was refused where
/// it was. A refused merge leaves in the table what it had merged by then.
pub struct Edited {
    pub root: Entries,
    pub error: Option<Seq<char>>,
}

pub open spec fn refused(root: Entries, error: Seq<char>) -> Edited {
    Edited { root, error: Some(error) }
}

pub open spec fn merge_error(whole: bool) -> Option<Seq<char>> {
    if whole {
        None
    } else {
        Some(null_message())
    }
}

/// The refusal of a patch of the connector's identity.
pub open spec fn identity_message(key: Seq<char>) -> Seq<char> {
    "set-config cannot change connector."@ + key
        + ": edit the configuration file and restart the connector"@
}

pub open spec fn not_found_message(name: Seq<char>) -> Seq<char> {
    "device '"@ + name + "' not found"@
}

/// `set-config` of the device named `name`.
pub open spec fn set_device_config(root: Entries, name: Seq<char>, patch: Fields) -> Edited {
    match present(root, "device"@) {
        Some(ItemView::Tables(ts)) => match device_index(ts, name) {
            Some(i) => {
                let (m, whole) = merged(ts[i]->Table_0, patch);
                Edited {
                    root: set_entry(
                        root,
                        "device"@,
                        ItemView::Tables(ts.update(i, ItemView::Table(m))),
                    ),
                    error: merge_error(whole),
                }
            },
            None => refused(root, not_found_message(name)),
        },
        _ => refused(root, "no devices are configured"@),
    }
}

/// `set-config` of a section.
pub open spec fn set_section_config(root: Entries, section: Seq<char>, patch: Fields) -> Edited {
    let found = match entry(root, section) {
        Some(i) => i,
        None => ItemView::Table(Seq::empty()),
    };
    match found {
        ItemView::Table(e) => {
            let (m, whole) = merged(e, patch);
            Edited {
                root: set_entry(root, section, ItemView::Table(m)),
                error: merge_error(whole),
            }
        },
        _ => refused(root, "config section '"@ + section + "' is not a table"@),
    }
}

/// The connector's identity, which no command changes: the key that a patch would change it by.
pub open spec fn identity_key(patch: Fields) -> Option<Seq<char>> {
    if field(patch, "service_name"@) is Some {
        Some("service_name"@)
    } else if field(patch, "protocol"@) is Some {
        Some("protocol"@)
    } else {
        None
    }
}

/// What `set-config` makes of the document.
pub open spec fn set_config(request: JsonView, root: Entries) -> Edited {
    match text_member(request, "target"@) {
        None => refused(root, "set-config requires a 'target'"@),
        Some(target) => match fields_member(request, "config"@) {
            None => refused(root, "set-config requires a 'config' object"@),
            Some(patch) => {
                if target == "connector"@ && identity_key(patch) is Some {
                    refused(root, identity_message(identity_key(patch)->0))
                } else {
                    match stripped(target, "device:"@) {
                        Some(name) => set_device_config(root, name, patch),
                        None => if target == "connector"@ || target == "mqtt"@ || target
                            == "connection"@ {
                            set_section_config(root, target, patch)
                        } else {
                            refused(
                                root,
                                "unknown set-config target '"@ + target
                                    + "' (expected connector, mqtt, connection or device:<name>)"@,
                            )
                        },
                    }
                }
            },
        },
    }
}

/// `result` is what the outcome says.
pub open spec fn reports(result: Result<(), String>, outcome: Edited) -> bool {
    match result {
        Ok(_) => outcome.error is None,
        Err(e) => outcome.error == Some(e@),
    }
}

/// `set-config`: merges `config` into the section or the device that `target` names. Where it is
/// refused for anything but a null in the patch, the table itself is what it was.
pub fn apply_set_config(json: &Json, root: &mut toml_edit::Table) -> (r: Result<(), String>)
    ensures
        entries(*final(root)) == set_config(json@, entries(*old(root))).root,
        reports(r, set_config(json@, entries(*old(root)))),
        text_member(json@, "target"@) == Some("connector"@) && fields_member(json@, "config"@)
            is Some && identity_key(fields_member(json@, "config"@)->0) is Some ==> *final(root)
            == *old(root),
        r matches Err(e) ==> e@ != null_message() ==> *final(root) == *old(root),
{
    let target: &str = match json.get("target") {
        Some(t) => match t.as_str() {
            Some(t) => t,
            None => {
                return Err("set-config requires a 'target'".to_owned());
            },
        },
        None => {
            return Err("set-config requires a 'target'".to_owned());
        },
    };
    let patch: &JsonObject = match json.get("config") {
        Some(c) => match c.as_object() {
            Some(o) => o,
            None => {
                return Err("set-config requires a 'config' object".to_owned());
            },
        },
        None => {
            return Err("set-config requires a 'config' object".to_owned());
        },
    };
    if same_text(target, "connector") {
        if patch.get("service_name").is_some() {
            return Err(
                concat3(
                    "set-config cannot change connector.",
                    "service_name",
                    ": edit the configuration file and restart the connector",
                ),
            );
        }
        if patch.get("protocol").is_some() {
            return Err(
                concat3(
                    "set-config cannot change connector.",
                    "protocol",
                    ": edit the configuration file and restart the connector",
                ),
            );
        }
    }
    match strip_prefix(target, "device:") {
        Some(name) => set_config_of_device(root, name, patch),
        None => {
            if same_text(target, "connector") || same_text(target, "mqtt") || same_text(
                target,
                "connection",
            ) {
                set_config_of_section(root, target, patch)
            } else {
                Err(
                    concat3(
                        "unknown set-config target '",
                        target,
                        "' (expected connector, mqtt, connection or device:<name>)",
                    ),
                )
            }
        },
    }
}

fn set_config_of_device(root: &mut toml_edit::Table, name: &str, patch: &JsonObject) -> (r: Result<
    (),
    String,
>)
    ensures
        entries(*final(root)) == set_device_config(entries(*old(root)), name@, patch@).root,
        reports(r, set_device_config(entries(*old(root)), name@, patch@)),
        r matches Err(e) ==> e@ != null_message() ==> *final(root) == *old(root),
{
    proof {
        set_same(entries(*root), "device"@);
    }
    match root.get_mut("device") {
        Some(it) => match it.as_array_of_tables_mut() {
            Some(devices) => match find_device(devices, name) {
                Some(i) => match devices.get_mut(i) {
                    Some(t) => merge_object_into_table(t, patch),
                    None => Err("no devices are configured".to_owned()),
                },
                None => Err(concat3("device '", name, "' not found")),
            },
            None => Err("no devices are configured".to_owned()),
        },
        None => Err("no devices are configured".to_owned()),
    }
}

fn set_config_of_section(
    root: &mut toml_edit::Table,
    section: &str,
    patch: &JsonObject,
) -> (r: Result<(), String>)
    ensures
        entries(*final(root)) == set_section_config(entries(*old(root)), section@, patch@).root,
        reports(r, set_section_config(entries(*old(root)), section@, patch@)),
        r matches Err(e) ==> e@ != null_message() ==> *final(root) == *old(root),
{
    proof {
        set_same(entries(*root), section@);
    }
    let it: &mut toml_edit::Item = entry_or_insert(
        root,
        section,
        seal_item(ItemParts::Table(toml_edit::Table::new())),
    );
    match it.as_table_mut() {
        Some(t) => merge_object_into_table(t, patch),
        None => Err(concat3("config section '", section, "' is not a table")),
    }
}

/// What `define-device` makes of the document.
pub open spec fn define_device(request: JsonView, root: Entries) -> Edited {
    match fields_member(request, "device"@) {
        None => refused(root, "define-device requires a 'device' object"@),
        Some(device) => match field(device, "name"@) {
            Some(JsonView::Text(name)) => match table_of(device) {
                None => refused(root, null_message()),
                Some(table) => {
                    let found = match entry(root, "device"@) {
                        Some(i) => i,
                        None => ItemView::Tables(Seq::empty()),
                    };
                    match found {
                        ItemView::Tables(ts) => Edited {
                            root: set_entry(
                                root,
                                "device"@,
                                ItemView::Tables(with_device(ts, name, table)),
                            ),
                            error: None,
                        },
                        _ => refused(root, "'device' is not an array of tables"@),
                    }
                },
            },
            _ => refused(root, "device requires a 'name'"@),
        },
    }
}

/// The devices with `table` for the one named `name`: in its place, or at the end.
pub open spec fn with_device(ts: Seq<ItemView>, name: Seq<char>, table: Entries) -> Seq<ItemView> {
    match device_index(ts, name) {
        Some(i) => ts.update(i, ItemView::Table(table)),
        None => ts.push(ItemView::Table(table)),
    }
}

/// `define-device`: puts a device into the document, in place of the one of its name. Where it
/// is refused, the table itself is what it was.
pub fn apply_define_device(json: &Json, root: &mut toml_edit::Table) -> (r: Result<(), String>)
    ensures
        entries(*final(root)) == define_device(json@, entries(*old(root))).root,
        reports(r, define_device(json@, entries(*old(root)))),
        r is Err ==> *final(root) == *old(root),
{
    let device: &JsonObject = match json.get("device") {
        Some(d) => match d.as_object() {
            Some(o) => o,
            None => {
                return Err("define-device requires a 'device' object".to_owned());
            },
        },
        None => {
            return Err("define-device requires a 'device' object".to_owned());
        },
    };
    let name: &str = match device.get("name") {
        Some(n) => match n.as_str() {
            Some(s) => s,
            None => {
                return Err("device requires a 'name'".to_owned());
            },
        },
        None => {
            return Err("device requires a 'name'".to_owned());
        },
    };
    let table: toml_edit::Table = match json_object_to_table(device) {
        Ok(t) => t,
        Err(e) => {
            return Err(e);
        },
    };
    proof {
        set_same(entries(*root), "device"@);
    }
    let it: &mut toml_edit::Item = entry_or_insert(
        root,
        "device",
        seal_item(ItemParts::Tables(toml_edit::ArrayOfTables::new())),
    );
    match it.as_array_of_tables_mut() {
        Some(devices) => {
            match find_device(devices, name) {
                Some(i) => {
                    if let Some(slot) = devices.get_mut(i) {
                        *slot = table;
                    }
                },
                None => devices.push(table),
            }
            Ok(())
        },
        None => Err("'device' is not an array of tables".to_owned()),
    }
}

/// What `remove-device` makes of the document.
pub open spec fn remove_device(request: JsonView, root: Entries) -> Edited {
    match text_member(request, "device"@) {
        None => refused(root, "remove-device requires a 'device' name string"@),
        Some(name) => match present(root, "device"@) {
            Some(ItemView::Tables(ts)) => match device_index(ts, name) {
                Some(i) => Edited {
                    root: set_entry(root, "device"@, ItemView::Tables(ts.remove(i))),
                    error: None,
                },
                None => refused(root, not_found_message(name)),
            },
            _ => refused(root, "no devices are configured"@),
        },
    }
}

/// `remove-device`: takes the named device out of the document. Where it is refused, the table
/// itself is what it was.
pub fn apply_remove_device(json: &Json, root: &mut toml_edit::Table) -> (r: Result<(), String>)
    ensures
        entries(*final(root)) == remove_device(json@, entries(*old(root))).root,
        reports(r, remove_device(json@, entries(*old(root)))),
        r is Err ==> *final(root) == *old(root),
{
    let name: &str = match json.get("device") {
        Some(d) => match d.as_str() {
            Some(s) => s,
            None => {
                return Err("remove-device requires a 'device' name string".to_owned());
            },
        },
        None => {
            return Err("remove-device requires a 'device' name string".to_owned());
        },
    };
    proof {
        set_same(entries(*root), "device"@);
    }
    match root.get_mut("device") {
        Some(it) => match it.as_array_of_tables_mut() {
            Some(devices) => match find_device(devices, name) {
                Some(i) => {
                    devices.remove(i);
                    Ok(())
                },
                None => Err(concat3("device '", name, "' not found")),
            },
            None => Err("no devices are configured".to_owned()),
        },
        None => Err("no devices are configured".to_owned()),
    }
}

/// What a management command makes of the document.
pub open spec fn management(verb: Seq<char>, request: JsonView, root: Entries) -> Edited {
    if verb == "set-config"@ {
        set_config(request, root)
    } else if verb == "define-device"@ {
        define_device(request, root)
    } else if verb == "remove-device"@ {
        remove_device(request, root)
    } else {
        refused(root, "unsupported management verb '"@ + verb + "'"@)
    }
}

/// Applies a management command to the root table of the configuration document.
pub fn apply_management(verb: &str, json: &Json, root: &mut toml_edit::Table) -> (r: Result<
    (),
    String,
>)
    ensures
        entries(*final(root)) == management(verb@, json@, entries(*old(root))).root,
        reports(r, management(verb@, json@, entries(*old(root)))),
        r matches Err(e) ==> verb@ != "set-config"@ || e@ != null_message() ==> *final(root)
            == *old(root),
{
    if same_text(verb, "set-config") {
        apply_set_config(json, root)
    } else if same_text(verb, "define-device") {
        apply_define_device(json, root)
    } else if same_text(verb, "remove-device") {
        apply_remove_device(json, root)
    } else {
        Err(concat3("unsupported management verb '", verb, "'"))
    }
}

/// A merge leaves every key that the patch does not name.
pub proof fn merge_keeps_other_keys(e: Entries, patch: Fields, key: Seq<char>)
    requires
        forall|i: int| 0 <= i < patch.len() ==> (#[trigger] patch[i]).0 != key,
    ensures
        entry(merged(e, patch).0, key) == entry(e, key),
    decreases patch.len(),
{
    if patch.len() > 0 {
        let rest = patch.drop_first();
        assert(patch[0].0 != key);
        assert forall|i: int| 0 <= i < rest.len() implies (#[trigger] rest[i]).0 != key by {
            assert(rest[i] == patch[i + 1]);
        }
        match (patch[0].1, present(e, patch[0].0)) {
            (JsonView::Object(inner), Some(ItemView::Table(t))) => {
                let (m, whole) = merged(t, inner);
                let next = set_entry(e, patch[0].0, ItemView::Table(m));
                set_entry_reads_back(e, patch[0].0, ItemView::Table(m), key);
                merge_keeps_other_keys(next, rest, key);
            },
            _ => match toml_of(patch[0].1) {
                Some(v) => {
                    let next = set_entry(e, patch[0].0, ItemView::Value(v));
                    set_entry_reads_back(e, patch[0].0, ItemView::Value(v), key);
                    merge_keeps_other_keys(next, rest, key);
                },
                None => {},
            },
        }
    }
}

/// A merge that goes to the end sets each key of the patch: a value to its TOML value, an object
/// to what it makes of the table that stood there, or else to its inline table.
pub proof fn merge_sets_each_key(e: Entries, patch: Fields, i: int)
    requires
        ascending(patch),
        0 <= i < patch.len(),
        merged(e, patch).1,
    ensures
        entry(merged(e, patch).0, patch[i].0) == Some(
            match (patch[i].1, present(e, patch[i].0)) {
                (JsonView::Object(inner), Some(ItemView::Table(t))) => ItemView::Table(
                    merged(t, inner).0,
                ),
                _ => ItemView::Value(toml_of(patch[i].1)->0),
            },
        ),
    decreases patch.len(),
{
    let rest = patch.drop_first();
    let key = patch[i].0;
    assert(ascending(rest)) by {
        assert forall|a: int, b: int| 0 <= a < b < rest.len() implies precedes(
            #[trigger] rest[a].0,
            #[trigger] rest[b].0,
        ) by {
            assert(rest[a] == patch[a + 1] && rest[b] == patch[b + 1]);
        }
    }
    let set = match (patch[0].1, present(e, patch[0].0)) {
        (JsonView::Object(inner), Some(ItemView::Table(t))) => ItemView::Table(merged(t, inner).0),
        _ => ItemView::Value(toml_of(patch[0].1)->0),
    };
    let next = set_entry(e, patch[0].0, set);
    assert(merged(e, patch) == merged(next, rest));
    set_entry_reads_back(e, patch[0].0, set, key);
    if i == 0 {
        assert forall|k: int| 0 <= k < rest.len() implies (#[trigger] rest[k]).0 != key by {
            assert(rest[k] == patch[k + 1]);
            assert(precedes(patch[0].0, patch[k + 1].0));
            precedes_irreflexive(key);
        }
        merge_keeps_other_keys(next, rest, key);
    } else {
        assert(precedes(patch[0].0, patch[i].0));
        precedes_irreflexive(key);
        assert(rest[i - 1] == patch[i]);
        merge_sets_each_key(next, rest, i - 1);
    }
}

/// What stands under `key` of a section.
pub open spec fn section_entry(root: Entries, section: Seq<char>, key: Seq<char>) -> Option<
    ItemView,
> {
    match entry(root, section) {
        Some(ItemView::Table(e)) => entry(e, key),
        _ => None,
    }
}

proof fn field_somewhere(f: Fields, key: Seq<char>, i: int)
    requires
        0 <= i < f.len(),
        f[i].0 == key,
    ensures
        field(f, key) is Some,
    decreases f.len(),
{
    if f[0].0 != key {
        assert(f.drop_first()[i - 1] == f[i]);
        field_somewhere(f.drop_first(), key, i - 1);
    }
}

/// No `set-config` changes the connector's service name or protocol.
pub proof fn set_config_keeps_the_identity(request: JsonView, root: Entries, key: Seq<char>)
    requires
        key == "service_name"@ || key == "protocol"@,
    ensures
        section_entry(set_config(request, root).root, "connector"@, key) == section_entry(
            root,
            "connector"@,
            key,
        ),
{
    let after = set_config(request, root).root;
    reveal_strlit("connector");
    reveal_strlit("device");
    reveal_strlit("mqtt");
    reveal_strlit("connection");
    reveal_strlit("device:");
    assert("connector"@.len() == 9 && "device"@.len() == 6 && "mqtt"@.len() == 4
        && "connection"@.len() == 10);
    match text_member(request, "target"@) {
        None => {},
        Some(target) => match fields_member(request, "config"@) {
            None => {},
            Some(patch) => {
                if target == "connector"@ && identity_key(patch) is None {
                    assert(target[0] == 'c' && "device:"@[0] == 'd');
                    assert(stripped(target, "device:"@) is None) by {
                        assert(target.take(7)[0] == 'c');
                    }
                    let e = match entry(root, target) {
                        Some(ItemView::Table(e)) => e,
                        _ => Seq::empty(),
                    };
                    assert forall|i: int| 0 <= i < patch.len() implies (#[trigger] patch[i]).0
                        != key by {
                        if patch[i].0 == key {
                            field_somewhere(patch, key, i);
                        }
                    }
                    merge_keeps_other_keys(e, patch, key);
                    set_entry_reads_back(
                        root,
                        target,
                        ItemView::Table(merged(e, patch).0),
                        target,
                    );
                } else if target != "connector"@ {
                    match stripped(target, "device:"@) {
                        Some(name) => match present(root, "device"@) {
                            Some(ItemView::Tables(ts)) => match device_index(ts, name) {
                                Some(i) => set_entry_reads_back(
                                    root,
                                    "device"@,
                                    ItemView::Tables(
                                        ts.update(
                                            i,
                                            ItemView::Table(merged(ts[i]->Table_0, patch).0),
                                        ),
                                    ),
                                    "connector"@,
                                ),
                                None => {},
                            },
                            _ => {},
                        },
                        None => {
                            let e = match entry(root, target) {
                                Some(ItemView::Table(e)) => e,
                                _ => Seq::empty(),
                            };
                            set_entry_reads_back(
                                root,
                                target,
                                ItemView::Table(merged(e, patch).0),
                                "connector"@,
                            );
                        },
                    }
                }
            },
        },
    }
}

/// A device that was defined is the one of its name, and the devices of other names are what
/// they were.
pub proof fn defined_device_is_found(
    ts: Seq<ItemView>,
    name: Seq<char>,
    table: Entries,
    other: Seq<char>,
)
    requires
        named(ItemView::Table(table), name),
    ensures
        device_index(with_device(ts, name, table), name) is Some,
        with_device(ts, name, table)[device_index(with_device(ts, name, table), name)->0]
            == ItemView::Table(table),
        other != name ==> match device_index(ts, other) {
            Some(i) => device_index(with_device(ts, name, table), other) == Some(i) && with_device(
                ts,
                name,
                table,
            )[i] == ts[i],
            None => device_index(with_device(ts, name, table), other) is None,
        },
{
    let r = with_device(ts, name, table);
    device_index_first(ts, name);
    device_index_first(ts, other);
    match device_index(ts, name) {
        Some(i) => {
            assert forall|j: int| 0 <= j < i implies !named(#[trigger] r[j], name) by {
                assert(r[j] == ts[j]);
            }
            device_found(r, name, i);
        },
        None => {
            assert forall|j: int| 0 <= j < ts.len() implies !named(#[trigger] r[j], name) by {
                assert(r[j] == ts[j]);
            }
            device_found(r, name, ts.len() as int);
        },
    }
    if other != name {
        assert(!named(ItemView::Table(table), other));
        match device_index(ts, other) {
            Some(i) => {
                assert(r[i] == ts[i]);
                assert forall|j: int| 0 <= j < i implies !named(#[trigger] r[j], other) by {
                    assert(r[j] == ts[j] || r[j] == ItemView::Table(table));
                }
                device_found(r, other, i);
            },
            None => {
                assert forall|j: int| 0 <= j < r.len() implies !named(#[trigger] r[j], other) by {
                    if j < ts.len() {
                        assert(r[j] == ts[j] || r[j] == ItemView::Table(table));
                    }
                }
                device_missing(r, other);
            },
        }
    }
}

/// Removing a device that was newly defined leaves the devices as they were.
pub proof fn remove_undoes_define(ts: Seq<ItemView>, name: Seq<char>, table: Entries)
    requires
        named(ItemView::Table(table), name),
        device_index(ts, name) is None,
    ensures
        device_index(with_device(ts, name, table), name) == Some(ts.len() as int),
        with_device(ts, name, table).remove(ts.len() as int) == ts,
{
    let r = with_device(ts, name, table);
    device_index_first(ts, name);
    assert forall|j: int| 0 <= j < ts.len() implies !named(#[trigger] r[j], name) by {
        assert(r[j] == ts[j]);
    }
    device_found(r, name, ts.len() as int);
    assert(r.remove(ts.len() as int) =~= ts);
}

proof fn table_field(f: Fields, key: Seq<char>)
    requires
        table_of(f) is Some,
    ensures
        match field(f, key) {
            Some(v) => item_of(v) is Some && entry(table_of(f)->0, key) == item_of(v),
            None => entry(table_of(f)->0, key) is None,
        },
    decreases f.len(),
{
    if f.len() > 0 {
        let init = f.drop_last();
        table_field(init, key);
        let e = table_of(init)->0;
        let last = (f.last().0, item_of(f.last().1)->0);
        field_last(f, key);
        entry_push(e, last, key);
    }
}

proof fn field_last(f: Fields, key: Seq<char>)
    requires
        f.len() > 0,
    ensures
        field(f, key) == match field(f.drop_last(), key) {
            Some(v) => Some(v),
            None => if f.last().0 == key {
                Some(f.last().1)
            } else {
                None
            },
        },
    decreases f.len(),
{
    if f.len() > 1 {
        assert(f.drop_last().drop_first() =~= f.drop_first().drop_last());
        if f[0].0 != key {
            field_last(f.drop_first(), key);
        }
    } else {
        assert(f.drop_first().len() == 0 && f.drop_last().len() == 0);
        assert(field(f.drop_first(), key) is None);
    }
}

proof fn entry_push(e: Entries, last: (Seq<char>, ItemView), key: Seq<char>)
    ensures
        entry(e.push(last), key) == match entry(e, key) {
            Some(v) => Some(v),
            None => if last.0 == key {
                Some(last.1)
            } else {
                None
            },
        },
    decreases e.len(),
{
    if e.len() > 0 {
        assert(e.push(last).drop_first() =~= e.drop_first().push(last));
        if e[0].0 != key {
            entry_push(e.drop_first(), last, key);
        }
    } else {
        assert(e.push(last).drop_first() =~= e);
    }
}

/// A refused command leaves the document as it was. A patch with a null in it is the exception:
/// what stands before the null has been merged by then.
pub proof fn refused_commands_leave_the_document(request: JsonView, root: Entries)
    ensures
        define_device(request, root).error is Some ==> define_device(request, root).root == root,
        remove_device(request, root).error is Some ==> remove_device(request, root).root == root,
        set_config(request, root).error matches Some(e) ==> e != null_message() ==> set_config(
            request,
            root,
        ).root == root,
{
}

/// After `define-device` the document holds the device that the request describes, under its
/// name.
pub proof fn define_device_stores_the_device(request: JsonView, root: Entries)
    requires
        define_device(request, root).error is None,
    ensures
        ({
            let device = fields_member(request, "device"@)->0;
            let name = as_text(field(device, "name"@)->0)->0;
            let after = define_device(request, root).root;
            &&& entry(after, "device"@) is Some
            &&& entry(after, "device"@)->0 is Tables
            &&& {
                let ts = entry(after, "device"@)->0->Tables_0;
                &&& device_index(ts, name) is Some
                &&& table_of(device) is Some
                &&& ts[device_index(ts, name)->0] == ItemView::Table(table_of(device)->0)
            }
        }),
{
    let device = fields_member(request, "device"@)->0;
    let name = as_text(field(device, "name"@)->0)->0;
    let table = table_of(device)->0;
    let ts = match entry(root, "device"@) {
        Some(ItemView::Tables(ts)) => ts,
        _ => Seq::empty(),
    };
    table_field(device, "name"@);
    assert(item_of(JsonView::Text(name)) == Some(ItemView::Value(TomlView::Text(name))));
    assert(named(ItemView::Table(table), name));
    defined_device_is_found(ts, name, table, name);
    set_entry_reads_back(
        root,
        "device"@,
        ItemView::Tables(with_device(ts, name, table)),
        "device"@,
    );
}

/// A value becomes the TOML value of its kind that holds the same: whole numbers stay whole where
/// they fit, and nothing becomes of null.
pub proof fn values_become_what_they_are(v: JsonView, i: i64, u: u64)
    ensures
        v is Null ==> toml_of(v) is None,
        v matches JsonView::Bool(b) ==> toml_of(v) == Some(TomlView::Bool(b)),
        v matches JsonView::Text(s) ==> toml_of(v) == Some(TomlView::Text(s)),
        i < 0 ==> toml_of(JsonView::Number(crate::json::Numeral::NegInt(i))) == Some(
            TomlView::Integer(i),
        ),
        i >= 0 ==> toml_of(JsonView::Number(crate::json::Numeral::PosInt(i as u64))) == Some(
            TomlView::Integer(i),
        ),
        u > i64::MAX ==> (toml_of(JsonView::Number(crate::json::Numeral::PosInt(u))) matches Some(
            t,
        ) && t is Float),
        v matches JsonView::Number(crate::json::Numeral::Float(x)) ==> toml_of(v) == Some(
            TomlView::Float(x),
        ),
        v is Array && toml_of(v) is Some ==> (toml_of(v) matches Some(t) && t is Array),
        v is Object && toml_of(v) is Some ==> (toml_of(v) matches Some(t) && t is Inline),
{
}

/// The items of an array become values one by one, in their order; where one has none, the array
/// has none.
pub proof fn items_become_values_one_by_one(items: Seq<JsonView>, i: int)
    requires
        0 <= i < items.len(),
    ensures
        toml_of_items(items) matches Some(xs) ==> xs.len() == items.len() && toml_of(items[i])
            == Some(xs[i]),
        toml_of(items[i]) is None ==> toml_of_items(items) is None,
    decreases items.len(),
{
    let before = items.drop_last();
    if i < before.len() {
        items_become_values_one_by_one(before, i);
        assert(before[i] == items[i]);
    } else if before.len() > 0 {
        items_become_values_one_by_one(before, 0);
    }
}

/// The fields of an object become entries one by one, each under its key and in their order.
pub proof fn fields_become_entries_one_by_one(f: Fields, i: int)
    requires
        0 <= i < f.len(),
    ensures
        toml_of_fields(f) matches Some(e) ==> e.len() == f.len() && e[i].0 == f[i].0 && toml_of(
            f[i].1,
        ) == Some(e[i].1),
        table_of(f) matches Some(e) ==> e.len() == f.len() && e[i].0 == f[i].0 && item_of(f[i].1)
            == Some(e[i].1),
        toml_of(f[i].1) is None ==> toml_of_fields(f) is None,
        item_of(f[i].1) is None ==> table_of(f) is None,
    decreases f.len(),
{
    let before = f.drop_last();
    if i < before.len() {
        fields_become_entries_one_by_one(before, i);
        assert(before[i] == f[i]);
    } else if before.len() > 0 {
        fields_become_entries_one_by_one(before, 0);
    }
}

/// An array of objects becomes an array of tables, one for each; what is no such array becomes a
/// value.
pub proof fn arrays_of_objects_become_tables(items: Seq<JsonView>, v: JsonView, i: int)
    requires
        0 <= i < items.len(),
    ensures
        (forall|k: int| 0 <= k < items.len() ==> (#[trigger] items[k]) is Object) ==> (item_of(
            JsonView::Array(items),
        ) matches Some(t) ==> (t matches ItemView::Tables(ts) && ts.len() == items.len() && (
        table_of(items[i]->Object_0) matches Some(e) && ts[i] == ItemView::Table(e)))),
        !(items[i] is Object) ==> item_of(JsonView::Array(items)) == match toml_of(
            JsonView::Array(items),
        ) {
            Some(t) => Some(ItemView::Value(t)),
            None => None,
        },
        !(v is Array) ==> item_of(v) == match toml_of(v) {
            Some(t) => Some(ItemView::Value(t)),
            None => None,
        },
{
    tables_are_of_their_objects(items, i);
}

proof fn tables_are_of_their_objects(items: Seq<JsonView>, i: int)
    requires
        0 <= i < items.len(),
    ensures
        tables_of(items) matches Some(ts) ==> ts.len() == items.len() && items[i] is Object && (
        table_of(items[i]->Object_0) matches Some(e) && ts[i] == ItemView::Table(e)),
    decreases items.len(),
{
    let before = items.drop_last();
    if i < before.len() {
        tables_are_of_their_objects(before, i);
        assert(before[i] == items[i]);
    } else if before.len() > 0 {
        tables_are_of_their_objects(before, 0);
    }
}

} // verus!
