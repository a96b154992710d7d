//! Values under text keys, each key once, in the order of the keys.
use crate::text::{
    precedes, precedes_irreflexive, precedes_total, precedes_transitive, same_text, text_precedes,
};
use vstd::prelude::*;

verus! {

/// Each key stands before the keys that follow it: so no key occurs twice.
pub open spec fn ascending<T>(f: Seq<(Seq<char>, T)>) -> bool {
    forall|i: int, j: int| 0 <= i < j < f.len() ==> precedes(#[trigger] f[i].0, #[trigger] f[j].0)
}

/// The value that `key` has among the fields.
pub open spec fn field<T>(f: Seq<(Seq<char>, T)>, key: Seq<char>) -> Option<T>
    decreases f.len(),
{
    if f.len() == 0 {
        None
    } else if f[0].0 == key {
        Some(f[0].1)
    } else {
        field(f.drop_first(), key)
    }
}

/// The fields with `key` set to `value`.
pub open spec fn with_field<T>(f: Seq<(Seq<char>, T)>, key: Seq<char>, value: T) -> Seq<(Seq<char>, T)>
    decreases f.len(),
{
    if f.len() == 0 {
        seq![(key, value)]
    } else if f[0].0 == key {
        seq![(key, value)] + f.drop_first()
    } else if precedes(key, f[0].0) {
        seq![(key, value)] + f
    } else {
        seq![f[0]] + with_field(f.drop_first(), key, value)
    }
}

pub proof fn with_field_at<T>(f: Seq<(Seq<char>, T)>, key: Seq<char>, value: T, i: int)
    requires
        0 <= i <= f.len(),
        forall|j: int| 0 <= j < i ==> precedes(#[trigger] f[j].0, key),
        i < f.len() ==> !precedes(f[i].0, key),
    ensures
        i < f.len() && f[i].0 == key ==> with_field(f, key, value) == f.update(i, (key, value)),
        !(i < f.len() && f[i].0 == key) ==> with_field(f, key, value) == f.insert(
            i,
            (key, value),
        ),
    decreases f.len(),
{
    precedes_irreflexive(key);
    if f.len() == 0 {
        assert(f.insert(0, (key, value)) =~= seq![(key, value)]);
    } else if i == 0 {
        precedes_total(f[0].0, key);
        assert(f.insert(0, (key, value)) =~= seq![(key, value)] + f);
        assert(f.update(0, (key, value)) =~= seq![(key, value)] + f.drop_first());
    } else {
        let t = f.drop_first();
        assert(f[0].0 != key);
        if precedes(key, f[0].0) {
            precedes_transitive(key, f[0].0, key);
        }
        assert forall|j: int| 0 <= j < i - 1 implies precedes(#[trigger] t[j].0, key) by {
            assert(t[j] == f[j + 1]);
        }
        with_field_at(t, key, value, i - 1);
        if i < f.len() && f[i].0 == key {
            assert(f.update(i, (key, value)) =~= seq![f[0]] + t.update(i - 1, (key, value)));
        } else {
            assert(f.insert(i, (key, value)) =~= seq![f[0]] + t.insert(i - 1, (key, value)));
        }
    }
}

/// Setting a field keeps the keys in order.
pub proof fn set_field_keeps_order<T>(f: Seq<(Seq<char>, T)>, key: Seq<char>, value: T)
    requires
        ascending(f),
    ensures
        ascending(with_field(f, key, value)),
    decreases f.len(),
{
    let r = with_field(f, key, value);
    if f.len() > 0 {
        let t = f.drop_first();
        assert(ascending(t)) by {
            assert forall|i: int, j: int| 0 <= i < j < t.len() implies precedes(
                #[trigger] t[i].0,
                #[trigger] t[j].0,
            ) by {
                assert(t[i] == f[i + 1] && t[j] == f[j + 1]);
            }
        }
        if f[0].0 == key {
            assert(r =~= f.update(0, (key, value)));
        } else if precedes(key, f[0].0) {
            assert forall|i: int, j: int| 0 <= i < j < r.len() implies precedes(
                #[trigger] r[i].0,
                #[trigger] r[j].0,
            ) by {
                assert(r[j] == f[j - 1]);
                if i == 0 {
                    if j > 1 {
                        assert(precedes(f[0].0, f[j - 1].0));
                        precedes_transitive(key, f[0].0, f[j - 1].0);
                    }
                } else {
                    assert(r[i] == f[i - 1]);
                    assert(precedes(f[i - 1].0, f[j - 1].0));
                }
            }
        } else {
            set_field_keeps_order(t, key, value);
            precedes_total(f[0].0, key);
            let w = with_field(t, key, value);
            assert forall|i: int, j: int| 0 <= i < j < r.len() implies precedes(
                #[trigger] r[i].0,
                #[trigger] r[j].0,
            ) by {
                assert(r[j] == w[j - 1]);
                if i == 0 {
                    set_field_keys(t, key, value, j - 1);
                    if w[j - 1].0 != key {
                        let k = choose|k: int| 0 <= k < t.len() && #[trigger] t[k].0 == w[j - 1].0;
                        assert(t[k] == f[k + 1]);
                        assert(precedes(f[0].0, f[k + 1].0));
                    }
                } else {
                    assert(r[i] == w[i - 1]);
                    assert(precedes(w[i - 1].0, w[j - 1].0));
                }
            }
        }
    }
}

pub proof fn set_field_keys<T>(f: Seq<(Seq<char>, T)>, key: Seq<char>, value: T, i: int)
    requires
        0 <= i < with_field(f, key, value).len(),
    ensures
        with_field(f, key, value)[i].0 == key || exists|k: int|
            0 <= k < f.len() && #[trigger] f[k].0 == with_field(f, key, value)[i].0,
    decreases f.len(),
{
    let r = with_field(f, key, value);
    if f.len() == 0 {
    } else if f[0].0 == key {
        if i > 0 {
            assert(r[i] == f[i]);
        }
    } else if precedes(key, f[0].0) {
        if i > 0 {
            assert(r[i] == f[i - 1]);
        }
    } else if i == 0 {
        assert(r[0] == f[0]);
    } else {
        let t = f.drop_first();
        set_field_keys(t, key, value, i - 1);
        assert(r[i] == with_field(t, key, value)[i - 1]);
        if r[i].0 != key {
            let k = choose|k: int| 0 <= k < t.len() && #[trigger] t[k].0 == r[i].0;
            assert(t[k] == f[k + 1]);
        }
    }
}

pub proof fn field_at<T>(f: Seq<(Seq<char>, T)>, key: Seq<char>, i: int)
    requires
        0 <= i < f.len(),
        f[i].0 == key,
        forall|j: int| 0 <= j < i ==> #[trigger] f[j].0 != key,
    ensures
        field(f, key) == Some(f[i].1),
    decreases f.len(),
{
    if i > 0 {
        let t = f.drop_first();
        assert forall|j: int| 0 <= j < i - 1 implies #[trigger] t[j].0 != key by {
            assert(t[j] == f[j + 1]);
        }
        field_at(t, key, i - 1);
    }
}

pub proof fn field_nowhere<T>(f: Seq<(Seq<char>, T)>, key: Seq<char>)
    requires
        forall|j: int| 0 <= j < f.len() ==> #[trigger] f[j].0 != key,
    ensures
        field(f, key) is None,
    decreases f.len(),
{
    if f.len() > 0 {
        let t = f.drop_first();
        assert forall|j: int| 0 <= j < t.len() implies #[trigger] t[j].0 != key by {
            assert(t[j] == f[j + 1]);
        }
        field_nowhere(t, key);
    }
}

/// A field that was set is read back; every other field is what it was.
pub proof fn set_field_reads_back<T>(f: Seq<(Seq<char>, T)>, key: Seq<char>, value: T, other: Seq<char>)
    ensures
        field(with_field(f, key, value), key) == Some(value),
        other != key ==> field(with_field(f, key, value), other) == field(f, other),
    decreases f.len(),
{
    let r = with_field(f, key, value);
    if f.len() == 0 {
        assert(r.drop_first() =~= f);
    } else if f[0].0 == key {
        assert(r.drop_first() =~= f.drop_first());
    } else if precedes(key, f[0].0) {
        assert(r.drop_first() =~= f);
    } else {
        set_field_reads_back(f.drop_first(), key, value, other);
        assert(r.drop_first() =~= with_field(f.drop_first(), key, value));
    }
}

/// What stands under a key, once a field was set.
pub broadcast proof fn field_once_set<T>(
    f: Seq<(Seq<char>, T)>,
    key: Seq<char>,
    value: T,
    other: Seq<char>,
)
    ensures
        #[trigger] field(with_field(f, key, value), other) == if other == key {
            Some(value)
        } else {
            field(f, other)
        },
{
    set_field_reads_back(f, key, value, other);
}

/// The fields without the one of `key`.
pub open spec fn without_field<T>(f: Seq<(Seq<char>, T)>, key: Seq<char>) -> Seq<(Seq<char>, T)>
    decreases f.len(),
{
    if f.len() == 0 {
        f
    } else if f[0].0 == key {
        f.drop_first()
    } else {
        seq![f[0]] + without_field(f.drop_first(), key)
    }
}

proof fn without_field_at<T>(f: Seq<(Seq<char>, T)>, key: Seq<char>, i: int)
    requires
        0 <= i <= f.len(),
        forall|j: int| 0 <= j < i ==> (#[trigger] f[j]).0 != key,
        i < f.len() ==> f[i].0 == key,
    ensures
        without_field(f, key) == if i < f.len() {
            f.remove(i)
        } else {
            f
        },
    decreases f.len(),
{
    if f.len() > 0 {
        let t = f.drop_first();
        if i == 0 {
            assert(f.remove(0) =~= t);
        } else {
            assert(f[0].0 != key);
            assert forall|j: int| 0 <= j < i - 1 implies (#[trigger] t[j]).0 != key by {
                assert(t[j] == f[j + 1]);
            }
            without_field_at(t, key, i - 1);
            if i < f.len() {
                assert(f.remove(i) =~= seq![f[0]] + t.remove(i - 1));
            } else {
                assert(f =~= seq![f[0]] + t);
            }
        }
    }
}

/// A field that was taken out is gone; every other field is what it was.
pub proof fn taken_field_is_gone<T>(f: Seq<(Seq<char>, T)>, key: Seq<char>, other: Seq<char>)
    requires
        ascending(f),
    ensures
        field(without_field(f, key), key) is None,
        other != key ==> field(without_field(f, key), other) == field(f, other),
    decreases f.len(),
{
    if f.len() > 0 {
        let t = f.drop_first();
        assert(ascending(t)) by {
            assert forall|i: int, j: int| 0 <= i < j < t.len() implies precedes(
                #[trigger] t[i].0,
                #[trigger] t[j].0,
            ) by {
                assert(t[i] == f[i + 1] && t[j] == f[j + 1]);
            }
        }
        taken_field_is_gone(t, key, other);
        if f[0].0 == key {
            assert forall|j: int| 0 <= j < t.len() implies #[trigger] t[j].0 != key by {
                assert(t[j] == f[j + 1]);
                assert(precedes(f[0].0, f[j + 1].0));
                precedes_irreflexive(key);
            }
            field_nowhere(t, key);
        } else {
            assert(without_field(f, key).drop_first() =~= without_field(t, key));
        }
    }
}

/// The fields with each value taken for what it is.
pub open spec fn mapped<V, W>(f: Seq<(Seq<char>, V)>, g: spec_fn(V) -> W) -> Seq<(Seq<char>, W)> {
    f.map_values(|p: (Seq<char>, V)| (p.0, g(p.1)))
}

/// A value taken for what it is stands under its key.
pub proof fn mapped_field<V, W>(f: Seq<(Seq<char>, V)>, g: spec_fn(V) -> W, key: Seq<char>)
    ensures
        field(mapped(f, g), key) == match field(f, key) {
            Some(v) => Some(g(v)),
            None => None,
        },
    decreases f.len(),
{
    if f.len() > 0 {
        mapped_field(f.drop_first(), g, key);
        assert(mapped(f, g).drop_first() =~= mapped(f.drop_first(), g));
    }
}

/// Setting a field and taking the values for what they are can be done in either order.
pub proof fn mapped_with_field<V, W>(
    f: Seq<(Seq<char>, V)>,
    g: spec_fn(V) -> W,
    key: Seq<char>,
    value: V,
)
    ensures
        mapped(with_field(f, key, value), g) == with_field(mapped(f, g), key, g(value)),
    decreases f.len(),
{
    let m = mapped(f, g);
    let here = seq![(key, g(value))];
    if f.len() == 0 {
        assert(mapped(with_field(f, key, value), g) =~= here);
    } else {
        let t = f.drop_first();
        mapped_with_field(t, g, key, value);
        assert(m.drop_first() =~= mapped(t, g));
        if f[0].0 == key {
            assert(mapped(with_field(f, key, value), g) =~= here + m.drop_first());
        } else if precedes(key, f[0].0) {
            assert(mapped(with_field(f, key, value), g) =~= here + m);
        } else {
            assert(mapped(with_field(f, key, value), g) =~= seq![m[0]] + mapped(
                with_field(t, key, value),
                g,
            ));
        }
    }
}

/// Taking a field out and taking the values for what they are can be done in either order.
pub proof fn mapped_without_field<V, W>(f: Seq<(Seq<char>, V)>, g: spec_fn(V) -> W, key: Seq<char>)
    ensures
        mapped(without_field(f, key), g) == without_field(mapped(f, g), key),
    decreases f.len(),
{
    let m = mapped(f, g);
    if f.len() == 0 {
        assert(mapped(without_field(f, key), g) =~= m);
    } else {
        let t = f.drop_first();
        mapped_without_field(t, g, key);
        assert(m.drop_first() =~= mapped(t, g));
        if f[0].0 == key {
            assert(mapped(without_field(f, key), g) =~= m.drop_first());
        } else {
            assert(mapped(without_field(f, key), g) =~= seq![m[0]] + mapped(
                without_field(t, key),
                g,
            ));
        }
    }
}

/// Values under text keys.
#[derive(Debug, PartialEq)]
pub struct TextMap<V> {
    entries: Vec<(String, V)>,
}

impl<V> View for TextMap<V> {
    type V = Seq<(Seq<char>, V)>;

    closed spec fn view(&self) -> Seq<(Seq<char>, V)> {
        Seq::new(self.entries@.len(), |i: int| (self.entries@[i].0@, self.entries@[i].1))
    }
}

impl<V> TextMap<V> {
    #[verifier::type_invariant]
    closed spec fn ordered(self) -> bool {
        ascending(self@)
    }

    /// No value.
    pub fn new() -> (r: TextMap<V>)
        ensures
            r@ == Seq::<(Seq<char>, V)>::empty(),
    {
        let r = TextMap { entries: Vec::new() };
        assert(r@ =~= Seq::<(Seq<char>, V)>::empty());
        r
    }

    /// How many values there are. Their keys ascend.
    pub fn len(&self) -> (r: usize)
        ensures
            r == self@.len(),
            ascending(self@),
    {
        proof {
            use_type_invariant(self);
        }
        self.entries.len()
    }

    /// The key at `i`.
    pub fn key_at(&self, i: usize) -> (r: &str)
        requires
            i < self@.len(),
        ensures
            r@ == self@[i as int].0,
    {
        self.entries[i].0.as_str()
    }

    /// The value at `i`.
    pub fn value_at(&self, i: usize) -> (r: &V)
        requires
            i < self@.len(),
        ensures
            *r == self@[i as int].1,
    {
        &self.entries[i].1
    }

    /// The value under a key.
    pub fn get(&self, key: &str) -> (r: Option<&V>)
        ensures
            match r {
                Some(v) => field(self@, key@) == Some(*v),
                None => field(self@, key@) is None,
            },
    {
        let mut i: usize = 0;
        while i < self.entries.len()
            invariant
                i <= self.entries@.len(),
                forall|j: int| 0 <= j < i ==> #[trigger] self@[j].0 != key@,
            decreases self.entries@.len() - i,
        {
            if same_text(self.entries[i].0.as_str(), key) {
                proof {
                    field_at(self@, key@, i as int);
                }
                return Some(&self.entries[i].1);
            }
            i = i + 1;
        }
        proof {
            field_nowhere(self@, key@);
        }
        None
    }

    /// Puts a value under a key, in place of the one that is there.
    pub fn insert(&mut self, key: &str, value: V)
        ensures
            final(self)@ == with_field(old(self)@, key@, value),
    {
        proof {
            use_type_invariant(&*self);
        }
        let mut entries: Vec<(String, V)> = Vec::new();
        std::mem::swap(&mut entries, &mut self.entries);
        let ghost before = old(self)@;
        let mut i: usize = 0;
        while i < entries.len() && text_precedes(entries[i].0.as_str(), key)
            invariant
                i <= entries@.len(),
                before == Seq::new(entries@.len(), |k: int| (entries@[k].0@, entries@[k].1)),
                forall|j: int| 0 <= j < i ==> precedes(#[trigger] before[j].0, key@),
            decreases entries@.len() - i,
        {
            i = i + 1;
        }
        proof {
            with_field_at(before, key@, value, i as int);
            set_field_keeps_order(before, key@, value);
        }
        let ghost after = with_field(before, key@, value);
        if i < entries.len() && same_text(entries[i].0.as_str(), key) {
            entries[i].1 = value;
        } else {
            entries.insert(i, (key.to_owned(), value));
        }
        assert(after =~= Seq::new(entries@.len(), |k: int| (entries@[k].0@, entries@[k].1)));
        self.entries = entries;
    }

    /// Takes out what is under a key.
    pub fn remove(&mut self, key: &str)
        ensures
            final(self)@ == without_field(old(self)@, key@),
    {
        proof {
            use_type_invariant(&*self);
        }
        let mut entries: Vec<(String, V)> = Vec::new();
        std::mem::swap(&mut entries, &mut self.entries);
        let ghost before = old(self)@;
        let mut i: usize = 0;
        while i < entries.len() && !same_text(entries[i].0.as_str(), key)
            invariant
                i <= entries@.len(),
                before == Seq::new(entries@.len(), |k: int| (entries@[k].0@, entries@[k].1)),
                forall|j: int| 0 <= j < i ==> (#[trigger] before[j]).0 != key@,
            decreases entries@.len() - i,
        {
            i = i + 1;
        }
        proof {
            without_field_at(before, key@, i as int);
        }
        if i < entries.len() {
            entries.remove(i);
        }
        let ghost after = without_field(before, key@);
        assert(after =~= Seq::new(entries@.len(), |k: int| (entries@[k].0@, entries@[k].1)));
        assert(ascending(after)) by {
            assert forall|a: int, b: int| 0 <= a < b < after.len() implies precedes(
                #[trigger] after[a].0,
                #[trigger] after[b].0,
            ) by {
                let x = if a < i {
                    a
                } else {
                    a + 1
                };
                let y = if b < i {
                    b
                } else {
                    b + 1
                };
                assert(after[a] == before[x] && after[b] == before[y]);
            }
        }
        self.entries = entries;
    }
}

} // verus!
