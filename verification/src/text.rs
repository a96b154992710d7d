//! Characters, strings and how they compare, join and split.
use vstd::prelude::*;

verus! {

/// `a` stands before `b` in the order of their characters' code points.
pub open spec fn precedes(a: Seq<char>, b: Seq<char>) -> bool
    decreases a.len(),
{
    if b.len() == 0 {
        false
    } else if a.len() == 0 {
        true
    } else if a[0] != b[0] {
        (a[0] as int) < (b[0] as int)
    } else {
        precedes(a.drop_first(), b.drop_first())
    }
}

pub proof fn precedes_irreflexive(a: Seq<char>)
    ensures
        !precedes(a, a),
    decreases a.len(),
{
    if a.len() > 0 {
        precedes_irreflexive(a.drop_first());
    }
}

pub proof fn precedes_transitive(a: Seq<char>, b: Seq<char>, c: Seq<char>)
    requires
        precedes(a, b),
        precedes(b, c),
    ensures
        precedes(a, c),
    decreases a.len(),
{
    if a.len() > 0 && a[0] == b[0] && b[0] == c[0] {
        precedes_transitive(a.drop_first(), b.drop_first(), c.drop_first());
    }
}

pub proof fn precedes_total(a: Seq<char>, b: Seq<char>)
    ensures
        precedes(a, b) || a == b || precedes(b, a),
    decreases a.len(),
{
    if a.len() > 0 && b.len() > 0 && a[0] == b[0] {
        precedes_total(a.drop_first(), b.drop_first());
        if a.drop_first() == b.drop_first() {
            assert(a =~= seq![a[0]] + a.drop_first());
            assert(b =~= seq![b[0]] + b.drop_first());
        }
    } else if a.len() == 0 && b.len() == 0 {
        assert(a =~= b);
    }
}

/// The characters of `s`, in order.
pub fn chars_of(s: &str) -> (r: Vec<char>)
    ensures
        r@ == s@,
{
    let mut out: Vec<char> = Vec::new();
    for c in it: s.chars()
        invariant
            out@ == it.seq().take(it.index() as int),
            it.seq() == s@,
    {
        out.push(c);
    }
    assert(s@.take(s@.len() as int) =~= s@);
    out
}

/// Whether two strings hold the same characters.
pub fn same_text(a: &str, b: &str) -> (r: bool)
    ensures
        r == (a@ == b@),
{
    a.to_owned() == b.to_owned()
}

/// Whether `a` stands before `b`.
pub fn text_precedes(a: &str, b: &str) -> (r: bool)
    ensures
        r == precedes(a@, b@),
{
    let x: Vec<char> = chars_of(a);
    let y: Vec<char> = chars_of(b);
    let mut i: usize = 0;
    assert(a@.skip(0) =~= a@);
    assert(b@.skip(0) =~= b@);
    while i < x.len() && i < y.len() && x[i] == y[i]
        invariant
            i <= x@.len(),
            i <= y@.len(),
            x@ == a@,
            y@ == b@,
            precedes(a@, b@) == precedes(a@.skip(i as int), b@.skip(i as int)),
        decreases x@.len() - i,
    {
        assert(a@.skip(i as int).drop_first() =~= a@.skip(i + 1));
        assert(b@.skip(i as int).drop_first() =~= b@.skip(i + 1));
        i = i + 1;
    }
    if i == y.len() {
        false
    } else if i == x.len() {
        true
    } else {
        x[i] < y[i]
    }
}

/// `String::push`: the character goes to the end.
pub assume_specification[ std::string::String::push ](s: &mut std::string::String, c: char)
    ensures
        final(s)@ == old(s)@.push(c),
;

/// What follows `prefix` in `s`, where `s` begins with it.
pub open spec fn stripped(s: Seq<char>, prefix: Seq<char>) -> Option<Seq<char>> {
    if prefix.len() <= s.len() && s.take(prefix.len() as int) == prefix {
        Some(s.skip(prefix.len() as int))
    } else {
        None
    }
}

/// What follows `prefix` in `s`, where `s` begins with it.
pub fn strip_prefix<'a>(s: &'a str, prefix: &str) -> (r: Option<&'a str>)
    ensures
        match r {
            Some(rest) => stripped(s@, prefix@) == Some(rest@),
            None => stripped(s@, prefix@) is None,
        },
{
    let n: usize = s.unicode_len();
    let k: usize = prefix.unicode_len();
    if k <= n && same_text(s.substring_char(0, k), prefix) {
        Some(s.substring_char(k, n))
    } else {
        None
    }
}

/// `a` followed by `b`.
pub fn concat2(a: &str, b: &str) -> (r: String)
    ensures
        r@ == a@ + b@,
{
    let mut out: String = a.to_owned();
    out.append(b);
    out
}

/// `a` followed by `b` and `c`.
pub fn concat3(a: &str, b: &str, c: &str) -> (r: String)
    ensures
        r@ == a@ + b@ + c@,
{
    let mut out: String = a.to_owned();
    out.append(b);
    out.append(c);
    out
}

/// What precedes `suffix` in `s`, where `s` ends with it.
pub open spec fn stripped_suffix(s: Seq<char>, suffix: Seq<char>) -> Option<Seq<char>> {
    let at = s.len() - suffix.len();
    if at >= 0 && s.skip(at) == suffix {
        Some(s.take(at))
    } else {
        None
    }
}

/// What precedes `suffix` in `s`, where `s` ends with it.
pub fn strip_suffix<'a>(s: &'a str, suffix: &str) -> (r: Option<&'a str>)
    ensures
        match r {
            Some(rest) => stripped_suffix(s@, suffix@) == Some(rest@),
            None => stripped_suffix(s@, suffix@) is None,
        },
{
    let n: usize = s.unicode_len();
    let k: usize = suffix.unicode_len();
    if k <= n && same_text(s.substring_char(n - k, n), suffix) {
        Some(s.substring_char(0, n - k))
    } else {
        None
    }
}

/// A character of Unicode's `White_Space`.
pub open spec fn is_whitespace(c: char) -> bool {
    let n = c as u32;
    9 <= n <= 13 || n == 32 || n == 0x85 || n == 0xA0 || n == 0x1680 || 0x2000 <= n <= 0x200A || n
        == 0x2028 || n == 0x2029 || n == 0x202F || n == 0x205F || n == 0x3000
}

/// Whether a character is white space.
pub fn whitespace(c: char) -> (r: bool)
    ensures
        r == is_whitespace(c),
{
    let n: u32 = c as u32;
    (9 <= n && n <= 13) || n == 32 || n == 0x85 || n == 0xA0 || n == 0x1680 || (0x2000 <= n && n
        <= 0x200A) || n == 0x2028 || n == 0x2029 || n == 0x202F || n == 0x205F || n == 0x3000
}

/// `s` without the characters at its ends of which `drop` says so.
pub open spec fn trimmed(s: Seq<char>, drop: spec_fn(char) -> bool) -> Seq<char>
    decreases s.len(),
{
    if s.len() > 0 && drop(s[0]) {
        trimmed(s.drop_first(), drop)
    } else if s.len() > 0 && drop(s.last()) {
        trimmed(s.drop_last(), drop)
    } else {
        s
    }
}

/// `s` without the white space at its ends.
pub fn trim(s: &str) -> (r: &str)
    ensures
        r@ == trimmed(s@, |c: char| is_whitespace(c)),
{
    let c: Vec<char> = chars_of(s);
    let n: usize = c.len();
    let ghost drop = |c: char| is_whitespace(c);
    let mut i: usize = 0;
    assert(s@.subrange(0, n as int) =~= s@);
    while i < n && whitespace(c[i])
        invariant
            i <= n,
            n == s@.len(),
            c@ == s@,
            drop == |c: char| is_whitespace(c),
            trimmed(s@, drop) == trimmed(s@.subrange(i as int, n as int), drop),
        decreases n - i,
    {
        assert(s@.subrange(i as int, n as int).drop_first() =~= s@.subrange(i + 1, n as int));
        i = i + 1;
    }
    let mut j: usize = n;
    while j > i && whitespace(c[j - 1])
        invariant
            i <= j <= n,
            n == s@.len(),
            c@ == s@,
            drop == |c: char| is_whitespace(c),
            i == n || !is_whitespace(s@[i as int]),
            trimmed(s@, drop) == trimmed(s@.subrange(i as int, j as int), drop),
        decreases j,
    {
        assert(s@.subrange(i as int, j as int).drop_last() =~= s@.subrange(i as int, j - 1));
        j = j - 1;
    }
    s.substring_char(i, j)
}

/// A decimal digit.
pub open spec fn is_digit(c: char) -> bool {
    '0' <= c <= '9'
}

/// The value of a decimal digit.
pub open spec fn digit_value(c: char) -> nat {
    (c as int - '0' as int) as nat
}

/// Only decimal digits.
pub open spec fn all_digits(s: Seq<char>) -> bool {
    forall|i: int| 0 <= i < s.len() ==> is_digit(#[trigger] s[i])
}

/// The number that decimal digits spell.
pub open spec fn decimal(s: Seq<char>) -> nat
    decreases s.len(),
{
    if s.len() == 0 {
        0
    } else {
        10 * decimal(s.drop_last()) + digit_value(s.last())
    }
}

/// A number in decimal, without leading zeros.
pub open spec fn decimal_text(n: nat) -> Seq<char>
    decreases n,
{
    if n < 10 {
        seq![digit_char(n)]
    } else {
        decimal_text(n / 10).push(digit_char(n % 10))
    }
}

/// The digit of a value under ten.
pub open spec fn digit_char(d: nat) -> char {
    (d + '0' as nat) as char
}

/// What decimal text spells is the number that it was made of.
pub proof fn decimal_text_reads_back(n: nat)
    ensures
        all_digits(decimal_text(n)),
        decimal_text(n).len() > 0,
        decimal(decimal_text(n)) == n,
    decreases n,
{
    if n >= 10 {
        decimal_text_reads_back(n / 10);
        let t = decimal_text(n / 10);
        assert(decimal_text(n).drop_last() =~= t);
    } else {
        assert(decimal_text(n).drop_last() =~= Seq::empty());
        assert(decimal(decimal_text(n).drop_last()) == 0);
        assert(decimal_text(n).last() == digit_char(n));
    }
}

/// The digit of a value under ten.
fn digit(d: u8) -> (r: char)
    requires
        d < 10,
    ensures
        r == digit_char(d as nat),
{
    match d {
        0 => '0',
        1 => '1',
        2 => '2',
        3 => '3',
        4 => '4',
        5 => '5',
        6 => '6',
        7 => '7',
        8 => '8',
        _ => '9',
    }
}

/// Appends a number in decimal.
pub fn push_decimal(out: &mut String, n: u64)
    ensures
        final(out)@ == old(out)@ + decimal_text(n as nat),
    decreases n,
{
    if n >= 10 {
        push_decimal(out, n / 10);
    }
    out.push(digit((n % 10) as u8));
    assert(out@ =~= old(out)@ + decimal_text(n as nat));
}

/// A number in decimal.
pub fn decimal_string(n: u64) -> (r: String)
    ensures
        r@ == decimal_text(n as nat),
{
    let mut out: String = String::new();
    push_decimal(&mut out, n);
    assert(out@ =~= decimal_text(n as nat));
    out
}

/// The number in the range of `u64` that a text spells: digits, behind a `+` or not.
pub open spec fn unsigned_text(s: Seq<char>) -> Option<u64> {
    let d = if s.len() > 0 && s[0] == '+' {
        s.drop_first()
    } else {
        s
    };
    if d.len() > 0 && all_digits(d) && decimal(d) <= u64::MAX {
        Some(decimal(d) as u64)
    } else {
        None
    }
}

/// The number in the range of `u64` that a text spells.
pub fn parse_unsigned(s: &str) -> (r: Option<u64>)
    ensures
        r == unsigned_text(s@),
{
    let c: Vec<char> = chars_of(s);
    let from: usize = if c.len() > 0 && c[0] == '+' {
        1
    } else {
        0
    };
    let ghost d = if s@.len() > 0 && s@[0] == '+' {
        s@.drop_first()
    } else {
        s@
    };
    assert(d =~= s@.skip(from as int));
    if from == c.len() {
        return None;
    }
    let mut i: usize = from;
    let mut n: u64 = 0;
    while i < c.len()
        invariant
            from <= i <= c@.len(),
            c@ == s@,
            d == s@.skip(from as int),
            all_digits(d.take(i - from)),
            n == decimal(d.take(i - from)),
            unsigned_text(s@) is Some ==> d.len() > 0 && all_digits(d) && decimal(d) <= u64::MAX,
            unsigned_text(s@) is None ==> !(d.len() > 0 && all_digits(d) && decimal(d) <= u64::MAX),
        decreases c@.len() - i,
    {
        let ch: char = c[i];
        assert(d[i - from] == ch);
        assert(d.take(i + 1 - from).drop_last() =~= d.take(i - from));
        if !('0' <= ch && ch <= '9') {
            return None;
        }
        let v: u64 = (ch as u32 - '0' as u32) as u64;
        if n > (u64::MAX - v) / 10 {
            proof {
                decimal_grows(d, i + 1 - from);
            }
            return None;
        }
        n = n * 10 + v;
        i = i + 1;
    }
    assert(d.take(d.len() as int) =~= d);
    Some(n)
}

proof fn decimal_grows(d: Seq<char>, k: int)
    requires
        0 <= k <= d.len(),
    ensures
        decimal(d.take(k)) <= decimal(d),
    decreases d.len() - k,
{
    if k < d.len() {
        assert(d.take(k + 1).drop_last() =~= d.take(k));
        decimal_grows(d, k + 1);
    } else {
        assert(d.take(k) =~= d);
    }
}

/// The characters of each string.
pub open spec fn texts(v: Seq<String>) -> Seq<Seq<char>> {
    v.map_values(|s: String| s@)
}

/// The characters of a string that may be missing.
pub open spec fn text_of(s: Option<String>) -> Option<Seq<char>> {
    match s {
        Some(t) => Some(t@),
        None => None,
    }
}

/// The characters of a string slice that may be missing.
pub open spec fn str_of(s: Option<&str>) -> Option<Seq<char>> {
    match s {
        Some(t) => Some(t@),
        None => None,
    }
}

/// The string behind an option.
pub fn as_deref(s: &Option<String>) -> (r: Option<&str>)
    ensures
        str_of(r) == text_of(*s),
{
    match s {
        Some(t) => Some(t.as_str()),
        None => None,
    }
}

/// A copy of a string that may be missing.
pub fn copy_text(s: &Option<String>) -> (r: Option<String>)
    ensures
        text_of(r) == text_of(*s),
{
    match s {
        Some(t) => Some(t.clone()),
        None => None,
    }
}

/// Whether a text is among others.
pub fn contains_text(v: &Vec<String>, s: &str) -> (r: bool)
    ensures
        r == texts(v@).contains(s@),
{
    let mut i: usize = 0;
    while i < v.len()
        invariant
            i <= v@.len(),
            forall|k: int| 0 <= k < i ==> texts(v@)[k] != s@,
        decreases v@.len() - i,
    {
        if same_text(v[i].as_str(), s) {
            assert(texts(v@)[i as int] == s@);
            return true;
        }
        i = i + 1;
    }
    false
}

/// The texts with `x` at the end, unless it is among them.
pub open spec fn with_distinct(s: Seq<Seq<char>>, x: Seq<char>) -> Seq<Seq<char>> {
    if s.contains(x) {
        s
    } else {
        s.push(x)
    }
}

/// Adds a text at the end, unless it is there.
pub fn push_distinct(v: &mut Vec<String>, x: &str)
    ensures
        texts(final(v)@) == with_distinct(texts(old(v)@), x@),
{
    if !contains_text(v, x) {
        v.push(x.to_owned());
    }
    assert(texts(v@) =~= with_distinct(texts(old(v)@), x@));
}

/// Adding a text keeps the texts distinct.
pub proof fn with_distinct_keeps_distinct(s: Seq<Seq<char>>, x: Seq<char>)
    requires
        s.no_duplicates(),
    ensures
        with_distinct(s, x).no_duplicates(),
        forall|y: Seq<char>| #[trigger]
            with_distinct(s, x).contains(y) <==> s.contains(y) || y == x,
{
    let r = with_distinct(s, x);
    assert forall|y: Seq<char>| #[trigger] r.contains(y) <==> s.contains(y) || y == x by {
        if s.contains(y) {
            let i = choose|i: int| 0 <= i < s.len() && s[i] == y;
            assert(r[i] == y);
        }
        if y == x && !s.contains(x) {
            assert(r[s.len() as int] == y);
        }
        if r.contains(y) {
            let i = choose|i: int| 0 <= i < r.len() && r[i] == y;
            if i < s.len() {
                assert(s[i] == y);
            }
        }
    }
    if !s.contains(x) {
        assert forall|i: int, j: int| 0 <= i < r.len() && 0 <= j < r.len() && i != j implies r[i]
            != r[j] by {
            if i < s.len() {
                assert(s.contains(s[i]));
            }
            if j < s.len() {
                assert(s.contains(s[j]));
            }
        }
    }
}

/// The texts one behind another, with `separator` between each two.
pub open spec fn joined(s: Seq<Seq<char>>, separator: Seq<char>) -> Seq<char>
    decreases s.len(),
{
    if s.len() == 0 {
        Seq::empty()
    } else if s.len() == 1 {
        s[0]
    } else {
        joined(s.drop_last(), separator) + separator + s.last()
    }
}

/// The texts one behind another, with `separator` between each two.
pub fn join(v: &Vec<String>, separator: &str) -> (r: String)
    ensures
        r@ == joined(texts(v@), separator@),
{
    let mut out: String = String::new();
    let mut i: usize = 0;
    let ghost all = texts(v@);
    assert(all.take(0) =~= Seq::<Seq<char>>::empty());
    while i < v.len()
        invariant
            i <= v@.len(),
            all == texts(v@),
            out@ == joined(all.take(i as int), separator@),
        decreases v@.len() - i,
    {
        assert(all.take(i + 1).drop_last() =~= all.take(i as int));
        assert(all.take(i + 1).last() == v@[i as int]@);
        if i > 0 {
            out.append(separator);
        }
        out.append(v[i].as_str());
        proof {
            if i == 0 {
                assert(out@ =~= all.take(1)[0]);
            }
        }
        i = i + 1;
    }
    assert(all.take(all.len() as int) =~= all);
    out
}

/// A character that C's `isspace` knows.
pub open spec fn is_c_space(c: char) -> bool {
    let n = c as u32;
    9 <= n <= 13 || n == 32
}

fn c_space(c: char) -> (r: bool)
    ensures
        r == is_c_space(c),
{
    let n: u32 = c as u32;
    (9 <= n && n <= 13) || n == 32
}

/// `s` without the white space of C at its ends.
pub fn trim_c(s: &str) -> (r: &str)
    ensures
        r@ == trimmed(s@, |c: char| is_c_space(c)),
{
    let c: Vec<char> = chars_of(s);
    let n: usize = c.len();
    let ghost drop = |c: char| is_c_space(c);
    let mut i: usize = 0;
    assert(s@.subrange(0, n as int) =~= s@);
    while i < n && c_space(c[i])
        invariant
            i <= n,
            n == s@.len(),
            c@ == s@,
            drop == |c: char| is_c_space(c),
            trimmed(s@, drop) == trimmed(s@.subrange(i as int, n as int), drop),
        decreases n - i,
    {
        assert(s@.subrange(i as int, n as int).drop_first() =~= s@.subrange(i + 1, n as int));
        i = i + 1;
    }
    let mut j: usize = n;
    while j > i && c_space(c[j - 1])
        invariant
            i <= j <= n,
            n == s@.len(),
            c@ == s@,
            drop == |c: char| is_c_space(c),
            i == n || !is_c_space(s@[i as int]),
            trimmed(s@, drop) == trimmed(s@.subrange(i as int, j as int), drop),
        decreases j,
    {
        assert(s@.subrange(i as int, j as int).drop_last() =~= s@.subrange(i as int, j - 1));
        j = j - 1;
    }
    s.substring_char(i, j)
}

/// The parts of `s` between the separators: one more than there are separators.
pub open spec fn split_parts(s: Seq<char>, separator: char) -> Seq<Seq<char>>
    decreases s.len(),
{
    if s.len() == 0 {
        seq![Seq::empty()]
    } else {
        let head = split_parts(s.drop_last(), separator);
        if s.last() == separator {
            head.push(Seq::empty())
        } else {
            head.update(head.len() - 1, head.last().push(s.last()))
        }
    }
}

/// The parts of `s` between the separators.
pub fn split(s: &str, separator: char) -> (r: Vec<String>)
    ensures
        texts(r@) == split_parts(s@, separator),
        r@.len() > 0,
{
    let c: Vec<char> = chars_of(s);
    let mut done: Vec<String> = Vec::new();
    let mut part: String = String::new();
    let mut i: usize = 0;
    assert(s@.take(0) =~= Seq::<char>::empty());
    assert(texts(done@).push(part@) =~= seq![Seq::<char>::empty()]);
    while i < c.len()
        invariant
            i <= c@.len(),
            c@ == s@,
            texts(done@).push(part@) == split_parts(s@.take(i as int), separator),
        decreases c@.len() - i,
    {
        assert(s@.take(i + 1).drop_last() =~= s@.take(i as int));
        assert(s@.take(i + 1).last() == c@[i as int]);
        let ghost head = texts(done@).push(part@);
        if c[i] == separator {
            done.push(part);
            part = String::new();
            assert(texts(done@).push(part@) =~= head.push(Seq::empty()));
        } else {
            let ghost before = part@;
            part.push(c[i]);
            assert(texts(done@).push(part@) =~= head.update(
                head.len() - 1,
                head.last().push(c@[i as int]),
            ));
        }
        i = i + 1;
    }
    assert(s@.take(s@.len() as int) =~= s@);
    let ghost whole = texts(done@).push(part@);
    done.push(part);
    assert(texts(done@) =~= whole);
    done
}

/// Joining the parts of a text with the separator between them gives the text.
pub proof fn join_undoes_split(s: Seq<char>, separator: char)
    ensures
        split_parts(s, separator).len() > 0,
        joined(split_parts(s, separator), seq![separator]) == s,
    decreases s.len(),
{
    let parts = split_parts(s, separator);
    if s.len() > 0 {
        let head = split_parts(s.drop_last(), separator);
        join_undoes_split(s.drop_last(), separator);
        assert(s =~= s.drop_last().push(s.last()));
        if s.last() == separator {
            assert(parts.drop_last() =~= head);
            assert(joined(parts, seq![separator]) =~= s.drop_last() + seq![separator]);
        } else {
            assert(parts.drop_last() =~= head.drop_last());
            if parts.len() > 1 {
                assert(joined(parts, seq![separator]) =~= joined(head, seq![separator]).push(
                    s.last(),
                ));
            } else {
                assert(joined(parts, seq![separator]) =~= s);
            }
        }
    }
}

/// Where two texts meet at a separator, the parts are those of the one and those of the other.
pub proof fn split_of_joined(a: Seq<char>, b: Seq<char>, separator: char)
    ensures
        split_parts(a + seq![separator] + b, separator) == split_parts(a, separator) + split_parts(
            b,
            separator,
        ),
    decreases b.len(),
{
    let s = a + seq![separator] + b;
    let of_a = split_parts(a, separator);
    let of_b = split_parts(b, separator);
    if b.len() == 0 {
        assert(s.drop_last() =~= a);
        assert(of_a.push(Seq::empty()) =~= of_a + of_b);
    } else {
        let front = split_parts(b.drop_last(), separator);
        split_of_joined(a, b.drop_last(), separator);
        join_undoes_split(b.drop_last(), separator);
        assert(s.drop_last() =~= a + seq![separator] + b.drop_last());
        assert(s.last() == b.last());
        assert((of_a + front).last() == front.last());
        assert(split_parts(s, separator) =~= of_a + of_b);
    }
}

/// A text without the separator is its own only part.
pub proof fn split_of_plain(s: Seq<char>, separator: char)
    requires
        !s.contains(separator),
    ensures
        split_parts(s, separator) == seq![s],
    decreases s.len(),
{
    if s.len() > 0 {
        assert(s[s.len() - 1] == s.last());
        assert forall|i: int| 0 <= i < s.len() - 1 implies s.drop_last()[i] != separator by {
            assert(s.drop_last()[i] == s[i]);
        }
        split_of_plain(s.drop_last(), separator);
        assert(s.drop_last().push(s.last()) =~= s);
        assert(split_parts(s, separator) =~= seq![s]);
    } else {
        assert(s =~= Seq::empty());
    }
}

/// No part holds the separator.
pub proof fn parts_are_plain(s: Seq<char>, separator: char)
    ensures
        forall|i: int|
            0 <= i < split_parts(s, separator).len() ==> !(#[trigger] split_parts(
                s,
                separator,
            )[i]).contains(separator),
    decreases s.len(),
{
    if s.len() > 0 {
        parts_are_plain(s.drop_last(), separator);
        join_undoes_split(s.drop_last(), separator);
    }
}

/// What a character is in upper case.
pub uninterp spec fn upper(c: char) -> Seq<char>;

/// `char::to_uppercase`: the character in upper case, which can take more than one character. A
/// small letter of ASCII becomes the capital one, and a digit or a capital letter of ASCII stays.
#[verifier::external_body]
pub(crate) fn to_upper(c: char) -> (r: String)
    ensures
        r@ == upper(c),
        'a' <= c <= 'z' ==> r@ == seq![(c as u32 - 32) as char],
        'A' <= c <= 'Z' || '0' <= c <= '9' ==> r@ == seq![c],
{
    c.to_uppercase().collect()
}

/// The number in the range of `i64` that a text spells: digits, behind a sign or not.
pub open spec fn signed_text(s: Seq<char>) -> Option<i64> {
    if s.len() > 0 && s[0] == '-' {
        let d = s.drop_first();
        if d.len() > 0 && all_digits(d) && decimal(d) <= 0x8000_0000_0000_0000 {
            Some((-(decimal(d) as int)) as i64)
        } else {
            None
        }
    } else {
        match unsigned_text(s) {
            Some(u) => if u <= i64::MAX {
                Some(u as i64)
            } else {
                None
            },
            None => None,
        }
    }
}

/// The number in the range of `i64` that a text spells.
pub fn parse_signed(s: &str) -> (r: Option<i64>)
    ensures
        r == signed_text(s@),
{
    proof {
        reveal_strlit("-");
        reveal_strlit("+");
    }
    match strip_prefix(s, "-") {
        Some(rest) => {
            assert(s@.take(1)[0] == '-');
            assert(rest@ =~= s@.drop_first());
            if strip_prefix(rest, "+").is_some() {
                assert(rest@.take(1)[0] == '+');
                assert(!is_digit(rest@[0]));
                return None;
            }
            proof {
                if rest@.len() > 0 && rest@[0] == '+' {
                    assert(rest@.take(1) =~= "+"@);
                }
            }
            match parse_unsigned(rest) {
                Some(u) => if u < 0x8000_0000_0000_0000 {
                    Some(-(u as i64))
                } else if u == 0x8000_0000_0000_0000 {
                    Some(i64::MIN)
                } else {
                    None
                },
                None => None,
            }
        },
        None => {
            proof {
                if s@.len() > 0 && s@[0] == '-' {
                    assert(s@.take(1) =~= "-"@);
                }
            }
            match parse_unsigned(s) {
                Some(u) => if u <= 0x7fff_ffff_ffff_ffff {
                    Some(u as i64)
                } else {
                    None
                },
                None => None,
            }
        },
    }
}

/// A number in decimal, behind a minus where it is below zero.
pub open spec fn signed_decimal(i: int) -> Seq<char> {
    if i < 0 {
        "-"@ + decimal_text((-i) as nat)
    } else {
        decimal_text(i as nat)
    }
}

/// A number in decimal, behind a minus where it is below zero.
pub fn signed_string(i: i64) -> (r: String)
    ensures
        r@ == signed_decimal(i as int),
{
    if i < 0 {
        let mut out: String = "-".to_owned();
        push_decimal(&mut out, (-(i as i128)) as u64);
        out
    } else {
        decimal_string(i as u64)
    }
}

/// An ASCII letter as a small one; every other character as it is.
pub open spec fn lower_char(c: char) -> char {
    if 'A' <= c <= 'Z' {
        (c as u32 + 32) as char
    } else {
        c
    }
}

/// A text with its ASCII letters as small ones.
pub open spec fn lowered(s: Seq<char>) -> Seq<char> {
    s.map_values(|c: char| lower_char(c))
}

/// Whether a text is `lower` once its ASCII letters are small ones.
pub fn lowers_to(s: &str, lower: &str) -> (r: bool)
    ensures
        r == (lowered(s@) == lower@),
{
    let a: Vec<char> = chars_of(s);
    let b: Vec<char> = chars_of(lower);
    if a.len() != b.len() {
        assert(lowered(s@).len() != lower@.len());
        return false;
    }
    let mut i: usize = 0;
    while i < a.len()
        invariant
            i <= a@.len() == b@.len(),
            a@ == s@,
            b@ == lower@,
            forall|k: int| 0 <= k < i ==> lowered(s@)[k] == lower@[k],
        decreases a@.len() - i,
    {
        let same: bool = if 'A' <= a[i] && a[i] <= 'Z' {
            'a' <= b[i] && b[i] <= 'z' && a[i] as u32 + 32 == b[i] as u32
        } else {
            a[i] == b[i]
        };
        assert(lowered(s@)[i as int] == lower_char(a@[i as int]));
        proof {
            let c = a@[i as int];
            if 'A' <= c <= 'Z' {
                let d = b@[i as int];
                assert(lower_char(c) as int == c as int + 32);
                assert(same ==> d as int == c as int + 32);
            }
        }
        if !same {
            return false;
        }
        i = i + 1;
    }
    assert(lowered(s@) =~= lower@);
    true
}

/// A number that is written in decimal reads back as it was, where it fits.
pub proof fn written_numbers_read_back(i: int)
    ensures
        i64::MIN <= i <= i64::MAX ==> signed_text(signed_decimal(i)) == Some(i as i64),
        !(i64::MIN <= i <= i64::MAX) ==> signed_text(signed_decimal(i)) is None,
        0 <= i <= u64::MAX ==> unsigned_text(decimal_text(i as nat)) == Some(i as u64),
        i > u64::MAX ==> unsigned_text(decimal_text(i as nat)) is None,
{
    if i >= 0 {
        decimal_text_reads_back(i as nat);
        assert(is_digit(decimal_text(i as nat)[0]));
    } else {
        let d = decimal_text((-i) as nat);
        decimal_text_reads_back((-i) as nat);
        reveal_strlit("-");
        assert(("-"@ + d).drop_first() =~= d);
    }
}

/// What is left of a text once its ends are dropped stands in it, between what was dropped, and
/// neither begins nor ends with what is to be dropped.
pub proof fn ends_are_dropped(s: Seq<char>, drop: spec_fn(char) -> bool) -> (ends: (
    Seq<char>,
    Seq<char>,
))
    ensures
        s == ends.0 + trimmed(s, drop) + ends.1,
        forall|i: int| 0 <= i < ends.0.len() ==> drop(#[trigger] ends.0[i]),
        forall|i: int| 0 <= i < ends.1.len() ==> drop(#[trigger] ends.1[i]),
        trimmed(s, drop).len() > 0 ==> !drop(trimmed(s, drop)[0]) && !drop(trimmed(s, drop).last()),
    decreases s.len(),
{
    let none = Seq::<char>::empty();
    if s.len() > 0 && drop(s[0]) {
        let ends = ends_are_dropped(s.drop_first(), drop);
        let a = seq![s[0]] + ends.0;
        assert(a + trimmed(s, drop) + ends.1 =~= seq![s[0]] + s.drop_first());
        assert(seq![s[0]] + s.drop_first() =~= s);
        (a, ends.1)
    } else if s.len() > 0 && drop(s.last()) {
        let ends = ends_are_dropped(s.drop_last(), drop);
        let b = ends.1.push(s.last());
        assert(ends.0 + trimmed(s, drop) + b =~= s.drop_last().push(s.last()));
        assert(s.drop_last().push(s.last()) =~= s);
        (ends.0, b)
    } else {
        assert(none + s + none =~= s);
        (none, none)
    }
}

/// A lowered text has small letters for the capital ones of ASCII, and is otherwise as it was.
pub proof fn only_capitals_are_lowered(s: Seq<char>, i: int)
    requires
        0 <= i < s.len(),
    ensures
        lowered(s).len() == s.len(),
        'A' <= s[i] <= 'Z' ==> 'a' <= lowered(s)[i] <= 'z' && lowered(s)[i] as int - 'a' as int
            == s[i] as int - 'A' as int,
        !('A' <= s[i] <= 'Z') ==> lowered(s)[i] == s[i],
{
}

} // verus!
