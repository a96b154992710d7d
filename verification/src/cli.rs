//! What is said on the command line: which configurations, devices and points are meant, what is
//! to be written, and what comes out.
use crate::clock::{duration_text, nanos, parse_duration};
use crate::conformance_claims::{set_of, sets_hold_what_they_are_of, sorted_set};
use crate::text::{
    chars_of, concat2, concat3, decimal_text, join, joined, parse_unsigned, push_decimal, same_text,
    split, split_parts, str_of, strip_suffix, stripped_suffix, texts, unsigned_text,
};
use std::time::Duration;
use vstd::prelude::*;

verus! {

/// Where the configurations are that nothing else is said of.
pub const DEFAULT_CONFIG_DIR: &'static str = "/etc/tedge/plugins/ot";

/// The configuration that is read and written by where nothing else is said.
pub const DEFAULT_CONFIG: &'static str = "/etc/tedge/plugins/ot/modbus.toml";

/// How long a connector that failed waits where nothing else is said, in seconds.
pub const DEFAULT_RESTART_DELAY_SECS: u64 = 5;

/// Whether a text matches a pattern: `*` stands for any run of characters, `?` for one.
pub open spec fn glob(p: Seq<char>, t: Seq<char>) -> bool
    decreases p.len() + t.len(),
{
    if p.len() == 0 {
        t.len() == 0
    } else if p[0] == '*' {
        glob(p.drop_first(), t) || (t.len() > 0 && glob(p, t.drop_first()))
    } else {
        t.len() > 0 && (p[0] == '?' || p[0] == t[0]) && glob(p.drop_first(), t.drop_first())
    }
}

/// Whether what is left of a text matches what is left of a pattern.
spec fn rest(p: Seq<char>, t: Seq<char>, i: int, j: int) -> bool {
    glob(p.skip(i), t.skip(j))
}

proof fn rest_step(p: Seq<char>, t: Seq<char>, i: int, j: int)
    requires
        0 <= i < p.len(),
        0 <= j <= t.len(),
    ensures
        p[i] == '*' ==> rest(p, t, i, j) == (rest(p, t, i + 1, j) || (j < t.len() && rest(
            p,
            t,
            i,
            j + 1,
        ))),
        p[i] != '*' ==> rest(p, t, i, j) == (j < t.len() && (p[i] == '?' || p[i] == t[j]) && rest(
            p,
            t,
            i + 1,
            j + 1,
        )),
{
    assert(p.skip(i)[0] == p[i]);
    assert(p.skip(i).drop_first() =~= p.skip(i + 1));
    if j < t.len() {
        assert(t.skip(j)[0] == t[j]);
        assert(t.skip(j).drop_first() =~= t.skip(j + 1));
    }
}

/// A star that matches from some place on matches from an earlier one too.
proof fn star_from_earlier(p: Seq<char>, t: Seq<char>, i: int, j: int, k: int)
    requires
        0 <= i < p.len(),
        p[i] == '*',
        0 <= j <= k <= t.len(),
        rest(p, t, i, k),
    ensures
        rest(p, t, i, j),
    decreases k - j,
{
    if j < k {
        rest_step(p, t, i, k - 1);
        star_from_earlier(p, t, i, j, k - 1);
    }
}

/// No star in `p` from `i` on for `m` characters.
spec fn plain(p: Seq<char>, i: int, m: int) -> bool {
    forall|x: int| i <= x < i + m ==> p[x] != '*'
}

/// A stretch without a star takes as many characters as it has.
proof fn plain_stretch(p: Seq<char>, t: Seq<char>, i: int, j: int, m: int)
    requires
        0 <= i,
        0 <= m,
        i + m <= p.len(),
        0 <= j <= t.len(),
        plain(p, i, m),
        rest(p, t, i, j),
    ensures
        j + m <= t.len(),
        rest(p, t, i + m, j + m),
    decreases m,
{
    if m > 0 {
        rest_step(p, t, i, j);
        plain_stretch(p, t, i + 1, j + 1, m - 1);
    }
}

/// Where a star at `s` matches from `k` on, some place from there on matches what follows it.
proof fn star_has_a_place(p: Seq<char>, t: Seq<char>, s: int, k: int) -> (r: int)
    requires
        0 <= s < p.len(),
        p[s] == '*',
        0 <= k <= t.len(),
        rest(p, t, s, k),
    ensures
        k <= r <= t.len(),
        rest(p, t, s + 1, r),
    decreases t.len() - k,
{
    rest_step(p, t, s, k);
    if rest(p, t, s + 1, k) {
        k
    } else {
        star_has_a_place(p, t, s, k + 1)
    }
}

/// What is left of a pattern matches nothing where, and only where, it is stars.
proof fn only_stars_match_nothing(p: Seq<char>, t: Seq<char>, i: int)
    requires
        0 <= i <= p.len(),
    ensures
        rest(p, t, i, t.len() as int) <==> (forall|x: int| i <= x < p.len() ==> p[x] == '*'),
    decreases p.len() - i,
{
    if i < p.len() {
        rest_step(p, t, i, t.len() as int);
        only_stars_match_nothing(p, t, i + 1);
    } else {
        assert(p.skip(i) =~= Seq::<char>::empty());
        assert(t.skip(t.len() as int) =~= Seq::<char>::empty());
    }
}

/// Whether a text matches a pattern.
pub fn wildcard_match(pattern: &str, text: &str) -> (r: bool)
    ensures
        r == glob(pattern@, text@),
{
    let p: Vec<char> = chars_of(pattern);
    let t: Vec<char> = chars_of(text);
    let ghost ps = p@;
    let ghost ts = t@;
    let mut pi: usize = 0;
    let mut ti: usize = 0;
    // The last star, and the place that it is matched up to.
    let mut star: Option<usize> = None;
    let mut star_ti: usize = 0;
    assert(ps.skip(0) =~= ps);
    assert(ts.skip(0) =~= ts);
    while ti < t.len()
        invariant
            ps == p@,
            ts == t@,
            ps == pattern@,
            ts == text@,
            pi <= ps.len(),
            ti <= ts.len(),
            match star {
                None => star_ti == 0 && glob(ps, ts) == rest(ps, ts, pi as int, ti as int),
                Some(s) => {
                    &&& s < pi
                    &&& ps[s as int] == '*'
                    &&& star_ti <= ti
                    &&& ti - star_ti == pi - (s + 1)
                    &&& plain(ps, s + 1, pi - (s + 1))
                    &&& glob(ps, ts) == rest(ps, ts, s as int, star_ti as int)
                    &&& rest(ps, ts, s + 1, star_ti as int) == rest(
                        ps,
                        ts,
                        pi as int,
                        ti as int,
                    )
                },
            },
        decreases
                match star {
                    None => ps.len() + 1,
                    Some(s) => (ps.len() - s) as nat,
                },
                ts.len() - star_ti,
                ts.len() - ti,
    {
        proof {
            if pi < ps.len() {
                rest_step(ps, ts, pi as int, ti as int);
            } else {
                assert(ps.skip(pi as int) =~= Seq::<char>::empty());
                assert(!rest(ps, ts, pi as int, ti as int));
            }
        }
        if pi < p.len() && p[pi] == '*' {
            proof {
                if let Some(s) = star {
                    if rest(ps, ts, s as int, star_ti as int) {
                        let k = star_has_a_place(ps, ts, s as int, star_ti as int);
                        plain_stretch(ps, ts, s + 1, k, pi - (s + 1));
                        star_from_earlier(
                            ps,
                            ts,
                            pi as int,
                            ti as int,
                            k + (pi - (s + 1)),
                        );
                    } else {
                        rest_step(ps, ts, s as int, star_ti as int);
                    }
                }
            }
            star = Some(pi);
            star_ti = ti;
            pi = pi + 1;
        } else if pi < p.len() && (p[pi] == '?' || p[pi] == t[ti]) {
            pi = pi + 1;
            ti = ti + 1;
        } else {
            match star {
                Some(s) => {
                    proof {
                        rest_step(ps, ts, s as int, star_ti as int);
                    }
                    // The last star takes one character more.
                    pi = s + 1;
                    star_ti = star_ti + 1;
                    ti = star_ti;
                },
                None => {
                    return false;
                },
            }
        }
    }
    let mut i: usize = pi;
    let mut stars: bool = true;
    while i < p.len() && stars
        invariant
            pi <= i <= ps.len(),
            ps == p@,
            stars ==> forall|x: int| pi <= x < i ==> ps[x] == '*',
            !stars ==> exists|x: int| pi <= x < ps.len() && ps[x] != '*',
        decreases ps.len() - i,
    {
        if p[i] != '*' {
            stars = false;
            assert(ps[i as int] != '*');
        }
        i = i + 1;
    }
    proof {
        only_stars_match_nothing(ps, ts, pi as int);
        if let Some(s) = star {
            rest_step(ps, ts, s as int, star_ti as int);
            if rest(ps, ts, s as int, star_ti as int) {
                let k = star_has_a_place(ps, ts, s as int, star_ti as int);
                plain_stretch(ps, ts, s + 1, k, pi - (s + 1));
            }
        }
    }
    stars
}

proof fn star_matches_all(t: Seq<char>)
    ensures
        glob(seq!['*'], t),
    decreases t.len(),
{
    let star = seq!['*'];
    assert(star.drop_first() =~= Seq::<char>::empty());
    assert(glob(star.drop_first(), t) == (t.len() == 0));
    if t.len() > 0 {
        star_matches_all(t.drop_first());
    }
}

/// A star alone matches every text, and a pattern without stars and question marks itself alone.
pub proof fn patterns_match_as_they_read(p: Seq<char>, t: Seq<char>)
    ensures
        glob(seq!['*'], t),
        !pattern_text(p) ==> (glob(p, t) <==> p == t),
    decreases p.len() + t.len(),
{
    star_matches_all(t);
    if !pattern_text(p) {
        if p.len() > 0 && t.len() > 0 {
            let q = p.drop_first();
            assert(!pattern_text(q)) by {
                if q.contains('*') {
                    let i = choose|i: int| 0 <= i < q.len() && q[i] == '*';
                    assert(p[i + 1] == '*');
                }
                if q.contains('?') {
                    let i = choose|i: int| 0 <= i < q.len() && q[i] == '?';
                    assert(p[i + 1] == '?');
                }
            }
            assert(p[0] != '*' && p[0] != '?') by {
                if p[0] == '*' {
                    assert(p.contains('*'));
                }
                if p[0] == '?' {
                    assert(p.contains('?'));
                }
            }
            patterns_match_as_they_read(q, t.drop_first());
            if p[0] == t[0] && q == t.drop_first() {
                assert(p =~= seq![p[0]] + q);
                assert(t =~= seq![t[0]] + t.drop_first());
            }
        } else if p.len() > 0 {
            assert(p[0] != '*') by {
                if p[0] == '*' {
                    assert(p.contains('*'));
                }
            }
        } else {
            assert(t.len() == 0 ==> p =~= t);
        }
    }
}

/// A text that is a pattern.
pub open spec fn pattern_text(s: Seq<char>) -> bool {
    s.contains('*') || s.contains('?')
}

/// Whether a text is a pattern.
pub fn is_pattern(s: &str) -> (r: bool)
    ensures
        r == pattern_text(s@),
{
    let c: Vec<char> = chars_of(s);
    let mut i: usize = 0;
    while i < c.len()
        invariant
            i <= c@.len(),
            c@ == s@,
            forall|k: int| 0 <= k < i ==> c@[k] != '*' && c@[k] != '?',
        decreases c@.len() - i,
    {
        if c[i] == '*' || c[i] == '?' {
            assert(s@[i as int] == '*' || s@[i as int] == '?');
            return true;
        }
        i = i + 1;
    }
    false
}

/// Where the readings of a run go.
#[derive(Clone, Copy, Debug, PartialEq, Eq, Structural)]
pub enum Output {
    /// To the broker.
    Mqtt,
    /// To the standard output, each on a line.
    Stdout,
}

/// What a run is asked for.
#[derive(Debug, PartialEq)]
pub struct RunArgs {
    pub configs: Vec<String>,
    pub config: Vec<String>,
    pub output: Output,
    pub duration: Option<Duration>,
}

/// The paths that a run is asked for: those without a flag before those with one; the default
/// where there are none.
pub open spec fn run_paths(configs: Seq<Seq<char>>, config: Seq<Seq<char>>) -> Seq<Seq<char>> {
    if configs.len() + config.len() == 0 {
        seq!["/etc/tedge/plugins/ot"@]
    } else {
        configs + config
    }
}

fn append_copies(out: &mut Vec<String>, v: &Vec<String>)
    ensures
        texts(final(out)@) == texts(old(out)@) + texts(v@),
{
    let ghost before = texts(out@);
    let ghost all = texts(v@);
    let mut i: usize = 0;
    assert(before + all.take(0) =~= before);
    while i < v.len()
        invariant
            i <= v@.len(),
            all == texts(v@),
            texts(out@) == before + all.take(i as int),
        decreases v@.len() - i,
    {
        let ghost was = texts(out@);
        let s: String = v[i].clone();
        out.push(s);
        assert(texts(out@) =~= was.push(s@));
        assert(was.push(s@) =~= before + all.take(i + 1));
        i = i + 1;
    }
    assert(all.take(all.len() as int) =~= all);
}

/// The paths that a run is asked for.
pub fn combined_config_args(args: &RunArgs) -> (r: Vec<String>)
    ensures
        texts(r@) == run_paths(texts(args.configs@), texts(args.config@)),
{
    let mut out: Vec<String> = Vec::new();
    assert(texts(out@) =~= Seq::<Seq<char>>::empty());
    append_copies(&mut out, &args.configs);
    append_copies(&mut out, &args.config);
    assert(texts(out@) =~= texts(args.configs@) + texts(args.config@));
    assert(texts(out@).len() == out@.len());
    if out.len() == 0 {
        out.push(DEFAULT_CONFIG_DIR.to_owned());
        assert(texts(out@) =~= seq!["/etc/tedge/plugins/ot"@]);
    }
    out
}

/// Whether a first argument names a command or is a flag.
pub open spec fn names_command(a: Seq<char>) -> bool {
    a == "run"@ || a == "read"@ || a == "write"@ || a == "help"@ || (a.len() > 0 && a[0] == '-')
}

/// The arguments of a call, the first of which is the program: with `run` where no command is
/// named.
pub open spec fn full_args(args: Seq<Seq<char>>) -> Seq<Seq<char>> {
    if args.len() > 1 && names_command(args[1]) {
        args
    } else if args.len() == 0 {
        args
    } else {
        args.insert(1, "run"@)
    }
}

/// The arguments of a call, with `run` where no command is named.
pub fn normalized_args(args: Vec<String>) -> (r: Vec<String>)
    ensures
        texts(r@) == full_args(texts(args@)),
{
    let mut out: Vec<String> = args;
    let ghost before = texts(out@);
    if out.len() == 0 {
        return out;
    }
    let named: bool = if out.len() > 1 {
        let a: &str = out[1].as_str();
        proof {
            reveal_strlit("-");
            assert(before[1] == a@);
            if a@.len() > 0 && a@[0] == '-' {
                assert(a@.take(1) =~= "-"@);
            }
        }
        let flag: bool = crate::text::strip_prefix(a, "-").is_some();
        assert(flag ==> a@.take(1)[0] == '-');
        same_text(a, "run") || same_text(a, "read") || same_text(a, "write") || same_text(a, "help")
            || flag
    } else {
        false
    };
    if !named {
        out.insert(1, "run".to_owned());
        assert(texts(out@) =~= before.insert(1, "run"@));
    }
    out
}

/// What is said of a text that is no duration.
pub open spec fn bad_duration(s: Seq<char>) -> Seq<char> {
    "invalid duration '"@ + s + "' (expected e.g. \"500ms\", \"10s\", \"5m\", \"1h\")"@
}

/// The duration that an argument spells.
pub fn parse_cli_duration(s: &str) -> (r: Result<Duration, String>)
    ensures
        match r {
            Ok(d) => duration_text(s@) == Some(nanos(d)),
            Err(e) => duration_text(s@) is None && e@ == bad_duration(s@),
        },
{
    match parse_duration(s) {
        Some(d) => Ok(d),
        None => Err(
            concat3(
                "invalid duration '",
                s,
                "' (expected e.g. \"500ms\", \"10s\", \"5m\", \"1h\")",
            ),
        ),
    }
}

/// What a path of the command line is.
#[derive(Debug, PartialEq)]
pub enum Found {
    /// A directory, with the names of its files.
    Directory { files: Vec<String> },
    File,
    Missing,
}

/// The name of a configuration: one that ends in `.toml`, behind something.
pub open spec fn is_config_name(name: Seq<char>) -> bool {
    match stripped_suffix(name, ".toml"@) {
        Some(stem) => stem.len() > 0,
        None => false,
    }
}

/// The configurations among the names of a directory.
pub open spec fn config_names(files: Seq<Seq<char>>) -> Seq<Seq<char>>
    decreases files.len(),
{
    if files.len() == 0 {
        Seq::empty()
    } else {
        let head = config_names(files.drop_last());
        if is_config_name(files.last()) {
            head.push(files.last())
        } else {
            head
        }
    }
}

/// The path of a file of a directory.
pub open spec fn path_in(directory: Seq<char>, file: Seq<char>) -> Seq<char> {
    if directory.len() > 0 && directory.last() == '/' {
        directory + file
    } else {
        directory + "/"@ + file
    }
}

/// The configurations of the first `n` paths, or the first path that is not there.
pub open spec fn discovered(args: Seq<(String, Found)>, n: int) -> Result<
    Seq<Seq<char>>,
    Seq<char>,
>
    decreases n,
{
    if n <= 0 {
        Ok(Seq::empty())
    } else {
        match discovered(args, n - 1) {
            Err(e) => Err(e),
            Ok(head) => {
                let path = args[n - 1].0@;
                match args[n - 1].1 {
                    Found::Directory { files } => Ok(
                        head + set_of(config_names(texts(files@))).map_values(
                            |f: Seq<char>| path_in(path, f),
                        ),
                    ),
                    Found::File => Ok(head.push(path)),
                    Found::Missing => Err("config path '"@ + path + "' does not exist"@),
                }
            },
        }
    }
}

/// The components of a path, by the parts between its slashes: an empty part is none, nor is a
/// dot, but at the very beginning.
pub open spec fn components(parts: Seq<Seq<char>>) -> Seq<Seq<char>>
    decreases parts.len(),
{
    if parts.len() == 0 {
        Seq::empty()
    } else {
        let head = components(parts.drop_last());
        let part = parts.last();
        if part.len() == 0 || (part == "."@ && parts.len() > 1) {
            head
        } else {
            head.push(part)
        }
    }
}

/// A path that begins at the root.
pub open spec fn rooted(path: Seq<char>) -> bool {
    path.len() > 0 && path[0] == '/'
}

/// Two ways to write one path.
pub open spec fn same_path(a: Seq<char>, b: Seq<char>) -> bool {
    rooted(a) == rooted(b) && components(split_parts(a, '/')) == components(split_parts(b, '/'))
}

/// The paths with `x` at the end, unless it is among them, written in whatever way.
pub open spec fn with_path(s: Seq<Seq<char>>, x: Seq<char>) -> Seq<Seq<char>> {
    if exists|i: int| 0 <= i < s.len() && same_path(#[trigger] s[i], x) {
        s
    } else {
        s.push(x)
    }
}

/// Paths, each where it occurs first.
pub open spec fn first_occurrences(s: Seq<Seq<char>>) -> Seq<Seq<char>>
    decreases s.len(),
{
    if s.len() == 0 {
        Seq::empty()
    } else {
        with_path(first_occurrences(s.drop_last()), s.last())
    }
}

/// No two of the paths are the same, and each path that was found is among them.
pub proof fn each_path_is_taken_once(s: Seq<Seq<char>>)
    ensures
        forall|i: int, j: int|
            0 <= i < j < first_occurrences(s).len() ==> !same_path(
                #[trigger] first_occurrences(s)[i],
                #[trigger] first_occurrences(s)[j],
            ),
        forall|k: int|
            0 <= k < s.len() ==> exists|i: int|
                0 <= i < first_occurrences(s).len() && same_path(
                    #[trigger] first_occurrences(s)[i],
                    #[trigger] s[k],
                ),
    decreases s.len(),
{
    if s.len() > 0 {
        let rest = s.drop_last();
        let before = first_occurrences(rest);
        let all = first_occurrences(s);
        each_path_is_taken_once(rest);
        assert forall|k: int| 0 <= k < s.len() implies exists|i: int|
            0 <= i < all.len() && same_path(#[trigger] all[i], #[trigger] s[k]) by {
            if k < rest.len() {
                assert(rest[k] == s[k]);
                let i = choose|i: int| 0 <= i < before.len() && same_path(
                    #[trigger] before[i],
                    rest[k],
                );
                assert(all[i] == before[i]);
            } else if all.len() > before.len() {
                assert(all[before.len() as int] == s[k]);
            }
        }
    }
}

fn path_components(path: &str) -> (r: Vec<String>)
    ensures
        texts(r@) == components(split_parts(path@, '/')),
{
    let parts: Vec<String> = split(path, '/');
    let ghost all = texts(parts@);
    let mut out: Vec<String> = Vec::new();
    let mut i: usize = 0;
    assert(all.take(0) =~= Seq::<Seq<char>>::empty());
    assert(texts(out@) =~= Seq::<Seq<char>>::empty());
    while i < parts.len()
        invariant
            i <= parts@.len(),
            all == texts(parts@),
            texts(out@) == components(all.take(i as int)),
        decreases parts@.len() - i,
    {
        assert(all.take(i + 1).drop_last() =~= all.take(i as int));
        assert(all.take(i + 1).last() == parts@[i as int]@);
        let part: &str = parts[i].as_str();
        if !(part.is_empty() || (same_text(part, ".") && i > 0)) {
            let ghost was = texts(out@);
            let s: String = part.to_owned();
            out.push(s);
            assert(texts(out@) =~= was.push(s@));
        }
        i = i + 1;
    }
    assert(all.take(all.len() as int) =~= all);
    out
}

fn is_rooted(path: &str) -> (r: bool)
    ensures
        r == rooted(path@),
{
    let c: Vec<char> = chars_of(path);
    c.len() > 0 && c[0] == '/'
}

fn is_same_path(a: &str, b: &str) -> (r: bool)
    ensures
        r == same_path(a@, b@),
{
    let x: Vec<String> = path_components(a);
    let y: Vec<String> = path_components(b);
    let ghost xs = texts(x@);
    let ghost ys = texts(y@);
    if is_rooted(a) != is_rooted(b) || x.len() != y.len() {
        assert(xs.len() != ys.len() ==> xs != ys);
        return false;
    }
    let mut i: usize = 0;
    while i < x.len()
        invariant
            i <= x@.len() == y@.len(),
            xs == texts(x@),
            ys == texts(y@),
            xs == components(split_parts(a@, '/')),
            ys == components(split_parts(b@, '/')),
            forall|k: int| 0 <= k < i ==> xs[k] == ys[k],
        decreases x@.len() - i,
    {
        assert(xs[i as int] == x@[i as int]@ && ys[i as int] == y@[i as int]@);
        if !same_text(x[i].as_str(), y[i].as_str()) {
            assert(xs != ys);
            return false;
        }
        i = i + 1;
    }
    assert(xs =~= ys);
    true
}

fn push_path(v: &mut Vec<String>, x: &str)
    ensures
        texts(final(v)@) == with_path(texts(old(v)@), x@),
{
    let ghost all = texts(v@);
    let mut i: usize = 0;
    while i < v.len()
        invariant
            i <= v@.len(),
            *v == *old(v),
            all == texts(v@),
            forall|k: int| 0 <= k < i ==> !same_path(#[trigger] all[k], x@),
        decreases v@.len() - i,
    {
        assert(all[i as int] == v@[i as int]@);
        if is_same_path(v[i].as_str(), x) {
            return;
        }
        i = i + 1;
    }
    v.push(x.to_owned());
    assert(texts(v@) =~= all.push(x@));
}

fn keep_config_names(files: &Vec<String>) -> (r: Vec<String>)
    ensures
        texts(r@) == config_names(texts(files@)),
{
    let ghost all = texts(files@);
    let mut out: Vec<String> = Vec::new();
    let mut i: usize = 0;
    assert(all.take(0) =~= Seq::<Seq<char>>::empty());
    assert(texts(out@) =~= Seq::<Seq<char>>::empty());
    while i < files.len()
        invariant
            i <= files@.len(),
            all == texts(files@),
            texts(out@) == config_names(all.take(i as int)),
        decreases files@.len() - i,
    {
        assert(all.take(i + 1).drop_last() =~= all.take(i as int));
        assert(all.take(i + 1).last() == files@[i as int]@);
        let named: bool = match strip_suffix(files[i].as_str(), ".toml") {
            Some(stem) => !stem.is_empty(),
            None => false,
        };
        if named {
            let ghost was = texts(out@);
            let s: String = files[i].clone();
            out.push(s);
            assert(texts(out@) =~= was.push(s@));
        }
        i = i + 1;
    }
    assert(all.take(all.len() as int) =~= all);
    out
}

fn join_path(directory: &str, file: &str) -> (r: String)
    ensures
        r@ == path_in(directory@, file@),
{
    proof {
        reveal_strlit("/");
        if directory@.len() > 0 && directory@.last() == '/' {
            assert(directory@.skip(directory@.len() - 1) =~= "/"@);
        }
    }
    match strip_suffix(directory, "/") {
        Some(_) => {
            assert(directory@.skip(directory@.len() - 1)[0] == '/');
            concat2(directory, file)
        },
        None => concat3(directory, "/", file),
    }
}

proof fn missing_stays_missing(args: Seq<(String, Found)>, n: int, m: int)
    requires
        0 <= n <= m,
        discovered(args, n) is Err,
    ensures
        discovered(args, m) == discovered(args, n),
    decreases m,
{
    if n < m {
        missing_stays_missing(args, n, m - 1);
    }
}

/// The configurations that paths lead to, each once: the files as they are, the directories by
/// their configurations in order.
pub open spec fn all_configs(args: Seq<(String, Found)>) -> Result<Seq<Seq<char>>, Seq<char>> {
    match discovered(args, args.len() as int) {
        Ok(found) => Ok(first_occurrences(found)),
        Err(e) => Err(e),
    }
}

/// What a result holds.
pub open spec fn paths_result(r: Result<Vec<String>, String>) -> Result<Seq<Seq<char>>, Seq<char>> {
    match r {
        Ok(v) => Ok(texts(v@)),
        Err(e) => Err(e@),
    }
}

fn add_files(out: &mut Vec<String>, directory: &str, files: &Vec<String>)
    ensures
        texts(final(out)@) == texts(old(out)@) + set_of(config_names(texts(files@))).map_values(
            |f: Seq<char>| path_in(directory@, f),
        ),
{
    let names: Vec<String> = sorted_set(&keep_config_names(files));
    let ghost before = texts(out@);
    let ghost paths = texts(names@).map_values(|f: Seq<char>| path_in(directory@, f));
    let mut i: usize = 0;
    assert(before + paths.take(0) =~= before);
    while i < names.len()
        invariant
            i <= names@.len(),
            paths == texts(names@).map_values(|f: Seq<char>| path_in(directory@, f)),
            texts(out@) == before + paths.take(i as int),
        decreases names@.len() - i,
    {
        let ghost was = texts(out@);
        let s: String = join_path(directory, names[i].as_str());
        assert(paths[i as int] == s@) by {
            assert(texts(names@)[i as int] == names@[i as int]@);
        }
        out.push(s);
        assert(texts(out@) =~= was.push(s@));
        assert(was.push(s@) =~= before + paths.take(i + 1));
        i = i + 1;
    }
    assert(paths.take(paths.len() as int) =~= paths);
}

fn dedup(v: &Vec<String>) -> (r: Vec<String>)
    ensures
        texts(r@) == first_occurrences(texts(v@)),
{
    let ghost all = texts(v@);
    let mut out: Vec<String> = Vec::new();
    let mut i: usize = 0;
    assert(all.take(0) =~= Seq::<Seq<char>>::empty());
    assert(texts(out@) =~= Seq::<Seq<char>>::empty());
    while i < v.len()
        invariant
            i <= v@.len(),
            all == texts(v@),
            texts(out@) == first_occurrences(all.take(i as int)),
        decreases v@.len() - i,
    {
        assert(all.take(i + 1).drop_last() =~= all.take(i as int));
        assert(all.take(i + 1).last() == v@[i as int]@);
        push_path(&mut out, v[i].as_str());
        i = i + 1;
    }
    assert(all.take(all.len() as int) =~= all);
    out
}

/// The configurations that paths lead to, or the first path that is not there.
pub fn discover_configs(args: &Vec<(String, Found)>) -> (r: Result<Vec<String>, String>)
    ensures
        paths_result(r) == all_configs(args@),
{
    let mut found: Vec<String> = Vec::new();
    let mut i: usize = 0;
    assert(texts(found@) =~= Seq::<Seq<char>>::empty());
    while i < args.len()
        invariant
            i <= args@.len(),
            discovered(args@, i as int) == Ok::<Seq<Seq<char>>, Seq<char>>(texts(found@)),
        decreases args@.len() - i,
    {
        match &args[i].1 {
            Found::Directory { files } => {
                add_files(&mut found, args[i].0.as_str(), files);
            },
            Found::File => {
                let ghost was = texts(found@);
                let s: String = args[i].0.clone();
                found.push(s);
                assert(texts(found@) =~= was.push(s@));
            },
            Found::Missing => {
                proof {
                    missing_stays_missing(args@, i + 1, args@.len() as int);
                }
                return Err(concat3("config path '", args[i].0.as_str(), "' does not exist"));
            },
        }
        i = i + 1;
    }
    Ok(dedup(&found))
}

/// How much a log level says.
pub open spec fn verbosity(level: Seq<char>) -> int {
    if level == "trace"@ {
        4
    } else if level == "debug"@ {
        3
    } else if level == "info"@ {
        2
    } else if level == "warn"@ {
        1
    } else if level == "error"@ {
        0
    } else {
        2
    }
}

/// The log level that says most, the last of several.
pub open spec fn loudest(levels: Seq<Seq<char>>) -> Seq<char>
    decreases levels.len(),
{
    if levels.len() == 0 {
        "info"@
    } else if levels.len() == 1 {
        levels[0]
    } else {
        let head = loudest(levels.drop_last());
        if verbosity(levels.last()) >= verbosity(head) {
            levels.last()
        } else {
            head
        }
    }
}

fn verbosity_of(level: &str) -> (r: u8)
    ensures
        r == verbosity(level@),
{
    if same_text(level, "trace") {
        4
    } else if same_text(level, "debug") {
        3
    } else if same_text(level, "info") {
        2
    } else if same_text(level, "warn") {
        1
    } else if same_text(level, "error") {
        0
    } else {
        2
    }
}

/// The log level that says most of those of the configurations.
pub fn pick_log_level(levels: &Vec<String>) -> (r: String)
    ensures
        r@ == loudest(texts(levels@)),
{
    let ghost all = texts(levels@);
    if levels.len() == 0 {
        return "info".to_owned();
    }
    let mut best: String = levels[0].clone();
    let mut i: usize = 1;
    assert(all.take(1)[0] == levels@[0]@);
    while i < levels.len()
        invariant
            1 <= i <= levels@.len(),
            all == texts(levels@),
            best@ == loudest(all.take(i as int)),
        decreases levels@.len() - i,
    {
        assert(all.take(i + 1).drop_last() =~= all.take(i as int));
        assert(all.take(i + 1).last() == levels@[i as int]@);
        if verbosity_of(levels[i].as_str()) >= verbosity_of(best.as_str()) {
            best = levels[i].clone();
        }
        i = i + 1;
    }
    assert(all.take(all.len() as int) =~= all);
    best
}

/// Nothing is said below the level that was picked by any configuration that says so.
pub proof fn no_level_is_louder(levels: Seq<Seq<char>>, i: int)
    requires
        0 <= i < levels.len(),
    ensures
        verbosity(levels[i]) <= verbosity(loudest(levels)),
    decreases levels.len(),
{
    if levels.len() > 1 && i < levels.len() - 1 {
        assert(levels.drop_last()[i] == levels[i]);
        no_level_is_louder(levels.drop_last(), i);
    }
}

/// The paths of the configurations whose service has that name.
pub open spec fn paths_of_service(found: Seq<(String, String)>, service: Seq<char>) -> Seq<Seq<char>>
    decreases found.len(),
{
    if found.len() == 0 {
        Seq::empty()
    } else {
        let head = paths_of_service(found.drop_last(), service);
        if found.last().0@ == service {
            head.push(found.last().1@)
        } else {
            head
        }
    }
}

/// That configurations share a service name.
pub open spec fn shared_service(service: Seq<char>, paths: Seq<Seq<char>>) -> Seq<char> {
    "configs "@ + joined(paths, ", "@) + " share service_name '"@ + service
        + "'; give each connector a unique service_name or they will steal each other's MQTT session"@
}

/// The service names, each once.
pub open spec fn services_of(found: Seq<(String, String)>) -> Seq<Seq<char>> {
    set_of(found.map_values(|f: (String, String)| f.0@))
}

/// The warnings of the first `n` services.
pub open spec fn service_warnings(
    found: Seq<(String, String)>,
    services: Seq<Seq<char>>,
    n: int,
) -> Seq<Seq<char>>
    decreases n,
{
    if n <= 0 {
        Seq::empty()
    } else {
        let head = service_warnings(found, services, n - 1);
        let paths = paths_of_service(found, services[n - 1]);
        if paths.len() > 1 {
            head.push(shared_service(services[n - 1], paths))
        } else {
            head
        }
    }
}

fn service_paths(found: &Vec<(String, String)>, service: &str) -> (r: Vec<String>)
    ensures
        texts(r@) == paths_of_service(found@, service@),
{
    let mut out: Vec<String> = Vec::new();
    let mut i: usize = 0;
    assert(found@.take(0) =~= Seq::<(String, String)>::empty());
    assert(texts(out@) =~= Seq::<Seq<char>>::empty());
    while i < found.len()
        invariant
            i <= found@.len(),
            texts(out@) == paths_of_service(found@.take(i as int), service@),
        decreases found@.len() - i,
    {
        assert(found@.take(i + 1).drop_last() =~= found@.take(i as int));
        assert(found@.take(i + 1).last() == found@[i as int]);
        if same_text(found[i].0.as_str(), service) {
            let ghost was = texts(out@);
            let s: String = found[i].1.clone();
            out.push(s);
            assert(texts(out@) =~= was.push(s@));
        }
        i = i + 1;
    }
    assert(found@.take(found@.len() as int) =~= found@);
    out
}

/// The warnings that configurations, each by its service and its path, share a service name: they
/// would take each other's session with the broker.
pub fn warn_duplicate_service_names(found: &Vec<(String, String)>) -> (r: Vec<String>)
    ensures
        texts(r@) == service_warnings(
            found@,
            services_of(found@),
            services_of(found@).len() as int,
        ),
{
    let mut names: Vec<String> = Vec::new();
    let mut i: usize = 0;
    while i < found.len()
        invariant
            i <= found@.len(),
            names@.len() == i,
            forall|k: int| 0 <= k < i ==> (#[trigger] names@[k])@ == found@[k].0@,
        decreases found@.len() - i,
    {
        names.push(found[i].0.clone());
        i = i + 1;
    }
    assert(texts(names@) =~= found@.map_values(|f: (String, String)| f.0@));
    let services: Vec<String> = sorted_set(&names);
    let ghost all = texts(services@);
    let mut out: Vec<String> = Vec::new();
    let mut k: usize = 0;
    assert(texts(out@) =~= Seq::<Seq<char>>::empty());
    while k < services.len()
        invariant
            k <= services@.len(),
            all == texts(services@),
            texts(out@) == service_warnings(found@, all, k as int),
        decreases services@.len() - k,
    {
        assert(all[k as int] == services@[k as int]@);
        let paths: Vec<String> = service_paths(found, services[k].as_str());
        assert(texts(paths@).len() == paths@.len());
        if paths.len() > 1 {
            let list: String = join(&paths, ", ");
            let mut w: String = concat3("configs ", list.as_str(), " share service_name '");
            w.append(services[k].as_str());
            w.append(
                "'; give each connector a unique service_name or they will steal each other's MQTT session",
            );
            let ghost was = texts(out@);
            out.push(w);
            assert(texts(out@) =~= was.push(w@));
        }
        k = k + 1;
    }
    out
}

/// How long a connector that failed waits, in nanoseconds, by a setting.
pub open spec fn restart_nanos(setting: Option<Seq<char>>) -> nat {
    match setting {
        Some(s) => match unsigned_text(s) {
            Some(n) => (n * 1_000_000_000) as nat,
            None => 5_000_000_000,
        },
        None => 5_000_000_000,
    }
}

/// How long a connector that failed waits, by a setting in seconds.
pub fn restart_delay(setting: Option<&str>) -> (r: Duration)
    ensures
        nanos(r) == restart_nanos(str_of(setting)),
{
    match setting {
        Some(s) => match parse_unsigned(s) {
            Some(n) => Duration::from_secs(n),
            None => Duration::from_secs(DEFAULT_RESTART_DELAY_SECS),
        },
        None => Duration::from_secs(DEFAULT_RESTART_DELAY_SECS),
    }
}

/// What follows an attempt to run a connector.
#[derive(Debug, PartialEq)]
pub enum Supervision {
    Stop,
    /// It is tried again after a while; what is logged of it.
    Restart { log: String },
}

/// What follows an attempt to run a connector: it ended well or the process is to stop, or it is
/// tried again.
pub fn after_attempt(stopping: bool, attempt: Result<(), String>, delay: Duration) -> (r:
    Supervision)
    ensures
        match attempt {
            Err(e) => if stopping {
                r is Stop
            } else {
                r matches Supervision::Restart { log } && log@ == "connector failed: "@ + e@
                    + "; restarting in "@ + decimal_text(nanos(delay) / 1_000_000_000) + "s"@
            },
            Ok(_) => r is Stop,
        },
{
    match attempt {
        Ok(_) => Supervision::Stop,
        Err(e) => {
            if stopping {
                return Supervision::Stop;
            }
            let mut log: String = concat3("connector failed: ", e.as_str(), "; restarting in ");
            push_decimal(&mut log, delay.as_secs());
            log.append("s");
            Supervision::Restart { log }
        },
    }
}

/// Whether a text falls into a beginning that matches one pattern and a rest that matches another.
pub open spec fn matches_in_turn(p: Seq<char>, q: Seq<char>, t: Seq<char>) -> bool {
    exists|k: int| 0 <= k <= t.len() && glob(p, #[trigger] t.take(k)) && glob(q, t.skip(k))
}

proof fn joined_matches_in_turn(p: Seq<char>, q: Seq<char>, t: Seq<char>) -> (k: int)
    requires
        glob(p + q, t),
    ensures
        0 <= k <= t.len(),
        glob(p, t.take(k)),
        glob(q, t.skip(k)),
    decreases p.len() + t.len(),
{
    if p.len() == 0 {
        assert(p + q =~= q);
        assert(t.skip(0) =~= t);
        0
    } else {
        let rest = p.drop_first();
        assert((p + q).drop_first() =~= rest + q);
        if p[0] == '*' {
            if glob(rest + q, t) {
                joined_matches_in_turn(rest, q, t)
            } else {
                let k = joined_matches_in_turn(p, q, t.drop_first());
                assert(t.take(k + 1).drop_first() =~= t.drop_first().take(k));
                assert(t.skip(k + 1) =~= t.drop_first().skip(k));
                k + 1
            }
        } else {
            let k = joined_matches_in_turn(rest, q, t.drop_first());
            assert(t.take(k + 1).drop_first() =~= t.drop_first().take(k));
            assert(t.skip(k + 1) =~= t.drop_first().skip(k));
            k + 1
        }
    }
}

proof fn in_turn_matches_joined(p: Seq<char>, q: Seq<char>, t: Seq<char>, k: int)
    requires
        0 <= k <= t.len(),
        glob(p, t.take(k)),
        glob(q, t.skip(k)),
    ensures
        glob(p + q, t),
    decreases p.len() + t.len(),
{
    if p.len() == 0 {
        assert(p + q =~= q);
        assert(t.skip(0) =~= t);
    } else {
        let rest = p.drop_first();
        assert((p + q).drop_first() =~= rest + q);
        if p[0] == '*' && glob(rest, t.take(k)) {
            in_turn_matches_joined(rest, q, t, k);
        } else {
            assert(k > 0);
            assert(t.take(k).drop_first() =~= t.drop_first().take(k - 1));
            assert(t.skip(k) =~= t.drop_first().skip(k - 1));
            if p[0] == '*' {
                in_turn_matches_joined(p, q, t.drop_first(), k - 1);
            } else {
                in_turn_matches_joined(rest, q, t.drop_first(), k - 1);
            }
        }
    }
}

/// A pattern matches a text where its parts match the text in turn; a star matches any text, a
/// question mark any one character, and every other character itself.
pub proof fn patterns_match_part_by_part(p: Seq<char>, q: Seq<char>, t: Seq<char>, c: char)
    ensures
        glob(p + q, t) <==> matches_in_turn(p, q, t),
        glob(Seq::empty(), t) <==> t.len() == 0,
        glob(seq!['*'], t),
        glob(seq!['?'], t) <==> t.len() == 1,
        c != '*' && c != '?' ==> (glob(seq![c], t) <==> t == seq![c]),
{
    if glob(p + q, t) {
        let k = joined_matches_in_turn(p, q, t);
        assert(glob(p, t.take(k)));
    }
    if matches_in_turn(p, q, t) {
        let k = choose|k: int|
            0 <= k <= t.len() && glob(p, #[trigger] t.take(k)) && glob(q, t.skip(k));
        in_turn_matches_joined(p, q, t, k);
    }
    star_matches_all(t);
    assert(seq!['?'].drop_first() =~= Seq::<char>::empty());
    assert(seq![c].drop_first() =~= Seq::<char>::empty());
    if t.len() > 0 {
        let rest = t.drop_first();
        assert(glob(Seq::empty(), rest) <==> rest.len() == 0);
        if t.len() == 1 && t[0] == c {
            assert(t =~= seq![c]);
        }
    }
}

/// A run is asked for all the paths that are given, and for the default where none is.
pub proof fn every_given_path_is_run(configs: Seq<Seq<char>>, config: Seq<Seq<char>>, i: int)
    ensures
        ({
            let r = run_paths(configs, config);
            &&& 0 <= i < configs.len() ==> r[i] == configs[i]
            &&& 0 <= i < config.len() ==> r[configs.len() + i] == config[i]
            &&& configs.len() + config.len() > 0 ==> r.len() == configs.len() + config.len()
            &&& configs.len() + config.len() == 0 ==> r == seq!["/etc/tedge/plugins/ot"@]
        }),
{
}

/// A call without a command is a run; one with a command is left as it is.
pub proof fn calls_without_a_command_run(args: Seq<Seq<char>>, i: int)
    requires
        args.len() > 0,
    ensures
        ({
            let r = full_args(args);
            &&& r.len() > 1
            &&& r[0] == args[0]
            &&& names_command(r[1])
            &&& args.len() > 1 && names_command(args[1]) ==> r == args
            &&& !(args.len() > 1 && names_command(args[1])) ==> r.len() == args.len() + 1 && r[1]
                == "run"@ && (1 <= i < args.len() ==> r[i + 1] == args[i])
        }),
{
}

/// The configurations among the names of a directory are those that end in `.toml`, behind
/// something.
pub proof fn configurations_are_told_by_their_names(files: Seq<Seq<char>>, name: Seq<char>)
    ensures
        is_config_name(name) <==> name.len() > 5 && name.skip(name.len() - 5) == ".toml"@,
        config_names(files).contains(name) <==> files.contains(name) && is_config_name(name),
    decreases files.len(),
{
    reveal_strlit(".toml");
    assert(".toml"@.len() == 5);
    if files.len() > 0 {
        let before = files.drop_last();
        let head = config_names(before);
        let all = config_names(files);
        configurations_are_told_by_their_names(before, name);
        assert(files[files.len() - 1] == files.last());
        if head.contains(name) {
            let i = choose|i: int| 0 <= i < head.len() && head[i] == name;
            assert(all[i] == name);
        }
        if before.contains(name) {
            let i = choose|i: int| 0 <= i < before.len() && before[i] == name;
            assert(files[i] == name);
        }
        if files.contains(name) && files.last() != name {
            let i = choose|i: int| 0 <= i < files.len() && files[i] == name;
            assert(before[i] == name);
        }
        if files.last() == name && is_config_name(name) {
            assert(all[head.len() as int] == name);
        }
        if all.contains(name) && !head.contains(name) {
            let i = choose|i: int| 0 <= i < all.len() && all[i] == name;
            if i < head.len() {
                assert(head[i] == name);
            }
        }
    }
}

proof fn set_contains(s: Seq<Seq<char>>, x: Seq<char>)
    requires
        s.contains(x),
    ensures
        set_of(s).contains(x),
{
    let f = crate::conformance_claims::gathered(s);
    sets_hold_what_they_are_of(s, x);
    if forall|i: int| 0 <= i < f.len() ==> (#[trigger] f[i]).0 != x {
        crate::keyed::field_nowhere(f, x);
    }
    let i = choose|i: int| 0 <= i < f.len() && (#[trigger] f[i]).0 == x;
    assert(set_of(s)[i] == x);
}

/// Paths that lead nowhere are refused, the first of them by its name.
pub proof fn missing_paths_are_refused(args: Seq<(String, Found)>, n: int, i: int)
    requires
        0 <= i < n <= args.len(),
        args[i].1 is Missing,
        forall|k: int| 0 <= k < i ==> !((#[trigger] args[k]).1 is Missing),
    ensures
        discovered(args, n) == Err::<Seq<Seq<char>>, Seq<char>>(
            "config path '"@ + args[i].0@ + "' does not exist"@,
        ),
{
    present_paths_are_taken(args, i);
    missing_stays_missing(args, i + 1, n);
}

proof fn present_paths_are_taken(args: Seq<(String, Found)>, n: int)
    requires
        0 <= n <= args.len(),
        forall|k: int| 0 <= k < n ==> !((#[trigger] args[k]).1 is Missing),
    ensures
        discovered(args, n) is Ok,
    decreases n,
{
    if n > 0 {
        present_paths_are_taken(args, n - 1);
    }
}

/// Whether a path is one of those found.
pub open spec fn is_found(r: Result<Seq<Seq<char>>, Seq<char>>, path: Seq<char>) -> bool {
    match r {
        Ok(found) => found.contains(path),
        Err(_) => false,
    }
}

/// Where every path leads somewhere, each file is found by its path, and each configuration of a
/// directory by its name in the directory.
pub proof fn files_and_directories_are_found(
    args: Seq<(String, Found)>,
    n: int,
    i: int,
    file: Seq<char>,
)
    requires
        0 <= i < n <= args.len(),
        forall|k: int| 0 <= k < n ==> !((#[trigger] args[k]).1 is Missing),
    ensures
        args[i].1 is File ==> is_found(discovered(args, n), args[i].0@),
        args[i].1 matches Found::Directory { files } ==> (texts(files@).contains(file)
            && is_config_name(file) ==> is_found(discovered(args, n), path_in(args[i].0@, file))),
    decreases n,
{
    present_paths_are_taken(args, n);
    present_paths_are_taken(args, n - 1);
    let head = discovered(args, n - 1)->Ok_0;
    let all = discovered(args, n)->Ok_0;
    let path = args[i].0@;
    if i < n - 1 {
        files_and_directories_are_found(args, n - 1, i, file);
        if head.contains(path) {
            let k = choose|k: int| 0 <= k < head.len() && head[k] == path;
            assert(all[k] == path);
        }
        let inner = path_in(path, file);
        if head.contains(inner) {
            let k = choose|k: int| 0 <= k < head.len() && head[k] == inner;
            assert(all[k] == inner);
        }
    } else {
        match args[i].1 {
            Found::File => {
                assert(all[head.len() as int] == path);
            },
            Found::Directory { files } => {
                configurations_are_told_by_their_names(texts(files@), file);
                let names = config_names(texts(files@));
                if names.contains(file) {
                    set_contains(names, file);
                    let k = choose|k: int| 0 <= k < set_of(names).len() && set_of(names)[k] == file;
                    assert(all[head.len() + k] == path_in(path, file));
                }
            },
            Found::Missing => {},
        }
    }
}

/// The path of a file of a directory is that of the directory with the name of the file.
pub proof fn files_lie_in_their_directory(directory: Seq<char>, file: Seq<char>)
    requires
        directory.len() > 0,
        file.len() > 0,
        file != "."@,
        !file.contains('/'),
    ensures
        rooted(path_in(directory, file)) == rooted(directory),
        components(split_parts(path_in(directory, file), '/')) == components(
            split_parts(directory, '/'),
        ).push(file),
{
    reveal_strlit("/");
    crate::text::split_of_plain(file, '/');
    assert(seq![file].drop_last() =~= Seq::<Seq<char>>::empty());
    let d = if directory.last() == '/' {
        directory.drop_last()
    } else {
        directory
    };
    let s = path_in(directory, file);
    assert(s =~= d + seq!['/'] + file);
    crate::text::split_of_joined(d, file, '/');
    let parts = split_parts(d, '/');
    let all = split_parts(s, '/');
    assert(all =~= parts.push(file));
    assert(all.drop_last() =~= parts);
    assert(components(all) == components(parts).push(file));
    if directory.last() == '/' {
        crate::text::split_of_joined(d, Seq::empty(), '/');
        crate::text::split_of_plain(Seq::empty(), '/');
        assert(directory =~= d + seq!['/'] + Seq::<char>::empty());
        let own = split_parts(directory, '/');
        assert(own =~= parts.push(Seq::empty()));
        assert(own.drop_last() =~= parts);
    }
}

/// The level that is picked is one of those configured, and none of them says more: a connector
/// traces where any does, says what it says to debug where any does, and so on.
pub proof fn the_loudest_level_holds(levels: Seq<Seq<char>>)
    requires
        levels.len() > 0,
    ensures
        levels.contains(loudest(levels)),
        levels.contains("trace"@) ==> loudest(levels) == "trace"@,
        levels.contains("debug"@) ==> loudest(levels) == "trace"@ || loudest(levels) == "debug"@,
        levels.contains("info"@) ==> loudest(levels) != "warn"@ && loudest(levels) != "error"@,
        levels.contains("warn"@) ==> loudest(levels) != "error"@,
    decreases levels.len(),
{
    reveal_strlit("trace");
    reveal_strlit("debug");
    reveal_strlit("info");
    reveal_strlit("warn");
    reveal_strlit("error");
    assert("trace"@.len() == 5 && "trace"@[0] == 't');
    assert("debug"@.len() == 5 && "debug"@[0] == 'd');
    assert("error"@.len() == 5 && "error"@[0] == 'e');
    assert("info"@.len() == 4 && "info"@[0] == 'i');
    assert("warn"@.len() == 4 && "warn"@[0] == 'w');
    picked_level_is_configured(levels);
    if levels.contains("trace"@) {
        let i = choose|i: int| 0 <= i < levels.len() && levels[i] == "trace"@;
        no_level_is_louder(levels, i);
    }
    if levels.contains("debug"@) {
        let i = choose|i: int| 0 <= i < levels.len() && levels[i] == "debug"@;
        no_level_is_louder(levels, i);
    }
    if levels.contains("info"@) {
        let i = choose|i: int| 0 <= i < levels.len() && levels[i] == "info"@;
        no_level_is_louder(levels, i);
    }
    if levels.contains("warn"@) {
        let i = choose|i: int| 0 <= i < levels.len() && levels[i] == "warn"@;
        no_level_is_louder(levels, i);
    }
}

proof fn picked_level_is_configured(levels: Seq<Seq<char>>)
    requires
        levels.len() > 0,
    ensures
        levels.contains(loudest(levels)),
    decreases levels.len(),
{
    if levels.len() == 1 {
        assert(levels[0] == loudest(levels));
    } else {
        let before = levels.drop_last();
        picked_level_is_configured(before);
        let i = choose|i: int| 0 <= i < before.len() && before[i] == loudest(before);
        assert(levels[i] == loudest(before));
        assert(levels[levels.len() - 1] == levels.last());
    }
}

proof fn service_paths_are_found(found: Seq<(String, String)>, i: int, j: int)
    requires
        0 <= i < j < found.len(),
        found[i].0@ == found[j].0@,
    ensures
        ({
            let paths = paths_of_service(found, found[i].0@);
            &&& paths.len() > 1
            &&& paths.contains(found[i].1@)
            &&& paths.contains(found[j].1@)
        }),
    decreases found.len(),
{
    let service = found[i].0@;
    let before = found.drop_last();
    let head = paths_of_service(before, service);
    let all = paths_of_service(found, service);
    if j < found.len() - 1 {
        service_paths_are_found(before, i, j);
        let a = choose|a: int| 0 <= a < head.len() && head[a] == found[i].1@;
        let b = choose|b: int| 0 <= b < head.len() && head[b] == found[j].1@;
        assert(all[a] == found[i].1@ && all[b] == found[j].1@);
    } else {
        one_service_path(before, i);
        let a = choose|a: int| 0 <= a < head.len() && head[a] == found[i].1@;
        assert(all[a] == found[i].1@ && all[head.len() as int] == found[j].1@);
    }
}

proof fn one_service_path(found: Seq<(String, String)>, i: int)
    requires
        0 <= i < found.len(),
    ensures
        paths_of_service(found, found[i].0@).contains(found[i].1@),
    decreases found.len(),
{
    let service = found[i].0@;
    let head = paths_of_service(found.drop_last(), service);
    let all = paths_of_service(found, service);
    if i < found.len() - 1 {
        one_service_path(found.drop_last(), i);
        let a = choose|a: int| 0 <= a < head.len() && head[a] == found[i].1@;
        assert(all[a] == found[i].1@);
    } else {
        assert(all[head.len() as int] == found[i].1@);
    }
}

proof fn service_is_warned_of(
    found: Seq<(String, String)>,
    services: Seq<Seq<char>>,
    n: int,
    k: int,
)
    requires
        0 <= k < n <= services.len(),
        paths_of_service(found, services[k]).len() > 1,
    ensures
        service_warnings(found, services, n).contains(
            shared_service(services[k], paths_of_service(found, services[k])),
        ),
    decreases n,
{
    let head = service_warnings(found, services, n - 1);
    let all = service_warnings(found, services, n);
    let w = shared_service(services[k], paths_of_service(found, services[k]));
    if k < n - 1 {
        service_is_warned_of(found, services, n - 1, k);
        let a = choose|a: int| 0 <= a < head.len() && head[a] == w;
        assert(all[a] == w);
    } else {
        assert(all[head.len() as int] == w);
    }
}

/// Two configurations of one service name are warned of, both by their paths.
pub proof fn shared_services_are_warned_of(found: Seq<(String, String)>, i: int, j: int) -> (paths:
    Seq<Seq<char>>)
    requires
        0 <= i < j < found.len(),
        found[i].0@ == found[j].0@,
    ensures
        service_warnings(found, services_of(found), services_of(found).len() as int).contains(
            shared_service(found[i].0@, paths),
        ),
        paths.contains(found[i].1@),
        paths.contains(found[j].1@),
{
    let service = found[i].0@;
    let names = found.map_values(|f: (String, String)| f.0@);
    let services = services_of(found);
    service_paths_are_found(found, i, j);
    assert(names[i] == service);
    set_contains(names, service);
    let k = choose|k: int| 0 <= k < services.len() && services[k] == service;
    service_is_warned_of(found, services, services.len() as int, k);
    paths_of_service(found, service)
}

proof fn own_paths_only(found: Seq<(String, String)>, service: Seq<char>, i: int)
    requires
        forall|k: int| 0 <= k < found.len() && k != i ==> (#[trigger] found[k]).0@ != service,
    ensures
        paths_of_service(found, service).len() <= 1,
        !(0 <= i < found.len()) ==> paths_of_service(found, service).len() == 0,
    decreases found.len(),
{
    if found.len() > 0 {
        let before = found.drop_last();
        assert forall|k: int| 0 <= k < before.len() && k != i implies (#[trigger] before[k]).0@
            != service by {
            assert(before[k] == found[k]);
        }
        own_paths_only(before, service, i);
        assert(found[found.len() - 1] == found.last());
    }
}

/// Where each configuration has a service name of its own, nothing is said of any.
pub proof fn own_services_are_not_warned_of(
    found: Seq<(String, String)>,
    services: Seq<Seq<char>>,
    n: int,
)
    requires
        0 <= n <= services.len(),
        forall|i: int, j: int|
            0 <= i < j < found.len() ==> (#[trigger] found[i]).0@ != (#[trigger] found[j]).0@,
    ensures
        service_warnings(found, services, n).len() == 0,
    decreases n,
{
    if n > 0 {
        own_services_are_not_warned_of(found, services, n - 1);
        let service = services[n - 1];
        if exists|i: int| 0 <= i < found.len() && (#[trigger] found[i]).0@ == service {
            let i = choose|i: int| 0 <= i < found.len() && (#[trigger] found[i]).0@ == service;
            own_paths_only(found, service, i);
        } else {
            own_paths_only(found, service, -1);
        }
    }
}

/// A connector that failed waits as many seconds as are set.
pub proof fn failed_connectors_wait_as_set(n: u64)
    ensures
        restart_nanos(Some(decimal_text(n as nat))) == n * 1_000_000_000,
        restart_nanos(None) == DEFAULT_RESTART_DELAY_SECS * 1_000_000_000,
{
    crate::text::decimal_text_reads_back(n as nat);
}

/// Each configuration that paths lead to is run, and none twice.
pub proof fn each_configuration_is_run_once(args: Seq<(String, Found)>, i: int, j: int, k: int)
    ensures
        all_configs(args) is Ok <==> discovered(args, args.len() as int) is Ok,
        all_configs(args) matches Ok(runs) ==> (0 <= i < j < runs.len() ==> !same_path(
            runs[i],
            runs[j],
        )),
        discovered(args, args.len() as int) matches Ok(found) ==> (all_configs(args) matches Ok(runs)
            && (0 <= k < found.len() ==> is_run(runs, found[k]))),
{
    if let Ok(found) = discovered(args, args.len() as int) {
        each_path_is_taken_once(found);
        if 0 <= k < found.len() {
            let runs = first_occurrences(found);
            let path = found[k];
            assert(exists|n: int| 0 <= n < runs.len() && same_path(#[trigger] runs[n], path));
            assert(is_run(runs, path));
        }
    }
}

/// Whether a path is among those that are run, written in whatever way.
pub open spec fn is_run(runs: Seq<Seq<char>>, path: Seq<char>) -> bool {
    exists|n: int| 0 <= n < runs.len() && same_path(#[trigger] runs[n], path)
}

/// A call names a command where its first argument is one of them or a flag.
pub proof fn commands_are_told_by_their_names(a: Seq<char>)
    ensures
        a == "run"@ || a == "read"@ || a == "write"@ || a == "help"@ ==> names_command(a),
        a.len() > 0 && a[0] == '-' ==> names_command(a),
        names_command(a) && (a.len() == 0 || a[0] != '-') ==> a == "run"@ || a == "read"@ || a
            == "write"@ || a == "help"@,
{
}

} // verus!
