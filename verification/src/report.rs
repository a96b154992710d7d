//! The report of a conformance run: what was checked, and what came of it.
use crate::text::{text_of, texts};
use vstd::prelude::*;

verus! {

/// What came of a check.
#[derive(Clone, Copy, Debug, PartialEq, Eq, Structural)]
pub enum Verdict {
    Pass,
    Fail,
    Skip,
}

/// A check: what it is of, and what came of it.
#[derive(Debug, PartialEq)]
pub struct Check {
    pub id: String,
    pub name: String,
    pub verdict: Verdict,
    pub detail: Option<String>,
}

/// What a check is.
#[verifier::ext_equal]
pub struct CheckView {
    pub id: Seq<char>,
    pub name: Seq<char>,
    pub verdict: Verdict,
    pub detail: Option<Seq<char>>,
}

impl View for Check {
    type V = CheckView;

    open spec fn view(&self) -> CheckView {
        CheckView {
            id: self.id@,
            name: self.name@,
            verdict: self.verdict,
            detail: text_of(self.detail),
        }
    }
}

/// What each check is.
pub open spec fn check_views(v: Seq<Check>) -> Seq<CheckView> {
    v.map_values(|c: Check| c@)
}

/// Checks of one kind.
#[derive(Debug, PartialEq)]
pub struct Layer {
    pub name: String,
    pub checks: Vec<Check>,
}

impl View for Layer {
    type V = Seq<CheckView>;

    open spec fn view(&self) -> Seq<CheckView> {
        check_views(self.checks@)
    }
}

/// What a check found: nothing wrong, with something to say of it or not; or what is wrong.
pub type Finding = Result<Option<String>, String>;

/// What a check found.
pub open spec fn finding_of(f: Finding) -> Result<Option<Seq<char>>, Seq<char>> {
    match f {
        Ok(d) => Ok(text_of(d)),
        Err(e) => Err(e@),
    }
}

/// The check of a finding.
pub open spec fn concluded(
    id: Seq<char>,
    name: Seq<char>,
    f: Result<Option<Seq<char>>, Seq<char>>,
) -> CheckView {
    match f {
        Ok(detail) => CheckView { id, name, verdict: Verdict::Pass, detail },
        Err(e) => CheckView { id, name, verdict: Verdict::Fail, detail: Some(e) },
    }
}

impl Layer {
    /// Nothing was checked.
    pub fn new(name: &str) -> (r: Layer)
        ensures
            r.name@ == name@,
            r@ == Seq::<CheckView>::empty(),
    {
        let r = Layer { name: name.to_owned(), checks: Vec::new() };
        assert(r@ =~= Seq::<CheckView>::empty());
        r
    }

    fn add(&mut self, id: &str, name: &str, verdict: Verdict, detail: Option<String>)
        ensures
            final(self)@ == old(self)@.push(
                CheckView { id: id@, name: name@, verdict, detail: text_of(detail) },
            ),
            final(self).name == old(self).name,
    {
        let ghost before = self@;
        let c = Check { id: id.to_owned(), name: name.to_owned(), verdict, detail };
        self.checks.push(c);
        assert(self@ =~= before.push(c@));
    }

    /// Notes a check that passed.
    pub fn pass(&mut self, id: &str, name: &str, detail: Option<String>)
        ensures
            final(self)@ == old(self)@.push(
                CheckView {
                    id: id@,
                    name: name@,
                    verdict: Verdict::Pass,
                    detail: text_of(detail),
                },
            ),
            final(self).name == old(self).name,
    {
        self.add(id, name, Verdict::Pass, detail);
    }

    /// Notes a check that failed, and why.
    pub fn fail(&mut self, id: &str, name: &str, reason: String)
        ensures
            final(self)@ == old(self)@.push(
                CheckView {
                    id: id@,
                    name: name@,
                    verdict: Verdict::Fail,
                    detail: Some(reason@),
                },
            ),
            final(self).name == old(self).name,
    {
        self.add(id, name, Verdict::Fail, Some(reason));
    }

    /// Notes a check that could not be made, and why.
    pub fn skip(&mut self, id: &str, name: &str, reason: String)
        ensures
            final(self)@ == old(self)@.push(
                CheckView {
                    id: id@,
                    name: name@,
                    verdict: Verdict::Skip,
                    detail: Some(reason@),
                },
            ),
            final(self).name == old(self).name,
    {
        self.add(id, name, Verdict::Skip, Some(reason));
    }

    /// Notes a check by what it found.
    pub fn check(&mut self, id: &str, name: &str, finding: Finding)
        ensures
            final(self)@ == old(self)@.push(concluded(id@, name@, finding_of(finding))),
            final(self).name == old(self).name,
    {
        match finding {
            Ok(detail) => self.pass(id, name, detail),
            Err(reason) => self.fail(id, name, reason),
        }
    }

    /// Whether no check failed.
    pub fn passed(&self) -> (r: bool)
        ensures
            r == all_passed(self@),
    {
        let ghost all = self@;
        let mut i: usize = 0;
        while i < self.checks.len()
            invariant
                i <= self.checks@.len() == all.len(),
                all == self@,
                forall|k: int| 0 <= k < i ==> (#[trigger] all[k]).verdict != Verdict::Fail,
            decreases self.checks@.len() - i,
        {
            assert(all[i as int] == self.checks@[i as int]@);
            if self.checks[i].verdict == Verdict::Fail {
                return false;
            }
            i = i + 1;
        }
        true
    }
}

/// No check failed.
pub open spec fn all_passed(checks: Seq<CheckView>) -> bool {
    forall|i: int| 0 <= i < checks.len() ==> (#[trigger] checks[i]).verdict != Verdict::Fail
}

/// A text where something is wrong, none where not.
pub open spec fn wrong(bad: bool, text: Seq<char>) -> Seq<Seq<char>> {
    if bad {
        seq![text]
    } else {
        Seq::empty()
    }
}

/// Adds a text where something is wrong.
pub fn note_wrong(errors: &mut Vec<String>, bad: bool, text: String)
    ensures
        texts(final(errors)@) == texts(old(errors)@) + wrong(bad, text@),
{
    let ghost before = texts(errors@);
    if bad {
        errors.push(text);
    }
    assert(texts(errors@) =~= before + wrong(bad, text@));
}

/// A check passes where nothing is wrong, and fails with what is.
pub proof fn checks_fail_where_something_is_wrong(
    id: Seq<char>,
    name: Seq<char>,
    f: Result<Option<Seq<char>>, Seq<char>>,
)
    ensures
        concluded(id, name, f).verdict == Verdict::Fail <==> f is Err,
        concluded(id, name, f).verdict == Verdict::Pass <==> f is Ok,
        f matches Err(e) ==> concluded(id, name, f).detail == Some(e),
        f matches Ok(d) ==> concluded(id, name, f).detail == d,
        concluded(id, name, f).id == id,
        concluded(id, name, f).name == name,
{
}

/// Something is said where, and only where, something is wrong.
pub proof fn only_what_is_wrong_is_said(bad: bool, text: Seq<char>, other: Seq<char>)
    ensures
        wrong(bad, text).contains(other) <==> bad && other == text,
{
    if bad {
        assert(wrong(bad, text)[0] == text);
    }
}

} // verus!
