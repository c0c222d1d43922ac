//! Regret-learning feedback: per-file counts of useful ("good") and ignored
//! ("bad") selections, and the multiplicative score adjustment they imply.
//!
//! The adjustment is
//!   factor = 1 + alpha * (good - bad) / (good + bad + 1),   alpha = 3/10,
//! and a file without feedback gets factor 1.  The library computes the factor
//! exactly, as a fraction of two integers.
use vstd::prelude::*;

use crate::text::push_str;

verus! {

/// Numerator of the learning rate alpha.
pub const ALPHA_NUM: u64 = 3;

/// Denominator of the learning rate alpha.
pub const ALPHA_DEN: u64 = 10;

/// Per-file feedback counts.
#[derive(Debug, Clone, Copy)]
pub struct FileFeedback {
    /// How many times this file was marked as useful.
    pub good: u32,
    /// How many times this file was shown but skipped.
    pub bad: u32,
}

/// The feedback database: file path and its counts.
///
/// A path is looked up at its first entry; the operations of this type never
/// create a second entry for a path.
#[derive(Debug)]
pub struct FeedbackDb {
    /// File path and feedback counts.
    pub files: Vec<(String, FileFeedback)>,
}

/// The counts recorded for `name`: those of its first entry.
pub open spec fn lookup(entries: Seq<(String, FileFeedback)>, name: Seq<char>) -> Option<FileFeedback>
    decreases entries.len(),
{
    if entries.len() == 0 {
        None
    } else if entries[0].0@ == name {
        Some(entries[0].1)
    } else {
        lookup(entries.drop_first(), name)
    }
}

/// No path has two entries.
pub open spec fn names_distinct(entries: Seq<(String, FileFeedback)>) -> bool {
    forall|i: int, j: int|
        0 <= i < j < entries.len() ==> #[trigger] entries[i].0@ != #[trigger] entries[j].0@
}

/// The counts after one more good (or bad) selection.
pub open spec fn bumped(old: Option<FileFeedback>, good: bool) -> FileFeedback {
    let base = match old {
        Some(fb) => fb,
        None => FileFeedback { good: 0, bad: 0 },
    };
    if good {
        FileFeedback { good: (base.good + 1) as u32, bad: base.bad }
    } else {
        FileFeedback { good: base.good, bad: (base.bad + 1) as u32 }
    }
}

/// The adjustment factor as (numerator, denominator):
/// 1 without feedback, else 1 + alpha * (good - bad) / (good + bad + 1).
pub open spec fn factor_fraction(fb: Option<FileFeedback>) -> (int, int) {
    match fb {
        None => (1, 1),
        Some(f) => {
            let den = ALPHA_DEN * (f.good + f.bad + 1);
            (den + ALPHA_NUM * (f.good - f.bad), den)
        },
    }
}

impl FeedbackDb {
    /// The counts recorded for file `name`, if any.
    pub open spec fn feedback_for(self, name: Seq<char>) -> Option<FileFeedback> {
        lookup(self.files@, name)
    }

    /// Whether recording one more selection of `name` fits in the counters.
    pub open spec fn can_record(self, name: Seq<char>, good: bool) -> bool {
        match self.feedback_for(name) {
            Some(fb) => if good { fb.good < u32::MAX } else { fb.bad < u32::MAX },
            None => true,
        }
    }

    /// An empty database.
    pub fn new() -> (r: Self)
        ensures
            r.files@.len() == 0,
            forall|n: Seq<char>| r.feedback_for(n) is None,
    {
        FeedbackDb { files: Vec::new() }
    }

    /// Record a good or bad selection for a file.
    ///
    /// The file's counter grows by one; every other file keeps its counts.
    pub fn record(&mut self, fname: &str, good: bool)
        requires
            old(self).can_record(fname@, good),
        ensures
            final(self).feedback_for(fname@) == Some(bumped(old(self).feedback_for(fname@), good)),
            forall|n: Seq<char>| n != fname@ ==> final(self).feedback_for(n) == old(self).feedback_for(n),
            names_distinct(old(self).files@) ==> names_distinct(final(self).files@),
    {
        let key: String = fname.to_owned();
        let mut i: usize = 0;
        assert(self.files@.skip(0) =~= self.files@);
        while i < self.files.len()
            invariant
                i <= self.files.len(),
                key@ == fname@,
                self.files@ == old(self).files@,
                old(self).can_record(fname@, good),
                lookup(self.files@, fname@) == lookup(self.files@.skip(i as int), fname@),
                forall|j: int| 0 <= j < i ==> #[trigger] self.files@[j].0@ != fname@,
            decreases self.files.len() - i,
        {
            if self.files[i].0 == key {
                let old_fb = self.files[i].1;
                assert(self.files@.skip(i as int)[0] == self.files@[i as int]);
                assert(lookup(self.files@, fname@) == Some(old_fb));
                let fb = if good {
                    FileFeedback { good: old_fb.good + 1, bad: old_fb.bad }
                } else {
                    FileFeedback { good: old_fb.good, bad: old_fb.bad + 1 }
                };
                let name = self.files[i].0.clone();
                let ghost before = self.files@;
                proof {
                    assert(before.skip(i as int)[0] == before[i as int]);
                }
                self.files.set(i, (name, fb));
                proof {
                    lemma_lookup_update(before, i as int, (name, fb));
                }
                return;
            }
            proof {
                let rest = self.files@.skip(i as int);
                assert(rest[0] == self.files@[i as int]);
                assert(rest.drop_first() =~= self.files@.skip(i + 1));
            }
            i = i + 1;
        }
        let ghost before = self.files@;
        let fb = if good {
            FileFeedback { good: 1, bad: 0 }
        } else {
            FileFeedback { good: 0, bad: 1 }
        };
        proof {
            assert(before.skip(i as int).len() == 0);
        }
        self.files.push((key, fb));
        proof {
            lemma_lookup_push(before, (key, fb));
        }
    }

    /// The score adjustment factor for a file, as an exact fraction
    /// (numerator, denominator); a file without feedback gets 1/1.
    pub fn factor_ratio(&self, fname: &str) -> (r: (u64, u64))
        ensures
            (r.0 as int, r.1 as int) == factor_fraction(self.feedback_for(fname@)),
    {
        let key: String = fname.to_owned();
        let mut i: usize = 0;
        assert(self.files@.skip(0) =~= self.files@);
        while i < self.files.len()
            invariant
                i <= self.files.len(),
                key@ == fname@,
                lookup(self.files@, fname@) == lookup(self.files@.skip(i as int), fname@),
            decreases self.files.len() - i,
        {
            if self.files[i].0 == key {
                let fb = self.files[i].1;
                assert(self.files@.skip(i as int)[0] == self.files@[i as int]);
                let den: u64 = ALPHA_DEN * (fb.good as u64 + fb.bad as u64 + 1);
                let num: u64 = den + ALPHA_NUM * fb.good as u64 - ALPHA_NUM * fb.bad as u64;
                return (num, den);
            }
            proof {
                let rest = self.files@.skip(i as int);
                assert(rest[0] == self.files@[i as int]);
                assert(rest.drop_first() =~= self.files@.skip(i + 1));
            }
            i = i + 1;
        }
        assert(self.files@.skip(i as int).len() == 0);
        (1, 1)
    }
}

impl Default for FeedbackDb {
    /// An empty database.
    fn default() -> (r: Self)
        ensures
            r.files@.len() == 0,
    {
        FeedbackDb::new()
    }
}

/// Replacing the first entry of a name (keeping its name) changes that name's
/// counts and no other name's.
proof fn lemma_lookup_update(entries: Seq<(String, FileFeedback)>, i: int, e: (String, FileFeedback))
    requires
        0 <= i < entries.len(),
        e.0@ == entries[i].0@,
        forall|j: int| 0 <= j < i ==> #[trigger] entries[j].0@ != e.0@,
    ensures
        lookup(entries.update(i, e), e.0@) == Some(e.1),
        forall|n: Seq<char>| n != e.0@ ==> lookup(entries.update(i, e), n) == lookup(entries, n),
        names_distinct(entries) ==> names_distinct(entries.update(i, e)),
    decreases i,
{
    let u = entries.update(i, e);
    if i > 0 {
        lemma_lookup_update(entries.drop_first(), i - 1, e);
        assert(u.drop_first() =~= entries.drop_first().update(i - 1, e));
        assert(u[0] == entries[0]);
        assert forall|n: Seq<char>| n != e.0@ implies lookup(u, n) == lookup(entries, n) by {
            if entries[0].0@ != n {
                assert(lookup(u, n) == lookup(u.drop_first(), n));
                assert(lookup(entries, n) == lookup(entries.drop_first(), n));
                assert(lookup(entries.drop_first().update(i - 1, e), n) == lookup(entries.drop_first(), n));
            }
        }
        assert(entries[0].0@ != e.0@);
    } else {
        assert(u.drop_first() =~= entries.drop_first());
    }
    if names_distinct(entries) {
        assert forall|a: int, b: int| 0 <= a < b < u.len() implies #[trigger] u[a].0@ != #[trigger] u[b].0@ by {
            assert(entries[a].0@ != entries[b].0@);
        }
    }
}

/// Appending an entry for a name that has none makes it visible and changes
/// no other name's counts.
proof fn lemma_lookup_push(entries: Seq<(String, FileFeedback)>, e: (String, FileFeedback))
    requires
        lookup(entries, e.0@) is None,
    ensures
        lookup(entries.push(e), e.0@) == Some(e.1),
        forall|n: Seq<char>| n != e.0@ ==> lookup(entries.push(e), n) == lookup(entries, n),
        names_distinct(entries) ==> names_distinct(entries.push(e)),
    decreases entries.len(),
{
    let p = entries.push(e);
    if entries.len() > 0 {
        lemma_lookup_push(entries.drop_first(), e);
        assert(p.drop_first() =~= entries.drop_first().push(e));
        assert(p[0] == entries[0]);
        assert forall|n: Seq<char>| n != e.0@ implies lookup(p, n) == lookup(entries, n) by {
            if entries[0].0@ != n {
                assert(lookup(p, n) == lookup(p.drop_first(), n));
                assert(lookup(entries, n) == lookup(entries.drop_first(), n));
                assert(lookup(entries.drop_first().push(e), n) == lookup(entries.drop_first(), n));
            }
        }
    } else {
        assert(p.drop_first().len() == 0);
        assert(p[0] == e);
        assert forall|n: Seq<char>| n != e.0@ implies lookup(p, n) == lookup(entries, n) by {
            assert(lookup(p, n) == lookup(p.drop_first(), n));
        }
    }
    lemma_lookup_none_all_differ(entries, e.0@);
    if names_distinct(entries) {
        assert forall|a: int, b: int| 0 <= a < b < p.len() implies #[trigger] p[a].0@ != #[trigger] p[b].0@ by {
            if b < entries.len() {
                assert(entries[a].0@ != entries[b].0@);
            } else {
                assert(entries[a].0@ != e.0@);
            }
        }
    }
}

/// A name without counts has no entry at all.
proof fn lemma_lookup_none_all_differ(entries: Seq<(String, FileFeedback)>, name: Seq<char>)
    requires
        lookup(entries, name) is None,
    ensures
        forall|j: int| 0 <= j < entries.len() ==> #[trigger] entries[j].0@ != name,
    decreases entries.len(),
{
    if entries.len() > 0 {
        lemma_lookup_none_all_differ(entries.drop_first(), name);
        assert forall|j: int| 0 <= j < entries.len() implies #[trigger] entries[j].0@ != name by {
            if j > 0 {
                assert(entries[j] == entries.drop_first()[j - 1]);
            }
        }
    }
}

/// Feedback only ever moves the factor in the direction of the evidence:
/// more good than bad selections give a factor above 1, more bad than good a
/// factor below 1, balanced counts (and no feedback at all) exactly 1.  The
/// factor always stays positive.
pub proof fn lemma_factor_direction(fb: Option<FileFeedback>)
    ensures
        factor_fraction(fb).1 > 0,
        factor_fraction(fb).0 > 0,
        fb is None ==> factor_fraction(fb).0 == factor_fraction(fb).1,
        fb matches Some(f) ==> (f.good > f.bad <==> factor_fraction(fb).0 > factor_fraction(fb).1),
        fb matches Some(f) ==> (f.good < f.bad <==> factor_fraction(fb).0 < factor_fraction(fb).1),
        fb matches Some(f) ==> (f.good == f.bad <==> factor_fraction(fb).0 == factor_fraction(fb).1),
{
}

/// Recording feedback moves the factor the right way: one more good
/// selection never lowers a file's factor, one more bad selection never
/// raises it (compared as fractions).  This holds from no feedback at all too.
pub proof fn lemma_factor_monotone(fb: Option<FileFeedback>)
    requires
        fb matches Some(f) ==> f.good < u32::MAX && f.bad < u32::MAX,
    ensures
        ({
            let (n0, d0) = factor_fraction(fb);
            let (n1, d1) = factor_fraction(Some(bumped(fb, true)));
            n0 * d1 <= n1 * d0
        }),
        ({
            let (n0, d0) = factor_fraction(fb);
            let (n1, d1) = factor_fraction(Some(bumped(fb, false)));
            n1 * d0 <= n0 * d1
        }),
{
    match fb {
        None => {
            let up = bumped(fb, true);
            let down = bumped(fb, false);
            assert(up.good == 1 && up.bad == 0);
            assert(down.good == 0 && down.bad == 1);
            assert(factor_fraction(Some(up)) == (23int, 20int));
            assert(factor_fraction(Some(down)) == (17int, 20int));
            assert(factor_fraction(fb) == (1int, 1int));
            assert(1int * 20int <= 23int * 1int);
        },
        Some(f) => {
            let g = f.good as int;
            let b = f.bad as int;
            // numerator 13g + 7b + 10, denominator 10(g + b + 1)
            assert((13 * g + 7 * b + 10) * (10 * (g + b + 2)) <= (13 * (g + 1) + 7 * b + 10) * (10 * (g + b
                + 1))) by (nonlinear_arith)
                requires
                    g >= 0,
                    b >= 0,
            ;
            assert((13 * g + 7 * (b + 1) + 10) * (10 * (g + b + 1)) <= (13 * g + 7 * b + 10) * (10 * (g + b
                + 2))) by (nonlinear_arith)
                requires
                    g >= 0,
                    b >= 0,
            ;
        },
    }
}

/// Errors of loading or saving the feedback database.
#[derive(Debug)]
pub enum FeedbackError {
    /// Reading or writing the file failed.
    Io(String),
    /// The file's contents are not a feedback database.
    Parse(String),
}

/// The human-readable text of a `FeedbackError`.
pub open spec fn feedback_error_text(e: FeedbackError) -> Seq<char> {
    match e {
        FeedbackError::Io(s) => "feedback I/O error: "@ + s@,
        FeedbackError::Parse(s) => "feedback parse error: "@ + s@,
    }
}

impl FeedbackError {
    /// The message shown to users for this error.
    pub fn message(&self) -> (r: String)
        ensures
            r@ == feedback_error_text(*self),
    {
        let mut out = String::new();
        match self {
            FeedbackError::Io(s) => {
                push_str(&mut out, "feedback I/O error: ");
                push_str(&mut out, s.as_str());
            },
            FeedbackError::Parse(s) => {
                push_str(&mut out, "feedback parse error: ");
                push_str(&mut out, s.as_str());
            },
        }
        assert(out@ =~= feedback_error_text(*self));
        out
    }
}

} // verus!
