//! Source-position ranges and the nearest-range locator.
//!
//! A [`Spos`] is an inclusive range of source lines attributed to one
//! rendered node. [`Spos::find`] maps a query line to the best-matching
//! range of an index: a containing range of smallest width wins; failing
//! containment, the range nearest by distance wins, ties broken first by
//! smaller width and then by scan order.

use vstd::prelude::*;

verus! {

/// An inclusive range of 1-indexed source lines attributed to a rendered node.
#[derive(Debug, Copy, Clone, PartialEq, Eq, Structural)]
pub struct Spos {
    pub start_line: u32,
    pub end_line: u32,
}

impl Spos {
    /// A well-formed range never ends before it starts.
    pub open spec fn wf(self) -> bool {
        self.start_line <= self.end_line
    }

    /// The range contains the query line.
    pub open spec fn spec_contains(self, line: u32) -> bool {
        self.start_line <= line && line <= self.end_line
    }

    /// The width of the range: how many lines it spans beyond its first.
    pub open spec fn width(self) -> int {
        self.end_line - self.start_line
    }

    /// The distance from the query line to the nearer edge of the range.
    pub open spec fn dist(self, line: u32) -> int {
        let ds = abs_diff(self.start_line as int, line as int);
        let de = abs_diff(self.end_line as int, line as int);
        if ds <= de {
            ds
        } else {
            de
        }
    }
}

/// The absolute difference of two integers.
pub open spec fn abs_diff(a: int, b: int) -> int {
    if a >= b {
        a - b
    } else {
        b - a
    }
}

/// Every range of the sequence is well-formed.
pub open spec fn all_wf(s: Seq<Spos>) -> bool {
    forall|i: int| 0 <= i < s.len() ==> s[i].wf()
}

/// A containing candidate replaces the best so far only when strictly narrower.
pub open spec fn improves_contained(c: Spos, prev: Option<Spos>) -> bool {
    match prev {
        Option::None => true,
        Option::Some(p) => c.width() < p.width(),
    }
}

/// The containing range a left-to-right scan retains: the narrowest
/// containing range, the earliest one among equally narrow ones.
pub open spec fn fold_contained(line: u32, s: Seq<Spos>) -> Option<Spos>
    decreases s.len(),
{
    if s.len() == 0 {
        Option::None
    } else {
        let prev = fold_contained(line, s.drop_last());
        let c = s.last();
        if c.spec_contains(line) && improves_contained(c, prev) {
            Option::Some(c)
        } else {
            prev
        }
    }
}

/// A candidate replaces the nearest-so-far only when strictly nearer, or
/// equally near and strictly narrower.
pub open spec fn improves_near(c: Spos, prev: Option<Spos>, line: u32) -> bool {
    match prev {
        Option::None => true,
        Option::Some(p) => c.dist(line) < p.dist(line) || (c.dist(line) == p.dist(line)
            && c.width() < p.width()),
    }
}

/// The range a left-to-right scan retains as nearest by distance, ties
/// broken by smaller width, then by scan order.
pub open spec fn fold_near(line: u32, s: Seq<Spos>) -> Option<Spos>
    decreases s.len(),
{
    if s.len() == 0 {
        Option::None
    } else {
        let prev = fold_near(line, s.drop_last());
        let c = s.last();
        if improves_near(c, prev, line) {
            Option::Some(c)
        } else {
            prev
        }
    }
}

/// What `find` returns: the containment winner when one exists, otherwise
/// the nearest-by-distance winner, and nothing on an empty index.
pub open spec fn find_spec(line: u32, s: Seq<Spos>) -> Option<Spos> {
    if fold_contained(line, s) is Some {
        fold_contained(line, s)
    } else {
        fold_near(line, s)
    }
}

/// `s[k]` is the containment winner: it contains the line, no containing
/// range is narrower, and every earlier containing range is strictly wider.
pub open spec fn is_contained_winner(line: u32, s: Seq<Spos>, k: int) -> bool {
    &&& 0 <= k < s.len()
    &&& s[k].spec_contains(line)
    &&& forall|j: int|
        0 <= j < s.len() && s[j].spec_contains(line) ==> s[k].width() <= s[j].width()
    &&& forall|j: int| 0 <= j < k && s[j].spec_contains(line) ==> s[k].width() < s[j].width()
}

/// `s[k]` is the nearest winner: no range is nearer, no equally near range
/// is narrower, and every earlier equally near range is strictly wider.
pub open spec fn is_near_winner(line: u32, s: Seq<Spos>, k: int) -> bool {
    &&& 0 <= k < s.len()
    &&& forall|j: int| 0 <= j < s.len() ==> s[k].dist(line) <= s[j].dist(line)
    &&& forall|j: int|
        0 <= j < s.len() && s[j].dist(line) == s[k].dist(line) ==> s[k].width() <= s[j].width()
    &&& forall|j: int|
        0 <= j < k && s[j].dist(line) == s[k].dist(line) ==> s[k].width() < s[j].width()
}

/// The containment fold returns a value exactly when some range contains
/// the line, and that value is the containment winner.
pub proof fn lemma_fold_contained_characterized(line: u32, s: Seq<Spos>)
    ensures
        (fold_contained(line, s) is Some) <==> (exists|i: int|
            0 <= i < s.len() && s[i].spec_contains(line)),
        fold_contained(line, s) matches Some(r) ==> exists|k: int|
            is_contained_winner(line, s, k) && s[k] == r,
    decreases s.len(),
{
    if s.len() > 0 {
        let pre = s.drop_last();
        lemma_fold_contained_characterized(line, pre);
        let prev = fold_contained(line, pre);
        let c = s.last();
        assert(forall|i: int| 0 <= i < pre.len() ==> pre[i] == s[i]);
        if c.spec_contains(line) && improves_contained(c, prev) {
            let k = s.len() - 1;
            if prev is Some {
                let kp = choose|kp: int| is_contained_winner(line, pre, kp) && pre[kp]
                    == prev->Some_0;
                assert(is_contained_winner(line, s, k));
            } else {
                assert(forall|i: int| 0 <= i < pre.len() ==> !pre[i].spec_contains(line));
                assert(is_contained_winner(line, s, k));
            }
        } else if prev is Some {
            let kp = choose|kp: int| is_contained_winner(line, pre, kp) && pre[kp] == prev->Some_0;
            assert(is_contained_winner(line, s, kp));
        } else {
            assert(forall|i: int| 0 <= i < s.len() ==> !s[i].spec_contains(line));
        }
    }
}

/// The nearest fold returns a value exactly when the sequence is non-empty,
/// and that value is the nearest winner.
pub proof fn lemma_fold_near_characterized(line: u32, s: Seq<Spos>)
    ensures
        (fold_near(line, s) is Some) <==> s.len() > 0,
        fold_near(line, s) matches Some(r) ==> exists|k: int| is_near_winner(line, s, k) && s[k]
            == r,
    decreases s.len(),
{
    if s.len() > 0 {
        let pre = s.drop_last();
        lemma_fold_near_characterized(line, pre);
        let prev = fold_near(line, pre);
        let c = s.last();
        assert(forall|i: int| 0 <= i < pre.len() ==> pre[i] == s[i]);
        if improves_near(c, prev, line) {
            let k = s.len() - 1;
            if prev is Some {
                let kp = choose|kp: int| is_near_winner(line, pre, kp) && pre[kp] == prev->Some_0;
                assert(is_near_winner(line, s, k));
            } else {
                assert(pre.len() == 0);
                assert(is_near_winner(line, s, k));
            }
        } else {
            let kp = choose|kp: int| is_near_winner(line, pre, kp) && pre[kp] == prev->Some_0;
            assert(is_near_winner(line, s, kp));
        }
    }
}

/// No range contains the line, so the containment fold is empty.
pub proof fn lemma_fold_contained_none(line: u32, s: Seq<Spos>)
    requires
        forall|i: int| 0 <= i < s.len() ==> !s[i].spec_contains(line),
    ensures
        fold_contained(line, s) is None,
    decreases s.len(),
{
    if s.len() > 0 {
        assert(forall|i: int| 0 <= i < s.drop_last().len() ==> s.drop_last()[i] == s[i]);
        lemma_fold_contained_none(line, s.drop_last());
    }
}

proof fn lemma_fold_contained_unique(line: u32, s: Seq<Spos>, k: int)
    requires
        0 <= k < s.len(),
        s[k].spec_contains(line),
        forall|i: int| 0 <= i < s.len() && i != k ==> !s[i].spec_contains(line),
    ensures
        fold_contained(line, s) == Option::Some(s[k]),
    decreases s.len(),
{
    let pre = s.drop_last();
    assert(forall|i: int| 0 <= i < pre.len() ==> pre[i] == s[i]);
    if k == s.len() - 1 {
        lemma_fold_contained_none(line, pre);
    } else {
        lemma_fold_contained_unique(line, pre, k);
    }
}

/// Law: a query line contained by exactly one range is located at that
/// range, whatever else the index holds.
pub proof fn lemma_find_unique_containment(line: u32, s: Seq<Spos>, k: int)
    requires
        0 <= k < s.len(),
        s[k].spec_contains(line),
        forall|i: int| 0 <= i < s.len() && i != k ==> !s[i].spec_contains(line),
    ensures
        find_spec(line, s) == Option::Some(s[k]),
{
    lemma_fold_contained_unique(line, s, k);
}

/// Law: whenever some range contains the query line, `find` selects a
/// containing range of minimal width, the earliest on ties.
pub proof fn lemma_find_containment(line: u32, s: Seq<Spos>)
    requires
        exists|i: int| 0 <= i < s.len() && s[i].spec_contains(line),
    ensures
        find_spec(line, s) matches Some(r) ==> exists|k: int|
            is_contained_winner(line, s, k) && s[k] == r,
        find_spec(line, s) is Some,
{
    lemma_fold_contained_characterized(line, s);
}

/// Law: when no range contains the query line and the index is non-empty,
/// `find` selects a nearest range, ties broken by width then scan order.
pub proof fn lemma_find_nearest(line: u32, s: Seq<Spos>)
    requires
        s.len() > 0,
        forall|i: int| 0 <= i < s.len() ==> !s[i].spec_contains(line),
    ensures
        find_spec(line, s) matches Some(r) ==> exists|k: int| is_near_winner(line, s, k) && s[k]
            == r,
        find_spec(line, s) is Some,
{
    lemma_fold_contained_none(line, s);
    lemma_fold_near_characterized(line, s);
}

impl Spos {
    /// Locates the index entry that best matches the query line: the
    /// narrowest containing range, or failing containment the nearest one.
    /// The result is pinned down by `find_spec`; an empty index yields no
    /// match and a non-empty one always yields a match.
    pub fn find(source_line: u32, sposes: &Vec<Spos>) -> (r: Option<Spos>)
        requires
            all_wf(sposes@),
        ensures
            r == find_spec(source_line, sposes@),
            sposes@.len() == 0 ==> r is None,
            sposes@.len() > 0 ==> r is Some,
    {
        let n = sposes.len();
        let mut best_c: Option<Spos> = Option::None;
        let mut best_c_w: u32 = 0;
        let mut best_n: Option<Spos> = Option::None;
        let mut best_n_d: u32 = 0;
        let mut best_n_w: u32 = 0;
        let mut i: usize = 0;
        while i < n
            invariant
                i <= n == sposes@.len(),
                all_wf(sposes@),
                best_c == fold_contained(source_line, sposes@.take(i as int)),
                best_n == fold_near(source_line, sposes@.take(i as int)),
                best_c matches Some(p) ==> best_c_w == p.width(),
                best_n matches Some(p) ==> best_n_d == p.dist(source_line) && best_n_w
                    == p.width(),
                i > 0 ==> best_n is Some,
            decreases n - i,
        {
            let s = sposes[i];
            proof {
                assert(sposes@.take(i + 1).drop_last() =~= sposes@.take(i as int));
                assert(sposes@.take(i + 1).last() == sposes@[i as int]);
            }
            let w = s.end_line - s.start_line;
            let ds = if s.start_line >= source_line {
                s.start_line - source_line
            } else {
                source_line - s.start_line
            };
            let de = if s.end_line >= source_line {
                s.end_line - source_line
            } else {
                source_line - s.end_line
            };
            let d = if ds <= de {
                ds
            } else {
                de
            };
            assert(d == s.dist(source_line));
            if s.start_line <= source_line && source_line <= s.end_line {
                let improves = match best_c {
                    Option::None => true,
                    Option::Some(_) => w < best_c_w,
                };
                if improves {
                    best_c = Option::Some(s);
                    best_c_w = w;
                }
            }
            let improves = match best_n {
                Option::None => true,
                Option::Some(_) => d < best_n_d || (d == best_n_d && w < best_n_w),
            };
            if improves {
                best_n = Option::Some(s);
                best_n_d = d;
                best_n_w = w;
            }
            i = i + 1;
        }
        proof {
            assert(sposes@.take(n as int) =~= sposes@);
        }
        if best_c.is_some() {
            best_c
        } else {
            best_n
        }
    }
}

} // verus!
