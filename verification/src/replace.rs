//! The symbol-path simplifier: a scanner over the input, a suffix-stripping
//! iterator over a type path, and the rewrite engine.
//!
//! The scanner walks the input once, left to right, looking for the
//! two-character anchor `::`. Around each anchor it extends a candidate path
//! over the path alphabet (letters, digits, `_` and `:`), then tries every
//! prefix of the candidate, longest first, against the keyword table. Each
//! matching prefix emits an output fragment; if none ever matches, the input
//! is handed back unchanged as a borrowed view.

use vstd::prelude::*;
use crate::tokens::{token_lookup, token_spec};

verus! {

/// The characters that may appear in a fully-qualified type path:
/// `0-9`, `a-z`, `A-Z`, `_` and `:`.
pub open spec fn is_path_char(c: char) -> bool {
    let u = c as u32;
    (48 <= u <= 57) || (97 <= u <= 122) || (65 <= u <= 90) || u == 95 || u == 58
}

/// Executable test for membership in the path alphabet.
pub fn path_char(c: char) -> (r: bool)
    ensures
        r == is_path_char(c),
{
    let u = c as u32;
    (48 <= u && u <= 57) || (97 <= u && u <= 122) || (65 <= u && u <= 90) || u == 95 || u == 58
}

/// The left edge of the candidate around an anchor at `j`: walk left while
/// the previous character is in the path alphabet.
pub open spec fn scan_left(s: Seq<char>, j: int) -> int
    decreases j,
{
    if j > 0 && is_path_char(s[j - 1]) {
        scan_left(s, j - 1)
    } else {
        j
    }
}

/// The right edge of the candidate: walk right from `j` while the character
/// is in the path alphabet, up to the end of the input.
pub open spec fn scan_right(s: Seq<char>, j: int) -> int
    decreases s.len() - j,
{
    if j < s.len() && is_path_char(s[j]) {
        scan_right(s, j + 1)
    } else {
        j
    }
}

proof fn lemma_scan_left_props(s: Seq<char>, j: int)
    requires
        0 <= j <= s.len(),
    ensures
        0 <= scan_left(s, j) <= j,
        forall|k: int| scan_left(s, j) <= k < j ==> is_path_char(#[trigger] s[k]),
    decreases j,
{
    if j > 0 && is_path_char(s[j - 1]) {
        lemma_scan_left_props(s, j - 1);
    }
}

proof fn lemma_scan_right_props(s: Seq<char>, j: int)
    requires
        0 <= j <= s.len(),
    ensures
        j <= scan_right(s, j) <= s.len(),
        forall|k: int| j <= k < scan_right(s, j) ==> is_path_char(#[trigger] s[k]),
    decreases s.len() - j,
{
    if j < s.len() && is_path_char(s[j]) {
        lemma_scan_right_props(s, j + 1);
    }
}

/// The pairs that the path iterator still has to produce for path `p` when
/// its scan may continue below position `upper`: one pair per `::` boundary,
/// right to left, each splitting `p` just before the boundary.
pub open spec fn yields_from(p: Seq<char>, upper: int) -> Seq<(Seq<char>, Seq<char>)>
    decreases upper,
{
    if upper <= 0 {
        Seq::empty()
    } else if p[upper - 1] == ':' {
        if upper >= 2 {
            seq![(p.subrange(0, upper - 2), p.subrange(upper - 2, p.len() as int))]
                + yields_from(p, upper - 2)
        } else {
            Seq::empty()
        }
    } else {
        yields_from(p, upper - 1)
    }
}

/// Every pair the path iterator produces for `p`, in order: first the whole
/// path with an empty suffix, then one trailing `::`-segment stripped at a
/// time.
pub open spec fn iter_yields(p: Seq<char>) -> Seq<(Seq<char>, Seq<char>)> {
    if p.len() == 0 {
        Seq::empty()
    } else {
        seq![(p, Seq::<char>::empty())] + yields_from(p, p.len() - 1)
    }
}

/// A well-formed type path: nonempty identifier segments over the path
/// alphabet, separated by `::`.
pub open spec fn is_path(p: Seq<char>) -> bool {
    &&& p.len() > 0
    &&& forall|i: int| 0 <= i < p.len() ==> is_path_char(#[trigger] p[i])
    &&& p[0] != ':'
    &&& p[p.len() - 1] != ':'
    &&& forall|i: int|
        0 <= i < p.len() && #[trigger] p[i] == ':' ==> ((i + 1 < p.len() && p[i + 1] == ':' && (
        i == 0 || p[i - 1] != ':')) || (0 < i && p[i - 1] == ':' && (i + 1 == p.len() || p[i
            + 1] != ':')))
}

/// Whether a `::` separator starts at position `i` of `p`.
pub open spec fn is_sep(p: Seq<char>, i: int) -> bool {
    0 <= i && i + 1 < p.len() && p[i] == ':' && p[i + 1] == ':'
}

/// The number of separator positions below `k`.
pub open spec fn sep_count(p: Seq<char>, k: int) -> int
    decreases k,
{
    if k <= 0 {
        0
    } else {
        sep_count(p, k - 1) + if is_sep(p, k - 1) {
            1int
        } else {
            0int
        }
    }
}

/// The number of `::`-separated segments of a well-formed path.
pub open spec fn segments(p: Seq<char>) -> int {
    1 + sep_count(p, p.len() as int)
}

/// The scan positions the iterator actually reaches on a well-formed path:
/// the position is not a colon unless it starts a separator that lies at
/// the position itself and beyond, outside the remaining scan range.
spec fn good_upper(p: Seq<char>, upper: int) -> bool {
    &&& 0 <= upper <= p.len() - 1
    &&& (p[upper] != ':' || (upper + 1 < p.len() && p[upper + 1] == ':' && (upper == 0 || p[upper
        - 1] != ':')))
}

proof fn lemma_yields_from_wf(p: Seq<char>, upper: int)
    requires
        is_path(p),
        good_upper(p, upper),
    ensures
        yields_from(p, upper).len() == sep_count(p, upper - 1),
        forall|k: int|
            0 <= k < yields_from(p, upper).len() ==> (#[trigger] yields_from(p, upper)[k]).0
                + yields_from(p, upper)[k].1 == p,
        forall|k: int|
            0 <= k < yields_from(p, upper).len() ==> ((#[trigger] yields_from(p, upper)[k]).1.len()
                >= 2 && yields_from(p, upper)[k].1[0] == ':' && yields_from(p, upper)[k].1[1]
                == ':'),
    decreases upper,
{
    if upper <= 0 {
    } else if p[upper - 1] == ':' {
        // `good_upper` rules out a separator starting at `upper - 1`, so
        // this colon ends one: its partner sits at `upper - 2`, and since
        // the path does not begin with a colon, `upper - 2` is at least 1.
        assert(upper >= 3) by {
            if upper - 1 == 0 {
                assert(p[0] == ':');
            }
            assert(p[upper - 2] == ':');
            if upper - 2 == 0 {
                assert(p[0] == ':');
            }
        }
        assert(p[upper - 2] == ':');
        assert(upper - 2 == 0 || p[upper - 3] != ':');
        lemma_yields_from_wf(p, upper - 2);
        let y0 = (p.subrange(0, upper - 2), p.subrange(upper - 2, p.len() as int));
        assert(y0.0 + y0.1 =~= p);
        let ys = yields_from(p, upper);
        let rest = yields_from(p, upper - 2);
        assert(ys == seq![y0] + rest);
        assert(sep_count(p, upper - 1) == sep_count(p, upper - 3) + 1) by {
            assert(is_sep(p, upper - 2));
            assert(!is_sep(p, upper - 3));
            assert(sep_count(p, upper - 1) == sep_count(p, upper - 2) + 1);
            assert(sep_count(p, upper - 2) == sep_count(p, upper - 3));
        }
        assert forall|k: int| 0 <= k < ys.len() implies (#[trigger] ys[k]).0 + ys[k].1 == p by {
            if k > 0 {
                assert(ys[k] == rest[k - 1]);
            }
        }
        assert forall|k: int| 0 <= k < ys.len() implies ((#[trigger] ys[k]).1.len() >= 2
            && ys[k].1[0] == ':' && ys[k].1[1] == ':') by {
            if k > 0 {
                assert(ys[k] == rest[k - 1]);
            }
        }
    } else {
        lemma_yields_from_wf(p, upper - 1);
        assert(!is_sep(p, upper - 2));
    }
}

/// On a path over the path alphabet whose nonempty segments are separated
/// by `::`, the iterator produces exactly `segments(p)` pairs: the first is
/// the whole path with an empty suffix, every pair concatenates back to
/// `p`, and every suffix is empty or begins with `::`.
pub proof fn lemma_type_iteration(p: Seq<char>)
    requires
        is_path(p),
    ensures
        iter_yields(p).len() == segments(p),
        iter_yields(p)[0] == (p, Seq::<char>::empty()),
        forall|k: int|
            0 <= k < iter_yields(p).len() ==> (#[trigger] iter_yields(p)[k]).0 + iter_yields(
                p,
            )[k].1 == p,
        forall|k: int|
            0 <= k < iter_yields(p).len() ==> ((#[trigger] iter_yields(p)[k]).1.len() == 0 || (
            iter_yields(p)[k].1.len() >= 2 && iter_yields(p)[k].1[0] == ':' && iter_yields(
                p,
            )[k].1[1] == ':')),
{
    let n = p.len() as int;
    lemma_yields_from_wf(p, n - 1);
    let ys = iter_yields(p);
    let rest = yields_from(p, n - 1);
    assert(ys == seq![(p, Seq::<char>::empty())] + rest);
    assert(sep_count(p, n) == sep_count(p, n - 2)) by {
        assert(!is_sep(p, n - 1));
        assert(!is_sep(p, n - 2));
        assert(sep_count(p, n) == sep_count(p, n - 1));
        if n - 1 > 0 {
            assert(sep_count(p, n - 1) == sep_count(p, n - 2));
        }
    }
    assert(p + Seq::<char>::empty() =~= p);
    assert forall|k: int| 0 <= k < ys.len() implies (#[trigger] ys[k]).0 + ys[k].1 == p by {
        if k > 0 {
            assert(ys[k] == rest[k - 1]);
        }
    }
    assert forall|k: int| 0 <= k < ys.len() implies ((#[trigger] ys[k]).1.len() == 0 || (
    ys[k].1.len() >= 2 && ys[k].1[0] == ':' && ys[k].1[1] == ':')) by {
        if k > 0 {
            assert(ys[k] == rest[k - 1]);
        }
    }
}

/// A suffix-stripping iterator over a type path.
///
/// For `p = a::b::c` it produces `(a::b::c, "")`, `(a::b, "::c")`,
/// `(a, "::b::c")` and is then exhausted. The constructor expects a string
/// over the path alphabet; anything else is a programmer error.
#[derive(Clone, Copy, PartialEq, Eq)]
pub struct Type<'a> {
    path: &'a str,
    upper: usize,
    started: bool,
}

/// The pairs a `Type` iterator in this state still produces.
pub open spec fn remaining_yields(t: Type) -> Seq<(Seq<char>, Seq<char>)> {
    if !t.spec_started() {
        iter_yields(t.spec_path())
    } else {
        yields_from(t.spec_path(), t.spec_upper())
    }
}

impl<'a> Type<'a> {
    /// The characters of the path this iterator walks.
    pub closed spec fn spec_path(&self) -> Seq<char> {
        self.path@
    }

    /// The position below which the scan for the next `::` boundary runs.
    pub closed spec fn spec_upper(&self) -> int {
        self.upper as int
    }

    /// Whether the first pair (the whole path) has been produced.
    pub closed spec fn spec_started(&self) -> bool {
        self.started
    }

    /// The scan position never passes the end of the path.
    pub open spec fn wf(&self) -> bool {
        self.spec_upper() <= self.spec_path().len()
    }

    pub fn new(s: &'a str) -> (r: Self)
        requires
            forall|i: int| 0 <= i < s@.len() ==> is_path_char(#[trigger] s@[i]),
        ensures
            r.spec_path() == s@,
            !r.spec_started(),
            r.wf(),
    {
        Type { path: s, upper: 0, started: false }
    }

    /// The full underlying path; this is also its rendered form.
    pub fn as_str(&self) -> (r: &'a str)
        ensures
            r@ == self.spec_path(),
    {
        self.path
    }

    /// Produces the next prefix/suffix pair, or `None` once no `::`
    /// boundary remains.
    pub fn next(&mut self) -> (r: Option<(&'a str, &'a str)>)
        requires
            old(self).wf(),
        ensures
            final(self).wf(),
            final(self).spec_path() == old(self).spec_path(),
            final(self).spec_started(),
            match r {
                Some(y) => {
                    &&& remaining_yields(*old(self)) == seq![(y.0@, y.1@)] + remaining_yields(
                        *final(self),
                    )
                    &&& y.0@ + y.1@ == old(self).spec_path()
                },
                None => {
                    &&& remaining_yields(*old(self)).len() == 0
                    &&& remaining_yields(*final(self)).len() == 0
                },
            },
    {
        let ghost p = self.path@;
        if !self.started {
            self.started = true;
            let n = self.path.unicode_len();
            if n == 0 {
                self.upper = 0;
                return None;
            }
            self.upper = n - 1;
            proof {
                reveal_strlit("");
                assert(""@ =~= Seq::<char>::empty());
                assert(p + Seq::<char>::empty() =~= p);
                assert(seq![(p, ""@)] =~= seq![(p, Seq::<char>::empty())]);
            }
            return Some((self.path, ""));
        }
        let mut j: usize = self.upper;
        while j > 0 && self.path.get_char(j - 1) != ':'
            invariant
                j <= self.upper,
                self.upper <= p.len(),
                self.path@ == p,
                yields_from(p, self.upper as int) == yields_from(p, j as int),
            decreases j,
        {
            j = j - 1;
        }
        if j <= 1 {
            self.upper = 0;
            return None;
        }
        let split: usize = j - 2;
        self.upper = split;
        let n = self.path.unicode_len();
        let lpart = self.path.substring_char(0, split);
        let rpart = self.path.substring_char(split, n);
        proof {
            assert(p.subrange(0, split as int) + p.subrange(split as int, p.len() as int) =~= p);
            assert(seq![(lpart@, rpart@)] =~= seq![
                (p.subrange(0, j - 2), p.subrange(j - 2, p.len() as int)),
            ]);
        }
        Some((lpart, rpart))
    }
}

/// The unchanged input between the previous rewrite and the current
/// candidate; empty if the previous rewrite already covered the candidate's
/// left edge.
pub open spec fn gap(s: Seq<char>, last_end: int, left: int) -> Seq<char> {
    if last_end <= left {
        s.subrange(last_end, left)
    } else {
        Seq::empty()
    }
}

/// One step of the rewrite rule: if the prefix of the pair `y` is in the
/// keyword table, append the unchanged gap, the replacement and the pair's
/// suffix, and record that the candidate (ending at `right`) is covered.
pub open spec fn token_step(
    s: Seq<char>,
    left: int,
    right: int,
    y: (Seq<char>, Seq<char>),
    acc: Seq<char>,
    last_end: int,
) -> (Seq<char>, int) {
    match token_spec(y.0) {
        Some(rep) => (acc + gap(s, last_end, left) + rep + y.1, right),
        None => (acc, last_end),
    }
}

/// The rewrite rule applied to each pair of `ys` in turn, threading the
/// accumulator and the end of the last rewritten region.
pub open spec fn rewrite_yields(
    s: Seq<char>,
    left: int,
    right: int,
    ys: Seq<(Seq<char>, Seq<char>)>,
    acc: Seq<char>,
    last_end: int,
) -> (Seq<char>, int)
    decreases ys.len(),
{
    if ys.len() == 0 {
        (acc, last_end)
    } else {
        let st = token_step(s, left, right, ys[0], acc, last_end);
        rewrite_yields(s, left, right, ys.drop_first(), st.0, st.1)
    }
}

/// The effect of one candidate `s[left..right]` on the accumulator: every
/// prefix produced by the path iterator is tried against the keyword table,
/// longest first.
pub open spec fn rewrite_candidate(
    s: Seq<char>,
    left: int,
    right: int,
    acc: Seq<char>,
    last_end: int,
) -> (Seq<char>, int) {
    rewrite_yields(s, left, right, iter_yields(s.subrange(left, right)), acc, last_end)
}

/// The scanner from position `idx` to the end of the input: at each anchor
/// `::` the surrounding candidate is rewritten and scanning resumes just
/// past the candidate.
pub open spec fn scan_state(s: Seq<char>, idx: int, acc: Seq<char>, last_end: int) -> (
    Seq<char>,
    int,
)
    decreases s.len() + 1 - idx,
        via scan_state_dec
{
    if idx >= s.len() {
        (acc, last_end)
    } else if 0 <= idx && idx + 1 < s.len() && s[idx] == ':' && s[idx + 1] == ':' {
        let left = scan_left(s, idx);
        let right = scan_right(s, idx + 2);
        let st = rewrite_candidate(s, left, right, acc, last_end);
        scan_state(s, right + 1, st.0, st.1)
    } else {
        scan_state(s, idx + 1, acc, last_end)
    }
}

#[via_fn]
proof fn scan_state_dec(s: Seq<char>, idx: int, acc: Seq<char>, last_end: int) {
    if idx < s.len() && 0 <= idx && idx + 1 < s.len() && s[idx] == ':' && s[idx + 1] == ':' {
        lemma_scan_right_props(s, idx + 2);
    }
}

/// What the simplifier returns for input `s`: the input itself when no
/// prefix of any candidate is in the keyword table, otherwise the
/// accumulator followed by the tail after the last rewritten region.
pub open spec fn simplify_spec(s: Seq<char>) -> Seq<char> {
    let st = scan_state(s, 0, Seq::empty(), 0);
    if st.0.len() == 0 {
        s
    } else {
        st.0 + s.subrange(st.1, s.len() as int)
    }
}

/// A simplifier result: either a borrowed view of the input (nothing was
/// rewritten) or a freshly composed string.
pub enum SimplifiedStr<'a> {
    Borrowed(&'a str),
    Owned(String),
}

impl<'a> View for SimplifiedStr<'a> {
    type V = Seq<char>;

    open spec fn view(&self) -> Seq<char> {
        match self {
            SimplifiedStr::Borrowed(s) => s@,
            SimplifiedStr::Owned(s) => s@,
        }
    }
}

impl<'a> SimplifiedStr<'a> {
    /// The result as a string slice.
    pub fn as_str(&self) -> (r: &str)
        ensures
            r@ == self@,
    {
        match self {
            SimplifiedStr::Borrowed(s) => s,
            SimplifiedStr::Owned(s) => s.as_str(),
        }
    }

    /// Whether the result is a zero-copy view of the input.
    pub fn is_borrowed(&self) -> (r: bool)
        ensures
            r == (self is Borrowed),
    {
        match self {
            SimplifiedStr::Borrowed(_) => true,
            SimplifiedStr::Owned(_) => false,
        }
    }
}

/// Rewrites every recognised type path in `s` to its short form.
///
/// The result is a borrowed view of `s` exactly when no prefix of any
/// candidate path is in the keyword table; otherwise it is a newly composed
/// string equal to `simplify_spec(s@)`.
pub fn simplify_type<'a>(s: &'a str) -> (r: SimplifiedStr<'a>)
    ensures
        r@ == simplify_spec(s@),
        (r is Borrowed) <==> scan_state(s@, 0, Seq::empty(), 0).0.len() == 0,
        (r is Borrowed) ==> r@ == s@,
{
    let n = s.unicode_len();
    let mut idx: usize = 0;
    let mut last_end: usize = 0;
    let mut concat = String::new();
    while idx < n
        invariant
            n == s@.len(),
            idx <= n + 1,
            last_end <= n,
            scan_state(s@, idx as int, concat@, last_end as int) == scan_state(
                s@,
                0,
                Seq::empty(),
                0,
            ),
        decreases n + 1 - idx,
    {
        if idx + 1 < n && s.get_char(idx) == ':' && s.get_char(idx + 1) == ':' {
            let ghost acc0 = concat@;
            let ghost le0 = last_end as int;

            let mut left: usize = idx;
            while left > 0 && path_char(s.get_char(left - 1))
                invariant
                    left <= idx,
                    idx < n,
                    n == s@.len(),
                    scan_left(s@, idx as int) == scan_left(s@, left as int),
                decreases left,
            {
                left = left - 1;
            }
            proof {
                lemma_scan_left_props(s@, idx as int);
            }

            let mut right: usize = idx + 2;
            while right < n && path_char(s.get_char(right))
                invariant
                    idx + 2 <= right <= n,
                    n == s@.len(),
                    scan_right(s@, idx + 2) == scan_right(s@, right as int),
                decreases n - right,
            {
                right = right + 1;
            }
            proof {
                lemma_scan_right_props(s@, idx + 2);
            }

            let cand = s.substring_char(left, right);
            proof {
                assert(forall|k: int|
                    0 <= k < cand@.len() ==> is_path_char(#[trigger] cand@[k])) by {
                    assert(forall|k: int|
                        left <= k < right ==> is_path_char(#[trigger] s@[k]));
                }
            }
            let mut ty = Type::new(cand);
            let ghost target = rewrite_candidate(s@, left as int, right as int, acc0, le0);
            let mut done = false;
            while !done
                invariant
                    n == s@.len(),
                    left <= idx < n,
                    idx + 2 <= right <= n,
                    last_end <= n,
                    ty.wf(),
                    ty.spec_path() == s@.subrange(left as int, right as int),
                    (if done {
                        (concat@, last_end as int) == target
                    } else {
                        rewrite_yields(
                            s@,
                            left as int,
                            right as int,
                            remaining_yields(ty),
                            concat@,
                            last_end as int,
                        ) == target
                    }),
                decreases (if done {
                    0int
                } else {
                    remaining_yields(ty).len() + 1int
                }),
            {
                let ghost ys = remaining_yields(ty);
                match ty.next() {
                    None => {
                        done = true;
                    },
                    Some((lpart, rpart)) => {
                        let ghost y = (lpart@, rpart@);
                        proof {
                            assert(ys == seq![y] + remaining_yields(ty));
                            assert(ys[0] == y);
                            assert(ys.drop_first() =~= remaining_yields(ty));
                        }
                        match token_lookup(lpart) {
                            Some(rep) => {
                                if last_end <= left {
                                    concat.append(s.substring_char(last_end, left));
                                } else {
                                    proof {
                                        assert(concat@ + gap(s@, last_end as int, left as int)
                                            =~= concat@);
                                    }
                                }
                                concat.append(rep);
                                concat.append(rpart);
                                last_end = right;
                            },
                            None => {},
                        }
                    },
                }
            }
            proof {
                assert(scan_left(s@, idx as int) == left as int);
                assert(scan_right(s@, idx + 2) == right as int);
                assert(rewrite_candidate(s@, left as int, right as int, acc0, le0) == (
                    concat@,
                    last_end as int,
                ));
                assert(scan_state(s@, idx as int, acc0, le0) == scan_state(
                    s@,
                    right + 1,
                    concat@,
                    last_end as int,
                ));
                if right == n {
                    assert(scan_state(s@, right + 1, concat@, last_end as int) == (
                        concat@,
                        last_end as int,
                    ));
                    assert(scan_state(s@, n as int, concat@, last_end as int) == (
                        concat@,
                        last_end as int,
                    ));
                }
            }
            idx = if right < n {
                right + 1
            } else {
                n
            };
        } else {
            proof {
                assert(scan_state(s@, idx as int, concat@, last_end as int) == scan_state(
                    s@,
                    idx + 1,
                    concat@,
                    last_end as int,
                ));
            }
            idx = idx + 1;
        }
    }
    if concat.as_str().is_empty() {
        SimplifiedStr::Borrowed(s)
    } else {
        concat.append(s.substring_char(last_end, n));
        SimplifiedStr::Owned(concat)
    }
}

/// An input with no `::` anchor is never rewritten: the simplifier hands it
/// back as a borrowed view with identical characters.
pub proof fn lemma_no_anchor_borrowed(s: Seq<char>)
    requires
        forall|i: int| 0 <= i && i + 1 < s.len() ==> !(#[trigger] s[i] == ':' && s[i + 1] == ':'),
    ensures
        simplify_spec(s) == s,
        scan_state(s, 0, Seq::empty(), 0).0.len() == 0,
{
    lemma_scan_no_anchor(s, 0, Seq::empty(), 0);
}

proof fn lemma_scan_no_anchor(s: Seq<char>, idx: int, acc: Seq<char>, last_end: int)
    requires
        0 <= idx,
        forall|i: int| 0 <= i && i + 1 < s.len() ==> !(#[trigger] s[i] == ':' && s[i + 1] == ':'),
    ensures
        scan_state(s, idx, acc, last_end) == (acc, last_end),
    decreases s.len() + 1 - idx,
{
    if idx < s.len() {
        lemma_scan_no_anchor(s, idx + 1, acc, last_end);
    }
}

} // verus!
