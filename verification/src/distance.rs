//! Character-level Levenshtein distance between two signatures, with the
//! early cut-off that rename detection relies on (it only asks "≤ 8?").

use vstd::prelude::*;
use crate::text::chars_of;

verus! {

/// Edit distance between the first `i` characters of `s` and the first `j`
/// characters of `l` (insert, delete and substitute each cost 1).
pub open spec fn lev(s: Seq<char>, l: Seq<char>, i: nat, j: nat) -> nat
    decreases i, j,
{
    if i == 0 {
        j
    } else if j == 0 {
        i
    } else if s[i - 1] == l[j - 1] {
        lev(s, l, (i - 1) as nat, (j - 1) as nat)
    } else {
        let d = lev(s, l, (i - 1) as nat, (j - 1) as nat);
        let ins = lev(s, l, i, (j - 1) as nat);
        let del = lev(s, l, (i - 1) as nat, j);
        1 + if d <= ins && d <= del {
            d
        } else if ins <= del {
            ins
        } else {
            del
        }
    }
}

/// Edit distance between two whole sequences, computed with the shorter one
/// as rows.
pub open spec fn edit_distance_spec(a: Seq<char>, b: Seq<char>) -> nat {
    if a.len() > b.len() {
        lev(b, a, b.len(), a.len())
    } else {
        lev(a, b, a.len(), b.len())
    }
}

/// The smallest of `lev(s, l, i, k)` for `k <= j`.
pub open spec fn row_min_spec(s: Seq<char>, l: Seq<char>, i: nat, j: nat) -> nat
    decreases j,
{
    if j == 0 {
        lev(s, l, i, 0)
    } else {
        let m = row_min_spec(s, l, i, (j - 1) as nat);
        let v = lev(s, l, i, j);
        if v < m {
            v
        } else {
            m
        }
    }
}

/// The row-by-row computation from row `i` on: 9 as soon as a whole row
/// (over all of `l`) exceeds 8, else the distance itself.
pub open spec fn capped_from(s: Seq<char>, l: Seq<char>, i: nat) -> nat
    decreases s.len() - i,
{
    if i >= s.len() {
        lev(s, l, s.len(), l.len())
    } else if row_min_spec(s, l, i + 1, l.len()) > 8 {
        9
    } else {
        capped_from(s, l, i + 1)
    }
}

/// What [`edit_distance`] returns: the distance, computed with the shorter
/// sequence as rows and cut off with 9 at the first row that exceeds 8
/// everywhere.
pub open spec fn capped_distance(a: Seq<char>, b: Seq<char>) -> nat {
    if a.len() > b.len() {
        capped_from(b, a, 0)
    } else {
        capped_from(a, b, 0)
    }
}

proof fn lemma_lev_bound(s: Seq<char>, l: Seq<char>, i: nat, j: nat)
    ensures
        lev(s, l, i, j) <= if i <= j { j } else { i },
    decreases i, j,
{
    if i > 0 && j > 0 {
        lemma_lev_bound(s, l, (i - 1) as nat, (j - 1) as nat);
        lemma_lev_bound(s, l, i, (j - 1) as nat);
        lemma_lev_bound(s, l, (i - 1) as nat, j);
    }
}

/// When a whole row exceeds `t`, so does every entry of the next row.
proof fn lemma_next_row_above(s: Seq<char>, l: Seq<char>, i: nat, t: nat, j: nat)
    requires
        forall|k: nat| k <= j ==> #[trigger] lev(s, l, i, k) > t,
    ensures
        forall|k: nat| k <= j ==> #[trigger] lev(s, l, i + 1, k) > t,
    decreases j,
{
    if j > 0 {
        lemma_next_row_above(s, l, i, t, (j - 1) as nat);
    }
    assert(lev(s, l, i + 1, j) > t) by {
        if j > 0 {
            assert(lev(s, l, i + 1, (j - 1) as nat) > t);
            assert(lev(s, l, i, (j - 1) as nat) > t);
            assert(lev(s, l, i, j) > t);
        } else {
            assert(lev(s, l, i, 0) > t);
        }
    }
}

/// Once a row exceeds `t` everywhere, the final distance does too.
proof fn lemma_rows_stay_above(s: Seq<char>, l: Seq<char>, i: nat, n: nat, m: nat, t: nat)
    requires
        i <= n,
        forall|k: nat| k <= m ==> #[trigger] lev(s, l, i, k) > t,
    ensures
        lev(s, l, n, m) > t,
    decreases n - i,
{
    if i < n {
        lemma_next_row_above(s, l, i, t, m);
        lemma_rows_stay_above(s, l, i + 1, n, m, t);
    }
}

/// The smaller of three.
fn min3(a: usize, b: usize, c: usize) -> (r: usize)
    ensures
        r == if a <= b && a <= c { a } else if b <= c { b } else { c },
{
    if a <= b && a <= c {
        a
    } else if b <= c {
        b
    } else {
        c
    }
}

/// Levenshtein over `short` (rows) and `long` (columns); stops with 9 as
/// soon as a whole row exceeds 8.
fn edit_distance_inner(short: &Vec<char>, long: &Vec<char>) -> (r: usize)
    requires
        short@.len() <= long@.len(),
    ensures
        r == capped_from(short@, long@, 0),
        r <= 8 ==> r == lev(short@, long@, short@.len(), long@.len()),
        r > 8 <==> lev(short@, long@, short@.len(), long@.len()) > 8,
{
    let ghost s = short@;
    let ghost l = long@;
    let m = long.len();
    let mut prev: Vec<usize> = Vec::new();
    let mut j: usize = 0;
    loop
        invariant_except_break
            j <= m,
            prev@.len() == j,
            forall|k: int| 0 <= k < j ==> prev@[k] == k,
        invariant
            m == l.len(),
        ensures
            prev@.len() == m + 1,
            forall|k: int| 0 <= k <= m ==> prev@[k] == k,
        decreases m - j,
    {
        prev.push(j);
        if j == m {
            break;
        }
        j = j + 1;
    }
    let mut curr: Vec<usize> = prev.clone();
    let mut i: usize = 0;
    while i < short.len()
        invariant
            i <= s.len(),
            s == short@,
            l == long@,
            m == l.len(),
            s.len() <= l.len(),
            prev@.len() == m + 1,
            curr@.len() == m + 1,
            forall|k: int| 0 <= k <= m ==> prev@[k] == lev(s, l, i as nat, k as nat),
            capped_from(s, l, 0) == capped_from(s, l, i as nat),
        decreases s.len() - i,
    {
        let ca = short[i];
        curr.set(0, i + 1);
        let mut row_min: usize = i + 1;
        let mut jj: usize = 0;
        while jj < m
            invariant
                i < s.len(),
                s == short@,
                l == long@,
                m == l.len(),
                s.len() <= l.len(),
                jj <= m,
                ca == s[i as int],
                prev@.len() == m + 1,
                curr@.len() == m + 1,
                forall|k: int| 0 <= k <= m ==> prev@[k] == lev(s, l, i as nat, k as nat),
                forall|k: int| 0 <= k <= jj ==> curr@[k] == lev(s, l, (i + 1) as nat, k as nat),
                forall|k: int| 0 <= k <= jj ==> row_min <= curr@[k],
                row_min == row_min_spec(s, l, (i + 1) as nat, jj as nat),
            decreases m - jj,
        {
            let cb = long[jj];
            let v = if ca == cb {
                prev[jj]
            } else {
                let mn = min3(prev[jj], curr[jj], prev[jj + 1]);
                proof {
                    lemma_lev_bound(s, l, (i + 1) as nat, (jj + 1) as nat);
                }
                1 + mn
            };
            assert(v == lev(s, l, (i + 1) as nat, (jj + 1) as nat));
            curr.set(jj + 1, v);
            if v < row_min {
                row_min = v;
            }
            jj = jj + 1;
        }
        if row_min > 8 {
            proof {
                assert forall|k: nat| k <= m implies #[trigger] lev(s, l, (i + 1) as nat, k) > 8 by {
                    assert(curr@[k as int] == lev(s, l, (i + 1) as nat, k));
                }
                lemma_rows_stay_above(s, l, (i + 1) as nat, s.len(), m as nat, 8);
            }
            return 9;
        }
        let tmp = prev;
        prev = curr;
        curr = tmp;
        i = i + 1;
    }
    prev[m]
}

/// Levenshtein distance between `a` and `b`, exact up to 8; an answer above
/// 8 means "more than 8" (9 when a whole row of the computation already
/// exceeded 8, else the distance itself).
pub fn edit_distance(a: &str, b: &str) -> (r: usize)
    ensures
        r == capped_distance(a@, b@),
        r <= 8 ==> r == edit_distance_spec(a@, b@),
        r > 8 <==> edit_distance_spec(a@, b@) > 8,
{
    let va = chars_of(a);
    let vb = chars_of(b);
    if va.len() > vb.len() {
        return edit_distance_inner(&vb, &va);
    }
    edit_distance_inner(&va, &vb)
}

/// The distance does not depend on which sequence is read along the rows.
proof fn lemma_lev_symmetric(s: Seq<char>, l: Seq<char>, i: nat, j: nat)
    ensures
        lev(s, l, i, j) == lev(l, s, j, i),
    decreases i + j,
{
    if i > 0 && j > 0 {
        lemma_lev_symmetric(s, l, (i - 1) as nat, (j - 1) as nat);
        lemma_lev_symmetric(s, l, i, (j - 1) as nat);
        lemma_lev_symmetric(s, l, (i - 1) as nat, j);
    }
}

/// The row minimum is at most every entry of the row up to `j`.
proof fn lemma_row_min_le(s: Seq<char>, l: Seq<char>, i: nat, j: nat, k: nat)
    requires
        k <= j,
    ensures
        row_min_spec(s, l, i, j) <= lev(s, l, i, k),
    decreases j,
{
    if k < j {
        lemma_row_min_le(s, l, i, (j - 1) as nat, k);
    }
}

/// The cut-off computation gives the distance itself, or 9 when the
/// distance exceeds 8.
proof fn lemma_capped_from(s: Seq<char>, l: Seq<char>, i: nat)
    ensures
        capped_from(s, l, i) == lev(s, l, s.len(), l.len()) || (capped_from(s, l, i) == 9 && lev(
            s,
            l,
            s.len(),
            l.len(),
        ) > 8),
    decreases s.len() - i,
{
    if i < s.len() {
        if row_min_spec(s, l, i + 1, l.len()) > 8 {
            assert forall|k: nat| k <= l.len() implies #[trigger] lev(s, l, i + 1, k) > 8 by {
                lemma_row_min_le(s, l, i + 1, l.len(), k);
            }
            lemma_rows_stay_above(s, l, i + 1, s.len(), l.len(), 8);
        } else {
            lemma_capped_from(s, l, i + 1);
        }
    }
}

/// Edit distance is symmetric, and so is what [`edit_distance`] answers
/// whenever the distance is at most 8: `edit_distance(a, b)` is at most 8
/// exactly when `edit_distance(b, a)` is, and then both are the distance.
/// (Above 8 the cut-off may answer 9 in one order and the distance in the
/// other.)
pub proof fn law_edit_distance_symmetric(a: Seq<char>, b: Seq<char>)
    ensures
        edit_distance_spec(a, b) == edit_distance_spec(b, a),
        capped_distance(a, b) <= 8 <==> edit_distance_spec(a, b) <= 8,
        capped_distance(a, b) <= 8 ==> capped_distance(a, b) == edit_distance_spec(a, b),
        capped_distance(a, b) <= 8 <==> capped_distance(b, a) <= 8,
        capped_distance(a, b) <= 8 ==> capped_distance(a, b) == capped_distance(b, a),
{
    lemma_lev_symmetric(a, b, a.len(), b.len());
    lemma_capped_from(a, b, 0);
    lemma_capped_from(b, a, 0);
}

} // verus!
