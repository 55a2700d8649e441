//! Character-sequence helpers shared by the rest of the library: ordering,
//! the `::` path separator, substring search, whitespace.

use vstd::prelude::*;

verus! {

/// Strict lexicographic order on character sequences, by code point. This is
/// the order `Ord for str` uses: UTF-8 byte order coincides with code-point
/// order.
pub open spec fn seq_lt(a: Seq<char>, b: Seq<char>) -> bool
    decreases a.len(),
{
    if b.len() == 0 {
        false
    } else if a.len() == 0 {
        true
    } else if a[0] != b[0] {
        (a[0] as int) < (b[0] as int)
    } else {
        seq_lt(a.drop_first(), b.drop_first())
    }
}

/// `a` sorts no later than `b`.
pub open spec fn seq_le(a: Seq<char>, b: Seq<char>) -> bool {
    !seq_lt(b, a)
}

pub proof fn lemma_seq_lt_irreflexive(a: Seq<char>)
    ensures
        !seq_lt(a, a),
    decreases a.len(),
{
    if a.len() > 0 {
        lemma_seq_lt_irreflexive(a.drop_first());
    }
}

pub proof fn lemma_seq_lt_transitive(a: Seq<char>, b: Seq<char>, c: Seq<char>)
    requires
        seq_lt(a, b),
        seq_lt(b, c),
    ensures
        seq_lt(a, c),
    decreases a.len(),
{
    if a.len() > 0 && a[0] == b[0] && b[0] == c[0] {
        lemma_seq_lt_transitive(a.drop_first(), b.drop_first(), c.drop_first());
    }
}

/// Any two distinct sequences are ordered one way or the other.
pub proof fn lemma_seq_lt_total(a: Seq<char>, b: Seq<char>)
    ensures
        a == b || seq_lt(a, b) || seq_lt(b, a),
    decreases a.len(),
{
    if a.len() > 0 && b.len() > 0 {
        if a[0] == b[0] {
            lemma_seq_lt_total(a.drop_first(), b.drop_first());
            if a.drop_first() == b.drop_first() {
                assert(a =~= seq![a[0]] + a.drop_first());
                assert(b =~= seq![b[0]] + b.drop_first());
            }
        } else {
            assert((a[0] as int) != (b[0] as int));
        }
    } else if a.len() == 0 && b.len() == 0 {
        assert(a =~= b);
    }
}

pub proof fn lemma_seq_lt_asymmetric(a: Seq<char>, b: Seq<char>)
    requires
        seq_lt(a, b),
    ensures
        !seq_lt(b, a),
{
    if seq_lt(b, a) {
        lemma_seq_lt_transitive(a, b, a);
        lemma_seq_lt_irreflexive(a);
    }
}

/// The characters of `s`, one element per `char`.
pub fn chars_of(s: &str) -> (v: Vec<char>)
    ensures
        v@ == s@,
{
    let n = s.unicode_len();
    let mut v: Vec<char> = Vec::new();
    for i in 0..n
        invariant
            n == s@.len(),
            v@ == s@.take(i as int),
    {
        v.push(s.get_char(i));
        assert(v@ =~= s@.take(i + 1));
    }
    assert(v@ =~= s@);
    v
}

/// Exec form of [`seq_lt`] on two character vectors.
pub fn chars_lt(a: &Vec<char>, b: &Vec<char>) -> (r: bool)
    ensures
        r == seq_lt(a@, b@),
{
    let mut i: usize = 0;
    assert(a@.skip(0) =~= a@);
    assert(b@.skip(0) =~= b@);
    while i < a.len() && i < b.len()
        invariant
            i <= a@.len(),
            i <= b@.len(),
            a@.take(i as int) == b@.take(i as int),
            seq_lt(a@, b@) == seq_lt(a@.skip(i as int), b@.skip(i as int)),
        decreases a@.len() - i,
    {
        let ca = a[i];
        let cb = b[i];
        if ca != cb {
            assert(a@.skip(i as int)[0] == ca && b@.skip(i as int)[0] == cb);
            let lt = ca < cb;
            return lt;
        }
        assert(a@.skip(i as int).drop_first() =~= a@.skip(i + 1));
        assert(b@.skip(i as int).drop_first() =~= b@.skip(i + 1));
        assert(a@.take(i + 1) =~= a@.take(i as int).push(a@[i as int]));
        assert(b@.take(i + 1) =~= b@.take(i as int).push(b@[i as int]));
        i = i + 1;
    }
    i < b.len()
}

/// Exec form of [`seq_lt`] on two strings.
pub fn str_lt(a: &str, b: &str) -> (r: bool)
    ensures
        r == seq_lt(a@, b@),
{
    let va = chars_of(a);
    let vb = chars_of(b);
    chars_lt(&va, &vb)
}

/// Exec character-sequence equality of two strings.
pub fn str_eq(a: &str, b: &str) -> (r: bool)
    ensures
        r == (a@ == b@),
{
    let va = chars_of(a);
    let vb = chars_of(b);
    if va.len() != vb.len() {
        return false;
    }
    let mut i: usize = 0;
    while i < va.len()
        invariant
            va@.len() == vb@.len(),
            i <= va@.len(),
            va@ == a@,
            vb@ == b@,
            va@.take(i as int) == vb@.take(i as int),
        decreases va@.len() - i,
    {
        if va[i] != vb[i] {
            return false;
        }
        assert(va@.take(i + 1) =~= va@.take(i as int).push(va@[i as int]));
        assert(vb@.take(i + 1) =~= vb@.take(i as int).push(vb@[i as int]));
        i = i + 1;
    }
    assert(va@ =~= va@.take(i as int));
    assert(vb@ =~= vb@.take(i as int));
    true
}

/// Appends one character (std's `String::push`).
#[verifier::external_body]
pub(crate) fn push_char(s: &mut String, c: char)
    ensures
        final(s)@ == old(s)@.push(c),
{
    s.push(c);
}

/// The string whose characters are `v`.
pub fn string_from_chars(v: &Vec<char>) -> (s: String)
    ensures
        s@ == v@,
{
    let mut s = String::new();
    for i in 0..v.len()
        invariant
            s@ == v@.take(i as int),
    {
        push_char(&mut s, v[i]);
        assert(s@ =~= v@.take(i + 1));
    }
    assert(v@.take(v@.len() as int) =~= v@);
    s
}

/// A `::` separator starts at `i`.
pub open spec fn is_sep_at(s: Seq<char>, i: int) -> bool {
    0 <= i && i + 2 <= s.len() && s[i] == ':' && s[i + 1] == ':'
}

/// Start of the last `::` that starts at or before `end` (what `rfind("::")`
/// finds when `end == len - 2`).
pub open spec fn rfind_sep_from(s: Seq<char>, end: int) -> Option<int>
    decreases end + 1,
{
    if end < 0 {
        None
    } else if is_sep_at(s, end) {
        Some(end)
    } else {
        rfind_sep_from(s, end - 1)
    }
}

/// Start of the last `::` in `s` (`str::rfind("::")`).
pub open spec fn rfind_sep(s: Seq<char>) -> Option<int> {
    rfind_sep_from(s, s.len() - 2)
}

/// Everything before the last `::`; empty when there is none.
pub open spec fn parent_spec(s: Seq<char>) -> Seq<char> {
    match rfind_sep(s) {
        Some(i) => s.take(i),
        None => Seq::empty(),
    }
}

/// Everything after the last `::`; the whole path when there is none.
pub open spec fn leaf_spec(s: Seq<char>) -> Seq<char> {
    match rfind_sep(s) {
        Some(i) => s.skip(i + 2),
        None => s,
    }
}

proof fn lemma_rfind_sep_from_bounds(s: Seq<char>, end: int)
    ensures
        rfind_sep_from(s, end) matches Some(i) ==> is_sep_at(s, i) && i <= end,
        rfind_sep_from(s, end) is None ==> forall|k: int| 0 <= k <= end ==> !is_sep_at(s, k),
    decreases end + 1,
{
    if end >= 0 && !is_sep_at(s, end) {
        lemma_rfind_sep_from_bounds(s, end - 1);
    }
}

/// Exec [`rfind_sep`] over a character vector.
pub fn rfind_sep_chars(v: &Vec<char>) -> (r: Option<usize>)
    ensures
        r matches Some(i) ==> rfind_sep(v@) == Some(i as int),
        r is None ==> rfind_sep(v@) is None,
        r matches Some(i) ==> i + 2 <= v@.len(),
{
    if v.len() < 2 {
        return None;
    }
    let mut end: usize = v.len() - 1;
    // invariant: rfind_sep(v) == rfind_sep_from(v, end - 1)
    while end > 0
        invariant
            end < v@.len(),
            rfind_sep(v@) == rfind_sep_from(v@, end - 1),
        decreases end,
    {
        let i = end - 1;
        if v[i] == ':' && v[i + 1] == ':' {
            assert(is_sep_at(v@, i as int));
            return Some(i);
        }
        end = end - 1;
    }
    None
}

/// Parent path: everything before the last `::`, or empty.
pub fn parent_of(path: &str) -> (r: String)
    ensures
        r@ == parent_spec(path@),
{
    let v = chars_of(path);
    match rfind_sep_chars(&v) {
        Some(i) => {
            let mut out: Vec<char> = Vec::new();
            for k in 0..i
                invariant
                    i <= v@.len(),
                    out@ == v@.take(k as int),
            {
                out.push(v[k]);
                assert(out@ =~= v@.take(k + 1));
            }
            string_from_chars(&out)
        },
        None => String::new(),
    }
}

/// Leaf segment: everything after the last `::`, or the whole path.
pub fn leaf_of(path: &str) -> (r: String)
    ensures
        r@ == leaf_spec(path@),
{
    let v = chars_of(path);
    match rfind_sep_chars(&v) {
        Some(i) => {
            let mut out: Vec<char> = Vec::new();
            let start = i + 2;
            for k in start..v.len()
                invariant
                    start <= v@.len(),
                    out@ == v@.subrange(start as int, k as int),
            {
                out.push(v[k]);
                assert(out@ =~= v@.subrange(start as int, k + 1));
            }
            assert(out@ =~= v@.skip(start as int));
            string_from_chars(&out)
        },
        None => String::from_str(path),
    }
}

} // verus!

verus! {

/// `needle` occurs in `hay` starting at `i`.
pub open spec fn occurs_at(hay: Seq<char>, needle: Seq<char>, i: int) -> bool {
    0 <= i && i + needle.len() <= hay.len() && hay.subrange(i, i + needle.len()) == needle
}

/// `needle` occurs somewhere in `hay` (`str::contains`).
pub open spec fn contains_spec(hay: Seq<char>, needle: Seq<char>) -> bool {
    exists|i: int| occurs_at(hay, needle, i)
}

/// What occurs in `x` occurs in `p + x + q`.
pub proof fn lemma_contains_within(p: Seq<char>, x: Seq<char>, q: Seq<char>, needle: Seq<char>)
    requires
        contains_spec(x, needle),
    ensures
        contains_spec(p + x + q, needle),
{
    let i = choose|i: int| occurs_at(x, needle, i);
    assert((p + x + q).subrange(p.len() + i, p.len() + i + needle.len()) =~= x.subrange(i, i + needle.len()));
    assert(occurs_at(p + x + q, needle, p.len() + i));
}

/// Every sequence occurs in itself.
pub proof fn lemma_contains_self(x: Seq<char>)
    ensures
        contains_spec(x, x),
{
    assert(x.subrange(0, x.len() as int) =~= x);
    assert(occurs_at(x, x, 0));
}

/// Exec test of [`occurs_at`].
pub fn occurs_at_exec(hay: &Vec<char>, needle: &Vec<char>, i: usize) -> (r: bool)
    ensures
        r == occurs_at(hay@, needle@, i as int),
{
    if i > hay.len() || needle.len() > hay.len() - i {
        return false;
    }
    let hl = hay.len();
    let mut k: usize = 0;
    while k < needle.len()
        invariant
            hl == hay@.len(),
            i + needle@.len() <= hay@.len(),
            k <= needle@.len(),
            forall|m: int| 0 <= m < k ==> hay@[i + m] == needle@[m],
        decreases needle@.len() - k,
    {
        assert(i + k < hay@.len());
        if hay[i + k] != needle[k] {
            assert(hay@.subrange(i as int, i + needle@.len())[k as int] != needle@[k as int]);
            return false;
        }
        k = k + 1;
    }
    assert(hay@.subrange(i as int, i + needle@.len()) =~= needle@);
    true
}

/// Exec [`contains_spec`] over character vectors.
pub fn contains_chars(hay: &Vec<char>, needle: &Vec<char>) -> (r: bool)
    ensures
        r == contains_spec(hay@, needle@),
{
    let mut i: usize = 0;
    while i < hay.len()
        invariant
            i <= hay@.len(),
            forall|m: int| 0 <= m < i ==> !occurs_at(hay@, needle@, m),
        decreases hay@.len() - i,
    {
        if occurs_at_exec(hay, needle, i) {
            return true;
        }
        i = i + 1;
    }
    if occurs_at_exec(hay, needle, i) {
        return true;
    }
    assert forall|m: int| !occurs_at(hay@, needle@, m) by {
        if 0 <= m && m <= i {
        } else if m > i {
            assert(m + needle@.len() > hay@.len());
        }
    }
    false
}

/// `char::is_whitespace`: the Unicode `White_Space` property.
pub open spec fn is_whitespace_spec(c: char) -> bool {
    let u = c as int;
    ||| 0x09 <= u <= 0x0D
    ||| u == 0x20
    ||| u == 0x85
    ||| u == 0xA0
    ||| u == 0x1680
    ||| 0x2000 <= u <= 0x200A
    ||| u == 0x2028
    ||| u == 0x2029
    ||| u == 0x202F
    ||| u == 0x205F
    ||| u == 0x3000
}

/// Exec [`is_whitespace_spec`].
pub fn is_whitespace(c: char) -> (r: bool)
    ensures
        r == is_whitespace_spec(c),
{
    ('\u{09}' <= c && c <= '\u{0D}') || c == ' ' || c == '\u{85}' || c == '\u{A0}' || c == '\u{1680}'
        || ('\u{2000}' <= c && c <= '\u{200A}') || c == '\u{2028}' || c == '\u{2029}'
        || c == '\u{202F}' || c == '\u{205F}' || c == '\u{3000}'
}

/// `s` with every whitespace character dropped (what
/// `s.split_whitespace().collect::<String>()` yields).
pub open spec fn strip_whitespace(s: Seq<char>) -> Seq<char>
    decreases s.len(),
{
    if s.len() == 0 {
        s
    } else if is_whitespace_spec(s.last()) {
        strip_whitespace(s.drop_last())
    } else {
        strip_whitespace(s.drop_last()).push(s.last())
    }
}

/// Exec [`strip_whitespace`] over a character vector.
pub fn strip_whitespace_chars(v: &Vec<char>) -> (r: Vec<char>)
    ensures
        r@ == strip_whitespace(v@),
{
    let mut out: Vec<char> = Vec::new();
    for i in 0..v.len()
        invariant
            out@ == strip_whitespace(v@.take(i as int)),
    {
        assert(v@.take(i + 1).drop_last() =~= v@.take(i as int));
        assert(v@.take(i + 1).last() == v@[i as int]);
        if !is_whitespace(v[i]) {
            out.push(v[i]);
        }
    }
    assert(v@.take(v@.len() as int) =~= v@);
    out
}

/// The elements of `parts` joined with `sep` (`[String]::join`).
pub open spec fn join_spec(parts: Seq<Seq<char>>, sep: Seq<char>) -> Seq<char>
    decreases parts.len(),
{
    if parts.len() == 0 {
        Seq::empty()
    } else if parts.len() == 1 {
        parts[0]
    } else {
        join_spec(parts.drop_last(), sep) + sep + parts.last()
    }
}

/// Exec [`join_spec`] over a list of strings.
pub fn join_strings(parts: &Vec<String>, sep: &str) -> (r: String)
    ensures
        r@ == join_spec(parts@.map_values(|p: String| p@), sep@),
{
    let ghost pv = parts@.map_values(|p: String| p@);
    let mut out = String::new();
    for i in 0..parts.len()
        invariant
            pv == parts@.map_values(|p: String| p@),
            out@ == join_spec(pv.take(i as int), sep@),
    {
        assert(pv.take(i + 1).drop_last() =~= pv.take(i as int));
        assert(pv.take(i + 1).last() == parts@[i as int]@);
        if i > 0 {
            out.append(sep);
        } else {
            assert(pv.take(0) =~= Seq::<Seq<char>>::empty());
            assert(out@ =~= Seq::<char>::empty());
        }
        out.append(parts[i].as_str());
        if i == 0 {
            assert(out@ =~= pv.take(1)[0]);
        }
    }
    assert(pv.take(parts@.len() as int) =~= pv);
    out
}

} // verus!

verus! {

/// `s` begins with `p`.
pub open spec fn starts_with(s: Seq<char>, p: Seq<char>) -> bool {
    p.len() <= s.len() && s.take(p.len() as int) == p
}

/// Every non-overlapping occurrence of `p` in `s`, left to right, replaced
/// by `r` (`str::replace`); an empty `p` matches before every character and
/// at the end.
pub open spec fn replace_spec(s: Seq<char>, p: Seq<char>, r: Seq<char>) -> Seq<char>
    decreases s.len(),
{
    if p.len() == 0 {
        if s.len() == 0 {
            r
        } else {
            r + seq![s[0]] + replace_spec(s.drop_first(), p, r)
        }
    } else if s.len() == 0 {
        Seq::empty()
    } else if starts_with(s, p) {
        r + replace_spec(s.skip(p.len() as int), p, r)
    } else {
        seq![s[0]] + replace_spec(s.drop_first(), p, r)
    }
}

/// Appends every element of `r` to `out`.
pub fn push_all(out: &mut Vec<char>, r: &Vec<char>)
    ensures
        final(out)@ == old(out)@ + r@,
{
    let ghost start = out@;
    for k in 0..r.len()
        invariant
            out@ == start + r@.take(k as int),
    {
        out.push(r[k]);
        assert(out@ =~= start + r@.take(k + 1));
    }
    assert(r@.take(r@.len() as int) =~= r@);
}

/// Exec [`replace_spec`] over character vectors.
pub fn replace_chars(s: &Vec<char>, p: &Vec<char>, r: &Vec<char>) -> (out: Vec<char>)
    ensures
        out@ == replace_spec(s@, p@, r@),
{
    let mut out: Vec<char> = Vec::new();
    let mut i: usize = 0;
    assert(s@.skip(0) =~= s@);
    while i < s.len()
        invariant
            i <= s@.len(),
            replace_spec(s@, p@, r@) == out@ + replace_spec(s@.skip(i as int), p@, r@),
        decreases s@.len() - i,
    {
        let ghost rest = s@.skip(i as int);
        assert(rest[0] == s@[i as int]);
        assert(rest.drop_first() =~= s@.skip(i + 1));
        if p.len() > 0 && occurs_at_exec(s, p, i) {
            assert(rest.take(p@.len() as int) =~= s@.subrange(i as int, i + p@.len()));
            assert(rest.skip(p@.len() as int) =~= s@.skip(i + p@.len()));
            let ghost before = out@;
            push_all(&mut out, r);
            assert(out@ + replace_spec(s@.skip(i + p@.len()), p@, r@) =~= before + (r@ + replace_spec(rest.skip(p@.len() as int), p@, r@)));
            i = i + p.len();
        } else {
            let ghost before = out@;
            if p.len() == 0 {
                push_all(&mut out, r);
            } else {
                proof {
                    if starts_with(rest, p@) {
                        assert(rest.take(p@.len() as int) =~= s@.subrange(i as int, i + p@.len()));
                    }
                }
            }
            out.push(s[i]);
            if p.len() == 0 {
                assert(out@ + replace_spec(s@.skip(i + 1), p@, r@) =~= before + (r@ + seq![rest[0]] + replace_spec(rest.drop_first(), p@, r@)));
            } else {
                assert(out@ + replace_spec(s@.skip(i + 1), p@, r@) =~= before + (seq![rest[0]] + replace_spec(rest.drop_first(), p@, r@)));
            }
            i = i + 1;
        }
    }
    let ghost before = out@;
    assert(s@.skip(i as int).len() == 0);
    if p.len() == 0 {
        push_all(&mut out, r);
        assert(out@ =~= before + r@);
    } else {
        assert(out@ =~= before + Seq::<char>::empty());
    }
    out
}

} // verus!

verus! {

/// Exec equality of two character vectors.
pub fn chars_eq(a: &Vec<char>, b: &Vec<char>) -> (r: bool)
    ensures
        r == (a@ == b@),
{
    if a.len() != b.len() {
        return false;
    }
    let mut i: usize = 0;
    while i < a.len()
        invariant
            a@.len() == b@.len(),
            i <= a@.len(),
            a@.take(i as int) == b@.take(i as int),
        decreases a@.len() - i,
    {
        if a[i] != b[i] {
            return false;
        }
        assert(a@.take(i + 1) =~= a@.take(i as int).push(a@[i as int]));
        assert(b@.take(i + 1) =~= b@.take(i as int).push(b@[i as int]));
        i = i + 1;
    }
    assert(a@ =~= a@.take(i as int));
    assert(b@ =~= b@.take(i as int));
    true
}

/// The decimal digit `d` (0 to 9) as a character.
pub open spec fn digit_spec(d: int) -> char {
    if d == 0 { '0' } else if d == 1 { '1' } else if d == 2 { '2' } else if d == 3 { '3' }
    else if d == 4 { '4' } else if d == 5 { '5' } else if d == 6 { '6' } else if d == 7 { '7' }
    else if d == 8 { '8' } else { '9' }
}

/// Exec [`digit_spec`].
pub fn digit(d: u32) -> (c: char)
    requires
        d < 10,
    ensures
        c == digit_spec(d as int),
{
    if d == 0 { '0' } else if d == 1 { '1' } else if d == 2 { '2' } else if d == 3 { '3' }
    else if d == 4 { '4' } else if d == 5 { '5' } else if d == 6 { '6' } else if d == 7 { '7' }
    else if d == 8 { '8' } else { '9' }
}

} // verus!

verus! {

/// Decimal rendering of `n` (what `{}` prints for an unsigned integer).
pub open spec fn decimal(n: nat) -> Seq<char>
    decreases n,
{
    if n < 10 {
        seq![digit_spec(n as int)]
    } else {
        decimal(n / 10).push(digit_spec((n % 10) as int))
    }
}

/// Appends the decimal rendering of `n` to `s`.
pub fn push_decimal(s: &mut String, n: u64)
    ensures
        final(s)@ == old(s)@ + decimal(n as nat),
    decreases n,
{
    if n >= 10 {
        push_decimal(s, n / 10);
    }
    push_char(s, digit((n % 10) as u32));
    assert(n >= 10 ==> (n / 10) as nat == (n as nat) / 10);
}

/// The first `k` characters of `s` (`s.chars().take(k).collect()`).
pub fn take_chars(s: &str, k: usize) -> (r: String)
    ensures
        r@ == if s@.len() <= k { s@ } else { s@.take(k as int) },
{
    let v = chars_of(s);
    let n = if v.len() <= k { v.len() } else { k };
    let mut out: Vec<char> = Vec::new();
    for i in 0..n
        invariant
            n <= v@.len(),
            out@ == v@.take(i as int),
    {
        out.push(v[i]);
        assert(out@ =~= v@.take(i + 1));
    }
    assert(v@.len() <= k ==> v@.take(n as int) =~= v@);
    string_from_chars(&out)
}

} // verus!
