//! Character-sequence helpers shared by the rest of the library.

use vstd::prelude::*;

verus! {

/// Appends one character to a `String` (std's `String::push`).
/// Trusted: the string afterwards holds its old characters followed by `c`.
#[verifier::external_body]
pub(crate) fn push_char(s: &mut String, c: char)
    ensures
        final(s)@ == old(s)@.push(c),
{
    s.push(c);
}

/// The characters of `s`, in order.
pub fn chars_of(s: &str) -> (v: Vec<char>)
    ensures
        v@ == s@,
{
    let mut v: Vec<char> = Vec::new();
    for c in it: s.chars()
        invariant
            v@ == it.seq().take(it.index() as int),
    {
        v.push(c);
    }
    v
}


/// Index of the first occurrence of `c` in `s` at or after `i`, or `s.len()`
/// when there is none.
pub open spec fn next_index(s: Seq<char>, c: char, i: int) -> int
    decreases s.len() - i,
{
    if i >= s.len() {
        s.len() as int
    } else if i < 0 {
        next_index(s, c, 0)
    } else if s[i] == c {
        i
    } else {
        next_index(s, c, i + 1)
    }
}

/// `next_index` lies between its start and the end of the sequence, and no
/// earlier position from the start holds `c`.
pub proof fn lemma_next_index_bounds(s: Seq<char>, c: char, i: int)
    requires
        0 <= i <= s.len(),
    ensures
        i <= next_index(s, c, i) <= s.len(),
        next_index(s, c, i) < s.len() ==> s[next_index(s, c, i)] == c,
        forall|k: int| i <= k < next_index(s, c, i) ==> s[k] != c,
    decreases s.len() - i,
{
    if i < s.len() && s[i] != c {
        lemma_next_index_bounds(s, c, i + 1);
    }
}

/// A position `j` holding `c` with no `c` between `i` and `j` is `next_index(s, c, i)`;
/// with no `c` at all from `i` on, `next_index` is the length.
pub proof fn lemma_next_index_is(s: Seq<char>, c: char, i: int, j: int)
    requires
        0 <= i <= j <= s.len(),
        j < s.len() ==> s[j] == c,
        forall|k: int| i <= k < j ==> s[k] != c,
    ensures
        next_index(s, c, i) == j,
    decreases j - i,
{
    if i < j {
        lemma_next_index_is(s, c, i + 1, j);
    }
}

/// Finds the first `c` in `v[lo..hi]`; returns `hi` when there is none.
pub fn find_char(v: &Vec<char>, lo: usize, hi: usize, c: char) -> (r: usize)
    requires
        lo <= hi <= v@.len(),
    ensures
        r - lo == next_index(v@.subrange(lo as int, hi as int), c, 0),
        lo <= r <= hi,
{
    let ghost t = v@.subrange(lo as int, hi as int);
    let mut i = lo;
    while i < hi
        invariant
            lo <= i <= hi <= v@.len(),
            t == v@.subrange(lo as int, hi as int),
            forall|k: int| 0 <= k < i - lo ==> t[k] != c,
        decreases hi - i,
    {
        if v[i] == c {
            proof {
                lemma_next_index_is(t, c, 0, i - lo);
            }
            return i;
        }
        i += 1;
    }
    proof {
        lemma_next_index_is(t, c, 0, hi - lo);
    }
    hi
}


/// `s` without its leading characters that satisfy `p`.
pub open spec fn strip_start(s: Seq<char>, p: spec_fn(char) -> bool) -> Seq<char>
    decreases s.len(),
{
    if s.len() > 0 && p(s[0]) {
        strip_start(s.drop_first(), p)
    } else {
        s
    }
}

/// `s` without its trailing characters that satisfy `p`.
pub open spec fn strip_end(s: Seq<char>, p: spec_fn(char) -> bool) -> Seq<char>
    decreases s.len(),
{
    if s.len() > 0 && p(s.last()) {
        strip_end(s.drop_last(), p)
    } else {
        s
    }
}

/// `s` without the characters satisfying `p` at either end.
pub open spec fn strip_both(s: Seq<char>, p: spec_fn(char) -> bool) -> Seq<char> {
    strip_end(strip_start(s, p), p)
}

/// The predicate "is the character `c`".
pub open spec fn is_char(c: char) -> spec_fn(char) -> bool {
    |x: char| x == c
}

/// Stripping from the front removes exactly the longest prefix satisfying `p`.
pub proof fn lemma_strip_start_is(s: Seq<char>, p: spec_fn(char) -> bool, k: int)
    requires
        0 <= k <= s.len(),
        forall|i: int| 0 <= i < k ==> p(s[i]),
        k == s.len() || !p(s[k]),
    ensures
        strip_start(s, p) == s.skip(k),
    decreases k,
{
    if k == 0 {
        assert(s.skip(0) == s);
    } else {
        assert(s.drop_first().skip(k - 1) == s.skip(k));
        lemma_strip_start_is(s.drop_first(), p, k - 1);
    }
}

/// Stripping from the back removes exactly the longest suffix satisfying `p`.
pub proof fn lemma_strip_end_is(s: Seq<char>, p: spec_fn(char) -> bool, k: int)
    requires
        0 <= k <= s.len(),
        forall|i: int| k <= i < s.len() ==> p(s[i]),
        k == 0 || !p(s[k - 1]),
    ensures
        strip_end(s, p) == s.take(k),
    decreases s.len() - k,
{
    if k == s.len() {
        assert(s.take(k) == s);
    } else {
        assert(s.drop_last().take(k) == s.take(k));
        lemma_strip_end_is(s.drop_last(), p, k);
    }
}

/// The result of `strip_start` is a suffix whose first character fails `p`.
pub proof fn lemma_strip_start_shape(s: Seq<char>, p: spec_fn(char) -> bool) -> (k: int)
    ensures
        0 <= k <= s.len(),
        strip_start(s, p) == s.skip(k),
        forall|i: int| 0 <= i < k ==> p(s[i]),
        k < s.len() ==> !p(s[k]),
    decreases s.len(),
{
    if s.len() > 0 && p(s[0]) {
        let k1 = lemma_strip_start_shape(s.drop_first(), p);
        assert(s.drop_first().skip(k1) == s.skip(k1 + 1));
        assert forall|i: int| 0 <= i < k1 + 1 implies p(s[i]) by {
            if i > 0 {
                assert(s[i] == s.drop_first()[i - 1]);
            }
        }
        k1 + 1
    } else {
        assert(s.skip(0) == s);
        0
    }
}

/// The result of `strip_end` is a prefix whose last character fails `p`.
pub proof fn lemma_strip_end_shape(s: Seq<char>, p: spec_fn(char) -> bool) -> (k: int)
    ensures
        0 <= k <= s.len(),
        strip_end(s, p) == s.take(k),
        forall|i: int| k <= i < s.len() ==> p(s[i]),
        k > 0 ==> !p(s[k - 1]),
    decreases s.len(),
{
    if s.len() > 0 && p(s.last()) {
        let k1 = lemma_strip_end_shape(s.drop_last(), p);
        assert(s.drop_last().take(k1) == s.take(k1));
        assert forall|i: int| k1 <= i < s.len() implies p(s[i]) by {
            if i < s.len() - 1 {
                assert(s[i] == s.drop_last()[i]);
            }
        }
        k1
    } else {
        assert(s.take(s.len() as int) == s);
        s.len() as int
    }
}

/// The bounds `(a, b)` of `v[lo..hi]` with every leading and trailing `c` removed.
pub fn strip_char_range(v: &Vec<char>, lo: usize, hi: usize, c: char) -> (r: (usize, usize))
    requires
        lo <= hi <= v@.len(),
    ensures
        lo <= r.0 <= r.1 <= hi,
        v@.subrange(r.0 as int, r.1 as int) == strip_both(v@.subrange(lo as int, hi as int), is_char(c)),
{
    let ghost t = v@.subrange(lo as int, hi as int);
    let mut a = lo;
    while a < hi && v[a] == c
        invariant
            lo <= a <= hi <= v@.len(),
            t == v@.subrange(lo as int, hi as int),
            forall|i: int| 0 <= i < a - lo ==> is_char(c)(t[i]),
        decreases hi - a,
    {
        a += 1;
    }
    proof {
        lemma_strip_start_is(t, is_char(c), a - lo);
        assert(t.skip(a - lo) == v@.subrange(a as int, hi as int));
    }
    let ghost u = v@.subrange(a as int, hi as int);
    let mut b = hi;
    while b > a && v[b - 1] == c
        invariant
            lo <= a <= b <= hi <= v@.len(),
            u == v@.subrange(a as int, hi as int),
            forall|i: int| b - a <= i < u.len() ==> is_char(c)(u[i]),
        decreases b - a,
    {
        b -= 1;
    }
    proof {
        lemma_strip_end_is(u, is_char(c), b - a);
        assert(u.take(b - a) == v@.subrange(a as int, b as int));
    }
    (a, b)
}

/// A `String` holding the characters `v[lo..hi]`.
pub fn string_of_range(v: &Vec<char>, lo: usize, hi: usize) -> (s: String)
    requires
        lo <= hi <= v@.len(),
    ensures
        s@ == v@.subrange(lo as int, hi as int),
{
    let mut s = String::new();
    let mut i: usize = lo;
    while i < hi
        invariant
            lo <= i <= hi <= v@.len(),
            s@ == v@.subrange(lo as int, i as int),
        decreases hi - i,
    {
        push_char(&mut s, v[i]);
        assert(v@.subrange(lo as int, i + 1) == v@.subrange(lo as int, i as int).push(v@[i as int]));
        i += 1;
    }
    s
}


/// The ASCII digit for `d` (`0 <= d < 10`).
pub open spec fn digit_char(d: nat) -> char {
    (48 + d) as char
}

/// Whether `c` is an ASCII digit.
pub open spec fn is_digit(c: char) -> bool {
    '0' <= c && c <= '9'
}

/// The decimal representation of `n`, without leading zeros.
pub open spec fn decimal(n: nat) -> Seq<char>
    decreases n,
{
    if n < 10 {
        seq![digit_char(n)]
    } else {
        decimal(n / 10).push(digit_char(n % 10))
    }
}

/// The number written by the ASCII digits `s` (0 for the empty sequence).
pub open spec fn digits_value(s: Seq<char>) -> nat
    decreases s.len(),
{
    if s.len() == 0 {
        0
    } else {
        digits_value(s.drop_last()) * 10 + ((s.last() as int - 48) as nat)
    }
}

/// Whether `s` is a non-empty run of ASCII digits.
pub open spec fn all_digits(s: Seq<char>) -> bool {
    s.len() > 0 && forall|i: int| 0 <= i < s.len() ==> is_digit(#[trigger] s[i])
}

/// The decimal representation is a non-empty digit run that reads back as `n`.
pub proof fn lemma_decimal_reads_back(n: nat)
    ensures
        all_digits(decimal(n)),
        digits_value(decimal(n)) == n,
    decreases n,
{
    if n < 10 {
        assert(digit_char(n) as int == 48 + n);
        assert(decimal(n).drop_last() == Seq::<char>::empty());
        assert(digits_value(Seq::<char>::empty()) == 0);
        assert(decimal(n).last() == digit_char(n));
        assert(digits_value(decimal(n)) == digits_value(decimal(n).drop_last()) * 10 + ((decimal(n).last() as int - 48) as nat));
    } else {
        lemma_decimal_reads_back(n / 10);
        let d = decimal(n / 10);
        assert(decimal(n).drop_last() == d);
        assert(n == (n / 10) * 10 + n % 10) by (nonlinear_arith);
        assert(digit_char(n % 10) as int == 48 + n % 10);
        assert(decimal(n).last() == digit_char(n % 10));
        assert(digits_value(decimal(n)) == digits_value(d) * 10 + (n % 10));
        assert forall|i: int| 0 <= i < decimal(n).len() implies is_digit(#[trigger] decimal(n)[i]) by {
            if i < d.len() {
                assert(decimal(n)[i] == d[i]);
            }
        }
    }
}

/// Distinct numbers have distinct decimal representations.
pub proof fn lemma_decimal_injective(a: nat, b: nat)
    requires
        decimal(a) == decimal(b),
    ensures
        a == b,
{
    lemma_decimal_reads_back(a);
    lemma_decimal_reads_back(b);
}

/// Appends the decimal representation of `n` to `s`.
pub fn push_decimal(s: &mut String, n: u128)
    ensures
        final(s)@ == old(s)@ + decimal(n as nat),
    decreases n,
{
    if n >= 10 {
        push_decimal(s, n / 10);
    }
    let d: u8 = (n % 10) as u8;
    let c: char = (48u8 + d) as char;
    let ghost before = s@;
    push_char(s, c);
    proof {
        if n >= 10 {
            assert(before == old(s)@ + decimal((n / 10) as nat));
            assert(decimal(n as nat) == decimal((n / 10) as nat).push(digit_char((n % 10) as nat)));
            assert(old(s)@ + decimal(n as nat) == (old(s)@ + decimal((n / 10) as nat)).push(c));
        } else {
            assert(decimal(n as nat) == seq![digit_char(n as nat)]);
            assert(old(s)@ + decimal(n as nat) == old(s)@.push(c));
        }
    }
}


/// Unicode `White_Space` characters (what `char::is_whitespace` and
/// `str::trim` treat as whitespace).
pub open spec fn is_whitespace(c: char) -> bool {
    ('\u{9}' <= c && c <= '\u{d}') || c == ' ' || c == '\u{85}' || c == '\u{a0}' || c == '\u{1680}'
        || ('\u{2000}' <= c && c <= '\u{200a}') || c == '\u{2028}' || c == '\u{2029}' || c == '\u{202f}'
        || c == '\u{205f}' || c == '\u{3000}'
}

/// The predicate form of `is_whitespace`.
pub open spec fn whitespace() -> spec_fn(char) -> bool {
    |c: char| is_whitespace(c)
}

/// `s` with leading and trailing whitespace removed (`str::trim`).
pub open spec fn trim(s: Seq<char>) -> Seq<char> {
    strip_both(s, whitespace())
}

/// Decides `is_whitespace`.
pub fn char_is_whitespace(c: char) -> (b: bool)
    ensures
        b == is_whitespace(c),
{
    (c >= '\u{9}' && c <= '\u{d}') || c == ' ' || c == '\u{85}' || c == '\u{a0}' || c == '\u{1680}'
        || (c >= '\u{2000}' && c <= '\u{200a}') || c == '\u{2028}' || c == '\u{2029}' || c == '\u{202f}'
        || c == '\u{205f}' || c == '\u{3000}'
}

/// The bounds `(a, b)` of `v[lo..hi]` with leading and trailing whitespace removed.
pub fn trim_range(v: &Vec<char>, lo: usize, hi: usize) -> (r: (usize, usize))
    requires
        lo <= hi <= v@.len(),
    ensures
        lo <= r.0 <= r.1 <= hi,
        v@.subrange(r.0 as int, r.1 as int) == trim(v@.subrange(lo as int, hi as int)),
{
    let ghost t = v@.subrange(lo as int, hi as int);
    let mut a = lo;
    while a < hi && char_is_whitespace(v[a])
        invariant
            lo <= a <= hi <= v@.len(),
            t == v@.subrange(lo as int, hi as int),
            forall|i: int| 0 <= i < a - lo ==> whitespace()(t[i]),
        decreases hi - a,
    {
        a += 1;
    }
    proof {
        lemma_strip_start_is(t, whitespace(), a - lo);
        assert(t.skip(a - lo) == v@.subrange(a as int, hi as int));
    }
    let ghost u = v@.subrange(a as int, hi as int);
    let mut b = hi;
    while b > a && char_is_whitespace(v[b - 1])
        invariant
            lo <= a <= b <= hi <= v@.len(),
            u == v@.subrange(a as int, hi as int),
            forall|i: int| b - a <= i < u.len() ==> whitespace()(u[i]),
        decreases b - a,
    {
        b -= 1;
    }
    proof {
        lemma_strip_end_is(u, whitespace(), b - a);
        assert(u.take(b - a) == v@.subrange(a as int, b as int));
    }
    (a, b)
}

/// The start of `v[lo..hi]` after leading whitespace (`str::trim_start`).
pub fn trim_start_index(v: &Vec<char>, lo: usize, hi: usize) -> (a: usize)
    requires
        lo <= hi <= v@.len(),
    ensures
        lo <= a <= hi,
        v@.subrange(a as int, hi as int) == strip_start(v@.subrange(lo as int, hi as int), whitespace()),
{
    let ghost t = v@.subrange(lo as int, hi as int);
    let mut a = lo;
    while a < hi && char_is_whitespace(v[a])
        invariant
            lo <= a <= hi <= v@.len(),
            t == v@.subrange(lo as int, hi as int),
            forall|i: int| 0 <= i < a - lo ==> whitespace()(t[i]),
        decreases hi - a,
    {
        a += 1;
    }
    proof {
        lemma_strip_start_is(t, whitespace(), a - lo);
        assert(t.skip(a - lo) == v@.subrange(a as int, hi as int));
    }
    a
}

/// Whether `v[lo..hi]` is exactly the characters of `lit`.
pub fn range_equals(v: &Vec<char>, lo: usize, hi: usize, lit: &str) -> (b: bool)
    requires
        lo <= hi <= v@.len(),
    ensures
        b == (v@.subrange(lo as int, hi as int) == lit@),
{
    let l = chars_of(lit);
    if hi - lo != l.len() {
        return false;
    }
    let mut i: usize = 0;
    while i < l.len()
        invariant
            lo <= hi <= v@.len(),
            hi - lo == l@.len(),
            l@ == lit@,
            i <= l@.len(),
            forall|k: int| 0 <= k < i ==> v@[lo + k] == l@[k],
        decreases l@.len() - i,
    {
        if v[lo + i] != l[i] {
            assert(v@.subrange(lo as int, hi as int)[i as int] != lit@[i as int]);
            return false;
        }
        i += 1;
    }
    assert(v@.subrange(lo as int, hi as int) == lit@);
    true
}

/// ASCII uppercase letters mapped to lowercase; other characters unchanged.
pub open spec fn ascii_lower(c: char) -> char {
    if 'A' <= c && c <= 'Z' {
        ((c as int) + 32) as char
    } else {
        c
    }
}

/// `s` with ASCII letters lowercased.
pub open spec fn ascii_lowercase(s: Seq<char>) -> Seq<char> {
    s.map_values(|c: char| ascii_lower(c))
}

/// Whether `s`, with ASCII letters lowercased, is exactly `lit`.
pub fn equals_ignoring_ascii_case(s: &str, lit: &str) -> (b: bool)
    ensures
        b == (ascii_lowercase(s@) == lit@),
{
    let v = chars_of(s);
    let l = chars_of(lit);
    if v.len() != l.len() {
        assert(ascii_lowercase(s@).len() != lit@.len());
        return false;
    }
    let mut i: usize = 0;
    while i < l.len()
        invariant
            v@ == s@,
            l@ == lit@,
            v@.len() == l@.len(),
            i <= l@.len(),
            forall|k: int| 0 <= k < i ==> ascii_lower(v@[k]) == l@[k],
        decreases l@.len() - i,
    {
        let c = v[i];
        let lc: char = if c >= 'A' && c <= 'Z' { (((c as u32) as u8) + 32u8) as char } else { c };
        assert(lc == ascii_lower(c));
        if lc != l[i] {
            assert(ascii_lowercase(s@)[i as int] != lit@[i as int]);
            return false;
        }
        i += 1;
    }
    assert(ascii_lowercase(s@) == lit@);
    true
}


/// The pieces of `s` between occurrences of `sep` (`str::split`): always at
/// least one piece, empty pieces included.
pub open spec fn split_on(s: Seq<char>, sep: char) -> Seq<Seq<char>>
    decreases s.len(),
{
    if s.len() == 0 {
        seq![Seq::empty()]
    } else {
        let p = split_on(s.drop_last(), sep);
        if s.last() == sep {
            p.push(Seq::empty())
        } else {
            p.update(p.len() - 1, p.last().push(s.last()))
        }
    }
}

/// One more character extends the last piece, or starts a new piece when it is `sep`.
pub proof fn lemma_split_on_step(s: Seq<char>, sep: char, i: int, done: Seq<Seq<char>>, start: int)
    requires
        0 <= start <= i < s.len(),
        split_on(s.take(i), sep) == done.push(s.subrange(start, i)),
    ensures
        s[i] == sep ==> split_on(s.take(i + 1), sep) == done.push(s.subrange(start, i)).push(s.subrange(i + 1, i + 1)),
        s[i] != sep ==> split_on(s.take(i + 1), sep) == done.push(s.subrange(start, i + 1)),
{
    assert(s.take(i + 1).drop_last() == s.take(i));
    assert(s.take(i + 1).last() == s[i]);
    assert(s.subrange(i + 1, i + 1) == Seq::<char>::empty());
    if s[i] != sep {
        assert(s.subrange(start, i + 1) == s.subrange(start, i).push(s[i]));
        assert(done.push(s.subrange(start, i)).update(done.len() as int, s.subrange(start, i + 1)) == done.push(s.subrange(start, i + 1)));
    }
}

/// `split_on` always yields at least one piece.
pub proof fn lemma_split_on_nonempty(s: Seq<char>, sep: char)
    ensures
        split_on(s, sep).len() >= 1,
    decreases s.len(),
{
    if s.len() > 0 {
        lemma_split_on_nonempty(s.drop_last(), sep);
    }
}

/// A character absent from `s` is absent from every piece of `split_on(s, sep)`.
pub proof fn lemma_split_on_pieces_avoid(s: Seq<char>, sep: char, x: char)
    requires
        forall|k: int| 0 <= k < s.len() ==> s[k] != x,
    ensures
        forall|i: int, k: int|
            0 <= i < split_on(s, sep).len() && 0 <= k < split_on(s, sep)[i].len() ==> #[trigger] split_on(s, sep)[i][k]
                != x,
    decreases s.len(),
{
    if s.len() > 0 {
        let d = s.drop_last();
        assert forall|k: int| 0 <= k < d.len() implies d[k] != x by {
            assert(d[k] == s[k]);
        }
        lemma_split_on_pieces_avoid(d, sep, x);
        lemma_split_on_nonempty(d, sep);
        assert(s.last() == s[s.len() - 1]);
        let p = split_on(d, sep);
        let q = split_on(s, sep);
        if s.last() != sep {
            assert forall|i: int, k: int| 0 <= i < q.len() && 0 <= k < q[i].len() implies #[trigger] q[i][k] != x by {
                if i == p.len() - 1 {
                    if k < p.last().len() {
                        assert(q[i][k] == p[i][k]);
                    }
                } else {
                    assert(q[i] == p[i]);
                }
            }
        } else {
            assert forall|i: int, k: int| 0 <= i < q.len() && 0 <= k < q[i].len() implies #[trigger] q[i][k] != x by {
                if i < p.len() {
                    assert(q[i] == p[i]);
                }
            }
        }
    }
}

/// Splitting `s`, `sep`, `t` where `t` holds no `sep` gives the pieces of `s`
/// with `t` added as a new last piece.
pub proof fn lemma_split_on_append(s: Seq<char>, sep: char, t: Seq<char>)
    requires
        forall|k: int| 0 <= k < t.len() ==> t[k] != sep,
    ensures
        split_on(s.push(sep) + t, sep) == split_on(s, sep).push(t),
    decreases t.len(),
{
    if t.len() == 0 {
        assert(s.push(sep) + t == s.push(sep));
        assert(s.push(sep).drop_last() == s);
        assert(t == Seq::<char>::empty());
    } else {
        let t1 = t.drop_last();
        lemma_split_on_append(s, sep, t1);
        let u = s.push(sep) + t;
        assert(u.drop_last() == s.push(sep) + t1);
        assert(u.last() == t.last());
        let p = split_on(s.push(sep) + t1, sep);
        assert(p == split_on(s, sep).push(t1));
        assert(p.last() == t1);
        assert(t1.push(t.last()) == t);
        assert(t.last() != sep);
        assert(split_on(u, sep) == p.update(p.len() - 1, p.last().push(u.last())));
        assert(p.update(p.len() - 1, p.last().push(t.last())) == split_on(s, sep).push(t));
    }
}


/// Splitting `s`, `sep`, `t` gives the pieces of `s` followed by the pieces
/// of `t`.
pub proof fn lemma_split_on_concat(s: Seq<char>, sep: char, t: Seq<char>)
    ensures
        split_on(s.push(sep) + t, sep) == split_on(s, sep) + split_on(t, sep),
    decreases t.len(),
{
    lemma_split_on_nonempty(s, sep);
    let a = split_on(s, sep);
    if t.len() == 0 {
        assert(s.push(sep) + t =~= s.push(sep));
        assert(s.push(sep).drop_last() =~= s);
        assert(split_on(t, sep) =~= seq![Seq::<char>::empty()]);
        assert(a.push(Seq::<char>::empty()) =~= a + seq![Seq::<char>::empty()]);
    } else {
        let t1 = t.drop_last();
        lemma_split_on_concat(s, sep, t1);
        lemma_split_on_nonempty(t1, sep);
        let u = s.push(sep) + t;
        assert(u.drop_last() =~= s.push(sep) + t1);
        assert(u.last() == t.last());
        let b = split_on(t1, sep);
        let ab = a + b;
        if t.last() == sep {
            assert(ab.push(Seq::<char>::empty()) =~= a + b.push(Seq::<char>::empty()));
        } else {
            assert(ab.last() == b.last());
            assert(ab.update(ab.len() - 1, ab.last().push(t.last())) =~= a + b.update(
                b.len() - 1,
                b.last().push(t.last()),
            ));
        }
    }
}

/// Whether `s` and `lit` hold the same characters.
pub fn str_equals(s: &str, lit: &str) -> (b: bool)
    ensures
        b == (s@ == lit@),
{
    let v = chars_of(s);
    assert(v@.subrange(0, v@.len() as int) == v@);
    range_equals(&v, 0, v.len(), lit)
}


/// Whether `pat` occurs in `s` starting at `i`.
pub open spec fn occurs_at(s: Seq<char>, pat: Seq<char>, i: int) -> bool {
    0 <= i && i + pat.len() <= s.len() && s.subrange(i, i + pat.len() as int) == pat
}

/// The first position at or after `i` where `pat` occurs in `s` (`str::find`).
pub open spec fn find_from(s: Seq<char>, pat: Seq<char>, i: int) -> Option<int>
    decreases s.len() + 1 - i,
{
    if i < 0 || i + pat.len() > s.len() {
        None
    } else if occurs_at(s, pat, i) {
        Some(i)
    } else {
        find_from(s, pat, i + 1)
    }
}

/// Whether `pat` occurs anywhere in `s` (`str::contains`).
pub open spec fn contains_text(s: Seq<char>, pat: Seq<char>) -> bool {
    find_from(s, pat, 0) is Some
}

/// Whether `pat` occurs in `v` at `i`.
fn matches_at(v: &Vec<char>, pat: &Vec<char>, i: usize) -> (b: bool)
    requires
        i + pat@.len() <= v@.len(),
    ensures
        b == occurs_at(v@, pat@, i as int),
{
    let m = pat.len();
    let n = v.len();
    let mut k: usize = 0;
    while k < m
        invariant
            m == pat@.len(),
            n == v@.len(),
            i + m <= v@.len(),
            k <= m,
            forall|j: int| 0 <= j < k ==> v@[i + j] == pat@[j],
        decreases m - k,
    {
        assert(i + k < v@.len());
        if v[i + k] != pat[k] {
            assert(v@.subrange(i as int, i + m)[k as int] != pat@[k as int]);
            return false;
        }
        k += 1;
    }
    assert(v@.subrange(i as int, i + m) == pat@);
    true
}

/// The first position where `pat` occurs in `v` (`str::find`).
pub fn find_text(v: &Vec<char>, pat: &Vec<char>) -> (r: Option<usize>)
    ensures
        match r {
            Some(k) => find_from(v@, pat@, 0) == Some(k as int) && k + pat@.len() <= v@.len(),
            None => find_from(v@, pat@, 0) is None,
        },
{
    let n = v.len();
    let m = pat.len();
    if m > n {
        return None;
    }
    let mut i: usize = 0;
    while i <= n - m
        invariant
            n == v@.len(),
            m == pat@.len(),
            m <= n,
            i <= n - m + 1,
            find_from(v@, pat@, 0) == find_from(v@, pat@, i as int),
        decreases n - m + 1 - i,
    {
        if matches_at(v, pat, i) {
            return Some(i);
        }
        if i == n - m {
            assert(find_from(v@, pat@, i + 1) is None);
            return None;
        }
        i += 1;
    }
    None
}

/// Whether `pat` occurs in `s`.
pub fn str_contains(s: &str, pat: &str) -> (b: bool)
    ensures
        b == contains_text(s@, pat@),
{
    let v = chars_of(s);
    let p = chars_of(pat);
    find_text(&v, &p).is_some()
}


/// Searching from `k` is searching the part from `k` on, shifted by `k`.
pub proof fn lemma_next_index_shift(s: Seq<char>, c: char, k: int)
    requires
        0 <= k <= s.len(),
    ensures
        next_index(s, c, k) == k + next_index(s.skip(k), c, 0),
{
    let t = s.skip(k);
    lemma_next_index_bounds(t, c, 0);
    let j = next_index(t, c, 0);
    assert forall|m: int| k <= m < k + j implies s[m] != c by {
        assert(s[m] == t[m - k]);
    }
    if j < t.len() {
        assert(s[k + j] == t[j]);
    }
    lemma_next_index_is(s, c, k, k + j);
}

} // verus!
