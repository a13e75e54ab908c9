//! Release versions and the decisions of the self-upgrade.

use vstd::prelude::*;
use core::cmp::Ordering;
use crate::release::{UpgradeError, strip_v_prefix, without_v};
use vstd::string::StringExecFns;
use crate::text::{
    all_digits, chars_of, decimal, digits_value, find_char, find_from, find_text, is_digit,
    lemma_decimal_reads_back, lemma_next_index_is, lemma_next_index_shift, next_index, string_of_range,
    strip_start, trim_start_index, whitespace,
};

verus! {

/// The value of an unsigned decimal field (`u32::from_str`): an optional `+`
/// followed by ASCII digits, of at most `u32::MAX`.
pub open spec fn parse_u32_text(t: Seq<char>) -> Option<u32> {
    let d = if t.len() > 0 && t[0] == '+' {
        t.drop_first()
    } else {
        t
    };
    if all_digits(d) && digits_value(d) <= u32::MAX {
        Some(digits_value(d) as u32)
    } else {
        None
    }
}

/// The number of leading ASCII digits of `s`.
pub open spec fn digit_prefix_len(s: Seq<char>) -> nat
    decreases s.len(),
{
    if s.len() > 0 && is_digit(s[0]) {
        1 + digit_prefix_len(s.drop_first())
    } else {
        0
    }
}

/// A version `major.minor.patch`, with an optional leading `v`; the text
/// after the second `.` counts up to its first non-digit (so `-rc1` and
/// similar suffixes are ignored).
pub open spec fn spec_parse_version(s: Seq<char>) -> Option<(u32, u32, u32)> {
    let t = if s.len() > 0 && s[0] == 'v' {
        s.drop_first()
    } else {
        s
    };
    let i = next_index(t, '.', 0);
    let j = next_index(t, '.', i + 1);
    if i >= t.len() || j >= t.len() {
        None
    } else {
        let rest = t.skip(j + 1);
        let patch = rest.take(digit_prefix_len(rest) as int);
        if patch.len() == 0 {
            None
        } else {
            match (parse_u32_text(t.take(i)), parse_u32_text(t.subrange(i + 1, j)), parse_u32_text(patch)) {
                (Some(a), Some(b), Some(c)) => Some((a, b, c)),
                _ => None,
            }
        }
    }
}

proof fn lemma_digits_value_prefix(s: Seq<char>, k: int)
    requires
        0 <= k <= s.len(),
        forall|i: int| 0 <= i < s.len() ==> is_digit(#[trigger] s[i]),
    ensures
        digits_value(s.take(k)) <= digits_value(s),
    decreases s.len() - k,
{
    if k < s.len() {
        lemma_digits_value_prefix(s, k + 1);
        assert(s.take(k + 1).drop_last() == s.take(k));
    } else {
        assert(s.take(k) == s);
    }
}

/// Parses `v[lo..hi]` as an unsigned decimal field.
fn parse_u32_range(v: &Vec<char>, lo: usize, hi: usize) -> (r: Option<u32>)
    requires
        lo <= hi <= v@.len(),
    ensures
        r == parse_u32_text(v@.subrange(lo as int, hi as int)),
{
    let ghost t = v@.subrange(lo as int, hi as int);
    let mut a = lo;
    if lo < hi && v[lo] == '+' {
        a = lo + 1;
    }
    let ghost d = v@.subrange(a as int, hi as int);
    assert(d == (if t.len() > 0 && t[0] == '+' { t.drop_first() } else { t }));
    if a == hi {
        return None;
    }
    let mut value: u64 = 0;
    let mut i = a;
    while i < hi
        invariant
            lo <= a <= i <= hi <= v@.len(),
            d == v@.subrange(a as int, hi as int),
            t == v@.subrange(lo as int, hi as int),
            d == (if t.len() > 0 && t[0] == '+' { t.drop_first() } else { t }),
            forall|k: int| 0 <= k < i - a ==> is_digit(#[trigger] d[k]),
            value == digits_value(d.take(i - a)),
            value <= u32::MAX,
        decreases hi - i,
    {
        let c = v[i];
        assert(d[i - a] == c);
        if !(c >= '0' && c <= '9') {
            assert(!is_digit(d[i - a]));
            return None;
        }
        let digit: u64 = ((c as u32) - 48) as u64;
        proof {
            assert(d.take(i - a + 1).drop_last() == d.take(i - a));
            assert(d.take(i - a + 1).last() == c);
            assert(digits_value(d.take(i - a + 1)) == value * 10 + digit);
        }
        let next = value * 10 + digit;
        if next > 4294967295 {
            if all_digits_range(v, i + 1, hi) {
                proof {
                    assert forall|k: int| 0 <= k < d.len() implies is_digit(#[trigger] d[k]) by {
                        if k >= i - a + 1 {
                            assert(d[k] == v@.subrange(i + 1, hi as int)[k - (i - a + 1)]);
                        }
                    }
                    lemma_digits_value_prefix(d, i - a + 1);
                }
            } else {
                proof {
                    let k0 = choose|k: int| i + 1 <= k < hi && !is_digit(#[trigger] v@[k]);
                    assert(d[k0 - a] == v@[k0]);
                }
            }
            return None;
        }
        value = next;
        i += 1;
    }
    assert(d.take(hi - a) == d);
    Some(value as u32)
}

/// Whether `v[lo..hi]` is made of ASCII digits only.
fn all_digits_range(v: &Vec<char>, lo: usize, hi: usize) -> (b: bool)
    requires
        lo <= hi <= v@.len(),
    ensures
        b == forall|k: int| lo <= k < hi ==> is_digit(#[trigger] v@[k]),
{
    let mut i = lo;
    while i < hi
        invariant
            lo <= i <= hi <= v@.len(),
            forall|k: int| lo <= k < i ==> is_digit(#[trigger] v@[k]),
        decreases hi - i,
    {
        if !(v[i] >= '0' && v[i] <= '9') {
            return false;
        }
        i += 1;
    }
    true
}


proof fn lemma_digit_prefix_len_is(s: Seq<char>, m: int)
    requires
        0 <= m <= s.len(),
        forall|k: int| 0 <= k < m ==> is_digit(#[trigger] s[k]),
        m == s.len() || !is_digit(s[m]),
    ensures
        digit_prefix_len(s) == m,
    decreases m,
{
    if m > 0 {
        assert forall|k: int| 0 <= k < m - 1 implies is_digit(#[trigger] s.drop_first()[k]) by {
            assert(s.drop_first()[k] == s[k + 1]);
        }
        if m < s.len() {
            assert(s.drop_first()[m - 1] == s[m]);
        }
        lemma_digit_prefix_len_is(s.drop_first(), m - 1);
    }
}

/// Parses `1.2.3` or `v1.2.3` into `(major, minor, patch)`, ignoring any
/// suffix after the patch digits (`v1.2.3-rc1` is `(1, 2, 3)`).
pub fn parse_version(s: &str) -> (r: Option<(u32, u32, u32)>)
    ensures
        r == spec_parse_version(s@),
{
    let v = chars_of(s);
    let n = v.len();
    let lo: usize = if n > 0 && v[0] == 'v' { 1 } else { 0 };
    let ghost t = v@.subrange(lo as int, n as int);
    assert(t == (if s@.len() > 0 && s@[0] == 'v' { s@.drop_first() } else { s@ }));
    let i = find_char(&v, lo, n, '.');
    if i == n {
        return None;
    }
    let j = find_char(&v, i + 1, n, '.');
    proof {
        lemma_next_index_shift(t, '.', i - lo + 1);
        assert(t.skip(i - lo + 1) == v@.subrange(i + 1, n as int));
    }
    if j == n {
        return None;
    }
    let mut p = j + 1;
    while p < n && v[p] >= '0' && v[p] <= '9'
        invariant
            j + 1 <= p <= n == v@.len(),
            forall|k: int| j + 1 <= k < p ==> is_digit(#[trigger] v@[k]),
        decreases n - p,
    {
        p += 1;
    }
    proof {
        let rest = t.skip(j - lo + 1);
        assert(rest == v@.subrange(j + 1, n as int));
        assert forall|k: int| 0 <= k < p - (j + 1) implies is_digit(#[trigger] rest[k]) by {
            assert(rest[k] == v@[j + 1 + k]);
        }
        if p < n {
            assert(rest[p - (j + 1)] == v@[p as int]);
        }
        lemma_digit_prefix_len_is(rest, p - (j + 1));
        assert(rest.take(p - (j + 1)) == v@.subrange(j + 1, p as int));
        assert(t.take(i - lo) == v@.subrange(lo as int, i as int));
        assert(t.subrange(i - lo + 1, j - lo) == v@.subrange(i + 1, j as int));
    }
    if p == j + 1 {
        return None;
    }
    let major = parse_u32_range(&v, lo, i);
    let minor = parse_u32_range(&v, i + 1, j);
    let patch = parse_u32_range(&v, j + 1, p);
    match (major, minor, patch) {
        (Some(a), Some(b), Some(c)) => Some((a, b, c)),
        _ => None,
    }
}


/// A leading `v` is optional: a version reads the same with or without it
/// (unless the text itself starts with `v`, where only one `v` is dropped).
pub proof fn lemma_parse_version_optional_v(s: Seq<char>)
    requires
        s.len() == 0 || s[0] != 'v',
    ensures
        spec_parse_version(seq!['v'] + s) == spec_parse_version(s),
{
    assert((seq!['v'] + s).drop_first() == s);
}

proof fn lemma_parse_u32_decimal(x: u32)
    ensures
        parse_u32_text(decimal(x as nat)) == Some(x),
{
    lemma_decimal_reads_back(x as nat);
    assert(is_digit(decimal(x as nat)[0]));
}

/// `major.minor.patch` written in decimal, followed by any suffix that does
/// not start with a digit (such as `-rc1`), parses back to the three numbers,
/// with or without a leading `v`.
pub proof fn lemma_parse_version_round_trip(a: u32, b: u32, c: u32, suffix: Seq<char>)
    requires
        suffix.len() == 0 || !is_digit(suffix[0]),
    ensures
        spec_parse_version(decimal(a as nat) + seq!['.'] + decimal(b as nat) + seq!['.'] + decimal(c as nat) + suffix)
            == Some((a, b, c)),
        spec_parse_version(seq!['v'] + decimal(a as nat) + seq!['.'] + decimal(b as nat) + seq!['.'] + decimal(c as nat)
            + suffix) == Some((a, b, c)),
{
    let da = decimal(a as nat);
    let db = decimal(b as nat);
    let dc = decimal(c as nat);
    lemma_decimal_reads_back(a as nat);
    lemma_decimal_reads_back(b as nat);
    lemma_decimal_reads_back(c as nat);
    let s = da + seq!['.'] + db + seq!['.'] + dc + suffix;
    let la = da.len() as int;
    let lb = db.len() as int;
    let lc = dc.len() as int;
    assert(s[0] == da[0]);
    assert(is_digit(da[0]));
    // first '.'
    assert forall|k: int| 0 <= k < la implies s[k] != '.' by {
        assert(s[k] == da[k]);
        assert(is_digit(da[k]));
    }
    assert(s[la] == '.');
    lemma_next_index_is(s, '.', 0, la);
    // second '.'
    assert forall|k: int| la + 1 <= k < la + 1 + lb implies s[k] != '.' by {
        assert(s[k] == db[k - la - 1]);
        assert(is_digit(db[k - la - 1]));
    }
    assert(s[la + 1 + lb] == '.');
    lemma_next_index_is(s, '.', la + 1, la + 1 + lb);
    let rest = s.skip(la + 2 + lb);
    assert(rest == dc + suffix);
    assert forall|k: int| 0 <= k < lc implies is_digit(#[trigger] rest[k]) by {
        assert(rest[k] == dc[k]);
    }
    if suffix.len() > 0 {
        assert(rest[lc] == suffix[0]);
    }
    lemma_digit_prefix_len_is(rest, lc);
    assert(rest.take(lc) == dc);
    assert(s.take(la) == da);
    assert(s.subrange(la + 1, la + 1 + lb) == db);
    lemma_parse_u32_decimal(a);
    lemma_parse_u32_decimal(b);
    lemma_parse_u32_decimal(c);
    assert(s.len() == 0 || s[0] != 'v');
    lemma_parse_version_optional_v(s);
    assert(seq!['v'] + da + seq!['.'] + db + seq!['.'] + dc + suffix == seq!['v'] + s);
}

/// The `tag_name` string of a release description in JSON: the text between
/// the double quotes after the first `"tag_name"` key and its `:` (blanks
/// allowed around the `:`); none when that shape is not there.
pub open spec fn spec_parse_tag_name(json: Seq<char>) -> Option<Seq<char>> {
    let key = "\"tag_name\""@;
    match find_from(json, key, 0) {
        None => None,
        Some(pos) => {
            let t = strip_start(json.skip(pos + key.len()), whitespace());
            if t.len() == 0 || t[0] != ':' {
                None
            } else {
                let u = strip_start(t.skip(1), whitespace());
                if u.len() == 0 || u[0] != '"' {
                    None
                } else {
                    let value = u.skip(1);
                    let end = next_index(value, '"', 0);
                    if end >= value.len() {
                        None
                    } else {
                        Some(value.take(end))
                    }
                }
            }
        },
    }
}

/// Extracts the `tag_name` value from a GitHub release response.
pub fn parse_tag_name(json: &str) -> (r: Option<String>)
    ensures
        match r {
            Some(t) => spec_parse_tag_name(json@) == Some(t@),
            None => spec_parse_tag_name(json@) is None,
        },
{
    let v = chars_of(json);
    let n = v.len();
    let key = chars_of("\"tag_name\"");
    let pos = match find_text(&v, &key) {
        Some(p) => p,
        None => return None,
    };
    let k = pos + key.len();
    let a = trim_start_index(&v, k, n);
    assert(find_from(json@, "\"tag_name\""@, 0) == Some(pos as int));
    assert(json@.skip(k as int) == v@.subrange(k as int, n as int));
    let ghost t = strip_start(json@.skip(pos + "\"tag_name\""@.len()), whitespace());
    assert(t == v@.subrange(a as int, n as int));
    if a == n || v[a] != ':' {
        assert(t.len() == 0 || t[0] != ':');
        return None;
    }
    let b = trim_start_index(&v, a + 1, n);
    assert(v@.subrange(a as int, n as int).skip(1) == v@.subrange(a + 1, n as int));
    let ghost u = strip_start(t.skip(1), whitespace());
    assert(u == v@.subrange(b as int, n as int));
    if b == n || v[b] != '"' {
        assert(u.len() == 0 || u[0] != '"');
        return None;
    }
    let e = find_char(&v, b + 1, n, '"');
    assert(v@.subrange(b as int, n as int).skip(1) == v@.subrange(b + 1, n as int));
    if e == n {
        return None;
    }
    assert(v@.subrange(b + 1, n as int).take(e - b - 1) == v@.subrange(b + 1, e as int));
    Some(string_of_range(&v, b + 1, e))
}


/// How two numbers compare.
pub open spec fn number_order(a: u32, b: u32) -> Ordering {
    if a < b {
        Ordering::Less
    } else if a > b {
        Ordering::Greater
    } else {
        Ordering::Equal
    }
}

/// How two versions compare: by major, then minor, then patch.
pub open spec fn triple_order(x: (u32, u32, u32), y: (u32, u32, u32)) -> Ordering {
    if x.0 != y.0 {
        number_order(x.0, y.0)
    } else if x.1 != y.1 {
        number_order(x.1, y.1)
    } else {
        number_order(x.2, y.2)
    }
}

/// How two texts compare character by character, a proper prefix first
/// (the order of `str`, since UTF-8 keeps code point order).
pub open spec fn lexical_order(a: Seq<char>, b: Seq<char>) -> Ordering
    decreases a.len(),
{
    if a.len() == 0 {
        if b.len() == 0 {
            Ordering::Equal
        } else {
            Ordering::Less
        }
    } else if b.len() == 0 {
        Ordering::Greater
    } else if a[0] < b[0] {
        Ordering::Less
    } else if a[0] > b[0] {
        Ordering::Greater
    } else {
        lexical_order(a.drop_first(), b.drop_first())
    }
}

/// How two version strings compare: as versions when both parse, a
/// parseable one above an unparseable one, and as text when neither parses.
pub open spec fn version_order(latest: Seq<char>, current: Seq<char>) -> Ordering {
    match (spec_parse_version(latest), spec_parse_version(current)) {
        (Some(l), Some(c)) => triple_order(l, c),
        (Some(_), None) => Ordering::Greater,
        (None, Some(_)) => Ordering::Less,
        (None, None) => lexical_order(latest, current),
    }
}

/// The opposite order.
pub open spec fn reversed(o: Ordering) -> Ordering {
    match o {
        Ordering::Less => Ordering::Greater,
        Ordering::Equal => Ordering::Equal,
        Ordering::Greater => Ordering::Less,
    }
}

fn compare_numbers(a: u32, b: u32) -> (r: Ordering)
    ensures
        r == number_order(a, b),
{
    if a < b {
        Ordering::Less
    } else if a > b {
        Ordering::Greater
    } else {
        Ordering::Equal
    }
}

fn compare_texts(a: &str, b: &str) -> (r: Ordering)
    ensures
        r == lexical_order(a@, b@),
{
    let x = chars_of(a);
    let y = chars_of(b);
    let mut i: usize = 0;
    let ghost mut gi: int = 0;
    assert(a@.skip(0) == a@ && b@.skip(0) == b@);
    while i < x.len() && i < y.len() && x[i] == y[i]
        invariant
            x@ == a@,
            y@ == b@,
            gi == i,
            0 <= gi <= x@.len(),
            gi <= y@.len(),
            lexical_order(a@, b@) == lexical_order(a@.skip(gi), b@.skip(gi)),
        decreases x@.len() - gi,
    {
        proof {
            assert(a@.skip(gi).drop_first() == a@.skip(gi + 1));
            assert(b@.skip(gi).drop_first() == b@.skip(gi + 1));
            gi = gi + 1;
        }
        i += 1;
    }
    proof {
        if gi < x@.len() {
            assert(a@.skip(gi)[0] == x@[gi]);
        }
        if gi < y@.len() {
            assert(b@.skip(gi)[0] == y@[gi]);
        }
    }
    if i == x.len() {
        if i == y.len() {
            Ordering::Equal
        } else {
            Ordering::Less
        }
    } else if i == y.len() {
        Ordering::Greater
    } else if x[i] < y[i] {
        Ordering::Less
    } else {
        Ordering::Greater
    }
}

/// Compares two version strings (each with an optional `v`), falling back to
/// comparing them as text when they do not parse.
pub fn version_cmp(latest: &str, current: &str) -> (r: Ordering)
    ensures
        r == version_order(latest@, current@),
{
    match (parse_version(latest), parse_version(current)) {
        (Some(l), Some(c)) => {
            if l.0 != c.0 {
                compare_numbers(l.0, c.0)
            } else if l.1 != c.1 {
                compare_numbers(l.1, c.1)
            } else {
                compare_numbers(l.2, c.2)
            }
        },
        (Some(_), None) => Ordering::Greater,
        (None, Some(_)) => Ordering::Less,
        (None, None) => compare_texts(latest, current),
    }
}

proof fn lemma_lexical_antisymmetric(a: Seq<char>, b: Seq<char>)
    ensures
        lexical_order(a, b) == reversed(lexical_order(b, a)),
    decreases a.len(),
{
    if a.len() > 0 && b.len() > 0 && a[0] == b[0] {
        lemma_lexical_antisymmetric(a.drop_first(), b.drop_first());
    }
}

proof fn lemma_lexical_reflexive(a: Seq<char>)
    ensures
        lexical_order(a, a) == Ordering::Equal,
    decreases a.len(),
{
    if a.len() > 0 {
        lemma_lexical_reflexive(a.drop_first());
    }
}

/// Version comparison is antisymmetric, and every version string equals itself.
pub proof fn lemma_version_order_antisymmetric(a: Seq<char>, b: Seq<char>)
    ensures
        version_order(a, b) == reversed(version_order(b, a)),
        version_order(a, a) == Ordering::Equal,
{
    lemma_lexical_antisymmetric(a, b);
    lemma_lexical_reflexive(a);
}


/// The release tag `v<major>.<minor>.<patch>` written in decimal.
pub open spec fn release_tag(major: u32, minor: u32, patch: u32) -> Seq<char> {
    seq!['v'] + decimal(major as nat) + seq!['.'] + decimal(minor as nat) + seq!['.'] + decimal(patch as nat)
}

/// A release tag reads back as its three numbers.
pub proof fn lemma_release_tag_parses(major: u32, minor: u32, patch: u32)
    ensures
        spec_parse_version(release_tag(major, minor, patch)) == Some((major, minor, patch)),
{
    lemma_parse_version_round_trip(major, minor, patch, Seq::empty());
    assert(release_tag(major, minor, patch) == seq!['v'] + decimal(major as nat) + seq!['.'] + decimal(minor as nat)
        + seq!['.'] + decimal(patch as nat) + Seq::<char>::empty());
}

/// Two versions that both parse compare field by field: `latest` is newer
/// exactly when its major is larger, or the majors agree and its minor is
/// larger, or both agree and its patch is larger; they compare equal exactly
/// when all three numbers agree; otherwise `latest` is older.
pub proof fn lemma_version_order_by_fields(latest: Seq<char>, current: Seq<char>)
    requires
        spec_parse_version(latest) is Some,
        spec_parse_version(current) is Some,
    ensures
        ({
            let l = spec_parse_version(latest)->0;
            let c = spec_parse_version(current)->0;
            &&& (version_order(latest, current) == Ordering::Greater) <==> (l.0 > c.0 || (l.0 == c.0 && l.1 > c.1) || (
            l.0 == c.0 && l.1 == c.1 && l.2 > c.2))
            &&& (version_order(latest, current) == Ordering::Equal) <==> (l.0 == c.0 && l.1 == c.1 && l.2 == c.2)
            &&& (version_order(latest, current) == Ordering::Less) <==> (l.0 < c.0 || (l.0 == c.0 && l.1 < c.1) || (
            l.0 == c.0 && l.1 == c.1 && l.2 < c.2))
        }),
{
}

/// Release tags compare by their numbers in order: a newer major, or the
/// same major and a newer minor, or the same major and minor and a newer
/// patch, is newer, so every patch release is offered as an upgrade.
pub proof fn lemma_release_tags_order(a: u32, b: u32, c: u32, x: u32, y: u32, z: u32)
    ensures
        (version_order(release_tag(a, b, c), release_tag(x, y, z)) == Ordering::Greater) <==> (a > x || (a == x && b
            > y) || (a == x && b == y && c > z)),
        (version_order(release_tag(a, b, c), release_tag(x, y, z)) == Ordering::Equal) <==> (a == x && b == y && c
            == z),
{
    lemma_release_tag_parses(a, b, c);
    lemma_release_tag_parses(x, y, z);
    lemma_version_order_by_fields(release_tag(a, b, c), release_tag(x, y, z));
}

/// What an upgrade goes on to do once the latest release is known.
#[derive(Debug, PartialEq)]
pub enum UpgradePlan {
    /// Only report that `latest` (without its `v`) is available.
    ReportOnly { latest: String },
    /// Install release `tag`, whose version is `version`.
    Install { tag: String, version: String },
}

/// Decides the upgrade from the latest release tag and the running version:
/// nothing to do unless the tag is newer than `v` followed by the running
/// version; then either only report it, or install it.
pub fn upgrade_plan(latest_tag: &str, current_version: &str, check_only: bool) -> (r: Result<UpgradePlan, UpgradeError>)
    ensures
        version_order(latest_tag@, seq!['v'] + current_version@) != Ordering::Greater ==> (r matches Err(
            UpgradeError::AlreadyLatest { current },
        ) && current@ == current_version@),
        version_order(latest_tag@, seq!['v'] + current_version@) == Ordering::Greater && check_only ==> (r matches Ok(
            UpgradePlan::ReportOnly { latest },
        ) && latest@ == without_v(latest_tag@)),
        version_order(latest_tag@, seq!['v'] + current_version@) == Ordering::Greater && !check_only ==> (r matches Ok(
            UpgradePlan::Install { tag, version },
        ) && tag@ == latest_tag@ && version@ == without_v(latest_tag@)),
{
    let mut current_tag = "v".to_owned();
    current_tag.append(current_version);
    proof {
        reveal_strlit("v");
        assert("v"@ + current_version@ == seq!['v'] + current_version@);
    }
    match version_cmp(latest_tag, current_tag.as_str()) {
        Ordering::Greater => {},
        _ => {
            return Err(UpgradeError::AlreadyLatest { current: current_version.to_owned() });
        },
    }
    let version = strip_v_prefix(latest_tag);
    if check_only {
        Ok(UpgradePlan::ReportOnly { latest: version })
    } else {
        Ok(UpgradePlan::Install { tag: latest_tag.to_owned(), version })
    }
}

} // verus!
