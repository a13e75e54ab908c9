//! Session names that tmux and zellij accept, and unique names among
//! existing sessions.

use vstd::prelude::*;
use vstd::set_lib::{lemma_int_range, lemma_len_subset, lemma_map_size, set_int_range};
use crate::text::{
    decimal, lemma_decimal_injective, push_decimal, is_char, lemma_strip_end_shape, lemma_strip_start_shape, push_char, strip_both, strip_char_range,
    strip_end, strip_start, string_of_range,
};

verus! {

/// Longest session name produced, so that zellij's socket path stays under
/// its length limit.
pub const MAX_SESSION_NAME_LENGTH: usize = 32;

/// ASCII letters, ASCII digits and `-` may stand in a session name.
pub open spec fn is_session_char(c: char) -> bool {
    ('a' <= c && c <= 'z') || ('A' <= c && c <= 'Z') || ('0' <= c && c <= '9') || c == '-'
}

/// A character kept as it is, or `-` in its place.
pub open spec fn session_char(c: char) -> char {
    if is_session_char(c) {
        c
    } else {
        '-'
    }
}

/// Every character outside `[a-zA-Z0-9-]` replaced by `-`.
pub open spec fn replace_invalid(s: Seq<char>) -> Seq<char> {
    s.map_values(|c: char| session_char(c))
}

/// Each run of consecutive `-` shortened to a single `-`.
pub open spec fn collapse_dashes(s: Seq<char>) -> Seq<char>
    decreases s.len(),
{
    if s.len() == 0 {
        Seq::empty()
    } else if s.len() >= 2 && s.last() == '-' && s[s.len() - 2] == '-' {
        collapse_dashes(s.drop_last())
    } else {
        collapse_dashes(s.drop_last()).push(s.last())
    }
}

/// The name used when nothing usable is left of the workspace name.
pub open spec fn fallback_session_name() -> Seq<char> {
    seq!['s', 'e', 's', 's', 'i', 'o', 'n']
}

/// The sanitized name before any length limit: invalid characters replaced,
/// runs of `-` collapsed, `-` stripped from both ends, `session` if empty.
pub open spec fn spec_sanitize_full(name: Seq<char>) -> Seq<char> {
    let r = strip_both(collapse_dashes(replace_invalid(name)), is_char('-'));
    if r.len() == 0 {
        fallback_session_name()
    } else {
        r
    }
}

/// The sanitized name cut to its first `MAX_SESSION_NAME_LENGTH` characters.
pub open spec fn spec_sanitize(name: Seq<char>) -> Seq<char> {
    let f = spec_sanitize_full(name);
    if f.len() > MAX_SESSION_NAME_LENGTH {
        f.take(MAX_SESSION_NAME_LENGTH as int)
    } else {
        f
    }
}

/// Only session characters, no `--`, and no `-` at the start.
pub open spec fn is_clean_prefix(s: Seq<char>) -> bool {
    &&& s.len() > 0
    &&& forall|i: int| 0 <= i < s.len() ==> is_session_char(#[trigger] s[i])
    &&& s[0] != '-'
    &&& forall|i: int| 0 <= i < s.len() - 1 ==> !(#[trigger] s[i] == '-' && s[i + 1] == '-')
}

/// A clean session name: clean prefix that also does not end in `-`.
pub open spec fn is_clean_name(s: Seq<char>) -> bool {
    is_clean_prefix(s) && s.last() != '-'
}

proof fn lemma_collapse_shape(s: Seq<char>)
    requires
        forall|i: int| 0 <= i < s.len() ==> is_session_char(#[trigger] s[i]),
    ensures
        forall|i: int| 0 <= i < collapse_dashes(s).len() ==> is_session_char(#[trigger] collapse_dashes(s)[i]),
        forall|i: int| 0 <= i < collapse_dashes(s).len() - 1
            ==> !(#[trigger] collapse_dashes(s)[i] == '-' && collapse_dashes(s)[i + 1] == '-'),
        s.len() > 0 ==> collapse_dashes(s).len() > 0 && collapse_dashes(s).last() == s.last(),
    decreases s.len(),
{
    if s.len() > 0 {
        let d = s.drop_last();
        assert forall|i: int| 0 <= i < d.len() implies is_session_char(#[trigger] d[i]) by {
            assert(d[i] == s[i]);
        }
        lemma_collapse_shape(d);
        let cd = collapse_dashes(d);
        let c = collapse_dashes(s);
        if s.len() >= 2 && s.last() == '-' && s[s.len() - 2] == '-' {
            assert(d.last() == s[s.len() - 2]);
        } else {
            assert(c == cd.push(s.last()));
            assert forall|i: int| 0 <= i < c.len() implies is_session_char(#[trigger] c[i]) by {
                if i < cd.len() {
                    assert(c[i] == cd[i]);
                }
            }
            assert forall|i: int| 0 <= i < c.len() - 1 implies !(#[trigger] c[i] == '-' && c[i + 1] == '-') by {
                if i < cd.len() - 1 {
                    assert(c[i] == cd[i] && c[i + 1] == cd[i + 1]);
                } else {
                    assert(c[i] == cd.last());
                    assert(cd.last() == d.last());
                    assert(d.last() == s[s.len() - 2]);
                }
            }
        }
    }
}

proof fn lemma_collapse_clean(s: Seq<char>)
    requires
        forall|i: int| 0 <= i < s.len() - 1 ==> !(#[trigger] s[i] == '-' && s[i + 1] == '-'),
    ensures
        collapse_dashes(s) == s,
    decreases s.len(),
{
    if s.len() > 0 {
        assert forall|i: int| 0 <= i < s.drop_last().len() - 1
            implies !(#[trigger] s.drop_last()[i] == '-' && s.drop_last()[i + 1] == '-') by {
            assert(s.drop_last()[i] == s[i] && s.drop_last()[i + 1] == s[i + 1]);
        }
        lemma_collapse_clean(s.drop_last());
        assert(s.drop_last().push(s.last()) == s);
    }
}

proof fn lemma_fallback_clean()
    ensures
        is_clean_name(fallback_session_name()),
{
    let f = fallback_session_name();
    assert forall|i: int| 0 <= i < f.len() implies is_session_char(#[trigger] f[i]) by {}
}

/// The full sanitized name of any input is clean: non-empty, only
/// `[a-zA-Z0-9-]`, no `--`, and no `-` at either end.
pub proof fn lemma_sanitize_full_clean(name: Seq<char>)
    ensures
        is_clean_name(spec_sanitize_full(name)),
{
    let m = replace_invalid(name);
    assert forall|i: int| 0 <= i < m.len() implies is_session_char(#[trigger] m[i]) by {}
    lemma_collapse_shape(m);
    let c = collapse_dashes(m);
    let k1 = lemma_strip_start_shape(c, is_char('-'));
    let t = strip_start(c, is_char('-'));
    let k2 = lemma_strip_end_shape(t, is_char('-'));
    let r = strip_end(t, is_char('-'));
    if r.len() == 0 {
        lemma_fallback_clean();
    } else {
        assert(r == c.subrange(k1, k1 + k2));
        assert forall|i: int| 0 <= i < r.len() implies is_session_char(#[trigger] r[i]) by {
            assert(r[i] == c[k1 + i]);
        }
        assert forall|i: int| 0 <= i < r.len() - 1 implies !(#[trigger] r[i] == '-' && r[i + 1] == '-') by {
            assert(r[i] == c[k1 + i] && r[i + 1] == c[k1 + i + 1]);
        }
        assert(r[0] == t[0]);
        assert(r.last() == t[k2 - 1]);
    }
}

/// A clean name sanitizes to itself.
pub proof fn lemma_sanitize_full_fixes_clean(s: Seq<char>)
    requires
        is_clean_name(s),
    ensures
        spec_sanitize_full(s) == s,
{
    assert(replace_invalid(s) == s);
    lemma_collapse_clean(s);
    assert(strip_start(s, is_char('-')) == s);
    assert(strip_end(s, is_char('-')) == s);
}

/// Full sanitization is idempotent: sanitizing a sanitized name changes nothing.
pub proof fn lemma_sanitize_full_idempotent(name: Seq<char>)
    ensures
        spec_sanitize_full(spec_sanitize_full(name)) == spec_sanitize_full(name),
{
    lemma_sanitize_full_clean(name);
    lemma_sanitize_full_fixes_clean(spec_sanitize_full(name));
}

/// The length-limited name is a non-empty prefix of the full sanitized name,
/// of at most `MAX_SESSION_NAME_LENGTH` characters, equal to it when the full
/// name fits, built only from `[a-zA-Z0-9-]`, with no `--` and no leading `-`.
pub proof fn lemma_sanitize_is_limited_prefix(name: Seq<char>)
    ensures
        spec_sanitize_full(name).len() <= MAX_SESSION_NAME_LENGTH ==> spec_sanitize(name) == spec_sanitize_full(name),
        spec_sanitize(name) == spec_sanitize_full(name).take(spec_sanitize(name).len() as int),
        1 <= spec_sanitize(name).len() <= MAX_SESSION_NAME_LENGTH,
        is_clean_prefix(spec_sanitize(name)),
{
    lemma_sanitize_full_clean(name);
    let f = spec_sanitize_full(name);
    let r = spec_sanitize(name);
    if f.len() <= MAX_SESSION_NAME_LENGTH {
        assert(f.take(f.len() as int) == f);
    } else {
        assert forall|i: int| 0 <= i < r.len() implies is_session_char(#[trigger] r[i]) by {
            assert(r[i] == f[i]);
        }
        assert forall|i: int| 0 <= i < r.len() - 1 implies !(#[trigger] r[i] == '-' && r[i + 1] == '-') by {
            assert(r[i] == f[i] && r[i + 1] == f[i + 1]);
        }
    }
}

/// Sanitized names hold only ASCII letters, ASCII digits and `-`; each
/// input character outside `[a-zA-Z0-9-]` becomes `-` before runs of `-`
/// collapse; and a name of at most `MAX_SESSION_NAME_LENGTH` ASCII letters
/// and digits is kept as it is.
pub proof fn lemma_sanitized_chars(name: Seq<char>)
    ensures
        forall|i: int|
            0 <= i < spec_sanitize(name).len() ==> ('a' <= #[trigger] spec_sanitize(name)[i] && spec_sanitize(name)[i]
                <= 'z') || ('A' <= spec_sanitize(name)[i] && spec_sanitize(name)[i] <= 'Z') || ('0' <= spec_sanitize(
                name,
            )[i] && spec_sanitize(name)[i] <= '9') || spec_sanitize(name)[i] == '-',
        forall|i: int|
            0 <= i < spec_sanitize_full(name).len() ==> ('a' <= #[trigger] spec_sanitize_full(name)[i]
                && spec_sanitize_full(name)[i] <= 'z') || ('A' <= spec_sanitize_full(name)[i] && spec_sanitize_full(
                name,
            )[i] <= 'Z') || ('0' <= spec_sanitize_full(name)[i] && spec_sanitize_full(name)[i] <= '9')
                || spec_sanitize_full(name)[i] == '-',
        replace_invalid(name).len() == name.len(),
        forall|i: int|
            0 <= i < name.len() ==> #[trigger] replace_invalid(name)[i] == (if ('a' <= name[i] && name[i] <= 'z') || (
            'A' <= name[i] && name[i] <= 'Z') || ('0' <= name[i] && name[i] <= '9') || name[i] == '-' {
                name[i]
            } else {
                '-'
            }),
        0 < name.len() <= MAX_SESSION_NAME_LENGTH && (forall|i: int|
            0 <= i < name.len() ==> ('a' <= #[trigger] name[i] && name[i] <= 'z') || ('A' <= name[i] && name[i] <= 'Z')
                || ('0' <= name[i] && name[i] <= '9')) ==> spec_sanitize(name) == name,
{
    lemma_sanitize_full_clean(name);
    lemma_sanitize_is_limited_prefix(name);
    let f = spec_sanitize_full(name);
    let r = spec_sanitize(name);
    assert forall|i: int| 0 <= i < r.len() implies is_session_char(#[trigger] r[i]) by {}
    assert forall|i: int| 0 <= i < f.len() implies is_session_char(#[trigger] f[i]) by {}
    if 0 < name.len() <= MAX_SESSION_NAME_LENGTH && (forall|i: int|
        0 <= i < name.len() ==> ('a' <= #[trigger] name[i] && name[i] <= 'z') || ('A' <= name[i] && name[i] <= 'Z') || (
        '0' <= name[i] && name[i] <= '9')) {
        assert forall|i: int| 0 <= i < name.len() implies is_session_char(#[trigger] name[i]) && name[i] != '-' by {}
        assert(name[0] != '-');
        assert(name.last() == name[name.len() - 1]);
        lemma_sanitize_full_fixes_clean(name);
    }
}

/// A length-limited name that does not end in `-` sanitizes to itself.
/// (Cutting at the limit can leave a trailing `-`, which a second pass strips.)
pub proof fn lemma_sanitize_idempotent_unless_cut_at_dash(name: Seq<char>)
    requires
        spec_sanitize(name).last() != '-',
    ensures
        spec_sanitize(spec_sanitize(name)) == spec_sanitize(name),
{
    lemma_sanitize_is_limited_prefix(name);
    lemma_sanitize_full_fixes_clean(spec_sanitize(name));
}

/// Replaces invalid characters and collapses runs of `-`, giving the
/// characters before stripping.
fn replace_and_collapse(name: &str) -> (v: Vec<char>)
    ensures
        v@ == collapse_dashes(replace_invalid(name@)),
{
    let mut v: Vec<char> = Vec::new();
    let mut prev_was_dash = false;
    let ghost mut seen: Seq<char> = Seq::empty();
    for c in it: name.chars()
        invariant
            seen == it.seq().take(it.index() as int),
            v@ == collapse_dashes(replace_invalid(seen)),
            prev_was_dash == (seen.len() > 0 && session_char(seen.last()) == '-'),
    {
        let is_valid = (c >= 'a' && c <= 'z') || (c >= 'A' && c <= 'Z') || (c >= '0' && c <= '9') || c == '-';
        let m = if is_valid { c } else { '-' };
        proof {
            let ms = replace_invalid(seen.push(c));
            assert(ms == replace_invalid(seen).push(m));
            assert(ms.drop_last() == replace_invalid(seen));
            assert(it.seq().take(it.index() + 1) == seen.push(c));
        }
        if m == '-' {
            if !prev_was_dash {
                v.push(m);
            }
            prev_was_dash = true;
        } else {
            v.push(m);
            prev_was_dash = false;
        }
        proof {
            seen = seen.push(c);
        }
    }
    assert(seen == name@);
    v
}

/// The characters of the full sanitized name.
fn sanitize_full_chars(name: &str) -> (v: Vec<char>)
    ensures
        v@ == spec_sanitize_full(name@),
{
    let collapsed = replace_and_collapse(name);
    let (a, b) = strip_char_range(&collapsed, 0, collapsed.len(), '-');
    assert(collapsed@.subrange(0, collapsed@.len() as int) == collapsed@);
    if a == b {
        let mut v = Vec::new();
        v.push('s');
        v.push('e');
        v.push('s');
        v.push('s');
        v.push('i');
        v.push('o');
        v.push('n');
        assert(v@ == fallback_session_name());
        v
    } else {
        let mut v = Vec::new();
        let mut i = a;
        while i < b
            invariant
                a <= i <= b <= collapsed@.len(),
                v@ == collapsed@.subrange(a as int, i as int),
            decreases b - i,
        {
            v.push(collapsed[i]);
            assert(collapsed@.subrange(a as int, i + 1) == collapsed@.subrange(a as int, i as int).push(collapsed@[i as int]));
            i += 1;
        }
        v
    }
}

/// Sanitizes a workspace name into a session name without the length limit:
/// characters outside `[a-zA-Z0-9-]` become `-`, runs of `-` collapse to one,
/// `-` is stripped from both ends, and an empty result becomes `session`.
pub fn sanitize_session_name_full(name: &str) -> (r: String)
    ensures
        r@ == spec_sanitize_full(name@),
{
    let v = sanitize_full_chars(name);
    string_of_range(&v, 0, v.len())
}

/// Sanitizes a workspace name into a tmux/zellij-safe session name: the full
/// sanitized name cut to its first `MAX_SESSION_NAME_LENGTH` characters.
pub fn sanitize_session_name(name: &str) -> (r: String)
    ensures
        r@ == spec_sanitize(name@),
{
    let v = sanitize_full_chars(name);
    let end = if v.len() > MAX_SESSION_NAME_LENGTH { MAX_SESSION_NAME_LENGTH } else { v.len() };
    string_of_range(&v, 0, end)
}


/// The names of the given sessions.
pub open spec fn names_of(sessions: Seq<String>) -> Seq<Seq<char>> {
    sessions.map_values(|s: String| s@)
}

/// `base` followed by `-` and the decimal suffix `k`.
pub open spec fn numbered_name(base: Seq<char>, k: nat) -> Seq<char> {
    base + seq!['-'] + decimal(k)
}

/// The name `get_unique_session_name` picks: `base` itself when no session has
/// that name, otherwise `base-k` for the smallest `k >= 2` no session has.
pub open spec fn is_unique_choice(base: Seq<char>, names: Seq<Seq<char>>, r: Seq<char>) -> bool {
    if !names.contains(base) {
        r == base
    } else {
        exists|k: nat|
            #![trigger numbered_name(base, k)]
            k >= 2 && r == numbered_name(base, k) && !names.contains(r) && forall|j: nat|
                2 <= j < k ==> names.contains(#[trigger] numbered_name(base, j))
    }
}

proof fn lemma_numbered_injective(base: Seq<char>, a: nat, b: nat)
    requires
        numbered_name(base, a) == numbered_name(base, b),
    ensures
        a == b,
{
    let na = numbered_name(base, a);
    let nb = numbered_name(base, b);
    assert(na.len() == nb.len());
    assert(na.skip(base.len() as int + 1) == decimal(a));
    assert(nb.skip(base.len() as int + 1) == decimal(b));
    lemma_decimal_injective(a, b);
}

/// Pigeonhole: if the names `base-2 .. base-(m-1)` all occur among `names`,
/// there are at least `m - 2` names.
proof fn lemma_taken_suffixes_bounded(base: Seq<char>, names: Seq<Seq<char>>, m: int)
    requires
        m >= 2,
        forall|j: nat| 2 <= j < m ==> names.contains(#[trigger] numbered_name(base, j)),
    ensures
        m - 2 <= names.len(),
{
    let x = set_int_range(2, m);
    let f = |j: int| numbered_name(base, j as nat);
    lemma_int_range(2, m);
    assert forall|a: int, b: int| x.contains(a) && x.contains(b) && #[trigger] f(a) == #[trigger] f(b) implies a == b by {
        lemma_numbered_injective(base, a as nat, b as nat);
    }
    let y = x.map(f);
    lemma_map_size(x, y, f);
    let t = names.to_set();
    assert forall|e: Seq<char>| y.contains(e) implies t.contains(e) by {
        let j = choose|j: int| x.contains(j) && f(j) == e;
        assert(names.contains(numbered_name(base, j as nat)));
    }
    names.lemma_cardinality_of_set();
    lemma_len_subset(y, t);
}

/// Whether some session is named `name`.
pub(crate) fn session_exists(sessions: &[String], name: &String) -> (r: bool)
    ensures
        r == names_of(sessions@).contains(name@),
{
    let n = sessions.len();
    let mut i: usize = 0;
    while i < n
        invariant
            n == sessions@.len(),
            i <= n,
            forall|j: int| 0 <= j < i ==> sessions@[j]@ != name@,
        decreases n - i,
    {
        if sessions[i] == *name {
            assert(names_of(sessions@)[i as int] == name@);
            return true;
        }
        i += 1;
    }
    assert forall|j: int| 0 <= j < names_of(sessions@).len() implies names_of(sessions@)[j] != name@ by {
        assert(names_of(sessions@)[j] == sessions@[j]@);
    }
    false
}

/// A name no session has: `base` when it is free, otherwise `base-k` for the
/// smallest `k >= 2` that is free (so gaps left by closed sessions are
/// filled first).
pub fn get_unique_session_name(base: &str, sessions: &[String]) -> (r: String)
    ensures
        is_unique_choice(base@, names_of(sessions@), r@),
        !names_of(sessions@).contains(r@),
{
    let ghost names = names_of(sessions@);
    let base_owned = base.to_owned();
    if !session_exists(sessions, &base_owned) {
        return base_owned;
    }
    let total = sessions.len();
    let mut suffix: u128 = 2;
    loop
        invariant
            names == names_of(sessions@),
            names.contains(base@),
            2 <= suffix,
            suffix - 2 <= names.len(),
            names.len() == sessions@.len(),
            total == sessions@.len(),
            forall|j: nat| 2 <= j < suffix ==> names.contains(#[trigger] numbered_name(base@, j)),
        decreases names.len() + 2 - suffix,
    {
        let mut candidate = base.to_owned();
        push_char(&mut candidate, '-');
        push_decimal(&mut candidate, suffix);
        assert(candidate@ == numbered_name(base@, suffix as nat));
        if !session_exists(sessions, &candidate) {
            return candidate;
        }
        proof {
            lemma_taken_suffixes_bounded(base@, names, suffix + 1);
        }
        suffix += 1;
    }
}

} // verus!
