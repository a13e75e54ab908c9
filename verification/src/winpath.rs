//! Windows paths as std's `Path` reads them: the prefix (`C:`,
//! `\\server\share`, `\\?\...`, `\\.\device`), the last component, and a
//! name appended with `push`.

use vstd::prelude::*;
use vstd::string::StringExecFns;
use crate::detect::texts_of;
use crate::text::{chars_of, lemma_split_on_step, push_char, range_equals, split_on, str_equals, string_of_range};

verus! {

/// A separator in a Windows path: `\` or `/`.
pub open spec fn is_win_sep(c: char) -> bool {
    c == '\\' || c == '/'
}

/// An ASCII letter, as a drive letter must be.
pub open spec fn is_drive_letter(c: char) -> bool {
    ('a' <= c && c <= 'z') || ('A' <= c && c <= 'Z')
}

/// The kinds of path prefix Windows knows.
#[derive(Debug, Clone, Copy, PartialEq, Eq, Structural)]
pub enum PrefixKind {
    /// `\\?\name`
    Verbatim,
    /// `\\?\UNC\server\share`
    VerbatimUnc,
    /// `\\?\C:`
    VerbatimDisk,
    /// `\\.\device`
    DeviceNs,
    /// `\\server\share`
    Unc,
    /// `C:`
    Disk,
}

/// The prefixes that begin with `\\?\`, in which only `\` separates and `.`
/// is kept as a component.
pub open spec fn is_verbatim(k: PrefixKind) -> bool {
    k is Verbatim || k is VerbatimUnc || k is VerbatimDisk
}

/// Where the component starting at `from` ends: at the next separator (only
/// `\` when `verbatim`), else at the end of `p`.
pub open spec fn comp_end(p: Seq<char>, from: int, verbatim: bool) -> int
    decreases p.len() - from,
{
    if from < 0 || from >= p.len() {
        p.len() as int
    } else if p[from] == '\\' || (!verbatim && p[from] == '/') {
        from
    } else {
        comp_end(p, from + 1, verbatim)
    }
}

/// The prefix of `p` and its length, as std parses it: two separators open
/// `\\?\` (verbatim, backslashes only), `\\.\` (device) or `\\server\share`
/// (both parts non-empty); otherwise a drive letter and `:` make a disk.
pub open spec fn windows_prefix(p: Seq<char>) -> Option<(PrefixKind, int)> {
    if p.len() >= 2 && is_win_sep(p[0]) && is_win_sep(p[1]) {
        if p.len() >= 4 && p[0] == '\\' && p[1] == '\\' && p[2] == '?' && p[3] == '\\' {
            if p.len() >= 8 && p[4] == 'U' && p[5] == 'N' && p[6] == 'C' && is_win_sep(p[7]) {
                let a = comp_end(p, 8, true);
                if a < p.len() && comp_end(p, a + 1, true) > a + 1 {
                    Some((PrefixKind::VerbatimUnc, comp_end(p, a + 1, true)))
                } else {
                    Some((PrefixKind::VerbatimUnc, a))
                }
            } else if p.len() >= 6 && is_drive_letter(p[4]) && p[5] == ':' && (p.len() == 6 || p[6] == '\\') {
                Some((PrefixKind::VerbatimDisk, 6))
            } else {
                Some((PrefixKind::Verbatim, comp_end(p, 4, true)))
            }
        } else if p.len() >= 4 && p[2] == '.' && is_win_sep(p[3]) {
            Some((PrefixKind::DeviceNs, comp_end(p, 4, false)))
        } else {
            let a = comp_end(p, 2, false);
            if a > 2 && a < p.len() && comp_end(p, a + 1, false) > a + 1 {
                Some((PrefixKind::Unc, comp_end(p, a + 1, false)))
            } else {
                None
            }
        }
    } else if p.len() >= 2 && is_drive_letter(p[0]) && p[1] == ':' {
        Some((PrefixKind::Disk, 2))
    } else {
        None
    }
}

/// The length of the prefix of `p` (0 without one).
pub open spec fn prefix_len(p: Seq<char>) -> int {
    match windows_prefix(p) {
        Some((_, n)) => n,
        None => 0,
    }
}

/// Whether `p` begins with a verbatim prefix.
pub open spec fn prefix_verbatim(p: Seq<char>) -> bool {
    match windows_prefix(p) {
        Some((k, _)) => is_verbatim(k),
        None => false,
    }
}

/// Where the components of `p` begin: after the prefix and the separator
/// that roots the path, if there is one.
pub open spec fn body_start(p: Seq<char>) -> int {
    let n = prefix_len(p);
    if 0 <= n < p.len() && is_win_sep(p[n]) {
        n + 1
    } else {
        n
    }
}

/// `s` with every `/` written as `\`.
pub open spec fn unify_seps(s: Seq<char>) -> Seq<char> {
    s.map_values(|c: char| if c == '/' { '\\' } else { c })
}

/// The components of `p` as text in which `\` alone separates: both
/// separators count, except in a verbatim path, where `/` is an ordinary
/// character.
pub open spec fn body_text(p: Seq<char>) -> Seq<char> {
    let body = p.subrange(body_start(p), p.len() as int);
    if prefix_verbatim(p) {
        body
    } else {
        unify_seps(body)
    }
}

/// The last piece that names something: not empty, and not `.` when
/// `skip_dot` (a `.` is dropped everywhere but in verbatim paths).
pub open spec fn last_named(pieces: Seq<Seq<char>>, skip_dot: bool) -> Option<Seq<char>>
    decreases pieces.len(),
{
    if pieces.len() == 0 {
        None
    } else if pieces.last().len() == 0 || (skip_dot && pieces.last() == seq!['.']) {
        last_named(pieces.drop_last(), skip_dot)
    } else {
        Some(pieces.last())
    }
}

/// The final component of a Windows path (`Path::file_name`): none when the
/// path ends in its prefix or root, in `..`, or in a verbatim `.`.
pub open spec fn windows_file_name(p: Seq<char>) -> Option<Seq<char>> {
    match last_named(split_on(body_text(p), '\\'), !prefix_verbatim(p)) {
        Some(c) => if c == seq!['.'] || c == seq!['.', '.'] {
            None
        } else {
            Some(c)
        },
        None => None,
    }
}

fn win_sep(c: char) -> (b: bool)
    ensures
        b == is_win_sep(c),
{
    c == '\\' || c == '/'
}

fn drive_letter(c: char) -> (b: bool)
    ensures
        b == is_drive_letter(c),
{
    ('a' <= c && c <= 'z') || ('A' <= c && c <= 'Z')
}

/// `comp_end` stays within `from..=len`.
pub proof fn lemma_comp_end_bounds(p: Seq<char>, from: int, verbatim: bool)
    requires
        0 <= from <= p.len(),
    ensures
        from <= comp_end(p, from, verbatim) <= p.len(),
    decreases p.len() - from,
{
    if from < p.len() && !(p[from] == '\\' || (!verbatim && p[from] == '/')) {
        lemma_comp_end_bounds(p, from + 1, verbatim);
    }
}

fn component_end(v: &Vec<char>, from: usize, verbatim: bool) -> (r: usize)
    requires
        from <= v@.len(),
    ensures
        r == comp_end(v@, from as int, verbatim),
        from <= r <= v@.len(),
{
    let mut i = from;
    while i < v.len()
        invariant
            from <= i <= v@.len(),
            comp_end(v@, from as int, verbatim) == comp_end(v@, i as int, verbatim),
        decreases v@.len() - i,
    {
        if v[i] == '\\' || (!verbatim && v[i] == '/') {
            return i;
        }
        i += 1;
    }
    i
}

/// The prefix of the path `v` and its length.
pub fn prefix_of(v: &Vec<char>) -> (r: Option<(PrefixKind, usize)>)
    ensures
        match r {
            Some((k, n)) => windows_prefix(v@) == Some((k, n as int)) && n <= v@.len(),
            None => windows_prefix(v@) is None,
        },
{
    let len = v.len();
    if len >= 2 && win_sep(v[0]) && win_sep(v[1]) {
        if len >= 4 && v[0] == '\\' && v[1] == '\\' && v[2] == '?' && v[3] == '\\' {
            if len >= 8 && v[4] == 'U' && v[5] == 'N' && v[6] == 'C' && win_sep(v[7]) {
                let a = component_end(v, 8, true);
                if a < len {
                    let b = component_end(v, a + 1, true);
                    if b > a + 1 {
                        return Some((PrefixKind::VerbatimUnc, b));
                    }
                }
                Some((PrefixKind::VerbatimUnc, a))
            } else if len >= 6 && drive_letter(v[4]) && v[5] == ':' && (len == 6 || v[6] == '\\') {
                Some((PrefixKind::VerbatimDisk, 6))
            } else {
                Some((PrefixKind::Verbatim, component_end(v, 4, true)))
            }
        } else if len >= 4 && v[2] == '.' && win_sep(v[3]) {
            Some((PrefixKind::DeviceNs, component_end(v, 4, false)))
        } else {
            let a = component_end(v, 2, false);
            if a > 2 && a < len {
                let b = component_end(v, a + 1, false);
                if b > a + 1 {
                    return Some((PrefixKind::Unc, b));
                }
            }
            None
        }
    } else if len >= 2 && drive_letter(v[0]) && v[1] == ':' {
        Some((PrefixKind::Disk, 2))
    } else {
        None
    }
}

/// The components text of the path `v` (`body_text`), and whether the path
/// is verbatim.
fn body_of(v: &Vec<char>) -> (r: (Vec<char>, bool))
    ensures
        r.0@ == body_text(v@),
        r.1 == prefix_verbatim(v@),
{
    let len = v.len();
    let (n, verbatim) = match prefix_of(v) {
        Some((k, n)) => (n, k == PrefixKind::Verbatim || k == PrefixKind::VerbatimUnc || k == PrefixKind::VerbatimDisk),
        None => (0, false),
    };
    let start = if n < len && win_sep(v[n]) {
        n + 1
    } else {
        n
    };
    assert(start == body_start(v@));
    let ghost body = v@.subrange(start as int, len as int);
    let mut w: Vec<char> = Vec::new();
    let mut i = start;
    while i < len
        invariant
            start <= i <= len == v@.len(),
            body == v@.subrange(start as int, len as int),
            w@.len() == i - start,
            forall|k: int|
                0 <= k < w@.len() ==> #[trigger] w@[k] == (if !verbatim && body[k] == '/' {
                    '\\'
                } else {
                    body[k]
                }),
        decreases len - i,
    {
        let c = v[i];
        if !verbatim && c == '/' {
            w.push('\\');
        } else {
            w.push(c);
        }
        i += 1;
    }
    if verbatim {
        assert(w@ =~= body);
    } else {
        assert(w@ =~= unify_seps(body));
    }
    (w, verbatim)
}

/// The range of the last piece of `w` (split at `\`) that `last_named` picks.
fn last_named_range(w: &Vec<char>, skip_dot: bool) -> (r: Option<(usize, usize)>)
    ensures
        match r {
            Some((a, b)) => a <= b <= w@.len() && last_named(split_on(w@, '\\'), skip_dot) == Some(
                w@.subrange(a as int, b as int),
            ),
            None => last_named(split_on(w@, '\\'), skip_dot) is None,
        },
{
    let n = w.len();
    let mut start: usize = 0;
    let mut i: usize = 0;
    let mut last: Option<(usize, usize)> = None;
    let ghost mut done: Seq<Seq<char>> = Seq::empty();
    assert(w@.take(0) == Seq::<char>::empty());
    assert(w@.subrange(0, 0) == Seq::<char>::empty());
    assert("."@ == seq!['.']) by {
        reveal_strlit(".");
    }
    while i < n
        invariant
            n == w@.len(),
            "."@ == seq!['.'],
            start <= i <= n,
            split_on(w@.take(i as int), '\\') == done.push(w@.subrange(start as int, i as int)),
            match last {
                Some((a, b)) => a <= b <= n && last_named(done, skip_dot) == Some(w@.subrange(a as int, b as int)),
                None => last_named(done, skip_dot) is None,
            },
        decreases n - i,
    {
        proof {
            lemma_split_on_step(w@, '\\', i as int, done, start as int);
        }
        if w[i] == '\\' {
            let ghost piece = w@.subrange(start as int, i as int);
            if start < i && !(skip_dot && range_equals(w, start, i, ".")) {
                last = Some((start, i));
            }
            proof {
                assert(done.push(piece).drop_last() == done);
                assert(done.push(piece).last() == piece);
                done = done.push(piece);
            }
            start = i + 1;
        }
        i += 1;
    }
    if start < n && !(skip_dot && range_equals(w, start, n, ".")) {
        last = Some((start, n));
    }
    proof {
        let piece = w@.subrange(start as int, n as int);
        assert(done.push(piece).drop_last() == done);
        assert(done.push(piece).last() == piece);
        assert(w@.take(n as int) == w@);
    }
    last
}

/// The final component of the Windows path `path` (`Path::file_name`).
pub fn file_name_windows(path: &str) -> (r: Option<String>)
    ensures
        match r {
            Some(s) => windows_file_name(path@) == Some(s@),
            None => windows_file_name(path@) is None,
        },
{
    let v = chars_of(path);
    let (w, verbatim) = body_of(&v);
    assert("."@ == seq!['.']) by {
        reveal_strlit(".");
    }
    assert(".."@ == seq!['.', '.']) by {
        reveal_strlit("..");
    }
    match last_named_range(&w, !verbatim) {
        Some((a, b)) => {
            if range_equals(&w, a, b, ".") || range_equals(&w, a, b, "..") {
                None
            } else {
                Some(string_of_range(&w, a, b))
            }
        },
        None => None,
    }
}

/// A piece that names an entry (std's `Component::Normal`): neither empty
/// nor `.` nor `..`.
pub open spec fn is_normal_piece(p: Seq<char>) -> bool {
    p.len() > 0 && p != seq!['.'] && p != seq!['.', '.']
}

/// The non-empty pieces, in order.
pub open spec fn nonempty_pieces(pieces: Seq<Seq<char>>) -> Seq<Seq<char>>
    decreases pieces.len(),
{
    if pieces.len() == 0 {
        Seq::empty()
    } else if pieces.last().len() == 0 {
        nonempty_pieces(pieces.drop_last())
    } else {
        nonempty_pieces(pieces.drop_last()).push(pieces.last())
    }
}

/// The components of a verbatim path after one more piece of a pushed path:
/// an empty piece or `.` adds nothing, `..` removes a last ordinary
/// component (if there is one), anything else is added.
pub open spec fn push_piece(items: Seq<Seq<char>>, piece: Seq<char>) -> Seq<Seq<char>> {
    if piece.len() == 0 || piece == seq!['.'] {
        items
    } else if piece == seq!['.', '.'] {
        if items.len() > 0 && is_normal_piece(items.last()) {
            items.drop_last()
        } else {
            items
        }
    } else {
        items.push(piece)
    }
}

/// `push_piece` for each piece, in order.
pub open spec fn push_pieces(items: Seq<Seq<char>>, pieces: Seq<Seq<char>>) -> Seq<Seq<char>>
    decreases pieces.len(),
{
    if pieces.len() == 0 {
        items
    } else {
        push_piece(push_pieces(items, pieces.drop_last()), pieces.last())
    }
}

/// Each item preceded by a `\`.
pub open spec fn backslash_each(items: Seq<Seq<char>>) -> Seq<char>
    decreases items.len(),
{
    if items.len() == 0 {
        Seq::empty()
    } else {
        backslash_each(items.drop_last()).push('\\') + items.last()
    }
}

/// Whether `p` has a root: a separator right after its prefix.
pub open spec fn has_root(p: Seq<char>) -> bool {
    body_start(p) > prefix_len(p)
}

/// The components of the verbatim path `base` after `path` (which has no
/// prefix) is pushed: those of `base` (none when `path` has a root), then
/// the pieces of `path` applied by `push_piece`.
pub open spec fn verbatim_items(base: Seq<char>, path: Seq<char>) -> Seq<Seq<char>> {
    push_pieces(
        if has_root(path) {
            Seq::empty()
        } else {
            nonempty_pieces(split_on(body_text(base), '\\'))
        },
        split_on(unify_seps(path), '\\'),
    )
}

/// Whether a path pushed onto `base` is put after a `\`: unless `base` is
/// empty, ends in a separator, or is a bare drive such as `C:`.
pub open spec fn push_needs_sep(base: Seq<char>) -> bool {
    base.len() > 0 && !is_win_sep(base.last()) && !(windows_prefix(base) == Some((PrefixKind::Disk, 2int))
        && base.len() == 2)
}

/// `base` with `path` pushed (`PathBuf::push` on Windows):
/// - a `path` with a prefix replaces `base`;
/// - onto a verbatim `base`, a non-empty `path` is resolved component by
///   component and the result written out again: the prefix, then a `\`
///   before each component (a lone `\` when rooted and nothing is left);
/// - a `path` with a root keeps only the prefix of `base`;
/// - otherwise `path` follows `base`, after a `\` when `push_needs_sep`.
pub open spec fn windows_push(base: Seq<char>, path: Seq<char>) -> Seq<char> {
    if windows_prefix(path) is Some {
        path
    } else if prefix_verbatim(base) && path.len() > 0 {
        let items = verbatim_items(base, path);
        base.subrange(0, prefix_len(base)) + (if (has_root(base) || has_root(path)) && items.len() == 0 {
            seq!['\\']
        } else {
            backslash_each(items)
        })
    } else if has_root(path) {
        base.subrange(0, prefix_len(base)) + path
    } else if push_needs_sep(base) {
        base.push('\\') + path
    } else {
        base + path
    }
}

/// The non-empty pieces of `w`, split at `\`.
fn nonempty_pieces_of(w: &Vec<char>) -> (items: Vec<String>)
    ensures
        texts_of(items@) == nonempty_pieces(split_on(w@, '\\')),
{
    let n = w.len();
    let mut items: Vec<String> = Vec::new();
    let mut start: usize = 0;
    let mut i: usize = 0;
    let ghost mut done: Seq<Seq<char>> = Seq::empty();
    assert(w@.take(0) == Seq::<char>::empty());
    assert(w@.subrange(0, 0) == Seq::<char>::empty());
    while i < n
        invariant
            n == w@.len(),
            start <= i <= n,
            split_on(w@.take(i as int), '\\') == done.push(w@.subrange(start as int, i as int)),
            texts_of(items@) == nonempty_pieces(done),
        decreases n - i,
    {
        proof {
            lemma_split_on_step(w@, '\\', i as int, done, start as int);
        }
        if w[i] == '\\' {
            let ghost piece = w@.subrange(start as int, i as int);
            if start < i {
                items.push(string_of_range(w, start, i));
            }
            proof {
                assert(done.push(piece).drop_last() == done);
                assert(done.push(piece).last() == piece);
                assert(texts_of(items@) == nonempty_pieces(done.push(piece)));
                done = done.push(piece);
            }
            start = i + 1;
        }
        i += 1;
    }
    let ghost piece = w@.subrange(start as int, n as int);
    if start < n {
        items.push(string_of_range(w, start, n));
    }
    proof {
        assert(done.push(piece).drop_last() == done);
        assert(done.push(piece).last() == piece);
        assert(texts_of(items@) == nonempty_pieces(done.push(piece)));
        assert(w@.take(n as int) == w@);
    }
    items
}

fn normal_piece(s: &str) -> (b: bool)
    ensures
        b == is_normal_piece(s@),
{
    proof {
        reveal_strlit(".");
        reveal_strlit("..");
    }
    assert("."@ == seq!['.']);
    assert(".."@ == seq!['.', '.']);
    let c = chars_of(s);
    c.len() > 0 && !str_equals(s, ".") && !str_equals(s, "..")
}

/// Applies one piece, `w[lo..hi]`, to the components `items`.
fn apply_piece(items: &mut Vec<String>, w: &Vec<char>, lo: usize, hi: usize)
    requires
        lo <= hi <= w@.len(),
    ensures
        texts_of(final(items)@) == push_piece(texts_of(old(items)@), w@.subrange(lo as int, hi as int)),
{
    proof {
        reveal_strlit(".");
        reveal_strlit("..");
    }
    assert("."@ == seq!['.']);
    assert(".."@ == seq!['.', '.']);
    let ghost before = texts_of(items@);
    if lo == hi || range_equals(w, lo, hi, ".") {
    } else if range_equals(w, lo, hi, "..") {
        let k = items.len();
        if k > 0 && normal_piece(items[k - 1].as_str()) {
            assert(before.last() == items@[k - 1]@);
            items.pop();
            assert(texts_of(items@) =~= before.drop_last());
        }
    } else {
        items.push(string_of_range(w, lo, hi));
        assert(texts_of(items@) =~= before.push(w@.subrange(lo as int, hi as int)));
    }
}

/// Applies the pieces of `w`, split at `\`, to the components `items`.
fn apply_pieces(items: &mut Vec<String>, w: &Vec<char>)
    ensures
        texts_of(final(items)@) == push_pieces(texts_of(old(items)@), split_on(w@, '\\')),
{
    let ghost init = texts_of(items@);
    let n = w.len();
    let mut start: usize = 0;
    let mut i: usize = 0;
    let ghost mut done: Seq<Seq<char>> = Seq::empty();
    assert(w@.take(0) == Seq::<char>::empty());
    assert(w@.subrange(0, 0) == Seq::<char>::empty());
    while i < n
        invariant
            n == w@.len(),
            start <= i <= n,
            split_on(w@.take(i as int), '\\') == done.push(w@.subrange(start as int, i as int)),
            texts_of(items@) == push_pieces(init, done),
        decreases n - i,
    {
        proof {
            lemma_split_on_step(w@, '\\', i as int, done, start as int);
        }
        if w[i] == '\\' {
            let ghost piece = w@.subrange(start as int, i as int);
            apply_piece(items, w, start, i);
            proof {
                assert(done.push(piece).drop_last() == done);
                assert(done.push(piece).last() == piece);
                done = done.push(piece);
            }
            start = i + 1;
        }
        i += 1;
    }
    let ghost piece = w@.subrange(start as int, n as int);
    apply_piece(items, w, start, n);
    proof {
        assert(done.push(piece).drop_last() == done);
        assert(done.push(piece).last() == piece);
        assert(w@.take(n as int) == w@);
    }
}

/// Appends to `r` each item preceded by a `\`.
fn write_backslash_each(r: &mut String, items: &Vec<String>)
    ensures
        final(r)@ == old(r)@ + backslash_each(texts_of(items@)),
{
    let ghost r0 = r@;
    let n = items.len();
    let mut i: usize = 0;
    assert(texts_of(items@).take(0) =~= Seq::<Seq<char>>::empty());
    assert(r0 + Seq::<char>::empty() == r0);
    while i < n
        invariant
            n == items@.len(),
            i <= n,
            r@ == r0 + backslash_each(texts_of(items@).take(i as int)),
        decreases n - i,
    {
        let ghost t = backslash_each(texts_of(items@).take(i as int));
        push_char(r, '\\');
        r.append(items[i].as_str());
        proof {
            let all = texts_of(items@);
            assert(all.take(i + 1).drop_last() =~= all.take(i as int));
            assert(all.take(i + 1).last() == items@[i as int]@);
            assert(r0 + (t.push('\\') + items@[i as int]@) =~= (r0 + t).push('\\') + items@[i as int]@);
        }
        i += 1;
    }
    assert(texts_of(items@).take(n as int) =~= texts_of(items@));
}

/// `p` with every `/` written as `\`.
fn unified(p: &Vec<char>) -> (w: Vec<char>)
    ensures
        w@ == unify_seps(p@),
{
    let mut w: Vec<char> = Vec::new();
    let mut i: usize = 0;
    while i < p.len()
        invariant
            i <= p@.len(),
            w@.len() == i,
            forall|k: int| 0 <= k < i ==> #[trigger] w@[k] == (if p@[k] == '/' { '\\' } else { p@[k] }),
        decreases p@.len() - i,
    {
        if p[i] == '/' {
            w.push('\\');
        } else {
            w.push(p[i]);
        }
        i += 1;
    }
    assert(w@ =~= unify_seps(p@));
    w
}

/// `base` with `path` pushed, as `PathBuf::push` does on Windows.
pub fn push_windows(base: &str, path: &str) -> (r: String)
    ensures
        r@ == windows_push(base@, path@),
{
    let p = chars_of(path);
    if prefix_of(&p).is_some() {
        return path.to_owned();
    }
    let v = chars_of(base);
    let len = v.len();
    let mut n: usize = 0;
    let mut verbatim = false;
    let mut bare_drive = false;
    match prefix_of(&v) {
        Some((k, m)) => {
            n = m;
            verbatim = k == PrefixKind::Verbatim || k == PrefixKind::VerbatimUnc || k == PrefixKind::VerbatimDisk;
            bare_drive = k == PrefixKind::Disk && m == 2 && len == 2;
        },
        None => {},
    }
    assert(n == prefix_len(v@));
    assert(verbatim == prefix_verbatim(v@));
    let base_root = n < len && win_sep(v[n]);
    let path_root = p.len() > 0 && win_sep(p[0]);
    assert(base_root == has_root(v@));
    assert(prefix_len(p@) == 0);
    assert(path_root == has_root(p@));
    if verbatim && p.len() > 0 {
        let mut items: Vec<String> = if path_root {
            Vec::new()
        } else {
            let (w, _) = body_of(&v);
            nonempty_pieces_of(&w)
        };
        assert(texts_of(Seq::<String>::empty()) =~= Seq::<Seq<char>>::empty());
        let u = unified(&p);
        apply_pieces(&mut items, &u);
        let mut r = string_of_range(&v, 0, n);
        if (base_root || path_root) && items.len() == 0 {
            push_char(&mut r, '\\');
            assert(seq!['\\'] == Seq::<char>::empty().push('\\'));
            assert(v@.subrange(0, n as int).push('\\') =~= v@.subrange(0, n as int) + seq!['\\']);
        } else {
            write_backslash_each(&mut r, &items);
        }
        return r;
    }
    if path_root {
        let mut r = string_of_range(&v, 0, n);
        r.append(path);
        return r;
    }
    let mut r = base.to_owned();
    if len > 0 && !win_sep(v[len - 1]) && !bare_drive {
        push_char(&mut r, '\\');
    }
    r.append(path);
    r
}
} // verus!
