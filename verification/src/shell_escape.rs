//! POSIX shell quoting of a single argument.

use vstd::prelude::*;
use crate::text::{next_index, lemma_next_index_bounds, lemma_next_index_is, push_char};

verus! {

/// What a single quote inside the argument becomes: close the quoted span,
/// a double-quoted `'`, reopen the span.
pub open spec fn quote_replacement() -> Seq<char> {
    seq!['\'', '"', '\'', '"', '\'']
}

/// The argument with every `'` replaced by `'"'"'`.
pub open spec fn escape_quotes(s: Seq<char>) -> Seq<char>
    decreases s.len(),
{
    if s.len() == 0 {
        Seq::empty()
    } else {
        (if s[0] == '\'' {
            quote_replacement()
        } else {
            seq![s[0]]
        }) + escape_quotes(s.drop_first())
    }
}

/// The quoted form of `s`: `'`, the argument with each `'` replaced, `'`.
/// For the empty argument this is `''`.
pub open spec fn spec_shell_escape(s: Seq<char>) -> Seq<char> {
    seq!['\''] + escape_quotes(s) + seq!['\'']
}

/// Characters that keep a special meaning inside double quotes.
pub open spec fn special_in_double_quotes(c: char) -> bool {
    c == '$' || c == '`' || c == '\\' || c == '"'
}

/// The literal value a POSIX shell gives to a word made only of quoted
/// spans (`'...'`, or `"..."` holding no `$`, `` ` `` or `\`), after quote
/// removal; `None` for any other text (an unquoted character, an unclosed
/// quote, or a double-quoted span that could expand).
pub open spec fn quoted_word_value(t: Seq<char>) -> Option<Seq<char>>
    decreases t.len(),
{
    if t.len() == 0 {
        Some(Seq::empty())
    } else if t[0] == '\'' || t[0] == '"' {
        let q = t[0];
        let j = next_index(t, q, 1);
        if j >= t.len() {
            None
        } else {
            let content = t.subrange(1, j);
            if q == '"' && exists|k: int| 0 <= k < content.len() && special_in_double_quotes(#[trigger] content[k]) {
                None
            } else {
                proof {
                    lemma_next_index_bounds(t, q, 1);
                }
                match quoted_word_value(t.subrange(j + 1, t.len() as int)) {
                    Some(rest) => Some(content + rest),
                    None => None,
                }
            }
        }
    } else {
        None
    }
}

proof fn lemma_escape_read(p: Seq<char>, s: Seq<char>)
    requires
        forall|k: int| 0 <= k < p.len() ==> p[k] != '\'',
    ensures
        quoted_word_value(seq!['\''] + p + escape_quotes(s) + seq!['\'']) == Some(p + s),
    decreases s.len(),
{
    let t = seq!['\''] + p + escape_quotes(s) + seq!['\''];
    if s.len() == 0 {
        assert(escape_quotes(s) == Seq::<char>::empty());
        assert(t == seq!['\''] + p + seq!['\'']);
        assert(t[0] == '\'');
        lemma_next_index_is(t, '\'', 1, p.len() as int + 1);
        assert(t.subrange(1, p.len() as int + 1) == p);
        assert(t.subrange(p.len() as int + 2, t.len() as int) == Seq::<char>::empty());
        assert(quoted_word_value(Seq::<char>::empty()) == Some(Seq::<char>::empty()));
        assert(p + Seq::<char>::empty() == p);
        assert(p + s == p);
    } else if s[0] != '\'' {
        let p2 = p.push(s[0]);
        lemma_escape_read(p2, s.drop_first());
        assert(escape_quotes(s) == seq![s[0]] + escape_quotes(s.drop_first()));
        assert(seq!['\''] + p + escape_quotes(s) + seq!['\''] == seq!['\''] + p2 + escape_quotes(s.drop_first()) + seq!['\'']);
        assert(p2 + s.drop_first() == p + s);
    } else {
        let rest = escape_quotes(s.drop_first());
        assert(escape_quotes(s) == quote_replacement() + rest);
        lemma_escape_read(Seq::empty(), s.drop_first());
        let r2 = seq!['\''] + Seq::<char>::empty() + rest + seq!['\''];
        // t = ' p ' " ' " r2
        let r1 = seq!['"', '\'', '"'] + r2;
        assert(t == seq!['\''] + p + seq!['\''] + r1);
        assert(t[0] == '\'');
        lemma_next_index_is(t, '\'', 1, p.len() as int + 1);
        assert(t.subrange(1, p.len() as int + 1) == p);
        assert(t.subrange(p.len() as int + 2, t.len() as int) == r1);
        lemma_next_index_is(r1, '"', 1, 2);
        assert(r1.subrange(1, 2) == seq!['\'']);
        assert(r1.subrange(3, r1.len() as int) == r2);
        assert(!(exists|k: int| 0 <= k < r1.subrange(1, 2).len() && special_in_double_quotes(#[trigger] r1.subrange(1, 2)[k])));
        assert(r1[0] == '"');
        assert(quoted_word_value(r1) == Some(seq!['\''] + s.drop_first()));
        assert(quoted_word_value(t) == Some(p + quoted_word_value(r1).unwrap()));
        assert(p + (seq!['\''] + s.drop_first()) == p + s);
    }
}

/// The quoted form of any argument is one word that a POSIX shell reads back
/// as exactly that argument: no character of it can end the quoting, start an
/// expansion or split the word.
pub proof fn lemma_shell_escape_round_trip(s: Seq<char>)
    ensures
        quoted_word_value(spec_shell_escape(s)) == Some(s),
{
    lemma_escape_read(Seq::empty(), s);
    assert(seq!['\''] + Seq::<char>::empty() + escape_quotes(s) + seq!['\''] == spec_shell_escape(s));
    assert(Seq::<char>::empty() + s == s);
}

proof fn lemma_escape_quotes_snoc(s: Seq<char>, c: char)
    ensures
        escape_quotes(s.push(c)) == escape_quotes(s) + (if c == '\'' { quote_replacement() } else { seq![c] }),
    decreases s.len(),
{
    let piece = if c == '\'' { quote_replacement() } else { seq![c] };
    if s.len() == 0 {
        assert(s.push(c).drop_first() == Seq::<char>::empty());
        assert(escape_quotes(s) == Seq::<char>::empty());
        assert(escape_quotes(s.push(c)) == piece + escape_quotes(Seq::<char>::empty()));
        assert(piece + Seq::<char>::empty() == piece);
        assert(Seq::<char>::empty() + piece == piece);
    } else {
        let s0 = if s[0] == '\'' { quote_replacement() } else { seq![s[0]] };
        lemma_escape_quotes_snoc(s.drop_first(), c);
        assert(s.push(c).drop_first() == s.drop_first().push(c));
        assert(s.push(c)[0] == s[0]);
        assert(escape_quotes(s.push(c)) == s0 + escape_quotes(s.drop_first().push(c)));
        assert(escape_quotes(s) == s0 + escape_quotes(s.drop_first()));
        assert(s0 + (escape_quotes(s.drop_first()) + piece) == (s0 + escape_quotes(s.drop_first())) + piece);
    }
}

/// Quotes `value` for a POSIX shell: wraps it in single quotes and replaces
/// each `'` inside with `'"'"'`; the empty string becomes `''`.
pub fn shell_escape(value: &str) -> (r: String)
    ensures
        r@ == spec_shell_escape(value@),
{
    let mut r = String::new();
    push_char(&mut r, '\'');
    let ghost mut seen: Seq<char> = Seq::empty();
    for c in it: value.chars()
        invariant
            seen == it.seq().take(it.index() as int),
            r@ == seq!['\''] + escape_quotes(seen),
    {
        proof {
            lemma_escape_quotes_snoc(seen, c);
            assert(it.seq().take(it.index() + 1) == seen.push(c));
        }
        if c == '\'' {
            push_char(&mut r, '\'');
            push_char(&mut r, '"');
            push_char(&mut r, '\'');
            push_char(&mut r, '"');
            push_char(&mut r, '\'');
        } else {
            push_char(&mut r, c);
        }
        proof {
            seen = seen.push(c);
        }
    }
    assert(seen == value@);
    push_char(&mut r, '\'');
    r
}

} // verus!
