//! How the raw text of a title cell becomes an item's title.

use vstd::prelude::*;
use vstd::string::StringExecFns;
use crate::text::{join, 
    collapse_spaces, is_white_space, regex_replace_all, str_trim, trim_end, trim_start, trimmed,
};

verus! {

/// The title that a raw cell text stands for: trimmed, every run of white
/// space inside it replaced by one space, and trimmed again.
pub open spec fn normalized(raw: Seq<char>) -> Seq<char> {
    trimmed(collapse_spaces(trimmed(raw)))
}

/// The characters of `s` that are not white space, in order.
pub open spec fn visible(s: Seq<char>) -> Seq<char>
    decreases s.len(),
{
    if s.len() == 0 {
        s
    } else if is_white_space(s[0]) {
        visible(s.skip(1))
    } else {
        seq![s[0]] + visible(s.skip(1))
    }
}

/// Every white space character in `s` is a space that stands alone.
pub open spec fn single_spaced(s: Seq<char>) -> bool {
    forall|i: int|
        0 <= i < s.len() && is_white_space(#[trigger] s[i]) ==> s[i] == ' ' && (i + 1 < s.len()
            ==> !is_white_space(s[i + 1]))
}

/// `s` neither begins nor ends with white space.
pub open spec fn tight(s: Seq<char>) -> bool {
    s.len() > 0 ==> !is_white_space(s[0]) && !is_white_space(s.last())
}

/// Normalizes the raw text of a title cell.
pub fn normalize_title(raw: &str) -> (r: String)
    ensures
        r@ == normalized(raw@),
{
    let inner = str_trim(raw);
    proof {
        reveal_strlit("\\s+");
        reveal_strlit(" ");
        assert("\\s+"@ =~= seq!['\\', 's', '+']);
        assert(" "@ =~= seq![' ']);
    }
    // The pattern compiles, so there is a result.
    match regex_replace_all("\\s+", inner, " ") {
        Some(collapsed) => String::from_str(str_trim(collapsed.as_str())),
        None => String::from_str(inner),
    }
}

proof fn lemma_visible_push(s: Seq<char>, c: char)
    ensures
        visible(s.push(c)) == if is_white_space(c) {
            visible(s)
        } else {
            visible(s).push(c)
        },
    decreases s.len(),
{
    if s.len() == 0 {
        assert(s.push(c).skip(1) =~= Seq::<char>::empty());
        assert(visible(s.push(c).skip(1)) =~= Seq::<char>::empty());
        assert(seq![c] + Seq::<char>::empty() =~= Seq::<char>::empty().push(c));
    } else {
        lemma_visible_push(s.skip(1), c);
        assert(s.push(c).skip(1) =~= s.skip(1).push(c));
        if !is_white_space(s[0]) && !is_white_space(c) {
            assert(seq![s[0]] + visible(s.skip(1)).push(c) =~= (seq![s[0]] + visible(
                s.skip(1),
            )).push(c));
        }
    }
}

proof fn lemma_trim_start(s: Seq<char>)
    ensures
        visible(trim_start(s)) == visible(s),
        single_spaced(s) ==> single_spaced(trim_start(s)),
        trim_start(s).len() > 0 ==> !is_white_space(trim_start(s)[0]) && trim_start(s).last()
            == s.last(),
        trim_start(s).len() <= s.len(),
    decreases s.len(),
{
    if s.len() > 0 && is_white_space(s[0]) {
        lemma_trim_start(s.skip(1));
        if single_spaced(s) {
            assert forall|i: int|
                0 <= i < s.skip(1).len() && is_white_space(#[trigger] s.skip(1)[i]) implies s.skip(
                1,
            )[i] == ' ' && (i + 1 < s.skip(1).len() ==> !is_white_space(s.skip(1)[i + 1])) by {
                assert(s.skip(1)[i] == s[i + 1]);
            }
        }
    }
}

proof fn lemma_trim_end(s: Seq<char>)
    ensures
        visible(trim_end(s)) == visible(s),
        single_spaced(s) ==> single_spaced(trim_end(s)),
        trim_end(s).len() > 0 ==> !is_white_space(trim_end(s).last()) && trim_end(s)[0] == s[0],
        trim_end(s).len() <= s.len(),
    decreases s.len(),
{
    if s.len() > 0 && is_white_space(s.last()) {
        lemma_trim_end(s.drop_last());
        lemma_visible_push(s.drop_last(), s.last());
        assert(s.drop_last().push(s.last()) =~= s);
        if single_spaced(s) {
            assert forall|i: int|
                0 <= i < s.drop_last().len() && is_white_space(
                    #[trigger] s.drop_last()[i],
                ) implies s.drop_last()[i] == ' ' && (i + 1 < s.drop_last().len()
                ==> !is_white_space(s.drop_last()[i + 1])) by {
                assert(s.drop_last()[i] == s[i]);
            }
        }
    }
}

proof fn lemma_collapse(s: Seq<char>)
    ensures
        visible(collapse_spaces(s)) == visible(s),
        single_spaced(collapse_spaces(s)),
        s.len() > 0 ==> collapse_spaces(s).len() > 0 && (is_white_space(collapse_spaces(s)[0])
            <==> is_white_space(s[0])) && (is_white_space(collapse_spaces(s).last())
            <==> is_white_space(s.last())),
        s.len() == 0 ==> collapse_spaces(s).len() == 0,
    decreases s.len(),
{
    if s.len() > 0 {
        let rest = s.skip(1);
        let inner = collapse_spaces(rest);
        lemma_collapse(rest);
        if rest.len() > 0 {
            assert(rest[0] == s[1]);
            assert(rest.last() == s.last());
        }
        if !is_white_space(s[0]) || !(s.len() > 1 && is_white_space(s[1])) {
            let head = if is_white_space(s[0]) {
                ' '
            } else {
                s[0]
            };
            let out = seq![head] + inner;
            assert(collapse_spaces(s) == out);
            assert(out.skip(1) =~= inner);
            assert(out[0] == head);
            assert(is_white_space(' '));
            assert forall|i: int| 0 <= i < out.len() && is_white_space(#[trigger] out[i]) implies out[i]
                == ' ' && (i + 1 < out.len() ==> !is_white_space(out[i + 1])) by {
                if i > 0 {
                    assert(out[i] == inner[i - 1]);
                    if i + 1 < out.len() {
                        assert(out[i + 1] == inner[i]);
                    }
                } else if i + 1 < out.len() {
                    assert(out[1] == inner[0]);
                }
            }
            if inner.len() > 0 {
                assert(out.last() == inner.last());
            }
        }
    }
}

/// A normalized title keeps the characters of the raw text that are not white
/// space, in their order; it neither begins nor ends with white space; and the
/// only white space inside it is a single space between two other characters.
pub proof fn lemma_normalized_title(raw: Seq<char>)
    ensures
        visible(normalized(raw)) == visible(raw),
        tight(normalized(raw)),
        single_spaced(normalized(raw)),
{
    let a = trim_start(raw);
    let b = trim_end(a);
    let c = collapse_spaces(b);
    let d = trim_start(c);
    let e = trim_end(d);
    lemma_trim_start(raw);
    lemma_trim_end(a);
    lemma_collapse(b);
    lemma_trim_start(c);
    lemma_trim_end(d);
}

/// Normalizing a title a second time changes nothing.
pub proof fn lemma_normalized_again(raw: Seq<char>)
    ensures
        normalized(normalized(raw)) == normalized(raw),
{
    let t = normalized(raw);
    lemma_normalized_title(raw);
    lemma_collapse_single_spaced(t);
    assert(trim_start(t) == t);
    assert(trim_end(t) == t);
}

proof fn lemma_collapse_single_spaced(s: Seq<char>)
    requires
        single_spaced(s),
    ensures
        collapse_spaces(s) == s,
    decreases s.len(),
{
    if s.len() > 0 {
        let rest = s.skip(1);
        assert forall|i: int| 0 <= i < rest.len() && is_white_space(#[trigger] rest[i]) implies rest[i]
            == ' ' && (i + 1 < rest.len() ==> !is_white_space(rest[i + 1])) by {
            assert(rest[i] == s[i + 1]);
        }
        lemma_collapse_single_spaced(rest);
        assert(seq![s[0]] + rest =~= s);
        if is_white_space(s[0]) {
            assert(s[0] == ' ');
        }
    }
}

/// The words of a text: its longest runs of characters that are not white
/// space, in their order.
pub open spec fn words(s: Seq<char>) -> Seq<Seq<char>>
    decreases s.len(),
{
    if s.len() == 0 {
        Seq::empty()
    } else if is_white_space(s[0]) {
        words(s.skip(1))
    } else {
        let rest = words(s.skip(1));
        if s.len() > 1 && !is_white_space(s[1]) {
            rest.update(0, seq![s[0]] + rest[0])
        } else {
            seq![seq![s[0]]] + rest
        }
    }
}

proof fn lemma_words_begin(s: Seq<char>)
    requires
        s.len() > 0,
        !is_white_space(s[0]),
    ensures
        words(s).len() > 0,
    decreases s.len(),
{
    if s.len() > 1 && !is_white_space(s[1]) {
        assert(s.skip(1)[0] == s[1]);
        lemma_words_begin(s.skip(1));
    }
}

proof fn lemma_words_trim_start(s: Seq<char>)
    ensures
        words(trim_start(s)) == words(s),
    decreases s.len(),
{
    if s.len() > 0 && is_white_space(s[0]) {
        lemma_words_trim_start(s.skip(1));
    }
}

proof fn lemma_words_without_last(s: Seq<char>)
    requires
        s.len() > 0,
        is_white_space(s.last()),
    ensures
        words(s.drop_last()) == words(s),
    decreases s.len(),
{
    let short = s.drop_last();
    if s.len() == 1 {
        assert(words(s.skip(1)) =~= Seq::<Seq<char>>::empty());
    } else {
        let rest = s.skip(1);
        assert(rest.last() == s.last());
        assert(short.skip(1) =~= rest.drop_last());
        assert(short[0] == s[0]);
        lemma_words_without_last(rest);
        if !is_white_space(s[0]) {
            if s.len() == 2 {
                assert(rest[0] == s[1]);
                assert(is_white_space(s[1]));
                assert(short.len() == 1);
            } else {
                assert(short[1] == s[1]);
            }
        }
    }
}

proof fn lemma_words_trim_end(s: Seq<char>)
    ensures
        words(trim_end(s)) == words(s),
    decreases s.len(),
{
    if s.len() > 0 && is_white_space(s.last()) {
        lemma_words_without_last(s);
        lemma_words_trim_end(s.drop_last());
    }
}

proof fn lemma_words_collapse(s: Seq<char>)
    ensures
        words(collapse_spaces(s)) == words(s),
    decreases s.len(),
{
    if s.len() > 0 {
        let rest = s.skip(1);
        let inner = collapse_spaces(rest);
        lemma_words_collapse(rest);
        lemma_collapse(rest);
        if rest.len() > 0 {
            assert(rest[0] == s[1]);
        }
        if !is_white_space(s[0]) {
            let out = seq![s[0]] + inner;
            assert(collapse_spaces(s) == out);
            assert(out.skip(1) =~= inner);
            assert(out[0] == s[0]);
            if inner.len() > 0 {
                assert(out[1] == inner[0]);
            }
        } else if s.len() > 1 && is_white_space(s[1]) {
        } else {
            let out = seq![' '] + inner;
            assert(collapse_spaces(s) == out);
            assert(out.skip(1) =~= inner);
            assert(out[0] == ' ');
            assert(is_white_space(' '));
        }
    }
}

proof fn lemma_join_front(first: Seq<char>, rest: Seq<Seq<char>>, sep: Seq<char>)
    ensures
        join(seq![first] + rest, sep) == if rest.len() == 0 {
            first
        } else {
            first + sep + join(rest, sep)
        },
    decreases rest.len(),
{
    let parts = seq![first] + rest;
    if rest.len() == 0 {
        assert(parts.len() == 1);
        assert(parts[0] == first);
    } else {
        let shorter = rest.drop_last();
        assert(parts.drop_last() =~= seq![first] + shorter);
        assert(parts.last() == rest.last());
        lemma_join_front(first, shorter, sep);
        if shorter.len() == 0 {
            assert(rest.len() == 1);
            assert(join(rest, sep) == rest[0]);
            assert(rest[0] == rest.last());
        } else {
            assert(join(parts, sep) =~= first + sep + join(rest, sep));
        }
    }
}

proof fn lemma_join_longer_first(parts: Seq<Seq<char>>, c: char, sep: Seq<char>)
    requires
        parts.len() > 0,
    ensures
        join(parts.update(0, seq![c] + parts[0]), sep) == seq![c] + join(parts, sep),
{
    let tail = parts.skip(1);
    assert(parts =~= seq![parts[0]] + tail);
    assert(parts.update(0, seq![c] + parts[0]) =~= seq![seq![c] + parts[0]] + tail);
    lemma_join_front(parts[0], tail, sep);
    lemma_join_front(seq![c] + parts[0], tail, sep);
    if tail.len() > 0 {
        assert(seq![c] + parts[0] + sep + join(tail, sep) =~= seq![c] + (parts[0] + sep + join(
            tail,
            sep,
        )));
    }
}

/// A text that does not end with white space, and in which white space is a
/// single space between two other characters or one space at the start, is
/// its words with single spaces between them, after the space at the start.
proof fn lemma_joined_words(t: Seq<char>)
    requires
        single_spaced(t),
        t.len() > 0 ==> !is_white_space(t.last()),
    ensures
        join(words(t), seq![' ']) == if t.len() > 0 && is_white_space(t[0]) {
            t.skip(1)
        } else {
            t
        },
        t.len() > 0 && is_white_space(t[0]) ==> t.len() >= 2 && !is_white_space(t[1]) && t[0]
            == ' ',
    decreases t.len(),
{
    let sep = seq![' '];
    if t.len() > 0 {
        let u = t.skip(1);
        assert forall|i: int| 0 <= i < u.len() && is_white_space(#[trigger] u[i]) implies u[i] == ' '
            && (i + 1 < u.len() ==> !is_white_space(u[i + 1])) by {
            assert(u[i] == t[i + 1]);
        }
        if u.len() > 0 {
            assert(u.last() == t.last());
            assert(u[0] == t[1]);
        }
        lemma_joined_words(u);
        if is_white_space(t[0]) {
            assert(t[0] == ' ');
            assert(t.len() >= 2);
            assert(!is_white_space(t[1]));
        } else if u.len() == 0 {
            assert(words(u) =~= Seq::<Seq<char>>::empty());
            lemma_join_front(seq![t[0]], words(u), sep);
            assert(seq![t[0]] =~= t);
        } else if !is_white_space(u[0]) {
            lemma_words_begin(u);
            lemma_join_longer_first(words(u), t[0], sep);
            assert(seq![t[0]] + u =~= t);
        } else {
            assert(words(u) == words(u.skip(1)));
            assert(u.skip(1)[0] == u[1]);
            lemma_words_begin(u.skip(1));
            lemma_join_front(seq![t[0]], words(u), sep);
            assert(seq![t[0]] + sep + u.skip(1) =~= t) by {
                assert(u[0] == ' ');
                assert(sep + u.skip(1) =~= u);
                assert(seq![t[0]] + u =~= t);
                assert(seq![t[0]] + sep + u.skip(1) =~= seq![t[0]] + (sep + u.skip(1)));
            }
        }
    }
}

/// A normalized title is the words of the raw text, none lost, added or
/// altered, in their order, with one space between each two.
pub proof fn lemma_normalized_words(raw: Seq<char>)
    ensures
        normalized(raw) == join(words(raw), seq![' ']),
{
    let a = trim_start(raw);
    let b = trim_end(a);
    let c = collapse_spaces(b);
    let d = trim_start(c);
    let e = trim_end(d);
    lemma_words_trim_start(raw);
    lemma_words_trim_end(a);
    lemma_words_collapse(b);
    lemma_words_trim_start(c);
    lemma_words_trim_end(d);
    lemma_normalized_title(raw);
    lemma_joined_words(e);
}

} // verus!
