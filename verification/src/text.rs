//! Small string building blocks shared by the other modules.

use vstd::prelude::*;
use vstd::string::{StrSliceExecFns, StringExecFns};
use regex::Regex;

verus! {

/// The views of a list of strings, in order.
pub open spec fn views(v: Seq<String>) -> Seq<Seq<char>> {
    v.map_values(|s: String| s@)
}

/// The view of an optional string.
pub open spec fn opt_view(o: Option<String>) -> Option<Seq<char>> {
    match o {
        Some(s) => Some(s@),
        None => None,
    }
}

/// A copy of an optional string.
pub fn clone_opt(o: &Option<String>) -> (r: Option<String>)
    ensures
        opt_view(r) == opt_view(*o),
{
    match o {
        Some(s) => Some(s.clone()),
        None => None,
    }
}

/// The characters that Unicode gives the property White_Space.
pub open spec fn is_white_space(c: char) -> bool {
    let n: u32 = c as u32;
    ||| 0x09 <= n <= 0x0D
    ||| n == 0x20
    ||| n == 0x85
    ||| n == 0xA0
    ||| n == 0x1680
    ||| 0x2000 <= n <= 0x200A
    ||| n == 0x2028
    ||| n == 0x2029
    ||| n == 0x202F
    ||| n == 0x205F
    ||| n == 0x3000
}

/// `s` without the white space it begins with.
pub open spec fn trim_start(s: Seq<char>) -> Seq<char>
    decreases s.len(),
{
    if s.len() > 0 && is_white_space(s[0]) {
        trim_start(s.skip(1))
    } else {
        s
    }
}

/// `s` without the white space it ends with.
pub open spec fn trim_end(s: Seq<char>) -> Seq<char>
    decreases s.len(),
{
    if s.len() > 0 && is_white_space(s.last()) {
        trim_end(s.drop_last())
    } else {
        s
    }
}

/// `s` without the white space at either end.
pub open spec fn trimmed(s: Seq<char>) -> Seq<char> {
    trim_end(trim_start(s))
}

/// `s` with every run of white space replaced by one space.
pub open spec fn collapse_spaces(s: Seq<char>) -> Seq<char>
    decreases s.len(),
{
    if s.len() == 0 {
        s
    } else if !is_white_space(s[0]) {
        seq![s[0]] + collapse_spaces(s.skip(1))
    } else if s.len() > 1 && is_white_space(s[1]) {
        collapse_spaces(s.skip(1))
    } else {
        seq![' '] + collapse_spaces(s.skip(1))
    }
}

/// `s` with every occurrence of `from` replaced by `to`.
pub open spec fn replace_char(s: Seq<char>, from: char, to: Seq<char>) -> Seq<char>
    decreases s.len(),
{
    if s.len() == 0 {
        s
    } else if s[0] == from {
        to + replace_char(s.skip(1), from, to)
    } else {
        seq![s[0]] + replace_char(s.skip(1), from, to)
    }
}

/// The parts in order, with `sep` between each two neighbours.
pub open spec fn join(parts: Seq<Seq<char>>, sep: Seq<char>) -> Seq<char>
    decreases parts.len(),
{
    if parts.len() == 0 {
        Seq::empty()
    } else if parts.len() == 1 {
        parts[0]
    } else {
        join(parts.drop_last(), sep) + sep + parts.last()
    }
}

/// What follows the last slash of a path; the whole path where it has none.
pub open spec fn last_component(path: Seq<char>) -> Seq<char>
    decreases path.len(),
{
    if path.len() == 0 || path.last() == '/' {
        Seq::empty()
    } else {
        last_component(path.drop_last()).push(path.last())
    }
}

/// `str::trim`: the text without the leading and trailing characters that
/// have the Unicode property White_Space.
#[verifier::external_body]
pub(crate) fn str_trim(s: &str) -> (r: &str)
    ensures
        r@ == trimmed(s@),
{
    s.trim()
}

/// The text with every match of a regular expression replaced, as the
/// `regex` crate does it; none where the pattern does not compile.
pub uninterp spec fn regex_replaced(
    pattern: Seq<char>,
    text: Seq<char>,
    replacement: Seq<char>,
) -> Option<Seq<char>>;

/// `Regex::new` and `Regex::replace_all`: the text with every match of the
/// pattern replaced, or nothing where the pattern does not compile. Of two
/// patterns the contract says what the result is. The pattern `/` matches
/// each slash, and a replacement without `$` is inserted as it stands. The
/// pattern `\s+` matches each longest run of characters with the property
/// White_Space.
#[verifier::external_body]
pub(crate) fn regex_replace_all(pattern: &str, text: &str, replacement: &str) -> (r: Option<String>)
    ensures
        opt_view(r) == regex_replaced(pattern@, text@, replacement@),
        pattern@ == seq!['/'] && !replacement@.contains('$') ==> r.is_some() && r.unwrap()@
            == replace_char(text@, '/', replacement@),
        pattern@ == seq!['\\', 's', '+'] && replacement@ == seq![' '] ==> r.is_some()
            && r.unwrap()@ == collapse_spaces(text@),
{
    match Regex::new(pattern) {
        Ok(re) => Some(re.replace_all(text, replacement).into_owned()),
        Err(_) => None,
    }
}

/// The parts in order, with `sep` between each two neighbours.
pub fn join_strings(parts: &Vec<String>, sep: &str) -> (r: String)
    ensures
        r@ == join(views(parts@), sep@),
{
    let mut out = String::new();
    let mut i: usize = 0;
    while i < parts.len()
        invariant
            i <= parts.len(),
            out@ == join(views(parts@).take(i as int), sep@),
        decreases parts.len() - i,
    {
        let ghost before = views(parts@).take(i as int);
        let ghost after = views(parts@).take(i + 1);
        proof {
            assert(after.drop_last() =~= before);
            assert(after.last() == parts@[i as int]@);
        }
        if i > 0 {
            out.append(sep);
        }
        out.append(parts[i].as_str());
        proof {
            if i == 0 {
                assert(before.len() == 0);
                assert(out@ =~= parts@[0]@);
            }
        }
        i += 1;
    }
    proof {
        assert(views(parts@).take(parts@.len() as int) =~= views(parts@));
    }
    out
}

proof fn lemma_last_component(path: Seq<char>, from: int)
    requires
        0 <= from <= path.len(),
        from == 0 || path[from - 1] == '/',
        forall|k: int| from <= k < path.len() ==> path[k] != '/',
    ensures
        last_component(path) == path.subrange(from, path.len() as int),
    decreases path.len() - from,
{
    if from == path.len() {
        assert(path.subrange(from, path.len() as int) =~= Seq::<char>::empty());
    } else {
        let head = path.drop_last();
        lemma_last_component(head, from);
        assert(head.subrange(from, head.len() as int).push(path.last()) =~= path.subrange(
            from,
            path.len() as int,
        ));
    }
}

/// What follows the last slash of a path; the whole path where it has none.
pub fn file_name_of(path: &str) -> (r: String)
    ensures
        r@ == last_component(path@),
{
    let n: usize = path.unicode_len();
    let mut from: usize = n;
    while from > 0 && path.get_char(from - 1) != '/'
        invariant
            from <= n,
            n == path@.len(),
            forall|k: int| from <= k < n ==> path@[k] != '/',
        decreases from,
    {
        from -= 1;
    }
    proof {
        lemma_last_component(path@, from as int);
    }
    String::from_str(path.substring_char(from, n))
}

} // verus!
