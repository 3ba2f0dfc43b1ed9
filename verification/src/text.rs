//! Character-level text handling: whitespace, trimming and splitting, over
//! the characters of a string.

use vstd::prelude::*;
use vstd::string::{StrSliceExecFns, StringExecFns};

verus! {

/// Whether `c` has the Unicode `White_Space` property, which is what
/// [`char::is_whitespace`] tests.
pub open spec fn is_ws(c: char) -> bool {
    let n = c as u32;
    ||| 0x9 <= n <= 0xD
    ||| n == 0x20
    ||| n == 0x85
    ||| n == 0xA0
    ||| n == 0x1680
    ||| 0x2000 <= n <= 0x200A
    ||| n == 0x2028
    ||| n == 0x2029
    ||| n == 0x202F
    ||| n == 0x205F
    ||| n == 0x3000
}

/// Whether `c` has the Unicode `White_Space` property.
pub fn is_white_space(c: char) -> (ws: bool)
    ensures
        ws == is_ws(c),
{
    let n = c as u32;
    (0x9 <= n && n <= 0xD) || n == 0x20 || n == 0x85 || n == 0xA0 || n == 0x1680 || (0x2000 <= n
        && n <= 0x200A) || n == 0x2028 || n == 0x2029 || n == 0x202F || n == 0x205F || n == 0x3000
}

/// The number of whitespace characters `s` starts with.
pub open spec fn leading_ws(s: Seq<char>) -> nat
    decreases s.len(),
{
    if s.len() > 0 && is_ws(s[0]) {
        1 + leading_ws(s.drop_first())
    } else {
        0
    }
}

/// The number of whitespace characters `s` ends with.
pub open spec fn trailing_ws(s: Seq<char>) -> nat
    decreases s.len(),
{
    if s.len() > 0 && is_ws(s.last()) {
        1 + trailing_ws(s.drop_last())
    } else {
        0
    }
}

/// `s` without its leading and trailing whitespace, as [`str::trim`] gives it.
pub open spec fn trimmed(s: Seq<char>) -> Seq<char> {
    if leading_ws(s) == s.len() {
        Seq::empty()
    } else {
        s.subrange(leading_ws(s) as int, s.len() - trailing_ws(s))
    }
}

/// The pieces of `s` between occurrences of `sep`, as [`str::split`] with a
/// one-character pattern gives them; there is always at least one.
pub open spec fn pieces(s: Seq<char>, sep: char) -> Seq<Seq<char>>
    decreases s.len(),
{
    if s.len() == 0 {
        seq![Seq::empty()]
    } else if s.last() == sep {
        pieces(s.drop_last(), sep).push(Seq::empty())
    } else {
        let p = pieces(s.drop_last(), sep);
        p.update(p.len() - 1, p.last().push(s.last()))
    }
}

/// The maximal runs of non-whitespace characters of `s`, as
/// [`str::split_whitespace`] gives them.
pub open spec fn words(s: Seq<char>) -> Seq<Seq<char>>
    decreases s.len(),
{
    if s.len() == 0 {
        Seq::empty()
    } else if is_ws(s.last()) {
        words(s.drop_last())
    } else if s.len() == 1 || is_ws(s.drop_last().last()) {
        words(s.drop_last()).push(seq![s.last()])
    } else {
        let w = words(s.drop_last());
        w.update(w.len() - 1, w.last().push(s.last()))
    }
}

/// A sequence of pieces always has a last piece.
pub proof fn lemma_pieces_len(s: Seq<char>, sep: char)
    ensures
        pieces(s, sep).len() >= 1,
    decreases s.len(),
{
    if s.len() > 0 {
        lemma_pieces_len(s.drop_last(), sep);
    }
}

/// The characters of `s`, one by one.
pub fn chars_of(s: &str) -> (chars: Vec<char>)
    ensures
        chars@ == s@,
{
    let n = s.unicode_len();
    let mut chars: Vec<char> = Vec::new();
    let mut i: usize = 0;
    while i < n
        invariant
            n == s@.len(),
            i <= n,
            chars@ == s@.take(i as int),
        decreases n - i,
    {
        let c = s.get_char(i);
        chars.push(c);
        assert(chars@ =~= s@.take(i + 1));
        i = i + 1;
    }
    assert(s@.take(n as int) =~= s@);
    chars
}

/// A new string with the characters `from..to` of `s`.
pub fn substring(s: &str, from: usize, to: usize) -> (sub: String)
    requires
        from <= to <= s@.len(),
    ensures
        sub@ == s@.subrange(from as int, to as int),
{
    String::from_str(s.substring_char(from, to))
}

/// Where the leading whitespace of `chars` ends.
proof fn lemma_leading_ws(s: Seq<char>, i: int)
    requires
        0 <= i <= s.len(),
        forall|j: int| 0 <= j < i ==> is_ws(#[trigger] s[j]),
        i == s.len() || !is_ws(s[i]),
    ensures
        leading_ws(s) == i,
    decreases i,
{
    if i > 0 {
        lemma_leading_ws(s.drop_first(), i - 1);
    }
}

/// Where the trailing whitespace of `chars` starts.
proof fn lemma_trailing_ws(s: Seq<char>, i: int)
    requires
        0 <= i <= s.len(),
        forall|j: int| i <= j < s.len() ==> is_ws(#[trigger] s[j]),
        i == 0 || !is_ws(s[i - 1]),
    ensures
        trailing_ws(s) == s.len() - i,
    decreases s.len() - i,
{
    if i < s.len() {
        lemma_trailing_ws(s.drop_last(), i);
    }
}

/// `s` without leading and trailing whitespace.
pub fn trim(s: &str) -> (t: String)
    ensures
        t@ == trimmed(s@),
{
    let chars = chars_of(s);
    let n = chars.len();
    let mut lo: usize = 0;
    while lo < n && is_white_space(chars[lo])
        invariant
            n == chars@.len(),
            lo <= n,
            forall|j: int| 0 <= j < lo ==> is_ws(#[trigger] chars@[j]),
        decreases n - lo,
    {
        lo = lo + 1;
    }
    proof {
        lemma_leading_ws(chars@, lo as int);
    }
    if lo == n {
        return String::new();
    }
    let mut hi: usize = n;
    while hi > lo && is_white_space(chars[hi - 1])
        invariant
            n == chars@.len(),
            lo < n,
            !is_ws(chars@[lo as int]),
            lo <= hi <= n,
            forall|j: int| hi <= j < n ==> is_ws(#[trigger] chars@[j]),
        decreases hi,
    {
        hi = hi - 1;
    }
    proof {
        if hi == lo {
            assert(is_ws(chars@[lo as int]));
        }
        lemma_trailing_ws(chars@, hi as int);
    }
    substring(s, lo, hi)
}

/// The characters of each string of `strings`.
pub open spec fn views(strings: Seq<String>) -> Seq<Seq<char>> {
    strings.map_values(|x: String| x@)
}

/// The pieces of `s` between occurrences of `sep`.
pub fn split_on(s: &str, sep: char) -> (parts: Vec<String>)
    ensures
        views(parts@) == pieces(s@, sep),
{
    let chars = chars_of(s);
    let n = chars.len();
    let mut parts: Vec<String> = Vec::new();
    let mut start: usize = 0;
    let mut i: usize = 0;
    proof {
        assert(chars@.take(0) =~= Seq::<char>::empty());
        assert(views(parts@).push(chars@.subrange(0, 0)) =~= seq![Seq::<char>::empty()]);
    }
    while i < n
        invariant
            n == chars@.len(),
            chars@ == s@,
            start <= i <= n,
            pieces(chars@.take(i as int), sep) == views(parts@).push(
                chars@.subrange(start as int, i as int),
            ),
        decreases n - i,
    {
        let ghost before = chars@.take(i as int);
        assert(chars@.take(i + 1).drop_last() =~= before);
        if chars[i] == sep {
            let part = substring(s, start, i);
            let ghost prev = parts@;
            let ghost piece = part@;
            parts.push(part);
            start = i + 1;
            proof {
                assert(views(parts@) =~= views(prev).push(piece));
                assert(chars@.subrange(start as int, i + 1) =~= Seq::<char>::empty());
            }
        } else {
            assert(chars@.subrange(start as int, i + 1) =~= chars@.subrange(start as int, i as int).push(chars@[i as int]));
        }
        i = i + 1;
        assert(pieces(chars@.take(i as int), sep) =~= views(parts@).push(chars@.subrange(start as int, i as int)));
    }
    let last = substring(s, start, n);
    parts.push(last);
    proof {
        assert(chars@.take(n as int) =~= chars@);
        assert(views(parts@) =~= pieces(s@, sep));
    }
    parts
}

/// The maximal runs of non-whitespace characters of `s`.
pub fn split_whitespace(s: &str) -> (parts: Vec<String>)
    ensures
        views(parts@) == words(s@),
{
    let chars = chars_of(s);
    let n = chars.len();
    let mut parts: Vec<String> = Vec::new();
    let mut start: usize = 0;
    let mut in_word = false;
    let mut i: usize = 0;
    proof {
        assert(chars@.take(0) =~= Seq::<char>::empty());
        assert(views(parts@) =~= Seq::<Seq<char>>::empty());
    }
    while i < n
        invariant
            n == chars@.len(),
            chars@ == s@,
            start <= i <= n,
            in_word == (i > 0 && !is_ws(chars@[i - 1])),
            in_word ==> start < i,
            words(chars@.take(i as int)) == if in_word {
                views(parts@).push(chars@.subrange(start as int, i as int))
            } else {
                views(parts@)
            },
        decreases n - i,
    {
        let ghost before = chars@.take(i as int);
        assert(chars@.take(i + 1).drop_last() =~= before);
        let c = chars[i];
        if is_white_space(c) {
            if in_word {
                let part = substring(s, start, i);
                let ghost prev = parts@;
                let ghost piece = part@;
                parts.push(part);
                proof {
                    assert(views(parts@) =~= views(prev).push(piece));
                }
            }
            in_word = false;
        } else if in_word {
            assert(chars@.subrange(start as int, i + 1) =~= chars@.subrange(
                start as int,
                i as int,
            ).push(c));
        } else {
            start = i;
            in_word = true;
            assert(chars@.subrange(i as int, i + 1) =~= seq![c]);
        }
        i = i + 1;
        assert(words(chars@.take(i as int)) =~= if in_word {
            views(parts@).push(chars@.subrange(start as int, i as int))
        } else {
            views(parts@)
        });
    }
    if in_word {
        let part = substring(s, start, n);
        let ghost prev = parts@;
        let ghost piece = part@;
        parts.push(part);
        proof {
            assert(views(parts@) =~= views(prev).push(piece));
        }
    }
    proof {
        assert(chars@.take(n as int) =~= chars@);
    }
    parts
}

/// The index of the first occurrence of `c` in `s`, if any.
pub open spec fn char_index(s: Seq<char>, c: char) -> Option<int> {
    crate::util::first_match(s, is_char(c))
}

/// Whether a character is `c`.
pub open spec fn is_char(c: char) -> spec_fn(char) -> bool {
    |x: char| x == c
}

/// The index of the first occurrence of `c` in `s`, if any.
pub fn find_char(s: &str, c: char) -> (idx: Option<usize>)
    ensures
        match idx {
            Some(i) => i < s@.len() && char_index(s@, c) == Some(i as int),
            None => char_index(s@, c) is None,
        },
{
    let chars = chars_of(s);
    let ghost p = is_char(c);
    let mut i: usize = 0;
    while i < chars.len()
        invariant
            chars@ == s@,
            p == is_char(c),
            i <= chars@.len(),
            forall|j: int| 0 <= j < i ==> !#[trigger] p(chars@[j]),
        decreases chars@.len() - i,
    {
        if chars[i] == c {
            proof {
                crate::util::lemma_first_match(chars@, p, i as int);
            }
            return Some(i);
        }
        i = i + 1;
    }
    proof {
        crate::util::lemma_no_match(chars@, p);
    }
    None
}

} // verus!
