//! Character-level helpers shared by the command interpreter and the
//! snapshot format.
//!
//! Text is modelled as `Seq<char>`. The executable functions work on a
//! `Vec<char>` and hand out positions into it, so that callers can cut the
//! pieces they need out of the text they started from.

use vstd::prelude::*;
use vstd::string::StringExecFns;

verus! {

/// Whether `c` carries the Unicode `White_Space` property.
pub open spec fn is_white_space(c: char) -> bool {
    let n = c as u32;
    ||| 0x09 <= n <= 0x0D
    ||| n == 0x20
    ||| n == 0x85
    ||| n == 0xA0
    ||| n == 0x1680
    ||| 0x2000 <= n <= 0x200A
    ||| n == 0x2028
    ||| n == 0x2029
    ||| n == 0x202F
    ||| n == 0x205F
    ||| n == 0x3000
}

/// Decides [`is_white_space`].
pub fn is_whitespace(c: char) -> (b: bool)
    ensures
        b == is_white_space(c),
{
    let n: u32 = c as u32;
    (0x09 <= n && n <= 0x0D) || n == 0x20 || n == 0x85 || n == 0xA0 || n == 0x1680 || (0x2000 <= n
        && n <= 0x200A) || n == 0x2028 || n == 0x2029 || n == 0x202F || n == 0x205F || n == 0x3000
}

/// The number of characters at the start of `s` that are white space (when
/// `white` holds) or that are not (when it does not).
pub open spec fn leading_run(s: Seq<char>, white: bool) -> nat
    decreases s.len(),
{
    if s.len() > 0 && is_white_space(s[0]) == white {
        1 + leading_run(s.skip(1), white)
    } else {
        0
    }
}

/// The number of white-space characters at the end of `s`.
pub open spec fn trailing_whitespace(s: Seq<char>) -> nat
    decreases s.len(),
{
    if s.len() > 0 && is_white_space(s.last()) {
        1 + trailing_whitespace(s.drop_last())
    } else {
        0
    }
}

/// `s` without the white space at its start.
pub open spec fn trim_start(s: Seq<char>) -> Seq<char> {
    s.skip(leading_run(s, true) as int)
}

/// `s` without the white space at its start and at its end.
pub open spec fn trim(s: Seq<char>) -> Seq<char> {
    let rest = trim_start(s);
    rest.take(rest.len() - trailing_whitespace(rest))
}

/// `s` after `prefix` has been taken off its start as often as it stands
/// there. An empty `prefix` takes nothing off.
pub open spec fn strip_prefixes(s: Seq<char>, prefix: Seq<char>) -> Seq<char>
    decreases s.len(),
{
    if prefix.len() > 0 && prefix.is_prefix_of(s) {
        strip_prefixes(s.skip(prefix.len() as int), prefix)
    } else {
        s
    }
}

/// Whether `needle` occurs somewhere in `s` as a contiguous piece.
pub open spec fn contains_text(s: Seq<char>, needle: Seq<char>) -> bool {
    exists|i: int| 0 <= i <= s.len() && #[trigger] needle.is_prefix_of(s.skip(i))
}

/// A run that ends at `n` has length `n`: everything before `n` is of the
/// wanted kind, and `n` is the end of `s` or of the other kind.
pub proof fn lemma_leading_run(s: Seq<char>, white: bool, n: int)
    requires
        0 <= n <= s.len(),
        forall|i: int| 0 <= i < n ==> is_white_space(#[trigger] s[i]) == white,
        n == s.len() || is_white_space(s[n]) != white,
    ensures
        leading_run(s, white) == n,
    decreases n,
{
    if n > 0 {
        let rest = s.skip(1);
        assert forall|i: int| 0 <= i < n - 1 implies is_white_space(#[trigger] rest[i])
            == white by {
            assert(rest[i] == s[i + 1]);
        }
        lemma_leading_run(rest, white, n - 1);
    }
}

/// The white space at the end of `s` has length `n` when the last `n`
/// characters are white space and the one before them, if any, is not.
pub proof fn lemma_trailing_whitespace(s: Seq<char>, n: int)
    requires
        0 <= n <= s.len(),
        forall|i: int| s.len() - n <= i < s.len() ==> is_white_space(#[trigger] s[i]),
        n == s.len() || !is_white_space(s[s.len() - n - 1]),
    ensures
        trailing_whitespace(s) == n,
    decreases n,
{
    if n > 0 {
        let rest = s.drop_last();
        assert forall|i: int| rest.len() - (n - 1) <= i < rest.len() implies is_white_space(
            #[trigger] rest[i],
        ) by {
            assert(rest[i] == s[i]);
        }
        lemma_trailing_whitespace(rest, n - 1);
    }
}

/// What occurs in a text occurs in every text that ends with it.
pub proof fn lemma_contains_behind(front: Seq<char>, s: Seq<char>, needle: Seq<char>)
    requires
        contains_text(s, needle),
    ensures
        contains_text(front + s, needle),
{
    let at = choose|i: int| 0 <= i <= s.len() && #[trigger] needle.is_prefix_of(s.skip(i));
    assert((front + s).skip(front.len() + at) =~= s.skip(at));
}

/// The characters of `s`, in order.
pub fn chars_of(s: &str) -> (chars: Vec<char>)
    ensures
        chars@ == s@,
{
    let mut chars: Vec<char> = Vec::new();
    for c in it: s.chars()
        invariant
            chars@ == it.seq().take(it.index() as int),
            it.seq() == s@,
    {
        chars.push(c);
    }
    chars
}

/// Whether two pieces of text hold the same characters.
pub fn same_text(a: &str, b: &str) -> (same: bool)
    ensures
        same == (a@ == b@),
{
    String::from_str(a) == String::from_str(b)
}

/// Where the run of white space (or of other characters) that starts at
/// `from` ends, looking no further than `to`.
pub fn scan_run(s: &Vec<char>, from: usize, to: usize, white: bool) -> (end: usize)
    requires
        from <= to <= s.len(),
    ensures
        from <= end <= to,
        end == from + leading_run(s@.subrange(from as int, to as int), white),
{
    let mut end: usize = from;
    while end < to && is_whitespace(s[end]) == white
        invariant
            from <= end <= to <= s.len(),
            forall|i: int| from <= i < end ==> is_white_space(#[trigger] s@[i]) == white,
        decreases to - end,
    {
        end += 1;
    }
    proof {
        let piece = s@.subrange(from as int, to as int);
        assert forall|i: int| 0 <= i < end - from implies is_white_space(#[trigger] piece[i])
            == white by {
            assert(piece[i] == s@[from + i]);
        }
        lemma_leading_run(piece, white, end - from);
    }
    end
}

/// Where the white space that ends at `to` starts, looking no further back
/// than `from`.
pub fn scan_back(s: &Vec<char>, from: usize, to: usize) -> (start: usize)
    requires
        from <= to <= s.len(),
    ensures
        from <= start <= to,
        start == to - trailing_whitespace(s@.subrange(from as int, to as int)),
{
    let mut start: usize = to;
    while start > from && is_whitespace(s[start - 1])
        invariant
            from <= start <= to <= s.len(),
            forall|i: int| start <= i < to ==> is_white_space(#[trigger] s@[i]),
        decreases start,
    {
        start -= 1;
    }
    proof {
        let piece = s@.subrange(from as int, to as int);
        assert forall|i: int| piece.len() - (to - start) <= i < piece.len() implies is_white_space(
            #[trigger] piece[i],
        ) by {
            assert(piece[i] == s@[from + i]);
        }
        lemma_trailing_whitespace(piece, to - start);
    }
    start
}

/// The bounds of `s[from..to]` once the white space at both of its ends is
/// left out.
pub fn trim_bounds(s: &Vec<char>, from: usize, to: usize) -> (bounds: (usize, usize))
    requires
        from <= to <= s.len(),
    ensures
        from <= bounds.0 <= bounds.1 <= to,
        s@.subrange(bounds.0 as int, bounds.1 as int) == trim(s@.subrange(from as int, to as int)),
{
    let start = scan_run(s, from, to, true);
    let end = scan_back(s, start, to);
    proof {
        let piece = s@.subrange(from as int, to as int);
        let rest = trim_start(piece);
        assert(rest == s@.subrange(start as int, to as int));
        assert(rest.take(rest.len() - trailing_whitespace(rest)) == s@.subrange(
            start as int,
            end as int,
        ));
    }
    (start, end)
}

/// Whether `prefix` stands in `s` at position `at`.
pub fn starts_with_at(s: &Vec<char>, at: usize, prefix: &Vec<char>) -> (found: bool)
    requires
        at <= s.len(),
    ensures
        found == prefix@.is_prefix_of(s@.skip(at as int)),
{
    if prefix.len() > s.len() - at {
        return false;
    }
    let mut i: usize = 0;
    while i < prefix.len()
        invariant
            at <= s.len(),
            prefix.len() <= s.len() - at,
            i <= prefix.len(),
            forall|k: int| 0 <= k < i ==> prefix@[k] == s@[at + k],
        decreases prefix.len() - i,
    {
        if prefix[i] != s[at + i] {
            proof {
                let tail = s@.skip(at as int);
                assert(tail.subrange(0, prefix@.len() as int)[i as int] == s@[at + i]);
            }
            return false;
        }
        i += 1;
    }
    proof {
        let tail = s@.skip(at as int);
        assert(prefix@ =~= tail.subrange(0, prefix@.len() as int));
    }
    true
}

/// Where `s` starts once `prefix` has been taken off its start as often as
/// it stands there.
pub fn strip_prefixes_start(s: &Vec<char>, prefix: &Vec<char>) -> (start: usize)
    ensures
        start <= s.len(),
        s@.skip(start as int) == strip_prefixes(s@, prefix@),
{
    let mut start: usize = 0;
    if prefix.len() == 0 {
        assert(s@.skip(0) == s@);
        return 0;
    }
    assert(s@.skip(0) == s@);
    while starts_with_at(s, start, prefix)
        invariant
            start <= s.len(),
            prefix.len() > 0,
            strip_prefixes(s@.skip(start as int), prefix@) == strip_prefixes(s@, prefix@),
        decreases s.len() - start,
    {
        proof {
            assert(s@.skip(start as int).skip(prefix@.len() as int) == s@.skip(
                start + prefix@.len(),
            ));
        }
        start += prefix.len();
    }
    start
}

/// Decides [`contains_text`].
pub fn contains(s: &Vec<char>, needle: &Vec<char>) -> (found: bool)
    ensures
        found == contains_text(s@, needle@),
{
    let mut at: usize = 0;
    while at < s.len()
        invariant
            at <= s.len(),
            forall|i: int| 0 <= i < at ==> !#[trigger] needle@.is_prefix_of(s@.skip(i)),
        decreases s.len() - at,
    {
        if starts_with_at(s, at, needle) {
            return true;
        }
        at += 1;
    }
    starts_with_at(s, at, needle)
}

} // verus!
