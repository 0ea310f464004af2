//! Character-level text helpers shared by the parsers and formatters.
//!
//! Strings are reasoned about through their `Seq<char>` views.  The parsers
//! here follow the documented behaviour of the std functions they stand in
//! for (`str::lines`, `str::split`, `str::trim`, `u8::from_str`,
//! `u32::from_str_radix`).
use vstd::prelude::*;

verus! {

// ── Building strings ──────────────────────────────────────────────────────────

/// Appends one character to a `String` (`String::push`).
#[verifier::external_body]
pub(crate) fn push_char(s: &mut String, c: char)
    ensures
        final(s)@ == old(s)@.push(c),
{
    s.push(c);
}

/// The characters of a string slice, in order.
pub fn chars_of(s: &str) -> (out: Vec<char>)
    ensures
        out@ == s@,
{
    let mut out: Vec<char> = Vec::new();
    for c in it: s.chars()
        invariant
            out@ == it.seq().take(it.index() as int),
    {
        out.push(c);
    }
    out
}

/// A `String` holding exactly the given characters.
pub fn string_from_chars(cs: &[char]) -> (out: String)
    ensures
        out@ == cs@,
{
    let mut out = String::new();
    let mut i: usize = 0;
    while i < cs.len()
        invariant
            i <= cs@.len(),
            out@ == cs@.take(i as int),
        decreases cs@.len() - i,
    {
        push_char(&mut out, cs[i]);
        proof {
            assert(cs@.take(i + 1) =~= cs@.take(i as int).push(cs@[i as int]));
        }
        i = i + 1;
    }
    proof {
        assert(cs@.take(cs@.len() as int) =~= cs@);
    }
    out
}

/// The characters of `s` from `lo` up to (not including) `hi`.
pub fn subslice(s: &[char], lo: usize, hi: usize) -> (out: Vec<char>)
    requires
        lo <= hi <= s@.len(),
    ensures
        out@ == s@.subrange(lo as int, hi as int),
{
    let mut out: Vec<char> = Vec::new();
    let mut i: usize = lo;
    while i < hi
        invariant
            lo <= i <= hi <= s@.len(),
            out@ == s@.subrange(lo as int, i as int),
        decreases hi - i,
    {
        out.push(s[i]);
        proof {
            assert(s@.subrange(lo as int, i + 1) =~= s@.subrange(lo as int, i as int).push(s@[i as int]));
        }
        i = i + 1;
    }
    out
}

/// Appends all characters of `src` to `dst`.
pub fn extend_chars(dst: &mut Vec<char>, src: &[char])
    ensures
        final(dst)@ == old(dst)@ + src@,
{
    let mut i: usize = 0;
    while i < src.len()
        invariant
            i <= src@.len(),
            dst@ == old(dst)@ + src@.take(i as int),
        decreases src@.len() - i,
    {
        dst.push(src[i]);
        proof {
            assert(src@.take(i + 1) =~= src@.take(i as int).push(src@[i as int]));
        }
        i = i + 1;
    }
    proof {
        assert(src@.take(src@.len() as int) =~= src@);
    }
}

/// Appends the characters of a string slice to `dst`.
pub fn extend_str(dst: &mut Vec<char>, src: &str)
    ensures
        final(dst)@ == old(dst)@ + src@,
{
    let cs = chars_of(src);
    extend_chars(dst, cs.as_slice());
}

// ── Comparison and search ─────────────────────────────────────────────────────

/// Whether two character sequences are equal.
pub fn chars_eq(a: &[char], b: &[char]) -> (r: bool)
    ensures
        r == (a@ == b@),
{
    if a.len() != b.len() {
        return false;
    }
    let mut i: usize = 0;
    while i < a.len()
        invariant
            a@.len() == b@.len(),
            i <= a@.len(),
            forall|j: int| 0 <= j < i ==> a@[j] == b@[j],
        decreases a@.len() - i,
    {
        if a[i] != b[i] {
            return false;
        }
        i = i + 1;
    }
    proof {
        assert(a@ =~= b@);
    }
    true
}

/// Whether `s` begins with `p`.
pub fn starts_with(s: &[char], p: &[char]) -> (r: bool)
    ensures
        r == p@.is_prefix_of(s@),
{
    if p.len() > s.len() {
        return false;
    }
    let mut i: usize = 0;
    while i < p.len()
        invariant
            p@.len() <= s@.len(),
            i <= p@.len(),
            forall|j: int| 0 <= j < i ==> p@[j] == s@[j],
        decreases p@.len() - i,
    {
        if p[i] != s[i] {
            return false;
        }
        i = i + 1;
    }
    true
}

/// `needle` occurs in `hay` starting at position `i`.
pub open spec fn occurs_at(hay: Seq<char>, needle: Seq<char>, i: int) -> bool {
    0 <= i && i + needle.len() <= hay.len() && hay.subrange(i, i + needle.len()) == needle
}

/// `needle` occurs somewhere in `hay` (the empty needle occurs everywhere).
pub open spec fn contains_seq(hay: Seq<char>, needle: Seq<char>) -> bool {
    exists|i: int| occurs_at(hay, needle, i)
}

/// Substring search: whether `needle` occurs in `hay` (`str::contains`).
pub fn contains_chars(hay: &[char], needle: &[char]) -> (r: bool)
    ensures
        r == contains_seq(hay@, needle@),
{
    if needle.len() == 0 {
        proof {
            assert(hay@.subrange(0, 0) =~= needle@);
            assert(occurs_at(hay@, needle@, 0));
        }
        return true;
    }
    if needle.len() > hay.len() {
        return false;
    }
    let last = hay.len() - needle.len();
    let mut i: usize = 0;
    while i <= last
        invariant
            last + needle@.len() == hay@.len(),
            needle@.len() >= 1,
            hay@.len() <= usize::MAX,
            i <= last + 1,
            forall|k: int| 0 <= k < i ==> !occurs_at(hay@, needle@, k),
        decreases last + 1 - i,
    {
        let mut j: usize = 0;
        let mut ok = true;
        while j < needle.len()
            invariant
                last + needle@.len() == hay@.len(),
                hay@.len() <= usize::MAX,
                i <= last,
                j <= needle@.len(),
                ok ==> forall|m: int| 0 <= m < j ==> hay@[i + m] == needle@[m],
                !ok ==> !occurs_at(hay@, needle@, i as int),
            decreases needle@.len() - j,
        {
            if hay[i + j] != needle[j] {
                ok = false;
                proof {
                    assert(hay@.subrange(i as int, i + needle@.len())[j as int] != needle@[j as int]);
                }
            }
            j = j + 1;
        }
        if ok {
            proof {
                assert(hay@.subrange(i as int, i + needle@.len()) =~= needle@);
                assert(occurs_at(hay@, needle@, i as int));
            }
            return true;
        }
        i = i + 1;
    }
    proof {
        assert forall|k: int| !occurs_at(hay@, needle@, k) by {
            if 0 <= k && k + needle@.len() <= hay@.len() {
                assert(k < i);
            }
        }
    }
    false
}

/// The position of the first `c` in `s`, if any.
pub open spec fn first_index_of(s: Seq<char>, c: char) -> Option<int>
    decreases s.len(),
{
    if s.len() == 0 {
        None
    } else if s[0] == c {
        Some(0)
    } else {
        match first_index_of(s.drop_first(), c) {
            Some(i) => Some(i + 1),
            None => None,
        }
    }
}

/// `first_index_of` is the least position holding `c`.
pub proof fn lemma_first_index_bounds(s: Seq<char>, c: char)
    ensures
        first_index_of(s, c) matches Some(i) ==> 0 <= i < s.len() && s[i] == c && forall|j: int|
            0 <= j < i ==> s[j] != c,
        first_index_of(s, c) is None <==> forall|j: int| 0 <= j < s.len() ==> s[j] != c,
    decreases s.len(),
{
    if s.len() > 0 && s[0] != c {
        lemma_first_index_bounds(s.drop_first(), c);
        if first_index_of(s, c) is None {
            assert forall|j: int| 0 <= j < s.len() implies s[j] != c by {
                if j > 0 {
                    assert(s[j] == s.drop_first()[j - 1]);
                }
            }
        } else {
            let i = first_index_of(s, c)->0;
            assert forall|j: int| 0 <= j < i implies s[j] != c by {
                if j > 0 {
                    assert(s[j] == s.drop_first()[j - 1]);
                }
            }
        }
        if forall|j: int| 0 <= j < s.len() ==> s[j] != c {
            assert forall|j: int| 0 <= j < s.drop_first().len() implies s.drop_first()[j] != c by {
                assert(s.drop_first()[j] == s[j + 1]);
            }
        }
    }
}

/// The first position of `c` is the one before which `c` does not occur.
pub proof fn lemma_first_index_is(s: Seq<char>, c: char, i: int)
    requires
        0 <= i < s.len(),
        s[i] == c,
        forall|j: int| 0 <= j < i ==> s[j] != c,
    ensures
        first_index_of(s, c) == Some(i),
{
    lemma_first_index_bounds(s, c);
    let k = first_index_of(s, c)->0;
    if k < i {
        assert(s[k] != c);
    }
    if k > i {
        assert(s[i] != c);
    }
}

/// Finds the first position of `c` in `s`.
pub fn find_char(s: &[char], c: char) -> (r: Option<usize>)
    ensures
        r matches Some(i) ==> first_index_of(s@, c) == Some(i as int) && i < s@.len() && s@[i as int] == c,
        r is None ==> first_index_of(s@, c) is None,
{
    let mut i: usize = 0;
    while i < s.len()
        invariant
            i <= s@.len(),
            forall|j: int| 0 <= j < i ==> s@[j] != c,
        decreases s@.len() - i,
    {
        if s[i] == c {
            proof {
                lemma_first_index_is(s@, c, i as int);
            }
            return Some(i);
        }
        i = i + 1;
    }
    proof {
        lemma_first_index_bounds(s@, c);
    }
    None
}

// ── Splitting ─────────────────────────────────────────────────────────────────

/// The pieces of `s` between occurrences of `c` (`str::split` with a char
/// pattern): always at least one piece; `k` separators give `k + 1` pieces.
pub open spec fn split_on(s: Seq<char>, c: char) -> Seq<Seq<char>>
    decreases s.len(),
{
    match first_index_of(s, c) {
        None => seq![s],
        Some(i) => if 0 <= i < s.len() {
            seq![s.take(i)] + split_on(s.skip(i + 1), c)
        } else {
            seq![s]
        },
    }
}

/// Splits `s` at every `c`.
pub fn split_chars(s: &[char], c: char) -> (out: Vec<Vec<char>>)
    ensures
        out@.len() == split_on(s@, c).len(),
        forall|k: int| 0 <= k < out@.len() ==> #[trigger] out@[k]@ == split_on(s@, c)[k],
    decreases s@.len(),
{
    match find_char(s, c) {
        None => {
            let mut out: Vec<Vec<char>> = Vec::new();
            out.push(subslice(s, 0, s.len()));
            assert(s@.subrange(0, s@.len() as int) =~= s@);
            proof {
                lemma_first_index_bounds(s@, c);
            }
            out
        },
        Some(i) => {
            proof {
                lemma_first_index_bounds(s@, c);
            }
            let n = s.len();
            let head: Vec<char> = subslice(s, 0, i);
            let rest_vec = subslice(s, i + 1, n);
            assert(rest_vec@ =~= s@.skip(i + 1));
            assert(head@ =~= s@.take(i as int));
            let rest = split_chars(rest_vec.as_slice(), c);
            let mut out: Vec<Vec<char>> = Vec::new();
            out.push(head);
            let mut k: usize = 0;
            while k < rest.len()
                invariant
                    k <= rest@.len(),
                    rest@.len() == split_on(s@.skip(i + 1), c).len(),
                    forall|m: int| 0 <= m < rest@.len() ==> #[trigger] rest@[m]@ == split_on(s@.skip(i + 1), c)[m],
                    out@.len() == k + 1,
                    out@[0]@ == s@.take(i as int),
                    forall|m: int| 0 <= m < k ==> #[trigger] out@[m + 1]@ == rest@[m]@,
                decreases rest@.len() - k,
            {
                out.push(rest[k].clone());
                k = k + 1;
            }
            proof {
                let sp = split_on(s@, c);
                assert(sp == seq![s@.take(i as int)] + split_on(s@.skip(i + 1), c));
                assert forall|m: int| 0 <= m < out@.len() implies #[trigger] out@[m]@ == sp[m] by {
                    if m > 0 {
                        assert(out@[(m - 1) + 1]@ == rest@[m - 1]@);
                    }
                }
            }
            out
        },
    }
}

/// The last piece of `split_on`: what follows the last `c` (`rsplit(c).next()`).
pub open spec fn after_last(s: Seq<char>, c: char) -> Seq<char> {
    if exists|i: int| 0 <= i < s.len() && s[i] == c {
        let i = choose|i: int| 0 <= i < s.len() && s[i] == c && forall|j: int| i < j < s.len() ==> s[j] != c;
        s.skip(i + 1)
    } else {
        s
    }
}

/// What follows the last `c` in `s`, or all of `s` when `c` does not occur.
pub fn after_last_char(s: &[char], c: char) -> (out: Vec<char>)
    ensures
        out@ == after_last(s@, c),
{
    let mut i: usize = s.len();
    while i > 0
        invariant
            i <= s@.len(),
            forall|j: int| i <= j < s@.len() ==> s@[j] != c,
        decreases i,
    {
        if s[i - 1] == c {
            proof {
                let k = (i - 1) as int;
                assert(0 <= k < s@.len() && s@[k] == c && forall|j: int| k < j < s@.len() ==> s@[j] != c);
                let w = choose|w: int| 0 <= w < s@.len() && s@[w] == c && forall|j: int| w < j < s@.len() ==> s@[j] != c;
                if w < k {
                    assert(s@[k] != c);
                }
                if w > k {
                    assert(s@[w] != c);
                }
            }
            let out = subslice(s, i, s.len());
            assert(out@ =~= s@.skip(i as int));
            return out;
        }
        i = i - 1;
    }
    let out = subslice(s, 0, s.len());
    assert(out@ =~= s@);
    out
}

/// Drops one trailing `'\r'`, if present.
pub open spec fn strip_cr(s: Seq<char>) -> Seq<char> {
    if s.len() > 0 && s.last() == '\r' {
        s.drop_last()
    } else {
        s
    }
}

/// The lines of `s` as `str::lines` yields them: split after each `'\n'`,
/// no trailing empty line, and `"\r\n"` endings treated as `'\n'`.
pub open spec fn lines_of(s: Seq<char>) -> Seq<Seq<char>>
    decreases s.len(),
{
    if s.len() == 0 {
        seq![]
    } else {
        match first_index_of(s, '\n') {
            None => seq![s],
            Some(i) => if 0 <= i < s.len() {
                seq![strip_cr(s.take(i))] + lines_of(s.skip(i + 1))
            } else {
                seq![s]
            },
        }
    }
}

/// The first line of `lines_of(s)` that starts with `prefix`, with the
/// prefix removed.
pub open spec fn first_line_value(ls: Seq<Seq<char>>, prefix: Seq<char>) -> Option<Seq<char>>
    decreases ls.len(),
{
    if ls.len() == 0 {
        None
    } else if prefix.is_prefix_of(ls[0]) {
        Some(ls[0].skip(prefix.len() as int))
    } else {
        first_line_value(ls.drop_first(), prefix)
    }
}

/// Finds the first line of `s` that starts with `prefix` and returns the
/// rest of that line.
pub fn find_line_value(s: &[char], prefix: &[char]) -> (r: Option<Vec<char>>)
    ensures
        r matches Some(v) ==> first_line_value(lines_of(s@), prefix@) == Some(v@),
        r is None ==> first_line_value(lines_of(s@), prefix@) is None,
    decreases s@.len(),
{
    if s.len() == 0 {
        return None;
    }
    let (line, rest, has_rest): (Vec<char>, Vec<char>, bool) = match find_char(s, '\n') {
        None => {
            let l = subslice(s, 0, s.len());
            assert(l@ =~= s@);
            (l, Vec::new(), false)
        },
        Some(i) => {
            proof {
                lemma_first_index_bounds(s@, '\n');
            }
            let mut l = subslice(s, 0, i);
            assert(l@ =~= s@.take(i as int));
            if l.len() > 0 && l[l.len() - 1] == '\r' {
                l.pop();
            }
            let r = subslice(s, i + 1, s.len());
            assert(r@ =~= s@.skip(i + 1));
            (l, r, true)
        },
    };
    proof {
        lemma_first_index_bounds(s@, '\n');
        if has_rest {
            let i = first_index_of(s@, '\n')->0;
            assert(lines_of(s@) == seq![strip_cr(s@.take(i))] + lines_of(s@.skip(i + 1)));
            assert(line@ == strip_cr(s@.take(i)));
            assert(rest@ == s@.skip(i + 1));
            assert((seq![strip_cr(s@.take(i))] + lines_of(s@.skip(i + 1))).drop_first() =~= lines_of(s@.skip(i + 1)));
        } else {
            assert(lines_of(s@) == seq![s@]);
            assert(line@ == s@);
        }
    }
    proof {
        let ls = lines_of(s@);
        assert(ls.len() > 0);
        assert(ls[0] == line@);
        if !prefix@.is_prefix_of(line@) {
            assert(first_line_value(ls, prefix@) == first_line_value(ls.drop_first(), prefix@));
        }
    }
    if starts_with(line.as_slice(), prefix) {
        let v = subslice(line.as_slice(), prefix.len(), line.len());
        assert(v@ =~= line@.skip(prefix@.len() as int));
        return Some(v);
    }
    if has_rest {
        find_line_value(rest.as_slice(), prefix)
    } else {
        proof {
            assert(lines_of(s@).drop_first() =~= Seq::<Seq<char>>::empty());
            assert(first_line_value(Seq::<Seq<char>>::empty(), prefix@) is None);
        }
        None
    }
}

// ── Whitespace ────────────────────────────────────────────────────────────────

/// The Unicode `White_Space` property, which `char::is_whitespace` tests.
pub open spec fn is_white(c: char) -> bool {
    let u = c as u32;
    (0x09 <= u && u <= 0x0D) || u == 0x20 || u == 0x85 || u == 0xA0 || u == 0x1680
        || (0x2000 <= u && u <= 0x200A) || u == 0x2028 || u == 0x2029 || u == 0x202F
        || u == 0x205F || u == 0x3000
}

fn is_white_exec(c: char) -> (r: bool)
    ensures
        r == is_white(c),
{
    let u = c as u32;
    (0x09 <= u && u <= 0x0D) || u == 0x20 || u == 0x85 || u == 0xA0 || u == 0x1680
        || (0x2000 <= u && u <= 0x200A) || u == 0x2028 || u == 0x2029 || u == 0x202F
        || u == 0x205F || u == 0x3000
}

/// `s` without leading and trailing white space (`str::trim`): the slice
/// from the first non-white character to the last one, or empty.
pub open spec fn trimmed(s: Seq<char>, lo: int, hi: int) -> bool {
    0 <= lo <= hi <= s.len() && (forall|j: int| 0 <= j < lo ==> is_white(#[trigger] s[j])) && (
    forall|j: int| hi <= j < s.len() ==> is_white(#[trigger] s[j])) && (lo < hi ==> !is_white(
        s[lo]) && !is_white(s[hi - 1]))
}

/// The characters of `s` with leading and trailing white space removed.
pub open spec fn trim_spec(s: Seq<char>) -> Seq<char> {
    let (lo, hi) = choose|lo: int, hi: int| trimmed(s, lo, hi);
    s.subrange(lo, hi)
}

proof fn lemma_trimmed_unique(s: Seq<char>, lo1: int, hi1: int, lo2: int, hi2: int)
    requires
        trimmed(s, lo1, hi1),
        trimmed(s, lo2, hi2),
    ensures
        s.subrange(lo1, hi1) == s.subrange(lo2, hi2),
{
    if lo1 < hi1 && lo2 < hi2 {
        if lo1 < lo2 {
            assert(is_white(s[lo1]));
        }
        if lo2 < lo1 {
            assert(is_white(s[lo2]));
        }
        if hi1 < hi2 {
            assert(is_white(s[hi2 - 1]));
        }
        if hi2 < hi1 {
            assert(is_white(s[hi1 - 1]));
        }
    } else if lo1 < hi1 {
        // all of s is white by the second trim
        if lo1 < lo2 {
            assert(is_white(s[lo1]));
        } else {
            assert(lo1 >= hi2);
            assert(is_white(s[lo1]));
        }
    } else if lo2 < hi2 {
        if lo2 < lo1 {
            assert(is_white(s[lo2]));
        } else {
            assert(lo2 >= hi1);
            assert(is_white(s[lo2]));
        }
    }
    assert(s.subrange(lo1, hi1) =~= s.subrange(lo2, hi2));
}

/// Removes leading and trailing white space.
pub fn trim_chars(s: &[char]) -> (out: Vec<char>)
    ensures
        out@ == trim_spec(s@),
{
    let mut lo: usize = 0;
    while lo < s.len() && is_white_exec(s[lo])
        invariant
            lo <= s@.len(),
            forall|j: int| 0 <= j < lo ==> is_white(#[trigger] s@[j]),
        decreases s@.len() - lo,
    {
        lo = lo + 1;
    }
    let mut hi: usize = s.len();
    while hi > lo && is_white_exec(s[hi - 1])
        invariant
            lo <= hi <= s@.len(),
            forall|j: int| hi <= j < s@.len() ==> is_white(#[trigger] s@[j]),
        decreases hi,
    {
        hi = hi - 1;
    }
    proof {
        assert(trimmed(s@, lo as int, hi as int));
        let (l2, h2) = choose|l: int, h: int| trimmed(s@, l, h);
        lemma_trimmed_unique(s@, lo as int, hi as int, l2, h2);
    }
    subslice(s, lo, hi)
}

// ── Numbers: parsing ──────────────────────────────────────────────────────────

/// Value of a digit character in the given radix (10 or 16), if it is one.
pub open spec fn digit_value(c: char, radix: u32) -> Option<nat> {
    let u = c as u32;
    if '0' as u32 <= u && u <= '9' as u32 && u - ('0' as u32) < radix {
        Some((u - ('0' as u32)) as nat)
    } else if radix == 16 && 'a' as u32 <= u && u <= 'f' as u32 {
        Some((u - ('a' as u32) + 10) as nat)
    } else if radix == 16 && 'A' as u32 <= u && u <= 'F' as u32 {
        Some((u - ('A' as u32) + 10) as nat)
    } else {
        None
    }
}

fn digit_value_exec(c: char, radix: u32) -> (r: Option<u32>)
    requires
        radix == 10 || radix == 16,
    ensures
        r matches Some(d) ==> digit_value(c, radix) == Some(d as nat) && d < radix,
        r is None ==> digit_value(c, radix) is None,
{
    let u = c as u32;
    if '0' as u32 <= u && u <= '9' as u32 && u - ('0' as u32) < radix {
        Some(u - ('0' as u32))
    } else if radix == 16 && 'a' as u32 <= u && u <= 'f' as u32 {
        Some(u - ('a' as u32) + 10)
    } else if radix == 16 && 'A' as u32 <= u && u <= 'F' as u32 {
        Some(u - ('A' as u32) + 10)
    } else {
        None
    }
}

/// All characters are digits of the radix.
pub open spec fn all_digits(s: Seq<char>, radix: u32) -> bool {
    forall|i: int| 0 <= i < s.len() ==> (#[trigger] digit_value(s[i], radix)) is Some
}

/// The number that a digit string denotes, most significant digit first.
pub open spec fn digits_value(s: Seq<char>, radix: u32) -> nat
    decreases s.len(),
{
    if s.len() == 0 {
        0
    } else {
        digits_value(s.drop_last(), radix) * (radix as nat) + match digit_value(s.last(), radix) {
            Some(d) => d,
            None => 0,
        }
    }
}

/// The digits of an unsigned integer literal: an optional leading `'+'`.
pub open spec fn unsigned_digits(s: Seq<char>) -> Seq<char> {
    if s.len() > 0 && s[0] == '+' {
        s.drop_first()
    } else {
        s
    }
}

/// What `from_str_radix` gives for an unsigned type whose maximum is `max`:
/// an optional `'+'`, then at least one digit, the value at most `max`.
pub open spec fn parse_unsigned_spec(s: Seq<char>, radix: u32, max: nat) -> Option<nat> {
    let d = unsigned_digits(s);
    if d.len() > 0 && all_digits(d, radix) && digits_value(d, radix) <= max {
        Some(digits_value(d, radix))
    } else {
        None
    }
}

proof fn lemma_digits_value_monotone(s: Seq<char>, radix: u32, k: int)
    requires
        0 <= k <= s.len(),
        radix >= 1,
    ensures
        digits_value(s.take(k), radix) <= digits_value(s, radix),
    decreases s.len() - k,
{
    if k < s.len() {
        lemma_digits_value_monotone(s, radix, k + 1);
        assert(s.take(k + 1).drop_last() =~= s.take(k));
        let a = digits_value(s.take(k), radix);
        assert(a * (radix as nat) >= a) by (nonlinear_arith)
            requires
                radix >= 1,
        ;
    } else {
        assert(s.take(k) =~= s);
    }
}

/// Parses an unsigned integer in radix 10 or 16 whose value must not exceed
/// `max` (`u8::from_str` and `u32::from_str_radix` for unsigned targets).
pub fn parse_unsigned(s: &[char], radix: u32, max: u32) -> (r: Option<u32>)
    requires
        radix == 10 || radix == 16,
    ensures
        r matches Some(v) ==> parse_unsigned_spec(s@, radix, max as nat) == Some(v as nat),
        r is None ==> parse_unsigned_spec(s@, radix, max as nat) is None,
{
    let start: usize = if s.len() > 0 && s[0] == '+' { 1 } else { 0 };
    let dv = subslice(s, start, s.len());
    let d = dv.as_slice();
    assert(d@ =~= unsigned_digits(s@));
    if d.len() == 0 {
        assert(unsigned_digits(s@).len() == 0);
        return None;
    }
    let mut acc: u64 = 0;
    let mut i: usize = 0;
    while i < d.len()
        invariant
            radix == 10 || radix == 16,
            d@ == unsigned_digits(s@),
            d@.len() > 0,
            i <= d@.len(),
            all_digits(d@.take(i as int), radix),
            acc as nat == digits_value(d@.take(i as int), radix),
            acc <= max,
        decreases d@.len() - i,
    {
        match digit_value_exec(d[i], radix) {
            None => {
                proof {
                    assert(digit_value(d@[i as int], radix) is None);
                    assert(!all_digits(d@, radix));
                }
                return None;
            },
            Some(v) => {
                assert(acc * (radix as u64) <= 0xFFFF_FFFFu64 * 16) by (nonlinear_arith)
                    requires
                        acc <= 0xFFFF_FFFFu64,
                        radix <= 16,
                ;
                let next = acc * (radix as u64) + (v as u64);
                proof {
                    assert(d@.take(i + 1).drop_last() =~= d@.take(i as int));
                    assert(d@.take(i + 1).last() == d@[i as int]);
                    assert forall|j: int| 0 <= j < i + 1 implies (#[trigger] digit_value(d@.take(i + 1)[j], radix)) is Some by {
                        if j < i {
                            assert(d@.take(i + 1)[j] == d@.take(i as int)[j]);
                        }
                    }
                }
                proof {
                    assert(digits_value(d@.take(i + 1), radix) == digits_value(d@.take(i as int), radix) * (radix as nat) + v as nat);
                }
                if next > max as u64 {
                    proof {
                        lemma_digits_value_monotone(d@, radix, i + 1);
                        assert(digits_value(d@, radix) > max);
                    }
                    return None;
                }
                acc = next;
            },
        }
        i = i + 1;
    }
    proof {
        assert(d@.take(d@.len() as int) =~= d@);
    }
    Some(acc as u32)
}

// ── Numbers: formatting ───────────────────────────────────────────────────────

/// The character of a digit value below 16, upper-case for 10–15.
pub open spec fn digit_char(d: nat) -> char {
    seq!['0', '1', '2', '3', '4', '5', '6', '7', '8', '9', 'A', 'B', 'C', 'D', 'E', 'F'][d as int]
}

/// Distinct digit values have distinct characters.
pub proof fn lemma_digit_char_injective(a: nat, b: nat)
    requires
        a < 16,
        b < 16,
        digit_char(a) == digit_char(b),
    ensures
        a == b,
{
    let t = seq!['0', '1', '2', '3', '4', '5', '6', '7', '8', '9', 'A', 'B', 'C', 'D', 'E', 'F'];
    assert(t[0] != t[1] && t[0] != t[2]);
    assert(forall|i: int, j: int| 0 <= i < 16 && 0 <= j < 16 && i != j ==> t[i] != t[j]);
}

fn digit_char_exec(d: u32) -> (c: char)
    requires
        d < 16,
    ensures
        c == digit_char(d as nat),
{
    let table = ['0', '1', '2', '3', '4', '5', '6', '7', '8', '9', 'A', 'B', 'C', 'D', 'E', 'F'];
    assert(table@ == seq!['0', '1', '2', '3', '4', '5', '6', '7', '8', '9', 'A', 'B', 'C', 'D', 'E', 'F']);
    table[d as usize]
}

/// Decimal digits of `n`, no leading zeros (`"0"` for zero).
pub open spec fn dec_digits(n: nat) -> Seq<char>
    decreases n,
{
    if n < 10 {
        seq![digit_char(n)]
    } else {
        dec_digits(n / 10).push(digit_char(n % 10))
    }
}

/// `s` left-padded with `'0'` up to `width` characters (`{:0w}`).
pub open spec fn zero_pad(s: Seq<char>, width: nat) -> Seq<char> {
    if s.len() >= width {
        s
    } else {
        Seq::new((width - s.len()) as nat, |i: int| '0') + s
    }
}

/// Appends the decimal digits of `n`.
fn push_dec_digits(out: &mut Vec<char>, n: u128)
    ensures
        final(out)@ == old(out)@ + dec_digits(n as nat),
    decreases n,
{
    if n >= 10 {
        push_dec_digits(out, n / 10);
    }
    let c = digit_char_exec((n % 10) as u32);
    out.push(c);
    proof {
        if n >= 10 {
            assert(dec_digits(n as nat) == dec_digits((n / 10) as nat).push(c));
        } else {
            assert(dec_digits(n as nat) == seq![c]);
        }
        assert(final(out)@ =~= old(out)@ + dec_digits(n as nat));
    }
}

/// Number of decimal digits of `n`.
fn dec_len(n: u128) -> (r: usize)
    ensures
        r == dec_digits(n as nat).len(),
    decreases n,
{
    proof {
        lemma_dec_digits_len(n as nat);
    }
    if n >= 10 {
        proof {
            lemma_dec_digits_len((n / 10) as nat);
        }
        dec_len(n / 10) + 1
    } else {
        1
    }
}

/// Appends the decimal form of `n`, zero-padded to `width` characters.
pub fn push_decimal(out: &mut Vec<char>, n: u128, width: usize)
    ensures
        final(out)@ == old(out)@ + zero_pad(dec_digits(n as nat), width as nat),
{
    let len = dec_len(n);
    let mut pad: usize = 0;
    while pad + len < width
        invariant
            out@ == old(out)@ + Seq::new(pad as nat, |i: int| '0'),
            pad + len <= width || pad == 0,
        decreases width - pad - len,
    {
        out.push('0');
        proof {
            assert(Seq::new((pad + 1) as nat, |i: int| '0') =~= Seq::new(pad as nat, |i: int| '0').push('0'));
        }
        pad = pad + 1;
    }
    let ghost before = out@;
    push_dec_digits(out, n);
    proof {
        let dd = dec_digits(n as nat);
        if len >= width {
            assert(Seq::new(0nat, |i: int| '0') =~= Seq::<char>::empty());
            assert(final(out)@ =~= old(out)@ + zero_pad(dd, width as nat));
        } else {
            assert(final(out)@ =~= old(out)@ + zero_pad(dd, width as nat));
        }
    }
}

/// A decimal text has at least one digit.
pub proof fn lemma_dec_digits_len(n: nat)
    ensures
        dec_digits(n).len() >= 1,
        n < 0x1_0000_0000_0000_0000_0000_0000_0000_0000 ==> dec_digits(n).len() <= 39,
    decreases n,
{
    if n >= 10 {
        lemma_dec_digits_len(n / 10);
        if n < 0x1_0000_0000_0000_0000_0000_0000_0000_0000 {
            lemma_dec_len_bound(n);
        }
    }
}

/// Decimal length grows with the value: below `10^k`, at most `k` digits.
proof fn lemma_dec_len_pow(n: nat, k: nat, p: nat)
    requires
        k >= 1,
        p == pow10(k),
        n < p,
    ensures
        dec_digits(n).len() <= k,
    decreases k,
{
    if n >= 10 {
        assert(k >= 2) by {
            if k == 1 {
                assert(pow10(1) == 10 * pow10(0));
            }
        }
        assert(pow10(k) == 10 * pow10((k - 1) as nat));
        assert(n / 10 < pow10((k - 1) as nat));
        lemma_dec_len_pow(n / 10, (k - 1) as nat, pow10((k - 1) as nat));
    }
}

pub open spec fn pow10(k: nat) -> nat
    decreases k,
{
    if k == 0 {
        1
    } else {
        10 * pow10((k - 1) as nat)
    }
}

proof fn lemma_dec_len_bound(n: nat)
    requires
        n < 0x1_0000_0000_0000_0000_0000_0000_0000_0000,
    ensures
        dec_digits(n).len() <= 39,
{
    reveal_with_fuel(pow10, 40);
    assert(pow10(39) == 1_000_000_000_000_000_000_000_000_000_000_000_000_000);
    lemma_dec_len_pow(n, 39, pow10(39));
}

/// Decimal form of a signed number (`{}`): a minus sign before negatives.
pub open spec fn int_text(v: int) -> Seq<char> {
    if v < 0 {
        seq!['-'] + dec_digits((-v) as nat)
    } else {
        dec_digits(v as nat)
    }
}

/// Appends the decimal form of `v` (`{}`).
pub fn push_int(out: &mut Vec<char>, v: i32)
    ensures
        final(out)@ == old(out)@ + int_text(v as int),
{
    if v < 0 {
        out.push('-');
        let m: u128 = (0i64 - (v as i64)) as u128;
        push_decimal(out, m, 0);
        assert(final(out)@ =~= old(out)@ + int_text(v as int));
    } else {
        push_decimal(out, v as u128, 0);
    }
}

/// The character of a digit value below 16, lower-case for 10–15.
pub open spec fn lower_digit_char(d: nat) -> char {
    seq!['0', '1', '2', '3', '4', '5', '6', '7', '8', '9', 'a', 'b', 'c', 'd', 'e', 'f'][d as int]
}

/// Lower-case hex digits of `n`, no leading zeros (`{:x}`).
pub open spec fn lower_hex(n: nat) -> Seq<char>
    decreases n,
{
    if n < 16 {
        seq![lower_digit_char(n)]
    } else {
        lower_hex(n / 16).push(lower_digit_char(n % 16))
    }
}

/// Appends the lower-case hex digits of `n` (`{:x}`).
pub fn push_lower_hex(out: &mut Vec<char>, n: u32)
    ensures
        final(out)@ == old(out)@ + lower_hex(n as nat),
    decreases n,
{
    if n >= 16 {
        push_lower_hex(out, n / 16);
    }
    let table = ['0', '1', '2', '3', '4', '5', '6', '7', '8', '9', 'a', 'b', 'c', 'd', 'e', 'f'];
    assert(table@ == seq!['0', '1', '2', '3', '4', '5', '6', '7', '8', '9', 'a', 'b', 'c', 'd', 'e', 'f']);
    let c = table[(n % 16) as usize];
    out.push(c);
    proof {
        if n >= 16 {
            assert(lower_hex(n as nat) == lower_hex((n / 16) as nat).push(c));
        } else {
            assert(lower_hex(n as nat) == seq![c]);
        }
        assert(final(out)@ =~= old(out)@ + lower_hex(n as nat));
    }
}

/// Two upper-case hex digits of a byte (`{:02X}`).
pub open spec fn hex_byte(b: u8) -> Seq<char> {
    seq![digit_char((b / 16) as nat), digit_char((b % 16) as nat)]
}

/// Appends the two upper-case hex digits of `b`.
pub fn push_hex_byte(out: &mut Vec<char>, b: u8)
    ensures
        final(out)@ == old(out)@ + hex_byte(b),
{
    let hi = digit_char_exec((b / 16) as u32);
    let lo = digit_char_exec((b % 16) as u32);
    out.push(hi);
    out.push(lo);
    assert(out@ =~= old(out)@ + hex_byte(b));
}

/// Lower-case form of a string (`str::to_lowercase`); it follows the
/// Unicode tables of the std version in use.
pub uninterp spec fn lowercase(s: Seq<char>) -> Seq<char>;

/// `str::to_lowercase`. The contract names the result: it depends on the
/// argument alone; the Unicode case mapping itself is not restated here.
#[verifier::external_body]
pub(crate) fn to_lowercase(s: &str) -> (r: String)
    ensures
        r@ == lowercase(s@),
{
    s.to_lowercase()
}

} // verus!
