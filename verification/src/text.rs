//! Character-level text helpers shared by the configuration, PAM and protocol code.
//!
//! Text is modelled as `Seq<char>` (the view of `str` and `String`). Scanning code works
//! on a `Vec<char>` copy of the input and on index ranges into it.
use vstd::prelude::*;

verus! {

// ---------------------------------------------------------------------------------------
// Building strings
// ---------------------------------------------------------------------------------------

/// Appends one character to a `String`: a call of std's `String::push`. Trusted: its
/// contract claims, as std documents `push`, that the text afterwards is the old text
/// followed by `c`.
#[verifier::external_body]
pub(crate) fn push_char(s: &mut String, c: char)
    ensures
        final(s)@ == old(s)@.push(c),
{
    s.push(c);
}

/// The characters of `s`, in order.
pub fn chars_of(s: &str) -> (r: Vec<char>)
    ensures
        r@ == s@,
{
    let mut r: Vec<char> = Vec::new();
    for c in it: s.chars()
        invariant
            r@ == it.seq().take(it.index() as int),
            it.seq() == s@,
    {
        r.push(c);
    }
    r
}

/// Appends the characters `v[lo..hi]` to `out`.
pub fn push_range(out: &mut String, v: &Vec<char>, lo: usize, hi: usize)
    requires
        lo <= hi <= v@.len(),
    ensures
        final(out)@ == old(out)@ + v@.subrange(lo as int, hi as int),
{
    let ghost start = out@;
    let mut i = lo;
    while i < hi
        invariant
            lo <= i <= hi <= v@.len(),
            out@ == start + v@.subrange(lo as int, i as int),
        decreases hi - i,
    {
        push_char(out, v[i]);
        i = i + 1;
        assert(v@.subrange(lo as int, i as int) =~= v@.subrange(lo as int, i - 1).push(v@[i - 1]));
    }
}

/// Appends all characters of `s` to `out`.
pub fn push_chars(out: &mut String, s: &[char])
    ensures
        final(out)@ == old(out)@ + s@,
{
    let ghost start = out@;
    let mut i: usize = 0;
    while i < s.len()
        invariant
            i <= s@.len(),
            out@ == start + s@.take(i as int),
        decreases s@.len() - i,
    {
        push_char(out, s[i]);
        i = i + 1;
        assert(s@.take(i as int) =~= s@.take(i - 1).push(s@[i - 1]));
    }
    assert(s@.take(s@.len() as int) =~= s@);
}

/// A new `String` holding `v[lo..hi]`.
pub fn string_from_range(v: &Vec<char>, lo: usize, hi: usize) -> (r: String)
    requires
        lo <= hi <= v@.len(),
    ensures
        r@ == v@.subrange(lo as int, hi as int),
{
    let mut r = String::new();
    push_range(&mut r, v, lo, hi);
    assert(r@ =~= v@.subrange(lo as int, hi as int));
    r
}

// ---------------------------------------------------------------------------------------
// Character classes
// ---------------------------------------------------------------------------------------

/// Unicode `White_Space`, the set that `char::is_whitespace` (and so `str::trim`) uses.
pub open spec fn is_ws(c: char) -> bool {
    ||| ('\u{9}' <= c && c <= '\u{d}')
    ||| c == ' '
    ||| c == '\u{85}'
    ||| c == '\u{a0}'
    ||| c == '\u{1680}'
    ||| ('\u{2000}' <= c && c <= '\u{200a}')
    ||| c == '\u{2028}'
    ||| c == '\u{2029}'
    ||| c == '\u{202f}'
    ||| c == '\u{205f}'
    ||| c == '\u{3000}'
}

pub fn is_whitespace(c: char) -> (r: bool)
    ensures
        r == is_ws(c),
{
    ('\u{9}' <= c && c <= '\u{d}') || c == ' ' || c == '\u{85}' || c == '\u{a0}' || c
        == '\u{1680}' || ('\u{2000}' <= c && c <= '\u{200a}') || c == '\u{2028}' || c
        == '\u{2029}' || c == '\u{202f}' || c == '\u{205f}' || c == '\u{3000}'
}

pub open spec fn is_ascii_upper(c: char) -> bool {
    'A' <= c && c <= 'Z'
}

pub open spec fn is_ascii_alnum(c: char) -> bool {
    ('0' <= c && c <= '9') || ('a' <= c && c <= 'z') || ('A' <= c && c <= 'Z')
}

pub open spec fn is_ascii_hex(c: char) -> bool {
    ('0' <= c && c <= '9') || ('a' <= c && c <= 'f') || ('A' <= c && c <= 'F')
}

pub fn is_alnum(c: char) -> (r: bool)
    ensures
        r == is_ascii_alnum(c),
{
    ('0' <= c && c <= '9') || ('a' <= c && c <= 'z') || ('A' <= c && c <= 'Z')
}

pub fn is_hex(c: char) -> (r: bool)
    ensures
        r == is_ascii_hex(c),
{
    ('0' <= c && c <= '9') || ('a' <= c && c <= 'f') || ('A' <= c && c <= 'F')
}

/// ASCII lower-casing of one character (`char::to_ascii_lowercase`).
pub open spec fn lower(c: char) -> char {
    if is_ascii_upper(c) {
        ((c as u32) + 32) as char
    } else {
        c
    }
}

pub open spec fn lower_seq(s: Seq<char>) -> Seq<char> {
    s.map_values(|c: char| lower(c))
}

pub fn to_lower(c: char) -> (r: char)
    ensures
        r == lower(c),
{
    if 'A' <= c && c <= 'Z' {
        ((c as u8) + 32) as char
    } else {
        c
    }
}

// ---------------------------------------------------------------------------------------
// Trimming
// ---------------------------------------------------------------------------------------

pub open spec fn trim_start(s: Seq<char>) -> Seq<char>
    decreases s.len(),
{
    if s.len() > 0 && is_ws(s[0]) {
        trim_start(s.drop_first())
    } else {
        s
    }
}

pub open spec fn trim_end(s: Seq<char>) -> Seq<char>
    decreases s.len(),
{
    if s.len() > 0 && is_ws(s.last()) {
        trim_end(s.drop_last())
    } else {
        s
    }
}

/// `str::trim`: strip leading and trailing Unicode white space.
pub open spec fn trim(s: Seq<char>) -> Seq<char> {
    trim_end(trim_start(s))
}

/// The bounds of `trim(v[lo..hi])` inside `v`.
pub fn trim_bounds(v: &Vec<char>, lo: usize, hi: usize) -> (r: (usize, usize))
    requires
        lo <= hi <= v@.len(),
    ensures
        lo <= r.0 <= r.1 <= hi,
        v@.subrange(r.0 as int, r.1 as int) == trim(v@.subrange(lo as int, hi as int)),
{
    let mut i = lo;
    while i < hi && is_whitespace(v[i])
        invariant
            lo <= i <= hi <= v@.len(),
            trim_start(v@.subrange(lo as int, hi as int)) == trim_start(
                v@.subrange(i as int, hi as int),
            ),
        decreases hi - i,
    {
        assert(v@.subrange(i as int, hi as int).drop_first() =~= v@.subrange(
            i + 1,
            hi as int,
        ));
        i = i + 1;
    }
    assert(trim_start(v@.subrange(i as int, hi as int)) == v@.subrange(i as int, hi as int));
    let mut j = hi;
    while j > i && is_whitespace(v[j - 1])
        invariant
            lo <= i <= j <= hi <= v@.len(),
            trim_end(v@.subrange(i as int, hi as int)) == trim_end(
                v@.subrange(i as int, j as int),
            ),
        decreases j - i,
    {
        assert(v@.subrange(i as int, j as int).drop_last() =~= v@.subrange(
            i as int,
            j - 1,
        ));
        j = j - 1;
    }
    (i, j)
}

// ---------------------------------------------------------------------------------------
// Searching
// ---------------------------------------------------------------------------------------

/// `i` is the first position of `s` that holds a character of `cs`.
pub open spec fn is_first_of(s: Seq<char>, cs: Seq<char>, i: int) -> bool {
    &&& 0 <= i < s.len()
    &&& cs.contains(s[i])
    &&& forall|j: int| 0 <= j < i ==> !cs.contains(#[trigger] s[j])
}

/// Position of the first character of `s` that is in `cs`, or -1 if there is none.
pub open spec fn first_of(s: Seq<char>, cs: Seq<char>) -> int {
    if exists|i: int| is_first_of(s, cs, i) {
        choose|i: int| is_first_of(s, cs, i)
    } else {
        -1
    }
}

pub proof fn lemma_first_of_is(s: Seq<char>, cs: Seq<char>, i: int)
    requires
        is_first_of(s, cs, i),
    ensures
        first_of(s, cs) == i,
{
    let k = choose|k: int| is_first_of(s, cs, k);
    assert(is_first_of(s, cs, k));
    if k < i {
        assert(!cs.contains(s[k]));
    } else if i < k {
        assert(!cs.contains(s[i]));
    }
}

pub proof fn lemma_first_of_none(s: Seq<char>, cs: Seq<char>)
    requires
        forall|j: int| 0 <= j < s.len() ==> !cs.contains(#[trigger] s[j]),
    ensures
        first_of(s, cs) == -1,
{
    if exists|i: int| is_first_of(s, cs, i) {
        let k = choose|k: int| is_first_of(s, cs, k);
        assert(cs.contains(s[k]));
    }
}

pub proof fn lemma_first_of_range(s: Seq<char>, cs: Seq<char>)
    ensures
        -1 <= first_of(s, cs) < s.len(),
        first_of(s, cs) >= 0 ==> is_first_of(s, cs, first_of(s, cs)),
{
}

pub fn contains_char(cs: &[char], c: char) -> (r: bool)
    ensures
        r == cs@.contains(c),
{
    let mut i: usize = 0;
    while i < cs.len()
        invariant
            i <= cs@.len(),
            forall|j: int| 0 <= j < i ==> cs@[j] != c,
        decreases cs@.len() - i,
    {
        if cs[i] == c {
            assert(cs@[i as int] == c);
            return true;
        }
        i = i + 1;
    }
    false
}

/// The first index `i` in `lo..hi` with `v[i]` in `cs`, as an offset from `lo` in the
/// sense of `first_of`.
pub fn find_first_of(v: &Vec<char>, lo: usize, hi: usize, cs: &[char]) -> (r: Option<usize>)
    requires
        lo <= hi <= v@.len(),
    ensures
        match r {
            Some(i) => lo <= i < hi && first_of(v@.subrange(lo as int, hi as int), cs@) == i
                - lo,
            None => first_of(v@.subrange(lo as int, hi as int), cs@) == -1,
        },
{
    let ghost sub = v@.subrange(lo as int, hi as int);
    let mut i = lo;
    while i < hi
        invariant
            lo <= i <= hi <= v@.len(),
            sub == v@.subrange(lo as int, hi as int),
            forall|j: int| 0 <= j < i - lo ==> !cs@.contains(#[trigger] sub[j]),
        decreases hi - i,
    {
        if contains_char(cs, v[i]) {
            proof {
                assert(sub[i - lo] == v@[i as int]);
                lemma_first_of_is(sub, cs@, i - lo);
            }
            return Some(i);
        }
        assert(sub[i - lo] == v@[i as int]);
        i = i + 1;
    }
    proof {
        lemma_first_of_none(sub, cs@);
    }
    None
}

/// `s` starts with `p`.
pub open spec fn starts_with(s: Seq<char>, p: Seq<char>) -> bool {
    p.len() <= s.len() && s.take(p.len() as int) == p
}

/// `s` ends with `p`.
pub open spec fn ends_with(s: Seq<char>, p: Seq<char>) -> bool {
    p.len() <= s.len() && s.skip(s.len() - p.len()) == p
}

/// `p` occurs in `s` at position `i`.
pub open spec fn occurs_at(s: Seq<char>, p: Seq<char>, i: int) -> bool {
    0 <= i && i + p.len() <= s.len() && s.subrange(i, i + p.len()) == p
}

/// `p` occurs somewhere in `s` (`str::contains`).
pub open spec fn contains_seq(s: Seq<char>, p: Seq<char>) -> bool {
    exists|i: int| occurs_at(s, p, i)
}

/// `v[lo..hi]` starts with `p`.
pub fn range_starts_with(v: &Vec<char>, lo: usize, hi: usize, p: &[char]) -> (r: bool)
    requires
        lo <= hi <= v@.len(),
    ensures
        r == starts_with(v@.subrange(lo as int, hi as int), p@),
{
    if p.len() > hi - lo {
        return false;
    }
    let mut k: usize = 0;
    while k < p.len()
        invariant
            k <= p@.len() <= hi - lo,
            lo <= hi <= v@.len(),
            forall|j: int| 0 <= j < k ==> v@[lo + j] == p@[j],
        decreases p@.len() - k,
    {
        if v[lo + k] != p[k] {
            assert(v@.subrange(lo as int, hi as int).take(p@.len() as int)[k as int] != p@[k as int]);
            return false;
        }
        k = k + 1;
    }
    assert(v@.subrange(lo as int, hi as int).take(p@.len() as int) =~= p@);
    true
}

/// `v[lo..hi]` ends with `p`.
pub fn range_ends_with(v: &Vec<char>, lo: usize, hi: usize, p: &[char]) -> (r: bool)
    requires
        lo <= hi <= v@.len(),
    ensures
        r == ends_with(v@.subrange(lo as int, hi as int), p@),
{
    if p.len() > hi - lo {
        return false;
    }
    let start = hi - p.len();
    let mut k: usize = 0;
    while k < p.len()
        invariant
            k <= p@.len() <= hi - lo,
            start == hi - p@.len(),
            lo <= hi <= v@.len(),
            forall|j: int| 0 <= j < k ==> v@[start + j] == p@[j],
        decreases p@.len() - k,
    {
        if v[start + k] != p[k] {
            let ghost sub = v@.subrange(lo as int, hi as int);
            assert(sub.skip(sub.len() - p@.len())[k as int] != p@[k as int]);
            return false;
        }
        k = k + 1;
    }
    let ghost sub = v@.subrange(lo as int, hi as int);
    assert(sub.skip(sub.len() - p@.len()) =~= p@);
    true
}

/// `v[lo..hi]` contains `p` as a contiguous run.
pub fn range_contains(v: &Vec<char>, lo: usize, hi: usize, p: &[char]) -> (r: bool)
    requires
        lo <= hi <= v@.len(),
    ensures
        r == contains_seq(v@.subrange(lo as int, hi as int), p@),
{
    let ghost sub = v@.subrange(lo as int, hi as int);
    if p.len() > hi - lo {
        assert forall|i: int| !occurs_at(sub, p@, i) by {}
        return false;
    }
    if p.len() == 0 {
        assert(sub.subrange(0, 0) =~= p@);
        assert(occurs_at(sub, p@, 0));
        return true;
    }
    let mut i = lo;
    while i <= hi - p.len()
        invariant
            lo <= i <= hi <= v@.len(),
            1 <= p@.len() <= hi - lo,
            sub == v@.subrange(lo as int, hi as int),
            forall|k: int| 0 <= k < i - lo ==> !occurs_at(sub, p@, k),
        decreases hi - i,
    {
        if range_starts_with(v, i, hi, p) {
            assert(v@.subrange(i as int, hi as int).take(p@.len() as int) =~= sub.subrange(
                i - lo,
                i - lo + p@.len(),
            ));
            assert(occurs_at(sub, p@, i - lo));
            return true;
        }
        assert(v@.subrange(i as int, hi as int).take(p@.len() as int) =~= sub.subrange(
            i - lo,
            i - lo + p@.len(),
        ));
        i = i + 1;
    }
    assert forall|k: int| !occurs_at(sub, p@, k) by {
        if 0 <= k && k + p@.len() <= sub.len() {
            assert(k < i - lo);
        }
    }
    false
}

// ---------------------------------------------------------------------------------------
// ASCII case-insensitive comparison
// ---------------------------------------------------------------------------------------

/// `str::eq_ignore_ascii_case`.
pub open spec fn eq_ignore_case(a: Seq<char>, b: Seq<char>) -> bool {
    a.len() == b.len() && forall|i: int| 0 <= i < a.len() ==> lower(a[i]) == lower(b[i])
}

/// `v[lo..hi]` equals `p` ignoring ASCII case.
pub fn range_eq_ignore_case(v: &Vec<char>, lo: usize, hi: usize, p: &[char]) -> (r: bool)
    requires
        lo <= hi <= v@.len(),
    ensures
        r == eq_ignore_case(v@.subrange(lo as int, hi as int), p@),
{
    if p.len() != hi - lo {
        return false;
    }
    let mut k: usize = 0;
    while k < p.len()
        invariant
            k <= p@.len() == hi - lo,
            lo <= hi <= v@.len(),
            forall|j: int| 0 <= j < k ==> lower(v@[lo + j]) == lower(p@[j]),
        decreases p@.len() - k,
    {
        if to_lower(v[lo + k]) != to_lower(p[k]) {
            assert(v@.subrange(lo as int, hi as int)[k as int] == v@[lo + k]);
            return false;
        }
        k = k + 1;
    }
    true
}

// ---------------------------------------------------------------------------------------
// Splitting into pieces and lines
// ---------------------------------------------------------------------------------------

/// The pieces of `s` between occurrences of `sep` (`str::split` with a character); there
/// is always at least one piece.
pub open spec fn split_on(s: Seq<char>, sep: char) -> Seq<Seq<char>>
    decreases s.len(),
{
    if s.len() == 0 {
        seq![Seq::empty()]
    } else {
        let p = split_on(s.drop_last(), sep);
        if s.last() == sep {
            p.push(Seq::empty())
        } else {
            p.update(p.len() - 1, p.last().push(s.last()))
        }
    }
}

pub proof fn lemma_split_on_nonempty(s: Seq<char>, sep: char)
    ensures
        split_on(s, sep).len() >= 1,
    decreases s.len(),
{
    if s.len() > 0 {
        lemma_split_on_nonempty(s.drop_last(), sep);
    }
}

/// Drops one trailing carriage return.
pub open spec fn strip_cr(l: Seq<char>) -> Seq<char> {
    if l.len() > 0 && l.last() == '\r' {
        l.drop_last()
    } else {
        l
    }
}

/// `str::lines`: split at `\n`, drop a `\r` right before a `\n`, and yield no final empty
/// line after a trailing newline.
pub open spec fn lines(s: Seq<char>) -> Seq<Seq<char>> {
    let p = split_on(s, '\n');
    let n = p.len();
    if p[n - 1].len() == 0 {
        Seq::new((n - 1) as nat, |i: int| strip_cr(p[i]))
    } else {
        Seq::new(n as nat, |i: int| if i < n - 1 { strip_cr(p[i]) } else { p[i] })
    }
}

/// A half-open range of character positions.
pub type Span = (usize, usize);

/// The text a span stands for.
pub open spec fn span_text(v: Seq<char>, r: Span) -> Seq<char> {
    v.subrange(r.0 as int, r.1 as int)
}

/// The spans of the lines of `v` (see `lines`).
pub fn line_spans(v: &Vec<char>) -> (r: Vec<Span>)
    ensures
        r@.len() == lines(v@).len(),
        forall|k: int| 0 <= k < r@.len() ==> (#[trigger] r@[k]).0 <= r@[k].1 <= v@.len(),
        forall|k: int| 0 <= k < r@.len() ==> #[trigger] span_text(v@, r@[k]) == lines(v@)[k],
{
    let n = v.len();
    let mut out: Vec<Span> = Vec::new();
    let mut start: usize = 0;
    let mut i: usize = 0;
    while i < n
        invariant
            n == v@.len(),
            start <= i <= n,
            split_on(v@.take(i as int), '\n').len() == out@.len() + 1,
            split_on(v@.take(i as int), '\n').last() == v@.subrange(start as int, i as int),
            forall|k: int| 0 <= k < out@.len() ==> (#[trigger] out@[k]).0 <= out@[k].1 <= v@.len(),
            forall|k: int|
                0 <= k < out@.len() ==> #[trigger] span_text(v@, out@[k]) == strip_cr(
                    split_on(v@.take(i as int), '\n')[k],
                ),
        decreases n - i,
    {
        let ghost prev = split_on(v@.take(i as int), '\n');
        let ghost old_out = out@;
        let ghost piece = v@.subrange(start as int, i as int);
        assert(v@.take(i + 1).drop_last() =~= v@.take(i as int));
        assert(v@.take(i + 1).last() == v@[i as int]);
        if v[i] == '\n' {
            let end = if i > start && v[i - 1] == '\r' {
                i - 1
            } else {
                i
            };
            proof {
                if i > start && v@[i - 1] == '\r' {
                    assert(piece.drop_last() =~= v@.subrange(start as int, i - 1));
                }
                assert(span_text(v@, (start, end)) == strip_cr(piece));
            }
            out.push((start, end));
            start = i + 1;
            i = i + 1;
            proof {
                let cur = split_on(v@.take(i as int), '\n');
                assert(cur == prev.push(Seq::empty()));
                assert(v@.subrange(start as int, i as int) =~= Seq::<char>::empty());
                assert forall|k: int| 0 <= k < out@.len() implies #[trigger] span_text(v@, out@[k]) == strip_cr(cur[k]) by {
                    if k < old_out.len() {
                        assert(out@[k] == old_out[k]);
                        assert(span_text(v@, old_out[k]) == strip_cr(prev[k]));
                        assert(cur[k] == prev[k]);
                    } else {
                        assert(cur[k] == prev[k]);
                        assert(prev[k] == piece);
                    }
                }
            }
        } else {
            i = i + 1;
            proof {
                let cur = split_on(v@.take(i as int), '\n');
                assert(cur == prev.update(prev.len() - 1, prev.last().push(v@[i - 1])));
                assert(v@.subrange(start as int, i as int) =~= piece.push(v@[i - 1]));
                assert forall|k: int| 0 <= k < out@.len() implies #[trigger] span_text(v@, out@[k]) == strip_cr(cur[k]) by {
                    assert(span_text(v@, old_out[k]) == strip_cr(prev[k]));
                    assert(cur[k] == prev[k]);
                }
            }
        }
    }
    assert(v@.take(n as int) =~= v@);
    let ghost p = split_on(v@, '\n');
    let ghost old_out = out@;
    assert(p.len() == old_out.len() + 1);
    if start < n {
        out.push((start, n));
        proof {
            assert(p[p.len() - 1].len() > 0);
            assert(lines(v@).len() == p.len());
            assert forall|k: int| 0 <= k < out@.len() implies #[trigger] span_text(v@, out@[k]) == lines(v@)[k] by {
                if k < old_out.len() {
                    assert(out@[k] == old_out[k]);
                    assert(span_text(v@, old_out[k]) == strip_cr(p[k]));
                } else {
                    assert(out@[k] == (start, n));
                }
            }
        }
    } else {
        proof {
            assert(p[p.len() - 1].len() == 0);
            assert forall|k: int| 0 <= k < out@.len() implies #[trigger] span_text(v@, out@[k]) == lines(v@)[k] by {
                assert(span_text(v@, old_out[k]) == strip_cr(p[k]));
            }
        }
    }
    out
}


/// The spans of `split_on(v[lo..hi], sep)` inside `v`.
pub fn split_spans(v: &Vec<char>, lo: usize, hi: usize, sep: char) -> (r: Vec<Span>)
    requires
        lo <= hi <= v@.len(),
    ensures
        r@.len() == split_on(v@.subrange(lo as int, hi as int), sep).len(),
        forall|k: int| 0 <= k < r@.len() ==> lo <= (#[trigger] r@[k]).0 <= r@[k].1 <= hi,
        forall|k: int|
            0 <= k < r@.len() ==> #[trigger] span_text(v@, r@[k]) == split_on(
                v@.subrange(lo as int, hi as int),
                sep,
            )[k],
{
    let mut out: Vec<Span> = Vec::new();
    let mut start = lo;
    let mut i = lo;
    while i < hi
        invariant
            lo <= start <= i <= hi <= v@.len(),
            split_on(v@.subrange(lo as int, i as int), sep).len() == out@.len() + 1,
            split_on(v@.subrange(lo as int, i as int), sep).last() == v@.subrange(
                start as int,
                i as int,
            ),
            forall|k: int| 0 <= k < out@.len() ==> lo <= (#[trigger] out@[k]).0 <= out@[k].1 <= hi,
            forall|k: int|
                0 <= k < out@.len() ==> #[trigger] span_text(v@, out@[k]) == split_on(
                    v@.subrange(lo as int, i as int),
                    sep,
                )[k],
        decreases hi - i,
    {
        let ghost prev = split_on(v@.subrange(lo as int, i as int), sep);
        let ghost old_out = out@;
        let ghost piece = v@.subrange(start as int, i as int);
        assert(v@.subrange(lo as int, i + 1).drop_last() =~= v@.subrange(lo as int, i as int));
        assert(v@.subrange(lo as int, i + 1).last() == v@[i as int]);
        if v[i] == sep {
            out.push((start, i));
            start = i + 1;
            i = i + 1;
            proof {
                let cur = split_on(v@.subrange(lo as int, i as int), sep);
                assert(cur == prev.push(Seq::empty()));
                assert(v@.subrange(start as int, i as int) =~= Seq::<char>::empty());
                assert forall|k: int| 0 <= k < out@.len() implies #[trigger] span_text(
                    v@,
                    out@[k],
                ) == cur[k] by {
                    if k < old_out.len() {
                        assert(out@[k] == old_out[k]);
                        assert(span_text(v@, old_out[k]) == prev[k]);
                    }
                    assert(cur[k] == prev[k]);
                }
            }
        } else {
            i = i + 1;
            proof {
                let cur = split_on(v@.subrange(lo as int, i as int), sep);
                assert(cur == prev.update(prev.len() - 1, prev.last().push(v@[i - 1])));
                assert(v@.subrange(start as int, i as int) =~= piece.push(v@[i - 1]));
                assert forall|k: int| 0 <= k < out@.len() implies #[trigger] span_text(
                    v@,
                    out@[k],
                ) == cur[k] by {
                    assert(span_text(v@, old_out[k]) == prev[k]);
                    assert(cur[k] == prev[k]);
                }
            }
        }
    }
    let ghost p = split_on(v@.subrange(lo as int, hi as int), sep);
    let ghost old_out = out@;
    out.push((start, hi));
    proof {
        assert forall|k: int| 0 <= k < out@.len() implies #[trigger] span_text(v@, out@[k])
            == p[k] by {
            if k < old_out.len() {
                assert(out@[k] == old_out[k]);
                assert(span_text(v@, old_out[k]) == p[k]);
            }
        }
    }
    out
}

/// `split_on` of a concatenation around one separator.
pub proof fn lemma_split_on_concat(s: Seq<char>, sep: char, t: Seq<char>)
    ensures
        split_on(s + seq![sep] + t, sep) == split_on(s, sep) + split_on(t, sep),
    decreases t.len(),
{
    lemma_split_on_nonempty(s, sep);
    if t.len() == 0 {
        assert((s + seq![sep] + t).drop_last() =~= s);
        assert(split_on(s, sep).push(Seq::empty()) =~= split_on(s, sep) + split_on(t, sep));
    } else {
        let u = s + seq![sep] + t;
        assert(u.drop_last() =~= s + seq![sep] + t.drop_last());
        lemma_split_on_concat(s, sep, t.drop_last());
        lemma_split_on_nonempty(t.drop_last(), sep);
        let a = split_on(s, sep);
        let b = split_on(t.drop_last(), sep);
        if t.last() == sep {
            assert((a + b).push(Seq::empty()) =~= a + b.push(Seq::empty()));
        } else {
            assert((a + b).update(a.len() + b.len() - 1, (a + b).last().push(t.last())) =~= a
                + b.update(b.len() - 1, b.last().push(t.last())));
        }
    }
}

/// Text without the separator is a single piece.
pub proof fn lemma_split_on_single(s: Seq<char>, sep: char)
    requires
        !s.contains(sep),
    ensures
        split_on(s, sep) == seq![s],
    decreases s.len(),
{
    if s.len() > 0 {
        assert(!s.drop_last().contains(sep)) by {
            if s.drop_last().contains(sep) {
                let k = choose|k: int| 0 <= k < s.drop_last().len() && s.drop_last()[k] == sep;
                assert(s[k] == sep);
            }
        }
        lemma_split_on_single(s.drop_last(), sep);
        assert(s[s.len() - 1] != sep);
        assert(s.drop_last().push(s.last()) =~= s);
        assert(seq![s.drop_last()].update(0, s.drop_last().push(s.last())) =~= seq![s]);
    } else {
        assert(s =~= Seq::<char>::empty());
    }
}

// ---------------------------------------------------------------------------------------
// Decimal numbers
// ---------------------------------------------------------------------------------------

pub open spec fn is_digit(c: char) -> bool {
    '0' <= c && c <= '9'
}

pub open spec fn digit_value(c: char) -> nat {
    ((c as u32) - ('0' as u32)) as nat
}

/// The value of a run of decimal digits.
pub open spec fn decimal_value(s: Seq<char>) -> nat
    decreases s.len(),
{
    if s.len() == 0 {
        0
    } else {
        decimal_value(s.drop_last()) * 10 + digit_value(s.last())
    }
}

/// Every character of `s` is an ASCII digit.
pub open spec fn all_digits(s: Seq<char>) -> bool {
    forall|i: int| 0 <= i < s.len() ==> is_digit(#[trigger] s[i])
}

/// The digits part of an unsigned number: `s` without one leading `+`.
pub open spec fn unsigned_digits(s: Seq<char>) -> Seq<char> {
    if s.len() > 0 && s[0] == '+' {
        s.drop_first()
    } else {
        s
    }
}

/// `u32::from_str`: an optional `+`, then one or more ASCII digits whose value fits.
pub open spec fn parse_u32(s: Seq<char>) -> Option<u32> {
    let d = unsigned_digits(s);
    if d.len() > 0 && all_digits(d) && decimal_value(d) <= u32::MAX {
        Some(decimal_value(d) as u32)
    } else {
        None
    }
}

proof fn lemma_decimal_prefix_grows(s: Seq<char>, k: int)
    requires
        0 <= k <= s.len(),
        forall|i: int| 0 <= i < s.len() ==> is_digit(#[trigger] s[i]),
    ensures
        decimal_value(s.take(k)) <= decimal_value(s),
    decreases s.len() - k,
{
    if k < s.len() {
        lemma_decimal_prefix_grows(s, k + 1);
        assert(s.take(k + 1).drop_last() =~= s.take(k));
    } else {
        assert(s.take(k) =~= s);
    }
}

/// `parse_u32` of `v[lo..hi]`.
pub fn parse_u32_range(v: &Vec<char>, lo: usize, hi: usize) -> (r: Option<u32>)
    requires
        lo <= hi <= v@.len(),
    ensures
        r == parse_u32(v@.subrange(lo as int, hi as int)),
{
    let ghost s = v@.subrange(lo as int, hi as int);
    let mut a = lo;
    if a < hi && v[a] == '+' {
        a = a + 1;
    }
    let ghost d = v@.subrange(a as int, hi as int);
    assert(d =~= unsigned_digits(s));
    if a == hi {
        return None;
    }
    let mut acc: u64 = 0;
    let mut i = a;
    while i < hi
        invariant
            lo <= a <= i <= hi <= v@.len(),
            d == v@.subrange(a as int, hi as int),
            s == v@.subrange(lo as int, hi as int),
            d == unsigned_digits(s),
            forall|j: int| 0 <= j < i - a ==> is_digit(#[trigger] d[j]),
            acc == decimal_value(d.take(i - a)),
            acc <= u32::MAX,
        decreases hi - i,
    {
        let c = v[i];
        assert(d[i - a] == c);
        if !('0' <= c && c <= '9') {
            assert(!is_digit(d[i - a]));
            return None;
        }
        assert(d.take(i - a + 1).drop_last() =~= d.take(i - a));
        assert(d.take(i - a + 1).last() == c);
        acc = acc * 10 + ((c as u32) - ('0' as u32)) as u64;
        i = i + 1;
        if acc > 0xffff_ffff {
            proof {
                assert(acc == decimal_value(d.take(i - a)));
                if all_digits(d) {
                    lemma_decimal_prefix_grows(d, i - a);
                }
            }
            return None;
        }
    }
    assert(d.take(d.len() as int) =~= d);
    Some(acc as u32)
}

pub open spec fn digit_char(d: nat) -> char {
    ((d + 48) as u32) as char
}

/// Decimal digits of `n`, no leading zeros (`usize` as formatted by `{}`).
pub open spec fn decimal(n: nat) -> Seq<char>
    decreases n,
{
    if n < 10 {
        seq![digit_char(n)]
    } else {
        decimal(n / 10).push(digit_char(n % 10))
    }
}

/// Appends the decimal digits of `n` to `out`.
pub fn push_decimal(out: &mut String, n: usize)
    ensures
        final(out)@ == old(out)@ + decimal(n as nat),
    decreases n,
{
    if n >= 10 {
        push_decimal(out, n / 10);
    }
    let d = (n % 10) as u8;
    let c = (d + 48) as char;
    assert(c == digit_char((n % 10) as nat));
    push_char(out, c);
    proof {
        if n >= 10 {
            assert(old(out)@ + decimal((n / 10) as nat) + seq![c] =~= old(out)@ + decimal(n as nat));
        } else {
            assert(old(out)@.push(c) =~= old(out)@ + decimal(n as nat));
        }
    }
}


// ---------------------------------------------------------------------------------------
// Facts about trimming and splitting
// ---------------------------------------------------------------------------------------

pub proof fn lemma_trim_start_push_ws(m: Seq<char>, w: char)
    requires
        is_ws(w),
    ensures
        trim_start(m).len() > 0 ==> trim_start(m.push(w)) == trim_start(m).push(w),
        trim_start(m).len() == 0 ==> trim_start(m.push(w)).len() == 0,
    decreases m.len(),
{
    if m.len() == 0 {
        assert(seq![w].drop_first() =~= Seq::<char>::empty());
        assert(m.push(w) =~= seq![w]);
        assert(trim_start(Seq::<char>::empty()) == Seq::<char>::empty());
        assert(trim_start(seq![w]) == trim_start(Seq::<char>::empty()));
    } else {
        assert(m.push(w).drop_first() =~= m.drop_first().push(w));
        if is_ws(m[0]) {
            lemma_trim_start_push_ws(m.drop_first(), w);
        }
    }
}

/// A trailing white-space character does not change the trimmed text.
pub proof fn lemma_trim_push_ws(m: Seq<char>, w: char)
    requires
        is_ws(w),
    ensures
        trim(m.push(w)) == trim(m),
{
    lemma_trim_start_push_ws(m, w);
    let ts = trim_start(m);
    if ts.len() > 0 {
        assert(ts.push(w).drop_last() =~= ts);
    } else {
        assert(ts =~= Seq::<char>::empty());
        assert(trim_start(m.push(w)) =~= Seq::<char>::empty());
    }
}

/// Dropping a carriage return before the line end does not change the trimmed line.
pub proof fn lemma_trim_strip_cr(l: Seq<char>)
    ensures
        trim(strip_cr(l)) == trim(l),
{
    if l.len() > 0 && l.last() == '\r' {
        lemma_trim_push_ws(l.drop_last(), '\r');
        assert(l.drop_last().push('\r') =~= l);
    }
}

pub proof fn lemma_trim_start_len(s: Seq<char>)
    ensures
        trim_start(s).len() <= s.len(),
        trim_start(s).len() == s.len() ==> trim_start(s) == s,
    decreases s.len(),
{
    if s.len() > 0 && is_ws(s[0]) {
        lemma_trim_start_len(s.drop_first());
    }
}

pub proof fn lemma_trim_end_len(s: Seq<char>)
    ensures
        trim_end(s).len() <= s.len(),
        trim_end(s).len() == s.len() ==> trim_end(s) == s,
    decreases s.len(),
{
    if s.len() > 0 && is_ws(s.last()) {
        lemma_trim_end_len(s.drop_last());
    }
}

/// Text that trimming leaves alone neither starts nor ends with white space.
pub proof fn lemma_trimmed_ends(s: Seq<char>)
    requires
        trim(s) == s,
        s.len() > 0,
    ensures
        !is_ws(s[0]),
        !is_ws(s.last()),
{
    lemma_trim_start_len(s);
    lemma_trim_end_len(trim_start(s));
    if is_ws(s[0]) {
        lemma_trim_start_len(s.drop_first());
    }
    assert(trim_start(s) == s);
    if is_ws(s.last()) {
        lemma_trim_end_len(s.drop_last());
    }
}

/// Text whose first and last characters are not white space is its own trim.
pub proof fn lemma_trim_noop(s: Seq<char>)
    requires
        s.len() > 0,
        !is_ws(s[0]),
        !is_ws(s.last()),
    ensures
        trim(s) == s,
{
}

/// No piece of `split_on(s, sep)` contains `sep`.
/// A character that `s` lacks is in none of its pieces.
pub proof fn lemma_split_on_avoids(s: Seq<char>, sep: char, c: char)
    requires
        !s.contains(c),
    ensures
        forall|k: int|
            0 <= k < split_on(s, sep).len() ==> !(#[trigger] split_on(s, sep)[k]).contains(c),
    decreases s.len(),
{
    lemma_split_on_nonempty(s, sep);
    if s.len() > 0 {
        let init = s.drop_last();
        assert(!init.contains(c)) by {
            if init.contains(c) {
                let j = choose|j: int| 0 <= j < init.len() && init[j] == c;
                assert(s[j] == c);
            }
        }
        lemma_split_on_avoids(init, sep, c);
        lemma_split_on_nonempty(init, sep);
        let p = split_on(init, sep);
        assert(s.last() != c) by {
            assert(s[s.len() - 1] == s.last());
        }
        if s.last() != sep {
            let q = p.last().push(s.last());
            assert(!q.contains(c)) by {
                assert(!p[p.len() - 1].contains(c));
                if q.contains(c) {
                    let j = choose|j: int| 0 <= j < q.len() && q[j] == c;
                    if j < p.last().len() {
                        assert(p.last()[j] == c);
                    }
                }
            }
            assert forall|k: int| 0 <= k < split_on(s, sep).len() implies !(#[trigger] split_on(
                s,
                sep,
            )[k]).contains(c) by {
                if k < p.len() - 1 {
                    assert(split_on(s, sep)[k] == p[k]);
                }
            }
        } else {
            assert forall|k: int| 0 <= k < split_on(s, sep).len() implies !(#[trigger] split_on(
                s,
                sep,
            )[k]).contains(c) by {
                if k < p.len() {
                    assert(split_on(s, sep)[k] == p[k]);
                } else {
                    assert(split_on(s, sep)[k] =~= Seq::<char>::empty());
                }
            }
        }
    }
}

/// A character that `s` lacks is in none of its lines.
pub proof fn lemma_lines_avoid(s: Seq<char>, c: char)
    requires
        !s.contains(c),
    ensures
        forall|k: int| 0 <= k < lines(s).len() ==> !(#[trigger] lines(s)[k]).contains(c),
{
    lemma_split_on_avoids(s, '\n', c);
    lemma_split_on_nonempty(s, '\n');
    let p = split_on(s, '\n');
    assert forall|k: int| 0 <= k < lines(s).len() implies !(#[trigger] lines(s)[k]).contains(c) by {
        assert(!p[k].contains(c));
        if lines(s)[k] != p[k] {
            assert(lines(s)[k] == strip_cr(p[k]));
            assert(lines(s)[k] =~= p[k].drop_last());
            if lines(s)[k].contains(c) {
                let j = choose|j: int| 0 <= j < lines(s)[k].len() && lines(s)[k][j] == c;
                assert(p[k][j] == c);
            }
        }
    }
}

pub proof fn lemma_split_on_pieces(s: Seq<char>, sep: char)
    ensures
        forall|k: int|
            0 <= k < split_on(s, sep).len() ==> !(#[trigger] split_on(s, sep)[k]).contains(sep),
    decreases s.len(),
{
    lemma_split_on_nonempty(s, sep);
    if s.len() > 0 {
        lemma_split_on_pieces(s.drop_last(), sep);
        lemma_split_on_nonempty(s.drop_last(), sep);
        let p = split_on(s.drop_last(), sep);
        if s.last() != sep {
            let q = p.last().push(s.last());
            assert(!q.contains(sep)) by {
                assert(!p[p.len() - 1].contains(sep));
                if q.contains(sep) {
                    let j = choose|j: int| 0 <= j < q.len() && q[j] == sep;
                    if j < q.len() - 1 {
                        assert(p.last()[j] == sep);
                    }
                }
            }
            assert forall|k: int| 0 <= k < split_on(s, sep).len() implies !(#[trigger] split_on(
                s,
                sep,
            )[k]).contains(sep) by {
                if k < p.len() - 1 {
                    assert(split_on(s, sep)[k] == p[k]);
                }
            }
        } else {
            assert forall|k: int| 0 <= k < split_on(s, sep).len() implies !(#[trigger] split_on(
                s,
                sep,
            )[k]).contains(sep) by {
                if k < p.len() {
                    assert(split_on(s, sep)[k] == p[k]);
                } else {
                    assert(split_on(s, sep)[k] =~= Seq::<char>::empty());
                }
            }
        }
    }
}

/// No line contains a newline.
pub proof fn lemma_lines_have_no_newline(s: Seq<char>)
    ensures
        forall|k: int| 0 <= k < lines(s).len() ==> !(#[trigger] lines(s)[k]).contains('\n'),
{
    lemma_split_on_nonempty(s, '\n');
    lemma_split_on_pieces(s, '\n');
    let p = split_on(s, '\n');
    assert forall|k: int| 0 <= k < lines(s).len() implies !(#[trigger] lines(s)[k]).contains(
        '\n',
    ) by {
        assert(!p[k].contains('\n'));
        if lines(s)[k] != p[k] {
            assert(lines(s)[k] == strip_cr(p[k]));
            if p[k].len() > 0 && p[k].last() == '\r' {
                if p[k].drop_last().contains('\n') {
                    let j = choose|j: int|
                        0 <= j < p[k].drop_last().len() && p[k].drop_last()[j] == '\n';
                    assert(p[k][j] == '\n');
                }
            }
        }
    }
}

/// Splitting lines joined by newlines gives the lines back.
pub proof fn lemma_split_join(ls: Seq<Seq<char>>)
    requires
        ls.len() > 0,
        forall|k: int| 0 <= k < ls.len() ==> !(#[trigger] ls[k]).contains('\n'),
    ensures
        split_on(join_lines(ls), '\n') == ls,
    decreases ls.len(),
{
    if ls.len() == 1 {
        lemma_split_on_single(ls[0], '\n');
        assert(seq![ls[0]] =~= ls);
    } else {
        let init = ls.drop_last();
        assert forall|k: int| 0 <= k < init.len() implies !(#[trigger] init[k]).contains('\n') by {
            assert(init[k] == ls[k]);
        }
        lemma_split_join(init);
        assert(!ls[ls.len() - 1].contains('\n'));
        lemma_split_on_concat(join_lines(init), '\n', ls.last());
        lemma_split_on_single(ls.last(), '\n');
        assert(init + seq![ls.last()] =~= ls);
    }
}

/// The lines of lines joined and terminated by newlines are the lines themselves, with a
/// carriage return before each newline dropped.
pub proof fn lemma_lines_of_joined(ls: Seq<Seq<char>>)
    requires
        ls.len() > 0,
        forall|k: int| 0 <= k < ls.len() ==> !(#[trigger] ls[k]).contains('\n'),
    ensures
        lines(join_lines(ls).push('\n')) == Seq::new(ls.len(), |i: int| strip_cr(ls[i])),
{
    lemma_split_join(ls);
    let j = join_lines(ls);
    assert(j.push('\n') =~= j + seq!['\n'] + Seq::<char>::empty());
    lemma_split_on_concat(j, '\n', Seq::empty());
    assert(split_on(Seq::<char>::empty(), '\n') =~= seq![Seq::<char>::empty()]);
    let p = split_on(j.push('\n'), '\n');
    assert(p =~= ls + seq![Seq::<char>::empty()]);
    assert(lines(j.push('\n')) =~= Seq::new(ls.len(), |i: int| strip_cr(ls[i])));
}


// ---------------------------------------------------------------------------------------
// Lexicographic order
// ---------------------------------------------------------------------------------------

/// `a` comes strictly before `b` in lexicographic character order (the order of `str`
/// and, for names of one directory, of `Path`).
pub open spec fn lex_lt(a: Seq<char>, b: Seq<char>) -> bool
    decreases a.len(),
{
    if a.len() == 0 {
        b.len() > 0
    } else if b.len() == 0 {
        false
    } else if a[0] < b[0] {
        true
    } else if a[0] > b[0] {
        false
    } else {
        lex_lt(a.drop_first(), b.drop_first())
    }
}

pub proof fn lemma_lex_asym(a: Seq<char>, b: Seq<char>)
    ensures
        !(lex_lt(a, b) && lex_lt(b, a)),
    decreases a.len(),
{
    if a.len() > 0 && b.len() > 0 && a[0] == b[0] {
        lemma_lex_asym(a.drop_first(), b.drop_first());
    }
}

pub proof fn lemma_lex_trans(a: Seq<char>, b: Seq<char>, c: Seq<char>)
    requires
        lex_lt(a, b),
        lex_lt(b, c),
    ensures
        lex_lt(a, c),
    decreases a.len(),
{
    if a.len() > 0 && b.len() > 0 && c.len() > 0 && a[0] == b[0] && b[0] == c[0] {
        lemma_lex_trans(a.drop_first(), b.drop_first(), c.drop_first());
    }
}

pub proof fn lemma_lex_total(a: Seq<char>, b: Seq<char>)
    ensures
        a == b || lex_lt(a, b) || lex_lt(b, a),
    decreases a.len(),
{
    if a.len() == 0 {
        if b.len() == 0 {
            assert(a =~= b);
        }
    } else if b.len() > 0 && a[0] == b[0] {
        lemma_lex_total(a.drop_first(), b.drop_first());
        if a.drop_first() == b.drop_first() {
            assert(a =~= seq![a[0]] + a.drop_first());
            assert(b =~= seq![b[0]] + b.drop_first());
        }
    }
}

/// `a < b` and `b <= c` give `a < c`.
pub proof fn lemma_lex_lt_le(a: Seq<char>, b: Seq<char>, c: Seq<char>)
    requires
        lex_lt(a, b),
        !lex_lt(c, b),
    ensures
        lex_lt(a, c),
{
    lemma_lex_total(b, c);
    if lex_lt(b, c) {
        lemma_lex_trans(a, b, c);
    }
}

/// `a` comes strictly before `b`.
pub fn lex_less(a: &Vec<char>, b: &Vec<char>) -> (r: bool)
    ensures
        r == lex_lt(a@, b@),
{
    let mut i: usize = 0;
    assert(a@.skip(0) =~= a@);
    assert(b@.skip(0) =~= b@);
    while i < a.len() && i < b.len() && a[i] == b[i]
        invariant
            i <= a@.len(),
            i <= b@.len(),
            lex_lt(a@, b@) == lex_lt(a@.skip(i as int), b@.skip(i as int)),
        decreases a@.len() - i,
    {
        assert(a@.skip(i as int).drop_first() =~= a@.skip(i + 1));
        assert(b@.skip(i as int).drop_first() =~= b@.skip(i + 1));
        i = i + 1;
    }
    if i == a.len() {
        i < b.len()
    } else if i == b.len() {
        false
    } else {
        a[i] < b[i]
    }
}


pub proof fn lemma_unlines_is_joined(ls: Seq<Seq<char>>)
    requires
        ls.len() > 0,
    ensures
        unlines(ls) == join_lines(ls).push('\n'),
    decreases ls.len(),
{
    if ls.len() == 1 {
        assert(ls.drop_last() =~= Seq::<Seq<char>>::empty());
        assert(unlines(ls.drop_last()) == Seq::<char>::empty());
        assert(ls.last() == ls[0]);
        assert(unlines(ls) =~= ls[0].push('\n'));
    } else {
        lemma_unlines_is_joined(ls.drop_last());
        assert(join_lines(ls.drop_last()).push('\n') + ls.last().push('\n') =~= (join_lines(
            ls.drop_last(),
        ) + seq!['\n'] + ls.last()).push('\n'));
    }
}

/// The lines of newline-terminated lines are those lines, each without a carriage return
/// before its newline.
pub proof fn lemma_lines_of_unlines(ls: Seq<Seq<char>>)
    requires
        forall|k: int| 0 <= k < ls.len() ==> !(#[trigger] ls[k]).contains('\n'),
    ensures
        lines(unlines(ls)) == ls.map_values(|l: Seq<char>| strip_cr(l)),
{
    if ls.len() == 0 {
        assert(split_on(Seq::<char>::empty(), '\n') =~= seq![Seq::<char>::empty()]);
        assert(lines(unlines(ls)) =~= ls.map_values(|l: Seq<char>| strip_cr(l)));
    } else {
        lemma_unlines_is_joined(ls);
        lemma_lines_of_joined(ls);
        assert(lines(unlines(ls)) =~= ls.map_values(|l: Seq<char>| strip_cr(l)));
    }
}

proof fn lemma_trim_end_keeps_first(s: Seq<char>)
    requires
        s.len() > 0,
        !is_ws(s[0]),
    ensures
        trim_end(s).len() > 0,
        trim_end(s)[0] == s[0],
    decreases s.len(),
{
    if is_ws(s.last()) {
        assert(s.len() > 1);
        lemma_trim_end_keeps_first(s.drop_last());
    }
}

/// Trimming text that starts with a non-blank character keeps that character first.
/// `trim_end` keeps every character up to the last non-blank one.
pub proof fn lemma_trim_end_keeps_prefix(s: Seq<char>, k: int)
    requires
        0 < k <= s.len(),
        !is_ws(s[k - 1]),
    ensures
        trim_end(s).len() >= k,
        trim_end(s).take(k) == s.take(k),
    decreases s.len(),
{
    if s.len() > 0 && is_ws(s.last()) {
        assert(k < s.len());
        lemma_trim_end_keeps_prefix(s.drop_last(), k);
        assert(s.drop_last().take(k) =~= s.take(k));
    }
}

pub proof fn lemma_trim_keeps_first(s: Seq<char>)
    requires
        s.len() > 0,
        !is_ws(s[0]),
    ensures
        trim(s).len() > 0,
        trim(s)[0] == s[0],
{
    lemma_trim_end_keeps_first(s);
}

/// Lines joined by `\n` (`[String]::join("\n")`).
pub open spec fn join_lines(ls: Seq<Seq<char>>) -> Seq<char>
    decreases ls.len(),
{
    if ls.len() == 0 {
        Seq::empty()
    } else if ls.len() == 1 {
        ls[0]
    } else {
        join_lines(ls.drop_last()) + seq!['\n'] + ls.last()
    }
}

/// Each line followed by `\n`, concatenated.
pub open spec fn unlines(ls: Seq<Seq<char>>) -> Seq<char>
    decreases ls.len(),
{
    if ls.len() == 0 {
        Seq::empty()
    } else {
        unlines(ls.drop_last()) + ls.last().push('\n')
    }
}

} // verus!
