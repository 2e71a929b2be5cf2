//! PAM service files and the PAM module's own arguments.
//!
//! IRAuth changes a PAM service in three ways: it inserts an `auth sufficient
//! pam_irauth.so` stanza (enable), removes that stanza again (disable), and comments out
//! direct Howdy `auth` entries so that they cannot bypass the hardware policy (migrate).
use vstd::prelude::*;
use crate::text::{
    chars_of, contains_seq, is_ws, lemma_trim_strip_cr, lemma_lines_of_unlines,
    lemma_trim_keeps_first, lemma_lines_have_no_newline, lemma_lines_avoid, lemma_trim_noop, lower, occurs_at, line_spans, lines, lower_seq, push_char,
    push_chars, push_range, range_contains, range_eq_ignore_case, range_starts_with, span_text,
    starts_with, strip_cr, string_from_range, to_lower, trim, trim_bounds, trim_start, unlines,
};

verus! {

pub const PAM_SUCCESS: i32 = 0;

pub const PAM_SERVICE_ERR: i32 = 3;

pub const PAM_SYSTEM_ERR: i32 = 4;

pub const PAM_AUTH_ERR: i32 = 7;

// ---------------------------------------------------------------------------------------
// Fixed lines
// ---------------------------------------------------------------------------------------

pub open spec fn marker_line() -> Seq<char> {
    seq!['#', ' ', 'I', 'R', 'A', 'u', 't', 'h', ' ', 'd', 'i', 's', 'a', 'b', 'l', 'e', 'd', ' ', 'd', 'i', 'r', 'e', 'c', 't', ' ', 'H', 'o', 'w', 'd', 'y', ' ', 'P', 'A', 'M', ' ', 'e', 'n', 't', 'r', 'y', ' ', 't', 'o', ' ', 'e', 'n', 'f', 'o', 'r', 'c', 'e', ' ', 's', 't', 'r', 'i', 'c', 't', ' ', 'c', 'a', 'm', 'e', 'r', 'a', ' ', 'p', 'o', 'l', 'i', 'c', 'y', ':']
}

pub open spec fn irauth_system_line() -> Seq<char> {
    seq![
        'a', 'u', 't', 'h', ' ', 's', 'u', 'f', 'f', 'i', 'c', 'i', 'e', 'n', 't', ' ', 'p', 'a',
        'm', '_', 'i', 'r', 'a', 'u', 't', 'h', '.', 's', 'o', ' ', 'r', 'e', 'a', 's', 'o', 'n',
        '=', 's', 'y', 's', 't', 'e', 'm',
    ]
}

pub open spec fn begin_line() -> Seq<char> {
    seq!['#', ' ', 'I', 'R', 'A', 'u', 't', 'h', ' ', 'b', 'e', 'g', 'i', 'n']
}

pub open spec fn end_line() -> Seq<char> {
    seq!['#', ' ', 'I', 'R', 'A', 'u', 't', 'h', ' ', 'e', 'n', 'd']
}

/// The lines IRAuth inserts to enable itself for a service.
pub open spec fn stanza() -> Seq<Seq<char>> {
    seq![begin_line(), irauth_system_line(), end_line()]
}

pub open spec fn auth_prefix() -> Seq<char> {
    seq!['a', 'u', 't', 'h', ' ']
}

pub open spec fn howdy_word() -> Seq<char> {
    seq!['h', 'o', 'w', 'd', 'y']
}

pub open spec fn module_name() -> Seq<char> {
    seq!['p', 'a', 'm', '_', 'i', 'r', 'a', 'u', 't', 'h', '.', 's', 'o']
}

pub open spec fn pam_header_mark() -> Seq<char> {
    seq!['#', '%', 'P', 'A', 'M']
}

fn push_line(out: &mut String, line: &[char])
    ensures
        final(out)@ == old(out)@ + line@ + seq!['\n'],
{
    push_chars(out, line);
    push_char(out, '\n');
}

fn irauth_system_chars() -> (r: Vec<char>)
    ensures
        r@ == irauth_system_line(),
{
    let a: [char; 43] = [
        'a', 'u', 't', 'h', ' ', 's', 'u', 'f', 'f', 'i', 'c', 'i', 'e', 'n', 't', ' ', 'p', 'a',
        'm', '_', 'i', 'r', 'a', 'u', 't', 'h', '.', 's', 'o', ' ', 'r', 'e', 'a', 's', 'o', 'n',
        '=', 's', 'y', 's', 't', 'e', 'm',
    ];
    let mut r: Vec<char> = Vec::new();
    let mut i: usize = 0;
    while i < 43
        invariant
            i <= 43,
            a@ == irauth_system_line(),
            r@ == a@.take(i as int),
        decreases 43 - i,
    {
        r.push(a[i]);
        i = i + 1;
        assert(a@.take(i as int) =~= a@.take(i - 1).push(a@[i - 1]));
    }
    assert(a@.take(43) =~= a@);
    r
}

fn marker_chars() -> (r: Vec<char>)
    ensures
        r@ == marker_line(),
{
    let a: [char; 73] = ['#', ' ', 'I', 'R', 'A', 'u', 't', 'h', ' ', 'd', 'i', 's', 'a', 'b', 'l', 'e', 'd', ' ', 'd', 'i', 'r', 'e', 'c', 't', ' ', 'H', 'o', 'w', 'd', 'y', ' ', 'P', 'A', 'M', ' ', 'e', 'n', 't', 'r', 'y', ' ', 't', 'o', ' ', 'e', 'n', 'f', 'o', 'r', 'c', 'e', ' ', 's', 't', 'r', 'i', 'c', 't', ' ', 'c', 'a', 'm', 'e', 'r', 'a', ' ', 'p', 'o', 'l', 'i', 'c', 'y', ':'];
    let mut r: Vec<char> = Vec::new();
    let mut i: usize = 0;
    while i < 73
        invariant
            i <= 73,
            a@ == marker_line(),
            r@ == a@.take(i as int),
        decreases 73 - i,
    {
        r.push(a[i]);
        i = i + 1;
        assert(a@.take(i as int) =~= a@.take(i - 1).push(a@[i - 1]));
    }
    assert(a@.take(73) =~= a@);
    r
}

// ---------------------------------------------------------------------------------------
// Direct Howdy entries
// ---------------------------------------------------------------------------------------

/// An active `auth` line that names Howdy (in any case).
pub open spec fn is_direct_howdy(line: Seq<char>) -> bool {
    let t = trim(line);
    &&& !(t.len() > 0 && t[0] == '#')
    &&& starts_with(t, auth_prefix())
    &&& contains_seq(lower_seq(t), howdy_word())
}

/// `is_direct_howdy(v[lo..hi])`, and the bounds of the trimmed line.
fn direct_howdy_at(v: &Vec<char>, lo: usize, hi: usize) -> (r: (bool, usize, usize))
    requires
        lo <= hi <= v@.len(),
    ensures
        r.0 == is_direct_howdy(v@.subrange(lo as int, hi as int)),
        lo <= r.1 <= r.2 <= hi,
        v@.subrange(r.1 as int, r.2 as int) == trim(v@.subrange(lo as int, hi as int)),
{
    let (a, b) = trim_bounds(v, lo, hi);
    let ghost t = v@.subrange(a as int, b as int);
    if a < b && v[a] == '#' {
        assert(t[0] == v@[a as int]);
        return (false, a, b);
    }
    let ap: [char; 5] = ['a', 'u', 't', 'h', ' '];
    assert(ap@ =~= auth_prefix());
    if !range_starts_with(v, a, b, &ap) {
        return (false, a, b);
    }
    let mut l: Vec<char> = Vec::new();
    let mut i = a;
    while i < b
        invariant
            a <= i <= b <= v@.len(),
            l@ =~= lower_seq(v@.subrange(a as int, i as int)),
        decreases b - i,
    {
        l.push(to_lower(v[i]));
        i = i + 1;
    }
    let hw: [char; 5] = ['h', 'o', 'w', 'd', 'y'];
    assert(hw@ =~= howdy_word());
    let n = l.len();
    assert(l@.subrange(0, n as int) =~= l@);
    let found = range_contains(&l, 0, n, &hw);
    (found, a, b)
}

/// The lines after migration: each direct Howdy entry is commented out under a marker
/// line, and one IRAuth line follows the first of them.
pub open spec fn migrate_lines(ls: Seq<Seq<char>>) -> (bool, Seq<Seq<char>>)
    decreases ls.len(),
{
    if ls.len() == 0 {
        (false, Seq::empty())
    } else {
        let (found, out) = migrate_lines(ls.drop_last());
        let l = ls.last();
        if is_direct_howdy(l) {
            let out1 = out.push(marker_line()).push(seq!['#', ' '] + l);
            (true, if found {
                out1
            } else {
                out1.push(irauth_system_line())
            })
        } else {
            (found, out.push(l))
        }
    }
}

/// The migrated text of a PAM file, and whether it had a direct Howdy entry.
pub open spec fn spec_rewrite_direct_howdy_pam(content: Seq<char>) -> (Seq<char>, bool) {
    let r = migrate_lines(lines(content));
    (unlines(r.1), r.0)
}

/// Routes a PAM file's direct Howdy `auth` entries through IRAuth.
pub fn rewrite_direct_howdy_pam(content: &str) -> (r: (String, bool))
    ensures
        (r.0@, r.1) == spec_rewrite_direct_howdy_pam(content@),
{
    let v = chars_of(content);
    let spans = line_spans(&v);
    let ghost ls = lines(v@);
    let sys = irauth_system_chars();
    let marker = marker_chars();
    let mut out = String::new();
    let mut found = false;
    let mut k: usize = 0;
    assert(ls.take(0) =~= Seq::<Seq<char>>::empty());
    while k < spans.len()
        invariant
            k <= spans@.len() == ls.len(),
            ls == lines(v@),
            v@ == content@,
            sys@ == irauth_system_line(),
            marker@ == marker_line(),
            forall|j: int| 0 <= j < spans@.len() ==> (#[trigger] spans@[j]).0 <= spans@[j].1 <= v@.len(),
            forall|j: int| 0 <= j < spans@.len() ==> #[trigger] span_text(v@, spans@[j]) == ls[j],
            found == migrate_lines(ls.take(k as int)).0,
            out@ == unlines(migrate_lines(ls.take(k as int)).1),
        decreases spans@.len() - k,
    {
        let (lo, hi) = spans[k];
        assert(span_text(v@, spans@[k as int]) == ls[k as int]);
        assert(ls.take(k + 1).drop_last() =~= ls.take(k as int));
        assert(ls.take(k + 1).last() == ls[k as int]);
        let ghost prev = migrate_lines(ls.take(k as int)).1;
        let ghost l = ls[k as int];
        let (direct, _, _) = direct_howdy_at(&v, lo, hi);
        if direct {
            push_line(&mut out, marker.as_slice());
            push_chars(&mut out, &['#', ' ']);
            push_range(&mut out, &v, lo, hi);
            push_char(&mut out, '\n');
            let ghost p0 = prev.push(marker_line());
            let ghost p1 = p0.push(seq!['#', ' '] + l);
            assert(p0.drop_last() =~= prev);
            assert(unlines(p0) == unlines(prev) + marker_line().push('\n'));
            assert(p1.drop_last() =~= p0);
            assert(unlines(p1) == unlines(p0) + (seq!['#', ' '] + l).push('\n'));
            assert(out@ =~= unlines(p1));
            if !found {
                push_line(&mut out, sys.as_slice());
                assert(p1.push(irauth_system_line()).drop_last() =~= p1);
                found = true;
            }
        } else {
            push_range(&mut out, &v, lo, hi);
            push_char(&mut out, '\n');
            assert(prev.push(l).drop_last() =~= prev);
            assert(out@ =~= unlines(prev.push(l)));
        }
        k = k + 1;
    }
    assert(ls.take(k as int) =~= ls);
    (out, found)
}

/// The first active `auth` line of a PAM file that names Howdy, trimmed.
pub open spec fn first_howdy_line(ls: Seq<Seq<char>>) -> Option<Seq<char>>
    decreases ls.len(),
{
    if ls.len() == 0 {
        None
    } else if is_direct_howdy(ls[0]) {
        Some(trim(ls[0]))
    } else {
        first_howdy_line(ls.drop_first())
    }
}

pub open spec fn opt_view(o: Option<String>) -> Option<Seq<char>> {
    match o {
        Some(s) => Some(s@),
        None => None,
    }
}

/// Whether a PAM file carries the migration marker (it is listed in the migration
/// manifest).
pub fn is_migrated(content: &str) -> (r: bool)
    ensures
        r == contains_seq(content@, marker_line()),
{
    let v = chars_of(content);
    let m = marker_chars();
    let n = v.len();
    assert(v@.subrange(0, n as int) =~= v@);
    range_contains(&v, 0, n, m.as_slice())
}

/// The Howdy `auth` line of one PAM file, to reuse in the face-only service.
pub fn howdy_auth_line(content: &str) -> (r: Option<String>)
    ensures
        opt_view(r) == first_howdy_line(lines(content@)),
{
    let v = chars_of(content);
    let spans = line_spans(&v);
    let ghost ls = lines(v@);
    let mut k: usize = 0;
    assert(ls.skip(0) =~= ls);
    while k < spans.len()
        invariant
            k <= spans@.len() == ls.len(),
            ls == lines(v@),
            v@ == content@,
            forall|j: int| 0 <= j < spans@.len() ==> (#[trigger] spans@[j]).0 <= spans@[j].1 <= v@.len(),
            forall|j: int| 0 <= j < spans@.len() ==> #[trigger] span_text(v@, spans@[j]) == ls[j],
            first_howdy_line(ls) == first_howdy_line(ls.skip(k as int)),
        decreases spans@.len() - k,
    {
        let (lo, hi) = spans[k];
        assert(span_text(v@, spans@[k as int]) == ls[k as int]);
        assert(ls.skip(k as int)[0] == ls[k as int]);
        assert(ls.skip(k as int).drop_first() =~= ls.skip(k + 1));
        let (direct, a, b) = direct_howdy_at(&v, lo, hi);
        if direct {
            return Some(string_from_range(&v, a, b));
        }
        k = k + 1;
    }
    None
}

/// The face-only PAM service built around a Howdy `auth` line.
pub open spec fn spec_howdy_only_pam(line: Seq<char>) -> Seq<char> {
    "#%PAM-1.0\n# Generated by IRAuth. Face-only backend; do not add password fallback here.\n"@
        + line + "\nauth required pam_deny.so\n"@
}

pub fn howdy_only_pam_content(line: &str) -> (r: String)
    ensures
        r@ == spec_howdy_only_pam(line@),
{
    let mut s = String::from_str(
        "#%PAM-1.0\n# Generated by IRAuth. Face-only backend; do not add password fallback here.\n",
    );
    s.append(line);
    s.append("\nauth required pam_deny.so\n");
    s
}

/// The PAM service that the passkey authenticator runs through.
pub fn passkey_pam_content() -> (r: String)
    ensures
        r@ == "#%PAM-1.0\n# Generated by IRAuth.\nauth sufficient pam_irauth.so reason=passkey\nauth required pam_deny.so\n"@,
{
    String::from_str(
        "#%PAM-1.0\n# Generated by IRAuth.\nauth sufficient pam_irauth.so reason=passkey\nauth required pam_deny.so\n",
    )
}

// ---------------------------------------------------------------------------------------
// Enabling and disabling a service
// ---------------------------------------------------------------------------------------

/// The `#%PAM` header line.
pub open spec fn is_pam_header(l: Seq<char>) -> bool {
    starts_with(trim_start(l), pam_header_mark())
}

/// The lines after inserting the stanza after the first header line, and whether there
/// was one.
pub open spec fn enable_lines(ls: Seq<Seq<char>>) -> (bool, Seq<Seq<char>>)
    decreases ls.len(),
{
    if ls.len() == 0 {
        (false, Seq::empty())
    } else {
        let (ins, out) = enable_lines(ls.drop_last());
        let l = ls.last();
        if !ins && is_pam_header(l) {
            (true, out.push(l) + stanza())
        } else {
            (ins, out.push(l))
        }
    }
}

/// Some line already names the IRAuth module.
pub open spec fn mentions_module(ls: Seq<Seq<char>>) -> bool {
    exists|k: int| 0 <= k < ls.len() && contains_seq(#[trigger] ls[k], module_name())
}

/// The enabled text of a PAM file; none when IRAuth is already in it.
pub open spec fn spec_enable(content: Seq<char>) -> Option<Seq<char>> {
    let ls = lines(content);
    let (ins, out) = enable_lines(ls);
    if mentions_module(ls) {
        None
    } else if ins {
        Some(unlines(out))
    } else {
        Some(unlines(stanza()) + unlines(out))
    }
}

/// `trim_start(v[lo..hi])` starts with `#%PAM`.
fn pam_header_at(v: &Vec<char>, lo: usize, hi: usize) -> (r: bool)
    requires
        lo <= hi <= v@.len(),
    ensures
        r == is_pam_header(v@.subrange(lo as int, hi as int)),
{
    let mut i = lo;
    while i < hi && crate::text::is_whitespace(v[i])
        invariant
            lo <= i <= hi <= v@.len(),
            trim_start(v@.subrange(lo as int, hi as int)) == trim_start(
                v@.subrange(i as int, hi as int),
            ),
        decreases hi - i,
    {
        assert(v@.subrange(i as int, hi as int).drop_first() =~= v@.subrange(
            i + 1,
            hi as int,
        ));
        i = i + 1;
    }
    let m: [char; 5] = ['#', '%', 'P', 'A', 'M'];
    assert(m@ =~= pam_header_mark());
    range_starts_with(v, i, hi, &m)
}

fn push_stanza(out: &mut String, sys: &Vec<char>)
    requires
        sys@ == irauth_system_line(),
    ensures
        final(out)@ == old(out)@ + unlines(stanza()),
{
    push_line(out, &['#', ' ', 'I', 'R', 'A', 'u', 't', 'h', ' ', 'b', 'e', 'g', 'i', 'n']);
    push_line(out, sys.as_slice());
    push_line(out, &['#', ' ', 'I', 'R', 'A', 'u', 't', 'h', ' ', 'e', 'n', 'd']);
    proof {
        let s = stanza();
        let s1 = seq![begin_line()];
        let s2 = seq![begin_line(), irauth_system_line()];
        assert(s1.drop_last() =~= Seq::<Seq<char>>::empty());
        assert(s2.drop_last() =~= s1);
        assert(s.drop_last() =~= s2);
        assert(s1.last() == begin_line());
        assert(unlines(s1.drop_last()) == Seq::<char>::empty());
        assert(unlines(s1) =~= begin_line().push('\n'));
        assert(unlines(s2) == unlines(s1) + irauth_system_line().push('\n'));
        assert(unlines(s) == unlines(s2) + end_line().push('\n'));
        assert(final(out)@ =~= old(out)@ + unlines(stanza()));
    }
}

/// Inserts IRAuth's `auth sufficient` stanza into a PAM file, after its `#%PAM` header or
/// at the top; none when the file already names the IRAuth module.
pub fn enable_pam_content(content: &str) -> (r: Option<String>)
    ensures
        opt_view(r) == spec_enable(content@),
{
    let v = chars_of(content);
    let spans = line_spans(&v);
    let ghost ls = lines(v@);
    let sys = irauth_system_chars();
    let module: [char; 13] = ['p', 'a', 'm', '_', 'i', 'r', 'a', 'u', 't', 'h', '.', 's', 'o'];
    assert(module@ =~= module_name());
    let mut k: usize = 0;
    while k < spans.len()
        invariant
            k <= spans@.len() == ls.len(),
            ls == lines(v@),
            module@ == module_name(),
            v@ == content@,
            forall|j: int| 0 <= j < spans@.len() ==> (#[trigger] spans@[j]).0 <= spans@[j].1 <= v@.len(),
            forall|j: int| 0 <= j < spans@.len() ==> #[trigger] span_text(v@, spans@[j]) == ls[j],
            forall|j: int| 0 <= j < k ==> !contains_seq(#[trigger] ls[j], module_name()),
        decreases spans@.len() - k,
    {
        let (lo, hi) = spans[k];
        assert(span_text(v@, spans@[k as int]) == ls[k as int]);
        if range_contains(&v, lo, hi, &module) {
            assert(contains_seq(ls[k as int], module_name()));
            assert(mentions_module(ls));
            return None;
        }
        k = k + 1;
    }
    let mut out = String::new();
    let mut inserted = false;
    let mut k: usize = 0;
    assert(ls.take(0) =~= Seq::<Seq<char>>::empty());
    while k < spans.len()
        invariant
            k <= spans@.len() == ls.len(),
            ls == lines(v@),
            sys@ == irauth_system_line(),
            forall|j: int| 0 <= j < spans@.len() ==> (#[trigger] spans@[j]).0 <= spans@[j].1 <= v@.len(),
            forall|j: int| 0 <= j < spans@.len() ==> #[trigger] span_text(v@, spans@[j]) == ls[j],
            inserted == enable_lines(ls.take(k as int)).0,
            out@ == unlines(enable_lines(ls.take(k as int)).1),
        decreases spans@.len() - k,
    {
        let (lo, hi) = spans[k];
        assert(span_text(v@, spans@[k as int]) == ls[k as int]);
        assert(ls.take(k + 1).drop_last() =~= ls.take(k as int));
        assert(ls.take(k + 1).last() == ls[k as int]);
        let ghost prev = enable_lines(ls.take(k as int)).1;
        let ghost l = ls[k as int];
        push_range(&mut out, &v, lo, hi);
        push_char(&mut out, '\n');
        assert(prev.push(l).drop_last() =~= prev);
        assert(out@ =~= unlines(prev.push(l)));
        if !inserted && pam_header_at(&v, lo, hi) {
            push_stanza(&mut out, &sys);
            proof {
                lemma_unlines_concat(prev.push(l), stanza());
            }
            inserted = true;
        }
        k = k + 1;
    }
    assert(ls.take(k as int) =~= ls);
    if !inserted {
        let mut s = String::new();
        push_stanza(&mut s, &sys);
        s.append(out.as_str());
        assert(s@ =~= unlines(stanza()) + out@);
        return Some(s);
    }
    Some(out)
}

/// `unlines` of a concatenation.
pub proof fn lemma_unlines_concat(a: Seq<Seq<char>>, b: Seq<Seq<char>>)
    ensures
        unlines(a + b) == unlines(a) + unlines(b),
    decreases b.len(),
{
    if b.len() == 0 {
        assert(a + b =~= a);
        assert(unlines(a) + Seq::<char>::empty() =~= unlines(a));
    } else {
        assert((a + b).drop_last() =~= a + b.drop_last());
        lemma_unlines_concat(a, b.drop_last());
        assert(unlines(a) + unlines(b.drop_last()) + b.last().push('\n') =~= unlines(a) + (
        unlines(b.drop_last()) + b.last().push('\n')));
    }
}

/// The removal state: inside an IRAuth stanza, and the lines kept.
pub open spec fn strip_step(st: (bool, Seq<Seq<char>>), l: Seq<char>) -> (bool, Seq<Seq<char>>) {
    let t = trim(l);
    if t == begin_line() {
        (true, st.1)
    } else if t == end_line() {
        (false, st.1)
    } else if !st.0 {
        (st.0, st.1.push(l))
    } else {
        st
    }
}

pub open spec fn strip_from(st: (bool, Seq<Seq<char>>), ls: Seq<Seq<char>>) -> (
    bool,
    Seq<Seq<char>>,
)
    decreases ls.len(),
{
    if ls.len() == 0 {
        st
    } else {
        strip_step(strip_from(st, ls.drop_last()), ls.last())
    }
}

/// A PAM file with every IRAuth stanza removed.
pub open spec fn spec_strip_stanza(content: Seq<char>) -> Seq<char> {
    unlines(strip_from((false, Seq::empty()), lines(content)).1)
}

/// `trim(v[lo..hi])` equals `p`.
fn trimmed_equals(v: &Vec<char>, lo: usize, hi: usize, p: &[char]) -> (r: bool)
    requires
        lo <= hi <= v@.len(),
    ensures
        r == (trim(v@.subrange(lo as int, hi as int)) == p@),
{
    let (a, b) = trim_bounds(v, lo, hi);
    if b - a != p.len() {
        return false;
    }
    let r = range_starts_with(v, a, b, p);
    assert(v@.subrange(a as int, b as int).take(p@.len() as int) =~= v@.subrange(
        a as int,
        b as int,
    ));
    r
}

/// Removes the IRAuth stanza from a PAM file (used when no backup exists).
pub fn strip_irauth_stanza(content: &str) -> (r: String)
    ensures
        r@ == spec_strip_stanza(content@),
{
    let v = chars_of(content);
    let spans = line_spans(&v);
    let ghost ls = lines(v@);
    let begin: [char; 14] = ['#', ' ', 'I', 'R', 'A', 'u', 't', 'h', ' ', 'b', 'e', 'g', 'i', 'n'];
    let end: [char; 12] = ['#', ' ', 'I', 'R', 'A', 'u', 't', 'h', ' ', 'e', 'n', 'd'];
    assert(begin@ =~= begin_line());
    assert(end@ =~= end_line());
    let mut out = String::new();
    let mut skip = false;
    let mut k: usize = 0;
    assert(ls.take(0) =~= Seq::<Seq<char>>::empty());
    while k < spans.len()
        invariant
            k <= spans@.len() == ls.len(),
            ls == lines(v@),
            v@ == content@,
            begin@ == begin_line(),
            end@ == end_line(),
            forall|j: int| 0 <= j < spans@.len() ==> (#[trigger] spans@[j]).0 <= spans@[j].1 <= v@.len(),
            forall|j: int| 0 <= j < spans@.len() ==> #[trigger] span_text(v@, spans@[j]) == ls[j],
            skip == strip_from((false, Seq::empty()), ls.take(k as int)).0,
            out@ == unlines(strip_from((false, Seq::empty()), ls.take(k as int)).1),
        decreases spans@.len() - k,
    {
        let (lo, hi) = spans[k];
        assert(span_text(v@, spans@[k as int]) == ls[k as int]);
        assert(ls.take(k + 1).drop_last() =~= ls.take(k as int));
        assert(ls.take(k + 1).last() == ls[k as int]);
        let ghost prev = strip_from((false, Seq::empty()), ls.take(k as int)).1;
        let ghost l = ls[k as int];
        if trimmed_equals(&v, lo, hi, &begin) {
            skip = true;
        } else if trimmed_equals(&v, lo, hi, &end) {
            skip = false;
        } else if !skip {
            push_range(&mut out, &v, lo, hi);
            push_char(&mut out, '\n');
            assert(prev.push(l).drop_last() =~= prev);
            assert(out@ =~= unlines(prev.push(l)));
        }
        k = k + 1;
    }
    assert(ls.take(k as int) =~= ls);
    out
}


// ---------------------------------------------------------------------------------------
// Laws
// ---------------------------------------------------------------------------------------

proof fn lemma_commented_not_direct(l: Seq<char>)
    ensures
        !is_direct_howdy(seq!['#', ' '] + l),
{
    let c = seq!['#', ' '] + l;
    lemma_trim_keeps_first(c);
}

proof fn lemma_fixed_lines()
    ensures
        !is_direct_howdy(marker_line()),
        !is_direct_howdy(irauth_system_line()),
        !marker_line().contains('\n'),
        !irauth_system_line().contains('\n'),
        !begin_line().contains('\n'),
        !end_line().contains('\n'),
        strip_cr(irauth_system_line()) == irauth_system_line(),
        contains_seq(irauth_system_line(), module_name()),
{
    let m = marker_line();
    lemma_trim_keeps_first(m);
    let s = irauth_system_line();
    assert(forall|j: int| 0 <= j < s.len() ==> s[j] != 'w' && s[j] != 'W' && s[j] != '\n');
    lemma_trim_noop(s);
    assert(!contains_seq(lower_seq(s), howdy_word())) by {
        if contains_seq(lower_seq(s), howdy_word()) {
            let i = choose|i: int| occurs_at(lower_seq(s), howdy_word(), i);
            assert(lower_seq(s).subrange(i, i + 5)[2] == 'w');
            assert(lower(s[i + 2]) == 'w');
        }
    }
    assert(forall|j: int| 0 <= j < m.len() ==> m[j] != '\n');
    let b = begin_line();
    let e = end_line();
    assert(forall|j: int| 0 <= j < b.len() ==> b[j] != '\n');
    assert(forall|j: int| 0 <= j < e.len() ==> e[j] != '\n');
    assert(s.subrange(16, 29) =~= module_name());
    assert(occurs_at(s, module_name(), 16));
}

/// No line of a migrated file is a direct Howdy entry, and none holds a newline.
proof fn lemma_migrated_lines(ls: Seq<Seq<char>>)
    requires
        forall|k: int| 0 <= k < ls.len() ==> !(#[trigger] ls[k]).contains('\n'),
    ensures
        forall|k: int|
            0 <= k < migrate_lines(ls).1.len() ==> !is_direct_howdy(
                #[trigger] migrate_lines(ls).1[k],
            ) && !migrate_lines(ls).1[k].contains('\n'),
    decreases ls.len(),
{
    if ls.len() > 0 {
        let init = ls.drop_last();
        assert forall|k: int| 0 <= k < init.len() implies !(#[trigger] init[k]).contains('\n') by {
            assert(init[k] == ls[k]);
        }
        lemma_migrated_lines(init);
        lemma_fixed_lines();
        let l = ls.last();
        assert(!l.contains('\n'));
        lemma_commented_not_direct(l);
        let prev = migrate_lines(init).1;
        let out = migrate_lines(ls).1;
        assert(!(seq!['#', ' '] + l).contains('\n')) by {
            if (seq!['#', ' '] + l).contains('\n') {
                let j = choose|j: int|
                    0 <= j < (seq!['#', ' '] + l).len() && (seq!['#', ' '] + l)[j] == '\n';
                assert(l[j - 2] == '\n');
            }
        }
        assert forall|k: int| 0 <= k < out.len() implies !is_direct_howdy(#[trigger] out[k])
            && !out[k].contains('\n') by {
            if k < prev.len() {
                assert(out[k] == prev[k]);
            }
        }
    }
}

proof fn lemma_migrate_nothing(ls: Seq<Seq<char>>)
    requires
        forall|k: int| 0 <= k < ls.len() ==> !is_direct_howdy(#[trigger] ls[k]),
    ensures
        !migrate_lines(ls).0,
        migrate_lines(ls).1 == ls,
    decreases ls.len(),
{
    if ls.len() > 0 {
        let init = ls.drop_last();
        assert forall|k: int| 0 <= k < init.len() implies !is_direct_howdy(#[trigger] init[k]) by {
            assert(init[k] == ls[k]);
        }
        lemma_migrate_nothing(init);
        assert(!is_direct_howdy(ls[ls.len() - 1]));
        assert(init.push(ls.last()) =~= ls);
    } else {
        assert(migrate_lines(ls).1 =~= ls);
    }
}

/// Migration adds no carriage return: the lines it writes hold one only where an input
/// line did.
proof fn lemma_migrated_lines_no_cr(ls: Seq<Seq<char>>)
    requires
        forall|k: int| 0 <= k < ls.len() ==> !(#[trigger] ls[k]).contains('\r'),
    ensures
        forall|k: int|
            0 <= k < migrate_lines(ls).1.len() ==> !(#[trigger] migrate_lines(ls).1[k]).contains(
                '\r',
            ),
    decreases ls.len(),
{
    if ls.len() > 0 {
        let init = ls.drop_last();
        assert forall|k: int| 0 <= k < init.len() implies !(#[trigger] init[k]).contains('\r') by {
            assert(init[k] == ls[k]);
        }
        lemma_migrated_lines_no_cr(init);
        let l = ls.last();
        assert(!l.contains('\r'));
        let m = marker_line();
        let sys = irauth_system_line();
        assert(forall|j: int| 0 <= j < m.len() ==> m[j] != '\r');
        assert(forall|j: int| 0 <= j < sys.len() ==> sys[j] != '\r');
        let c = seq!['#', ' '] + l;
        assert(!c.contains('\r')) by {
            if c.contains('\r') {
                let j = choose|j: int| 0 <= j < c.len() && c[j] == '\r';
                assert(l[j - 2] == '\r');
            }
        }
        let prev = migrate_lines(init).1;
        let out = migrate_lines(ls).1;
        assert forall|k: int| 0 <= k < out.len() implies !(#[trigger] out[k]).contains('\r') by {
            if k < prev.len() {
                assert(out[k] == prev[k]);
            }
        }
    }
}

/// Migrating a migrated PAM file finds no direct Howdy entry, so the file is left alone.
pub proof fn lemma_migration_is_idempotent(content: Seq<char>)
    ensures
        !spec_rewrite_direct_howdy_pam(spec_rewrite_direct_howdy_pam(content).0).1,
{
    let ls = lines(content);
    lemma_lines_have_no_newline(content);
    lemma_migrated_lines(ls);
    let m = migrate_lines(ls).1;
    lemma_lines_of_unlines(m);
    let back = lines(unlines(m));
    assert forall|k: int| 0 <= k < back.len() implies !is_direct_howdy(#[trigger] back[k]) by {
        assert(back[k] == strip_cr(m[k]));
        lemma_trim_strip_cr(m[k]);
        assert(!is_direct_howdy(m[k]));
    }
    lemma_migrate_nothing(back);
}

proof fn lemma_migrate_found(ls: Seq<Seq<char>>)
    ensures
        migrate_lines(ls).0 <==> exists|k: int| 0 <= k < ls.len() && is_direct_howdy(#[trigger] ls[k]),
    decreases ls.len(),
{
    if ls.len() > 0 {
        let init = ls.drop_last();
        lemma_migrate_found(init);
        if migrate_lines(init).0 {
            let k = choose|k: int| 0 <= k < init.len() && is_direct_howdy(#[trigger] init[k]);
            assert(ls[k] == init[k]);
        }
        if exists|k: int| 0 <= k < ls.len() && is_direct_howdy(#[trigger] ls[k]) {
            let k = choose|k: int| 0 <= k < ls.len() && is_direct_howdy(#[trigger] ls[k]);
            if k < init.len() {
                assert(init[k] == ls[k]);
            }
        }
    }
}

/// The rewrite reports a direct Howdy entry exactly when one of the file's lines is one.
pub proof fn lemma_rewrite_finds_direct_entries(content: Seq<char>)
    ensures
        spec_rewrite_direct_howdy_pam(content).1 <==> exists|k: int|
            0 <= k < lines(content).len() && is_direct_howdy(#[trigger] lines(content)[k]),
{
    lemma_migrate_found(lines(content));
}

/// Rewriting a rewritten PAM file gives it back unchanged, with nothing found, for files
/// without carriage returns.
pub proof fn lemma_rewrite_is_idempotent(content: Seq<char>)
    requires
        !content.contains('\r'),
    ensures
        spec_rewrite_direct_howdy_pam(spec_rewrite_direct_howdy_pam(content).0) == (
            spec_rewrite_direct_howdy_pam(content).0,
            false,
        ),
{
    let ls = lines(content);
    lemma_lines_have_no_newline(content);
    lemma_lines_avoid(content, '\r');
    lemma_migrated_lines(ls);
    lemma_migrated_lines_no_cr(ls);
    let m = migrate_lines(ls).1;
    lemma_lines_of_unlines(m);
    assert(lines(unlines(m)) =~= m) by {
        assert forall|k: int| 0 <= k < m.len() implies strip_cr(#[trigger] m[k]) == m[k] by {
            if m[k].len() > 0 {
                assert(m[k][m[k].len() - 1] != '\r');
            }
        }
    }
    lemma_migrate_nothing(m);
}

proof fn lemma_enable_lines(ls: Seq<Seq<char>>)
    requires
        forall|k: int| 0 <= k < ls.len() ==> !(#[trigger] ls[k]).contains('\n'),
    ensures
        enable_lines(ls).0 ==> exists|k: int|
            0 <= k < enable_lines(ls).1.len() && #[trigger] enable_lines(ls).1[k]
                == irauth_system_line(),
        forall|k: int|
            0 <= k < enable_lines(ls).1.len() ==> !(#[trigger] enable_lines(ls).1[k]).contains(
                '\n',
            ),
    decreases ls.len(),
{
    lemma_fixed_lines();
    if ls.len() > 0 {
        let init = ls.drop_last();
        assert forall|k: int| 0 <= k < init.len() implies !(#[trigger] init[k]).contains('\n') by {
            assert(init[k] == ls[k]);
        }
        lemma_enable_lines(init);
        let (ins, prev) = enable_lines(init);
        let l = ls.last();
        assert(!l.contains('\n'));
        let out = enable_lines(ls).1;
        if !ins && is_pam_header(l) {
            assert(out[prev.len() as int + 2] == irauth_system_line());
            assert forall|k: int| 0 <= k < out.len() implies !(#[trigger] out[k]).contains('\n') by {
                if k < prev.len() {
                    assert(out[k] == prev[k]);
                } else if k > prev.len() {
                    assert(out[k] == stanza()[k - prev.len() - 1]);
                }
            }
        } else {
            if ins {
                let k0 = choose|k: int| 0 <= k < prev.len() && #[trigger] prev[k] == irauth_system_line();
                assert(out[k0] == prev[k0]);
            }
            assert forall|k: int| 0 <= k < out.len() implies !(#[trigger] out[k]).contains('\n') by {
                if k < prev.len() {
                    assert(out[k] == prev[k]);
                }
            }
        }
    }
}

/// Enabling IRAuth for a PAM file that it was just enabled for changes nothing: the file
/// already names the IRAuth module.
pub proof fn lemma_enable_is_idempotent(content: Seq<char>)
    requires
        spec_enable(content) is Some,
    ensures
        spec_enable(spec_enable(content)->0) is None,
{
    let ls = lines(content);
    lemma_lines_have_no_newline(content);
    lemma_enable_lines(ls);
    lemma_fixed_lines();
    let (ins, out) = enable_lines(ls);
    let e = if ins {
        out
    } else {
        stanza() + out
    };
    if !ins {
        lemma_unlines_concat(stanza(), out);
        assert(e[1] == irauth_system_line());
        assert forall|k: int| 0 <= k < e.len() implies !(#[trigger] e[k]).contains('\n') by {
            if k >= 3 {
                assert(e[k] == out[k - 3]);
            }
        }
    }
    let k0 = choose|k: int| 0 <= k < e.len() && #[trigger] e[k] == irauth_system_line();
    lemma_lines_of_unlines(e);
    let back = lines(unlines(e));
    assert(back[k0] == strip_cr(e[k0]));
    assert(contains_seq(back[k0], module_name()));
    assert(mentions_module(back));
}


/// No line is one of IRAuth's stanza markers.
pub open spec fn no_marker_lines(ls: Seq<Seq<char>>) -> bool {
    forall|k: int|
        0 <= k < ls.len() ==> trim(#[trigger] ls[k]) != begin_line() && trim(ls[k]) != end_line()
}

pub open spec fn map_strip_cr(ls: Seq<Seq<char>>) -> Seq<Seq<char>> {
    ls.map_values(|l: Seq<char>| strip_cr(l))
}

proof fn lemma_strip_from_concat(st: (bool, Seq<Seq<char>>), a: Seq<Seq<char>>, b: Seq<Seq<char>>)
    ensures
        strip_from(st, a + b) == strip_from(strip_from(st, a), b),
    decreases b.len(),
{
    if b.len() == 0 {
        assert(a + b =~= a);
    } else {
        assert((a + b).drop_last() =~= a + b.drop_last());
        lemma_strip_from_concat(st, a, b.drop_last());
    }
}

proof fn lemma_strip_over_stanza(out: Seq<Seq<char>>)
    ensures
        strip_from((false, out), stanza()) == (false, out),
        map_strip_cr(stanza()) == stanza(),
{
    let b = begin_line();
    let s = irauth_system_line();
    let e = end_line();
    lemma_trim_noop(b);
    lemma_trim_noop(s);
    lemma_trim_noop(e);
    let st = stanza();
    let s1 = seq![b];
    let s2 = seq![b, s];
    assert(s1.drop_last() =~= Seq::<Seq<char>>::empty());
    assert(s2.drop_last() =~= s1);
    assert(st.drop_last() =~= s2);
    assert(b != e);
    assert(s != b && s != e);
    assert(strip_from((false, out), Seq::<Seq<char>>::empty()) == (false, out));
    assert(s1.last() == b);
    assert(trim(b) == b);
    assert(strip_from((false, out), s1) == (true, out));
    assert(strip_from((false, out), s2) == (true, out));
    assert(map_strip_cr(st) =~= st);
}

proof fn lemma_strip_cr_push(a: Seq<Seq<char>>, l: Seq<char>)
    ensures
        map_strip_cr(a.push(l)) == map_strip_cr(a).push(strip_cr(l)),
{
    assert(map_strip_cr(a.push(l)) =~= map_strip_cr(a).push(strip_cr(l)));
}

proof fn lemma_strip_cr_concat(a: Seq<Seq<char>>, b: Seq<Seq<char>>)
    ensures
        map_strip_cr(a + b) == map_strip_cr(a) + map_strip_cr(b),
{
    assert(map_strip_cr(a + b) =~= map_strip_cr(a) + map_strip_cr(b));
}

proof fn lemma_enable_then_strip(ls: Seq<Seq<char>>)
    requires
        no_marker_lines(ls),
    ensures
        strip_from((false, Seq::empty()), map_strip_cr(enable_lines(ls).1)) == (
            false,
            map_strip_cr(ls),
        ),
    decreases ls.len(),
{
    if ls.len() == 0 {
        assert(map_strip_cr(ls) =~= Seq::<Seq<char>>::empty());
        assert(map_strip_cr(enable_lines(ls).1) =~= Seq::<Seq<char>>::empty());
    } else {
        let init = ls.drop_last();
        assert forall|k: int| 0 <= k < init.len() implies trim(#[trigger] init[k]) != begin_line()
            && trim(init[k]) != end_line() by {
            assert(init[k] == ls[k]);
        }
        lemma_enable_then_strip(init);
        let (ins, prev) = enable_lines(init);
        let l = ls.last();
        lemma_trim_strip_cr(l);
        assert(trim(ls[ls.len() - 1]) != begin_line() && trim(ls[ls.len() - 1]) != end_line());
        let x = strip_cr(l);
        let start = (false, Seq::<Seq<char>>::empty());
        lemma_strip_cr_push(prev, l);
        lemma_strip_cr_push(init, l);
        assert(ls == init.push(l));
        assert(map_strip_cr(prev).push(x).drop_last() =~= map_strip_cr(prev));
        assert(strip_from(start, map_strip_cr(prev.push(l))) == (false, map_strip_cr(ls)));
        if !ins && is_pam_header(l) {
            lemma_strip_cr_concat(prev.push(l), stanza());
            lemma_strip_over_stanza(map_strip_cr(ls));
            lemma_strip_from_concat(start, map_strip_cr(prev.push(l)), map_strip_cr(stanza()));
        }
    }
}

/// Disabling IRAuth for a PAM file that it was just enabled for gives back the file's
/// lines, provided the file had no line of its own that looks like a stanza marker.
pub proof fn lemma_disable_undoes_enable(content: Seq<char>)
    requires
        spec_enable(content) is Some,
        no_marker_lines(lines(content)),
    ensures
        spec_strip_stanza(spec_enable(content)->0) == unlines(map_strip_cr(lines(content))),
{
    let ls = lines(content);
    lemma_lines_have_no_newline(content);
    lemma_enable_lines(ls);
    lemma_fixed_lines();
    lemma_enable_then_strip(ls);
    let (ins, out) = enable_lines(ls);
    let start = (false, Seq::<Seq<char>>::empty());
    if ins {
        lemma_lines_of_unlines(out);
        assert(lines(unlines(out)) == map_strip_cr(out));
    } else {
        let e = stanza() + out;
        lemma_unlines_concat(stanza(), out);
        assert forall|k: int| 0 <= k < e.len() implies !(#[trigger] e[k]).contains('\n') by {
            if k >= 3 {
                assert(e[k] == out[k - 3]);
            }
        }
        lemma_lines_of_unlines(e);
        assert(lines(unlines(e)) == map_strip_cr(e));
        lemma_strip_cr_concat(stanza(), out);
        lemma_strip_over_stanza(Seq::empty());
        lemma_strip_from_concat(start, map_strip_cr(stanza()), map_strip_cr(out));
    }
}

// ---------------------------------------------------------------------------------------
// The PAM module
// ---------------------------------------------------------------------------------------

pub open spec fn reason_prefix() -> Seq<char> {
    seq!['r', 'e', 'a', 's', 'o', 'n', '=']
}

/// The value of a `reason=` argument, when it has 1 to 128 bytes.
pub open spec fn reason_of(arg: Seq<char>) -> Option<Seq<char>> {
    let v = arg.skip(7);
    if starts_with(arg, reason_prefix()) && v.len() > 0 && vstd::utf8::encode_utf8(v).len()
        <= 128 {
        Some(v)
    } else {
        None
    }
}

/// The first usable `reason=` argument.
pub open spec fn first_reason(args: Seq<Seq<char>>) -> Option<Seq<char>>
    decreases args.len(),
{
    if args.len() == 0 {
        None
    } else if reason_of(args[0]) is Some {
        reason_of(args[0])
    } else {
        first_reason(args.drop_first())
    }
}

pub open spec fn strings_view(v: Seq<String>) -> Seq<Seq<char>> {
    v.map_values(|s: String| s@)
}

/// The reason the PAM module passes to the daemon, from its module arguments (those that
/// are valid UTF-8, in order).
pub fn parse_reason(args: &Vec<String>) -> (r: Option<String>)
    ensures
        opt_view(r) == first_reason(strings_view(args@)),
{
    let ghost a = strings_view(args@);
    let mut k: usize = 0;
    assert(a.skip(0) =~= a);
    while k < args.len()
        invariant
            k <= args@.len() == a.len(),
            a == strings_view(args@),
            first_reason(a) == first_reason(a.skip(k as int)),
        decreases args@.len() - k,
    {
        assert(a.skip(k as int)[0] == args@[k as int]@);
        assert(a.skip(k as int).drop_first() =~= a.skip(k + 1));
        let v = chars_of(args[k].as_str());
        let n = v.len();
        let pre: [char; 7] = ['r', 'e', 'a', 's', 'o', 'n', '='];
        assert(pre@ =~= reason_prefix());
        assert(v@.subrange(0, n as int) =~= v@);
        if range_starts_with(&v, 0, n, &pre) && n > 7 {
            let value = string_from_range(&v, 7, n);
            assert(value@ =~= v@.skip(7));
            if value.as_str().as_bytes().len() <= 128 {
                return Some(value);
            }
        }
        k = k + 1;
    }
    None
}

/// The daemon approved: its answer line starts with `OK<TAB>`.
pub open spec fn spec_is_approval(line: Seq<char>) -> bool {
    starts_with(line, seq!['O', 'K', '\t'])
}

pub fn is_approval(line: &str) -> (r: bool)
    ensures
        r == spec_is_approval(line@),
{
    let v = chars_of(line);
    let n = v.len();
    assert(v@.subrange(0, n as int) =~= v@);
    range_starts_with(&v, 0, n, &['O', 'K', '\t'])
}

/// Only an approval from the daemon authenticates; anything else, including no answer,
/// is an authentication error.
pub fn pam_result(daemon_answer: Option<&str>) -> (r: i32)
    ensures
        r == (match daemon_answer {
            Some(line) => if spec_is_approval(line@) {
                PAM_SUCCESS
            } else {
                PAM_AUTH_ERR
            },
            None => PAM_AUTH_ERR,
        }),
{
    match daemon_answer {
        Some(line) => if is_approval(line) {
            PAM_SUCCESS
        } else {
            PAM_AUTH_ERR
        },
        None => PAM_AUTH_ERR,
    }
}

} // verus!
