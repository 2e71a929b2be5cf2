//! The Howdy backend: its configuration file (`config.ini`), the camera binding, the
//! dlib model check and the small decisions around running `pamtester`.
use vstd::prelude::*;
use vstd::utf8::{encode_utf8, is_char_boundary};
use crate::protocol::HOWDY_PAM_SERVICE;
use crate::text::{
    Span, chars_of, is_ws, lemma_first_of_is, lemma_first_of_none, lemma_lines_have_no_newline,
    lemma_lines_of_joined, lemma_trim_noop, lemma_trim_strip_cr, lemma_trimmed_ends, strip_cr,
    trim_end, trim_start, eq_ignore_case, find_first_of, first_of, is_first_of, join_lines,
    lemma_first_of_range, lemma_lines_avoid, lemma_trim_end_keeps_prefix, line_spans, lines, push_char, push_chars, push_range,
    range_eq_ignore_case, span_text, string_from_range, trim, trim_bounds, is_ascii_alnum,
    is_alnum,
};

verus! {

// ---------------------------------------------------------------------------------------
// Lines of config.ini
// ---------------------------------------------------------------------------------------

pub open spec fn video_word() -> Seq<char> {
    seq!['v', 'i', 'd', 'e', 'o']
}

pub open spec fn device_path_word() -> Seq<char> {
    seq!['d', 'e', 'v', 'i', 'c', 'e', '_', 'p', 'a', 't', 'h']
}

/// A trimmed line of the form `[...]`.
pub open spec fn is_header(t: Seq<char>) -> bool {
    t.len() > 0 && t[0] == '[' && t.last() == ']'
}

/// A section header naming `video` (ignoring ASCII case and surrounding blanks).
pub open spec fn header_is_video(t: Seq<char>) -> bool {
    eq_ignore_case(trim(t.subrange(1, t.len() - 1)), video_word())
}

/// Position of the first `=` in `t`, or -1.
pub open spec fn equals_at(t: Seq<char>) -> int {
    first_of(t, seq!['='])
}

/// A trimmed line `key = value` whose key is `device_path` (ignoring ASCII case).
pub open spec fn is_device_path_key(t: Seq<char>) -> bool {
    equals_at(t) >= 0 && eq_ignore_case(trim(t.take(equals_at(t))), device_path_word())
}

/// `v` up to its first `#` or `;`.
pub open spec fn before_comment(v: Seq<char>) -> Seq<char> {
    let k = first_of(v, seq!['#', ';']);
    if k >= 0 {
        v.take(k)
    } else {
        v
    }
}

/// The value of a `key = value` line, without an inline comment and surrounding blanks.
pub open spec fn device_value(t: Seq<char>) -> Seq<char> {
    trim(before_comment(t.skip(equals_at(t) + 1)))
}

/// The reading state: inside a `[video]` section, and the device path found so far.
pub open spec fn parse_step(st: (bool, Option<Seq<char>>), raw: Seq<char>) -> (
    bool,
    Option<Seq<char>>,
) {
    let t = trim(raw);
    if st.1 is Some {
        st
    } else if t.len() == 0 || t[0] == '#' || t[0] == ';' {
        st
    } else if is_header(t) {
        (header_is_video(t), None)
    } else if !st.0 {
        st
    } else if is_device_path_key(t) && device_value(t).len() > 0 {
        (st.0, Some(device_value(t)))
    } else {
        st
    }
}

pub open spec fn parse_lines(ls: Seq<Seq<char>>) -> (bool, Option<Seq<char>>)
    decreases ls.len(),
{
    if ls.len() == 0 {
        (false, None)
    } else {
        parse_step(parse_lines(ls.drop_last()), ls.last())
    }
}

/// The first non-empty `device_path` value in a `[video]` section of the file.
pub open spec fn spec_parse_video_device_path(content: Seq<char>) -> Option<Seq<char>> {
    parse_lines(lines(content)).1
}

proof fn lemma_parse_found_stays(ls: Seq<Seq<char>>, k: int)
    requires
        0 <= k <= ls.len(),
        parse_lines(ls.take(k)).1 is Some,
    ensures
        parse_lines(ls) == parse_lines(ls.take(k)),
    decreases ls.len() - k,
{
    if k < ls.len() {
        assert(ls.take(k + 1).drop_last() =~= ls.take(k));
        lemma_parse_found_stays(ls, k + 1);
    } else {
        assert(ls.take(k) =~= ls);
    }
}

/// Facts about the trimmed line `v[a..b]` that the readers below rely on.
proof fn lemma_line_parts(v: Seq<char>, a: int, b: int)
    requires
        0 <= a < b <= v.len(),
    ensures
        v.subrange(a, b)[0] == v[a],
        v.subrange(a, b).last() == v[b - 1],
{
}

/// The bounds of the trimmed section name inside a header line `v[a..b]`.
fn header_names_video(v: &Vec<char>, a: usize, b: usize) -> (r: bool)
    requires
        a < b <= v@.len(),
        v@[a as int] == '[',
        v@[b - 1] == ']',
    ensures
        r == header_is_video(v@.subrange(a as int, b as int)),
{
    let (ha, hb) = trim_bounds(v, a + 1, b - 1);
    assert(v@.subrange(a as int, b as int).subrange(1, (b - a) - 1) =~= v@.subrange(
        a + 1,
        b - 1,
    ));
    range_eq_ignore_case(v, ha, hb, &['v', 'i', 'd', 'e', 'o'])
}

/// When `v[a..b]` is a `device_path` line, the position of its `=`.
fn device_key_at(v: &Vec<char>, a: usize, b: usize) -> (r: Option<usize>)
    requires
        a <= b <= v@.len(),
    ensures
        r is Some <==> is_device_path_key(v@.subrange(a as int, b as int)),
        r matches Some(e) ==> a <= e < b && equals_at(v@.subrange(a as int, b as int)) == e
            - a,
{
    let ghost t = v@.subrange(a as int, b as int);
    let eq: [char; 1] = ['='];
    assert(eq@ =~= seq!['=']);
    match find_first_of(v, a, b, &eq) {
        None => None,
        Some(e) => {
            let (ka, kb) = trim_bounds(v, a, e);
            assert(t.take(e - a) =~= v@.subrange(a as int, e as int));
            if range_eq_ignore_case(
                v,
                ka,
                kb,
                &['d', 'e', 'v', 'i', 'c', 'e', '_', 'p', 'a', 't', 'h'],
            ) {
                Some(e)
            } else {
                None
            }
        },
    }
}

/// The bounds of `device_value(v[a..b])`, given the position `e` of its `=`.
fn device_value_bounds(v: &Vec<char>, a: usize, b: usize, e: usize) -> (r: Span)
    requires
        a <= e < b <= v@.len(),
        equals_at(v@.subrange(a as int, b as int)) == e - a,
    ensures
        r.0 <= r.1 <= v@.len(),
        span_text(v@, r) == device_value(v@.subrange(a as int, b as int)),
{
    let ghost t = v@.subrange(a as int, b as int);
    assert(t.skip(e - a + 1) =~= v@.subrange(e + 1, b as int));
    let marks: [char; 2] = ['#', ';'];
    assert(marks@ =~= seq!['#', ';']);
    let end = match find_first_of(v, e + 1, b, &marks) {
        Some(c) => {
            assert(v@.subrange(e + 1, b as int).take(c - (e + 1)) =~= v@.subrange(
                e + 1,
                c as int,
            ));
            c
        },
        None => b,
    };
    trim_bounds(v, e + 1, end)
}

/// The `[video]` `device_path` that Howdy is configured with.
pub fn parse_video_device_path(content: &str) -> (r: Option<String>)
    ensures
        match r {
            Some(s) => spec_parse_video_device_path(content@) == Some(s@),
            None => spec_parse_video_device_path(content@) is None,
        },
{
    let v = chars_of(content);
    let spans = line_spans(&v);
    let ghost ls = lines(v@);
    let mut in_video = false;
    let mut k: usize = 0;
    assert(ls.take(0) =~= Seq::<Seq<char>>::empty());
    while k < spans.len()
        invariant
            k <= spans@.len() == ls.len(),
            ls == lines(v@),
            v@ == content@,
            forall|j: int| 0 <= j < spans@.len() ==> (#[trigger] spans@[j]).0 <= spans@[j].1 <= v@.len(),
            forall|j: int| 0 <= j < spans@.len() ==> #[trigger] span_text(v@, spans@[j]) == ls[j],
            parse_lines(ls.take(k as int)) == (in_video, None::<Seq<char>>),
        decreases spans@.len() - k,
    {
        let (lo, hi) = spans[k];
        assert(span_text(v@, spans@[k as int]) == ls[k as int]);
        let (a, b) = trim_bounds(&v, lo, hi);
        let ghost t = v@.subrange(a as int, b as int);
        assert(t == trim(ls[k as int]));
        assert(ls.take(k + 1).drop_last() =~= ls.take(k as int));
        assert(ls.take(k + 1).last() == ls[k as int]);
        k = k + 1;
        if a == b {
            continue;
        }
        proof {
            lemma_line_parts(v@, a as int, b as int);
        }
        if v[a] == '#' || v[a] == ';' {
            continue;
        }
        if v[a] == '[' && v[b - 1] == ']' {
            in_video = header_names_video(&v, a, b);
            continue;
        }
        if !in_video {
            continue;
        }
        if let Some(e) = device_key_at(&v, a, b) {
            let (va, vb) = device_value_bounds(&v, a, b, e);
            if va < vb {
                let value = string_from_range(&v, va, vb);
                proof {
                    let t = v@.subrange(a as int, b as int);
                    assert(!is_header(t));
                    assert(is_device_path_key(t));
                    assert(device_value(t) == value@);
                    assert(parse_step((in_video, None), ls[k - 1]) == (in_video, Some(value@)));
                    assert(parse_lines(ls.take(k as int)) == (in_video, Some(value@)));
                    lemma_parse_found_stays(ls, k as int);
                    assert(lines(content@) == ls);
                    assert(spec_parse_video_device_path(content@) == Some(value@));
                }
                return Some(value);
            }
        }
    }
    assert(ls.take(k as int) =~= ls);
    None
}

// ---------------------------------------------------------------------------------------
// Rewriting config.ini
// ---------------------------------------------------------------------------------------

#[derive(Debug, Clone, Copy, PartialEq, Eq, Structural)]
pub enum ConfigError {
    /// The file has no `[video]` section to bind.
    NoVideoSection,
}

/// `device_path = <device>`.
pub open spec fn device_line(device: Seq<char>) -> Seq<char> {
    device_path_word() + seq![' ', '=', ' '] + device
}

/// The rewriting state over the lines read so far.
pub struct RewriteState {
    pub in_video: bool,
    pub saw_video: bool,
    pub replaced: bool,
    pub out: Seq<Seq<char>>,
}

pub open spec fn rewrite_step(st: RewriteState, raw: Seq<char>, dev: Seq<char>) -> RewriteState {
    let t = trim(raw);
    if is_header(t) {
        let out1 = if st.in_video && !st.replaced {
            st.out.push(dev)
        } else {
            st.out
        };
        let iv = header_is_video(t);
        RewriteState {
            in_video: iv,
            saw_video: st.saw_video || iv,
            replaced: st.replaced || st.in_video,
            out: out1.push(raw),
        }
    } else if st.in_video && is_device_path_key(t) {
        RewriteState {
            in_video: st.in_video,
            saw_video: st.saw_video,
            replaced: true,
            out: st.out.push(dev),
        }
    } else {
        RewriteState {
            in_video: st.in_video,
            saw_video: st.saw_video,
            replaced: st.replaced,
            out: st.out.push(raw),
        }
    }
}

pub open spec fn rewrite_lines(ls: Seq<Seq<char>>, dev: Seq<char>) -> RewriteState
    decreases ls.len(),
{
    if ls.len() == 0 {
        RewriteState { in_video: false, saw_video: false, replaced: false, out: Seq::empty() }
    } else {
        rewrite_step(rewrite_lines(ls.drop_last(), dev), ls.last(), dev)
    }
}

/// The lines of the rewritten file.
pub open spec fn rewritten_lines(content: Seq<char>, device: Seq<char>) -> Seq<Seq<char>> {
    let st = rewrite_lines(lines(content), device_line(device));
    if st.replaced {
        st.out
    } else {
        st.out.push(device_line(device))
    }
}

/// Every `device_path` line of a `[video]` section becomes `device_path = <device>`; a
/// first `[video]` section without one gets the line at its end. The result ends in a
/// newline. A file with no `[video]` section is refused.
pub open spec fn spec_replace_video_device_path(content: Seq<char>, device: Seq<char>) -> Result<
    Seq<char>,
    ConfigError,
> {
    if !rewrite_lines(lines(content), device_line(device)).saw_video {
        Err(ConfigError::NoVideoSection)
    } else {
        Ok(join_lines(rewritten_lines(content, device)).push('\n'))
    }
}

/// Appends one more line to a text being joined with `\n`.
fn push_joined_line(out: &mut String, empty: bool, line: &Vec<char>, lo: usize, hi: usize, Ghost(
    ls,
): Ghost<Seq<Seq<char>>>)
    requires
        lo <= hi <= line@.len(),
        old(out)@ == join_lines(ls),
        empty == (ls.len() == 0),
    ensures
        final(out)@ == join_lines(ls.push(line@.subrange(lo as int, hi as int))),
{
    let ghost l = line@.subrange(lo as int, hi as int);
    if !empty {
        push_char(out, '\n');
    }
    push_range(out, line, lo, hi);
    assert(ls.push(l).drop_last() =~= ls);
    if empty {
        assert(out@ =~= l);
    } else {
        assert(out@ =~= join_lines(ls) + seq!['\n'] + l);
    }
}

/// Binds Howdy's `[video] device_path` to `device` in the text of `config.ini`.
pub fn replace_video_device_path(content: &str, device: &str) -> (r: Result<String, ConfigError>)
    ensures
        match r {
            Ok(s) => spec_replace_video_device_path(content@, device@) == Ok::<
                Seq<char>,
                ConfigError,
            >(s@),
            Err(e) => spec_replace_video_device_path(content@, device@) == Err::<
                Seq<char>,
                ConfigError,
            >(e),
        },
{
    let v = chars_of(content);
    let spans = line_spans(&v);
    let ghost ls = lines(v@);
    let mut dev_line: Vec<char> = Vec::new();
    dev_line.push('d');
    dev_line.push('e');
    dev_line.push('v');
    dev_line.push('i');
    dev_line.push('c');
    dev_line.push('e');
    dev_line.push('_');
    dev_line.push('p');
    dev_line.push('a');
    dev_line.push('t');
    dev_line.push('h');
    dev_line.push(' ');
    dev_line.push('=');
    dev_line.push(' ');
    let dv = chars_of(device);
    let mut i: usize = 0;
    while i < dv.len()
        invariant
            i <= dv@.len(),
            dev_line@ == device_path_word() + seq![' ', '=', ' '] + dv@.take(i as int),
        decreases dv@.len() - i,
    {
        dev_line.push(dv[i]);
        i = i + 1;
        assert(dv@.take(i as int) =~= dv@.take(i - 1).push(dv@[i - 1]));
    }
    assert(dv@.take(dv@.len() as int) =~= dv@);
    assert(dev_line@ =~= device_line(device@));
    let ghost dev = device_line(device@);
    let dn = dev_line.len();
    let mut out = String::new();
    let mut empty = true;
    let mut in_video = false;
    let mut saw_video = false;
    let mut replaced = false;
    let mut k: usize = 0;
    assert(ls.take(0) =~= Seq::<Seq<char>>::empty());
    assert(out@ =~= join_lines(Seq::empty()));
    while k < spans.len()
        invariant
            k <= spans@.len() == ls.len(),
            ls == lines(v@),
            dev_line@ == dev,
            dn == dev_line@.len(),
            forall|j: int| 0 <= j < spans@.len() ==> (#[trigger] spans@[j]).0 <= spans@[j].1 <= v@.len(),
            forall|j: int| 0 <= j < spans@.len() ==> #[trigger] span_text(v@, spans@[j]) == ls[j],
            rewrite_lines(ls.take(k as int), dev) == (RewriteState {
                in_video,
                saw_video,
                replaced,
                out: rewrite_lines(ls.take(k as int), dev).out,
            }),
            out@ == join_lines(rewrite_lines(ls.take(k as int), dev).out),
            empty == (rewrite_lines(ls.take(k as int), dev).out.len() == 0),
        decreases spans@.len() - k,
    {
        let (lo, hi) = spans[k];
        assert(span_text(v@, spans@[k as int]) == ls[k as int]);
        let (a, b) = trim_bounds(&v, lo, hi);
        let ghost t = v@.subrange(a as int, b as int);
        let ghost raw = ls[k as int];
        let ghost st = rewrite_lines(ls.take(k as int), dev);
        assert(t == trim(raw));
        assert(ls.take(k + 1).drop_last() =~= ls.take(k as int));
        assert(ls.take(k + 1).last() == raw);
        if a < b {
            proof {
                lemma_line_parts(v@, a as int, b as int);
            }
        }
        if a < b && v[a] == '[' && v[b - 1] == ']' {
            if in_video && !replaced {
                push_joined_line(&mut out, empty, &dev_line, 0, dn, Ghost(st.out));
                assert(dev_line@.subrange(0, dn as int) =~= dev);
                empty = false;
                replaced = true;
            }
            let ghost out1 = if st.in_video && !st.replaced {
                st.out.push(dev)
            } else {
                st.out
            };
            in_video = header_names_video(&v, a, b);
            saw_video = saw_video || in_video;
            push_joined_line(&mut out, empty, &v, lo, hi, Ghost(out1));
            empty = false;
        } else if in_video && device_key_at(&v, a, b).is_some() {
            push_joined_line(&mut out, empty, &dev_line, 0, dn, Ghost(st.out));
            assert(dev_line@.subrange(0, dn as int) =~= dev);
            empty = false;
            replaced = true;
        } else {
            push_joined_line(&mut out, empty, &v, lo, hi, Ghost(st.out));
            empty = false;
        }
        k = k + 1;
    }
    assert(ls.take(k as int) =~= ls);
    if !saw_video {
        return Err(ConfigError::NoVideoSection);
    }
    if !replaced {
        push_joined_line(&mut out, empty, &dev_line, 0, dn, Ghost(rewrite_lines(ls, dev).out));
        assert(dev_line@.subrange(0, dn as int) =~= dev);
    }
    push_char(&mut out, '\n');
    Ok(out)
}


// ---------------------------------------------------------------------------------------
// Binding reads back
// ---------------------------------------------------------------------------------------

/// A device path that a `device_path = ...` line carries unchanged: non-empty, no
/// surrounding blanks, no comment mark and no newline.
pub open spec fn is_clean_device(d: Seq<char>) -> bool {
    &&& d.len() > 0
    &&& trim(d) == d
    &&& !d.contains('#')
    &&& !d.contains(';')
    &&& !d.contains('\n')
}

proof fn lemma_device_line_reads(d: Seq<char>)
    requires
        is_clean_device(d),
    ensures
        trim(device_line(d)) == device_line(d),
        device_line(d)[0] == 'd',
        !is_header(device_line(d)),
        is_device_path_key(device_line(d)),
        device_value(device_line(d)) == d,
        !device_line(d).contains('\n'),
{
    let w = device_path_word();
    let dl = device_line(d);
    lemma_trimmed_ends(d);
    assert(dl.len() == 14 + d.len());
    assert(dl.last() == d.last());
    lemma_trim_noop(dl);
    // the first `=` is the one after the key
    let eqs = seq!['='];
    assert(forall|x: char| eqs.contains(x) <==> x == '=') by {
        assert forall|x: char| eqs.contains(x) implies x == '=' by {
            let j = choose|j: int| 0 <= j < eqs.len() && eqs[j] == x;
        }
        assert forall|x: char| x == '=' implies eqs.contains(x) by {
            assert(eqs[0] == x);
        }
    }
    assert(forall|j: int| 0 <= j < 12 ==> dl[j] != '=');
    assert(dl[12] == '=');
    lemma_first_of_is(dl, eqs, 12);
    // the key trims to `device_path`
    let key = dl.take(12);
    assert(key.drop_last() =~= w);
    assert(trim_start(key) == key);
    assert(trim_end(w) == w);
    assert(trim_end(key) == trim_end(w));
    assert(trim(key) == w);
    // the value is the device
    let rest = dl.skip(13);
    assert(rest =~= seq![' '] + d);
    let marks = seq!['#', ';'];
    assert forall|j: int| 0 <= j < rest.len() implies !marks.contains(#[trigger] rest[j]) by {
        if marks.contains(rest[j]) {
            let i = choose|i: int| 0 <= i < marks.len() && marks[i] == rest[j];
            assert(j > 0);
            assert(rest[j] == d[j - 1]);
        }
    }
    lemma_first_of_none(rest, marks);
    assert(before_comment(rest) == rest);
    assert(rest.drop_first() =~= d);
    assert(trim_start(d) == d);
    assert(trim_start(rest) == d);
    assert(trim_end(d) == d);
    assert(device_value(dl) == d);
    assert(!dl.contains('\n')) by {
        if dl.contains('\n') {
            let j = choose|j: int| 0 <= j < dl.len() && dl[j] == '\n';
            assert(j >= 14);
            assert(dl[j] == d[j - 14]);
        }
    }
}

/// What the reader sees of the lines written so far, in step with the writer's state.
proof fn lemma_rewrite_reads(ls: Seq<Seq<char>>, d: Seq<char>)
    requires
        is_clean_device(d),
        forall|k: int| 0 <= k < ls.len() ==> !(#[trigger] ls[k]).contains('\n'),
    ensures
        ({
            let st = rewrite_lines(ls, device_line(d));
            &&& st.in_video ==> st.saw_video
            &&& st.saw_video && !st.replaced ==> st.in_video
            &&& st.replaced ==> st.out.len() > 0 && parse_lines(st.out).1 == Some(d)
            &&& !st.replaced ==> parse_lines(st.out) == (st.in_video, None::<Seq<char>>)
            &&& forall|k: int| 0 <= k < st.out.len() ==> !(#[trigger] st.out[k]).contains('\n')
        }),
    decreases ls.len(),
{
    let dev = device_line(d);
    lemma_device_line_reads(d);
    if ls.len() > 0 {
        let init = ls.drop_last();
        assert forall|k: int| 0 <= k < init.len() implies !(#[trigger] init[k]).contains('\n') by {
            assert(init[k] == ls[k]);
        }
        lemma_rewrite_reads(init, d);
        let st = rewrite_lines(init, dev);
        let raw = ls.last();
        let t = trim(raw);
        assert(!raw.contains('\n'));
        let nst = rewrite_lines(ls, dev);
        assert(nst == rewrite_step(st, raw, dev));
        if is_header(t) {
            let out1 = if st.in_video && !st.replaced {
                st.out.push(dev)
            } else {
                st.out
            };
            assert(out1.push(raw).drop_last() =~= out1);
            if st.in_video && !st.replaced {
                assert(st.out.push(dev).drop_last() =~= st.out);
                assert(parse_lines(out1).1 == Some(d));
            }
            assert forall|k: int| 0 <= k < nst.out.len() implies !(#[trigger] nst.out[k]).contains(
                '\n',
            ) by {
                if k < st.out.len() {
                    assert(nst.out[k] == st.out[k]);
                }
            }
        } else if st.in_video && is_device_path_key(t) {
            assert(st.out.push(dev).drop_last() =~= st.out);
            assert forall|k: int| 0 <= k < nst.out.len() implies !(#[trigger] nst.out[k]).contains(
                '\n',
            ) by {
                if k < st.out.len() {
                    assert(nst.out[k] == st.out[k]);
                }
            }
        } else {
            assert(st.out.push(raw).drop_last() =~= st.out);
            assert forall|k: int| 0 <= k < nst.out.len() implies !(#[trigger] nst.out[k]).contains(
                '\n',
            ) by {
                if k < st.out.len() {
                    assert(nst.out[k] == st.out[k]);
                }
            }
        }
    }
}

/// Line sequences that agree line by line after trimming read the same.
proof fn lemma_parse_same_trim(a: Seq<Seq<char>>, b: Seq<Seq<char>>)
    requires
        a.len() == b.len(),
        forall|k: int| 0 <= k < a.len() ==> trim(#[trigger] a[k]) == trim(b[k]),
    ensures
        parse_lines(a) == parse_lines(b),
    decreases a.len(),
{
    if a.len() > 0 {
        assert forall|k: int| 0 <= k < a.drop_last().len() implies trim(
            #[trigger] a.drop_last()[k],
        ) == trim(b.drop_last()[k]) by {
            assert(trim(a[k]) == trim(b[k]));
        }
        lemma_parse_same_trim(a.drop_last(), b.drop_last());
        assert(trim(a[a.len() - 1]) == trim(b[b.len() - 1]));
    }
}

/// Binding a clean device path and reading the binding back gives that device path.
pub proof fn lemma_bound_device_reads_back(content: Seq<char>, d: Seq<char>)
    requires
        is_clean_device(d),
        spec_replace_video_device_path(content, d) is Ok,
    ensures
        spec_parse_video_device_path(spec_replace_video_device_path(content, d)->Ok_0) == Some(
            d,
        ),
{
    let ls = lines(content);
    let dev = device_line(d);
    lemma_lines_have_no_newline(content);
    lemma_rewrite_reads(ls, d);
    lemma_device_line_reads(d);
    let st = rewrite_lines(ls, dev);
    let r = rewritten_lines(content, d);
    if !st.replaced {
        assert(r.drop_last() =~= st.out);
        assert(parse_step((true, None), dev) == (true, Some(d)));
    }
    assert(parse_lines(r).1 == Some(d));
    assert forall|k: int| 0 <= k < r.len() implies !(#[trigger] r[k]).contains('\n') by {
        if k < st.out.len() {
            assert(r[k] == st.out[k]);
        }
    }
    lemma_lines_of_joined(r);
    let written = join_lines(r).push('\n');
    let back = lines(written);
    assert forall|k: int| 0 <= k < back.len() implies trim(#[trigger] back[k]) == trim(r[k]) by {
        lemma_trim_strip_cr(r[k]);
    }
    lemma_parse_same_trim(back, r);
}


/// Whatever the device, its trimmed `device_path = ...` line is a `device_path` key line
/// and no section header.
proof fn lemma_device_line_is_key(d: Seq<char>)
    ensures
        is_device_path_key(trim(device_line(d))),
        !is_header(trim(device_line(d))),
{
    let dl = device_line(d);
    let w = device_path_word();
    assert(dl[0] == 'd');
    assert(trim_start(dl) == dl);
    assert(dl[12] == '=');
    lemma_trim_end_keeps_prefix(dl, 13);
    let t = trim(dl);
    assert(t.take(13) == dl.take(13));
    assert(t[0] == 'd') by {
        assert(t.take(13)[0] == dl.take(13)[0]);
    }
    let eqs = seq!['='];
    assert forall|j: int| 0 <= j < 12 implies !eqs.contains(#[trigger] t[j]) by {
        assert(t[j] == t.take(13)[j]);
        assert(t[j] == dl[j]);
        if eqs.contains(t[j]) {
            let i = choose|i: int| 0 <= i < eqs.len() && eqs[i] == t[j];
        }
    }
    assert(t[12] == '=') by {
        assert(t[12] == t.take(13)[12]);
    }
    assert(eqs.contains(t[12])) by {
        assert(eqs[0] == t[12]);
    }
    lemma_first_of_is(t, eqs, 12);
    let key = t.take(12);
    assert(key.drop_last() =~= w) by {
        assert forall|j: int| 0 <= j < 11 implies key[j] == w[j] by {
            assert(key[j] == t.take(13)[j]);
        }
    }
    assert(key.last() == ' ') by {
        assert(key[11] == t.take(13)[11]);
    }
    assert(trim_start(key) == key);
    assert(trim_end(w) == w);
    assert(trim_end(key) == trim_end(w));
    assert(trim(key) == w);
}

/// A line sequence that the writer leaves alone: what it writes again, and how its state
/// relates its flags.
proof fn lemma_rewrite_again(ls: Seq<Seq<char>>, d: Seq<char>)
    ensures
        ({
            let st = rewrite_lines(ls, device_line(d));
            &&& rewrite_lines(st.out, device_line(d)) == st
            &&& st.saw_video && !st.replaced ==> st.in_video
        }),
    decreases ls.len(),
{
    let dev = device_line(d);
    lemma_device_line_is_key(d);
    if ls.len() == 0 {
        let st = rewrite_lines(ls, dev);
        assert(st.out =~= Seq::<Seq<char>>::empty());
    } else {
        let init = ls.drop_last();
        lemma_rewrite_again(init, d);
        let st = rewrite_lines(init, dev);
        let raw = ls.last();
        let t = trim(raw);
        let nst = rewrite_lines(ls, dev);
        assert(nst == rewrite_step(st, raw, dev));
        if is_header(t) {
            if st.in_video && !st.replaced {
                let mid = st.out.push(dev);
                assert(mid.drop_last() =~= st.out);
                assert(mid.push(raw).drop_last() =~= mid);
                let s1 = rewrite_lines(mid, dev);
                assert(s1 == rewrite_step(st, dev, dev));
                assert(s1.replaced && s1.in_video == st.in_video && s1.out == mid);
            } else {
                assert(st.out.push(raw).drop_last() =~= st.out);
            }
        } else if st.in_video && is_device_path_key(t) {
            assert(st.out.push(dev).drop_last() =~= st.out);
        } else {
            assert(st.out.push(raw).drop_last() =~= st.out);
        }
    }
}

/// Binding the same device again to a file that was just bound to it changes nothing, for
/// files and device paths without carriage returns or newlines.
pub proof fn lemma_rebinding_changes_nothing(content: Seq<char>, d: Seq<char>)
    requires
        !content.contains('\r'),
        !d.contains('\n'),
        !d.contains('\r'),
        spec_replace_video_device_path(content, d) is Ok,
    ensures
        spec_replace_video_device_path(spec_replace_video_device_path(content, d)->Ok_0, d)
            == spec_replace_video_device_path(content, d),
{
    let ls = lines(content);
    let dev = device_line(d);
    lemma_lines_have_no_newline(content);
    lemma_lines_avoid(content, '\r');
    lemma_rewrite_again(ls, d);
    lemma_device_line_is_key(d);
    let st = rewrite_lines(ls, dev);
    let r = rewritten_lines(content, d);
    // The rewritten lines are those of the input and the device line: no line breaks.
    assert(!dev.contains('\n') && !dev.contains('\r')) by {
        if dev.contains('\n') || dev.contains('\r') {
            let j = choose|j: int| 0 <= j < dev.len() && (dev[j] == '\n' || dev[j] == '\r');
            assert(dev[j] == d[j - 14]);
        }
    }
    lemma_rewrite_out_lines(ls, d);
    assert forall|k: int| 0 <= k < r.len() implies !(#[trigger] r[k]).contains('\n') && !r[
        k
    ].contains('\r') by {
        if k < st.out.len() {
            assert(r[k] == st.out[k]);
        }
    }
    assert(r.len() > 0) by {
        if st.replaced {
            lemma_rewrite_replaced_nonempty(ls, d);
        }
    }
    lemma_lines_of_joined(r);
    let written = join_lines(r).push('\n');
    assert(lines(written) =~= r) by {
        assert forall|k: int| 0 <= k < r.len() implies strip_cr(#[trigger] r[k]) == r[k] by {
            if r[k].len() > 0 {
                assert(r[k][r[k].len() - 1] != '\r');
            }
        }
    }
    let st2 = rewrite_lines(r, dev);
    if st.replaced {
        assert(st2 == st);
    } else {
        assert(r.drop_last() =~= st.out);
        assert(st2 == rewrite_step(st, dev, dev));
    }
}

/// Every line the writer emits is an input line or the device line.
proof fn lemma_rewrite_out_lines(ls: Seq<Seq<char>>, d: Seq<char>)
    ensures
        forall|k: int|
            0 <= k < rewrite_lines(ls, device_line(d)).out.len() ==> (exists|j: int|
                0 <= j < ls.len() && #[trigger] rewrite_lines(ls, device_line(d)).out[k] == ls[j])
                || rewrite_lines(ls, device_line(d)).out[k] == device_line(d),
    decreases ls.len(),
{
    if ls.len() > 0 {
        let init = ls.drop_last();
        lemma_rewrite_out_lines(init, d);
        let dev = device_line(d);
        let st = rewrite_lines(init, dev);
        let out = rewrite_lines(ls, dev).out;
        assert forall|k: int| 0 <= k < out.len() implies (exists|j: int|
            0 <= j < ls.len() && #[trigger] out[k] == ls[j]) || out[k] == dev by {
            if k < st.out.len() {
                assert(out[k] == st.out[k]);
                if st.out[k] != dev {
                    let j = choose|j: int| 0 <= j < init.len() && #[trigger] st.out[k] == init[j];
                    assert(ls[j] == init[j]);
                }
            } else if out[k] != dev {
                assert(out[k] == ls[ls.len() - 1]);
            }
        }
    }
}

/// Once a device line was written, the output is not empty.
proof fn lemma_rewrite_replaced_nonempty(ls: Seq<Seq<char>>, d: Seq<char>)
    requires
        rewrite_lines(ls, device_line(d)).replaced,
    ensures
        rewrite_lines(ls, device_line(d)).out.len() > 0,
    decreases ls.len(),
{
    if ls.len() > 0 {
        let init = ls.drop_last();
        if rewrite_lines(init, device_line(d)).replaced {
            lemma_rewrite_replaced_nonempty(init, d);
        }
    }
}

// ---------------------------------------------------------------------------------------
// The backend and its preflight check
// ---------------------------------------------------------------------------------------

/// The Howdy recognition backend, reached through `pamtester` on one PAM service.
#[derive(Debug, Clone)]
pub struct Backend {
    pam_service: String,
}

impl Backend {
    /// The PAM service that authentication runs through.
    pub closed spec fn service(&self) -> Seq<char> {
        self.pam_service@
    }

    pub fn new(service: &str) -> (r: Self)
        ensures
            r.service() == service@,
    {
        Backend { pam_service: String::from_str(service) }
    }

    pub fn pam_service(&self) -> (r: &str)
        ensures
            r@ == self.service(),
    {
        self.pam_service.as_str()
    }

    /// Everything the backend needs, given what was found on the system: whether the
    /// `howdy` and `pamtester` commands exist, which of the dlib data directories exist,
    /// and which of the required models are files in the first existing directory.
    pub fn preflight(
        &self,
        howdy: bool,
        pamtester: bool,
        dlib_dirs_exist: [bool; 4],
        models_present: [bool; 3],
    ) -> (r: Preflight)
        ensures
            r.howdy == howdy,
            r.pamtester == pamtester,
            opt_view(r.dlib_dir) == first_present(dlib_dirs(), dlib_dirs_exist@),
            strings_view(r.missing_models) == (if first_present(
                dlib_dirs(),
                dlib_dirs_exist@,
            ) is Some {
                missing_from(required_models(), models_present@)
            } else {
                required_models()
            }),
    {
        let dlib_dir = find_dlib_dir(dlib_dirs_exist);
        let missing_models = match &dlib_dir {
            Some(_) => missing_models(models_present),
            None => required_model_names(),
        };
        Preflight { howdy, pamtester, dlib_dir, missing_models }
    }
}

impl Default for Backend {
    fn default() -> (r: Self)
        ensures
            r.service() == HOWDY_PAM_SERVICE@,
    {
        Backend::new(HOWDY_PAM_SERVICE)
    }
}

#[derive(Debug, Clone, PartialEq, Eq)]
pub struct Preflight {
    pub howdy: bool,
    pub pamtester: bool,
    pub dlib_dir: Option<String>,
    pub missing_models: Vec<String>,
}

#[derive(Debug, Clone, PartialEq, Eq)]
pub struct AuthResult {
    pub approved: bool,
    pub detail: String,
}

#[derive(Debug, Clone, PartialEq, Eq)]
pub struct CameraConfig {
    pub config_path: String,
    pub device_path: String,
}

pub open spec fn opt_view(o: Option<String>) -> Option<Seq<char>> {
    match o {
        Some(s) => Some(s@),
        None => None,
    }
}

pub open spec fn strings_view(v: Vec<String>) -> Seq<Seq<char>> {
    v@.map_values(|s: String| s@)
}

/// The dlib models Howdy needs.
pub open spec fn required_models() -> Seq<Seq<char>> {
    seq![
        "dlib_face_recognition_resnet_model_v1.dat"@,
        "mmod_human_face_detector.dat"@,
        "shape_predictor_5_face_landmarks.dat"@,
    ]
}

/// Where Howdy's `config.ini` may be, in order of preference.
pub open spec fn howdy_configs() -> Seq<Seq<char>> {
    seq![
        "/usr/local/etc/howdy/config.ini"@,
        "/etc/howdy/config.ini"@,
        "/lib/security/howdy/config.ini"@,
        "/usr/lib/security/howdy/config.ini"@,
        "/usr/lib64/howdy/config.ini"@,
        "/usr/local/lib64/howdy/config.ini"@,
    ]
}

/// Where the dlib data directory may be, in order of preference.
pub open spec fn dlib_dirs() -> Seq<Seq<char>> {
    seq![
        "/usr/local/share/dlib-data"@,
        "/usr/share/dlib-data"@,
        "/lib/security/howdy/dlib-data"@,
        "/usr/lib/security/howdy/dlib-data"@,
    ]
}

/// The first candidate whose flag is set.
pub open spec fn first_present(cands: Seq<Seq<char>>, flags: Seq<bool>) -> Option<Seq<char>>
    decreases cands.len(),
{
    if cands.len() == 0 || flags.len() == 0 {
        None
    } else if flags[0] {
        Some(cands[0])
    } else {
        first_present(cands.drop_first(), flags.drop_first())
    }
}

/// The names whose flag is not set, in order.
pub open spec fn missing_from(names: Seq<Seq<char>>, present: Seq<bool>) -> Seq<Seq<char>>
    decreases names.len(),
{
    if names.len() == 0 {
        Seq::empty()
    } else {
        let rest = missing_from(names.drop_last(), present);
        if present[names.len() - 1] {
            rest
        } else {
            rest.push(names.last())
        }
    }
}

/// The required model file names.
pub fn required_model_names() -> (r: Vec<String>)
    ensures
        strings_view(r) == required_models(),
{
    let mut r: Vec<String> = Vec::new();
    r.push(String::from_str("dlib_face_recognition_resnet_model_v1.dat"));
    r.push(String::from_str("mmod_human_face_detector.dat"));
    r.push(String::from_str("shape_predictor_5_face_landmarks.dat"));
    assert(strings_view(r) =~= required_models());
    r
}

/// The candidate locations of Howdy's `config.ini`.
pub fn howdy_config_candidates() -> (r: Vec<String>)
    ensures
        strings_view(r) == howdy_configs(),
{
    let mut r: Vec<String> = Vec::new();
    r.push(String::from_str("/usr/local/etc/howdy/config.ini"));
    r.push(String::from_str("/etc/howdy/config.ini"));
    r.push(String::from_str("/lib/security/howdy/config.ini"));
    r.push(String::from_str("/usr/lib/security/howdy/config.ini"));
    r.push(String::from_str("/usr/lib64/howdy/config.ini"));
    r.push(String::from_str("/usr/local/lib64/howdy/config.ini"));
    assert(strings_view(r) =~= howdy_configs());
    r
}

/// The candidate locations of the dlib data directory.
pub fn dlib_dir_candidates() -> (r: Vec<String>)
    ensures
        strings_view(r) == dlib_dirs(),
{
    let mut r: Vec<String> = Vec::new();
    r.push(String::from_str("/usr/local/share/dlib-data"));
    r.push(String::from_str("/usr/share/dlib-data"));
    r.push(String::from_str("/lib/security/howdy/dlib-data"));
    r.push(String::from_str("/usr/lib/security/howdy/dlib-data"));
    assert(strings_view(r) =~= dlib_dirs());
    r
}

/// The first candidate whose flag is set.
pub fn select_first(cands: Vec<String>, flags: &[bool]) -> (r: Option<String>)
    ensures
        opt_view(r) == first_present(strings_view(cands), flags@),
{
    let ghost cv = strings_view(cands);
    let mut i: usize = 0;
    assert(cv.skip(0) =~= cv);
    assert(flags@.skip(0) =~= flags@);
    while i < cands.len() && i < flags.len()
        invariant
            i <= cands@.len(),
            i <= flags@.len(),
            cv == strings_view(cands),
            cv.len() == cands@.len(),
            first_present(cv, flags@) == first_present(cv.skip(i as int), flags@.skip(i as int)),
        decreases cands@.len() - i,
    {
        assert(cv.skip(i as int).drop_first() =~= cv.skip(i + 1));
        assert(flags@.skip(i as int).drop_first() =~= flags@.skip(i + 1));
        if flags[i] {
            assert(cv.skip(i as int)[0] == cands@[i as int]@);
            return Some(cands[i].clone());
        }
        i = i + 1;
    }
    assert(cv.skip(i as int).len() == 0 || flags@.skip(i as int).len() == 0);
    None
}

/// The `config.ini` Howdy uses, given which candidate locations are files.
pub fn find_howdy_config(is_file: [bool; 6]) -> (r: Option<String>)
    ensures
        opt_view(r) == first_present(howdy_configs(), is_file@),
{
    select_first(howdy_config_candidates(), &is_file)
}

/// The dlib data directory, given which candidate locations exist.
pub fn find_dlib_dir(exists: [bool; 4]) -> (r: Option<String>)
    ensures
        opt_view(r) == first_present(dlib_dirs(), exists@),
{
    select_first(dlib_dir_candidates(), &exists)
}

/// The required models that are not files in the data directory, given which are.
pub fn missing_models(present: [bool; 3]) -> (r: Vec<String>)
    ensures
        strings_view(r) == missing_from(required_models(), present@),
{
    let names = required_model_names();
    assert(names@.len() == strings_view(names).len());
    let mut r: Vec<String> = Vec::new();
    assert(required_models().take(0) =~= Seq::<Seq<char>>::empty());
    let mut i: usize = 0;
    while i < 3
        invariant
            i <= 3,
            names@.len() == 3,
            strings_view(names) == required_models(),
            strings_view(r) == missing_from(required_models().take(i as int), present@),
        decreases 3 - i,
    {
        let ghost names_i = required_models().take(i + 1);
        assert(names_i.drop_last() =~= required_models().take(i as int));
        assert(names_i.last() == names@[i as int]@);
        if !present[i] {
            let ghost before = strings_view(r);
            r.push(names[i].clone());
            assert(strings_view(r) =~= before.push(names@[i as int]@));
        }
        i = i + 1;
    }
    assert(required_models().take(3) =~= required_models());
    r
}

// ---------------------------------------------------------------------------------------
// The configured camera
// ---------------------------------------------------------------------------------------

pub open spec fn none_word() -> Seq<char> {
    seq!['n', 'o', 'n', 'e']
}

pub open spec fn camera_view(c: CameraConfig) -> (Seq<char>, Seq<char>) {
    (c.config_path@, c.device_path@)
}

/// The camera that the `config.ini` at `config_path`, holding `content`, binds: none when
/// no device path is set or it is `none` (any case).
pub fn camera_from_config(config_path: &str, content: &str) -> (r: Option<CameraConfig>)
    ensures
        match spec_parse_video_device_path(content@) {
            Some(d) => if eq_ignore_case(d, none_word()) {
                r is None
            } else {
                r matches Some(c) && camera_view(c) == (config_path@, d)
            },
            None => r is None,
        },
{
    let device = match parse_video_device_path(content) {
        Some(d) => d,
        None => return None,
    };
    let dv = chars_of(device.as_str());
    let n = dv.len();
    if range_eq_ignore_case(&dv, 0, n, &['n', 'o', 'n', 'e']) {
        assert(dv@.subrange(0, n as int) =~= dv@);
        return None;
    }
    assert(dv@.subrange(0, n as int) =~= dv@);
    Some(CameraConfig { config_path: String::from_str(config_path), device_path: device })
}

/// On Unix an absolute path starts with `/` (`Path::is_absolute`).
pub open spec fn spec_is_absolute(p: Seq<char>) -> bool {
    p.len() > 0 && p[0] == '/'
}

pub fn is_absolute_path(p: &str) -> (r: bool)
    ensures
        r == spec_is_absolute(p@),
{
    let v = chars_of(p);
    v.len() > 0 && v[0] == '/'
}

// ---------------------------------------------------------------------------------------
// Authentication details
// ---------------------------------------------------------------------------------------

pub open spec fn is_user_char(c: char) -> bool {
    is_ascii_alnum(c) || c == '_' || c == '-' || c == '.'
}

/// A user name for Howdy: non-empty, at most 64 bytes, only ASCII letters, digits, `_`,
/// `-` and `.`.
pub open spec fn spec_valid_username(u: Seq<char>) -> bool {
    &&& u.len() > 0
    &&& encode_utf8(u).len() <= 64
    &&& forall|i: int| 0 <= i < u.len() ==> is_user_char(#[trigger] u[i])
}

pub fn valid_username(user: &str) -> (r: bool)
    ensures
        r == spec_valid_username(user@),
{
    if user.is_empty() || user.as_bytes().len() > 64 {
        return false;
    }
    let v = chars_of(user);
    let mut i: usize = 0;
    while i < v.len()
        invariant
            i <= v@.len(),
            v@ == user@,
            user@.len() > 0,
            encode_utf8(user@).len() <= 64,
            forall|j: int| 0 <= j < i ==> is_user_char(#[trigger] v@[j]),
        decreases v@.len() - i,
    {
        let c = v[i];
        if !(is_alnum(c) || c == '_' || c == '-' || c == '.') {
            assert(!is_user_char(v@[i as int]));
            return false;
        }
        i = i + 1;
    }
    true
}

/// How long one face check may take, in seconds.
pub fn authentication_timeout_hint() -> (r: u64)
    ensures
        r == 30,
{
    30
}

pub open spec fn separator() -> Seq<char> {
    seq![' ', '|', ' ']
}

/// The trimmed standard output, then ` | ` and the trimmed standard error when both are
/// non-empty.
pub open spec fn combined_text(out: Seq<char>, err: Seq<char>) -> Seq<char> {
    let s = trim(out);
    let e = trim(err);
    if e.len() == 0 {
        s
    } else if s.len() == 0 {
        e
    } else {
        s + separator() + e
    }
}

/// Cutting the combined text to 512 bytes lands on a character boundary (or no cut is
/// needed).
pub open spec fn output_cut_ok(out: Seq<char>, err: Seq<char>) -> bool {
    let b = encode_utf8(combined_text(out, err));
    b.len() <= 512 || is_char_boundary(b, 512)
}

/// Shortens a string to `n` bytes: a call of std's `String::truncate`. Trusted: its
/// contract claims, as std documents `truncate`, that the UTF-8 bytes afterwards are the
/// first `n` bytes of the old ones; the `requires` leaves out a cut off a character
/// boundary, where std panics.
#[verifier::external_body]
fn truncate_string(s: &mut String, n: usize)
    requires
        n <= encode_utf8(old(s)@).len(),
        is_char_boundary(encode_utf8(old(s)@), n as int),
    ensures
        encode_utf8(final(s)@) == encode_utf8(old(s)@).take(n as int),
{
    s.truncate(n);
}

fn trimmed_string(s: &str) -> (r: String)
    ensures
        r@ == trim(s@),
{
    let v = chars_of(s);
    let (a, b) = trim_bounds(&v, 0, v.len());
    assert(v@.subrange(0, v@.len() as int) =~= v@);
    string_from_range(&v, a, b)
}

fn combine(stdout: &str, stderr: &str) -> (r: String)
    ensures
        r@ == combined_text(stdout@, stderr@),
{
    let mut s = trimmed_string(stdout);
    let e = trimmed_string(stderr);
    if !e.as_str().is_empty() {
        if !s.as_str().is_empty() {
            push_chars(&mut s, &[' ', '|', ' ']);
        }
        s.append(e.as_str());
    }
    assert(s@ =~= combined_text(stdout@, stderr@));
    s
}

/// Whether `combined_output` may be called on these texts.
pub fn output_cut_fits(stdout: &str, stderr: &str) -> (r: bool)
    ensures
        r == output_cut_ok(stdout@, stderr@),
{
    let s = combine(stdout, stderr);
    s.as_str().as_bytes().len() <= 512 || s.as_str().is_char_boundary(512)
}

/// The diagnostic text of a `pamtester` run: both outputs trimmed and joined, cut to 512
/// bytes.
pub fn combined_output(stdout: &str, stderr: &str) -> (r: String)
    requires
        output_cut_ok(stdout@, stderr@),
    ensures
        encode_utf8(combined_text(stdout@, stderr@)).len() <= 512 ==> r@ == combined_text(
            stdout@,
            stderr@,
        ),
        encode_utf8(combined_text(stdout@, stderr@)).len() > 512 ==> encode_utf8(r@)
            == encode_utf8(combined_text(stdout@, stderr@)).take(512),
{
    let mut s = combine(stdout, stderr);
    if s.as_str().as_bytes().len() > 512 {
        truncate_string(&mut s, 512);
    }
    s
}

/// The detail of a check that ran out of time.
pub open spec fn spec_timeout_detail(d: Seq<char>) -> Seq<char> {
    (if d.len() == 0 {
        d
    } else {
        d + separator()
    }) + "IRAuth backend timeout after 30s"@
}

pub fn timeout_detail(detail: String) -> (r: String)
    ensures
        r@ == spec_timeout_detail(detail@),
{
    let mut d = detail;
    if !d.as_str().is_empty() {
        push_chars(&mut d, &[' ', '|', ' ']);
    }
    d.append("IRAuth backend timeout after 30s");
    d
}

/// The answer to a request for a user name Howdy may not see.
pub fn invalid_user_result() -> (r: AuthResult)
    ensures
        !r.approved,
        r.detail@ == "invalid user name"@,
{
    AuthResult { approved: false, detail: String::from_str("invalid user name") }
}

/// The result of one `pamtester` run: `exited` is the child's success when it ended by
/// itself, `None` when it was killed at the timeout; `detail` is its combined output.
/// Approved only when the child ended by itself and succeeded.
pub fn auth_result(exited: Option<bool>, detail: String) -> (r: AuthResult)
    ensures
        r.approved == (exited == Some(true)),
        r.detail@ == (match exited {
            Some(_) => detail@,
            None => spec_timeout_detail(detail@),
        }),
{
    match exited {
        Some(success) => AuthResult { approved: success, detail },
        None => AuthResult { approved: false, detail: timeout_detail(detail) },
    }
}

/// What repairing the dlib data directory starts with.
#[derive(Debug, Clone, Copy, PartialEq, Eq, Structural)]
pub enum DlibRepair {
    /// Every model is there: only their permissions are set.
    NormalizePermissions,
    /// Models are missing: the directory's installer runs first.
    RunInstaller,
}

pub open spec fn missing_installer_message(installer: Seq<char>) -> Seq<char> {
    "missing dlib models and installer: "@ + installer
}

/// The first step of a repair, given which required models are files and whether the
/// directory's installer (at `installer`) is a file.
pub fn dlib_repair_plan(present: [bool; 3], installer: &str, installer_is_file: bool) -> (r:
    Result<DlibRepair, String>)
    ensures
        missing_from(required_models(), present@).len() == 0 ==> r == Ok::<DlibRepair, String>(
            DlibRepair::NormalizePermissions,
        ),
        missing_from(required_models(), present@).len() > 0 && installer_is_file ==> r == Ok::<
            DlibRepair,
            String,
        >(DlibRepair::RunInstaller),
        missing_from(required_models(), present@).len() > 0 && !installer_is_file ==> (r matches Err(
            e,
        ) && e@ == missing_installer_message(installer@)),
{
    let missing = missing_models(present);
    if missing.len() == 0 {
        Ok(DlibRepair::NormalizePermissions)
    } else if installer_is_file {
        Ok(DlibRepair::RunInstaller)
    } else {
        let mut e = String::from_str("missing dlib models and installer: ");
        e.append(installer);
        Err(e)
    }
}

pub open spec fn still_missing_message(missing: Seq<Seq<char>>) -> Seq<char> {
    "dlib installer completed but models are still missing: "@ + crate::passkey::join_comma(
        missing,
    )
}

/// After the installer ran: done when no required model is missing, otherwise an error
/// naming those still missing.
pub fn dlib_after_installer(present: [bool; 3]) -> (r: Result<(), String>)
    ensures
        r is Ok <==> missing_from(required_models(), present@).len() == 0,
        r matches Err(e) ==> e@ == still_missing_message(missing_from(required_models(), present@)),
{
    let missing = missing_models(present);
    if missing.len() == 0 {
        Ok(())
    } else {
        let mut e = String::from_str("dlib installer completed but models are still missing: ");
        let joined = crate::passkey::join_comma_strings(&missing);
        assert(missing@.map_values(|s: String| s@) =~= strings_view(missing));
        e.append(joined.as_str());
        Err(e)
    }
}

/// The required models that exist, in order: those whose permissions a repair sets.
pub fn models_to_normalize(exists: [bool; 3]) -> (r: Vec<String>)
    ensures
        strings_view(r) == missing_from(required_models(), seq![!exists[0], !exists[1], !exists[2]]),
{
    let r = missing_models([!exists[0], !exists[1], !exists[2]]);
    proof {
        let a: [bool; 3] = [!exists[0], !exists[1], !exists[2]];
        assert(a@ =~= seq![!exists[0], !exists[1], !exists[2]]);
    }
    r
}

} // verus!
