//! The line-oriented V1 protocol spoken between the PAM module, the control utility and
//! the daemon.
//!
//! A request is one line: `V1<TAB>AUTH<TAB>user<TAB>reason`, `V1<TAB>STATUS` or
//! `V1<TAB>PING`, terminated by `\n`. A response is one line starting with `OK`, `ERR`,
//! `STATUS` or `PONG`.
use vstd::prelude::*;
use vstd::utf8::encode_utf8;
use crate::text::{
    chars_of, decimal, decimal_value, digit_char, lemma_split_on_concat, lemma_split_on_nonempty,
    lemma_split_on_single, parse_u32, parse_u32_range, push_char,
    push_chars, push_decimal, range_starts_with, span_text, split_on, split_spans,
    string_from_range,
};

verus! {

pub const SOCKET_PATH: &'static str = "/run/irauth/irauthd.sock";

pub const SOCKET_GROUP: &'static str = "irauth";

pub const HOWDY_PAM_SERVICE: &'static str = "irauth-howdy";

pub const PASSKEY_PAM_SERVICE: &'static str = "irauth-passkey";

pub const PROTOCOL_VERSION: u32 = 1;

/// Longest field, in bytes of UTF-8, that a request may carry.
pub const MAX_FIELD_BYTES: usize = 256;

/// Longest text, in characters, that a response carries.
pub const MAX_RESPONSE_CHARS: usize = 256;

#[derive(Debug, Clone, PartialEq, Eq)]
pub enum Request {
    Authenticate { user: String, reason: String },
    Status,
    Ping,
}

#[derive(Debug, Clone, PartialEq, Eq)]
pub enum Response {
    Success(String),
    Error(String),
    Status(DaemonStatus),
    Pong,
}

#[derive(Debug, Clone, PartialEq, Eq)]
pub struct DaemonStatus {
    pub backend: String,
    pub strict_ir_devices: usize,
    pub tpm_present: bool,
}

#[derive(Debug, Clone, Copy, PartialEq, Eq, Structural)]
pub enum ProtocolError {
    Empty,
    InvalidCommand,
    InvalidField,
    UnsupportedVersion,
}

/// A request as mathematical text.
pub enum RequestView {
    Authenticate { user: Seq<char>, reason: Seq<char> },
    Status,
    Ping,
}

pub struct DaemonStatusView {
    pub backend: Seq<char>,
    pub strict_ir_devices: nat,
    pub tpm_present: bool,
}

/// A response as mathematical text.
pub enum ResponseView {
    Success(Seq<char>),
    Error(Seq<char>),
    Status(DaemonStatusView),
    Pong,
}

impl View for Request {
    type V = RequestView;

    open spec fn view(&self) -> RequestView {
        match self {
            Request::Authenticate { user, reason } => RequestView::Authenticate {
                user: user@,
                reason: reason@,
            },
            Request::Status => RequestView::Status,
            Request::Ping => RequestView::Ping,
        }
    }
}

impl View for DaemonStatus {
    type V = DaemonStatusView;

    open spec fn view(&self) -> DaemonStatusView {
        DaemonStatusView {
            backend: self.backend@,
            strict_ir_devices: self.strict_ir_devices as nat,
            tpm_present: self.tpm_present,
        }
    }
}

impl View for Response {
    type V = ResponseView;

    open spec fn view(&self) -> ResponseView {
        match self {
            Response::Success(m) => ResponseView::Success(m@),
            Response::Error(m) => ResponseView::Error(m@),
            Response::Status(s) => ResponseView::Status(s@),
            Response::Pong => ResponseView::Pong,
        }
    }
}

impl ProtocolError {
    /// The human-readable description of the error.
    pub fn message(&self) -> (r: &'static str)
        ensures
            r@ == spec_error_message(*self),
    {
        match self {
            ProtocolError::Empty => "empty request",
            ProtocolError::InvalidCommand => "invalid command",
            ProtocolError::InvalidField => "invalid field",
            ProtocolError::UnsupportedVersion => "unsupported protocol version",
        }
    }
}

pub open spec fn spec_error_message(e: ProtocolError) -> Seq<char> {
    match e {
        ProtocolError::Empty => "empty request"@,
        ProtocolError::InvalidCommand => "invalid command"@,
        ProtocolError::InvalidField => "invalid field"@,
        ProtocolError::UnsupportedVersion => "unsupported protocol version"@,
    }
}

// ---------------------------------------------------------------------------------------
// Fields
// ---------------------------------------------------------------------------------------

/// A byte that may not appear in a request field.
pub open spec fn is_forbidden_byte(b: u8) -> bool {
    b == 10 || b == 13 || b == 9 || b == 0
}

/// A request field is non-empty, at most 256 bytes of UTF-8, and holds no newline,
/// carriage return, tab or NUL byte.
pub open spec fn spec_valid_field(s: Seq<char>) -> bool {
    let bytes = encode_utf8(s);
    &&& s.len() > 0
    &&& bytes.len() <= 256
    &&& forall|i: int| 0 <= i < bytes.len() ==> !is_forbidden_byte(#[trigger] bytes[i])
}

pub fn valid_field(s: &str) -> (r: bool)
    ensures
        r == spec_valid_field(s@),
{
    let bytes = s.as_bytes();
    if s.is_empty() || bytes.len() > 256 {
        return false;
    }
    let mut i: usize = 0;
    while i < bytes.len()
        invariant
            bytes@ == encode_utf8(s@),
            i <= bytes@.len(),
            forall|j: int| 0 <= j < i ==> !is_forbidden_byte(#[trigger] bytes@[j]),
        decreases bytes@.len() - i,
    {
        let b = bytes[i];
        if b == 10 || b == 13 || b == 9 || b == 0 {
            assert(is_forbidden_byte(bytes@[i as int]));
            return false;
        }
        i = i + 1;
    }
    true
}

// ---------------------------------------------------------------------------------------
// Encoding requests
// ---------------------------------------------------------------------------------------

pub open spec fn version_tag() -> Seq<char> {
    seq!['V', '1']
}

pub open spec fn auth_word() -> Seq<char> {
    seq!['A', 'U', 'T', 'H']
}

pub open spec fn status_word() -> Seq<char> {
    seq!['S', 'T', 'A', 'T', 'U', 'S']
}

pub open spec fn ping_word() -> Seq<char> {
    seq!['P', 'I', 'N', 'G']
}

/// `V1<TAB>AUTH<TAB>user<TAB>reason\n`, `V1<TAB>STATUS\n` or `V1<TAB>PING\n`.
pub open spec fn spec_encode_request(r: RequestView) -> Seq<char> {
    match r {
        RequestView::Authenticate { user, reason } => version_tag() + seq!['\t'] + auth_word()
            + seq!['\t'] + user + seq!['\t'] + reason + seq!['\n'],
        RequestView::Status => version_tag() + seq!['\t'] + status_word() + seq!['\n'],
        RequestView::Ping => version_tag() + seq!['\t'] + ping_word() + seq!['\n'],
    }
}

pub fn encode_request(req: &Request) -> (r: String)
    ensures
        r@ == spec_encode_request(req@),
{
    let mut out = String::new();
    match req {
        Request::Authenticate { user, reason } => {
            push_chars(&mut out, &['V', '1', '\t', 'A', 'U', 'T', 'H', '\t']);
            out.append(user.as_str());
            push_char(&mut out, '\t');
            out.append(reason.as_str());
            push_char(&mut out, '\n');
            assert(out@ =~= spec_encode_request(req@));
        },
        Request::Status => {
            push_chars(&mut out, &['V', '1', '\t', 'S', 'T', 'A', 'T', 'U', 'S', '\n']);
            assert(out@ =~= spec_encode_request(req@));
        },
        Request::Ping => {
            push_chars(&mut out, &['V', '1', '\t', 'P', 'I', 'N', 'G', '\n']);
            assert(out@ =~= spec_encode_request(req@));
        },
    }
    out
}

// ---------------------------------------------------------------------------------------
// Decoding requests
// ---------------------------------------------------------------------------------------

/// `s` without its trailing run of `\r` and `\n`.
pub open spec fn trim_line_end(s: Seq<char>) -> Seq<char>
    decreases s.len(),
{
    if s.len() > 0 && (s.last() == '\r' || s.last() == '\n') {
        trim_line_end(s.drop_last())
    } else {
        s
    }
}

/// The version field is `V` followed by a number (as `u32::from_str` reads it) equal to 1.
pub open spec fn version_ok(v: Seq<char>) -> bool {
    v.len() > 0 && v[0] == 'V' && parse_u32(v.drop_first()) == Some(1u32)
}

/// What `decode_request` returns for a line.
pub open spec fn spec_decode_request(line: Seq<char>) -> Result<RequestView, ProtocolError> {
    let l = trim_line_end(line);
    let parts = split_on(l, '\t');
    if l.len() == 0 {
        Err(ProtocolError::Empty)
    } else if !version_ok(parts[0]) {
        Err(ProtocolError::UnsupportedVersion)
    } else if parts.len() >= 2 && parts[1] == auth_word() {
        if parts.len() != 4 || !spec_valid_field(parts[2]) || !spec_valid_field(parts[3]) {
            Err(ProtocolError::InvalidField)
        } else {
            Ok(RequestView::Authenticate { user: parts[2], reason: parts[3] })
        }
    } else if parts.len() == 2 && parts[1] == status_word() {
        Ok(RequestView::Status)
    } else if parts.len() == 2 && parts[1] == ping_word() {
        Ok(RequestView::Ping)
    } else {
        Err(ProtocolError::InvalidCommand)
    }
}

/// Result of `decode_request` as mathematical values.
pub open spec fn decoded_view(r: Result<Request, ProtocolError>) -> Result<
    RequestView,
    ProtocolError,
> {
    match r {
        Ok(req) => Ok(req@),
        Err(e) => Err(e),
    }
}

pub fn decode_request(line: &str) -> (r: Result<Request, ProtocolError>)
    ensures
        decoded_view(r) == spec_decode_request(line@),
{
    let v = chars_of(line);
    let mut end = v.len();
    assert(v@.subrange(0, end as int) =~= v@);
    while end > 0 && (v[end - 1] == '\r' || v[end - 1] == '\n')
        invariant
            end <= v@.len(),
            trim_line_end(v@) == trim_line_end(v@.subrange(0, end as int)),
        decreases end,
    {
        assert(v@.subrange(0, end as int).drop_last() =~= v@.subrange(0, end - 1));
        end = end - 1;
    }
    assert(v@.subrange(0, 0) =~= v@.take(0));
    assert(trim_line_end(v@) == v@.subrange(0, end as int));
    let ghost l = v@.subrange(0, end as int);
    if end == 0 {
        return Err(ProtocolError::Empty);
    }
    let parts = split_spans(&v, 0, end, '\t');
    let ghost sp = split_on(l, '\t');
    proof {
        lemma_split_on_nonempty(l, '\t');
        assert(span_text(v@, parts@[0]) == sp[0]);
    }
    let (a0, b0) = parts[0];
    let version_fits = a0 < b0 && v[a0] == 'V' && parse_u32_range(&v, a0 + 1, b0) == Some(1u32);
    proof {
        if a0 < b0 {
            assert(sp[0].drop_first() =~= v@.subrange(a0 + 1, b0 as int));
        }
    }
    if !version_fits {
        return Err(ProtocolError::UnsupportedVersion);
    }
    let n = parts.len();
    if n >= 2 {
        let (a1, b1) = parts[1];
        assert(span_text(v@, parts@[1]) == sp[1]);
        if range_eq(&v, a1, b1, &['A', 'U', 'T', 'H']) {
            if n != 4 {
                return Err(ProtocolError::InvalidField);
            }
            let (a2, b2) = parts[2];
            let (a3, b3) = parts[3];
            assert(span_text(v@, parts@[2]) == sp[2]);
            assert(span_text(v@, parts@[3]) == sp[3]);
            let user = string_from_range(&v, a2, b2);
            let reason = string_from_range(&v, a3, b3);
            if !valid_field(user.as_str()) || !valid_field(reason.as_str()) {
                return Err(ProtocolError::InvalidField);
            }
            return Ok(Request::Authenticate { user, reason });
        }
        if n == 2 && range_eq(&v, a1, b1, &['S', 'T', 'A', 'T', 'U', 'S']) {
            return Ok(Request::Status);
        }
        if n == 2 && range_eq(&v, a1, b1, &['P', 'I', 'N', 'G']) {
            return Ok(Request::Ping);
        }
    }
    Err(ProtocolError::InvalidCommand)
}

/// `v[lo..hi]` equals `p`.
fn range_eq(v: &Vec<char>, lo: usize, hi: usize, p: &[char]) -> (r: bool)
    requires
        lo <= hi <= v@.len(),
    ensures
        r == (v@.subrange(lo as int, hi as int) == p@),
{
    if hi - lo != p.len() {
        return false;
    }
    let r = range_starts_with(v, lo, hi, p);
    assert(v@.subrange(lo as int, hi as int).take(p@.len() as int) =~= v@.subrange(
        lo as int,
        hi as int,
    ));
    r
}


// ---------------------------------------------------------------------------------------
// Round trip
// ---------------------------------------------------------------------------------------

/// An ASCII character of `s` shows up as the same byte in the UTF-8 encoding of `s`.
proof fn lemma_ascii_byte_in_encoding(s: Seq<char>, i: int) -> (k: int)
    requires
        0 <= i < s.len(),
        (s[i] as u32) < 0x80,
    ensures
        0 <= k < encode_utf8(s).len(),
        encode_utf8(s)[k] == (s[i] as u32) as u8,
    decreases s.len(),
{
    let x = s[0] as u32;
    vstd::utf8::char_is_scalar(s[0]);
    if i == 0 {
        assert((x & 0x7F) as u8 == x as u8) by (bit_vector)
            requires
                x < 0x80,
        ;
        0
    } else {
        let k1 = lemma_ascii_byte_in_encoding(s.drop_first(), i - 1);
        vstd::utf8::encode_scalar(x).len() + k1
    }
}

/// A valid field holds no tab, newline or carriage return.
pub proof fn lemma_valid_field_has_no_separators(s: Seq<char>)
    requires
        spec_valid_field(s),
    ensures
        !s.contains('\t'),
        !s.contains('\n'),
        !s.contains('\r'),
{
    assert forall|i: int| 0 <= i < s.len() implies s[i] != '\t' && s[i] != '\n' && s[i] != '\r' by {
        if s[i] == '\t' || s[i] == '\n' || s[i] == '\r' {
            let k = lemma_ascii_byte_in_encoding(s, i);
            assert(is_forbidden_byte(encode_utf8(s)[k]));
        }
    }
}

proof fn lemma_version_tag_ok()
    ensures
        version_ok(version_tag()),
{
    let d = version_tag().drop_first();
    assert(d =~= seq!['1']);
    assert(d.drop_last() =~= Seq::<char>::empty());
    assert(decimal_value(d.drop_last()) == 0);
    assert(('1' as u32) - ('0' as u32) == 1);
    assert(decimal_value(d) == 1);
}

/// Decoding an encoded request gives the request back, for every request whose fields
/// are valid.
pub proof fn lemma_request_round_trip(r: RequestView)
    requires
        r matches RequestView::Authenticate { user, reason } ==> spec_valid_field(user)
            && spec_valid_field(reason),
    ensures
        spec_decode_request(spec_encode_request(r)) == Ok::<RequestView, ProtocolError>(r),
{
    lemma_version_tag_ok();
    let vt = version_tag();
    assert(!vt.contains('\t')) by {
        assert(vt[0] != '\t' && vt[1] != '\t');
    }
    lemma_split_on_single(vt, '\t');
    match r {
        RequestView::Authenticate { user, reason } => {
            lemma_valid_field_has_no_separators(user);
            lemma_valid_field_has_no_separators(reason);
            let aw = auth_word();
            assert(!aw.contains('\t')) by {
                assert(aw[0] != '\t' && aw[1] != '\t' && aw[2] != '\t' && aw[3] != '\t');
            }
            let e = vt + seq!['\t'] + aw + seq!['\t'] + user + seq!['\t'] + reason;
            let line = spec_encode_request(r);
            assert(line == e.push('\n'));
            assert(line.drop_last() =~= e);
            assert(e.last() == reason.last());
            assert(reason[reason.len() - 1] != '\n' && reason[reason.len() - 1] != '\r');
            assert(trim_line_end(e) == e);
            assert(trim_line_end(line) == e);
            let t3 = user + seq!['\t'] + reason;
            let t2 = aw + seq!['\t'] + t3;
            assert(e =~= vt + seq!['\t'] + t2);
            lemma_split_on_concat(vt, '\t', t2);
            lemma_split_on_concat(aw, '\t', t3);
            lemma_split_on_concat(user, '\t', reason);
            lemma_split_on_single(aw, '\t');
            lemma_split_on_single(user, '\t');
            lemma_split_on_single(reason, '\t');
            let parts = split_on(e, '\t');
            assert(parts =~= seq![vt, aw, user, reason]);
        },
        RequestView::Status => {
            let sw = status_word();
            assert(!sw.contains('\t')) by {
                assert(forall|i: int| 0 <= i < 6 ==> sw[i] != '\t');
            }
            let e = vt + seq!['\t'] + sw;
            let line = spec_encode_request(r);
            assert(line.drop_last() =~= e);
            assert(trim_line_end(e) == e);
            assert(trim_line_end(line) == e);
            lemma_split_on_concat(vt, '\t', sw);
            lemma_split_on_single(sw, '\t');
            let parts = split_on(e, '\t');
            assert(parts =~= seq![vt, sw]);
            assert(sw != auth_word());
        },
        RequestView::Ping => {
            let pw = ping_word();
            assert(!pw.contains('\t')) by {
                assert(forall|i: int| 0 <= i < 4 ==> pw[i] != '\t');
            }
            let e = vt + seq!['\t'] + pw;
            let line = spec_encode_request(r);
            assert(line.drop_last() =~= e);
            assert(trim_line_end(e) == e);
            assert(trim_line_end(line) == e);
            lemma_split_on_concat(vt, '\t', pw);
            lemma_split_on_single(pw, '\t');
            let parts = split_on(e, '\t');
            assert(parts =~= seq![vt, pw]);
            assert(pw[0] != auth_word()[0]);
            assert(pw.len() != status_word().len());
        },
    }
}

// ---------------------------------------------------------------------------------------
// Encoding responses
// ---------------------------------------------------------------------------------------

pub open spec fn sanitize_char(c: char) -> char {
    if c == '\n' || c == '\r' || c == '\t' || c == '\0' {
        ' '
    } else {
        c
    }
}

/// The first 256 characters of `s`, with newline, carriage return, tab and NUL replaced
/// by a space.
pub open spec fn spec_sanitize(s: Seq<char>) -> Seq<char> {
    let n = if s.len() <= 256 {
        s.len()
    } else {
        256
    };
    Seq::new(n, |i: int| sanitize_char(s[i]))
}

pub fn sanitize(s: &str) -> (r: String)
    ensures
        r@ == spec_sanitize(s@),
{
    let v = chars_of(s);
    let n = if v.len() <= 256 {
        v.len()
    } else {
        256
    };
    let mut out = String::new();
    let mut i: usize = 0;
    while i < n
        invariant
            i <= n <= v@.len(),
            n == (if v@.len() <= 256 {
                v@.len()
            } else {
                256
            }),
            out@ =~= Seq::new(i as nat, |j: int| sanitize_char(v@[j])),
        decreases n - i,
    {
        let c = v[i];
        let d = if c == '\n' || c == '\r' || c == '\t' || c == '\0' {
            ' '
        } else {
            c
        };
        push_char(&mut out, d);
        i = i + 1;
    }
    out
}

pub open spec fn spec_encode_response(r: ResponseView) -> Seq<char> {
    match r {
        ResponseView::Success(m) => seq!['O', 'K', '\t'] + spec_sanitize(m) + seq!['\n'],
        ResponseView::Error(m) => seq!['E', 'R', 'R', '\t'] + spec_sanitize(m) + seq!['\n'],
        ResponseView::Pong => seq!['P', 'O', 'N', 'G', '\n'],
        ResponseView::Status(s) => seq!['S', 'T', 'A', 'T', 'U', 'S', '\t']
            + "backend="@ + spec_sanitize(s.backend) + seq!['\t'] + "ir="@ + decimal(
            s.strict_ir_devices,
        ) + seq!['\t'] + "tpm="@ + (if s.tpm_present {
            seq!['1']
        } else {
            seq!['0']
        }) + seq!['\n'],
    }
}

pub fn encode_response(resp: &Response) -> (r: String)
    ensures
        r@ == spec_encode_response(resp@),
{
    let mut out = String::new();
    match resp {
        Response::Success(msg) => {
            push_chars(&mut out, &['O', 'K', '\t']);
            let m = sanitize(msg.as_str());
            out.append(m.as_str());
            push_char(&mut out, '\n');
            assert(out@ =~= spec_encode_response(resp@));
        },
        Response::Error(msg) => {
            push_chars(&mut out, &['E', 'R', 'R', '\t']);
            let m = sanitize(msg.as_str());
            out.append(m.as_str());
            push_char(&mut out, '\n');
            assert(out@ =~= spec_encode_response(resp@));
        },
        Response::Pong => {
            push_chars(&mut out, &['P', 'O', 'N', 'G', '\n']);
            assert(out@ =~= spec_encode_response(resp@));
        },
        Response::Status(status) => {
            proof {
                reveal_strlit("backend=");
                reveal_strlit("ir=");
                reveal_strlit("tpm=");
            }
            push_chars(&mut out, &['S', 'T', 'A', 'T', 'U', 'S', '\t']);
            out.append("backend=");
            let b = sanitize(status.backend.as_str());
            out.append(b.as_str());
            push_char(&mut out, '\t');
            out.append("ir=");
            push_decimal(&mut out, status.strict_ir_devices);
            push_char(&mut out, '\t');
            out.append("tpm=");
            push_char(
                &mut out,
                if status.tpm_present {
                    '1'
                } else {
                    '0'
                },
            );
            push_char(&mut out, '\n');
            assert(out@ =~= spec_encode_response(resp@));
        },
    }
    out
}

/// A decimal numeral holds no newline.
proof fn lemma_decimal_has_no_newline(n: nat)
    ensures
        forall|i: int| 0 <= i < decimal(n).len() ==> decimal(n)[i] != '\n',
    decreases n,
{
    assert(forall|d: nat| d < 10 ==> #[trigger] digit_char(d) != '\n') by {
        assert forall|d: nat| d < 10 implies #[trigger] digit_char(d) != '\n' by {
            let x: u32 = (d + 48) as u32;
            assert(48 <= x <= 57);
            assert((x as char) as u32 == x);
        }
    }
    if n >= 10 {
        lemma_decimal_has_no_newline(n / 10);
        let d = (n % 10) as nat;
        assert(d < 10);
        assert(digit_char(d) != '\n');
        assert(decimal(n) == decimal(n / 10).push(digit_char(d)));
    } else {
        assert(digit_char(n) != '\n');
    }
}

/// Every answer of the daemon is one line: it ends with a newline and holds no other,
/// whatever the texts it carries.
pub proof fn lemma_response_is_one_line(r: ResponseView)
    ensures
        spec_encode_response(r).len() > 0,
        spec_encode_response(r).last() == '\n',
        forall|i: int|
            0 <= i < spec_encode_response(r).len() - 1 ==> spec_encode_response(r)[i] != '\n',
{
    reveal_strlit("backend=");
    reveal_strlit("ir=");
    reveal_strlit("tpm=");
    match r {
        ResponseView::Status(s) => {
            lemma_decimal_has_no_newline(s.strict_ir_devices);
        },
        _ => {},
    }
}

} // verus!
