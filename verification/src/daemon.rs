//! The decisions `irauthd` makes for each connection: which requests it answers directly,
//! who may ask for whom, how often, and what it answers after the camera and the
//! recognition backend have had their say.
use vstd::prelude::*;
use std::collections::HashMap;
use crate::howdy::Preflight;
use crate::protocol::{
    decode_request, decoded_view, lemma_request_round_trip, spec_decode_request, spec_encode_request,
    spec_valid_field, spec_error_message, DaemonStatus,
    DaemonStatusView, ProtocolError, Request, RequestView, Response, ResponseView,
};
use crate::text::{
    chars_of, ends_with, line_spans, lines, parse_u32, parse_u32_range, span_text, split_on,
    split_spans, lemma_split_on_nonempty,
};

verus! {

broadcast use vstd::std_specs::hash::group_hash_axioms;

// ---------------------------------------------------------------------------------------
// Who may ask for whom
// ---------------------------------------------------------------------------------------

/// Root may ask for any user; anyone else only for itself.
pub open spec fn spec_may_authenticate(peer_uid: u32, target_uid: u32) -> bool {
    peer_uid == 0 || peer_uid == target_uid
}

pub fn may_authenticate(peer_uid: u32, target_uid: u32) -> (r: bool)
    ensures
        r == spec_may_authenticate(peer_uid, target_uid),
{
    peer_uid == 0 || peer_uid == target_uid
}

// ---------------------------------------------------------------------------------------
// Rate limiting
// ---------------------------------------------------------------------------------------

/// Least time between two accepted requests of one peer, in nanoseconds.
pub const MIN_REQUEST_INTERVAL_NANOS: u64 = 500_000_000;

/// The time of the last accepted request of each peer, in nanoseconds on a monotonic
/// clock.
pub struct RateLimiter {
    last: HashMap<u32, u64>,
}

impl View for RateLimiter {
    type V = Map<u32, u64>;

    closed spec fn view(&self) -> Map<u32, u64> {
        self.last@
    }
}

impl RateLimiter {
    pub fn new() -> (r: Self)
        ensures
            r@ == Map::<u32, u64>::empty(),
    {
        RateLimiter { last: HashMap::new() }
    }
}

/// Time from `last` to `now`, zero if `now` is earlier (`Instant::duration_since`).
pub open spec fn elapsed(last: u64, now: u64) -> int {
    if now >= last {
        now - last
    } else {
        0
    }
}

/// Whether a request of `uid` at `now` is accepted.
pub open spec fn spec_rate_allows(m: Map<u32, u64>, uid: u32, now: u64) -> bool {
    !(m.contains_key(uid) && elapsed(m[uid], now) < MIN_REQUEST_INTERVAL_NANOS)
}

/// The record after a request of `uid` at `now`.
pub open spec fn spec_rate_after(m: Map<u32, u64>, uid: u32, now: u64) -> Map<u32, u64> {
    if spec_rate_allows(m, uid, now) {
        m.insert(uid, now)
    } else {
        m
    }
}

/// Accepts a request of `uid` at `now` unless the same peer had one accepted less than
/// the minimum interval before; an accepted request is recorded.
pub fn rate_limit(uid: u32, now: u64, limiter: &mut RateLimiter) -> (r: bool)
    ensures
        r == spec_rate_allows(old(limiter)@, uid, now),
        final(limiter)@ == spec_rate_after(old(limiter)@, uid, now),
{
    match limiter.last.get(&uid) {
        Some(last) => {
            let e = if now >= *last {
                now - *last
            } else {
                0
            };
            if e < MIN_REQUEST_INTERVAL_NANOS {
                return false;
            }
        },
        None => {},
    }
    limiter.last.insert(uid, now);
    true
}

/// Right after an accepted request, the same peer is refused until the interval has
/// passed.
pub proof fn lemma_rate_limit_refuses_repeat(m: Map<u32, u64>, uid: u32, t1: u64, t2: u64)
    requires
        spec_rate_allows(m, uid, t1),
        elapsed(t1, t2) < MIN_REQUEST_INTERVAL_NANOS,
    ensures
        !spec_rate_allows(spec_rate_after(m, uid, t1), uid, t2),
{
}

/// A request of one peer does not change whether another peer's request is accepted.
pub proof fn lemma_rate_limit_is_per_peer(m: Map<u32, u64>, a: u32, b: u32, t1: u64, t2: u64)
    requires
        a != b,
    ensures
        spec_rate_allows(spec_rate_after(m, a, t1), b, t2) == spec_rate_allows(m, b, t2),
        spec_rate_after(spec_rate_after(m, a, t1), b, t2).remove(a) == spec_rate_after(
            m,
            b,
            t2,
        ).remove(a),
{
    assert(spec_rate_after(spec_rate_after(m, a, t1), b, t2).remove(a) =~= spec_rate_after(
        m,
        b,
        t2,
    ).remove(a));
}

/// Once the interval has passed, the peer is accepted again.
pub proof fn lemma_rate_limit_accepts_after_interval(m: Map<u32, u64>, uid: u32, now: u64)
    requires
        m.contains_key(uid) ==> elapsed(m[uid], now) >= MIN_REQUEST_INTERVAL_NANOS,
    ensures
        spec_rate_allows(m, uid, now),
{
}

// ---------------------------------------------------------------------------------------
// One connection
// ---------------------------------------------------------------------------------------

/// What to do with one request line.
pub enum Dispatch {
    /// Answer at once.
    Reply(Response),
    /// Gather and answer the daemon status.
    Status,
    /// Run the authentication path for this user.
    Authenticate { user: String, reason: String },
}

pub enum DispatchView {
    Reply(ResponseView),
    Status,
    Authenticate { user: Seq<char>, reason: Seq<char> },
}

impl View for Dispatch {
    type V = DispatchView;

    open spec fn view(&self) -> DispatchView {
        match self {
            Dispatch::Reply(r) => DispatchView::Reply(r@),
            Dispatch::Status => DispatchView::Status,
            Dispatch::Authenticate { user, reason } => DispatchView::Authenticate {
                user: user@,
                reason: reason@,
            },
        }
    }
}

pub open spec fn framing_error() -> Seq<char> {
    "protocol: request must be newline-terminated and at most 1024 bytes"@
}

pub open spec fn protocol_prefix() -> Seq<char> {
    "protocol: "@
}

/// A line that does not end in a newline is refused; otherwise it is decoded, a ping is
/// answered with a pong, a decoding error with `protocol: <error>`.
pub open spec fn spec_dispatch(line: Seq<char>) -> DispatchView {
    if !ends_with(line, seq!['\n']) {
        DispatchView::Reply(ResponseView::Error(framing_error()))
    } else {
        match spec_decode_request(line) {
            Err(e) => DispatchView::Reply(
                ResponseView::Error(protocol_prefix() + spec_error_message(e)),
            ),
            Ok(RequestView::Ping) => DispatchView::Reply(ResponseView::Pong),
            Ok(RequestView::Status) => DispatchView::Status,
            Ok(RequestView::Authenticate { user, reason }) => DispatchView::Authenticate {
                user,
                reason,
            },
        }
    }
}

pub fn dispatch(line: &str) -> (r: Dispatch)
    ensures
        r@ == spec_dispatch(line@),
{
    let v = chars_of(line);
    let n = v.len();
    if n == 0 || v[n - 1] != '\n' {
        assert(!ends_with(line@, seq!['\n'])) by {
            if n > 0 {
                assert(line@.skip(n - 1)[0] == v@[n - 1]);
            }
        }
        return Dispatch::Reply(
            Response::Error(
                String::from_str("protocol: request must be newline-terminated and at most 1024 bytes"),
            ),
        );
    }
    assert(line@.skip(n - 1) =~= seq!['\n']);
    match decode_request(line) {
        Err(e) => {
            let mut m = String::from_str("protocol: ");
            m.append(e.message());
            Dispatch::Reply(Response::Error(m))
        },
        Ok(Request::Ping) => Dispatch::Reply(Response::Pong),
        Ok(Request::Status) => Dispatch::Status,
        Ok(Request::Authenticate { user, reason }) => Dispatch::Authenticate { user, reason },
    }
}

pub open spec fn error_text(r: Result<(), String>) -> Option<Seq<char>> {
    match r {
        Err(m) => Some(m@),
        Ok(()) => None,
    }
}

/// The checks before a face check: the user must exist, the peer may ask only for itself
/// unless it is root, and the peer must not be rate-limited.
pub open spec fn spec_authorize(
    peer_uid: u32,
    target_uid: Option<u32>,
    m: Map<u32, u64>,
    now: u64,
) -> Option<Seq<char>> {
    match target_uid {
        None => Some("unknown user"@),
        Some(t) => if !spec_may_authenticate(peer_uid, t) {
            Some("peer may authenticate only itself"@)
        } else if !spec_rate_allows(m, peer_uid, now) {
            Some("authentication request rate-limited"@)
        } else {
            None
        },
    }
}

/// Runs the checks before a face check; `target_uid` is the uid of the requested user, if
/// there is one. The rate limiter records the request only when the first two checks
/// pass.
pub fn authorize(peer_uid: u32, target_uid: Option<u32>, limiter: &mut RateLimiter, now: u64) -> (r:
    Result<(), String>)
    ensures
        error_text(r) == spec_authorize(peer_uid, target_uid, old(limiter)@, now),
        final(limiter)@ == (match target_uid {
            Some(t) => if spec_may_authenticate(peer_uid, t) {
                spec_rate_after(old(limiter)@, peer_uid, now)
            } else {
                old(limiter)@
            },
            None => old(limiter)@,
        }),
{
    let target = match target_uid {
        Some(t) => t,
        None => return Err(String::from_str("unknown user")),
    };
    if !may_authenticate(peer_uid, target) {
        return Err(String::from_str("peer may authenticate only itself"));
    }
    if !rate_limit(peer_uid, now, limiter) {
        return Err(String::from_str("authentication request rate-limited"));
    }
    Ok(())
}

/// What the hardware check of the configured camera found.
#[derive(Debug, Clone, Copy, PartialEq, Eq, Structural)]
pub enum CameraCheck {
    /// Howdy is bound to a strict IR/depth node.
    Strict,
    /// Howdy has no camera configured.
    NotConfigured,
    /// Howdy's configuration could not be read.
    ConfigUnreadable,
    /// The configured camera is not a strict node.
    NotStrict,
    /// The hardware policy could not be evaluated.
    PolicyFailed,
}

pub open spec fn spec_camera_refusal(c: CameraCheck) -> Option<Seq<char>> {
    match c {
        CameraCheck::Strict => None,
        CameraCheck::NotConfigured => Some("Howdy camera is not configured"@),
        CameraCheck::ConfigUnreadable => Some("Howdy camera configuration error"@),
        CameraCheck::NotStrict => Some("Howdy is not bound to a strict IR/depth camera"@),
        CameraCheck::PolicyFailed => Some("camera policy error"@),
    }
}

pub open spec fn response_error_text(r: Option<Response>) -> Option<Seq<char>> {
    match r {
        Some(Response::Error(m)) => Some(m@),
        _ => None,
    }
}

/// The refusal for a camera that fails the check; none when it passes.
pub fn camera_refusal(c: CameraCheck) -> (r: Option<Response>)
    ensures
        r is None <==> c == CameraCheck::Strict,
        response_error_text(r) == spec_camera_refusal(c),
{
    match c {
        CameraCheck::Strict => None,
        CameraCheck::NotConfigured => Some(
            Response::Error(String::from_str("Howdy camera is not configured")),
        ),
        CameraCheck::ConfigUnreadable => Some(
            Response::Error(String::from_str("Howdy camera configuration error")),
        ),
        CameraCheck::NotStrict => Some(
            Response::Error(String::from_str("Howdy is not bound to a strict IR/depth camera")),
        ),
        CameraCheck::PolicyFailed => Some(
            Response::Error(String::from_str("camera policy error")),
        ),
    }
}

/// What the recognition backend reported.
#[derive(Debug, Clone, Copy, PartialEq, Eq, Structural)]
pub enum BackendOutcome {
    Approved,
    Denied,
    Failed,
}

pub open spec fn spec_backend_response(o: BackendOutcome) -> ResponseView {
    match o {
        BackendOutcome::Approved => ResponseView::Success("face verified"@),
        BackendOutcome::Denied => ResponseView::Error("face verification denied"@),
        BackendOutcome::Failed => ResponseView::Error("backend error"@),
    }
}

/// Only an approval is answered with success.
pub fn backend_response(o: BackendOutcome) -> (r: Response)
    ensures
        r@ == spec_backend_response(o),
{
    match o {
        BackendOutcome::Approved => Response::Success(String::from_str("face verified")),
        BackendOutcome::Denied => Response::Error(String::from_str("face verification denied")),
        BackendOutcome::Failed => Response::Error(String::from_str("backend error")),
    }
}

// ---------------------------------------------------------------------------------------
// One authentication, step by step
// ---------------------------------------------------------------------------------------

/// Where one authentication request stands.
#[derive(Debug, Clone, Copy, PartialEq, Eq, Structural)]
pub enum AuthStage {
    /// The peer and the requested user are being checked.
    Checking,
    /// The peer may ask; the camera is checked next (under the camera lock).
    Authorized,
    /// The camera is strict; the face check runs next.
    CameraStrict,
}

/// What the daemon learned since its last step.
pub enum AuthEvent {
    /// The outcome of `authorize`: nothing, or why the request is refused.
    Checked(Result<(), String>),
    /// The camera lock could not be taken.
    CameraLockFailed,
    /// What the camera check found.
    Camera(CameraCheck),
    /// What the recognition backend reported.
    Backend(BackendOutcome),
}

/// What the daemon does next.
pub enum AuthAction {
    /// Take the camera lock and check the configured camera.
    CheckCamera,
    /// Run the face check.
    RunBackend,
    /// Answer the request and stop.
    Reply(Response),
}

/// The event that can follow each stage.
pub open spec fn event_fits(stage: AuthStage, event: AuthEvent) -> bool {
    match stage {
        AuthStage::Checking => event is Checked,
        AuthStage::Authorized => event is CameraLockFailed || event is Camera,
        AuthStage::CameraStrict => event is Backend,
    }
}

/// The next stage (none once answered) and the answer, if any: refused checks and a
/// refused camera are answered at once; a strict camera leads to the face check, whose
/// outcome is the answer.
pub open spec fn spec_auth_step(stage: AuthStage, event: AuthEvent) -> (
    Option<AuthStage>,
    Option<ResponseView>,
) {
    match event {
        AuthEvent::Checked(Ok(())) => (Some(AuthStage::Authorized), None),
        AuthEvent::Checked(Err(e)) => (None, Some(ResponseView::Error(e@))),
        AuthEvent::CameraLockFailed => (
            None,
            Some(ResponseView::Error("authentication lock poisoned"@)),
        ),
        AuthEvent::Camera(c) => match spec_camera_refusal(c) {
            Some(m) => (None, Some(ResponseView::Error(m))),
            None => (Some(AuthStage::CameraStrict), None),
        },
        AuthEvent::Backend(o) => (None, Some(spec_backend_response(o))),
    }
}

pub open spec fn reply_view(a: AuthAction) -> Option<ResponseView> {
    match a {
        AuthAction::Reply(r) => Some(r@),
        _ => None,
    }
}

/// One step of an authentication.
pub fn auth_step(stage: AuthStage, event: AuthEvent) -> (r: (Option<AuthStage>, AuthAction))
    requires
        event_fits(stage, event),
    ensures
        (r.0, reply_view(r.1)) == spec_auth_step(stage, event),
        r.0 == Some(AuthStage::Authorized) ==> r.1 is CheckCamera,
        r.0 == Some(AuthStage::CameraStrict) ==> r.1 is RunBackend,
{
    match event {
        AuthEvent::Checked(checked) => match checked {
            Ok(()) => (Some(AuthStage::Authorized), AuthAction::CheckCamera),
            Err(e) => (None, AuthAction::Reply(Response::Error(e))),
        },
        AuthEvent::CameraLockFailed => (
            None,
            AuthAction::Reply(Response::Error(String::from_str("authentication lock poisoned"))),
        ),
        AuthEvent::Camera(c) => match camera_refusal(c) {
            Some(resp) => (None, AuthAction::Reply(resp)),
            None => (Some(AuthStage::CameraStrict), AuthAction::RunBackend),
        },
        AuthEvent::Backend(o) => (None, AuthAction::Reply(backend_response(o))),
    }
}

/// Fail closed: a request is answered with success only at the face-check step, and only
/// when the backend approved; that step is reached only from an authorized request whose
/// camera was found strict, and an authorized request only from passed checks.
pub proof fn lemma_success_needs_every_check(stage: AuthStage, event: AuthEvent)
    requires
        event_fits(stage, event),
    ensures
        (spec_auth_step(stage, event).1 matches Some(ResponseView::Success(m))) ==> stage
            == AuthStage::CameraStrict && event == AuthEvent::Backend(BackendOutcome::Approved),
        spec_auth_step(stage, event).0 == Some(AuthStage::CameraStrict) ==> stage
            == AuthStage::Authorized && event == AuthEvent::Camera(CameraCheck::Strict),
        spec_auth_step(stage, event).0 == Some(AuthStage::Authorized) ==> stage
            == AuthStage::Checking && event == AuthEvent::Checked(Ok(())),
{
    if let AuthEvent::Checked(Ok(u)) = event {
        assert(u == ());
    }
}

/// The answer that the steps give, the events being: the outcome of `authorize`, whether
/// the camera lock was taken, what the camera check found and what the backend reported
/// (each looked at only when the steps get that far).
pub open spec fn spec_auth_run(
    checked: Result<(), String>,
    lock_ok: bool,
    camera: CameraCheck,
    outcome: BackendOutcome,
) -> ResponseView {
    let s1 = spec_auth_step(AuthStage::Checking, AuthEvent::Checked(checked));
    match s1.1 {
        Some(r) => r,
        None => {
            let s2 = spec_auth_step(
                AuthStage::Authorized,
                if lock_ok {
                    AuthEvent::Camera(camera)
                } else {
                    AuthEvent::CameraLockFailed
                },
            );
            match s2.1 {
                Some(r) => r,
                None => spec_backend_response(outcome),
            }
        },
    }
}

/// The answer to an authentication request from what the daemon finds: the requested
/// user's uid, the rate-limit record and the time, the camera lock, the camera and the
/// backend. No reason enters it.
pub open spec fn spec_auth_answer(
    peer_uid: u32,
    target_uid: Option<u32>,
    m: Map<u32, u64>,
    now: u64,
    lock_ok: bool,
    camera: CameraCheck,
    outcome: BackendOutcome,
) -> ResponseView {
    match spec_authorize(peer_uid, target_uid, m, now) {
        Some(e) => ResponseView::Error(e),
        None => if !lock_ok {
            ResponseView::Error("authentication lock poisoned"@)
        } else {
            match spec_camera_refusal(camera) {
                Some(e) => ResponseView::Error(e),
                None => spec_backend_response(outcome),
            }
        },
    }
}

/// Running the steps on the outcome of `authorize` gives that answer.
pub proof fn lemma_auth_steps_give_answer(
    peer_uid: u32,
    target_uid: Option<u32>,
    m: Map<u32, u64>,
    now: u64,
    checked: Result<(), String>,
    lock_ok: bool,
    camera: CameraCheck,
    outcome: BackendOutcome,
)
    requires
        error_text(checked) == spec_authorize(peer_uid, target_uid, m, now),
    ensures
        spec_auth_run(checked, lock_ok, camera, outcome) == spec_auth_answer(
            peer_uid,
            target_uid,
            m,
            now,
            lock_ok,
            camera,
            outcome,
        ),
{
}

/// The daemon's answer to a request line (none for a status request, which reports the
/// system instead), `passwd` being the text of `/etc/passwd`.
pub open spec fn spec_answer_to_line(
    line: Seq<char>,
    peer_uid: u32,
    passwd: Seq<char>,
    m: Map<u32, u64>,
    now: u64,
    lock_ok: bool,
    camera: CameraCheck,
    outcome: BackendOutcome,
) -> Option<ResponseView> {
    match spec_dispatch(line) {
        DispatchView::Reply(r) => Some(r),
        DispatchView::Status => None,
        DispatchView::Authenticate { user, reason } => Some(
            spec_auth_answer(
                peer_uid,
                first_entry_id(lines(passwd), user),
                m,
                now,
                lock_ok,
                camera,
                outcome,
            ),
        ),
    }
}

/// The reason never changes the answer: two authentication requests for the same user
/// that differ only in their reason are answered alike, whatever the daemon finds.
pub proof fn lemma_reason_never_changes_answer(
    user: Seq<char>,
    r1: Seq<char>,
    r2: Seq<char>,
    peer_uid: u32,
    passwd: Seq<char>,
    m: Map<u32, u64>,
    now: u64,
    lock_ok: bool,
    camera: CameraCheck,
    outcome: BackendOutcome,
)
    requires
        spec_valid_field(user),
        spec_valid_field(r1),
        spec_valid_field(r2),
    ensures
        spec_answer_to_line(
            spec_encode_request(RequestView::Authenticate { user, reason: r1 }),
            peer_uid,
            passwd,
            m,
            now,
            lock_ok,
            camera,
            outcome,
        ) == spec_answer_to_line(
            spec_encode_request(RequestView::Authenticate { user, reason: r2 }),
            peer_uid,
            passwd,
            m,
            now,
            lock_ok,
            camera,
            outcome,
        ),
{
    let q1 = RequestView::Authenticate { user, reason: r1 };
    let q2 = RequestView::Authenticate { user, reason: r2 };
    lemma_request_round_trip(q1);
    lemma_request_round_trip(q2);
    let l1 = spec_encode_request(q1);
    let l2 = spec_encode_request(q2);
    assert(ends_with(l1, seq!['\n'])) by {
        assert(l1.skip(l1.len() - 1) =~= seq!['\n']);
    }
    assert(ends_with(l2, seq!['\n'])) by {
        assert(l2.skip(l2.len() - 1) =~= seq!['\n']);
    }
}

// ---------------------------------------------------------------------------------------
// Status
// ---------------------------------------------------------------------------------------

/// Ready only when Howdy and pamtester exist, no model is missing and Howdy is bound to a
/// strict camera.
pub open spec fn spec_backend_state(ready: bool) -> Seq<char> {
    if ready {
        "howdy-ready-ir-bound"@
    } else {
        "howdy-incomplete"@
    }
}

pub fn status(
    preflight: &Preflight,
    camera_strict: bool,
    strict_ir_devices: usize,
    tpm_present: bool,
) -> (r: DaemonStatus)
    ensures
        r@ == (DaemonStatusView {
            backend: spec_backend_state(
                preflight.howdy && preflight.pamtester && preflight.missing_models@.len() == 0
                    && camera_strict,
            ),
            strict_ir_devices: strict_ir_devices as nat,
            tpm_present,
        }),
{
    let ready = preflight.howdy && preflight.pamtester && preflight.missing_models.len() == 0
        && camera_strict;
    DaemonStatus {
        backend: if ready {
            String::from_str("howdy-ready-ir-bound")
        } else {
            String::from_str("howdy-incomplete")
        },
        strict_ir_devices,
        tpm_present,
    }
}

// ---------------------------------------------------------------------------------------
// /etc/passwd and /etc/group
// ---------------------------------------------------------------------------------------

/// The id on one `name:password:id:...` line, when the line has those three fields, names
/// `name`, and the id is a number.
pub open spec fn entry_id(line: Seq<char>, name: Seq<char>) -> Option<u32> {
    let f = split_on(line, ':');
    if f.len() >= 3 && f[0] == name {
        parse_u32(f[2])
    } else {
        None
    }
}

/// The id of the first line that gives one.
pub open spec fn first_entry_id(ls: Seq<Seq<char>>, name: Seq<char>) -> Option<u32>
    decreases ls.len(),
{
    if ls.len() == 0 {
        None
    } else if entry_id(ls[0], name) is Some {
        entry_id(ls[0], name)
    } else {
        first_entry_id(ls.drop_first(), name)
    }
}

fn id_for_name(table: &str, name: &str) -> (r: Option<u32>)
    ensures
        r == first_entry_id(lines(table@), name@),
{
    let v = chars_of(table);
    let nv = chars_of(name);
    let spans = line_spans(&v);
    let ghost ls = lines(v@);
    let mut k: usize = 0;
    assert(ls.skip(0) =~= ls);
    while k < spans.len()
        invariant
            k <= spans@.len() == ls.len(),
            ls == lines(v@),
            v@ == table@,
            nv@ == name@,
            forall|j: int| 0 <= j < spans@.len() ==> (#[trigger] spans@[j]).0 <= spans@[j].1 <= v@.len(),
            forall|j: int| 0 <= j < spans@.len() ==> #[trigger] span_text(v@, spans@[j]) == ls[j],
            first_entry_id(ls, name@) == first_entry_id(ls.skip(k as int), name@),
        decreases spans@.len() - k,
    {
        let (lo, hi) = spans[k];
        assert(span_text(v@, spans@[k as int]) == ls[k as int]);
        assert(ls.skip(k as int)[0] == ls[k as int]);
        assert(ls.skip(k as int).drop_first() =~= ls.skip(k + 1));
        let fields = split_spans(&v, lo, hi, ':');
        let ghost f = split_on(ls[k as int], ':');
        if fields.len() >= 3 {
            let (a0, b0) = fields[0];
            let (a2, b2) = fields[2];
            assert(span_text(v@, fields@[0]) == f[0]);
            assert(span_text(v@, fields@[2]) == f[2]);
            if range_equals(&v, a0, b0, &nv) {
                let id = parse_u32_range(&v, a2, b2);
                if id.is_some() {
                    return id;
                }
            }
        }
        k = k + 1;
    }
    None
}

fn range_equals(v: &Vec<char>, lo: usize, hi: usize, p: &Vec<char>) -> (r: bool)
    requires
        lo <= hi <= v@.len(),
    ensures
        r == (v@.subrange(lo as int, hi as int) == p@),
{
    if hi - lo != p.len() {
        return false;
    }
    let mut i: usize = 0;
    while i < p.len()
        invariant
            i <= p@.len() == hi - lo,
            lo <= hi <= v@.len(),
            forall|j: int| 0 <= j < i ==> v@[lo + j] == p@[j],
        decreases p@.len() - i,
    {
        if v[lo + i] != p[i] {
            assert(v@.subrange(lo as int, hi as int)[i as int] != p@[i as int]);
            return false;
        }
        i = i + 1;
    }
    assert(v@.subrange(lo as int, hi as int) =~= p@);
    true
}

/// The uid of `user` in the text of `/etc/passwd`.
pub fn uid_for_user(passwd: &str, user: &str) -> (r: Option<u32>)
    ensures
        r == first_entry_id(lines(passwd@), user@),
{
    id_for_name(passwd, user)
}

/// The gid of `group` in the text of `/etc/group`.
pub fn gid_for_group(groups: &str, group: &str) -> (r: Option<u32>)
    ensures
        r == first_entry_id(lines(groups@), group@),
{
    id_for_name(groups, group)
}

} // verus!
