//! The TPM-backed passkey bridge: whether it is ready, and the user service that runs it.
use vstd::prelude::*;
use crate::text::{
    chars_of, contains_seq, ends_with, lower_seq, occurs_at, range_contains, starts_with,
    string_from_range, to_lower,
};

verus! {

pub const UPSTREAM_URL: &'static str = "https://github.com/NicklasKleemann/howdy-as-passkey.git";

pub const PINNED_COMMIT: &'static str = "5eecb19bde6641b70d6c14f65cbc8f4d073e2d45";

pub const SERVICE_NAME: &'static str = "irauth-passkey.service";

#[derive(Debug, Clone)]
pub struct Diagnosis {
    pub ready: bool,
    pub detail: String,
}

/// The parts of the bridge that are missing, in a fixed order.
pub open spec fn missing_parts(binary: bool, sealed: bool, unit: bool, active: bool) -> Seq<
    Seq<char>,
> {
    (if binary {
        Seq::empty()
    } else {
        seq!["bridge binary"@]
    }) + (if sealed {
        Seq::empty()
    } else {
        seq!["TPM-sealed vault key"@]
    }) + (if unit {
        Seq::empty()
    } else {
        seq!["user service"@]
    }) + (if active {
        Seq::empty()
    } else {
        seq!["running service"@]
    })
}

/// Items joined by `, `.
pub open spec fn join_comma(items: Seq<Seq<char>>) -> Seq<char>
    decreases items.len(),
{
    if items.len() == 0 {
        Seq::empty()
    } else if items.len() == 1 {
        items[0]
    } else {
        join_comma(items.drop_last()) + ", "@ + items.last()
    }
}

/// Ready when the bridge binary, the TPM-sealed key and the user service exist and the
/// service runs; otherwise the detail lists what is missing.
pub open spec fn spec_diagnosis(binary: bool, sealed: bool, unit: bool, active: bool) -> (
    bool,
    Seq<char>,
) {
    let m = missing_parts(binary, sealed, unit, active);
    if m.len() == 0 {
        (true, "TPM-backed bridge active"@)
    } else {
        (false, "missing: "@ + join_comma(m))
    }
}

fn add_part(detail: &mut String, count: usize, part: &str, Ghost(items): Ghost<Seq<Seq<char>>>)
    requires
        count == items.len(),
        old(detail)@ == join_comma(items),
    ensures
        final(detail)@ == join_comma(items.push(part@)),
{
    if count > 0 {
        detail.append(", ");
    }
    detail.append(part);
    assert(items.push(part@).drop_last() =~= items);
    if count == 0 {
        assert(final(detail)@ =~= part@);
    }
}

/// The texts joined by `, `.
pub fn join_comma_strings(items: &Vec<String>) -> (r: String)
    ensures
        r@ == join_comma(items@.map_values(|s: String| s@)),
{
    let ghost all = items@.map_values(|s: String| s@);
    let mut out = String::new();
    let mut i: usize = 0;
    assert(all.take(0) =~= Seq::<Seq<char>>::empty());
    while i < items.len()
        invariant
            i <= items@.len(),
            all == items@.map_values(|s: String| s@),
            out@ == join_comma(all.take(i as int)),
        decreases items@.len() - i,
    {
        add_part(&mut out, i, items[i].as_str(), Ghost(all.take(i as int)));
        assert(all.take(i as int).push(items@[i as int]@) =~= all.take(i + 1));
        i = i + 1;
    }
    assert(all.take(i as int) =~= all);
    out
}

/// The diagnosis from what was found: the bridge binary and the sealed key are files, the
/// unit file exists, the service is active.
pub fn diagnose_from(binary: bool, sealed: bool, unit: bool, active: bool) -> (r: Diagnosis)
    ensures
        (r.ready, r.detail@) == spec_diagnosis(binary, sealed, unit, active),
{
    let mut parts = String::new();
    let mut count: usize = 0;
    let ghost mut items: Seq<Seq<char>> = Seq::empty();
    if !binary {
        add_part(&mut parts, count, "bridge binary", Ghost(items));
        proof {
            items = items.push("bridge binary"@);
        }
        count = count + 1;
    }
    if !sealed {
        add_part(&mut parts, count, "TPM-sealed vault key", Ghost(items));
        proof {
            items = items.push("TPM-sealed vault key"@);
        }
        count = count + 1;
    }
    if !unit {
        add_part(&mut parts, count, "user service", Ghost(items));
        proof {
            items = items.push("user service"@);
        }
        count = count + 1;
    }
    if !active {
        add_part(&mut parts, count, "running service", Ghost(items));
        proof {
            items = items.push("running service"@);
        }
        count = count + 1;
    }
    assert(items =~= missing_parts(binary, sealed, unit, active));
    if count == 0 {
        Diagnosis { ready: true, detail: String::from_str("TPM-backed bridge active") }
    } else {
        let mut d = String::from_str("missing: ");
        d.append(parts.as_str());
        Diagnosis { ready: false, detail: d }
    }
}

/// The diagnosis when `$HOME` is unknown.
pub fn diagnose_without_home() -> (r: Diagnosis)
    ensures
        !r.ready,
        r.detail@ == "HOME unavailable"@,
{
    Diagnosis { ready: false, detail: String::from_str("HOME unavailable") }
}

/// The systemd user unit of the bridge.
pub open spec fn spec_unit_file(binary: Seq<char>, config: Seq<char>) -> Seq<char> {
    "[Unit]\nDescription=IRAuth TPM-backed virtual FIDO2 authenticator\nAfter=graphical-session.target irauthd.service\n\n[Service]\nType=simple\nExecStart="@
        + binary + " --pam-service irauth-passkey --vault "@ + config
        + "/vault.json\nRestart=on-failure\nRestartSec=2\nNoNewPrivileges=true\n\n[Install]\nWantedBy=default.target\n"@
}

pub fn unit_file(binary: &str, config: &str) -> (r: String)
    ensures
        r@ == spec_unit_file(binary@, config@),
{
    let mut s = String::from_str(
        "[Unit]\nDescription=IRAuth TPM-backed virtual FIDO2 authenticator\nAfter=graphical-session.target irauthd.service\n\n[Service]\nType=simple\nExecStart=",
    );
    s.append(binary);
    s.append(" --pam-service irauth-passkey --vault ");
    s.append(config);
    s.append(
        "/vault.json\nRestart=on-failure\nRestartSec=2\nNoNewPrivileges=true\n\n[Install]\nWantedBy=default.target\n",
    );
    s
}

/// Fails with `required command not found: <name>` unless the command was found on
/// `$PATH`.
pub fn require_command(name: &str, found: bool) -> (r: Result<(), String>)
    ensures
        found <==> r is Ok,
        r matches Err(e) ==> e@ == "required command not found: "@ + name@,
{
    if found {
        Ok(())
    } else {
        let mut e = String::from_str("required command not found: ");
        e.append(name);
        Err(e)
    }
}

pub open spec fn virtual_fido() -> Seq<char> {
    "virtual fido"@
}

/// `fido2-token -L` succeeded and lists the virtual authenticator (its output, ignoring
/// ASCII case, contains `virtual fido`).
pub fn lists_virtual_authenticator(success: bool, listing: &str) -> (r: bool)
    ensures
        r == (success && contains_seq(lower_seq(listing@), virtual_fido())),
{
    if !success {
        return false;
    }
    let v = chars_of(listing);
    let mut l: Vec<char> = Vec::new();
    let mut i: usize = 0;
    while i < v.len()
        invariant
            i <= v@.len(),
            l@ =~= lower_seq(v@.take(i as int)),
        decreases v@.len() - i,
    {
        l.push(to_lower(v[i]));
        i = i + 1;
    }
    assert(v@.take(v@.len() as int) =~= v@);
    let n = l.len();
    assert(l@.subrange(0, n as int) =~= l@);
    let w: [char; 12] = ['v', 'i', 'r', 't', 'u', 'a', 'l', ' ', 'f', 'i', 'd', 'o'];
    proof {
        reveal_strlit("virtual fido");
    }
    assert(w@ =~= virtual_fido());
    range_contains(&l, 0, n, &w)
}

/// The input line without its trailing line-break characters.
pub open spec fn strip_line_end(s: Seq<char>) -> Seq<char>
    decreases s.len(),
{
    if s.len() > 0 && (s.last() == '\r' || s.last() == '\n') {
        strip_line_end(s.drop_last())
    } else {
        s
    }
}

/// The passphrase typed on one input line: the line without its trailing `\r`/`\n`, or
/// `None` when nothing else was typed.
pub fn passphrase_from_input(input: &str) -> (r: Option<String>)
    ensures
        strip_line_end(input@).len() == 0 <==> r is None,
        r matches Some(p) ==> p@ == strip_line_end(input@),
{
    let v = chars_of(input);
    let mut end = v.len();
    assert(v@.take(end as int) =~= v@);
    while end > 0 && (v[end - 1] == '\r' || v[end - 1] == '\n')
        invariant
            end <= v@.len(),
            strip_line_end(v@) == strip_line_end(v@.take(end as int)),
        decreases end,
    {
        assert(v@.take(end as int).drop_last() =~= v@.take(end - 1));
        end = end - 1;
    }
    assert(strip_line_end(v@.take(end as int)) == v@.take(end as int));
    if end == 0 {
        None
    } else {
        let p = string_from_range(&v, 0, end);
        assert(v@.subrange(0, end as int) =~= v@.take(end as int));
        Some(p)
    }
}

/// The commands a passkey install needs, in the order they are looked for.
pub open spec fn install_commands() -> Seq<Seq<char>> {
    seq!["git"@, "go"@, "systemctl"@, "usbip"@]
}

pub open spec fn tpm_inaccessible_message(e: Seq<char>) -> Seq<char> {
    "TPM is not accessible in this login session ("@ + e
        + "); log out/in after setup so the tss group becomes active"@
}

/// What a passkey install requires, checked in this order: not running as root, each
/// needed command on `$PATH`, a TPM device, and that device opening for reading and
/// writing (`tpm_open` holds the error text when it did not).
pub open spec fn spec_install_preconditions(
    is_root: bool,
    found: Seq<bool>,
    tpm_exists: bool,
    tpm_open: Result<(), Seq<char>>,
) -> Result<(), Seq<char>> {
    if is_root {
        Err("passkey install must run as the desktop user, not through sudo"@)
    } else if !found[0] {
        Err("required command not found: "@ + install_commands()[0])
    } else if !found[1] {
        Err("required command not found: "@ + install_commands()[1])
    } else if !found[2] {
        Err("required command not found: "@ + install_commands()[2])
    } else if !found[3] {
        Err("required command not found: "@ + install_commands()[3])
    } else if !tpm_exists {
        Err("strict passkey mode requires TPM 2.0 at /dev/tpmrm0"@)
    } else {
        match tpm_open {
            Ok(()) => Ok(()),
            Err(e) => Err(tpm_inaccessible_message(e)),
        }
    }
}

pub open spec fn unit_view(r: Result<(), String>) -> Result<(), Seq<char>> {
    match r {
        Ok(()) => Ok(()),
        Err(e) => Err(e@),
    }
}

pub open spec fn str_result_view(r: Result<(), &str>) -> Result<(), Seq<char>> {
    match r {
        Ok(()) => Ok(()),
        Err(e) => Err(e@),
    }
}

/// Checks what a passkey install requires; `commands_found` says which of `git`, `go`,
/// `systemctl` and `usbip` are on `$PATH`.
pub fn install_preconditions(
    is_root: bool,
    commands_found: [bool; 4],
    tpm_exists: bool,
    tpm_open: Result<(), &str>,
) -> (r: Result<(), String>)
    ensures
        unit_view(r) == spec_install_preconditions(
            is_root,
            commands_found@,
            tpm_exists,
            str_result_view(tpm_open),
        ),
{
    if is_root {
        return Err(String::from_str("passkey install must run as the desktop user, not through sudo"));
    }
    require_command("git", commands_found[0])?;
    require_command("go", commands_found[1])?;
    require_command("systemctl", commands_found[2])?;
    require_command("usbip", commands_found[3])?;
    if !tpm_exists {
        return Err(String::from_str("strict passkey mode requires TPM 2.0 at /dev/tpmrm0"));
    }
    match tpm_open {
        Ok(()) => Ok(()),
        Err(e) => {
            let mut m = String::from_str("TPM is not accessible in this login session (");
            m.append(e);
            m.append("); log out/in after setup so the tss group becomes active");
            Err(m)
        },
    }
}

pub open spec fn adopt_refusal() -> Seq<char> {
    "passkey adopt needs an existing ~/.local/bin/howdy-bridge and TPM-sealed ~/.config/howdy-passkey-bridge/vault.key.tpm; use irauthctl passkey install"@
}

/// Adopting an existing bridge needs its binary and its TPM-sealed vault key; adoption
/// never builds or seals anything itself.
pub fn check_adoptable(binary: bool, sealed: bool) -> (r: Result<(), String>)
    ensures
        r is Ok <==> binary && sealed,
        r matches Err(e) ==> e@ == adopt_refusal(),
{
    if binary && sealed {
        Ok(())
    } else {
        Err(
            String::from_str(
                "passkey adopt needs an existing ~/.local/bin/howdy-bridge and TPM-sealed ~/.config/howdy-passkey-bridge/vault.key.tpm; use irauthctl passkey install",
            ),
        )
    }
}

/// A subcommand of `irauthctl passkey`.
#[derive(Debug, Clone, Copy, PartialEq, Eq, Structural)]
pub enum PasskeyCommand {
    Adopt,
    Install,
    Start,
    Stop,
    Status,
    Test,
    Usage,
}

/// The subcommand named by the first argument; anything else asks for the usage text.
pub fn parse_passkey_command(first: Option<&str>) -> (r: PasskeyCommand)
    ensures
        r == (match first {
            Some(a) => if a@ == "adopt"@ {
                PasskeyCommand::Adopt
            } else if a@ == "install"@ {
                PasskeyCommand::Install
            } else if a@ == "start"@ {
                PasskeyCommand::Start
            } else if a@ == "stop"@ {
                PasskeyCommand::Stop
            } else if a@ == "status"@ {
                PasskeyCommand::Status
            } else if a@ == "test"@ {
                PasskeyCommand::Test
            } else {
                PasskeyCommand::Usage
            },
            None => PasskeyCommand::Usage,
        }),
{
    match first {
        Some(a) => {
            let s = String::from_str(a);
            if s == String::from_str("adopt") {
                PasskeyCommand::Adopt
            } else if s == String::from_str("install") {
                PasskeyCommand::Install
            } else if s == String::from_str("start") {
                PasskeyCommand::Start
            } else if s == String::from_str("stop") {
                PasskeyCommand::Stop
            } else if s == String::from_str("status") {
                PasskeyCommand::Status
            } else if s == String::from_str("test") {
                PasskeyCommand::Test
            } else {
                PasskeyCommand::Usage
            }
        },
        None => PasskeyCommand::Usage,
    }
}

// ---------------------------------------------------------------------------------------
// Laws
// ---------------------------------------------------------------------------------------

/// The first item starts the joined text.
proof fn lemma_join_comma_starts(items: Seq<Seq<char>>)
    requires
        items.len() > 0,
    ensures
        starts_with(join_comma(items), items[0]),
    decreases items.len(),
{
    if items.len() > 1 {
        let init = items.drop_last();
        lemma_join_comma_starts(init);
        let j = join_comma(init);
        assert((j + ", "@ + items.last()).take(items[0].len() as int) =~= j.take(
            items[0].len() as int,
        ));
    } else {
        assert(join_comma(items).take(items[0].len() as int) =~= items[0]);
    }
}

/// The last item ends the joined text.
proof fn lemma_join_comma_ends(items: Seq<Seq<char>>)
    requires
        items.len() > 0,
    ensures
        ends_with(join_comma(items), items.last()),
{
    let j = join_comma(items);
    let l = items.last();
    if items.len() > 1 {
        let pre = join_comma(items.drop_last()) + ", "@;
        assert(j == pre + l);
        assert(j.skip(j.len() - l.len()) =~= l);
    } else {
        assert(j.skip(j.len() - l.len()) =~= l);
    }
}

/// The bridge is ready exactly when its binary, its sealed key and its unit exist and the
/// service runs. A ready bridge says so; otherwise the detail starts with `missing: `,
/// names the binary first when it is missing, and ends with the running service when the
/// service is not active.
pub proof fn lemma_diagnosis_reports_what_is_missing(
    binary: bool,
    sealed: bool,
    unit: bool,
    active: bool,
)
    ensures
        spec_diagnosis(binary, sealed, unit, active).0 <==> (binary && sealed && unit && active),
        spec_diagnosis(binary, sealed, unit, active).0 ==> spec_diagnosis(
            binary,
            sealed,
            unit,
            active,
        ).1 == "TPM-backed bridge active"@,
        !spec_diagnosis(binary, sealed, unit, active).0 ==> starts_with(
            spec_diagnosis(binary, sealed, unit, active).1,
            "missing: "@,
        ),
        !binary ==> starts_with(
            spec_diagnosis(binary, sealed, unit, active).1,
            "missing: "@ + "bridge binary"@,
        ),
        !active ==> ends_with(spec_diagnosis(binary, sealed, unit, active).1, "running service"@),
{
    let m = missing_parts(binary, sealed, unit, active);
    let d = spec_diagnosis(binary, sealed, unit, active);
    let pre = "missing: "@;
    if m.len() > 0 {
        assert(d.1 == pre + join_comma(m));
        assert(d.1.take(pre.len() as int) =~= pre);
        lemma_join_comma_ends(m);
        lemma_join_comma_starts(m);
        if !active {
            assert(m.last() == "running service"@);
            let l = m.last();
            assert(d.1.skip(d.1.len() - l.len()) =~= join_comma(m).skip(
                join_comma(m).len() - l.len(),
            ));
        }
        if !binary {
            assert(m[0] == "bridge binary"@);
            let p = pre + m[0];
            assert(d.1.take(p.len() as int) =~= pre + join_comma(m).take(m[0].len() as int));
        }
    }
}

pub open spec fn unit_head() -> Seq<char> {
    "[Unit]\nDescription=IRAuth TPM-backed virtual FIDO2 authenticator\nAfter=graphical-session.target irauthd.service\n\n[Service]\nType=simple\nExecStart="@
}

/// The user unit starts the bridge from its binary with the passkey PAM service and the
/// vault under `config`, restarts it two seconds after a failure, forbids new
/// privileges, and is wanted by the default target: the `[Service]` lines run from
/// `ExecStart` through `Restart=on-failure`, `RestartSec=2` and `NoNewPrivileges=true`,
/// followed by the `[Install]` section.
pub proof fn lemma_unit_file_restarts_on_failure(binary: Seq<char>, config: Seq<char>)
    ensures
        starts_with(spec_unit_file(binary, config), "[Unit]\n"@),
        occurs_at(
            spec_unit_file(binary, config),
            "\n[Service]\nType=simple\nExecStart="@ + binary
                + " --pam-service irauth-passkey --vault "@ + config
                + "/vault.json\nRestart=on-failure\nRestartSec=2\nNoNewPrivileges=true\n"@,
            unit_head().len() - 33,
        ),
        ends_with(spec_unit_file(binary, config), "\n[Install]\nWantedBy=default.target\n"@),
{
    reveal_strlit(
        "[Unit]\nDescription=IRAuth TPM-backed virtual FIDO2 authenticator\nAfter=graphical-session.target irauthd.service\n\n[Service]\nType=simple\nExecStart=",
    );
    reveal_strlit(
        "/vault.json\nRestart=on-failure\nRestartSec=2\nNoNewPrivileges=true\n\n[Install]\nWantedBy=default.target\n",
    );
    reveal_strlit("[Unit]\n");
    reveal_strlit("\n[Service]\nType=simple\nExecStart=");
    reveal_strlit("/vault.json\nRestart=on-failure\nRestartSec=2\nNoNewPrivileges=true\n");
    reveal_strlit("\n[Install]\nWantedBy=default.target\n");
    let u = spec_unit_file(binary, config);
    let h = unit_head();
    let mid = " --pam-service irauth-passkey --vault "@;
    let tail = "/vault.json\nRestart=on-failure\nRestartSec=2\nNoNewPrivileges=true\n\n[Install]\nWantedBy=default.target\n"@;
    assert(u == h + binary + mid + config + tail);
    assert(u.take(7) =~= "[Unit]\n"@);
    let svc = "\n[Service]\nType=simple\nExecStart="@;
    let t1 = "/vault.json\nRestart=on-failure\nRestartSec=2\nNoNewPrivileges=true\n"@;
    let p = svc + binary + mid + config + t1;
    let i = h.len() - 33;
    assert(h.subrange(i, h.len() as int) =~= svc);
    assert(tail.take(t1.len() as int) =~= t1);
    assert(u.subrange(i, i + p.len()) =~= p);
    let e = "\n[Install]\nWantedBy=default.target\n"@;
    assert(tail.skip(tail.len() - e.len()) =~= e);
    assert(u.skip(u.len() - e.len()) =~= e);
}

} // verus!
