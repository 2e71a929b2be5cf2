//! The control utility's decisions: its command line, the user and service names it
//! accepts, the files a PAM transaction creates, and when the daemon counts as ready.
use vstd::prelude::*;
use crate::hardware::{Evidence, VideoDevice};
use crate::passkey::{join_comma, join_comma_strings};
use crate::pam::{is_approval, spec_is_approval};
use crate::text::{decimal, push_decimal};
use crate::howdy::{first_present, is_absolute_path, select_first, spec_is_absolute};
use crate::text::{
    chars_of, contains_seq, ends_with, is_alnum, is_ascii_alnum, lex_less, lex_lt,
    lemma_lex_asym, lemma_lex_lt_le, push_char, range_contains, range_ends_with,
    range_starts_with, starts_with, trim, trim_bounds, string_from_range, unlines,
};

verus! {

// ---------------------------------------------------------------------------------------
// Names
// ---------------------------------------------------------------------------------------

pub open spec fn is_user_char(c: char) -> bool {
    is_ascii_alnum(c) || c == '_' || c == '-' || c == '.'
}

pub open spec fn is_service_char(c: char) -> bool {
    is_ascii_alnum(c) || c == '_' || c == '-'
}

/// A user name the control utility accepts: non-empty, ASCII letters, digits, `_`, `-`,
/// `.`.
pub open spec fn spec_valid_user(u: Seq<char>) -> bool {
    u.len() > 0 && forall|i: int| 0 <= i < u.len() ==> is_user_char(#[trigger] u[i])
}

/// A PAM service name: non-empty, ASCII letters, digits, `_`, `-`.
pub open spec fn spec_valid_service(s: Seq<char>) -> bool {
    s.len() > 0 && forall|i: int| 0 <= i < s.len() ==> is_service_char(#[trigger] s[i])
}

/// Checks a user name; the error is `invalid user name`.
pub fn validate_user(user: &str) -> (r: Result<String, String>)
    ensures
        r is Ok <==> spec_valid_user(user@),
        r matches Ok(u) ==> u@ == user@,
        r matches Err(e) ==> e@ == "invalid user name"@,
{
    let v = chars_of(user);
    if v.len() == 0 {
        return Err(String::from_str("invalid user name"));
    }
    let mut i: usize = 0;
    while i < v.len()
        invariant
            i <= v@.len(),
            v@ == user@,
            forall|j: int| 0 <= j < i ==> is_user_char(#[trigger] v@[j]),
        decreases v@.len() - i,
    {
        let c = v[i];
        if !(is_alnum(c) || c == '_' || c == '-' || c == '.') {
            assert(!is_user_char(v@[i as int]));
            return Err(String::from_str("invalid user name"));
        }
        i = i + 1;
    }
    Ok(String::from_str(user))
}

/// Checks a PAM service name; the error is `invalid PAM service name`.
pub fn validate_service_name(service: &str) -> (r: Result<(), String>)
    ensures
        r is Ok <==> spec_valid_service(service@),
        r matches Err(e) ==> e@ == "invalid PAM service name"@,
{
    let v = chars_of(service);
    if v.len() == 0 {
        return Err(String::from_str("invalid PAM service name"));
    }
    let mut i: usize = 0;
    while i < v.len()
        invariant
            i <= v@.len(),
            v@ == service@,
            forall|j: int| 0 <= j < i ==> is_service_char(#[trigger] v@[j]),
        decreases v@.len() - i,
    {
        let c = v[i];
        if !(is_alnum(c) || c == '_' || c == '-') {
            assert(!is_service_char(v@[i as int]));
            return Err(String::from_str("invalid PAM service name"));
        }
        i = i + 1;
    }
    Ok(())
}

/// The user a command acts for: the one given, else the invoking user behind `sudo`
/// (unless that is root), else `$USER` (empty when unset).
pub open spec fn spec_target_user(
    explicit: Option<Seq<char>>,
    sudo_user: Option<Seq<char>>,
    user: Option<Seq<char>>,
) -> Seq<char> {
    match explicit {
        Some(u) => u,
        None => match sudo_user {
            Some(s) => if s != "root"@ {
                s
            } else {
                match user {
                    Some(u) => u,
                    None => Seq::empty(),
                }
            },
            None => match user {
                Some(u) => u,
                None => Seq::empty(),
            },
        },
    }
}

pub open spec fn opt_str(o: Option<&str>) -> Option<Seq<char>> {
    match o {
        Some(s) => Some(s@),
        None => None,
    }
}

pub fn target_user(explicit: Option<&str>, sudo_user: Option<&str>, user: Option<&str>) -> (r:
    Result<String, String>)
    ensures
        r is Ok <==> spec_valid_user(spec_target_user(opt_str(explicit), opt_str(sudo_user), opt_str(user))),
        r matches Ok(u) ==> u@ == spec_target_user(opt_str(explicit), opt_str(sudo_user), opt_str(user)),
        r matches Err(e) ==> e@ == "invalid user name"@,
{
    if let Some(u) = explicit {
        return validate_user(u);
    }
    let fallback = match user {
        Some(u) => u,
        None => "",
    };
    assert(""@ =~= Seq::<char>::empty()) by {
        reveal_strlit("");
    }
    match sudo_user {
        Some(s) => {
            let root = String::from_str("root");
            let sv = String::from_str(s);
            if sv == root {
                validate_user(fallback)
            } else {
                validate_user(s)
            }
        },
        None => validate_user(fallback),
    }
}

// ---------------------------------------------------------------------------------------
// Transaction files
// ---------------------------------------------------------------------------------------

pub open spec fn bak_suffix() -> Seq<char> {
    ".irauth.bak"@
}

/// The backup of a PAM service file or of Howdy's `config.ini`: `<path>.irauth.bak`.
pub fn pam_backup_path(path: &str) -> (r: String)
    ensures
        r@ == path@ + bak_suffix(),
{
    let mut s = String::from_str(path);
    s.append(".irauth.bak");
    s
}

/// The temporary file Howdy's `config.ini` is written through: `<path>.irauth.tmp`.
pub fn config_temp_path(path: &str) -> (r: String)
    ensures
        r@ == path@ + ".irauth.tmp"@,
{
    let mut s = String::from_str(path);
    s.append(".irauth.tmp");
    s
}

pub open spec fn bak_chars() -> Seq<char> {
    seq!['.', 'i', 'r', 'a', 'u', 't', 'h', '.', 'b', 'a', 'k']
}

pub open spec fn irauth_infix() -> Seq<char> {
    seq!['.', 'i', 'r', 'a', 'u', 't', 'h', '.']
}

pub open spec fn tmp_chars() -> Seq<char> {
    seq!['.', 't', 'm', 'p']
}

/// A backup or temporary file of an IRAuth PAM transaction.
pub open spec fn spec_is_transaction_artifact(name: Seq<char>) -> bool {
    ends_with(name, bak_chars()) || (contains_seq(name, irauth_infix()) && ends_with(
        name,
        tmp_chars(),
    ))
}

pub fn is_transaction_artifact(name: &str) -> (r: bool)
    ensures
        r == spec_is_transaction_artifact(name@),
{
    let v = chars_of(name);
    let n = v.len();
    assert(v@.subrange(0, n as int) =~= v@);
    let bak: [char; 11] = ['.', 'i', 'r', 'a', 'u', 't', 'h', '.', 'b', 'a', 'k'];
    let inf: [char; 8] = ['.', 'i', 'r', 'a', 'u', 't', 'h', '.'];
    let tmp: [char; 4] = ['.', 't', 'm', 'p'];
    assert(bak@ =~= bak_chars());
    assert(inf@ =~= irauth_infix());
    assert(tmp@ =~= tmp_chars());
    range_ends_with(&v, 0, n, &bak) || (range_contains(&v, 0, n, &inf) && range_ends_with(
        &v,
        0,
        n,
        &tmp,
    ))
}

/// A file a rollback removes: a transaction artifact that was not there when the
/// snapshot was taken. Each entry is a path and its file name.
pub open spec fn stale_artifact(before: Seq<Seq<char>>, e: (Seq<char>, Seq<char>)) -> bool {
    !before.contains(e.0) && spec_is_transaction_artifact(e.1)
}

pub open spec fn entries_view(v: Seq<(String, String)>) -> Seq<(Seq<char>, Seq<char>)> {
    v.map_values(|e: (String, String)| (e.0@, e.1@))
}

fn contains_text(v: &Vec<String>, s: &String) -> (r: bool)
    ensures
        r == strings_view(v@).contains(s@),
{
    let mut i: usize = 0;
    while i < v.len()
        invariant
            i <= v@.len(),
            forall|j: int| 0 <= j < i ==> #[trigger] v@[j]@ != s@,
        decreases v@.len() - i,
    {
        if v[i] == *s {
            assert(strings_view(v@)[i as int] == s@);
            return true;
        }
        i = i + 1;
    }
    assert(!strings_view(v@).contains(s@)) by {
        if strings_view(v@).contains(s@) {
            let j = choose|j: int| 0 <= j < strings_view(v@).len() && strings_view(v@)[j] == s@;
            assert(v@[j]@ == s@);
        }
    }
    false
}

/// The paths a rollback removes: of the PAM directory's current entries (path and file
/// name), the transaction artifacts whose path was not in the snapshot, in order.
pub fn rollback_removals(before: &Vec<String>, now: &Vec<(String, String)>) -> (r: Vec<String>)
    ensures
        strings_view(r@) == entries_view(now@).filter(
            |e: (Seq<char>, Seq<char>)| stale_artifact(strings_view(before@), e),
        ).map_values(|e: (Seq<char>, Seq<char>)| e.0),
{
    let ghost b = strings_view(before@);
    let ghost pred = |e: (Seq<char>, Seq<char>)| stale_artifact(b, e);
    let ghost all = entries_view(now@);
    let ghost fst = |e: (Seq<char>, Seq<char>)| e.0;
    let mut out: Vec<String> = Vec::new();
    let mut i: usize = 0;
    assert(all.take(0).filter(pred) =~= Seq::<(Seq<char>, Seq<char>)>::empty());
    assert(strings_view(out@) =~= all.take(0).filter(pred).map_values(fst));
    while i < now.len()
        invariant
            i <= now@.len(),
            b == strings_view(before@),
            all == entries_view(now@),
            pred == (|e: (Seq<char>, Seq<char>)| stale_artifact(b, e)),
            fst == (|e: (Seq<char>, Seq<char>)| e.0),
            strings_view(out@) == all.take(i as int).filter(pred).map_values(fst),
        decreases now@.len() - i,
    {
        let (path, name) = &now[i];
        proof {
            assert(all.take(i + 1) =~= all.take(i as int).push(all[i as int]));
            all.take(i as int).lemma_filter_push(all[i as int], pred);
            assert(all[i as int] == (path@, name@));
        }
        let ghost prev = strings_view(out@);
        let stale = !contains_text(before, path) && is_transaction_artifact(name.as_str());
        assert(stale == pred(all[i as int]));
        if stale {
            out.push(path.clone());
            assert(strings_view(out@) =~= prev.push(path@));
            assert(all.take(i + 1).filter(pred) == all.take(i as int).filter(pred).push(all[i as int]));
            assert(all.take(i + 1).filter(pred).map_values(fst) =~= all.take(i as int).filter(pred).map_values(fst).push(path@));
        }
        i = i + 1;
    }
    assert(all.take(i as int) =~= all);
    out
}

/// A rollback never removes a file that was in the snapshot, nor one that is not a
/// transaction artifact: every path it removes is such an artifact, new since the
/// snapshot.
pub proof fn lemma_rollback_keeps_snapshot_files(
    before: Seq<Seq<char>>,
    now: Seq<(Seq<char>, Seq<char>)>,
    k: int,
)
    requires
        0 <= k < now.filter(|e: (Seq<char>, Seq<char>)| stale_artifact(before, e)).len(),
    ensures
        ({
            let e = now.filter(|e: (Seq<char>, Seq<char>)| stale_artifact(before, e))[k];
            &&& !before.contains(e.0)
            &&& spec_is_transaction_artifact(e.1)
            &&& now.contains(e)
        }),
{
    let pred = |e: (Seq<char>, Seq<char>)| stale_artifact(before, e);
    now.lemma_filter_pred(pred, k);
    now.lemma_filter_contains_rev(pred, now.filter(pred)[k]);
}

pub open spec fn strings_view(v: Seq<String>) -> Seq<Seq<char>> {
    v.map_values(|s: String| s@)
}

/// A file of the PAM directory that migration looks at: one of the selected services,
/// and not an IRAuth service or backup.
pub open spec fn spec_migration_candidate(name: Seq<char>, selected: Seq<Seq<char>>) -> bool {
    !starts_with(name, seq!['i', 'r', 'a', 'u', 't', 'h', '-']) && !ends_with(name, bak_chars())
        && selected.contains(name)
}

pub fn migration_candidate(name: &str, selected: &Vec<String>) -> (r: bool)
    ensures
        r == spec_migration_candidate(name@, strings_view(selected@)),
{
    let v = chars_of(name);
    let n = v.len();
    assert(v@.subrange(0, n as int) =~= v@);
    let pre: [char; 7] = ['i', 'r', 'a', 'u', 't', 'h', '-'];
    let bak: [char; 11] = ['.', 'i', 'r', 'a', 'u', 't', 'h', '.', 'b', 'a', 'k'];
    assert(pre@ =~= seq!['i', 'r', 'a', 'u', 't', 'h', '-']);
    assert(bak@ =~= bak_chars());
    if range_starts_with(&v, 0, n, &pre) || range_ends_with(&v, 0, n, &bak) {
        return false;
    }
    let s = String::from_str(name);
    let mut i: usize = 0;
    while i < selected.len()
        invariant
            i <= selected@.len(),
            s@ == name@,
            !starts_with(name@, seq!['i', 'r', 'a', 'u', 't', 'h', '-']),
            !ends_with(name@, bak_chars()),
            forall|j: int| 0 <= j < i ==> #[trigger] selected@[j]@ != name@,
        decreases selected@.len() - i,
    {
        if selected[i] == s {
            assert(strings_view(selected@)[i as int] == name@);
            assert(strings_view(selected@).contains(name@));
            return true;
        }
        i = i + 1;
    }
    assert(!strings_view(selected@).contains(name@)) by {
        if strings_view(selected@).contains(name@) {
            let j = choose|j: int|
                0 <= j < strings_view(selected@).len() && strings_view(selected@)[j] == name@;
            assert(selected@[j]@ == name@);
        }
    }
    false
}

/// Paths in character order.
pub open spec fn texts_sorted(v: Seq<Seq<char>>) -> bool {
    forall|i: int, j: int| 0 <= i < j < v.len() ==> !lex_lt(v[j], v[i])
}

/// The paths in character order (`Path` order for the files of one directory).
pub fn sort_paths(paths: &Vec<String>) -> (r: Vec<String>)
    ensures
        strings_view(r@).to_multiset() == strings_view(paths@).to_multiset(),
        texts_sorted(strings_view(r@)),
{
    let ghost all = strings_view(paths@);
    let mut out: Vec<String> = Vec::new();
    let mut i: usize = 0;
    assert(strings_view(out@) =~= all.take(0));
    while i < paths.len()
        invariant
            i <= paths@.len(),
            all == strings_view(paths@),
            strings_view(out@).to_multiset() == all.take(i as int).to_multiset(),
            texts_sorted(strings_view(out@)),
        decreases paths@.len() - i,
    {
        let ghost old_out = strings_view(out@);
        let x = paths[i].clone();
        let xv = chars_of(x.as_str());
        let mut p: usize = 0;
        while p < out.len() && !lex_less(&xv, &chars_of(out[p].as_str()))
            invariant
                p <= out@.len(),
                xv@ == x@,
                forall|j: int| 0 <= j < p ==> !lex_lt(xv@, #[trigger] out@[j]@),
            decreases out@.len() - p,
        {
            p = p + 1;
        }
        let ghost vx = x@;
        out.insert(p, x);
        proof {
            let no = strings_view(out@);
            assert(no =~= old_out.insert(p as int, vx));
            assert forall|a: int, b: int| 0 <= a < b < no.len() implies !lex_lt(no[b], no[a]) by {
                if b < p {
                    assert(no[a] == old_out[a] && no[b] == old_out[b]);
                } else if b == p {
                    assert(no[a] == old_out[a]);
                    assert(!lex_lt(vx, old_out[a]));
                } else if a > p {
                    assert(no[a] == old_out[a - 1] && no[b] == old_out[b - 1]);
                } else if a == p {
                    assert(no[b] == old_out[b - 1]);
                    assert(lex_lt(vx, old_out[p as int]));
                    if b - 1 > p {
                        assert(!lex_lt(old_out[b - 1], old_out[p as int]));
                        lemma_lex_lt_le(vx, old_out[p as int], old_out[b - 1]);
                    }
                    lemma_lex_asym(vx, no[b]);
                } else {
                    assert(no[a] == old_out[a]);
                    assert(no[b] == old_out[b - 1]);
                }
            }
            assert(vx == all[i as int]);
            assert(all.take(i + 1) =~= all.take(i as int).push(vx));
            vstd::seq_lib::to_multiset_build(all.take(i as int), vx);
            vstd::seq_lib::to_multiset_insert(old_out, p as int, vx);
        }
        i = i + 1;
    }
    assert(all.take(i as int) =~= all);
    out
}

/// The migration manifest: the migrated service files in path order, one per line.
pub fn manifest_content(paths: &Vec<String>) -> (r: String)
    ensures
        exists|sorted: Seq<Seq<char>>|
            sorted.to_multiset() == strings_view(paths@).to_multiset() && texts_sorted(sorted)
                && r@ == unlines(sorted),
{
    let sorted = sort_paths(paths);
    let mut out = String::new();
    let mut i: usize = 0;
    let ghost sv = strings_view(sorted@);
    assert(sv.take(0) =~= Seq::<Seq<char>>::empty());
    while i < sorted.len()
        invariant
            i <= sorted@.len(),
            sv == strings_view(sorted@),
            out@ == unlines(sv.take(i as int)),
        decreases sorted@.len() - i,
    {
        out.append(sorted[i].as_str());
        push_char(&mut out, '\n');
        assert(sv.take(i + 1).drop_last() =~= sv.take(i as int));
        assert(sv.take(i + 1).last() == sorted@[i as int]@);
        i = i + 1;
    }
    assert(sv.take(i as int) =~= sv);
    out
}

// ---------------------------------------------------------------------------------------
// Command line
// ---------------------------------------------------------------------------------------

/// The options of `irauthctl setup`.
pub struct SetupOptions {
    pub user: Option<String>,
    pub camera: Option<String>,
    pub with_login: bool,
    pub allow_no_tpm: bool,
}

pub struct SetupOptionsView {
    pub user: Option<Seq<char>>,
    pub camera: Option<Seq<char>>,
    pub with_login: bool,
    pub allow_no_tpm: bool,
}

pub open spec fn opt_view(o: Option<String>) -> Option<Seq<char>> {
    match o {
        Some(s) => Some(s@),
        None => None,
    }
}

impl View for SetupOptions {
    type V = SetupOptionsView;

    open spec fn view(&self) -> SetupOptionsView {
        SetupOptionsView {
            user: opt_view(self.user),
            camera: opt_view(self.camera),
            with_login: self.with_login,
            allow_no_tpm: self.allow_no_tpm,
        }
    }
}

/// Reads the setup options from position `i` on, given those read so far.
pub open spec fn setup_args_from(args: Seq<Seq<char>>, i: int, st: SetupOptionsView) -> Result<
    SetupOptionsView,
    Seq<char>,
>
    decreases args.len() - i,
{
    if i < 0 || i >= args.len() {
        Ok(st)
    } else if args[i] == "--user"@ {
        if i + 1 < args.len() {
            setup_args_from(args, i + 2, SetupOptionsView { user: Some(args[i + 1]), ..st })
        } else {
            Err("--user requires a value"@)
        }
    } else if args[i] == "--camera"@ {
        if i + 1 < args.len() {
            setup_args_from(args, i + 2, SetupOptionsView { camera: Some(args[i + 1]), ..st })
        } else {
            Err("--camera requires an absolute V4L2 path"@)
        }
    } else if args[i] == "--with-login"@ {
        setup_args_from(args, i + 1, SetupOptionsView { with_login: true, ..st })
    } else if args[i] == "--allow-no-tpm"@ {
        setup_args_from(args, i + 1, SetupOptionsView { allow_no_tpm: true, ..st })
    } else {
        Err("unknown setup option: "@ + args[i])
    }
}

pub open spec fn no_options() -> SetupOptionsView {
    SetupOptionsView { user: None, camera: None, with_login: false, allow_no_tpm: false }
}

pub open spec fn setup_result_view(r: Result<SetupOptions, String>) -> Result<
    SetupOptionsView,
    Seq<char>,
> {
    match r {
        Ok(o) => Ok(o@),
        Err(e) => Err(e@),
    }
}

/// `x` is one of the arguments from position `i` on.
pub open spec fn given_from(args: Seq<Seq<char>>, i: int, x: Seq<char>) -> bool {
    exists|j: int| i <= j < args.len() && #[trigger] args[j] == x
}

/// `v` follows the option `flag` somewhere from position `i` on.
pub open spec fn value_given_from(args: Seq<Seq<char>>, i: int, flag: Seq<char>, v: Seq<char>) -> bool {
    exists|j: int| i <= j && j + 1 < args.len() && #[trigger] args[j] == flag && args[j + 1] == v
}

proof fn lemma_setup_args_fields(args: Seq<Seq<char>>, i: int, st: SetupOptionsView, o: SetupOptionsView)
    requires
        0 <= i,
        setup_args_from(args, i, st) == Ok::<SetupOptionsView, Seq<char>>(o),
    ensures
        o.with_login ==> st.with_login || given_from(args, i, "--with-login"@),
        o.allow_no_tpm ==> st.allow_no_tpm || given_from(args, i, "--allow-no-tpm"@),
        o.user matches Some(u) ==> st.user == Some(u) || value_given_from(args, i, "--user"@, u),
        o.camera matches Some(c) ==> st.camera == Some(c) || value_given_from(
            args,
            i,
            "--camera"@,
            c,
        ),
        o.user is None ==> st.user is None,
        o.camera is None ==> st.camera is None,
    decreases args.len() - i,
{
    if i < args.len() {
        let a = args[i];
        if a == "--user"@ {
            let next = SetupOptionsView { user: Some(args[i + 1]), ..st };
            lemma_setup_args_fields(args, i + 2, next, o);
            if let Some(u) = o.user {
                if next.user == Some(u) {
                    assert(args[i] == "--user"@ && args[i + 1] == u);
                } else {
                    let j = choose|j: int|
                        i + 2 <= j && j + 1 < args.len() && #[trigger] args[j] == "--user"@
                            && args[j + 1] == u;
                }
            }
            if let Some(c) = o.camera {
                if !(st.camera == Some(c)) {
                    let j = choose|j: int|
                        i + 2 <= j && j + 1 < args.len() && #[trigger] args[j] == "--camera"@
                            && args[j + 1] == c;
                }
            }
            if o.with_login && !st.with_login {
                let j = choose|j: int| i + 2 <= j < args.len() && #[trigger] args[j] == "--with-login"@;
            }
            if o.allow_no_tpm && !st.allow_no_tpm {
                let j = choose|j: int| i + 2 <= j < args.len() && #[trigger] args[j] == "--allow-no-tpm"@;
            }
        } else if a == "--camera"@ {
            let next = SetupOptionsView { camera: Some(args[i + 1]), ..st };
            lemma_setup_args_fields(args, i + 2, next, o);
            if let Some(c) = o.camera {
                if next.camera == Some(c) {
                    assert(args[i] == "--camera"@ && args[i + 1] == c);
                } else {
                    let j = choose|j: int|
                        i + 2 <= j && j + 1 < args.len() && #[trigger] args[j] == "--camera"@
                            && args[j + 1] == c;
                }
            }
            if let Some(u) = o.user {
                if !(st.user == Some(u)) {
                    let j = choose|j: int|
                        i + 2 <= j && j + 1 < args.len() && #[trigger] args[j] == "--user"@
                            && args[j + 1] == u;
                }
            }
            if o.with_login && !st.with_login {
                let j = choose|j: int| i + 2 <= j < args.len() && #[trigger] args[j] == "--with-login"@;
            }
            if o.allow_no_tpm && !st.allow_no_tpm {
                let j = choose|j: int| i + 2 <= j < args.len() && #[trigger] args[j] == "--allow-no-tpm"@;
            }
        } else if a == "--with-login"@ {
            let next = SetupOptionsView { with_login: true, ..st };
            lemma_setup_args_fields(args, i + 1, next, o);
            assert(args[i] == "--with-login"@);
            if let Some(u) = o.user {
                if !(st.user == Some(u)) {
                    let j = choose|j: int|
                        i + 1 <= j && j + 1 < args.len() && #[trigger] args[j] == "--user"@
                            && args[j + 1] == u;
                }
            }
            if let Some(c) = o.camera {
                if !(st.camera == Some(c)) {
                    let j = choose|j: int|
                        i + 1 <= j && j + 1 < args.len() && #[trigger] args[j] == "--camera"@
                            && args[j + 1] == c;
                }
            }
            if o.allow_no_tpm && !st.allow_no_tpm {
                let j = choose|j: int| i + 1 <= j < args.len() && #[trigger] args[j] == "--allow-no-tpm"@;
            }
        } else if a == "--allow-no-tpm"@ {
            let next = SetupOptionsView { allow_no_tpm: true, ..st };
            lemma_setup_args_fields(args, i + 1, next, o);
            assert(args[i] == "--allow-no-tpm"@);
            if let Some(u) = o.user {
                if !(st.user == Some(u)) {
                    let j = choose|j: int|
                        i + 1 <= j && j + 1 < args.len() && #[trigger] args[j] == "--user"@
                            && args[j + 1] == u;
                }
            }
            if let Some(c) = o.camera {
                if !(st.camera == Some(c)) {
                    let j = choose|j: int|
                        i + 1 <= j && j + 1 < args.len() && #[trigger] args[j] == "--camera"@
                            && args[j + 1] == c;
                }
            }
            if o.with_login && !st.with_login {
                let j = choose|j: int| i + 1 <= j < args.len() && #[trigger] args[j] == "--with-login"@;
            }
        }
    }
}

/// Each option sets only its own field: `--with-login` and `--allow-no-tpm` are set only
/// when given, and the user and camera are set only to the value that follows their
/// option.
pub proof fn lemma_setup_options_set_only_their_own_field(args: Seq<Seq<char>>)
    ensures
        setup_args_from(args, 0, no_options()) matches Ok(o) ==> {
            &&& o.with_login ==> given_from(args, 0, "--with-login"@)
            &&& o.allow_no_tpm ==> given_from(args, 0, "--allow-no-tpm"@)
            &&& o.user matches Some(u) ==> value_given_from(args, 0, "--user"@, u)
            &&& o.camera matches Some(c) ==> value_given_from(args, 0, "--camera"@, c)
        },
{
    if let Ok(o) = setup_args_from(args, 0, no_options()) {
        lemma_setup_args_fields(args, 0, no_options(), o);
    }
}

/// Parses the arguments of `irauthctl setup`.
pub fn parse_setup_args(args: &Vec<String>) -> (r: Result<SetupOptions, String>)
    ensures
        setup_result_view(r) == setup_args_from(strings_view(args@), 0, no_options()),
{
    let ghost a = strings_view(args@);
    let user_flag = String::from_str("--user");
    let camera_flag = String::from_str("--camera");
    let login_flag = String::from_str("--with-login");
    let tpm_flag = String::from_str("--allow-no-tpm");
    let mut opts = SetupOptions { user: None, camera: None, with_login: false, allow_no_tpm: false };
    let mut i: usize = 0;
    while i < args.len()
        invariant
            i <= args@.len(),
            a == strings_view(args@),
            user_flag@ == "--user"@,
            camera_flag@ == "--camera"@,
            login_flag@ == "--with-login"@,
            tpm_flag@ == "--allow-no-tpm"@,
            setup_args_from(a, 0, no_options()) == setup_args_from(a, i as int, opts@),
        decreases args@.len() - i,
    {
        assert(a[i as int] == args@[i as int]@);
        if args[i] == user_flag {
            if i + 1 < args.len() {
                assert(a[i + 1] == args@[i + 1]@);
                opts.user = Some(args[i + 1].clone());
                i = i + 2;
            } else {
                return Err(String::from_str("--user requires a value"));
            }
        } else if args[i] == camera_flag {
            if i + 1 < args.len() {
                assert(a[i + 1] == args@[i + 1]@);
                opts.camera = Some(args[i + 1].clone());
                i = i + 2;
            } else {
                return Err(String::from_str("--camera requires an absolute V4L2 path"));
            }
        } else if args[i] == login_flag {
            opts.with_login = true;
            i = i + 1;
        } else if args[i] == tpm_flag {
            opts.allow_no_tpm = true;
            i = i + 1;
        } else {
            let mut e = String::from_str("unknown setup option: ");
            e.append(args[i].as_str());
            return Err(e);
        }
    }
    Ok(opts)
}

/// The PAM services setup routes through IRAuth: `sudo`, `polkit-1` when present, and
/// `gdm-password` only when asked for and present.
pub fn selected_services(polkit_exists: bool, with_login: bool, gdm_exists: bool) -> (r: Vec<
    String,
>)
    ensures
        strings_view(r@) == seq!["sudo"@] + (if polkit_exists {
            seq!["polkit-1"@]
        } else {
            Seq::empty()
        }) + (if with_login && gdm_exists {
            seq!["gdm-password"@]
        } else {
            Seq::empty()
        }),
{
    let mut r: Vec<String> = Vec::new();
    r.push(String::from_str("sudo"));
    if polkit_exists {
        r.push(String::from_str("polkit-1"));
    }
    if with_login && gdm_exists {
        r.push(String::from_str("gdm-password"));
    }
    assert(strings_view(r@) =~= seq!["sudo"@] + (if polkit_exists {
        seq!["polkit-1"@]
    } else {
        Seq::empty()
    }) + (if with_login && gdm_exists {
        seq!["gdm-password"@]
    } else {
        Seq::empty()
    }));
    r
}

/// What to do after one readiness probe of the daemon.
pub enum Readiness {
    /// The daemon answered `PONG`.
    Ready,
    /// Probe again; the text says what went wrong this time.
    Retry(String),
    /// Stop; the text says what went wrong last.
    GiveUp(String),
}

pub open spec fn pong_word() -> Seq<char> {
    seq!['P', 'O', 'N', 'G']
}

/// The error text of one probe: `unexpected daemon response: <trimmed answer>`, or the
/// connection error.
pub open spec fn probe_error(answer: Result<Seq<char>, Seq<char>>) -> Seq<char> {
    match answer {
        Ok(a) => "unexpected daemon response: "@ + trim(a),
        Err(e) => e,
    }
}

/// Ready on an answer starting with `PONG`; otherwise retry until the time is up.
pub fn readiness_step(answer: Result<&str, &str>, timed_out: bool) -> (r: Readiness)
    ensures
        match answer {
            Ok(a) if starts_with(a@, pong_word()) => r is Ready,
            _ => match r {
                Readiness::Ready => false,
                Readiness::Retry(e) => !timed_out && e@ == probe_error(
                    match answer {
                        Ok(a) => Ok(a@),
                        Err(e) => Err(e@),
                    },
                ),
                Readiness::GiveUp(e) => timed_out && e@ == probe_error(
                    match answer {
                        Ok(a) => Ok(a@),
                        Err(e) => Err(e@),
                    },
                ),
            },
        },
{
    let error = match answer {
        Ok(a) => {
            let v = chars_of(a);
            let n = v.len();
            assert(v@.subrange(0, n as int) =~= v@);
            if range_starts_with(&v, 0, n, &['P', 'O', 'N', 'G']) {
                return Readiness::Ready;
            }
            let mut e = String::from_str("unexpected daemon response: ");
            let (lo, hi) = trim_bounds(&v, 0, n);
            let t = string_from_range(&v, lo, hi);
            e.append(t.as_str());
            e
        },
        Err(msg) => String::from_str(msg),
    };
    if timed_out {
        Readiness::GiveUp(error)
    } else {
        Readiness::Retry(error)
    }
}

// ---------------------------------------------------------------------------------------
// Reports
// ---------------------------------------------------------------------------------------

/// How `irauthctl hardware` names each kind of evidence.
pub fn evidence_label(e: Evidence) -> (r: &'static str)
    ensures
        r@ == (match e {
            Evidence::IrName => "IR name"@,
            Evidence::DepthName => "depth name"@,
            Evidence::VerifiedUsbId => "verified USB ID"@,
            Evidence::NotAccepted => "not accepted"@,
        }),
{
    match e {
        Evidence::IrName => "IR name",
        Evidence::DepthName => "depth name",
        Evidence::VerifiedUsbId => "verified USB ID",
        Evidence::NotAccepted => "not accepted",
    }
}


/// How `irauthctl hardware` shows a device's USB selector: `id@interface`, the bare id
/// when no interface is known, `-` when no id is.
pub fn usb_label(usb_id: &Option<String>, usb_interface: &Option<String>) -> (r: String)
    ensures
        r@ == (match (opt_view(*usb_id), opt_view(*usb_interface)) {
            (Some(id), Some(iface)) => id + "@"@ + iface,
            (Some(id), None) => id,
            _ => "-"@,
        }),
{
    match (usb_id, usb_interface) {
        (Some(id), Some(iface)) => {
            let mut s = id.clone();
            s.append("@");
            s.append(iface.as_str());
            s
        },
        (Some(id), None) => id.clone(),
        _ => String::from_str("-"),
    }
}

// ---------------------------------------------------------------------------------------
// Camera and module
// ---------------------------------------------------------------------------------------

pub open spec fn not_strict_message(p: Seq<char>) -> Seq<char> {
    p + " is not a strict IR/depth camera"@
}

pub open spec fn ambiguous_camera_message() -> Seq<char> {
    "multiple strict IR/depth nodes detected and Howdy is not already bound to one; rerun setup with --camera /dev/videoN"@
}

/// The camera setup binds: the one asked for, which must be an absolute path of a strict
/// device; else the one Howdy already uses, when it is strict; else the only strict
/// device.
pub open spec fn spec_select_camera(
    explicit: Option<Seq<char>>,
    explicit_strict: bool,
    current: Option<Seq<char>>,
    current_strict: bool,
    strict_nodes: Seq<Seq<char>>,
) -> Result<Seq<char>, Seq<char>> {
    match explicit {
        Some(p) => if !spec_is_absolute(p) {
            Err("--camera must be an absolute path"@)
        } else if !explicit_strict {
            Err(not_strict_message(p))
        } else {
            Ok(p)
        },
        None => if current is Some && current_strict {
            Ok(current->0)
        } else if strict_nodes.len() == 1 {
            Ok(strict_nodes[0])
        } else {
            Err(ambiguous_camera_message())
        },
    }
}

/// Setup binds only a strict camera: the one asked for when it is strict, the one Howdy
/// already uses when it is strict, or the only strict device.
pub proof fn lemma_selected_camera_is_strict(
    explicit: Option<Seq<char>>,
    explicit_strict: bool,
    current: Option<Seq<char>>,
    current_strict: bool,
    strict_nodes: Seq<Seq<char>>,
    p: Seq<char>,
)
    requires
        spec_select_camera(explicit, explicit_strict, current, current_strict, strict_nodes)
            == Ok::<Seq<char>, Seq<char>>(p),
    ensures
        (explicit == Some(p) && explicit_strict) || (explicit is None && current == Some(p)
            && current_strict) || (explicit is None && strict_nodes.len() == 1 && p
            == strict_nodes[0]),
{
}

pub open spec fn result_view(r: Result<String, String>) -> Result<Seq<char>, Seq<char>> {
    match r {
        Ok(s) => Ok(s@),
        Err(e) => Err(e@),
    }
}

pub open spec fn nodes_of(v: Seq<VideoDevice>) -> Seq<Seq<char>> {
    v.map_values(|d: VideoDevice| d.node@)
}

/// Chooses the camera to bind. `explicit_strict` says whether the path asked for is a
/// strict device (it is looked at only for an absolute path), `current` is the camera
/// Howdy is configured with and `current_strict` whether it is strict; `strict` are the
/// strict devices.
pub fn select_camera(
    explicit: Option<&str>,
    explicit_strict: bool,
    current: Option<&str>,
    current_strict: bool,
    strict: &Vec<VideoDevice>,
) -> (r: Result<String, String>)
    ensures
        result_view(r) == spec_select_camera(
            opt_str(explicit),
            explicit_strict,
            opt_str(current),
            current_strict,
            nodes_of(strict@),
        ),
{
    if let Some(path) = explicit {
        if !is_absolute_path(path) {
            return Err(String::from_str("--camera must be an absolute path"));
        }
        if !explicit_strict {
            let mut e = String::from_str(path);
            e.append(" is not a strict IR/depth camera");
            return Err(e);
        }
        return Ok(String::from_str(path));
    }
    if let Some(c) = current {
        if current_strict {
            return Ok(String::from_str(c));
        }
    }
    if strict.len() == 1 {
        return Ok(strict[0].node.clone());
    }
    Err(
        String::from_str(
            "multiple strict IR/depth nodes detected and Howdy is not already bound to one; rerun setup with --camera /dev/videoN",
        ),
    )
}

pub open spec fn no_strict_camera_message() -> Seq<char> {
    "no strict IR/depth camera detected; add a verified VID:PID@IFACE to /etc/irauth/hardware.ids only after confirming the hardware is truly IR/depth"@
}

/// Setup stops unless at least one strict IR/depth device exists.
pub fn require_strict_camera(strict: &Vec<VideoDevice>) -> (r: Result<(), String>)
    ensures
        r is Ok <==> strict@.len() > 0,
        r matches Err(e) ==> e@ == no_strict_camera_message(),
{
    if strict.len() == 0 {
        Err(
            String::from_str(
                "no strict IR/depth camera detected; add a verified VID:PID@IFACE to /etc/irauth/hardware.ids only after confirming the hardware is truly IR/depth",
            ),
        )
    } else {
        Ok(())
    }
}

/// What setup requires once the camera is chosen, checked in this order: a TPM (unless
/// waived), the installed PAM module, Howdy, and pamtester.
pub open spec fn spec_setup_prerequisites(
    tpm_present: bool,
    allow_no_tpm: bool,
    pam_module: bool,
    howdy: bool,
    pamtester: bool,
) -> Result<(), Seq<char>> {
    if !tpm_present && !allow_no_tpm {
        Err(
            "TPM 2.0 is required by strict setup; use --allow-no-tpm only for PAM-only evaluation (passkeys stay disabled)"@,
        )
    } else if !pam_module {
        Err("pam_irauth.so is not installed; run the IRAuth installer/package before setup"@)
    } else if !howdy {
        Err(
            "Howdy is not installed; IRAuth v0.1 deliberately uses Howdy as its recognition backend"@,
        )
    } else if !pamtester {
        Err("pamtester is not installed"@)
    } else {
        Ok(())
    }
}

pub open spec fn unit_result_view(r: Result<(), String>) -> Result<(), Seq<char>> {
    match r {
        Ok(()) => Ok(()),
        Err(e) => Err(e@),
    }
}

pub fn setup_prerequisites(
    tpm_present: bool,
    allow_no_tpm: bool,
    pam_module: bool,
    howdy: bool,
    pamtester: bool,
) -> (r: Result<(), String>)
    ensures
        unit_result_view(r) == spec_setup_prerequisites(
            tpm_present,
            allow_no_tpm,
            pam_module,
            howdy,
            pamtester,
        ),
{
    if !tpm_present && !allow_no_tpm {
        return Err(
            String::from_str(
                "TPM 2.0 is required by strict setup; use --allow-no-tpm only for PAM-only evaluation (passkeys stay disabled)",
            ),
        );
    }
    if !pam_module {
        return Err(
            String::from_str(
                "pam_irauth.so is not installed; run the IRAuth installer/package before setup",
            ),
        );
    }
    if !howdy {
        return Err(
            String::from_str(
                "Howdy is not installed; IRAuth v0.1 deliberately uses Howdy as its recognition backend",
            ),
        );
    }
    if !pamtester {
        return Err(String::from_str("pamtester is not installed"));
    }
    Ok(())
}

/// Howdy is rebound unless it already uses the selected camera.
pub fn needs_binding(current: Option<&str>, selected: &str) -> (r: bool)
    ensures
        r <==> opt_str(current) != Some(selected@),
{
    match current {
        Some(c) => {
            let a = String::from_str(c);
            let b = String::from_str(selected);
            !(a == b)
        },
        None => true,
    }
}

/// Where the IRAuth PAM module may be installed, in the order looked at.
pub open spec fn pam_module_locations() -> Seq<Seq<char>> {
    seq![
        "/usr/lib64/security/pam_irauth.so"@,
        "/usr/lib/x86_64-linux-gnu/security/pam_irauth.so"@,
        "/lib/security/pam_irauth.so"@,
    ]
}

/// The candidate locations of the IRAuth PAM module.
pub fn pam_module_candidates() -> (r: Vec<String>)
    ensures
        crate::howdy::strings_view(r) == pam_module_locations(),
{
    let mut cands: Vec<String> = Vec::new();
    cands.push(String::from_str("/usr/lib64/security/pam_irauth.so"));
    cands.push(String::from_str("/usr/lib/x86_64-linux-gnu/security/pam_irauth.so"));
    cands.push(String::from_str("/lib/security/pam_irauth.so"));
    assert(crate::howdy::strings_view(cands) =~= pam_module_locations());
    cands
}

/// The installed IRAuth PAM module, given which candidate locations are files.
pub fn pam_module_path(is_file: [bool; 3]) -> (r: Option<String>)
    ensures
        opt_view(r) == first_present(pam_module_locations(), is_file@),
{
    select_first(pam_module_candidates(), &is_file)
}


// ---------------------------------------------------------------------------------------
// Doctor
// ---------------------------------------------------------------------------------------

/// What `irauthctl doctor` found on the system.
pub struct DoctorFacts {
    /// How many strict IR/depth devices the probe found.
    pub strict_devices: usize,
    pub tpm_present: bool,
    /// `/dev/tpmrm0` opens for reading and writing in this session.
    pub tpm_access: bool,
    pub vhci_loaded: bool,
    /// The IRAuth groups that exist (of `irauth`, `usbip`, `tss`, in that order), each
    /// with whether it is active in this login session.
    pub groups: Vec<(String, bool)>,
    pub howdy: bool,
    pub pamtester: bool,
    pub missing_models: Vec<String>,
    /// Howdy's configured camera: its device path, its `config.ini`, and whether it is
    /// a strict device.
    pub camera: Option<(String, String, bool)>,
    pub pam_module: bool,
    pub howdy_pam: bool,
    pub passkey_pam: bool,
    pub socket: bool,
    /// The daemon answered a ping with `PONG`.
    pub daemon: bool,
    pub passkey_ready: bool,
    pub passkey_detail: String,
}

/// One line of the doctor's report.
pub struct Check {
    pub name: String,
    pub ok: bool,
    pub detail: String,
}

pub open spec fn check_view(c: Check) -> (Seq<char>, bool, Seq<char>) {
    (c.name@, c.ok, c.detail@)
}

pub open spec fn checks_view(v: Seq<Check>) -> Seq<(Seq<char>, bool, Seq<char>)> {
    v.map_values(|c: Check| check_view(c))
}

pub open spec fn group_check(g: (String, bool)) -> (Seq<char>, bool, Seq<char>) {
    ("group "@ + g.0@, g.1, "active in this login session"@)
}

pub open spec fn models_detail(missing: Seq<Seq<char>>) -> Seq<char> {
    if missing.len() == 0 {
        "ready"@
    } else {
        join_comma(missing)
    }
}

pub open spec fn camera_check(c: Option<(String, String, bool)>) -> (Seq<char>, bool, Seq<char>) {
    match c {
        Some((device, config, strict)) => (
            "Howdy IR binding"@,
            strict,
            device@ + " ("@ + config@ + ")"@,
        ),
        None => ("Howdy IR binding"@, false, "Howdy device_path is missing/none"@),
    }
}

pub open spec fn head_checks(f: DoctorFacts) -> Seq<(Seq<char>, bool, Seq<char>)> {
    seq![
        ("IR/depth hardware"@, f.strict_devices > 0, decimal(f.strict_devices as nat)
            + " strict device(s)"@),
        ("TPM 2.0"@, f.tpm_present, "/dev/tpmrm0"@),
        ("TPM session access"@, f.tpm_access, "read/write /dev/tpmrm0 (tss group)"@),
        ("vhci_hcd"@, f.vhci_loaded, "kernel module"@),
    ]
}

pub open spec fn group_checks(groups: Seq<(String, bool)>) -> Seq<(Seq<char>, bool, Seq<char>)> {
    groups.map_values(|g: (String, bool)| group_check(g))
}

pub open spec fn backend_checks(f: DoctorFacts) -> Seq<(Seq<char>, bool, Seq<char>)> {
    seq![
        ("Howdy command"@, f.howdy, "howdy"@),
        ("pamtester"@, f.pamtester, "pamtester"@),
        ("dlib models"@, f.missing_models@.len() == 0, models_detail(
            f.missing_models@.map_values(|s: String| s@),
        )),
        camera_check(f.camera),
    ]
}

pub open spec fn service_checks(f: DoctorFacts) -> Seq<(Seq<char>, bool, Seq<char>)> {
    seq![
        ("IRAuth PAM module"@, f.pam_module, "pam_irauth.so"@),
        ("Howdy-only PAM"@, f.howdy_pam, "/etc/pam.d/irauth-howdy"@),
        ("Passkey PAM"@, f.passkey_pam, "/etc/pam.d/irauth-passkey"@),
        ("daemon socket"@, f.socket, "/run/irauth/irauthd.sock"@),
        ("daemon protocol"@, f.daemon, "V1"@),
        ("passkey bridge"@, f.passkey_ready, f.passkey_detail@),
    ]
}

/// The doctor's checks, in the order they are reported.
pub open spec fn spec_doctor_checks(f: DoctorFacts) -> Seq<(Seq<char>, bool, Seq<char>)> {
    head_checks(f) + group_checks(f.groups@) + backend_checks(f) + service_checks(f)
}

fn check(name: &str, ok: bool, detail: String) -> (r: Check)
    ensures
        check_view(r) == (name@, ok, detail@),
{
    Check { name: String::from_str(name), ok, detail }
}

fn push_check(out: &mut Vec<Check>, c: Check)
    ensures
        checks_view(final(out)@) == checks_view(old(out)@).push(check_view(c)),
{
    out.push(c);
    assert(checks_view(final(out)@) =~= checks_view(old(out)@).push(check_view(c)));
}

fn push_head_checks(out: &mut Vec<Check>, f: &DoctorFacts)
    ensures
        checks_view(final(out)@) == checks_view(old(out)@) + head_checks(*f),
{
    let mut hw = String::new();
    push_decimal(&mut hw, f.strict_devices);
    hw.append(" strict device(s)");
    push_check(out, check("IR/depth hardware", f.strict_devices > 0, hw));
    push_check(out, check("TPM 2.0", f.tpm_present, String::from_str("/dev/tpmrm0")));
    push_check(
        out,
        check(
            "TPM session access",
            f.tpm_access,
            String::from_str("read/write /dev/tpmrm0 (tss group)"),
        ),
    );
    push_check(out, check("vhci_hcd", f.vhci_loaded, String::from_str("kernel module")));
    assert(checks_view(final(out)@) =~= checks_view(old(out)@) + head_checks(*f));
}

fn push_group_checks(out: &mut Vec<Check>, groups: &Vec<(String, bool)>)
    ensures
        checks_view(final(out)@) == checks_view(old(out)@) + group_checks(groups@),
{
    let ghost head = checks_view(out@);
    let ghost gv = group_checks(groups@);
    let mut i: usize = 0;
    assert(gv.take(0) =~= Seq::<(Seq<char>, bool, Seq<char>)>::empty());
    assert(checks_view(out@) =~= head + gv.take(0));
    while i < groups.len()
        invariant
            i <= groups@.len(),
            gv == group_checks(groups@),
            head == checks_view(old(out)@),
            checks_view(out@) == head + gv.take(i as int),
        decreases groups@.len() - i,
    {
        let (g, active) = &groups[i];
        let mut name = String::from_str("group ");
        name.append(g.as_str());
        let c = Check {
            name,
            ok: *active,
            detail: String::from_str("active in this login session"),
        };
        assert(check_view(c) == gv[i as int]);
        push_check(out, c);
        assert(gv.take(i + 1) =~= gv.take(i as int).push(gv[i as int]));
        i = i + 1;
    }
    assert(gv.take(i as int) =~= gv);
}

fn push_backend_checks(out: &mut Vec<Check>, f: &DoctorFacts)
    ensures
        checks_view(final(out)@) == checks_view(old(out)@) + backend_checks(*f),
{
    push_check(out, check("Howdy command", f.howdy, String::from_str("howdy")));
    push_check(out, check("pamtester", f.pamtester, String::from_str("pamtester")));
    let models = if f.missing_models.len() == 0 {
        String::from_str("ready")
    } else {
        join_comma_strings(&f.missing_models)
    };
    push_check(out, check("dlib models", f.missing_models.len() == 0, models));
    let cam = match &f.camera {
        Some((device, config, strict)) => {
            let mut d = device.clone();
            d.append(" (");
            d.append(config.as_str());
            d.append(")");
            check("Howdy IR binding", *strict, d)
        },
        None => check(
            "Howdy IR binding",
            false,
            String::from_str("Howdy device_path is missing/none"),
        ),
    };
    push_check(out, cam);
    assert(checks_view(final(out)@) =~= checks_view(old(out)@) + backend_checks(*f));
}

fn push_service_checks(out: &mut Vec<Check>, f: &DoctorFacts)
    ensures
        checks_view(final(out)@) == checks_view(old(out)@) + service_checks(*f),
{
    push_check(out, check("IRAuth PAM module", f.pam_module, String::from_str("pam_irauth.so")));
    push_check(
        out,
        check("Howdy-only PAM", f.howdy_pam, String::from_str("/etc/pam.d/irauth-howdy")),
    );
    push_check(
        out,
        check("Passkey PAM", f.passkey_pam, String::from_str("/etc/pam.d/irauth-passkey")),
    );
    push_check(
        out,
        check("daemon socket", f.socket, String::from_str("/run/irauth/irauthd.sock")),
    );
    push_check(out, check("daemon protocol", f.daemon, String::from_str("V1")));
    push_check(out, check("passkey bridge", f.passkey_ready, f.passkey_detail.clone()));
    assert(checks_view(final(out)@) =~= checks_view(old(out)@) + service_checks(*f));
}

/// The doctor's checks from what it found.
pub fn doctor_checks(f: &DoctorFacts) -> (r: Vec<Check>)
    ensures
        checks_view(r@) == spec_doctor_checks(*f),
{
    let mut out: Vec<Check> = Vec::new();
    assert(checks_view(out@) =~= Seq::<(Seq<char>, bool, Seq<char>)>::empty());
    push_head_checks(&mut out, f);
    push_group_checks(&mut out, &f.groups);
    push_backend_checks(&mut out, f);
    push_service_checks(&mut out, f);
    assert(checks_view(out@) =~= spec_doctor_checks(*f));
    out
}

/// `s` padded with spaces to `w` characters (`{:<w}`).
pub open spec fn pad_right(s: Seq<char>, w: nat) -> Seq<char> {
    if s.len() < w {
        s + Seq::new((w - s.len()) as nat, |i: int| ' ')
    } else {
        s
    }
}

/// `[OK] name detail` or `[!!] name detail`, the name padded to 22 characters.
pub open spec fn spec_check_line(c: (Seq<char>, bool, Seq<char>)) -> Seq<char> {
    (if c.1 {
        "[OK] "@
    } else {
        "[!!] "@
    }) + pad_right(c.0, 22) + " "@ + c.2
}

pub fn check_line(c: &Check) -> (r: String)
    ensures
        r@ == spec_check_line(check_view(*c)),
{
    let mut s = if c.ok {
        String::from_str("[OK] ")
    } else {
        String::from_str("[!!] ")
    };
    s.append(c.name.as_str());
    let v = crate::text::chars_of(c.name.as_str());
    let mut k = v.len();
    let ghost base = s@;
    while k < 22
        invariant
            v@ == c.name@,
            v@.len() <= k <= 22 || (k == v@.len() && k >= 22),
            s@ == base + Seq::new((k - v@.len()) as nat, |i: int| ' '),
        decreases 22 - k,
    {
        push_char(&mut s, ' ');
        assert(s@ =~= base + Seq::new((k + 1 - v@.len()) as nat, |i: int| ' '));
        k = k + 1;
    }
    if v.len() >= 22 {
        assert(s@ =~= base);
    }
    push_char(&mut s, ' ');
    s.append(c.detail.as_str());
    proof {
        reveal_strlit(" ");
    }
    assert(s@ =~= spec_check_line(check_view(*c)));
    s
}

/// How many checks failed.
pub open spec fn failed_count(cs: Seq<(Seq<char>, bool, Seq<char>)>) -> nat
    decreases cs.len(),
{
    if cs.len() == 0 {
        0
    } else {
        failed_count(cs.drop_last()) + if cs.last().1 {
            0nat
        } else {
            1nat
        }
    }
}

/// No check failed exactly when every check passed.
proof fn lemma_failed_count_zero(cs: Seq<(Seq<char>, bool, Seq<char>)>)
    ensures
        failed_count(cs) == 0 <==> forall|k: int| 0 <= k < cs.len() ==> (#[trigger] cs[k]).1,
    decreases cs.len(),
{
    if cs.len() > 0 {
        let init = cs.drop_last();
        lemma_failed_count_zero(init);
        if failed_count(cs) == 0 {
            assert forall|k: int| 0 <= k < cs.len() implies (#[trigger] cs[k]).1 by {
                if k < init.len() {
                    assert(cs[k] == init[k]);
                }
            }
        }
        if forall|k: int| 0 <= k < cs.len() ==> (#[trigger] cs[k]).1 {
            assert forall|k: int| 0 <= k < init.len() implies (#[trigger] init[k]).1 by {
                assert(cs[k] == init[k]);
            }
            assert(cs[cs.len() - 1].1);
        }
    }
}

/// Howdy is bound to a camera, and that camera is a strict device.
pub open spec fn bound_to_strict(c: Option<(String, String, bool)>) -> bool {
    c matches Some((_, _, s)) && s
}

/// Every group that exists is active in this session.
pub open spec fn groups_active(groups: Seq<(String, bool)>) -> bool {
    forall|j: int| 0 <= j < groups.len() ==> (#[trigger] groups[j]).1
}

/// The doctor passes exactly when everything is in place: a strict device, the TPM and
/// access to it, `vhci_hcd`, every existing group active, Howdy, pamtester, all models,
/// Howdy bound to a strict camera, the PAM module and both IRAuth services, the socket,
/// a daemon that answers, and a ready passkey bridge. The `Howdy IR binding` check in
/// particular passes exactly when the configured camera is strict.
pub proof fn lemma_doctor_passes_only_when_all_in_place(f: DoctorFacts)
    ensures
        failed_count(spec_doctor_checks(f)) == 0 <==> (f.strict_devices > 0 && f.tpm_present
            && f.tpm_access && f.vhci_loaded && groups_active(f.groups@) && f.howdy
            && f.pamtester && f.missing_models@.len() == 0 && bound_to_strict(f.camera)
            && f.pam_module && f.howdy_pam && f.passkey_pam && f.socket && f.daemon
            && f.passkey_ready),
        spec_doctor_checks(f)[f.groups@.len() + 7int].0 == "Howdy IR binding"@,
        spec_doctor_checks(f)[f.groups@.len() + 7int].1 == bound_to_strict(f.camera),
{
    let cs = spec_doctor_checks(f);
    let g = f.groups@.len() as int;
    let h = head_checks(f);
    let gc = group_checks(f.groups@);
    let b = backend_checks(f);
    let sv = service_checks(f);
    lemma_failed_count_zero(cs);
    assert(cs == h + gc + b + sv);
    assert(cs.len() == g + 14);
    assert forall|k: int| 0 <= k < 4 implies cs[k] == #[trigger] h[k] by {}
    assert forall|j: int| 0 <= j < g implies cs[4 + j] == #[trigger] gc[j] by {}
    assert forall|k: int| 0 <= k < 4 implies cs[4 + g + k] == #[trigger] b[k] by {}
    assert forall|k: int| 0 <= k < 6 implies cs[8 + g + k] == #[trigger] sv[k] by {}
    assert(cs[g + 7] == b[3]);
    assert(b[3].1 == bound_to_strict(f.camera));
    let all = f.strict_devices > 0 && f.tpm_present && f.tpm_access && f.vhci_loaded
        && groups_active(f.groups@) && f.howdy && f.pamtester && f.missing_models@.len() == 0
        && bound_to_strict(f.camera) && f.pam_module && f.howdy_pam && f.passkey_pam && f.socket
        && f.daemon && f.passkey_ready;
    if forall|k: int| 0 <= k < cs.len() ==> (#[trigger] cs[k]).1 {
        assert(h[0].1 && h[1].1 && h[2].1 && h[3].1);
        assert(b[0].1 && b[1].1 && b[2].1 && b[3].1);
        assert(sv[0].1 && sv[1].1 && sv[2].1 && sv[3].1 && sv[4].1 && sv[5].1);
        assert forall|j: int| 0 <= j < g implies (#[trigger] f.groups@[j]).1 by {
            assert(cs[4 + j].1);
            assert(gc[j] == group_check(f.groups@[j]));
        }
        assert(all);
    }
    if all {
        assert forall|k: int| 0 <= k < cs.len() implies (#[trigger] cs[k]).1 by {
            if k < 4 {
                assert(cs[k] == h[k]);
            } else if k < 4 + g {
                assert(cs[k] == gc[k - 4]);
                assert(gc[k - 4] == group_check(f.groups@[k - 4]));
            } else if k < 8 + g {
                assert(cs[k] == b[k - 4 - g]);
            } else {
                assert(cs[k] == sv[k - 8 - g]);
            }
        }
    }
}

/// The doctor's closing line: all checks passed, or how many failed.
pub fn doctor_summary(checks: &Vec<Check>) -> (r: Result<String, String>)
    ensures
        failed_count(checks_view(checks@)) == 0 <==> r is Ok,
        r matches Ok(m) ==> m@ == "\nIRAuth doctor: all checks passed"@,
        r matches Err(e) ==> e@ == "IRAuth doctor: "@ + decimal(
            failed_count(checks_view(checks@)),
        ) + " check(s) failed"@,
{
    let ghost cv = checks_view(checks@);
    let mut failed: usize = 0;
    let mut i: usize = 0;
    assert(cv.take(0) =~= Seq::<(Seq<char>, bool, Seq<char>)>::empty());
    while i < checks.len()
        invariant
            i <= checks@.len(),
            cv == checks_view(checks@),
            failed == failed_count(cv.take(i as int)),
            failed <= i,
        decreases checks@.len() - i,
    {
        assert(cv.take(i + 1).drop_last() =~= cv.take(i as int));
        assert(cv.take(i + 1).last() == check_view(checks@[i as int]));
        if !checks[i].ok {
            failed = failed + 1;
        }
        i = i + 1;
    }
    assert(cv.take(i as int) =~= cv);
    if failed == 0 {
        Ok(String::from_str("\nIRAuth doctor: all checks passed"))
    } else {
        let mut e = String::from_str("IRAuth doctor: ");
        push_decimal(&mut e, failed);
        e.append(" check(s) failed");
        Err(e)
    }
}


// ---------------------------------------------------------------------------------------
// Subcommands
// ---------------------------------------------------------------------------------------

/// The subcommand of `irauthctl`, from its first argument.
#[derive(Debug, Clone, Copy, PartialEq, Eq, Structural)]
pub enum CtlCommand {
    Hardware,
    Status,
    Doctor,
    Enroll,
    Test,
    Setup,
    Pam,
    Passkey,
    Help,
    Unknown,
}

pub open spec fn spec_command(first: Option<Seq<char>>) -> CtlCommand {
    match first {
        None => CtlCommand::Help,
        Some(a) => if a == "hardware"@ {
            CtlCommand::Hardware
        } else if a == "status"@ {
            CtlCommand::Status
        } else if a == "doctor"@ {
            CtlCommand::Doctor
        } else if a == "enroll"@ {
            CtlCommand::Enroll
        } else if a == "test"@ {
            CtlCommand::Test
        } else if a == "setup"@ {
            CtlCommand::Setup
        } else if a == "pam"@ {
            CtlCommand::Pam
        } else if a == "passkey"@ {
            CtlCommand::Passkey
        } else if a == "help"@ || a == "--help"@ || a == "-h"@ {
            CtlCommand::Help
        } else {
            CtlCommand::Unknown
        },
    }
}

pub fn parse_command(first: Option<&str>) -> (r: CtlCommand)
    ensures
        r == spec_command(opt_str(first)),
{
    match first {
        None => CtlCommand::Help,
        Some(a) => {
            let s = String::from_str(a);
            if s == String::from_str("hardware") {
                CtlCommand::Hardware
            } else if s == String::from_str("status") {
                CtlCommand::Status
            } else if s == String::from_str("doctor") {
                CtlCommand::Doctor
            } else if s == String::from_str("enroll") {
                CtlCommand::Enroll
            } else if s == String::from_str("test") {
                CtlCommand::Test
            } else if s == String::from_str("setup") {
                CtlCommand::Setup
            } else if s == String::from_str("pam") {
                CtlCommand::Pam
            } else if s == String::from_str("passkey") {
                CtlCommand::Passkey
            } else if s == String::from_str("help") || s == String::from_str("--help") || s
                == String::from_str("-h") {
                CtlCommand::Help
            } else {
                CtlCommand::Unknown
            }
        },
    }
}

/// The message for an unknown subcommand.
pub fn unknown_command_message(other: &str) -> (r: String)
    ensures
        r@ == "unknown command: "@ + other@,
{
    let mut s = String::from_str("unknown command: ");
    s.append(other);
    s
}

/// `irauthctl pam enable|disable SERVICE`.
#[derive(Debug, Clone, Copy, PartialEq, Eq, Structural)]
pub enum PamAction {
    Enable,
    Disable,
}

pub open spec fn pam_usage() -> Seq<char> {
    "usage: irauthctl pam enable|disable SERVICE"@
}

pub fn parse_pam_args(first: Option<&str>, second: Option<&str>) -> (r: Result<(PamAction, String), String>)
    ensures
        match (opt_str(first), opt_str(second)) {
            (Some(a), Some(svc)) => if a == "enable"@ {
                r matches Ok((act, s)) && act == PamAction::Enable && s@ == svc
            } else if a == "disable"@ {
                r matches Ok((act, s)) && act == PamAction::Disable && s@ == svc
            } else {
                r matches Err(e) && e@ == pam_usage()
            },
            _ => r matches Err(e) && e@ == pam_usage(),
        },
{
    match (first, second) {
        (Some(a), Some(svc)) => {
            let s = String::from_str(a);
            if s == String::from_str("enable") {
                Ok((PamAction::Enable, String::from_str(svc)))
            } else if s == String::from_str("disable") {
                Ok((PamAction::Disable, String::from_str(svc)))
            } else {
                Err(String::from_str("usage: irauthctl pam enable|disable SERVICE"))
            }
        },
        _ => Err(String::from_str("usage: irauthctl pam enable|disable SERVICE")),
    }
}

// ---------------------------------------------------------------------------------------
// The end of setup: validation, then the PAM transaction
// ---------------------------------------------------------------------------------------

/// Where the lockout-sensitive end of setup stands.
pub enum FinishStage {
    /// A face check through the daemon is under way.
    Validating,
    /// The PAM configuration is being snapshotted.
    Snapshotting,
    /// The selected PAM services are being migrated and enabled.
    ChangingPam,
    /// Changing PAM failed with this error; the snapshot is being restored.
    RollingBack(String),
}

/// What the control utility learned since its last step.
pub enum FinishEvent {
    /// The daemon's answer line to the validation request, or why it could not be asked.
    Validated(Result<String, String>),
    /// The snapshot was taken, or why not.
    Snapshot(Result<(), String>),
    /// The PAM services were changed, or why not.
    PamChanged(Result<(), String>),
    /// The snapshot was restored, or why not.
    Restored(Result<(), String>),
}

/// What the control utility does next.
pub enum FinishAction {
    TakeSnapshot,
    ChangePam,
    Restore,
    /// Stop with this outcome.
    Finish(Result<(), String>),
}

pub enum FinishStageView {
    Validating,
    Snapshotting,
    ChangingPam,
    RollingBack(Seq<char>),
}

pub open spec fn finish_stage_view(s: FinishStage) -> FinishStageView {
    match s {
        FinishStage::Validating => FinishStageView::Validating,
        FinishStage::Snapshotting => FinishStageView::Snapshotting,
        FinishStage::ChangingPam => FinishStageView::ChangingPam,
        FinishStage::RollingBack(e) => FinishStageView::RollingBack(e@),
    }
}

/// The event that can follow each stage.
pub open spec fn finish_event_fits(stage: FinishStage, event: FinishEvent) -> bool {
    match stage {
        FinishStage::Validating => event is Validated,
        FinishStage::Snapshotting => event is Snapshot,
        FinishStage::ChangingPam => event is PamChanged,
        FinishStage::RollingBack(_) => event is Restored,
    }
}

pub open spec fn failed_validation_message() -> Seq<char> {
    "face verification through irauthd failed"@
}

pub open spec fn rollback_failed_message(e: Seq<char>, rb: Seq<char>) -> Seq<char> {
    "PAM setup failed: "@ + e + "; rollback also failed: "@ + rb
}

/// The next stage (none once finished) and the final outcome (once finished). PAM is
/// touched only after the daemon approved a face and a snapshot was taken; a failed PAM
/// change is always followed by a restore of the snapshot.
pub open spec fn spec_finish_step(stage: FinishStage, event: FinishEvent) -> (
    Option<FinishStageView>,
    Option<Result<(), Seq<char>>>,
) {
    match event {
        FinishEvent::Validated(Err(e)) => (None, Some(Err(e@))),
        FinishEvent::Validated(Ok(line)) => if spec_is_approval(line@) {
            (Some(FinishStageView::Snapshotting), None)
        } else {
            (None, Some(Err(failed_validation_message())))
        },
        FinishEvent::Snapshot(Err(e)) => (None, Some(Err(e@))),
        FinishEvent::Snapshot(Ok(())) => (Some(FinishStageView::ChangingPam), None),
        FinishEvent::PamChanged(Ok(())) => (None, Some(Ok(()))),
        FinishEvent::PamChanged(Err(e)) => (Some(FinishStageView::RollingBack(e@)), None),
        FinishEvent::Restored(r) => match stage {
            FinishStage::RollingBack(e) => match r {
                Ok(()) => (None, Some(Err(e@))),
                Err(rb) => (None, Some(Err(rollback_failed_message(e@, rb@)))),
            },
            _ => (None, None),
        },
    }
}

pub open spec fn finish_outcome(a: FinishAction) -> Option<Result<(), Seq<char>>> {
    match a {
        FinishAction::Finish(Ok(())) => Some(Ok(())),
        FinishAction::Finish(Err(e)) => Some(Err(e@)),
        _ => None,
    }
}

pub open spec fn opt_stage_view(s: Option<FinishStage>) -> Option<FinishStageView> {
    match s {
        Some(st) => Some(finish_stage_view(st)),
        None => None,
    }
}

/// One step of the end of setup.
pub fn finish_step(stage: FinishStage, event: FinishEvent) -> (r: (
    Option<FinishStage>,
    FinishAction,
))
    requires
        finish_event_fits(stage, event),
    ensures
        (opt_stage_view(r.0), finish_outcome(r.1)) == spec_finish_step(stage, event),
        r.0 matches Some(FinishStage::Snapshotting) ==> r.1 is TakeSnapshot,
        r.0 matches Some(FinishStage::ChangingPam) ==> r.1 is ChangePam,
        r.0 matches Some(FinishStage::RollingBack(_)) ==> r.1 is Restore,
{
    match event {
        FinishEvent::Validated(Err(e)) => (None, FinishAction::Finish(Err(e))),
        FinishEvent::Validated(Ok(line)) => if is_approval(line.as_str()) {
            (Some(FinishStage::Snapshotting), FinishAction::TakeSnapshot)
        } else {
            (
                None,
                FinishAction::Finish(Err(String::from_str("face verification through irauthd failed"))),
            )
        },
        FinishEvent::Snapshot(Err(e)) => (None, FinishAction::Finish(Err(e))),
        FinishEvent::Snapshot(Ok(())) => (Some(FinishStage::ChangingPam), FinishAction::ChangePam),
        FinishEvent::PamChanged(Ok(())) => (None, FinishAction::Finish(Ok(()))),
        FinishEvent::PamChanged(Err(e)) => (Some(FinishStage::RollingBack(e)), FinishAction::Restore),
        FinishEvent::Restored(r) => match stage {
            FinishStage::RollingBack(e) => match r {
                Ok(()) => (None, FinishAction::Finish(Err(e))),
                Err(rb) => {
                    let mut m = String::from_str("PAM setup failed: ");
                    m.append(e.as_str());
                    m.append("; rollback also failed: ");
                    m.append(rb.as_str());
                    (None, FinishAction::Finish(Err(m)))
                },
            },
            _ => {
                proof {
                    assert(false);
                }
                (None, FinishAction::Finish(Ok(())))
            },
        },
    }
}

/// The daemon answered the validation request with an approval.
pub open spec fn approving_answer(event: FinishEvent) -> bool {
    event matches FinishEvent::Validated(Ok(line)) && spec_is_approval(line@)
}

/// PAM is changed only after an approval and a snapshot, and a failed change is always
/// restored: the step into changing PAM comes only from a taken snapshot, the step into
/// the snapshot only from a daemon answer that approves, and a failed change always
/// leads to the rollback of that very error; setup succeeds only once PAM was changed.
pub proof fn lemma_pam_changes_follow_approval(stage: FinishStage, event: FinishEvent)
    requires
        finish_event_fits(stage, event),
    ensures
        spec_finish_step(stage, event).0 == Some(FinishStageView::ChangingPam) ==> (stage
            is Snapshotting && event matches FinishEvent::Snapshot(Ok(_))),
        spec_finish_step(stage, event).0 == Some(FinishStageView::Snapshotting) ==> (stage
            is Validating && approving_answer(event)),
        event matches FinishEvent::PamChanged(Err(e)) ==> spec_finish_step(stage, event).0
            == Some(FinishStageView::RollingBack(e@)),
        spec_finish_step(stage, event).1 == Some(Ok::<(), Seq<char>>(())) ==> (stage
            is ChangingPam && event matches FinishEvent::PamChanged(Ok(_))),
{
}

} // verus!
