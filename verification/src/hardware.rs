//! The strict IR/depth hardware policy.
//!
//! A V4L2 video node is accepted only when its name says it is an IR, infrared, depth or
//! 3D camera, or when its exact USB `VID:PID@IFACE` selector is on the verified list.
use vstd::prelude::*;
use vstd::multiset::Multiset;
use crate::text::{
    chars_of, contains_seq, first_of, is_ascii_alnum, is_ascii_hex, is_alnum, is_hex, lines,
    line_spans, lower, lower_seq, occurs_at, push_char, push_chars, range_contains, span_text,
    string_from_range, to_lower, trim, trim_bounds, find_first_of, starts_with,
    range_starts_with, lex_lt, lex_less, lemma_lex_asym, lemma_lex_lt_le,
};

verus! {

pub const VERIFIED_IDS_PATH: &'static str = "/etc/irauth/hardware.ids";

/// Why a video node is, or is not, accepted.
#[derive(Debug, Clone, Copy, PartialEq, Eq, Structural)]
pub enum Evidence {
    IrName,
    DepthName,
    VerifiedUsbId,
    NotAccepted,
}

impl Evidence {
    pub open spec fn spec_is_strict(self) -> bool {
        !(self is NotAccepted)
    }

    pub fn is_strict(self) -> (r: bool)
        ensures
            r == self.spec_is_strict(),
    {
        !matches!(self, Evidence::NotAccepted)
    }
}

#[derive(Debug, Clone, PartialEq, Eq)]
pub struct VideoDevice {
    pub node: String,
    pub name: String,
    pub usb_id: Option<String>,
    pub usb_interface: Option<String>,
    pub evidence: Evidence,
}

pub struct VideoDeviceView {
    pub node: Seq<char>,
    pub name: Seq<char>,
    pub usb_id: Option<Seq<char>>,
    pub usb_interface: Option<Seq<char>>,
    pub evidence: Evidence,
}

pub open spec fn opt_view(o: Option<String>) -> Option<Seq<char>> {
    match o {
        Some(s) => Some(s@),
        None => None,
    }
}

impl View for VideoDevice {
    type V = VideoDeviceView;

    open spec fn view(&self) -> VideoDeviceView {
        VideoDeviceView {
            node: self.node@,
            name: self.name@,
            usb_id: opt_view(self.usb_id),
            usb_interface: opt_view(self.usb_interface),
            evidence: self.evidence,
        }
    }
}

pub open spec fn devices_view(v: Seq<VideoDevice>) -> Seq<VideoDeviceView> {
    v.map_values(|d: VideoDevice| d@)
}

// ---------------------------------------------------------------------------------------
// USB identifiers
// ---------------------------------------------------------------------------------------

/// `vvvv:pppp`: four hex digits, a colon, four hex digits.
pub open spec fn spec_valid_usb_id(s: Seq<char>) -> bool {
    &&& s.len() == 9
    &&& s[4] == ':'
    &&& forall|i: int| 0 <= i < 9 && i != 4 ==> is_ascii_hex(#[trigger] s[i])
}

/// `vvvv:pppp@ii`: a USB id, an `@`, and the two hex digits of the interface number.
pub open spec fn spec_valid_usb_selector(s: Seq<char>) -> bool {
    &&& s.len() == 12
    &&& s[4] == ':'
    &&& s[9] == '@'
    &&& forall|i: int| 0 <= i < 12 && i != 4 && i != 9 ==> is_ascii_hex(#[trigger] s[i])
}

/// Two hex digits.
pub open spec fn spec_valid_interface(s: Seq<char>) -> bool {
    s.len() == 2 && is_ascii_hex(s[0]) && is_ascii_hex(s[1])
}

fn all_hex_except(v: &Vec<char>, skip1: usize, skip2: usize) -> (r: bool)
    ensures
        r == forall|i: int| 0 <= i < v@.len() && i != skip1 && i != skip2 ==> is_ascii_hex(
            #[trigger] v@[i],
        ),
{
    let mut i: usize = 0;
    while i < v.len()
        invariant
            i <= v@.len(),
            forall|j: int| 0 <= j < i && j != skip1 && j != skip2 ==> is_ascii_hex(#[trigger] v@[j]),
        decreases v@.len() - i,
    {
        if i != skip1 && i != skip2 && !is_hex(v[i]) {
            return false;
        }
        i = i + 1;
    }
    true
}

pub fn valid_usb_id(s: &str) -> (r: bool)
    ensures
        r == spec_valid_usb_id(s@),
{
    let v = chars_of(s);
    v.len() == 9 && v[4] == ':' && all_hex_except(&v, 4, 4)
}

pub fn valid_usb_selector(s: &str) -> (r: bool)
    ensures
        r == spec_valid_usb_selector(s@),
{
    let v = chars_of(s);
    v.len() == 12 && v[4] == ':' && v[9] == '@' && all_hex_except(&v, 4, 9)
}

/// `s` trimmed and lower-cased.
fn lower_trimmed(s: &str) -> (r: Vec<char>)
    ensures
        r@ == lower_seq(trim(s@)),
{
    let v = chars_of(s);
    let (a, b) = trim_bounds(&v, 0, v.len());
    assert(v@.subrange(0, v@.len() as int) =~= v@);
    let mut r: Vec<char> = Vec::new();
    let mut i = a;
    while i < b
        invariant
            a <= i <= b <= v@.len(),
            r@ =~= lower_seq(v@.subrange(a as int, i as int)),
        decreases b - i,
    {
        r.push(to_lower(v[i]));
        i = i + 1;
    }
    r
}

fn string_of(v: &Vec<char>) -> (r: String)
    ensures
        r@ == v@,
{
    let r = string_from_range(v, 0, v.len());
    assert(v@.subrange(0, v@.len() as int) =~= v@);
    r
}

/// The USB id read from the `idVendor` and `idProduct` attribute files: both trimmed,
/// lower-cased and joined by `:`, when both are non-empty and the result is well formed.
pub open spec fn spec_usb_id_from(vendor: Seq<char>, product: Seq<char>) -> Option<Seq<char>> {
    let v = lower_seq(trim(vendor));
    let p = lower_seq(trim(product));
    let id = v + seq![':'] + p;
    if v.len() > 0 && p.len() > 0 && spec_valid_usb_id(id) {
        Some(id)
    } else {
        None
    }
}

pub fn usb_id_from(vendor: &str, product: &str) -> (r: Option<String>)
    ensures
        opt_view(r) == spec_usb_id_from(vendor@, product@),
{
    let v = lower_trimmed(vendor);
    let p = lower_trimmed(product);
    if v.len() == 0 || p.len() == 0 {
        return None;
    }
    let mut id = string_of(&v);
    push_char(&mut id, ':');
    let ps = string_of(&p);
    id.append(ps.as_str());
    assert(id@ =~= v@ + seq![':'] + p@);
    if valid_usb_id(id.as_str()) {
        Some(id)
    } else {
        None
    }
}

/// The interface number read from `bInterfaceNumber`: trimmed, lower-cased, two hex
/// digits.
pub open spec fn spec_interface_from(raw: Seq<char>) -> Option<Seq<char>> {
    let s = lower_seq(trim(raw));
    if spec_valid_interface(s) {
        Some(s)
    } else {
        None
    }
}

pub fn interface_from(raw: &str) -> (r: Option<String>)
    ensures
        opt_view(r) == spec_interface_from(raw@),
{
    let s = lower_trimmed(raw);
    if s.len() == 2 && is_hex(s[0]) && is_hex(s[1]) {
        Some(string_of(&s))
    } else {
        None
    }
}

/// The selector `id@iface`.
pub open spec fn selector(id: Seq<char>, iface: Seq<char>) -> Seq<char> {
    id + seq!['@'] + iface
}

// ---------------------------------------------------------------------------------------
// The verified list
// ---------------------------------------------------------------------------------------

/// One line of the verified list: before any `#`, trimmed, lower-cased.
pub open spec fn normalized_entry(line: Seq<char>) -> Seq<char> {
    let k = first_of(line, seq!['#']);
    lower_seq(trim(if k >= 0 {
        line.take(k)
    } else {
        line
    }))
}

/// The selectors that the verified list holds.
pub open spec fn listed(content: Seq<char>, s: Seq<char>) -> bool {
    spec_valid_usb_selector(s) && exists|k: int|
        0 <= k < lines(content).len() && #[trigger] normalized_entry(lines(content)[k]) == s
}

/// `s` is one of the texts in `v`.
pub open spec fn holds(v: Seq<String>, s: Seq<char>) -> bool {
    exists|i: int| 0 <= i < v.len() && #[trigger] v[i]@ == s
}

/// `s` is a valid selector on one of the first `k` lines.
pub open spec fn listed_upto(ls: Seq<Seq<char>>, k: int, s: Seq<char>) -> bool {
    spec_valid_usb_selector(s) && exists|j: int| 0 <= j < k && #[trigger] normalized_entry(ls[j]) == s
}

fn vec_contains(v: &Vec<String>, s: &String) -> (r: bool)
    ensures
        r == holds(v@, s@),
{
    let mut i: usize = 0;
    while i < v.len()
        invariant
            i <= v@.len(),
            forall|j: int| 0 <= j < i ==> #[trigger] v@[j]@ != s@,
        decreases v@.len() - i,
    {
        if v[i] == *s {
            return true;
        }
        i = i + 1;
    }
    false
}

/// `normalized_entry(v[lo..hi])`.
fn entry_of(v: &Vec<char>, lo: usize, hi: usize) -> (r: String)
    requires
        lo <= hi <= v@.len(),
    ensures
        r@ == normalized_entry(v@.subrange(lo as int, hi as int)),
{
    let hash: [char; 1] = ['#'];
    assert(hash@ =~= seq!['#']);
    let end = match find_first_of(v, lo, hi, &hash) {
        Some(e) => {
            assert(v@.subrange(lo as int, hi as int).take(e - lo) =~= v@.subrange(
                lo as int,
                e as int,
            ));
            e
        },
        None => hi,
    };
    let (a, b) = trim_bounds(v, lo, end);
    let mut entry: Vec<char> = Vec::new();
    let mut i = a;
    while i < b
        invariant
            a <= i <= b <= v@.len(),
            entry@ =~= lower_seq(v@.subrange(a as int, i as int)),
        decreases b - i,
    {
        entry.push(to_lower(v[i]));
        i = i + 1;
    }
    string_of(&entry)
}

/// The valid selectors of the verified list, each once.
pub fn parse_verified_ids(content: &str) -> (r: Vec<String>)
    ensures
        forall|s: Seq<char>| listed(content@, s) <==> #[trigger] holds(r@, s),
        forall|i: int, j: int| 0 <= i < j < r@.len() ==> r@[i]@ != r@[j]@,
{
    let v = chars_of(content);
    let spans = line_spans(&v);
    let ghost ls = lines(v@);
    let mut r: Vec<String> = Vec::new();
    let mut k: usize = 0;
    while k < spans.len()
        invariant
            k <= spans@.len() == ls.len(),
            ls == lines(v@),
            v@ == content@,
            forall|j: int| 0 <= j < spans@.len() ==> (#[trigger] spans@[j]).0 <= spans@[j].1 <= v@.len(),
            forall|j: int| 0 <= j < spans@.len() ==> #[trigger] span_text(v@, spans@[j]) == ls[j],
            forall|s: Seq<char>|
                #![trigger listed_upto(ls, k as int, s)]
                #![trigger holds(r@, s)]
                listed_upto(ls, k as int, s) <==> holds(r@, s),
            forall|i: int, j: int| 0 <= i < j < r@.len() ==> r@[i]@ != r@[j]@,
        decreases spans@.len() - k,
    {
        let (lo, hi) = spans[k];
        assert(span_text(v@, spans@[k as int]) == ls[k as int]);
        let e = entry_of(&v, lo, hi);
        let ghost ek = normalized_entry(ls[k as int]);
        assert(e@ == ek);
        let ghost old_r = r@;
        if valid_usb_selector(e.as_str()) && !vec_contains(&r, &e) {
            r.push(e);
            assert(r@[old_r.len() as int]@ == ek);
        }
        proof {
            assert forall|s: Seq<char>| #[trigger] listed_upto(ls, k + 1, s) implies holds(r@, s) by {
                let j = choose|j: int| 0 <= j < k + 1 && #[trigger] normalized_entry(ls[j]) == s;
                if j < k {
                    assert(listed_upto(ls, k as int, s));
                    assert(holds(old_r, s));
                    let i0 = choose|i: int| 0 <= i < old_r.len() && #[trigger] old_r[i]@ == s;
                    assert(r@[i0] == old_r[i0]);
                } else {
                    assert(s == ek);
                    if r@.len() > old_r.len() {
                        assert(r@[old_r.len() as int]@ == s);
                    } else {
                        let i0 = choose|i: int| 0 <= i < old_r.len() && #[trigger] old_r[i]@ == s;
                        assert(r@[i0] == old_r[i0]);
                    }
                }
            }
            assert forall|s: Seq<char>| #[trigger] holds(r@, s) implies listed_upto(ls, k + 1, s) by {
                let i = choose|i: int| 0 <= i < r@.len() && #[trigger] r@[i]@ == s;
                if i < old_r.len() {
                    assert(old_r[i]@ == s);
                    assert(holds(old_r, s));
                    assert(listed_upto(ls, k as int, s));
                    let j = choose|j: int| 0 <= j < k && #[trigger] normalized_entry(ls[j]) == s;
                    assert(normalized_entry(ls[j]) == s);
                } else {
                    assert(normalized_entry(ls[k as int]) == s);
                }
            }
            assert forall|i: int, j: int| 0 <= i < j < r@.len() implies r@[i]@ != r@[j]@ by {
                if j >= old_r.len() {
                    assert(!holds(old_r, ek));
                    assert(r@[i] == old_r[i]);
                }
            }
        }
        k = k + 1;
    }
    proof {
        assert forall|s: Seq<char>| listed(content@, s) <==> #[trigger] holds(r@, s) by {
            assert(listed(content@, s) <==> listed_upto(ls, ls.len() as int, s));
        }
    }
    r
}

/// A bare `VID:PID` never authorizes a camera: no such text is on the verified list,
/// whatever the list holds, and a node whose interface number is unknown is never
/// accepted through the list.
pub proof fn lemma_bare_usb_id_never_verified(
    content: Seq<char>,
    id: Seq<char>,
    name: Seq<char>,
    usb_id: Option<Seq<char>>,
    verified: Set<Seq<char>>,
)
    requires
        spec_valid_usb_id(id),
    ensures
        !listed(content, id),
        spec_evidence(name, usb_id, None, verified) != Evidence::VerifiedUsbId,
{
}

// ---------------------------------------------------------------------------------------
// Classification
// ---------------------------------------------------------------------------------------

pub open spec fn word_ir_at(s: Seq<char>, i: int) -> bool {
    &&& 0 <= i && i + 2 <= s.len()
    &&& s[i] == 'i'
    &&& s[i + 1] == 'r'
    &&& (i == 0 || !is_ascii_alnum(s[i - 1]))
    &&& (i + 2 == s.len() || !is_ascii_alnum(s[i + 2]))
}

/// `ir` is one of the words of `s`, the words being the maximal runs of ASCII letters and
/// digits.
pub open spec fn spec_token_ir(s: Seq<char>) -> bool {
    exists|i: int| #[trigger] word_ir_at(s, i)
}

pub fn token_ir(s: &Vec<char>) -> (r: bool)
    ensures
        r == spec_token_ir(s@),
{
    let n = s.len();
    let mut i: usize = 0;
    while i < n && n - i >= 2
        invariant
            n == s@.len(),
            i <= n,
            forall|j: int| 0 <= j < i ==> !word_ir_at(s@, j),
        decreases n - i,
    {
        if s[i] == 'i' && s[i + 1] == 'r' && (i == 0 || !is_alnum(s[i - 1])) && (i + 2 == n
            || !is_alnum(s[i + 2])) {
            assert(word_ir_at(s@, i as int));
            return true;
        }
        i = i + 1;
    }
    assert forall|j: int| !word_ir_at(s@, j) by {
        if 0 <= j && j + 2 <= s@.len() {
            assert(j < i);
        }
    }
    false
}

pub open spec fn infrared_word() -> Seq<char> {
    seq!['i', 'n', 'f', 'r', 'a', 'r', 'e', 'd']
}

pub open spec fn depth_word() -> Seq<char> {
    seq!['d', 'e', 'p', 't', 'h']
}

pub open spec fn camera_3d_words() -> Seq<char> {
    seq!['3', 'd', ' ', 'c', 'a', 'm', 'e', 'r', 'a']
}

/// How the policy judges a node with this name, USB id and interface, against the
/// verified selectors.
pub open spec fn spec_evidence(
    name: Seq<char>,
    usb_id: Option<Seq<char>>,
    usb_interface: Option<Seq<char>>,
    verified: Set<Seq<char>>,
) -> Evidence {
    let l = lower_seq(name);
    if contains_seq(l, infrared_word()) || spec_token_ir(l) {
        Evidence::IrName
    } else if contains_seq(l, depth_word()) || contains_seq(l, camera_3d_words()) {
        Evidence::DepthName
    } else if usb_id is Some && usb_interface is Some && verified.contains(
        selector(usb_id->0, usb_interface->0),
    ) {
        Evidence::VerifiedUsbId
    } else {
        Evidence::NotAccepted
    }
}

/// No RGB downgrade: a node is strict only when its name says IR, infrared, depth or 3D
/// camera, or when its exact `VID:PID@IFACE` selector is verified.
pub proof fn lemma_strict_needs_evidence(
    name: Seq<char>,
    usb_id: Option<Seq<char>>,
    usb_interface: Option<Seq<char>>,
    verified: Set<Seq<char>>,
)
    requires
        spec_evidence(name, usb_id, usb_interface, verified).spec_is_strict(),
    ensures
        contains_seq(lower_seq(name), infrared_word()) || spec_token_ir(lower_seq(name))
            || contains_seq(lower_seq(name), depth_word()) || contains_seq(
            lower_seq(name),
            camera_3d_words(),
        ) || (usb_id matches Some(id) && usb_interface matches Some(iface) && verified.contains(
            selector(id, iface),
        )),
{
}

pub open spec fn strings_view(v: Seq<String>) -> Seq<Seq<char>> {
    v.map_values(|s: String| s@)
}

pub fn classify(
    name: &str,
    usb_id: &Option<String>,
    usb_interface: &Option<String>,
    verified: &Vec<String>,
) -> (r: Evidence)
    ensures
        r == spec_evidence(name@, opt_view(*usb_id), opt_view(*usb_interface), strings_view(
            verified@,
        ).to_set()),
{
    let v = chars_of(name);
    let mut l: Vec<char> = Vec::new();
    let mut i: usize = 0;
    while i < v.len()
        invariant
            i <= v@.len(),
            l@ =~= lower_seq(v@.take(i as int)),
        decreases v@.len() - i,
    {
        l.push(to_lower(v[i]));
        i = i + 1;
    }
    assert(v@.take(v@.len() as int) =~= v@);
    let n = l.len();
    assert(l@.subrange(0, n as int) =~= l@);
    let w_ir: [char; 8] = ['i', 'n', 'f', 'r', 'a', 'r', 'e', 'd'];
    let w_depth: [char; 5] = ['d', 'e', 'p', 't', 'h'];
    let w_3d: [char; 9] = ['3', 'd', ' ', 'c', 'a', 'm', 'e', 'r', 'a'];
    assert(w_ir@ =~= infrared_word());
    assert(w_depth@ =~= depth_word());
    assert(w_3d@ =~= camera_3d_words());
    assert(l@ == lower_seq(name@));
    if range_contains(&l, 0, n, &w_ir) || token_ir(&l) {
        return Evidence::IrName;
    }
    if range_contains(&l, 0, n, &w_depth) || range_contains(&l, 0, n, &w_3d) {
        return Evidence::DepthName;
    }
    match (usb_id, usb_interface) {
        (Some(id), Some(iface)) => {
            let mut sel = id.clone();
            push_char(&mut sel, '@');
            sel.append(iface.as_str());
            assert(sel@ == selector(id@, iface@));
            if vec_contains(verified, &sel) {
                assert(strings_view(verified@)[choose|i: int|
                    0 <= i < verified@.len() && #[trigger] verified@[i]@ == sel@] == sel@);
                return Evidence::VerifiedUsbId;
            }
            assert(!strings_view(verified@).contains(sel@)) by {
                if strings_view(verified@).contains(sel@) {
                    let i = choose|i: int|
                        0 <= i < strings_view(verified@).len() && strings_view(verified@)[i]
                            == sel@;
                    assert(verified@[i]@ == sel@);
                }
            }
            Evidence::NotAccepted
        },
        _ => Evidence::NotAccepted,
    }
}


// ---------------------------------------------------------------------------------------
// Devices
// ---------------------------------------------------------------------------------------

pub open spec fn video_prefix() -> Seq<char> {
    seq!['v', 'i', 'd', 'e', 'o']
}

pub open spec fn dev_dir() -> Seq<char> {
    seq!['/', 'd', 'e', 'v', '/']
}

/// A file's trimmed content, if any remains.
pub open spec fn trimmed_content(c: Option<Seq<char>>) -> Option<Seq<char>> {
    match c {
        Some(t) => if trim(t).len() > 0 {
            Some(trim(t))
        } else {
            None
        },
        None => None,
    }
}

pub open spec fn opt_str_view(o: Option<&str>) -> Option<Seq<char>> {
    match o {
        Some(s) => Some(s@),
        None => None,
    }
}

/// The device described by a `/sys/class/video4linux` entry named `file_name`.
pub open spec fn sysfs_device(
    file_name: Seq<char>,
    name_file: Option<Seq<char>>,
    usb_id: Option<Seq<char>>,
    usb_interface: Option<Seq<char>>,
    verified: Set<Seq<char>>,
) -> VideoDeviceView {
    let name = match trimmed_content(name_file) {
        Some(n) => n,
        None => file_name,
    };
    VideoDeviceView {
        node: dev_dir() + file_name,
        name: name,
        usb_id: usb_id,
        usb_interface: usb_interface,
        evidence: spec_evidence(name, usb_id, usb_interface, verified),
    }
}

/// The device for one entry `file_name` of `/sys/class/video4linux`, given the content of
/// its `name` attribute (when readable), its USB id and interface, and the verified list.
/// Entries not named `video*` are not devices.
pub fn device_from_sysfs(
    file_name: &str,
    name_file: Option<&str>,
    usb_id: Option<String>,
    usb_interface: Option<String>,
    verified: &Vec<String>,
) -> (r: Option<VideoDevice>)
    ensures
        !starts_with(file_name@, video_prefix()) ==> r is None,
        starts_with(file_name@, video_prefix()) ==> r is Some && r->0@ == sysfs_device(
            file_name@,
            opt_str_view(name_file),
            opt_view(usb_id),
            opt_view(usb_interface),
            strings_view(verified@).to_set(),
        ),
{
    let fv = chars_of(file_name);
    let fnn = fv.len();
    let pre: [char; 5] = ['v', 'i', 'd', 'e', 'o'];
    assert(pre@ =~= video_prefix());
    assert(fv@.subrange(0, fnn as int) =~= fv@);
    if !range_starts_with(&fv, 0, fnn, &pre) {
        return None;
    }
    let name = match name_file {
        Some(c) => {
            let cv = chars_of(c);
            let (a, b) = trim_bounds(&cv, 0, cv.len());
            assert(cv@.subrange(0, cv@.len() as int) =~= cv@);
            if a < b {
                string_from_range(&cv, a, b)
            } else {
                String::from_str(file_name)
            }
        },
        None => String::from_str(file_name),
    };
    let mut node = String::new();
    push_chars(&mut node, &['/', 'd', 'e', 'v', '/']);
    node.append(file_name);
    assert(node@ =~= dev_dir() + file_name@);
    let evidence = classify(name.as_str(), &usb_id, &usb_interface, verified);
    Some(VideoDevice { node, name, usb_id, usb_interface, evidence })
}

/// A copy of a device.
pub fn copy_device(d: &VideoDevice) -> (r: VideoDevice)
    ensures
        r@ == d@,
{
    VideoDevice {
        node: d.node.clone(),
        name: d.name.clone(),
        usb_id: clone_opt(&d.usb_id),
        usb_interface: clone_opt(&d.usb_interface),
        evidence: d.evidence,
    }
}

/// What the probe reads of one entry of `/sys/class/video4linux`: its file name, the
/// content of its `name` attribute (when readable), and the USB id and interface number
/// found above it in the device tree.
pub struct SysfsEntry {
    pub file_name: String,
    pub name: Option<String>,
    pub usb_id: Option<String>,
    pub usb_interface: Option<String>,
}

/// The selectors on the verified list; an unreadable list holds none.
pub open spec fn verified_selectors(content: Option<Seq<char>>) -> Set<Seq<char>> {
    match content {
        Some(c) => Set::new(|s: Seq<char>| listed(c, s)),
        None => Set::empty(),
    }
}

/// The device of an entry, when it is a `video*` entry.
pub open spec fn entry_device(e: SysfsEntry, verified: Set<Seq<char>>) -> Option<VideoDeviceView> {
    if starts_with(e.file_name@, video_prefix()) {
        Some(
            sysfs_device(
                e.file_name@,
                opt_view(e.name),
                opt_view(e.usb_id),
                opt_view(e.usb_interface),
                verified,
            ),
        )
    } else {
        None
    }
}

/// The devices of the `video*` entries, in the order read.
pub open spec fn probed(entries: Seq<SysfsEntry>, verified: Set<Seq<char>>) -> Seq<VideoDeviceView> {
    entries.filter_map(|e: SysfsEntry| entry_device(e, verified))
}

fn opt_as_str(o: &Option<String>) -> (r: Option<&str>)
    ensures
        opt_str_view(r) == opt_view(*o),
{
    match o {
        Some(s) => Some(s.as_str()),
        None => None,
    }
}

/// The video devices of `/sys/class/video4linux`, judged against the verified list
/// (`None` where it could not be read), sorted by node.
pub fn probe(entries: &Vec<SysfsEntry>, verified_ids: Option<&str>) -> (r: Vec<VideoDevice>)
    ensures
        devices_view(r@).to_multiset() == probed(
            entries@,
            verified_selectors(opt_str_view(verified_ids)),
        ).to_multiset(),
        nodes_sorted(devices_view(r@)),
{
    let verified: Vec<String> = match verified_ids {
        Some(c) => parse_verified_ids(c),
        None => Vec::new(),
    };
    let ghost vs = verified_selectors(opt_str_view(verified_ids));
    proof {
        assert(strings_view(verified@).to_set() =~= vs) by {
            assert forall|s: Seq<char>| strings_view(verified@).to_set().contains(s) <==> vs.contains(s) by {
                if strings_view(verified@).contains(s) {
                    let i = choose|i: int| 0 <= i < strings_view(verified@).len() && strings_view(verified@)[i] == s;
                    assert(verified@[i]@ == s);
                    assert(holds(verified@, s));
                }
                if vs.contains(s) {
                    assert(holds(verified@, s));
                    let i = choose|i: int| 0 <= i < verified@.len() && #[trigger] verified@[i]@ == s;
                    assert(strings_view(verified@)[i] == s);
                }
            }
        }
    }
    let ghost f = |e: SysfsEntry| entry_device(e, vs);
    let mut found: Vec<VideoDevice> = Vec::new();
    let mut i: usize = 0;
    assert(entries@.take(0).filter_map(f) =~= Seq::<VideoDeviceView>::empty());
    while i < entries.len()
        invariant
            i <= entries@.len(),
            vs == strings_view(verified@).to_set(),
            f == (|e: SysfsEntry| entry_device(e, vs)),
            devices_view(found@) == entries@.take(i as int).filter_map(f),
        decreases entries@.len() - i,
    {
        let e = &entries[i];
        proof {
            entries@.lemma_filter_map_take_succ(f, i as int);
        }
        let ghost before = devices_view(found@);
        match device_from_sysfs(
            e.file_name.as_str(),
            opt_as_str(&e.name),
            clone_opt(&e.usb_id),
            clone_opt(&e.usb_interface),
            &verified,
        ) {
            Some(d) => {
                found.push(d);
                assert(devices_view(found@) =~= before + seq![f(entries@[i as int])->0]);
            },
            None => {
                assert(f(entries@[i as int]) is None);
            },
        }
        i = i + 1;
    }
    assert(entries@.take(i as int) =~= entries@);
    sort_devices(&found)
}

/// The devices the policy accepts, in order.
pub fn strict_devices(devices: &Vec<VideoDevice>) -> (r: Vec<VideoDevice>)
    ensures
        devices_view(r@) == devices_view(devices@).filter(
            |d: VideoDeviceView| d.evidence.spec_is_strict(),
        ),
{
    let ghost pred = |d: VideoDeviceView| d.evidence.spec_is_strict();
    let ghost all = devices_view(devices@);
    let mut out: Vec<VideoDevice> = Vec::new();
    let mut i: usize = 0;
    assert(all.take(0).filter(pred) =~= Seq::<VideoDeviceView>::empty());
    while i < devices.len()
        invariant
            i <= devices@.len(),
            all == devices_view(devices@),
            pred == (|d: VideoDeviceView| d.evidence.spec_is_strict()),
            devices_view(out@) == all.take(i as int).filter(pred),
        decreases devices@.len() - i,
    {
        proof {
            assert(all.take(i + 1) =~= all.take(i as int).push(all[i as int]));
            all.take(i as int).lemma_filter_push(all[i as int], pred);
            assert(all[i as int] == devices@[i as int]@);
            assert(pred(all[i as int]) == devices@[i as int].evidence.spec_is_strict());
        }
        let ghost before = devices_view(out@);
        if devices[i].evidence.is_strict() {
            out.push(copy_device(&devices[i]));
            assert(devices_view(out@) =~= before.push(all[i as int]));
        }
        i = i + 1;
    }
    assert(all.take(i as int) =~= all);
    out
}

/// Devices sorted by node, strictly by character order.
pub open spec fn nodes_sorted(v: Seq<VideoDeviceView>) -> bool {
    forall|i: int, j: int| 0 <= i < j < v.len() ==> !lex_lt(v[j].node, v[i].node)
}

/// The devices in node order (`Path` order, which for names of one directory is the
/// character order of the names).
pub fn sort_devices(devices: &Vec<VideoDevice>) -> (r: Vec<VideoDevice>)
    ensures
        devices_view(r@).to_multiset() == devices_view(devices@).to_multiset(),
        nodes_sorted(devices_view(r@)),
{
    let ghost all = devices_view(devices@);
    let mut out: Vec<VideoDevice> = Vec::new();
    let mut i: usize = 0;
    assert(devices_view(out@) =~= all.take(0));
    while i < devices.len()
        invariant
            i <= devices@.len(),
            all == devices_view(devices@),
            devices_view(out@).to_multiset() == all.take(i as int).to_multiset(),
            nodes_sorted(devices_view(out@)),
        decreases devices@.len() - i,
    {
        let ghost old_out = devices_view(out@);
        let x = copy_device(&devices[i]);
        let xn = chars_of(x.node.as_str());
        let mut p: usize = 0;
        while p < out.len() && !lex_less(&xn, &chars_of(out[p].node.as_str()))
            invariant
                p <= out@.len(),
                xn@ == x.node@,
                forall|j: int| 0 <= j < p ==> !lex_lt(xn@, #[trigger] out@[j].node@),
            decreases out@.len() - p,
        {
            p = p + 1;
        }
        let ghost vx = x@;
        out.insert(p, x);
        proof {
            let no = devices_view(out@);
            assert(no =~= old_out.insert(p as int, vx));
            assert forall|a: int, b: int| 0 <= a < b < no.len() implies !lex_lt(
                no[b].node,
                no[a].node,
            ) by {
                if b < p {
                    assert(no[a] == old_out[a] && no[b] == old_out[b]);
                } else if b == p {
                    assert(no[a] == old_out[a]);
                    assert(!lex_lt(vx.node, old_out[a].node));
                } else if a > p {
                    assert(no[a] == old_out[a - 1] && no[b] == old_out[b - 1]);
                } else if a == p {
                    assert(no[b] == old_out[b - 1]);
                    assert(lex_lt(vx.node, old_out[p as int].node));
                    if b - 1 > p {
                        assert(!lex_lt(old_out[b - 1].node, old_out[p as int].node));
                        lemma_lex_lt_le(vx.node, old_out[p as int].node, old_out[b - 1].node);
                    }
                    lemma_lex_asym(vx.node, no[b].node);
                } else {
                    assert(no[a] == old_out[a]);
                    assert(no[b] == old_out[b - 1]);
                }
            }
            assert(vx == all[i as int]);
            assert(all.take(i + 1) =~= all.take(i as int).push(vx));
            vstd::seq_lib::to_multiset_build(all.take(i as int), vx);
            vstd::seq_lib::to_multiset_insert(old_out, p as int, vx);
        }
        i = i + 1;
    }
    assert(all.take(i as int) =~= all);
    out
}

/// `o` holds the text `c`.
pub open spec fn resolves_to(o: Option<String>, c: Seq<char>) -> bool {
    o matches Some(m) && m@ == c
}

/// Device `i` is strict and resolves to the configured node.
pub open spec fn strict_match(
    devices: Seq<VideoDevice>,
    resolved: Seq<Option<String>>,
    configured: Seq<char>,
    i: int,
) -> bool {
    devices[i].evidence.spec_is_strict() && resolves_to(resolved[i], configured)
}

/// The strict device that a configured V4L2 path identifies. `configured` is the path
/// after resolving symlinks, `None` where it does not exist; `resolved[i]` is the resolved
/// node of `devices[i]`, `None` where that could not be resolved. A missing or
/// unresolvable device is not accepted: no other camera stands in for it.
pub fn strict_device_for_path(
    devices: &Vec<VideoDevice>,
    resolved: &Vec<Option<String>>,
    configured: Option<&str>,
) -> (r: Option<VideoDevice>)
    ensures
        configured is None ==> r is None,
        configured matches Some(c) ==> match r {
            Some(d) => exists|i: int|
                0 <= i < devices@.len() && i < resolved@.len() && #[trigger] strict_match(
                    devices@,
                    resolved@,
                    c@,
                    i,
                ) && d@ == devices@[i]@ && (forall|j: int|
                    0 <= j < i ==> !#[trigger] strict_match(devices@, resolved@, c@, j)),
            None => forall|j: int|
                0 <= j < devices@.len() && j < resolved@.len() ==> !#[trigger] strict_match(
                    devices@,
                    resolved@,
                    c@,
                    j,
                ),
        },
{
    let path = match configured {
        Some(p) => p,
        None => return None,
    };
    let c = String::from_str(path);
    let mut i: usize = 0;
    while i < devices.len() && i < resolved.len()
        invariant
            i <= devices@.len(),
            i <= resolved@.len(),
            c@ == path@,
            configured == Some(path),
            forall|j: int| 0 <= j < i ==> !#[trigger] strict_match(devices@, resolved@, path@, j),
        decreases devices@.len() - i,
    {
        if devices[i].evidence.is_strict() {
            if let Some(n) = &resolved[i] {
                if *n == c {
                    let d = copy_device(&devices[i]);
                    assert(strict_match(devices@, resolved@, configured->0@, i as int) && d@
                        == devices@[i as int]@);
                    assert(forall|j: int|
                        0 <= j < i ==> !#[trigger] strict_match(devices@, resolved@, configured->0@, j));
                    return Some(d);
                }
            }
        }
        i = i + 1;
    }
    None
}

/// Whether a configured V4L2 path identifies a strict device (see
/// `strict_device_for_path`).
pub fn is_strict_device_path(
    devices: &Vec<VideoDevice>,
    resolved: &Vec<Option<String>>,
    configured: Option<&str>,
) -> (r: bool)
    ensures
        r <==> (configured matches Some(c) && exists|i: int|
            0 <= i < devices@.len() && i < resolved@.len() && #[trigger] strict_match(
                devices@,
                resolved@,
                c@,
                i,
            )),
{
    strict_device_for_path(devices, resolved, configured).is_some()
}

fn clone_opt(o: &Option<String>) -> (r: Option<String>)
    ensures
        opt_view(r) == opt_view(*o),
{
    match o {
        Some(s) => Some(s.clone()),
        None => None,
    }
}

} // verus!
