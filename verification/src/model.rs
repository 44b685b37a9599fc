//! The lab model: the hosts paniolo reaches and the targets whose channels are
//! bound to them. A channel lives on its own `host`, else its target's `host`,
//! else `local` (this machine). Reading the TOML file is the application's
//! part; this module holds the typed lab, the resolved per-channel view
//! ([`Lab::resolved_target`]), its inverse index ([`Lab::channels_on_host`]) and
//! the host a command touching one channel runs on ([`channel_host`]).
use vstd::prelude::*;
use crate::text::{
    chars_of, insert_sorted, join, lemma_views_push, join_strings, owned, push_signed, push_str, same, signed_decimal,
    sorted, views, lt, lemma_lt_irreflexive,
};
use crate::error::copy_opt;

verus! {

/// The ssh destination meaning "this machine — no SSH".
pub const LOCAL: &'static str = "local";

pub open spec fn local() -> Seq<char> {
    "local"@
}

pub const DEFAULT_HOST_IP: &'static str = "192.168.99.1";

/// The lab file is malformed or a mutation would make it invalid.
#[derive(Debug)]
pub struct LabError(pub String);

/// What a target, host, or serial interface name may look like: letters,
/// digits, `.`, `_` and `-` only; not `.` or `..`; not starting with `-`.
pub const NAME_RULE: &'static str =
    "letters, digits, `.`, `_` and `-` only; not `.` or `..`; not starting with `-`";

pub open spec fn name_char(c: char) -> bool {
    crate::text::is_ascii_alnum(c) || c == '.' || c == '_' || c == '-'
}

/// Whether `name` satisfies [`NAME_RULE`].
pub open spec fn valid_name(name: Seq<char>) -> bool {
    &&& name.len() > 0
    &&& name != "."@
    &&& name != ".."@
    &&& name[0] != '-'
    &&& forall|i: int| 0 <= i < name.len() ==> name_char(#[trigger] name[i])
}

/// Whether `name` satisfies [`NAME_RULE`].
pub fn is_valid_name(name: &str) -> (r: bool)
    ensures
        r == valid_name(name@),
{
    let v = chars_of(name);
    if v.len() == 0 || same(name, ".") || same(name, "..") || v[0] == '-' {
        return false;
    }
    let mut i: usize = 0;
    while i < v.len()
        invariant
            v@ == name@,
            i <= v.len(),
            forall|j: int| 0 <= j < i ==> name_char(#[trigger] v@[j]),
        decreases v.len() - i,
    {
        let c = v[i];
        if !(crate::text::ascii_alnum(c) || c == '.' || c == '_' || c == '-') {
            return false;
        }
        i += 1;
    }
    true
}

pub open spec fn invalid_name_text(what: Seq<char>, name: Seq<char>) -> Seq<char> {
    "invalid "@ + what + " name '"@ + name + "': "@ + NAME_RULE@
}

/// Reject a `what` (target/host/serial interface) name that fails
/// [`NAME_RULE`], saying which rule and what the name was for.
pub fn validate_name(what: &str, name: &str) -> (r: Result<(), LabError>)
    ensures
        r is Ok <==> valid_name(name@),
        r matches Err(e) ==> e.0@ == invalid_name_text(what@, name@),
{
    if is_valid_name(name) {
        Ok(())
    } else {
        let mut m = owned("invalid ");
        push_str(&mut m, what);
        push_str(&mut m, " name '");
        push_str(&mut m, name);
        push_str(&mut m, "': ");
        push_str(&mut m, NAME_RULE);
        Err(LabError(m))
    }
}

/// The baud rate a serial interface gets when the lab names none.
pub fn default_baud() -> (r: i64)
    ensures
        r == 115200,
{
    115200
}

// ── typed schema ────────────────────────────────────────────────────────────

/// A control host.
#[derive(Debug, Clone)]
pub struct Host {
    pub ssh: String,
    /// Free-text description of this control host.
    pub description: Option<String>,
    /// The host's fully-qualified hostname, used to recognize this machine.
    pub hostname: Option<String>,
    pub identity: Option<String>,
    pub control_path: Option<String>,
    pub paniolo_cmd: Option<String>,
}

impl Default for Host {
    fn default() -> (r: Self)
        ensures
            r.ssh@ == Seq::<char>::empty(),
            r.description is None && r.hostname is None && r.identity is None,
            r.control_path is None && r.paniolo_cmd is None,
    {
        Host {
            ssh: String::new(),
            description: None,
            hostname: None,
            identity: None,
            control_path: None,
            paniolo_cmd: None,
        }
    }
}

pub open spec fn ascii_lower(c: char) -> char {
    if 'A' <= c && c <= 'Z' {
        ((c as u32) + 32) as char
    } else {
        c
    }
}

/// `str::eq_ignore_ascii_case`.
pub open spec fn eq_ignore_case(a: Seq<char>, b: Seq<char>) -> bool {
    a.len() == b.len() && forall|i: int| 0 <= i < a.len() ==> ascii_lower(#[trigger] a[i])
        == ascii_lower(b[i])
}

pub(crate) fn lower(c: char) -> (r: char)
    ensures
        r == ascii_lower(c),
{
    if 'A' <= c && c <= 'Z' {
        let u = c as u32 + 32;
        // Only the 26 upper-case letters reach here; their lower case forms
        // are the letters 32 code points on.
        if u == 97 { 'a' } else if u == 98 { 'b' } else if u == 99 { 'c' } else if u == 100 { 'd' }
        else if u == 101 { 'e' } else if u == 102 { 'f' } else if u == 103 { 'g' } else if u == 104 { 'h' }
        else if u == 105 { 'i' } else if u == 106 { 'j' } else if u == 107 { 'k' } else if u == 108 { 'l' }
        else if u == 109 { 'm' } else if u == 110 { 'n' } else if u == 111 { 'o' } else if u == 112 { 'p' }
        else if u == 113 { 'q' } else if u == 114 { 'r' } else if u == 115 { 's' } else if u == 116 { 't' }
        else if u == 117 { 'u' } else if u == 118 { 'v' } else if u == 119 { 'w' } else if u == 120 { 'x' }
        else if u == 121 { 'y' } else { 'z' }
    } else {
        c
    }
}

/// `str::eq_ignore_ascii_case`.
pub fn same_ignoring_case(a: &str, b: &str) -> (r: bool)
    ensures
        r == eq_ignore_case(a@, b@),
{
    let x = chars_of(a);
    let y = chars_of(b);
    if x.len() != y.len() {
        return false;
    }
    let mut i: usize = 0;
    while i < x.len()
        invariant
            x@ == a@,
            y@ == b@,
            x.len() == y.len(),
            i <= x.len(),
            forall|j: int| 0 <= j < i ==> ascii_lower(#[trigger] x@[j]) == ascii_lower(y@[j]),
        decreases x.len() - i,
    {
        if lower(x[i]) != lower(y[i]) {
            return false;
        }
        i += 1;
    }
    true
}

impl Host {
    /// Whether this host (named `name` in the lab) is the machine running
    /// paniolo: its `ssh` or its name is the `local` sentinel, or its declared
    /// `hostname` equals this machine's FQDN (ASCII case ignored).
    /// `local_fqdn` is this machine's detected FQDN, if any.
    pub open spec fn is_local_spec(self, name: Seq<char>, local_fqdn: Option<Seq<char>>) -> bool {
        self.ssh@ == local() || name == local() || match (self.hostname, local_fqdn) {
            (Some(h), Some(l)) => eq_ignore_case(h@, l),
            _ => false,
        }
    }

    pub fn is_local(&self, name: &str, local_fqdn: Option<&str>) -> (r: bool)
        ensures
            r == self.is_local_spec(
                name@,
                match local_fqdn {
                    Some(l) => Some(l@),
                    None => None,
                },
            ),
    {
        if same(self.ssh.as_str(), LOCAL) || same(name, LOCAL) {
            return true;
        }
        match (&self.hostname, local_fqdn) {
            (Some(h), Some(l)) => same_ignoring_case(h.as_str(), l),
            _ => false,
        }
    }

    /// How to invoke paniolo on this host (bare `paniolo` unless pinned).
    pub fn paniolo(&self) -> (r: String)
        ensures
            r@ == match self.paniolo_cmd {
                Some(c) => c@,
                None => "paniolo"@,
            },
    {
        match &self.paniolo_cmd {
            Some(c) => c.clone(),
            None => owned("paniolo"),
        }
    }

    /// An owned copy, equal to this host.
    pub fn copy(&self) -> (r: Host)
        ensures
            r == *self,
    {
        Host {
            ssh: self.ssh.clone(),
            description: copy_opt(&self.description),
            hostname: copy_opt(&self.hostname),
            identity: copy_opt(&self.identity),
            control_path: copy_opt(&self.control_path),
            paniolo_cmd: copy_opt(&self.paniolo_cmd),
        }
    }
}

#[derive(Debug, Clone)]
pub struct NetbootChannel {
    pub interface: Option<String>,
    pub host_ip: Option<String>,
    pub tftp_root: Option<String>,
    /// Boot program served to UEFI clients, relative to `tftp_root`.
    pub boot_file: Option<String>,
    /// HTTP server port, also embedded in the HTTP Boot URL.
    pub http_port: Option<String>,
    /// `Content-Type` for HTTP responses.
    pub content_type: Option<String>,
    pub host: Option<String>,
}

#[derive(Debug, Clone)]
pub struct SerialChannel {
    pub name: String,
    pub device: String,
    pub baud: i64,
    pub power_sense_signal: Option<String>,
    /// The DTR line of this interface is wired to the board's power button.
    pub power_button: bool,
    pub host: Option<String>,
}

#[derive(Debug, Clone)]
pub struct PowerChannel {
    pub cycle_cmd: Option<String>,
    pub on_cmd: Option<String>,
    pub off_cmd: Option<String>,
    pub state_cmd: Option<String>,
    pub serial_interface: Option<String>,
    pub host: Option<String>,
}

#[derive(Debug, Clone)]
pub struct VideoChannel {
    pub device: Option<String>,
    pub host: Option<String>,
    /// Which OCR engine suits this target's screens: `text` or `gui`.
    pub ocr_mode: Option<String>,
}

/// USB HID input injection through an opaque helper command.
#[derive(Debug, Clone)]
pub struct HidChannel {
    pub cmd: Option<String>,
    pub host: Option<String>,
}

/// A shared USB device a KVM routes to either side, through a helper command.
#[derive(Debug, Clone)]
pub struct UsbChannel {
    pub cmd: Option<String>,
    pub host: Option<String>,
}

/// adb transport to an Android target.
#[derive(Debug, Clone)]
pub struct AdbChannel {
    pub serial: Option<String>,
    pub adb: Option<String>,
    pub host: Option<String>,
}

#[derive(Debug, Clone)]
pub struct Target {
    pub host: Option<String>,
    /// Free-text description of this target.
    pub description: Option<String>,
    pub netboot: Option<NetbootChannel>,
    pub serial: Vec<SerialChannel>,
    pub power: Option<PowerChannel>,
    pub video: Option<VideoChannel>,
    pub hid: Option<HidChannel>,
    pub usb: Option<UsbChannel>,
    pub adb: Option<AdbChannel>,
}

impl Default for Target {
    fn default() -> (r: Self)
        ensures
            r.host is None && r.description is None && r.netboot is None && r.serial@.len() == 0,
            r.power is None && r.video is None && r.hid is None && r.usb is None && r.adb is None,
    {
        Target {
            host: None,
            description: None,
            netboot: None,
            serial: Vec::new(),
            power: None,
            video: None,
            hid: None,
            usb: None,
            adb: None,
        }
    }
}

/// The host a channel whose own `host` is `h` lives on.
pub open spec fn host_or(h: Option<String>, default: Seq<char>) -> Seq<char> {
    match h {
        Some(s) => s@,
        None => default,
    }
}

impl Target {
    /// The target's own host, or `local`.
    pub open spec fn default_host_spec(self) -> Seq<char> {
        host_or(self.host, local())
    }

    pub fn default_host(&self) -> (r: &str)
        ensures
            r@ == self.default_host_spec(),
    {
        match &self.host {
            Some(h) => h.as_str(),
            None => LOCAL,
        }
    }
}

/// The lab: hosts and targets by name, each list in name order.
#[derive(Debug, Clone)]
pub struct Lab {
    pub hosts: Vec<(String, Host)>,
    pub targets: Vec<(String, Target)>,
}

impl Default for Lab {
    fn default() -> (r: Self)
        ensures
            r.hosts@.len() == 0 && r.targets@.len() == 0,
    {
        Lab { hosts: Vec::new(), targets: Vec::new() }
    }
}

/// The first position of `k` in `keys`.
pub open spec fn first_index(keys: Seq<Seq<char>>, k: Seq<char>) -> Option<int>
    decreases keys.len(),
{
    if keys.len() == 0 {
        None
    } else {
        match first_index(keys.drop_last(), k) {
            Some(i) => Some(i),
            None => if keys.last() == k {
                Some(keys.len() - 1)
            } else {
                None
            },
        }
    }
}

pub proof fn lemma_first_index(keys: Seq<Seq<char>>, k: Seq<char>)
    ensures
        first_index(keys, k) matches Some(i) ==> 0 <= i < keys.len() && keys[i] == k && forall|j: int|
            0 <= j < i ==> keys[j] != k,
        first_index(keys, k) is None ==> forall|j: int| 0 <= j < keys.len() ==> keys[j] != k,
    decreases keys.len(),
{
    if keys.len() > 0 {
        let p = keys.drop_last();
        lemma_first_index(p, k);
        assert forall|j: int| 0 <= j < p.len() implies p[j] == keys[j] by {}
    }
}

/// `i` is where `k` first occurs in `keys`.
pub proof fn lemma_first_index_at(keys: Seq<Seq<char>>, k: Seq<char>, i: int)
    requires
        0 <= i < keys.len(),
        keys[i] == k,
        forall|j: int| 0 <= j < i ==> keys[j] != k,
    ensures
        first_index(keys, k) == Some(i),
{
    lemma_first_index(keys, k);
}

impl Lab {
    pub open spec fn host_keys(self) -> Seq<Seq<char>> {
        self.hosts@.map_values(|e: (String, Host)| e.0@)
    }

    pub open spec fn target_keys(self) -> Seq<Seq<char>> {
        self.targets@.map_values(|e: (String, Target)| e.0@)
    }

    /// The lab's well-formedness: hosts and targets each kept in strictly
    /// ascending name order, so no name occurs twice.
    pub open spec fn well_keyed(self) -> bool {
        sorted(self.host_keys()) && sorted(self.target_keys())
    }

    /// The target named `name`, if the lab has one.
    pub open spec fn target_spec(self, name: Seq<char>) -> Option<Target> {
        match first_index(self.target_keys(), name) {
            Some(i) => Some(self.targets@[i].1),
            None => None,
        }
    }

    /// The host named `name`, or the synthetic local host.
    pub open spec fn host_spec(self, name: Seq<char>) -> Option<Host> {
        match first_index(self.host_keys(), name) {
            Some(i) => Some(self.hosts@[i].1),
            None => None,
        }
    }

    /// Position of the target named `name`.
    pub fn find_target(&self, name: &str) -> (r: Option<usize>)
        ensures
            r matches Some(i) ==> first_index(self.target_keys(), name@) == Some(i as int),
            r is None ==> first_index(self.target_keys(), name@) is None,
            r matches Some(i) ==> i < self.targets@.len(),
    {
        let mut i: usize = 0;
        while i < self.targets.len()
            invariant
                i <= self.targets.len(),
                forall|j: int| 0 <= j < i ==> self.target_keys()[j] != name@,
            decreases self.targets.len() - i,
        {
            if same(self.targets[i].0.as_str(), name) {
                proof {
                    lemma_first_index_at(self.target_keys(), name@, i as int);
                }
                return Some(i);
            }
            i += 1;
        }
        proof {
            lemma_first_index(self.target_keys(), name@);
        }
        None
    }

    /// Position of the host named `name`.
    pub fn find_host(&self, name: &str) -> (r: Option<usize>)
        ensures
            r matches Some(i) ==> first_index(self.host_keys(), name@) == Some(i as int),
            r is None ==> first_index(self.host_keys(), name@) is None,
            r matches Some(i) ==> i < self.hosts@.len(),
    {
        let mut i: usize = 0;
        while i < self.hosts.len()
            invariant
                i <= self.hosts.len(),
                forall|j: int| 0 <= j < i ==> self.host_keys()[j] != name@,
            decreases self.hosts.len() - i,
        {
            if same(self.hosts[i].0.as_str(), name) {
                proof {
                    lemma_first_index_at(self.host_keys(), name@, i as int);
                }
                return Some(i);
            }
            i += 1;
        }
        proof {
            lemma_first_index(self.host_keys(), name@);
        }
        None
    }

    /// The target names, in lab order.
    pub fn target_names(&self) -> (r: Vec<String>)
        ensures
            views(r@) == self.target_keys(),
    {
        let mut r: Vec<String> = Vec::new();
        let mut i: usize = 0;
        while i < self.targets.len()
            invariant
                i <= self.targets.len(),
                views(r@) == self.target_keys().take(i as int),
            decreases self.targets.len() - i,
        {
            let ghost before = r@;
            r.push(self.targets[i].0.clone());
            proof {
                lemma_views_push(before, self.targets@[i as int].0);
                assert(self.target_keys().take(i + 1) =~= self.target_keys().take(i as int).push(
                    self.targets@[i as int].0@,
                ));
            }
            i += 1;
        }
        assert(self.target_keys().take(self.targets.len() as int) =~= self.target_keys());
        r
    }

    /// Look up a control host by name; `local` and any undeclared name
    /// resolve to a synthetic local host.
    pub fn host(&self, name: &str) -> (r: Host)
        ensures
            match self.host_spec(name@) {
                Some(h) => r == h,
                None => r.ssh@ == local() && r.description is None && r.hostname is None
                    && r.identity is None && r.control_path is None && r.paniolo_cmd is None,
            },
    {
        proof {
            lemma_first_index(self.host_keys(), name@);
        }
        match self.find_host(name) {
            Some(i) => {
                assert(first_index(self.host_keys(), name@) == Some(i as int));
                let h = self.hosts[i].1.copy();
                assert(h == self.hosts@[i as int].1);
                h
            },
            None => Host {
                ssh: owned(LOCAL),
                description: None,
                hostname: None,
                identity: None,
                control_path: None,
                paniolo_cmd: None,
            },
        }
    }
}

// ── resolved (read) view ────────────────────────────────────────────────────

#[derive(Debug, Clone, Copy, PartialEq, Eq, Structural)]
pub enum ChannelKind {
    Netboot,
    Serial,
    Power,
    Video,
    Hid,
    Usb,
    Adb,
}

pub open spec fn kind_name(k: ChannelKind) -> Seq<char> {
    match k {
        ChannelKind::Netboot => "netboot"@,
        ChannelKind::Serial => "serial"@,
        ChannelKind::Power => "power"@,
        ChannelKind::Video => "video"@,
        ChannelKind::Hid => "hid"@,
        ChannelKind::Usb => "usb"@,
        ChannelKind::Adb => "adb"@,
    }
}

impl ChannelKind {
    pub fn as_str(self) -> (r: &'static str)
        ensures
            r@ == kind_name(self),
    {
        match self {
            ChannelKind::Netboot => "netboot",
            ChannelKind::Serial => "serial",
            ChannelKind::Power => "power",
            ChannelKind::Video => "video",
            ChannelKind::Hid => "hid",
            ChannelKind::Usb => "usb",
            ChannelKind::Adb => "adb",
        }
    }
}

/// One channel of a target with its physical host resolved.
#[derive(Debug, Clone)]
pub struct ResolvedChannel {
    pub kind: ChannelKind,
    /// Serial interface name, or the kind name for singleton channels.
    pub name: String,
    pub host: String,
    /// Remaining scalar config, in display order (host and name excluded).
    pub fields: Vec<(&'static str, String)>,
}

/// What a resolved channel says.
pub struct ChannelView {
    pub kind: ChannelKind,
    pub name: Seq<char>,
    pub host: Seq<char>,
    pub fields: Seq<(Seq<char>, Seq<char>)>,
}

pub open spec fn field_views(f: Seq<(&'static str, String)>) -> Seq<(Seq<char>, Seq<char>)> {
    f.map_values(|p: (&'static str, String)| (p.0@, p.1@))
}

impl ResolvedChannel {
    pub open spec fn view(self) -> ChannelView {
        ChannelView {
            kind: self.kind,
            name: self.name@,
            host: self.host@,
            fields: field_views(self.fields@),
        }
    }
}

pub open spec fn channel_views(v: Seq<ResolvedChannel>) -> Seq<ChannelView> {
    v.map_values(|c: ResolvedChannel| c.view())
}

/// A target's channels with per-channel hosts resolved.
#[derive(Debug, Clone)]
pub struct ResolvedTarget {
    pub name: String,
    pub default_host: String,
    pub description: Option<String>,
    pub channels: Vec<ResolvedChannel>,
}

/// `(key, value)` when the value is set.
pub open spec fn opt_field(k: Seq<char>, v: Option<String>) -> Seq<(Seq<char>, Seq<char>)> {
    match v {
        Some(x) => seq![(k, x@)],
        None => Seq::empty(),
    }
}

pub open spec fn netboot_fields(nb: NetbootChannel) -> Seq<(Seq<char>, Seq<char>)> {
    opt_field("interface"@, nb.interface) + opt_field("host_ip"@, nb.host_ip) + opt_field(
        "tftp_root"@,
        nb.tftp_root,
    ) + opt_field("boot_file"@, nb.boot_file) + opt_field("http_port"@, nb.http_port) + opt_field(
        "content_type"@,
        nb.content_type,
    )
}

pub open spec fn serial_fields(s: SerialChannel) -> Seq<(Seq<char>, Seq<char>)> {
    seq![("device"@, s.device@), ("baud"@, signed_decimal(s.baud as int))] + opt_field(
        "power_sense_signal"@,
        s.power_sense_signal,
    ) + if s.power_button {
        seq![("power_button"@, "true"@)]
    } else {
        Seq::empty()
    }
}

pub open spec fn power_fields(p: PowerChannel) -> Seq<(Seq<char>, Seq<char>)> {
    opt_field("cycle_cmd"@, p.cycle_cmd) + opt_field("on_cmd"@, p.on_cmd) + opt_field(
        "off_cmd"@,
        p.off_cmd,
    ) + opt_field("state_cmd"@, p.state_cmd) + opt_field("serial_interface"@, p.serial_interface)
}

pub open spec fn video_fields(v: VideoChannel) -> Seq<(Seq<char>, Seq<char>)> {
    opt_field("device"@, v.device) + opt_field("ocr_mode"@, v.ocr_mode)
}

pub open spec fn adb_fields(a: AdbChannel) -> Seq<(Seq<char>, Seq<char>)> {
    opt_field("serial"@, a.serial) + opt_field("adb"@, a.adb)
}

pub open spec fn single(
    kind: ChannelKind,
    host: Option<String>,
    d: Seq<char>,
    fields: Seq<(Seq<char>, Seq<char>)>,
) -> Seq<ChannelView> {
    seq![ChannelView { kind, name: kind_name(kind), host: host_or(host, d), fields }]
}

pub open spec fn serial_view(s: SerialChannel, d: Seq<char>) -> ChannelView {
    ChannelView {
        kind: ChannelKind::Serial,
        name: s.name@,
        host: host_or(s.host, d),
        fields: serial_fields(s),
    }
}

/// The channels of `t` in display order: netboot, every serial interface,
/// power, video, hid, usb, adb; each on its own host, else the target's.
pub open spec fn resolved_channels(t: Target) -> Seq<ChannelView> {
    let d = t.default_host_spec();
    (match t.netboot {
        Some(nb) => single(ChannelKind::Netboot, nb.host, d, netboot_fields(nb)),
        None => Seq::empty(),
    }) + t.serial@.map_values(|s: SerialChannel| serial_view(s, d)) + (match t.power {
        Some(p) => single(ChannelKind::Power, p.host, d, power_fields(p)),
        None => Seq::empty(),
    }) + (match t.video {
        Some(v) => single(ChannelKind::Video, v.host, d, video_fields(v)),
        None => Seq::empty(),
    }) + (match t.hid {
        Some(h) => single(ChannelKind::Hid, h.host, d, opt_field("cmd"@, h.cmd)),
        None => Seq::empty(),
    }) + (match t.usb {
        Some(u) => single(ChannelKind::Usb, u.host, d, opt_field("cmd"@, u.cmd)),
        None => Seq::empty(),
    }) + (match t.adb {
        Some(a) => single(ChannelKind::Adb, a.host, d, adb_fields(a)),
        None => Seq::empty(),
    })
}

fn push_opt(fields: &mut Vec<(&'static str, String)>, key: &'static str, v: &Option<String>)
    ensures
        field_views(final(fields)@) == field_views(old(fields)@) + opt_field(key@, *v),
{
    if let Some(val) = v {
        fields.push((key, val.clone()));
    }
    assert(field_views(fields@) =~= field_views(old(fields)@) + opt_field(key@, *v));
}

fn resolved_single(
    kind: ChannelKind,
    host: &Option<String>,
    default_host: &str,
    fields: Vec<(&'static str, String)>,
) -> (r: ResolvedChannel)
    ensures
        seq![r.view()] == single(kind, *host, default_host@, field_views(fields@)),
{
    let h = match host {
        Some(h) => h.clone(),
        None => owned(default_host),
    };
    let r = ResolvedChannel { kind, name: owned(kind.as_str()), host: h, fields };
    assert(seq![r.view()] =~= single(kind, *host, default_host@, field_views(fields@)));
    r
}

impl ResolvedTarget {
    /// The distinct hosts this target's channels live on, in name order; the
    /// default host alone when it has no channel.
    pub fn hosts(&self) -> (r: Vec<String>)
        ensures
            sorted(views(r@)),
            self.channels@.len() > 0 ==> forall|h: Seq<char>|
                views(r@).contains(h) <==> exists|i: int|
                    0 <= i < self.channels@.len() && #[trigger] self.channels@[i].host@ == h,
            self.channels@.len() == 0 ==> views(r@) == seq![self.default_host@],
    {
        let mut s: Vec<String> = Vec::new();
        let mut i: usize = 0;
        while i < self.channels.len()
            invariant
                i <= self.channels.len(),
                sorted(views(s@)),
                forall|h: Seq<char>|
                    views(s@).contains(h) <==> exists|j: int|
                        0 <= j < i && #[trigger] self.channels@[j].host@ == h,
            decreases self.channels.len() - i,
        {
            insert_sorted(&mut s, self.channels[i].host.as_str());
            proof {
                assert forall|h: Seq<char>|
                    views(s@).contains(h) <==> exists|j: int|
                        0 <= j < i + 1 && #[trigger] self.channels@[j].host@ == h by {
                    if exists|j: int| 0 <= j < i + 1 && #[trigger] self.channels@[j].host@ == h {
                        let j = choose|j: int|
                            0 <= j < i + 1 && #[trigger] self.channels@[j].host@ == h;
                        if j < i {
                            assert(exists|j2: int|
                                0 <= j2 < i && #[trigger] self.channels@[j2].host@ == h);
                        }
                    }
                }
            }
            i += 1;
        }
        if s.len() == 0 {
            if self.channels.len() > 0 {
                let ghost h0 = self.channels@[0].host@;
                assert(0 <= 0 < self.channels@.len() && self.channels@[0].host@ == h0);
                assert(views(s@).contains(h0));
            }
            s.push(self.default_host.clone());
            assert(views(s@) =~= seq![self.default_host@]);
        } else if self.channels.len() == 0 {
            assert(views(s@).contains(views(s@)[0]));
        }
        s
    }
}

impl Lab {
    /// Flatten a target to its channels with per-channel hosts resolved.
    pub fn resolved_target(&self, name: &str) -> (r: Option<ResolvedTarget>)
        ensures
            match self.target_spec(name@) {
                Some(t) => r is Some && r->0.name@ == name@ && r->0.default_host@
                    == t.default_host_spec() && r->0.description == t.description
                    && channel_views(r->0.channels@) == resolved_channels(t),
                None => r is None,
            },
    {
        proof {
            lemma_first_index(self.target_keys(), name@);
        }
        let i = match self.find_target(name) {
            Some(i) => i,
            None => {
                return None;
            },
        };
        let rt = resolve(name, &self.targets[i].1);
        Some(rt)
    }

    /// Every (target, channel) pair whose channel resolves to `host`, in
    /// target order then channel order.
    pub fn channels_on_host(&self, host: &str) -> (r: Vec<(String, ResolvedChannel)>)
        ensures
            r@.map_values(|p: (String, ResolvedChannel)| (p.0@, p.1.view())) == on_host(
                self.targets@,
                host@,
            ),
            self.well_keyed() ==> names_ascending(on_host(self.targets@, host@)),
    {
        proof {
            if self.well_keyed() {
                lemma_on_host_ascending(self.targets@, host@);
            }
        }
        let mut out: Vec<(String, ResolvedChannel)> = Vec::new();
        let mut i: usize = 0;
        while i < self.targets.len()
            invariant
                i <= self.targets.len(),
                out@.map_values(|p: (String, ResolvedChannel)| (p.0@, p.1.view())) == on_host(
                    self.targets@.take(i as int),
                    host@,
                ),
            decreases self.targets.len() - i,
        {
            let name = &self.targets[i].0;
            let rt = resolve(name.as_str(), &self.targets[i].1);
            let ghost chans = resolved_channels(self.targets@[i as int].1);
            let ghost before = out@.map_values(|p: (String, ResolvedChannel)| (p.0@, p.1.view()));
            let mut j: usize = 0;
            while j < rt.channels.len()
                invariant
                    j <= rt.channels.len(),
                    channel_views(rt.channels@) == chans,
                    out@.map_values(|p: (String, ResolvedChannel)| (p.0@, p.1.view())) == before
                        + pairs_on(name@, chans.take(j as int), host@),
                decreases rt.channels.len() - j,
            {
                let ch = &rt.channels[j];
                assert(chans.take(j + 1).drop_last() =~= chans.take(j as int));
                let ghost pre = out@;
                let ghost m = |p: (String, ResolvedChannel)| (p.0@, p.1.view());
                assert(channel_views(rt.channels@)[j as int] == ch.view());
                assert(chans[j as int] == ch.view());
                if same(ch.host.as_str(), host) {
                    let pair = (name.clone(), ch.clone_channel());
                    out.push(pair);
                    assert(out@ == pre.push(pair));
                    assert(out@.map_values(m) =~= pre.map_values(m).push((name@, ch.view())));
                    assert(pairs_on(name@, chans.take(j + 1), host@) =~= pairs_on(name@, chans.take(j as int), host@) + seq![(name@, chans[j as int])]);
                } else {
                    assert(pairs_on(name@, chans.take(j + 1), host@) =~= pairs_on(name@, chans.take(j as int), host@));
                }
                assert(out@.map_values(|p: (String, ResolvedChannel)| (p.0@, p.1.view())) =~= before
                    + pairs_on(name@, chans.take(j + 1), host@));
                j += 1;
            }
            assert(chans.take(rt.channels.len() as int) =~= chans);
            assert(self.targets@.take(i + 1).drop_last() =~= self.targets@.take(i as int));
            i += 1;
        }
        assert(self.targets@.take(self.targets.len() as int) =~= self.targets@);
        out
    }
}

/// `(name, channel)` for each of `chans` on `host`.
pub open spec fn pairs_on(name: Seq<char>, chans: Seq<ChannelView>, host: Seq<char>) -> Seq<
    (Seq<char>, ChannelView),
>
    decreases chans.len(),
{
    if chans.len() == 0 {
        Seq::empty()
    } else {
        pairs_on(name, chans.drop_last(), host) + if chans.last().host == host {
            seq![(name, chans.last())]
        } else {
            Seq::empty()
        }
    }
}

/// Every (target, channel) of `targets` whose channel is on `host`.
pub open spec fn on_host(targets: Seq<(String, Target)>, host: Seq<char>) -> Seq<
    (Seq<char>, ChannelView),
>
    decreases targets.len(),
{
    if targets.len() == 0 {
        Seq::empty()
    } else {
        on_host(targets.drop_last(), host) + pairs_on(
            targets.last().0@,
            resolved_channels(targets.last().1),
            host,
        )
    }
}

proof fn lemma_sorted_extend(keys: Seq<Seq<char>>, i: int)
    requires
        1 <= i < keys.len(),
        sorted(keys.take(i)),
        lt(keys[i - 1], keys[i]),
    ensures
        sorted(keys.take(i + 1)),
{
    let t = keys.take(i + 1);
    assert forall|a: int, b: int| 0 <= a < b < t.len() implies lt(t[a], t[b]) by {
        if b == i && a < i - 1 {
            assert(keys.take(i)[a] == keys[a] && keys.take(i)[i - 1] == keys[i - 1]);
            crate::text::lemma_lt_transitive(keys[a], keys[i - 1], keys[i]);
        } else if b < i {
            assert(keys.take(i)[a] == t[a] && keys.take(i)[b] == t[b]);
        }
    }
}

fn keys_ascending<V>(entries: &Vec<(String, V)>) -> (r: bool)
    ensures
        r == sorted(entries@.map_values(|e: (String, V)| e.0@)),
{
    let ghost keys = entries@.map_values(|e: (String, V)| e.0@);
    if entries.len() == 0 {
        return true;
    }
    let mut i: usize = 1;
    assert(sorted(keys.take(1)));
    while i < entries.len()
        invariant
            1 <= i <= entries.len(),
            keys == entries@.map_values(|e: (String, V)| e.0@),
            sorted(keys.take(i as int)),
        decreases entries.len() - i,
    {
        if !crate::text::less(entries[i - 1].0.as_str(), entries[i].0.as_str()) {
            assert(!sorted(keys)) by {
                assert(keys[i - 1] == entries@[i - 1].0@ && keys[i as int] == entries@[i as int].0@);
            }
            return false;
        }
        proof {
            assert(keys[i - 1] == entries@[i - 1].0@ && keys[i as int] == entries@[i as int].0@);
            lemma_sorted_extend(keys, i as int);
        }
        i += 1;
    }
    assert(keys.take(entries.len() as int) =~= keys);
    true
}

impl Lab {
    /// Whether the lab is well keyed: hosts and targets each in strictly
    /// ascending name order.
    pub fn is_well_keyed(&self) -> (r: bool)
        ensures
            r == self.well_keyed(),
    {
        keys_ascending(&self.hosts) && keys_ascending(&self.targets)
    }
}

/// Target names that never go down: each name equals or sorts before the ones
/// after it.
pub open spec fn names_ascending(s: Seq<(Seq<char>, ChannelView)>) -> bool {
    forall|i: int, j: int| 0 <= i < j < s.len() ==> s[i].0 == s[j].0 || lt(#[trigger] s[i].0, #[trigger] s[j].0)
}

proof fn lemma_pairs_on_name(name: Seq<char>, chans: Seq<ChannelView>, host: Seq<char>)
    ensures
        forall|i: int| 0 <= i < pairs_on(name, chans, host).len() ==> (#[trigger] pairs_on(name, chans, host)[i]).0 == name,
    decreases chans.len(),
{
    if chans.len() > 0 {
        lemma_pairs_on_name(name, chans.drop_last(), host);
        let a = pairs_on(name, chans.drop_last(), host);
        let b: Seq<(Seq<char>, ChannelView)> = if chans.last().host == host {
            seq![(name, chans.last())]
        } else {
            Seq::empty()
        };
        assert(pairs_on(name, chans, host) == a + b);
        assert forall|i: int| 0 <= i < (a + b).len() implies (#[trigger] (a + b)[i]).0 == name by {
            if i < a.len() {
                assert((a + b)[i] == a[i]);
            } else {
                assert((a + b)[i] == b[i - a.len()]);
            }
        }
    }
}

proof fn lemma_on_host_ascending(targets: Seq<(String, Target)>, host: Seq<char>)
    requires
        sorted(targets.map_values(|e: (String, Target)| e.0@)),
    ensures
        names_ascending(on_host(targets, host)),
        forall|i: int| 0 <= i < on_host(targets, host).len() ==> exists|k: int|
            0 <= k < targets.len() && (#[trigger] on_host(targets, host)[i]).0 == targets[k].0@,
    decreases targets.len(),
{
    if targets.len() > 0 {
        let t0 = targets.drop_last();
        let keys = targets.map_values(|e: (String, Target)| e.0@);
        assert(t0.map_values(|e: (String, Target)| e.0@) =~= keys.drop_last());
        lemma_on_host_ascending(t0, host);
        let last = targets.last().0@;
        let pre = on_host(t0, host);
        let p = pairs_on(last, resolved_channels(targets.last().1), host);
        lemma_pairs_on_name(last, resolved_channels(targets.last().1), host);
        let all = on_host(targets, host);
        assert(all == pre + p);
        assert forall|i: int| 0 <= i < pre.len() implies lt(#[trigger] pre[i].0, last) by {
            let k = choose|k: int| 0 <= k < t0.len() && pre[i].0 == t0[k].0@;
            assert(keys[k] == t0[k].0@);
            assert(keys[targets.len() - 1] == last);
        }
        assert forall|i: int, j: int| 0 <= i < j < all.len() implies all[i].0 == all[j].0 || lt(
            #[trigger] all[i].0,
            #[trigger] all[j].0,
        ) by {
            if j < pre.len() {
                assert(all[i] == pre[i] && all[j] == pre[j]);
            } else if i < pre.len() {
                assert(all[i] == pre[i]);
                assert(all[j] == p[j - pre.len()]);
                assert(lt(pre[i].0, last));
            } else {
                assert(all[i] == p[i - pre.len()]);
                assert(all[j] == p[j - pre.len()]);
            }
        }
        assert forall|i: int| 0 <= i < all.len() implies exists|k: int|
            0 <= k < targets.len() && (#[trigger] all[i]).0 == targets[k].0@ by {
            if i < pre.len() {
                assert(all[i] == pre[i]);
                let k = choose|k: int| 0 <= k < t0.len() && pre[i].0 == t0[k].0@;
                assert(targets[k] == t0[k]);
            } else {
                assert(all[i] == p[i - pre.len()]);
                assert(all[i].0 == targets[targets.len() - 1].0@);
            }
        }
    }
}

impl ResolvedChannel {
    /// An owned copy with the same view.
    pub fn clone_channel(&self) -> (r: ResolvedChannel)
        ensures
            r.view() == self.view(),
    {
        let mut fields: Vec<(&'static str, String)> = Vec::new();
        let mut i: usize = 0;
        while i < self.fields.len()
            invariant
                i <= self.fields.len(),
                field_views(fields@) == field_views(self.fields@).take(i as int),
            decreases self.fields.len() - i,
        {
            let ghost before = fields@;
            let entry = (self.fields[i].0, self.fields[i].1.clone());
            fields.push(entry);
            assert(fields@ == before.push(entry));
            assert(entry.1@ == self.fields@[i as int].1@);
            assert(entry.0 == self.fields@[i as int].0);
            assert(field_views(fields@) =~= field_views(before).push((entry.0@, entry.1@)));
            assert(field_views(self.fields@).take(i + 1) =~= field_views(self.fields@).take(i as int).push(
                (self.fields@[i as int].0@, self.fields@[i as int].1@),
            ));
            i += 1;
        }
        assert(field_views(self.fields@).take(self.fields.len() as int) =~= field_views(
            self.fields@,
        ));
        ResolvedChannel {
            kind: self.kind,
            name: self.name.clone(),
            host: self.host.clone(),
            fields,
        }
    }
}

fn single_part(
    kind: ChannelKind,
    host: &Option<String>,
    default_host: &str,
    fields: Vec<(&'static str, String)>,
) -> (r: Vec<ResolvedChannel>)
    ensures
        channel_views(r@) == single(kind, *host, default_host@, field_views(fields@)),
{
    let ghost fv = field_views(fields@);
    let c = resolved_single(kind, host, default_host, fields);
    let mut v = Vec::new();
    v.push(c);
    assert(channel_views(v@) =~= seq![c.view()]);
    v
}

fn serial_part(t: &Target, dh: &str) -> (r: Vec<ResolvedChannel>)
    requires
        dh@ == t.default_host_spec(),
    ensures
        channel_views(r@) == t.serial@.map_values(|s: SerialChannel| serial_view(s, dh@)),
{
    let mut channels: Vec<ResolvedChannel> = Vec::new();
    let ghost d = dh@;
    let mut k: usize = 0;
    while k < t.serial.len()
        invariant
            k <= t.serial.len(),
            dh@ == d,
            channel_views(channels@) == t.serial@.take(k as int).map_values(
                |s: SerialChannel| serial_view(s, d),
            ),
        decreases t.serial.len() - k,
    {
        let s = &t.serial[k];
        let mut f: Vec<(&'static str, String)> = Vec::new();
        f.push(("device", s.device.clone()));
        let mut b = String::new();
        push_signed(&mut b, s.baud);
        f.push(("baud", b));
        assert(field_views(f@) =~= seq![("device"@, s.device@), ("baud"@, signed_decimal(s.baud as int))]);
        push_opt(&mut f, "power_sense_signal", &s.power_sense_signal);
        let ghost f3 = f@;
        if s.power_button {
            let e = ("power_button", owned("true"));
            f.push(e);
            assert(f@ == f3.push(e));
            assert(field_views(f@) =~= field_views(f3) + seq![("power_button"@, "true"@)]);
        } else {
            assert(field_views(f@) =~= field_views(f3) + Seq::empty());
        }
        assert(field_views(f@) =~= serial_fields(*s));
        let h = match &s.host {
            Some(h) => h.clone(),
            None => owned(dh),
        };
        let ch = ResolvedChannel { kind: ChannelKind::Serial, name: s.name.clone(), host: h, fields: f };
        assert(ch.view() == serial_view(*s, d));
        let ghost before = channels@;
        channels.push(ch);
        assert(channels@ == before.push(ch));
        assert(channel_views(channels@) =~= channel_views(before).push(serial_view(*s, d)));
        assert(t.serial@.take(k + 1).map_values(|s: SerialChannel| serial_view(s, d))
            =~= t.serial@.take(k as int).map_values(|s: SerialChannel| serial_view(s, d)).push(
            serial_view(*s, d),
        ));
        k += 1;
    }
    assert(t.serial@.take(t.serial.len() as int) =~= t.serial@);
    channels
}

fn optional_parts(t: &Target, dh: &str) -> (r: (
    Vec<ResolvedChannel>,
    Vec<ResolvedChannel>,
    Vec<ResolvedChannel>,
    Vec<ResolvedChannel>,
    Vec<ResolvedChannel>,
    Vec<ResolvedChannel>,
))
    requires
        dh@ == t.default_host_spec(),
    ensures
        channel_views(r.0@) == (match t.netboot {
            Some(nb) => single(ChannelKind::Netboot, nb.host, dh@, netboot_fields(nb)),
            None => Seq::empty(),
        }),
        channel_views(r.1@) == (match t.power {
            Some(p) => single(ChannelKind::Power, p.host, dh@, power_fields(p)),
            None => Seq::empty(),
        }),
        channel_views(r.2@) == (match t.video {
            Some(v) => single(ChannelKind::Video, v.host, dh@, video_fields(v)),
            None => Seq::empty(),
        }),
        channel_views(r.3@) == (match t.hid {
            Some(h) => single(ChannelKind::Hid, h.host, dh@, opt_field("cmd"@, h.cmd)),
            None => Seq::empty(),
        }),
        channel_views(r.4@) == (match t.usb {
            Some(u) => single(ChannelKind::Usb, u.host, dh@, opt_field("cmd"@, u.cmd)),
            None => Seq::empty(),
        }),
        channel_views(r.5@) == (match t.adb {
            Some(a) => single(ChannelKind::Adb, a.host, dh@, adb_fields(a)),
            None => Seq::empty(),
        }),
{
    let nb = match &t.netboot {
        Some(nb) => {
            let mut f = Vec::new();
            push_opt(&mut f, "interface", &nb.interface);
            push_opt(&mut f, "host_ip", &nb.host_ip);
            push_opt(&mut f, "tftp_root", &nb.tftp_root);
            push_opt(&mut f, "boot_file", &nb.boot_file);
            push_opt(&mut f, "http_port", &nb.http_port);
            push_opt(&mut f, "content_type", &nb.content_type);
            assert(field_views(f@) =~= netboot_fields(*nb));
            single_part(ChannelKind::Netboot, &nb.host, dh, f)
        },
        None => {
            let v: Vec<ResolvedChannel> = Vec::new();
            assert(channel_views(v@) =~= Seq::empty());
            v
        },
    };
    let pw = match &t.power {
        Some(p) => {
            let mut f = Vec::new();
            push_opt(&mut f, "cycle_cmd", &p.cycle_cmd);
            push_opt(&mut f, "on_cmd", &p.on_cmd);
            push_opt(&mut f, "off_cmd", &p.off_cmd);
            push_opt(&mut f, "state_cmd", &p.state_cmd);
            push_opt(&mut f, "serial_interface", &p.serial_interface);
            assert(field_views(f@) =~= power_fields(*p));
            single_part(ChannelKind::Power, &p.host, dh, f)
        },
        None => {
            let v: Vec<ResolvedChannel> = Vec::new();
            assert(channel_views(v@) =~= Seq::empty());
            v
        },
    };
    let vd = match &t.video {
        Some(v) => {
            let mut f = Vec::new();
            push_opt(&mut f, "device", &v.device);
            push_opt(&mut f, "ocr_mode", &v.ocr_mode);
            assert(field_views(f@) =~= video_fields(*v));
            single_part(ChannelKind::Video, &v.host, dh, f)
        },
        None => {
            let v: Vec<ResolvedChannel> = Vec::new();
            assert(channel_views(v@) =~= Seq::empty());
            v
        },
    };
    let hd = match &t.hid {
        Some(h) => {
            let mut f = Vec::new();
            push_opt(&mut f, "cmd", &h.cmd);
            assert(field_views(f@) =~= opt_field("cmd"@, h.cmd));
            single_part(ChannelKind::Hid, &h.host, dh, f)
        },
        None => {
            let v: Vec<ResolvedChannel> = Vec::new();
            assert(channel_views(v@) =~= Seq::empty());
            v
        },
    };
    let ub = match &t.usb {
        Some(u) => {
            let mut f = Vec::new();
            push_opt(&mut f, "cmd", &u.cmd);
            assert(field_views(f@) =~= opt_field("cmd"@, u.cmd));
            single_part(ChannelKind::Usb, &u.host, dh, f)
        },
        None => {
            let v: Vec<ResolvedChannel> = Vec::new();
            assert(channel_views(v@) =~= Seq::empty());
            v
        },
    };
    let ad = match &t.adb {
        Some(a) => {
            let mut f = Vec::new();
            push_opt(&mut f, "serial", &a.serial);
            push_opt(&mut f, "adb", &a.adb);
            assert(field_views(f@) =~= adb_fields(*a));
            single_part(ChannelKind::Adb, &a.host, dh, f)
        },
        None => {
            let v: Vec<ResolvedChannel> = Vec::new();
            assert(channel_views(v@) =~= Seq::empty());
            v
        },
    };
    (nb, pw, vd, hd, ub, ad)
}

/// The resolved view of target `t` named `name`.
pub(crate) fn resolve(name: &str, t: &Target) -> (r: ResolvedTarget)
    ensures
        r.name@ == name@,
        r.default_host@ == t.default_host_spec(),
        r.description == t.description,
        channel_views(r.channels@) == resolved_channels(*t),
{
    let dh = t.default_host();
    let (mut channels, mut pw, mut vd, mut hd, mut ub, mut ad) = optional_parts(t, dh);
    let mut ser = serial_part(t, dh);
    let ghost (a0, a1, a2, a3, a4, a5, a6) = (channels@, ser@, pw@, vd@, hd@, ub@, ad@);
    channels.append(&mut ser);
    channels.append(&mut pw);
    channels.append(&mut vd);
    channels.append(&mut hd);
    channels.append(&mut ub);
    channels.append(&mut ad);
    assert(channels@ == a0 + a1 + a2 + a3 + a4 + a5 + a6);
    assert(channel_views(channels@) =~= channel_views(a0) + channel_views(a1) + channel_views(a2)
        + channel_views(a3) + channel_views(a4) + channel_views(a5) + channel_views(a6));
    ResolvedTarget {
        name: owned(name),
        default_host: owned(dh),
        description: copy_opt(&t.description),
        channels,
    }
}

// ── which host a command runs on ────────────────────────────────────────────

/// The serial channels among `chans`, in order.
pub open spec fn serials_of(chans: Seq<ChannelView>) -> Seq<ChannelView>
    decreases chans.len(),
{
    if chans.len() == 0 {
        Seq::empty()
    } else {
        serials_of(chans.drop_last()) + if chans.last().kind == ChannelKind::Serial {
            seq![chans.last()]
        } else {
            Seq::empty()
        }
    }
}

/// The first of `chans` of kind `kind`.
pub open spec fn first_of_kind(chans: Seq<ChannelView>, kind: ChannelKind) -> Option<ChannelView>
    decreases chans.len(),
{
    if chans.len() == 0 {
        None
    } else {
        match first_of_kind(chans.drop_last(), kind) {
            Some(c) => Some(c),
            None => if chans.last().kind == kind {
                Some(chans.last())
            } else {
                None
            },
        }
    }
}

/// The first of `chans` named `n`.
pub open spec fn first_named(chans: Seq<ChannelView>, n: Seq<char>) -> Option<ChannelView>
    decreases chans.len(),
{
    if chans.len() == 0 {
        None
    } else {
        match first_named(chans.drop_last(), n) {
            Some(c) => Some(c),
            None => if chans.last().name == n {
                Some(chans.last())
            } else {
                None
            },
        }
    }
}

pub open spec fn names_of(chans: Seq<ChannelView>) -> Seq<Seq<char>> {
    chans.map_values(|c: ChannelView| c.name)
}

pub open spec fn no_interface_text(target: Seq<char>, n: Seq<char>, have: Seq<Seq<char>>) -> Seq<
    char,
> {
    "target '"@ + target + "' has no serial interface '"@ + n + "' (have: "@ + (if have.len() == 0 {
        "none"@
    } else {
        join(have, ", "@)
    }) + ")"@
}

pub open spec fn spans_hosts_text(target: Seq<char>, hosts: Seq<Seq<char>>) -> Seq<char> {
    "target '"@ + target + "' has serial interfaces on multiple hosts ("@ + join(hosts, ", "@)
        + "); specify one with --interface"@
}

/// Some two serial interfaces live on different hosts.
pub open spec fn spans_hosts(serials: Seq<ChannelView>) -> bool {
    exists|i: int, j: int|
        0 <= i < serials.len() && 0 <= j < serials.len() && #[trigger] serials[i].host
            != #[trigger] serials[j].host
}

/// Resolve the host a command runs on, given the channel it touches.
///
/// Singleton kinds use that channel's host, else the target default. Serial
/// with a name uses that interface's host, and a name the target does not
/// have is an error; serial without a name uses the common host of all the
/// target's interfaces, an error when they span hosts, and the default host
/// when it has none.
/// Where a command on `rt`'s channel of `kind` (interface `sn` for a serial
/// one) runs: the channel's host, or the refusal for an unknown or ambiguous
/// serial interface.
pub open spec fn channel_host_rel(
    rt: ResolvedTarget,
    kind: ChannelKind,
    sn: Option<Seq<char>>,
    r: Result<Seq<char>, Seq<char>>,
) -> bool {
    ({
            let chans = channel_views(rt.channels@);
            let serials = serials_of(chans);
            if kind == ChannelKind::Serial {
                match sn {
                    Some(n) => match first_named(serials, n) {
                        Some(c) => r == Ok::<Seq<char>, Seq<char>>(c.host),
                        None => r == Err::<Seq<char>, Seq<char>>(no_interface_text(
                            rt.name@,
                            n,
                            names_of(serials),
                        )),
                    },
                    None => if serials.len() == 0 {
                        r == Ok::<Seq<char>, Seq<char>>(rt.default_host@)
                    } else if spans_hosts(serials) {
                        r is Err && exists|hs: Seq<Seq<char>>|
                            sorted(hs) && (forall|h: Seq<char>|
                                hs.contains(h) <==> exists|i: int|
                                    0 <= i < serials.len() && #[trigger] serials[i].host == h)
                                && r->Err_0 == spans_hosts_text(rt.name@, hs)
                    } else {
                        r == Ok::<Seq<char>, Seq<char>>(serials[0].host)
                    },
                }
            } else {
                match first_of_kind(chans, kind) {
                    Some(c) => r == Ok::<Seq<char>, Seq<char>>(c.host),
                    None => r == Ok::<Seq<char>, Seq<char>>(rt.default_host@),
                }
            }
        })
}

/// Where a command on a target's channel runs is determined: the channel's
/// host, or one refusal naming the hosts an unnamed serial interface spans
/// in ascending order, and never two different answers.
pub proof fn law_a_channel_runs_in_one_place(
    rt: ResolvedTarget,
    kind: ChannelKind,
    sn: Option<Seq<char>>,
    r1: Result<Seq<char>, Seq<char>>,
    r2: Result<Seq<char>, Seq<char>>,
)
    requires
        channel_host_rel(rt, kind, sn, r1),
        channel_host_rel(rt, kind, sn, r2),
    ensures
        r1 == r2,
{
    let serials = serials_of(channel_views(rt.channels@));
    if kind == ChannelKind::Serial && sn is None && serials.len() > 0 && spans_hosts(serials) {
        let hs1 = choose|hs: Seq<Seq<char>>|
            sorted(hs) && (forall|h: Seq<char>|
                hs.contains(h) <==> exists|i: int| 0 <= i < serials.len() && #[trigger] serials[i].host == h)
                && r1->Err_0 == spans_hosts_text(rt.name@, hs);
        let hs2 = choose|hs: Seq<Seq<char>>|
            sorted(hs) && (forall|h: Seq<char>|
                hs.contains(h) <==> exists|i: int| 0 <= i < serials.len() && #[trigger] serials[i].host == h)
                && r2->Err_0 == spans_hosts_text(rt.name@, hs);
        lemma_sorted_unique(hs1, hs2);
    }
}

#[verifier::spinoff_prover]
pub fn channel_host(rt: &ResolvedTarget, kind: ChannelKind, serial_name: Option<&str>) -> (r:
    Result<String, LabError>)
    ensures
        ({
            let chans = channel_views(rt.channels@);
            let serials = serials_of(chans);
            if kind == ChannelKind::Serial {
                match serial_name {
                    Some(n) => match first_named(serials, n@) {
                        Some(c) => r matches Ok(h) && h@ == c.host,
                        None => r matches Err(e) && e.0@ == no_interface_text(
                            rt.name@,
                            n@,
                            names_of(serials),
                        ),
                    },
                    None => if serials.len() == 0 {
                        r matches Ok(h) && h@ == rt.default_host@
                    } else if spans_hosts(serials) {
                        r matches Err(e) && exists|hs: Seq<Seq<char>>|
                            sorted(hs) && (forall|h: Seq<char>|
                                hs.contains(h) <==> exists|i: int|
                                    0 <= i < serials.len() && #[trigger] serials[i].host == h)
                                && e.0@ == spans_hosts_text(rt.name@, hs)
                    } else {
                        r matches Ok(h) && h@ == serials[0].host
                    },
                }
            } else {
                match first_of_kind(chans, kind) {
                    Some(c) => r matches Ok(h) && h@ == c.host,
                    None => r matches Ok(h) && h@ == rt.default_host@,
                }
            }
        }),
{
    let ghost chans = channel_views(rt.channels@);
    if kind == ChannelKind::Serial {
        // The serial interfaces, their names, and the distinct hosts.
        let mut serials: Vec<&ResolvedChannel> = Vec::new();
        let mut names: Vec<String> = Vec::new();
        let mut hosts: Vec<String> = Vec::new();
        let mut i: usize = 0;
        while i < rt.channels.len()
            invariant
                i <= rt.channels.len(),
                chans == channel_views(rt.channels@),
                serials@.map_values(|c: &ResolvedChannel| c.view()) == serials_of(chans.take(i as int)),
                views(names@) == names_of(serials_of(chans.take(i as int))),
                sorted(views(hosts@)),
                forall|h: Seq<char>| views(hosts@).contains(h) <==> exists|j: int|
                    0 <= j < serials@.len() && #[trigger] serials@[j].host@ == h,
            decreases rt.channels.len() - i,
        {
            let c = &rt.channels[i];
            assert(chans.take(i + 1).drop_last() =~= chans.take(i as int));
            assert(chans[i as int] == c.view());
            let ghost before = serials@;
            let ghost nbefore = names@;
            if c.kind == ChannelKind::Serial {
                serials.push(c);
                names.push(c.name.clone());
                insert_sorted(&mut hosts, c.host.as_str());
                assert(serials@ == before.push(c));
                assert(serials@.map_values(|c: &ResolvedChannel| c.view()) =~= before.map_values(
                    |c: &ResolvedChannel| c.view(),
                ).push(c.view()));
                proof {
                    lemma_views_push(nbefore, c.name);
                    assert(names_of(serials_of(chans.take(i + 1))) =~= names_of(serials_of(chans.take(i as int))).push(c.name@));
                    assert forall|h: Seq<char>| views(hosts@).contains(h) <==> exists|j: int|
                        0 <= j < serials@.len() && #[trigger] serials@[j].host@ == h by {
                        if exists|j: int| 0 <= j < serials@.len() && #[trigger] serials@[j].host@ == h {
                            let j = choose|j: int| 0 <= j < serials@.len() && #[trigger] serials@[j].host@ == h;
                            if j < before.len() {
                                assert(before[j] == serials@[j]);
                            }
                        }
                        if views(hosts@).contains(h) && h != c.host@ {
                            let j = choose|j: int| 0 <= j < before.len() && #[trigger] before[j].host@ == h;
                            assert(serials@[j] == before[j]);
                        }
                        if h == c.host@ {
                            assert(serials@[before.len() as int] == c);
                        }
                    }
                }
            } else {
                assert(serials_of(chans.take(i + 1)) =~= serials_of(chans.take(i as int)));
            }
            i += 1;
        }
        assert(chans.take(rt.channels.len() as int) =~= chans);
        let ghost sv = serials_of(chans);
        match serial_name {
            Some(n) => {
                let mut k: usize = 0;
                while k < serials.len()
                    invariant
                        k <= serials.len(),
                        serials@.map_values(|c: &ResolvedChannel| c.view()) == sv,
                        sv == serials_of(channel_views(rt.channels@)),
                        kind == ChannelKind::Serial,
                        serial_name == Some(n),
                        first_named(sv.take(k as int), n@) is None,
                    decreases serials.len() - k,
                {
                    assert(sv.take(k + 1).drop_last() =~= sv.take(k as int));
                    assert(sv[k as int] == serials@[k as int].view());
                    if same(serials[k].name.as_str(), n) {
                        proof {
                            assert(sv.take(k + 1).last() == sv[k as int]);
                            assert(first_named(sv.take(k + 1), n@) == Some(sv[k as int]));
                            lemma_first_named_prefix(sv, n@, k as int + 1);
                        }
                        return Ok(serials[k].host.clone());
                    }
                    k += 1;
                }
                assert(sv.take(serials.len() as int) =~= sv);
                let mut m = owned("target '");
                push_str(&mut m, rt.name.as_str());
                push_str(&mut m, "' has no serial interface '");
                push_str(&mut m, n);
                push_str(&mut m, "' (have: ");
                if names.len() == 0 {
                    push_str(&mut m, "none");
                } else {
                    let j = join_strings(&names, ", ");
                    push_str(&mut m, j.as_str());
                }
                push_str(&mut m, ")");
                return Err(LabError(m));
            },
            None => {},
        }
        if serials.len() == 0 {
            return Ok(rt.default_host.clone());
        }
        if hosts.len() > 1 {
            proof {
                let hv = views(hosts@);
                lemma_lt_irreflexive(hv[0]);
                assert(hv.contains(hv[0]));
                assert(hv.contains(hv[1]));
                let a = choose|j: int| 0 <= j < serials@.len() && #[trigger] serials@[j].host@ == hv[0];
                let b = choose|j: int| 0 <= j < serials@.len() && #[trigger] serials@[j].host@ == hv[1];
                assert(sv[a] == serials@[a].view());
                assert(sv[b] == serials@[b].view());
                assert(sv[a].host != sv[b].host);
                assert forall|h: Seq<char>| hv.contains(h) <==> exists|i: int|
                    0 <= i < sv.len() && #[trigger] sv[i].host == h by {
                    if hv.contains(h) {
                        assert(views(hosts@).contains(h));
                        let j = choose|j: int| 0 <= j < serials@.len() && #[trigger] serials@[j].host@ == h;
                        assert(sv[j] == serials@[j].view());
                        assert(sv[j].host == h);
                    }
                    if exists|i: int| 0 <= i < sv.len() && #[trigger] sv[i].host == h {
                        let i = choose|i: int| 0 <= i < sv.len() && #[trigger] sv[i].host == h;
                        assert(sv[i] == serials@[i].view());
                        assert(serials@[i].host@ == h);
                    }
                }
            }
            let mut m = owned("target '");
            push_str(&mut m, rt.name.as_str());
            push_str(&mut m, "' has serial interfaces on multiple hosts (");
            let j = join_strings(&hosts, ", ");
            push_str(&mut m, j.as_str());
            push_str(&mut m, "); specify one with --interface");
            return Err(LabError(m));
        }
        proof {
            assert(sv[0] == serials@[0].view());
            if spans_hosts(sv) {
                let (a, b) = choose|a: int, b: int|
                    0 <= a < sv.len() && 0 <= b < sv.len() && #[trigger] sv[a].host != #[trigger] sv[b].host;
                assert(sv[a] == serials@[a].view());
                assert(sv[b] == serials@[b].view());
                let ha = serials@[a].host@;
                let hb = serials@[b].host@;
                assert(views(hosts@).contains(ha));
                assert(views(hosts@).contains(hb));
            }
        }
        return Ok(serials[0].host.clone());
    }
    let mut i: usize = 0;
    while i < rt.channels.len()
        invariant
            i <= rt.channels.len(),
            chans == channel_views(rt.channels@),
            kind != ChannelKind::Serial,
            first_of_kind(chans.take(i as int), kind) is None,
        decreases rt.channels.len() - i,
    {
        assert(chans.take(i + 1).drop_last() =~= chans.take(i as int));
        assert(chans[i as int] == rt.channels@[i as int].view());
        if rt.channels[i].kind == kind {
            proof {
                assert(chans.take(i + 1).last() == chans[i as int]);
                assert(first_of_kind(chans.take(i + 1), kind) == Some(chans[i as int]));
                lemma_first_of_kind_prefix(chans, kind, i as int + 1);
            }
            return Ok(rt.channels[i].host.clone());
        }
        i += 1;
    }
    assert(chans.take(rt.channels.len() as int) =~= chans);
    Ok(rt.default_host.clone())
}

/// Once a prefix holds a channel named `n`, the whole list's first is that one.
pub proof fn lemma_first_named_prefix(chans: Seq<ChannelView>, n: Seq<char>, k: int)
    requires
        0 <= k <= chans.len(),
        first_named(chans.take(k), n) is Some,
    ensures
        first_named(chans, n) == first_named(chans.take(k), n),
    decreases chans.len(),
{
    if k < chans.len() {
        assert(chans.drop_last().take(k) =~= chans.take(k));
        lemma_first_named_prefix(chans.drop_last(), n, k);
    } else {
        assert(chans.take(k) =~= chans);
    }
}

pub proof fn lemma_first_of_kind_prefix(chans: Seq<ChannelView>, kind: ChannelKind, k: int)
    requires
        0 <= k <= chans.len(),
        first_of_kind(chans.take(k), kind) is Some,
    ensures
        first_of_kind(chans, kind) == first_of_kind(chans.take(k), kind),
    decreases chans.len(),
{
    if k < chans.len() {
        assert(chans.drop_last().take(k) =~= chans.take(k));
        lemma_first_of_kind_prefix(chans.drop_last(), kind, k);
    } else {
        assert(chans.take(k) =~= chans);
    }
}

// ── validation (shared by load and the editor's save) ───────────────────────

/// The power-sense signals a serial interface may name.
pub open spec fn valid_sense(s: Seq<char>) -> bool {
    s == "cts"@ || s == "dsr"@ || s == "dcd"@ || s == "ri"@
}

/// The `video.ocr_mode` values.
pub open spec fn valid_ocr_mode(s: Seq<char>) -> bool {
    s == "text"@ || s == "gui"@
}

pub open spec fn starts_dash(s: Seq<char>) -> bool {
    s.len() > 0 && s[0] == '-'
}

pub open spec fn opt_starts_dash(o: Option<String>) -> bool {
    match o {
        Some(s) => starts_dash(s@),
        None => false,
    }
}

impl Lab {
    /// `h` names a declared host or `local`.
    pub open spec fn declared(self, h: Seq<char>) -> bool {
        self.host_keys().contains(h) || h == local()
    }
}

/// A declared host: named, with an `ssh` destination; `local` only as the
/// sentinel for this machine; nothing that ssh would read as an option.
pub open spec fn host_ok(name: Seq<char>, h: Host) -> bool {
    &&& name.len() > 0
    &&& crate::text::trim(h.ssh@).len() > 0
    &&& (name == local() ==> h.ssh@ == local())
    &&& !starts_dash(h.ssh@)
    &&& !opt_starts_dash(h.identity)
    &&& !opt_starts_dash(h.control_path)
}

pub open spec fn serial_ok(lab: Lab, d: Seq<char>, s: SerialChannel) -> bool {
    &&& s.name@.len() > 0
    &&& s.device@.len() > 0
    &&& (s.power_sense_signal matches Some(x) ==> valid_sense(x@))
    &&& lab.declared(host_or(s.host, d))
}

/// A target: named; every channel on a declared host; netboot's `host_ip` an
/// IPv4 address and its `http_port` a port number 1-65535; video's
/// `ocr_mode` one of the known engines; each serial interface named, with a
/// device, a known sense signal, and a name no other interface has.
pub open spec fn target_ok(lab: Lab, name: Seq<char>, t: Target) -> bool {
    let d = t.default_host_spec();
    &&& name.len() > 0
    &&& lab.declared(d)
    &&& (t.netboot matches Some(nb) ==> {
        &&& lab.declared(host_or(nb.host, d))
        &&& (nb.host_ip matches Some(ip) ==> crate::numbers::is_ipv4(ip@))
        &&& (nb.http_port matches Some(p) ==> (crate::numbers::unsigned_parse(p@, 65535) matches Some(
            v,
        ) && v != 0))
    })
    &&& (t.power matches Some(p) ==> lab.declared(host_or(p.host, d)))
    &&& (t.video matches Some(v) ==> lab.declared(host_or(v.host, d)) && (v.ocr_mode matches Some(
        m,
    ) ==> valid_ocr_mode(m@)))
    &&& (t.hid matches Some(h) ==> lab.declared(host_or(h.host, d)))
    &&& (t.adb matches Some(a) ==> lab.declared(host_or(a.host, d)))
    &&& (t.usb matches Some(u) ==> lab.declared(host_or(u.host, d)))
    &&& forall|i: int| 0 <= i < t.serial@.len() ==> serial_ok(lab, d, #[trigger] t.serial@[i])
    &&& forall|i: int, j: int|
        0 <= i < j < t.serial@.len() ==> #[trigger] t.serial@[i].name@ != #[trigger] t.serial@[j].name@
}

/// A structurally valid lab.
pub open spec fn lab_ok(lab: Lab) -> bool {
    &&& forall|i: int| 0 <= i < lab.hosts@.len() ==> host_ok(#[trigger] lab.hosts@[i].0@, lab.hosts@[i].1)
    &&& forall|i: int|
        0 <= i < lab.targets@.len() ==> target_ok(lab, #[trigger] lab.targets@[i].0@, lab.targets@[i].1)
}

/// Every one of `chans` lives on a host `lab` declares (or on `local`).
pub open spec fn all_declared(lab: Lab, chans: Seq<ChannelView>) -> bool {
    forall|j: int| 0 <= j < chans.len() ==> lab.declared((#[trigger] chans[j]).host)
}

proof fn lemma_all_declared_concat(lab: Lab, a: Seq<ChannelView>, b: Seq<ChannelView>)
    requires
        all_declared(lab, a),
        all_declared(lab, b),
    ensures
        all_declared(lab, a + b),
{
    assert forall|j: int| 0 <= j < (a + b).len() implies lab.declared((#[trigger] (a + b)[j]).host) by {
        if j < a.len() {
            assert((a + b)[j] == a[j]);
        } else {
            assert((a + b)[j] == b[j - a.len()]);
        }
    }
}

/// In a valid lab every channel of every target resolves to a declared host
/// (or `local`): a misspelled host is refused when the lab is read instead of
/// quietly running the command on this machine.
pub proof fn law_a_valid_lab_places_every_channel_on_a_declared_host(lab: Lab, i: int)
    requires
        lab_ok(lab),
        0 <= i < lab.targets@.len(),
    ensures
        all_declared(lab, resolved_channels(lab.targets@[i].1)),
{
    let t = lab.targets@[i].1;
    let d = t.default_host_spec();
    assert(target_ok(lab, lab.targets@[i].0@, t));
    let nb = match t.netboot {
        Some(nb) => single(ChannelKind::Netboot, nb.host, d, netboot_fields(nb)),
        None => Seq::empty(),
    };
    let se = t.serial@.map_values(|s: SerialChannel| serial_view(s, d));
    let pw = match t.power {
        Some(p) => single(ChannelKind::Power, p.host, d, power_fields(p)),
        None => Seq::empty(),
    };
    let vi = match t.video {
        Some(v) => single(ChannelKind::Video, v.host, d, video_fields(v)),
        None => Seq::empty(),
    };
    let hi = match t.hid {
        Some(h) => single(ChannelKind::Hid, h.host, d, opt_field("cmd"@, h.cmd)),
        None => Seq::empty(),
    };
    let us = match t.usb {
        Some(u) => single(ChannelKind::Usb, u.host, d, opt_field("cmd"@, u.cmd)),
        None => Seq::empty(),
    };
    let ad = match t.adb {
        Some(a) => single(ChannelKind::Adb, a.host, d, adb_fields(a)),
        None => Seq::empty(),
    };
    assert(all_declared(lab, se)) by {
        assert forall|j: int| 0 <= j < se.len() implies lab.declared((#[trigger] se[j]).host) by {
            assert(serial_ok(lab, d, t.serial@[j]));
        }
    }
    assert(all_declared(lab, nb));
    assert(all_declared(lab, pw));
    assert(all_declared(lab, vi));
    assert(all_declared(lab, hi));
    assert(all_declared(lab, us));
    assert(all_declared(lab, ad));
    lemma_all_declared_concat(lab, nb, se);
    lemma_all_declared_concat(lab, nb + se, pw);
    lemma_all_declared_concat(lab, nb + se + pw, vi);
    lemma_all_declared_concat(lab, nb + se + pw + vi, hi);
    lemma_all_declared_concat(lab, nb + se + pw + vi + hi, us);
    lemma_all_declared_concat(lab, nb + se + pw + vi + hi + us, ad);
    assert(resolved_channels(t) == nb + se + pw + vi + hi + us + ad);
}

/// A name that passes the name rule is safe as one path component and as an
/// argument: not empty, no `/`, no whitespace, not an option.
pub proof fn law_a_valid_name_is_one_plain_word(name: Seq<char>)
    requires
        valid_name(name),
    ensures
        name.len() > 0,
        !name.contains('/'),
        !name.contains(' '),
        name[0] != '-',
{
    assert forall|i: int| 0 <= i < name.len() implies #[trigger] name[i] != '/' && name[i] != ' ' by {
        assert(name_char(name[i]));
    }
}

/// The `local` sentinels: a host whose `ssh` is `local`, and whatever host
/// is named `local`, is this machine, whatever its FQDN says.
pub proof fn law_local_sentinels_are_this_machine(h: Host, name: Seq<char>, local_fqdn: Option<Seq<char>>)
    ensures
        h.ssh@ == local() ==> h.is_local_spec(name, local_fqdn),
        name == local() ==> h.is_local_spec(name, local_fqdn),
{
}

proof fn lemma_pairs_on_contains(name: Seq<char>, chans: Seq<ChannelView>, host: Seq<char>, p: (Seq<char>, ChannelView))
    ensures
        pairs_on(name, chans, host).contains(p) <==> (p.0 == name && p.1.host == host && chans.contains(p.1)),
    decreases chans.len(),
{
    if chans.len() > 0 {
        let q = chans.drop_last();
        lemma_pairs_on_contains(name, q, host, p);
        let tail = if chans.last().host == host { seq![(name, chans.last())] } else { Seq::empty() };
        let all = pairs_on(name, q, host) + tail;
        if all.contains(p) {
            let k = choose|k: int| 0 <= k < all.len() && all[k] == p;
            if k < pairs_on(name, q, host).len() {
                assert(pairs_on(name, q, host)[k] == p);
                assert(pairs_on(name, q, host).contains(p));
                let m = choose|m: int| 0 <= m < q.len() && q[m] == p.1;
                assert(chans[m] == p.1);
            } else {
                assert(tail[k - pairs_on(name, q, host).len()] == p);
                assert(chans[chans.len() - 1] == p.1);
            }
        }
        if p.0 == name && p.1.host == host && chans.contains(p.1) {
            let m = choose|m: int| 0 <= m < chans.len() && chans[m] == p.1;
            if m < chans.len() - 1 {
                assert(q[m] == p.1);
                assert(q.contains(p.1));
                let k = choose|k: int| 0 <= k < pairs_on(name, q, host).len() && pairs_on(name, q, host)[k] == p;
                assert(all[k] == p);
            } else {
                assert(all[all.len() - 1] == p);
            }
        }
    }
}

/// A target's resolved channels, as one opaque value.
#[verifier::opaque]
pub open spec fn chans_of(t: Target) -> Seq<ChannelView> {
    resolved_channels(t)
}

/// Some target named `p.0` resolves channel `p.1`.
#[verifier::opaque]
pub open spec fn resolves_in(targets: Seq<(String, Target)>, p: (Seq<char>, ChannelView)) -> bool {
    exists|i: int|
        0 <= i < targets.len() && (#[trigger] targets[i]).0@ == p.0 && chans_of(targets[i].1).contains(
            p.1,
        )
}

proof fn lemma_concat_contains<A>(a: Seq<A>, b: Seq<A>, x: A)
    ensures
        (a + b).contains(x) <==> a.contains(x) || b.contains(x),
{
    if (a + b).contains(x) {
        let k = choose|k: int| 0 <= k < (a + b).len() && (a + b)[k] == x;
        if k < a.len() {
            assert(a[k] == x);
        } else {
            assert(b[k - a.len()] == x);
        }
    }
    if a.contains(x) {
        let k = choose|k: int| 0 <= k < a.len() && a[k] == x;
        assert((a + b)[k] == x);
    }
    if b.contains(x) {
        let k = choose|k: int| 0 <= k < b.len() && b[k] == x;
        assert((a + b)[a.len() + k] == x);
    }
}

proof fn lemma_resolves_in_step(targets: Seq<(String, Target)>, p: (Seq<char>, ChannelView))
    requires
        targets.len() > 0,
    ensures
        resolves_in(targets, p) <==> resolves_in(targets.drop_last(), p) || (targets.last().0@
            == p.0 && chans_of(targets.last().1).contains(p.1)),
{
    reveal(resolves_in);
    let q = targets.drop_last();
    if resolves_in(targets, p) {
        let i = choose|i: int|
            0 <= i < targets.len() && (#[trigger] targets[i]).0@ == p.0 && chans_of(targets[i].1).contains(
                p.1,
            );
        if i < q.len() {
            assert(q[i] == targets[i]);
        }
    }
    if resolves_in(q, p) {
        let i = choose|i: int|
            0 <= i < q.len() && (#[trigger] q[i]).0@ == p.0 && chans_of(q[i].1).contains(p.1);
        assert(targets[i] == q[i]);
    }
    if targets.last().0@ == p.0 && chans_of(targets.last().1).contains(p.1) {
        assert(targets[targets.len() - 1] == targets.last());
    }
}

proof fn lemma_on_host_resolves_in(targets: Seq<(String, Target)>, host: Seq<char>, p: (Seq<char>, ChannelView))
    ensures
        on_host(targets, host).contains(p) <==> p.1.host == host && resolves_in(targets, p),
    decreases targets.len(),
{
    if targets.len() > 0 {
        let q = targets.drop_last();
        let last = targets.last();
        lemma_on_host_resolves_in(q, host, p);
        let cs = resolved_channels(last.1);
        assert(chans_of(last.1) == cs) by {
            reveal(chans_of);
        }
        lemma_pairs_on_contains(last.0@, cs, host, p);
        lemma_concat_contains(on_host(q, host), pairs_on(last.0@, cs, host), p);
        lemma_resolves_in_step(targets, p);
    } else {
        reveal(resolves_in);
    }
}

/// `channels_on_host` is the inverse index of target resolution: a
/// (target, channel) pair is listed for `host` exactly when that target
/// resolves that channel onto `host`.
pub proof fn law_channels_on_host_is_the_inverse_index(
    targets: Seq<(String, Target)>,
    host: Seq<char>,
    p: (Seq<char>, ChannelView),
)
    ensures
        on_host(targets, host).contains(p) <==> p.1.host == host && exists|i: int|
            0 <= i < targets.len() && (#[trigger] targets[i]).0@ == p.0 && resolved_channels(
                targets[i].1,
            ).contains(p.1),
{
    lemma_on_host_resolves_in(targets, host, p);
    reveal(resolves_in);
    reveal(chans_of);
}

fn starts_with_dash(s: &str) -> (r: bool)
    ensures
        r == starts_dash(s@),
{
    let v = chars_of(s);
    v.len() > 0 && v[0] == '-'
}

/// `h` names a declared host or `local`.
pub fn is_declared(lab: &Lab, h: &str) -> (r: bool)
    ensures
        r == lab.declared(h@),
{
    proof {
        lemma_first_index(lab.host_keys(), h@);
    }
    let found = lab.find_host(h);
    if found.is_some() {
        proof {
            let i = found->0 as int;
            assert(lab.host_keys()[i] == h@);
        }
        true
    } else {
        assert(!lab.host_keys().contains(h@));
        same(h, LOCAL)
    }
}

/// Two ascending lists with the same members are the same list.
proof fn lemma_sorted_unique(a: Seq<Seq<char>>, b: Seq<Seq<char>>)
    requires
        sorted(a),
        sorted(b),
        forall|x: Seq<char>| a.contains(x) <==> b.contains(x),
    ensures
        a == b,
    decreases a.len(),
{
    if a.len() == 0 {
        if b.len() > 0 {
            assert(b.contains(b[0]));
        }
        assert(a =~= b);
    } else if b.len() == 0 {
        assert(a.contains(a[0]));
    } else {
        assert(a.contains(a[0]));
        assert(b.contains(b[0]));
        let j = choose|j: int| 0 <= j < b.len() && b[j] == a[0];
        let i = choose|i: int| 0 <= i < a.len() && a[i] == b[0];
        if a[0] != b[0] {
            crate::text::lemma_lt_total(a[0], b[0]);
            if j > 0 {
                assert(lt(b[0], b[j]));
            }
            if i > 0 {
                assert(lt(a[0], a[i]));
            }
            assert(false);
        }
        let ta = a.drop_first();
        let tb = b.drop_first();
        assert forall|x: Seq<char>| ta.contains(x) <==> tb.contains(x) by {
            if ta.contains(x) {
                let k = choose|k: int| 0 <= k < ta.len() && ta[k] == x;
                assert(a[k + 1] == x);
                assert(lt(a[0], x));
                lemma_lt_irreflexive(x);
                assert(a.contains(x));
                let m = choose|m: int| 0 <= m < b.len() && b[m] == x;
                assert(m != 0);
                assert(tb[m - 1] == x);
            }
            if tb.contains(x) {
                let k = choose|k: int| 0 <= k < tb.len() && tb[k] == x;
                assert(b[k + 1] == x);
                assert(lt(b[0], x));
                lemma_lt_irreflexive(x);
                assert(b.contains(x));
                let m = choose|m: int| 0 <= m < a.len() && a[m] == x;
                assert(m != 0);
                assert(ta[m - 1] == x);
            }
        }
        lemma_sorted_unique(ta, tb);
        assert(a =~= seq![a[0]] + ta);
        assert(b =~= seq![b[0]] + tb);
    }
}

/// The names a lab declares (its hosts and `local`), ascending.
pub open spec fn declared_names(lab: Lab) -> Seq<Seq<char>> {
    choose|k: Seq<Seq<char>>| sorted(k) && forall|x: Seq<char>| k.contains(x) <==> lab.declared(x)
}

/// `"target 'NAME'"` followed by `what`: how a target's problems begin.
pub open spec fn ctx_text(name: Seq<char>, what: Seq<char>) -> Seq<char> {
    "target '"@ + name + "'"@ + what
}

/// A channel's host reference, `host` or else the default `d`, names no
/// declared host: the problem, quoting the declared names.
pub open spec fn ref_problem(lab: Lab, host: Option<String>, d: Seq<char>, ctx: Seq<char>) -> Option<Seq<char>> {
    let h = host_or(host, d);
    if lab.declared(h) {
        None
    } else {
        Some(ctx + " references unknown host '"@ + h + "' (declared: "@ + join(declared_names(lab), ", "@) + ")"@)
    }
}

fn check_host_ref(lab: &Lab, host: &Option<String>, default_host: &str, ctx: &str) -> (r: Result<
    (),
    LabError,
>)
    ensures
        r is Ok <==> lab.declared(host_or(*host, default_host@)),
        match ref_problem(*lab, *host, default_host@, ctx@) {
            Some(m) => r matches Err(e) && e.0@ == m,
            None => r is Ok,
        },
{
    let h = match host {
        Some(h) => h.as_str(),
        None => default_host,
    };
    if is_declared(lab, h) {
        Ok(())
    } else {
        // The declared names, in order, for the message.
        let mut known: Vec<String> = Vec::new();
        insert_sorted(&mut known, LOCAL);
        let mut i: usize = 0;
        while i < lab.hosts.len()
            invariant
                i <= lab.hosts.len(),
                sorted(views(known@)),
                forall|x: Seq<char>| views(known@).contains(x) <==> (x == local() || lab.host_keys().take(i as int).contains(x)),
            decreases lab.hosts.len() - i,
        {
            insert_sorted(&mut known, lab.hosts[i].0.as_str());
            proof {
                let t0 = lab.host_keys().take(i as int);
                let t1 = lab.host_keys().take(i + 1);
                let key = lab.hosts@[i as int].0@;
                assert(t1[i as int] == key);
                assert forall|x: Seq<char>| t1.contains(x) <==> (t0.contains(x) || x == key) by {
                    if t1.contains(x) {
                        let k = choose|k: int| 0 <= k < t1.len() && t1[k] == x;
                        if k < i {
                            assert(t0[k] == x);
                        }
                    }
                    if t0.contains(x) {
                        let k = choose|k: int| 0 <= k < t0.len() && t0[k] == x;
                        assert(t1[k] == x);
                    }
                }
            }
            i += 1;
        }
        proof {
            assert(lab.host_keys().take(lab.hosts.len() as int) =~= lab.host_keys());
            let k = views(known@);
            assert(sorted(k) && forall|x: Seq<char>| k.contains(x) <==> lab.declared(x));
            lemma_sorted_unique(k, declared_names(*lab));
        }
        let mut m = owned(ctx);
        push_str(&mut m, " references unknown host '");
        push_str(&mut m, h);
        push_str(&mut m, "' (declared: ");
        let j = join_strings(&known, ", ");
        push_str(&mut m, j.as_str());
        push_str(&mut m, ")");
        Err(LabError(m))
    }
}

pub open spec fn dash_text(name: Seq<char>, field: Seq<char>, value: Seq<char>) -> Seq<char> {
    "host '"@ + name + "': "@ + field + " '"@ + value + "' must not begin with '-'"@
}

/// The first problem of a declared host, if it has one.
pub open spec fn host_problem(name: Seq<char>, h: Host) -> Option<Seq<char>> {
    if name.len() == 0 {
        Some("a host has an empty name"@)
    } else if crate::text::trim(h.ssh@).len() == 0 {
        Some("host '"@ + name + "': missing required 'ssh' field"@)
    } else if name == local() && h.ssh@ != local() {
        Some("host 'local' means this machine and cannot have ssh = \""@ + h.ssh@ + "\"; give the remote host another name"@)
    } else if starts_dash(h.ssh@) {
        Some(dash_text(name, "ssh"@, h.ssh@))
    } else if opt_starts_dash(h.identity) {
        Some(dash_text(name, "identity"@, h.identity->0@))
    } else if opt_starts_dash(h.control_path) {
        Some(dash_text(name, "control_path"@, h.control_path->0@))
    } else {
        None
    }
}

fn check_host(name: &str, h: &Host) -> (r: Result<(), LabError>)
    ensures
        r is Ok <==> host_ok(name@, *h),
        match host_problem(name@, *h) {
            Some(m) => r matches Err(e) && e.0@ == m,
            None => r is Ok,
        },
{
    if chars_of(name).len() == 0 {
        return Err(LabError(owned("a host has an empty name")));
    }
    let t = crate::text::trimmed(h.ssh.as_str());
    if t.as_str().is_empty() {
        let mut m = owned("host '");
        push_str(&mut m, name);
        push_str(&mut m, "': missing required 'ssh' field");
        return Err(LabError(m));
    }
    if same(name, LOCAL) && !same(h.ssh.as_str(), LOCAL) {
        let mut m = owned("host 'local' means this machine and cannot have ssh = \"");
        push_str(&mut m, h.ssh.as_str());
        push_str(&mut m, "\"; give the remote host another name");
        return Err(LabError(m));
    }
    let dash_ssh = starts_with_dash(h.ssh.as_str());
    let dash_id = match &h.identity {
        Some(x) => starts_with_dash(x.as_str()),
        None => false,
    };
    let dash_cp = match &h.control_path {
        Some(x) => starts_with_dash(x.as_str()),
        None => false,
    };
    if dash_ssh || dash_id || dash_cp {
        let (field, value) = if dash_ssh {
            ("ssh", h.ssh.as_str())
        } else if dash_id {
            ("identity", h.identity.as_ref().unwrap().as_str())
        } else {
            ("control_path", h.control_path.as_ref().unwrap().as_str())
        };
        let mut m = owned("host '");
        push_str(&mut m, name);
        push_str(&mut m, "': ");
        push_str(&mut m, field);
        push_str(&mut m, " '");
        push_str(&mut m, value);
        push_str(&mut m, "' must not begin with '-'");
        return Err(LabError(m));
    }
    Ok(())
}

fn ctx_for(name: &str, what: &str) -> (r: String)
    ensures
        r@ == ctx_text(name@, what@),
{
    let mut m = owned("target '");
    push_str(&mut m, name);
    push_str(&mut m, "'");
    push_str(&mut m, what);
    m
}

/// An earlier serial interface of `t` than the `k`th has its name.
pub open spec fn name_taken(t: Target, k: int) -> bool {
    exists|j: int| 0 <= j < k && #[trigger] t.serial@[j].name@ == t.serial@[k].name@
}

/// The first problem of `t`'s serial interfaces from the `k`th on.
pub open spec fn serial_problem(lab: Lab, name: Seq<char>, t: Target, d: Seq<char>, k: int) -> Option<Seq<char>>
    decreases t.serial@.len() - k,
{
    if k < 0 || k >= t.serial@.len() {
        None
    } else {
        let s = t.serial@[k];
        if s.name@.len() == 0 || s.device@.len() == 0 {
            Some(ctx_text(name, ": each [[serial]] needs name + device"@))
        } else if name_taken(t, k) {
            Some(ctx_text(name, ": duplicate serial name '"@) + s.name@ + "'"@)
        } else if s.power_sense_signal matches Some(x) && !valid_sense(x@) {
            Some(ctx_text(name, " serial '"@) + s.name@ + "': invalid power_sense_signal '"@
                + s.power_sense_signal->0@ + "' (valid: cts, dsr, dcd, ri)"@)
        } else if ref_problem(lab, s.host, d, ctx_text(name, " serial '"@) + s.name@ + "'"@) is Some {
            ref_problem(lab, s.host, d, ctx_text(name, " serial '"@) + s.name@ + "'"@)
        } else {
            serial_problem(lab, name, t, d, k + 1)
        }
    }
}

fn check_serials(lab: &Lab, name: &str, t: &Target, d: &str) -> (r: Result<(), LabError>)
    requires
        d@ == t.default_host_spec(),
    ensures
        match serial_problem(*lab, name@, *t, d@, 0) {
            Some(m) => r matches Err(e) && e.0@ == m,
            None => r is Ok,
        },
        r is Ok <==> (forall|i: int|
            0 <= i < t.serial@.len() ==> serial_ok(*lab, d@, #[trigger] t.serial@[i])) && (forall|
            i: int,
            j: int,
        | 0 <= i < j < t.serial@.len() ==> #[trigger] t.serial@[i].name@ != #[trigger] t.serial@[j].name@),
{
    let mut k: usize = 0;
    while k < t.serial.len()
        invariant
            k <= t.serial.len(),
            d@ == t.default_host_spec(),
            forall|i: int| 0 <= i < k ==> serial_ok(*lab, d@, #[trigger] t.serial@[i]),
            forall|i: int, j: int|
                0 <= i < j < k ==> #[trigger] t.serial@[i].name@ != #[trigger] t.serial@[j].name@,
            serial_problem(*lab, name@, *t, d@, 0) == serial_problem(*lab, name@, *t, d@, k as int),
        decreases t.serial.len() - k,
    {
        let s = &t.serial[k];
        if chars_of(s.name.as_str()).len() == 0 || chars_of(s.device.as_str()).len() == 0 {
            let m = ctx_for(name, ": each [[serial]] needs name + device");
            return Err(LabError(m));
        }
        let mut j: usize = 0;
        while j < k
            invariant
                j <= k < t.serial.len(),
                s == &t.serial@[k as int],
                forall|i: int| 0 <= i < j ==> t.serial@[i].name@ != s.name@,
                s.name@.len() > 0 && s.device@.len() > 0,
                serial_problem(*lab, name@, *t, d@, 0) == serial_problem(*lab, name@, *t, d@, k as int),
            decreases k - j,
        {
            if same(t.serial[j].name.as_str(), s.name.as_str()) {
                let mut m = ctx_for(name, ": duplicate serial name '");
                push_str(&mut m, s.name.as_str());
                push_str(&mut m, "'");
                proof {
                    assert(t.serial@[j as int].name@ == t.serial@[k as int].name@);
                    assert(name_taken(*t, k as int));
                }
                return Err(LabError(m));
            }
            j += 1;
        }
        if let Some(sense) = &s.power_sense_signal {
            let x = sense.as_str();
            if !(same(x, "cts") || same(x, "dsr") || same(x, "dcd") || same(x, "ri")) {
                let mut m = ctx_for(name, " serial '");
                push_str(&mut m, s.name.as_str());
                push_str(&mut m, "': invalid power_sense_signal '");
                push_str(&mut m, x);
                push_str(&mut m, "' (valid: cts, dsr, dcd, ri)");
                return Err(LabError(m));
            }
        }
        let mut ctx = ctx_for(name, " serial '");
        push_str(&mut ctx, s.name.as_str());
        push_str(&mut ctx, "'");
        let c = check_host_ref(lab, &s.host, d, ctx.as_str());
        if c.is_err() {
            return c;
        }
        proof {
            assert(!name_taken(*t, k as int));
        }
        k += 1;
    }
    Ok(())
}

/// `a` when it is a problem, else `b`.
pub open spec fn first_of(a: Option<Seq<char>>, b: Option<Seq<char>>) -> Option<Seq<char>> {
    match a {
        Some(_) => a,
        None => b,
    }
}

pub open spec fn netboot_problem(lab: Lab, name: Seq<char>, nb: NetbootChannel, d: Seq<char>) -> Option<Seq<char>> {
    first_of(
        ref_problem(lab, nb.host, d, ctx_text(name, " netboot"@)),
        first_of(
            match nb.host_ip {
                Some(ip) => if crate::numbers::is_ipv4(ip@) {
                    None
                } else {
                    Some(ctx_text(name, " netboot: host_ip '"@) + ip@ + "' is not an IPv4 address"@)
                },
                None => None,
            },
            match nb.http_port {
                Some(p) => if crate::numbers::unsigned_parse(p@, 65535) matches Some(v) && v != 0 {
                    None
                } else {
                    Some(ctx_text(name, " netboot: http_port '"@) + p@ + "' is not a port number (1-65535)"@)
                },
                None => None,
            },
        ),
    )
}

pub open spec fn video_problem(lab: Lab, name: Seq<char>, v: VideoChannel, d: Seq<char>) -> Option<Seq<char>> {
    first_of(
        ref_problem(lab, v.host, d, ctx_text(name, " video"@)),
        match v.ocr_mode {
            Some(m) => if valid_ocr_mode(m@) {
                None
            } else {
                Some(ctx_text(name, " video: invalid ocr_mode '"@) + m@ + "' (valid: text, gui)"@)
            },
            None => None,
        },
    )
}

/// The first problem of a target, if it has one: its name, its default host,
/// then each channel in turn (netboot, power, video, hid, adb, usb, then the
/// serial interfaces in order).
pub open spec fn target_problem(lab: Lab, name: Seq<char>, t: Target) -> Option<Seq<char>> {
    let d = t.default_host_spec();
    if name.len() == 0 {
        Some("a target has an empty name"@)
    } else {
        first_of(
            ref_problem(lab, None, d, ctx_text(name, ""@)),
            first_of(
                match t.netboot {
                    Some(nb) => netboot_problem(lab, name, nb, d),
                    None => None,
                },
                first_of(
                    match t.power {
                        Some(p) => ref_problem(lab, p.host, d, ctx_text(name, " power"@)),
                        None => None,
                    },
                    first_of(
                        match t.video {
                            Some(v) => video_problem(lab, name, v, d),
                            None => None,
                        },
                        first_of(
                            match t.hid {
                                Some(h) => ref_problem(lab, h.host, d, ctx_text(name, " hid"@)),
                                None => None,
                            },
                            first_of(
                                match t.adb {
                                    Some(a) => ref_problem(lab, a.host, d, ctx_text(name, " adb"@)),
                                    None => None,
                                },
                                first_of(
                                    match t.usb {
                                        Some(u) => ref_problem(lab, u.host, d, ctx_text(name, " usb"@)),
                                        None => None,
                                    },
                                    serial_problem(lab, name, t, d, 0),
                                ),
                            ),
                        ),
                    ),
                ),
            ),
        )
    }
}

fn check_target(lab: &Lab, name: &str, t: &Target) -> (r: Result<(), LabError>)
    ensures
        r is Ok <==> target_ok(*lab, name@, *t),
        match target_problem(*lab, name@, *t) {
            Some(m) => r matches Err(e) && e.0@ == m,
            None => r is Ok,
        },
{
    if chars_of(name).len() == 0 {
        return Err(LabError(owned("a target has an empty name")));
    }
    let d = t.default_host();
    let none: Option<String> = None;
    let ctx = ctx_for(name, "");
    let c = check_host_ref(lab, &none, d, ctx.as_str());
    if c.is_err() {
        return c;
    }
    if let Some(nb) = &t.netboot {
        let ctx = ctx_for(name, " netboot");
        let c = check_host_ref(lab, &nb.host, d, ctx.as_str());
        if c.is_err() {
            return c;
        }
        if let Some(ip) = &nb.host_ip {
            if !crate::numbers::parse_ipv4(ip.as_str()) {
                let mut m = ctx_for(name, " netboot: host_ip '");
                push_str(&mut m, ip.as_str());
                push_str(&mut m, "' is not an IPv4 address");
                return Err(LabError(m));
            }
        }
        if let Some(port) = &nb.http_port {
            let ok = match crate::numbers::parse_unsigned(port.as_str(), 65535) {
                Some(p) => p != 0,
                None => false,
            };
            if !ok {
                let mut m = ctx_for(name, " netboot: http_port '");
                push_str(&mut m, port.as_str());
                push_str(&mut m, "' is not a port number (1-65535)");
                return Err(LabError(m));
            }
        }
    }
    if let Some(p) = &t.power {
        let ctx = ctx_for(name, " power");
        let c = check_host_ref(lab, &p.host, d, ctx.as_str());
        if c.is_err() {
            return c;
        }
    }
    if let Some(v) = &t.video {
        let ctx = ctx_for(name, " video");
        let c = check_host_ref(lab, &v.host, d, ctx.as_str());
        if c.is_err() {
            return c;
        }
        if let Some(mode) = &v.ocr_mode {
            if !(same(mode.as_str(), "text") || same(mode.as_str(), "gui")) {
                let mut m = ctx_for(name, " video: invalid ocr_mode '");
                push_str(&mut m, mode.as_str());
                push_str(&mut m, "' (valid: text, gui)");
                return Err(LabError(m));
            }
        }
    }
    if let Some(h) = &t.hid {
        let ctx = ctx_for(name, " hid");
        let c = check_host_ref(lab, &h.host, d, ctx.as_str());
        if c.is_err() {
            return c;
        }
    }
    if let Some(a) = &t.adb {
        let ctx = ctx_for(name, " adb");
        let c = check_host_ref(lab, &a.host, d, ctx.as_str());
        if c.is_err() {
            return c;
        }
    }
    if let Some(u) = &t.usb {
        let ctx = ctx_for(name, " usb");
        let c = check_host_ref(lab, &u.host, d, ctx.as_str());
        if c.is_err() {
            return c;
        }
    }
    check_serials(lab, name, t, d)
}

/// The first problem among the hosts from the `i`th on.
pub open spec fn hosts_problem(lab: Lab, i: int) -> Option<Seq<char>>
    decreases lab.hosts@.len() - i,
{
    if i < 0 || i >= lab.hosts@.len() {
        None
    } else {
        first_of(host_problem(lab.hosts@[i].0@, lab.hosts@[i].1), hosts_problem(lab, i + 1))
    }
}

/// The first problem among the targets from the `i`th on.
pub open spec fn targets_problem(lab: Lab, i: int) -> Option<Seq<char>>
    decreases lab.targets@.len() - i,
{
    if i < 0 || i >= lab.targets@.len() {
        None
    } else {
        first_of(target_problem(lab, lab.targets@[i].0@, lab.targets@[i].1), targets_problem(lab, i + 1))
    }
}

/// The first problem of a lab: hosts in order, then targets in order.
pub open spec fn lab_problem(lab: Lab) -> Option<Seq<char>> {
    first_of(hosts_problem(lab, 0), targets_problem(lab, 0))
}

/// Reject a lab that is not structurally valid, naming the first problem.
pub fn validate(lab: &Lab) -> (r: Result<(), LabError>)
    ensures
        r is Ok <==> lab_ok(*lab),
        match lab_problem(*lab) {
            Some(m) => r matches Err(e) && e.0@ == m,
            None => r is Ok,
        },
{
    let mut i: usize = 0;
    while i < lab.hosts.len()
        invariant
            i <= lab.hosts.len(),
            forall|k: int| 0 <= k < i ==> host_ok(#[trigger] lab.hosts@[k].0@, lab.hosts@[k].1),
            hosts_problem(*lab, 0) == hosts_problem(*lab, i as int),
        decreases lab.hosts.len() - i,
    {
        let c = check_host(lab.hosts[i].0.as_str(), &lab.hosts[i].1);
        if c.is_err() {
            return c;
        }
        i += 1;
    }
    let mut i: usize = 0;
    while i < lab.targets.len()
        invariant
            i <= lab.targets.len(),
            forall|k: int| 0 <= k < lab.hosts@.len() ==> host_ok(#[trigger] lab.hosts@[k].0@, lab.hosts@[k].1),
            forall|k: int| 0 <= k < i ==> target_ok(*lab, #[trigger] lab.targets@[k].0@, lab.targets@[k].1),
            hosts_problem(*lab, 0) is None,
            targets_problem(*lab, 0) == targets_problem(*lab, i as int),
        decreases lab.targets.len() - i,
    {
        let c = check_target(lab, lab.targets[i].0.as_str(), &lab.targets[i].1);
        if c.is_err() {
            return c;
        }
        i += 1;
    }
    Ok(())
}

/// Every `power.serial_interface` names one of its target's own serial
/// interfaces.
pub open spec fn power_refs_ok(lab: Lab) -> bool {
    forall|i: int|
        0 <= i < lab.targets@.len() ==> (#[trigger] lab.targets@[i].1.power matches Some(p) ==> (
        p.serial_interface matches Some(si) ==> exists|j: int|
            0 <= j < lab.targets@[i].1.serial@.len() && lab.targets@[i].1.serial@[j].name@ == si@))
}

pub open spec fn serial_names_of(t: Target) -> Seq<Seq<char>> {
    t.serial@.map_values(|s: SerialChannel| s.name@)
}

/// The target's `power.serial_interface`, when it names none of its serial
/// interfaces: the problem, listing the ones there are.
pub open spec fn power_ref_problem(name: Seq<char>, t: Target) -> Option<Seq<char>> {
    match t.power {
        Some(p) => match p.serial_interface {
            Some(si) => if exists|j: int| 0 <= j < t.serial@.len() && t.serial@[j].name@ == si@ {
                None
            } else {
                Some(ctx_text(name, ": power.serial_interface '"@) + si@
                    + "' names no serial interface of this target (have: "@ + (if t.serial@.len() == 0 {
                    "none"@
                } else {
                    join(serial_names_of(t), ", "@)
                }) + "); point it at one with `paniolo power set -t "@ + name
                    + " --serial-interface <name>`, or remove the power channel first"@)
            },
            None => None,
        },
        None => None,
    }
}

pub open spec fn power_refs_problem(lab: Lab, i: int) -> Option<Seq<char>>
    decreases lab.targets@.len() - i,
{
    if i < 0 || i >= lab.targets@.len() {
        None
    } else {
        first_of(power_ref_problem(lab.targets@[i].0@, lab.targets@[i].1), power_refs_problem(lab, i + 1))
    }
}

/// What a save refuses first: a structural problem, else a dangling power
/// reference.
pub open spec fn save_problem(lab: Lab) -> Option<Seq<char>> {
    first_of(lab_problem(lab), power_refs_problem(lab, 0))
}

/// [`validate`], plus the cross-reference a write must not leave dangling:
/// a `power.serial_interface` names one of the target's own interfaces.
pub fn validate_for_save(lab: &Lab) -> (r: Result<(), LabError>)
    ensures
        r is Ok <==> lab_ok(*lab) && power_refs_ok(*lab),
        match save_problem(*lab) {
            Some(m) => r matches Err(e) && e.0@ == m,
            None => r is Ok,
        },
{
    let v = validate(lab);
    if v.is_err() {
        return v;
    }
    let mut i: usize = 0;
    while i < lab.targets.len()
        invariant
            i <= lab.targets.len(),
            lab_ok(*lab),
            lab_problem(*lab) is None,
            power_refs_problem(*lab, 0) == power_refs_problem(*lab, i as int),
            forall|k: int|
                0 <= k < i ==> (#[trigger] lab.targets@[k].1.power matches Some(p) ==> (
                p.serial_interface matches Some(si) ==> exists|j: int|
                    0 <= j < lab.targets@[k].1.serial@.len() && lab.targets@[k].1.serial@[j].name@
                        == si@)),
        decreases lab.targets.len() - i,
    {
        let t = &lab.targets[i].1;
        if let Some(p) = &t.power {
            if let Some(si) = &p.serial_interface {
                let mut found = false;
                let mut j: usize = 0;
                while j < t.serial.len()
                    invariant
                        j <= t.serial.len(),
                        t == &lab.targets@[i as int].1,
                        !found ==> forall|k: int| 0 <= k < j ==> t.serial@[k].name@ != si@,
                        found ==> exists|k: int| 0 <= k < t.serial@.len() && t.serial@[k].name@ == si@,
                    decreases t.serial.len() - j,
                {
                    if same(t.serial[j].name.as_str(), si.as_str()) {
                        found = true;
                    }
                    j += 1;
                }
                if !found {
                    let mut have: Vec<String> = Vec::new();
                    let mut j: usize = 0;
                    while j < t.serial.len()
                        invariant
                            j <= t.serial.len(),
                            views(have@) == serial_names_of(*t).take(j as int),
                        decreases t.serial.len() - j,
                    {
                        proof {
                            assert(serial_names_of(*t).take(j + 1) =~= serial_names_of(*t).take(j as int).push(t.serial@[j as int].name@));
                        }
                        crate::text::push_line(&mut have, t.serial[j].name.clone());
                        j += 1;
                    }
                    assert(serial_names_of(*t).take(t.serial.len() as int) =~= serial_names_of(*t));
                    let name = lab.targets[i].0.as_str();
                    let mut m = ctx_for(name, ": power.serial_interface '");
                    push_str(&mut m, si.as_str());
                    push_str(&mut m, "' names no serial interface of this target (have: ");
                    if have.len() == 0 {
                        push_str(&mut m, "none");
                    } else {
                        let j = join_strings(&have, ", ");
                        push_str(&mut m, j.as_str());
                    }
                    push_str(&mut m, "); point it at one with `paniolo power set -t ");
                    push_str(&mut m, name);
                    push_str(&mut m, " --serial-interface <name>`, or remove the power channel first");
                    return Err(LabError(m));
                }
            }
        }
        proof {
            assert(power_ref_problem(lab.targets@[i as int].0@, lab.targets@[i as int].1) is None);
        }
        i += 1;
    }
    Ok(())
}

} // verus!
