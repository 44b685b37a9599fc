//! The decisions of the command-line front end that are not I/O: which
//! target and interface a command means, which channels are on this host,
//! how a sense signal is spelled, and how channels and dashboards are shown.
use vstd::prelude::*;
use crate::doctor::channel_label as channel_name_text;
use crate::model::{
    ascii_lower, eq_ignore_case, host_or, local, Lab, PowerChannel, ResolvedChannel,
    ResolvedTarget, SerialChannel, Target, VideoChannel, valid_sense,
};
use crate::text::{opt_view, 
    cat, cat3, chars_of, join, join_strings, owned, push_line, push_str, sorted, string_of, views,
    decimal, push_decimal,
};

verus! {

/// The target a command means: the one named, else the lab's only target.
pub open spec fn single_target(keys: Seq<Seq<char>>, name: Option<Seq<char>>) -> Result<Seq<char>, Seq<char>> {
    match name {
        Some(n) => Ok(n),
        None => if keys.len() == 1 {
            Ok(keys[0])
        } else if keys.len() == 0 {
            Err("No targets configured."@)
        } else {
            Err("Multiple targets ("@ + join(keys, ", "@) + ") — specify one with -t."@)
        },
    }
}


pub open spec fn result_view(r: Result<String, String>) -> Result<Seq<char>, Seq<char>> {
    match r {
        Ok(s) => Ok(s@),
        Err(e) => Err(e@),
    }
}

pub fn resolve_single_target(lab: &Lab, name: Option<&str>) -> (r: Result<String, String>)
    ensures
        result_view(r) == single_target(lab.target_keys(), opt_view(name)),
{
    if let Some(n) = name {
        return Ok(owned(n));
    }
    let names = lab.target_names();
    if names.len() == 1 {
        Ok(names[0].clone())
    } else if names.len() == 0 {
        Err(owned("No targets configured."))
    } else {
        let mut m = cat("Multiple targets (", join_strings(&names, ", ").as_str());
        push_str(&mut m, ") — specify one with -t.");
        Err(m)
    }
}

pub open spec fn serial_names(s: Seq<SerialChannel>) -> Seq<Seq<char>> {
    s.map_values(|c: SerialChannel| c.name@)
}

/// The first serial interface named `n`.
pub open spec fn named_index(s: Seq<SerialChannel>, n: Seq<char>, i: int) -> Option<int>
    decreases s.len() - i,
{
    if i < 0 || i >= s.len() {
        None
    } else if s[i].name@ == n {
        Some(i)
    } else {
        named_index(s, n, i + 1)
    }
}

/// Which serial interface a command means: the one named, else the only one.
pub open spec fn pick_serial_spec(s: Seq<SerialChannel>, name: Option<Seq<char>>) -> Result<int, Seq<char>> {
    match name {
        Some(n) => match named_index(s, n, 0) {
            Some(i) => Ok(i),
            None => Err(
                "no serial interface '"@ + n + "' (have: "@ + join(serial_names(s), ", "@) + ")"@,
            ),
        },
        None => if s.len() == 1 {
            Ok(0)
        } else if s.len() == 0 {
            Err("no serial interfaces configured (paniolo serial add ...)"@)
        } else {
            Err("multiple serial interfaces ("@ + join(serial_names(s), ", "@) + "); specify one with -i"@)
        },
    }
}

fn names_text(serials: &[SerialChannel]) -> (r: String)
    ensures
        r@ == join(serial_names(serials@), ", "@),
{
    let mut v: Vec<String> = Vec::new();
    let mut i: usize = 0;
    while i < serials.len()
        invariant
            i <= serials.len(),
            views(v@) == serial_names(serials@.take(i as int)),
        decreases serials.len() - i,
    {
        push_line(&mut v, serials[i].name.clone());
        assert(serial_names(serials@.take(i + 1)) =~= serial_names(serials@.take(i as int)).push(serials@[i as int].name@));
        i += 1;
    }
    assert(serials@.take(serials.len() as int) =~= serials@);
    join_strings(&v, ", ")
}

pub fn pick_serial<'a>(serials: &'a [SerialChannel], name: Option<&str>) -> (r: Result<&'a SerialChannel, String>)
    ensures
        match pick_serial_spec(serials@, opt_view(name)) {
            Ok(i) => r matches Ok(c) && *c == serials@[i],
            Err(m) => r matches Err(e) && e@ == m,
        },
{
    match name {
        Some(n) => {
            let mut i: usize = 0;
            while i < serials.len()
                invariant
                    i <= serials.len(),
                    opt_view(name) == Some(n@),
                    named_index(serials@, n@, 0) == named_index(serials@, n@, i as int),
                decreases serials.len() - i,
            {
                if crate::text::same(serials[i].name.as_str(), n) {
                    assert(named_index(serials@, n@, i as int) == Some(i as int));
                    let c = &serials[i];
                    assert(*c == serials@[i as int]);
                    return Ok(c);
                }
                i += 1;
            }
            let mut m = cat3("no serial interface '", n, "' (have: ");
            push_str(&mut m, names_text(serials).as_str());
            push_str(&mut m, ")");
            Err(m)
        },
        None => {
            if serials.len() == 1 {
                Ok(&serials[0])
            } else if serials.len() == 0 {
                Err(owned("no serial interfaces configured (paniolo serial add ...)"))
            } else {
                let mut m = cat("multiple serial interfaces (", names_text(serials).as_str());
                push_str(&mut m, "); specify one with -i");
                Err(m)
            }
        },
    }
}

pub open spec fn not_found_text(target: Seq<char>) -> Seq<char> {
    "target '"@ + target + "' not found in lab"@
}

/// The serial interfaces of `t` that live on this host.
pub open spec fn local_serial_list(t: Target) -> Seq<SerialChannel> {
    t.serial@.filter(|s: SerialChannel| host_or(s.host, t.default_host_spec()) == local())
}

fn copy_serial(s: &SerialChannel) -> (r: SerialChannel)
    ensures
        r == *s,
{
    SerialChannel {
        name: s.name.clone(),
        device: s.device.clone(),
        baud: s.baud,
        power_sense_signal: crate::error::copy_opt(&s.power_sense_signal),
        power_button: s.power_button,
        host: crate::error::copy_opt(&s.host),
    }
}

/// The serial interfaces of `target` on this host.
pub fn local_serials(lab: &Lab, target: &str) -> (r: Result<Vec<SerialChannel>, String>)
    ensures
        match lab.target_spec(target@) {
            None => r matches Err(e) && e@ == not_found_text(target@),
            Some(t) => r matches Ok(v) && v@ == local_serial_list(t),
        },
{
    proof {
        crate::model::lemma_first_index(lab.target_keys(), target@);
    }
    let i = match lab.find_target(target) {
        Some(i) => i,
        None => return Err(cat3("target '", target, "' not found in lab")),
    };
    let t = &lab.targets[i].1;
    let d = t.default_host();
    let mut out: Vec<SerialChannel> = Vec::new();
    let mut k: usize = 0;
    proof {
        reveal(Seq::filter);
    }
    while k < t.serial.len()
        invariant
            k <= t.serial.len(),
            d@ == t.default_host_spec(),
            out@ == t.serial@.take(k as int).filter(|s: SerialChannel| host_or(s.host, t.default_host_spec()) == local()),
        decreases t.serial.len() - k,
    {
        proof {
            reveal(Seq::filter);
            assert(t.serial@.take(k + 1).drop_last() =~= t.serial@.take(k as int));
        }
        let s = &t.serial[k];
        let h = match &s.host {
            Some(h) => h.as_str(),
            None => d,
        };
        if crate::text::same(h, crate::model::LOCAL) {
            out.push(copy_serial(s));
        }
        k += 1;
    }
    assert(t.serial@.take(t.serial.len() as int) =~= t.serial@);
    Ok(out)
}

pub open spec fn local_power_spec(t: Option<Target>, target: Seq<char>) -> Result<PowerChannel, Seq<char>> {
    match t {
        None => Err(not_found_text(target)),
        Some(t) => match t.power {
            None => Err(
                "target '"@ + target + "' has no power channel (paniolo power set -t "@ + target
                    + " ...)"@,
            ),
            Some(p) => if host_or(p.host, t.default_host_spec()) != local() {
                Err("power channel for '"@ + target + "' is not on this host"@)
            } else {
                Ok(p)
            },
        },
    }
}

/// The hid channel of `target` as this host runs it: refused when the lab
/// has no such target; `None` when the target has no hid channel or it lives
/// on another host; otherwise the channel's command, if it has one.
pub fn local_hid(lab: &Lab, target: &str) -> (r: Result<Option<Option<String>>, String>)
    ensures
        match lab.target_spec(target@) {
            None => r matches Err(e) && e@ == "target '"@ + target@ + "' not found in lab"@,
            Some(t) => match t.hid {
                None => r matches Ok(None),
                Some(h) => if host_or(h.host, t.default_host_spec()) != local() {
                    r matches Ok(None)
                } else {
                    r matches Ok(Some(c)) && c == h.cmd
                },
            },
        },
{
    proof {
        crate::model::lemma_first_index(lab.target_keys(), target@);
    }
    let i = match lab.find_target(target) {
        Some(i) => i,
        None => return Err(cat3("target '", target, "' not found in lab")),
    };
    let t = &lab.targets[i].1;
    match &t.hid {
        None => Ok(None),
        Some(h) => {
            let d = t.default_host();
            let on = match &h.host {
                Some(x) => x.as_str(),
                None => d,
            };
            if !crate::text::same(on, crate::model::LOCAL) {
                Ok(None)
            } else {
                Ok(Some(crate::error::copy_opt(&h.cmd)))
            }
        },
    }
}

/// The refusal for a local hid channel without a command.
pub fn hid_cmd_missing(target: &str) -> (r: String)
    ensures
        r@ == "hid channel for '"@ + target@ + "' has no cmd (paniolo hid set -t "@ + target@ + " --cmd ...)"@,
{
    let mut m = cat3("hid channel for '", target, "' has no cmd (paniolo hid set -t ");
    push_str(&mut m, target);
    push_str(&mut m, " --cmd ...)");
    m
}

/// The power channel of `target`, required to be on this host.
pub fn local_power(lab: &Lab, target: &str) -> (r: Result<PowerChannel, String>)
    ensures
        match (r, local_power_spec(lab.target_spec(target@), target@)) {
            (Ok(p), Ok(q)) => p == q,
            (Err(e), Err(m)) => e@ == m,
            _ => false,
        },
{
    proof {
        crate::model::lemma_first_index(lab.target_keys(), target@);
    }
    let i = match lab.find_target(target) {
        Some(i) => i,
        None => return Err(cat3("target '", target, "' not found in lab")),
    };
    let t = &lab.targets[i].1;
    let d = t.default_host();
    match &t.power {
        None => {
            let mut m = cat3("target '", target, "' has no power channel (paniolo power set -t ");
            push_str(&mut m, target);
            push_str(&mut m, " ...)");
            Err(m)
        },
        Some(p) => {
            let h = match &p.host {
                Some(h) => h.as_str(),
                None => d,
            };
            if !crate::text::same(h, crate::model::LOCAL) {
                return Err(cat3("power channel for '", target, "' is not on this host"));
            }
            Ok(PowerChannel {
                cycle_cmd: crate::error::copy_opt(&p.cycle_cmd),
                on_cmd: crate::error::copy_opt(&p.on_cmd),
                off_cmd: crate::error::copy_opt(&p.off_cmd),
                state_cmd: crate::error::copy_opt(&p.state_cmd),
                serial_interface: crate::error::copy_opt(&p.serial_interface),
                host: crate::error::copy_opt(&p.host),
            })
        },
    }
}

pub open spec fn local_video_spec(t: Option<Target>, target: Seq<char>) -> Result<VideoChannel, Seq<char>> {
    match t {
        None => Err(not_found_text(target)),
        Some(t) => match t.video {
            None => Err(
                "target '"@ + target + "' has no video channel (paniolo video set -t "@ + target
                    + " --device ...)"@,
            ),
            Some(v) => if host_or(v.host, t.default_host_spec()) != local() {
                Err("video channel for '"@ + target + "' is not on this host"@)
            } else {
                Ok(v)
            },
        },
    }
}

/// The video channel of `target`, required to be on this host.
pub fn local_video(lab: &Lab, target: &str) -> (r: Result<VideoChannel, String>)
    ensures
        match (r, local_video_spec(lab.target_spec(target@), target@)) {
            (Ok(p), Ok(q)) => p == q,
            (Err(e), Err(m)) => e@ == m,
            _ => false,
        },
{
    proof {
        crate::model::lemma_first_index(lab.target_keys(), target@);
    }
    let i = match lab.find_target(target) {
        Some(i) => i,
        None => return Err(cat3("target '", target, "' not found in lab")),
    };
    let t = &lab.targets[i].1;
    let d = t.default_host();
    match &t.video {
        None => {
            let mut m = cat3("target '", target, "' has no video channel (paniolo video set -t ");
            push_str(&mut m, target);
            push_str(&mut m, " --device ...)");
            Err(m)
        },
        Some(v) => {
            let h = match &v.host {
                Some(h) => h.as_str(),
                None => d,
            };
            if !crate::text::same(h, crate::model::LOCAL) {
                return Err(cat3("video channel for '", target, "' is not on this host"));
            }
            Ok(VideoChannel {
                device: crate::error::copy_opt(&v.device),
                host: crate::error::copy_opt(&v.host),
                ocr_mode: crate::error::copy_opt(&v.ocr_mode),
            })
        },
    }
}

fn lowercase(s: &str) -> (r: String)
    ensures
        r@ == s@.map_values(|c: char| ascii_lower(c)),
{
    let v = chars_of(s);
    let mut out: Vec<char> = Vec::new();
    let mut i: usize = 0;
    while i < v.len()
        invariant
            v@ == s@,
            i <= v.len(),
            out@ == v@.take(i as int).map_values(|c: char| ascii_lower(c)),
        decreases v.len() - i,
    {
        out.push(crate::model::lower(v[i]));
        assert(v@.take(i + 1) =~= v@.take(i as int).push(v@[i as int]));
        assert(out@ =~= v@.take(i + 1).map_values(|c: char| ascii_lower(c)));
        i += 1;
    }
    assert(v@.take(v.len() as int) =~= v@);
    string_of(&out)
}

/// A sense signal as given on the command line: absent or `none` (any case)
/// is none; otherwise lower-cased, and required to be one of the known lines.
pub open spec fn normalized_sense(s: Option<Seq<char>>) -> Result<Option<Seq<char>>, Seq<char>> {
    match s {
        None => Ok(None),
        Some(x) => if eq_ignore_case(x, "none"@) {
            Ok(None)
        } else if valid_sense(x.map_values(|c: char| ascii_lower(c))) {
            Ok(Some(x.map_values(|c: char| ascii_lower(c))))
        } else {
            Err("Unknown sense signal '"@ + x + "'. Valid: cts, dsr, dcd, ri, none"@)
        },
    }
}

pub fn normalize_sense(sense: Option<&str>) -> (r: Result<Option<String>, String>)
    ensures
        match (r, normalized_sense(opt_view(sense))) {
            (Ok(Some(a)), Ok(Some(b))) => a@ == b,
            (Ok(None), Ok(None)) => true,
            (Err(e), Err(m)) => e@ == m,
            _ => false,
        },
{
    match sense {
        None => Ok(None),
        Some(s) => {
            if crate::model::same_ignoring_case(s, "none") {
                return Ok(None);
            }
            let v = lowercase(s);
            let vs = v.as_str();
            if crate::text::same(vs, "cts") || crate::text::same(vs, "dsr") || crate::text::same(vs, "dcd")
                || crate::text::same(vs, "ri") {
                Ok(Some(v))
            } else {
                Err(cat3("Unknown sense signal '", s, "'. Valid: cts, dsr, dcd, ri, none"))
            }
        },
    }
}

pub open spec fn fields_text(f: Seq<(Seq<char>, Seq<char>)>) -> Seq<char> {
    join(f.map_values(|p: (Seq<char>, Seq<char>)| p.0 + "="@ + p.1), "  "@)
}

/// A channel's scalar fields as `key=value`, two spaces apart.
pub fn fields_str(fields: &Vec<(&'static str, String)>) -> (r: String)
    ensures
        r@ == fields_text(crate::model::field_views(fields@)),
{
    let ghost f = crate::model::field_views(fields@);
    let mut v: Vec<String> = Vec::new();
    let mut i: usize = 0;
    while i < fields.len()
        invariant
            i <= fields.len(),
            f == crate::model::field_views(fields@),
            views(v@) == f.take(i as int).map_values(|p: (Seq<char>, Seq<char>)| p.0 + "="@ + p.1),
        decreases fields.len() - i,
    {
        push_line(&mut v, cat3(fields[i].0, "=", fields[i].1.as_str()));
        assert(f.take(i + 1) =~= f.take(i as int).push(f[i as int]));
        assert(views(v@) =~= f.take(i + 1).map_values(|p: (Seq<char>, Seq<char>)| p.0 + "="@ + p.1));
        i += 1;
    }
    assert(f.take(fields.len() as int) =~= f);
    join_strings(&v, "  ")
}

pub open spec fn channel_line(c: crate::model::ChannelView) -> Seq<char> {
    let fields = fields_text(c.fields);
    channel_name_text(c) + " @"@ + c.host + if fields.len() == 0 {
        Seq::empty()
    } else {
        "  "@ + fields
    }
}

/// How a channel is listed: its name, `@host`, then its fields.
pub fn channel_label(ch: &ResolvedChannel) -> (r: String)
    ensures
        r@ == channel_line(ch.view()),
{
    let fields = fields_str(&ch.fields);
    let mut s = cat3(crate::doctor::channel_name(ch).as_str(), " @", ch.host.as_str());
    if fields.unicode_len() > 0 {
        push_str(&mut s, "  ");
        push_str(&mut s, fields.as_str());
    }
    s
}

pub open spec fn headline(name: Seq<char>, hosts: Seq<Seq<char>>) -> Seq<char> {
    if hosts.len() > 1 {
        name + "  (spans "@ + join(hosts, ", "@) + ")"@
    } else if hosts.len() == 1 {
        name + "  @"@ + hosts[0]
    } else {
        name
    }
}

/// A target's first line: its name, then the host its channels live on, or
/// the hosts it spans.
pub fn target_headline(rt: &ResolvedTarget) -> (r: String)
    ensures
        exists|hs: Vec<String>|
            sorted(views(hs@)) && (rt.channels@.len() > 0 ==> forall|h: Seq<char>|
                views(hs@).contains(h) <==> exists|i: int|
                    0 <= i < rt.channels@.len() && #[trigger] rt.channels@[i].host@ == h) && (
            rt.channels@.len() == 0 ==> views(hs@) == seq![rt.default_host@]) && r@ == headline(
                rt.name@,
                views(hs@),
            ),
{
    let hosts = rt.hosts();
    if hosts.len() > 1 {
        let mut s = cat3(rt.name.as_str(), "  (spans ", join_strings(&hosts, ", ").as_str());
        push_str(&mut s, ")");
        s
    } else if hosts.len() == 1 {
        cat3(rt.name.as_str(), "  @", hosts[0].as_str())
    } else {
        rt.name.clone()
    }
}

/// Where the dashboard's companion streams are.
pub struct DashboardLinks {
    pub serial_ws: Option<String>,
    pub serial_port: Option<u16>,
    pub interface: Option<String>,
    pub hid_ws: Option<String>,
    pub hid_port: Option<u16>,
}

pub open spec fn dashboard_params(l: DashboardLinks) -> Seq<Seq<char>> {
    (match l.serial_ws {
        Some(ws) => seq!["serialws="@ + ws@],
        None => match l.serial_port {
            Some(p) => seq!["serial="@ + decimal(p as nat)],
            None => Seq::empty(),
        },
    }) + (match l.interface {
        Some(i) => seq!["interface="@ + i@],
        None => Seq::empty(),
    }) + (match l.hid_ws {
        Some(ws) => seq!["hidws="@ + ws@],
        None => match l.hid_port {
            Some(p) => seq!["hid="@ + decimal(p as nat)],
            None => Seq::empty(),
        },
    })
}

/// The dashboard URL: the video daemon's base, with the serial and hid
/// streams (a tunnelled WebSocket, else a local port) and the interface as
/// query parameters.
pub fn dashboard_url(video_base: &str, links: &DashboardLinks) -> (r: String)
    ensures
        r@ == if dashboard_params(*links).len() == 0 {
            video_base@
        } else {
            video_base@ + "/?"@ + join(dashboard_params(*links), "&"@)
        },
{
    let mut params: Vec<String> = Vec::new();
    if let Some(ws) = &links.serial_ws {
        push_line(&mut params, cat("serialws=", ws.as_str()));
    } else if let Some(port) = links.serial_port {
        let mut p = owned("serial=");
        push_decimal(&mut p, port as u64);
        push_line(&mut params, p);
    }
    if let Some(i) = &links.interface {
        push_line(&mut params, cat("interface=", i.as_str()));
    }
    if let Some(ws) = &links.hid_ws {
        push_line(&mut params, cat("hidws=", ws.as_str()));
    } else if let Some(port) = links.hid_port {
        let mut p = owned("hid=");
        push_decimal(&mut p, port as u64);
        push_line(&mut params, p);
    }
    assert(views(params@) =~= dashboard_params(*links));
    if params.len() == 0 {
        owned(video_base)
    } else {
        let mut s = cat(video_base, "/?");
        push_str(&mut s, join_strings(&params, "&").as_str());
        s
    }
}


// ── serial log, power state, hid ────────────────────────────────────────────

/// Which lines of the capture log `serial log` asks for, and how.
pub struct LogQuery {
    pub tail: Option<u64>,
    pub from: Option<u64>,
    pub to: Option<u64>,
    pub since: Option<u64>,
    pub raw: bool,
    pub json: bool,
    pub no_pending: bool,
}

pub open spec fn num_words(flag: Seq<char>, n: Option<u64>) -> Seq<Seq<char>> {
    match n {
        Some(v) => seq![flag, decimal(v as nat)],
        None => Seq::empty(),
    }
}

pub open spec fn flag_words(flag: Seq<char>, on: bool) -> Seq<Seq<char>> {
    if on {
        seq![flag]
    } else {
        Seq::empty()
    }
}

/// The interface a log is read for: the one named, else the only one.
pub open spec fn log_interface(interface: Option<Seq<char>>, serials: Seq<SerialChannel>) -> Option<Seq<char>> {
    match interface {
        Some(i) => Some(i),
        None => if serials.len() == 1 {
            Some(serials[0].name@)
        } else {
            None
        },
    }
}

/// The arguments of `serialcap log` for a query.
pub open spec fn log_words(interface: Option<Seq<char>>, serials: Seq<SerialChannel>, q: LogQuery) -> Seq<Seq<char>> {
    seq!["log"@] + (match log_interface(interface, serials) {
        Some(n) => seq!["--interface"@, n],
        None => Seq::empty(),
    }) + num_words("--tail"@, q.tail) + num_words("--from"@, q.from) + num_words("--to"@, q.to)
        + num_words("--since"@, q.since) + flag_words("--raw"@, q.raw) + flag_words("--json"@, q.json)
        + flag_words("--no-pending"@, q.no_pending)
}

fn push_num(v: &mut Vec<String>, flag: &str, n: Option<u64>)
    ensures
        views(final(v)@) == views(old(v)@) + num_words(flag@, n),
{
    if let Some(x) = n {
        push_line(v, owned(flag));
        let mut d = String::new();
        push_decimal(&mut d, x);
        push_line(v, d);
    }
    assert(views(v@) =~= views(old(v)@) + num_words(flag@, n));
}

fn push_flag(v: &mut Vec<String>, flag: &str, on: bool)
    ensures
        views(final(v)@) == views(old(v)@) + flag_words(flag@, on),
{
    if on {
        push_line(v, owned(flag));
    }
    assert(views(v@) =~= views(old(v)@) + flag_words(flag@, on));
}

/// The `serialcap log` arguments: the interface when one is named or the
/// target has only one, then the line range and output options.
pub fn serial_log_args(interface: Option<&str>, serials: &[SerialChannel], q: &LogQuery) -> (r: Vec<String>)
    ensures
        views(r@) == log_words(
            match interface {
                Some(i) => Some(i@),
                None => None,
            },
            serials@,
            *q,
        ),
{
    let mut v: Vec<String> = Vec::new();
    push_line(&mut v, owned("log"));
    let name: Option<String> = match interface {
        Some(i) => Some(owned(i)),
        None => if serials.len() == 1 {
            Some(serials[0].name.clone())
        } else {
            None
        },
    };
    if let Some(n) = name {
        push_line(&mut v, owned("--interface"));
        push_line(&mut v, n);
    }
    let ghost head = views(v@);
    push_num(&mut v, "--tail", q.tail);
    push_num(&mut v, "--from", q.from);
    push_num(&mut v, "--to", q.to);
    push_num(&mut v, "--since", q.since);
    push_flag(&mut v, "--raw", q.raw);
    push_flag(&mut v, "--json", q.json);
    push_flag(&mut v, "--no-pending", q.no_pending);
    assert(views(v@) =~= log_words(
        match interface {
            Some(i) => Some(i@),
            None => None,
        },
        serials@,
        *q,
    ));
    v
}

/// What a power-state hook printed: its first word, ASCII-lower-cased, is
/// `on` or `off`; anything else is no answer.
pub open spec fn state_word(text: Seq<char>) -> Option<bool> {
    let ws = crate::text::words(text);
    let w = if ws.len() > 0 {
        ws[0].map_values(|c: char| ascii_lower(c))
    } else {
        Seq::empty()
    };
    if w == "on"@ {
        Some(true)
    } else if w == "off"@ {
        Some(false)
    } else {
        None
    }
}

pub fn power_state_word(text: &str) -> (r: Option<bool>)
    ensures
        r == state_word(text@),
{
    let ws = crate::text::split_words(text);
    let w = if ws.len() > 0 {
        lowercase(ws[0].as_str())
    } else {
        String::new()
    };
    proof {
        assert(views(ws@).len() == ws@.len());
        if ws@.len() > 0 {
            assert(views(ws@)[0] == ws@[0]@);
        }
    }
    if crate::text::same(w.as_str(), "on") {
        Some(true)
    } else if crate::text::same(w.as_str(), "off") {
        Some(false)
    } else {
        None
    }
}

/// The hid helper's command line: the configured command, then each
/// argument quoted for the shell.
pub open spec fn hid_line(cmd: Seq<char>, args: Seq<String>) -> Seq<char> {
    cmd + " "@ + join(args.map_values(|a: String| crate::ssh::shell_quoted(a@)), " "@)
}

pub fn hid_command_line(cmd: &str, args: &Vec<String>) -> (r: String)
    ensures
        r@ == hid_line(cmd@, args@),
{
    let mut quoted: Vec<String> = Vec::new();
    let mut i: usize = 0;
    while i < args.len()
        invariant
            i <= args.len(),
            views(quoted@) == args@.take(i as int).map_values(|a: String| crate::ssh::shell_quoted(a@)),
        decreases args.len() - i,
    {
        push_line(&mut quoted, crate::ssh::shell_quote(args[i].as_str()));
        assert(args@.take(i + 1) =~= args@.take(i as int).push(args@[i as int]));
        assert(views(quoted@) =~= args@.take(i + 1).map_values(|a: String| crate::ssh::shell_quoted(a@)));
        i += 1;
    }
    assert(args@.take(args.len() as int) =~= args@);
    let mut r = cat(cmd, " ");
    push_str(&mut r, join_strings(&quoted, " ").as_str());
    r
}

/// What `serial set` says when asked to clear a sense signal.
pub open spec fn cannot_clear_text() -> Seq<char> {
    "`set` can't clear a sense signal. Remove and re-add the interface to clear it."@
}

/// The sense signal `serial set` writes: none when not given; otherwise the
/// normalized signal, refused like [`normalize_sense`] for an unknown one and
/// refused for `none`, which `set` cannot clear.
pub fn sense_for_update(sense: Option<&str>) -> (r: Result<Option<String>, String>)
    ensures
        sense is None ==> r matches Ok(None),
        sense is Some ==> match normalized_sense(opt_view(sense)) {
            Err(m) => r matches Err(e) && e@ == m,
            Ok(None) => r matches Err(e) && e@ == cannot_clear_text(),
            Ok(Some(v)) => r matches Ok(Some(x)) && x@ == v,
        },
{
    match sense {
        None => Ok(None),
        Some(_) => match normalize_sense(sense) {
            Err(e) => Err(e),
            Ok(Some(v)) => Ok(Some(v)),
            Ok(None) => Err(crate::text::owned(
                "`set` can't clear a sense signal. Remove and re-add the interface to clear it.",
            )),
        },
    }
}

/// `serial send`'s positionals: with two, the first names the target and
/// the second is the text; with one, it is the text and the target comes
/// from `--target`.
pub fn send_target_and_text(first: String, second: Option<String>, target: Option<String>) -> (r: (
    Option<String>,
    String,
))
    ensures
        match second {
            Some(text) => r.0 == Some(first) && r.1 == text,
            None => r.0 == target && r.1 == first,
        },
{
    match second {
        Some(text) => (Some(first), text),
        None => (target, first),
    }
}

} // verus!
