//! Per-channel transparent dispatch. A command resolves the host of the
//! channel it touches; when that is another machine, paniolo re-runs the same
//! command there against a single-host *slice* of the lab. The slice's
//! channels carry no `host`, so the remote resolves them all as local and
//! never dispatches again. Shipping the slice and running ssh is the
//! application's part.
use vstd::prelude::*;
use crate::error::copy_opt;
use crate::model::{
    channel_host_rel, channel_views, ResolvedTarget, AdbChannel, ChannelKind, ChannelView, HidChannel, Lab, LabError, NetbootChannel, PowerChannel,
    SerialChannel, Target, UsbChannel, VideoChannel, host_or, local, resolved_channels, serial_view,
    single, netboot_fields, power_fields, video_fields, adb_fields, opt_field, first_index,
    lemma_first_index, serials_of, first_named, first_of_kind,
};
use crate::model::{invalid_name_text, lab_ok, target_ok, valid_name};
use crate::labfile::{serial_exists_text, target_doc_serials, target_doc_shapes, target_doc_texts, LabFile};
use crate::tomldoc::{doc_serials, doc_shapes, doc_text, doc_texts};
use toml_edit::DocumentMut;
use crate::text::{opt_view, owned, push_str, same, starts_with, views};

verus! {

/// Re-exec transport mode.
#[derive(Debug, Clone, Copy, PartialEq, Eq, Structural)]
pub enum Mode {
    /// Non-interactive: stdio passed through.
    Reexec,
    /// PTY over `ssh -t` (e.g. tio serial console).
    Interactive,
}

/// The channels of `chans` on host `h`, each moved onto `local`.
pub open spec fn localized(chans: Seq<ChannelView>, h: Seq<char>) -> Seq<ChannelView>
    decreases chans.len(),
{
    if chans.len() == 0 {
        Seq::empty()
    } else {
        let c = chans.last();
        localized(chans.drop_last(), h) + if c.host == h {
            seq![ChannelView { kind: c.kind, name: c.name, host: local(), fields: c.fields }]
        } else {
            Seq::empty()
        }
    }
}

pub proof fn lemma_localized_concat(a: Seq<ChannelView>, b: Seq<ChannelView>, h: Seq<char>)
    ensures
        localized(a + b, h) == localized(a, h) + localized(b, h),
    decreases b.len(),
{
    if b.len() == 0 {
        assert(a + b =~= a);
    } else {
        lemma_localized_concat(a, b.drop_last(), h);
        assert((a + b).drop_last() =~= a + b.drop_last());
    }
}

proof fn lemma_localized_push(a: Seq<ChannelView>, c: ChannelView, h: Seq<char>)
    ensures
        localized(a.push(c), h) == localized(a, h) + if c.host == h {
            seq![ChannelView { kind: c.kind, name: c.name, host: local(), fields: c.fields }]
        } else {
            Seq::empty()
        },
{
    assert(a.push(c).drop_last() =~= a);
}

proof fn lemma_localized_single(
    kind: ChannelKind,
    host: Option<String>,
    d: Seq<char>,
    f: Seq<(Seq<char>, Seq<char>)>,
    h: Seq<char>,
)
    ensures
        localized(single(kind, host, d, f), h) == if host_or(host, d) == h {
            single(kind, None, local(), f)
        } else {
            Seq::empty()
        },
{
    lemma_localized_push(Seq::empty(), single(kind, host, d, f)[0], h);
    assert(Seq::<ChannelView>::empty().push(single(kind, host, d, f)[0]) =~= single(kind, host, d, f));
    assert(localized(Seq::<ChannelView>::empty(), h) =~= Seq::<ChannelView>::empty());
}

fn keep(host: &Option<String>, default_host: &str, h: &str) -> (r: bool)
    ensures
        r == (host_or(*host, default_host@) == h@),
{
    match host {
        Some(x) => same(x.as_str(), h),
        None => same(default_host, h),
    }
}

fn serial_slice(t: &Target, d: &str, h: &str) -> (r: Vec<SerialChannel>)
    requires
        d@ == t.default_host_spec(),
    ensures
        r@.map_values(|s: SerialChannel| serial_view(s, local())) == localized(
            t.serial@.map_values(|s: SerialChannel| serial_view(s, d@)),
            h@,
        ),
        forall|i: int| 0 <= i < r@.len() ==> (#[trigger] r@[i]).host is None,
{
    let mut out: Vec<SerialChannel> = Vec::new();
    let mut k: usize = 0;
    while k < t.serial.len()
        invariant
            k <= t.serial.len(),
            d@ == t.default_host_spec(),
            out@.map_values(|s: SerialChannel| serial_view(s, local())) == localized(
                t.serial@.take(k as int).map_values(|s: SerialChannel| serial_view(s, d@)),
                h@,
            ),
            forall|i: int| 0 <= i < out@.len() ==> (#[trigger] out@[i]).host is None,
        decreases t.serial.len() - k,
    {
        let s = &t.serial[k];
        let ghost before = out@;
        let ghost m = |s: SerialChannel| serial_view(s, d@);
        assert(t.serial@.take(k + 1).map_values(m) =~= t.serial@.take(k as int).map_values(m).push(
            serial_view(*s, d@),
        ));
        proof {
            lemma_localized_push(t.serial@.take(k as int).map_values(m), serial_view(*s, d@), h@);
        }
        if keep(&s.host, d, h) {
            let c = SerialChannel {
                name: s.name.clone(),
                device: s.device.clone(),
                baud: s.baud,
                power_sense_signal: copy_opt(&s.power_sense_signal),
                power_button: s.power_button,
                host: None,
            };
            out.push(c);
            assert(out@ == before.push(c));
            assert(out@.map_values(|s: SerialChannel| serial_view(s, local())) =~= before.map_values(
                |s: SerialChannel| serial_view(s, local()),
            ).push(serial_view(c, local())));
        }
        k += 1;
    }
    assert(t.serial@.take(t.serial.len() as int) =~= t.serial@);
    out
}

pub open spec fn netboot_part(o: Option<NetbootChannel>, d: Seq<char>) -> Seq<ChannelView> {
    match o {
        Some(x) => single(ChannelKind::Netboot, x.host, d, netboot_fields(x)),
        None => Seq::empty(),
    }
}

pub open spec fn power_part(o: Option<PowerChannel>, d: Seq<char>) -> Seq<ChannelView> {
    match o {
        Some(x) => single(ChannelKind::Power, x.host, d, power_fields(x)),
        None => Seq::empty(),
    }
}

pub open spec fn video_part(o: Option<VideoChannel>, d: Seq<char>) -> Seq<ChannelView> {
    match o {
        Some(x) => single(ChannelKind::Video, x.host, d, video_fields(x)),
        None => Seq::empty(),
    }
}

pub open spec fn hid_part(o: Option<HidChannel>, d: Seq<char>) -> Seq<ChannelView> {
    match o {
        Some(x) => single(ChannelKind::Hid, x.host, d, opt_field("cmd"@, x.cmd)),
        None => Seq::empty(),
    }
}

pub open spec fn usb_part(o: Option<UsbChannel>, d: Seq<char>) -> Seq<ChannelView> {
    match o {
        Some(x) => single(ChannelKind::Usb, x.host, d, opt_field("cmd"@, x.cmd)),
        None => Seq::empty(),
    }
}

pub open spec fn adb_part(o: Option<AdbChannel>, d: Seq<char>) -> Seq<ChannelView> {
    match o {
        Some(x) => single(ChannelKind::Adb, x.host, d, adb_fields(x)),
        None => Seq::empty(),
    }
}

/// The channel groups of `t` in declaration order, resolved against `d`.
pub open spec fn parts(t: Target, d: Seq<char>) -> Seq<Seq<ChannelView>> {
    seq![
        netboot_part(t.netboot, d),
        t.serial@.map_values(|s: SerialChannel| serial_view(s, d)),
        power_part(t.power, d),
        video_part(t.video, d),
        hid_part(t.hid, d),
        usb_part(t.usb, d),
        adb_part(t.adb, d),
    ]
}

proof fn lemma_slice_join(t: Target, st: Target, h: Seq<char>)
    requires
        st.host is None,
        forall|k: int|
            0 <= k < 7 ==> localized(#[trigger] parts(t, t.default_host_spec())[k], h) == parts(
                st,
                local(),
            )[k],
    ensures
        resolved_channels(st) == localized(resolved_channels(t), h),
{
    let pt = parts(t, t.default_host_spec());
    let ps = parts(st, local());
    assert(resolved_channels(t) == pt[0] + pt[1] + pt[2] + pt[3] + pt[4] + pt[5] + pt[6]);
    assert(resolved_channels(st) == ps[0] + ps[1] + ps[2] + ps[3] + ps[4] + ps[5] + ps[6]);
    lemma_localized_concat(pt[0] + pt[1] + pt[2] + pt[3] + pt[4] + pt[5], pt[6], h);
    lemma_localized_concat(pt[0] + pt[1] + pt[2] + pt[3] + pt[4], pt[5], h);
    lemma_localized_concat(pt[0] + pt[1] + pt[2] + pt[3], pt[4], h);
    lemma_localized_concat(pt[0] + pt[1] + pt[2], pt[3], h);
    lemma_localized_concat(pt[0] + pt[1], pt[2], h);
    lemma_localized_concat(pt[0], pt[1], h);
    assert(localized(pt[0], h) == ps[0]);
    assert(localized(pt[1], h) == ps[1]);
    assert(localized(pt[2], h) == ps[2]);
    assert(localized(pt[3], h) == ps[3]);
    assert(localized(pt[4], h) == ps[4]);
    assert(localized(pt[5], h) == ps[5]);
    assert(localized(pt[6], h) == ps[6]);
}

fn slice_netboot(o: &Option<NetbootChannel>, d: &str, h: &str) -> (r: Option<NetbootChannel>)
    ensures
        r matches Some(c) ==> c.host is None,
        localized(netboot_part(*o, d@), h@) == netboot_part(r, local()),
{
    proof {
        if o is Some {
            lemma_localized_single(ChannelKind::Netboot, o->0.host, d@, netboot_fields(o->0), h@);
        }
    }
    match o {
        Some(nb) if keep(&nb.host, d, h) => Some(
            NetbootChannel {
                interface: copy_opt(&nb.interface),
                host_ip: copy_opt(&nb.host_ip),
                tftp_root: copy_opt(&nb.tftp_root),
                boot_file: copy_opt(&nb.boot_file),
                http_port: copy_opt(&nb.http_port),
                content_type: copy_opt(&nb.content_type),
                host: None,
            },
        ),
        _ => None,
    }
}

fn slice_power(o: &Option<PowerChannel>, d: &str, h: &str) -> (r: Option<PowerChannel>)
    ensures
        r matches Some(c) ==> c.host is None,
        localized(power_part(*o, d@), h@) == power_part(r, local()),
{
    proof {
        if o is Some {
            lemma_localized_single(ChannelKind::Power, o->0.host, d@, power_fields(o->0), h@);
        }
    }
    match o {
        Some(p) if keep(&p.host, d, h) => Some(
            PowerChannel {
                cycle_cmd: copy_opt(&p.cycle_cmd),
                on_cmd: copy_opt(&p.on_cmd),
                off_cmd: copy_opt(&p.off_cmd),
                state_cmd: copy_opt(&p.state_cmd),
                serial_interface: copy_opt(&p.serial_interface),
                host: None,
            },
        ),
        _ => None,
    }
}

fn slice_video(o: &Option<VideoChannel>, d: &str, h: &str) -> (r: Option<VideoChannel>)
    ensures
        r matches Some(c) ==> c.host is None,
        localized(video_part(*o, d@), h@) == video_part(r, local()),
{
    proof {
        if o is Some {
            lemma_localized_single(ChannelKind::Video, o->0.host, d@, video_fields(o->0), h@);
        }
    }
    match o {
        Some(v) if keep(&v.host, d, h) => Some(
            VideoChannel { device: copy_opt(&v.device), host: None, ocr_mode: copy_opt(&v.ocr_mode) },
        ),
        _ => None,
    }
}

fn slice_hid(o: &Option<HidChannel>, d: &str, h: &str) -> (r: Option<HidChannel>)
    ensures
        r matches Some(c) ==> c.host is None,
        localized(hid_part(*o, d@), h@) == hid_part(r, local()),
{
    proof {
        if o is Some {
            lemma_localized_single(ChannelKind::Hid, o->0.host, d@, opt_field("cmd"@, o->0.cmd), h@);
        }
    }
    match o {
        Some(x) if keep(&x.host, d, h) => Some(HidChannel { cmd: copy_opt(&x.cmd), host: None }),
        _ => None,
    }
}

fn slice_usb(o: &Option<UsbChannel>, d: &str, h: &str) -> (r: Option<UsbChannel>)
    ensures
        r matches Some(c) ==> c.host is None,
        localized(usb_part(*o, d@), h@) == usb_part(r, local()),
{
    proof {
        if o is Some {
            lemma_localized_single(ChannelKind::Usb, o->0.host, d@, opt_field("cmd"@, o->0.cmd), h@);
        }
    }
    match o {
        Some(x) if keep(&x.host, d, h) => Some(UsbChannel { cmd: copy_opt(&x.cmd), host: None }),
        _ => None,
    }
}

fn slice_adb(o: &Option<AdbChannel>, d: &str, h: &str) -> (r: Option<AdbChannel>)
    ensures
        r matches Some(c) ==> c.host is None,
        localized(adb_part(*o, d@), h@) == adb_part(r, local()),
{
    proof {
        if o is Some {
            lemma_localized_single(ChannelKind::Adb, o->0.host, d@, adb_fields(o->0), h@);
        }
    }
    match o {
        Some(x) if keep(&x.host, d, h) => Some(
            AdbChannel { serial: copy_opt(&x.serial), adb: copy_opt(&x.adb), host: None },
        ),
        _ => None,
    }
}

/// Neither the target nor any of its channels names a host of its own.
pub open spec fn hosts_stripped(t: Target) -> bool {
    &&& t.host is None
    &&& t.netboot matches Some(c) ==> c.host is None
    &&& forall|i: int| 0 <= i < t.serial@.len() ==> (#[trigger] t.serial@[i]).host is None
    &&& t.power matches Some(c) ==> c.host is None
    &&& t.video matches Some(c) ==> c.host is None
    &&& t.hid matches Some(c) ==> c.host is None
    &&& t.usb matches Some(c) ==> c.host is None
    &&& t.adb matches Some(c) ==> c.host is None
}

/// `t` cut down to the channels on `host`, each with its `host` dropped.
fn slice_target(t: &Target, host: &str) -> (st: Target)
    ensures
        hosts_stripped(st),
        st.description == t.description,
        st.serial@.map_values(|s: SerialChannel| serial_view(s, local())) == localized(
            t.serial@.map_values(|s: SerialChannel| serial_view(s, t.default_host_spec())),
            host@,
        ),
        resolved_channels(st) == localized(resolved_channels(*t), host@),
{
    let d = t.default_host();
    let st = Target {
        host: None,
        description: copy_opt(&t.description),
        netboot: slice_netboot(&t.netboot, d, host),
        serial: serial_slice(t, d, host),
        power: slice_power(&t.power, d, host),
        video: slice_video(&t.video, d, host),
        hid: slice_hid(&t.hid, d, host),
        usb: slice_usb(&t.usb, d, host),
        adb: slice_adb(&t.adb, d, host),
    };
    proof {
        assert(st.default_host_spec() == local());
        assert forall|k: int| 0 <= k < 7 implies localized(
            #[trigger] parts(*t, t.default_host_spec())[k],
            host@,
        ) == parts(st, local())[k] by {}
        lemma_slice_join(*t, st, host@);
    }
    st
}

/// The first problem with the names of a slice's serial interfaces, from the
/// `i`th on: a name that breaks the name rule, or one an earlier interface of
/// the slice already has.
pub open spec fn slice_names_problem(target: Seq<char>, names: Seq<Seq<char>>, i: int) -> Option<Seq<char>>
    decreases names.len() - i,
{
    if i < 0 || i >= names.len() {
        None
    } else if !valid_name(names[i]) {
        Some(invalid_name_text("serial interface"@, names[i]))
    } else if names.take(i).contains(names[i]) {
        Some(serial_exists_text(target, names[i]))
    } else {
        slice_names_problem(target, names, i + 1)
    }
}

/// The names of the serial interfaces `target` keeps in the slice for `host`.
pub open spec fn kept_serial_names(t: Target, host: Seq<char>) -> Seq<Seq<char>> {
    localized(t.serial@.map_values(|s: SerialChannel| serial_view(s, t.default_host_spec())), host).map_values(
        |c: ChannelView| c.name,
    )
}

/// Why the slice of `target` (`t`) for `host` cannot be written: an invalid
/// target name, else the first bad name among the serial interfaces kept.
pub open spec fn slice_problem(target: Seq<char>, t: Target, host: Seq<char>) -> Option<Seq<char>> {
    if !valid_name(target) {
        Some(invalid_name_text("target"@, target))
    } else {
        slice_names_problem(target, kept_serial_names(t, host), 0)
    }
}

/// Every name of `localized(chans, h)` is the name of a channel of `chans`,
/// and names distinct among `chans` stay distinct.
proof fn lemma_localized_names(chans: Seq<ChannelView>, h: Seq<char>)
    ensures
        forall|i: int| #![trigger localized(chans, h)[i]] 0 <= i < localized(chans, h).len() ==> exists|k: int|
            0 <= k < chans.len() && chans[k].name == localized(chans, h)[i].name,
        (forall|a: int, b: int| 0 <= a < b < chans.len() ==> #[trigger] chans[a].name != #[trigger] chans[b].name)
            ==> forall|a: int, b: int| 0 <= a < b < localized(chans, h).len() ==> #[trigger] localized(chans, h)[a].name
            != #[trigger] localized(chans, h)[b].name,
    decreases chans.len(),
{
    if chans.len() > 0 {
        let p = chans.drop_last();
        let c = chans.last();
        lemma_localized_names(p, h);
        let lp = localized(p, h);
        let l = localized(chans, h);
        assert forall|i: int| #![trigger l[i]] 0 <= i < l.len() implies exists|k: int| 0 <= k < chans.len() && chans[k].name == l[i].name by {
            if i < lp.len() {
                assert(l[i] == lp[i]);
                let k = choose|k: int| 0 <= k < p.len() && p[k].name == lp[i].name;
                assert(chans[k] == p[k]);
            } else {
                assert(chans[chans.len() - 1].name == l[i].name);
            }
        }
        if forall|a: int, b: int| 0 <= a < b < chans.len() ==> #[trigger] chans[a].name != #[trigger] chans[b].name {
            assert forall|a: int, b: int| 0 <= a < b < p.len() implies #[trigger] p[a].name != #[trigger] p[b].name by {
                assert(p[a] == chans[a] && p[b] == chans[b]);
            }
            assert forall|a: int, b: int| 0 <= a < b < l.len() implies #[trigger] l[a].name != #[trigger] l[b].name by {
                assert(l[a] == lp[a]);
                if b < lp.len() {
                    assert(l[b] == lp[b]);
                } else {
                    let k = choose|k: int| 0 <= k < p.len() && p[k].name == lp[a].name;
                    assert(chans[k] == p[k]);
                    assert(l[b].name == c.name);
                    assert(chans[chans.len() - 1] == c);
                }
            }
        }
    }
}

proof fn lemma_no_names_problem(target: Seq<char>, names: Seq<Seq<char>>, i: int)
    requires
        0 <= i,
        forall|k: int| 0 <= k < names.len() ==> valid_name(#[trigger] names[k]),
        forall|a: int, b: int| 0 <= a < b < names.len() ==> #[trigger] names[a] != #[trigger] names[b],
    ensures
        slice_names_problem(target, names, i) is None,
    decreases names.len() - i,
{
    if i < names.len() {
        assert(!names.take(i).contains(names[i])) by {
            if names.take(i).contains(names[i]) {
                let k = choose|k: int| 0 <= k < names.take(i).len() && names.take(i)[k] == names[i];
                assert(names[k] == names[i]);
            }
        }
        lemma_no_names_problem(target, names, i + 1);
    }
}

/// A valid lab's slice of a target is always written, when the target's
/// name and its serial interfaces' names are valid: every serial interface
/// it keeps has a valid name no other kept one has.
pub proof fn law_a_valid_lab_always_yields_its_slice(lab: Lab, target: Seq<char>, host: Seq<char>)
    requires
        lab_ok(lab),
        lab.target_spec(target) is Some,
        valid_name(target),
        forall|k: int| 0 <= k < lab.target_spec(target)->0.serial@.len() ==> valid_name(
            #[trigger] lab.target_spec(target)->0.serial@[k].name@,
        ),
    ensures
        slice_problem(target, lab.target_spec(target)->0, host) is None,
{
    lemma_first_index(lab.target_keys(), target);
    let i = first_index(lab.target_keys(), target)->0;
    let t = lab.targets@[i].1;
    assert(target_ok(lab, lab.targets@[i].0@, t));
    let views = t.serial@.map_values(|s: SerialChannel| serial_view(s, t.default_host_spec()));
    lemma_localized_names(views, host);
    let l = localized(views, host);
    let names = kept_serial_names(t, host);
    assert(names == l.map_values(|c: ChannelView| c.name));
    assert forall|a: int, b: int| 0 <= a < b < views.len() implies #[trigger] views[a].name != #[trigger] views[b].name by {
        assert(t.serial@[a].name@ != t.serial@[b].name@);
    }
    assert forall|k: int| 0 <= k < names.len() implies valid_name(#[trigger] names[k]) by {
        assert(names[k] == l[k].name);
        let j = choose|j: int| 0 <= j < views.len() && views[j].name == l[k].name;
        assert(views[j].name == t.serial@[j].name@);
    }
    assert forall|a: int, b: int| 0 <= a < b < names.len() implies #[trigger] names[a] != #[trigger] names[b] by {
        assert(names[a] == l[a].name && names[b] == l[b].name);
    }
    lemma_no_names_problem(target, names, 0);
}

fn check_slice_names(target: &str, serials: &Vec<SerialChannel>) -> (r: Result<(), LabError>)
    ensures
        match slice_names_problem(target@, serials@.map_values(|s: SerialChannel| s.name@), 0) {
            Some(m) => r matches Err(e) && e.0@ == m,
            None => r is Ok,
        },
{
    let ghost names = serials@.map_values(|s: SerialChannel| s.name@);
    let mut i: usize = 0;
    while i < serials.len()
        invariant
            i <= serials.len(),
            names == serials@.map_values(|s: SerialChannel| s.name@),
            slice_names_problem(target@, names, 0) == slice_names_problem(target@, names, i as int),
        decreases serials.len() - i,
    {
        let n = serials[i].name.as_str();
        assert(names[i as int] == n@);
        if !crate::model::is_valid_name(n) {
            return match crate::model::validate_name("serial interface", n) {
                Err(e) => Err(e),
                Ok(()) => Ok(()),
            };
        }
        let mut j: usize = 0;
        while j < i
            invariant
                j <= i < serials.len(),
                names == serials@.map_values(|s: SerialChannel| s.name@),
                forall|k: int| 0 <= k < j ==> names[k] != names[i as int],
                n@ == names[i as int],
                valid_name(names[i as int]),
                slice_names_problem(target@, names, 0) == slice_names_problem(target@, names, i as int),
            decreases i - j,
        {
            assert(names[j as int] == serials@[j as int].name@);
            assert(names[i as int] == serials@[i as int].name@);
            if same(serials[j].name.as_str(), n) {
                proof {
                    assert(names.take(i as int)[j as int] == names[j as int]);
                    assert(names.take(i as int).contains(names[i as int]));
                }
                let mut m = owned("target '");
                push_str(&mut m, target);
                push_str(&mut m, "': serial '");
                push_str(&mut m, n);
                push_str(&mut m, "' already exists");
                return Err(LabError(m));
            }
            j += 1;
        }
        proof {
            assert(!names.take(i as int).contains(names[i as int])) by {
                if names.take(i as int).contains(names[i as int]) {
                    let k = choose|k: int| 0 <= k < names.take(i as int).len() && names.take(i as int)[k] == names[i as int];
                    assert(names[k] == names[i as int]);
                }
            }
        }
        i += 1;
    }
    Ok(())
}

/// Build the one-target lab holding only `target`'s channels that live on
/// `host`, their `host` fields stripped so the remote treats them as local.
/// This is the slice shipped for a remote re-exec. It is refused, as writing
/// it would be, for an invalid target name or for serial interfaces kept in
/// it under an invalid or repeated name.
pub fn build_slice(lab: &Lab, target: &str, host: &str) -> (r: Result<Lab, LabError>)
    ensures
        match lab.target_spec(target@) {
            None => r matches Err(e) && e.0@ == "no target '"@ + target@ + "'"@,
            Some(t) => match slice_problem(target@, t, host@) {
                Some(m) => r matches Err(e) && e.0@ == m,
                None => r matches Ok(s) && s.hosts@.len() == 0 && s.targets@.len() == 1
                    && s.targets@[0].0@ == target@ && hosts_stripped(s.targets@[0].1)
                    && s.targets@[0].1.description == t.description && resolved_channels(
                    s.targets@[0].1,
                ) == localized(resolved_channels(t), host@),
            },
        },
{
    proof {
        lemma_first_index(lab.target_keys(), target@);
    }
    let i = match lab.find_target(target) {
        Some(i) => i,
        None => {
            let mut m = owned("no target '");
            push_str(&mut m, target);
            push_str(&mut m, "'");
            return Err(LabError(m));
        },
    };
    match crate::model::validate_name("target", target) {
        Err(e) => return Err(e),
        Ok(()) => {},
    }
    let st = slice_target(&lab.targets[i].1, host);
    proof {
        let t = lab.targets@[i as int].1;
        let d = t.default_host_spec();
        let a = st.serial@.map_values(|s: SerialChannel| serial_view(s, local()));
        let b = localized(t.serial@.map_values(|s: SerialChannel| serial_view(s, d)), host@);
        assert(a == b);
        let na = st.serial@.map_values(|s: SerialChannel| s.name@);
        let nb = b.map_values(|c: ChannelView| c.name);
        assert forall|k: int| 0 <= k < na.len() implies #[trigger] na[k] == nb[k] by {
            assert(a[k] == serial_view(st.serial@[k], local()));
        }
        assert(na =~= nb);
    }
    match check_slice_names(target, &st.serial) {
        Err(e) => return Err(e),
        Ok(()) => {},
    }
    let mut targets: Vec<(String, Target)> = Vec::new();
    targets.push((owned(target), st));
    Ok(Lab { hosts: Vec::new(), targets })
}

/// Drop the global `--lab PATH` / `--lab=PATH` option from an argv tail; the
/// dev machine's lab path is meaningless on the control host.
pub open spec fn without_lab(args: Seq<Seq<char>>) -> Seq<Seq<char>>
    decreases args.len(),
{
    if args.len() == 0 {
        Seq::empty()
    } else if args[0] == "--lab"@ {
        if args.len() >= 2 {
            without_lab(args.subrange(2, args.len() as int))
        } else {
            Seq::empty()
        }
    } else if starts_with(args[0], "--lab="@) {
        without_lab(args.drop_first())
    } else {
        seq![args[0]] + without_lab(args.drop_first())
    }
}

/// Drop the global `--lab PATH` / `--lab=PATH` option from an argv tail.
pub fn strip_lab_option(args: &Vec<String>) -> (r: Vec<String>)
    ensures
        views(r@) == without_lab(views(args@)),
{
    let ghost a = views(args@);
    let mut out: Vec<String> = Vec::new();
    let mut i: usize = 0;
    assert(a.subrange(0, a.len() as int) =~= a);
    while i < args.len()
        invariant
            i <= args.len(),
            a == views(args@),
            without_lab(a) == views(out@) + without_lab(a.subrange(i as int, a.len() as int)),
        decreases args.len() - i,
    {
        let x = args[i].as_str();
        let ghost rest = a.subrange(i as int, a.len() as int);
        assert(rest[0] == x@);
        if same(x, "--lab") {
            if i + 1 < args.len() {
                assert(rest.subrange(2, rest.len() as int) =~= a.subrange(i + 2, a.len() as int));
                i += 2;
            } else {
                assert(a.subrange(a.len() as int, a.len() as int) =~= Seq::<Seq<char>>::empty());
                assert(views(out@) + Seq::<Seq<char>>::empty() =~= views(out@));
                i += 1;
            }
        } else if crate::text::has_prefix(x, "--lab=") {
            assert(rest.drop_first() =~= a.subrange(i + 1, a.len() as int));
            i += 1;
        } else {
            let ghost before = out@;
            out.push(args[i].clone());
            proof {
                crate::text::lemma_views_push(before, args@[i as int]);
                assert(rest.drop_first() =~= a.subrange(i + 1, a.len() as int));
                assert(views(out@) + without_lab(a.subrange(i + 1, a.len() as int)) =~= views(before)
                    + (seq![rest[0]] + without_lab(rest.drop_first())));
            }
            i += 1;
        }
    }
    assert(a.subrange(args.len() as int, a.len() as int) =~= Seq::<Seq<char>>::empty());
    assert(views(out@) + Seq::<Seq<char>>::empty() =~= views(out@));
    out
}

/// No argument of `args` is a `--lab` option.
pub open spec fn lab_free(args: Seq<Seq<char>>) -> bool {
    forall|i: int| 0 <= i < args.len() ==> (#[trigger] args[i]) != "--lab"@ && !starts_with(args[i], "--lab="@)
}

proof fn lemma_without_lab_of_clean(args: Seq<Seq<char>>)
    requires
        lab_free(args),
    ensures
        without_lab(args) == args,
    decreases args.len(),
{
    if args.len() > 0 {
        assert(args[0] != "--lab"@ && !starts_with(args[0], "--lab="@));
        let rest = args.drop_first();
        assert(lab_free(rest)) by {
            assert forall|i: int| 0 <= i < rest.len() implies (#[trigger] rest[i]) != "--lab"@
                && !starts_with(rest[i], "--lab="@) by {
                assert(rest[i] == args[i + 1]);
            }
        }
        lemma_without_lab_of_clean(rest);
        assert(seq![args[0]] + rest =~= args);
    }
}

/// What stripping leaves holds no `--lab` option at all, so stripping twice
/// is stripping once.
pub proof fn law_stripped_args_carry_no_lab_option(args: Seq<Seq<char>>)
    ensures
        lab_free(without_lab(args)),
        without_lab(without_lab(args)) == without_lab(args),
    decreases args.len(),
{
    if args.len() > 0 {
        if args[0] == "--lab"@ {
            if args.len() >= 2 {
                law_stripped_args_carry_no_lab_option(args.subrange(2, args.len() as int));
            }
        } else if starts_with(args[0], "--lab="@) {
            law_stripped_args_carry_no_lab_option(args.drop_first());
        } else {
            let rest = without_lab(args.drop_first());
            law_stripped_args_carry_no_lab_option(args.drop_first());
            let r = seq![args[0]] + rest;
            assert forall|i: int| 0 <= i < r.len() implies (#[trigger] r[i]) != "--lab"@
                && !starts_with(r[i], "--lab="@) by {
                if i > 0 {
                    assert(r[i] == rest[i - 1]);
                }
            }
        }
    }
    lemma_without_lab_of_clean(without_lab(args));
}

/// Whether the host named `h` is this machine (an undeclared host means
/// the local one).
pub open spec fn host_is_local(lab: Lab, h: Seq<char>, local_fqdn: Option<Seq<char>>) -> bool {
    match lab.host_spec(h) {
        Some(host) => host.is_local_spec(h, local_fqdn),
        None => true,
    }
}


/// Where a command on `target`'s channel of `kind` runs: `None` on this
/// machine, `Some(host)` when it has to be re-run on that control host.
/// `local_fqdn` is this machine's FQDN, if known.
pub fn route(
    lab: &Lab,
    target: &str,
    kind: ChannelKind,
    serial_name: Option<&str>,
    local_fqdn: Option<&str>,
) -> (r: Result<Option<String>, LabError>)
    ensures
        match lab.target_spec(target@) {
            None => r matches Err(e) && e.0@ == "target '"@ + target@ + "' not found in lab"@,
            Some(t) => exists|rt: ResolvedTarget, x: Result<Seq<char>, Seq<char>>|
                rt.name@ == target@ && rt.default_host@ == t.default_host_spec()
                    && channel_views(rt.channels@) == resolved_channels(t) && channel_host_rel(
                    rt,
                    kind,
                    opt_view(serial_name),
                    x,
                ) && match x {
                    Err(m) => r matches Err(e) && e.0@ == m,
                    Ok(h) => if host_is_local(*lab, h, opt_view(local_fqdn)) {
                        r matches Ok(None)
                    } else {
                        r matches Ok(Some(x)) && x@ == h
                    },
                },
        },
{
    let rt = match lab.resolved_target(target) {
        Some(rt) => rt,
        None => {
            let mut m = owned("target '");
            push_str(&mut m, target);
            push_str(&mut m, "' not found in lab");
            return Err(LabError(m));
        },
    };
    let res = crate::model::channel_host(&rt, kind, serial_name);
    let ghost x = match &res {
        Ok(h) => Ok::<Seq<char>, Seq<char>>(h@),
        Err(e) => Err::<Seq<char>, Seq<char>>(e.0@),
    };
    assert(channel_host_rel(rt, kind, opt_view(serial_name), x));
    let host_name = match res {
        Ok(h) => h,
        Err(e) => return Err(e),
    };
    let host = lab.host(host_name.as_str());
    if host.is_local(host_name.as_str(), local_fqdn) {
        Ok(None)
    } else {
        Ok(Some(host_name))
    }
}

/// Every one of `chans` lives on `h`.
pub open spec fn all_on(chans: Seq<ChannelView>, h: Seq<char>) -> bool {
    forall|i: int| 0 <= i < chans.len() ==> (#[trigger] chans[i]).host == h
}

proof fn lemma_localized_all_local(chans: Seq<ChannelView>, h: Seq<char>)
    ensures
        all_on(localized(chans, h), local()),
    decreases chans.len(),
{
    if chans.len() > 0 {
        lemma_localized_all_local(chans.drop_last(), h);
    }
}

proof fn lemma_localized_filter(chans: Seq<ChannelView>, h: Seq<char>)
    ensures
        localized(chans, h) == chans.filter(|c: ChannelView| c.host == h).map_values(
            |c: ChannelView| ChannelView { kind: c.kind, name: c.name, host: local(), fields: c.fields },
        ),
    decreases chans.len(),
{
    reveal(Seq::filter);
    if chans.len() > 0 {
        lemma_localized_filter(chans.drop_last(), h);
        let f = |c: ChannelView| c.host == h;
        let m = |c: ChannelView| ChannelView { kind: c.kind, name: c.name, host: local(), fields: c.fields };
        assert(chans.filter(f) == if f(chans.last()) {
            chans.drop_last().filter(f).push(chans.last())
        } else {
            chans.drop_last().filter(f)
        });
        if f(chans.last()) {
            assert(chans.drop_last().filter(f).push(chans.last()).map_values(m) =~= chans.drop_last().filter(f).map_values(m)
                + seq![m(chans.last())]);
        } else {
            assert(chans.drop_last().filter(f).map_values(m) + Seq::<ChannelView>::empty() =~= chans.drop_last().filter(f).map_values(m));
        }
    }
}

proof fn lemma_all_on_parts(chans: Seq<ChannelView>, h: Seq<char>, n: Seq<char>, kind: ChannelKind)
    requires
        all_on(chans, h),
    ensures
        all_on(serials_of(chans), h),
        first_named(chans, n) matches Some(c) ==> c.host == h,
        first_of_kind(chans, kind) matches Some(c) ==> c.host == h,
    decreases chans.len(),
{
    if chans.len() > 0 {
        let p = chans.drop_last();
        assert(all_on(p, h)) by {
            assert forall|i: int| 0 <= i < p.len() implies (#[trigger] p[i]).host == h by {
                assert(p[i] == chans[i]);
            }
        }
        assert(chans.last() == chans[chans.len() - 1]);
        lemma_all_on_parts(p, h, n, kind);
    }
}

/// A lab slice says which channels a control host serves: for host `h`,
/// exactly the target's channels whose host is `h`, in order, each moved onto
/// `local`. So a slice for one host carries none of another host's channels.
pub proof fn law_a_slice_holds_exactly_its_hosts_channels(chans: Seq<ChannelView>, h: Seq<char>)
    ensures
        localized(chans, h) == chans.filter(|c: ChannelView| c.host == h).map_values(
            |c: ChannelView| ChannelView { kind: c.kind, name: c.name, host: local(), fields: c.fields },
        ),
        all_on(localized(chans, h), local()),
{
    lemma_localized_filter(chans, h);
    lemma_localized_all_local(chans, h);
}

/// A slice never dispatches again: in a lab shaped as [`build_slice`] returns
/// it (no hosts, one target without a `host`, its channels a localized list),
/// every command on that target resolves to this machine, whatever channel or
/// interface it names.
pub proof fn law_a_slice_never_dispatches_again(
    s: Lab,
    chans: Seq<ChannelView>,
    h: Seq<char>,
    rt: ResolvedTarget,
    kind: ChannelKind,
    sn: Option<Seq<char>>,
    hh: Seq<char>,
    local_fqdn: Option<Seq<char>>,
)
    requires
        s.hosts@.len() == 0,
        s.targets@.len() == 1,
        s.targets@[0].1.host is None,
        resolved_channels(s.targets@[0].1) == localized(chans, h),
        rt.default_host@ == s.targets@[0].1.default_host_spec(),
        channel_views(rt.channels@) == resolved_channels(s.targets@[0].1),
        channel_host_rel(rt, kind, sn, Ok(hh)),
    ensures
        hh == local(),
        host_is_local(s, hh, local_fqdn),
{
    let cv = channel_views(rt.channels@);
    lemma_localized_all_local(chans, h);
    let n = match sn {
        Some(x) => x,
        None => Seq::empty(),
    };
    lemma_all_on_parts(cv, local(), n, kind);
    let serials = serials_of(cv);
    assert(all_on(cv, local()));
    assert(rt.default_host@ == local());
    if kind == ChannelKind::Serial {
        match sn {
            Some(x) => {
                assert(first_named(serials, x) is Some);
                lemma_all_on_parts(serials, local(), x, kind);
            },
            None => {
                if serials.len() > 0 {
                    assert(serials[0].host == local());
                }
            },
        }
    } else {
        assert(first_of_kind(cv, kind) matches Some(c) ==> c.host == local());
    }
    assert(s.host_keys() =~= Seq::<Seq<char>>::empty());
    assert(first_index(s.host_keys(), hh) is None);
}

/// The argv that re-runs a subcommand on a control host against a shipped
/// lab slice: the host's paniolo, `--lab <slice>`, then the subcommand.
pub fn remote_argv(paniolo: &str, remote_path: &str, sub_argv: &Vec<String>) -> (r: Vec<String>)
    ensures
        views(r@) == seq![paniolo@, "--lab"@, remote_path@] + views(sub_argv@),
{
    let mut a: Vec<String> = Vec::new();
    crate::text::push_line(&mut a, owned(paniolo));
    crate::text::push_line(&mut a, owned("--lab"));
    crate::text::push_line(&mut a, owned(remote_path));
    let ghost head = views(a@);
    let mut i: usize = 0;
    while i < sub_argv.len()
        invariant
            i <= sub_argv.len(),
            views(a@) == head + views(sub_argv@).take(i as int),
        decreases sub_argv.len() - i,
    {
        crate::text::push_line(&mut a, sub_argv[i].clone());
        assert(views(sub_argv@).take(i + 1) =~= views(sub_argv@).take(i as int).push(sub_argv@[i as int]@));
        i += 1;
    }
    assert(views(sub_argv@).take(sub_argv.len() as int) =~= views(sub_argv@));
    a
}

/// The relative name a lab slice is shipped under: unique per process and
/// moment, so overlapping dispatches never clobber each other.
pub fn slice_name(pid: u32, stamp: u128) -> (r: String)
    ensures
        r@ == ".paniolo-lab-"@ + crate::text::decimal(pid as nat) + "-"@ + crate::text::decimal(
            stamp as nat,
        ) + ".toml"@,
{
    let mut n = owned(".paniolo-lab-");
    crate::text::push_decimal(&mut n, pid as u64);
    push_str(&mut n, "-");
    push_decimal_u128(&mut n, stamp);
    push_str(&mut n, ".toml");
    n
}

fn push_decimal_u128(out: &mut String, n: u128)
    ensures
        final(out)@ == old(out)@ + crate::text::decimal(n as nat),
    decreases n,
{
    if n >= 10 {
        push_decimal_u128(out, n / 10);
    }
    let d = (n % 10) as u64;
    let mut one = String::new();
    crate::text::push_decimal(&mut one, d);
    proof {
        assert(crate::text::decimal(d as nat) == seq![crate::text::digit_char(d as nat)]);
    }
    push_str(out, one.as_str());
    proof {
        assert(crate::text::decimal(n as nat) == (if n >= 10 {
            crate::text::decimal((n / 10) as nat)
        } else {
            Seq::empty()
        }) + seq![crate::text::digit_char((n % 10) as nat)]);
    }
}

/// The remote shell line that prints a daemon's discovery file under the
/// control host's own runtime base and uid.
pub fn discovery_cat_script(subdir: &str) -> (r: String)
    ensures
        r@ == "cat \"${PANIOLO_RUNTIME_BASE:-/tmp}/paniolo-$(id -u)/"@ + subdir@
            + "/daemon.json\" 2>/dev/null"@,
{
    let mut s = owned("cat \"${PANIOLO_RUNTIME_BASE:-/tmp}/paniolo-$(id -u)/");
    push_str(&mut s, subdir);
    push_str(&mut s, "/daemon.json\" 2>/dev/null");
    s
}

/// The endpoint a remote `cat` of a discovery file answered with: none for
/// a failed or empty answer, else the file's endpoint.
pub fn endpoint_from_answer(status: i32, stdout: &str) -> (r: Option<crate::daemons::Endpoint>)
    ensures
        (status != 0 || crate::text::trim(stdout@).len() == 0) ==> r is None,
        (status == 0 && crate::text::trim(stdout@).len() > 0) ==> match crate::daemons::endpoint_of(
            crate::daemons::discovery_json(crate::text::trim(stdout@)),
        ) {
            Some(e) => r matches Some(x) && crate::daemons::endpoint_view(x) == e,
            None => r is None,
        },
{
    let t = crate::text::trimmed(stdout);
    if status != 0 || t.unicode_len() == 0 {
        return None;
    }
    crate::daemons::Endpoint::from_json(t.as_str())
}

/// The directory a capture's temp file is made in: `out_path`'s parent,
/// or `.` for a bare file name.
pub fn capture_dir(out_path: &str) -> (r: String)
    ensures
        r@ == match crate::daemons::parent_dir(out_path@) {
            Some(d) => if d.len() > 0 {
                d
            } else {
                "."@
            },
            None => "."@,
        },
{
    match crate::daemons::parent_of(out_path) {
        Some(d) => if d.unicode_len() > 0 {
            d
        } else {
            owned(".")
        },
        None => owned("."),
    }
}

/// The text of the slice of `target` for `host`, as shipped: refused as
/// [`build_slice`] refuses it; otherwise a fresh one-target lab file
/// ([`LabFile::for_target`]) of the slice's target, rendered.
pub fn slice_text(lab: &Lab, target: &str, host: &str) -> (r: Result<String, LabError>)
    ensures
        match lab.target_spec(target@) {
            None => r matches Err(e) && e.0@ == "no target '"@ + target@ + "'"@,
            Some(t) => match slice_problem(target@, t, host@) {
                Some(m) => r matches Err(e) && e.0@ == m,
                None => r matches Ok(x) && exists|s: Target, d: DocumentMut|
                    x@ == doc_text(d) && doc_shapes(d) == target_doc_shapes(target@, s) && doc_texts(d)
                        == target_doc_texts(target@, s) && doc_serials(d) == target_doc_serials(target@, s)
                        && hosts_stripped(s) && s.description == t.description && resolved_channels(s)
                        == localized(resolved_channels(t), host@),
            },
        },
{
    let slice = match build_slice(lab, target, host) {
        Ok(s) => s,
        Err(e) => return Err(e),
    };
    let mut targets = slice.targets;
    let (_name, t) = targets.remove(0);
    let ghost s = t;
    let f = LabFile::for_target(target, t);
    let x = f.rendered();
    proof {
        assert(x@ == doc_text(f.doc));
    }
    Ok(x)
}

} // verus!
