//! Hardware discovery for lab authoring.
//!
//! `paniolo discover` lists a host's lab-relevant hardware; `paniolo
//! configure` renders a proposed `[targets.<name>]` block from such an
//! inventory for a person to look over. The proposal is never written to the lab.
//! Reading the hardware is the application's part; this module holds the
//! inventory as plain values and the rendering and parsing over it.
use vstd::prelude::*;
use crate::text::{
    cat, cat3, contains, has_prefix, has_substring, join, join_lines, owned, push_line, push_str,
    push_signed, same, signed_decimal, split_lines, split_words, starts_with, strip_prefix,
    trimmed, trim, views, words, lines,
};

verus! {

/// A USB-Ethernet interface entry: its `device` and whether its carrier is up.
pub struct EthernetEntry {
    pub device: Option<String>,
    pub active: Option<bool>,
}

/// A capture device entry: its position in the capture tool's list, its
/// human `name` and its stable port-derived `id`.
pub struct CaptureEntry {
    pub index: Option<u64>,
    pub name: Option<String>,
    pub id: Option<String>,
}

/// An authorized adb device: its `serial` and `model`.
pub struct AdbEntry {
    pub serial: Option<String>,
    pub model: Option<String>,
}

/// A Baochip-1x boot1 console: its serial `device` and USB description.
pub struct FlashEntry {
    pub device: Option<String>,
    pub desc: Option<String>,
}

/// A host's lab-relevant hardware. Each list holds the entries in the order
/// discovered (ethernet: carrier-up interfaces first); a field that a
/// discovering host did not report is `None`, a serial entry that is not a
/// device path is `None`.
pub struct Inventory {
    pub ethernet: Vec<EthernetEntry>,
    pub serial: Vec<Option<String>>,
    pub video: Vec<CaptureEntry>,
    pub adb: Vec<AdbEntry>,
    pub flash: Vec<FlashEntry>,
}

/// The Baochip-1x boot1 bootloader's USB CDC identity and console baud.
pub const BAO1X_VID: u16 = 0x1d50;
pub const BAO1X_PID: u16 = 0x6196;
pub const BAO1X_BAUD: i64 = 1_000_000;

// ── prefer_callout ──────────────────────────────────────────────────────────

/// The port suffix of a macOS callout device name (`/dev/cu.X` → `X`).
pub open spec fn cu_suffix(d: Seq<char>) -> Option<Seq<char>> {
    if starts_with(d, "/dev/cu."@) {
        Some(d.subrange("/dev/cu."@.len() as int, d.len() as int))
    } else {
        None
    }
}

/// `d` is a `/dev/tty.X` name whose `/dev/cu.X` sibling is among `devs`.
pub open spec fn has_callout_twin(devs: Seq<(String, String)>, d: Seq<char>) -> bool {
    starts_with(d, "/dev/tty."@) && exists|j: int|
        0 <= j < devs.len() && cu_suffix(#[trigger] devs[j].0@) == Some(
            d.subrange("/dev/tty."@.len() as int, d.len() as int),
        )
}

fn cu_twin_present(devs: &Vec<(String, String)>, suffix: &str) -> (r: bool)
    ensures
        r == exists|j: int| 0 <= j < devs@.len() && cu_suffix(#[trigger] devs@[j].0@) == Some(suffix@),
{
    let mut j: usize = 0;
    while j < devs.len()
        invariant
            j <= devs.len(),
            forall|k: int| 0 <= k < j ==> cu_suffix(#[trigger] devs@[k].0@) != Some(suffix@),
        decreases devs.len() - j,
    {
        match strip_prefix(devs[j].0.as_str(), "/dev/cu.") {
            Some(s) => {
                if same(s.as_str(), suffix) {
                    return true;
                }
            },
            None => {},
        }
        j += 1;
    }
    false
}

/// Drop `/dev/tty.X` when `/dev/cu.X` is also present (macOS lists both names
/// for one port; the callout device is the one to open).
pub fn prefer_callout(devs: &mut Vec<(String, String)>)
    ensures
        final(devs)@ == old(devs)@.filter(
            |p: (String, String)| !has_callout_twin(old(devs)@, p.0@),
        ),
{
    let ghost orig = devs@;
    proof {
        reveal(Seq::filter);
    }
    let mut kept: Vec<(String, String)> = Vec::new();
    let mut i: usize = 0;
    while i < devs.len()
        invariant
            devs@ == orig,
            i <= devs.len(),
            kept@ == orig.take(i as int).filter(|p: (String, String)| !has_callout_twin(orig, p.0@)),
        decreases devs.len() - i,
    {
        let d = devs[i].0.as_str();
        let twin = match strip_prefix(d, "/dev/tty.") {
            Some(suffix) => cu_twin_present(devs, suffix.as_str()),
            None => false,
        };
        assert(orig.take(i + 1).drop_last() =~= orig.take(i as int));
        proof {
            reveal(Seq::filter);
        }
        if !twin {
            kept.push((devs[i].0.clone(), devs[i].1.clone()));
        }
        i += 1;
    }
    assert(orig.take(orig.len() as int) =~= orig);
    *devs = kept;
}

// ── parse_adb_devices ───────────────────────────────────────────────────────

/// `model:` value of a `-l` property, underscores read as spaces.
pub open spec fn model_of(w: Seq<char>) -> Option<Seq<char>> {
    if starts_with(w, "model:"@) {
        Some(w.subrange("model:"@.len() as int, w.len() as int).map_values(
            |c: char| if c == '_' { ' ' } else { c },
        ))
    } else {
        None
    }
}

/// The first `model:` among the words after the serial and state.
pub open spec fn first_model(ws: Seq<Seq<char>>) -> Option<Seq<char>>
    decreases ws.len(),
{
    if ws.len() == 0 {
        None
    } else if model_of(ws[0]) is Some {
        model_of(ws[0])
    } else {
        first_model(ws.drop_first())
    }
}

/// What one line of `adb devices -l` contributes: `(serial, model)` for a
/// device in the `device` state; nothing for the header, the server's `*`
/// chatter, blank lines, and devices not yet usable.
pub open spec fn adb_line_entry(line: Seq<char>) -> Option<(Seq<char>, Option<Seq<char>>)> {
    let l = trim(line);
    let ws = words(l);
    if l.len() == 0 || starts_with(l, "List of devices"@) || starts_with(l, "*"@) {
        None
    } else if ws.len() < 2 || ws[1] != "device"@ {
        None
    } else {
        Some((ws[0], first_model(ws.skip(2))))
    }
}

pub open spec fn adb_entry_view(e: AdbEntry) -> (Seq<char>, Option<Seq<char>>) {
    (
        match e.serial {
            Some(s) => s@,
            None => Seq::empty(),
        },
        match e.model {
            Some(m) => Some(m@),
            None => None,
        },
    )
}

fn underscores_to_spaces(s: &str) -> (r: String)
    ensures
        r@ == s@.map_values(|c: char| if c == '_' { ' ' } else { c }),
{
    let v = crate::text::chars_of(s);
    let mut out: Vec<char> = Vec::new();
    let mut i: usize = 0;
    while i < v.len()
        invariant
            v@ == s@,
            i <= v.len(),
            out@ == v@.take(i as int).map_values(|c: char| if c == '_' { ' ' } else { c }),
        decreases v.len() - i,
    {
        let c = v[i];
        out.push(if c == '_' { ' ' } else { c });
        assert(v@.take(i + 1) =~= v@.take(i as int).push(c));
        assert(out@ =~= v@.take(i + 1).map_values(|c: char| if c == '_' { ' ' } else { c }));
        i += 1;
    }
    assert(v@.take(v.len() as int) =~= v@);
    crate::text::string_of(&out)
}

fn find_model(ws: &Vec<String>, from: usize) -> (r: Option<String>)
    requires
        from <= ws.len(),
    ensures
        match r {
            Some(m) => first_model(views(ws@).skip(from as int)) == Some(m@),
            None => first_model(views(ws@).skip(from as int)) is None,
        },
{
    let ghost vs = views(ws@);
    let mut k: usize = from;
    while k < ws.len()
        invariant
            from <= k <= ws.len(),
            vs == views(ws@),
            first_model(vs.skip(from as int)) == first_model(vs.skip(k as int)),
        decreases ws.len() - k,
    {
        assert(vs.skip(k as int)[0] == vs[k as int]);
        assert(vs.skip(k as int).drop_first() =~= vs.skip(k + 1));
        match strip_prefix(ws[k].as_str(), "model:") {
            Some(rest) => {
                return Some(underscores_to_spaces(rest.as_str()));
            },
            None => {},
        }
        k += 1;
    }
    assert(vs.skip(k as int).len() == 0);
    None
}

fn adb_entry(line: &str) -> (r: Option<AdbEntry>)
    ensures
        match adb_line_entry(line@) {
            None => r is None,
            Some(e) => r matches Some(x) && x.serial is Some && adb_entry_view(x) == e,
        },
{
    let l = trimmed(line);
    let ls = l.as_str();
    if ls.unicode_len() == 0 || has_prefix(ls, "List of devices") || has_prefix(ls, "*") {
        return None;
    }
    let ws = split_words(ls);
    if ws.len() < 2 || !same(ws[1].as_str(), "device") {
        return None;
    }
    let model = find_model(&ws, 2);
    Some(AdbEntry { serial: Some(ws[0].clone()), model })
}

/// Parse `adb devices -l` output into the devices in the `device` state,
/// with their `model:` property (underscores read as spaces) when present.
pub fn parse_adb_devices(text: &str) -> (r: Vec<AdbEntry>)
    ensures
        r@.map_values(|e: AdbEntry| adb_entry_view(e)) == lines(text@).filter_map(
            |l: Seq<char>| adb_line_entry(l),
        ),
        forall|i: int| 0 <= i < r@.len() ==> (#[trigger] r@[i]).serial is Some,
{
    let ls = split_lines(text);
    let ghost lv = views(ls@);
    let mut out: Vec<AdbEntry> = Vec::new();
    let mut i: usize = 0;
    while i < ls.len()
        invariant
            i <= ls.len(),
            lv == views(ls@),
            lv == lines(text@),
            out@.map_values(|e: AdbEntry| adb_entry_view(e)) == lv.take(i as int).filter_map(
                |l: Seq<char>| adb_line_entry(l),
            ),
            forall|k: int| 0 <= k < out@.len() ==> (#[trigger] out@[k]).serial is Some,
        decreases ls.len() - i,
    {
        assert(lv.take(i + 1).drop_last() =~= lv.take(i as int));
        let ghost before = out@;
        match adb_entry(ls[i].as_str()) {
            Some(e) => {
                out.push(e);
                assert(out@.map_values(|e: AdbEntry| adb_entry_view(e)) =~= before.map_values(
                    |e: AdbEntry| adb_entry_view(e),
                ) + seq![adb_entry_view(out@.last())]);
            },
            None => {},
        }
        i += 1;
    }
    assert(lv.take(lv.len() as int) =~= lv);
    out
}

// ── propose_target_block ────────────────────────────────────────────────────

pub open spec fn quoted(s: Seq<char>) -> Seq<char> {
    "\""@ + s + "\""@
}

pub open spec fn or_empty(o: Option<String>) -> Seq<char> {
    match o {
        Some(s) => s@,
        None => Seq::empty(),
    }
}

pub open spec fn table(n: Seq<char>, sub: Seq<char>) -> Seq<char> {
    "[targets."@ + n + sub + "]"@
}

pub open spec fn header_lines(n: Seq<char>, h: Seq<char>) -> Seq<Seq<char>> {
    seq![table(n, Seq::empty()), "host = "@ + quoted(h), Seq::empty()]
}

pub open spec fn eth_alternative(e: EthernetEntry) -> Seq<char> {
    "# interface = "@ + quoted(or_empty(e.device)) + "  # alternative"@
}

pub open spec fn netboot_lines(n: Seq<char>, eth: Seq<EthernetEntry>) -> Seq<Seq<char>> {
    seq![table(n, ".netboot"@)] + (if eth.len() > 0 {
        seq![
            "interface = "@ + quoted(or_empty(eth[0].device)) + if eth[0].active == Some(true) {
                "  # carrier up"@
            } else {
                Seq::empty()
            },
        ] + eth.skip(1).map_values(|e: EthernetEntry| eth_alternative(e))
    } else {
        seq!["# interface = \"\"  # no USB-Ethernet interface discovered"@]
    }) + seq!["# tftp_root = \"/path/to/tftp\"  # set to enable netboot"@, Seq::empty()]
}

pub open spec fn serial_names(serial: Seq<Option<String>>) -> Seq<Seq<char>> {
    serial.filter_map(
        |o: Option<String>|
            match o {
                Some(s) => Some(s@),
                None => None,
            },
    )
}

pub open spec fn serial_lines(n: Seq<char>, serial: Seq<Option<String>>) -> Seq<Seq<char>> {
    let ss = serial_names(serial);
    (if ss.len() > 0 {
        seq![
            "["@ + table(n, ".serial"@) + "]"@,
            "name = \"console\""@,
            "device = "@ + quoted(ss[0]),
            "baud = 115200"@,
        ] + ss.skip(1).map_values(|x: Seq<char>| "# another serial device: "@ + x)
    } else {
        seq!["# ["@ + table(n, ".serial"@) + "]  # no serial devices discovered"@]
    }) + seq![Seq::<char>::empty()]
}

/// A built-in camera rather than HDMI capture.
pub open spec fn builtin_capture(name: Seq<char>) -> bool {
    contains(name, "FaceTime"@) || contains(name, "Capture screen"@) || contains(name, "iSight"@)
        || contains(name, "iPhone"@) || contains(name, "iPad"@)
}

/// The capture devices worth proposing, as `(name, id)`.
pub open spec fn captures(video: Seq<CaptureEntry>) -> Seq<(Seq<char>, Seq<char>)> {
    video.filter_map(
        |c: CaptureEntry|
            match c.name {
                Some(nm) => if builtin_capture(nm@) {
                    None
                } else {
                    Some((nm@, or_empty(c.id)))
                },
                None => None,
            },
    )
}

pub open spec fn device_ref(c: (Seq<char>, Seq<char>)) -> Seq<char> {
    if c.1.len() == 0 {
        "device = "@ + quoted(c.0)
    } else {
        "device = "@ + quoted(c.1) + "  # "@ + c.0
    }
}

pub open spec fn video_lines(n: Seq<char>, video: Seq<CaptureEntry>) -> Seq<Seq<char>> {
    let caps = captures(video);
    (if caps.len() == 1 {
        seq![table(n, ".video"@), device_ref(caps[0])]
    } else if caps.len() == 0 {
        seq!["# "@ + table(n, ".video"@) + "  # no capture device discovered"@]
    } else {
        seq!["# "@ + table(n, ".video"@) + "  # multiple capture devices — pick one:"@]
            + caps.map_values(|c: (Seq<char>, Seq<char>)| "# "@ + device_ref(c))
    }) + seq![Seq::<char>::empty()]
}

pub open spec fn adb_devices(adb: Seq<AdbEntry>) -> Seq<(Seq<char>, Seq<char>)> {
    adb.filter_map(
        |a: AdbEntry|
            match a.serial {
                Some(s) => Some((s@, or_empty(a.model))),
                None => None,
            },
    )
}

pub open spec fn adb_line(a: (Seq<char>, Seq<char>)) -> Seq<char> {
    "serial = "@ + quoted(a.0) + if a.1.len() == 0 {
        Seq::empty()
    } else {
        "  # "@ + a.1
    }
}

pub open spec fn adb_lines(n: Seq<char>, adb: Seq<AdbEntry>) -> Seq<Seq<char>> {
    let ds = adb_devices(adb);
    (if ds.len() == 1 {
        seq![table(n, ".adb"@), adb_line(ds[0])]
    } else if ds.len() == 0 {
        seq!["# "@ + table(n, ".adb"@) + "  # no adb devices discovered"@]
    } else {
        seq!["# "@ + table(n, ".adb"@) + "  # multiple adb devices — pick one:"@]
            + ds.map_values(|a: (Seq<char>, Seq<char>)| "# "@ + adb_line(a))
    }) + seq![Seq::<char>::empty()]
}

pub open spec fn flash_consoles(flash: Seq<FlashEntry>) -> Seq<(Seq<char>, Seq<char>)> {
    flash.filter_map(
        |f: FlashEntry|
            match f.device {
                Some(d) => Some((d@, or_empty(f.desc))),
                None => None,
            },
    )
}

pub open spec fn flash_lines(n: Seq<char>, flash: Seq<FlashEntry>) -> Seq<Seq<char>> {
    let fs = flash_consoles(flash);
    if fs.len() == 1 {
        seq![
            "# "@ + fs[0].1 + " boot1 console at "@ + fs[0].0 + " — pair the flash channel with a"@,
            "# [[serial]] interface on that device at baud "@ + signed_decimal(BAO1X_BAUD as int)
                + ":"@,
            table(n, ".flash"@),
            "method = \"bao1x-uf2\""@,
            "interface = \"console\""@,
            Seq::empty(),
        ]
    } else if fs.len() > 1 {
        seq!["# "@ + table(n, ".flash"@) + "  # multiple Baochip-1x consoles — pick one serial:"@]
            + fs.map_values(|f: (Seq<char>, Seq<char>)| "# "@ + f.0 + "  # "@ + f.1) + seq![
            Seq::<char>::empty(),
        ]
    } else {
        Seq::empty()
    }
}

pub open spec fn power_lines(n: Seq<char>) -> Seq<Seq<char>> {
    seq![
        "# "@ + table(n, ".power"@),
        "# cycle_cmd = \"/path/to/power-cycle.sh\"  # not discoverable"@,
    ]
}

/// The lines of the proposed block for target `n` on host `h`.
pub open spec fn proposal_lines(n: Seq<char>, h: Seq<char>, inv: Inventory) -> Seq<Seq<char>> {
    header_lines(n, h) + netboot_lines(n, inv.ethernet@) + serial_lines(n, inv.serial@)
        + video_lines(n, inv.video@) + adb_lines(n, inv.adb@) + flash_lines(n, inv.flash@)
        + power_lines(n)
}

fn table_line(prefix: &str, n: &str, sub: &str, suffix: &str) -> (r: String)
    ensures
        r@ == prefix@ + table(n@, sub@) + suffix@,
{
    let mut r = owned(prefix);
    push_str(&mut r, "[targets.");
    push_str(&mut r, n);
    push_str(&mut r, sub);
    push_str(&mut r, "]");
    push_str(&mut r, suffix);
    assert(r@ =~= prefix@ + table(n@, sub@) + suffix@);
    r
}

fn quote_line(prefix: &str, v: &str, suffix: &str) -> (r: String)
    ensures
        r@ == prefix@ + quoted(v@) + suffix@,
{
    let mut r = owned(prefix);
    push_str(&mut r, "\"");
    push_str(&mut r, v);
    push_str(&mut r, "\"");
    push_str(&mut r, suffix);
    assert(r@ =~= prefix@ + quoted(v@) + suffix@);
    r
}

fn str_or_empty(o: &Option<String>) -> (r: &str)
    ensures
        r@ == or_empty(*o),
{
    proof {
        reveal_strlit("");
    }
    match o {
        Some(s) => s.as_str(),
        None => "",
    }
}

fn push_netboot(out: &mut Vec<String>, n: &str, eth: &Vec<EthernetEntry>)
    ensures
        views(final(out)@) == views(old(out)@) + netboot_lines(n@, eth@),
{
    proof {
        reveal_strlit("");
    }
    let ghost start = views(out@);
    push_line(out, table_line("", n, ".netboot", ""));
    if eth.len() > 0 {
        let note = match eth[0].active {
            Some(true) => "  # carrier up",
            _ => "",
        };
        push_line(out, quote_line("interface = ", str_or_empty(&eth[0].device), note));
        let ghost mid = views(out@);
        let mut i: usize = 1;
        while i < eth.len()
            invariant
                1 <= i <= eth.len(),
                views(out@) == mid + eth@.subrange(1, i as int).map_values(
                    |e: EthernetEntry| eth_alternative(e),
                ),
            decreases eth.len() - i,
        {
            let ghost before = views(out@);
            push_line(
                out,
                quote_line("# interface = ", str_or_empty(&eth[i].device), "  # alternative"),
            );
            assert(eth@.subrange(1, i + 1).map_values(|e: EthernetEntry| eth_alternative(e))
                =~= eth@.subrange(1, i as int).map_values(|e: EthernetEntry| eth_alternative(e))
                .push(eth_alternative(eth@[i as int])));
            i += 1;
        }
        assert(eth@.subrange(1, eth.len() as int) =~= eth@.skip(1));
    } else {
        push_line(out, owned("# interface = \"\"  # no USB-Ethernet interface discovered"));
    }
    push_line(out, owned("# tftp_root = \"/path/to/tftp\"  # set to enable netboot"));
    push_line(out, String::new());
    assert(views(out@) =~= start + netboot_lines(n@, eth@));
}

fn collect_serials(serial: &Vec<Option<String>>) -> (r: Vec<String>)
    ensures
        views(r@) == serial_names(serial@),
{
    let mut out: Vec<String> = Vec::new();
    let mut i: usize = 0;
    while i < serial.len()
        invariant
            i <= serial.len(),
            views(out@) == serial_names(serial@.take(i as int)),
        decreases serial.len() - i,
    {
        assert(serial@.take(i + 1).drop_last() =~= serial@.take(i as int));
        match &serial[i] {
            Some(s) => {
                let ghost before = views(out@);
                push_line(&mut out, s.clone());
                assert(before.push(s@) =~= before + seq![s@]);
            },
            None => {},
        }
        i += 1;
    }
    assert(serial@.take(serial.len() as int) =~= serial@);
    out
}

fn push_serial(out: &mut Vec<String>, n: &str, serial: &Vec<Option<String>>)
    ensures
        views(final(out)@) == views(old(out)@) + serial_lines(n@, serial@),
{
    proof {
        reveal_strlit("");
    }
    let ghost start = views(out@);
    let ss = collect_serials(serial);
    let ghost sv = views(ss@);
    if ss.len() > 0 {
        push_line(out, table_line("[", n, ".serial", "]"));
        push_line(out, owned("name = \"console\""));
        push_line(out, quote_line("device = ", ss[0].as_str(), ""));
        push_line(out, owned("baud = 115200"));
        let ghost mid = views(out@);
        let mut i: usize = 1;
        while i < ss.len()
            invariant
                1 <= i <= ss.len(),
                sv == views(ss@),
                views(out@) == mid + sv.subrange(1, i as int).map_values(
                    |x: Seq<char>| "# another serial device: "@ + x,
                ),
            decreases ss.len() - i,
        {
            push_line(out, cat("# another serial device: ", ss[i].as_str()));
            assert(sv.subrange(1, i + 1).map_values(|x: Seq<char>| "# another serial device: "@ + x)
                =~= sv.subrange(1, i as int).map_values(
                |x: Seq<char>| "# another serial device: "@ + x,
            ).push("# another serial device: "@ + sv[i as int]));
            i += 1;
        }
        assert(sv.subrange(1, ss.len() as int) =~= sv.skip(1));
    } else {
        push_line(out, table_line("# [", n, ".serial", "]  # no serial devices discovered"));
    }
    push_line(out, String::new());
    assert(views(out@) =~= start + serial_lines(n@, serial@));
}

fn is_builtin_capture(name: &str) -> (r: bool)
    ensures
        r == builtin_capture(name@),
{
    has_substring(name, "FaceTime") || has_substring(name, "Capture screen") || has_substring(
        name,
        "iSight",
    ) || has_substring(name, "iPhone") || has_substring(name, "iPad")
}

pub open spec fn pair_views(v: Seq<(String, String)>) -> Seq<(Seq<char>, Seq<char>)> {
    v.map_values(|p: (String, String)| (p.0@, p.1@))
}

fn collect_captures(video: &Vec<CaptureEntry>) -> (r: Vec<(String, String)>)
    ensures
        pair_views(r@) == captures(video@),
{
    let mut out: Vec<(String, String)> = Vec::new();
    let mut i: usize = 0;
    while i < video.len()
        invariant
            i <= video.len(),
            pair_views(out@) == captures(video@.take(i as int)),
        decreases video.len() - i,
    {
        assert(video@.take(i + 1).drop_last() =~= video@.take(i as int));
        match &video[i].name {
            Some(nm) => {
                if !is_builtin_capture(nm.as_str()) {
                    let ghost before = out@;
                    out.push((nm.clone(), owned(str_or_empty(&video[i].id))));
                    assert(pair_views(out@) =~= pair_views(before) + seq![
                        (nm@, or_empty(video@[i as int].id)),
                    ]);
                }
            },
            None => {},
        }
        i += 1;
    }
    assert(video@.take(video.len() as int) =~= video@);
    out
}

fn device_ref_line(prefix: &str, name: &str, id: &str) -> (r: String)
    ensures
        r@ == prefix@ + device_ref((name@, id@)),
{
    proof {
        reveal_strlit("");
    }
    let p = cat(prefix, "device = ");
    if id.unicode_len() == 0 {
        let r = quote_line(p.as_str(), name, "");
        assert(r@ =~= prefix@ + device_ref((name@, id@)));
        r
    } else {
        let mut r = quote_line(p.as_str(), id, "  # ");
        push_str(&mut r, name);
        assert(r@ =~= prefix@ + device_ref((name@, id@)));
        r
    }
}

fn push_video(out: &mut Vec<String>, n: &str, video: &Vec<CaptureEntry>)
    ensures
        views(final(out)@) == views(old(out)@) + video_lines(n@, video@),
{
    proof {
        reveal_strlit("");
    }
    let ghost start = views(out@);
    let caps = collect_captures(video);
    let ghost cv = pair_views(caps@);
    if caps.len() == 1 {
        push_line(out, table_line("", n, ".video", ""));
        push_line(out, device_ref_line("", caps[0].0.as_str(), caps[0].1.as_str()));
    } else if caps.len() == 0 {
        push_line(out, table_line("# ", n, ".video", "  # no capture device discovered"));
    } else {
        push_line(
            out,
            table_line("# ", n, ".video", "  # multiple capture devices — pick one:"),
        );
        let ghost mid = views(out@);
        let mut i: usize = 0;
        while i < caps.len()
            invariant
                i <= caps.len(),
                cv == pair_views(caps@),
                views(out@) == mid + cv.take(i as int).map_values(
                    |c: (Seq<char>, Seq<char>)| "# "@ + device_ref(c),
                ),
            decreases caps.len() - i,
        {
            push_line(out, device_ref_line("# ", caps[i].0.as_str(), caps[i].1.as_str()));
            assert(cv.take(i + 1).map_values(|c: (Seq<char>, Seq<char>)| "# "@ + device_ref(c))
                =~= cv.take(i as int).map_values(
                |c: (Seq<char>, Seq<char>)| "# "@ + device_ref(c),
            ).push("# "@ + device_ref(cv[i as int])));
            i += 1;
        }
        assert(cv.take(caps.len() as int) =~= cv);
    }
    push_line(out, String::new());
    assert(views(out@) =~= start + video_lines(n@, video@));
}

fn collect_adb(adb: &Vec<AdbEntry>) -> (r: Vec<(String, String)>)
    ensures
        pair_views(r@) == adb_devices(adb@),
{
    let mut out: Vec<(String, String)> = Vec::new();
    let mut i: usize = 0;
    while i < adb.len()
        invariant
            i <= adb.len(),
            pair_views(out@) == adb_devices(adb@.take(i as int)),
        decreases adb.len() - i,
    {
        assert(adb@.take(i + 1).drop_last() =~= adb@.take(i as int));
        match &adb[i].serial {
            Some(s) => {
                let ghost before = out@;
                out.push((s.clone(), owned(str_or_empty(&adb[i].model))));
                assert(pair_views(out@) =~= pair_views(before) + seq![
                    (s@, or_empty(adb@[i as int].model)),
                ]);
            },
            None => {},
        }
        i += 1;
    }
    assert(adb@.take(adb.len() as int) =~= adb@);
    out
}

fn adb_line_text(prefix: &str, serial: &str, model: &str) -> (r: String)
    ensures
        r@ == prefix@ + adb_line((serial@, model@)),
{
    proof {
        reveal_strlit("");
    }
    let p = cat(prefix, "serial = ");
    let mut r = quote_line(p.as_str(), serial, "");
    if model.unicode_len() == 0 {
        assert(r@ =~= prefix@ + adb_line((serial@, model@)));
    } else {
        push_str(&mut r, "  # ");
        push_str(&mut r, model);
        assert(r@ =~= prefix@ + adb_line((serial@, model@)));
    }
    r
}

fn push_adb(out: &mut Vec<String>, n: &str, adb: &Vec<AdbEntry>)
    ensures
        views(final(out)@) == views(old(out)@) + adb_lines(n@, adb@),
{
    proof {
        reveal_strlit("");
    }
    let ghost start = views(out@);
    let ds = collect_adb(adb);
    let ghost dv = pair_views(ds@);
    if ds.len() == 1 {
        push_line(out, table_line("", n, ".adb", ""));
        push_line(out, adb_line_text("", ds[0].0.as_str(), ds[0].1.as_str()));
    } else if ds.len() == 0 {
        push_line(out, table_line("# ", n, ".adb", "  # no adb devices discovered"));
    } else {
        push_line(out, table_line("# ", n, ".adb", "  # multiple adb devices — pick one:"));
        let ghost mid = views(out@);
        let mut i: usize = 0;
        while i < ds.len()
            invariant
                i <= ds.len(),
                dv == pair_views(ds@),
                views(out@) == mid + dv.take(i as int).map_values(
                    |a: (Seq<char>, Seq<char>)| "# "@ + adb_line(a),
                ),
            decreases ds.len() - i,
        {
            push_line(out, adb_line_text("# ", ds[i].0.as_str(), ds[i].1.as_str()));
            assert(dv.take(i + 1).map_values(|a: (Seq<char>, Seq<char>)| "# "@ + adb_line(a))
                =~= dv.take(i as int).map_values(|a: (Seq<char>, Seq<char>)| "# "@ + adb_line(a))
                .push("# "@ + adb_line(dv[i as int])));
            i += 1;
        }
        assert(dv.take(ds.len() as int) =~= dv);
    }
    push_line(out, String::new());
    assert(views(out@) =~= start + adb_lines(n@, adb@));
}

fn collect_flash(flash: &Vec<FlashEntry>) -> (r: Vec<(String, String)>)
    ensures
        pair_views(r@) == flash_consoles(flash@),
{
    let mut out: Vec<(String, String)> = Vec::new();
    let mut i: usize = 0;
    while i < flash.len()
        invariant
            i <= flash.len(),
            pair_views(out@) == flash_consoles(flash@.take(i as int)),
        decreases flash.len() - i,
    {
        assert(flash@.take(i + 1).drop_last() =~= flash@.take(i as int));
        match &flash[i].device {
            Some(d) => {
                let ghost before = out@;
                out.push((d.clone(), owned(str_or_empty(&flash[i].desc))));
                assert(pair_views(out@) =~= pair_views(before) + seq![
                    (d@, or_empty(flash@[i as int].desc)),
                ]);
            },
            None => {},
        }
        i += 1;
    }
    assert(flash@.take(flash.len() as int) =~= flash@);
    out
}

fn push_flash(out: &mut Vec<String>, n: &str, flash: &Vec<FlashEntry>)
    ensures
        views(final(out)@) == views(old(out)@) + flash_lines(n@, flash@),
{
    proof {
        reveal_strlit("");
    }
    let ghost start = views(out@);
    let fs = collect_flash(flash);
    let ghost fv = pair_views(fs@);
    if fs.len() == 1 {
        let mut l = owned("# ");
        push_str(&mut l, fs[0].1.as_str());
        push_str(&mut l, " boot1 console at ");
        push_str(&mut l, fs[0].0.as_str());
        push_str(&mut l, " — pair the flash channel with a");
        push_line(out, l);
        let mut b = owned("# [[serial]] interface on that device at baud ");
        push_signed(&mut b, BAO1X_BAUD);
        push_str(&mut b, ":");
        push_line(out, b);
        push_line(out, table_line("", n, ".flash", ""));
        push_line(out, owned("method = \"bao1x-uf2\""));
        push_line(out, owned("interface = \"console\""));
        push_line(out, String::new());
    } else if fs.len() > 1 {
        push_line(
            out,
            table_line("# ", n, ".flash", "  # multiple Baochip-1x consoles — pick one serial:"),
        );
        let ghost mid = views(out@);
        let mut i: usize = 0;
        while i < fs.len()
            invariant
                i <= fs.len(),
                fv == pair_views(fs@),
                views(out@) == mid + fv.take(i as int).map_values(
                    |f: (Seq<char>, Seq<char>)| "# "@ + f.0 + "  # "@ + f.1,
                ),
            decreases fs.len() - i,
        {
            let mut l = cat3("# ", fs[i].0.as_str(), "  # ");
            push_str(&mut l, fs[i].1.as_str());
            push_line(out, l);
            assert(fv.take(i + 1).map_values(|f: (Seq<char>, Seq<char>)| "# "@ + f.0 + "  # "@ + f.1)
                =~= fv.take(i as int).map_values(
                |f: (Seq<char>, Seq<char>)| "# "@ + f.0 + "  # "@ + f.1,
            ).push("# "@ + fv[i as int].0 + "  # "@ + fv[i as int].1));
            i += 1;
        }
        assert(fv.take(fs.len() as int) =~= fv);
        push_line(out, String::new());
    }
    assert(views(out@) =~= start + flash_lines(n@, flash@));
}

/// Render a proposed `[targets.<name>]` lab block from a host's inventory:
/// one best guess per channel, alternatives as comments.
pub fn propose_target_block(name: &str, host: &str, inv: &Inventory) -> (r: String)
    ensures
        r@ == join(proposal_lines(name@, host@, *inv), "\n"@) + "\n"@,
{
    proof {
        reveal_strlit("");
    }
    let mut out: Vec<String> = Vec::new();
    push_line(&mut out, table_line("", name, "", ""));
    push_line(&mut out, quote_line("host = ", host, ""));
    push_line(&mut out, String::new());
    assert(views(out@) =~= header_lines(name@, host@));
    push_netboot(&mut out, name, &inv.ethernet);
    push_serial(&mut out, name, &inv.serial);
    push_video(&mut out, name, &inv.video);
    push_adb(&mut out, name, &inv.adb);
    push_flash(&mut out, name, &inv.flash);
    let ghost before = views(out@);
    push_line(&mut out, table_line("# ", name, ".power", ""));
    push_line(&mut out, owned("# cycle_cmd = \"/path/to/power-cycle.sh\"  # not discoverable"));
    assert(views(out@) =~= proposal_lines(name@, host@, *inv));
    join_lines(&out)
}


// ── the inventory as text ───────────────────────────────────────────────────

pub open spec fn eth_word(e: EthernetEntry) -> Seq<char> {
    or_empty(e.device) + if e.active == Some(true) {
        "*"@
    } else {
        Seq::empty()
    }
}

pub open spec fn capture_word(c: CaptureEntry) -> Seq<char> {
    (match c.index {
        Some(i) => crate::text::decimal(i as nat),
        None => "null"@,
    }) + ": "@ + or_empty(c.name) + if or_empty(c.id).len() > 0 {
        "  id="@ + or_empty(c.id)
    } else {
        Seq::empty()
    }
}

pub open spec fn serial_paths(s: Seq<Option<String>>) -> Seq<Seq<char>> {
    s.filter_map(|o: Option<String>| match o {
        Some(x) => Some(x@),
        None => None,
    })
}

pub open spec fn or_none(v: Seq<Seq<char>>, sep: Seq<char>) -> Seq<char> {
    if v.len() == 0 {
        "(none)"@
    } else {
        join(v, sep)
    }
}

/// `paniolo discover` for a person: the Ethernet devices (`*` where the
/// carrier is up), the serial devices, and the capture devices with their
/// index and id, each `(none)` when empty.
pub open spec fn inventory_text(inv: Inventory) -> Seq<Seq<char>> {
    seq![
        "usb-ethernet\t"@ + or_none(inv.ethernet@.map_values(|e: EthernetEntry| eth_word(e)), " "@),
        "serial\t"@ + or_none(serial_paths(inv.serial@), "\n\t"@),
        "capture\t"@ + or_none(inv.video@.map_values(|c: CaptureEntry| capture_word(c)), "\n\t"@),
        "(* = carrier up)"@,
    ]
}

fn joined_or_none(v: &Vec<String>, sep: &str) -> (r: String)
    ensures
        r@ == or_none(views(v@), sep@),
{
    if v.len() == 0 {
        owned("(none)")
    } else {
        crate::text::join_strings(v, sep)
    }
}

/// The lines `paniolo discover` prints for an inventory.
pub fn inventory_lines(inv: &Inventory) -> (r: Vec<String>)
    ensures
        views(r@) == inventory_text(*inv),
{
    proof {
        reveal_strlit("");
    }
    let mut eths: Vec<String> = Vec::new();
    let mut i: usize = 0;
    while i < inv.ethernet.len()
        invariant
            i <= inv.ethernet.len(),
            views(eths@) == inv.ethernet@.take(i as int).map_values(|e: EthernetEntry| eth_word(e)),
        decreases inv.ethernet.len() - i,
    {
        let e = &inv.ethernet[i];
        let mut w = owned(str_or_empty(&e.device));
        let up = match e.active {
            Some(b) => b,
            None => false,
        };
        if up {
            push_str(&mut w, "*");
        }
        push_line(&mut eths, w);
        assert(inv.ethernet@.take(i + 1) =~= inv.ethernet@.take(i as int).push(inv.ethernet@[i as int]));
        assert(views(eths@) =~= inv.ethernet@.take(i + 1).map_values(|e: EthernetEntry| eth_word(e)));
        i += 1;
    }
    assert(inv.ethernet@.take(inv.ethernet.len() as int) =~= inv.ethernet@);
    let mut serials: Vec<String> = Vec::new();
    let mut i: usize = 0;
    while i < inv.serial.len()
        invariant
            i <= inv.serial.len(),
            views(serials@) == serial_paths(inv.serial@.take(i as int)),
        decreases inv.serial.len() - i,
    {
        assert(inv.serial@.take(i + 1).drop_last() =~= inv.serial@.take(i as int));
        if let Some(p) = &inv.serial[i] {
            push_line(&mut serials, p.clone());
        }
        i += 1;
    }
    assert(inv.serial@.take(inv.serial.len() as int) =~= inv.serial@);
    let mut caps: Vec<String> = Vec::new();
    let mut i: usize = 0;
    while i < inv.video.len()
        invariant
            i <= inv.video.len(),
            views(caps@) == inv.video@.take(i as int).map_values(|c: CaptureEntry| capture_word(c)),
        decreases inv.video.len() - i,
    {
        let c = &inv.video[i];
        let mut w = match c.index {
            Some(n) => {
                let mut d = String::new();
                crate::text::push_decimal(&mut d, n);
                assert(d@ =~= crate::text::decimal(n as nat));
                d
            },
            None => owned("null"),
        };
        push_str(&mut w, ": ");
        push_str(&mut w, str_or_empty(&c.name));
        let id = str_or_empty(&c.id);
        if id.unicode_len() > 0 {
            push_str(&mut w, "  id=");
            push_str(&mut w, id);
        }
        assert(w@ =~= capture_word(inv.video@[i as int]));
        push_line(&mut caps, w);
        assert(inv.video@.take(i + 1) =~= inv.video@.take(i as int).push(inv.video@[i as int]));
        assert(views(caps@) =~= inv.video@.take(i + 1).map_values(|c: CaptureEntry| capture_word(c)));
        i += 1;
    }
    assert(inv.video@.take(inv.video.len() as int) =~= inv.video@);
    let mut out: Vec<String> = Vec::new();
    push_line(&mut out, cat("usb-ethernet\t", joined_or_none(&eths, " ").as_str()));
    push_line(&mut out, cat("serial\t", joined_or_none(&serials, "\n\t").as_str()));
    push_line(&mut out, cat("capture\t", joined_or_none(&caps, "\n\t").as_str()));
    push_line(&mut out, owned("(* = carrier up)"));
    assert(views(out@) =~= inventory_text(*inv));
    out
}

/// A built-in camera or macOS's screen-capture device is never proposed: no
/// proposed capture device's name contains `FaceTime`, `Capture screen`,
/// `iSight`, `iPhone` or `iPad`.
pub proof fn law_built_in_cameras_are_never_proposed(video: Seq<CaptureEntry>)
    ensures
        forall|k: int|
            0 <= k < captures(video).len() ==> {
                let nm = #[trigger] captures(video)[k].0;
                &&& !contains(nm, "FaceTime"@)
                &&& !contains(nm, "Capture screen"@)
                &&& !contains(nm, "iSight"@)
                &&& !contains(nm, "iPhone"@)
                &&& !contains(nm, "iPad"@)
            },
    decreases video.len(),
{
    if video.len() > 0 {
        law_built_in_cameras_are_never_proposed(video.drop_last());
        let rest = captures(video.drop_last());
        assert(captures(video) == rest || exists|x: (Seq<char>, Seq<char>)| captures(video) == rest + seq![x]);
        if captures(video) != rest {
            let c = video.last();
            assert(c.name is Some && !builtin_capture(c.name->0@));
            assert(captures(video) == rest + seq![(c.name->0@, or_empty(c.id))]);
            assert forall|k: int| 0 <= k < captures(video).len() implies {
                let nm = #[trigger] captures(video)[k].0;
                &&& !contains(nm, "FaceTime"@)
                &&& !contains(nm, "Capture screen"@)
                &&& !contains(nm, "iSight"@)
                &&& !contains(nm, "iPhone"@)
                &&& !contains(nm, "iPad"@)
            } by {
                if k < rest.len() {
                    assert(captures(video)[k] == rest[k]);
                }
            }
        }
    }
}

/// Every named capture device that is not a built-in camera or the screen
/// capture is proposed, with its id (empty when it has none).
pub proof fn law_every_other_named_capture_is_proposed(video: Seq<CaptureEntry>, i: int)
    requires
        0 <= i < video.len(),
        video[i].name is Some,
        !contains(video[i].name->0@, "FaceTime"@),
        !contains(video[i].name->0@, "Capture screen"@),
        !contains(video[i].name->0@, "iSight"@),
        !contains(video[i].name->0@, "iPhone"@),
        !contains(video[i].name->0@, "iPad"@),
    ensures
        captures(video).contains((video[i].name->0@, or_empty(video[i].id))),
    decreases video.len(),
{
    let rest = captures(video.drop_last());
    if i < video.len() - 1 {
        law_every_other_named_capture_is_proposed(video.drop_last(), i);
        let k = choose|k: int| 0 <= k < rest.len() && rest[k] == (video[i].name->0@, or_empty(video[i].id));
        if captures(video) != rest {
            let c = video.last();
            assert(captures(video) == rest + seq![(c.name->0@, or_empty(c.id))]);
            assert(captures(video)[k] == rest[k]);
        }
    } else {
        assert(captures(video) == rest + seq![(video[i].name->0@, or_empty(video[i].id))]);
        assert(captures(video)[rest.len() as int] == (video[i].name->0@, or_empty(video[i].id)));
    }
}

} // verus!
