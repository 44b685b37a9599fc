//! USB-Ethernet link plumbing for the netboot and ffx modes.
//!
//! The two link modes share one point-to-point link and exclude each other:
//! **netboot** is IPv4 `host_ip/24` plus DHCP/TFTP; **ffx** is the host IPv6
//! link-local `fe80::1/64`, no daemons. The active mode is derived from the
//! running daemon and the interface's addresses, never stored. This module
//! holds the readings of the system tools' output, the guard that keeps the
//! primary interface untouched, and the mode decision; running the tools is
//! the application's part.
use vstd::prelude::*;
use crate::daemons::index_of;
use crate::text::{
    cat, cat3, contains, has_prefix, has_substring, lines, owned, push_line, push_str,
    split_lines, split_words, starts_with, strip_prefix, trim, trimmed, views, words,
};

verus! {

/// The host-side IPv6 link-local that ffx talks through.
pub const FFX_HOST_LL: &'static str = "fe80::1";
pub const FFX_PREFIX: u8 = 64;
pub const SUDO_HINT: &'static str =
    "Ensure passwordless sudo is configured (NOPASSWD) for the control machine.";
pub const MODES: [&'static str; 4] = ["netboot", "link", "ffx", "off"];

/// An external Ethernet interface.
pub struct EthInterface {
    pub port: String,
    pub device: String,
    /// Whether its carrier is up.
    pub active: bool,
}

/// Listing order: carrier-up interfaces first, then by device name.
pub open spec fn eth_listed_before(a: EthInterface, b: EthInterface) -> bool {
    (a.active && !b.active) || (a.active == b.active && crate::text::lt(a.device@, b.device@))
}

pub fn eth_before(a: &EthInterface, b: &EthInterface) -> (r: bool)
    ensures
        r == eth_listed_before(*a, *b),
{
    (a.active && !b.active) || (a.active == b.active && crate::text::less(
        a.device.as_str(),
        b.device.as_str(),
    ))
}

// ── the primary-interface guard ─────────────────────────────────────────────

/// `interface` carries the system default route `default_route`.
pub fn is_default_route_interface(interface: &str, default_route: Option<&str>) -> (r: bool)
    ensures
        r == (default_route matches Some(d) && d@ == interface@),
{
    match default_route {
        Some(d) => crate::text::same(d, interface),
        None => false,
    }
}

pub open spec fn primary_refusal(what: Seq<char>, interface: Seq<char>) -> Seq<char> {
    "refusing netif "@ + what + " on '"@ + interface
        + "': it carries the system default route (your primary network interface). netif would reconfigure it and break host networking. Use a dedicated USB-Ethernet adapter for the netboot link."@
}

/// The refusal every mode change shares: never touch the interface carrying
/// the system default route (`default_route`, as the routing table gave it).
/// `what` names the verb.
pub fn refuse_primary_interface(what: &str, interface: &str, default_route: Option<&str>) -> (r: Result<(), String>)
    ensures
        match default_route {
            Some(d) => if d@ == interface@ {
                r matches Err(m) && m@ == primary_refusal(what@, interface@)
            } else {
                r is Ok
            },
            None => r is Ok,
        },
{
    if is_default_route_interface(interface, default_route) {
        let mut m = cat3("refusing netif ", what, " on '");
        push_str(&mut m, interface);
        push_str(
            &mut m,
            "': it carries the system default route (your primary network interface). netif would reconfigure it and break host networking. Use a dedicated USB-Ethernet adapter for the netboot link.",
        );
        return Err(m);
    }
    Ok(())
}

// ── reading the tools' output ───────────────────────────────────────────────

/// The word after the first `inet` word of a line.
pub open spec fn after_inet(ws: Seq<Seq<char>>) -> Option<Seq<char>>
    decreases ws.len(),
{
    if ws.len() == 0 {
        None
    } else if ws[0] == "inet"@ {
        if ws.len() > 1 {
            Some(ws[1])
        } else {
            None
        }
    } else {
        after_inet(ws.drop_first())
    }
}

/// The IPv4 addresses (`addr/prefix`) of `ip -4 -o addr show dev <iface>`
/// output: per line, the word after `inet`.
pub open spec fn ipv4_addr_list(text: Seq<char>) -> Seq<Seq<char>> {
    lines(text).filter_map(|l: Seq<char>| after_inet(words(l)))
}

fn word_after(ws: &Vec<String>, key: &str) -> (r: Option<String>)
    ensures
        match after_inet_key(views(ws@), key@) {
            Some(w) => r matches Some(x) && x@ == w,
            None => r is None,
        },
{
    let ghost v = views(ws@);
    let mut i: usize = 0;
    proof {
        assert(v.skip(0) =~= v);
    }
    while i < ws.len()
        invariant
            i <= ws.len(),
            v == views(ws@),
            after_inet_key(v, key@) == after_inet_key(v.skip(i as int), key@),
        decreases ws.len() - i,
    {
        assert(v.skip(i as int)[0] == ws@[i as int]@);
        assert(v.skip(i as int).drop_first() =~= v.skip(i + 1));
        if crate::text::same(ws[i].as_str(), key) {
            if i + 1 < ws.len() {
                assert(v.skip(i as int)[1] == ws@[i + 1]@);
                return Some(ws[i + 1].clone());
            }
            return None;
        }
        i += 1;
    }
    None
}

/// The word after the first word equal to `key`.
pub open spec fn after_inet_key(ws: Seq<Seq<char>>, key: Seq<char>) -> Option<Seq<char>>
    decreases ws.len(),
{
    if ws.len() == 0 {
        None
    } else if ws[0] == key {
        if ws.len() > 1 {
            Some(ws[1])
        } else {
            None
        }
    } else {
        after_inet_key(ws.drop_first(), key)
    }
}

proof fn lemma_after_inet(ws: Seq<Seq<char>>)
    ensures
        after_inet(ws) == after_inet_key(ws, "inet"@),
    decreases ws.len(),
{
    if ws.len() > 0 {
        lemma_after_inet(ws.drop_first());
    }
}

/// The IPv4 addresses in `ip -4 -o addr show` output.
pub fn ipv4_addrs(show_output: &str) -> (r: Vec<String>)
    ensures
        views(r@) == ipv4_addr_list(show_output@),
{
    let ls = split_lines(show_output);
    let ghost lv = views(ls@);
    let mut out: Vec<String> = Vec::new();
    let mut i: usize = 0;
    while i < ls.len()
        invariant
            i <= ls.len(),
            lv == views(ls@),
            lv == lines(show_output@),
            views(out@) == lv.take(i as int).filter_map(|l: Seq<char>| after_inet(words(l))),
        decreases ls.len() - i,
    {
        assert(lv.take(i + 1).drop_last() =~= lv.take(i as int));
        let ws = split_words(ls[i].as_str());
        proof {
            lemma_after_inet(views(ws@));
        }
        match word_after(&ws, "inet") {
            Some(a) => {
                let ghost before = views(out@);
                push_line(&mut out, a);
                assert(before.push(out@.last()@) =~= before + seq![out@.last()@]);
            },
            None => {},
        }
        i += 1;
    }
    assert(lv.take(lv.len() as int) =~= lv);
    out
}

/// The address part of `addr/prefix`.
pub open spec fn before_slash(a: Seq<char>) -> Seq<char> {
    match index_of(a, '/') {
        Some(k) => a.subrange(0, k),
        None => a,
    }
}

fn addr_part(a: &str) -> (r: String)
    ensures
        r@ == before_slash(a@),
{
    let v = crate::text::chars_of(a);
    let mut i: usize = 0;
    proof {
        assert(v@.subrange(0, v.len() as int) =~= v@);
    }
    while i < v.len() && v[i] != '/'
        invariant
            v@ == a@,
            i <= v.len(),
            forall|j: int| 0 <= j < i ==> v@[j] != '/',
            index_of(a@, '/') == match index_of(v@.subrange(i as int, v.len() as int), '/') {
                Some(k) => Some(k + i),
                None => None,
            },
        decreases v.len() - i,
    {
        assert(v@.subrange(i as int, v.len() as int)[0] == v@[i as int]);
        assert(v@.subrange(i as int, v.len() as int).drop_first() =~= v@.subrange(i + 1, v.len() as int));
        i += 1;
    }
    if i < v.len() {
        assert(v@.subrange(i as int, v.len() as int)[0] == v@[i as int]);
    }
    let mut out: Vec<char> = Vec::new();
    let mut k: usize = 0;
    while k < i
        invariant
            i <= v.len(),
            k <= i,
            out@ == v@.subrange(0, k as int),
        decreases i - k,
    {
        out.push(v[k]);
        assert(v@.subrange(0, k + 1) =~= v@.subrange(0, k as int).push(v@[k as int]));
        k += 1;
    }
    crate::text::string_of(&out)
}

/// One of the addresses is `addr`, prefix length ignored.
pub open spec fn has_address(addrs: Seq<String>, addr: Seq<char>) -> bool {
    exists|i: int| 0 <= i < addrs.len() && before_slash((#[trigger] addrs[i])@) == addr
}

/// Whether one of `addrs` (each `addr` or `addr/prefix`) is `addr`.
pub fn has_addr(addrs: &Vec<String>, addr: &str) -> (r: bool)
    ensures
        r == has_address(addrs@, addr@),
{
    let mut i: usize = 0;
    while i < addrs.len()
        invariant
            i <= addrs.len(),
            forall|j: int| 0 <= j < i ==> before_slash((#[trigger] addrs@[j])@) != addr@,
        decreases addrs.len() - i,
    {
        if crate::text::same(addr_part(addrs[i].as_str()).as_str(), addr) {
            return true;
        }
        i += 1;
    }
    false
}

/// Whether the ffx host link-local is among the IPv6 addresses.
pub fn has_host_ll(inet6: &Vec<String>) -> (r: bool)
    ensures
        r == has_address(inet6@, FFX_HOST_LL@),
{
    has_addr(inet6, FFX_HOST_LL)
}

/// The addresses of `ip -brief addr show dev <iface>` output: the words after
/// the name and state, IPv6 (with a `:`) apart from IPv4.
pub open spec fn brief_addrs(text: Seq<char>) -> (Seq<Seq<char>>, Seq<Seq<char>>) {
    let ws = if words(text).len() >= 2 {
        words(text).skip(2)
    } else {
        Seq::empty()
    };
    (
        ws.filter(|w: Seq<char>| !w.contains(':')),
        ws.filter(|w: Seq<char>| w.contains(':')),
    )
}

fn has_colon(s: &str) -> (r: bool)
    ensures
        r == s@.contains(':'),
{
    let v = crate::text::chars_of(s);
    let mut i: usize = 0;
    while i < v.len()
        invariant
            v@ == s@,
            i <= v.len(),
            forall|j: int| 0 <= j < i ==> v@[j] != ':',
        decreases v.len() - i,
    {
        if v[i] == ':' {
            assert(s@[i as int] == ':');
            return true;
        }
        i += 1;
    }
    false
}

/// The `(inet, inet6)` addresses in `ip -brief addr show` output.
pub fn parse_brief_addrs(text: &str) -> (r: (Vec<String>, Vec<String>))
    ensures
        (views(r.0@), views(r.1@)) == brief_addrs(text@),
{
    let ws = split_words(text);
    let ghost wv = views(ws@);
    let mut inet: Vec<String> = Vec::new();
    let mut inet6: Vec<String> = Vec::new();
    let ghost rest = if wv.len() >= 2 {
        wv.skip(2)
    } else {
        Seq::empty()
    };
    let mut i: usize = 2;
    proof {
        reveal(Seq::filter);
        assert(rest.take(0) =~= Seq::<Seq<char>>::empty());
    }
    if ws.len() < 2 {
        return (inet, inet6);
    }
    while i < ws.len()
        invariant
            2 <= i <= ws.len(),
            wv == views(ws@),
            rest == wv.skip(2),
            views(inet@) == rest.take(i - 2).filter(|w: Seq<char>| !w.contains(':')),
            views(inet6@) == rest.take(i - 2).filter(|w: Seq<char>| w.contains(':')),
        decreases ws.len() - i,
    {
        proof {
            reveal(Seq::filter);
            assert(rest.take(i - 1).drop_last() =~= rest.take(i - 2));
            assert(rest.take(i - 1).last() == ws@[i as int]@);
        }
        if has_colon(ws[i].as_str()) {
            push_line(&mut inet6, ws[i].clone());
        } else {
            push_line(&mut inet, ws[i].clone());
        }
        i += 1;
    }
    assert(rest.take(ws.len() - 2) =~= rest);
    (inet, inet6)
}

/// The address of an `ifconfig` line, when it is one of `inet`/`inet6`:
/// `(is_v6, address)`, an IPv6 scope suffix (`%en5`) dropped.
pub open spec fn ifconfig_addr(line: Seq<char>) -> Option<(bool, Seq<char>)> {
    let s = trim(line);
    if starts_with(s, "inet "@) {
        let ws = words(s.subrange(5, s.len() as int));
        if ws.len() > 0 {
            Some((false, ws[0]))
        } else {
            None
        }
    } else if starts_with(s, "inet6 "@) {
        let ws = words(s.subrange(6, s.len() as int));
        if ws.len() > 0 {
            Some(
                (
                    true,
                    match index_of(ws[0], '%') {
                        Some(k) => ws[0].subrange(0, k),
                        None => ws[0],
                    },
                ),
            )
        } else {
            None
        }
    } else {
        None
    }
}

pub open spec fn ifconfig_addrs(text: Seq<char>) -> (Seq<Seq<char>>, Seq<Seq<char>>) {
    let found = lines(text).filter_map(|l: Seq<char>| ifconfig_addr(l));
    (
        found.filter(|a: (bool, Seq<char>)| !a.0).map_values(|a: (bool, Seq<char>)| a.1),
        found.filter(|a: (bool, Seq<char>)| a.0).map_values(|a: (bool, Seq<char>)| a.1),
    )
}

fn until_percent(a: &str) -> (r: String)
    ensures
        r@ == match index_of(a@, '%') {
            Some(k) => a@.subrange(0, k),
            None => a@,
        },
{
    let v = crate::text::chars_of(a);
    let mut i: usize = 0;
    assert(v@.subrange(0, v.len() as int) =~= v@);
    while i < v.len() && v[i] != '%'
        invariant
            v@ == a@,
            i <= v.len(),
            index_of(a@, '%') == match index_of(v@.subrange(i as int, v.len() as int), '%') {
                Some(k) => Some(k + i),
                None => None,
            },
        decreases v.len() - i,
    {
        assert(v@.subrange(i as int, v.len() as int)[0] == v@[i as int]);
        assert(v@.subrange(i as int, v.len() as int).drop_first() =~= v@.subrange(i + 1, v.len() as int));
        i += 1;
    }
    if i < v.len() {
        assert(v@.subrange(i as int, v.len() as int)[0] == v@[i as int]);
    } else {
        assert(v@.subrange(i as int, v.len() as int) =~= Seq::<char>::empty());
        assert(v@.subrange(0, i as int) =~= v@);
    }
    let mut out: Vec<char> = Vec::new();
    let mut k: usize = 0;
    while k < i
        invariant
            i <= v.len(),
            k <= i,
            out@ == v@.subrange(0, k as int),
        decreases i - k,
    {
        out.push(v[k]);
        assert(v@.subrange(0, k + 1) =~= v@.subrange(0, k as int).push(v@[k as int]));
        k += 1;
    }
    crate::text::string_of(&out)
}

fn ifconfig_line(line: &str) -> (r: Option<(bool, String)>)
    ensures
        match ifconfig_addr(line@) {
            Some((six, a)) => r matches Some((x, y)) && x == six && y@ == a,
            None => r is None,
        },
{
    let s = trimmed(line);
    proof {
        reveal_strlit("inet ");
        reveal_strlit("inet6 ");
    }
    match strip_prefix(s.as_str(), "inet ") {
        Some(rest) => {
            let ws = split_words(rest.as_str());
            if ws.len() > 0 {
                return Some((false, ws[0].clone()));
            }
            return None;
        },
        None => {},
    }
    match strip_prefix(s.as_str(), "inet6 ") {
        Some(rest) => {
            let ws = split_words(rest.as_str());
            if ws.len() > 0 {
                return Some((true, until_percent(ws[0].as_str())));
            }
            None
        },
        None => None,
    }
}

/// The `(inet, inet6)` addresses in macOS `ifconfig <iface>` output.
pub fn parse_ifconfig_addrs(text: &str) -> (r: (Vec<String>, Vec<String>))
    ensures
        (views(r.0@), views(r.1@)) == ifconfig_addrs(text@),
{
    let ls = split_lines(text);
    let ghost lv = views(ls@);
    let ghost f = |l: Seq<char>| ifconfig_addr(l);
    let mut inet: Vec<String> = Vec::new();
    let mut inet6: Vec<String> = Vec::new();
    let ghost mut found: Seq<(bool, Seq<char>)> = Seq::empty();
    let mut i: usize = 0;
    proof {
        reveal(Seq::filter);
    }
    while i < ls.len()
        invariant
            i <= ls.len(),
            lv == views(ls@),
            lv == lines(text@),
            found == lv.take(i as int).filter_map(|l: Seq<char>| ifconfig_addr(l)),
            views(inet@) == found.filter(|a: (bool, Seq<char>)| !a.0).map_values(
                |a: (bool, Seq<char>)| a.1,
            ),
            views(inet6@) == found.filter(|a: (bool, Seq<char>)| a.0).map_values(
                |a: (bool, Seq<char>)| a.1,
            ),
        decreases ls.len() - i,
    {
        proof {
            reveal(Seq::filter);
            assert(lv.take(i + 1).drop_last() =~= lv.take(i as int));
        }
        match ifconfig_line(ls[i].as_str()) {
            Some((six, a)) => {
                let ghost item = (six, a@);
                proof {
                    let nf = found + seq![item];
                    assert(nf.drop_last() =~= found);
                    assert(nf.last() == item);
                    found = nf;
                }
                if six {
                    push_line(&mut inet6, a);
                } else {
                    push_line(&mut inet, a);
                }
            },
            None => {},
        }
        i += 1;
    }
    assert(lv.take(lv.len() as int) =~= lv);
    (inet, inet6)
}

/// The link-local IPv6 neighbours in `ip -6 neigh show dev <iface>` output:
/// each line's first word that starts `fe80:` and is not our own address.
pub open spec fn neighbours(text: Seq<char>) -> Seq<Seq<char>> {
    lines(text).filter_map(
        |l: Seq<char>|
            {
                let ws = words(l);
                if ws.len() > 0 && starts_with(ws[0], "fe80:"@) && ws[0] != FFX_HOST_LL@ {
                    Some(ws[0])
                } else {
                    None
                }
            },
    )
}

pub fn parse_neighbours(text: &str) -> (r: Vec<String>)
    ensures
        views(r@) == neighbours(text@),
{
    let ls = split_lines(text);
    let ghost lv = views(ls@);
    let mut out: Vec<String> = Vec::new();
    let mut i: usize = 0;
    while i < ls.len()
        invariant
            i <= ls.len(),
            lv == views(ls@),
            lv == lines(text@),
            views(out@) == lv.take(i as int).filter_map(
                |l: Seq<char>|
                    {
                        let ws = words(l);
                        if ws.len() > 0 && starts_with(ws[0], "fe80:"@) && ws[0] != FFX_HOST_LL@ {
                            Some(ws[0])
                        } else {
                            None
                        }
                    },
            ),
        decreases ls.len() - i,
    {
        assert(lv.take(i + 1).drop_last() =~= lv.take(i as int));
        let ws = split_words(ls[i].as_str());
        if ws.len() > 0 && has_prefix(ws[0].as_str(), "fe80:") && !crate::text::same(
            ws[0].as_str(),
            FFX_HOST_LL,
        ) {
            let ghost before = views(out@);
            push_line(&mut out, ws[0].clone());
            assert(before.push(out@.last()@) =~= before + seq![out@.last()@]);
        }
        i += 1;
    }
    assert(lv.take(lv.len() as int) =~= lv);
    out
}

/// The device of the default route in `ip route show default` output: the
/// word after the first `dev`.
pub fn route_device(text: &str) -> (r: Option<String>)
    ensures
        match after_inet_key(words(text@), "dev"@) {
            Some(d) => r matches Some(x) && x@ == d,
            None => r is None,
        },
{
    let ws = split_words(text);
    word_after(&ws, "dev")
}

/// The service or device a line of `networksetup -listallhardwareports` or
/// `route -n get default` names after its label.
pub open spec fn labelled(line: Seq<char>, label: Seq<char>) -> Option<Seq<char>> {
    if starts_with(line, label) {
        Some(trim(line.subrange(label.len() as int, line.len() as int)))
    } else {
        None
    }
}

/// The interface of the default route in macOS `route -n get default`
/// output: the first line (trimmed) starting `interface:`, its rest trimmed.
pub open spec fn route_interface(ls: Seq<Seq<char>>) -> Option<Seq<char>>
    decreases ls.len(),
{
    if ls.len() == 0 {
        None
    } else if labelled(trim(ls[0]), "interface:"@) is Some {
        labelled(trim(ls[0]), "interface:"@)
    } else {
        route_interface(ls.drop_first())
    }
}

fn label_value(line: &str, label: &str) -> (r: Option<String>)
    ensures
        match labelled(line@, label@) {
            Some(v) => r matches Some(x) && x@ == v,
            None => r is None,
        },
{
    match strip_prefix(line, label) {
        Some(rest) => Some(trimmed(rest.as_str())),
        None => None,
    }
}

pub fn route_interface_mac(text: &str) -> (r: Option<String>)
    ensures
        match route_interface(lines(text@)) {
            Some(d) => r matches Some(x) && x@ == d,
            None => r is None,
        },
{
    let ls = split_lines(text);
    let ghost lv = views(ls@);
    let mut i: usize = 0;
    proof {
        assert(lv.skip(0) =~= lv);
    }
    while i < ls.len()
        invariant
            i <= ls.len(),
            lv == views(ls@),
            lv == lines(text@),
            route_interface(lv) == route_interface(lv.skip(i as int)),
        decreases ls.len() - i,
    {
        assert(lv.skip(i as int)[0] == ls@[i as int]@);
        assert(lv.skip(i as int).drop_first() =~= lv.skip(i + 1));
        let t = trimmed(ls[i].as_str());
        match label_value(t.as_str(), "interface:") {
            Some(v) => return Some(v),
            None => {},
        }
        i += 1;
    }
    None
}

/// `(hardware port, device)` pairs of `networksetup -listallhardwareports`
/// output: each `Device:` line paired with the `Hardware Port:` line before
/// it that no earlier device took.
pub open spec fn port_pairs(ls: Seq<Seq<char>>, pending: Option<Seq<char>>) -> Seq<(Seq<char>, Seq<char>)>
    decreases ls.len(),
{
    if ls.len() == 0 {
        Seq::empty()
    } else {
        match labelled(ls[0], "Hardware Port:"@) {
            Some(p) => port_pairs(ls.drop_first(), Some(p)),
            None => match labelled(ls[0], "Device:"@) {
                Some(d) => match pending {
                    Some(p) => seq![(p, d)] + port_pairs(ls.drop_first(), None),
                    None => port_pairs(ls.drop_first(), None),
                },
                None => port_pairs(ls.drop_first(), pending),
            },
        }
    }
}

pub open spec fn pair_views(v: Seq<(String, String)>) -> Seq<(Seq<char>, Seq<char>)> {
    v.map_values(|p: (String, String)| (p.0@, p.1@))
}

pub open spec fn opt_str(o: Option<String>) -> Option<Seq<char>> {
    match o {
        Some(s) => Some(s@),
        None => None,
    }
}

/// The hardware ports of `networksetup -listallhardwareports` output, as
/// `(port, device)`.
pub fn hardware_ports(text: &str) -> (r: Vec<(String, String)>)
    ensures
        pair_views(r@) == port_pairs(lines(text@), None),
{
    let ls = split_lines(text);
    let ghost lv = views(ls@);
    let mut out: Vec<(String, String)> = Vec::new();
    let mut port: Option<String> = None;
    let mut i: usize = 0;
    proof {
        assert(lv.skip(0) =~= lv);
        assert(pair_views(out@) + port_pairs(lv, None) =~= port_pairs(lv, None));
    }
    while i < ls.len()
        invariant
            i <= ls.len(),
            lv == views(ls@),
            lv == lines(text@),
            port_pairs(lv, None) == pair_views(out@) + port_pairs(lv.skip(i as int), opt_str(port)),
        decreases ls.len() - i,
    {
        assert(lv.skip(i as int)[0] == ls@[i as int]@);
        assert(lv.skip(i as int).drop_first() =~= lv.skip(i + 1));
        match label_value(ls[i].as_str(), "Hardware Port:") {
            Some(p) => {
                port = Some(p);
            },
            None => match label_value(ls[i].as_str(), "Device:") {
                Some(d) => {
                    match port {
                        Some(p) => {
                            let ghost before = out@;
                            let ghost pv = p@;
                            out.push((p, d));
                            assert(pair_views(out@) =~= pair_views(before) + seq![(pv, out@.last().1@)]);
                            assert(pair_views(out@) + port_pairs(lv.skip(i + 1), None) =~= pair_views(before)
                                + (seq![(pv, out@.last().1@)] + port_pairs(lv.skip(i + 1), None)));
                        },
                        None => {},
                    }
                    port = None;
                },
                None => {},
            },
        }
        i += 1;
    }
    assert(lv.skip(i as int) =~= Seq::<Seq<char>>::empty());
    assert(pair_views(out@) + Seq::<(Seq<char>, Seq<char>)>::empty() =~= pair_views(out@));
    out
}

/// The network service of `interface` in `networksetup
/// -listallhardwareports` output: the port named before its `Device:` line.
pub open spec fn service_of(ls: Seq<Seq<char>>, pending: Option<Seq<char>>, interface: Seq<char>) -> Option<Seq<char>>
    decreases ls.len(),
{
    if ls.len() == 0 {
        None
    } else {
        match labelled(ls[0], "Hardware Port:"@) {
            Some(p) => service_of(ls.drop_first(), Some(p), interface),
            None => match labelled(ls[0], "Device:"@) {
                Some(d) => if d == interface {
                    pending
                } else {
                    service_of(ls.drop_first(), pending, interface)
                },
                None => service_of(ls.drop_first(), pending, interface),
            },
        }
    }
}

pub fn network_service(text: &str, interface: &str) -> (r: Option<String>)
    ensures
        opt_str(r) == service_of(lines(text@), None, interface@),
{
    let ls = split_lines(text);
    let ghost lv = views(ls@);
    let mut service: Option<String> = None;
    let mut i: usize = 0;
    proof {
        assert(lv.skip(0) =~= lv);
    }
    while i < ls.len()
        invariant
            i <= ls.len(),
            lv == views(ls@),
            lv == lines(text@),
            service_of(lv, None, interface@) == service_of(lv.skip(i as int), opt_str(service), interface@),
        decreases ls.len() - i,
    {
        assert(lv.skip(i as int)[0] == ls@[i as int]@);
        assert(lv.skip(i as int).drop_first() =~= lv.skip(i + 1));
        match label_value(ls[i].as_str(), "Hardware Port:") {
            Some(p) => {
                service = Some(p);
            },
            None => match label_value(ls[i].as_str(), "Device:") {
                Some(d) => {
                    if crate::text::same(d.as_str(), interface) {
                        return service;
                    }
                },
                None => {},
            },
        }
        i += 1;
    }
    None
}

/// Whether a macOS hardware port is a candidate link: not the bridge or
/// loopback, not the primary interface, not a built-in kind of port.
pub open spec fn mac_candidate_spec(port: Seq<char>, device: Seq<char>, primary: Option<Seq<char>>) -> bool {
    !(device == "bridge0"@ || device == "lo0"@ || primary == Some(device) || starts_with(
        port,
        "Wi-Fi"@,
    ) || starts_with(port, "Thunderbolt"@) || starts_with(port, "Bluetooth"@) || starts_with(
        port,
        "FireWire"@,
    ) || starts_with(port, "iPhone"@) || starts_with(port, "iPad"@))
}

pub fn mac_candidate(port: &str, device: &str, primary: Option<&str>) -> (r: bool)
    ensures
        r == mac_candidate_spec(
            port@,
            device@,
            match primary {
                Some(p) => Some(p@),
                None => None,
            },
        ),
{
    let is_primary = match primary {
        Some(p) => crate::text::same(p, device),
        None => false,
    };
    !(crate::text::same(device, "bridge0") || crate::text::same(device, "lo0") || is_primary
        || has_prefix(port, "Wi-Fi") || has_prefix(port, "Thunderbolt") || has_prefix(
        port,
        "Bluetooth",
    ) || has_prefix(port, "FireWire") || has_prefix(port, "iPhone") || has_prefix(port, "iPad"))
}

/// Whether a Linux interface name is skipped before its type is read:
/// loopback, container, bridge and virtual interfaces, and the primary one.
pub open spec fn linux_skipped_spec(name: Seq<char>, primary: Option<Seq<char>>) -> bool {
    starts_with(name, "lo"@) || starts_with(name, "docker"@) || starts_with(name, "veth"@)
        || starts_with(name, "br"@) || starts_with(name, "virbr"@) || starts_with(name, "vlan"@)
        || starts_with(name, "bond"@) || starts_with(name, "dummy"@) || primary == Some(name)
}

pub fn linux_skipped(name: &str, primary: Option<&str>) -> (r: bool)
    ensures
        r == linux_skipped_spec(
            name@,
            match primary {
                Some(p) => Some(p@),
                None => None,
            },
        ),
{
    let is_primary = match primary {
        Some(p) => crate::text::same(p, name),
        None => false,
    };
    has_prefix(name, "lo") || has_prefix(name, "docker") || has_prefix(name, "veth") || has_prefix(
        name,
        "br",
    ) || has_prefix(name, "virbr") || has_prefix(name, "vlan") || has_prefix(name, "bond")
        || has_prefix(name, "dummy") || is_primary
}

/// What a failed command said: its stderr trimmed, or its stdout trimmed
/// when stderr is empty (`networksetup` reports errors on stdout).
pub fn failure_text(stderr: &str, stdout: &str) -> (r: String)
    ensures
        r@ == if trim(stderr@).len() == 0 {
            trim(stdout@)
        } else {
            trim(stderr@)
        },
{
    let e = trimmed(stderr);
    if e.unicode_len() == 0 {
        trimmed(stdout)
    } else {
        e
    }
}

/// The link mode the interface is in: netboot while its daemons run, ffx
/// with the host link-local, link with just the static host IP, else off.
pub open spec fn mode_of(
    netboot_running: bool,
    inet: Seq<String>,
    inet6: Seq<String>,
    host_ip: Seq<char>,
) -> Seq<char> {
    if netboot_running {
        "netboot"@
    } else if has_address(inet6, FFX_HOST_LL@) {
        "ffx"@
    } else if has_address(inet, host_ip) {
        "link"@
    } else {
        "off"@
    }
}

pub fn link_mode(netboot_running: bool, inet: &Vec<String>, inet6: &Vec<String>, host_ip: &str) -> (r: &'static str)
    ensures
        r@ == mode_of(netboot_running, inet@, inet6@, host_ip@),
{
    if netboot_running {
        "netboot"
    } else if has_host_ll(inet6) {
        "ffx"
    } else if has_addr(inet, host_ip) {
        "link"
    } else {
        "off"
    }
}

// ── mode changes ────────────────────────────────────────────────────────────

/// A link mode change a user asks for.
#[derive(Debug, Clone, Copy, PartialEq, Eq, Structural)]
pub enum NetifMode {
    Netboot,
    Link,
    Ffx,
    Off,
    /// `off`, then Wake-on-LAN disabled and the interface admin-down, so the
    /// peer sees its carrier drop.
    DownHard,
}

/// One action of a mode change, run by the application in order.
#[derive(Debug, Clone, Copy, PartialEq, Eq, Structural)]
pub enum NetifStep {
    /// Stop the target's running netboot session.
    StopNetboot,
    /// Start DHCP+TFTP for the target.
    StartNetboot,
    /// Remove the ffx host link-local.
    DelHostLl,
    /// Add the ffx host link-local.
    AddHostLl,
    /// Assign the static IPv4 host IP.
    ConfigureInterface,
    /// Release the static IPv4 host IP.
    DelHostIp,
    /// Disable Wake-on-LAN so the NIC lets the PHY go dark.
    DisableWol,
    /// Administratively bring the interface down.
    AdminDown,
}

/// The verb a mode change is refused with.
pub open spec fn mode_word(m: NetifMode) -> Seq<char> {
    match m {
        NetifMode::Netboot => "mode netboot"@,
        NetifMode::Link => "mode link"@,
        NetifMode::Ffx => "mode ffx"@,
        NetifMode::Off => "mode off"@,
        NetifMode::DownHard => "down-hard"@,
    }
}

pub fn mode_verb(m: NetifMode) -> (r: &'static str)
    ensures
        r@ == mode_word(m),
{
    match m {
        NetifMode::Netboot => "mode netboot",
        NetifMode::Link => "mode link",
        NetifMode::Ffx => "mode ffx",
        NetifMode::Off => "mode off",
        NetifMode::DownHard => "down-hard",
    }
}

/// What a mode change does, given whether the target's netboot runs. A
/// running session is stopped first by every mode but netboot, which instead
/// leaves it running (the change is idempotent).
pub open spec fn plan_spec(m: NetifMode, running: bool) -> Seq<NetifStep> {
    let stop = if running {
        seq![NetifStep::StopNetboot]
    } else {
        Seq::empty()
    };
    match m {
        NetifMode::Netboot => seq![NetifStep::DelHostLl] + if running {
            Seq::empty()
        } else {
            seq![NetifStep::StartNetboot]
        },
        NetifMode::Link => stop + seq![NetifStep::DelHostLl, NetifStep::ConfigureInterface],
        NetifMode::Ffx => stop + seq![NetifStep::AddHostLl],
        NetifMode::Off => stop + seq![NetifStep::DelHostLl, NetifStep::DelHostIp],
        NetifMode::DownHard => stop + seq![
            NetifStep::DelHostLl,
            NetifStep::DelHostIp,
            NetifStep::DisableWol,
            NetifStep::AdminDown,
        ],
    }
}

/// The steps of mode change `m` on `interface`, or the refusal when it is
/// the interface carrying the system default route (`default_route`).
pub fn mode_plan(m: NetifMode, interface: &str, default_route: Option<&str>, netboot_running: bool) -> (r:
    Result<Vec<NetifStep>, String>)
    ensures
        match default_route {
            Some(d) => if d@ == interface@ {
                r matches Err(e) && e@ == primary_refusal(mode_word(m), interface@)
            } else {
                r matches Ok(v) && v@ == plan_spec(m, netboot_running)
            },
            None => r matches Ok(v) && v@ == plan_spec(m, netboot_running),
        },
{
    match refuse_primary_interface(mode_verb(m), interface, default_route) {
        Err(e) => return Err(e),
        Ok(()) => {},
    }
    let mut v: Vec<NetifStep> = Vec::new();
    match m {
        NetifMode::Netboot => {
            v.push(NetifStep::DelHostLl);
            if !netboot_running {
                v.push(NetifStep::StartNetboot);
            }
        },
        _ => {
            if netboot_running {
                v.push(NetifStep::StopNetboot);
            }
            match m {
                NetifMode::Link => {
                    v.push(NetifStep::DelHostLl);
                    v.push(NetifStep::ConfigureInterface);
                },
                NetifMode::Ffx => {
                    v.push(NetifStep::AddHostLl);
                },
                NetifMode::Off => {
                    v.push(NetifStep::DelHostLl);
                    v.push(NetifStep::DelHostIp);
                },
                _ => {
                    v.push(NetifStep::DelHostLl);
                    v.push(NetifStep::DelHostIp);
                    v.push(NetifStep::DisableWol);
                    v.push(NetifStep::AdminDown);
                },
            }
        },
    }
    assert(v@ =~= plan_spec(m, netboot_running));
    Ok(v)
}

/// `down-hard` does everything `mode off` does, then disables Wake-on-LAN
/// and admin-downs the interface; every mode but netboot stops a running
/// netboot before anything else, and netboot never starts a second session.
pub proof fn law_down_hard_is_off_then_carrier_loss(running: bool)
    ensures
        plan_spec(NetifMode::DownHard, running) == plan_spec(NetifMode::Off, running) + seq![
            NetifStep::DisableWol,
            NetifStep::AdminDown,
        ],
        running ==> forall|m: NetifMode| m != NetifMode::Netboot ==> (#[trigger] plan_spec(m, running))[0]
            == NetifStep::StopNetboot,
        running ==> !plan_spec(NetifMode::Netboot, running).contains(NetifStep::StartNetboot),
        forall|m: NetifMode| !(#[trigger] plan_spec(m, running)).contains(NetifStep::StopNetboot) || running,
{
    let stop = if running { seq![NetifStep::StopNetboot] } else { Seq::<NetifStep>::empty() };
    assert(plan_spec(NetifMode::DownHard, running) =~= plan_spec(NetifMode::Off, running) + seq![
        NetifStep::DisableWol,
        NetifStep::AdminDown,
    ]);
    if running {
        assert(plan_spec(NetifMode::Netboot, running) =~= seq![NetifStep::DelHostLl]);
    }
    assert forall|m: NetifMode| !(#[trigger] plan_spec(m, running)).contains(NetifStep::StopNetboot) || running by {
        if !running {
            let p = plan_spec(m, running);
            if p.contains(NetifStep::StopNetboot) {
                let k = choose|k: int| 0 <= k < p.len() && p[k] == NetifStep::StopNetboot;
                match m {
                    NetifMode::Netboot => assert(p =~= seq![NetifStep::DelHostLl, NetifStep::StartNetboot]),
                    NetifMode::Link => assert(p =~= seq![NetifStep::DelHostLl, NetifStep::ConfigureInterface]),
                    NetifMode::Ffx => assert(p =~= seq![NetifStep::AddHostLl]),
                    NetifMode::Off => assert(p =~= seq![NetifStep::DelHostLl, NetifStep::DelHostIp]),
                    NetifMode::DownHard => assert(p =~= seq![
                        NetifStep::DelHostLl,
                        NetifStep::DelHostIp,
                        NetifStep::DisableWol,
                        NetifStep::AdminDown,
                    ]),
                }
            }
        }
    }
}

// ── the commands behind the steps ───────────────────────────────────────────

pub open spec fn words_of(v: Seq<Vec<String>>) -> Seq<Seq<Seq<char>>> {
    v.map_values(|c: Vec<String>| views(c@))
}

pub open spec fn opt_word(o: Option<&str>) -> Seq<Seq<char>> {
    match o {
        Some(x) => seq![x@],
        None => Seq::empty(),
    }
}

/// The argv of four words and up to four more.
fn argv_of(a: &str, b: &str, c: &str, d: &str, e: Option<&str>, f: Option<&str>, g: Option<&str>, h: Option<&str>) -> (r: Vec<String>)
    ensures
        views(r@) == seq![a@, b@, c@, d@] + opt_word(e) + opt_word(f) + opt_word(g) + opt_word(h),
{
    let mut v: Vec<String> = Vec::new();
    push_line(&mut v, owned(a));
    push_line(&mut v, owned(b));
    push_line(&mut v, owned(c));
    push_line(&mut v, owned(d));
    if let Some(x) = e {
        push_line(&mut v, owned(x));
    }
    if let Some(x) = f {
        push_line(&mut v, owned(x));
    }
    if let Some(x) = g {
        push_line(&mut v, owned(x));
    }
    if let Some(x) = h {
        push_line(&mut v, owned(x));
    }
    assert(views(v@) =~= seq![a@, b@, c@, d@] + opt_word(e) + opt_word(f) + opt_word(g) + opt_word(h));
    v
}

/// The host link-local with its prefix, as `ip` takes it.
pub open spec fn host_ll_cidr() -> Seq<char> {
    FFX_HOST_LL@ + "/64"@
}

/// The commands of a best-effort step (their failures are ignored): removing
/// the host link-local or the host IP, disabling Wake-on-LAN, taking the
/// interface down. On macOS the host IP is released by returning the
/// interface's network `service` (when it has one) to DHCP and then dropping
/// the address alias; Wake-on-LAN is a system-wide setting there and is left
/// alone. Other steps have no best-effort commands.
pub open spec fn best_effort_words(
    step: NetifStep,
    macos: bool,
    iface: Seq<char>,
    host_ip: Seq<char>,
    service: Option<Seq<char>>,
) -> Seq<Seq<Seq<char>>> {
    match step {
        NetifStep::DelHostLl => if macos {
            seq![seq!["sudo"@, "ifconfig"@, iface, "inet6"@, FFX_HOST_LL@, "-alias"@]]
        } else {
            seq![seq!["sudo"@, "ip"@, "-6"@, "addr"@, "del"@, host_ll_cidr(), "dev"@, iface]]
        },
        NetifStep::DelHostIp => if macos {
            (match service {
                Some(sv) => seq![seq!["sudo"@, "networksetup"@, "-setdhcp"@, sv]],
                None => Seq::empty(),
            }) + seq![seq!["sudo"@, "ifconfig"@, iface, "inet"@, host_ip, "-alias"@]]
        } else {
            seq![seq!["sudo"@, "ip"@, "addr"@, "del"@, host_ip + "/24"@, "dev"@, iface]]
        },
        NetifStep::DisableWol => if macos {
            Seq::empty()
        } else {
            seq![seq!["sudo"@, "ethtool"@, "-s"@, iface, "wol"@, "d"@]]
        },
        NetifStep::AdminDown => if macos {
            seq![seq!["sudo"@, "ifconfig"@, iface, "down"@]]
        } else {
            seq![seq!["sudo"@, "ip"@, "link"@, "set"@, iface, "down"@]]
        },
        _ => Seq::empty(),
    }
}

pub fn best_effort_commands(
    step: NetifStep,
    macos: bool,
    iface: &str,
    host_ip: &str,
    service: Option<&str>,
) -> (r: Vec<Vec<String>>)
    ensures
        words_of(r@) == best_effort_words(
            step,
            macos,
            iface@,
            host_ip@,
            match service {
                Some(s) => Some(s@),
                None => None,
            },
        ),
{
    let ghost sv = match service {
        Some(s) => Some(s@),
        None => None,
    };
    let ghost want = best_effort_words(step, macos, iface@, host_ip@, sv);
    let mut out: Vec<Vec<String>> = Vec::new();
    match step {
        NetifStep::DelHostLl => {
            if macos {
                let c = argv_of("sudo", "ifconfig", iface, "inet6", Some(FFX_HOST_LL), Some("-alias"), None, None);
                assert(views(c@) =~= want[0]);
                out.push(c);
            } else {
                let cidr = cat(FFX_HOST_LL, "/64");
                let c = argv_of("sudo", "ip", "-6", "addr", Some("del"), Some(cidr.as_str()), Some("dev"), Some(iface));
                assert(views(c@) =~= want[0]);
                out.push(c);
            }
        },
        NetifStep::DelHostIp => {
            if macos {
                if let Some(x) = service {
                    let c = argv_of("sudo", "networksetup", "-setdhcp", x, None, None, None, None);
                    assert(views(c@) =~= want[0]);
                    out.push(c);
                }
                let c = argv_of("sudo", "ifconfig", iface, "inet", Some(host_ip), Some("-alias"), None, None);
                assert(views(c@) =~= want[want.len() - 1]);
                out.push(c);
            } else {
                let cidr = cat(host_ip, "/24");
                let c = argv_of("sudo", "ip", "addr", "del", Some(cidr.as_str()), Some("dev"), Some(iface), None);
                assert(views(c@) =~= want[0]);
                out.push(c);
            }
        },
        NetifStep::DisableWol => {
            if !macos {
                let c = argv_of("sudo", "ethtool", "-s", iface, Some("wol"), Some("d"), None, None);
                assert(views(c@) =~= want[0]);
                out.push(c);
            }
        },
        NetifStep::AdminDown => {
            if macos {
                let c = argv_of("sudo", "ifconfig", iface, "down", None, None, None, None);
                assert(views(c@) =~= want[0]);
                out.push(c);
            } else {
                let c = argv_of("sudo", "ip", "link", "set", Some(iface), Some("down"), None, None);
                assert(views(c@) =~= want[0]);
                out.push(c);
            }
        },
        _ => {},
    }
    assert(words_of(out@) =~= want);
    out
}

/// Adding the host link-local: on Linux first enable IPv6 on the interface
/// and bring it up (best effort), then the one command whose failure counts.
pub open spec fn host_ll_words(macos: bool, iface: Seq<char>) -> (Seq<Seq<Seq<char>>>, Seq<Seq<char>>) {
    if macos {
        (Seq::empty(), seq!["sudo"@, "ifconfig"@, iface, "inet6"@, FFX_HOST_LL@, "prefixlen"@, "64"@, "up"@])
    } else {
        (
            seq![
                seq!["sudo"@, "sysctl"@, "-w"@, "net/ipv6/conf/"@ + iface + "/disable_ipv6=0"@],
                seq!["sudo"@, "ip"@, "link"@, "set"@, iface, "up"@],
            ],
            seq!["sudo"@, "ip"@, "-6"@, "addr"@, "add"@, host_ll_cidr(), "dev"@, iface],
        )
    }
}

pub fn host_ll_commands(macos: bool, iface: &str) -> (r: (Vec<Vec<String>>, Vec<String>))
    ensures
        (words_of(r.0@), views(r.1@)) == host_ll_words(macos, iface@),
{
    let mut pre: Vec<Vec<String>> = Vec::new();
    if macos {
        let c = argv_of("sudo", "ifconfig", iface, "inet6", Some(FFX_HOST_LL), Some("prefixlen"), Some("64"), Some("up"));
        assert(words_of(pre@) =~= Seq::<Seq<Seq<char>>>::empty());
        assert(views(c@) =~= host_ll_words(macos, iface@).1);
        return (pre, c);
    }
    let ghost want = host_ll_words(macos, iface@);
    let key = cat3("net/ipv6/conf/", iface, "/disable_ipv6=0");
    let c0 = argv_of("sudo", "sysctl", "-w", key.as_str(), None, None, None, None);
    assert(views(c0@) =~= want.0[0]);
    pre.push(c0);
    let c1 = argv_of("sudo", "ip", "link", "set", Some(iface), Some("up"), None, None);
    assert(views(c1@) =~= want.0[1]);
    pre.push(c1);
    let cidr = cat(FFX_HOST_LL, "/64");
    let c = argv_of("sudo", "ip", "-6", "addr", Some("add"), Some(cidr.as_str()), Some("dev"), Some(iface));
    assert(words_of(pre@) =~= want.0);
    assert(views(c@) =~= want.1);
    (pre, c)
}

/// The static host IP's netmask: the point-to-point link is a /24.
pub const HOST_NETMASK: &'static str = "255.255.255.0";

/// macOS: mark the interface's network service manual with the host IP (the
/// host IP doubles as the router `networksetup` insists on), so a carrier
/// flap does not hand the link back to DHCP.
pub fn setmanual_command(service: &str, host_ip: &str) -> (r: Vec<String>)
    ensures
        views(r@) == seq!["sudo"@, "networksetup"@, "-setmanual"@, service@, host_ip@, HOST_NETMASK@, host_ip@],
{
    let c = argv_of("sudo", "networksetup", "-setmanual", service, Some(host_ip), Some(HOST_NETMASK), Some(host_ip), None);
    assert(views(c@) =~= seq!["sudo"@, "networksetup"@, "-setmanual"@, service@, host_ip@, HOST_NETMASK@, host_ip@]);
    c
}

/// macOS: make the host IP live on the interface.
pub fn ifconfig_up_command(iface: &str, host_ip: &str) -> (r: Vec<String>)
    ensures
        views(r@) == seq!["sudo"@, "ifconfig"@, iface@, host_ip@, "netmask"@, HOST_NETMASK@, "up"@],
{
    let c = argv_of("sudo", "ifconfig", iface, host_ip, Some("netmask"), Some(HOST_NETMASK), Some("up"), None);
    assert(views(c@) =~= seq!["sudo"@, "ifconfig"@, iface@, host_ip@, "netmask"@, HOST_NETMASK@, "up"@]);
    c
}

/// Linux: put `cidr` on the interface (idempotent, and it lands before any
/// other address is removed, so the interface is never left addressless).
pub fn addr_replace_command(iface: &str, cidr: &str) -> (r: Vec<String>)
    ensures
        views(r@) == seq!["sudo"@, "ip"@, "addr"@, "replace"@, cidr@, "dev"@, iface@],
{
    let c = argv_of("sudo", "ip", "addr", "replace", Some(cidr), Some("dev"), Some(iface), None);
    assert(views(c@) =~= seq!["sudo"@, "ip"@, "addr"@, "replace"@, cidr@, "dev"@, iface@]);
    c
}

/// Linux: remove another address from the interface.
pub fn addr_del_command(iface: &str, addr: &str) -> (r: Vec<String>)
    ensures
        views(r@) == seq!["sudo"@, "ip"@, "addr"@, "del"@, addr@, "dev"@, iface@],
{
    let c = argv_of("sudo", "ip", "addr", "del", Some(addr), Some("dev"), Some(iface), None);
    assert(views(c@) =~= seq!["sudo"@, "ip"@, "addr"@, "del"@, addr@, "dev"@, iface@]);
    c
}

/// Linux: bring the interface up.
pub fn link_up_command(iface: &str) -> (r: Vec<String>)
    ensures
        views(r@) == seq!["sudo"@, "ip"@, "link"@, "set"@, iface@, "up"@],
{
    let c = argv_of("sudo", "ip", "link", "set", Some(iface), Some("up"), None, None);
    assert(views(c@) =~= seq!["sudo"@, "ip"@, "link"@, "set"@, iface@, "up"@]);
    c
}

/// Returning the interface to OS-managed networking: its network service
/// back to DHCP on macOS (nothing when it has none), its addresses flushed on
/// Linux.
pub open spec fn restore_words(macos: bool, iface: Seq<char>, service: Option<Seq<char>>) -> Seq<Seq<Seq<char>>> {
    if macos {
        match service {
            Some(sv) => seq![seq!["sudo"@, "networksetup"@, "-setdhcp"@, sv]],
            None => Seq::empty(),
        }
    } else {
        seq![seq!["sudo"@, "ip"@, "addr"@, "flush"@, "dev"@, iface]]
    }
}

pub fn restore_commands(macos: bool, iface: &str, service: Option<&str>) -> (r: Vec<Vec<String>>)
    ensures
        words_of(r@) == restore_words(
            macos,
            iface@,
            match service {
                Some(s) => Some(s@),
                None => None,
            },
        ),
{
    let ghost want = restore_words(
        macos,
        iface@,
        match service {
            Some(s) => Some(s@),
            None => None,
        },
    );
    let mut out: Vec<Vec<String>> = Vec::new();
    if macos {
        if let Some(x) = service {
            let c = argv_of("sudo", "networksetup", "-setdhcp", x, None, None, None, None);
            assert(views(c@) =~= want[0]);
            out.push(c);
        }
    } else {
        let c = argv_of("sudo", "ip", "addr", "flush", Some("dev"), Some(iface), None, None);
        assert(views(c@) =~= want[0]);
        out.push(c);
    }
    assert(words_of(out@) =~= want);
    out
}

/// macOS: stop neighbour-unreachability detection from blocking sends to a
/// client that never answers ARP (a Pi's bootloader); nothing on Linux.
pub open spec fn arp_tuning_words(macos: bool) -> Seq<Seq<Seq<char>>> {
    if macos {
        seq![
            seq!["sudo"@, "sysctl"@, "-w"@, "net.link.ether.inet.arp_llreach_base=0"@],
            seq!["sudo"@, "sysctl"@, "-w"@, "net.link.ether.inet.host_down_time=0"@],
        ]
    } else {
        Seq::empty()
    }
}

pub fn arp_tuning_commands(macos: bool) -> (r: Vec<Vec<String>>)
    ensures
        words_of(r@) == arp_tuning_words(macos),
{
    let ghost want = arp_tuning_words(macos);
    let mut out: Vec<Vec<String>> = Vec::new();
    if macos {
        let c0 = argv_of("sudo", "sysctl", "-w", "net.link.ether.inet.arp_llreach_base=0", None, None, None, None);
        assert(views(c0@) =~= want[0]);
        out.push(c0);
        let c1 = argv_of("sudo", "sysctl", "-w", "net.link.ether.inet.host_down_time=0", None, None, None, None);
        assert(views(c1@) =~= want[1]);
        out.push(c1);
    }
    assert(words_of(out@) =~= want);
    out
}

/// An address add failed for real: the command did not succeed, and not
/// because the address is already there (the idempotent re-run).
pub open spec fn add_refused_spec(success: bool, stderr: Seq<char>) -> bool {
    !success && !contains(stderr.map_values(|c: char| crate::model::ascii_lower(c)), "exists"@)
}

pub fn add_refused(success: bool, stderr: &str) -> (r: bool)
    ensures
        r == add_refused_spec(success, stderr@),
{
    if success {
        return false;
    }
    let v = crate::text::chars_of(stderr);
    let mut low: Vec<char> = Vec::new();
    let mut i: usize = 0;
    while i < v.len()
        invariant
            v@ == stderr@,
            i <= v.len(),
            low@ == v@.take(i as int).map_values(|c: char| crate::model::ascii_lower(c)),
        decreases v.len() - i,
    {
        low.push(crate::model::lower(v[i]));
        assert(v@.take(i + 1) =~= v@.take(i as int).push(v@[i as int]));
        assert(low@ =~= v@.take(i + 1).map_values(|c: char| crate::model::ascii_lower(c)));
        i += 1;
    }
    assert(v@.take(v.len() as int) =~= v@);
    let s = crate::text::string_of(&low);
    !has_substring(s.as_str(), "exists")
}

/// The addresses `ip -4 -o addr show` lists beside ours (`cidr`), to remove
/// once ours is in place.
pub fn stale_addrs(addrs: &Vec<String>, cidr: &str) -> (r: Vec<String>)
    ensures
        views(r@) == views(addrs@).filter(|a: Seq<char>| a != cidr@),
{
    let mut out: Vec<String> = Vec::new();
    let mut i: usize = 0;
    proof {
        reveal(Seq::filter);
    }
    while i < addrs.len()
        invariant
            i <= addrs.len(),
            views(out@) == views(addrs@).take(i as int).filter(|a: Seq<char>| a != cidr@),
        decreases addrs.len() - i,
    {
        proof {
            reveal(Seq::filter);
            assert(views(addrs@).take(i + 1).drop_last() =~= views(addrs@).take(i as int));
        }
        if !crate::text::same(addrs[i].as_str(), cidr) {
            push_line(&mut out, addrs[i].clone());
        }
        i += 1;
    }
    assert(views(addrs@).take(addrs.len() as int) =~= views(addrs@));
    out
}

/// A link's observed state.
pub struct NetifStatus {
    pub mode: &'static str,
    pub carrier: bool,
    pub inet: Vec<String>,
    pub inet6: Vec<String>,
    pub peers: Vec<String>,
}

/// The link's state from what was observed of it: whether the target's
/// netboot runs, the carrier, the interface's IPv4 and IPv6 addresses, and
/// `peers`, the lookup of IPv6 neighbours, asked only in `ffx` mode (peers
/// are empty in every other mode). The addresses are passed through as given.
pub fn get_status<F: Fn() -> Vec<String>>(
    netboot_running: bool,
    carrier: bool,
    inet: Vec<String>,
    inet6: Vec<String>,
    host_ip: &str,
    peers: F,
) -> (r: NetifStatus)
    requires
        call_requires(peers, ()),
    ensures
        r.mode@ == mode_of(netboot_running, inet@, inet6@, host_ip@),
        r.carrier == carrier,
        r.inet@ == inet@,
        r.inet6@ == inet6@,
        r.mode@ == "ffx"@ ==> call_ensures(peers, (), r.peers),
        r.mode@ != "ffx"@ ==> r.peers@.len() == 0,
{
    let mode = link_mode(netboot_running, &inet, &inet6, host_ip);
    let ffx = crate::text::same(mode, "ffx");
    let found = if ffx {
        peers()
    } else {
        Vec::new()
    };
    NetifStatus { mode, carrier, inet, inet6, peers: found }
}

/// Address `a` (written `addr` or `addr/prefix`) is the address `h`.
pub open spec fn names_address(a: Seq<char>, h: Seq<char>) -> bool {
    a == h || (h.len() < a.len() && a.take(h.len() as int) == h && a[h.len() as int] == '/')
}

proof fn lemma_names_address(a: Seq<char>, h: Seq<char>)
    ensures
        before_slash(a) == h ==> names_address(a, h),
        names_address(a, h) && (forall|k: int| 0 <= k < h.len() ==> h[k] != '/') ==> before_slash(a) == h,
{
    crate::daemons::lemma_index_of(a, '/');
    if names_address(a, h) && (forall|k: int| 0 <= k < h.len() ==> h[k] != '/') && a != h {
        assert forall|j: int| 0 <= j < h.len() implies a[j] != '/' by {
            assert(a.take(h.len() as int)[j] == h[j]);
        }
        match index_of(a, '/') {
            Some(k) => {
                assert(k == h.len());
                assert(a.subrange(0, k) =~= a.take(h.len() as int));
            },
            None => {},
        }
    }
    if before_slash(a) == h {
        match index_of(a, '/') {
            Some(k) => {
                assert(a.take(h.len() as int) =~= a.subrange(0, k));
            },
            None => {},
        }
    }
}

/// The reported link mode follows the interface's addresses: `netboot`
/// whenever a netboot session runs; otherwise `link` only when one of the
/// IPv4 addresses, taken before its `/`, is the static host IP; and with no
/// ffx link-local and no such address, `off` (as after `mode off` hands the
/// interface back to DHCP and a self-assigned address remains). An address
/// that is exactly the host IP (one without `/`) gives `link`.
pub proof fn law_link_mode_is_link_only_with_the_host_ip(
    netboot_running: bool,
    inet: Seq<String>,
    inet6: Seq<String>,
    host_ip: Seq<char>,
)
    ensures
        netboot_running ==> mode_of(netboot_running, inet, inet6, host_ip) == "netboot"@,
        mode_of(netboot_running, inet, inet6, host_ip) == "link"@ ==> !netboot_running && exists|i: int|
            0 <= i < inet.len() && names_address(#[trigger] inet[i]@, host_ip),
        !netboot_running && (forall|j: int| 0 <= j < inet6.len() ==> !names_address(#[trigger] inet6[j]@, FFX_HOST_LL@))
            && (forall|i: int| 0 <= i < inet.len() ==> !names_address(#[trigger] inet[i]@, host_ip))
            ==> mode_of(netboot_running, inet, inet6, host_ip) == "off"@,
        !netboot_running && (forall|j: int| 0 <= j < inet6.len() ==> !names_address(#[trigger] inet6[j]@, FFX_HOST_LL@))
            && (forall|k: int| 0 <= k < host_ip.len() ==> host_ip[k] != '/') && (exists|i: int|
            0 <= i < inet.len() && #[trigger] inet[i]@ == host_ip) ==> mode_of(netboot_running, inet, inet6, host_ip)
            == "link"@,
        mode_of(netboot_running, inet, inet6, host_ip) == "ffx"@ ==> !netboot_running && exists|j: int|
            0 <= j < inet6.len() && names_address(#[trigger] inet6[j]@, FFX_HOST_LL@),
        !netboot_running && (exists|j: int| 0 <= j < inet6.len() && #[trigger] inet6[j]@ == FFX_HOST_LL@)
            ==> mode_of(netboot_running, inet, inet6, host_ip) == "ffx"@,
{
    reveal_strlit("netboot");
    reveal_strlit("link");
    reveal_strlit("off");
    reveal_strlit("ffx");
    assert forall|i: int| 0 <= i < inet.len() && before_slash(#[trigger] inet[i]@) == host_ip implies names_address(
        inet[i]@,
        host_ip,
    ) by {
        lemma_names_address(inet[i]@, host_ip);
    }
    assert forall|j: int| 0 <= j < inet6.len() && before_slash(#[trigger] inet6[j]@) == FFX_HOST_LL@ implies names_address(
        inet6[j]@,
        FFX_HOST_LL@,
    ) by {
        lemma_names_address(inet6[j]@, FFX_HOST_LL@);
    }
    assert("link"@.len() == 4 && "netboot"@.len() == 7 && "ffx"@.len() == 3 && "off"@.len() == 3);
    assert("ffx"@[0] != "off"@[0]);
    assert("ffx"@ != "off"@ && "ffx"@ != "netboot"@);
    reveal_strlit("fe80::1");
    assert(forall|k: int| 0 <= k < FFX_HOST_LL@.len() ==> FFX_HOST_LL@[k] != '/');
    if mode_of(netboot_running, inet, inet6, host_ip) == "ffx"@ {
        let j = choose|j: int| 0 <= j < inet6.len() && before_slash((#[trigger] inet6[j])@) == FFX_HOST_LL@;
        lemma_names_address(inet6[j]@, FFX_HOST_LL@);
    }
    if !netboot_running && (exists|j: int| 0 <= j < inet6.len() && #[trigger] inet6[j]@ == FFX_HOST_LL@) {
        let j = choose|j: int| 0 <= j < inet6.len() && #[trigger] inet6[j]@ == FFX_HOST_LL@;
        lemma_names_address(inet6[j]@, FFX_HOST_LL@);
        assert(before_slash(inet6[j]@) == FFX_HOST_LL@);
    }
    if mode_of(netboot_running, inet, inet6, host_ip) == "link"@ {
        assert("link"@.len() == 4 && "netboot"@.len() == 7 && "ffx"@.len() == 3 && "off"@.len() == 3);
        assert("link"@ != "netboot"@ && "link"@ != "ffx"@ && "link"@ != "off"@);
        assert(has_address(inet, host_ip));
        let i = choose|i: int| 0 <= i < inet.len() && before_slash((#[trigger] inet[i])@) == host_ip;
        lemma_names_address(inet[i]@, host_ip);
    }
    if (forall|k: int| 0 <= k < host_ip.len() ==> host_ip[k] != '/') && (exists|i: int|
        0 <= i < inet.len() && #[trigger] inet[i]@ == host_ip) {
        let i = choose|i: int| 0 <= i < inet.len() && #[trigger] inet[i]@ == host_ip;
        lemma_names_address(inet[i]@, host_ip);
        assert(before_slash(inet[i]@) == host_ip);
    }
}

} // verus!
