//! `paniolo setup`: which steps a setup performs on each platform, and what
//! the fast `--rust-only` path tells the user it skipped. Performing the
//! steps (builds, sudo, copies) is the application's part.
use vstd::prelude::*;
use crate::text::{
    cat, cat3, contains, decimal, has_substring, join, join_strings, owned, push_decimal, push_line,
    push_str, views,
};

verus! {

/// The helper crates `setup` builds and installs into libexec, in order.
pub const HELPER_CRATES: [&'static str; 8] = [
    "hdmicap",
    "serialcap",
    "netbootd",
    "cambrionix",
    "hidrig",
    "ch9329",
    "shellyplug",
    "amt",
];

/// One platform-specific step of a packaged (no-checkout) setup.
#[derive(Debug, Clone, Copy, PartialEq, Eq, Structural)]
pub enum PackagedStep {
    /// macOS: make the installed netbootd-bpf-helper setuid-root.
    SetuidBpfHelper,
    /// Windows: check the portable zip layout is intact.
    WindowsLayout,
    /// Linux: add the user to the device-access groups.
    LinuxGroups,
    /// Linux: hint at installing tesseract for OCR.
    TesseractHint,
}

pub open spec fn packaged_steps_spec(os: Seq<char>) -> Seq<PackagedStep> {
    if os == "macos"@ {
        seq![PackagedStep::SetuidBpfHelper]
    } else if os == "windows"@ {
        seq![PackagedStep::WindowsLayout]
    } else {
        seq![PackagedStep::LinuxGroups, PackagedStep::TesseractHint]
    }
}

/// The packaged-setup steps for `os` (a `std::env::consts::OS` value).
pub fn packaged_steps(os: &str) -> (r: Vec<PackagedStep>)
    ensures
        r@ == packaged_steps_spec(os@),
{
    let mut v: Vec<PackagedStep> = Vec::new();
    if crate::text::same(os, "macos") {
        v.push(PackagedStep::SetuidBpfHelper);
    } else if crate::text::same(os, "windows") {
        v.push(PackagedStep::WindowsLayout);
    } else {
        v.push(PackagedStep::LinuxGroups);
        v.push(PackagedStep::TesseractHint);
    }
    assert(v@ =~= packaged_steps_spec(os@));
    v
}

/// A skippable step of the source-checkout setup.
#[derive(Debug, PartialEq, Eq, Clone, Copy, Structural)]
pub enum SourceStep {
    /// Linux: add the user to the device-access groups (needs sudo).
    LinuxGroups,
    /// Copy the bundled `SKILL.md` guides into the per-user data dir.
    InstallSkills,
    /// Drop pre-libexec helper copies from `~/.cargo/bin`.
    DropStaleCopies,
    /// macOS: make the installed netbootd-bpf-helper setuid-root (needs sudo).
    SetuidBpfHelper,
    /// Build or copy the platform's OCR helper.
    OcrHelper,
    /// Install the zigplug power helper (needs uv).
    Zigplug,
}

pub open spec fn step_label(s: SourceStep) -> Seq<char> {
    match s {
        SourceStep::LinuxGroups => "group membership"@,
        SourceStep::InstallSkills => "skills"@,
        SourceStep::DropStaleCopies => "stale-copy cleanup"@,
        SourceStep::SetuidBpfHelper => "setuid"@,
        SourceStep::OcrHelper => "OCR"@,
        SourceStep::Zigplug => "zigplug"@,
    }
}

/// `--rust-only` keeps the steps that need neither sudo nor a second
/// toolchain.
pub open spec fn fast(s: SourceStep) -> bool {
    s == SourceStep::InstallSkills || s == SourceStep::DropStaleCopies
}

impl SourceStep {
    /// How the step is named in the `--rust-only` completion message.
    pub fn label(self) -> (r: &'static str)
        ensures
            r@ == step_label(self),
    {
        match self {
            SourceStep::LinuxGroups => "group membership",
            SourceStep::InstallSkills => "skills",
            SourceStep::DropStaleCopies => "stale-copy cleanup",
            SourceStep::SetuidBpfHelper => "setuid",
            SourceStep::OcrHelper => "OCR",
            SourceStep::Zigplug => "zigplug",
        }
    }

    /// Whether `--rust-only` keeps this step.
    pub fn on_the_fast_path(self) -> (r: bool)
        ensures
            r == fast(self),
    {
        match self {
            SourceStep::InstallSkills | SourceStep::DropStaleCopies => true,
            _ => false,
        }
    }
}

/// Every skippable step on `os`, in order.
pub open spec fn all_source_steps(os: Seq<char>) -> Seq<SourceStep> {
    (if os == "linux"@ {
        seq![SourceStep::LinuxGroups]
    } else {
        Seq::empty()
    }) + seq![SourceStep::InstallSkills, SourceStep::DropStaleCopies] + (if os == "macos"@ {
        seq![SourceStep::SetuidBpfHelper]
    } else {
        Seq::empty()
    }) + seq![SourceStep::OcrHelper, SourceStep::Zigplug]
}

pub open spec fn source_steps_spec(os: Seq<char>, rust_only: bool) -> Seq<SourceStep> {
    if rust_only {
        all_source_steps(os).filter(|s: SourceStep| fast(s))
    } else {
        all_source_steps(os)
    }
}

/// The skippable steps a source setup performs on `os`, in order; with
/// `rust_only`, only those needing nothing beyond cargo.
pub fn source_steps(os: &str, rust_only: bool) -> (r: Vec<SourceStep>)
    ensures
        r@ == source_steps_spec(os@, rust_only),
{
    let linux = crate::text::same(os, "linux");
    let macos = crate::text::same(os, "macos");
    let mut v: Vec<SourceStep> = Vec::new();
    if linux && !rust_only {
        v.push(SourceStep::LinuxGroups);
    }
    v.push(SourceStep::InstallSkills);
    v.push(SourceStep::DropStaleCopies);
    if macos && !rust_only {
        v.push(SourceStep::SetuidBpfHelper);
    }
    if !rust_only {
        v.push(SourceStep::OcrHelper);
        v.push(SourceStep::Zigplug);
    }
    proof {
        reveal_with_fuel(Seq::filter, 7);
        reveal_strlit("linux");
        reveal_strlit("macos");
        let all = all_source_steps(os@);
        if rust_only {
            if linux {
                assert(os@[0] == 'l');
                assert("macos"@[0] == 'm');
                assert(os@ != "macos"@);
                assert(all == seq![SourceStep::LinuxGroups] + seq![SourceStep::InstallSkills, SourceStep::DropStaleCopies] + Seq::<SourceStep>::empty() + seq![SourceStep::OcrHelper, SourceStep::Zigplug]);
                assert(all =~= seq![
                    SourceStep::LinuxGroups,
                    SourceStep::InstallSkills,
                    SourceStep::DropStaleCopies,
                    SourceStep::OcrHelper,
                    SourceStep::Zigplug,
                ]);
            } else if macos {
                assert(all =~= seq![
                    SourceStep::InstallSkills,
                    SourceStep::DropStaleCopies,
                    SourceStep::SetuidBpfHelper,
                    SourceStep::OcrHelper,
                    SourceStep::Zigplug,
                ]);
            } else {
                assert(all =~= seq![
                    SourceStep::InstallSkills,
                    SourceStep::DropStaleCopies,
                    SourceStep::OcrHelper,
                    SourceStep::Zigplug,
                ]);
            }
            assert(all.filter(|s: SourceStep| fast(s)) =~= seq![
                SourceStep::InstallSkills,
                SourceStep::DropStaleCopies,
            ]);
        }
    }
    assert(v@ =~= source_steps_spec(os@, rust_only));
    v
}

/// What `--rust-only` leaves undone on `os`.
pub open spec fn rust_only_skips_spec(os: Seq<char>) -> Seq<SourceStep> {
    all_source_steps(os).filter(|s: SourceStep| !source_steps_spec(os, true).contains(s))
}

/// `--rust-only` splits the platform's steps in two: every step either runs
/// on the fast path or is reported as skipped, never both and never neither;
/// the fast path is exactly the steps that need neither sudo nor a second
/// toolchain.
pub proof fn law_the_fast_path_and_the_skips_split_the_steps(os: Seq<char>, s: SourceStep)
    ensures
        all_source_steps(os).contains(s) ==> (source_steps_spec(os, true).contains(s)
            != rust_only_skips_spec(os).contains(s)),
        source_steps_spec(os, true).contains(s) <==> (all_source_steps(os).contains(s) && fast(s)),
        rust_only_skips_spec(os).contains(s) ==> all_source_steps(os).contains(s) && !fast(s),
{
    broadcast use vstd::seq_lib::group_filter_ensures;

    let all = all_source_steps(os);
    let fastp = |x: SourceStep| fast(x);
    let skip = |x: SourceStep| !source_steps_spec(os, true).contains(x);
    if all.filter(fastp).contains(s) {
        all.lemma_filter_contains_rev(fastp, s);
        let j = choose|j: int| 0 <= j < all.filter(fastp).len() && all.filter(fastp)[j] == s;
        assert(fastp(all.filter(fastp)[j]));
    }
    if all.filter(skip).contains(s) {
        all.lemma_filter_contains_rev(skip, s);
        let j = choose|j: int| 0 <= j < all.filter(skip).len() && all.filter(skip)[j] == s;
        assert(skip(all.filter(skip)[j]));
    }
    if all.contains(s) {
        let i = choose|i: int| 0 <= i < all.len() && all[i] == s;
        assert(all[i] == s);
    }
}

/// What `--rust-only` leaves undone on `os`: the full list less the fast one.
pub fn rust_only_skips(os: &str) -> (r: Vec<SourceStep>)
    ensures
        r@ == rust_only_skips_spec(os@),
{
    let fast_steps = source_steps(os, true);
    let all = source_steps(os, false);
    let mut out: Vec<SourceStep> = Vec::new();
    let mut i: usize = 0;
    proof {
        reveal(Seq::filter);
    }
    while i < all.len()
        invariant
            i <= all.len(),
            all@ == all_source_steps(os@),
            fast_steps@ == source_steps_spec(os@, true),
            out@ == all@.take(i as int).filter(|s: SourceStep| !fast_steps@.contains(s)),
        decreases all.len() - i,
    {
        proof {
            reveal(Seq::filter);
            assert(all@.take(i + 1).drop_last() =~= all@.take(i as int));
        }
        let s = all[i];
        let mut found = false;
        let mut k: usize = 0;
        while k < fast_steps.len()
            invariant
                k <= fast_steps.len(),
                found == exists|j: int| 0 <= j < k && fast_steps@[j] == s,
            decreases fast_steps.len() - k,
        {
            if fast_steps[k] == s {
                found = true;
            }
            k += 1;
        }
        if !found {
            out.push(s);
        }
        i += 1;
    }
    assert(all@.take(all.len() as int) =~= all@);
    out
}

pub open spec fn done_message(os: Seq<char>, skills_ok: bool) -> Seq<char> {
    (if skills_ok {
        "Rust crates and skills installed"@
    } else {
        "Rust crates installed; the skills copy did not succeed (see above)"@
    }) + " (skipped "@ + join(
        rust_only_skips_spec(os).map_values(|s: SourceStep| step_label(s)),
        ", "@,
    ) + " — run `paniolo setup`)."@
}

/// The line `--rust-only` ends on, naming exactly what it skipped and
/// whether the skills copy landed.
pub fn rust_only_done_message(os: &str, skills_ok: bool) -> (r: String)
    ensures
        r@ == done_message(os@, skills_ok),
{
    let skips = rust_only_skips(os);
    let mut labels: Vec<String> = Vec::new();
    let mut i: usize = 0;
    while i < skips.len()
        invariant
            i <= skips.len(),
            views(labels@) == skips@.take(i as int).map_values(|s: SourceStep| step_label(s)),
        decreases skips.len() - i,
    {
        push_line(&mut labels, owned(skips[i].label()));
        assert(skips@.take(i + 1) =~= skips@.take(i as int).push(skips@[i as int]));
        assert(views(labels@) =~= skips@.take(i + 1).map_values(|s: SourceStep| step_label(s)));
        i += 1;
    }
    assert(skips@.take(skips.len() as int) =~= skips@);
    let mut m = if skills_ok {
        owned("Rust crates and skills installed")
    } else {
        owned("Rust crates installed; the skills copy did not succeed (see above)")
    };
    push_str(&mut m, " (skipped ");
    push_str(&mut m, join_strings(&labels, ", ").as_str());
    push_str(&mut m, " — run `paniolo setup`).");
    m
}

/// What the zigplug step did.
#[derive(Debug, PartialEq, Eq, Clone, Copy, Structural)]
pub enum ZigplugOutcome {
    /// Off this run's step list: the checkout and uv were never consulted.
    Skipped,
    /// No `zigplug/pyproject.toml` in the checkout.
    SourceMissing,
    /// uv is not installed.
    UvMissing,
    Installed,
    Failed,
}

/// The next thing the zigplug step does. zigplug is a Python helper
/// installed as a uv tool, a second toolchain; off the step list the step
/// consults nothing at all.
#[derive(Debug, PartialEq, Eq, Clone, Copy, Structural)]
pub enum ZigplugAction {
    /// Look for `zigplug/pyproject.toml` in the checkout.
    CheckSource,
    /// Look for `uv`.
    FindUv,
    /// Reinstall the tool with uv (its shim in libexec), then report
    /// whether that succeeded.
    Install,
    /// The step is over.
    Done(ZigplugOutcome),
}

/// Where the zigplug step stands: what it last asked for.
#[derive(Debug, PartialEq, Eq, Clone, Copy, Structural)]
pub enum ZigplugStage {
    Source,
    Uv,
    Installing,
}

/// Begin the zigplug step; `will` is its membership of the step list.
pub fn zigplug_start(will: bool) -> (r: (ZigplugStage, ZigplugAction))
    ensures
        !will ==> r.1 == ZigplugAction::Done(ZigplugOutcome::Skipped),
        will ==> r == (ZigplugStage::Source, ZigplugAction::CheckSource),
{
    if will {
        (ZigplugStage::Source, ZigplugAction::CheckSource)
    } else {
        (ZigplugStage::Source, ZigplugAction::Done(ZigplugOutcome::Skipped))
    }
}

pub open spec fn zigplug_spec(stage: ZigplugStage, found: bool) -> (ZigplugStage, ZigplugAction, Seq<char>) {
    match stage {
        ZigplugStage::Source => if found {
            (ZigplugStage::Uv, ZigplugAction::FindUv, Seq::empty())
        } else {
            (stage, ZigplugAction::Done(ZigplugOutcome::SourceMissing), "  … zigplug: source not found, skipped"@)
        },
        ZigplugStage::Uv => if found {
            (ZigplugStage::Installing, ZigplugAction::Install, Seq::empty())
        } else {
            (
                stage,
                ZigplugAction::Done(ZigplugOutcome::UvMissing),
                "  … zigplug: uv not found (https://docs.astral.sh/uv), skipped"@,
            )
        },
        ZigplugStage::Installing => if found {
            (stage, ZigplugAction::Done(ZigplugOutcome::Installed), Seq::empty())
        } else {
            (stage, ZigplugAction::Done(ZigplugOutcome::Failed), "  ! zigplug: uv tool install failed, skipped"@)
        },
    }
}

/// Take the answer to the last action (the source is there, uv was found,
/// the install succeeded) and say what comes next, with the line to show
/// (empty for none).
pub fn zigplug_step(stage: ZigplugStage, found: bool) -> (r: (ZigplugStage, ZigplugAction, String))
    ensures
        (r.0, r.1, r.2@) == zigplug_spec(stage, found),
{
    match stage {
        ZigplugStage::Source => {
            if found {
                (ZigplugStage::Uv, ZigplugAction::FindUv, String::new())
            } else {
                (stage, ZigplugAction::Done(ZigplugOutcome::SourceMissing), owned("  … zigplug: source not found, skipped"))
            }
        },
        ZigplugStage::Uv => {
            if found {
                (ZigplugStage::Installing, ZigplugAction::Install, String::new())
            } else {
                (
                    stage,
                    ZigplugAction::Done(ZigplugOutcome::UvMissing),
                    owned("  … zigplug: uv not found (https://docs.astral.sh/uv), skipped"),
                )
            }
        },
        ZigplugStage::Installing => {
            if found {
                (stage, ZigplugAction::Done(ZigplugOutcome::Installed), String::new())
            } else {
                (stage, ZigplugAction::Done(ZigplugOutcome::Failed), owned("  ! zigplug: uv tool install failed, skipped"))
            }
        },
    }
}

/// The zigplug step reaches uv only from the step list: off it, the step is
/// over before it looks at anything; on it, uv is looked for only once the
/// source was found, and installed with only once uv was.
pub proof fn law_zigplug_reaches_uv_only_from_the_step_list(stage: ZigplugStage, found: bool)
    ensures
        zigplug_spec(stage, found).1 == ZigplugAction::FindUv ==> stage == ZigplugStage::Source && found,
        zigplug_spec(stage, found).1 == ZigplugAction::Install ==> stage == ZigplugStage::Uv && found,
        zigplug_spec(stage, found).1 is Done || zigplug_spec(stage, found).1 == ZigplugAction::FindUv
            || zigplug_spec(stage, found).1 == ZigplugAction::Install,
{
}

// ── setuid, and whether the lab wants GUI OCR ───────────────────────────────

/// The POSIX setuid bit.
pub const S_ISUID: u32 = 0o4000;

pub open spec fn setuid_refusal_text(is_file: bool, owner: u32, mode: u32, me: u32) -> Option<Seq<char>> {
    if !is_file {
        Some("not a regular file (a symlink?)"@)
    } else if owner != me && !(owner == 0 && mode & S_ISUID != 0) {
        Some("owned by uid "@ + decimal(owner as nat) + ", not the invoking user (uid "@ + decimal(me as nat) + ")"@)
    } else {
        None
    }
}

/// Why `setup` must not make a helper setuid-root, if it must not: only a
/// regular file (its own metadata, so a symlink is refused, not followed)
/// owned by the invoking user, or already root-owned and setuid from an
/// earlier run, may be promoted; `mode` and `owner` are the file's.
pub fn setuid_refusal(is_file: bool, owner: u32, mode: u32, me: u32) -> (r: Option<String>)
    ensures
        match setuid_refusal_text(is_file, owner, mode, me) {
            Some(m) => r matches Some(x) && x@ == m,
            None => r is None,
        },
{
    if !is_file {
        return Some(owned("not a regular file (a symlink?)"));
    }
    let already_setuid_root = owner == 0 && mode & S_ISUID != 0;
    if owner != me && !already_setuid_root {
        let mut m = owned("owned by uid ");
        push_decimal(&mut m, owner as u64);
        push_str(&mut m, ", not the invoking user (uid ");
        push_decimal(&mut m, me as u64);
        push_str(&mut m, ")");
        return Some(m);
    }
    None
}

/// Whether a lab file's text asks for GUI-mode OCR anywhere: it is read as
/// text, before any lab is loaded, and only mentions count.
pub fn wants_gui_ocr(lab_text: &str) -> (r: bool)
    ensures
        r == (contains(lab_text@, "ocr_mode"@) && contains(lab_text@, "\"gui\""@)),
{
    has_substring(lab_text, "ocr_mode") && has_substring(lab_text, "\"gui\"")
}

pub open spec fn group_user_error(group: Seq<char>, reason: Seq<char>) -> Seq<char> {
    "$USER is not set, so paniolo cannot add this account to the '"@ + group + "' group ("@
        + reason + "); set $USER and re-run `paniolo setup`, or run `sudo usermod -aG "@ + group
        + " <your-username>` yourself"@
}

/// The account name for `sudo usermod -aG <group> <user>`: `$USER` (as
/// found, `None` when unset), required non-empty.
pub fn linux_group_user(user: Option<&str>, group: &str, reason: &str) -> (r: Result<String, String>)
    ensures
        match user {
            Some(u) => if u@.len() > 0 {
                r matches Ok(x) && x@ == u@
            } else {
                r matches Err(e) && e@ == group_user_error(group@, reason@)
            },
            None => r matches Err(e) && e@ == group_user_error(group@, reason@),
        },
{
    match user {
        Some(u) => {
            if u.unicode_len() > 0 {
                return Ok(owned(u));
            }
        },
        None => {},
    }
    let mut m = cat3("$USER is not set, so paniolo cannot add this account to the '", group, "' group (");
    push_str(&mut m, reason);
    push_str(&mut m, "); set $USER and re-run `paniolo setup`, or run `sudo usermod -aG ");
    push_str(&mut m, group);
    push_str(&mut m, " <your-username>` yourself");
    Err(m)
}

} // verus!
