use paniolo::setup::{
    linux_group_user, packaged_steps, rust_only_done_message, rust_only_skips, source_steps,
    PackagedStep, SourceStep,
};

#[test]
fn packaged_steps_grant_groups_on_linux_not_windows() {
    let linux = packaged_steps("linux");
    assert!(linux.contains(&PackagedStep::LinuxGroups));
    assert!(linux.contains(&PackagedStep::TesseractHint));
    assert!(!linux.contains(&PackagedStep::WindowsLayout));
    assert!(!linux.contains(&PackagedStep::SetuidBpfHelper));
    assert_eq!(packaged_steps("windows"), vec![PackagedStep::WindowsLayout]);
    assert_eq!(packaged_steps("macos"), vec![PackagedStep::SetuidBpfHelper]);
}

#[test]
fn rust_only_installs_the_bundled_skills() {
    for os in ["linux", "macos", "windows"] {
        assert!(
            source_steps(os, true).contains(&SourceStep::InstallSkills),
            "{os}: --rust-only must still install the skills"
        );
        assert!(
            !rust_only_skips(os).contains(&SourceStep::InstallSkills),
            "{os}: skills must not be reported as skipped"
        );
    }
}

#[test]
fn the_fast_path_skips_only_sudo_and_second_toolchain_steps() {
    assert_eq!(source_steps("linux", true), vec![SourceStep::InstallSkills, SourceStep::DropStaleCopies]);
    assert_eq!(
        rust_only_skips("linux"),
        vec![SourceStep::LinuxGroups, SourceStep::OcrHelper, SourceStep::Zigplug],
        "Linux skips the group step (sudo), not the setuid one (macOS only)"
    );
    assert_eq!(
        rust_only_skips("macos"),
        vec![SourceStep::SetuidBpfHelper, SourceStep::OcrHelper, SourceStep::Zigplug],
    );
    assert_eq!(
        rust_only_skips("windows"),
        vec![SourceStep::OcrHelper, SourceStep::Zigplug],
        "there is no setuid bit and no dialout group on Windows"
    );
    for os in ["linux", "macos", "windows"] {
        assert!(!source_steps(os, true).contains(&SourceStep::Zigplug), "{os}");
    }
}

#[test]
fn the_message_names_exactly_what_was_skipped() {
    for os in ["linux", "macos", "windows"] {
        let msg = rust_only_done_message(os, true);
        assert!(msg.contains("skills installed"), "{os}: {msg}");
        for step in rust_only_skips(os) {
            assert!(msg.contains(step.label()), "{os}: {:?} was skipped but is unnamed in: {msg}", step);
        }
        for step in source_steps(os, true) {
            assert!(
                !msg.contains(&format!("skipped {}", step.label())),
                "{os}: {:?} runs on the fast path but reads as skipped: {msg}",
                step
            );
        }
    }
    assert!(rust_only_done_message("macos", true).contains("setuid"));
    assert!(!rust_only_done_message("linux", true).contains("setuid"));
    assert!(rust_only_done_message("linux", true).contains("group membership"));
}

#[test]
fn the_message_does_not_claim_skills_it_failed_to_install() {
    let ok = rust_only_done_message("linux", true);
    let failed = rust_only_done_message("linux", false);
    assert!(ok.contains("skills installed"), "{ok}");
    assert!(!failed.contains("and skills installed"), "{failed}");
    assert!(failed.contains("did not succeed"), "{failed}");
}

#[test]
fn linux_group_user_errors_on_unset_or_empty_user() {
    let e = linux_group_user(None, "dialout", "serial port access").unwrap_err();
    assert!(e.contains("$USER is not set"), "{e}");
    let e = linux_group_user(Some(""), "dialout", "serial port access").unwrap_err();
    assert!(e.contains("$USER is not set"), "{e}");
    assert_eq!(linux_group_user(Some("alice"), "dialout", "serial port access").unwrap(), "alice");
}

#[test]
fn the_full_list_keeps_the_platform_order() {
    assert_eq!(
        source_steps("macos", false),
        vec![
            SourceStep::InstallSkills,
            SourceStep::DropStaleCopies,
            SourceStep::SetuidBpfHelper,
            SourceStep::OcrHelper,
            SourceStep::Zigplug
        ]
    );
    assert!(SourceStep::InstallSkills.on_the_fast_path());
    assert!(!SourceStep::Zigplug.on_the_fast_path());
}

use paniolo::setup::{setuid_refusal, wants_gui_ocr, zigplug_start, zigplug_step, ZigplugAction, ZigplugOutcome, ZigplugStage};

#[test]
fn rust_only_never_reaches_uv_for_zigplug() {
    let (_, a) = zigplug_start(false);
    assert_eq!(
        a,
        ZigplugAction::Done(ZigplugOutcome::Skipped),
        "off the step list, zigplug must return before the checkout or uv"
    );
    // On the list it looks, and says so when the checkout has no zigplug/.
    let (stage, a) = zigplug_start(true);
    assert_eq!(a, ZigplugAction::CheckSource);
    let (_, a, note) = zigplug_step(stage, false);
    assert_eq!(a, ZigplugAction::Done(ZigplugOutcome::SourceMissing));
    assert_eq!(note, "  … zigplug: source not found, skipped");

    for os in ["linux", "macos", "windows"] {
        assert!(
            !source_steps(os, true).contains(&SourceStep::Zigplug),
            "{os}: zigplug needs uv, so it is off the fast path"
        );
    }
}

#[test]
fn zigplug_installs_only_with_its_source_and_uv() {
    let (stage, _) = zigplug_start(true);
    let (stage, a, _) = zigplug_step(stage, true);
    assert_eq!(a, ZigplugAction::FindUv);
    let (missing, a, note) = zigplug_step(stage, false);
    assert_eq!(missing, ZigplugStage::Uv);
    assert_eq!(a, ZigplugAction::Done(ZigplugOutcome::UvMissing));
    assert_eq!(note, "  … zigplug: uv not found (https://docs.astral.sh/uv), skipped");
    let (stage, a, _) = zigplug_step(stage, true);
    assert_eq!(a, ZigplugAction::Install);
    assert_eq!(zigplug_step(stage, true).1, ZigplugAction::Done(ZigplugOutcome::Installed));
    let (_, a, note) = zigplug_step(stage, false);
    assert_eq!(a, ZigplugAction::Done(ZigplugOutcome::Failed));
    assert_eq!(note, "  ! zigplug: uv tool install failed, skipped");
}

#[test]
fn only_an_own_or_already_setuid_root_regular_file_may_be_promoted() {
    assert_eq!(setuid_refusal(true, 501, 0o755, 501), None);
    assert_eq!(setuid_refusal(true, 0, 0o4755, 501), None);
    assert_eq!(setuid_refusal(false, 501, 0o755, 501).as_deref(), Some("not a regular file (a symlink?)"));
    assert_eq!(
        setuid_refusal(true, 0, 0o755, 501).as_deref(),
        Some("owned by uid 0, not the invoking user (uid 501)")
    );
    assert_eq!(
        setuid_refusal(true, 1002, 0o4755, 501).as_deref(),
        Some("owned by uid 1002, not the invoking user (uid 501)")
    );
}

#[test]
fn gui_ocr_is_wanted_only_when_the_lab_asks() {
    assert!(wants_gui_ocr("[targets.t]\n[targets.t.video]\nocr_mode = \"gui\"\n"));
    assert!(!wants_gui_ocr("[targets.t]\n"));
    assert!(!wants_gui_ocr("[targets.t.video]\nocr_mode = \"text\"\n"));
}
