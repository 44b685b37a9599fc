use paniolo::video::{
    ocr_helper_with, stable_snapshot_path, stable_wait_timeout_ms, text_from, text_of, OcrHelpers,
};

fn with(names: &[&str]) -> OcrHelpers {
    OcrHelpers {
        rapidocr: names.contains(&"rapidocr"),
        visionocr: names.contains(&"visionocr"),
        winocr: names.contains(&"winocr"),
        linuxocr: names.contains(&"linuxocr"),
    }
}

#[test]
fn stable_wait_timeout_saturates_instead_of_overflowing() {
    assert_eq!(stable_wait_timeout_ms(2_000), 7_000);
    assert_eq!(stable_wait_timeout_ms(u64::MAX), u64::MAX);
    assert_eq!(stable_snapshot_path(2_000), "/snapshot?wait=stable&timeout=2000");
}

#[test]
fn gui_mode_selects_rapidocr_only_on_linux() {
    let h = with(&["rapidocr", "visionocr", "linuxocr"]);
    assert_eq!(ocr_helper_with(Some("gui"), true, &h).0, Some("rapidocr"), "gui mode must select rapidocr on Linux");
    assert_eq!(ocr_helper_with(Some("gui"), false, &h).0, Some("visionocr"), "gui mode must not select rapidocr off Linux");
    for is_linux in [true, false] {
        assert_eq!(ocr_helper_with(None, is_linux, &h).0, Some("visionocr"), "is_linux={is_linux}");
        assert_eq!(ocr_helper_with(Some("text"), is_linux, &h).0, Some("visionocr"), "is_linux={is_linux}");
    }
}

#[test]
fn the_default_engine_falls_back_through_every_helper() {
    for name in ["visionocr", "winocr", "linuxocr"] {
        assert_eq!(ocr_helper_with(None, false, &with(&[name])).0, Some(name), "{name} alone must be found");
    }
    assert_eq!(ocr_helper_with(None, true, &with(&[])).0, None);
    let (engine, warn) = ocr_helper_with(Some("gui"), true, &with(&["linuxocr"]));
    assert_eq!(engine, Some("linuxocr"));
    assert!(warn, "a gui target without rapidocr is warned about");
    assert!(!ocr_helper_with(Some("gui"), true, &with(&["rapidocr"])).1);
}

#[test]
fn text_of_extracts_the_envelope_text() {
    let body = r#"{"version":1,"engine":"visionocr","width":1280,"height":720,
                   "text":"login:\nPassword:","lines":[]}"#;
    assert_eq!(text_of(body), "login:\nPassword:");
}

#[test]
fn text_of_passes_through_pre_envelope_output() {
    assert_eq!(text_of("login:\nPassword:"), "login:\nPassword:");
}

#[test]
fn text_of_ignores_json_that_is_not_an_envelope() {
    let body = r#"{"text":"not from us"}"#;
    assert_eq!(text_of(body), body);
}

#[test]
fn text_from_reads_only_an_envelope() {
    assert_eq!(text_from("b", Some((true, Some("t".into())))), "t");
    assert_eq!(text_from("b", Some((true, None))), "");
    assert_eq!(text_from("b", Some((false, Some("t".into())))), "b");
    assert_eq!(text_from("b", None), "b");
}
