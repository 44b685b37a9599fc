use paniolo::flash::{
    ack_matches, base64_encode, parse_uf2, Uf2Block, UF2_MAGIC_END, UF2_MAGIC_START0,
    UF2_MAGIC_START1,
};
use paniolo::serial::ExpectResponse;

#[test]
fn base64_rfc4648_vectors() {
    assert_eq!(base64_encode(b""), "");
    assert_eq!(base64_encode(b"f"), "Zg==");
    assert_eq!(base64_encode(b"fo"), "Zm8=");
    assert_eq!(base64_encode(b"foo"), "Zm9v");
    assert_eq!(base64_encode(b"foob"), "Zm9vYg==");
    assert_eq!(base64_encode(b"fooba"), "Zm9vYmE=");
    assert_eq!(base64_encode(b"foobar"), "Zm9vYmFy");
}

#[test]
fn base64_full_block_length() {
    let block = vec![0xA5u8; 512];
    let e = base64_encode(&block);
    assert_eq!(e.len(), 684);
    assert!(e.ends_with('=') && !e.ends_with("=="), "{}", &e[680..]);
}

#[test]
fn base64_uses_the_url_unsafe_alphabet_tail() {
    assert_eq!(base64_encode(&[0xfb, 0xff]), "+/8=");
}

fn uf2_block(addr: u32, payload: u32) -> Vec<u8> {
    let mut b = vec![0u8; 512];
    b[0..4].copy_from_slice(&UF2_MAGIC_START0.to_le_bytes());
    b[4..8].copy_from_slice(&UF2_MAGIC_START1.to_le_bytes());
    b[12..16].copy_from_slice(&addr.to_le_bytes());
    b[16..20].copy_from_slice(&payload.to_le_bytes());
    b[508..512].copy_from_slice(&UF2_MAGIC_END.to_le_bytes());
    b
}

#[test]
fn parse_uf2_extracts_addr_and_size() {
    let mut img = uf2_block(0x6010_0000, 256);
    img.extend(uf2_block(0x6010_0100, 476));
    let blocks = parse_uf2("t.uf2", &img).unwrap();
    assert_eq!(blocks.len(), 2);
    assert_eq!(blocks[0].target_addr, 0x6010_0000);
    assert_eq!(blocks[0].payload_size, 256);
    assert_eq!(blocks[1].target_addr, 0x6010_0100);
    assert_eq!(blocks[1].raw.len(), 512);
    assert_eq!(blocks[1].raw, img[512..].to_vec());
}

#[test]
fn parse_uf2_rejects_bad_size_and_magic() {
    let e = parse_uf2("t.uf2", &[0u8; 100]).unwrap_err();
    assert!(e.contains("not a multiple"), "{e}");
    let e = parse_uf2("t.uf2", &[0u8; 512]).unwrap_err();
    assert!(e.contains("bad UF2 magics"), "{e}");
    let e = parse_uf2("t.uf2", &[]).unwrap_err();
    assert!(e.contains("empty"), "{e}");
}

#[test]
fn parse_uf2_rejects_implausible_payload() {
    let img = uf2_block(0x6000_0000, 500);
    let e = parse_uf2("t.uf2", &img).unwrap_err();
    assert!(e.contains("implausible payload"), "{e}");
}

fn resp(captures: Vec<Option<String>>) -> ExpectResponse {
    ExpectResponse {
        matched: true,
        match_text: Some("Wrote…".into()),
        captures,
        elapsed_ms: Some(1),
        lagged: false,
        tail: None,
    }
}

fn block(addr: u32, size: u32) -> Uf2Block {
    Uf2Block { raw: vec![], target_addr: addr, payload_size: size }
}

#[test]
fn ack_matches_validates_both_fields() {
    let b = block(0x6010_0000, 476);
    assert!(ack_matches(&resp(vec![Some("476".into()), Some("0x60100000".into())]), &b));
    assert!(!ack_matches(&resp(vec![Some("476".into()), Some("0x600FFE24".into())]), &b));
    assert!(!ack_matches(&resp(vec![Some("256".into()), Some("0x60100000".into())]), &b));
    assert!(!ack_matches(&resp(vec![None, None]), &b));
}

use paniolo::flash::{block_command, block_outcome, stream_start, stream_step, StreamAction};

fn run(total: usize, answers: &[bool]) -> (Vec<StreamAction>, Vec<String>) {
    let (mut st, first) = stream_start(total);
    let mut actions = vec![first];
    let mut notes = vec![];
    for &acked in answers {
        let (a, n) = stream_step(&mut st, "img.uf2", total, acked, "Corrupt base64");
        notes.extend(n);
        let stop = !matches!(a, StreamAction::Send(_));
        actions.push(a);
        if stop {
            break;
        }
    }
    (actions, notes)
}

#[test]
fn streaming_retries_a_block_then_moves_on() {
    let (actions, notes) = run(2, &[false, true, true]);
    assert!(matches!(actions[0], StreamAction::Send(0)));
    assert!(matches!(actions[1], StreamAction::Send(0)), "a missed ack resends the same block");
    assert!(matches!(actions[2], StreamAction::Send(1)));
    assert!(matches!(actions[3], StreamAction::Finished { blocks: 2, retries: 1 }));
    assert_eq!(notes, vec!["  img.uf2: 1/2 blocks (50%)", "  img.uf2: 2/2 blocks (100%)"]);
}

#[test]
fn a_block_failing_every_attempt_fails_the_image() {
    let (actions, notes) = run(1, &[false, false, false]);
    match actions.last().unwrap() {
        StreamAction::Abort(m) => assert_eq!(m, "img.uf2: 1 block(s) failed all 3 attempts: [0]"),
        _ => panic!("expected an abort"),
    }
    assert_eq!(notes[0], "  block 0/1 failed 3 attempts (last: Corrupt base64)");
}

#[test]
fn five_failed_blocks_abort_early() {
    let answers = vec![false; 15];
    let (actions, _) = run(100, &answers);
    match actions.last().unwrap() {
        StreamAction::Abort(m) => {
            assert_eq!(m, "img.uf2: aborting after 5 failed blocks (first failures: [0, 1, 2, 3, 4])")
        }
        _ => panic!("expected an abort"),
    }
}

#[test]
fn block_commands_and_outcomes() {
    let b = Uf2Block { raw: b"foo".to_vec(), target_addr: 0x6010_0000, payload_size: 476 };
    assert_eq!(block_command(&b), "uf2 Zm9v\r");
    let ok = resp(vec![Some("476".into()), Some("0x60100000".into())]);
    assert_eq!(block_outcome(&ok, &b), (true, "Wrote…".to_string()));
    let mut none = resp(vec![]);
    none.matched = false;
    assert_eq!(block_outcome(&none, &b), (false, "no ack within 500 ms".to_string()));
}

use paniolo::flash::{flash_start, flash_step, FlashAction, FlashEvent, FlashPhase};

fn answer(matched: bool, m: Option<&str>, tail: Option<&str>) -> FlashEvent {
    FlashEvent::Answer { matched, match_text: m.map(String::from), tail: tail.map(String::from) }
}

fn sends(a: &FlashAction) -> Option<&'static str> {
    match a {
        FlashAction::SendInput { text, .. } => Some(text),
        _ => None,
    }
}

#[test]
fn a_session_switches_echo_off_probes_streams_and_restores() {
    let images = vec![("loader.uf2".to_string(), 100usize), ("xous.uf2".to_string(), 3usize)];
    let (mut s, a) = flash_start();
    assert_eq!(sends(&a), Some("localecho off\r"));
    let (a, _, _) = flash_step(&mut s, &images, FlashEvent::Sent, "t1");
    assert_eq!(sends(&a), Some("localecho off\r"));
    let (a, _, _) = flash_step(&mut s, &images, FlashEvent::Sent, "tok9");
    match &a {
        FlashAction::Expect { send, pattern, timeout_ms } => {
            assert_eq!(send, "echo tok9\r");
            assert_eq!(pattern, "tok9 ");
            assert_eq!(*timeout_ms, 2000);
        }
        _ => panic!("expected the echo probe"),
    }
    let (a, _, _) = flash_step(&mut s, &images, answer(true, Some("tok9 "), None), "x");
    match &a {
        FlashAction::Expect { send, timeout_ms, .. } => {
            assert_eq!(send, "has-crc\r");
            assert_eq!(*timeout_ms, 1500);
        }
        _ => panic!("expected the variant check"),
    }
    let (a, marks, notes) = flash_step(&mut s, &images, answer(true, Some("false"), None), "x");
    assert!(matches!(a, FlashAction::Stream(0)));
    assert_eq!(marks, vec!["flash loader.uf2 start (50 KiB)".to_string()]);
    assert_eq!(notes, vec!["Flashing loader.uf2: 100 blocks (50 KiB)…".to_string()]);
    let (a, marks, _) =
        flash_step(&mut s, &images, FlashEvent::Streamed { blocks: 100, retries: 2, tenths: 43 }, "x");
    assert!(matches!(a, FlashAction::Stream(1)));
    assert_eq!(
        marks,
        vec![
            "flash loader.uf2 done (100 blocks, 2 retries, 4.3s)".to_string(),
            "flash xous.uf2 start (1 KiB)".to_string()
        ]
    );
    let (a, _, _) = flash_step(&mut s, &images, FlashEvent::Streamed { blocks: 3, retries: 0, tenths: 5 }, "x");
    assert_eq!(sends(&a), Some("localecho on\r"));
    let (a, _, _) = flash_step(&mut s, &images, FlashEvent::Sent, "x");
    assert_eq!(sends(&a), Some("localecho on\r"));
    let (a, _, _) = flash_step(&mut s, &images, FlashEvent::Sent, "x");
    assert!(matches!(a, FlashAction::Finish(None)));
    assert_eq!(s.phase, FlashPhase::Done);
}

fn to_probe(images: &Vec<(String, usize)>) -> paniolo::flash::FlashSession {
    let (mut s, _) = flash_start();
    flash_step(&mut s, images, FlashEvent::Sent, "a");
    flash_step(&mut s, images, FlashEvent::Sent, "b");
    s
}

#[test]
fn an_unanswered_probe_quotes_the_tail_and_still_restores_echo() {
    let images = vec![("a.uf2".to_string(), 2usize)];
    let mut s = to_probe(&images);
    let (a, _, _) = flash_step(&mut s, &images, answer(false, None, Some("boot\r\n\"x\"")), "x");
    assert_eq!(sends(&a), Some("localecho on\r"));
    assert_eq!(
        s.error.as_deref(),
        Some("boot1 REPL stopped answering after localecho off (echo probe timed out); tail: \"boot\\r\\n\\\"x\\\"\"")
    );
    flash_step(&mut s, &images, FlashEvent::Sent, "x");
    let (a, _, _) = flash_step(&mut s, &images, FlashEvent::Sent, "x");
    match a {
        FlashAction::Finish(Some(e)) => assert!(e.contains("echo probe timed out")),
        _ => panic!("the session must end with the probe's error"),
    }
}

#[test]
fn the_spim_variant_and_a_silent_variant_check_are_refused() {
    let images = vec![("a.uf2".to_string(), 2usize)];
    let mut s = to_probe(&images);
    flash_step(&mut s, &images, answer(true, None, None), "x");
    let (a, _, _) = flash_step(&mut s, &images, answer(true, Some("true"), None), "x");
    assert_eq!(sends(&a), Some("localecho on\r"));
    assert!(s.error.as_deref().unwrap().starts_with("this boot1 runs the uf2-spim CRC variant"));

    let mut s = to_probe(&images);
    flash_step(&mut s, &images, answer(true, None, None), "x");
    flash_step(&mut s, &images, answer(false, None, None), "x");
    assert_eq!(
        s.error.as_deref(),
        Some("couldn't determine which uf2 protocol variant boot1 runs (`has-crc` gave no answer); refusing to stream blocks blind")
    );
}

#[test]
fn a_failed_image_is_marked_and_a_failed_restore_is_noted() {
    let images = vec![("a.uf2".to_string(), 2usize)];
    let mut s = to_probe(&images);
    flash_step(&mut s, &images, answer(true, None, None), "x");
    flash_step(&mut s, &images, answer(true, Some("false"), None), "x");
    let (a, marks, _) = flash_step(&mut s, &images, FlashEvent::Failed("a.uf2: 1 block(s) failed".into()), "x");
    assert_eq!(marks, vec!["flash a.uf2 FAILED".to_string()]);
    assert_eq!(sends(&a), Some("localecho on\r"));
    let (a, _, notes) = flash_step(&mut s, &images, FlashEvent::Failed("daemon gone".into()), "x");
    assert_eq!(notes, vec!["note: failed to restore localecho on: daemon gone".to_string()]);
    match a {
        FlashAction::Finish(Some(e)) => assert_eq!(e, "a.uf2: 1 block(s) failed"),
        _ => panic!("the transfer's own error is what the session ends with"),
    }
}

#[test]
fn a_failure_while_switching_echo_off_ends_at_once() {
    let images: Vec<(String, usize)> = Vec::new();
    let (mut s, _) = flash_start();
    let (a, _, _) = flash_step(&mut s, &images, FlashEvent::Failed("no daemon".into()), "x");
    assert!(matches!(a, FlashAction::Finish(Some(ref e)) if e == "no daemon"));
}

#[test]
fn base64_of_a_full_block_pads_once() {
    let t = paniolo::flash::base64_encode(&vec![0xA5u8; 512]);
    assert_eq!(t.len(), 684);
    assert!(t.ends_with('=') && !t.ends_with("=="));
    assert_eq!(paniolo::flash::base64_encode(&vec![b'M', b'a']), "TWE=");
    assert_eq!(paniolo::flash::base64_encode(&vec![b'M']), "TQ==");
}
