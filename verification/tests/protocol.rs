//! End-to-end protocol scenarios: bytes in, bytes out.

use nzskkserv::codec::SkkCodec;
use nzskkserv::encoding::{decode_text, Encoding};
use nzskkserv::handler::{remote_candidates, Entry, LookupPlan, ServerHandler};
use nzskkserv::interface::{Candidates, SkkIncomingEvent, SkkOutGoingEvent};
use nzskkserv::session::{render_candidates, Session, SessionCommand, SessionEvent, SessionPhase};
use nzskkserv::store::{DictStore, LoadOutcome};

fn entry(candidate: &str, description: Option<&str>) -> Entry {
    Entry {
        candidate: candidate.to_string(),
        description: description.map(|s| s.to_string()),
    }
}

fn kanji_store() -> DictStore {
    DictStore::build(vec![LoadOutcome::Loaded(vec![(
        "かんじ".to_string(),
        vec![entry("漢字", None), entry("幹事", Some("party"))],
    )])])
}

/// Drive one request through codec, session and resolver, and return the
/// response bytes (or `None` when the session closed or logged an error).
fn serve_one(handler: &ServerHandler, session: &mut Session, input: &[u8]) -> Option<Vec<u8>> {
    let codec = SkkCodec::new(session.encoding);
    let event = match codec.decode(input) {
        Ok(Some(ev)) => ev,
        Ok(None) => return None,
        Err(e) => {
            assert!(e.is_per_frame());
            session.step(SessionEvent::FrameError);
            return None;
        }
    };
    let cmd = session.step(SessionEvent::Frame(event));
    let outgoing = match cmd {
        SessionCommand::Close => return None,
        SessionCommand::Write(out) => out,
        SessionCommand::Lookup(headword) => {
            let entries = match handler.plan_lookup(headword.as_str()) {
                LookupPlan::Local(es) => es,
                LookupPlan::Empty => Vec::new(),
                LookupPlan::Remote { .. } => panic!("no remote in these scenarios"),
            };
            match session.step(SessionEvent::LookupDone(entries)) {
                SessionCommand::Write(out) => out,
                _ => panic!("lookup must lead to a write"),
            }
        }
        SessionCommand::ReadFrame => panic!("a frame event cannot ask for a read"),
    };
    let bytes = codec.encode(&outgoing);
    session.step(SessionEvent::WriteOk);
    Some(bytes)
}

#[test]
fn scenario_convert_hit() {
    let handler = ServerHandler::new(kanji_store(), false);
    let mut session = Session::new(Encoding::Utf8, false);
    let reply = serve_one(&handler, &mut session, "1かんじ \n".as_bytes()).unwrap();
    assert_eq!(reply, "1/漢字/幹事;party/\n".as_bytes());
    assert_eq!(session.phase, SessionPhase::Reading);
}

#[test]
fn scenario_convert_miss() {
    let handler = ServerHandler::new(kanji_store(), false);
    let mut session = Session::new(Encoding::Utf8, false);
    let reply = serve_one(&handler, &mut session, "1みっしゅ \n".as_bytes()).unwrap();
    assert_eq!(reply, "4\n".as_bytes());
}

#[test]
fn scenario_version() {
    let handler = ServerHandler::new(kanji_store(), false);
    let mut session = Session::new(Encoding::Utf8, false);
    let reply = serve_one(&handler, &mut session, b"2").unwrap();
    assert_eq!(reply, b"nzskkserv/0.1.0 ");
}

#[test]
fn scenario_hostname() {
    let handler = ServerHandler::new(kanji_store(), false);
    let mut session = Session::new(Encoding::Utf8, false);
    let reply = serve_one(&handler, &mut session, b"3").unwrap();
    assert_eq!(reply, b" ");
}

#[test]
fn scenario_server_info() {
    let handler = ServerHandler::new(kanji_store(), false);
    let mut session = Session::new(Encoding::Utf8, false);
    let reply = serve_one(&handler, &mut session, b"4").unwrap();
    assert_eq!(reply, b"4\n");
}

#[test]
fn scenario_disconnect() {
    let handler = ServerHandler::new(kanji_store(), false);
    let mut session = Session::new(Encoding::Utf8, false);
    let reply = serve_one(&handler, &mut session, b"0");
    assert!(reply.is_none());
    assert_eq!(session.phase, SessionPhase::Closed);
}

#[test]
fn scenario_invalid_command_then_next_frame() {
    let handler = ServerHandler::new(kanji_store(), false);
    let mut session = Session::new(Encoding::Utf8, false);
    let reply = serve_one(&handler, &mut session, b"X");
    assert!(reply.is_none());
    assert_eq!(session.phase, SessionPhase::Reading);
    let reply = serve_one(&handler, &mut session, b"4").unwrap();
    assert_eq!(reply, b"4\n");
}

#[test]
fn scenario_remote_fallback_with_okurigana() {
    let handler = ServerHandler::new(DictStore::new(), true);
    let mut session = Session::new(Encoding::Utf8, true);
    let codec = SkkCodec::new(Encoding::Utf8);
    let event = codec.decode("1あk \n".as_bytes()).unwrap().unwrap();
    let cmd = session.step(SessionEvent::Frame(event));
    let (url, suffix) = match cmd {
        SessionCommand::Lookup(headword) => {
            assert_eq!(headword, "あk");
            match handler.plan_lookup(headword.as_str()) {
                LookupPlan::Remote { url, suffix } => (url, suffix),
                _ => panic!("the fallback is enabled and the store is empty"),
            }
        }
        _ => panic!("a Convert frame must ask for a lookup"),
    };
    let expected_url = format!(
        "https://www.google.com/transliterate?langpair=ja-Hira|ja&text={},",
        urlencoding::encode("あ")
    );
    assert_eq!(url, expected_url);
    assert_eq!(suffix, Some('k'));
    let response = vec![("あ".to_string(), vec!["亜".to_string(), "阿".to_string()])];
    let entries = remote_candidates(&response, suffix);
    let cmd = session.step(SessionEvent::LookupDone(entries));
    let outgoing = match cmd {
        SessionCommand::Write(out) => out,
        _ => panic!("lookup must lead to a write"),
    };
    assert_eq!(codec.encode(&outgoing), "1/亜k/阿k/\n".as_bytes());
}

#[test]
fn empty_buffer_produces_no_event() {
    let codec = SkkCodec::new(Encoding::Utf8);
    assert!(matches!(codec.decode(b""), Ok(None)));
}

#[test]
fn convert_without_terminator_is_invalid() {
    let codec = SkkCodec::new(Encoding::Utf8);
    match codec.decode("1かんじ".as_bytes()) {
        Err(nzskkserv::error::Error::InvalidIncomingCommand(text)) => {
            assert_eq!(text, "1かんじ");
        }
        other => panic!("expected an invalid command, got {:?}", other),
    }
}

#[test]
fn convert_space_terminator_strips_exactly() {
    let codec = SkkCodec::new(Encoding::Utf8);
    match codec.decode("1かんじ ".as_bytes()) {
        Ok(Some(SkkIncomingEvent::Convert(h))) => assert_eq!(h, "かんじ"),
        other => panic!("expected a Convert event, got {:?}", other),
    }
    match codec.decode("1かんじ \n".as_bytes()) {
        Ok(Some(SkkIncomingEvent::Convert(h))) => assert_eq!(h, "かんじ"),
        other => panic!("expected a Convert event, got {:?}", other),
    }
}

#[test]
fn decode_error_reports_the_bytes() {
    let codec = SkkCodec::new(Encoding::Utf8);
    let bad = vec![0x31u8, 0xC3];
    match codec.decode(&bad) {
        Err(nzskkserv::error::Error::Decoding(bytes)) => assert_eq!(bytes, bad),
        other => panic!("expected a decode error, got {:?}", other),
    }
}

#[test]
fn euc_jp_round_trip_through_the_codec() {
    let codec = SkkCodec::new(Encoding::Eucjp);
    let wire = encoding_rs::EUC_JP.encode("1かんじ \n").0.into_owned();
    match codec.decode(&wire) {
        Ok(Some(SkkIncomingEvent::Convert(h))) => assert_eq!(h, "かんじ"),
        other => panic!("expected a Convert event, got {:?}", other),
    }
    let out = codec.encode(&SkkOutGoingEvent::Convert(Some("/漢字/".to_string())));
    assert_eq!(out, encoding_rs::EUC_JP.encode("1/漢字/\n").0.into_owned());
}

#[test]
fn constant_responses_survive_encode_then_decode() {
    for encoding in [Encoding::Utf8, Encoding::Eucjp] {
        let codec = SkkCodec::new(encoding);
        for (event, text) in [
            (SkkOutGoingEvent::Version, "nzskkserv/0.1.0 "),
            (SkkOutGoingEvent::Hostname, " "),
            (SkkOutGoingEvent::Server, "4\n"),
        ] {
            let bytes = codec.encode(&event);
            let (decoded, had_errors) = decode_text(encoding, &bytes);
            assert!(!had_errors);
            assert_eq!(decoded, text);
        }
    }
}

#[test]
fn slash_only_candidate_is_skipped() {
    let body = render_candidates(&vec![entry("/", None), entry("亜", None)]).unwrap();
    assert_eq!(body, "/亜/");
    let body = render_candidates(&vec![entry("/", None)]).unwrap();
    assert_eq!(body, "/");
}

#[test]
fn pre_slashed_candidates_are_trimmed() {
    let body = render_candidates(&vec![entry("/漢字/", None), entry("幹事", Some("party"))])
        .unwrap();
    assert_eq!(body, "/漢字/幹事;party/");
}

#[test]
fn empty_entry_list_renders_nothing() {
    assert!(render_candidates(&Vec::new()).is_none());
}

#[test]
fn flat_candidates_render_with_shared_annotation() {
    let candidates = Candidates {
        content: vec!["亜".to_string(), "阿".to_string()],
        anotation: Some("x".to_string()),
    };
    assert_eq!(candidates.to_protocol_text(), "1/亜;x/阿;x/\n");
    let plain = Candidates {
        content: vec!["亜".to_string()],
        anotation: None,
    };
    assert_eq!(plain.to_protocol_text(), "1/亜/\n");
}

#[test]
fn convert_with_empty_headword() {
    let codec = SkkCodec::new(Encoding::Utf8);
    match codec.decode(b"1 \n") {
        Ok(Some(SkkIncomingEvent::Convert(h))) => assert_eq!(h, ""),
        other => panic!("expected a Convert event, got {:?}", other),
    }
}

#[test]
fn encoding_names_round_trip() {
    assert_eq!(Encoding::Utf8.to_str(), "UTF-8");
    assert_eq!(Encoding::Eucjp.to_str(), "EUC-JP");
    assert_eq!(Encoding::from_str("UTF-8"), Some(Encoding::Utf8));
    assert_eq!(Encoding::from_str("EUC-JP"), Some(Encoding::Eucjp));
    assert_eq!(Encoding::from_str("SHIFT-JIS"), None);
}
