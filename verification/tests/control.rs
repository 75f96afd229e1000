//! The controller's decisions, the configuration model, logging, and the
//! small shell types.

use nzskkserv::config::{server_config_of, Config, DesiredState};
use nzskkserv::controller::{ControlAction, Controller};
use nzskkserv::dict::{DictDef, DictFormat, DictPath};
use nzskkserv::encoding::Encoding;
use nzskkserv::error::Error;
use nzskkserv::interface::SkkIncomingEvent;
use nzskkserv::log::{log, LogData, LogEntry, LogEvent, LogSink, LogVisitor};
use nzskkserv::shell::{greet, MenuId, StartOptions, TopTabBar};

fn sample_dict() -> DictDef {
    DictDef {
        path_or_url: DictPath::File {
            path: "/usr/share/skk/SKK-JISYO.L".to_string(),
        },
        encoding: Encoding::Eucjp,
        format: DictFormat::Skk,
    }
}

#[test]
fn default_config_matches_the_documented_defaults() {
    let config = Config::default();
    assert!(!config.enable_google_cgi);
    assert_eq!(config.server_encoding, Encoding::Utf8);
    assert_eq!(config.port, 1178);
    assert!(config.dicts.is_empty());
}

#[test]
fn server_config_is_loopback_with_the_configured_port() {
    let mut config = Config::default();
    config.port = 2000;
    let sc = server_config_of(&config);
    assert_eq!(sc.address, [127, 0, 0, 1]);
    assert_eq!(sc.port, 2000);
    assert_eq!(sc.encoding, Encoding::Utf8);
}

#[test]
fn stopped_desired_state_plans_a_stop() {
    let ctrl = Controller::new(DesiredState {
        running: false,
        config: Config::default(),
    });
    assert_eq!(ctrl.plan(), ControlAction::Stop);
}

#[test]
fn fresh_running_state_plans_a_restart() {
    let ctrl = Controller::new(DesiredState {
        running: true,
        config: Config::default(),
    });
    assert_eq!(ctrl.plan(), ControlAction::Restart);
}

#[test]
fn reapplying_the_current_state_is_a_no_op() {
    let mut ctrl = Controller::new(DesiredState {
        running: true,
        config: Config::default(),
    });
    assert_eq!(ctrl.plan(), ControlAction::Restart);
    ctrl.note_started();
    assert_eq!(ctrl.plan(), ControlAction::Keep);
    ctrl.set_running(true);
    assert_eq!(ctrl.plan(), ControlAction::Keep);
}

#[test]
fn configuration_changes_plan_a_restart() {
    let mut ctrl = Controller::new(DesiredState {
        running: true,
        config: Config::default(),
    });
    ctrl.note_started();
    ctrl.set_port(2000);
    assert_eq!(ctrl.plan(), ControlAction::Restart);
    ctrl.note_started();
    assert_eq!(ctrl.plan(), ControlAction::Keep);
    ctrl.set_google_cgi(true);
    assert_eq!(ctrl.plan(), ControlAction::Restart);
    ctrl.note_started();
    ctrl.set_dicts(vec![sample_dict()]);
    assert_eq!(ctrl.plan(), ControlAction::Restart);
    ctrl.note_started();
    ctrl.set_encoding(Encoding::Eucjp);
    assert_eq!(ctrl.plan(), ControlAction::Restart);
    ctrl.note_stopped();
    ctrl.set_running(false);
    assert_eq!(ctrl.plan(), ControlAction::Stop);
}

#[test]
fn sink_keeps_entries_in_order() {
    let mut sink = LogSink::new();
    log(
        &mut sink,
        LogEntry {
            event: LogEvent::Incoming(SkkIncomingEvent::Version),
            level: 0,
        },
    );
    log(
        &mut sink,
        LogEntry {
            event: LogEvent::Message("started".to_string()),
            level: 1,
        },
    );
    let logs = sink.get_logs();
    assert_eq!(logs.len(), 2);
    assert!(matches!(
        logs[0].event,
        LogEvent::Incoming(SkkIncomingEvent::Version)
    ));
    match &logs[1].event {
        LogEvent::Message(m) => assert_eq!(m, "started"),
        other => panic!("expected a message, got {:?}", other),
    }
    assert_eq!(logs[1].level, 1);
}

#[test]
fn visitor_keeps_only_recognized_fields() {
    let mut visitor = LogVisitor::new();
    visitor.record_field("elapsed", "12ms".to_string());
    assert!(visitor.data.is_none());
    visitor.record_field("nzskkserv_input", "かんじ".to_string());
    match &visitor.data {
        Some(LogData::ConvertInput(s)) => assert_eq!(s, "かんじ"),
        other => panic!("expected a conversion input, got {:?}", other),
    }
    visitor.record_field("nzskkserv_output", "漢字".to_string());
    assert!(matches!(&visitor.data, Some(LogData::ConvertOutput(_))));
    visitor.record_field("message", "done".to_string());
    match &visitor.data {
        Some(LogData::Message(s)) => assert_eq!(s, "done"),
        other => panic!("expected a message, got {:?}", other),
    }
}

#[test]
fn per_frame_errors_are_the_recoverable_ones() {
    assert!(Error::InvalidIncomingCommand("X".to_string()).is_per_frame());
    assert!(Error::Decoding(vec![0xFF]).is_per_frame());
    assert!(!Error::Encoding(vec![0x31]).is_per_frame());
    assert!(!Error::Io("reset".to_string()).is_per_frame());
    assert!(!Error::Fetch("timed out".to_string()).is_per_frame());
    assert!(!Error::Parse.is_per_frame());
    assert!(!Error::ConfigPersist("read-only".to_string()).is_per_frame());
    assert!(!Error::BindFailed("in use".to_string()).is_per_frame());
}

#[test]
fn shell_labels() {
    assert_eq!(MenuId::ShowHide.as_str(), "Show/Hide");
    assert_eq!(MenuId::Quit.as_str(), "Quit");
    assert_ne!(TopTabBar::DashBoard, TopTabBar::Log);
    let options = StartOptions {
        addr: "127.0.0.1:1178".to_string(),
    };
    assert_eq!(options.addr, "127.0.0.1:1178");
    assert_eq!(greet(), "Hello from Rust! 🦀");
}
