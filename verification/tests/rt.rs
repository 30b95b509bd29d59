//! The runtime of an application: identity, ticks, control messages.
use arca::exec_abi::shutdown::ShutdownReason;
use arca::exec_native::plan::{default_window, ShmLayout};
use arca::rt::context::{
    contains_text, input_region, panic_hash, AppCtx, CallOutcome, ControlMsg, CtlLink, CtlResult,
    Reply, RtAction, EXIT_CLEAN, EXIT_CRASH, EXIT_NO_HOST,
};
use arca::rt::identity::{hello_from_env, log_instance, nonce, parse_u64};
use arca::rt::ping::{ping_loop, PingAction};
use arca::types::{proto_version, AppId, ArcaError, Capability, Digest, InstanceId, WinId};

fn ctx() -> AppCtx {
    AppCtx::attach(
        AppId::new("dev.arca.ping").expect("id"),
        InstanceId::new(1),
        &vec![default_window()],
        vec![Capability::Notify],
    )
}

#[test]
fn numbers_of_the_environment() {
    assert_eq!(parse_u64("18446744073709551615"), Some(u64::MAX));
    assert_eq!(parse_u64("18446744073709551616"), None);
    assert_eq!(parse_u64("+7"), Some(7));
    assert_eq!(parse_u64(""), None);
    assert_eq!(parse_u64("-1"), None);
    assert_eq!(log_instance(&None), log_instance(&Some("x".to_string())));
    assert_eq!(log_instance(&Some("9".to_string())), InstanceId::new(9));
}

#[test]
fn hello_speaks_for_the_application() {
    let id = Some("dev.arca.ping".to_string());
    let inst = Some("4".to_string());
    let art = Some("ab".repeat(32));
    let h = hello_from_env(&id, &inst, &art, 77, 5).expect("hello");
    assert_eq!(h.proto, proto_version());
    assert_eq!(h.app_id.as_str(), "dev.arca.ping");
    assert_eq!(h.instance, InstanceId::new(4));
    assert_eq!(h.artifact_hash, Digest([0xab; 32]));
    assert_eq!(h.nonce, nonce(77, 5));
    assert_ne!(nonce(77, 5), nonce(78, 5));
    assert_ne!(nonce(77, 5), nonce(77, 6));
    assert!(hello_from_env(&None, &inst, &art, 0, 0).is_err());
    assert!(hello_from_env(&id, &Some("x".to_string()), &art, 0, 0).is_err());
    assert!(hello_from_env(&id, &inst, &Some("zz".to_string()), 0, 0).is_err());
    assert!(hello_from_env(&Some("NO".to_string()), &inst, &art, 0, 0).is_err());
}

#[test]
fn a_tick_is_counted_and_published() {
    let mut c = ctx();
    c.begin_tick(Some(3));
    assert_eq!(c.ticks, 1);
    assert_eq!(c.input_total, 3);
    c.dirty = true;
    assert!(c.end_tick(CallOutcome::Done).contains(&RtAction::Publish));
    let slot = c.next_frame();
    assert_eq!(c.frame_seq, 1);
    assert_eq!(slot, 1);
    let mut payload = vec![9u8; 32];
    c.fill_frame(&mut payload);
    assert_eq!(&payload[..8], &1u64.to_le_bytes());
    assert_eq!(&payload[8..16], &1u64.to_le_bytes());
    assert_eq!(&payload[16..24], &3u64.to_le_bytes());
    assert_eq!(&payload[24..], &[0u8; 8]);
}

#[test]
fn a_panic_is_reported_before_the_exit() {
    let c = ctx();
    let acts = c.end_tick(CallOutcome::Panicked("boom".to_string()));
    let report = acts
        .iter()
        .position(|a| {
            *a == RtAction::Send(Reply::CrashReport {
                signal: 0,
                backtrace_hash: panic_hash("boom"),
                minidump_len: 0,
            })
        })
        .expect("report");
    let exit = acts
        .iter()
        .position(|a| *a == RtAction::Exit(EXIT_CRASH))
        .expect("exit");
    assert!(report < exit);
    assert_eq!(EXIT_CRASH, 101);
    assert_ne!(panic_hash("boom"), panic_hash("bang"));
}

/// FNV-1a of the empty text and of one letter.
#[test]
fn panic_hash_values() {
    assert_eq!(panic_hash(""), 0xcbf2_9ce4_8422_2325);
    assert_eq!(panic_hash("a"), 0xaf63_dc4c_8601_ec8c);
}

#[test]
fn control_messages_are_answered() {
    let mut c = ctx();
    let acts = c.handle_ctl(CtlResult::Message(ControlMsg::Ping { t_ns: 42 }));
    assert!(acts.contains(&RtAction::Send(Reply::Pong { t_ns: 42 })));
    let acts = c.handle_ctl(CtlResult::Message(ControlMsg::Shutdown {
        reason: ShutdownReason::User,
    }));
    assert!(acts.contains(&RtAction::Exit(EXIT_CLEAN)));

    let n = c.windows.len();
    c.handle_ctl(CtlResult::Message(ControlMsg::WindowOpen {
        win_id: WinId::new(77),
    }));
    assert!(c.windows.contains(&WinId::new(77)));
    c.handle_ctl(CtlResult::Message(ControlMsg::WindowClose {
        win_id: WinId::new(77),
    }));
    assert_eq!(c.windows.len(), n);

    let acts = c.handle_ctl(CtlResult::Error(ArcaError::Internal("peer gone")));
    assert!(acts.contains(&RtAction::Exit(EXIT_NO_HOST)));
    let acts = c.handle_ctl(CtlResult::Error(ArcaError::Internal("ipc: deadline")));
    assert!(!acts.contains(&RtAction::Exit(EXIT_NO_HOST)));
}

#[test]
fn what_is_ready_is_done_in_order() {
    let both = AppCtx::after_poll(true, true);
    assert!(both.contains(&RtAction::Tick) && both.contains(&RtAction::Receive));
    assert!(AppCtx::after_poll(false, false).is_empty());
    assert_eq!(
        AppCtx::before_receive(false, 0),
        vec![RtAction::Exit(EXIT_NO_HOST)]
    );
    assert_eq!(
        AppCtx::before_receive(true, 0),
        vec![RtAction::SetDeadline(500)]
    );
    assert!(AppCtx::before_receive(true, 20).is_empty());
}

#[test]
fn texts_are_searched() {
    assert!(contains_text("ipc: deadline", "deadline"));
    assert!(contains_text("x", ""));
    assert!(!contains_text("dead", "deadline"));
}

#[test]
fn input_region_has_a_header_and_slots() {
    let l = ShmLayout {
        frame_slot_bytes: 4096,
        atlas_bytes: 0,
        input_slots: 10,
        input_slot_bytes: 64,
    };
    assert_eq!(input_region(&l), 64 + 640);
}

#[test]
fn a_link_numbers_its_messages() {
    let mut l = CtlLink::new(true);
    let a = l.begin_send().expect("seq");
    let b = l.begin_send().expect("seq");
    assert!(b > a);
    assert!(CtlLink::new(false).begin_send().is_err());
}

#[test]
fn the_ping_application() {
    assert!(ping_loop(1, &None, false, true).contains(&PingAction::Panic));
    assert!(ping_loop(1, &None, true, false).contains(&PingAction::OpenSocket));
    assert!(ping_loop(1, &None, false, false).contains(&PingAction::MarkDirty));
    assert!(ping_loop(5, &Some("5".to_string()), false, false).contains(&PingAction::Exit));
    assert!(!ping_loop(5, &Some("6".to_string()), false, false).contains(&PingAction::Exit));
}
