//! Launching a native process: the blob, the plan, the launcher, the watch.
use arca::exec_abi::spec::{AppDirs, AppSpec, ArtifactRef, RespawnPolicy};
use arca::exec_abi::state::DeathReason;
use arca::exec_native::bus::ConnBus;
use arca::exec_native::drain::{LineDrain, LINE_MAX};
use arca::exec_native::launcher::{
    blob_len, build_env, fds_to_close, launcher_step, LauncherAction, LauncherEvent,
    LauncherState,
};
use arca::exec_native::masks::{caps_bits, caps_from_bits};
use arca::exec_native::plan::{
    default_window, elf_ok, keeps_fd, ChildEnd, NativeProcessExec, FD_CTL, FD_SPEC,
};
use arca::exec_native::spec::{validar_env_extra, LaunchSpec, ENV_EXTRA_MAX};
use arca::exec_native::watch::{
    after_kill, death_reason, watch_start, watch_step, WaitStatus, WatchAction, WatchEvent,
    WatchPhase, DETACH_POLL_MS,
};
use arca::types::{AppId, ArcaError, Capability, Digest, InstanceId};

fn ejemplo() -> LaunchSpec {
    LaunchSpec {
        app_path: "/apps/demo/bin/app".into(),
        app_dir: "/apps/demo".into(),
        vault_dir: "/vault/demo".into(),
        app_id: "dev.arca.demo".into(),
        instance: 7,
        caps_bits: 0b11,
        artifact: [0xAB; 32],
        env_extra: vec![("ARCA_PING_PANIC".into(), "1".into())],
    }
}

#[test]
fn roundtrip() {
    let s = ejemplo();
    let b = s.encode();
    let back = LaunchSpec::decode(&b).expect("decode");
    assert_eq!(back, s);
    assert_eq!(back.artifact_hex().len(), 64);
}

#[test]
fn corrupciones_rechazadas() {
    let b = ejemplo().encode();
    let mut x = b.clone();
    x[0] = b'X';
    assert!(LaunchSpec::decode(&x).is_err());
    let mut x = b.clone();
    let n = x.len();
    x[n - 2] ^= 0xFF;
    assert!(LaunchSpec::decode(&x).is_err());
    assert!(LaunchSpec::decode(&b[..b.len() / 2]).is_err());
}

#[test]
fn determinista() {
    let s = ejemplo();
    assert_eq!(s.encode(), s.encode());
}

#[test]
fn version_1_rechazada() {
    let mut b = ejemplo().encode();
    b[8] = 1;
    b[9] = 0;
    let body_len = b.len() - 4;
    let crc = crc32fast::hash(&b[..body_len]);
    b[body_len..].copy_from_slice(&crc.to_le_bytes());
    assert!(LaunchSpec::decode(&b).is_err());
}

#[test]
fn env_extra_validado() {
    assert!(validar_env_extra(&[("PING".into(), "1".into())]).is_err());
    assert!(validar_env_extra(&[("ARCA_APP_ID".into(), "x".into())]).is_err());
    assert!(validar_env_extra(&[("ARCA_X\u{0}Y".into(), "1".into())]).is_err());
    let muchos: Vec<(String, String)> = (0..ENV_EXTRA_MAX + 1)
        .map(|i| (format!("ARCA_K{i}"), "v".into()))
        .collect();
    assert!(validar_env_extra(&muchos).is_err());
    assert!(validar_env_extra(&[("ARCA_PING_PANIC".into(), "1".into())]).is_ok());
    assert!(validar_env_extra(&[]).is_ok());
}

#[test]
fn bytes_sobrantes_rechazados() {
    let mut b = ejemplo().encode();
    let body_len = b.len() - 4;
    b.truncate(body_len);
    b.extend_from_slice(b"\0\0\0");
    let crc = crc32fast::hash(&b);
    b.extend_from_slice(&crc.to_le_bytes());
    assert!(LaunchSpec::decode(&b).is_err());
}

#[test]
fn blob_ends_with_the_checksum_of_the_rest() {
    let b = ejemplo().encode();
    let n = b.len() - 4;
    assert_eq!(&b[n..], &crc32fast::hash(&b[..n]).to_le_bytes());
    assert_eq!(b[8], 2);
    assert_eq!(ejemplo().artifact_hex(), "ab".repeat(32));
}

fn app_spec(path: &str) -> AppSpec {
    AppSpec {
        app_id: AppId::new("dev.arca.ping").expect("id"),
        instance: InstanceId::new(1),
        artifact: ArtifactRef {
            path: path.to_string(),
            hash: Digest::of(b"ping"),
            size_bytes: 4,
        },
        caps: vec![Capability::NetClient, Capability::Notify],
        dirs: AppDirs {
            app_dir: "/apps/ping".to_string(),
            vault_dir: "/vault/ping".to_string(),
        },
        respawn: RespawnPolicy::Never,
        sync_ui: false,
    }
}

fn elf() -> Vec<u8> {
    let mut head = vec![0u8; 64];
    head[..4].copy_from_slice(b"\x7fELF");
    head[4] = 2;
    head[5] = 1;
    head[6] = 1;
    head[16] = 3;
    head[18] = 0xb7;
    head
}

fn exec() -> NativeProcessExec {
    NativeProcessExec::new("/bin/arca-launch", true, 4 * 1024 * 1024).expect("exec")
}

#[test]
fn supports_rechaza_no_elf() {
    let e = exec();
    assert!(!e.supports(false, &[]), "/dev/null no es ELF");
    assert!(!e.supports(true, b"#!/bin/sh\n"));
    assert!(!elf_ok(&[]));
}

#[test]
fn a_missing_launcher_is_an_error() {
    assert!(NativeProcessExec::new("/bin/none", false, 1024).is_err());
}

#[test]
fn capabilities_survive_their_mask() {
    let caps = [Capability::Notify, Capability::NetClient];
    let bits = caps_bits(&caps);
    assert_eq!(bits, (1 << Capability::Notify.index()) | 1);
    assert_eq!(
        caps_from_bits(bits),
        vec![Capability::NetClient, Capability::Notify]
    );
    assert!(caps_from_bits(1 << 31).is_empty());
    assert_eq!(caps_from_bits(u32::MAX).len(), 11);
}

#[test]
fn a_plan_holds_the_launch() {
    let e = exec().with_input_slots(16);
    assert_eq!(e.input_slots, 16);
    let head = elf();
    if !elf_ok(&head) {
        panic!("the header is one of the machine the launcher runs on");
    }
    let plan = e
        .plan_launch(
            &app_spec("/apps/ping/bin/app"),
            &head,
            vec![("ARCA_X".to_string(), "1".to_string())],
        )
        .expect("plan");
    assert_eq!(plan.spec.app_path, "/apps/ping/bin/app");
    assert_eq!(plan.spec.app_id, "dev.arca.ping");
    assert_eq!(plan.spec.caps_bits, caps_bits(&app_spec("x").caps));
    assert_eq!(plan.spec.artifact, Digest::of(b"ping").0);
    assert_eq!(plan.window, default_window());
    let blob = plan.spec.encode();
    assert_eq!(&plan.framed[..4], &(blob.len() as u32).to_le_bytes());
    assert_eq!(&plan.framed[4..], &blob[..]);

    assert!(e.plan_launch(&app_spec("/x"), b"none", Vec::new()).is_err());
    assert!(e
        .plan_launch(
            &app_spec("/x"),
            &head,
            vec![("PING".to_string(), "1".to_string())]
        )
        .is_err());
}

#[test]
fn descriptors_of_the_child_are_apart() {
    let ends = [
        ChildEnd::Blob,
        ChildEnd::Control,
        ChildEnd::SignalIn,
        ChildEnd::SignalOut,
        ChildEnd::Stdout,
        ChildEnd::Stderr,
    ];
    let mut fds: Vec<i32> = ends.iter().map(|e| e.fd()).collect();
    fds.sort();
    fds.dedup();
    assert_eq!(fds.len(), ends.len());
    assert_eq!(ChildEnd::Blob.fd(), FD_SPEC);
    assert!(keeps_fd(FD_CTL));
    assert!(keeps_fd(0) && keeps_fd(1) && keeps_fd(2));
    assert!(!keeps_fd(100));
}

#[test]
fn open_descriptors_are_closed_but_for_those_that_are_kept() {
    let names: Vec<String> = ["0", "1", "2", "4", "7", "x", "12"]
        .iter()
        .map(|s| s.to_string())
        .collect();
    let own = Some("12".to_string());
    let fds = fds_to_close(&names, &own);
    assert!(fds.contains(&7));
    assert!(!fds.contains(&12));
    assert!(!fds.contains(&FD_CTL));
    assert!(!fds.contains(&1));
}

#[test]
fn environment_of_the_application() {
    let env = build_env(&ejemplo());
    assert!(env.contains(&"ARCA_APP_ID=dev.arca.demo".to_string()));
    assert!(env.contains(&"ARCA_PING_PANIC=1".to_string()));
    assert!(env.contains(&"ARCA_INSTANCE=7".to_string()));
    assert!(env.contains(&"ARCA_VAULT=/vault/demo".to_string()));
    assert!(env.contains(&format!("ARCA_ARTIFACT={}", "ab".repeat(32))));
}

#[test]
fn the_launcher_filters_before_it_executes() {
    let blob = ejemplo().encode();
    let head = (blob.len() as u32).to_le_bytes();
    let (st, act) = launcher_step(LauncherState::Length, LauncherEvent::Length(head));
    assert!(matches!(act, LauncherAction::ReadBlob(n) if n == blob.len()));
    let (st, act) = launcher_step(st, LauncherEvent::Blob(blob));
    assert!(matches!(act, LauncherAction::ListFds));
    let (st, act) = launcher_step(
        st,
        LauncherEvent::Fds(vec!["9".to_string()], None),
    );
    assert!(matches!(act, LauncherAction::ApplyFilter));
    let (st, act) = launcher_step(st, LauncherEvent::Filtered);
    assert!(matches!(act, LauncherAction::CloseFds(v) if v == vec![9]));
    let (st, act) = launcher_step(st, LauncherEvent::Closed);
    assert!(matches!(act, LauncherAction::EnterDir(d) if d == "/apps/demo"));
    let (st, act) = launcher_step(st, LauncherEvent::Entered);
    assert!(matches!(act, LauncherAction::Execute(p, _) if p == "/apps/demo/bin/app"));
    assert!(matches!(st, LauncherState::Started));

    let (st, act) = launcher_step(LauncherState::Length, LauncherEvent::Entered);
    assert!(matches!(st, LauncherState::Failed));
    assert!(matches!(act, LauncherAction::Abort(ArcaError::Internal(_))));
    let (st, _) = launcher_step(st, LauncherEvent::Filtered);
    assert!(matches!(st, LauncherState::Failed));
}

#[test]
fn a_blob_is_at_most_a_mebibyte() {
    assert_eq!(blob_len(&[5, 1, 0, 0]).expect("len"), 261);
    assert_eq!(blob_len(&[0, 0, 16, 0]).expect("len"), 1 << 20);
    assert!(matches!(
        blob_len(&[1, 0, 16, 0]),
        Err(ArcaError::InvalidFrame(_))
    ));
}

#[test]
fn lines_are_drained_whole() {
    let mut d = LineDrain::new();
    assert!(d.feed(b"uno").is_empty());
    assert_eq!(d.feed(b" dos\ntres\nc"), vec!["uno dos", "tres"]);
    assert_eq!(d.feed(b"\n"), vec!["c"]);
}

#[test]
fn carriage_returns_and_empty_lines_are_dropped() {
    let mut d = LineDrain::new();
    assert_eq!(d.feed(b"uno\r\n\r\n\ndos\r\r\ntr"), vec!["uno", "dos"]);
    assert_eq!(d.feed(b"es\n"), vec!["tres"]);
}

#[test]
fn text_that_is_no_utf8_is_replaced() {
    let mut d = LineDrain::new();
    assert_eq!(d.feed(b"a\xffb\n"), vec!["a\u{fffd}b"]);
}

#[test]
fn a_line_without_end_does_not_grow_for_ever() {
    let mut d = LineDrain::new();
    let chunk = vec![b'x'; 4096];
    let mut total = 0usize;
    for _ in 0..64 {
        for l in d.feed(&chunk) {
            total += l.len();
        }
    }
    let rest: usize = d.feed(b"\n").iter().map(|l| l.len()).sum();
    assert!(rest <= LINE_MAX + 4096);
    assert!(total + rest <= 64 * 4096);
}

#[test]
fn the_watch_reports_one_death() {
    let (p, acts) = watch_step(WatchPhase::Handshake, WatchEvent::HandshakeOk);
    assert_eq!(p, WatchPhase::Watching);
    let at = |a: WatchAction| acts.iter().position(|x| *x == a).expect("action");
    assert!(at(WatchAction::InstallConnection) < at(WatchAction::EmitReady));
    let (p, acts) = watch_step(p, WatchEvent::Ended(WaitStatus::Exited(3)));
    assert_eq!(p, WatchPhase::Over);
    assert!(acts.contains(&WatchAction::Report(DeathReason::Exit { code: 3 })));
    let (p, acts) = watch_step(p, WatchEvent::Ended(WaitStatus::Exited(3)));
    assert_eq!(p, WatchPhase::Over);
    assert!(!acts
        .iter()
        .any(|a| matches!(a, WatchAction::Report(_))));
}

#[test]
fn deaths_by_their_status() {
    assert_eq!(
        death_reason(WaitStatus::Exited(101)),
        DeathReason::Exit { code: 101 }
    );
    assert_eq!(
        death_reason(WaitStatus::Signaled(31)),
        DeathReason::Signaled { signal: 31 }
    );
    assert_eq!(death_reason(WaitStatus::Other), DeathReason::Lost);
    assert_ne!(after_kill(true), after_kill(false));
    assert_eq!(DETACH_POLL_MS, 250);
}

#[test]
fn the_watch_expects_the_identity_of_the_launch() {
    let (expect, caps) = watch_start(&ejemplo()).expect("start");
    assert_eq!(expect.app_id.as_str(), "dev.arca.demo");
    assert_eq!(expect.instance, InstanceId::new(7));
    assert_eq!(expect.artifact_hash, Digest([0xAB; 32]));
    assert_eq!(caps, caps_from_bits(0b11));
    let mut bad = ejemplo();
    bad.app_id = "NO".to_string();
    assert!(watch_start(&bad).is_err());
}

#[test]
fn a_bus_without_a_connection_refuses() {
    let mut b = ConnBus::empty();
    assert!(b.begin_send().is_err());
    b.install();
    let first = b.begin_send().expect("seq");
    let second = b.begin_send().expect("seq");
    assert!(second > first);
    assert!(b.take());
    assert!(!b.take());
    assert!(b.begin_receive(0, 10).is_err());
}
