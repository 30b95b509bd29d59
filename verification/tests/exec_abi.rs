//! The life of an instance: events, states, subscriptions and shutdown.
use arca::exec_abi::handle::HandleMachine;
use arca::exec_abi::shutdown::{
    shutdown_step, ShutdownAction, ShutdownError, ShutdownEvent, ShutdownPhase, ShutdownReason,
};
use arca::exec_abi::spec::{AppDirs, AppSpec, ArtifactRef, RespawnPolicy};
use arca::exec_abi::state::{AppEvent, AppState, DeathReason, ExitStatus};
use arca::types::{AppId, ArcaError, Capability, Digest, InstanceId};

/// The request to stop that a shutdown sends.
const ASK: ShutdownAction = ShutdownAction::SendShutdown {
    reason: ShutdownReason::User,
};

/// How an instance reacts to the request to stop.
#[derive(Clone, Copy)]
enum Policy {
    Exits,
    Signalled,
    Deaf,
}

/// What the kill hook does.
#[derive(Clone, Copy)]
enum Hook {
    Missing,
    Fails,
    Kills,
    Nothing,
}

fn app_id() -> AppId {
    AppId::new("com.example.app").expect("AppId de test válida")
}

fn machine(instance: u64) -> HandleMachine {
    HandleMachine::new(app_id(), InstanceId::new(instance))
}

/// Runs a shutdown to its end; returns the actions that were performed too.
fn shutdown(
    m: &mut HandleMachine,
    policy: Policy,
    hook: Hook,
) -> (Result<ExitStatus, ShutdownError>, Vec<ShutdownAction>) {
    let mut phase = ShutdownPhase::Start;
    let mut event = ShutdownEvent::Terminal(m.terminal());
    let mut done = Vec::new();
    loop {
        let (next, action) = shutdown_step(phase, event);
        phase = next;
        event = match action {
            ShutdownAction::SendShutdown { .. } => {
                match policy {
                    Policy::Exits => {
                        m.report_death(DeathReason::Exit { code: 0 }, None);
                    }
                    Policy::Signalled => {
                        m.report_death(DeathReason::Signaled { signal: 15 }, None);
                    }
                    Policy::Deaf => {}
                }
                ShutdownEvent::Sent
            }
            ShutdownAction::AwaitGrace | ShutdownAction::AwaitSettle => {
                ShutdownEvent::Terminal(m.terminal())
            }
            ShutdownAction::CallKill => match hook {
                Hook::Missing => ShutdownEvent::NoHook,
                Hook::Fails => ShutdownEvent::HookFailed,
                Hook::Kills => {
                    m.report_death(DeathReason::Signaled { signal: 9 }, None);
                    ShutdownEvent::Killed
                }
                Hook::Nothing => ShutdownEvent::Killed,
            },
            ShutdownAction::EmitKilledByHost => {
                m.report_death(DeathReason::KilledByHost, None);
                ShutdownEvent::Terminal(m.terminal())
            }
            ShutdownAction::Return(r) => return (r, done),
        };
        done.push(action);
    }
}

#[test]
fn ciclo_completo_estados_y_eventos() {
    let mut m = machine(1);
    let rx = m.on_state_change();

    assert_eq!(m.id(), InstanceId::new(1));
    assert_eq!(m.app_id().as_str(), "com.example.app");
    assert_eq!(m.state(), AppState::Spawning);

    assert!(m.emit(AppEvent::Hello));
    assert_eq!(m.state(), AppState::Spawning, "Hello no muta estado");
    assert!(m.emit(AppEvent::Ready));
    assert_eq!(m.state(), AppState::Ready);
    assert!(m.emit(AppEvent::Paused));
    assert_eq!(m.state(), AppState::Paused);
    assert!(m.emit(AppEvent::Resumed));
    assert_eq!(m.state(), AppState::Running);
    assert!(m.emit(AppEvent::Unhealthy { since_ms: 900 }));
    assert!(m.emit(AppEvent::FrameStalled { frames: 3 }));
    assert_eq!(m.state(), AppState::Running);

    let dump = "/data/minidumps/x.dmp".to_string();
    assert!(m.report_death(DeathReason::Exit { code: 3 }, Some(dump.clone())));
    assert!(!m.report_death(DeathReason::Exit { code: 3 }, None));
    assert!(!m.emit(AppEvent::Resumed));
    assert!(!m.emit(AppEvent::Spawned));

    assert_eq!(
        m.state(),
        AppState::Dead {
            reason: DeathReason::Exit { code: 3 }
        }
    );
    assert_eq!(
        m.drain(rx),
        vec![
            AppEvent::Spawned,
            AppEvent::Hello,
            AppEvent::Ready,
            AppEvent::Paused,
            AppEvent::Resumed,
            AppEvent::Unhealthy { since_ms: 900 },
            AppEvent::FrameStalled { frames: 3 },
            AppEvent::Dead {
                reason: DeathReason::Exit { code: 3 },
                minidump: Some(dump)
            },
        ]
    );

    let (st, done) = shutdown(&mut m, Policy::Exits, Hook::Missing);
    assert_eq!(st, Ok(ExitStatus::from(DeathReason::Exit { code: 3 })));
    assert!(m.drain(rx).is_empty(), "sin eventos nuevos");
    assert!(done.is_empty(), "sin Shutdown: ya estaba muerto");
}

#[test]
fn on_state_change_tardio_solo_ve_futuros() {
    let mut m = machine(1);
    let r1 = m.on_state_change();
    assert!(m.emit(AppEvent::Hello));
    let r2 = m.on_state_change();
    assert!(m.emit(AppEvent::Ready));

    assert_eq!(
        m.drain(r1),
        vec![AppEvent::Spawned, AppEvent::Hello, AppEvent::Ready]
    );
    assert_eq!(m.drain(r2), vec![AppEvent::Ready]);
}

#[test]
fn shutdown_con_cortesia_termina_bien() {
    let mut m = machine(1);
    let rx = m.on_state_change();
    let (st, done) = shutdown(&mut m, Policy::Exits, Hook::Missing);
    assert_eq!(
        st,
        Ok(ExitStatus {
            code: 0,
            signal: None
        })
    );
    assert_eq!(
        m.state(),
        AppState::Dead {
            reason: DeathReason::Exit { code: 0 }
        }
    );
    assert_eq!(done.first(), Some(&ASK));
    assert_eq!(
        done.iter().filter(|a| **a == ASK).count(),
        1,
        "un solo Shutdown"
    );
    assert_eq!(
        m.drain(rx).last(),
        Some(&AppEvent::Dead {
            reason: DeathReason::Exit { code: 0 },
            minidump: None
        })
    );
}

#[test]
fn shutdown_sin_hook_falla_tras_grace() {
    let mut m = machine(1);
    let (r, done) = shutdown(&mut m, Policy::Deaf, Hook::Missing);
    assert!(done.contains(&ShutdownAction::AwaitGrace), "el grace se respeta");
    assert_eq!(r, Err(ShutdownError::NoSignOfDeath));
    assert_eq!(
        m.state(),
        AppState::Spawning,
        "no murió: sin inventar Dead"
    );
}

#[test]
fn shutdown_con_kill_hook_reporta_muerte() {
    let mut m = machine(1);
    m.install_kill();
    assert!(m.has_kill());
    let rx = m.on_state_change();
    let (st, _) = shutdown(&mut m, Policy::Deaf, Hook::Kills);
    assert_eq!(
        st,
        Ok(ExitStatus {
            code: 0,
            signal: Some(9)
        })
    );
    assert_eq!(
        m.state(),
        AppState::Dead {
            reason: DeathReason::Signaled { signal: 9 }
        }
    );
    assert_eq!(
        m.drain(rx).last(),
        Some(&AppEvent::Dead {
            reason: DeathReason::Signaled { signal: 9 },
            minidump: None
        })
    );
}

#[test]
fn shutdown_kill_sordo_sintetiza_killed_by_host() {
    let mut m = machine(1);
    let rx = m.on_state_change();
    let (st, _) = shutdown(&mut m, Policy::Deaf, Hook::Nothing);
    assert_eq!(st, Ok(ExitStatus::from(DeathReason::KilledByHost)));
    assert_eq!(
        m.state(),
        AppState::Dead {
            reason: DeathReason::KilledByHost
        }
    );
    assert_eq!(
        m.drain(rx).last(),
        Some(&AppEvent::Dead {
            reason: DeathReason::KilledByHost,
            minidump: None
        })
    );
}

#[test]
fn a_failing_kill_hook_is_reported() {
    let mut m = machine(1);
    let (r, _) = shutdown(&mut m, Policy::Deaf, Hook::Fails);
    assert_eq!(r, Err(ShutdownError::KillFailed));
    assert_eq!(
        ShutdownError::KillFailed.as_str(),
        "exec-abi: kill hook falló tras el grace"
    );
    let (phase, action) =
        shutdown_step(ShutdownPhase::Synthesis, ShutdownEvent::Terminal(None));
    assert_eq!(phase, ShutdownPhase::Finished);
    assert_eq!(action, ShutdownAction::Return(Err(ShutdownError::TerminalLost)));
}

#[test]
fn send_a_instancia_muerta_rechaza() {
    let mut m = machine(1);
    assert!(m.check_send().is_ok());
    assert!(m.report_death(DeathReason::Lost, None));
    let r = m.check_send();
    assert!(matches!(r, Err(ArcaError::Internal(_))));
}

#[test]
fn spawned_y_dead_son_one_shot() {
    let mut m = machine(1);
    let rx = m.on_state_change();
    assert!(!m.emit(AppEvent::Spawned), "new ya lo emitió");
    assert!(m.report_death(DeathReason::Lost, None));
    assert!(!m.report_death(DeathReason::Exit { code: 0 }, None));
    assert_eq!(
        m.drain(rx),
        vec![
            AppEvent::Spawned,
            AppEvent::Dead {
                reason: DeathReason::Lost,
                minidump: None
            }
        ]
    );
}

fn launched(instance: u64) -> HandleMachine {
    let mut m = machine(instance);
    m.emit(AppEvent::Hello);
    m.emit(AppEvent::Ready);
    m.install_kill();
    m
}

#[test]
fn mock_ciclo_completo_por_el_trait() {
    let mut m = launched(7);
    let rx = m.on_state_change();
    assert_eq!(m.id(), InstanceId::new(7));
    assert_eq!(m.state(), AppState::Ready);

    let (status, done) = shutdown(&mut m, Policy::Exits, Hook::Kills);
    assert_eq!(
        status,
        Ok(ExitStatus {
            code: 0,
            signal: None
        })
    );
    assert_eq!(
        m.state(),
        AppState::Dead {
            reason: DeathReason::Exit { code: 0 }
        }
    );
    assert_eq!(
        m.drain(rx),
        vec![
            AppEvent::Spawned,
            AppEvent::Hello,
            AppEvent::Ready,
            AppEvent::Dead {
                reason: DeathReason::Exit { code: 0 },
                minidump: None
            },
        ]
    );
    assert_eq!(done, vec![ASK, ShutdownAction::AwaitGrace]);

    let (again, more) = shutdown(&mut m, Policy::Exits, Hook::Kills);
    assert_eq!(again, status);
    assert!(m.drain(rx).is_empty(), "sin eventos nuevos");
    assert!(more.is_empty(), "sin segundo Shutdown");
}

#[test]
fn mock_ignora_grace_muere_por_kill_hook() {
    let mut m = launched(8);
    let rx = m.on_state_change();
    let (status, done) = shutdown(&mut m, Policy::Deaf, Hook::Kills);
    assert_eq!(
        done,
        vec![
            ASK,
            ShutdownAction::AwaitGrace,
            ShutdownAction::CallKill,
            ShutdownAction::AwaitSettle
        ]
    );
    assert_eq!(
        status,
        Ok(ExitStatus {
            code: 0,
            signal: Some(9)
        })
    );
    assert_eq!(
        m.state(),
        AppState::Dead {
            reason: DeathReason::Signaled { signal: 9 }
        }
    );
    assert_eq!(
        m.drain(rx).last(),
        Some(&AppEvent::Dead {
            reason: DeathReason::Signaled { signal: 9 },
            minidump: None
        })
    );
    assert!(m.check_send().is_err());
}

#[test]
fn mock_muere_con_senal() {
    let mut m = launched(9);
    let rx = m.on_state_change();
    let (status, _) = shutdown(&mut m, Policy::Signalled, Hook::Kills);
    assert_eq!(
        status,
        Ok(ExitStatus {
            code: 0,
            signal: Some(15)
        })
    );
    assert_eq!(
        m.state(),
        AppState::Dead {
            reason: DeathReason::Signaled { signal: 15 }
        }
    );
    assert_eq!(
        m.drain(rx),
        vec![
            AppEvent::Spawned,
            AppEvent::Hello,
            AppEvent::Ready,
            AppEvent::Dead {
                reason: DeathReason::Signaled { signal: 15 },
                minidump: None
            },
        ]
    );
}

#[test]
fn mock_emit_inyecta_salud_sin_mutar_ciclo() {
    let mut m = launched(4);
    let rx = m.on_state_change();
    assert!(m.emit(AppEvent::FrameStalled { frames: 3 }));
    assert!(m.emit(AppEvent::Unhealthy { since_ms: 1200 }));
    assert_eq!(m.state(), AppState::Ready, "salud ≠ ciclo");
    assert!(m.drain(rx).contains(&AppEvent::Unhealthy { since_ms: 1200 }));
}

#[test]
fn dos_1000_launch_shutdown_sin_leak() {
    const N: u64 = 1000;
    let mut deads = 0usize;
    for i in 1..=N {
        let mut m = launched(i);
        let rx = m.on_state_change();
        let (status, _) = shutdown(&mut m, Policy::Exits, Hook::Kills);
        assert_eq!(status.expect("status").code, 0, "iter {i}");
        for ev in m.drain(rx) {
            if matches!(ev, AppEvent::Dead { .. }) {
                deads += 1;
            }
        }
    }
    assert_eq!(deads, N as usize, "exactamente un Dead por instancia");
}

fn lcg(s: &mut u64) -> u64 {
    *s = s
        .wrapping_mul(6_364_136_223_846_793_005)
        .wrapping_add(1_442_695_040_888_963_407);
    *s >> 33
}

fn death(s: &mut u64) -> DeathReason {
    match lcg(s) % 4 {
        0 => DeathReason::Lost,
        1 => DeathReason::KilledByHost,
        2 => DeathReason::Exit {
            code: (lcg(s) % 4000) as i32 - 2000,
        },
        _ => DeathReason::Signaled {
            signal: 1 + (lcg(s) % 63) as i32,
        },
    }
}

fn middle(s: &mut u64) -> AppEvent {
    match lcg(s) % 6 {
        0 => AppEvent::Hello,
        1 => AppEvent::Ready,
        2 => AppEvent::Paused,
        3 => AppEvent::Resumed,
        4 => AppEvent::Unhealthy { since_ms: lcg(s) },
        _ => AppEvent::FrameStalled { frames: lcg(s) },
    }
}

fn any_event(s: &mut u64) -> AppEvent {
    match lcg(s) % 8 {
        0 => AppEvent::Spawned,
        1 => AppEvent::Dead {
            reason: death(s),
            minidump: None,
        },
        _ => middle(s),
    }
}

#[test]
fn prop_maquina_filtra_secuencias_arbitrarias() {
    for case in 0..128u64 {
        let mut s = case.wrapping_mul(0x9E37_79B9_7F4A_7C15) | 1;
        let mut m = machine(42);
        let rx = m.on_state_change();
        for _ in 0..lcg(&mut s) % 24 {
            let ev = any_event(&mut s);
            let _ = m.emit(ev);
        }
        let out = m.drain(rx);
        assert!(matches!(out.first(), Some(AppEvent::Spawned)), "{out:?}");
        assert_eq!(
            out.iter().filter(|e| matches!(e, AppEvent::Spawned)).count(),
            1
        );
        let deads = out
            .iter()
            .filter(|e| matches!(e, AppEvent::Dead { .. }))
            .count();
        assert!(deads <= 1, "Dead es one-shot: {deads} en {out:?}");
        if deads == 1 {
            assert!(matches!(out.last(), Some(AppEvent::Dead { .. })), "{out:?}");
            assert!(!m.emit(AppEvent::Hello), "nada tras Dead");
            assert!(!m.report_death(DeathReason::Lost, None));
            assert!(matches!(m.state(), AppState::Dead { .. }));
        }
    }
}

#[test]
fn prop_contrato_canonico_consistente() {
    for case in 0..128u64 {
        let mut s = case.wrapping_mul(0xD1B5_4A32_D192_ED03) | 1;
        let mut m = machine(42);
        let rx = m.on_state_change();
        assert!(m.emit(AppEvent::Hello));
        assert!(m.emit(AppEvent::Ready));
        let mut want = vec![AppEvent::Spawned, AppEvent::Hello, AppEvent::Ready];
        for _ in 0..lcg(&mut s) % 16 {
            let ev = middle(&mut s);
            want.push(ev.duplicate());
            assert!(m.emit(ev));
        }
        let reason = death(&mut s);
        let dump = if lcg(&mut s) % 2 == 0 {
            Some("/data/minidumps/x.dmp".to_string())
        } else {
            None
        };
        assert!(m.report_death(reason, dump.clone()));
        assert!(!m.report_death(reason, None));
        assert!(!m.emit(AppEvent::Resumed));
        want.push(AppEvent::Dead {
            reason,
            minidump: dump,
        });
        assert_eq!(m.drain(rx), want);
        assert_eq!(m.state(), AppState::Dead { reason });
        let (st, _) = shutdown(&mut m, Policy::Deaf, Hook::Missing);
        assert_eq!(st, Ok(ExitStatus::from(reason)));
        assert!(m.drain(rx).is_empty());
    }
}

fn spec() -> AppSpec {
    AppSpec {
        app_id: AppId::new("com.example.app").expect("id válida"),
        instance: InstanceId::new(3),
        artifact: ArtifactRef {
            path: "/data/apps/x/bin/app.so".to_string(),
            hash: Digest::of(b"binario"),
            size_bytes: 7,
        },
        caps: vec![Capability::Notify, Capability::FsVault],
        dirs: AppDirs {
            app_dir: "/data/apps/x".to_string(),
            vault_dir: "/data/vault/x".to_string(),
        },
        respawn: RespawnPolicy::OnCrash,
        sync_ui: true,
    }
}

#[test]
fn app_spec_es_datos_puros() {
    let a = spec();
    let b = spec();
    assert_eq!(a, b);
    assert_ne!(
        a,
        AppSpec {
            sync_ui: false,
            ..b
        }
    );
    let dbg = format!("{a:?}");
    assert!(dbg.contains("com.example.app") && dbg.contains("app.so"));
    assert_eq!(RespawnPolicy::OnCrash.as_str(), "on-crash");
}

#[test]
fn exit_status_desde_death_reason() {
    assert_eq!(
        ExitStatus::from(DeathReason::Exit { code: 0 }),
        ExitStatus {
            code: 0,
            signal: None
        }
    );
    assert_eq!(
        ExitStatus::from(DeathReason::Signaled { signal: 15 }),
        ExitStatus {
            code: 0,
            signal: Some(15)
        }
    );
    assert_eq!(
        ExitStatus::from(DeathReason::Lost),
        ExitStatus {
            code: -1,
            signal: None
        }
    );
    assert_eq!(
        ExitStatus::from(DeathReason::KilledByHost),
        ExitStatus {
            code: 0,
            signal: Some(9)
        }
    );

    assert!(ExitStatus::from(DeathReason::Exit { code: 0 }).success());
    assert!(!ExitStatus::from(DeathReason::Exit { code: 3 }).success());
    assert!(!ExitStatus::from(DeathReason::Signaled { signal: 9 }).success());
    assert!(!ExitStatus::from(DeathReason::Lost).success());
    assert!(!ExitStatus::from(DeathReason::KilledByHost).success());

    let st = AppState::Dead {
        reason: DeathReason::Lost,
    };
    assert_eq!(st, st);
    assert!(matches!(AppState::Spawning, AppState::Spawning));
}

#[test]
fn the_first_receiver_starts_with_spawned_alone() {
    let mut m = machine(3);
    assert_eq!(m.on_state_change(), 0);
    m.install_kill();
    let later = m.on_state_change();
    assert_eq!(later, 1);
    assert_eq!(m.drain(0), vec![AppEvent::Spawned]);
    assert!(!m.emit(AppEvent::Spawned));
    assert!(m.emit(AppEvent::Hello));
    assert_eq!(m.drain(0), vec![AppEvent::Hello]);
    assert_eq!(m.drain(later), vec![AppEvent::Hello]);
    assert!(m.drain(later).is_empty());
}
