//! The registry: records, rows, grants, queries, migrations, transactions.
use arca::pkg::{Artifact, Manifest, Version};
use arca::store::model::{
    AppRecord, CapabilitySet, Filter, InstallSource, Outcome, UnixMs,
};
use arca::store::queries::{
    caps_of, delete_app, ensure_app, finish_instance, instance_key, list_apps, query_audit,
    AuditRow, ListedApp,
};
use arca::store::rows::{
    app_from_row, caps_after_upsert, grant_caps, revoke_cap, upsert_row, AppRow, Grant,
};
use arca::store::schema::{
    backup_path, plan_migration, second_step, set_version_sql, MigrationPlan, SecondStep,
    SCHEMA_VERSION,
};
use arca::store::tx::{batch_next, TxCommand, TxState};
use arca::types::{AppId, ArcaError, Capability, InstanceId};

fn app_id(s: &str) -> AppId {
    AppId::new(s).unwrap()
}

fn manifest(id: &str, version: &str, caps: &[Capability]) -> Manifest {
    Manifest {
        id: app_id(id),
        name: format!("App {id}"),
        version: Version::parse(version).unwrap(),
        min_host: Version::parse("1.0.0").unwrap(),
        api_level: 1,
        description: "app de prueba".to_string(),
        tags: vec!["alpha".to_string(), "tool".to_string()],
        caps: caps.to_vec(),
        artifacts: vec![Artifact {
            path: "bin/wasm/app.wasm".to_string(),
            sha256: [2; 32],
            aot_path: None,
        }],
    }
}

fn names(g: &[Grant]) -> Vec<String> {
    g.iter().map(|x| x.0.clone()).collect()
}

fn ms(v: i64) -> UnixMs {
    UnixMs::from_millis(v)
}

#[test]
fn capability_set_insert_contains_iter() {
    let mut s = CapabilitySet::empty();
    assert!(s.is_empty());
    s.insert(Capability::NetClient);
    s.insert(Capability::Notify);
    s.insert(Capability::NetClient);
    assert_eq!(s.len(), 2);
    assert!(s.contains(Capability::NetClient));
    assert!(s.contains(Capability::Notify));
    assert!(!s.contains(Capability::FsVault));
    let v: Vec<Capability> = s.iter();
    assert_eq!(v, vec![Capability::NetClient, Capability::Notify]);
    assert_eq!(s.to_text(), "net-client,notify");
}

#[test]
fn capability_set_from_iter() {
    let s: CapabilitySet = CapabilitySet::from_iter(&[Capability::Share, Capability::Vibrate]);
    assert!(s.contains(Capability::Share) && s.contains(Capability::Vibrate));
    assert_eq!(s.len(), 2);
}

#[test]
fn outcome_sql_roundtrip() {
    for o in [
        Outcome::Exited { code: 0 },
        Outcome::Exited { code: -11 },
        Outcome::Crashed,
        Outcome::Killed,
    ] {
        assert_eq!(Outcome::from_sql(&o.as_sql()), Some(o), "{o:?}");
    }
    assert_eq!(Outcome::from_sql("exit:nope"), None);
    assert_eq!(Outcome::from_sql("nonsense"), None);
    assert_eq!(Outcome::from_sql("exit:"), None);
}

#[test]
fn outcome_numbers_at_the_edge() {
    for code in [i32::MIN, -1, 1, i32::MAX] {
        let o = Outcome::Exited { code };
        assert_eq!(o.as_sql(), format!("exit:{code}"));
        assert_eq!(Outcome::from_sql(&o.as_sql()), Some(o));
    }
    assert_eq!(Outcome::from_sql("exit:+5"), Some(Outcome::Exited { code: 5 }));
    assert_eq!(Outcome::from_sql("exit:2147483648"), None);
    assert_eq!(Outcome::from_sql("exit:-"), None);
    assert_eq!(Outcome::from_sql("exit: 1"), None);
    assert_eq!(Outcome::Crashed.as_sql(), "crash");
    assert_eq!(Outcome::Killed.as_sql(), "killed");
}

#[test]
fn install_source_roundtrip() {
    for s in [
        InstallSource::User,
        InstallSource::Bundled,
        InstallSource::Dev,
    ] {
        assert_eq!(InstallSource::from_name(s.as_str()), Some(s));
    }
    assert_eq!(InstallSource::from_name("USER"), None);
}

#[test]
fn unix_ms_orden_y_display() {
    assert!(UnixMs::now().get() > 1_600_000_000_000);
    assert!(UnixMs::from_millis(5) < UnixMs::from_millis(6));
    assert_eq!(UnixMs::from_millis(42).to_text(), "42ms");
}

#[test]
fn clock_readings_become_times() {
    assert_eq!(UnixMs::from_clock(None).get(), 0);
    assert_eq!(UnixMs::from_clock(Some(1234)).get(), 1234);
    assert_eq!(UnixMs::from_clock(Some(u128::MAX)).get(), i64::MAX);
    assert_eq!(UnixMs::from_millis(-7).to_text(), "-7ms");
}

#[test]
fn filter_builder() {
    let f = Filter::all()
        .with_cap(Capability::NetClient)
        .from(InstallSource::Dev);
    assert_eq!(f.cap(), Some(Capability::NetClient));
    assert_eq!(f.source(), Some(InstallSource::Dev));
    assert_eq!(Filter::all(), Filter::default());
}

#[test]
fn open_v0_migra_a_v2_e_idempotente() {
    assert_eq!(SCHEMA_VERSION, 2);
    assert_eq!(
        plan_migration(0, true).unwrap(),
        MigrationPlan {
            backup: false,
            steps: vec![1, 2]
        }
    );
    assert_eq!(
        plan_migration(2, false).unwrap(),
        MigrationPlan {
            backup: false,
            steps: vec![]
        }
    );
    assert_eq!(set_version_sql(2), "PRAGMA user_version = 2");
}

fn old_row() -> AppRow {
    AppRow {
        id: "dev.arca.vieja".to_string(),
        name: "Vieja".to_string(),
        version: "0.9.0".to_string(),
        min_host: "1.0.0".to_string(),
        api_level: 1,
        description: "desc".to_string(),
        tags: "a,b".to_string(),
        installed_from: "user".to_string(),
        installed_at: 1111,
        updated_at: 1111,
    }
}

#[test]
fn migracion_v1_a_v2_preserva_datos() {
    assert_eq!(plan_migration(1, false).unwrap().steps, vec![2]);
    assert_eq!(
        second_step(false),
        vec![
            SecondStep::AddUpdatedAt,
            SecondStep::FillUpdatedAt,
            SecondStep::IndexAudit
        ]
    );
    let rec = app_from_row(Some(app_id("dev.arca.vieja")), old_row()).unwrap();
    assert_eq!(rec.version, "0.9.0");
    assert_eq!(rec.name, "Vieja");
    assert_eq!(rec.installed_from, InstallSource::User);
    assert_eq!(rec.installed_at, UnixMs::from_millis(1111));
    assert_eq!(rec.updated_at, UnixMs::from_millis(1111));
    assert_eq!(rec.tags, vec!["a".to_string(), "b".to_string()]);
}

#[test]
fn migracion_v0_con_datos_a_v2() {
    let p = plan_migration(0, false).unwrap();
    assert_eq!(p.steps, vec![1, 2]);
    assert!(p.backup);
}

#[test]
fn bak_se_crea_antes_de_migrar() {
    assert!(plan_migration(1, false).unwrap().backup);
    assert_eq!(backup_path("/x/registry.db"), "/x/registry.db.bak");
}

#[test]
fn pasos_idempotentes_sola_conn() {
    assert_eq!(second_step(true), vec![SecondStep::IndexAudit]);
}

#[test]
fn version_futura_rechazada() {
    match plan_migration(99, false) {
        Err(ArcaError::Internal(ctx)) => assert!(ctx.contains("futuro"), "{ctx}"),
        otro => panic!("debía fallar con Internal, vino {otro:?}"),
    }
    match plan_migration(-1, false) {
        Err(ArcaError::Internal(ctx)) => assert!(ctx.contains("negativo"), "{ctx}"),
        otro => panic!("debía fallar con Internal, vino {otro:?}"),
    }
}

#[test]
fn an_interrupted_migration_goes_on() {
    let all = plan_migration(0, false).unwrap().steps;
    let rest = plan_migration(all[0] as i64, false).unwrap().steps;
    assert_eq!(rest, all[1..].to_vec());
}

/// The row and the grants of one application after an installation.
fn install(
    before: Option<(AppRow, Vec<Grant>)>,
    m: &Manifest,
    src: InstallSource,
    now: i64,
) -> (AppRow, Vec<Grant>) {
    let (installed_at, grants) = match before {
        Some((row, g)) => (Some(row.installed_at), g),
        None => (None, Vec::new()),
    };
    let row = upsert_row(m, src, ms(now), installed_at);
    (row, caps_after_upsert(grants, &m.caps, ms(now)))
}

#[test]
fn flujo_install_update_uninstall() {
    let id = app_id("dev.arca.flujo");
    let m = manifest(
        "dev.arca.flujo",
        "1.0.0",
        &[Capability::NetClient, Capability::Notify],
    );
    let (row, grants) = install(None, &m, InstallSource::User, 1000);
    assert_eq!(caps_of(&names(&grants)).unwrap().len(), 2);
    let keep = AppRow {
        id: row.id.clone(),
        name: row.name.clone(),
        version: row.version.clone(),
        min_host: row.min_host.clone(),
        description: row.description.clone(),
        tags: row.tags.clone(),
        installed_from: row.installed_from.clone(),
        ..row
    };
    let rec = app_from_row(None, row).unwrap();
    assert_eq!(rec.id, id);
    assert_eq!(rec.version, "1.0.0");
    assert_eq!(rec.installed_from, InstallSource::User);
    assert_eq!(rec.name, "App dev.arca.flujo");
    assert_eq!(rec.min_host, "1.0.0");
    assert_eq!(rec.api_level, 1);
    assert_eq!(rec.description, "app de prueba");
    assert_eq!(rec.tags, vec!["alpha".to_string(), "tool".to_string()]);

    let m = manifest("dev.arca.flujo", "1.1.0", &[Capability::NetClient]);
    let (row, grants) = install(Some((keep, grants)), &m, InstallSource::User, 2000);
    let rec: AppRecord = app_from_row(Some(id.clone()), row).unwrap();
    assert_eq!(rec.version, "1.1.0");
    assert_eq!(rec.installed_at, ms(1000));
    assert_eq!(rec.updated_at, ms(2000));
    assert!(rec.updated_at >= rec.installed_at);
    let caps = caps_of(&names(&grants)).unwrap();
    assert!(caps.contains(Capability::NetClient));
    assert!(!caps.contains(Capability::Notify));
    assert_eq!(caps.len(), 1);

    delete_app(&id, 1).unwrap();
    match delete_app(&id, 0) {
        Err(ArcaError::NotFound(x)) => assert_eq!(x, id),
        otro => panic!("debía ser NotFound, vino {otro:?}"),
    }
}

fn listed() -> Vec<ListedApp> {
    let a = manifest("dev.arca.a", "1.0.0", &[Capability::NetClient]);
    let b = manifest("dev.arca.b", "1.0.0", &[Capability::Notify]);
    let c = manifest("dev.arca.c", "1.0.0", &[]);
    vec![
        (
            upsert_row(&c, InstallSource::User, ms(3), None),
            Vec::new(),
        ),
        (
            upsert_row(&a, InstallSource::User, ms(1), None),
            vec!["net-client".to_string()],
        ),
        (
            upsert_row(&b, InstallSource::Dev, ms(2), None),
            vec!["notify".to_string()],
        ),
    ]
}

#[test]
fn list_apps_con_filtro() {
    let todos = list_apps(&Filter::all(), listed()).unwrap();
    assert_eq!(todos.len(), 3);
    let nombres: Vec<&str> = todos.iter().map(|r| r.name.as_str()).collect();
    assert_eq!(
        nombres,
        vec!["App dev.arca.a", "App dev.arca.b", "App dev.arca.c"]
    );

    let con_net = list_apps(&Filter::all().with_cap(Capability::NetClient), listed()).unwrap();
    assert_eq!(con_net.len(), 1);
    assert_eq!(con_net[0].id, app_id("dev.arca.a"));

    let dev = list_apps(&Filter::all().from(InstallSource::Dev), listed()).unwrap();
    assert_eq!(dev.len(), 1);
    assert_eq!(dev[0].id, app_id("dev.arca.b"));

    let ambos = list_apps(
        &Filter::all()
            .from(InstallSource::User)
            .with_cap(Capability::Notify),
        listed(),
    )
    .unwrap();
    assert_eq!(ambos.len(), 0);
}

#[test]
fn caps_grant_revoke() {
    let id = app_id("dev.arca.caps");
    let m = manifest("dev.arca.caps", "1.0.0", &[Capability::Notify]);
    let (_, grants) = install(None, &m, InstallSource::User, 1);

    let grants = grant_caps(grants, &[Capability::ClipboardRead, Capability::Share], ms(2));
    let caps = caps_of(&names(&grants)).unwrap();
    assert_eq!(caps.len(), 3);
    assert!(caps.contains(Capability::ClipboardRead));

    let grants = grant_caps(grants, &[Capability::ClipboardRead], ms(3));
    assert_eq!(caps_of(&names(&grants)).unwrap().len(), 3);

    let grants = revoke_cap(grants, Capability::ClipboardRead);
    assert_eq!(caps_of(&names(&grants)).unwrap().len(), 2);
    let grants = revoke_cap(grants, Capability::ClipboardRead);
    assert_eq!(caps_of(&names(&grants)).unwrap().len(), 2);

    assert!(ensure_app(&id, 1).is_ok());
    match ensure_app(&app_id("dev.arca.nope"), 0) {
        Err(ArcaError::NotFound(_)) => {}
        otro => panic!("debía ser NotFound, vino {otro:?}"),
    }
}

#[test]
fn an_update_keeps_the_time_of_an_old_grant() {
    let g: Vec<Grant> = vec![("notify".to_string(), 10), ("share".to_string(), 20)];
    let g = caps_after_upsert(g, &[Capability::Notify, Capability::Vibrate], ms(99));
    assert!(g.contains(&("notify".to_string(), 10)));
    assert!(g.contains(&("vibrate".to_string(), 99)));
    assert_eq!(g.len(), 2);
}

#[test]
fn unknown_capability_in_a_row_is_an_error() {
    assert!(caps_of(&vec!["nonsense".to_string()]).is_err());
}

#[test]
fn rows_that_cannot_be_read_are_refused() {
    let mut r = old_row();
    r.installed_from = "USER".to_string();
    assert!(app_from_row(None, r).is_err());
    let mut r = old_row();
    r.api_level = -1;
    assert!(app_from_row(None, r).is_err());
    let mut r = old_row();
    r.api_level = 1 << 32;
    assert!(app_from_row(None, r).is_err());
    let mut r = old_row();
    r.id = "NO".to_string();
    assert!(app_from_row(None, r).is_err());
    let mut r = old_row();
    r.tags = ",a,,b,".to_string();
    assert_eq!(
        app_from_row(None, r).unwrap().tags,
        vec!["a".to_string(), "b".to_string()]
    );
}

#[test]
fn tx_rollback_con_error_inyectado() {
    assert_eq!(TxState::Active.on_drop(), Some(TxCommand::Rollback));
    assert_eq!(
        TxState::Active.after_commit(false).on_drop(),
        Some(TxCommand::Rollback)
    );
}

#[test]
fn tx_rollback_rescata_delete() {
    assert_eq!(TxState::Active.after_rollback().on_drop(), None);
}

#[test]
fn tx_commit_persiste() {
    assert_eq!(TxState::Active.after_commit(true).on_drop(), None);
}

#[test]
fn instancias_spawn_y_fin() {
    assert_eq!(instance_key(InstanceId::new(1)).unwrap(), 1);
    assert!(instance_key(InstanceId::new(u64::MAX)).is_err());
    assert!(finish_instance(1).is_ok());
    assert!(finish_instance(0).is_err());
    assert_eq!(Outcome::Exited { code: 0 }.as_sql(), "exit:0");
    assert_eq!(Outcome::Crashed.as_sql(), "crash");
}

fn audit_row(id: i64, app: &str, cap: Capability, ts: i64) -> AuditRow {
    AuditRow {
        id,
        app_id: app.to_string(),
        cap: cap.as_str().to_string(),
        ts,
        detail: "connect tcp:443".to_string(),
    }
}

fn trail() -> Vec<AuditRow> {
    vec![
        audit_row(1, "dev.arca.audit", Capability::NetClient, 100),
        audit_row(2, "dev.arca.audit", Capability::Notify, 200),
        audit_row(3, "dev.arca.otra", Capability::Notify, 150),
        audit_row(4, "dev.arca.audit", Capability::NetClient, 300),
        audit_row(5, "dev.arca.audit", Capability::Share, 200),
    ]
}

#[test]
fn audit_append_y_query_por_app_y_tiempo() {
    let a = app_id("dev.arca.audit");
    let otra = app_id("dev.arca.otra");
    let evs = query_audit(trail(), &a, ms(200)).unwrap();
    assert_eq!(evs.len(), 3);
    let tss: Vec<i64> = evs.iter().map(|e| e.ts.get()).collect();
    assert_eq!(tss, vec![200, 200, 300]);
    assert_eq!(evs[0].cap, Capability::Notify);
    assert_eq!(evs[1].cap, Capability::Share);
    assert_eq!(evs[2].cap, Capability::NetClient);
    assert_eq!(evs[2].detail, "connect tcp:443");

    assert_eq!(query_audit(trail(), &a, ms(0)).unwrap().len(), 4);
    assert_eq!(query_audit(trail(), &otra, ms(0)).unwrap().len(), 1);
}

#[test]
fn an_unknown_capability_in_the_trail_is_an_error() {
    let mut rows = trail();
    rows[0].cap = "nonsense".to_string();
    assert!(query_audit(rows, &app_id("dev.arca.audit"), ms(0)).is_err());
}

/// The commands of a batch of which insertion `fails` fails.
fn batch(n: usize, fails: Option<usize>) -> Vec<TxCommand> {
    let mut sent = Vec::new();
    let mut failed = false;
    while let Some(c) = batch_next(n, sent.len(), failed) {
        sent.push(c);
        if c == TxCommand::Rollback {
            break;
        }
        let inserts = sent.iter().filter(|x| **x == TxCommand::Insert).count();
        failed = c == TxCommand::Insert && fails == Some(inserts - 1);
    }
    sent
}

#[test]
fn audit_batch_vacio_ok() {
    assert!(batch(0, None).is_empty());
}

#[test]
fn a_batch_is_all_or_nothing() {
    assert_eq!(
        batch(2, None),
        vec![
            TxCommand::Begin,
            TxCommand::Insert,
            TxCommand::Insert,
            TxCommand::Commit
        ]
    );
    assert_eq!(
        batch(3, Some(1)),
        vec![
            TxCommand::Begin,
            TxCommand::Insert,
            TxCommand::Insert,
            TxCommand::Rollback
        ]
    );
}

#[test]
fn a_kept_grant_keeps_its_time() {
    let before: Vec<Grant> = vec![
        (Capability::NetClient.as_str().to_string(), 7),
        (Capability::Notify.as_str().to_string(), 8),
    ];
    let caps = [Capability::Notify, Capability::SystemStoreRead];
    assert_eq!(
        caps_after_upsert(before, &caps, ms(9)),
        vec![
            (Capability::Notify.as_str().to_string(), 8),
            (Capability::SystemStoreRead.as_str().to_string(), 9),
        ]
    );
}
