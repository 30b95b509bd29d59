//! Installing, updating, rolling back, sweeping and verifying.
use std::collections::BTreeSet;

use arca::installer::linked;
use arca::installer::opts::{
    InstallOpts, InstallOutcome, InstallPhase, InstallProgress, Phase,
};
use arca::installer::package::{
    all_paths, check_control, has_file, paths_to_extract, precheck_paths, to_listing, MemorySink,
    MEMORY_SINK_CAP,
};
use arca::installer::report::{
    change_detail, install_detail, rollback_detail, uninstall_detail, uninstall_linked,
    uninstall_staged, Installer, UninstallStep,
};
use arca::installer::staged;
use arca::installer::stages::{Checked, Listing, Moved, Prepared};
use arca::installer::tree::{version_dir_name, FsStep};
use arca::installer::verify::{
    check_hash, check_tree, check_version, registered_dir, verify_installed, walk_entry, Found,
};
use arca::pkg::{Artifact, EntryInfo, EntryKind, Manifest, Version};
use arca::sign::sha256::sha256_of;
use arca::sign::sig::PackageSignature;
use arca::sign::{
    package_digest, RingOfTrust, SecretKey, MANIFEST_DIGEST_PATH, MANIFEST_PATH, SIGNATURE_PATH,
};
use arca::store::model::InstallSource;
use arca::types::{AppId, ArcaError, Capability, Digest, Res};

fn app(id: &str) -> AppId {
    AppId::new(id).expect("AppId de test")
}

fn ver(s: &str) -> Version {
    Version::parse(s).expect("versión")
}

fn entry(path: &str, is_dir: bool, safe: bool) -> EntryInfo {
    EntryInfo {
        path: path.to_owned(),
        is_dir,
        safe_path: if safe { Some(path.to_owned()) } else { None },
    }
}

/// The directory of an application, as the steps change it.
#[derive(Debug, Default, PartialEq, Eq)]
struct Tree {
    dirs: BTreeSet<String>,
    trash: BTreeSet<String>,
    current: Option<String>,
}

impl Tree {
    fn apply(&mut self, steps: &[FsStep]) {
        for s in steps {
            match s {
                FsStep::Remove(n) => {
                    self.dirs.remove(n);
                }
                FsStep::Rename(a, b) => {
                    assert!(self.dirs.remove(a), "{a}");
                    self.dirs.insert(b.clone());
                }
                FsStep::Trash(n) => {
                    assert!(self.dirs.remove(n), "{n}");
                    self.trash.insert(n.clone());
                }
                FsStep::Untrash(n) => {
                    assert!(self.trash.remove(n), "{n}");
                    self.dirs.insert(n.clone());
                }
                FsStep::UntrashAs(n, m) => {
                    assert!(self.trash.remove(n), "{n}");
                    self.dirs.insert(m.clone());
                }
                FsStep::DropTrashed(n) => {
                    self.trash.remove(n);
                }
                FsStep::ClearTrash => self.trash.clear(),
                FsStep::Point(n) => self.current = Some(n.clone()),
            }
        }
    }
}

/// A package with a valid signature.
struct Fixture {
    manifest_bytes: Vec<u8>,
    bin: Vec<u8>,
    sig: Vec<u8>,
    control: Vec<u8>,
    id: String,
    version: String,
}

fn key() -> SecretKey {
    SecretKey::from_bytes(&[7; 32])
}

fn ring() -> RingOfTrust {
    let mut r = RingOfTrust::empty();
    r.push(key().verifying_key());
    r
}

const BIN: &str = "bin/native-aarch64/app";

fn fixture(id: &str, version: &str) -> Fixture {
    let manifest_bytes = format!("[package]\nid = \"{id}\"\nversion = \"{version}\"\n").into_bytes();
    let bin: Vec<u8> = (0..200u8).collect();
    let sha = sha256_of(&bin);
    let manifest_sha = Digest::of(&manifest_bytes);
    let digest = package_digest(&[(BIN, sha)], manifest_sha.0);
    Fixture {
        sig: PackageSignature::sign(&digest, &key()).to_bytes().to_vec(),
        control: format!("{}\n", manifest_sha.to_hex()).into_bytes(),
        manifest_bytes,
        bin,
        id: id.to_string(),
        version: version.to_string(),
    }
}

impl Fixture {
    fn manifest(&self) -> Manifest {
        Manifest {
            id: app(&self.id),
            name: "prueba".to_string(),
            version: ver(&self.version),
            min_host: ver("1.0.0"),
            api_level: 1,
            description: String::new(),
            tags: Vec::new(),
            caps: vec![Capability::Notify],
            artifacts: vec![Artifact {
                path: BIN.to_string(),
                sha256: sha256_of(&(0..200u8).collect::<Vec<u8>>()),
                aot_path: None,
            }],
        }
    }

    fn listing(&self) -> Listing {
        Listing::new(vec![
            entry(MANIFEST_PATH, false, true),
            entry("bin", true, true),
            entry(BIN, false, true),
            entry("assets/data/blob.bin", false, true),
            entry(SIGNATURE_PATH, false, true),
            entry(MANIFEST_DIGEST_PATH, false, true),
        ])
    }

    fn sink(&self) -> MemorySink {
        let mut s = MemorySink::new();
        s.write_entry(MANIFEST_PATH, self.manifest_bytes.clone())
            .expect("manifest");
        s.write_entry(SIGNATURE_PATH, self.sig.clone()).expect("sig");
        s.write_entry(MANIFEST_DIGEST_PATH, self.control.clone())
            .expect("control");
        s
    }

    fn check(&self) -> Res<Checked> {
        let l = self.listing();
        l.precheck()?;
        let announced = l.announce(&self.sink())?;
        assert_eq!(announced.manifest_bytes(), &self.manifest_bytes[..]);
        let mut x = announced.begin(self.manifest(), &ring());
        let paths: Vec<String> = x.wanted().clone();
        for p in &paths {
            let data: Vec<u8> = if p == BIN {
                self.bin.clone()
            } else {
                vec![1, 2, 3]
            };
            for c in data.chunks(9) {
                x.write(p, c)?;
            }
            x.end_file(p)?;
        }
        x.finish()
    }

    fn prepare(&self) -> Res<Prepared> {
        let checked = self.check()?;
        let there = vec![true; checked.artifacts().len()];
        checked.present(&there)
    }
}

fn install(tree: &mut Tree, f: &Fixture, registered: &Option<String>, down: bool) -> Res<Moved> {
    let p = f.prepare()?;
    assert_eq!(p.app(), &app(&f.id));
    let staging = linked::staging_name(42);
    let dir = version_dir_name(p.version().as_str());
    let new_there = tree.dirs.contains(&dir);
    let old_there = match registered {
        Some(v) => tree.dirs.contains(&version_dir_name(v)),
        None => false,
    };
    tree.dirs.insert(staging.clone());
    let (moved, steps) = match p.link(&staging, registered, down, new_there, old_there) {
        Ok(x) => x,
        Err(e) => {
            tree.dirs.remove(&staging);
            return Err(e);
        }
    };
    tree.apply(&steps);
    Ok(moved)
}

#[test]
fn precheck_rechaza_traversal() {
    let entries = vec![
        entry("manifest.toml", false, true),
        entry("../evil", false, false),
    ];
    assert!(matches!(
        precheck_paths(&entries),
        Err(ArcaError::InvalidPackage(_))
    ));
    assert!(precheck_paths(&entries[..1]).is_ok());
}

#[test]
fn listing_mapea_kinds() {
    let entries = vec![
        entry("manifest.toml", false, true),
        entry("bin", true, true),
    ];
    let l = to_listing(&entries);
    assert!(has_file(&l, "manifest.toml"));
    assert!(!has_file(&l, "bin"));
}

#[test]
fn opts_default_conservador() {
    let o = InstallOpts::default();
    assert!(!o.allow_downgrade);
    assert!(o.auto_grant_caps.is_none());
    assert!(o.keep_old);
    assert_eq!(o.source, InstallSource::User);
    let d = InstallOpts::dev();
    assert!(d.allow_downgrade);
    assert_eq!(d.source, InstallSource::Dev);
}

#[test]
fn outcome_accessors() {
    let id = app("dev.x.y");
    let o = InstallOutcome::Updated {
        app: id.clone(),
        from: ver("1.0.0"),
        to: ver("2.0.0"),
    };
    assert_eq!(o.app(), &id);
    assert_eq!(o.version(), &ver("2.0.0"));
}

#[test]
fn display_y_nombres() {
    assert_eq!(InstallPhase::Manifest.as_str(), "manifest");
    assert_eq!(InstallPhase::Extract.to_text(), "extract");
    assert_eq!(InstallPhase::Verify.as_str(), "verify");
    assert_eq!(InstallPhase::Commit.as_str(), "commit");
    let p = InstallProgress {
        phase: InstallPhase::Extract,
        percent: 50,
    };
    assert!(p.to_text().contains("50%"));
    assert!(!Phase::Open.to_text().is_empty());
}

#[test]
fn happy_path_completo() {
    let mut tree = Tree::default();
    let f = fixture("dev.arca.t1", "1.0.0");
    let moved = install(&mut tree, &f, &None, false).expect("install");
    assert_eq!(moved.to_register().id, app("dev.arca.t1"));
    match moved.linked() {
        InstallOutcome::Installed {
            app: app_id,
            version,
        } => {
            assert_eq!(app_id, app("dev.arca.t1"));
            assert_eq!(version.as_str(), "1.0.0");
        }
        other => panic!("esperaba Installed: {other:?}"),
    }
    assert_eq!(tree.current.as_deref(), Some("v1.0.0"));
    assert!(tree.dirs.contains("v1.0.0"));
    assert!(!tree.dirs.iter().any(|d| d.starts_with(".tmp-")));

    let inst = Installer::new("/files/apps", ring());
    assert_eq!(inst.root(), "/files/apps");
    assert_eq!(inst.app_dir(&app("dev.arca.t1")), "/files/apps/dev.arca.t1");
    let cur = inst
        .current_dir(&app("dev.arca.t1"), &Some("v1.0.0".to_string()))
        .expect("current");
    assert!(cur.ends_with("v1.0.0"));
    assert!(inst.current_dir(&app("dev.arca.t1"), &None).is_err());
    assert_eq!(inst.ring().len(), 1);

    let steps = uninstall_linked(&app("dev.arca.t1"), true).expect("uninstall");
    assert_eq!(steps[0], UninstallStep::Begin);
    assert!(matches!(
        uninstall_linked(&app("dev.arca.t1"), false),
        Err(ArcaError::NotFound(_))
    ));
}

#[test]
fn update_y_rollback() {
    let mut tree = Tree::default();
    let p1 = fixture("dev.arca.t2", "1.0.0");
    let p2 = fixture("dev.arca.t2", "1.1.0");
    let m = install(&mut tree, &p1, &None, false).expect("install");
    assert!(matches!(m.linked(), InstallOutcome::Installed { .. }));
    let m = install(&mut tree, &p2, &Some("1.0.0".to_string()), false).expect("update");
    match m.linked() {
        InstallOutcome::Updated { from, to, .. } => {
            assert_eq!(from.as_str(), "1.0.0");
            assert_eq!(to.as_str(), "1.1.0");
        }
        other => panic!("esperaba Updated: {other:?}"),
    }
    assert!(tree.trash.contains("v1.0.0"));
    assert_eq!(tree.current.as_deref(), Some("v1.1.0"));

    let v = linked::rollback_version(&Some(Some("v1.0.0".to_string()))).expect("rollback");
    assert_eq!(v.as_str(), "1.0.0");
    let steps = linked::rollback_plan(
        "v1.0.0",
        &linked::aside_name(43),
        &Some("v1.1.0".to_string()),
        &v,
    );
    tree.apply(&steps);
    assert_eq!(tree.current.as_deref(), Some("v1.0.0"));
    assert!(tree.trash.contains("v1.1.0"));
    assert!(tree.dirs.contains("v1.0.0"));

    assert!(matches!(
        linked::rollback_version(&None),
        Err(ArcaError::InvalidPackage(_))
    ));
    assert!(linked::rollback_version(&Some(None)).is_err());
    assert!(linked::rollback_version(&Some(Some("vx".to_string()))).is_err());
}

#[test]
fn downgrade_rechazado_y_permitido() {
    let mut tree = Tree::default();
    let old = fixture("dev.arca.t3", "1.0.0");
    let new = fixture("dev.arca.t3", "2.0.0");
    assert!(install(&mut tree, &new, &None, false).is_ok());
    let registered = Some("2.0.0".to_string());
    let r = install(&mut tree, &old, &registered, false);
    assert!(r.is_err(), "downgrade debe rechazarse");
    assert_eq!(tree.current.as_deref(), Some("v2.0.0"));
    let ok = install(&mut tree, &old, &registered, true);
    assert!(ok.is_ok());
    assert_eq!(tree.current.as_deref(), Some("v1.0.0"));
}

#[test]
fn corpus_malicioso_rechazado_y_limpio() {
    let mut f = fixture("dev.arca.m1", "1.0.0");
    let n = f.sig.len();
    for i in (n - 40..n - 4).step_by(3) {
        f.sig[i] ^= 0x5a;
    }
    assert!(matches!(f.prepare(), Err(ArcaError::InvalidSignature)));

    let mut f = fixture("dev.arca.m4", "1.0.0");
    f.bin[50] ^= 0xff;
    assert!(matches!(f.prepare(), Err(ArcaError::InvalidPackage(_))));

    let mut f = fixture("dev.arca.m5", "1.0.0");
    f.control[3] = if f.control[3] == b'0' { b'1' } else { b'0' };
    assert!(matches!(f.prepare(), Err(ArcaError::InvalidPackage(_))));

    let mut f = fixture("dev.arca.m6", "1.0.0");
    f.sig.truncate(64);
    assert!(f.prepare().is_err());
}

#[test]
fn missing_metadata_is_refused() {
    let f = fixture("dev.arca.m7", "1.0.0");
    let mut s = MemorySink::new();
    assert!(matches!(
        f.listing().announce(&s),
        Err(ArcaError::InvalidPackage(_))
    ));
    s.write_entry(MANIFEST_PATH, f.manifest_bytes.clone()).expect("w");
    assert!(matches!(
        f.listing().announce(&s),
        Err(ArcaError::InvalidPackage(_))
    ));
    assert!(matches!(
        f.listing().propose(&MemorySink::new()),
        Err(ArcaError::InvalidPackage("manifest.toml ausente"))
    ));
    let strict = |s: &MemorySink| f.listing().propose(s)?.announce_strict(s);
    assert!(matches!(
        strict(&s),
        Err(ArcaError::InvalidPackage("meta/signature.bin ausente"))
    ));
    s.write_entry(SIGNATURE_PATH, f.sig.clone()).expect("w");
    assert!(matches!(
        strict(&s),
        Err(ArcaError::InvalidPackage("meta/manifest.digest ausente"))
    ));
    s.write_entry(MANIFEST_DIGEST_PATH, f.control.clone()).expect("w");
    assert!(strict(&s).is_ok());
    assert!(f.listing().announce(&s).is_ok());
    assert_eq!(s.get(MANIFEST_PATH), Some(&f.manifest_bytes[..]));
    assert_eq!(s.get("none"), None);
}

#[test]
fn the_manifest_is_read_before_the_signature() {
    let mut f = fixture("dev.arca.m8", "1.0.0");
    f.sig.truncate(3);
    let p = f.listing().propose(&f.sink()).expect("manifest");
    assert_eq!(p.manifest_bytes(), &f.manifest_bytes[..]);
    assert!(p.announce_strict(&f.sink()).is_err());
}

#[test]
fn the_extraction_for_renaming_is_complete() {
    let f = fixture("dev.arca.m10", "1.0.0");
    let start = || {
        let p = f.listing().propose(&f.sink()).expect("manifest");
        p.announce_strict(&f.sink()).expect("meta")
    };
    let x = start()
        .begin_allowed(f.manifest(), &ring(), &None, false)
        .expect("allowed");
    assert_eq!(
        x.wanted(),
        &[
            MANIFEST_PATH,
            "bin",
            BIN,
            "assets/data/blob.bin",
            SIGNATURE_PATH,
            MANIFEST_DIGEST_PATH
        ]
    );
    let x = start().begin(f.manifest(), &ring());
    assert_eq!(x.wanted(), &[BIN, "assets/data/blob.bin"]);
    let newer = Some("2.0.0".to_string());
    assert!(start()
        .begin_allowed(f.manifest(), &ring(), &newer, false)
        .is_err());
}

#[test]
fn files_are_extracted_to_their_safe_paths() {
    let entries = vec![
        EntryInfo {
            path: "./bin/app".to_string(),
            is_dir: false,
            safe_path: Some("bin/app".to_string()),
        },
        EntryInfo {
            path: "../out".to_string(),
            is_dir: false,
            safe_path: None,
        },
        EntryInfo {
            path: "empty/".to_string(),
            is_dir: true,
            safe_path: Some("empty".to_string()),
        },
    ];
    assert_eq!(paths_to_extract(&entries), ["bin/app"]);
    assert_eq!(all_paths(&entries), ["bin/app", "empty"]);
    assert_eq!(to_listing(&entries)[0].path, "./bin/app");
}

#[test]
fn a_refused_installation_by_link() {
    let f = fixture("dev.arca.ref", "1.0.0");
    // A first one: the link is left dangling.
    let mut tree = Tree::default();
    let moved = install(&mut tree, &f, &None, false).expect("install");
    tree.apply(&moved.unlink(false));
    assert!(tree.dirs.is_empty());
    assert_eq!(tree.current.as_deref(), Some("v1.0.0"));
    // The same version again: it is gone.
    let reg = Some("1.0.0".to_string());
    let mut tree = Tree::default();
    tree.dirs.insert("v1.0.0".to_string());
    tree.dirs.insert("v0.9.0".to_string());
    tree.current = Some("v1.0.0".to_string());
    let moved = install(&mut tree, &f, &reg, false).expect("install");
    tree.apply(&moved.unlink(false));
    assert_eq!(tree.dirs.iter().collect::<Vec<_>>(), ["v0.9.0"]);
    assert_eq!(tree.current.as_deref(), Some("v1.0.0"));
}

#[test]
fn every_declared_file_has_to_be_looked_for() {
    let f = fixture("dev.arca.m9", "1.0.0");
    let absent = "post-verify: artefacto declarado ausente";
    for there in [vec![], vec![false], vec![true, true]] {
        assert!(matches!(
            f.check().expect("check").present(&there),
            Err(ArcaError::InvalidPackage(m)) if m == absent
        ));
    }
    assert!(f.check().expect("check").present(&vec![true]).is_ok());
}

#[test]
fn going_back_twice_by_link() {
    let mut tree = Tree::default();
    tree.dirs.insert("v1.1.0".to_string());
    tree.trash.insert("v1.0.0".to_string());
    tree.current = Some("v1.1.0".to_string());
    for (prev, active) in [("1.0.0", "1.1.0"), ("1.1.0", "1.0.0")] {
        let (p, a) = (version_dir_name(prev), version_dir_name(active));
        let v = linked::rollback_version(&Some(Some(p.clone()))).expect("version");
        assert_eq!(v.as_str(), prev);
        let steps = linked::rollback_plan(&p, &linked::aside_name(7), &Some(a.clone()), &v);
        tree.apply(&steps);
        assert_eq!(tree.current.as_deref(), Some(p.as_str()));
        assert!(tree.dirs.contains(&p) && !tree.dirs.contains(&a));
        assert!(tree.trash.contains(&a) && !tree.trash.contains(&p));
    }
}

#[test]
fn metadata_is_bounded() {
    let mut s = MemorySink::new();
    assert_eq!(
        s.write_entry("a", vec![0; MEMORY_SINK_CAP]).expect("fits"),
        MEMORY_SINK_CAP as u64
    );
    assert!(s.write_entry("b", vec![0; 1]).is_err());
}

#[test]
fn interrupcion_a_paquete_truncado() {
    let f = fixture("dev.arca.inta", "1.0.0");
    let announced = f.listing().announce(&f.sink()).expect("meta");
    let x = announced.begin(f.manifest(), &ring());
    assert!(matches!(x.finish(), Err(ArcaError::InvalidPackage(_))));
}

#[test]
fn interrupcion_b_io_a_mitad() {
    let f = fixture("dev.arca.intb", "1.0.0");
    let announced = f.listing().announce(&f.sink()).expect("meta");
    let mut x = announced.begin(f.manifest(), &ring());
    x.write(BIN, &f.bin[..100]).expect("half");
    assert!(matches!(x.end_file(BIN), Err(ArcaError::InvalidPackage(_))));
}

fn sweep(tree: &mut Tree, registered: Option<&str>) -> usize {
    let entries: Vec<(String, bool)> = tree.dirs.iter().map(|d| (d.clone(), true)).collect();
    let healthy = match &tree.current {
        Some(c) => tree.dirs.contains(c),
        None => false,
    };
    let facts = linked::SweepFacts {
        current: tree.current.clone(),
        healthy,
        trashed: tree.trash.iter().next().cloned(),
        registered: registered.map(|s| s.to_string()),
    };
    let steps = linked::sweep_plan(&entries, &facts);
    tree.apply(&steps);
    steps.len()
}

#[test]
fn interrupcion_c_antes_del_rename() {
    let f = fixture("dev.arca.intc", "1.0.0");
    assert!(f.prepare().is_ok());
    let mut tree = Tree::default();
    assert_eq!(sweep(&mut tree, None), 0);
    tree.dirs.insert(linked::staging_name(9));
    assert!(sweep(&mut tree, None) >= 1);
    assert!(tree.dirs.is_empty());
}

#[test]
fn interrupcion_d_tras_rename_antes_store() {
    let mut tree = Tree::default();
    tree.dirs.insert("v1.0.0".to_string());
    let n = sweep(&mut tree, None);
    assert!(n >= 1, "sweep debe limpiar la versión colgante");
    assert!(!tree.dirs.contains("v1.0.0"), "la versión colgante debía desaparecer");
    assert_eq!(sweep(&mut tree, None), 0);
}

#[test]
fn a_broken_link_is_mended() {
    let mut tree = Tree::default();
    tree.dirs.insert("v1.0.0".to_string());
    tree.current = Some("v9.9.9".to_string());
    sweep(&mut tree, Some("1.0.0"));
    assert_eq!(tree.current.as_deref(), Some("v1.0.0"));
    assert!(tree.dirs.contains("v1.0.0"));
}

#[test]
fn a_failed_registration_is_undone() {
    let mut tree = Tree::default();
    let p1 = fixture("dev.arca.rev", "1.0.0");
    let p2 = fixture("dev.arca.rev", "2.0.0");
    install(&mut tree, &p1, &None, false).expect("install");
    let m = install(&mut tree, &p2, &Some("1.0.0".to_string()), false).expect("update");
    let steps = m.unlink(true);
    tree.apply(&steps);
    assert!(tree.dirs.contains("v1.0.0"));
    assert!(!tree.dirs.contains("v2.0.0"));
    assert_eq!(tree.current.as_deref(), Some("v1.0.0"));
}

#[test]
fn sweep_sin_apps_es_cero() {
    assert_eq!(sweep(&mut Tree::default(), None), 0);
    assert!(staged::sweep_app(&Vec::new(), "v1.0.0", false).is_empty());
}

#[test]
fn sweep_elimina_directorio_basura_sin_appid() {
    let r = staged::sweep_entry("basura!!", true, &None).expect("sweep");
    assert_eq!(r, staged::SweepEntry::RemoveTree);
    let r = staged::sweep_entry("basura.txt", false, &None).expect("sweep");
    assert_eq!(r, staged::SweepEntry::Ignore);
    let r = staged::sweep_entry("dev.arca.x", true, &Some("1.0.0".to_string())).expect("sweep");
    assert!(matches!(r, staged::SweepEntry::Sweep(_)));
}

#[test]
fn a_crashed_update_by_renaming_is_repaired() {
    // The old version went to the trash, the new one did not arrive.
    let mut tree = Tree::default();
    tree.dirs.insert(".staging-7".to_string());
    tree.trash.insert("v1.0.0".to_string());
    let names: Vec<String> = tree.dirs.iter().cloned().collect();
    let steps = staged::sweep_app(&names, "v1.0.0", true);
    tree.apply(&steps);
    assert!(tree.dirs.contains("v1.0.0"));
    assert!(!tree.dirs.contains(".staging-7"));
    let names: Vec<String> = tree.dirs.iter().cloned().collect();
    let again = staged::sweep_app(&names, "v1.0.0", tree.trash.contains("v1.0.0"));
    assert!(again.is_empty());
}

#[test]
fn update_by_renaming() {
    let mut tree = Tree::default();
    tree.dirs.insert("v1.0.0".to_string());
    tree.dirs.insert(".staging-1".to_string());
    let f = fixture("dev.arca.ren", "1.1.0");
    let c = f.check().expect("check");
    let (moved, steps) = c.rename(".staging-1", &Some(ver("1.0.0")), true);
    tree.apply(&steps);
    assert!(tree.dirs.contains("v1.1.0"));
    assert!(tree.trash.contains("v1.0.0"));
    let mut undone = Tree {
        dirs: tree.dirs.clone(),
        trash: tree.trash.clone(),
        current: None,
    };
    undone.apply(&moved.undo_rename(true));
    assert!(undone.dirs.contains("v1.0.0"));
    assert!(!undone.dirs.contains("v1.1.0"));
    assert!(matches!(moved.renamed(), InstallOutcome::Updated { .. }));
    assert!(staged::after_commit(true).is_empty());
    tree.apply(&staged::after_commit(false));
    assert!(tree.trash.is_empty());
}

#[test]
fn rollback_by_renaming_and_back() {
    let mut tree = Tree::default();
    tree.dirs.insert("v1.1.0".to_string());
    tree.trash.insert("v1.0.0".to_string());
    let trash: Vec<String> = tree.trash.iter().cloned().collect();
    let (name, v) = staged::rollback_target(&trash, "v1.1.0").expect("target");
    assert_eq!((name.as_str(), v.as_str()), ("v1.0.0", "1.0.0"));
    tree.apply(&staged::rollback_plan("v1.1.0", "v1.0.0", true, false));
    assert!(tree.dirs.contains("v1.0.0") && tree.trash.contains("v1.1.0"));
    tree.apply(&staged::rollback_plan("v1.0.0", "v1.1.0", true, false));
    assert!(tree.dirs.contains("v1.1.0") && tree.trash.contains("v1.0.0"));
    assert!(staged::rollback_target(&Vec::new(), "v1.1.0").is_err());
}

#[test]
fn policy_by_semantic_version() {
    let reg = Some("1.10.0".to_string());
    assert!(staged::check_policy(&reg, &ver("1.9.0"), false).is_err());
    assert!(staged::check_policy(&reg, &ver("1.9.0"), true).is_ok());
    assert!(staged::check_policy(&reg, &ver("1.11.0"), false).is_ok());
    assert!(staged::check_policy(&None, &ver("0.0.1"), false).is_ok());
    assert!(staged::parse_version("no").is_err());
    assert!(ver("1.9.0").is_before(&ver("1.10.0")));
    assert!(ver("1.0.0-rc.1").is_before(&ver("1.0.0")));
    assert!(!ver("1.0.0").is_before(&ver("1.0.0")));
    assert!(Version::parse("1.0").is_none());
    assert_eq!(linked::registered_version(&Some("x".to_string())), None);
}

fn artifact() -> Artifact {
    Artifact {
        path: BIN.to_string(),
        sha256: sha256_of(b"bin"),
        aot_path: Some("bin/app.aot".to_string()),
    }
}

#[test]
fn verify_installed_detecta_tamper() {
    let good = Found {
        there: true,
        sha256: sha256_of(b"bin"),
        aot_there: true,
    };
    assert!(verify_installed(&vec![artifact()], &vec![good]).is_ok());
    let bad = Found {
        sha256: sha256_of(b"bin!"),
        ..good
    };
    let r = verify_installed(&vec![artifact()], &vec![bad]);
    assert!(matches!(r, Err(ArcaError::InvalidPackage(_))), "{r:?}");
    let gone = Found {
        there: false,
        ..good
    };
    assert!(verify_installed(&vec![artifact()], &vec![gone]).is_err());
    let no_aot = Found {
        aot_there: false,
        ..good
    };
    assert!(verify_installed(&vec![artifact()], &vec![no_aot]).is_err());
    assert!(check_hash(&artifact(), &sha256_of(b"bin")).is_ok());
    assert!(check_hash(&artifact(), &sha256_of(b"x")).is_err());
    assert!(check_tree(true).is_ok());
    assert!(check_tree(false).is_err());
    assert!(check_version(&ver("1.0.0"), "1.0.0").is_ok());
    assert!(check_version(&ver("1.0.0"), "1.0.1").is_err());
    let id = app("dev.arca.tamp");
    assert_eq!(
        registered_dir(&id, &Some("1.0.0".to_string())).expect("dir"),
        "v1.0.0"
    );
    assert!(matches!(
        registered_dir(&id, &None),
        Err(ArcaError::NotFound(_))
    ));
}

#[test]
fn walk_tree_estructura() {
    let e = walk_entry("", "manifest.toml", EntryKind::File).expect("file");
    assert_eq!(e.path, "manifest.toml");
    let e = walk_entry("bin/native-aarch64", "app", EntryKind::File).expect("file");
    assert_eq!(e.path, "bin/native-aarch64/app");
    let list = vec![
        walk_entry("", "bin", EntryKind::Dir).expect("dir"),
        walk_entry("meta", "graph.mmd", EntryKind::File).expect("file"),
    ];
    assert!(has_file(&list, "meta/graph.mmd"));
    assert!(!has_file(&list, "bin"));
}

#[test]
fn walk_tree_rechaza_symlink() {
    let err = walk_entry("bin", "app", EntryKind::Symlink).expect_err("symlink");
    assert!(matches!(err, ArcaError::InvalidPackage(_)));
}

#[test]
fn sha256_streaming_igual_a_directo() {
    let data: Vec<u8> = (0..300_000u32).map(|i| (i % 251) as u8).collect();
    let mut s = arca::sign::sha256::Sha256Stream::new();
    for c in data.chunks(65536) {
        s.feed(c);
    }
    assert_eq!(s.finish(), sha256_of(&data));
}

#[test]
fn metadata_is_not_extracted_twice() {
    let paths = paths_to_extract(&[
        entry(MANIFEST_PATH, false, true),
        entry("bin", true, true),
        entry(BIN, false, true),
    ]);
    assert!(paths.contains(&BIN.to_string()));
    assert!(!paths.contains(&"bin".to_string()));
}

#[test]
fn control_digest_is_read_in_either_case() {
    let sha = Digest::of(b"m");
    assert!(check_control(sha.to_hex().to_uppercase().as_bytes(), &sha).is_ok());
    assert!(check_control(format!(" {}\n", sha.to_hex()).as_bytes(), &sha).is_ok());
    assert!(check_control(b"zz", &sha).is_err());
    assert!(check_control(&[0xff, 0xfe], &sha).is_err());
    assert!(check_control(Digest::of(b"n").to_hex().as_bytes(), &sha).is_err());
}

#[test]
fn audit_texts() {
    assert_eq!(install_detail("1.0.0", InstallSource::Dev), "install v1.0.0 from dev");
    assert_eq!(change_detail(&None, "1.0.0"), "install v1.0.0");
    assert_eq!(
        change_detail(&Some("1.0.0".to_string()), "1.1.0"),
        "update v1.0.0 → v1.1.0"
    );
    assert!(rollback_detail(&Some("1.1.0".to_string()), "1.0.0").contains("1.0.0"));
    assert!(uninstall_detail(&Some("1.0.0".to_string())).contains("1.0.0"));
    let steps = uninstall_staged(&app("dev.arca.t1"), true, true).expect("steps");
    let at = |s: UninstallStep| steps.iter().position(|x| *x == s).expect("step");
    assert!(at(UninstallStep::Commit) < at(UninstallStep::RemoveTree));
}
