//! Identities, capabilities, digests, errors and protocol versions.
use arca::types::time::mono_ns;
use arca::types::{
    proto_version, AppId, ArcaError, Capability, Digest, InstanceId, IoError, ProtoVersion, Res,
    SessionId, WinId,
};

#[test]
fn roundtrip_str() {
    for c in Capability::all() {
        assert_eq!(Capability::from_name(c.as_str()), Some(c), "{c:?}");
    }
    assert!(Capability::from_name("NET-CLIENT").is_none());
    assert!(Capability::from_name("").is_none());
    assert!(Capability::from_name("nonsense").is_none());
}

#[test]
fn indices_y_count_consistentes() {
    assert_eq!(Capability::count(), Capability::all().len());
    for (i, c) in Capability::all().iter().enumerate() {
        assert_eq!(c.index(), i as u32);
    }
}

#[test]
fn capability_names() {
    let names: Vec<String> = Capability::all().iter().map(|c| c.to_text()).collect();
    assert_eq!(names[0], "net-client");
    assert_eq!(names[10], "background-audio");
    assert_eq!(Capability::FsVault.as_str(), "fs-vault");
}

#[test]
fn hex_idempotente() {
    let d = Digest::of(b"payload de arca");
    let h1 = d.to_hex();
    let h2 = Digest::from_hex(&h1).map(|x| x.to_hex()).ok();
    assert_eq!(h2.as_deref(), Some(h1.as_str()));
    assert_eq!(h1.len(), 64);
    assert!(h1
        .chars()
        .all(|c| c.is_ascii_hexdigit() && !c.is_ascii_uppercase()));
}

#[test]
fn from_hex_rechaza_basura() {
    let bad: Vec<String> = [
        "".to_string(),
        "abcd".to_string(),
        "z".repeat(64),
        "0".repeat(63),
    ]
    .to_vec();
    for s in &bad {
        assert!(Digest::from_hex(s).is_err(), "{s:?}");
    }
}

#[test]
fn streaming_igual_a_of() {
    let data = vec![7u8; 150_000];
    let a = Digest::of(&data);
    let chunks: Vec<Vec<u8>> = data.chunks(64 * 1024).map(|c| c.to_vec()).collect();
    assert_eq!(Digest::of_chunks(&chunks), a);
}

#[test]
fn zero_y_debug() {
    assert!(Digest::zero().is_zero());
    assert!(!Digest::of(b"x").is_zero());
    assert!(Digest::zero().short_text().starts_with("b3:"));
}

/// The published BLAKE3 value of the empty input.
#[test]
fn digest_of_nothing_is_the_published_value() {
    assert_eq!(
        Digest::of(b"").to_hex(),
        "af1349b9f5f9a1a6a0404dea36dcc9499bcb25c9adc112b7cc9a93cae41f3262"
    );
    assert_eq!(Digest::of(b"").short_text(), "b3:af1349b9");
    assert_eq!(Digest::of_chunks(&[]), Digest::of(b""));
}

#[test]
fn hex_is_read_in_either_case() {
    let d = Digest::of(b"caso");
    let upper = d.to_hex().to_uppercase();
    assert_eq!(Digest::from_hex(&upper).expect("hex"), d);
    assert_eq!(Digest::from_hex(&"0f".repeat(32)).expect("hex"), Digest([15; 32]));
}

#[test]
fn error_messages_son_estables() {
    if let Ok(id) = AppId::new("com.x.y") {
        let e = ArcaError::NotFound(id);
        assert!(e.to_text().contains("com.x.y"));
    }
    let e = ArcaError::FrameOverflow { bytes: 10, limit: 5 };
    assert_eq!(e.to_text(), "frame de 10 B excede el límite de 5 B");
    let e = ArcaError::Internal("boom");
    assert!(e.to_text().contains("boom"));
}

#[test]
fn every_error_has_its_text() {
    let id = AppId::new("com.x.y").expect("id");
    assert_eq!(ArcaError::NotFound(id).to_text(), "app no encontrada: com.x.y");
    assert_eq!(
        ArcaError::PermissionDenied { cap: Capability::Notify }.to_text(),
        "capability denegada: notify"
    );
    assert_eq!(
        ArcaError::ProtocolMismatch {
            have: ProtoVersion::new(1, 0),
            want: ProtoVersion::new(2, 13),
        }
        .to_text(),
        "protocolo incompatible: local 1.0, remoto 2.13"
    );
    assert_eq!(ArcaError::InvalidSignature.to_text(), "firma inválida");
    assert_eq!(ArcaError::InvalidPackage("x").to_text(), "paquete inválido: x");
    assert_eq!(ArcaError::InvalidFrame("y").to_text(), "trama AIPC inválida: y");
    assert_eq!(ArcaError::Io(IoError::other("disk")).to_text(), "error de E/S: disk");
    assert_eq!(ArcaError::Internal("z").to_text(), "error interno: z");
}

#[test]
fn io_from_fn() {
    fn falla() -> Res<()> {
        Err(ArcaError::from(IoError::other("disk")))?;
        Ok(())
    }
    assert!(matches!(falla(), Err(ArcaError::Io(_))));
}

#[test]
fn app_id_table() {
    let mut ok: Vec<String> = [
        "abc",
        "a.b",
        "com.example.app",
        "dev.arca.home",
        "x9z",
        "123",
        "a.b.c.d.e.f",
        "app1.app2",
        "abc.",
        ".abc",
        "a..b",
        "com.exa.mple",
        "0.0.0",
        "aaa",
        "a.b.c",
        "com.x.y.z.w.v.u.t.s",
        "q.r",
        "com..",
    ]
    .into_iter()
    .map(String::from)
    .collect();
    ok.push("z".repeat(64));
    for s in &ok {
        assert!(AppId::new(s).is_ok(), "debía ser válido: {s}");
    }
    let mut bad: Vec<String> = [
        "",
        "a",
        "ab",
        "AB",
        "Abc",
        "a-b",
        "a b",
        "a_b",
        "app!",
        "com.\u{00e9}xito",
        "com.-x",
        "\u{4e2d}\u{6587}",
        "WITH-DASH",
        "a\tb",
        "a\nb",
        "com/app",
        "com:app",
        "com;app",
        "x y",
        "COM.EXAMPLE",
        "\u{1f600}.app",
        "a.b c",
        "a\t",
    ]
    .into_iter()
    .map(String::from)
    .collect();
    bad.push("a".repeat(65));
    bad.push("b".repeat(100));
    for s in &bad {
        assert!(AppId::new(s).is_err(), "debía ser inválido: {s:?}");
    }
    assert!(ok.len() + bad.len() >= 30, "tabla mínima de 30 casos");
}

#[test]
fn app_id_errors_say_what_is_wrong() {
    assert!(matches!(
        AppId::new("ab"),
        Err(ArcaError::Internal("AppId: longitud debe ser 3..=64"))
    ));
    assert!(matches!(
        AppId::new("a-b"),
        Err(ArcaError::Internal("AppId: solo [a-z0-9.]"))
    ));
    let id = AppId::new("com.example.app").expect("id");
    assert_eq!(id.clone(), id);
    assert_eq!(id.clone().as_str(), "com.example.app");
}

#[test]
fn ids_display() {
    let id = AppId::new("com.example.app");
    let s = id.map(|x| x.to_text()).map_err(|_| ()).ok();
    assert_eq!(s.as_deref(), Some("com.example.app"));
    assert_eq!(InstanceId::new(7).to_text(), "inst:7");
    assert_eq!(WinId::new(3).to_text(), "win:3");
    assert_eq!(SessionId::zero().to_text(), "0".repeat(32));
}

#[test]
fn instance_ordenable() {
    assert!(InstanceId::new(2) > InstanceId::new(1));
    assert_eq!(InstanceId::first(), InstanceId::new(1));
}

#[test]
fn session_text_is_hexadecimal() {
    let s = SessionId::from_bytes([0xab; 16]);
    assert_eq!(s.to_text(), "ab".repeat(16));
    assert_eq!(s.as_bytes(), &[0xab; 16]);
    assert_eq!(WinId::none().get(), 0);
}

#[test]
fn compatibilidad_misma_major_minor_le() {
    let casos = [
        (ProtoVersion::new(1, 0), ProtoVersion::new(1, 0), true),
        (ProtoVersion::new(1, 2), ProtoVersion::new(1, 0), true),
        (ProtoVersion::new(1, 0), ProtoVersion::new(1, 2), false),
        (ProtoVersion::new(2, 0), ProtoVersion::new(1, 9), false),
        (ProtoVersion::new(1, 9), ProtoVersion::new(2, 0), false),
        (ProtoVersion::new(0, 1), ProtoVersion::new(0, 1), true),
    ];
    for (have, want, exp) in casos {
        assert_eq!(have.is_compatible(want), exp, "{have:?} vs {want:?}");
    }
}

#[test]
fn negotiate_toma_el_menor() {
    let a = ProtoVersion::new(1, 3);
    let b = ProtoVersion::new(1, 5);
    assert_eq!(a.negotiate(b), Some(ProtoVersion::new(1, 3)));
    assert_eq!(b.negotiate(a), Some(ProtoVersion::new(1, 3)));
    assert_eq!(a.negotiate(ProtoVersion::new(2, 0)), None);
}

#[test]
fn wire_roundtrip() {
    for (maj, min) in [(0u8, 0u8), (1, 0), (1, 7), (2, 255), (255, 255)] {
        let v = ProtoVersion::new(maj, min);
        assert_eq!(ProtoVersion::from_wire(v.to_wire()), v, "{v:?}");
    }
    assert_eq!(ProtoVersion::new(1, 0).to_wire(), 0x0100);
}

#[test]
fn ord_total() {
    let mut v = [
        ProtoVersion::new(1, 2),
        ProtoVersion::new(0, 9),
        ProtoVersion::new(1, 10),
    ];
    v.sort();
    assert_eq!(v[0], ProtoVersion::new(0, 9));
    assert_eq!(v[2], ProtoVersion::new(1, 10));
}

#[test]
fn current_protocol_is_one_zero() {
    assert_eq!(proto_version(), ProtoVersion::new(1, 0));
    assert_eq!(proto_version().to_text(), "1.0");
    assert!(ProtoVersion::new(1, 2) < ProtoVersion::new(1, 10));
}

#[test]
fn monotonic_nanoseconds() {
    assert_eq!(mono_ns(2, 5), 2_000_000_005);
    assert_eq!(mono_ns(-1, 5), 5);
    assert_eq!(mono_ns(3, -7), 3_000_000_000);
}
