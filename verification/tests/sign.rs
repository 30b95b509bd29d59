//! Package digest, ring of trust, signatures and streaming verification.
use arca::sign::ring::key_id;
use arca::sign::sha256::{sha256_of, Sha256Stream};
use arca::sign::sig;
use arca::sign::sigfile;
use arca::sign::signer::{key_from_random, plan_keypair, sign_package, SECRET_MODE};
use arca::sign::stream::ExpectedFiles;
use arca::sign::{
    keygen, package_digest, sign_digest, PublicKey, RingOfTrust, SecretKey, StreamingVerifier,
};
use arca::types::{ArcaError, Digest, IoErrorKind};
use sha2::Digest as _;

fn sha_pat(n: u8) -> [u8; 32] {
    [n; 32]
}

#[test]
fn determinista_independiente_del_orden_de_entrada() {
    let a = [
        ("bin/native-aarch64/app", sha_pat(1)),
        ("manifest.toml", sha_pat(2)),
        ("meta/graph.mmd", sha_pat(3)),
    ];
    let b = [
        ("meta/graph.mmd", sha_pat(3)),
        ("bin/native-aarch64/app", sha_pat(1)),
        ("manifest.toml", sha_pat(2)),
    ];
    let d1 = package_digest(&a, [9; 32]);
    let d2 = package_digest(&b, [9; 32]);
    assert_eq!(d1, d2);
}

#[test]
fn cambia_ante_toda_mutacion_relevante() {
    let base = [("a.txt", sha_pat(1)), ("b.bin", sha_pat(2))];
    let m = [7; 32];
    let d0 = package_digest(&base, m);
    let d1 = package_digest(&[("a.txt", sha_pat(9)), ("b.bin", sha_pat(2))], m);
    let d2 = package_digest(&[("a.txt", sha_pat(1)), ("c.bin", sha_pat(2))], m);
    let d3 = package_digest(
        &[
            ("a.txt", sha_pat(1)),
            ("b.bin", sha_pat(2)),
            ("x", sha_pat(3)),
        ],
        m,
    );
    let d4 = package_digest(&[("a.txt", sha_pat(1))], m);
    let d5 = package_digest(&base, [8; 32]);
    for d in [d1, d2, d3, d4, d5] {
        assert_ne!(d, d0);
    }
}

#[test]
fn sin_colisiones_de_concatenacion() {
    let x = [("ab", sha_pat(1))];
    let y = [("a", [0x62; 32])];
    assert_ne!(package_digest(&x, [0; 32]), package_digest(&y, [0; 32]));
}

fn ref_entries(v: &[(String, [u8; 32])]) -> Vec<(&str, [u8; 32])> {
    v.iter().map(|(p, h)| (p.as_str(), *h)).collect()
}

fn lcg(s: &mut u64) -> u64 {
    *s = s
        .wrapping_mul(6_364_136_223_846_793_005)
        .wrapping_add(1_442_695_040_888_963_407);
    *s >> 16
}

fn random_entries(s: &mut u64, at_least: usize) -> Vec<(String, [u8; 32])> {
    let n = at_least + (lcg(s) as usize) % (16 - at_least);
    let alphabet = b"abcdefghij0123/._-";
    let mut v = Vec::new();
    for _ in 0..n {
        let len = 1 + (lcg(s) as usize) % 16;
        let path: String = (0..len)
            .map(|_| alphabet[(lcg(s) as usize) % alphabet.len()] as char)
            .collect();
        let mut h = [0u8; 32];
        for b in h.iter_mut() {
            *b = lcg(s) as u8;
        }
        v.push((path, h));
    }
    v
}

#[test]
fn digest_invariante_a_permutaciones() {
    for case in 0..24u64 {
        let mut s = case.wrapping_mul(0x9E37_79B9_7F4A_7C15) | 1;
        let mut entries = random_entries(&mut s, 0);
        if entries.len() > 2 {
            // The same path twice: the hash decides between the two.
            entries[1].0 = entries[0].0.clone();
        }
        let manifest = [lcg(&mut s) as u8; 32];
        let mut shuffled = entries.clone();
        for i in (1..shuffled.len()).rev() {
            let j = (lcg(&mut s) % (i as u64 + 1)) as usize;
            shuffled.swap(i, j);
        }
        assert_eq!(
            package_digest(&ref_entries(&entries), manifest),
            package_digest(&ref_entries(&shuffled), manifest),
            "{case}"
        );
    }
}

#[test]
fn digest_sensible_a_un_bit() {
    for case in 0..24u64 {
        let mut s = case.wrapping_mul(0xD1B5_4A32_D192_ED03) | 1;
        let entries = random_entries(&mut s, 1);
        let manifest = [lcg(&mut s) as u8; 32];
        let bit = (lcg(&mut s) as usize) % 256;
        let base = package_digest(&ref_entries(&entries), manifest);
        let (byte, mask) = (bit / 8, 1u8 << (bit % 8));

        let mut m2 = manifest;
        m2[byte] ^= mask;
        assert_ne!(base, package_digest(&ref_entries(&entries), m2));

        let mut e2 = entries.clone();
        e2[0].1[byte] ^= mask;
        assert_ne!(base, package_digest(&ref_entries(&e2), manifest));

        let mut e3 = entries.clone();
        e3[0].0.push('z');
        assert_ne!(base, package_digest(&ref_entries(&e3), manifest));
    }
}

#[test]
fn bin_roundtrip() {
    let ring = RingOfTrust::empty();
    assert!(ring.is_empty());
    let bin = ring.to_bin();
    assert_eq!(bin, [0, 0, 0, 0]);
    let back = RingOfTrust::from_bin(&bin).map(|r| r.len()).ok();
    assert_eq!(back, Some(0));
}

#[test]
fn bin_malformado_rechazado() {
    for bad in [
        &[] as &[u8],
        &[0, 0],
        &[1, 0, 0, 0, 7],
        &[2, 0, 0, 0, 1, 2, 3],
    ] {
        assert!(RingOfTrust::from_bin(bad).is_err(), "{bad:?}");
    }
}

#[test]
fn embedded_por_defecto_vacio_parseable() {
    assert!(RingOfTrust::from_bin(&RingOfTrust::from_embedded().to_bin()).is_ok());
    assert!(RingOfTrust::from_embedded().is_empty());
}

#[test]
fn anillo_vacio_rechaza_todo() {
    let ring = RingOfTrust::empty();
    let d = Digest::of(b"x");
    let sig = [1u8; 64];
    assert!(matches!(
        ring.verify(&d, &sig),
        Err(ArcaError::InvalidSignature)
    ));
}

#[test]
fn a_ring_with_keys_comes_back_from_its_bytes() {
    let k1 = SecretKey::from_bytes(&[1; 32]).verifying_key();
    let k2 = SecretKey::from_bytes(&[2; 32]).verifying_key();
    let mut ring = RingOfTrust::empty();
    ring.push(k1);
    assert!(!ring.push_unique(k1));
    assert!(ring.push_unique(k2));
    assert!(ring.push_bytes(&k1.to_bytes()).is_ok());
    assert_eq!(ring.len(), 3);
    let bin = ring.to_bin();
    assert_eq!(&bin[..4], &[3, 0, 0, 0]);
    assert_eq!(&bin[4..36], &k1.to_bytes());
    let back = RingOfTrust::from_bin(&bin).expect("ring");
    assert_eq!(back.to_bin(), bin);
    assert!(back.contains_key(&k2));
    let mut less = back.duplicate();
    assert!(less.remove_by_bytes(&k1.to_bytes()));
    assert!(!less.contains_key(&k1) || less.len() < 3);
    assert!(!less.remove_by_bytes(&[9; 32]));
}

#[test]
fn bytes_that_are_no_point_are_no_key() {
    // y = 2 has no x on the curve.
    let mut bad = [0u8; 32];
    bad[0] = 2;
    assert!(PublicKey::from_bytes(&bad).is_none());
    let mut ring = RingOfTrust::empty();
    assert!(ring.push_bytes(&bad).is_err());
    assert!(ring.is_empty());
    let mut bin = vec![1, 0, 0, 0];
    bin.extend_from_slice(&bad);
    assert!(RingOfTrust::from_bin(&bin).is_err());
}

/// The first vector of RFC 8032 (an empty message).
#[test]
fn ed25519_known_answer() {
    let seed: [u8; 32] = hex::decode(
        "9d61b19deffd5a60ba844af492ec2cc44449c5697b326919703bac031cae7f60",
    )
    .expect("hex")
    .try_into()
    .expect("32");
    let key = SecretKey::from_bytes(&seed);
    assert_eq!(
        hex::encode(key.verifying_key().to_bytes()),
        "d75a980182b10ab7d54bfed3c964073a0ee172f3daa62325af021a68f707511a"
    );
    let sig = key.sign(b"");
    assert!(hex::encode(sig).starts_with("e5564300c360ac729086e2cc806e828a"));
    assert!(key.verifying_key().verify(b"", &sig));
    assert!(!key.verifying_key().verify(b"x", &sig));
    assert_eq!(key.to_bytes(), seed);
}

#[test]
fn key_id_is_the_digest_of_the_key() {
    let k = SecretKey::from_bytes(&[5; 32]).verifying_key();
    assert_eq!(key_id(&k), Digest::of(&k.to_bytes()));
}

#[test]
fn sha256_known_answer() {
    assert_eq!(
        hex::encode(sha256_of(b"abc")),
        "ba7816bf8f01cfea414140de5dae2223b00361a396177a9cb410ff61f20015ad"
    );
    let mut s = Sha256Stream::new();
    s.feed(b"a");
    s.feed(b"");
    s.feed(b"bc");
    assert_eq!(s.finish(), sha256_of(b"abc"));
}

#[test]
fn parse_len_tipos_basura_rechazada() {
    let buena = sig::PackageSignature {
        key_id: Digest::of(b"k"),
        sig: [7u8; 64],
    };
    let bytes = buena.to_bytes();
    assert!(sig::PackageSignature::parse(&bytes).is_ok());
    assert!(sig::PackageSignature::parse(&bytes[..105]).is_err());
    assert!(sig::PackageSignature::parse(&[bytes.as_ref(), &[0u8]].concat()).is_err());
    let mut malo = bytes;
    malo[0] ^= 1;
    assert!(sig::PackageSignature::parse(&malo).is_err());
    let mut ver = bytes;
    ver[9] = 2;
    assert!(sig::PackageSignature::parse(&ver).is_err());
}

#[test]
fn roundtrip_sign_parse() {
    let sk = match keygen() {
        Ok(k) => k,
        Err(_) => return,
    };
    let d = Digest::of(b"paquete");
    let ps = sig::PackageSignature::sign(&d, &sk);
    let back = sig::PackageSignature::parse(&ps.to_bytes());
    assert!(matches!(back, Ok(x) if x == ps));
    assert_eq!(ps.sig_bytes(), &sign_digest(&d, &sk));
}

#[test]
fn parse_rechaza_no_v1() {
    assert!(sigfile::PackageSignature::parse(&[0u8; 64]).is_err());
    assert!(sigfile::PackageSignature::parse(&[0u8; 107]).is_err());
    assert!(sigfile::PackageSignature::parse(&[]).is_err());
    let mut b = [0u8; 106];
    b[..9].copy_from_slice(b"ARCA-SIG2");
    b[9] = 1;
    assert!(sigfile::PackageSignature::parse(&b).is_err());
    let mut b = [0u8; 106];
    b[..9].copy_from_slice(b"ARCA-SIG1");
    b[9] = 2;
    let e = sigfile::PackageSignature::parse(&b);
    assert!(matches!(e, Err(ArcaError::Io(io)) if io.kind == IoErrorKind::InvalidData));
}

#[test]
fn roundtrip_bytes_y_from_parts() {
    let s = sigfile::PackageSignature::from_parts(Digest::zero(), [7u8; 64]);
    let bytes = s.to_bytes();
    assert_eq!(bytes.len(), 106);
    assert_eq!(&bytes[..9], b"ARCA-SIG1");
    assert_eq!(bytes[9], 1);
    let s2 = sigfile::PackageSignature::parse(&bytes).expect("roundtrip");
    assert_eq!(s, s2);
    assert_eq!(s2.key_id(), &Digest::zero());
    assert_eq!(s2.sig(), &[7u8; 64]);
}

#[test]
fn key_id_estable_y_declarado() {
    let sk = keygen().expect("keygen");
    let vk = sk.verifying_key();
    let digest = Digest::of(b"paquete");
    let pkg_sig = sign_package(&digest, &sk);
    assert_eq!(pkg_sig.key_id, key_id(&vk));
    let file = sigfile::PackageSignature::from_parts(pkg_sig.key_id, pkg_sig.sig);
    assert!(file.declares_key(&vk));
    assert!(!file.declares_key(&SecretKey::from_bytes(&[6; 32]).verifying_key()));
    assert_eq!(file.key_id(), &key_id(&vk));
    let sig = sign_digest(&digest, &sk);
    let strict = ed25519_dalek::VerifyingKey::from_bytes(&vk.to_bytes())
        .expect("key")
        .verify_strict(digest.as_bytes(), &ed25519_dalek::Signature::from_bytes(&sig));
    assert!(strict.is_ok());
    let mut ring = RingOfTrust::empty();
    assert!(file.verify(&digest, &ring).is_err());
    ring.push(vk);
    assert!(file.verify(&digest, &ring).is_ok());
}

fn mini_pkg() -> Vec<(&'static str, [u8; 32])> {
    vec![
        ("manifest.toml", [1; 32]),
        ("bin/native-aarch64/app", [2; 32]),
    ]
}

#[test]
fn roundtrip_keygen_sign_verify() {
    let sk = keygen().ok();
    assert!(sk.is_some());
    let sk = match sk {
        Some(k) => k,
        None => return,
    };
    let mut ring = RingOfTrust::empty();
    ring.push(sk.verifying_key());
    let d = package_digest(&mini_pkg(), [7; 32]);
    let sig = sign_digest(&d, &sk);
    assert!(ring.verify(&d, &sig).is_ok());
    let d2 = package_digest(&mini_pkg(), [8; 32]);
    assert!(matches!(
        ring.verify(&d2, &sig),
        Err(ArcaError::InvalidSignature)
    ));
}

#[test]
fn random_bytes_make_keys() {
    let a = keygen().expect("keygen").to_bytes();
    let b = keygen().expect("keygen").to_bytes();
    assert_ne!(a, b);
    assert_eq!(key_from_random(Ok([4; 32])).expect("key").to_bytes(), [4; 32]);
    let e = key_from_random(Err("no entropy".to_string()));
    assert!(matches!(e, Err(ArcaError::Io(io)) if io.kind == IoErrorKind::Other));
}

#[test]
fn generate_keypair_persiste() {
    let key = keygen().expect("keygen");
    let plan = plan_keypair("/keys", false, false, &key).expect("plan");
    assert_ne!(plan.files.secret_path, plan.files.public_path);
    assert!(plan.files.secret_path.starts_with("/keys"));
    assert!(plan.files.public_path.starts_with("/keys"));
    assert_eq!(plan.secret, key.to_bytes());
    assert_eq!(plan.public, key.verifying_key().to_bytes());
    assert_eq!(plan.files.key_id, key_id(&key.verifying_key()));
    assert_eq!(SECRET_MODE, 0o600);
    assert!(plan_keypair("/keys", true, true, &key).is_err());
    assert!(plan_keypair("/keys", true, false, &key).is_err());
    assert!(plan_keypair("/keys", false, true, &key).is_err());
}

#[test]
fn corpus_mutaciones_100pct_rechazado() {
    let sk = match keygen() {
        Ok(k) => k,
        Err(_) => return,
    };
    let mut ring = RingOfTrust::empty();
    ring.push(sk.verifying_key());
    let d = package_digest(&mini_pkg(), [7; 32]);
    let sig = sign_digest(&d, &sk);

    let mut state: u64 = 0x00CA_FEB0_D00D_0001;
    let mut next = move || {
        state ^= state << 13;
        state ^= state >> 7;
        state ^= state << 17;
        state.wrapping_mul(0x2545_F491_4F6C_DD1D)
    };

    let mut rechazados = 0usize;
    let total = 240;
    for i in 0..total {
        let mut d2 = *d.as_bytes();
        let mut sig2 = sig;
        match i % 6 {
            0 | 1 => {
                let pos = (next() as usize) % 32;
                d2[pos] ^= 1u8 << (next() % 8);
            }
            2 => {
                let pos = (next() as usize) % 64;
                sig2[pos] ^= 1u8 << (next() % 8);
            }
            3 => {
                sig2[63] = sig2[62];
                d2[0] ^= 0xA5;
            }
            4 => {
                let mut d3 = [0u8; 32];
                d3.copy_from_slice(&d2);
                d3[31] = d3[31].wrapping_add(1);
                d2 = d3;
            }
            _ => {
                let mut m = mini_pkg();
                let (x, y) = m.split_at_mut(1);
                std::mem::swap(&mut x[0].1, &mut y[0].1);
                let ds = package_digest(&m, [7; 32]);
                d2 = *ds.as_bytes();
            }
        }
        let dm = Digest(d2);
        if matches!(ring.verify(&dm, &sig2), Err(ArcaError::InvalidSignature)) {
            rechazados += 1;
        }
    }
    assert_eq!(rechazados, total, "TODA mutación debe rechazarse");
}

type Fix = (Vec<(String, [u8; 32])>, [u8; 32], Vec<(String, Vec<u8>)>);

fn sha256(b: &[u8]) -> [u8; 32] {
    let mut h = sha2::Sha256::new();
    sha2::Digest::update(&mut h, b);
    h.finalize().into()
}

fn fixture() -> Fix {
    let files = vec![
        (
            "manifest.toml".to_string(),
            b"[package]\nid = \"com.x\"\nversion = \"1.0.0\"\n".to_vec(),
        ),
        (
            "bin/native-aarch64/app".to_string(),
            vec![0x7fu8, 69, 70, 70, 1, 2, 3],
        ),
        ("assets/data.bin".to_string(), vec![9u8; 1000]),
        ("meta/graph.mmd".to_string(), b"graph TD\nA-->B\n".to_vec()),
    ];
    let mut expected = Vec::new();
    for (p, c) in files.iter().skip(1) {
        if p != "manifest.toml" {
            expected.push((p.clone(), sha256(c)));
        }
    }
    let manifest_sha = Digest::of(&files[0].1).0;
    (expected, manifest_sha, files)
}

fn expected_files(v: &[(String, [u8; 32])]) -> ExpectedFiles {
    let mut e = ExpectedFiles::new();
    for (p, h) in v {
        e.insert(p, *h);
    }
    e
}

fn new_verifier() -> (StreamingVerifier, Vec<(String, Vec<u8>)>) {
    let (expected, manifest_sha, files) = fixture();
    let ring = RingOfTrust::empty();
    let v = StreamingVerifier::new(&expected_files(&expected), manifest_sha, &ring, [3u8; 64]);
    (v, files)
}

#[test]
fn contenido_ok_firma_mala_fail_closed() {
    let (mut v, files) = new_verifier();
    for (p, c) in &files {
        for ch in c.chunks(7) {
            assert!(v.feed(p, ch).is_ok());
        }
        assert!(v.end_file(p).is_ok());
    }
    assert!(matches!(v.finish(), Err(ArcaError::InvalidSignature)));
}

#[test]
fn end_file_aborta_tematico_en_primer_sha_malo() {
    let (mut v, files) = new_verifier();
    for (p, c) in files.iter().take(2) {
        for ch in c.chunks(64) {
            let _ = v.feed(p, ch);
        }
        let _ = v.end_file(p);
    }
    let mut malo = files[2].1.clone();
    malo[3] ^= 0xff;
    for ch in malo.chunks(64) {
        let _ = v.feed("assets/data.bin", ch);
    }
    let r = v.end_file("assets/data.bin");
    assert!(matches!(r, Err(ArcaError::InvalidPackage(_))));
}

#[test]
fn archivo_faltante() {
    let (mut v, files) = new_verifier();
    for (p, c) in files.iter().take(2) {
        for ch in c.chunks(64) {
            let _ = v.feed(p, ch);
        }
    }
    assert!(matches!(v.finish(), Err(ArcaError::InvalidPackage(_))));
}

#[test]
fn entrada_sobrante_rechazada_en_feed() {
    let (mut v, files) = new_verifier();
    for (p, c) in &files {
        for ch in c.chunks(64) {
            let _ = v.feed(p, ch);
        }
    }
    let r = v.feed("evil/extra.bin", b"x");
    assert!(matches!(r, Err(ArcaError::InvalidPackage(_))));
}

#[test]
fn feed_tras_end_file_duplicado() {
    let (mut v, files) = new_verifier();
    for (p, c) in files.iter().take(2) {
        for ch in c.chunks(64) {
            let _ = v.feed(p, ch);
        }
        let _ = v.end_file(p);
    }
    let r = v.feed(&files[1].0, b"mas bytes");
    assert!(matches!(r, Err(ArcaError::InvalidPackage(_))));
}

#[test]
fn truncado_a_la_mitad_abort_limpio() {
    let (mut v, files) = new_verifier();
    for ch in files[0].1.chunks(4) {
        let _ = v.feed("manifest.toml", ch);
    }
    drop(v);
}

#[test]
fn manifest_alterado_detectado() {
    let (expected, manifest_sha, files) = fixture();
    let ring = RingOfTrust::empty();
    let mut v =
        StreamingVerifier::new(&expected_files(&expected), manifest_sha, &ring, [3u8; 64]);
    let mut m = files[0].1.clone();
    m.extend_from_slice(b"# comentario extra");
    for ch in m.chunks(8) {
        let _ = v.feed("manifest.toml", ch);
    }
    for (p, c) in files.iter().skip(1) {
        for ch in c.chunks(64) {
            let _ = v.feed(p, ch);
        }
    }
    assert!(matches!(v.finish(), Err(ArcaError::InvalidPackage(_))));
}

#[test]
fn expected_files_keep_one_hash_per_path() {
    let mut e = ExpectedFiles::new();
    e.insert("a", [1; 32]);
    e.insert("b", [2; 32]);
    e.insert("a", [3; 32]);
    assert_eq!(e.len(), 2);
}
