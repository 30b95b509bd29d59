//! A corpus of mutated packages, every one of which must be rejected.
use std::collections::BTreeMap;

use arca::sign::signer::sign_package;
use arca::sign::stream::ExpectedFiles;
use arca::sign::{
    keygen, package_digest, sign_digest, PackageSignature, RingOfTrust, StreamingVerifier,
    MANIFEST_PATH,
};
use arca::types::{ArcaError, Digest};
use sha2::Digest as _;

/// Deterministic random numbers (xorshift64*).
struct Rng(u64);

impl Rng {
    fn new(seed: u64) -> Self {
        Self(seed.max(1))
    }
    fn next(&mut self) -> u64 {
        let mut x = self.0;
        x ^= x >> 12;
        x ^= x << 25;
        x ^= x >> 27;
        self.0 = x;
        x.wrapping_mul(0x2545_F491_4F6C_DD1D)
    }
    fn below(&mut self, n: usize) -> usize {
        (self.next() % n as u64) as usize
    }
    fn byte(&mut self) -> u8 {
        (self.next() >> 32) as u8
    }
}

/// A package with a valid signature.
struct Corpus {
    files: Vec<(String, Vec<u8>)>,
    expected: BTreeMap<String, [u8; 32]>,
    manifest_sha: [u8; 32],
    ring: RingOfTrust,
    sig: [u8; 64],
}

fn sha256(c: &[u8]) -> [u8; 32] {
    let mut h = sha2::Sha256::new();
    sha2::Digest::update(&mut h, c);
    h.finalize().into()
}

fn corpus() -> Corpus {
    let mut rng = Rng::new(0x0A11_CE00);
    let manifest: Vec<u8> = b"[package]\nid = \"dev.arca.corpus\"\nversion = \"1.0.0\"\n".to_vec();
    let mut files: Vec<(String, Vec<u8>)> = vec![
        (MANIFEST_PATH.to_owned(), manifest),
        (
            "bin/wasm/app.wasm".to_owned(),
            (0..600).map(|i| (i * 7 % 251) as u8).collect(),
        ),
        (
            "bin/native-aarch64/app".to_owned(),
            (0..2000).map(|_| rng.byte()).collect(),
        ),
        (
            "assets/fonts/inter.ttf".to_owned(),
            (0..4000).map(|_| rng.byte()).collect(),
        ),
        (
            "assets/data/cfg.toml".to_owned(),
            b"level = 6\n[solid]\noff = true\n".to_vec(),
        ),
        (
            "icons/icon-192.png".to_owned(),
            (0..192).map(|_| rng.byte()).collect(),
        ),
        (
            "icons/icon-512.png".to_owned(),
            (0..512).map(|_| rng.byte()).collect(),
        ),
        (
            "meta/build.json".to_owned(),
            br#"{"wasm":"wamr-aot","egui":"0.32"}"#.to_vec(),
        ),
    ];
    for (i, (_, c)) in files.iter_mut().enumerate() {
        c.push(i as u8);
    }

    let mut expected = BTreeMap::new();
    let mut entries = Vec::new();
    let mut manifest_sha = None;
    for (p, c) in &files {
        if p == MANIFEST_PATH {
            manifest_sha = Some(Digest::of(c).0);
            continue;
        }
        let h = sha256(c);
        expected.insert(p.clone(), h);
        entries.push((p.as_str(), h));
    }
    let digest = package_digest(&entries, manifest_sha.expect("manifest en corpus"));
    let sk = keygen().expect("keygen");
    let vk = sk.verifying_key();
    let mut ring = RingOfTrust::empty();
    for _ in 0..2 {
        let k = keygen().expect("keygen").verifying_key();
        ring.push(k);
    }
    ring.push(vk);
    for _ in 0..2 {
        let k = keygen().expect("keygen").verifying_key();
        ring.push(k);
    }
    let sig = sign_digest(&digest, &sk);
    Corpus {
        expected,
        manifest_sha: manifest_sha.expect("manifest en corpus"),
        ring,
        sig,
        files,
    }
}

fn expected_files(m: &BTreeMap<String, [u8; 32]>) -> ExpectedFiles {
    let mut e = ExpectedFiles::new();
    for (p, h) in m {
        e.insert(p, *h);
    }
    e
}

/// The whole verification of some files, in chunks of 7 bytes.
fn verify_all(
    files: &[(String, Vec<u8>)],
    expected: &BTreeMap<String, [u8; 32]>,
    manifest_sha: [u8; 32],
    ring: &RingOfTrust,
    sig: [u8; 64],
) -> Result<(), ArcaError> {
    let mut v = StreamingVerifier::new(&expected_files(expected), manifest_sha, ring, sig);
    for (i, (p, c)) in files.iter().enumerate() {
        for chunk in c.chunks(7) {
            v.feed(p, chunk)?;
        }
        if i + 1 < files.len() {
            v.end_file(p)?;
        }
    }
    v.finish()
}

fn flip_byte(v: &mut [u8], idx: usize) {
    if idx < v.len() {
        v[idx] ^= 1 << (idx % 8);
    }
}

#[test]
fn control_paquete_bueno_verifica_ok() {
    let c = corpus();
    assert!(verify_all(&c.files, &c.expected, c.manifest_sha, &c.ring, c.sig).is_ok());
    let entries: Vec<(&str, [u8; 32])> = c
        .files
        .iter()
        .filter(|(p, _)| p != MANIFEST_PATH)
        .map(|(p, content)| (p.as_str(), sha256(content)))
        .collect();
    let d = package_digest(&entries, c.manifest_sha);
    assert!(c.ring.verify(&d, &c.sig).is_ok());
}

#[test]
fn mut_bit_flip_en_contenido_100pct_rechazado() {
    let c = corpus();
    let mut rng = Rng::new(0xB17F_11E0);
    let mut rechazadas = 0;
    for case in 0..120 {
        let mut files = c.files.clone();
        let fi = rng.below(files.len());
        let (_, content) = &mut files[fi];
        if content.is_empty() {
            continue;
        }
        let byte = rng.below(content.len());
        flip_byte(content, byte);
        let r = verify_all(&files, &c.expected, c.manifest_sha, &c.ring, c.sig);
        assert!(
            r.is_err(),
            "caso {case}: bit-flip aceptado (file {fi}, byte {byte})"
        );
        rechazadas += 1;
    }
    assert!(rechazadas >= 100, "mutaciones efectivas: {rechazadas}");
}

#[test]
fn mut_truncado_100pct_rechazado() {
    let c = corpus();
    let mut rng = Rng::new(0x713C_4700);
    for case in 0..15 {
        let mut files = c.files.clone();
        let fi = rng.below(files.len());
        let len = files[fi].1.len();
        let cut = rng.below(len);
        files[fi].1.truncate(cut);
        let r = verify_all(&files, &c.expected, c.manifest_sha, &c.ring, c.sig);
        assert!(
            r.is_err(),
            "caso {case}: truncado a {cut} aceptado (file {fi})"
        );
    }
}

#[test]
fn mut_extendido_100pct_rechazado() {
    let c = corpus();
    let mut rng = Rng::new(0xE37E_4000);
    for case in 0..15 {
        let mut files = c.files.clone();
        let fi = rng.below(files.len());
        let extra = 1 + rng.below(16);
        for _ in 0..extra {
            files[fi].1.push(rng.byte());
        }
        let r = verify_all(&files, &c.expected, c.manifest_sha, &c.ring, c.sig);
        assert!(
            r.is_err(),
            "caso {case}: +{extra} bytes aceptado (file {fi})"
        );
    }
}

#[test]
fn mut_swap_de_contenidos_100pct_rechazado() {
    let c = corpus();
    let mut rng = Rng::new(0x54A4_B000);
    for case in 0..15 {
        let mut files = c.files.clone();
        let a = rng.below(files.len());
        let mut b = rng.below(files.len());
        if b == a {
            b = (b + 1) % files.len();
        }
        let contenido_a = files[a].1.clone();
        files[a].1 = files[b].1.clone();
        files[b].1 = contenido_a;
        let r = verify_all(&files, &c.expected, c.manifest_sha, &c.ring, c.sig);
        assert!(
            r.is_err(),
            "caso {case}: swap de contenidos {a}<->{b} aceptado"
        );
    }
}

#[test]
fn mut_firma_100pct_rechazada() {
    let c = corpus();
    let mut rng = Rng::new(0x51A1_1100);
    for case in 0..15 {
        let mut sig = c.sig;
        let byte = rng.below(64);
        flip_byte(&mut sig, byte);
        let r = verify_all(&c.files, &c.expected, c.manifest_sha, &c.ring, sig);
        assert!(
            r.is_err(),
            "caso {case}: firma mutada aceptada (byte {byte})"
        );
    }
    let mut casos: Vec<(usize, [u8; 64])> = Vec::new();
    casos.push((100, [0u8; 64]));
    casos.push((101, [0xffu8; 64]));
    let mut halves = [0u8; 64];
    halves[..32].copy_from_slice(&c.sig[32..]);
    halves[32..].copy_from_slice(&c.sig[..32]);
    casos.push((102, halves));
    let mut high = c.sig;
    high[63] |= 0x80;
    casos.push((103, high));
    let mut low = c.sig;
    low[..32].fill(0);
    low[0] = 1;
    casos.push((104, low));
    let sk_otra = keygen().expect("keygen");
    let pk = sign_digest(&Digest::of(b"otro paquete"), &sk_otra);
    casos.push((105, pk));
    for (case, sig) in casos {
        let r = verify_all(&c.files, &c.expected, c.manifest_sha, &c.ring, sig);
        assert!(r.is_err(), "caso {case}: firma estructural aceptada");
    }
    let pkg_sig = sign_package(&Digest::of(b"d"), &keygen().expect("keygen"));
    let bytes = pkg_sig.to_bytes();
    assert!(PackageSignature::parse(&bytes[..105]).is_err());
    assert!(PackageSignature::parse(&[bytes.as_ref(), &[0u8]].concat()).is_err());
    assert!(PackageSignature::parse(&bytes).is_ok());
}

#[test]
fn mut_estructural_falta_sobra_duplicado_100pct_rechazado() {
    let c = corpus();
    for (i, _) in c.files.iter().enumerate() {
        let files: Vec<(String, Vec<u8>)> = c
            .files
            .iter()
            .enumerate()
            .filter(|(j, _)| *j != i)
            .map(|(_, f)| f.clone())
            .collect();
        let r = verify_all(&files, &c.expected, c.manifest_sha, &c.ring, c.sig);
        assert!(r.is_err(), "falta el archivo {i} y fue aceptado");
    }
    for extra in ["extra.txt", "bin/wasm/evil.wasm", "meta/signature.bin"] {
        let mut files = c.files.clone();
        files.push((extra.to_owned(), b"payload".to_vec()));
        let r = verify_all(&files, &c.expected, c.manifest_sha, &c.ring, c.sig);
        assert!(r.is_err(), "archivo extra {extra} aceptado");
    }
    for dup in [0usize, 2] {
        let mut v =
            StreamingVerifier::new(&expected_files(&c.expected), c.manifest_sha, &c.ring, c.sig);
        for (p, content) in &c.files {
            for chunk in content.chunks(9) {
                v.feed(p, chunk).expect("feed limpio");
            }
            v.end_file(p).expect("end_file limpio");
        }
        let r = v.feed(&c.files[dup].0, b"x");
        assert!(r.is_err(), "duplicado del archivo {dup} aceptado");
    }
    let mut v =
        StreamingVerifier::new(&expected_files(&c.expected), c.manifest_sha, &c.ring, c.sig);
    for (p, content) in &c.files {
        for chunk in content.chunks(9) {
            v.feed(p, chunk).expect("feed limpio");
        }
        v.end_file(p).expect("end_file limpio");
    }
    v.feed(MANIFEST_PATH, b"extra-final")
        .expect_err("manifest ya cerrado");
}

#[test]
fn mut_mapa_esperado_100pct_rechazado() {
    let c = corpus();
    let mut rng = Rng::new(0xE2E1_C7C7);
    for case in 0..15 {
        let mut expected = c.expected.clone();
        let keys: Vec<String> = expected.keys().cloned().collect();
        let k = rng.below(keys.len());
        let h = expected.get_mut(&keys[k]).expect("clave presente");
        flip_byte(h, rng.below(32));
        let r = verify_all(&c.files, &expected, c.manifest_sha, &c.ring, c.sig);
        assert!(r.is_err(), "caso {case}: mapa esperado mutado aceptado");
    }
}

#[test]
fn total_del_corpus() {
    let total = 120 + 15 + 15 + 15 + 15 + 10 + 8 + 3 + 2 + 1 + 15;
    assert!(total >= 200, "corpus insuficiente: {total}");
}
