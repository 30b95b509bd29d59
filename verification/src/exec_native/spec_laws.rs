//! What holds of launch blobs as a whole: reading undoes writing.
use vstd::prelude::*;
use vstd::utf8::*;

use crate::bytes::{
    le_bytes, le_value, lemma_le_round_trip, lemma_le_value_bytes, lemma_pow256_values,
};
use crate::exec_native::spec::{
    crc32, env_error, env_pair_error, first_pair_error, launch_body, launch_bytes, launch_header,
    launch_parse, magic, pairs_bytes, str_bytes, take_pairs, take_str, take_tail, EnvPair,
    LaunchView, VERSION,
};
use crate::types::error::ErrorView;

verus! {

/// A string whose length fits in 16 bits.
pub open spec fn str_fits(s: Seq<char>) -> bool {
    encode_utf8(s).len() < 0x1_0000
}

/// A launch spec that a blob can hold without loss.
pub open spec fn encodable(v: LaunchView) -> bool {
    &&& str_fits(v.app_path)
    &&& str_fits(v.app_dir)
    &&& str_fits(v.vault_dir)
    &&& str_fits(v.app_id)
    &&& v.artifact.len() == 32
    &&& env_error(v.env_extra) is None
}

proof fn lemma_take_str_of(body: Seq<u8>, p: int, s: Seq<char>)
    requires
        0 <= p,
        str_fits(s),
        p + str_bytes(s).len() <= body.len(),
        body.subrange(p, p + str_bytes(s).len()) == str_bytes(s),
    ensures
        take_str(body, p) == Ok::<(Seq<char>, int), ErrorView>((s, p + str_bytes(s).len())),
        str_bytes(s).len() >= 2,
{
    reveal(str_bytes);
    reveal(take_str);
    let e = encode_utf8(s);
    let b = str_bytes(s);
    lemma_pow256_values();
    lemma_le_round_trip(e.len(), 2);
    assert(body.subrange(p, p + 2) =~= le_bytes(e.len(), 2)) by {
        assert forall|i: int| 0 <= i < 2 implies body.subrange(p, p + 2)[i] == le_bytes(
            e.len(),
            2,
        )[i] by {
            assert(body.subrange(p, p + b.len())[i] == b[i]);
        }
    }
    assert(body.subrange(p + 2, p + 2 + e.len()) =~= e) by {
        assert forall|i: int| 0 <= i < e.len() implies body.subrange(p + 2, p + 2 + e.len())[i]
            == e[i] by {
            assert(body.subrange(p, p + b.len())[i + 2] == b[i + 2]);
        }
    }
    encode_utf8_valid_utf8(s);
    encode_utf8_decode_utf8(s);
}

proof fn lemma_pairs_prefix(pairs: Seq<EnvPair>, i: nat, n: nat)
    requires
        i <= n <= pairs.len(),
    ensures
        pairs_bytes(pairs, i).is_prefix_of(pairs_bytes(pairs, n)),
    decreases n,
{
    if i < n {
        lemma_pairs_prefix(pairs, i, (n - 1) as nat);
        let a = pairs_bytes(pairs, i);
        let b = pairs_bytes(pairs, (n - 1) as nat);
        let c = pairs_bytes(pairs, n);
        assert(c.subrange(0, b.len() as int) =~= b);
        assert(c.subrange(0, a.len() as int) =~= b.subrange(0, a.len() as int));
    } else {
        let a = pairs_bytes(pairs, i);
        assert(a.subrange(0, a.len() as int) =~= a);
    }
}

proof fn lemma_take_pairs_of(body: Seq<u8>, start: int, pairs: Seq<EnvPair>, i: nat)
    requires
        0 <= start,
        i <= pairs.len(),
        start + pairs_bytes(pairs, pairs.len()).len() <= body.len(),
        body.subrange(start, start + pairs_bytes(pairs, pairs.len()).len()) == pairs_bytes(
            pairs,
            pairs.len(),
        ),
        forall|k: int|
            0 <= k < pairs.len() ==> str_fits((#[trigger] pairs[k]).0) && str_fits(pairs[k].1),
    ensures
        take_pairs(
            body,
            start + pairs_bytes(pairs, i).len(),
            (pairs.len() - i) as nat,
            pairs.take(i as int),
        ) == Ok::<(Seq<EnvPair>, int), ErrorView>(
            (pairs, start + pairs_bytes(pairs, pairs.len()).len()),
        ),
    decreases pairs.len() - i,
{
    let n = pairs.len();
    let whole = pairs_bytes(pairs, n);
    if i < n {
        let here = pairs_bytes(pairs, i);
        let next = pairs_bytes(pairs, i + 1);
        let k = pairs[i as int].0;
        let v = pairs[i as int].1;
        lemma_pairs_prefix(pairs, i + 1, n);
        let p = start + here.len();
        let p1 = p + str_bytes(k).len();
        let p2 = p1 + str_bytes(v).len();
        assert(next == here + str_bytes(k) + str_bytes(v));
        assert forall|j: int| 0 <= j < next.len() implies body[start + j] == next[j] by {
            assert(whole.subrange(0, next.len() as int)[j] == next[j]);
            assert(body.subrange(start, start + whole.len())[j] == whole[j]);
        }
        assert(body.subrange(p, p1) =~= str_bytes(k)) by {
            assert forall|j: int| 0 <= j < str_bytes(k).len() implies body.subrange(p, p1)[j]
                == str_bytes(k)[j] by {
                assert(body[start + (here.len() + j)] == next[here.len() + j]);
            }
        }
        assert(body.subrange(p1, p2) =~= str_bytes(v)) by {
            assert forall|j: int| 0 <= j < str_bytes(v).len() implies body.subrange(p1, p2)[j]
                == str_bytes(v)[j] by {
                let o = here.len() + str_bytes(k).len() + j;
                assert(body[start + o] == next[o]);
            }
        }
        lemma_take_str_of(body, p, k);
        lemma_take_str_of(body, p1, v);
        lemma_take_pairs_of(body, start, pairs, i + 1);
        assert(pairs.take(i as int).push((k, v)) =~= pairs.take((i + 1) as int));
    } else {
        assert(pairs.take(i as int) =~= pairs);
    }
}

proof fn lemma_valid_pairs_fit(pairs: Seq<EnvPair>, i: int, k: int)
    requires
        first_pair_error(pairs, i) is None,
        0 <= i <= k < pairs.len(),
    ensures
        env_pair_error(pairs[k]) is None,
        str_fits(pairs[k].0),
        str_fits(pairs[k].1),
    decreases k - i,
{
    if i < k {
        lemma_valid_pairs_fit(pairs, i + 1, k);
    }
}

proof fn lemma_piece(whole: Seq<u8>, pre: Seq<u8>, piece: Seq<u8>)
    requires
        (pre + piece).is_prefix_of(whole),
    ensures
        whole.subrange(pre.len() as int, (pre.len() + piece.len()) as int) == piece,
        pre.is_prefix_of(whole),
        pre.len() + piece.len() <= whole.len(),
{
    let both = pre + piece;
    assert forall|i: int| 0 <= i < both.len() implies whole[i] == both[i] by {
        assert(whole.subrange(0, both.len() as int)[i] == both[i]);
    }
    assert(whole.subrange(pre.len() as int, (pre.len() + piece.len()) as int) =~= piece);
    assert(whole.subrange(0, pre.len() as int) =~= pre);
}

/// Where the parts of the header of a blob lie.
proof fn lemma_header_layout(v: LaunchView, buf: Seq<u8>)
    requires
        v.artifact.len() == 32,
        launch_header(v).is_prefix_of(buf),
    ensures
        buf.len() >= 56,
        launch_header(v).len() == 56,
        buf.subrange(0, 8) == magic(),
        le_value(buf.subrange(8, 10)) == VERSION,
        le_value(buf.subrange(12, 16)) == v.caps_bits,
        le_value(buf.subrange(16, 24)) == v.instance,
        buf.subrange(24, 56) == v.artifact,
{
    let h0 = magic();
    let h1 = h0 + le_bytes(VERSION as nat, 2);
    let h2 = h1 + le_bytes(0, 2);
    let h3 = h2 + le_bytes(v.caps_bits as nat, 4);
    let h4 = h3 + le_bytes(v.instance as nat, 8);
    lemma_pow256_values();
    lemma_le_round_trip(VERSION as nat, 2);
    lemma_le_round_trip(0, 2);
    lemma_le_round_trip(v.caps_bits as nat, 4);
    lemma_le_round_trip(v.instance as nat, 8);
    lemma_piece(buf, h4, v.artifact);
    lemma_piece(buf, h3, le_bytes(v.instance as nat, 8));
    lemma_piece(buf, h2, le_bytes(v.caps_bits as nat, 4));
    lemma_piece(buf, h1, le_bytes(0, 2));
    lemma_piece(buf, h0, le_bytes(VERSION as nat, 2));
}

/// The strings and pairs of a body are read back.
proof fn lemma_tail_of(v: LaunchView)
    requires
        encodable(v),
    ensures
        take_tail(launch_body(v)) == Ok::<
            (Seq<char>, Seq<char>, Seq<char>, Seq<char>, Seq<EnvPair>),
            ErrorView,
        >((v.app_path, v.app_dir, v.vault_dir, v.app_id, v.env_extra)),
        launch_header(v).is_prefix_of(launch_body(v)),
        launch_body(v).len() >= 56,
{
    let h = launch_header(v);
    let s1 = str_bytes(v.app_path);
    let s2 = str_bytes(v.app_dir);
    let s3 = str_bytes(v.vault_dir);
    let s4 = str_bytes(v.app_id);
    let n = v.env_extra.len();
    let cnt = le_bytes(n % 0x1_0000, 2);
    let b1 = h + s1;
    let b2 = b1 + s2;
    let b3 = b2 + s3;
    let b4 = b3 + s4;
    let b5 = b4 + cnt;
    let pb = pairs_bytes(v.env_extra, n);
    let body = launch_body(v);
    lemma_pow256_values();
    lemma_le_round_trip(n, 2);
    assert(body.subrange(0, body.len() as int) =~= body);
    lemma_piece(body, b5, pb);
    lemma_piece(body, b4, cnt);
    lemma_piece(body, b3, s4);
    lemma_piece(body, b2, s3);
    lemma_piece(body, b1, s2);
    lemma_piece(body, h, s1);
    lemma_header_layout(v, body);
    lemma_take_str_of(body, 56, v.app_path);
    lemma_take_str_of(body, b1.len() as int, v.app_dir);
    lemma_take_str_of(body, b2.len() as int, v.vault_dir);
    lemma_take_str_of(body, b3.len() as int, v.app_id);
    assert forall|k: int| 0 <= k < n implies str_fits((#[trigger] v.env_extra[k]).0) && str_fits(
        v.env_extra[k].1,
    ) by {
        lemma_valid_pairs_fit(v.env_extra, 0, k);
    }
    lemma_take_pairs_of(body, b5.len() as int, v.env_extra, 0);
    assert(v.env_extra.take(0) =~= Seq::<EnvPair>::empty());
}

/// Reading a blob gives back the launch spec that was written, for every spec
/// with valid pairs and strings under 64 KiB.
pub proof fn law_launch_round_trip(v: LaunchView)
    requires
        encodable(v),
    ensures
        launch_parse(launch_bytes(v)) == Ok::<LaunchView, ErrorView>(v),
{
    let h = launch_header(v);
    let body = launch_body(v);
    let buf = launch_bytes(v);
    let crc = le_bytes(crc32(body) as nat, 4);
    lemma_pow256_values();
    lemma_le_round_trip(crc32(body) as nat, 4);
    lemma_tail_of(v);
    assert(buf.subrange(0, buf.len() as int) =~= buf);
    lemma_piece(buf, body, crc);
    assert(buf.subrange(0, buf.len() - 4) == body);
    assert(h.is_prefix_of(buf)) by {
        assert(body.subrange(0, h.len() as int) == h);
        assert(buf.subrange(0, h.len() as int) =~= body.subrange(0, h.len() as int));
    }
    lemma_header_layout(v, buf);
}

proof fn lemma_take_str_inverse(body: Seq<u8>, p: int)
    requires
        0 <= p,
        take_str(body, p) is Ok,
    ensures
        take_str(body, p) matches Ok((s, q)) && p + 2 <= q <= body.len() && body.subrange(p, q)
            == str_bytes(s) && str_fits(s),
{
    reveal(str_bytes);
    reveal(take_str);
    let n = le_value(body.subrange(p, p + 2));
    let b = body.subrange(p + 2, p + 2 + n);
    let (s, q) = take_str(body, p)->Ok_0;
    lemma_pow256_values();
    lemma_le_value_bytes(body.subrange(p, p + 2));
    decode_utf8_encode_utf8(b);
    assert(body.subrange(p, q) =~= body.subrange(p, p + 2) + b);
}

proof fn lemma_take_pairs_inverse(body: Seq<u8>, p: int, n: nat, acc: Seq<EnvPair>)
    requires
        0 <= p <= body.len(),
        take_pairs(body, p, n, acc) is Ok,
    ensures
        take_pairs(body, p, n, acc) matches Ok((env, q)) && p <= q <= body.len() && env.len()
            == acc.len() + n && env.take(acc.len() as int) == acc && pairs_bytes(
            env,
            acc.len() + n,
        ) == pairs_bytes(env, acc.len()) + body.subrange(p, q),
    decreases n,
{
    let (env, q) = take_pairs(body, p, n, acc)->Ok_0;
    if n == 0 {
        assert(env.take(acc.len() as int) =~= acc);
        assert(body.subrange(p, q) =~= Seq::<u8>::empty());
        assert(pairs_bytes(env, acc.len()) + body.subrange(p, q) =~= pairs_bytes(env, acc.len()));
    } else {
        lemma_take_str_inverse(body, p);
        let (k, p1) = take_str(body, p)->Ok_0;
        lemma_take_str_inverse(body, p1);
        let (v, p2) = take_str(body, p1)->Ok_0;
        let more = acc.push((k, v));
        lemma_take_pairs_inverse(body, p2, (n - 1) as nat, more);
        assert(env.take(acc.len() as int) =~= more.take(acc.len() as int)) by {
            assert(env.take(more.len() as int) == more);
            assert forall|i: int| 0 <= i < acc.len() implies env[i] == more[i] by {
                assert(env.take(more.len() as int)[i] == more[i]);
            }
        }
        assert(more.take(acc.len() as int) =~= acc);
        assert(env[acc.len() as int] == (k, v)) by {
            assert(env.take(more.len() as int)[acc.len() as int] == more[acc.len() as int]);
        }
        let base = pairs_bytes(env, acc.len());
        assert(pairs_bytes(env, acc.len() + 1) == base + str_bytes(k) + str_bytes(v));
        assert(body.subrange(p, q) =~= str_bytes(k) + str_bytes(v) + body.subrange(p2, q));
        assert(base + body.subrange(p, q) =~= base + str_bytes(k) + str_bytes(v)
            + body.subrange(p2, q));
    }
}

/// The strings and pairs that were read write the same bytes again.
proof fn lemma_tail_inverse(body: Seq<u8>)
    requires
        body.len() >= 56,
        take_tail(body) is Ok,
    ensures
        take_tail(body) matches Ok((s1, s2, s3, s4, env)) && body == body.subrange(0, 56)
            + str_bytes(s1) + str_bytes(s2) + str_bytes(s3) + str_bytes(s4) + le_bytes(
            env.len() % 0x1_0000,
            2,
        ) + pairs_bytes(env, env.len()) && str_fits(s1) && str_fits(s2) && str_fits(s3)
            && str_fits(s4),
{
    lemma_take_str_inverse(body, 56);
    let (s1, p1) = take_str(body, 56)->Ok_0;
    lemma_take_str_inverse(body, p1);
    let (s2, p2) = take_str(body, p1)->Ok_0;
    lemma_take_str_inverse(body, p2);
    let (s3, p3) = take_str(body, p2)->Ok_0;
    lemma_take_str_inverse(body, p3);
    let (s4, p4) = take_str(body, p3)->Ok_0;
    let n = le_value(body.subrange(p4, p4 + 2));
    lemma_le_value_bytes(body.subrange(p4, p4 + 2));
    lemma_take_pairs_inverse(body, p4 + 2, n, Seq::empty());
    let (env, p5) = take_pairs(body, p4 + 2, n, Seq::empty())->Ok_0;
    let pb = pairs_bytes(env, env.len());
    assert(pb =~= body.subrange(p4 + 2, p5));
    lemma_join(body, 56, p1);
    lemma_join(body, p1, p2);
    lemma_join(body, p2, p3);
    lemma_join(body, p3, p4);
    lemma_join(body, p4, p4 + 2);
    lemma_join(body, p4 + 2, p5);
    assert(body.subrange(0, p5) =~= body);
}

proof fn lemma_join(s: Seq<u8>, a: int, b: int)
    requires
        0 <= a <= b <= s.len(),
    ensures
        s.subrange(0, b) == s.subrange(0, a) + s.subrange(a, b),
{
    assert(s.subrange(0, b) =~= s.subrange(0, a) + s.subrange(a, b));
}

/// The header that a spec read from `buf` writes again.
proof fn lemma_header_inverse(buf: Seq<u8>, v: LaunchView)
    requires
        buf.len() >= 56,
        buf.subrange(0, 8) == magic(),
        le_value(buf.subrange(8, 10)) == VERSION,
        v.instance == le_value(buf.subrange(16, 24)),
        v.caps_bits == le_value(buf.subrange(12, 16)),
        v.artifact == buf.subrange(24, 56),
    ensures
        launch_header(v) == buf.subrange(0, 56).update(10, 0).update(11, 0),
{
    lemma_le_value_bytes(buf.subrange(8, 10));
    lemma_le_value_bytes(buf.subrange(12, 16));
    lemma_le_value_bytes(buf.subrange(16, 24));
    let zeros = le_bytes(0, 2);
    assert(zeros =~= seq![0u8, 0u8]) by {
        reveal_with_fuel(le_bytes, 3);
    }
    let c = buf.subrange(0, 56).update(10, 0).update(11, 0);
    assert(c.subrange(0, 8) =~= buf.subrange(0, 8));
    assert(c.subrange(8, 10) =~= buf.subrange(8, 10));
    assert(c.subrange(10, 12) =~= zeros);
    assert(c.subrange(12, 16) =~= buf.subrange(12, 16));
    assert(c.subrange(16, 24) =~= buf.subrange(16, 24));
    assert(c.subrange(24, 56) =~= buf.subrange(24, 56));
    lemma_join(c, 8, 10);
    lemma_join(c, 10, 12);
    lemma_join(c, 12, 16);
    lemma_join(c, 16, 24);
    lemma_join(c, 24, 56);
    assert(c.subrange(0, 56) =~= c);
}

/// A blob that is accepted holds nothing beyond its spec: with the reserved
/// field cleared, its body is the one that writing the spec produces.
pub proof fn law_accepted_blob_is_canonical(buf: Seq<u8>)
    requires
        launch_parse(buf) is Ok,
    ensures
        launch_parse(buf) matches Ok(v) && encodable(v) && launch_body(v) == buf.subrange(
            0,
            buf.len() - 4,
        ).update(10, 0).update(11, 0),
{
    let body = buf.subrange(0, buf.len() - 4);
    let v = launch_parse(buf)->Ok_0;
    lemma_pow256_values();
    lemma_le_value_bytes(buf.subrange(12, 16));
    lemma_le_value_bytes(buf.subrange(16, 24));
    lemma_tail_inverse(body);
    lemma_header_inverse(buf, v);
    let h = buf.subrange(0, 56);
    assert(body.subrange(0, 56) =~= h);
    let x = str_bytes(v.app_path);
    let y = str_bytes(v.app_dir);
    let z = str_bytes(v.vault_dir);
    let w = str_bytes(v.app_id);
    let c = le_bytes(v.env_extra.len() % 0x1_0000, 2);
    let pb = pairs_bytes(v.env_extra, v.env_extra.len());
    let tail = body.subrange(56, body.len() as int);
    lemma_regroup(h, x, y, z, w, c, pb);
    lemma_regroup(launch_header(v), x, y, z, w, c, pb);
    let rest = x + y + z + w + c + pb;
    assert(h + rest == body);
    assert(launch_header(v) + rest == launch_body(v));
    assert(launch_header(v) + rest =~= body.update(10, 0).update(11, 0));
}

proof fn lemma_regroup(
    h: Seq<u8>,
    x: Seq<u8>,
    y: Seq<u8>,
    z: Seq<u8>,
    w: Seq<u8>,
    c: Seq<u8>,
    p: Seq<u8>,
)
    ensures
        h + x + y + z + w + c + p == h + (x + y + z + w + c + p),
{
    assert(h + x + y == h + (x + y));
    assert(h + (x + y) + z == h + (x + y + z));
    assert(h + (x + y + z) + w == h + (x + y + z + w));
    assert(h + (x + y + z + w) + c == h + (x + y + z + w + c));
    assert(h + (x + y + z + w + c) + p == h + (x + y + z + w + c + p));
}

} // verus!
