//! Base64url (URL-safe alphabet, no padding) over byte sequences, with a
//! proved decode-of-encode round trip. Token segments use this encoding.

use vstd::prelude::*;

verus! {

/// Alphabet byte for a six-bit value.
pub open spec fn sextet_byte(x: u8) -> u8
    recommends
        x < 64,
{
    if x < 26 {
        (65 + x) as u8  // 'A'..='Z'
    } else if x < 52 {
        (71 + x) as u8  // 'a'..='z'
    } else if x < 62 {
        (x - 4) as u8  // '0'..='9'
    } else if x == 62 {
        45u8  // '-'
    } else {
        95u8  // '_'
    }
}

/// Six-bit value of an alphabet byte; `None` outside the alphabet.
pub open spec fn sextet_val(b: u8) -> Option<u8> {
    if 65 <= b && b <= 90 {
        Some((b - 65) as u8)
    } else if 97 <= b && b <= 122 {
        Some((b - 71) as u8)
    } else if 48 <= b && b <= 57 {
        Some((b + 4) as u8)
    } else if b == 45 {
        Some(62u8)
    } else if b == 95 {
        Some(63u8)
    } else {
        None
    }
}

/// Membership in the base64url alphabet.
pub open spec fn is_b64_byte(b: u8) -> bool {
    sextet_val(b) != None::<u8>
}

pub proof fn lemma_sextet_roundtrip(x: u8)
    requires
        x < 64,
    ensures
        sextet_val(sextet_byte(x)) == Some(x),
{
}

/// Alphabet bytes are never a quote (34) or a dot (46).
pub proof fn lemma_b64_byte_not_delim(b: u8)
    requires
        is_b64_byte(b),
    ensures
        b != 34,
        b != 46,
{
}

/// Four alphabet bytes for a full three-byte group.
pub open spec fn enc3(a: u8, b: u8, c: u8) -> Seq<u8> {
    seq![
        sextet_byte(a >> 2),
        sextet_byte(((a & 3) << 4) | (b >> 4)),
        sextet_byte(((b & 15) << 2) | (c >> 6)),
        sextet_byte(c & 63),
    ]
}

/// Three alphabet bytes for a trailing two-byte group.
pub open spec fn enc2(a: u8, b: u8) -> Seq<u8> {
    seq![
        sextet_byte(a >> 2),
        sextet_byte(((a & 3) << 4) | (b >> 4)),
        sextet_byte((b & 15) << 2),
    ]
}

/// Two alphabet bytes for a trailing one-byte group.
pub open spec fn enc1(a: u8) -> Seq<u8> {
    seq![sextet_byte(a >> 2), sextet_byte((a & 3) << 4)]
}

/// Unpadded base64url encoding of a byte sequence.
pub open spec fn b64_encode_spec(s: Seq<u8>) -> Seq<u8>
    decreases s.len(),
{
    if s.len() == 0 {
        Seq::empty()
    } else if s.len() == 1 {
        enc1(s[0])
    } else if s.len() == 2 {
        enc2(s[0], s[1])
    } else {
        enc3(s[0], s[1], s[2]) + b64_encode_spec(s.skip(3))
    }
}

/// Bytes of a full four-letter group; `None` if a letter is outside the alphabet.
pub open spec fn dec4(s: Seq<u8>) -> Option<Seq<u8>>
    recommends
        s.len() == 4,
{
    match (sextet_val(s[0]), sextet_val(s[1]), sextet_val(s[2]), sextet_val(s[3])) {
        (Some(x0), Some(x1), Some(x2), Some(x3)) => Some(
            seq![(x0 << 2) | (x1 >> 4), ((x1 & 15) << 4) | (x2 >> 2), ((x2 & 3) << 6) | x3],
        ),
        _ => None,
    }
}

/// Bytes of a trailing three-letter group.
pub open spec fn dec3(s: Seq<u8>) -> Option<Seq<u8>>
    recommends
        s.len() == 3,
{
    match (sextet_val(s[0]), sextet_val(s[1]), sextet_val(s[2])) {
        (Some(x0), Some(x1), Some(x2)) => Some(
            seq![(x0 << 2) | (x1 >> 4), ((x1 & 15) << 4) | (x2 >> 2)],
        ),
        _ => None,
    }
}

/// Byte of a trailing two-letter group.
pub open spec fn dec2(s: Seq<u8>) -> Option<Seq<u8>>
    recommends
        s.len() == 2,
{
    match (sextet_val(s[0]), sextet_val(s[1])) {
        (Some(x0), Some(x1)) => Some(seq![(x0 << 2) | (x1 >> 4)]),
        _ => None,
    }
}

/// Unpadded base64url decoding; `None` on a letter outside the alphabet or
/// on a length that no encoding produces.
pub open spec fn b64_decode_spec(s: Seq<u8>) -> Option<Seq<u8>>
    decreases s.len(),
{
    if s.len() == 0 {
        Some(Seq::empty())
    } else if s.len() == 1 {
        None
    } else if s.len() == 2 {
        dec2(s)
    } else if s.len() == 3 {
        dec3(s)
    } else {
        match (dec4(s.take(4)), b64_decode_spec(s.skip(4))) {
            (Some(h), Some(t)) => Some(h + t),
            _ => None,
        }
    }
}

/// Every byte of an encoding lies in the alphabet.
pub proof fn lemma_b64_encode_alphabet(s: Seq<u8>)
    ensures
        forall|i: int|
            0 <= i < b64_encode_spec(s).len() ==> is_b64_byte(#[trigger] b64_encode_spec(s)[i]),
    decreases s.len(),
{
    if s.len() == 0 {
    } else if s.len() == 1 {
        let a = s[0];
        assert(a >> 2 < 64 && (a & 3) << 4 < 64) by (bit_vector);
        lemma_sextet_roundtrip(a >> 2);
        lemma_sextet_roundtrip((a & 3) << 4);
    } else if s.len() == 2 {
        let a = s[0];
        let b = s[1];
        assert(a >> 2 < 64 && ((a & 3) << 4) | (b >> 4) < 64 && (b & 15) << 2 < 64)
            by (bit_vector);
        lemma_sextet_roundtrip(a >> 2);
        lemma_sextet_roundtrip(((a & 3) << 4) | (b >> 4));
        lemma_sextet_roundtrip((b & 15) << 2);
    } else {
        let a = s[0];
        let b = s[1];
        let c = s[2];
        assert(a >> 2 < 64 && ((a & 3) << 4) | (b >> 4) < 64 && ((b & 15) << 2) | (c >> 6) < 64
            && c & 63 < 64) by (bit_vector);
        lemma_sextet_roundtrip(a >> 2);
        lemma_sextet_roundtrip(((a & 3) << 4) | (b >> 4));
        lemma_sextet_roundtrip(((b & 15) << 2) | (c >> 6));
        lemma_sextet_roundtrip(c & 63);
        lemma_b64_encode_alphabet(s.skip(3));
        assert forall|i: int| 0 <= i < b64_encode_spec(s).len() implies is_b64_byte(
            #[trigger] b64_encode_spec(s)[i],
        ) by {
            if i >= 4 {
                assert(b64_encode_spec(s)[i] == b64_encode_spec(s.skip(3))[i - 4]);
            }
        }
    }
}

/// Decoding inverts encoding.
pub proof fn lemma_b64_roundtrip(s: Seq<u8>)
    ensures
        b64_decode_spec(b64_encode_spec(s)) == Some(s),
    decreases s.len(),
{
    if s.len() == 0 {
        assert(b64_encode_spec(s).len() == 0);
        assert(Seq::<u8>::empty() =~= s);
    } else if s.len() == 1 {
        let a = s[0];
        assert(a >> 2 < 64 && (a & 3) << 4 < 64) by (bit_vector);
        lemma_sextet_roundtrip(a >> 2);
        lemma_sextet_roundtrip((a & 3) << 4);
        assert(((a >> 2) << 2) | (((a & 3) << 4) >> 4) == a) by (bit_vector);
        assert(seq![((a >> 2) << 2) | (((a & 3) << 4) >> 4)] =~= s);
    } else if s.len() == 2 {
        let a = s[0];
        let b = s[1];
        let x0 = a >> 2;
        let x1 = ((a & 3) << 4) | (b >> 4);
        let x2 = (b & 15) << 2;
        assert(a >> 2 < 64 && ((a & 3) << 4) | (b >> 4) < 64 && (b & 15) << 2 < 64)
            by (bit_vector);
        lemma_sextet_roundtrip(x0);
        lemma_sextet_roundtrip(x1);
        lemma_sextet_roundtrip(x2);
        assert(((a >> 2) << 2) | ((((a & 3) << 4) | (b >> 4)) >> 4) == a) by (bit_vector);
        assert(((((a & 3) << 4) | (b >> 4)) & 15) << 4 | (((b & 15) << 2) >> 2) == b)
            by (bit_vector);
        assert(seq![(x0 << 2) | (x1 >> 4), ((x1 & 15) << 4) | (x2 >> 2)] =~= s);
    } else {
        let a = s[0];
        let b = s[1];
        let c = s[2];
        let x0 = a >> 2;
        let x1 = ((a & 3) << 4) | (b >> 4);
        let x2 = ((b & 15) << 2) | (c >> 6);
        let x3 = c & 63;
        assert(a >> 2 < 64 && ((a & 3) << 4) | (b >> 4) < 64 && ((b & 15) << 2) | (c >> 6) < 64
            && c & 63 < 64) by (bit_vector);
        lemma_sextet_roundtrip(x0);
        lemma_sextet_roundtrip(x1);
        lemma_sextet_roundtrip(x2);
        lemma_sextet_roundtrip(x3);
        assert(((a >> 2) << 2) | ((((a & 3) << 4) | (b >> 4)) >> 4) == a) by (bit_vector);
        assert((((((a & 3) << 4) | (b >> 4)) & 15) << 4) | (((((b & 15) << 2) | (c >> 6))) >> 2)
            == b) by (bit_vector);
        assert((((((b & 15) << 2) | (c >> 6)) & 3) << 6) | (c & 63) == c) by (bit_vector);
        lemma_b64_roundtrip(s.skip(3));
        let e = b64_encode_spec(s);
        let rest = b64_encode_spec(s.skip(3));
        assert(e == enc3(a, b, c) + rest);
        assert(e.len() >= 4);
        assert(e.take(4) =~= enc3(a, b, c));
        assert(e.skip(4) =~= rest);
        let h = dec4(enc3(a, b, c));
        assert(h == Some(seq![a, b, c]));
        assert(seq![a, b, c] + s.skip(3) =~= s);
    }
}

/// Encoding is injective: distinct byte sequences have distinct encodings.
/// In particular the coded segment of any other algorithm header differs
/// from that of the fixed one.
pub proof fn lemma_b64_injective(a: Seq<u8>, b: Seq<u8>)
    requires
        b64_encode_spec(a) == b64_encode_spec(b),
    ensures
        a == b,
{
    lemma_b64_roundtrip(a);
    lemma_b64_roundtrip(b);
}

/// `sextet_byte`, executably.
fn sextet_byte_x(x: u8) -> (r: u8)
    requires
        x < 64,
    ensures
        r == sextet_byte(x),
{
    if x < 26 {
        65 + x
    } else if x < 52 {
        71 + x
    } else if x < 62 {
        x - 4
    } else if x == 62 {
        45
    } else {
        95
    }
}

/// `sextet_val`, executably.
fn sextet_val_x(b: u8) -> (r: Option<u8>)
    ensures
        r == sextet_val(b),
{
    if 65 <= b && b <= 90 {
        Some(b - 65)
    } else if 97 <= b && b <= 122 {
        Some(b - 71)
    } else if 48 <= b && b <= 57 {
        Some(b + 4)
    } else if b == 45 {
        Some(62)
    } else if b == 95 {
        Some(63)
    } else {
        None
    }
}

/// Base64url-encode `v`.
pub fn b64_encode(v: &Vec<u8>) -> (r: Vec<u8>)
    ensures
        r@ == b64_encode_spec(v@),
{
    let n = v.len();
    let mut r: Vec<u8> = Vec::new();
    let mut i: usize = 0;
    proof {
        assert(v@.skip(0) =~= v@);
    }
    while n - i >= 3
        invariant
            i <= n == v@.len(),
            r@ + b64_encode_spec(v@.skip(i as int)) == b64_encode_spec(v@),
        decreases n - i,
    {
        let a = v[i];
        let b = v[i + 1];
        let c = v[i + 2];
        proof {
            assert(a >> 2 < 64 && ((a & 3) << 4) | (b >> 4) < 64 && ((b & 15) << 2) | (c >> 6)
                < 64 && c & 63 < 64) by (bit_vector);
            assert(v@.skip(i as int)[0] == a);
            assert(v@.skip(i as int)[1] == b);
            assert(v@.skip(i as int)[2] == c);
            assert(v@.skip(i as int).skip(3) =~= v@.skip(i + 3));
        }
        r.push(sextet_byte_x(a >> 2));
        r.push(sextet_byte_x(((a & 3) << 4) | (b >> 4)));
        r.push(sextet_byte_x(((b & 15) << 2) | (c >> 6)));
        r.push(sextet_byte_x(c & 63));
        proof {
            assert(r@ =~= (r@.subrange(0, r@.len() - 4)) + enc3(a, b, c));
            assert(r@ + b64_encode_spec(v@.skip(i + 3)) =~= b64_encode_spec(v@));
        }
        i += 3;
    }
    if n - i == 1 {
        let a = v[i];
        proof {
            assert(a >> 2 < 64 && (a & 3) << 4 < 64) by (bit_vector);
            assert(v@.skip(i as int)[0] == a);
        }
        r.push(sextet_byte_x(a >> 2));
        r.push(sextet_byte_x((a & 3) << 4));
        proof {
            assert(r@ =~= (r@.subrange(0, r@.len() - 2)) + enc1(a));
            assert(r@ =~= b64_encode_spec(v@));
        }
    } else if n - i == 2 {
        let a = v[i];
        let b = v[i + 1];
        proof {
            assert(a >> 2 < 64 && ((a & 3) << 4) | (b >> 4) < 64 && (b & 15) << 2 < 64)
                by (bit_vector);
            assert(v@.skip(i as int)[0] == a);
            assert(v@.skip(i as int)[1] == b);
        }
        r.push(sextet_byte_x(a >> 2));
        r.push(sextet_byte_x(((a & 3) << 4) | (b >> 4)));
        r.push(sextet_byte_x((b & 15) << 2));
        proof {
            assert(r@ =~= (r@.subrange(0, r@.len() - 3)) + enc2(a, b));
            assert(r@ =~= b64_encode_spec(v@));
        }
    } else {
        proof {
            assert(v@.skip(i as int) =~= Seq::<u8>::empty());
            assert(r@ =~= b64_encode_spec(v@));
        }
    }
    r
}

/// Base64url-decode `v`; `None` exactly where `b64_decode_spec` is `None`.
pub fn b64_decode(v: &Vec<u8>) -> (r: Option<Vec<u8>>)
    ensures
        match r {
            Some(out) => b64_decode_spec(v@) == Some(out@),
            None => b64_decode_spec(v@) == None::<Seq<u8>>,
        },
{
    let n = v.len();
    let mut out: Vec<u8> = Vec::new();
    let mut i: usize = 0;
    proof {
        assert(v@.skip(0) =~= v@);
        match b64_decode_spec(v@) {
            Some(t) => {
                assert(Seq::<u8>::empty() + t =~= t);
            },
            None => {},
        }
    }
    while n - i >= 4
        invariant
            i <= n == v@.len(),
            b64_decode_spec(v@) == (match b64_decode_spec(v@.skip(i as int)) {
                Some(t) => Some(out@ + t),
                None => None::<Seq<u8>>,
            }),
        decreases n - i,
    {
        let s0 = sextet_val_x(v[i]);
        let s1 = sextet_val_x(v[i + 1]);
        let s2 = sextet_val_x(v[i + 2]);
        let s3 = sextet_val_x(v[i + 3]);
        proof {
            assert(v@.skip(i as int)[0] == v@[i as int]);
            assert(v@.skip(i as int)[1] == v@[i as int + 1]);
            assert(v@.skip(i as int)[2] == v@[i as int + 2]);
            assert(v@.skip(i as int)[3] == v@[i as int + 3]);
            assert(v@.skip(i as int).take(4) =~= seq![
                v@[i as int],
                v@[i as int + 1],
                v@[i as int + 2],
                v@[i as int + 3],
            ]);
            assert(v@.skip(i as int).skip(4) =~= v@.skip(i + 4));
        }
        match (s0, s1, s2, s3) {
            (Some(x0), Some(x1), Some(x2), Some(x3)) => {
                let ghost old_out = out@;
                out.push((x0 << 2) | (x1 >> 4));
                out.push(((x1 & 15) << 4) | (x2 >> 2));
                out.push(((x2 & 3) << 6) | x3);
                proof {
                    let chunk = seq![(x0 << 2) | (x1 >> 4), ((x1 & 15) << 4) | (x2 >> 2), ((
                    x2 & 3) << 6) | x3];
                    assert(out@ =~= old_out + chunk);
                    assert(dec4(v@.skip(i as int).take(4)) == Some(chunk));
                    match b64_decode_spec(v@.skip(i + 4)) {
                        Some(t) => {
                            assert(b64_decode_spec(v@.skip(i as int)) == Some(chunk + t));
                            assert(old_out + (chunk + t) =~= out@ + t);
                        },
                        None => {
                            assert(b64_decode_spec(v@.skip(i as int)) == None::<Seq<u8>>);
                        },
                    }
                }
                i += 4;
            },
            _ => {
                proof {
                    assert(dec4(v@.skip(i as int).take(4)) == None::<Seq<u8>>);
                    assert(b64_decode_spec(v@.skip(i as int)) == None::<Seq<u8>>);
                }
                return None;
            },
        }
    }
    let rem = n - i;
    if rem == 0 {
        proof {
            assert(v@.skip(i as int) =~= Seq::<u8>::empty());
            assert(b64_decode_spec(v@.skip(i as int)) == Some(Seq::<u8>::empty()));
            assert(out@ + Seq::<u8>::empty() =~= out@);
        }
        Some(out)
    } else if rem == 1 {
        proof {
            assert(b64_decode_spec(v@.skip(i as int)) == None::<Seq<u8>>);
        }
        None
    } else if rem == 2 {
        let s0 = sextet_val_x(v[i]);
        let s1 = sextet_val_x(v[i + 1]);
        proof {
            assert(v@.skip(i as int) =~= seq![v@[i as int], v@[i as int + 1]]);
        }
        match (s0, s1) {
            (Some(x0), Some(x1)) => {
                let ghost old_out = out@;
                out.push((x0 << 2) | (x1 >> 4));
                proof {
                    assert(b64_decode_spec(v@.skip(i as int)) == Some(
                        seq![(x0 << 2) | (x1 >> 4)],
                    ));
                    assert(out@ =~= old_out + seq![(x0 << 2) | (x1 >> 4)]);
                }
                Some(out)
            },
            _ => {
                proof {
                    assert(b64_decode_spec(v@.skip(i as int)) == None::<Seq<u8>>);
                }
                None
            },
        }
    } else {
        let s0 = sextet_val_x(v[i]);
        let s1 = sextet_val_x(v[i + 1]);
        let s2 = sextet_val_x(v[i + 2]);
        proof {
            assert(v@.skip(i as int) =~= seq![v@[i as int], v@[i as int + 1], v@[i as int + 2]]);
        }
        match (s0, s1, s2) {
            (Some(x0), Some(x1), Some(x2)) => {
                let ghost old_out = out@;
                out.push((x0 << 2) | (x1 >> 4));
                out.push(((x1 & 15) << 4) | (x2 >> 2));
                proof {
                    assert(b64_decode_spec(v@.skip(i as int)) == Some(
                        seq![(x0 << 2) | (x1 >> 4), ((x1 & 15) << 4) | (x2 >> 2)],
                    ));
                    assert(out@ =~= old_out + seq![
                        (x0 << 2) | (x1 >> 4),
                        ((x1 & 15) << 4) | (x2 >> 2),
                    ]);
                }
                Some(out)
            },
            _ => {
                proof {
                    assert(b64_decode_spec(v@.skip(i as int)) == None::<Seq<u8>>);
                }
                None
            },
        }
    }
}

} // verus!
