use vstd::prelude::*;

verus! {

/// The base64url alphabet (RFC 4648, section 5): the character for a 6-bit value.
pub open spec fn digit(v: u8) -> u8 {
    if v < 26 {
        (65 + v) as u8
    } else if v < 52 {
        (97 + v - 26) as u8
    } else if v < 62 {
        (48 + v - 52) as u8
    } else if v == 62 {
        45u8
    } else {
        95u8
    }
}

/// The 6-bit value of a base64url character, if it is one.
pub open spec fn digit_value(c: u8) -> Option<u8> {
    if 65 <= c <= 90 {
        Some((c - 65) as u8)
    } else if 97 <= c <= 122 {
        Some((c - 71) as u8)
    } else if 48 <= c <= 57 {
        Some((c + 4) as u8)
    } else if c == 45 {
        Some(62u8)
    } else if c == 95 {
        Some(63u8)
    } else {
        None
    }
}

pub open spec fn enc1(a: u8) -> Seq<u8> {
    seq![digit(a >> 2), digit((a & 3) << 4)]
}

pub open spec fn enc2(a: u8, b: u8) -> Seq<u8> {
    seq![digit(a >> 2), digit(((a & 3) << 4) | (b >> 4)), digit((b & 15) << 2)]
}

pub open spec fn enc3(a: u8, b: u8, c: u8) -> Seq<u8> {
    seq![
        digit(a >> 2),
        digit(((a & 3) << 4) | (b >> 4)),
        digit(((b & 15) << 2) | (c >> 6)),
        digit(c & 63),
    ]
}

/// Unpadded base64url encoding of a byte string.
pub open spec fn encode(s: Seq<u8>) -> Seq<u8>
    decreases s.len(),
{
    if s.len() >= 3 {
        enc3(s[0], s[1], s[2]) + encode(s.subrange(3, s.len() as int))
    } else if s.len() == 2 {
        enc2(s[0], s[1])
    } else if s.len() == 1 {
        enc1(s[0])
    } else {
        seq![]
    }
}

pub open spec fn dec2(x: u8, y: u8) -> Seq<u8> {
    seq![(x << 2) | (y >> 4)]
}

pub open spec fn dec3(x: u8, y: u8, z: u8) -> Seq<u8> {
    seq![(x << 2) | (y >> 4), ((y & 15) << 4) | (z >> 2)]
}

pub open spec fn dec4(x: u8, y: u8, z: u8, w: u8) -> Seq<u8> {
    seq![(x << 2) | (y >> 4), ((y & 15) << 4) | (z >> 2), ((z & 3) << 6) | w]
}

pub open spec fn prepend(p: Seq<u8>, o: Option<Seq<u8>>) -> Option<Seq<u8>> {
    match o {
        Some(r) => Some(p + r),
        None => None,
    }
}

/// Decoding of unpadded base64url text: `None` on a character outside the
/// alphabet, on a length that leaves a single trailing character, or on
/// non-zero bits after the last whole byte.
pub open spec fn decode(t: Seq<u8>) -> Option<Seq<u8>>
    decreases t.len(),
{
    if t.len() >= 4 {
        match (digit_value(t[0]), digit_value(t[1]), digit_value(t[2]), digit_value(t[3])) {
            (Some(x), Some(y), Some(z), Some(w)) => prepend(
                dec4(x, y, z, w),
                decode(t.subrange(4, t.len() as int)),
            ),
            _ => None,
        }
    } else if t.len() == 3 {
        match (digit_value(t[0]), digit_value(t[1]), digit_value(t[2])) {
            (Some(x), Some(y), Some(z)) => if z & 3 == 0 {
                Some(dec3(x, y, z))
            } else {
                None
            },
            _ => None,
        }
    } else if t.len() == 2 {
        match (digit_value(t[0]), digit_value(t[1])) {
            (Some(x), Some(y)) => if y & 15 == 0 {
                Some(dec2(x, y))
            } else {
                None
            },
            _ => None,
        }
    } else if t.len() == 1 {
        None
    } else {
        Some(seq![])
    }
}

proof fn lemma_digit_value(v: u8)
    requires
        v < 64,
    ensures
        digit_value(digit(v)) == Some(v),
{
}

proof fn lemma_group_bits(a: u8, b: u8, c: u8)
    ensures
        a >> 2 < 64,
        ((a & 3) << 4) | (b >> 4) < 64,
        ((b & 15) << 2) | (c >> 6) < 64,
        c & 63 < 64,
        (a & 3) << 4 < 64,
        (b & 15) << 2 < 64,
        ((a & 3) << 4) & 15 == 0,
        ((b & 15) << 2) & 3 == 0,
        ((a >> 2) << 2) | ((((a & 3) << 4) | (b >> 4)) >> 4) == a,
        ((((a & 3) << 4) | (b >> 4)) & 15) << 4 | ((((b & 15) << 2) | (c >> 6)) >> 2) == b,
        ((((b & 15) << 2) | (c >> 6)) & 3) << 6 | (c & 63) == c,
        ((a >> 2) << 2) | (((a & 3) << 4) >> 4) == a,
        ((((a & 3) << 4) | (b >> 4)) & 15) << 4 | (((b & 15) << 2) >> 2) == b,
{
    assert(a >> 2 < 64) by (bit_vector);
    assert(((a & 3) << 4) | (b >> 4) < 64) by (bit_vector);
    assert(((b & 15) << 2) | (c >> 6) < 64) by (bit_vector);
    assert(c & 63 < 64) by (bit_vector);
    assert((a & 3) << 4 < 64) by (bit_vector);
    assert((b & 15) << 2 < 64) by (bit_vector);
    assert(((a & 3) << 4) & 15 == 0) by (bit_vector);
    assert(((b & 15) << 2) & 3 == 0) by (bit_vector);
    assert(((a >> 2) << 2) | ((((a & 3) << 4) | (b >> 4)) >> 4) == a) by (bit_vector);
    assert(((((a & 3) << 4) | (b >> 4)) & 15) << 4 | ((((b & 15) << 2) | (c >> 6)) >> 2) == b)
        by (bit_vector);
    assert(((((b & 15) << 2) | (c >> 6)) & 3) << 6 | (c & 63) == c) by (bit_vector);
    assert(((a >> 2) << 2) | (((a & 3) << 4) >> 4) == a) by (bit_vector);
    assert(((((a & 3) << 4) | (b >> 4)) & 15) << 4 | (((b & 15) << 2) >> 2) == b) by (bit_vector);
}

/// Decoding undoes encoding.
pub proof fn lemma_decode_encode(s: Seq<u8>)
    ensures
        decode(encode(s)) == Some(s),
    decreases s.len(),
{
    let t = encode(s);
    if s.len() >= 3 {
        let (a, b, c) = (s[0], s[1], s[2]);
        lemma_group_bits(a, b, c);
        lemma_digit_value(a >> 2);
        lemma_digit_value(((a & 3) << 4) | (b >> 4));
        lemma_digit_value(((b & 15) << 2) | (c >> 6));
        lemma_digit_value(c & 63);
        let rest = s.subrange(3, s.len() as int);
        lemma_decode_encode(rest);
        assert(t.subrange(4, t.len() as int) =~= encode(rest));
        assert(s =~= seq![a, b, c] + rest);
    } else if s.len() == 2 {
        lemma_group_bits(s[0], s[1], 0);
        lemma_digit_value(s[0] >> 2);
        lemma_digit_value(((s[0] & 3) << 4) | (s[1] >> 4));
        lemma_digit_value((s[1] & 15) << 2);
        assert(decode(t).unwrap() =~= s);
    } else if s.len() == 1 {
        lemma_group_bits(s[0], 0, 0);
        lemma_digit_value(s[0] >> 2);
        lemma_digit_value((s[0] & 3) << 4);
        assert(decode(t).unwrap() =~= s);
    } else {
        assert(decode(t).unwrap() =~= s);
    }
}

fn digit_exec(v: u8) -> (r: u8)
    requires
        v < 64,
    ensures
        r == digit(v),
{
    if v < 26 {
        65 + v
    } else if v < 52 {
        97 + v - 26
    } else if v < 62 {
        48 + v - 52
    } else if v == 62 {
        45
    } else {
        95
    }
}

fn value_exec(c: u8) -> (r: Option<u8>)
    ensures
        r == digit_value(c),
{
    if 65 <= c && c <= 90 {
        Some(c - 65)
    } else if 97 <= c && c <= 122 {
        Some(c - 71)
    } else if 48 <= c && c <= 57 {
        Some(c + 4)
    } else if c == 45 {
        Some(62)
    } else if c == 95 {
        Some(63)
    } else {
        None
    }
}

/// Unpadded base64url encoding.
pub fn encode_bytes(s: &[u8]) -> (r: Vec<u8>)
    ensures
        r@ == encode(s@),
{
    let n = s.len();
    let mut out: Vec<u8> = Vec::new();
    let mut i: usize = 0;
    assert(s@.subrange(0, n as int) =~= s@);
    assert(out@ + encode(s@) =~= encode(s@));
    while n - i >= 3
        invariant
            n == s@.len(),
            i <= n,
            out@ + encode(s@.subrange(i as int, n as int)) == encode(s@),
        decreases n - i,
    {
        let (a, b, c) = (s[i], s[i + 1], s[i + 2]);
        proof {
            lemma_group_bits(a, b, c);
            let rest = s@.subrange(i as int, n as int);
            assert(rest.subrange(3, rest.len() as int) =~= s@.subrange(i + 3, n as int));
        }
        let ghost before = out@;
        out.push(digit_exec(a >> 2));
        out.push(digit_exec(((a & 3) << 4) | (b >> 4)));
        out.push(digit_exec(((b & 15) << 2) | (c >> 6)));
        out.push(digit_exec(c & 63));
        assert(out@ =~= before + enc3(a, b, c));
        assert(out@ + encode(s@.subrange(i + 3, n as int)) =~= before + encode(
            s@.subrange(i as int, n as int),
        ));
        i = i + 3;
    }
    let ghost before = out@;
    if n - i == 2 {
        let (a, b) = (s[i], s[i + 1]);
        proof {
            lemma_group_bits(a, b, 0);
        }
        out.push(digit_exec(a >> 2));
        out.push(digit_exec(((a & 3) << 4) | (b >> 4)));
        out.push(digit_exec((b & 15) << 2));
        assert(out@ =~= before + enc2(a, b));
    } else if n - i == 1 {
        let a = s[i];
        proof {
            lemma_group_bits(a, 0, 0);
        }
        out.push(digit_exec(a >> 2));
        out.push(digit_exec((a & 3) << 4));
        assert(out@ =~= before + enc1(a));
    }
    assert(out@ =~= encode(s@));
    out
}

/// Unpadded base64url decoding; `None` where `t` is no such encoding.
pub fn decode_bytes(t: &[u8]) -> (r: Option<Vec<u8>>)
    ensures
        match r {
            Some(v) => decode(t@) == Some(v@),
            None => decode(t@) is None,
        },
{
    let n = t.len();
    let mut out: Vec<u8> = Vec::new();
    let mut i: usize = 0;
    assert(t@.subrange(0, n as int) =~= t@);
    proof {
        if decode(t@) is Some {
            assert(out@ + decode(t@).unwrap() =~= decode(t@).unwrap());
        }
    }
    while n - i >= 4
        invariant
            n == t@.len(),
            i <= n,
            decode(t@) == prepend(out@, decode(t@.subrange(i as int, n as int))),
        decreases n - i,
    {
        let rest = Ghost(t@.subrange(i as int, n as int));
        assert(rest@.subrange(4, rest@.len() as int) =~= t@.subrange(i + 4, n as int));
        let x = value_exec(t[i]);
        let y = value_exec(t[i + 1]);
        let z = value_exec(t[i + 2]);
        let w = value_exec(t[i + 3]);
        match (x, y, z, w) {
            (Some(x), Some(y), Some(z), Some(w)) => {
                let ghost before = out@;
                out.push((x << 2) | (y >> 4));
                out.push(((y & 15) << 4) | (z >> 2));
                out.push(((z & 3) << 6) | w);
                assert(out@ =~= before + dec4(x, y, z, w));
                proof {
                    let tail = decode(t@.subrange(i + 4, n as int));
                    if tail is Some {
                        assert(before + (dec4(x, y, z, w) + tail.unwrap()) =~= out@
                            + tail.unwrap());
                    }
                }
            },
            _ => {
                return None;
            },
        }
        i = i + 4;
    }
    let ghost before = out@;
    if n - i == 3 {
        match (value_exec(t[i]), value_exec(t[i + 1]), value_exec(t[i + 2])) {
            (Some(x), Some(y), Some(z)) => {
                if z & 3 != 0 {
                    return None;
                }
                out.push((x << 2) | (y >> 4));
                out.push(((y & 15) << 4) | (z >> 2));
                assert(out@ =~= before + dec3(x, y, z));
            },
            _ => {
                return None;
            },
        }
    } else if n - i == 2 {
        match (value_exec(t[i]), value_exec(t[i + 1])) {
            (Some(x), Some(y)) => {
                if y & 15 != 0 {
                    return None;
                }
                out.push((x << 2) | (y >> 4));
                assert(out@ =~= before + dec2(x, y));
            },
            _ => {
                return None;
            },
        }
    } else if n - i == 1 {
        return None;
    } else {
        assert(out@ =~= before + seq![]);
    }
    Some(out)
}

} // verus!
