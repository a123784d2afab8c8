use vstd::prelude::*;
use crate::role::{Role, role_name, role_of_name, lemma_role_name_round_trip};

verus! {

/// `{"username":"`
pub open spec fn open_username() -> Seq<u8> {
    seq![123u8, 34, 117, 115, 101, 114, 110, 97, 109, 101, 34, 58, 34]
}

/// `","role":"`
pub open spec fn open_role() -> Seq<u8> {
    seq![34u8, 44, 34, 114, 111, 108, 101, 34, 58, 34]
}

/// `","exp":`
pub open spec fn open_exp() -> Seq<u8> {
    seq![34u8, 44, 34, 101, 120, 112, 34, 58]
}

pub open spec fn is_quote_or_backslash(c: u8) -> bool {
    c == 34 || c == 92
}

/// A lowercase hexadecimal digit.
pub open spec fn hex_digit(v: u8) -> u8 {
    if v < 10 {
        (48 + v) as u8
    } else {
        (87 + v) as u8
    }
}

/// The value of a lowercase hexadecimal digit.
pub open spec fn hex_value(c: u8) -> Option<u8> {
    if 48 <= c <= 57 {
        Some((c - 48) as u8)
    } else if 97 <= c <= 102 {
        Some((c - 87) as u8)
    } else {
        None
    }
}

/// The one-letter JSON escape of a control byte, if it has one:
/// backspace, tab, line feed, form feed, carriage return.
pub open spec fn short_escape(c: u8) -> Option<u8> {
    if c == 8 {
        Some(98u8)
    } else if c == 9 {
        Some(116u8)
    } else if c == 10 {
        Some(110u8)
    } else if c == 12 {
        Some(102u8)
    } else if c == 13 {
        Some(114u8)
    } else {
        None
    }
}

/// The control byte that a one-letter JSON escape stands for.
pub open spec fn short_unescape(e: u8) -> Option<u8> {
    if e == 98 {
        Some(8u8)
    } else if e == 116 {
        Some(9u8)
    } else if e == 110 {
        Some(10u8)
    } else if e == 102 {
        Some(12u8)
    } else if e == 114 {
        Some(13u8)
    } else {
        None
    }
}

/// JSON string escaping of one byte, as serde_json writes it: the quote and
/// the backslash take a backslash, five control bytes take a letter, the
/// other control bytes become `\u00xx`.
pub open spec fn escape_byte(c: u8) -> Seq<u8> {
    if is_quote_or_backslash(c) {
        seq![92u8, c]
    } else if short_escape(c) is Some {
        seq![92u8, short_escape(c).unwrap()]
    } else if c < 32 {
        seq![92u8, 117, 48, 48, (48 + c / 16) as u8, hex_digit(c % 16)]
    } else {
        seq![c]
    }
}

/// JSON string escaping.
pub open spec fn escape(u: Seq<u8>) -> Seq<u8>
    decreases u.len(),
{
    if u.len() == 0 {
        seq![]
    } else {
        escape_byte(u[0]) + escape(u.drop_first())
    }
}

/// Whether `\u00xx` for a control byte starts at `i`.
pub open spec fn control_escape_at(b: Seq<u8>, i: int) -> bool {
    0 <= i && i + 5 < b.len() && b[i] == 92 && b[i + 1] == 117 && b[i + 2] == 48 && b[i + 3] == 48
        && (b[i + 4] == 48 || b[i + 4] == 49) && hex_value(b[i + 5]) is Some && short_escape(
        control_escape_value(b, i),
    ) is None
}

/// The control byte written by the `\u00xx` escape at `i`.
pub open spec fn control_escape_value(b: Seq<u8>, i: int) -> u8 {
    ((b[i + 4] - 48) * 16 + hex_value(b[i + 5]).unwrap()) as u8
}

/// The decimal digits of `n`, most significant first, without leading zeros.
pub open spec fn decimal(n: nat) -> Seq<u8>
    decreases n,
{
    if n < 10 {
        seq![(48 + n) as u8]
    } else {
        decimal(n / 10) + seq![(48 + n % 10) as u8]
    }
}

/// The JSON claim set `{"username":"..","role":"..","exp":N}`.
pub open spec fn payload(username: Seq<u8>, role: Role, exp: u64) -> Seq<u8> {
    open_username() + escape(username) + open_role() + role_name(role) + open_exp() + decimal(
        exp as nat,
    ) + seq![125u8]
}

/// Reads a JSON string body from `i` up to its closing quote: the unescaped
/// bytes (after `acc`) and the index just past the quote.
pub open spec fn unescape(b: Seq<u8>, i: int, acc: Seq<u8>) -> Option<(Seq<u8>, int)>
    decreases b.len() - i,
{
    if i < 0 || i >= b.len() {
        None
    } else if b[i] == 34 {
        Some((acc, i + 1))
    } else if b[i] == 92 {
        if i + 1 < b.len() && is_quote_or_backslash(b[i + 1]) {
            unescape(b, i + 2, acc.push(b[i + 1]))
        } else if i + 1 < b.len() && short_unescape(b[i + 1]) is Some {
            unescape(b, i + 2, acc.push(short_unescape(b[i + 1]).unwrap()))
        } else if control_escape_at(b, i) {
            unescape(b, i + 6, acc.push(control_escape_value(b, i)))
        } else {
            None
        }
    } else if b[i] < 32 {
        None
    } else {
        unescape(b, i + 1, acc.push(b[i]))
    }
}

pub open spec fn is_digit(c: u8) -> bool {
    48 <= c <= 57
}

/// The value of a run of decimal digits.
pub open spec fn digits_value(s: Seq<u8>) -> nat
    decreases s.len(),
{
    if s.len() == 0 {
        0
    } else {
        digits_value(s.drop_last()) * 10 + (s.last() - 48) as nat
    }
}

/// The first index at or after `i` that holds `c`, if any.
pub open spec fn find_byte(b: Seq<u8>, i: int, c: u8) -> Option<int>
    decreases b.len() - i,
{
    if i < 0 || i >= b.len() {
        None
    } else if b[i] == c {
        Some(i)
    } else {
        find_byte(b, i + 1, c)
    }
}

pub open spec fn has_at(b: Seq<u8>, i: int, p: Seq<u8>) -> bool {
    0 <= i && i + p.len() <= b.len() && b.subrange(i, i + p.len()) == p
}

/// A JSON integer has no leading zero.
pub open spec fn no_leading_zero(digits: Seq<u8>) -> bool {
    digits.len() == 1 || digits[0] != 48
}

/// Reads `N}` at the end of the claim set, from index `i`: `N` is a JSON
/// integer (decimal digits, no leading zero) that fits in 64 bits.
pub open spec fn parse_exp(b: Seq<u8>, i: int) -> Option<u64> {
    let digits = b.subrange(i, b.len() - 1);
    if 0 <= i && i < b.len() - 1 && b.last() == 125 && (forall|k: int|
        0 <= k < digits.len() ==> is_digit(#[trigger] digits[k])) && no_leading_zero(digits)
        && digits_value(digits) <= u64::MAX {
        Some(digits_value(digits) as u64)
    } else {
        None
    }
}

/// Reads a claim set written by `payload`: the username bytes, role and expiry.
pub open spec fn parse_payload(b: Seq<u8>) -> Option<(Seq<u8>, Role, u64)> {
    if !has_at(b, 0, open_username()) {
        None
    } else {
        match unescape(b, open_username().len() as int, seq![]) {
            None => None,
            Some((u, j)) => {
                let k = j - 1 + open_role().len();
                if !has_at(b, j - 1, open_role()) {
                    None
                } else {
                    match find_byte(b, k, 34) {
                        None => None,
                        Some(m) => match role_of_name(b.subrange(k, m)) {
                            None => None,
                            Some(role) => if !has_at(b, m, open_exp()) {
                                None
                            } else {
                                match parse_exp(b, m + open_exp().len()) {
                                    None => None,
                                    Some(exp) => Some((u, role, exp)),
                                }
                            },
                        },
                    }
                }
            },
        }
    }
}

proof fn lemma_unescape_escape(b: Seq<u8>, i: int, acc: Seq<u8>, u: Seq<u8>)
    requires
        has_at(b, i, escape(u)),
        i + escape(u).len() < b.len(),
        b[i + escape(u).len()] == 34,
    ensures
        unescape(b, i, acc) == Some((acc + u, i + escape(u).len() + 1)),
    decreases u.len(),
{
    let e = escape(u);
    if u.len() == 0 {
        assert(acc + u =~= acc);
    } else {
        let rest = u.drop_first();
        let c = u[0];
        let w = escape_byte(c).len() as int;
        assert(e =~= escape_byte(c) + escape(rest));
        assert forall|k: int| 0 <= k < w implies b[i + k] == escape_byte(c)[k] by {
            assert(b[i + k] == b.subrange(i, i + e.len())[k]);
        }
        assert(e.subrange(w, e.len() as int) =~= escape(rest));
        assert(b.subrange(i + w, i + w + escape(rest).len()) =~= e.subrange(w, e.len() as int));
        lemma_unescape_escape(b, i + w, acc.push(c), rest);
        if is_quote_or_backslash(c) {
            assert(unescape(b, i, acc) == unescape(b, i + 2, acc.push(c)));
        } else if short_escape(c) is Some {
            assert(b[i + 1] == escape_byte(c)[1]);
            assert(short_unescape(b[i + 1]) == Some(c));
            assert(unescape(b, i, acc) == unescape(b, i + 2, acc.push(c)));
        } else if c < 32 {
            assert(hex_value(hex_digit(c % 16)) == Some(c % 16));
            assert(control_escape_at(b, i));
            assert(control_escape_value(b, i) == c);
            assert(unescape(b, i, acc) == unescape(b, i + 6, acc.push(c)));
        } else {
            assert(b[i + 0] == escape_byte(c)[0]);
            assert(b[i] == c);
            assert(unescape(b, i, acc) == unescape(b, i + 1, acc.push(c)));
        }
        assert(acc.push(c) + rest =~= acc + u);
    }
}

proof fn lemma_unescape_canonical(b: Seq<u8>, i: int, acc: Seq<u8>)
    requires
        unescape(b, i, acc) is Some,
    ensures
        ({
            let (v, j) = unescape(b, i, acc).unwrap();
            let u = v.subrange(acc.len() as int, v.len() as int);
            &&& acc.len() <= v.len()
            &&& v == acc + u
            &&& 0 <= i < j <= b.len()
            &&& b.subrange(i, j - 1) == escape(u)
            &&& b[j - 1] == 34
        }),
    decreases b.len() - i,
{
    let (v, j) = unescape(b, i, acc).unwrap();
    if b[i] == 34 {
        assert(v.subrange(acc.len() as int, v.len() as int) =~= Seq::<u8>::empty());
        assert(b.subrange(i, j - 1) =~= Seq::<u8>::empty());
        assert(v =~= acc + Seq::<u8>::empty());
    } else {
        let (w, c) = if b[i] == 92 {
            if i + 1 < b.len() && is_quote_or_backslash(b[i + 1]) {
                (2int, b[i + 1])
            } else if i + 1 < b.len() && short_unescape(b[i + 1]) is Some {
                (2int, short_unescape(b[i + 1]).unwrap())
            } else {
                (6int, control_escape_value(b, i))
            }
        } else {
            (1int, b[i])
        };
        let acc2 = acc.push(c);
        assert(unescape(b, i, acc) == unescape(b, i + w, acc2));
        lemma_unescape_canonical(b, i + w, acc2);
        let u2 = v.subrange(acc2.len() as int, v.len() as int);
        let u = v.subrange(acc.len() as int, v.len() as int);
        assert(u =~= seq![c] + u2);
        assert(u.drop_first() =~= u2);
        if w == 6 {
            let lo = hex_value(b[i + 5]).unwrap();
            assert(c / 16 == b[i + 4] - 48);
            assert(c % 16 == lo);
            assert(hex_digit(lo) == b[i + 5]);
        }
        assert(b.subrange(i, i + w) =~= escape_byte(c));
        assert(b.subrange(i, j - 1) =~= b.subrange(i, i + w) + b.subrange(i + w, j - 1));
        assert(v =~= acc + u);
    }
}

proof fn lemma_digits_canonical(d: Seq<u8>)
    requires
        d.len() >= 1,
        forall|k: int| 0 <= k < d.len() ==> is_digit(#[trigger] d[k]),
        no_leading_zero(d),
    ensures
        decimal(digits_value(d)) == d,
    decreases d.len(),
{
    let v = digits_value(d);
    let dl = d.drop_last();
    if d.len() == 1 {
        assert(dl =~= Seq::<u8>::empty());
        assert(digits_value(dl) == 0);
        assert(v == (d[0] - 48) as nat);
        assert(decimal(v) == seq![(48 + v) as u8]);
        assert(decimal(v) =~= d);
    } else {
        assert(dl[0] == d[0]);
        lemma_digits_canonical(dl);
        if digits_value(dl) == 0 {
            assert(decimal(0)[0] == 48);
        }
        assert(v / 10 == digits_value(dl));
        assert(v % 10 == (d.last() - 48) as nat);
        assert(decimal(v) =~= decimal(digits_value(dl)) + seq![d.last()]);
        assert(d =~= dl + seq![d.last()]);
    }
}

/// The reader accepts exactly the claim sets that `payload` writes: what it
/// reads from `b` writes back as `b`.
pub proof fn lemma_parse_payload_exact(b: Seq<u8>)
    ensures
        parse_payload(b) matches Some((u, role, exp)) ==> b == payload(u, role, exp),
        parse_payload(b) is None ==> forall|u: Seq<u8>, role: Role, exp: u64|
            b != #[trigger] payload(u, role, exp),
{
    if parse_payload(b) is Some {
        let (u, role, exp) = parse_payload(b).unwrap();
        let j0 = open_username().len() as int;
        lemma_unescape_canonical(b, j0, seq![]);
        let (v, j) = unescape(b, j0, seq![]).unwrap();
        assert(v.subrange(0, v.len() as int) =~= v);
        let k = j - 1 + open_role().len();
        let m = find_byte(b, k, 34).unwrap();
        lemma_find_byte_bounds(b, k, 34);
        let i = m + open_exp().len();
        let digits = b.subrange(i, b.len() - 1);
        lemma_digits_canonical(digits);
        assert(b =~= b.subrange(0, j0) + b.subrange(j0, j - 1) + b.subrange(j - 1, k) + b.subrange(
            k,
            m,
        ) + b.subrange(m, i) + digits + seq![b.last()]);
        assert(b =~= payload(u, role, exp));
    } else {
        assert forall|u: Seq<u8>, role: Role, exp: u64| b != #[trigger] payload(u, role, exp) by {
            lemma_parse_payload(u, role, exp);
        }
    }
}

proof fn lemma_find_byte_bounds(b: Seq<u8>, i: int, c: u8)
    requires
        find_byte(b, i, c) is Some,
    ensures
        i <= find_byte(b, i, c).unwrap() < b.len(),
    decreases b.len() - i,
{
    if b[i] != c {
        lemma_find_byte_bounds(b, i + 1, c);
    }
}

pub(crate) proof fn lemma_find_byte(b: Seq<u8>, i: int, c: u8, m: int)
    requires
        0 <= i <= m < b.len(),
        b[m] == c,
        forall|k: int| i <= k < m ==> b[k] != c,
    ensures
        find_byte(b, i, c) == Some(m),
    decreases m - i,
{
    if i < m {
        lemma_find_byte(b, i + 1, c, m);
    }
}

proof fn lemma_decimal(n: nat)
    ensures
        decimal(n).len() >= 1,
        forall|k: int| 0 <= k < decimal(n).len() ==> is_digit(#[trigger] decimal(n)[k]),
        digits_value(decimal(n)) == n,
        no_leading_zero(decimal(n)),
        n >= 1 ==> decimal(n)[0] != 48,
    decreases n,
{
    let d = decimal(n);
    if n >= 10 {
        lemma_decimal(n / 10);
        assert(d[0] == decimal(n / 10)[0]);
        if n / 10 < 10 {
            assert(decimal(n / 10)[0] == (48 + n / 10) as u8);
        }
        assert(d.drop_last() =~= decimal(n / 10));
        assert(d.last() == (48 + n % 10) as u8);
        assert((d.last() - 48) as nat == n % 10);
        assert(n == (n / 10) * 10 + n % 10);
    } else {
        assert(d.drop_last() =~= Seq::<u8>::empty());
        assert(digits_value(d.drop_last()) == 0);
    }
}

/// A claim set written by `payload` reads back as the same username, role
/// and expiry.
pub proof fn lemma_parse_payload(username: Seq<u8>, role: Role, exp: u64)
    ensures
        parse_payload(payload(username, role, exp)) == Some((username, role, exp)),
{
    let b = payload(username, role, exp);
    let e = escape(username);
    let rn = role_name(role);
    let d = decimal(exp as nat);
    let ou = open_username();
    let orl = open_role();
    let oe = open_exp();
    assert(b =~= ou + e + orl + rn + oe + d + seq![125u8]);
    let j0 = ou.len() as int;
    let j1 = j0 + e.len();
    let j2 = j1 + orl.len();
    let j3 = j2 + rn.len();
    let j4 = j3 + oe.len();
    assert(b.subrange(0, j0) =~= ou);
    assert(b.subrange(j0, j1) =~= e);
    assert(b.subrange(j1, j2) =~= orl);
    assert(b.subrange(j2, j3) =~= rn);
    assert(b.subrange(j3, j4) =~= oe);
    assert(b.subrange(j4, b.len() - 1) =~= d);
    assert(b[j1] == orl[0]);
    lemma_unescape_escape(b, j0, seq![], username);
    assert(seq![] + username =~= username);
    assert(b[j3] == oe[0]);
    assert forall|k: int| j2 <= k < j3 implies b[k] != 34 by {
        assert(b[k] == rn[k - j2]);
    }
    lemma_find_byte(b, j2, 34, j3);
    lemma_role_name_round_trip(role);
    lemma_decimal(exp as nat);
}

fn push_all(out: &mut Vec<u8>, p: &[u8])
    ensures
        final(out)@ == old(out)@ + p@,
{
    let mut i: usize = 0;
    while i < p.len()
        invariant
            0 <= i <= p@.len(),
            out@ == old(out)@ + p@.subrange(0, i as int),
        decreases p@.len() - i,
    {
        out.push(p[i]);
        assert(p@.subrange(0, i + 1) =~= p@.subrange(0, i as int).push(p@[i as int]));
        i = i + 1;
    }
    assert(p@.subrange(0, p@.len() as int) =~= p@);
}

fn open_username_bytes() -> (r: Vec<u8>)
    ensures
        r@ == open_username(),
{
    let r = vec![123u8, 34, 117, 115, 101, 114, 110, 97, 109, 101, 34, 58, 34];
    assert(r@ =~= open_username());
    r
}

fn open_role_bytes() -> (r: Vec<u8>)
    ensures
        r@ == open_role(),
{
    let r = vec![34u8, 44, 34, 114, 111, 108, 101, 34, 58, 34];
    assert(r@ =~= open_role());
    r
}

fn open_exp_bytes() -> (r: Vec<u8>)
    ensures
        r@ == open_exp(),
{
    let r = vec![34u8, 44, 34, 101, 120, 112, 34, 58];
    assert(r@ =~= open_exp());
    r
}

fn push_escaped(out: &mut Vec<u8>, u: &[u8])
    ensures
        final(out)@ == old(out)@ + escape(u@),
{
    let mut i: usize = 0;
    assert(u@.subrange(0, u@.len() as int) =~= u@);
    assert(out@ + escape(u@) =~= old(out)@ + escape(u@));
    while i < u.len()
        invariant
            0 <= i <= u@.len(),
            out@ + escape(u@.subrange(i as int, u@.len() as int)) == old(out)@ + escape(u@),
        decreases u@.len() - i,
    {
        let ghost before = out@;
        let ghost rest = u@.subrange(i as int, u@.len() as int);
        assert(rest.drop_first() =~= u@.subrange(i + 1, u@.len() as int));
        let c = u[i];
        if c == 34 || c == 92 {
            out.push(92);
            out.push(c);
            assert(out@ =~= before + seq![92u8, c]);
        } else if c == 8 || c == 9 || c == 10 || c == 12 || c == 13 {
            out.push(92);
            out.push(
                if c == 8 {
                    98
                } else if c == 9 {
                    116
                } else if c == 10 {
                    110
                } else if c == 12 {
                    102
                } else {
                    114
                },
            );
            assert(out@ =~= before + escape_byte(c));
        } else if c < 32 {
            let lo = c % 16;
            out.push(92);
            out.push(117);
            out.push(48);
            out.push(48);
            out.push(48 + c / 16);
            out.push(if lo < 10 { 48 + lo } else { 87 + lo });
            assert(out@ =~= before + escape_byte(c));
        } else {
            out.push(c);
            assert(out@ =~= before + seq![c]);
        }
        i = i + 1;
        assert(out@ + escape(u@.subrange(i as int, u@.len() as int)) =~= before + escape(rest));
    }
    assert(u@.subrange(i as int, u@.len() as int) =~= Seq::<u8>::empty());
    assert(out@ =~= old(out)@ + escape(u@));
}

fn push_decimal(out: &mut Vec<u8>, n: u64)
    ensures
        final(out)@ == old(out)@ + decimal(n as nat),
    decreases n,
{
    if n >= 10 {
        push_decimal(out, n / 10);
    }
    out.push(48 + (n % 10) as u8);
    assert(out@ =~= old(out)@ + decimal(n as nat));
}

/// Writes the claim set `{"username":"..","role":"..","exp":N}`.
pub fn write_payload(username: &[u8], role: Role, exp: u64) -> (r: Vec<u8>)
    ensures
        r@ == payload(username@, role, exp),
{
    let mut out: Vec<u8> = Vec::new();
    push_all(&mut out, open_username_bytes().as_slice());
    push_escaped(&mut out, username);
    push_all(&mut out, open_role_bytes().as_slice());
    push_all(&mut out, role.name().as_slice());
    push_all(&mut out, open_exp_bytes().as_slice());
    push_decimal(&mut out, exp);
    out.push(125);
    assert(out@ =~= payload(username@, role, exp));
    out
}

pub(crate) fn has_at_exec(b: &[u8], i: usize, p: &[u8]) -> (r: bool)
    ensures
        r == has_at(b@, i as int, p@),
{
    let n = b.len();
    if i > n || p.len() > n - i {
        return false;
    }
    let mut k: usize = 0;
    while k < p.len()
        invariant
            n == b@.len(),
            i <= b@.len(),
            p@.len() <= b@.len() - i,
            0 <= k <= p@.len(),
            forall|t: int| 0 <= t < k ==> b@[i + t] == p@[t],
        decreases p@.len() - k,
    {
        assert(i + k < n);
        if b[i + k] != p[k] {
            assert(b@.subrange(i as int, i + p@.len())[k as int] != p@[k as int]);
            return false;
        }
        k = k + 1;
    }
    assert(b@.subrange(i as int, i + p@.len()) =~= p@);
    true
}

fn unescape_exec(b: &[u8], i: usize) -> (r: Option<(Vec<u8>, usize)>)
    ensures
        match r {
            Some((u, j)) => unescape(b@, i as int, seq![]) == Some((u@, j as int)) && 1 <= j
                <= b@.len(),
            None => unescape(b@, i as int, seq![]) is None,
        },
{
    let mut acc: Vec<u8> = Vec::new();
    let mut j: usize = i;
    while j < b.len()
        invariant
            unescape(b@, j as int, acc@) == unescape(b@, i as int, seq![]),
        decreases b@.len() - j,
    {
        let c = b[j];
        if c == 34 {
            return Some((acc, j + 1));
        } else if c == 92 {
            if j + 1 < b.len() && (b[j + 1] == 34 || b[j + 1] == 92) {
                acc.push(b[j + 1]);
                j = j + 2;
            } else if j + 1 < b.len() && (b[j + 1] == 98 || b[j + 1] == 116 || b[j + 1] == 110
                || b[j + 1] == 102 || b[j + 1] == 114) {
                let e = b[j + 1];
                acc.push(
                    if e == 98 {
                        8
                    } else if e == 116 {
                        9
                    } else if e == 110 {
                        10
                    } else if e == 102 {
                        12
                    } else {
                        13
                    },
                );
                j = j + 2;
            } else if b.len() - j > 5 && b[j + 1] == 117 && b[j + 2] == 48 && b[j + 3] == 48 && (
            b[j + 4] == 48 || b[j + 4] == 49) {
                let d = b[j + 5];
                let lo: u8 = if 48 <= d && d <= 57 {
                    d - 48
                } else if 97 <= d && d <= 102 {
                    d - 87
                } else {
                    return None;
                };
                let c = (b[j + 4] - 48) * 16 + lo;
                if c == 8 || c == 9 || c == 10 || c == 12 || c == 13 {
                    return None;
                }
                acc.push(c);
                j = j + 6;
            } else {
                return None;
            }
        } else if c < 32 {
            return None;
        } else {
            acc.push(c);
            j = j + 1;
        }
    }
    None
}

pub(crate) fn find_byte_exec(b: &[u8], i: usize, c: u8) -> (r: Option<usize>)
    ensures
        match r {
            Some(m) => find_byte(b@, i as int, c) == Some(m as int) && i <= m < b@.len(),
            None => find_byte(b@, i as int, c) is None,
        },
{
    let mut j: usize = i;
    while j < b.len()
        invariant
            i <= j,
            find_byte(b@, j as int, c) == find_byte(b@, i as int, c),
        decreases b@.len() - j,
    {
        if b[j] == c {
            return Some(j);
        }
        j = j + 1;
    }
    None
}

fn parse_exp_exec(b: &[u8], i: usize) -> (r: Option<u64>)
    ensures
        r == parse_exp(b@, i as int),
{
    let n = b.len();
    if n == 0 || i >= n - 1 || b[n - 1] != 125 {
        return None;
    }
    let ghost digits = b@.subrange(i as int, n - 1);
    if n - 1 - i > 1 && b[i] == 48 {
        assert(!no_leading_zero(digits));
        return None;
    }
    let mut v: u128 = 0;
    let mut k: usize = i;
    while k < n - 1
        invariant
            n == b@.len(),
            i <= k <= n - 1,
            digits == b@.subrange(i as int, n - 1),
            forall|t: int| 0 <= t < k - i ==> is_digit(#[trigger] digits[t]),
            v == if digits_value(digits.subrange(0, k - i)) < 18446744073709551616u128 {
                digits_value(digits.subrange(0, k - i))
            } else {
                18446744073709551616nat
            },
        decreases n - 1 - k,
    {
        let c = b[k];
        if c < 48 || c > 57 {
            assert(!is_digit(digits[k - i]));
            return None;
        }
        let ghost prev = digits_value(digits.subrange(0, k - i));
        let ghost next = digits.subrange(0, k - i + 1);
        assert(next.drop_last() =~= digits.subrange(0, k - i));
        assert(digits_value(next) == prev * 10 + (c - 48) as nat);
        if v < 18446744073709551616u128 {
            assert(v * 10 <= 184467440737095516160) by (nonlinear_arith)
                requires
                    v < 18446744073709551616u128,
            ;
            let w = v * 10 + (c - 48) as u128;
            v = if w < 18446744073709551616u128 {
                w
            } else {
                18446744073709551616u128
            };
        }
        k = k + 1;
    }
    assert(digits.subrange(0, digits.len() as int) =~= digits);
    if v < 18446744073709551616u128 {
        Some(v as u64)
    } else {
        None
    }
}

pub(crate) fn range_eq(b: &[u8], k: usize, m: usize, p: &[u8]) -> (r: bool)
    requires
        k <= m <= b@.len(),
    ensures
        r == (b@.subrange(k as int, m as int) == p@),
{
    if m - k != p.len() {
        return false;
    }
    has_at_exec(b, k, p)
}

/// Reads a claim set written by `write_payload`: the username, role and
/// expiry that write exactly `b`, or `None` where no claim set writes `b`.
pub fn read_payload(b: &[u8]) -> (r: Option<(Vec<u8>, Role, u64)>)
    ensures
        match r {
            Some((u, role, exp)) => b@ == payload(u@, role, exp) && parse_payload(b@) == Some(
                (u@, role, exp),
            ),
            None => parse_payload(b@) is None && forall|u: Seq<u8>, role: Role, exp: u64|
                b@ != #[trigger] payload(u, role, exp),
        },
{
    proof {
        lemma_parse_payload_exact(b@);
    }
    let n = b.len();
    let ou = open_username_bytes();
    if !has_at_exec(b, 0, ou.as_slice()) {
        return None;
    }
    let (u, j) = match unescape_exec(b, ou.len()) {
        Some(x) => x,
        None => {
            return None;
        },
    };
    let orl = open_role_bytes();
    if !has_at_exec(b, j - 1, orl.as_slice()) {
        return None;
    }
    assert(j - 1 + orl@.len() <= n);
    let k = j - 1 + orl.len();
    let m = match find_byte_exec(b, k, 34) {
        Some(m) => m,
        None => {
            return None;
        },
    };
    let role = if range_eq(b, k, m, Role::Admin.name().as_slice()) {
        Role::Admin
    } else if range_eq(b, k, m, Role::Seller.name().as_slice()) {
        Role::Seller
    } else if range_eq(b, k, m, Role::Buyer.name().as_slice()) {
        Role::Buyer
    } else {
        return None;
    };
    let oe = open_exp_bytes();
    if !has_at_exec(b, m, oe.as_slice()) {
        return None;
    }
    assert(m + oe@.len() <= n);
    match parse_exp_exec(b, m + oe.len()) {
        Some(exp) => Some((u, role, exp)),
        None => None,
    }
}

} // verus!
