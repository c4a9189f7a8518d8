//! The JSON shape of each component configuration.
//!
//! Every configuration encodes to one canonical line of JSON — keys in a
//! fixed order, fractional fields with exactly six decimals — and the
//! decoder accepts exactly that canonical form: it parses, re-encodes,
//! and admits the bytes only if they match. So whatever the decoder
//! returns, the input was that configuration's canonical encoding, and
//! the injectivity lemmas below show the encoding determines the
//! configuration.
use vstd::prelude::*;
use crate::balancer::{BalancingStrategy, LoadBalancerConfig, RetryStrategy};
use crate::client::ClientConfig;
use crate::network::EdgeConfig;
use crate::server::ServerConfig;

verus! {

/// An ASCII decimal digit.
pub open spec fn is_digit(b: u8) -> bool {
    48 <= b <= 57
}

/// The decimal digits of `n`, most significant first.
pub open spec fn dec_digits(n: nat) -> Seq<u8>
    decreases n,
{
    if n < 10 {
        seq![(48 + n) as u8]
    } else {
        dec_digits(n / 10).push((48 + n % 10) as u8)
    }
}

/// The number a digit string denotes.
pub open spec fn value_of(s: Seq<u8>) -> int
    decreases s.len(),
{
    if s.len() == 0 {
        0
    } else {
        value_of(s.drop_last()) * 10 + (s.last() - 48)
    }
}

/// `k` ASCII zeros.
pub open spec fn zeros(k: nat) -> Seq<u8> {
    Seq::new(k, |i: int| 48u8)
}

/// `m` (below one million) as exactly six digits, zero padded.
pub open spec fn pad6(m: nat) -> Seq<u8> {
    zeros((6 - dec_digits(m).len()) as nat) + dec_digits(m)
}

/// `x` as a decimal with six fraction digits, denoting `x` millionths.
pub open spec fn frac6_bytes(x: u64) -> Seq<u8> {
    dec_digits((x / 1_000_000) as nat) + seq![46u8] + pad6((x % 1_000_000) as nat)
}

/// A decimal number sits at `pos`: its digits verbatim, ended by the
/// string's end or a non-digit.
pub open spec fn u64_at(s: Seq<u8>, pos: int, x: u64) -> bool {
    &&& 0 <= pos
    &&& pos + dec_digits(x as nat).len() <= s.len()
    &&& s.subrange(pos, pos + dec_digits(x as nat).len() as int) == dec_digits(x as nat)
    &&& (pos + dec_digits(x as nat).len() == s.len() || !is_digit(
        s[pos + dec_digits(x as nat).len() as int],
    ))
}

/// A six-decimal number sits at `pos`, ended by the string's end or a
/// non-digit.
pub open spec fn frac6_at(s: Seq<u8>, pos: int, x: u64) -> bool {
    &&& 0 <= pos
    &&& pos + frac6_bytes(x).len() <= s.len()
    &&& s.subrange(pos, pos + frac6_bytes(x).len() as int) == frac6_bytes(x)
    &&& (pos + frac6_bytes(x).len() == s.len() || !is_digit(
        s[pos + frac6_bytes(x).len() as int],
    ))
}

proof fn lemma_value_of_nonneg(d: Seq<u8>)
    requires
        forall|i: int| 0 <= i < d.len() ==> is_digit(#[trigger] d[i]),
    ensures
        value_of(d) >= 0,
    decreases d.len(),
{
    if d.len() > 0 {
        assert forall|i: int| 0 <= i < d.drop_last().len() implies is_digit(
            #[trigger] d.drop_last()[i],
        ) by {
            assert(d.drop_last()[i] == d[i]);
        }
        lemma_value_of_nonneg(d.drop_last());
    }
}

/// A digit string's prefixes denote no more than the whole string.
proof fn lemma_value_of_take_le(d: Seq<u8>, k: int)
    requires
        0 <= k <= d.len(),
        forall|i: int| 0 <= i < d.len() ==> is_digit(#[trigger] d[i]),
    ensures
        0 <= value_of(d.take(k)) <= value_of(d),
    decreases d.len() - k,
{
    assert forall|i: int| 0 <= i < d.take(k).len() implies is_digit(#[trigger] d.take(k)[i]) by {
        assert(d.take(k)[i] == d[i]);
    }
    lemma_value_of_nonneg(d.take(k));
    if k == d.len() {
        assert(d.take(k) =~= d);
    } else {
        assert(d.take(k + 1).drop_last() =~= d.take(k));
        assert(d.take(k + 1).last() == d[k]);
        lemma_value_of_take_le(d, k + 1);
    }
}

pub proof fn lemma_dec_digits_are_digits(n: nat)
    ensures
        forall|i: int| 0 <= i < dec_digits(n).len() ==> is_digit(#[trigger] dec_digits(n)[i]),
    decreases n,
{
    if n < 10 {
        assert(dec_digits(n)[0] == (48 + n) as u8);
    } else {
        lemma_dec_digits_are_digits(n / 10);
        assert forall|i: int| 0 <= i < dec_digits(n).len() implies is_digit(
            #[trigger] dec_digits(n)[i],
        ) by {
            if i < dec_digits(n).len() - 1 {
                assert(dec_digits(n)[i] == dec_digits(n / 10)[i]);
            } else {
                assert(dec_digits(n)[i] == (48 + n % 10) as u8);
            }
        }
    }
}

pub proof fn lemma_value_of_dec_digits(n: nat)
    ensures
        value_of(dec_digits(n)) == n,
    decreases n,
{
    if n < 10 {
        assert(dec_digits(n).drop_last() =~= Seq::<u8>::empty());
        assert(dec_digits(n).last() == (48 + n) as u8);
        assert(value_of(dec_digits(n)) == value_of(Seq::<u8>::empty()) * 10 + ((48 + n) as u8
            - 48));
    } else {
        lemma_value_of_dec_digits(n / 10);
        assert(dec_digits(n).drop_last() =~= dec_digits(n / 10));
        assert(dec_digits(n).last() == (48 + n % 10) as u8);
        assert(value_of(dec_digits(n)) == value_of(dec_digits(n / 10)) * 10 + ((48 + n % 10) as u8
            - 48));
        assert((n / 10) * 10 + n % 10 == n);
    }
}

proof fn lemma_value_of_zeros(k: nat)
    ensures
        value_of(zeros(k)) == 0,
    decreases k,
{
    if k > 0 {
        assert(zeros(k).drop_last() =~= zeros((k - 1) as nat));
        lemma_value_of_zeros((k - 1) as nat);
    }
}

proof fn lemma_value_of_zero_padded(k: nat, d: Seq<u8>)
    ensures
        value_of(zeros(k) + d) == value_of(d),
    decreases d.len(),
{
    if d.len() == 0 {
        assert(zeros(k) + d =~= zeros(k));
        lemma_value_of_zeros(k);
    } else {
        assert((zeros(k) + d).drop_last() =~= zeros(k) + d.drop_last());
        lemma_value_of_zero_padded(k, d.drop_last());
        assert((zeros(k) + d).last() == d.last());
    }
}

/// At most `k` digits suffice below `10^k` (stated for the six-digit pad).
proof fn lemma_dec_digits_len_below_million(n: nat)
    requires
        n < 1_000_000,
    ensures
        1 <= dec_digits(n).len() <= 6,
    decreases n,
{
    if n >= 10 {
        lemma_dec_digits_len_below_million(n / 10);
        if n / 10 >= 100_000 {
            assert(n >= 1_000_000);
        }
        lemma_dec_digits_len_bound(n / 10, n);
    }
}

proof fn lemma_dec_digits_len_bound(m: nat, n: nat)
    requires
        m == n / 10,
        n < 1_000_000,
        n >= 10,
    ensures
        dec_digits(m).len() <= 5,
    decreases m,
{
    lemma_dec_digits_len5(m);
}

proof fn lemma_dec_digits_len5(m: nat)
    requires
        m < 100_000,
    ensures
        dec_digits(m).len() <= 5,
    decreases m,
{
    if m >= 10 {
        lemma_dec_digits_len5(m / 10);
        assert(dec_digits(m / 10).len() <= 5);
        lemma_dec_digits_len4(m / 10);
    }
}

proof fn lemma_dec_digits_len4(m: nat)
    requires
        m < 10_000,
    ensures
        dec_digits(m).len() <= 4,
    decreases m,
{
    if m >= 10 {
        lemma_dec_digits_len3(m / 10);
    }
}

proof fn lemma_dec_digits_len3(m: nat)
    requires
        m < 1_000,
    ensures
        dec_digits(m).len() <= 3,
    decreases m,
{
    if m >= 10 {
        lemma_dec_digits_len2(m / 10);
    }
}

proof fn lemma_dec_digits_len2(m: nat)
    requires
        m < 100,
    ensures
        dec_digits(m).len() <= 2,
    decreases m,
{
    if m >= 10 {
        assert(m / 10 < 10);
        assert(dec_digits(m / 10).len() == 1);
        assert(dec_digits(m) == dec_digits(m / 10).push((48 + m % 10) as u8));
    }
}

/// Two digit strings followed by non-digits agree exactly when their
/// numbers agree: the first non-digit pins the length, and the digits
/// pin the value.
pub proof fn lemma_int_prefix_unique(a: nat, b: nat, x: Seq<u8>, y: Seq<u8>)
    requires
        dec_digits(a) + x == dec_digits(b) + y,
        x.len() > 0,
        y.len() > 0,
        !is_digit(x[0]),
        !is_digit(y[0]),
    ensures
        a == b,
        x == y,
{
    let da = dec_digits(a);
    let db = dec_digits(b);
    lemma_dec_digits_are_digits(a);
    lemma_dec_digits_are_digits(b);
    if da.len() < db.len() {
        assert((da + x)[da.len() as int] == x[0]);
        assert((db + y)[da.len() as int] == db[da.len() as int]);
        assert(false);
    }
    if db.len() < da.len() {
        assert((db + y)[db.len() as int] == y[0]);
        assert((da + x)[db.len() as int] == da[db.len() as int]);
        assert(false);
    }
    assert(da =~= (da + x).subrange(0, da.len() as int));
    assert(db =~= (db + y).subrange(0, db.len() as int));
    assert(da == db);
    lemma_value_of_dec_digits(a);
    lemma_value_of_dec_digits(b);
    assert(x =~= (da + x).subrange(da.len() as int, (da + x).len() as int));
    assert(y =~= (db + y).subrange(db.len() as int, (db + y).len() as int));
}

/// Two six-decimal numbers followed by non-digits agree exactly when
/// their values agree.
pub proof fn lemma_frac6_prefix_unique(a: u64, b: u64, x: Seq<u8>, y: Seq<u8>)
    requires
        frac6_bytes(a) + x == frac6_bytes(b) + y,
        x.len() > 0,
        y.len() > 0,
        !is_digit(x[0]),
        !is_digit(y[0]),
    ensures
        a == b,
        x == y,
{
    let pa = pad6((a % 1_000_000) as nat);
    let pb = pad6((b % 1_000_000) as nat);
    lemma_dec_digits_len_below_million((a % 1_000_000) as nat);
    lemma_dec_digits_len_below_million((b % 1_000_000) as nat);
    assert(pa.len() == 6 && pb.len() == 6);
    assert(dec_digits((a / 1_000_000) as nat) + (seq![46u8] + pa + x) =~= frac6_bytes(a) + x);
    assert(dec_digits((b / 1_000_000) as nat) + (seq![46u8] + pb + y) =~= frac6_bytes(b) + y);
    assert(!is_digit((seq![46u8] + pa + x)[0]));
    assert(!is_digit((seq![46u8] + pb + y)[0]));
    lemma_int_prefix_unique(
        (a / 1_000_000) as nat,
        (b / 1_000_000) as nat,
        seq![46u8] + pa + x,
        seq![46u8] + pb + y,
    );
    assert(pa =~= (seq![46u8] + pa + x).subrange(1, 7));
    assert(pb =~= (seq![46u8] + pb + y).subrange(1, 7));
    assert(pa == pb);
    lemma_value_of_zero_padded(
        (6 - dec_digits((a % 1_000_000) as nat).len()) as nat,
        dec_digits((a % 1_000_000) as nat),
    );
    lemma_value_of_zero_padded(
        (6 - dec_digits((b % 1_000_000) as nat).len()) as nat,
        dec_digits((b % 1_000_000) as nat),
    );
    lemma_value_of_dec_digits((a % 1_000_000) as nat);
    lemma_value_of_dec_digits((b % 1_000_000) as nat);
    assert(a % 1_000_000 == b % 1_000_000);
    assert(a == b) by (nonlinear_arith)
        requires
            a / 1_000_000 == b / 1_000_000,
            a % 1_000_000 == b % 1_000_000,
    ;
    assert(x =~= (seq![46u8] + pa + x).subrange(7, (seq![46u8] + pa + x).len() as int));
    assert(y =~= (seq![46u8] + pb + y).subrange(7, (seq![46u8] + pb + y).len() as int));
}

/// Append the decimal digits of `n`.
pub fn push_u64(out: &mut Vec<u8>, n: u64)
    ensures
        final(out)@ == old(out)@ + dec_digits(n as nat),
    decreases n,
{
    if n < 10 {
        out.push(48 + n as u8);
        proof {
            assert(final(out)@ =~= old(out)@ + dec_digits(n as nat));
        }
    } else {
        push_u64(out, n / 10);
        out.push(48 + (n % 10) as u8);
        proof {
            assert(final(out)@ =~= old(out)@ + dec_digits(n as nat));
        }
    }
}

/// Append `m` as exactly six digits, zero padded.
fn push_pad6(out: &mut Vec<u8>, m: u64)
    requires
        m < 1_000_000,
    ensures
        final(out)@ == old(out)@ + pad6(m as nat),
{
    proof {
        reveal_with_fuel(dec_digits, 8);
    }
    if m < 10 {
        out.push(48);
        out.push(48);
        out.push(48);
        out.push(48);
        out.push(48);
    } else if m < 100 {
        out.push(48);
        out.push(48);
        out.push(48);
        out.push(48);
    } else if m < 1_000 {
        out.push(48);
        out.push(48);
        out.push(48);
    } else if m < 10_000 {
        out.push(48);
        out.push(48);
    } else if m < 100_000 {
        out.push(48);
    }
    push_u64(out, m);
    proof {
        assert(final(out)@ =~= old(out)@ + pad6(m as nat));
    }
}

/// Append `x` as a decimal denoting `x` millionths, with six fraction
/// digits.
fn push_frac6(out: &mut Vec<u8>, x: u64)
    ensures
        final(out)@ == old(out)@ + frac6_bytes(x),
{
    push_u64(out, x / 1_000_000);
    out.push(46);
    push_pad6(out, x % 1_000_000);
    proof {
        assert(final(out)@ =~= old(out)@ + frac6_bytes(x));
    }
}

/// Whether `bytes` continues with exactly `pat` at `pos`; the position
/// just past it if so, and nothing else: `None` means the pattern is
/// not there.
fn expect(bytes: &Vec<u8>, pos: usize, pat: &Vec<u8>) -> (r: Option<usize>)
    ensures
        r matches Option::Some(p) ==> p == pos + pat@.len() && p <= bytes@.len()
            && bytes@.subrange(pos as int, p as int) == pat@,
        r is None ==> !(pos + pat@.len() <= bytes@.len() && bytes@.subrange(
            pos as int,
            pos + pat@.len(),
        ) == pat@),
{
    if pat.len() > bytes.len() || pos > bytes.len() - pat.len() {
        return Option::None;
    }
    let mut k: usize = 0;
    while k < pat.len()
        invariant
            k <= pat@.len(),
            pos + pat@.len() <= bytes@.len(),
            bytes@.len() <= usize::MAX,
            forall|m: int| 0 <= m < k ==> bytes@[pos + m] == pat@[m],
        decreases pat@.len() - k,
    {
        if bytes[pos + k] != pat[k] {
            proof {
                assert(bytes@.subrange(pos as int, pos + pat@.len())[k as int] != pat@[k as int]);
            }
            return Option::None;
        }
        k += 1;
    }
    proof {
        assert(bytes@.subrange(pos as int, pos + pat@.len()) =~= pat@);
    }
    Option::Some(pos + pat.len())
}

/// Read a run of digits as a number; `None` on no digit or overflow. On
/// a number laid out canonically at `pos`, it reads exactly that number
/// and stops exactly past its digits.
fn read_int(bytes: &Vec<u8>, pos: usize) -> (r: Option<(u64, usize)>)
    ensures
        r matches Option::Some(vp) ==> pos < vp.1 <= bytes@.len(),
        forall|x: u64| #[trigger]
            u64_at(bytes@, pos as int, x) ==> r == Option::Some(
                (x, (pos + dec_digits(x as nat).len()) as usize),
            ),
{
    if pos > bytes.len() {
        return Option::None;
    }
    let mut k = pos;
    let mut acc: u64 = 0;
    while k < bytes.len() && bytes[k] >= 48 && bytes[k] <= 57
        invariant
            pos <= k <= bytes@.len(),
            bytes@.len() <= usize::MAX,
            forall|m: int| pos <= m < k ==> is_digit(#[trigger] bytes@[m]),
            acc == value_of(bytes@.subrange(pos as int, k as int)),
        decreases bytes@.len() - k,
    {
        let d = (bytes[k] - 48) as u64;
        proof {
            assert(bytes@.subrange(pos as int, k + 1).drop_last() =~= bytes@.subrange(
                pos as int,
                k as int,
            ));
            assert(bytes@.subrange(pos as int, k + 1).last() == bytes@[k as int]);
        }
        if acc > (u64::MAX - d) / 10 {
            proof {
                assert forall|x: u64| !u64_at(bytes@, pos as int, x) by {
                    if u64_at(bytes@, pos as int, x) {
                        let dd = dec_digits(x as nat);
                        lemma_dec_digits_are_digits(x as nat);
                        lemma_value_of_dec_digits(x as nat);
                        assert(k - pos < dd.len());
                        assert(bytes@.subrange(pos as int, k + 1) =~= dd.take(k + 1 - pos));
                        lemma_value_of_take_le(dd, k + 1 - pos);
                        assert(value_of(dd.take(k + 1 - pos)) == acc * 10 + d);
                        assert(acc * 10 + d <= x);
                        assert(acc * 10 + d > u64::MAX) by {
                            assert(acc >= (u64::MAX - d) / 10 + 1);
                        }
                    }
                }
            }
            return Option::None;
        }
        acc = acc * 10 + d;
        k += 1;
    }
    if k == pos {
        proof {
            assert forall|x: u64| !u64_at(bytes@, pos as int, x) by {
                if u64_at(bytes@, pos as int, x) {
                    lemma_dec_digits_are_digits(x as nat);
                    assert(bytes@[pos as int] == dec_digits(x as nat)[0]);
                }
            }
        }
        return Option::None;
    }
    proof {
        assert forall|x: u64| #[trigger]
            u64_at(bytes@, pos as int, x) implies Option::Some((acc, k)) == Option::Some(
            (x, (pos + dec_digits(x as nat).len()) as usize),
        ) by {
            let dd = dec_digits(x as nat);
            lemma_dec_digits_are_digits(x as nat);
            lemma_value_of_dec_digits(x as nat);
            if k > pos + dd.len() {
                assert(is_digit(bytes@[pos + dd.len()]));
                assert(pos + dd.len() < bytes@.len());
            }
            if k < pos + dd.len() {
                assert(bytes@[k as int] == dd[k - pos]);
                assert(is_digit(bytes@[k as int]));
                assert(k < bytes@.len());
            }
            assert(k == pos + dd.len());
            assert(bytes@.subrange(pos as int, k as int) == dd);
            assert(acc == x);
        }
    }
    Option::Some((acc, k))
}

/// Read a six-decimal number as millionths; `None` unless the shape is
/// exactly digits, a point, and six digits. On a number laid out
/// canonically at `pos`, it reads exactly that number and stops exactly
/// past its last digit.
fn read_frac6(bytes: &Vec<u8>, pos: usize) -> (r: Option<(u64, usize)>)
    ensures
        r matches Option::Some(vp) ==> pos < vp.1 <= bytes@.len(),
        forall|x: u64| #[trigger]
            frac6_at(bytes@, pos as int, x) ==> r == Option::Some(
                (x, (pos + frac6_bytes(x).len()) as usize),
            ),
{
    proof {
        assert forall|x: u64| #[trigger]
            frac6_at(bytes@, pos as int, x) implies u64_at(
            bytes@,
            pos as int,
            (x / 1_000_000) as u64,
        ) && frac6_region_facts(bytes@, pos as int, x) by {
            lemma_frac6_at_parts(bytes@, pos as int, x);
        }
    }
    let (ip, p1) = match read_int(bytes, pos) {
        Option::Some(v) => v,
        Option::None => {
            return Option::None;
        },
    };
    if p1 >= bytes.len() || bytes[p1] != 46 {
        return Option::None;
    }
    if bytes.len() - p1 < 7 {
        return Option::None;
    }
    let mut frac: u64 = 0;
    let mut k: usize = 0;
    while k < 6
        invariant
            k <= 6,
            pos < p1,
            p1 + 7 <= bytes@.len(),
            bytes@.len() <= usize::MAX,
            frac < 1_000_000,
            frac == value_of(bytes@.subrange(p1 + 1, p1 + 1 + k)),
            frac < pow10_spec(k as nat),
            forall|x: u64| #[trigger]
                frac6_at(bytes@, pos as int, x) ==> ip == x / 1_000_000 && p1 == pos + dec_digits(
                    (x / 1_000_000) as nat,
                ).len(),
        decreases 6 - k,
    {
        let b = bytes[p1 + 1 + k];
        proof {
            assert(bytes@.subrange(p1 + 1, p1 + 1 + k + 1).drop_last() =~= bytes@.subrange(
                p1 + 1,
                p1 + 1 + k,
            ));
            assert(bytes@.subrange(p1 + 1, p1 + 1 + k + 1).last() == bytes@[p1 + 1 + k]);
        }
        if b < 48 || b > 57 {
            proof {
                assert forall|x: u64| !frac6_at(bytes@, pos as int, x) by {
                    if frac6_at(bytes@, pos as int, x) {
                        lemma_frac6_at_parts(bytes@, pos as int, x);
                        assert(is_digit(bytes@[p1 + 1 + k]));
                    }
                }
            }
            return Option::None;
        }
        if frac > 99_999 {
            proof {
                assert(pow10_spec(k as nat) <= 100_000) by {
                    reveal_with_fuel(pow10_spec, 7);
                }
            }
            return Option::None;
        }
        frac = frac * 10 + (b - 48) as u64;
        k += 1;
        proof {
            assert(pow10_spec(k as nat) == 10 * pow10_spec((k - 1) as nat)) by {
                reveal_with_fuel(pow10_spec, 7);
            }
        }
    }
    if ip > (u64::MAX - frac) / 1_000_000 {
        proof {
            assert forall|x: u64| !frac6_at(bytes@, pos as int, x) by {
                if frac6_at(bytes@, pos as int, x) {
                    lemma_frac6_at_parts(bytes@, pos as int, x);
                    assert(frac == value_of(bytes@.subrange(p1 + 1, p1 + 7)));
                    assert(frac == x % 1_000_000);
                    assert(ip * 1_000_000 + frac <= u64::MAX) by (nonlinear_arith)
                        requires
                            ip == x / 1_000_000,
                            frac == x % 1_000_000,
                            x <= u64::MAX,
                    ;
                    assert(ip <= (u64::MAX - frac) / 1_000_000) by (nonlinear_arith)
                        requires
                            ip * 1_000_000 <= u64::MAX - frac,
                    ;
                }
            }
        }
        return Option::None;
    }
    let v: u64 = ip * 1_000_000 + frac;
    let p2: usize = p1 + 7;
    proof {
        assert forall|x: u64| #[trigger]
            frac6_at(bytes@, pos as int, x) implies Option::Some((v, p2)) == Option::Some(
            (x, (pos + frac6_bytes(x).len()) as usize),
        ) by {
            lemma_frac6_at_parts(bytes@, pos as int, x);
            assert(frac == value_of(bytes@.subrange(p1 + 1, p1 + 7)));
            assert(frac == x % 1_000_000);
            assert(ip * 1_000_000 + frac == x) by (nonlinear_arith)
                requires
                    ip == x / 1_000_000,
                    frac == x % 1_000_000,
            ;
            assert(frac6_bytes(x).len() == dec_digits((x / 1_000_000) as nat).len() + 7);
        }
    }
    Option::Some((v, p2))
}

/// Powers of ten.
pub open spec fn pow10_spec(k: nat) -> int
    decreases k,
{
    if k == 0 {
        1
    } else {
        10 * pow10_spec((k - 1) as nat)
    }
}

/// The pieces of a canonically laid-out six-decimal number: its integer
/// part sits at `pos` as a number, the point follows, and the six
/// padded fraction digits denote the remainder.
pub open spec fn frac6_region_facts(s: Seq<u8>, pos: int, x: u64) -> bool {
    let dl = dec_digits((x / 1_000_000) as nat).len() as int;
    &&& s[pos + dl] == 46
    &&& pos + dl + 7 <= s.len()
    &&& (forall|m: int| 0 <= m < 6 ==> is_digit(#[trigger] s[pos + dl + 1 + m]))
    &&& value_of(s.subrange(pos + dl + 1, pos + dl + 7)) == x % 1_000_000
}

proof fn lemma_frac6_at_parts(s: Seq<u8>, pos: int, x: u64)
    requires
        frac6_at(s, pos, x),
    ensures
        u64_at(s, pos, (x / 1_000_000) as u64),
        frac6_region_facts(s, pos, x),
        frac6_bytes(x).len() == dec_digits((x / 1_000_000) as nat).len() + 7,
{
    let ipn = (x / 1_000_000) as nat;
    let m = (x % 1_000_000) as nat;
    let dd = dec_digits(ipn);
    let p6 = pad6(m);
    lemma_dec_digits_len_below_million(m);
    assert(p6.len() == 6);
    let f = frac6_bytes(x);
    assert(f.len() == dd.len() + 7);
    assert(s.subrange(pos, pos + f.len() as int) == f);
    assert forall|i: int| 0 <= i < f.len() implies s[pos + i] == f[i] by {
        assert(s.subrange(pos, pos + f.len() as int)[i] == s[pos + i]);
    }
    assert(s.subrange(pos, pos + dd.len() as int) =~= dd);
    assert(s[pos + dd.len()] == f[dd.len() as int]);
    assert(f[dd.len() as int] == 46);
    assert(!is_digit(s[pos + dd.len()]));
    assert(u64_at(s, pos, (x / 1_000_000) as u64));
    lemma_dec_digits_are_digits(m);
    assert forall|j: int| 0 <= j < 6 implies is_digit(#[trigger] s[pos + dd.len() + 1 + j]) by {
        assert(s[pos + dd.len() + 1 + j] == f[dd.len() + 1 + j]);
        assert(f[dd.len() + 1 + j] == p6[j]);
        if j < 6 - dec_digits(m).len() {
            assert(p6[j] == 48u8);
        } else {
            assert(p6[j] == dec_digits(m)[j - (6 - dec_digits(m).len())]);
        }
    }
    assert forall|j: int|
        0 <= j < 6 implies s.subrange(pos + dd.len() + 1, pos + dd.len() + 7)[j] == p6[j] by {
        assert(s.subrange(pos + dd.len() + 1, pos + dd.len() + 7)[j] == s[pos + (dd.len() + 1
            + j)]);
        assert(s[pos + (dd.len() + 1 + j)] == f[dd.len() + 1 + j]);
        assert(f[dd.len() + 1 + j] == p6[j]);
    }
    assert(s.subrange(pos + dd.len() + 1, pos + dd.len() + 7) =~= p6);
    lemma_value_of_zero_padded((6 - dec_digits(m).len()) as nat, dec_digits(m));
    lemma_value_of_dec_digits(m);
    assert(value_of(p6) == m);
}

/// Whether two byte strings are equal.
fn bytes_eq(a: &Vec<u8>, b: &Vec<u8>) -> (r: bool)
    ensures
        r == (a@ == b@),
{
    if a.len() != b.len() {
        proof {
            assert(a@.len() != b@.len());
        }
        return false;
    }
    let mut k: usize = 0;
    while k < a.len()
        invariant
            k <= a@.len(),
            a@.len() == b@.len(),
            forall|i: int| 0 <= i < k ==> a@[i] == b@[i],
        decreases a@.len() - k,
    {
        if a[k] != b[k] {
            return false;
        }
        k += 1;
    }
    proof {
        assert(a@ =~= b@);
    }
    true
}

/// Splitting a suffix of `s` as one segment plus the rest pins both.
proof fn lemma_concat_extract(s: Seq<u8>, pre: int, seg: Seq<u8>, rest: Seq<u8>)
    requires
        0 <= pre <= s.len(),
        s.subrange(pre, s.len() as int) == seg + rest,
    ensures
        pre + seg.len() + rest.len() == s.len(),
        s.subrange(pre, pre + seg.len() as int) == seg,
        s.subrange(pre + seg.len() as int, s.len() as int) == rest,
{
    assert(s.subrange(pre, s.len() as int).len() == s.len() - pre);
    assert((seg + rest).len() == seg.len() + rest.len());
    assert(s.subrange(pre, s.len() as int).len() == (seg + rest).len());
    assert(s.len() - pre == seg.len() + rest.len());
    assert forall|i: int| 0 <= i < seg.len() implies s.subrange(pre, pre + seg.len() as int)[i]
        == seg[i] by {
        assert(s.subrange(pre, s.len() as int)[i] == s[pre + i]);
        assert((seg + rest)[i] == seg[i]);
    }
    assert(s.subrange(pre, pre + seg.len() as int) =~= seg);
    assert forall|i: int|
        0 <= i < rest.len() implies s.subrange(pre + seg.len() as int, s.len() as int)[i]
        == rest[i] by {
        assert(s.subrange(pre, s.len() as int)[seg.len() + i] == s[pre + seg.len() + i]);
        assert((seg + rest)[seg.len() + i] == rest[i]);
    }
    assert(s.subrange(pre + seg.len() as int, s.len() as int) =~= rest);
}

/// The bytes of `{\"arrival_rate\":`.
#[verifier::opaque]
pub open spec fn ch_client_head() -> Seq<u8> {
    seq![123u8, 34u8, 97u8, 114u8, 114u8, 105u8, 118u8, 97u8, 108u8, 95u8, 114u8, 97u8, 116u8, 101u8, 34u8, 58u8]
}

/// The bytes of `,\"timeout\":`.
#[verifier::opaque]
pub open spec fn ch_timeout_key() -> Seq<u8> {
    seq![44u8, 34u8, 116u8, 105u8, 109u8, 101u8, 111u8, 117u8, 116u8, 34u8, 58u8]
}

/// The bytes of `,\"generation_id\":`.
#[verifier::opaque]
pub open spec fn ch_generation_key() -> Seq<u8> {
    seq![44u8, 34u8, 103u8, 101u8, 110u8, 101u8, 114u8, 97u8, 116u8, 105u8, 111u8, 110u8, 95u8, 105u8, 100u8, 34u8, 58u8]
}

/// The bytes of `{\"service_time\":`.
#[verifier::opaque]
pub open spec fn ch_server_head() -> Seq<u8> {
    seq![123u8, 34u8, 115u8, 101u8, 114u8, 118u8, 105u8, 99u8, 101u8, 95u8, 116u8, 105u8, 109u8, 101u8, 34u8, 58u8]
}

/// The bytes of `,\"concurrency\":`.
#[verifier::opaque]
pub open spec fn ch_concurrency_key() -> Seq<u8> {
    seq![44u8, 34u8, 99u8, 111u8, 110u8, 99u8, 117u8, 114u8, 114u8, 101u8, 110u8, 99u8, 121u8, 34u8, 58u8]
}

/// The bytes of `,\"backlog_limit\":`.
#[verifier::opaque]
pub open spec fn ch_backlog_key() -> Seq<u8> {
    seq![44u8, 34u8, 98u8, 97u8, 99u8, 107u8, 108u8, 111u8, 103u8, 95u8, 108u8, 105u8, 109u8, 105u8, 116u8, 34u8, 58u8]
}

/// The bytes of `,\"failure_probability\":`.
#[verifier::opaque]
pub open spec fn ch_failure_key() -> Seq<u8> {
    seq![44u8, 34u8, 102u8, 97u8, 105u8, 108u8, 117u8, 114u8, 101u8, 95u8, 112u8, 114u8, 111u8, 98u8, 97u8, 98u8, 105u8, 108u8, 105u8, 116u8, 121u8, 34u8, 58u8]
}

/// The bytes of `,\"saturation_penalty\":`.
#[verifier::opaque]
pub open spec fn ch_saturation_key() -> Seq<u8> {
    seq![44u8, 34u8, 115u8, 97u8, 116u8, 117u8, 114u8, 97u8, 116u8, 105u8, 111u8, 110u8, 95u8, 112u8, 101u8, 110u8, 97u8, 108u8, 116u8, 121u8, 34u8, 58u8]
}

/// The bytes of `{\"strategy\":`.
#[verifier::opaque]
pub open spec fn ch_lb_head() -> Seq<u8> {
    seq![123u8, 34u8, 115u8, 116u8, 114u8, 97u8, 116u8, 101u8, 103u8, 121u8, 34u8, 58u8]
}

/// The bytes of `,\"max_retries\":`.
#[verifier::opaque]
pub open spec fn ch_max_retries_key() -> Seq<u8> {
    seq![44u8, 34u8, 109u8, 97u8, 120u8, 95u8, 114u8, 101u8, 116u8, 114u8, 105u8, 101u8, 115u8, 34u8, 58u8]
}

/// The bytes of `,\"retry_backoff_ms\":`.
#[verifier::opaque]
pub open spec fn ch_backoff_key() -> Seq<u8> {
    seq![44u8, 34u8, 114u8, 101u8, 116u8, 114u8, 121u8, 95u8, 98u8, 97u8, 99u8, 107u8, 111u8, 102u8, 102u8, 95u8, 109u8, 115u8, 34u8, 58u8]
}

/// The bytes of `,\"retry_strategy\":`.
#[verifier::opaque]
pub open spec fn ch_retry_strategy_key() -> Seq<u8> {
    seq![44u8, 34u8, 114u8, 101u8, 116u8, 114u8, 121u8, 95u8, 115u8, 116u8, 114u8, 97u8, 116u8, 101u8, 103u8, 121u8, 34u8, 58u8]
}

/// The bytes of `,\"retry_budget_ratio\":`.
#[verifier::opaque]
pub open spec fn ch_ratio_key() -> Seq<u8> {
    seq![44u8, 34u8, 114u8, 101u8, 116u8, 114u8, 121u8, 95u8, 98u8, 117u8, 100u8, 103u8, 101u8, 116u8, 95u8, 114u8, 97u8, 116u8, 105u8, 111u8, 34u8, 58u8]
}

/// The bytes of `,\"min_retry_rate\":`.
#[verifier::opaque]
pub open spec fn ch_min_rate_key() -> Seq<u8> {
    seq![44u8, 34u8, 109u8, 105u8, 110u8, 95u8, 114u8, 101u8, 116u8, 114u8, 121u8, 95u8, 114u8, 97u8, 116u8, 101u8, 34u8, 58u8]
}

/// The bytes of `,\"retry_budget_max_tokens\":`.
#[verifier::opaque]
pub open spec fn ch_max_tokens_key() -> Seq<u8> {
    seq![44u8, 34u8, 114u8, 101u8, 116u8, 114u8, 121u8, 95u8, 98u8, 117u8, 100u8, 103u8, 101u8, 116u8, 95u8, 109u8, 97u8, 120u8, 95u8, 116u8, 111u8, 107u8, 101u8, 110u8, 115u8, 34u8, 58u8]
}

/// The bytes of `{\"latency_us\":`.
#[verifier::opaque]
pub open spec fn ch_edge_head() -> Seq<u8> {
    seq![123u8, 34u8, 108u8, 97u8, 116u8, 101u8, 110u8, 99u8, 121u8, 95u8, 117u8, 115u8, 34u8, 58u8]
}

/// The bytes of `,\"jitter_us\":`.
#[verifier::opaque]
pub open spec fn ch_jitter_key() -> Seq<u8> {
    seq![44u8, 34u8, 106u8, 105u8, 116u8, 116u8, 101u8, 114u8, 95u8, 117u8, 115u8, 34u8, 58u8]
}

/// The bytes of `,\"packet_loss_rate\":`.
#[verifier::opaque]
pub open spec fn ch_loss_key() -> Seq<u8> {
    seq![44u8, 34u8, 112u8, 97u8, 99u8, 107u8, 101u8, 116u8, 95u8, 108u8, 111u8, 115u8, 115u8, 95u8, 114u8, 97u8, 116u8, 101u8, 34u8, 58u8]
}

/// The bytes of `}`.
#[verifier::opaque]
pub open spec fn ch_close_brace() -> Seq<u8> {
    seq![125u8]
}

/// The bytes of `\"RoundRobin\"`.
#[verifier::opaque]
pub open spec fn ch_round_robin_name() -> Seq<u8> {
    seq![34u8, 82u8, 111u8, 117u8, 110u8, 100u8, 82u8, 111u8, 98u8, 105u8, 110u8, 34u8]
}

/// The bytes of `\"Random\"`.
#[verifier::opaque]
pub open spec fn ch_random_name() -> Seq<u8> {
    seq![34u8, 82u8, 97u8, 110u8, 100u8, 111u8, 109u8, 34u8]
}

/// The bytes of `\"LeastConnections\"`.
#[verifier::opaque]
pub open spec fn ch_least_conn_name() -> Seq<u8> {
    seq![34u8, 76u8, 101u8, 97u8, 115u8, 116u8, 67u8, 111u8, 110u8, 110u8, 101u8, 99u8, 116u8, 105u8, 111u8, 110u8, 115u8, 34u8]
}

/// The bytes of `\"Immediate\"`.
#[verifier::opaque]
pub open spec fn ch_immediate_name() -> Seq<u8> {
    seq![34u8, 73u8, 109u8, 109u8, 101u8, 100u8, 105u8, 97u8, 116u8, 101u8, 34u8]
}

/// The bytes of `\"Constant\"`.
#[verifier::opaque]
pub open spec fn ch_constant_name() -> Seq<u8> {
    seq![34u8, 67u8, 111u8, 110u8, 115u8, 116u8, 97u8, 110u8, 116u8, 34u8]
}

/// The bytes of `\"Exponential\"`.
#[verifier::opaque]
pub open spec fn ch_exponential_name() -> Seq<u8> {
    seq![34u8, 69u8, 120u8, 112u8, 111u8, 110u8, 101u8, 110u8, 116u8, 105u8, 97u8, 108u8, 34u8]
}

fn lit_client_head() -> (v: Vec<u8>)
    ensures
        v@ == ch_client_head(),
{
    proof {
        reveal(ch_client_head);
    }
    let mut v: Vec<u8> = Vec::new();
    v.push(123u8);
    v.push(34u8);
    v.push(97u8);
    v.push(114u8);
    v.push(114u8);
    v.push(105u8);
    v.push(118u8);
    v.push(97u8);
    v.push(108u8);
    v.push(95u8);
    v.push(114u8);
    v.push(97u8);
    v.push(116u8);
    v.push(101u8);
    v.push(34u8);
    v.push(58u8);
    proof {
        assert(v@ =~= ch_client_head());
    }
    v
}

fn lit_timeout_key() -> (v: Vec<u8>)
    ensures
        v@ == ch_timeout_key(),
{
    proof {
        reveal(ch_timeout_key);
    }
    let mut v: Vec<u8> = Vec::new();
    v.push(44u8);
    v.push(34u8);
    v.push(116u8);
    v.push(105u8);
    v.push(109u8);
    v.push(101u8);
    v.push(111u8);
    v.push(117u8);
    v.push(116u8);
    v.push(34u8);
    v.push(58u8);
    proof {
        assert(v@ =~= ch_timeout_key());
    }
    v
}

fn lit_generation_key() -> (v: Vec<u8>)
    ensures
        v@ == ch_generation_key(),
{
    proof {
        reveal(ch_generation_key);
    }
    let mut v: Vec<u8> = Vec::new();
    v.push(44u8);
    v.push(34u8);
    v.push(103u8);
    v.push(101u8);
    v.push(110u8);
    v.push(101u8);
    v.push(114u8);
    v.push(97u8);
    v.push(116u8);
    v.push(105u8);
    v.push(111u8);
    v.push(110u8);
    v.push(95u8);
    v.push(105u8);
    v.push(100u8);
    v.push(34u8);
    v.push(58u8);
    proof {
        assert(v@ =~= ch_generation_key());
    }
    v
}

fn lit_server_head() -> (v: Vec<u8>)
    ensures
        v@ == ch_server_head(),
{
    proof {
        reveal(ch_server_head);
    }
    let mut v: Vec<u8> = Vec::new();
    v.push(123u8);
    v.push(34u8);
    v.push(115u8);
    v.push(101u8);
    v.push(114u8);
    v.push(118u8);
    v.push(105u8);
    v.push(99u8);
    v.push(101u8);
    v.push(95u8);
    v.push(116u8);
    v.push(105u8);
    v.push(109u8);
    v.push(101u8);
    v.push(34u8);
    v.push(58u8);
    proof {
        assert(v@ =~= ch_server_head());
    }
    v
}

fn lit_concurrency_key() -> (v: Vec<u8>)
    ensures
        v@ == ch_concurrency_key(),
{
    proof {
        reveal(ch_concurrency_key);
    }
    let mut v: Vec<u8> = Vec::new();
    v.push(44u8);
    v.push(34u8);
    v.push(99u8);
    v.push(111u8);
    v.push(110u8);
    v.push(99u8);
    v.push(117u8);
    v.push(114u8);
    v.push(114u8);
    v.push(101u8);
    v.push(110u8);
    v.push(99u8);
    v.push(121u8);
    v.push(34u8);
    v.push(58u8);
    proof {
        assert(v@ =~= ch_concurrency_key());
    }
    v
}

fn lit_backlog_key() -> (v: Vec<u8>)
    ensures
        v@ == ch_backlog_key(),
{
    proof {
        reveal(ch_backlog_key);
    }
    let mut v: Vec<u8> = Vec::new();
    v.push(44u8);
    v.push(34u8);
    v.push(98u8);
    v.push(97u8);
    v.push(99u8);
    v.push(107u8);
    v.push(108u8);
    v.push(111u8);
    v.push(103u8);
    v.push(95u8);
    v.push(108u8);
    v.push(105u8);
    v.push(109u8);
    v.push(105u8);
    v.push(116u8);
    v.push(34u8);
    v.push(58u8);
    proof {
        assert(v@ =~= ch_backlog_key());
    }
    v
}

fn lit_failure_key() -> (v: Vec<u8>)
    ensures
        v@ == ch_failure_key(),
{
    proof {
        reveal(ch_failure_key);
    }
    let mut v: Vec<u8> = Vec::new();
    v.push(44u8);
    v.push(34u8);
    v.push(102u8);
    v.push(97u8);
    v.push(105u8);
    v.push(108u8);
    v.push(117u8);
    v.push(114u8);
    v.push(101u8);
    v.push(95u8);
    v.push(112u8);
    v.push(114u8);
    v.push(111u8);
    v.push(98u8);
    v.push(97u8);
    v.push(98u8);
    v.push(105u8);
    v.push(108u8);
    v.push(105u8);
    v.push(116u8);
    v.push(121u8);
    v.push(34u8);
    v.push(58u8);
    proof {
        assert(v@ =~= ch_failure_key());
    }
    v
}

fn lit_saturation_key() -> (v: Vec<u8>)
    ensures
        v@ == ch_saturation_key(),
{
    proof {
        reveal(ch_saturation_key);
    }
    let mut v: Vec<u8> = Vec::new();
    v.push(44u8);
    v.push(34u8);
    v.push(115u8);
    v.push(97u8);
    v.push(116u8);
    v.push(117u8);
    v.push(114u8);
    v.push(97u8);
    v.push(116u8);
    v.push(105u8);
    v.push(111u8);
    v.push(110u8);
    v.push(95u8);
    v.push(112u8);
    v.push(101u8);
    v.push(110u8);
    v.push(97u8);
    v.push(108u8);
    v.push(116u8);
    v.push(121u8);
    v.push(34u8);
    v.push(58u8);
    proof {
        assert(v@ =~= ch_saturation_key());
    }
    v
}

fn lit_lb_head() -> (v: Vec<u8>)
    ensures
        v@ == ch_lb_head(),
{
    proof {
        reveal(ch_lb_head);
    }
    let mut v: Vec<u8> = Vec::new();
    v.push(123u8);
    v.push(34u8);
    v.push(115u8);
    v.push(116u8);
    v.push(114u8);
    v.push(97u8);
    v.push(116u8);
    v.push(101u8);
    v.push(103u8);
    v.push(121u8);
    v.push(34u8);
    v.push(58u8);
    proof {
        assert(v@ =~= ch_lb_head());
    }
    v
}

fn lit_max_retries_key() -> (v: Vec<u8>)
    ensures
        v@ == ch_max_retries_key(),
{
    proof {
        reveal(ch_max_retries_key);
    }
    let mut v: Vec<u8> = Vec::new();
    v.push(44u8);
    v.push(34u8);
    v.push(109u8);
    v.push(97u8);
    v.push(120u8);
    v.push(95u8);
    v.push(114u8);
    v.push(101u8);
    v.push(116u8);
    v.push(114u8);
    v.push(105u8);
    v.push(101u8);
    v.push(115u8);
    v.push(34u8);
    v.push(58u8);
    proof {
        assert(v@ =~= ch_max_retries_key());
    }
    v
}

fn lit_backoff_key() -> (v: Vec<u8>)
    ensures
        v@ == ch_backoff_key(),
{
    proof {
        reveal(ch_backoff_key);
    }
    let mut v: Vec<u8> = Vec::new();
    v.push(44u8);
    v.push(34u8);
    v.push(114u8);
    v.push(101u8);
    v.push(116u8);
    v.push(114u8);
    v.push(121u8);
    v.push(95u8);
    v.push(98u8);
    v.push(97u8);
    v.push(99u8);
    v.push(107u8);
    v.push(111u8);
    v.push(102u8);
    v.push(102u8);
    v.push(95u8);
    v.push(109u8);
    v.push(115u8);
    v.push(34u8);
    v.push(58u8);
    proof {
        assert(v@ =~= ch_backoff_key());
    }
    v
}

fn lit_retry_strategy_key() -> (v: Vec<u8>)
    ensures
        v@ == ch_retry_strategy_key(),
{
    proof {
        reveal(ch_retry_strategy_key);
    }
    let mut v: Vec<u8> = Vec::new();
    v.push(44u8);
    v.push(34u8);
    v.push(114u8);
    v.push(101u8);
    v.push(116u8);
    v.push(114u8);
    v.push(121u8);
    v.push(95u8);
    v.push(115u8);
    v.push(116u8);
    v.push(114u8);
    v.push(97u8);
    v.push(116u8);
    v.push(101u8);
    v.push(103u8);
    v.push(121u8);
    v.push(34u8);
    v.push(58u8);
    proof {
        assert(v@ =~= ch_retry_strategy_key());
    }
    v
}

fn lit_ratio_key() -> (v: Vec<u8>)
    ensures
        v@ == ch_ratio_key(),
{
    proof {
        reveal(ch_ratio_key);
    }
    let mut v: Vec<u8> = Vec::new();
    v.push(44u8);
    v.push(34u8);
    v.push(114u8);
    v.push(101u8);
    v.push(116u8);
    v.push(114u8);
    v.push(121u8);
    v.push(95u8);
    v.push(98u8);
    v.push(117u8);
    v.push(100u8);
    v.push(103u8);
    v.push(101u8);
    v.push(116u8);
    v.push(95u8);
    v.push(114u8);
    v.push(97u8);
    v.push(116u8);
    v.push(105u8);
    v.push(111u8);
    v.push(34u8);
    v.push(58u8);
    proof {
        assert(v@ =~= ch_ratio_key());
    }
    v
}

fn lit_min_rate_key() -> (v: Vec<u8>)
    ensures
        v@ == ch_min_rate_key(),
{
    proof {
        reveal(ch_min_rate_key);
    }
    let mut v: Vec<u8> = Vec::new();
    v.push(44u8);
    v.push(34u8);
    v.push(109u8);
    v.push(105u8);
    v.push(110u8);
    v.push(95u8);
    v.push(114u8);
    v.push(101u8);
    v.push(116u8);
    v.push(114u8);
    v.push(121u8);
    v.push(95u8);
    v.push(114u8);
    v.push(97u8);
    v.push(116u8);
    v.push(101u8);
    v.push(34u8);
    v.push(58u8);
    proof {
        assert(v@ =~= ch_min_rate_key());
    }
    v
}

fn lit_max_tokens_key() -> (v: Vec<u8>)
    ensures
        v@ == ch_max_tokens_key(),
{
    proof {
        reveal(ch_max_tokens_key);
    }
    let mut v: Vec<u8> = Vec::new();
    v.push(44u8);
    v.push(34u8);
    v.push(114u8);
    v.push(101u8);
    v.push(116u8);
    v.push(114u8);
    v.push(121u8);
    v.push(95u8);
    v.push(98u8);
    v.push(117u8);
    v.push(100u8);
    v.push(103u8);
    v.push(101u8);
    v.push(116u8);
    v.push(95u8);
    v.push(109u8);
    v.push(97u8);
    v.push(120u8);
    v.push(95u8);
    v.push(116u8);
    v.push(111u8);
    v.push(107u8);
    v.push(101u8);
    v.push(110u8);
    v.push(115u8);
    v.push(34u8);
    v.push(58u8);
    proof {
        assert(v@ =~= ch_max_tokens_key());
    }
    v
}

fn lit_edge_head() -> (v: Vec<u8>)
    ensures
        v@ == ch_edge_head(),
{
    proof {
        reveal(ch_edge_head);
    }
    let mut v: Vec<u8> = Vec::new();
    v.push(123u8);
    v.push(34u8);
    v.push(108u8);
    v.push(97u8);
    v.push(116u8);
    v.push(101u8);
    v.push(110u8);
    v.push(99u8);
    v.push(121u8);
    v.push(95u8);
    v.push(117u8);
    v.push(115u8);
    v.push(34u8);
    v.push(58u8);
    proof {
        assert(v@ =~= ch_edge_head());
    }
    v
}

fn lit_jitter_key() -> (v: Vec<u8>)
    ensures
        v@ == ch_jitter_key(),
{
    proof {
        reveal(ch_jitter_key);
    }
    let mut v: Vec<u8> = Vec::new();
    v.push(44u8);
    v.push(34u8);
    v.push(106u8);
    v.push(105u8);
    v.push(116u8);
    v.push(116u8);
    v.push(101u8);
    v.push(114u8);
    v.push(95u8);
    v.push(117u8);
    v.push(115u8);
    v.push(34u8);
    v.push(58u8);
    proof {
        assert(v@ =~= ch_jitter_key());
    }
    v
}

fn lit_loss_key() -> (v: Vec<u8>)
    ensures
        v@ == ch_loss_key(),
{
    proof {
        reveal(ch_loss_key);
    }
    let mut v: Vec<u8> = Vec::new();
    v.push(44u8);
    v.push(34u8);
    v.push(112u8);
    v.push(97u8);
    v.push(99u8);
    v.push(107u8);
    v.push(101u8);
    v.push(116u8);
    v.push(95u8);
    v.push(108u8);
    v.push(111u8);
    v.push(115u8);
    v.push(115u8);
    v.push(95u8);
    v.push(114u8);
    v.push(97u8);
    v.push(116u8);
    v.push(101u8);
    v.push(34u8);
    v.push(58u8);
    proof {
        assert(v@ =~= ch_loss_key());
    }
    v
}

fn lit_close_brace() -> (v: Vec<u8>)
    ensures
        v@ == ch_close_brace(),
{
    proof {
        reveal(ch_close_brace);
    }
    let mut v: Vec<u8> = Vec::new();
    v.push(125u8);
    proof {
        assert(v@ =~= ch_close_brace());
    }
    v
}

fn lit_round_robin_name() -> (v: Vec<u8>)
    ensures
        v@ == ch_round_robin_name(),
{
    proof {
        reveal(ch_round_robin_name);
    }
    let mut v: Vec<u8> = Vec::new();
    v.push(34u8);
    v.push(82u8);
    v.push(111u8);
    v.push(117u8);
    v.push(110u8);
    v.push(100u8);
    v.push(82u8);
    v.push(111u8);
    v.push(98u8);
    v.push(105u8);
    v.push(110u8);
    v.push(34u8);
    proof {
        assert(v@ =~= ch_round_robin_name());
    }
    v
}

fn lit_random_name() -> (v: Vec<u8>)
    ensures
        v@ == ch_random_name(),
{
    proof {
        reveal(ch_random_name);
    }
    let mut v: Vec<u8> = Vec::new();
    v.push(34u8);
    v.push(82u8);
    v.push(97u8);
    v.push(110u8);
    v.push(100u8);
    v.push(111u8);
    v.push(109u8);
    v.push(34u8);
    proof {
        assert(v@ =~= ch_random_name());
    }
    v
}

fn lit_least_conn_name() -> (v: Vec<u8>)
    ensures
        v@ == ch_least_conn_name(),
{
    proof {
        reveal(ch_least_conn_name);
    }
    let mut v: Vec<u8> = Vec::new();
    v.push(34u8);
    v.push(76u8);
    v.push(101u8);
    v.push(97u8);
    v.push(115u8);
    v.push(116u8);
    v.push(67u8);
    v.push(111u8);
    v.push(110u8);
    v.push(110u8);
    v.push(101u8);
    v.push(99u8);
    v.push(116u8);
    v.push(105u8);
    v.push(111u8);
    v.push(110u8);
    v.push(115u8);
    v.push(34u8);
    proof {
        assert(v@ =~= ch_least_conn_name());
    }
    v
}

fn lit_immediate_name() -> (v: Vec<u8>)
    ensures
        v@ == ch_immediate_name(),
{
    proof {
        reveal(ch_immediate_name);
    }
    let mut v: Vec<u8> = Vec::new();
    v.push(34u8);
    v.push(73u8);
    v.push(109u8);
    v.push(109u8);
    v.push(101u8);
    v.push(100u8);
    v.push(105u8);
    v.push(97u8);
    v.push(116u8);
    v.push(101u8);
    v.push(34u8);
    proof {
        assert(v@ =~= ch_immediate_name());
    }
    v
}

fn lit_constant_name() -> (v: Vec<u8>)
    ensures
        v@ == ch_constant_name(),
{
    proof {
        reveal(ch_constant_name);
    }
    let mut v: Vec<u8> = Vec::new();
    v.push(34u8);
    v.push(67u8);
    v.push(111u8);
    v.push(110u8);
    v.push(115u8);
    v.push(116u8);
    v.push(97u8);
    v.push(110u8);
    v.push(116u8);
    v.push(34u8);
    proof {
        assert(v@ =~= ch_constant_name());
    }
    v
}

fn lit_exponential_name() -> (v: Vec<u8>)
    ensures
        v@ == ch_exponential_name(),
{
    proof {
        reveal(ch_exponential_name);
    }
    let mut v: Vec<u8> = Vec::new();
    v.push(34u8);
    v.push(69u8);
    v.push(120u8);
    v.push(112u8);
    v.push(111u8);
    v.push(110u8);
    v.push(101u8);
    v.push(110u8);
    v.push(116u8);
    v.push(105u8);
    v.push(97u8);
    v.push(108u8);
    v.push(34u8);
    proof {
        assert(v@ =~= ch_exponential_name());
    }
    v
}

/// The canonical JSON name of a balancing strategy.
pub open spec fn strategy_bytes(s: BalancingStrategy) -> Seq<u8> {
    match s {
        BalancingStrategy::RoundRobin => ch_round_robin_name(),
        BalancingStrategy::Random => ch_random_name(),
        BalancingStrategy::LeastConnections => ch_least_conn_name(),
    }
}

/// The canonical JSON name of a retry strategy.
pub open spec fn retry_strategy_bytes(s: RetryStrategy) -> Seq<u8> {
    match s {
        RetryStrategy::Immediate => ch_immediate_name(),
        RetryStrategy::Constant => ch_constant_name(),
        RetryStrategy::Exponential => ch_exponential_name(),
    }
}

/// The canonical JSON encoding of a client configuration.
pub open spec fn client_json(c: ClientConfig) -> Seq<u8> {
    ch_client_head() + frac6_bytes((c.arrival_rate_milli * 1000) as u64) + ch_timeout_key()
        + dec_digits(c.timeout as nat) + ch_generation_key() + dec_digits(
        c.generation_id as nat,
    ) + ch_close_brace()
}

/// The canonical JSON encoding of a server configuration.
pub open spec fn server_json(c: ServerConfig) -> Seq<u8> {
    ch_server_head() + dec_digits(c.service_time as nat) + ch_concurrency_key() + dec_digits(
        c.concurrency as nat,
    ) + ch_backlog_key() + dec_digits(c.backlog_limit as nat) + ch_failure_key() + frac6_bytes(
        c.failure_ppm as u64,
    ) + ch_saturation_key() + frac6_bytes((c.saturation_penalty_milli * 1000) as u64)
        + ch_close_brace()
}

/// The balancer encoding from the retry-strategy key on.
#[verifier::opaque]
pub open spec fn lb_tail(c: LoadBalancerConfig) -> Seq<u8> {
    ch_retry_strategy_key() + (retry_strategy_bytes(c.retry_strategy) + (ch_ratio_key() + (
    frac6_bytes((c.retry_budget_ratio_milli * 1000) as u64) + (ch_min_rate_key() + (dec_digits(
        c.min_retry_rate as nat,
    ) + (ch_max_tokens_key() + (frac6_bytes((c.retry_budget_max_tokens_milli * 1000) as u64)
        + ch_close_brace())))))))
}

/// The canonical JSON encoding of a balancer configuration.
pub open spec fn lb_json(c: LoadBalancerConfig) -> Seq<u8> {
    ch_lb_head() + strategy_bytes(c.strategy) + ch_max_retries_key() + dec_digits(
        c.max_retries as nat,
    ) + ch_backoff_key() + dec_digits(c.retry_backoff_ms as nat) + lb_tail(c)
}

/// The canonical JSON encoding of an edge configuration.
pub open spec fn edge_json(c: EdgeConfig) -> Seq<u8> {
    ch_edge_head() + dec_digits(c.latency_us as nat) + ch_jitter_key() + dec_digits(
        c.jitter_us as nat,
    ) + ch_loss_key() + frac6_bytes(c.packet_loss_ppm as u64) + ch_close_brace()
}

/// Encode a client configuration into its canonical JSON line.
pub fn encode_client_config(c: &ClientConfig) -> (out: Vec<u8>)
    requires
        c.wf(),
    ensures
        out@ == client_json(*c),
{
    let mut out: Vec<u8> = Vec::new();
    let mut t = lit_client_head();
    out.append(&mut t);
    push_frac6(&mut out, c.arrival_rate_milli * 1000);
    let mut t = lit_timeout_key();
    out.append(&mut t);
    push_u64(&mut out, c.timeout);
    let mut t = lit_generation_key();
    out.append(&mut t);
    push_u64(&mut out, c.generation_id);
    let mut t = lit_close_brace();
    out.append(&mut t);
    proof {
        assert(out@ =~= client_json(*c));
    }
    out
}

/// Encode a server configuration into its canonical JSON line.
pub fn encode_server_config(c: &ServerConfig) -> (out: Vec<u8>)
    requires
        c.wf(),
    ensures
        out@ == server_json(*c),
{
    let mut out: Vec<u8> = Vec::new();
    let mut t = lit_server_head();
    out.append(&mut t);
    push_u64(&mut out, c.service_time);
    let mut t = lit_concurrency_key();
    out.append(&mut t);
    push_u64(&mut out, c.concurrency as u64);
    let mut t = lit_backlog_key();
    out.append(&mut t);
    push_u64(&mut out, c.backlog_limit as u64);
    let mut t = lit_failure_key();
    out.append(&mut t);
    push_frac6(&mut out, c.failure_ppm as u64);
    let mut t = lit_saturation_key();
    out.append(&mut t);
    push_frac6(&mut out, c.saturation_penalty_milli * 1000);
    let mut t = lit_close_brace();
    out.append(&mut t);
    proof {
        assert(out@ =~= server_json(*c));
    }
    out
}

/// Encode a balancer configuration into its canonical JSON line.
#[verifier::rlimit(100)]
#[verifier::spinoff_prover]
pub fn encode_lb_config(c: &LoadBalancerConfig) -> (out: Vec<u8>)
    requires
        c.wf(),
    ensures
        out@ == lb_json(*c),
{
    let mut out: Vec<u8> = Vec::new();
    let mut t = lit_lb_head();
    out.append(&mut t);
    let mut t = match c.strategy {
        BalancingStrategy::RoundRobin => lit_round_robin_name(),
        BalancingStrategy::Random => lit_random_name(),
        BalancingStrategy::LeastConnections => lit_least_conn_name(),
    };
    out.append(&mut t);
    let mut t = lit_max_retries_key();
    out.append(&mut t);
    push_u64(&mut out, c.max_retries as u64);
    let mut t = lit_backoff_key();
    out.append(&mut t);
    push_u64(&mut out, c.retry_backoff_ms);
    let mut t = lit_retry_strategy_key();
    out.append(&mut t);
    let mut t = match c.retry_strategy {
        RetryStrategy::Immediate => lit_immediate_name(),
        RetryStrategy::Constant => lit_constant_name(),
        RetryStrategy::Exponential => lit_exponential_name(),
    };
    out.append(&mut t);
    let mut t = lit_ratio_key();
    out.append(&mut t);
    push_frac6(&mut out, c.retry_budget_ratio_milli * 1000);
    let mut t = lit_min_rate_key();
    out.append(&mut t);
    push_u64(&mut out, c.min_retry_rate as u64);
    let mut t = lit_max_tokens_key();
    out.append(&mut t);
    push_frac6(&mut out, c.retry_budget_max_tokens_milli * 1000);
    let mut t = lit_close_brace();
    out.append(&mut t);
    proof {
        reveal(lb_tail);
        assert(out@ =~= lb_json(*c));
    }
    out
}

/// Encode an edge configuration into its canonical JSON line.
pub fn encode_edge_config(c: &EdgeConfig) -> (out: Vec<u8>)
    requires
        c.wf(),
    ensures
        out@ == edge_json(*c),
{
    let mut out: Vec<u8> = Vec::new();
    let mut t = lit_edge_head();
    out.append(&mut t);
    push_u64(&mut out, c.latency_us);
    let mut t = lit_jitter_key();
    out.append(&mut t);
    push_u64(&mut out, c.jitter_us);
    let mut t = lit_loss_key();
    out.append(&mut t);
    push_frac6(&mut out, c.packet_loss_ppm as u64);
    let mut t = lit_close_brace();
    out.append(&mut t);
    proof {
        assert(out@ =~= edge_json(*c));
    }
    out
}

/// Where each piece of a canonical client encoding sits.
pub open spec fn client_layout(s: Seq<u8>, c: ClientConfig) -> bool {
    let rs = (c.arrival_rate_milli * 1000) as u64;
    let p0 = ch_client_head().len() as int;
    let q1 = p0 + frac6_bytes(rs).len() as int;
    let q2 = q1 + ch_timeout_key().len() + dec_digits(c.timeout as nat).len() as int;
    &&& s.subrange(0, p0) == ch_client_head()
    &&& frac6_at(s, p0, rs)
    &&& s.subrange(q1, q1 + ch_timeout_key().len() as int) == ch_timeout_key()
    &&& u64_at(s, q1 + ch_timeout_key().len() as int, c.timeout)
    &&& s.subrange(q2, q2 + ch_generation_key().len() as int) == ch_generation_key()
    &&& u64_at(s, q2 + ch_generation_key().len() as int, c.generation_id)
}

#[verifier::rlimit(100)]
#[verifier::spinoff_prover]
proof fn lemma_client_json_layout(s: Seq<u8>, c: ClientConfig)
    requires
        c.wf(),
        s == client_json(c),
    ensures
        client_layout(s, c),
{
    reveal(ch_timeout_key);
    reveal(ch_generation_key);
    reveal(ch_close_brace);
    let rs = (c.arrival_rate_milli * 1000) as u64;
    let a = ch_client_head();
    let b = frac6_bytes(rs);
    let ck = ch_timeout_key();
    let d = dec_digits(c.timeout as nat);
    let e = ch_generation_key();
    let f = dec_digits(c.generation_id as nat);
    let g = ch_close_brace();
    let r1 = b + (ck + (d + (e + (f + g))));
    let r2 = ck + (d + (e + (f + g)));
    let r3 = d + (e + (f + g));
    let r4 = e + (f + g);
    let r5 = f + g;
    assert(s.subrange(0, s.len() as int) =~= s);
    assert(s =~= a + r1);
    lemma_concat_extract(s, 0, a, r1);
    lemma_concat_extract(s, a.len() as int, b, r2);
    lemma_concat_extract(s, a.len() + b.len() as int, ck, r3);
    lemma_concat_extract(s, a.len() + b.len() + ck.len() as int, d, r4);
    lemma_concat_extract(s, a.len() + b.len() + ck.len() + d.len() as int, e, r5);
    lemma_concat_extract(s, a.len() + b.len() + ck.len() + d.len() + e.len() as int, f, g);
    assert(s[a.len() + b.len() as int] == ck[0]);
    assert(!is_digit(s[a.len() + b.len() as int]));
    assert(frac6_at(s, a.len() as int, rs));
    assert(s[a.len() + b.len() + ck.len() + d.len() as int] == e[0]);
    assert(!is_digit(s[a.len() + b.len() + ck.len() + d.len() as int]));
    lemma_dec_digits_are_digits(c.timeout as nat);
    assert(u64_at(s, a.len() + b.len() + ck.len() as int, c.timeout));
    assert(s[a.len() + b.len() + ck.len() + d.len() + e.len() + f.len() as int] == g[0]);
    assert(!is_digit(s[a.len() + b.len() + ck.len() + d.len() + e.len() + f.len() as int]));
    lemma_dec_digits_are_digits(c.generation_id as nat);
    assert(u64_at(s, a.len() + b.len() + ck.len() + d.len() + e.len() as int, c.generation_id));
}

/// Decode a client configuration: accepts exactly the canonical JSON of
/// the configuration it returns, and accepts every canonical encoding.
#[verifier::rlimit(100)]
#[verifier::spinoff_prover]
pub fn decode_client_config(bytes: &Vec<u8>) -> (r: Option<ClientConfig>)
    ensures
        r matches Option::Some(c) ==> c.wf() && bytes@ == client_json(c),
        forall|c: ClientConfig|
            c.wf() && bytes@ == #[trigger] client_json(c) ==> r == Option::Some(c),
{
    let total_len = bytes.len();
    proof {
        assert(bytes@.len() <= usize::MAX);
        assert forall|c: ClientConfig|
            c.wf() && bytes@ == #[trigger] client_json(c) implies client_layout(bytes@, c) by {
            lemma_client_json_layout(bytes@, c);
        }
    }
    let p_head = match expect(bytes, 0, &lit_client_head()) {
        Option::Some(p) => p,
        Option::None => {
            proof {
                assert forall|c: ClientConfig|
                    !(c.wf() && bytes@ == #[trigger] client_json(c)) by {
                    if c.wf() && bytes@ == client_json(c) {
                        assert(client_layout(bytes@, c));
                        assert(frac6_at(
                            bytes@,
                            ch_client_head().len() as int,
                            (c.arrival_rate_milli * 1000) as u64,
                        ));
                        assert(bytes@.subrange(0int, 0 + ch_client_head().len() as int)
                            == ch_client_head());
                    }
                }
            }
            return Option::None;
        },
    };
    let (rate_scaled, p_rate) = match read_frac6(bytes, p_head) {
        Option::Some(v) => v,
        Option::None => {
            proof {
                assert forall|c: ClientConfig|
                    !(c.wf() && bytes@ == #[trigger] client_json(c)) by {
                    if c.wf() && bytes@ == client_json(c) {
                        assert(client_layout(bytes@, c));
                        assert(frac6_at(
                            bytes@,
                            p_head as int,
                            (c.arrival_rate_milli * 1000) as u64,
                        ));
                    }
                }
            }
            return Option::None;
        },
    };
    let p_tkey = match expect(bytes, p_rate, &lit_timeout_key()) {
        Option::Some(p) => p,
        Option::None => {
            proof {
                assert forall|c: ClientConfig|
                    !(c.wf() && bytes@ == #[trigger] client_json(c)) by {
                    if c.wf() && bytes@ == client_json(c) {
                        assert(client_layout(bytes@, c));
                        assert(frac6_at(
                            bytes@,
                            p_head as int,
                            (c.arrival_rate_milli * 1000) as u64,
                        ));
                        assert(p_head == ch_client_head().len());
                        assert(p_rate == p_head + frac6_bytes(
                            (c.arrival_rate_milli * 1000) as u64,
                        ).len());
                        assert(u64_at(bytes@, p_rate + ch_timeout_key().len() as int, c.timeout));
                        assert(bytes@.subrange(p_rate as int, p_rate + ch_timeout_key().len())
                            == ch_timeout_key());
                    }
                }
            }
            return Option::None;
        },
    };
    let (timeout, p_tval) = match read_int(bytes, p_tkey) {
        Option::Some(v) => v,
        Option::None => {
            proof {
                assert forall|c: ClientConfig|
                    !(c.wf() && bytes@ == #[trigger] client_json(c)) by {
                    if c.wf() && bytes@ == client_json(c) {
                        assert(client_layout(bytes@, c));
                        assert(frac6_at(
                            bytes@,
                            p_head as int,
                            (c.arrival_rate_milli * 1000) as u64,
                        ));
                        assert(p_head == ch_client_head().len());
                        assert(p_rate == p_head + frac6_bytes(
                            (c.arrival_rate_milli * 1000) as u64,
                        ).len());
                        assert(p_tkey == p_rate + ch_timeout_key().len());
                        assert(u64_at(bytes@, p_tkey as int, c.timeout));
                    }
                }
            }
            return Option::None;
        },
    };
    let p_gkey = match expect(bytes, p_tval, &lit_generation_key()) {
        Option::Some(p) => p,
        Option::None => {
            proof {
                assert forall|c: ClientConfig|
                    !(c.wf() && bytes@ == #[trigger] client_json(c)) by {
                    if c.wf() && bytes@ == client_json(c) {
                        assert(client_layout(bytes@, c));
                        assert(frac6_at(
                            bytes@,
                            p_head as int,
                            (c.arrival_rate_milli * 1000) as u64,
                        ));
                        assert(p_head == ch_client_head().len());
                        assert(p_rate == p_head + frac6_bytes(
                            (c.arrival_rate_milli * 1000) as u64,
                        ).len());
                        assert(p_tkey == p_rate + ch_timeout_key().len());
                        assert(u64_at(bytes@, p_tkey as int, c.timeout));
                        assert(timeout == c.timeout);
                        assert(p_tval == p_tkey + dec_digits(c.timeout as nat).len());
                        assert(u64_at(
                            bytes@,
                            p_tval + ch_generation_key().len() as int,
                            c.generation_id,
                        ));
                        assert(bytes@.subrange(
                            p_tval as int,
                            p_tval + ch_generation_key().len(),
                        ) == ch_generation_key());
                    }
                }
            }
            return Option::None;
        },
    };
    let (generation_id, _p_gval) = match read_int(bytes, p_gkey) {
        Option::Some(v) => v,
        Option::None => {
            proof {
                assert forall|c: ClientConfig|
                    !(c.wf() && bytes@ == #[trigger] client_json(c)) by {
                    if c.wf() && bytes@ == client_json(c) {
                        assert(client_layout(bytes@, c));
                        assert(frac6_at(
                            bytes@,
                            p_head as int,
                            (c.arrival_rate_milli * 1000) as u64,
                        ));
                        assert(p_head == ch_client_head().len());
                        assert(p_rate == p_head + frac6_bytes(
                            (c.arrival_rate_milli * 1000) as u64,
                        ).len());
                        assert(p_tkey == p_rate + ch_timeout_key().len());
                        assert(u64_at(bytes@, p_tkey as int, c.timeout));
                        assert(timeout == c.timeout);
                        assert(p_tval == p_tkey + dec_digits(c.timeout as nat).len());
                        assert(p_gkey == p_tval + ch_generation_key().len());
                        assert(u64_at(bytes@, p_gkey as int, c.generation_id));
                    }
                }
            }
            return Option::None;
        },
    };
    let candidate = ClientConfig {
        arrival_rate_milli: rate_scaled / 1000,
        timeout,
        generation_id,
    }.clamped();
    let check = encode_client_config(&candidate);
    proof {
        assert forall|c: ClientConfig|
            c.wf() && bytes@ == #[trigger] client_json(c) implies candidate == c && check@
            == bytes@ by {
            assert(client_layout(bytes@, c));
            let rs = (c.arrival_rate_milli * 1000) as u64;
            assert(frac6_at(bytes@, p_head as int, rs));
            assert(rate_scaled == rs);
            assert(rate_scaled / 1000 == c.arrival_rate_milli) by (nonlinear_arith)
                requires
                    rate_scaled == c.arrival_rate_milli * 1000,
            ;
            assert(p_head == ch_client_head().len());
            assert(p_rate == p_head + frac6_bytes(rs).len());
            assert(p_tkey == p_rate + ch_timeout_key().len());
            assert(u64_at(bytes@, p_tkey as int, c.timeout));
            assert(timeout == c.timeout);
            assert(p_tval == p_tkey + dec_digits(c.timeout as nat).len());
            assert(p_gkey == p_tval + ch_generation_key().len());
            assert(u64_at(bytes@, p_gkey as int, c.generation_id));
            assert(generation_id == c.generation_id);
            assert(candidate == c.clamped_spec());
            assert(candidate == c);
        }
    }
    if bytes_eq(bytes, &check) {
        Option::Some(candidate)
    } else {
        Option::None
    }
}

/// Where each piece of a canonical server encoding sits.
pub open spec fn server_layout(s: Seq<u8>, c: ServerConfig) -> bool {
    let p0 = ch_server_head().len() as int;
    let q1 = p0 + dec_digits(c.service_time as nat).len() as int;
    let q2 = q1 + ch_concurrency_key().len() + dec_digits(c.concurrency as nat).len() as int;
    let q3 = q2 + ch_backlog_key().len() + dec_digits(c.backlog_limit as nat).len() as int;
    let q4 = q3 + ch_failure_key().len() + frac6_bytes(c.failure_ppm as u64).len() as int;
    &&& s.subrange(0, p0) == ch_server_head()
    &&& u64_at(s, p0, c.service_time)
    &&& s.subrange(q1, q1 + ch_concurrency_key().len() as int) == ch_concurrency_key()
    &&& u64_at(s, q1 + ch_concurrency_key().len() as int, c.concurrency as u64)
    &&& s.subrange(q2, q2 + ch_backlog_key().len() as int) == ch_backlog_key()
    &&& u64_at(s, q2 + ch_backlog_key().len() as int, c.backlog_limit as u64)
    &&& s.subrange(q3, q3 + ch_failure_key().len() as int) == ch_failure_key()
    &&& frac6_at(s, q3 + ch_failure_key().len() as int, c.failure_ppm as u64)
    &&& s.subrange(q4, q4 + ch_saturation_key().len() as int) == ch_saturation_key()
    &&& frac6_at(
        s,
        q4 + ch_saturation_key().len() as int,
        (c.saturation_penalty_milli * 1000) as u64,
    )
}

#[verifier::rlimit(100)]
#[verifier::spinoff_prover]
proof fn lemma_server_json_layout(s: Seq<u8>, c: ServerConfig)
    requires
        c.wf(),
        s == server_json(c),
    ensures
        server_layout(s, c),
{
    reveal(ch_concurrency_key);
    reveal(ch_backlog_key);
    reveal(ch_failure_key);
    reveal(ch_saturation_key);
    reveal(ch_close_brace);
    let a = ch_server_head();
    let d1 = dec_digits(c.service_time as nat);
    let c1 = ch_concurrency_key();
    let d2 = dec_digits(c.concurrency as nat);
    let c2 = ch_backlog_key();
    let d3 = dec_digits(c.backlog_limit as nat);
    let c3 = ch_failure_key();
    let f1 = frac6_bytes(c.failure_ppm as u64);
    let c4 = ch_saturation_key();
    let f2 = frac6_bytes((c.saturation_penalty_milli * 1000) as u64);
    let g = ch_close_brace();
    let r9 = f2 + g;
    let r8 = c4 + r9;
    let r7 = f1 + r8;
    let r6 = c3 + r7;
    let r5 = d3 + r6;
    let r4 = c2 + r5;
    let r3 = d2 + r4;
    let r2 = c1 + r3;
    let r1 = d1 + r2;
    assert(s.subrange(0, s.len() as int) =~= s);
    assert(s =~= a + r1);
    lemma_concat_extract(s, 0, a, r1);
    let m1 = a.len() as int;
    lemma_concat_extract(s, m1, d1, r2);
    let m2 = m1 + d1.len() as int;
    lemma_concat_extract(s, m2, c1, r3);
    let m3 = m2 + c1.len() as int;
    lemma_concat_extract(s, m3, d2, r4);
    let m4 = m3 + d2.len() as int;
    lemma_concat_extract(s, m4, c2, r5);
    let m5 = m4 + c2.len() as int;
    lemma_concat_extract(s, m5, d3, r6);
    let m6 = m5 + d3.len() as int;
    lemma_concat_extract(s, m6, c3, r7);
    let m7 = m6 + c3.len() as int;
    lemma_concat_extract(s, m7, f1, r8);
    let m8 = m7 + f1.len() as int;
    lemma_concat_extract(s, m8, c4, r9);
    let m9 = m8 + c4.len() as int;
    lemma_concat_extract(s, m9, f2, g);
    lemma_dec_digits_are_digits(c.service_time as nat);
    lemma_dec_digits_are_digits(c.concurrency as nat);
    lemma_dec_digits_are_digits(c.backlog_limit as nat);
    assert(s[m2] == c1[0] && !is_digit(s[m2]));
    assert(u64_at(s, m1, c.service_time));
    assert(s[m4] == c2[0] && !is_digit(s[m4]));
    assert(u64_at(s, m3, c.concurrency as u64));
    assert(s[m6] == c3[0] && !is_digit(s[m6]));
    assert(u64_at(s, m5, c.backlog_limit as u64));
    assert(s[m8] == c4[0] && !is_digit(s[m8]));
    assert(frac6_at(s, m7, c.failure_ppm as u64));
    assert(s[m9 + f2.len()] == g[0] && !is_digit(s[m9 + f2.len() as int]));
    assert(frac6_at(s, m9, (c.saturation_penalty_milli * 1000) as u64));
}

/// All the parse positions a canonical server encoding pins, given the
/// steps taken so far agree with it.
/// Decode a server configuration: accepts exactly the canonical JSON of
/// the configuration it returns, and accepts every canonical encoding.
#[verifier::rlimit(100)]
#[verifier::spinoff_prover]
pub fn decode_server_config(bytes: &Vec<u8>) -> (r: Option<ServerConfig>)
    ensures
        r matches Option::Some(c) ==> c.wf() && bytes@ == server_json(c),
        forall|c: ServerConfig|
            c.wf() && bytes@ == #[trigger] server_json(c) ==> r == Option::Some(c),
{
    let total_len = bytes.len();
    proof {
        assert(bytes@.len() <= usize::MAX);
        assert forall|c: ServerConfig|
            c.wf() && bytes@ == #[trigger] server_json(c) implies server_layout(bytes@, c) by {
            lemma_server_json_layout(bytes@, c);
        }
    }
    let p_head = match expect(bytes, 0, &lit_server_head()) {
        Option::Some(p) => p,
        Option::None => {
            proof {
                assert forall|c: ServerConfig|
                    !(c.wf() && bytes@ == #[trigger] server_json(c)) by {
                    if c.wf() && bytes@ == server_json(c) {
                        assert(server_layout(bytes@, c));
                        assert(u64_at(bytes@, ch_server_head().len() as int, c.service_time));
                        assert(bytes@.subrange(0int, 0 + ch_server_head().len() as int)
                            == ch_server_head());
                    }
                }
            }
            return Option::None;
        },
    };
    let (service_time, p1) = match read_int(bytes, p_head) {
        Option::Some(v) => v,
        Option::None => {
            proof {
                assert forall|c: ServerConfig|
                    !(c.wf() && bytes@ == #[trigger] server_json(c)) by {
                    if c.wf() && bytes@ == server_json(c) {
                        assert(server_layout(bytes@, c));
                        assert(u64_at(bytes@, p_head as int, c.service_time));
                    }
                }
            }
            return Option::None;
        },
    };
    let p2 = match expect(bytes, p1, &lit_concurrency_key()) {
        Option::Some(p) => p,
        Option::None => {
            proof {
                assert forall|c: ServerConfig|
                    !(c.wf() && bytes@ == #[trigger] server_json(c)) by {
                    if c.wf() && bytes@ == server_json(c) {
                        assert(server_layout(bytes@, c));
                        assert(u64_at(bytes@, p_head as int, c.service_time));
                        assert(p1 == p_head + dec_digits(c.service_time as nat).len());
                        assert(u64_at(
                            bytes@,
                            p1 + ch_concurrency_key().len() as int,
                            c.concurrency as u64,
                        ));
                        assert(bytes@.subrange(p1 as int, p1 + ch_concurrency_key().len())
                            == ch_concurrency_key());
                    }
                }
            }
            return Option::None;
        },
    };
    let (concurrency, p3) = match read_int(bytes, p2) {
        Option::Some(v) => v,
        Option::None => {
            proof {
                assert forall|c: ServerConfig|
                    !(c.wf() && bytes@ == #[trigger] server_json(c)) by {
                    if c.wf() && bytes@ == server_json(c) {
                        assert(server_layout(bytes@, c));
                        assert(u64_at(bytes@, p_head as int, c.service_time));
                        assert(p1 == p_head + dec_digits(c.service_time as nat).len());
                        assert(p2 == p1 + ch_concurrency_key().len());
                        assert(u64_at(bytes@, p2 as int, c.concurrency as u64));
                    }
                }
            }
            return Option::None;
        },
    };
    let p4 = match expect(bytes, p3, &lit_backlog_key()) {
        Option::Some(p) => p,
        Option::None => {
            proof {
                assert forall|c: ServerConfig|
                    !(c.wf() && bytes@ == #[trigger] server_json(c)) by {
                    if c.wf() && bytes@ == server_json(c) {
                        assert(server_layout(bytes@, c));
                        assert(u64_at(bytes@, p_head as int, c.service_time));
                        assert(p1 == p_head + dec_digits(c.service_time as nat).len());
                        assert(p2 == p1 + ch_concurrency_key().len());
                        assert(u64_at(bytes@, p2 as int, c.concurrency as u64));
                        assert(p3 == p2 + dec_digits(c.concurrency as nat).len());
                        assert(u64_at(
                            bytes@,
                            p3 + ch_backlog_key().len() as int,
                            c.backlog_limit as u64,
                        ));
                        assert(bytes@.subrange(p3 as int, p3 + ch_backlog_key().len())
                            == ch_backlog_key());
                    }
                }
            }
            return Option::None;
        },
    };
    let (backlog, p5) = match read_int(bytes, p4) {
        Option::Some(v) => v,
        Option::None => {
            proof {
                assert forall|c: ServerConfig|
                    !(c.wf() && bytes@ == #[trigger] server_json(c)) by {
                    if c.wf() && bytes@ == server_json(c) {
                        assert(server_layout(bytes@, c));
                        assert(u64_at(bytes@, p_head as int, c.service_time));
                        assert(p1 == p_head + dec_digits(c.service_time as nat).len());
                        assert(p2 == p1 + ch_concurrency_key().len());
                        assert(u64_at(bytes@, p2 as int, c.concurrency as u64));
                        assert(p3 == p2 + dec_digits(c.concurrency as nat).len());
                        assert(p4 == p3 + ch_backlog_key().len());
                        assert(u64_at(bytes@, p4 as int, c.backlog_limit as u64));
                    }
                }
            }
            return Option::None;
        },
    };
    let p6 = match expect(bytes, p5, &lit_failure_key()) {
        Option::Some(p) => p,
        Option::None => {
            proof {
                assert forall|c: ServerConfig|
                    !(c.wf() && bytes@ == #[trigger] server_json(c)) by {
                    if c.wf() && bytes@ == server_json(c) {
                        assert(server_layout(bytes@, c));
                        assert(u64_at(bytes@, p_head as int, c.service_time));
                        assert(p1 == p_head + dec_digits(c.service_time as nat).len());
                        assert(p2 == p1 + ch_concurrency_key().len());
                        assert(u64_at(bytes@, p2 as int, c.concurrency as u64));
                        assert(p3 == p2 + dec_digits(c.concurrency as nat).len());
                        assert(p4 == p3 + ch_backlog_key().len());
                        assert(u64_at(bytes@, p4 as int, c.backlog_limit as u64));
                        assert(p5 == p4 + dec_digits(c.backlog_limit as nat).len());
                        assert(frac6_at(
                            bytes@,
                            p5 + ch_failure_key().len() as int,
                            c.failure_ppm as u64,
                        ));
                        assert(bytes@.subrange(p5 as int, p5 + ch_failure_key().len())
                            == ch_failure_key());
                    }
                }
            }
            return Option::None;
        },
    };
    let (failure, p7) = match read_frac6(bytes, p6) {
        Option::Some(v) => v,
        Option::None => {
            proof {
                assert forall|c: ServerConfig|
                    !(c.wf() && bytes@ == #[trigger] server_json(c)) by {
                    if c.wf() && bytes@ == server_json(c) {
                        assert(server_layout(bytes@, c));
                        assert(u64_at(bytes@, p_head as int, c.service_time));
                        assert(p1 == p_head + dec_digits(c.service_time as nat).len());
                        assert(p2 == p1 + ch_concurrency_key().len());
                        assert(u64_at(bytes@, p2 as int, c.concurrency as u64));
                        assert(p3 == p2 + dec_digits(c.concurrency as nat).len());
                        assert(p4 == p3 + ch_backlog_key().len());
                        assert(u64_at(bytes@, p4 as int, c.backlog_limit as u64));
                        assert(p5 == p4 + dec_digits(c.backlog_limit as nat).len());
                        assert(p6 == p5 + ch_failure_key().len());
                        assert(frac6_at(bytes@, p6 as int, c.failure_ppm as u64));
                    }
                }
            }
            return Option::None;
        },
    };
    let p8 = match expect(bytes, p7, &lit_saturation_key()) {
        Option::Some(p) => p,
        Option::None => {
            proof {
                assert forall|c: ServerConfig|
                    !(c.wf() && bytes@ == #[trigger] server_json(c)) by {
                    if c.wf() && bytes@ == server_json(c) {
                        assert(server_layout(bytes@, c));
                        assert(u64_at(bytes@, p_head as int, c.service_time));
                        assert(p1 == p_head + dec_digits(c.service_time as nat).len());
                        assert(p2 == p1 + ch_concurrency_key().len());
                        assert(u64_at(bytes@, p2 as int, c.concurrency as u64));
                        assert(p3 == p2 + dec_digits(c.concurrency as nat).len());
                        assert(p4 == p3 + ch_backlog_key().len());
                        assert(u64_at(bytes@, p4 as int, c.backlog_limit as u64));
                        assert(p5 == p4 + dec_digits(c.backlog_limit as nat).len());
                        assert(p6 == p5 + ch_failure_key().len());
                        assert(frac6_at(bytes@, p6 as int, c.failure_ppm as u64));
                        assert(p7 == p6 + frac6_bytes(c.failure_ppm as u64).len());
                        assert(frac6_at(
                            bytes@,
                            p7 + ch_saturation_key().len() as int,
                            (c.saturation_penalty_milli * 1000) as u64,
                        ));
                        assert(bytes@.subrange(p7 as int, p7 + ch_saturation_key().len())
                            == ch_saturation_key());
                    }
                }
            }
            return Option::None;
        },
    };
    let (saturation_scaled, _p9) = match read_frac6(bytes, p8) {
        Option::Some(v) => v,
        Option::None => {
            proof {
                assert forall|c: ServerConfig|
                    !(c.wf() && bytes@ == #[trigger] server_json(c)) by {
                    if c.wf() && bytes@ == server_json(c) {
                        assert(server_layout(bytes@, c));
                        assert(u64_at(bytes@, p_head as int, c.service_time));
                        assert(p1 == p_head + dec_digits(c.service_time as nat).len());
                        assert(p2 == p1 + ch_concurrency_key().len());
                        assert(u64_at(bytes@, p2 as int, c.concurrency as u64));
                        assert(p3 == p2 + dec_digits(c.concurrency as nat).len());
                        assert(p4 == p3 + ch_backlog_key().len());
                        assert(u64_at(bytes@, p4 as int, c.backlog_limit as u64));
                        assert(p5 == p4 + dec_digits(c.backlog_limit as nat).len());
                        assert(p6 == p5 + ch_failure_key().len());
                        assert(frac6_at(bytes@, p6 as int, c.failure_ppm as u64));
                        assert(p7 == p6 + frac6_bytes(c.failure_ppm as u64).len());
                        assert(p8 == p7 + ch_saturation_key().len());
                        assert(frac6_at(
                            bytes@,
                            p8 as int,
                            (c.saturation_penalty_milli * 1000) as u64,
                        ));
                    }
                }
            }
            return Option::None;
        },
    };
    let candidate = ServerConfig {
        service_time,
        concurrency: if concurrency > u32::MAX as u64 {
            u32::MAX
        } else {
            concurrency as u32
        },
        backlog_limit: if backlog > u32::MAX as u64 {
            u32::MAX
        } else {
            backlog as u32
        },
        failure_ppm: if failure > u32::MAX as u64 {
            u32::MAX
        } else {
            failure as u32
        },
        saturation_penalty_milli: saturation_scaled / 1000,
    }.clamped();
    let check = encode_server_config(&candidate);
    proof {
        assert forall|c: ServerConfig|
            c.wf() && bytes@ == #[trigger] server_json(c) implies candidate == c && check@
            == bytes@ by {
            assert(server_layout(bytes@, c));
            assert(u64_at(bytes@, p_head as int, c.service_time));
            assert(service_time == c.service_time);
            assert(p1 == p_head + dec_digits(c.service_time as nat).len());
            assert(p2 == p1 + ch_concurrency_key().len());
            assert(u64_at(bytes@, p2 as int, c.concurrency as u64));
            assert(concurrency == c.concurrency as u64);
            assert(p3 == p2 + dec_digits(c.concurrency as nat).len());
            assert(p4 == p3 + ch_backlog_key().len());
            assert(u64_at(bytes@, p4 as int, c.backlog_limit as u64));
            assert(backlog == c.backlog_limit as u64);
            assert(p5 == p4 + dec_digits(c.backlog_limit as nat).len());
            assert(p6 == p5 + ch_failure_key().len());
            assert(frac6_at(bytes@, p6 as int, c.failure_ppm as u64));
            assert(failure == c.failure_ppm as u64);
            assert(p7 == p6 + frac6_bytes(c.failure_ppm as u64).len());
            assert(p8 == p7 + ch_saturation_key().len());
            assert(frac6_at(bytes@, p8 as int, (c.saturation_penalty_milli * 1000) as u64));
            assert(saturation_scaled == (c.saturation_penalty_milli * 1000) as u64);
            assert(saturation_scaled / 1000 == c.saturation_penalty_milli) by (nonlinear_arith)
                requires
                    saturation_scaled == c.saturation_penalty_milli * 1000,
            ;
            assert(candidate == c.clamped_spec());
            assert(candidate == c);
        }
    }
    if bytes_eq(bytes, &check) {
        Option::Some(candidate)
    } else {
        Option::None
    }
}

/// Where each piece of a canonical balancer encoding sits.
pub open spec fn lb_layout(s: Seq<u8>, c: LoadBalancerConfig) -> bool {
    let p0 = ch_lb_head().len() as int;
    let q1 = p0 + strategy_bytes(c.strategy).len() as int;
    let q2 = q1 + ch_max_retries_key().len() + dec_digits(c.max_retries as nat).len() as int;
    let q3 = q2 + ch_backoff_key().len() + dec_digits(c.retry_backoff_ms as nat).len() as int;
    let q4 = q3 + ch_retry_strategy_key().len() + retry_strategy_bytes(
        c.retry_strategy,
    ).len() as int;
    let q5 = q4 + ch_ratio_key().len() + frac6_bytes(
        (c.retry_budget_ratio_milli * 1000) as u64,
    ).len() as int;
    let q6 = q5 + ch_min_rate_key().len() + dec_digits(c.min_retry_rate as nat).len() as int;
    &&& s.subrange(0, p0) == ch_lb_head()
    &&& s.subrange(p0, q1) == strategy_bytes(c.strategy)
    &&& s.subrange(q1, q1 + ch_max_retries_key().len() as int) == ch_max_retries_key()
    &&& u64_at(s, q1 + ch_max_retries_key().len() as int, c.max_retries as u64)
    &&& s.subrange(q2, q2 + ch_backoff_key().len() as int) == ch_backoff_key()
    &&& u64_at(s, q2 + ch_backoff_key().len() as int, c.retry_backoff_ms)
    &&& s.subrange(q3, q3 + ch_retry_strategy_key().len() as int) == ch_retry_strategy_key()
    &&& s.subrange(q3 + ch_retry_strategy_key().len() as int, q4) == retry_strategy_bytes(
        c.retry_strategy,
    )
    &&& s.subrange(q4, q4 + ch_ratio_key().len() as int) == ch_ratio_key()
    &&& frac6_at(s, q4 + ch_ratio_key().len() as int, (c.retry_budget_ratio_milli * 1000) as u64)
    &&& s.subrange(q5, q5 + ch_min_rate_key().len() as int) == ch_min_rate_key()
    &&& u64_at(s, q5 + ch_min_rate_key().len() as int, c.min_retry_rate as u64)
    &&& s.subrange(q6, q6 + ch_max_tokens_key().len() as int) == ch_max_tokens_key()
    &&& frac6_at(
        s,
        q6 + ch_max_tokens_key().len() as int,
        (c.retry_budget_max_tokens_milli * 1000) as u64,
    )
}

/// The front of a canonical balancer encoding: head, strategy and the
/// two leading numbers, with the tail in place after them.
#[verifier::rlimit(100)]
#[verifier::spinoff_prover]
proof fn lemma_lb_json_layout_front(s: Seq<u8>, c: LoadBalancerConfig)
    requires
        c.wf(),
        s == lb_json(c),
    ensures
        ({
            let p0 = ch_lb_head().len() as int;
            let q1 = p0 + strategy_bytes(c.strategy).len() as int;
            let q2 = q1 + ch_max_retries_key().len() + dec_digits(
                c.max_retries as nat,
            ).len() as int;
            let q3 = q2 + ch_backoff_key().len() + dec_digits(
                c.retry_backoff_ms as nat,
            ).len() as int;
            &&& s.subrange(0, p0) == ch_lb_head()
            &&& s.subrange(p0, q1) == strategy_bytes(c.strategy)
            &&& s.subrange(q1, q1 + ch_max_retries_key().len() as int) == ch_max_retries_key()
            &&& u64_at(s, q1 + ch_max_retries_key().len() as int, c.max_retries as u64)
            &&& s.subrange(q2, q2 + ch_backoff_key().len() as int) == ch_backoff_key()
            &&& u64_at(s, q2 + ch_backoff_key().len() as int, c.retry_backoff_ms)
            &&& s.subrange(q3, s.len() as int) == lb_tail(c)
        }),
{
    reveal(ch_max_retries_key);
    reveal(ch_backoff_key);
    let a = ch_lb_head();
    let st = strategy_bytes(c.strategy);
    let c1 = ch_max_retries_key();
    let d1 = dec_digits(c.max_retries as nat);
    let c2 = ch_backoff_key();
    let d2 = dec_digits(c.retry_backoff_ms as nat);
    let tl = lb_tail(c);
    let r5 = d2 + tl;
    let r4 = c2 + r5;
    let r3 = d1 + r4;
    let r2 = c1 + r3;
    let r1 = st + r2;
    assert(s.subrange(0, s.len() as int) =~= s);
    assert(s =~= a + r1);
    lemma_concat_extract(s, 0, a, r1);
    let m1 = a.len() as int;
    lemma_concat_extract(s, m1, st, r2);
    let m2 = m1 + st.len() as int;
    lemma_concat_extract(s, m2, c1, r3);
    let m3 = m2 + c1.len() as int;
    lemma_concat_extract(s, m3, d1, r4);
    let m4 = m3 + d1.len() as int;
    lemma_concat_extract(s, m4, c2, r5);
    let m5 = m4 + c2.len() as int;
    lemma_concat_extract(s, m5, d2, tl);
    lemma_dec_digits_are_digits(c.max_retries as nat);
    lemma_dec_digits_are_digits(c.retry_backoff_ms as nat);
    assert(s[m4] == c2[0] && !is_digit(s[m4]));
    assert(u64_at(s, m3, c.max_retries as u64));
    lemma_lb_tail_first_byte(c);
    assert(s[m5 + d2.len()] == tl[0]);
    assert(!is_digit(s[m5 + d2.len() as int]));
    assert(u64_at(s, m5, c.retry_backoff_ms));
}

/// The tail of a canonical balancer encoding, laid out from `q3` on.
#[verifier::rlimit(100)]
#[verifier::spinoff_prover]
proof fn lemma_lb_json_layout_back(s: Seq<u8>, c: LoadBalancerConfig, q3: int)
    requires
        c.wf(),
        0 <= q3 <= s.len(),
        s.subrange(q3, s.len() as int) == lb_tail(c),
    ensures
        ({
            let q4 = q3 + ch_retry_strategy_key().len() + retry_strategy_bytes(
                c.retry_strategy,
            ).len() as int;
            let q5 = q4 + ch_ratio_key().len() + frac6_bytes(
                (c.retry_budget_ratio_milli * 1000) as u64,
            ).len() as int;
            let q6 = q5 + ch_min_rate_key().len() + dec_digits(
                c.min_retry_rate as nat,
            ).len() as int;
            &&& s.subrange(q3, q3 + ch_retry_strategy_key().len() as int)
                == ch_retry_strategy_key()
            &&& s.subrange(q3 + ch_retry_strategy_key().len() as int, q4)
                == retry_strategy_bytes(c.retry_strategy)
            &&& s.subrange(q4, q4 + ch_ratio_key().len() as int) == ch_ratio_key()
            &&& frac6_at(
                s,
                q4 + ch_ratio_key().len() as int,
                (c.retry_budget_ratio_milli * 1000) as u64,
            )
            &&& s.subrange(q5, q5 + ch_min_rate_key().len() as int) == ch_min_rate_key()
            &&& u64_at(s, q5 + ch_min_rate_key().len() as int, c.min_retry_rate as u64)
            &&& s.subrange(q6, q6 + ch_max_tokens_key().len() as int) == ch_max_tokens_key()
            &&& frac6_at(
                s,
                q6 + ch_max_tokens_key().len() as int,
                (c.retry_budget_max_tokens_milli * 1000) as u64,
            )
        }),
{
    reveal(lb_tail);
    reveal(ch_ratio_key);
    reveal(ch_min_rate_key);
    reveal(ch_max_tokens_key);
    reveal(ch_close_brace);
    let c3 = ch_retry_strategy_key();
    let s2 = retry_strategy_bytes(c.retry_strategy);
    let c4 = ch_ratio_key();
    let f1 = frac6_bytes((c.retry_budget_ratio_milli * 1000) as u64);
    let c5 = ch_min_rate_key();
    let d3 = dec_digits(c.min_retry_rate as nat);
    let c6 = ch_max_tokens_key();
    let f2 = frac6_bytes((c.retry_budget_max_tokens_milli * 1000) as u64);
    let g = ch_close_brace();
    let r13 = f2 + g;
    let r12 = c6 + r13;
    let r11 = d3 + r12;
    let r10 = c5 + r11;
    let r9 = f1 + r10;
    let r8 = c4 + r9;
    let r7 = s2 + r8;
    assert(lb_tail(c) =~= c3 + r7);
    lemma_concat_extract(s, q3, c3, r7);
    let m7 = q3 + c3.len() as int;
    lemma_concat_extract(s, m7, s2, r8);
    let m8 = m7 + s2.len() as int;
    lemma_concat_extract(s, m8, c4, r9);
    let m9 = m8 + c4.len() as int;
    lemma_concat_extract(s, m9, f1, r10);
    let m10 = m9 + f1.len() as int;
    lemma_concat_extract(s, m10, c5, r11);
    let m11 = m10 + c5.len() as int;
    lemma_concat_extract(s, m11, d3, r12);
    let m12 = m11 + d3.len() as int;
    lemma_concat_extract(s, m12, c6, r13);
    let m13 = m12 + c6.len() as int;
    lemma_concat_extract(s, m13, f2, g);
    lemma_dec_digits_are_digits(c.min_retry_rate as nat);
    assert(s[m10] == c5[0] && !is_digit(s[m10]));
    assert(frac6_at(s, m9, (c.retry_budget_ratio_milli * 1000) as u64));
    assert(s[m12] == c6[0] && !is_digit(s[m12]));
    assert(u64_at(s, m11, c.min_retry_rate as u64));
    assert(s[m13 + f2.len()] == g[0] && !is_digit(s[m13 + f2.len() as int]));
    assert(frac6_at(s, m13, (c.retry_budget_max_tokens_milli * 1000) as u64));
}

#[verifier::rlimit(100)]
#[verifier::spinoff_prover]
proof fn lemma_lb_json_layout(s: Seq<u8>, c: LoadBalancerConfig)
    requires
        c.wf(),
        s == lb_json(c),
    ensures
        lb_layout(s, c),
{
    lemma_lb_json_layout_front(s, c);
    let q3 = ch_lb_head().len() + strategy_bytes(c.strategy).len()
        + ch_max_retries_key().len() + dec_digits(c.max_retries as nat).len()
        + ch_backoff_key().len() + dec_digits(c.retry_backoff_ms as nat).len() as int;
    lemma_lb_json_layout_back(s, c, q3);
}

/// Two balancing-strategy names laid out at the same spot are the same
/// strategy: the names differ within their first three bytes.
proof fn lemma_strategy_name_pins(
    s: Seq<u8>,
    pos: int,
    st: BalancingStrategy,
    taken: BalancingStrategy,
)
    requires
        0 <= pos,
        pos + strategy_bytes(st).len() <= s.len(),
        s.subrange(pos, pos + strategy_bytes(st).len() as int) == strategy_bytes(st),
        pos + strategy_bytes(taken).len() <= s.len(),
        s.subrange(pos, pos + strategy_bytes(taken).len() as int) == strategy_bytes(taken),
    ensures
        st == taken,
{
    reveal(ch_round_robin_name);
    reveal(ch_random_name);
    reveal(ch_least_conn_name);
    if st != taken {
        assert(s[pos + 1] == strategy_bytes(st)[1]);
        assert(s[pos + 1] == strategy_bytes(taken)[1]);
        assert(s[pos + 2] == strategy_bytes(st)[2]);
        assert(s[pos + 2] == strategy_bytes(taken)[2]);
        assert(false);
    }
}

/// The same, for the retry-strategy names: they differ in their second
/// byte.
proof fn lemma_retry_name_pins(s: Seq<u8>, pos: int, st: RetryStrategy, taken: RetryStrategy)
    requires
        0 <= pos,
        pos + retry_strategy_bytes(st).len() <= s.len(),
        s.subrange(pos, pos + retry_strategy_bytes(st).len() as int) == retry_strategy_bytes(st),
        pos + retry_strategy_bytes(taken).len() <= s.len(),
        s.subrange(pos, pos + retry_strategy_bytes(taken).len() as int) == retry_strategy_bytes(
            taken,
        ),
    ensures
        st == taken,
{
    reveal(ch_immediate_name);
    reveal(ch_constant_name);
    reveal(ch_exponential_name);
    if st != taken {
        assert(s[pos + 1] == retry_strategy_bytes(st)[1]);
        assert(s[pos + 1] == retry_strategy_bytes(taken)[1]);
        assert(false);
    }
}

/// How far into a canonical balancer encoding its front half reaches:
/// past the head, the strategy name, and the two leading numbers.
pub open spec fn lb_front_len(c: LoadBalancerConfig) -> int {
    ch_lb_head().len() + strategy_bytes(c.strategy).len() + ch_max_retries_key().len()
        + dec_digits(c.max_retries as nat).len() + ch_backoff_key().len() + dec_digits(
        c.retry_backoff_ms as nat,
    ).len() as int
}

/// Parse the front of a balancer encoding: strategy, retry cap and
/// backoff. On canonical input this recovers exactly those fields.
#[verifier::rlimit(100)]
#[verifier::spinoff_prover]
fn parse_lb_front(bytes: &Vec<u8>) -> (r: Option<(BalancingStrategy, u64, u64, usize)>)
    ensures
        r matches Option::Some(v) ==> v.3 <= bytes@.len(),
        forall|c: LoadBalancerConfig|
            c.wf() && bytes@ == #[trigger] lb_json(c) ==> r == Option::Some(
                (c.strategy, c.max_retries as u64, c.retry_backoff_ms, lb_front_len(c) as usize),
            ),
        forall|c: LoadBalancerConfig|
            c.wf() && bytes@ == #[trigger] lb_json(c) ==> 0 <= lb_front_len(c) <= bytes@.len(),
{
    let total_len = bytes.len();
    proof {
        assert(bytes@.len() <= usize::MAX);
        assert forall|c: LoadBalancerConfig|
            c.wf() && bytes@ == #[trigger] lb_json(c) implies lb_layout(bytes@, c) by {
            lemma_lb_json_layout(bytes@, c);
        }
    }
    let p_h = match expect(bytes, 0, &lit_lb_head()) {
        Option::Some(p) => p,
        Option::None => {
            proof {
                assert forall|c: LoadBalancerConfig|
                    !(c.wf() && bytes@ == #[trigger] lb_json(c)) by {
                    if c.wf() && bytes@ == lb_json(c) {
                        assert(lb_layout(bytes@, c));
                        assert(u64_at(
                            bytes@,
                            ch_lb_head().len() + strategy_bytes(c.strategy).len()
                                + ch_max_retries_key().len() as int,
                            c.max_retries as u64,
                        ));
                        assert(bytes@.subrange(0int, 0 + ch_lb_head().len() as int)
                            == ch_lb_head());
                    }
                }
            }
            return Option::None;
        },
    };
    let (strategy, p_st) = match expect(bytes, p_h, &lit_round_robin_name()) {
        Option::Some(p) => (BalancingStrategy::RoundRobin, p),
        Option::None => match expect(bytes, p_h, &lit_random_name()) {
            Option::Some(p) => (BalancingStrategy::Random, p),
            Option::None => match expect(bytes, p_h, &lit_least_conn_name()) {
                Option::Some(p) => (BalancingStrategy::LeastConnections, p),
                Option::None => {
                    proof {
                        assert forall|c: LoadBalancerConfig|
                            !(c.wf() && bytes@ == #[trigger] lb_json(c)) by {
                            if c.wf() && bytes@ == lb_json(c) {
                                assert(lb_layout(bytes@, c));
                                assert(p_h == ch_lb_head().len());
                                assert(bytes@.subrange(
                                    p_h as int,
                                    p_h + strategy_bytes(c.strategy).len() as int,
                                ) == strategy_bytes(c.strategy));
                                assert(p_h + strategy_bytes(c.strategy).len()
                                    + ch_max_retries_key().len() <= bytes@.len());
                                match c.strategy {
                                    BalancingStrategy::RoundRobin => {
                                        reveal(ch_round_robin_name);
                                    },
                                    BalancingStrategy::Random => {
                                        reveal(ch_random_name);
                                    },
                                    BalancingStrategy::LeastConnections => {
                                        reveal(ch_least_conn_name);
                                    },
                                }
                                assert(false);
                            }
                        }
                    }
                    return Option::None;
                },
            },
        },
    };
    let p_mk = match expect(bytes, p_st, &lit_max_retries_key()) {
        Option::Some(p) => p,
        Option::None => {
            proof {
                assert forall|c: LoadBalancerConfig|
                    !(c.wf() && bytes@ == #[trigger] lb_json(c)) by {
                    if c.wf() && bytes@ == lb_json(c) {
                        assert(lb_layout(bytes@, c));
                        assert(p_h == ch_lb_head().len());
                        assert(bytes@.subrange(
                            p_h as int,
                            p_h + strategy_bytes(c.strategy).len() as int,
                        ) == strategy_bytes(c.strategy));
                        assert(p_h + strategy_bytes(c.strategy).len()
                            + ch_max_retries_key().len() <= bytes@.len());
                        match strategy {
                            BalancingStrategy::RoundRobin => lemma_strategy_name_pins(
                                bytes@,
                                p_h as int,
                                c.strategy,
                                BalancingStrategy::RoundRobin,
                            ),
                            BalancingStrategy::Random => lemma_strategy_name_pins(
                                bytes@,
                                p_h as int,
                                c.strategy,
                                BalancingStrategy::Random,
                            ),
                            BalancingStrategy::LeastConnections => lemma_strategy_name_pins(
                                bytes@,
                                p_h as int,
                                c.strategy,
                                BalancingStrategy::LeastConnections,
                            ),
                        }
                        assert(strategy == c.strategy);
                        assert(p_st == p_h + strategy_bytes(c.strategy).len());
                        assert(u64_at(
                            bytes@,
                            p_st + ch_max_retries_key().len() as int,
                            c.max_retries as u64,
                        ));
                        assert(bytes@.subrange(p_st as int, p_st + ch_max_retries_key().len())
                            == ch_max_retries_key());
                    }
                }
            }
            return Option::None;
        },
    };
    let (max_retries, p_mv) = match read_int(bytes, p_mk) {
        Option::Some(v) => v,
        Option::None => {
            proof {
                assert forall|c: LoadBalancerConfig|
                    !(c.wf() && bytes@ == #[trigger] lb_json(c)) by {
                    if c.wf() && bytes@ == lb_json(c) {
                        assert(lb_layout(bytes@, c));
                        assert(p_h == ch_lb_head().len());
                        assert(bytes@.subrange(
                            p_h as int,
                            p_h + strategy_bytes(c.strategy).len() as int,
                        ) == strategy_bytes(c.strategy));
                        assert(p_h + strategy_bytes(c.strategy).len()
                            + ch_max_retries_key().len() <= bytes@.len());
                        match strategy {
                            BalancingStrategy::RoundRobin => lemma_strategy_name_pins(
                                bytes@,
                                p_h as int,
                                c.strategy,
                                BalancingStrategy::RoundRobin,
                            ),
                            BalancingStrategy::Random => lemma_strategy_name_pins(
                                bytes@,
                                p_h as int,
                                c.strategy,
                                BalancingStrategy::Random,
                            ),
                            BalancingStrategy::LeastConnections => lemma_strategy_name_pins(
                                bytes@,
                                p_h as int,
                                c.strategy,
                                BalancingStrategy::LeastConnections,
                            ),
                        }
                        assert(strategy == c.strategy);
                        assert(p_st == p_h + strategy_bytes(c.strategy).len());
                        assert(p_mk == p_st + ch_max_retries_key().len());
                        assert(u64_at(bytes@, p_mk as int, c.max_retries as u64));
                    }
                }
            }
            return Option::None;
        },
    };
    let p_bk = match expect(bytes, p_mv, &lit_backoff_key()) {
        Option::Some(p) => p,
        Option::None => {
            proof {
                assert forall|c: LoadBalancerConfig|
                    !(c.wf() && bytes@ == #[trigger] lb_json(c)) by {
                    if c.wf() && bytes@ == lb_json(c) {
                        assert(lb_layout(bytes@, c));
                        assert(p_h == ch_lb_head().len());
                        assert(bytes@.subrange(
                            p_h as int,
                            p_h + strategy_bytes(c.strategy).len() as int,
                        ) == strategy_bytes(c.strategy));
                        assert(p_h + strategy_bytes(c.strategy).len()
                            + ch_max_retries_key().len() <= bytes@.len());
                        match strategy {
                            BalancingStrategy::RoundRobin => lemma_strategy_name_pins(
                                bytes@,
                                p_h as int,
                                c.strategy,
                                BalancingStrategy::RoundRobin,
                            ),
                            BalancingStrategy::Random => lemma_strategy_name_pins(
                                bytes@,
                                p_h as int,
                                c.strategy,
                                BalancingStrategy::Random,
                            ),
                            BalancingStrategy::LeastConnections => lemma_strategy_name_pins(
                                bytes@,
                                p_h as int,
                                c.strategy,
                                BalancingStrategy::LeastConnections,
                            ),
                        }
                        assert(strategy == c.strategy);
                        assert(p_st == p_h + strategy_bytes(c.strategy).len());
                        assert(p_mk == p_st + ch_max_retries_key().len());
                        assert(u64_at(bytes@, p_mk as int, c.max_retries as u64));
                        assert(p_mv == p_mk + dec_digits(c.max_retries as nat).len());
                        assert(u64_at(
                            bytes@,
                            p_mv + ch_backoff_key().len() as int,
                            c.retry_backoff_ms,
                        ));
                        assert(bytes@.subrange(p_mv as int, p_mv + ch_backoff_key().len())
                            == ch_backoff_key());
                    }
                }
            }
            return Option::None;
        },
    };
    let (backoff, p_bv) = match read_int(bytes, p_bk) {
        Option::Some(v) => v,
        Option::None => {
            proof {
                assert forall|c: LoadBalancerConfig|
                    !(c.wf() && bytes@ == #[trigger] lb_json(c)) by {
                    if c.wf() && bytes@ == lb_json(c) {
                        assert(lb_layout(bytes@, c));
                        assert(p_h == ch_lb_head().len());
                        assert(bytes@.subrange(
                            p_h as int,
                            p_h + strategy_bytes(c.strategy).len() as int,
                        ) == strategy_bytes(c.strategy));
                        assert(p_h + strategy_bytes(c.strategy).len()
                            + ch_max_retries_key().len() <= bytes@.len());
                        match strategy {
                            BalancingStrategy::RoundRobin => lemma_strategy_name_pins(
                                bytes@,
                                p_h as int,
                                c.strategy,
                                BalancingStrategy::RoundRobin,
                            ),
                            BalancingStrategy::Random => lemma_strategy_name_pins(
                                bytes@,
                                p_h as int,
                                c.strategy,
                                BalancingStrategy::Random,
                            ),
                            BalancingStrategy::LeastConnections => lemma_strategy_name_pins(
                                bytes@,
                                p_h as int,
                                c.strategy,
                                BalancingStrategy::LeastConnections,
                            ),
                        }
                        assert(strategy == c.strategy);
                        assert(p_st == p_h + strategy_bytes(c.strategy).len());
                        assert(p_mk == p_st + ch_max_retries_key().len());
                        assert(u64_at(bytes@, p_mk as int, c.max_retries as u64));
                        assert(p_mv == p_mk + dec_digits(c.max_retries as nat).len());
                        assert(p_bk == p_mv + ch_backoff_key().len());
                        assert(u64_at(bytes@, p_bk as int, c.retry_backoff_ms));
                    }
                }
            }
            return Option::None;
        },
    };
    proof {
        assert forall|c: LoadBalancerConfig|
            c.wf() && bytes@ == #[trigger] lb_json(c) implies strategy == c.strategy
            && max_retries == c.max_retries as u64 && backoff == c.retry_backoff_ms && p_bv as int
            == lb_front_len(c) by {
            assert(lb_layout(bytes@, c));
            assert(p_h == ch_lb_head().len());
                        assert(bytes@.subrange(
                            p_h as int,
                            p_h + strategy_bytes(c.strategy).len() as int,
                        ) == strategy_bytes(c.strategy));
                        assert(p_h + strategy_bytes(c.strategy).len()
                            + ch_max_retries_key().len() <= bytes@.len());
                        match strategy {
                            BalancingStrategy::RoundRobin => lemma_strategy_name_pins(
                                bytes@,
                                p_h as int,
                                c.strategy,
                                BalancingStrategy::RoundRobin,
                            ),
                            BalancingStrategy::Random => lemma_strategy_name_pins(
                                bytes@,
                                p_h as int,
                                c.strategy,
                                BalancingStrategy::Random,
                            ),
                            BalancingStrategy::LeastConnections => lemma_strategy_name_pins(
                                bytes@,
                                p_h as int,
                                c.strategy,
                                BalancingStrategy::LeastConnections,
                            ),
                        }
                        assert(strategy == c.strategy);
                        assert(p_st == p_h + strategy_bytes(c.strategy).len());
            assert(p_mk == p_st + ch_max_retries_key().len());
            assert(u64_at(bytes@, p_mk as int, c.max_retries as u64));
            assert(p_mv == p_mk + dec_digits(c.max_retries as nat).len());
            assert(p_bk == p_mv + ch_backoff_key().len());
            assert(u64_at(bytes@, p_bk as int, c.retry_backoff_ms));
            assert(p_bv == p_bk + dec_digits(c.retry_backoff_ms as nat).len());
            assert(lb_front_len(c) <= bytes@.len());
        }
    }
    Option::Some((strategy, max_retries, backoff, p_bv))
}

/// Parse the tail of a balancer encoding from `pos`: retry strategy,
/// budget ratio, minimum retry rate and burst bound (the two fractional
/// values scaled to millionths). On canonical input whose front ends at
/// `pos`, this recovers exactly those fields.
#[verifier::rlimit(100)]
#[verifier::spinoff_prover]
fn parse_lb_back(bytes: &Vec<u8>, pos: usize) -> (r: Option<(RetryStrategy, u64, u64, u64)>)
    ensures
        forall|c: LoadBalancerConfig|
            c.wf() && bytes@ == #[trigger] lb_json(c) && pos as int == lb_front_len(c) ==> r
                == Option::Some(
                (
                    c.retry_strategy,
                    (c.retry_budget_ratio_milli * 1000) as u64,
                    c.min_retry_rate as u64,
                    (c.retry_budget_max_tokens_milli * 1000) as u64,
                ),
            ),
{
    let total_len = bytes.len();
    proof {
        assert(bytes@.len() <= usize::MAX);
        assert forall|c: LoadBalancerConfig|
            c.wf() && bytes@ == #[trigger] lb_json(c) implies lb_layout(bytes@, c) by {
            lemma_lb_json_layout(bytes@, c);
        }
    }
    let p_rsk = match expect(bytes, pos, &lit_retry_strategy_key()) {
        Option::Some(p) => p,
        Option::None => {
            proof {
                assert forall|c: LoadBalancerConfig|
                    !(c.wf() && bytes@ == #[trigger] lb_json(c) && pos as int == lb_front_len(
                        c,
                    )) by {
                    if c.wf() && bytes@ == lb_json(c) && pos as int == lb_front_len(c) {
                        assert(lb_layout(bytes@, c));
                        assert(bytes@.subrange(
                            pos as int,
                            pos + ch_retry_strategy_key().len(),
                        ) == ch_retry_strategy_key());
                        assert(frac6_at(
                            bytes@,
                            pos + ch_retry_strategy_key().len() + retry_strategy_bytes(
                                c.retry_strategy,
                            ).len() + ch_ratio_key().len() as int,
                            (c.retry_budget_ratio_milli * 1000) as u64,
                        ));
                    }
                }
            }
            return Option::None;
        },
    };
    let (retry_strategy, p_rs) = match expect(bytes, p_rsk, &lit_immediate_name()) {
        Option::Some(p) => (RetryStrategy::Immediate, p),
        Option::None => match expect(bytes, p_rsk, &lit_constant_name()) {
            Option::Some(p) => (RetryStrategy::Constant, p),
            Option::None => match expect(bytes, p_rsk, &lit_exponential_name()) {
                Option::Some(p) => (RetryStrategy::Exponential, p),
                Option::None => {
                    proof {
                        assert forall|c: LoadBalancerConfig|
                            !(c.wf() && bytes@ == #[trigger] lb_json(c) && pos as int
                                == lb_front_len(c)) by {
                            if c.wf() && bytes@ == lb_json(c) && pos as int == lb_front_len(c) {
                                assert(lb_layout(bytes@, c));
                                assert(p_rsk == pos + ch_retry_strategy_key().len());
                                assert(bytes@.subrange(
                                    p_rsk as int,
                                    p_rsk + retry_strategy_bytes(c.retry_strategy).len() as int,
                                ) == retry_strategy_bytes(c.retry_strategy));
                                assert(p_rsk + retry_strategy_bytes(c.retry_strategy).len()
                                    + ch_ratio_key().len() <= bytes@.len());
                                match c.retry_strategy {
                                    RetryStrategy::Immediate => {
                                        reveal(ch_immediate_name);
                                    },
                                    RetryStrategy::Constant => {
                                        reveal(ch_constant_name);
                                    },
                                    RetryStrategy::Exponential => {
                                        reveal(ch_exponential_name);
                                    },
                                }
                                assert(false);
                            }
                        }
                    }
                    return Option::None;
                },
            },
        },
    };
    let p_rak = match expect(bytes, p_rs, &lit_ratio_key()) {
        Option::Some(p) => p,
        Option::None => {
            proof {
                assert forall|c: LoadBalancerConfig|
                    !(c.wf() && bytes@ == #[trigger] lb_json(c) && pos as int == lb_front_len(
                        c,
                    )) by {
                    if c.wf() && bytes@ == lb_json(c) && pos as int == lb_front_len(c) {
                        assert(lb_layout(bytes@, c));
                        assert(p_rsk == pos + ch_retry_strategy_key().len());
                        assert(bytes@.subrange(
                            p_rsk as int,
                            p_rsk + retry_strategy_bytes(c.retry_strategy).len() as int,
                        ) == retry_strategy_bytes(c.retry_strategy));
                        assert(p_rsk + retry_strategy_bytes(c.retry_strategy).len()
                            + ch_ratio_key().len() <= bytes@.len());
                        match retry_strategy {
                            RetryStrategy::Immediate => lemma_retry_name_pins(
                                bytes@,
                                p_rsk as int,
                                c.retry_strategy,
                                RetryStrategy::Immediate,
                            ),
                            RetryStrategy::Constant => lemma_retry_name_pins(
                                bytes@,
                                p_rsk as int,
                                c.retry_strategy,
                                RetryStrategy::Constant,
                            ),
                            RetryStrategy::Exponential => lemma_retry_name_pins(
                                bytes@,
                                p_rsk as int,
                                c.retry_strategy,
                                RetryStrategy::Exponential,
                            ),
                        }
                        assert(retry_strategy == c.retry_strategy);
                        assert(p_rs == p_rsk + retry_strategy_bytes(c.retry_strategy).len());
                        assert(frac6_at(
                            bytes@,
                            p_rs + ch_ratio_key().len() as int,
                            (c.retry_budget_ratio_milli * 1000) as u64,
                        ));
                        assert(bytes@.subrange(p_rs as int, p_rs + ch_ratio_key().len())
                            == ch_ratio_key());
                    }
                }
            }
            return Option::None;
        },
    };
    let (ratio_scaled, p_rav) = match read_frac6(bytes, p_rak) {
        Option::Some(v) => v,
        Option::None => {
            proof {
                assert forall|c: LoadBalancerConfig|
                    !(c.wf() && bytes@ == #[trigger] lb_json(c) && pos as int == lb_front_len(
                        c,
                    )) by {
                    if c.wf() && bytes@ == lb_json(c) && pos as int == lb_front_len(c) {
                        assert(lb_layout(bytes@, c));
                        assert(p_rsk == pos + ch_retry_strategy_key().len());
                        assert(bytes@.subrange(
                            p_rsk as int,
                            p_rsk + retry_strategy_bytes(c.retry_strategy).len() as int,
                        ) == retry_strategy_bytes(c.retry_strategy));
                        assert(p_rsk + retry_strategy_bytes(c.retry_strategy).len()
                            + ch_ratio_key().len() <= bytes@.len());
                        match retry_strategy {
                            RetryStrategy::Immediate => lemma_retry_name_pins(
                                bytes@,
                                p_rsk as int,
                                c.retry_strategy,
                                RetryStrategy::Immediate,
                            ),
                            RetryStrategy::Constant => lemma_retry_name_pins(
                                bytes@,
                                p_rsk as int,
                                c.retry_strategy,
                                RetryStrategy::Constant,
                            ),
                            RetryStrategy::Exponential => lemma_retry_name_pins(
                                bytes@,
                                p_rsk as int,
                                c.retry_strategy,
                                RetryStrategy::Exponential,
                            ),
                        }
                        assert(p_rs == p_rsk + retry_strategy_bytes(c.retry_strategy).len());
                        assert(p_rak == p_rs + ch_ratio_key().len());
                        assert(frac6_at(
                            bytes@,
                            p_rak as int,
                            (c.retry_budget_ratio_milli * 1000) as u64,
                        ));
                    }
                }
            }
            return Option::None;
        },
    };
    let p_mrk = match expect(bytes, p_rav, &lit_min_rate_key()) {
        Option::Some(p) => p,
        Option::None => {
            proof {
                assert forall|c: LoadBalancerConfig|
                    !(c.wf() && bytes@ == #[trigger] lb_json(c) && pos as int == lb_front_len(
                        c,
                    )) by {
                    if c.wf() && bytes@ == lb_json(c) && pos as int == lb_front_len(c) {
                        assert(lb_layout(bytes@, c));
                        assert(p_rsk == pos + ch_retry_strategy_key().len());
                        assert(bytes@.subrange(
                            p_rsk as int,
                            p_rsk + retry_strategy_bytes(c.retry_strategy).len() as int,
                        ) == retry_strategy_bytes(c.retry_strategy));
                        assert(p_rsk + retry_strategy_bytes(c.retry_strategy).len()
                            + ch_ratio_key().len() <= bytes@.len());
                        match retry_strategy {
                            RetryStrategy::Immediate => lemma_retry_name_pins(
                                bytes@,
                                p_rsk as int,
                                c.retry_strategy,
                                RetryStrategy::Immediate,
                            ),
                            RetryStrategy::Constant => lemma_retry_name_pins(
                                bytes@,
                                p_rsk as int,
                                c.retry_strategy,
                                RetryStrategy::Constant,
                            ),
                            RetryStrategy::Exponential => lemma_retry_name_pins(
                                bytes@,
                                p_rsk as int,
                                c.retry_strategy,
                                RetryStrategy::Exponential,
                            ),
                        }
                        assert(p_rs == p_rsk + retry_strategy_bytes(c.retry_strategy).len());
                        assert(p_rak == p_rs + ch_ratio_key().len());
                        assert(frac6_at(
                            bytes@,
                            p_rak as int,
                            (c.retry_budget_ratio_milli * 1000) as u64,
                        ));
                        assert(p_rav == p_rak + frac6_bytes(
                            (c.retry_budget_ratio_milli * 1000) as u64,
                        ).len());
                        assert(u64_at(
                            bytes@,
                            p_rav + ch_min_rate_key().len() as int,
                            c.min_retry_rate as u64,
                        ));
                        assert(bytes@.subrange(p_rav as int, p_rav + ch_min_rate_key().len())
                            == ch_min_rate_key());
                    }
                }
            }
            return Option::None;
        },
    };
    let (min_rate, p_mrv) = match read_int(bytes, p_mrk) {
        Option::Some(v) => v,
        Option::None => {
            proof {
                assert forall|c: LoadBalancerConfig|
                    !(c.wf() && bytes@ == #[trigger] lb_json(c) && pos as int == lb_front_len(
                        c,
                    )) by {
                    if c.wf() && bytes@ == lb_json(c) && pos as int == lb_front_len(c) {
                        assert(lb_layout(bytes@, c));
                        assert(p_rsk == pos + ch_retry_strategy_key().len());
                        assert(bytes@.subrange(
                            p_rsk as int,
                            p_rsk + retry_strategy_bytes(c.retry_strategy).len() as int,
                        ) == retry_strategy_bytes(c.retry_strategy));
                        assert(p_rsk + retry_strategy_bytes(c.retry_strategy).len()
                            + ch_ratio_key().len() <= bytes@.len());
                        match retry_strategy {
                            RetryStrategy::Immediate => lemma_retry_name_pins(
                                bytes@,
                                p_rsk as int,
                                c.retry_strategy,
                                RetryStrategy::Immediate,
                            ),
                            RetryStrategy::Constant => lemma_retry_name_pins(
                                bytes@,
                                p_rsk as int,
                                c.retry_strategy,
                                RetryStrategy::Constant,
                            ),
                            RetryStrategy::Exponential => lemma_retry_name_pins(
                                bytes@,
                                p_rsk as int,
                                c.retry_strategy,
                                RetryStrategy::Exponential,
                            ),
                        }
                        assert(p_rs == p_rsk + retry_strategy_bytes(c.retry_strategy).len());
                        assert(p_rak == p_rs + ch_ratio_key().len());
                        assert(frac6_at(
                            bytes@,
                            p_rak as int,
                            (c.retry_budget_ratio_milli * 1000) as u64,
                        ));
                        assert(p_rav == p_rak + frac6_bytes(
                            (c.retry_budget_ratio_milli * 1000) as u64,
                        ).len());
                        assert(p_mrk == p_rav + ch_min_rate_key().len());
                        assert(u64_at(bytes@, p_mrk as int, c.min_retry_rate as u64));
                    }
                }
            }
            return Option::None;
        },
    };
    let p_tk = match expect(bytes, p_mrv, &lit_max_tokens_key()) {
        Option::Some(p) => p,
        Option::None => {
            proof {
                assert forall|c: LoadBalancerConfig|
                    !(c.wf() && bytes@ == #[trigger] lb_json(c) && pos as int == lb_front_len(
                        c,
                    )) by {
                    if c.wf() && bytes@ == lb_json(c) && pos as int == lb_front_len(c) {
                        assert(lb_layout(bytes@, c));
                        assert(p_rsk == pos + ch_retry_strategy_key().len());
                        assert(bytes@.subrange(
                            p_rsk as int,
                            p_rsk + retry_strategy_bytes(c.retry_strategy).len() as int,
                        ) == retry_strategy_bytes(c.retry_strategy));
                        assert(p_rsk + retry_strategy_bytes(c.retry_strategy).len()
                            + ch_ratio_key().len() <= bytes@.len());
                        match retry_strategy {
                            RetryStrategy::Immediate => lemma_retry_name_pins(
                                bytes@,
                                p_rsk as int,
                                c.retry_strategy,
                                RetryStrategy::Immediate,
                            ),
                            RetryStrategy::Constant => lemma_retry_name_pins(
                                bytes@,
                                p_rsk as int,
                                c.retry_strategy,
                                RetryStrategy::Constant,
                            ),
                            RetryStrategy::Exponential => lemma_retry_name_pins(
                                bytes@,
                                p_rsk as int,
                                c.retry_strategy,
                                RetryStrategy::Exponential,
                            ),
                        }
                        assert(p_rs == p_rsk + retry_strategy_bytes(c.retry_strategy).len());
                        assert(p_rak == p_rs + ch_ratio_key().len());
                        assert(frac6_at(
                            bytes@,
                            p_rak as int,
                            (c.retry_budget_ratio_milli * 1000) as u64,
                        ));
                        assert(p_rav == p_rak + frac6_bytes(
                            (c.retry_budget_ratio_milli * 1000) as u64,
                        ).len());
                        assert(p_mrk == p_rav + ch_min_rate_key().len());
                        assert(u64_at(bytes@, p_mrk as int, c.min_retry_rate as u64));
                        assert(p_mrv == p_mrk + dec_digits(c.min_retry_rate as nat).len());
                        assert(frac6_at(
                            bytes@,
                            p_mrv + ch_max_tokens_key().len() as int,
                            (c.retry_budget_max_tokens_milli * 1000) as u64,
                        ));
                        assert(bytes@.subrange(p_mrv as int, p_mrv + ch_max_tokens_key().len())
                            == ch_max_tokens_key());
                    }
                }
            }
            return Option::None;
        },
    };
    let (tokens_scaled, _p_tv) = match read_frac6(bytes, p_tk) {
        Option::Some(v) => v,
        Option::None => {
            proof {
                assert forall|c: LoadBalancerConfig|
                    !(c.wf() && bytes@ == #[trigger] lb_json(c) && pos as int == lb_front_len(
                        c,
                    )) by {
                    if c.wf() && bytes@ == lb_json(c) && pos as int == lb_front_len(c) {
                        assert(lb_layout(bytes@, c));
                        assert(p_rsk == pos + ch_retry_strategy_key().len());
                        assert(bytes@.subrange(
                            p_rsk as int,
                            p_rsk + retry_strategy_bytes(c.retry_strategy).len() as int,
                        ) == retry_strategy_bytes(c.retry_strategy));
                        assert(p_rsk + retry_strategy_bytes(c.retry_strategy).len()
                            + ch_ratio_key().len() <= bytes@.len());
                        match retry_strategy {
                            RetryStrategy::Immediate => lemma_retry_name_pins(
                                bytes@,
                                p_rsk as int,
                                c.retry_strategy,
                                RetryStrategy::Immediate,
                            ),
                            RetryStrategy::Constant => lemma_retry_name_pins(
                                bytes@,
                                p_rsk as int,
                                c.retry_strategy,
                                RetryStrategy::Constant,
                            ),
                            RetryStrategy::Exponential => lemma_retry_name_pins(
                                bytes@,
                                p_rsk as int,
                                c.retry_strategy,
                                RetryStrategy::Exponential,
                            ),
                        }
                        assert(p_rs == p_rsk + retry_strategy_bytes(c.retry_strategy).len());
                        assert(p_rak == p_rs + ch_ratio_key().len());
                        assert(frac6_at(
                            bytes@,
                            p_rak as int,
                            (c.retry_budget_ratio_milli * 1000) as u64,
                        ));
                        assert(p_rav == p_rak + frac6_bytes(
                            (c.retry_budget_ratio_milli * 1000) as u64,
                        ).len());
                        assert(p_mrk == p_rav + ch_min_rate_key().len());
                        assert(u64_at(bytes@, p_mrk as int, c.min_retry_rate as u64));
                        assert(p_mrv == p_mrk + dec_digits(c.min_retry_rate as nat).len());
                        assert(p_tk == p_mrv + ch_max_tokens_key().len());
                        assert(frac6_at(
                            bytes@,
                            p_tk as int,
                            (c.retry_budget_max_tokens_milli * 1000) as u64,
                        ));
                    }
                }
            }
            return Option::None;
        },
    };
    proof {
        assert forall|c: LoadBalancerConfig|
            c.wf() && bytes@ == #[trigger] lb_json(c) && pos as int == lb_front_len(c)
            implies retry_strategy == c.retry_strategy && ratio_scaled == (
        c.retry_budget_ratio_milli * 1000) as u64 && min_rate == c.min_retry_rate as u64
            && tokens_scaled == (c.retry_budget_max_tokens_milli * 1000) as u64 by {
            assert(lb_layout(bytes@, c));
            assert(p_rsk == pos + ch_retry_strategy_key().len());
            assert(bytes@.subrange(
                p_rsk as int,
                p_rsk + retry_strategy_bytes(c.retry_strategy).len() as int,
            ) == retry_strategy_bytes(c.retry_strategy));
            assert(p_rsk + retry_strategy_bytes(c.retry_strategy).len() + ch_ratio_key().len()
                <= bytes@.len());
            match retry_strategy {
                RetryStrategy::Immediate => lemma_retry_name_pins(
                    bytes@,
                    p_rsk as int,
                    c.retry_strategy,
                    RetryStrategy::Immediate,
                ),
                RetryStrategy::Constant => lemma_retry_name_pins(
                    bytes@,
                    p_rsk as int,
                    c.retry_strategy,
                    RetryStrategy::Constant,
                ),
                RetryStrategy::Exponential => lemma_retry_name_pins(
                    bytes@,
                    p_rsk as int,
                    c.retry_strategy,
                    RetryStrategy::Exponential,
                ),
            }
            assert(p_rs == p_rsk + retry_strategy_bytes(c.retry_strategy).len());
            assert(p_rak == p_rs + ch_ratio_key().len());
            assert(frac6_at(bytes@, p_rak as int, (c.retry_budget_ratio_milli * 1000) as u64));
            assert(p_rav == p_rak + frac6_bytes(
                (c.retry_budget_ratio_milli * 1000) as u64,
            ).len());
            assert(p_mrk == p_rav + ch_min_rate_key().len());
            assert(u64_at(bytes@, p_mrk as int, c.min_retry_rate as u64));
            assert(p_mrv == p_mrk + dec_digits(c.min_retry_rate as nat).len());
            assert(p_tk == p_mrv + ch_max_tokens_key().len());
            assert(frac6_at(bytes@, p_tk as int, (c.retry_budget_max_tokens_milli * 1000) as u64));
        }
    }
    Option::Some((retry_strategy, ratio_scaled, min_rate, tokens_scaled))
}

/// Decode a balancer configuration: accepts exactly the canonical JSON
/// of the configuration it returns, and accepts every canonical
/// encoding.
pub fn decode_lb_config(bytes: &Vec<u8>) -> (r: Option<LoadBalancerConfig>)
    ensures
        r matches Option::Some(c) ==> c.wf() && bytes@ == lb_json(c),
        forall|c: LoadBalancerConfig|
            c.wf() && bytes@ == #[trigger] lb_json(c) ==> r == Option::Some(c),
{
    let total_len = bytes.len();
    proof {
        assert(bytes@.len() <= usize::MAX);
    }
    let (strategy, max_retries, backoff, p_front) = match parse_lb_front(bytes) {
        Option::Some(v) => v,
        Option::None => {
            return Option::None;
        },
    };
    let (retry_strategy, ratio_scaled, min_rate, tokens_scaled) = match parse_lb_back(
        bytes,
        p_front,
    ) {
        Option::Some(v) => v,
        Option::None => {
            proof {
                assert forall|c: LoadBalancerConfig|
                    !(c.wf() && bytes@ == #[trigger] lb_json(c)) by {
                    if c.wf() && bytes@ == lb_json(c) {
                        assert(p_front as int == lb_front_len(c));
                    }
                }
            }
            return Option::None;
        },
    };
    let candidate = LoadBalancerConfig {
        strategy,
        max_retries: if max_retries > u32::MAX as u64 {
            u32::MAX
        } else {
            max_retries as u32
        },
        retry_backoff_ms: backoff,
        retry_strategy,
        retry_budget_ratio_milli: ratio_scaled / 1000,
        min_retry_rate: if min_rate > u32::MAX as u64 {
            u32::MAX
        } else {
            min_rate as u32
        },
        retry_budget_max_tokens_milli: tokens_scaled / 1000,
    }.clamped();
    let check = encode_lb_config(&candidate);
    proof {
        assert forall|c: LoadBalancerConfig|
            c.wf() && bytes@ == #[trigger] lb_json(c) implies candidate == c && check@
            == bytes@ by {
            assert(p_front as int == lb_front_len(c));
            assert(strategy == c.strategy && max_retries == c.max_retries as u64 && backoff
                == c.retry_backoff_ms);
            assert(retry_strategy == c.retry_strategy && ratio_scaled == (
            c.retry_budget_ratio_milli * 1000) as u64 && min_rate == c.min_retry_rate as u64
                && tokens_scaled == (c.retry_budget_max_tokens_milli * 1000) as u64);
            assert(ratio_scaled / 1000 == c.retry_budget_ratio_milli) by (nonlinear_arith)
                requires
                    ratio_scaled == c.retry_budget_ratio_milli * 1000,
            ;
            assert(tokens_scaled / 1000 == c.retry_budget_max_tokens_milli) by (nonlinear_arith)
                requires
                    tokens_scaled == c.retry_budget_max_tokens_milli * 1000,
            ;
            assert(candidate == c.clamped_spec());
            assert(candidate == c);
        }
    }
    if bytes_eq(bytes, &check) {
        Option::Some(candidate)
    } else {
        Option::None
    }
}

/// Where each piece of a canonical edge encoding sits.
pub open spec fn edge_layout(s: Seq<u8>, c: EdgeConfig) -> bool {
    let p0 = ch_edge_head().len() as int;
    let q1 = p0 + dec_digits(c.latency_us as nat).len() as int;
    let q2 = q1 + ch_jitter_key().len() + dec_digits(c.jitter_us as nat).len() as int;
    &&& s.subrange(0, p0) == ch_edge_head()
    &&& u64_at(s, p0, c.latency_us)
    &&& s.subrange(q1, q1 + ch_jitter_key().len() as int) == ch_jitter_key()
    &&& u64_at(s, q1 + ch_jitter_key().len() as int, c.jitter_us)
    &&& s.subrange(q2, q2 + ch_loss_key().len() as int) == ch_loss_key()
    &&& frac6_at(s, q2 + ch_loss_key().len() as int, c.packet_loss_ppm as u64)
}

#[verifier::rlimit(100)]
#[verifier::spinoff_prover]
proof fn lemma_edge_json_layout(s: Seq<u8>, c: EdgeConfig)
    requires
        c.wf(),
        s == edge_json(c),
    ensures
        edge_layout(s, c),
{
    reveal(ch_jitter_key);
    reveal(ch_loss_key);
    reveal(ch_close_brace);
    let a = ch_edge_head();
    let d1 = dec_digits(c.latency_us as nat);
    let c1 = ch_jitter_key();
    let d2 = dec_digits(c.jitter_us as nat);
    let c2 = ch_loss_key();
    let f = frac6_bytes(c.packet_loss_ppm as u64);
    let g = ch_close_brace();
    let r1 = d1 + (c1 + (d2 + (c2 + (f + g))));
    let r2 = c1 + (d2 + (c2 + (f + g)));
    let r3 = d2 + (c2 + (f + g));
    let r4 = c2 + (f + g);
    let r5 = f + g;
    assert(s.subrange(0, s.len() as int) =~= s);
    assert(s =~= a + r1);
    lemma_concat_extract(s, 0, a, r1);
    lemma_concat_extract(s, a.len() as int, d1, r2);
    lemma_concat_extract(s, a.len() + d1.len() as int, c1, r3);
    lemma_concat_extract(s, a.len() + d1.len() + c1.len() as int, d2, r4);
    lemma_concat_extract(s, a.len() + d1.len() + c1.len() + d2.len() as int, c2, r5);
    lemma_concat_extract(s, a.len() + d1.len() + c1.len() + d2.len() + c2.len() as int, f, g);
    lemma_dec_digits_are_digits(c.latency_us as nat);
    lemma_dec_digits_are_digits(c.jitter_us as nat);
    assert(s[a.len() + d1.len() as int] == c1[0]);
    assert(!is_digit(s[a.len() + d1.len() as int]));
    assert(u64_at(s, a.len() as int, c.latency_us));
    assert(s[a.len() + d1.len() + c1.len() + d2.len() as int] == c2[0]);
    assert(!is_digit(s[a.len() + d1.len() + c1.len() + d2.len() as int]));
    assert(u64_at(s, a.len() + d1.len() + c1.len() as int, c.jitter_us));
    assert(s[a.len() + d1.len() + c1.len() + d2.len() + c2.len() + f.len() as int] == g[0]);
    assert(!is_digit(s[a.len() + d1.len() + c1.len() + d2.len() + c2.len() + f.len() as int]));
    assert(frac6_at(
        s,
        a.len() + d1.len() + c1.len() + d2.len() + c2.len() as int,
        c.packet_loss_ppm as u64,
    ));
}

/// Decode an edge configuration: accepts exactly the canonical JSON of
/// the configuration it returns, and accepts every canonical encoding.
pub fn decode_edge_config(bytes: &Vec<u8>) -> (r: Option<EdgeConfig>)
    ensures
        r matches Option::Some(c) ==> c.wf() && bytes@ == edge_json(c),
        forall|c: EdgeConfig|
            c.wf() && bytes@ == #[trigger] edge_json(c) ==> r == Option::Some(c),
{
    let total_len = bytes.len();
    proof {
        assert(bytes@.len() <= usize::MAX);
        assert forall|c: EdgeConfig|
            c.wf() && bytes@ == #[trigger] edge_json(c) implies edge_layout(bytes@, c) by {
            lemma_edge_json_layout(bytes@, c);
        }
    }
    let p_head = match expect(bytes, 0, &lit_edge_head()) {
        Option::Some(p) => p,
        Option::None => {
            proof {
                assert forall|c: EdgeConfig| !(c.wf() && bytes@ == #[trigger] edge_json(c)) by {
                    if c.wf() && bytes@ == edge_json(c) {
                        assert(edge_layout(bytes@, c));
                        assert(u64_at(bytes@, ch_edge_head().len() as int, c.latency_us));
                        assert(bytes@.subrange(0int, 0 + ch_edge_head().len() as int)
                            == ch_edge_head());
                    }
                }
            }
            return Option::None;
        },
    };
    let (latency, p_lat) = match read_int(bytes, p_head) {
        Option::Some(v) => v,
        Option::None => {
            proof {
                assert forall|c: EdgeConfig| !(c.wf() && bytes@ == #[trigger] edge_json(c)) by {
                    if c.wf() && bytes@ == edge_json(c) {
                        assert(edge_layout(bytes@, c));
                        assert(u64_at(bytes@, p_head as int, c.latency_us));
                    }
                }
            }
            return Option::None;
        },
    };
    let p_jkey = match expect(bytes, p_lat, &lit_jitter_key()) {
        Option::Some(p) => p,
        Option::None => {
            proof {
                assert forall|c: EdgeConfig| !(c.wf() && bytes@ == #[trigger] edge_json(c)) by {
                    if c.wf() && bytes@ == edge_json(c) {
                        assert(edge_layout(bytes@, c));
                        assert(u64_at(bytes@, p_head as int, c.latency_us));
                        assert(p_head == ch_edge_head().len());
                        assert(p_lat == p_head + dec_digits(c.latency_us as nat).len());
                        assert(u64_at(bytes@, p_lat + ch_jitter_key().len() as int, c.jitter_us));
                        assert(bytes@.subrange(p_lat as int, p_lat + ch_jitter_key().len())
                            == ch_jitter_key());
                    }
                }
            }
            return Option::None;
        },
    };
    let (jitter, p_jval) = match read_int(bytes, p_jkey) {
        Option::Some(v) => v,
        Option::None => {
            proof {
                assert forall|c: EdgeConfig| !(c.wf() && bytes@ == #[trigger] edge_json(c)) by {
                    if c.wf() && bytes@ == edge_json(c) {
                        assert(edge_layout(bytes@, c));
                        assert(u64_at(bytes@, p_head as int, c.latency_us));
                        assert(p_lat == p_head + dec_digits(c.latency_us as nat).len());
                        assert(p_jkey == p_lat + ch_jitter_key().len());
                        assert(u64_at(bytes@, p_jkey as int, c.jitter_us));
                    }
                }
            }
            return Option::None;
        },
    };
    let p_lkey = match expect(bytes, p_jval, &lit_loss_key()) {
        Option::Some(p) => p,
        Option::None => {
            proof {
                assert forall|c: EdgeConfig| !(c.wf() && bytes@ == #[trigger] edge_json(c)) by {
                    if c.wf() && bytes@ == edge_json(c) {
                        assert(edge_layout(bytes@, c));
                        assert(u64_at(bytes@, p_head as int, c.latency_us));
                        assert(p_lat == p_head + dec_digits(c.latency_us as nat).len());
                        assert(p_jkey == p_lat + ch_jitter_key().len());
                        assert(u64_at(bytes@, p_jkey as int, c.jitter_us));
                        assert(jitter == c.jitter_us);
                        assert(p_jval == p_jkey + dec_digits(c.jitter_us as nat).len());
                        assert(frac6_at(
                            bytes@,
                            p_jval + ch_loss_key().len() as int,
                            c.packet_loss_ppm as u64,
                        ));
                        assert(bytes@.subrange(p_jval as int, p_jval + ch_loss_key().len())
                            == ch_loss_key());
                    }
                }
            }
            return Option::None;
        },
    };
    let (loss, _p_lval) = match read_frac6(bytes, p_lkey) {
        Option::Some(v) => v,
        Option::None => {
            proof {
                assert forall|c: EdgeConfig| !(c.wf() && bytes@ == #[trigger] edge_json(c)) by {
                    if c.wf() && bytes@ == edge_json(c) {
                        assert(edge_layout(bytes@, c));
                        assert(u64_at(bytes@, p_head as int, c.latency_us));
                        assert(p_lat == p_head + dec_digits(c.latency_us as nat).len());
                        assert(p_jkey == p_lat + ch_jitter_key().len());
                        assert(u64_at(bytes@, p_jkey as int, c.jitter_us));
                        assert(p_jval == p_jkey + dec_digits(c.jitter_us as nat).len());
                        assert(p_lkey == p_jval + ch_loss_key().len());
                        assert(frac6_at(bytes@, p_lkey as int, c.packet_loss_ppm as u64));
                    }
                }
            }
            return Option::None;
        },
    };
    let candidate = EdgeConfig {
        latency_us: latency,
        jitter_us: jitter,
        packet_loss_ppm: if loss > u32::MAX as u64 {
            u32::MAX
        } else {
            loss as u32
        },
    }.clamped();
    let check = encode_edge_config(&candidate);
    proof {
        assert forall|c: EdgeConfig|
            c.wf() && bytes@ == #[trigger] edge_json(c) implies candidate == c && check@
            == bytes@ by {
            assert(edge_layout(bytes@, c));
            assert(u64_at(bytes@, p_head as int, c.latency_us));
            assert(latency == c.latency_us);
            assert(p_lat == p_head + dec_digits(c.latency_us as nat).len());
            assert(p_jkey == p_lat + ch_jitter_key().len());
            assert(u64_at(bytes@, p_jkey as int, c.jitter_us));
            assert(jitter == c.jitter_us);
            assert(p_jval == p_jkey + dec_digits(c.jitter_us as nat).len());
            assert(p_lkey == p_jval + ch_loss_key().len());
            assert(frac6_at(bytes@, p_lkey as int, c.packet_loss_ppm as u64));
            assert(loss == c.packet_loss_ppm as u64);
            assert(candidate == c.clamped_spec());
            assert(candidate == c);
        }
    }
    if bytes_eq(bytes, &check) {
        Option::Some(candidate)
    } else {
        Option::None
    }
}

/// Equal sequences with the same prefix have the same tail.
proof fn lemma_strip(a: Seq<u8>, x: Seq<u8>, y: Seq<u8>)
    requires
        a + x == a + y,
    ensures
        x == y,
{
    assert(x =~= (a + x).subrange(a.len() as int, (a + x).len() as int));
    assert(y =~= (a + y).subrange(a.len() as int, (a + y).len() as int));
}

/// Two strategy names followed by anything agree exactly when the
/// strategies agree: the names differ within their first three bytes.
proof fn lemma_strategy_prefix_unique(
    s1: BalancingStrategy,
    s2: BalancingStrategy,
    x: Seq<u8>,
    y: Seq<u8>,
)
    requires
        strategy_bytes(s1) + x == strategy_bytes(s2) + y,
    ensures
        s1 == s2,
        x == y,
{
    reveal(ch_round_robin_name);
    reveal(ch_random_name);
    reveal(ch_least_conn_name);
    if s1 != s2 {
        let a = strategy_bytes(s1);
        let b = strategy_bytes(s2);
        assert(a.len() >= 3 && b.len() >= 3);
        assert(a[1] == (a + x)[1] && b[1] == (b + y)[1]);
        assert(a[2] == (a + x)[2] && b[2] == (b + y)[2]);
        match (s1, s2) {
            (BalancingStrategy::RoundRobin, BalancingStrategy::Random) => {
                assert(a[2] == 117 && b[2] == 97);
            },
            (BalancingStrategy::RoundRobin, BalancingStrategy::LeastConnections) => {
                assert(a[1] == 82 && b[1] == 76);
            },
            (BalancingStrategy::Random, BalancingStrategy::RoundRobin) => {
                assert(a[2] == 97 && b[2] == 117);
            },
            (BalancingStrategy::Random, BalancingStrategy::LeastConnections) => {
                assert(a[1] == 82 && b[1] == 76);
            },
            (BalancingStrategy::LeastConnections, BalancingStrategy::RoundRobin) => {
                assert(a[1] == 76 && b[1] == 82);
            },
            (BalancingStrategy::LeastConnections, BalancingStrategy::Random) => {
                assert(a[1] == 76 && b[1] == 82);
            },
            _ => {
            },
        }
        assert(false);
    }
    lemma_strip(strategy_bytes(s1), x, y);
}

/// Two retry-strategy names followed by anything agree exactly when the
/// strategies agree: the names differ in their second byte.
proof fn lemma_retry_strategy_prefix_unique(
    s1: RetryStrategy,
    s2: RetryStrategy,
    x: Seq<u8>,
    y: Seq<u8>,
)
    requires
        retry_strategy_bytes(s1) + x == retry_strategy_bytes(s2) + y,
    ensures
        s1 == s2,
        x == y,
{
    reveal(ch_immediate_name);
    reveal(ch_constant_name);
    reveal(ch_exponential_name);
    if s1 != s2 {
        let a = retry_strategy_bytes(s1);
        let b = retry_strategy_bytes(s2);
        assert(a.len() >= 2 && b.len() >= 2);
        assert(a[1] == (a + x)[1] && b[1] == (b + y)[1]);
        match (s1, s2) {
            (RetryStrategy::Immediate, RetryStrategy::Constant) => {
                assert(a[1] == 73 && b[1] == 67);
            },
            (RetryStrategy::Immediate, RetryStrategy::Exponential) => {
                assert(a[1] == 73 && b[1] == 69);
            },
            (RetryStrategy::Constant, RetryStrategy::Immediate) => {
                assert(a[1] == 67 && b[1] == 73);
            },
            (RetryStrategy::Constant, RetryStrategy::Exponential) => {
                assert(a[1] == 67 && b[1] == 69);
            },
            (RetryStrategy::Exponential, RetryStrategy::Immediate) => {
                assert(a[1] == 69 && b[1] == 73);
            },
            (RetryStrategy::Exponential, RetryStrategy::Constant) => {
                assert(a[1] == 69 && b[1] == 67);
            },
            _ => {
            },
        }
        assert(false);
    }
    lemma_strip(retry_strategy_bytes(s1), x, y);
}

/// The canonical JSON shape determines the client configuration: two
/// well-formed configurations with the same encoding are the same. With
/// the decoder's contract — whatever it accepts is the canonical
/// encoding of its result — decoding an encoded configuration can only
/// reproduce that configuration.
pub proof fn lemma_client_json_injective(c1: ClientConfig, c2: ClientConfig)
    requires
        c1.wf(),
        c2.wf(),
        client_json(c1) == client_json(c2),
    ensures
        c1 == c2,
{
    reveal(ch_timeout_key);
    reveal(ch_generation_key);
    reveal(ch_close_brace);
    let r1 = (c1.arrival_rate_milli * 1000) as u64;
    let r2 = (c2.arrival_rate_milli * 1000) as u64;
    let rest1 = ch_timeout_key() + dec_digits(c1.timeout as nat) + ch_generation_key()
        + dec_digits(c1.generation_id as nat) + ch_close_brace();
    let rest2 = ch_timeout_key() + dec_digits(c2.timeout as nat) + ch_generation_key()
        + dec_digits(c2.generation_id as nat) + ch_close_brace();
    assert(client_json(c1) =~= ch_client_head() + (frac6_bytes(r1) + rest1));
    assert(client_json(c2) =~= ch_client_head() + (frac6_bytes(r2) + rest2));
    lemma_strip(ch_client_head(), frac6_bytes(r1) + rest1, frac6_bytes(r2) + rest2);
    assert(rest1[0] == 44 && rest2[0] == 44);
    lemma_frac6_prefix_unique(r1, r2, rest1, rest2);
    assert(c1.arrival_rate_milli == c2.arrival_rate_milli);
    let tail1 = dec_digits(c1.timeout as nat) + (ch_generation_key() + (dec_digits(
        c1.generation_id as nat,
    ) + ch_close_brace()));
    let tail2 = dec_digits(c2.timeout as nat) + (ch_generation_key() + (dec_digits(
        c2.generation_id as nat,
    ) + ch_close_brace()));
    assert(rest1 =~= ch_timeout_key() + tail1);
    assert(rest2 =~= ch_timeout_key() + tail2);
    lemma_strip(ch_timeout_key(), tail1, tail2);
    let g1 = ch_generation_key() + (dec_digits(c1.generation_id as nat) + ch_close_brace());
    let g2 = ch_generation_key() + (dec_digits(c2.generation_id as nat) + ch_close_brace());
    assert(g1[0] == 44 && g2[0] == 44);
    lemma_int_prefix_unique(c1.timeout as nat, c2.timeout as nat, g1, g2);
    lemma_strip(
        ch_generation_key(),
        dec_digits(c1.generation_id as nat) + ch_close_brace(),
        dec_digits(c2.generation_id as nat) + ch_close_brace(),
    );
    assert(ch_close_brace()[0] == 125);
    lemma_int_prefix_unique(
        c1.generation_id as nat,
        c2.generation_id as nat,
        ch_close_brace(),
        ch_close_brace(),
    );
}

/// The canonical JSON shape determines the server configuration.
#[verifier::rlimit(100)]
#[verifier::spinoff_prover]
pub proof fn lemma_server_json_injective(c1: ServerConfig, c2: ServerConfig)
    requires
        c1.wf(),
        c2.wf(),
        server_json(c1) == server_json(c2),
    ensures
        c1 == c2,
{
    reveal(ch_concurrency_key);
    reveal(ch_backlog_key);
    reveal(ch_failure_key);
    reveal(ch_saturation_key);
    reveal(ch_close_brace);
    let t1 = dec_digits(c1.service_time as nat) + (ch_concurrency_key() + (dec_digits(
        c1.concurrency as nat,
    ) + (ch_backlog_key() + (dec_digits(c1.backlog_limit as nat) + (ch_failure_key() + (
    frac6_bytes(c1.failure_ppm as u64) + (ch_saturation_key() + (frac6_bytes(
        (c1.saturation_penalty_milli * 1000) as u64,
    ) + ch_close_brace()))))))));
    let t2 = dec_digits(c2.service_time as nat) + (ch_concurrency_key() + (dec_digits(
        c2.concurrency as nat,
    ) + (ch_backlog_key() + (dec_digits(c2.backlog_limit as nat) + (ch_failure_key() + (
    frac6_bytes(c2.failure_ppm as u64) + (ch_saturation_key() + (frac6_bytes(
        (c2.saturation_penalty_milli * 1000) as u64,
    ) + ch_close_brace()))))))));
    assert(server_json(c1) =~= ch_server_head() + t1);
    assert(server_json(c2) =~= ch_server_head() + t2);
    lemma_strip(ch_server_head(), t1, t2);
    let u1 = ch_concurrency_key() + (dec_digits(c1.concurrency as nat) + (ch_backlog_key() + (
    dec_digits(c1.backlog_limit as nat) + (ch_failure_key() + (frac6_bytes(c1.failure_ppm as u64)
        + (ch_saturation_key() + (frac6_bytes((c1.saturation_penalty_milli * 1000) as u64)
        + ch_close_brace())))))));
    let u2 = ch_concurrency_key() + (dec_digits(c2.concurrency as nat) + (ch_backlog_key() + (
    dec_digits(c2.backlog_limit as nat) + (ch_failure_key() + (frac6_bytes(c2.failure_ppm as u64)
        + (ch_saturation_key() + (frac6_bytes((c2.saturation_penalty_milli * 1000) as u64)
        + ch_close_brace())))))));
    assert(u1[0] == 44 && u2[0] == 44);
    lemma_int_prefix_unique(c1.service_time as nat, c2.service_time as nat, u1, u2);
    let v1 = dec_digits(c1.concurrency as nat) + (ch_backlog_key() + (dec_digits(
        c1.backlog_limit as nat,
    ) + (ch_failure_key() + (frac6_bytes(c1.failure_ppm as u64) + (ch_saturation_key() + (
    frac6_bytes((c1.saturation_penalty_milli * 1000) as u64) + ch_close_brace()))))));
    let v2 = dec_digits(c2.concurrency as nat) + (ch_backlog_key() + (dec_digits(
        c2.backlog_limit as nat,
    ) + (ch_failure_key() + (frac6_bytes(c2.failure_ppm as u64) + (ch_saturation_key() + (
    frac6_bytes((c2.saturation_penalty_milli * 1000) as u64) + ch_close_brace()))))));
    lemma_strip(ch_concurrency_key(), v1, v2);
    let w1 = ch_backlog_key() + (dec_digits(c1.backlog_limit as nat) + (ch_failure_key() + (
    frac6_bytes(c1.failure_ppm as u64) + (ch_saturation_key() + (frac6_bytes(
        (c1.saturation_penalty_milli * 1000) as u64,
    ) + ch_close_brace())))));
    let w2 = ch_backlog_key() + (dec_digits(c2.backlog_limit as nat) + (ch_failure_key() + (
    frac6_bytes(c2.failure_ppm as u64) + (ch_saturation_key() + (frac6_bytes(
        (c2.saturation_penalty_milli * 1000) as u64,
    ) + ch_close_brace())))));
    assert(w1[0] == 44 && w2[0] == 44);
    lemma_int_prefix_unique(c1.concurrency as nat, c2.concurrency as nat, w1, w2);
    let a1 = dec_digits(c1.backlog_limit as nat) + (ch_failure_key() + (frac6_bytes(
        c1.failure_ppm as u64,
    ) + (ch_saturation_key() + (frac6_bytes((c1.saturation_penalty_milli * 1000) as u64)
        + ch_close_brace()))));
    let a2 = dec_digits(c2.backlog_limit as nat) + (ch_failure_key() + (frac6_bytes(
        c2.failure_ppm as u64,
    ) + (ch_saturation_key() + (frac6_bytes((c2.saturation_penalty_milli * 1000) as u64)
        + ch_close_brace()))));
    lemma_strip(ch_backlog_key(), a1, a2);
    let b1 = ch_failure_key() + (frac6_bytes(c1.failure_ppm as u64) + (ch_saturation_key() + (
    frac6_bytes((c1.saturation_penalty_milli * 1000) as u64) + ch_close_brace())));
    let b2 = ch_failure_key() + (frac6_bytes(c2.failure_ppm as u64) + (ch_saturation_key() + (
    frac6_bytes((c2.saturation_penalty_milli * 1000) as u64) + ch_close_brace())));
    assert(b1[0] == 44 && b2[0] == 44);
    lemma_int_prefix_unique(c1.backlog_limit as nat, c2.backlog_limit as nat, b1, b2);
    let d1 = frac6_bytes(c1.failure_ppm as u64) + (ch_saturation_key() + (frac6_bytes(
        (c1.saturation_penalty_milli * 1000) as u64,
    ) + ch_close_brace()));
    let d2 = frac6_bytes(c2.failure_ppm as u64) + (ch_saturation_key() + (frac6_bytes(
        (c2.saturation_penalty_milli * 1000) as u64,
    ) + ch_close_brace()));
    lemma_strip(ch_failure_key(), d1, d2);
    let e1 = ch_saturation_key() + (frac6_bytes((c1.saturation_penalty_milli * 1000) as u64)
        + ch_close_brace());
    let e2 = ch_saturation_key() + (frac6_bytes((c2.saturation_penalty_milli * 1000) as u64)
        + ch_close_brace());
    assert(e1[0] == 44 && e2[0] == 44);
    lemma_frac6_prefix_unique(c1.failure_ppm as u64, c2.failure_ppm as u64, e1, e2);
    lemma_strip(
        ch_saturation_key(),
        frac6_bytes((c1.saturation_penalty_milli * 1000) as u64) + ch_close_brace(),
        frac6_bytes((c2.saturation_penalty_milli * 1000) as u64) + ch_close_brace(),
    );
    assert(ch_close_brace()[0] == 125);
    lemma_frac6_prefix_unique(
        (c1.saturation_penalty_milli * 1000) as u64,
        (c2.saturation_penalty_milli * 1000) as u64,
        ch_close_brace(),
        ch_close_brace(),
    );
}

/// The canonical JSON shape determines the balancer configuration.
#[verifier::rlimit(100)]
#[verifier::spinoff_prover]
pub proof fn lemma_lb_json_injective(c1: LoadBalancerConfig, c2: LoadBalancerConfig)
    requires
        c1.wf(),
        c2.wf(),
        lb_json(c1) == lb_json(c2),
    ensures
        c1 == c2,
{
    reveal(ch_max_retries_key);
    reveal(ch_backoff_key);
    let t1 = strategy_bytes(c1.strategy) + (ch_max_retries_key() + (dec_digits(
        c1.max_retries as nat,
    ) + (ch_backoff_key() + (dec_digits(c1.retry_backoff_ms as nat) + lb_tail(c1)))));
    let t2 = strategy_bytes(c2.strategy) + (ch_max_retries_key() + (dec_digits(
        c2.max_retries as nat,
    ) + (ch_backoff_key() + (dec_digits(c2.retry_backoff_ms as nat) + lb_tail(c2)))));
    assert(lb_json(c1) =~= ch_lb_head() + t1);
    assert(lb_json(c2) =~= ch_lb_head() + t2);
    lemma_strip(ch_lb_head(), t1, t2);
    lemma_strategy_prefix_unique(
        c1.strategy,
        c2.strategy,
        ch_max_retries_key() + (dec_digits(c1.max_retries as nat) + (ch_backoff_key() + (
        dec_digits(c1.retry_backoff_ms as nat) + lb_tail(c1)))),
        ch_max_retries_key() + (dec_digits(c2.max_retries as nat) + (ch_backoff_key() + (
        dec_digits(c2.retry_backoff_ms as nat) + lb_tail(c2)))),
    );
    lemma_strip(
        ch_max_retries_key(),
        dec_digits(c1.max_retries as nat) + (ch_backoff_key() + (dec_digits(
            c1.retry_backoff_ms as nat,
        ) + lb_tail(c1))),
        dec_digits(c2.max_retries as nat) + (ch_backoff_key() + (dec_digits(
            c2.retry_backoff_ms as nat,
        ) + lb_tail(c2))),
    );
    let w1 = ch_backoff_key() + (dec_digits(c1.retry_backoff_ms as nat) + lb_tail(c1));
    let w2 = ch_backoff_key() + (dec_digits(c2.retry_backoff_ms as nat) + lb_tail(c2));
    assert(w1[0] == 44 && w2[0] == 44);
    lemma_int_prefix_unique(c1.max_retries as nat, c2.max_retries as nat, w1, w2);
    lemma_strip(
        ch_backoff_key(),
        dec_digits(c1.retry_backoff_ms as nat) + lb_tail(c1),
        dec_digits(c2.retry_backoff_ms as nat) + lb_tail(c2),
    );
    lemma_lb_tail_first_byte(c1);
    lemma_lb_tail_first_byte(c2);
    lemma_int_prefix_unique(
        c1.retry_backoff_ms as nat,
        c2.retry_backoff_ms as nat,
        lb_tail(c1),
        lb_tail(c2),
    );
    lemma_lb_tail_injective(c1, c2);
}

proof fn lemma_lb_tail_first_byte(c: LoadBalancerConfig)
    ensures
        lb_tail(c).len() > 0,
        !is_digit(lb_tail(c)[0]),
{
    reveal(lb_tail);
    reveal(ch_retry_strategy_key);
    assert(lb_tail(c)[0] == 44);
}

/// The last four balancer fields are determined by their encoding.
#[verifier::rlimit(100)]
#[verifier::spinoff_prover]
proof fn lemma_lb_tail_injective(c1: LoadBalancerConfig, c2: LoadBalancerConfig)
    requires
        c1.wf(),
        c2.wf(),
        lb_tail(c1) == lb_tail(c2),
    ensures
        c1.retry_strategy == c2.retry_strategy,
        c1.retry_budget_ratio_milli == c2.retry_budget_ratio_milli,
        c1.min_retry_rate == c2.min_retry_rate,
        c1.retry_budget_max_tokens_milli == c2.retry_budget_max_tokens_milli,
{
    reveal(lb_tail);
    reveal(ch_ratio_key);
    reveal(ch_min_rate_key);
    reveal(ch_max_tokens_key);
    reveal(ch_close_brace);
    lemma_strip(
        ch_retry_strategy_key(),
        retry_strategy_bytes(c1.retry_strategy) + (ch_ratio_key() + (frac6_bytes(
            (c1.retry_budget_ratio_milli * 1000) as u64,
        ) + (ch_min_rate_key() + (dec_digits(c1.min_retry_rate as nat) + (ch_max_tokens_key() + (
        frac6_bytes((c1.retry_budget_max_tokens_milli * 1000) as u64) + ch_close_brace())))))),
        retry_strategy_bytes(c2.retry_strategy) + (ch_ratio_key() + (frac6_bytes(
            (c2.retry_budget_ratio_milli * 1000) as u64,
        ) + (ch_min_rate_key() + (dec_digits(c2.min_retry_rate as nat) + (ch_max_tokens_key() + (
        frac6_bytes((c2.retry_budget_max_tokens_milli * 1000) as u64) + ch_close_brace())))))),
    );
    lemma_retry_strategy_prefix_unique(
        c1.retry_strategy,
        c2.retry_strategy,
        ch_ratio_key() + (frac6_bytes((c1.retry_budget_ratio_milli * 1000) as u64) + (
        ch_min_rate_key() + (dec_digits(c1.min_retry_rate as nat) + (ch_max_tokens_key() + (
        frac6_bytes((c1.retry_budget_max_tokens_milli * 1000) as u64) + ch_close_brace()))))),
        ch_ratio_key() + (frac6_bytes((c2.retry_budget_ratio_milli * 1000) as u64) + (
        ch_min_rate_key() + (dec_digits(c2.min_retry_rate as nat) + (ch_max_tokens_key() + (
        frac6_bytes((c2.retry_budget_max_tokens_milli * 1000) as u64) + ch_close_brace()))))),
    );
    lemma_strip(
        ch_ratio_key(),
        frac6_bytes((c1.retry_budget_ratio_milli * 1000) as u64) + (ch_min_rate_key() + (
        dec_digits(c1.min_retry_rate as nat) + (ch_max_tokens_key() + (frac6_bytes(
            (c1.retry_budget_max_tokens_milli * 1000) as u64,
        ) + ch_close_brace())))),
        frac6_bytes((c2.retry_budget_ratio_milli * 1000) as u64) + (ch_min_rate_key() + (
        dec_digits(c2.min_retry_rate as nat) + (ch_max_tokens_key() + (frac6_bytes(
            (c2.retry_budget_max_tokens_milli * 1000) as u64,
        ) + ch_close_brace())))),
    );
    let m1 = ch_min_rate_key() + (dec_digits(c1.min_retry_rate as nat) + (ch_max_tokens_key() + (
    frac6_bytes((c1.retry_budget_max_tokens_milli * 1000) as u64) + ch_close_brace())));
    let m2 = ch_min_rate_key() + (dec_digits(c2.min_retry_rate as nat) + (ch_max_tokens_key() + (
    frac6_bytes((c2.retry_budget_max_tokens_milli * 1000) as u64) + ch_close_brace())));
    assert(m1[0] == 44 && m2[0] == 44);
    lemma_frac6_prefix_unique(
        (c1.retry_budget_ratio_milli * 1000) as u64,
        (c2.retry_budget_ratio_milli * 1000) as u64,
        m1,
        m2,
    );
    lemma_strip(
        ch_min_rate_key(),
        dec_digits(c1.min_retry_rate as nat) + (ch_max_tokens_key() + (frac6_bytes(
            (c1.retry_budget_max_tokens_milli * 1000) as u64,
        ) + ch_close_brace())),
        dec_digits(c2.min_retry_rate as nat) + (ch_max_tokens_key() + (frac6_bytes(
            (c2.retry_budget_max_tokens_milli * 1000) as u64,
        ) + ch_close_brace())),
    );
    let n1 = ch_max_tokens_key() + (frac6_bytes((c1.retry_budget_max_tokens_milli * 1000) as u64)
        + ch_close_brace());
    let n2 = ch_max_tokens_key() + (frac6_bytes((c2.retry_budget_max_tokens_milli * 1000) as u64)
        + ch_close_brace());
    assert(n1[0] == 44 && n2[0] == 44);
    lemma_int_prefix_unique(c1.min_retry_rate as nat, c2.min_retry_rate as nat, n1, n2);
    lemma_strip(
        ch_max_tokens_key(),
        frac6_bytes((c1.retry_budget_max_tokens_milli * 1000) as u64) + ch_close_brace(),
        frac6_bytes((c2.retry_budget_max_tokens_milli * 1000) as u64) + ch_close_brace(),
    );
    assert(ch_close_brace()[0] == 125);
    lemma_frac6_prefix_unique(
        (c1.retry_budget_max_tokens_milli * 1000) as u64,
        (c2.retry_budget_max_tokens_milli * 1000) as u64,
        ch_close_brace(),
        ch_close_brace(),
    );
}

/// The canonical JSON shape determines the edge configuration.
#[verifier::rlimit(100)]
#[verifier::spinoff_prover]
pub proof fn lemma_edge_json_injective(c1: EdgeConfig, c2: EdgeConfig)
    requires
        c1.wf(),
        c2.wf(),
        edge_json(c1) == edge_json(c2),
    ensures
        c1 == c2,
{
    reveal(ch_jitter_key);
    reveal(ch_loss_key);
    reveal(ch_close_brace);
    let t1 = dec_digits(c1.latency_us as nat) + (ch_jitter_key() + (dec_digits(
        c1.jitter_us as nat,
    ) + (ch_loss_key() + (frac6_bytes(c1.packet_loss_ppm as u64) + ch_close_brace()))));
    let t2 = dec_digits(c2.latency_us as nat) + (ch_jitter_key() + (dec_digits(
        c2.jitter_us as nat,
    ) + (ch_loss_key() + (frac6_bytes(c2.packet_loss_ppm as u64) + ch_close_brace()))));
    assert(edge_json(c1) =~= ch_edge_head() + t1);
    assert(edge_json(c2) =~= ch_edge_head() + t2);
    lemma_strip(ch_edge_head(), t1, t2);
    let u1 = ch_jitter_key() + (dec_digits(c1.jitter_us as nat) + (ch_loss_key() + (frac6_bytes(
        c1.packet_loss_ppm as u64,
    ) + ch_close_brace())));
    let u2 = ch_jitter_key() + (dec_digits(c2.jitter_us as nat) + (ch_loss_key() + (frac6_bytes(
        c2.packet_loss_ppm as u64,
    ) + ch_close_brace())));
    assert(u1[0] == 44 && u2[0] == 44);
    lemma_int_prefix_unique(c1.latency_us as nat, c2.latency_us as nat, u1, u2);
    lemma_strip(
        ch_jitter_key(),
        dec_digits(c1.jitter_us as nat) + (ch_loss_key() + (frac6_bytes(c1.packet_loss_ppm as u64)
            + ch_close_brace())),
        dec_digits(c2.jitter_us as nat) + (ch_loss_key() + (frac6_bytes(c2.packet_loss_ppm as u64)
            + ch_close_brace())),
    );
    let v1 = ch_loss_key() + (frac6_bytes(c1.packet_loss_ppm as u64) + ch_close_brace());
    let v2 = ch_loss_key() + (frac6_bytes(c2.packet_loss_ppm as u64) + ch_close_brace());
    assert(v1[0] == 44 && v2[0] == 44);
    lemma_int_prefix_unique(c1.jitter_us as nat, c2.jitter_us as nat, v1, v2);
    lemma_strip(
        ch_loss_key(),
        frac6_bytes(c1.packet_loss_ppm as u64) + ch_close_brace(),
        frac6_bytes(c2.packet_loss_ppm as u64) + ch_close_brace(),
    );
    assert(ch_close_brace()[0] == 125);
    lemma_frac6_prefix_unique(
        c1.packet_loss_ppm as u64,
        c2.packet_loss_ppm as u64,
        ch_close_brace(),
        ch_close_brace(),
    );
}

} // verus!
