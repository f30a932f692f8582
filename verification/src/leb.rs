//! The LEB128 variable length integers: what the bytes of a number are, what
//! number some bytes hold, and the calls that write and read them.
use vstd::arithmetic::power;
use vstd::prelude::*;

verus! {

/// The unsigned LEB128 bytes of `v`: seven bits to a byte, the low ones first.
pub open spec fn uleb_bytes(v: nat) -> Seq<u8>
    decreases v,
{
    if v < 128 {
        seq![v as u8]
    } else {
        seq![(128 + v % 128) as u8] + uleb_bytes(v / 128)
    }
}

/// The signed LEB128 bytes of `v`. The last byte carries the sign in its
/// seventh bit.
pub open spec fn sleb_bytes(v: int) -> Seq<u8>
    decreases (if v >= 0 { v } else { -v }),
{
    if -64 <= v < 64 {
        seq![(v % 128) as u8]
    } else {
        seq![(128 + v % 128) as u8] + sleb_bytes(v / 128)
    }
}

/// What an unsigned 64 bit reader makes of the front of `s`, given that `at`
/// bytes of the number came before: the number and how many bytes it took.
/// The tenth byte has room for one bit only. Padding with zero bits is read.
pub open spec fn uleb_read(s: Seq<u8>, at: nat) -> Option<(nat, nat)>
    decreases s.len(),
{
    if s.len() == 0 || (at >= 9 && s[0] > 1) {
        None
    } else if s[0] < 128 {
        Some((s[0] as nat, 1nat))
    } else {
        match uleb_read(s.drop_first(), at + 1) {
            Some((v, n)) => Some(((s[0] - 128 + 128 * v) as nat, n + 1)),
            None => None,
        }
    }
}

/// What a signed 64 bit reader makes of the front of `s`, given that `at`
/// bytes of the number came before. The tenth byte can only repeat the sign.
pub open spec fn sleb_read(s: Seq<u8>, at: nat) -> Option<(int, nat)>
    decreases s.len(),
{
    if s.len() == 0 || (at >= 9 && s[0] != 0 && s[0] != 0x7f) {
        None
    } else if s[0] < 128 {
        Some((if s[0] < 64 { s[0] as int } else { s[0] - 128 }, 1nat))
    } else {
        match sleb_read(s.drop_first(), at + 1) {
            Some((v, n)) => Some((s[0] - 128 + 128 * v, n + 1)),
            None => None,
        }
    }
}

/// One more than the largest number that an unsigned reader can still make
/// once `at` bytes have gone.
pub open spec fn uleb_limit(at: nat) -> nat
    decreases 9 - at,
{
    if at >= 9 {
        2
    } else {
        128 * uleb_limit(at + 1)
    }
}

/// Half the count of numbers that a signed reader can still make once `at`
/// bytes have gone.
pub open spec fn sleb_limit(at: nat) -> nat
    decreases 9 - at,
{
    if at >= 9 {
        1
    } else {
        128 * sleb_limit(at + 1)
    }
}

pub proof fn lemma_leb_limits()
    ensures
        uleb_limit(0) == 0x1_0000_0000_0000_0000,
        sleb_limit(0) == 0x8000_0000_0000_0000,
{
    reveal_with_fuel(uleb_limit, 11);
    reveal_with_fuel(sleb_limit, 11);
}

/// A number that an unsigned reader makes is below the limit, and its bytes
/// are there.
pub proof fn lemma_uleb_read_bounds(s: Seq<u8>, at: nat)
    requires
        at <= 9,
    ensures
        uleb_read(s, at) matches Some((v, n)) ==> v < uleb_limit(at) && 1 <= n <= s.len() && n <= 10 - at,
    decreases s.len(),
{
    if s.len() > 0 && !(at >= 9 && s[0] > 1) && s[0] >= 128 {
        lemma_uleb_read_bounds(s.drop_first(), at + 1);
    } else {
        lemma_limit_positive(at);
    }
}

pub proof fn lemma_limit_positive(at: nat)
    ensures
        at <= 9 ==> uleb_limit(at) >= 2,
        at < 9 ==> uleb_limit(at) >= 256,
        sleb_limit(at) >= 1,
        at < 9 ==> sleb_limit(at) >= 128,
    decreases 9 - at,
{
    if at < 9 {
        lemma_limit_positive(at + 1);
    }
}

pub proof fn lemma_uleb_limit_le(at: nat)
    ensures
        uleb_limit(at) <= uleb_limit(0),
        sleb_limit(at) <= sleb_limit(0),
{
    lemma_limit_decreases(0, at);
}

proof fn lemma_limit_decreases(a: nat, b: nat)
    requires
        a <= b,
    ensures
        uleb_limit(b) <= uleb_limit(a),
        sleb_limit(b) <= sleb_limit(a),
    decreases b - a,
{
    if a < b {
        lemma_limit_decreases(a + 1, b);
        lemma_limit_positive(a + 1);
    }
}

/// A number that a signed reader makes is within the limit, and its bytes are
/// there.
pub proof fn lemma_sleb_read_bounds(s: Seq<u8>, at: nat)
    requires
        at <= 9,
    ensures
        sleb_read(s, at) matches Some((v, n)) ==> -sleb_limit(at) <= v < sleb_limit(at) && 1 <= n
            <= s.len() && n <= 10 - at,
    decreases s.len(),
{
    if s.len() > 0 && !(at >= 9 && s[0] != 0 && s[0] != 0x7f) && s[0] >= 128 {
        lemma_sleb_read_bounds(s.drop_first(), at + 1);
    } else {
        lemma_limit_positive(at);
    }
}

/// A reader looks at no byte behind the number.
pub proof fn lemma_uleb_read_prefix(s: Seq<u8>, t: Seq<u8>, at: nat)
    requires
        at <= 9,
        uleb_read(s, at) matches Some((v, n)) && n <= t.len() && t.take(n as int) == s.take(n as int),
    ensures
        uleb_read(t, at) == uleb_read(s, at),
    decreases s.len(),
{
    lemma_uleb_read_bounds(s, at);
    let n = match uleb_read(s, at) {
        Some((_, n)) => n as int,
        None => 0,
    };
    assert(t.take(n)[0] == s.take(n)[0]);
    if s[0] >= 128 {
        lemma_uleb_read_bounds(s.drop_first(), at + 1);
        assert(t.drop_first().take(n - 1) =~= t.take(n).drop_first());
        assert(s.drop_first().take(n - 1) =~= s.take(n).drop_first());
        lemma_uleb_read_prefix(s.drop_first(), t.drop_first(), at + 1);
    }
}

/// A reader looks at no byte behind the number.
pub proof fn lemma_sleb_read_prefix(s: Seq<u8>, t: Seq<u8>, at: nat)
    requires
        at <= 9,
        sleb_read(s, at) matches Some((v, n)) && n <= t.len() && t.take(n as int) == s.take(n as int),
    ensures
        sleb_read(t, at) == sleb_read(s, at),
    decreases s.len(),
{
    lemma_sleb_read_bounds(s, at);
    let n = match sleb_read(s, at) {
        Some((_, n)) => n as int,
        None => 0,
    };
    assert(t.take(n)[0] == s.take(n)[0]);
    if s[0] >= 128 {
        lemma_sleb_read_bounds(s.drop_first(), at + 1);
        assert(t.drop_first().take(n - 1) =~= t.take(n).drop_first());
        assert(s.drop_first().take(n - 1) =~= s.take(n).drop_first());
        lemma_sleb_read_prefix(s.drop_first(), t.drop_first(), at + 1);
    }
}

/// Reading gives back an unsigned number that was written, whatever follows.
pub proof fn lemma_uleb_read_of_bytes(v: nat, rest: Seq<u8>, at: nat)
    requires
        at <= 9,
        v < uleb_limit(at),
    ensures
        uleb_read(uleb_bytes(v) + rest, at) == Some((v, uleb_bytes(v).len())),
        1 <= uleb_bytes(v).len() <= 10 - at,
    decreases v,
{
    let s = uleb_bytes(v) + rest;
    if v >= 128 {
        lemma_limit_positive(at);
        lemma_uleb_read_of_bytes(v / 128, rest, at + 1);
        assert(s.drop_first() =~= uleb_bytes(v / 128) + rest);
    }
}

/// Reading gives back a signed number that was written, whatever follows.
pub proof fn lemma_sleb_read_of_bytes(v: int, rest: Seq<u8>, at: nat)
    requires
        at <= 9,
        -sleb_limit(at) <= v < sleb_limit(at),
    ensures
        sleb_read(sleb_bytes(v) + rest, at) == Some((v, sleb_bytes(v).len())),
        1 <= sleb_bytes(v).len() <= 10 - at,
    decreases (if v >= 0 { v } else { -v }),
{
    let s = sleb_bytes(v) + rest;
    if !(-64 <= v < 64) {
        lemma_limit_positive(at);
        lemma_sleb_read_of_bytes(v / 128, rest, at + 1);
        assert(s.drop_first() =~= sleb_bytes(v / 128) + rest);
    }
}

/// `leb128::write::unsigned` into a vector: appends the unsigned LEB128 bytes
/// of `v` and returns how many there are. A vector takes every write, so the
/// call does not fail.
#[verifier::external_body]
pub(crate) fn write_unsigned(out: &mut Vec<u8>, v: u64) -> (n: usize)
    ensures
        final(out)@ == old(out)@ + uleb_bytes(v as nat),
        n == uleb_bytes(v as nat).len(),
{
    leb128::write::unsigned(out, v).unwrap()
}

/// `leb128::write::signed` into a vector: appends the signed LEB128 bytes of
/// `v` and returns how many there are. A vector takes every write, so the call
/// does not fail.
#[verifier::external_body]
pub(crate) fn write_signed(out: &mut Vec<u8>, v: i64) -> (n: usize)
    ensures
        final(out)@ == old(out)@ + sleb_bytes(v as int),
        n == sleb_bytes(v as int).len(),
{
    leb128::write::signed(out, v).unwrap()
}

/// `leb128::read::unsigned` on a slice: the number at its front and how many
/// bytes it took, or `None` where the call reports an error (the bytes end in
/// the middle of the number, or the number takes more than 64 bits).
#[verifier::external_body]
pub(crate) fn read_unsigned(buf: &[u8]) -> (r: Option<(u64, usize)>)
    ensures
        r == match uleb_read(buf@, 0) {
            Some((v, n)) => Some((v as u64, n as usize)),
            None => None,
        },
{
    let mut rest = buf;
    match leb128::read::unsigned(&mut rest) {
        Ok(v) => Some((v, buf.len() - rest.len())),
        Err(_) => None,
    }
}

/// `leb128::read::signed` on a slice: the number at its front and how many
/// bytes it took, or `None` where the call reports an error (the bytes end in
/// the middle of the number, or the number takes more than 64 bits).
#[verifier::external_body]
pub(crate) fn read_signed(buf: &[u8]) -> (r: Option<(i64, usize)>)
    ensures
        r == match sleb_read(buf@, 0) {
            Some((v, n)) => Some((v as i64, n as usize)),
            None => None,
        },
{
    let mut rest = buf;
    match leb128::read::signed(&mut rest) {
        Ok(v) => Some((v, buf.len() - rest.len())),
        Err(_) => None,
    }
}

/// The bytes of an unsigned number are its digits to the base 128, the lowest
/// first. All but the last have their high bit set, and the last is not zero but
/// for zero itself.
pub proof fn unsigned_numbers_are_written_so(v: nat, i: int)
    requires
        0 <= i < uleb_bytes(v).len(),
    ensures
        ({
            let s = uleb_bytes(v);
            &&& s[i] as int % 128 == (v as int / power::pow(128, i as nat)) % 128
            &&& s[i] >= 128 <==> i < s.len() - 1
            &&& s.last() == 0 <==> v == 0
        }),
    decreases v,
{
    power::lemma_pow0(128);
    if v >= 128 {
        let rest = uleb_bytes(v / 128);
        lemma_some_bytes(v as int / 128);
        assert(uleb_bytes(v).last() == rest.last());
        unsigned_numbers_are_written_so(v / 128, rest.len() - 1);
        if i > 0 {
            unsigned_numbers_are_written_so(v / 128, i - 1);
            lemma_next_digit(v as int, i as nat);
            assert(uleb_bytes(v)[i] == rest[i - 1]);
        }
    }
}

proof fn lemma_some_bytes(v: int)
    ensures
        v >= 0 ==> uleb_bytes(v as nat).len() > 0,
        sleb_bytes(v).len() > 0,
{
}

proof fn lemma_next_digit(v: int, i: nat)
    requires
        i > 0,
    ensures
        v / power::pow(128, i) == (v / 128) / power::pow(128, (i - 1) as nat),
{
    let d = power::pow(128, (i - 1) as nat);
    power::lemma_pow_positive(128, (i - 1) as nat);
    reveal(power::pow);
    assert(power::pow(128, i) == 128 * d);
    assert(v / (128 * d) == (v / 128) / d) by (nonlinear_arith)
        requires
            d > 0,
    {
        let q = v / 128;
        let r = v % 128;
        let p = q / d;
        let s = q % d;
        assert(v == 128 * q + r);
        assert(q == d * p + s);
        assert(v == (128 * d) * p + (128 * s + r));
        assert(0 <= 128 * s + r < 128 * d);
        vstd::arithmetic::div_mod::lemma_fundamental_div_mod_converse(
            v,
            128 * d,
            p,
            128 * s + r,
        );
    }
}

/// The bytes of a signed number are its digits to the base 128, the lowest first,
/// those of a negative number as of one that is larger by a power of 128. All but
/// the last have their high bit set, and the bit below that of the last is the
/// sign.
pub proof fn signed_numbers_are_written_so(v: int, i: int)
    requires
        0 <= i < sleb_bytes(v).len(),
    ensures
        ({
            let s = sleb_bytes(v);
            &&& s[i] as int % 128 == (v / power::pow(128, i as nat)) % 128
            &&& s[i] >= 128 <==> i < s.len() - 1
            &&& 64 <= s.last() < 128 <==> v < 0
        }),
    decreases (if v >= 0 { v } else { -v }),
{
    power::lemma_pow0(128);
    if !(-64 <= v < 64) {
        let rest = sleb_bytes(v / 128);
        lemma_some_bytes(v / 128);
        assert(sleb_bytes(v).last() == rest.last());
        signed_numbers_are_written_so(v / 128, rest.len() - 1);
        if i > 0 {
            signed_numbers_are_written_so(v / 128, i - 1);
            lemma_next_digit(v, i as nat);
            assert(sleb_bytes(v)[i] == rest[i - 1]);
        }
    }
}

/// The first `n` bytes are those of one number: the last of them is the only one
/// without its high bit.
pub open spec fn is_one_number(s: Seq<u8>, n: nat) -> bool {
    &&& 0 < n <= s.len()
    &&& s[n - 1] < 128
    &&& forall|i: int| 0 <= i < n - 1 ==> #[trigger] s[i] >= 128
}

proof fn lemma_one_number_more(s: Seq<u8>, n: nat)
    requires
        s.len() > 0,
        s[0] >= 128,
    ensures
        is_one_number(s, n + 1) <==> is_one_number(s.drop_first(), n),
{
    let t = s.drop_first();
    if is_one_number(t, n) {
        assert forall|i: int| 0 <= i < n implies #[trigger] s[i] >= 128 by {
            if i > 0 {
                assert(s[i] == t[i - 1]);
            }
        }
    }
    if is_one_number(s, n + 1) && n > 0 {
        assert forall|i: int| 0 <= i < n - 1 implies #[trigger] t[i] >= 128 by {
            assert(t[i] == s[i + 1]);
        }
    }
}

/// An unsigned number is read of bytes that are one number, of at most ten bytes
/// and then with a tenth of at most 1, and of no others. Its digits to the base 128
/// are the low seven bits of the bytes.
pub proof fn unsigned_numbers_are_read_so(s: Seq<u8>, at: nat, n: nat, i: int)
    requires
        at <= 9,
    ensures
        uleb_read(s, at) matches Some((v, k)) ==> k == n ==> {
            &&& is_one_number(s, n)
            &&& at + n <= 10
            &&& at + n == 10 ==> s[n - 1] <= 1
            &&& 0 <= i < n ==> (v as int / power::pow(128, i as nat)) % 128 == s[i] as int % 128
            &&& i >= n ==> v as int / power::pow(128, i as nat) == 0
        },
        is_one_number(s, n) && at + n <= 10 && (at + n == 10 ==> s[n - 1] <= 1) ==> (uleb_read(
            s,
            at,
        ) matches Some((_, k)) && k == n),
    decreases s.len(),
{
    power::lemma_pow0(128);
    if s.len() > 0 && s[0] < 128 {
        if is_one_number(s, n) && n > 1 {
            assert(s[0] >= 128);
        }
        if i > 0 {
            lemma_next_digit(s[0] as int, i as nat);
            power::lemma_pow_positive(128, (i - 1) as nat);
            vstd::arithmetic::div_mod::lemma_div_basics(power::pow(128, (i - 1) as nat));
        }
    } else if s.len() > 0 && at < 9 {
        let t = s.drop_first();
        if n > 0 {
            let m = (n - 1) as nat;
            unsigned_numbers_are_read_so(t, at + 1, m, i - 1);
            lemma_one_number_more(s, m);
            match uleb_read(s, at) {
                Some((v, _)) => {
                    if i > 0 {
                        lemma_next_digit(v as int, i as nat);
                    }
                },
                None => {},
            }
        }
    } else if s.len() > 0 && is_one_number(s, n) {
        if n > 1 {
            assert(s[0] >= 128);
        }
    }
}

/// A signed number is read of bytes that are one number, of at most ten bytes and
/// then with a tenth that repeats the sign, and of no others. Its digits to the base
/// 128 are the low seven bits of the bytes, and it is negative where the seventh bit
/// of the last is set.
pub proof fn signed_numbers_are_read_so(s: Seq<u8>, at: nat, n: nat, i: int)
    requires
        at <= 9,
    ensures
        sleb_read(s, at) matches Some((v, k)) ==> k == n ==> {
            &&& is_one_number(s, n)
            &&& at + n <= 10
            &&& at + n == 10 ==> s[n - 1] == 0 || s[n - 1] == 0x7f
            &&& 0 <= i < n ==> (v / power::pow(128, i as nat)) % 128 == s[i] as int % 128
            &&& v < 0 <==> s[n - 1] >= 64
        },
        is_one_number(s, n) && at + n <= 10 && (at + n == 10 ==> s[n - 1] == 0 || s[n - 1] == 0x7f)
            ==> (sleb_read(s, at) matches Some((_, k)) && k == n),
    decreases s.len(),
{
    power::lemma_pow0(128);
    if s.len() > 0 && s[0] < 128 {
        if is_one_number(s, n) && n > 1 {
            assert(s[0] >= 128);
        }
    } else if s.len() > 0 && at < 9 {
        let t = s.drop_first();
        if n > 0 {
            let m = (n - 1) as nat;
            signed_numbers_are_read_so(t, at + 1, m, i - 1);
            lemma_one_number_more(s, m);
            match sleb_read(s, at) {
                Some((v, _)) => {
                    if i > 0 {
                        lemma_next_digit(v, i as nat);
                    }
                },
                None => {},
            }
        }
    } else if s.len() > 0 && is_one_number(s, n) {
        if n > 1 {
            assert(s[0] >= 128);
        }
    }
}

} // verus!
