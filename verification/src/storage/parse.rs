//! Parsing of chunks.
//!
//! A parser is a function of the bytes that are left; it gives a value and the
//! bytes behind it, or says why there is none.
use super::change::ParseError as ChangeError;
use crate::leb;
use crate::text;
use crate::types::{self, copy_bytes, ActorId, ChangeHash};
use vstd::prelude::*;

verus! {

/// A LEB128 number that is not accepted.
#[derive(Clone, Copy, Debug, PartialEq, Eq, Structural)]
pub enum Leb128Error {
    /// It does not fit in its type.
    Leb128TooLarge,
    /// It is not written in the fewest bytes.
    Leb128Overlong,
    /// It is zero where that is not allowed.
    UnexpectedZero,
}

/// Why parsing stopped.
#[derive(Clone, Copy, Debug, PartialEq, Eq, Structural)]
pub enum ParseError {
    /// The input ended.
    Incomplete,
    Error(ChangeError),
}

/// What a parser gives: a value and what is left of the input.
pub type Parsed<T> = Result<(T, Seq<u8>), ParseError>;

/// What a parser returns: what is left of the input and a value.
pub type ParseResult<'a, T> = Result<(Input<'a>, T), ParseError>;

pub open spec fn leb_error(e: Leb128Error) -> ParseError {
    ParseError::Error(ChangeError::Leb128(e))
}

/// An unsigned LEB128 number of up to 64 bits in its shortest form, of which
/// `at` bytes came before.
pub open spec fn uleb_parse(s: Seq<u8>, at: nat) -> Parsed<nat>
    decreases s.len(),
{
    if s.len() == 0 {
        Err(ParseError::Incomplete)
    } else if s[0] < 128 {
        if at >= 9 && s[0] > 1 {
            Err(leb_error(Leb128Error::Leb128TooLarge))
        } else if at > 0 && s[0] == 0 {
            Err(leb_error(Leb128Error::Leb128Overlong))
        } else {
            Ok((s[0] as nat, s.drop_first()))
        }
    } else if at >= 9 {
        Err(leb_error(Leb128Error::Leb128TooLarge))
    } else {
        match uleb_parse(s.drop_first(), at + 1) {
            Ok((v, rest)) => Ok(((s[0] - 128 + 128 * v) as nat, rest)),
            Err(e) => Err(e),
        }
    }
}

/// A signed LEB128 number of up to 64 bits in its shortest form, of which `at`
/// bytes came before, `prev` the last of them.
pub open spec fn sleb_parse(s: Seq<u8>, at: nat, prev: u8) -> Parsed<int>
    decreases s.len(),
{
    if s.len() == 0 {
        Err(ParseError::Incomplete)
    } else if s[0] < 128 {
        if at >= 9 && s[0] != 0 && s[0] != 0x7f {
            Err(leb_error(Leb128Error::Leb128TooLarge))
        } else if at > 0 && ((s[0] == 0 && prev < 192) || (s[0] == 0x7f && prev >= 192)) {
            Err(leb_error(Leb128Error::Leb128Overlong))
        } else {
            Ok((if s[0] < 64 { s[0] as int } else { s[0] - 128 }, s.drop_first()))
        }
    } else if at >= 9 {
        Err(leb_error(Leb128Error::Leb128TooLarge))
    } else {
        match sleb_parse(s.drop_first(), at + 1, s[0]) {
            Ok((v, rest)) => Ok((s[0] - 128 + 128 * v, rest)),
            Err(e) => Err(e),
        }
    }
}

pub open spec fn u64_parse(s: Seq<u8>) -> Parsed<u64> {
    match uleb_parse(s, 0) {
        Ok((v, rest)) => Ok((v as u64, rest)),
        Err(e) => Err(e),
    }
}

pub open spec fn i64_parse(s: Seq<u8>) -> Parsed<i64> {
    match sleb_parse(s, 0, 0) {
        Ok((v, rest)) => Ok((v as i64, rest)),
        Err(e) => Err(e),
    }
}

pub open spec fn u32_parse(s: Seq<u8>) -> Parsed<u32> {
    match u64_parse(s) {
        Ok((v, rest)) => if v <= u32::MAX {
            Ok((v as u32, rest))
        } else {
            Err(leb_error(Leb128Error::Leb128TooLarge))
        },
        Err(e) => Err(e),
    }
}

pub open spec fn nonzero_u64_parse(s: Seq<u8>) -> Parsed<u64> {
    match u64_parse(s) {
        Ok((v, rest)) => if v != 0 {
            Ok((v, rest))
        } else {
            Err(leb_error(Leb128Error::UnexpectedZero))
        },
        Err(e) => Err(e),
    }
}

/// The next `n` bytes.
pub open spec fn take_parse(s: Seq<u8>, n: nat) -> Parsed<Seq<u8>> {
    if n <= s.len() {
        Ok((s.take(n as int), s.skip(n as int)))
    } else {
        Err(ParseError::Incomplete)
    }
}

/// A length and that many bytes.
pub open spec fn bytes_parse(s: Seq<u8>) -> Parsed<Seq<u8>> {
    match u64_parse(s) {
        Ok((n, rest)) => take_parse(rest, n as nat),
        Err(e) => Err(e),
    }
}

/// A length and a text of that many bytes.
pub open spec fn text_parse(s: Seq<u8>) -> Parsed<Seq<char>> {
    match bytes_parse(s) {
        Ok((bytes, rest)) => match text::text_of(bytes) {
            Some(t) => Ok((t, rest)),
            None => Err(ParseError::Error(ChangeError::InvalidUtf8)),
        },
        Err(e) => Err(e),
    }
}

/// `n` hashes.
pub open spec fn hashes_parse(s: Seq<u8>, n: nat) -> Parsed<Seq<Seq<u8>>>
    decreases n,
{
    if n == 0 {
        Ok((Seq::empty(), s))
    } else {
        match take_parse(s, 32) {
            Ok((h, rest)) => match hashes_parse(rest, (n - 1) as nat) {
                Ok((hs, rest)) => Ok((seq![h] + hs, rest)),
                Err(e) => Err(e),
            },
            Err(e) => Err(e),
        }
    }
}

/// `n` actors.
pub open spec fn actors_parse(s: Seq<u8>, n: nat) -> Parsed<Seq<Seq<u8>>>
    decreases n,
{
    if n == 0 {
        Ok((Seq::empty(), s))
    } else {
        match bytes_parse(s) {
            Ok((a, rest)) => match actors_parse(rest, (n - 1) as nat) {
                Ok((actors, rest)) => Ok((seq![a] + actors, rest)),
                Err(e) => Err(e),
            },
            Err(e) => Err(e),
        }
    }
}

/// A count and that many hashes.
pub open spec fn hash_list_parse(s: Seq<u8>) -> Parsed<Seq<Seq<u8>>> {
    match u64_parse(s) {
        Ok((n, rest)) => hashes_parse(rest, n as nat),
        Err(e) => Err(e),
    }
}

/// A count and that many actors.
pub open spec fn actor_list_parse(s: Seq<u8>) -> Parsed<Seq<Seq<u8>>> {
    match u64_parse(s) {
        Ok((n, rest)) => actors_parse(rest, n as nat),
        Err(e) => Err(e),
    }
}

// What is written is parsed back.

/// A byte string behind its length.
pub open spec fn prefixed(bytes: Seq<u8>) -> Seq<u8> {
    leb::uleb_bytes(bytes.len()) + bytes
}

/// Byte strings one behind the other.
pub open spec fn concat(parts: Seq<Seq<u8>>) -> Seq<u8>
    decreases parts.len(),
{
    if parts.len() == 0 {
        Seq::empty()
    } else {
        parts[0] + concat(parts.drop_first())
    }
}

/// Byte strings one behind the other, each behind its length.
pub open spec fn concat_prefixed(parts: Seq<Seq<u8>>) -> Seq<u8>
    decreases parts.len(),
{
    if parts.len() == 0 {
        Seq::empty()
    } else {
        prefixed(parts[0]) + concat_prefixed(parts.drop_first())
    }
}

/// The parts are behind one another also from the end.
pub proof fn lemma_concat_push(parts: Seq<Seq<u8>>, part: Seq<u8>)
    ensures
        concat(parts.push(part)) == concat(parts) + part,
    decreases parts.len(),
{
    let all = parts.push(part);
    if parts.len() == 0 {
        assert(concat(all.drop_first()) =~= Seq::empty());
        assert(concat(all) =~= concat(parts) + part);
    } else {
        assert(all.drop_first() =~= parts.drop_first().push(part));
        lemma_concat_push(parts.drop_first(), part);
        lemma_add_assoc(parts[0], concat(parts.drop_first()), part);
    }
}

/// Each part stands where the parts before it end.
pub proof fn lemma_concat_part(parts: Seq<Seq<u8>>, i: int)
    requires
        0 <= i < parts.len(),
    ensures
        ({
            let start = concat(parts.take(i)).len() as int;
            let end = concat(parts.take(i + 1)).len() as int;
            &&& end == start + parts[i].len()
            &&& end <= concat(parts).len()
            &&& concat(parts).subrange(start, end) == parts[i]
        }),
    decreases parts.len() - i,
{
    let before = concat(parts.take(i));
    assert(parts.take(i + 1) =~= parts.take(i).push(parts[i]));
    lemma_concat_push(parts.take(i), parts[i]);
    lemma_concat_split(parts, i + 1);
    let after = concat(parts.skip(i + 1));
    assert(concat(parts) =~= before + parts[i] + after);
    assert(concat(parts).subrange(before.len() as int, (before + parts[i]).len() as int)
        =~= parts[i]);
}

proof fn lemma_concat_split(parts: Seq<Seq<u8>>, i: int)
    requires
        0 <= i <= parts.len(),
    ensures
        concat(parts) == concat(parts.take(i)) + concat(parts.skip(i)),
    decreases i,
{
    if i == 0 {
        assert(parts.skip(0) =~= parts);
        assert(concat(parts.take(0)) + concat(parts) =~= concat(parts));
    } else {
        lemma_concat_split(parts, i - 1);
        assert(parts.take(i) =~= parts.take(i - 1).push(parts[i - 1]));
        lemma_concat_push(parts.take(i - 1), parts[i - 1]);
        assert(parts.skip(i - 1).drop_first() =~= parts.skip(i));
        lemma_add_assoc(concat(parts.take(i - 1)), parts[i - 1], concat(parts.skip(i)));
    }
}

pub proof fn lemma_add_assoc(a: Seq<u8>, b: Seq<u8>, c: Seq<u8>)
    ensures
        (a + b) + c == a + (b + c),
{
    assert((a + b) + c =~= a + (b + c));
}

pub proof fn lemma_uleb_parse_bounds(s: Seq<u8>, at: nat)
    requires
        at <= 9,
    ensures
        uleb_parse(s, at) matches Ok((v, rest)) ==> v < leb::uleb_limit(at) && rest.len() < s.len()
            && rest == s.skip(s.len() - rest.len()),
    decreases s.len(),
{
    if s.len() > 0 && s[0] >= 128 && at < 9 {
        lemma_uleb_parse_bounds(s.drop_first(), at + 1);
        match uleb_parse(s.drop_first(), at + 1) {
            Ok((v, rest)) => {
                assert(s.drop_first().skip(s.len() - 1 - rest.len()) =~= s.skip(
                    s.len() - rest.len(),
                ));
            },
            Err(_) => {},
        }
    } else if s.len() > 0 {
        leb::lemma_limit_positive(at);
        assert(s.drop_first() =~= s.skip(1));
    }
}

pub proof fn lemma_sleb_parse_bounds(s: Seq<u8>, at: nat, prev: u8)
    requires
        at <= 9,
    ensures
        sleb_parse(s, at, prev) matches Ok((v, rest)) ==> -leb::sleb_limit(at) <= v
            < leb::sleb_limit(at) && rest.len() < s.len() && rest == s.skip(s.len() - rest.len()),
    decreases s.len(),
{
    if s.len() > 0 && s[0] >= 128 && at < 9 {
        lemma_sleb_parse_bounds(s.drop_first(), at + 1, s[0]);
        match sleb_parse(s.drop_first(), at + 1, s[0]) {
            Ok((v, rest)) => {
                assert(s.drop_first().skip(s.len() - 1 - rest.len()) =~= s.skip(
                    s.len() - rest.len(),
                ));
            },
            Err(_) => {},
        }
    } else if s.len() > 0 {
        leb::lemma_limit_positive(at);
        assert(s.drop_first() =~= s.skip(1));
    }
}

proof fn lemma_uleb_parse_of_bytes(v: nat, rest: Seq<u8>, at: nat)
    requires
        at <= 9,
        v < leb::uleb_limit(at),
        at > 0 ==> v > 0,
    ensures
        uleb_parse(leb::uleb_bytes(v) + rest, at) == Ok::<_, ParseError>((v, rest)),
    decreases v,
{
    let s = leb::uleb_bytes(v) + rest;
    if v >= 128 {
        leb::lemma_limit_positive(at);
        lemma_uleb_parse_of_bytes(v / 128, rest, at + 1);
        assert(s.drop_first() =~= leb::uleb_bytes(v / 128) + rest);
    } else {
        assert(s.drop_first() =~= rest);
    }
}

proof fn lemma_sleb_parse_of_bytes(v: int, rest: Seq<u8>, at: nat, prev: u8)
    requires
        at <= 9,
        -leb::sleb_limit(at) <= v < leb::sleb_limit(at),
        at > 0 ==> prev >= 128 && !(-64 <= prev - 128 + 128 * v < 64),
    ensures
        sleb_parse(leb::sleb_bytes(v) + rest, at, prev) == Ok::<_, ParseError>(
            (v, rest),
        ),
    decreases (if v >= 0 { v } else { -v }),
{
    let s = leb::sleb_bytes(v) + rest;
    if !(-64 <= v < 64) {
        leb::lemma_limit_positive(at);
        lemma_sleb_parse_of_bytes(v / 128, rest, at + 1, s[0]);
        assert(s.drop_first() =~= leb::sleb_bytes(v / 128) + rest);
    } else {
        assert(s.drop_first() =~= rest);
    }
}

pub proof fn lemma_u64_parse_of_bytes(v: u64, rest: Seq<u8>)
    ensures
        u64_parse(leb::uleb_bytes(v as nat) + rest) == Ok::<_, ParseError>((v, rest)),
{
    leb::lemma_leb_limits();
    lemma_uleb_parse_of_bytes(v as nat, rest, 0);
}

pub proof fn lemma_i64_parse_of_bytes(v: i64, rest: Seq<u8>)
    ensures
        i64_parse(leb::sleb_bytes(v as int) + rest) == Ok::<_, ParseError>((v, rest)),
{
    leb::lemma_leb_limits();
    lemma_sleb_parse_of_bytes(v as int, rest, 0, 0);
}

pub proof fn lemma_bytes_parse_of_prefixed(bytes: Seq<u8>, rest: Seq<u8>)
    requires
        bytes.len() <= u64::MAX,
    ensures
        bytes_parse(prefixed(bytes) + rest) == Ok::<_, ParseError>((bytes, rest)),
{
    let tail = bytes + rest;
    lemma_add_assoc(leb::uleb_bytes(bytes.len()), bytes, rest);
    lemma_u64_parse_of_bytes(bytes.len() as u64, tail);
    assert(tail.take(bytes.len() as int) =~= bytes);
    assert(tail.skip(bytes.len() as int) =~= rest);
}

pub proof fn lemma_hashes_parse_of_concat(hashes: Seq<Seq<u8>>, rest: Seq<u8>)
    requires
        forall|i: int| 0 <= i < hashes.len() ==> (#[trigger] hashes[i]).len() == 32,
    ensures
        hashes_parse(concat(hashes) + rest, hashes.len()) == Ok::<_, ParseError>(
            (hashes, rest),
        ),
    decreases hashes.len(),
{
    if hashes.len() > 0 {
        let tail = concat(hashes.drop_first()) + rest;
        let s = concat(hashes) + rest;
        lemma_add_assoc(hashes[0], concat(hashes.drop_first()), rest);
        assert(s.take(32) =~= hashes[0]);
        assert(s.skip(32) =~= tail);
        lemma_hashes_parse_of_concat(hashes.drop_first(), rest);
        assert(seq![hashes[0]] + hashes.drop_first() =~= hashes);
    } else {
        assert(concat(hashes) + rest =~= rest);
        assert(hashes =~= Seq::empty());
    }
}

pub proof fn lemma_actors_parse_of_concat(actors: Seq<Seq<u8>>, rest: Seq<u8>)
    requires
        forall|i: int| 0 <= i < actors.len() ==> (#[trigger] actors[i]).len() <= u64::MAX,
    ensures
        actors_parse(concat_prefixed(actors) + rest, actors.len()) == Ok::<_, ParseError>((actors, rest)),
    decreases actors.len(),
{
    if actors.len() > 0 {
        let tail = concat_prefixed(actors.drop_first()) + rest;
        lemma_add_assoc(prefixed(actors[0]), concat_prefixed(actors.drop_first()), rest);
        lemma_bytes_parse_of_prefixed(actors[0], tail);
        lemma_actors_parse_of_concat(actors.drop_first(), rest);
        assert(seq![actors[0]] + actors.drop_first() =~= actors);
    } else {
        assert(concat_prefixed(actors) + rest =~= rest);
        assert(actors =~= Seq::empty());
    }
}

// The parsers.

/// Bytes that are being parsed: a whole, and how far it has been read.
#[derive(Clone, Copy, Debug)]
pub struct Input<'a> {
    original: &'a [u8],
    position: usize,
}

/// An input in two: what is up to some length, and what is behind it.
pub struct Split<'a> {
    pub first: Input<'a>,
    pub remaining: Input<'a>,
}

impl<'a> Input<'a> {
    pub open spec fn wf(self) -> bool {
        self.at() <= self.whole().len() <= usize::MAX
    }

    /// All bytes, also those that have been read.
    pub closed spec fn whole(self) -> Seq<u8> {
        self.original@
    }

    /// How many bytes have been read.
    pub closed spec fn at(self) -> nat {
        self.position as nat
    }

    /// The bytes that have not been read.
    pub open spec fn rest(self) -> Seq<u8> {
        self.whole().skip(self.at() as int)
    }

    /// What parsing with `spec` does to `self`, where it returned `r`.
    pub open spec fn advanced<T, V>(self, r: ParseResult<'a, T>, view: spec_fn(T) -> V, parsed: Parsed<V>) -> bool {
        match r {
            Ok((i, v)) => i.wf() && i.whole() == self.whole() && i.at() >= self.at() && parsed
                == Ok::<_, ParseError>((view(v), i.rest())),
            Err(e) => parsed == Err::<(V, Seq<u8>), _>(e),
        }
    }

    pub fn new(bytes: &'a [u8]) -> (r: Input<'a>)
        ensures
            r.wf(),
            r.whole() == bytes@,
            r.at() == 0,
            r.rest() == bytes@,
    {
        assert(bytes@.skip(0) =~= bytes@);
        assert(bytes.len() <= usize::MAX);
        Input { original: bytes, position: 0 }
    }

    /// All bytes, also those that have been read.
    pub fn bytes(&self) -> (r: &'a [u8])
        ensures
            r@ == self.whole(),
    {
        self.original
    }

    /// How many bytes have been read.
    pub fn position(&self) -> (r: usize)
        requires
            self.wf(),
        ensures
            r == self.at(),
            r <= self.whole().len(),
    {
        self.position
    }

    pub fn is_empty(&self) -> (r: bool)
        requires
            self.wf(),
        ensures
            r == (self.rest().len() == 0),
    {
        self.position == self.original.len()
    }

    pub fn remaining(&self) -> (r: usize)
        requires
            self.wf(),
        ensures
            r == self.rest().len(),
            self.at() + r == self.whole().len(),
    {
        self.original.len() - self.position
    }

    /// Splits behind the next `length` bytes. What was read before stays in the
    /// first part.
    pub fn split(&self, length: usize) -> (r: Split<'a>)
        requires
            self.wf(),
            length <= self.rest().len(),
        ensures
            r.first.wf(),
            r.first.whole() == self.whole().take(self.at() + length),
            r.first.at() == self.at(),
            r.remaining.wf(),
            r.remaining.at() == 0,
            r.remaining.whole() == self.rest().skip(length as int),
            r.remaining.rest() == self.rest().skip(length as int),
    {
        assert(self.position + length <= self.original.len());
        let end: usize = self.position + length;
        let (first, rest) = self.original.split_at(end);
        assert(first.len() <= usize::MAX);
        assert(rest@ =~= self.rest().skip(length as int));
        assert(first@ =~= self.whole().take(self.at() + length));
        Split { first: Input { original: first, position: self.position }, remaining: Input::new(rest) }
    }
}

fn uleb(input: Input<'_>, at: u8) -> (r: Result<(Input<'_>, u64), ParseError>)
    requires
        input.wf(),
        at <= 9,
    ensures
        input.advanced(r, |v: u64| v as nat, uleb_parse(input.rest(), at as nat)),
        r matches Ok((_, v)) ==> v < leb::uleb_limit(at as nat),
    decreases 10 - at,
{
    proof {
        leb::lemma_leb_limits();
        leb::lemma_uleb_limit_le(at as nat);
        lemma_uleb_parse_bounds(input.rest(), at as nat);
    }
    if input.position == input.original.len() {
        return Err(ParseError::Incomplete);
    }
    let byte: u8 = input.original[input.position];
    let next = Input { original: input.original, position: input.position + 1 };
    assert(input.rest().drop_first() =~= next.rest());
    assert(byte == input.rest()[0]);
    if byte < 128 {
        if at >= 9 && byte > 1 {
            Err(ParseError::Error(ChangeError::Leb128(Leb128Error::Leb128TooLarge)))
        } else if at > 0 && byte == 0 {
            Err(ParseError::Error(ChangeError::Leb128(Leb128Error::Leb128Overlong)))
        } else {
            Ok((next, byte as u64))
        }
    } else if at >= 9 {
        Err(ParseError::Error(ChangeError::Leb128(Leb128Error::Leb128TooLarge)))
    } else {
        match uleb(next, at + 1) {
            Ok((i, v)) => Ok((i, (byte - 128) as u64 + 128 * v)),
            Err(e) => Err(e),
        }
    }
}

fn sleb(input: Input<'_>, at: u8, prev: u8) -> (r: Result<
    (Input<'_>, i64),
    ParseError,
>)
    requires
        input.wf(),
        at <= 9,
    ensures
        input.advanced(r, |v: i64| v as int, sleb_parse(input.rest(), at as nat, prev)),
        r matches Ok((_, v)) ==> -leb::sleb_limit(at as nat) <= v < leb::sleb_limit(at as nat),
    decreases 10 - at,
{
    proof {
        leb::lemma_leb_limits();
        leb::lemma_uleb_limit_le(at as nat);
        lemma_sleb_parse_bounds(input.rest(), at as nat, prev);
    }
    if input.position == input.original.len() {
        return Err(ParseError::Incomplete);
    }
    let byte: u8 = input.original[input.position];
    let next = Input { original: input.original, position: input.position + 1 };
    assert(input.rest().drop_first() =~= next.rest());
    assert(byte == input.rest()[0]);
    if byte < 128 {
        if at >= 9 && byte != 0 && byte != 0x7f {
            Err(ParseError::Error(ChangeError::Leb128(Leb128Error::Leb128TooLarge)))
        } else if at > 0 && ((byte == 0 && prev < 192) || (byte == 0x7f && prev >= 192)) {
            Err(ParseError::Error(ChangeError::Leb128(Leb128Error::Leb128Overlong)))
        } else if byte < 64 {
            Ok((next, byte as i64))
        } else {
            Ok((next, byte as i64 - 128))
        }
    } else if at >= 9 {
        Err(ParseError::Error(ChangeError::Leb128(Leb128Error::Leb128TooLarge)))
    } else {
        match sleb(next, at + 1, byte) {
            Ok((i, v)) => Ok((i, (byte - 128) as i64 + 128 * v)),
            Err(e) => Err(e),
        }
    }
}

pub fn leb128_u64(input: Input<'_>) -> (r: Result<(Input<'_>, u64), ParseError>)
    requires
        input.wf(),
    ensures
        input.advanced(r, |v: u64| v, u64_parse(input.rest())),
{
    uleb(input, 0)
}

pub fn leb128_i64(input: Input<'_>) -> (r: Result<(Input<'_>, i64), ParseError>)
    requires
        input.wf(),
    ensures
        input.advanced(r, |v: i64| v, i64_parse(input.rest())),
{
    sleb(input, 0, 0)
}

pub fn leb128_u32(input: Input<'_>) -> (r: Result<(Input<'_>, u32), ParseError>)
    requires
        input.wf(),
    ensures
        input.advanced(r, |v: u32| v, u32_parse(input.rest())),
{
    let (i, v): (Input<'_>, u64) = match leb128_u64(input) {
        Ok(read) => read,
        Err(e) => {
            return Err(e);
        },
    };
    if v <= 0xffff_ffff {
        Ok((i, v as u32))
    } else {
        Err(ParseError::Error(ChangeError::Leb128(Leb128Error::Leb128TooLarge)))
    }
}

pub fn nonzero_leb128_u64(input: Input<'_>) -> (r: Result<
    (Input<'_>, u64),
    ParseError,
>)
    requires
        input.wf(),
    ensures
        input.advanced(r, |v: u64| v, nonzero_u64_parse(input.rest())),
{
    let (i, v): (Input<'_>, u64) = match leb128_u64(input) {
        Ok(read) => read,
        Err(e) => {
            return Err(e);
        },
    };
    if v != 0 {
        Ok((i, v))
    } else {
        Err(ParseError::Error(ChangeError::Leb128(Leb128Error::UnexpectedZero)))
    }
}

/// The next `n` bytes.
pub fn take_n<'a>(n: u64, input: Input<'a>) -> (r: Result<
    (Input<'a>, &'a [u8]),
    ParseError,
>)
    requires
        input.wf(),
    ensures
        input.advanced(r, |v: &'a [u8]| v@, take_parse(input.rest(), n as nat)),
{
    if n > input.remaining() as u64 {
        return Err(ParseError::Incomplete);
    }
    assert(input.position + n <= input.original.len());
    let end: usize = input.position + n as usize;
    let taken = &input.original[input.position..end];
    let next = Input { original: input.original, position: end };
    assert(taken@ =~= input.rest().take(n as int));
    assert(next.rest() =~= input.rest().skip(n as int));
    Ok((next, taken))
}

/// A length and that many bytes.
pub fn length_prefixed_bytes<'a>(input: Input<'a>) -> (r: Result<
    (Input<'a>, &'a [u8]),
    ParseError,
>)
    requires
        input.wf(),
    ensures
        input.advanced(r, |v: &'a [u8]| v@, bytes_parse(input.rest())),
{
    match leb128_u64(input) {
        Ok((i, n)) => take_n(n, i),
        Err(e) => Err(e),
    }
}

/// An actor: a length and that many bytes.
pub fn actor_id(input: Input<'_>) -> (r: Result<(Input<'_>, ActorId), ParseError>)
    requires
        input.wf(),
    ensures
        input.advanced(r, |v: ActorId| v@, bytes_parse(input.rest())),
{
    match length_prefixed_bytes(input) {
        Ok((i, bytes)) => Ok((i, ActorId(copy_bytes(bytes)))),
        Err(e) => Err(e),
    }
}

/// A hash: 32 bytes.
pub fn change_hash(input: Input<'_>) -> (r: Result<
    (Input<'_>, ChangeHash),
    ParseError,
>)
    requires
        input.wf(),
    ensures
        input.advanced(r, |v: ChangeHash| v@, take_parse(input.rest(), 32)),
{
    match take_n(32, input) {
        Ok((i, bytes)) => {
            let mut hash: [u8; 32] = [0u8;32];
            let mut k: usize = 0;
            while k < 32
                invariant
                    k <= 32,
                    bytes@.len() == 32,
                    forall|j: int| 0 <= j < k ==> hash@[j] == bytes@[j],
                decreases 32 - k,
            {
                hash[k] = bytes[k];
                k += 1;
            }
            assert(hash@ =~= bytes@);
            Ok((i, ChangeHash(hash)))
        },
        Err(e) => Err(e),
    }
}

/// A length and a text of that many bytes.
pub fn utf_8(input: Input<'_>) -> (r: Result<(Input<'_>, String), ParseError>)
    requires
        input.wf(),
    ensures
        input.advanced(r, |v: String| v@, text_parse(input.rest())),
{
    match length_prefixed_bytes(input) {
        Ok((i, bytes)) => match text::read_text(bytes) {
            Some(s) => Ok((i, s.to_owned())),
            None => Err(ParseError::Error(ChangeError::InvalidUtf8)),
        },
        Err(e) => Err(e),
    }
}

/// A count and that many hashes.
pub fn change_hashes(input: Input<'_>) -> (r: Result<
    (Input<'_>, Vec<ChangeHash>),
    ParseError,
>)
    requires
        input.wf(),
    ensures
        input.advanced(r, |v: Vec<ChangeHash>| types::hash_names(v@), hash_list_parse(input.rest())),
{
    let (mut i, count): (Input<'_>, u64) = match leb128_u64(input) {
        Ok(read) => read,
        Err(e) => {
            return Err(e);
        },
    };
    let mut out: Vec<ChangeHash> = Vec::new();
    let mut done: u64 = 0;
    proof {
        assert(types::hash_names(out@) =~= Seq::empty());
        match hashes_parse(i.rest(), count as nat) {
            Ok((hs, _)) => assert(Seq::<Seq<u8>>::empty() + hs =~= hs),
            Err(_) => {},
        }
    }
    while done < count
        invariant
            done <= count,
            i.wf(),
            i.whole() == input.whole(),
            i.at() >= input.at(),
            hash_list_parse(input.rest()) == match hashes_parse(i.rest(), (count - done) as nat) {
                Ok((hs, rest)) => Ok((types::hash_names(out@) + hs, rest)),
                Err(e) => Err::<(Seq<Seq<u8>>, Seq<u8>), ParseError>(e),
            },
        decreases count - done,
    {
        let ghost before = out@;
        let (j, hash): (Input<'_>, ChangeHash) = match change_hash(i) {
            Ok(read) => read,
            Err(e) => {
                return Err(e);
            },
        };
        out.push(hash);
        proof {
            match hashes_parse(j.rest(), (count - done - 1) as nat) {
                Ok((hs, _)) => assert(types::hash_names(before) + (seq![hash@] + hs) =~= types::hash_names(out@)
                    + hs),
                Err(_) => {},
            }
        }
        i = j;
        done += 1;
    }
    proof {
        assert(types::hash_names(out@) + Seq::<Seq<u8>>::empty() =~= types::hash_names(out@));
    }
    Ok((i, out))
}

/// A count and that many actors.
pub fn actor_ids(input: Input<'_>) -> (r: Result<
    (Input<'_>, Vec<ActorId>),
    ParseError,
>)
    requires
        input.wf(),
    ensures
        input.advanced(r, |v: Vec<ActorId>| types::actor_names(v@), actor_list_parse(input.rest())),
{
    let (mut i, count): (Input<'_>, u64) = match leb128_u64(input) {
        Ok(read) => read,
        Err(e) => {
            return Err(e);
        },
    };
    let mut out: Vec<ActorId> = Vec::new();
    let mut done: u64 = 0;
    proof {
        assert(types::actor_names(out@) =~= Seq::empty());
        match actors_parse(i.rest(), count as nat) {
            Ok((hs, _)) => assert(Seq::<Seq<u8>>::empty() + hs =~= hs),
            Err(_) => {},
        }
    }
    while done < count
        invariant
            done <= count,
            i.wf(),
            i.whole() == input.whole(),
            i.at() >= input.at(),
            actor_list_parse(input.rest()) == match actors_parse(i.rest(), (count - done) as nat) {
                Ok((hs, rest)) => Ok((types::actor_names(out@) + hs, rest)),
                Err(e) => Err::<(Seq<Seq<u8>>, Seq<u8>), ParseError>(e),
            },
        decreases count - done,
    {
        let ghost before = out@;
        let (j, actor): (Input<'_>, ActorId) = match actor_id(i) {
            Ok(read) => read,
            Err(e) => {
                return Err(e);
            },
        };
        out.push(actor);
        proof {
            match actors_parse(j.rest(), (count - done - 1) as nat) {
                Ok((hs, _)) => assert(types::actor_names(before) + (seq![actor@] + hs) =~= types::actor_names(
                    out@,
                ) + hs),
                Err(_) => {},
            }
        }
        i = j;
        done += 1;
    }
    proof {
        assert(types::actor_names(out@) + Seq::<Seq<u8>>::empty() =~= types::actor_names(out@));
    }
    Ok((i, out))
}

// What is accepted.

proof fn lemma_uleb_parse_errors(s: Seq<u8>, at: nat)
    requires
        at <= 9,
    ensures
        ({
            let cut = s.len() + at < 10 && (forall|i: int| 0 <= i < s.len() ==> #[trigger] s[i] >= 128);
            let padded = leb::uleb_read(s, at) matches Some((_, n)) && (at > 0 || n > 1) && 0 < n
                <= s.len() && s[n - 1] == 0;
            &&& uleb_parse(s, at) == Err::<(nat, Seq<u8>), _>(ParseError::Incomplete) <==> cut
            &&& uleb_parse(s, at) == Err::<(nat, Seq<u8>), _>(
                leb_error(Leb128Error::Leb128Overlong),
            ) <==> padded
            &&& uleb_parse(s, at) == Err::<(nat, Seq<u8>), _>(
                leb_error(Leb128Error::Leb128TooLarge),
            ) <==> leb::uleb_read(s, at) is None && !cut
        }),
    decreases s.len(),
{
    leb::lemma_uleb_read_bounds(s, at);
    if s.len() > 0 && s[0] >= 128 && at < 9 {
        let t = s.drop_first();
        lemma_uleb_parse_errors(t, at + 1);
        leb::lemma_uleb_read_bounds(t, at + 1);
        if s.len() + at < 10 && (forall|i: int| 0 <= i < t.len() ==> #[trigger] t[i] >= 128) {
            assert forall|i: int| 0 <= i < s.len() implies #[trigger] s[i] >= 128 by {
                if i > 0 {
                    assert(s[i] == t[i - 1]);
                }
            }
        }
        if forall|i: int| 0 <= i < s.len() ==> #[trigger] s[i] >= 128 {
            assert forall|i: int| 0 <= i < t.len() implies #[trigger] t[i] >= 128 by {
                assert(t[i] == s[i + 1]);
            }
        }
    } else if s.len() > 0 && at >= 9 {
        assert(s[0] >= 128 ==> uleb_parse(s, at) is Err);
    }
}

/// An unsigned number is parsed exactly where its shortest form stands at the
/// front. Where the bytes end in the middle of a number they are incomplete;
/// otherwise a number that ends in a zero byte is overlong, and one that can be
/// read in no way is too large.
pub proof fn unsigned_numbers_are_parsed_so(s: Seq<u8>, v: u64, rest: Seq<u8>)
    ensures
        u64_parse(s) == Ok::<_, ParseError>((v, rest)) <==> s == leb::uleb_bytes(v as nat) + rest,
        u64_parse(s) == Err::<(u64, Seq<u8>), _>(ParseError::Incomplete) <==> s.len() < 10 && (
        forall|i: int| 0 <= i < s.len() ==> #[trigger] s[i] >= 128),
        u64_parse(s) == Err::<(u64, Seq<u8>), _>(
            ParseError::Error(ChangeError::Leb128(Leb128Error::Leb128Overlong)),
        ) <==> (leb::uleb_read(s, 0) matches Some((_, n)) && 1 < n <= s.len() && s[n - 1] == 0),
        u64_parse(s) == Err::<(u64, Seq<u8>), _>(
            ParseError::Error(ChangeError::Leb128(Leb128Error::Leb128TooLarge)),
        ) <==> leb::uleb_read(s, 0) is None && !(s.len() < 10 && (forall|i: int|
            0 <= i < s.len() ==> #[trigger] s[i] >= 128)),
{
    lemma_u64_parse_of_bytes(v, rest);
    lemma_uleb_parse_errors(s, 0);
    crate::storage::chunk::lemma_uleb_parse_shortest(s, 0);
    leb::lemma_leb_limits();
    lemma_uleb_parse_bounds(s, 0);
}

proof fn lemma_sleb_parse_shortest(s: Seq<u8>, at: nat, prev: u8)
    requires
        at <= 9,
        at > 0 ==> prev >= 128,
    ensures
        sleb_parse(s, at, prev) matches Ok((v, rest)) ==> s == leb::sleb_bytes(v) + rest && (at > 0
            ==> !(-64 <= prev - 128 + 128 * v < 64)),
    decreases s.len(),
{
    if s.len() > 0 && s[0] >= 128 && at < 9 {
        lemma_sleb_parse_shortest(s.drop_first(), at + 1, s[0]);
        match sleb_parse(s.drop_first(), at + 1, s[0]) {
            Ok((v, rest)) => {
                let w = s[0] - 128 + 128 * v;
                assert(w % 128 == s[0] - 128);
                assert(w / 128 == v);
                assert(s =~= seq![s[0]] + s.drop_first());
                assert(s =~= leb::sleb_bytes(w) + rest);
            },
            Err(_) => {},
        }
    } else if s.len() > 0 && s[0] < 128 {
        assert(s =~= seq![s[0]] + s.drop_first());
        let v = if s[0] < 64 {
            s[0] as int
        } else {
            s[0] - 128
        };
        assert(v % 128 == s[0]);
    }
}

proof fn lemma_sleb_parse_errors(s: Seq<u8>, at: nat, prev: u8)
    requires
        at <= 9,
    ensures
        ({
            let cut = s.len() + at < 10 && (forall|i: int| 0 <= i < s.len() ==> #[trigger] s[i] >= 128);
            &&& sleb_parse(s, at, prev) == Err::<(int, Seq<u8>), _>(ParseError::Incomplete) <==> cut
            &&& sleb_parse(s, at, prev) == Err::<(int, Seq<u8>), _>(
                leb_error(Leb128Error::Leb128TooLarge),
            ) <==> leb::sleb_read(s, at) is None && !cut
            &&& sleb_parse(s, at, prev) matches Err(e) ==> e == ParseError::Incomplete || e
                == leb_error(Leb128Error::Leb128TooLarge) || e == leb_error(
                Leb128Error::Leb128Overlong,
            )
        }),
    decreases s.len(),
{
    if s.len() > 0 && s[0] >= 128 && at < 9 {
        let t = s.drop_first();
        lemma_sleb_parse_errors(t, at + 1, s[0]);
        if s.len() + at < 10 && (forall|i: int| 0 <= i < t.len() ==> #[trigger] t[i] >= 128) {
            assert forall|i: int| 0 <= i < s.len() implies #[trigger] s[i] >= 128 by {
                if i > 0 {
                    assert(s[i] == t[i - 1]);
                }
            }
        }
        if forall|i: int| 0 <= i < s.len() ==> #[trigger] s[i] >= 128 {
            assert forall|i: int| 0 <= i < t.len() implies #[trigger] t[i] >= 128 by {
                assert(t[i] == s[i + 1]);
            }
        }
    }
}

/// A signed number is parsed exactly where its shortest form stands at the
/// front. Where the bytes end in the middle of a number they are incomplete, and
/// a number that can be read in no way is too large.
pub proof fn signed_numbers_are_parsed_so(s: Seq<u8>, v: i64, rest: Seq<u8>)
    ensures
        i64_parse(s) == Ok::<_, ParseError>((v, rest)) <==> s == leb::sleb_bytes(v as int) + rest,
        i64_parse(s) == Err::<(i64, Seq<u8>), _>(ParseError::Incomplete) <==> s.len() < 10 && (
        forall|i: int| 0 <= i < s.len() ==> #[trigger] s[i] >= 128),
        i64_parse(s) == Err::<(i64, Seq<u8>), _>(
            ParseError::Error(ChangeError::Leb128(Leb128Error::Leb128TooLarge)),
        ) <==> leb::sleb_read(s, 0) is None && !(s.len() < 10 && (forall|i: int|
            0 <= i < s.len() ==> #[trigger] s[i] >= 128)),
        i64_parse(s) matches Err(e) ==> e == ParseError::Incomplete || e == ParseError::Error(
            ChangeError::Leb128(Leb128Error::Leb128TooLarge),
        ) || e == ParseError::Error(ChangeError::Leb128(Leb128Error::Leb128Overlong)),
{
    lemma_i64_parse_of_bytes(v, rest);
    lemma_sleb_parse_errors(s, 0, 0);
    lemma_sleb_parse_shortest(s, 0, 0);
    leb::lemma_leb_limits();
    lemma_sleb_parse_bounds(s, 0, 0);
}

/// A number that must fit in 32 bits or must not be zero is parsed as any other,
/// and what it must not be is an error.
pub proof fn limited_numbers_are_parsed_so(s: Seq<u8>)
    ensures
        match u64_parse(s) {
            Err(e) => u32_parse(s) == Err::<(u32, Seq<u8>), _>(e) && nonzero_u64_parse(s) == Err::<
                (u64, Seq<u8>),
                _,
            >(e),
            Ok((v, rest)) => {
                &&& v <= 0xffff_ffff ==> u32_parse(s) == Ok::<_, ParseError>((v as u32, rest))
                &&& v > 0xffff_ffff ==> u32_parse(s) == Err::<(u32, Seq<u8>), _>(
                    ParseError::Error(ChangeError::Leb128(Leb128Error::Leb128TooLarge)),
                )
                &&& v > 0 ==> nonzero_u64_parse(s) == Ok::<_, ParseError>((v, rest))
                &&& v == 0 ==> nonzero_u64_parse(s) == Err::<(u64, Seq<u8>), _>(
                    ParseError::Error(ChangeError::Leb128(Leb128Error::UnexpectedZero)),
                )
            },
        },
{
}

/// Bytes are parsed exactly where they stand at the front behind their length,
/// and a text where its UTF-8 does.
pub proof fn byte_strings_are_parsed_so(s: Seq<u8>, bytes: Seq<u8>, text: Seq<char>, rest: Seq<u8>)
    ensures
        bytes.len() <= u64::MAX ==> (bytes_parse(s) == Ok::<_, ParseError>((bytes, rest)) <==> s
            == leb::uleb_bytes(bytes.len()) + (bytes + rest)),
        vstd::utf8::encode_utf8(text).len() <= u64::MAX ==> (text_parse(s) == Ok::<_, ParseError>(
            (text, rest),
        ) <==> s == leb::uleb_bytes(vstd::utf8::encode_utf8(text).len()) + (
        vstd::utf8::encode_utf8(text) + rest)),
{
    lemma_bytes_parse_shape(s);
    let encoded = vstd::utf8::encode_utf8(text);
    if bytes.len() <= u64::MAX {
        lemma_bytes_parse_of_prefixed(bytes, rest);
        lemma_add_assoc(leb::uleb_bytes(bytes.len()), bytes, rest);
    }
    if encoded.len() <= u64::MAX {
        lemma_bytes_parse_of_prefixed(encoded, rest);
        lemma_add_assoc(leb::uleb_bytes(encoded.len()), encoded, rest);
        text::lemma_text_of_text_bytes(text);
        match bytes_parse(s) {
            Ok((b, _)) => {
                if vstd::utf8::valid_utf8(b) {
                    vstd::utf8::decode_utf8_encode_utf8(b);
                }
            },
            Err(_) => {},
        }
    }
}

pub proof fn lemma_bytes_parse_shape(s: Seq<u8>)
    ensures
        bytes_parse(s) matches Ok((b, rest)) ==> s == leb::uleb_bytes(b.len()) + (b + rest)
            && b.len() <= u64::MAX,
{
    match u64_parse(s) {
        Ok((n, on)) => {
            unsigned_numbers_are_parsed_so(s, n, on);
            if n <= on.len() {
                assert(on =~= on.take(n as int) + on.skip(n as int));
            }
        },
        Err(_) => {},
    }
}

/// Byte strings one behind the other, each behind its length where it has one.
pub proof fn lists_of_byte_strings_are_flat(parts: Seq<Seq<u8>>)
    ensures
        concat(parts) == parts.flatten(),
        concat_prefixed(parts) == parts.flat_map(
            |part: Seq<u8>| leb::uleb_bytes(part.len()) + part,
        ),
    decreases parts.len(),
{
    let f = |part: Seq<u8>| leb::uleb_bytes(part.len()) + part;
    if parts.len() > 0 {
        lists_of_byte_strings_are_flat(parts.drop_first());
        assert(parts.map_values(f).drop_first() =~= parts.drop_first().map_values(f));
    }
}

pub proof fn lemma_hashes_parse_shape(s: Seq<u8>, n: nat)
    ensures
        hashes_parse(s, n) matches Ok((hashes, rest)) ==> hashes.len() == n && s == concat(hashes)
            + rest && forall|i: int| 0 <= i < n ==> (#[trigger] hashes[i]).len() == 32,
    decreases n,
{
    if n == 0 {
        assert(concat(Seq::empty()) + s =~= s);
    } else if s.len() >= 32 {
        let on = s.skip(32);
        lemma_hashes_parse_shape(on, (n - 1) as nat);
        match hashes_parse(on, (n - 1) as nat) {
            Ok((more, rest)) => {
                let all = seq![s.take(32)] + more;
                assert(all.drop_first() =~= more);
                assert(s =~= s.take(32) + on);
                lemma_add_assoc(s.take(32), concat(more), rest);
            },
            Err(_) => {},
        }
    }
}

pub proof fn lemma_actors_parse_shape(s: Seq<u8>, n: nat)
    ensures
        actors_parse(s, n) matches Ok((actors, rest)) ==> actors.len() == n && s
            == concat_prefixed(actors) + rest,
    decreases n,
{
    if n == 0 {
        assert(concat_prefixed(Seq::empty()) + s =~= s);
    } else {
        lemma_bytes_parse_shape(s);
        match bytes_parse(s) {
            Ok((a, on)) => {
                lemma_actors_parse_shape(on, (n - 1) as nat);
                match actors_parse(on, (n - 1) as nat) {
                    Ok((more, rest)) => {
                        let all = seq![a] + more;
                        assert(all.drop_first() =~= more);
                        lemma_add_assoc(leb::uleb_bytes(a.len()), a, on);
                        lemma_add_assoc(prefixed(a), concat_prefixed(more), rest);
                    },
                    Err(_) => {},
                }
            },
            Err(_) => {},
        }
    }
}

/// Bytes behind a length fail with their length, or are incomplete where fewer
/// follow. A text fails as its bytes do, or where these are not UTF-8.
pub proof fn byte_strings_fail_so(s: Seq<u8>, n: nat)
    ensures
        take_parse(s, n) == if n <= s.len() {
            Ok::<_, ParseError>((s.take(n as int), s.skip(n as int)))
        } else {
            Err(ParseError::Incomplete)
        },
        match u64_parse(s) {
            Err(e) => bytes_parse(s) == Err::<(Seq<u8>, Seq<u8>), _>(e),
            Ok((len, rest)) => len > rest.len() ==> bytes_parse(s) == Err::<
                (Seq<u8>, Seq<u8>),
                _,
            >(ParseError::Incomplete),
        },
        match bytes_parse(s) {
            Err(e) => text_parse(s) == Err::<(Seq<char>, Seq<u8>), _>(e),
            Ok((bytes, _)) => !vstd::utf8::valid_utf8(bytes) ==> text_parse(s) == Err::<
                (Seq<char>, Seq<u8>),
                _,
            >(ParseError::Error(ChangeError::InvalidUtf8)),
        },
{
}

/// A list of hashes is parsed exactly where its count and as many times 32 bytes
/// stand at the front, and is incomplete where fewer follow.
pub proof fn lists_of_hashes_are_parsed_so(s: Seq<u8>, hashes: Seq<Seq<u8>>, rest: Seq<u8>)
    requires
        hashes.len() <= u64::MAX,
    ensures
        hash_list_parse(s) == Ok::<_, ParseError>((hashes, rest)) <==> s == leb::uleb_bytes(
            hashes.len(),
        ) + (hashes.flatten() + rest) && forall|i: int|
            0 <= i < hashes.len() ==> (#[trigger] hashes[i]).len() == 32,
        match u64_parse(s) {
            Err(e) => hash_list_parse(s) == Err::<(Seq<Seq<u8>>, Seq<u8>), _>(e),
            Ok((n, on)) => on.len() < 32 * n ==> hash_list_parse(s) == Err::<
                (Seq<Seq<u8>>, Seq<u8>),
                _,
            >(ParseError::Incomplete),
        },
{
    lists_of_byte_strings_are_flat(hashes);
    let front = hashes.flatten() + rest;
    unsigned_numbers_are_parsed_so(s, hashes.len() as u64, front);
    match u64_parse(s) {
        Ok((n, on)) => {
            unsigned_numbers_are_parsed_so(s, n, on);
            lemma_hashes_parse_shape(on, n as nat);
            lemma_hashes_parse_short(on, n as nat);
        },
        Err(_) => {},
    }
    if forall|i: int| 0 <= i < hashes.len() ==> (#[trigger] hashes[i]).len() == 32 {
        lemma_hashes_parse_of_concat(hashes, rest);
    }
}

proof fn lemma_hashes_parse_short(s: Seq<u8>, n: nat)
    ensures
        s.len() < 32 * n ==> hashes_parse(s, n) == Err::<(Seq<Seq<u8>>, Seq<u8>), _>(
            ParseError::Incomplete,
        ),
        s.len() >= 32 * n ==> hashes_parse(s, n) is Ok,
    decreases n,
{
    if n > 0 && s.len() >= 32 {
        lemma_hashes_parse_short(s.skip(32), (n - 1) as nat);
    }
}

/// A list of actors is parsed exactly where its count and as many byte strings
/// behind their lengths stand at the front.
pub proof fn lists_of_actors_are_parsed_so(s: Seq<u8>, actors: Seq<Seq<u8>>, rest: Seq<u8>)
    requires
        actors.len() <= u64::MAX,
        forall|i: int| 0 <= i < actors.len() ==> (#[trigger] actors[i]).len() <= u64::MAX,
    ensures
        actor_list_parse(s) == Ok::<_, ParseError>((actors, rest)) <==> s == leb::uleb_bytes(
            actors.len(),
        ) + (actors.flat_map(|actor: Seq<u8>| leb::uleb_bytes(actor.len()) + actor) + rest),
        u64_parse(s) matches Err(e) ==> actor_list_parse(s) == Err::<(Seq<Seq<u8>>, Seq<u8>), _>(
            e,
        ),
{
    lists_of_byte_strings_are_flat(actors);
    let front = actors.flat_map(|actor: Seq<u8>| leb::uleb_bytes(actor.len()) + actor) + rest;
    assert(actors.flat_map(|actor: Seq<u8>| leb::uleb_bytes(actor.len()) + actor)
        == actors.flat_map(|part: Seq<u8>| leb::uleb_bytes(part.len()) + part));
    unsigned_numbers_are_parsed_so(s, actors.len() as u64, front);
    match u64_parse(s) {
        Ok((n, on)) => {
            unsigned_numbers_are_parsed_so(s, n, on);
            lemma_actors_parse_shape(on, n as nat);
        },
        Err(_) => {},
    }
    lemma_actors_parse_of_concat(actors, rest);
}

/// The first of some actors fails as byte strings do, and the others behind it.
pub proof fn actors_fail_so(s: Seq<u8>, n: nat)
    requires
        n > 0,
    ensures
        match bytes_parse(s) {
            Err(e) => actors_parse(s, n) == Err::<(Seq<Seq<u8>>, Seq<u8>), _>(e),
            Ok((_, rest)) => actors_parse(rest, (n - 1) as nat) matches Err(e) ==> actors_parse(
                s,
                n,
            ) == Err::<(Seq<Seq<u8>>, Seq<u8>), _>(e),
        },
{
}

} // verus!
