//! The framing of encoded columns.
//!
//! A column is a sequence of runs. Each run starts with a signed LEB128 count:
//! a positive one stands before a single item that is repeated that often, a
//! negative one before that many items, and zero before an unsigned LEB128
//! number of nulls. A column of booleans is a sequence of unsigned LEB128
//! counts, of `false` and `true` in turn.
//!
//! The decoders assume that the bytes they are given are framed in this way.
//! This module finds how far that holds of some bytes. The run behind them, if
//! there is one, breaks off or is more than a decoder can count. Its cells up
//! to there are read here, one by one.
use crate::leb;
use crate::text;
use vstd::prelude::*;

verus! {

/// What the items of a column are.
#[derive(Clone, Copy, Debug, PartialEq, Eq, Structural)]
pub enum ItemKind {
    /// Unsigned LEB128 numbers.
    Uint,
    /// Signed LEB128 numbers, each the step from the value before to the next.
    Delta,
    /// Texts behind their length in bytes, an unsigned LEB128 number.
    Text,
}

/// The most cells that a column is written of.
pub const MAX_CELLS: u64 = 0xffff_ffff;

/// The running value of a column of `kind` can be kept: a decoder of numbers
/// keeps the sum of those that fit in 32 bits in 64 bits, one of counters the
/// last counter in 64 bits with a sign.
pub open spec fn fits(kind: ItemKind, v: int) -> bool {
    match kind {
        ItemKind::Uint => 0 <= v <= u64::MAX,
        ItemKind::Delta => i64::MIN <= v <= i64::MAX,
        ItemKind::Text => v == 0,
    }
}

/// How many bytes the item at the front of `s` takes, and what it adds to the
/// running value.
pub open spec fn item_extent(kind: ItemKind, s: Seq<u8>) -> Option<(nat, int)> {
    match kind {
        ItemKind::Uint => match leb::uleb_read(s, 0) {
            Some((v, n)) => Some(
                (
                    n,
                    if v <= u32::MAX {
                        v as int
                    } else {
                        0
                    },
                ),
            ),
            None => None,
        },
        ItemKind::Delta => match leb::sleb_read(s, 0) {
            Some((v, n)) => Some((n, v)),
            None => None,
        },
        ItemKind::Text => match leb::uleb_read(s, 0) {
            Some((len, n)) => if len <= s.len() - n && text::text_of(
                s.subrange(n as int, (n + len) as int),
            ) is Some {
                Some((n + len, 0int))
            } else {
                None
            },
            None => None,
        },
    }
}

/// How many bytes the `count` items at the front of `s` take, and the value
/// after them where `at` is the value before.
pub open spec fn items_extent(kind: ItemKind, s: Seq<u8>, count: nat, at: int) -> Option<(nat, int)>
    decreases count,
{
    if count == 0 {
        Some((0nat, at))
    } else {
        match item_extent(kind, s) {
            Some((n, step)) => if fits(kind, at + step) {
                match items_extent(kind, s.skip(n as int), (count - 1) as nat, at + step) {
                    Some((m, end)) => Some((n + m, end)),
                    None => None,
                }
            } else {
                None
            },
            None => None,
        }
    }
}

/// What is known of a run before its items are read.
pub struct RunExtent {
    /// The bytes that it takes.
    pub bytes: nat,
    /// The cells that it holds.
    pub cells: nat,
    /// The value after it.
    pub end: int,
}

/// The extent of the run at the front of `s`, where `at` is the value before.
pub open spec fn run_extent(kind: ItemKind, s: Seq<u8>, at: int) -> Option<RunExtent> {
    match leb::sleb_read(s, 0) {
        Some((count, n)) => {
            let rest = s.skip(n as int);
            if count > 0 {
                match item_extent(kind, rest) {
                    Some((m, step)) => if fits(kind, count * step) && fits(kind, at + count * step) {
                        Some(RunExtent { bytes: n + m, cells: count as nat, end: at + count * step })
                    } else {
                        None
                    },
                    None => None,
                }
            } else if count < 0 {
                match items_extent(kind, rest, (-count) as nat, at) {
                    Some((m, end)) => Some(
                        RunExtent { bytes: n + m, cells: (-count) as nat, end },
                    ),
                    None => None,
                }
            } else {
                match leb::uleb_read(rest, 0) {
                    Some((nulls, m)) => Some(RunExtent { bytes: n + m, cells: nulls, end: at }),
                    None => None,
                }
            }
        },
        None => None,
    }
}

/// How many bytes at the front of `s` are whole runs that hold at most `room`
/// cells, where `at` is the value before.
pub open spec fn runs_extent(kind: ItemKind, s: Seq<u8>, room: nat, at: int) -> nat
    decreases s.len(),
{
    match run_extent(kind, s, at) {
        Some(run) => if 0 < run.bytes <= s.len() && run.cells <= room {
            run.bytes + runs_extent(
                kind,
                s.skip(run.bytes as int),
                (room - run.cells) as nat,
                run.end,
            )
        } else {
            0
        },
        None => 0,
    }
}

/// How many bytes at the front of `s` are whole runs of a column of `kind`.
#[verifier::opaque]
pub open spec fn framed_len(kind: ItemKind, s: Seq<u8>) -> nat {
    runs_extent(kind, s, usize::MAX as nat, 0)
}

/// The value after the whole runs at the front of `s` that hold at most `room`
/// cells, where `at` is the value before.
pub open spec fn runs_value(kind: ItemKind, s: Seq<u8>, room: nat, at: int) -> int
    decreases s.len(),
{
    match run_extent(kind, s, at) {
        Some(run) => if 0 < run.bytes <= s.len() && run.cells <= room {
            runs_value(kind, s.skip(run.bytes as int), (room - run.cells) as nat, run.end)
        } else {
            at
        },
        None => at,
    }
}

/// The value after the whole runs at the front of a column of `kind`.
#[verifier::opaque]
pub open spec fn framed_value(kind: ItemKind, s: Seq<u8>) -> int {
    runs_value(kind, s, usize::MAX as nat, 0)
}

/// All of `s` is runs of a column of `kind`.
pub open spec fn framed(kind: ItemKind, s: Seq<u8>) -> bool {
    framed_len(kind, s) == s.len()
}

/// How many bytes at the front of `s` are counts of booleans that add up to at
/// most `room`.
pub open spec fn bools_extent(s: Seq<u8>, room: nat) -> nat
    decreases s.len(),
{
    match leb::uleb_read(s, 0) {
        Some((count, n)) => if 0 < n <= s.len() && count <= room {
            n + bools_extent(s.skip(n as int), (room - count) as nat)
        } else {
            0
        },
        None => 0,
    }
}

/// How many bytes at the front of `s` are counts of a column of booleans.
#[verifier::opaque]
pub open spec fn framed_bools_len(s: Seq<u8>) -> nat {
    bools_extent(s, usize::MAX as nat)
}

/// All of `s` is counts of a column of booleans.
pub open spec fn framed_bools(s: Seq<u8>) -> bool {
    framed_bools_len(s) == s.len()
}

/// What the cells behind the counts at the front of `s` are, where those of
/// the first count are `value`.
pub open spec fn bools_value(s: Seq<u8>, room: nat, value: bool) -> bool
    decreases s.len(),
{
    match leb::uleb_read(s, 0) {
        Some((count, n)) => if 0 < n <= s.len() && count <= room {
            bools_value(s.skip(n as int), (room - count) as nat, !value)
        } else {
            value
        },
        None => value,
    }
}

/// What the cells behind the counts at the front of a column of booleans are.
/// Those of the first count are `false`.
#[verifier::opaque]
pub open spec fn framed_bools_value(s: Seq<u8>) -> bool {
    bools_value(s, usize::MAX as nat, false)
}

/// How many cells the count behind those at the front of a column of booleans
/// claims.
pub open spec fn broken_bools(s: Seq<u8>) -> nat {
    match leb::uleb_read(s.skip(framed_bools_len(s) as int), 0) {
        Some((count, _)) => count,
        None => 0,
    }
}

/// Why there is nothing more behind these cells.
pub open spec fn bools_fault(s: Seq<u8>) -> Fault {
    let rest = s.skip(framed_bools_len(s) as int);
    match leb::uleb_read(rest, 0) {
        Some(_) => Fault::TooMuch,
        None => Fault::Unsigned(rest),
    }
}

// A run that breaks off.

/// How the cells of a run are given.
#[derive(Clone, Copy, Debug, PartialEq, Eq, Structural)]
pub enum RunForm {
    /// All are null.
    Nulls,
    /// All are of one item.
    Repeat,
    /// Each has an item.
    Literal,
    /// There are none, for the count in front of them cannot be read.
    NoCount,
    /// There are none, for the number of nulls cannot be read.
    NoNulls,
}

/// Why a column goes on with bytes that hold no cell.
pub enum Fault {
    /// No signed number can be read of these bytes.
    Signed(Seq<u8>),
    /// No unsigned number can be read of these bytes.
    Unsigned(Seq<u8>),
    /// No text can be read of these bytes.
    Text(Seq<u8>),
    /// The cells or their sum are more than a decoder can count.
    TooMuch,
}

/// What is left of a run that breaks off.
pub struct Broken {
    pub kind: ItemKind,
    pub form: RunForm,
    /// The cells that the run still claims.
    pub left: nat,
    /// The bytes from its next item on.
    pub rest: Seq<u8>,
    /// The counter before its next item. Only a column of counters keeps one.
    pub at: int,
}

/// A cell of a run that is not null: the bytes of its item, and the counter
/// after it.
pub struct Piece {
    pub item: Seq<u8>,
    pub value: int,
}

/// The counter after a step.
pub open spec fn counter_after(kind: ItemKind, at: int, step: int) -> int {
    match kind {
        ItemKind::Delta => at + step,
        _ => 0,
    }
}

impl Broken {
    /// The next cell, and what is left behind it; `None` where the run breaks
    /// off.
    pub open spec fn piece(self) -> Option<(Option<Piece>, Broken)> {
        if self.left == 0 {
            None
        } else {
            let left = (self.left - 1) as nat;
            match self.form {
                RunForm::NoCount | RunForm::NoNulls => None,
                RunForm::Nulls => Some((None, Broken { left, ..self })),
                RunForm::Repeat | RunForm::Literal => match item_extent(self.kind, self.rest) {
                    Some((n, step)) => {
                        let value = counter_after(self.kind, self.at, step);
                        let rest = if self.form is Literal {
                            self.rest.skip(n as int)
                        } else {
                            self.rest
                        };
                        if i64::MIN <= value <= i64::MAX {
                            Some(
                                (
                                    Some(Piece { item: self.rest.take(n as int), value }),
                                    Broken { left, rest, at: value, ..self },
                                ),
                            )
                        } else {
                            None
                        }
                    },
                    None => None,
                },
            }
        }
    }

    /// The cells before the run breaks off.
    pub open spec fn pieces(self) -> Seq<Option<Piece>>
        decreases self.left,
    {
        match self.piece() {
            Some((piece, next)) => seq![piece] + next.pieces(),
            None => Seq::empty(),
        }
    }

    /// What is left where the run breaks off.
    pub open spec fn end(self) -> Broken
        decreases self.left,
    {
        match self.piece() {
            Some((_, next)) => next.end(),
            None => self,
        }
    }

    /// Why the run breaks off where no cell can be read of it.
    pub open spec fn fault(self) -> Fault {
        match self.form {
            RunForm::NoCount => Fault::Signed(self.rest),
            RunForm::NoNulls => Fault::Unsigned(self.rest),
            RunForm::Nulls => Fault::TooMuch,
            RunForm::Repeat | RunForm::Literal => if self.left == 0 || item_extent(
                self.kind,
                self.rest,
            ) is Some {
                Fault::TooMuch
            } else {
                match self.kind {
                    ItemKind::Uint => Fault::Unsigned(self.rest),
                    ItemKind::Delta => Fault::Signed(self.rest),
                    ItemKind::Text => Fault::Text(self.rest),
                }
            },
        }
    }
}

/// The run at the front of `s`, before any of it is read.
pub open spec fn run_at(kind: ItemKind, s: Seq<u8>, at: int) -> Broken {
    let at = counter_after(kind, at, 0);
    match leb::sleb_read(s, 0) {
        Some((count, n)) => {
            let rest = s.skip(n as int);
            if count > 0 {
                Broken { kind, form: RunForm::Repeat, left: count as nat, rest, at }
            } else if count < 0 {
                Broken { kind, form: RunForm::Literal, left: (-count) as nat, rest, at }
            } else {
                match leb::uleb_read(rest, 0) {
                    Some((nulls, _)) => Broken { kind, form: RunForm::Nulls, left: nulls, rest, at },
                    None => Broken { kind, form: RunForm::NoNulls, left: 0, rest, at },
                }
            }
        },
        None => Broken { kind, form: RunForm::NoCount, left: 0, rest: s, at },
    }
}

/// The run behind the whole runs at the front of a column of `kind`. One that is
/// whole, but with which the cells or their sum leave 64 bits, is read to its
/// end; what stands behind it is not.
pub open spec fn broken(kind: ItemKind, s: Seq<u8>) -> Broken {
    run_at(kind, s.skip(framed_len(kind, s) as int), framed_value(kind, s))
}

/// Behind a framed column there is nothing.
pub proof fn lemma_framed_is_not_broken(kind: ItemKind, s: Seq<u8>)
    requires
        framed(kind, s),
    ensures
        broken(kind, s).pieces().len() == 0,
{
}

/// Behind a framed column of booleans there is nothing.
pub proof fn lemma_framed_bools_are_not_broken(s: Seq<u8>)
    requires
        framed_bools(s),
    ensures
        broken_bools(s) == 0,
{
}

proof fn lemma_item_extent_bounds(kind: ItemKind, s: Seq<u8>)
    ensures
        item_extent(kind, s) matches Some((n, step)) ==> 0 < n <= s.len() && i64::MIN <= step <= i64::MAX,
{
    leb::lemma_leb_limits();
    leb::lemma_uleb_read_bounds(s, 0);
    leb::lemma_sleb_read_bounds(s, 0);
}

proof fn lemma_items_extent_bounds(kind: ItemKind, s: Seq<u8>, count: nat, at: int)
    requires
        fits(kind, at),
    ensures
        items_extent(kind, s, count, at) matches Some((n, end)) ==> count <= n <= s.len() && fits(kind, end),
    decreases count,
{
    if count > 0 {
        lemma_item_extent_bounds(kind, s);
        match item_extent(kind, s) {
            Some((n, step)) => {
                if fits(kind, at + step) {
                    lemma_items_extent_bounds(kind, s.skip(n as int), (count - 1) as nat, at + step);
                }
            },
            None => {},
        }
    }
}

proof fn lemma_run_extent_bounds(kind: ItemKind, s: Seq<u8>, at: int)
    requires
        fits(kind, at),
    ensures
        run_extent(kind, s, at) matches Some(run) ==> 0 < run.bytes <= s.len() && fits(kind, run.end)
            && run.cells <= u64::MAX,
{
    leb::lemma_leb_limits();
    leb::lemma_sleb_read_bounds(s, 0);
    match leb::sleb_read(s, 0) {
        Some((count, n)) => {
            let rest = s.skip(n as int);
            lemma_item_extent_bounds(kind, rest);
            leb::lemma_uleb_read_bounds(rest, 0);
            if count < 0 {
                lemma_items_extent_bounds(kind, rest, (-count) as nat, at);
            }
        },
        None => {},
    }
}

pub proof fn lemma_framed_len_bounds(kind: ItemKind, s: Seq<u8>, room: nat, at: int)
    ensures
        runs_extent(kind, s, room, at) <= s.len(),
    decreases s.len(),
{
    match run_extent(kind, s, at) {
        Some(run) => {
            if 0 < run.bytes <= s.len() && run.cells <= room {
                lemma_framed_len_bounds(
                    kind,
                    s.skip(run.bytes as int),
                    (room - run.cells) as nat,
                    run.end,
                );
            }
        },
        None => {},
    }
}

proof fn lemma_item_extent_prefix(kind: ItemKind, s: Seq<u8>, k: nat)
    requires
        k <= s.len(),
        item_extent(kind, s) matches Some((n, _)) && n <= k,
    ensures
        item_extent(kind, s.take(k as int)) == item_extent(kind, s),
{
    let t = s.take(k as int);
    lemma_item_extent_bounds(kind, s);
    match kind {
        ItemKind::Uint => {
            match leb::uleb_read(s, 0) {
                Some((_, n)) => assert(t.take(n as int) =~= s.take(n as int)),
                None => {},
            }
            leb::lemma_uleb_read_prefix(s, t, 0);
        },
        ItemKind::Delta => {
            match leb::sleb_read(s, 0) {
                Some((_, n)) => assert(t.take(n as int) =~= s.take(n as int)),
                None => {},
            }
            leb::lemma_sleb_read_prefix(s, t, 0);
        },
        ItemKind::Text => {
            match leb::uleb_read(s, 0) {
                Some((len, n)) => {
                    assert(t.take(n as int) =~= s.take(n as int));
                    assert(t.subrange(n as int, (n + len) as int) =~= s.subrange(
                        n as int,
                        (n + len) as int,
                    ));
                },
                None => {},
            }
            leb::lemma_uleb_read_prefix(s, t, 0);
        },
    }
}

proof fn lemma_items_extent_prefix(kind: ItemKind, s: Seq<u8>, count: nat, at: int, k: nat)
    requires
        k <= s.len(),
        fits(kind, at),
        items_extent(kind, s, count, at) matches Some((n, _)) && n <= k,
    ensures
        items_extent(kind, s.take(k as int), count, at) == items_extent(kind, s, count, at),
    decreases count,
{
    if count > 0 {
        match item_extent(kind, s) {
            Some((n, step)) => {
                lemma_item_extent_bounds(kind, s);
                lemma_items_extent_bounds(kind, s.skip(n as int), (count - 1) as nat, at + step);
                lemma_item_extent_prefix(kind, s, k);
                assert(s.take(k as int).skip(n as int) =~= s.skip(n as int).take(k - n));
                lemma_items_extent_prefix(
                    kind,
                    s.skip(n as int),
                    (count - 1) as nat,
                    at + step,
                    (k - n) as nat,
                );
            },
            None => {},
        }
    }
}

proof fn lemma_run_extent_prefix(kind: ItemKind, s: Seq<u8>, at: int, k: nat)
    requires
        k <= s.len(),
        fits(kind, at),
        run_extent(kind, s, at) matches Some(run) && run.bytes <= k,
    ensures
        run_extent(kind, s.take(k as int), at) == run_extent(kind, s, at),
{
    let t = s.take(k as int);
    lemma_run_extent_bounds(kind, s, at);
    leb::lemma_sleb_read_bounds(s, 0);
    match leb::sleb_read(s, 0) {
        Some((count, n)) => {
            let rest = s.skip(n as int);
            assert(t.take(n as int) =~= s.take(n as int));
            leb::lemma_sleb_read_prefix(s, t, 0);
            assert(t.skip(n as int) =~= rest.take(k - n));
            if count > 0 {
                lemma_item_extent_prefix(kind, rest, (k - n) as nat);
            } else if count < 0 {
                lemma_items_extent_prefix(kind, rest, (-count) as nat, at, (k - n) as nat);
            } else {
                leb::lemma_uleb_read_bounds(rest, 0);
                match leb::uleb_read(rest, 0) {
                    Some((_, m)) => assert(rest.take(k - n).take(m as int) =~= rest.take(m as int)),
                    None => {},
                }
                leb::lemma_uleb_read_prefix(rest, rest.take(k - n), 0);
            }
        },
        None => {},
    }
}

proof fn lemma_runs_extent_prefix(kind: ItemKind, s: Seq<u8>, room: nat, at: int)
    requires
        fits(kind, at),
    ensures
        ({
            let n = runs_extent(kind, s, room, at);
            n <= s.len() && runs_extent(kind, s.take(n as int), room, at) == n
        }),
    decreases s.len(),
{
    lemma_framed_len_bounds(kind, s, room, at);
    let n = runs_extent(kind, s, room, at);
    let t = s.take(n as int);
    match run_extent(kind, s, at) {
        Some(run) => {
            lemma_run_extent_bounds(kind, s, at);
            if run.cells <= room {
                let rest = s.skip(run.bytes as int);
                lemma_runs_extent_prefix(kind, rest, (room - run.cells) as nat, run.end);
                lemma_run_extent_prefix(kind, s, at, n);
                assert(t.skip(run.bytes as int) =~= rest.take(n - run.bytes));
            } else {
                lemma_run_extent_bounds(kind, t, at);
            }
        },
        None => {
            lemma_run_extent_bounds(kind, t, at);
        },
    }
}

/// The framed front of a column is itself framed.
pub proof fn lemma_framed_front(kind: ItemKind, s: Seq<u8>)
    ensures
        framed_len(kind, s) <= s.len(),
        framed(kind, s.take(framed_len(kind, s) as int)),
{
    reveal(framed_len);
    lemma_runs_extent_prefix(kind, s, usize::MAX as nat, 0);
}

proof fn lemma_bools_extent_prefix(s: Seq<u8>, room: nat)
    ensures
        ({
            let n = bools_extent(s, room);
            n <= s.len() && bools_extent(s.take(n as int), room) == n
        }),
    decreases s.len(),
{
    leb::lemma_uleb_read_bounds(s, 0);
    match leb::uleb_read(s, 0) {
        Some((count, m)) => {
            if count <= room {
                let rest = s.skip(m as int);
                lemma_bools_extent_prefix(rest, (room - count) as nat);
                let n = bools_extent(s, room);
                let t = s.take(n as int);
                assert(t.take(m as int) =~= s.take(m as int));
                leb::lemma_uleb_read_prefix(s, t, 0);
                assert(t.skip(m as int) =~= rest.take(n - m));
            } else {
                assert(leb::uleb_read(s.take(0), 0) is None);
            }
        },
        None => {
            assert(leb::uleb_read(s.take(0), 0) is None);
        },
    }
}

/// The framed front of a column of booleans is itself framed.
pub proof fn lemma_framed_bools_front(s: Seq<u8>)
    ensures
        framed_bools_len(s) <= s.len(),
        framed_bools(s.take(framed_bools_len(s) as int)),
{
    reveal(framed_bools_len);
    lemma_bools_extent_prefix(s, usize::MAX as nat);
}

fn value_fits(kind: ItemKind, v: i128) -> (r: bool)
    ensures
        r == fits(kind, v as int),
{
    match kind {
        ItemKind::Uint => 0 <= v && v <= 0xffff_ffff_ffff_ffff,
        ItemKind::Delta => -0x8000_0000_0000_0000 <= v && v <= 0x7fff_ffff_ffff_ffff,
        ItemKind::Text => v == 0,
    }
}

proof fn lemma_product_bound(a: int, b: int)
    requires
        i64::MIN <= a <= i64::MAX,
        i64::MIN <= b <= i64::MAX,
    ensures
        -0x4000_0000_0000_0000_0000_0000_0000_0000 <= a * b
            <= 0x4000_0000_0000_0000_0000_0000_0000_0000,
{
    assert(-0x4000_0000_0000_0000_0000_0000_0000_0000 <= a * b
        <= 0x4000_0000_0000_0000_0000_0000_0000_0000) by (nonlinear_arith)
        requires
            -0x8000_0000_0000_0000 <= a <= 0x8000_0000_0000_0000,
            -0x8000_0000_0000_0000 <= b <= 0x8000_0000_0000_0000,
    ;
}

/// The extent of the item at the front of `s`.
fn measure_item(kind: ItemKind, s: &[u8]) -> (r: Option<(usize, i64)>)
    ensures
        r matches Some((n, step)) ==> item_extent(kind, s@) == Some((n as nat, step as int)),
        r is None ==> item_extent(kind, s@) is None,
{
    proof {
        leb::lemma_leb_limits();
        leb::lemma_uleb_read_bounds(s@, 0);
        leb::lemma_sleb_read_bounds(s@, 0);
    }
    match kind {
        ItemKind::Uint => match leb::read_unsigned(s) {
            Some((v, n)) => if v <= 0xffff_ffff {
                Some((n, v as i64))
            } else {
                Some((n, 0))
            },
            None => None,
        },
        ItemKind::Delta => match leb::read_signed(s) {
            Some((v, n)) => Some((n, v)),
            None => None,
        },
        ItemKind::Text => match leb::read_unsigned(s) {
            Some((len, n)) => {
                if len <= (s.len() - n) as u64 {
                    let end: usize = n + len as usize;
                    match text::read_text(&s[n..end]) {
                        Some(_) => Some((end, 0)),
                        None => None,
                    }
                } else {
                    None
                }
            },
            None => None,
        },
    }
}

/// The extent of the `count` items at the front of `s`.
fn measure_items(kind: ItemKind, s: &[u8], count: u64, at: i128) -> (r: Option<(usize, i128)>)
    requires
        fits(kind, at as int),
    ensures
        r matches Some((n, end)) ==> items_extent(kind, s@, count as nat, at as int) == Some(
            (n as nat, end as int),
        ),
        r is None ==> items_extent(kind, s@, count as nat, at as int) is None,
{
    let mut done: u64 = 0;
    let mut pos: usize = 0;
    let mut value: i128 = at;
    proof {
        assert(s@.skip(0) =~= s@);
    }
    while done < count
        invariant
            done <= count,
            pos <= s@.len(),
            fits(kind, value as int),
            items_extent(kind, s@, count as nat, at as int) == match items_extent(
                kind,
                s@.skip(pos as int),
                (count - done) as nat,
                value as int,
            ) {
                Some((m, end)) => Some(((pos + m) as nat, end)),
                None => None::<(nat, int)>,
            },
        decreases count - done,
    {
        let rest = &s[pos..s.len()];
        proof {
            assert(rest@ =~= s@.skip(pos as int));
            lemma_item_extent_bounds(kind, rest@);
        }
        match measure_item(kind, rest) {
            Some((n, step)) => {
                value += step as i128;
                if !value_fits(kind, value) {
                    return None;
                }
                proof {
                    assert(s@.skip(pos as int).skip(n as int) =~= s@.skip(pos + n));
                }
                pos += n;
                done += 1;
            },
            None => {
                return None;
            },
        }
    }
    Some((pos, value))
}

/// How many items stand behind a negative count.
fn literals(count: i64) -> (r: u64)
    requires
        count < 0,
    ensures
        r == -count,
{
    if count == i64::MIN {
        0x8000_0000_0000_0000
    } else {
        (-count) as u64
    }
}

/// The bytes, the cells and the value after the run at the front of `s`.
fn measure_run(kind: ItemKind, s: &[u8], at: i128) -> (r: Option<(usize, u64, i128)>)
    requires
        fits(kind, at as int),
    ensures
        r matches Some((n, cells, end)) ==> run_extent(kind, s@, at as int) == Some(
            RunExtent { bytes: n as nat, cells: cells as nat, end: end as int },
        ),
        r is None ==> run_extent(kind, s@, at as int) is None,
{
    proof {
        leb::lemma_leb_limits();
        leb::lemma_sleb_read_bounds(s@, 0);
    }
    let (count, n): (i64, usize) = match leb::read_signed(s) {
        Some(read) => read,
        None => {
            return None;
        },
    };
    let rest = &s[n..s.len()];
    proof {
        assert(rest@ =~= s@.skip(n as int));
        lemma_item_extent_bounds(kind, rest@);
        leb::lemma_uleb_read_bounds(rest@, 0);
    }
    if count > 0 {
        match measure_item(kind, rest) {
            Some((m, step)) => {
                proof {
                    lemma_product_bound(count as int, step as int);
                }
                let sum: i128 = count as i128 * step as i128;
                if value_fits(kind, sum) && value_fits(kind, at + sum) {
                    Some((n + m, count as u64, at + sum))
                } else {
                    None
                }
            },
            None => None,
        }
    } else if count < 0 {
        let items: u64 = literals(count);
        proof {
            lemma_items_extent_bounds(kind, rest@, items as nat, at as int);
        }
        match measure_items(kind, rest, items, at) {
            Some((m, end)) => Some((n + m, items, end)),
            None => None,
        }
    } else {
        match leb::read_unsigned(rest) {
            Some((nulls, m)) => Some((n + m, nulls, at)),
            None => None,
        }
    }
}

/// A run that breaks off.
#[derive(Clone, Copy)]
pub struct BrokenRun<'a> {
    kind: ItemKind,
    form: RunForm,
    left: u64,
    rest: &'a [u8],
    at: i64,
}

impl<'a> View for BrokenRun<'a> {
    type V = Broken;

    closed spec fn view(&self) -> Broken {
        Broken {
            kind: self.kind,
            form: self.form,
            left: self.left as nat,
            rest: self.rest@,
            at: self.at as int,
        }
    }
}

/// The model of a cell of a run.
pub open spec fn piece_of(cell: Option<(&[u8], i64)>) -> Option<Piece> {
    match cell {
        Some((item, value)) => Some(Piece { item: item@, value: value as int }),
        None => None,
    }
}

impl<'a> BrokenRun<'a> {
    /// The run at the front of `s`.
    fn new(kind: ItemKind, s: &'a [u8], at: i64) -> (r: Self)
        requires
            kind != ItemKind::Delta ==> at == 0,
        ensures
            r@ == run_at(kind, s@, at as int),
    {
        proof {
            leb::lemma_leb_limits();
            leb::lemma_sleb_read_bounds(s@, 0);
        }
        match leb::read_signed(s) {
            Some((count, n)) => {
                let rest = &s[n..s.len()];
                proof {
                    assert(rest@ =~= s@.skip(n as int));
                    leb::lemma_uleb_read_bounds(rest@, 0);
                }
                if count > 0 {
                    BrokenRun { kind, form: RunForm::Repeat, left: count as u64, rest, at }
                } else if count < 0 {
                    BrokenRun { kind, form: RunForm::Literal, left: literals(count), rest, at }
                } else {
                    match leb::read_unsigned(rest) {
                        Some((nulls, _)) => BrokenRun {
                            kind,
                            form: RunForm::Nulls,
                            left: nulls,
                            rest,
                            at,
                        },
                        None => BrokenRun { kind, form: RunForm::NoNulls, left: 0, rest, at },
                    }
                }
            },
            None => BrokenRun { kind, form: RunForm::NoCount, left: 0, rest: s, at },
        }
    }

    /// Takes the next cell: its item and the counter after it, or a null.
    pub(crate) fn next(&mut self) -> (r: Option<Option<(&'a [u8], i64)>>)
        ensures
            match old(self)@.piece() {
                Some((piece, next)) => final(self)@ == next && r is Some && piece_of(r->0)
                    == piece,
                None => final(self)@ == old(self)@ && r is None,
            },
    {
        if self.left == 0 {
            return None;
        }
        match self.form {
            RunForm::NoCount | RunForm::NoNulls => None,
            RunForm::Nulls => {
                self.left -= 1;
                Some(None)
            },
            RunForm::Repeat | RunForm::Literal => {
                let rest = self.rest;
                proof {
                    lemma_item_extent_bounds(self.kind, rest@);
                }
                let (n, step): (usize, i64) = match measure_item(self.kind, rest) {
                    Some(extent) => extent,
                    None => {
                        return None;
                    },
                };
                let mut value: i64 = 0;
                if self.kind == ItemKind::Delta {
                    let after: i128 = self.at as i128 + step as i128;
                    if !value_fits(ItemKind::Delta, after) {
                        return None;
                    }
                    value = after as i64;
                }
                let item = &rest[0..n];
                proof {
                    assert(item@ =~= rest@.take(n as int));
                }
                if self.form == RunForm::Literal {
                    self.rest = &rest[n..rest.len()];
                    proof {
                        assert(self.rest@ =~= rest@.skip(n as int));
                    }
                }
                self.left -= 1;
                self.at = value;
                Some(Some((item, value)))
            },
        }
    }
}

/// Why a column goes on with bytes that hold no cell.
pub enum RunFault<'a> {
    Signed(&'a [u8]),
    Unsigned(&'a [u8]),
    Text(&'a [u8]),
    TooMuch,
}

impl<'a> View for RunFault<'a> {
    type V = Fault;

    open spec fn view(&self) -> Fault {
        match self {
            RunFault::Signed(bytes) => Fault::Signed(bytes@),
            RunFault::Unsigned(bytes) => Fault::Unsigned(bytes@),
            RunFault::Text(bytes) => Fault::Text(bytes@),
            RunFault::TooMuch => Fault::TooMuch,
        }
    }
}

impl<'a> BrokenRun<'a> {
    /// Why no cell can be read of the run.
    pub(crate) fn fault(&self) -> (r: RunFault<'a>)
        ensures
            r@ == self@.fault(),
    {
        match self.form {
            RunForm::NoCount => RunFault::Signed(self.rest),
            RunForm::NoNulls => RunFault::Unsigned(self.rest),
            RunForm::Nulls => RunFault::TooMuch,
            RunForm::Repeat | RunForm::Literal => {
                if self.left == 0 {
                    return RunFault::TooMuch;
                }
                match measure_item(self.kind, self.rest) {
                    Some(_) => RunFault::TooMuch,
                    None => match self.kind {
                        ItemKind::Uint => RunFault::Unsigned(self.rest),
                        ItemKind::Delta => RunFault::Signed(self.rest),
                        ItemKind::Text => RunFault::Text(self.rest),
                    },
                }
            },
        }
    }
}

/// How many bytes at the front of `s` are whole runs of a column of `kind`, and
/// the run behind them.
pub(crate) fn measure<'a>(kind: ItemKind, s: &'a [u8]) -> (r: (usize, BrokenRun<'a>))
    ensures
        r.0 == framed_len(kind, s@),
        r.1@ == broken(kind, s@),
{
    let mut pos: usize = 0;
    let mut room: u64 = usize::MAX as u64;
    let mut at: i128 = 0;
    let mut whole: bool = true;
    proof {
        reveal(framed_len);
        reveal(framed_value);
        assert(s@.skip(0) =~= s@);
    }
    while whole && pos < s.len()
        invariant
            pos <= s@.len(),
            fits(kind, at as int),
            whole ==> framed_len(kind, s@) == pos + runs_extent(
                kind,
                s@.skip(pos as int),
                room as nat,
                at as int,
            ),
            whole ==> framed_value(kind, s@) == runs_value(
                kind,
                s@.skip(pos as int),
                room as nat,
                at as int,
            ),
            !whole ==> framed_len(kind, s@) == pos && framed_value(kind, s@) == at,
        decreases s.len() - pos, (if whole { 1int } else { 0int }),
    {
        let rest = &s[pos..s.len()];
        proof {
            assert(rest@ =~= s@.skip(pos as int));
            lemma_run_extent_bounds(kind, rest@, at as int);
        }
        match measure_run(kind, rest, at) {
            Some((n, cells, end)) => {
                if cells > room {
                    whole = false;
                } else {
                    proof {
                        assert(s@.skip(pos as int).skip(n as int) =~= s@.skip(pos + n));
                    }
                    pos += n;
                    room -= cells;
                    at = end;
                }
            },
            None => {
                whole = false;
            },
        }
    }
    let rest = &s[pos..s.len()];
    proof {
        assert(rest@ =~= s@.skip(pos as int));
        if whole {
            assert(leb::sleb_read(rest@, 0) is None);
        }
    }
    let counter: i64 = match kind {
        ItemKind::Delta => at as i64,
        _ => 0,
    };
    (pos, BrokenRun::new(kind, rest, counter))
}

/// A count of booleans that cannot be read, or is more than a decoder can count.
#[derive(Clone, Copy)]
pub struct BrokenBools<'a> {
    pub left: u64,
    pub value: bool,
    /// The bytes of the count, where it cannot be read.
    pub unread: Option<&'a [u8]>,
}

impl<'a> BrokenBools<'a> {
    /// Why there is nothing more behind the cells.
    pub open spec fn spec_fault(self) -> Fault {
        match self.unread {
            Some(bytes) => Fault::Unsigned(bytes@),
            None => Fault::TooMuch,
        }
    }

    pub(crate) fn fault(&self) -> (r: RunFault<'a>)
        ensures
            r@ == self.spec_fault(),
    {
        match self.unread {
            Some(bytes) => RunFault::Unsigned(bytes),
            None => RunFault::TooMuch,
        }
    }
}

/// How many bytes at the front of `s` are counts of a column of booleans, and
/// the cells behind them.
pub(crate) fn measure_bools<'a>(s: &'a [u8]) -> (r: (usize, BrokenBools<'a>))
    ensures
        r.0 == framed_bools_len(s@),
        r.1.left == broken_bools(s@),
        r.1.value == framed_bools_value(s@),
        r.1.spec_fault() == bools_fault(s@),
{
    let mut pos: usize = 0;
    let mut room: u64 = usize::MAX as u64;
    let mut value: bool = false;
    proof {
        reveal(framed_bools_len);
        reveal(framed_bools_value);
        assert(s@.skip(0) =~= s@);
        leb::lemma_leb_limits();
    }
    while pos < s.len()
        invariant
            pos <= s@.len(),
            leb::uleb_limit(0) == 0x1_0000_0000_0000_0000,
            framed_bools_len(s@) == pos + bools_extent(s@.skip(pos as int), room as nat),
            framed_bools_value(s@) == bools_value(s@.skip(pos as int), room as nat, value),
        decreases s.len() - pos,
    {
        let rest = &s[pos..s.len()];
        proof {
            assert(rest@ =~= s@.skip(pos as int));
            leb::lemma_uleb_read_bounds(rest@, 0);
        }
        match leb::read_unsigned(rest) {
            Some((count, n)) => {
                if count > room {
                    return (pos, BrokenBools { left: count, value, unread: None });
                }
                proof {
                    assert(s@.skip(pos as int).skip(n as int) =~= s@.skip(pos + n));
                }
                pos += n;
                room -= count;
                value = !value;
            },
            None => {
                return (pos, BrokenBools { left: 0, value, unread: Some(rest) });
            },
        }
    }
    let rest = &s[pos..s.len()];
    assert(rest@ =~= s@.skip(pos as int));
    (pos, BrokenBools { left: 0, value, unread: Some(rest) })
}

// What is framed.

/// The bytes are those of an item, and this is what it adds to the running value:
/// a number of at most 32 bits, the step of a counter, and nothing for a larger
/// number or a text.
pub open spec fn is_item(kind: ItemKind, item: Seq<u8>, step: int) -> bool {
    match kind {
        ItemKind::Uint => exists|v: u64| item == #[trigger] leb::uleb_bytes(v as nat) && step == (
        if v < 0x1_0000_0000 {
            v as int
        } else {
            0
        }),
        ItemKind::Delta => -0x8000_0000_0000_0000 <= step <= 0x7fff_ffff_ffff_ffff && item
            == leb::sleb_bytes(step),
        ItemKind::Text => step == 0 && exists|text: Seq<char>|
            #[trigger] vstd::utf8::encode_utf8(text).len() <= u64::MAX && item == leb::uleb_bytes(
                vstd::utf8::encode_utf8(text).len(),
            ) + vstd::utf8::encode_utf8(text),
    }
}

proof fn lemma_is_item(kind: ItemKind, item: Seq<u8>, step: int, rest: Seq<u8>)
    requires
        is_item(kind, item, step),
    ensures
        item_extent(kind, item + rest) == Some((item.len(), step)),
        item.len() > 0,
{
    leb::lemma_leb_limits();
    match kind {
        ItemKind::Uint => {
            let v = choose|v: u64| item == #[trigger] leb::uleb_bytes(v as nat) && step == (if v
                < 0x1_0000_0000 {
                v as int
            } else {
                0
            });
            leb::lemma_uleb_read_of_bytes(v as nat, rest, 0);
        },
        ItemKind::Delta => {
            leb::lemma_sleb_read_of_bytes(step, rest, 0);
        },
        ItemKind::Text => {
            let t = choose|text: Seq<char>|
                #[trigger] vstd::utf8::encode_utf8(text).len() <= u64::MAX && item
                    == leb::uleb_bytes(vstd::utf8::encode_utf8(text).len())
                    + vstd::utf8::encode_utf8(text);
            let encoded = vstd::utf8::encode_utf8(t);
            let front = leb::uleb_bytes(encoded.len());
            leb::lemma_uleb_read_of_bytes(encoded.len(), encoded + rest, 0);
            assert(item + rest =~= front + (encoded + rest));
            assert((item + rest).subrange(
                front.len() as int,
                (front.len() + encoded.len()) as int,
            ) =~= encoded);
            text::lemma_text_of_text_bytes(t);
        },
    }
}

/// A zero and a number are a run of that many nulls, where there is room for
/// them.
pub proof fn nulls_are_framed_so(kind: ItemKind, m: u64, rest: Seq<u8>, room: nat, at: int)
    ensures
        runs_extent(kind, seq![0u8] + leb::uleb_bytes(m as nat) + rest, room, at) == if m <= room {
            1 + leb::uleb_bytes(m as nat).len() + runs_extent(
                kind,
                rest,
                (room - m) as nat,
                at,
            )
        } else {
            0
        },
{
    let len = leb::uleb_bytes(m as nat);
    let s = seq![0u8] + len + rest;
    leb::lemma_leb_limits();
    assert(leb::sleb_bytes(0) =~= seq![0u8]);
    assert(s =~= leb::sleb_bytes(0) + (len + rest));
    leb::lemma_sleb_read_of_bytes(0, len + rest, 0);
    assert(s.skip(1) =~= len + rest);
    leb::lemma_uleb_read_of_bytes(m as nat, rest, 0);
    assert(s.skip(1 + len.len() as int) =~= rest);
}

/// A positive number and an item are a run of that many times the item, where
/// there is room for them and the running value stays in 64 bits.
pub proof fn repeats_are_framed_so(
    kind: ItemKind,
    n: i64,
    item: Seq<u8>,
    step: int,
    rest: Seq<u8>,
    room: nat,
    at: int,
)
    requires
        n > 0,
        is_item(kind, item, step),
    ensures
        ({
            let count = leb::sleb_bytes(n as int);
            let kept = |v: int|
                match kind {
                    ItemKind::Uint => 0 <= v <= 0xffff_ffff_ffff_ffff,
                    ItemKind::Delta => -0x8000_0000_0000_0000 <= v <= 0x7fff_ffff_ffff_ffff,
                    ItemKind::Text => v == 0,
                };
            runs_extent(kind, count + item + rest, room, at) == if n <= room && kept(n * step)
                && kept(at + n * step) {
                count.len() + item.len() + runs_extent(
                    kind,
                    rest,
                    (room - n) as nat,
                    at + n * step,
                )
            } else {
                0
            }
        }),
{
    let count = leb::sleb_bytes(n as int);
    let s = count + item + rest;
    leb::lemma_leb_limits();
    assert(s =~= count + (item + rest));
    leb::lemma_sleb_read_of_bytes(n as int, item + rest, 0);
    assert(s.skip(count.len() as int) =~= item + rest);
    lemma_is_item(kind, item, step, rest);
    assert(s.skip((count.len() + item.len()) as int) =~= rest);
}

/// The first of some items is read, and the others behind it, where the running
/// value stays in 64 bits.
pub proof fn items_are_framed_so(
    kind: ItemKind,
    item: Seq<u8>,
    step: int,
    rest: Seq<u8>,
    count: nat,
    at: int,
)
    requires
        is_item(kind, item, step),
    ensures
        items_extent(kind, item + rest, 0, at) == Some((0nat, at)),
        ({
            let kept = match kind {
                ItemKind::Uint => 0 <= at + step <= 0xffff_ffff_ffff_ffff,
                ItemKind::Delta => -0x8000_0000_0000_0000 <= at + step <= 0x7fff_ffff_ffff_ffff,
                ItemKind::Text => at + step == 0,
            };
            items_extent(kind, item + rest, count + 1, at) == match items_extent(
                kind,
                rest,
                count,
                at + step,
            ) {
                Some((n, end)) => if kept {
                    Some((item.len() + n, end))
                } else {
                    None
                },
                None => None,
            }
        }),
{
    lemma_is_item(kind, item, step, rest);
    assert((item + rest).skip(item.len() as int) =~= rest);
}

/// A negative number and as many items are a run of these items, where there is
/// room for them.
pub proof fn literals_are_framed_so(kind: ItemKind, n: i64, s: Seq<u8>, room: nat, at: int)
    requires
        n < 0,
        fits(kind, at),
    ensures
        ({
            let count = leb::sleb_bytes(n as int);
            runs_extent(kind, count + s, room, at) == match items_extent(
                kind,
                s,
                (-n) as nat,
                at,
            ) {
                Some((len, end)) => if -n <= room {
                    count.len() + len + runs_extent(
                        kind,
                        s.skip(len as int),
                        (room + n) as nat,
                        end,
                    )
                } else {
                    0
                },
                None => 0,
            }
        }),
{
    let count = leb::sleb_bytes(n as int);
    leb::lemma_leb_limits();
    leb::lemma_sleb_read_of_bytes(n as int, s, 0);
    assert((count + s).skip(count.len() as int) =~= s);
    lemma_items_extent_bounds(kind, s, (-n) as nat, at);
    match items_extent(kind, s, (-n) as nat, at) {
        Some((len, _)) => {
            assert((count + s).skip((count.len() + len) as int) =~= s.skip(len as int));
        },
        None => {},
    }
}

/// A column is framed where all of it is runs, with room for as many cells as can
/// be counted and a running value that starts at zero.
pub proof fn columns_are_framed_so(kind: ItemKind, s: Seq<u8>)
    ensures
        framed(kind, s) <==> runs_extent(kind, s, usize::MAX as nat, 0) == s.len(),
        framed_bools(s) <==> bools_extent(s, usize::MAX as nat) == s.len(),
        runs_extent(kind, Seq::empty(), usize::MAX as nat, 0) == 0,
{
    reveal(framed_len);
    reveal(framed_bools_len);
}

/// A number is a count of booleans, where there is room for them. Those of the
/// next count are the other ones.
pub proof fn booleans_are_framed_so(m: u64, rest: Seq<u8>, room: nat, value: bool)
    ensures
        ({
            let len = leb::uleb_bytes(m as nat);
            &&& bools_extent(len + rest, room) == if m <= room {
                len.len() + bools_extent(rest, (room - m) as nat)
            } else {
                0
            }
            &&& bools_value(len + rest, room, value) == if m <= room {
                bools_value(rest, (room - m) as nat, !value)
            } else {
                value
            }
        }),
{
    let len = leb::uleb_bytes(m as nat);
    leb::lemma_leb_limits();
    leb::lemma_uleb_read_of_bytes(m as nat, rest, 0);
    assert((len + rest).skip(len.len() as int) =~= rest);
}

/// The cells of a run that breaks off: nulls, or one item again and again, which
/// adds its step to the counter each time. They are as many as the run claims,
/// where its item can be read, but that a counter stays in 64 bits.
pub proof fn broken_runs_are_read_so(run: Broken, i: int)
    requires
        run.kind is Delta ==> -0x8000_0000_0000_0000 <= run.at <= 0x7fff_ffff_ffff_ffff,
    ensures
        ({
            let cells = run.pieces();
            &&& cells.len() <= run.left
            &&& run.form is Nulls ==> cells.len() == run.left
            &&& run.form is Nulls && 0 <= i < cells.len() ==> cells[i] is None
            &&& run.form is Repeat ==> match item_extent(run.kind, run.rest) {
                Some((n, step)) => {
                    &&& 0 <= i < cells.len() ==> (cells[i] matches Some(piece) && piece.item
                        == run.rest.take(n as int) && piece.value == if run.kind is Delta {
                        run.at + (i + 1) * step
                    } else {
                        0
                    })
                    &&& cells.len() < run.left ==> run.kind is Delta && !(-0x8000_0000_0000_0000
                        <= run.at + (cells.len() + 1) * step <= 0x7fff_ffff_ffff_ffff)
                },
                None => cells.len() == 0,
            }
            &&& run.form is NoCount || run.form is NoNulls ==> cells.len() == 0
        }),
    decreases run.left,
{
    match run.piece() {
        Some((piece, next)) => {
            let rest = next.pieces();
            assert(run.pieces() == seq![piece] + rest);
            broken_runs_are_read_so(next, i - 1);
            match item_extent(run.kind, run.rest) {
                Some((_, step)) => {
                    let all = run.pieces().len();
                    assert(step + (i - 1 + 1) * step == (i + 1) * step) by (nonlinear_arith);
                    assert(i == 0 ==> (i + 1) * step == step) by (nonlinear_arith);
                    assert(all == rest.len() + 1);
                    assert(step + (rest.len() + 1) * step == (all + 1) * step) by (nonlinear_arith)
                        requires
                            all == rest.len() + 1,
                    ;
                    if run.form is Repeat && run.kind is Delta {
                        assert(next.at == run.at + step);
                    }
                    if 0 < i < all {
                        assert(run.pieces()[i] == rest[i - 1]);
                    }
                },
                None => {},
            }
        },
        None => {
            match item_extent(run.kind, run.rest) {
                Some((_, step)) => {
                    let none = run.pieces().len();
                    assert((none + 1) * step == step) by (nonlinear_arith)
                        requires
                            none == 0,
                    ;
                },
                None => {},
            }
        },
    }
}

/// The run at the front of some bytes: as many cells as its count says, from what
/// stands behind the count on.
pub proof fn broken_runs_start_so(kind: ItemKind, n: i64, s: Seq<u8>, at: int)
    ensures
        ({
            let run = run_at(kind, leb::sleb_bytes(n as int) + s, at);
            &&& run.kind == kind
            &&& run.at == if kind is Delta {
                at
            } else {
                0
            }
            &&& run.rest == s
            &&& n > 0 ==> run.form is Repeat && run.left == n
            &&& n < 0 ==> run.form is Literal && run.left == -n
            &&& n == 0 ==> match leb::uleb_read(s, 0) {
                Some((m, _)) => run.form is Nulls && run.left == m,
                None => run.form is NoNulls && run.left == 0,
            }
        }),
{
    let count = leb::sleb_bytes(n as int);
    leb::lemma_leb_limits();
    leb::lemma_sleb_read_of_bytes(n as int, s, 0);
    assert((count + s).skip(count.len() as int) =~= s);
}

} // verus!
