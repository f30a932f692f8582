//! The cells of columns, written and read by `hexane`.
//!
//! What bytes a list of cells is written to, and what cells some bytes hold,
//! is `hexane`'s to say; here both have names. That reading gives back what
//! was written is stated where the bytes are written.
//!
//! A malformed column is read cell by cell up to the place where it is
//! malformed: its whole runs by `hexane`, the run that it breaks off in item by
//! item.
use super::col_error::{DecodeColumnError, DecodeColumnFault};
use super::runs::{
    self, Broken, BrokenBools, BrokenRun, Fault, ItemKind, Piece, RunFault, MAX_CELLS,
};
use crate::leb;
use crate::text;
use std::ops::Range;
use vstd::prelude::*;

verus! {

/// The texts behind a list of optional strings.
pub open spec fn texts(cells: Seq<Option<String>>) -> Seq<Option<Seq<char>>> {
    Seq::new(cells.len(), |i: int| opt_text(cells[i]))
}

pub open spec fn opt_text(s: Option<String>) -> Option<Seq<char>> {
    match s {
        Some(s) => Some(s@),
        None => None,
    }
}

/// Every cell is null.
pub open spec fn all_null<V>(cells: Seq<Option<V>>) -> bool {
    forall|i: int| 0 <= i < cells.len() ==> cells[i] is None
}

/// Every cell is `false`.
pub open spec fn all_false(cells: Seq<bool>) -> bool {
    forall|i: int| 0 <= i < cells.len() ==> !cells[i]
}

/// What is read back of cells that are left out when they are all null.
pub open spec fn unless_null<V>(cells: Seq<Option<V>>) -> Seq<Option<V>> {
    if all_null(cells) {
        Seq::empty()
    } else {
        cells
    }
}

/// What is read back of cells that are left out when they are all `false`.
pub open spec fn unless_false(cells: Seq<bool>) -> Seq<bool> {
    if all_false(cells) {
        Seq::empty()
    } else {
        cells
    }
}

/// Values that a column of counters can hold.
pub open spec fn counters(cells: Seq<Option<i64>>) -> bool {
    forall|i: int| 0 <= i < cells.len() ==> (#[trigger] cells[i] matches Some(v) ==> 0 <= v <= u32::MAX)
}

// Writing.

/// The bytes that `hexane::UIntCursor::encode` writes.
pub uninterp spec fn uint_bytes(cells: Seq<Option<u64>>) -> Seq<u8>;

/// The bytes that `hexane::UIntCursor::encode_unless_empty` writes.
pub uninterp spec fn uint_bytes_unless_null(cells: Seq<Option<u64>>) -> Seq<u8>;

/// The bytes that `hexane::DeltaCursor::encode` writes.
pub uninterp spec fn delta_bytes(cells: Seq<Option<i64>>) -> Seq<u8>;

/// The bytes that `hexane::DeltaCursor::encode_unless_empty` writes.
pub uninterp spec fn delta_bytes_unless_null(cells: Seq<Option<i64>>) -> Seq<u8>;

/// The bytes that `hexane::StrCursor::encode_unless_empty` writes.
pub uninterp spec fn text_bytes_unless_null(cells: Seq<Option<Seq<char>>>) -> Seq<u8>;

/// The bytes that `hexane::BooleanCursor::encode` writes.
pub uninterp spec fn bool_bytes(cells: Seq<bool>) -> Seq<u8>;

/// The bytes that `hexane::BooleanCursor::encode_unless_empty` writes.
pub uninterp spec fn bool_bytes_unless_false(cells: Seq<bool>) -> Seq<u8>;

/// `hexane::UIntCursor::encode`: appends the cells and returns where they
/// stand. What it appends is framed, holds exactly the cells, and is empty only
/// for no cells.
#[verifier::external_body]
pub(crate) fn write_uints(out: &mut Vec<u8>, cells: &[Option<u64>]) -> (r: Range<usize>)
    requires
        cells@.len() <= MAX_CELLS,
    ensures
        final(out)@ == old(out)@ + uint_bytes(cells@),
        r.start == old(out)@.len() && r.end == final(out)@.len(),
        runs::framed(ItemKind::Uint, final(out)@.skip(old(out)@.len() as int)),
        uint_cells(final(out)@.skip(old(out)@.len() as int)) == cells@,
        final(out)@.len() == old(out)@.len() <==> cells@.len() == 0,
{
    <hexane::UIntCursor as hexane::ColumnCursor>::encode(out, cells.iter().copied())
}

/// `hexane::UIntCursor::encode_unless_empty`: like `encode`, but appends
/// nothing where every cell is null, and then nothing is read back.
#[verifier::external_body]
pub(crate) fn write_uints_unless_null(out: &mut Vec<u8>, cells: &[Option<u64>]) -> (r: Range<usize>)
    requires
        cells@.len() <= MAX_CELLS,
    ensures
        final(out)@ == old(out)@ + uint_bytes_unless_null(cells@),
        r.start == old(out)@.len() && r.end == final(out)@.len(),
        runs::framed(ItemKind::Uint, final(out)@.skip(old(out)@.len() as int)),
        uint_cells(final(out)@.skip(old(out)@.len() as int)) == unless_null(cells@),
        final(out)@.len() == old(out)@.len() <==> all_null(cells@),
{
    <hexane::UIntCursor as hexane::ColumnCursor>::encode_unless_empty(out, cells.iter().copied())
}

/// `hexane::DeltaCursor::encode`: appends the cells, each as its distance from
/// the one before, and returns where they stand. What it appends is framed,
/// holds exactly the cells, and is empty only for no cells.
#[verifier::external_body]
pub(crate) fn write_deltas(out: &mut Vec<u8>, cells: &[Option<i64>]) -> (r: Range<usize>)
    requires
        cells@.len() <= MAX_CELLS,
        counters(cells@),
    ensures
        final(out)@ == old(out)@ + delta_bytes(cells@),
        r.start == old(out)@.len() && r.end == final(out)@.len(),
        runs::framed(ItemKind::Delta, final(out)@.skip(old(out)@.len() as int)),
        delta_cells(final(out)@.skip(old(out)@.len() as int)) == cells@,
        final(out)@.len() == old(out)@.len() <==> cells@.len() == 0,
{
    <hexane::DeltaCursor as hexane::ColumnCursor>::encode(out, cells.iter().copied())
}

/// `hexane::DeltaCursor::encode_unless_empty`: like `encode`, but appends
/// nothing where every cell is null, and then nothing is read back.
#[verifier::external_body]
pub(crate) fn write_deltas_unless_null(out: &mut Vec<u8>, cells: &[Option<i64>]) -> (r: Range<
    usize,
>)
    requires
        cells@.len() <= MAX_CELLS,
        counters(cells@),
    ensures
        final(out)@ == old(out)@ + delta_bytes_unless_null(cells@),
        r.start == old(out)@.len() && r.end == final(out)@.len(),
        runs::framed(ItemKind::Delta, final(out)@.skip(old(out)@.len() as int)),
        delta_cells(final(out)@.skip(old(out)@.len() as int)) == unless_null(cells@),
        final(out)@.len() == old(out)@.len() <==> all_null(cells@),
{
    <hexane::DeltaCursor as hexane::ColumnCursor>::encode_unless_empty(out, cells.iter().copied())
}

/// `hexane::StrCursor::encode_unless_empty`: appends the cells and returns
/// where they stand; appends nothing where every cell is null, and then nothing
/// is read back. What it appends is framed and holds exactly the cells.
#[verifier::external_body]
pub(crate) fn write_texts_unless_null(out: &mut Vec<u8>, cells: &[Option<String>]) -> (r: Range<
    usize,
>)
    requires
        cells@.len() <= MAX_CELLS,
    ensures
        final(out)@ == old(out)@ + text_bytes_unless_null(texts(cells@)),
        r.start == old(out)@.len() && r.end == final(out)@.len(),
        runs::framed(ItemKind::Text, final(out)@.skip(old(out)@.len() as int)),
        text_cells(final(out)@.skip(old(out)@.len() as int)) == unless_null(texts(cells@)),
        final(out)@.len() == old(out)@.len() <==> all_null(texts(cells@)),
{
    <hexane::StrCursor as hexane::ColumnCursor>::encode_unless_empty(
        out,
        cells.iter().map(|cell| cell.as_deref()),
    )
}

/// `hexane::BooleanCursor::encode`: appends the cells and returns where they
/// stand. What it appends is framed, holds exactly the cells and is never
/// empty.
#[verifier::external_body]
pub(crate) fn write_bools(out: &mut Vec<u8>, cells: &[bool]) -> (r: Range<usize>)
    requires
        cells@.len() <= MAX_CELLS,
    ensures
        final(out)@ == old(out)@ + bool_bytes(cells@),
        r.start == old(out)@.len() && r.end == final(out)@.len(),
        runs::framed_bools(final(out)@.skip(old(out)@.len() as int)),
        bool_cells(final(out)@.skip(old(out)@.len() as int)) == cells@,
        final(out)@.len() > old(out)@.len(),
{
    <hexane::BooleanCursor as hexane::ColumnCursor>::encode(out, cells.iter().copied())
}

/// `hexane::BooleanCursor::encode_unless_empty`: like `encode`, but appends
/// nothing where every cell is `false`, and then nothing is read back.
#[verifier::external_body]
pub(crate) fn write_bools_unless_false(out: &mut Vec<u8>, cells: &[bool]) -> (r: Range<usize>)
    requires
        cells@.len() <= MAX_CELLS,
    ensures
        final(out)@ == old(out)@ + bool_bytes_unless_false(cells@),
        r.start == old(out)@.len() && r.end == final(out)@.len(),
        runs::framed_bools(final(out)@.skip(old(out)@.len() as int)),
        bool_cells(final(out)@.skip(old(out)@.len() as int)) == unless_false(cells@),
        final(out)@.len() == old(out)@.len() <==> all_false(cells@),
{
    <hexane::BooleanCursor as hexane::ColumnCursor>::encode_unless_empty(out, cells.iter().copied())
}

// Reading.

/// The cells that `hexane::UIntCursor::iter` yields of framed bytes.
pub uninterp spec fn uint_cells(bytes: Seq<u8>) -> Seq<Option<u64>>;

/// The cells that `hexane::DeltaCursor::iter` yields of framed bytes.
pub uninterp spec fn delta_cells(bytes: Seq<u8>) -> Seq<Option<i64>>;

/// The cells that `hexane::StrCursor::iter` yields of framed bytes.
pub uninterp spec fn text_cells(bytes: Seq<u8>) -> Seq<Option<Seq<char>>>;

/// The cells that `hexane::BooleanCursor::iter` yields of framed bytes.
pub uninterp spec fn bool_cells(bytes: Seq<u8>) -> Seq<bool>;

/// The cells that are still to come.
pub uninterp spec fn uints_left(it: UintCells<'_>) -> Seq<Option<u64>>;

/// The cells that are still to come.
pub uninterp spec fn deltas_left(it: DeltaCells<'_>) -> Seq<Option<i64>>;

/// The cells that are still to come.
pub uninterp spec fn texts_left(it: TextCells<'_>) -> Seq<Option<Seq<char>>>;

/// The cells that are still to come.
pub uninterp spec fn bools_left(it: BoolCells<'_>) -> Seq<bool>;

/// A `hexane::CursorIter` over unsigned integers.
#[verifier::external_body]
pub struct UintCells<'a> {
    inner: hexane::CursorIter<'a, hexane::UIntCursor>,
}

/// A `hexane::CursorIter` over counters.
#[verifier::external_body]
pub struct DeltaCells<'a> {
    inner: hexane::CursorIter<'a, hexane::DeltaCursor>,
}

/// A `hexane::CursorIter` over texts.
#[verifier::external_body]
pub struct TextCells<'a> {
    inner: hexane::CursorIter<'a, hexane::StrCursor>,
}

/// A `hexane::CursorIter` over booleans.
#[verifier::external_body]
pub struct BoolCells<'a> {
    inner: hexane::CursorIter<'a, hexane::BooleanCursor>,
}

impl<'a> UintCells<'a> {
    /// `hexane::UIntCursor::iter` on framed bytes. No bytes give no
    /// cells.
    #[verifier::external_body]
    fn new(bytes: &'a [u8]) -> (r: Self)
        requires
            runs::framed(ItemKind::Uint, bytes@),
        ensures
            uints_left(r) == uint_cells(bytes@),
            bytes@.len() == 0 ==> uints_left(r).len() == 0,
    {
        UintCells { inner: <hexane::UIntCursor as hexane::ColumnCursor>::iter(bytes) }
    }

    /// `hexane::CursorIter::next`: takes the first of the cells that are left;
    /// `None` where none is. Framed bytes give no error.
    #[verifier::external_body]
    fn next(&mut self) -> (r: Option<Option<u64>>)
        ensures
            uints_left(*old(self)).len() == 0 ==> r is None && uints_left(*final(self))
                == uints_left(*old(self)),
            uints_left(*old(self)).len() > 0 ==> r == Some(uints_left(*old(self))[0])
                && uints_left(*final(self)) == uints_left(*old(self)).drop_first(),
    {
        self.inner.next().map(|cell| cell.unwrap().map(|v| v.into_owned()))
    }
}

impl<'a> Clone for UintCells<'a> {
    /// `hexane::CursorIter::clone`: the copy yields the cells that are left.
    #[verifier::external_body]
    fn clone(&self) -> (r: Self)
        ensures
            uints_left(r) == uints_left(*self),
    {
        UintCells { inner: self.inner.clone() }
    }
}

impl<'a> DeltaCells<'a> {
    /// `hexane::DeltaCursor::iter` on framed bytes. No bytes give no
    /// cells.
    #[verifier::external_body]
    fn new(bytes: &'a [u8]) -> (r: Self)
        requires
            runs::framed(ItemKind::Delta, bytes@),
        ensures
            deltas_left(r) == delta_cells(bytes@),
            bytes@.len() == 0 ==> deltas_left(r).len() == 0,
    {
        DeltaCells { inner: <hexane::DeltaCursor as hexane::ColumnCursor>::iter(bytes) }
    }

    /// `hexane::CursorIter::next`: takes the first of the cells that are left;
    /// `None` where none is. Framed bytes give no error.
    #[verifier::external_body]
    fn next(&mut self) -> (r: Option<Option<i64>>)
        ensures
            deltas_left(*old(self)).len() == 0 ==> r is None && deltas_left(*final(self))
                == deltas_left(*old(self)),
            deltas_left(*old(self)).len() > 0 ==> r == Some(deltas_left(*old(self))[0])
                && deltas_left(*final(self)) == deltas_left(*old(self)).drop_first(),
    {
        self.inner.next().map(|cell| cell.unwrap().map(|v| v.into_owned()))
    }
}

impl<'a> Clone for DeltaCells<'a> {
    /// `hexane::CursorIter::clone`: the copy yields the cells that are left.
    #[verifier::external_body]
    fn clone(&self) -> (r: Self)
        ensures
            deltas_left(r) == deltas_left(*self),
    {
        DeltaCells { inner: self.inner.clone() }
    }
}

impl<'a> TextCells<'a> {
    /// `hexane::StrCursor::iter` on framed bytes. No bytes give no
    /// cells.
    #[verifier::external_body]
    fn new(bytes: &'a [u8]) -> (r: Self)
        requires
            runs::framed(ItemKind::Text, bytes@),
        ensures
            texts_left(r) == text_cells(bytes@),
            bytes@.len() == 0 ==> texts_left(r).len() == 0,
    {
        TextCells { inner: <hexane::StrCursor as hexane::ColumnCursor>::iter(bytes) }
    }

    /// `hexane::CursorIter::next`: takes the first of the cells that are left;
    /// `None` where none is. Framed bytes give no error.
    #[verifier::external_body]
    fn next(&mut self) -> (r: Option<Option<String>>)
        ensures
            texts_left(*old(self)).len() == 0 ==> r is None && texts_left(*final(self))
                == texts_left(*old(self)),
            texts_left(*old(self)).len() > 0 ==> r is Some && opt_text(r->0) == texts_left(
                *old(self),
            )[0] && texts_left(*final(self)) == texts_left(*old(self)).drop_first(),
    {
        self.inner.next().map(|cell| cell.unwrap().map(|v| v.into_owned()))
    }
}

impl<'a> Clone for TextCells<'a> {
    /// `hexane::CursorIter::clone`: the copy yields the cells that are left.
    #[verifier::external_body]
    fn clone(&self) -> (r: Self)
        ensures
            texts_left(r) == texts_left(*self),
    {
        TextCells { inner: self.inner.clone() }
    }
}

impl<'a> BoolCells<'a> {
    /// `hexane::BooleanCursor::iter` on framed bytes. No bytes give no
    /// cells.
    #[verifier::external_body]
    fn new(bytes: &'a [u8]) -> (r: Self)
        requires
            runs::framed_bools(bytes@),
        ensures
            bools_left(r) == bool_cells(bytes@),
            bytes@.len() == 0 ==> bools_left(r).len() == 0,
    {
        BoolCells { inner: <hexane::BooleanCursor as hexane::ColumnCursor>::iter(bytes) }
    }

    /// `hexane::CursorIter::next`: takes the first of the cells that are left;
    /// `None` where none is. Framed bytes give no error, and no cell of a
    /// column of booleans is null.
    #[verifier::external_body]
    fn next(&mut self) -> (r: Option<bool>)
        ensures
            bools_left(*old(self)).len() == 0 ==> r is None && bools_left(*final(self))
                == bools_left(*old(self)),
            bools_left(*old(self)).len() > 0 ==> r == Some(bools_left(*old(self))[0])
                && bools_left(*final(self)) == bools_left(*old(self)).drop_first(),
    {
        self.inner.next().map(|cell| cell.unwrap().unwrap().into_owned())
    }
}

impl<'a> Clone for BoolCells<'a> {
    /// `hexane::CursorIter::clone`: the copy yields the cells that are left.
    #[verifier::external_body]
    fn clone(&self) -> (r: Self)
        ensures
            bools_left(r) == bools_left(*self),
    {
        BoolCells { inner: self.inner.clone() }
    }
}

// Columns that may be malformed.

/// Why `hexane` reads no unsigned number of some bytes, in its words.
pub uninterp spec fn unsigned_fault(bytes: Seq<u8>) -> Option<Seq<char>>;

/// Why `hexane` reads no signed number of some bytes, in its words.
pub uninterp spec fn signed_fault(bytes: Seq<u8>) -> Option<Seq<char>>;

/// Why `hexane` reads no text of some bytes, in its words.
pub uninterp spec fn text_fault(bytes: Seq<u8>) -> Option<Seq<char>>;

/// `hexane::Packable::unpack` of a `u64`, of which only the error is kept, as
/// the text that it displays. There is one exactly where the bytes start with no
/// unsigned LEB128 number of 64 bits.
#[verifier::external_body]
fn unpack_unsigned(bytes: &[u8]) -> (r: Option<String>)
    ensures
        opt_text(r) == unsigned_fault(bytes@),
        r is None <==> leb::uleb_read(bytes@, 0) is Some,
{
    <u64 as hexane::Packable>::unpack(bytes).err().map(|e| e.to_string())
}

/// `hexane::Packable::unpack` of an `i64`, of which only the error is kept, as
/// the text that it displays. There is one exactly where the bytes start with no
/// signed LEB128 number of 64 bits.
#[verifier::external_body]
fn unpack_signed(bytes: &[u8]) -> (r: Option<String>)
    ensures
        opt_text(r) == signed_fault(bytes@),
        r is None <==> leb::sleb_read(bytes@, 0) is Some,
{
    <i64 as hexane::Packable>::unpack(bytes).err().map(|e| e.to_string())
}

/// The text at the front of the bytes would be longer than they are.
pub open spec fn overruns(bytes: Seq<u8>) -> bool {
    leb::uleb_read(bytes, 0) matches Some((len, n)) && len > bytes.len() - n
}

/// `hexane::Packable::unpack` of a `str`, of which only the error is kept, as
/// the text that it displays. There is one exactly where the bytes start with no
/// length or with one behind which there is no UTF-8. It does not return where
/// the text would be longer than the bytes.
#[verifier::external_body]
fn unpack_text(bytes: &[u8]) -> (r: Option<String>)
    requires
        !overruns(bytes@),
    ensures
        opt_text(r) == text_fault(bytes@),
        r is None <==> runs::item_extent(ItemKind::Text, bytes@) is Some,
{
    <str as hexane::Packable>::unpack(bytes).err().map(|e| e.to_string())
}

/// The words for a fault: those of `hexane`, where it has any.
pub open spec fn reason_of(fault: Fault) -> Seq<char> {
    let words = match fault {
        Fault::Signed(bytes) => signed_fault(bytes),
        Fault::Unsigned(bytes) => unsigned_fault(bytes),
        Fault::Text(bytes) => if overruns(bytes) {
            None
        } else {
            text_fault(bytes)
        },
        Fault::TooMuch => None,
    };
    match words {
        Some(words) => words,
        None => "malformed column data"@,
    }
}

/// The text behind its length is longer than the bytes.
fn is_overrun(bytes: &[u8]) -> (r: bool)
    ensures
        r == overruns(bytes@),
{
    proof {
        leb::lemma_leb_limits();
        leb::lemma_uleb_read_bounds(bytes@, 0);
    }
    match leb::read_unsigned(bytes) {
        Some((len, n)) => len > (bytes.len() - n) as u64,
        None => false,
    }
}

fn explain(fault: RunFault<'_>) -> (r: String)
    ensures
        r@ == reason_of(fault@),
{
    let words: Option<String> = match fault {
        RunFault::Signed(bytes) => unpack_signed(bytes),
        RunFault::Unsigned(bytes) => unpack_unsigned(bytes),
        RunFault::Text(bytes) => if is_overrun(bytes) {
            None
        } else {
            unpack_text(bytes)
        },
        RunFault::TooMuch => None,
    };
    match words {
        Some(words) => words,
        None => "malformed column data".to_string(),
    }
}

/// What is left of a column: the cells that can be read, and why it goes on with
/// bytes that hold no cell, if it does not end behind them.
pub struct Col<V> {
    pub cells: Seq<V>,
    pub fault: Option<Seq<char>>,
}

/// What the next read of a column gives.
pub enum Pulled<V> {
    /// A cell.
    Cell(V),
    /// The column has ended.
    End,
    /// The column goes on with bytes that hold no cell, for this reason.
    Malformed(Seq<char>),
}

impl<V> Col<V> {
    pub open spec fn pulled(self) -> Pulled<V> {
        if self.cells.len() > 0 {
            Pulled::Cell(self.cells[0])
        } else {
            match self.fault {
                None => Pulled::End,
                Some(reason) => Pulled::Malformed(reason),
            }
        }
    }

    pub open spec fn rest(self) -> Col<V> {
        if self.cells.len() > 0 {
            Col { cells: self.cells.drop_first(), fault: self.fault }
        } else {
            self
        }
    }
}

/// The cells of framed bytes of a column of unsigned integers.
pub open spec fn uint_list(bytes: Seq<u8>) -> Seq<Option<u64>> {
    if bytes.len() == 0 {
        Seq::empty()
    } else {
        uint_cells(bytes)
    }
}

/// The cells of framed bytes of a column of counters.
pub open spec fn delta_list(bytes: Seq<u8>) -> Seq<Option<i64>> {
    if bytes.len() == 0 {
        Seq::empty()
    } else {
        delta_cells(bytes)
    }
}

/// The cells of framed bytes of a column of texts.
pub open spec fn text_list(bytes: Seq<u8>) -> Seq<Option<Seq<char>>> {
    if bytes.len() == 0 {
        Seq::empty()
    } else {
        text_cells(bytes)
    }
}

/// The cells of framed bytes of a column of booleans.
pub open spec fn bool_list(bytes: Seq<u8>) -> Seq<bool> {
    if bytes.len() == 0 {
        Seq::empty()
    } else {
        bool_cells(bytes)
    }
}

/// The number of an item.
pub open spec fn uint_of(piece: Option<Piece>) -> Option<u64> {
    match piece {
        Some(piece) => match leb::uleb_read(piece.item, 0) {
            Some((v, _)) => Some(v as u64),
            None => None,
        },
        None => None,
    }
}

/// The counter after an item.
pub open spec fn counter_of(piece: Option<Piece>) -> Option<i64> {
    match piece {
        Some(piece) => Some(piece.value as i64),
        None => None,
    }
}

/// The text of an item.
pub open spec fn text_of(piece: Option<Piece>) -> Option<Seq<char>> {
    match piece {
        Some(piece) => match leb::uleb_read(piece.item, 0) {
            Some((_, n)) => text::text_of(piece.item.skip(n as int)),
            None => None,
        },
        None => None,
    }
}

fn read_uint(cell: Option<(&[u8], i64)>) -> (r: Option<u64>)
    ensures
        r == uint_of(runs::piece_of(cell)),
{
    match cell {
        Some((item, _)) => match leb::read_unsigned(item) {
            Some((v, _)) => Some(v),
            None => None,
        },
        None => None,
    }
}

fn read_counter(cell: Option<(&[u8], i64)>) -> (r: Option<i64>)
    ensures
        r == counter_of(runs::piece_of(cell)),
{
    match cell {
        Some((_, value)) => Some(value),
        None => None,
    }
}

fn read_text(cell: Option<(&[u8], i64)>) -> (r: Option<String>)
    ensures
        opt_text(r) == text_of(runs::piece_of(cell)),
{
    match cell {
        Some((item, _)) => {
            proof {
                leb::lemma_uleb_read_bounds(item@, 0);
            }
            match leb::read_unsigned(item) {
                Some((_, n)) => {
                    proof {
                        assert(item@.subrange(n as int, item@.len() as int) =~= item@.skip(n as int));
                    }
                    match text::read_text(&item[n..item.len()]) {
                        Some(s) => Some(s.to_string()),
                        None => None,
                    }
                },
                None => None,
            }
        },
        None => None,
    }
}

/// The cells of a run of unsigned integers before it breaks off.
pub open spec fn broken_uints(run: Broken) -> Seq<Option<u64>> {
    run.pieces().map_values(|piece: Option<Piece>| uint_of(piece))
}

/// The cells of a run of counters before it breaks off.
pub open spec fn broken_deltas(run: Broken) -> Seq<Option<i64>> {
    run.pieces().map_values(|piece: Option<Piece>| counter_of(piece))
}

/// The cells of a run of texts before it breaks off.
pub open spec fn broken_texts(run: Broken) -> Seq<Option<Seq<char>>> {
    run.pieces().map_values(|piece: Option<Piece>| text_of(piece))
}

/// As many times the same boolean.
pub open spec fn repeated(count: nat, value: bool) -> Seq<bool> {
    Seq::new(count, |i: int| value)
}

/// What a column of unsigned integers holds.
#[verifier::opaque]
pub open spec fn uint_col(bytes: Seq<u8>) -> Col<Option<u64>> {
    let n = runs::framed_len(ItemKind::Uint, bytes);
    Col {
        cells: uint_list(bytes.take(n as int)) + broken_uints(runs::broken(ItemKind::Uint, bytes)),
        fault: if n == bytes.len() {
            None
        } else {
            Some(reason_of(runs::broken(ItemKind::Uint, bytes).end().fault()))
        },
    }
}

/// What a column of counters holds.
#[verifier::opaque]
pub open spec fn delta_col(bytes: Seq<u8>) -> Col<Option<i64>> {
    let n = runs::framed_len(ItemKind::Delta, bytes);
    Col {
        cells: delta_list(bytes.take(n as int)) + broken_deltas(
            runs::broken(ItemKind::Delta, bytes),
        ),
        fault: if n == bytes.len() {
            None
        } else {
            Some(reason_of(runs::broken(ItemKind::Delta, bytes).end().fault()))
        },
    }
}

/// What a column of texts holds.
#[verifier::opaque]
pub open spec fn text_col(bytes: Seq<u8>) -> Col<Option<Seq<char>>> {
    let n = runs::framed_len(ItemKind::Text, bytes);
    Col {
        cells: text_list(bytes.take(n as int)) + broken_texts(runs::broken(ItemKind::Text, bytes)),
        fault: if n == bytes.len() {
            None
        } else {
            Some(reason_of(runs::broken(ItemKind::Text, bytes).end().fault()))
        },
    }
}

/// What a column of booleans holds.
#[verifier::opaque]
pub open spec fn bool_col(bytes: Seq<u8>) -> Col<bool> {
    let n = runs::framed_bools_len(bytes);
    Col {
        cells: bool_list(bytes.take(n as int)) + repeated(
            runs::broken_bools(bytes),
            runs::framed_bools_value(bytes),
        ),
        fault: if n == bytes.len() {
            None
        } else {
            Some(reason_of(runs::bools_fault(bytes)))
        },
    }
}

/// A framed column holds its cells and nothing else.
pub proof fn lemma_framed_uint_col(bytes: Seq<u8>)
    requires
        runs::framed(ItemKind::Uint, bytes),
    ensures
        uint_col(bytes) == (Col { cells: uint_list(bytes), fault: None }),
{
    reveal(uint_col);
    assert(bytes.take(bytes.len() as int) =~= bytes);
    runs::lemma_framed_is_not_broken(ItemKind::Uint, bytes);
    assert(uint_col(bytes).cells =~= uint_list(bytes));
}

/// A framed column holds its cells and nothing else.
pub proof fn lemma_framed_delta_col(bytes: Seq<u8>)
    requires
        runs::framed(ItemKind::Delta, bytes),
    ensures
        delta_col(bytes) == (Col { cells: delta_list(bytes), fault: None }),
{
    reveal(delta_col);
    assert(bytes.take(bytes.len() as int) =~= bytes);
    runs::lemma_framed_is_not_broken(ItemKind::Delta, bytes);
    assert(delta_col(bytes).cells =~= delta_list(bytes));
}

/// A framed column holds its cells and nothing else.
pub proof fn lemma_framed_text_col(bytes: Seq<u8>)
    requires
        runs::framed(ItemKind::Text, bytes),
    ensures
        text_col(bytes) == (Col { cells: text_list(bytes), fault: None }),
{
    reveal(text_col);
    assert(bytes.take(bytes.len() as int) =~= bytes);
    runs::lemma_framed_is_not_broken(ItemKind::Text, bytes);
    assert(text_col(bytes).cells =~= text_list(bytes));
}

/// A framed column holds its cells and nothing else.
pub proof fn lemma_framed_bool_col(bytes: Seq<u8>)
    requires
        runs::framed_bools(bytes),
    ensures
        bool_col(bytes) == (Col { cells: bool_list(bytes), fault: None }),
{
    reveal(bool_col);
    assert(bytes.take(bytes.len() as int) =~= bytes);
    runs::lemma_framed_bools_are_not_broken(bytes);
    assert(bool_col(bytes).cells =~= bool_list(bytes));
}

/// The error of a read that met bytes that hold no cell.
pub open spec fn malformed(col: Seq<char>, reason: Seq<char>) -> DecodeColumnFault {
    DecodeColumnFault::InvalidValue { path: col, reason }
}

fn malformed_error(col: &str, fault: RunFault<'_>) -> (r: DecodeColumnError)
    ensures
        r@ == malformed(col@, reason_of(fault@)),
{
    let reason: String = explain(fault);
    DecodeColumnError::invalid_value(col, reason.as_str())
}

/// What is left of two lists, the second behind the first, after one cell.
proof fn lemma_drop_joined<V>(front: Seq<V>, back: Seq<V>)
    ensures
        front.len() > 0 ==> (front + back)[0] == front[0] && (front + back).drop_first()
            == front.drop_first() + back,
        front.len() == 0 ==> front + back == back,
{
    if front.len() > 0 {
        assert((front + back).drop_first() =~= front.drop_first() + back);
    } else {
        assert(front + back =~= back);
    }
}

/// The cells of a run after its first.
proof fn lemma_broken_step<V>(run: Broken, cell: spec_fn(Option<Piece>) -> V)
    ensures
        match run.piece() {
            Some((piece, next)) => {
                let cells = run.pieces().map_values(cell);
                &&& cells.len() > 0
                &&& cells[0] == cell(piece)
                &&& cells.drop_first() == next.pieces().map_values(cell)
            },
            None => run.pieces().map_values(cell).len() == 0,
        },
{
    match run.piece() {
        Some((_, next)) => {
            assert(run.pieces().map_values(cell).drop_first() =~= next.pieces().map_values(cell));
        },
        None => {},
    }
}

/// Reads a column of unsigned integers.
pub struct UintColumn<'a> {
    cells: UintCells<'a>,
    broken: BrokenRun<'a>,
    sound: bool,
}

impl<'a> View for UintColumn<'a> {
    type V = Col<Option<u64>>;

    closed spec fn view(&self) -> Col<Option<u64>> {
        Col {
            cells: uints_left(self.cells) + broken_uints(self.broken@),
            fault: if self.sound {
                None
            } else {
                Some(reason_of(self.broken@.end().fault()))
            },
        }
    }
}

impl<'a> UintColumn<'a> {
    pub fn new(bytes: &'a [u8]) -> (r: Self)
        ensures
            r@ == uint_col(bytes@),
    {
        let (n, broken): (usize, BrokenRun<'a>) = runs::measure(ItemKind::Uint, bytes);
        proof {
            reveal(uint_col);
            runs::lemma_framed_front(ItemKind::Uint, bytes@);
            assert(bytes@.subrange(0, n as int) =~= bytes@.take(n as int));
        }
        let cells = UintCells::new(&bytes[0..n]);
        proof {
            assert(uints_left(cells).len() == 0 ==> uints_left(cells) =~= Seq::empty());
        }
        UintColumn { cells, broken, sound: n == bytes.len() }
    }

    /// Reads the next cell; `None` at the end of the column.
    pub fn pull(&mut self, col: &str) -> (r: Result<Option<Option<u64>>, DecodeColumnError>)
        ensures
            final(self)@ == old(self)@.rest(),
            match old(self)@.pulled() {
                Pulled::Cell(v) => r matches Ok(Some(cell)) && cell == v,
                Pulled::End => r matches Ok(None),
                Pulled::Malformed(reason) => r matches Err(e) && e@ == malformed(col@, reason),
            },
    {
        proof {
            lemma_drop_joined(uints_left(self.cells), broken_uints(self.broken@));
            lemma_broken_step(self.broken@, |piece: Option<Piece>| uint_of(piece));
        }
        match self.cells.next() {
            Some(cell) => Ok(Some(cell)),
            None => match self.broken.next() {
                Some(cell) => {
                    proof {
                        lemma_drop_joined(uints_left(self.cells), broken_uints(self.broken@));
                    }
                    Ok(Some(read_uint(cell)))
                },
                None => if self.sound {
                    Ok(None)
                } else {
                    Err(malformed_error(col, self.broken.fault()))
                },
            },
        }
    }
}

impl<'a> Clone for UintColumn<'a> {
    fn clone(&self) -> (r: Self)
        ensures
            r@ == self@,
    {
        UintColumn { cells: self.cells.clone(), broken: self.broken, sound: self.sound }
    }
}

/// Reads a column of counters.
pub struct DeltaColumn<'a> {
    cells: DeltaCells<'a>,
    broken: BrokenRun<'a>,
    sound: bool,
}

impl<'a> View for DeltaColumn<'a> {
    type V = Col<Option<i64>>;

    closed spec fn view(&self) -> Col<Option<i64>> {
        Col {
            cells: deltas_left(self.cells) + broken_deltas(self.broken@),
            fault: if self.sound {
                None
            } else {
                Some(reason_of(self.broken@.end().fault()))
            },
        }
    }
}

impl<'a> DeltaColumn<'a> {
    pub fn new(bytes: &'a [u8]) -> (r: Self)
        ensures
            r@ == delta_col(bytes@),
    {
        let (n, broken): (usize, BrokenRun<'a>) = runs::measure(ItemKind::Delta, bytes);
        proof {
            reveal(delta_col);
            runs::lemma_framed_front(ItemKind::Delta, bytes@);
            assert(bytes@.subrange(0, n as int) =~= bytes@.take(n as int));
        }
        let cells = DeltaCells::new(&bytes[0..n]);
        proof {
            assert(deltas_left(cells).len() == 0 ==> deltas_left(cells) =~= Seq::empty());
        }
        DeltaColumn { cells, broken, sound: n == bytes.len() }
    }

    /// Reads the next cell; `None` at the end of the column.
    pub fn pull(&mut self, col: &str) -> (r: Result<Option<Option<i64>>, DecodeColumnError>)
        ensures
            final(self)@ == old(self)@.rest(),
            match old(self)@.pulled() {
                Pulled::Cell(v) => r matches Ok(Some(cell)) && cell == v,
                Pulled::End => r matches Ok(None),
                Pulled::Malformed(reason) => r matches Err(e) && e@ == malformed(col@, reason),
            },
    {
        proof {
            lemma_drop_joined(deltas_left(self.cells), broken_deltas(self.broken@));
            lemma_broken_step(self.broken@, |piece: Option<Piece>| counter_of(piece));
        }
        match self.cells.next() {
            Some(cell) => Ok(Some(cell)),
            None => match self.broken.next() {
                Some(cell) => {
                    proof {
                        lemma_drop_joined(deltas_left(self.cells), broken_deltas(self.broken@));
                    }
                    Ok(Some(read_counter(cell)))
                },
                None => if self.sound {
                    Ok(None)
                } else {
                    Err(malformed_error(col, self.broken.fault()))
                },
            },
        }
    }
}

impl<'a> Clone for DeltaColumn<'a> {
    fn clone(&self) -> (r: Self)
        ensures
            r@ == self@,
    {
        DeltaColumn { cells: self.cells.clone(), broken: self.broken, sound: self.sound }
    }
}

/// Reads a column of texts.
pub struct TextColumn<'a> {
    cells: TextCells<'a>,
    broken: BrokenRun<'a>,
    sound: bool,
}

impl<'a> View for TextColumn<'a> {
    type V = Col<Option<Seq<char>>>;

    closed spec fn view(&self) -> Col<Option<Seq<char>>> {
        Col {
            cells: texts_left(self.cells) + broken_texts(self.broken@),
            fault: if self.sound {
                None
            } else {
                Some(reason_of(self.broken@.end().fault()))
            },
        }
    }
}

impl<'a> TextColumn<'a> {
    pub fn new(bytes: &'a [u8]) -> (r: Self)
        ensures
            r@ == text_col(bytes@),
    {
        let (n, broken): (usize, BrokenRun<'a>) = runs::measure(ItemKind::Text, bytes);
        proof {
            reveal(text_col);
            runs::lemma_framed_front(ItemKind::Text, bytes@);
            assert(bytes@.subrange(0, n as int) =~= bytes@.take(n as int));
        }
        let cells = TextCells::new(&bytes[0..n]);
        proof {
            assert(texts_left(cells).len() == 0 ==> texts_left(cells) =~= Seq::empty());
        }
        TextColumn { cells, broken, sound: n == bytes.len() }
    }

    /// Reads the next cell; `None` at the end of the column.
    pub fn pull(&mut self, col: &str) -> (r: Result<Option<Option<String>>, DecodeColumnError>)
        ensures
            final(self)@ == old(self)@.rest(),
            match old(self)@.pulled() {
                Pulled::Cell(v) => r matches Ok(Some(cell)) && opt_text(cell) == v,
                Pulled::End => r matches Ok(None),
                Pulled::Malformed(reason) => r matches Err(e) && e@ == malformed(col@, reason),
            },
    {
        proof {
            lemma_drop_joined(texts_left(self.cells), broken_texts(self.broken@));
            lemma_broken_step(self.broken@, |piece: Option<Piece>| text_of(piece));
        }
        match self.cells.next() {
            Some(cell) => Ok(Some(cell)),
            None => match self.broken.next() {
                Some(cell) => {
                    proof {
                        lemma_drop_joined(texts_left(self.cells), broken_texts(self.broken@));
                    }
                    Ok(Some(read_text(cell)))
                },
                None => if self.sound {
                    Ok(None)
                } else {
                    Err(malformed_error(col, self.broken.fault()))
                },
            },
        }
    }
}

impl<'a> Clone for TextColumn<'a> {
    fn clone(&self) -> (r: Self)
        ensures
            r@ == self@,
    {
        TextColumn { cells: self.cells.clone(), broken: self.broken, sound: self.sound }
    }
}

/// Reads a column of booleans.
pub struct BoolColumn<'a> {
    cells: BoolCells<'a>,
    broken: BrokenBools<'a>,
    sound: bool,
}

impl<'a> View for BoolColumn<'a> {
    type V = Col<bool>;

    closed spec fn view(&self) -> Col<bool> {
        Col {
            cells: bools_left(self.cells) + repeated(self.broken.left as nat, self.broken.value),
            fault: if self.sound {
                None
            } else {
                Some(reason_of(self.broken.spec_fault()))
            },
        }
    }
}

impl<'a> BoolColumn<'a> {
    pub fn new(bytes: &'a [u8]) -> (r: Self)
        ensures
            r@ == bool_col(bytes@),
    {
        let (n, broken): (usize, BrokenBools<'a>) = runs::measure_bools(bytes);
        proof {
            reveal(bool_col);
            runs::lemma_framed_bools_front(bytes@);
            assert(bytes@.subrange(0, n as int) =~= bytes@.take(n as int));
        }
        let cells = BoolCells::new(&bytes[0..n]);
        proof {
            assert(bools_left(cells).len() == 0 ==> bools_left(cells) =~= Seq::empty());
        }
        BoolColumn { cells, broken, sound: n == bytes.len() }
    }

    /// Reads the next cell; `None` at the end of the column.
    pub fn pull(&mut self, col: &str) -> (r: Result<Option<bool>, DecodeColumnError>)
        ensures
            final(self)@ == old(self)@.rest(),
            match old(self)@.pulled() {
                Pulled::Cell(v) => r matches Ok(Some(cell)) && cell == v,
                Pulled::End => r matches Ok(None),
                Pulled::Malformed(reason) => r matches Err(e) && e@ == malformed(col@, reason),
            },
    {
        proof {
            lemma_drop_joined(
                bools_left(self.cells),
                repeated(self.broken.left as nat, self.broken.value),
            );
        }
        match self.cells.next() {
            Some(cell) => Ok(Some(cell)),
            None => if self.broken.left > 0 {
                proof {
                    let left = self.broken.left as nat;
                    let value = self.broken.value;
                    assert(repeated(left, value).drop_first() =~= repeated((left - 1) as nat, value));
                    lemma_drop_joined(bools_left(self.cells), repeated((left - 1) as nat, value));
                }
                self.broken.left -= 1;
                Ok(Some(self.broken.value))
            } else if self.sound {
                Ok(None)
            } else {
                Err(malformed_error(col, self.broken.fault()))
            },
        }
    }
}

impl<'a> Clone for BoolColumn<'a> {
    fn clone(&self) -> (r: Self)
        ensures
            r@ == self@,
    {
        BoolColumn { cells: self.cells.clone(), broken: self.broken, sound: self.sound }
    }
}

/// A column that is framed holds the cells that `hexane` reads of it, and ends
/// behind them. A column without bytes holds none.
pub proof fn framed_columns_hold_what_is_read_of_them(bytes: Seq<u8>)
    ensures
        runs::framed(ItemKind::Uint, bytes) ==> uint_col(bytes).fault is None && (if bytes.len()
            == 0 {
            uint_col(bytes).cells.len() == 0
        } else {
            uint_col(bytes).cells == uint_cells(bytes)
        }),
        runs::framed(ItemKind::Delta, bytes) ==> delta_col(bytes).fault is None && (if bytes.len()
            == 0 {
            delta_col(bytes).cells.len() == 0
        } else {
            delta_col(bytes).cells == delta_cells(bytes)
        }),
        runs::framed(ItemKind::Text, bytes) ==> text_col(bytes).fault is None && (if bytes.len()
            == 0 {
            text_col(bytes).cells.len() == 0
        } else {
            text_col(bytes).cells == text_cells(bytes)
        }),
        runs::framed_bools(bytes) ==> bool_col(bytes).fault is None && (if bytes.len() == 0 {
            bool_col(bytes).cells.len() == 0
        } else {
            bool_col(bytes).cells == bool_cells(bytes)
        }),
{
    if runs::framed(ItemKind::Uint, bytes) {
        lemma_framed_uint_col(bytes);
    }
    if runs::framed(ItemKind::Delta, bytes) {
        lemma_framed_delta_col(bytes);
    }
    if runs::framed(ItemKind::Text, bytes) {
        lemma_framed_text_col(bytes);
    }
    if runs::framed_bools(bytes) {
        lemma_framed_bool_col(bytes);
    }
}

/// The cells of items: the number of an unsigned one, the text of one that is a
/// text behind its length, and the counter that a step leads to.
pub proof fn items_hold_these_cells(v: u64, text: Seq<char>, value: i64, item: Seq<u8>)
    requires
        vstd::utf8::encode_utf8(text).len() <= u64::MAX,
    ensures
        uint_of(Some(Piece { item: leb::uleb_bytes(v as nat), value: 0 })) == Some(v),
        counter_of(Some(Piece { item, value: value as int })) == Some(value),
        text_of(
            Some(
                Piece {
                    item: leb::uleb_bytes(vstd::utf8::encode_utf8(text).len())
                        + vstd::utf8::encode_utf8(text),
                    value: 0,
                },
            ),
        ) == Some(text),
        uint_of(None) is None && counter_of(None) is None && text_of(None) is None,
{
    let encoded = vstd::utf8::encode_utf8(text);
    let len = leb::uleb_bytes(encoded.len());
    leb::lemma_leb_limits();
    leb::lemma_uleb_read_of_bytes(v as nat, Seq::empty(), 0);
    assert(leb::uleb_bytes(v as nat) + Seq::<u8>::empty() =~= leb::uleb_bytes(v as nat));
    leb::lemma_uleb_read_of_bytes(encoded.len(), encoded, 0);
    assert((len + encoded).skip(len.len() as int) =~= encoded);
    text::lemma_text_of_text_bytes(text);
}

/// A column holds the cells that `hexane` reads of its whole runs and, behind
/// these, those of the run that breaks off. It is at fault where there is such a
/// run.
pub proof fn columns_hold_these_cells(bytes: Seq<u8>)
    ensures
        ({
            let n = runs::framed_len(ItemKind::Uint, bytes);
            let col = uint_col(bytes);
            let run = runs::broken(ItemKind::Uint, bytes);
            &&& col.fault is None <==> n == bytes.len()
            &&& n > 0 ==> col.cells == uint_cells(bytes.take(n as int)) + run.pieces().map_values(
                |piece: Option<Piece>| uint_of(piece),
            )
            &&& n == 0 ==> col.cells == run.pieces().map_values(
                |piece: Option<Piece>| uint_of(piece),
            )
        }),
        ({
            let n = runs::framed_len(ItemKind::Delta, bytes);
            let col = delta_col(bytes);
            let run = runs::broken(ItemKind::Delta, bytes);
            &&& col.fault is None <==> n == bytes.len()
            &&& n > 0 ==> col.cells == delta_cells(bytes.take(n as int)) + run.pieces().map_values(
                |piece: Option<Piece>| counter_of(piece),
            )
            &&& n == 0 ==> col.cells == run.pieces().map_values(
                |piece: Option<Piece>| counter_of(piece),
            )
        }),
        ({
            let n = runs::framed_len(ItemKind::Text, bytes);
            let col = text_col(bytes);
            let run = runs::broken(ItemKind::Text, bytes);
            &&& col.fault is None <==> n == bytes.len()
            &&& n > 0 ==> col.cells == text_cells(bytes.take(n as int)) + run.pieces().map_values(
                |piece: Option<Piece>| text_of(piece),
            )
            &&& n == 0 ==> col.cells == run.pieces().map_values(
                |piece: Option<Piece>| text_of(piece),
            )
        }),
        ({
            let n = runs::framed_bools_len(bytes);
            let col = bool_col(bytes);
            let more = match leb::uleb_read(bytes.skip(n as int), 0) {
                Some((count, _)) => count,
                None => 0,
            };
            let front = if n > 0 {
                bool_cells(bytes.take(n as int))
            } else {
                Seq::empty()
            };
            &&& col.fault is None <==> n == bytes.len()
            &&& col.cells == front + Seq::new(
                more,
                |i: int| runs::framed_bools_value(bytes),
            )
        }),
{
    reveal(uint_col);
    reveal(delta_col);
    reveal(text_col);
    reveal(bool_col);
    runs::lemma_framed_len_bounds(ItemKind::Uint, bytes, usize::MAX as nat, 0);
    runs::lemma_framed_len_bounds(ItemKind::Delta, bytes, usize::MAX as nat, 0);
    runs::lemma_framed_len_bounds(ItemKind::Text, bytes, usize::MAX as nat, 0);
    runs::lemma_framed_bools_front(bytes);
    reveal(runs::framed_len);
    reveal(runs::framed_bools_len);
}

/// A fault is told in the words of `hexane`, where it has any for these bytes.
/// A text that overruns its bytes and a column that is too much have others.
pub proof fn faults_have_these_words(bytes: Seq<u8>)
    ensures
        signed_fault(bytes) matches Some(words) ==> reason_of(Fault::Signed(bytes)) == words,
        unsigned_fault(bytes) matches Some(words) ==> reason_of(Fault::Unsigned(bytes)) == words,
        text_fault(bytes) matches Some(words) ==> !(leb::uleb_read(bytes, 0) matches Some((len, n))
            && len > bytes.len() - n) ==> reason_of(Fault::Text(bytes)) == words,
        (leb::uleb_read(bytes, 0) matches Some((len, n)) && len > bytes.len() - n) ==> reason_of(
            Fault::Text(bytes),
        ) == "malformed column data"@,
        reason_of(Fault::TooMuch) == "malformed column data"@,
{
}

/// Texts show their characters, each in its place.
pub proof fn texts_are_shown(cells: Seq<Option<String>>, i: int)
    ensures
        texts(cells).len() == cells.len(),
        0 <= i < cells.len() ==> match cells[i] {
            Some(s) => texts(cells)[i] == Some(s@),
            None => texts(cells)[i] is None,
        },
{
}

} // verus!
