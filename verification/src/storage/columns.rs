//! The columns of a chunk: what each is, and where its bytes stand.
use super::change::ParseError as ChangeError;
use super::parse::{self, Input, ParseError, Parsed};
use crate::leb;
use std::ops::Range;
use vstd::prelude::*;

verus! {

/// What the cells of a column are.
#[derive(Clone, Copy, Debug, PartialEq, Eq, Structural)]
pub enum ColumnType {
    Group,
    Actor,
    Integer,
    DeltaInteger,
    Boolean,
    String,
    ValueMetadata,
    Value,
}

impl ColumnType {
    pub open spec fn spec_code(self) -> u32 {
        match self {
            ColumnType::Group => 0,
            ColumnType::Actor => 1,
            ColumnType::Integer => 2,
            ColumnType::DeltaInteger => 3,
            ColumnType::Boolean => 4,
            ColumnType::String => 5,
            ColumnType::ValueMetadata => 6,
            ColumnType::Value => 7,
        }
    }

    pub open spec fn of_code(code: u32) -> ColumnType {
        if code == 0 {
            ColumnType::Group
        } else if code == 1 {
            ColumnType::Actor
        } else if code == 2 {
            ColumnType::Integer
        } else if code == 3 {
            ColumnType::DeltaInteger
        } else if code == 4 {
            ColumnType::Boolean
        } else if code == 5 {
            ColumnType::String
        } else if code == 6 {
            ColumnType::ValueMetadata
        } else {
            ColumnType::Value
        }
    }

    fn code(self) -> (r: u32)
        ensures
            r == self.spec_code(),
    {
        match self {
            ColumnType::Group => 0,
            ColumnType::Actor => 1,
            ColumnType::Integer => 2,
            ColumnType::DeltaInteger => 3,
            ColumnType::Boolean => 4,
            ColumnType::String => 5,
            ColumnType::ValueMetadata => 6,
            ColumnType::Value => 7,
        }
    }
}

/// The number of a column. Columns of one number belong together.
#[derive(Clone, Copy, Debug, PartialEq, Eq, Structural)]
pub struct ColumnId(pub u32);

/// A column's number, whether it is compressed, and its type, in one number:
/// the type in the low three bits, the flag in the next, the number above.
#[derive(Clone, Copy, Debug, PartialEq, Eq, Structural)]
pub struct ColumnSpec(pub u32);

impl ColumnSpec {
    pub open spec fn spec_id(self) -> ColumnId {
        ColumnId(self.0 / 16)
    }

    pub open spec fn spec_deflate(self) -> bool {
        (self.0 / 8) % 2 == 1
    }

    pub open spec fn spec_type(self) -> ColumnType {
        ColumnType::of_code(self.0 % 8)
    }

    /// The specification without its compression flag: what columns are ordered
    /// by.
    pub open spec fn normal(self) -> int {
        if self.spec_deflate() {
            self.0 - 8
        } else {
            self.0 as int
        }
    }

    pub open spec fn make(id: ColumnId, col_type: ColumnType, deflate: bool) -> ColumnSpec {
        ColumnSpec((id.0 * 16 + (if deflate { 8int } else { 0 }) + col_type.spec_code()) as u32)
    }

    pub fn new(id: ColumnId, col_type: ColumnType, deflate: bool) -> (r: ColumnSpec)
        requires
            id.0 < 0x1000_0000,
        ensures
            r == ColumnSpec::make(id, col_type, deflate),
            r.spec_id() == id,
            r.spec_type() == col_type,
            r.spec_deflate() == deflate,
    {
        let flag: u32 = if deflate {
            8
        } else {
            0
        };
        ColumnSpec(id.0 * 16 + flag + col_type.code())
    }

    pub fn id(&self) -> (r: ColumnId)
        ensures
            r == self.spec_id(),
    {
        ColumnId(self.0 / 16)
    }

    pub fn col_type(&self) -> (r: ColumnType)
        ensures
            r == self.spec_type(),
    {
        match self.0 % 8 {
            0 => ColumnType::Group,
            1 => ColumnType::Actor,
            2 => ColumnType::Integer,
            3 => ColumnType::DeltaInteger,
            4 => ColumnType::Boolean,
            5 => ColumnType::String,
            6 => ColumnType::ValueMetadata,
            _ => ColumnType::Value,
        }
    }

    pub fn deflate(&self) -> (r: bool)
        ensures
            r == self.spec_deflate(),
    {
        (self.0 / 8) % 2 == 1
    }

    /// The specification without its compression flag.
    pub fn normalize(&self) -> (r: u32)
        ensures
            r == self.normal(),
    {
        if self.deflate() {
            self.0 - 8
        } else {
            self.0
        }
    }
}

/// A column and where its bytes stand among those of all columns.
#[derive(Debug)]
pub struct RawColumn {
    pub spec: ColumnSpec,
    pub data: Range<usize>,
}

impl RawColumn {
    pub fn new(spec: ColumnSpec, data: Range<usize>) -> (r: RawColumn)
        ensures
            r.spec == spec,
            r.data == data,
    {
        RawColumn { spec, data }
    }

    pub fn spec(&self) -> (r: ColumnSpec)
        ensures
            r == self.spec,
    {
        self.spec
    }

    pub fn data(&self) -> (r: Range<usize>)
        ensures
            r == self.data,
    {
        self.data.start..self.data.end
    }
}

impl Clone for RawColumn {
    fn clone(&self) -> (r: Self)
        ensures
            r == *self,
    {
        RawColumn { spec: self.spec, data: self.data.start..self.data.end }
    }
}

/// The columns of a chunk.
#[derive(Debug)]
pub struct RawColumns(pub Vec<RawColumn>);

/// Why bytes are no list of columns.
#[derive(Clone, Copy, Debug, PartialEq, Eq, Structural)]
pub enum RawColumnsError {
    NotInNormalOrder,
}

impl View for RawColumns {
    type V = Seq<RawColumn>;

    open spec fn view(&self) -> Seq<RawColumn> {
        self.0@
    }
}

/// The columns stand one behind the other, from the start.
pub open spec fn contiguous(cols: Seq<RawColumn>) -> bool {
    forall|i: int|
        0 <= i < cols.len() ==> (#[trigger] cols[i]).data.start == end_before(cols, i)
            && cols[i].data.start <= cols[i].data.end
}

/// Where the columns before the `i`-th end.
pub open spec fn end_before(cols: Seq<RawColumn>, i: int) -> nat {
    if i == 0 {
        0
    } else {
        cols[i - 1].data.end as nat
    }
}

/// Where the columns end.
pub open spec fn columns_end(cols: Seq<RawColumn>) -> nat {
    end_before(cols, cols.len() as int)
}

/// Every column stands within `len` bytes.
pub open spec fn within(cols: Seq<RawColumn>, len: nat) -> bool {
    forall|i: int|
        0 <= i < cols.len() ==> (#[trigger] cols[i]).data.start <= cols[i].data.end
            && cols[i].data.end <= len
}

/// Some column is compressed.
pub open spec fn compressed(cols: Seq<RawColumn>) -> bool {
    exists|i: int| 0 <= i < cols.len() && (#[trigger] cols[i]).spec.spec_deflate()
}

/// The columns are in the order of their specifications.
pub open spec fn in_normal_order(cols: Seq<RawColumn>) -> bool {
    forall|i: int, j: int|
        0 <= i <= j < cols.len() ==> (#[trigger] cols[i]).spec.normal() <= (
        #[trigger] cols[j]).spec.normal()
}

/// A column's specification and its length, as the list of columns has them.
pub type Entry = (u32, u64);

/// `n` specifications, each with a length.
pub open spec fn entries_parse(s: Seq<u8>, n: nat) -> Parsed<Seq<Entry>>
    decreases n,
{
    if n == 0 {
        Ok((Seq::empty(), s))
    } else {
        match parse::u32_parse(s) {
            Ok((spec, rest)) => match parse::u64_parse(rest) {
                Ok((len, rest)) => match entries_parse(rest, (n - 1) as nat) {
                    Ok((entries, rest)) => Ok((seq![(spec, len)] + entries, rest)),
                    Err(e) => Err(e),
                },
                Err(e) => Err(e),
            },
            Err(e) => Err(e),
        }
    }
}

/// The length of all columns up to the `i`-th.
pub open spec fn length_before(entries: Seq<Entry>, i: nat) -> nat
    decreases i,
{
    if i == 0 {
        0
    } else {
        length_before(entries, (i - 1) as nat) + entries[i - 1].1 as nat
    }
}

/// The columns of a list, one behind the other.
pub open spec fn layout(entries: Seq<Entry>) -> Seq<RawColumn> {
    Seq::new(
        entries.len(),
        |i: int|
            RawColumn {
                spec: ColumnSpec(entries[i].0),
                data: Range {
                    start: length_before(entries, i as nat) as usize,
                    end: length_before(entries, (i + 1) as nat) as usize,
                },
            },
    )
}

/// A list of columns: a count, and for each its specification and its length.
/// The list must be in order, and the bytes of all columns must follow.
#[verifier::opaque]
pub open spec fn columns_parse(s: Seq<u8>) -> Parsed<Seq<RawColumn>> {
    match parse::u64_parse(s) {
        Ok((n, rest)) => match entries_parse(rest, n as nat) {
            Ok((entries, rest)) => if !in_normal_order(layout(entries)) {
                Err(ParseError::Error(ChangeError::RawColumns(RawColumnsError::NotInNormalOrder)))
            } else if length_before(entries, entries.len()) > rest.len() {
                Err(ParseError::Incomplete)
            } else {
                Ok((layout(entries), rest))
            },
            Err(e) => Err(e),
        },
        Err(e) => Err(e),
    }
}

/// What the list of columns has of them.
pub open spec fn entries_of(cols: Seq<RawColumn>) -> Seq<Entry> {
    Seq::new(cols.len(), |i: int| (cols[i].spec.0, (cols[i].data.end - cols[i].data.start) as u64))
}

pub open spec fn entries_bytes(entries: Seq<Entry>) -> Seq<u8>
    decreases entries.len(),
{
    if entries.len() == 0 {
        Seq::empty()
    } else {
        leb::uleb_bytes(entries[0].0 as nat) + leb::uleb_bytes(entries[0].1 as nat)
            + entries_bytes(entries.drop_first())
    }
}

/// The bytes of a list of columns.
pub open spec fn manifest(cols: Seq<RawColumn>) -> Seq<u8> {
    leb::uleb_bytes(cols.len()) + entries_bytes(entries_of(cols))
}

proof fn lemma_entries_parse_of_bytes(entries: Seq<Entry>, rest: Seq<u8>)
    ensures
        entries_parse(entries_bytes(entries) + rest, entries.len()) == Ok::<_, ParseError>(
            (entries, rest),
        ),
    decreases entries.len(),
{
    if entries.len() > 0 {
        let tail = entries_bytes(entries.drop_first()) + rest;
        let mid = leb::uleb_bytes(entries[0].1 as nat) + tail;
        let spec = leb::uleb_bytes(entries[0].0 as nat);
        let len = leb::uleb_bytes(entries[0].1 as nat);
        parse::lemma_add_assoc(spec + len, entries_bytes(entries.drop_first()), rest);
        parse::lemma_add_assoc(spec, len, tail);
        parse::lemma_u64_parse_of_bytes(entries[0].0 as u64, mid);
        parse::lemma_u64_parse_of_bytes(entries[0].1, tail);
        lemma_entries_parse_of_bytes(entries.drop_first(), rest);
        assert(seq![entries[0]] + entries.drop_first() =~= entries);
    } else {
        assert(entries_bytes(entries) + rest =~= rest);
        assert(entries =~= Seq::empty());
    }
}

proof fn lemma_length_before_of_contiguous(cols: Seq<RawColumn>, i: nat)
    requires
        contiguous(cols),
        i <= cols.len(),
    ensures
        length_before(entries_of(cols), i) == end_before(cols, i as int),
    decreases i,
{
    if i > 0 {
        lemma_length_before_of_contiguous(cols, (i - 1) as nat);
        assert(cols[i - 1].data.start == end_before(cols, i - 1));
    }
}

proof fn lemma_length_before_monotonic(entries: Seq<Entry>, i: nat, j: nat)
    requires
        i <= j,
    ensures
        length_before(entries, i) <= length_before(entries, j),
    decreases j,
{
    if i < j {
        lemma_length_before_monotonic(entries, i, (j - 1) as nat);
    }
}

/// A list of columns is parsed back from the bytes it was written to.
pub proof fn columns_parse_of_manifest(cols: Seq<RawColumn>, rest: Seq<u8>)
    requires
        contiguous(cols),
        in_normal_order(cols),
        columns_end(cols) <= rest.len(),
        cols.len() <= u64::MAX,
    ensures
        columns_parse(manifest(cols) + rest) == Ok::<_, ParseError>((cols, rest)),
{
    reveal(columns_parse);
    let entries = entries_of(cols);
    let tail = entries_bytes(entries) + rest;
    parse::lemma_add_assoc(leb::uleb_bytes(cols.len()), entries_bytes(entries), rest);
    parse::lemma_u64_parse_of_bytes(cols.len() as u64, tail);
    lemma_entries_parse_of_bytes(entries, rest);
    lemma_length_before_of_contiguous(cols, cols.len());
    assert forall|i: int| 0 <= i < cols.len() implies layout(entries)[i] == cols[i] by {
        lemma_length_before_of_contiguous(cols, i as nat);
        lemma_length_before_of_contiguous(cols, (i + 1) as nat);
    }
    assert(layout(entries) =~= cols);
}

/// What is parsed as a list of columns stands in the bytes that follow.
pub proof fn lemma_columns_parse_within(s: Seq<u8>)
    requires
        s.len() <= usize::MAX,
    ensures
        columns_parse(s) matches Ok((cols, rest)) ==> contiguous(cols) && within(
            cols,
            columns_end(cols),
        ) && columns_end(cols) <= rest.len() && rest.len() <= s.len(),
{
    reveal(columns_parse);
    match columns_parse(s) {
        Ok((cols, rest)) => {
            lemma_rest_shorter(s);
            let n = match parse::u64_parse(s) {
                Ok((n, _)) => n as nat,
                Err(_) => 0,
            };
            let entries = match parse::u64_parse(s) {
                Ok((n, r)) => match entries_parse(r, n as nat) {
                    Ok((entries, _)) => entries,
                    Err(_) => Seq::empty(),
                },
                Err(_) => Seq::empty(),
            };
            assert forall|i: int| 0 <= i < cols.len() implies (#[trigger] cols[i]).data.start
                == end_before(cols, i) && cols[i].data.start <= cols[i].data.end && cols[i].data.end
                <= columns_end(cols) by {
                lemma_length_before_monotonic(entries, i as nat, (i + 1) as nat);
                lemma_length_before_monotonic(entries, (i + 1) as nat, entries.len());
            }
            if cols.len() > 0 {
                lemma_length_before_monotonic(entries, entries.len(), entries.len());
            }
        },
        Err(_) => {},
    }
}

proof fn lemma_entries_rest_shorter(s: Seq<u8>, n: nat)
    ensures
        entries_parse(s, n) matches Ok((_, rest)) ==> rest.len() <= s.len(),
    decreases n,
{
    if n > 0 {
        parse::lemma_uleb_parse_bounds(s, 0);
        match parse::u32_parse(s) {
            Ok((_, rest)) => {
                parse::lemma_uleb_parse_bounds(rest, 0);
                match parse::u64_parse(rest) {
                    Ok((_, rest)) => {
                        lemma_entries_rest_shorter(rest, (n - 1) as nat);
                    },
                    Err(_) => {},
                }
            },
            Err(_) => {},
        }
    }
}

proof fn lemma_rest_shorter(s: Seq<u8>)
    ensures
        columns_parse(s) matches Ok((_, rest)) ==> rest.len() <= s.len(),
{
    reveal(columns_parse);
    parse::lemma_uleb_parse_bounds(s, 0);
    match parse::u64_parse(s) {
        Ok((n, rest)) => {
            lemma_entries_rest_shorter(rest, n as nat);
        },
        Err(_) => {},
    }
}

fn parse_entries(input: Input<'_>, count: u64) -> (r: Result<(Input<'_>, Vec<Entry>), ParseError>)
    requires
        input.wf(),
    ensures
        input.advanced(r, |v: Vec<Entry>| v@, entries_parse(input.rest(), count as nat)),
{
    let mut i = input;
    let mut out: Vec<Entry> = Vec::new();
    let mut done: u64 = 0;
    proof {
        match entries_parse(i.rest(), count as nat) {
            Ok((es, _)) => assert(out@ + es =~= es),
            Err(_) => {},
        }
    }
    while done < count
        invariant
            done <= count,
            i.wf(),
            i.whole() == input.whole(),
            i.at() >= input.at(),
            entries_parse(input.rest(), count as nat) == match entries_parse(
                i.rest(),
                (count - done) as nat,
            ) {
                Ok((es, rest)) => Ok((out@ + es, rest)),
                Err(e) => Err::<(Seq<Entry>, Seq<u8>), ParseError>(e),
            },
        decreases count - done,
    {
        let ghost before = out@;
        let (j, spec): (Input<'_>, u32) = match parse::leb128_u32(i) {
            Ok(read) => read,
            Err(e) => {
                return Err(e);
            },
        };
        let (j, len): (Input<'_>, u64) = match parse::leb128_u64(j) {
            Ok(read) => read,
            Err(e) => {
                return Err(e);
            },
        };
        out.push((spec, len));
        proof {
            match entries_parse(j.rest(), (count - done - 1) as nat) {
                Ok((es, _)) => assert(before + (seq![(spec, len)] + es) =~= out@ + es),
                Err(_) => {},
            }
        }
        i = j;
        done += 1;
    }
    proof {
        assert(out@ + Seq::<Entry>::empty() =~= out@);
    }
    Ok((i, out))
}

fn entries_in_order(entries: &Vec<Entry>) -> (r: bool)
    ensures
        r == in_normal_order(layout(entries@)),
{
    let mut i: usize = 1;
    let ghost cols = layout(entries@);
    while i < entries.len()
        invariant
            1 <= i,
            i <= entries.len() || entries.len() == 0,
            cols == layout(entries@),
            forall|a: int, b: int|
                0 <= a <= b < i && b < entries.len() ==> (#[trigger] cols[a]).spec.normal() <= (
                #[trigger] cols[b]).spec.normal(),
        decreases entries.len() - i,
    {
        let here: u32 = ColumnSpec(entries[i].0).normalize();
        let before: u32 = ColumnSpec(entries[i - 1].0).normalize();
        assert(cols[i as int].spec.normal() == here);
        assert(cols[i - 1].spec.normal() == before);
        if here < before {
            return false;
        }
        assert forall|a: int, b: int| 0 <= a <= b < i + 1 implies (
        #[trigger] cols[a]).spec.normal() <= (#[trigger] cols[b]).spec.normal() by {
            if b == i && a < i {
                assert(cols[a].spec.normal() <= cols[i - 1].spec.normal());
            }
        }
        i += 1;
    }
    true
}

impl RawColumns {
    /// Parses a list of columns. The bytes of the columns themselves follow it.
    pub fn parse(input: Input<'_>) -> (r: Result<(Input<'_>, RawColumns), ParseError>)
        requires
            input.wf(),
        ensures
            input.advanced(r, |v: RawColumns| v@, columns_parse(input.rest())),
    {
        proof {
            reveal(columns_parse);
        }
        let (i, count): (Input<'_>, u64) = match parse::leb128_u64(input) {
            Ok(read) => read,
            Err(e) => {
                return Err(e);
            },
        };
        let (i, entries): (Input<'_>, Vec<Entry>) = match parse_entries(i, count) {
            Ok(read) => read,
            Err(e) => {
                return Err(e);
            },
        };
        if !entries_in_order(&entries) {
            return Err(
                ParseError::Error(ChangeError::RawColumns(RawColumnsError::NotInNormalOrder)),
            );
        }
        let room: usize = i.remaining();
        let mut cols: Vec<RawColumn> = Vec::new();
        let mut end: usize = 0;
        let mut k: usize = 0;
        while k < entries.len()
            invariant
                k <= entries.len(),
                end <= room,
                end == length_before(entries@, k as nat),
                cols@ =~= layout(entries@).take(k as int),
                room == i.rest().len(),
                in_normal_order(layout(entries@)),
                columns_parse(input.rest()) == (if length_before(entries@, entries@.len())
                    > i.rest().len() {
                    Err(ParseError::Incomplete)
                } else {
                    Ok((layout(entries@), i.rest()))
                }),
            decreases entries.len() - k,
        {
            let (spec, len): (u32, u64) = entries[k];
            if len > (room - end) as u64 {
                proof {
                    lemma_length_before_monotonic(entries@, (k + 1) as nat, entries@.len());
                }
                return Err(ParseError::Incomplete);
            }
            let start: usize = end;
            end += len as usize;
            cols.push(RawColumn { spec: ColumnSpec(spec), data: start..end });
            assert(cols@[k as int] == layout(entries@)[k as int]);
            k += 1;
        }
        assert(cols@ =~= layout(entries@));
        Ok((i, RawColumns(cols)))
    }

    /// The length of all columns together.
    pub fn total_column_len(&self) -> (r: usize)
        requires
            contiguous(self@),
        ensures
            r == columns_end(self@),
    {
        if self.0.len() == 0 {
            0
        } else {
            self.0[self.0.len() - 1].data.end
        }
    }

    /// The columns, where none of them is compressed.
    pub fn uncompressed(self) -> (r: Option<RawColumns>)
        ensures
            r is None <==> compressed(self@),
            r matches Some(cols) ==> cols@ == self@,
    {
        let mut i: usize = 0;
        while i < self.0.len()
            invariant
                i <= self@.len(),
                forall|j: int| 0 <= j < i ==> !(#[trigger] self@[j]).spec.spec_deflate(),
            decreases self@.len() - i,
        {
            if self.0[i].spec.deflate() {
                assert(self@[i as int].spec.spec_deflate());
                return None;
            }
            i += 1;
        }
        Some(self)
    }

    /// Appends the list of columns.
    pub fn write(&self, out: &mut Vec<u8>)
        requires
            within(self@, usize::MAX as nat),
        ensures
            final(out)@ == old(out)@ + manifest(self@),
    {
        let ghost entries = entries_of(self@);
        leb::write_unsigned(out, self.0.len() as u64);
        let mut i: usize = 0;
        assert(entries.skip(0) =~= entries);
        assert(out@ + entries_bytes(entries.skip(0)) =~= old(out)@ + manifest(self@));
        while i < self.0.len()
            invariant
                i <= self@.len(),
                entries == entries_of(self@),
                within(self@, usize::MAX as nat),
                out@ + entries_bytes(entries.skip(i as int)) == old(out)@ + manifest(self@),
            decreases self@.len() - i,
        {
            let ghost before = out@;
            let col = &self.0[i];
            leb::write_unsigned(out, col.spec.0 as u64);
            leb::write_unsigned(out, (col.data.end - col.data.start) as u64);
            proof {
                let here = entries.skip(i as int);
                assert(here.drop_first() =~= entries.skip(i + 1));
                assert(here[0] == entries[i as int]);
                assert(before + entries_bytes(here) =~= out@ + entries_bytes(here.drop_first()));
            }
            i += 1;
        }
        assert(entries.skip(i as int) =~= Seq::empty());
        assert(out@ + Seq::<u8>::empty() =~= out@);
    }
}

impl Clone for RawColumns {
    fn clone(&self) -> (r: Self)
        ensures
            r@ == self@,
    {
        let mut out: Vec<RawColumn> = Vec::new();
        let mut i: usize = 0;
        while i < self.0.len()
            invariant
                i <= self@.len(),
                out@ == self@.take(i as int),
            decreases self@.len() - i,
        {
            out.push(self.0[i].clone());
            assert(self@.take(i as int).push(self@[i as int]) =~= self@.take(i + 1));
            i += 1;
        }
        assert(self@.take(i as int) =~= self@);
        RawColumns(out)
    }
}

/// The specification of a column is sixteen times its number, eight if it is
/// compressed, and the number of its type. Each type has a number up to 7.
pub proof fn specifications_are_made_so(id: ColumnId, col_type: ColumnType, deflate: bool)
    requires
        id.0 < 0x1000_0000,
    ensures
        ({
            let number = match col_type {
                ColumnType::Group => 0int,
                ColumnType::Actor => 1int,
                ColumnType::Integer => 2int,
                ColumnType::DeltaInteger => 3int,
                ColumnType::Boolean => 4int,
                ColumnType::String => 5int,
                ColumnType::ValueMetadata => 6int,
                ColumnType::Value => 7int,
            };
            let spec = ColumnSpec::make(id, col_type, deflate);
            &&& spec.0 == id.0 * 16 + (if deflate {
                8int
            } else {
                0int
            }) + number
            &&& spec.spec_id() == id
            &&& spec.spec_type() == col_type
            &&& spec.spec_deflate() == deflate
            &&& spec.normal() == id.0 * 16 + number
        }),
{
}

/// Every number is the specification that its parts make.
pub proof fn every_number_is_a_specification(spec: ColumnSpec)
    ensures
        ColumnSpec::make(spec.spec_id(), spec.spec_type(), spec.spec_deflate()) == spec,
        spec.spec_id().0 == spec.0 / 16,
        spec.spec_deflate() <==> (spec.0 / 8) % 2 == 1,
        spec.normal() == (spec.0 / 16) * 16 + spec.0 % 8,
{
}

proof fn lemma_entries_parse_shape(s: Seq<u8>, n: nat)
    ensures
        entries_parse(s, n) matches Ok((entries, rest)) ==> entries.len() == n && s
            == entries_bytes(entries) + rest,
    decreases n,
{
    if n == 0 {
        assert(entries_bytes(Seq::empty()) + s =~= s);
    } else {
        match parse::u64_parse(s) {
            Ok((spec, on)) => {
                parse::unsigned_numbers_are_parsed_so(s, spec, on);
                match parse::u64_parse(on) {
                    Ok((len, on2)) => {
                        parse::unsigned_numbers_are_parsed_so(on, len, on2);
                        lemma_entries_parse_shape(on2, (n - 1) as nat);
                        match entries_parse(on2, (n - 1) as nat) {
                            Ok((more, rest)) => {
                                let all = seq![(spec as u32, len)] + more;
                                assert(all.drop_first() =~= more);
                                let a = leb::uleb_bytes(spec as nat);
                                let b = leb::uleb_bytes(len as nat);
                                parse::lemma_add_assoc(a, b, on2);
                                parse::lemma_add_assoc(a + b, entries_bytes(more), rest);
                            },
                            Err(_) => {},
                        }
                    },
                    Err(_) => {},
                }
            },
            Err(_) => {},
        }
    }
}

proof fn lemma_entries_flat(entries: Seq<Entry>)
    ensures
        entries_bytes(entries) == entries.flat_map(
            |entry: Entry| leb::uleb_bytes(entry.0 as nat) + leb::uleb_bytes(entry.1 as nat),
        ),
    decreases entries.len(),
{
    let f = |entry: Entry| leb::uleb_bytes(entry.0 as nat) + leb::uleb_bytes(entry.1 as nat);
    if entries.len() > 0 {
        lemma_entries_flat(entries.drop_first());
        assert(entries.map_values(f).drop_first() =~= entries.drop_first().map_values(f));
    }
}

/// The list of columns is their number and, of each, its specification and how
/// many bytes it has.
pub proof fn lists_of_columns_are_flat(cols: Seq<RawColumn>)
    requires
        forall|i: int|
            0 <= i < cols.len() ==> (#[trigger] cols[i]).data.start <= cols[i].data.end,
    ensures
        manifest(cols) == leb::uleb_bytes(cols.len()) + cols.flat_map(
            |col: RawColumn|
                leb::uleb_bytes(col.spec.0 as nat) + leb::uleb_bytes(
                    (col.data.end - col.data.start) as nat,
                ),
        ),
{
    let entries = entries_of(cols);
    let f = |entry: Entry| leb::uleb_bytes(entry.0 as nat) + leb::uleb_bytes(entry.1 as nat);
    let g = |col: RawColumn|
        leb::uleb_bytes(col.spec.0 as nat) + leb::uleb_bytes(
            (col.data.end - col.data.start) as nat,
        );
    lemma_entries_flat(entries);
    assert(entries.map_values(f) =~= cols.map_values(g)) by {
        assert forall|i: int| 0 <= i < cols.len() implies entries.map_values(f)[i]
            == cols.map_values(g)[i] by {
            assert(cols[i].data.start <= cols[i].data.end);
        }
    }
}

proof fn lemma_entries_of_layout(entries: Seq<Entry>)
    requires
        length_before(entries, entries.len()) <= usize::MAX,
    ensures
        entries_of(layout(entries)) == entries,
{
    assert forall|i: int| 0 <= i < entries.len() implies #[trigger] entries_of(layout(entries))[i]
        == entries[i] by {
        lemma_length_before_monotonic(entries, i as nat, (i + 1) as nat);
        lemma_length_before_monotonic(entries, (i + 1) as nat, entries.len());
    }
    assert(entries_of(layout(entries)) =~= entries);
}

pub proof fn lemma_columns_parse_shape(s: Seq<u8>)
    requires
        s.len() <= usize::MAX,
    ensures
        columns_parse(s) matches Ok((cols, rest)) ==> s == manifest(cols) + rest
            && in_normal_order(cols),
{
    reveal(columns_parse);
    match parse::u64_parse(s) {
        Ok((n, on)) => {
            parse::unsigned_numbers_are_parsed_so(s, n, on);
            lemma_entries_parse_shape(on, n as nat);
            lemma_entries_rest_shorter(on, n as nat);
            match entries_parse(on, n as nat) {
                Ok((entries, rest)) => {
                    if length_before(entries, entries.len()) <= rest.len() {
                        assert(on.len() <= s.len());
                        lemma_entries_of_layout(entries);
                        parse::lemma_add_assoc(
                            leb::uleb_bytes(entries.len()),
                            entries_bytes(entries),
                            rest,
                        );
                    }
                },
                Err(_) => {},
            }
        },
        Err(_) => {},
    }
}

/// Where a list of columns is parsed, its bytes stand at the front, and the
/// columns are ordered by their specifications without the bit of compression.
pub proof fn lists_of_columns_are_parsed_so(s: Seq<u8>, i: int, j: int)
    requires
        s.len() <= usize::MAX,
    ensures
        columns_parse(s) matches Ok((cols, rest)) ==> s == manifest(cols) + rest && (0 <= i <= j
            < cols.len() ==> (cols[i].spec.0 / 16) * 16 + cols[i].spec.0 % 8 <= (cols[j].spec.0
            / 16) * 16 + cols[j].spec.0 % 8),
{
    lemma_columns_parse_shape(s);
    match columns_parse(s) {
        Ok((cols, _)) => {
            if 0 <= i <= j < cols.len() {
                assert(cols[i].spec.normal() <= cols[j].spec.normal());
                every_number_is_a_specification(cols[i].spec);
                every_number_is_a_specification(cols[j].spec);
            }
        },
        Err(_) => {},
    }
}

/// The columns of a list that is parsed stand one behind the other in the bytes
/// that follow.
pub proof fn columns_stand_one_behind_the_other(s: Seq<u8>, i: int)
    requires
        s.len() <= usize::MAX,
    ensures
        columns_parse(s) matches Ok((cols, rest)) ==> (0 <= i < cols.len() ==> {
            &&& cols[i].data.start <= cols[i].data.end <= rest.len()
            &&& i == 0 ==> cols[i].data.start == 0
            &&& i > 0 ==> cols[i].data.start == cols[i - 1].data.end
        }),
{
    lemma_columns_parse_within(s);
}

/// A list of columns fails with its count or the first number in it that fails.
/// Otherwise it is not in order where a column is behind one of a higher
/// specification, and else incomplete where the bytes of the columns do not follow.
pub proof fn lists_of_columns_fail_so(s: Seq<u8>)
    ensures
        match parse::u64_parse(s) {
            Err(e) => columns_parse(s) == Err::<(Seq<RawColumn>, Seq<u8>), _>(e),
            Ok((n, on)) => match entries_parse(on, n as nat) {
                Err(e) => columns_parse(s) == Err::<(Seq<RawColumn>, Seq<u8>), _>(e),
                Ok((entries, rest)) => {
                    let order = |i: int| (entries[i].0 / 16) * 16 + entries[i].0 % 8;
                    let total = entries.fold_left(0nat, |sum: nat, entry: Entry| sum + entry.1 as nat);
                    if exists|i: int, j: int|
                        0 <= i <= j < entries.len() && #[trigger] order(i) > #[trigger] order(j) {
                        columns_parse(s) == Err::<(Seq<RawColumn>, Seq<u8>), _>(
                            ParseError::Error(
                                ChangeError::RawColumns(RawColumnsError::NotInNormalOrder),
                            ),
                        )
                    } else if total > rest.len() {
                        columns_parse(s) == Err::<(Seq<RawColumn>, Seq<u8>), _>(
                            ParseError::Incomplete,
                        )
                    } else {
                        columns_parse(s) is Ok
                    }
                },
            },
        },
{
    reveal(columns_parse);
    match parse::u64_parse(s) {
        Ok((n, on)) => match entries_parse(on, n as nat) {
            Ok((entries, rest)) => {
                let order = |i: int| (entries[i].0 / 16) * 16 + entries[i].0 % 8;
                let cols = layout(entries);
                lemma_total(entries, entries.len());
                assert(entries.take(entries.len() as int) =~= entries);
                assert forall|i: int| 0 <= i < entries.len() implies #[trigger] order(i)
                    == cols[i].spec.normal() by {
                    every_number_is_a_specification(cols[i].spec);
                }
                if in_normal_order(cols) {
                    assert forall|i: int, j: int| 0 <= i <= j < entries.len() implies !(
                    #[trigger] order(i) > #[trigger] order(j)) by {
                        assert(cols[i].spec.normal() <= cols[j].spec.normal());
                    }
                } else {
                    let (i, j) = choose|i: int, j: int|
                        0 <= i <= j < cols.len() && !((#[trigger] cols[i]).spec.normal() <= (
                        #[trigger] cols[j]).spec.normal());
                    assert(order(i) > order(j));
                }
            },
            Err(_) => {},
        },
        Err(_) => {},
    }
}

proof fn lemma_total(entries: Seq<Entry>, n: nat)
    requires
        n <= entries.len(),
    ensures
        length_before(entries, n) == entries.take(n as int).fold_left(
            0nat,
            |sum: nat, entry: Entry| sum + entry.1 as nat,
        ),
    decreases n,
{
    if n > 0 {
        lemma_total(entries, (n - 1) as nat);
        assert(entries.take(n as int).drop_last() =~= entries.take(n - 1));
    }
}

/// A column in a list is a specification of 32 bits and a length of 64, and fails
/// with the first of them that fails.
pub proof fn entries_are_parsed_so(s: Seq<u8>, n: nat)
    requires
        n > 0,
    ensures
        match parse::u32_parse(s) {
            Err(e) => entries_parse(s, n) == Err::<(Seq<Entry>, Seq<u8>), _>(e),
            Ok((spec, on)) => match parse::u64_parse(on) {
                Err(e) => entries_parse(s, n) == Err::<(Seq<Entry>, Seq<u8>), _>(e),
                Ok((len, on)) => match entries_parse(on, (n - 1) as nat) {
                    Err(e) => entries_parse(s, n) == Err::<(Seq<Entry>, Seq<u8>), _>(e),
                    Ok((more, rest)) => entries_parse(s, n) == Ok::<_, ParseError>(
                        (seq![(spec, len)] + more, rest),
                    ),
                },
            },
        },
        entries_parse(s, 0) == Ok::<_, ParseError>((Seq::<Entry>::empty(), s)),
{
}

} // verus!
