//! The layout of a snapshot after its byte-order flag: the prologue, then
//! the entries, each a fixed header followed by a name and a value.
//!
//! The readers work through the stream field by field. One that fails
//! leaves the stream at the field that it could not read or, where the
//! content of a field is at fault, after that field.

use vstd::prelude::*;
use vstd::utf8::valid_utf8;
use crate::byte_order::{
    decode_i64, i32_of, i64_of, lemma_orders_mirror_64, signed8, Endianness,
};
use crate::entry::{
    unit_of, variability_of, EntryView, PerfDataEntry, PerfDataPrologue, PerfDataUnit,
    PerfDataValue, PerfDataVariability, ValueView,
};
use crate::error::DecodeError;
use crate::store::EntryMap;
use crate::stream::{ByteStream, Outcome};
use crate::text::{decode_text, text_of};

verus! {

/// The number of bytes of the prologue after the byte-order flag.
pub const PROLOGUE_LEN: usize = 27;

/// The number of bytes of an entry's fixed header.
pub const HEADER_LEN: usize = 20;

/// The type tag of a text value, `'B'`.
pub const TAG_TEXT: u8 = 0x42;

/// The type tag of a 64-bit integer value, `'J'`.
pub const TAG_LONG: u8 = 0x4a;

/// The fixed header of an entry.
#[derive(Clone, Copy, Debug, PartialEq, Eq, Structural)]
pub struct EntryHeader {
    pub entry_length: i32,
    pub name_offset: i32,
    pub vector_length: i32,
    pub data_type: u8,
    pub flags: i8,
    pub data_units: u8,
    pub data_variability: u8,
    pub data_offset: i32,
}

impl EntryHeader {
    /// The number of bytes of the name field, padding included.
    pub open spec fn name_length(&self) -> int {
        self.data_offset - self.name_offset
    }

    /// The number of bytes of the value field, padding included.
    pub open spec fn value_length(&self) -> int {
        self.entry_length - self.data_offset
    }
}

/// The prologue that the first 27 bytes of `input` hold.
pub open spec fn prologue_of(order: Endianness, input: Seq<u8>) -> PerfDataPrologue {
    PerfDataPrologue {
        major_version: signed8(input[0] as int) as i8,
        minor_version: signed8(input[1] as int) as i8,
        accessible: signed8(input[2] as int) as i8,
        used: i32_of(order, input.skip(3)) as i32,
        overflow: i32_of(order, input.skip(7)) as i32,
        mod_time_stamp: i64_of(order, input.skip(11)) as i64,
        entry_offset: i32_of(order, input.skip(19)) as i32,
        num_entries: i32_of(order, input.skip(23)) as i32,
    }
}

/// The bytes of the leading fields of a prologue that fit wholly in `len`
/// bytes: three single bytes, two of four bytes, one of eight and two of
/// four.
pub open spec fn prologue_fields_within(len: int) -> int {
    if len < 1 {
        0
    } else if len < 2 {
        1
    } else if len < 3 {
        2
    } else if len < 7 {
        3
    } else if len < 11 {
        7
    } else if len < 19 {
        11
    } else if len < 23 {
        19
    } else if len < 27 {
        23
    } else {
        27
    }
}

/// Reading a prologue from `input`: the prologue and the input after it
/// or, where the input ends within the prologue, the input from the first
/// field that is not whole.
pub open spec fn parse_prologue(order: Endianness, input: Seq<u8>) -> Outcome<PerfDataPrologue> {
    if input.len() < PROLOGUE_LEN {
        Outcome {
            result: Err(DecodeError::Truncated),
            rest: input.skip(prologue_fields_within(input.len() as int)),
        }
    } else {
        Outcome { result: Ok(prologue_of(order, input)), rest: input.skip(PROLOGUE_LEN as int) }
    }
}

/// The entry header that the first 20 bytes of `input` hold.
pub open spec fn header_of(order: Endianness, input: Seq<u8>) -> EntryHeader {
    EntryHeader {
        entry_length: i32_of(order, input) as i32,
        name_offset: i32_of(order, input.skip(4)) as i32,
        vector_length: i32_of(order, input.skip(8)) as i32,
        data_type: input[12],
        flags: signed8(input[13] as int) as i8,
        data_units: input[14],
        data_variability: input[15],
        data_offset: i32_of(order, input.skip(16)) as i32,
    }
}

/// The bytes of the leading fields of an entry header that fit wholly in
/// `len` bytes: three of four bytes, four single bytes and one of four.
pub open spec fn header_fields_within(len: int) -> int {
    if len < 4 {
        0
    } else if len < 8 {
        4
    } else if len < 12 {
        8
    } else if len < 13 {
        12
    } else if len < 14 {
        13
    } else if len < 15 {
        14
    } else if len < 16 {
        15
    } else if len < 20 {
        16
    } else {
        20
    }
}

/// Reading an entry header from `input`: the header and the input after it
/// or, where the input ends within the header, the input from the first
/// field that is not whole.
pub open spec fn parse_header(order: Endianness, input: Seq<u8>) -> Outcome<EntryHeader> {
    if input.len() < HEADER_LEN {
        Outcome {
            result: Err(DecodeError::Truncated),
            rest: input.skip(header_fields_within(input.len() as int)),
        }
    } else {
        Outcome { result: Ok(header_of(order, input)), rest: input.skip(HEADER_LEN as int) }
    }
}

/// The value that a value field of type `tag` holds.
pub open spec fn parse_value(order: Endianness, tag: u8, field: Seq<u8>) -> Result<
    ValueView,
    DecodeError,
> {
    if tag == TAG_TEXT {
        if valid_utf8(field) {
            Ok(ValueView::Text(text_of(field)))
        } else {
            Err(DecodeError::InvalidText)
        }
    } else if tag == TAG_LONG {
        if field.len() >= 8 {
            Ok(ValueView::Long(i64_of(order, field) as i64))
        } else {
            Err(DecodeError::MalformedEntry)
        }
    } else {
        Err(DecodeError::UnsupportedType)
    }
}

/// Reading one entry from `input`: its name and content, and the input
/// after it. An entry with a negative length fails after its header, one
/// whose name or value field is cut short fails in front of that field, and
/// one whose name or value cannot be decoded fails after that field.
#[verifier::opaque]
pub open spec fn parse_entry(order: Endianness, input: Seq<u8>) -> Outcome<
    (Seq<char>, EntryView),
> {
    let header = header_of(order, input);
    let body = input.skip(HEADER_LEN as int);
    let name_field = body.take(header.name_length());
    let after_name = body.skip(header.name_length());
    let value_field = after_name.take(header.value_length());
    let after_value = after_name.skip(header.value_length());
    if input.len() < HEADER_LEN {
        Outcome { result: Err(DecodeError::Truncated), rest: parse_header(order, input).rest }
    } else if header.name_length() < 0 || header.value_length() < 0 {
        Outcome { result: Err(DecodeError::MalformedEntry), rest: body }
    } else if body.len() < header.name_length() {
        Outcome { result: Err(DecodeError::Truncated), rest: body }
    } else if !valid_utf8(name_field) {
        Outcome { result: Err(DecodeError::InvalidText), rest: after_name }
    } else if after_name.len() < header.value_length() {
        Outcome { result: Err(DecodeError::Truncated), rest: after_name }
    } else {
        match parse_value(order, header.data_type, value_field) {
            Err(e) => Outcome { result: Err(e), rest: after_value },
            Ok(value) => Outcome {
                result: Ok(
                    (
                        text_of(name_field),
                        EntryView {
                            value,
                            unit: unit_of(header.data_units),
                            variability: variability_of(header.data_variability),
                        },
                    ),
                ),
                rest: after_value,
            },
        }
    }
}

/// Reading `count` entries from `input` into `store`, each replacing what
/// the store held under its name: the store and the input after the last
/// or, where an entry fails, its error and the input that it leaves.
pub open spec fn parse_entries(
    order: Endianness,
    input: Seq<u8>,
    count: nat,
    store: Map<Seq<char>, EntryView>,
) -> Outcome<Map<Seq<char>, EntryView>>
    decreases count,
{
    if count == 0 {
        Outcome { result: Ok(store), rest: input }
    } else {
        let first = parse_entry(order, input);
        match first.result {
            Err(e) => Outcome { result: Err(e), rest: first.rest },
            Ok((name, entry)) => parse_entries(
                order,
                first.rest,
                (count - 1) as nat,
                store.insert(name, entry),
            ),
        }
    }
}

/// The number of entries that a prologue announces; a negative count
/// announces none.
pub open spec fn entry_count(prologue: PerfDataPrologue) -> nat {
    if prologue.num_entries < 0 {
        0
    } else {
        prologue.num_entries as nat
    }
}

/// The input in front of the entry with index `i` among those that follow
/// one another from the start of `input`, if all before it decode.
pub open spec fn input_at(order: Endianness, input: Seq<u8>, i: nat) -> Option<Seq<u8>>
    decreases i,
{
    if i == 0 {
        Some(input)
    } else {
        match parse_entry(order, input).result {
            Err(_) => None,
            Ok(_) => input_at(order, parse_entry(order, input).rest, (i - 1) as nat),
        }
    }
}

/// The name and content of the entry with index `i`, if it and all before
/// it decode.
pub open spec fn entry_at(order: Endianness, input: Seq<u8>, i: nat) -> Option<
    (Seq<char>, EntryView),
> {
    match input_at(order, input, i) {
        None => None,
        Some(at) => match parse_entry(order, at).result {
            Err(_) => None,
            Ok(pair) => Some(pair),
        },
    }
}

/// After a first entry that decodes, the entry with index `j + 1` is the
/// entry with index `j` of the input that the first one leaves.
pub proof fn lemma_entry_at_next(order: Endianness, input: Seq<u8>, j: nat)
    requires
        parse_entry(order, input).result is Ok,
    ensures
        entry_at(order, input, 0) == Some(parse_entry(order, input).result->Ok_0),
        input_at(order, input, j + 1) == input_at(order, parse_entry(order, input).rest, j),
        entry_at(order, input, j + 1) == entry_at(order, parse_entry(order, input).rest, j),
{
}

/// An entry whose offsets imply a negative name length or a negative value
/// length is rejected as malformed, with its header read.
pub proof fn lemma_negative_length_rejected(order: Endianness, input: Seq<u8>)
    requires
        input.len() >= HEADER_LEN,
        header_of(order, input).name_length() < 0 || header_of(order, input).value_length() < 0,
    ensures
        parse_entry(order, input).result == Err::<(Seq<char>, EntryView), DecodeError>(
            DecodeError::MalformedEntry,
        ),
        parse_entry(order, input).rest == input.skip(HEADER_LEN as int),
{
    reveal(parse_entry);
}

/// An entry that decodes has a name field of `data_offset - name_offset`
/// bytes and a value field of `entry_length - data_offset` bytes, neither
/// negative, right after its header; its name is the text of the first, its
/// value is read from the second, and the next entry starts after both.
pub proof fn lemma_entry_layout(order: Endianness, input: Seq<u8>)
    requires
        parse_entry(order, input).result is Ok,
    ensures
        ({
            let header = header_of(order, input);
            let name_start = HEADER_LEN as int;
            let value_start = name_start + header.name_length();
            let end = value_start + header.value_length();
            let (name, entry) = parse_entry(order, input).result->Ok_0;
            &&& header.name_length() == header.data_offset - header.name_offset
            &&& header.value_length() == header.entry_length - header.data_offset
            &&& 0 <= header.name_length()
            &&& 0 <= header.value_length()
            &&& end <= input.len()
            &&& name == text_of(input.subrange(name_start, value_start))
            &&& Ok::<ValueView, DecodeError>(entry.value) == parse_value(
                order,
                header.data_type,
                input.subrange(value_start, end),
            )
            &&& parse_entry(order, input).rest == input.skip(end)
        }),
{
    reveal(parse_entry);
    let header = header_of(order, input);
    let body = input.skip(HEADER_LEN as int);
    let after_name = body.skip(header.name_length());
    assert(body.take(header.name_length()) =~= input.subrange(
        HEADER_LEN as int,
        HEADER_LEN + header.name_length(),
    ));
    assert(after_name.take(header.value_length()) =~= input.subrange(
        HEADER_LEN + header.name_length(),
        HEADER_LEN + header.name_length() + header.value_length(),
    ));
    assert(after_name.skip(header.value_length()) =~= input.skip(
        HEADER_LEN + header.name_length() + header.value_length(),
    ));
}

/// A reader never gives input back: what an entry leaves, decoded or not,
/// is the end of what it was given.
pub proof fn lemma_entry_consumes(order: Endianness, input: Seq<u8>)
    ensures
        parse_entry(order, input).rest.len() <= input.len(),
        parse_entry(order, input).rest == input.skip(
            input.len() - parse_entry(order, input).rest.len(),
        ),
{
    reveal(parse_entry);
    let header = header_of(order, input);
    let body = input.skip(HEADER_LEN as int);
    let after_name = body.skip(header.name_length());
    let rest = parse_entry(order, input).rest;
    if input.len() >= HEADER_LEN && header.name_length() >= 0 && header.value_length() >= 0
        && body.len() >= header.name_length() {
        assert(after_name =~= input.skip(HEADER_LEN + header.name_length()));
        if valid_utf8(body.take(header.name_length())) && after_name.len()
            >= header.value_length() {
            assert(after_name.skip(header.value_length()) =~= input.skip(
                HEADER_LEN + header.name_length() + header.value_length(),
            ));
        }
    }
    assert(rest =~= input.skip(input.len() - rest.len()));
}

/// A run never gives input back: what it leaves, decoded or not, is the
/// end of what it was given.
pub proof fn lemma_entries_consume(
    order: Endianness,
    input: Seq<u8>,
    count: nat,
    store: Map<Seq<char>, EntryView>,
)
    ensures
        parse_entries(order, input, count, store).rest.len() <= input.len(),
        parse_entries(order, input, count, store).rest == input.skip(
            input.len() - parse_entries(order, input, count, store).rest.len(),
        ),
    decreases count,
{
    let rest = parse_entries(order, input, count, store).rest;
    if count > 0 {
        let first = parse_entry(order, input);
        lemma_entry_consumes(order, input);
        match first.result {
            Err(_) => {},
            Ok((name, entry)) => {
                lemma_entries_consume(
                    order,
                    first.rest,
                    (count - 1) as nat,
                    store.insert(name, entry),
                );
            },
        }
    }
    assert(rest =~= input.skip(input.len() - rest.len()));
}

/// A text value does not depend on the byte order, and a 64-bit value of
/// eight bytes is the same in one order as its reversed bytes in the other.
pub proof fn lemma_value_orders_mirror(tag: u8, field: Seq<u8>)
    ensures
        tag == TAG_TEXT ==> parse_value(Endianness::Big, tag, field) == parse_value(
            Endianness::Little,
            tag,
            field,
        ),
        tag == TAG_LONG && field.len() == 8 ==> parse_value(Endianness::Big, tag, field)
            == parse_value(Endianness::Little, tag, field.reverse()),
{
    if tag == TAG_LONG && field.len() == 8 {
        lemma_orders_mirror_64(field);
    }
}

/// An entry that fails to decode fails the whole run with its error, and
/// the run leaves the input that the entry leaves.
pub proof fn lemma_failure_fails_all(
    order: Endianness,
    input: Seq<u8>,
    count: nat,
    store: Map<Seq<char>, EntryView>,
    i: nat,
)
    requires
        i < count,
        input_at(order, input, i) is Some,
        parse_entry(order, input_at(order, input, i)->Some_0).result is Err,
    ensures
        parse_entries(order, input, count, store).result == Err::<
            Map<Seq<char>, EntryView>,
            DecodeError,
        >(parse_entry(order, input_at(order, input, i)->Some_0).result->Err_0),
        parse_entries(order, input, count, store).rest == parse_entry(
            order,
            input_at(order, input, i)->Some_0,
        ).rest,
    decreases i,
{
    if i > 0 {
        let (name, entry) = parse_entry(order, input).result->Ok_0;
        lemma_failure_fails_all(
            order,
            parse_entry(order, input).rest,
            (count - 1) as nat,
            store.insert(name, entry),
            (i - 1) as nat,
        );
    }
}

/// A run decodes exactly when each of its entries does, and then leaves
/// the input that follows the last of them.
pub proof fn lemma_run_decodes(
    order: Endianness,
    input: Seq<u8>,
    count: nat,
    store: Map<Seq<char>, EntryView>,
)
    ensures
        parse_entries(order, input, count, store).result is Ok <==> forall|i: nat|
            i < count ==> (#[trigger] entry_at(order, input, i)) is Some,
        parse_entries(order, input, count, store).result is Ok ==> input_at(order, input, count)
            == Some(parse_entries(order, input, count, store).rest),
    decreases count,
{
    if count > 0 {
        if parse_entry(order, input).result is Err {
            assert(entry_at(order, input, 0) is None);
        } else {
            let (name, entry) = parse_entry(order, input).result->Ok_0;
            let rest = parse_entry(order, input).rest;
            lemma_run_decodes(order, rest, (count - 1) as nat, store.insert(name, entry));
            lemma_entry_at_next(order, input, (count - 1) as nat);
            if parse_entries(order, input, count, store).result is Ok {
                assert forall|i: nat| i < count implies (#[trigger] entry_at(
                    order,
                    input,
                    i,
                )) is Some by {
                    if i > 0 {
                        lemma_entry_at_next(order, input, (i - 1) as nat);
                    }
                }
            } else {
                let j = choose|j: nat|
                    j < count - 1 && !((#[trigger] entry_at(order, rest, j)) is Some);
                lemma_entry_at_next(order, input, j);
                assert(entry_at(order, input, j + 1) is None);
            }
        }
    }
}

/// A run that decodes leaves a name that none of its entries carries as the
/// store had it.
pub proof fn lemma_other_names_kept(
    order: Endianness,
    input: Seq<u8>,
    count: nat,
    store: Map<Seq<char>, EntryView>,
    name: Seq<char>,
)
    requires
        parse_entries(order, input, count, store).result is Ok,
        forall|j: nat| j < count ==> (#[trigger] entry_at(order, input, j))->Some_0.0 != name,
    ensures
        parse_entries(order, input, count, store).result->Ok_0.contains_key(name)
            == store.contains_key(name),
        parse_entries(order, input, count, store).result->Ok_0[name] == store[name],
    decreases count,
{
    if count > 0 {
        let (first, entry) = parse_entry(order, input).result->Ok_0;
        let rest = parse_entry(order, input).rest;
        lemma_entry_at_next(order, input, 0);
        assert(entry_at(order, input, 0)->Some_0.0 != name);
        assert forall|j: nat| j < count - 1 implies (#[trigger] entry_at(
            order,
            rest,
            j,
        ))->Some_0.0 != name by {
            lemma_entry_at_next(order, input, j);
            assert(entry_at(order, input, j + 1)->Some_0.0 != name);
        }
        lemma_other_names_kept(order, rest, (count - 1) as nat, store.insert(first, entry), name);
    }
}

/// A run that decodes leaves under a name whatever the store held or an
/// entry of the run carries, and no other name.
pub proof fn lemma_names_decoded(
    order: Endianness,
    input: Seq<u8>,
    count: nat,
    store: Map<Seq<char>, EntryView>,
    name: Seq<char>,
)
    requires
        parse_entries(order, input, count, store).result is Ok,
    ensures
        parse_entries(order, input, count, store).result->Ok_0.contains_key(name) <==> (
        store.contains_key(name) || exists|i: nat|
            i < count && (#[trigger] entry_at(order, input, i))->Some_0.0 == name),
    decreases count,
{
    if count > 0 {
        let (first, entry) = parse_entry(order, input).result->Ok_0;
        let rest = parse_entry(order, input).rest;
        let grown = store.insert(first, entry);
        lemma_entry_at_next(order, input, 0);
        lemma_names_decoded(order, rest, (count - 1) as nat, grown, name);
        let decoded = parse_entries(order, input, count, store).result->Ok_0;
        if decoded.contains_key(name) && !store.contains_key(name) {
            if first == name {
                assert(entry_at(order, input, 0)->Some_0.0 == name);
            } else {
                let j = choose|j: nat|
                    j < count - 1 && (#[trigger] entry_at(order, rest, j))->Some_0.0 == name;
                lemma_entry_at_next(order, input, j);
                assert(entry_at(order, input, j + 1)->Some_0.0 == name);
            }
        }
        if exists|i: nat| i < count && (#[trigger] entry_at(order, input, i))->Some_0.0 == name {
            let i = choose|i: nat|
                i < count && (#[trigger] entry_at(order, input, i))->Some_0.0 == name;
            if i > 0 {
                lemma_entry_at_next(order, input, (i - 1) as nat);
                assert(entry_at(order, rest, (i - 1) as nat)->Some_0.0 == name);
            }
        }
    }
}

/// Of the entries that carry one name, the last one decoded is the one that
/// a run leaves in the store.
pub proof fn lemma_last_entry_wins(
    order: Endianness,
    input: Seq<u8>,
    count: nat,
    store: Map<Seq<char>, EntryView>,
    i: nat,
)
    requires
        parse_entries(order, input, count, store).result is Ok,
        i < count,
        forall|j: nat|
            i < j < count ==> (#[trigger] entry_at(order, input, j))->Some_0.0 != entry_at(
                order,
                input,
                i,
            )->Some_0.0,
    ensures
        entry_at(order, input, i) is Some,
        parse_entries(order, input, count, store).result->Ok_0.contains_key(
            entry_at(order, input, i)->Some_0.0,
        ),
        parse_entries(order, input, count, store).result->Ok_0[entry_at(
            order,
            input,
            i,
        )->Some_0.0] == entry_at(order, input, i)->Some_0.1,
    decreases count,
{
    let (first, entry) = parse_entry(order, input).result->Ok_0;
    let rest = parse_entry(order, input).rest;
    let name = entry_at(order, input, i)->Some_0.0;
    lemma_entry_at_next(order, input, 0);
    if i == 0 {
        assert forall|j: nat| j < count - 1 implies (#[trigger] entry_at(
            order,
            rest,
            j,
        ))->Some_0.0 != name by {
            lemma_entry_at_next(order, input, j);
            assert(entry_at(order, input, j + 1)->Some_0.0 != name);
        }
        lemma_other_names_kept(order, rest, (count - 1) as nat, store.insert(first, entry), name);
    } else {
        lemma_entry_at_next(order, input, (i - 1) as nat);
        assert forall|j: nat| i - 1 < j < count - 1 implies (#[trigger] entry_at(
            order,
            rest,
            j,
        ))->Some_0.0 != name by {
            lemma_entry_at_next(order, input, j);
            assert(entry_at(order, input, j + 1)->Some_0.0 != name);
        }
        lemma_last_entry_wins(
            order,
            rest,
            (count - 1) as nat,
            store.insert(first, entry),
            (i - 1) as nat,
        );
    }
}

/// Reads the prologue, field by field.
pub fn read_prologue(order: Endianness, f: &mut ByteStream) -> (r: Result<
    PerfDataPrologue,
    DecodeError,
>)
    ensures
        r == parse_prologue(order, old(f)@).result,
        final(f)@ == parse_prologue(order, old(f)@).rest,
{
    let ghost start = f@;
    assert(f@ =~= start.skip(0));
    let major_version = f.read_i8()?;
    assert(f@ =~= start.skip(1));
    let minor_version = f.read_i8()?;
    assert(f@ =~= start.skip(2));
    let accessible = f.read_i8()?;
    assert(f@ =~= start.skip(3));
    let used = f.read_i32(order)?;
    assert(f@ =~= start.skip(7));
    let overflow = f.read_i32(order)?;
    assert(f@ =~= start.skip(11));
    let mod_time_stamp = f.read_i64(order)?;
    assert(f@ =~= start.skip(19));
    let entry_offset = f.read_i32(order)?;
    assert(f@ =~= start.skip(23));
    let num_entries = f.read_i32(order)?;
    assert(f@ =~= start.skip(27));
    Ok(
        PerfDataPrologue {
            major_version,
            minor_version,
            accessible,
            used,
            overflow,
            mod_time_stamp,
            entry_offset,
            num_entries,
        },
    )
}

/// Reads the fixed header of an entry, field by field.
pub fn read_header(order: Endianness, f: &mut ByteStream) -> (r: Result<EntryHeader, DecodeError>)
    ensures
        r == parse_header(order, old(f)@).result,
        final(f)@ == parse_header(order, old(f)@).rest,
{
    let ghost start = f@;
    assert(f@ =~= start.skip(0));
    let entry_length = f.read_i32(order)?;
    assert(f@ =~= start.skip(4));
    let name_offset = f.read_i32(order)?;
    assert(f@ =~= start.skip(8));
    let vector_length = f.read_i32(order)?;
    assert(f@ =~= start.skip(12));
    let data_type = f.read_u8()?;
    assert(f@ =~= start.skip(13));
    let flags = f.read_i8()?;
    assert(f@ =~= start.skip(14));
    let data_units = f.read_u8()?;
    assert(f@ =~= start.skip(15));
    let data_variability = f.read_u8()?;
    assert(f@ =~= start.skip(16));
    let data_offset = f.read_i32(order)?;
    assert(f@ =~= start.skip(20));
    Ok(
        EntryHeader {
            entry_length,
            name_offset,
            vector_length,
            data_type,
            flags,
            data_units,
            data_variability,
            data_offset,
        },
    )
}

/// Decodes a value field of type `tag`.
pub fn decode_value(order: Endianness, tag: u8, field: &[u8]) -> (r: Result<
    PerfDataValue,
    DecodeError,
>)
    ensures
        match parse_value(order, tag, field@) {
            Ok(value) => r is Ok && r->Ok_0@ == value,
            Err(e) => r is Err && r->Err_0 == e,
        },
{
    if tag == TAG_TEXT {
        let text = decode_text(field)?;
        Ok(PerfDataValue::String(text))
    } else if tag == TAG_LONG {
        if field.len() < 8 {
            return Err(DecodeError::MalformedEntry);
        }
        Ok(PerfDataValue::Long(decode_i64(order, field)))
    } else {
        Err(DecodeError::UnsupportedType)
    }
}

/// Reads one entry: its header, its name and its value.
pub fn read_entry(order: Endianness, f: &mut ByteStream) -> (r: Result<
    (String, PerfDataEntry),
    DecodeError,
>)
    ensures
        match parse_entry(order, old(f)@).result {
            Ok((name, entry)) => r is Ok && r->Ok_0.0@ == name && r->Ok_0.1@ == entry,
            Err(e) => r is Err && r->Err_0 == e,
        },
        final(f)@ == parse_entry(order, old(f)@).rest,
{
    proof {
        reveal(parse_entry);
    }
    let header = read_header(order, f)?;
    let name_length: i64 = header.data_offset as i64 - header.name_offset as i64;
    let value_length: i64 = header.entry_length as i64 - header.data_offset as i64;
    if name_length < 0 || value_length < 0 {
        return Err(DecodeError::MalformedEntry);
    }
    let name_field = f.read_span(name_length as u64)?;
    let name = decode_text(name_field)?;
    let value_field = f.read_span(value_length as u64)?;
    let value = decode_value(order, header.data_type, value_field)?;
    Ok(
        (
            name,
            PerfDataEntry {
                value,
                unit: PerfDataUnit::from(header.data_units),
                variability: PerfDataVariability::from(header.data_variability),
            },
        ),
    )
}

/// Reads the entries that the prologue announces into a store; of two
/// entries with one name the later stays. Where an entry fails, the stream
/// stays where that entry left it.
pub fn read_entries(order: Endianness, prolog: &PerfDataPrologue, f: &mut ByteStream) -> (r: Result<
    EntryMap,
    DecodeError,
>)
    ensures
        match parse_entries(
            order,
            old(f)@,
            entry_count(*prolog),
            Map::<Seq<char>, EntryView>::empty(),
        ).result {
            Ok(store) => r is Ok && r->Ok_0@ == store,
            Err(e) => r is Err && r->Err_0 == e,
        },
        final(f)@ == parse_entries(
            order,
            old(f)@,
            entry_count(*prolog),
            Map::<Seq<char>, EntryView>::empty(),
        ).rest,
{
    let ghost start = f@;
    let ghost total = entry_count(*prolog);
    let mut entries = EntryMap::new();
    let mut done: i32 = 0;
    while done < prolog.num_entries
        invariant
            start == old(f)@,
            total == entry_count(*prolog),
            0 <= done,
            done <= total,
            parse_entries(order, start, total, Map::<Seq<char>, EntryView>::empty())
                == parse_entries(order, f@, (total - done) as nat, entries@),
        decreases total - done,
    {
        let (name, entry) = read_entry(order, f)?;
        entries.insert(name, entry);
        done += 1;
    }
    Ok(entries)
}

} // verus!
