//! A decoded snapshot: the store of its entries, and the metrics that are
//! derived from named counters.

use vstd::prelude::*;
use crate::byte_order::{be_u32, Endianness};
use crate::decode::{
    entry_at, entry_count, lemma_entries_consume, lemma_last_entry_wins, lemma_names_decoded,
    parse_entries, parse_prologue, read_entries, read_prologue,
};
use crate::entry::{EntryView, PerfDataPrologue, PerfDataValue, ValueView};
use crate::error::{DecodeError, MetricError};
use crate::store::{same_text, EntryMap};
use crate::stream::{ByteStream, Outcome};

verus! {

/// The constant that opens every snapshot, stored most significant byte
/// first whatever the byte order of the rest.
pub const MAGIC: u32 = 0xcafe_c0c0;

/// The ticks of the high-resolution timer per second.
pub const FREQUENCY: &'static str = "sun.os.hrt.frequency";

/// The ticks for which the application has run.
pub const APPLICATION_TIME: &'static str = "sun.rt.applicationTime";

/// The name of the young-generation collector.
pub const COLLECTOR_0_NAME: &'static str = "sun.gc.collector.0.name";

/// The ticks spent in young-generation collections.
pub const COLLECTOR_0_TIME: &'static str = "sun.gc.collector.0.time";

/// The ticks spent in full collections.
pub const COLLECTOR_1_TIME: &'static str = "sun.gc.collector.1.time";

/// The number of young-generation collections.
pub const COLLECTOR_0_INVOCATIONS: &'static str = "sun.gc.collector.0.invocations";

/// The number of full collections.
pub const COLLECTOR_1_INVOCATIONS: &'static str = "sun.gc.collector.1.invocations";

/// The largest size of the young generation, in bytes.
pub const GENERATION_0_MAX_CAPACITY: &'static str = "sun.gc.generation.0.maxCapacity";

/// The largest size of the old generation, in bytes.
pub const GENERATION_1_MAX_CAPACITY: &'static str = "sun.gc.generation.1.maxCapacity";

/// The bytes in use in the first young space.
pub const GENERATION_0_SPACE_0_USED: &'static str = "sun.gc.generation.0.space.0.used";

/// The bytes in use in the second young space.
pub const GENERATION_0_SPACE_1_USED: &'static str = "sun.gc.generation.0.space.1.used";

/// The bytes in use in the third young space.
pub const GENERATION_0_SPACE_2_USED: &'static str = "sun.gc.generation.0.space.2.used";

/// The bytes in use in the old space.
pub const GENERATION_1_SPACE_0_USED: &'static str = "sun.gc.generation.1.space.0.used";

/// The bytes in use in the metaspace.
pub const METASPACE_USED: &'static str = "sun.gc.metaspace.used";

/// The name under which the collector that reports the whole heap as the
/// capacity of each generation announces itself.
pub const WHOLE_HEAP_COLLECTOR: &'static str = "G1 incremental collections";

/// The byte order that a flag byte selects: zero for big-endian, anything
/// else for little-endian.
pub open spec fn order_of(flag: u8) -> Endianness {
    if flag == 0 {
        Endianness::Big
    } else {
        Endianness::Little
    }
}

/// Reading what precedes the entries of a snapshot: the byte order that
/// its flag selects and its prologue, and the input at the first entry. A
/// wrong magic constant fails with the four bytes of the constant read.
pub open spec fn parse_preamble(input: Seq<u8>) -> Outcome<(Endianness, PerfDataPrologue)> {
    if input.len() < 4 {
        Outcome { result: Err(DecodeError::Truncated), rest: input }
    } else if be_u32(input) != MAGIC {
        Outcome { result: Err(DecodeError::BadMagic), rest: input.skip(4) }
    } else if input.len() < 5 {
        Outcome { result: Err(DecodeError::Truncated), rest: input.skip(4) }
    } else {
        let order = order_of(input[4]);
        let prologue = parse_prologue(order, input.skip(5));
        match prologue.result {
            Err(e) => Outcome { result: Err(e), rest: prologue.rest },
            Ok(fields) => Outcome { result: Ok((order, fields)), rest: prologue.rest },
        }
    }
}

/// Decoding a snapshot from `input`: the store of its entries and the input
/// after the last entry or, where decoding fails, the error and the input
/// from where it failed.
pub open spec fn parse_snapshot(input: Seq<u8>) -> Outcome<Map<Seq<char>, EntryView>> {
    let preamble = parse_preamble(input);
    match preamble.result {
        Err(e) => Outcome { result: Err(e), rest: preamble.rest },
        Ok((order, prologue)) => parse_entries(
            order,
            preamble.rest,
            entry_count(prologue),
            Map::<Seq<char>, EntryView>::empty(),
        ),
    }
}

/// `result` and `after` are what decoding a snapshot from `input` gives and
/// leaves: its store and the input after the last entry, or its error and
/// the input from where decoding failed.
pub open spec fn decoded(
    input: Seq<u8>,
    result: Result<PerfData, DecodeError>,
    after: Seq<u8>,
) -> bool {
    &&& match parse_snapshot(input).result {
        Ok(store) => result is Ok && result->Ok_0@ == store,
        Err(e) => result is Err && result->Err_0 == e,
    }
    &&& after == parse_snapshot(input).rest
}

/// Decoding is deterministic: two decodings of the same bytes fail with the
/// same error or give the same store, and leave the same input.
pub proof fn lemma_decoding_deterministic(
    input: Seq<u8>,
    first: Result<PerfData, DecodeError>,
    after_first: Seq<u8>,
    second: Result<PerfData, DecodeError>,
    after_second: Seq<u8>,
)
    requires
        decoded(input, first, after_first),
        decoded(input, second, after_second),
    ensures
        first is Ok <==> second is Ok,
        first is Ok ==> first->Ok_0@ == second->Ok_0@,
        first is Err ==> first->Err_0 == second->Err_0,
        after_first == after_second,
{
}

/// A stream that does not open with the magic constant is rejected at
/// once, whatever follows: the four bytes of the constant are read and no
/// more.
pub proof fn lemma_wrong_magic(input: Seq<u8>)
    requires
        input.len() >= 4,
        be_u32(input) != MAGIC,
    ensures
        parse_snapshot(input).result == Err::<Map<Seq<char>, EntryView>, DecodeError>(
            DecodeError::BadMagic,
        ),
        parse_snapshot(input).rest == input.skip(4),
{
}

/// Decoding never gives input back: what it leaves, on success or on
/// failure, is the end of what it was given.
pub proof fn lemma_snapshot_consumes(input: Seq<u8>)
    ensures
        parse_snapshot(input).rest.len() <= input.len(),
        parse_snapshot(input).rest == input.skip(
            input.len() - parse_snapshot(input).rest.len(),
        ),
{
    let preamble = parse_preamble(input);
    assert(preamble.rest.len() <= input.len() && preamble.rest =~= input.skip(
        input.len() - preamble.rest.len(),
    )) by {
        if input.len() >= 5 && be_u32(input) == MAGIC {
            let tail = input.skip(5);
            let prologue = parse_prologue(order_of(input[4]), tail);
            assert(prologue.rest =~= tail.skip(tail.len() - prologue.rest.len()));
        }
    }
    match preamble.result {
        Err(_) => {},
        Ok((order, prologue)) => {
            lemma_entries_consume(
                order,
                preamble.rest,
                entry_count(prologue),
                Map::<Seq<char>, EntryView>::empty(),
            );
            let rest = parse_snapshot(input).rest;
            assert(rest =~= input.skip(input.len() - rest.len()));
        },
    }
}

/// The store of a snapshot holds exactly the names that its entries carry.
pub proof fn lemma_snapshot_names(input: Seq<u8>, name: Seq<char>)
    requires
        parse_snapshot(input).result is Ok,
    ensures
        ({
            let (order, prologue) = parse_preamble(input).result->Ok_0;
            let entries = parse_preamble(input).rest;
            parse_snapshot(input).result->Ok_0.contains_key(name) <==> exists|i: nat|
                i < entry_count(prologue) && (#[trigger] entry_at(order, entries, i))->Some_0.0
                    == name
        }),
{
    let (order, prologue) = parse_preamble(input).result->Ok_0;
    lemma_names_decoded(
        order,
        parse_preamble(input).rest,
        entry_count(prologue),
        Map::<Seq<char>, EntryView>::empty(),
        name,
    );
}

/// Where several entries of a snapshot carry one name, the store holds the
/// last of them.
pub proof fn lemma_snapshot_last_entry_wins(input: Seq<u8>, i: nat)
    requires
        parse_snapshot(input).result is Ok,
        i < entry_count(parse_preamble(input).result->Ok_0.1),
        ({
            let (order, prologue) = parse_preamble(input).result->Ok_0;
            let entries = parse_preamble(input).rest;
            forall|j: nat|
                i < j < entry_count(prologue) ==> (#[trigger] entry_at(
                    order,
                    entries,
                    j,
                ))->Some_0.0 != entry_at(order, entries, i)->Some_0.0
        }),
    ensures
        ({
            let (order, prologue) = parse_preamble(input).result->Ok_0;
            let entries = parse_preamble(input).rest;
            let store = parse_snapshot(input).result->Ok_0;
            &&& entry_at(order, entries, i) is Some
            &&& store.contains_key(entry_at(order, entries, i)->Some_0.0)
            &&& store[entry_at(order, entries, i)->Some_0.0] == entry_at(
                order,
                entries,
                i,
            )->Some_0.1
        }),
{
    let (order, prologue) = parse_preamble(input).result->Ok_0;
    lemma_last_entry_wins(
        order,
        parse_preamble(input).rest,
        entry_count(prologue),
        Map::<Seq<char>, EntryView>::empty(),
        i,
    );
}

/// The integer that a store holds under `name`: zero where the name is
/// absent or its value is text.
pub open spec fn long_at(store: Map<Seq<char>, EntryView>, name: Seq<char>) -> int {
    if store.contains_key(name) {
        match store[name].value {
            ValueView::Long(v) => v as int,
            ValueView::Text(_) => 0,
        }
    } else {
        0
    }
}

/// `x` divided by `d`, rounded toward zero.
pub open spec fn quotient(x: int, d: int) -> int
    recommends
        d != 0,
{
    if x >= 0 && d > 0 {
        x / d
    } else if x < 0 && d < 0 {
        (-x) / (-d)
    } else if x < 0 {
        -((-x) / d)
    } else {
        -(x / (-d))
    }
}

/// A metric with the value `v`, if a signed 64-bit integer can hold it.
pub open spec fn metric_of(v: int) -> Result<i64, MetricError> {
    if i64::MIN <= v <= i64::MAX {
        Ok(v as i64)
    } else {
        Err(MetricError::Overflow)
    }
}

/// A metric that is `ticks` divided by the tick frequency `frequency`.
pub open spec fn metric_per_tick(ticks: int, frequency: int) -> Result<i64, MetricError> {
    if frequency == 0 {
        Err(MetricError::MissingPrerequisite)
    } else {
        metric_of(quotient(ticks, frequency))
    }
}

/// The seconds for which the application has run.
pub open spec fn uptime_of(store: Map<Seq<char>, EntryView>) -> Result<i64, MetricError> {
    metric_per_tick(long_at(store, APPLICATION_TIME@), long_at(store, FREQUENCY@))
}

/// Whether the store names the collector that reports the whole heap as
/// the capacity of each generation.
pub open spec fn reports_whole_heap(store: Map<Seq<char>, EntryView>) -> bool {
    store.contains_key(COLLECTOR_0_NAME@) && store[COLLECTOR_0_NAME@].value == ValueView::Text(
        WHOLE_HEAP_COLLECTOR@,
    )
}

/// The largest heap that the runtime may grow to, in bytes.
pub open spec fn max_mem_of(store: Map<Seq<char>, EntryView>) -> Result<i64, MetricError> {
    if reports_whole_heap(store) {
        metric_of(long_at(store, GENERATION_0_MAX_CAPACITY@))
    } else {
        metric_of(
            long_at(store, GENERATION_0_MAX_CAPACITY@) + long_at(store, GENERATION_1_MAX_CAPACITY@),
        )
    }
}

/// The bytes in use: the three young spaces, the old space and the
/// metaspace.
pub open spec fn used_mem_of(store: Map<Seq<char>, EntryView>) -> Result<i64, MetricError> {
    metric_of(
        long_at(store, GENERATION_0_SPACE_0_USED@) + long_at(store, GENERATION_0_SPACE_1_USED@)
            + long_at(store, GENERATION_0_SPACE_2_USED@) + long_at(
            store,
            GENERATION_1_SPACE_0_USED@,
        ) + long_at(store, METASPACE_USED@),
    )
}

/// The seconds spent in full collections.
pub open spec fn full_gc_of(store: Map<Seq<char>, EntryView>) -> Result<i64, MetricError> {
    metric_per_tick(long_at(store, COLLECTOR_1_TIME@), long_at(store, FREQUENCY@))
}

/// The seconds spent in collections of either kind.
pub open spec fn total_gc_of(store: Map<Seq<char>, EntryView>) -> Result<i64, MetricError> {
    metric_per_tick(
        long_at(store, COLLECTOR_1_TIME@) + long_at(store, COLLECTOR_0_TIME@),
        long_at(store, FREQUENCY@),
    )
}

/// The number of collections of either kind.
pub open spec fn gc_count_of(store: Map<Seq<char>, EntryView>) -> Result<i64, MetricError> {
    metric_of(
        long_at(store, COLLECTOR_1_INVOCATIONS@) + long_at(store, COLLECTOR_0_INVOCATIONS@),
    )
}

/// Narrows a sum of counters to a metric.
fn narrow(v: i128) -> (r: Result<i64, MetricError>)
    ensures
        r == metric_of(v as int),
{
    if v < i64::MIN as i128 || v > i64::MAX as i128 {
        Err(MetricError::Overflow)
    } else {
        Ok(v as i64)
    }
}

/// Divides a sum of tick counters by the tick frequency.
fn per_tick(ticks: i128, frequency: i64) -> (r: Result<i64, MetricError>)
    ensures
        r == metric_per_tick(ticks as int, frequency as int),
{
    if frequency == 0 {
        return Err(MetricError::MissingPrerequisite);
    }
    match ticks.checked_div(frequency as i128) {
        Some(q) => narrow(q),
        None => Err(MetricError::Overflow),
    }
}

/// The entries of a snapshot, by name.
#[derive(Debug)]
pub struct PerfData {
    entries: EntryMap,
}

impl View for PerfData {
    type V = Map<Seq<char>, EntryView>;

    closed spec fn view(&self) -> Map<Seq<char>, EntryView> {
        self.entries@
    }
}

impl PerfData {
    /// Decodes a snapshot: the magic constant, the byte-order flag, the
    /// prologue, and the entries that the prologue announces. Decoding
    /// stops at the first failure and leaves the stream there.
    pub fn new(f: &mut ByteStream) -> (r: Result<PerfData, DecodeError>)
        ensures
            decoded(old(f)@, r, final(f)@),
    {
        let ghost start = f@;
        let magic_from_file = f.read_u32(Endianness::Big)?;
        if magic_from_file != MAGIC {
            return Err(DecodeError::BadMagic);
        }
        let byte_order = f.read_i8()?;
        assert(f@ =~= start.skip(5));
        let order = if byte_order == 0 {
            Endianness::Big
        } else {
            Endianness::Little
        };
        let prolog = read_prologue(order, f)?;
        let entries = read_entries(order, &prolog, f)?;
        Ok(PerfData { entries })
    }

    /// The store of entries.
    pub fn entries(&self) -> (r: &EntryMap)
        ensures
            r@ == self@,
    {
        &self.entries
    }

    /// The integer under `val`, or zero where the name is absent or its
    /// value is text.
    pub fn get_val(&self, val: &str) -> (v: i64)
        ensures
            v == long_at(self@, val@),
            !self@.contains_key(val@) ==> v == 0,
    {
        match self.entries.get(val) {
            Some(entry) => match &entry.value {
                PerfDataValue::Long(v) => *v,
                PerfDataValue::String(_) => 0,
            },
            None => 0,
        }
    }

    /// The seconds for which the application has run.
    pub fn get_uptime(&self) -> (r: Result<i64, MetricError>)
        ensures
            r == uptime_of(self@),
    {
        let freq = self.get_val(FREQUENCY);
        let app_time = self.get_val(APPLICATION_TIME);
        per_tick(app_time as i128, freq)
    }

    /// The largest heap that the runtime may grow to, in bytes.
    pub fn get_max_mem(&self) -> (r: Result<i64, MetricError>)
        ensures
            r == max_mem_of(self@),
    {
        let young = self.get_val(GENERATION_0_MAX_CAPACITY);
        if let Some(metric) = self.entries.get(COLLECTOR_0_NAME) {
            if let PerfDataValue::String(val) = &metric.value {
                if same_text(val.as_str(), WHOLE_HEAP_COLLECTOR) {
                    return Ok(young);
                }
            }
        }
        narrow(young as i128 + self.get_val(GENERATION_1_MAX_CAPACITY) as i128)
    }

    /// The bytes in use.
    pub fn get_used_mem(&self) -> (r: Result<i64, MetricError>)
        ensures
            r == used_mem_of(self@),
    {
        let gen_0_space_0 = self.get_val(GENERATION_0_SPACE_0_USED);
        let gen_0_space_1 = self.get_val(GENERATION_0_SPACE_1_USED);
        let gen_0_space_2 = self.get_val(GENERATION_0_SPACE_2_USED);
        let gen_1_space_0 = self.get_val(GENERATION_1_SPACE_0_USED);
        let metaspace = self.get_val(METASPACE_USED);
        narrow(
            gen_0_space_0 as i128 + gen_0_space_1 as i128 + gen_0_space_2 as i128
                + gen_1_space_0 as i128 + metaspace as i128,
        )
    }

    /// The seconds spent in full collections.
    pub fn get_full_gc(&self) -> (r: Result<i64, MetricError>)
        ensures
            r == full_gc_of(self@),
    {
        let freq = self.get_val(FREQUENCY);
        let full_gc = self.get_val(COLLECTOR_1_TIME);
        per_tick(full_gc as i128, freq)
    }

    /// The seconds spent in collections of either kind.
    pub fn get_total_gc(&self) -> (r: Result<i64, MetricError>)
        ensures
            r == total_gc_of(self@),
    {
        let freq = self.get_val(FREQUENCY);
        let full_gc = self.get_val(COLLECTOR_1_TIME);
        let other_gc = self.get_val(COLLECTOR_0_TIME);
        per_tick(full_gc as i128 + other_gc as i128, freq)
    }

    /// The number of full collections.
    pub fn get_gc_full_count(&self) -> (v: i64)
        ensures
            v == long_at(self@, COLLECTOR_1_INVOCATIONS@),
    {
        self.get_val(COLLECTOR_1_INVOCATIONS)
    }

    /// The number of collections of either kind.
    pub fn get_gc_count(&self) -> (r: Result<i64, MetricError>)
        ensures
            r == gc_count_of(self@),
    {
        narrow(
            self.get_val(COLLECTOR_1_INVOCATIONS) as i128 + self.get_val(
                COLLECTOR_0_INVOCATIONS,
            ) as i128,
        )
    }
}

} // verus!
