//! The records of a snapshot: its prologue, and the typed, unit-tagged
//! counter entries.

use vstd::prelude::*;
use vstd::std_specs::convert::FromSpecImpl;
use vstd::string::StringExecFns;
use crate::decimal::{decimal, digits, signed_to_text, unsigned_to_text};

verus! {

/// The fixed header of a snapshot, after the magic constant and the
/// byte-order flag.
#[derive(Clone, Copy, Debug, PartialEq, Eq, Structural)]
pub struct PerfDataPrologue {
    pub major_version: i8,
    pub minor_version: i8,
    pub accessible: i8,
    pub used: i32,
    pub overflow: i32,
    pub mod_time_stamp: i64,
    pub entry_offset: i32,
    pub num_entries: i32,
}

/// The unit of measure of a counter.
#[derive(Clone, Copy, Debug, PartialEq, Eq, Structural)]
pub enum PerfDataUnit {
    /// A plain number (tag 1).
    Unitless,
    Bytes,
    Ticks,
    Events,
    String,
    Hertz,
    /// A unit tag that the format does not name, kept as it was read.
    Other(u8),
}

/// Whether a counter's value is fixed, only grows, or fluctuates.
#[derive(Clone, Copy, Debug, PartialEq, Eq, Structural)]
pub enum PerfDataVariability {
    Constant,
    Monotonic,
    Variable,
}

/// The value of a counter.
#[derive(Debug, PartialEq, Eq)]
pub enum PerfDataValue {
    String(String),
    Long(i64),
}

/// One decoded counter.
#[derive(Debug, PartialEq, Eq)]
pub struct PerfDataEntry {
    pub value: PerfDataValue,
    pub unit: PerfDataUnit,
    pub variability: PerfDataVariability,
}

/// The mathematical value of a counter: text as a sequence of characters.
pub enum ValueView {
    Text(Seq<char>),
    Long(i64),
}

/// The mathematical content of an entry.
pub struct EntryView {
    pub value: ValueView,
    pub unit: PerfDataUnit,
    pub variability: PerfDataVariability,
}

impl View for PerfDataValue {
    type V = ValueView;

    open spec fn view(&self) -> ValueView {
        match self {
            PerfDataValue::String(s) => ValueView::Text(s@),
            PerfDataValue::Long(v) => ValueView::Long(*v),
        }
    }
}

impl View for PerfDataEntry {
    type V = EntryView;

    open spec fn view(&self) -> EntryView {
        EntryView { value: self.value@, unit: self.unit, variability: self.variability }
    }
}

/// The text of a value: text as it is, an integer in decimal.
pub open spec fn text_of_value(value: ValueView) -> Seq<char> {
    match value {
        ValueView::Text(text) => text,
        ValueView::Long(v) => decimal(v as int),
    }
}

/// The byte count that an entry holds: its value, where that is an integer
/// measured in bytes.
pub open spec fn byte_count_of(entry: EntryView) -> Option<i64> {
    match (entry.unit, entry.value) {
        (PerfDataUnit::Bytes, ValueView::Long(v)) => Some(v),
        _ => None,
    }
}

/// The name under which a unit is shown; a unit that the format does not
/// name is shown with its tag in decimal.
pub open spec fn unit_label_of(unit: PerfDataUnit) -> Seq<char> {
    match unit {
        PerfDataUnit::Unitless => "None"@,
        PerfDataUnit::Bytes => "Bytes"@,
        PerfDataUnit::Ticks => "Ticks"@,
        PerfDataUnit::Events => "Events"@,
        PerfDataUnit::String => "String"@,
        PerfDataUnit::Hertz => "Hertz"@,
        PerfDataUnit::Other(tag) => "Other("@ + digits(tag as nat) + ")"@,
    }
}

/// The line that shows an entry which holds no byte count: its value as
/// text, then its unit in parentheses.
pub open spec fn plain_text_of(entry: EntryView) -> Seq<char> {
    text_of_value(entry.value) + " ("@ + unit_label_of(entry.unit) + ")"@
}

impl PerfDataUnit {
    /// The name under which the unit is shown.
    pub fn label(&self) -> (s: String)
        ensures
            s@ == unit_label_of(*self),
    {
        match self {
            PerfDataUnit::Unitless => String::from_str("None"),
            PerfDataUnit::Bytes => String::from_str("Bytes"),
            PerfDataUnit::Ticks => String::from_str("Ticks"),
            PerfDataUnit::Events => String::from_str("Events"),
            PerfDataUnit::String => String::from_str("String"),
            PerfDataUnit::Hertz => String::from_str("Hertz"),
            PerfDataUnit::Other(tag) => String::from_str("Other(").concat(
                unsigned_to_text(*tag as u64).as_str(),
            ).concat(")"),
        }
    }
}

impl PerfDataValue {
    /// The value as text.
    pub fn to_text(&self) -> (s: String)
        ensures
            s@ == text_of_value(self@),
    {
        match self {
            PerfDataValue::String(val) => val.clone(),
            PerfDataValue::Long(val) => signed_to_text(*val),
        }
    }
}

impl PerfDataEntry {
    /// The byte count that the entry holds, if it holds one: such an entry
    /// is shown as a size, any other as its value and unit.
    pub fn byte_count(&self) -> (r: Option<i64>)
        ensures
            r == byte_count_of(self@),
    {
        match (&self.unit, &self.value) {
            (PerfDataUnit::Bytes, PerfDataValue::Long(val)) => Some(*val),
            _ => None,
        }
    }

    /// The line that shows the entry, unless it holds a byte count: its
    /// value as text, then its unit in parentheses.
    pub fn plain_text(&self) -> (r: Option<String>)
        ensures
            r is None <==> byte_count_of(self@) is Some,
            r is Some ==> r->Some_0@ == plain_text_of(self@),
    {
        if self.byte_count().is_some() {
            None
        } else {
            Some(
                self.value.to_text().concat(" (").concat(self.unit.label().as_str()).concat(")"),
            )
        }
    }
}

/// The unit that a tag byte stands for.
pub open spec fn unit_of(byte: u8) -> PerfDataUnit {
    if byte == 1 {
        PerfDataUnit::Unitless
    } else if byte == 2 {
        PerfDataUnit::Bytes
    } else if byte == 3 {
        PerfDataUnit::Ticks
    } else if byte == 4 {
        PerfDataUnit::Events
    } else if byte == 5 {
        PerfDataUnit::String
    } else if byte == 6 {
        PerfDataUnit::Hertz
    } else {
        PerfDataUnit::Other(byte)
    }
}

/// The variability that a tag byte stands for.
pub open spec fn variability_of(byte: u8) -> PerfDataVariability {
    if byte == 2 {
        PerfDataVariability::Monotonic
    } else if byte == 3 {
        PerfDataVariability::Variable
    } else {
        PerfDataVariability::Constant
    }
}

impl From<u8> for PerfDataUnit {
    fn from(byte: u8) -> (unit: PerfDataUnit) {
        match byte {
            1 => PerfDataUnit::Unitless,
            2 => PerfDataUnit::Bytes,
            3 => PerfDataUnit::Ticks,
            4 => PerfDataUnit::Events,
            5 => PerfDataUnit::String,
            6 => PerfDataUnit::Hertz,
            other => PerfDataUnit::Other(other),
        }
    }
}

impl FromSpecImpl<u8> for PerfDataUnit {
    open spec fn obeys_from_spec() -> bool {
        true
    }

    open spec fn from_spec(byte: u8) -> PerfDataUnit {
        unit_of(byte)
    }
}

impl From<u8> for PerfDataVariability {
    fn from(byte: u8) -> (variability: PerfDataVariability) {
        match byte {
            2 => PerfDataVariability::Monotonic,
            3 => PerfDataVariability::Variable,
            _ => PerfDataVariability::Constant,
        }
    }
}

impl FromSpecImpl<u8> for PerfDataVariability {
    open spec fn obeys_from_spec() -> bool {
        true
    }

    open spec fn from_spec(byte: u8) -> PerfDataVariability {
        variability_of(byte)
    }
}

} // verus!
