//! Trusted surface over the debug-information reader: opaque handles over
//! its borrowed readers and one wrapper per function the resolver calls.
//! The entry tree itself is not modeled; the wrappers only carry values
//! through, and the resolver's contracts speak of the type trees it builds
//! from them.
//!
//! The reader's types take trait-bounded generics that cannot be declared
//! here, so each handle holds the one concrete instantiation this decoder
//! uses, over byte slices tagged with a run-time byte order.

use vstd::prelude::*;

verus! {

#[verifier::external_type_specification]
#[verifier::external_body]
pub struct ExGimliError(gimli::Error);

/// The loaded debug sections, borrowed from the image loader's buffers.
#[verifier::external_body]
pub struct DwarfBundle<'a> {
    inner: gimli::Dwarf<gimli::EndianSlice<'a, gimli::RunTimeEndian>>,
}

/// An iterator over the compilation-unit headers.
#[verifier::external_body]
pub struct UnitsIter<'a> {
    inner: gimli::DebugInfoUnitHeadersIter<gimli::EndianSlice<'a, gimli::RunTimeEndian>>,
}

/// One compilation-unit header.
#[verifier::external_body]
pub struct UnitHeaderHandle<'a> {
    inner: gimli::UnitHeader<gimli::EndianSlice<'a, gimli::RunTimeEndian>, usize>,
}

/// One parsed compilation unit.
#[verifier::external_body]
pub struct UnitHandle<'a> {
    inner: gimli::Unit<gimli::EndianSlice<'a, gimli::RunTimeEndian>, usize>,
}

/// A cursor over a unit's debug-information entries, supporting
/// depth-first and sibling steps.
#[verifier::external_body]
pub struct Cursor<'u, 'a> {
    inner: gimli::read::EntriesCursor<'u, gimli::EndianSlice<'a, gimli::RunTimeEndian>>,
}

/// One attribute value of a debug-information entry.
#[verifier::external_body]
pub struct AttrValue<'a> {
    inner: gimli::AttributeValue<gimli::EndianSlice<'a, gimli::RunTimeEndian>, usize>,
}

/// Relies on gimli::Dwarf::default and the section constructors
/// (DebugInfo::new and the like): builds the debug-section bundle over the
/// given borrowed section bytes. The line and address sections are loaded
/// too, because parsing a unit eagerly reads the line program its
/// statement-list attribute points at; the sections this decoder never
/// touches stay empty.
#[verifier::external_body]
pub fn dwarf_from_sections<'a>(
    info: &'a [u8],
    abbrev: &'a [u8],
    strs: &'a [u8],
    line: &'a [u8],
    line_str: &'a [u8],
    str_offsets: &'a [u8],
    addr: &'a [u8],
    little: bool,
) -> DwarfBundle<'a> {
    let e = if little {
        gimli::RunTimeEndian::Little
    } else {
        gimli::RunTimeEndian::Big
    };
    let mut d: gimli::Dwarf<gimli::EndianSlice<'a, gimli::RunTimeEndian>> =
        gimli::Dwarf::default();
    d.debug_info = gimli::DebugInfo::new(info, e);
    d.debug_abbrev = gimli::DebugAbbrev::new(abbrev, e);
    d.debug_str = gimli::DebugStr::new(strs, e);
    d.debug_line = gimli::DebugLine::new(line, e);
    d.debug_line_str = gimli::DebugLineStr::new(line_str, e);
    d.debug_str_offsets = gimli::DebugStrOffsets::from(gimli::EndianSlice::new(str_offsets, e));
    d.debug_addr = gimli::DebugAddr::from(gimli::EndianSlice::new(addr, e));
    DwarfBundle { inner: d }
}

/// Relies on gimli::Dwarf::units: the compilation-unit header iterator.
#[verifier::external_body]
pub fn dwarf_units<'a>(d: &DwarfBundle<'a>) -> UnitsIter<'a> {
    UnitsIter { inner: d.inner.units() }
}

/// Relies on gimli::DebugInfoUnitHeadersIter::next: the next unit header,
/// if any.
#[verifier::external_body]
pub fn units_next<'a>(it: &mut UnitsIter<'a>) -> Result<
    Option<UnitHeaderHandle<'a>>,
    gimli::Error,
> {
    Ok(it.inner.next()?.map(|h| UnitHeaderHandle { inner: h }))
}

/// Relies on gimli::Dwarf::unit: parses one unit's abbreviations and
/// attributes.
#[verifier::external_body]
pub fn dwarf_unit<'a>(d: &DwarfBundle<'a>, header: UnitHeaderHandle<'a>) -> Result<
    UnitHandle<'a>,
    gimli::Error,
> {
    Ok(UnitHandle { inner: d.inner.unit(header.inner)? })
}

/// Relies on gimli::Unit's name field, resolved from its name attribute:
/// the unit's source-file name bytes.
#[verifier::external_body]
pub fn unit_name_bytes<'a>(u: &UnitHandle<'a>) -> Option<Vec<u8>> {
    u.inner.name.map(|r| r.slice().to_vec())
}

/// Relies on gimli::Unit::entries: a cursor at the unit's first entry.
#[verifier::external_body]
pub fn unit_entries<'a, 'u>(u: &'u UnitHandle<'a>) -> Cursor<'u, 'a> {
    Cursor { inner: u.inner.entries() }
}

/// Relies on gimli::Unit::entries_at_offset: a cursor at the entry at the
/// given unit-relative offset.
#[verifier::external_body]
pub fn unit_entries_at_offset<'a, 'u>(u: &'u UnitHandle<'a>, offset: usize) -> Result<
    Cursor<'u, 'a>,
    gimli::Error,
> {
    Ok(Cursor { inner: u.inner.entries_at_offset(gimli::UnitOffset(offset))? })
}

/// Relies on gimli::read::EntriesCursor::next_dfs: steps depth-first to
/// the next entry; tells whether one exists.
#[verifier::external_body]
pub fn cursor_next_dfs<'u, 'a>(c: &mut Cursor<'u, 'a>) -> Result<bool, gimli::Error> {
    Ok(c.inner.next_dfs()?.is_some())
}

/// Relies on gimli::read::EntriesCursor::next_sibling: steps to the next
/// sibling; tells whether one exists.
#[verifier::external_body]
pub fn cursor_next_sibling<'u, 'a>(c: &mut Cursor<'u, 'a>) -> Result<bool, gimli::Error> {
    Ok(c.inner.next_sibling()?.is_some())
}

/// Relies on gimli::read::EntriesCursor::depth: the tree depth of the
/// current entry.
#[verifier::external_body]
pub fn cursor_depth<'u, 'a>(c: &Cursor<'u, 'a>) -> i64 {
    c.inner.depth() as i64
}

/// Relies on gimli::read::EntriesCursor::current and
/// DebuggingInformationEntry::tag: the current entry's tag value.
#[verifier::external_body]
pub fn cursor_current_tag<'u, 'a>(c: &Cursor<'u, 'a>) -> Option<u16> {
    c.inner.current().map(|e| e.tag().0)
}

/// Relies on gimli::read::EntriesCursor::current and
/// DebuggingInformationEntry::offset: the current entry's unit-relative
/// offset.
#[verifier::external_body]
pub fn cursor_current_offset<'u, 'a>(c: &Cursor<'u, 'a>) -> Option<u64> {
    c.inner.current().map(|e| e.offset().0 as u64)
}

/// Relies on gimli::read::EntriesCursor::current and
/// DebuggingInformationEntry::attr_value: the current entry's value for
/// the given attribute, when both exist.
#[verifier::external_body]
pub fn cursor_attr<'u, 'a>(c: &Cursor<'u, 'a>, at: u16) -> Option<AttrValue<'a>> {
    match c.inner.current() {
        Some(e) => e.attr_value(gimli::DwAt(at)).map(|v| AttrValue { inner: v }),
        None => None,
    }
}

/// Relies on gimli::AttributeValue::udata_value: the value as unsigned
/// data, when its form is one.
#[verifier::external_body]
pub fn attr_udata<'a>(v: &AttrValue<'a>) -> Option<u64> {
    v.inner.udata_value()
}

/// Relies on gimli::AttributeValue::sdata_value: the value as signed
/// data, when its form is one.
#[verifier::external_body]
pub fn attr_sdata<'a>(v: &AttrValue<'a>) -> Option<i64> {
    v.inner.sdata_value()
}

/// Reads a unit-relative reference out of an attribute value, when its
/// form is one.
#[verifier::external_body]
pub fn attr_unit_ref<'a>(v: &AttrValue<'a>) -> Option<u64> {
    match v.inner {
        gimli::AttributeValue::UnitRef(o) => Some(o.0 as u64),
        _ => None,
    }
}

/// Reads a base-type encoding out of an attribute value, when its form is
/// one.
#[verifier::external_body]
pub fn attr_encoding<'a>(v: &AttrValue<'a>) -> Option<u16> {
    match v.inner {
        gimli::AttributeValue::Encoding(e) => Some(e.0 as u16),
        _ => None,
    }
}

/// Relies on gimli::Dwarf::attr_string: resolves a string-form attribute
/// value to its bytes.
#[verifier::external_body]
pub fn dwarf_attr_string<'a>(d: &DwarfBundle<'a>, u: &UnitHandle<'a>, v: AttrValue<'a>) -> Result<
    Vec<u8>,
    gimli::Error,
> {
    Ok(d.inner.attr_string(&u.inner, v.inner)?.slice().to_vec())
}

} // verus!
