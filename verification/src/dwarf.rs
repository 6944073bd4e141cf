//! The debug-information reader and type resolver: finds the compilation
//! unit named after a log site's source file, locates the structure type
//! named after its counter, and parses the entry tree into a [`Type`],
//! establishing the well-formedness the value parser relies on.
//!
//! The traversal is a depth-first walk with sibling steps, bounded by an
//! iteration budget so the walk provably ends even on a malformed entry
//! tree.

use vstd::prelude::*;

use crate::ext::gimli_api::attr_encoding;
use crate::ext::gimli_api::attr_sdata;
use crate::ext::gimli_api::attr_udata;
use crate::ext::gimli_api::attr_unit_ref;
use crate::ext::gimli_api::cursor_attr;
use crate::ext::gimli_api::cursor_current_offset;
use crate::ext::gimli_api::cursor_current_tag;
use crate::ext::gimli_api::cursor_depth;
use crate::ext::gimli_api::cursor_next_dfs;
use crate::ext::gimli_api::cursor_next_sibling;
use crate::ext::gimli_api::dwarf_attr_string;
use crate::ext::gimli_api::dwarf_from_sections;
use crate::ext::gimli_api::dwarf_unit;
use crate::ext::gimli_api::dwarf_units;
use crate::ext::gimli_api::unit_entries;
use crate::ext::gimli_api::unit_entries_at_offset;
use crate::ext::gimli_api::unit_name_bytes;
use crate::ext::gimli_api::units_next;
use crate::ext::gimli_api::Cursor;
use crate::ext::gimli_api::DwarfBundle;
use crate::ext::gimli_api::UnitHandle;
use crate::render::bytes_eq;
use crate::types::is_integer;
use crate::types::type_size;
use crate::types::wf_type;
use crate::types::StructureMember;
use crate::types::Type;
use crate::types::TypeV;
use crate::DecodeError;
use crate::Endian;

verus! {

pub const DW_TAG_ARRAY_TYPE: u16 = 0x01;
pub const DW_TAG_ENUMERATION_TYPE: u16 = 0x04;
pub const DW_TAG_LEXICAL_BLOCK: u16 = 0x0B;
pub const DW_TAG_MEMBER: u16 = 0x0D;
pub const DW_TAG_POINTER_TYPE: u16 = 0x0F;
pub const DW_TAG_COMPILE_UNIT: u16 = 0x11;
pub const DW_TAG_STRUCTURE_TYPE: u16 = 0x13;
pub const DW_TAG_TYPEDEF: u16 = 0x16;
pub const DW_TAG_SUBRANGE_TYPE: u16 = 0x21;
pub const DW_TAG_BASE_TYPE: u16 = 0x24;
pub const DW_TAG_CONST_TYPE: u16 = 0x26;
pub const DW_TAG_ENUMERATOR: u16 = 0x28;
pub const DW_TAG_SUBPROGRAM: u16 = 0x2E;

pub const DW_AT_NAME: u16 = 0x03;
pub const DW_AT_BYTE_SIZE: u16 = 0x0B;
pub const DW_AT_CONST_VALUE: u16 = 0x1C;
pub const DW_AT_LOWER_BOUND: u16 = 0x22;
pub const DW_AT_UPPER_BOUND: u16 = 0x2F;
pub const DW_AT_COUNT: u16 = 0x37;
pub const DW_AT_DATA_MEMBER_LOCATION: u16 = 0x38;
pub const DW_AT_ENCODING: u16 = 0x3E;
pub const DW_AT_TYPE: u16 = 0x49;

pub const DW_ATE_BOOLEAN: u16 = 0x02;
pub const DW_ATE_FLOAT: u16 = 0x04;
pub const DW_ATE_SIGNED: u16 = 0x05;
pub const DW_ATE_SIGNED_CHAR: u16 = 0x06;
pub const DW_ATE_UNSIGNED: u16 = 0x07;
pub const DW_ATE_UNSIGNED_CHAR: u16 = 0x08;

/// How many traversal steps and nested type references the resolver will
/// follow before giving a malformed entry tree up.
pub const WALK_BUDGET: u64 = 0xFFFFFFFF;

/// Nesting budget for type references; argument types of log sites are
/// shallow.
pub const DEPTH_BUDGET: u64 = 64;

/// The primitive layout for a base type's byte size and encoding, as the
/// fixed table has it.
pub open spec fn base_type_of(size: u64, enc: u16) -> Option<TypeV> {
    if size == 1 && enc == DW_ATE_BOOLEAN {
        Some(TypeV::Bool)
    } else if size == 1 && (enc == DW_ATE_UNSIGNED || enc == DW_ATE_UNSIGNED_CHAR) {
        Some(TypeV::U8)
    } else if size == 2 && enc == DW_ATE_UNSIGNED {
        Some(TypeV::U16)
    } else if size == 4 && enc == DW_ATE_UNSIGNED {
        Some(TypeV::U32)
    } else if size == 8 && enc == DW_ATE_UNSIGNED {
        Some(TypeV::U64)
    } else if size == 1 && (enc == DW_ATE_SIGNED || enc == DW_ATE_SIGNED_CHAR) {
        Some(TypeV::I8)
    } else if size == 2 && enc == DW_ATE_SIGNED {
        Some(TypeV::I16)
    } else if size == 4 && enc == DW_ATE_SIGNED {
        Some(TypeV::I32)
    } else if size == 8 && enc == DW_ATE_SIGNED {
        Some(TypeV::I64)
    } else if size == 4 && enc == DW_ATE_FLOAT {
        Some(TypeV::F32)
    } else if size == 8 && enc == DW_ATE_FLOAT {
        Some(TypeV::F64)
    } else {
        None
    }
}

/// The primitive layout for a base type's byte size and encoding: the
/// table of [`base_type_of`], or `UnsupportedBaseType` outside it.
pub fn base_type_from(size: u64, enc: u16) -> (r: Result<Type, DecodeError>)
    ensures
        match r {
            Ok(t) => base_type_of(size, enc) == Some(t@) && wf_type(t@),
            Err(e) => base_type_of(size, enc) is None && e is UnsupportedBaseType,
        },
{
    if size == 1 && enc == DW_ATE_BOOLEAN {
        Ok(Type::Bool)
    } else if size == 1 && (enc == DW_ATE_UNSIGNED || enc == DW_ATE_UNSIGNED_CHAR) {
        Ok(Type::U8)
    } else if size == 2 && enc == DW_ATE_UNSIGNED {
        Ok(Type::U16)
    } else if size == 4 && enc == DW_ATE_UNSIGNED {
        Ok(Type::U32)
    } else if size == 8 && enc == DW_ATE_UNSIGNED {
        Ok(Type::U64)
    } else if size == 1 && (enc == DW_ATE_SIGNED || enc == DW_ATE_SIGNED_CHAR) {
        Ok(Type::I8)
    } else if size == 2 && enc == DW_ATE_SIGNED {
        Ok(Type::I16)
    } else if size == 4 && enc == DW_ATE_SIGNED {
        Ok(Type::I32)
    } else if size == 8 && enc == DW_ATE_SIGNED {
        Ok(Type::I64)
    } else if size == 4 && enc == DW_ATE_FLOAT {
        Ok(Type::F32)
    } else if size == 8 && enc == DW_ATE_FLOAT {
        Ok(Type::F64)
    } else {
        Err(DecodeError::UnsupportedBaseType(enc, size))
    }
}

/// One array dimension from its subrange attributes: an explicit count
/// wins; otherwise the bounds give `upper - lower + 1`, where the
/// all-ones upper bound denotes an empty dimension. Bounds in the wrong
/// order are rejected.
pub fn array_dimension(count: Option<u64>, lower_bound: u64, upper_bound: u64) -> (r: Result<
    u64,
    DecodeError,
>)
    ensures
        match r {
            Ok(n) => match count {
                Some(c) => n == c,
                None => if upper_bound == u64::MAX {
                    n == 0
                } else {
                    lower_bound <= upper_bound && n == upper_bound - lower_bound + 1
                },
            },
            Err(e) => {
                &&& count is None
                &&& upper_bound != u64::MAX
                &&& lower_bound > upper_bound
                &&& e is BadAttribute
            },
        },
{
    match count {
        Some(c) => Ok(c),
        None => {
            if upper_bound == u64::MAX {
                Ok(0)
            } else if lower_bound > upper_bound {
                Err(DecodeError::BadAttribute)
            } else {
                Ok(upper_bound - lower_bound + 1)
            }
        },
    }
}

/// Wraps a reader error.
fn gerr(e: gimli::Error) -> (r: DecodeError)
    ensures
        r is Gimli,
{
    DecodeError::Gimli(e)
}

/// The borrowed debug sections of an image, tagged with its byte order.
pub struct DwarfInfo {
    pub debug_info: Vec<u8>,
    pub debug_abbrev: Vec<u8>,
    pub debug_str: Vec<u8>,
    pub debug_line: Vec<u8>,
    pub debug_line_str: Vec<u8>,
    pub debug_str_offsets: Vec<u8>,
    pub debug_addr: Vec<u8>,
    pub endian: Endian,
}

impl DwarfInfo {
    /// Looks the type `ty_name` up in the compilation unit named
    /// `compilation_unit_name` and parses it. Yields nothing when the unit
    /// or the type does not exist; every type it yields is well-formed.
    pub fn get_type(&self, compilation_unit_name: &Vec<u8>, ty_name: &Vec<u8>) -> (r: Result<
        Option<Type>,
        DecodeError,
    >)
        ensures
            match r {
                Ok(Some(t)) => wf_type(t@),
                _ => true,
            },
    {
        let little = match self.endian {
            Endian::Little => true,
            Endian::Big => false,
        };
        let dwarf = dwarf_from_sections(
            self.debug_info.as_slice(),
            self.debug_abbrev.as_slice(),
            self.debug_str.as_slice(),
            self.debug_line.as_slice(),
            self.debug_line_str.as_slice(),
            self.debug_str_offsets.as_slice(),
            self.debug_addr.as_slice(),
            little,
        );
        let unit = match find_compilation_unit(&dwarf, compilation_unit_name)? {
            Some(u) => u,
            None => {
                return Ok(None);
            },
        };
        let offset = match find_type_die(&dwarf, &unit, ty_name)? {
            Some(o) => o,
            None => {
                return Ok(None);
            },
        };
        let t = parse_type(&dwarf, &unit, offset, DEPTH_BUDGET)?;
        Ok(Some(t))
    }
}

/// Scans the unit headers for the one whose name equals `name`.
fn find_compilation_unit<'a>(dwarf: &DwarfBundle<'a>, name: &Vec<u8>) -> (r: Result<
    Option<UnitHandle<'a>>,
    DecodeError,
>)
    ensures
        r matches Err(err) ==> err is Gimli || err is Custom,
{
    let mut iter = dwarf_units(dwarf);
    let mut budget: u64 = WALK_BUDGET;
    while budget > 0
        invariant
            true,
        decreases budget,
    {
        budget = budget - 1;
        let header = match units_next(&mut iter) {
            Ok(Some(h)) => h,
            Ok(None) => {
                return Ok(None);
            },
            Err(e) => {
                return Err(gerr(e));
            },
        };
        let unit = match dwarf_unit(dwarf, header) {
            Ok(u) => u,
            Err(e) => {
                return Err(gerr(e));
            },
        };
        match unit_name_bytes(&unit) {
            Some(n) => {
                if bytes_eq(&n, name) {
                    return Ok(Some(unit));
                }
            },
            None => {},
        }
    }
    Err(DecodeError::Custom("Too many compilation units!"))
}

/// Walks the unit's entries for a structure entry named `ty_name` and
/// yields its unit-relative offset. Structure entries may sit inside
/// subprograms and lexical blocks, which the walk descends into; any
/// other construct is skipped sibling-wise.
fn find_type_die<'a, 'u>(dwarf: &DwarfBundle<'a>, unit: &'u UnitHandle<'a>, ty_name: &Vec<u8>) -> (r:
    Result<Option<u64>, DecodeError>)
    ensures
        r matches Err(err) ==> err is Gimli || err is Custom,
{
    let mut entries = unit_entries(unit);
    // Position on the unit entry, then step into it.
    match cursor_next_dfs(&mut entries) {
        Ok(true) => (),
        Ok(false) => {
            return Ok(None);
        },
        Err(e) => {
            return Err(gerr(e));
        },
    }
    match cursor_next_dfs(&mut entries) {
        Ok(true) => (),
        Ok(false) => {
            return Ok(None);
        },
        Err(e) => {
            return Err(gerr(e));
        },
    }
    let mut budget: u64 = WALK_BUDGET;
    while budget > 0
        invariant
            true,
        decreases budget,
    {
        budget = budget - 1;
        let tag = match cursor_current_tag(&entries) {
            Some(t) => t,
            None => {
                return Ok(None);
            },
        };
        if tag == DW_TAG_STRUCTURE_TYPE {
            match cursor_attr(&entries, DW_AT_NAME) {
                Some(attr) => {
                    let n = match dwarf_attr_string(dwarf, unit, attr) {
                        Ok(n) => n,
                        Err(e) => {
                            return Err(gerr(e));
                        },
                    };
                    if bytes_eq(&n, ty_name) {
                        return Ok(cursor_current_offset(&entries));
                    }
                },
                None => {},
            }
            match advance_sibling_or_dfs(&mut entries) {
                Ok(true) => (),
                Ok(false) => {
                    return Ok(None);
                },
                Err(e) => {
                    return Err(e);
                },
            }
        } else if tag == DW_TAG_SUBPROGRAM || tag == DW_TAG_LEXICAL_BLOCK {
            match cursor_next_dfs(&mut entries) {
                Ok(true) => (),
                Ok(false) => {
                    return Ok(None);
                },
                Err(e) => {
                    return Err(gerr(e));
                },
            }
        } else {
            match advance_sibling_or_dfs(&mut entries) {
                Ok(true) => (),
                Ok(false) => {
                    return Ok(None);
                },
                Err(e) => {
                    return Err(e);
                },
            }
        }
    }
    Err(DecodeError::Custom("Too many debug-info entries!"))
}

/// Steps to the next sibling, or depth-first onward when there is none.
fn advance_sibling_or_dfs<'u, 'a>(entries: &mut Cursor<'u, 'a>) -> (r: Result<bool, DecodeError>)
    ensures
        r matches Err(err) ==> err is Gimli,
{
    match cursor_next_sibling(entries) {
        Ok(true) => Ok(true),
        Ok(false) => match cursor_next_dfs(entries) {
            Ok(b) => Ok(b),
            Err(e) => Err(gerr(e)),
        },
        Err(e) => Err(gerr(e)),
    }
}

/// Parses the type whose entry sits at the given unit-relative offset.
/// Every type this yields is well-formed: the checks the parsers make
/// establish the invariants the value parser relies on.
pub fn parse_type<'a, 'u>(
    dwarf: &DwarfBundle<'a>,
    unit: &'u UnitHandle<'a>,
    offset: u64,
    depth: u64,
) -> (r: Result<Type, DecodeError>)
    ensures
        match r {
            Ok(t) => wf_type(t@),
            Err(_) => true,
        },
        depth == 0 ==> r is Err,
        offset > usize::MAX ==> r is Err,
    decreases depth,
{
    if depth == 0 {
        return Err(DecodeError::Custom("Type references nest too deeply!"));
    }
    if offset > usize::MAX as u64 {
        return Err(DecodeError::NoDIE(offset));
    }
    let mut entries = match unit_entries_at_offset(unit, offset as usize) {
        Ok(c) => c,
        Err(e) => {
            return Err(gerr(e));
        },
    };
    match cursor_next_dfs(&mut entries) {
        Ok(true) => (),
        Ok(false) => {
            return Err(DecodeError::NoDIE(offset));
        },
        Err(e) => {
            return Err(gerr(e));
        },
    }
    let tag = match cursor_current_tag(&entries) {
        Some(t) => t,
        None => {
            return Err(DecodeError::NoDIE(offset));
        },
    };
    if tag == DW_TAG_BASE_TYPE {
        parse_base(&entries)
    } else if tag == DW_TAG_ENUMERATION_TYPE {
        parse_enumeration(dwarf, unit, &mut entries, depth)
    } else if tag == DW_TAG_POINTER_TYPE {
        parse_pointer(&entries)
    } else if tag == DW_TAG_STRUCTURE_TYPE {
        parse_structure(dwarf, unit, &mut entries, depth)
    } else if tag == DW_TAG_ARRAY_TYPE {
        parse_array(dwarf, unit, &mut entries, depth)
    } else if tag == DW_TAG_CONST_TYPE || tag == DW_TAG_TYPEDEF {
        let attr = match cursor_attr(&entries, DW_AT_TYPE) {
            Some(a) => a,
            None => {
                return Err(DecodeError::NoAttribute(DW_AT_TYPE));
            },
        };
        match attr_unit_ref(&attr) {
            Some(r) => parse_type(dwarf, unit, r, (depth - 1) as u64),
            None => Err(DecodeError::BadAttribute),
        }
    } else {
        Err(DecodeError::UnexpectedTag(tag))
    }
}

/// Parses a base type from its byte size and encoding.
fn parse_base<'u, 'a>(entries: &Cursor<'u, 'a>) -> (r: Result<Type, DecodeError>)
    ensures
        match r {
            Ok(t) => wf_type(t@),
            Err(_) => true,
        },
{
    let size_attr = match cursor_attr(entries, DW_AT_BYTE_SIZE) {
        Some(a) => a,
        None => {
            return Err(DecodeError::NoAttribute(DW_AT_BYTE_SIZE));
        },
    };
    let size = match attr_udata(&size_attr) {
        Some(s) => s,
        None => {
            return Err(DecodeError::BadAttribute);
        },
    };
    let enc_attr = match cursor_attr(entries, DW_AT_ENCODING) {
        Some(a) => a,
        None => {
            return Err(DecodeError::NoAttribute(DW_AT_ENCODING));
        },
    };
    let enc = match attr_encoding(&enc_attr) {
        Some(e) => e,
        None => {
            return Err(DecodeError::BadAttribute);
        },
    };
    base_type_from(size, enc)
}

/// Parses a pointer type: the pointee is carried as the unsigned integer
/// of the pointer's width, which the decoder consumes and displays.
fn parse_pointer<'u, 'a>(entries: &Cursor<'u, 'a>) -> (r: Result<Type, DecodeError>)
    ensures
        match r {
            Ok(t) => wf_type(t@),
            Err(_) => true,
        },
{
    let size_attr = match cursor_attr(entries, DW_AT_BYTE_SIZE) {
        Some(a) => a,
        None => {
            return Err(DecodeError::NoAttribute(DW_AT_BYTE_SIZE));
        },
    };
    let size = match attr_udata(&size_attr) {
        Some(s) => s,
        None => {
            return Err(DecodeError::BadAttribute);
        },
    };
    let pointee = if size == 1 {
        Type::U8
    } else if size == 2 {
        Type::U16
    } else if size == 4 {
        Type::U32
    } else if size == 8 {
        Type::U64
    } else {
        return Err(DecodeError::UnsupportedPointerSize(size));
    };
    proof {
        assert(crate::types::is_unsigned(pointee@));
    }
    let t = Type::Pointer(Box::new(pointee));
    proof {
        assert(t@ == TypeV::Pointer(Box::new(pointee@)));
    }
    Ok(t)
}

/// Parses an enumeration type: its storage type, then one table entry per
/// enumerator, the value widened into the canonical signed key. A later
/// enumerator with an equal value replaces the earlier name.
#[verifier::loop_isolation(false)]
fn parse_enumeration<'a, 'u>(
    dwarf: &DwarfBundle<'a>,
    unit: &'u UnitHandle<'a>,
    entries: &mut Cursor<'u, 'a>,
    depth: u64,
) -> (r: Result<Type, DecodeError>)
    requires
        depth >= 1,
    ensures
        match r {
            Ok(t) => wf_type(t@),
            Err(_) => true,
        },
    decreases depth, 0int,
{
    let storage = match cursor_attr(entries, DW_AT_TYPE) {
        Some(attr) => match attr_unit_ref(&attr) {
            Some(r) => parse_type(dwarf, unit, r, (depth - 1) as u64)?,
            None => {
                return Err(DecodeError::BadAttribute);
            },
        },
        None => parse_base(entries)?,
    };
    let signed = match storage {
        Type::I8 | Type::I16 | Type::I32 | Type::I64 => true,
        Type::U8 | Type::U16 | Type::U32 | Type::U64 => false,
        _ => {
            return Err(DecodeError::Custom("C enums must have integer types!"));
        },
    };
    let mut valid_values: Vec<(i128, Vec<u8>)> = Vec::new();
    let parent_depth = cursor_depth(entries);
    let stepped = match cursor_next_dfs(entries) {
        Ok(b) => b,
        Err(e) => {
            return Err(gerr(e));
        },
    };
    if stepped && (cursor_depth(entries) as i128) == (parent_depth as i128) + 1 {
        let mut budget: u64 = WALK_BUDGET;
        let mut more = true;
        while more && budget > 0
            invariant
                wf_type(storage@),
                is_integer(storage@),
            decreases budget,
        {
            budget = budget - 1;
            let name_attr = match cursor_attr(entries, DW_AT_NAME) {
                Some(a) => a,
                None => {
                    return Err(DecodeError::NoAttribute(DW_AT_NAME));
                },
            };
            let name = match dwarf_attr_string(dwarf, unit, name_attr) {
                Ok(n) => n,
                Err(e) => {
                    return Err(gerr(e));
                },
            };
            let value_attr = match cursor_attr(entries, DW_AT_CONST_VALUE) {
                Some(a) => a,
                None => {
                    return Err(DecodeError::NoAttribute(DW_AT_CONST_VALUE));
                },
            };
            let key: i128 = if signed {
                match attr_sdata(&value_attr) {
                    Some(v) => v as i128,
                    None => {
                        return Err(DecodeError::BadAttribute);
                    },
                }
            } else {
                match attr_udata(&value_attr) {
                    Some(v) => v as i128,
                    None => {
                        return Err(DecodeError::BadAttribute);
                    },
                }
            };
            insert_enum_value(&mut valid_values, key, name);
            more = match cursor_next_sibling(entries) {
                Ok(b) => b,
                Err(e) => {
                    return Err(gerr(e));
                },
            };
        }
        if more {
            return Err(DecodeError::Custom("Too many enumerators!"));
        }
    }
    Ok(Type::Enumeration { ty: Box::new(storage), valid_values })
}

/// Replaces the name under an existing key, or appends a new entry.
fn insert_enum_value(vv: &mut Vec<(i128, Vec<u8>)>, key: i128, name: Vec<u8>) {
    let n = vv.len();
    let mut i: usize = 0;
    while i < n
        invariant
            i <= n,
            n == vv@.len(),
        decreases n - i,
    {
        if vv[i].0 == key {
            vv.set(i, (key, name));
            return ;
        }
        i = i + 1;
    }
    vv.push((key, name));
}

/// Parses a structure type: its declared size, then one member per member
/// entry. The members must be sorted by offset, free of overlap, and end
/// within the declared size; anything else is a malformed layout.
#[verifier::loop_isolation(false)]
#[verifier::rlimit(100)]
fn parse_structure<'a, 'u>(
    dwarf: &DwarfBundle<'a>,
    unit: &'u UnitHandle<'a>,
    entries: &mut Cursor<'u, 'a>,
    depth: u64,
) -> (r: Result<Type, DecodeError>)
    requires
        depth >= 1,
    ensures
        match r {
            Ok(t) => wf_type(t@),
            Err(_) => true,
        },
    decreases depth, 0int,
{
    let size_attr = match cursor_attr(entries, DW_AT_BYTE_SIZE) {
        Some(a) => a,
        None => {
            return Err(DecodeError::NoAttribute(DW_AT_BYTE_SIZE));
        },
    };
    let size64 = match attr_udata(&size_attr) {
        Some(s) => s,
        None => {
            return Err(DecodeError::BadAttribute);
        },
    };
    if size64 > usize::MAX as u64 {
        return Err(DecodeError::Custom("Structure size too large!"));
    }
    let size: usize = size64 as usize;
    let mut members: Vec<StructureMember> = Vec::new();
    let ghost msv = crate::types::members_view(members@);
    let mut last_end: u64 = 0;
    let parent_depth = cursor_depth(entries);
    let stepped = match cursor_next_dfs(entries) {
        Ok(b) => b,
        Err(e) => {
            return Err(gerr(e));
        },
    };
    if stepped && (cursor_depth(entries) as i128) == (parent_depth as i128) + 1 {
        let mut budget: u64 = WALK_BUDGET;
        let mut more = true;
        while more && budget > 0
            invariant
                last_end <= size,
                forall|j: int|
                    0 <= j < members@.len() ==> wf_type(
                        #[trigger] crate::types::members_view(members@)[j].ty,
                    ),
                forall|j: int|
                    0 < j < members@.len() ==> (#[trigger] crate::types::members_view(
                        members@,
                    )[j].offset) >= crate::types::members_view(members@)[j - 1].offset + type_size(
                        crate::types::members_view(members@)[j - 1].ty,
                    ),
                forall|j: int|
                    0 <= j < members@.len() ==> (#[trigger] crate::types::members_view(
                        members@,
                    )[j].offset) + type_size(crate::types::members_view(members@)[j].ty)
                        <= size as int,
                members@.len() > 0 ==> crate::types::members_view(members@).last().offset
                    + type_size(crate::types::members_view(members@).last().ty) == last_end,
            decreases budget,
        {
            budget = budget - 1;
            let tag = match cursor_current_tag(entries) {
                Some(t) => t,
                None => {
                    break ;
                },
            };
            if tag == DW_TAG_MEMBER {
                let name_attr = match cursor_attr(entries, DW_AT_NAME) {
                    Some(a) => a,
                    None => {
                        return Err(DecodeError::NoAttribute(DW_AT_NAME));
                    },
                };
                let name = match dwarf_attr_string(dwarf, unit, name_attr) {
                    Ok(n) => n,
                    Err(e) => {
                        return Err(gerr(e));
                    },
                };
                let ty_attr = match cursor_attr(entries, DW_AT_TYPE) {
                    Some(a) => a,
                    None => {
                        return Err(DecodeError::NoAttribute(DW_AT_TYPE));
                    },
                };
                let ty = match attr_unit_ref(&ty_attr) {
                    Some(r) => parse_type(dwarf, unit, r, (depth - 1) as u64)?,
                    None => {
                        return Err(DecodeError::BadAttribute);
                    },
                };
                let offset: u64 = match cursor_attr(entries, DW_AT_DATA_MEMBER_LOCATION) {
                    Some(a) => match attr_udata(&a) {
                        Some(o) => o,
                        None => 0,
                    },
                    None => 0,
                };
                let msize: u64 = match ty.size_checked() {
                    Some(s) => s as u64,
                    None => {
                        return Err(DecodeError::Custom("Member type too large!"));
                    },
                };
                if offset < last_end {
                    return Err(DecodeError::Custom("Structure members overlap!"));
                }
                if msize > size as u64 || offset > (size as u64) - msize {
                    return Err(DecodeError::Custom("Structure member past declared size!"));
                }
                let ghost members_before = members@;
                members.push(StructureMember { offset, name, ty });
                last_end = offset + msize;
                proof {
                    let mv = crate::types::members_view(members@);
                    let mvb = crate::types::members_view(members_before);
                    assert(mv.len() == members@.len());
                    assert forall|j: int| 0 <= j < mvb.len() implies mv[j] == mvb[j] by {
                        assert(members@[j] == members_before[j]);
                    }
                    assert(mv.last() == crate::types::member_view(members@[members@.len() - 1]));
                }
            }
            more = match cursor_next_sibling(entries) {
                Ok(b) => b,
                Err(e) => {
                    return Err(gerr(e));
                },
            };
        }
        if more {
            return Err(DecodeError::Custom("Too many structure members!"));
        }
    }
    let t = Type::Structure { members, size };
    proof {
        assert(t@ is Structure);
    }
    Ok(t)
}

/// Parses an array type: its element type, then one dimension per
/// subrange entry, outermost first. An array without dimensions is
/// malformed.
#[verifier::loop_isolation(false)]
fn parse_array<'a, 'u>(
    dwarf: &DwarfBundle<'a>,
    unit: &'u UnitHandle<'a>,
    entries: &mut Cursor<'u, 'a>,
    depth: u64,
) -> (r: Result<Type, DecodeError>)
    requires
        depth >= 1,
    ensures
        match r {
            Ok(t) => wf_type(t@),
            Err(_) => true,
        },
    decreases depth, 0int,
{
    let elem = match cursor_attr(entries, DW_AT_TYPE) {
        Some(attr) => match attr_unit_ref(&attr) {
            Some(r) => parse_type(dwarf, unit, r, (depth - 1) as u64)?,
            None => {
                return Err(DecodeError::BadAttribute);
            },
        },
        None => parse_base(entries)?,
    };
    let mut lengths: Vec<u64> = Vec::new();
    let parent_depth = cursor_depth(entries);
    let stepped = match cursor_next_dfs(entries) {
        Ok(b) => b,
        Err(e) => {
            return Err(gerr(e));
        },
    };
    if stepped && (cursor_depth(entries) as i128) == (parent_depth as i128) + 1 {
        let mut budget: u64 = WALK_BUDGET;
        let mut more = true;
        while more && budget > 0
            invariant
                wf_type(elem@),
            decreases budget,
        {
            budget = budget - 1;
            let dim = parse_array_dimension(entries)?;
            lengths.push(dim);
            more = match cursor_next_sibling(entries) {
                Ok(b) => b,
                Err(e) => {
                    return Err(gerr(e));
                },
            };
        }
        if more {
            return Err(DecodeError::Custom("Too many array dimensions!"));
        }
    }
    if lengths.len() == 0 {
        return Err(DecodeError::Custom("Array type without dimensions!"));
    }
    Ok(Type::Array { ty: Box::new(elem), lengths })
}

/// Reads one dimension from the subrange entry under the cursor.
fn parse_array_dimension<'u, 'a>(entries: &Cursor<'u, 'a>) -> (r: Result<u64, DecodeError>) {
    let count: Option<u64> = match cursor_attr(entries, DW_AT_COUNT) {
        Some(a) => match attr_udata(&a) {
            Some(c) => Some(c),
            None => {
                return Err(DecodeError::BadAttribute);
            },
        },
        None => None,
    };
    let lower: u64 = match cursor_attr(entries, DW_AT_LOWER_BOUND) {
        Some(a) => match attr_udata(&a) {
            Some(l) => l,
            None => {
                return Err(DecodeError::BadAttribute);
            },
        },
        None => 0,
    };
    let upper: u64 = if count.is_some() {
        0
    } else {
        match cursor_attr(entries, DW_AT_UPPER_BOUND) {
            Some(a) => match attr_udata(&a) {
                Some(u) => u,
                None => {
                    return Err(DecodeError::BadAttribute);
                },
            },
            None => {
                return Err(DecodeError::NoAttribute(DW_AT_UPPER_BOUND));
            },
        }
    };
    array_dimension(count, lower, upper)
}

} // verus!
