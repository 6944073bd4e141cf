//! The runtime value tree materialized from a payload, driven by a
//! [`Type`], and its parser.

use vstd::prelude::*;

use crate::bytes::lemma_uint_at_bound;
use crate::bytes::pow256;
use crate::bytes::read_uint;
use crate::bytes::skip_bytes;
use crate::bytes::uint_at;
use crate::types::type_size;
use crate::types::wf_type;
use crate::types::Type;
use crate::types::TypeV;
use crate::DecodeError;
use crate::Endian;

verus! {

broadcast use vstd::std_specs::vec::group_vec_axioms;

/// One decoded value. Mirrors [`Type`]; floating-point values are carried
/// as their IEEE-754 bit patterns.
#[derive(Debug)]
pub enum Var {
    Bool(bool),
    U8(u8),
    U16(u16),
    U32(u32),
    U64(u64),
    I8(i8),
    I16(i16),
    I32(i32),
    I64(i64),
    F32(u32),
    F64(u64),
    Enumeration { value: Box<Var>, valid_values: Vec<(i128, Vec<u8>)> },
    Structure { members: Vec<StructureMember> },
    Pointer(Box<Var>),
    Array(Vec<Var>),
}

/// One decoded structure member: its name and its value.
#[derive(Debug)]
pub struct StructureMember {
    pub name: Vec<u8>,
    pub value: Var,
}

/// Mathematical model of a [`Var`].
pub enum VarV {
    Bool(bool),
    U8(u8),
    U16(u16),
    U32(u32),
    U64(u64),
    I8(i8),
    I16(i16),
    I32(i32),
    I64(i64),
    F32(u32),
    F64(u64),
    Enumeration { value: Box<VarV>, valid_values: Seq<(i128, Seq<u8>)> },
    Structure { members: Seq<VarMemberV> },
    Pointer(Box<VarV>),
    Array(Seq<VarV>),
}

/// Mathematical model of a decoded structure member.
pub struct VarMemberV {
    pub name: Seq<u8>,
    pub value: VarV,
}

/// Model of an enumeration's value table.
pub open spec fn vv_view(v: Seq<(i128, Vec<u8>)>) -> Seq<(i128, Seq<u8>)> {
    v.map_values(|p: (i128, Vec<u8>)| (p.0, p.1@))
}

pub open spec fn var_view(v: Var) -> VarV
    decreases v,
{
    match v {
        Var::Bool(b) => VarV::Bool(b),
        Var::U8(x) => VarV::U8(x),
        Var::U16(x) => VarV::U16(x),
        Var::U32(x) => VarV::U32(x),
        Var::U64(x) => VarV::U64(x),
        Var::I8(x) => VarV::I8(x),
        Var::I16(x) => VarV::I16(x),
        Var::I32(x) => VarV::I32(x),
        Var::I64(x) => VarV::I64(x),
        Var::F32(x) => VarV::F32(x),
        Var::F64(x) => VarV::F64(x),
        Var::Enumeration { value, valid_values } => VarV::Enumeration {
            value: Box::new(var_view(*value)),
            valid_values: vv_view(valid_values@),
        },
        Var::Structure { members } => VarV::Structure { members: members_value_view(members@) },
        Var::Pointer(value) => VarV::Pointer(Box::new(var_view(*value))),
        Var::Array(elems) => VarV::Array(elems_view(elems@)),
    }
}

/// Model of a sequence of decoded structure members.
pub open spec fn members_value_view(v: Seq<StructureMember>) -> Seq<VarMemberV>
    decreases v,
{
    Seq::new(
        v.len(),
        |i: int|
            if 0 <= i < v.len() {
                VarMemberV { name: v[i].name@, value: var_view(v[i].value) }
            } else {
                vstd::pervasive::arbitrary()
            },
    )
}

/// Model of a sequence of decoded values.
pub open spec fn elems_view(v: Seq<Var>) -> Seq<VarV>
    decreases v,
{
    Seq::new(
        v.len(),
        |i: int|
            if 0 <= i < v.len() {
                var_view(v[i])
            } else {
                vstd::pervasive::arbitrary()
            },
    )
}

impl View for Var {
    type V = VarV;

    open spec fn view(&self) -> VarV {
        var_view(*self)
    }
}

impl View for StructureMember {
    type V = VarMemberV;

    open spec fn view(&self) -> VarMemberV {
        VarMemberV { name: self.name@, value: var_view(self.value) }
    }
}

/// The byte count the parser reports to an enclosing structure: the type's
/// size, except that arrays report zero and the enclosing structure's
/// declared size re-anchors the cursor behind them.
pub open spec fn ret_count(t: TypeV) -> nat {
    match t {
        TypeV::Array { .. } => 0,
        _ => type_size(t),
    }
}

/// The signed reading of the unsigned `width`-byte value `v`.
pub open spec fn as_signed(v: nat, width: nat) -> int {
    if v < pow256(width) / 2 {
        v as int
    } else {
        v - pow256(width)
    }
}

/// The value parsed from `data` at `pos` for layout `t`, and the cursor
/// position after it; `None` when the payload ends too soon (or a
/// malformed structure layout over-runs its declared size).
pub open spec fn spec_parse(t: TypeV, data: Seq<u8>, pos: int, e: Endian) -> Option<(VarV, int)>
    decreases t, 0int, 0int,
{
    match t {
        TypeV::Bool => if pos + 1 <= data.len() {
            Some((VarV::Bool(data[pos] == 0), pos + 1))
        } else {
            None
        },
        TypeV::U8 => if pos + 1 <= data.len() {
            Some((VarV::U8(uint_at(data, pos, 1, e) as u8), pos + 1))
        } else {
            None
        },
        TypeV::U16 => if pos + 2 <= data.len() {
            Some((VarV::U16(uint_at(data, pos, 2, e) as u16), pos + 2))
        } else {
            None
        },
        TypeV::U32 => if pos + 4 <= data.len() {
            Some((VarV::U32(uint_at(data, pos, 4, e) as u32), pos + 4))
        } else {
            None
        },
        TypeV::U64 => if pos + 8 <= data.len() {
            Some((VarV::U64(uint_at(data, pos, 8, e) as u64), pos + 8))
        } else {
            None
        },
        TypeV::I8 => if pos + 1 <= data.len() {
            Some((VarV::I8(as_signed(uint_at(data, pos, 1, e), 1) as i8), pos + 1))
        } else {
            None
        },
        TypeV::I16 => if pos + 2 <= data.len() {
            Some((VarV::I16(as_signed(uint_at(data, pos, 2, e), 2) as i16), pos + 2))
        } else {
            None
        },
        TypeV::I32 => if pos + 4 <= data.len() {
            Some((VarV::I32(as_signed(uint_at(data, pos, 4, e), 4) as i32), pos + 4))
        } else {
            None
        },
        TypeV::I64 => if pos + 8 <= data.len() {
            Some((VarV::I64(as_signed(uint_at(data, pos, 8, e), 8) as i64), pos + 8))
        } else {
            None
        },
        TypeV::F32 => if pos + 4 <= data.len() {
            Some((VarV::F32(uint_at(data, pos, 4, e) as u32), pos + 4))
        } else {
            None
        },
        TypeV::F64 => if pos + 8 <= data.len() {
            Some((VarV::F64(uint_at(data, pos, 8, e) as u64), pos + 8))
        } else {
            None
        },
        TypeV::Enumeration { ty, valid_values } => match spec_parse(*ty, data, pos, e) {
            Some((v, p)) => Some(
                (VarV::Enumeration { value: Box::new(v), valid_values }, p),
            ),
            None => None,
        },
        TypeV::Structure { members, size } => match spec_parse_members(members, 0, data, pos, 0, e) {
            Some((ms, p, total)) => if total <= size && p + (size - total) <= data.len() {
                Some((VarV::Structure { members: ms }, p + (size - total)))
            } else {
                None
            },
            None => None,
        },
        TypeV::Pointer(ty) => match spec_parse(*ty, data, pos, e) {
            Some((v, p)) => Some((VarV::Pointer(Box::new(v)), p)),
            None => None,
        },
        TypeV::Array { ty, lengths } => if lengths.len() == 0 {
            None
        } else {
            match spec_parse_elems(*ty, lengths, 0, lengths[0] as int, data, pos, e) {
                Some((elems, p)) => Some((VarV::Array(elems), p)),
                None => None,
            }
        },
    }
}

/// The structure members from index `i` on, parsed with the running
/// offset accounting: a gap before a member is skipped, and each member
/// advances the running offset by its reported byte count.
pub open spec fn spec_parse_members(
    members: Seq<crate::types::MemberV>,
    i: int,
    data: Seq<u8>,
    pos: int,
    total: int,
    e: Endian,
) -> Option<(Seq<VarMemberV>, int, int)>
    decreases members, members.len() - i, 0int,
{
    if i < 0 || i >= members.len() {
        Some((seq![], pos, total))
    } else {
        let m = members[i];
        let gap: int = if m.offset > total {
            m.offset - total
        } else {
            0
        };
        if pos + gap > data.len() {
            None
        } else {
            match spec_parse(m.ty, data, pos + gap, e) {
                Some((v, p)) => match spec_parse_members(
                    members,
                    i + 1,
                    data,
                    p,
                    total + gap + ret_count(m.ty),
                    e,
                ) {
                    Some((rest, p2, total2)) => Some(
                        (seq![VarMemberV { name: m.name, value: v }] + rest, p2, total2),
                    ),
                    None => None,
                },
                None => None,
            }
        }
    }
}

/// `k` consecutive array items at dimension `d`: at the last dimension an
/// item is a value of the element type, above it an item is the sub-array
/// of the next dimension.
pub open spec fn spec_parse_elems(
    ty: TypeV,
    lengths: Seq<u64>,
    d: int,
    k: int,
    data: Seq<u8>,
    pos: int,
    e: Endian,
) -> Option<(Seq<VarV>, int)>
    decreases ty, lengths.len() - d, k + 1,
{
    if d < 0 || d >= lengths.len() {
        None
    } else if k <= 0 {
        Some((seq![], pos))
    } else {
        let head = if d + 1 < lengths.len() {
            match spec_parse_elems(ty, lengths, d + 1, lengths[d + 1] as int, data, pos, e) {
                Some((elems, p)) => Some((VarV::Array(elems), p)),
                None => None,
            }
        } else {
            spec_parse(ty, data, pos, e)
        };
        match head {
            Some((v, p)) => match spec_parse_elems(ty, lengths, d, k - 1, data, p, e) {
                Some((rest, p2)) => Some((seq![v] + rest, p2)),
                None => None,
            },
            None => None,
        }
    }
}

/// Copies a byte vector.
fn copy_bytes(v: &Vec<u8>) -> (r: Vec<u8>)
    ensures
        r@ == v@,
{
    let mut r: Vec<u8> = Vec::new();
    r.extend_from_slice(v.as_slice());
    proof {
        assert(r@ =~= v@);
    }
    r
}

/// Copies an enumeration's value table.
fn copy_valid_values(v: &Vec<(i128, Vec<u8>)>) -> (r: Vec<(i128, Vec<u8>)>)
    ensures
        vv_view(r@) == vv_view(v@),
{
    let mut r: Vec<(i128, Vec<u8>)> = Vec::new();
    let mut i: usize = 0;
    while i < v.len()
        invariant
            i <= v@.len(),
            r@.len() == i,
            vv_view(r@) =~= vv_view(v@.take(i as int)),
        decreases v@.len() - i,
    {
        let key = v[i].0;
        let name = copy_bytes(&v[i].1);
        let ghost rb = r@;
        r.push((key, name));
        proof {
            assert forall|j: int| 0 <= j < i + 1 implies vv_view(r@)[j] == vv_view(
                v@.take(i + 1),
            )[j] by {
                assert(v@.take(i + 1)[j] == v@[j]);
                if j < i {
                    assert(r@[j] == rb[j]);
                    assert(vv_view(rb)[j] == vv_view(v@.take(i as int))[j]);
                    assert(v@.take(i as int)[j] == v@[j]);
                    assert(vv_view(rb)[j] == (rb[j].0, rb[j].1@));
                    assert(vv_view(v@.take(i as int))[j] == (v@[j].0, v@[j].1@));
                    assert(vv_view(r@)[j] == (r@[j].0, r@[j].1@));
                    assert(vv_view(v@.take(i + 1))[j] == (v@[j].0, v@[j].1@));
                } else {
                    assert(r@[j] == (key, name));
                    assert(vv_view(r@)[j] == (key, name@));
                    assert(vv_view(v@.take(i + 1))[j] == (v@[j].0, v@[j].1@));
                }
            }
            assert(vv_view(r@).len() == vv_view(v@.take(i + 1)).len());
            assert(vv_view(r@) =~= vv_view(v@.take(i + 1)));
        }
        i = i + 1;
    }
    proof {
        assert(v@.take(v@.len() as int) =~= v@);
    }
    r
}

/// Reads one boolean: the zero byte is true.
fn parse_bool(data: &[u8], pos: &mut usize, e: Endian) -> (r: Result<(Var, u64), DecodeError>)
    ensures
        match r {
            Ok((v, n)) => spec_parse(TypeV::Bool, data@, *old(pos) as int, e) == Some(
                (v@, *final(pos) as int),
            ) && n == 1 && *final(pos) <= data@.len(),
            Err(err) => err is OutOfBounds && spec_parse(TypeV::Bool, data@, *old(pos) as int, e)
                is None,
        },
{
    let v = match read_uint(data, pos, 1, e) {
        Ok(v) => v,
        Err(err) => {
            return Err(err);
        },
    };
    proof {
        crate::bytes::lemma_uint_at_1(data@, *old(pos) as int, e);
    }
    let b = data[*pos - 1];
    Ok((Var::Bool(b == 0), 1))
}

/// Reads one `u8` value.
fn parse_u8(data: &[u8], pos: &mut usize, e: Endian) -> (r: Result<(Var, u64), DecodeError>)
    ensures
        match r {
            Ok((v, n)) => spec_parse(TypeV::U8, data@, *old(pos) as int, e) == Some(
                (v@, *final(pos) as int),
            ) && n == 1 && *final(pos) <= data@.len(),
            Err(err) => err is OutOfBounds && spec_parse(TypeV::U8, data@, *old(pos) as int, e)
                is None,
        },
{
    let v = match read_uint(data, pos, 1, e) {
        Ok(v) => v,
        Err(err) => {
            return Err(err);
        },
    };
    proof {
        lemma_uint_at_bound(data@, *old(pos) as int, 1, e);
        crate::bytes::lemma_pow256_values();
    }
    Ok((Var::U8(v as u8), 1))
}

/// Reads one `u16` value.
fn parse_u16(data: &[u8], pos: &mut usize, e: Endian) -> (r: Result<(Var, u64), DecodeError>)
    ensures
        match r {
            Ok((v, n)) => spec_parse(TypeV::U16, data@, *old(pos) as int, e) == Some(
                (v@, *final(pos) as int),
            ) && n == 2 && *final(pos) <= data@.len(),
            Err(err) => err is OutOfBounds && spec_parse(TypeV::U16, data@, *old(pos) as int, e)
                is None,
        },
{
    let v = match read_uint(data, pos, 2, e) {
        Ok(v) => v,
        Err(err) => {
            return Err(err);
        },
    };
    proof {
        lemma_uint_at_bound(data@, *old(pos) as int, 2, e);
        crate::bytes::lemma_pow256_values();
    }
    Ok((Var::U16(v as u16), 2))
}

/// Reads one `u32` value.
fn parse_u32(data: &[u8], pos: &mut usize, e: Endian) -> (r: Result<(Var, u64), DecodeError>)
    ensures
        match r {
            Ok((v, n)) => spec_parse(TypeV::U32, data@, *old(pos) as int, e) == Some(
                (v@, *final(pos) as int),
            ) && n == 4 && *final(pos) <= data@.len(),
            Err(err) => err is OutOfBounds && spec_parse(TypeV::U32, data@, *old(pos) as int, e)
                is None,
        },
{
    let v = match read_uint(data, pos, 4, e) {
        Ok(v) => v,
        Err(err) => {
            return Err(err);
        },
    };
    proof {
        lemma_uint_at_bound(data@, *old(pos) as int, 4, e);
        crate::bytes::lemma_pow256_values();
    }
    Ok((Var::U32(v as u32), 4))
}

/// Reads one `u64` value.
fn parse_u64(data: &[u8], pos: &mut usize, e: Endian) -> (r: Result<(Var, u64), DecodeError>)
    ensures
        match r {
            Ok((v, n)) => spec_parse(TypeV::U64, data@, *old(pos) as int, e) == Some(
                (v@, *final(pos) as int),
            ) && n == 8 && *final(pos) <= data@.len(),
            Err(err) => err is OutOfBounds && spec_parse(TypeV::U64, data@, *old(pos) as int, e)
                is None,
        },
{
    let v = match read_uint(data, pos, 8, e) {
        Ok(v) => v,
        Err(err) => {
            return Err(err);
        },
    };
    proof {
        lemma_uint_at_bound(data@, *old(pos) as int, 8, e);
        crate::bytes::lemma_pow256_values();
    }
    Ok((Var::U64(v as u64), 8))
}

/// Reads one `f32` value (as its bit pattern).
fn parse_f32(data: &[u8], pos: &mut usize, e: Endian) -> (r: Result<(Var, u64), DecodeError>)
    ensures
        match r {
            Ok((v, n)) => spec_parse(TypeV::F32, data@, *old(pos) as int, e) == Some(
                (v@, *final(pos) as int),
            ) && n == 4 && *final(pos) <= data@.len(),
            Err(err) => err is OutOfBounds && spec_parse(TypeV::F32, data@, *old(pos) as int, e)
                is None,
        },
{
    let v = match read_uint(data, pos, 4, e) {
        Ok(v) => v,
        Err(err) => {
            return Err(err);
        },
    };
    proof {
        lemma_uint_at_bound(data@, *old(pos) as int, 4, e);
        crate::bytes::lemma_pow256_values();
    }
    Ok((Var::F32(v as u32), 4))
}

/// Reads one `f64` value (as its bit pattern).
fn parse_f64(data: &[u8], pos: &mut usize, e: Endian) -> (r: Result<(Var, u64), DecodeError>)
    ensures
        match r {
            Ok((v, n)) => spec_parse(TypeV::F64, data@, *old(pos) as int, e) == Some(
                (v@, *final(pos) as int),
            ) && n == 8 && *final(pos) <= data@.len(),
            Err(err) => err is OutOfBounds && spec_parse(TypeV::F64, data@, *old(pos) as int, e)
                is None,
        },
{
    let v = match read_uint(data, pos, 8, e) {
        Ok(v) => v,
        Err(err) => {
            return Err(err);
        },
    };
    proof {
        lemma_uint_at_bound(data@, *old(pos) as int, 8, e);
        crate::bytes::lemma_pow256_values();
    }
    Ok((Var::F64(v as u64), 8))
}

/// Reads one `i8` value.
fn parse_i8(data: &[u8], pos: &mut usize, e: Endian) -> (r: Result<(Var, u64), DecodeError>)
    ensures
        match r {
            Ok((v, n)) => spec_parse(TypeV::I8, data@, *old(pos) as int, e) == Some(
                (v@, *final(pos) as int),
            ) && n == 1 && *final(pos) <= data@.len(),
            Err(err) => err is OutOfBounds && spec_parse(TypeV::I8, data@, *old(pos) as int, e)
                is None,
        },
{
    let v = match read_uint(data, pos, 1, e) {
        Ok(v) => v,
        Err(err) => {
            return Err(err);
        },
    };
    proof {
        lemma_uint_at_bound(data@, *old(pos) as int, 1, e);
        crate::bytes::lemma_pow256_values();
    }
    let sv: i16 = if v < 128 {
        v as i16
    } else {
        (v as i16) - 256
    };
    Ok((Var::I8(sv as i8), 1))
}

/// Reads one `i16` value.
fn parse_i16(data: &[u8], pos: &mut usize, e: Endian) -> (r: Result<(Var, u64), DecodeError>)
    ensures
        match r {
            Ok((v, n)) => spec_parse(TypeV::I16, data@, *old(pos) as int, e) == Some(
                (v@, *final(pos) as int),
            ) && n == 2 && *final(pos) <= data@.len(),
            Err(err) => err is OutOfBounds && spec_parse(TypeV::I16, data@, *old(pos) as int, e)
                is None,
        },
{
    let v = match read_uint(data, pos, 2, e) {
        Ok(v) => v,
        Err(err) => {
            return Err(err);
        },
    };
    proof {
        lemma_uint_at_bound(data@, *old(pos) as int, 2, e);
        crate::bytes::lemma_pow256_values();
    }
    let sv: i32 = if v < 0x8000 {
        v as i32
    } else {
        (v as i32) - 0x10000
    };
    Ok((Var::I16(sv as i16), 2))
}

/// Reads one `i32` value.
fn parse_i32(data: &[u8], pos: &mut usize, e: Endian) -> (r: Result<(Var, u64), DecodeError>)
    ensures
        match r {
            Ok((v, n)) => spec_parse(TypeV::I32, data@, *old(pos) as int, e) == Some(
                (v@, *final(pos) as int),
            ) && n == 4 && *final(pos) <= data@.len(),
            Err(err) => err is OutOfBounds && spec_parse(TypeV::I32, data@, *old(pos) as int, e)
                is None,
        },
{
    let v = match read_uint(data, pos, 4, e) {
        Ok(v) => v,
        Err(err) => {
            return Err(err);
        },
    };
    proof {
        lemma_uint_at_bound(data@, *old(pos) as int, 4, e);
        crate::bytes::lemma_pow256_values();
    }
    let sv: i64 = if v < 0x80000000 {
        v as i64
    } else {
        (v as i64) - 0x100000000
    };
    Ok((Var::I32(sv as i32), 4))
}

/// Reads one `i64` value.
fn parse_i64(data: &[u8], pos: &mut usize, e: Endian) -> (r: Result<(Var, u64), DecodeError>)
    ensures
        match r {
            Ok((v, n)) => spec_parse(TypeV::I64, data@, *old(pos) as int, e) == Some(
                (v@, *final(pos) as int),
            ) && n == 8 && *final(pos) <= data@.len(),
            Err(err) => err is OutOfBounds && spec_parse(TypeV::I64, data@, *old(pos) as int, e)
                is None,
        },
{
    let v = match read_uint(data, pos, 8, e) {
        Ok(v) => v,
        Err(err) => {
            return Err(err);
        },
    };
    proof {
        lemma_uint_at_bound(data@, *old(pos) as int, 8, e);
        crate::bytes::lemma_pow256_values();
    }
    let sv: i128 = if v < 0x8000000000000000 {
        v as i128
    } else {
        (v as i128) - 0x10000000000000000
    };
    Ok((Var::I64(sv as i64), 8))
}

impl Var {
    /// Parses one value of layout `ty` from `data` at `*pos`, advancing the
    /// cursor over it, and returns the value together with the byte count
    /// reported to an enclosing structure (zero for arrays, the layout's
    /// size otherwise). Fails exactly when [`spec_parse`] yields nothing,
    /// which for a well-formed layout means the payload ended too soon.
    #[verifier::loop_isolation(false)]
    #[verifier::rlimit(100)]
    pub fn parse(ty: &Type, data: &[u8], pos: &mut usize, e: Endian) -> (r: Result<
        (Var, u64),
        DecodeError,
    >)
        requires
            wf_type(ty@),
        ensures
            match r {
                Ok((v, n)) => {
                    &&& spec_parse(ty@, data@, *old(pos) as int, e) == Some(
                        (v@, *final(pos) as int),
                    )
                    &&& n == ret_count(ty@)
                    &&& *old(pos) <= data@.len() ==> *final(pos) <= data@.len()
                },
                Err(err) => {
                    &&& err is OutOfBounds
                    &&& spec_parse(ty@, data@, *old(pos) as int, e) is None
                },
            },
        decreases *ty, 0int, 0int,
    {
        match ty {
            Type::Bool => parse_bool(data, pos, e),
            Type::U8 => parse_u8(data, pos, e),
            Type::U16 => parse_u16(data, pos, e),
            Type::U32 => parse_u32(data, pos, e),
            Type::U64 => parse_u64(data, pos, e),
            Type::I8 => parse_i8(data, pos, e),
            Type::I16 => parse_i16(data, pos, e),
            Type::I32 => parse_i32(data, pos, e),
            Type::I64 => parse_i64(data, pos, e),
            Type::F32 => parse_f32(data, pos, e),
            Type::F64 => parse_f64(data, pos, e),
            Type::Enumeration { ty: storage, valid_values } => {
                let (v, n) = match Self::parse(storage, data, pos, e) {
                    Ok(p) => p,
                    Err(err) => {
                        return Err(err);
                    },
                };
                let vv = copy_valid_values(valid_values);
                Ok((Var::Enumeration { value: Box::new(v), valid_values: vv }, n))
            },
            Type::Pointer(pointee) => {
                let (v, n) = match Self::parse(pointee, data, pos, e) {
                    Ok(p) => p,
                    Err(err) => {
                        return Err(err);
                    },
                };
                Ok((Var::Pointer(Box::new(v)), n))
            },
            Type::Structure { members, size } => {
                proof {
                    assert(ty@ == TypeV::Structure {
                        members: crate::types::members_view(members@),
                        size: *size as int,
                    });
                }
                parse_struct(members, *size, data, pos, e)
            },
            Type::Array { ty: elem, lengths } => {
                let vs = match parse_elems(elem, lengths, 0, data, pos, e) {
                    Ok(vs) => vs,
                    Err(err) => {
                        return Err(err);
                    },
                };
                Ok((Var::Array(vs), 0))
            },
        }
    }
}

/// Parses a structure: skips the gap before each member, parses it, and
/// skips the tail padding up to the declared size.
#[verifier::loop_isolation(false)]
#[verifier::rlimit(100)]
fn parse_struct(
    members: &Vec<crate::types::StructureMember>,
    size: usize,
    data: &[u8],
    pos: &mut usize,
    e: Endian,
) -> (r: Result<(Var, u64), DecodeError>)
    requires
        wf_type(
            TypeV::Structure {
                members: crate::types::members_view(members@),
                size: size as int,
            },
        ),
    ensures
        match r {
            Ok((v, n)) => {
                &&& spec_parse(
                    TypeV::Structure {
                        members: crate::types::members_view(members@),
                        size: size as int,
                    },
                    data@,
                    *old(pos) as int,
                    e,
                ) == Some((v@, *final(pos) as int))
                &&& n == size
                &&& *final(pos) <= data@.len()
            },
            Err(err) => {
                &&& err is OutOfBounds
                &&& spec_parse(
                    TypeV::Structure {
                        members: crate::types::members_view(members@),
                        size: size as int,
                    },
                    data@,
                    *old(pos) as int,
                    e,
                ) is None
            },
        },
    decreases *members, 0int, 0int,
{
    let ghost ms_v = crate::types::members_view(members@);
    let ghost tv = TypeV::Structure { members: ms_v, size: size as int };
    let ghost pos0 = *pos as int;
    if *pos > data.len() {
        proof {
            if ms_v.len() == 0 {
                assert(spec_parse_members(ms_v, 0, data@, pos0, 0, e) == Some(
                    (Seq::<VarMemberV>::empty(), pos0, 0int),
                ));
            } else {
                assert(spec_parse_members(ms_v, 0, data@, pos0, 0, e) is None);
            }
            assert(spec_parse(tv, data@, pos0, e) is None);
        }
        return Err(DecodeError::OutOfBounds(*pos as u64, data.len() as u64));
    }
    let mut out: Vec<StructureMember> = Vec::new();
    let mut total: u64 = 0;
    let mut i: usize = 0;
    while i < members.len()
        invariant
            i <= members@.len(),
            out@.len() == i,
            total <= size,
            *pos <= data@.len(),
            i < ms_v.len() ==> total <= ms_v[i as int].offset,
            match spec_parse_members(ms_v, i as int, data@, *pos as int, total as int, e) {
                Some((rest, p2, t2)) => spec_parse_members(ms_v, 0, data@, pos0, 0, e) == Some(
                    (members_value_view(out@) + rest, p2, t2),
                ),
                None => spec_parse_members(ms_v, 0, data@, pos0, 0, e) is None,
            },
        decreases members@.len() - i,
    {
        let ghost pos_at = *pos as int;
        let ghost total_at = total as int;
        let m = &members[i];
        let ghost m_v = ms_v[i as int];
        proof {
            assert(ms_v[i as int] == crate::types::member_view(members@[i as int]));
            assert(m_v.offset == m.offset && m_v.name == m.name@ && m_v.ty == m.ty@);
            assert(wf_type(m_v.ty));
        }
        let ghost gap_v: int = if m_v.offset > total_at {
            m_v.offset - total_at
        } else {
            0
        };
        if m.offset > total {
            let gap = m.offset - total;
            match skip_bytes(data, pos, gap) {
                Ok(()) => (),
                Err(err) => {
                    proof {
                        assert(spec_parse_members(ms_v, i as int, data@, pos_at, total_at, e)
                            is None);
                    }
                    return Err(err);
                },
            }
            total = m.offset;
        }
        proof {
            assert(*pos as int == pos_at + gap_v);
            assert(pos_at + gap_v <= data@.len());
        }
        let (v, n) = match Var::parse(&m.ty, data, pos, e) {
            Ok(p) => p,
            Err(err) => {
                proof {
                    assert(spec_parse_members(ms_v, i as int, data@, pos_at, total_at, e)
                        is None);
                }
                return Err(err);
            },
        };
        proof {
            assert(total + n <= size) by {
                assert(ms_v[i as int].offset + type_size(ms_v[i as int].ty) <= size as int);
                assert(n == ret_count(m_v.ty));
                assert(ret_count(m_v.ty) <= type_size(m_v.ty));
            }
        }
        let name = copy_bytes(&m.name);
        let ghost out_before = out@;
        out.push(StructureMember { name, value: v });
        total = total + n;
        proof {
            assert(spec_parse(m_v.ty, data@, pos_at + gap_v, e) == Some((v@, *pos as int)));
            assert(total as int == total_at + gap_v + ret_count(m_v.ty));
            assert(spec_parse_members(ms_v, i as int, data@, pos_at, total_at, e) == (
            match spec_parse_members(ms_v, i + 1, data@, *pos as int, total as int, e) {
                Some((rest, p2, t2)) => Some(
                    (seq![VarMemberV { name: m_v.name, value: v@ }] + rest, p2, t2),
                ),
                None => None,
            }));
            assert(members_value_view(out@) =~= members_value_view(out_before) + seq![
                VarMemberV { name: m_v.name, value: v@ },
            ]);
            match spec_parse_members(ms_v, i + 1, data@, *pos as int, total as int, e) {
                Some((rest, p2, t2)) => {
                    assert(members_value_view(out_before) + (seq![
                        VarMemberV { name: m_v.name, value: v@ },
                    ] + rest) =~= members_value_view(out@) + rest);
                },
                None => {},
            }
            if i + 1 < ms_v.len() {
                assert(ms_v[i + 1].offset >= ms_v[i as int].offset + type_size(
                    ms_v[i as int].ty,
                ));
            }
        }
        i = i + 1;
    }
    proof {
        assert(spec_parse_members(ms_v, i as int, data@, *pos as int, total as int, e) == Some(
            (Seq::<VarMemberV>::empty(), *pos as int, total as int),
        ));
        assert(members_value_view(out@) + Seq::<VarMemberV>::empty() =~= members_value_view(
            out@,
        ));
    }
    let tail = (size as u64) - total;
    match skip_bytes(data, pos, tail) {
        Ok(()) => (),
        Err(err) => {
            return Err(err);
        },
    }
    Ok((Var::Structure { members: out }, size as u64))
}

/// Parses the `lengths[d]` array items of dimension `d`: sub-arrays of the
/// next dimension, or values of the element layout at the last one.
#[verifier::loop_isolation(false)]
fn parse_elems(
    elem: &Type,
    lengths: &Vec<u64>,
    d: usize,
    data: &[u8],
    pos: &mut usize,
    e: Endian,
) -> (r: Result<Vec<Var>, DecodeError>)
    requires
        wf_type(elem@),
        d < lengths@.len(),
    ensures
        match r {
            Ok(vs) => {
                &&& spec_parse_elems(
                    elem@,
                    lengths@,
                    d as int,
                    lengths@[d as int] as int,
                    data@,
                    *old(pos) as int,
                    e,
                ) == Some((elems_view(vs@), *final(pos) as int))
                &&& *old(pos) <= data@.len() ==> *final(pos) <= data@.len()
            },
            Err(err) => {
                &&& err is OutOfBounds
                &&& spec_parse_elems(
                    elem@,
                    lengths@,
                    d as int,
                    lengths@[d as int] as int,
                    data@,
                    *old(pos) as int,
                    e,
                ) is None
            },
        },
    decreases *elem, lengths@.len() - d, 0int,
{
    let ghost pos0 = *pos as int;
    let dims = lengths.len();
    let n = lengths[d];
    let mut vs: Vec<Var> = Vec::new();
    let mut k: u64 = 0;
    while k < n
        invariant
            k <= n,
            vs@.len() == k,
            pos0 <= data@.len() ==> *pos <= data@.len(),
            match spec_parse_elems(elem@, lengths@, d as int, (n - k) as int, data@, *pos as int, e) {
                Some((rest, p2)) => spec_parse_elems(
                    elem@,
                    lengths@,
                    d as int,
                    n as int,
                    data@,
                    pos0,
                    e,
                ) == Some((elems_view(vs@) + rest, p2)),
                None => spec_parse_elems(elem@, lengths@, d as int, n as int, data@, pos0, e)
                    is None,
            },
        decreases n - k,
    {
        let v = if d + 1 < dims {
            let sub = match parse_elems(elem, lengths, d + 1, data, pos, e) {
                Ok(s) => s,
                Err(err) => {
                    return Err(err);
                },
            };
            Var::Array(sub)
        } else {
            let (v, _n) = match Var::parse(elem, data, pos, e) {
                Ok(p) => p,
                Err(err) => {
                    return Err(err);
                },
            };
            v
        };
        let ghost vs_before = vs@;
        vs.push(v);
        proof {
            assert(elems_view(vs@) =~= elems_view(vs_before) + seq![var_view(v)]);
            match spec_parse_elems(elem@, lengths@, d as int, (n - k - 1) as int, data@, *pos as int, e) {
                Some((rest, p2)) => {
                    assert(elems_view(vs_before) + (seq![var_view(v)] + rest) =~= elems_view(vs@)
                        + rest);
                },
                None => {},
            }
        }
        k = k + 1;
    }
    proof {
        assert(spec_parse_elems(elem@, lengths@, d as int, 0, data@, *pos as int, e) == Some(
            (Seq::<VarV>::empty(), *pos as int),
        ));
        assert(elems_view(vs@) + Seq::<VarV>::empty() =~= elems_view(vs@));
    }
    Ok(vs)
}

/// True of the values `as_u64` and `as_i128` accept: booleans and
/// integers.
pub open spec fn is_int_prim(v: VarV) -> bool {
    match v {
        VarV::Bool(_) => true,
        VarV::U8(_) | VarV::U16(_) | VarV::U32(_) | VarV::U64(_) => true,
        VarV::I8(_) | VarV::I16(_) | VarV::I32(_) | VarV::I64(_) => true,
        _ => false,
    }
}

/// The numeric value of an integer or boolean, widened to mathematical
/// integers.
pub open spec fn int_value(v: VarV) -> int {
    match v {
        VarV::Bool(b) => if b {
            1
        } else {
            0
        },
        VarV::U8(x) => x as int,
        VarV::U16(x) => x as int,
        VarV::U32(x) => x as int,
        VarV::U64(x) => x as int,
        VarV::I8(x) => x as int,
        VarV::I16(x) => x as int,
        VarV::I32(x) => x as int,
        VarV::I64(x) => x as int,
        _ => 0,
    }
}

impl Var {
    /// The value as a `u64`, negatives in two's complement, as a `u64`
    /// cast would read them.
    pub fn as_u64(&self) -> (r: u64)
        requires
            is_int_prim(self@),
        ensures
            r as int == (if int_value(self@) < 0 {
                int_value(self@) + 0x10000000000000000
            } else {
                int_value(self@)
            }),
    {
        match self {
            Var::Bool(v) => if *v {
                1
            } else {
                0
            },
            Var::U8(v) => *v as u64,
            Var::U16(v) => *v as u64,
            Var::U32(v) => *v as u64,
            Var::U64(v) => *v,
            Var::I8(v) => {
                let w = *v as i128;
                if w < 0 {
                    (w + 0x10000000000000000) as u64
                } else {
                    w as u64
                }
            },
            Var::I16(v) => {
                let w = *v as i128;
                if w < 0 {
                    (w + 0x10000000000000000) as u64
                } else {
                    w as u64
                }
            },
            Var::I32(v) => {
                let w = *v as i128;
                if w < 0 {
                    (w + 0x10000000000000000) as u64
                } else {
                    w as u64
                }
            },
            Var::I64(v) => {
                let w = *v as i128;
                if w < 0 {
                    (w + 0x10000000000000000) as u64
                } else {
                    w as u64
                }
            },
            _ => {
                proof {
                    assert(false);
                }
                0
            },
        }
    }

    /// The numeric value, widened into an `i128`.
    pub fn as_i128(&self) -> (r: i128)
        requires
            is_int_prim(self@),
        ensures
            r == int_value(self@),
    {
        match self {
            Var::Bool(v) => if *v {
                1
            } else {
                0
            },
            Var::U8(v) => *v as i128,
            Var::U16(v) => *v as i128,
            Var::U32(v) => *v as i128,
            Var::U64(v) => *v as i128,
            Var::I8(v) => *v as i128,
            Var::I16(v) => *v as i128,
            Var::I32(v) => *v as i128,
            Var::I64(v) => *v as i128,
            _ => {
                proof {
                    assert(false);
                }
                0
            },
        }
    }
}


/// The value parser keeps a structure's members: the decoded structure has
/// one value per member of the layout, under the same name and in the same
/// order.
pub proof fn lemma_structure_keeps_member_names(
    members: Seq<crate::types::MemberV>,
    size: int,
    data: Seq<u8>,
    pos: int,
    e: Endian,
)
    requires
        spec_parse(TypeV::Structure { members, size }, data, pos, e) is Some,
    ensures
        ({
            let v = spec_parse(TypeV::Structure { members, size }, data, pos, e)->Some_0.0;
            &&& v is Structure
            &&& v->Structure_members.len() == members.len()
            &&& forall|j: int|
                0 <= j < members.len() ==> (#[trigger] v->Structure_members[j]).name
                    == members[j].name
        }),
{
    lemma_parse_members_names(members, 0, data, pos, 0, e);
}

/// The member pass yields one named value per remaining member, names in
/// order.
pub proof fn lemma_parse_members_names(
    members: Seq<crate::types::MemberV>,
    i: int,
    data: Seq<u8>,
    pos: int,
    total: int,
    e: Endian,
)
    requires
        0 <= i <= members.len(),
        spec_parse_members(members, i, data, pos, total, e) is Some,
    ensures
        ({
            let vs = spec_parse_members(members, i, data, pos, total, e)->Some_0.0;
            &&& vs.len() == members.len() - i
            &&& forall|j: int|
                0 <= j < vs.len() ==> (#[trigger] vs[j]).name == members[i + j].name
        }),
    decreases members.len() - i,
{
    if i < members.len() {
        let m = members[i];
        let gap: int = if m.offset > total {
            m.offset - total
        } else {
            0
        };
        match spec_parse(m.ty, data, pos + gap, e) {
            Some((v, p)) => {
                lemma_parse_members_names(members, i + 1, data, p, total + gap + ret_count(m.ty), e);
                let rest = spec_parse_members(
                    members,
                    i + 1,
                    data,
                    p,
                    total + gap + ret_count(m.ty),
                    e,
                )->Some_0.0;
                let vs = spec_parse_members(members, i, data, pos, total, e)->Some_0.0;
                assert(vs == seq![VarMemberV { name: m.name, value: v }] + rest);
                assert forall|j: int| 0 <= j < vs.len() implies (#[trigger] vs[j]).name
                    == members[i + j].name by {
                    if j > 0 {
                        assert(vs[j] == rest[j - 1]);
                    }
                }
            },
            None => {},
        }
    }
}


/// True when no array lies anywhere inside the layout: for these, parsing
/// is in lockstep with the declared sizes.
pub open spec fn array_free(t: TypeV) -> bool
    decreases t,
{
    match t {
        TypeV::Array { .. } => false,
        TypeV::Enumeration { ty, .. } => array_free(*ty),
        TypeV::Pointer(ty) => array_free(*ty),
        TypeV::Structure { members, .. } => forall|i: int|
            0 <= i < members.len() ==> array_free(#[trigger] members[i].ty),
        _ => true,
    }
}

/// Exact consumption: on a payload long enough, parsing an array-free
/// layout succeeds and moves the cursor by exactly the layout's size, and
/// reports that size to an enclosing structure.
pub proof fn lemma_parse_exact(t: TypeV, data: Seq<u8>, pos: int, e: Endian)
    requires
        wf_type(t),
        array_free(t),
        0 <= pos,
        pos + type_size(t) <= data.len(),
    ensures
        spec_parse(t, data, pos, e) is Some,
        spec_parse(t, data, pos, e)->Some_0.1 == pos + type_size(t),
        ret_count(t) == type_size(t),
    decreases t, 0int,
{
    match t {
        TypeV::Structure { members, size } => {
            lemma_parse_members_exact(members, 0, data, pos, 0, size, e);
            let (vs, p2, t2) = spec_parse_members(members, 0, data, pos, 0, e)->Some_0;
            assert(p2 + (size - t2) <= data.len());
        },
        TypeV::Enumeration { ty, .. } => {
            lemma_parse_exact(*ty, data, pos, e);
        },
        TypeV::Pointer(ty) => {
            lemma_parse_exact(*ty, data, pos, e);
        },
        _ => {},
    }
}

/// Exact consumption of the member pass: with the cursor and the running
/// offset in step, every remaining member parses, and they stay in step.
pub proof fn lemma_parse_members_exact(
    ms: Seq<crate::types::MemberV>,
    i: int,
    data: Seq<u8>,
    pos: int,
    total: int,
    size: int,
    e: Endian,
)
    requires
        wf_type(TypeV::Structure { members: ms, size }),
        forall|j: int| 0 <= j < ms.len() ==> array_free(#[trigger] ms[j].ty),
        0 <= i <= ms.len(),
        0 <= total,
        i < ms.len() ==> total <= ms[i].offset,
        total <= size,
        0 <= pos,
        pos + (size - total) <= data.len(),
    ensures
        spec_parse_members(ms, i, data, pos, total, e) is Some,
        ({
            let (vs, p2, t2) = spec_parse_members(ms, i, data, pos, total, e)->Some_0;
            &&& p2 == pos + (t2 - total)
            &&& total <= t2 <= size
        }),
    decreases ms, ms.len() - i,
{
    if i < ms.len() {
        let m = ms[i];
        let gap: int = if m.offset > total {
            m.offset - total
        } else {
            0
        };
        assert(m.offset + type_size(m.ty) <= size);
        assert(wf_type(m.ty));
        assert(array_free(m.ty));
        lemma_parse_exact(m.ty, data, pos + gap, e);
        let (v, p) = spec_parse(m.ty, data, pos + gap, e)->Some_0;
        assert(p == pos + gap + type_size(m.ty));
        let total2 = total + gap + ret_count(m.ty);
        assert(total2 == m.offset + type_size(m.ty) || total2 == total + type_size(m.ty));
        assert(total2 <= size);
        if i + 1 < ms.len() {
            assert(ms[i + 1].offset >= ms[i].offset + type_size(ms[i].ty));
            assert(total2 <= ms[i + 1].offset);
        }
        lemma_parse_members_exact(ms, i + 1, data, p, total2, size, e);
    }
}

/// The per-element size of one array dimension: the element size times
/// the product of the dimensions below it.
pub open spec fn dim_stride(ty: TypeV, lengths: Seq<u64>, d: int) -> int {
    (type_size(ty) * crate::types::lengths_product(lengths.skip(d + 1))) as int
}

/// Exact consumption of array items: `k` items of dimension `d` move the
/// cursor by exactly `k` strides.
pub proof fn lemma_parse_elems_exact(
    ty: TypeV,
    lengths: Seq<u64>,
    d: int,
    k: int,
    data: Seq<u8>,
    pos: int,
    e: Endian,
)
    requires
        wf_type(ty),
        array_free(ty),
        0 <= d < lengths.len(),
        0 <= k,
        0 <= pos,
        pos + k * dim_stride(ty, lengths, d) <= data.len(),
    ensures
        spec_parse_elems(ty, lengths, d, k, data, pos, e) is Some,
        spec_parse_elems(ty, lengths, d, k, data, pos, e)->Some_0.1 == pos + k * dim_stride(
            ty,
            lengths,
            d,
        ),
    decreases ty, lengths.len() - d, k + 1,
{
    let stride = dim_stride(ty, lengths, d);
    assert(type_size(ty) >= 0);
    crate::types::lemma_lengths_product_nonneg(lengths.skip(d + 1));
    assert(stride >= 0) by (nonlinear_arith)
        requires
            type_size(ty) >= 0,
            crate::types::lengths_product(lengths.skip(d + 1)) >= 0,
            stride == type_size(ty) * crate::types::lengths_product(lengths.skip(d + 1)),
    ;
    if k > 0 {
        assert(pos + stride <= pos + k * stride) by (nonlinear_arith)
            requires
                k >= 1,
                stride >= 0,
        ;
        if d + 1 < lengths.len() {
            let inner = lengths[d + 1] as int;
            let ts = type_size(ty) as int;
            let p1 = crate::types::lengths_product(lengths.skip(d + 1)) as int;
            let p2 = crate::types::lengths_product(lengths.skip(d + 2)) as int;
            assert(lengths.skip(d + 1)[0] == lengths[d + 1]);
            assert(lengths.skip(d + 1).skip(1) =~= lengths.skip(d + 2));
            assert(inner * p2 >= 0) by (nonlinear_arith)
                requires
                    inner >= 0,
                    p2 >= 0,
            ;
            assert(p1 == inner * p2);
            assert(stride == ts * p1);
            assert(dim_stride(ty, lengths, d + 1) == ts * p2);
            assert(stride == inner * dim_stride(ty, lengths, d + 1)) by (nonlinear_arith)
                requires
                    stride == ts * p1,
                    p1 == inner * p2,
                    dim_stride(ty, lengths, d + 1) == ts * p2,
            ;
            lemma_parse_elems_exact(ty, lengths, d + 1, inner, data, pos, e);
            let (elems, p) = spec_parse_elems(ty, lengths, d + 1, inner, data, pos, e)->Some_0;
            assert(p == pos + stride) by (nonlinear_arith)
                requires
                    p == pos + lengths[d + 1] as int * dim_stride(ty, lengths, d + 1),
                    stride == lengths[d + 1] as int * dim_stride(ty, lengths, d + 1),
            ;
            assert(pos + k * stride == p + (k - 1) * stride) by (nonlinear_arith)
                requires
                    p == pos + stride,
            ;
            lemma_parse_elems_exact(ty, lengths, d, k - 1, data, p, e);
        } else {
            assert(lengths.skip(d + 1).len() == 0);
            assert(stride == type_size(ty)) by (nonlinear_arith)
                requires
                    stride == type_size(ty) * crate::types::lengths_product(lengths.skip(d + 1)),
                    crate::types::lengths_product(lengths.skip(d + 1)) == 1,
            ;
            lemma_parse_exact(ty, data, pos, e);
            let (v, p) = spec_parse(ty, data, pos, e)->Some_0;
            assert(pos + k * stride == p + (k - 1) * stride) by (nonlinear_arith)
                requires
                    p == pos + stride,
            ;
            lemma_parse_elems_exact(ty, lengths, d, k - 1, data, p, e);
        }
    } else {
        assert(k * stride == 0) by (nonlinear_arith)
            requires
                k == 0,
        ;
    }
}

/// Exact consumption of a whole array: parsing moves the cursor by the
/// product of the dimensions times the element size — the array's size —
/// though the count it reports to an enclosing structure is zero.
pub proof fn lemma_parse_array_exact(
    ty: TypeV,
    lengths: Seq<u64>,
    data: Seq<u8>,
    pos: int,
    e: Endian,
)
    requires
        wf_type(TypeV::Array { ty: Box::new(ty), lengths }),
        array_free(ty),
        0 <= pos,
        pos + type_size(TypeV::Array { ty: Box::new(ty), lengths }) <= data.len(),
    ensures
        spec_parse(TypeV::Array { ty: Box::new(ty), lengths }, data, pos, e) is Some,
        spec_parse(TypeV::Array { ty: Box::new(ty), lengths }, data, pos, e)->Some_0.1 == pos
            + type_size(ty) * crate::types::lengths_product(lengths),
        ret_count(TypeV::Array { ty: Box::new(ty), lengths }) == 0,
    decreases 0int,
{
    let arr = TypeV::Array { ty: Box::new(ty), lengths };
    let n = lengths[0] as int;
    assert(crate::types::lengths_product(lengths) == n * crate::types::lengths_product(
        lengths.skip(1),
    )) by {
        assert(lengths.skip(0int + 1) =~= lengths.skip(1));
    }
    assert(type_size(arr) == n * dim_stride(ty, lengths, 0)) by (nonlinear_arith)
        requires
            type_size(arr) == type_size(ty) * (lengths[0] as int * crate::types::lengths_product(
                lengths.skip(1),
            )),
            dim_stride(ty, lengths, 0) == type_size(ty) * crate::types::lengths_product(
                lengths.skip(1),
            ),
            n == lengths[0] as int,
    ;
    lemma_parse_elems_exact(ty, lengths, 0, n, data, pos, e);
    assert(pos + n * dim_stride(ty, lengths, 0) == pos + type_size(ty)
        * crate::types::lengths_product(lengths)) by (nonlinear_arith)
        requires
            type_size(arr) == n * dim_stride(ty, lengths, 0),
            type_size(arr) == type_size(ty) * crate::types::lengths_product(lengths),
    ;
}

} // verus!
