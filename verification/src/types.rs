//! The type tree that describes how a log site's payload bytes are laid out,
//! resolved from the image's debug information.

use vstd::prelude::*;

verus! {

broadcast use vstd::std_specs::vec::group_vec_axioms;

/// Layout description of one value in a payload.
///
/// Floating-point payloads are carried as their IEEE-754 bit patterns; the
/// widths are the only layout information the decoder needs.
#[derive(Debug)]
pub enum Type {
    Bool,
    U8,
    U16,
    U32,
    U64,
    I8,
    I16,
    I32,
    I64,
    F32,
    F64,
    Enumeration { ty: Box<Type>, valid_values: Vec<(i128, Vec<u8>)> },
    Structure { members: Vec<StructureMember>, size: usize },
    Pointer(Box<Type>),
    Array { ty: Box<Type>, lengths: Vec<u64> },
}

/// One member of a structure type: its name, its byte offset from the start
/// of the structure, and its own layout.
#[derive(Debug)]
pub struct StructureMember {
    pub offset: u64,
    pub name: Vec<u8>,
    pub ty: Type,
}

/// Mathematical model of a [`Type`].
pub enum TypeV {
    Bool,
    U8,
    U16,
    U32,
    U64,
    I8,
    I16,
    I32,
    I64,
    F32,
    F64,
    Enumeration { ty: Box<TypeV>, valid_values: Seq<(i128, Seq<u8>)> },
    Structure { members: Seq<MemberV>, size: int },
    Pointer(Box<TypeV>),
    Array { ty: Box<TypeV>, lengths: Seq<u64> },
}

/// Mathematical model of a [`StructureMember`].
pub struct MemberV {
    pub offset: u64,
    pub name: Seq<u8>,
    pub ty: TypeV,
}

pub open spec fn type_view(t: Type) -> TypeV
    decreases t,
{
    match t {
        Type::Bool => TypeV::Bool,
        Type::U8 => TypeV::U8,
        Type::U16 => TypeV::U16,
        Type::U32 => TypeV::U32,
        Type::U64 => TypeV::U64,
        Type::I8 => TypeV::I8,
        Type::I16 => TypeV::I16,
        Type::I32 => TypeV::I32,
        Type::I64 => TypeV::I64,
        Type::F32 => TypeV::F32,
        Type::F64 => TypeV::F64,
        Type::Enumeration { ty, valid_values } => TypeV::Enumeration {
            ty: Box::new(type_view(*ty)),
            valid_values: valid_values@.map_values(|p: (i128, Vec<u8>)| (p.0, p.1@)),
        },
        Type::Structure { members, size } => TypeV::Structure {
            members: members_view(members@),
            size: size as int,
        },
        Type::Pointer(ty) => TypeV::Pointer(Box::new(type_view(*ty))),
        Type::Array { ty, lengths } => TypeV::Array {
            ty: Box::new(type_view(*ty)),
            lengths: lengths@,
        },
    }
}

pub open spec fn member_view(m: StructureMember) -> MemberV
    decreases m,
{
    MemberV { offset: m.offset, name: m.name@, ty: type_view(m.ty) }
}

/// Model of a sequence of structure members.
pub open spec fn members_view(v: Seq<StructureMember>) -> Seq<MemberV>
    decreases v,
{
    Seq::new(
        v.len(),
        |i: int|
            if 0 <= i < v.len() {
                member_view(v[i])
            } else {
                vstd::pervasive::arbitrary()
            },
    )
}

impl View for Type {
    type V = TypeV;

    open spec fn view(&self) -> TypeV {
        type_view(*self)
    }
}

impl View for StructureMember {
    type V = MemberV;

    open spec fn view(&self) -> MemberV {
        member_view(*self)
    }
}

/// Number of payload bytes a value of this layout occupies.
pub open spec fn type_size(t: TypeV) -> nat
    decreases t,
{
    match t {
        TypeV::Bool => 1,
        TypeV::U8 => 1,
        TypeV::U16 => 2,
        TypeV::U32 => 4,
        TypeV::U64 => 8,
        TypeV::I8 => 1,
        TypeV::I16 => 2,
        TypeV::I32 => 4,
        TypeV::I64 => 8,
        TypeV::F32 => 4,
        TypeV::F64 => 8,
        TypeV::Enumeration { ty, .. } => type_size(*ty),
        TypeV::Structure { size, .. } => if size >= 0 {
            size as nat
        } else {
            0
        },
        TypeV::Pointer(ty) => type_size(*ty),
        TypeV::Array { ty, lengths } => type_size(*ty) * lengths_product(lengths),
    }
}

pub open spec fn lengths_product(lengths: Seq<u64>) -> nat
    decreases lengths.len(),
{
    if lengths.len() == 0 {
        1
    } else {
        (lengths[0] * lengths_product(lengths.skip(1))) as nat
    }
}

/// True of the integer layouts, the only storage an enumeration may use.
pub open spec fn is_integer(t: TypeV) -> bool {
    match t {
        TypeV::U8 | TypeV::U16 | TypeV::U32 | TypeV::U64 => true,
        TypeV::I8 | TypeV::I16 | TypeV::I32 | TypeV::I64 => true,
        _ => false,
    }
}

/// True of the unsigned integer layouts, the only pointees a pointer may
/// have.
pub open spec fn is_unsigned(t: TypeV) -> bool {
    match t {
        TypeV::U8 | TypeV::U16 | TypeV::U32 | TypeV::U64 => true,
        _ => false,
    }
}

/// Well-formedness of a type tree, established by the debug-info resolver
/// and relied on by the value parser:
/// structure members are sorted by offset and do not overlap, the declared
/// structure size covers the end of the last member, array dimension lists
/// are non-empty, enumeration storage is an integer, and pointees are
/// unsigned integers.
pub open spec fn wf_type(t: TypeV) -> bool
    decreases t,
{
    match t {
        TypeV::Enumeration { ty, .. } => is_integer(*ty),
        TypeV::Structure { members, size } => {
            &&& 0 <= size <= usize::MAX
            &&& forall|i: int| 0 <= i < members.len() ==> wf_type(#[trigger] members[i].ty)
            &&& forall|i: int|
                0 < i < members.len() ==> (#[trigger] members[i].offset) >= members[i - 1].offset
                    + type_size(members[i - 1].ty)
            &&& forall|i: int|
                0 <= i < members.len() ==> (#[trigger] members[i].offset) + type_size(
                    members[i].ty,
                ) <= size
        },
        TypeV::Pointer(ty) => is_unsigned(*ty),
        TypeV::Array { ty, lengths } => lengths.len() > 0 && wf_type(*ty),
        _ => true,
    }
}

impl Type {
    /// Number of payload bytes a value of this layout occupies, as far as it
    /// fits the machine; `None` when the mathematical size exceeds
    /// `usize::MAX`.
    #[verifier::loop_isolation(false)]
    pub fn size_checked(&self) -> (r: Option<usize>)
        ensures
            match r {
                Some(n) => n == type_size(self@),
                None => type_size(self@) > usize::MAX,
            },
        decreases *self,
    {
        match self {
            Type::Bool => Some(1),
            Type::U8 => Some(1),
            Type::U16 => Some(2),
            Type::U32 => Some(4),
            Type::U64 => Some(8),
            Type::I8 => Some(1),
            Type::I16 => Some(2),
            Type::I32 => Some(4),
            Type::I64 => Some(8),
            Type::F32 => Some(4),
            Type::F64 => Some(8),
            Type::Enumeration { ty, .. } => ty.size_checked(),
            Type::Structure { size, .. } => Some(*size),
            Type::Pointer(ty) => ty.size_checked(),
            Type::Array { ty, lengths } => {
                let mut i: usize = 0;
                while i < lengths.len()
                    invariant
                        i <= lengths@.len(),
                        forall|j: int| 0 <= j < i ==> lengths@[j] >= 1,
                    decreases lengths@.len() - i,
                {
                    if lengths[i] == 0 {
                        proof {
                            lemma_lengths_product_zero(lengths@, i as int);
                            assert(type_size(self@) == type_size(type_view(**ty))
                                * lengths_product(lengths@));
                            assert(type_size(type_view(**ty)) * 0 == 0) by (nonlinear_arith);
                        }
                        return Some(0);
                    }
                    i = i + 1;
                }
                proof {
                    lemma_lengths_product_pos(lengths@);
                }
                let elem = match ty.size_checked() {
                    Some(n) => n,
                    None => {
                        proof {
                            lemma_mul_ge_left(type_size(type_view(**ty)), lengths_product(
                                lengths@,
                            ));
                        }
                        return None;
                    },
                };
                if elem == 0 {
                    proof {
                        assert(type_size(self@) == type_size(type_view(**ty)) * lengths_product(
                            lengths@,
                        ));
                        assert(0 * lengths_product(lengths@) == 0) by (nonlinear_arith);
                    }
                    return Some(0);
                }
                let mut acc: u128 = elem as u128;
                let mut k: usize = 0;
                proof {
                    assert(lengths@.take(0) =~= Seq::<u64>::empty());
                    assert(lengths_product(Seq::<u64>::empty()) == 1);
                    assert(elem * 1 == elem) by (nonlinear_arith);
                    assert(type_size(self@) == type_size(type_view(**ty)) * lengths_product(
                        lengths@,
                    ));
                }
                while k < lengths.len()
                    invariant
                        k <= lengths@.len(),
                        forall|j: int| 0 <= j < lengths@.len() ==> lengths@[j] >= 1,
                        elem == type_size(type_view(**ty)),
                        elem >= 1,
                        acc >= 1,
                        acc <= usize::MAX,
                        acc == elem * lengths_product(lengths@.take(k as int)),
                        type_size(self@) == type_size(type_view(**ty)) * lengths_product(lengths@),
                    decreases lengths@.len() - k,
                {
                    let l = lengths[k];
                    proof {
                        assert(lengths@[k as int] >= 1);
                        lemma_lengths_product_take_step(lengths@, k as int);
                    }
                    if acc > (usize::MAX as u128) / (l as u128) {
                        proof {
                            lemma_div_mul_bound(acc as nat, l as nat, usize::MAX as nat);
                            lemma_lengths_product_split(lengths@, k as int);
                            lemma_lengths_product_pos(lengths@.skip(k as int).skip(1));
                            assert(lengths@.skip(k as int)[0] == lengths@[k as int]);
                            assert(lengths_product(lengths@.skip(k as int)) == lengths@[k as int]
                                * lengths_product(lengths@.skip(k as int).skip(1)));
                            assert(type_size(self@) == (acc * l) * lengths_product(
                                lengths@.skip(k as int).skip(1),
                            )) by (nonlinear_arith)
                                requires
                                    type_size(self@) == elem * lengths_product(lengths@),
                                    lengths_product(lengths@) == lengths_product(
                                        lengths@.take(k as int),
                                    ) * lengths_product(lengths@.skip(k as int)),
                                    lengths_product(lengths@.skip(k as int)) == lengths@[k as int]
                                        * lengths_product(lengths@.skip(k as int).skip(1)),
                                    acc == elem * lengths_product(lengths@.take(k as int)),
                                    l == lengths@[k as int],
                            ;
                            lemma_mul_ge_left((acc * l) as nat, lengths_product(
                                lengths@.skip(k as int).skip(1),
                            ));
                        }
                        return None;
                    }
                    proof {
                        lemma_div_mul_fits(acc as nat, l as nat, usize::MAX as nat);
                        assert(elem * lengths_product(lengths@.take(k + 1)) == acc * l)
                            by (nonlinear_arith)
                            requires
                                lengths_product(lengths@.take(k + 1)) == lengths_product(
                                    lengths@.take(k as int),
                                ) * lengths@[k as int],
                                acc == elem * lengths_product(lengths@.take(k as int)),
                                l == lengths@[k as int],
                        ;
                        assert(acc * l >= acc * 1) by (nonlinear_arith)
                            requires
                                l >= 1,
                                acc >= 1,
                        ;
                    }
                    acc = acc * (l as u128);
                    k = k + 1;
                }
                proof {
                    assert(lengths@.take(lengths@.len() as int) =~= lengths@);
                }
                Some(acc as usize)
            },
        }
    }
}

/// If `a <= b` then `a <= a * b` for positive `b`; and `a * b >= a`.
pub proof fn lemma_mul_ge_left(a: nat, b: nat)
    requires
        b >= 1,
    ensures
        a * b >= a,
{
    assert(a * b >= a * 1) by (nonlinear_arith)
        requires
            b >= 1,
    ;
}

/// Integer-division overflow test, the failing side: `a > m / l` implies
/// `a * l > m` for `l >= 1`.
pub proof fn lemma_div_mul_bound(a: nat, l: nat, m: nat)
    requires
        l >= 1,
        a > m / l,
    ensures
        a * l > m,
{
    assert(m / l * l + m % l == m) by (nonlinear_arith)
        requires
            l >= 1,
    ;
    assert(m % l < l) by (nonlinear_arith)
        requires
            l >= 1,
    ;
    assert(a * l >= (m / l + 1) * l) by (nonlinear_arith)
        requires
            a >= m / l + 1,
            l >= 1,
    ;
    assert((m / l + 1) * l == m / l * l + l) by (nonlinear_arith);
}

/// Integer-division overflow test, the passing side: `a <= m / l` implies
/// `a * l <= m` for `l >= 1`.
pub proof fn lemma_div_mul_fits(a: nat, l: nat, m: nat)
    requires
        l >= 1,
        a <= m / l,
    ensures
        a * l <= m,
{
    assert(m / l * l <= m) by (nonlinear_arith)
        requires
            l >= 1,
    ;
    assert(a * l <= m / l * l) by (nonlinear_arith)
        requires
            a <= m / l,
            l >= 1,
    ;
}

pub proof fn lemma_lengths_product_zero(lengths: Seq<u64>, i: int)
    requires
        0 <= i < lengths.len(),
        lengths[i] == 0,
    ensures
        lengths_product(lengths) == 0,
    decreases lengths.len(),
{
    if i == 0 {
        assert(0 * lengths_product(lengths.skip(1)) == 0) by (nonlinear_arith);
    } else {
        lemma_lengths_product_zero(lengths.skip(1), i - 1);
        assert(lengths[0] * 0 == 0) by (nonlinear_arith);
    }
}

/// `product(s) == product(s.take(i)) * product(s.skip(i))`.
pub proof fn lemma_lengths_product_split(lengths: Seq<u64>, i: int)
    requires
        0 <= i <= lengths.len(),
    ensures
        lengths_product(lengths) == lengths_product(lengths.take(i)) * lengths_product(
            lengths.skip(i),
        ),
    decreases i,
{
    if i == 0 {
        assert(lengths.take(0) =~= Seq::<u64>::empty());
        assert(lengths.skip(0) =~= lengths);
        assert(1 * lengths_product(lengths) == lengths_product(lengths)) by (nonlinear_arith);
    } else {
        lemma_lengths_product_split(lengths.skip(1), i - 1);
        assert(lengths.take(i)[0] == lengths[0]);
        assert(lengths.take(i).skip(1) =~= lengths.skip(1).take(i - 1));
        assert(lengths.skip(i) =~= lengths.skip(1).skip(i - 1));
        assert(lengths_product(lengths.take(i)) == lengths[0] * lengths_product(
            lengths.skip(1).take(i - 1),
        ));
        assert(lengths_product(lengths) == lengths[0] * lengths_product(lengths.skip(1)));
        assert(lengths[0] * (lengths_product(lengths.skip(1).take(i - 1)) * lengths_product(
            lengths.skip(1).skip(i - 1),
        )) == (lengths[0] * lengths_product(lengths.skip(1).take(i - 1))) * lengths_product(
            lengths.skip(1).skip(i - 1),
        )) by (nonlinear_arith);
    }
}

/// `product(s.take(i + 1)) == product(s.take(i)) * s[i]`.
pub proof fn lemma_lengths_product_take_step(lengths: Seq<u64>, i: int)
    requires
        0 <= i < lengths.len(),
    ensures
        lengths_product(lengths.take(i + 1)) == lengths_product(lengths.take(i)) * lengths[i],
    decreases i,
{
    if i == 0 {
        assert(lengths.take(1) =~= seq![lengths[0]]);
        assert(lengths.take(0) =~= Seq::<u64>::empty());
        assert(seq![lengths[0]].skip(1) =~= Seq::<u64>::empty());
        assert(seq![lengths[0]][0] == lengths[0]);
        assert(lengths_product(Seq::<u64>::empty()) == 1);
        assert(lengths_product(seq![lengths[0]]) == lengths[0] * 1);
        assert(1 * lengths[0] == lengths[0] * 1) by (nonlinear_arith);
    } else {
        lemma_lengths_product_take_step(lengths.skip(1), i - 1);
        assert(lengths.take(i + 1)[0] == lengths[0]);
        assert(lengths.take(i + 1).skip(1) =~= lengths.skip(1).take(i));
        assert(lengths.take(i).skip(1) =~= lengths.skip(1).take(i - 1));
        assert(lengths.take(i)[0] == lengths[0]);
        assert(lengths.skip(1)[i - 1] == lengths[i]);
        assert(lengths_product(lengths.take(i + 1)) == lengths[0] * lengths_product(
            lengths.skip(1).take(i),
        ));
        assert(lengths_product(lengths.take(i)) == lengths[0] * lengths_product(
            lengths.skip(1).take(i - 1),
        ));
        assert(lengths[0] * (lengths_product(lengths.skip(1).take(i - 1)) * lengths.skip(1)[i - 1])
            == (lengths[0] * lengths_product(lengths.skip(1).take(i - 1))) * lengths.skip(1)[i
            - 1]) by (nonlinear_arith);
    }
}

pub proof fn lemma_lengths_product_nonneg(lengths: Seq<u64>)
    ensures
        lengths_product(lengths) >= 0,
{
}

pub proof fn lemma_lengths_product_pos(lengths: Seq<u64>)
    requires
        forall|i: int| 0 <= i < lengths.len() ==> lengths[i] >= 1,
    ensures
        lengths_product(lengths) >= 1,
    decreases lengths.len(),
{
    if lengths.len() > 0 {
        lemma_lengths_product_pos(lengths.skip(1));
        assert(lengths[0] * lengths_product(lengths.skip(1)) >= 1) by (nonlinear_arith)
            requires
                lengths[0] >= 1,
                lengths_product(lengths.skip(1)) >= 1,
        ;
    }
}

} // verus!
