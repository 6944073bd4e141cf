//! Rendering of decoded values through the format-string mini-language:
//! digits in the requested base, signs, prefixes, zero padding, width and
//! alignment, and the composite forms for enumerations, structures,
//! pointers and arrays.

use vstd::prelude::*;

use crate::format::DisplayHint;
use crate::format::DisplayType;
use crate::format::FormatStringFragment;
use crate::format::FormatStringFragmentIterator;
use crate::format::FragmentV;
use crate::format::HintV;
use crate::format::ParameterPosition;
use crate::format::PositionV;
use crate::format::TextAlign;
use crate::format::spec_fragments;
use crate::var::elems_view;
use crate::var::int_value;
use crate::var::is_int_prim;
use crate::var::Var;
use crate::var::VarMemberV;
use crate::var::VarV;

verus! {

broadcast use vstd::std_specs::vec::group_vec_axioms;

/// The byte for one digit of value `d`.
pub open spec fn digit_byte(d: int, upper: bool) -> u8 {
    if 0 <= d < 10 {
        (0x30 + d) as u8
    } else if 10 <= d < 16 {
        if upper {
            (0x41 + (d - 10)) as u8
        } else {
            (0x61 + (d - 10)) as u8
        }
    } else {
        0x30
    }
}

/// The digits of `n` in the given base, most significant first.
pub open spec fn base_digits(n: nat, base: nat, upper: bool) -> Seq<u8>
    decreases n,
    via base_digits_decreases
{
    if base < 2 {
        seq![]
    } else if n < base {
        seq![digit_byte(n as int, upper)]
    } else {
        base_digits(n / base, base, upper) + seq![digit_byte((n % base) as int, upper)]
    }
}

#[via_fn]
proof fn base_digits_decreases(n: nat, base: nat, upper: bool) {
    if base >= 2 && n >= base {
        assert(n / base < n) by (nonlinear_arith)
            requires
                base >= 2 && n >= base,
        ;
    }
}

/// The decimal digits of `n`.
pub open spec fn dec_digits(n: nat) -> Seq<u8> {
    base_digits(n, 10, false)
}

/// The decimal rendering of `v`, with a minus sign when negative.
pub open spec fn sdec_digits(v: int) -> Seq<u8> {
    if v < 0 {
        seq![0x2Du8] + dec_digits((-v) as nat)
    } else {
        dec_digits(v as nat)
    }
}

pub open spec fn spaces(n: int) -> Seq<u8> {
    Seq::new(if n > 0 { n as nat } else { 0 }, |i: int| 0x20u8)
}

pub open spec fn zeros(n: int) -> Seq<u8> {
    Seq::new(if n > 0 { n as nat } else { 0 }, |i: int| 0x30u8)
}

/// Padding width: the requested width, capped so the result stays
/// addressable.
pub open spec fn target_width(w: u64) -> int {
    if w > usize::MAX as u64 {
        usize::MAX as int
    } else {
        w as int
    }
}

/// Pads `body` with spaces up to the hint's width, aligned as requested
/// (or as `default` when the hint does not say).
pub open spec fn pad_to_width(body: Seq<u8>, h: HintV, default: TextAlign) -> Seq<u8> {
    match h.width {
        None => body,
        Some(w) => {
            let fill = target_width(w) - body.len();
            if fill <= 0 {
                body
            } else {
                let a = match h.align {
                    Some(a) => a,
                    None => default,
                };
                match a {
                    TextAlign::Left => body + spaces(fill),
                    TextAlign::Right => spaces(fill) + body,
                    TextAlign::Center => spaces(fill / 2) + body + spaces(fill - fill / 2),
                }
            }
        },
    }
}

/// Assembles a numeric rendering: sign, alternate prefix, zero padding up
/// to the width, then space padding (numbers align right by default).
pub open spec fn finish_number(neg: bool, sign_flag: bool, prefix: Seq<u8>, digits: Seq<u8>, h: HintV) -> Seq<
    u8,
> {
    let sign: Seq<u8> = if neg {
        seq![0x2Du8]
    } else if sign_flag {
        seq![0x2Bu8]
    } else {
        seq![]
    };
    let zp: int = match h.width {
        Some(w) => if h.zero_pad {
            target_width(w) - sign.len() - prefix.len() - digits.len()
        } else {
            0
        },
        None => 0,
    };
    pad_to_width(sign + prefix + zeros(zp) + digits, h, TextAlign::Right)
}

/// The unsigned reading of an integer value's bit pattern.
pub open spec fn bit_pattern(v: VarV) -> nat {
    let x = int_value(v);
    let w = prim_width(v);
    if x < 0 {
        (x + crate::bytes::pow256(w)) as nat
    } else {
        x as nat
    }
}

/// Width in bytes of an integer value.
pub open spec fn prim_width(v: VarV) -> nat {
    match v {
        VarV::Bool(_) | VarV::U8(_) | VarV::I8(_) => 1,
        VarV::U16(_) | VarV::I16(_) => 2,
        VarV::U32(_) | VarV::I32(_) => 4,
        VarV::U64(_) | VarV::I64(_) => 8,
        _ => 8,
    }
}

/// Scientific notation of a non-negative integer: the leading digit, a
/// fractional part with trailing zeros trimmed, and the decimal exponent.
pub open spec fn exp_digits(n: nat, upper: bool) -> Seq<u8> {
    let ds = dec_digits(n);
    let frac = trim_zeros(ds.skip(1));
    let e: Seq<u8> = if upper {
        seq![0x45u8]
    } else {
        seq![0x65u8]
    };
    if frac.len() == 0 {
        ds.take(1) + e + dec_digits((ds.len() - 1) as nat)
    } else {
        ds.take(1) + seq![0x2Eu8] + frac + e + dec_digits((ds.len() - 1) as nat)
    }
}

/// Drops trailing `0` digits.
pub open spec fn trim_zeros(s: Seq<u8>) -> Seq<u8>
    decreases s.len(),
{
    if s.len() > 0 && s.last() == 0x30 {
        trim_zeros(s.drop_last())
    } else {
        s
    }
}

/// A single byte rendered as text: itself when it is ASCII, the
/// replacement character otherwise.
pub open spec fn lossy_byte(b: u8) -> Seq<u8> {
    if b < 0x80 {
        seq![b]
    } else {
        seq![0xEFu8, 0xBFu8, 0xBDu8]
    }
}

/// The name an enumeration table gives to `key`, searched front to back.
pub open spec fn vv_lookup(vv: Seq<(i128, Seq<u8>)>, key: i128) -> Option<Seq<u8>>
    decreases vv.len(),
{
    if vv.len() == 0 {
        None
    } else if vv[0].0 == key {
        Some(vv[0].1)
    } else {
        vv_lookup(vv.skip(1), key)
    }
}

/// The rendering of one integer value under a display hint.
pub open spec fn render_int(v: VarV, h: HintV) -> Seq<u8> {
    let x = int_value(v);
    match h.ty {
        DisplayType::Display | DisplayType::Debug => finish_number(
            x < 0,
            h.sign,
            seq![],
            dec_digits((if x < 0 {
                -x
            } else {
                x
            }) as nat),
            h,
        ),
        DisplayType::Binary => finish_number(
            false,
            h.sign,
            if h.alternate {
                seq![0x30u8, 0x62u8]
            } else {
                seq![]
            },
            base_digits(bit_pattern(v), 2, false),
            h,
        ),
        DisplayType::Octal => finish_number(
            false,
            h.sign,
            if h.alternate {
                seq![0x30u8, 0x6Fu8]
            } else {
                seq![]
            },
            base_digits(bit_pattern(v), 8, false),
            h,
        ),
        DisplayType::LowerHex => finish_number(
            false,
            h.sign,
            if h.alternate {
                seq![0x30u8, 0x78u8]
            } else {
                seq![]
            },
            base_digits(bit_pattern(v), 16, false),
            h,
        ),
        DisplayType::UpperHex => finish_number(
            false,
            h.sign,
            if h.alternate {
                seq![0x30u8, 0x78u8]
            } else {
                seq![]
            },
            base_digits(bit_pattern(v), 16, true),
            h,
        ),
        DisplayType::LowerExp => pad_to_width(
            (if x < 0 {
                seq![0x2Du8]
            } else {
                seq![]
            }) + exp_digits((if x < 0 {
                -x
            } else {
                x
            }) as nat, false),
            h,
            TextAlign::Right,
        ),
        DisplayType::UpperExp => pad_to_width(
            (if x < 0 {
                seq![0x2Du8]
            } else {
                seq![]
            }) + exp_digits((if x < 0 {
                -x
            } else {
                x
            }) as nat, true),
            h,
            TextAlign::Right,
        ),
        DisplayType::Pointer => pad_to_width(pointer_text(v), h, TextAlign::Right),
        DisplayType::Str => match v {
            VarV::U8(b) => pad_to_width(lossy_byte(b), h, TextAlign::Left),
            VarV::I8(b) => pad_to_width(lossy_byte(b as u8), h, TextAlign::Left),
            _ => cannot_format(),
        },
    }
}

/// A pointer-style rendering: `0x` and the value in hex, zero-padded to
/// the pointee's width.
pub open spec fn pointer_text(v: VarV) -> Seq<u8> {
    let digits = base_digits(bit_pattern(v), 16, false);
    let w = 2 * prim_width(v);
    seq![0x30u8, 0x78u8] + zeros(w - digits.len()) + digits
}

/// The inline placeholder for a value the hint cannot render.
pub open spec fn cannot_format() -> Seq<u8> {
    seq![0x7Bu8, 0x63u8, 0x61u8, 0x6Eu8, 0x6Eu8, 0x6Fu8, 0x74u8, 0x20u8, 0x66u8, 0x6Fu8, 0x72u8,
        0x6Du8, 0x61u8, 0x74u8, 0x7Du8]
}

/// The inline placeholder for a floating-point value, whose rendering
/// this library leaves to its callers.
pub open spec fn float_placeholder(wide: bool) -> Seq<u8> {
    if wide {
        seq![0x7Bu8, 0x66u8, 0x36u8, 0x34u8, 0x7Du8]
    } else {
        seq![0x7Bu8, 0x66u8, 0x33u8, 0x32u8, 0x7Du8]
    }
}

/// The rendering of one decoded value under a display hint. Total: values
/// a hint cannot render become inline placeholders.
pub open spec fn spec_render(v: VarV, h: HintV) -> Seq<u8>
    decreases v, 0int,
{
    match v {
        VarV::Bool(b) => pad_to_width(
            if b {
                seq![0x74u8, 0x72u8, 0x75u8, 0x65u8]
            } else {
                seq![0x66u8, 0x61u8, 0x6Cu8, 0x73u8, 0x65u8]
            },
            h,
            TextAlign::Left,
        ),
        VarV::F32(_) => float_placeholder(false),
        VarV::F64(_) => float_placeholder(true),
        VarV::Enumeration { value, valid_values } => if is_int_prim(*value) {
            let key = int_value(*value);
            match vv_lookup(valid_values, key as i128) {
                Some(name) => pad_to_width(name, h, TextAlign::Left),
                None => pad_to_width(sdec_digits(key), h, TextAlign::Right),
            }
        } else {
            cannot_format()
        },
        VarV::Structure { members } => if h.alternate {
            seq![0x7Bu8] + render_members(members, 0, h, true) + seq![0x0Au8, 0x7Du8]
        } else {
            seq![0x7Bu8, 0x20u8] + render_members(members, 0, h, false) + seq![0x20u8, 0x7Du8]
        },
        VarV::Pointer(inner) => if is_int_prim(*inner) {
            pad_to_width(pointer_text(*inner), h, TextAlign::Right)
        } else {
            cannot_format()
        },
        VarV::Array(elems) => if h.ty == DisplayType::Str {
            render_elems_concat(elems, 0, h)
        } else {
            seq![0x5Bu8] + render_elems_list(elems, 0, h) + seq![0x5Du8]
        },
        _ => render_int(v, h),
    }
}

/// The members of a structure from index `i` on, each `name: value`,
/// separated by commas; the pretty form puts each on its own indented
/// line.
pub open spec fn render_members(ms: Seq<VarMemberV>, i: int, h: HintV, pretty: bool) -> Seq<u8>
    decreases ms, ms.len() - i,
{
    if i < 0 || i >= ms.len() {
        seq![]
    } else {
        let head: Seq<u8> = (if i > 0 {
            seq![0x2Cu8]
        } else {
            seq![]
        });
        let lead: Seq<u8> = if pretty {
            seq![0x0Au8, 0x09u8]
        } else if i > 0 {
            seq![0x20u8]
        } else {
            seq![]
        };
        head + lead + ms[i].name + seq![0x3Au8, 0x20u8] + spec_render(ms[i].value, h)
            + render_members(ms, i + 1, h, pretty)
    }
}

/// The elements of an array from index `i` on, comma-separated.
pub open spec fn render_elems_list(elems: Seq<VarV>, i: int, h: HintV) -> Seq<u8>
    decreases elems, elems.len() - i,
{
    if i < 0 || i >= elems.len() {
        seq![]
    } else {
        (if i > 0 {
            seq![0x2Cu8, 0x20u8]
        } else {
            seq![]
        }) + spec_render(elems[i], h) + render_elems_list(elems, i + 1, h)
    }
}

/// The elements of an array from index `i` on, concatenated: the string
/// form of a byte array.
pub open spec fn render_elems_concat(elems: Seq<VarV>, i: int, h: HintV) -> Seq<u8>
    decreases elems, elems.len() - i,
{
    if i < 0 || i >= elems.len() {
        seq![]
    } else {
        spec_render(elems[i], h) + render_elems_concat(elems, i + 1, h)
    }
}

/// A vector of `n` copies of `b`.
fn fill_bytes(n: usize, b: u8) -> (r: Vec<u8>)
    ensures
        r@ == Seq::new(n as nat, |i: int| b),
{
    let mut r: Vec<u8> = Vec::new();
    let mut i: usize = 0;
    while i < n
        invariant
            i <= n,
            r@ =~= Seq::new(i as nat, |j: int| b),
        decreases n - i,
    {
        r.push(b);
        proof {
            assert(r@ =~= Seq::new((i + 1) as nat, |j: int| b));
        }
        i = i + 1;
    }
    r
}

/// Digits of `n` in the given base, most significant first.
pub fn base_digits_exec(n: u128, base: u128, upper: bool) -> (r: Vec<u8>)
    requires
        2 <= base <= 16,
    ensures
        r@ == base_digits(n as nat, base as nat, upper),
    decreases n,
{
    let d: u8 = (n % base) as u8;
    let db: u8 = if d < 10 {
        0x30 + d
    } else if upper {
        0x41 + (d - 10)
    } else {
        0x61 + (d - 10)
    };
    if n < base {
        let mut r: Vec<u8> = Vec::new();
        r.push(db);
        proof {
            assert(n % base == n) by (nonlinear_arith)
                requires
                    0 <= n < base,
            ;
            assert(r@ =~= seq![digit_byte(n as int, upper)]);
        }
        r
    } else {
        proof {
            assert(n / base < n) by (nonlinear_arith)
                requires
                    2 <= base <= n,
            ;
        }
        let mut r = base_digits_exec(n / base, base, upper);
        r.push(db);
        proof {
            assert(r@ =~= base_digits((n / base) as nat, base as nat, upper) + seq![
                digit_byte((n % base) as int, upper),
            ]);
        }
        r
    }
}

/// Pads `body` with spaces up to the hint's width.
fn pad_exec(body: Vec<u8>, h: &DisplayHint, default: TextAlign) -> (r: Vec<u8>)
    ensures
        r@ == pad_to_width(body@, h@, default),
{
    let ghost b0 = body@;
    let w = match h.width {
        None => {
            return body;
        },
        Some(w) => w,
    };
    let target: usize = if w > usize::MAX as u64 {
        usize::MAX
    } else {
        w as usize
    };
    if target <= body.len() {
        return body;
    }
    let fill = target - body.len();
    let a = match h.align {
        Some(a) => a,
        None => default,
    };
    let mut out: Vec<u8> = Vec::new();
    match a {
        TextAlign::Left => {
            let mut body = body;
            let mut sp = fill_bytes(fill, 0x20);
            out.append(&mut body);
            out.append(&mut sp);
            proof {
                assert(Seq::new(fill as nat, |i: int| 0x20u8) =~= spaces(
                    target_width(w) - b0.len(),
                ));
                assert(out@ =~= pad_to_width(b0, h@, default));
            }
        },
        TextAlign::Right => {
            let mut body = body;
            let mut sp = fill_bytes(fill, 0x20);
            out.append(&mut sp);
            out.append(&mut body);
            proof {
                assert(Seq::new(fill as nat, |i: int| 0x20u8) =~= spaces(
                    target_width(w) - b0.len(),
                ));
                assert(out@ =~= pad_to_width(b0, h@, default));
            }
        },
        TextAlign::Center => {
            let mut body = body;
            let mut l = fill_bytes(fill / 2, 0x20);
            let mut rr = fill_bytes(fill - fill / 2, 0x20);
            out.append(&mut l);
            out.append(&mut body);
            out.append(&mut rr);
            proof {
                let fillv = target_width(w) - b0.len();
                assert(Seq::new((fill / 2) as nat, |i: int| 0x20u8) =~= spaces(fillv / 2));
                assert(Seq::new((fill - fill / 2) as nat, |i: int| 0x20u8) =~= spaces(
                    fillv - fillv / 2,
                ));
                assert(out@ =~= pad_to_width(b0, h@, default));
            }
        },
    }
    out
}

/// Assembles a numeric rendering as [`finish_number`] does.
fn finish_number_exec(
    neg: bool,
    sign_flag: bool,
    prefix: Vec<u8>,
    digits: Vec<u8>,
    h: &DisplayHint,
) -> (r: Vec<u8>)
    ensures
        r@ == finish_number(neg, sign_flag, prefix@, digits@, h@),
{
    let ghost p0 = prefix@;
    let ghost d0 = digits@;
    let mut body: Vec<u8> = Vec::new();
    if neg {
        body.push(0x2D);
    } else if sign_flag {
        body.push(0x2B);
    }
    let ghost sign_s = body@;
    proof {
        if neg {
            assert(sign_s =~= seq![0x2Du8]);
        } else if sign_flag {
            assert(sign_s =~= seq![0x2Bu8]);
        } else {
            assert(sign_s =~= Seq::<u8>::empty());
        }
    }
    let mut prefix = prefix;
    let mut digits = digits;
    body.append(&mut prefix);
    let zp: usize = match h.width {
        Some(w) => {
            if h.zero_pad {
                let target: usize = if w > usize::MAX as u64 {
                    usize::MAX
                } else {
                    w as usize
                };
                if target > body.len() && target - body.len() > digits.len() {
                    target - body.len() - digits.len()
                } else {
                    0
                }
            } else {
                0
            }
        },
        None => 0,
    };
    let mut z = fill_bytes(zp, 0x30);
    body.append(&mut z);
    body.append(&mut digits);
    proof {
        let zpv: int = match h@.width {
            Some(w) => if h@.zero_pad {
                target_width(w) - sign_s.len() - p0.len() - d0.len()
            } else {
                0
            },
            None => 0,
        };
        assert(Seq::new(zp as nat, |i: int| 0x30u8) =~= zeros(zpv));
        assert(body@ =~= sign_s + p0 + zeros(zpv) + d0);
    }
    pad_exec(body, h, TextAlign::Right)
}

/// The name an enumeration table gives to `key`, copied out.
fn vv_lookup_exec(vv: &Vec<(i128, Vec<u8>)>, key: i128) -> (r: Option<Vec<u8>>)
    ensures
        match r {
            Some(name) => vv_lookup(crate::var::vv_view(vv@), key) == Some(name@),
            None => vv_lookup(crate::var::vv_view(vv@), key) is None,
        },
{
    let ghost vvv = crate::var::vv_view(vv@);
    let mut i: usize = 0;
    proof {
        assert(vvv.skip(0) =~= vvv);
    }
    while i < vv.len()
        invariant
            i <= vv@.len(),
            vvv == crate::var::vv_view(vv@),
            vv_lookup(vvv, key) == vv_lookup(vvv.skip(i as int), key),
        decreases vv@.len() - i,
    {
        proof {
            assert(vvv.skip(i as int)[0] == vvv[i as int]);
            assert(vvv[i as int] == (vv@[i as int].0, vv@[i as int].1@));
            assert(vvv.skip(i as int).skip(1) =~= vvv.skip(i + 1));
        }
        if vv[i].0 == key {
            let mut name: Vec<u8> = Vec::new();
            name.extend_from_slice(vv[i].1.as_slice());
            proof {
                assert(name@ =~= vv@[i as int].1@);
            }
            return Some(name);
        }
        i = i + 1;
    }
    proof {
        assert(vvv.skip(i as int).len() == 0);
    }
    None
}

/// Renders one integer value under a display hint.
#[verifier::rlimit(100)]
fn render_int_exec(v: &Var, h: &DisplayHint) -> (r: Vec<u8>)
    requires
        is_int_prim(v@),
        !(v@ is Bool),
    ensures
        r@ == render_int(v@, h@),
{
    proof {
        crate::bytes::lemma_pow256_values();
    }
    let x = v.as_i128();
    let u64pat = v.as_u64();
    let ghost bp = bit_pattern(v@);
    let width: usize = match v {
        Var::U8(_) | Var::I8(_) => 1,
        Var::U16(_) | Var::I16(_) => 2,
        Var::U32(_) | Var::I32(_) => 4,
        _ => 8,
    };
    proof {
        assert(prim_width(v@) == width);
        assert(bp < crate::bytes::pow256(8));
        if int_value(v@) >= 0 {
            assert(u64pat as int == bp);
        } else {
            assert(int_value(v@) >= -0x8000000000000000);
            assert(u64pat as int == int_value(v@) + 0x10000000000000000);
            assert(bp == int_value(v@) + crate::bytes::pow256(prim_width(v@)));
        }
    }
    let pat: u128 = if x >= 0 {
        u64pat as u128
    } else {
        match v {
            Var::I8(_) => (u64pat & 0xFF) as u128,
            Var::I16(_) => (u64pat & 0xFFFF) as u128,
            Var::I32(_) => (u64pat & 0xFFFFFFFF) as u128,
            _ => u64pat as u128,
        }
    };
    let mag: u128 = if x >= 0 {
        x as u128
    } else {
        ((-(x + 1)) as u128) + 1
    };
    match h.ty {
        DisplayType::Display | DisplayType::Debug => {
            let digits = base_digits_exec(mag, 10, false);
            finish_number_exec(x < 0, h.sign, Vec::new(), digits, h)
        },
        DisplayType::Binary => {
            proof {
                lemma_bit_pattern_masks(v@, u64pat);
            }
            let digits = base_digits_exec(pat, 2, false);
            let mut p: Vec<u8> = Vec::new();
            if h.alternate {
                p.push(0x30);
                p.push(0x62);
            }
            proof {
                if h@.alternate {
                    assert(p@ =~= seq![0x30u8, 0x62u8]);
                } else {
                    assert(p@ =~= Seq::<u8>::empty());
                }
            }
            finish_number_exec(false, h.sign, p, digits, h)
        },
        DisplayType::Octal => {
            proof {
                lemma_bit_pattern_masks(v@, u64pat);
            }
            let digits = base_digits_exec(pat, 8, false);
            let mut p: Vec<u8> = Vec::new();
            if h.alternate {
                p.push(0x30);
                p.push(0x6F);
            }
            proof {
                if h@.alternate {
                    assert(p@ =~= seq![0x30u8, 0x6Fu8]);
                } else {
                    assert(p@ =~= Seq::<u8>::empty());
                }
            }
            finish_number_exec(false, h.sign, p, digits, h)
        },
        DisplayType::LowerHex => {
            proof {
                lemma_bit_pattern_masks(v@, u64pat);
            }
            let digits = base_digits_exec(pat, 16, false);
            let mut p: Vec<u8> = Vec::new();
            if h.alternate {
                p.push(0x30);
                p.push(0x78);
            }
            proof {
                if h@.alternate {
                    assert(p@ =~= seq![0x30u8, 0x78u8]);
                } else {
                    assert(p@ =~= Seq::<u8>::empty());
                }
            }
            finish_number_exec(false, h.sign, p, digits, h)
        },
        DisplayType::UpperHex => {
            proof {
                lemma_bit_pattern_masks(v@, u64pat);
            }
            let digits = base_digits_exec(pat, 16, true);
            let mut p: Vec<u8> = Vec::new();
            if h.alternate {
                p.push(0x30);
                p.push(0x78);
            }
            proof {
                if h@.alternate {
                    assert(p@ =~= seq![0x30u8, 0x78u8]);
                } else {
                    assert(p@ =~= Seq::<u8>::empty());
                }
            }
            finish_number_exec(false, h.sign, p, digits, h)
        },
        DisplayType::LowerExp => {
            let body = exp_digits_exec(mag, false);
            let mut out: Vec<u8> = Vec::new();
            if x < 0 {
                out.push(0x2D);
            }
            let mut body = body;
            out.append(&mut body);
            proof {
                if x < 0 {
                    assert(out@ =~= seq![0x2Du8] + exp_digits(mag as nat, false));
                } else {
                    assert(out@ =~= Seq::<u8>::empty() + exp_digits(mag as nat, false));
                    assert(Seq::<u8>::empty() + exp_digits(mag as nat, false) =~= exp_digits(
                        mag as nat,
                        false,
                    ));
                }
            }
            pad_exec(out, h, TextAlign::Right)
        },
        DisplayType::UpperExp => {
            let body = exp_digits_exec(mag, true);
            let mut out: Vec<u8> = Vec::new();
            if x < 0 {
                out.push(0x2D);
            }
            let mut body = body;
            out.append(&mut body);
            proof {
                if x < 0 {
                    assert(out@ =~= seq![0x2Du8] + exp_digits(mag as nat, true));
                } else {
                    assert(out@ =~= Seq::<u8>::empty() + exp_digits(mag as nat, true));
                    assert(Seq::<u8>::empty() + exp_digits(mag as nat, true) =~= exp_digits(
                        mag as nat,
                        true,
                    ));
                }
            }
            pad_exec(out, h, TextAlign::Right)
        },
        DisplayType::Pointer => {
            proof {
                lemma_bit_pattern_masks(v@, u64pat);
            }
            let body = pointer_text_exec(pat, width);
            proof {
                assert(body@ == pointer_text(v@));
            }
            pad_exec(body, h, TextAlign::Right)
        },
        DisplayType::Str => {
            match v {
                Var::U8(b) => {
                    let body = lossy_byte_exec(*b);
                    pad_exec(body, h, TextAlign::Left)
                },
                Var::I8(b) => {
                    let body = lossy_byte_exec(*b as u8);
                    pad_exec(body, h, TextAlign::Left)
                },
                _ => cannot_format_exec(),
            }
        },
    }
}

/// `0x` and the value in hex, zero-padded to the value's width.
fn pointer_text_exec(pat: u128, width: usize) -> (r: Vec<u8>)
    requires
        width <= 8,
        pat < 0x10000000000000000,
    ensures
        r@ == seq![0x30u8, 0x78u8] + zeros(2 * width - base_digits(pat as nat, 16, false).len())
            + base_digits(pat as nat, 16, false),
{
    let digits = base_digits_exec(pat, 16, false);
    let dl = digits.len();
    let zp: usize = if 2 * width > dl {
        2 * width - dl
    } else {
        0
    };
    let mut out: Vec<u8> = Vec::new();
    out.push(0x30);
    out.push(0x78);
    let mut z = fill_bytes(zp, 0x30);
    let mut digits = digits;
    out.append(&mut z);
    out.append(&mut digits);
    proof {
        assert(Seq::new(zp as nat, |i: int| 0x30u8) =~= zeros(
            2 * width - base_digits(pat as nat, 16, false).len(),
        ));
        assert(out@ =~= seq![0x30u8, 0x78u8] + zeros(
            2 * width - base_digits(pat as nat, 16, false).len(),
        ) + base_digits(pat as nat, 16, false));
    }
    out
}

/// A digit string is never empty.
pub proof fn lemma_base_digits_nonempty(n: nat, base: nat, upper: bool)
    requires
        2 <= base <= 16,
    ensures
        base_digits(n, base, upper).len() >= 1,
    decreases n,
{
    if n >= base {
        assert(n / base < n) by (nonlinear_arith)
            requires
                2 <= base <= n,
        ;
        lemma_base_digits_nonempty(n / base, base, upper);
    }
}

/// Bit patterns of sign-extended negatives, cut to the value's width.
pub proof fn lemma_bit_pattern_masks(v: VarV, u64pat: u64)
    requires
        is_int_prim(v),
        !(v is Bool),
        u64pat as int == (if int_value(v) < 0 {
            int_value(v) + 0x10000000000000000
        } else {
            int_value(v)
        }),
    ensures
        int_value(v) >= 0 ==> bit_pattern(v) == u64pat,
        v is I8 && int_value(v) < 0 ==> bit_pattern(v) == u64pat & 0xFF,
        v is I16 && int_value(v) < 0 ==> bit_pattern(v) == u64pat & 0xFFFF,
        v is I32 && int_value(v) < 0 ==> bit_pattern(v) == u64pat & 0xFFFFFFFF,
        v is I64 && int_value(v) < 0 ==> bit_pattern(v) == u64pat,
        bit_pattern(v) < 0x10000000000000000,
{
    crate::bytes::lemma_pow256_values();
    if int_value(v) < 0 {
        let x = int_value(v);
        match v {
            VarV::I8(b) => {
                assert(u64pat == (x + 0x10000000000000000) as u64);
                assert(u64pat & 0xFF == (u64pat % 0x100) as u64) by (bit_vector);
                assert((x + 0x10000000000000000) % 0x100 == (x + 0x100) % 0x100)
                    by (nonlinear_arith);
                assert((x + 0x100) % 0x100 == x + 0x100) by (nonlinear_arith)
                    requires
                        -0x80 <= x < 0,
                ;
            },
            VarV::I16(b) => {
                assert(u64pat == (x + 0x10000000000000000) as u64);
                assert(u64pat & 0xFFFF == (u64pat % 0x10000) as u64) by (bit_vector);
                assert((x + 0x10000000000000000) % 0x10000 == (x + 0x10000) % 0x10000)
                    by (nonlinear_arith);
                assert((x + 0x10000) % 0x10000 == x + 0x10000) by (nonlinear_arith)
                    requires
                        -0x8000 <= x < 0,
                ;
            },
            VarV::I32(b) => {
                assert(u64pat == (x + 0x10000000000000000) as u64);
                assert(u64pat & 0xFFFFFFFF == (u64pat % 0x100000000) as u64) by (bit_vector);
                assert((x + 0x10000000000000000) % 0x100000000 == (x + 0x100000000)
                    % 0x100000000) by (nonlinear_arith);
                assert((x + 0x100000000) % 0x100000000 == x + 0x100000000) by (nonlinear_arith)
                    requires
                        -0x80000000 <= x < 0,
                ;
            },
            _ => {},
        }
    }
}

/// The replacement of one byte by text.
fn lossy_byte_exec(b: u8) -> (r: Vec<u8>)
    ensures
        r@ == lossy_byte(b),
{
    let mut r: Vec<u8> = Vec::new();
    if b < 0x80 {
        r.push(b);
        proof {
            assert(r@ =~= lossy_byte(b));
        }
    } else {
        r.push(0xEF);
        r.push(0xBF);
        r.push(0xBD);
        proof {
            assert(r@ =~= lossy_byte(b));
        }
    }
    r
}

/// The inline placeholder for a value the hint cannot render.
fn cannot_format_exec() -> (r: Vec<u8>)
    ensures
        r@ == cannot_format(),
{
    let mut r: Vec<u8> = Vec::new();
    r.push(0x7B);
    r.push(0x63);
    r.push(0x61);
    r.push(0x6E);
    r.push(0x6E);
    r.push(0x6F);
    r.push(0x74);
    r.push(0x20);
    r.push(0x66);
    r.push(0x6F);
    r.push(0x72);
    r.push(0x6D);
    r.push(0x61);
    r.push(0x74);
    r.push(0x7D);
    proof {
        assert(r@ =~= cannot_format());
    }
    r
}

/// Scientific notation of a non-negative value.
fn exp_digits_exec(n: u128, upper: bool) -> (r: Vec<u8>)
    ensures
        r@ == exp_digits(n as nat, upper),
{
    let ds = base_digits_exec(n, 10, false);
    proof {
        lemma_base_digits_nonempty(n as nat, 10, false);
    }
    let mut frac_end = ds.len();
    while frac_end > 1 && ds[frac_end - 1] == 0x30
        invariant
            1 <= frac_end <= ds@.len(),
            trim_zeros(ds@.skip(1)) == trim_zeros(ds@.subrange(1, frac_end as int)),
        decreases frac_end,
    {
        proof {
            assert(ds@.subrange(1, frac_end as int).last() == ds@[frac_end - 1]);
            assert(ds@.subrange(1, frac_end as int).drop_last() =~= ds@.subrange(
                1,
                frac_end - 1,
            ));
        }
        frac_end = frac_end - 1;
    }
    proof {
        if frac_end > 1 {
            assert(ds@.subrange(1, frac_end as int).last() == ds@[frac_end - 1]);
            assert(ds@[frac_end - 1] != 0x30);
            assert(trim_zeros(ds@.subrange(1, frac_end as int)) == ds@.subrange(
                1,
                frac_end as int,
            ));
        } else {
            assert(ds@.subrange(1, 1).len() == 0);
            assert(trim_zeros(ds@.subrange(1, 1)) =~= ds@.subrange(1, 1));
        }
    }
    let mut out: Vec<u8> = Vec::new();
    out.push(ds[0]);
    proof {
        assert(out@ =~= ds@.take(1));
    }
    if frac_end > 1 {
        out.push(0x2E);
        let mut k: usize = 1;
        while k < frac_end
            invariant
                1 <= k <= frac_end <= ds@.len(),
                out@ =~= ds@.take(1) + seq![0x2Eu8] + ds@.subrange(1, k as int),
            decreases frac_end - k,
        {
            out.push(ds[k]);
            proof {
                assert(out@ =~= ds@.take(1) + seq![0x2Eu8] + ds@.subrange(1, k + 1));
            }
            k = k + 1;
        }
    }
    out.push(if upper {
        0x45
    } else {
        0x65
    });
    let mut ex = base_digits_exec((ds.len() - 1) as u128, 10, false);
    out.append(&mut ex);
    proof {
        let dsv = base_digits(n as nat, 10, false);
        let frac = trim_zeros(dsv.skip(1));
        assert(dsv.skip(1) =~= dsv.subrange(1, dsv.len() as int));
        if frac_end > 1 {
            assert(frac =~= dsv.subrange(1, frac_end as int));
            assert(out@ =~= dsv.take(1) + seq![0x2Eu8] + frac + (if upper {
                seq![0x45u8]
            } else {
                seq![0x65u8]
            }) + dec_digits((dsv.len() - 1) as nat));
        } else {
            assert(frac.len() == 0);
            assert(out@ =~= dsv.take(1) + (if upper {
                seq![0x45u8]
            } else {
                seq![0x65u8]
            }) + dec_digits((dsv.len() - 1) as nat));
        }
    }
    out
}

impl Var {
    /// Renders this value under a display hint, exactly as [`spec_render`]
    /// says. Never fails: what the hint cannot render becomes an inline
    /// placeholder.
    #[verifier::loop_isolation(false)]
    #[verifier::rlimit(100)]
    pub fn format(&self, hint: &DisplayHint) -> (r: Vec<u8>)
        ensures
            r@ == spec_render(self@, hint@),
        decreases *self,
    {
        match self {
            Var::Bool(b) => {
                let mut body: Vec<u8> = Vec::new();
                if *b {
                    body.push(0x74);
                    body.push(0x72);
                    body.push(0x75);
                    body.push(0x65);
                    proof {
                        assert(body@ =~= seq![0x74u8, 0x72u8, 0x75u8, 0x65u8]);
                    }
                } else {
                    body.push(0x66);
                    body.push(0x61);
                    body.push(0x6C);
                    body.push(0x73);
                    body.push(0x65);
                    proof {
                        assert(body@ =~= seq![0x66u8, 0x61u8, 0x6Cu8, 0x73u8, 0x65u8]);
                    }
                }
                pad_exec(body, hint, TextAlign::Left)
            },
            Var::F32(_) => {
                let mut r: Vec<u8> = Vec::new();
                r.push(0x7B);
                r.push(0x66);
                r.push(0x33);
                r.push(0x32);
                r.push(0x7D);
                proof {
                    assert(r@ =~= float_placeholder(false));
                }
                r
            },
            Var::F64(_) => {
                let mut r: Vec<u8> = Vec::new();
                r.push(0x7B);
                r.push(0x66);
                r.push(0x36);
                r.push(0x34);
                r.push(0x7D);
                proof {
                    assert(r@ =~= float_placeholder(true));
                }
                r
            },
            Var::Enumeration { value, valid_values } => {
                let inner: &Var = &**value;
                let is_prim = match inner {
                    Var::Bool(_) | Var::U8(_) | Var::U16(_) | Var::U32(_) | Var::U64(_)
                        | Var::I8(_) | Var::I16(_) | Var::I32(_) | Var::I64(_) => true,
                    _ => false,
                };
                if is_prim {
                    let key = inner.as_i128();
                    match vv_lookup_exec(valid_values, key) {
                        Some(name) => pad_exec(name, hint, TextAlign::Left),
                        None => {
                            let mag: u128 = if key >= 0 {
                                key as u128
                            } else {
                                ((-(key + 1)) as u128) + 1
                            };
                            let digits = base_digits_exec(mag, 10, false);
                            let mut body: Vec<u8> = Vec::new();
                            if key < 0 {
                                body.push(0x2D);
                            }
                            let mut digits = digits;
                            body.append(&mut digits);
                            proof {
                                if key < 0 {
                                    assert(body@ =~= sdec_digits(key as int));
                                } else {
                                    assert(body@ =~= Seq::<u8>::empty() + dec_digits(
                                        key as nat,
                                    ));
                                    assert(Seq::<u8>::empty() + dec_digits(key as nat)
                                        =~= sdec_digits(key as int));
                                }
                            }
                            pad_exec(body, hint, TextAlign::Right)
                        },
                    }
                } else {
                    cannot_format_exec()
                }
            },
            Var::Structure { members } => render_struct(members, hint),
            Var::Pointer(inner) => render_pointer(&**inner, hint),
            Var::Array(elems) => render_array(elems, hint),
            _ => render_int_exec(self, hint),
        }
    }
}

/// Renders a structure value: `name: value` pairs, inline or one per
/// indented line when the hint asks for the alternate form.
#[verifier::loop_isolation(false)]
#[verifier::rlimit(100)]
fn render_struct(members: &Vec<crate::var::StructureMember>, hint: &DisplayHint) -> (r: Vec<u8>)
    ensures
        r@ == spec_render(
            VarV::Structure { members: crate::var::members_value_view(members@) },
            hint@,
        ),
    decreases *members, 1int,
{
        let ghost msv = crate::var::members_value_view(members@);
        let pretty = hint.alternate;
        let mut out: Vec<u8> = Vec::new();
        out.push(0x7B);
        if !pretty {
            out.push(0x20);
        }
        let ghost open_s = out@;
        let mut i: usize = 0;
        while i < members.len()
            invariant
                i <= members@.len(),
                msv == crate::var::members_value_view(members@),
                pretty == hint@.alternate,
                out@ + render_members(msv, i as int, hint@, pretty) == open_s
                    + render_members(msv, 0, hint@, pretty),
            decreases members@.len() - i,
        {
            let m = &members[i];
            proof {
                assert(msv[i as int] == VarMemberV {
                    name: m.name@,
                    value: crate::var::var_view(m.value),
                });
            }
            if i > 0 {
                out.push(0x2C);
                if !pretty {
                    out.push(0x20);
                }
            }
            if pretty {
                out.push(0x0A);
                out.push(0x09);
            }
            out.extend_from_slice(m.name.as_slice());
            out.push(0x3A);
            out.push(0x20);
            let mut val = m.value.format(hint);
            out.append(&mut val);
            proof {
                assert(render_members(msv, i as int, hint@, pretty) == (if i > 0 {
                    seq![0x2Cu8]
                } else {
                    seq![]
                }) + (if pretty {
                    seq![0x0Au8, 0x09u8]
                } else if i > 0 {
                    seq![0x20u8]
                } else {
                    seq![]
                }) + msv[i as int].name + seq![0x3Au8, 0x20u8] + spec_render(
                    msv[i as int].value,
                    hint@,
                ) + render_members(msv, i + 1, hint@, pretty));
                assert(out@ + render_members(msv, i + 1, hint@, pretty) =~= open_s
                    + render_members(msv, 0, hint@, pretty));
            }
            i = i + 1;
        }
        proof {
            assert(render_members(msv, i as int, hint@, pretty) =~= Seq::<u8>::empty());
            assert(out@ =~= open_s + render_members(msv, 0, hint@, pretty));
        }
        if pretty {
            out.push(0x0A);
            out.push(0x7D);
            proof {
                assert(out@ =~= seq![0x7Bu8] + render_members(msv, 0, hint@, true) + seq![
                    0x0Au8, 0x7Du8,
                ]);
            }
        } else {
            out.push(0x20);
            out.push(0x7D);
            proof {
                assert(out@ =~= seq![0x7Bu8, 0x20u8] + render_members(
                    msv,
                    0,
                    hint@,
                    false,
                ) + seq![0x20u8, 0x7Du8]);
            }
        }
        out
}

/// Renders a pointer value: `0x` and the pointee in hex, zero-padded to
/// its width.
#[verifier::rlimit(100)]
fn render_pointer(inner: &Var, hint: &DisplayHint) -> (r: Vec<u8>)
    ensures
        r@ == spec_render(VarV::Pointer(Box::new(inner@)), hint@),
{
    let innerr: &Var = inner;
        
        let is_prim = match innerr {
            Var::Bool(_) | Var::U8(_) | Var::U16(_) | Var::U32(_) | Var::U64(_)
                | Var::I8(_) | Var::I16(_) | Var::I32(_) | Var::I64(_) => true,
            _ => false,
        };
        if is_prim {
            proof {
                crate::bytes::lemma_pow256_values();
            }
            let u64pat = innerr.as_u64();
            let x = innerr.as_i128();
            let width: usize = match innerr {
                Var::Bool(_) | Var::U8(_) | Var::I8(_) => 1,
                Var::U16(_) | Var::I16(_) => 2,
                Var::U32(_) | Var::I32(_) => 4,
                _ => 8,
            };
            let pat: u128 = if x >= 0 {
                u64pat as u128
            } else {
                match innerr {
                    Var::I8(_) => (u64pat & 0xFF) as u128,
                    Var::I16(_) => (u64pat & 0xFFFF) as u128,
                    Var::I32(_) => (u64pat & 0xFFFFFFFF) as u128,
                    _ => u64pat as u128,
                }
            };
            proof {
                if !(innerr@ is Bool) {
                    lemma_bit_pattern_masks(innerr@, u64pat);
                } else {
                    assert(bit_pattern(innerr@) == u64pat as nat);
                }
                assert(prim_width(innerr@) == width);
            }
            let body = pointer_text_exec(pat, width);
            proof {
                assert(body@ == pointer_text(innerr@));
            }
            pad_exec(body, hint, TextAlign::Right)
        } else {
            cannot_format_exec()
        }
}

/// Renders an array value: concatenated under the string hint, a
/// bracketed list otherwise.
#[verifier::loop_isolation(false)]
#[verifier::rlimit(100)]
fn render_array(elems: &Vec<Var>, hint: &DisplayHint) -> (r: Vec<u8>)
    ensures
        r@ == spec_render(VarV::Array(crate::var::elems_view(elems@)), hint@),
    decreases *elems, 1int,
{
        let ghost esv = crate::var::elems_view(elems@);
        let concat = match hint.ty {
            DisplayType::Str => true,
            _ => false,
        };
        if concat {
            let mut out: Vec<u8> = Vec::new();
            let mut i: usize = 0;
            while i < elems.len()
                invariant
                    i <= elems@.len(),
                    esv == crate::var::elems_view(elems@),
                    out@ + render_elems_concat(esv, i as int, hint@)
                        == render_elems_concat(esv, 0, hint@),
                decreases elems@.len() - i,
            {
                proof {
                    assert(esv[i as int] == crate::var::var_view(elems@[i as int]));
                }
                let mut val = elems[i].format(hint);
                out.append(&mut val);
                proof {
                    assert(out@ + render_elems_concat(esv, i + 1, hint@)
                        =~= render_elems_concat(esv, 0, hint@));
                }
                i = i + 1;
            }
            proof {
                assert(render_elems_concat(esv, i as int, hint@) =~= Seq::<u8>::empty());
                assert(out@ =~= render_elems_concat(esv, 0, hint@));
            }
            out
        } else {
            let mut out: Vec<u8> = Vec::new();
            out.push(0x5B);
            let ghost open_s = out@;
            let mut i: usize = 0;
            while i < elems.len()
                invariant
                    i <= elems@.len(),
                    esv == crate::var::elems_view(elems@),
                    out@ + render_elems_list(esv, i as int, hint@) == open_s
                        + render_elems_list(esv, 0, hint@),
                decreases elems@.len() - i,
            {
                proof {
                    assert(esv[i as int] == crate::var::var_view(elems@[i as int]));
                }
                if i > 0 {
                    out.push(0x2C);
                    out.push(0x20);
                }
                let mut val = elems[i].format(hint);
                out.append(&mut val);
                proof {
                    assert(out@ + render_elems_list(esv, i + 1, hint@) =~= open_s
                        + render_elems_list(esv, 0, hint@));
                }
                i = i + 1;
            }
            proof {
                assert(render_elems_list(esv, i as int, hint@) =~= Seq::<u8>::empty());
            }
            out.push(0x5D);
            proof {
                assert(out@ =~= seq![0x5Bu8] + render_elems_list(esv, 0, hint@) + seq![
                    0x5Du8,
                ]);
            }
            out
        }
}


/// Index of `name` in the parameter-name list, or -1 when absent.
pub open spec fn name_index(names: Seq<Seq<u8>>, name: Seq<u8>) -> int
    decreases names.len(),
{
    if names.len() == 0 {
        -1
    } else if names[0] == name {
        0
    } else {
        let r = name_index(names.skip(1), name);
        if r < 0 {
            -1
        } else {
            1 + r
        }
    }
}

/// The inline text for a positional reference past the argument list.
pub open spec fn no_positional_text(n: u64) -> Seq<u8> {
    seq![0x7Bu8, 0x4Eu8, 0x6Fu8, 0x20u8, 0x70u8, 0x6Fu8, 0x73u8, 0x69u8, 0x74u8, 0x69u8, 0x6Fu8, 0x6Eu8, 0x61u8, 0x6Cu8, 0x20u8, 0x70u8, 0x61u8, 0x72u8, 0x61u8, 0x6Du8, 0x65u8, 0x74u8, 0x65u8, 0x72u8, 0x20u8, 0x61u8, 0x74u8, 0x20u8, 0x69u8, 0x6Eu8, 0x64u8, 0x65u8, 0x78u8, 0x20u8] + dec_digits(n as nat) + seq![0x7Du8]
}

/// The inline text for an implicit or named reference past the argument
/// list.
pub open spec fn no_param_text(i: int) -> Seq<u8> {
    seq![0x7Bu8, 0x4Eu8, 0x6Fu8, 0x20u8, 0x70u8, 0x61u8, 0x72u8, 0x61u8, 0x6Du8, 0x65u8, 0x74u8, 0x65u8, 0x72u8, 0x20u8, 0x61u8, 0x74u8, 0x20u8, 0x69u8, 0x6Eu8, 0x64u8, 0x65u8, 0x78u8, 0x20u8] + dec_digits(if i >= 0 {
        i as nat
    } else {
        0
    }) + seq![0x7Du8]
}

/// The inline text for a name the metadata does not know.
pub open spec fn no_named_text(name: Seq<u8>) -> Seq<u8> {
    seq![0x7Bu8, 0x4Eu8, 0x6Fu8, 0x20u8, 0x6Eu8, 0x61u8, 0x6Du8, 0x65u8, 0x64u8, 0x20u8, 0x70u8, 0x61u8, 0x72u8, 0x61u8, 0x6Du8, 0x65u8, 0x74u8, 0x65u8, 0x72u8, 0x20u8, 0x27u8] + name + seq![0x27u8, 0x7Du8]
}

/// The note appended to an unterminated placeholder.
pub open spec fn error_note_text() -> Seq<u8> {
    seq![0x20u8, 0x28u8, 0x4Du8, 0x61u8, 0x6Cu8, 0x66u8, 0x6Fu8, 0x72u8, 0x6Du8, 0x65u8, 0x64u8, 0x20u8, 0x66u8, 0x6Fu8, 0x72u8, 0x6Du8, 0x61u8, 0x74u8, 0x20u8, 0x73u8, 0x74u8, 0x72u8, 0x69u8, 0x6Eu8, 0x67u8, 0x3Au8, 0x20u8, 0x6Du8, 0x69u8, 0x73u8, 0x73u8, 0x69u8, 0x6Eu8, 0x67u8, 0x20u8, 0x63u8, 0x6Cu8, 0x6Fu8, 0x73u8, 0x69u8, 0x6Eu8, 0x67u8, 0x20u8, 0x62u8, 0x72u8, 0x61u8, 0x63u8, 0x65u8, 0x29u8]
}

/// The text a fragment list renders to against the given parameter names
/// and arguments: literals and escapes pass through, placeholders bind
/// positionally, by name, or implicitly in order, and references that
/// match nothing become inline error texts.
pub open spec fn spec_bind(
    frags: Seq<FragmentV>,
    names: Seq<Seq<u8>>,
    args: Seq<VarV>,
    idx: int,
) -> Seq<u8>
    decreases frags.len(),
{
    if frags.len() == 0 {
        seq![]
    } else {
        let rest = frags.skip(1);
        match frags[0] {
            FragmentV::Literal(l) => l + spec_bind(rest, names, args, idx),
            FragmentV::Escaped(c) => seq![c] + spec_bind(rest, names, args, idx),
            FragmentV::Error(raw) => raw + error_note_text() + spec_bind(rest, names, args, idx),
            FragmentV::Parameter(p) => match p.position {
                Some(PositionV::Positional(n)) => (if n < args.len() {
                    spec_render(args[n as int], p.hint)
                } else {
                    no_positional_text(n)
                }) + spec_bind(rest, names, args, idx),
                Some(PositionV::Named(nm)) => {
                    let i = name_index(names, nm);
                    (if i < 0 {
                        no_named_text(nm)
                    } else if i < args.len() {
                        spec_render(args[i], p.hint)
                    } else {
                        no_param_text(i)
                    }) + spec_bind(rest, names, args, idx)
                },
                None => (if 0 <= idx < args.len() {
                    spec_render(args[idx], p.hint)
                } else {
                    no_param_text(idx)
                }) + spec_bind(rest, names, args, idx + 1),
            },
        }
    }
}

/// Whether two byte vectors hold the same bytes.
pub fn bytes_eq(a: &Vec<u8>, b: &Vec<u8>) -> (r: bool)
    ensures
        r == (a@ == b@),
{
    if a.len() != b.len() {
        proof {
            assert(a@ != b@);
        }
        return false;
    }
    let n = a.len();
    let mut i: usize = 0;
    while i < n
        invariant
            i <= n,
            n == a@.len() == b@.len(),
            forall|j: int| 0 <= j < i ==> a@[j] == b@[j],
        decreases n - i,
    {
        if a[i] != b[i] {
            proof {
                assert(a@[i as int] != b@[i as int]);
            }
            return false;
        }
        i = i + 1;
    }
    proof {
        assert(a@ =~= b@);
    }
    true
}

/// Index of `name` among the parameter names, when present.
fn name_index_exec(names: &Vec<Vec<u8>>, name: &Vec<u8>) -> (r: Option<usize>)
    ensures
        match r {
            Some(i) => i < names@.len() && name_index(names.deep_view(), name@) == i,
            None => name_index(names.deep_view(), name@) < 0,
        },
{
    let ghost nv = names.deep_view();
    let mut i: usize = 0;
    proof {
        assert(nv.skip(0) =~= nv);
    }
    while i < names.len()
        invariant
            i <= names@.len(),
            nv == names.deep_view(),
            nv.len() == names@.len(),
            name_index(nv, name@) == (if name_index(nv.skip(i as int), name@) >= 0 {
                i + name_index(nv.skip(i as int), name@)
            } else {
                -1
            }),
        decreases names@.len() - i,
    {
        proof {
            assert(nv.skip(i as int)[0] == nv[i as int]);
            assert(nv[i as int] == names@[i as int].deep_view());
            assert(names@[i as int].deep_view() =~= names@[i as int]@);
            assert(nv.skip(i as int).skip(1) =~= nv.skip(i + 1));
        }
        if bytes_eq(&names[i], name) {
            return Some(i);
        }
        i = i + 1;
    }
    proof {
        assert(nv.skip(i as int).len() == 0);
    }
    None
}

fn no_positional_text_exec(n: u64) -> (r: Vec<u8>)
    ensures
        r@ == no_positional_text(n),
{
    let mut r: Vec<u8> = Vec::new();
    r.push(0x7B);
    r.push(0x4E);
    r.push(0x6F);
    r.push(0x20);
    r.push(0x70);
    r.push(0x6F);
    r.push(0x73);
    r.push(0x69);
    r.push(0x74);
    r.push(0x69);
    r.push(0x6F);
    r.push(0x6E);
    r.push(0x61);
    r.push(0x6C);
    r.push(0x20);
    r.push(0x70);
    r.push(0x61);
    r.push(0x72);
    r.push(0x61);
    r.push(0x6D);
    r.push(0x65);
    r.push(0x74);
    r.push(0x65);
    r.push(0x72);
    r.push(0x20);
    r.push(0x61);
    r.push(0x74);
    r.push(0x20);
    r.push(0x69);
    r.push(0x6E);
    r.push(0x64);
    r.push(0x65);
    r.push(0x78);
    r.push(0x20);
    let ghost pre = r@;
    proof {
        assert(pre =~= seq![0x7Bu8, 0x4Eu8, 0x6Fu8, 0x20u8, 0x70u8, 0x6Fu8, 0x73u8, 0x69u8, 0x74u8, 0x69u8, 0x6Fu8, 0x6Eu8, 0x61u8, 0x6Cu8, 0x20u8, 0x70u8, 0x61u8, 0x72u8, 0x61u8, 0x6Du8, 0x65u8, 0x74u8, 0x65u8, 0x72u8, 0x20u8, 0x61u8, 0x74u8, 0x20u8, 0x69u8, 0x6Eu8, 0x64u8, 0x65u8, 0x78u8, 0x20u8]);
    }
    let mut d = base_digits_exec(n as u128, 10, false);
    r.append(&mut d);
    r.push(0x7D);
    proof {
        assert(r@ =~= no_positional_text(n));
    }
    r
}

fn no_param_text_exec(i: usize) -> (r: Vec<u8>)
    ensures
        r@ == no_param_text(i as int),
{
    let mut r: Vec<u8> = Vec::new();
    r.push(0x7B);
    r.push(0x4E);
    r.push(0x6F);
    r.push(0x20);
    r.push(0x70);
    r.push(0x61);
    r.push(0x72);
    r.push(0x61);
    r.push(0x6D);
    r.push(0x65);
    r.push(0x74);
    r.push(0x65);
    r.push(0x72);
    r.push(0x20);
    r.push(0x61);
    r.push(0x74);
    r.push(0x20);
    r.push(0x69);
    r.push(0x6E);
    r.push(0x64);
    r.push(0x65);
    r.push(0x78);
    r.push(0x20);
    let ghost pre = r@;
    proof {
        assert(pre =~= seq![0x7Bu8, 0x4Eu8, 0x6Fu8, 0x20u8, 0x70u8, 0x61u8, 0x72u8, 0x61u8, 0x6Du8, 0x65u8, 0x74u8, 0x65u8, 0x72u8, 0x20u8, 0x61u8, 0x74u8, 0x20u8, 0x69u8, 0x6Eu8, 0x64u8, 0x65u8, 0x78u8, 0x20u8]);
    }
    let mut d = base_digits_exec(i as u128, 10, false);
    r.append(&mut d);
    r.push(0x7D);
    proof {
        assert(r@ =~= no_param_text(i as int));
    }
    r
}

fn no_named_text_exec(name: &Vec<u8>) -> (r: Vec<u8>)
    ensures
        r@ == no_named_text(name@),
{
    let mut r: Vec<u8> = Vec::new();
    r.push(0x7B);
    r.push(0x4E);
    r.push(0x6F);
    r.push(0x20);
    r.push(0x6E);
    r.push(0x61);
    r.push(0x6D);
    r.push(0x65);
    r.push(0x64);
    r.push(0x20);
    r.push(0x70);
    r.push(0x61);
    r.push(0x72);
    r.push(0x61);
    r.push(0x6D);
    r.push(0x65);
    r.push(0x74);
    r.push(0x65);
    r.push(0x72);
    r.push(0x20);
    r.push(0x27);
    let ghost pre = r@;
    proof {
        assert(pre =~= seq![0x7Bu8, 0x4Eu8, 0x6Fu8, 0x20u8, 0x6Eu8, 0x61u8, 0x6Du8, 0x65u8, 0x64u8, 0x20u8, 0x70u8, 0x61u8, 0x72u8, 0x61u8, 0x6Du8, 0x65u8, 0x74u8, 0x65u8, 0x72u8, 0x20u8, 0x27u8]);
    }
    r.extend_from_slice(name.as_slice());
    r.push(0x27);
    r.push(0x7D);
    proof {
        assert(r@ =~= no_named_text(name@));
    }
    r
}

fn error_note_exec() -> (r: Vec<u8>)
    ensures
        r@ == error_note_text(),
{
    let mut r: Vec<u8> = Vec::new();
    r.push(0x20);
    r.push(0x28);
    r.push(0x4D);
    r.push(0x61);
    r.push(0x6C);
    r.push(0x66);
    r.push(0x6F);
    r.push(0x72);
    r.push(0x6D);
    r.push(0x65);
    r.push(0x64);
    r.push(0x20);
    r.push(0x66);
    r.push(0x6F);
    r.push(0x72);
    r.push(0x6D);
    r.push(0x61);
    r.push(0x74);
    r.push(0x20);
    r.push(0x73);
    r.push(0x74);
    r.push(0x72);
    r.push(0x69);
    r.push(0x6E);
    r.push(0x67);
    r.push(0x3A);
    r.push(0x20);
    r.push(0x6D);
    r.push(0x69);
    r.push(0x73);
    r.push(0x73);
    r.push(0x69);
    r.push(0x6E);
    r.push(0x67);
    r.push(0x20);
    r.push(0x63);
    r.push(0x6C);
    r.push(0x6F);
    r.push(0x73);
    r.push(0x69);
    r.push(0x6E);
    r.push(0x67);
    r.push(0x20);
    r.push(0x62);
    r.push(0x72);
    r.push(0x61);
    r.push(0x63);
    r.push(0x65);
    r.push(0x29);
    proof {
        assert(r@ =~= error_note_text());
    }
    r
}

/// Renders a whole log line: tokenizes the format string and binds each
/// placeholder against the parameter names and the decoded arguments.
/// Never fails; unresolved references become inline error texts.
#[verifier::loop_isolation(false)]
#[verifier::rlimit(100)]
pub fn render_log(fmt: &[u8], names: &Vec<Vec<u8>>, args: &Vec<Var>) -> (r: Vec<u8>)
    ensures
        r@ == spec_bind(spec_fragments(fmt@), names.deep_view(), elems_view(args@), 0),
{
    let ghost nv = names.deep_view();
    let ghost av = elems_view(args@);
    let mut out: Vec<u8> = Vec::new();
    let mut idx: usize = 0;
    let mut it = FormatStringFragmentIterator::new(fmt);
    proof {
        assert(fmt@.skip(0) =~= fmt@);
        assert(out@ + spec_bind(spec_fragments(it.remaining()), nv, av, idx as int) =~= spec_bind(
            spec_fragments(fmt@),
            nv,
            av,
            0,
        ));
    }
    loop
        invariant
            it.wf(),
            it.fmt@ == fmt@,
            idx <= it.pos,
            out@ + spec_bind(spec_fragments(it.remaining()), nv, av, idx as int) == spec_bind(
                spec_fragments(fmt@),
                nv,
                av,
                0,
            ),
        decreases fmt@.len() - it.pos,
    {
        let ghost rem_before = it.remaining();
        let ghost idx0 = idx as int;
        match it.next() {
            None => {
                proof {
                    assert(out@ + Seq::<u8>::empty() =~= out@);
                }
                return out;
            },
            Some(f) => {
                let ghost fv = f@;
                let ghost rest = spec_fragments(it.remaining());
                proof {
                    assert((seq![fv] + rest)[0] == fv);
                    assert((seq![fv] + rest).skip(1) =~= rest);
                }
                match f {
                    FormatStringFragment::Literal(l) => {
                        out.extend_from_slice(l.as_slice());
                    },
                    FormatStringFragment::Escaped(c) => {
                        out.push(c);
                    },
                    FormatStringFragment::Error(raw) => {
                        out.extend_from_slice(raw.as_slice());
                        let mut note = error_note_exec();
                        out.append(&mut note);
                    },
                    FormatStringFragment::Parameter(p) => {
                        match &p.position {
                            Some(ParameterPosition::Positional(n)) => {
                                let n = *n;
                                if n < args.len() as u64 {
                                    proof {
                                        assert(av[n as int] == crate::var::var_view(
                                            args@[n as int],
                                        ));
                                    }
                                    let mut piece = args[n as usize].format(&p.hint);
                                    out.append(&mut piece);
                                } else {
                                    let mut piece = no_positional_text_exec(n);
                                    out.append(&mut piece);
                                }
                            },
                            Some(ParameterPosition::Named(nm)) => {
                                match name_index_exec(names, nm) {
                                    Some(i) => {
                                        if i < args.len() {
                                            proof {
                                                assert(av[i as int] == crate::var::var_view(
                                                    args@[i as int],
                                                ));
                                            }
                                            let mut piece = args[i].format(&p.hint);
                                            out.append(&mut piece);
                                        } else {
                                            let mut piece = no_param_text_exec(i);
                                            out.append(&mut piece);
                                        }
                                    },
                                    None => {
                                        let mut piece = no_named_text_exec(nm);
                                        out.append(&mut piece);
                                    },
                                }
                            },
                            None => {
                                if idx < args.len() {
                                    proof {
                                        assert(av[idx as int] == crate::var::var_view(
                                            args@[idx as int],
                                        ));
                                    }
                                    let mut piece = args[idx].format(&p.hint);
                                    out.append(&mut piece);
                                } else {
                                    let mut piece = no_param_text_exec(idx);
                                    out.append(&mut piece);
                                }
                                idx = idx + 1;
                            },
                        }
                    },
                }
                proof {
                    assert(spec_bind(seq![fv] + rest, nv, av, idx0) == spec_bind(
                        spec_fragments(rem_before),
                        nv,
                        av,
                        idx0,
                    ));
                    assert(out@ + spec_bind(rest, nv, av, idx as int) =~= spec_bind(
                        spec_fragments(fmt@),
                        nv,
                        av,
                        0,
                    ));
                }
            },
        }
    }
}


/// A key is in the table exactly when the lookup finds a name for it.
pub proof fn lemma_vv_lookup_iff(vv: Seq<(i128, Seq<u8>)>, key: i128)
    ensures
        vv_lookup(vv, key) is Some <==> exists|i: int| 0 <= i < vv.len() && (#[trigger] vv[i]).0
            == key,
        vv_lookup(vv, key) matches Some(name) ==> exists|i: int|
            0 <= i < vv.len() && #[trigger] vv[i] == (key, name),
    decreases vv.len(),
{
    if vv.len() > 0 {
        if vv[0].0 == key {
            assert(vv[0] == (key, vv_lookup(vv, key)->Some_0));
        } else {
            lemma_vv_lookup_iff(vv.skip(1), key);
            if vv_lookup(vv.skip(1), key) is Some {
                let i = choose|i: int|
                    0 <= i < vv.skip(1).len() && #[trigger] vv.skip(1)[i] == (
                        key,
                        vv_lookup(vv.skip(1), key)->Some_0,
                    );
                assert(vv[i + 1] == (key, vv_lookup(vv, key)->Some_0));
            }
            if exists|i: int| 0 <= i < vv.len() && (#[trigger] vv[i]).0 == key {
                let i = choose|i: int| 0 <= i < vv.len() && (#[trigger] vv[i]).0 == key;
                assert(vv.skip(1)[i - 1].0 == key);
            }
        }
    }
}

/// An enumeration renders the table's name when its value has one, and the
/// decimal value otherwise.
pub proof fn lemma_enum_render(value: VarV, vv: Seq<(i128, Seq<u8>)>, h: HintV)
    requires
        is_int_prim(value),
    ensures
        (exists|i: int| 0 <= i < vv.len() && (#[trigger] vv[i]).0 == int_value(value) as i128)
            ==> (exists|name: Seq<u8>|
            (exists|i: int|
                0 <= i < vv.len() && #[trigger] vv[i] == (int_value(value) as i128, name))
                && spec_render(VarV::Enumeration { value: Box::new(value), valid_values: vv }, h)
                == pad_to_width(name, h, TextAlign::Left)),
        !(exists|i: int| 0 <= i < vv.len() && (#[trigger] vv[i]).0 == int_value(value) as i128)
            ==> spec_render(VarV::Enumeration { value: Box::new(value), valid_values: vv }, h)
            == pad_to_width(sdec_digits(int_value(value)), h, TextAlign::Right),
{
    assert(int_value(value) as i128 as int == int_value(value));
    let key = int_value(value) as i128;
    lemma_vv_lookup_iff(vv, key);
    match vv_lookup(vv, key) {
        Some(name) => {
            assert(spec_render(
                VarV::Enumeration { value: Box::new(value), valid_values: vv },
                h,
            ) == pad_to_width(name, h, TextAlign::Left));
        },
        None => {},
    }
}

} // verus!
