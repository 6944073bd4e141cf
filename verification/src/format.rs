//! The format-string mini-language: a tokenizer that splits a format string
//! into literals, escapes and parameter placeholders, and a parser for the
//! placeholder contents (position and display hint).
//!
//! The grammar: a format string is a run of literals, the escapes `{{` and
//! `}}`, and placeholders `{ [position] [':' format_spec] }` where
//! `format_spec` is `[align][sign][alternate][zero_pad][width][.precision]
//! [type]`. A `{` without a matching `}` turns the rest of the string into
//! an error fragment. Unrecognized trailing bytes of a placeholder are
//! ignored, as a lenient reader of hand-written format strings.

use vstd::prelude::*;

verus! {

/// How a placeholder names its argument: by index, or by name.
#[derive(Debug)]
pub enum ParameterPosition {
    Positional(u64),
    Named(Vec<u8>),
}

/// The requested rendering of one argument.
#[derive(Clone, Copy, Debug, PartialEq, Eq, Structural)]
pub enum DisplayType {
    Binary,
    Debug,
    Display,
    LowerExp,
    LowerHex,
    Octal,
    Pointer,
    UpperExp,
    UpperHex,
    Str,
}

/// Alignment of a padded value inside its width.
#[derive(Clone, Copy, Debug, PartialEq, Eq, Structural)]
pub enum TextAlign {
    Left,
    Center,
    Right,
}

/// The display options of one placeholder.
#[derive(Debug)]
pub struct DisplayHint {
    pub align: Option<TextAlign>,
    pub sign: bool,
    pub alternate: bool,
    pub zero_pad: bool,
    pub width: Option<u64>,
    pub precision: Option<u64>,
    pub ty: DisplayType,
}

/// One parsed placeholder.
#[derive(Debug)]
pub struct Parameter {
    pub position: Option<ParameterPosition>,
    pub hint: DisplayHint,
}

/// One piece of a tokenized format string.
#[derive(Debug)]
pub enum FormatStringFragment {
    /// A placeholder, parsed.
    Parameter(Parameter),
    /// An unterminated placeholder: the raw rest of the string.
    Error(Vec<u8>),
    /// An escaped brace.
    Escaped(u8),
    /// A run of plain bytes.
    Literal(Vec<u8>),
}

/// Mathematical model of a [`ParameterPosition`].
pub enum PositionV {
    Positional(u64),
    Named(Seq<u8>),
}

/// Mathematical model of a [`DisplayHint`].
pub struct HintV {
    pub align: Option<TextAlign>,
    pub sign: bool,
    pub alternate: bool,
    pub zero_pad: bool,
    pub width: Option<u64>,
    pub precision: Option<u64>,
    pub ty: DisplayType,
}

/// Mathematical model of a [`Parameter`].
pub struct ParameterV {
    pub position: Option<PositionV>,
    pub hint: HintV,
}

/// Mathematical model of a [`FormatStringFragment`].
pub enum FragmentV {
    Parameter(ParameterV),
    Error(Seq<u8>),
    Escaped(u8),
    Literal(Seq<u8>),
}

impl View for ParameterPosition {
    type V = PositionV;

    open spec fn view(&self) -> PositionV {
        match self {
            ParameterPosition::Positional(n) => PositionV::Positional(*n),
            ParameterPosition::Named(name) => PositionV::Named(name@),
        }
    }
}

impl View for DisplayHint {
    type V = HintV;

    open spec fn view(&self) -> HintV {
        HintV {
            align: self.align,
            sign: self.sign,
            alternate: self.alternate,
            zero_pad: self.zero_pad,
            width: self.width,
            precision: self.precision,
            ty: self.ty,
        }
    }
}

impl View for Parameter {
    type V = ParameterV;

    open spec fn view(&self) -> ParameterV {
        ParameterV {
            position: match self.position {
                Some(p) => Some(p@),
                None => None,
            },
            hint: self.hint@,
        }
    }
}

impl View for FormatStringFragment {
    type V = FragmentV;

    open spec fn view(&self) -> FragmentV {
        match self {
            FormatStringFragment::Parameter(p) => FragmentV::Parameter(p@),
            FormatStringFragment::Error(raw) => FragmentV::Error(raw@),
            FormatStringFragment::Escaped(c) => FragmentV::Escaped(*c),
            FormatStringFragment::Literal(l) => FragmentV::Literal(l@),
        }
    }
}

pub open spec fn is_digit(b: u8) -> bool {
    0x30 <= b <= 0x39
}

pub open spec fn is_word_byte(b: u8) -> bool {
    is_digit(b) || 0x41 <= b <= 0x5A || 0x61 <= b <= 0x7A || b == 0x5F
}

/// Length of the leading run of decimal digits.
pub open spec fn digit_run(s: Seq<u8>) -> int
    decreases s.len(),
{
    if s.len() == 0 || !is_digit(s[0]) {
        0
    } else {
        1 + digit_run(s.skip(1))
    }
}

/// Length of the leading run of word bytes.
pub open spec fn word_run(s: Seq<u8>) -> int
    decreases s.len(),
{
    if s.len() == 0 || !is_word_byte(s[0]) {
        0
    } else {
        1 + word_run(s.skip(1))
    }
}

/// Value of a digit string, saturating at `u64::MAX`.
pub open spec fn sat_dec_value(s: Seq<u8>) -> u64
    decreases s.len(),
{
    if s.len() == 0 {
        0
    } else {
        let p = sat_dec_value(s.drop_last());
        let d = if s.last() >= 0x30 {
            (s.last() - 0x30) as u64
        } else {
            0
        };
        if p > (u64::MAX - d) / 10 {
            u64::MAX
        } else {
            (p * 10 + d) as u64
        }
    }
}

pub open spec fn align_of_byte(b: u8) -> Option<TextAlign> {
    if b == 0x3C {
        Some(TextAlign::Left)
    } else if b == 0x5E {
        Some(TextAlign::Center)
    } else if b == 0x3E {
        Some(TextAlign::Right)
    } else {
        None
    }
}

pub open spec fn type_of_byte(b: u8) -> Option<DisplayType> {
    if b == 0x62 {
        Some(DisplayType::Binary)
    } else if b == 0x3F {
        Some(DisplayType::Debug)
    } else if b == 0x65 {
        Some(DisplayType::LowerExp)
    } else if b == 0x78 {
        Some(DisplayType::LowerHex)
    } else if b == 0x6F {
        Some(DisplayType::Octal)
    } else if b == 0x70 {
        Some(DisplayType::Pointer)
    } else if b == 0x45 {
        Some(DisplayType::UpperExp)
    } else if b == 0x58 {
        Some(DisplayType::UpperHex)
    } else if b == 0x73 {
        Some(DisplayType::Str)
    } else {
        None
    }
}

/// The display options denoted by the bytes after the `:` of a placeholder.
/// Each option is optional; unrecognized trailing bytes are ignored.
pub open spec fn spec_hint(s: Seq<u8>) -> HintV {
    let a = if s.len() > 0 {
        align_of_byte(s[0])
    } else {
        None
    };
    let i1: int = if a is Some {
        1
    } else {
        0
    };
    let sign = i1 < s.len() && s[i1] == 0x2B;
    let i2: int = if sign {
        i1 + 1
    } else {
        i1
    };
    let alternate = i2 < s.len() && s[i2] == 0x23;
    let i3: int = if alternate {
        i2 + 1
    } else {
        i2
    };
    let zero_pad = i3 < s.len() && s[i3] == 0x30;
    let i4: int = if zero_pad {
        i3 + 1
    } else {
        i3
    };
    let wlen = digit_run(s.skip(i4));
    let width = if wlen == 0 {
        None
    } else {
        Some(sat_dec_value(s.subrange(i4, i4 + wlen)))
    };
    let i5 = i4 + wlen;
    let plen = if i5 < s.len() && s[i5] == 0x2E {
        digit_run(s.skip(i5 + 1))
    } else {
        0
    };
    let precision = if plen == 0 {
        None
    } else {
        Some(sat_dec_value(s.subrange(i5 + 1, i5 + 1 + plen)))
    };
    let i6: int = if plen == 0 {
        i5
    } else {
        i5 + 1 + plen
    };
    let ty = if i6 < s.len() && type_of_byte(s[i6]) is Some {
        type_of_byte(s[i6])->Some_0
    } else {
        DisplayType::Display
    };
    HintV { align: a, sign, alternate, zero_pad, width, precision, ty }
}

/// The parameter denoted by the placeholder contents `s` (the bytes between
/// the braces): an optional position — digits, or a name — and, after a
/// `:`, the display options.
pub open spec fn spec_parameter(s: Seq<u8>) -> ParameterV {
    let d = digit_run(s);
    let w = word_run(s);
    let position: Option<PositionV> = if d > 0 {
        Some(PositionV::Positional(sat_dec_value(s.take(d))))
    } else if w > 0 {
        Some(PositionV::Named(s.take(w)))
    } else {
        None
    };
    let c: int = if d > 0 {
        d
    } else {
        w
    };
    let hint = if c < s.len() && s[c] == 0x3A {
        spec_hint(s.skip(c + 1))
    } else {
        HintV {
            align: None,
            sign: false,
            alternate: false,
            zero_pad: false,
            width: None,
            precision: None,
            ty: DisplayType::Display,
        }
    };
    ParameterV { position, hint }
}

/// Index of the first `}` in `s`, or -1 when there is none.
pub open spec fn close_index(s: Seq<u8>) -> int
    decreases s.len(),
{
    if s.len() == 0 {
        -1
    } else if s[0] == 0x7D {
        0
    } else {
        let r = close_index(s.skip(1));
        if r < 0 {
            -1
        } else {
            1 + r
        }
    }
}

/// Length of the leading run of bytes that are not braces.
pub open spec fn literal_run(s: Seq<u8>) -> int
    decreases s.len(),
{
    if s.len() == 0 || s[0] == 0x7B || s[0] == 0x7D {
        0
    } else {
        1 + literal_run(s.skip(1))
    }
}

/// The fragments of a format string: escaped braces, placeholders (whose
/// contents run to the first `}`), an error fragment for an unterminated
/// `{`, and literal runs. A lone `}` passes through as an escaped brace.
pub open spec fn spec_fragments(s: Seq<u8>) -> Seq<FragmentV>
    decreases s.len(),
{
    if s.len() == 0 {
        seq![]
    } else if s[0] == 0x7B && s.len() >= 2 && s[1] == 0x7B {
        seq![FragmentV::Escaped(0x7B)] + spec_fragments(s.skip(2))
    } else if s[0] == 0x7D {
        if s.len() >= 2 && s[1] == 0x7D {
            seq![FragmentV::Escaped(0x7D)] + spec_fragments(s.skip(2))
        } else {
            seq![FragmentV::Escaped(0x7D)] + spec_fragments(s.skip(1))
        }
    } else if s[0] == 0x7B {
        let c = close_index(s);
        if !(0 <= c < s.len()) {
            seq![FragmentV::Error(s)]
        } else {
            seq![FragmentV::Parameter(spec_parameter(s.subrange(1, c)))] + spec_fragments(
                s.skip(c + 1),
            )
        }
    } else {
        let l = literal_run(s);
        if 1 <= l <= s.len() {
            seq![FragmentV::Literal(s.take(l))] + spec_fragments(s.skip(l))
        } else {
            // A literal run always lies within the string; not reached.
            seq![FragmentV::Literal(s)]
        }
    }
}

/// Number of placeholders in a format string: each `{`…`}` pair counts
/// once, escaped braces do not.
pub open spec fn placeholder_count(s: Seq<u8>) -> int
    decreases s.len(),
{
    if s.len() == 0 {
        0
    } else if s[0] == 0x7B && s.len() >= 2 && s[1] == 0x7B {
        placeholder_count(s.skip(2))
    } else if s[0] == 0x7D && s.len() >= 2 && s[1] == 0x7D {
        placeholder_count(s.skip(2))
    } else if s[0] == 0x7B {
        let c = close_index(s);
        if !(0 <= c < s.len()) {
            0
        } else {
            1 + placeholder_count(s.skip(c + 1))
        }
    } else {
        placeholder_count(s.skip(1))
    }
}

/// Number of parameter fragments in a fragment sequence.
pub open spec fn parameter_fragment_count(frags: Seq<FragmentV>) -> int
    decreases frags.len(),
{
    if frags.len() == 0 {
        0
    } else {
        (if frags[0] is Parameter {
            1int
        } else {
            0int
        }) + parameter_fragment_count(frags.skip(1))
    }
}

/// The tokenizer emits exactly one parameter fragment per placeholder:
/// the number of parameter fragments equals the number of `{`…`}` pairs
/// not written as escapes.
pub proof fn lemma_placeholders_match_fragments(s: Seq<u8>)
    ensures
        parameter_fragment_count(spec_fragments(s)) == placeholder_count(s),
    decreases s.len(),
{
    if s.len() == 0 {
    } else if s[0] == 0x7B && s.len() >= 2 && s[1] == 0x7B {
        lemma_placeholders_match_fragments(s.skip(2));
        lemma_count_prepend(FragmentV::Escaped(0x7B), spec_fragments(s.skip(2)));
    } else if s[0] == 0x7D {
        if s.len() >= 2 && s[1] == 0x7D {
            lemma_placeholders_match_fragments(s.skip(2));
            lemma_count_prepend(FragmentV::Escaped(0x7D), spec_fragments(s.skip(2)));
        } else {
            lemma_placeholders_match_fragments(s.skip(1));
            lemma_count_prepend(FragmentV::Escaped(0x7D), spec_fragments(s.skip(1)));
        }
    } else if s[0] == 0x7B {
        let c = close_index(s);
        lemma_close_index_bounds(s);
        if c < 0 {
            assert(spec_fragments(s) == seq![FragmentV::Error(s)]);
            lemma_count_prepend(FragmentV::Error(s), Seq::<FragmentV>::empty());
            assert(seq![FragmentV::Error(s)] + Seq::<FragmentV>::empty() =~= seq![
                FragmentV::Error(s),
            ]);
        } else {
            lemma_placeholders_match_fragments(s.skip(c + 1));
            lemma_count_prepend(
                FragmentV::Parameter(spec_parameter(s.subrange(1, c))),
                spec_fragments(s.skip(c + 1)),
            );
        }
    } else {
        let l = literal_run(s);
        lemma_literal_run_bounds(s);
        lemma_placeholders_match_fragments(s.skip(l));
        lemma_count_prepend(FragmentV::Literal(s.take(l)), spec_fragments(s.skip(l)));
        lemma_placeholder_count_skip_literal(s, l);
    }
}

/// Prepending one fragment adds one to the count exactly when it is a
/// parameter fragment.
pub proof fn lemma_count_prepend(f: FragmentV, rest: Seq<FragmentV>)
    ensures
        parameter_fragment_count(seq![f] + rest) == (if f is Parameter {
            1int
        } else {
            0int
        }) + parameter_fragment_count(rest),
{
    assert((seq![f] + rest).skip(1) =~= rest);
    assert((seq![f] + rest)[0] == f);
}

pub proof fn lemma_close_index_bounds(s: Seq<u8>)
    ensures
        close_index(s) >= 0 ==> close_index(s) < s.len(),
    decreases s.len(),
{
    if s.len() == 0 {
    } else if s[0] == 0x7D {
    } else {
        lemma_close_index_bounds(s.skip(1));
    }
}

pub proof fn lemma_literal_run_bounds(s: Seq<u8>)
    ensures
        0 <= literal_run(s) <= s.len(),
        s.len() > 0 && s[0] != 0x7B && s[0] != 0x7D ==> literal_run(s) >= 1,
    decreases s.len(),
{
    if s.len() == 0 || s[0] == 0x7B || s[0] == 0x7D {
    } else {
        lemma_literal_run_bounds(s.skip(1));
    }
}

/// Length of the leading digit run of the suffix of `s` at `from`.
fn digit_run_exec(s: &[u8], from: usize) -> (r: usize)
    requires
        from <= s@.len(),
    ensures
        r == digit_run(s@.skip(from as int)),
        from + r <= s@.len(),
{
    let n = s.len();
    let mut i = from;
    while i < n && 0x30 <= s[i] && s[i] <= 0x39
        invariant
            from <= i <= n,
            n == s@.len(),
            digit_run(s@.skip(from as int)) == (i - from) + digit_run(s@.skip(i as int)),
        decreases n - i,
    {
        proof {
            assert(s@.skip(i as int)[0] == s@[i as int]);
            assert(s@.skip(i as int).skip(1) =~= s@.skip(i + 1));
        }
        i = i + 1;
    }
    proof {
        assert(digit_run(s@.skip(i as int)) == 0);
    }
    i - from
}

/// Length of the leading word-byte run of the suffix of `s` at `from`.
fn word_run_exec(s: &[u8], from: usize) -> (r: usize)
    requires
        from <= s@.len(),
    ensures
        r == word_run(s@.skip(from as int)),
        from + r <= s@.len(),
{
    let n = s.len();
    let mut i = from;
    while i < n && (0x30 <= s[i] && s[i] <= 0x39 || 0x41 <= s[i] && s[i] <= 0x5A || 0x61 <= s[i]
        && s[i] <= 0x7A || s[i] == 0x5F)
        invariant
            from <= i <= n,
            n == s@.len(),
            word_run(s@.skip(from as int)) == (i - from) + word_run(s@.skip(i as int)),
        decreases n - i,
    {
        proof {
            assert(s@.skip(i as int)[0] == s@[i as int]);
            assert(s@.skip(i as int).skip(1) =~= s@.skip(i + 1));
        }
        i = i + 1;
    }
    proof {
        assert(word_run(s@.skip(i as int)) == 0);
    }
    i - from
}

/// Value of the digit bytes `s[from..to]`, saturating at `u64::MAX`.
fn sat_dec_exec(s: &[u8], from: usize, to: usize) -> (r: u64)
    requires
        from <= to <= s@.len(),
    ensures
        r == sat_dec_value(s@.subrange(from as int, to as int)),
{
    let mut acc: u64 = 0;
    let mut i = from;
    proof {
        assert(s@.subrange(from as int, from as int) =~= Seq::<u8>::empty());
    }
    while i < to
        invariant
            from <= i <= to <= s@.len(),
            acc == sat_dec_value(s@.subrange(from as int, i as int)),
        decreases to - i,
    {
        let d = if s[i] >= 0x30 {
            (s[i] - 0x30) as u64
        } else {
            0
        };
        proof {
            assert(s@.subrange(from as int, i + 1).drop_last() =~= s@.subrange(
                from as int,
                i as int,
            ));
            assert(s@.subrange(from as int, i + 1).last() == s@[i as int]);
        }
        if acc > (u64::MAX - d) / 10 {
            acc = u64::MAX;
        } else {
            acc = acc * 10 + d;
        }
        i = i + 1;
    }
    acc
}

impl Parameter {
    /// Parses the contents of a placeholder: an optional position (digits,
    /// or a name) and, after a `:`, the display options. Never fails;
    /// unrecognized trailing bytes are ignored.
    pub fn parse(param: &[u8]) -> (r: Parameter)
        ensures
            r@ == spec_parameter(param@),
    {
        proof {
            assert(param@.skip(0) =~= param@);
        }
        let d = digit_run_exec(param, 0);
        let w = word_run_exec(param, 0);
        let position: Option<ParameterPosition> = if d > 0 {
            proof {
                assert(param@.subrange(0, d as int) =~= param@.take(d as int));
            }
            Some(ParameterPosition::Positional(sat_dec_exec(param, 0, d)))
        } else if w > 0 {
            let mut name: Vec<u8> = Vec::new();
            name.extend_from_slice(&param[0..w]);
            proof {
                assert(name@ =~= param@.take(w as int));
            }
            Some(ParameterPosition::Named(name))
        } else {
            None
        };
        let c: usize = if d > 0 {
            d
        } else {
            w
        };
        let hint = if c < param.len() && param[c] == 0x3A {
            proof {
                assert(param@.subrange(c + 1, param@.len() as int) =~= param@.skip(c + 1));
            }
            parse_hint(&param[c + 1..param.len()])
        } else {
            DisplayHint {
                align: None,
                sign: false,
                alternate: false,
                zero_pad: false,
                width: None,
                precision: None,
                ty: DisplayType::Display,
            }
        };
        Parameter { position, hint }
    }
}

/// Parses the display options of a placeholder.
#[verifier::rlimit(100)]
#[verifier::spinoff_prover]
fn parse_hint(s: &[u8]) -> (r: DisplayHint)
    ensures
        r@ == spec_hint(s@),
{
    let n = s.len();
    let align = if n > 0 {
        if s[0] == 0x3C {
            Some(TextAlign::Left)
        } else if s[0] == 0x5E {
            Some(TextAlign::Center)
        } else if s[0] == 0x3E {
            Some(TextAlign::Right)
        } else {
            None
        }
    } else {
        None
    };
    let i1: usize = if align.is_some() {
        1
    } else {
        0
    };
    let sign = i1 < n && s[i1] == 0x2B;
    let i2: usize = if sign {
        i1 + 1
    } else {
        i1
    };
    let alternate = i2 < n && s[i2] == 0x23;
    let i3: usize = if alternate {
        i2 + 1
    } else {
        i2
    };
    let zero_pad = i3 < n && s[i3] == 0x30;
    let i4: usize = if zero_pad {
        i3 + 1
    } else {
        i3
    };
    let wlen = digit_run_exec(s, i4);
    let width = if wlen == 0 {
        None
    } else {
        Some(sat_dec_exec(s, i4, i4 + wlen))
    };
    let i5 = i4 + wlen;
    let plen = if i5 < n && s[i5] == 0x2E {
        digit_run_exec(s, i5 + 1)
    } else {
        0
    };
    let precision = if plen == 0 {
        None
    } else {
        Some(sat_dec_exec(s, i5 + 1, i5 + 1 + plen))
    };
    let i6: usize = if plen == 0 {
        i5
    } else {
        i5 + 1 + plen
    };
    let ty = if i6 < n {
        let b = s[i6];
        if b == 0x62 {
            DisplayType::Binary
        } else if b == 0x3F {
            DisplayType::Debug
        } else if b == 0x65 {
            DisplayType::LowerExp
        } else if b == 0x78 {
            DisplayType::LowerHex
        } else if b == 0x6F {
            DisplayType::Octal
        } else if b == 0x70 {
            DisplayType::Pointer
        } else if b == 0x45 {
            DisplayType::UpperExp
        } else if b == 0x58 {
            DisplayType::UpperHex
        } else if b == 0x73 {
            DisplayType::Str
        } else {
            DisplayType::Display
        }
    } else {
        DisplayType::Display
    };
    DisplayHint { align, sign, alternate, zero_pad, width, precision, ty }
}

/// Walks a format string and hands out its fragments one at a time.
pub struct FormatStringFragmentIterator<'s> {
    pub fmt: &'s [u8],
    pub pos: usize,
}

impl<'s> FormatStringFragmentIterator<'s> {
    /// The bytes not yet tokenized.
    pub open spec fn remaining(&self) -> Seq<u8> {
        self.fmt@.skip(self.pos as int)
    }

    pub open spec fn wf(&self) -> bool {
        self.pos <= self.fmt@.len()
    }

    pub fn new(format_string: &'s [u8]) -> (r: Self)
        ensures
            r.fmt@ == format_string@,
            r.pos == 0,
            r.wf(),
    {
        Self { fmt: format_string, pos: 0 }
    }

    /// Hands out the next fragment: the head of [`spec_fragments`] of what
    /// remains.
    #[verifier::rlimit(100)]
    #[verifier::spinoff_prover]
    pub fn next(&mut self) -> (r: Option<FormatStringFragment>)
        requires
            old(self).wf(),
        ensures
            final(self).wf(),
            final(self).fmt@ == old(self).fmt@,
            match r {
                None => *final(self) == *old(self) && spec_fragments(old(self).remaining())
                    == Seq::<FragmentV>::empty(),
                Some(f) => final(self).pos > old(self).pos && spec_fragments(
                    old(self).remaining(),
                ) == seq![f@] + spec_fragments(final(self).remaining()),
            },
    {
        let ghost t = self.remaining();
        let n = self.fmt.len();
        let start = self.pos;
        if start >= n {
            proof {
                assert(t.len() == 0);
            }
            return None;
        }
        proof {
            assert(t[0] == self.fmt@[start as int]);
            if start + 1 < n {
                assert(t[1] == self.fmt@[start + 1]);
            }
        }
        let b0 = self.fmt[start];
        if b0 == 0x7B && start + 1 < n && self.fmt[start + 1] == 0x7B {
            self.pos = start + 2;
            proof {
                assert(t.skip(2) =~= self.fmt@.skip(start + 2));
            }
            return Some(FormatStringFragment::Escaped(0x7B));
        }
        if b0 == 0x7D {
            if start + 1 < n && self.fmt[start + 1] == 0x7D {
                self.pos = start + 2;
                proof {
                    assert(t.skip(2) =~= self.fmt@.skip(start + 2));
                }
            } else {
                self.pos = start + 1;
                proof {
                    assert(t.len() >= 2 ==> t[1] == self.fmt@[start + 1]);
                    assert(t.skip(1) =~= self.fmt@.skip(start + 1));
                }
            }
            return Some(FormatStringFragment::Escaped(0x7D));
        }
        if b0 == 0x7B {
            match find_close_exec(self.fmt, start) {
                Some(j) => {
                    proof {
                        assert(t.subrange(1, j - start) =~= self.fmt@.subrange(
                            start + 1,
                            j as int,
                        ));
                        assert(t.skip(j - start + 1) =~= self.fmt@.skip(j + 1));
                    }
                    let p = Parameter::parse(&self.fmt[start + 1..j]);
                    self.pos = j + 1;
                    return Some(FormatStringFragment::Parameter(p));
                },
                None => {
                    let mut raw: Vec<u8> = Vec::new();
                    raw.extend_from_slice(&self.fmt[start..n]);
                    proof {
                        assert(raw@ =~= t);
                        assert(self.fmt@.skip(n as int).len() == 0);
                        assert(spec_fragments(self.fmt@.skip(n as int)) =~= Seq::<
                            FragmentV,
                        >::empty());
                        assert(seq![FragmentV::Error(t)] + Seq::<FragmentV>::empty() =~= seq![
                            FragmentV::Error(t),
                        ]);
                    }
                    self.pos = n;
                    return Some(FormatStringFragment::Error(raw));
                },
            }
        }
        let j = literal_end_exec(self.fmt, start);
        let mut lit: Vec<u8> = Vec::new();
        lit.extend_from_slice(&self.fmt[start..j]);
        proof {
            assert(lit@ =~= t.take(j - start));
            assert(t.skip(j - start) =~= self.fmt@.skip(j as int));
            assert(t.len() > 0 && t[0] != 0x7B && t[0] != 0x7D);
            lemma_literal_run_bounds(t);
            assert(literal_run(t) == j - start);
            assert(1 <= j - start <= t.len());
            assert(spec_fragments(t) == seq![FragmentV::Literal(t.take(j - start))]
                + spec_fragments(t.skip(j - start)));
        }
        self.pos = j;
        Some(FormatStringFragment::Literal(lit))
    }
}

/// Index of the first `}` at or after `from`, when there is one.
fn find_close_exec(s: &[u8], from: usize) -> (r: Option<usize>)
    requires
        from <= s@.len(),
    ensures
        match r {
            Some(j) => from <= j < s@.len() && close_index(s@.skip(from as int)) == j - from,
            None => close_index(s@.skip(from as int)) < 0,
        },
{
    let n = s.len();
    let mut i = from;
    while i < n && s[i] != 0x7D
        invariant
            from <= i <= n,
            n == s@.len(),
            close_index(s@.skip(from as int)) == (if close_index(s@.skip(i as int)) >= 0 {
                (i - from) + close_index(s@.skip(i as int))
            } else {
                -1
            }),
        decreases n - i,
    {
        proof {
            assert(s@.skip(i as int)[0] == s@[i as int]);
            assert(s@.skip(i as int).skip(1) =~= s@.skip(i + 1));
        }
        i = i + 1;
    }
    if i < n {
        proof {
            assert(s@.skip(i as int)[0] == s@[i as int]);
        }
        Some(i)
    } else {
        proof {
            assert(s@.skip(i as int).len() == 0);
        }
        None
    }
}

/// Index of the first brace at or after `from`, or the end of the string.
fn literal_end_exec(s: &[u8], from: usize) -> (r: usize)
    requires
        from <= s@.len(),
    ensures
        from <= r <= s@.len(),
        literal_run(s@.skip(from as int)) == r - from,
{
    let n = s.len();
    let mut i = from;
    while i < n && s[i] != 0x7B && s[i] != 0x7D
        invariant
            from <= i <= n,
            n == s@.len(),
            literal_run(s@.skip(from as int)) == (i - from) + literal_run(s@.skip(i as int)),
        decreases n - i,
    {
        proof {
            assert(s@.skip(i as int)[0] == s@[i as int]);
            assert(s@.skip(i as int).skip(1) =~= s@.skip(i + 1));
        }
        i = i + 1;
    }
    proof {
        if i < n {
            assert(s@.skip(i as int)[0] == s@[i as int]);
        }
        assert(literal_run(s@.skip(i as int)) == 0);
    }
    i
}

/// Model of a fragment list.
pub open spec fn fragments_view(v: Seq<FormatStringFragment>) -> Seq<FragmentV> {
    Seq::new(
        v.len(),
        |i: int|
            if 0 <= i < v.len() {
                v[i]@
            } else {
                vstd::pervasive::arbitrary()
            },
    )
}

/// Tokenizes a whole format string.
#[verifier::loop_isolation(false)]
pub fn fragments(fmt: &[u8]) -> (r: Vec<FormatStringFragment>)
    ensures
        fragments_view(r@) == spec_fragments(fmt@),
{
    let mut out: Vec<FormatStringFragment> = Vec::new();
    let mut it = FormatStringFragmentIterator::new(fmt);
    proof {
        assert(fmt@.skip(0) =~= fmt@);
        assert(fragments_view(out@) + spec_fragments(it.remaining()) =~= spec_fragments(fmt@));
    }
    loop
        invariant
            it.wf(),
            it.fmt@ == fmt@,
            fragments_view(out@) + spec_fragments(it.remaining()) == spec_fragments(fmt@),
        decreases fmt@.len() - it.pos,
    {
        let ghost out_before = out@;
        let ghost rem_before = it.remaining();
        match it.next() {
            Some(f) => {
                let ghost fv = f@;
                out.push(f);
                proof {
                    assert(fragments_view(out@) =~= fragments_view(out_before) + seq![fv]);
                    assert((fragments_view(out_before) + seq![fv]) + spec_fragments(it.remaining())
                        =~= fragments_view(out_before) + (seq![fv] + spec_fragments(
                        it.remaining(),
                    )));
                }
            },
            None => {
                proof {
                    assert(fragments_view(out@) + Seq::<FragmentV>::empty() =~= fragments_view(
                        out@,
                    ));
                }
                return out;
            },
        }
    }
}

/// Skipping a literal run does not change the placeholder count.
pub proof fn lemma_placeholder_count_skip_literal(s: Seq<u8>, l: int)
    requires
        0 <= l <= literal_run(s),
        literal_run(s) <= s.len(),
    ensures
        placeholder_count(s) == placeholder_count(s.skip(l)),
    decreases l,
{
    if l > 0 {
        assert(s.len() > 0 && s[0] != 0x7B && s[0] != 0x7D);
        assert(placeholder_count(s) == placeholder_count(s.skip(1)));
        assert(literal_run(s) == 1 + literal_run(s.skip(1)));
        lemma_placeholder_count_skip_literal(s.skip(1), l - 1);
        assert(s.skip(1).skip(l - 1) =~= s.skip(l));
    } else {
        assert(s.skip(0) =~= s);
    }
}

} // verus!
