//! The fixed-layout metadata record each log site embeds in the image's
//! metadata section, and its parser.
//!
//! A record holds, in order: six little- or big-endian `u32` fields
//! (schema version, counter, source line, file-string length, format-string
//! length, number of names), one level byte, then the file string, the
//! format string, and the names, each a `u32` length followed by that many
//! bytes ending in NUL. The string lengths include the trailing NUL.

use vstd::prelude::*;

use crate::bytes::be_value;
use crate::bytes::le_value;
use crate::bytes::read_u32e;
use crate::bytes::read_u8e;
use crate::bytes::uint_at;
use crate::utf8::is_utf8;
use crate::utf8::is_utf8_exec;
use crate::DecodeError;
use crate::Endian;

verus! {

/// Severity of a log site.
#[derive(Clone, Copy, Debug, PartialEq, Eq, Structural)]
pub enum Level {
    Error,
    Warning,
    Info,
    Debug,
    Verbose,
}

/// Severity denoted by a metadata level byte.
pub open spec fn level_of_byte(b: u8) -> Level {
    if b == 0 {
        Level::Error
    } else if b == 1 {
        Level::Warning
    } else if b == 2 {
        Level::Info
    } else if b == 3 {
        Level::Debug
    } else {
        Level::Verbose
    }
}

/// One log site's static description, parsed from the metadata section.
///
/// Strings are carried as the byte sequences found in the image; they are
/// valid UTF-8 and exclude their trailing NUL bytes.
#[derive(Debug)]
pub struct Metadata {
    /// Byte offset of this record within the metadata section; the log id.
    pub id: u64,
    /// Forms the argument-type name looked up in the debug information.
    pub counter: u32,
    /// Severity.
    pub level: Level,
    /// Source file (and compilation-unit) name.
    pub file: Vec<u8>,
    /// Source line.
    pub line: u32,
    /// Names of the format parameters, in order.
    pub names: Vec<Vec<u8>>,
    /// The format string.
    pub fmt: Vec<u8>,
}

/// Mathematical model of a [`Metadata`].
pub struct MetadataV {
    pub id: u64,
    pub counter: u32,
    pub level: Level,
    pub file: Seq<u8>,
    pub line: u32,
    pub names: Seq<Seq<u8>>,
    pub fmt: Seq<u8>,
}

impl View for Metadata {
    type V = MetadataV;

    open spec fn view(&self) -> MetadataV {
        MetadataV {
            id: self.id,
            counter: self.counter,
            level: self.level,
            file: self.file@,
            line: self.line,
            names: self.names.deep_view(),
            fmt: self.fmt@,
        }
    }
}

/// What parsing one metadata record yields: the record, or the first
/// malformation the parser meets.
pub enum MetaOutcome {
    Good(MetadataV),
    BadVersion(u32),
    BadLevel(u8),
    Truncated,
    NoNul,
    NotUtf8,
}

/// What reading one length-prefixed NUL-terminated string yields.
pub enum StrOutcome {
    Good(Seq<u8>),
    Truncated,
    NoNul,
    NotUtf8,
}

/// The string of `len` bytes at `pos`: present, NUL-terminated, UTF-8, and
/// stripped of its NUL.
pub open spec fn str_at(s: Seq<u8>, pos: int, len: int) -> StrOutcome {
    if pos + len > s.len() {
        StrOutcome::Truncated
    } else if len == 0 || s[pos + len - 1] != 0 {
        StrOutcome::NoNul
    } else if !is_utf8(s.subrange(pos, pos + len - 1)) {
        StrOutcome::NotUtf8
    } else {
        StrOutcome::Good(s.subrange(pos, pos + len - 1))
    }
}

/// What reading a run of name records yields: the names and the position
/// just after them, or the first malformation.
pub enum NamesOutcome {
    Good { names: Seq<Seq<u8>>, end: int },
    Truncated,
    NoNul,
    NotUtf8,
}

/// The `n` name records starting at `pos`, each a `u32` length followed by
/// that many bytes ending in NUL.
pub open spec fn names_at(s: Seq<u8>, pos: int, n: int, e: Endian) -> NamesOutcome
    decreases n,
{
    if n <= 0 {
        NamesOutcome::Good { names: seq![], end: pos }
    } else if pos + 4 > s.len() {
        NamesOutcome::Truncated
    } else {
        let len = uint_at(s, pos, 4, e) as int;
        match str_at(s, pos + 4, len) {
            StrOutcome::Good(name) => match names_at(s, pos + 4 + len, n - 1, e) {
                NamesOutcome::Good { names, end } => NamesOutcome::Good {
                    names: seq![name] + names,
                    end,
                },
                NamesOutcome::Truncated => NamesOutcome::Truncated,
                NamesOutcome::NoNul => NamesOutcome::NoNul,
                NamesOutcome::NotUtf8 => NamesOutcome::NotUtf8,
            },
            StrOutcome::Truncated => NamesOutcome::Truncated,
            StrOutcome::NoNul => NamesOutcome::NoNul,
            StrOutcome::NotUtf8 => NamesOutcome::NotUtf8,
        }
    }
}

/// The metadata record at byte offset `id` of the metadata section `s`,
/// read in byte order `e`.
pub open spec fn metadata_at(s: Seq<u8>, id: int, e: Endian) -> MetaOutcome {
    if id + 25 > s.len() {
        MetaOutcome::Truncated
    } else {
        let version = uint_at(s, id, 4, e);
        let counter = uint_at(s, id + 4, 4, e);
        let line = uint_at(s, id + 8, 4, e);
        let file_len = uint_at(s, id + 12, 4, e) as int;
        let fmt_len = uint_at(s, id + 16, 4, e) as int;
        let names_len = uint_at(s, id + 20, 4, e) as int;
        let level_b = s[id + 24];
        if version != 1 {
            MetaOutcome::BadVersion(version as u32)
        } else if level_b > 4 {
            MetaOutcome::BadLevel(level_b)
        } else {
            match str_at(s, id + 25, file_len) {
                StrOutcome::Good(file) => match str_at(s, id + 25 + file_len, fmt_len) {
                    StrOutcome::Good(fmt) => match names_at(
                        s,
                        id + 25 + file_len + fmt_len,
                        names_len,
                        e,
                    ) {
                        NamesOutcome::Good { names, .. } => MetaOutcome::Good(
                            MetadataV {
                                id: id as u64,
                                counter: counter as u32,
                                level: level_of_byte(level_b),
                                file,
                                line: line as u32,
                                names,
                                fmt,
                            },
                        ),
                        NamesOutcome::Truncated => MetaOutcome::Truncated,
                        NamesOutcome::NoNul => MetaOutcome::NoNul,
                        NamesOutcome::NotUtf8 => MetaOutcome::NotUtf8,
                    },
                    StrOutcome::Truncated => MetaOutcome::Truncated,
                    StrOutcome::NoNul => MetaOutcome::NoNul,
                    StrOutcome::NotUtf8 => MetaOutcome::NotUtf8,
                },
                StrOutcome::Truncated => MetaOutcome::Truncated,
                StrOutcome::NoNul => MetaOutcome::NoNul,
                StrOutcome::NotUtf8 => MetaOutcome::NotUtf8,
            }
        }
    }
}

/// How the parser reports each malformation: the kind names it, and the
/// truncation and text errors carry the log id (and the section length).
pub open spec fn error_matches_outcome(
    err: DecodeError,
    outcome: MetaOutcome,
    id: u64,
    section_len: u64,
) -> bool {
    match err {
        DecodeError::OutOfBounds(a, b) => outcome is Truncated && a == id && b == section_len,
        DecodeError::Schema(v) => outcome == MetaOutcome::BadVersion(v),
        DecodeError::Custom(_) => outcome is BadLevel,
        DecodeError::NoNullTerm => outcome is NoNul,
        DecodeError::Utf8(i) => outcome is NotUtf8 && i == id,
        _ => false,
    }
}

/// Reads the `len`-byte NUL-terminated string at `*pos` and strips the NUL.
fn read_nul_string(data: &[u8], pos: &mut usize, len: u32, log_id: u64) -> (r: Result<
    Vec<u8>,
    DecodeError,
>)
    ensures
        match r {
            Ok(v) => {
                &&& str_at(data@, *old(pos) as int, len as int) == StrOutcome::Good(v@)
                &&& *final(pos) == *old(pos) + len
                &&& v@ == data@.subrange(*old(pos) as int, *old(pos) + len - 1)
            },
            Err(e) => match e {
                DecodeError::OutOfBounds(a, b) => str_at(data@, *old(pos) as int, len as int)
                    is Truncated && a == log_id && b == data@.len() as u64,
                DecodeError::NoNullTerm => str_at(data@, *old(pos) as int, len as int) is NoNul,
                DecodeError::Utf8(i) => str_at(data@, *old(pos) as int, len as int) is NotUtf8
                    && i == log_id,
                _ => false,
            },
        },
{
    if *pos > data.len() || (len as usize) > data.len() - *pos {
        return Err(DecodeError::OutOfBounds(log_id, data.len() as u64));
    }
    if len == 0 {
        return Err(DecodeError::NoNullTerm);
    }
    let end: usize = *pos + (len as usize);
    if data[end - 1] != 0 {
        return Err(DecodeError::NoNullTerm);
    }
    let mut v: Vec<u8> = Vec::new();
    v.extend_from_slice(&data[*pos..end - 1]);
    proof {
        assert(v@ =~= data@.subrange(*old(pos) as int, *old(pos) + len - 1));
    }
    if !is_utf8_exec(v.as_slice()) {
        return Err(DecodeError::Utf8(log_id));
    }
    *pos = end;
    Ok(v)
}

/// Parses the metadata record at byte offset `id` of the metadata section,
/// reading multi-byte integers in byte order `e`.
///
/// Succeeds exactly when [`metadata_at`] yields the record; each error kind
/// reports the malformation [`metadata_at`] names.
#[verifier::loop_isolation(false)]
pub fn parse_metadata(section: &[u8], id: u64, e: Endian) -> (r: Result<Metadata, DecodeError>)
    ensures
        match r {
            Ok(m) => metadata_at(section@, id as int, e) == MetaOutcome::Good(m@),
            Err(err) => error_matches_outcome(
                err,
                metadata_at(section@, id as int, e),
                id,
                section@.len() as u64,
            ),
        },
{
    if id > usize::MAX as u64 {
        return Err(DecodeError::OutOfBounds(id, section.len() as u64));
    }
    let mut pos: usize = id as usize;
    let version = match read_u32e(section, &mut pos, e) {
        Ok(v) => v,
        Err(_) => { return Err(DecodeError::OutOfBounds(id, section.len() as u64)); },
    };
    let counter = match read_u32e(section, &mut pos, e) {
        Ok(v) => v,
        Err(_) => { return Err(DecodeError::OutOfBounds(id, section.len() as u64)); },
    };
    let line = match read_u32e(section, &mut pos, e) {
        Ok(v) => v,
        Err(_) => { return Err(DecodeError::OutOfBounds(id, section.len() as u64)); },
    };
    let file_len = match read_u32e(section, &mut pos, e) {
        Ok(v) => v,
        Err(_) => { return Err(DecodeError::OutOfBounds(id, section.len() as u64)); },
    };
    let fmt_len = match read_u32e(section, &mut pos, e) {
        Ok(v) => v,
        Err(_) => { return Err(DecodeError::OutOfBounds(id, section.len() as u64)); },
    };
    let names_len = match read_u32e(section, &mut pos, e) {
        Ok(v) => v,
        Err(_) => { return Err(DecodeError::OutOfBounds(id, section.len() as u64)); },
    };
    let level_b = match read_u8e(section, &mut pos) {
        Ok(v) => v,
        Err(_) => { return Err(DecodeError::OutOfBounds(id, section.len() as u64)); },
    };
    if version != 1 {
        return Err(DecodeError::Schema(version));
    }
    if level_b > 4 {
        return Err(DecodeError::Custom("Log level out of range!"));
    }
    let level = if level_b == 0 {
        Level::Error
    } else if level_b == 1 {
        Level::Warning
    } else if level_b == 2 {
        Level::Info
    } else if level_b == 3 {
        Level::Debug
    } else {
        Level::Verbose
    };
    let file = match read_nul_string(section, &mut pos, file_len, id) {
        Ok(v) => v,
        Err(err) => { return Err(err); },
    };
    let fmt = match read_nul_string(section, &mut pos, fmt_len, id) {
        Ok(v) => v,
        Err(err) => { return Err(err); },
    };
    let ghost names_start = pos as int;
    let mut names: Vec<Vec<u8>> = Vec::new();
    let mut k: u32 = 0;
    while k < names_len
        invariant
            k <= names_len,
            match names_at(section@, pos as int, names_len - k, e) {
                NamesOutcome::Good { names: rest, end } => names_at(
                    section@,
                    names_start,
                    names_len as int,
                    e,
                ) == (NamesOutcome::Good { names: names.deep_view() + rest, end }),
                o => names_at(section@, names_start, names_len as int, e) == o,
            },
        decreases names_len - k,
    {
        let ghost pos0 = pos as int;
        let ghost remaining = names_len - k;
        let len = match read_u32e(section, &mut pos, e) {
            Ok(l) => l,
            Err(_) => {
                proof {
                    assert(names_at(section@, pos0, remaining as int, e) is Truncated);
                }
                return Err(DecodeError::OutOfBounds(id, section.len() as u64));
            },
        };
        let name = match read_nul_string(section, &mut pos, len, id) {
            Ok(n) => n,
            Err(err) => {
                proof {
                    assert(len == uint_at(section@, pos0, 4, e));
                    match err {
                        DecodeError::OutOfBounds(_, _) => {
                            assert(names_at(section@, pos0, remaining as int, e) is Truncated);
                        },
                        DecodeError::NoNullTerm => {
                            assert(names_at(section@, pos0, remaining as int, e) is NoNul);
                        },
                        DecodeError::Utf8(_) => {
                            assert(names_at(section@, pos0, remaining as int, e) is NotUtf8);
                        },
                        _ => {},
                    }
                }
                return Err(err);
            },
        };
        proof {
            let ghost rest0 = names_at(section@, pos as int, remaining - 1, e);
            assert(names_at(section@, pos0, remaining as int, e) == (match rest0 {
                NamesOutcome::Good { names: rest, end } => NamesOutcome::Good {
                    names: seq![name@] + rest,
                    end,
                },
                o => o,
            }));
        }
        let ghost names_before = names.deep_view();
        names.push(name);
        proof {
            assert(names.deep_view() =~~= names_before + seq![name@]);
            match names_at(section@, pos as int, (names_len - k - 1) as int, e) {
                NamesOutcome::Good { names: rest, end } => {
                    assert(names_before + (seq![name@] + rest) =~= (names_before + seq![name@])
                        + rest);
                },
                _ => {},
            }
        }
        k = k + 1;
    }
    proof {
        assert(names_at(section@, pos as int, 0, e) == (NamesOutcome::Good {
            names: Seq::<Seq<u8>>::empty(),
            end: pos as int,
        }));
        assert(names.deep_view() + Seq::<Seq<u8>>::empty() =~= names.deep_view());
    }
    Ok(Metadata { id, counter, level, file, line, names, fmt })
}


/// The four bytes of `v` in byte order `e`.
pub open spec fn enc_u32(v: u32, e: Endian) -> Seq<u8> {
    let b0 = (v % 0x100) as u8;
    let b1 = ((v / 0x100) % 0x100) as u8;
    let b2 = ((v / 0x10000) % 0x100) as u8;
    let b3 = ((v / 0x1000000) % 0x100) as u8;
    match e {
        Endian::Little => seq![b0, b1, b2, b3],
        Endian::Big => seq![b3, b2, b1, b0],
    }
}

/// The byte a level is stored as.
pub open spec fn level_byte(l: Level) -> u8 {
    match l {
        Level::Error => 0,
        Level::Warning => 1,
        Level::Info => 2,
        Level::Debug => 3,
        Level::Verbose => 4,
    }
}

/// The encoding of the name records.
pub open spec fn enc_names(names: Seq<Seq<u8>>, e: Endian) -> Seq<u8>
    decreases names.len(),
{
    if names.len() == 0 {
        seq![]
    } else {
        enc_u32((names[0].len() + 1) as u32, e) + names[0] + seq![0u8] + enc_names(
            names.skip(1),
            e,
        )
    }
}

/// The byte layout of a whole record, as a log site embeds it.
pub open spec fn encode_metadata(m: MetadataV, e: Endian) -> Seq<u8> {
    enc_u32(1, e) + enc_u32(m.counter, e) + enc_u32(m.line, e) + enc_u32(
        (m.file.len() + 1) as u32,
        e,
    ) + enc_u32((m.fmt.len() + 1) as u32, e) + enc_u32(m.names.len() as u32, e) + seq![
        level_byte(m.level),
    ] + m.file + seq![0u8] + m.fmt + seq![0u8] + enc_names(m.names, e)
}

/// What a record must satisfy to be encodable: its strings are UTF-8 and
/// every length fits the header's fields.
pub open spec fn encodable(m: MetadataV) -> bool {
    &&& is_utf8(m.file)
    &&& is_utf8(m.fmt)
    &&& m.file.len() + 1 <= u32::MAX
    &&& m.fmt.len() + 1 <= u32::MAX
    &&& m.names.len() <= u32::MAX
    &&& forall|i: int|
        0 <= i < m.names.len() ==> is_utf8(#[trigger] m.names[i]) && m.names[i].len() + 1
            <= u32::MAX
}

/// Reading four encoded bytes yields the encoded value.
pub proof fn lemma_uint_at_enc_u32(s: Seq<u8>, pos: int, v: u32, e: Endian)
    requires
        0 <= pos,
        pos + 4 <= s.len(),
        s.subrange(pos, pos + 4) == enc_u32(v, e),
    ensures
        uint_at(s, pos, 4, e) == v,
{
    let t = s.subrange(pos, pos + 4);
    let b0 = (v % 0x100) as u8;
    let b1 = ((v / 0x100) % 0x100) as u8;
    let b2 = ((v / 0x10000) % 0x100) as u8;
    let b3 = ((v / 0x1000000) % 0x100) as u8;
    assert(v / 0x1000000 < 0x100);
    assert((v / 0x1000000) % 0x100 == v / 0x1000000) by (nonlinear_arith)
        requires
            0 <= v / 0x1000000 < 0x100,
    ;
    assert(v == v % 0x100 + 0x100 * (v / 0x100)) by (nonlinear_arith);
    assert(v / 0x100 == (v / 0x100) % 0x100 + 0x100 * (v / 0x10000)) by (nonlinear_arith)
        requires
            v / 0x100 / 0x100 == v / 0x10000,
    ;
    assert(v / 0x100 / 0x100 == v / 0x10000) by (nonlinear_arith);
    assert(v / 0x10000 == (v / 0x10000) % 0x100 + 0x100 * (v / 0x1000000)) by (nonlinear_arith)
        requires
            v / 0x10000 / 0x100 == v / 0x1000000,
    ;
    assert(v / 0x10000 / 0x100 == v / 0x1000000) by (nonlinear_arith);
    assert(v == b0 + 0x100 * b1 + 0x10000 * b2 + 0x1000000 * b3);
    match e {
        Endian::Little => {
            reveal_with_fuel(le_value, 6);
            assert(t =~= seq![b0, b1, b2, b3]);
            assert(t.skip(1) =~= seq![b1, b2, b3]);
            assert(t.skip(1).skip(1) =~= seq![b2, b3]);
            assert(t.skip(1).skip(1).skip(1) =~= seq![b3]);
            assert(seq![b3].skip(1) =~= Seq::<u8>::empty());
            assert(le_value(t) == b0 + 0x100 * b1 + 0x10000 * b2 + 0x1000000 * b3);
        },
        Endian::Big => {
            reveal_with_fuel(be_value, 6);
            assert(t =~= seq![b3, b2, b1, b0]);
            assert(t.drop_last() =~= seq![b3, b2, b1]);
            assert(t.drop_last().drop_last() =~= seq![b3, b2]);
            assert(t.drop_last().drop_last().drop_last() =~= seq![b3]);
            assert(seq![b3].drop_last() =~= Seq::<u8>::empty());
            assert(be_value(t) == b0 + 0x100 * b1 + 0x10000 * b2 + 0x1000000 * b3);
        },
    }
}

/// Reading the encoded name records yields the names.
pub proof fn lemma_names_round_trip(s: Seq<u8>, pos: int, names: Seq<Seq<u8>>, e: Endian)
    requires
        0 <= pos,
        pos + enc_names(names, e).len() <= s.len(),
        s.subrange(pos, pos + enc_names(names, e).len()) == enc_names(names, e),
        names.len() <= u32::MAX,
        forall|i: int|
            0 <= i < names.len() ==> is_utf8(#[trigger] names[i]) && names[i].len() + 1
                <= u32::MAX,
    ensures
        names_at(s, pos, names.len() as int, e) == (NamesOutcome::Good {
            names,
            end: pos + enc_names(names, e).len(),
        }),
    decreases names.len(),
{
    if names.len() == 0 {
        assert(names_at(s, pos, 0, e) == (NamesOutcome::Good { names: Seq::<Seq<u8>>::empty(), end: pos }));
        assert(names =~= Seq::<Seq<u8>>::empty());
    } else {
        let whole = enc_names(names, e);
        let name = names[0];
        let nlen = (name.len() + 1) as u32;
        let rest = enc_names(names.skip(1), e);
        assert(whole == enc_u32(nlen, e) + name + seq![0u8] + rest);
        assert(whole.len() == 4 + name.len() + 1 + rest.len());
        assert(s.subrange(pos, pos + 4) =~= enc_u32(nlen, e)) by {
            assert forall|k: int| 0 <= k < 4 implies s.subrange(pos, pos + 4)[k] == enc_u32(
                nlen,
                e,
            )[k] by {
                assert(s.subrange(pos, pos + whole.len())[k] == whole[k]);
            }
        }
        lemma_uint_at_enc_u32(s, pos, nlen, e);
        let spos = pos + 4;
        assert forall|k: int| 0 <= k < name.len() + 1 implies s[spos + k] == (name + seq![0u8])[k]
            by {
            assert(s.subrange(pos, pos + whole.len())[4 + k] == whole[4 + k]);
            assert(whole[4 + k] == (name + seq![0u8])[k]);
        }
        assert((name + seq![0u8])[name.len() as int] == 0);
        assert(s[spos + name.len()] == 0);
        assert forall|k: int| 0 <= k < name.len() implies s.subrange(spos, spos + name.len())[k]
            == name[k] by {
            assert(s[spos + k] == (name + seq![0u8])[k]);
            assert((name + seq![0u8])[k] == name[k]);
        }
        assert(s.subrange(spos, spos + name.len()) =~= name);
        assert(str_at(s, spos, nlen as int) == StrOutcome::Good(name));
        let rpos = spos + name.len() + 1;
        assert(s.subrange(rpos, rpos + rest.len()) =~= rest) by {
            assert forall|k: int| 0 <= k < rest.len() implies s.subrange(rpos, rpos + rest.len())[k]
                == rest[k] by {
                assert(s.subrange(pos, pos + whole.len())[4 + name.len() + 1 + k] == whole[4
                    + name.len() + 1 + k]);
                assert(whole[4 + name.len() + 1 + k] == rest[k]);
            }
        }
        assert forall|i: int| 0 <= i < names.skip(1).len() implies is_utf8(
            #[trigger] names.skip(1)[i],
        ) && names.skip(1)[i].len() + 1 <= u32::MAX by {
            assert(names.skip(1)[i] == names[i + 1]);
        }
        lemma_names_round_trip(s, rpos, names.skip(1), e);
        assert(seq![name] + names.skip(1) =~= names);
    }
}

/// Round trip: parsing a section that holds a record's encoding at offset
/// `id` yields exactly that record, under that id.
/// Four in-place bytes that equal a value's encoding read back as it.
proof fn lemma_word(s: Seq<u8>, p: int, v: u32, e: Endian)
    requires
        0 <= p,
        p + 4 <= s.len(),
        forall|k: int| 0 <= k < 4 ==> s[p + k] == enc_u32(v, e)[k],
    ensures
        uint_at(s, p, 4, e) == v,
{
    assert(s.subrange(p, p + 4) =~= enc_u32(v, e));
    lemma_uint_at_enc_u32(s, p, v, e);
}

/// The header words of an encoded record read back as written.
#[verifier::rlimit(100)]
#[verifier::spinoff_prover]
proof fn lemma_encoded_header(s: Seq<u8>, id: int, m: MetadataV, e: Endian)
    requires
        encodable(m),
        0 <= id,
        id + encode_metadata(m, e).len() <= s.len(),
        s.subrange(id, id + encode_metadata(m, e).len()) == encode_metadata(m, e),
    ensures
        uint_at(s, id, 4, e) == 1,
        uint_at(s, id + 4, 4, e) == m.counter,
        uint_at(s, id + 8, 4, e) == m.line,
        uint_at(s, id + 12, 4, e) == m.file.len() + 1,
        uint_at(s, id + 16, 4, e) == m.fmt.len() + 1,
        uint_at(s, id + 20, 4, e) == m.names.len(),
        s[id + 24] == level_byte(m.level),
{
    let whole = encode_metadata(m, e);
    assert forall|k: int| 0 <= k < whole.len() implies s[id + k] == whole[k] by {
        assert(s.subrange(id, id + whole.len())[k] == whole[k]);
    }
    assert forall|k: int| 0 <= k < 4 implies s[id + k] == enc_u32(1, e)[k] by {
        assert(whole[k] == enc_u32(1, e)[k]);
    }
    lemma_word(s, id, 1, e);
    assert forall|k: int| 0 <= k < 4 implies s[id + 4 + k] == enc_u32(m.counter, e)[k] by {
        assert(s[id + (4 + k)] == whole[4 + k]);
        assert(whole[4 + k] == enc_u32(m.counter, e)[k]);
    }
    lemma_word(s, id + 4, m.counter, e);
    assert forall|k: int| 0 <= k < 4 implies s[id + 8 + k] == enc_u32(m.line, e)[k] by {
        assert(s[id + (8 + k)] == whole[8 + k]);
        assert(whole[8 + k] == enc_u32(m.line, e)[k]);
    }
    lemma_word(s, id + 8, m.line, e);
    assert forall|k: int| 0 <= k < 4 implies #[trigger] s[id + 12 + k] == enc_u32(
        (m.file.len() + 1) as u32,
        e,
    )[k] by {
        assert(s[id + (12 + k)] == whole[12 + k]);
        assert(whole[12 + k] == enc_u32((m.file.len() + 1) as u32, e)[k]);
    }
    lemma_word(s, id + 12, (m.file.len() + 1) as u32, e);
    assert forall|k: int| 0 <= k < 4 implies #[trigger] s[id + 16 + k] == enc_u32(
        (m.fmt.len() + 1) as u32,
        e,
    )[k] by {
        assert(s[id + (16 + k)] == whole[16 + k]);
        assert(whole[16 + k] == enc_u32((m.fmt.len() + 1) as u32, e)[k]);
    }
    lemma_word(s, id + 16, (m.fmt.len() + 1) as u32, e);
    assert forall|k: int| 0 <= k < 4 implies #[trigger] s[id + 20 + k] == enc_u32(
        m.names.len() as u32,
        e,
    )[k] by {
        assert(s[id + (20 + k)] == whole[20 + k]);
        assert(whole[20 + k] == enc_u32(m.names.len() as u32, e)[k]);
    }
    lemma_word(s, id + 20, m.names.len() as u32, e);
    assert(s[id + 24] == whole[24]);
    assert(whole[24] == level_byte(m.level));
}

/// The strings of an encoded record read back as written.
#[verifier::rlimit(100)]
#[verifier::spinoff_prover]
proof fn lemma_encoded_strings(s: Seq<u8>, id: int, m: MetadataV, e: Endian)
    requires
        encodable(m),
        0 <= id,
        id + encode_metadata(m, e).len() <= s.len(),
        s.subrange(id, id + encode_metadata(m, e).len()) == encode_metadata(m, e),
    ensures
        str_at(s, id + 25, m.file.len() + 1 as int) == StrOutcome::Good(m.file),
        str_at(s, id + 25 + m.file.len() + 1, m.fmt.len() + 1 as int) == StrOutcome::Good(m.fmt),
        names_at(
            s,
            id + 25 + m.file.len() + 1 + m.fmt.len() + 1,
            m.names.len() as int,
            e,
        ) == (NamesOutcome::Good {
            names: m.names,
            end: id + 25 + m.file.len() + 1 + m.fmt.len() + 1 + enc_names(m.names, e).len(),
        }),
{
    let whole = encode_metadata(m, e);
    let flen = m.file.len() as int;
    let glen = m.fmt.len() as int;
    assert(whole.len() == 25 + flen + 1 + glen + 1 + enc_names(m.names, e).len());
    assert forall|k: int| 0 <= k < whole.len() implies s[id + k] == whole[k] by {
        assert(s.subrange(id, id + whole.len())[k] == whole[k]);
    }
    assert forall|k: int| 0 <= k < flen + 1 implies s[id + 25 + k] == (m.file + seq![0u8])[k] by {
        assert(s[id + (25 + k)] == whole[25 + k]);
        assert(whole[25 + k] == (m.file + seq![0u8])[k]);
    }
    assert((m.file + seq![0u8])[flen] == 0);
    assert(s[id + 25 + flen] == 0);
    assert forall|k: int| 0 <= k < flen implies s.subrange(id + 25, id + 25 + flen)[k]
        == m.file[k] by {
        assert(s[id + 25 + k] == (m.file + seq![0u8])[k]);
        assert((m.file + seq![0u8])[k] == m.file[k]);
    }
    assert(s.subrange(id + 25, id + 25 + flen) =~= m.file);
    assert(str_at(s, id + 25, flen + 1) == StrOutcome::Good(m.file));
    let gpos = id + 25 + flen + 1;
    assert forall|k: int| 0 <= k < glen + 1 implies s[gpos + k] == (m.fmt + seq![0u8])[k] by {
        assert(s[id + (25 + flen + 1 + k)] == whole[25 + flen + 1 + k]);
        assert(whole[25 + flen + 1 + k] == (m.fmt + seq![0u8])[k]);
    }
    assert((m.fmt + seq![0u8])[glen] == 0);
    assert(s[gpos + glen] == 0);
    assert forall|k: int| 0 <= k < glen implies s.subrange(gpos, gpos + glen)[k] == m.fmt[k] by {
        assert(s[gpos + k] == (m.fmt + seq![0u8])[k]);
        assert((m.fmt + seq![0u8])[k] == m.fmt[k]);
    }
    assert(s.subrange(gpos, gpos + glen) =~= m.fmt);
    assert(str_at(s, gpos, glen + 1) == StrOutcome::Good(m.fmt));
    let npos = gpos + glen + 1;
    assert(s.subrange(npos, npos + enc_names(m.names, e).len()) =~= enc_names(m.names, e)) by {
        assert forall|k: int| 0 <= k < enc_names(m.names, e).len() implies s.subrange(
            npos,
            npos + enc_names(m.names, e).len(),
        )[k] == enc_names(m.names, e)[k] by {
            assert(s[id + (25 + flen + 1 + glen + 1 + k)] == whole[25 + flen + 1 + glen + 1 + k]);
            assert(whole[25 + flen + 1 + glen + 1 + k] == enc_names(m.names, e)[k]);
        }
    }
    lemma_names_round_trip(s, npos, m.names, e);
}

/// Round trip: parsing a section that holds a record's encoding at offset
/// `id` yields exactly that record, under that id.
#[verifier::rlimit(100)]
#[verifier::spinoff_prover]
pub proof fn lemma_metadata_round_trip(s: Seq<u8>, id: int, m: MetadataV, e: Endian)
    requires
        encodable(m),
        0 <= id,
        id <= u64::MAX,
        id + encode_metadata(m, e).len() <= s.len(),
        s.subrange(id, id + encode_metadata(m, e).len()) == encode_metadata(m, e),
    ensures
        metadata_at(s, id, e) == MetaOutcome::Good(
            MetadataV {
                id: id as u64,
                counter: m.counter,
                level: m.level,
                file: m.file,
                line: m.line,
                names: m.names,
                fmt: m.fmt,
            },
        ),
{
    let whole = encode_metadata(m, e);
    let flen = m.file.len() as int;
    let glen = m.fmt.len() as int;
    assert(whole.len() == 25 + flen + 1 + glen + 1 + enc_names(m.names, e).len());
    lemma_encoded_header(s, id, m, e);
    lemma_encoded_strings(s, id, m, e);
    assert(level_byte(m.level) <= 4);
    assert(level_of_byte(level_byte(m.level)) == m.level);
}
} // verus!
