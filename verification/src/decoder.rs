//! The decoder facade: reads a frame's identifier, fetches and caches the
//! site's metadata and argument type, materializes the argument values
//! from the payload, and validates the init frame's build-id.

use vstd::prelude::*;

use crate::bytes::read_uint;
use crate::bytes::uint_at;
use crate::log::Log;
use crate::metadata::metadata_at;
use crate::metadata::MetaOutcome;
use crate::metadata::Metadata;
use crate::metadata::MetadataV;
use crate::parser::Parser;
use crate::search::contains_bytes;
use crate::search::contains_seq;
use crate::types::type_size;
use crate::types::wf_type;
use crate::types::MemberV;
use crate::types::Type;
use crate::types::TypeV;
use crate::var::elems_view;
use crate::var::int_value;
use crate::var::is_int_prim;
use crate::var::spec_parse;
use crate::var::spec_parse_elems;
use crate::var::Var;
use crate::var::VarV;
use crate::DecodeError;
use crate::Endian;

verus! {

broadcast use vstd::std_specs::hash::group_hash_axioms;

/// The member name that marks a trailing variable-length payload.
pub open spec fn dynamic_data_name() -> Seq<u8> {
    seq![
        0x64u8, 0x79u8, 0x6Eu8, 0x61u8, 0x6Du8, 0x69u8, 0x63u8, 0x5Fu8, 0x64u8, 0x61u8, 0x74u8,
        0x61u8,
    ]
}

/// The member-name marker of a length-prefixed dynamic array descriptor.
pub open spec fn dynamic_array_marker() -> Seq<u8> {
    seq![
        0x64u8, 0x79u8, 0x6Eu8, 0x61u8, 0x6Du8, 0x69u8, 0x63u8, 0x5Fu8, 0x61u8, 0x72u8, 0x72u8,
        0x61u8, 0x79u8,
    ]
}

fn dynamic_data_name_bytes() -> (r: Vec<u8>)
    ensures
        r@ == dynamic_data_name(),
{
    let mut r: Vec<u8> = Vec::new();
    r.push(0x64);
    r.push(0x79);
    r.push(0x6E);
    r.push(0x61);
    r.push(0x6D);
    r.push(0x69);
    r.push(0x63);
    r.push(0x5F);
    r.push(0x64);
    r.push(0x61);
    r.push(0x74);
    r.push(0x61);
    proof {
        assert(r@ =~= dynamic_data_name());
    }
    r
}

fn dynamic_array_marker_bytes() -> (r: Vec<u8>)
    ensures
        r@ == dynamic_array_marker(),
{
    let mut r: Vec<u8> = Vec::new();
    r.push(0x64);
    r.push(0x79);
    r.push(0x6E);
    r.push(0x61);
    r.push(0x6D);
    r.push(0x69);
    r.push(0x63);
    r.push(0x5F);
    r.push(0x61);
    r.push(0x72);
    r.push(0x72);
    r.push(0x61);
    r.push(0x79);
    proof {
        assert(r@ =~= dynamic_array_marker());
    }
    r
}

/// The unsigned 64-bit reading of an integer value, as the dynamic-array
/// size member is read.
pub open spec fn u64_value(v: VarV) -> int {
    if int_value(v) < 0 {
        int_value(v) + 0x10000000000000000
    } else {
        int_value(v)
    }
}

/// The dynamic-array replacement of one member's placeholder value: the
/// placeholder's first field gives the byte length, the member type's
/// second field gives the array type, and `length / element size` elements
/// are parsed from the cursor.
pub open spec fn dyn_elem(m: MemberV, val: VarV, data: Seq<u8>, pos: int, e: Endian) -> Option<
    (VarV, int),
> {
    match val {
        VarV::Structure { members: vms } => {
            if vms.len() < 1 || !is_int_prim(vms[0].value) {
                None
            } else {
                let byte_len = u64_value(vms[0].value);
                match m.ty {
                    TypeV::Structure { members: tms, .. } => {
                        if tms.len() < 2 {
                            None
                        } else {
                            match tms[1].ty {
                                TypeV::Array { ty: elem, .. } => {
                                    let esz = type_size(*elem);
                                    if esz == 0 || esz > usize::MAX {
                                        None
                                    } else {
                                        let n = byte_len / esz as int;
                                        match spec_parse_elems(
                                            *elem,
                                            seq![n as u64],
                                            0,
                                            n,
                                            data,
                                            pos,
                                            e,
                                        ) {
                                            Some((elems, p)) => Some((VarV::Array(elems), p)),
                                            None => None,
                                        }
                                    }
                                },
                                _ => None,
                            }
                        }
                    },
                    _ => None,
                }
            }
        },
        _ => None,
    }
}

/// The fixed pass over an argument structure's members from index `i` on:
/// members named `dynamic_data` are left out, every other member's value
/// is parsed in order from the cursor, with no gap or padding handling.
pub open spec fn parse_fixed(ms: Seq<MemberV>, i: int, data: Seq<u8>, pos: int, e: Endian) -> Option<
    (Seq<VarV>, int),
>
    decreases ms, ms.len() - i, 1int,
{
    if i < 0 || i >= ms.len() {
        Some((seq![], pos))
    } else if ms[i].name == dynamic_data_name() {
        parse_fixed(ms, i + 1, data, pos, e)
    } else {
        match spec_parse(ms[i].ty, data, pos, e) {
            Some((v, p)) => match parse_fixed(ms, i + 1, data, p, e) {
                Some((rest, p2)) => Some((seq![v] + rest, p2)),
                None => None,
            },
            None => None,
        }
    }
}

/// The dynamic pass: each member whose name carries the dynamic-array
/// marker has its placeholder value replaced by the elements parsed from
/// the remaining payload; `vi` indexes the value decoded for the member at
/// `i` (members named `dynamic_data` carry no value).
pub open spec fn dyn_pass(
    ms: Seq<MemberV>,
    vals: Seq<VarV>,
    i: int,
    vi: int,
    data: Seq<u8>,
    pos: int,
    e: Endian,
) -> Option<(Seq<VarV>, int)>
    decreases ms.len() - i,
{
    if i < 0 || i >= ms.len() {
        Some((vals, pos))
    } else if ms[i].name == dynamic_data_name() {
        dyn_pass(ms, vals, i + 1, vi, data, pos, e)
    } else if contains_seq(ms[i].name, dynamic_array_marker()) {
        if 0 <= vi < vals.len() {
            match dyn_elem(ms[i], vals[vi], data, pos, e) {
                Some((nv, p)) => dyn_pass(ms, vals.update(vi, nv), i + 1, vi + 1, data, p, e),
                None => None,
            }
        } else {
            None
        }
    } else {
        dyn_pass(ms, vals, i + 1, vi + 1, data, pos, e)
    }
}

/// The argument values of a log frame: the payload parsed against the
/// argument structure, whose first member is the already-consumed
/// identifier; the fixed pass first, then the dynamic replacements.
pub open spec fn spec_decode_args(t: TypeV, data: Seq<u8>, pos: int, e: Endian) -> Option<
    (Seq<VarV>, int),
> {
    match t {
        TypeV::Structure { members, .. } => {
            if members.len() < 1 {
                None
            } else {
                let ms = members.skip(1);
                match parse_fixed(ms, 0, data, pos, e) {
                    Some((vals, p)) => dyn_pass(ms, vals, 0, 0, data, p, e),
                    None => None,
                }
            }
        },
        _ => None,
    }
}

/// The argument values a cached type yields for a frame's payload
/// starting at `pos`; no type means no arguments.
pub open spec fn decoded_args(ty: Option<TypeV>, data: Seq<u8>, pos: int, e: Endian) -> Seq<
    VarV,
> {
    match ty {
        None => seq![],
        Some(t) => spec_decode_args(t, data, pos, e)->Some_0.0,
    }
}

/// Whether a frame's payload parses against a cached type.
pub open spec fn args_parse_ok(ty: Option<TypeV>, data: Seq<u8>, pos: int, e: Endian) -> bool {
    match ty {
        None => true,
        Some(t) => spec_decode_args(t, data, pos, e) is Some,
    }
}

/// The init frame's arguments carry the image's build-id.
pub open spec fn init_ok(args: Seq<VarV>, build_id: Seq<u8>) -> bool {
    args.len() > 0 && (args[0] matches VarV::Array(es) && all_u8(es) && u8_bytes(es) == build_id)
}

/// Whether the arguments carry the expected build-id: the first argument
/// is an array of bytes equal to it.
pub open spec fn all_u8(es: Seq<VarV>) -> bool {
    forall|i: int| 0 <= i < es.len() ==> (#[trigger] es[i]) is U8
}

/// The bytes of an all-bytes array value.
pub open spec fn u8_bytes(es: Seq<VarV>) -> Seq<u8> {
    Seq::new(
        es.len(),
        |i: int|
            if 0 <= i < es.len() {
                es[i]->U8_0
            } else {
                0u8
            },
    )
}

/// Validates an init frame's arguments against the image's build-id: the
/// first argument must be an array of bytes equal to it. Exactly the
/// mismatches fail, each with its own report.
#[verifier::loop_isolation(false)]
pub fn validate_init(args: &Vec<Var>, build_id: &Vec<u8>) -> (r: Result<(), DecodeError>)
    ensures
        match r {
            Ok(()) => {
                &&& elems_view(args@).len() > 0
                &&& elems_view(args@)[0] matches VarV::Array(es) && all_u8(es) && u8_bytes(es)
                    == build_id@
            },
            Err(e) => {
                &&& e is Custom
                &&& !{
                    &&& elems_view(args@).len() > 0
                    &&& elems_view(args@)[0] matches VarV::Array(es) && all_u8(es) && u8_bytes(es)
                        == build_id@
                }
                &&& ((elems_view(args@).len() > 0 && (elems_view(args@)[0] matches VarV::Array(es)
                    && all_u8(es) && u8_bytes(es) != build_id@)) ==> e == DecodeError::Custom(
                    "Build ID mismatch!",
                ))
            },
        },
{
    if args.len() == 0 {
        return Err(DecodeError::Custom("No build ID argument information!"));
    }
    let first = &args[0];
    proof {
        assert(elems_view(args@)[0] == crate::var::var_view(args@[0]));
    }
    match first {
        Var::Array(elems) => {
            let ghost es = elems_view(elems@);
            let n = elems.len();
            let mut i: usize = 0;
            let mut bytes: Vec<u8> = Vec::new();
            while i < n
                invariant
                    i <= n,
                    n == elems@.len(),
                    es == elems_view(elems@),
                    bytes@.len() == i,
                    forall|j: int| 0 <= j < i ==> (#[trigger] es[j]) is U8,
                    forall|j: int| 0 <= j < i ==> bytes@[j] == es[j]->U8_0,
                decreases n - i,
            {
                proof {
                    assert(es[i as int] == crate::var::var_view(elems@[i as int]));
                }
                match &elems[i] {
                    Var::U8(b) => {
                        bytes.push(*b);
                    },
                    _ => {
                        proof {
                            assert(!(es[i as int] is U8));
                            assert(!all_u8(es));
                        }
                        return Err(DecodeError::Custom("Build ID data contains non u8 element!"));
                    },
                }
                i = i + 1;
            }
            proof {
                assert(all_u8(es));
                assert(bytes@ =~= u8_bytes(es));
            }
            if crate::render::bytes_eq(&bytes, build_id) {
                Ok(())
            } else {
                Err(DecodeError::Custom("Build ID mismatch!"))
            }
        },
        _ => Err(DecodeError::Custom("Build ID missing or not an array")),
    }
}

/// One cached log site: its metadata and, when the debug information has
/// one, its argument type.
pub struct CacheEntry {
    pub metadata: Metadata,
    pub ty: Option<Type>,
}

/// Mathematical model of a [`CacheEntry`].
pub struct CacheEntryV {
    pub metadata: MetadataV,
    pub ty: Option<TypeV>,
}

impl View for CacheEntry {
    type V = CacheEntryV;

    open spec fn view(&self) -> CacheEntryV {
        CacheEntryV {
            metadata: self.metadata@,
            ty: match self.ty {
                Some(t) => Some(t@),
                None => None,
            },
        }
    }
}

/// One cache entry is sound for its id: its metadata is what the metadata
/// section holds at that offset, and its type, when present, is
/// well-formed.
pub open spec fn entry_sound(id: u64, ev: CacheEntryV, section: Seq<u8>, e: Endian) -> bool {
    &&& metadata_at(section, id as int, e) == MetaOutcome::Good(ev.metadata)
    &&& ev.metadata.id == id
    &&& match ev.ty {
        Some(t) => wf_type(t),
        None => true,
    }
}

/// Responsible for decoding log frames against a loaded image. Each log
/// site is parsed from the image at most once: the cache keeps every site
/// already seen.
pub struct Decoder {
    parser: Parser,
    log_cache: std::collections::HashMap<u64, CacheEntry>,
}

impl Decoder {
    /// The decoder's invariant: the parser is sound and every cache entry
    /// holds what the image says at its id.
    pub closed spec fn wf(&self) -> bool {
        &&& self.parser.wf()
        &&& vstd::std_specs::hash::obeys_key_model::<u64>()
        &&& forall|id: u64|
            self.log_cache@.dom().contains(id) ==> entry_sound(
                id,
                (#[trigger] self.log_cache@[id])@,
                self.parser.section(),
                self.parser.spec_endian(),
            )
    }

    /// The metadata section this decoder reads.
    pub closed spec fn section(&self) -> Seq<u8> {
        self.parser.section()
    }

    /// The image's byte order.
    pub closed spec fn spec_endian(&self) -> Endian {
        self.parser.spec_endian()
    }

    /// The image's address size in bytes.
    pub closed spec fn spec_address_size(&self) -> u8 {
        self.parser.spec_address_size()
    }

    /// The image's build-id.
    pub closed spec fn spec_build_id(&self) -> Seq<u8> {
        self.parser.spec_build_id()
    }

    /// The addresses of the image's log-site symbols.
    pub closed spec fn addresses(&self) -> Seq<u64> {
        self.parser.addresses()
    }

    /// The cache's contents.
    pub closed spec fn cache(&self) -> Map<u64, CacheEntryV> {
        Map::new(
            |id: u64| self.log_cache@.dom().contains(id),
            |id: u64| self.log_cache@[id]@,
        )
    }

    /// Creates a new decoder from image data.
    pub fn new(data: &[u8]) -> (r: Result<Decoder, DecodeError>)
        ensures
            match r {
                Ok(d) => d.wf() && d.cache().dom() =~= Set::<u64>::empty(),
                Err(_) => true,
            },
    {
        let parser = Parser::new(data)?;
        let log_cache = std::collections::HashMap::new();
        Ok(Decoder { parser, log_cache })
    }

    /// The image's byte order, for upstream framers.
    pub fn get_endianness(&self) -> (r: Endian)
        ensures
            r == self.spec_endian(),
    {
        self.parser.endian()
    }

    /// Decodes a raw log frame: reads the identifier, looks the site up
    /// (parsing and caching it when it is new), decodes the payload
    /// against the site's argument type, and validates the init frame's
    /// build-id. The cache is insertion-only: a hit changes nothing, a
    /// miss adds at most the one entry. On a hit whose payload parses
    /// (and, for the init frame, carries the right build-id) the decode
    /// succeeds; a missing or malformed metadata record fails the decode
    /// with the record's own error.
    #[verifier::loop_isolation(false)]
    #[verifier::rlimit(100)]
    pub fn decode_log(&mut self, data: &[u8]) -> (r: Result<Log, DecodeError>)
        requires
            old(self).wf(),
        ensures
            final(self).wf(),
            final(self).section() == old(self).section(),
            final(self).spec_endian() == old(self).spec_endian(),
            final(self).spec_address_size() == old(self).spec_address_size(),
            final(self).spec_build_id() == old(self).spec_build_id(),
            final(self).addresses() == old(self).addresses(),
            ({
                let w = old(self).spec_address_size() as int;
                let e = old(self).spec_endian();
                let idv = uint_at(data@, 0, w, e) as u64;
                &&& (old(self).cache().dom().contains(idv) ==> final(self).cache()
                    =~= old(self).cache())
                &&& (final(self).cache() =~= old(self).cache() || (!old(
                    self,
                ).cache().dom().contains(idv) && final(self).cache() =~= old(self).cache().insert(
                    idv,
                    final(self).cache()[idv],
                )))
                &&& ((old(self).cache().dom().contains(idv) && data@.len() >= w && args_parse_ok(
                    old(self).cache()[idv].ty,
                    data@,
                    w,
                    e,
                ) && (idv == 0 ==> init_ok(
                    decoded_args(old(self).cache()[idv].ty, data@, w, e),
                    old(self).spec_build_id(),
                ))) ==> r is Ok)
                &&& ((!old(self).cache().dom().contains(idv) && data@.len() >= w && !(metadata_at(
                    old(self).section(),
                    idv as int,
                    e,
                ) is Good)) ==> (r matches Err(err) && crate::metadata::error_matches_outcome(
                    err,
                    metadata_at(old(self).section(), idv as int, e),
                    idv,
                    old(self).section().len() as u64,
                )))
                &&& match r {
                    Ok(log) => {
                        &&& data@.len() >= w
                        &&& final(self).cache().dom().contains(idv)
                        &&& entry_sound(
                            idv,
                            final(self).cache()[idv],
                            old(self).section(),
                            e,
                        )
                        &&& log@.metadata == final(self).cache()[idv].metadata
                        &&& match final(self).cache()[idv].ty {
                            None => log@.args == Seq::<VarV>::empty(),
                            Some(t) => ({
                                let sd = spec_decode_args(t, data@, w, e);
                                &&& sd is Some
                                &&& sd->Some_0.0 == log@.args
                            }),
                        }
                        &&& idv == 0 ==> init_ok(log@.args, old(self).spec_build_id())
                    },
                    Err(_) => true,
                }
            }),
    {
        let w = self.parser.address_size();
        let e = self.parser.endian();
        let mut pos: usize = 0;
        let id = match read_uint(data, &mut pos, w as usize, e) {
            Ok(v) => v,
            Err(err) => {
                return Err(err);
            },
        };
        proof {
            crate::bytes::lemma_uint_at_bound(data@, 0, w as int, e);
            crate::bytes::lemma_pow256_values();
            crate::bytes::lemma_pow256_monotone(w as nat, 8);
            assert(id == uint_at(data@, 0, w as int, e) as u64);
        }
        if !self.log_cache.contains_key(&id) {
            let metadata = match self.parser.get_log_metadata(id) {
                Ok(m) => m,
                Err(err) => {
                    return Err(err);
                },
            };
            let ty = match self.parser.get_log_args_type(&metadata) {
                Ok(t) => t,
                Err(err) => {
                    return Err(err);
                },
            };
            self.log_cache.insert(id, CacheEntry { metadata, ty });
            proof {
                assert(self.cache().dom() =~= old(self).cache().dom().insert(id));
                assert(self.cache() =~= old(self).cache().insert(id, self.cache()[id]));
            }
        }
        let entry = match self.log_cache.get(&id) {
            Some(en) => en,
            None => {
                proof {
                    assert(false);
                }
                return Err(DecodeError::Custom("Cache lookup failed!"));
            },
        };
        proof {
            if old(self).cache().dom().contains(id) {
                assert(entry@ == old(self).cache()[id]);
            }
        }
        let args: Vec<Var> = match &entry.ty {
            Some(t) => {
                match decode_log_args(t, data, &mut pos, e) {
                    Ok(a) => a,
                    Err(err) => {
                        proof {
                            if old(self).cache().dom().contains(id) {
                                assert(!args_parse_ok(
                                    old(self).cache()[id].ty,
                                    data@,
                                    w as int,
                                    e,
                                ));
                            }
                        }
                        return Err(err);
                    },
                }
            },
            None => Vec::new(),
        };
        proof {
            if old(self).cache().dom().contains(id) {
                assert(elems_view(args@) == decoded_args(
                    old(self).cache()[id].ty,
                    data@,
                    w as int,
                    e,
                ));
            }
        }
        proof {
            if entry@.ty is None {
                assert(elems_view(args@) =~= Seq::<VarV>::empty());
            }
        }
        let metadata_copy = duplicate_metadata(&entry.metadata);
        let log = Log::new(metadata_copy, args);
        if id == 0 {
            match validate_init(log.get_args(), self.parser.build_id()) {
                Ok(()) => (),
                Err(err) => {
                    proof {
                        assert(!init_ok(log@.args, self.parser.spec_build_id()));
                    }
                    return Err(err);
                },
            }
        }
        Ok(log)
    }

    /// Parses every log site the image's symbols point at and fills the
    /// cache with them, so that later decoding never parses the image; a
    /// malformed site fails the whole pass and leaves the cache untouched.
    /// Yields the number of cached sites: one per distinct address, each
    /// entry holding the record parsed at its address; an image without
    /// log-site symbols yields a count of zero.
    #[verifier::loop_isolation(false)]
    #[verifier::rlimit(100)]
    #[verifier::spinoff_prover]
    pub fn precache_log_metadata(&mut self) -> (r: Result<usize, DecodeError>)
        requires
            old(self).wf(),
        ensures
            final(self).wf(),
            final(self).section() == old(self).section(),
            final(self).spec_endian() == old(self).spec_endian(),
            final(self).spec_address_size() == old(self).spec_address_size(),
            final(self).spec_build_id() == old(self).spec_build_id(),
            final(self).addresses() == old(self).addresses(),
            match r {
                Ok(n) => {
                    &&& forall|a: u64|
                        final(self).cache().dom().contains(a) <==> #[trigger] old(
                            self,
                        ).addresses().contains(a)
                    &&& n == final(self).cache().dom().len()
                    &&& forall|a: u64|
                        final(self).cache().dom().contains(a) ==> entry_sound(
                            a,
                            #[trigger] final(self).cache()[a],
                            old(self).section(),
                            old(self).spec_endian(),
                        )
                    &&& forall|i: int|
                        0 <= i < old(self).addresses().len() ==> metadata_at(
                            old(self).section(),
                            #[trigger] old(self).addresses()[i] as int,
                            old(self).spec_endian(),
                        ) is Good
                },
                Err(_) => final(self).cache() =~= old(self).cache(),
            },
            old(self).addresses().len() == 0 ==> (r matches Ok(n) && n == 0),
    {
        let ghost addrs = self.parser.addresses();
        let mut cache: std::collections::HashMap<u64, CacheEntry> =
            std::collections::HashMap::new();
        let mut it = self.parser.iter_logs();
        proof {
            assert(vstd::std_specs::hash::obeys_key_model::<u64>());
            assert(addrs.take(0) =~= Seq::<u64>::empty());
        }
        loop
            invariant
                it.parser.wf(),
                it.parser.addresses() == addrs,
                it.parser.section() == self.parser.section(),
                it.parser.spec_endian() == self.parser.spec_endian(),
                it.idx <= addrs.len(),
                self.parser.wf(),
                addrs == self.parser.addresses(),
                vstd::std_specs::hash::obeys_key_model::<u64>(),
                forall|a: u64|
                    cache@.dom().contains(a) <==> #[trigger] addrs.take(it.idx as int).contains(a),
                forall|a: u64|
                    cache@.dom().contains(a) ==> entry_sound(
                        a,
                        (#[trigger] cache@[a])@,
                        self.parser.section(),
                        self.parser.spec_endian(),
                    ),
                forall|j: int|
                    0 <= j < it.idx ==> metadata_at(
                        self.parser.section(),
                        #[trigger] addrs[j] as int,
                        self.parser.spec_endian(),
                    ) is Good,
            decreases addrs.len() - it.idx,
        {
            let ghost i = it.idx as int;
            match it.next() {
                None => {
                    proof {
                        assert(addrs.take(addrs.len() as int) =~= addrs);
                    }
                    break ;
                },
                Some(Ok((m, t))) => {
                    proof {
                        assert(m@.id == addrs[i]);
                    }
                    let mid = m.id;
                    cache.insert(mid, CacheEntry { metadata: m, ty: t });
                    proof {
                        assert forall|a: u64| #[trigger] addrs.take(i + 1).contains(a)
                            <==> (addrs.take(i).contains(a) || addrs[i] == a) by {
                            if addrs.take(i + 1).contains(a) {
                                let wi = choose|wi: int|
                                    0 <= wi < addrs.take(i + 1).len() && #[trigger] addrs.take(
                                        i + 1,
                                    )[wi] == a;
                                if wi < i {
                                    assert(addrs.take(i)[wi] == a);
                                    assert(addrs.take(i).contains(a));
                                }
                            }
                            if addrs.take(i).contains(a) {
                                let wi = choose|wi: int|
                                    0 <= wi < addrs.take(i).len() && #[trigger] addrs.take(i)[wi]
                                        == a;
                                assert(addrs.take(i + 1)[wi] == a);
                                assert(addrs.take(i + 1).contains(a));
                            }
                            if addrs[i] == a {
                                assert(addrs.take(i + 1)[i] == a);
                                assert(addrs.take(i + 1).contains(a));
                            }
                        }
                    }
                },
                Some(Err(e)) => {
                    return Err(e);
                },
            }
        }
        self.log_cache = cache;
        proof {
            assert forall|a: u64| self.cache().dom().contains(a) <==> #[trigger] addrs.contains(
                a,
            ) by {
                assert(self.log_cache@.dom().contains(a) <==> addrs.contains(a));
            }
            assert(self.cache().dom() =~= self.log_cache@.dom());
            if addrs.len() == 0 {
                assert forall|a: u64| !(#[trigger] self.log_cache@.dom().contains(a)) by {
                    assert(self.log_cache@.dom().contains(a) <==> addrs.take(
                        it.idx as int,
                    ).contains(a));
                }
                assert(self.log_cache@.dom() =~= Set::<u64>::empty());
            }
        }
        Ok(self.log_cache.len())
    }
}

/// Copies a byte vector.
fn copy_bytes(v: &Vec<u8>) -> (r: Vec<u8>)
    ensures
        r@ == v@,
{
    let mut r: Vec<u8> = Vec::new();
    r.extend_from_slice(v.as_slice());
    proof {
        assert(r@ =~= v@);
    }
    r
}

/// Copies a metadata record.
fn duplicate_metadata(m: &Metadata) -> (r: Metadata)
    ensures
        r@ == m@,
{
    let mut names: Vec<Vec<u8>> = Vec::new();
    let mut i: usize = 0;
    while i < m.names.len()
        invariant
            i <= m.names@.len(),
            names.deep_view() =~~= m.names.deep_view().take(i as int),
        decreases m.names@.len() - i,
    {
        let ghost before = names.deep_view();
        let cb = copy_bytes(&m.names[i]);
        let ghost cbv = cb@;
        names.push(cb);
        proof {
            assert(names.deep_view() =~~= before + seq![cbv]);
            assert(m.names.deep_view().take(i + 1) =~~= m.names.deep_view().take(i as int)
                + seq![m.names.deep_view()[i as int]]);
            assert(m.names.deep_view()[i as int] == m.names@[i as int].deep_view());
            assert(m.names@[i as int].deep_view() =~= m.names@[i as int]@);
            assert(cbv =~= m.names@[i as int]@);
            assert(names.deep_view() =~~= m.names.deep_view().take(i + 1));
        }
        i = i + 1;
    }
    proof {
        assert(m.names.deep_view().take(m.names@.len() as int) =~~= m.names.deep_view());
    }
    let r = Metadata {
        id: m.id,
        counter: m.counter,
        level: m.level,
        file: copy_bytes(&m.file),
        line: m.line,
        names,
        fmt: copy_bytes(&m.fmt),
    };
    proof {
        assert(r@ =~~= m@);
    }
    r
}

/// Replaces a dynamic-array member's placeholder value: the placeholder's
/// first field gives the byte length, the member type's second field the
/// array type, and `length / element size` elements are parsed from the
/// remaining payload.
#[verifier::loop_isolation(false)]
#[verifier::rlimit(100)]
fn decode_dynamic_array(
    m: &crate::types::StructureMember,
    val: &Var,
    data: &[u8],
    pos: &mut usize,
    e: Endian,
) -> (r: Result<Var, DecodeError>)
    requires
        wf_type(m@.ty),
    ensures
        match r {
            Ok(v) => dyn_elem(m@, val@, data@, *old(pos) as int, e) == Some(
                (v@, *final(pos) as int),
            ),
            Err(err) => {
                &&& dyn_elem(m@, val@, data@, *old(pos) as int, e) is None
                &&& (err is Custom || err is OutOfBounds)
                &&& (err is Custom ==> *final(pos) == *old(pos))
            },
        },
{
    let size_v: u64 = match val {
        Var::Structure { members: vms } => {
            proof {
                assert(val@ == VarV::Structure {
                    members: crate::var::members_value_view(vms@),
                });
            }
            if vms.len() < 1 {
                return Err(DecodeError::Custom("Dynamic array value is not a structure!"));
            }
            proof {
                assert(crate::var::members_value_view(vms@)[0] == vms@[0]@);
            }
            let sv = &vms[0].value;
            let ok = match sv {
                Var::Bool(_) | Var::U8(_) | Var::U16(_) | Var::U32(_) | Var::U64(_) | Var::I8(_)
                    | Var::I16(_) | Var::I32(_) | Var::I64(_) => true,
                _ => false,
            };
            if !ok {
                proof {
                    assert(!is_int_prim(crate::var::var_view(vms@[0].value)));
                }
                return Err(DecodeError::Custom("Dynamic array size is not an integer!"));
            }
            sv.as_u64()
        },
        _ => {
            return Err(DecodeError::Custom("Dynamic array metadata is not a struct!"));
        },
    };
    let elem: &Type = match &m.ty {
        Type::Structure { members: tms, .. } => {
            if tms.len() < 2 {
                return Err(DecodeError::Custom("Dynamic array metadata is not a struct!"));
            }
            proof {
                assert(m@.ty == TypeV::Structure {
                    members: crate::types::members_view(tms@),
                    size: m@.ty->Structure_size,
                });
                assert(crate::types::members_view(tms@)[1] == crate::types::member_view(
                    tms@[1],
                ));
                assert(wf_type(crate::types::members_view(tms@)[1].ty));
            }
            match &tms[1].ty {
                Type::Array { ty, .. } => {
                    proof {
                        assert(tms@[1].ty@ == TypeV::Array {
                            ty: Box::new(crate::types::type_view(**ty)),
                            lengths: tms@[1].ty@->Array_lengths,
                        });
                    }
                    &**ty
                },
                _ => {
                    return Err(
                        DecodeError::Custom("Dynamic array type metadata is not an array!"),
                    );
                },
            }
        },
        _ => {
            return Err(DecodeError::Custom("Dynamic array metadata is not a struct!"));
        },
    };
    let esz: usize = match elem.size_checked() {
        Some(s) => s,
        None => {
            return Err(DecodeError::Custom("Dynamic array element type too large!"));
        },
    };
    if esz == 0 {
        return Err(DecodeError::Custom("Dynamic array element has no size!"));
    }
    let n: u64 = size_v / (esz as u64);
    let ghost elem_v = elem@;
    let ghost lens = seq![n];
    proof {
        assert(wf_type(elem_v));
    }
    let mut out: Vec<Var> = Vec::new();
    let ghost pos0 = *pos as int;
    let mut k: u64 = 0;
    while k < n
        invariant
            k <= n,
            out@.len() == k,
            wf_type(elem_v),
            elem_v == elem@,
            lens == seq![n],
            match spec_parse_elems(elem_v, lens, 0, (n - k) as int, data@, *pos as int, e) {
                Some((rest, p2)) => spec_parse_elems(elem_v, lens, 0, n as int, data@, pos0, e)
                    == Some((elems_view(out@) + rest, p2)),
                None => spec_parse_elems(elem_v, lens, 0, n as int, data@, pos0, e) is None,
            },
        decreases n - k,
    {
        proof {
            assert(lens.len() == 1);
        }
        let (v, _c) = match Var::parse(elem, data, pos, e) {
            Ok(p) => p,
            Err(err) => {
                return Err(err);
            },
        };
        let ghost before = out@;
        out.push(v);
        proof {
            assert(elems_view(out@) =~= elems_view(before) + seq![crate::var::var_view(v)]);
            match spec_parse_elems(elem_v, lens, 0, (n - k - 1) as int, data@, *pos as int, e) {
                Some((rest, p2)) => {
                    assert(elems_view(before) + (seq![crate::var::var_view(v)] + rest)
                        =~= elems_view(out@) + rest);
                },
                None => {},
            }
        }
        k = k + 1;
    }
    proof {
        assert(spec_parse_elems(elem_v, lens, 0, 0, data@, *pos as int, e) == Some(
            (Seq::<VarV>::empty(), *pos as int),
        ));
        assert(elems_view(out@) + Seq::<VarV>::empty() =~= elems_view(out@));
    }
    Ok(Var::Array(out))
}

/// Decodes a log's argument values from the payload at `*pos`: the fixed
/// members first (the leading identifier member is already consumed, and
/// `dynamic_data` members carry no value), then each dynamic-array
/// member's placeholder is replaced from the remaining payload.
#[verifier::loop_isolation(false)]
#[verifier::rlimit(100)]
pub fn decode_log_args(ty: &Type, data: &[u8], pos: &mut usize, e: Endian) -> (r: Result<
    Vec<Var>,
    DecodeError,
>)
    requires
        wf_type(ty@),
    ensures
        match r {
            Ok(args) => ({
                let sd = spec_decode_args(ty@, data@, *old(pos) as int, e);
                &&& sd is Some
                &&& sd->Some_0.0 == elems_view(args@)
                &&& sd->Some_0.1 == *final(pos) as int
            }),
            Err(err) => {
                &&& spec_decode_args(ty@, data@, *old(pos) as int, e) is None
                &&& (err is Custom || err is OutOfBounds)
                &&& (!(ty@ is Structure) ==> (err matches DecodeError::Custom(msg) && msg@
                    == "The log's args aren't a structure!"@))
            },
        },
{
    let members: &Vec<crate::types::StructureMember> = match ty {
        Type::Structure { members, .. } => members,
        _ => {
            return Err(DecodeError::Custom("The log's args aren't a structure!"));
        },
    };
    proof {
        assert(ty@ is Structure);
        assert(ty@->Structure_members == crate::types::members_view(members@));
    }
    if members.len() == 0 {
        return Err(DecodeError::Custom("The log's argument structure has no members!"));
    }
    let ghost full = crate::types::members_view(members@);
    let ghost msv = full.skip(1);
    let ghost pos0 = *pos as int;
    let dyn_data = dynamic_data_name_bytes();
    let dyn_marker = dynamic_array_marker_bytes();
    let mut vals: Vec<Var> = Vec::new();
    let mut k: usize = 1;
    while k < members.len()
        invariant
            1 <= k <= members@.len(),
            match parse_fixed(msv, k - 1, data@, *pos as int, e) {
                Some((rest, p2)) => parse_fixed(msv, 0, data@, pos0, e) == Some(
                    (elems_view(vals@) + rest, p2),
                ),
                None => parse_fixed(msv, 0, data@, pos0, e) is None,
            },
        decreases members@.len() - k,
    {
        let m = &members[k];
        proof {
            assert(msv[k - 1] == full[k as int]);
            assert(full[k as int] == crate::types::member_view(members@[k as int]));
            assert(wf_type(msv[k - 1].ty));
        }
        if crate::render::bytes_eq(&m.name, &dyn_data) {
            proof {
                assert(msv[k - 1].name == dynamic_data_name());
            }
        } else {
            let (v, _c) = match Var::parse(&m.ty, data, pos, e) {
                Ok(p) => p,
                Err(err) => {
                    return Err(err);
                },
            };
            let ghost before = vals@;
            vals.push(v);
            proof {
                assert(elems_view(vals@) =~= elems_view(before) + seq![crate::var::var_view(v)]);
                match parse_fixed(msv, k as int, data@, *pos as int, e) {
                    Some((rest, p2)) => {
                        assert(elems_view(before) + (seq![crate::var::var_view(v)] + rest)
                            =~= elems_view(vals@) + rest);
                    },
                    None => {},
                }
            }
        }
        k = k + 1;
    }
    proof {
        assert(parse_fixed(msv, k - 1, data@, *pos as int, e) == Some(
            (Seq::<VarV>::empty(), *pos as int),
        ));
        assert(elems_view(vals@) + Seq::<VarV>::empty() =~= elems_view(vals@));
    }
    let ghost fixed_vals = elems_view(vals@);
    let ghost fixed_pos = *pos as int;
    let mut vi: usize = 0;
    let mut k2: usize = 1;
    while k2 < members.len()
        invariant
            1 <= k2 <= members@.len(),
            vi <= k2 - 1,
            match dyn_pass(msv, elems_view(vals@), k2 - 1, vi as int, data@, *pos as int, e) {
                Some((fin, p2)) => dyn_pass(msv, fixed_vals, 0, 0, data@, fixed_pos, e) == Some(
                    (fin, p2),
                ),
                None => dyn_pass(msv, fixed_vals, 0, 0, data@, fixed_pos, e) is None,
            },
        decreases members@.len() - k2,
    {
        let m = &members[k2];
        proof {
            assert(msv[k2 - 1] == full[k2 as int]);
            assert(full[k2 as int] == crate::types::member_view(members@[k2 as int]));
            assert(wf_type(msv[k2 - 1].ty));
        }
        if crate::render::bytes_eq(&m.name, &dyn_data) {
            proof {
                assert(msv[k2 - 1].name == dynamic_data_name());
            }
        } else {
            if contains_bytes(&m.name, &dyn_marker) {
                if vi >= vals.len() {
                    return Err(DecodeError::Custom("Dynamic array value out of range!"));
                }
                proof {
                    assert(elems_view(vals@)[vi as int] == crate::var::var_view(
                        vals@[vi as int],
                    ));
                }
                let nv = match decode_dynamic_array(m, &vals[vi], data, pos, e) {
                    Ok(v) => v,
                    Err(err) => {
                        return Err(err);
                    },
                };
                let ghost before = vals@;
                let ghost nvv = crate::var::var_view(nv);
                vals.set(vi, nv);
                proof {
                    assert(elems_view(vals@) =~= elems_view(before).update(vi as int, nvv));
                }
            }
            vi = vi + 1;
        }
        k2 = k2 + 1;
    }
    proof {
        assert(dyn_pass(msv, elems_view(vals@), k2 - 1, vi as int, data@, *pos as int, e) == Some(
            (elems_view(vals@), *pos as int),
        ));
    }
    Ok(vals)
}

/// A cache that covers every log-site address never grows on a decode:
/// with [`Decoder::precache_log_metadata`]'s cache and a frame whose
/// identifier is a log-site address, [`Decoder::decode_log`]'s cache-hit
/// clause applies and the cache stays what it was.
pub proof fn lemma_no_insert_after_precache(dom: Set<u64>, addrs: Seq<u64>, id: u64)
    requires
        forall|a: u64| dom.contains(a) <==> #[trigger] addrs.contains(a),
        addrs.contains(id),
    ensures
        dom.contains(id),
{
}

/// Decoding is repeatable: whatever two decodes of the same frame against
/// the same cache entry yield, the two logs are structurally equal. In
/// particular a decode right after a successful cold decode hits the entry
/// the cold one inserted and kept (the facade's cache-hit clause), its
/// success clause makes the warm decode succeed, and this lemma makes the
/// two logs equal.
pub proof fn lemma_decode_repeatable(
    entry: CacheEntryV,
    data: Seq<u8>,
    w: int,
    e: Endian,
    l1: crate::log::LogV,
    l2: crate::log::LogV,
)
    requires
        l1.metadata == entry.metadata,
        l2.metadata == entry.metadata,
        match entry.ty {
            None => l1.args == Seq::<VarV>::empty() && l2.args == Seq::<VarV>::empty(),
            Some(t) => ({
                let sd = spec_decode_args(t, data, w, e);
                &&& sd is Some
                &&& sd->Some_0.0 == l1.args
                &&& sd->Some_0.0 == l2.args
            }),
        },
    ensures
        l1 == l2,
{
    assert(l1.args == l2.args);
}

} // verus!
