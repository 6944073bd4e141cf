//! The image loader and per-site lookups: parses the executable container,
//! keeps the metadata section, build-id, byte order, address size and the
//! addresses of the log-site symbols, and resolves argument types from the
//! debug information.

use vstd::prelude::*;

use crate::dwarf::DwarfInfo;
use crate::ext::object_api::file_address_size_bytes;
use crate::ext::object_api::file_build_id;
use crate::ext::object_api::file_is_little_endian;
use crate::ext::object_api::file_parse;
use crate::ext::object_api::file_section_bytes;
use crate::ext::object_api::file_symbols;
use crate::ext::object_api::symbol_address;
use crate::ext::object_api::symbol_name_bytes;
use crate::ext::object_api::symbols_next;
use crate::metadata::error_matches_outcome;
use crate::metadata::metadata_at;
use crate::metadata::parse_metadata;
use crate::metadata::MetaOutcome;
use crate::metadata::Metadata;
use crate::render::base_digits;
use crate::search::contains_bytes;
use crate::types::wf_type;
use crate::types::Type;
use crate::DecodeError;
use crate::Endian;

verus! {

/// The marker every log-site symbol name carries.
pub open spec fn metadata_marker() -> Seq<u8> {
    seq![
        0x63u8, 0x64u8, 0x65u8, 0x66u8, 0x6Du8, 0x74u8, 0x5Fu8, 0x6Cu8, 0x6Fu8, 0x67u8, 0x5Fu8,
        0x6Du8, 0x65u8, 0x74u8, 0x61u8, 0x64u8, 0x61u8, 0x74u8, 0x61u8,
    ]
}

/// The marker bytes: `cdefmt_log_metadata`.
fn metadata_marker_bytes() -> (r: Vec<u8>)
    ensures
        r@ == metadata_marker(),
{
    let mut r: Vec<u8> = Vec::new();
    r.push(0x63);
    r.push(0x64);
    r.push(0x65);
    r.push(0x66);
    r.push(0x6D);
    r.push(0x74);
    r.push(0x5F);
    r.push(0x6C);
    r.push(0x6F);
    r.push(0x67);
    r.push(0x5F);
    r.push(0x6D);
    r.push(0x65);
    r.push(0x74);
    r.push(0x61);
    r.push(0x64);
    r.push(0x61);
    r.push(0x74);
    r.push(0x61);
    proof {
        assert(r@ =~= metadata_marker());
    }
    r
}

/// The name of the compiler-generated argument-structure type of the log
/// site with the given counter.
pub open spec fn args_type_name(counter: u32) -> Seq<u8> {
    seq![
        0x63u8, 0x64u8, 0x65u8, 0x66u8, 0x6Du8, 0x74u8, 0x5Fu8, 0x6Cu8, 0x6Fu8, 0x67u8, 0x5Fu8,
        0x61u8, 0x72u8, 0x67u8, 0x73u8, 0x5Fu8, 0x74u8,
    ] + base_digits(counter as nat, 10, false)
}

/// The argument-type name bytes: `cdefmt_log_args_t` and the counter in
/// decimal.
fn args_type_name_bytes(counter: u32) -> (r: Vec<u8>)
    ensures
        r@ == args_type_name(counter),
{
    let mut r: Vec<u8> = Vec::new();
    r.push(0x63);
    r.push(0x64);
    r.push(0x65);
    r.push(0x66);
    r.push(0x6D);
    r.push(0x74);
    r.push(0x5F);
    r.push(0x6C);
    r.push(0x6F);
    r.push(0x67);
    r.push(0x5F);
    r.push(0x61);
    r.push(0x72);
    r.push(0x67);
    r.push(0x73);
    r.push(0x5F);
    r.push(0x74);
    let ghost prefix = r@;
    let mut digits = crate::render::base_digits_exec(counter as u128, 10, false);
    r.append(&mut digits);
    proof {
        assert(r@ =~= args_type_name(counter));
    }
    r
}

/// Responsible for locating and parsing log sites in the image.
pub struct Parser {
    logs_section: Vec<u8>,
    build_id: Vec<u8>,
    dwarf: DwarfInfo,
    address_size: u8,
    metadata_addresses: Vec<u64>,
    endian: Endian,
}

impl Parser {
    /// The parser's fields stand in the agreed ranges.
    pub closed spec fn wf(&self) -> bool {
        1 <= self.address_size <= 8
    }

    /// The metadata section's bytes.
    pub closed spec fn section(&self) -> Seq<u8> {
        self.logs_section@
    }

    /// The image's byte order.
    pub closed spec fn spec_endian(&self) -> Endian {
        self.endian
    }

    /// The image's build-id bytes.
    pub closed spec fn spec_build_id(&self) -> Seq<u8> {
        self.build_id@
    }

    /// The image's address size in bytes.
    pub closed spec fn spec_address_size(&self) -> u8 {
        self.address_size
    }

    /// The addresses of the log-site symbols, in symbol-table order.
    pub closed spec fn addresses(&self) -> Seq<u64> {
        self.metadata_addresses@
    }

    /// Creates a new Parser from image data: reads the byte order, the
    /// build-id, the address size, the log-site symbol addresses, the
    /// metadata section and the debug sections.
    pub fn new(data: &[u8]) -> (r: Result<Parser, DecodeError>)
        ensures
            match r {
                Ok(p) => p.wf(),
                Err(_) => true,
            },
    {
        let file = match file_parse(data) {
            Ok(f) => f,
            Err(e) => {
                return Err(DecodeError::Object(e));
            },
        };
        let little = file_is_little_endian(&file);
        let endian = if little {
            Endian::Little
        } else {
            Endian::Big
        };
        let build_id = match file_build_id(&file) {
            Ok(Some(b)) => b,
            Ok(None) => {
                return Err(DecodeError::Custom("Unable to find build ID in elf!"));
            },
            Err(e) => {
                return Err(DecodeError::Object(e));
            },
        };
        let address_size = match file_address_size_bytes(&file) {
            Some(w) => w,
            None => {
                return Err(
                    DecodeError::Custom("Unsupported architecture, no address size information!"),
                );
            },
        };
        let marker = metadata_marker_bytes();
        let mut metadata_addresses: Vec<u64> = Vec::new();
        let mut symbols = file_symbols(&file);
        let mut budget: u64 = 0xFFFFFFFF;
        while budget > 0
            invariant
                true,
            decreases budget,
        {
            budget = budget - 1;
            let sym = match symbols_next(&mut symbols) {
                Some(s) => s,
                None => {
                    break ;
                },
            };
            match symbol_name_bytes(&sym) {
                Some(name) => {
                    if contains_bytes(&name, &marker) {
                        metadata_addresses.push(symbol_address(&sym));
                    }
                },
                None => {},
            }
        }
        if budget == 0 {
            return Err(DecodeError::Custom("Too many symbols!"));
        }
        let logs_section = match file_section_bytes(&file, ".cdefmt") {
            Some(b) => b,
            None => {
                return Err(DecodeError::MissingSection);
            },
        };
        let debug_info = match file_section_bytes(&file, ".debug_info") {
            Some(b) => b,
            None => Vec::new(),
        };
        let debug_abbrev = match file_section_bytes(&file, ".debug_abbrev") {
            Some(b) => b,
            None => Vec::new(),
        };
        let debug_str = match file_section_bytes(&file, ".debug_str") {
            Some(b) => b,
            None => Vec::new(),
        };
        let debug_line = match file_section_bytes(&file, ".debug_line") {
            Some(b) => b,
            None => Vec::new(),
        };
        let debug_line_str = match file_section_bytes(&file, ".debug_line_str") {
            Some(b) => b,
            None => Vec::new(),
        };
        let debug_str_offsets = match file_section_bytes(&file, ".debug_str_offsets") {
            Some(b) => b,
            None => Vec::new(),
        };
        let debug_addr = match file_section_bytes(&file, ".debug_addr") {
            Some(b) => b,
            None => Vec::new(),
        };
        let dwarf = DwarfInfo {
            debug_info,
            debug_abbrev,
            debug_str,
            debug_line,
            debug_line_str,
            debug_str_offsets,
            debug_addr,
            endian,
        };
        Ok(
            Parser {
                logs_section,
                build_id,
                dwarf,
                address_size,
                metadata_addresses,
                endian,
            },
        )
    }

    /// Returns a specific log's metadata: the record at byte offset `id`
    /// of the metadata section.
    pub fn get_log_metadata(&self, id: u64) -> (r: Result<Metadata, DecodeError>)
        ensures
            match r {
                Ok(m) => metadata_at(self.section(), id as int, self.spec_endian())
                    == MetaOutcome::Good(m@),
                Err(err) => error_matches_outcome(
                    err,
                    metadata_at(self.section(), id as int, self.spec_endian()),
                    id,
                    self.section().len() as u64,
                ),
            },
    {
        parse_metadata(self.logs_section.as_slice(), id, self.endian)
    }

    /// Returns the type of the log's arguments: the structure named after
    /// the metadata's counter, in the compilation unit named after its
    /// source file. Yields nothing when the debug information lacks it;
    /// every type it yields is well-formed.
    pub fn get_log_args_type(&self, metadata: &Metadata) -> (r: Result<Option<Type>, DecodeError>)
        ensures
            match r {
                Ok(Some(t)) => wf_type(t@),
                _ => true,
            },
    {
        let ty_name = args_type_name_bytes(metadata.counter);
        self.dwarf.get_type(&metadata.file, &ty_name)
    }

    /// Returns an iterator over all of the logs' metadata and type
    /// information, one log-site symbol at a time.
    pub fn iter_logs(&self) -> (r: LogIterator<'_>)
        ensures
            r.parser == self,
            r.idx == 0,
    {
        LogIterator { parser: self, idx: 0 }
    }

    /// The image's build-id bytes.
    pub fn build_id(&self) -> (r: &Vec<u8>)
        ensures
            r@ == self.spec_build_id(),
    {
        &self.build_id
    }

    /// The image's address size in bytes.
    pub fn address_size(&self) -> (r: u8)
        requires
            self.wf(),
        ensures
            r == self.spec_address_size(),
            1 <= r <= 8,
    {
        self.address_size
    }

    /// The image's byte order.
    pub fn endian(&self) -> (r: Endian)
        ensures
            r == self.spec_endian(),
    {
        self.endian
    }

    /// The addresses of the log-site symbols.
    pub fn metadata_addresses(&self) -> (r: &Vec<u64>)
        ensures
            r@ == self.addresses(),
    {
        &self.metadata_addresses
    }
}

/// Walks the log sites the image's symbols point at, handing out each
/// site's metadata and argument type.
pub struct LogIterator<'p> {
    pub parser: &'p Parser,
    pub idx: usize,
}

impl<'p> LogIterator<'p> {
    /// The next log site's metadata and argument type, or nothing when the
    /// sites are exhausted.
    pub fn next(&mut self) -> (r: Option<Result<(Metadata, Option<Type>), DecodeError>>)
        requires
            old(self).parser.wf(),
        ensures
            final(self).parser == old(self).parser,
            match r {
                None => old(self).idx >= old(self).parser.addresses().len() && *final(self) == *old(
                    self,
                ),
                Some(res) => {
                    &&& old(self).idx < old(self).parser.addresses().len()
                    &&& final(self).idx == old(self).idx + 1
                    &&& match res {
                        Ok((m, t)) => {
                            &&& metadata_at(
                                old(self).parser.section(),
                                old(self).parser.addresses()[old(self).idx as int] as int,
                                old(self).parser.spec_endian(),
                            ) == MetaOutcome::Good(m@)
                            &&& match t {
                                Some(t) => wf_type(t@),
                                None => true,
                            }
                        },
                        Err(_) => true,
                    }
                },
            },
    {
        let addrs = self.parser.metadata_addresses();
        if self.idx >= addrs.len() {
            return None;
        }
        let addr = addrs[self.idx];
        self.idx = self.idx + 1;
        let metadata = match self.parser.get_log_metadata(addr) {
            Ok(m) => m,
            Err(e) => {
                return Some(Err(e));
            },
        };
        let ty = match self.parser.get_log_args_type(&metadata) {
            Ok(t) => t,
            Err(e) => {
                return Some(Err(e));
            },
        };
        Some(Ok((metadata, ty)))
    }
}

} // verus!
