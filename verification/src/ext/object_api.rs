//! Trusted surface over the image-container reader: opaque handles over
//! its borrowed readers and one wrapper per function the image loader
//! calls. The container's types take trait-bounded generics that cannot
//! be declared here, so each handle holds the one concrete instantiation
//! this decoder uses, over borrowed image bytes.

use vstd::prelude::*;

verus! {

#[verifier::external_type_specification]
#[verifier::external_body]
pub struct ExObjectError(object::Error);

/// The parsed image container, borrowing the image bytes.
#[verifier::external_body]
pub struct ImageFile<'data> {
    inner: object::File<'data, &'data [u8]>,
}

/// An iterator over the image's symbols.
#[verifier::external_body]
pub struct SymbolsIter<'data, 'file> {
    inner: object::read::SymbolIterator<'data, 'file, &'data [u8]>,
}

/// One symbol of the image.
#[verifier::external_body]
pub struct SymbolHandle<'data, 'file> {
    inner: object::read::Symbol<'data, 'file, &'data [u8]>,
}

/// Relies on object::File::parse: parses the image container.
#[verifier::external_body]
pub fn file_parse<'data>(data: &'data [u8]) -> Result<ImageFile<'data>, object::Error> {
    Ok(ImageFile { inner: object::File::parse(data)? })
}

/// Relies on object::Object::is_little_endian.
#[verifier::external_body]
pub fn file_is_little_endian<'data>(f: &ImageFile<'data>) -> bool {
    object::Object::is_little_endian(&f.inner)
}

/// Relies on object::Object::build_id: the image's build-id bytes, when
/// the image carries one.
#[verifier::external_body]
pub fn file_build_id<'data>(f: &ImageFile<'data>) -> Result<Option<Vec<u8>>, object::Error> {
    Ok(object::Object::build_id(&f.inner)?.map(|b| b.to_vec()))
}

/// Relies on object::Object::architecture and Architecture::address_size:
/// the byte width of an address on the image's architecture; the
/// documented widths are 1, 2, 4 and 8 bytes.
#[verifier::external_body]
pub fn file_address_size_bytes<'data>(f: &ImageFile<'data>) -> (r: Option<u8>)
    ensures
        match r {
            Some(w) => 1 <= w <= 8,
            None => true,
        },
{
    object::Object::architecture(&f.inner).address_size().map(|a| a.bytes())
}

/// Relies on object::Object::section_by_name and
/// ObjectSection::uncompressed_data: a named section's bytes, decompressed
/// when stored compressed.
#[verifier::external_body]
pub fn file_section_bytes<'data>(f: &ImageFile<'data>, name: &str) -> Option<Vec<u8>> {
    object::Object::section_by_name(&f.inner, name).and_then(
        |s| object::ObjectSection::uncompressed_data(&s).ok(),
    ).map(|c| c.into_owned())
}

/// Relies on object::Object::symbols: the image's symbol iterator.
#[verifier::external_body]
pub fn file_symbols<'data, 'file>(f: &'file ImageFile<'data>) -> SymbolsIter<'data, 'file> {
    SymbolsIter { inner: object::Object::symbols(&f.inner) }
}

/// Relies on the symbol iterator's Iterator::next.
#[verifier::external_body]
pub fn symbols_next<'data, 'file>(it: &mut SymbolsIter<'data, 'file>) -> Option<
    SymbolHandle<'data, 'file>,
> {
    it.inner.next().map(|s| SymbolHandle { inner: s })
}

/// Relies on object::ObjectSymbol::name_bytes: the symbol's name, when it
/// has a well-formed one.
#[verifier::external_body]
pub fn symbol_name_bytes<'data, 'file>(s: &SymbolHandle<'data, 'file>) -> Option<Vec<u8>> {
    object::ObjectSymbol::name_bytes(&s.inner).ok().map(|b| b.to_vec())
}

/// Relies on object::ObjectSymbol::address.
#[verifier::external_body]
pub fn symbol_address<'data, 'file>(s: &SymbolHandle<'data, 'file>) -> u64 {
    object::ObjectSymbol::address(&s.inner)
}

} // verus!
