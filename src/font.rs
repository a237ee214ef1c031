//! Fonts: the bytes of a parsed font and where its table directory starts.
use vstd::prelude::*;

verus! {

#[verifier::external_type_specification]
#[verifier::external_body]
pub struct ExCacheKey(swash::CacheKey);

/// Offset of the table directory of the first font in `data`, where `data`
/// holds a font or a font collection.
pub uninterp spec fn font_directory_offset(data: Seq<u8>) -> Option<u32>;

/// Relies on `swash::FontRef::from_index(data, 0)`: whether the bytes hold a
/// first font, and the offset of its table directory, depend on the bytes
/// alone; the cache key is a fresh one each time.
#[verifier::external_body]
fn parse_first_font(data: &Vec<u8>) -> (r: Option<(u32, swash::CacheKey)>)
    ensures
        match r {
            Some(p) => font_directory_offset(data@) == Some(p.0),
            None => font_directory_offset(data@) is None,
        },
{
    swash::FontRef::from_index(data, 0).map(|f| (f.offset, f.key))
}

#[derive(Clone, Copy, Debug, PartialEq, Eq, Structural)]
pub enum OutlineFontLoaderError {
    /// The bytes could not be read.
    Io,
    /// The bytes hold no font.
    InvalidFont,
}

/// A loaded font: its bytes, the offset of its table directory and the key
/// under which a shaper caches it.
#[derive(Debug)]
pub struct OutlinedFont {
    data: Vec<u8>,
    offset: u32,
    key: swash::CacheKey,
}

impl OutlinedFont {
    pub closed spec fn bytes(&self) -> Seq<u8> {
        self.data@
    }

    pub closed spec fn directory_offset(&self) -> u32 {
        self.offset
    }

    /// Builds a font from bytes and what a parser found in them: the offset
    /// of the first font's table directory and a cache key, or nothing.
    pub fn from_parsed(data: Vec<u8>, parsed: Option<(u32, swash::CacheKey)>) -> (r: Result<
        OutlinedFont,
        OutlineFontLoaderError,
    >)
        ensures
            match parsed {
                Some(p) => r matches Ok(f) && f.bytes() == data@ && f.directory_offset() == p.0,
                None => r == Err::<OutlinedFont, OutlineFontLoaderError>(
                    OutlineFontLoaderError::InvalidFont,
                ),
            },
    {
        match parsed {
            Some((offset, key)) => Ok(OutlinedFont { data, offset, key }),
            None => Err(OutlineFontLoaderError::InvalidFont),
        }
    }

    pub fn data(&self) -> (r: &Vec<u8>)
        ensures
            r@ == self.bytes(),
    {
        &self.data
    }

    pub fn offset(&self) -> (r: u32)
        ensures
            r == self.directory_offset(),
    {
        self.offset
    }

    pub fn key(&self) -> swash::CacheKey {
        self.key
    }
}

/// Turns font file bytes into fonts.
#[derive(Clone, Copy, Debug, Default)]
pub struct OutlinedFontLoader;

impl OutlinedFontLoader {
    /// Parses the first font in `bytes`; bytes that hold no font are
    /// rejected.
    pub fn load(&self, bytes: Vec<u8>) -> (r: Result<OutlinedFont, OutlineFontLoaderError>)
        ensures
            match font_directory_offset(bytes@) {
                Some(o) => r matches Ok(f) && f.bytes() == bytes@ && f.directory_offset() == o,
                None => r == Err::<OutlinedFont, OutlineFontLoaderError>(
                    OutlineFontLoaderError::InvalidFont,
                ),
            },
    {
        let parsed = parse_first_font(&bytes);
        OutlinedFont::from_parsed(bytes, parsed)
    }
}

} // verus!
