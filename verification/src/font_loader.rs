//! Font files as bytes, and the parser that says whether they are a font.

use vstd::prelude::*;

verus! {

/// The parser's own error, carried through unread.
#[verifier::external_type_specification]
#[verifier::external_body]
pub struct ExFontMeshError(fontmesh::FontMeshError);

/// A parsed font that borrows the bytes it was read from.
#[verifier::external_type_specification]
#[verifier::external_body]
pub struct ExFontRef<'a>(fontmesh::FontRef<'a>);

/// Whether `fontmesh::parse_font` accepts these bytes as a font.
pub uninterp spec fn font_parses(bytes: Seq<u8>) -> bool;

/// Calls `fontmesh::parse_font`, which reads the first font in the bytes
/// and fails where they are no TrueType or OpenType font. Whether it
/// succeeds depends on the bytes alone.
#[verifier::external_body]
fn parse_font_bytes<'a>(bytes: &'a [u8]) -> (r: Result<fontmesh::FontRef<'a>, fontmesh::FontMeshError>)
    ensures
        r.is_ok() == font_parses(bytes@),
{
    fontmesh::parse_font(bytes)
}

/// The bytes are not a font.
#[derive(Clone, Copy, Debug, PartialEq, Eq, Structural)]
pub struct FontLoaderError;

/// The bytes of a font file, from which glyph meshes are made.
pub struct TextMeshFont {
    bytes: Vec<u8>,
}

impl View for TextMeshFont {
    type V = Seq<u8>;

    closed spec fn view(&self) -> Seq<u8> {
        self.bytes@
    }
}

impl TextMeshFont {
    /// Keeps `bytes` as they are, without parsing them.
    pub fn new(bytes: Vec<u8>) -> (r: TextMeshFont)
        ensures
            r@ == bytes@,
    {
        TextMeshFont { bytes }
    }

    /// The bytes of the font file.
    pub fn bytes(&self) -> (r: &Vec<u8>)
        ensures
            r@ == self@,
    {
        &self.bytes
    }

    /// Parses the bytes. This succeeds exactly where the parser accepts them,
    /// and hands on the parser's own error where it does not.
    pub fn get_font(&self) -> (r: Result<fontmesh::FontRef<'_>, fontmesh::FontMeshError>)
        ensures
            r.is_ok() == font_parses(self@),
    {
        parse_font_bytes(self.bytes.as_slice())
    }

    /// How the font shows in a log: its bytes are left out.
    pub fn describe(&self) -> (r: String)
        ensures
            r@ == "TextMeshFont<>"@,
    {
        "TextMeshFont<>".to_owned()
    }
}

/// Turns the bytes of a font file into a font.
#[derive(Clone, Copy, Debug, PartialEq, Eq, Structural)]
pub struct FontLoader;

impl FontLoader {
    /// The endings of the file names this loader is for.
    pub fn extensions(&self) -> (r: Vec<&'static str>)
        ensures
            r@.len() == 1,
            r@[0]@ == "ttf"@,
    {
        let mut names: Vec<&'static str> = Vec::new();
        names.push("ttf");
        names
    }

    /// Keeps the bytes as a font where the parser accepts them, and fails
    /// where it does not.
    pub fn load(&self, bytes: Vec<u8>) -> (r: Result<TextMeshFont, FontLoaderError>)
        ensures
            r.is_ok() == font_parses(bytes@),
            r matches Ok(font) ==> font@ == bytes@,
    {
        let font = TextMeshFont::new(bytes);
        let accepted: bool = font.get_font().is_ok();
        if accepted {
            Ok(font)
        } else {
            Err(FontLoaderError)
        }
    }
}

impl Default for FontLoader {
    fn default() -> (r: FontLoader)
        ensures
            r == FontLoader,
    {
        FontLoader
    }
}

} // verus!
