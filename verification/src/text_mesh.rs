//! What a caller asks for: the text, its style and its size.

use vstd::prelude::*;

verus! {

/// A size that is either given, in hundredths of a unit, or left for the
/// layout to choose.
#[derive(Clone, Copy, Debug, PartialEq, Eq, Structural)]
pub enum SizeUnit {
    NonStandard(u32),
    Auto,
}

impl SizeUnit {
    /// The size in hundredths, where one is given.
    pub open spec fn scalar(self) -> Option<u32> {
        match self {
            SizeUnit::NonStandard(v) => Some(v),
            SizeUnit::Auto => None,
        }
    }

    /// The size in hundredths, where one is given.
    pub fn as_scalar(&self) -> (r: Option<u32>)
        ensures
            r == self.scalar(),
    {
        match self {
            SizeUnit::NonStandard(v) => Some(*v),
            SizeUnit::Auto => None,
        }
    }
}

/// How finely the curves of a glyph are cut into straight pieces.
#[derive(Clone, Copy, Debug, PartialEq, Eq, Structural)]
pub enum Quality {
    Low,
    Medium,
    High,
}

impl Quality {
    /// Into how many straight pieces each curve of a glyph is cut.
    pub open spec fn subdivision_count(self) -> u8 {
        match self {
            Quality::Low => 10,
            Quality::Medium => 20,
            Quality::High => 50,
        }
    }

    /// Into how many straight pieces each curve of a glyph is cut.
    pub fn subdivisions(&self) -> (n: u8)
        ensures
            n == self.subdivision_count(),
    {
        match self {
            Quality::Low => 10,
            Quality::Medium => 20,
            Quality::High => 50,
        }
    }

    /// A small number that tells the three settings apart.
    pub open spec fn rank(self) -> int {
        match self {
            Quality::Low => 0,
            Quality::Medium => 1,
            Quality::High => 2,
        }
    }
}

/// Which change of case the text gets before it is laid out.
#[derive(Clone, Copy, Debug, PartialEq, Eq, Structural)]
pub struct FontStyle {
    pub uppercase: bool,
    pub lowercase: bool,
}

impl FontStyle {
    /// The style that leaves the text as it is.
    pub fn none() -> (r: FontStyle)
        ensures
            !r.uppercase && !r.lowercase,
    {
        FontStyle { uppercase: false, lowercase: false }
    }

    /// The style that turns the text into upper case.
    pub fn upper() -> (r: FontStyle)
        ensures
            r.uppercase && !r.lowercase,
    {
        FontStyle { uppercase: true, lowercase: false }
    }

    /// The style that turns the text into lower case.
    pub fn lower() -> (r: FontStyle)
        ensures
            !r.uppercase && r.lowercase,
    {
        FontStyle { uppercase: false, lowercase: true }
    }
}

impl Default for FontStyle {
    fn default() -> (r: FontStyle)
        ensures
            !r.uppercase && !r.lowercase,
    {
        FontStyle { uppercase: false, lowercase: false }
    }
}

/// How the glyphs look: their size, case and quality.
#[derive(Clone, Copy, Debug, PartialEq, Eq, Structural)]
pub struct TextMeshStyle {
    pub font_size: SizeUnit,
    pub font_style: FontStyle,
    pub mesh_quality: Quality,
}

/// The box the text is laid out in, how deep the glyphs are, and whether a
/// line that reaches the box's width is broken.
#[derive(Clone, Copy, Debug, PartialEq, Eq, Structural)]
pub struct TextMeshSize {
    pub width: SizeUnit,
    pub height: SizeUnit,
    pub depth: Option<SizeUnit>,
    pub wrapping: bool,
}

/// One job: a text with its style and size.
#[derive(Debug)]
pub struct TextMesh {
    pub text: String,
    pub size: TextMeshSize,
    pub style: TextMeshStyle,
}

} // verus!
