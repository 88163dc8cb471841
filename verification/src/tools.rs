//! The editing tools and their names and icons.

use vstd::prelude::*;
use unicode_normalization::UnicodeNormalization;
use unicode_segmentation::UnicodeSegmentation;

verus! {

/// The tools of the editor.
#[derive(Clone, Copy, Debug, PartialEq, Eq, Hash, Structural)]
pub enum Tool {
    Pencil,
    Eraser,
    Bucket,
    Eyedropper,
    Move,
    Line,
    Rectangle,
    Circle,
    Select,
    Lasso,
    Spray,
    Dither,
}

/// How a tool's icon moves while the tool is in use.
#[derive(Clone, Copy, Debug, PartialEq, Eq, Structural)]
pub enum AnimationType {
    /// No movement.
    Still,
    Pulse,
    Bounce,
    Rotate,
    Scale,
    Sparkle,
    Glow,
    Fade,
    Shake,
    Wobble,
}

/// The file formats an image can be exported to.
#[derive(Clone, Copy, Debug, PartialEq, Eq, Structural)]
pub enum ExportFormat {
    PNG,
    JPG,
    JPEG,
    BMP,
    GIF,
    ICO,
    PCX,
    POC,
    QOI,
    SVG,
    TGA,
    WEBP,
    ASE,
    ASEPRITE,
    CSS,
    FLC,
    FLI,
}

/// The name of a tool, as shown to the user.
pub open spec fn tool_name_of(tool: Tool) -> Seq<char> {
    match tool {
        Tool::Pencil => "Pencil"@,
        Tool::Eraser => "Eraser"@,
        Tool::Bucket => "Bucket"@,
        Tool::Eyedropper => "Eyedropper"@,
        Tool::Move => "Move"@,
        Tool::Line => "Line"@,
        Tool::Rectangle => "Rectangle"@,
        Tool::Circle => "Circle"@,
        Tool::Select => "Select"@,
        Tool::Lasso => "Lasso"@,
        Tool::Spray => "Spray"@,
        Tool::Dither => "Dither"@,
    }
}

/// The symbol of a tool.
pub open spec fn tool_icon_of(tool: Tool) -> Seq<char> {
    match tool {
        Tool::Pencil => "\u{270E}"@,
        Tool::Eraser => "\u{232B}"@,
        Tool::Bucket => "\u{1FAA3}"@,
        Tool::Eyedropper => "\u{1F3A8}"@,
        Tool::Move => "\u{2725}"@,
        Tool::Line => "\u{1F4CF}"@,
        Tool::Rectangle => "\u{25AD}"@,
        Tool::Circle => "\u{25CB}"@,
        Tool::Select => "\u{2B1A}"@,
        Tool::Lasso => "\u{25EF}"@,
        Tool::Spray => "\u{1F4A8}"@,
        Tool::Dither => "\u{25A6}"@,
    }
}

/// The letter that stands for a tool where its symbol cannot be shown.
pub open spec fn tool_letter_of(tool: Tool) -> Seq<char> {
    match tool {
        Tool::Pencil => "P"@,
        Tool::Eraser => "E"@,
        Tool::Bucket => "B"@,
        Tool::Eyedropper => "I"@,
        Tool::Move => "M"@,
        Tool::Line => "L"@,
        Tool::Rectangle => "R"@,
        Tool::Circle => "C"@,
        Tool::Select => "S"@,
        Tool::Lasso => "A"@,
        Tool::Spray => "Y"@,
        Tool::Dither => "D"@,
    }
}

/// The file name extension of an export format.
pub open spec fn extension_of(format: ExportFormat) -> Seq<char> {
    match format {
        ExportFormat::PNG => "png"@,
        ExportFormat::JPG => "jpg"@,
        ExportFormat::JPEG => "jpeg"@,
        ExportFormat::BMP => "bmp"@,
        ExportFormat::GIF => "gif"@,
        ExportFormat::ICO => "ico"@,
        ExportFormat::PCX => "pcx"@,
        ExportFormat::POC => "poc"@,
        ExportFormat::QOI => "qoi"@,
        ExportFormat::SVG => "svg"@,
        ExportFormat::TGA => "tga"@,
        ExportFormat::WEBP => "webp"@,
        ExportFormat::ASE => "ase"@,
        ExportFormat::ASEPRITE => "aseprite"@,
        ExportFormat::CSS => "css"@,
        ExportFormat::FLC => "flc"@,
        ExportFormat::FLI => "fli"@,
    }
}

/// The name of a tool.
pub fn tool_name(tool: Tool) -> (name: &'static str)
    ensures
        name@ == tool_name_of(tool),
{
    match tool {
        Tool::Pencil => "Pencil",
        Tool::Eraser => "Eraser",
        Tool::Bucket => "Bucket",
        Tool::Eyedropper => "Eyedropper",
        Tool::Move => "Move",
        Tool::Line => "Line",
        Tool::Rectangle => "Rectangle",
        Tool::Circle => "Circle",
        Tool::Select => "Select",
        Tool::Lasso => "Lasso",
        Tool::Spray => "Spray",
        Tool::Dither => "Dither",
    }
}

/// The symbol of a tool.
pub fn tool_icon(tool: Tool) -> (icon: &'static str)
    ensures
        icon@ == tool_icon_of(tool),
{
    match tool {
        Tool::Pencil => "\u{270E}",
        Tool::Eraser => "\u{232B}",
        Tool::Bucket => "\u{1FAA3}",
        Tool::Eyedropper => "\u{1F3A8}",
        Tool::Move => "\u{2725}",
        Tool::Line => "\u{1F4CF}",
        Tool::Rectangle => "\u{25AD}",
        Tool::Circle => "\u{25CB}",
        Tool::Select => "\u{2B1A}",
        Tool::Lasso => "\u{25EF}",
        Tool::Spray => "\u{1F4A8}",
        Tool::Dither => "\u{25A6}",
    }
}

/// The letter that stands for a tool where its symbol cannot be shown.
pub fn tool_letter(tool: Tool) -> (letter: &'static str)
    ensures
        letter@ == tool_letter_of(tool),
{
    match tool {
        Tool::Pencil => "P",
        Tool::Eraser => "E",
        Tool::Bucket => "B",
        Tool::Eyedropper => "I",
        Tool::Move => "M",
        Tool::Line => "L",
        Tool::Rectangle => "R",
        Tool::Circle => "C",
        Tool::Select => "S",
        Tool::Lasso => "A",
        Tool::Spray => "Y",
        Tool::Dither => "D",
    }
}

/// The file name extension of an export format.
pub fn file_extension(format: ExportFormat) -> (ext: &'static str)
    ensures
        ext@ == extension_of(format),
{
    match format {
        ExportFormat::PNG => "png",
        ExportFormat::JPG => "jpg",
        ExportFormat::JPEG => "jpeg",
        ExportFormat::BMP => "bmp",
        ExportFormat::GIF => "gif",
        ExportFormat::ICO => "ico",
        ExportFormat::PCX => "pcx",
        ExportFormat::POC => "poc",
        ExportFormat::QOI => "qoi",
        ExportFormat::SVG => "svg",
        ExportFormat::TGA => "tga",
        ExportFormat::WEBP => "webp",
        ExportFormat::ASE => "ase",
        ExportFormat::ASEPRITE => "aseprite",
        ExportFormat::CSS => "css",
        ExportFormat::FLC => "flc",
        ExportFormat::FLI => "fli",
    }
}

/// The Unicode Normalization Form C of a text, as
/// `unicode_normalization` computes it.
pub uninterp spec fn nfc_of(text: Seq<char>) -> Seq<char>;

/// The number of extended grapheme clusters of a text, as
/// `unicode_segmentation` counts them.
pub uninterp spec fn grapheme_count_of(text: Seq<char>) -> nat;

/// The text in Normalization Form C, collected from
/// `UnicodeNormalization::nfc`. Nothing is proved of it: the result is
/// taken to be what the name `nfc_of` stands for, a function of the text
/// alone.
#[verifier::external_body]
pub(crate) fn normalize_nfc(text: &str) -> (out: String)
    ensures
        out@ == nfc_of(text@),
{
    text.nfc().collect::<String>()
}

/// The number of extended grapheme clusters of the text, counted from
/// `UnicodeSegmentation::graphemes`. Nothing is proved of it: the result is
/// taken to be what the name `grapheme_count_of` stands for, a function of
/// the text alone.
#[verifier::external_body]
pub(crate) fn count_graphemes(text: &str) -> (n: usize)
    ensures
        n == grapheme_count_of(text@),
{
    text.graphemes(true).count()
}

/// The symbol of a tool in Normalization Form C.
pub fn tool_icon_normalized(tool: Tool) -> (icon: String)
    ensures
        icon@ == nfc_of(tool_icon_of(tool)),
{
    normalize_nfc(tool_icon(tool))
}

/// The text to show for a symbol, given the symbol in normal form and the
/// number of grapheme clusters in it: the normalized symbol where it has
/// any, else the fallback.
pub open spec fn shown_icon(normalized: Seq<char>, clusters: nat, fallback: Seq<char>) -> Seq<char> {
    if clusters > 0 {
        normalized
    } else {
        fallback
    }
}

/// Chooses between a normalized symbol and its fallback.
pub fn choose_icon(normalized: String, clusters: usize, fallback: &str) -> (icon: String)
    ensures
        icon@ == shown_icon(normalized@, clusters as nat, fallback@),
{
    if clusters > 0 {
        normalized
    } else {
        fallback.to_owned()
    }
}

/// The text to show for a symbol: the symbol in Normalization Form C, or
/// the fallback where that holds no grapheme cluster.
pub fn safe_icon(symbol: &str, fallback: &str) -> (icon: String)
    ensures
        icon@ == shown_icon(nfc_of(symbol@), grapheme_count_of(nfc_of(symbol@)), fallback@),
{
    let normalized = normalize_nfc(symbol);
    let clusters = count_graphemes(normalized.as_str());
    choose_icon(normalized, clusters, fallback)
}

/// The icon to show for a tool: its normalized symbol, or its letter where
/// the symbol holds no grapheme cluster.
pub fn tool_icon_safe(tool: Tool) -> (icon: String)
    ensures
        icon@ == shown_icon(
            nfc_of(tool_icon_of(tool)),
            grapheme_count_of(nfc_of(tool_icon_of(tool))),
            tool_letter_of(tool),
        ),
{
    safe_icon(tool_icon(tool), tool_letter(tool))
}

} // verus!
