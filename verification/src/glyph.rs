//! Rendering a catalogue index on a terminal.
//!
//! The Plus/4 draws catalogue index `n` by poking `n + 64`.  A terminal can
//! only print characters somebody else designed, so each index needs a
//! stand-in chosen from what the terminal has: seven-bit ASCII, or the
//! block-element and box-drawing ranges.
use vstd::prelude::*;
use crate::catalog::{GlyphId, N_GLYPHS, PLUS4_BASE};
use vstd::string::StringSliceAdditionalSpecFns;

verus! {

/// How a catalogue index becomes something the output device can show.
#[derive(Clone, Copy, Debug, PartialEq, Eq, Default, Structural)]
pub enum Mode {
    /// 7-bit printable ASCII only.
    #[default]
    Ascii,
    /// Block elements and box drawing.
    Unicode,
}

/// Whether two strings hold the same characters.
fn same_text(s: &str, t: &str) -> (r: bool)
    ensures
        r == (s@ == t@),
{
    let a = s.as_bytes();
    let b = t.as_bytes();
    proof {
        vstd::utf8::encode_utf8_decode_utf8(s@);
        vstd::utf8::encode_utf8_decode_utf8(t@);
    }
    if a.len() != b.len() {
        return false;
    }
    let mut i: usize = 0;
    while i < a.len()
        invariant
            a@ == s.spec_bytes(),
            b@ == t.spec_bytes(),
            a@.len() == b@.len(),
            i <= a@.len(),
            forall|k: int| 0 <= k < i ==> a@[k] == b@[k],
        decreases a@.len() - i,
    {
        if a[i] != b[i] {
            return false;
        }
        i = i + 1;
    }
    assert(a@ =~= b@);
    true
}

/// The value of [`Mode::parse`].
pub open spec fn parse_of(s: Seq<char>) -> Option<Mode> {
    if s == "ascii"@ || s == "tty"@ || s == "7bit"@ {
        Some(Mode::Ascii)
    } else if s == "unicode"@ || s == "blocks"@ || s == "utf8"@ {
        Some(Mode::Unicode)
    } else {
        None
    }
}

impl Mode {
    /// Parse a mode name, for the command line.
    pub fn parse(s: &str) -> (r: Option<Mode>)
        ensures
            r == parse_of(s@),
    {
        if same_text(s, "ascii") || same_text(s, "tty") || same_text(s, "7bit") {
            Some(Mode::Ascii)
        } else if same_text(s, "unicode") || same_text(s, "blocks") || same_text(s, "utf8") {
            Some(Mode::Unicode)
        } else {
            None
        }
    }

    /// The table this mode draws from.
    pub open spec fn table(self) -> [char; 128] {
        match self {
            Mode::Ascii => ASCII,
            Mode::Unicode => UNICODE,
        }
    }

    /// The character standing in for a catalogue index.  Indices past the
    /// catalogue read as its last entry.
    pub fn glyph(self, g: GlyphId) -> (c: char)
        ensures
            c == self.table()[if g < 128 { g as int } else { 127 }],
    {
        let i = if (g as usize) < N_GLYPHS - 1 { g as usize } else { N_GLYPHS - 1 };
        match self {
            Mode::Ascii => ASCII[i],
            Mode::Unicode => UNICODE[i],
        }
    }
}

/// The Plus/4 screen code for a catalogue index: an addition, wrapping.
pub fn screen_code(g: GlyphId) -> (r: u8)
    ensures
        r == (g + PLUS4_BASE) % 256,
        g < 128 ==> r == g + PLUS4_BASE,
{
    g.wrapping_add(PLUS4_BASE)
}

/// 7-bit ASCII stand-ins, indexed by catalogue index.
pub const ASCII: [char; 128] = [
    // 0 blank
    ' ',
    // 1..7 dither, lightest to heaviest
    '.', ':', '-', '=', '+', '*', '#',
    // 8 solid
    '@',
    // 9..23 quadrants, masks 1..15 (bit0 TL, bit1 TR, bit2 BL, bit3 BR)
    '`', '\'', '~', ',', '[', '/', 'F', '.',
    '\\', ']', '7', '_', 'L', 'J', '@',
    // 24..31 eighth-fills from the bottom up
    '_', '_', '.', '-', '=', '+', '#', '@',
    // 32..39 slopes: nw ne sw se, then shallow l/r, steep l/r
    '\\', '/', '/', '\\', '\\', '/', '\\', '/',
    // 40..55 facades: four configurations x four lit patterns
    '8', '0', 'o', '.',
    'H', '#', '=', '-',
    'X', 'x', '+', ':',
    'M', 'W', 'm', 'n',
    // 56..59 mullions
    '|', '|', '!', 'H',
    // 60..63 spandrel, cornice, ledge, parapet
    '~', '=', '"', '_',
    // 64..69 fire escape: zig r, zig l, landing, rail, ladder, bracket
    '/', '\\', '=', '|', '#', '[',
    // 70..73 roofscape: parapet, tank, plant, mast
    '^', 'T', 'n', '!',
    // 74..81 road: asphalt dash centre crossing kerb paving grate puddle
    '.', '-', '=', '|', '_', '+', ':', '~',
    // 82..87 flora: canopy leaf trunk hedge grass planter
    '%', '&', '|', 'w', '"', 'u',
    // 88..93 street: post lamp signal sign hydrant bollard
    '|', 'Y', '!', '#', 'h', 'i',
    // 94..97 vehicles: body light bus taxi
    '=', 'o', 'B', 'T',
    // 98..99 pedestrians
    'i', 'j',
    // 100..107 rain phases
    '/', '\'', '/', '`', '/', '\'', '/', '`',
    // 108..111 moon quadrants, reading order
    '/', '\\', '\\', '/',
    // 112..115 halo quadrants
    '.', '.', '.', '.',
    // 116..123 stars
    '.', '\'', '.', '`', '.', '\'', '.', '`',
    // 124..127 haze
    ' ', '.', '.', ':',
];

/// Block-element stand-ins, indexed by catalogue index.
pub const UNICODE: [char; 128] = [
    ' ',
    '░', '░', '▒', '▒', '▒', '▓', '▓',
    '█',
    // quadrants: these are exact - the catalogue's masks were numbered to
    // match this range's ordering
    '▘', '▝', '▀', '▖', '▌', '▞', '▛', '▗',
    '▚', '▐', '▜', '▄', '▙', '▟', '█',
    // eighth-fills: also exact
    '▁', '▂', '▃', '▄', '▅', '▆', '▇', '█',
    // slopes
    '◤', '◥', '◣', '◢', '◤', '◥', '◣', '◢',
    // facades
    '▩', '▦', '▤', '░',
    '▥', '▨', '▧', '▒',
    '▦', '▩', '▒', '░',
    '▧', '▨', '▤', '▥',
    // mullions
    '▏', '▕', '│', '║',
    // spandrel, cornice, ledge, parapet
    '▔', '━', '═', '▂',
    // fire escape
    '╱', '╲', '┿', '╎', '╫', '┤',
    // roofscape
    '▀', '╤', '╥', '┃',
    // road
    '·', '╌', '═', '┃', '▁', '┼', '▒', '~',
    // flora
    '▓', '▒', '│', '▄', '▁', '▃',
    // street furniture
    '│', '╤', '╪', '▬', '╻', '╽',
    // vehicles
    '▬', '•', '▭', '▬',
    // pedestrians
    '╽', '╿',
    // rain
    '╱', '·', '╱', '·', '╱', '·', '╱', '·',
    // moon
    '▛', '▜', '▙', '▟',
    // halo
    '·', '·', '·', '·',
    // stars
    '·', '∙', '·', '∙', '·', '∙', '·', '∙',
    // haze
    ' ', '·', '░', '░',
];

/// Whether a character is a control character: the C0 range, DEL, or the
/// C1 range.
pub open spec fn is_control_char(c: char) -> bool {
    (c as u32) < 0x20 || (0x7f <= (c as u32) && (c as u32) <= 0x9f)
}

/// Every ASCII stand-in is a typeable 7-bit character, space to tilde.
pub proof fn lemma_ascii_is_printable()
    ensures
        forall|i: int| 0 <= i < N_GLYPHS ==> 0x20 <= #[trigger] (ASCII[i] as u32) <= 0x7e,
{
}

/// No block-element stand-in is a control character.
pub proof fn lemma_unicode_has_no_controls()
    ensures
        forall|i: int| 0 <= i < N_GLYPHS ==> !is_control_char(#[trigger] UNICODE[i]),
{
}

} // verus!
