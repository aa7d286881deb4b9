//! Colour themes: the default palette, where theme files live, and colours
//! written as hex triplets.

use vstd::prelude::*;
use vstd::string::StringSliceAdditionalSpecFns;
use crate::text::chars_of;

verus! {

/// The colours of the window, each a hex triplet such as `#46465A`.
#[derive(Debug, Clone)]
pub struct Theme {
    pub background_color: String,
    pub text_color: String,
    pub selected_background_color: String,
    pub selected_text_color: String,
    pub selected_border_color: String,
    pub border_color: String,
    pub alternate_row_color: String,
}

impl Default for Theme {
    /// The dark palette.
    fn default() -> (r: Theme)
        ensures
            r.background_color@ == "#000000"@,
            r.text_color@ == "#FFFFFF"@,
            r.selected_background_color@ == "#46465A"@,
            r.selected_text_color@ == "#C8C8FF"@,
            r.selected_border_color@ == "#6496FF"@,
            r.border_color@ == "#3C3C3C"@,
            r.alternate_row_color@ == "#282828"@,
    {
        Theme {
            background_color: String::from_str("#000000"),
            text_color: String::from_str("#FFFFFF"),
            selected_background_color: String::from_str("#46465A"),
            selected_text_color: String::from_str("#C8C8FF"),
            selected_border_color: String::from_str("#6496FF"),
            border_color: String::from_str("#3C3C3C"),
            alternate_row_color: String::from_str("#282828"),
        }
    }
}

/// `dir` joined with `name` as `Path::join` joins paths with `/` as the
/// separator: an absolute `name` replaces `dir`, and no separator is added
/// after an empty `dir` or one that already ends with it.
pub open spec fn joined(dir: Seq<char>, name: Seq<char>) -> Seq<char> {
    if name.len() > 0 && name[0] == '/' {
        name
    } else if dir.len() == 0 || dir.last() == '/' {
        dir + name
    } else {
        dir + "/"@ + name
    }
}

/// Path of the file of theme `theme_name` in the directory `themes_dir`:
/// `<theme_name>.json` joined to the directory.
pub fn get_theme_path(themes_dir: &str, theme_name: &str) -> (r: String)
    ensures
        r@ == joined(themes_dir@, theme_name@ + ".json"@),
{
    let mut file = String::from_str(theme_name);
    file.append(".json");
    let name = chars_of(theme_name);
    let dir = chars_of(themes_dir);
    proof {
        reveal_strlit(".json");
    }
    if name.len() > 0 && name[0] == '/' {
        assert((theme_name@ + ".json"@)[0] == '/');
        return file;
    }
    assert(!((theme_name@ + ".json"@).len() > 0 && (theme_name@ + ".json"@)[0] == '/')) by {
        if name@.len() == 0 {
            assert((theme_name@ + ".json"@)[0] == ".json"@[0]);
        }
    }
    let mut p = String::from_str(themes_dir);
    if dir.len() > 0 && dir[dir.len() - 1] != '/' {
        p.append("/");
    }
    p.append(file.as_str());
    p
}

/// A colour.
#[derive(Debug, Clone, Copy, PartialEq, Eq)]
pub struct Rgb {
    pub r: u8,
    pub g: u8,
    pub b: u8,
}

/// Value of a byte that is an ASCII hex digit.
pub open spec fn hex_value(c: u8) -> Option<u8> {
    if 0x30 <= c && c <= 0x39 {
        Some((c - 0x30) as u8)
    } else if 0x61 <= c && c <= 0x66 {
        Some((c - 0x61 + 10) as u8)
    } else if 0x41 <= c && c <= 0x46 {
        Some((c - 0x41 + 10) as u8)
    } else {
        None
    }
}

/// The byte that two bytes of text written in base 16 give, as
/// `u8::from_str_radix` reads them (a leading `+` is allowed), or 0 where
/// they are not such a number. A byte of a multi-byte character is never a
/// digit or `+`, so such a pair gives 0.
pub open spec fn pair_value(a: u8, b: u8) -> u8 {
    if a == 0x2B {
        match hex_value(b) {
            Some(v) => v,
            None => 0,
        }
    } else {
        match (hex_value(a), hex_value(b)) {
            (Some(x), Some(y)) => (x * 16 + y) as u8,
            _ => 0,
        }
    }
}

/// The UTF-8 bytes `b` without their leading `#` bytes.
pub open spec fn without_hashes(b: Seq<u8>) -> Seq<u8>
    decreases b.len(),
{
    if b.len() > 0 && b[0] == 0x23 {
        without_hashes(b.drop_first())
    } else {
        b
    }
}

/// The colour that a hex triplet names, read from its UTF-8 bytes: after
/// any leading `#`, exactly six bytes, two per channel; any other length is
/// white.
pub open spec fn color_of(bytes: Seq<u8>) -> Rgb {
    let h = without_hashes(bytes);
    if h.len() == 6 {
        Rgb { r: pair_value(h[0], h[1]), g: pair_value(h[2], h[3]), b: pair_value(h[4], h[5]) }
    } else {
        Rgb { r: 255, g: 255, b: 255 }
    }
}

fn hex_digit(c: u8) -> (r: Option<u8>)
    ensures
        r == hex_value(c),
{
    if 0x30 <= c && c <= 0x39 {
        Some(c - 0x30)
    } else if 0x61 <= c && c <= 0x66 {
        Some(c - 0x61 + 10)
    } else if 0x41 <= c && c <= 0x46 {
        Some(c - 0x41 + 10)
    } else {
        None
    }
}

fn pair(a: u8, b: u8) -> (r: u8)
    ensures
        r == pair_value(a, b),
{
    if a == 0x2B {
        match hex_digit(b) {
            Some(v) => v,
            None => 0,
        }
    } else {
        match (hex_digit(a), hex_digit(b)) {
            (Some(x), Some(y)) => x * 16 + y,
            _ => 0,
        }
    }
}

/// The colour that the hex triplet `hex` names.
pub fn hex_to_color(hex: &str) -> (r: Rgb)
    ensures
        r == color_of(hex.spec_bytes()),
{
    let c = hex.as_bytes();
    let mut start: usize = 0;
    assert(c@.skip(0) =~= c@);
    while start < c.len() && c[start] == 0x23
        invariant
            c@ == hex.spec_bytes(),
            start <= c@.len(),
            without_hashes(c@.skip(start as int)) == without_hashes(hex.spec_bytes()),
        decreases c@.len() - start,
    {
        assert(c@.skip(start as int).drop_first() =~= c@.skip(start + 1));
        start = start + 1;
    }
    assert(without_hashes(c@.skip(start as int)) == c@.skip(start as int));
    if c.len() - start == 6 {
        Rgb {
            r: pair(c[start], c[start + 1]),
            g: pair(c[start + 2], c[start + 3]),
            b: pair(c[start + 4], c[start + 5]),
        }
    } else {
        Rgb { r: 255, g: 255, b: 255 }
    }
}

} // verus!
