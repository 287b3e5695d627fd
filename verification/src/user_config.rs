//! The user's configuration as plain values: where the annotated source
//! lives, which theme to use, and font sizes. Reading and decoding the
//! configuration file is the application shell's concern; this module only
//! defines the values and their defaults.

use vstd::prelude::*;

verus! {

/// Default font size for regular text.
pub const FONT_SIZE: u16 = 20;

/// Default font size for the document title.
pub const TITLE_FONT_SIZE: u16 = 28;

/// The color theme the user asked for.
#[derive(Debug, Clone, Copy, PartialEq, Eq, Structural)]
pub enum Theme {
    Dark,
    Light,
}

/// The user's configuration file, decoded.
#[derive(Debug, Clone)]
pub struct UserConfig {
    pub xmonad_config: String,
    pub font: Option<FontConfig>,
    pub theme: Option<Theme>,
    pub regular_comment: Option<bool>,
    pub keybind_text_min_width: Option<usize>,
}

/// Font sizes, each optional in the file.
#[derive(Debug, Clone, Copy, PartialEq, Eq, Structural)]
pub struct FontConfig {
    pub title_size: Option<u16>,
    pub section_size: Option<u16>,
    pub keybind_size: Option<u16>,
    pub text_size: Option<u16>,
    pub error_size: Option<u16>,
}

impl Default for UserConfig {
    /// The configuration used when no file is found: the conventional
    /// source path, every font size at its default, no theme choice.
    fn default() -> (r: Self)
        ensures
            r.xmonad_config@ == "~/.xmonad/xmonad.hs"@,
            r.font == Some(FontConfig::standard_sizes()),
            r.theme is None,
            r.regular_comment is None,
            r.keybind_text_min_width is None,
    {
        UserConfig {
            xmonad_config: "~/.xmonad/xmonad.hs".to_owned(),
            font: Some(FontConfig::default()),
            theme: None,
            regular_comment: None,
            keybind_text_min_width: None,
        }
    }
}

impl FontConfig {
    /// Every size present, at its default value.
    pub open spec fn standard_sizes() -> FontConfig {
        FontConfig {
            title_size: Some(TITLE_FONT_SIZE),
            section_size: Some(FONT_SIZE),
            keybind_size: Some(FONT_SIZE),
            text_size: Some(FONT_SIZE),
            error_size: Some(FONT_SIZE),
        }
    }
}

impl Default for FontConfig {
    fn default() -> (r: Self)
        ensures
            r == FontConfig::standard_sizes(),
    {
        FontConfig {
            title_size: Some(TITLE_FONT_SIZE),
            section_size: Some(FONT_SIZE),
            keybind_size: Some(FONT_SIZE),
            text_size: Some(FONT_SIZE),
            error_size: Some(FONT_SIZE),
        }
    }
}

} // verus!
