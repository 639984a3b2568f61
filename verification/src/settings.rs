//! What is kept between runs, and the choices of a save.

use vstd::prelude::*;
use crate::color::ColorSettings;
use crate::navigator::{extension_start, find_extension, is_word, matches_word, SortDir};
use crate::viewport::{effective_magnify, sane_magnify, FULL_SIZE};

verus! {

/// The record that is stored when the viewer closes and read when it
/// starts.
#[derive(Clone, Debug)]
pub struct AppSettings {
    pub color_settings: ColorSettings,
    pub sort_dir: SortDir,
    /// The directory of the image shown last.
    pub last_folder: Option<Vec<u8>>,
    /// Magnification in hundredths.
    pub magnify: u32,
    pub refit_reopen: bool,
    pub center: bool,
    pub fit_open: bool,
}

impl AppSettings {
    /// Whether the record is the one that stands in for a missing or
    /// unreadable one: neutral colors, ordered by name, no directory, full
    /// size, window in the middle, fitted at opening but not at reopening.
    pub open spec fn is_default(self) -> bool {
        &&& self.color_settings.is_neutral()
        &&& self.sort_dir == SortDir::Name
        &&& self.last_folder is None
        &&& self.magnify == FULL_SIZE
        &&& !self.refit_reopen
        &&& self.center
        &&& self.fit_open
    }

    /// The record that was read, with its magnification cut to the allowed
    /// range, or the default where none could be read.
    pub fn loaded_or_default(loaded: Option<AppSettings>) -> (s: AppSettings)
        ensures
            match loaded {
                Some(l) => s == (AppSettings { magnify: s.magnify, ..l }) && s.magnify
                    == effective_magnify(l.magnify),
                None => s.is_default(),
            },
    {
        match loaded {
            Some(l) => {
                let magnify = sane_magnify(l.magnify);
                AppSettings { magnify, ..l }
            },
            None => AppSettings::default(),
        }
    }
}

impl Default for AppSettings {
    fn default() -> (s: AppSettings)
        ensures
            s.is_default(),
    {
        AppSettings {
            color_settings: ColorSettings::default(),
            sort_dir: SortDir::Name,
            last_folder: None,
            magnify: FULL_SIZE,
            refit_reopen: false,
            center: true,
            fit_open: true,
        }
    }
}

/// Quality that a save starts with, out of 100.
pub const DEFAULT_QUALITY: u8 = 85;

/// The formats whose saving takes choices.
#[derive(Clone, Copy, Debug, PartialEq, Eq, Structural)]
pub enum SaveFormat {
    Jpeg,
    Webp,
}

/// The choices of a save.
#[derive(Clone, Copy, Debug, PartialEq, Eq, Structural)]
pub struct SaveSettings {
    pub saveformat: SaveFormat,
    /// Quality from 1 to 100, for JPEG and for WebP with loss.
    pub quality: u8,
    /// WebP without loss.
    pub lossless: bool,
}

/// The extension `jpg`.
pub open spec fn word_jpg() -> Seq<u8> {
    seq![106u8, 112u8, 103u8]
}

/// The extension `webp`.
pub open spec fn word_webp() -> Seq<u8> {
    seq![119u8, 101u8, 98u8, 112u8]
}

/// The format that a file of this name is saved in, where saving it takes
/// choices: JPEG for the extension `jpg`, WebP for `webp`, in small or
/// capital letters.
pub open spec fn save_format_of(name: Seq<u8>) -> Option<SaveFormat> {
    match extension_start(name) {
        Some(start) => if is_word(name, start, word_jpg()) {
            Some(SaveFormat::Jpeg)
        } else if is_word(name, start, word_webp()) {
            Some(SaveFormat::Webp)
        } else {
            None
        },
        None => None,
    }
}

impl SaveSettings {
    /// The choices that a save under the file name `name` starts with, or
    /// nothing where the format takes none.
    pub fn for_file_name(name: &[u8]) -> (r: Option<SaveSettings>)
        ensures
            match r {
                Some(s) => save_format_of(name@) == Some(s.saveformat) && s.quality
                    == DEFAULT_QUALITY && !s.lossless,
                None => save_format_of(name@) is None,
            },
    {
        match find_extension(name) {
            None => None,
            Some(start) => {
                let jpg: [u8; 3] = [106, 112, 103];
                let webp: [u8; 4] = [119, 101, 98, 112];
                assert(jpg@ =~= word_jpg() && webp@ =~= word_webp());
                if matches_word(name, start, &jpg) {
                    Some(
                        SaveSettings {
                            saveformat: SaveFormat::Jpeg,
                            quality: DEFAULT_QUALITY,
                            lossless: false,
                        },
                    )
                } else if matches_word(name, start, &webp) {
                    Some(
                        SaveSettings {
                            saveformat: SaveFormat::Webp,
                            quality: DEFAULT_QUALITY,
                            lossless: false,
                        },
                    )
                } else {
                    None
                }
            },
        }
    }
}

} // verus!
