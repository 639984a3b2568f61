//! One viewing session: the collection, the view, the color correction and
//! the user's choices, and what the user's commands do to them.

use vstd::prelude::*;
use crate::color::{ColorSettings, Lut4ColorSettings};
use crate::navigator::{path_bytes, Collection, SortDir};
use crate::rotate::Rotate;
use crate::settings::{AppSettings, SaveSettings};
use crate::viewport::{
    effective_magnify, sane_magnify, shown_offset, side, FitState, HostMetrics, ImageSize, Pixels,
    Vec2, ViewportState, FULL_SIZE,
};

verus! {

/// The state of one viewing session.
#[derive(Clone, Debug)]
pub struct Session {
    pub collection: Collection,
    pub view: ViewportState,
    pub color_settings: ColorSettings,
    /// The tables of the color correction, while it is switched on.
    pub lut: Option<Lut4ColorSettings>,
    pub sort: SortDir,
    /// Whether the window goes to the middle of the screen.
    pub center: bool,
    /// Whether an image that is opened again is fitted again.
    pub refit_reopen: bool,
    /// Whether an image is fitted to the screen when it is opened.
    pub fit_open: bool,
    /// Whether the window with the facts about the image is open.
    pub show_info: bool,
    /// Whether the window with the color settings is open.
    pub color_correction_dialog: bool,
    /// The choices of the save that is under way.
    pub save_dialog: Option<SaveSettings>,
}

/// What has to be done to the decoded image before it is shown.
#[derive(Clone, Copy, Debug, PartialEq, Eq, Structural)]
pub struct DisplayPlan {
    /// Whether the image is too large for the host and has to be scaled
    /// down to `max_side` first.
    pub downscale: bool,
    /// The rotation to apply after that.
    pub rotate: Rotate,
    /// Whether the tables of the session are applied to the pixels.
    pub correct: bool,
}

/// A copy of a path.
pub fn copy_path(path: &Option<Vec<u8>>) -> (r: Option<Vec<u8>>)
    ensures
        path_bytes(r) == path_bytes(*path),
{
    match path {
        None => None,
        Some(p) => {
            let mut bytes: Vec<u8> = Vec::new();
            let mut k: usize = 0;
            while k < p.len()
                invariant
                    k <= p.len(),
                    bytes@ == p@.take(k as int),
                decreases p.len() - k,
            {
                bytes.push(p[k]);
                assert(p@.take(k + 1) =~= p@.take(k as int).push(p@[k as int]));
                k += 1;
            }
            assert(p@.take(p.len() as int) =~= p@);
            Some(bytes)
        },
    }
}

impl Session {
    /// The session before anything is opened: no images, full size, neutral
    /// colors without correction, ordered by name, window at the top left,
    /// fitting at opening, no window open.
    pub fn new() -> (s: Session)
        ensures
            s.collection.entries@.len() == 0,
            s.collection.folder is None,
            s.collection.index == 0,
            s.collection.wf(),
            s.view.fit == FitState::NeverFit,
            s.view.magnify == FULL_SIZE,
            s.view.offset == (Pixels { x: 0, y: 0 }),
            s.view.image_size == (ImageSize { width: 800, height: 600 }),
            s.view.host == (HostMetrics {
                outer: Pixels { x: 0, y: 0 },
                inner: Pixels { x: 0, y: 0 },
                monitor: Pixels { x: 0, y: 0 },
            }),
            s.color_settings.is_neutral(),
            s.lut is None,
            s.sort == SortDir::Name,
            !s.center,
            !s.refit_reopen,
            s.fit_open,
            !s.show_info,
            !s.color_correction_dialog,
            s.save_dialog is None,
    {
        Session {
            collection: Collection::new(),
            view: ViewportState::new(),
            color_settings: ColorSettings::default(),
            lut: None,
            sort: SortDir::Name,
            center: false,
            refit_reopen: false,
            fit_open: true,
            show_info: false,
            color_correction_dialog: false,
            save_dialog: None,
        }
    }

    /// Takes the user's choices from a stored record.
    pub fn apply_settings(&mut self, saved: &AppSettings)
        ensures
            final(self).color_settings == saved.color_settings,
            final(self).sort == saved.sort_dir,
            final(self).view.magnify == effective_magnify(saved.magnify),
            final(self).refit_reopen == saved.refit_reopen,
            final(self).center == saved.center,
            final(self).fit_open == saved.fit_open,
            final(self).collection == old(self).collection,
            final(self).lut == old(self).lut,
            final(self).view == (ViewportState {
                magnify: final(self).view.magnify,
                ..old(self).view
            }),
    {
        self.color_settings = saved.color_settings;
        self.sort = saved.sort_dir;
        self.view.magnify = sane_magnify(saved.magnify);
        self.refit_reopen = saved.refit_reopen;
        self.center = saved.center;
        self.fit_open = saved.fit_open;
    }

    /// The record to store: the user's choices and the directory of the
    /// collection.
    pub fn settings(&self) -> (s: AppSettings)
        ensures
            s.color_settings == self.color_settings,
            s.sort_dir == self.sort,
            path_bytes(s.last_folder) == path_bytes(self.collection.folder),
            s.magnify == self.view.magnify,
            s.refit_reopen == self.refit_reopen,
            s.center == self.center,
            s.fit_open == self.fit_open,
    {
        AppSettings {
            color_settings: self.color_settings,
            sort_dir: self.sort,
            last_folder: copy_path(&self.collection.folder),
            magnify: self.view.magnify,
            refit_reopen: self.refit_reopen,
            center: self.center,
            fit_open: self.fit_open,
        }
    }

    /// An image has been decoded. It is fitted at the next layout pass
    /// where the user's choices ask for it.
    pub fn on_load(&mut self, reopen: bool)
        ensures
            final(self).view.fit == (if (old(self).refit_reopen || !reopen) && old(self).fit_open
                && old(self).view.fit == FitState::Fitted {
                FitState::FitPending
            } else {
                old(self).view.fit
            }),
            final(self).view == (ViewportState { fit: final(self).view.fit, ..old(self).view }),
            final(self).collection == old(self).collection,
            final(self).color_settings == old(self).color_settings,
            final(self).lut == old(self).lut,
    {
        self.view.on_load(reopen, self.fit_open, self.refit_reopen);
    }

    /// Begins to prepare the image for showing. With `coloring` the tables
    /// are computed from the color settings; without, the correction is
    /// switched off and the settings become neutral, the rotation too.
    /// `width` and `height` are the size of the decoded image, `max_side`
    /// the longest side that the host can show.
    pub fn plan_display(&mut self, coloring: bool, width: u32, height: u32, max_side: u32) -> (plan:
        DisplayPlan)
        ensures
            coloring ==> final(self).color_settings == old(self).color_settings && (
            final(self).lut matches Some(t) && t.is_table_of(old(self).color_settings)),
            !coloring ==> final(self).color_settings.is_neutral() && final(self).lut is None,
            plan.downscale == (width > max_side || height > max_side),
            plan.rotate == final(self).color_settings.rotate,
            plan.correct == coloring,
            final(self).collection == old(self).collection,
            final(self).view == old(self).view,
    {
        if coloring {
            let mut tables = match self.lut {
                Some(t) => t,
                None => Lut4ColorSettings::default(),
            };
            tables.update_lut(&self.color_settings);
            self.lut = Some(tables);
        } else {
            self.lut = None;
            self.color_settings = ColorSettings::default();
        }
        DisplayPlan {
            downscale: width > max_side || height > max_side,
            rotate: self.color_settings.rotate,
            correct: coloring,
        }
    }

    /// The image is ready at the size `shown`. With `new_rotate` the
    /// rotation has exchanged its sides and the next layout pass fits it
    /// again; without, the magnification stays. Returns the scroll offset
    /// that still shows.
    pub fn finish_display(&mut self, shown: ImageSize, new_rotate: bool) -> (offset: Vec2)
        ensures
            final(self).view.image_size == shown,
            final(self).view.fit == (if new_rotate && old(self).view.fit == FitState::Fitted {
                FitState::FitPending
            } else {
                old(self).view.fit
            }),
            final(self).view.magnify == old(self).view.magnify,
            final(self).view.offset == old(self).view.offset,
            final(self).view.host == old(self).view.host,
            offset.x == shown_offset(
                old(self).view.offset.x as int,
                side(shown.width),
                effective_magnify(old(self).view.magnify),
                old(self).view.host.usable().0,
            ),
            offset.y == shown_offset(
                old(self).view.offset.y as int,
                side(shown.height),
                effective_magnify(old(self).view.magnify),
                old(self).view.host.usable().1,
            ),
            final(self).collection == old(self).collection,
            final(self).color_settings == old(self).color_settings,
            final(self).lut == old(self).lut,
    {
        self.view.set_image(shown, new_rotate)
    }

    /// Turns the image further by `by`. Returns whether the turn exchanges
    /// the sides of the image, so that it has to be fitted again.
    pub fn turn(&mut self, by: Rotate) -> (refit: bool)
        ensures
            final(self).color_settings.rotate == Rotate::of_turns(
                old(self).color_settings.rotate.turns() + by.turns(),
            ),
            refit == by.swaps_axes(),
            final(self).color_settings == (ColorSettings {
                rotate: final(self).color_settings.rotate,
                ..old(self).color_settings
            }),
    {
        self.color_settings.rotate = self.color_settings.rotate.add(by);
        by.flips_aspect()
    }

    /// Turns the image back upright. Returns whether that exchanges the
    /// sides of the image, so that it has to be fitted again.
    pub fn stand(&mut self) -> (refit: bool)
        ensures
            final(self).color_settings.rotate == Rotate::Rotate0,
            refit == old(self).color_settings.rotate.swaps_axes(),
            final(self).color_settings == (ColorSettings {
                rotate: Rotate::Rotate0,
                ..old(self).color_settings
            }),
    {
        let refit = self.color_settings.rotate.flips_aspect();
        self.color_settings.rotate = Rotate::Rotate0;
        refit
    }

    /// Closes the innermost open window: the color settings, else the
    /// facts about the image, else the save. Returns whether none was open,
    /// so that the viewer itself closes.
    pub fn escape(&mut self) -> (quit: bool)
        ensures
            quit == (!old(self).color_correction_dialog && !old(self).show_info && old(
                self,
            ).save_dialog is None),
            final(self).color_correction_dialog == false,
            final(self).show_info == (old(self).show_info && old(self).color_correction_dialog),
            final(self).save_dialog == (if old(self).color_correction_dialog || old(
                self,
            ).show_info {
                old(self).save_dialog
            } else {
                None
            }),
    {
        if self.color_correction_dialog {
            self.color_correction_dialog = false;
            false
        } else if self.show_info {
            self.show_info = false;
            false
        } else if self.save_dialog.is_some() {
            self.save_dialog = None;
            false
        } else {
            true
        }
    }
}

} // verus!
