//! The interactive fill controller: routes clipboard images, one at a time,
//! into a document's missing image targets.
use vstd::prelude::*;
use crate::markdown::{get_unfilled_placeholders, unfilled, ImagePlaceholder};
use crate::pixels::{fingerprint, fingerprint_of, RawImage};
use crate::storage::{prepared_as, save_image_to_path, ImageInfo, PreparedSave};
use crate::paths::path_file_name;
use crate::text::{decimal, push_decimal, push_str};

verus! {

/// State of one filling session over a document.
pub struct App {
    pub markdown_path: String,
    /// The targets still to fill, in document order.
    pub placeholders: Vec<ImagePlaceholder>,
    /// The highlighted target; meaningless when none is left.
    pub selected_index: usize,
    /// The clipboard image waiting to be saved.
    pub clipboard_image: Option<RawImage>,
    pub clipboard_dimensions: Option<(u32, u32)>,
    /// Fingerprint of the last clipboard image seen.
    pub last_image_hash: Option<u64>,
    pub status_message: String,
    /// Set by the owner when the user asks to quit.
    pub should_quit: bool,
}

/// Status after a successful save of the file `filename`.
pub open spec fn saved_status(filename: Seq<char>) -> Seq<char> {
    "Saved: "@ + filename
}

/// Status when an image of `w` by `h` pixels waits.
pub open spec fn ready_status(w: u32, h: u32) -> Seq<char> {
    "Image ready: "@ + decimal(w as nat) + "x"@ + decimal(h as nat) + " - Press Enter to save"@
}

/// Status after a failed save.
pub open spec fn error_status(e: Seq<char>) -> Seq<char> {
    "Error saving: "@ + e
}

impl App {
    /// The session's invariant: the selection lies in the list (when it is
    /// not empty) and a waiting image is well formed.
    pub open spec fn wf(&self) -> bool {
        &&& (self.placeholders@.len() > 0 ==> self.selected_index < self.placeholders@.len())
        &&& (self.clipboard_image matches Some(img) ==> img.wf())
    }

    /// Opens a session on the placeholders parsed from the document at
    /// `markdown_path`; fails when none of them is unfilled.
    pub fn new(markdown_path: &str, parsed: Vec<ImagePlaceholder>) -> (r: Result<App, String>)
        ensures
            r is Err <==> parsed@.filter(unfilled()).len() == 0,
            r matches Ok(app) ==> {
                &&& app.wf()
                &&& app.markdown_path@ == markdown_path@
                &&& app.placeholders@ == parsed@.filter(unfilled())
                &&& app.selected_index == 0
                &&& app.clipboard_image is None
                &&& app.clipboard_dimensions is None
                &&& app.last_image_hash is None
                &&& app.status_message@ == "Waiting for clipboard image..."@
                &&& !app.should_quit
            },
    {
        let placeholders = get_unfilled_placeholders(parsed);
        if placeholders.len() == 0 {
            return Err(String::from_str("No unfilled image placeholders found in the markdown file"));
        }
        let mut path = String::new();
        push_str(&mut path, markdown_path);
        Ok(App {
            markdown_path: path,
            placeholders,
            selected_index: 0,
            clipboard_image: None,
            clipboard_dimensions: None,
            last_image_hash: None,
            status_message: String::from_str("Waiting for clipboard image..."),
            should_quit: false,
        })
    }

    /// Moves the selection down, wrapping to the first target.
    pub fn select_next(&mut self)
        requires
            old(self).wf(),
        ensures
            final(self).wf(),
            final(self).selected_index == if old(self).placeholders@.len() == 0 {
                old(self).selected_index as int
            } else {
                (old(self).selected_index + 1) % (old(self).placeholders@.len() as int)
            },
            final(self).placeholders == old(self).placeholders,
            final(self).markdown_path == old(self).markdown_path,
            final(self).clipboard_dimensions == old(self).clipboard_dimensions,
            final(self).last_image_hash == old(self).last_image_hash,
            final(self).should_quit == old(self).should_quit,
            final(self).clipboard_image == old(self).clipboard_image,
            final(self).status_message == old(self).status_message,
    {
        if self.placeholders.len() > 0 {
            self.selected_index = (self.selected_index + 1) % self.placeholders.len();
        }
    }

    /// Moves the selection up, wrapping to the last target.
    pub fn select_prev(&mut self)
        requires
            old(self).wf(),
        ensures
            final(self).wf(),
            final(self).selected_index == if old(self).placeholders@.len() == 0 {
                old(self).selected_index as int
            } else if old(self).selected_index == 0 {
                old(self).placeholders@.len() - 1
            } else {
                old(self).selected_index - 1
            },
            final(self).placeholders == old(self).placeholders,
            final(self).markdown_path == old(self).markdown_path,
            final(self).clipboard_dimensions == old(self).clipboard_dimensions,
            final(self).last_image_hash == old(self).last_image_hash,
            final(self).should_quit == old(self).should_quit,
            final(self).clipboard_image == old(self).clipboard_image,
            final(self).status_message == old(self).status_message,
    {
        if self.placeholders.len() > 0 {
            if self.selected_index == 0 {
                self.selected_index = self.placeholders.len() - 1;
            } else {
                self.selected_index = self.selected_index - 1;
            }
        }
    }

    /// Takes in the clipboard's current image, if any: when it differs from
    /// the last one seen it becomes the waiting image.
    pub fn check_clipboard(&mut self, current: Option<RawImage>)
        requires
            old(self).wf(),
            current matches Some(img) ==> img.wf(),
        ensures
            final(self).wf(),
            final(self).placeholders == old(self).placeholders,
            final(self).markdown_path == old(self).markdown_path,
            final(self).selected_index == old(self).selected_index,
            final(self).should_quit == old(self).should_quit,
            match current {
                Some(img) => {
                    let fp = fingerprint_of(img.width, img.height, img.pixels@);
                    if old(self).last_image_hash != Some(fp) {
                        &&& final(self).last_image_hash == Some(fp)
                        &&& final(self).clipboard_image == Some(img)
                        &&& final(self).clipboard_dimensions == Some((img.width, img.height))
                        &&& final(self).status_message@ == ready_status(img.width, img.height)
                    } else {
                        &&& final(self).last_image_hash == old(self).last_image_hash
                        &&& final(self).clipboard_image == old(self).clipboard_image
                        &&& final(self).clipboard_dimensions == old(self).clipboard_dimensions
                        &&& final(self).status_message == old(self).status_message
                    }
                },
                None => *final(self) == *old(self),
            },
    {
        if let Some(img) = current {
            let hash = fingerprint(&img);
            let fresh = match self.last_image_hash {
                Some(h) => h != hash,
                None => true,
            };
            if fresh {
                let mut status = String::new();
                push_str(&mut status, "Image ready: ");
                push_decimal(&mut status, img.width as usize);
                push_str(&mut status, "x");
                push_decimal(&mut status, img.height as usize);
                push_str(&mut status, " - Press Enter to save");
                self.last_image_hash = Some(hash);
                self.clipboard_dimensions = Some((img.width, img.height));
                self.clipboard_image = Some(img);
                self.status_message = status;
            }
        }
    }

    /// Prepares the waiting image for the selected target, timestamped
    /// `timestamp`. Returns the bytes to write and the record when there is
    /// an image and a target and encoding succeeds; the session itself is
    /// unchanged until [`App::finish_save`] reports the write. Otherwise only
    /// the status changes: no image, no targets, or the encoding error.
    pub fn save_to_selected(&mut self, timestamp: &str) -> (r: Option<PreparedSave>)
        requires
            old(self).wf(),
        ensures
            final(self).wf(),
            final(self).placeholders == old(self).placeholders,
            final(self).markdown_path == old(self).markdown_path,
            final(self).selected_index == old(self).selected_index,
            final(self).clipboard_image == old(self).clipboard_image,
            final(self).clipboard_dimensions == old(self).clipboard_dimensions,
            final(self).last_image_hash == old(self).last_image_hash,
            final(self).should_quit == old(self).should_quit,
            old(self).clipboard_image is None ==> r is None
                && final(self).status_message@ == "No image in clipboard!"@,
            old(self).clipboard_image is Some && old(self).placeholders@.len() == 0 ==> r is None
                && final(self).status_message@ == "No more placeholders!"@,
            old(self).clipboard_image is Some && old(self).placeholders@.len() > 0 ==> {
                let img = old(self).clipboard_image->Some_0;
                let target = old(self).placeholders@[old(self).selected_index as int].absolute_path@;
                exists|res: Result<PreparedSave, String>| {
                    &&& prepared_as(res, target, path_file_name(target), timestamp@, img)
                    &&& match res {
                        Ok(p) => r == Some(p) && final(self).status_message == old(self).status_message,
                        Err(e) => r is None && final(self).status_message@ == error_status(e@),
                    }
                }
            },
    {
        if self.clipboard_image.is_none() {
            self.status_message = String::from_str("No image in clipboard!");
            return None;
        }
        if self.placeholders.len() == 0 {
            self.status_message = String::from_str("No more placeholders!");
            return None;
        }
        let res = match &self.clipboard_image {
            Some(img) => save_image_to_path(img, self.placeholders[self.selected_index].absolute_path.as_str(), timestamp),
            None => return None,
        };
        match res {
            Ok(p) => Some(p),
            Err(e) => {
                let mut status = String::new();
                push_str(&mut status, "Error saving: ");
                push_str(&mut status, e.as_str());
                self.status_message = status;
                assert(prepared_as(Err(e), self.placeholders@[self.selected_index as int].absolute_path@,
                    path_file_name(self.placeholders@[self.selected_index as int].absolute_path@), timestamp@,
                    self.clipboard_image->Some_0));
                None
            },
        }
    }

    /// Applies the outcome of writing a prepared save to the selected target.
    /// On success the target leaves the list, the selection stays in range
    /// and the waiting image is used up. On failure nothing but the status
    /// changes: the waiting image stays, ready for another attempt.
    pub fn finish_save(&mut self, written: Result<ImageInfo, String>)
        requires
            old(self).wf(),
        ensures
            final(self).wf(),
            final(self).markdown_path == old(self).markdown_path,
            final(self).last_image_hash == old(self).last_image_hash,
            final(self).should_quit == old(self).should_quit,
            match written {
                Ok(info) => if old(self).placeholders@.len() > 0 {
                    let k = old(self).selected_index as int;
                    &&& final(self).placeholders@ == old(self).placeholders@.remove(k)
                    &&& final(self).placeholders@.len() == old(self).placeholders@.len() - 1
                    &&& final(self).selected_index == if k < final(self).placeholders@.len() || k == 0 {
                        k
                    } else {
                        final(self).placeholders@.len() - 1
                    }
                    &&& final(self).clipboard_image is None
                    &&& final(self).clipboard_dimensions is None
                    &&& final(self).status_message@ == if final(self).placeholders@.len() == 0 {
                        "All placeholders filled! Press q to quit."@
                    } else {
                        saved_status(info.filename@)
                    }
                } else {
                    *final(self) == *old(self)
                },
                Err(e) => {
                    &&& final(self).placeholders == old(self).placeholders
                    &&& final(self).selected_index == old(self).selected_index
                    &&& final(self).clipboard_image == old(self).clipboard_image
                    &&& final(self).clipboard_dimensions == old(self).clipboard_dimensions
                    &&& final(self).status_message@ == error_status(e@)
                },
            },
    {
        match written {
            Ok(info) => {
                if self.placeholders.len() == 0 {
                    return;
                }
                let mut status = String::new();
                push_str(&mut status, "Saved: ");
                push_str(&mut status, info.filename.as_str());
                self.placeholders.remove(self.selected_index);
                if self.placeholders.len() > 0 && self.selected_index >= self.placeholders.len() {
                    self.selected_index = self.placeholders.len() - 1;
                }
                self.clipboard_image = None;
                self.clipboard_dimensions = None;
                if self.placeholders.len() == 0 {
                    status = String::from_str("All placeholders filled! Press q to quit.");
                }
                self.status_message = status;
            },
            Err(e) => {
                let mut status = String::new();
                push_str(&mut status, "Error saving: ");
                push_str(&mut status, e.as_str());
                self.status_message = status;
            },
        }
    }

    /// Number of targets still to fill.
    pub fn remaining_count(&self) -> (r: usize)
        ensures
            r == self.placeholders@.len(),
    {
        self.placeholders.len()
    }

    /// Whether every target has been filled.
    pub fn all_done(&self) -> (r: bool)
        ensures
            r == (self.placeholders@.len() == 0),
    {
        self.placeholders.len() == 0
    }
}

} // verus!
