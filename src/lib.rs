//! Clipboard image capture: pixel buffers and their fingerprints, markdown
//! image references, deterministic file naming, thumbnails, the interactive
//! placeholder-filling state machine and the background monitor's state.
pub mod pixels;
pub mod text;
pub mod markdown;
pub mod paths;
pub mod storage;
pub mod clipboard;
pub mod app;

pub use app::App;
pub use clipboard::{ClipboardMonitor, MonitorWorker};
pub use markdown::{get_unfilled_placeholders, parse_markdown, ImagePlaceholder};
pub use pixels::{FingerprintTracker, RawImage};
pub use storage::{list_saved_images, save_image, save_image_to_path, ImageInfo, PreparedSave, StoredFile};
