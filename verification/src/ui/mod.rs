//! The decisions behind the text menus.

pub mod devices;
pub mod menus;
pub mod sources;

pub use crate::ui::devices::{
    is_likely_system_disk, normalize_to_whole_disk, same_device_warning,
};
pub use crate::ui::menus::{
    clone_menu, main_menu, scan_menu, scan_menu_with_source, CloneConfig, MainMenuChoice,
    ScanConfig,
};
