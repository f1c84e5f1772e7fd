//! Discovery, installation and removal of extensions for host applications
//! that load them from well-known directories, and the developer flag that
//! these hosts consult.
//!
//! The library decides; it never touches the disk. What it needs to know of
//! the disk it is told, and what is to be done there it tells.

pub mod debug_mode;
pub mod folders;
pub mod lifecycle;
pub mod manifest;
pub mod package;
pub mod registry;
pub mod text;

pub use debug_mode::{get_debug_mode, set_debug_mode};
pub use folders::{get_all_extension_folders, get_extensions_folder, Platform};
pub use lifecycle::{install_extension, uninstall_extension, InstallResult};
pub use manifest::{
    extract_attr, extract_text, format_host_name, parse_manifest_xml, ExtensionInfo, HostApp,
};
pub use package::get_extension_info_from_zxp;
pub use registry::{is_adobe_builtin, list_extensions};
