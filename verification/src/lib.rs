//! Reads an Apple aggregate framework bundle (an XCFramework packed as a zip
//! container) and reports what it holds: the framework's name, the compiler
//! that built it, and for each platform and architecture variant the size of
//! the binary, the marketing version, the imported modules and the privacy
//! disclosure.
//!
//! The entry point is [`xcframework_processing::collect_framework_info`].

pub mod archive;
pub mod container;
pub mod error;
pub mod framework_info;
pub mod plist_source;
pub mod plist_tree;
pub mod size_text;
pub mod text;
pub mod utils;
pub mod xcframework_processing;
