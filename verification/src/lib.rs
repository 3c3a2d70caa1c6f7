use vstd::prelude::*;

pub mod text;
pub mod cloud_items;
pub mod cloud_tree;
pub mod external;
pub mod scan_table;
pub mod onedrive;
pub mod oauth;
pub mod retry;
pub mod google_drive;
pub mod scan;
pub mod ssh;
pub mod ssh_mas;
pub mod oauth_config;
pub mod window_style;
pub mod temp_files;
pub mod local_files;
pub mod updates;
pub mod instance;
