pub mod guard;
pub mod paths;
pub mod text;
pub mod roots;
pub mod grants;
pub mod registry;
pub mod updates;
pub mod dns;
pub mod activity;
pub mod mole;
pub mod media;
pub mod system;
pub mod scan;
pub mod catalogs;
pub mod brew;
pub mod hardware;
pub mod duplicates;
pub mod sensors;
pub mod install;
pub mod cleanup;
pub mod order;
pub mod login_items;
pub mod storage;
pub mod browse;
pub mod inventory;
pub mod network;
pub mod apfs;
pub mod app_updates;
pub mod staging;
pub mod universal;
pub mod maintenance;
pub mod settings;
pub mod status;
pub mod slot;
pub mod json;
pub mod digest;
pub mod disk_watch;
