//! Verified core of a Minecraft modpack manager.
use vstd::prelude::*;

pub mod text;
pub mod mod_names;
pub mod remote;
pub mod bootstrap;
pub mod instance_registry;
pub mod jar_deps;
pub mod file_identity;
pub mod tags;
pub mod mods;
pub mod provider_labels;
pub mod dependencies;
pub mod readiness;
pub mod server_control;
pub mod rcon;
pub mod ssh_util;
pub mod neoforge;
pub mod loader_update;
pub mod instance_meta;
pub mod settings;
pub mod server_sync;
pub mod updates;
pub mod catalog;
pub mod mods_watch;
pub mod provider_payloads;
pub mod tag_updates;
pub mod prefetch;
pub mod covers;
pub mod source_switch;
pub mod label_refresh;
pub mod install_catalog;
pub mod provider_search;
pub mod provider_versions;
pub mod mod_files;
pub mod provider_sync;
pub mod used_by;
pub mod caches;
pub mod pack_index;

verus! {

} // verus!
