//! The per-mod labels stored for an instance.
use vstd::prelude::*;

verus! {

/// Side and category labels as a provider (Modrinth or CurseForge) reports them.
pub struct ProviderLabelsStore {
    pub fetched_at: String,
    pub source: String,
    pub client_side: String,
    pub server_side: String,
    pub categories: Vec<String>,
    pub additional_categories: Vec<String>,
    pub loaders: Vec<String>,
    pub game_versions: Vec<String>,
}

impl Default for ProviderLabelsStore {
    fn default() -> (r: Self)
        ensures
            r.fetched_at@.len() == 0,
            r.source@.len() == 0,
            r.client_side@.len() == 0,
            r.server_side@.len() == 0,
            r.categories@.len() == 0,
            r.additional_categories@.len() == 0,
            r.loaders@.len() == 0,
            r.game_versions@.len() == 0,
    {
        ProviderLabelsStore {
            fetched_at: String::new(),
            source: String::new(),
            client_side: String::new(),
            server_side: String::new(),
            categories: Vec::new(),
            additional_categories: Vec::new(),
            loaders: Vec::new(),
            game_versions: Vec::new(),
        }
    }
}

/// Which labels the user set by hand.
pub struct LabelOverridesStore {
    pub side_mode: String,
}

impl Default for LabelOverridesStore {
    fn default() -> (r: Self)
        ensures
            r.side_mode@.len() == 0,
    {
        LabelOverridesStore { side_mode: String::new() }
    }
}

/// The labels of one mod.
pub struct ModTags {
    pub side: String,
    pub library: bool,
    pub technical: bool,
    pub description: String,
    pub dependencies: Vec<String>,
    pub aliases: Vec<String>,
    pub source: String,
    pub modrinth_id: String,
    pub modrinth_version_id: String,
    pub curseforge_id: String,
    pub curseforge_file_id: String,
    pub curseforge_slug: String,
    pub display_name: String,
    pub provider_title: String,
    pub updated_at: String,
    pub provider_labels: ProviderLabelsStore,
    pub label_overrides: LabelOverridesStore,
}

impl Default for ModTags {
    fn default() -> (r: Self)
        ensures
            r.side@.len() == 0,
            !r.library,
            !r.technical,
            r.description@.len() == 0,
            r.dependencies@.len() == 0,
            r.aliases@.len() == 0,
            r.source@.len() == 0,
            r.modrinth_id@.len() == 0,
            r.modrinth_version_id@.len() == 0,
            r.curseforge_id@.len() == 0,
            r.curseforge_file_id@.len() == 0,
            r.curseforge_slug@.len() == 0,
            r.display_name@.len() == 0,
            r.provider_title@.len() == 0,
            r.updated_at@.len() == 0,
            r.provider_labels.fetched_at@.len() == 0,
            r.provider_labels.source@.len() == 0,
            r.provider_labels.client_side@.len() == 0,
            r.provider_labels.server_side@.len() == 0,
            r.provider_labels.categories@.len() == 0,
            r.provider_labels.additional_categories@.len() == 0,
            r.provider_labels.loaders@.len() == 0,
            r.provider_labels.game_versions@.len() == 0,
            r.label_overrides.side_mode@.len() == 0,
    {
        ModTags {
            side: String::new(),
            library: false,
            technical: false,
            description: String::new(),
            dependencies: Vec::new(),
            aliases: Vec::new(),
            source: String::new(),
            modrinth_id: String::new(),
            modrinth_version_id: String::new(),
            curseforge_id: String::new(),
            curseforge_file_id: String::new(),
            curseforge_slug: String::new(),
            display_name: String::new(),
            provider_title: String::new(),
            updated_at: String::new(),
            provider_labels: ProviderLabelsStore::default(),
            label_overrides: LabelOverridesStore::default(),
        }
    }
}

/// All labels of an instance, one entry per mod key.
pub struct TagFile {
    pub version: u8,
    pub updated_at: String,
    pub mods: Vec<(String, ModTags)>,
}

pub fn tag_file_version() -> (r: u8)
    ensures
        r == 1,
{
    1
}

} // verus!
