use vstd::prelude::*;

use crate::model::{spec_decode, spec_merge_models, ConfigModel};
use crate::paths::{
    get_project_config_path, get_user_config_path, project_config_path_vw, user_config_path_vw,
};
use crate::value::{ValView, Value};

verus! {

/// The unrecoverable conditions of configuration resolution.
#[derive(Debug, Clone, Copy, PartialEq, Eq, Structural)]
pub enum ConfigError {
    /// No configuration file exists in any tier, so resolving would
    /// silently hide a missing configuration.
    MissingConfig,
    /// A project-tier update was requested with no resolvable project root.
    MissingProjectRoot,
}

/// What one tier's file holds: no file at all, a file whose contents could
/// not be read or decoded, or a decoded document.
#[derive(Debug, PartialEq)]
pub enum TierFile {
    Absent,
    Invalid,
    Present(Value),
}

impl TierFile {
    /// The decoded document, where there is one.
    pub open spec fn doc(self) -> Option<ValView> {
        match self {
            TierFile::Present(v) => Some(v@),
            _ => None,
        }
    }

    /// A present document must be a well-formed dictionary.
    pub open spec fn wf(self) -> bool {
        self matches TierFile::Present(v) ==> v@.wf() && v@ is Dict
    }
}

/// The resolved configuration: the defaults, overlaid with the user tier's
/// decoded document, overlaid with the project tier's — project strongest,
/// then user, then default.
pub open spec fn spec_resolved(
    schema: ValView,
    user: Option<ValView>,
    project: Option<ValView>,
) -> ValView {
    let after_user = match user {
        Some(u) => spec_merge_models(schema, schema, spec_decode(schema, u)),
        None => schema,
    };
    match project {
        Some(p) => spec_merge_models(schema, after_user, spec_decode(schema, p)),
        None => after_user,
    }
}

/// Loads, merges, caches and updates the tiered configuration.  The tier
/// caches start uncomputed and fill on load; the resolved configuration is
/// always derived from the cached tiers and is invalidated by every update.
#[derive(Debug)]
pub struct ConfigManager {
    pub config_name: String,
    pub version: String,
    pub auto_create_user: bool,
    pub auto_create_project: bool,
    /// The tree of defaults that fixes every field's name, kind and
    /// default value.
    pub schema: Value,
    /// The cached resolved configuration; `None` means not yet computed.
    pub config: Option<ConfigModel>,
    pub default_config: Option<ConfigModel>,
    pub user_config: Option<ConfigModel>,
    pub project_config: Option<ConfigModel>,
    pub user_config_path: String,
    pub project_root: Option<String>,
    pub project_config_path: Option<String>,
}

impl ConfigManager {
    /// The manager's invariant: the schema is a well-formed dictionary,
    /// every cached tier is a valid model of that schema, and the cached
    /// default is the defaults themselves.
    pub open spec fn inv(&self) -> bool {
        &&& self.schema@.wf()
        &&& self.schema@ is Dict
        &&& (self.default_config matches Some(m) ==> m.inv() && m.schema@ == self.schema@
            && m.model@ == self.schema@)
        &&& (self.user_config matches Some(m) ==> m.inv() && m.schema@ == self.schema@)
        &&& (self.project_config matches Some(m) ==> m.inv() && m.schema@ == self.schema@)
        &&& (self.config matches Some(m) ==> m.inv() && m.schema@ == self.schema@)
    }

    /// The fields that no cache operation touches.
    pub open spec fn same_settings(&self, other: &Self) -> bool {
        &&& self.config_name == other.config_name
        &&& self.version == other.version
        &&& self.auto_create_user == other.auto_create_user
        &&& self.auto_create_project == other.auto_create_project
        &&& self.schema == other.schema
        &&& self.user_config_path == other.user_config_path
        &&& self.project_root == other.project_root
        &&& self.project_config_path == other.project_config_path
    }

    /// Set up a manager for one logical configuration name.  The user path
    /// is rooted at the home directory the environment names; the project
    /// path exists only when a project root is supplied.  No tier is loaded
    /// yet.
    pub fn new(
        config_name: &str,
        version: &str,
        auto_create_user: bool,
        auto_create_project: bool,
        schema: Value,
        project_root: Option<String>,
    ) -> (r: ConfigManager)
        requires
            schema@.wf(),
            schema@ is Dict,
        ensures
            r.inv(),
            r.config_name@ == config_name@,
            r.version@ == version@,
            r.auto_create_user == auto_create_user,
            r.auto_create_project == auto_create_project,
            r.schema@ == schema@,
            r.config is None,
            r.default_config is None,
            r.user_config is None,
            r.project_config is None,
            exists|home: Seq<char>| r.user_config_path@ == user_config_path_vw(home, config_name@),
            match project_root {
                Some(root) => {
                    &&& r.project_root matches Some(pr) && pr@ == root@
                    &&& r.project_config_path matches Some(p) && p@ == project_config_path_vw(
                        root@,
                        config_name@,
                    )
                },
                None => r.project_root is None && r.project_config_path is None,
            },
    {
        let user_config_path = get_user_config_path(config_name);
        let project_config_path = match &project_root {
            Some(root) => get_project_config_path(config_name, Some(root.as_str())),
            None => None,
        };
        ConfigManager {
            config_name: config_name.to_owned(),
            version: version.to_owned(),
            auto_create_user,
            auto_create_project,
            schema,
            config: None,
            default_config: None,
            user_config: None,
            project_config: None,
            user_config_path,
            project_root,
            project_config_path,
        }
    }

    /// Which configuration templates first-time setup should create: the
    /// user template when asked for, the project template when asked for
    /// and a project path exists.
    pub fn initialize(&self) -> (r: (bool, bool))
        ensures
            r.0 == self.auto_create_user,
            r.1 == (self.auto_create_project && self.project_config_path is Some),
    {
        (self.auto_create_user, self.auto_create_project && self.project_config_path.is_some())
    }

    /// Which missing templates a load should create before resolving,
    /// given which tier files exist.
    pub fn load_plan(&self, user_exists: bool, project_exists: bool) -> (r: (bool, bool))
        ensures
            r.0 == (!user_exists && self.auto_create_user),
            r.1 == (!project_exists && self.auto_create_project && self.project_config_path
                is Some),
    {
        (
            !user_exists && self.auto_create_user,
            !project_exists && self.auto_create_project && self.project_config_path.is_some(),
        )
    }

    /// The default configuration as a plain tree.
    fn get_default_dict(&self) -> (r: Value)
        requires
            self.schema@.wf(),
            self.schema@ is Dict,
        ensures
            r@ == self.schema@,
    {
        let default_model = ConfigModel::from_schema(self.schema.deep_copy(), None);
        default_model.to_dict()
    }

    /// Resolve the configuration from the tier files as they stand after
    /// any template creation.  If neither tier's file exists this is the
    /// one fatal condition: resolution fails rather than silently hand out
    /// bare defaults.  A file that exists but could not be decoded only
    /// loses its tier.  On success all tier caches and the resolved
    /// configuration are filled, and the resolved tree is returned.
    pub fn load(&mut self, user_file: TierFile, project_file: TierFile) -> (r: Result<
        Value,
        ConfigError,
    >)
        requires
            old(self).inv(),
            user_file.wf(),
            project_file.wf(),
            old(self).project_config_path is None ==> project_file is Absent,
        ensures
            final(self).inv(),
            final(self).same_settings(old(self)),
            r is Err <==> user_file is Absent && project_file is Absent,
            r matches Err(e) ==> e == ConfigError::MissingConfig && *final(self) == *old(self),
            r matches Ok(v) ==> {
                &&& final(self).default_config matches Some(dm) && dm.model@ == old(self).schema@
                &&& match user_file.doc() {
                    Some(d) => final(self).user_config matches Some(m) && m.model@ == spec_decode(
                        old(self).schema@,
                        d,
                    ),
                    None => final(self).user_config is None,
                }
                &&& match project_file.doc() {
                    Some(d) => final(self).project_config matches Some(m) && m.model@
                        == spec_decode(old(self).schema@, d),
                    None => final(self).project_config is None,
                }
                &&& final(self).config matches Some(m) && m.model@ == spec_resolved(
                    old(self).schema@,
                    user_file.doc(),
                    project_file.doc(),
                )
                &&& v@ == spec_resolved(old(self).schema@, user_file.doc(), project_file.doc())
            },
    {
        let user_absent = match &user_file {
            TierFile::Absent => true,
            _ => false,
        };
        let project_absent = match &project_file {
            TierFile::Absent => true,
            _ => false,
        };
        if user_absent && project_absent {
            return Err(ConfigError::MissingConfig);
        }
        let default_config_model = ConfigModel::from_schema(self.schema.deep_copy(), None);
        let user_config_model = match user_file {
            TierFile::Present(doc) => Some(
                ConfigModel::from_schema(self.schema.deep_copy(), Some(doc)),
            ),
            _ => None,
        };
        let project_config_model = match project_file {
            TierFile::Present(doc) => Some(
                ConfigModel::from_schema(self.schema.deep_copy(), Some(doc)),
            ),
            _ => None,
        };
        let mut merged_config_model = ConfigModel::from_schema(self.schema.deep_copy(), None);
        if let Some(user_config) = &user_config_model {
            merged_config_model = merged_config_model.merge(user_config);
        }
        if let Some(project_config) = &project_config_model {
            merged_config_model = merged_config_model.merge(project_config);
        }
        let resolved = merged_config_model.to_dict();
        self.default_config = Some(default_config_model);
        self.user_config = user_config_model;
        self.project_config = project_config_model;
        self.config = Some(merged_config_model);
        Ok(resolved)
    }

    /// The resolved configuration from the cached tiers: the default
    /// overlaid with the cached user tier, overlaid with the cached
    /// project tier.
    pub open spec fn cached_resolved(&self) -> ValView {
        let schema = self.schema@;
        let after_user = match self.user_config {
            Some(um) => spec_merge_models(schema, schema, um.model@),
            None => schema,
        };
        match self.project_config {
            Some(pm) => spec_merge_models(schema, after_user, pm.model@),
            None => after_user,
        }
    }

    /// The current resolved configuration: the cached tree where one is
    /// cached, else recomputed from the cached tiers and memoized.  `None`
    /// only before any load: nothing is cached to resolve from.
    pub fn config(&mut self) -> (r: Option<Value>)
        requires
            old(self).inv(),
        ensures
            final(self).inv(),
            final(self).same_settings(old(self)),
            final(self).default_config == old(self).default_config,
            final(self).user_config == old(self).user_config,
            final(self).project_config == old(self).project_config,
            old(self).config matches Some(m) ==> final(self).config == old(self).config && (r
                matches Some(v) && v@ == m.model@),
            old(self).config is None && old(self).default_config is Some ==> {
                &&& final(self).config matches Some(m) && m.model@ == old(self).cached_resolved()
                &&& r matches Some(v) && v@ == old(self).cached_resolved()
            },
            old(self).config is None && old(self).default_config is None ==> r is None
                && *final(self) == *old(self),
    {
        if let Some(m) = &self.config {
            return Some(m.to_dict());
        }
        if self.default_config.is_none() {
            return None;
        }
        let mut merged = ConfigModel::from_schema(self.schema.deep_copy(), None);
        if let Some(um) = &self.user_config {
            merged = merged.merge(um);
        }
        if let Some(pm) = &self.project_config {
            merged = merged.merge(pm);
        }
        let resolved = merged.to_dict();
        self.config = Some(merged);
        Some(resolved)
    }

    /// The default configuration's tree; computes and caches the default
    /// tier on first use.
    pub fn get_default_config(&mut self) -> (r: Value)
        requires
            old(self).inv(),
        ensures
            final(self).inv(),
            final(self).same_settings(old(self)),
            final(self).config == old(self).config,
            final(self).user_config == old(self).user_config,
            final(self).project_config == old(self).project_config,
            final(self).default_config is Some,
            r@ == old(self).schema@,
    {
        if self.default_config.is_none() {
            self.default_config = Some(ConfigModel::from_schema(self.schema.deep_copy(), None));
        }
        match &self.default_config {
            Some(m) => m.to_dict(),
            None => {
                proof {
                    assert(false);
                }
                Value::Null
            },
        }
    }

    /// The user tier's decoded document tree: from the cache where loaded,
    /// else decoded from the given file state and cached.  `None` where no
    /// usable user file exists.
    pub fn get_user_config(&mut self, file: TierFile) -> (r: Option<Value>)
        requires
            old(self).inv(),
            file.wf(),
        ensures
            final(self).inv(),
            final(self).same_settings(old(self)),
            final(self).config == old(self).config,
            final(self).default_config == old(self).default_config,
            final(self).project_config == old(self).project_config,
            old(self).user_config matches Some(m) ==> final(self).user_config == old(
                self,
            ).user_config && (r matches Some(v) && v@ == m.model@),
            old(self).user_config is None ==> match file.doc() {
                Some(d) => final(self).user_config matches Some(m) && m.model@ == spec_decode(
                    old(self).schema@,
                    d,
                ) && (r matches Some(v) && v@ == m.model@),
                None => r is None && *final(self) == *old(self),
            },
    {
        if let Some(m) = &self.user_config {
            return Some(m.to_dict());
        }
        match file {
            TierFile::Present(doc) => {
                let m = ConfigModel::from_schema(self.schema.deep_copy(), Some(doc));
                let r = m.to_dict();
                self.user_config = Some(m);
                Some(r)
            },
            _ => None,
        }
    }

    /// The project tier's decoded document tree, as `get_user_config` for
    /// the project file.  Without a project path there is no project tier.
    pub fn get_project_config(&mut self, file: TierFile) -> (r: Option<Value>)
        requires
            old(self).inv(),
            file.wf(),
            old(self).project_config_path is None ==> file is Absent,
        ensures
            final(self).inv(),
            final(self).same_settings(old(self)),
            final(self).config == old(self).config,
            final(self).default_config == old(self).default_config,
            final(self).user_config == old(self).user_config,
            old(self).project_config matches Some(m) ==> final(self).project_config == old(
                self,
            ).project_config && (r matches Some(v) && v@ == m.model@),
            old(self).project_config is None ==> match file.doc() {
                Some(d) => final(self).project_config matches Some(m) && m.model@ == spec_decode(
                    old(self).schema@,
                    d,
                ) && (r matches Some(v) && v@ == m.model@),
                None => r is None && *final(self) == *old(self),
            },
    {
        if let Some(m) = &self.project_config {
            return Some(m.to_dict());
        }
        match file {
            TierFile::Present(doc) => {
                let m = ConfigModel::from_schema(self.schema.deep_copy(), Some(doc));
                let r = m.to_dict();
                self.project_config = Some(m);
                Some(r)
            },
            _ => None,
        }
    }

    /// The tier model an update starts from: the cached model where one is
    /// loaded, else the given on-disk tree (or nothing) decoded against the
    /// schema.
    pub open spec fn update_base(
        schema: ValView,
        cached: Option<ConfigModel>,
        on_disk: Option<ValView>,
    ) -> ValView {
        match cached {
            Some(m) => m.model@,
            None => match on_disk {
                Some(d) => spec_decode(schema, d),
                None => spec_decode(schema, ValView::Dict(Seq::empty())),
            },
        }
    }

    /// Apply a partial update to the user tier: deep-merge it over the
    /// tier's current tree, cache the re-decoded result, invalidate the
    /// resolved configuration, and hand back the tree to persist at
    /// `user_config_path`.  `on_disk` is the user file's current document
    /// for the case where the tier is not yet cached; `None` stands for a
    /// missing or undecodable file.
    pub fn update_user_config(&mut self, config_update: Value, on_disk: Option<Value>) -> (r:
        Value)
        requires
            old(self).inv(),
            config_update@.wf(),
            config_update@ is Dict,
            on_disk matches Some(d) ==> d@.wf(),
        ensures
            final(self).inv(),
            final(self).same_settings(old(self)),
            final(self).default_config == old(self).default_config,
            final(self).project_config == old(self).project_config,
            final(self).config is None,
            ({
                let base = Self::update_base(
                    old(self).schema@,
                    old(self).user_config,
                    match on_disk {
                        Some(d) => Some(d@),
                        None => None,
                    },
                );
                &&& final(self).user_config matches Some(m) && m.model@ == spec_merge_models(
                    old(self).schema@,
                    base,
                    config_update@,
                )
                &&& r@ == spec_merge_models(old(self).schema@, base, config_update@)
            }),
    {
        let mut current = match &self.user_config {
            Some(m) => m.clone(),
            None => {
                let existing = match on_disk {
                    Some(d) => Some(d),
                    None => Some(Value::Dict(Vec::new())),
                };
                proof {
                    assert(crate::value::entries_vw(Seq::<(String, Value)>::empty())
                        =~= Seq::<(Seq<char>, ValView)>::empty());
                }
                ConfigModel::from_schema(self.schema.deep_copy(), existing)
            },
        };
        current.update(config_update);
        let updated_config = current.to_dict();
        self.user_config = Some(current);
        self.config = None;
        updated_config
    }

    /// Apply a partial update to the project tier, as `update_user_config`
    /// for the project file.  With no resolvable project path there is
    /// nothing to update: the one other fatal condition.
    pub fn update_project_config(&mut self, config_update: Value, on_disk: Option<Value>) -> (r:
        Result<Value, ConfigError>)
        requires
            old(self).inv(),
            config_update@.wf(),
            config_update@ is Dict,
            on_disk matches Some(d) ==> d@.wf(),
        ensures
            final(self).inv(),
            final(self).same_settings(old(self)),
            r is Err <==> old(self).project_config_path is None,
            r matches Err(e) ==> e == ConfigError::MissingProjectRoot && *final(self) == *old(
                self,
            ),
            r matches Ok(v) ==> {
                let base = Self::update_base(
                    old(self).schema@,
                    old(self).project_config,
                    match on_disk {
                        Some(d) => Some(d@),
                        None => None,
                    },
                );
                &&& final(self).default_config == old(self).default_config
                &&& final(self).user_config == old(self).user_config
                &&& final(self).config is None
                &&& final(self).project_config matches Some(m) && m.model@ == spec_merge_models(
                    old(self).schema@,
                    base,
                    config_update@,
                )
                &&& v@ == spec_merge_models(old(self).schema@, base, config_update@)
            },
    {
        if self.project_config_path.is_none() {
            return Err(ConfigError::MissingProjectRoot);
        }
        let mut current = match &self.project_config {
            Some(m) => m.clone(),
            None => {
                let existing = match on_disk {
                    Some(d) => Some(d),
                    None => Some(Value::Dict(Vec::new())),
                };
                proof {
                    assert(crate::value::entries_vw(Seq::<(String, Value)>::empty())
                        =~= Seq::<(Seq<char>, ValView)>::empty());
                }
                ConfigModel::from_schema(self.schema.deep_copy(), existing)
            },
        };
        current.update(config_update);
        let updated_config = current.to_dict();
        self.project_config = Some(current);
        self.config = None;
        Ok(updated_config)
    }

    /// The user-tier template: the path the user file lives at, and the
    /// default document to write there.  Writing is the caller's part, and
    /// only where no file exists yet — existing content is never
    /// overwritten by template creation.
    pub fn create_user_config_template(&self) -> (r: (String, Value))
        requires
            self.inv(),
        ensures
            r.0@ == self.user_config_path@,
            r.1@ == self.schema@,
    {
        (self.user_config_path.clone(), self.get_default_dict())
    }

    /// The project-tier template under the given project directory: the
    /// path `<path>/.<name>/config.yaml`, and the default document to write
    /// there if no file exists yet.
    pub fn create_project_config_template(&self, path: &str) -> (r: (String, Value))
        requires
            self.inv(),
        ensures
            r.0@ == project_config_path_vw(path@, self.config_name@),
            r.1@ == self.schema@,
    {
        let config_file = match get_project_config_path(self.config_name.as_str(), Some(path)) {
            Some(p) => p,
            None => {
                proof {
                    assert(false);
                }
                String::new()
            },
        };
        (config_file, self.get_default_dict())
    }
}

} // verus!
