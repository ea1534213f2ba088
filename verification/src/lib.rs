use vstd::prelude::*;

pub mod manager;
pub mod merge;
pub mod model;
pub mod partial;
pub mod paths;
pub mod value;

pub use crate::manager::{ConfigError, ConfigManager, TierFile};
pub use crate::merge::{deep_update, merge_configs_dict};
pub use crate::model::{ConfigModel, SchemaType};
pub use crate::partial::{parse_scalar, update_nested_value};
pub use crate::paths::{get_project_config_path, get_user_config_path, is_project_marker};
pub use crate::value::{ValView, Value};

verus! {

/// The version of this library.
pub fn version() -> (r: &'static str)
    ensures
        r@ == "0.1.0"@,
{
    "0.1.0"
}

} // verus!
