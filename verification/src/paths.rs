use vstd::prelude::*;

verus! {

/// The user-tier configuration file under a given home directory:
/// `<home>/.zeeland/<name>/config.yaml`.
pub open spec fn user_config_path_vw(home: Seq<char>, name: Seq<char>) -> Seq<char> {
    home + "/.zeeland/"@ + name + "/config.yaml"@
}

/// The project-tier configuration file under a given project root:
/// `<root>/.<name>/config.yaml`.
pub open spec fn project_config_path_vw(root: Seq<char>, name: Seq<char>) -> Seq<char> {
    root + "/."@ + name + "/config.yaml"@
}

/// The user-tier configuration path rooted at an explicit home directory.
pub fn user_config_path_in(home: &str, config_name: &str) -> (r: String)
    ensures
        r@ == user_config_path_vw(home@, config_name@),
{
    let mut s = home.to_owned();
    s.append("/.zeeland/");
    s.append(config_name);
    s.append("/config.yaml");
    s
}

/// Relies on dirs::home_dir: the home directory the environment names, if
/// any, as a string.  The value depends on the environment, so nothing is
/// promised of it.
#[verifier::external_body]
fn home_dir_string() -> (r: Option<String>) {
    dirs::home_dir().and_then(|p| p.to_str().map(|s| s.to_owned()))
}

/// The path to the user-level configuration file: rooted at the home
/// directory the environment names, falling back to the current directory
/// (`.`) where none is named.  Never fails.
pub fn get_user_config_path(config_name: &str) -> (r: String)
    ensures
        exists|home: Seq<char>| r@ == user_config_path_vw(home, config_name@),
{
    let home = match home_dir_string() {
        Some(h) => h,
        None => ".".to_owned(),
    };
    let r = user_config_path_in(home.as_str(), config_name);
    proof {
        assert(r@ == user_config_path_vw(home@, config_name@));
    }
    r
}

/// The path to the project-level configuration file, given the project
/// root.  Without a root no project configuration is addressable, and the
/// answer is `None`.
pub fn get_project_config_path(config_name: &str, project_path: Option<&str>) -> (r: Option<
    String,
>)
    ensures
        match project_path {
            Some(root) => r matches Some(p) && p@ == project_config_path_vw(root@, config_name@),
            None => r is None,
        },
{
    match project_path {
        Some(root) => {
            let mut s = root.to_owned();
            s.append("/.");
            s.append(config_name);
            s.append("/config.yaml");
            Some(s)
        },
        None => None,
    }
}

/// Whether a directory entry marks a project root: a version-control
/// directory, a Python project manifest or setup script, a JS package
/// manifest, or a Rust package manifest.
pub fn is_project_marker(name: &str) -> (r: bool)
    ensures
        r == (name@ == ".git"@ || name@ == "pyproject.toml"@ || name@ == "setup.py"@ || name@
            == "package.json"@ || name@ == "Cargo.toml"@),
{
    let n = name.to_owned();
    let r = n == String::from_str(".git") || n == String::from_str("pyproject.toml") || n
        == String::from_str("setup.py") || n == String::from_str("package.json") || n
        == String::from_str("Cargo.toml");
    r
}

} // verus!
