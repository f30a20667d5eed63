//! Where the editor's files live: paths inside the source repository, and
//! the configuration and log files. Paths are strings joined with `'/'`.

use vstd::prelude::*;
use vstd::string::{StrSliceExecFns, StringExecFns};

verus! {

/// `part` appended to `base`, with a `'/'` between them unless `base` is
/// empty or already ends with one.
pub open spec fn joined(base: Seq<char>, part: Seq<char>) -> Seq<char> {
    if base.len() == 0 {
        part
    } else if base.last() == '/' {
        base + part
    } else {
        base + seq!['/'] + part
    }
}

/// `part` appended to `base` as a path component.
pub fn join_path(base: &str, part: &str) -> (r: String)
    ensures
        r@ == joined(base@, part@),
{
    let n = base.unicode_len();
    if n == 0 {
        return String::from_str(part);
    }
    let mut r = String::from_str(base);
    if base.get_char(n - 1) != '/' {
        r.append("/");
        proof {
            reveal_strlit("/");
        }
    }
    r.append(part);
    r
}

/// The version file of the repository rooted at `root`.
pub fn version(root: &str) -> (r: String)
    ensures
        r@ == joined(root@, "VERSION"@),
{
    join_path(root, "VERSION")
}

/// Where generated book pages go.
pub fn book_gen(root: &str) -> (r: String)
    ensures
        r@ == joined(root@, "book/src/generated/"@),
{
    join_path(root, "book/src/generated/")
}

/// The syntax-tree query files.
pub fn ts_queries(root: &str) -> (r: String)
    ensures
        r@ == joined(root@, "runtime/queries"@),
{
    join_path(root, "runtime/queries")
}

/// The bundled themes.
pub fn themes(root: &str) -> (r: String)
    ensures
        r@ == joined(root@, "runtime/themes"@),
{
    join_path(root, "runtime/themes")
}

/// The default language configuration.
pub fn default_lang_configs(root: &str) -> (r: String)
    ensures
        r@ == joined(root@, "helix-config/src/language_config/languages.toml"@),
{
    join_path(root, "helix-config/src/language_config/languages.toml")
}

/// The default theme.
pub fn default_theme(root: &str) -> (r: String)
    ensures
        r@ == joined(root@, "helix-config/src/theme_config/theme.toml"@),
{
    join_path(root, "helix-config/src/theme_config/theme.toml")
}

/// The default theme for terminals with sixteen colors.
pub fn default_base16_theme(root: &str) -> (r: String)
    ensures
        r@ == joined(root@, "helix-config/src/theme_config/base16_theme.toml"@),
{
    join_path(root, "helix-config/src/theme_config/base16_theme.toml")
}

/// The configuration file: the one specified, else `config.toml` in `config_dir`.
pub fn config_file(specified_file: Option<String>, config_dir: &str) -> (r: String)
    ensures
        r@ == match specified_file {
            Some(f) => f@,
            None => joined(config_dir@, "config.toml"@),
        },
{
    match specified_file {
        Some(f) => f,
        None => join_path(config_dir, "config.toml"),
    }
}

/// The log file: the one specified, else `helix.log` in `cache_dir`.
pub fn log_file(specified_file: Option<String>, cache_dir: &str) -> (r: String)
    ensures
        r@ == match specified_file {
            Some(f) => f@,
            None => joined(cache_dir@, "helix.log"@),
        },
{
    match specified_file {
        Some(f) => f,
        None => join_path(cache_dir, "helix.log"),
    }
}

/// The user's language configuration file in `config_dir`.
pub fn lang_config_file(config_dir: &str) -> (r: String)
    ensures
        r@ == joined(config_dir@, "languages.toml"@),
{
    join_path(config_dir, "languages.toml")
}

} // verus!
