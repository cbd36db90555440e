//! Where the application keeps its files: the data directory (a portable
//! folder beside the executable, else a per-user platform directory) and
//! the fixed names below it. Creating directories is left to the program
//! around the library.
use vstd::prelude::*;
use crate::text::{copy_str, opt_view};

verus! {

/// The folder name under which all data lives, kept from older releases.
pub open spec fn storage_name() -> Seq<char> {
    "soziopolis_lingq_tool"@
}

/// A single normal path component: non-empty, not `.` or `..`, without
/// separators or drive colons.
pub open spec fn plain_component(name: Seq<char>) -> bool {
    &&& name.len() > 0
    &&& !(name.len() == 1 && name[0] == '.')
    &&& !(name.len() == 2 && name[0] == '.' && name[1] == '.')
    &&& forall|i: int| 0 <= i < name.len() ==> name[i] != '/' && name[i] != '\\' && name[i] != ':'
}

/// A separator on some platform.
pub open spec fn any_separator(c: char) -> bool {
    c == '/' || c == '\\'
}

/// `base` begins like a Windows verbatim path (`\\?\`), whose pushes
/// Windows normalizes.
pub open spec fn verbatim_like(base: Seq<char>) -> bool {
    &&& base.len() >= 3
    &&& any_separator(base[0])
    &&& any_separator(base[1])
    &&& base[2] == '?'
}

/// `base` is a bare drive prefix such as `C:`.
pub open spec fn drive_prefix(base: Seq<char>) -> bool {
    &&& base.len() == 2
    &&& base[1] == ':'
    &&& (('a' <= base[0] && base[0] <= 'z') || ('A' <= base[0] && base[0] <= 'Z'))
}

/// `r` is `base` with the component `name` pushed onto it as `PathBuf::push`
/// does: an empty base gives `name`; a base ending in `/` (a separator
/// everywhere) is followed by `name` directly; a base ending in `\` (a
/// separator on Windows only) or a bare drive prefix (on Windows only
/// joined without separator) is followed by `name` directly or after `/`;
/// any other base is followed by one separator, `/` or `\` by platform,
/// then `name`. A base that begins like a verbatim path is normalized on
/// Windows, so there the result is left open.
pub open spec fn joined(base: Seq<char>, name: Seq<char>, r: Seq<char>) -> bool {
    if verbatim_like(base) {
        true
    } else if base.len() == 0 {
        r == name
    } else if base.last() == '/' {
        r == base + name
    } else if base.last() == '\\' || drive_prefix(base) {
        r == base + name || r == base + seq!['/'] + name
    } else {
        r == base + seq!['/'] + name || r == base + seq!['\\'] + name
    }
}

/// Appends `name` to `base` with `std::path::Path::join`. The contract
/// claims what `PathBuf::push` does with a relative one-component argument:
/// `name` follows `base`, after the platform's separator unless `base` is
/// empty, already ends in a separator, or (on Windows) is a bare drive
/// prefix. The separator is `/` on Unix and `\\` on Windows; the contract
/// leaves open which platform it is. On Windows a verbatim base (`\\?\`)
/// is normalized by the push, so for a base that begins like one nothing
/// is claimed.
#[verifier::external_body]
fn path_join(base: &str, name: &str) -> (r: String)
    requires
        plain_component(name@),
    ensures
        joined(base@, name@, r@),
{
    std::path::Path::new(base).join(name).to_string_lossy().into_owned()
}

/// The base directory: the platform's local data directory, else the
/// `LOCALAPPDATA` variable, else the working directory, else the temp dir.
pub open spec fn base_root_spec(
    platform_dir: Option<Seq<char>>,
    env_dir: Option<Seq<char>>,
    cwd: Option<Seq<char>>,
    temp_dir: Seq<char>,
) -> Seq<char> {
    match platform_dir {
        Some(p) => p,
        None => match env_dir {
            Some(e) => e,
            None => match cwd {
                Some(c) => c,
                None => temp_dir,
            },
        },
    }
}

/// The first available of the candidate base directories.
pub fn resolve_base_data_root(
    platform_dir: Option<String>,
    env_dir: Option<String>,
    cwd: Option<String>,
    temp_dir: String,
) -> (root: String)
    ensures
        root@ == base_root_spec(opt_view(platform_dir), opt_view(env_dir), opt_view(cwd), temp_dir@),
{
    match platform_dir {
        Some(p) => p,
        None => match env_dir {
            Some(e) => e,
            None => match cwd {
                Some(c) => c,
                None => temp_dir,
            },
        },
    }
}

/// The data directory: the portable directory when there is one, else the
/// storage folder under the base directory.
pub fn resolve_data_dir(
    portable_dir: Option<String>,
    platform_dir: Option<String>,
    env_dir: Option<String>,
    cwd: Option<String>,
    temp_dir: String,
) -> (dir: String)
    ensures
        portable_dir matches Some(p) ==> dir@ == p@,
        portable_dir is None ==> joined(
            base_root_spec(opt_view(platform_dir), opt_view(env_dir), opt_view(cwd), temp_dir@),
            storage_name(),
            dir@,
        ),
{
    if let Some(path) = portable_dir {
        return path;
    }
    let base = resolve_base_data_root(platform_dir, env_dir, cwd, temp_dir);
    proof {
        reveal_strlit("soziopolis_lingq_tool");
    }
    path_join(base.as_str(), "soziopolis_lingq_tool")
}

/// The portable data directory beside an executable in `exe_dir`, given
/// whether `exe_dir/data` and `exe_dir/portable_data` are directories;
/// `data` wins when both are.
pub fn portable_data_dir_for(exe_dir: &str, data_is_dir: bool, portable_data_is_dir: bool) -> (dir:
    Option<String>)
    ensures
        data_is_dir ==> (dir matches Some(d) && exists|mid: Seq<char>|
            joined(exe_dir@, "data"@, mid) && joined(mid, storage_name(), d@)),
        !data_is_dir && portable_data_is_dir ==> (dir matches Some(d) && exists|mid: Seq<char>|
            joined(exe_dir@, "portable_data"@, mid) && joined(mid, storage_name(), d@)),
        !data_is_dir && !portable_data_is_dir ==> dir is None,
{
    proof {
        reveal_strlit("data");
        reveal_strlit("portable_data");
        reveal_strlit("soziopolis_lingq_tool");
    }
    if data_is_dir {
        let candidate = path_join(exe_dir, "data");
        return Some(path_join(candidate.as_str(), "soziopolis_lingq_tool"));
    }
    if portable_data_is_dir {
        let candidate = path_join(exe_dir, "portable_data");
        return Some(path_join(candidate.as_str(), "soziopolis_lingq_tool"));
    }
    None
}

/// The settings file in the data directory.
pub fn settings_path(data_dir: &str) -> (p: String)
    ensures
        joined(data_dir@, "settings.json"@, p@),
{
    proof {
        reveal_strlit("settings.json");
    }
    path_join(data_dir, "settings.json")
}

/// The SQLite database in the data directory.
pub fn database_path(data_dir: &str) -> (p: String)
    ensures
        joined(data_dir@, "soziopolis_lingq_tool.db"@, p@),
{
    proof {
        reveal_strlit("soziopolis_lingq_tool.db");
    }
    path_join(data_dir, "soziopolis_lingq_tool.db")
}

/// The log directory in the data directory.
pub fn logs_dir(data_dir: &str) -> (p: String)
    ensures
        joined(data_dir@, "logs"@, p@),
{
    proof {
        reveal_strlit("logs");
    }
    path_join(data_dir, "logs")
}

/// The application log file in the log directory of the data directory.
pub fn app_log_path(data_dir: &str) -> (p: String)
    ensures
        exists|logs: Seq<char>| joined(data_dir@, "logs"@, logs) && joined(logs, "soziopolis-reader.log"@, p@),
{
    let logs = logs_dir(data_dir);
    proof {
        reveal_strlit("soziopolis-reader.log");
    }
    path_join(logs.as_str(), "soziopolis-reader.log")
}

/// The support-bundle directory in the data directory.
pub fn support_bundles_dir(data_dir: &str) -> (p: String)
    ensures
        joined(data_dir@, "support_bundles"@, p@),
{
    proof {
        reveal_strlit("support_bundles");
    }
    path_join(data_dir, "support_bundles")
}

/// The browse-cache directory in the data directory.
pub fn browse_cache_dir(data_dir: &str) -> (p: String)
    ensures
        joined(data_dir@, "browse_cache"@, p@),
{
    proof {
        reveal_strlit("browse_cache");
    }
    path_join(data_dir, "browse_cache")
}

} // verus!
