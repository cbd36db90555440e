use soziopolis_lingq_tool::app_paths::{
    app_log_path, database_path, portable_data_dir_for,
    resolve_base_data_root, resolve_data_dir, settings_path,
};
use soziopolis_lingq_tool::logging::log_path;
#[test]
fn resolve_base_data_root_prefers_platform_dir() {
    let platform = String::from(r"C:\Users\Alice\AppData\Local");
    let env_dir = String::from(r"D:\Fallback");
    let cwd = String::from(r"E:\Workspace");

    let resolved = resolve_base_data_root(
        Some(platform.clone()),
        Some(env_dir),
        Some(cwd),
        String::from(r"F:\Temp"),
    );

    assert_eq!(resolved, platform);
}

#[test]
fn resolve_base_data_root_falls_back_without_hardcoded_user_path() {
    let env_dir = String::from(r"D:\LocalAppData");
    let cwd = String::from(r"E:\Workspace");

    let resolved = resolve_base_data_root(None, Some(env_dir.clone()), Some(cwd), String::from(r"F:\Temp"));

    assert_eq!(resolved, env_dir);
    assert!(!resolved.contains(r"\Users\Admin\"));
}

#[test]
fn portable_data_layout_beside_executable_wins_over_local_app_data() {
    let exe_dir = "/opt/soziopolis_portable_data_layout";
    let local_app_data = "/opt/soziopolis_portable_data_layout/LocalAppData";

    let resolved = resolve_data_dir(
        portable_data_dir_for(exe_dir, true, false),
        None,
        Some(local_app_data.to_owned()),
        None,
        String::from("/opt/soziopolis_portable_data_layout/Temp"),
    );

    assert_eq!(resolved, "/opt/soziopolis_portable_data_layout/data/soziopolis_lingq_tool");
    assert!(!resolved.starts_with(local_app_data));
}

#[test]
fn portable_data_layout_supports_legacy_portable_data_folder() {
    let exe_dir = "/opt/soziopolis_portable_legacy_layout";

    let resolved = resolve_data_dir(
        portable_data_dir_for(exe_dir, false, true),
        None,
        Some(String::from(r"D:\LocalAppData")),
        None,
        String::from("/opt/soziopolis_portable_legacy_layout/Temp"),
    );

    assert_eq!(resolved, "/opt/soziopolis_portable_legacy_layout/portable_data/soziopolis_lingq_tool");
}

#[test]
fn portable_data_layout_prefers_data_when_both_portable_folders_exist() {
    let exe_dir = "/opt/soziopolis_portable_both_layouts";

    let resolved = portable_data_dir_for(exe_dir, true, true).expect("portable layout");

    assert_eq!(resolved, "/opt/soziopolis_portable_both_layouts/data/soziopolis_lingq_tool");
}

#[test]
fn missing_portable_folders_are_not_invented() {
    assert_eq!(portable_data_dir_for("/nonexistent/soziopolis/exe_dir", false, false), None);
    assert_eq!(
        portable_data_dir_for("C:", true, false).as_deref(),
        Some("C:/data/soziopolis_lingq_tool")
    );
}

#[test]
fn default_data_dir_appends_storage_folder_to_base() {
    let resolved = resolve_data_dir(None, None, None, None, String::from("/tmp/base"));
    assert_eq!(resolved, "/tmp/base/soziopolis_lingq_tool");
    let with_platform = resolve_data_dir(
        None,
        Some(String::from("/home/u/.local/share")),
        Some(String::from("/env")),
        None,
        String::from("/tmp"),
    );
    assert_eq!(with_platform, "/home/u/.local/share/soziopolis_lingq_tool");
}

#[test]
fn portable_dir_given_wins_over_every_base() {
    let resolved = resolve_data_dir(
        Some(String::from("/exe/data/soziopolis_lingq_tool")),
        Some(String::from("/platform")),
        Some(String::from("/env")),
        Some(String::from("/cwd")),
        String::from("/tmp"),
    );
    assert_eq!(resolved, "/exe/data/soziopolis_lingq_tool");
}

#[test]
fn base_root_falls_back_to_cwd_then_temp() {
    assert_eq!(
        resolve_base_data_root(None, None, Some(String::from("/cwd")), String::from("/tmp")),
        "/cwd"
    );
    assert_eq!(resolve_base_data_root(None, None, None, String::from("/tmp")), "/tmp");
}

#[test]
fn portable_dir_choice_from_probe_results() {
    assert_eq!(portable_data_dir_for("/exe", true, true).as_deref(), Some("/exe/data/soziopolis_lingq_tool"));
    assert_eq!(
        portable_data_dir_for("/exe", false, true).as_deref(),
        Some("/exe/portable_data/soziopolis_lingq_tool")
    );
    assert_eq!(portable_data_dir_for("/exe", false, false), None);
}

#[test]
fn files_live_in_the_data_directory() {
    assert_eq!(settings_path("/d"), "/d/settings.json");
    assert_eq!(database_path("/d"), "/d/soziopolis_lingq_tool.db");
    assert_eq!(app_log_path("/d"), "/d/logs/soziopolis-reader.log");
    assert_eq!(settings_path("/d/"), "/d/settings.json");
}

#[test]
fn log_path_prefers_the_opened_file() {
    assert_eq!(log_path(Some(String::from("/x.log")), Some(String::from("/d"))).as_deref(), Some("/x.log"));
    assert_eq!(log_path(None, Some(String::from("/d"))).as_deref(), Some("/d/logs/soziopolis-reader.log"));
    assert_eq!(log_path(None, None), None);
}
