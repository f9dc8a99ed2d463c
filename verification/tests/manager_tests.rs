use env_manager::listing::{installed_versions, is_single_subdirectory, DirEntryInfo, EntryKind};
use env_manager::manager::{
    check_env_var, usable_env_path, env_var_for, installed_heading, load_categories,
    resource_url_or_default, supported_lang, version_label, EnvManager, LangCategory,
    DEFAULT_RESOURCE_URL, DOWNLOAD_DIR_NAME,
};
use env_manager::progress::{
    download_row, row_click, status_text, DownloadRow, DownloadState, DownloadStatus, Fraction,
    RowAction,
};
use env_manager::remote::{RemoteResource, ResourceCatalog};

fn entry(name: &str, kind: EntryKind) -> DirEntryInfo {
    DirEntryInfo::new(name, kind)
}

fn category(name: &str, env: &str) -> LangCategory {
    LangCategory { name: name.to_string(), env_name: env.to_string(), dir_name: name.to_string() }
}

fn catalog() -> ResourceCatalog {
    let mut c = ResourceCatalog::new();
    c.insert(
        "java".to_string(),
        vec![
            RemoteResource::new("jdk-17", "https://h/jdk-17.zip"),
            RemoteResource::new("jdk-21", "https://h/jdk-21.zip"),
            RemoteResource::new("jdk-8", "https://h/jdk-8.tar.gz"),
        ],
    );
    c.insert("go".to_string(), vec![RemoteResource::new("go1.22", "https://h/go.tgz")]);
    c
}

fn manager() -> EnvManager {
    EnvManager::new(
        vec![category("java", "JAVA_HOME"), category("go", "GO_HOME")],
        "https://h/resource.json".to_string(),
        catalog(),
    )
}

#[test]
fn supported_lang_table() {
    let t = supported_lang();
    assert_eq!(t.len(), 3);
    assert_eq!(t[0], ("java".to_string(), "JAVA_HOME".to_string()));
    assert_eq!(t[1], ("scala".to_string(), "SCALA_HOME".to_string()));
    assert_eq!(t[2], ("go".to_string(), "GO_HOME".to_string()));
}

#[test]
fn env_var_for_managed_languages() {
    assert_eq!(env_var_for("java"), Some("JAVA_HOME".to_string()));
    assert_eq!(env_var_for("scala"), Some("SCALA_HOME".to_string()));
    assert_eq!(env_var_for("go"), Some("GO_HOME".to_string()));
    assert_eq!(env_var_for("rust"), None);
    assert_eq!(env_var_for("Java"), None);
    assert_eq!(env_var_for(""), None);
}

#[test]
fn load_categories_keeps_language_directories() {
    let entries = vec![
        entry("java", EntryKind::Directory),
        entry("readme.txt", EntryKind::File),
        entry("go", EntryKind::File),
        entry(" scala ", EntryKind::Directory),
        entry("rust", EntryKind::Directory),
        entry("go", EntryKind::Other),
        entry("java", EntryKind::Unknown),
    ];
    let cats = load_categories(&entries);
    assert_eq!(cats.len(), 3);
    assert_eq!(cats[0].name, "java");
    assert_eq!(cats[0].env_name, "JAVA_HOME");
    assert_eq!(cats[0].dir_name, "java");
    assert_eq!(cats[1].name, "scala");
    assert_eq!(cats[1].env_name, "SCALA_HOME");
    assert_eq!(cats[1].dir_name, " scala ");
    assert_eq!(cats[2].name, "go");
    assert_eq!(cats[2].env_name, "GO_HOME");
    assert!(load_categories(&Vec::new()).is_empty());
}

#[test]
fn installed_versions_are_sorted_directory_names() {
    let entries = vec![
        entry("jdk-21", EntryKind::Directory),
        entry("notes.txt", EntryKind::File),
        entry("jdk-17", EntryKind::Directory),
        entry("link", EntryKind::Other),
        entry("jdk-8", EntryKind::Directory),
        entry("broken", EntryKind::Unknown),
    ];
    assert_eq!(installed_versions(&entries), vec!["jdk-17", "jdk-21", "jdk-8"]);
    assert!(installed_versions(&Vec::new()).is_empty());
}

#[test]
fn single_subdirectory_is_flattened() {
    assert!(is_single_subdirectory(&vec![entry("jdk-21.0.1", EntryKind::Directory)]));
    assert!(!is_single_subdirectory(&vec![entry("bin", EntryKind::File)]));
    assert!(!is_single_subdirectory(&vec![
        entry("bin", EntryKind::Directory),
        entry("lib", EntryKind::Directory)
    ]));
    assert!(!is_single_subdirectory(&Vec::new()));
}

#[test]
fn base_path_prefers_an_existing_env_directory() {
    assert_eq!(usable_env_path(Some("/env"), true), Some("/env"));
    assert_eq!(usable_env_path(Some("/env"), false), None);
    assert_eq!(usable_env_path(None::<&str>, true), None);
}

#[test]
fn resource_url_defaults() {
    assert_eq!(resource_url_or_default(Some("http://x".to_string())), "http://x");
    assert_eq!(resource_url_or_default(None), DEFAULT_RESOURCE_URL);
    assert_eq!(
        DEFAULT_RESOURCE_URL,
        "https://raw.githubusercontent.com/Crazy-ccc/env_manager/master/resource/resource.json"
    );
    assert_eq!(DOWNLOAD_DIR_NAME, "download");
}

#[test]
fn new_manager_selects_the_first_category() {
    let m = manager();
    assert_eq!(m.selected, 0);
    assert_eq!(m.selected_version, "");
    assert!(!m.show_settings);
    assert!(m.error_msg.is_none());
    assert_eq!(m.current_category().unwrap().name, "java");
    assert_eq!(m.current_key(), "java");
}

#[test]
fn no_category_gives_empty_key_and_no_resources() {
    let m = EnvManager::new(Vec::new(), String::new(), catalog());
    assert!(m.current_category().is_none());
    assert_eq!(m.current_key(), "");
    assert!(m.current_resources().is_empty());
}

#[test]
fn current_resources_follow_the_selection() {
    let mut m = manager();
    assert_eq!(m.current_resources().len(), 3);
    m.select_category(1);
    assert_eq!(m.current_key(), "go");
    let r = m.current_resources();
    assert_eq!(r.len(), 1);
    assert_eq!(r[0].name, "go1.22");
    m.select_category(7);
    assert_eq!(m.current_key(), "");
}

#[test]
fn downloadable_resources_skip_installed_versions() {
    let m = manager();
    let installed = vec!["jdk-21".to_string(), "unrelated".to_string()];
    let d = m.downloadable_resources(&installed);
    let names: Vec<&str> = d.iter().map(|r| r.name.as_str()).collect();
    assert_eq!(names, vec!["jdk-17", "jdk-8"]);
    assert_eq!(d[1].url, "https://h/jdk-8.tar.gz");
    let all = vec!["jdk-17".to_string(), "jdk-21".to_string(), "jdk-8".to_string()];
    assert!(m.downloadable_resources(&all).is_empty());
    assert_eq!(m.downloadable_resources(&Vec::new()).len(), 3);
}

#[test]
fn refresh_with_empty_catalogue_keeps_the_old_one() {
    let mut m = manager();
    m.refresh_resources(ResourceCatalog::new());
    assert_eq!(m.error_msg.as_deref(), Some("从远程加载资源列表失败"));
    assert_eq!(m.current_resources().len(), 3);
}

#[test]
fn refresh_with_new_catalogue_replaces_it() {
    let mut m = manager();
    m.error_msg = Some("old".to_string());
    let mut c = ResourceCatalog::new();
    c.insert("java".to_string(), vec![RemoteResource::new("jdk-22", "u")]);
    m.refresh_resources(c);
    assert!(m.error_msg.is_none());
    let r = m.current_resources();
    assert_eq!(r.len(), 1);
    assert_eq!(r[0].name, "jdk-22");
}

#[test]
fn select_version_reports_the_assignment() {
    let mut m = manager();
    let a = m.select_version("jdk-21").unwrap();
    assert_eq!(a.env_name, "JAVA_HOME");
    assert_eq!(a.dir_name, "java");
    assert_eq!(a.version, "jdk-21");
    assert_eq!(m.selected_version, "jdk-21");
    assert_eq!(m.error_msg.as_deref(), Some("已将 JAVA_HOME 设为 jdk-21"));
}

#[test]
fn select_version_without_category_does_nothing() {
    let mut m = EnvManager::new(Vec::new(), String::new(), ResourceCatalog::new());
    assert!(m.select_version("jdk-21").is_none());
    assert_eq!(m.selected_version, "");
    assert!(m.error_msg.is_none());
}

#[test]
fn toggle_settings_flips_the_window() {
    let mut m = manager();
    m.toggle_settings();
    assert!(m.show_settings);
    m.toggle_settings();
    assert!(!m.show_settings);
}

#[test]
fn check_env_var_compares_trimmed_value() {
    assert!(check_env_var(&Some(" /opt/java/jdk-21 \n".to_string()), "/opt/java/jdk-21"));
    assert!(!check_env_var(&Some("/opt/java/jdk-17".to_string()), "/opt/java/jdk-21"));
    assert!(!check_env_var(&None, "/opt/java/jdk-21"));
}

#[test]
fn version_labels_and_heading() {
    assert_eq!(version_label("jdk-21", true), "jdk-21 (当前)");
    assert_eq!(version_label("jdk-21", false), "jdk-21");
    assert_eq!(installed_heading("JAVA_HOME"), "已安装的 JAVA_HOME 版本：");
}

#[test]
fn download_state_starts_waiting() {
    let s = DownloadState::new();
    let (f, status, finished) = s.snapshot();
    assert_eq!(f, Fraction { num: 0, den: 1 });
    assert_eq!(status, "等待中");
    assert!(!finished);
}

#[test]
fn download_state_update_caps_the_fraction() {
    let mut s = DownloadState::new();
    s.update(30, 120);
    assert_eq!(s.snapshot(), (Fraction { num: 30, den: 120 }, "下载中".to_string(), false));
    s.update(500, 120);
    assert_eq!(s.snapshot().0, Fraction { num: 120, den: 120 });
    s.update(500, 0);
    assert_eq!(s.snapshot().0, Fraction { num: 0, den: 1 });
}

#[test]
fn download_state_finishing() {
    let mut s = DownloadState::new();
    s.update(10, 100);
    s.set_finished(true);
    assert_eq!(s.snapshot(), (Fraction { num: 1, den: 1 }, "完成".to_string(), true));
    let mut t = DownloadState::new();
    t.update(10, 100);
    t.set_finished(false);
    assert_eq!(t.snapshot(), (Fraction { num: 10, den: 100 }, "失败".to_string(), true));
}

#[test]
fn status_texts() {
    assert_eq!(status_text(DownloadStatus::Waiting), "等待中");
    assert_eq!(status_text(DownloadStatus::Downloading), "下载中");
    assert_eq!(status_text(DownloadStatus::Completed), "完成");
    assert_eq!(status_text(DownloadStatus::Failed), "失败");
}

#[test]
fn status_agrees_with_fraction_and_flag_after_any_steps() {
    let mut s = DownloadState::new();
    let steps: [(u8, u64, u64); 7] =
        [(0, 5, 10), (1, 1, 0), (0, 20, 10), (2, 0, 0), (0, 3, 9), (1, 0, 0), (0, 0, 0)];
    for (op, a, b) in steps {
        match op {
            0 => s.update(a, b),
            1 => s.set_finished(true),
            _ => s.set_finished(false),
        }
        let (f, status, finished) = s.snapshot();
        assert!(f.num <= f.den && f.den > 0);
        match status.as_str() {
            "等待中" => assert!(f.num == 0 && !finished),
            "完成" => assert!(f.num == f.den && finished),
            "失败" => assert!(finished),
            "下载中" => {}
            other => panic!("unexpected status {}", other),
        }
    }
}

#[test]
fn download_rows_follow_the_record() {
    assert_eq!(download_row(None), DownloadRow::Offer);
    assert_eq!(download_row(Some(false)), DownloadRow::InProgress);
    assert_eq!(download_row(Some(true)), DownloadRow::Finished);
    assert_eq!(row_click(DownloadRow::Offer, true), RowAction::Start);
    assert_eq!(row_click(DownloadRow::Offer, false), RowAction::Nothing);
    assert_eq!(row_click(DownloadRow::InProgress, true), RowAction::Nothing);
    assert_eq!(row_click(DownloadRow::Finished, true), RowAction::Clear);
    assert_eq!(row_click(DownloadRow::Finished, false), RowAction::Nothing);
}

#[test]
fn last_clicked_tab_wins() {
    let mut m = manager();
    m.select_clicked_tab(&vec![false, true]);
    assert_eq!(m.selected, 1);
    m.select_clicked_tab(&vec![false, false]);
    assert_eq!(m.selected, 1);
    m.select_clicked_tab(&vec![true, true]);
    assert_eq!(m.selected, 1);
    m.select_clicked_tab(&vec![true, false]);
    assert_eq!(m.selected, 0);
    m.select_clicked_tab(&Vec::new());
    assert_eq!(m.selected, 0);
}
