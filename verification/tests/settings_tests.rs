use pisi_center::settings::{AppSettings, SettingsModalState, SettingsTab};

#[test]
fn default_tab_is_general() {
    assert_eq!(SettingsTab::default(), SettingsTab::General);
    assert_eq!(SettingsModalState::default().current_tab, SettingsTab::General);
}

#[test]
fn default_settings_values() {
    let s = AppSettings::default();
    assert!(!s.package_list.show_only_desktop_apps);
    assert!(s.package_list.show_components_info);
    assert!(s.package_list.show_package_type_labels);
    assert!(s.update.check_updates);
    assert_eq!(s.update.update_check_interval, 60);
    assert!(!s.update.install_updates_automatically);
    assert!(s.cache.use_disk_cache);
    assert_eq!(s.cache.cache_size_mb, 1024);
    assert_eq!(s.cache.cache_directory, "/var/cache/pisi/packages");
    assert!(!s.proxy.use_proxy);
    assert_eq!(s.proxy.http_proxy, "");
    assert_eq!(s.proxy.password, "");
    assert!(!s.proxy.use_http_proxy_for_all);
    assert!(s.system_tray_enabled);
}

#[test]
fn default_repositories() {
    let s = AppSettings::default();
    assert_eq!(s.repositories.len(), 2);
    assert!(s.repositories[0].enabled);
    assert_eq!(s.repositories[0].name, "Stable");
    assert_eq!(s.repositories[0].url, "https://stable2.pisilinux.org/pisi-index.xml.xz");
    assert!(s.repositories[1].enabled);
    assert_eq!(s.repositories[1].name, "Contrib");
    assert_eq!(s.repositories[1].url, "https://contrib.pisilinux.org/pisi-index.xml.xz");
}
