//! Application settings: plain data with fixed defaults. Persistence of
//! these values is I/O and lives outside this crate.

use vstd::prelude::*;

verus! {

/// Which tab of the settings dialog is open.
#[derive(Debug, Clone, PartialEq, Eq, Structural)]
pub enum SettingsTab {
    General,
    Cache,
    Repos,
    Proxy,
}

impl Default for SettingsTab {
    /// The dialog opens on the general tab.
    fn default() -> (r: Self)
        ensures
            r == SettingsTab::General,
    {
        Self::General
    }
}

/// How the package list is displayed.
#[derive(Debug, Clone)]
pub struct PackageListSettings {
    pub show_only_desktop_apps: bool,
    pub show_components_info: bool,
    pub show_package_type_labels: bool,
}

/// When and how updates are checked for.
#[derive(Debug, Clone)]
pub struct UpdateSettings {
    pub check_updates: bool,
    pub update_check_interval: u32,
    pub install_updates_automatically: bool,
}

/// The on-disk package cache.
#[derive(Debug, Clone)]
pub struct CacheSettings {
    pub use_disk_cache: bool,
    pub cache_size_mb: u32,
    pub cache_directory: String,
}

/// Proxy servers for the tool's network traffic.
#[derive(Debug, Clone)]
pub struct ProxySettings {
    pub use_proxy: bool,
    pub http_proxy: String,
    pub https_proxy: String,
    pub ftp_proxy: String,
    pub domain: String,
    pub username: String,
    pub password: String,
    pub use_http_proxy_for_all: bool,
}

/// One configured repository: its name, its index URL, and whether it is
/// consulted.
#[derive(Debug, Clone)]
pub struct Repository {
    pub enabled: bool,
    pub name: String,
    pub url: String,
}

/// All persistent settings of the application.
#[derive(Debug, Clone)]
pub struct AppSettings {
    pub package_list: PackageListSettings,
    pub update: UpdateSettings,
    pub cache: CacheSettings,
    pub proxy: ProxySettings,
    pub repositories: Vec<Repository>,
    pub system_tray_enabled: bool,
}

impl Default for AppSettings {
    /// The stock configuration: component info and type labels shown,
    /// hourly update checks without automatic installs, a 1 GiB disk
    /// cache at the tool's cache path, no proxy, the two standard
    /// repositories enabled, and the system tray on.
    fn default() -> (r: Self)
        ensures
            r.package_list.show_only_desktop_apps == false,
            r.package_list.show_components_info == true,
            r.package_list.show_package_type_labels == true,
            r.update.check_updates == true,
            r.update.update_check_interval == 60,
            r.update.install_updates_automatically == false,
            r.cache.use_disk_cache == true,
            r.cache.cache_size_mb == 1024,
            r.cache.cache_directory@ == "/var/cache/pisi/packages"@,
            r.proxy.use_proxy == false,
            r.proxy.http_proxy@ == Seq::<char>::empty(),
            r.proxy.https_proxy@ == Seq::<char>::empty(),
            r.proxy.ftp_proxy@ == Seq::<char>::empty(),
            r.proxy.domain@ == Seq::<char>::empty(),
            r.proxy.username@ == Seq::<char>::empty(),
            r.proxy.password@ == Seq::<char>::empty(),
            r.proxy.use_http_proxy_for_all == false,
            r.repositories@.len() == 2,
            r.repositories@[0].enabled == true,
            r.repositories@[0].name@ == "Stable"@,
            r.repositories@[0].url@ == "https://stable2.pisilinux.org/pisi-index.xml.xz"@,
            r.repositories@[1].enabled == true,
            r.repositories@[1].name@ == "Contrib"@,
            r.repositories@[1].url@ == "https://contrib.pisilinux.org/pisi-index.xml.xz"@,
            r.system_tray_enabled == true,
    {
        let mut repositories: Vec<Repository> = Vec::new();
        repositories.push(
            Repository {
                enabled: true,
                name: String::from_str("Stable"),
                url: String::from_str("https://stable2.pisilinux.org/pisi-index.xml.xz"),
            },
        );
        repositories.push(
            Repository {
                enabled: true,
                name: String::from_str("Contrib"),
                url: String::from_str("https://contrib.pisilinux.org/pisi-index.xml.xz"),
            },
        );
        AppSettings {
            package_list: PackageListSettings {
                show_only_desktop_apps: false,
                show_components_info: true,
                show_package_type_labels: true,
            },
            update: UpdateSettings {
                check_updates: true,
                update_check_interval: 60,
                install_updates_automatically: false,
            },
            cache: CacheSettings {
                use_disk_cache: true,
                cache_size_mb: 1024,
                cache_directory: String::from_str("/var/cache/pisi/packages"),
            },
            proxy: ProxySettings {
                use_proxy: false,
                http_proxy: String::new(),
                https_proxy: String::new(),
                ftp_proxy: String::new(),
                domain: String::new(),
                username: String::new(),
                password: String::new(),
                use_http_proxy_for_all: false,
            },
            repositories,
            system_tray_enabled: true,
        }
    }
}

/// The transient state of the settings dialog.
#[derive(Debug, Clone)]
pub struct SettingsModalState {
    pub current_tab: SettingsTab,
}

impl Default for SettingsModalState {
    /// The dialog starts on the general tab.
    fn default() -> (r: Self)
        ensures
            r.current_tab == SettingsTab::General,
    {
        SettingsModalState { current_tab: SettingsTab::General }
    }
}

} // verus!
