use moku::paths::{
    data_dir_from, downloads_path_from, resolve_downloads_path, server_conf_path,
    suwayomi_data_dir, Platform,
};

fn some(s: &str) -> Option<String> {
    Some(s.to_string())
}

#[test]
fn chosen_downloads_path_stands() {
    assert_eq!(resolve_downloads_path("/data/manga", None), "/data/manga");
    assert_eq!(resolve_downloads_path("/data/manga", some("/x")), "/data/manga");
    assert_eq!(resolve_downloads_path(" relative dir ", some("/x")), " relative dir ");
    assert_eq!(downloads_path_from("/data/manga", some("/x"), some("/y")), "/data/manga");
}

#[test]
fn default_downloads_path_under_the_data_home() {
    assert_eq!(resolve_downloads_path("", some("/x")), "/x/Tachidesk/downloads");
    assert_eq!(resolve_downloads_path("  \t", some("/x/")), "/x/Tachidesk/downloads");
    assert_eq!(downloads_path_from("", some("/x"), some("/y")), "/x/Tachidesk/downloads");
}

#[test]
fn default_downloads_path_under_the_platform_data_dir() {
    assert_eq!(
        downloads_path_from("", None, some("/home/u/.local/share")),
        "/home/u/.local/share/Tachidesk/downloads"
    );
}

#[test]
fn default_downloads_path_under_the_root() {
    assert_eq!(downloads_path_from("", None, None), "/Tachidesk/downloads");
}

#[test]
fn empty_data_home_is_taken_as_it_is() {
    assert_eq!(downloads_path_from("", some(""), some("/y")), "Tachidesk/downloads");
    assert_eq!(data_dir_from(Platform::Other, some(""), some("/y"), None), "moku/tachidesk");
}

#[test]
fn default_downloads_path_asks_the_platform() {
    let r = resolve_downloads_path("", None);
    assert!(r.ends_with("Tachidesk/downloads"), "{}", r);
}

#[test]
fn data_dir_on_linux() {
    assert_eq!(
        data_dir_from(Platform::Other, some("/x"), some("/d"), some("/h")),
        "/x/moku/tachidesk"
    );
    assert_eq!(data_dir_from(Platform::Other, None, some("/d"), some("/h")), "/d/moku/tachidesk");
    assert_eq!(data_dir_from(Platform::Other, None, None, some("/h")), "/tmp/moku/tachidesk");
    assert_eq!(data_dir_from(Platform::Other, None, None, None), "/tmp/moku/tachidesk");
}

#[test]
fn data_dir_on_windows_follows_the_same_rule() {
    assert_eq!(
        data_dir_from(Platform::Windows, some("/x"), some("/d"), some("/h")),
        "/x/moku/tachidesk"
    );
    assert_eq!(data_dir_from(Platform::Windows, None, None, None), "/tmp/moku/tachidesk");
}

#[test]
fn data_dir_on_macos() {
    assert_eq!(
        data_dir_from(Platform::MacOs, some("/x"), some("/d"), some("/h")),
        "/d/dev.moku.app/tachidesk"
    );
    assert_eq!(
        data_dir_from(Platform::MacOs, some("/x"), None, some("/h")),
        "/h/dev.moku.app/tachidesk"
    );
    assert_eq!(data_dir_from(Platform::MacOs, some("/x"), None, None), "~/dev.moku.app/tachidesk");
}

#[test]
fn data_dir_with_a_data_home() {
    assert_eq!(suwayomi_data_dir(Platform::Other, some("/x")), "/x/moku/tachidesk");
    assert_eq!(suwayomi_data_dir(Platform::Windows, some("/x")), "/x/moku/tachidesk");
}

#[test]
fn data_dir_asks_the_platform() {
    assert!(suwayomi_data_dir(Platform::Other, None).ends_with("moku/tachidesk"));
    assert!(suwayomi_data_dir(Platform::MacOs, None).ends_with("dev.moku.app/tachidesk"));
}

#[test]
fn conf_file_lies_in_the_data_dir() {
    assert_eq!(server_conf_path("/x/moku/tachidesk"), "/x/moku/tachidesk/server.conf");
    assert_eq!(server_conf_path("/x/"), "/x/server.conf");
}
