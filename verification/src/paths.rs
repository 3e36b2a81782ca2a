//! Where things live: the server's data directory, its configuration file
//! and the default downloads directory, on each platform.

use crate::text::{all_white_space, is_blank};
use vstd::prelude::*;

verus! {

/// The path that `std::path::Path::join` gives for `base` extended by `rel`.
pub uninterp spec fn joined_path(base: Seq<char>, rel: Seq<char>) -> Seq<char>;

/// `std::path::Path::join`: the path `base` with `rel` adjoined, by the path
/// rules of the platform this is built for. Both are Unicode text, so the
/// result is too, and its text is taken as it is. The contract only gives
/// the result its name: it depends on the two texts alone, and nothing else
/// about it is claimed.
#[verifier::external_body]
pub(crate) fn join_path(base: &str, rel: &str) -> (r: String)
    ensures
        r@ == joined_path(base@, rel@),
{
    std::path::Path::new(base).join(rel).to_string_lossy().into_owned()
}

/// Whether `std::path::Path::starts_with` finds `base` to be a prefix of
/// `path`.
pub uninterp spec fn path_has_prefix(path: Seq<char>, base: Seq<char>) -> bool;

/// `std::path::Path::starts_with`: whether `base` is a prefix of `path`,
/// whole components only, by the path rules of the platform this is built
/// for. The contract only gives the result its name: it depends on the two
/// texts alone, and nothing else about it is claimed.
#[verifier::external_body]
pub(crate) fn path_starts_with(path: &str, base: &str) -> (r: bool)
    ensures
        r == path_has_prefix(path@, base@),
{
    std::path::Path::new(path).starts_with(base)
}

/// `dirs::data_dir`: the user's data directory, if the platform names one.
/// It is read from the environment, so nothing is promised about it. A name
/// that is not Unicode is carried with replacement characters.
#[verifier::external_body]
pub(crate) fn platform_data_dir() -> Option<String> {
    dirs::data_dir().map(|p| p.to_string_lossy().into_owned())
}

/// `dirs::home_dir`: the user's home directory, if the platform names one.
/// It is read from the environment, so nothing is promised about it. A name
/// that is not Unicode is carried with replacement characters.
#[verifier::external_body]
pub(crate) fn platform_home_dir() -> Option<String> {
    dirs::home_dir().map(|p| p.to_string_lossy().into_owned())
}

/// The platforms whose conventions differ here.
#[derive(Debug, Clone, Copy, PartialEq, Eq)]
pub enum Platform {
    /// macOS.
    MacOs,
    /// Windows.
    Windows,
    /// Linux and everything else.
    Other,
}

/// `first` if there is one, else `second` if there is one, else `last`.
pub open spec fn first_of(
    first: Option<Seq<char>>,
    second: Option<Seq<char>>,
    last: Seq<char>,
) -> Seq<char> {
    match first {
        Some(p) => p,
        None => match second {
            Some(p) => p,
            None => last,
        },
    }
}

/// The downloads directory: `chosen` as it stands unless it is blank; else
/// `Tachidesk/downloads` under the data home `xdg`, under the platform's
/// data directory where there is no data home, under `/` where there is
/// neither.
pub open spec fn downloads_path_for(
    chosen: Seq<char>,
    xdg: Option<Seq<char>>,
    data_dir: Option<Seq<char>>,
) -> Seq<char> {
    if !all_white_space(chosen) {
        chosen
    } else {
        joined_path(first_of(xdg, data_dir, "/"@), "Tachidesk/downloads"@)
    }
}

/// The server's data directory. On macOS, `dev.moku.app/tachidesk` under
/// the platform's data directory, under the home directory where there is
/// none, under `~` where there is neither. Elsewhere, `moku/tachidesk`
/// under the data home `xdg`, under the platform's data directory where
/// there is no data home, under `/tmp` where there is neither.
pub open spec fn data_dir_for(
    platform: Platform,
    xdg: Option<Seq<char>>,
    data_dir: Option<Seq<char>>,
    home_dir: Option<Seq<char>>,
) -> Seq<char> {
    match platform {
        Platform::MacOs => joined_path(
            first_of(data_dir, home_dir, "~"@),
            "dev.moku.app/tachidesk"@,
        ),
        _ => joined_path(first_of(xdg, data_dir, "/tmp"@), "moku/tachidesk"@),
    }
}

/// `first` if there is one, else `second` if there is one, else `last`.
fn pick(first: Option<String>, second: Option<String>, last: &str) -> (r: String)
    ensures
        r@ == first_of(first.deep_view(), second.deep_view(), last@),
{
    match first {
        Some(p) => p,
        None => match second {
            Some(p) => p,
            None => last.to_owned(),
        },
    }
}

/// The downloads directory for the given choice, data home and platform
/// data directory.
pub fn downloads_path_from(
    downloads_path: &str,
    xdg_data_home: Option<String>,
    data_dir: Option<String>,
) -> (r: String)
    ensures
        r@ == downloads_path_for(
            downloads_path@,
            xdg_data_home.deep_view(),
            data_dir.deep_view(),
        ),
{
    if !is_blank(downloads_path) {
        return downloads_path.to_owned();
    }
    let base = pick(xdg_data_home, data_dir, "/");
    join_path(base.as_str(), "Tachidesk/downloads")
}

/// The downloads directory: `downloads_path` unless it is blank, that is
/// empty or white space only; else the default under the data home
/// `xdg_data_home`, or under what the platform names as the data directory.
/// The platform is only asked where the answer depends on it.
pub fn resolve_downloads_path(downloads_path: &str, xdg_data_home: Option<String>) -> (r: String)
    ensures
        !all_white_space(downloads_path@) ==> r@ == downloads_path@,
        all_white_space(downloads_path@) && xdg_data_home is Some ==> r@ == joined_path(
            xdg_data_home->0@,
            "Tachidesk/downloads"@,
        ),
        exists|data_dir: Option<Seq<char>>|
            r@ == #[trigger] downloads_path_for(
                downloads_path@,
                xdg_data_home.deep_view(),
                data_dir,
            ),
{
    let data_dir = if is_blank(downloads_path) && xdg_data_home.is_none() {
        platform_data_dir()
    } else {
        None
    };
    let r = downloads_path_from(downloads_path, xdg_data_home, data_dir);
    assert(r@ == downloads_path_for(
        downloads_path@,
        xdg_data_home.deep_view(),
        data_dir.deep_view(),
    ));
    r
}

/// The server's data directory for the given platform, data home, platform
/// data directory and home directory.
pub fn data_dir_from(
    platform: Platform,
    xdg_data_home: Option<String>,
    data_dir: Option<String>,
    home_dir: Option<String>,
) -> (r: String)
    ensures
        r@ == data_dir_for(
            platform,
            xdg_data_home.deep_view(),
            data_dir.deep_view(),
            home_dir.deep_view(),
        ),
{
    match platform {
        Platform::MacOs => {
            let base = pick(data_dir, home_dir, "~");
            join_path(base.as_str(), "dev.moku.app/tachidesk")
        },
        _ => {
            let base = pick(xdg_data_home, data_dir, "/tmp");
            join_path(base.as_str(), "moku/tachidesk")
        },
    }
}

/// The server's data directory on `platform`, with the data home
/// `xdg_data_home`. The platform is asked for its directories only where
/// the answer depends on them.
pub fn suwayomi_data_dir(platform: Platform, xdg_data_home: Option<String>) -> (r: String)
    ensures
        !(platform is MacOs) && xdg_data_home is Some ==> r@ == joined_path(
            xdg_data_home->0@,
            "moku/tachidesk"@,
        ),
        exists|data_dir: Option<Seq<char>>, home_dir: Option<Seq<char>>|
            r@ == #[trigger] data_dir_for(
                platform,
                xdg_data_home.deep_view(),
                data_dir,
                home_dir,
            ),
{
    let (data_dir, home_dir) = match platform {
        Platform::MacOs => {
            let d = platform_data_dir();
            let h = if d.is_none() {
                platform_home_dir()
            } else {
                None
            };
            (d, h)
        },
        _ => {
            let d = if xdg_data_home.is_none() {
                platform_data_dir()
            } else {
                None
            };
            (d, None)
        },
    };
    let r = data_dir_from(platform, xdg_data_home, data_dir, home_dir);
    assert(r@ == data_dir_for(
        platform,
        xdg_data_home.deep_view(),
        data_dir.deep_view(),
        home_dir.deep_view(),
    ));
    r
}

/// Where the configuration file lies: `server.conf` in the data directory.
pub fn server_conf_path(data_dir: &str) -> (r: String)
    ensures
        r@ == joined_path(data_dir@, "server.conf"@),
{
    join_path(data_dir, "server.conf")
}

} // verus!
