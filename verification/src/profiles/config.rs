//! Persistent application settings (separate from audio profiles).
use vstd::prelude::*;

use crate::text::{join3, join_path, path_join};

verus! {

#[derive(Debug)]
pub struct AppConfig {
    /// Profile to apply automatically on startup, if any.
    pub default_profile: Option<String>,
    /// Whether the program starts with the desktop session.
    pub autostart: bool,
}

impl Default for AppConfig {
    fn default() -> (r: Self)
        ensures
            r.default_profile is None,
            !r.autostart,
    {
        AppConfig { default_profile: None, autostart: false }
    }
}

/// `<home>/.config/audibian/config.toml`.
pub open spec fn config_path_of(home: Seq<char>) -> Seq<char> {
    join_path(join_path(join_path(home, ".config"@), "audibian"@), "config.toml"@)
}

/// `<home>/.config/autostart/audibian.desktop`.
pub open spec fn autostart_path_of(home: Seq<char>) -> Seq<char> {
    join_path(join_path(join_path(home, ".config"@), "autostart"@), "audibian.desktop"@)
}

/// Where the settings are kept, under the home directory `home`.
pub fn config_path(home: &str) -> (r: String)
    ensures
        r@ == config_path_of(home@),
{
    let a = path_join(home, ".config");
    let b = path_join(a.as_str(), "audibian");
    path_join(b.as_str(), "config.toml")
}

/// Where the desktop autostart entry goes, under the home directory `home`.
pub fn autostart_desktop_path(home: &str) -> (r: String)
    ensures
        r@ == autostart_path_of(home@),
{
    let a = path_join(home, ".config");
    let b = path_join(a.as_str(), "autostart");
    path_join(b.as_str(), "audibian.desktop")
}

/// The desktop entry that starts the program at `exe` with the session.
pub open spec fn desktop_entry_of(exe: Seq<char>) -> Seq<char> {
    "[Desktop Entry]\nType=Application\nName=Audibian\nComment=Gestor de audio PipeWire\nExec="@
        + exe + "\nHidden=false\nX-GNOME-Autostart-enabled=true\n"@
}

/// The desktop entry that starts the program at `exe` with the session.
pub fn autostart_desktop_entry(exe: &str) -> (r: String)
    ensures
        r@ == desktop_entry_of(exe@),
{
    join3(
        "[Desktop Entry]\nType=Application\nName=Audibian\nComment=Gestor de audio PipeWire\nExec=",
        exe,
        "\nHidden=false\nX-GNOME-Autostart-enabled=true\n",
    )
}

} // verus!
