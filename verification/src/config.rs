//! Where the program keeps its files, by platform and user.

use vstd::prelude::*;
use vstd::string::*;
use crate::text::same_text;

verus! {

/// The kinds of platform that differ in where files are kept.
#[derive(Clone, Copy, Debug, PartialEq, Eq, Structural)]
pub enum Platform {
    /// Linux, FreeBSD and OpenBSD.
    Unix,
    MacOs,
    /// Anything else; laid out as Windows is.
    Windows,
}

/// The program's settings.
#[derive(Debug)]
pub struct Config {
    /// The directory of the game.
    pub minecraft_path: String,
}

impl Config {
    /// Settings for a game kept in `minecraft_path`.
    pub fn new(minecraft_path: String) -> (r: Self)
        ensures
            r.minecraft_path == minecraft_path,
    {
        Config { minecraft_path }
    }
}

/// Where the game keeps its files unless told otherwise.
pub open spec fn minecraft_path_of(platform: Platform, username: Seq<char>) -> Seq<char> {
    match platform {
        Platform::Unix => "/home/"@ + username + "/.minecraft"@,
        Platform::MacOs => "/Users/"@ + username + "/Library/Application Support/minecraft"@,
        Platform::Windows => "C:\\Users\\"@ + username + "\\AppData\\Roaming\\.minecraft"@,
    }
}

/// Where the game keeps its files unless told otherwise.
pub fn default_minecraft_path(platform: Platform, username: &str) -> (r: String)
    ensures
        r@ == minecraft_path_of(platform, username@),
{
    match platform {
        Platform::Unix => {
            let mut s = "/home/".to_owned();
            s.append(username);
            s.append("/.minecraft");
            s
        },
        Platform::MacOs => {
            let mut s = "/Users/".to_owned();
            s.append(username);
            s.append("/Library/Application Support/minecraft");
            s
        },
        Platform::Windows => {
            let mut s = "C:\\Users\\".to_owned();
            s.append(username);
            s.append("\\AppData\\Roaming\\.minecraft");
            s
        },
    }
}

/// The directory that the program keeps its own files in. On Unix the user
/// `root` has no directory below `/home`.
pub open spec fn config_location_of(platform: Platform, username: Seq<char>) -> Seq<char> {
    match platform {
        Platform::Unix => if username == "root"@ {
            "/root/.local/share/mcget"@
        } else {
            "/home/"@ + username + "/.local/share/mcget"@
        },
        Platform::MacOs => "/Users/"@ + username + "/mcget"@,
        Platform::Windows => "C:\\Users\\"@ + username + "\\AppData\\mcget"@,
    }
}

/// The directory that the program keeps its own files in.
pub fn get_config_location(platform: Platform, username: &str) -> (r: String)
    ensures
        r@ == config_location_of(platform, username@),
{
    match platform {
        Platform::Unix => {
            if same_text(username, "root") {
                "/root/.local/share/mcget".to_owned()
            } else {
                let mut s = "/home/".to_owned();
                s.append(username);
                s.append("/.local/share/mcget");
                s
            }
        },
        Platform::MacOs => {
            let mut s = "/Users/".to_owned();
            s.append(username);
            s.append("/mcget");
            s
        },
        Platform::Windows => {
            let mut s = "C:\\Users\\".to_owned();
            s.append(username);
            s.append("\\AppData\\mcget");
            s
        },
    }
}

} // verus!
