use vstd::prelude::*;

use crate::assets::AnimationId;
use crate::pet::PetMood;

verus! {

#[verifier::external_type_specification]
#[verifier::external_body]
pub struct ExIoError(std::io::Error);

/// Why the configuration could not be found, read or written.
#[derive(Debug)]
pub enum ConfigError {
    MissingHome,
    Io(std::io::Error),
    Ron(String),
}

impl From<std::io::Error> for ConfigError {
    fn from(value: std::io::Error) -> (e: Self) {
        ConfigError::Io(value)
    }
}

impl vstd::std_specs::convert::FromSpecImpl<std::io::Error> for ConfigError {
    open spec fn obeys_from_spec() -> bool {
        true
    }

    open spec fn from_spec(v: std::io::Error) -> ConfigError {
        ConfigError::Io(v)
    }
}

/// `<std::io::Error as Display>::fmt`, through `to_string`: the error's text. Nothing is
/// stated of its content.
#[verifier::external_body]
fn io_error_text(error: &std::io::Error) -> String {
    error.to_string()
}

impl ConfigError {
    /// The error as it is shown.
    pub fn message(&self) -> (m: String)
        ensures
            match self {
                ConfigError::MissingHome => m@ == "could not locate a config directory"@,
                ConfigError::Io(_) => m@.len() >= 17 && m@.subrange(0, 17) == "config io error: "@,
                ConfigError::Ron(detail) => m@ == "config parse error: "@ + detail@,
            },
    {
        match self {
            ConfigError::MissingHome => String::from_str("could not locate a config directory"),
            ConfigError::Io(err) => {
                let mut m = String::from_str("config io error: ");
                let text = io_error_text(err);
                let ghost head = m@;
                proof {
                    reveal_strlit("config io error: ");
                }
                m.append(text.as_str());
                assert(m@.subrange(0, 17) =~= head);
                m
            },
            ConfigError::Ron(detail) => {
                let mut m = String::from_str("config parse error: ");
                m.append(detail.as_str());
                m
            },
        }
    }
}

/// What the pet remembers between runs.
#[derive(Clone, Debug, PartialEq)]
pub struct AppConfig {
    pub monitor: Option<String>,
    pub position: Option<(i32, i32)>,
    pub last_pose: AnimationId,
    pub mood: PetMood,
    pub scale: u32,
    pub paused: bool,
}

impl Default for AppConfig {
    fn default() -> (config: Self)
        ensures
            config.monitor is None,
            config.position is None,
            config.last_pose == AnimationId::Idle,
            config.mood == PetMood::Calm,
            config.scale == 1,
            !config.paused,
    {
        Self {
            monitor: None,
            position: None,
            last_pose: AnimationId::Idle,
            mood: PetMood::Calm,
            scale: 1,
            paused: false,
        }
    }
}

/// Where the configuration file lives, below the directory that the environment gives:
/// `%APPDATA%\Nokk\config.ron` on Windows; elsewhere `$XDG_CONFIG_HOME/nokk/config.ron`,
/// or `$HOME/.config/nokk/config.ron` when that is not set.
pub open spec fn config_location_spec<T>(
    on_windows: bool,
    appdata: Option<T>,
    xdg_config_home: Option<T>,
    home: Option<T>,
) -> Option<(T, Seq<Seq<char>>)> {
    if on_windows {
        match appdata {
            Some(base) => Some((base, seq!["Nokk"@, "config.ron"@])),
            None => None,
        }
    } else {
        match xdg_config_home {
            Some(base) => Some((base, seq!["nokk"@, "config.ron"@])),
            None => match home {
                Some(base) => Some((base, seq![".config"@, "nokk"@, "config.ron"@])),
                None => None,
            },
        }
    }
}

/// The base directory of the configuration file and the path components to join below
/// it; `MissingHome` when the environment names no base directory.
pub fn config_location<T>(
    on_windows: bool,
    appdata: Option<T>,
    xdg_config_home: Option<T>,
    home: Option<T>,
) -> (r: Result<(T, Vec<&'static str>), ConfigError>)
    ensures
        match config_location_spec(on_windows, appdata, xdg_config_home, home) {
            Some((base, parts)) => r matches Ok((b, ps)) && b == base && ps@.map_values(|p: &'static str| p@) == parts,
            None => r matches Err(ConfigError::MissingHome),
        },
{
    let found = if on_windows {
        match appdata {
            Some(base) => Some((base, vec!["Nokk", "config.ron"])),
            None => None,
        }
    } else {
        match xdg_config_home {
            Some(base) => Some((base, vec!["nokk", "config.ron"])),
            None => match home {
                Some(base) => Some((base, vec![".config", "nokk", "config.ron"])),
                None => None,
            },
        }
    };
    match found {
        Some((base, parts)) => {
            assert(parts@.map_values(|p: &'static str| p@) =~= config_location_spec(on_windows, appdata, xdg_config_home, home).unwrap().1);
            Ok((base, parts))
        },
        None => Err(ConfigError::MissingHome),
    }
}

} // verus!
