use vstd::prelude::*;
use crate::error::SpmError;
use crate::strutil::str_eq;

verus! {

/// The shells a hook can be generated for.
#[derive(Clone, Copy, Debug, PartialEq, Eq, Structural)]
pub enum Shell {
    Zsh,
    Bash,
    Fish,
}

/// The canonical lower-case name of each shell.
pub open spec fn sp_shell_str(s: Shell) -> Seq<char> {
    match s {
        Shell::Zsh => "zsh"@,
        Shell::Bash => "bash"@,
        Shell::Fish => "fish"@,
    }
}

/// Which shell a lower-case name denotes, when any.
pub open spec fn sp_parse_shell(s: Seq<char>) -> Option<Shell> {
    if s == "zsh"@ {
        Some(Shell::Zsh)
    } else if s == "bash"@ {
        Some(Shell::Bash)
    } else if s == "fish"@ {
        Some(Shell::Fish)
    } else {
        None
    }
}

impl Shell {
    /// The shell's canonical lower-case name.
    pub fn as_str(&self) -> (r: &'static str)
        ensures
            r@ == sp_shell_str(*self),
    {
        match self {
            Shell::Zsh => "zsh",
            Shell::Bash => "bash",
            Shell::Fish => "fish",
        }
    }

    /// Parses a shell from its canonical lower-case name; anything else
    /// is rejected.
    pub fn parse(s: &str) -> (r: Option<Shell>)
        ensures
            r == sp_parse_shell(s@),
    {
        if str_eq(s, "zsh") {
            Some(Shell::Zsh)
        } else if str_eq(s, "bash") {
            Some(Shell::Bash)
        } else if str_eq(s, "fish") {
            Some(Shell::Fish)
        } else {
            None
        }
    }
}

/// The two scalar settings of the configuration store.
#[derive(Clone, Copy, Debug, PartialEq, Eq)]
pub struct Config {
    pub use_zellij: bool,
    pub default_shell: Option<Shell>,
}

impl Default for Config {
    /// The out-of-the-box configuration: no multiplexer, no default
    /// shell chosen.
    fn default() -> (r: Self)
        ensures
            r.use_zellij == false,
            r.default_shell is None,
    {
        Config { use_zellij: false, default_shell: None }
    }
}

/// The textual form of a boolean setting.
pub open spec fn sp_bool_str(b: bool) -> Seq<char> {
    if b {
        "true"@
    } else {
        "false"@
    }
}

/// Which boolean the text denotes: exactly `true` or `false`.
pub open spec fn sp_parse_bool(s: Seq<char>) -> Option<bool> {
    if s == "true"@ {
        Some(true)
    } else if s == "false"@ {
        Some(false)
    } else {
        None
    }
}

/// What reading a configuration key yields: the textual value for the
/// two known keys (nothing when the shell is unset), nothing otherwise.
pub open spec fn sp_config_get(c: Config, key: Seq<char>) -> Option<Seq<char>> {
    if key == "use_zellij"@ {
        Some(sp_bool_str(c.use_zellij))
    } else if key == "default_shell"@ {
        match c.default_shell {
            Some(s) => Some(sp_shell_str(s)),
            None => None,
        }
    } else {
        None
    }
}

impl Config {
    /// Where the configuration document lives under the per-user
    /// configuration directory.
    pub fn path(config_dir: &str) -> (r: String)
        ensures
            r@ == config_dir@ + "/config.json"@,
    {
        let mut s = config_dir.to_owned();
        s.append("/config.json");
        s
    }

    /// Reads one configuration key as text.
    pub fn get(&self, key: &str) -> (r: Option<String>)
        ensures
            match r {
                Some(v) => sp_config_get(*self, key@) == Some(v@),
                None => sp_config_get(*self, key@) is None,
            },
    {
        if str_eq(key, "use_zellij") {
            if self.use_zellij {
                Some("true".to_owned())
            } else {
                Some("false".to_owned())
            }
        } else if str_eq(key, "default_shell") {
            match self.default_shell {
                Some(s) => Some(s.as_str().to_owned()),
                None => None,
            }
        } else {
            None
        }
    }

    /// Writes one configuration key from text; an unknown key or an
    /// unparsable value is rejected and changes nothing.
    pub fn set(&mut self, key: &str, value: &str) -> (r: Result<(), SpmError>)
        ensures
            key@ == "use_zellij"@ ==> match sp_parse_bool(value@) {
                Some(b) => r == Ok::<(), SpmError>(()) && final(self).use_zellij == b
                    && final(self).default_shell == old(self).default_shell,
                None => r == Err::<(), SpmError>(SpmError::InvalidConfigValue) && *final(self)
                    == *old(self),
            },
            key@ == "default_shell"@ ==> match sp_parse_shell(value@) {
                Some(s) => r == Ok::<(), SpmError>(()) && final(self).default_shell == Some(s)
                    && final(self).use_zellij == old(self).use_zellij,
                None => r == Err::<(), SpmError>(SpmError::InvalidConfigValue) && *final(self)
                    == *old(self),
            },
            key@ != "use_zellij"@ && key@ != "default_shell"@ ==> r == Err::<(), SpmError>(
                SpmError::UnknownConfigKey,
            ) && *final(self) == *old(self),
    {
        proof {
            reveal_strlit("use_zellij");
            reveal_strlit("default_shell");
            assert("use_zellij"@.len() == 10);
            assert("default_shell"@.len() == 13);
            assert("use_zellij"@ != "default_shell"@);
        }
        if str_eq(key, "use_zellij") {
            if str_eq(value, "true") {
                self.use_zellij = true;
                Ok(())
            } else if str_eq(value, "false") {
                self.use_zellij = false;
                Ok(())
            } else {
                Err(SpmError::InvalidConfigValue)
            }
        } else if str_eq(key, "default_shell") {
            match Shell::parse(value) {
                Some(s) => {
                    self.default_shell = Some(s);
                    Ok(())
                },
                None => Err(SpmError::InvalidConfigValue),
            }
        } else {
            Err(SpmError::UnknownConfigKey)
        }
    }
}

} // verus!
