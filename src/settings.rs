use vstd::prelude::*;

verus! {

/// Which of the three settings is meant.
#[derive(Clone, Copy, Debug, PartialEq, Eq, Structural)]
pub enum SettingKind {
    Cookie,
    Token,
    Body,
}

/// A setting that was given neither as an argument nor in the environment.
#[derive(Clone, Copy, Debug, PartialEq, Eq, Structural)]
pub enum ConfigError {
    Missing(SettingKind),
}

/// The two secrets and the request body that one run needs.
pub struct Settings {
    pub cookie: String,
    pub token: String,
    pub body: String,
}

/// The value of the setting at position `k` of the arguments, else the
/// value from the environment.
pub open spec fn chosen(args: Seq<String>, k: int, env: Option<String>) -> Option<Seq<char>> {
    if k < args.len() {
        Some(args[k]@)
    } else {
        match env {
            Some(v) => Some(v@),
            None => None,
        }
    }
}

fn pick(args: &Vec<String>, k: usize, env: Option<String>) -> (r: Option<String>)
    ensures
        r matches Some(v) ==> chosen(args@, k as int, env) == Some(v@),
        r is None ==> chosen(args@, k as int, env) is None,
{
    if k < args.len() {
        Some(args[k].clone())
    } else {
        env
    }
}

impl Settings {
    /// The settings from the positional arguments (without the program
    /// name: cookie, token, body), each missing one taken from its
    /// environment value. The first setting found in neither is the error.
    pub fn from_sources(
        args: &Vec<String>,
        cookie_env: Option<String>,
        token_env: Option<String>,
        body_env: Option<String>,
    ) -> (r: Result<Settings, ConfigError>)
        ensures
            r is Ok <==> chosen(args@, 0, cookie_env) is Some && chosen(args@, 1, token_env) is Some
                && chosen(args@, 2, body_env) is Some,
            r matches Ok(s) ==> Some(s.cookie@) == chosen(args@, 0, cookie_env)
                && Some(s.token@) == chosen(args@, 1, token_env)
                && Some(s.body@) == chosen(args@, 2, body_env),
            r matches Err(e) ==> e == if chosen(args@, 0, cookie_env) is None {
                ConfigError::Missing(SettingKind::Cookie)
            } else if chosen(args@, 1, token_env) is None {
                ConfigError::Missing(SettingKind::Token)
            } else {
                ConfigError::Missing(SettingKind::Body)
            },
    {
        let cookie = match pick(args, 0, cookie_env) {
            Some(v) => v,
            None => return Err(ConfigError::Missing(SettingKind::Cookie)),
        };
        let token = match pick(args, 1, token_env) {
            Some(v) => v,
            None => return Err(ConfigError::Missing(SettingKind::Token)),
        };
        let body = match pick(args, 2, body_env) {
            Some(v) => v,
            None => return Err(ConfigError::Missing(SettingKind::Body)),
        };
        Ok(Settings { cookie, token, body })
    }
}

} // verus!
