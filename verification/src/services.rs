//! The service hub: which profile and which connection settings an operation
//! uses, and the answers the operations give.

use vstd::prelude::*;
use crate::error::{AppError, ErrorKind, is_app_error};
use crate::json::{JsonValue, Json, no_fields, add_field, no_items, add_item};
use crate::text::{concat, str_eq};

verus! {

/// Where the service keeps its files, and its version.
#[derive(Clone, Debug)]
pub struct AppContext {
    pub home_dir: String,
    pub config_path: String,
    pub runtime_dir: String,
    pub version: String,
}

/// The settings of one profile.
#[derive(Clone, Debug)]
pub struct ProfileConfig {
    pub db_path: Option<String>,
    pub decrypt_key: Option<String>,
    pub wxid: Option<String>,
    pub image_xor_key: Option<i64>,
    pub image_aes_key: Option<String>,
}

/// The stored configuration: named profiles and the one in use.
#[derive(Clone, Debug)]
pub struct ConfigStore {
    pub current_profile: String,
    pub profiles: Vec<(String, ProfileConfig)>,
}

/// The index of the first profile named `name`.
pub open spec fn profile_index(profiles: Seq<(String, ProfileConfig)>, name: Seq<char>) -> Option<int>
    decreases profiles.len(),
{
    if profiles.len() == 0 {
        None
    } else if profiles[0].0@ == name {
        Some(0)
    } else {
        match profile_index(profiles.drop_first(), name) {
            Some(i) => Some(i + 1),
            None => None,
        }
    }
}

impl ConfigStore {
    /// The profile named `name`, or the current one when no name is given.
    pub fn profile(&self, name: Option<&str>) -> (r: Option<&ProfileConfig>)
        ensures
            ({
                let n = match name {
                    Some(n) => n@,
                    None => self.current_profile@,
                };
                match profile_index(self.profiles@, n) {
                    Some(i) => r == Some(&self.profiles@[i].1),
                    None => r is None,
                }
            }),
    {
        let n: &str = match name {
            Some(n) => n,
            None => self.current_profile.as_str(),
        };
        let mut i: usize = 0;
        assert(self.profiles@.skip(0) == self.profiles@);
        while i < self.profiles.len()
            invariant
                i <= self.profiles.len(),
                n@ == (match name {
                    Some(x) => x@,
                    None => self.current_profile@,
                }),
                profile_index(self.profiles@, n@) == (match profile_index(
                    self.profiles@.skip(i as int),
                    n@,
                ) {
                    Some(j) => Some(j + i),
                    None => None,
                }),
            decreases self.profiles.len() - i,
        {
            assert(self.profiles@.skip(i as int).drop_first() == self.profiles@.skip(i + 1));
            assert(self.profiles@.skip(i as int)[0] == self.profiles@[i as int]);
            if str_eq(self.profiles[i].0.as_str(), n) {
                return Some(&self.profiles[i].1);
            }
            i += 1;
        }
        None
    }
}

/// The entry point of every operation: the context, the configuration, the
/// profile in use and the settings given on the command line.
#[derive(Clone, Debug)]
pub struct ServiceHub {
    ctx: AppContext,
    config: ConfigStore,
    profile_name: String,
    db_path_override: Option<String>,
    decrypt_key_override: Option<String>,
    wxid_override: Option<String>,
    /// Whether progress reports are shown.
    pub progress_enabled: bool,
}

/// What opening the account's databases needs.
#[derive(Clone, Debug)]
pub struct ConnectionInputs {
    /// The database directory (the account directory is resolved from it and the account id).
    pub db_path: String,
    pub key: String,
    pub wxid: Option<String>,
}

/// The account directory to open: resolved from the database directory and
/// the account id when there is an id, else the database directory itself.
#[derive(Clone, Debug)]
pub enum AccountDir {
    Resolve { db_path: String, wxid: String },
    Path(String),
}

impl ConnectionInputs {
    /// Which directory the account is opened in.
    pub fn account_dir(&self) -> (r: AccountDir)
        ensures
            self.wxid matches Some(w) ==> (r matches AccountDir::Resolve { db_path, wxid }
                && db_path@ == self.db_path@ && wxid@ == w@),
            self.wxid is None ==> (r matches AccountDir::Path(p) && p@ == self.db_path@),
    {
        match &self.wxid {
            Some(w) => AccountDir::Resolve { db_path: self.db_path.clone(), wxid: w.clone() },
            None => AccountDir::Path(self.db_path.clone()),
        }
    }
}

/// A progress report to show.
#[derive(Clone, Debug)]
pub struct ProgressEvent {
    pub stage: String,
    pub message: String,
    pub current: usize,
    pub total: usize,
}

/// The first present value, as a view.
pub open spec fn first_some(a: Option<String>, b: Option<String>) -> Option<Seq<char>> {
    match a {
        Some(x) => Some(x@),
        None => match b {
            Some(y) => Some(y@),
            None => None,
        },
    }
}

fn clone_first(a: &Option<String>, b: &Option<String>) -> (r: Option<String>)
    ensures
        (match r {
            Some(x) => Some(x@),
            None => None,
        }) == first_some(*a, *b),
{
    match a {
        Some(x) => Some(x.clone()),
        None => match b {
            Some(y) => Some(y.clone()),
            None => None,
        },
    }
}

impl ServiceHub {
    pub closed spec fn spec_ctx(&self) -> AppContext {
        self.ctx
    }

    pub closed spec fn spec_config(&self) -> ConfigStore {
        self.config
    }

    pub closed spec fn spec_profile_name(&self) -> Seq<char> {
        self.profile_name@
    }

    pub closed spec fn spec_db_path_override(&self) -> Option<String> {
        self.db_path_override
    }

    pub closed spec fn spec_decrypt_key_override(&self) -> Option<String> {
        self.decrypt_key_override
    }

    pub closed spec fn spec_wxid_override(&self) -> Option<String> {
        self.wxid_override
    }

    pub closed spec fn spec_progress_enabled(&self) -> bool {
        self.progress_enabled
    }

    /// Whether progress reports are shown.
    pub fn progress_enabled(&self) -> (b: bool)
        ensures
            b == self.spec_progress_enabled(),
    {
        self.progress_enabled
    }

    /// Turns progress reports on or off; nothing else changes.
    pub fn set_progress_enabled(&mut self, on: bool)
        ensures
            final(self).spec_progress_enabled() == on,
            final(self).spec_ctx() == old(self).spec_ctx(),
            final(self).spec_config() == old(self).spec_config(),
            final(self).spec_profile_name() == old(self).spec_profile_name(),
            final(self).spec_db_path_override() == old(self).spec_db_path_override(),
            final(self).spec_decrypt_key_override() == old(self).spec_decrypt_key_override(),
            final(self).spec_wxid_override() == old(self).spec_wxid_override(),
    {
        self.progress_enabled = on;
    }

    /// The profile the hub uses, if the configuration has it.
    pub open spec fn spec_profile(&self) -> Option<ProfileConfig> {
        match profile_index(self.spec_config().profiles@, self.spec_profile_name()) {
            Some(i) => Some(self.spec_config().profiles@[i].1),
            None => None,
        }
    }

    /// A hub for the named profile (the configuration's current profile when
    /// none is named), with progress reports off.
    pub fn new(
        ctx: AppContext,
        config: ConfigStore,
        profile_name: Option<String>,
        db_path_override: Option<String>,
        decrypt_key_override: Option<String>,
        wxid_override: Option<String>,
    ) -> (hub: ServiceHub)
        ensures
            hub.spec_ctx() == ctx,
            hub.spec_config() == config,
            hub.spec_profile_name() == match profile_name {
                Some(n) => n@,
                None => config.current_profile@,
            },
            hub.spec_db_path_override() == db_path_override,
            hub.spec_decrypt_key_override() == decrypt_key_override,
            hub.spec_wxid_override() == wxid_override,
            !hub.spec_progress_enabled(),
    {
        let profile_name = match profile_name {
            Some(n) => n,
            None => config.current_profile.clone(),
        };
        ServiceHub {
            ctx,
            config,
            profile_name,
            db_path_override,
            decrypt_key_override,
            wxid_override,
            progress_enabled: false,
        }
    }

    pub fn context(&self) -> (c: &AppContext)
        ensures
            *c == self.spec_ctx(),
    {
        &self.ctx
    }

    /// The name of the profile in use.
    pub fn profile_name(&self) -> (n: &str)
        ensures
            n@ == self.spec_profile_name(),
    {
        self.profile_name.as_str()
    }

    /// The profile in use, or a configuration error naming it.
    pub fn profile(&self) -> (r: Result<&ProfileConfig, AppError>)
        ensures
            self.spec_profile() matches Some(p) ==> r == Ok::<&ProfileConfig, AppError>(&p),
            self.spec_profile() is None ==> is_app_error(
                r,
                ErrorKind::Config,
                "profile not found: "@ + self.spec_profile_name(),
            ),
    {
        match self.config.profile(Some(self.profile_name.as_str())) {
            Some(p) => Ok(p),
            None => Err(AppError { kind: ErrorKind::Config, message: concat("profile not found: ", self.profile_name.as_str()) }),
        }
    }

    /// The database directory, key and account id to connect with: the
    /// command-line settings, else the profile's; a missing directory or key
    /// is a configuration error.
    pub fn connection_inputs(&self) -> (r: Result<ConnectionInputs, AppError>)
        ensures
            self.spec_profile() is None ==> is_app_error(
                r,
                ErrorKind::Config,
                "profile not found: "@ + self.spec_profile_name(),
            ),
            self.spec_profile() matches Some(p) ==> {
                let db = first_some(self.spec_db_path_override(), p.db_path);
                let key = first_some(self.spec_decrypt_key_override(), p.decrypt_key);
                let wxid = first_some(self.spec_wxid_override(), p.wxid);
                &&& db is None ==> is_app_error(
                    r,
                    ErrorKind::Config,
                    "missing db_path; pass --db-path or run config set db_path"@,
                )
                &&& db is Some && key is None ==> is_app_error(
                    r,
                    ErrorKind::Config,
                    "missing decrypt_key; pass --decrypt-key or run config set decrypt_key"@,
                )
                &&& db is Some && key is Some ==> (r matches Ok(c) && Some(c.db_path@) == db
                    && Some(c.key@) == key && (match c.wxid {
                    Some(w) => Some(w@),
                    None => None,
                }) == wxid)
            },
    {
        let profile = self.profile()?;
        let db_path = match clone_first(&self.db_path_override, &profile.db_path) {
            Some(d) => d,
            None => {
                return Err(
                    AppError::config("missing db_path; pass --db-path or run config set db_path"),
                );
            },
        };
        let key = match clone_first(&self.decrypt_key_override, &profile.decrypt_key) {
            Some(k) => k,
            None => {
                return Err(
                    AppError::config(
                        "missing decrypt_key; pass --decrypt-key or run config set decrypt_key",
                    ),
                );
            },
        };
        let wxid = clone_first(&self.wxid_override, &profile.wxid);
        Ok(ConnectionInputs { db_path, key, wxid })
    }

    /// The account id for reports: the command-line one, else the profile's.
    pub fn my_wxid(&self) -> (r: Result<Option<String>, AppError>)
        ensures
            self.spec_profile() is None ==> is_app_error(
                r,
                ErrorKind::Config,
                "profile not found: "@ + self.spec_profile_name(),
            ),
            self.spec_profile() matches Some(p) ==> (r matches Ok(w) && (match w {
                Some(x) => Some(x@),
                None => None,
            }) == first_some(self.spec_wxid_override(), p.wxid)),
    {
        let profile = self.profile()?;
        Ok(clone_first(&self.wxid_override, &profile.wxid))
    }

    /// The progress report to show, when progress reports are on.
    pub fn emit_progress(&self, stage: &str, message: &str, current: usize, total: usize) -> (r:
        Option<ProgressEvent>)
        ensures
            !self.spec_progress_enabled() ==> r is None,
            self.spec_progress_enabled() ==> (r matches Some(e) && e.stage@ == stage@ && e.message@
                == message@ && e.current == current && e.total == total),
    {
        if self.progress_enabled {
            Some(
                ProgressEvent {
                    stage: String::from_str(stage),
                    message: String::from_str(message),
                    current,
                    total,
                },
            )
        } else {
            None
        }
    }

    /// Operations that this build does not offer.
    pub fn unsupported(&self, feature: &str) -> (r: Result<JsonValue, AppError>)
        ensures
            is_app_error(r, ErrorKind::Runtime, feature@ + " is not yet ported to the native Rust CLI"@),
    {
        Err(AppError { kind: ErrorKind::Runtime, message: concat(feature, " is not yet ported to the native Rust CLI") })
    }

    /// The sessions excluded from analytics: none.
    pub fn analytics_excluded(&self) -> (r: Result<JsonValue, AppError>)
        ensures
            r matches Ok(v) && v@ == Json::Object(seq![("sessions"@, Json::Array(seq![]))]),
    {
        let mut f = no_fields();
        add_field(&mut f, "sessions", JsonValue::Array(no_items()));
        Ok(JsonValue::Object(f))
    }
}

} // verus!
