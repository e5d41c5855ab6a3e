//! A layered configuration loader: several JSON documents and a set of
//! environment variables are deep-merged into one configuration object.

pub mod from_env;
pub mod from_file;
pub mod json;
pub mod merge_sources;
pub mod value;

pub use from_env::{from_env, EnvVar};
pub use merge_sources::merge_sources;
pub use value::{Json, JsonValue};

use vstd::prelude::*;
use vstd::string::StrSliceExecFns;

use crate::from_env::ingests;
use crate::merge_sources::{folds_to, rooted};
use crate::value::wf;

verus! {

/// Why a configuration could not be loaded.
#[derive(Debug)]
pub enum ConfigError {
    /// The value of the environment variable `key` (the name without its
    /// prefix) is not valid text; `value` is a lossy rendering of it.
    InvalidEnvEncoding { key: String, value: String },
    /// The file `path` could not be located; `cwd` is the working directory,
    /// where it is known.
    ResolvePath { path: String, cwd: Option<String>, reason: String },
    /// The file `path` exists but could not be read.
    FileOpenFailed { path: String, reason: String },
    /// The file `path` holds no JSON text.
    InvalidJson { path: String, reason: String },
}

/// The prefix of the environment variables read where none is given.
pub const DEFAULT_PREFIX: &'static str = "CONF_";

/// The secrets file where none is given.
pub const SECRET_FILE: &'static str = "config.secret.json";

/// The environment name where none is given.
pub const DEFAULT_ENVIRONMENT: &'static str = "local";

/// The file of defaults within the configuration directory.
pub const DEFAULT_FILE: &'static str = "config.default.json";

/// `root` and `extra` joined into one path, `/` between them: an absolute
/// `extra` stands alone, as does any `extra` after an empty `root`.
pub open spec fn joined(root: Seq<char>, extra: Seq<char>) -> Seq<char> {
    if extra.len() > 0 && extra[0] == '/' {
        extra
    } else if root.len() == 0 {
        extra
    } else if root.last() == '/' {
        root + extra
    } else {
        root + seq!['/'] + extra
    }
}

/// Joins the path `extra` onto the directory `root`.
pub fn join(root: &str, extra: &str) -> (r: String)
    ensures
        r@ == joined(root@, extra@),
{
    let n = root.unicode_len();
    let m = extra.unicode_len();
    if m > 0 && extra.get_char(0) == '/' {
        return extra.to_owned();
    }
    if n == 0 {
        return extra.to_owned();
    }
    let mut r = root.to_owned();
    if root.get_char(n - 1) != '/' {
        r.append("/");
        proof {
            reveal_strlit("/");
        }
    }
    r.append(extra);
    r
}

/// The name of the file of the environment `env`: `config.<env>.json`.
pub fn env_file(env: &str) -> (r: String)
    ensures
        r@ == "config."@ + env@ + ".json"@,
{
    let mut r = String::from_str("config.");
    r.append(env);
    r.append(".json");
    r
}

/// Where the configuration is read from, and under which prefix.
pub struct Config {
    /// Only environment variables whose names begin with it are read.
    pub prefix: String,
    /// The directory of the configuration files.
    pub dir: String,
    /// The path of the secrets file.
    pub secrets_file: String,
    /// The name of the environment, which picks `config.<name>.json`.
    pub service_env: String,
}

/// The secrets file: `secret_file` where it is given, else `config.secret.json`.
pub open spec fn secrets_or_default(secret_file: Option<String>) -> Seq<char> {
    match secret_file {
        Some(f) => f@,
        None => SECRET_FILE@,
    }
}

/// The environment name: `service_env` where it is given, else `local`.
pub open spec fn env_or_default(service_env: Option<String>) -> Seq<char> {
    match service_env {
        Some(e) => e@,
        None => DEFAULT_ENVIRONMENT@,
    }
}

impl Config {
    /// The configuration used where nothing is given: prefix `CONF_`, the
    /// current directory, the secrets file `secret_file` (else
    /// `config.secret.json`) and the environment `service_env` (else `local`).
    pub fn standard(secret_file: Option<String>, service_env: Option<String>) -> (r: Config)
        ensures
            r.prefix@ == DEFAULT_PREFIX@,
            r.dir@ == Seq::<char>::empty(),
            r.secrets_file@ == secrets_or_default(secret_file),
            r.service_env@ == env_or_default(service_env),
    {
        Config {
            prefix: String::from_str(DEFAULT_PREFIX),
            dir: String::new(),
            secrets_file: match secret_file {
                Some(f) => f,
                None => String::from_str(SECRET_FILE),
            },
            service_env: match service_env {
                Some(e) => e,
                None => String::from_str(DEFAULT_ENVIRONMENT),
            },
        }
    }

    /// The standard configuration with the prefix `prefix`.
    pub fn for_prefix(prefix: &str, secret_file: Option<String>, service_env: Option<String>) -> (r: Config)
        ensures
            r.prefix@ == prefix@,
            r.dir@ == Seq::<char>::empty(),
            r.secrets_file@ == secrets_or_default(secret_file),
            r.service_env@ == env_or_default(service_env),
    {
        let mut c = Config::standard(secret_file, service_env);
        c.prefix = prefix.to_owned();
        c
    }

    /// The standard configuration in the directory `dir`, whose secrets
    /// file is `config.secret.json` there.
    pub fn for_dir(dir: &str, service_env: Option<String>) -> (r: Config)
        ensures
            r.prefix@ == DEFAULT_PREFIX@,
            r.dir@ == dir@,
            r.secrets_file@ == joined(dir@, SECRET_FILE@),
            r.service_env@ == env_or_default(service_env),
    {
        let mut c = Config::standard(None, service_env);
        c.dir = dir.to_owned();
        c.secrets_file = join(dir, SECRET_FILE);
        c
    }

    /// The path of the file of defaults.
    pub fn default_path(&self) -> (r: String)
        ensures
            r@ == joined(self.dir@, DEFAULT_FILE@),
    {
        join(self.dir.as_str(), DEFAULT_FILE)
    }

    /// The path of the file of this configuration's environment.
    pub fn env_path(&self) -> (r: String)
        ensures
            r@ == joined(self.dir@, "config."@ + self.service_env@ + ".json"@),
    {
        let name = env_file(self.service_env.as_str());
        join(self.dir.as_str(), name.as_str())
    }

    /// Assembles the configuration from the parsed files of defaults, of the
    /// environment and of secrets and from the environment variables `vars`,
    /// each taking precedence over those before it.
    pub fn load(&self, default: JsonValue, environment: JsonValue, secret: JsonValue, vars: &Vec<EnvVar>) -> (r: Result<Json, ConfigError>)
        requires
            wf(default),
            wf(environment),
            wf(secret),
        ensures
            r is Ok <==> forall|i: int| 0 <= i < vars.len() ==> !from_env::badly_encoded(self.prefix@, #[trigger] vars@[i]),
            r matches Ok(o) ==> exists|t: Json, m: JsonValue|
                ingests(self.prefix@, vars@, t@) && folds_to(default, seq![environment, secret, JsonValue::Object(t)], m) && rooted(m, o@),
            r matches Err(e) ==> from_env::first_bad_encoding(self.prefix@, vars@, e),
    {
        let t = match from_env(self.prefix.as_str(), vars) {
            Ok(t) => t,
            Err(e) => return Err(e),
        };
        let ghost tt = t;
        let rest = vec![environment, secret, JsonValue::Object(t)];
        proof {
            assert(rest@ =~= seq![environment, secret, JsonValue::Object(tt)]);
        }
        Ok(merge_sources(default, rest))
    }
}

} // verus!
