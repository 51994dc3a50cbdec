//! The service's configuration, read from the environment.
//!
//! A setting `section.key` is set by the variable `SECTION__KEY`: the
//! hierarchy separator is `__`, and the case of the letters does not
//! matter. The library is handed the variables as pairs of name and value.

use crate::text::{digits, names_match, parse_digits, same_name, value};
use vstd::prelude::*;
use vstd::string::StrSliceExecFns;

verus! {

/// The settings of the service.
#[derive(Clone, Copy, Debug, PartialEq, Eq, Structural)]
pub enum Setting {
    ServerHost,
    ServerPort,
    DatabaseUrl,
    DatabaseMaxConnections,
    DatabaseMinConnections,
    RedisUrl,
    JwtSecret,
    JwtExpiration,
    CorsAllowedOrigins,
    CorsAllowedMethods,
    CorsAllowedHeaders,
}

/// Why the configuration could not be read.
#[derive(Clone, Copy, Debug, PartialEq, Eq, Structural)]
pub enum ConfigError {
    /// A setting without a default is not set.
    Missing(Setting),
    /// A setting is set to something its type cannot hold.
    Invalid(Setting),
}

#[derive(Clone, Debug)]
pub struct ServerConfig {
    pub host: String,
    pub port: u16,
}

#[derive(Clone, Debug)]
pub struct DatabaseConfig {
    pub url: String,
    pub max_connections: u32,
    pub min_connections: u32,
}

#[derive(Clone, Debug)]
pub struct RedisConfig {
    pub url: String,
}

#[derive(Clone, Debug)]
pub struct JwtConfig {
    pub secret: String,
    /// Seconds a token stays valid.
    pub expiration: u64,
}

#[derive(Clone, Debug)]
pub struct CorsConfig {
    pub allowed_origins: Vec<String>,
    pub allowed_methods: Vec<String>,
    pub allowed_headers: Vec<String>,
}

#[derive(Clone, Debug)]
pub struct Config {
    pub server: ServerConfig,
    pub database: DatabaseConfig,
    pub redis: RedisConfig,
    pub jwt: JwtConfig,
    pub cors: CorsConfig,
}

/// What a configuration says.
pub struct ConfigView {
    pub host: Seq<char>,
    pub port: u16,
    pub database_url: Seq<char>,
    pub max_connections: u32,
    pub min_connections: u32,
    pub redis_url: Seq<char>,
    pub jwt_secret: Seq<char>,
    pub jwt_expiration: u64,
    pub allowed_origins: Seq<Seq<char>>,
    pub allowed_methods: Seq<Seq<char>>,
    pub allowed_headers: Seq<Seq<char>>,
}

/// The texts of a list of strings.
pub open spec fn texts(list: Seq<String>) -> Seq<Seq<char>> {
    Seq::new(list.len(), |i: int| list[i]@)
}

impl View for Config {
    type V = ConfigView;

    open spec fn view(&self) -> ConfigView {
        ConfigView {
            host: self.server.host@,
            port: self.server.port,
            database_url: self.database.url@,
            max_connections: self.database.max_connections,
            min_connections: self.database.min_connections,
            redis_url: self.redis.url@,
            jwt_secret: self.jwt.secret@,
            jwt_expiration: self.jwt.expiration,
            allowed_origins: texts(self.cors.allowed_origins@),
            allowed_methods: texts(self.cors.allowed_methods@),
            allowed_headers: texts(self.cors.allowed_headers@),
        }
    }
}

impl Setting {
    /// The name of the variable that sets the setting.
    pub open spec fn spec_env_name(self) -> Seq<char> {
        match self {
            Setting::ServerHost => "SERVER__HOST"@,
            Setting::ServerPort => "SERVER__PORT"@,
            Setting::DatabaseUrl => "DATABASE__URL"@,
            Setting::DatabaseMaxConnections => "DATABASE__MAX_CONNECTIONS"@,
            Setting::DatabaseMinConnections => "DATABASE__MIN_CONNECTIONS"@,
            Setting::RedisUrl => "REDIS__URL"@,
            Setting::JwtSecret => "JWT__SECRET"@,
            Setting::JwtExpiration => "JWT__EXPIRATION"@,
            Setting::CorsAllowedOrigins => "CORS__ALLOWED_ORIGINS"@,
            Setting::CorsAllowedMethods => "CORS__ALLOWED_METHODS"@,
            Setting::CorsAllowedHeaders => "CORS__ALLOWED_HEADERS"@,
        }
    }

    pub fn env_name(self) -> (name: &'static str)
        ensures
            name@ == self.spec_env_name(),
    {
        match self {
            Setting::ServerHost => "SERVER__HOST",
            Setting::ServerPort => "SERVER__PORT",
            Setting::DatabaseUrl => "DATABASE__URL",
            Setting::DatabaseMaxConnections => "DATABASE__MAX_CONNECTIONS",
            Setting::DatabaseMinConnections => "DATABASE__MIN_CONNECTIONS",
            Setting::RedisUrl => "REDIS__URL",
            Setting::JwtSecret => "JWT__SECRET",
            Setting::JwtExpiration => "JWT__EXPIRATION",
            Setting::CorsAllowedOrigins => "CORS__ALLOWED_ORIGINS",
            Setting::CorsAllowedMethods => "CORS__ALLOWED_METHODS",
            Setting::CorsAllowedHeaders => "CORS__ALLOWED_HEADERS",
        }
    }
}

/// The value of the variable called `name`, the case of letters aside. Of
/// several such variables the last one counts.
pub open spec fn lookup(vars: Seq<(String, String)>, name: Seq<char>) -> Option<Seq<char>>
    decreases vars.len(),
{
    if vars.len() == 0 {
        None
    } else if same_name(vars.last().0@, name) {
        Some(vars.last().1@)
    } else {
        lookup(vars.drop_last(), name)
    }
}

/// A text setting: the variable's value, else the default, else an error.
pub open spec fn text_setting(
    vars: Seq<(String, String)>,
    setting: Setting,
    default: Option<Seq<char>>,
) -> Result<Seq<char>, ConfigError> {
    match lookup(vars, setting.spec_env_name()) {
        Some(text) => Ok(text),
        None => match default {
            Some(text) => Ok(text),
            None => Err(ConfigError::Missing(setting)),
        },
    }
}

/// A number setting: the number the variable's value writes in digits, if
/// it is at most `max`; the default if the variable is not set.
pub open spec fn number_setting(
    vars: Seq<(String, String)>,
    setting: Setting,
    default: u64,
    max: u64,
) -> Result<u64, ConfigError> {
    match lookup(vars, setting.spec_env_name()) {
        Some(text) => if text.len() > 0 && digits(text) && value(text) <= max {
            Ok(value(text) as u64)
        } else {
            Err(ConfigError::Invalid(setting))
        },
        None => Ok(default),
    }
}

/// A list setting: the default. A variable cannot hold a list, so one
/// that is set is an error.
pub open spec fn list_setting(
    vars: Seq<(String, String)>,
    setting: Setting,
    default: Seq<Seq<char>>,
) -> Result<Seq<Seq<char>>, ConfigError> {
    match lookup(vars, setting.spec_env_name()) {
        Some(_) => Err(ConfigError::Invalid(setting)),
        None => Ok(default),
    }
}

/// The configuration that the variables give, or the error of the first
/// setting, in the order of the fields, that cannot be read.
pub open spec fn loaded(vars: Seq<(String, String)>) -> Result<ConfigView, ConfigError> {
    let host = text_setting(vars, Setting::ServerHost, Some("0.0.0.0"@));
    let port = number_setting(vars, Setting::ServerPort, 8080, 65535);
    let database_url = text_setting(vars, Setting::DatabaseUrl, None);
    let max_connections = number_setting(vars, Setting::DatabaseMaxConnections, 10, 0xffff_ffff);
    let min_connections = number_setting(vars, Setting::DatabaseMinConnections, 2, 0xffff_ffff);
    let redis_url = text_setting(vars, Setting::RedisUrl, None);
    let jwt_secret = text_setting(vars, Setting::JwtSecret, None);
    let jwt_expiration = number_setting(
        vars,
        Setting::JwtExpiration,
        86400,
        0xffff_ffff_ffff_ffff,
    );
    let origins = list_setting(vars, Setting::CorsAllowedOrigins, seq!["*"@]);
    let methods = list_setting(
        vars,
        Setting::CorsAllowedMethods,
        seq!["GET"@, "POST"@, "PUT"@, "DELETE"@, "OPTIONS"@],
    );
    let headers = list_setting(vars, Setting::CorsAllowedHeaders, seq!["*"@]);
    if host is Err {
        Err(host->Err_0)
    } else if port is Err {
        Err(port->Err_0)
    } else if database_url is Err {
        Err(database_url->Err_0)
    } else if max_connections is Err {
        Err(max_connections->Err_0)
    } else if min_connections is Err {
        Err(min_connections->Err_0)
    } else if redis_url is Err {
        Err(redis_url->Err_0)
    } else if jwt_secret is Err {
        Err(jwt_secret->Err_0)
    } else if jwt_expiration is Err {
        Err(jwt_expiration->Err_0)
    } else if origins is Err {
        Err(origins->Err_0)
    } else if methods is Err {
        Err(methods->Err_0)
    } else if headers is Err {
        Err(headers->Err_0)
    } else {
        Ok(
            ConfigView {
                host: host->Ok_0,
                port: port->Ok_0 as u16,
                database_url: database_url->Ok_0,
                max_connections: max_connections->Ok_0 as u32,
                min_connections: min_connections->Ok_0 as u32,
                redis_url: redis_url->Ok_0,
                jwt_secret: jwt_secret->Ok_0,
                jwt_expiration: jwt_expiration->Ok_0,
                allowed_origins: origins->Ok_0,
                allowed_methods: methods->Ok_0,
                allowed_headers: headers->Ok_0,
            },
        )
    }
}

/// The settings as a loader hands them over: texts, numbers and lists,
/// each under its key, such as `server.port`.
#[derive(Debug)]
pub struct Settings {
    pub texts: Vec<(String, String)>,
    pub numbers: Vec<(String, i64)>,
    pub lists: Vec<(String, Vec<String>)>,
}

/// The value under the key `key`, the case of letters aside; of several
/// the last one counts.
pub open spec fn keyed<T>(entries: Seq<(String, T)>, key: Seq<char>) -> Option<T>
    decreases entries.len(),
{
    if entries.len() == 0 {
        None
    } else if same_name(entries.last().0@, key) {
        Some(entries.last().1)
    } else {
        keyed(entries.drop_last(), key)
    }
}

/// The value of the variable called exactly `name`; of several the last
/// one counts.
pub open spec fn variable(vars: Seq<(String, String)>, name: Seq<char>) -> Option<Seq<char>>
    decreases vars.len(),
{
    if vars.len() == 0 {
        None
    } else if vars.last().0@ == name {
        Some(vars.last().1@)
    } else {
        variable(vars.drop_last(), name)
    }
}

/// The number under `key`, else `default`, cut to 16 bits.
pub open spec fn number16(numbers: Seq<(String, i64)>, key: Seq<char>, default: i64) -> u16 {
    (match keyed(numbers, key) {
        Some(v) => v,
        None => default,
    } % 0x1_0000) as u16
}

/// The number under `key`, else `default`, cut to 32 bits.
pub open spec fn number32(numbers: Seq<(String, i64)>, key: Seq<char>, default: i64) -> u32 {
    (match keyed(numbers, key) {
        Some(v) => v,
        None => default,
    } % 0x1_0000_0000) as u32
}

/// The number under `key`, else `default`, taken as 64 bits without a
/// sign.
pub open spec fn number64(numbers: Seq<(String, i64)>, key: Seq<char>, default: i64) -> u64 {
    (match keyed(numbers, key) {
        Some(v) => v,
        None => default,
    } as int % 0x1_0000_0000_0000_0000int) as u64
}

/// The configuration that settings and variables give: each setting from
/// the settings or else its default; the database URL, the cache URL and
/// the token secret from the variables `DATABASE_URL`, `REDIS_URL` and
/// `JWT_SECRET`.
pub open spec fn settled(settings: Settings, vars: Seq<(String, String)>) -> ConfigView {
    ConfigView {
        host: match keyed(settings.texts@, "server.host"@) {
            Some(text) => text@,
            None => "0.0.0.0"@,
        },
        port: number16(settings.numbers@, "server.port"@, 8080),
        database_url: variable(vars, "DATABASE_URL"@)->0,
        max_connections: number32(settings.numbers@, "database.max_connections"@, 10),
        min_connections: number32(settings.numbers@, "database.min_connections"@, 2),
        redis_url: match variable(vars, "REDIS_URL"@) {
            Some(text) => text,
            None => "redis://localhost:6379"@,
        },
        jwt_secret: variable(vars, "JWT_SECRET"@)->0,
        jwt_expiration: number64(settings.numbers@, "jwt.expiration"@, 86400),
        allowed_origins: match keyed(settings.lists@, "cors.allowed_origins"@) {
            Some(list) => texts(list@),
            None => seq!["*"@],
        },
        allowed_methods: match keyed(settings.lists@, "cors.allowed_methods"@) {
            Some(list) => texts(list@),
            None => seq!["GET"@, "POST"@],
        },
        allowed_headers: match keyed(settings.lists@, "cors.allowed_headers"@) {
            Some(list) => texts(list@),
            None => seq!["*"@],
        },
    }
}

fn find_text<'a>(entries: &'a Vec<(String, String)>, key: &str) -> (r: Option<&'a String>)
    ensures
        r is Some <==> keyed(entries@, key@) is Some,
        r matches Some(text) ==> keyed(entries@, key@) == Some(*text),
{
    let mut i: usize = entries.len();
    proof {
        assert(entries@.take(i as int) =~= entries@);
    }
    while i > 0
        invariant
            i <= entries@.len(),
            keyed(entries@, key@) == keyed(entries@.take(i as int), key@),
        decreases i,
    {
        i = i - 1;
        proof {
            assert(entries@.take(i + 1).drop_last() =~= entries@.take(i as int));
            assert(entries@.take(i + 1).last() == entries@[i as int]);
        }
        if names_match(entries[i].0.as_str(), key) {
            return Some(&entries[i].1);
        }
    }
    None
}

fn find_number(entries: &Vec<(String, i64)>, key: &str, default: i64) -> (r: i64)
    ensures
        r == match keyed(entries@, key@) {
            Some(v) => v,
            None => default,
        },
{
    let mut i: usize = entries.len();
    proof {
        assert(entries@.take(i as int) =~= entries@);
    }
    while i > 0
        invariant
            i <= entries@.len(),
            keyed(entries@, key@) == keyed(entries@.take(i as int), key@),
        decreases i,
    {
        i = i - 1;
        proof {
            assert(entries@.take(i + 1).drop_last() =~= entries@.take(i as int));
            assert(entries@.take(i + 1).last() == entries@[i as int]);
        }
        if names_match(entries[i].0.as_str(), key) {
            return entries[i].1;
        }
    }
    default
}

fn find_list<'a>(entries: &'a Vec<(String, Vec<String>)>, key: &str) -> (r: Option<
    &'a Vec<String>,
>)
    ensures
        r is Some <==> keyed(entries@, key@) is Some,
        r matches Some(list) ==> keyed(entries@, key@) == Some(*list),
{
    let mut i: usize = entries.len();
    proof {
        assert(entries@.take(i as int) =~= entries@);
    }
    while i > 0
        invariant
            i <= entries@.len(),
            keyed(entries@, key@) == keyed(entries@.take(i as int), key@),
        decreases i,
    {
        i = i - 1;
        proof {
            assert(entries@.take(i + 1).drop_last() =~= entries@.take(i as int));
            assert(entries@.take(i + 1).last() == entries@[i as int]);
        }
        if names_match(entries[i].0.as_str(), key) {
            return Some(&entries[i].1);
        }
    }
    None
}

fn find_variable<'a>(vars: &'a Vec<(String, String)>, name: &str) -> (r: Option<&'a String>)
    ensures
        r is Some <==> variable(vars@, name@) is Some,
        r matches Some(text) ==> variable(vars@, name@) == Some(text@),
{
    let wanted: String = name.to_owned();
    let mut i: usize = vars.len();
    proof {
        assert(vars@.take(i as int) =~= vars@);
    }
    while i > 0
        invariant
            i <= vars@.len(),
            wanted@ == name@,
            variable(vars@, name@) == variable(vars@.take(i as int), name@),
        decreases i,
    {
        i = i - 1;
        proof {
            assert(vars@.take(i + 1).drop_last() =~= vars@.take(i as int));
            assert(vars@.take(i + 1).last() == vars@[i as int]);
        }
        if vars[i].0 == wanted {
            return Some(&vars[i].1);
        }
    }
    None
}

/// A copy of `list`.
fn copy_list(list: &Vec<String>) -> (copy: Vec<String>)
    ensures
        texts(copy@) == texts(list@),
{
    let mut copy: Vec<String> = Vec::new();
    let mut i: usize = 0;
    while i < list.len()
        invariant
            i <= list@.len(),
            copy@.len() == i,
            forall|k: int| 0 <= k < i ==> (#[trigger] copy@[k])@ == list@[k]@,
        decreases list@.len() - i,
    {
        copy.push(list[i].clone());
        i = i + 1;
    }
    proof {
        assert(texts(copy@) =~= texts(list@));
    }
    copy
}

/// The list that holds `GET` and `POST`.
fn get_and_post() -> (list: Vec<String>)
    ensures
        texts(list@) == seq!["GET"@, "POST"@],
{
    let mut list: Vec<String> = Vec::new();
    list.push("GET".to_owned());
    list.push("POST".to_owned());
    proof {
        assert(texts(list@) =~= seq!["GET"@, "POST"@]);
    }
    list
}

/// The value of the variable called `name`.
fn find<'a>(vars: &'a Vec<(String, String)>, name: &str) -> (r: Option<&'a String>)
    ensures
        r is Some <==> lookup(vars@, name@) is Some,
        r matches Some(text) ==> lookup(vars@, name@) == Some(text@),
{
    let mut i: usize = vars.len();
    proof {
        assert(vars@.take(i as int) =~= vars@);
    }
    while i > 0
        invariant
            i <= vars@.len(),
            lookup(vars@, name@) == lookup(vars@.take(i as int), name@),
        decreases i,
    {
        i = i - 1;
        proof {
            assert(vars@.take(i + 1).drop_last() =~= vars@.take(i as int));
            assert(vars@.take(i + 1).last() == vars@[i as int]);
        }
        if names_match(vars[i].0.as_str(), name) {
            return Some(&vars[i].1);
        }
    }
    None
}

fn read_text(vars: &Vec<(String, String)>, setting: Setting, default: Option<&str>) -> (r: Result<
    String,
    ConfigError,
>)
    ensures
        match r {
            Ok(text) => text_setting(
                vars@,
                setting,
                match default {
                    Some(d) => Some(d@),
                    None => None,
                },
            ) == Ok::<Seq<char>, ConfigError>(text@),
            Err(e) => text_setting(
                vars@,
                setting,
                match default {
                    Some(d) => Some(d@),
                    None => None,
                },
            ) == Err::<Seq<char>, ConfigError>(e),
        },
{
    match find(vars, setting.env_name()) {
        Some(text) => Ok(text.clone()),
        None => match default {
            Some(d) => Ok(d.to_owned()),
            None => Err(ConfigError::Missing(setting)),
        },
    }
}

fn read_number(vars: &Vec<(String, String)>, setting: Setting, default: u64, max: u64) -> (r:
    Result<u64, ConfigError>)
    ensures
        r == number_setting(vars@, setting, default, max),
        r matches Ok(v) ==> v <= max || v == default,
{
    match find(vars, setting.env_name()) {
        Some(text) => {
            let n: usize = text.as_str().unicode_len();
            proof {
                assert(text@.subrange(0, n as int) =~= text@);
            }
            if n == 0 {
                return Err(ConfigError::Invalid(setting));
            }
            match parse_digits(text.as_str(), 0, n, max as u128) {
                Some(v) => Ok(v as u64),
                None => Err(ConfigError::Invalid(setting)),
            }
        },
        None => Ok(default),
    }
}

fn read_list(vars: &Vec<(String, String)>, setting: Setting, default: Vec<String>) -> (r: Result<
    Vec<String>,
    ConfigError,
>)
    ensures
        match r {
            Ok(list) => list_setting(vars@, setting, texts(default@)) == Ok::<
                Seq<Seq<char>>,
                ConfigError,
            >(texts(list@)),
            Err(e) => list_setting(vars@, setting, texts(default@)) == Err::<
                Seq<Seq<char>>,
                ConfigError,
            >(e),
        },
{
    match find(vars, setting.env_name()) {
        Some(_) => Err(ConfigError::Invalid(setting)),
        None => Ok(default),
    }
}

/// `v` cut to 16 bits, as a cast does.
fn cut16(v: i64) -> (r: u16)
    ensures
        r == (v % 0x1_0000) as u16,
{
    match v.checked_rem_euclid(0x1_0000) {
        Some(m) => m as u16,
        None => 0,
    }
}

/// `v` cut to 32 bits, as a cast does.
fn cut32(v: i64) -> (r: u32)
    ensures
        r == (v % 0x1_0000_0000) as u32,
{
    match v.checked_rem_euclid(0x1_0000_0000) {
        Some(m) => m as u32,
        None => 0,
    }
}

/// `v` taken as 64 bits without a sign, as a cast does.
fn cut64(v: i64) -> (r: u64)
    ensures
        r == (v as int % 0x1_0000_0000_0000_0000int) as u64,
{
    if v >= 0 {
        v as u64
    } else {
        (v as i128 + 0x1_0000_0000_0000_0000) as u64
    }
}

/// The list that holds `"*"` alone.
fn any() -> (list: Vec<String>)
    ensures
        texts(list@) == seq!["*"@],
{
    let mut list: Vec<String> = Vec::new();
    list.push("*".to_owned());
    proof {
        assert(texts(list@) =~= seq!["*"@]);
    }
    list
}

/// The methods allowed by default.
fn default_methods() -> (list: Vec<String>)
    ensures
        texts(list@) == seq!["GET"@, "POST"@, "PUT"@, "DELETE"@, "OPTIONS"@],
{
    let mut list: Vec<String> = Vec::new();
    list.push("GET".to_owned());
    list.push("POST".to_owned());
    list.push("PUT".to_owned());
    list.push("DELETE".to_owned());
    list.push("OPTIONS".to_owned());
    proof {
        assert(texts(list@) =~= seq!["GET"@, "POST"@, "PUT"@, "DELETE"@, "OPTIONS"@]);
    }
    list
}

impl Config {
    /// Builds the configuration from settings already loaded and from the
    /// variables of the environment. A setting that is missing takes its
    /// default; a number is cut to the width of its field. The variables
    /// `DATABASE_URL` and `JWT_SECRET` must be set.
    pub fn from_settings(settings: &Settings, vars: &Vec<(String, String)>) -> (config: Config)
        requires
            variable(vars@, "DATABASE_URL"@) is Some,
            variable(vars@, "JWT_SECRET"@) is Some,
        ensures
            config@ == settled(*settings, vars@),
    {
        let host: String = match find_text(&settings.texts, "server.host") {
            Some(text) => text.clone(),
            None => "0.0.0.0".to_owned(),
        };
        let port: i64 = find_number(&settings.numbers, "server.port", 8080);
        let max_connections: i64 = find_number(&settings.numbers, "database.max_connections", 10);
        let min_connections: i64 = find_number(&settings.numbers, "database.min_connections", 2);
        let expiration: i64 = find_number(&settings.numbers, "jwt.expiration", 86400);
        let url: String = match find_variable(vars, "DATABASE_URL") {
            Some(text) => text.clone(),
            None => String::new(),
        };
        let redis_url: String = match find_variable(vars, "REDIS_URL") {
            Some(text) => text.clone(),
            None => "redis://localhost:6379".to_owned(),
        };
        let secret: String = match find_variable(vars, "JWT_SECRET") {
            Some(text) => text.clone(),
            None => String::new(),
        };
        let allowed_origins: Vec<String> = match find_list(&settings.lists, "cors.allowed_origins") {
            Some(list) => copy_list(list),
            None => any(),
        };
        let allowed_methods: Vec<String> = match find_list(&settings.lists, "cors.allowed_methods") {
            Some(list) => copy_list(list),
            None => get_and_post(),
        };
        let allowed_headers: Vec<String> = match find_list(&settings.lists, "cors.allowed_headers") {
            Some(list) => copy_list(list),
            None => any(),
        };
        Config {
            server: ServerConfig { host, port: cut16(port) },
            database: DatabaseConfig {
                url,
                max_connections: cut32(max_connections),
                min_connections: cut32(min_connections),
            },
            redis: RedisConfig { url: redis_url },
            jwt: JwtConfig { secret, expiration: cut64(expiration) },
            cors: CorsConfig { allowed_origins, allowed_methods, allowed_headers },
        }
    }

    /// Reads the configuration from the variables of the environment.
    ///
    /// The server listens on `0.0.0.0:8080`, the database pool holds 2 to
    /// 10 connections and a token stays valid a day, unless the variables
    /// say otherwise; the database URL, the cache URL and the token secret
    /// have no default.
    pub fn from_env(vars: &Vec<(String, String)>) -> (r: Result<Config, ConfigError>)
        ensures
            match r {
                Ok(config) => loaded(vars@) == Ok::<ConfigView, ConfigError>(config@),
                Err(e) => loaded(vars@) == Err::<ConfigView, ConfigError>(e),
            },
    {
        let host = match read_text(vars, Setting::ServerHost, Some("0.0.0.0")) {
            Ok(v) => v,
            Err(e) => {
                return Err(e);
            },
        };
        let port: u64 = match read_number(vars, Setting::ServerPort, 8080, 65535) {
            Ok(v) => v,
            Err(e) => {
                return Err(e);
            },
        };
        let url = match read_text(vars, Setting::DatabaseUrl, None) {
            Ok(v) => v,
            Err(e) => {
                return Err(e);
            },
        };
        let max_connections: u64 = match read_number(
            vars,
            Setting::DatabaseMaxConnections,
            10,
            0xffff_ffff,
        ) {
            Ok(v) => v,
            Err(e) => {
                return Err(e);
            },
        };
        let min_connections: u64 = match read_number(
            vars,
            Setting::DatabaseMinConnections,
            2,
            0xffff_ffff,
        ) {
            Ok(v) => v,
            Err(e) => {
                return Err(e);
            },
        };
        let redis_url = match read_text(vars, Setting::RedisUrl, None) {
            Ok(v) => v,
            Err(e) => {
                return Err(e);
            },
        };
        let secret = match read_text(vars, Setting::JwtSecret, None) {
            Ok(v) => v,
            Err(e) => {
                return Err(e);
            },
        };
        let expiration: u64 = match read_number(
            vars,
            Setting::JwtExpiration,
            86400,
            0xffff_ffff_ffff_ffff,
        ) {
            Ok(v) => v,
            Err(e) => {
                return Err(e);
            },
        };
        let allowed_origins = match read_list(vars, Setting::CorsAllowedOrigins, any()) {
            Ok(v) => v,
            Err(e) => {
                return Err(e);
            },
        };
        let allowed_methods = match read_list(
            vars,
            Setting::CorsAllowedMethods,
            default_methods(),
        ) {
            Ok(v) => v,
            Err(e) => {
                return Err(e);
            },
        };
        let allowed_headers = match read_list(vars, Setting::CorsAllowedHeaders, any()) {
            Ok(v) => v,
            Err(e) => {
                return Err(e);
            },
        };
        Ok(
            Config {
                server: ServerConfig { host, port: port as u16 },
                database: DatabaseConfig {
                    url,
                    max_connections: max_connections as u32,
                    min_connections: min_connections as u32,
                },
                redis: RedisConfig { url: redis_url },
                jwt: JwtConfig { secret, expiration },
                cors: CorsConfig { allowed_origins, allowed_methods, allowed_headers },
            },
        )
    }
}

} // verus!
