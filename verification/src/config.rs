//! Settings, and how the places that they come from are combined.

use vstd::prelude::*;
use crate::text::{decimal, is_true, list_items, parse_decimal, says_true, split_list, strings};

verus! {

/// The settings of the proxy.
#[derive(Clone, Debug, PartialEq, Eq)]
pub struct Config {
    /// The address to listen on.
    pub bind_addr: String,
    /// The user name that clients have to give.
    pub username: Option<String>,
    /// The password that clients have to give.
    pub password: Option<String>,
    /// Whether outgoing IPv6 connections get a random source address.
    pub random_egress_ipv6: bool,
    /// The blocks that random source addresses come from.
    pub ipv6_blocks: Vec<String>,
    /// Whether IPv4 targets are refused while source addresses are random.
    pub force_ipv6: bool,
    /// The size of the buffer for each direction of a connection, in bytes.
    pub buffer_size: usize,
    /// How many connections are served at once; 0 for no limit.
    pub max_connections: usize,
    /// How long the handshake, and then the request, may take.
    pub handshake_timeout_secs: u64,
    /// How long a connection may be idle; 0 for no limit.
    pub idle_timeout_secs: u64,
    /// How much is logged.
    pub log_level: String,
}

/// What a [`Config`] stands for.
#[verifier::ext_equal]
pub struct Settings {
    pub bind_addr: Seq<char>,
    pub username: Option<Seq<char>>,
    pub password: Option<Seq<char>>,
    pub random_egress_ipv6: bool,
    pub ipv6_blocks: Seq<Seq<char>>,
    pub force_ipv6: bool,
    pub buffer_size: usize,
    pub max_connections: usize,
    pub handshake_timeout_secs: u64,
    pub idle_timeout_secs: u64,
    pub log_level: Seq<char>,
}

/// What an optional string holds.
pub open spec fn text(o: Option<String>) -> Option<Seq<char>> {
    match o {
        Some(s) => Some(s@),
        None => None,
    }
}

impl View for Config {
    type V = Settings;

    open spec fn view(&self) -> Settings {
        Settings {
            bind_addr: self.bind_addr@,
            username: text(self.username),
            password: text(self.password),
            random_egress_ipv6: self.random_egress_ipv6,
            ipv6_blocks: strings(self.ipv6_blocks@),
            force_ipv6: self.force_ipv6,
            buffer_size: self.buffer_size,
            max_connections: self.max_connections,
            handshake_timeout_secs: self.handshake_timeout_secs,
            idle_timeout_secs: self.idle_timeout_secs,
            log_level: self.log_level@,
        }
    }
}

/// The settings where nothing is set.
pub open spec fn default_settings() -> Settings {
    Settings {
        bind_addr: "0.0.0.0:1080"@,
        username: None,
        password: None,
        random_egress_ipv6: false,
        ipv6_blocks: Seq::empty(),
        force_ipv6: false,
        buffer_size: 4096,
        max_connections: 0,
        handshake_timeout_secs: 10,
        idle_timeout_secs: 0,
        log_level: "info"@,
    }
}

impl Default for Config {
    fn default() -> (r: Config)
        ensures
            r@ == default_settings(),
    {
        let r = Config {
            bind_addr: "0.0.0.0:1080".to_owned(),
            username: None,
            password: None,
            random_egress_ipv6: false,
            ipv6_blocks: Vec::new(),
            force_ipv6: false,
            buffer_size: 4096,
            max_connections: 0,
            handshake_timeout_secs: 10,
            idle_timeout_secs: 0,
            log_level: "info".to_owned(),
        };
        assert(strings(r.ipv6_blocks@) =~= Seq::<Seq<char>>::empty());
        r
    }
}

impl Settings {
    /// The bytes of the user name and the password that clients have to give, where both are set.
    pub open spec fn credentials(self) -> Option<(Seq<u8>, Seq<u8>)> {
        match (self.username, self.password) {
            (Some(u), Some(p)) => Some(
                (vstd::utf8::encode_utf8(u), vstd::utf8::encode_utf8(p)),
            ),
            _ => None,
        }
    }

    /// Whether IPv4 targets are refused.
    pub open spec fn refuses_ipv4(self) -> bool {
        self.random_egress_ipv6 && self.force_ipv6
    }

    /// How long a connection may be idle, in seconds, where that is limited.
    pub open spec fn idle_limit(self) -> Option<u64> {
        if self.idle_timeout_secs > 0 {
            Some(self.idle_timeout_secs)
        } else {
            None
        }
    }
}

impl Config {
    /// Whether clients have to give a user name and a password.
    pub fn auth_required(&self) -> (r: bool)
        ensures
            r == (self@.credentials() is Some),
    {
        self.username.is_some() && self.password.is_some()
    }

    /// Whether IPv4 targets are refused.
    pub fn refuses_ipv4(&self) -> (r: bool)
        ensures
            r == self@.refuses_ipv4(),
    {
        self.random_egress_ipv6 && self.force_ipv6
    }

    /// How long a connection may be idle, in seconds, where that is limited.
    pub fn idle_timeout(&self) -> (r: Option<u64>)
        ensures
            r == self@.idle_limit(),
    {
        if self.idle_timeout_secs > 0 {
            Some(self.idle_timeout_secs)
        } else {
            None
        }
    }
}

/// The settings of a configuration file.
#[derive(Debug, PartialEq, Eq)]
pub struct FileConfig {
    pub bind_addr: Option<String>,
    pub username: Option<String>,
    pub password: Option<String>,
    pub random_egress_ipv6: Option<bool>,
    pub ipv6_blocks: Option<Vec<String>>,
    pub force_ipv6: Option<bool>,
    pub buffer_size: Option<usize>,
    pub max_connections: Option<usize>,
    pub handshake_timeout: Option<u64>,
    pub idle_timeout: Option<u64>,
    pub log_level: Option<String>,
}

/// The values of the environment variables, where they are set.
#[derive(Debug, PartialEq, Eq)]
pub struct EnvConfig {
    /// `SOCKS5_BIND`.
    pub bind: Option<String>,
    /// `SOCKS5_USERNAME`.
    pub username: Option<String>,
    /// `SOCKS5_PASSWORD`.
    pub password: Option<String>,
    /// `SOCKS5_RANDOM_IPV6`.
    pub random_ipv6: Option<String>,
    /// `SOCKS5_IPV6_BLOCKS`.
    pub ipv6_blocks: Option<String>,
    /// `SOCKS5_FORCE_IPV6`.
    pub force_ipv6: Option<String>,
    /// `SOCKS5_BUFFER_SIZE`.
    pub buffer_size: Option<String>,
    /// `SOCKS5_MAX_CONNECTIONS`.
    pub max_connections: Option<String>,
    /// `SOCKS5_HANDSHAKE_TIMEOUT`.
    pub handshake_timeout: Option<String>,
    /// `SOCKS5_IDLE_TIMEOUT`.
    pub idle_timeout: Option<String>,
    /// `SOCKS5_LOG`.
    pub log: Option<String>,
}

/// The settings of the command line.
#[derive(Debug, PartialEq, Eq)]
pub struct Args {
    pub bind: Option<String>,
    pub username: Option<String>,
    pub password: Option<String>,
    pub random_ipv6: Option<bool>,
    pub ipv6_block: Vec<String>,
    pub force_ipv6: Option<bool>,
    pub buffer_size: Option<usize>,
    pub max_connections: Option<usize>,
    pub handshake_timeout: Option<u64>,
    pub idle_timeout: Option<u64>,
    pub log_level: Option<String>,
}

/// Why settings cannot be used.
#[derive(Clone, Copy, Debug, PartialEq, Eq, Structural)]
pub enum ConfigError {
    /// Random source addresses are asked for, and there is no block that they could come from.
    BlocksMissing,
    /// One of user name and password is set, and the other is not.
    CredentialsIncomplete,
}

impl ConfigError {
    /// The words for an error.
    pub open spec fn words(self) -> Seq<char> {
        match self {
            ConfigError::BlocksMissing => "random_egress_ipv6 已启用，但未配置 ipv6_blocks"@,
            ConfigError::CredentialsIncomplete => "username 和 password 必须同时配置或同时不配置"@,
        }
    }

    /// The words for this error.
    pub fn message(&self) -> (r: &'static str)
        ensures
            r@ == self.words(),
    {
        match *self {
            ConfigError::BlocksMissing => "random_egress_ipv6 已启用，但未配置 ipv6_blocks",
            ConfigError::CredentialsIncomplete => "username 和 password 必须同时配置或同时不配置",
        }
    }
}

/// The first of three values that is there.
pub open spec fn first_set<T>(a: Option<T>, b: Option<T>, c: Option<T>) -> Option<T> {
    if a is Some {
        a
    } else if b is Some {
        b
    } else {
        c
    }
}

/// What a value that may not be there falls back to.
pub open spec fn or_else<T>(o: Option<T>, fallback: T) -> T {
    match o {
        Some(v) => v,
        None => fallback,
    }
}

/// What a variable that says yes or no says.
pub open spec fn flag(o: Option<String>) -> Option<bool> {
    match o {
        Some(s) => Some(says_true(s@)),
        None => None,
    }
}

/// The number that a variable holds. One that holds no number, or too large a one, counts as not
/// set.
pub open spec fn number(o: Option<String>, max: nat) -> Option<nat> {
    match o {
        Some(s) => decimal(s@, max),
        None => None,
    }
}

/// The number of machine size that a variable holds.
pub open spec fn size(o: Option<String>) -> Option<usize> {
    match number(o, usize::MAX as nat) {
        Some(n) => Some(n as usize),
        None => None,
    }
}

/// The number of 64 bits that a variable holds.
pub open spec fn seconds(o: Option<String>) -> Option<u64> {
    match number(o, u64::MAX as nat) {
        Some(n) => Some(n as u64),
        None => None,
    }
}

/// The nearest number that is at least 1024 and at most 65536.
pub open spec fn clamped(n: usize) -> usize {
    if n < 1024 {
        1024
    } else if n > 65536 {
        65536
    } else {
        n
    }
}

/// The blocks that a variable lists. One that lists none counts as not set.
pub open spec fn listed(o: Option<String>) -> Option<Seq<Seq<char>>> {
    match o {
        Some(s) => if list_items(s@).len() > 0 {
            Some(list_items(s@))
        } else {
            None
        },
        None => None,
    }
}

/// The blocks that the command line gives, where it gives any.
pub open spec fn given(v: Vec<String>) -> Option<Seq<Seq<char>>> {
    if v@.len() > 0 {
        Some(strings(v@))
    } else {
        None
    }
}

/// The blocks of a file, where it sets them.
pub open spec fn filed(o: Option<Vec<String>>) -> Option<Seq<Seq<char>>> {
    match o {
        Some(v) => Some(strings(v@)),
        None => None,
    }
}

/// All settings together. What the command line sets comes before what the environment sets, that
/// before what the file sets, and that before what holds where nothing is set. The size of the
/// buffer is brought within its limits.
pub open spec fn combined(file: FileConfig, env: EnvConfig, args: Args) -> Settings {
    let d = default_settings();
    Settings {
        bind_addr: or_else(
            first_set(text(args.bind), text(env.bind), text(file.bind_addr)),
            d.bind_addr,
        ),
        username: first_set(text(args.username), text(env.username), text(file.username)),
        password: first_set(text(args.password), text(env.password), text(file.password)),
        random_egress_ipv6: or_else(
            first_set(args.random_ipv6, flag(env.random_ipv6), file.random_egress_ipv6),
            d.random_egress_ipv6,
        ),
        ipv6_blocks: or_else(
            first_set(given(args.ipv6_block), listed(env.ipv6_blocks), filed(file.ipv6_blocks)),
            d.ipv6_blocks,
        ),
        force_ipv6: or_else(
            first_set(args.force_ipv6, flag(env.force_ipv6), file.force_ipv6),
            d.force_ipv6,
        ),
        buffer_size: clamped(
            or_else(
                first_set(args.buffer_size, size(env.buffer_size), file.buffer_size),
                d.buffer_size,
            ),
        ),
        max_connections: or_else(
            first_set(args.max_connections, size(env.max_connections), file.max_connections),
            d.max_connections,
        ),
        handshake_timeout_secs: or_else(
            first_set(
                args.handshake_timeout,
                seconds(env.handshake_timeout),
                file.handshake_timeout,
            ),
            d.handshake_timeout_secs,
        ),
        idle_timeout_secs: or_else(
            first_set(args.idle_timeout, seconds(env.idle_timeout), file.idle_timeout),
            d.idle_timeout_secs,
        ),
        log_level: or_else(
            first_set(text(args.log_level), text(env.log), text(file.log_level)),
            d.log_level,
        ),
    }
}

/// Why settings cannot be used, if they cannot.
pub open spec fn objection(s: Settings) -> Option<ConfigError> {
    if s.random_egress_ipv6 && s.ipv6_blocks.len() == 0 {
        Some(ConfigError::BlocksMissing)
    } else if (s.username is Some) != (s.password is Some) {
        Some(ConfigError::CredentialsIncomplete)
    } else {
        None
    }
}

fn pick<T>(a: Option<T>, b: Option<T>, c: Option<T>) -> (r: Option<T>)
    ensures
        r == first_set(a, b, c),
{
    match a {
        Some(v) => Some(v),
        None => match b {
            Some(v) => Some(v),
            None => c,
        },
    }
}

fn fall_back<T>(o: Option<T>, fallback: T) -> (r: T)
    ensures
        r == or_else(o, fallback),
{
    match o {
        Some(v) => v,
        None => fallback,
    }
}

fn read_flag(o: &Option<String>) -> (r: Option<bool>)
    ensures
        r == flag(*o),
{
    match o {
        Some(s) => Some(is_true(s.as_str())),
        None => None,
    }
}

fn read_size(o: &Option<String>) -> (r: Option<usize>)
    ensures
        r == size(*o),
{
    match o {
        Some(s) => match parse_decimal(s.as_str(), usize::MAX as u64) {
            Some(n) => Some(n as usize),
            None => None,
        },
        None => None,
    }
}

fn read_seconds(o: &Option<String>) -> (r: Option<u64>)
    ensures
        r == seconds(*o),
{
    match o {
        Some(s) => parse_decimal(s.as_str(), u64::MAX),
        None => None,
    }
}

fn given_blocks(v: Vec<String>) -> (r: Option<Vec<String>>)
    ensures
        filed(r) == given(v),
{
    if v.len() > 0 {
        Some(v)
    } else {
        None
    }
}

fn listed_blocks(o: &Option<String>) -> (r: Option<Vec<String>>)
    ensures
        filed(r) == listed(*o),
{
    match o {
        Some(s) => {
            let items = split_list(s.as_str());
            assert(strings(items@).len() == items@.len());
            if items.len() > 0 {
                Some(items)
            } else {
                None
            }
        },
        None => None,
    }
}

/// Combines the settings of the file, the environment and the command line, and checks them.
pub fn load_config(file: FileConfig, env: EnvConfig, args: Args) -> (r: Result<Config, ConfigError>)
    ensures
        match r {
            Ok(c) => c@ == combined(file, env, args) && objection(combined(file, env, args))
                is None,
            Err(e) => objection(combined(file, env, args)) == Some(e),
        },
{
    let d = Config::default();
    let ghost due = combined(file, env, args);

    let blocks: Vec<String> = fall_back(
        pick(given_blocks(args.ipv6_block), listed_blocks(&env.ipv6_blocks), file.ipv6_blocks),
        d.ipv6_blocks,
    );
    assert(strings(blocks@) =~= due.ipv6_blocks);

    let wanted: usize = fall_back(
        pick(args.buffer_size, read_size(&env.buffer_size), file.buffer_size),
        d.buffer_size,
    );
    let buffer_size: usize = if wanted < 1024 {
        1024
    } else if wanted > 65536 {
        65536
    } else {
        wanted
    };
    let config = Config {
        bind_addr: fall_back(pick(args.bind, env.bind, file.bind_addr), d.bind_addr),
        username: pick(args.username, env.username, file.username),
        password: pick(args.password, env.password, file.password),
        random_egress_ipv6: fall_back(
            pick(args.random_ipv6, read_flag(&env.random_ipv6), file.random_egress_ipv6),
            d.random_egress_ipv6,
        ),
        ipv6_blocks: blocks,
        force_ipv6: fall_back(
            pick(args.force_ipv6, read_flag(&env.force_ipv6), file.force_ipv6),
            d.force_ipv6,
        ),
        buffer_size,
        max_connections: fall_back(
            pick(args.max_connections, read_size(&env.max_connections), file.max_connections),
            d.max_connections,
        ),
        handshake_timeout_secs: fall_back(
            pick(
                args.handshake_timeout,
                read_seconds(&env.handshake_timeout),
                file.handshake_timeout,
            ),
            d.handshake_timeout_secs,
        ),
        idle_timeout_secs: fall_back(
            pick(args.idle_timeout, read_seconds(&env.idle_timeout), file.idle_timeout),
            d.idle_timeout_secs,
        ),
        log_level: fall_back(pick(args.log_level, env.log, file.log_level), d.log_level),
    };
    assert(config@ == due);
    assert(strings(config.ipv6_blocks@).len() == config.ipv6_blocks@.len());
    if config.random_egress_ipv6 && config.ipv6_blocks.len() == 0 {
        return Err(ConfigError::BlocksMissing);
    }
    if config.username.is_some() != config.password.is_some() {
        return Err(ConfigError::CredentialsIncomplete);
    }
    Ok(config)
}

/// What the command line sets holds, whatever the environment and the file set.
pub proof fn law_command_line_first(file: FileConfig, env: EnvConfig, args: Args)
    ensures
        ({
            let c = combined(file, env, args);
            &&& args.bind matches Some(v) ==> c.bind_addr == v@
            &&& args.username matches Some(v) ==> c.username == Some(v@)
            &&& args.password matches Some(v) ==> c.password == Some(v@)
            &&& args.random_ipv6 matches Some(v) ==> c.random_egress_ipv6 == v
            &&& args.ipv6_block@.len() > 0 ==> c.ipv6_blocks == strings(args.ipv6_block@)
            &&& args.force_ipv6 matches Some(v) ==> c.force_ipv6 == v
            &&& args.buffer_size matches Some(v) ==> c.buffer_size == clamped(v)
            &&& args.max_connections matches Some(v) ==> c.max_connections == v
            &&& args.handshake_timeout matches Some(v) ==> c.handshake_timeout_secs == v
            &&& args.idle_timeout matches Some(v) ==> c.idle_timeout_secs == v
            &&& args.log_level matches Some(v) ==> c.log_level == v@
        }),
{
}

/// What the environment sets holds where the command line sets nothing, whatever the file sets.
pub proof fn law_environment_before_file(file: FileConfig, env: EnvConfig, args: Args)
    ensures
        ({
            let c = combined(file, env, args);
            &&& args.bind is None && env.bind is Some ==> c.bind_addr == env.bind->0@
            &&& args.username is None && env.username is Some ==> c.username == Some(
                env.username->0@,
            )
            &&& args.password is None && env.password is Some ==> c.password == Some(
                env.password->0@,
            )
            &&& args.random_ipv6 is None && env.random_ipv6 is Some ==> c.random_egress_ipv6
                == says_true(env.random_ipv6->0@)
            &&& args.ipv6_block@.len() == 0 && listed(env.ipv6_blocks) is Some ==> c.ipv6_blocks
                == list_items(env.ipv6_blocks->0@)
            &&& args.force_ipv6 is None && env.force_ipv6 is Some ==> c.force_ipv6 == says_true(
                env.force_ipv6->0@,
            )
            &&& args.buffer_size is None && size(env.buffer_size) is Some ==> c.buffer_size
                == clamped(size(env.buffer_size)->0)
            &&& args.max_connections is None && size(env.max_connections) is Some
                ==> c.max_connections == size(env.max_connections)->0
            &&& args.handshake_timeout is None && seconds(env.handshake_timeout) is Some
                ==> c.handshake_timeout_secs == seconds(env.handshake_timeout)->0
            &&& args.idle_timeout is None && seconds(env.idle_timeout) is Some
                ==> c.idle_timeout_secs == seconds(env.idle_timeout)->0
            &&& args.log_level is None && env.log is Some ==> c.log_level == env.log->0@
        }),
{
}

/// What the file sets holds where neither the command line nor the environment sets anything, and
/// the defaults hold where the file does not either.
pub proof fn law_file_before_defaults(file: FileConfig, env: EnvConfig, args: Args)
    ensures
        ({
            let c = combined(file, env, args);
            let d = default_settings();
            &&& args.bind is None && env.bind is None ==> c.bind_addr == or_else(
                text(file.bind_addr),
                d.bind_addr,
            )
            &&& args.username is None && env.username is None ==> c.username == text(file.username)
            &&& args.password is None && env.password is None ==> c.password == text(file.password)
            &&& args.random_ipv6 is None && env.random_ipv6 is None ==> c.random_egress_ipv6
                == or_else(file.random_egress_ipv6, d.random_egress_ipv6)
            &&& args.ipv6_block@.len() == 0 && listed(env.ipv6_blocks) is None ==> c.ipv6_blocks
                == or_else(filed(file.ipv6_blocks), d.ipv6_blocks)
            &&& args.force_ipv6 is None && env.force_ipv6 is None ==> c.force_ipv6 == or_else(
                file.force_ipv6,
                d.force_ipv6,
            )
            &&& args.buffer_size is None && size(env.buffer_size) is None ==> c.buffer_size
                == clamped(or_else(file.buffer_size, d.buffer_size))
            &&& args.max_connections is None && size(env.max_connections) is None
                ==> c.max_connections == or_else(file.max_connections, d.max_connections)
            &&& args.handshake_timeout is None && seconds(env.handshake_timeout) is None
                ==> c.handshake_timeout_secs == or_else(
                file.handshake_timeout,
                d.handshake_timeout_secs,
            )
            &&& args.idle_timeout is None && seconds(env.idle_timeout) is None
                ==> c.idle_timeout_secs == or_else(file.idle_timeout, d.idle_timeout_secs)
            &&& args.log_level is None && env.log is None ==> c.log_level == or_else(
                text(file.log_level),
                d.log_level,
            )
        }),
{
}

/// Settings that are accepted have a buffer of 1024 to 65536 bytes, a user name and a password or
/// neither, and blocks where random sources are asked for.
pub proof fn law_accepted_settings(file: FileConfig, env: EnvConfig, args: Args)
    requires
        objection(combined(file, env, args)) is None,
    ensures
        ({
            let c = combined(file, env, args);
            &&& 1024 <= c.buffer_size <= 65536
            &&& c.username is Some <==> c.password is Some
            &&& c.credentials() is Some <==> c.username is Some
            &&& c.random_egress_ipv6 ==> c.ipv6_blocks.len() > 0
        }),
{
}

} // verus!
