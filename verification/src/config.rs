//! Settings: the config file, profiles, and how they merge with the command line.
use vstd::prelude::*;

use crate::auth::{env_lookup, is_generated_password, runtime_password, AuthConfig};
use crate::cli::{ServeArgs, ServeArgsView};
use crate::text::{
    chars_of, decimal, decimal_string, find, find_in, lemma_lines_step, lines, owned, parse_unsigned,
    parse_unsigned_range, push_str, range_equals, range_starts_with, starts_with, string_of_range, trim, trim_bounds,
    is_space, trim_end, trim_start, all_digits, digit_char, digit_value, digits_value, is_digit,
};

verus! {

/// How the server listens and what it exposes.
#[derive(Debug, Clone)]
pub struct ServerConfig {
    pub host: String,
    pub port: u16,
    pub name: String,
    pub read_only: bool,
    pub hide_dotfiles: bool,
    pub follow_symlinks: bool,
    pub enable_mdns: bool,
}

/// The terminal dashboard's settings.
#[derive(Debug, Clone)]
pub struct TuiConfig {
    pub enabled: bool,
    pub theme: String,
    pub refresh_ms: u64,
}

/// A named set of overrides for serving one folder.
#[derive(Debug, Clone)]
pub struct ProfileConfig {
    pub path: Option<String>,
    pub name: Option<String>,
    pub port: Option<u16>,
    pub read_only: Option<bool>,
    pub hide_dotfiles: Option<bool>,
}

/// The profiles of a config file, by name.
#[derive(Debug)]
pub struct Profiles {
    entries: Vec<(String, ProfileConfig)>,
}

/// Everything a config file can set.
#[derive(Debug, Clone)]
pub struct Config {
    pub server: ServerConfig,
    pub auth: AuthConfig,
    pub tui: TuiConfig,
    pub profiles: Profiles,
}

/// Why a config could not be read.
#[derive(Debug, Clone)]
pub enum ConfigError {
    Io(String),
    Parse(String),
}

impl ConfigError {
    /// The message that explains the error.
    pub fn message(&self) -> (m: &String)
        ensures
            m == match self {
                ConfigError::Io(s) => s,
                ConfigError::Parse(s) => s,
            },
    {
        match self {
            ConfigError::Io(s) => s,
            ConfigError::Parse(s) => s,
        }
    }
}

// ---------------------------------------------------------------------------
// Views
// ---------------------------------------------------------------------------

pub struct ServerView {
    pub host: Seq<char>,
    pub port: u16,
    pub name: Seq<char>,
    pub read_only: bool,
    pub hide_dotfiles: bool,
    pub follow_symlinks: bool,
    pub enable_mdns: bool,
}

pub struct AuthView {
    pub enabled: bool,
    pub username: Seq<char>,
    pub password: Option<Seq<char>>,
    pub password_env: Option<Seq<char>>,
}

pub struct TuiView {
    pub enabled: bool,
    pub theme: Seq<char>,
    pub refresh_ms: u64,
}

pub struct ProfileView {
    pub path: Option<Seq<char>>,
    pub name: Option<Seq<char>>,
    pub port: Option<u16>,
    pub read_only: Option<bool>,
    pub hide_dotfiles: Option<bool>,
}

pub struct ConfigView {
    pub server: ServerView,
    pub auth: AuthView,
    pub tui: TuiView,
    pub profiles: Map<Seq<char>, ProfileView>,
}

pub open spec fn opt_view(o: Option<String>) -> Option<Seq<char>> {
    match o {
        Some(s) => Some(s@),
        None => None,
    }
}

impl View for ServerConfig {
    type V = ServerView;

    open spec fn view(&self) -> ServerView {
        ServerView {
            host: self.host@,
            port: self.port,
            name: self.name@,
            read_only: self.read_only,
            hide_dotfiles: self.hide_dotfiles,
            follow_symlinks: self.follow_symlinks,
            enable_mdns: self.enable_mdns,
        }
    }
}

pub open spec fn auth_view(a: AuthConfig) -> AuthView {
    AuthView {
        enabled: a.enabled,
        username: a.username@,
        password: opt_view(a.password),
        password_env: opt_view(a.password_env),
    }
}

impl View for TuiConfig {
    type V = TuiView;

    open spec fn view(&self) -> TuiView {
        TuiView { enabled: self.enabled, theme: self.theme@, refresh_ms: self.refresh_ms }
    }
}

impl View for ProfileConfig {
    type V = ProfileView;

    open spec fn view(&self) -> ProfileView {
        ProfileView {
            path: opt_view(self.path),
            name: opt_view(self.name),
            port: self.port,
            read_only: self.read_only,
            hide_dotfiles: self.hide_dotfiles,
        }
    }
}

/// The table that a list of distinct-named profiles denotes.
pub open spec fn profiles_map(s: Seq<(String, ProfileConfig)>) -> Map<Seq<char>, ProfileView>
    decreases s.len(),
{
    if s.len() == 0 {
        Map::empty()
    } else {
        profiles_map(s.drop_last()).insert(s.last().0@, s.last().1@)
    }
}

pub open spec fn distinct_profile_names(s: Seq<(String, ProfileConfig)>) -> bool {
    forall|i: int, j: int| 0 <= i < j < s.len() ==> #[trigger] s[i].0@ != #[trigger] s[j].0@
}

impl View for Profiles {
    type V = Map<Seq<char>, ProfileView>;

    closed spec fn view(&self) -> Map<Seq<char>, ProfileView> {
        profiles_map(self.entries@)
    }
}

impl View for Config {
    type V = ConfigView;

    open spec fn view(&self) -> ConfigView {
        ConfigView {
            server: self.server@,
            auth: auth_view(self.auth),
            tui: self.tui@,
            profiles: self.profiles@,
        }
    }
}

// ---------------------------------------------------------------------------
// Defaults
// ---------------------------------------------------------------------------

pub open spec fn default_server() -> ServerView {
    ServerView {
        host: "0.0.0.0"@,
        port: 8080,
        name: "Davbox"@,
        read_only: false,
        hide_dotfiles: true,
        follow_symlinks: false,
        enable_mdns: false,
    }
}

pub open spec fn default_auth() -> AuthView {
    AuthView {
        enabled: true,
        username: "davbox"@,
        password: None,
        password_env: Some("DAVBOX_PASSWORD"@),
    }
}

pub open spec fn default_tui() -> TuiView {
    TuiView { enabled: true, theme: "matrix"@, refresh_ms: 250 }
}

pub open spec fn default_profile() -> ProfileView {
    ProfileView { path: None, name: None, port: None, read_only: None, hide_dotfiles: None }
}

pub open spec fn default_config() -> ConfigView {
    ConfigView {
        server: default_server(),
        auth: default_auth(),
        tui: default_tui(),
        profiles: Map::empty(),
    }
}

impl Default for ServerConfig {
    fn default() -> (c: Self)
        ensures
            c@ == default_server(),
    {
        ServerConfig {
            host: owned("0.0.0.0"),
            port: 8080,
            name: owned("Davbox"),
            read_only: false,
            hide_dotfiles: true,
            follow_symlinks: false,
            enable_mdns: false,
        }
    }
}

impl Default for TuiConfig {
    fn default() -> (c: Self)
        ensures
            c@ == default_tui(),
    {
        TuiConfig { enabled: true, theme: owned("matrix"), refresh_ms: 250 }
    }
}

impl Default for ProfileConfig {
    fn default() -> (c: Self)
        ensures
            c@ == default_profile(),
    {
        ProfileConfig { path: None, name: None, port: None, read_only: None, hide_dotfiles: None }
    }
}

impl Default for Config {
    fn default() -> (c: Self)
        ensures
            c@ == default_config(),
    {
        let auth = AuthConfig::default();
        let c = Config {
            server: ServerConfig::default(),
            auth,
            tui: TuiConfig::default(),
            profiles: Profiles::new(),
        };
        assert(auth_view(c.auth) == default_auth());
        c
    }
}

// ---------------------------------------------------------------------------
// Profiles
// ---------------------------------------------------------------------------

proof fn lemma_profiles_lookup(s: Seq<(String, ProfileConfig)>, i: int)
    requires
        distinct_profile_names(s),
        0 <= i < s.len(),
    ensures
        profiles_map(s).contains_key(s[i].0@),
        profiles_map(s)[s[i].0@] == s[i].1@,
    decreases s.len(),
{
    if i < s.len() - 1 {
        lemma_distinct_drop_last(s);
        lemma_profiles_lookup(s.drop_last(), i);
        assert(s[i].0@ != s.last().0@);
    }
}

proof fn lemma_profiles_absent(s: Seq<(String, ProfileConfig)>, k: Seq<char>)
    requires
        forall|i: int| 0 <= i < s.len() ==> (#[trigger] s[i]).0@ != k,
    ensures
        !profiles_map(s).contains_key(k),
    decreases s.len(),
{
    if s.len() > 0 {
        assert forall|i: int| 0 <= i < s.drop_last().len() implies (
        #[trigger] s.drop_last()[i]).0@ != k by {
            assert(s.drop_last()[i] == s[i]);
        }
        lemma_profiles_absent(s.drop_last(), k);
        assert(s[s.len() - 1].0@ != k);
    }
}

proof fn lemma_profiles_update(s: Seq<(String, ProfileConfig)>, i: int, e: (String, ProfileConfig))
    requires
        distinct_profile_names(s),
        0 <= i < s.len(),
        e.0@ == s[i].0@,
    ensures
        profiles_map(s.update(i, e)) == profiles_map(s).insert(e.0@, e.1@),
        distinct_profile_names(s.update(i, e)),
    decreases s.len(),
{
    let t = s.update(i, e);
    if i == s.len() - 1 {
        assert(t.drop_last() =~= s.drop_last());
        assert(profiles_map(s.drop_last()).insert(e.0@, e.1@) =~= profiles_map(s).insert(
            e.0@,
            e.1@,
        ));
    } else {
        assert(t.drop_last() =~= s.drop_last().update(i, e));
        lemma_distinct_drop_last(s);
        lemma_profiles_update(s.drop_last(), i, e);
        assert(s[i].0@ != s.last().0@);
        assert(profiles_map(t) =~= profiles_map(s).insert(e.0@, e.1@));
    }
    assert forall|a: int, b: int| 0 <= a < b < t.len() implies #[trigger] t[a].0@ != #[trigger] t[b].0@ by {
        assert(s[a].0@ != s[b].0@);
    }
}

proof fn lemma_distinct_drop_last(s: Seq<(String, ProfileConfig)>)
    requires
        distinct_profile_names(s),
        s.len() > 0,
    ensures
        distinct_profile_names(s.drop_last()),
{
    let t = s.drop_last();
    assert forall|i: int, j: int| 0 <= i < j < t.len() implies #[trigger] t[i].0@ != #[trigger] t[j].0@ by {
        assert(t[i] == s[i] && t[j] == s[j]);
    }
}

impl Profiles {
    /// No name occurs twice.
    #[verifier::type_invariant]
    spec fn names_distinct(&self) -> bool {
        distinct_profile_names(self.entries@)
    }

    /// No profiles.
    pub fn new() -> (p: Profiles)
        ensures
            p@ == Map::<Seq<char>, ProfileView>::empty(),
    {
        Profiles { entries: Vec::new() }
    }

    /// The profile called `name`.
    pub fn get(&self, name: &str) -> (r: Option<&ProfileConfig>)
        ensures
            match r {
                Some(p) => self@.contains_key(name@) && p@ == self@[name@],
                None => !self@.contains_key(name@),
            },
    {
        proof {
            use_type_invariant(self);
        }
        let mut i: usize = 0;
        while i < self.entries.len()
            invariant
                distinct_profile_names(self.entries@),
                0 <= i <= self.entries.len(),
                forall|j: int| 0 <= j < i ==> (#[trigger] self.entries@[j]).0@ != name@,
            decreases self.entries.len() - i,
        {
            if crate::text::same_text(self.entries[i].0.as_str(), name) {
                proof {
                    lemma_profiles_lookup(self.entries@, i as int);
                }
                return Some(&self.entries[i].1);
            }
            i += 1;
        }
        proof {
            lemma_profiles_absent(self.entries@, name@);
        }
        None
    }

    /// The number of profiles.
    pub fn len(&self) -> (n: usize)
        ensures
            n == self@.len(),
    {
        proof {
            use_type_invariant(self);
            lemma_profiles_len(self.entries@);
        }
        self.entries.len()
    }

    /// Stores `profile` under `name`, replacing the profile of that name.
    pub fn set(&mut self, name: String, profile: ProfileConfig)
        ensures
            final(self)@ == old(self)@.insert(name@, profile@),
    {
        proof {
            use_type_invariant(&*self);
        }
        let mut entries: Vec<(String, ProfileConfig)> = Vec::new();
        std::mem::swap(&mut entries, &mut self.entries);
        let ghost before = entries@;
        let mut i: usize = 0;
        while i < entries.len()
            invariant
                entries@ == before,
                before == old(self).entries@,
                distinct_profile_names(before),
                0 <= i <= entries.len(),
                forall|j: int| 0 <= j < i ==> (#[trigger] entries@[j]).0@ != name@,
            decreases entries.len() - i,
        {
            if crate::text::same_text(entries[i].0.as_str(), name.as_str()) {
                proof {
                    lemma_profiles_update(before, i as int, (name, profile));
                }
                entries.set(i, (name, profile));
                self.entries = entries;
                return;
            }
            i += 1;
        }
        entries.push((name, profile));
        proof {
            assert(entries@.drop_last() =~= before);
            assert forall|a: int, b: int|
                0 <= a < b < entries@.len() implies #[trigger] entries@[a].0@
                != #[trigger] entries@[b].0@ by {
                if b == before.len() {
                    assert(before[a].0@ != name@);
                } else {
                    assert(before[a].0@ != before[b].0@);
                }
            }
        }
        self.entries = entries;
    }
}

proof fn lemma_profiles_map_views(s: Seq<(String, ProfileConfig)>, t: Seq<(String, ProfileConfig)>)
    requires
        s.len() == t.len(),
        forall|i: int| 0 <= i < s.len() ==> #[trigger] s[i].0@ == t[i].0@ && s[i].1@ == t[i].1@,
    ensures
        profiles_map(s) == profiles_map(t),
    decreases s.len(),
{
    if s.len() > 0 {
        lemma_profiles_map_views(s.drop_last(), t.drop_last());
    }
}

impl Clone for Profiles {
    fn clone(&self) -> (c: Self)
        ensures
            c@ == self@,
    {
        proof {
            use_type_invariant(self);
        }
        let mut entries: Vec<(String, ProfileConfig)> = Vec::new();
        let mut i: usize = 0;
        while i < self.entries.len()
            invariant
                distinct_profile_names(self.entries@),
                i <= self.entries.len(),
                entries@.len() == i,
                forall|k: int|
                    0 <= k < i ==> #[trigger] entries@[k].0@ == self.entries@[k].0@
                        && entries@[k].1@ == self.entries@[k].1@,
            decreases self.entries.len() - i,
        {
            let name = self.entries[i].0.clone();
            let profile = self.entries[i].1.copy();
            entries.push((name, profile));
            i += 1;
        }
        proof {
            assert forall|a: int, b: int| 0 <= a < b < entries@.len() implies #[trigger] entries@[a].0@
                != #[trigger] entries@[b].0@ by {
                assert(self.entries@[a].0@ != self.entries@[b].0@);
            }
            lemma_profiles_map_views(entries@, self.entries@);
        }
        Profiles { entries }
    }
}

proof fn lemma_profiles_len(s: Seq<(String, ProfileConfig)>)
    requires
        distinct_profile_names(s),
    ensures
        profiles_map(s).len() == s.len(),
        profiles_map(s).dom().finite(),
    decreases s.len(),
{
    if s.len() > 0 {
        lemma_distinct_drop_last(s);
        lemma_profiles_len(s.drop_last());
        assert forall|i: int| 0 <= i < s.drop_last().len() implies (
        #[trigger] s.drop_last()[i]).0@ != s.last().0@ by {
            assert(s.drop_last()[i] == s[i]);
        }
        lemma_profiles_absent(s.drop_last(), s.last().0@);
    }
}


/// The config file that `config init` writes: the defaults, spelled out, and
/// one example profile.
pub const EXAMPLE_CONFIG: &'static str = r#"[server]
host = "0.0.0.0"
port = 8080
name = "Davbox"
read_only = false
hide_dotfiles = true
follow_symlinks = false
enable_mdns = false

[auth]
enabled = true
username = "davbox"
password_env = "DAVBOX_PASSWORD"

[tui]
enabled = true
theme = "matrix"
refresh_ms = 250

[profiles.movies]
path = "~/Movies"
name = "Movies"
port = 8080
read_only = true
"#;

// ---------------------------------------------------------------------------
// The config file format
// ---------------------------------------------------------------------------

/// The part of a line before any `#` comment, trimmed.
pub open spec fn line_content(raw: Seq<char>) -> Seq<char> {
    let k = find(raw, '#');
    trim(
        if k < 0 {
            raw
        } else {
            raw.subrange(0, k)
        },
    )
}

/// The section that the lines of a config file fall in.
pub enum SectionView {
    Root,
    Server,
    Auth,
    Tui,
    Profile(Seq<char>),
}

/// A parsed value.
pub enum ValueView {
    Str(Seq<char>),
    Bool(bool),
    Int(u16),
}

/// What a value text parses to; `Panics` stands for the lone `"`, whose slicing
/// would panic.
pub enum ValueOutcome {
    Parsed(ValueView),
    Invalid,
    Panics,
}

/// A quoted string, `true`, `false`, or a decimal number that fits a `u16`.
pub open spec fn value_spec(input: Seq<char>) -> ValueOutcome {
    if input.len() > 0 && input[0] == '"' && input.last() == '"' {
        if input.len() == 1 {
            ValueOutcome::Panics
        } else {
            ValueOutcome::Parsed(ValueView::Str(input.subrange(1, input.len() - 1)))
        }
    } else if input == "true"@ {
        ValueOutcome::Parsed(ValueView::Bool(true))
    } else if input == "false"@ {
        ValueOutcome::Parsed(ValueView::Bool(false))
    } else {
        match parse_unsigned(input, 65535) {
            Some(n) => ValueOutcome::Parsed(ValueView::Int(n as u16)),
            None => ValueOutcome::Invalid,
        }
    }
}

pub open spec fn expect_string_spec(v: ValueView, key: Seq<char>) -> Result<Seq<char>, Seq<char>> {
    match v {
        ValueView::Str(s) => Ok(s),
        _ => Err(key + " must be a string"@),
    }
}

pub open spec fn expect_bool_spec(v: ValueView, key: Seq<char>) -> Result<bool, Seq<char>> {
    match v {
        ValueView::Bool(b) => Ok(b),
        _ => Err(key + " must be a boolean"@),
    }
}

pub open spec fn expect_integer_spec(v: ValueView, key: Seq<char>) -> Result<u16, Seq<char>> {
    match v {
        ValueView::Int(n) => Ok(n),
        _ => Err(key + " must be an integer"@),
    }
}

pub open spec fn apply_server(s: ServerView, key: Seq<char>, v: ValueView) -> Result<ServerView, Seq<char>> {
    if key == "host"@ {
        match expect_string_spec(v, key) { Ok(x) => Ok(ServerView { host: x, ..s }), Err(e) => Err(e) }
    } else if key == "port"@ {
        match expect_integer_spec(v, key) { Ok(x) => Ok(ServerView { port: x, ..s }), Err(e) => Err(e) }
    } else if key == "name"@ {
        match expect_string_spec(v, key) { Ok(x) => Ok(ServerView { name: x, ..s }), Err(e) => Err(e) }
    } else if key == "read_only"@ {
        match expect_bool_spec(v, key) { Ok(x) => Ok(ServerView { read_only: x, ..s }), Err(e) => Err(e) }
    } else if key == "hide_dotfiles"@ {
        match expect_bool_spec(v, key) { Ok(x) => Ok(ServerView { hide_dotfiles: x, ..s }), Err(e) => Err(e) }
    } else if key == "follow_symlinks"@ {
        match expect_bool_spec(v, key) { Ok(x) => Ok(ServerView { follow_symlinks: x, ..s }), Err(e) => Err(e) }
    } else if key == "enable_mdns"@ {
        match expect_bool_spec(v, key) { Ok(x) => Ok(ServerView { enable_mdns: x, ..s }), Err(e) => Err(e) }
    } else {
        Err("Unsupported server key: "@ + key)
    }
}

pub open spec fn apply_auth(a: AuthView, key: Seq<char>, v: ValueView) -> Result<AuthView, Seq<char>> {
    if key == "enabled"@ {
        match expect_bool_spec(v, key) { Ok(x) => Ok(AuthView { enabled: x, ..a }), Err(e) => Err(e) }
    } else if key == "username"@ {
        match expect_string_spec(v, key) { Ok(x) => Ok(AuthView { username: x, ..a }), Err(e) => Err(e) }
    } else if key == "password"@ {
        match expect_string_spec(v, key) { Ok(x) => Ok(AuthView { password: Some(x), ..a }), Err(e) => Err(e) }
    } else if key == "password_env"@ {
        match expect_string_spec(v, key) { Ok(x) => Ok(AuthView { password_env: Some(x), ..a }), Err(e) => Err(e) }
    } else {
        Err("Unsupported auth key: "@ + key)
    }
}

pub open spec fn apply_tui(t: TuiView, key: Seq<char>, v: ValueView) -> Result<TuiView, Seq<char>> {
    if key == "enabled"@ {
        match expect_bool_spec(v, key) { Ok(x) => Ok(TuiView { enabled: x, ..t }), Err(e) => Err(e) }
    } else if key == "theme"@ {
        match expect_string_spec(v, key) { Ok(x) => Ok(TuiView { theme: x, ..t }), Err(e) => Err(e) }
    } else if key == "refresh_ms"@ {
        match expect_integer_spec(v, key) { Ok(x) => Ok(TuiView { refresh_ms: x as u64, ..t }), Err(e) => Err(e) }
    } else {
        Err("Unsupported tui key: "@ + key)
    }
}

pub open spec fn apply_profile(p: ProfileView, key: Seq<char>, v: ValueView) -> Result<ProfileView, Seq<char>> {
    if key == "path"@ {
        match expect_string_spec(v, key) { Ok(x) => Ok(ProfileView { path: Some(x), ..p }), Err(e) => Err(e) }
    } else if key == "name"@ {
        match expect_string_spec(v, key) { Ok(x) => Ok(ProfileView { name: Some(x), ..p }), Err(e) => Err(e) }
    } else if key == "port"@ {
        match expect_integer_spec(v, key) { Ok(x) => Ok(ProfileView { port: Some(x), ..p }), Err(e) => Err(e) }
    } else if key == "read_only"@ {
        match expect_bool_spec(v, key) { Ok(x) => Ok(ProfileView { read_only: Some(x), ..p }), Err(e) => Err(e) }
    } else if key == "hide_dotfiles"@ {
        match expect_bool_spec(v, key) { Ok(x) => Ok(ProfileView { hide_dotfiles: Some(x), ..p }), Err(e) => Err(e) }
    } else {
        Err("Unsupported profile key: "@ + key)
    }
}

/// The profile called `name`, or an empty one.
pub open spec fn profile_or_default(c: ConfigView, name: Seq<char>) -> ProfileView {
    if c.profiles.contains_key(name) {
        c.profiles[name]
    } else {
        default_profile()
    }
}

/// Sets `key` to `v` in the section `sec`.
pub open spec fn apply_spec(c: ConfigView, sec: SectionView, key: Seq<char>, v: ValueView) -> Result<ConfigView, Seq<char>> {
    match sec {
        SectionView::Server => match apply_server(c.server, key, v) {
            Ok(s) => Ok(ConfigView { server: s, ..c }),
            Err(e) => Err(e),
        },
        SectionView::Auth => match apply_auth(c.auth, key, v) {
            Ok(a) => Ok(ConfigView { auth: a, ..c }),
            Err(e) => Err(e),
        },
        SectionView::Tui => match apply_tui(c.tui, key, v) {
            Ok(t) => Ok(ConfigView { tui: t, ..c }),
            Err(e) => Err(e),
        },
        SectionView::Profile(name) => match apply_profile(profile_or_default(c, name), key, v) {
            Ok(p) => Ok(ConfigView { profiles: c.profiles.insert(name, p), ..c }),
            Err(e) => Err(e),
        },
        SectionView::Root => Err("Key outside section: "@ + key),
    }
}

/// Where reading a config file stands after some of its lines.
pub enum ParseState {
    Reading(ConfigView, SectionView),
    Failed(Seq<char>),
    Panics,
}

/// The section a `[name]` header opens, if the name is supported.
pub open spec fn section_of(name: Seq<char>) -> Option<SectionView> {
    if name == "server"@ {
        Some(SectionView::Server)
    } else if name == "auth"@ {
        Some(SectionView::Auth)
    } else if name == "tui"@ {
        Some(SectionView::Tui)
    } else if starts_with(name, "profiles."@) {
        Some(SectionView::Profile(name.subrange(9, name.len() as int)))
    } else {
        None
    }
}

/// Reads line number `n` (counted from one) of a config file.
pub open spec fn step_line(c: ConfigView, sec: SectionView, raw: Seq<char>, n: nat) -> ParseState {
    let line = line_content(raw);
    if line.len() == 0 {
        ParseState::Reading(c, sec)
    } else if line[0] == '[' && line.last() == ']' {
        let name = line.subrange(1, line.len() - 1);
        match section_of(name) {
            Some(s) => ParseState::Reading(c, s),
            None => ParseState::Failed(
                "Unsupported section ["@ + name + "] at line "@ + decimal(n),
            ),
        }
    } else {
        let k = find(line, '=');
        if k < 0 {
            ParseState::Failed("Invalid line "@ + decimal(n) + ": "@ + raw)
        } else {
            let key = trim(line.subrange(0, k));
            let input = trim(line.subrange(k + 1, line.len() as int));
            match value_spec(input) {
                ValueOutcome::Panics => ParseState::Panics,
                ValueOutcome::Invalid => ParseState::Failed(
                    "Unsupported value: "@ + input + " at line "@ + decimal(n),
                ),
                ValueOutcome::Parsed(v) => match apply_spec(c, sec, key, v) {
                    Ok(c2) => ParseState::Reading(c2, sec),
                    Err(e) => ParseState::Failed(e),
                },
            }
        }
    }
}

/// The state after the first `n` lines.
pub open spec fn parse_lines(ls: Seq<Seq<char>>, n: nat) -> ParseState
    decreases n,
{
    if n == 0 {
        ParseState::Reading(default_config(), SectionView::Root)
    } else {
        match parse_lines(ls, (n - 1) as nat) {
            ParseState::Reading(c, sec) => step_line(c, sec, ls[n - 1], n),
            other => other,
        }
    }
}

/// The outcome of reading a whole config file.
pub open spec fn parse_config_spec(source: Seq<char>) -> ParseState {
    parse_lines(lines(source), lines(source).len())
}

// ---------------------------------------------------------------------------
// Reading a config file
// ---------------------------------------------------------------------------

/// The section that the lines of a config file fall in.
#[derive(Debug, Clone)]
enum Section {
    Root,
    Server,
    Auth,
    Tui,
    Profile(String),
}

impl View for Section {
    type V = SectionView;

    closed spec fn view(&self) -> SectionView {
        match self {
            Section::Root => SectionView::Root,
            Section::Server => SectionView::Server,
            Section::Auth => SectionView::Auth,
            Section::Tui => SectionView::Tui,
            Section::Profile(n) => SectionView::Profile(n@),
        }
    }
}

/// A value of a `key = value` line.
#[derive(Debug, Clone)]
enum Value {
    String(String),
    Bool(bool),
    Integer(u16),
}

impl View for Value {
    type V = ValueView;

    closed spec fn view(&self) -> ValueView {
        match self {
            Value::String(s) => ValueView::Str(s@),
            Value::Bool(b) => ValueView::Bool(*b),
            Value::Integer(n) => ValueView::Int(*n),
        }
    }
}

/// A string made of two pieces.
fn concat(a: &str, b: &str) -> (s: String)
    ensures
        s@ == a@ + b@,
{
    let mut s = owned(a);
    push_str(&mut s, b);
    s
}

impl Value {
    /// Parses the text after `=`.
    fn parse(input: &str) -> (r: Result<Value, String>)
        requires
            !(value_spec(input@) is Panics),
        ensures
            match r {
                Ok(v) => value_spec(input@) == ValueOutcome::Parsed(v@),
                Err(e) => value_spec(input@) is Invalid && e@ == "Unsupported value: "@ + input@,
            },
    {
        let cs = chars_of(input);
        let n = cs.len();
        proof {
            reveal_strlit("true");
            reveal_strlit("false");
            assert(cs@.subrange(0, n as int) =~= cs@);
        }
        if n > 0 && cs[0] == '"' && cs[n - 1] == '"' {
            return Ok(Value::String(string_of_range(&cs, 1, n - 1)));
        }
        if range_equals(&cs, 0, n, "true") {
            return Ok(Value::Bool(true));
        }
        if range_equals(&cs, 0, n, "false") {
            return Ok(Value::Bool(false));
        }
        match parse_unsigned_range(&cs, 0, n, 65535) {
            Some(x) => Ok(Value::Integer(x as u16)),
            None => Err(concat("Unsupported value: ", input)),
        }
    }
}

fn expect_string(value: Value, key: &str) -> (r: Result<String, ConfigError>)
    ensures
        match (r, expect_string_spec(value@, key@)) {
            (Ok(x), Ok(y)) => x@ == y,
            (Err(ConfigError::Parse(e)), Err(m)) => e@ == m,
            _ => false,
        },
{
    match value {
        Value::String(s) => Ok(s),
        _ => Err(ConfigError::Parse(concat(key, " must be a string"))),
    }
}

fn expect_bool(value: Value, key: &str) -> (r: Result<bool, ConfigError>)
    ensures
        match (r, expect_bool_spec(value@, key@)) {
            (Ok(x), Ok(y)) => x == y,
            (Err(ConfigError::Parse(e)), Err(m)) => e@ == m,
            _ => false,
        },
{
    match value {
        Value::Bool(b) => Ok(b),
        _ => Err(ConfigError::Parse(concat(key, " must be a boolean"))),
    }
}

fn expect_integer(value: Value, key: &str) -> (r: Result<u16, ConfigError>)
    ensures
        match (r, expect_integer_spec(value@, key@)) {
            (Ok(x), Ok(y)) => x == y,
            (Err(ConfigError::Parse(e)), Err(m)) => e@ == m,
            _ => false,
        },
{
    match value {
        Value::Integer(n) => Ok(n),
        _ => Err(ConfigError::Parse(concat(key, " must be an integer"))),
    }
}

fn copy_opt(o: &Option<String>) -> (r: Option<String>)
    ensures
        opt_view(r) == opt_view(*o),
{
    match o {
        Some(s) => Some(s.clone()),
        None => None,
    }
}

impl ProfileConfig {
    /// A copy of this profile.
    pub fn copy(&self) -> (p: ProfileConfig)
        ensures
            p@ == self@,
    {
        ProfileConfig {
            path: copy_opt(&self.path),
            name: copy_opt(&self.name),
            port: self.port,
            read_only: self.read_only,
            hide_dotfiles: self.hide_dotfiles,
        }
    }
}

/// The outcome of applying a key to a config, as `Result` views it.
pub open spec fn applied(
    r: Result<(), ConfigError>,
    after: ConfigView,
    expected: Result<ConfigView, Seq<char>>,
) -> bool {
    match (r, expected) {
        (Ok(()), Ok(c)) => after == c,
        (Err(ConfigError::Parse(e)), Err(m)) => e@ == m,
        _ => false,
    }
}

#[verifier::rlimit(40)]
fn apply_server_key(server: &mut ServerConfig, key: &str, value: Value) -> (r: Result<(), ConfigError>)
    ensures
        match (r, apply_server(old(server)@, key@, value@)) {
            (Ok(()), Ok(s)) => final(server)@ == s,
            (Err(ConfigError::Parse(e)), Err(m)) => e@ == m,
            _ => false,
        },
{
    proof {
        reveal_strlit("host");
        reveal_strlit("port");
        reveal_strlit("name");
        reveal_strlit("read_only");
        reveal_strlit("hide_dotfiles");
        reveal_strlit("follow_symlinks");
        reveal_strlit("enable_mdns");
    }
    if crate::text::same_text(key, "host") {
        server.host = expect_string(value, key)?;
    } else if crate::text::same_text(key, "port") {
        server.port = expect_integer(value, key)?;
    } else if crate::text::same_text(key, "name") {
        server.name = expect_string(value, key)?;
    } else if crate::text::same_text(key, "read_only") {
        server.read_only = expect_bool(value, key)?;
    } else if crate::text::same_text(key, "hide_dotfiles") {
        server.hide_dotfiles = expect_bool(value, key)?;
    } else if crate::text::same_text(key, "follow_symlinks") {
        server.follow_symlinks = expect_bool(value, key)?;
    } else if crate::text::same_text(key, "enable_mdns") {
        server.enable_mdns = expect_bool(value, key)?;
    } else {
        return Err(ConfigError::Parse(concat("Unsupported server key: ", key)));
    }
    Ok(())
}

#[verifier::rlimit(40)]
fn apply_auth_key(auth: &mut AuthConfig, key: &str, value: Value) -> (r: Result<(), ConfigError>)
    ensures
        match (r, apply_auth(auth_view(*old(auth)), key@, value@)) {
            (Ok(()), Ok(a)) => auth_view(*final(auth)) == a,
            (Err(ConfigError::Parse(e)), Err(m)) => e@ == m,
            _ => false,
        },
{
    proof {
        reveal_strlit("enabled");
        reveal_strlit("username");
        reveal_strlit("password");
        reveal_strlit("password_env");
    }
    if crate::text::same_text(key, "enabled") {
        auth.enabled = expect_bool(value, key)?;
    } else if crate::text::same_text(key, "username") {
        auth.username = expect_string(value, key)?;
    } else if crate::text::same_text(key, "password") {
        auth.password = Some(expect_string(value, key)?);
    } else if crate::text::same_text(key, "password_env") {
        auth.password_env = Some(expect_string(value, key)?);
    } else {
        return Err(ConfigError::Parse(concat("Unsupported auth key: ", key)));
    }
    Ok(())
}

fn apply_tui_key(tui: &mut TuiConfig, key: &str, value: Value) -> (r: Result<(), ConfigError>)
    ensures
        match (r, apply_tui(old(tui)@, key@, value@)) {
            (Ok(()), Ok(t)) => final(tui)@ == t,
            (Err(ConfigError::Parse(e)), Err(m)) => e@ == m,
            _ => false,
        },
{
    proof {
        reveal_strlit("enabled");
        reveal_strlit("theme");
        reveal_strlit("refresh_ms");
    }
    if crate::text::same_text(key, "enabled") {
        tui.enabled = expect_bool(value, key)?;
    } else if crate::text::same_text(key, "theme") {
        tui.theme = expect_string(value, key)?;
    } else if crate::text::same_text(key, "refresh_ms") {
        tui.refresh_ms = expect_integer(value, key)? as u64;
    } else {
        return Err(ConfigError::Parse(concat("Unsupported tui key: ", key)));
    }
    Ok(())
}

#[verifier::rlimit(40)]
fn apply_profile_key(profile: &mut ProfileConfig, key: &str, value: Value) -> (r: Result<
    (),
    ConfigError,
>)
    ensures
        match (r, apply_profile(old(profile)@, key@, value@)) {
            (Ok(()), Ok(p)) => final(profile)@ == p,
            (Err(ConfigError::Parse(e)), Err(m)) => e@ == m,
            _ => false,
        },
{
    proof {
        reveal_strlit("path");
        reveal_strlit("name");
        reveal_strlit("port");
        reveal_strlit("read_only");
        reveal_strlit("hide_dotfiles");
    }
    if crate::text::same_text(key, "path") {
        profile.path = Some(expect_string(value, key)?);
    } else if crate::text::same_text(key, "name") {
        profile.name = Some(expect_string(value, key)?);
    } else if crate::text::same_text(key, "port") {
        profile.port = Some(expect_integer(value, key)?);
    } else if crate::text::same_text(key, "read_only") {
        profile.read_only = Some(expect_bool(value, key)?);
    } else if crate::text::same_text(key, "hide_dotfiles") {
        profile.hide_dotfiles = Some(expect_bool(value, key)?);
    } else {
        return Err(ConfigError::Parse(concat("Unsupported profile key: ", key)));
    }
    Ok(())
}

/// Sets `key` to `value` in `section` of `config`.
fn apply_value(config: &mut Config, section: &Section, key: &str, value: Value) -> (r: Result<
    (),
    ConfigError,
>)
    ensures
        applied(r, final(config)@, apply_spec(old(config)@, section@, key@, value@)),
{
    match section {
        Section::Server => apply_server_key(&mut config.server, key, value),
        Section::Auth => apply_auth_key(&mut config.auth, key, value),
        Section::Tui => apply_tui_key(&mut config.tui, key, value),
        Section::Profile(name) => {
            let mut profile = match config.profiles.get(name.as_str()) {
                Some(p) => p.copy(),
                None => ProfileConfig::default(),
            };
            let r = apply_profile_key(&mut profile, key, value);
            match r {
                Ok(()) => {
                    config.profiles.set(name.clone(), profile);
                    Ok(())
                },
                Err(e) => Err(e),
            }
        },
        Section::Root => Err(ConfigError::Parse(concat("Key outside section: ", key))),
    }
}

/// What reading one line did.
enum LineOutcome {
    Next,
    Failed(String),
    Panics,
}

/// Reads line number `n` of a config file, `v[ls..le]`.
#[verifier::rlimit(60)]
fn parse_line(
    config: &mut Config,
    section: &mut Section,
    v: &Vec<char>,
    ls: usize,
    le: usize,
    n: usize,
) -> (r: LineOutcome)
    requires
        ls <= le <= v.len(),
    ensures
        match (r, step_line(old(config)@, old(section)@, v@.subrange(ls as int, le as int), n as nat)) {
            (LineOutcome::Next, ParseState::Reading(c, s)) => final(config)@ == c && final(section)@ == s,
            (LineOutcome::Failed(e), ParseState::Failed(m)) => e@ == m,
            (LineOutcome::Panics, ParseState::Panics) => true,
            _ => false,
        },
{
    let ghost raw = v@.subrange(ls as int, le as int);
    let cut = match find_in(v, ls, le, '#') {
        Some(k) => ls + k,
        None => le,
    };
    assert(raw.subrange(0, cut - ls) =~= v@.subrange(ls as int, cut as int));
    assert(raw =~= v@.subrange(ls as int, le as int));
    let (a, b) = trim_bounds(v, ls, cut);
    let ghost line = v@.subrange(a as int, b as int);
    assert(line == line_content(raw));
    if a == b {
        return LineOutcome::Next;
    }
    assert(line[0] == v@[a as int] && line.last() == v@[b - 1]);
    if v[a] == '[' && v[b - 1] == ']' {
        let ghost name = v@.subrange(a + 1, b - 1);
        assert(line.subrange(1, line.len() - 1) =~= name);
        proof {
            reveal_strlit("server");
            reveal_strlit("auth");
            reveal_strlit("tui");
            reveal_strlit("profiles.");
        }
        if range_equals(v, a + 1, b - 1, "server") {
            *section = Section::Server;
        } else if range_equals(v, a + 1, b - 1, "auth") {
            *section = Section::Auth;
        } else if range_equals(v, a + 1, b - 1, "tui") {
            *section = Section::Tui;
        } else if range_starts_with(v, a + 1, b - 1, "profiles.") {
            let pname = string_of_range(v, a + 10, b - 1);
            assert(name.subrange(9, name.len() as int) =~= pname@);
            *section = Section::Profile(pname);
        } else {
            let mut msg = owned("Unsupported section [");
            let nm = string_of_range(v, a + 1, b - 1);
            push_str(&mut msg, nm.as_str());
            push_str(&mut msg, "] at line ");
            let num = decimal_string(n as u128);
            push_str(&mut msg, num.as_str());
            return LineOutcome::Failed(msg);
        }
        return LineOutcome::Next;
    }
    let k = match find_in(v, a, b, '=') {
        Some(k) => k,
        None => {
            let mut msg = owned("Invalid line ");
            let num = decimal_string(n as u128);
            push_str(&mut msg, num.as_str());
            push_str(&mut msg, ": ");
            let rs = string_of_range(v, ls, le);
            push_str(&mut msg, rs.as_str());
            return LineOutcome::Failed(msg);
        },
    };
    assert(line.subrange(0, k as int) =~= v@.subrange(a as int, a + k));
    assert(line.subrange(k + 1, line.len() as int) =~= v@.subrange(a + k + 1, b as int));
    let (ka, kb) = trim_bounds(v, a, a + k);
    let (va, vb) = trim_bounds(v, a + k + 1, b);
    let key = string_of_range(v, ka, kb);
    let input = string_of_range(v, va, vb);
    if vb - va == 1 && v[va] == '"' {
        assert(value_spec(input@) is Panics);
        return LineOutcome::Panics;
    }
    let value = match Value::parse(input.as_str()) {
        Ok(x) => x,
        Err(e) => {
            let mut msg = e;
            push_str(&mut msg, " at line ");
            let num = decimal_string(n as u128);
            push_str(&mut msg, num.as_str());
            return LineOutcome::Failed(msg);
        },
    };
    match apply_value(config, section, key.as_str(), value) {
        Ok(()) => LineOutcome::Next,
        Err(e) => LineOutcome::Failed(e.message().clone()),
    }
}

impl Config {
    /// Reads a config file, or says at which line it stops making sense. `None`
    /// stands for the one input that the reader cannot take: a value that is a
    /// single `"`.
    pub fn parse_checked(source: &str) -> (r: Option<Result<Config, ConfigError>>)
        ensures
            match (r, parse_config_spec(source@)) {
                (Some(Ok(c)), ParseState::Reading(cv, _)) => c@ == cv,
                (Some(Err(ConfigError::Parse(e))), ParseState::Failed(m)) => e@ == m,
                (None, ParseState::Panics) => true,
                _ => false,
            },
    {
        let v = chars_of(source);
        let ghost ls = lines(v@);
        let mut config = Config::default();
        let mut section = Section::Root;
        let mut pos: usize = 0;
        let mut n: usize = 0;
        proof {
            assert(v@.subrange(0, v@.len() as int) =~= v@);
            assert(ls.skip(0) =~= ls);
        }
        while pos < v.len()
            invariant
                v@ == source@,
                ls == lines(v@),
                0 <= pos <= v.len(),
                n <= pos,
                n <= ls.len(),
                ls.skip(n as int) == lines(v@.subrange(pos as int, v@.len() as int)),
                parse_lines(ls, n as nat) == ParseState::Reading(config@, section@),
            decreases v.len() - pos,
        {
            let found = find_in(&v, pos, v.len(), '\n');
            let (le, next) = match found {
                Some(k) => {
                    let e = pos + k;
                    if e > pos && v[e - 1] == '\r' {
                        (e - 1, e + 1)
                    } else {
                        (e, e + 1)
                    }
                },
                None => (v.len(), v.len()),
            };
            proof {
                let k: int = match found {
                    Some(k) => k as int,
                    None => -1,
                };
                lemma_lines_step(v@, pos as int, k);
                if k >= 0 {
                    let piece = v@.subrange(pos as int, pos + k);
                    if k > 0 && v@[pos + k - 1] == '\r' {
                        assert(piece.drop_last() =~= v@.subrange(pos as int, le as int));
                    }
                }
                assert(ls.skip(n as int)[0] == v@.subrange(pos as int, le as int));
                assert(ls.skip(n as int).len() >= 1);
                assert(n < ls.len());
                assert(ls[n as int] == v@.subrange(pos as int, le as int));
                assert(ls.skip(n + 1) =~= ls.skip(n as int).drop_first());
                if next == v.len() {
                    assert(v@.subrange(next as int, v@.len() as int).len() == 0);
                }
            }
            let out = parse_line(&mut config, &mut section, &v, pos, le, n + 1);
            match out {
                LineOutcome::Next => {},
                LineOutcome::Failed(m) => {
                    proof {
                        assert(parse_lines(ls, (n + 1) as nat) is Failed);
                        lemma_parse_lines_stuck(ls, (n + 1) as nat, ls.len());
                    }
                    return Some(Err(ConfigError::Parse(m)));
                },
                LineOutcome::Panics => {
                    proof {
                        lemma_parse_lines_stuck(ls, (n + 1) as nat, ls.len());
                    }
                    return None;
                },
            }
            n += 1;
            pos = next;
        }
        proof {
            assert(ls.skip(n as int).len() == 0);
        }
        Some(Ok(config))
    }

    /// Reads a config file: `[server]`, `[auth]`, `[tui]` and `[profiles.NAME]`
    /// sections of `key = value` lines, with `#` comments. The first line that
    /// cannot be read gives the error.
    pub fn parse(source: &str) -> (r: Result<Config, ConfigError>)
        requires
            !(parse_config_spec(source@) is Panics),
        ensures
            match (r, parse_config_spec(source@)) {
                (Ok(c), ParseState::Reading(cv, _)) => c@ == cv,
                (Err(ConfigError::Parse(e)), ParseState::Failed(m)) => e@ == m,
                _ => false,
            },
    {
        match Config::parse_checked(source) {
            Some(r) => r,
            None => Err(ConfigError::Parse(String::new())),
        }
    }
}

/// Once reading has failed or panicked, later lines change nothing.
proof fn lemma_parse_lines_stuck(ls: Seq<Seq<char>>, n: nat, m: nat)
    requires
        n <= m,
        !(parse_lines(ls, n) is Reading),
    ensures
        parse_lines(ls, m) == parse_lines(ls, n),
    decreases m - n,
{
    if m > n {
        lemma_parse_lines_stuck(ls, n, (m - 1) as nat);
    }
}

// ---------------------------------------------------------------------------
// The effective configuration
// ---------------------------------------------------------------------------

/// The settings a server runs with once every source has been merged.
#[derive(Debug, Clone)]
pub struct EffectiveConfig {
    pub folder: String,
    pub server: ServerConfig,
    pub auth: AuthConfig,
    pub tui: TuiConfig,
}

/// `base` joined with `rel` as `Path::join` does on Unix: an absolute `rel`
/// replaces `base`; otherwise a `/` goes between them unless `base` is empty or
/// already ends with one.
pub open spec fn path_join(base: Seq<char>, rel: Seq<char>) -> Seq<char> {
    if rel.len() > 0 && rel[0] == '/' {
        rel
    } else if base.len() > 0 && base.last() != '/' {
        base + "/"@ + rel
    } else {
        base + rel
    }
}

fn path_join_exec(base: &str, rel: &str) -> (p: String)
    ensures
        p@ == path_join(base@, rel@),
{
    let bc = chars_of(base);
    let rc = chars_of(rel);
    if rc.len() > 0 && rc[0] == '/' {
        return owned(rel);
    }
    let mut p = owned(base);
    if bc.len() > 0 && bc[bc.len() - 1] != '/' {
        push_str(&mut p, "/");
    }
    push_str(&mut p, rel);
    p
}

/// A path with a leading `~` standing for the home folder `home`.
pub open spec fn expand_home_spec(value: Seq<char>, home: Seq<char>) -> Seq<char> {
    if value == "~"@ {
        home
    } else if starts_with(value, "~/"@) {
        path_join(home, value.subrange(2, value.len() as int))
    } else {
        value
    }
}

/// Replaces a leading `~` or `~/` with the home folder `home`.
pub fn expand_home(value: &str, home: &str) -> (p: String)
    ensures
        p@ == expand_home_spec(value@, home@),
{
    let vc = chars_of(value);
    let n = vc.len();
    proof {
        reveal_strlit("~");
        reveal_strlit("~/");
        assert(vc@.subrange(0, n as int) =~= vc@);
    }
    if range_equals(&vc, 0, n, "~") {
        return owned(home);
    }
    if range_starts_with(&vc, 0, n, "~/") {
        let rest = string_of_range(&vc, 2, n);
        return path_join_exec(home, rest.as_str());
    }
    owned(value)
}

/// Where the config file lives in the home folder `home`: `.davbox/config.toml`.
pub open spec fn config_path_in_spec(home: Seq<char>) -> Seq<char> {
    path_join(path_join(home, ".davbox"@), "config.toml"@)
}

/// The default config file for the home folder `home`.
pub fn config_path_in(home: &str) -> (p: String)
    ensures
        p@ == config_path_in_spec(home@),
{
    let dir = path_join_exec(home, ".davbox");
    path_join_exec(dir.as_str(), "config.toml")
}

/// The profile a serve target names, if the config has one of that name.
pub open spec fn selected_profile(c: ConfigView, args: ServeArgsView) -> Option<ProfileView> {
    if c.profiles.contains_key(args.target) {
        Some(c.profiles[args.target])
    } else {
        None
    }
}

/// The folder to serve: the profile's path, else the target itself.
pub open spec fn effective_target(c: ConfigView, args: ServeArgsView) -> Seq<char> {
    match selected_profile(c, args) {
        Some(p) => match p.path {
            Some(x) => x,
            None => args.target,
        },
        None => args.target,
    }
}

pub open spec fn or_else<T>(o: Option<T>, d: T) -> T {
    match o {
        Some(x) => x,
        None => d,
    }
}

/// Server settings: the config's, overridden by the profile, overridden by the command line.
pub open spec fn effective_server(c: ConfigView, args: ServeArgsView) -> ServerView {
    let s = c.server;
    let with_profile = match selected_profile(c, args) {
        Some(p) => ServerView {
            name: or_else(p.name, s.name),
            port: or_else(p.port, s.port),
            read_only: or_else(p.read_only, s.read_only),
            hide_dotfiles: or_else(p.hide_dotfiles, s.hide_dotfiles),
            ..s
        },
        None => s,
    };
    ServerView {
        host: or_else(args.host, with_profile.host),
        port: or_else(args.port, with_profile.port),
        name: or_else(args.name, with_profile.name),
        read_only: or_else(args.read_only, with_profile.read_only),
        ..with_profile
    }
}

/// Authentication settings before the runtime password is chosen: the config's,
/// with the command line's user, password and `--no-auth`.
pub open spec fn effective_auth_base(c: ConfigView, args: ServeArgsView) -> AuthView {
    AuthView {
        enabled: c.auth.enabled && !args.no_auth,
        username: or_else(args.user, c.auth.username),
        password: match args.password {
            Some(p) => Some(p),
            None => c.auth.password,
        },
        ..c.auth
    }
}

pub open spec fn effective_tui(c: ConfigView, args: ServeArgsView) -> TuiView {
    TuiView { enabled: or_else(args.tui, c.tui.enabled), ..c.tui }
}

impl EffectiveConfig {
    /// Merges the built-in defaults (already in `config`), the config file, the
    /// selected profile, the environment `env` and the command line `args`, in
    /// rising priority. `home` is the home folder that `~` stands for.
    #[verifier::rlimit(40)]
    pub fn from_inputs(config: Config, args: ServeArgs, env: &[(String, String)], home: &str) -> (r:
        Result<Self, String>)
        ensures
            r is Ok,
            r matches Ok(e) ==> {
                let base = effective_auth_base(config@, args@);
                &&& e.folder@ == expand_home_spec(effective_target(config@, args@), home@)
                &&& e.server@ == effective_server(config@, args@)
                &&& e.tui@ == effective_tui(config@, args@)
                &&& !base.enabled ==> auth_view(e.auth) == base
                &&& base.enabled ==> exists|g: Seq<char>|
                    is_generated_password(g) && auth_view(e.auth) == AuthView {
                        password: Some(
                            runtime_password(base.password, base.password_env, env@, g),
                        ),
                        ..base
                    }
            },
    {
        let ghost cv = config@;
        let ghost av = args@;
        let profile = config.profiles.get(args.target.as_str());
        let target = match profile {
            Some(p) => match &p.path {
                Some(x) => x.clone(),
                None => args.target.clone(),
            },
            None => args.target.clone(),
        };
        let mut server = config.server.clone_config();
        match profile {
            Some(p) => {
                if let Some(name) = &p.name {
                    server.name = name.clone();
                }
                if let Some(port) = p.port {
                    server.port = port;
                }
                if let Some(read_only) = p.read_only {
                    server.read_only = read_only;
                }
                if let Some(hide_dotfiles) = p.hide_dotfiles {
                    server.hide_dotfiles = hide_dotfiles;
                }
            },
            None => {},
        }
        if let Some(host) = args.host {
            server.host = host;
        }
        if let Some(port) = args.port {
            server.port = port;
        }
        if let Some(name) = args.name {
            server.name = name;
        }
        if let Some(read_only) = args.read_only {
            server.read_only = read_only;
        }
        assert(server@ == effective_server(cv, av));
        let mut auth = config.auth;
        if let Some(user) = args.user {
            auth.username = user;
        }
        if let Some(password) = args.password {
            auth.password = Some(password);
        }
        if args.no_auth {
            auth.enabled = false;
        }
        assert(auth_view(auth) == effective_auth_base(cv, av));
        let auth = auth.with_runtime_password(env);
        let mut tui = config.tui;
        if let Some(enabled) = args.tui {
            tui.enabled = enabled;
        }
        let folder = expand_home(target.as_str(), home);
        Ok(EffectiveConfig { folder, server, auth, tui })
    }
}

impl ServerConfig {
    /// A copy of these settings.
    pub fn clone_config(&self) -> (c: ServerConfig)
        ensures
            c@ == self@,
    {
        ServerConfig {
            host: self.host.clone(),
            port: self.port,
            name: self.name.clone(),
            read_only: self.read_only,
            hide_dotfiles: self.hide_dotfiles,
            follow_symlinks: self.follow_symlinks,
            enable_mdns: self.enable_mdns,
        }
    }
}

/// Merge priority for the server settings: a value given on the command line
/// wins; else the selected profile's; else the config file's.
pub proof fn lemma_settings_priority(c: ConfigView, args: ServeArgsView)
    ensures
        effective_server(c, args).port == match args.port {
            Some(x) => x,
            None => match selected_profile(c, args) {
                Some(p) => or_else(p.port, c.server.port),
                None => c.server.port,
            },
        },
        effective_server(c, args).read_only == match args.read_only {
            Some(x) => x,
            None => match selected_profile(c, args) {
                Some(p) => or_else(p.read_only, c.server.read_only),
                None => c.server.read_only,
            },
        },
        effective_server(c, args).name == match args.name {
            Some(x) => x,
            None => match selected_profile(c, args) {
                Some(p) => or_else(p.name, c.server.name),
                None => c.server.name,
            },
        },
        effective_server(c, args).host == or_else(args.host, c.server.host),
        effective_server(c, args).hide_dotfiles == match selected_profile(c, args) {
            Some(p) => or_else(p.hide_dotfiles, c.server.hide_dotfiles),
            None => c.server.hide_dotfiles,
        },
        effective_server(c, args).follow_symlinks == c.server.follow_symlinks,
{
}

/// Password priority: `--password`, then the config's password, then the
/// environment variable that `password_env` names, then the generated one.
pub proof fn lemma_password_priority(
    c: ConfigView,
    args: ServeArgsView,
    env: Seq<(String, String)>,
    generated: Seq<char>,
)
    ensures
        runtime_password(
            effective_auth_base(c, args).password,
            effective_auth_base(c, args).password_env,
            env,
            generated,
        ) == match args.password {
            Some(x) => x,
            None => match c.auth.password {
                Some(x) => x,
                None => match c.auth.password_env {
                    Some(name) => or_else(env_lookup(env, name), generated),
                    None => generated,
                },
            },
        },
{
}

proof fn lemma_blank_lines_keep_defaults(ls: Seq<Seq<char>>, n: nat)
    requires
        n <= ls.len(),
        forall|i: int| 0 <= i < ls.len() ==> line_content(#[trigger] ls[i]).len() == 0,
    ensures
        parse_lines(ls, n) == ParseState::Reading(default_config(), SectionView::Root),
    decreases n,
{
    if n > 0 {
        lemma_blank_lines_keep_defaults(ls, (n - 1) as nat);
        assert(line_content(ls[n - 1]).len() == 0);
    }
}

/// A config file whose lines are all blank or comments sets nothing: it
/// reads as the built-in defaults.
pub proof fn lemma_blank_source_is_default(source: Seq<char>)
    requires
        forall|i: int|
            0 <= i < lines(source).len() ==> line_content(#[trigger] lines(source)[i]).len() == 0,
    ensures
        parse_config_spec(source) == ParseState::Reading(default_config(), SectionView::Root),
{
    lemma_blank_lines_keep_defaults(lines(source), lines(source).len());
}

/// The folder served: the path of the profile the target names, if that
/// profile has one; else the target itself.
pub proof fn lemma_target_priority(c: ConfigView, args: ServeArgsView)
    ensures
        effective_target(c, args) == if c.profiles.contains_key(args.target)
            && c.profiles[args.target].path is Some {
            c.profiles[args.target].path->0
        } else {
            args.target
        },
{
}

/// A `[server]` key sets exactly its own setting to a value of its type.
pub proof fn lemma_server_keys(s: ServerView, v: ValueView)
    ensures
        v matches ValueView::Str(x) ==> apply_server(s, "host"@, v) == Ok::<
            ServerView,
            Seq<char>,
        >(ServerView { host: x, ..s }) && apply_server(s, "name"@, v) == Ok::<
            ServerView,
            Seq<char>,
        >(ServerView { name: x, ..s }),
        v matches ValueView::Int(x) ==> apply_server(s, "port"@, v) == Ok::<
            ServerView,
            Seq<char>,
        >(ServerView { port: x, ..s }),
        v matches ValueView::Bool(x) ==> {
            &&& apply_server(s, "read_only"@, v) == Ok::<ServerView, Seq<char>>(
                ServerView { read_only: x, ..s },
            )
            &&& apply_server(s, "hide_dotfiles"@, v) == Ok::<ServerView, Seq<char>>(
                ServerView { hide_dotfiles: x, ..s },
            )
            &&& apply_server(s, "follow_symlinks"@, v) == Ok::<ServerView, Seq<char>>(
                ServerView { follow_symlinks: x, ..s },
            )
            &&& apply_server(s, "enable_mdns"@, v) == Ok::<ServerView, Seq<char>>(
                ServerView { enable_mdns: x, ..s },
            )
        },
{
    reveal_strlit("host");
    reveal_strlit("port");
    reveal_strlit("name");
    reveal_strlit("read_only");
    reveal_strlit("hide_dotfiles");
    reveal_strlit("follow_symlinks");
    reveal_strlit("enable_mdns");
    assert("port"@ != "host"@) by {
        assert("port"@[0] != "host"@[0]);
    }
    assert("name"@ != "host"@) by {
        assert("name"@[0] != "host"@[0]);
    }
    assert("name"@ != "port"@) by {
        assert("name"@[0] != "port"@[0]);
    }
}

/// An `[auth]` key sets exactly its own setting to a value of its type.
pub proof fn lemma_auth_keys(a: AuthView, v: ValueView)
    ensures
        v matches ValueView::Bool(x) ==> apply_auth(a, "enabled"@, v) == Ok::<AuthView, Seq<char>>(
            AuthView { enabled: x, ..a },
        ),
        v matches ValueView::Str(x) ==> {
            &&& apply_auth(a, "username"@, v) == Ok::<AuthView, Seq<char>>(
                AuthView { username: x, ..a },
            )
            &&& apply_auth(a, "password"@, v) == Ok::<AuthView, Seq<char>>(
                AuthView { password: Some(x), ..a },
            )
            &&& apply_auth(a, "password_env"@, v) == Ok::<AuthView, Seq<char>>(
                AuthView { password_env: Some(x), ..a },
            )
        },
{
    reveal_strlit("enabled");
    reveal_strlit("username");
    reveal_strlit("password");
    reveal_strlit("password_env");
    assert("password"@ != "username"@) by {
        assert("password"@[0] != "username"@[0]);
    }
}

/// A `[tui]` key sets exactly its own setting to a value of its type.
pub proof fn lemma_tui_keys(t: TuiView, v: ValueView)
    ensures
        v matches ValueView::Bool(x) ==> apply_tui(t, "enabled"@, v) == Ok::<TuiView, Seq<char>>(
            TuiView { enabled: x, ..t },
        ),
        v matches ValueView::Str(x) ==> apply_tui(t, "theme"@, v) == Ok::<TuiView, Seq<char>>(
            TuiView { theme: x, ..t },
        ),
        v matches ValueView::Int(x) ==> apply_tui(t, "refresh_ms"@, v) == Ok::<TuiView, Seq<char>>(
            TuiView { refresh_ms: x as u64, ..t },
        ),
{
    reveal_strlit("enabled");
    reveal_strlit("theme");
    reveal_strlit("refresh_ms");
}

/// A `[profiles.NAME]` key sets exactly its own setting of that profile.
pub proof fn lemma_profile_keys(p: ProfileView, v: ValueView)
    ensures
        v matches ValueView::Str(x) ==> {
            &&& apply_profile(p, "path"@, v) == Ok::<ProfileView, Seq<char>>(
                ProfileView { path: Some(x), ..p },
            )
            &&& apply_profile(p, "name"@, v) == Ok::<ProfileView, Seq<char>>(
                ProfileView { name: Some(x), ..p },
            )
        },
        v matches ValueView::Int(x) ==> apply_profile(p, "port"@, v) == Ok::<
            ProfileView,
            Seq<char>,
        >(ProfileView { port: Some(x), ..p }),
        v matches ValueView::Bool(x) ==> {
            &&& apply_profile(p, "read_only"@, v) == Ok::<ProfileView, Seq<char>>(
                ProfileView { read_only: Some(x), ..p },
            )
            &&& apply_profile(p, "hide_dotfiles"@, v) == Ok::<ProfileView, Seq<char>>(
                ProfileView { hide_dotfiles: Some(x), ..p },
            )
        },
{
    reveal_strlit("path");
    reveal_strlit("name");
    reveal_strlit("port");
    reveal_strlit("read_only");
    reveal_strlit("hide_dotfiles");
    assert("name"@ != "path"@) by {
        assert("name"@[0] != "path"@[0]);
    }
    assert("port"@ != "path"@) by {
        assert("port"@[1] != "path"@[1]);
    }
    assert("port"@ != "name"@) by {
        assert("port"@[0] != "name"@[0]);
    }
}

/// Command-line priority for the credentials: `--user` and `--password` win
/// over the config file, and `--no-auth` turns authentication off.
pub proof fn lemma_auth_priority(c: ConfigView, args: ServeArgsView)
    ensures
        effective_auth_base(c, args).username == match args.user {
            Some(u) => u,
            None => c.auth.username,
        },
        effective_auth_base(c, args).password == match args.password {
            Some(p) => Some(p),
            None => c.auth.password,
        },
        effective_auth_base(c, args).enabled == (c.auth.enabled && !args.no_auth),
        effective_auth_base(c, args).password_env == c.auth.password_env,
{
}

/// Decimal notation reads back as the number it writes.
proof fn lemma_decimal_reads_back(n: nat)
    ensures
        decimal(n).len() > 0,
        all_digits(decimal(n)),
        digits_value(decimal(n)) == n,
    decreases n,
{
    let d = n % 10;
    assert(digit_value(digit_char(d)) == d && is_digit(digit_char(d))) by {
        assert(d < 10);
        assert(((d + 48) as u8) as char as int == d + 48);
    }
    if n >= 10 {
        lemma_decimal_reads_back(n / 10);
        let pre = decimal(n / 10);
        let s = decimal(n);
        assert(s == pre.push(digit_char(d)));
        assert(s.drop_last() =~= pre);
        assert(s.last() == digit_char(d));
        assert forall|i: int| 0 <= i < s.len() implies is_digit(#[trigger] s[i]) by {
            if i < pre.len() {
                assert(s[i] == pre[i]);
            }
        }
        assert(digits_value(s) == digits_value(pre) * 10 + d);
        assert((n / 10) * 10 + d == n);
    } else {
        let s = decimal(n);
        assert(d == n);
        assert(s.drop_last() =~= Seq::<char>::empty());
        assert(s.last() == digit_char(n));
        assert(digits_value(Seq::<char>::empty()) == 0);
        assert(digits_value(s) == digits_value(s.drop_last()) * 10 + digit_value(s.last()));
    }
}

/// What a value text reads as: `true` and `false` are booleans, a decimal
/// number up to 65535 is that integer, and text in double quotes is the
/// string between them, whatever it holds.
pub proof fn lemma_value_texts(text: Seq<char>, n: nat)
    ensures
        value_spec("true"@) == ValueOutcome::Parsed(ValueView::Bool(true)),
        value_spec("false"@) == ValueOutcome::Parsed(ValueView::Bool(false)),
        n <= 65535 ==> value_spec(decimal(n)) == ValueOutcome::Parsed(ValueView::Int(n as u16)),
        value_spec("\""@ + text + "\""@) == ValueOutcome::Parsed(ValueView::Str(text)),
{
    reveal_strlit("true");
    reveal_strlit("false");
    reveal_strlit("\"");
    lemma_decimal_reads_back(n);
    let d = decimal(n);
    assert(is_digit(d[0]));
    assert(d != "true"@) by {
        assert("true"@[0] == 't');
    }
    assert(d != "false"@) by {
        assert("false"@[0] == 'f');
    }
    let q = "\""@ + text + "\""@;
    assert(q.len() == text.len() + 2);
    assert(q[0] == '"' && q.last() == '"');
    assert(q.subrange(1, q.len() - 1) =~= text);
}

/// A `[server]`, `[auth]` or `[tui]` line opens that section and sets nothing.
pub proof fn lemma_section_lines(c: ConfigView, sec: SectionView, n: nat)
    ensures
        step_line(c, sec, "[server]"@, n) == ParseState::Reading(c, SectionView::Server),
        step_line(c, sec, "[auth]"@, n) == ParseState::Reading(c, SectionView::Auth),
        step_line(c, sec, "[tui]"@, n) == ParseState::Reading(c, SectionView::Tui),
{
    reveal_strlit("[server]");
    reveal_strlit("[auth]");
    reveal_strlit("[tui]");
    reveal_strlit("server");
    reveal_strlit("auth");
    reveal_strlit("tui");
    lemma_plain_line_content("[server]"@);
    lemma_plain_line_content("[auth]"@);
    lemma_plain_line_content("[tui]"@);
    assert("[server]"@.subrange(1, 7) =~= "server"@);
    assert("[auth]"@.subrange(1, 5) =~= "auth"@);
    assert("[tui]"@.subrange(1, 4) =~= "tui"@);
    assert("auth"@ != "server"@) by {
        assert("auth"@.len() != "server"@.len());
    }
    assert("tui"@ != "server"@) by {
        assert("tui"@.len() != "server"@.len());
    }
    assert("tui"@ != "auth"@) by {
        assert("tui"@.len() != "auth"@.len());
    }
}

/// A `[profiles.NAME]` line opens the section of profile `NAME` and sets
/// nothing.
pub proof fn lemma_profile_section_line(c: ConfigView, sec: SectionView, name: Seq<char>, n: nat)
    requires
        forall|i: int| 0 <= i < name.len() ==> name[i] != '#',
    ensures
        step_line(c, sec, "[profiles."@ + name + "]"@, n) == ParseState::Reading(
            c,
            SectionView::Profile(name),
        ),
{
    reveal_strlit("[profiles.");
    reveal_strlit("]");
    reveal_strlit("profiles.");
    reveal_strlit("server");
    reveal_strlit("auth");
    reveal_strlit("tui");
    let raw = "[profiles."@ + name + "]"@;
    assert forall|i: int| 0 <= i < raw.len() implies raw[i] != '#' by {
        if i < 10 {
            assert(raw[i] == "[profiles."@[i]);
        } else if i < 10 + name.len() {
            assert(raw[i] == name[i - 10]);
        } else {
            assert(raw[i] == ']');
        }
    }
    assert(raw[0] == '[');
    assert(raw.last() == ']');
    lemma_plain_line_content(raw);
    let inner = raw.subrange(1, raw.len() - 1);
    assert(inner =~= "profiles."@ + name);
    assert(inner[0] == 'p');
    assert(inner != "server"@) by {
        assert("server"@[0] == 's');
    }
    assert(inner != "auth"@) by {
        assert("auth"@[0] == 'a');
    }
    assert(inner != "tui"@) by {
        assert("tui"@[0] == 't');
    }
    assert(starts_with(inner, "profiles."@)) by {
        assert(inner.subrange(0, 9) =~= "profiles."@);
    }
    assert(inner.subrange(9, inner.len() as int) =~= name);
}

/// A line without `#` that starts and ends with a non-space is its own content.
proof fn lemma_plain_line_content(raw: Seq<char>)
    requires
        raw.len() > 0,
        !is_space(raw[0]),
        !is_space(raw.last()),
        forall|i: int| 0 <= i < raw.len() ==> raw[i] != '#',
    ensures
        line_content(raw) == raw,
{
    crate::text::lemma_find_none(raw, '#');
    assert(trim_start(raw) == raw);
    assert(trim_end(raw) == raw);
}

/// A line `KEY = "TEXT"` gives the string `TEXT` to `KEY` in the section the
/// line stands in, as long as `KEY` is one word without `=` and neither holds
/// a `#` comment.
pub proof fn lemma_quoted_setting_line(
    c: ConfigView,
    sec: SectionView,
    key: Seq<char>,
    text: Seq<char>,
    n: nat,
)
    requires
        key.len() > 0,
        key[0] != '[',
        !is_space(key[0]),
        !is_space(key.last()),
        forall|i: int| 0 <= i < key.len() ==> key[i] != '=' && key[i] != '#',
        forall|i: int| 0 <= i < text.len() ==> text[i] != '#',
    ensures
        step_line(c, sec, key + " = "@ + ("\""@ + text + "\""@), n) == match apply_spec(
            c,
            sec,
            key,
            ValueView::Str(text),
        ) {
            Ok(c2) => ParseState::Reading(c2, sec),
            Err(e) => ParseState::Failed(e),
        },
{
    reveal_strlit(" = ");
    reveal_strlit("\"");
    let q = "\""@ + text + "\""@;
    let raw = key + " = "@ + q;
    let kl = key.len() as int;
    assert(q.len() == text.len() + 2);
    assert forall|i: int| 0 <= i < raw.len() implies raw[i] != '#' by {
        if i < kl {
            assert(raw[i] == key[i]);
        } else if i < kl + 3 {
            assert(raw[i] == " = "@[i - kl]);
        } else if i == kl + 3 || i == raw.len() - 1 {
            assert(raw[i] == '"');
        } else {
            assert(raw[i] == text[i - kl - 4]);
        }
    }
    assert(raw[0] == key[0]);
    assert(raw.last() == '"');
    lemma_plain_line_content(raw);
    assert forall|j: int| 0 <= j < kl + 1 implies raw[j] != '=' by {
        if j < kl {
            assert(raw[j] == key[j]);
        }
    }
    crate::text::lemma_find_first(raw, '=', kl + 1);
    let kpart = raw.subrange(0, kl + 1);
    assert(kpart =~= key + " "@) by {
        reveal_strlit(" ");
    }
    assert(trim_start(kpart) == kpart);
    crate::text::lemma_trim_end_skip(kpart, kl);
    assert(kpart.subrange(0, kl) =~= key);
    assert(trim_end(key) == key);
    let vpart = raw.subrange(kl + 2, raw.len() as int);
    assert(vpart.subrange(1, vpart.len() as int) =~= q);
    crate::text::lemma_trim_start_skip(vpart, 1);
    assert(trim_start(q) == q);
    assert(trim_end(q) == q);
    assert(q.subrange(1, q.len() - 1) =~= text);
}

/// Reading `[server]` and then `host = "TEXT"` sets the host to `TEXT` and
/// leaves every other setting at its default.
pub proof fn lemma_server_host_file(text: Seq<char>)
    requires
        forall|i: int| 0 <= i < text.len() ==> text[i] != '#',
    ensures
        parse_lines(seq!["[server]"@, "host"@ + " = "@ + ("\""@ + text + "\""@)], 2)
            == ParseState::Reading(
            ConfigView { server: ServerView { host: text, ..default_server() }, ..default_config() },
            SectionView::Server,
        ),
{
    let ls = seq!["[server]"@, "host"@ + " = "@ + ("\""@ + text + "\""@)];
    reveal_strlit("host");
    lemma_section_lines(default_config(), SectionView::Root, 1);
    assert(ls[0] == "[server]"@);
    assert(ls[1] == "host"@ + " = "@ + ("\""@ + text + "\""@));
    assert(parse_lines(ls, 0) == ParseState::Reading(default_config(), SectionView::Root));
    assert(parse_lines(ls, 1) == ParseState::Reading(default_config(), SectionView::Server));
    lemma_quoted_setting_line(default_config(), SectionView::Server, "host"@, text, 2);
    lemma_server_keys(default_server(), ValueView::Str(text));
}

} // verus!
