//! The configuration a user keeps, how it is loaded, and the settings
//! dialog's edits to it.
use vstd::prelude::*;
use crate::text::{before_first, chars_of, contains_str, contains_text, find_char, has_char, trim, trimmed};

verus! {

/// The port daemons listen on unless configured otherwise.
pub const DEFAULT_PORT: u16 = 49242;

/// Network settings.
#[derive(Debug, Clone)]
pub struct NetworkConfig {
    pub port: u16,
    pub discovery_timeout_secs: u64,
    pub static_peers: Option<Vec<String>>,
    pub scan_subnets: Option<Vec<String>>,
}

/// General settings.
#[derive(Debug, Clone)]
pub struct GeneralConfig {
    pub default_download_path: String,
    pub show_notifications: bool,
    pub language: Option<String>,
}

/// How the user appears to others.
#[derive(Debug, Clone)]
pub struct UserConfig {
    pub display_name: Option<String>,
    pub avatar_path: Option<String>,
}

/// The whole configuration.
#[derive(Debug, Clone)]
pub struct Config {
    pub network: NetworkConfig,
    pub general: GeneralConfig,
    pub user: UserConfig,
}

impl UserConfig {
    /// The user settings a new configuration starts with: the machine's
    /// host name as display name, no avatar.
    pub fn for_host(hostname: String) -> (r: UserConfig)
        ensures
            r.display_name == Some(hostname),
            r.avatar_path is None,
    {
        UserConfig { display_name: Some(hostname), avatar_path: None }
    }
}

impl Config {
    /// Whether `c` is the configuration a machine named `hostname` starts
    /// with.
    pub open spec fn is_default_for(c: Config, hostname: Seq<char>) -> bool {
        &&& c.network.port == DEFAULT_PORT
        &&& c.network.discovery_timeout_secs == 5
        &&& c.network.static_peers matches Some(p) && p@.len() == 0
        &&& c.network.scan_subnets matches Some(s) && s@.len() == 0
        &&& c.general.default_download_path@ == "~/Downloads"@
        &&& c.general.show_notifications
        &&& c.general.language is None
        &&& c.user.display_name matches Some(n) && n@ == hostname
        &&& c.user.avatar_path is None
    }

    /// The configuration a machine named `hostname` starts with.
    pub fn defaults(hostname: String) -> (r: Config)
        ensures
            Config::is_default_for(r, hostname@),
    {
        Config {
            network: NetworkConfig {
                port: DEFAULT_PORT,
                discovery_timeout_secs: 5,
                static_peers: Some(Vec::new()),
                scan_subnets: Some(Vec::new()),
            },
            general: GeneralConfig {
                default_download_path: "~/Downloads".to_owned(),
                show_notifications: true,
                language: None,
            },
            user: UserConfig::for_host(hostname),
        }
    }
}

/// What was found where the configuration file should be.
pub enum StoredConfig {
    /// No file exists yet.
    Missing,
    /// The file was read and parsed.
    Loaded(Config),
    /// The file exists but could not be read.
    Unreadable,
    /// The file was read but is not a valid configuration.
    Malformed,
}

impl StoredConfig {
    /// Whether the defaults are needed, that is, anything but a loaded file.
    pub fn needs_defaults(&self) -> (r: bool)
        ensures
            r == !(self is Loaded),
    {
        match self {
            StoredConfig::Loaded(_) => false,
            _ => true,
        }
    }

    /// Whether a file with the defaults should be written: only when none
    /// exists.
    pub fn should_write_defaults(&self) -> (r: bool)
        ensures
            r == (self is Missing),
    {
        match self {
            StoredConfig::Missing => true,
            _ => false,
        }
    }
}

/// The configuration in use and the file it belongs to.
pub struct ConfigManager {
    pub config: Config,
    pub config_path: String,
}

impl ConfigManager {
    /// The configuration to use given what was found at `config_path`: the
    /// loaded one, or the defaults for a machine named `hostname` when the
    /// file is missing, unreadable or malformed.
    pub fn new(config_path: String, stored: StoredConfig, hostname: String) -> (r: ConfigManager)
        ensures
            r.config_path@ == config_path@,
            stored matches StoredConfig::Loaded(c) ==> r.config == c,
            !(stored is Loaded) ==> Config::is_default_for(r.config, hostname@),
    {
        let config = match stored {
            StoredConfig::Loaded(c) => c,
            _ => Config::defaults(hostname),
        };
        ConfigManager { config, config_path }
    }

    /// The path of the configuration file.
    pub fn config_path(&self) -> (r: &str)
        ensures
            r@ == self.config_path@,
    {
        self.config_path.as_str()
    }
}

/// The file a language's strings are read from.
pub open spec fn language_file_text(lang: Seq<char>) -> Seq<char> {
    "src/i18n/"@ + lang + ".yml"@
}

/// The path of the strings file of language `lang`.
pub fn language_file_path(lang: &str) -> (r: String)
    ensures
        r@ == language_file_text(lang@),
{
    let mut r = String::new();
    r.append("src/i18n/");
    r.append(lang);
    r.append(".yml");
    assert(r@ =~= language_file_text(lang@));
    r
}

/// The language code in a locale setting such as `de_DE.UTF-8`: the part
/// before the first `.`, taken from `fallback` when the setting is unset.
pub open spec fn locale_language(env_value: Option<Seq<char>>, fallback: Seq<char>) -> Seq<char> {
    match env_value {
        Some(v) => before_first(v, '.'),
        None => before_first(fallback, '.'),
    }
}

/// The language code of the `LANG` setting, or of `fallback` without one.
pub fn language_from_locale(env_value: &Option<String>, fallback: &str) -> (r: String)
    ensures
        r@ == locale_language(
            match env_value {
                Some(v) => Some(v@),
                None => None,
            },
            fallback@,
        ),
        ({
            let src = match env_value {
                Some(v) => v@,
                None => fallback@,
            };
            &&& r@ == src.take(r@.len() as int)
            &&& r@.len() <= src.len()
            &&& !has_char(r@, '.')
            &&& r@.len() < src.len() ==> src[r@.len() as int] == '.'
        }),
{
    proof {
        match env_value {
            Some(v) => crate::text::law_before_first_shape(v@, '.'),
            None => crate::text::law_before_first_shape(fallback@, '.'),
        }
    }
    let source: &str = match env_value {
        Some(v) => v.as_str(),
        None => fallback,
    };
    let cs = chars_of(source);
    let k = find_char(&cs, '.');
    source.substring_char(0, k).to_owned()
}

/// The language the interface uses: the configured one, else the one of the
/// locale setting, else `en_US`.
pub fn interface_language(configured: &Option<String>, env_value: &Option<String>) -> (r: String)
    ensures
        configured matches Some(c) ==> r@ == c@,
        configured is None ==> r@ == locale_language(
            match env_value {
                Some(v) => Some(v@),
                None => None,
            },
            "en_US"@,
        ),
{
    match configured {
        Some(c) => c.clone(),
        None => language_from_locale(env_value, "en_US"),
    }
}

/// The languages whose strings ship with the program.
#[derive(Debug, Clone, Copy, PartialEq, Eq, Structural)]
pub enum BundledLanguage {
    German,
    English,
}

impl BundledLanguage {
    /// The language code.
    pub open spec fn code_spec(self) -> Seq<char> {
        match self {
            BundledLanguage::German => "de_DE"@,
            BundledLanguage::English => "en_US"@,
        }
    }

    /// The language code.
    pub fn code(&self) -> (r: &'static str)
        ensures
            r@ == self.code_spec(),
    {
        match self {
            BundledLanguage::German => "de_DE",
            BundledLanguage::English => "en_US",
        }
    }
}

/// The bundled strings to use for a language code: those of the code when
/// they ship, else the English ones; the flag tells whether it fell back.
pub open spec fn resolved_language(code: Seq<char>) -> (BundledLanguage, bool) {
    if code == "de_DE"@ {
        (BundledLanguage::German, false)
    } else if code == "en_US"@ {
        (BundledLanguage::English, false)
    } else {
        (BundledLanguage::English, true)
    }
}

/// Picks the bundled strings for a language code.
pub fn resolve_language(code: &str) -> (r: (BundledLanguage, bool))
    ensures
        r == resolved_language(code@),
{
    if crate::text::same_text(code, "de_DE") {
        (BundledLanguage::German, false)
    } else if crate::text::same_text(code, "en_US") {
        (BundledLanguage::English, false)
    } else {
        (BundledLanguage::English, true)
    }
}

/// A copy of an optional text, empty when there is none.
fn text_or_empty(s: &Option<String>) -> (r: String)
    ensures
        r@ == match s {
            Some(x) => x@,
            None => Seq::<char>::empty(),
        },
{
    match s {
        Some(x) => x.clone(),
        None => String::new(),
    }
}

/// What an edited text field stores: nothing when it is blank, the text as
/// typed otherwise.
pub open spec fn field_value(field: Seq<char>) -> Option<Seq<char>> {
    if trim(field).len() == 0 {
        None
    } else {
        Some(field)
    }
}

/// The stored value of an edited text field.
pub fn field_to_setting(field: &String) -> (r: Option<String>)
    ensures
        r is None <==> field_value(field@) is None,
        r matches Some(x) ==> field_value(field@) == Some(x@),
{
    let t = trimmed(field.as_str());
    if t.unicode_len() == 0 {
        None
    } else {
        Some(field.clone())
    }
}

/// Whether a status message reports a failure (in English or German).
pub open spec fn reports_error(msg: Seq<char>) -> bool {
    contains_text(msg, "Error"@) || contains_text(msg, "Fehler"@)
}

/// The settings dialog: the fields the user edits and the configuration
/// they are saved into.
pub struct SettingsDialog {
    pub config_manager: ConfigManager,
    pub display_name: String,
    pub avatar_path: String,
    pub download_path: String,
    pub show_notifications: bool,
    pub language: String,
    pub status_msg: Option<String>,
}

impl SettingsDialog {
    /// Opens the dialog on a configuration; `env_value` is the `LANG`
    /// setting, used when no language is configured.
    pub fn new(config_manager: ConfigManager, env_value: &Option<String>) -> (r: SettingsDialog)
        ensures
            r.config_manager == config_manager,
            r.display_name@ == match config_manager.config.user.display_name {
                Some(x) => x@,
                None => Seq::<char>::empty(),
            },
            r.avatar_path@ == match config_manager.config.user.avatar_path {
                Some(x) => x@,
                None => Seq::<char>::empty(),
            },
            r.download_path@ == config_manager.config.general.default_download_path@,
            r.show_notifications == config_manager.config.general.show_notifications,
            config_manager.config.general.language matches Some(l) ==> r.language@ == l@,
            config_manager.config.general.language is None ==> r.language@ == locale_language(
                match env_value {
                    Some(v) => Some(v@),
                    None => None,
                },
                "en_US.UTF-8"@,
            ),
            r.status_msg is None,
    {
        let language = match &config_manager.config.general.language {
            Some(l) => l.clone(),
            None => language_from_locale(env_value, "en_US.UTF-8"),
        };
        let display_name = text_or_empty(&config_manager.config.user.display_name);
        let avatar_path = text_or_empty(&config_manager.config.user.avatar_path);
        let download_path = config_manager.config.general.default_download_path.clone();
        let show_notifications = config_manager.config.general.show_notifications;
        SettingsDialog {
            config_manager,
            display_name,
            avatar_path,
            download_path,
            show_notifications,
            language,
            status_msg: None,
        }
    }

    /// Writes the edited fields into the configuration: a blank display name
    /// or avatar path becomes unset, the language becomes set. Everything
    /// else in the configuration stays as it was.
    pub fn save(&mut self)
        ensures
            final(self).display_name == old(self).display_name,
            final(self).avatar_path == old(self).avatar_path,
            final(self).download_path == old(self).download_path,
            final(self).show_notifications == old(self).show_notifications,
            final(self).language == old(self).language,
            final(self).status_msg == old(self).status_msg,
            final(self).config_manager.config_path == old(self).config_manager.config_path,
            final(self).config_manager.config.network == old(self).config_manager.config.network,
            ({
                let c = final(self).config_manager.config;
                &&& (c.user.display_name matches Some(x) ==> field_value(old(self).display_name@) == Some(x@))
                &&& (c.user.display_name is None <==> field_value(old(self).display_name@) is None)
                &&& (c.user.avatar_path matches Some(x) ==> field_value(old(self).avatar_path@) == Some(x@))
                &&& (c.user.avatar_path is None <==> field_value(old(self).avatar_path@) is None)
                &&& c.general.default_download_path@ == old(self).download_path@
                &&& c.general.show_notifications == old(self).show_notifications
                &&& (c.general.language matches Some(l) && l@ == old(self).language@)
            }),
    {
        self.config_manager.config.user.display_name = field_to_setting(&self.display_name);
        self.config_manager.config.user.avatar_path = field_to_setting(&self.avatar_path);
        self.config_manager.config.general.default_download_path = self.download_path.clone();
        self.config_manager.config.general.show_notifications = self.show_notifications;
        self.config_manager.config.general.language = Some(self.language.clone());
    }

    /// Shows the outcome of writing the configuration file.
    pub fn set_status(&mut self, message: String)
        ensures
            final(self).status_msg == Some(message),
            final(self).config_manager == old(self).config_manager,
            final(self).display_name == old(self).display_name,
            final(self).avatar_path == old(self).avatar_path,
            final(self).download_path == old(self).download_path,
            final(self).show_notifications == old(self).show_notifications,
            final(self).language == old(self).language,
    {
        self.status_msg = Some(message);
    }

    /// Whether the status shown reports a failure, which the dialog shows in
    /// red.
    pub fn status_is_error(&self) -> (r: bool)
        ensures
            r == match self.status_msg {
                Some(m) => reports_error(m@),
                None => false,
            },
    {
        match &self.status_msg {
            Some(m) => contains_str(m.as_str(), "Error") || contains_str(m.as_str(), "Fehler"),
            None => false,
        }
    }
}

} // verus!
