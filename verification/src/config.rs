//! Where the service is and how to sign in to it.
use vstd::prelude::*;
use vstd::string::StrSliceExecFns;
use vstd::string::StringExecFns;

use crate::text::{
    end_slashes_alone_are_dropped, lemma_trimmed_twice, non_blank, non_empty, text_of, trim,
    trim_end_slashes, trimmed, without_end_slashes,
};

verus! {

/// The resolved configuration.
#[derive(Clone, Debug)]
pub struct Config {
    pub base_url: String,
    pub api_key: String,
}

/// What the configuration file holds.
#[derive(Debug)]
pub struct FileConfig {
    pub base_url: Option<String>,
    pub api_key: Option<String>,
}

/// Why no configuration could be resolved.
#[derive(Clone, Copy, Debug, PartialEq, Eq, Structural)]
pub enum ConfigError {
    MissingBaseUrl,
    MissingApiKey,
}

/// A resolved configuration as a value of the model.
pub struct ConfigView {
    pub base_url: Seq<char>,
    pub api_key: Seq<char>,
}

impl View for Config {
    type V = ConfigView;

    open spec fn view(&self) -> ConfigView {
        ConfigView { base_url: self.base_url@, api_key: self.api_key@ }
    }
}

impl Default for FileConfig {
    /// The configuration file that sets nothing.
    fn default() -> (r: FileConfig)
        ensures
            r.base_url is None,
            r.api_key is None,
    {
        FileConfig { base_url: None, api_key: None }
    }
}

/// Whether an optional text is there and is more than white space.
pub open spec fn has_text(value: Option<String>) -> bool {
    value is Some && trimmed(value->0@).len() > 0
}

/// One setting: the environment's value unless it is unset or blank, else the
/// file's value unless that is unset or blank. White space around it is dropped.
pub open spec fn setting(environment: Option<Seq<char>>, file: Option<Seq<char>>) -> Option<
    Seq<char>,
> {
    match filled(environment) {
        Some(value) => Some(value),
        None => filled(file),
    }
}

/// A value that is neither unset nor blank, without the white space around it.
pub open spec fn filled(value: Option<Seq<char>>) -> Option<Seq<char>> {
    match value {
        Some(text) => non_blank(text),
        None => None,
    }
}

/// A base URL without white space around it and without slashes at its end.
pub open spec fn normalized(url: Seq<char>) -> Seq<char> {
    without_end_slashes(trimmed(url))
}

/// The configuration that the environment and the file resolve to.
pub open spec fn resolved(
    env_base_url: Option<Seq<char>>,
    env_api_key: Option<Seq<char>>,
    file_base_url: Option<Seq<char>>,
    file_api_key: Option<Seq<char>>,
) -> Result<ConfigView, ConfigError> {
    match (setting(env_base_url, file_base_url), setting(env_api_key, file_api_key)) {
        (None, _) => Err(ConfigError::MissingBaseUrl),
        (Some(_), None) => Err(ConfigError::MissingApiKey),
        (Some(base_url), Some(api_key)) => Ok(
            ConfigView { base_url: normalized(base_url), api_key },
        ),
    }
}

/// The first eight characters of a key, or all of a shorter one.
pub open spec fn shown(key: Seq<char>) -> Seq<char> {
    key.take(if key.len() < 8 { key.len() as int } else { 8 })
}

/// A key of which only the first eight characters are shown.
pub open spec fn masked(key: Seq<char>) -> Seq<char> {
    shown(key) + "..."@
}

/// The outcome of loading as a value of the model.
pub open spec fn config_of(r: Result<Config, ConfigError>) -> Result<ConfigView, ConfigError> {
    match r {
        Ok(config) => Ok(config@),
        Err(error) => Err(error),
    }
}

fn pick(environment: Option<String>, file: Option<String>) -> (r: Option<String>)
    ensures
        text_of(r) == setting(text_of(environment), text_of(file)),
{
    if let Some(value) = environment {
        let value = non_empty(value);
        if value.is_some() {
            return value;
        }
    }
    match file {
        Some(value) => non_empty(value),
        None => None,
    }
}

impl Config {
    /// Resolves the configuration from the values of the environment variables
    /// `MNEMOS_BASE` and `MNEMOS_API_KEY` and from what the file holds.
    pub fn load(
        env_base_url: Option<String>,
        env_api_key: Option<String>,
        file: FileConfig,
    ) -> (r: Result<Config, ConfigError>)
        ensures
            config_of(r) == resolved(
                text_of(env_base_url),
                text_of(env_api_key),
                text_of(file.base_url),
                text_of(file.api_key),
            ),
            (r is Ok) <==> (has_text(env_base_url) || has_text(file.base_url)) && (has_text(
                env_api_key,
            ) || has_text(file.api_key)),
            r is Ok && has_text(env_api_key) ==> r->Ok_0.api_key@ == trimmed(env_api_key->0@),
            r is Ok && !has_text(env_api_key) ==> r->Ok_0.api_key@ == trimmed(file.api_key->0@),
            r is Ok && has_text(env_base_url) ==> r->Ok_0.base_url@ == without_end_slashes(
                trimmed(env_base_url->0@),
            ),
            r is Ok && !has_text(env_base_url) ==> r->Ok_0.base_url@ == without_end_slashes(
                trimmed(file.base_url->0@),
            ),
            r is Err ==> (r->Err_0 is MissingBaseUrl <==> !has_text(env_base_url) && !has_text(
                file.base_url,
            )),
    {
        proof {
            settings_are_taken_whole(
                text_of(env_base_url),
                text_of(env_api_key),
                text_of(file.base_url),
                text_of(file.api_key),
            );
        }
        let base_url = match pick(env_base_url, file.base_url) {
            Some(value) => value,
            None => {
                return Err(ConfigError::MissingBaseUrl);
            },
        };
        let api_key = match pick(env_api_key, file.api_key) {
            Some(value) => value,
            None => {
                return Err(ConfigError::MissingApiKey);
            },
        };
        Ok(Config { base_url: normalize_base_url(base_url.as_str()), api_key })
    }

    /// The configuration for the user's eye, without the rest of the key.
    pub fn report(&self) -> (r: Vec<String>)
        ensures
            r@.len() == 2,
            r@[0]@ == "base_url="@ + self@.base_url,
            r@[1]@ == "api_key="@ + masked(self@.api_key),
            r@[0]@ == "base_url="@ + self.base_url@,
            r@[1]@ == "api_key="@ + masked(self.api_key@),
    {
        let mut lines: Vec<String> = Vec::new();
        lines.push("base_url=".to_owned().concat(self.base_url.as_str()));
        lines.push("api_key=".to_owned().concat(self.masked_api_key().as_str()));
        lines
    }

    /// The key with all but its first eight characters left out.
    pub fn masked_api_key(&self) -> (r: String)
        ensures
            r@ == masked(self@.api_key),
            r@ == masked(self.api_key@),
    {
        mask_api_key(self.api_key.as_str())
    }
}

impl ConfigError {
    /// The message for the user.
    pub fn message(&self) -> (r: String)
        ensures
            r@ == match *self {
                ConfigError::MissingBaseUrl =>
                    "MNEMOS_BASE is not set and ~/.mnemos/config.toml has no base_url"@,
                ConfigError::MissingApiKey =>
                    "MNEMOS_API_KEY is not set and ~/.mnemos/config.toml has no api_key"@,
            },
    {
        match self {
            ConfigError::MissingBaseUrl =>
                "MNEMOS_BASE is not set and ~/.mnemos/config.toml has no base_url".to_owned(),
            ConfigError::MissingApiKey =>
                "MNEMOS_API_KEY is not set and ~/.mnemos/config.toml has no api_key".to_owned(),
        }
    }
}

/// A base URL without white space around it and without slashes at its end.
pub fn normalize_base_url(value: &str) -> (r: String)
    ensures
        r@ == normalized(value@),
{
    trim_end_slashes(trim(value).as_str())
}

/// A key of which only the first eight characters are shown.
pub fn mask_api_key(value: &str) -> (r: String)
    ensures
        r@ == masked(value@),
{
    let len = value.unicode_len();
    let shown: usize = if len < 8 { len } else { 8 };
    assert(value@.subrange(0, shown as int) =~= value@.take(shown as int));
    value.substring_char(0, shown).to_owned().concat("...")
}

/// The path of the configuration file below the home directory, name by name.
pub fn config_path() -> (r: Vec<String>)
    ensures
        r@.len() == 2,
        r@[0]@ == ".mnemos"@,
        r@[1]@ == "config.toml"@,
{
    let mut path: Vec<String> = Vec::new();
    path.push(".mnemos".to_owned());
    path.push("config.toml".to_owned());
    path
}

/// The path of the local database below the home directory, name by name.
pub fn sync_db_path() -> (r: Vec<String>)
    ensures
        r@.len() == 2,
        r@[0]@ == ".mnemos"@,
        r@[1]@ == "mnemosctl.db"@,
{
    let mut path: Vec<String> = Vec::new();
    path.push(".mnemos".to_owned());
    path.push("mnemosctl.db".to_owned());
    path
}

/// The environment takes precedence: where both of its variables hold more than
/// white space, they alone decide, and the file is not looked at.
pub proof fn environment_takes_precedence(
    env_base_url: Option<Seq<char>>,
    env_api_key: Option<Seq<char>>,
    file_base_url: Option<Seq<char>>,
    file_api_key: Option<Seq<char>>,
)
    requires
        filled(env_base_url) is Some,
        filled(env_api_key) is Some,
    ensures
        resolved(env_base_url, env_api_key, file_base_url, file_api_key) == resolved(
            env_base_url,
            env_api_key,
            None,
            None,
        ),
        resolved(env_base_url, env_api_key, file_base_url, file_api_key) is Ok,
{
}

/// Each setting by itself is taken from the environment where that holds more
/// than white space, and from the file otherwise.
pub proof fn settings_are_independent(
    env_base_url: Option<Seq<char>>,
    env_api_key: Option<Seq<char>>,
    file_base_url: Option<Seq<char>>,
    file_api_key: Option<Seq<char>>,
)
    requires
        resolved(env_base_url, env_api_key, file_base_url, file_api_key) is Ok,
    ensures
        ({
            let config = resolved(env_base_url, env_api_key, file_base_url, file_api_key)->Ok_0;
            &&& filled(env_base_url) is Some ==> config.base_url == normalized(
                filled(env_base_url)->0,
            )
            &&& filled(env_base_url) is None ==> config.base_url == normalized(
                filled(file_base_url)->0,
            )
            &&& filled(env_api_key) is Some ==> config.api_key == filled(env_api_key)->0
            &&& filled(env_api_key) is None ==> config.api_key == filled(file_api_key)->0
        }),
{
}

/// A masked key gives away nothing behind the eighth character: keys that agree
/// that far look the same.
pub proof fn mask_hides_the_rest(key: Seq<char>, other: Seq<char>)
    requires
        shown(key) == shown(other),
    ensures
        masked(key) == masked(other),
{
}

/// The settings are the user's, character by character. The key is what the
/// environment variable holds, without the white space around it, if that is more
/// than white space, and what the file holds otherwise; the base URL likewise, and
/// without the slashes at its end. There is a configuration exactly if both can be
/// had, and the base URL is missed first.
pub proof fn settings_are_taken_whole(
    env_base_url: Option<Seq<char>>,
    env_api_key: Option<Seq<char>>,
    file_base_url: Option<Seq<char>>,
    file_api_key: Option<Seq<char>>,
)
    ensures
        ({
            let r = resolved(env_base_url, env_api_key, file_base_url, file_api_key);
            let env_url = env_base_url is Some && trimmed(env_base_url->0).len() > 0;
            let file_url = file_base_url is Some && trimmed(file_base_url->0).len() > 0;
            let env_key = env_api_key is Some && trimmed(env_api_key->0).len() > 0;
            let file_key = file_api_key is Some && trimmed(file_api_key->0).len() > 0;
            &&& r is Ok <==> (env_url || file_url) && (env_key || file_key)
            &&& r is Ok && env_key ==> r->Ok_0.api_key == trimmed(env_api_key->0)
            &&& r is Ok && !env_key ==> r->Ok_0.api_key == trimmed(file_api_key->0)
            &&& r is Ok && env_url ==> r->Ok_0.base_url == without_end_slashes(
                trimmed(env_base_url->0),
            )
            &&& r is Ok && !env_url ==> r->Ok_0.base_url == without_end_slashes(
                trimmed(file_base_url->0),
            )
            &&& !env_url && !file_url ==> r == Err::<ConfigView, ConfigError>(
                ConfigError::MissingBaseUrl,
            )
            &&& (env_url || file_url) && !env_key && !file_key ==> r == Err::<
                ConfigView,
                ConfigError,
            >(ConfigError::MissingApiKey)
        }),
{
    if env_base_url is Some {
        lemma_trimmed_twice(env_base_url->0);
    }
    if file_base_url is Some {
        lemma_trimmed_twice(file_base_url->0);
    }
}

/// A base URL keeps every character but the white space around it and the slashes
/// at its end.
pub proof fn base_url_keeps_its_start(url: Seq<char>)
    ensures
        exists|i: int|
            {
                &&& 0 <= i <= trimmed(url).len()
                &&& normalized(url) == #[trigger] trimmed(url).take(i)
                &&& forall|k: int| i <= k < trimmed(url).len() ==> #[trigger] trimmed(url)[k] == '/'
                &&& i > 0 ==> trimmed(url)[i - 1] != '/'
            },
{
    end_slashes_alone_are_dropped(trimmed(url));
}

/// A masked key is the start of the key, eight characters of it or all of a
/// shorter one, and three dots.
pub proof fn mask_shows_the_start(key: Seq<char>)
    ensures
        ({
            let n = if key.len() < 8 {
                key.len() as int
            } else {
                8int
            };
            &&& masked(key).len() == n + 3
            &&& forall|i: int| 0 <= i < n ==> #[trigger] masked(key)[i] == key[i]
            &&& forall|i: int| n <= i < n + 3 ==> #[trigger] masked(key)[i] == '.'
        }),
{
    reveal_strlit("...");
}

/// A configuration in the model is the configuration, in full.
pub proof fn configuration_is_kept(config: Config, r: Result<Config, ConfigError>)
    ensures
        config@.base_url == config.base_url@,
        config@.api_key == config.api_key@,
        r is Ok <==> config_of(r) is Ok,
        r is Ok ==> config_of(r)->Ok_0 == r->Ok_0@,
        r is Err ==> config_of(r)->Err_0 == r->Err_0,
{
}

} // verus!
