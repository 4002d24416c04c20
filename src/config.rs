use crate::text::{chars_equal, chars_of};
use vstd::prelude::*;

verus! {

/// The settings of the note store.
#[derive(Debug)]
pub struct Config {
    pub not_path: String,
    pub language: String,
    pub log_level: String,
}

/// Why a setting could not be given.
#[derive(Debug, Clone, Copy, PartialEq, Eq, Structural)]
pub enum ConfigError {
    EmptyKey,
    UnknownKey,
}

/// The names of the settings.
pub open spec fn config_keys() -> Seq<Seq<char>> {
    seq!["not_path"@, "language"@, "log_level"@]
}

/// The value of setting `key`, if there is such a setting.
pub open spec fn config_value(c: Config, key: Seq<char>) -> Option<Seq<char>> {
    if key == "not_path"@ {
        Some(c.not_path@)
    } else if key == "language"@ {
        Some(c.language@)
    } else if key == "log_level"@ {
        Some(c.log_level@)
    } else {
        None
    }
}

fn str_equal(a: &str, b: &str) -> (r: bool)
    ensures
        r == (a@ == b@),
{
    let x = chars_of(a);
    let y = chars_of(b);
    chars_equal(x.as_slice(), y.as_slice())
}

impl Config {
    /// The names of the settings.
    pub fn keys() -> (r: Vec<&'static str>)
        ensures
            r@.map_values(|k: &'static str| k@) == config_keys(),
    {
        let r = vec!["not_path", "language", "log_level"];
        assert(r@.map_values(|k: &'static str| k@) =~= config_keys());
        r
    }

    /// The value of setting `key`, if there is such a setting.
    pub fn get_value(&self, key: &str) -> (r: Option<String>)
        ensures
            r is Some <==> config_value(*self, key@) is Some,
            r is Some ==> r->Some_0@ == config_value(*self, key@)->Some_0,
    {
        if str_equal(key, "not_path") {
            Some(self.not_path.clone())
        } else if str_equal(key, "language") {
            Some(self.language.clone())
        } else if str_equal(key, "log_level") {
            Some(self.log_level.clone())
        } else {
            None
        }
    }
}

/// The value of setting `key`; an empty key and a key that names no setting are errors.
pub fn get_value_from_config(config: &Config, key: &str) -> (r: Result<String, ConfigError>)
    ensures
        key@.len() == 0 ==> r == Err::<String, ConfigError>(ConfigError::EmptyKey),
        key@.len() > 0 && config_value(*config, key@) is None ==> r == Err::<String, ConfigError>(
            ConfigError::UnknownKey,
        ),
        key@.len() > 0 && config_value(*config, key@) is Some ==> r is Ok && r->Ok_0@
            == config_value(*config, key@)->Some_0,
{
    let k = chars_of(key);
    if k.len() == 0 {
        return Err(ConfigError::EmptyKey);
    }
    match config.get_value(key) {
        Some(v) => Ok(v),
        None => Err(ConfigError::UnknownKey),
    }
}

/// Whether `s` is a month written `YYYY-MM`, the month from 01 to 12.
pub open spec fn is_year_month(s: Seq<char>) -> bool {
    &&& s.len() == 7
    &&& s[4] == '-'
    &&& forall|i: int| 0 <= i < 7 && i != 4 ==> '0' <= #[trigger] s[i] && s[i] <= '9'
    &&& 1 <= ((s[5] as u32) - 48) * 10 + ((s[6] as u32) - 48) <= 12
}

pub fn is_valid_year_month(s: &str) -> (r: bool)
    ensures
        r == is_year_month(s@),
{
    let c = chars_of(s);
    if c.len() != 7 || c[4] != '-' {
        return false;
    }
    let mut i: usize = 0;
    while i < 7
        invariant
            i <= 7,
            c@ == s@,
            c@.len() == 7,
            forall|k: int| 0 <= k < i && k != 4 ==> '0' <= #[trigger] c@[k] && c@[k] <= '9',
        decreases 7 - i,
    {
        if i != 4 && !('0' <= c[i] && c[i] <= '9') {
            assert(s@[i as int] < '0' || s@[i as int] > '9');
            return false;
        }
        i = i + 1;
    }
    let m = ((c[5] as u32) - 48) * 10 + ((c[6] as u32) - 48);
    1 <= m && m <= 12
}

} // verus!
