//! The settings that the pipeline runs with, and how they are read from the
//! texts that the process was configured with.

use crate::numeral::parse_i64;
use crate::text::chars_of;
use vstd::prelude::*;

verus! {

/// Whether a character is white space: what `char::is_whitespace` returns.
pub uninterp spec fn is_white_space(c: char) -> bool;

/// `char::is_whitespace` tells whether a character has the Unicode property
/// White_Space, which depends on the character alone: the result is the
/// named value [`is_white_space`] of the argument.
pub assume_specification[ char::is_whitespace ](c: char) -> (r: bool)
    ensures
        r == is_white_space(c),
;

/// The settings of one run.
#[derive(Clone, Debug)]
pub struct Config {
    pub base_url: String,
    pub kline_endpoint: String,
    pub start_time: i64,
    pub pairs: Vec<String>,
    pub timeframes: Vec<String>,
    pub db_host: String,
    pub db_port: String,
    pub db_username: String,
}

/// The texts that the settings are read from, one per setting; `None` for a
/// setting that was not given.
#[derive(Clone, Debug)]
pub struct ConfigSource {
    pub base_url: Option<String>,
    pub kline_endpoint: Option<String>,
    pub start_time: Option<String>,
    pub pairs: Option<String>,
    pub timeframes: Option<String>,
    pub db_host: Option<String>,
    pub db_port: Option<String>,
    pub db_username: Option<String>,
}

/// Why the settings are not complete.
#[derive(Clone, Copy, Debug, PartialEq, Eq, Structural)]
pub enum ConfigError {
    MissingBaseUrl,
    MissingKlineEndpoint,
    MissingStartTime,
    InvalidStartTime,
    MissingPairs,
    MissingTimeframes,
    MissingDbHost,
    MissingDbPort,
    MissingDbUsername,
}

impl ConfigError {
    /// The words that describe the error.
    pub open spec fn text(self) -> Seq<char> {
        match self {
            ConfigError::MissingBaseUrl => "BASE_URL must be set"@,
            ConfigError::MissingKlineEndpoint => "KLINE_ENDPOINT must be set"@,
            ConfigError::MissingStartTime => "START_TIME must be set"@,
            ConfigError::InvalidStartTime => "START_TIME must be a valid i64"@,
            ConfigError::MissingPairs => "PAIRS must be set"@,
            ConfigError::MissingTimeframes => "TIMEFRAMES must be set"@,
            ConfigError::MissingDbHost => "DB_HOST must be set"@,
            ConfigError::MissingDbPort => "DB_PORT must be set"@,
            ConfigError::MissingDbUsername => "DB_USERNAME must be set"@,
        }
    }

    /// Describes the error in words.
    pub fn message(&self) -> (r: &'static str)
        ensures
            r@ == self.text(),
    {
        match self {
            ConfigError::MissingBaseUrl => "BASE_URL must be set",
            ConfigError::MissingKlineEndpoint => "KLINE_ENDPOINT must be set",
            ConfigError::MissingStartTime => "START_TIME must be set",
            ConfigError::InvalidStartTime => "START_TIME must be a valid i64",
            ConfigError::MissingPairs => "PAIRS must be set",
            ConfigError::MissingTimeframes => "TIMEFRAMES must be set",
            ConfigError::MissingDbHost => "DB_HOST must be set",
            ConfigError::MissingDbPort => "DB_PORT must be set",
            ConfigError::MissingDbUsername => "DB_USERNAME must be set",
        }
    }
}

/// `at` is where the first piece of `s` ends: at the first comma, or at the
/// end of a text without commas.
pub open spec fn is_piece_end(s: Seq<char>, at: int) -> bool {
    &&& 0 <= at <= s.len()
    &&& forall|k: int| 0 <= k < at ==> #[trigger] s[k] != ','
    &&& (at == s.len() || s[at] == ',')
}

/// Where the first piece of a text ends.
pub open spec fn piece_end(s: Seq<char>) -> int {
    choose|at: int| is_piece_end(s, at)
}

/// The pieces between the commas of a text, in order. A text of `n` commas
/// has `n + 1` pieces, empty ones included.
pub open spec fn split_commas(s: Seq<char>) -> Seq<Seq<char>>
    decreases s.len(),
{
    let at = piece_end(s);
    if at < 0 || at >= s.len() {
        seq![s]
    } else {
        seq![s.take(at)] + split_commas(s.skip(at + 1))
    }
}

/// `from` is where the text begins once leading white space is left out.
pub open spec fn is_trim_start(s: Seq<char>, from: int) -> bool {
    &&& 0 <= from <= s.len()
    &&& forall|k: int| 0 <= k < from ==> is_white_space(#[trigger] s[k])
    &&& (from == s.len() || !is_white_space(s[from]))
}

/// `to` is where the text from `from` on ends once trailing white space is
/// left out.
pub open spec fn is_trim_end(s: Seq<char>, from: int, to: int) -> bool {
    &&& from <= to <= s.len()
    &&& forall|k: int| to <= k < s.len() ==> is_white_space(#[trigger] s[k])
    &&& (to == from || !is_white_space(s[to - 1]))
}

/// A text without its leading and trailing white space.
pub open spec fn trimmed(s: Seq<char>) -> Seq<char> {
    let from = choose|from: int| is_trim_start(s, from);
    let to = choose|to: int| is_trim_end(s, from, to);
    s.subrange(from, to)
}

/// The entries of a comma-separated list, each without the white space
/// around it.
pub open spec fn list_entries(s: Seq<char>) -> Seq<Seq<char>> {
    split_commas(s).map_values(|piece: Seq<char>| trimmed(piece))
}

/// A list of strings as plain text.
pub open spec fn texts(v: Seq<String>) -> Seq<Seq<char>> {
    Seq::new(v.len(), |i: int| v[i]@)
}

proof fn lemma_piece_end_unique(s: Seq<char>, at: int)
    requires
        is_piece_end(s, at),
    ensures
        piece_end(s) == at,
{
    let e = piece_end(s);
    assert(is_piece_end(s, e));
    if e < at {
        assert(s[e] != ',');
    } else if at < e {
        assert(s[at] != ',');
    }
}

proof fn lemma_trimmed(s: Seq<char>, from: int, to: int)
    requires
        is_trim_start(s, from),
        is_trim_end(s, from, to),
    ensures
        trimmed(s) == s.subrange(from, to),
{
    let f = choose|f: int| is_trim_start(s, f);
    assert(is_trim_start(s, f));
    if f < from {
        assert(is_white_space(s[f]));
    } else if from < f {
        assert(is_white_space(s[from]));
    }
    let t = choose|t: int| is_trim_end(s, from, t);
    assert(is_trim_end(s, from, t));
    if t < to {
        assert(is_white_space(s[to - 1]));
    } else if to < t {
        assert(is_white_space(s[t - 1]));
    }
}

/// Copies `chars[from..to]` without the white space around it.
fn trim_range(chars: &Vec<char>, from: usize, to: usize) -> (r: String)
    requires
        from <= to <= chars.len(),
    ensures
        r@ == trimmed(chars@.subrange(from as int, to as int)),
{
    let ghost piece = chars@.subrange(from as int, to as int);
    let mut a: usize = from;
    while a < to && chars[a].is_whitespace()
        invariant
            from <= a <= to <= chars.len(),
            forall|k: int| from <= k < a ==> is_white_space(#[trigger] chars@[k]),
        decreases to - a,
    {
        a += 1;
    }
    let mut b: usize = to;
    while b > a && chars[b - 1].is_whitespace()
        invariant
            a <= b <= to <= chars.len(),
            forall|k: int| b <= k < to ==> is_white_space(#[trigger] chars@[k]),
        decreases b,
    {
        b -= 1;
    }
    let mut out = String::new();
    let mut i: usize = a;
    while i < b
        invariant
            a <= i <= b <= chars.len(),
            out@ == chars@.subrange(a as int, i as int),
        decreases b - i,
    {
        out.push(chars[i]);
        assert(chars@.subrange(a as int, i + 1) =~= chars@.subrange(a as int, i as int).push(
            chars@[i as int],
        ));
        i += 1;
    }
    proof {
        assert forall|k: int| 0 <= k < a - from implies is_white_space(#[trigger] piece[k]) by {
            assert(piece[k] == chars@[from + k]);
        }
        assert forall|k: int| b - from <= k < piece.len() implies is_white_space(
            #[trigger] piece[k],
        ) by {
            assert(piece[k] == chars@[from + k]);
        }
        assert(is_trim_start(piece, a - from));
        assert(is_trim_end(piece, a - from, b - from));
        lemma_trimmed(piece, a - from, b - from);
        assert(piece.subrange(a - from, b - from) =~= chars@.subrange(a as int, b as int));
    }
    out
}

/// Splits a comma-separated list into its entries, each trimmed.
pub fn split_list(text: &str) -> (r: Vec<String>)
    ensures
        texts(r@) == list_entries(text@),
{
    let chars = chars_of(text);
    let n = chars.len();
    let mut out: Vec<String> = Vec::new();
    let mut from: usize = 0;
    let mut at: usize = 0;
    proof {
        assert(chars@.skip(0) =~= chars@);
        assert(texts(out@) =~= Seq::<Seq<char>>::empty());
        assert(Seq::<Seq<char>>::empty() + list_entries(chars@) =~= list_entries(chars@));
    }
    while at < n
        invariant
            from <= at <= n == chars.len(),
            forall|k: int| from <= k < at ==> #[trigger] chars@[k] != ',',
            list_entries(chars@) == texts(out@) + list_entries(chars@.skip(from as int)),
        decreases n - at,
    {
        if chars[at] == ',' {
            let entry = trim_range(&chars, from, at);
            let ghost rest = chars@.skip(from as int);
            let ghost before = texts(out@);
            proof {
                assert forall|k: int| 0 <= k < at - from implies #[trigger] rest[k] != ',' by {
                    assert(rest[k] == chars@[from + k]);
                }
                assert(is_piece_end(rest, at - from));
                lemma_piece_end_unique(rest, at - from);
                assert(rest.take(at - from) =~= chars@.subrange(from as int, at as int));
                assert(rest.skip(at - from + 1) =~= chars@.skip(at + 1));
                assert(list_entries(rest) =~= seq![trimmed(rest.take(at - from))] + list_entries(
                    chars@.skip(at + 1),
                ));
            }
            out.push(entry);
            proof {
                assert(texts(out@) =~= before.push(entry@));
                assert(before + (seq![entry@] + list_entries(chars@.skip(at + 1))) =~= texts(out@)
                    + list_entries(chars@.skip(at + 1)));
            }
            from = at + 1;
        }
        at += 1;
    }
    let entry = trim_range(&chars, from, n);
    let ghost rest = chars@.skip(from as int);
    let ghost before = texts(out@);
    proof {
        assert forall|k: int| 0 <= k < n - from implies #[trigger] rest[k] != ',' by {
            assert(rest[k] == chars@[from + k]);
        }
        assert(is_piece_end(rest, n - from));
        lemma_piece_end_unique(rest, n - from);
        assert(rest =~= chars@.subrange(from as int, n as int));
        assert(list_entries(rest) =~= seq![trimmed(rest)]);
    }
    out.push(entry);
    proof {
        assert(texts(out@) =~= before + seq![entry@]);
    }
    out
}

impl Config {
    /// What reading the settings from their texts gives: the first setting
    /// that is missing or invalid, in the order in which the settings are
    /// declared, fails the whole.
    pub open spec fn first_error(source: ConfigSource) -> Option<ConfigError> {
        if source.base_url is None {
            Some(ConfigError::MissingBaseUrl)
        } else if source.kline_endpoint is None {
            Some(ConfigError::MissingKlineEndpoint)
        } else if source.start_time is None {
            Some(ConfigError::MissingStartTime)
        } else if crate::numeral::i64_outcome(source.start_time->0@) is Err {
            Some(ConfigError::InvalidStartTime)
        } else if source.pairs is None {
            Some(ConfigError::MissingPairs)
        } else if source.timeframes is None {
            Some(ConfigError::MissingTimeframes)
        } else if source.db_host is None {
            Some(ConfigError::MissingDbHost)
        } else if source.db_port is None {
            Some(ConfigError::MissingDbPort)
        } else if source.db_username is None {
            Some(ConfigError::MissingDbUsername)
        } else {
            None
        }
    }

    /// Reads the settings from their texts. The start time is a signed
    /// 64-bit integer of Unix milliseconds; pairs and timeframes are
    /// comma-separated lists.
    pub fn from_source(source: ConfigSource) -> (r: Result<Config, ConfigError>)
        ensures
            match Config::first_error(source) {
                Some(e) => r == Err::<Config, ConfigError>(e),
                None => {
                    &&& r matches Ok(config)
                    &&& config.base_url@ == source.base_url->0@
                    &&& config.kline_endpoint@ == source.kline_endpoint->0@
                    &&& Ok::<i64, crate::numeral::NumeralError>(config.start_time)
                        == crate::numeral::i64_outcome(source.start_time->0@)
                    &&& texts(config.pairs@) == list_entries(source.pairs->0@)
                    &&& texts(config.timeframes@) == list_entries(source.timeframes->0@)
                    &&& config.db_host@ == source.db_host->0@
                    &&& config.db_port@ == source.db_port->0@
                    &&& config.db_username@ == source.db_username->0@
                },
            },
    {
        let base_url = match source.base_url {
            Some(v) => v,
            None => {
                return Err(ConfigError::MissingBaseUrl);
            },
        };
        let kline_endpoint = match source.kline_endpoint {
            Some(v) => v,
            None => {
                return Err(ConfigError::MissingKlineEndpoint);
            },
        };
        let start_text = match source.start_time {
            Some(v) => v,
            None => {
                return Err(ConfigError::MissingStartTime);
            },
        };
        let start_chars = chars_of(start_text.as_str());
        let start_time: i64 = match parse_i64(&start_chars) {
            Ok(v) => v,
            Err(_) => {
                return Err(ConfigError::InvalidStartTime);
            },
        };
        let pairs = match source.pairs {
            Some(v) => split_list(v.as_str()),
            None => {
                return Err(ConfigError::MissingPairs);
            },
        };
        let timeframes = match source.timeframes {
            Some(v) => split_list(v.as_str()),
            None => {
                return Err(ConfigError::MissingTimeframes);
            },
        };
        let db_host = match source.db_host {
            Some(v) => v,
            None => {
                return Err(ConfigError::MissingDbHost);
            },
        };
        let db_port = match source.db_port {
            Some(v) => v,
            None => {
                return Err(ConfigError::MissingDbPort);
            },
        };
        let db_username = match source.db_username {
            Some(v) => v,
            None => {
                return Err(ConfigError::MissingDbUsername);
            },
        };
        Ok(
            Config {
                base_url,
                kline_endpoint,
                start_time,
                pairs,
                timeframes,
                db_host,
                db_port,
                db_username,
            },
        )
    }
}

} // verus!
