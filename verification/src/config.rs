//! The configuration snapshot the daemon runs with, and its validity rules.
//! Reading and writing the configuration file is I/O done by the binary; it
//! hands the daemon a `Config` value that passed `validate`.

use vstd::prelude::*;

verus! {

/// Why a configuration could not be obtained. The binary maps file and
/// parser failures into the first three; `validate` yields the last.
#[derive(Clone, Debug, PartialEq, Eq)]
pub enum ConfigError {
    /// No per-user configuration directory could be determined.
    NoConfigDir,
    /// The configuration file could not be read.
    ReadError(String),
    /// The configuration file could not be parsed.
    ParseError(String),
    /// The configuration held an invalid value.
    ValidationError(String),
}

/// ASCII case folding for one character.
pub open spec fn lower_char(c: char) -> char {
    if 'A' <= c && c <= 'Z' {
        ((c as u8) + 32) as char
    } else {
        c
    }
}

/// ASCII case folding for a string.
pub open spec fn lower_seq(s: Seq<char>) -> Seq<char> {
    s.map(|i: int, c: char| lower_char(c))
}

/// The accepted log levels, compared without regard to ASCII case.
pub open spec fn is_valid_log_level(s: Seq<char>) -> bool {
    ||| lower_seq(s) == "error"@
    ||| lower_seq(s) == "warn"@
    ||| lower_seq(s) == "info"@
    ||| lower_seq(s) == "debug"@
    ||| lower_seq(s) == "trace"@
}

fn lower_char_exec(c: char) -> (r: char)
    ensures
        r == lower_char(c),
{
    if 'A' <= c && c <= 'Z' {
        ((c as u8) + 32) as char
    } else {
        c
    }
}

/// Whether `s` names the same log level as `lit`, without regard to ASCII
/// case.
fn matches_level(s: &str, lit: &str) -> (r: bool)
    ensures
        r == (lower_seq(s@) == lower_seq(lit@)),
{
    let n = s.unicode_len();
    let m = lit.unicode_len();
    if n != m {
        proof {
            assert(lower_seq(s@).len() != lower_seq(lit@).len());
        }
        return false;
    }
    let mut k: usize = 0;
    while k < n
        invariant
            k <= n,
            n == s@.len(),
            n == lit@.len(),
            forall|k2: int| 0 <= k2 < k ==> lower_seq(s@)[k2] == lower_seq(lit@)[k2],
        decreases n - k,
    {
        let a = lower_char_exec(s.get_char(k));
        let b = lower_char_exec(lit.get_char(k));
        if a != b {
            proof {
                assert(lower_seq(s@)[k as int] != lower_seq(lit@)[k as int]);
            }
            return false;
        }
        k = k + 1;
    }
    proof {
        assert(lower_seq(s@) =~= lower_seq(lit@));
    }
    true
}

/// The largest interval, in minutes, whose length in seconds still fits the
/// arithmetic the scheduler does on it.
pub const MAX_INTERVAL_MINUTES: u64 = u64::MAX / 60;

/// A typed configuration snapshot.
#[derive(Clone, Debug, PartialEq, Eq)]
pub struct Config {
    /// Interval between bells in minutes.
    pub interval: u64,
    /// Volume level (0-100).
    pub volume: u8,
    /// Log level: error, warn, info, debug, trace.
    pub log_level: String,
}

impl Config {
    /// What the daemon's arithmetic relies on: a positive interval whose
    /// second count fits a u64, and a volume on the 0-100 scale.
    pub open spec fn daemon_ok(self) -> bool {
        1 <= self.interval && self.interval <= MAX_INTERVAL_MINUTES && self.volume <= 100
    }

    /// What `validate` accepts: a positive interval, a volume on the 0-100
    /// scale, and a known log level.
    pub open spec fn valid(self) -> bool {
        self.interval >= 1 && self.volume <= 100 && is_valid_log_level(self.log_level@)
    }

    /// Check the snapshot, naming the first rule it breaks: a zero interval,
    /// then a volume above 100, then an unknown log level.
    pub fn validate(&self) -> (r: Result<(), ConfigError>)
        ensures
            r is Ok <==> self.valid(),
            self.interval == 0 ==> (r matches Result::Err(e) && e matches
                ConfigError::ValidationError(m) && m@ == "interval must be greater than 0"@),
            self.interval >= 1 && self.volume > 100 ==> (r matches Result::Err(e) && e matches
                ConfigError::ValidationError(m) && m@ == "volume must be between 0 and 100"@),
            self.interval >= 1 && self.volume <= 100 && !is_valid_log_level(self.log_level@)
                ==> (r matches Result::Err(e) && e matches ConfigError::ValidationError(m) && m@
                == "log_level must be one of: error, warn, info, debug, trace"@),
    {
        if self.interval == 0 {
            return Err(
                ConfigError::ValidationError(
                    String::from_str("interval must be greater than 0"),
                ),
            );
        }
        if self.volume > 100 {
            return Err(
                ConfigError::ValidationError(
                    String::from_str("volume must be between 0 and 100"),
                ),
            );
        }
        let lv = self.log_level.as_str();
        let known = matches_level(lv, "error") || matches_level(lv, "warn") || matches_level(
            lv,
            "info",
        ) || matches_level(lv, "debug") || matches_level(lv, "trace");
        if known {
            proof {
                lemma_level_literals_folded();
            }
            Ok(())
        } else {
            proof {
                lemma_level_literals_folded();
            }
            Err(
                ConfigError::ValidationError(
                    String::from_str("log_level must be one of: error, warn, info, debug, trace"),
                ),
            )
        }
    }

    /// The text written to a fresh configuration file.
    pub fn default_config_contents() -> (r: String)
        ensures
            r@ == default_config_text(),
    {
        String::from_str(
            "# Interval between bells in minutes\ninterval = 10\n\n# Volume level (0-100)\nvolume = 70\n\n# Log level: error, warn, info, debug, trace\nlog_level = \"info\"\n",
        )
    }
}

/// The text of a fresh configuration file: the defaults, each explained.
pub open spec fn default_config_text() -> Seq<char> {
    "# Interval between bells in minutes\ninterval = 10\n\n# Volume level (0-100)\nvolume = 70\n\n# Log level: error, warn, info, debug, trace\nlog_level = \"info\"\n"@
}

/// The five level names are already lower case, so folding them changes
/// nothing.
proof fn lemma_level_literals_folded()
    ensures
        lower_seq(("error")@) == ("error")@,
        lower_seq(("warn")@) == ("warn")@,
        lower_seq(("info")@) == ("info")@,
        lower_seq(("debug")@) == ("debug")@,
        lower_seq(("trace")@) == ("trace")@,
{
    reveal_strlit("error");
    reveal_strlit("warn");
    reveal_strlit("info");
    reveal_strlit("debug");
    reveal_strlit("trace");
    assert(lower_seq(("error")@) =~= ("error")@);
    assert(lower_seq(("warn")@) =~= ("warn")@);
    assert(lower_seq(("info")@) =~= ("info")@);
    assert(lower_seq(("debug")@) =~= ("debug")@);
    assert(lower_seq(("trace")@) =~= ("trace")@);
}

impl Default for Config {
    fn default() -> (c: Config)
        ensures
            c.interval == 10,
            c.volume == 70,
            c.log_level@ == "info"@,
    {
        Config { interval: 10, volume: 70, log_level: String::from_str("info") }
    }
}

} // verus!
