//! Command-line options: what each subcommand takes, and the options it
//! runs with once defaults are filled in. Durations are whole seconds.
use vstd::prelude::*;
use vstd::string::*;

verus! {

/// Why a text is not a number of seconds.
#[derive(Clone, Copy, Debug, PartialEq, Eq, Structural)]
pub enum SecondsError {
    /// The text is empty.
    Empty,
    /// A character is not a decimal digit, or there are no digits.
    InvalidDigit,
    /// The number does not fit in 64 bits.
    PosOverflow,
}

pub open spec fn is_digit(c: char) -> bool {
    '0' <= c <= '9'
}

pub open spec fn digit_value(c: char) -> nat {
    (c as u32 - '0' as u32) as nat
}

/// The value of a run of digits read left to right, or the first problem
/// met on the way.
pub open spec fn scan_digits(d: Seq<char>) -> Result<nat, SecondsError>
    decreases d.len(),
{
    if d.len() == 0 {
        Ok(0)
    } else {
        match scan_digits(d.drop_last()) {
            Err(e) => Err(e),
            Ok(v) => if !is_digit(d.last()) {
                Err(SecondsError::InvalidDigit)
            } else if v * 10 + digit_value(d.last()) > u64::MAX {
                Err(SecondsError::PosOverflow)
            } else {
                Ok(v * 10 + digit_value(d.last()))
            },
        }
    }
}

/// A number of seconds written in decimal, with an optional leading `+`.
pub open spec fn seconds_of(s: Seq<char>) -> Result<u64, SecondsError> {
    if s.len() == 0 {
        Err(SecondsError::Empty)
    } else {
        let d = if s[0] == '+' {
            s.drop_first()
        } else {
            s
        };
        if d.len() == 0 {
            Err(SecondsError::InvalidDigit)
        } else {
            match scan_digits(d) {
                Ok(v) => Ok(v as u64),
                Err(e) => Err(e),
            }
        }
    }
}

/// Reads a number of seconds.
pub fn parse_seconds(s: &str) -> (r: Result<u64, SecondsError>)
    ensures
        r == seconds_of(s@),
{
    let n = s.unicode_len();
    if n == 0 {
        return Err(SecondsError::Empty);
    }
    let start: usize = if s.get_char(0) == '+' {
        1
    } else {
        0
    };
    let ghost d = if s@[0] == '+' {
        s@.drop_first()
    } else {
        s@
    };
    assert(d =~= s@.subrange(start as int, n as int));
    if start == n {
        return Err(SecondsError::InvalidDigit);
    }
    let mut acc: u64 = 0;
    let mut i: usize = start;
    while i < n
        invariant
            n == s@.len(),
            start <= i <= n,
            d == s@.subrange(start as int, n as int),
            n > 0,
            d == (if s@[0] == '+' {
                s@.drop_first()
            } else {
                s@
            }),
            scan_digits(s@.subrange(start as int, i as int)) == Ok::<nat, SecondsError>(
                acc as nat,
            ),
        decreases n - i,
    {
        let c = s.get_char(i);
        let ghost pre = s@.subrange(start as int, i as int);
        assert(s@.subrange(start as int, i + 1).drop_last() =~= pre);
        let ghost pre1 = s@.subrange(start as int, i + 1);
        assert(pre1.drop_last() =~= pre);
        assert(pre1.last() == c);
        assert(d.subrange(0, i + 1 - start) =~= pre1);
        if !('0' <= c && c <= '9') {
            assert(scan_digits(pre1) == Err::<nat, SecondsError>(SecondsError::InvalidDigit));
            proof {
                lemma_scan_error_stays(d, (i + 1 - start) as int);
            }
            assert(d.len() > 0 && scan_digits(d) == Err::<nat, SecondsError>(
                SecondsError::InvalidDigit,
            ));
            assert(seconds_of(s@) == Err::<u64, SecondsError>(SecondsError::InvalidDigit));
            return Err(SecondsError::InvalidDigit);
        }
        let v = (c as u32 - '0' as u32) as u64;
        if acc > (u64::MAX - v) / 10 {
            assert(acc * 10 + v > u64::MAX) by (nonlinear_arith)
                requires
                    acc > (u64::MAX - v) / 10,
                    v <= 9,
            ;
            assert(scan_digits(pre1) == Err::<nat, SecondsError>(SecondsError::PosOverflow));
            proof {
                lemma_scan_error_stays(d, (i + 1 - start) as int);
            }
            assert(d.len() > 0 && scan_digits(d) == Err::<nat, SecondsError>(
                SecondsError::PosOverflow,
            ));
            assert(seconds_of(s@) == Err::<u64, SecondsError>(SecondsError::PosOverflow));
            return Err(SecondsError::PosOverflow);
        }
        assert(acc * 10 + v <= u64::MAX) by (nonlinear_arith)
            requires
                acc <= (u64::MAX - v) / 10,
                v <= 9,
        ;
        acc = acc * 10 + v;
        i = i + 1;
    }
    assert(s@.subrange(start as int, n as int) == d);
    Ok(acc)
}

proof fn lemma_scan_error_stays(d: Seq<char>, k: int)
    requires
        0 <= k <= d.len(),
        scan_digits(d.subrange(0, k)) is Err,
    ensures
        scan_digits(d) == scan_digits(d.subrange(0, k)),
    decreases d.len() - k,
{
    if k < d.len() {
        assert(d.subrange(0, k + 1).drop_last() =~= d.subrange(0, k));
        lemma_scan_error_stays(d, k + 1);
    } else {
        assert(d.subrange(0, k) =~= d);
    }
}

/// A subcommand as given on the command line.
pub enum Command {
    /// Read your feeds.
    Read {
        database_path: Option<String>,
        /// Milliseconds between two ticks.
        tick_rate: u64,
        flash_display_duration_seconds: u64,
        network_timeout: u64,
    },
    /// Import feeds from an OPML document.
    Import { database_path: Option<String>, opml_path: String, network_timeout: u64 },
}

pub struct ReadOptions {
    pub database_path: String,
    pub tick_rate: u64,
    pub flash_display_duration_seconds: u64,
    pub network_timeout: u64,
}

pub struct ImportOptions {
    pub database_path: String,
    pub opml_path: String,
    pub network_timeout: u64,
}

pub enum ValidatedOptions {
    Read(ReadOptions),
    Import(ImportOptions),
}

/// The database path a subcommand runs with: the one given, else the
/// default.
pub open spec fn chosen_path(given: Option<String>, default: Seq<char>) -> Seq<char> {
    match given {
        Some(p) => p@,
        None => default,
    }
}

impl Command {
    /// The options this subcommand runs with; the database path is the one
    /// given, else `default_database_path`.
    pub fn validate(&self, default_database_path: &str) -> (r: ValidatedOptions)
        ensures
            match (self, r) {
                (
                    Command::Read {
                        database_path,
                        tick_rate,
                        flash_display_duration_seconds,
                        network_timeout,
                    },
                    ValidatedOptions::Read(o),
                ) => {
                    &&& o.database_path@ == chosen_path(*database_path, default_database_path@)
                    &&& o.tick_rate == *tick_rate
                    &&& o.flash_display_duration_seconds == *flash_display_duration_seconds
                    &&& o.network_timeout == *network_timeout
                },
                (
                    Command::Import { database_path, opml_path, network_timeout },
                    ValidatedOptions::Import(o),
                ) => {
                    &&& o.database_path@ == chosen_path(*database_path, default_database_path@)
                    &&& o.opml_path@ == opml_path@
                    &&& o.network_timeout == *network_timeout
                },
                _ => false,
            },
    {
        match self {
            Command::Read {
                database_path,
                tick_rate,
                flash_display_duration_seconds,
                network_timeout,
            } => {
                let database_path = match database_path {
                    Some(p) => p.clone(),
                    None => String::from_str(default_database_path),
                };
                ValidatedOptions::Read(
                    ReadOptions {
                        database_path,
                        tick_rate: *tick_rate,
                        flash_display_duration_seconds: *flash_display_duration_seconds,
                        network_timeout: *network_timeout,
                    },
                )
            },
            Command::Import { database_path, opml_path, network_timeout } => {
                let database_path = match database_path {
                    Some(p) => p.clone(),
                    None => String::from_str(default_database_path),
                };
                ValidatedOptions::Import(
                    ImportOptions {
                        database_path,
                        opml_path: opml_path.clone(),
                        network_timeout: *network_timeout,
                    },
                )
            },
        }
    }
}

} // verus!
