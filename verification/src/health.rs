//! The health check that tells the shell whether expansion can be relied on.
use vstd::prelude::*;
use crate::error::{all_digits, digits_value, is_digit, numeral_value, parse_usize};
use crate::patterns::opt_view;
use crate::text::{decimal, decimal_text, digit_char, owned, same_text, split_on, split_str, trim, trim_str};

verus! {

/// The value of a decimal numeral as `str::parse::<u32>` reads it.
pub open spec fn parsed_u32(s: Seq<char>) -> Option<u32> {
    match numeral_value(s) {
        Some(v) => if v <= u32::MAX {
            Some(v as u32)
        } else {
            None
        },
        None => None,
    }
}

/// A daemon status that reports a loaded configuration:
/// `healthy:COUNT:synced` or `healthy:COUNT:stale`, with a decimal count,
/// optionally followed by `:degraded-persistence` (use counts are not
/// reaching the disk, but the daemon answers).
pub open spec fn healthy_status(status: Seq<char>) -> bool {
    let parts = split_on(status, ':');
    &&& (parts.len() == 3 || (parts.len() == 4 && parts[3] == "degraded-persistence"@))
    &&& parts[0] == "healthy"@
    &&& parsed_u32(parts[1]) is Some
    &&& (parts[2] == "synced"@ || parts[2] == "stale"@)
}

/// Whether the status line the daemon answered reports it healthy; see
/// [`healthy_status`].
pub fn daemon_status_is_healthy(status: &str) -> (b: bool)
    ensures
        b == healthy_status(status@),
{
    let parts = split_str(status, ':');
    if parts.len() != 3 && !(parts.len() == 4 && same_text(parts[3].as_str(), "degraded-persistence")) {
        return false;
    }
    if !same_text(parts[0].as_str(), "healthy") {
        return false;
    }
    let count_ok = match parse_usize(parts[1].as_str()) {
        Some(v) => v <= 4294967295usize,
        None => false,
    };
    count_ok && (same_text(parts[2].as_str(), "synced") || same_text(parts[2].as_str(), "stale"))
}

/// The `status` field of the JSON object that `line` holds, as
/// `serde_json::from_str::<serde_json::Value>` parses it: `None` when the
/// line is no JSON, has no `status` member, or that member is not a string.
pub uninterp spec fn json_status_field(line: Seq<char>) -> Option<Seq<char>>;

/// Parses `line` with `serde_json::from_str::<serde_json::Value>` and takes
/// the string member `status`. The contract claims only that the result is
/// what [`json_status_field`] names for this line.
#[verifier::external_body]
fn json_status(line: &str) -> (r: Option<String>)
    ensures
        opt_view(r) == json_status_field(line@),
{
    match serde_json::from_str::<serde_json::Value>(line) {
        Ok(v) => match v.get("status") {
            Some(s) => match s.as_str() {
                Some(t) => Some(t.to_string()),
                None => None,
            },
            None => None,
        },
        Err(_) => None,
    }
}

/// Whether the line the daemon answered a health request with reports it
/// healthy: the trimmed line is a JSON object whose `status` is a healthy
/// status (see [`healthy_status`]).
pub fn daemon_reply_is_healthy(line: &str) -> (b: bool)
    ensures
        b == (json_status_field(trim(line@)) matches Some(s) && healthy_status(s)),
{
    let t = trim_str(line);
    match json_status(t.as_str()) {
        Some(status) => daemon_status_is_healthy(status.as_str()),
        None => false,
    }
}

/// What a probe of the daemon found.
#[derive(Debug, Clone, Copy, PartialEq, Eq, Structural)]
pub enum DaemonState {
    /// No socket path, or nothing at it.
    NoSocket,
    /// The daemon answered that it is healthy.
    Healthy,
    /// A socket is there but the daemon did not answer as healthy.
    Dead,
}

/// What loading the configuration afresh gave.
#[derive(Debug, Clone, Copy, PartialEq, Eq, Structural)]
pub enum FreshConfig {
    Invalid,
    Valid { alias_count: usize },
}

/// What the health check looked at: the daemon, whether a configuration
/// path was given, whether one was found, its fingerprint (when readable),
/// the fingerprint the cache records, and a fresh load of it.
pub struct HealthObservations {
    pub daemon: DaemonState,
    pub custom_config: bool,
    pub config_found: bool,
    pub current_hash: Option<String>,
    pub stored_hash: Option<String>,
    pub fresh: FreshConfig,
}

/// The exit code of a fresh configuration load: 2 when invalid, 3 when it
/// defines no alias, 0 otherwise.
pub open spec fn fresh_code(f: FreshConfig) -> i32 {
    match f {
        FreshConfig::Invalid => 2,
        FreshConfig::Valid { alias_count } => if alias_count == 0 {
            3
        } else {
            0
        },
    }
}

/// The health check's exit code: 0 for a healthy daemon, 4 for a stale
/// socket; otherwise 1 when the configuration cannot be found or read, 0
/// when the default configuration's fingerprint matches the cache's, and
/// else what a fresh load gives (see [`fresh_code`]).
pub open spec fn health_code(o: HealthObservations) -> i32 {
    match o.daemon {
        DaemonState::Healthy => 0,
        DaemonState::Dead => 4,
        DaemonState::NoSocket => {
            if !o.custom_config && !o.config_found {
                1
            } else {
                match o.current_hash {
                    None => 1,
                    Some(h) => {
                        if !o.custom_config && (o.stored_hash matches Some(s) && s@ == h@) {
                            0
                        } else {
                            fresh_code(o.fresh)
                        }
                    },
                }
            }
        },
    }
}

/// The exit code of a fresh configuration load; see [`fresh_code`].
pub fn fresh_config_code(f: FreshConfig) -> (r: i32)
    ensures
        r == fresh_code(f),
{
    match f {
        FreshConfig::Invalid => 2,
        FreshConfig::Valid { alias_count } => if alias_count == 0 {
            3
        } else {
            0
        },
    }
}

/// The health check's exit code from what it observed; see
/// [`health_code`].
pub fn execute_health_check(o: &HealthObservations) -> (r: i32)
    ensures
        r == health_code(*o),
{
    match o.daemon {
        DaemonState::Healthy => 0,
        DaemonState::Dead => 4,
        DaemonState::NoSocket => {
            if !o.custom_config && !o.config_found {
                return 1;
            }
            match &o.current_hash {
                None => 1,
                Some(h) => {
                    if !o.custom_config {
                        match &o.stored_hash {
                            Some(s) => {
                                if same_text(s.as_str(), h.as_str()) {
                                    return 0;
                                }
                            },
                            None => {},
                        }
                    }
                    fresh_config_code(o.fresh)
                },
            }
        },
    }
}

/// The status line a daemon answers to a health request: its alias count,
/// whether its configuration matches the file on disk (`synced`) or not
/// (`stale`), and a `degraded-persistence` mark once use counts keep failing
/// to reach the disk.
pub open spec fn status_text(count: nat, synced: bool, degraded: bool) -> Seq<char> {
    "healthy:"@ + decimal(count) + ":"@ + (if synced {
        "synced"@
    } else {
        "stale"@
    }) + (if degraded {
        ":degraded-persistence"@
    } else {
        Seq::<char>::empty()
    })
}

/// The number of failed writes of use counts in a row from which the daemon
/// reports its persistence degraded.
pub const FLUSH_DEGRADED_THRESHOLD: u32 = 5;

/// Whether `failures` failed writes in a row make the persistence degraded.
pub fn persistence_degraded(failures: u32) -> (b: bool)
    ensures
        b == (failures >= FLUSH_DEGRADED_THRESHOLD),
{
    failures >= FLUSH_DEGRADED_THRESHOLD
}

/// The status line for a daemon with `count` aliases; see [`status_text`].
pub fn health_status_text(count: usize, synced: bool, degraded: bool) -> (r: String)
    ensures
        r@ == status_text(count as nat, synced, degraded),
{
    let mut r = owned("healthy:");
    r.append(decimal_text(count as u64).as_str());
    r.append(":");
    if synced {
        r.append("synced");
    } else {
        r.append("stale");
    }
    if degraded {
        r.append(":degraded-persistence");
    }
    r
}

proof fn lemma_digit_char(d: nat)
    requires
        d < 10,
    ensures
        is_digit(digit_char(d)),
        (digit_char(d) as int) - ('0' as int) == d,
{
}

/// The decimal form of `n` is a nonempty run of digits whose value is `n`.
proof fn lemma_decimal_digits(n: nat)
    ensures
        decimal(n).len() > 0,
        all_digits(decimal(n)),
        digits_value(decimal(n)) == n,
    decreases n,
{
    if n < 10 {
        lemma_digit_char(n);
        let d = decimal(n);
        assert(d.drop_last() =~= Seq::<char>::empty());
        assert(digits_value(Seq::<char>::empty()) == 0);
        assert(digits_value(d) == digits_value(d.drop_last()) * 10 + ((d.last() as int) - ('0' as int)) as nat);
    } else {
        lemma_decimal_digits(n / 10);
        lemma_digit_char(n % 10);
        let d = decimal(n);
        assert(d.drop_last() =~= decimal(n / 10));
        assert(d.last() == digit_char(n % 10));
        assert forall|i: int| 0 <= i < d.len() implies is_digit(#[trigger] d[i]) by {
            if i < d.len() - 1 {
                assert(d[i] == decimal(n / 10)[i]);
            }
        }
        assert(n == (n / 10) * 10 + n % 10) by (nonlinear_arith);
        assert(digits_value(d) == digits_value(d.drop_last()) * 10 + ((d.last() as int) - ('0' as int)) as nat);
    }
}

/// A text free of `c` is one part when split at `c`.
proof fn lemma_split_plain(s: Seq<char>, c: char)
    requires
        !s.contains(c),
    ensures
        split_on(s, c) == seq![s],
    decreases s.len(),
{
    if s.len() > 0 {
        assert(!s.skip(1).contains(c)) by {
            if s.skip(1).contains(c) {
                let k = choose|k: int| 0 <= k < s.skip(1).len() && s.skip(1)[k] == c;
                assert(s[k + 1] == c);
            }
        }
        lemma_split_plain(s.skip(1), c);
        assert(s[0] != c) by {
            assert(s[0] == s[0]);
        }
        assert(seq![s[0]] + s.skip(1) =~= s);
        assert(seq![s.skip(1)].update(0, seq![s[0]] + s.skip(1)) =~= seq![s]);
    } else {
        assert(s =~= Seq::<char>::empty());
    }
}

/// Splitting `a`, which holds no `c`, then `c`, then `b`, at `c` gives `a`
/// followed by the parts of `b`.
proof fn lemma_split_after(a: Seq<char>, b: Seq<char>, c: char)
    requires
        !a.contains(c),
    ensures
        split_on(a + seq![c] + b, c) == seq![a] + split_on(b, c),
    decreases a.len(),
{
    let s = a + seq![c] + b;
    if a.len() == 0 {
        assert(s[0] == c);
        assert(s.skip(1) =~= b);
        assert(a =~= Seq::<char>::empty());
        assert(seq![a] =~= seq![Seq::<char>::empty()]);
    } else {
        assert(!a.skip(1).contains(c)) by {
            if a.skip(1).contains(c) {
                let k = choose|k: int| 0 <= k < a.skip(1).len() && a.skip(1)[k] == c;
                assert(a[k + 1] == c);
            }
        }
        assert(a[0] != c) by {
            assert(a[0] == a[0]);
        }
        lemma_split_after(a.skip(1), b, c);
        assert(s.skip(1) =~= a.skip(1) + seq![c] + b);
        assert(s[0] == a[0]);
        assert(seq![a[0]] + a.skip(1) =~= a);
        assert((seq![a.skip(1)] + split_on(b, c)).update(0, seq![a[0]] + a.skip(1)) =~= seq![a] + split_on(b, c));
    }
}

/// What a daemon answers a health request is accepted by the client as a
/// healthy daemon exactly when the count reads as a `u32`, with or without
/// the `degraded-persistence` mark.
pub proof fn law_daemon_status_accepted(count: nat, synced: bool, degraded: bool)
    ensures
        healthy_status(status_text(count, synced, degraded)) <==> count <= u32::MAX,
{
    let dec = decimal(count);
    lemma_decimal_digits(count);
    let tail = if synced {
        "synced"@
    } else {
        "stale"@
    };
    let mark = if degraded {
        ":degraded-persistence"@
    } else {
        Seq::<char>::empty()
    };
    assert(!dec.contains(':')) by {
        if dec.contains(':') {
            let k = choose|k: int| 0 <= k < dec.len() && dec[k] == ':';
            assert(is_digit(dec[k]));
        }
    }
    assert(!"healthy"@.contains(':')) by {
        reveal_strlit("healthy");
        if "healthy"@.contains(':') {
            let k = choose|k: int| 0 <= k < "healthy"@.len() && "healthy"@[k] == ':';
        }
    }
    assert(!tail.contains(':')) by {
        reveal_strlit("synced");
        reveal_strlit("stale");
        if tail.contains(':') {
            let k = choose|k: int| 0 <= k < tail.len() && tail[k] == ':';
        }
    }
    reveal_strlit("healthy:");
    reveal_strlit("healthy");
    reveal_strlit(":");
    assert("healthy:"@ =~= "healthy"@ + seq![':']);
    assert(":"@ =~= seq![':']);
    reveal_strlit(":degraded-persistence");
    reveal_strlit("degraded-persistence");
    let s = status_text(count, synced, degraded);
    assert(s =~= "healthy"@ + seq![':'] + (dec + seq![':'] + (tail + mark)));
    assert(dec + seq![':'] + (tail + mark) =~= dec + seq![':'] + (tail + mark));
    lemma_split_after("healthy"@, dec + seq![':'] + (tail + mark), ':');
    lemma_split_after(dec, tail + mark, ':');
    if degraded {
        let dp = "degraded-persistence"@;
        assert(!dp.contains(':')) by {
            if dp.contains(':') {
                let k = choose|k: int| 0 <= k < dp.len() && dp[k] == ':';
            }
        }
        assert(tail + mark =~= tail + seq![':'] + dp);
        lemma_split_after(tail, dp, ':');
        lemma_split_plain(dp, ':');
        let parts = split_on(s, ':');
        assert(parts =~= seq!["healthy"@, dec, tail, dp]);
        assert(numeral_value(dec) == Some(count)) by {
            assert(dec[0] != '+') by {
                assert(is_digit(dec[0]));
            }
        }
    } else {
        assert(tail + mark =~= tail);
        lemma_split_plain(tail, ':');
        let parts = split_on(s, ':');
        assert(parts =~= seq!["healthy"@, dec, tail]);
        assert(numeral_value(dec) == Some(count)) by {
            assert(dec[0] != '+') by {
                assert(is_digit(dec[0]));
            }
        }
    }
}

} // verus!
