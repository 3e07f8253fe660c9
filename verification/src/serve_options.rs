//! Options of the serving process that need more than a range check.
use crate::text;
use crate::text::{append_count, quoted, same_text, split, trim};
use vstd::prelude::*;

verus! {

/// When the host snapshot cache copies a retained snapshot.
#[derive(Debug, Clone, Copy, PartialEq, Eq, Structural)]
pub enum HostCacheStore {
    OnRetain,
    OnEvict,
}

/// Which retention banks the host cache serves.
#[derive(Debug, Clone, Copy, PartialEq, Eq, Structural)]
pub struct HostCacheKinds {
    pub prompt: bool,
    pub turn: bool,
}

/// The configuration of the host snapshot cache.
#[derive(Debug, Clone, Copy, PartialEq, Eq, Structural)]
pub struct HostCacheConfig {
    pub bytes: u64,
    pub chunk_bytes: u64,
    pub store: HostCacheStore,
    pub copy_budget_ns: u64,
    pub restore_budget_ns: u64,
    pub store_pace_ns: u64,
    pub min_tokens: u32,
    pub max_tokens: u32,
    pub kinds: HostCacheKinds,
}

/// How much snapshot memory may be pinned.
#[derive(Debug, Clone, Copy, PartialEq, Eq, Structural)]
pub enum HostBudget {
    /// Chosen while serving, from what the machine has.
    Auto,
    Bytes(u64),
}

impl HostBudget {
    /// The bytes that are asked for; `unset` where that is left open.
    pub fn explicit_bytes(&self, unset: u64) -> (r: u64)
        ensures
            r == self.bytes_or(unset),
    {
        match *self {
            HostBudget::Auto => unset,
            HostBudget::Bytes(bytes) => bytes,
        }
    }

    pub open spec fn bytes_or(&self, unset: u64) -> u64 {
        match *self {
            HostBudget::Auto => unset,
            HostBudget::Bytes(bytes) => bytes,
        }
    }
}

/// The serving options that the configuration comes from.
pub struct NativeServeArgs {
    pub dspark: bool,
    pub dspark_fixed: bool,
    pub host_cache_bytes: HostBudget,
    pub host_cache_chunk_bytes: u64,
    pub host_cache_store: HostCacheStore,
    pub host_cache_copy_budget_ms: u64,
    pub host_cache_restore_budget_ms: u64,
    pub host_cache_store_pace_ms: u64,
    pub host_cache_min_tokens: u32,
    pub host_cache_max_tokens: u32,
    pub host_cache_kinds: String,
}

/// The value of the first `n` characters as decimal digits.
pub open spec fn digits_value(s: Seq<char>, n: int) -> Option<int>
    decreases n,
{
    if n <= 0 {
        Some(0)
    } else {
        match digits_value(s, n - 1) {
            None => None,
            Some(v) => if '0' <= s[n - 1] && s[n - 1] <= '9' {
                Some(v * 10 + (s[n - 1] as int - '0' as int))
            } else {
                None
            },
        }
    }
}

/// The text as a number of at most `limit`: digits, after an optional plus sign.
pub open spec fn number(s: Seq<char>, limit: int) -> Option<int> {
    let body = if s.len() > 0 && s[0] == '+' {
        s.skip(1)
    } else {
        s
    };
    if body.len() == 0 {
        None
    } else {
        match digits_value(body, body.len() as int) {
            Some(v) => if v <= limit {
                Some(v)
            } else {
                None
            },
            None => None,
        }
    }
}

/// No number of at most `limit` begins with the first `n` characters.
spec fn hopeless(s: Seq<char>, limit: int, n: int) -> bool {
    match digits_value(s, n) {
        None => true,
        Some(v) => v > limit,
    }
}

proof fn lemma_hopeless_stays(s: Seq<char>, limit: int, n: int, m: int)
    requires
        0 <= n <= m,
        0 <= limit,
        hopeless(s, limit, n),
    ensures
        hopeless(s, limit, m),
    decreases m - n,
{
    if n < m {
        lemma_hopeless_stays(s, limit, n, m - 1);
    }
}

fn parse_number(s: &str, limit: u64) -> (r: Option<u64>)
    ensures
        match r {
            Some(v) => number(s@, limit as int) == Some(v as int),
            None => number(s@, limit as int) is None,
        },
{
    let n: usize = s.unicode_len();
    let start: usize = if n > 0 && s.get_char(0) == '+' {
        1
    } else {
        0
    };
    let ghost body = s@.skip(start as int);
    assert(s@.skip(0) =~= s@);
    if start == n {
        return None;
    }
    let most: u128 = limit as u128;
    let mut value: u128 = 0;
    let mut i: usize = start;
    while i < n
        invariant
            start <= i <= n == s@.len(),
            start < n,
            body == s@.skip(start as int),
            start == if s@[0] == '+' {
                1int
            } else {
                0
            },
            s@.skip(0) == s@,
            digits_value(body, i - start) == Some(value as int),
            value <= most,
            most == limit,
        decreases n - i,
    {
        let c: char = s.get_char(i);
        assert(c == body[i - start]);
        if !('0' <= c && c <= '9') {
            proof {
                lemma_hopeless_stays(body, limit as int, i - start + 1, body.len() as int);
            }
            return None;
        }
        let digit: u128 = (c as u32 - '0' as u32) as u128;
        value = value * 10 + digit;
        if value > most {
            proof {
                lemma_hopeless_stays(body, limit as int, i - start + 1, body.len() as int);
            }
            return None;
        }
        i = i + 1;
    }
    Some(value as u64)
}

/// Bytes of a binary gigabyte.
pub const GIB: u64 = 1_073_741_824;

/// The text ends in the unit of binary gigabytes.
pub open spec fn in_gib(s: Seq<char>) -> bool {
    s.len() >= 3 && s.skip(s.len() - 3) == "GiB"@
}

/// The budget that the text names: `auto`, or a number of bytes or of `GiB`.
pub open spec fn host_budget(s: Seq<char>) -> Option<HostBudget> {
    if s == "auto"@ {
        Some(HostBudget::Auto)
    } else if in_gib(s) {
        match number(s.take(s.len() - 3), u64::MAX as int / GIB as int) {
            Some(v) => Some(HostBudget::Bytes((v * GIB) as u64)),
            None => None,
        }
    } else {
        match number(s, u64::MAX as int) {
            Some(v) => Some(HostBudget::Bytes(v as u64)),
            None => None,
        }
    }
}

/// Reads the snapshot memory that may be pinned.
pub fn parse_host_budget(value: &str) -> (r: Result<HostBudget, String>)
    ensures
        match r {
            Ok(budget) => host_budget(value@) == Some(budget),
            Err(reason) => host_budget(value@) is None && reason@
                == "expected auto or a byte count"@,
        },
{
    if same_text(value, "auto") {
        return Ok(HostBudget::Auto);
    }
    let n: usize = value.unicode_len();
    let unit: bool = n >= 3 && same_text(value.substring_char(n - 3, n), "GiB");
    proof {
        if n >= 3 {
            assert(value@.subrange(n - 3, n as int) =~= value@.skip(n - 3));
        }
    }
    let parsed: Option<u64> = if unit {
        proof {
            assert(value@.subrange(0, n - 3) =~= value@.take(n - 3));
        }
        match parse_number(value.substring_char(0, n - 3), u64::MAX / GIB) {
            Some(count) => {
                assert(count * GIB <= u64::MAX) by (nonlinear_arith)
                    requires
                        count <= 17179869183,
                        GIB == 1_073_741_824,
                ;
                Some(count * GIB)
            },
            None => None,
        }
    } else {
        parse_number(value, u64::MAX)
    };
    match parsed {
        Some(bytes) => Ok(HostBudget::Bytes(bytes)),
        None => Err(String::from_str("expected auto or a byte count")),
    }
}

/// The degrees that have a family of shards.
pub open spec fn has_shards(degree: int) -> bool {
    degree == 2 || degree == 3 || degree == 4 || degree == 6
}

/// A tensor-parallel degree. Five lies between the supported ones but has no
/// shards, so it is refused here and not when weights are loaded.
pub fn parse_spark_tp(value: &str) -> (r: Result<u8, String>)
    ensures
        match r {
            Ok(degree) => number(value@, 255) == Some(degree as int) && has_shards(degree as int),
            Err(reason) => match number(value@, 255) {
                None => reason@ == "expected a Spark TP degree between 2 and 6"@,
                Some(v) => !has_shards(v) && reason@ == "unsupported Spark TP degree "@
                    + text::decimal(v as nat) + "; expected 2, 3, 4 or 6"@,
            },
        },
{
    match parse_number(value, 255) {
        None => Err(String::from_str("expected a Spark TP degree between 2 and 6")),
        Some(degree) => {
            if degree == 2 || degree == 3 || degree == 4 || degree == 6 {
                return Ok(degree as u8);
            }
            let mut reason: String = String::from_str("unsupported Spark TP degree ");
            append_count(&mut reason, degree as usize);
            reason.append("; expected 2, 3, 4 or 6");
            Err(reason)
        },
    }
}

/// The kind that the `k`th piece names is one that the cache knows.
pub open spec fn known_kind(piece: Seq<char>) -> bool {
    let kind = text::trimmed(piece);
    kind.len() == 0 || kind == "prompt"@ || kind == "turn"@
}

/// The first of the first `n` pieces that names no kind.
pub open spec fn first_unknown(pieces: Seq<Seq<char>>, n: int) -> Option<Seq<char>>
    decreases n,
{
    if n <= 0 {
        None
    } else {
        match first_unknown(pieces, n - 1) {
            Some(kind) => Some(kind),
            None => if known_kind(pieces[n - 1]) {
                None
            } else {
                Some(text::trimmed(pieces[n - 1]))
            },
        }
    }
}

/// One of the first `n` pieces is `kind`.
pub open spec fn names_kind(pieces: Seq<Seq<char>>, kind: Seq<char>, n: int) -> bool {
    exists|k: int| 0 <= k < n && text::trimmed(#[trigger] pieces[k]) == kind
}

proof fn lemma_unknown_stays(pieces: Seq<Seq<char>>, n: int, m: int)
    requires
        n <= m,
        first_unknown(pieces, n) is Some,
    ensures
        first_unknown(pieces, m) == first_unknown(pieces, n),
    decreases m - n,
{
    if n < m && m > 0 {
        lemma_unknown_stays(pieces, n, m - 1);
    }
}

/// Reads the banks from a list that is separated by commas; blanks and empty
/// parts do not matter.
pub fn parse_kinds(list: &str) -> (r: Result<HostCacheKinds, String>)
    ensures
        ({
            let pieces = text::pieces(list@, ',');
            let n = pieces.len() as int;
            match r {
                Ok(kinds) => {
                    &&& first_unknown(pieces, n) is None
                    &&& kinds.prompt == names_kind(pieces, "prompt"@, n)
                    &&& kinds.turn == names_kind(pieces, "turn"@, n)
                },
                Err(reason) => {
                    &&& first_unknown(pieces, n) matches Some(kind) && reason@
                        == "unknown host cache kind "@ + text::quoted_text(kind)
                        + " (expected prompt or turn)"@
                },
            }
        }),
{
    let parts = split(list, ',');
    let ghost pieces = text::pieces(list@, ',');
    assert(parts@.len() == pieces.len()) by {
        assert(parts@.map_values(|part: &str| part@).len() == parts@.len());
    }
    assert forall|k: int| 0 <= k < parts@.len() implies (#[trigger] parts@[k])@ == pieces[k] by {
        assert(parts@.map_values(|part: &str| part@)[k] == parts@[k]@);
    }
    let mut prompt: bool = false;
    let mut turn: bool = false;
    let mut i: usize = 0;
    proof {
        reveal_strlit("prompt");
        reveal_strlit("turn");
    }
    while i < parts.len()
        invariant
            i <= parts@.len() == pieces.len(),
            pieces == text::pieces(list@, ','),
            forall|k: int| 0 <= k < parts@.len() ==> (#[trigger] parts@[k])@ == pieces[k],
            "prompt"@.len() == 6,
            "turn"@.len() == 4,
            first_unknown(pieces, i as int) is None,
            prompt == names_kind(pieces, "prompt"@, i as int),
            turn == names_kind(pieces, "turn"@, i as int),
        decreases parts@.len() - i,
    {
        let kind: &str = trim(parts[i]);
        assert(kind@ == text::trimmed(pieces[i as int]));
        let is_prompt: bool = same_text(kind, "prompt");
        let is_turn: bool = same_text(kind, "turn");
        if kind.unicode_len() > 0 && !is_prompt && !is_turn {
            proof {
                lemma_unknown_stays(pieces, i + 1, pieces.len() as int);
            }
            let mut reason: String = String::from_str("unknown host cache kind ");
            reason.append(quoted(kind).as_str());
            reason.append(" (expected prompt or turn)");
            return Err(reason);
        }
        if is_prompt {
            prompt = true;
        }
        if is_turn {
            turn = true;
        }
        proof {
            lemma_names_step(pieces, "prompt"@, i as int);
            lemma_names_step(pieces, "turn"@, i as int);
        }
        i = i + 1;
    }
    Ok(HostCacheKinds { prompt, turn })
}

proof fn lemma_names_step(pieces: Seq<Seq<char>>, kind: Seq<char>, n: int)
    requires
        0 <= n < pieces.len(),
    ensures
        names_kind(pieces, kind, n + 1) == (names_kind(pieces, kind, n) || text::trimmed(pieces[n])
            == kind),
{
    if names_kind(pieces, kind, n) {
        let k = choose|k: int| 0 <= k < n && text::trimmed(#[trigger] pieces[k]) == kind;
        assert(text::trimmed(pieces[k]) == kind);
    }
    if text::trimmed(pieces[n]) == kind {
        assert(names_kind(pieces, kind, n + 1));
    }
    if names_kind(pieces, kind, n + 1) && !names_kind(pieces, kind, n) {
        let k = choose|k: int| 0 <= k < n + 1 && text::trimmed(#[trigger] pieces[k]) == kind;
        assert(k == n);
    }
}

impl NativeServeArgs {
    /// Draft lengths are chosen while serving.
    pub fn adaptive_dspark(&self) -> (r: bool)
        ensures
            r == (self.dspark && !self.dspark_fixed),
    {
        self.dspark && !self.dspark_fixed
    }

    /// Every budget can be counted in nanoseconds.
    pub open spec fn budgets_fit(&self) -> bool {
        &&& self.host_cache_copy_budget_ms * 1_000_000 <= u64::MAX
        &&& self.host_cache_restore_budget_ms * 1_000_000 <= u64::MAX
        &&& self.host_cache_store_pace_ms * 1_000_000 <= u64::MAX
    }

    /// The configuration that the options describe, with these kinds.
    pub open spec fn described(&self, unset: u64, kinds: HostCacheKinds) -> HostCacheConfig {
        HostCacheConfig {
            bytes: self.host_cache_bytes.bytes_or(unset),
            chunk_bytes: self.host_cache_chunk_bytes,
            store: self.host_cache_store,
            copy_budget_ns: (self.host_cache_copy_budget_ms * 1_000_000) as u64,
            restore_budget_ns: (self.host_cache_restore_budget_ms * 1_000_000) as u64,
            store_pace_ns: (self.host_cache_store_pace_ms * 1_000_000) as u64,
            min_tokens: self.host_cache_min_tokens,
            max_tokens: self.host_cache_max_tokens,
            kinds,
        }
    }

    /// The configuration of the host cache, or the kind that it does not know.
    pub open spec fn host_cache(&self, unset: u64) -> Result<HostCacheConfig, Seq<char>> {
        let pieces = text::pieces(self.host_cache_kinds@, ',');
        let n = pieces.len() as int;
        match first_unknown(pieces, n) {
            Some(kind) => Err(kind),
            None => Ok(
                self.described(
                    unset,
                    HostCacheKinds {
                        prompt: names_kind(pieces, "prompt"@, n),
                        turn: names_kind(pieces, "turn"@, n),
                    },
                ),
            ),
        }
    }

    /// The host cache configuration that the options describe, before the cache
    /// has looked at it. `unset` is what an automatic budget counts as.
    pub fn described_host_cache(&self, unset: u64) -> (r: Result<HostCacheConfig, String>)
        requires
            self.budgets_fit(),
        ensures
            match r {
                Ok(config) => self.host_cache(unset) == Ok::<HostCacheConfig, Seq<char>>(config),
                Err(reason) => self.host_cache(unset) matches Err(kind) && reason@
                    == unknown_kind(kind),
            },
    {
        let kinds = match parse_kinds(self.host_cache_kinds.as_str()) {
            Err(reason) => {
                return Err(reason);
            },
            Ok(kinds) => kinds,
        };
        Ok(
            HostCacheConfig {
                bytes: self.host_cache_bytes.explicit_bytes(unset),
                chunk_bytes: self.host_cache_chunk_bytes,
                store: self.host_cache_store,
                copy_budget_ns: self.host_cache_copy_budget_ms * 1_000_000,
                restore_budget_ns: self.host_cache_restore_budget_ms * 1_000_000,
                store_pace_ns: self.host_cache_store_pace_ms * 1_000_000,
                min_tokens: self.host_cache_min_tokens,
                max_tokens: self.host_cache_max_tokens,
                kinds,
            },
        )
    }

    /// The host cache configuration of the options. `validated` is what the cache
    /// says of the described one; its refusal is handed on.
    pub fn host_cache_config(&self, unset: u64, validated: Result<(), String>) -> (r: Result<
        HostCacheConfig,
        String,
    >)
        requires
            self.budgets_fit(),
        ensures
            match self.host_cache(unset) {
                Err(kind) => r matches Err(reason) && reason@ == unknown_kind(kind),
                Ok(config) => match validated {
                    Err(refusal) => r matches Err(reason) && reason@ == refusal@,
                    Ok(_) => r == Ok::<HostCacheConfig, String>(config),
                },
            },
    {
        match self.described_host_cache(unset) {
            Err(reason) => Err(reason),
            Ok(config) => match validated {
                Err(refusal) => Err(refusal),
                Ok(_) => Ok(config),
            },
        }
    }
}

/// What is said of a kind that the host cache does not know.
pub open spec fn unknown_kind(kind: Seq<char>) -> Seq<char> {
    "unknown host cache kind "@ + text::quoted_text(kind) + " (expected prompt or turn)"@
}

proof fn lemma_digits(a: Seq<char>, b: Seq<char>, n: int)
    requires
        0 <= n <= a.len(),
        n <= b.len(),
        a.take(n) == b.take(n),
    ensures
        digits_value(a, n) == digits_value(b, n),
    decreases n,
{
    if n > 0 {
        assert(a.take(n - 1) =~= a.take(n).take(n - 1));
        assert(b.take(n - 1) =~= b.take(n).take(n - 1));
        assert(a[n - 1] == a.take(n)[n - 1] && b[n - 1] == b.take(n)[n - 1]);
        lemma_digits(a, b, n - 1);
    }
}

proof fn lemma_decimal(n: nat)
    ensures
        text::decimal(n).len() > 0,
        digits_value(text::decimal(n), text::decimal(n).len() as int) == Some(n as int),
        forall|i: int|
            0 <= i < text::decimal(n).len() ==> '0' <= (#[trigger] text::decimal(n)[i])
                && text::decimal(n)[i] <= '9',
    decreases n,
{
    let s = text::decimal(n);
    if n < 10 {
        assert(s =~= seq![text::digit(n)]);
        reveal_with_fuel(digits_value, 2);
    } else {
        let before = text::decimal(n / 10);
        lemma_decimal(n / 10);
        assert(s.take(before.len() as int) =~= before.take(before.len() as int));
        lemma_digits(s, before, before.len() as int);
        assert forall|i: int| 0 <= i < s.len() implies '0' <= (#[trigger] s[i]) && s[i] <= '9' by {
            if i < before.len() {
                assert(s[i] == before[i]);
            }
        }
    }
}

/// Numbers read back: the decimal notation of a number, with or without a plus sign, is
/// that number wherever it is within the limit, and nothing where it is not.
pub proof fn law_written_numbers_read_back(n: nat, limit: int)
    requires
        0 <= limit,
    ensures
        number(text::decimal(n), limit) == if n <= limit {
            Some(n as int)
        } else {
            None
        },
        number(seq!['+'] + text::decimal(n), limit) == number(text::decimal(n), limit),
{
    let s = text::decimal(n);
    lemma_decimal(n);
    assert('0' <= s[0]);
    assert((seq!['+'] + s).skip(1) =~= s);
}

proof fn lemma_bad_digit(s: Seq<char>, n: int, i: int)
    requires
        0 <= i < n <= s.len(),
        !('0' <= s[i] && s[i] <= '9'),
    ensures
        digits_value(s, n) is None,
    decreases n,
{
    if i < n - 1 {
        lemma_bad_digit(s, n - 1, i);
    }
}

/// A text with anything but digits behind its optional sign, or with nothing there, is
/// no number.
pub proof fn law_other_texts_are_no_numbers(s: Seq<char>, limit: int, i: int)
    requires
        s.len() == 0 || s == seq!['+'] || 0 <= i < s.len() && !('0' <= s[i] && s[i] <= '9') && !(i
            == 0 && s[0] == '+'),
    ensures
        number(s, limit) is None,
{
    let signed = s.len() > 0 && s[0] == '+';
    let body = if signed {
        s.skip(1)
    } else {
        s
    };
    if body.len() > 0 {
        let at = if signed {
            i - 1
        } else {
            i
        };
        lemma_bad_digit(body, body.len() as int, at);
    }
}

/// Budgets read back: a number of bytes is that many bytes, with `GiB` behind it that
/// many times two to the thirtieth where this can be held, and `auto` is automatic.
pub proof fn law_written_budgets_read_back(n: nat)
    ensures
        host_budget("auto"@) == Some(HostBudget::Auto),
        host_budget(text::decimal(n)) == if n <= u64::MAX {
            Some(HostBudget::Bytes(n as u64))
        } else {
            None
        },
        host_budget(text::decimal(n) + "GiB"@) == if n * 1073741824 <= u64::MAX {
            Some(HostBudget::Bytes((n * 1073741824) as u64))
        } else {
            None
        },
{
    reveal_strlit("auto");
    reveal_strlit("GiB");
    let s = text::decimal(n);
    lemma_decimal(n);
    law_written_numbers_read_back(n, u64::MAX as int);
    law_written_numbers_read_back(n, u64::MAX as int / GIB as int);
    assert("auto"@[0] == 'a');
    assert(s[0] <= '9');
    if in_gib(s) {
        assert(s.skip(s.len() - 3)[0] == s[s.len() - 3]);
        assert("GiB"@[0] == 'G');
    }
    let t = s + "GiB"@;
    assert(t.skip(t.len() - 3) =~= "GiB"@);
    assert(t.take(t.len() - 3) =~= s);
    assert(t[0] == s[0]);
}

proof fn lemma_known(pieces: Seq<Seq<char>>, n: int, k: int)
    requires
        first_unknown(pieces, n) is None,
        0 <= k < n,
    ensures
        known_kind(pieces[k]),
    decreases n,
{
    if k < n - 1 {
        lemma_known(pieces, n - 1, k);
    }
}

/// The configuration says what the options say: durations are the same in nanoseconds,
/// sizes and bounds are taken over, every part of the list of kinds is known, and a kind
/// is on exactly where the list has it.
pub proof fn law_configuration_says_what_the_options_say(
    options: &NativeServeArgs,
    unset: u64,
    config: HostCacheConfig,
    k: int,
)
    requires
        options.budgets_fit(),
        options.host_cache(unset) == Ok::<HostCacheConfig, Seq<char>>(config),
        0 <= k < text::pieces(options.host_cache_kinds@, ',').len(),
    ensures
        config.copy_budget_ns == 1_000_000 * options.host_cache_copy_budget_ms,
        config.restore_budget_ns == 1_000_000 * options.host_cache_restore_budget_ms,
        config.store_pace_ns == 1_000_000 * options.host_cache_store_pace_ms,
        config.chunk_bytes == options.host_cache_chunk_bytes,
        config.store == options.host_cache_store,
        config.min_tokens == options.host_cache_min_tokens,
        config.max_tokens == options.host_cache_max_tokens,
        options.host_cache_bytes matches HostBudget::Bytes(bytes) ==> config.bytes == bytes,
        options.host_cache_bytes is Auto ==> config.bytes == unset,
        ({
            let kind = text::trimmed(text::pieces(options.host_cache_kinds@, ',')[k]);
            &&& kind.len() == 0 || kind == "prompt"@ || kind == "turn"@
            &&& kind == "prompt"@ ==> config.kinds.prompt
            &&& kind == "turn"@ ==> config.kinds.turn
        }),
{
    let pieces = text::pieces(options.host_cache_kinds@, ',');
    lemma_known(pieces, pieces.len() as int, k);
}

} // verus!
