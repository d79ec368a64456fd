//! The eviction policies the cache can be configured with.
//!
//! The two parameterized policies carry their ratios as integer parts per
//! million, so that a ratio of one quarter is written `250_000`.  The text
//! form of a policy writes the same ratios as decimals in `[0, 1]`.
use vstd::prelude::*;

use crate::error::CacheError;

verus! {

/// The denominator of the integer ratios carried by the parameterized
/// policies: a ratio is a value in `0 ..= RATIO_SCALE` parts per million.
pub const RATIO_SCALE: u32 = 1_000_000;

/// One of the cache's eviction policies.
///
/// `Auto` is not an eviction order of its own: it asks the cache to pick the
/// best of the configured policies by observed miss ratio.
#[derive(Clone, Copy, Debug, PartialEq, Eq, Structural)]
pub enum PaperPolicy {
    /// Adaptive selection among the configured policies.
    Auto,
    /// Least-frequently-used eviction.
    Lfu,
    /// First-in-first-out eviction.
    Fifo,
    /// FIFO with a second chance for entries visited since insertion.
    Clock,
    /// CLOCK with a persistent hand that survives insertions.
    Sieve,
    /// Least-recently-used eviction.
    Lru,
    /// Most-recently-used eviction.
    Mru,
    /// Two-queue eviction; the ratios of the admission and ghost queues
    /// are parts per million of the cache size.
    TwoQ(u32, u32),
    /// Adaptive replacement cache eviction.
    Arc,
    /// Small-FIFO/main-FIFO eviction; the ratio of the small queue is
    /// parts per million of the cache size.
    SThreeFifo(u32),
}

impl PaperPolicy {
    /// Whether the policy's ratio parameters lie within `[0, 1]`, and for
    /// the two-queue policy sum to at most `1`.
    pub open spec fn params_valid(self) -> bool {
        match self {
            PaperPolicy::TwoQ(k_in, k_out) => k_in <= RATIO_SCALE && k_out <= RATIO_SCALE
                && k_in + k_out <= RATIO_SCALE,
            PaperPolicy::SThreeFifo(ratio) => ratio <= RATIO_SCALE,
            _ => true,
        }
    }

    /// Returns `true` iff the policy is the adaptive one.
    pub fn is_auto(&self) -> (r: bool)
        ensures
            r == (self is Auto),
    {
        matches!(self, PaperPolicy::Auto)
    }
}

impl std::str::FromStr for PaperPolicy {
    type Err = CacheError;

    /// Reads a policy configuration text.
    fn from_str(s: &str) -> Result<PaperPolicy, CacheError> {
        parse_policy(s)
    }
}

/// Whether the sequence of policies holds the same policy twice.
pub open spec fn spec_has_duplicates(policies: Seq<PaperPolicy>) -> bool {
    exists|i: int, j: int| 0 <= i < j < policies.len() && policies[i] == policies[j]
}

/// Whether the sequence of policies holds `policy`.
pub open spec fn spec_contains_policy(policies: Seq<PaperPolicy>, policy: PaperPolicy) -> bool {
    exists|i: int| 0 <= i < policies.len() && policies[i] == policy
}

/// Returns `true` iff `policies` holds `policy`.
pub fn contains_policy(policies: &[PaperPolicy], policy: PaperPolicy) -> (r: bool)
    ensures
        r == spec_contains_policy(policies@, policy),
{
    let n = policies.len();
    let mut i: usize = 0;
    while i < n
        invariant
            0 <= i <= n,
            n == policies@.len(),
            forall|k: int| 0 <= k < i ==> policies@[k] != policy,
        decreases n - i,
    {
        if policies[i] == policy {
            return true;
        }
        i = i + 1;
    }
    false
}

/// Returns `true` iff `policies` holds some policy twice.
pub fn has_duplicate_policies(policies: &[PaperPolicy]) -> (r: bool)
    ensures
        r == spec_has_duplicates(policies@),
{
    let n = policies.len();
    let mut j: usize = 1;
    while j < n
        invariant
            1 <= j <= n || n == 0,
            n == policies@.len(),
            forall|a: int, b: int| 0 <= a < b < j ==> policies@[a] != policies@[b],
        decreases n - j,
    {
        let mut i: usize = 0;
        while i < j
            invariant
                0 <= i <= j < n,
                n == policies@.len(),
                forall|a: int, b: int| 0 <= a < b < j ==> policies@[a] != policies@[b],
                forall|a: int| 0 <= a < i ==> policies@[a] != policies@[j as int],
            decreases j - i,
        {
            if policies[i] == policies[j] {
                return true;
            }
            i = i + 1;
        }
        j = j + 1;
    }
    false
}

/// Returns the first position of `policy` in `policies`, or `None` where it
/// does not stand there.
pub fn find_policy_index(policies: &[PaperPolicy], policy: PaperPolicy) -> (r: Option<usize>)
    ensures
        match r {
            Some(i) => 0 <= i < policies@.len() && policies@[i as int] == policy && forall|k: int|
                0 <= k < i ==> policies@[k] != policy,
            None => !spec_contains_policy(policies@, policy),
        },
{
    let n = policies.len();
    let mut i: usize = 0;
    while i < n
        invariant
            0 <= i <= n,
            n == policies@.len(),
            forall|k: int| 0 <= k < i ==> policies@[k] != policy,
        decreases n - i,
    {
        if policies[i] == policy {
            return Some(i);
        }
        i = i + 1;
    }
    None
}

/// Whether every character of `s` is a decimal digit.
pub open spec fn all_digits(s: Seq<char>) -> bool {
    forall|i: int| 0 <= i < s.len() ==> '0' <= #[trigger] s[i] <= '9'
}

/// The numeric value of a digit string, most significant first.
pub open spec fn digits_val(s: Seq<char>) -> int
    decreases s.len(),
{
    if s.len() == 0 {
        0
    } else {
        digits_val(s.drop_last()) * 10 + (s.last() as int - '0' as int)
    }
}

/// The first position of `c` in `s`, or the length where it does not
/// occur.
pub open spec fn first_index(s: Seq<char>, c: char) -> int
    decreases s.len(),
{
    if s.len() == 0 {
        0
    } else if s[0] == c {
        0
    } else {
        1 + first_index(s.drop_first(), c)
    }
}

/// Any position with `c` after a `c`-free prefix is the one
/// `first_index` names.
pub proof fn lemma_first_index(s: Seq<char>, c: char, i: int)
    requires
        0 <= i <= s.len(),
        forall|k: int| 0 <= k < i ==> s[k] != c,
        i < s.len() ==> s[i] == c,
    ensures
        first_index(s, c) == i,
    decreases s.len(),
{
    if s.len() > 0 && i > 0 {
        assert(s[0] != c);
        lemma_first_index(s.drop_first(), c, i - 1);
    }
}

/// The fraction digits padded with zeros to the millionth place.
pub open spec fn frac_padded(s: Seq<char>) -> Seq<char> {
    Seq::new(6, |i: int| if i < s.len() { s[i] } else { '0' })
}

/// The parts-per-million value of a decimal ratio text: an integer part,
/// optionally a dot and a fraction, read to the millionth and refused
/// beyond one.
pub open spec fn spec_parse_ratio(s: Seq<char>) -> Option<u32> {
    let d = first_index(s, '.');
    let int_part = s.subrange(0, d);
    let frac_part = if d < s.len() {
        s.subrange(d + 1, s.len() as int)
    } else {
        Seq::<char>::empty()
    };
    if int_part.len() == 0 || !all_digits(int_part) {
        None
    } else if d < s.len() && (frac_part.len() == 0 || !all_digits(frac_part)) {
        None
    } else {
        let value = digits_val(int_part) * 1_000_000 + digits_val(frac_padded(frac_part));
        if value > 1_000_000 {
            None
        } else {
            Some(value as u32)
        }
    }
}

/// The policy a configuration text names, or `None` where the text is
/// not a policy.
pub open spec fn spec_parse_policy(s: Seq<char>) -> Option<PaperPolicy> {
    if s == seq!['a', 'u', 't', 'o'] {
        Some(PaperPolicy::Auto)
    } else if s == seq!['l', 'f', 'u'] {
        Some(PaperPolicy::Lfu)
    } else if s == seq!['f', 'i', 'f', 'o'] {
        Some(PaperPolicy::Fifo)
    } else if s == seq!['c', 'l', 'o', 'c', 'k'] {
        Some(PaperPolicy::Clock)
    } else if s == seq!['s', 'i', 'e', 'v', 'e'] {
        Some(PaperPolicy::Sieve)
    } else if s == seq!['l', 'r', 'u'] {
        Some(PaperPolicy::Lru)
    } else if s == seq!['m', 'r', 'u'] {
        Some(PaperPolicy::Mru)
    } else if s == seq!['a', 'r', 'c'] {
        Some(PaperPolicy::Arc)
    } else if s.len() >= 3 && s.subrange(0, 3) == seq!['2', 'q', '-'] {
        let body = s.subrange(3, s.len() as int);
        let d = first_index(body, '-');
        if d >= body.len() {
            None
        } else {
            let k_in = spec_parse_ratio(body.subrange(0, d));
            let k_out = spec_parse_ratio(body.subrange(d + 1, body.len() as int));
            match (k_in, k_out) {
                (Some(a), Some(b)) => if a + b <= 1_000_000 {
                    Some(PaperPolicy::TwoQ(a, b))
                } else {
                    None
                },
                _ => None,
            }
        }
    } else if s.len() >= 8 && s.subrange(0, 8) == seq!['s', '3', '-', 'f', 'i', 'f', 'o', '-'] {
        match spec_parse_ratio(s.subrange(8, s.len() as int)) {
            Some(ratio) => Some(PaperPolicy::SThreeFifo(ratio)),
            None => None,
        }
    } else {
        None
    }
}

/// The first position of `c` in `v[from .. to]`, or `to` where it does
/// not occur.
fn find_char(v: &Vec<char>, from: usize, to: usize, c: char) -> (r: usize)
    requires
        from <= to <= v@.len(),
    ensures
        from <= r <= to,
        forall|k: int| from <= k < r ==> v@[k] != c,
        r < to ==> v@[r as int] == c,
{
    let mut j: usize = from;
    while j < to
        invariant
            from <= j <= to <= v@.len(),
            forall|k: int| from <= k < j ==> v@[k] != c,
        decreases to - j,
    {
        if v[j] == c {
            return j;
        }
        j = j + 1;
    }
    to
}

/// Copies `v[from .. to]` out.
fn copy_range(v: &Vec<char>, from: usize, to: usize) -> (r: Vec<char>)
    requires
        from <= to <= v@.len(),
    ensures
        r@ == v@.subrange(from as int, to as int),
{
    let mut out: Vec<char> = Vec::new();
    let mut j: usize = from;
    while j < to
        invariant
            from <= j <= to <= v@.len(),
            out@ == v@.subrange(from as int, j as int),
        decreases to - j,
    {
        out.push(v[j]);
        proof {
            assert(out@ =~= v@.subrange(from as int, j + 1));
        }
        j = j + 1;
    }
    proof {
        assert(out@ =~= v@.subrange(from as int, to as int));
    }
    out
}

/// Reads a ratio text as parts per million.
fn parse_ratio_chars(t: &Vec<char>) -> (r: Option<u32>)
    ensures
        r == spec_parse_ratio(t@),
{
    let n = t.len();
    let dot = find_char(t, 0, n, '.');
    proof {
        lemma_first_index(t@, '.', dot as int);
    }
    let ghost int_part = t@.subrange(0, dot as int);
    let ghost frac_part = if (dot as int) < t@.len() {
        t@.subrange(dot + 1, t@.len() as int)
    } else {
        Seq::<char>::empty()
    };
    if dot == 0 {
        return None;
    }
    // the integer part, clamped once it can no longer stay within one
    let mut acc: u64 = 0;
    let mut i: usize = 0;
    while i < dot
        invariant
            0 <= i <= dot <= n,
            n == t@.len(),
            dot as int == first_index(t@, '.'),
            int_part == t@.subrange(0, dot as int),
            forall|k: int| 0 <= k < i ==> '0' <= #[trigger] t@[k] <= '9',
            acc <= 1_000_000 ==> acc == digits_val(t@.subrange(0, i as int)),
            acc > 1_000_000 ==> digits_val(t@.subrange(0, i as int)) > 1_000_000,
            acc <= 10_000_009,
        decreases dot - i,
    {
        let c = t[i];
        if c < '0' || c > '9' {
            proof {
                assert(int_part[i as int] == t@[i as int]);
                assert(!all_digits(int_part));
            }
            return None;
        }
        let digit = (c as u32 - '0' as u32) as u64;
        proof {
            assert(t@.subrange(0, i + 1).drop_last() =~= t@.subrange(0, i as int));
            assert(t@.subrange(0, i + 1).last() == t@[i as int]);
            if acc > 1_000_000 {
                lemma_digits_val_nonneg_prefix(t@, i as int);
            }
        }
        if acc <= 1_000_000 {
            acc = acc * 10 + digit;
        }
        i = i + 1;
    }
    proof {
        assert(t@.subrange(0, dot as int) =~= int_part);
        assert(all_digits(int_part)) by {
            assert forall|k: int| 0 <= k < int_part.len() implies '0' <= #[trigger] int_part[k]
                <= '9' by {
                assert(int_part[k] == t@[k]);
            }
        }
    }
    // every fraction character must be a digit
    if dot < n && dot + 1 == n {
        return None;
    }
    let frac_from = if dot < n {
        dot + 1
    } else {
        n
    };
    let mut j: usize = frac_from;
    while j < n
        invariant
            frac_from <= j <= n,
            n == t@.len(),
            dot <= n,
            dot as int == first_index(t@, '.'),
            dot < n ==> frac_from == dot + 1,
            dot >= n ==> frac_from == n,
            dot < n ==> frac_part == t@.subrange(dot + 1, n as int),
            dot >= n ==> frac_part == Seq::<char>::empty(),
            frac_part.len() == n - frac_from,
            forall|k: int| 0 <= k < frac_part.len() ==> frac_part[k] == t@[frac_from + k],
            forall|k: int| frac_from <= k < j ==> '0' <= #[trigger] t@[k] <= '9',
        decreases n - j,
    {
        let c = t[j];
        if c < '0' || c > '9' {
            proof {
                assert(frac_part[j - frac_from] == t@[j as int]);
                assert(!all_digits(frac_part));
            }
            return None;
        }
        j = j + 1;
    }
    proof {
        assert(all_digits(frac_part)) by {
            assert forall|k: int| 0 <= k < frac_part.len() implies '0' <= #[trigger] frac_part[k]
                <= '9' by {
                assert(frac_part[k] == t@[frac_from + k]);
            }
        }
    }
    let ghost padded = frac_padded(frac_part);
    proof {
        assert(all_digits(padded)) by {
            assert forall|k: int| 0 <= k < padded.len() implies '0' <= #[trigger] padded[k]
                <= '9' by {
                if k < frac_part.len() {
                    assert(padded[k] == frac_part[k]);
                } else {
                    assert(padded[k] == '0');
                }
            }
        }
        lemma_digits_val_nonneg(padded);
    }
    if acc > 1_000_000 {
        proof {
            assert(digits_val(int_part) * 1_000_000 >= 1_000_001 * 1_000_000) by (nonlinear_arith)
                requires
                    digits_val(int_part) > 1_000_000,
            ;
        }
        return None;
    }
    let mut frac_acc: u64 = 0;
    let mut p: usize = 0;
    while p < 6
        invariant
            0 <= p <= 6,
            n == t@.len(),
            dot <= n,
            dot as int == first_index(t@, '.'),
            dot < n ==> frac_from == dot + 1,
            dot >= n ==> frac_from == n,
            dot < n ==> frac_part == t@.subrange(dot + 1, n as int),
            dot >= n ==> frac_part == Seq::<char>::empty(),
            frac_from <= n,
            frac_part.len() == n - frac_from,
            forall|k: int| 0 <= k < frac_part.len() ==> frac_part[k] == t@[frac_from + k],
            forall|k: int| 0 <= k < frac_part.len() ==> '0' <= #[trigger] frac_part[k] <= '9',
            padded == frac_padded(frac_part),
            all_digits(padded),
            frac_acc == digits_val(padded.subrange(0, p as int)),
            frac_acc <= frac_cap(p as int),
        decreases 6 - p,
    {
        let c = if p < n - frac_from {
            t[frac_from + p]
        } else {
            '0'
        };
        proof {
            assert(padded.subrange(0, p + 1).drop_last() =~= padded.subrange(0, p as int));
            assert(padded.subrange(0, p + 1).last() == padded[p as int]);
            assert(padded[p as int] == (if (p as int) < frac_part.len() {
                frac_part[p as int]
            } else {
                '0'
            }));
        }
        let digit = (c as u32 - '0' as u32) as u64;
        frac_acc = frac_acc * 10 + digit;
        p = p + 1;
    }
    proof {
        assert(padded.subrange(0, 6) =~= padded);
    }
    let total = acc * 1_000_000 + frac_acc;
    if total > 1_000_000 {
        return None;
    }
    Some(total as u32)
}

/// The largest value a digit string of `p` places can hold.
pub open spec fn frac_cap(p: int) -> int {
    if p <= 0 {
        0
    } else if p == 1 {
        9
    } else if p == 2 {
        99
    } else if p == 3 {
        999
    } else if p == 4 {
        9_999
    } else if p == 5 {
        99_999
    } else {
        999_999
    }
}

/// A nonnegative-digit prefix has a nonnegative value.
proof fn lemma_digits_val_nonneg_prefix(s: Seq<char>, i: int)
    requires
        0 <= i <= s.len(),
        forall|k: int| 0 <= k < i ==> '0' <= #[trigger] s[k] <= '9',
    ensures
        digits_val(s.subrange(0, i)) >= 0,
    decreases i,
{
    if i > 0 {
        lemma_digits_val_nonneg_prefix(s, i - 1);
        assert(s.subrange(0, i).drop_last() =~= s.subrange(0, i - 1));
        assert(s.subrange(0, i).last() == s[i - 1]);
    }
}

/// A digit string's value is never negative.
pub proof fn lemma_digits_val_nonneg(s: Seq<char>)
    requires
        all_digits(s),
    ensures
        digits_val(s) >= 0,
    decreases s.len(),
{
    if s.len() > 0 {
        lemma_digits_val_nonneg(s.drop_last());
    }
}

/// Reads a policy configuration text: one of the policy names, or the
/// two-queue and S3-FIFO forms with their decimal ratios in `[0, 1]`.
pub fn parse_policy(s: &str) -> (r: Result<PaperPolicy, CacheError>)
    ensures
        match spec_parse_policy(s@) {
            Some(p) => r == Ok::<PaperPolicy, CacheError>(p),
            None => r == Err::<PaperPolicy, CacheError>(CacheError::InvalidPolicy),
        },
{
    let n = s.unicode_len();
    let mut chars: Vec<char> = Vec::new();
    let mut i: usize = 0;
    while i < n
        invariant
            0 <= i <= n,
            n == s@.len(),
            chars@ == s@.subrange(0, i as int),
        decreases n - i,
    {
        chars.push(s.get_char(i));
        proof {
            assert(chars@ =~= s@.subrange(0, i + 1));
        }
        i = i + 1;
    }
    proof {
        assert(chars@ =~= s@);
    }
    if n == 4 && chars[0] == 'a' && chars[1] == 'u' && chars[2] == 't' && chars[3] == 'o' {
        proof {
            assert(s@ =~= seq!['a', 'u', 't', 'o']);
        }
        return Ok(PaperPolicy::Auto);
    }
    if n == 3 && chars[0] == 'l' && chars[1] == 'f' && chars[2] == 'u' {
        proof {
            assert(s@ =~= seq!['l', 'f', 'u']);
        }
        return Ok(PaperPolicy::Lfu);
    }
    if n == 4 && chars[0] == 'f' && chars[1] == 'i' && chars[2] == 'f' && chars[3] == 'o' {
        proof {
            assert(s@ =~= seq!['f', 'i', 'f', 'o']);
        }
        return Ok(PaperPolicy::Fifo);
    }
    if n == 5 && chars[0] == 'c' && chars[1] == 'l' && chars[2] == 'o' && chars[3] == 'c'
        && chars[4] == 'k' {
        proof {
            assert(s@ =~= seq!['c', 'l', 'o', 'c', 'k']);
        }
        return Ok(PaperPolicy::Clock);
    }
    if n == 5 && chars[0] == 's' && chars[1] == 'i' && chars[2] == 'e' && chars[3] == 'v'
        && chars[4] == 'e' {
        proof {
            assert(s@ =~= seq!['s', 'i', 'e', 'v', 'e']);
        }
        return Ok(PaperPolicy::Sieve);
    }
    if n == 3 && chars[0] == 'l' && chars[1] == 'r' && chars[2] == 'u' {
        proof {
            assert(s@ =~= seq!['l', 'r', 'u']);
        }
        return Ok(PaperPolicy::Lru);
    }
    if n == 3 && chars[0] == 'm' && chars[1] == 'r' && chars[2] == 'u' {
        proof {
            assert(s@ =~= seq!['m', 'r', 'u']);
        }
        return Ok(PaperPolicy::Mru);
    }
    if n == 3 && chars[0] == 'a' && chars[1] == 'r' && chars[2] == 'c' {
        proof {
            assert(s@ =~= seq!['a', 'r', 'c']);
        }
        return Ok(PaperPolicy::Arc);
    }
    proof {
        assert(s@ != seq!['a', 'u', 't', 'o']);
        assert(s@ != seq!['l', 'f', 'u']);
        assert(s@ != seq!['f', 'i', 'f', 'o']);
        assert(s@ != seq!['c', 'l', 'o', 'c', 'k']);
        assert(s@ != seq!['s', 'i', 'e', 'v', 'e']);
        assert(s@ != seq!['l', 'r', 'u']);
        assert(s@ != seq!['m', 'r', 'u']);
        assert(s@ != seq!['a', 'r', 'c']);
    }
    if n >= 3 && chars[0] == '2' && chars[1] == 'q' && chars[2] == '-' {
        proof {
            assert(s@.subrange(0, 3) =~= seq!['2', 'q', '-']);
        }
        let ghost body = s@.subrange(3, n as int);
        let dash = find_char(&chars, 3, n, '-');
        let ghost d = first_index(body, '-');
        proof {
            assert forall|k: int| 0 <= k < dash - 3 implies body[k] != '-' by {
                assert(body[k] == chars@[3 + k]);
            }
            if dash < n {
                assert(body[dash - 3] == chars@[dash as int]);
            }
            lemma_first_index(body, '-', dash - 3);
        }
        if dash == n {
            return Err(CacheError::InvalidPolicy);
        }
        let first_text = copy_range(&chars, 3, dash);
        let second_text = copy_range(&chars, dash + 1, n);
        let k_in = parse_ratio_chars(&first_text);
        let k_out = parse_ratio_chars(&second_text);
        proof {
            assert(first_text@ =~= body.subrange(0, d));
            assert(second_text@ =~= body.subrange(d + 1, body.len() as int));
        }
        match (k_in, k_out) {
            (Some(a), Some(b)) => {
                if a <= 1_000_000 && b <= 1_000_000 - a {
                    return Ok(PaperPolicy::TwoQ(a, b));
                }
                return Err(CacheError::InvalidPolicy);
            },
            _ => {
                return Err(CacheError::InvalidPolicy);
            },
        }
    }
    if n >= 8 && chars[0] == 's' && chars[1] == '3' && chars[2] == '-' && chars[3] == 'f'
        && chars[4] == 'i' && chars[5] == 'f' && chars[6] == 'o' && chars[7] == '-' {
        proof {
            assert(s@.subrange(0, 8) =~= seq!['s', '3', '-', 'f', 'i', 'f', 'o', '-']);
        }
        let ratio_text = copy_range(&chars, 8, n);
        let ratio = parse_ratio_chars(&ratio_text);
        proof {
            assert(ratio_text@ =~= s@.subrange(8, n as int));
        }
        match ratio {
            Some(r) => {
                return Ok(PaperPolicy::SThreeFifo(r));
            },
            None => {
                return Err(CacheError::InvalidPolicy);
            },
        }
    }
    proof {
        if s@.len() >= 3 {
            assert(s@.subrange(0, 3)[0] == s@[0]);
            assert(s@.subrange(0, 3)[1] == s@[1]);
            assert(s@.subrange(0, 3)[2] == s@[2]);
        }
        if s@.len() >= 8 {
            assert(s@.subrange(0, 8)[0] == s@[0]);
            assert(s@.subrange(0, 8)[1] == s@[1]);
            assert(s@.subrange(0, 8)[2] == s@[2]);
            assert(s@.subrange(0, 8)[3] == s@[3]);
            assert(s@.subrange(0, 8)[4] == s@[4]);
            assert(s@.subrange(0, 8)[5] == s@[5]);
            assert(s@.subrange(0, 8)[6] == s@[6]);
            assert(s@.subrange(0, 8)[7] == s@[7]);
        }
    }
    Err(CacheError::InvalidPolicy)
}

} // verus!
