//! Aliases for catalog entries (kernels, server-added files): a readable
//! name derived from the file name that no other entry of the owner uses.
use crate::text::{
    byte_len, chars_of, contains_text, copy_range, decimal, decimal_text, lemma_decimal_len,
    push_char, push_chars, string_of, texts, trim, trim_end, trim_end_of, trim_of, utf8_width,
    utf8_width_of,
};
use vstd::prelude::*;

verus! {

/// Longest alias, in bytes.
pub const ALIAS_MAX_BYTES: usize = 128;

/// Highest numeric suffix tried before falling back to a timestamp.
pub const MAX_ALIAS_SUFFIX: u64 = 2048;

pub open spec fn is_separator(c: char) -> bool {
    c == '/' || c == '\\'
}

/// The part of a path after its last `/` or `\`.
pub open spec fn after_last_separator(s: Seq<char>) -> Seq<char>
    decreases s.len(),
{
    if s.len() == 0 {
        s
    } else if is_separator(s.last()) {
        Seq::empty()
    } else {
        after_last_separator(s.drop_last()).push(s.last())
    }
}

pub open spec fn default_basename() -> Seq<char> {
    seq!['f', 'i', 'l', 'e']
}

/// The base an alias is built from: the trimmed file name without its
/// directories, or `file` when nothing is left.
pub open spec fn alias_basename(filename: Seq<char>) -> Seq<char> {
    let base = trim(after_last_separator(filename));
    if base.len() == 0 {
        default_basename()
    } else {
        base
    }
}

/// The longest prefix of `s` whose UTF-8 encoding fits in `maximum` bytes.
pub open spec fn fit_prefix(s: Seq<char>, maximum: nat) -> Seq<char>
    decreases s.len(),
{
    if s.len() == 0 || utf8_width(s[0]) > maximum {
        Seq::empty()
    } else {
        seq![s[0]] + fit_prefix(s.drop_first(), (maximum - utf8_width(s[0])) as nat)
    }
}

/// The alias tried first.
pub open spec fn plain_alias(filename: Seq<char>) -> Seq<char> {
    trim_end(fit_prefix(alias_basename(filename), ALIAS_MAX_BYTES as nat))
}

pub open spec fn alias_suffix(number: nat) -> Seq<char> {
    seq!['-'] + decimal(number)
}

/// The alias tried with numeric suffix `number`.
pub open spec fn suffixed_alias(filename: Seq<char>, number: nat) -> Seq<char> {
    fit_prefix(
        alias_basename(filename),
        (ALIAS_MAX_BYTES - alias_suffix(number).len()) as nat,
    ) + alias_suffix(number)
}

/// Whether `candidate` is among the aliases in `used`.
pub open spec fn is_used(used: Seq<Seq<char>>, candidate: Seq<char>) -> bool {
    used.contains(candidate)
}

/// The first free suffixed alias with a number in `number..=MAX_ALIAS_SUFFIX`.
pub open spec fn first_free_suffixed(filename: Seq<char>, used: Seq<Seq<char>>, number: nat) -> Option<
    Seq<char>,
>
    decreases MAX_ALIAS_SUFFIX + 1 - number,
{
    if number > MAX_ALIAS_SUFFIX {
        None
    } else if !is_used(used, suffixed_alias(filename, number)) {
        Some(suffixed_alias(filename, number))
    } else {
        first_free_suffixed(filename, used, number + 1)
    }
}

/// A UTC time as whole seconds since the Unix epoch and nanoseconds.
pub open spec fn next_nanosecond(secs: int, nanos: int) -> (int, int) {
    if nanos + 1 >= 1_000_000_000 {
        (secs + 1, 0)
    } else {
        (secs, nanos + 1)
    }
}

/// The time `ticks` nanoseconds after `(secs, nanos)`.
pub open spec fn after_ticks(secs: int, nanos: int, ticks: nat) -> (int, int)
    decreases ticks,
{
    if ticks == 0 {
        (secs, nanos)
    } else {
        let (s, n) = after_ticks(secs, nanos, (ticks - 1) as nat);
        next_nanosecond(s, n)
    }
}

/// What `chrono` prints for the UTC time `(secs, nanos)` with the strftime
/// pattern `pattern`, or `None` where `DateTime::from_timestamp` has no such
/// time.
pub uninterp spec fn utc_timestamp_text(secs: i64, nanos: u32, pattern: Seq<char>) -> Option<Seq<char>>;

/// Seconds from the Unix epoch within which every time has a date
/// (about 253,000 years either way).
pub const TIME_RANGE_SECS: i64 = 8_000_000_000_000;

/// The pattern of timestamp aliases: UTC date and time to the nanosecond.
pub open spec fn alias_time_pattern() -> Seq<char> {
    "%Y%m%dT%H%M%S%.9fZ"@
}

/// A strftime pattern that `chrono` formats without error for every time:
/// each `%` starts one of `%Y`, `%m`, `%d`, `%H`, `%M`, `%S` or `%.9f`, and
/// every other character is printed as it is.
pub open spec fn plain_time_pattern(p: Seq<char>) -> bool {
    forall|i: int|
        0 <= i < p.len() && #[trigger] p[i] == '%' ==> {
            ||| (i + 1 < p.len() && (p[i + 1] == 'Y' || p[i + 1] == 'm' || p[i + 1] == 'd' || p[i
                + 1] == 'H' || p[i + 1] == 'M' || p[i + 1] == 'S'))
            ||| (i + 3 < p.len() && p[i + 1] == '.' && p[i + 2] == '9' && p[i + 3] == 'f')
        }
}

/// The first free timestamp alias among the times `start..=start + remaining`
/// ticks after `(secs, nanos)`; `None` when none is free or the clock leaves
/// the representable range first.
pub open spec fn first_free_timestamp(
    used: Seq<Seq<char>>,
    secs: int,
    nanos: int,
    start: nat,
    remaining: nat,
) -> Option<Seq<char>>
    decreases remaining,
{
    let (s, n) = after_ticks(secs, nanos, start);
    if !(i64::MIN <= s <= i64::MAX && 0 <= n <= u32::MAX) {
        None
    } else {
        match utc_timestamp_text(s as i64, n as u32, alias_time_pattern()) {
            None => None,
            Some(t) => if !is_used(used, t) {
                Some(t)
            } else if remaining == 0 {
                None
            } else {
                first_free_timestamp(used, secs, nanos, start + 1, (remaining - 1) as nat)
            },
        }
    }
}

/// The alias chosen for `filename` without looking at the clock: the plain
/// alias, else the first free numeric suffix; `None` when all are taken.
pub open spec fn fixed_choice(filename: Seq<char>, used: Seq<Seq<char>>) -> Option<Seq<char>> {
    if !is_used(used, plain_alias(filename)) {
        Some(plain_alias(filename))
    } else {
        first_free_suffixed(filename, used, 1)
    }
}

/// The alias chosen for `filename` at time `(secs, nanos)`: the plain alias,
/// else the first free numeric suffix, else the first free timestamp among as
/// many consecutive nanoseconds as there are used aliases, plus one.
pub open spec fn chosen_alias(filename: Seq<char>, used: Seq<Seq<char>>, secs: int, nanos: int) -> Option<
    Seq<char>,
> {
    match fixed_choice(filename, used) {
        Some(a) => Some(a),
        None => first_free_timestamp(used, secs, nanos, 0, used.len()),
    }
}

/// `fit_prefix` is the longest prefix of `s` that fits in `maximum` bytes.
pub proof fn lemma_fit_prefix(s: Seq<char>, maximum: nat)
    ensures
        fit_prefix(s, maximum).len() <= s.len(),
        s.take(fit_prefix(s, maximum).len() as int) == fit_prefix(s, maximum),
        byte_len(fit_prefix(s, maximum)) <= maximum,
        fit_prefix(s, maximum).len() == s.len() || byte_len(
            s.take(fit_prefix(s, maximum).len() + 1 as int),
        ) > maximum,
    decreases s.len(),
{
    let f = fit_prefix(s, maximum);
    if s.len() == 0 {
        assert(s.take(0) =~= f);
    } else if utf8_width(s[0]) > maximum {
        assert(s.take(0) =~= f);
        assert(s.take(1) =~= seq![s[0]]);
        assert(seq![s[0]].drop_first() =~= Seq::<char>::empty());
        assert(byte_len(Seq::<char>::empty()) == 0);
        assert(byte_len(seq![s[0]]) == utf8_width(s[0]));
    } else {
        let w = utf8_width(s[0]);
        let rest = s.drop_first();
        let m = (maximum - w) as nat;
        lemma_fit_prefix(rest, m);
        let g = fit_prefix(rest, m);
        assert(f == seq![s[0]] + g);
        assert(s.take(f.len() as int) =~= seq![s[0]] + rest.take(g.len() as int));
        assert(f.drop_first() =~= g);
        assert(byte_len(f) == w + byte_len(g));
        if g.len() < rest.len() {
            let t = s.take(f.len() + 1 as int);
            assert(t.drop_first() =~= rest.take(g.len() + 1 as int));
            assert(byte_len(t) == w + byte_len(rest.take(g.len() + 1 as int)));
        }
    }
}

/// Number of leading characters of `v` that fit in `maximum` bytes.
pub fn fit_len(v: &[char], maximum: usize) -> (k: usize)
    ensures
        k <= v.len(),
        v@.take(k as int) == fit_prefix(v@, maximum as nat),
{
    let mut i: usize = 0;
    let mut total: usize = 0;
    assert(v@.skip(0) =~= v@);
    assert(v@.take(0) + fit_prefix(v@, maximum as nat) =~= fit_prefix(v@, maximum as nat));
    while i < v.len()
        invariant
            i <= v.len(),
            total <= maximum,
            fit_prefix(v@, maximum as nat) == v@.take(i as int) + fit_prefix(
                v@.skip(i as int),
                (maximum - total) as nat,
            ),
        decreases v.len() - i,
    {
        let w = utf8_width_of(v[i]);
        let ghost rest = v@.skip(i as int);
        assert(rest[0] == v@[i as int]);
        if w > maximum - total {
            assert(fit_prefix(rest, (maximum - total) as nat) =~= Seq::<char>::empty());
            assert(v@.take(i as int) + Seq::<char>::empty() =~= v@.take(i as int));
            return i;
        }
        assert(rest.drop_first() =~= v@.skip(i + 1));
        assert(fit_prefix(rest, (maximum - total) as nat) == seq![v@[i as int]] + fit_prefix(
            v@.skip(i + 1),
            (maximum - total - w) as nat,
        ));
        assert(v@.take(i as int) + (seq![v@[i as int]] + fit_prefix(
            v@.skip(i + 1),
            (maximum - total - w) as nat,
        )) =~= v@.take(i + 1) + fit_prefix(v@.skip(i + 1), (maximum - total - w) as nat));
        total = total + w;
        i = i + 1;
    }
    assert(v@.skip(i as int) =~= Seq::<char>::empty());
    assert(v@.take(i as int) + Seq::<char>::empty() =~= v@.take(i as int));
    i
}

/// The longest prefix of `value` whose UTF-8 encoding fits in `maximum`
/// bytes: `value` cut at the last character boundary within the limit.
pub fn truncate(value: &str, maximum: usize) -> (r: &str)
    ensures
        r@ == fit_prefix(value@, maximum as nat),
        r@.len() <= value@.len(),
        value@.take(r@.len() as int) == r@,
        byte_len(r@) <= maximum,
        r@.len() == value@.len() || byte_len(value@.take(r@.len() + 1 as int)) > maximum,
{
    proof {
        lemma_fit_prefix(value@, maximum as nat);
    }
    let v = chars_of(value);
    let k = fit_len(&v, maximum);
    value.substring_char(0, k)
}

pub fn after_last_separator_of(v: &[char]) -> (r: Vec<char>)
    ensures
        r@ == after_last_separator(v@),
{
    let mut i = v.len();
    assert(v@.take(v.len() as int) =~= v@);
    assert(v@.subrange(v.len() as int, v.len() as int) =~= Seq::<char>::empty());
    assert(after_last_separator(v@) + Seq::<char>::empty() =~= after_last_separator(v@));
    while i > 0 && !(v[i - 1] == '/' || v[i - 1] == '\\')
        invariant
            i <= v.len(),
            after_last_separator(v@) == after_last_separator(v@.take(i as int)) + v@.subrange(
                i as int,
                v.len() as int,
            ),
        decreases i,
    {
        let ghost t = v@.take(i as int);
        assert(t.drop_last() =~= v@.take(i - 1));
        assert(t.last() == v@[i - 1]);
        assert(after_last_separator(t) == after_last_separator(v@.take(i - 1)).push(v@[i - 1]));
        assert(after_last_separator(v@.take(i - 1)).push(v@[i - 1]) + v@.subrange(
            i as int,
            v.len() as int,
        ) =~= after_last_separator(v@.take(i - 1)) + v@.subrange(i - 1, v.len() as int));
        i = i - 1;
    }
    proof {
        let t = v@.take(i as int);
        if i == 0 {
            assert(t =~= Seq::<char>::empty());
        }
        assert(after_last_separator(t) =~= Seq::<char>::empty());
        assert(Seq::<char>::empty() + v@.subrange(i as int, v.len() as int) =~= v@.subrange(
            i as int,
            v.len() as int,
        ));
    }
    copy_range(v, i, v.len())
}

/// The base an alias is built from (see `alias_basename`).
pub fn alias_basename_of(filename: &str) -> (r: Vec<char>)
    ensures
        r@ == alias_basename(filename@),
{
    let v = chars_of(filename);
    let name = after_last_separator_of(&v);
    let base = trim_of(&name);
    if base.len() == 0 {
        let mut d: Vec<char> = Vec::new();
        d.push('f');
        d.push('i');
        d.push('l');
        d.push('e');
        assert(d@ =~= default_basename());
        d
    } else {
        base
    }
}

/// Numbered alias `number` built from `base`.
fn suffixed_candidate(base: &[char], number: u64) -> (r: String)
    requires
        1 <= number <= MAX_ALIAS_SUFFIX,
    ensures
        r@ == fit_prefix(base@, (ALIAS_MAX_BYTES - alias_suffix(number as nat).len()) as nat)
            + alias_suffix(number as nat),
{
    let digits = decimal_text(number);
    proof {
        lemma_decimal_len(number as nat);
    }
    let digit_chars = chars_of(digits.as_str());
    let suffix_len = digit_chars.len() + 1;
    let k = fit_len(base, ALIAS_MAX_BYTES - suffix_len);
    let mut r = string_of(&copy_range(base, 0, k));
    push_char(&mut r, '-');
    push_chars(&mut r, &digit_chars);
    proof {
        assert(base@.subrange(0, k as int) =~= base@.take(k as int));
        assert(r@ =~= fit_prefix(
            base@,
            (ALIAS_MAX_BYTES - alias_suffix(number as nat).len()) as nat,
        ) + alias_suffix(number as nat));
    }
    r
}

/// `chrono::DateTime::<Utc>::from_timestamp(secs, nanos)` formatted with
/// `format(pattern).to_string()`, or `None` where `from_timestamp` has no
/// such time. The text itself is not stated: it is the name
/// `utc_timestamp_text`. `to_string` panics when a pattern item fails to
/// format; `requires` admits only patterns whose items never fail for a UTC
/// date and time. Also stated: `from_timestamp` has a time for every
/// second within `TIME_RANGE_SECS` of the epoch (its dates reach the years
/// -262142 to 262142) and every nanosecond below one second; and with the
/// alias pattern, which prints year, month, day, hour, minute, second and
/// the nine-digit nanosecond, two different instants never print alike.
#[verifier::external_body]
fn format_utc_timestamp(secs: i64, nanos: u32, pattern: &str) -> (text: Option<String>)
    requires
        plain_time_pattern(pattern@),
    ensures
        match text {
            Some(t) => utc_timestamp_text(secs, nanos, pattern@) == Some(t@),
            None => utc_timestamp_text(secs, nanos, pattern@) is None,
        },
        nanos < 1_000_000_000 && -TIME_RANGE_SECS <= secs <= TIME_RANGE_SECS ==> text is Some,
        pattern@ == alias_time_pattern() && nanos < 1_000_000_000 ==> (text matches Some(t)
            ==> forall|s2: i64, n2: u32|
            #![trigger utc_timestamp_text(s2, n2, pattern@)]
            n2 < 1_000_000_000 && (s2 != secs || n2 != nanos) ==> utc_timestamp_text(
                s2,
                n2,
                pattern@,
            ) != Some(t@)),
{
    match chrono::DateTime::from_timestamp(secs, nanos) {
        Some(time) => Some(time.format(pattern).to_string()),
        None => None,
    }
}

/// The time since the Unix epoch as whole seconds and nanoseconds, read from
/// the system clock by `SystemTime::elapsed` on `UNIX_EPOCH` (what
/// `chrono::Utc::now` reads, without its panic); `None` when the clock lies
/// before the epoch. The value depends on the clock: only that the
/// nanoseconds stay below one second is stated.
#[verifier::external_body]
fn time_since_epoch() -> (now: Option<(u64, u32)>)
    ensures
        now matches Some(t) ==> t.1 < 1_000_000_000,
{
    match std::time::UNIX_EPOCH.elapsed() {
        Ok(d) => Some((d.as_secs(), d.subsec_nanos())),
        Err(_) => None,
    }
}

proof fn lemma_alias_time_pattern_is_plain()
    ensures
        plain_time_pattern(alias_time_pattern()),
{
    reveal_strlit("%Y%m%dT%H%M%S%.9fZ");
    let p = alias_time_pattern();
    assert(p.len() == 18);
    assert forall|i: int| 0 <= i < p.len() && #[trigger] p[i] == '%' implies {
        ||| (i + 1 < p.len() && (p[i + 1] == 'Y' || p[i + 1] == 'm' || p[i + 1] == 'd' || p[i + 1]
            == 'H' || p[i + 1] == 'M' || p[i + 1] == 'S'))
        ||| (i + 3 < p.len() && p[i + 1] == '.' && p[i + 2] == '9' && p[i + 3] == 'f')
    } by {
        assert(i == 0 || i == 2 || i == 4 || i == 7 || i == 9 || i == 11 || i == 13);
    }
}

/// The plain alias, else the first free numbered one (see `fixed_choice`).
fn fixed_alias(filename: &str, used: &[String]) -> (r: Option<String>)
    ensures
        match r {
            Some(a) => fixed_choice(filename@, texts(used@)) == Some(a@),
            None => fixed_choice(filename@, texts(used@)) is None,
        },
{
    let ghost names = texts(used@);
    let base = alias_basename_of(filename);
    let k = fit_len(&base, ALIAS_MAX_BYTES);
    let fitted = copy_range(&base, 0, k);
    let plain = string_of(&trim_end_of(&fitted));
    proof {
        assert(base@.subrange(0, k as int) =~= base@.take(k as int));
    }
    assert(plain@ == plain_alias(filename@));
    if !contains_text(used, &plain) {
        return Some(plain);
    }
    let mut number: u64 = 1;
    while number <= MAX_ALIAS_SUFFIX
        invariant
            1 <= number <= MAX_ALIAS_SUFFIX + 1,
            base@ == alias_basename(filename@),
            names == texts(used@),
            is_used(names, plain_alias(filename@)),
            first_free_suffixed(filename@, names, 1) == first_free_suffixed(
                filename@,
                names,
                number as nat,
            ),
        decreases MAX_ALIAS_SUFFIX + 1 - number,
    {
        let candidate = suffixed_candidate(&base, number);
        assert(candidate@ == suffixed_alias(filename@, number as nat));
        if !contains_text(used, &candidate) {
            return Some(candidate);
        }
        number = number + 1;
    }
    assert(first_free_suffixed(filename@, names, number as nat) is None);
    None
}

/// The time `ticks` nanoseconds after `(secs, nanos)` is `ticks`
/// nanoseconds later, and no more than `ticks` seconds.
proof fn lemma_after_ticks(secs: int, nanos: int, ticks: nat)
    requires
        0 <= nanos < 1_000_000_000,
    ensures
        0 <= after_ticks(secs, nanos, ticks).1 < 1_000_000_000,
        after_ticks(secs, nanos, ticks).0 * 1_000_000_000 + after_ticks(secs, nanos, ticks).1
            == secs * 1_000_000_000 + nanos + ticks,
        secs <= after_ticks(secs, nanos, ticks).0 <= secs + ticks,
    decreases ticks,
{
    if ticks > 0 {
        lemma_after_ticks(secs, nanos, (ticks - 1) as nat);
    }
}

/// The instant `ticks` nanoseconds after `(secs, nanos)` exists as an
/// `i64`/`u32` pair and prints as `text` with the alias pattern.
pub open spec fn prints_at(secs: int, nanos: int, ticks: int, text: Seq<char>) -> bool {
    let (s, n) = after_ticks(secs, nanos, ticks as nat);
    &&& i64::MIN <= s <= i64::MAX
    &&& 0 <= n < 1_000_000_000
    &&& utc_timestamp_text(s as i64, n as u32, alias_time_pattern()) == Some(text)
}

/// Distinct texts all found among `used` are no more than `used` holds.
proof fn lemma_distinct_among(seen: Seq<Seq<char>>, used: Seq<Seq<char>>)
    requires
        seen.no_duplicates(),
        forall|i: int| 0 <= i < seen.len() ==> used.contains(#[trigger] seen[i]),
    ensures
        seen.len() <= used.len(),
{
    broadcast use vstd::seq_lib::seq_to_set_is_finite;
    seen.unique_seq_to_set();
    used.lemma_cardinality_of_set();
    assert(seen.to_set().subset_of(used.to_set())) by {
        assert forall|x: Seq<char>| seen.to_set().contains(x) implies used.to_set().contains(x) by {
            assert(seen.contains(x));
            let i = choose|i: int| 0 <= i < seen.len() && seen[i] == x;
            assert(used.contains(seen[i]));
        }
    }
    vstd::set_lib::lemma_len_subset(seen.to_set(), used.to_set());
}

/// The first free timestamp alias from time `(secs, nanos)` on, one
/// nanosecond later for each collision (see `first_free_timestamp`). Since
/// different instants give different texts, some instant among the
/// `used.len() + 1` tried is free: there is always one while those
/// instants lie within `TIME_RANGE_SECS` of the epoch.
fn timestamp_alias(used: &[String], secs: i64, nanos: u32) -> (r: Option<String>)
    requires
        nanos < 1_000_000_000,
    ensures
        match r {
            Some(a) => first_free_timestamp(texts(used@), secs as int, nanos as int, 0, used@.len())
                == Some(a@),
            None => first_free_timestamp(texts(used@), secs as int, nanos as int, 0, used@.len()) is None,
        },
        -TIME_RANGE_SECS <= secs && secs + used@.len() <= TIME_RANGE_SECS ==> r is Some,
{
    let ghost names = texts(used@);
    let ghost pat = alias_time_pattern();
    let ghost mut seen: Seq<Seq<char>> = Seq::empty();
    proof {
        lemma_alias_time_pattern_is_plain();
    }
    let mut s = secs;
    let mut n = nanos;
    let mut tick: usize = 0;
    loop
        invariant
            tick <= used.len(),
            n < 1_000_000_000,
            nanos < 1_000_000_000,
            names == texts(used@),
            names.len() == used@.len(),
            pat == alias_time_pattern(),
            plain_time_pattern(pat),
            after_ticks(secs as int, nanos as int, tick as nat) == (s as int, n as int),
            secs <= s <= secs + tick,
            first_free_timestamp(names, secs as int, nanos as int, 0, used@.len())
                == first_free_timestamp(
                names,
                secs as int,
                nanos as int,
                tick as nat,
                (used@.len() - tick) as nat,
            ),
            seen.len() == tick,
            seen.no_duplicates(),
            forall|j: int| 0 <= j < tick ==> names.contains(#[trigger] seen[j]),
            forall|j: int| 0 <= j < tick ==> prints_at(secs as int, nanos as int, j, #[trigger] seen[j]),
        decreases used.len() - tick,
    {
        let pattern = "%Y%m%dT%H%M%S%.9fZ";
        assert(pattern@ == alias_time_pattern());
        let text = format_utc_timestamp(s, n, pattern);
        let ghost rem = (used@.len() - tick) as nat;
        assert(first_free_timestamp(names, secs as int, nanos as int, tick as nat, rem) == (
        match utc_timestamp_text(s, n, alias_time_pattern()) {
            None => None,
            Some(t) => if !is_used(names, t) {
                Some(t)
            } else if rem == 0 {
                None
            } else {
                first_free_timestamp(names, secs as int, nanos as int, (tick + 1) as nat, (rem - 1) as nat)
            },
        }));
        match text {
            None => {
                return None;
            },
            Some(t) => {
                if !contains_text(used, &t) {
                    return Some(t);
                }
                proof {
                    lemma_after_ticks(secs as int, nanos as int, tick as nat);
                    assert forall|j: int| 0 <= j < tick implies seen[j] != t@ by {
                        let (sj, nj) = after_ticks(secs as int, nanos as int, j as nat);
                        lemma_after_ticks(secs as int, nanos as int, j as nat);
                        assert(prints_at(secs as int, nanos as int, j, seen[j]));
                        assert(utc_timestamp_text(sj as i64, nj as u32, pat) == Some(seen[j]));
                        assert(sj * 1_000_000_000 + nj != s * 1_000_000_000 + n);
                        assert(sj as i64 != s || nj as u32 != n);
                    }
                    let old_seen = seen;
                    seen = seen.push(t@);
                    assert forall|a: int, b: int| 0 <= a < seen.len() && 0 <= b < seen.len() && a
                        != b implies seen[a] != seen[b] by {
                        if a < tick && b < tick {
                            assert(old_seen[a] != old_seen[b]);
                        }
                    }
                    assert(seen[tick as int] == t@);
                    assert(names.contains(t@));
                    assert forall|j: int| 0 <= j < tick + 1 implies prints_at(
                        secs as int,
                        nanos as int,
                        j,
                        #[trigger] seen[j],
                    ) by {
                        if j < tick {
                            assert(seen[j] == old_seen[j]);
                        }
                    }
                }
            },
        }
        if tick == used.len() {
            proof {
                lemma_distinct_among(seen, names);
                assert(false);
            }
            return None;
        }
        assert(after_ticks(secs as int, nanos as int, (tick + 1) as nat) == next_nanosecond(
            s as int,
            n as int,
        ));
        if n + 1 >= 1_000_000_000 {
            if s == i64::MAX {
                return None;
            }
            s = s + 1;
            n = 0;
        } else {
            n = n + 1;
        }
        tick = tick + 1;
    }
}

/// The first free alias for `filename` given the aliases in `used` and the
/// time `(secs, nanos)` (see `chosen_alias`). There always is one while the
/// instants tried lie within `TIME_RANGE_SECS` of the epoch: the timestamp
/// aliases of `used.len() + 1` different instants are all different, so not
/// all of them are used.
pub fn available_alias_at(filename: &str, used: &[String], secs: i64, nanos: u32) -> (r: Option<
    String,
>)
    requires
        nanos < 1_000_000_000,
    ensures
        match r {
            Some(a) => chosen_alias(filename@, texts(used@), secs as int, nanos as int) == Some(a@),
            None => chosen_alias(filename@, texts(used@), secs as int, nanos as int) is None,
        },
        -TIME_RANGE_SECS <= secs && secs + used@.len() <= TIME_RANGE_SECS ==> r is Some,
{
    match fixed_alias(filename, used) {
        Some(a) => Some(a),
        None => timestamp_alias(used, secs, nanos),
    }
}

/// The first free alias for `filename` now (see `fixed_choice`): the plain
/// alias or the first free numbered one whenever one is free; otherwise a
/// free timestamp alias of the current time (see `available_alias_at`, which
/// always finds one within `TIME_RANGE_SECS` of the epoch). `None` only when
/// the clock cannot be read or lies beyond that range.
pub fn available_alias(filename: &str, used: &[String]) -> (r: Option<String>)
    ensures
        match fixed_choice(filename@, texts(used@)) {
            Some(a) => (r matches Some(x) && x@ == a),
            None => (r matches Some(x) ==> exists|secs: int, nanos: int|
                first_free_timestamp(texts(used@), secs, nanos, 0, used@.len()) == Some(x@)),
        },
        r matches Some(a) ==> !is_used(texts(used@), a@),
{
    proof {
        lemma_first_free_suffixed_is_free(filename@, texts(used@), 1);
    }
    match fixed_alias(filename, used) {
        Some(a) => Some(a),
        None => match time_since_epoch() {
            None => None,
            Some((secs, nanos)) => {
                if secs > i64::MAX as u64 {
                    return None;
                }
                let r = timestamp_alias(used, secs as i64, nanos);
                proof {
                    lemma_first_free_timestamp_is_free(
                        texts(used@),
                        secs as int,
                        nanos as int,
                        0,
                        used@.len(),
                    );
                }
                r
            },
        },
    }
}

proof fn lemma_first_free_suffixed_is_free(filename: Seq<char>, used: Seq<Seq<char>>, number: nat)
    ensures
        first_free_suffixed(filename, used, number) matches Some(a) ==> !is_used(used, a),
    decreases MAX_ALIAS_SUFFIX + 1 - number,
{
    if number <= MAX_ALIAS_SUFFIX && is_used(used, suffixed_alias(filename, number)) {
        lemma_first_free_suffixed_is_free(filename, used, number + 1);
    }
}

proof fn lemma_first_free_timestamp_is_free(
    used: Seq<Seq<char>>,
    secs: int,
    nanos: int,
    start: nat,
    remaining: nat,
)
    ensures
        first_free_timestamp(used, secs, nanos, start, remaining) matches Some(a) ==> !is_used(
            used,
            a,
        ),
    decreases remaining,
{
    if remaining > 0 {
        lemma_first_free_timestamp_is_free(used, secs, nanos, start + 1, (remaining - 1) as nat);
    }
}

/// Whatever alias is chosen, no entry in `used` holds it.
pub proof fn lemma_chosen_alias_is_free(filename: Seq<char>, used: Seq<Seq<char>>, secs: int, nanos: int)
    ensures
        chosen_alias(filename, used, secs, nanos) matches Some(a) ==> !is_used(used, a),
        chosen_alias(filename, used, secs, nanos) is None ==> is_used(used, plain_alias(filename)),
{
    lemma_first_free_suffixed_is_free(filename, used, 1);
    lemma_first_free_timestamp_is_free(used, secs, nanos, 0, used.len());
}

/// The aliases handed out in `r`, in order.
pub open spec fn assigned_texts(r: Seq<Option<String>>) -> Seq<Seq<char>>
    decreases r.len(),
{
    if r.len() == 0 {
        seq![]
    } else {
        match r.last() {
            Some(a) => assigned_texts(r.drop_last()).push(a@),
            None => assigned_texts(r.drop_last()),
        }
    }
}

/// The aliases taken when entry `i` is assigned: `used`, then those
/// assigned to the entries before it.
pub open spec fn taken_before(used: Seq<String>, r: Seq<Option<String>>, i: int) -> Seq<Seq<char>> {
    texts(used) + assigned_texts(r.take(i))
}

/// Aliases for catalog entries that have none, given the aliases `used`
/// already: entry `i` of the result is the alias `available_alias` chooses
/// for `filenames[i]` against the used aliases and those chosen before it.
/// An entry gets its plain alias, else its first free numbered alias,
/// whenever one is free; otherwise a free timestamp alias, or `None` when
/// none is free or the clock cannot be read.
pub fn assign_aliases(filenames: &[String], used: &[String]) -> (r: Vec<Option<String>>)
    ensures
        r.len() == filenames.len(),
        forall|i: int|
            0 <= i < r.len() ==> match fixed_choice(
                #[trigger] filenames@[i]@,
                taken_before(used@, r@, i),
            ) {
                Some(a) => (r@[i] matches Some(x) && x@ == a),
                None => (r@[i] matches Some(x) ==> exists|secs: int, nanos: int|
                    first_free_timestamp(
                        taken_before(used@, r@, i),
                        secs,
                        nanos,
                        0,
                        taken_before(used@, r@, i).len(),
                    ) == Some(x@)),
            },
        forall|i: int|
            0 <= i < r.len() ==> (#[trigger] r@[i] matches Some(a) ==> !is_used(texts(used@), a@)),
        forall|i: int, j: int|
            0 <= i < r.len() && 0 <= j < r.len() && i != j ==> (#[trigger] r@[i] matches Some(a) ==> (
            #[trigger] r@[j] matches Some(b) ==> a@ != b@)),
{
    let mut taken: Vec<String> = Vec::new();
    let mut k: usize = 0;
    while k < used.len()
        invariant
            k <= used.len(),
            texts(taken@) == texts(used@).take(k as int),
        decreases used.len() - k,
    {
        let ghost before = taken@;
        taken.push(used[k].clone());
        assert(texts(taken@) =~= texts(before).push(used@[k as int]@));
        assert(texts(used@).take(k + 1) =~= texts(used@).take(k as int).push(used@[k as int]@));
        k += 1;
    }
    assert(texts(used@).take(k as int) =~= texts(used@));
    let mut r: Vec<Option<String>> = Vec::new();
    let mut i: usize = 0;
    while i < filenames.len()
        invariant
            i <= filenames.len(),
            r.len() == i,
            texts(taken@) == texts(used@) + assigned_texts(r@),
            forall|j: int|
                0 <= j < i ==> match fixed_choice(
                    #[trigger] filenames@[j]@,
                    taken_before(used@, r@, j),
                ) {
                    Some(a) => (r@[j] matches Some(x) && x@ == a),
                    None => (r@[j] matches Some(x) ==> exists|secs: int, nanos: int|
                        first_free_timestamp(
                            taken_before(used@, r@, j),
                            secs,
                            nanos,
                            0,
                            taken_before(used@, r@, j).len(),
                        ) == Some(x@)),
                },
            forall|x: Seq<char>| texts(used@).contains(x) ==> #[trigger] texts(taken@).contains(x),
            forall|j: int| 0 <= j < i ==> (#[trigger] r@[j] matches Some(a) ==> texts(taken@).contains(
                a@,
            )),
            forall|j: int| 0 <= j < i ==> (#[trigger] r@[j] matches Some(a) ==> !is_used(texts(used@), a@)),
            forall|j: int, l: int|
                0 <= j < i && 0 <= l < i && j != l ==> (#[trigger] r@[j] matches Some(a) ==> (
                #[trigger] r@[l] matches Some(b) ==> a@ != b@)),
        decreases filenames.len() - i,
    {
        let chosen = available_alias(filenames[i].as_str(), taken.as_slice());
        let ghost r0 = r@;
        assert(r0.take(i as int) =~= r0);
        assert(taken_before(used@, r0, i as int) == texts(taken@));
        match chosen {
            Some(a) => {
                let ghost before = taken@;
                taken.push(a.clone());
                assert(texts(taken@) =~= texts(before).push(a@));
                assert forall|x: Seq<char>| texts(before).contains(x) implies #[trigger] texts(
                    taken@,
                ).contains(x) by {
                    vstd::seq_lib::lemma_seq_contains_after_push(texts(before), a@, x);
                }
                assert(texts(taken@).contains(a@)) by {
                    vstd::seq_lib::lemma_seq_contains_after_push(texts(before), a@, a@);
                }
                r.push(Some(a));
                assert(r@.drop_last() =~= r0);
            },
            None => {
                r.push(None);
                assert(r@.drop_last() =~= r0);
            },
        }
        assert forall|j: int| 0 <= j <= i implies #[trigger] r@.take(j) == r0.take(j) by {
            assert(r@.take(j) =~= r0.take(j));
        }
        assert forall|j: int| 0 <= j <= i implies #[trigger] taken_before(used@, r@, j)
            == taken_before(used@, r0, j) by {
            assert(r@.take(j) == r0.take(j));
        }
        i += 1;
    }
    r
}

} // verus!
