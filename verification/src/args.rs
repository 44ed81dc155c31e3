use vstd::prelude::*;
use vstd::string::StringExecFns;

use crate::text::{chars_of, views};

verus! {

broadcast use vstd::string::group_string_axioms;

/// The argument that follows the first occurrence of `flag` in `args`, if
/// that occurrence is not the last argument.
pub open spec fn value_after(args: Seq<Seq<char>>, flag: Seq<char>) -> Option<Seq<char>>
    decreases args.len(),
{
    if args.len() < 2 {
        None
    } else if args[0] == flag {
        Some(args[1])
    } else {
        value_after(args.drop_first(), flag)
    }
}

/// The option `-needle`.
pub open spec fn option_flag(needle: Seq<char>) -> Seq<char> {
    "-"@ + needle
}

/// Law: when the first `flag` among the arguments that have a successor is
/// at `j`, the value after `flag` is the argument at `j + 1`.
pub proof fn law_value_after_first_flag(args: Seq<Seq<char>>, flag: Seq<char>, j: int)
    requires
        0 <= j,
        j + 1 < args.len(),
        args[j] == flag,
        forall|k: int| 0 <= k < j ==> args[k] != flag,
    ensures
        value_after(args, flag) == Some(args[j + 1]),
    decreases j,
{
    if j > 0 {
        assert(args[0] != flag);
        law_value_after_first_flag(args.drop_first(), flag, j - 1);
    }
}

/// Law: when no argument that has a successor is `flag`, there is no value
/// after `flag`.
pub proof fn law_value_after_absent(args: Seq<Seq<char>>, flag: Seq<char>)
    requires
        forall|j: int| 0 <= j && j + 1 < args.len() ==> args[j] != flag,
    ensures
        value_after(args, flag) is None,
    decreases args.len(),
{
    if args.len() >= 2 {
        assert(args[0] != flag);
        let rest = args.drop_first();
        assert forall|j: int| 0 <= j && j + 1 < rest.len() implies rest[j] != flag by {
            assert(rest[j] == args[j + 1]);
        }
        law_value_after_absent(rest, flag);
    }
}

/// Returns the argument that follows the first `-needle` in `args`, or
/// `None` when `-needle` is absent or only the last argument.
pub fn check_single(needle: &str, args: &Vec<String>) -> (res: Option<String>)
    ensures
        res matches Some(v) ==> exists|j: int|
            0 <= j && j + 1 < args@.len() && #[trigger] args@[j]@ == "-"@ + needle@ && (forall|
                k: int,
            |
                0 <= k < j ==> args@[k]@ != "-"@ + needle@) && v@ == args@[j + 1]@,
        res is None <==> forall|j: int|
            0 <= j && j + 1 < args@.len() ==> #[trigger] args@[j]@ != "-"@ + needle@,
        res matches Some(v) ==> value_after(views(args@), option_flag(needle@)) == Some(v@),
        res is None ==> value_after(views(args@), option_flag(needle@)) is None,
{
    let flag = String::from_str("-").concat(needle);
    let ghost all = views(args@);
    let mut i: usize = 0;
    while i < args.len() && i + 1 < args.len()
        invariant
            all == views(args@),
            flag@ == "-"@ + needle@,
            i <= args@.len(),
            forall|k: int| 0 <= k < i ==> #[trigger] args@[k]@ != "-"@ + needle@,
        decreases args@.len() - i,
    {
        if args[i] == flag {
            proof {
                assert forall|k: int| 0 <= k < i implies all[k] != flag@ by {
                    assert(all[k] == args@[k]@);
                }
                law_value_after_first_flag(all, flag@, i as int);
            }
            return Some(args[i + 1].clone());
        }
        i += 1;
    }
    proof {
        assert forall|j: int| 0 <= j && j + 1 < all.len() implies all[j] != flag@ by {
            assert(all[j] == args@[j]@);
        }
        law_value_after_absent(all, flag@);
    }
    None
}

/// Whether some argument is exactly `wanted`.
pub fn has_argument(args: &Vec<String>, wanted: &str) -> (b: bool)
    ensures
        b == exists|i: int| 0 <= i < args@.len() && #[trigger] args@[i]@ == wanted@,
{
    let target = String::from_str(wanted);
    let mut i: usize = 0;
    while i < args.len()
        invariant
            target@ == wanted@,
            i <= args@.len(),
            forall|j: int| 0 <= j < i ==> #[trigger] args@[j]@ != wanted@,
        decreases args@.len() - i,
    {
        if args[i] == target {
            return true;
        }
        i += 1;
    }
    false
}

/// The decimal digits of a count: the text without one leading `+`.
pub open spec fn count_digits(s: Seq<char>) -> Seq<char> {
    if s.len() > 0 && s[0] == '+' {
        s.drop_first()
    } else {
        s
    }
}

/// Whether `c` is an ASCII decimal digit.
pub open spec fn is_digit(c: char) -> bool {
    '0' <= c && c <= '9'
}

/// The number that a string of decimal digits writes.
pub open spec fn digits_value(s: Seq<char>) -> int
    decreases s.len(),
{
    if s.len() == 0 {
        0
    } else {
        digits_value(s.drop_last()) * 10 + (s.last() as int - '0' as int)
    }
}

/// Whether `s` writes a count: an optional `+` followed by at least one
/// decimal digit, and nothing else.
pub open spec fn is_count_text(s: Seq<char>) -> bool {
    &&& count_digits(s).len() > 0
    &&& forall|i: int| 0 <= i < count_digits(s).len() ==> is_digit(#[trigger] count_digits(s)[i])
}

proof fn lemma_digits_value_nonneg(s: Seq<char>)
    requires
        forall|i: int| 0 <= i < s.len() ==> is_digit(#[trigger] s[i]),
    ensures
        digits_value(s) >= 0,
    decreases s.len(),
{
    if s.len() > 0 {
        lemma_digits_value_nonneg(s.drop_last());
    }
}

/// The value of a string of digits is at least that of any of its prefixes.
proof fn lemma_digits_value_prefix(s: Seq<char>, k: int)
    requires
        0 <= k <= s.len(),
        forall|i: int| 0 <= i < s.len() ==> is_digit(#[trigger] s[i]),
    ensures
        digits_value(s.take(k)) <= digits_value(s),
    decreases s.len(),
{
    if k < s.len() {
        assert(s.drop_last().take(k) =~= s.take(k));
        lemma_digits_value_prefix(s.drop_last(), k);
        lemma_digits_value_nonneg(s.drop_last());
    } else {
        assert(s.take(k) =~= s);
    }
}

/// Being a count is having a nonempty run of ASCII digits after the
/// optional `+`.
proof fn lemma_count_text_digits(s: Seq<char>)
    ensures
        (s.len() > 0 && s[0] == '+') ==> (is_count_text(s) <==> (s.len() > 1 && forall|i: int|
            1 <= i < s.len() ==> '0' <= #[trigger] s[i] <= '9')),
        (s.len() > 0 && s[0] == '+') ==> count_digits(s) == s.drop_first(),
        !(s.len() > 0 && s[0] == '+') ==> (is_count_text(s) <==> (s.len() > 0 && forall|i: int|
            0 <= i < s.len() ==> '0' <= #[trigger] s[i] <= '9')),
        !(s.len() > 0 && s[0] == '+') ==> count_digits(s) == s,
{
    let d = count_digits(s);
    if s.len() > 0 && s[0] == '+' {
        if is_count_text(s) {
            assert forall|i: int| 1 <= i < s.len() implies '0' <= #[trigger] s[i] <= '9' by {
                assert(is_digit(d[i - 1]));
            }
        }
        if s.len() > 1 && forall|i: int| 1 <= i < s.len() ==> '0' <= #[trigger] s[i] <= '9' {
            assert forall|i: int| 0 <= i < d.len() implies is_digit(#[trigger] d[i]) by {
                assert('0' <= s[i + 1] <= '9');
            }
        }
    } else {
        if is_count_text(s) {
            assert forall|i: int| 0 <= i < s.len() implies '0' <= #[trigger] s[i] <= '9' by {
                assert(is_digit(d[i]));
            }
        }
        if s.len() > 0 && forall|i: int| 0 <= i < s.len() ==> '0' <= #[trigger] s[i] <= '9' {
            assert forall|i: int| 0 <= i < d.len() implies is_digit(#[trigger] d[i]) by {
                assert('0' <= s[i] <= '9');
            }
        }
    }
}

/// Reads a count of periods as `usize::from_str` does: an optional `+`,
/// then decimal digits, with a value that fits in `usize`.
pub fn parse_count(s: &str) -> (res: Option<usize>)
    ensures
        res matches Some(v) ==> is_count_text(s@) && v == digits_value(count_digits(s@)),
        res is None ==> !(is_count_text(s@) && digits_value(count_digits(s@)) <= usize::MAX),
        (s@.len() > 0 && s@[0] == '+') ==> ((s@.len() > 1 && (forall|i: int|
            1 <= i < s@.len() ==> '0' <= #[trigger] s@[i] <= '9') && digits_value(s@.drop_first())
            <= usize::MAX) <==> res == Some(digits_value(s@.drop_first()) as usize)),
        !(s@.len() > 0 && s@[0] == '+') ==> ((s@.len() > 0 && (forall|i: int|
            0 <= i < s@.len() ==> '0' <= #[trigger] s@[i] <= '9') && digits_value(s@) <= usize::MAX)
            <==> res == Some(digits_value(s@) as usize)),
{
    proof {
        lemma_count_text_digits(s@);
    }
    let v = chars_of(s);
    let mut k: usize = 0;
    if v.len() > 0 && v[0] == '+' {
        k = 1;
    }
    let ghost d = count_digits(s@);
    assert(d =~= v@.skip(k as int));
    if k == v.len() {
        return None;
    }
    let start = k;
    let mut acc: usize = 0;
    assert(d.take(0) =~= Seq::<char>::empty());
    while k < v.len()
        invariant
            v@ == s@,
            d == v@.skip(start as int),
            d == count_digits(s@),
            start < v@.len(),
            start <= k <= v@.len(),
            acc == digits_value(d.take(k - start)),
            forall|i: int| 0 <= i < k - start ==> is_digit(#[trigger] d[i]),
        decreases v@.len() - k,
    {
        let c = v[k];
        assert(c == d[k - start]);
        if !('0' <= c && c <= '9') {
            assert(!is_digit(count_digits(s@)[k - start]));
            return None;
        }
        let digit = (c as u32 - '0' as u32) as usize;
        assert(d.take(k - start + 1).drop_last() =~= d.take(k - start));
        assert(digits_value(d.take(k - start + 1)) == acc * 10 + digit);
        let next = match acc.checked_mul(10) {
            Some(t) => t.checked_add(digit),
            None => None,
        };
        match next {
            Some(n) => {
                acc = n;
            },
            None => {
                proof {
                    if is_count_text(s@) {
                        assert forall|i: int| 0 <= i < d.len() implies is_digit(#[trigger] d[i]) by {
                            assert(is_digit(count_digits(s@)[i]));
                        }
                        lemma_digits_value_prefix(d, k - start + 1);
                    }
                }
                return None;
            },
        }
        k += 1;
    }
    assert(d.take(k - start) =~= d);
    Some(acc)
}

/// What the program was asked to do.
pub struct Settings {
    /// The zip code whose weather is shown.
    pub zip_code: String,
    /// How many forecast periods are shown.
    pub forecast_periods: usize,
}

/// How the command line asks the program to run.
pub enum Invocation {
    /// `--help` was given: show the usage and stop.
    Help,
    /// Show the weather with these settings.
    Run(Settings),
    /// The text after `-p` is not a count.
    BadPeriodCount(String),
}

/// The zip code used when neither the arguments nor the environment give one.
pub open spec fn default_zip() -> Seq<char> {
    "89145"@
}

/// The number of forecast periods shown when `-p` is not given.
pub open spec fn default_periods() -> usize {
    3
}

/// The zip code chosen from the environment's `WEATHER_RS_ZIP` and the
/// arguments: `-z` wins over the environment, which wins over the default.
pub open spec fn chosen_zip(env_zip: Option<Seq<char>>, args: Seq<Seq<char>>) -> Seq<char> {
    match value_after(args, option_flag("z"@)) {
        Some(code) => code,
        None => match env_zip {
            Some(code) => code,
            None => default_zip(),
        },
    }
}

/// Reads the command line `args` (the program's name first) together with the
/// value of `WEATHER_RS_ZIP`, if it is set.
pub fn read_invocation(env_zip: Option<String>, args: &Vec<String>) -> (inv: Invocation)
    ensures
        (exists|i: int| 0 <= i < args@.len() && #[trigger] args@[i]@ == "--help"@) <==> inv is Help,
        inv matches Invocation::Run(settings) ==> {
            &&& settings.zip_code@ == chosen_zip(
                match env_zip {
                    Some(z) => Some(z@),
                    None => None,
                },
                views(args@),
            )
            &&& match value_after(views(args@), option_flag("p"@)) {
                Some(text) => is_count_text(text) && settings.forecast_periods == digits_value(
                    count_digits(text),
                ),
                None => settings.forecast_periods == default_periods(),
            }
        },
        inv matches Invocation::Run(settings) ==> {
            &&& (forall|j: int|
                0 <= j && j + 1 < args@.len() ==> #[trigger] args@[j]@ != "-"@ + "z"@)
                ==> settings.zip_code@ == match env_zip {
                Some(z) => z@,
                None => "89145"@,
            }
            &&& forall|j: int|
                0 <= j && j + 1 < args@.len() && #[trigger] args@[j]@ == "-"@ + "z"@ && (forall|
                    k: int,
                |
                    0 <= k < j ==> args@[k]@ != "-"@ + "z"@) ==> settings.zip_code@ == args@[j
                    + 1]@
            &&& (forall|j: int|
                0 <= j && j + 1 < args@.len() ==> #[trigger] args@[j]@ != "-"@ + "p"@)
                ==> settings.forecast_periods == 3
            &&& forall|j: int|
                0 <= j && j + 1 < args@.len() && #[trigger] args@[j]@ == "-"@ + "p"@ && (forall|
                    k: int,
                |
                    0 <= k < j ==> args@[k]@ != "-"@ + "p"@) ==> settings.forecast_periods
                    == digits_value(count_digits(args@[j + 1]@))
        },
        inv matches Invocation::BadPeriodCount(text) ==> {
            &&& value_after(views(args@), option_flag("p"@)) == Some(text@)
            &&& !(is_count_text(text@) && digits_value(count_digits(text@)) <= usize::MAX)
        },
        !(inv is Help) ==> (inv is BadPeriodCount <==> (value_after(views(args@), option_flag("p"@))
            matches Some(text) && !(is_count_text(text) && digits_value(count_digits(text))
            <= usize::MAX))),
{
    if has_argument(args, "--help") {
        return Invocation::Help;
    }
    let zip_code = match check_single("z", args) {
        Some(code) => code,
        None => match env_zip {
            Some(code) => code,
            None => String::from_str("89145"),
        },
    };
    let forecast_periods = match check_single("p", args) {
        Some(text) => match parse_count(text.as_str()) {
            Some(n) => n,
            None => return Invocation::BadPeriodCount(text),
        },
        None => 3,
    };
    Invocation::Run(Settings { zip_code, forecast_periods })
}

/// Law: a zip code given with `-z` takes precedence over the environment.
pub proof fn law_arguments_override_environment(
    args: Seq<Seq<char>>,
    env_a: Option<Seq<char>>,
    env_b: Option<Seq<char>>,
)
    requires
        value_after(args, option_flag("z"@)) is Some,
    ensures
        chosen_zip(env_a, args) == chosen_zip(env_b, args),
        chosen_zip(env_a, args) == value_after(args, option_flag("z"@))->0,
{
}

/// The decimal digit of `d`, for `d` below ten.
pub open spec fn digit_char(d: nat) -> char {
    ((d + 48) as u32) as char
}

/// The decimal numeral of `n`, without sign or leading zeros.
pub open spec fn decimal(n: nat) -> Seq<char>
    decreases n,
{
    if n < 10 {
        seq![digit_char(n)]
    } else {
        decimal(n / 10).push(digit_char(n % 10))
    }
}

/// The numeral of `n` is a nonempty string of digits that writes `n`.
pub proof fn lemma_decimal(n: nat)
    ensures
        decimal(n).len() > 0,
        decimal(n)[0] != '+',
        forall|i: int| 0 <= i < decimal(n).len() ==> '0' <= #[trigger] decimal(n)[i] <= '9',
        digits_value(decimal(n)) == n,
    decreases n,
{
    if n >= 10 {
        lemma_decimal(n / 10);
        let t = decimal(n);
        assert(t.drop_last() =~= decimal(n / 10));
        assert((n / 10) * 10 + n % 10 == n) by (nonlinear_arith);
        assert(digit_char((n % 10) as nat) as int == n % 10 + 48);
        assert(t.last() == digit_char((n % 10) as nat));
        assert forall|i: int| 0 <= i < t.len() implies '0' <= #[trigger] t[i] <= '9' by {
            if i < t.len() - 1 {
                assert(t[i] == decimal(n / 10)[i]);
            }
        }
        assert(digits_value(t.drop_last()) == n / 10);
        assert('0' as int == 48);
        assert(digits_value(t) == digits_value(t.drop_last()) * 10 + (t.last() as int - 48));
        assert(digits_value(t) == n);
    } else {
        assert(decimal(n).drop_last() =~= Seq::<char>::empty());
        assert(digit_char(n) as int == n + 48);
        assert(decimal(n).last() == digit_char(n));
        assert(digits_value(decimal(n).drop_last()) == 0);
        assert(digits_value(decimal(n)) == digits_value(decimal(n).drop_last()) * 10 + (
        decimal(n).last() as int - '0' as int));
    }
}

/// Law: every string of one or more decimal digits, with or without one
/// leading `+`, is a count, and the count it writes is its digits' value,
/// zero and leading zeros included.
pub proof fn law_digit_strings_are_counts(s: Seq<char>)
    requires
        s.len() > 0,
        forall|i: int| 0 <= i < s.len() ==> '0' <= #[trigger] s[i] <= '9',
    ensures
        is_count_text(s),
        count_digits(s) == s,
        is_count_text(seq!['+'] + s),
        count_digits(seq!['+'] + s) == s,
{
    assert((seq!['+'] + s).drop_first() =~= s);
}

/// Law: the decimal numeral of every `n`, with or without one leading `+`,
/// is a count that writes `n`; so every count up to `usize::MAX` is read.
pub proof fn law_numerals_are_counts(n: nat)
    ensures
        is_count_text(decimal(n)),
        digits_value(count_digits(decimal(n))) == n,
        is_count_text(seq!['+'] + decimal(n)),
        digits_value(count_digits(seq!['+'] + decimal(n))) == n,
{
    lemma_decimal(n);
    law_digit_strings_are_counts(decimal(n));
}

/// Law: with no `-z` followed by a value among the arguments, the zip code
/// is the environment's when it is set, and 89145 only when it is not,
/// whatever else the arguments hold.
pub proof fn law_zip_without_flag(args: Seq<Seq<char>>, env_zip: Option<Seq<char>>)
    requires
        forall|j: int| 0 <= j && j + 1 < args.len() ==> args[j] != "-"@ + "z"@,
    ensures
        env_zip matches Some(z) ==> chosen_zip(env_zip, args) == z,
        env_zip is None ==> chosen_zip(env_zip, args) == "89145"@,
{
    law_value_after_absent(args, option_flag("z"@));
}

/// Law: with `-z` first followed by a value at `j`, the zip code is the
/// argument after it, whatever the environment holds.
pub proof fn law_zip_from_flag(args: Seq<Seq<char>>, env_zip: Option<Seq<char>>, j: int)
    requires
        0 <= j,
        j + 1 < args.len(),
        args[j] == "-"@ + "z"@,
        forall|k: int| 0 <= k < j ==> args[k] != "-"@ + "z"@,
    ensures
        chosen_zip(env_zip, args) == args[j + 1],
{
    law_value_after_first_flag(args, option_flag("z"@), j);
}

} // verus!
