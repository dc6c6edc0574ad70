//! Byte sizes as people write them (`500M`, `1G`, plain numbers), and how many nested archives
//! may be worked on at a time.

use crate::error::{Error, ErrorView, Result};
use crate::util::text;
use crate::util::text::{
    chars_of, concat3, ends_with, from_pos, only_digits, read_u64, string_of, to_lower, trimmed,
    up_to,
};
use vstd::prelude::*;

verus! {

/// How much nested archives that are worked on at a time may weigh together: 500 MiB.
pub const DEFAULT_NESTED_SIZE_BUDGET: u64 = 524_288_000;

/// What a number and a unit come to in bytes.
#[derive(Debug, Clone, Copy, PartialEq, Eq, Structural)]
pub enum SizeValue {
    /// The text is no number.
    NotANumber,
    /// The number is negative or not finite.
    OutOfRange,
    /// More bytes than fit a `u64`.
    TooLarge,
    /// A number of bytes.
    Bytes(u64),
}

/// The number in front of the unit, and the unit in bytes.
pub open spec fn size_parts(lower: Seq<char>) -> (Seq<char>, u64) {
    let cut3 = lower.take(lower.len() - 3);
    let cut2 = lower.take(lower.len() - 2);
    let cut1 = lower.take(lower.len() - 1);
    if text::ends(lower, "kib"@) {
        (cut3, 1024)
    } else if text::ends(lower, "mib"@) {
        (cut3, 1_048_576)
    } else if text::ends(lower, "gib"@) {
        (cut3, 1_073_741_824)
    } else if text::ends(lower, "kb"@) {
        (cut2, 1024)
    } else if text::ends(lower, "mb"@) {
        (cut2, 1_048_576)
    } else if text::ends(lower, "gb"@) {
        (cut2, 1_073_741_824)
    } else if text::ends(lower, "k"@) {
        (cut1, 1024)
    } else if text::ends(lower, "m"@) {
        (cut1, 1_048_576)
    } else if text::ends(lower, "g"@) {
        (cut1, 1_073_741_824)
    } else if text::ends(lower, "b"@) {
        (cut1, 1)
    } else {
        (lower, 1)
    }
}

/// The text of the number and the unit in bytes, or why there is no number.
pub open spec fn size_text(s: Seq<char>) -> std::result::Result<(Seq<char>, u64), ErrorView> {
    let whole = text::trim(s);
    let (num, unit) = size_parts(text::lower(whole));
    if whole.len() == 0 {
        Err(ErrorView::Other("empty size string"@))
    } else if text::trim(num).len() == 0 {
        Err(ErrorView::Other("missing number in size '"@ + whole + "'"@))
    } else {
        Ok((text::trim(num), unit))
    }
}

/// What a number without a fraction comes to: the number times the unit, or too large. `None`
/// where the text is no such number.
pub open spec fn whole_size(num: Seq<char>, unit: u64) -> Option<SizeValue> {
    match text::decimal(num) {
        Some(n) => Some(
            if n * unit <= u64::MAX {
                SizeValue::Bytes((n * unit) as u64)
            } else {
                SizeValue::TooLarge
            },
        ),
        None => None,
    }
}

/// What the number of a size comes to: a number without a fraction is multiplied exactly, and any
/// other comes to `fraction`.
pub open spec fn size_value(s: Seq<char>, fraction: SizeValue) -> SizeValue {
    match size_text(s) {
        Ok((num, unit)) => match whole_size(num, unit) {
            Some(v) => v,
            None => fraction,
        },
        Err(_) => fraction,
    }
}

/// What is answered for a size text. `fraction` is what its number comes to where it is not a
/// whole number.
pub open spec fn size_answer(s: Seq<char>, fraction: SizeValue) -> std::result::Result<
    u64,
    ErrorView,
> {
    let whole = text::trim(s);
    match size_value(s, fraction) {
        SizeValue::NotANumber => Err(
            ErrorView::Other("invalid size number in '"@ + whole + "'"@),
        ),
        SizeValue::OutOfRange => Err(ErrorView::Other("invalid size '"@ + whole + "'"@)),
        SizeValue::TooLarge => Err(ErrorView::Other("size too large: '"@ + whole + "'"@)),
        SizeValue::Bytes(n) => Ok(n),
    }
}

/// What `r` says of a size.
pub open spec fn size_result(r: Result<u64>, wanted: std::result::Result<u64, ErrorView>) -> bool {
    match r {
        Ok(n) => wanted == Ok::<u64, ErrorView>(n),
        Err(e) => wanted == Err::<u64, ErrorView>(e@),
    }
}

/// `s` without its last characters, where it ends with `unit`.
fn without_unit<'a>(s: &'a [char], unit: &str) -> (r: Option<&'a [char]>)
    ensures
        match r {
            Some(t) => text::ends(s@, unit@) && t@ == s@.take(s@.len() - unit@.len()),
            None => !text::ends(s@, unit@),
        },
{
    if ends_with(s, unit) {
        let n: usize = chars_of(unit).len();
        Some(up_to(s, s.len() - n))
    } else {
        None
    }
}

/// Splits a size in lower case into its number and its unit.
fn split_unit(lower: &[char]) -> (r: (&[char], u64))
    ensures
        (r.0@, r.1) == size_parts(lower@),
{
    proof {
        reveal_strlit("kib");
        reveal_strlit("mib");
        reveal_strlit("gib");
        reveal_strlit("kb");
        reveal_strlit("mb");
        reveal_strlit("gb");
        reveal_strlit("k");
        reveal_strlit("m");
        reveal_strlit("g");
        reveal_strlit("b");
    }
    if let Some(n) = without_unit(lower, "kib") {
        return (n, 1024);
    }
    if let Some(n) = without_unit(lower, "mib") {
        return (n, 1_048_576);
    }
    if let Some(n) = without_unit(lower, "gib") {
        return (n, 1_073_741_824);
    }
    if let Some(n) = without_unit(lower, "kb") {
        return (n, 1024);
    }
    if let Some(n) = without_unit(lower, "mb") {
        return (n, 1_048_576);
    }
    if let Some(n) = without_unit(lower, "gb") {
        return (n, 1_073_741_824);
    }
    if let Some(n) = without_unit(lower, "k") {
        return (n, 1024);
    }
    if let Some(n) = without_unit(lower, "m") {
        return (n, 1_048_576);
    }
    if let Some(n) = without_unit(lower, "g") {
        return (n, 1_073_741_824);
    }
    if let Some(n) = without_unit(lower, "b") {
        return (n, 1);
    }
    (lower, 1)
}

/// Splits a size into the text of its number and its unit in bytes.
pub fn split_byte_size(s: &str) -> (r: Result<(String, u64)>)
    ensures
        match r {
            Ok((num, unit)) => size_text(s@) == Ok::<(Seq<char>, u64), ErrorView>((num@, unit)),
            Err(e) => size_text(s@) == Err::<(Seq<char>, u64), ErrorView>(e@),
        },
{
    let raw = chars_of(s);
    let whole = trimmed(raw.as_slice());
    if whole.len() == 0 {
        return Err(crate::error::other("empty size string"));
    }
    let low = to_lower(whole);
    let (num, unit) = split_unit(low.as_slice());
    let num = trimmed(num);
    if num.len() == 0 {
        return Err(
            Error::Other(concat3("missing number in size '", string_of(whole).as_str(), "'")),
        );
    }
    Ok((string_of(num), unit))
}

/// What a number without a fraction comes to.
pub fn exact_size(num: &str, unit: u64) -> (r: Option<SizeValue>)
    ensures
        r == whole_size(num@, unit),
{
    let chars = chars_of(num);
    let all = chars.as_slice();
    let digits = if all.len() > 0 && all[0] == '+' {
        from_pos(all, 1)
    } else {
        all
    };
    if digits.len() == 0 || !only_digits(digits) {
        return None;
    }
    if unit == 0 {
        return Some(SizeValue::Bytes(0));
    }
    match read_u64(all) {
        Some(n) => match n.checked_mul(unit) {
            Some(bytes) => Some(SizeValue::Bytes(bytes)),
            None => Some(SizeValue::TooLarge),
        },
        None => {
            proof {
                let n = text::decimal(num@)->0;
                assert(n * unit > u64::MAX) by (nonlinear_arith)
                    requires
                        n > u64::MAX,
                        unit > 0,
                ;
            }
            Some(SizeValue::TooLarge)
        },
    }
}

/// What is answered for a size text. `fraction` is what its number comes to where it is not a
/// whole number.
pub fn finish_byte_size(s: &str, fraction: SizeValue) -> (r: Result<u64>)
    ensures
        size_result(r, size_answer(s@, fraction)),
{
    let value = match split_byte_size(s) {
        Ok((num, unit)) => match exact_size(num.as_str(), unit) {
            Some(v) => v,
            None => fraction,
        },
        Err(_) => fraction,
    };
    let raw = chars_of(s);
    let whole = string_of(trimmed(raw.as_slice()));
    match value {
        SizeValue::NotANumber => Err(
            Error::Other(concat3("invalid size number in '", whole.as_str(), "'")),
        ),
        SizeValue::OutOfRange => Err(Error::Other(concat3("invalid size '", whole.as_str(), "'"))),
        SizeValue::TooLarge => Err(Error::Other(concat3("size too large: '", whole.as_str(), "'"))),
        SizeValue::Bytes(n) => Ok(n),
    }
}

/// `scale` may give `v` for the number `num` and the unit `unit`.
pub open spec fn scaled<F: Fn(&str, u64) -> SizeValue>(
    scale: F,
    num: Seq<char>,
    unit: u64,
    v: SizeValue,
) -> bool {
    exists|n: &str| n@ == num && #[trigger] call_ensures(scale, (n, unit), v)
}

/// Reads a size: a number with an optional unit (`K`, `KB`, `KiB`, and so on for `M` and `G`, all
/// of them powers of 1024). A whole number is multiplied by the unit exactly; any other is left to
/// `scale`, which reads it and multiplies it by the unit.
pub fn parse_byte_size<F: Fn(&str, u64) -> SizeValue>(s: &str, scale: F) -> (r: Result<u64>)
    requires
        forall|num: &str, unit: u64| call_requires(scale, (num, unit)),
    ensures
        match size_text(s@) {
            Err(e) => size_result(r, Err(e)),
            Ok((num, unit)) => match whole_size(num, unit) {
                Some(v) => size_result(r, size_answer(s@, v)),
                None => exists|v: SizeValue| #[trigger]
                    scaled(scale, num, unit, v) && size_result(r, size_answer(s@, v)),
            },
        },
{
    match split_byte_size(s) {
        Ok((num, unit)) => {
            let n = num.as_str();
            if let Some(v) = exact_size(n, unit) {
                return finish_byte_size(s, v);
            }
            let value = scale(n, unit);
            let answer = finish_byte_size(s, value);
            assert(scaled(scale, num@, unit, value));
            assert(exists|v: SizeValue| #[trigger]
                scaled(scale, num@, unit, v) && size_result(answer, size_answer(s@, v)));
            answer
        },
        Err(e) => Err(e),
    }
}

/// Law: a size written in digits alone is that many bytes, where they fit a `u64`, whatever numbers
/// with a fraction would come to.
pub proof fn law_plain_number_is_that_many_bytes(s: Seq<char>, fraction: SizeValue)
    requires
        s.len() > 0,
        text::all_digits(s),
        text::digits_value(s) <= u64::MAX,
    ensures
        size_text(s) is Ok,
        size_answer(s, fraction) == Ok::<u64, ErrorView>(text::digits_value(s) as u64),
{
    reveal_strlit("kib");
    reveal_strlit("mib");
    reveal_strlit("gib");
    reveal_strlit("kb");
    reveal_strlit("mb");
    reveal_strlit("gb");
    reveal_strlit("k");
    reveal_strlit("m");
    reveal_strlit("g");
    reveal_strlit("b");
    assert(text::is_digit(s[0]));
    assert(text::is_digit(s[s.len() - 1]));
    assert(text::trim(s) == s);
    assert(text::lower(s) =~= s) by {
        assert forall|i: int| 0 <= i < s.len() implies text::lower_char(s[i]) == s[i] by {
            assert(text::is_digit(s[i]));
        }
    }
    assert(size_parts(s) == (s, 1u64)) by {
        assert forall|t: Seq<char>| #[trigger] text::ends(s, t) && t.len() > 0 implies s.last()
            == t.last() by {
            assert(s.skip(s.len() - t.len()).last() == s.last());
        }
    }
}

/// The sum of two sizes, or the largest `u64` where it is larger.
pub open spec fn capped_sum(a: u64, b: u64) -> int {
    if a + b <= u64::MAX {
        a + b
    } else {
        u64::MAX as int
    }
}

/// Whether one more nested archive may be started: there is a worker free, and either nothing is
/// running, or there is no budget, or the archive fits what is left of it.
pub open spec fn admits(
    running_sum: u64,
    running_count: usize,
    job_size: u64,
    budget: u64,
    max_workers: usize,
) -> bool {
    &&& running_count < max_workers
    &&& running_count == 0 || budget == 0 || capped_sum(running_sum, job_size) <= budget
}

/// Whether one more nested archive of `job_size` may be started.
///
/// An archive larger than the whole budget runs alone. A `budget` of zero means no limit.
pub fn can_admit_nested(
    running_sum: u64,
    running_count: usize,
    job_size: u64,
    budget: u64,
    max_workers: usize,
) -> (r: bool)
    ensures
        r == admits(running_sum, running_count, job_size, budget, max_workers),
{
    if max_workers == 0 || running_count >= max_workers {
        return false;
    }
    if running_count == 0 {
        return true;
    }
    if budget == 0 {
        return true;
    }
    running_sum.saturating_add(job_size) <= budget
}

/// How many nested archives are worked on at a time: what is asked for, else the number of
/// threads, else the number of processors (at most 256), and at least one.
pub open spec fn nested_workers(
    nested_concurrency: usize,
    threads: Option<u32>,
    cpus: Option<usize>,
) -> int {
    if nested_concurrency > 0 {
        nested_concurrency as int
    } else if threads is Some {
        if threads->0 == 0 {
            1
        } else {
            threads->0 as int
        }
    } else {
        processor_count(cpus)
    }
}

/// The number of processors, at least one and at most 256.
pub open spec fn processor_count(cpus: Option<usize>) -> int {
    match cpus {
        Some(n) => if n == 0 {
            1
        } else if n > 256 {
            256
        } else {
            n as int
        },
        None => 1,
    }
}

/// The number of processors, at least one and at most 256.
pub fn clamp_cpus(cpus: Option<usize>) -> (r: usize)
    ensures
        r == processor_count(cpus),
        1 <= r <= 256,
{
    match cpus {
        Some(n) => if n == 0 {
            1
        } else if n > 256 {
            256
        } else {
            n
        },
        None => 1,
    }
}

/// How many nested archives are worked on at a time.
pub fn resolve_nested_workers(
    nested_concurrency: usize,
    threads: Option<u32>,
    cpus: Option<usize>,
) -> (r: usize)
    ensures
        r == nested_workers(nested_concurrency, threads, cpus),
        r >= 1,
{
    if nested_concurrency > 0 {
        return nested_concurrency;
    }
    match threads {
        Some(t) => if t == 0 {
            1
        } else {
            t as usize
        },
        None => clamp_cpus(cpus),
    }
}

/// A number of bytes, or that it is too large.
pub open spec fn whole_answer(s: Seq<char>, n: int) -> std::result::Result<u64, ErrorView> {
    if n <= u64::MAX {
        Ok(n as u64)
    } else {
        Err(ErrorView::Other("size too large: '"@ + s + "'"@))
    }
}

proof fn lemma_lower_digits(d: Seq<char>)
    requires
        text::all_digits(d),
    ensures
        text::lower(d) == d,
{
    assert forall|i: int| 0 <= i < d.len() implies text::lower_char(d[i]) == d[i] by {
        assert(text::is_digit(d[i]));
    }
    assert(text::lower(d) =~= d);
}

proof fn lemma_letter_is_no_space(c: char)
    requires
        'a' <= text::lower_char(c) <= 'z',
    ensures
        !text::is_space(c),
{
    if 'A' <= c <= 'Z' {
    } else {
        assert('a' <= c <= 'z');
    }
}

/// What a number and a unit in lower case are taken apart into.
proof fn lemma_unit(num: Seq<char>, letter: char, tail: Seq<char>)
    requires
        letter == 'k' || letter == 'm' || letter == 'g',
        tail == ""@ || tail == "b"@ || tail == "ib"@,
    ensures
        size_parts(num + (seq![letter] + tail)) == (
            num,
            if letter == 'k' {
                1024u64
            } else if letter == 'm' {
                1_048_576
            } else {
                1_073_741_824
            },
        ),
{
    reveal_strlit("");
    reveal_strlit("ib");
    reveal_strlit("kib");
    reveal_strlit("mib");
    reveal_strlit("gib");
    reveal_strlit("kb");
    reveal_strlit("mb");
    reveal_strlit("gb");
    reveal_strlit("k");
    reveal_strlit("m");
    reveal_strlit("g");
    reveal_strlit("b");
    let unit = seq![letter] + tail;
    let s = num + unit;
    let n = s.len() as int;
    assert forall|t: Seq<char>| #[trigger] text::ends(s, t) && t.len() > 0 implies s[n - 1]
        == t[t.len() - 1] && (t.len() >= 2 ==> s[n - 2] == t[t.len() - 2]) && (t.len() >= 3 ==> s[n
        - 3] == t[t.len() - 3]) by {
        let e = s.skip(n - t.len());
        assert(e[t.len() - 1] == s[n - 1]);
        if t.len() >= 2 {
            assert(e[t.len() - 2] == s[n - 2]);
        }
        if t.len() >= 3 {
            assert(e[t.len() - 3] == s[n - 3]);
        }
    }
    assert(s.take(n - unit.len()) =~= num);
    assert(s.skip(n - unit.len()) =~= unit);
    if letter == 'k' {
        assert(unit =~= "k"@ || unit =~= "kb"@ || unit =~= "kib"@);
    } else if letter == 'm' {
        assert(unit =~= "m"@ || unit =~= "mb"@ || unit =~= "mib"@);
    } else {
        assert(unit =~= "g"@ || unit =~= "gb"@ || unit =~= "gib"@);
    }
}

/// Law: a whole number with a unit is that many times 1024, 1024 times 1024, or 1024 times 1024
/// times 1024 bytes, by the letter `K`, `M` or `G` of the unit, with `B` or `iB` behind the letter
/// or not, in upper or lower case, with white space in front of the unit or not; or it is too large.
pub proof fn law_units_are_powers_of_1024(
    digits: Seq<char>,
    gap: Seq<char>,
    letter: char,
    tail: Seq<char>,
    fraction: SizeValue,
)
    requires
        digits.len() > 0,
        text::all_digits(digits),
        text::white(gap),
        text::lower(gap) == gap,
        text::lower_char(letter) == 'k' || text::lower_char(letter) == 'm' || text::lower_char(
            letter,
        ) == 'g',
        text::lower(tail) == ""@ || text::lower(tail) == "b"@ || text::lower(tail) == "ib"@,
    ensures
        ({
            let s = digits + gap + (seq![letter] + tail);
            let n = text::digits_value(digits) as int;
            let l = text::lower_char(letter);
            &&& l == 'k' ==> size_answer(s, fraction) == whole_answer(s, n * 1024)
            &&& l == 'm' ==> size_answer(s, fraction) == whole_answer(s, n * 1024 * 1024)
            &&& l == 'g' ==> size_answer(s, fraction) == whole_answer(s, n * 1024 * 1024 * 1024)
        }),
{
    reveal_strlit("");
    reveal_strlit("b");
    reveal_strlit("ib");
    let unit = seq![letter] + tail;
    let num = digits + gap;
    let s = num + unit;
    let l = text::lower_char(letter);
    let low_tail = text::lower(tail);
    assert(text::is_digit(digits[0]));
    assert(text::is_digit(digits[digits.len() - 1]));
    assert(!text::is_space(s[0]));
    assert(!text::is_space(s.last())) by {
        if tail.len() > 0 {
            assert(s.last() == tail[tail.len() - 1]);
            assert(low_tail[tail.len() - 1] == text::lower_char(tail[tail.len() - 1]));
            assert(low_tail.len() == tail.len());
            assert(low_tail == "b"@ || low_tail == "ib"@);
            assert(low_tail[tail.len() - 1] == 'b');
            lemma_letter_is_no_space(tail[tail.len() - 1]);
        } else {
            assert(s.last() == letter);
            lemma_letter_is_no_space(letter);
        }
    }
    text::law_trim_takes_white_space_away(Seq::empty(), s, Seq::empty());
    lemma_lower_digits(digits);
    assert(text::lower(s) =~= num + (seq![l] + low_tail)) by {
        assert(text::lower(s) =~= text::lower(digits) + text::lower(gap) + (seq![l] + low_tail));
    }
    lemma_unit(num, l, low_tail);
    text::law_trim_takes_white_space_away(Seq::empty(), digits, gap);
    assert(Seq::<char>::empty() + digits + gap =~= num);
    assert(digits.len() > 0 && digits[0] != '+');
}

/// Law: an empty size, and a unit without a number, are errors.
pub proof fn law_size_needs_a_number(space: Seq<char>)
    requires
        text::white(space),
    ensures
        size_text(space) is Err,
        size_text("k"@) is Err,
        size_text("MB"@) is Err,
{
    reveal_strlit("k");
    reveal_strlit("MB");
    reveal_strlit("m");
    reveal_strlit("");
    reveal_strlit("b");
    let none = Seq::<char>::empty();
    text::law_trim_takes_white_space_away(space, none, none);
    assert(space + none + none =~= space);
    text::law_trim_takes_white_space_away(none, "k"@, none);
    text::law_trim_takes_white_space_away(none, "MB"@, none);
    text::law_trim_takes_white_space_away(none, none, none);
    assert(text::lower("k"@) =~= none + (seq!['k'] + ""@));
    lemma_unit(none, 'k', ""@);
    assert(text::lower("MB"@) =~= none + (seq!['m'] + "b"@));
    lemma_unit(none, 'm', "b"@);
}

/// Law: one more nested archive is started exactly if a worker is free for it and, beside others
/// and under a budget, all of them together stay within the budget. One alone is always started.
pub proof fn law_admission(
    running_sum: u64,
    running_count: usize,
    job_size: u64,
    budget: u64,
    max_workers: usize,
)
    requires
        budget < u64::MAX,
    ensures
        ({
            let r = admits(running_sum, running_count, job_size, budget, max_workers);
            &&& running_count >= max_workers ==> !r
            &&& running_count == 0 && max_workers > 0 ==> r
            &&& 0 < running_count < max_workers && budget == 0 ==> r
            &&& 0 < running_count < max_workers && budget > 0 ==> (r <==> running_sum + job_size
                <= budget)
        }),
{
}

/// Law: there are as many workers as are asked for; else as many as threads, but at least one; else
/// as many as processors, but at least one and at most 256.
pub proof fn law_workers(asked: usize, threads: u32, cpus: usize)
    ensures
        asked > 0 ==> nested_workers(asked, Some(threads), Some(cpus)) == asked,
        asked > 0 ==> nested_workers(asked, None, None) == asked,
        threads > 0 ==> nested_workers(0, Some(threads), Some(cpus)) == threads,
        nested_workers(0, Some(0), Some(cpus)) == 1,
        1 <= cpus <= 256 ==> nested_workers(0, None, Some(cpus)) == cpus,
        cpus == 0 ==> nested_workers(0, None, Some(cpus)) == 1,
        cpus > 256 ==> nested_workers(0, None, Some(cpus)) == 256,
        nested_workers(0, None, None) == 1,
{
}

} // verus!
