//! What presentation code consumes: command texts folded into fixed-width
//! chunks, and the execution time recovered from an entry's serialized
//! form.  The table and text renderers themselves live outside the
//! library; [`Table`] and [`Text`] are their handles.

use vstd::prelude::*;

use crate::data::{Command, CommandView, ShellclearError};
use crate::shell::Shell;
use crate::textutil::{chars_of, matches_at, substr_at};

verus! {

/// How many characters of a command fit on one output line.
pub const LIMIT_COMMAND: usize = 100;

/// The table renderer's handle.
#[derive(Default)]
pub struct Table {}

/// The plain-text renderer's handle.
#[derive(Default)]
pub struct Text {}

/// The text cut into `size`-character pieces joined by CRLF; text of at
/// most `size` characters stays whole.
pub open spec fn spec_chunk(t: Seq<char>, size: int) -> Seq<char>
    recommends
        size >= 1,
    decreases t.len(),
{
    if size < 1 || t.len() <= size {
        t
    } else {
        t.take(size) + seq!['\r', '\n'] + spec_chunk(t.skip(size), size)
    }
}

/// Folds a long command text into `size`-character lines, CRLF-separated.
pub fn chunk(text: &str, size: usize) -> (r: String)
    requires
        size >= 1,
    ensures
        r@ == spec_chunk(text@, size as int),
{
    let t = chars_of(text);
    let tlen: usize = t.len();
    let mut out: Vec<char> = Vec::new();
    let mut i: usize = 0;
    proof {
        assert(t@.skip(0) =~= t@);
        assert(Seq::<char>::empty() + spec_chunk(t@, size as int) =~= spec_chunk(
            t@,
            size as int,
        ));
    }
    while i < t.len()
        invariant
            size >= 1,
            t@ == text@,
            t@.len() == tlen,
            i <= t@.len(),
            i < t@.len() || i == t@.len(),
            out@ + spec_chunk(t@.skip(i as int), size as int) == spec_chunk(t@, size as int),
        decreases t@.len() - i,
    {
        let ghost rest = t@.skip(i as int);
        let remaining: usize = t.len() - i;
        let step: usize = if remaining <= size {
            remaining
        } else {
            size
        };
        let ghost out0 = out@;
        let mut k: usize = 0;
        while k < step
            invariant
                i + step <= t@.len(),
                t@.len() == tlen,
                k <= step,
                out@ == out0 + t@.subrange(i as int, i + k),
            decreases step - k,
        {
            out.push(t[i + k]);
            assert(out@ =~= out0 + t@.subrange(i as int, i + k + 1));
            k += 1;
        }
        if remaining <= size {
            proof {
                assert(rest.len() <= size);
                assert(spec_chunk(rest, size as int) == rest);
                assert(t@.subrange(i as int, i + step) =~= rest);
                assert(t@.skip((i + step) as int) =~= Seq::<char>::empty());
                assert((out0 + rest) + spec_chunk(Seq::<char>::empty(), size as int) =~= out0
                    + rest);
            }
        } else {
            out.push('\r');
            out.push('\n');
            proof {
                assert(rest.len() > size);
                assert(rest.take(size as int) =~= t@.subrange(i as int, i + step));
                assert(rest.skip(size as int) =~= t@.skip(i + step));
                assert(out@ =~= out0 + (rest.take(size as int) + seq!['\r', '\n']));
                assert((out0 + (rest.take(size as int) + seq!['\r', '\n'])) + spec_chunk(
                    t@.skip(i + step),
                    size as int,
                ) =~= out0 + ((rest.take(size as int) + seq!['\r', '\n']) + spec_chunk(
                    rest.skip(size as int),
                    size as int,
                )));
            }
        }
        i += step;
    }
    proof {
        assert(t@.skip(i as int) =~= Seq::<char>::empty());
        assert(out@ + Seq::<char>::empty() =~= out@);
    }
    crate::textutil::string_of(&out)
}

/// A decimal digit.
pub open spec fn is_digit(c: char) -> bool {
    '0' <= c && c <= '9'
}

fn is_digit_exec(c: char) -> (r: bool)
    ensures
        r == is_digit(c),
{
    '0' <= c && c <= '9'
}

/// The end of the digit run starting at `i`.
pub open spec fn digits_end(t: Seq<char>, i: int) -> int
    recommends
        0 <= i <= t.len(),
    decreases t.len() - i,
{
    if i < t.len() && is_digit(t[i]) {
        digits_end(t, i + 1)
    } else {
        i
    }
}

/// The end of the space run starting at `i`.
pub open spec fn spaces_end(t: Seq<char>, i: int) -> int
    recommends
        0 <= i <= t.len(),
    decreases t.len() - i,
{
    if i < t.len() && t[i] == ' ' {
        spaces_end(t, i + 1)
    } else {
        i
    }
}

/// The value of a run of decimal digits.
pub open spec fn digits_val(s: Seq<char>) -> int
    decreases s.len(),
{
    if s.len() == 0 {
        0
    } else {
        digits_val(s.drop_last()) * 10 + (s.last() as int - '0' as int)
    }
}

/// The value of a digit run is never negative.
proof fn lemma_digits_val_nonneg(s: Seq<char>)
    requires
        forall|m: int| 0 <= m < s.len() ==> is_digit(#[trigger] s[m]),
    ensures
        digits_val(s) >= 0,
    decreases s.len(),
{
    if s.len() > 0 {
        assert forall|m: int| 0 <= m < s.drop_last().len() implies is_digit(
            #[trigger] s.drop_last()[m],
        ) by {
            assert(s.drop_last()[m] == s[m]);
        }
        lemma_digits_val_nonneg(s.drop_last());
        assert(is_digit(s[s.len() - 1]));
    }
}

/// Digit runs have monotone values: extending the run never shrinks the
/// value.
proof fn lemma_digits_val_extend(t: Seq<char>, a: int, k: int, b: int)
    requires
        0 <= a <= k <= b <= t.len(),
        forall|m: int| a <= m < b ==> is_digit(#[trigger] t[m]),
    ensures
        digits_val(t.subrange(a, b)) >= digits_val(t.subrange(a, k)),
        digits_val(t.subrange(a, k)) >= 0,
    decreases b - k,
{
    assert forall|m: int| 0 <= m < t.subrange(a, k).len() implies is_digit(
        #[trigger] t.subrange(a, k)[m],
    ) by {
        assert(t.subrange(a, k)[m] == t[a + m]);
    }
    lemma_digits_val_nonneg(t.subrange(a, k));
    if k < b {
        assert(t.subrange(a, k + 1).drop_last() =~= t.subrange(a, k));
        assert(is_digit(t[k]));
        assert(digits_val(t.subrange(a, k + 1)) >= digits_val(t.subrange(a, k)));
        lemma_digits_val_extend(t, a, k + 1, b);
    }
}

/// Reads the digit run `t[a..b]` as an `i64`; `None` when its value is too
/// large for the type.
fn parse_epoch_range(t: &Vec<char>, a: usize, b: usize) -> (r: Option<i64>)
    requires
        a <= b <= t@.len(),
        forall|m: int| a <= m < b ==> is_digit(#[trigger] t@[m]),
    ensures
        match r {
            Some(v) => v as int == digits_val(t@.subrange(a as int, b as int)) && digits_val(
                t@.subrange(a as int, b as int),
            ) <= i64::MAX,
            None => digits_val(t@.subrange(a as int, b as int)) > i64::MAX,
        },
{
    let mut acc: i64 = 0;
    let mut k: usize = a;
    proof {
        assert(t@.subrange(a as int, a as int) =~= Seq::<char>::empty());
    }
    while k < b
        invariant
            a <= k <= b <= t@.len(),
            forall|m: int| a <= m < b ==> is_digit(#[trigger] t@[m]),
            0 <= acc,
            acc as int == digits_val(t@.subrange(a as int, k as int)),
        decreases b - k,
    {
        let c = t[k];
        assert(is_digit(c));
        let d: i64 = (c as u32 as i64) - ('0' as u32 as i64);
        assert(0 <= d <= 9);
        if acc > (i64::MAX - d) / 10 {
            proof {
                assert(t@.subrange(a as int, k + 1).drop_last() =~= t@.subrange(
                    a as int,
                    k as int,
                ));
                assert(digits_val(t@.subrange(a as int, k + 1)) == acc as int * 10 + d);
                assert(acc as int * 10 + d > i64::MAX);
                lemma_digits_val_extend(t@, a as int, k + 1, b as int);
            }
            return None;
        }
        acc = acc * 10 + d;
        proof {
            assert(t@.subrange(a as int, k + 1).drop_last() =~= t@.subrange(a as int, k as int));
        }
        k += 1;
    }
    Some(acc)
}

/// What the date-time formatter prints for an epoch second, as a function
/// of the second alone; `None` when the instant is not representable.
pub uninterp spec fn utc_datetime_text(secs: i64) -> Option<Seq<char>>;

/// Relies on chrono's `DateTime::from_timestamp` and its `format` with the
/// fixed `%Y-%m-%d %H:%M:%S` layout: the printed UTC date-time is a
/// function of the epoch second alone, and an out-of-range second yields
/// nothing.
#[verifier::external_body]
fn format_epoch(secs: i64) -> (r: Option<String>)
    ensures
        match r {
            Some(s) => utc_datetime_text(secs) == Some(s@),
            None => utc_datetime_text(secs) is None,
        },
{
    chrono::DateTime::<chrono::Utc>::from_timestamp(secs, 0).map(
        |dt| dt.format("%Y-%m-%d %H:%M:%S").to_string(),
    )
}

/// The epoch digits of a zsh extended-history line `": <epoch>:<rest>"`,
/// if the line has that shape.
pub open spec fn zsh_epoch_of(data: Seq<char>) -> Option<Seq<char>> {
    if data.len() >= 2 && data[0] == ':' && data[1] == ' ' {
        let e = digits_end(data, 2);
        if e > 2 && e < data.len() && data[e] == ':' {
            Some(data.subrange(2, e))
        } else {
            None
        }
    } else {
        None
    }
}

/// The key a fish record's timestamp follows.
pub open spec fn when_key() -> Seq<char> {
    seq!['w', 'h', 'e', 'n', ':']
}

/// The first position at which `p` occurs in `t`, at or after `i`.
pub open spec fn first_occurrence(t: Seq<char>, p: Seq<char>, i: int) -> Option<int>
    recommends
        0 <= i,
        p.len() > 0,
    decreases t.len() - i,
{
    if p.len() <= 0 || i + p.len() > t.len() {
        None
    } else if substr_at(t, p, i) {
        Some(i)
    } else {
        first_occurrence(t, p, i + 1)
    }
}

/// The timestamp digits of a fish record's serialized form: the digit run
/// after the first `when:` key, spaces and one level of quoting skipped.
pub open spec fn fish_when_of(data: Seq<char>) -> Option<Seq<char>> {
    match first_occurrence(data, when_key(), 0) {
        Some(i) => {
            let j = spaces_end(data, i + 5);
            let j2 = if j < data.len() && data[j] == '"' {
                j + 1
            } else {
                j
            };
            let e = digits_end(data, j2);
            if e > j2 {
                Some(data.subrange(j2, e))
            } else {
                None
            }
        },
        None => None,
    }
}

/// What time extraction answers for one entry: the formatted UTC date-time
/// for zsh extended lines and fish records, the empty text where the shell
/// keeps no timestamps (or a zsh line carries none), and an error when a
/// fish record has no readable timestamp or the instant cannot be
/// represented.
pub open spec fn spec_extract_time(e: CommandView) -> Result<Seq<char>, ShellclearError> {
    if e.shell_type is Zshrc {
        match zsh_epoch_of(e.data) {
            Some(d) => if digits_val(d) <= i64::MAX {
                match utc_datetime_text(digits_val(d) as i64) {
                    Some(s) => Ok(s),
                    None => Err(ShellclearError::Timestamp),
                }
            } else {
                Err(ShellclearError::Timestamp)
            },
            None => Ok(Seq::empty()),
        }
    } else if e.shell_type is Fish {
        match fish_when_of(e.data) {
            Some(d) => if digits_val(d) <= i64::MAX {
                match utc_datetime_text(digits_val(d) as i64) {
                    Some(s) => Ok(s),
                    None => Err(ShellclearError::Timestamp),
                }
            } else {
                Err(ShellclearError::Timestamp)
            },
            None => Err(ShellclearError::Parse),
        }
    } else {
        Ok(Seq::empty())
    }
}

fn when_key_chars() -> (r: Vec<char>)
    ensures
        r@ == when_key(),
{
    let mut v: Vec<char> = Vec::new();
    v.push('w');
    v.push('h');
    v.push('e');
    v.push('n');
    v.push(':');
    assert(v@ =~= when_key());
    v
}

/// Recovers the formatted execution time of one entry from its serialized
/// form, the executable form of [`spec_extract_time`].
pub fn extract_time(finding: &Command) -> (r: Result<String, ShellclearError>)
    ensures
        match r {
            Ok(s) => spec_extract_time(finding@) == Ok::<Seq<char>, ShellclearError>(s@),
            Err(e) => spec_extract_time(finding@) == Err::<Seq<char>, ShellclearError>(e),
        },
{
    match finding.shell_type {
        Shell::Zshrc => {
            let data = chars_of(finding.data.as_str());
            if data.len() >= 2 && data[0] == ':' && data[1] == ' ' {
                let mut e: usize = 2;
                while e < data.len() && is_digit_exec(data[e])
                    invariant
                        2 <= e <= data@.len(),
                        digits_end(data@, 2) == digits_end(data@, e as int),
                        forall|m: int| 2 <= m < e ==> is_digit(#[trigger] data@[m]),
                    decreases data@.len() - e,
                {
                    e += 1;
                }
                assert(digits_end(data@, 2) == e as int);
                if e > 2 && e < data.len() && data[e] == ':' {
                    match parse_epoch_range(&data, 2, e) {
                        Some(v) => match format_epoch(v) {
                            Some(s) => Ok(s),
                            None => Err(ShellclearError::Timestamp),
                        },
                        None => Err(ShellclearError::Timestamp),
                    }
                } else {
                    let empty = String::new();
                    Ok(empty)
                }
            } else {
                let empty = String::new();
                Ok(empty)
            }
        },
        Shell::Fish => {
            let data = chars_of(finding.data.as_str());
            let key = when_key_chars();
            let mut i: usize = 0;
            let mut found: Option<usize> = None;
            if data.len() >= 5 {
                let dlen: usize = data.len();
                let last_start: usize = dlen - 5;
                while i <= last_start && found.is_none()
                    invariant
                        key@ == when_key(),
                        data@.len() == dlen,
                        last_start == data@.len() - 5,
                        data@.len() >= 5,
                        i <= last_start + 1,
                        match found {
                            Some(f) => f + 5 <= data@.len() && first_occurrence(
                                data@,
                                when_key(),
                                0,
                            ) == Some(f as int),
                            None => first_occurrence(data@, when_key(), 0) == first_occurrence(
                                data@,
                                when_key(),
                                i as int,
                            ),
                        },
                    decreases data@.len() - i, (if found is Some { 0int } else { 1int }),
                {
                    if matches_at(&data, &key, i) {
                        found = Some(i);
                    } else {
                        i += 1;
                    }
                }
            }
            proof {
                if found is None {
                    assert(i + 5 > data@.len());
                    assert(first_occurrence(data@, when_key(), i as int) is None);
                }
            }
            match found {
                None => {
                    assert(fish_when_of(finding@.data) is None);
                    Err(ShellclearError::Parse)
                },
                Some(f) => {
                    let mut j: usize = f + 5;
                    while j < data.len() && data[j] == ' '
                        invariant
                            f + 5 <= j <= data@.len(),
                            spaces_end(data@, f + 5) == spaces_end(data@, j as int),
                        decreases data@.len() - j,
                    {
                        j += 1;
                    }
                    assert(spaces_end(data@, f + 5) == j as int);
                    let j2: usize = if j < data.len() && data[j] == '"' {
                        j + 1
                    } else {
                        j
                    };
                    let mut e2: usize = j2;
                    while e2 < data.len() && is_digit_exec(data[e2])
                        invariant
                            j2 <= e2 <= data@.len(),
                            digits_end(data@, j2 as int) == digits_end(data@, e2 as int),
                            forall|m: int| j2 <= m < e2 ==> is_digit(#[trigger] data@[m]),
                        decreases data@.len() - e2,
                    {
                        e2 += 1;
                    }
                    assert(digits_end(data@, j2 as int) == e2 as int);
                    if e2 > j2 {
                        match parse_epoch_range(&data, j2, e2) {
                            Some(v) => match format_epoch(v) {
                                Some(s) => Ok(s),
                                None => Err(ShellclearError::Timestamp),
                            },
                            None => Err(ShellclearError::Timestamp),
                        }
                    } else {
                        Err(ShellclearError::Parse)
                    }
                },
            }
        },
        _ => {
            let empty = String::new();
            Ok(empty)
        },
    }
}

} // verus!
