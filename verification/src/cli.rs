use vstd::prelude::*;

use crate::choke_additive::ResponseChannel;
use crate::text::chars_of;

verus! {

/// Whether `c` is one of the ASCII digits `0`..`9`.
pub open spec fn is_digit_char(c: char) -> bool {
    '0' <= c <= '9'
}

/// The value of the digit `c`.
pub open spec fn digit_value(c: char) -> nat {
    (c as u32 - '0' as u32) as nat
}

/// Whether every character of `s` is a decimal digit.
pub open spec fn all_digits(s: Seq<char>) -> bool {
    forall|i: int| 0 <= i < s.len() ==> is_digit_char(#[trigger] s[i])
}

/// The number that the decimal digits `s` spell, most significant first.
pub open spec fn decimal_value(s: Seq<char>) -> nat
    decreases s.len(),
{
    if s.len() == 0 {
        0
    } else {
        10 * decimal_value(s.drop_last()) + digit_value(s.last())
    }
}

/// How an unsigned integer type reads text: an optional `+`, then one or
/// more decimal digits, nothing else, with a value no greater than `max`.
pub open spec fn parse_unsigned(s: Seq<char>, max: nat) -> Option<nat> {
    let body = if s.len() > 0 && s[0] == '+' {
        s.drop_first()
    } else {
        s
    };
    if body.len() > 0 && all_digits(body) && decimal_value(body) <= max {
        Some(decimal_value(body))
    } else {
        None
    }
}

/// The value an option takes: the parsed text where it parses (and, when
/// `positive` is set, is above zero), else the default.
pub open spec fn arg_value(value: Option<Seq<char>>, max: nat, positive: bool, default_value: nat) -> nat {
    match value {
        Some(v) => match parse_unsigned(v, max) {
            Some(n) => if positive && n == 0 {
                default_value
            } else {
                n
            },
            None => default_value,
        },
        None => default_value,
    }
}

/// The option's text as characters, where it is given.
pub open spec fn arg_chars(value: Option<&String>) -> Option<Seq<char>> {
    match value {
        Some(v) => Some(v@),
        None => None,
    }
}

/// Reads `v[start..]` as decimal digits, refusing a value above `max`.
fn digits_value(v: &Vec<char>, start: usize, max: u128) -> (r: Option<u128>)
    requires
        start <= v@.len(),
        9 <= max,
    ensures
        r == (if all_digits(v@.subrange(start as int, v@.len() as int)) && decimal_value(
            v@.subrange(start as int, v@.len() as int),
        ) <= max {
            Some(decimal_value(v@.subrange(start as int, v@.len() as int)) as u128)
        } else {
            None::<u128>
        }),
{
    let n = v.len();
    let mut i: usize = start;
    let mut acc: u128 = 0;
    while i < n
        invariant
            n == v@.len(),
            9 <= max,
            start <= i <= n,
            all_digits(v@.subrange(start as int, i as int)),
            acc == decimal_value(v@.subrange(start as int, i as int)),
            acc <= max,
        decreases n - i,
    {
        let c = v[i];
        let ghost prefix = v@.subrange(start as int, i as int);
        let ghost next = v@.subrange(start as int, i + 1);
        assert(next.drop_last() =~= prefix);
        assert(next.last() == c);
        if !('0' <= c && c <= '9') {
            proof {
                let whole = v@.subrange(start as int, n as int);
                assert(whole[i - start] == c);
            }
            return None;
        }
        let d = (c as u32 - '0' as u32) as u128;
        if acc > (max - d) / 10 {
            proof {
                lemma_value_grows(v@.subrange(start as int, n as int), (i + 1 - start) as nat);
                assert(v@.subrange(start as int, n as int).subrange(0, (i + 1 - start) as int) =~= next);
                assert(10 * acc + d > max) by (nonlinear_arith)
                    requires
                        acc > (max - d) / 10,
                        d <= max,
                ;
            }
            return None;
        }
        proof {
            assert(10 * acc + d <= max) by (nonlinear_arith)
                requires
                    acc <= (max - d) / 10,
                    d <= max,
            ;
            assert(all_digits(next)) by {
                assert forall|j: int| 0 <= j < next.len() implies is_digit_char(#[trigger] next[j]) by {
                    if j < prefix.len() {
                        assert(next[j] == prefix[j]);
                    }
                }
            }
        }
        acc = 10 * acc + d;
        i += 1;
    }
    assert(v@.subrange(start as int, i as int) =~= v@.subrange(start as int, v@.len() as int));
    Some(acc)
}

/// A longer run of digits never spells a smaller number than its prefix.
proof fn lemma_value_grows(s: Seq<char>, k: nat)
    requires
        k <= s.len(),
    ensures
        all_digits(s) ==> decimal_value(s.subrange(0, k as int)) <= decimal_value(s),
    decreases s.len(),
{
    if all_digits(s) && k < s.len() {
        let t = s.drop_last();
        assert(all_digits(t)) by {
            assert forall|i: int| 0 <= i < t.len() implies is_digit_char(#[trigger] t[i]) by {
                assert(t[i] == s[i]);
            }
        }
        lemma_value_grows(t, k);
        assert(t.subrange(0, k as int) =~= s.subrange(0, k as int));
        assert(decimal_value(t) <= decimal_value(s)) by (nonlinear_arith)
            requires
                decimal_value(s) == 10 * decimal_value(t) + digit_value(s.last()),
        ;
    } else if all_digits(s) {
        assert(s.subrange(0, k as int) =~= s);
    }
}

/// Parses `s` as an unsigned integer type with largest value `max` does.
pub fn parse_unsigned_text(s: &str, max: u128) -> (r: Option<u128>)
    requires
        9 <= max,
    ensures
        r == (match parse_unsigned(s@, max as nat) {
            Some(n) => Some(n as u128),
            None => None::<u128>,
        }),
{
    let v = chars_of(s);
    let n = v.len();
    let start: usize = if n > 0 && v[0] == '+' {
        1
    } else {
        0
    };
    proof {
        if start == 1 {
            assert(v@.subrange(1, n as int) =~= v@.drop_first());
        } else {
            assert(v@.subrange(0, n as int) =~= v@);
        }
    }
    if start == n {
        return None;
    }
    digits_value(&v, start, max)
}

/// Reads a count option: its value where it parses as a `usize` above zero,
/// else the default.
pub fn parse_usize_arg(value: Option<&String>, default_value: usize) -> (r: usize)
    ensures
        r == arg_value(arg_chars(value), usize::MAX as nat, true, default_value as nat),
{
    match value {
        Some(v) => match parse_unsigned_text(v.as_str(), usize::MAX as u128) {
            Some(n) => if n > 0 {
                n as usize
            } else {
                default_value
            },
            None => default_value,
        },
        None => default_value,
    }
}

/// Reads a `u64` option: its value where it parses above zero, else the default.
pub fn parse_u64_arg(value: Option<&String>, default_value: u64) -> (r: u64)
    ensures
        r == arg_value(arg_chars(value), u64::MAX as nat, true, default_value as nat),
{
    match value {
        Some(v) => match parse_unsigned_text(v.as_str(), u64::MAX as u128) {
            Some(n) => if n > 0 {
                n as u64
            } else {
                default_value
            },
            None => default_value,
        },
        None => default_value,
    }
}

/// Reads a `u32` option: its value where it parses above zero, else the default.
pub fn parse_u32_arg(value: Option<&String>, default_value: u32) -> (r: u32)
    ensures
        r == arg_value(arg_chars(value), u32::MAX as nat, true, default_value as nat),
{
    match value {
        Some(v) => match parse_unsigned_text(v.as_str(), u32::MAX as u128) {
            Some(n) => if n > 0 {
                n as u32
            } else {
                default_value
            },
            None => default_value,
        },
        None => default_value,
    }
}

/// Reads a `u16` option: its value where it parses (zero included), else the default.
pub fn parse_u16_arg(value: Option<&String>, default_value: u16) -> (r: u16)
    ensures
        r == arg_value(arg_chars(value), u16::MAX as nat, false, default_value as nat),
{
    match value {
        Some(v) => match parse_unsigned_text(v.as_str(), u16::MAX as u128) {
            Some(n) => n as u16,
            None => default_value,
        },
        None => default_value,
    }
}

/// Reads a `u8` option: its value where it parses (zero included), else the default.
pub fn parse_u8_arg(value: Option<&String>, default_value: u8) -> (r: u8)
    ensures
        r == arg_value(arg_chars(value), u8::MAX as nat, false, default_value as nat),
{
    match value {
        Some(v) => match parse_unsigned_text(v.as_str(), u8::MAX as u128) {
            Some(n) => n as u8,
            None => default_value,
        },
        None => default_value,
    }
}

/// Whether `c` has the Unicode `White_Space` property, as `char::is_whitespace` reads it.
pub open spec fn is_white_space(c: char) -> bool {
    let n = c as u32;
    ||| 0x09 <= n <= 0x0D
    ||| n == 0x20
    ||| n == 0x85
    ||| n == 0xA0
    ||| n == 0x1680
    ||| 0x2000 <= n <= 0x200A
    ||| n == 0x2028
    ||| n == 0x2029
    ||| n == 0x202F
    ||| n == 0x205F
    ||| n == 0x3000
}

/// `s` without its leading white space.
pub open spec fn trim_start(s: Seq<char>) -> Seq<char>
    decreases s.len(),
{
    if s.len() > 0 && is_white_space(s[0]) {
        trim_start(s.drop_first())
    } else {
        s
    }
}

/// `s` without its trailing white space.
pub open spec fn trim_end(s: Seq<char>) -> Seq<char>
    decreases s.len(),
{
    if s.len() > 0 && is_white_space(s.last()) {
        trim_end(s.drop_last())
    } else {
        s
    }
}

/// `s` without white space at either end.
pub open spec fn trim(s: Seq<char>) -> Seq<char> {
    trim_end(trim_start(s))
}

/// `c` with an ASCII capital made small; every other character unchanged.
pub open spec fn ascii_lower(c: char) -> char {
    if 'A' <= c <= 'Z' {
        ((c as u32) + 32) as char
    } else {
        c
    }
}

/// The response channel that a (trimmed, lower-cased) word names, if any.
pub open spec fn channel_keyword(w: Seq<char>) -> Option<ResponseChannel> {
    if w == "trap"@ || w == "trap-biased"@ || w == "electron"@ || w == "electron-like"@ {
        Some(ResponseChannel::TrapBiased)
    } else if w == "radiative"@ || w == "radiative-biased"@ || w == "photon"@ || w
        == "photon-like"@ {
        Some(ResponseChannel::RadiativeBiased)
    } else {
        None
    }
}

/// The channel a `--channel` option selects: the one its trimmed,
/// lower-cased text names, else the default.
pub open spec fn channel_choice(value: Option<Seq<char>>, default_value: ResponseChannel) -> ResponseChannel {
    match value {
        Some(v) => match channel_keyword(trim(v).map_values(|c: char| ascii_lower(c))) {
            Some(ch) => ch,
            None => default_value,
        },
        None => default_value,
    }
}

fn white_space(c: char) -> (b: bool)
    ensures
        b == is_white_space(c),
{
    let n = c as u32;
    (0x09 <= n && n <= 0x0D) || n == 0x20 || n == 0x85 || n == 0xA0 || n == 0x1680 || (0x2000 <= n
        && n <= 0x200A) || n == 0x2028 || n == 0x2029 || n == 0x202F || n == 0x205F || n == 0x3000
}

/// The characters of `v` with white space cut from both ends.
pub fn trim_chars(v: &Vec<char>) -> (r: Vec<char>)
    ensures
        r@ == trim(v@),
{
    let n = v.len();
    let mut start: usize = 0;
    assert(v@.subrange(0, n as int) =~= v@);
    while start < n && white_space(v[start])
        invariant
            n == v@.len(),
            start <= n,
            trim_start(v@) == trim_start(v@.subrange(start as int, n as int)),
        decreases n - start,
    {
        assert(v@.subrange(start as int, n as int).drop_first() =~= v@.subrange(
            start + 1,
            n as int,
        ));
        start += 1;
    }
    assert(trim_start(v@) == v@.subrange(start as int, n as int));
    let mut end: usize = n;
    while end > start && white_space(v[end - 1])
        invariant
            n == v@.len(),
            start <= end <= n,
            trim(v@) == trim_end(v@.subrange(start as int, end as int)),
        decreases end - start,
    {
        assert(v@.subrange(start as int, end as int).drop_last() =~= v@.subrange(
            start as int,
            end - 1,
        ));
        end -= 1;
    }
    assert(trim(v@) == v@.subrange(start as int, end as int));
    let mut r: Vec<char> = Vec::new();
    let mut i: usize = start;
    while i < end
        invariant
            start <= i <= end <= n,
            n == v@.len(),
            r@ == v@.subrange(start as int, i as int),
        decreases end - i,
    {
        r.push(v[i]);
        i += 1;
        assert(r@ =~= v@.subrange(start as int, i as int));
    }
    r
}

fn lower_char(c: char) -> (r: char)
    ensures
        r == ascii_lower(c),
{
    if 'A' <= c && c <= 'Z' {
        ((c as u8) + 32) as char
    } else {
        c
    }
}

/// The characters of `v` with ASCII capitals made small.
pub fn ascii_lowercase(v: &Vec<char>) -> (r: Vec<char>)
    ensures
        r@ == v@.map_values(|c: char| ascii_lower(c)),
{
    let mut r: Vec<char> = Vec::new();
    let mut i: usize = 0;
    while i < v.len()
        invariant
            i <= v@.len(),
            r@ == v@.subrange(0, i as int).map_values(|c: char| ascii_lower(c)),
        decreases v.len() - i,
    {
        r.push(lower_char(v[i]));
        i += 1;
        assert(r@ =~= v@.subrange(0, i as int).map_values(|c: char| ascii_lower(c)));
    }
    assert(v@.subrange(0, i as int) =~= v@);
    r
}

fn same_chars(a: &Vec<char>, b: &str) -> (r: bool)
    ensures
        r == (a@ == b@),
{
    let w = chars_of(b);
    if a.len() != w.len() {
        return false;
    }
    let mut i: usize = 0;
    while i < a.len()
        invariant
            a@.len() == w@.len(),
            w@ == b@,
            i <= a@.len(),
            forall|j: int| 0 <= j < i ==> a@[j] == w@[j],
        decreases a.len() - i,
    {
        if a[i] != w[i] {
            assert(a@[i as int] != w@[i as int]);
            return false;
        }
        i += 1;
    }
    assert(a@ =~= w@);
    true
}

/// Reads a `--channel` option: the channel its trimmed, lower-cased text
/// names (`trap`, `trap-biased`, `electron`, `electron-like`, or
/// `radiative`, `radiative-biased`, `photon`, `photon-like`), else the default.
pub fn parse_channel_arg(value: Option<&String>, default_value: ResponseChannel) -> (r: ResponseChannel)
    ensures
        r == channel_choice(arg_chars(value), default_value),
{
    match value {
        Some(v) => {
            let chars = chars_of(v.as_str());
            let trimmed = trim_chars(&chars);
            let w = ascii_lowercase(&trimmed);
            if same_chars(&w, "trap") || same_chars(&w, "trap-biased") || same_chars(&w, "electron")
                || same_chars(&w, "electron-like") {
                ResponseChannel::TrapBiased
            } else if same_chars(&w, "radiative") || same_chars(&w, "radiative-biased")
                || same_chars(&w, "photon") || same_chars(&w, "photon-like") {
                ResponseChannel::RadiativeBiased
            } else {
                default_value
            }
        },
        None => default_value,
    }
}

} // verus!
