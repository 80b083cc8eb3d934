//! Caller constraints and the parsing of target-size strings.

use crate::policy::chars_equal;
use crate::error::CompressionError;
use vstd::prelude::*;
use vstd::string::StrSliceExecFns;

verus! {

/// Requested output dimensions and how to fit the image into them.
#[derive(Debug, Clone)]
pub struct ResizeOptions {
    pub width: Option<u32>,
    pub height: Option<u32>,
    pub fit: String,
}

/// What a caller asks of a compression: a size budget such as `"100kb"`,
/// bounds on dimensions and quality, and formats to try first.
#[derive(Debug, Clone)]
pub struct SmartCompressionConstraints {
    pub target_size: Option<String>,
    pub max_width: Option<u32>,
    pub max_height: Option<u32>,
    pub min_quality: Option<u8>,
    pub preferred_formats: Option<Vec<String>>,
    pub resize: Option<ResizeOptions>,
}

/// Entry point of the size-constrained compression policy.
pub struct SmartCompressionEngine {}

pub open spec fn is_digit(c: char) -> bool {
    '0' <= c <= '9'
}

/// `c` is the lower-case letter `l` or its upper-case form `u`.
pub open spec fn is_letter(c: char, l: char, u: char) -> bool {
    c == l || c == u
}

/// Whether `s` ends in `kb` (`first` is `'k'`) or `mb` (`first` is `'m'`),
/// in either case.
pub open spec fn has_suffix(s: Seq<char>, first: char) -> bool {
    &&& s.len() >= 2
    &&& if first == 'k' {
        is_letter(s[s.len() - 2], 'k', 'K')
    } else {
        is_letter(s[s.len() - 2], 'm', 'M')
    }
    &&& is_letter(s[s.len() - 1], 'b', 'B')
}

/// Bytes per unit named by the suffix of `s`.
pub open spec fn unit_of(s: Seq<char>) -> nat {
    if has_suffix(s, 'k') {
        1024
    } else if has_suffix(s, 'm') {
        1048576
    } else {
        1
    }
}

/// The number in front of the suffix.
pub open spec fn number_part(s: Seq<char>) -> Seq<char> {
    if has_suffix(s, 'k') || has_suffix(s, 'm') {
        s.subrange(0, s.len() - 2)
    } else {
        s
    }
}

pub open spec fn dot_count(b: Seq<char>) -> nat
    decreases b.len(),
{
    if b.len() == 0 {
        0
    } else {
        dot_count(b.drop_last()) + if b.last() == '.' { 1nat } else { 0nat }
    }
}

pub open spec fn digit_count(b: Seq<char>) -> nat
    decreases b.len(),
{
    if b.len() == 0 {
        0
    } else {
        digit_count(b.drop_last()) + if is_digit(b.last()) { 1nat } else { 0nat }
    }
}

/// Value of the decimal digits of `b`, the point left out.
pub open spec fn digits_value(b: Seq<char>) -> nat
    decreases b.len(),
{
    if b.len() == 0 {
        0
    } else if is_digit(b.last()) {
        digits_value(b.drop_last()) * 10 + ((b.last() as u32) - 48) as nat
    } else {
        digits_value(b.drop_last())
    }
}

/// Number of digits after the point; 0 without a point.
pub open spec fn fraction_len(b: Seq<char>) -> nat
    decreases b.len(),
{
    if b.len() == 0 || b.last() == '.' {
        0
    } else if dot_count(b.drop_last()) > 0 {
        fraction_len(b.drop_last()) + 1
    } else {
        0
    }
}

/// `b` is digits with at most one point (none when `unit` is 1), and at
/// least one digit.
pub open spec fn well_formed_number(b: Seq<char>, unit: nat) -> bool {
    &&& forall|i: int| 0 <= i < b.len() ==> is_digit(#[trigger] b[i]) || b[i] == '.'
    &&& dot_count(b) <= if unit == 1 { 0nat } else { 1nat }
    &&& digit_count(b) >= 1
}

pub open spec fn pow10(n: nat) -> nat
    decreases n,
{
    if n == 0 {
        1
    } else {
        10 * pow10((n - 1) as nat)
    }
}

/// A size string is accepted when it is a well-formed number with an
/// optional `kb`/`mb` suffix, its digits times the unit fit a `usize`, and it
/// has at most 19 digits after the point.
pub open spec fn size_accepted(s: Seq<char>) -> bool {
    &&& well_formed_number(number_part(s), unit_of(s))
    &&& digits_value(number_part(s)) * unit_of(s) <= usize::MAX
    &&& fraction_len(number_part(s)) <= 19
}

/// Number of bytes a size string stands for, rounded down.
pub open spec fn size_value(s: Seq<char>) -> nat {
    digits_value(number_part(s)) * unit_of(s) / pow10(fraction_len(number_part(s)))
}

proof fn lemma_prefix_mono(b: Seq<char>, i: int)
    requires
        0 <= i <= b.len(),
    ensures
        digits_value(b.subrange(0, i)) <= digits_value(b),
        dot_count(b.subrange(0, i)) <= dot_count(b),
        dot_count(b) <= 1 && dot_count(b.subrange(0, i)) >= 1 ==> fraction_len(b.subrange(0, i))
            <= fraction_len(b),
    decreases b.len(),
{
    if i < b.len() {
        lemma_prefix_mono(b.drop_last(), i);
        assert(b.drop_last().subrange(0, i) == b.subrange(0, i));
    } else {
        assert(b.subrange(0, i) == b);
    }
}

proof fn lemma_pow10_mono(a: nat, b: nat)
    requires
        a <= b,
    ensures
        pow10(a) <= pow10(b),
    decreases b,
{
    if a < b {
        lemma_pow10_mono(a, (b - 1) as nat);
        lemma_pow10_pos((b - 1) as nat);
    }
}

proof fn lemma_pow10_pos(n: nat)
    ensures
        pow10(n) >= 1,
    decreases n,
{
    if n > 0 {
        lemma_pow10_pos((n - 1) as nat);
    }
}

impl SmartCompressionEngine {
    pub fn new() -> (r: Self) {
        SmartCompressionEngine {  }
    }

    /// Parses a size such as `"100kb"`, `"1.5MB"` or `"2048"` into bytes.
    /// Suffixes `kb` and `mb` (any case) multiply by 1024 and 1048576 and
    /// allow a fractional number; without a suffix the string is a whole
    /// number of bytes. Anything else, surrounding spaces included, fails.
    pub fn parse_target_size(&self, target_size: &str) -> (r: Result<usize, CompressionError>)
        ensures
            size_accepted(target_size@) ==> r == Ok::<usize, CompressionError>(
                size_value(target_size@) as usize,
            ),
            !size_accepted(target_size@) ==> (r matches Err(CompressionError::InvalidFormat(_))),
    {
        let n = target_size.unicode_len();
        let ghost s = target_size@;
        let mut unit: u128 = 1;
        let mut end: usize = n;
        if n >= 2 {
            let a = target_size.get_char(n - 2);
            let b = target_size.get_char(n - 1);
            let is_b = b == 'b' || b == 'B';
            if is_b && (a == 'k' || a == 'K') {
                unit = 1024;
                end = n - 2;
            } else if is_b && (a == 'm' || a == 'M') {
                unit = 1048576;
                end = n - 2;
            }
        }
        let ghost body = number_part(s);
        assert(body == s.subrange(0, end as int));
        assert(unit == unit_of(s));
        let mut value: u128 = 0;
        let mut dots: usize = 0;
        let mut digits: usize = 0;
        let mut frac: usize = 0;
        let mut i: usize = 0;
        while i < end
            invariant
                end <= n == s.len(),
                s == target_size@,
                body == s.subrange(0, end as int),
                body == number_part(s),
                unit == unit_of(s),
                1 <= unit <= 1048576,
                i <= end,
                forall|j: int| 0 <= j < i ==> is_digit(#[trigger] body[j]) || body[j] == '.',
                dots == dot_count(body.subrange(0, i as int)),
                dots <= if unit == 1 { 0nat } else { 1nat },
                digits == digit_count(body.subrange(0, i as int)),
                digits <= i,
                value == digits_value(body.subrange(0, i as int)),
                value * unit <= usize::MAX,
                frac == fraction_len(body.subrange(0, i as int)),
                frac <= 19,
            decreases end - i,
        {
            let c = target_size.get_char(i);
            let ghost pre = body.subrange(0, i as int);
            let ghost next = body.subrange(0, i + 1);
            assert(next.drop_last() == pre);
            assert(next.last() == c);
            if '0' <= c && c <= '9' {
                let d = ((c as u32) - 48) as u128;
                value = value * 10 + d;
                if value * unit > usize::MAX as u128 {
                    proof {
                        assert(value == digits_value(next));
                        lemma_prefix_mono(body, i + 1);
                        let big = digits_value(body);
                        assert(big * unit > usize::MAX) by (nonlinear_arith)
                            requires
                                big >= value,
                                value * unit > usize::MAX,
                                unit >= 1,
                        ;
                    }
                    return Err(CompressionError::InvalidFormat(String::from_str("target size too large")));
                }
                if dots > 0 {
                    if frac == 19 {
                        proof {
                            lemma_prefix_mono(body, i + 1);
                        }
                        return Err(CompressionError::InvalidFormat(String::from_str("too many fraction digits")));
                    }
                    frac = frac + 1;
                }
                digits = digits + 1;
            } else if c == '.' {
                if unit == 1 || dots > 0 {
                    proof {
                        lemma_prefix_mono(body, i + 1);
                    }
                    return Err(CompressionError::InvalidFormat(String::from_str("invalid target size format")));
                }
                dots = dots + 1;
                frac = 0;
            } else {
                assert(!(is_digit(body[i as int]) || body[i as int] == '.'));
                return Err(CompressionError::InvalidFormat(String::from_str("invalid target size format")));
            }
            i = i + 1;
        }
        assert(body.subrange(0, end as int) == body);
        if digits == 0 {
            return Err(CompressionError::InvalidFormat(String::from_str("empty target size")));
        }
        proof {
            reveal_with_fuel(pow10, 20);
            assert(pow10(19) == 10_000_000_000_000_000_000u128);
        }
        let mut p: u128 = 1;
        let mut k: usize = 0;
        while k < frac
            invariant
                k <= frac <= 19,
                p == pow10(k as nat),
                pow10(19) == 10_000_000_000_000_000_000u128,
            decreases frac - k,
        {
            proof {
                lemma_pow10_mono((k + 1) as nat, 19);
            }
            p = p * 10;
            k = k + 1;
        }
        proof {
            lemma_pow10_pos(frac as nat);
        }
        Ok(((value * unit) / p) as usize)
    }
}

/// `n * num / den` rounded down, saturated to `u32`.
pub open spec fn scale_dim(n: int, num: int, den: int) -> int {
    let v = n * num / den;
    if v > u32::MAX { u32::MAX as int } else { v }
}

/// Output dimensions for a resize request on a `cw` by `ch` image. With both
/// targets: `contain` scales by the smaller ratio, `cover` by the larger one,
/// anything else stretches to the targets. With one target the other side
/// keeps the aspect ratio; with none the size stays.
pub open spec fn resize_dims(cw: int, ch: int, tw: Option<u32>, th: Option<u32>, fit: Seq<char>) -> (int, int) {
    match (tw, th) {
        (Some(w), Some(h)) => if fit == "contain"@ || fit == "cover"@ {
            let width_ratio_smaller = (w as int) * ch <= (h as int) * cw;
            if width_ratio_smaller == (fit == "contain"@) {
                (w as int, scale_dim(ch, w as int, cw))
            } else {
                (scale_dim(cw, h as int, ch), h as int)
            }
        } else {
            (w as int, h as int)
        },
        (Some(w), None) => (w as int, scale_dim(ch, w as int, cw)),
        (None, Some(h)) => (scale_dim(cw, h as int, ch), h as int),
        (None, None) => (cw, ch),
    }
}

fn scale_dim_exec(n: u32, num: u32, den: u32) -> (r: u32)
    requires
        den > 0,
    ensures
        r == scale_dim(n as int, num as int, den as int),
{
    proof {
        assert((n as u64) * (num as u64) <= 0xffff_ffffu64 * 0xffff_ffffu64) by (nonlinear_arith)
            requires
                n <= 0xffff_ffffu32,
                num <= 0xffff_ffffu32,
        ;
    }
    let v = (n as u64) * (num as u64) / (den as u64);
    if v > u32::MAX as u64 {
        u32::MAX
    } else {
        v as u32
    }
}

/// Output dimensions for resizing a non-empty `current_width` by
/// `current_height` image as `fit` (`fill`, `contain` or `cover`) asks.
pub fn calculate_resize_dimensions(
    current_width: u32,
    current_height: u32,
    target_width: Option<u32>,
    target_height: Option<u32>,
    fit: &str,
) -> (r: (u32, u32))
    requires
        current_width > 0,
        current_height > 0,
    ensures
        (r.0 as int, r.1 as int) == resize_dims(
            current_width as int,
            current_height as int,
            target_width,
            target_height,
            fit@,
        ),
{
    match (target_width, target_height) {
        (Some(w), Some(h)) => {
            let contain = chars_equal(fit, "contain");
            let cover = chars_equal(fit, "cover");
            if contain || cover {
                proof {
                    assert((w as u64) * (current_height as u64) <= 0xffff_ffffu64 * 0xffff_ffffu64) by (nonlinear_arith)
                        requires
                            w <= 0xffff_ffffu32,
                            current_height <= 0xffff_ffffu32,
                    ;
                    assert((h as u64) * (current_width as u64) <= 0xffff_ffffu64 * 0xffff_ffffu64) by (nonlinear_arith)
                        requires
                            h <= 0xffff_ffffu32,
                            current_width <= 0xffff_ffffu32,
                    ;
                }
                let width_ratio_smaller = (w as u64) * (current_height as u64) <= (h as u64) * (current_width as u64);
                if width_ratio_smaller == contain {
                    (w, scale_dim_exec(current_height, w, current_width))
                } else {
                    (scale_dim_exec(current_width, h, current_height), h)
                }
            } else {
                (w, h)
            }
        },
        (Some(w), None) => (w, scale_dim_exec(current_height, w, current_width)),
        (None, Some(h)) => (scale_dim_exec(current_width, h, current_height), h),
        (None, None) => (current_width, current_height),
    }
}

} // verus!
