//! Camera descriptions and the choice of the camera to open: the one
//! remembered in the settings when it is still connected, otherwise the one
//! the user types the number of.
use vstd::prelude::*;

verus! {

/// How the camera backend addresses a device.
#[derive(Clone, Debug, PartialEq, Eq)]
pub enum CameraId {
    /// By position in the backend's device list.
    Index(u32),
    /// By a backend-specific name or path.
    Name(String),
}

/// A connected camera.
#[derive(Clone, Debug)]
pub struct CameraDevice {
    /// The name shown to the user and remembered in the settings.
    pub display_name: String,
    /// How the backend addresses it.
    pub index: CameraId,
}

/// The camera remembered in the settings, when one is remembered and a
/// camera of that name is connected (the first of them when several are).
pub fn find_preferred_camera(cameras: &[CameraDevice], preferred: &Option<String>) -> (r: Option<usize>)
    ensures
        preferred is None ==> r is None,
        preferred matches Some(name) ==> match r {
            None => forall|j: int| 0 <= j < cameras.len() ==> #[trigger] cameras@[j].display_name@ != name@,
            Some(i) => i < cameras.len() && cameras@[i as int].display_name@ == name@
                && forall|j: int| 0 <= j < i ==> #[trigger] cameras@[j].display_name@ != name@,
        },
{
    match preferred {
        None => None,
        Some(name) => {
            let mut i: usize = 0;
            while i < cameras.len()
                invariant
                    0 <= i <= cameras.len(),
                    *preferred == Some(*name),
                    forall|j: int| 0 <= j < i ==> #[trigger] cameras@[j].display_name@ != name@,
                decreases cameras.len() - i,
            {
                if cameras[i].display_name == *name {
                    return Some(i);
                }
                i = i + 1;
            }
            None
        },
    }
}

/// Value of a decimal digit character.
pub open spec fn digit_value(c: char) -> int {
    c as int - '0' as int
}

/// `c` is one of the ASCII digits `0` to `9`.
pub open spec fn is_digit(c: char) -> bool {
    '0' <= c <= '9'
}

/// The number written by the decimal digits `s`.
pub open spec fn decimal_value(s: Seq<char>) -> int
    decreases s.len(),
{
    if s.len() == 0 {
        0
    } else {
        decimal_value(s.drop_last()) * 10 + digit_value(s.last())
    }
}

/// The digits of `s` once an optional leading `+` is removed.
pub open spec fn unsigned_digits(s: Seq<char>) -> Seq<char> {
    if s.len() > 0 && s[0] == '+' { s.subrange(1, s.len() as int) } else { s }
}

/// The `usize` that `s` spells in decimal: an optional `+`, then one or more
/// ASCII digits and nothing else, with a value that fits; `None` otherwise.
pub open spec fn parsed_usize(s: Seq<char>) -> Option<usize> {
    let d = unsigned_digits(s);
    if d.len() > 0 && (forall|i: int| 0 <= i < d.len() ==> is_digit(#[trigger] d[i])) && decimal_value(d) <= usize::MAX {
        Some(decimal_value(d) as usize)
    } else {
        None
    }
}

proof fn lemma_decimal_value_grows(s: Seq<char>, k: int)
    requires
        0 <= k <= s.len(),
        forall|i: int| 0 <= i < s.len() ==> is_digit(#[trigger] s[i]),
    ensures
        0 <= decimal_value(s.subrange(0, k)) <= decimal_value(s),
    decreases s.len() - k,
{
    if k < s.len() {
        lemma_decimal_value_grows(s, k + 1);
        assert(s.subrange(0, k + 1).drop_last() =~= s.subrange(0, k));
        assert(is_digit(s[k]));
    } else {
        assert(s.subrange(0, k) =~= s);
        lemma_decimal_value_nonneg(s);
    }
}

proof fn lemma_decimal_value_nonneg(s: Seq<char>)
    requires
        forall|i: int| 0 <= i < s.len() ==> is_digit(#[trigger] s[i]),
    ensures
        decimal_value(s) >= 0,
    decreases s.len(),
{
    if s.len() > 0 {
        assert(is_digit(s.last()));
        lemma_decimal_value_nonneg(s.drop_last());
    }
}

/// Reads a non-negative decimal number, as `usize::from_str` does.
pub fn parse_usize(s: &str) -> (r: Option<usize>)
    ensures
        r == parsed_usize(s@),
{
    let len = s.unicode_len();
    let mut i: usize = 0;
    if len > 0 && s.get_char(0) == '+' {
        i = 1;
    }
    let ghost d = unsigned_digits(s@);
    let ghost skip = i as int;
    if i >= len {
        return None;
    }
    let mut value: usize = 0;
    while i < len
        invariant
            len == s@.len(),
            skip == 0 || skip == 1,
            d == s@.subrange(skip, len as int),
            d == unsigned_digits(s@),
            skip <= i <= len,
            d.len() > 0,
            forall|j: int| 0 <= j < i - skip ==> is_digit(#[trigger] d[j]),
            value == decimal_value(d.subrange(0, i - skip)),
        decreases len - i,
    {
        let c = s.get_char(i);
        proof {
            assert(d[i - skip] == c);
            assert(d.subrange(0, i - skip + 1).drop_last() =~= d.subrange(0, i - skip));
        }
        if !('0' <= c && c <= '9') {
            proof {
                assert(!is_digit(d[i - skip]));
            }
            return None;
        }
        let digit = (c as u32 - '0' as u32) as usize;
        let next = match value.checked_mul(10) {
            Some(v) => v.checked_add(digit),
            None => None,
        };
        match next {
            Some(v) => {
                value = v;
            },
            None => {
                proof {
                    assert(digit == digit_value(c));
                    assert(decimal_value(d.subrange(0, i - skip + 1)) == value * 10 + digit);
                    assert(value * 10 + digit > usize::MAX);
                    if forall|j: int| 0 <= j < d.len() ==> is_digit(#[trigger] d[j]) {
                        lemma_decimal_value_grows(d, i - skip + 1);
                    }
                }
                return None;
            },
        }
        i = i + 1;
    }
    proof {
        assert(d.subrange(0, d.len() as int) =~= d);
    }
    Some(value)
}

/// What the user's answer to the camera prompt means.
#[derive(Clone, Copy, Debug, PartialEq, Eq, Structural)]
pub enum CameraChoice {
    /// The camera at this index of the list (the answer minus one).
    Selected(usize),
    /// The answer is not a number.
    NotANumber,
    /// The number does not name a listed camera.
    OutOfRange,
}

/// The meaning of the (already trimmed) answer `text` when `camera_count`
/// cameras are listed, numbered from one.
pub open spec fn camera_choice(text: Seq<char>, camera_count: usize) -> CameraChoice {
    match parsed_usize(text) {
        None => CameraChoice::NotANumber,
        Some(n) => if n == 0 || n > camera_count {
            CameraChoice::OutOfRange
        } else {
            CameraChoice::Selected((n - 1) as usize)
        },
    }
}

/// Interprets an answer from which surrounding whitespace is already removed.
pub fn camera_choice_from_text(text: &str, camera_count: usize) -> (r: CameraChoice)
    ensures
        r == camera_choice(text@, camera_count),
{
    match parse_usize(text) {
        None => CameraChoice::NotANumber,
        Some(n) => if n == 0 || n > camera_count {
            CameraChoice::OutOfRange
        } else {
            CameraChoice::Selected(n - 1)
        },
    }
}

/// The characters with the Unicode `White_Space` property, those that
/// `char::is_whitespace` accepts and `str::trim` removes.
pub open spec fn is_white_space(c: char) -> bool {
    ||| '\u{9}' <= c <= '\u{d}'
    ||| c == ' '
    ||| c == '\u{85}'
    ||| c == '\u{a0}'
    ||| c == '\u{1680}'
    ||| '\u{2000}' <= c <= '\u{200a}'
    ||| c == '\u{2028}'
    ||| c == '\u{2029}'
    ||| c == '\u{202f}'
    ||| c == '\u{205f}'
    ||| c == '\u{3000}'
}

/// `s` without its leading white space.
pub open spec fn trim_start(s: Seq<char>) -> Seq<char>
    decreases s.len(),
{
    if s.len() > 0 && is_white_space(s[0]) {
        trim_start(s.drop_first())
    } else {
        s
    }
}

/// `s` without its trailing white space.
pub open spec fn trim_end(s: Seq<char>) -> Seq<char>
    decreases s.len(),
{
    if s.len() > 0 && is_white_space(s.last()) {
        trim_end(s.drop_last())
    } else {
        s
    }
}

/// `s` without its leading and trailing white space, as `str::trim` gives it.
pub open spec fn trimmed(s: Seq<char>) -> Seq<char> {
    trim_end(trim_start(s))
}

fn is_white_space_char(c: char) -> (r: bool)
    ensures
        r == is_white_space(c),
{
    ('\u{9}' <= c && c <= '\u{d}') || c == ' ' || c == '\u{85}' || c == '\u{a0}' || c == '\u{1680}'
        || ('\u{2000}' <= c && c <= '\u{200a}') || c == '\u{2028}' || c == '\u{2029}' || c == '\u{202f}'
        || c == '\u{205f}' || c == '\u{3000}'
}

/// The text of `s` between its leading and its trailing white space.
pub fn trim_whitespace(s: &str) -> (r: &str)
    ensures
        r@ == trimmed(s@),
{
    let len = s.unicode_len();
    let mut start: usize = 0;
    proof {
        assert(s@.subrange(0, len as int) =~= s@);
    }
    while start < len && is_white_space_char(s.get_char(start))
        invariant
            len == s@.len(),
            start <= len,
            trim_start(s@) == trim_start(s@.subrange(start as int, len as int)),
        decreases len - start,
    {
        proof {
            assert(s@.subrange(start as int, len as int).drop_first() =~= s@.subrange(start + 1, len as int));
        }
        start = start + 1;
    }
    proof {
        if start == len {
            assert(s@.subrange(start as int, len as int).len() == 0);
        }
    }
    let mut end: usize = len;
    while end > start && is_white_space_char(s.get_char(end - 1))
        invariant
            len == s@.len(),
            start <= end <= len,
            trim_start(s@) == s@.subrange(start as int, len as int),
            trimmed(s@) == trim_end(s@.subrange(start as int, end as int)),
        decreases end - start,
    {
        proof {
            assert(s@.subrange(start as int, end as int).drop_last() =~= s@.subrange(start as int, end - 1));
        }
        end = end - 1;
    }
    s.substring_char(start, end)
}

/// Interprets a line typed at the camera prompt.
pub fn interpret_camera_choice(input: &str, camera_count: usize) -> (r: CameraChoice)
    ensures
        r == camera_choice(trimmed(input@), camera_count),
{
    let text = trim_whitespace(input);
    camera_choice_from_text(text, camera_count)
}

} // verus!
