//! Character-level helpers for line-oriented text.

use vstd::prelude::*;

verus! {

broadcast use vstd::string::group_string_axioms;

/// The characters of `s`, in order.
pub fn chars_of(s: &str) -> (r: Vec<char>)
    ensures
        r@ == s@,
{
    let mut v: Vec<char> = Vec::new();
    for c in it: s.chars()
        invariant
            v@ == it.seq().subrange(0, it.index() as int),
            it.seq() == s@,
    {
        v.push(c);
    }
    v
}

pub open spec fn is_field_space(c: char) -> bool {
    c == ' ' || c == '\t' || c == '\r' || c == '\x0C'
}

pub open spec fn is_digit(c: char) -> bool {
    '0' <= c <= '9'
}

pub open spec fn digit_value(c: char) -> int {
    (c as u32) - ('0' as u32)
}

/// The value of a run of decimal digits.
pub open spec fn digits_value(s: Seq<char>) -> int
    decreases s.len(),
{
    if s.len() == 0 {
        0
    } else {
        digits_value(s.drop_last()) * 10 + digit_value(s.last())
    }
}

pub open spec fn all_digits(s: Seq<char>) -> bool {
    s.len() > 0 && forall|i: int| 0 <= i < s.len() ==> is_digit(#[trigger] s[i])
}

/// The integer that `s` writes in decimal: digits after an optional `+`, or
/// after a `-` where `signed` allows one. Nothing else is accepted.
pub open spec fn decimal_value(s: Seq<char>, signed: bool) -> Option<int> {
    if s.len() > 0 && s[0] == '+' {
        if all_digits(s.drop_first()) {
            Some(digits_value(s.drop_first()))
        } else {
            None
        }
    } else if s.len() > 0 && s[0] == '-' {
        if signed && all_digits(s.drop_first()) {
            Some(-digits_value(s.drop_first()))
        } else {
            None
        }
    } else if all_digits(s) {
        Some(digits_value(s))
    } else {
        None
    }
}

/// The decimal value of `s` where it lies in `[lo, hi]`.
pub open spec fn bounded_value(s: Seq<char>, signed: bool, lo: int, hi: int) -> Option<int> {
    match decimal_value(s, signed) {
        Some(v) => if lo <= v <= hi {
            Some(v)
        } else {
            None
        },
        None => None,
    }
}

/// The value of a 32-bit signed decimal field.
pub open spec fn i32_field(s: Seq<char>) -> Option<int> {
    bounded_value(s, true, i32::MIN as int, i32::MAX as int)
}

/// The value of a 32-bit unsigned decimal field.
pub open spec fn u32_field(s: Seq<char>) -> Option<int> {
    bounded_value(s, false, 0, u32::MAX as int)
}

proof fn lemma_digits_nonneg(s: Seq<char>)
    requires
        forall|i: int| 0 <= i < s.len() ==> is_digit(#[trigger] s[i]),
    ensures
        digits_value(s) >= 0,
    decreases s.len(),
{
    if s.len() > 0 {
        assert forall|i: int| 0 <= i < s.drop_last().len() implies is_digit(
            #[trigger] s.drop_last()[i],
        ) by {
            assert(s.drop_last()[i] == s[i]);
        }
        lemma_digits_nonneg(s.drop_last());
    }
}

/// Bound above which a run of digits is not tracked exactly.
pub const DIGITS_CAP: u64 = 0x1_0000_0000;

/// The value of the digits `cs[a..b]`, or `None` where one is not a digit or
/// the value exceeds `DIGITS_CAP`.
fn digits_in(cs: &Vec<char>, a: usize, b: usize) -> (r: Option<u64>)
    requires
        a <= b <= cs@.len(),
    ensures
        match r {
            Some(v) => all_digits(cs@.subrange(a as int, b as int)) && v == digits_value(
                cs@.subrange(a as int, b as int),
            ) && v <= DIGITS_CAP,
            None => !all_digits(cs@.subrange(a as int, b as int)) || digits_value(
                cs@.subrange(a as int, b as int),
            ) > DIGITS_CAP,
        },
{
    if a == b {
        return None;
    }
    let mut acc: u64 = 0;
    let mut big = false;
    let mut i = a;
    while i < b
        invariant
            a <= i <= b <= cs@.len(),
            forall|k: int| a <= k < i ==> is_digit(#[trigger] cs@[k]),
            !big ==> acc == digits_value(cs@.subrange(a as int, i as int)) && acc <= DIGITS_CAP,
            big ==> digits_value(cs@.subrange(a as int, i as int)) > DIGITS_CAP,
        decreases b - i,
    {
        let c = cs[i];
        if !('0' <= c && c <= '9') {
            proof {
                let s = cs@.subrange(a as int, b as int);
                assert(s[i - a] == c);
            }
            return None;
        }
        proof {
            let s1 = cs@.subrange(a as int, i as int);
            let s2 = cs@.subrange(a as int, i + 1 as int);
            assert(s2.drop_last() =~= s1);
            assert(s2.last() == c);
            assert forall|k: int| 0 <= k < s1.len() implies is_digit(#[trigger] s1[k]) by {
                assert(s1[k] == cs@[a + k]);
            }
            lemma_digits_nonneg(s1);
        }
        let d: u64 = (c as u32 - '0' as u32) as u64;
        if !big {
            if acc > DIGITS_CAP / 10 {
                big = true;
            } else {
                acc = acc * 10 + d;
                if acc > DIGITS_CAP {
                    big = true;
                }
            }
        }
        i = i + 1;
    }
    proof {
        let s = cs@.subrange(a as int, b as int);
        assert forall|k: int| 0 <= k < s.len() implies is_digit(#[trigger] s[k]) by {
            assert(s[k] == cs@[a + k]);
        }
    }
    if big {
        None
    } else {
        Some(acc)
    }
}

/// The value of the decimal field `cs[a..b]` where it lies in `[lo, hi]`.
pub fn bounded_in(cs: &Vec<char>, a: usize, b: usize, signed: bool, lo: i64, hi: i64) -> (r:
    Option<i64>)
    requires
        a <= b <= cs@.len(),
        -(DIGITS_CAP as int) <= lo <= hi <= DIGITS_CAP,
    ensures
        r == match bounded_value(cs@.subrange(a as int, b as int), signed, lo as int, hi as int) {
            Some(v) => Some(v as i64),
            None => None::<i64>,
        },
        r matches Some(v) ==> lo <= v <= hi,
{
    let ghost s = cs@.subrange(a as int, b as int);
    if a < b && (cs[a] == '+' || cs[a] == '-') {
        let neg = cs[a] == '-';
        assert(s[0] == cs@[a as int]);
        assert(s.drop_first() =~= cs@.subrange(a + 1, b as int));
        if neg && !signed {
            return None;
        }
        match digits_in(cs, a + 1, b) {
            Some(v) => {
                let val: i64 = if neg {
                    -(v as i64)
                } else {
                    v as i64
                };
                if lo <= val && val <= hi {
                    Some(val)
                } else {
                    None
                }
            },
            None => {
                proof {
                    if all_digits(s.drop_first()) {
                        lemma_digits_nonneg(s.drop_first());
                    }
                }
                None
            },
        }
    } else {
        proof {
            if a < b {
                assert(s[0] == cs@[a as int]);
            }
        }
        match digits_in(cs, a, b) {
            Some(v) => {
                if lo <= v as i64 && v as i64 <= hi {
                    Some(v as i64)
                } else {
                    None
                }
            },
            None => None,
        }
    }
}

/// The fields of a line: its maximal runs of characters other than field
/// spaces, in order. Each such character extends the field that the
/// character before it belongs to, or begins a new one.
pub open spec fn fields(s: Seq<char>) -> Seq<Seq<char>>
    decreases s.len(),
{
    if s.len() == 0 {
        Seq::empty()
    } else {
        let p = fields(s.drop_last());
        let c = s.last();
        if is_field_space(c) {
            p
        } else if s.len() > 1 && !is_field_space(s[s.len() - 2]) {
            p.update(p.len() - 1, p.last().push(c))
        } else {
            p.push(seq![c])
        }
    }
}

/// The index of the first line break in `t` at or after `i`, or the length
/// of `t` where there is none.
pub open spec fn line_end(t: Seq<char>, i: int) -> int
    decreases t.len() - i,
{
    if i >= t.len() {
        t.len() as int
    } else if t[i] == '\n' {
        i
    } else {
        line_end(t, i + 1)
    }
}

/// The spans `[start, end)` of the fields of the line `cs[a..b]`.
pub fn field_spans(cs: &Vec<char>, a: usize, b: usize) -> (r: Vec<(usize, usize)>)
    requires
        a <= b <= cs@.len(),
    ensures
        r@.len() == fields(cs@.subrange(a as int, b as int)).len(),
        forall|k: int|
            0 <= k < r@.len() ==> a <= (#[trigger] r@[k]).0 < r@[k].1 <= b && cs@.subrange(
                r@[k].0 as int,
                r@[k].1 as int,
            ) == fields(cs@.subrange(a as int, b as int))[k],
{
    let mut spans: Vec<(usize, usize)> = Vec::new();
    let mut i = a;
    while i < b
        invariant
            a <= i <= b <= cs@.len(),
            spans@.len() == fields(cs@.subrange(a as int, i as int)).len(),
            forall|k: int|
                0 <= k < spans@.len() ==> a <= (#[trigger] spans@[k]).0 < spans@[k].1 <= i
                    && cs@.subrange(spans@[k].0 as int, spans@[k].1 as int) == fields(
                    cs@.subrange(a as int, i as int),
                )[k],
            i > a && !is_field_space(cs@[i - 1]) ==> spans@.len() > 0 && spans@.last().1 == i,
        decreases b - i,
    {
        let c = cs[i];
        let ghost prev = cs@.subrange(a as int, i as int);
        let ghost next = cs@.subrange(a as int, i + 1 as int);
        assert(next.drop_last() =~= prev);
        assert(next.last() == c);
        if c == ' ' || c == '\t' || c == '\r' || c == '\x0C' {
        } else if i > a && !(cs[i - 1] == ' ' || cs[i - 1] == '\t' || cs[i - 1] == '\r' || cs[i
            - 1] == '\x0C') {
            assert(next[next.len() - 2] == cs@[i - 1]);
            let last = spans.len() - 1;
            let start = spans[last].0;
            spans.set(last, (start, i + 1));
            proof {
                let f = fields(prev);
                assert(cs@.subrange(start as int, i + 1 as int) =~= f.last().push(c));
            }
        } else {
            proof {
                if i > a {
                    assert(next[next.len() - 2] == cs@[i - 1]);
                }
                assert(cs@.subrange(i as int, i + 1 as int) =~= seq![c]);
            }
            spans.push((i, i + 1));
        }
        i = i + 1;
    }
    spans
}

/// The index of the first line break in `cs` at or after `from`, or the
/// length of `cs` where there is none.
pub fn find_line_end(cs: &Vec<char>, from: usize) -> (r: usize)
    requires
        from <= cs@.len(),
    ensures
        from <= r <= cs@.len(),
        r == from + line_end(cs@.subrange(from as int, cs@.len() as int), 0),
        forall|k: int| from <= k < r ==> cs@[k] != '\n',
        r < cs@.len() ==> cs@[r as int] == '\n',
{
    let ghost t = cs@.subrange(from as int, cs@.len() as int);
    let mut j = from;
    while j < cs.len() && cs[j] != '\n'
        invariant
            from <= j <= cs@.len(),
            t == cs@.subrange(from as int, cs@.len() as int),
            line_end(t, 0) == line_end(t, j - from),
            forall|k: int| from <= k < j ==> cs@[k] != '\n',
        decreases cs@.len() - j,
    {
        assert(t[j - from] == cs@[j as int]);
        j = j + 1;
    }
    proof {
        if j < cs@.len() {
            assert(t[j - from] == cs@[j as int]);
        }
    }
    j
}

} // verus!
