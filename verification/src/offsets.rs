//! Offsets typed by the user, and the ids that tell hex cells apart.

use vstd::prelude::*;

use crate::editor::PaneSide;
use crate::hex::{char_is_whitespace, is_white_space};
use crate::pieces::imin;

verus! {

/// `s` without the white space at its start.
pub open spec fn trim_start_ws(s: Seq<char>) -> Seq<char>
    decreases s.len(),
{
    if s.len() > 0 && is_white_space(s[0]) {
        trim_start_ws(s.drop_first())
    } else {
        s
    }
}

/// `s` without the white space at its end.
pub open spec fn trim_end_ws(s: Seq<char>) -> Seq<char>
    decreases s.len(),
{
    if s.len() > 0 && is_white_space(s.last()) {
        trim_end_ws(s.drop_last())
    } else {
        s
    }
}

/// `s` without white space at either end, as `str::trim` leaves it.
pub open spec fn trim_ws(s: Seq<char>) -> Seq<char> {
    trim_end_ws(trim_start_ws(s))
}

/// `s` without its underscores.
pub open spec fn without_underscores(s: Seq<char>) -> Seq<char>
    decreases s.len(),
{
    if s.len() == 0 {
        Seq::empty()
    } else if s.last() == '_' {
        without_underscores(s.drop_last())
    } else {
        without_underscores(s.drop_last()).push(s.last())
    }
}

/// The value of a digit in `radix`: `0`-`9`, then `a`-`z` or `A`-`Z` from
/// ten on.
pub open spec fn digit_of(c: char, radix: nat) -> Option<nat> {
    let d: int = if '0' <= c <= '9' {
        c as int - '0' as int
    } else if 'a' <= c <= 'z' {
        c as int - 'a' as int + 10
    } else if 'A' <= c <= 'Z' {
        c as int - 'A' as int + 10
    } else {
        radix as int
    };
    if d < radix {
        Some(d as nat)
    } else {
        None
    }
}

/// The value of a run of digits in `radix`, if every character is one.
pub open spec fn digits_value(s: Seq<char>, radix: nat) -> Option<nat>
    decreases s.len(),
{
    if s.len() == 0 {
        Some(0)
    } else {
        match (digits_value(s.drop_last(), radix), digit_of(s.last(), radix)) {
            (Some(v), Some(d)) => Some(v * radix + d),
            _ => None,
        }
    }
}

/// What `u64::from_str_radix` reads: an optional `+` before at least one
/// digit, with a value that fits.
pub open spec fn radix_value(s: Seq<char>, radix: nat) -> Option<u64> {
    let body = if s.len() > 1 && s[0] == '+' {
        s.drop_first()
    } else {
        s
    };
    if body.len() == 0 {
        None
    } else {
        match digits_value(body, radix) {
            Some(v) => if v <= u64::MAX {
                Some(v as u64)
            } else {
                None
            },
            None => None,
        }
    }
}

/// The offset that a "go to" entry names: white space around it and
/// underscores in it are ignored; `0x` or `0X` starts a hexadecimal number;
/// otherwise the entry is read as decimal, and failing that as hexadecimal.
pub open spec fn parse_offset_spec(input: Seq<char>) -> Option<u64> {
    let t = without_underscores(trim_ws(input));
    if t.len() == 0 {
        None
    } else if t.len() >= 2 && t[0] == '0' && (t[1] == 'x' || t[1] == 'X') {
        radix_value(t.skip(2), 16)
    } else {
        match radix_value(t, 10) {
            Some(v) => Some(v),
            None => radix_value(t, 16),
        }
    }
}

proof fn lemma_trim_start_skip(s: Seq<char>, k: int)
    requires
        0 <= k < s.len(),
        is_white_space(s[k]),
    ensures
        trim_start_ws(s.skip(k)) == trim_start_ws(s.skip(k + 1)),
{
    assert(s.skip(k).drop_first() =~= s.skip(k + 1));
}

proof fn lemma_trim_end_take(s: Seq<char>, k: int)
    requires
        0 < k <= s.len(),
        is_white_space(s[k - 1]),
    ensures
        trim_end_ws(s.take(k)) == trim_end_ws(s.take(k - 1)),
{
    assert(s.take(k).drop_last() =~= s.take(k - 1));
}

/// A run of digits has a value exactly when each prefix has one, and the
/// prefixes' values never exceed the whole's.
proof fn lemma_digits_prefix(s: Seq<char>, radix: nat, k: int)
    requires
        0 <= k <= s.len(),
        radix >= 1,
    ensures
        digits_value(s, radix) is Some ==> digits_value(s.take(k), radix) is Some,
        digits_value(s, radix) matches Some(w) ==> digits_value(s.take(k), radix) matches Some(p) && p <= w,
    decreases s.len() - k,
{
    if k < s.len() {
        lemma_digits_prefix(s, radix, k + 1);
        assert(s.take(k + 1).drop_last() =~= s.take(k));
        if let Some(w) = digits_value(s, radix) {
            let p1 = digits_value(s.take(k + 1), radix)->0;
            let p = digits_value(s.take(k), radix)->0;
            let d = digit_of(s.take(k + 1).last(), radix)->0;
            assert(p1 == p * radix + d);
            assert(p <= p * radix) by (nonlinear_arith)
                requires
                    radix >= 1,
            ;
        }
    } else {
        assert(s.take(k) =~= s);
    }
}

fn digit_value(c: char, radix: u64) -> (r: Option<u64>)
    requires
        2 <= radix <= 36,
    ensures
        match r {
            Some(d) => digit_of(c, radix as nat) == Some(d as nat),
            None => digit_of(c, radix as nat) is None,
        },
{
    let d: u64 = if '0' <= c && c <= '9' {
        (c as u32 - '0' as u32) as u64
    } else if 'a' <= c && c <= 'z' {
        (c as u32 - 'a' as u32) as u64 + 10
    } else if 'A' <= c && c <= 'Z' {
        (c as u32 - 'A' as u32) as u64 + 10
    } else {
        radix
    };
    if d < radix {
        Some(d)
    } else {
        None
    }
}

/// The value of `t[from..]` as `u64::from_str_radix` reads it.
fn radix_value_of(t: &Vec<char>, from: usize, radix: u64) -> (r: Option<u64>)
    requires
        from <= t@.len(),
        2 <= radix <= 36,
    ensures
        r == radix_value(t@.skip(from as int), radix as nat),
{
    let ghost s = t@.skip(from as int);
    let n = t.len();
    let begin = if n - from > 1 && t[from] == '+' {
        from + 1
    } else {
        from
    };
    let ghost body = t@.skip(begin as int);
    assert(body == (if s.len() > 1 && s[0] == '+' {
        s.drop_first()
    } else {
        s
    })) by {
        if begin > from {
            assert(s.drop_first() =~= body);
        } else {
            assert(s =~= body);
        }
    }
    if begin == n {
        return None;
    }
    let mut value: u64 = 0;
    let mut k: usize = begin;
    while k < n
        invariant
            begin <= k <= n,
            n == t@.len(),
            body == t@.skip(begin as int),
            body.len() > 0,
            s == t@.skip(from as int),
            body == (if s.len() > 1 && s[0] == '+' {
                s.drop_first()
            } else {
                s
            }),
            2 <= radix <= 36,
            digits_value(body.take(k - begin), radix as nat) == Some(value as nat),
        decreases n - k,
    {
        proof {
            assert(body.take(k + 1 - begin).drop_last() =~= body.take(k - begin));
            assert(body.take(k + 1 - begin).last() == t@[k as int]);
        }
        let d = match digit_value(t[k], radix) {
            Some(d) => d,
            None => {
                proof {
                    lemma_digits_prefix(body, radix as nat, k + 1 - begin);
                    assert(digits_value(body.take(k + 1 - begin), radix as nat) is None);
                    assert(digits_value(body, radix as nat) is None);
                }
                return None;
            },
        };
        let next = match value.checked_mul(radix) {
            Some(m) => m.checked_add(d),
            None => None,
        };
        match next {
            Some(v) => {
                value = v;
            },
            None => {
                proof {
                    lemma_digits_prefix(body, radix as nat, k + 1 - begin);
                    assert(value * radix + d > u64::MAX) by (nonlinear_arith)
                        requires
                            value * radix > u64::MAX || value * radix + d > u64::MAX,
                            d >= 0,
                    ;
                    assert(digits_value(body.take(k + 1 - begin), radix as nat) == Some((value * radix + d) as nat));
                    assert(digits_value(body, radix as nat) matches Some(w) ==> w > u64::MAX);
                }
                return None;
            },
        }
        k = k + 1;
    }
    assert(body.take(n - begin) =~= body);
    Some(value)
}

/// The offset that a "go to" entry names, if it names one.
pub fn parse_offset(input: &str) -> (r: Option<u64>)
    ensures
        r == parse_offset_spec(input@),
{
    let ghost s = input@;
    let mut chars: Vec<char> = Vec::new();
    for ch in it: input.chars()
        invariant
            it.seq() == s,
            chars@ == s.take(it.index() as int),
    {
        chars.push(ch);
        assert(chars@ =~= s.take(it.index() + 1));
    }
    assert(chars@ =~= s);
    let n = chars.len();
    let mut start: usize = 0;
    while start < n && char_is_whitespace(chars[start])
        invariant
            start <= n,
            n == s.len(),
            chars@ == s,
            trim_start_ws(s) == trim_start_ws(s.skip(start as int)),
        decreases n - start,
    {
        proof {
            lemma_trim_start_skip(s, start as int);
        }
        start = start + 1;
    }
    let ghost head = s.skip(start as int);
    assert(trim_start_ws(head) == head);
    assert(head.take(n - start) =~= head);
    let mut end: usize = n;
    while end > start && char_is_whitespace(chars[end - 1])
        invariant
            start <= end <= n,
            n == s.len(),
            chars@ == s,
            head == s.skip(start as int),
            trim_end_ws(head) == trim_end_ws(head.take(end - start)),
        decreases end,
    {
        proof {
            lemma_trim_end_take(head, end - start);
        }
        end = end - 1;
    }
    let ghost core = head.take(end - start);
    assert(trim_end_ws(core) == core);
    assert(trim_ws(s) == core);
    let mut t: Vec<char> = Vec::new();
    let mut k: usize = start;
    while k < end
        invariant
            start <= k <= end <= n,
            n == s.len(),
            chars@ == s,
            core == s.skip(start as int).take(end - start),
            t@ == without_underscores(core.take(k - start)),
        decreases end - k,
    {
        proof {
            assert(core.take(k + 1 - start).drop_last() =~= core.take(k - start));
            assert(core.take(k + 1 - start).last() == s[k as int]);
        }
        if chars[k] != '_' {
            t.push(chars[k]);
        }
        k = k + 1;
    }
    assert(core.take(end - start) =~= core);
    assert(t@ == without_underscores(trim_ws(s)));
    if t.len() == 0 {
        return None;
    }
    if t.len() >= 2 && t[0] == '0' && (t[1] == 'x' || t[1] == 'X') {
        return radix_value_of(&t, 2, 16);
    }
    assert(t@.skip(0) =~= t@);
    match radix_value_of(&t, 0, 10) {
        Some(v) => Some(v),
        None => radix_value_of(&t, 0, 16),
    }
}

/// The number of a pane: 0 for the left, 1 for the right.
pub open spec fn pane_number(side: PaneSide) -> int {
    match side {
        PaneSide::Left => 0,
        PaneSide::Right => 1,
    }
}

/// The number of a pane.
pub fn pane_index(side: PaneSide) -> (n: usize)
    ensures
        n == pane_number(side),
{
    match side {
        PaneSide::Left => 0,
        PaneSide::Right => 1,
    }
}

/// `a + b`, or the largest `u64` when the sum is larger.
pub open spec fn sat(x: int) -> int {
    imin(x, u64::MAX as int)
}

/// The id of the hex cell for byte `offset` in lane `lane` of pane `side`:
/// four ids per byte, two per pane, each step saturating, and the largest
/// `usize` when it does not fit.
pub open spec fn cell_id_spec(side: PaneSide, offset: int, lane: int) -> int {
    let v = sat(sat(sat(offset * 4) + pane_number(side) * 2) + lane);
    if v <= usize::MAX {
        v
    } else {
        usize::MAX as int
    }
}

/// The id of the hex cell for byte `offset` in lane `lane` of pane `side`.
pub fn byte_cell_id(side: PaneSide, offset: u64, lane: u64) -> (id: usize)
    ensures
        id == cell_id_spec(side, offset as int, lane as int),
{
    let side_offset = pane_index(side) as u64;
    let times_four = if offset > u64::MAX / 4 {
        u64::MAX
    } else {
        offset * 4
    };
    let with_side = if times_four > u64::MAX - side_offset * 2 {
        u64::MAX
    } else {
        times_four + side_offset * 2
    };
    let v = if with_side > u64::MAX - lane {
        u64::MAX
    } else {
        with_side + lane
    };
    if v <= usize::MAX as u64 {
        v as usize
    } else {
        usize::MAX
    }
}

} // verus!
