//! Laws of the editor's actions, stated over the spec functions that the
//! actions' contracts use.

use vstd::prelude::*;
use vstd::utf8::{encode_utf8, is_ascii_chars, is_ascii_chars_encode_utf8};

use crate::document::splice;
use crate::editing::{apply_result, apply_spec, delete_spec, focused_model, hex_join, history_spec};
use crate::editor::{active_len, contents_of, focused_ix, has_active, sel_range, EditMode, EditorView};
use crate::hex::{
    hex_digit_value, hex_digits_of, is_hex_digit, is_white_space, lemma_first_bad_pair, pair_ok, pair_value, spec_parse_hex,
    strip_white_space, HexErrorView,
};
use crate::input::{confirm_goto_spec, goto_spec, goto_text};
use crate::inspector::spec_next;
use crate::navigation::{flip_endian, flip_mode, move_cursor_spec};
use crate::offsets::{
    digit_of, digits_value, parse_offset_spec, trim_end_ws, trim_start_ws, trim_ws,
    without_underscores,
};
use crate::replacing::{found_at, show_match};
use crate::search::{lemma_first_match_bounds, matches_at};
use crate::text::{digit_char, lemma_hex_ascii, spec_decimal, spec_digits, spec_hex, zero_padded};

verus! {

/// Moving the cursor keeps it between the start and one past the end of the
/// focused document, and leaves the documents as they were.
pub proof fn lemma_cursor_stays_in_document(v: EditorView, delta: int, extend: bool)
    requires
        has_active(v),
    ensures
        move_cursor_spec(v, delta, extend).cursor <= active_len(v),
        move_cursor_spec(v, delta, extend).docs == v.docs,
{
}

/// From the last byte, one step right puts the cursor one past the end,
/// where typing appends.
pub proof fn lemma_cursor_reaches_end(v: EditorView)
    requires
        has_active(v),
        0 < active_len(v) < u64::MAX,
        v.cursor == active_len(v) - 1,
    ensures
        move_cursor_spec(v, 1, false).cursor == active_len(v),
{
}

/// In insert mode, bytes typed with the cursor one past the end and no
/// selection are appended, and the cursor follows them.
pub proof fn lemma_append_at_end(v: EditorView, bytes: Seq<u8>)
    requires
        has_active(v),
        v.edit_mode == EditMode::Insert,
        sel_range(v) is None,
        v.cursor == active_len(v),
        bytes.len() > 0,
        active_len(v) + bytes.len() < u64::MAX,
    ensures
        apply_result(v, bytes) == Ok::<usize, crate::document::EditError>(bytes.len() as usize),
        contents_of(apply_spec(v, bytes), focused_ix(v)) == contents_of(v, focused_ix(v)) + bytes,
        apply_spec(v, bytes).cursor == active_len(v) + bytes.len(),
{
    let c = contents_of(v, focused_ix(v));
    assert(splice(c, c.len() as int, c.len() as int, bytes) =~= c + bytes);
}

/// Without a selection, "delete" removes exactly the byte under the cursor.
pub proof fn lemma_delete_cursor_byte(v: EditorView)
    requires
        has_active(v),
        !v.goto_open,
        sel_range(v) is None,
        v.cursor < active_len(v),
    ensures
        contents_of(delete_spec(v), focused_ix(v)) == contents_of(v, focused_ix(v)).take(v.cursor as int)
            + contents_of(v, focused_ix(v)).skip(v.cursor + 1),
        delete_spec(v).cursor == v.cursor,
{
}

/// Undo right after bytes were applied gives the focused document back its
/// contents before them.
pub proof fn lemma_apply_then_undo(v: EditorView, bytes: Seq<u8>)
    requires
        has_active(v),
        apply_result(v, bytes) is Ok,
        bytes.len() > 0,
    ensures
        contents_of(history_spec(apply_spec(v, bytes), false), focused_ix(v)) == contents_of(v, focused_ix(v)),
{
    let i = focused_ix(v);
    let m = focused_model(v);
    let w = apply_spec(v, bytes);
    assert(focused_ix(w) == i);
    assert(w.docs[i].model.undo.last() == m.current);
}

/// A search lands on a match, and "find" then selects exactly its bytes.
pub proof fn lemma_find_selects_match(v: EditorView, needle: Seq<u8>, start: int)
    requires
        found_at(v, needle, start) is Some,
        active_len(v) < u64::MAX,
    ensures
        matches_at(contents_of(v, focused_ix(v)), needle, found_at(v, needle, start)->0),
        ({
            let p = found_at(v, needle, start)->0;
            let w = show_match(v, p, needle.len() as int);
            sel_range(w) == Some((p, p + needle.len()))
        }),
{
    let c = contents_of(v, focused_ix(v));
    lemma_first_match_bounds(c, needle, start);
    lemma_first_match_bounds(c, needle, 0);
}

/// Toggling the byte order or the edit mode twice gives the setting back;
/// the preview encodings come back after five steps.
pub proof fn lemma_toggles_return(v: EditorView)
    ensures
        flip_endian(flip_endian(v.endian)) == v.endian,
        flip_mode(flip_mode(v.edit_mode)) == v.edit_mode,
        spec_next(spec_next(spec_next(spec_next(spec_next(v.encoding))))) == v.encoding,
{
}

/// The digit characters of a number read back as the number.
proof fn lemma_digits_read_back(n: nat, radix: nat)
    requires
        2 <= radix <= 16,
    ensures
        digits_value(spec_digits(n, radix), radix) == Some(n),
        forall|i: int| 0 <= i < spec_digits(n, radix).len() ==> #[trigger] digit_of(spec_digits(n, radix)[i], radix) is Some,
    decreases n,
{
    if n < radix {
        let s = spec_digits(n, radix);
        assert(s == seq![digit_char(n as int)]);
        assert(s.drop_last() =~= Seq::<char>::empty());
        assert(digits_value(s.drop_last(), radix) == Some(0nat));
        assert(digit_of(digit_char(n as int), radix) == Some(n));
        assert(s.last() == digit_char(n as int));
        assert(0 * radix + n == n);
    } else {
        assert(n / radix < n) by (nonlinear_arith)
            requires
                radix >= 2,
                n >= radix,
        ;
        lemma_digits_read_back(n / radix, radix);
        let s = spec_digits(n, radix);
        let d = (n % radix) as int;
        assert(d < radix) by (nonlinear_arith)
            requires
                radix >= 2,
                d == n % radix,
        ;
        assert(s.drop_last() =~= spec_digits(n / radix, radix));
        assert(s.last() == digit_char(d));
        assert(digit_of(digit_char(d), radix) == Some(d as nat));
        assert(digits_value(s.drop_last(), radix) == Some(n / radix));
        assert forall|i: int| 0 <= i < s.len() implies #[trigger] digit_of(s[i], radix) is Some by {
            if i < s.len() - 1 {
                assert(s[i] == spec_digits(n / radix, radix)[i]);
            }
        }
        assert(n == (n / radix) * radix + d) by (nonlinear_arith)
            requires
                radix >= 2,
                d == n % radix,
        ;
    }
}

/// Digit characters are no white space and no underscore.
proof fn lemma_digits_plain(s: Seq<char>)
    requires
        forall|i: int| 0 <= i < s.len() ==> '0' <= #[trigger] s[i] <= 'F',
    ensures
        trim_ws(s) == s,
        without_underscores(s) == s,
    decreases s.len(),
{
    if s.len() > 0 {
        assert(!is_white_space(s[0]));
        assert(!is_white_space(s.last()));
        assert(trim_start_ws(s) == s);
        lemma_digits_plain(s.drop_last());
        assert(s.drop_last().push(s.last()) =~= s);
    }
}

/// A decimal offset reads back as itself.
pub proof fn lemma_decimal_offset_reads_back(n: u64)
    ensures
        parse_offset_spec(spec_decimal(n as nat)) == Some(n),
{
    let t = spec_digits(n as nat, 10);
    crate::text::lemma_digits_ascii(n as nat, 10);
    lemma_digits_plain(t);
    lemma_digits_read_back(n as nat, 10);
    if t.len() >= 2 {
        assert(t[1] != 'x' && t[1] != 'X');
    }
    if t.len() > 1 {
        assert(t[0] != '+');
    }
}

/// The text that "go to offset" opens with reads back as the cursor, so
/// confirming it at once leaves the cursor where it was.
pub proof fn lemma_goto_reads_back(v: EditorView)
    requires
        v.cursor <= active_len(v),
    ensures
        parse_offset_spec(goto_text(v.cursor)) == Some(v.cursor),
        confirm_goto_spec(goto_spec(v)).cursor == v.cursor,
{
    let c = v.cursor;
    let h = spec_hex(c as nat, 0);
    let t = goto_text(c);
    reveal_strlit("0x");
    lemma_hex_ascii(c as nat, 0);
    assert(h =~= spec_digits(c as nat, 16));
    lemma_digits_read_back(c as nat, 16);
    assert(t.len() >= 3);
    assert(t[0] == '0');
    assert(!is_white_space(t[0]));
    assert(trim_start_ws(t) == t);
    assert(t.last() == h.last());
    assert(!is_white_space(t.last()));
    assert(trim_end_ws(t) == t);
    assert(without_underscores(t) == t) by {
        lemma_digits_plain(h);
        lemma_no_underscore_prefix(t);
    }
    assert(t.skip(2) =~= h);
    if h.len() > 1 {
        assert(h[0] != '+');
    }
}

/// `0x` followed by digits keeps its underscores-free form.
proof fn lemma_no_underscore_prefix(t: Seq<char>)
    requires
        forall|i: int| 0 <= i < t.len() ==> #[trigger] t[i] != '_',
    ensures
        without_underscores(t) == t,
    decreases t.len(),
{
    if t.len() > 0 {
        lemma_no_underscore_prefix(t.drop_last());
        assert(t.drop_last().push(t.last()) =~= t);
    }
}

/// The hex pairs of bytes, without separators.
pub open spec fn hex_pairs(b: Seq<u8>) -> Seq<char>
    decreases b.len(),
{
    if b.len() == 0 {
        Seq::empty()
    } else {
        hex_pairs(b.drop_last()) + spec_hex(b.last() as nat, 2)
    }
}

/// A byte in hex is its two digits.
proof fn lemma_hex_byte(x: u8)
    ensures
        spec_hex(x as nat, 2) == seq![digit_char((x / 16) as int), digit_char((x % 16) as int)],
{
    let d = spec_digits(x as nat, 16);
    if x < 16 {
        assert(d == seq![digit_char(x as int)]);
        assert(zero_padded(d, 2) =~= seq!['0', digit_char(x as int)]);
    } else {
        assert(x / 16 < 16);
        assert(spec_digits((x / 16) as nat, 16) == seq![digit_char((x / 16) as int)]);
        assert(d =~= seq![digit_char((x / 16) as int), digit_char((x % 16) as int)]);
    }
}

proof fn lemma_strip_concat(a: Seq<char>, b: Seq<char>)
    ensures
        strip_white_space(a + b) == strip_white_space(a) + strip_white_space(b),
    decreases b.len(),
{
    if b.len() == 0 {
        assert(a + b =~= a);
        assert(strip_white_space(a) + Seq::<char>::empty() =~= strip_white_space(a));
    } else {
        assert((a + b).drop_last() =~= a + b.drop_last());
        lemma_strip_concat(a, b.drop_last());
        if is_white_space(b.last()) {
        } else {
            assert(strip_white_space(a) + strip_white_space(b.drop_last()).push(b.last()) =~= (
            strip_white_space(a) + strip_white_space(b.drop_last())).push(b.last()));
        }
    }
}

/// Digits are no white space, so stripping it leaves them.
proof fn lemma_strip_digits(s: Seq<char>)
    requires
        forall|i: int| 0 <= i < s.len() ==> '0' <= #[trigger] s[i] <= 'F',
    ensures
        strip_white_space(s) == s,
    decreases s.len(),
{
    if s.len() > 0 {
        lemma_strip_digits(s.drop_last());
        assert(!is_white_space(s.last()));
        assert(s.drop_last().push(s.last()) =~= s);
    }
}

/// Hex text of bytes without its spaces is the hex pairs.
proof fn lemma_strip_join(b: Seq<u8>)
    ensures
        strip_white_space(hex_join(b)) == hex_pairs(b),
    decreases b.len(),
{
    if b.len() == 0 {
    } else {
        lemma_hex_ascii(b.last() as nat, 2);
        lemma_strip_digits(spec_hex(b.last() as nat, 2));
        if b.len() == 1 {
            assert(b.drop_last() =~= Seq::<u8>::empty());
            assert(hex_pairs(b.drop_last()) == Seq::<char>::empty());
            assert(b.last() == b[0]);
            assert(Seq::<char>::empty() + spec_hex(b.last() as nat, 2) =~= spec_hex(b.last() as nat, 2));
            assert(hex_join(b) == spec_hex(b[0] as nat, 2));
        } else {
            lemma_strip_join(b.drop_last());
            reveal_strlit(" ");
            let head = hex_join(b.drop_last());
            lemma_strip_concat(head, " "@);
            lemma_strip_concat(head + " "@, spec_hex(b.last() as nat, 2));
            assert(strip_white_space(" "@) =~= Seq::<char>::empty()) by {
                assert(" "@.len() == 1);
                assert(" "@[0] == ' ');
                assert(" "@.last() == ' ');
                assert(is_white_space(' '));
                assert(" "@.drop_last() =~= Seq::<char>::empty());
                assert(strip_white_space(Seq::<char>::empty()) =~= Seq::<char>::empty());
                assert(strip_white_space(" "@) == strip_white_space(" "@.drop_last()));
            }
            assert(strip_white_space(head) + Seq::<char>::empty() =~= strip_white_space(head));
            assert(hex_join(b) == head + " "@ + spec_hex(b.last() as nat, 2));
            assert(strip_white_space(hex_join(b)) == hex_pairs(b.drop_last()) + spec_hex(b.last() as nat, 2));
        }
    }
}

/// The hex pairs of bytes: two digits per byte, high then low.
proof fn lemma_pairs_shape(b: Seq<u8>)
    ensures
        hex_pairs(b).len() == 2 * b.len(),
        forall|k: int| 0 <= k < b.len() ==> #[trigger] hex_pairs(b)[2 * k] == digit_char((b[k] / 16) as int)
            && hex_pairs(b)[2 * k + 1] == digit_char((b[k] % 16) as int),
    decreases b.len(),
{
    if b.len() > 0 {
        lemma_pairs_shape(b.drop_last());
        lemma_hex_byte(b.last());
        let p = hex_pairs(b);
        assert forall|k: int| 0 <= k < b.len() implies #[trigger] p[2 * k] == digit_char((b[k] / 16) as int)
            && p[2 * k + 1] == digit_char((b[k] % 16) as int) by {
            let q = hex_pairs(b.drop_last());
            let h = spec_hex(b.last() as nat, 2);
            assert(p == q + h);
            if k < b.len() - 1 {
                assert(b.drop_last()[k] == b[k]);
                assert(p[2 * k] == q[2 * k]);
                assert(p[2 * k + 1] == q[2 * k + 1]);
            } else {
                assert(b.last() == b[k]);
                assert(p[2 * k] == h[0]);
                assert(p[2 * k + 1] == h[1]);
            }
        }
    }
}

proof fn lemma_digit_char_ascii(d: int)
    requires
        0 <= d < 16,
    ensures
        '0' <= digit_char(d) <= 'F',
        digit_char(d) as int == (if d < 10 {
            48 + d
        } else {
            55 + d
        }),
{
}

/// What "copy hex" puts on the clipboard, "paste hex" reads back as the
/// same bytes.
pub proof fn lemma_hex_copy_reads_back(b: Seq<u8>)
    ensures
        spec_parse_hex(hex_join(b)) == Ok::<Seq<u8>, HexErrorView>(b),
{
    let t = hex_join(b);
    lemma_strip_join(b);
    lemma_pairs_shape(b);
    let p = hex_pairs(b);
    assert(is_ascii_chars(p)) by {
        assert forall|i: int| 0 <= i < p.len() implies '\0' <= #[trigger] p[i] <= '\u{7f}' by {
            let k = i / 2;
            assert(0 <= k < b.len());
            lemma_digit_char_ascii((b[k] / 16) as int);
            lemma_digit_char_ascii((b[k] % 16) as int);
            if i % 2 == 0 {
                assert(i == 2 * k);
                assert(p[2 * k] == digit_char((b[k] / 16) as int));
            } else {
                assert(i == 2 * k + 1);
                assert(p[2 * k] == digit_char((b[k] / 16) as int));
                assert(p[2 * k + 1] == digit_char((b[k] % 16) as int));
            }
        }
    }
    is_ascii_chars_encode_utf8(p);
    let d = hex_digits_of(t);
    assert(d == encode_utf8(p));
    assert forall|k: int| 0 <= k < d.len() / 2 implies #[trigger] pair_ok(d[2 * k], d[2 * k + 1])
        && pair_value(d[2 * k], d[2 * k + 1]) == b[k] by {
        let hi = (b[k] / 16) as int;
        let lo = (b[k] % 16) as int;
        assert(d[2 * k] == p[2 * k] as u8);
        assert(d[2 * k + 1] == p[2 * k + 1] as u8);
    }
    lemma_first_bad_pair(d, 0);
    assert(Seq::new((d.len() / 2) as nat, |k: int| pair_value(d[2 * k], d[2 * k + 1])) =~= b);
}


/// `c` with an ASCII upper case letter made lower case, as
/// `char::to_ascii_lowercase` does.
pub open spec fn lower_ascii_char(c: char) -> char {
    if 'A' <= c <= 'Z' {
        ((c as int) + 32) as char
    } else {
        c
    }
}

/// Text with its ASCII letters in lower case. On ASCII text this is what
/// `str::to_lowercase` gives.
pub open spec fn ascii_lowercase(s: Seq<char>) -> Seq<char> {
    s.map_values(|c: char| lower_ascii_char(c))
}

/// Lower case letters are white space exactly where the letters were.
proof fn lemma_strip_lower(s: Seq<char>)
    ensures
        strip_white_space(ascii_lowercase(s)) == ascii_lowercase(strip_white_space(s)),
    decreases s.len(),
{
    if s.len() > 0 {
        lemma_strip_lower(s.drop_last());
        assert(ascii_lowercase(s).drop_last() =~= ascii_lowercase(s.drop_last()));
        let c = s.last();
        assert(ascii_lowercase(s).last() == lower_ascii_char(c));
        assert(is_white_space(lower_ascii_char(c)) == is_white_space(c));
        if !is_white_space(c) {
            assert(ascii_lowercase(strip_white_space(s.drop_last()).push(c)) =~= ascii_lowercase(
                strip_white_space(s.drop_last()),
            ).push(lower_ascii_char(c)));
        }
    } else {
        assert(ascii_lowercase(s) =~= Seq::<char>::empty());
        assert(ascii_lowercase(Seq::<char>::empty()) =~= Seq::<char>::empty());
    }
}

/// A digit in lower case is an ASCII hex digit of the same value.
proof fn lemma_lower_digit(d: int)
    requires
        0 <= d < 16,
    ensures
        ('\0' <= lower_ascii_char(digit_char(d)) <= '\u{7f}'),
        is_hex_digit(lower_ascii_char(digit_char(d)) as u8),
        hex_digit_value(lower_ascii_char(digit_char(d)) as u8) == d,
{
    lemma_digit_char_ascii(d);
}

/// What "copy hex" puts on the clipboard reads back as the same bytes after
/// it was put in lower case too.
pub proof fn lemma_lower_hex_copy_reads_back(b: Seq<u8>)
    ensures
        spec_parse_hex(ascii_lowercase(hex_join(b))) == Ok::<Seq<u8>, HexErrorView>(b),
{
    let t = hex_join(b);
    lemma_strip_join(b);
    lemma_strip_lower(t);
    lemma_pairs_shape(b);
    let p = hex_pairs(b);
    let lp = ascii_lowercase(p);
    assert(strip_white_space(ascii_lowercase(t)) == lp);
    assert forall|k: int| 0 <= k < b.len() implies #[trigger] lp[2 * k] == lower_ascii_char(
        digit_char((b[k] / 16) as int),
    ) && lp[2 * k + 1] == lower_ascii_char(digit_char((b[k] % 16) as int)) by {
        assert(p[2 * k] == digit_char((b[k] / 16) as int));
        assert(p[2 * k + 1] == digit_char((b[k] % 16) as int));
    }
    assert(is_ascii_chars(lp)) by {
        assert forall|i: int| 0 <= i < lp.len() implies '\0' <= #[trigger] lp[i] <= '\u{7f}' by {
            let k = i / 2;
            assert(0 <= k < b.len());
            lemma_lower_digit((b[k] / 16) as int);
            lemma_lower_digit((b[k] % 16) as int);
            if i % 2 == 0 {
                assert(i == 2 * k);
                assert(lp[2 * k] == lower_ascii_char(digit_char((b[k] / 16) as int)));
            } else {
                assert(i == 2 * k + 1);
                assert(lp[2 * k] == lower_ascii_char(digit_char((b[k] / 16) as int)));
                assert(lp[2 * k + 1] == lower_ascii_char(digit_char((b[k] % 16) as int)));
            }
        }
    }
    is_ascii_chars_encode_utf8(lp);
    let d = hex_digits_of(ascii_lowercase(t));
    assert(d == encode_utf8(lp));
    assert forall|k: int| 0 <= k < d.len() / 2 implies #[trigger] pair_ok(d[2 * k], d[2 * k + 1])
        && pair_value(d[2 * k], d[2 * k + 1]) == b[k] by {
        let hi = (b[k] / 16) as int;
        let lo = (b[k] % 16) as int;
        lemma_lower_digit(hi);
        lemma_lower_digit(lo);
        assert(lp[2 * k] == lower_ascii_char(digit_char(hi)));
        assert(lp[2 * k + 1] == lower_ascii_char(digit_char(lo)));
        assert(d[2 * k] == lp[2 * k] as u8);
        assert(d[2 * k + 1] == lp[2 * k + 1] as u8);
    }
    lemma_first_bad_pair(d, 0);
    assert(Seq::new((d.len() / 2) as nat, |k: int| pair_value(d[2 * k], d[2 * k + 1])) =~= b);
}

} // verus!
