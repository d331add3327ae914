//! Parsing of the viewing subcommand's codepoint and glyph-index lists.

use vstd::prelude::*;

verus! {

/// The value of one hexadecimal digit, upper or lower case.
pub open spec fn hex_digit_val(c: char) -> Option<int> {
    if c == '0' {
        Some(0int)
    } else if c == '1' {
        Some(1int)
    } else if c == '2' {
        Some(2int)
    } else if c == '3' {
        Some(3int)
    } else if c == '4' {
        Some(4int)
    } else if c == '5' {
        Some(5int)
    } else if c == '6' {
        Some(6int)
    } else if c == '7' {
        Some(7int)
    } else if c == '8' {
        Some(8int)
    } else if c == '9' {
        Some(9int)
    } else if c == 'a' || c == 'A' {
        Some(10int)
    } else if c == 'b' || c == 'B' {
        Some(11int)
    } else if c == 'c' || c == 'C' {
        Some(12int)
    } else if c == 'd' || c == 'D' {
        Some(13int)
    } else if c == 'e' || c == 'E' {
        Some(14int)
    } else if c == 'f' || c == 'F' {
        Some(15int)
    } else {
        None
    }
}

/// The value of one decimal digit.
pub open spec fn dec_digit_val(c: char) -> Option<int> {
    if c == '0' {
        Some(0int)
    } else if c == '1' {
        Some(1int)
    } else if c == '2' {
        Some(2int)
    } else if c == '3' {
        Some(3int)
    } else if c == '4' {
        Some(4int)
    } else if c == '5' {
        Some(5int)
    } else if c == '6' {
        Some(6int)
    } else if c == '7' {
        Some(7int)
    } else if c == '8' {
        Some(8int)
    } else if c == '9' {
        Some(9int)
    } else {
        None
    }
}

/// Whether every character of the sequence is a hexadecimal digit, and the
/// sequence is nonempty.
pub open spec fn is_hex_seq(s: Seq<char>) -> bool {
    s.len() > 0 && forall|i: int| 0 <= i < s.len() ==> hex_digit_val(#[trigger] s[i]) is Some
}

/// Whether every character of the sequence is a decimal digit, and the
/// sequence is nonempty.
pub open spec fn is_dec_seq(s: Seq<char>) -> bool {
    s.len() > 0 && forall|i: int| 0 <= i < s.len() ==> dec_digit_val(#[trigger] s[i]) is Some
}

/// A numeric field with one optional leading plus sign removed, as the
/// standard integer parsers accept it.
pub open spec fn strip_plus(s: Seq<char>) -> Seq<char> {
    if s.len() > 0 && s[0] == '+' {
        s.drop_first()
    } else {
        s
    }
}

/// The value of the first `k` characters read as hexadecimal.
pub open spec fn hex_val_upto(s: Seq<char>, k: int) -> int
    decreases k,
{
    if k <= 0 {
        0
    } else {
        16 * hex_val_upto(s, k - 1) + (match hex_digit_val(s[k - 1]) {
            Some(d) => d,
            None => 0,
        })
    }
}

/// The value of a hexadecimal digit sequence.
pub open spec fn hex_val(s: Seq<char>) -> int {
    hex_val_upto(s, s.len() as int)
}

/// The value of the first `k` characters read as decimal.
pub open spec fn dec_val_upto(s: Seq<char>, k: int) -> int
    decreases k,
{
    if k <= 0 {
        0
    } else {
        10 * dec_val_upto(s, k - 1) + (match dec_digit_val(s[k - 1]) {
            Some(d) => d,
            None => 0,
        })
    }
}

/// The value of a decimal digit sequence.
pub open spec fn dec_val(s: Seq<char>) -> int {
    dec_val_upto(s, s.len() as int)
}

/// Digit-sequence values are nonnegative and grow with each digit read.
proof fn lemma_hex_val_mono(s: Seq<char>, j: int, k: int)
    requires
        0 <= j <= k,
    ensures
        0 <= hex_val_upto(s, j) <= hex_val_upto(s, k),
    decreases k,
{
    if k > 0 {
        if j == k {
            lemma_hex_val_mono(s, j - 1, k - 1);
        } else {
            lemma_hex_val_mono(s, j, k - 1);
        }
    }
}

proof fn lemma_dec_val_mono(s: Seq<char>, j: int, k: int)
    requires
        0 <= j <= k,
    ensures
        0 <= dec_val_upto(s, j) <= dec_val_upto(s, k),
    decreases k,
{
    if k > 0 {
        if j == k {
            lemma_dec_val_mono(s, j - 1, k - 1);
        } else {
            lemma_dec_val_mono(s, j, k - 1);
        }
    }
}

/// Whether a code point value names a Unicode scalar value.
pub open spec fn is_scalar_value(v: int) -> bool {
    (0 <= v < 0xD800) || (0xE000 <= v <= 0x10FFFF)
}

/// Relies on `char::from_u32` of std: `Some` exactly for Unicode scalar
/// values (not a surrogate, at most U+10FFFF), carrying that code point.
pub assume_specification[ char::from_u32 ](v: u32) -> (r: Option<char>)
    ensures
        r is Some <==> is_scalar_value(v as int),
        match r {
            Some(c) => c as u32 == v,
            None => true,
        },
;

/// The character with a given scalar value.
pub open spec fn char_for_value(v: int) -> char {
    (v as u32) as char
}

/// One executable hexadecimal digit.
fn hex_digit_of(c: char) -> (r: Option<u32>)
    ensures
        match r {
            Some(d) => hex_digit_val(c) == Some(d as int),
            None => hex_digit_val(c) is None,
        },
{
    match c {
        '0' => Some(0),
        '1' => Some(1),
        '2' => Some(2),
        '3' => Some(3),
        '4' => Some(4),
        '5' => Some(5),
        '6' => Some(6),
        '7' => Some(7),
        '8' => Some(8),
        '9' => Some(9),
        'a' | 'A' => Some(10),
        'b' | 'B' => Some(11),
        'c' | 'C' => Some(12),
        'd' | 'D' => Some(13),
        'e' | 'E' => Some(14),
        'f' | 'F' => Some(15),
        _ => None,
    }
}

/// Parses a hexadecimal string into the character with that code point,
/// with the replacement character standing in for values that are no
/// Unicode scalar.
pub fn hex_string_to_char(hex: &str) -> (r: char)
    requires
        is_hex_seq(strip_plus(hex@)),
        hex_val(strip_plus(hex@)) <= u32::MAX,
    ensures
        is_scalar_value(hex_val(strip_plus(hex@))) ==> r == char_for_value(
            hex_val(strip_plus(hex@)),
        ),
        !is_scalar_value(hex_val(strip_plus(hex@))) ==> r == '\u{FFFD}',
{
    let ghost t = strip_plus(hex@);
    let n = hex.unicode_len();
    let start: usize = if n > 0 && hex.get_char(0) == '+' {
        1
    } else {
        0
    };
    proof {
        assert(t.len() == n - start);
        assert(forall|j: int| 0 <= j < t.len() ==> t[j] == hex@[j + start as int]);
    }
    let mut v: u32 = 0;
    let mut i: usize = start;
    while i < n
        invariant
            start <= i <= n,
            n == hex@.len(),
            t == strip_plus(hex@),
            t.len() == n - start,
            forall|j: int| 0 <= j < t.len() ==> t[j] == hex@[j + start as int],
            is_hex_seq(t),
            hex_val(t) <= u32::MAX,
            v as int == hex_val_upto(t, i - start),
        decreases n - i,
    {
        let c = hex.get_char(i);
        proof {
            assert(t[i - start] == hex@[i as int]);
        }
        let d = match hex_digit_of(c) {
            Some(d) => d,
            None => {
                proof {
                    assert(hex_digit_val(t[i - start]) is Some);
                    assert(false);
                }
                0
            },
        };
        proof {
            lemma_hex_val_mono(t, i - start + 1, t.len() as int);
            assert(16 * v as int + d as int == hex_val_upto(t, i - start + 1));
        }
        v = 16 * v + d;
        i += 1;
    }
    match char::from_u32(v) {
        Some(c) => {
            proof {
                vstd::utf8::char_u32_cast(c, v);
            }
            c
        },
        None => '\u{FFFD}',
    }
}

/// Parses a decimal string into a 16-bit glyph index.
pub fn string_to_u16(s: &str) -> (r: u16)
    requires
        is_dec_seq(strip_plus(s@)),
        dec_val(strip_plus(s@)) <= u16::MAX,
    ensures
        r as int == dec_val(strip_plus(s@)),
{
    let ghost t = strip_plus(s@);
    let n = s.unicode_len();
    let start: usize = if n > 0 && s.get_char(0) == '+' {
        1
    } else {
        0
    };
    proof {
        assert(t.len() == n - start);
        assert(forall|j: int| 0 <= j < t.len() ==> t[j] == s@[j + start as int]);
    }
    let mut v: u16 = 0;
    let mut i: usize = start;
    while i < n
        invariant
            start <= i <= n,
            n == s@.len(),
            t == strip_plus(s@),
            t.len() == n - start,
            forall|j: int| 0 <= j < t.len() ==> t[j] == s@[j + start as int],
            is_dec_seq(t),
            dec_val(t) <= u16::MAX,
            v as int == dec_val_upto(t, i - start),
        decreases n - i,
    {
        let c = s.get_char(i);
        proof {
            assert(t[i - start] == s@[i as int]);
        }
        let d: u16 = match c {
            '0' => 0,
            '1' => 1,
            '2' => 2,
            '3' => 3,
            '4' => 4,
            '5' => 5,
            '6' => 6,
            '7' => 7,
            '8' => 8,
            '9' => 9,
            _ => {
                proof {
                    assert(dec_digit_val(t[i - start]) is Some);
                    assert(false);
                }
                0
            },
        };
        proof {
            lemma_dec_val_mono(t, i - start + 1, t.len() as int);
            assert(10 * v as int + d as int == dec_val_upto(t, i - start + 1));
        }
        v = 10 * v + d;
        i += 1;
    }
    v
}

/// Whether a character counts as trimmable whitespace.
pub open spec fn is_space(c: char) -> bool {
    c == ' ' || c == '\t' || c == '\n' || c == '\r'
}

/// The first non-space position at or after `k`.
pub open spec fn first_non_space(s: Seq<char>, k: int) -> int
    decreases s.len() - k,
{
    if k < 0 || k >= s.len() {
        s.len() as int
    } else if is_space(s[k]) {
        first_non_space(s, k + 1)
    } else {
        k
    }
}

/// The position after the last non-space character among the first `k`.
pub open spec fn last_non_space_end(s: Seq<char>, k: int) -> int
    decreases k,
{
    if k <= 0 {
        0
    } else if is_space(s[k - 1]) {
        last_non_space_end(s, k - 1)
    } else {
        k
    }
}

/// The sequence with leading and trailing whitespace removed.
pub open spec fn trimmed(s: Seq<char>) -> Seq<char> {
    let lo = first_non_space(s, 0);
    let hi = last_non_space_end(s, s.len() as int);
    if lo <= hi {
        s.subrange(lo, hi)
    } else {
        Seq::empty()
    }
}

/// The position of the first comma at or after `k`, or the length.
pub open spec fn next_comma(s: Seq<char>, k: int) -> int
    decreases s.len() - k,
{
    if k < 0 || k >= s.len() {
        s.len() as int
    } else if s[k] == ',' {
        k
    } else {
        next_comma(s, k + 1)
    }
}

/// The comma search stays between its start and the end of the sequence.
proof fn lemma_next_comma_bounds(s: Seq<char>, k: int)
    requires
        0 <= k,
    ensures
        next_comma(s, k) <= s.len(),
        k <= s.len() ==> k <= next_comma(s, k),
    decreases s.len() - k,
{
    if k < s.len() && s[k] != ',' {
        lemma_next_comma_bounds(s, k + 1);
    }
}

/// Whether every comma-separated field from position `start` on is, after
/// trimming, a hexadecimal number no larger than `u32::MAX`.
pub open spec fn fields_hex_ok(s: Seq<char>, start: int) -> bool
    decreases s.len() - start,
    when start >= 0
    via fields_hex_ok_dec
{
    if start > s.len() {
        true
    } else {
        let end = next_comma(s, start);
        let piece = strip_plus(trimmed(s.subrange(start, end)));
        is_hex_seq(piece) && hex_val(piece) <= u32::MAX && (end < s.len() ==> fields_hex_ok(
            s,
            end + 1,
        ))
    }
}

#[via_fn]
proof fn fields_hex_ok_dec(s: Seq<char>, start: int) {
    lemma_next_comma_bounds(s, start);
}

/// The characters of the comma-separated hexadecimal fields from `start`
/// on.
pub open spec fn spec_codepoints_from(s: Seq<char>, start: int) -> Seq<char>
    decreases s.len() - start,
    when start >= 0
    via spec_codepoints_from_dec
{
    if start > s.len() {
        Seq::empty()
    } else {
        let end = next_comma(s, start);
        let piece = strip_plus(trimmed(s.subrange(start, end)));
        let v = hex_val(piece);
        let c = if is_scalar_value(v) {
            char_for_value(v)
        } else {
            '\u{FFFD}'
        };
        seq![c] + (if end < s.len() {
            spec_codepoints_from(s, end + 1)
        } else {
            Seq::empty()
        })
    }
}

#[via_fn]
proof fn spec_codepoints_from_dec(s: Seq<char>, start: int) {
    lemma_next_comma_bounds(s, start);
}

/// The parsed text of a comma-separated codepoint list.
pub open spec fn spec_parse_codepoints(s: Seq<char>) -> Seq<char> {
    spec_codepoints_from(s, 0)
}

/// Positions skipped by the leading-space search hold spaces.
proof fn lemma_first_non_space_prefix(s: Seq<char>, k: int, j: int)
    requires
        0 <= k <= j < first_non_space(s, k),
    ensures
        j < s.len() && is_space(s[j]),
    decreases s.len() - k,
{
    if k < s.len() && is_space(s[k]) && j > k {
        lemma_first_non_space_prefix(s, k + 1, j);
    }
}

/// A prefix made of spaces trims away entirely.
proof fn lemma_last_all_spaces(s: Seq<char>, k: int)
    requires
        0 <= k <= s.len(),
        forall|j: int| 0 <= j < k ==> is_space(#[trigger] s[j]),
    ensures
        last_non_space_end(s, k) == 0,
    decreases k,
{
    if k > 0 {
        lemma_last_all_spaces(s, k - 1);
    }
}


/// Relies on `String::push` of std: appends one character.
#[verifier::external_body]
fn push_char(s: &mut String, c: char)
    ensures
        final(s)@ == old(s)@ + seq![c],
{
    s.push(c)
}

/// Whether a character is trimmable whitespace.
fn is_space_exec(c: char) -> (r: bool)
    ensures
        r == is_space(c),
{
    c == ' ' || c == '\t' || c == '\n' || c == '\r'
}

/// Finds the field beginning at `start`: the position of the comma (or the
/// end) that closes it, and the bounds of its whitespace-trimmed content.
fn field_bounds(text: &str, start: usize) -> (r: (usize, usize, usize))
    requires
        text@.len() < usize::MAX,
        start <= text@.len(),
    ensures
        ({
            let (end, lo, hi) = r;
            &&& end as int == next_comma(text@, start as int)
            &&& start <= lo <= hi <= end <= text@.len()
            &&& trimmed(text@.subrange(start as int, end as int)) == text@.subrange(
                lo as int,
                hi as int,
            )
        }),
{
    let ghost s = text@;
    let n = text.unicode_len();
    // Find the end of this field.
    let mut end = start;
    while end < n && text.get_char(end) != ','
        invariant
            s == text@,
            n == s.len(),
            start <= end <= n,
            next_comma(s, start as int) == next_comma(s, end as int),
        decreases n - end,
    {
        end += 1;
    }
    proof {
        assert(next_comma(s, start as int) == end as int);
    }
    let ghost piece = s.subrange(start as int, end as int);
    // Trim the field.
    let mut lo = start;
    while lo < end && is_space_exec(text.get_char(lo))
        invariant
            s == text@,
            n == s.len(),
            start <= lo <= end <= n,
            first_non_space(piece, 0) == first_non_space(piece, lo - start),
            piece == s.subrange(start as int, end as int),
        decreases end - lo,
    {
        lo += 1;
    }
    proof {
        assert(first_non_space(piece, 0) == lo - start);
    }
    let mut hi = end;
    while hi > lo && is_space_exec(text.get_char(hi - 1))
        invariant
            s == text@,
            n == s.len(),
            lo <= hi <= end,
            start <= lo,
            end <= n,
            last_non_space_end(piece, end - start) == last_non_space_end(piece, hi - start),
            piece == s.subrange(start as int, end as int),
            first_non_space(piece, 0) == lo - start,
        decreases hi - lo,
    {
        hi -= 1;
    }
    proof {
        if hi > lo {
            assert(piece[hi - start - 1] == s[hi - 1]);
            assert(last_non_space_end(piece, hi - start) == hi - start);
        } else {
            assert forall|j: int| 0 <= j < hi - start implies is_space(#[trigger] piece[j]) by {
                lemma_first_non_space_prefix(piece, 0, j);
            }
            lemma_last_all_spaces(piece, hi - start);
            assert(last_non_space_end(piece, hi - start) == 0);
        }
        assert(trimmed(piece) =~= s.subrange(lo as int, hi as int));
    }
    (end, lo, hi)
}

/// Parses a comma-separated list of hexadecimal code points into the text
/// they spell, with the replacement character standing in for values that
/// are no Unicode scalar. [`hex_fields_ok`] decides the precondition.
pub fn parse_codepoints(codepoints: &str) -> (r: String)
    requires
        codepoints@.len() < usize::MAX,
        fields_hex_ok(codepoints@, 0),
    ensures
        r@ == spec_parse_codepoints(codepoints@),
{
    let ghost s = codepoints@;
    let n = codepoints.unicode_len();
    let mut out = String::new();
    let mut start: usize = 0;
    while start <= n
        invariant
            s == codepoints@,
            n == s.len(),
            start <= n + 1,
            n < usize::MAX,
            fields_hex_ok(s, start as int),
            out@ + spec_codepoints_from(s, start as int) == spec_parse_codepoints(s),
            start as int > s.len() ==> out@ == spec_parse_codepoints(s),
        decreases n + 1 - start,
    {
        let (end, lo, hi) = field_bounds(codepoints, start);
        let ghost piece = s.subrange(start as int, end as int);
        let sub = codepoints.substring_char(lo, hi);
        proof {
            assert(sub@ =~= trimmed(piece));
        }
        let c = hex_string_to_char(sub);
        push_char(&mut out, c);
        start = end + 1;
        proof {
            assert(out@ + spec_codepoints_from(s, start as int) =~= spec_parse_codepoints(s));
            if start as int > s.len() {
                assert(spec_codepoints_from(s, start as int) =~= Seq::<char>::empty());
                assert(out@ =~= spec_parse_codepoints(s));
            }
        }
    }
    out
}

/// Whether every comma-separated field from position `start` on is, after
/// trimming, a decimal number fitting a 16-bit glyph index.
pub open spec fn fields_dec_ok(s: Seq<char>, start: int) -> bool
    decreases s.len() - start,
    when start >= 0
    via fields_dec_ok_dec
{
    if start > s.len() {
        true
    } else {
        let end = next_comma(s, start);
        let piece = strip_plus(trimmed(s.subrange(start, end)));
        is_dec_seq(piece) && dec_val(piece) <= u16::MAX && (end < s.len() ==> fields_dec_ok(
            s,
            end + 1,
        ))
    }
}

#[via_fn]
proof fn fields_dec_ok_dec(s: Seq<char>, start: int) {
    lemma_next_comma_bounds(s, start);
}

/// The glyph indices of the comma-separated decimal fields from `start` on.
pub open spec fn spec_indices_from(s: Seq<char>, start: int) -> Seq<u16>
    decreases s.len() - start,
    when start >= 0
    via spec_indices_from_dec
{
    if start > s.len() {
        Seq::empty()
    } else {
        let end = next_comma(s, start);
        let piece = strip_plus(trimmed(s.subrange(start, end)));
        seq![dec_val(piece) as u16] + (if end < s.len() {
            spec_indices_from(s, end + 1)
        } else {
            Seq::empty()
        })
    }
}

#[via_fn]
proof fn spec_indices_from_dec(s: Seq<char>, start: int) {
    lemma_next_comma_bounds(s, start);
}

/// Parses a comma-separated list of decimal glyph indices.
/// [`dec_fields_ok`] decides the precondition.
pub fn parse_glyph_indices(glyph_indices: &str) -> (r: Vec<u16>)
    requires
        glyph_indices@.len() < usize::MAX,
        fields_dec_ok(glyph_indices@, 0),
    ensures
        r@ == spec_indices_from(glyph_indices@, 0),
{
    let ghost s = glyph_indices@;
    let n = glyph_indices.unicode_len();
    let mut out: Vec<u16> = Vec::new();
    let mut start: usize = 0;
    while start <= n
        invariant
            s == glyph_indices@,
            n == s.len(),
            start <= n + 1,
            n < usize::MAX,
            fields_dec_ok(s, start as int),
            out@ + spec_indices_from(s, start as int) == spec_indices_from(s, 0),
            start as int > s.len() ==> out@ == spec_indices_from(s, 0),
        decreases n + 1 - start,
    {
        let (end, lo, hi) = field_bounds(glyph_indices, start);
        let ghost piece = s.subrange(start as int, end as int);
        let sub = glyph_indices.substring_char(lo, hi);
        proof {
            assert(sub@ =~= trimmed(piece));
        }
        let v = string_to_u16(sub);
        out.push(v);
        start = end + 1;
        proof {
            assert(out@ + spec_indices_from(s, start as int) =~= spec_indices_from(s, 0));
            if start as int > s.len() {
                assert(spec_indices_from(s, start as int) =~= Seq::<u16>::empty());
                assert(out@ =~= spec_indices_from(s, 0));
            }
        }
    }
    out
}

/// Checks one field's content: after an optional plus sign, a nonempty
/// hexadecimal number no larger than `u32::MAX`.
fn hex_piece_ok(piece: &str) -> (r: bool)
    ensures
        r == (is_hex_seq(strip_plus(piece@)) && hex_val(strip_plus(piece@)) <= u32::MAX),
{
    let ghost t = strip_plus(piece@);
    let n = piece.unicode_len();
    let start: usize = if n > 0 && piece.get_char(0) == '+' {
        1
    } else {
        0
    };
    proof {
        assert(t.len() == n - start);
        assert(forall|j: int| 0 <= j < t.len() ==> t[j] == piece@[j + start as int]);
    }
    if n == start {
        return false;
    }
    let mut v: u64 = 0;
    let mut i: usize = start;
    while i < n
        invariant
            start <= i <= n,
            n == piece@.len(),
            t == strip_plus(piece@),
            t.len() == n - start,
            forall|j: int| 0 <= j < t.len() ==> t[j] == piece@[j + start as int],
            forall|j: int| 0 <= j < i - start ==> hex_digit_val(#[trigger] t[j]) is Some,
            v as int == hex_val_upto(t, i - start),
            v <= u32::MAX,
        decreases n - i,
    {
        let c = piece.get_char(i);
        proof {
            assert(t[i - start] == piece@[i as int]);
        }
        let d = match hex_digit_of(c) {
            Some(d) => d,
            None => {
                proof {
                    assert(hex_digit_val(t[i - start]) is None);
                }
                return false;
            },
        };
        let nv = 16 * v + d as u64;
        proof {
            assert(nv as int == hex_val_upto(t, i - start + 1));
        }
        if nv > u32::MAX as u64 {
            proof {
                lemma_hex_val_mono(t, i - start + 1, t.len() as int);
            }
            return false;
        }
        v = nv;
        i += 1;
    }
    proof {
        assert(is_hex_seq(t));
    }
    true
}

/// Checks one field's content: after an optional plus sign, a nonempty
/// decimal number fitting a 16-bit glyph index.
fn dec_piece_ok(piece: &str) -> (r: bool)
    ensures
        r == (is_dec_seq(strip_plus(piece@)) && dec_val(strip_plus(piece@)) <= u16::MAX),
{
    let ghost t = strip_plus(piece@);
    let n = piece.unicode_len();
    let start: usize = if n > 0 && piece.get_char(0) == '+' {
        1
    } else {
        0
    };
    proof {
        assert(t.len() == n - start);
        assert(forall|j: int| 0 <= j < t.len() ==> t[j] == piece@[j + start as int]);
    }
    if n == start {
        return false;
    }
    let mut v: u32 = 0;
    let mut i: usize = start;
    while i < n
        invariant
            start <= i <= n,
            n == piece@.len(),
            t == strip_plus(piece@),
            t.len() == n - start,
            forall|j: int| 0 <= j < t.len() ==> t[j] == piece@[j + start as int],
            forall|j: int| 0 <= j < i - start ==> dec_digit_val(#[trigger] t[j]) is Some,
            v as int == dec_val_upto(t, i - start),
            v <= u16::MAX,
        decreases n - i,
    {
        let c = piece.get_char(i);
        proof {
            assert(t[i - start] == piece@[i as int]);
        }
        let d: u32 = match c {
            '0' => 0,
            '1' => 1,
            '2' => 2,
            '3' => 3,
            '4' => 4,
            '5' => 5,
            '6' => 6,
            '7' => 7,
            '8' => 8,
            '9' => 9,
            _ => {
                proof {
                    assert(dec_digit_val(t[i - start]) is None);
                }
                return false;
            },
        };
        let nv = 10 * v + d;
        proof {
            assert(nv as int == dec_val_upto(t, i - start + 1));
        }
        if nv > u16::MAX as u32 {
            proof {
                lemma_dec_val_mono(t, i - start + 1, t.len() as int);
            }
            return false;
        }
        v = nv;
        i += 1;
    }
    proof {
        assert(is_dec_seq(t));
    }
    true
}

/// Decides [`parse_codepoints`]'s precondition: whether every
/// comma-separated field of the list, trimmed, is a hexadecimal code point
/// value. Callers test with this before they parse.
pub fn hex_fields_ok(codepoints: &str) -> (r: bool)
    ensures
        r == (codepoints@.len() < usize::MAX && fields_hex_ok(codepoints@, 0)),
{
    let ghost s = codepoints@;
    let n = codepoints.unicode_len();
    if n == usize::MAX {
        return false;
    }
    let mut start: usize = 0;
    while start <= n
        invariant
            s == codepoints@,
            n == s.len(),
            n < usize::MAX,
            start <= n + 1,
            fields_hex_ok(s, 0) <==> fields_hex_ok(s, start as int),
            start as int > s.len() ==> fields_hex_ok(s, 0),
        decreases n + 1 - start,
    {
        let (end, lo, hi) = field_bounds(codepoints, start);
        let ghost piece = s.subrange(start as int, end as int);
        let sub = codepoints.substring_char(lo, hi);
        proof {
            assert(sub@ =~= trimmed(piece));
        }
        if !hex_piece_ok(sub) {
            proof {
                assert(!fields_hex_ok(s, start as int));
            }
            return false;
        }
        start = end + 1;
        proof {
            if start as int > s.len() {
                assert(fields_hex_ok(s, start as int));
            }
        }
    }
    true
}

/// Decides [`parse_glyph_indices`]'s precondition: whether every
/// comma-separated field of the list, trimmed, is a decimal glyph index.
/// Callers test with this before they parse.
pub fn dec_fields_ok(glyph_indices: &str) -> (r: bool)
    ensures
        r == (glyph_indices@.len() < usize::MAX && fields_dec_ok(glyph_indices@, 0)),
{
    let ghost s = glyph_indices@;
    let n = glyph_indices.unicode_len();
    if n == usize::MAX {
        return false;
    }
    let mut start: usize = 0;
    while start <= n
        invariant
            s == glyph_indices@,
            n == s.len(),
            n < usize::MAX,
            start <= n + 1,
            fields_dec_ok(s, 0) <==> fields_dec_ok(s, start as int),
            start as int > s.len() ==> fields_dec_ok(s, 0),
        decreases n + 1 - start,
    {
        let (end, lo, hi) = field_bounds(glyph_indices, start);
        let ghost piece = s.subrange(start as int, end as int);
        let sub = glyph_indices.substring_char(lo, hi);
        proof {
            assert(sub@ =~= trimmed(piece));
        }
        if !dec_piece_ok(sub) {
            proof {
                assert(!fields_dec_ok(s, start as int));
            }
            return false;
        }
        start = end + 1;
        proof {
            if start as int > s.len() {
                assert(fields_dec_ok(s, start as int));
            }
        }
    }
    true
}

} // verus!


