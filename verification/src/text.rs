//! Small verified helpers on text: comparison of string slices and
//! decimal rendering of integers.

use vstd::prelude::*;
use vstd::string::*;

verus! {

/// Compares two string slices character by character.
pub fn str_eq(a: &str, b: &str) -> (r: bool)
    ensures
        r == (a@ == b@),
{
    let n = a.unicode_len();
    let m = b.unicode_len();
    if n != m {
        return false;
    }
    let mut i: usize = 0;
    while i < n
        invariant
            n == a@.len(),
            m == b@.len(),
            n == m,
            i <= n,
            forall|j: int| 0 <= j < i ==> a@[j] == b@[j],
        decreases n - i,
    {
        if a.get_char(i) != b.get_char(i) {
            return false;
        }
        i = i + 1;
    }
    assert(a@ =~= b@);
    true
}

/// The character of a decimal digit.
pub open spec fn digit_char(d: nat) -> char {
    if d == 0 { '0' }
    else if d == 1 { '1' }
    else if d == 2 { '2' }
    else if d == 3 { '3' }
    else if d == 4 { '4' }
    else if d == 5 { '5' }
    else if d == 6 { '6' }
    else if d == 7 { '7' }
    else if d == 8 { '8' }
    else { '9' }
}

/// The decimal rendering of a natural number, without leading zeros.
pub open spec fn spec_decimal(n: nat) -> Seq<char>
    decreases n,
{
    if n < 10 {
        seq![digit_char(n)]
    } else {
        spec_decimal(n / 10) + seq![digit_char(n % 10)]
    }
}

fn digit_str(d: usize) -> (r: &'static str)
    requires
        d < 10,
    ensures
        r@ == seq![digit_char(d as nat)],
{
    proof {
        reveal_strlit("0");
        reveal_strlit("1");
        reveal_strlit("2");
        reveal_strlit("3");
        reveal_strlit("4");
        reveal_strlit("5");
        reveal_strlit("6");
        reveal_strlit("7");
        reveal_strlit("8");
        reveal_strlit("9");
    }
    if d == 0 {
        "0"
    } else if d == 1 {
        "1"
    } else if d == 2 {
        "2"
    } else if d == 3 {
        "3"
    } else if d == 4 {
        "4"
    } else if d == 5 {
        "5"
    } else if d == 6 {
        "6"
    } else if d == 7 {
        "7"
    } else if d == 8 {
        "8"
    } else {
        "9"
    }
}

/// Renders a number in decimal.
pub fn decimal(n: usize) -> (r: String)
    ensures
        r@ == spec_decimal(n as nat),
    decreases n,
{
    if n < 10 {
        String::from_str(digit_str(n))
    } else {
        let mut r = decimal(n / 10);
        r.append(digit_str(n % 10));
        r
    }
}

/// The decimal rendering of an integer, with a leading '-' when negative.
pub open spec fn spec_signed_decimal(n: int) -> Seq<char> {
    if n < 0 {
        "-"@ + spec_decimal((-n) as nat)
    } else {
        spec_decimal(n as nat)
    }
}

/// Renders a 32-bit integer in decimal.
pub fn signed_decimal(n: i32) -> (r: String)
    ensures
        r@ == spec_signed_decimal(n as int),
{
    if n < 0 {
        let m: i64 = -(n as i64);
        let mut r = String::from_str("-");
        let d = decimal(m as usize);
        r.append(d.as_str());
        r
    } else {
        decimal(n as usize)
    }
}

/// `n` copies of `piece`, one after another.
pub open spec fn spec_repeat(piece: Seq<char>, n: nat) -> Seq<char>
    decreases n,
{
    if n == 0 {
        Seq::empty()
    } else {
        spec_repeat(piece, (n - 1) as nat) + piece
    }
}

/// Repeats a piece of text `n` times.
pub fn repeat_str(piece: &str, n: usize) -> (r: String)
    ensures
        r@ == spec_repeat(piece@, n as nat),
{
    let mut r = String::new();
    let mut i: usize = 0;
    while i < n
        invariant
            i <= n,
            r@ == spec_repeat(piece@, i as nat),
        decreases n - i,
    {
        r.append(piece);
        i = i + 1;
    }
    r
}

/// `s` right-aligned in a field of `width` characters (padded on the left
/// with spaces; longer text is left as it is).
pub open spec fn spec_pad_left(s: Seq<char>, width: nat) -> Seq<char> {
    if s.len() >= width {
        s
    } else {
        spec_repeat(" "@, (width - s.len()) as nat) + s
    }
}

/// Right-aligns text in a field of `width` characters.
pub fn pad_left(s: &str, width: usize) -> (r: String)
    ensures
        r@ == spec_pad_left(s@, width as nat),
{
    let n = s.unicode_len();
    if n >= width {
        String::from_str(s)
    } else {
        let mut r = repeat_str(" ", width - n);
        r.append(s);
        r
    }
}

/// The characters of a string slice.
pub fn chars_of(s: &str) -> (r: Vec<char>)
    ensures
        r@ == s@,
{
    broadcast use vstd::string::group_string_axioms;

    let mut it = s.chars();
    let mut v: Vec<char> = Vec::new();
    loop
        invariant
            v@ + vstd::std_specs::iter::IteratorSpec::remaining(&it) == s@,
            vstd::std_specs::iter::IteratorSpec::obeys_prophetic_iter_laws(&it),
        decreases s@.len() - v@.len(),
    {
        let ghost before = vstd::std_specs::iter::IteratorSpec::remaining(&it);
        match it.next() {
            Some(c) => {
                v.push(c);
                assert(v@ + vstd::std_specs::iter::IteratorSpec::remaining(&it) =~= s@);
            },
            None => {
                assert(v@ =~= s@);
                return v;
            },
        }
    }
}

/// The positions of the line feeds of `s`, in order.
pub open spec fn newline_positions(s: Seq<char>) -> Seq<int>
    decreases s.len(),
{
    if s.len() == 0 {
        Seq::empty()
    } else if s.last() == '\n' {
        newline_positions(s.drop_last()).push(s.len() - 1)
    } else {
        newline_positions(s.drop_last())
    }
}

/// The 1-based (line, column) reached after reading the characters `p`.
pub open spec fn spec_line_col(p: Seq<char>) -> (int, int) {
    let nl = newline_positions(p);
    if nl.len() == 0 {
        (1int, (p.len() + 1) as int)
    } else {
        ((nl.len() + 1) as int, p.len() - nl.last())
    }
}

/// The offset in bytes, in the UTF-8 encoding of `s`, of its character
/// `i`.
pub open spec fn byte_offset(s: Seq<char>, i: int) -> int {
    vstd::utf8::encode_utf8(s.take(i)).len() as int
}

/// The number of bytes of the UTF-8 encoding of `s`.
pub open spec fn byte_len(s: Seq<char>) -> int {
    vstd::utf8::encode_utf8(s).len() as int
}

/// The number of bytes that encode `c`.
pub open spec fn char_width(c: char) -> int {
    vstd::utf8::encode_scalar(c as u32).len() as int
}

proof fn lemma_encode_push(a: Seq<char>, c: char)
    ensures
        vstd::utf8::encode_utf8(a.push(c)).len() == vstd::utf8::encode_utf8(a).len() + char_width(c),
    decreases a.len(),
{
    let ap = a.push(c);
    if a.len() > 0 {
        assert(ap.drop_first() =~= a.drop_first().push(c));
        assert(ap[0] == a[0]);
        lemma_encode_push(a.drop_first(), c);
        assert(vstd::utf8::encode_utf8(ap) == vstd::utf8::encode_scalar(ap[0] as u32) + vstd::utf8::encode_utf8(
            ap.drop_first(),
        ));
        assert(vstd::utf8::encode_utf8(a) == vstd::utf8::encode_scalar(a[0] as u32) + vstd::utf8::encode_utf8(
            a.drop_first(),
        ));
    } else {
        assert(ap.drop_first() =~= Seq::<char>::empty());
        assert(ap[0] == c);
        assert(vstd::utf8::encode_utf8(ap) == vstd::utf8::encode_scalar(ap[0] as u32) + vstd::utf8::encode_utf8(
            ap.drop_first(),
        ));
        assert(vstd::utf8::encode_utf8(Seq::<char>::empty()).len() == 0);
    }
}

proof fn lemma_char_width(c: char)
    ensures
        1 <= char_width(c) <= 4,
{
}

/// Byte offsets grow by the width of each character.
pub proof fn lemma_byte_offset_step(s: Seq<char>, i: int)
    requires
        0 <= i < s.len(),
    ensures
        byte_offset(s, i + 1) == byte_offset(s, i) + char_width(s[i]),
        byte_offset(s, i) < byte_offset(s, i + 1),
{
    assert(s.take(i + 1) =~= s.take(i).push(s[i]));
    lemma_encode_push(s.take(i), s[i]);
    lemma_char_width(s[i]);
}

/// Byte offsets grow strictly with the character index, from 0 to the
/// length of the encoding.
pub proof fn lemma_byte_offset_mono(s: Seq<char>, i: int, j: int)
    requires
        0 <= i <= j <= s.len(),
    ensures
        byte_offset(s, i) <= byte_offset(s, j),
        i < j ==> byte_offset(s, i) < byte_offset(s, j),
        byte_offset(s, 0) == 0,
        byte_offset(s, s.len() as int) == byte_len(s),
        i <= byte_offset(s, i),
    decreases j - i,
{
    assert(s.take(0) =~= Seq::<char>::empty());
    assert(s.take(s.len() as int) =~= s);
    lemma_byte_offset_lower(s, i);
    if i < j {
        lemma_byte_offset_step(s, j - 1);
        lemma_byte_offset_mono(s, i, j - 1);
    }
}

proof fn lemma_byte_offset_lower(s: Seq<char>, i: int)
    requires
        0 <= i <= s.len(),
    ensures
        i <= byte_offset(s, i),
    decreases i,
{
    assert(s.take(0) =~= Seq::<char>::empty());
    if i > 0 {
        lemma_byte_offset_step(s, i - 1);
        lemma_byte_offset_lower(s, i - 1);
    }
}

/// The number of bytes that encode `c`.
pub fn width_of(c: char) -> (w: usize)
    ensures
        w as int == char_width(c),
{
    let v = c as u32;
    if v <= 0x7F {
        1
    } else if v <= 0x7FF {
        2
    } else if v <= 0xFFFF {
        3
    } else {
        4
    }
}

/// The byte offset of each character of `s`, and of its end.
pub fn byte_offsets(s: &Vec<char>) -> (r: Vec<usize>)
    requires
        byte_len(s@) < usize::MAX,
    ensures
        r@.len() == s@.len() + 1,
        forall|i: int| 0 <= i <= s@.len() ==> r@[i] as int == byte_offset(s@, i),
{
    let mut r: Vec<usize> = Vec::new();
    let mut b: usize = 0;
    let mut i: usize = 0;
    proof {
        lemma_byte_offset_mono(s@, 0, 0);
    }
    while i < s.len()
        invariant
            i <= s@.len(),
            byte_len(s@) < usize::MAX,
            r@.len() == i,
            b as int == byte_offset(s@, i as int),
            forall|j: int| 0 <= j < i ==> r@[j] as int == byte_offset(s@, j),
        decreases s@.len() - i,
    {
        r.push(b);
        proof {
            lemma_byte_offset_step(s@, i as int);
            lemma_byte_offset_mono(s@, i + 1, s@.len() as int);
        }
        b = b + width_of(s[i]);
        i = i + 1;
    }
    r.push(b);
    r
}

/// The number of characters of `s`, from `i` on, whose encoding starts
/// before byte `offset`, plus `i`.
pub open spec fn chars_before_from(s: Seq<char>, offset: int, i: int) -> int
    decreases s.len() - i,
{
    if i < 0 || i >= s.len() || byte_offset(s, i) >= offset {
        i
    } else {
        chars_before_from(s, offset, i + 1)
    }
}

/// The number of characters of `s` whose encoding starts before byte
/// `offset`.
pub open spec fn chars_before(s: Seq<char>, offset: int) -> int {
    chars_before_from(s, offset, 0)
}

/// The 1-based (line, column) of the character at byte `offset` in `s`
/// (an offset past the end is the position just after the last
/// character).
pub open spec fn spec_offset_line_col(s: Seq<char>, offset: int) -> (int, int) {
    spec_line_col(s.take(chars_before(s, offset)))
}

proof fn lemma_newline_positions_bound(s: Seq<char>)
    ensures
        forall|j: int| 0 <= j < newline_positions(s).len() ==> 0 <= #[trigger] newline_positions(s)[j] < s.len(),
        newline_positions(s).len() <= s.len(),
    decreases s.len(),
{
    if s.len() > 0 {
        lemma_newline_positions_bound(s.drop_last());
    }
}

/// Converts a byte offset into the 1-based (line, column) where it falls.
pub fn line_col_at(src: &Vec<char>, offset: usize) -> (r: (usize, usize))
    requires
        src@.len() < usize::MAX,
    ensures
        r.0 as int == spec_offset_line_col(src@, offset as int).0,
        r.1 as int == spec_offset_line_col(src@, offset as int).1,
        r.0 >= 1,
        r.1 >= 1,
{
    let mut line: usize = 1;
    let mut col: usize = 1;
    let mut i: usize = 0;
    let mut b: usize = 0;
    proof {
        lemma_byte_offset_mono(src@, 0, 0);
    }
    while i < src.len() && b < offset
        invariant
            src@.len() < usize::MAX,
            i <= src@.len(),
            b as int == (if byte_offset(src@, i as int) < usize::MAX {
                byte_offset(src@, i as int)
            } else {
                usize::MAX as int
            }),
            chars_before(src@, offset as int) == chars_before_from(src@, offset as int, i as int),
            line as int == spec_line_col(src@.take(i as int)).0,
            col as int == spec_line_col(src@.take(i as int)).1,
            line <= i + 1,
            col <= i + 1,
            line >= 1,
            col >= 1,
        decreases src@.len() - i,
    {
        proof {
            lemma_byte_offset_step(src@, i as int);
        }
        b = b.saturating_add(width_of(src[i]));
        let ghost p = src@.take(i as int);
        let ghost p2 = src@.take(i + 1);
        assert(p2.drop_last() =~= p);
        proof {
            lemma_newline_positions_bound(p);
        }
        if src[i] == '\n' {
            line = line + 1;
            col = 1;
        } else {
            col = col + 1;
        }
        i = i + 1;
    }
    (line, col)
}

/// The lines of `s` as `str::lines` splits them: pieces between line
/// feeds, without the empty piece after a final line feed, and with one
/// trailing carriage return removed from each.
pub open spec fn spec_line_count(s: Seq<char>) -> int {
    let nl = newline_positions(s);
    if nl.len() > 0 && nl.last() == s.len() - 1 {
        nl.len() as int
    } else if s.len() == 0 {
        0
    } else {
        (nl.len() + 1) as int
    }
}

/// Line `k` (0-based) of `s`, before removal of a trailing carriage return.
pub open spec fn spec_raw_line(s: Seq<char>, k: int) -> Seq<char> {
    let nl = newline_positions(s);
    let start = if k == 0 { 0 } else { nl[k - 1] + 1 };
    let end = if k < nl.len() { nl[k] } else { s.len() as int };
    s.subrange(start, end)
}

/// Line `k` (0-based) of `s`, or the empty text if there is no such line.
pub open spec fn spec_nth_line(s: Seq<char>, k: int) -> Seq<char> {
    if 0 <= k < spec_line_count(s) {
        let raw = spec_raw_line(s, k);
        if raw.len() > 0 && raw.last() == '\r' {
            raw.drop_last()
        } else {
            raw
        }
    } else {
        Seq::empty()
    }
}

fn newline_positions_of(src: &Vec<char>) -> (r: Vec<usize>)
    ensures
        r@.map_values(|x: usize| x as int) == newline_positions(src@),
{
    let mut r: Vec<usize> = Vec::new();
    let mut i: usize = 0;
    while i < src.len()
        invariant
            i <= src@.len(),
            r@.map_values(|x: usize| x as int) == newline_positions(src@.take(i as int)),
        decreases src.len() - i,
    {
        let ghost p2 = src@.take(i + 1);
        assert(p2.drop_last() =~= src@.take(i as int));
        if src[i] == '\n' {
            r.push(i);
            assert(r@.map_values(|x: usize| x as int) =~= newline_positions(src@.take(i as int)).push(i as int));
        }
        i = i + 1;
    }
    assert(src@.take(src@.len() as int) =~= src@);
    r
}

/// Line `line_number` (1-based) of a text, as `str::lines` yields it, or
/// the empty text if there is no such line.
pub fn nth_line(source: &str, line_number: usize) -> (r: String)
    requires
        line_number >= 1,
        source@.len() < usize::MAX,
    ensures
        r@ == spec_nth_line(source@, line_number - 1),
{
    let src = chars_of(source);
    let nl = newline_positions_of(&src);
    let ghost nlv = newline_positions(src@);
    proof {
        lemma_newline_positions_bound(src@);
        assert forall|j: int| 0 <= j < nl@.len() implies nl@[j] as int == nlv[j] by {
            assert(nl@.map_values(|x: usize| x as int)[j] == nl@[j] as int);
        }
    }
    let k = line_number - 1;
    let n = src.len();
    let count: usize = if nl.len() > 0 && nl[nl.len() - 1] == n - 1 {
        nl.len()
    } else if n == 0 {
        0
    } else {
        nl.len() + 1
    };
    if k >= count {
        return String::new();
    }
    let start: usize = if k == 0 { 0 } else { nl[k - 1] + 1 };
    let mut end: usize = if k < nl.len() { nl[k] } else { n };
    proof {
        if k > 0 {
            lemma_newline_positions_sorted(src@, (k - 1) as int, k as int);
        }
    }
    assert(src@.subrange(start as int, end as int) == spec_raw_line(src@, k as int));
    if end > start && src[end - 1] == '\r' {
        end = end - 1;
        assert(src@.subrange(start as int, end as int) =~= spec_raw_line(src@, k as int).drop_last());
    }
    source.substring_char(start, end).to_owned()
}

proof fn lemma_newline_positions_sorted(s: Seq<char>, a: int, b: int)
    requires
        0 <= a < b,
        b < newline_positions(s).len() || (b == newline_positions(s).len()),
    ensures
        b < newline_positions(s).len() ==> newline_positions(s)[a] < newline_positions(s)[b],
        b == newline_positions(s).len() ==> newline_positions(s)[a] < s.len(),
    decreases s.len(),
{
    lemma_newline_positions_bound(s);
    if s.len() > 0 {
        let r = newline_positions(s.drop_last());
        lemma_newline_positions_bound(s.drop_last());
        if s.last() == '\n' {
            if b < r.len() {
                lemma_newline_positions_sorted(s.drop_last(), a, b);
            } else if b == r.len() {
                lemma_newline_positions_sorted(s.drop_last(), a, b);
            }
        } else {
            lemma_newline_positions_sorted(s.drop_last(), a, b);
        }
    }
}

} // verus!
