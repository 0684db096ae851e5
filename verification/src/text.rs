//! Text as sequences of characters: splitting at separators and into
//! lines, decimal numbers, and surrounding white space.

use vstd::prelude::*;

verus! {

/// `String::push` appends the character to the end of the string.
pub assume_specification[ String::push ](s: &mut String, c: char)
    ensures
        final(s)@ == old(s)@.push(c),
;

/// Whether `char::is_whitespace` holds of `c`: whether Unicode counts `c`
/// as white space.
pub uninterp spec fn white_space(c: char) -> bool;

/// `char::is_whitespace` tells whether the character is white space.
pub assume_specification[ char::is_whitespace ](c: char) -> (space: bool)
    ensures
        space == white_space(c),
;

/// The characters of `text`, in order.
pub fn to_chars(text: &str) -> (chars: Vec<char>)
    ensures
        chars@ == text@,
{
    let mut chars: Vec<char> = Vec::new();
    for c in it: text.chars()
        invariant
            chars@ == it.seq().take(it.index()),
            it.seq() == text@,
    {
        chars.push(c);
    }
    chars
}

/// The string made of `chars`, in order.
pub fn to_text(chars: &Vec<char>) -> (text: String)
    ensures
        text@ == chars@,
{
    let mut text = String::new();
    let mut i: usize = 0;
    while i < chars.len()
        invariant
            i <= chars.len(),
            text@ == chars@.take(i as int),
        decreases chars.len() - i,
    {
        text.push(chars[i]);
        i = i + 1;
    }
    text
}

/// The characters of `chars` from index `from` up to, not including, `to`.
pub fn slice(chars: &Vec<char>, from: usize, to: usize) -> (part: Vec<char>)
    requires
        from <= to <= chars@.len(),
    ensures
        part@ == chars@.subrange(from as int, to as int),
{
    let mut part: Vec<char> = Vec::new();
    let mut i: usize = from;
    while i < to
        invariant
            from <= i <= to <= chars@.len(),
            part@ == chars@.subrange(from as int, i as int),
        decreases to - i,
    {
        part.push(chars[i]);
        i = i + 1;
    }
    part
}

/// The views of a sequence of character vectors.
pub open spec fn texts(parts: Seq<Vec<char>>) -> Seq<Seq<char>> {
    Seq::new(parts.len(), |i: int| parts[i]@)
}

/// The index of the first `c` in `s`, or the length of `s` where `s` holds
/// no `c`.
pub open spec fn position(s: Seq<char>, c: char) -> int
    decreases s.len(),
{
    if s.len() == 0 || s[0] == c {
        0
    } else {
        1 + position(s.skip(1), c)
    }
}

/// `position` is the least index that holds `c`, or the length.
pub proof fn lemma_position_is_first(s: Seq<char>, c: char, i: int)
    requires
        0 <= i <= s.len(),
        forall|k: int| 0 <= k < i ==> s[k] != c,
        i == s.len() || s[i] == c,
    ensures
        position(s, c) == i,
    decreases i,
{
    if i > 0 {
        lemma_position_is_first(s.skip(1), c, i - 1);
    }
}

/// The pieces of `s` between the occurrences of `sep`: the part before the
/// first `sep`, followed by the pieces of what comes after it. A sequence
/// without `sep` is its own single piece, so there is always at least one.
pub open spec fn split(s: Seq<char>, sep: char) -> Seq<Seq<char>>
    decreases s.len(),
{
    let i = position(s, sep);
    if 0 <= i < s.len() {
        seq![s.take(i)] + split(s.skip(i + 1), sep)
    } else {
        seq![s]
    }
}

/// There is one more piece than there are separators: at least one.
pub proof fn lemma_split_nonempty(s: Seq<char>, sep: char)
    ensures
        split(s, sep).len() >= 1,
    decreases s.len(),
{
    let i = position(s, sep);
    if 0 <= i < s.len() {
        lemma_split_nonempty(s.skip(i + 1), sep);
    }
}

/// The index of the first `c` in `chars` at or after `from`, or the length
/// of `chars` where there is none.
pub fn find(chars: &Vec<char>, from: usize, c: char) -> (at: usize)
    requires
        from <= chars@.len(),
    ensures
        from <= at <= chars@.len(),
        at - from == position(chars@.skip(from as int), c),
{
    let mut at: usize = from;
    while at < chars.len() && chars[at] != c
        invariant
            from <= at <= chars@.len(),
            forall|k: int| from <= k < at ==> chars@[k] != c,
        decreases chars@.len() - at,
    {
        at = at + 1;
    }
    proof {
        lemma_position_is_first(chars@.skip(from as int), c, at - from);
    }
    at
}

/// Splits `chars` at every occurrence of `sep`.
pub fn split_chars(chars: &Vec<char>, sep: char) -> (pieces: Vec<Vec<char>>)
    ensures
        texts(pieces@) == split(chars@, sep),
{
    let mut pieces: Vec<Vec<char>> = Vec::new();
    let mut start: usize = 0;
    assert(chars@.skip(0) =~= chars@);
    loop
        invariant
            start <= chars@.len(),
            texts(pieces@) + split(chars@.skip(start as int), sep) == split(chars@, sep),
        decreases chars@.len() - start,
    {
        let end: usize = find(chars, start, sep);
        let piece = slice(chars, start, end);
        let ghost rest = chars@.skip(start as int);
        pieces.push(piece);
        assert(rest.take(end - start) =~= piece@);
        if end >= chars.len() {
            return pieces;
        }
        assert(rest.skip(end - start + 1) =~= chars@.skip(end + 1));
        start = end + 1;
    }
}

/// `line` without its last character where that is a carriage return.
pub open spec fn strip_return(line: Seq<char>) -> Seq<char> {
    if line.len() > 0 && line.last() == '\r' {
        line.drop_last()
    } else {
        line
    }
}

/// The lines of `s`. A line ends at a line feed, or at the end of `s`; the
/// line feed is no part of it, nor is a carriage return just before the
/// line feed. What follows the last line feed is a line only if it is not
/// empty.
pub open spec fn lines(s: Seq<char>) -> Seq<Seq<char>> {
    let pieces = split(s, '\n');
    let ended = Seq::new((pieces.len() - 1) as nat, |i: int| strip_return(pieces[i]));
    if pieces.last().len() == 0 {
        ended
    } else {
        ended.push(pieces.last())
    }
}

/// Splits `chars` into its lines.
pub fn split_lines(chars: &Vec<char>) -> (found: Vec<Vec<char>>)
    ensures
        texts(found@) == lines(chars@),
{
    let pieces = split_chars(chars, '\n');
    proof {
        lemma_split_nonempty(chars@, '\n');
    }
    let ghost ended = Seq::new(
        (pieces@.len() - 1) as nat,
        |i: int| strip_return(split(chars@, '\n')[i]),
    );
    let mut found: Vec<Vec<char>> = Vec::new();
    let last: usize = pieces.len() - 1;
    let mut i: usize = 0;
    while i < last
        invariant
            i <= last,
            last == pieces@.len() - 1,
            ended.len() == last,
            forall|j: int| 0 <= j < last ==> ended[j] == strip_return(#[trigger] pieces@[j]@),
            texts(found@) == ended.take(i as int),
        decreases last - i,
    {
        let piece = &pieces[i];
        let n: usize = piece.len();
        let line = if n > 0 && piece[n - 1] == '\r' {
            slice(piece, 0, n - 1)
        } else {
            slice(piece, 0, n)
        };
        assert(line@ =~= strip_return(piece@));
        found.push(line);
        assert(ended.take(i + 1) =~= ended.take(i as int).push(ended[i as int]));
        i = i + 1;
    }
    let tail = &pieces[last];
    if tail.len() > 0 {
        let line = slice(tail, 0, tail.len());
        assert(line@ =~= tail@);
        let ghost before = texts(found@);
        found.push(line);
        assert(texts(found@) =~= before.push(line@));
    }
    found
}

/// The value of a decimal digit.
pub open spec fn digit(c: char) -> Option<nat> {
    match c {
        '0' => Some(0nat),
        '1' => Some(1nat),
        '2' => Some(2nat),
        '3' => Some(3nat),
        '4' => Some(4nat),
        '5' => Some(5nat),
        '6' => Some(6nat),
        '7' => Some(7nat),
        '8' => Some(8nat),
        '9' => Some(9nat),
        _ => None,
    }
}

/// The number that `s` writes in decimal digits. There is none where `s`
/// is empty or holds anything but digits.
pub open spec fn digits_value(s: Seq<char>) -> Option<nat>
    decreases s.len(),
{
    if s.len() == 0 {
        None
    } else {
        match digit(s.last()) {
            None => None,
            Some(d) => if s.len() == 1 {
                Some(d)
            } else {
                match digits_value(s.drop_last()) {
                    Some(v) => Some(10 * v + d),
                    None => None,
                }
            },
        }
    }
}

/// The number that `s` writes as an unsigned decimal: digits, with or
/// without a plus sign before them.
pub open spec fn unsigned_value(s: Seq<char>) -> Option<nat> {
    if s.len() > 0 && s[0] == '+' {
        digits_value(s.skip(1))
    } else {
        digits_value(s)
    }
}

/// The number that `s` writes as a signed decimal: digits, with or without
/// a plus or minus sign before them.
pub open spec fn signed_value(s: Seq<char>) -> Option<int> {
    if s.len() > 0 && s[0] == '-' {
        match digits_value(s.skip(1)) {
            Some(v) => Some(-(v as int)),
            None => None,
        }
    } else {
        match unsigned_value(s) {
            Some(v) => Some(v as int),
            None => None,
        }
    }
}

/// `value` where it is a number no greater than `max`.
pub open spec fn at_most(value: Option<nat>, max: nat) -> Option<nat> {
    match value {
        Some(v) if v <= max => Some(v),
        _ => None,
    }
}

/// Where `s` writes a number, so does each of its beginnings that is not
/// empty, and none of them writes a greater one.
pub proof fn lemma_digits_prefix(s: Seq<char>, k: int)
    requires
        1 <= k <= s.len(),
        digits_value(s) is Some,
    ensures
        digits_value(s.take(k)) is Some,
        digits_value(s.take(k))->0 <= digits_value(s)->0,
        digit(s[k - 1]) is Some,
    decreases s.len(),
{
    if k == s.len() {
        assert(s.take(k) =~= s);
    } else {
        lemma_digits_prefix(s.drop_last(), k);
        assert(s.drop_last().take(k) =~= s.take(k));
    }
}

/// The value of `c` as a decimal digit.
pub fn digit_of(c: char) -> (d: Option<u8>)
    ensures
        d is Some <==> digit(c) is Some,
        d matches Some(v) ==> digit(c) == Some(v as nat),
{
    match c {
        '0' => Some(0),
        '1' => Some(1),
        '2' => Some(2),
        '3' => Some(3),
        '4' => Some(4),
        '5' => Some(5),
        '6' => Some(6),
        '7' => Some(7),
        '8' => Some(8),
        '9' => Some(9),
        _ => None,
    }
}

/// Reads the digits that `chars` holds from index `from` on as a number
/// no greater than `max`.
pub fn parse_digits(chars: &Vec<char>, from: usize, max: u64) -> (value: Option<u64>)
    requires
        from <= chars@.len(),
    ensures
        value is Some <==> at_most(digits_value(chars@.skip(from as int)), max as nat) is Some,
        value matches Some(v) ==> digits_value(chars@.skip(from as int)) == Some(v as nat),
{
    let ghost s = chars@.skip(from as int);
    let mut acc: u64 = 0;
    let mut i: usize = from;
    while i < chars.len()
        invariant
            from <= i <= chars@.len(),
            s == chars@.skip(from as int),
            acc <= max,
            i == from ==> acc == 0,
            i > from ==> digits_value(s.take(i - from)) == Some(acc as nat),
        decreases chars@.len() - i,
    {
        let ghost k = i - from + 1;
        proof {
            assert(s.take(k).drop_last() =~= s.take(k - 1));
            if digits_value(s) is Some {
                lemma_digits_prefix(s, k);
            }
        }
        let d: u64 = match digit_of(chars[i]) {
            Some(d) => d as u64,
            None => {
                return None;
            },
        };
        let next: u128 = (acc as u128) * 10 + (d as u128);
        if next > max as u128 {
            return None;
        }
        acc = next as u64;
        i = i + 1;
    }
    if i == from {
        None
    } else {
        assert(s.take(i - from) =~= s);
        Some(acc)
    }
}

/// Reads `chars` as an unsigned decimal number that fits in `usize`.
pub fn parse_usize(chars: &Vec<char>) -> (value: Option<usize>)
    ensures
        value is Some <==> at_most(unsigned_value(chars@), usize::MAX as nat) is Some,
        value matches Some(v) ==> unsigned_value(chars@) == Some(v as nat),
{
    let from: usize = if chars.len() > 0 && chars[0] == '+' {
        1
    } else {
        0
    };
    assert(chars@.skip(0) =~= chars@);
    match parse_digits(chars, from, usize::MAX as u64) {
        Some(v) => Some(v as usize),
        None => None,
    }
}

/// Reads `chars` as a signed decimal number that fits in `i32`.
pub fn parse_i32(chars: &Vec<char>) -> (value: Option<i32>)
    ensures
        value is Some <==> (signed_value(chars@) matches Some(v) && i32::MIN <= v <= i32::MAX),
        value matches Some(v) ==> signed_value(chars@) == Some(v as int),
{
    assert(chars@.skip(0) =~= chars@);
    if chars.len() > 0 && chars[0] == '-' {
        match parse_digits(chars, 1, 0x8000_0000) {
            Some(v) => Some((-(v as i64)) as i32),
            None => None,
        }
    } else {
        let from: usize = if chars.len() > 0 && chars[0] == '+' {
            1
        } else {
            0
        };
        match parse_digits(chars, from, 0x7fff_ffff) {
            Some(v) => Some(v as i32),
            None => None,
        }
    }
}

/// The number of white-space characters that `s` begins with.
pub open spec fn leading_space(s: Seq<char>) -> nat
    decreases s.len(),
{
    if s.len() > 0 && white_space(s[0]) {
        1 + leading_space(s.skip(1))
    } else {
        0
    }
}

/// The number of white-space characters that `s` ends with.
pub open spec fn trailing_space(s: Seq<char>) -> nat
    decreases s.len(),
{
    if s.len() > 0 && white_space(s.last()) {
        1 + trailing_space(s.drop_last())
    } else {
        0
    }
}

/// `s` without the white space that it begins and ends with.
pub open spec fn trim(s: Seq<char>) -> Seq<char> {
    let rest = s.skip(leading_space(s) as int);
    rest.take(rest.len() - trailing_space(rest))
}

/// The leading white space ends at the first character that is none.
pub proof fn lemma_leading_space(s: Seq<char>, i: int)
    requires
        0 <= i <= s.len(),
        forall|k: int| 0 <= k < i ==> white_space(s[k]),
        i == s.len() || !white_space(s[i]),
    ensures
        leading_space(s) == i,
    decreases i,
{
    if i > 0 {
        lemma_leading_space(s.skip(1), i - 1);
    }
}

/// The trailing white space begins after the last character that is none.
pub proof fn lemma_trailing_space(s: Seq<char>, j: int)
    requires
        0 <= j <= s.len(),
        forall|k: int| j <= k < s.len() ==> white_space(s[k]),
        j == 0 || !white_space(s[j - 1]),
    ensures
        trailing_space(s) == s.len() - j,
    decreases s.len() - j,
{
    if j < s.len() {
        lemma_trailing_space(s.drop_last(), j);
    }
}

/// Takes the white space off both ends of `chars`.
pub fn trim_chars(chars: &Vec<char>) -> (trimmed: Vec<char>)
    ensures
        trimmed@ == trim(chars@),
{
    let mut i: usize = 0;
    while i < chars.len() && chars[i].is_whitespace()
        invariant
            i <= chars@.len(),
            forall|k: int| 0 <= k < i ==> white_space(chars@[k]),
        decreases chars@.len() - i,
    {
        i = i + 1;
    }
    let mut j: usize = chars.len();
    while j > i && chars[j - 1].is_whitespace()
        invariant
            i <= j <= chars@.len(),
            forall|k: int| j <= k < chars@.len() ==> white_space(chars@[k]),
        decreases j,
    {
        j = j - 1;
    }
    proof {
        let rest = chars@.skip(i as int);
        lemma_leading_space(chars@, i as int);
        lemma_trailing_space(rest, j - i);
    }
    slice(chars, i, j)
}

/// The decimal digit for `d`, which is less than ten.
pub open spec fn digit_char(d: nat) -> char {
    if d == 0 {
        '0'
    } else if d == 1 {
        '1'
    } else if d == 2 {
        '2'
    } else if d == 3 {
        '3'
    } else if d == 4 {
        '4'
    } else if d == 5 {
        '5'
    } else if d == 6 {
        '6'
    } else if d == 7 {
        '7'
    } else if d == 8 {
        '8'
    } else {
        '9'
    }
}

/// `n` written in decimal digits, without leading zeros.
pub open spec fn decimal(n: nat) -> Seq<char>
    decreases n,
{
    if n < 10 {
        seq![digit_char(n)]
    } else {
        decimal(n / 10).push(digit_char(n % 10))
    }
}

/// `n` written in decimal digits, with a minus sign where it is negative.
pub open spec fn signed_decimal(n: int) -> Seq<char> {
    if n < 0 {
        seq!['-'] + decimal((-n) as nat)
    } else {
        decimal(n as nat)
    }
}

fn digit_char_of(d: u8) -> (c: char)
    requires
        d < 10,
    ensures
        c == digit_char(d as nat),
{
    if d == 0 {
        '0'
    } else if d == 1 {
        '1'
    } else if d == 2 {
        '2'
    } else if d == 3 {
        '3'
    } else if d == 4 {
        '4'
    } else if d == 5 {
        '5'
    } else if d == 6 {
        '6'
    } else if d == 7 {
        '7'
    } else if d == 8 {
        '8'
    } else {
        '9'
    }
}

/// Appends `n` in decimal digits to `text`.
pub fn push_decimal(text: &mut String, n: u128)
    ensures
        final(text)@ == old(text)@ + decimal(n as nat),
    decreases n,
{
    if n >= 10 {
        push_decimal(text, n / 10);
    }
    text.push(digit_char_of((n % 10) as u8));
}

/// Appends `n` in decimal digits to `text`, with a minus sign where it is
/// negative.
pub fn push_signed_decimal(text: &mut String, n: i32)
    ensures
        final(text)@ == old(text)@ + signed_decimal(n as int),
{
    if n < 0 {
        text.push('-');
        push_decimal(text, (-(n as i64)) as u128);
    } else {
        push_decimal(text, n as u128);
    }
}

} // verus!
