//! Text primitives shared by the table reader and the command codec.
//!
//! Every function here is specified over `Seq<char>`, the view of `str` and
//! `String`. The executable versions read a string once into a vector of
//! characters, find positions there, and cut the result out of the source.

use vstd::prelude::*;
use vstd::string::*;

verus! {

/// Position of the first `c` in `s`, or `s.len()` when `s` holds none.
pub open spec fn first_index(s: Seq<char>, c: char) -> int
    decreases s.len(),
{
    if s.len() == 0 || s[0] == c {
        0
    } else {
        1 + first_index(s.skip(1), c)
    }
}

/// The pieces of `s` between occurrences of `sep`. There is always at least
/// one piece; a separator at either end gives an empty piece there.
pub open spec fn split(s: Seq<char>, sep: char) -> Seq<Seq<char>>
    decreases s.len(),
{
    let i = first_index(s, sep);
    if 0 <= i < s.len() {
        seq![s.take(i)] + split(s.skip(i + 1), sep)
    } else {
        seq![s]
    }
}

/// The pieces written one after another with `sep` between neighbours.
pub open spec fn join(pieces: Seq<Seq<char>>, sep: char) -> Seq<char>
    decreases pieces.len(),
{
    if pieces.len() == 0 {
        Seq::empty()
    } else if pieces.len() == 1 {
        pieces[0]
    } else {
        pieces[0] + seq![sep] + join(pieces.skip(1), sep)
    }
}

/// `first_index` is within bounds, nothing before it is `c`, and where it is
/// inside `s` it points at a `c`.
pub proof fn lemma_first_index(s: Seq<char>, c: char)
    ensures
        0 <= first_index(s, c) <= s.len(),
        forall|k: int| 0 <= k < first_index(s, c) ==> s[k] != c,
        first_index(s, c) < s.len() ==> s[first_index(s, c)] == c,
    decreases s.len(),
{
    if s.len() == 0 || s[0] == c {
    } else {
        let rest = s.skip(1);
        lemma_first_index(rest, c);
        assert forall|k: int| 0 <= k < first_index(s, c) implies s[k] != c by {
            if k > 0 {
                assert(s[k] == rest[k - 1]);
            }
        }
        if first_index(s, c) < s.len() {
            assert(s[first_index(s, c)] == rest[first_index(rest, c)]);
        }
    }
}

/// A position that is preceded by no `c`, and that holds a `c` or is the
/// end of `s`, is the first index.
pub proof fn lemma_first_index_is(s: Seq<char>, c: char, i: int)
    requires
        0 <= i <= s.len(),
        forall|k: int| 0 <= k < i ==> s[k] != c,
        i < s.len() ==> s[i] == c,
    ensures
        first_index(s, c) == i,
{
    lemma_first_index(s, c);
    let j = first_index(s, c);
    if j < i {
        assert(s[j] == c);
    } else if i < j {
        assert(s[i] != c);
    }
}

/// Splitting always yields at least one piece, and no piece holds the
/// separator.
pub proof fn lemma_split_pieces(s: Seq<char>, sep: char)
    ensures
        split(s, sep).len() >= 1,
        forall|i: int, k: int|
            0 <= i < split(s, sep).len() && 0 <= k < split(s, sep)[i].len()
                ==> split(s, sep)[i][k] != sep,
    decreases s.len(),
{
    lemma_first_index(s, sep);
    let at = first_index(s, sep);
    if at < s.len() {
        let rest = s.skip(at + 1);
        lemma_split_pieces(rest, sep);
        assert forall|i: int, k: int|
            0 <= i < split(s, sep).len() && 0 <= k < split(s, sep)[i].len()
            implies split(s, sep)[i][k] != sep by {
            if i == 0 {
                assert(split(s, sep)[0][k] == s[k]);
            } else {
                assert(split(s, sep)[i] == split(rest, sep)[i - 1]);
            }
        }
    }
}

/// Joining what `split` gave restores the text.
pub proof fn lemma_split_then_join(s: Seq<char>, sep: char)
    ensures
        join(split(s, sep), sep) == s,
    decreases s.len(),
{
    lemma_first_index(s, sep);
    let at = first_index(s, sep);
    if at < s.len() {
        let rest = s.skip(at + 1);
        lemma_split_then_join(rest, sep);
        lemma_split_pieces(rest, sep);
        let pieces = split(s, sep);
        assert(pieces.skip(1) =~= split(rest, sep));
        assert(s.take(at) + seq![sep] + rest =~= s);
    }
}

/// Splitting a joined sequence of pieces, none of which holds the separator,
/// gives the pieces back.
pub proof fn lemma_join_then_split(pieces: Seq<Seq<char>>, sep: char)
    requires
        pieces.len() >= 1,
        forall|i: int, k: int|
            0 <= i < pieces.len() && 0 <= k < pieces[i].len() ==> pieces[i][k] != sep,
    ensures
        split(join(pieces, sep), sep) == pieces,
    decreases pieces.len(),
{
    let whole = join(pieces, sep);
    let head = pieces[0];
    if pieces.len() == 1 {
        lemma_first_index_is(whole, sep, whole.len() as int);
        assert(seq![whole] =~= pieces);
    } else {
        let tail = pieces.skip(1);
        assert forall|i: int, k: int|
            0 <= i < tail.len() && 0 <= k < tail[i].len() implies tail[i][k] != sep by {
            assert(tail[i] == pieces[i + 1]);
        }
        lemma_join_then_split(tail, sep);
        assert forall|k: int| 0 <= k < head.len() implies whole[k] != sep by {
            assert(whole[k] == head[k]);
        }
        assert(whole[head.len() as int] == sep);
        lemma_first_index_is(whole, sep, head.len() as int);
        assert(whole.take(head.len() as int) =~= head);
        assert(whole.skip(head.len() as int + 1) =~= join(tail, sep));
        assert(seq![head] + tail =~= pieces);
    }
}

/// Reads the characters of a string into a vector.
pub fn chars_of(s: &str) -> (chars: Vec<char>)
    ensures
        chars@ == s@,
{
    broadcast use vstd::string::group_string_axioms;

    let mut chars: Vec<char> = Vec::new();
    for c in it: s.chars()
        invariant
            it.seq() == s@,
            chars@ == s@.take(it.index()),
    {
        chars.push(c);
        assert(s@.take(it.index() + 1) =~= s@.take(it.index()).push(c));
    }
    assert(s@.take(s@.len() as int) =~= s@);
    chars
}

/// Copies the characters `from..to` of `s` into a new string. `ascii` says
/// whether `s` is known to be ASCII, in which case the cut takes constant
/// time.
fn cut(s: &str, ascii: bool, from: usize, to: usize) -> (piece: String)
    requires
        from <= to <= s@.len(),
        ascii ==> s.is_ascii(),
    ensures
        piece@ == s@.subrange(from as int, to as int),
{
    if ascii {
        s.substring_ascii(from, to).to_owned()
    } else {
        s.substring_char(from, to).to_owned()
    }
}

/// Splits a string at every `sep`, as `str::split` does for a `char`.
pub fn split_text(s: &str, sep: char) -> (pieces: Vec<String>)
    ensures
        pieces.deep_view() == split(s@, sep),
{
    let chars = chars_of(s);
    let ascii = s.is_ascii();
    let n: usize = chars.len();
    let mut pieces: Vec<String> = Vec::new();
    let mut start: usize = 0;
    let mut i: usize = 0;
    proof {
        assert(s@.skip(0) =~= s@);
        assert(pieces.deep_view() + split(s@, sep) =~= split(s@, sep));
    }
    while i < n
        invariant
            chars@ == s@,
            n == s@.len(),
            ascii ==> s.is_ascii(),
            start <= i <= n,
            forall|k: int| start <= k < i ==> s@[k] != sep,
            split(s@, sep) == pieces.deep_view() + split(s@.skip(start as int), sep),
        decreases n - i,
    {
        if chars[i] == sep {
            let piece = cut(s, ascii, start, i);
            let ghost done = pieces.deep_view();
            pieces.push(piece);
            proof {
                let rest = s@.skip(start as int);
                lemma_first_index_is(rest, sep, i - start);
                assert(rest.take(i - start) =~= s@.subrange(start as int, i as int));
                assert(rest.skip(i - start + 1) =~= s@.skip(i + 1));
                assert(pieces.deep_view() =~= done.push(piece@));
                assert(done.push(piece@) + split(s@.skip(i + 1), sep) =~= done + split(rest, sep));
            }
            start = i + 1;
        }
        i = i + 1;
    }
    let piece = cut(s, ascii, start, n);
    let ghost done = pieces.deep_view();
    pieces.push(piece);
    proof {
        let rest = s@.skip(start as int);
        lemma_first_index_is(rest, sep, n - start);
        assert(rest =~= s@.subrange(start as int, n as int));
        assert(pieces.deep_view() =~= done.push(piece@));
        assert(done.push(piece@) =~= done + split(rest, sep));
    }
    pieces
}

/// A line without the carriage return that may end it.
pub open spec fn without_cr(line: Seq<char>) -> Seq<char> {
    if line.len() > 0 && line.last() == '\r' {
        line.drop_last()
    } else {
        line
    }
}

/// The lines of a text. A line ends at a line feed; a carriage return just
/// before that line feed belongs to the line ending. What follows the last
/// line feed is a line of its own unless it is empty.
pub open spec fn lines_of(text: Seq<char>) -> Seq<Seq<char>> {
    let raw = split(text, '\n');
    let ended = raw.drop_last().map_values(|line: Seq<char>| without_cr(line));
    if raw.last().len() == 0 {
        ended
    } else {
        ended.push(raw.last())
    }
}

/// Splits a text into its lines.
pub fn split_lines(text: &str) -> (lines: Vec<String>)
    ensures
        lines.deep_view() == lines_of(text@),
{
    let chars = chars_of(text);
    let ascii = text.is_ascii();
    let n: usize = chars.len();
    let mut lines: Vec<String> = Vec::new();
    let ghost mut ended: Seq<Seq<char>> = Seq::empty();
    let mut start: usize = 0;
    let mut i: usize = 0;
    proof {
        assert(text@.skip(0) =~= text@);
        assert(ended + split(text@, '\n') =~= split(text@, '\n'));
        assert(lines.deep_view() =~= ended.map_values(|line: Seq<char>| without_cr(line)));
    }
    while i < n
        invariant
            chars@ == text@,
            n == text@.len(),
            ascii ==> text.is_ascii(),
            start <= i <= n,
            forall|k: int| start <= k < i ==> text@[k] != '\n',
            split(text@, '\n') == ended + split(text@.skip(start as int), '\n'),
            lines.deep_view() == ended.map_values(|line: Seq<char>| without_cr(line)),
        decreases n - i,
    {
        if chars[i] == '\n' {
            let end: usize = if start < i && chars[i - 1] == '\r' {
                i - 1
            } else {
                i
            };
            let line = cut(text, ascii, start, end);
            let ghost before = lines.deep_view();
            lines.push(line);
            proof {
                let rest = text@.skip(start as int);
                let piece = text@.subrange(start as int, i as int);
                lemma_first_index_is(rest, '\n', i - start);
                assert(rest.take(i - start) =~= piece);
                assert(rest.skip(i - start + 1) =~= text@.skip(i + 1));
                assert(line@ =~= without_cr(piece));
                assert(lines.deep_view() =~= before.push(line@));
                assert(ended.push(piece) + split(text@.skip(i + 1), '\n') =~= ended + split(
                    rest,
                    '\n',
                ));
                assert(before.push(line@) =~= ended.push(piece).map_values(
                    |line: Seq<char>| without_cr(line),
                ));
                ended = ended.push(piece);
            }
            start = i + 1;
        }
        i = i + 1;
    }
    proof {
        let rest = text@.skip(start as int);
        lemma_first_index_is(rest, '\n', n - start);
        assert(ended.push(rest) =~= ended + split(rest, '\n'));
        assert(ended.push(rest).drop_last() =~= ended);
    }
    if start < n {
        let line = cut(text, ascii, start, n);
        let ghost before = lines.deep_view();
        lines.push(line);
        proof {
            assert(text@.skip(start as int) =~= text@.subrange(start as int, n as int));
            assert(lines.deep_view() =~= before.push(line@));
        }
    }
    lines
}

/// Whether `c` is white space: the characters that `str::trim` removes.
pub open spec fn is_space(c: char) -> bool {
    ||| c == ' '
    ||| ('\u{9}' <= c && c <= '\u{D}')
    ||| c == '\u{85}'
    ||| c == '\u{A0}'
    ||| c == '\u{1680}'
    ||| ('\u{2000}' <= c && c <= '\u{200A}')
    ||| c == '\u{2028}'
    ||| c == '\u{2029}'
    ||| c == '\u{202F}'
    ||| c == '\u{205F}'
    ||| c == '\u{3000}'
}

/// `s` without the white space at its start.
pub open spec fn trim_start(s: Seq<char>) -> Seq<char>
    decreases s.len(),
{
    if s.len() > 0 && is_space(s[0]) {
        trim_start(s.skip(1))
    } else {
        s
    }
}

/// `s` without the white space at its end.
pub open spec fn trim_end(s: Seq<char>) -> Seq<char>
    decreases s.len(),
{
    if s.len() > 0 && is_space(s.last()) {
        trim_end(s.drop_last())
    } else {
        s
    }
}

/// `s` without the white space at either end.
pub open spec fn trim(s: Seq<char>) -> Seq<char> {
    trim_end(trim_start(s))
}

/// Where the first `from` characters are white space and the next one is
/// not, `trim_start` drops exactly those.
pub proof fn lemma_trim_start_is(s: Seq<char>, from: int)
    requires
        0 <= from <= s.len(),
        forall|k: int| 0 <= k < from ==> is_space(s[k]),
        from < s.len() ==> !is_space(s[from]),
    ensures
        trim_start(s) == s.skip(from),
    decreases from,
{
    if from == 0 {
        assert(s.skip(0) =~= s);
    } else {
        let rest = s.skip(1);
        assert forall|k: int| 0 <= k < from - 1 implies is_space(rest[k]) by {
            assert(rest[k] == s[k + 1]);
        }
        lemma_trim_start_is(rest, from - 1);
        assert(rest.skip(from - 1) =~= s.skip(from));
    }
}

/// Where everything from `to` on is white space and the character before
/// `to` is not, `trim_end` keeps exactly the first `to` characters.
pub proof fn lemma_trim_end_is(s: Seq<char>, to: int)
    requires
        0 <= to <= s.len(),
        forall|k: int| to <= k < s.len() ==> is_space(s[k]),
        to > 0 ==> !is_space(s[to - 1]),
    ensures
        trim_end(s) == s.take(to),
    decreases s.len() - to,
{
    if to == s.len() {
        assert(s.take(to) =~= s);
    } else {
        let rest = s.drop_last();
        lemma_trim_end_is(rest, to);
        assert(rest.take(to) =~= s.take(to));
    }
}

/// Tells whether a character is white space.
pub fn is_space_char(c: char) -> (space: bool)
    ensures
        space == is_space(c),
{
    c == ' ' || (c >= '\u{9}' && c <= '\u{D}') || c == '\u{85}' || c == '\u{A0}' || c
        == '\u{1680}' || (c >= '\u{2000}' && c <= '\u{200A}') || c == '\u{2028}' || c
        == '\u{2029}' || c == '\u{202F}' || c == '\u{205F}' || c == '\u{3000}'
}

/// Removes the white space at both ends of a string, as `str::trim` does.
pub fn trim_text(s: &str) -> (trimmed: String)
    ensures
        trimmed@ == trim(s@),
{
    let chars = chars_of(s);
    let ascii = s.is_ascii();
    let n: usize = chars.len();
    let mut from: usize = 0;
    while from < n && is_space_char(chars[from])
        invariant
            chars@ == s@,
            from <= n == s@.len(),
            forall|k: int| 0 <= k < from ==> is_space(s@[k]),
        decreases n - from,
    {
        from = from + 1;
    }
    let mut to: usize = n;
    while to > from && is_space_char(chars[to - 1])
        invariant
            chars@ == s@,
            from <= to <= n == s@.len(),
            forall|k: int| to <= k < n ==> is_space(s@[k]),
        decreases to,
    {
        to = to - 1;
    }
    proof {
        let rest = s@.skip(from as int);
        lemma_trim_start_is(s@, from as int);
        assert forall|k: int| to - from <= k < rest.len() implies is_space(rest[k]) by {
            assert(rest[k] == s@[k + from]);
        }
        lemma_trim_end_is(rest, to - from);
        assert(rest.take(to - from) =~= s@.subrange(from as int, to as int));
    }
    cut(s, ascii, from, to)
}

/// Whether `c` is one of the ten decimal digits.
pub open spec fn is_digit(c: char) -> bool {
    '0' <= c && c <= '9'
}

/// The number that a decimal digit stands for.
pub open spec fn digit_value(c: char) -> int {
    c as int - '0' as int
}

/// The number that a sequence of decimal digits writes, most significant
/// digit first.
pub open spec fn decimal(digits: Seq<char>) -> int
    decreases digits.len(),
{
    if digits.len() == 0 {
        0
    } else {
        10 * decimal(digits.drop_last()) + digit_value(digits.last())
    }
}

/// Whether every character of `s` is a decimal digit.
pub open spec fn all_digits(s: Seq<char>) -> bool {
    forall|k: int| 0 <= k < s.len() ==> is_digit(#[trigger] s[k])
}

/// What follows the sign of a number, or all of `s` where it has no sign.
pub open spec fn unsigned_part(s: Seq<char>) -> Seq<char> {
    if s.len() > 0 && (s[0] == '-' || s[0] == '+') {
        s.skip(1)
    } else {
        s
    }
}

/// The integer that `s` writes in base ten, as `str::parse::<i32>` reads it:
/// an optional `+` or `-`, then one or more digits and nothing else, with a
/// value that fits in 32 bits.
pub open spec fn parse_i32(s: Seq<char>) -> Option<i32> {
    let digits = unsigned_part(s);
    let value = if s.len() > 0 && s[0] == '-' {
        -decimal(digits)
    } else {
        decimal(digits)
    };
    if digits.len() > 0 && all_digits(digits) && i32::MIN <= value <= i32::MAX {
        Some(value as i32)
    } else {
        None
    }
}

/// A prefix of a digit sequence writes a number that is no larger than the
/// whole sequence does.
pub proof fn lemma_decimal_prefix(digits: Seq<char>, len: int)
    requires
        all_digits(digits),
        0 <= len <= digits.len(),
    ensures
        0 <= decimal(digits.take(len)) <= decimal(digits),
    decreases digits.len(),
{
    if digits.len() == 0 {
        assert(digits.take(len) =~= digits);
    } else {
        let front = digits.drop_last();
        assert(is_digit(digits[digits.len() - 1]));
        if len == digits.len() {
            assert(digits.take(len) =~= digits);
            lemma_decimal_prefix(front, 0);
        } else {
            lemma_decimal_prefix(front, len);
            assert(front.take(len) =~= digits.take(len));
        }
    }
}

/// Reads a base-ten `i32`, as `str::parse::<i32>` does.
pub fn parse_number(s: &str) -> (number: Option<i32>)
    ensures
        number == parse_i32(s@),
{
    let chars = chars_of(s);
    let n: usize = chars.len();
    if n == 0 {
        return None;
    }
    let negative = chars[0] == '-';
    let first: usize = if chars[0] == '-' || chars[0] == '+' {
        1
    } else {
        0
    };
    let ghost digits = unsigned_part(s@);
    assert(digits =~= s@.skip(first as int));
    if first == n {
        return None;
    }
    let mut magnitude: i64 = 0;
    let mut i: usize = first;
    assert(digits.take(0) =~= Seq::<char>::empty());
    while i < n
        invariant
            chars@ == s@,
            n == s@.len(),
            first <= i <= n,
            digits == unsigned_part(s@),
            digits == s@.skip(first as int),
            all_digits(digits.take(i - first)),
            magnitude == decimal(digits.take(i - first)),
            0 <= magnitude <= 2147483648,
        decreases n - i,
    {
        let c = chars[i];
        if !(c >= '0' && c <= '9') {
            assert(!is_digit(digits[i - first]));
            return None;
        }
        let digit: i64 = (c as u32 - '0' as u32) as i64;
        magnitude = magnitude * 10 + digit;
        proof {
            let longer = digits.take(i - first + 1);
            assert(longer.drop_last() =~= digits.take(i - first));
            assert(longer.last() == c);
            assert forall|k: int| 0 <= k < longer.len() implies is_digit(#[trigger] longer[k]) by {
                if k < i - first {
                    assert(longer[k] == digits.take(i - first)[k]);
                }
            }
        }
        if magnitude > 2147483648 {
            proof {
                if all_digits(digits) {
                    lemma_decimal_prefix(digits, i - first + 1);
                }
            }
            return None;
        }
        i = i + 1;
    }
    assert(digits.take(n - first) =~= digits);
    if negative {
        Some((-magnitude) as i32)
    } else if magnitude <= 2147483647 {
        Some(magnitude as i32)
    } else {
        None
    }
}

/// The first character of a string, if it has one.
pub fn first_char(s: &str) -> (first: Option<char>)
    ensures
        first == if s@.len() == 0 {
            None
        } else {
            Some(s@[0])
        },
{
    if s.is_empty() {
        None
    } else {
        Some(s.get_char(0))
    }
}

/// What follows the first character of a string.
pub(crate) fn after_first(s: &str) -> (rest: String)
    requires
        s@.len() > 0,
    ensures
        rest@ == s@.skip(1),
{
    let n: usize = s.unicode_len();
    assert(s@.skip(1) =~= s@.subrange(1, n as int));
    cut(s, s.is_ascii(), 1, n)
}

/// Tells whether two strings hold the same characters.
pub fn same_text(a: &str, b: &str) -> (same: bool)
    ensures
        same == (a@ == b@),
{
    let left = chars_of(a);
    let right = chars_of(b);
    let n: usize = left.len();
    if right.len() != n {
        return false;
    }
    let mut i: usize = 0;
    while i < n
        invariant
            left@ == a@,
            right@ == b@,
            n == left.len() == right.len(),
            i <= n,
            forall|k: int| 0 <= k < i ==> a@[k] == b@[k],
        decreases n - i,
    {
        if left[i] != right[i] {
            return false;
        }
        i = i + 1;
    }
    assert(a@ =~= b@);
    true
}

/// What follows `prefix` in `s`, or `None` where `s` does not begin with it.
pub open spec fn without_prefix(s: Seq<char>, prefix: Seq<char>) -> Option<Seq<char>> {
    if prefix.len() <= s.len() && s.take(prefix.len() as int) == prefix {
        Some(s.skip(prefix.len() as int))
    } else {
        None
    }
}

/// What precedes `suffix` in `s`, or `None` where `s` does not end with it.
pub open spec fn without_suffix(s: Seq<char>, suffix: Seq<char>) -> Option<Seq<char>> {
    if suffix.len() <= s.len() && s.skip(s.len() - suffix.len()) == suffix {
        Some(s.take(s.len() - suffix.len()))
    } else {
        None
    }
}

/// Tells whether `part` stands in `whole` from position `at` on.
fn matches_at(whole: &Vec<char>, part: &Vec<char>, at: usize) -> (found: bool)
    requires
        at + part.len() <= whole.len(),
    ensures
        found == (whole@.subrange(at as int, at + part.len()) == part@),
{
    let n: usize = part.len();
    let mut i: usize = 0;
    while i < n
        invariant
            n == part.len(),
            at + n <= whole.len(),
            i <= n,
            forall|k: int| 0 <= k < i ==> whole@[at + k] == part@[k],
        decreases n - i,
    {
        if whole[at + i] != part[i] {
            assert(whole@.subrange(at as int, at + n)[i as int] != part@[i as int]);
            return false;
        }
        i = i + 1;
    }
    assert(whole@.subrange(at as int, at + n) =~= part@);
    true
}

/// Removes `prefix` from the start of `s`, as `str::strip_prefix` does.
pub fn strip_prefix(s: &str, prefix: &str) -> (rest: Option<String>)
    ensures
        match without_prefix(s@, prefix@) {
            Some(text) => rest is Some && rest.unwrap()@ == text,
            None => rest is None,
        },
{
    let whole = chars_of(s);
    let part = chars_of(prefix);
    if part.len() > whole.len() {
        return None;
    }
    assert(s@.take(prefix@.len() as int) =~= s@.subrange(0, 0 + part.len()));
    if matches_at(&whole, &part, 0) {
        assert(s@.skip(prefix@.len() as int) =~= s@.subrange(
            prefix@.len() as int,
            s@.len() as int,
        ));
        Some(cut(s, s.is_ascii(), part.len(), whole.len()))
    } else {
        None
    }
}

/// Removes `suffix` from the end of `s`, as `str::strip_suffix` does.
pub fn strip_suffix(s: &str, suffix: &str) -> (rest: Option<String>)
    ensures
        match without_suffix(s@, suffix@) {
            Some(text) => rest is Some && rest.unwrap()@ == text,
            None => rest is None,
        },
{
    let whole = chars_of(s);
    let part = chars_of(suffix);
    if part.len() > whole.len() {
        return None;
    }
    let at: usize = whole.len() - part.len();
    assert(s@.skip(s@.len() - suffix@.len()) =~= s@.subrange(at as int, at + suffix@.len()));
    if matches_at(&whole, &part, at) {
        assert(s@.take(at as int) =~= s@.subrange(0, at as int));
        Some(cut(s, s.is_ascii(), 0, at))
    } else {
        None
    }
}

} // verus!
