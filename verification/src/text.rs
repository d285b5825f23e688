//! Text: sequences of characters, and how they are cut, trimmed and read.

use vstd::prelude::*;

verus! {

/// `String::push`: appends the character at the end of the string.
pub assume_specification[ String::push ](s: &mut String, c: char)
    ensures
        final(s)@ == old(s)@.push(c),
;

/// The position of the first `x` in `s`, or the length of `s` where there is none.
pub open spec fn find<T>(s: Seq<T>, x: T) -> int
    decreases s.len(),
{
    if s.len() == 0 || s[0] == x {
        0
    } else {
        1 + find(s.skip(1), x)
    }
}

/// `find` is the first position that holds `x`.
pub proof fn lemma_find<T>(s: Seq<T>, x: T)
    ensures
        0 <= find(s, x) <= s.len(),
        forall|i: int| 0 <= i < find(s, x) ==> s[i] != x,
        find(s, x) < s.len() ==> s[find(s, x)] == x,
        s.contains(x) <==> find(s, x) < s.len(),
    decreases s.len(),
{
    if s.len() != 0 && s[0] != x {
        let rest = s.skip(1);
        lemma_find(rest, x);
        assert forall|i: int| 0 <= i < find(s, x) implies s[i] != x by {
            if i > 0 {
                assert(rest[i - 1] == s[i]);
            }
        }
    }
}

/// `s` cut at every `sep`: one piece more than there are separators.
pub open spec fn split<T>(s: Seq<T>, sep: T) -> Seq<Seq<T>>
    decreases s.len(),
{
    let i = find(s, sep);
    if i < s.len() {
        proof {
            lemma_find(s, sep);
        }
        seq![s.take(i)] + split(s.skip(i + 1), sep)
    } else {
        seq![s]
    }
}

/// There is at least one piece, and no piece holds the separator.
pub proof fn lemma_split_pieces<T>(s: Seq<T>, sep: T)
    ensures
        split(s, sep).len() > 0,
        forall|i: int| 0 <= i < split(s, sep).len() ==> !(#[trigger] split(s, sep)[i]).contains(sep),
    decreases s.len(),
{
    lemma_find(s, sep);
    let i = find(s, sep);
    if i < s.len() {
        let rest = s.skip(i + 1);
        lemma_split_pieces(rest, sep);
        assert forall|k: int| 0 <= k < split(s, sep).len() implies !(#[trigger] split(
            s,
            sep,
        )[k]).contains(sep) by {
            if k > 0 {
                assert(split(s, sep)[k] == split(rest, sep)[k - 1]);
            } else {
                assert(split(s, sep)[0] == s.take(i));
            }
        }
    }
}

/// Cutting at a separator: the pieces before it, then those after it.
pub proof fn lemma_split_concat<T>(a: Seq<T>, b: Seq<T>, sep: T)
    ensures
        split(a.push(sep) + b, sep) == split(a, sep) + split(b, sep),
    decreases a.len(),
{
    let s = a.push(sep) + b;
    lemma_find(s, sep);
    lemma_find(a, sep);
    let i = find(a, sep);
    assert(s[a.len() as int] == sep);
    if i < a.len() {
        assert(s[i] == sep);
        assert(find(s, sep) == i) by {
            if find(s, sep) < i {
                assert(a[find(s, sep)] == s[find(s, sep)]);
            }
        }
        let rest = a.skip(i + 1);
        lemma_split_concat(rest, b, sep);
        assert(s.skip(i + 1) =~= rest.push(sep) + b);
        assert(s.take(i) =~= a.take(i));
        assert(seq![a.take(i)] + (split(rest, sep) + split(b, sep)) =~= (seq![a.take(i)] + split(
            rest,
            sep,
        )) + split(b, sep));
    } else {
        assert(find(s, sep) == a.len()) by {
            if find(s, sep) < a.len() {
                assert(a[find(s, sep)] == s[find(s, sep)]);
            }
        }
        assert(s.skip(a.len() as int + 1) =~= b);
        assert(s.take(a.len() as int) =~= a);
    }
}

/// A line without its terminator: the carriage return before a line feed goes too.
pub open spec fn without_cr(s: Seq<char>) -> Seq<char> {
    if s.len() > 0 && s.last() == '\r' {
        s.drop_last()
    } else {
        s
    }
}

/// The lines of a text. A line ends in a line feed, or in a carriage return and a
/// line feed; after the last line the terminator may be missing.
pub open spec fn lines(s: Seq<char>) -> Seq<Seq<char>>
    decreases s.len(),
{
    let i = find(s, '\n');
    if i < s.len() {
        proof {
            lemma_find(s, '\n');
        }
        seq![without_cr(s.take(i))] + lines(s.skip(i + 1))
    } else if s.len() > 0 {
        seq![s]
    } else {
        seq![]
    }
}

/// The characters with the Unicode property White_Space.
pub open spec fn white_space(c: char) -> bool {
    ||| '\u{9}' <= c <= '\u{d}'
    ||| c == ' '
    ||| c == '\u{85}'
    ||| c == '\u{a0}'
    ||| c == '\u{1680}'
    ||| '\u{2000}' <= c <= '\u{200a}'
    ||| c == '\u{2028}'
    ||| c == '\u{2029}'
    ||| c == '\u{202f}'
    ||| c == '\u{205f}'
    ||| c == '\u{3000}'
}

/// `s` without the white space at both of its ends.
pub open spec fn trimmed(s: Seq<char>) -> Seq<char>
    decreases s.len(),
{
    if s.len() > 0 && white_space(s[0]) {
        trimmed(s.drop_first())
    } else if s.len() > 0 && white_space(s.last()) {
        trimmed(s.drop_last())
    } else {
        s
    }
}

/// Two dots in a row occur in `s`.
pub open spec fn has_dot_dot(s: Seq<char>) -> bool {
    exists|i: int| 0 <= i < s.len() - 1 && #[trigger] s[i] == '.' && s[i + 1] == '.'
}

/// `s` with every backslash turned into a slash.
pub open spec fn forward_slashes(s: Seq<char>) -> Seq<char> {
    s.map_values(
        |c: char|
            if c == '\\' {
                '/'
            } else {
                c
            },
    )
}

pub open spec fn is_digit(c: char) -> bool {
    '0' <= c <= '9'
}

/// The number that a sequence of decimal digits writes.
pub open spec fn digits_value(s: Seq<char>) -> nat
    decreases s.len(),
{
    if s.len() == 0 {
        0
    } else {
        digits_value(s.drop_last()) * 10 + (s.last() as nat - '0' as nat) as nat
    }
}

/// `s` without the plus sign that may stand before a number.
pub open spec fn without_plus(s: Seq<char>) -> Seq<char> {
    if s.len() > 0 && s[0] == '+' {
        s.skip(1)
    } else {
        s
    }
}

/// The number that `s` writes: an optional plus sign and one decimal digit or more,
/// with a value that a `usize` can hold.
pub open spec fn number(s: Seq<char>) -> Option<usize> {
    let d = without_plus(s);
    if d.len() > 0 && (forall|i: int| 0 <= i < d.len() ==> is_digit(#[trigger] d[i]))
        && digits_value(d) <= usize::MAX {
        Some(digits_value(d) as usize)
    } else {
        None
    }
}

/// The decimal digits of `n`, without leading zeros.
pub open spec fn decimal(n: nat) -> Seq<char>
    decreases n,
{
    let d = ('0' as nat + n % 10) as char;
    if n < 10 {
        seq![d]
    } else {
        decimal(n / 10).push(d)
    }
}

/// The order of texts: by the first character in which they differ; a beginning of a
/// text comes before it.
pub open spec fn text_le(a: Seq<char>, b: Seq<char>) -> bool
    decreases a.len(),
{
    if a.len() == 0 {
        true
    } else if b.len() == 0 {
        false
    } else if a[0] == b[0] {
        text_le(a.drop_first(), b.drop_first())
    } else {
        a[0] < b[0]
    }
}

pub proof fn lemma_text_le_total(a: Seq<char>, b: Seq<char>)
    ensures
        text_le(a, b) || text_le(b, a),
    decreases a.len(),
{
    if a.len() > 0 && b.len() > 0 && a[0] == b[0] {
        lemma_text_le_total(a.drop_first(), b.drop_first());
        assert(text_le(a, b) == text_le(a.drop_first(), b.drop_first()));
        assert(text_le(b, a) == text_le(b.drop_first(), a.drop_first()));
    }
}

pub proof fn lemma_text_le_transitive(a: Seq<char>, b: Seq<char>, c: Seq<char>)
    requires
        text_le(a, b),
        text_le(b, c),
    ensures
        text_le(a, c),
    decreases a.len(),
{
    if a.len() > 0 && a[0] == b[0] && b[0] == c[0] {
        lemma_text_le_transitive(a.drop_first(), b.drop_first(), c.drop_first());
    }
}

/// Two texts of which neither comes before the other are the same.
pub proof fn law_text_le_antisymmetric(a: Seq<char>, b: Seq<char>)
    requires
        text_le(a, b),
        text_le(b, a),
    ensures
        a == b,
    decreases a.len(),
{
    if a.len() > 0 && b.len() > 0 {
        assert(a[0] == b[0]);
        let x = a.drop_first();
        let y = b.drop_first();
        law_text_le_antisymmetric(x, y);
        assert(a.len() == x.len() + 1);
        assert(b.len() == y.len() + 1);
        assert forall|i: int| 0 <= i < a.len() implies a[i] == b[i] by {
            if i > 0 {
                assert(x[i - 1] == a[i]);
                assert(y[i - 1] == b[i]);
            }
        }
    }
    assert(a =~= b);
}

/// The texts that a list of strings holds.
pub open spec fn texts(v: Seq<String>) -> Seq<Seq<char>> {
    v.map_values(|s: String| s@)
}

/// The characters of a string, one by one.
pub fn chars_of(s: &str) -> (r: Vec<char>)
    ensures
        r@ == s@,
{
    let mut out: Vec<char> = Vec::new();
    for c in it: s.chars()
        invariant
            out@ == it.seq().take(it.index()),
            it.seq() == s@,
    {
        proof {
            assert(it.seq().take(it.index() + 1) =~= it.seq().take(it.index()).push(c));
        }
        out.push(c);
    }
    assert(s@.take(s@.len() as int) =~= s@);
    out
}

/// The characters from position `i` up to position `j`, as a string.
pub fn string_of(chars: &Vec<char>, i: usize, j: usize) -> (r: String)
    requires
        i <= j <= chars@.len(),
    ensures
        r@ == chars@.subrange(i as int, j as int),
{
    let mut out = String::new();
    let mut k: usize = i;
    while k < j
        invariant
            i <= k <= j <= chars@.len(),
            out@ == chars@.subrange(i as int, k as int),
        decreases j - k,
    {
        out.push(chars[k]);
        k += 1;
        assert(chars@.subrange(i as int, k as int) =~= chars@.subrange(i as int, k - 1).push(
            chars@[k - 1],
        ));
    }
    out
}

/// The position of the first `x` at or after position `from`, or the length where
/// there is none.
pub fn find_from(chars: &Vec<char>, from: usize, x: char) -> (r: usize)
    requires
        from <= chars@.len(),
    ensures
        from <= r <= chars@.len(),
        r == from + find(chars@.skip(from as int), x),
{
    let mut k: usize = from;
    while k < chars.len() && chars[k] != x
        invariant
            from <= k <= chars@.len(),
            from + find(chars@.skip(from as int), x) == k + find(chars@.skip(k as int), x),
        decreases chars@.len() - k,
    {
        assert(chars@.skip(k as int).skip(1) =~= chars@.skip(k + 1));
        k += 1;
    }
    k
}

/// The lines of a text.
pub fn text_lines(s: &str) -> (r: Vec<String>)
    ensures
        texts(r@) == lines(s@),
{
    let chars = chars_of(s);
    let mut out: Vec<String> = Vec::new();
    let mut pos: usize = 0;
    assert(chars@.skip(0) =~= chars@);
    while pos < chars.len()
        invariant
            pos <= chars@.len(),
            chars@ == s@,
            lines(s@) == texts(out@) + lines(chars@.skip(pos as int)),
        decreases chars@.len() - pos,
    {
        let ghost rest = chars@.skip(pos as int);
        let ghost before = out@;
        let end: usize = find_from(&chars, pos, '\n');
        proof {
            lemma_find(rest, '\n');
            assert(rest.take(end - pos) =~= chars@.subrange(pos as int, end as int));
        }
        if end < chars.len() {
            let cut: usize = if end > pos && chars[end - 1] == '\r' {
                end - 1
            } else {
                end
            };
            let line = string_of(&chars, pos, cut);
            assert(line@ =~= without_cr(rest.take(end - pos)));
            assert(rest.skip(end - pos + 1) =~= chars@.skip(end + 1));
            out.push(line);
            assert(texts(out@) =~= texts(before).push(line@));
            pos = end + 1;
            assert(texts(before) + (seq![line@] + lines(chars@.skip(pos as int))) =~= texts(out@)
                + lines(chars@.skip(pos as int)));
        } else {
            let line = string_of(&chars, pos, end);
            assert(line@ =~= rest);
            out.push(line);
            assert(texts(out@) =~= texts(before).push(line@));
            pos = end;
            assert(chars@.skip(pos as int) =~= Seq::<char>::empty());
            assert(lines(Seq::<char>::empty()) =~= Seq::<Seq<char>>::empty());
            assert(texts(before) + seq![line@] =~= texts(out@) + Seq::<Seq<char>>::empty());
        }
    }
    assert(chars@.skip(pos as int) =~= Seq::<char>::empty());
    assert(lines(Seq::<char>::empty()) =~= Seq::<Seq<char>>::empty());
    assert(texts(out@) + Seq::<Seq<char>>::empty() =~= texts(out@));
    out
}

/// Whether the character has the Unicode property White_Space.
pub fn is_white_space(c: char) -> (r: bool)
    ensures
        r == white_space(c),
{
    ('\u{9}' <= c && c <= '\u{d}') || c == ' ' || c == '\u{85}' || c == '\u{a0}' || c == '\u{1680}'
        || ('\u{2000}' <= c && c <= '\u{200a}') || c == '\u{2028}' || c == '\u{2029}' || c
        == '\u{202f}' || c == '\u{205f}' || c == '\u{3000}'
}

/// The characters from `i` up to `j`, without the white space at both ends.
pub fn trimmed_string(chars: &Vec<char>, i: usize, j: usize) -> (r: String)
    requires
        i <= j <= chars@.len(),
    ensures
        r@ == trimmed(chars@.subrange(i as int, j as int)),
{
    let ghost whole = chars@.subrange(i as int, j as int);
    let mut from: usize = i;
    while from < j && is_white_space(chars[from])
        invariant
            i <= from <= j <= chars@.len(),
            trimmed(whole) == trimmed(chars@.subrange(from as int, j as int)),
        decreases j - from,
    {
        assert(chars@.subrange(from as int, j as int).drop_first() =~= chars@.subrange(
            from + 1,
            j as int,
        ));
        from += 1;
    }
    let mut to: usize = j;
    while from < to && is_white_space(chars[to - 1])
        invariant
            i <= from <= to <= j <= chars@.len(),
            from < to ==> !white_space(chars@[from as int]),
            trimmed(whole) == trimmed(chars@.subrange(from as int, to as int)),
        decreases to - from,
    {
        assert(chars@.subrange(from as int, to as int).drop_last() =~= chars@.subrange(
            from as int,
            to - 1,
        ));
        to -= 1;
    }
    string_of(chars, from, to)
}

/// Whether two dots in a row occur in the text.
pub fn contains_dot_dot(s: &str) -> (r: bool)
    ensures
        r == has_dot_dot(s@),
{
    let chars = chars_of(s);
    let mut k: usize = 1;
    while k < chars.len()
        invariant
            1 <= k,
            chars@ == s@,
            forall|i: int|
                0 <= i < k - 1 && i < s@.len() - 1 ==> !(#[trigger] s@[i] == '.' && s@[i + 1] == '.'),
        decreases chars@.len() - k,
    {
        if chars[k - 1] == '.' && chars[k] == '.' {
            assert(s@[k - 1] == '.' && s@[(k - 1) + 1] == '.');
            return true;
        }
        k += 1;
    }
    false
}

/// The text with every backslash turned into a slash.
pub fn with_forward_slashes(s: &str) -> (r: String)
    ensures
        r@ == forward_slashes(s@),
{
    let chars = chars_of(s);
    let mut out = String::new();
    let mut k: usize = 0;
    while k < chars.len()
        invariant
            k <= chars@.len(),
            chars@ == s@,
            out@ == forward_slashes(s@.take(k as int)),
        decreases chars@.len() - k,
    {
        let ghost before = out@;
        if chars[k] == '\\' {
            out.push('/');
        } else {
            out.push(chars[k]);
        }
        k += 1;
        assert(out@ =~= forward_slashes(s@.take(k as int)));
    }
    assert(s@.take(k as int) =~= s@);
    out
}

proof fn lemma_digits_value_of_prefix(s: Seq<char>, k: int)
    requires
        0 <= k <= s.len(),
    ensures
        digits_value(s.take(k)) <= digits_value(s),
    decreases s.len() - k,
{
    if k < s.len() {
        lemma_digits_value_of_prefix(s, k + 1);
        assert(s.take(k + 1).drop_last() =~= s.take(k));
    } else {
        assert(s.take(k) =~= s);
    }
}

/// The number that the characters from `i` up to `j` write, if they write one.
pub fn parse_number(chars: &Vec<char>, i: usize, j: usize) -> (r: Option<usize>)
    requires
        i <= j <= chars@.len(),
    ensures
        r == number(chars@.subrange(i as int, j as int)),
{
    let ghost s = chars@.subrange(i as int, j as int);
    let from: usize = if i < j && chars[i] == '+' {
        i + 1
    } else {
        i
    };
    let ghost d = chars@.subrange(from as int, j as int);
    assert(d =~= without_plus(s));
    if from == j {
        return None;
    }
    let mut value: usize = 0;
    let mut k: usize = from;
    while k < j
        invariant
            from <= k <= j <= chars@.len(),
            d == chars@.subrange(from as int, j as int),
            d == without_plus(s),
            value == digits_value(d.take(k - from)),
            forall|i: int| 0 <= i < k - from ==> is_digit(#[trigger] d[i]),
            s == chars@.subrange(i as int, j as int),
        decreases j - k,
    {
        let c: char = chars[k];
        assert(c == d[k - from]);
        if c < '0' || '9' < c {
            return None;
        }
        let digit: usize = (c as u32 - '0' as u32) as usize;
        proof {
            assert(d.take(k - from + 1).drop_last() =~= d.take(k - from));
            lemma_digits_value_of_prefix(d, k - from + 1);
        }
        if value > (usize::MAX - digit) / 10 {
            return None;
        }
        value = value * 10 + digit;
        k += 1;
    }
    assert(d.take(k - from) =~= d);
    Some(value)
}

/// The decimal digits of a number.
pub fn decimal_string(n: usize) -> (r: String)
    ensures
        r@ == decimal(n as nat),
    decreases n,
{
    let digit: u8 = (n % 10) as u8;
    let mut out = if n < 10 {
        String::new()
    } else {
        decimal_string(n / 10)
    };
    out.push(('0' as u8 + digit) as char);
    assert(out@ =~= decimal(n as nat));
    out
}

/// Whether the first text comes before the second or equals it.
pub fn text_at_most(a: &str, b: &str) -> (r: bool)
    ensures
        r == text_le(a@, b@),
{
    let x = chars_of(a);
    let y = chars_of(b);
    let mut k: usize = 0;
    assert(x@.skip(0) =~= x@);
    assert(y@.skip(0) =~= y@);
    while k < x.len() && k < y.len() && x[k] == y[k]
        invariant
            k <= x@.len(),
            k <= y@.len(),
            text_le(x@, y@) == text_le(x@.skip(k as int), y@.skip(k as int)),
        decreases x@.len() - k,
    {
        assert(x@.skip(k as int).drop_first() =~= x@.skip(k + 1));
        assert(y@.skip(k as int).drop_first() =~= y@.skip(k + 1));
        k += 1;
    }
    if k == x.len() {
        true
    } else if k == y.len() {
        false
    } else {
        x[k] < y[k]
    }
}

proof fn lemma_decimal(n: nat)
    ensures
        decimal(n).len() > 0,
        forall|i: int| 0 <= i < decimal(n).len() ==> is_digit(#[trigger] decimal(n)[i]),
        digits_value(decimal(n)) == n,
    decreases n,
{
    let d = ('0' as nat + n % 10) as char;
    assert(is_digit(d));
    if n < 10 {
        let s = seq![d];
        assert(s.drop_last() =~= seq![]);
        assert(digits_value(s.drop_last()) == 0);
    } else {
        lemma_decimal(n / 10);
        assert(decimal(n / 10).push(d).drop_last() =~= decimal(n / 10));
    }
}

/// The digits of a number read back as that number.
pub proof fn law_decimal_is_read_back(n: usize)
    ensures
        number(decimal(n as nat)) == Some(n),
{
    lemma_decimal(n as nat);
    assert(is_digit(decimal(n as nat)[0]));
    assert(without_plus(decimal(n as nat)) == decimal(n as nat));
}

/// No line of a text holds a line feed.
pub proof fn law_lines_hold_no_line_feed(s: Seq<char>)
    ensures
        forall|i: int| 0 <= i < lines(s).len() ==> !(#[trigger] lines(s)[i]).contains('\n'),
    decreases s.len(),
{
    lemma_find(s, '\n');
    let n = find(s, '\n');
    if n < s.len() {
        let rest = s.skip(n + 1);
        law_lines_hold_no_line_feed(rest);
        assert forall|i: int| 0 <= i < lines(s).len() implies !(#[trigger] lines(s)[i]).contains(
            '\n',
        ) by {
            if i > 0 {
                assert(lines(s)[i] == lines(rest)[i - 1]);
            } else {
                assert(lines(s)[0] == without_cr(s.take(n)));
            }
        }
    }
}

/// The pieces of a sequence, each with the separator behind it, give back the sequence
/// with a separator behind it. No piece holds the separator.
pub proof fn law_split<T>(s: Seq<T>, sep: T)
    ensures
        split(s, sep).map_values(|piece: Seq<T>| piece.push(sep)).flatten() == s.push(sep),
        forall|i: int| 0 <= i < split(s, sep).len() ==> !(#[trigger] split(s, sep)[i]).contains(sep),
    decreases s.len(),
{
    let ended = |piece: Seq<T>| piece.push(sep);
    let i = find(s, sep);
    let all = split(s, sep).map_values(ended);
    lemma_find(s, sep);
    lemma_split_pieces(s, sep);
    if i < s.len() {
        let rest = s.skip(i + 1);
        law_split(rest, sep);
        assert(all.drop_first() =~= split(rest, sep).map_values(ended));
        assert(all[0] == s.take(i).push(sep));
        assert(all.flatten() =~= s.push(sep));
    } else {
        assert(all.drop_first() =~= seq![]);
        assert(all.drop_first().flatten() =~= seq![]);
        assert(all.flatten() =~= s.push(sep));
    }
}

/// The lines of a text are the pieces between its line feeds. Each but the last loses
/// the carriage return at its end, if it has one; the last is no line where it is empty.
pub proof fn law_lines(s: Seq<char>)
    ensures
        ({
            let pieces = split(s, '\n');
            let last = pieces.len() - 1;
            &&& lines(s).len() == if pieces[last].len() > 0 {
                last + 1
            } else {
                last
            }
            &&& forall|i: int|
                0 <= i < last ==> if pieces[i].len() > 0 && pieces[i].last() == '\r' {
                    #[trigger] lines(s)[i] == pieces[i].drop_last()
                } else {
                    lines(s)[i] == pieces[i]
                }
            &&& pieces[last].len() > 0 ==> lines(s)[last] == pieces[last]
        }),
    decreases s.len(),
{
    let n = find(s, '\n');
    lemma_find(s, '\n');
    if n < s.len() {
        let rest = s.skip(n + 1);
        let pieces = split(s, '\n');
        law_lines(rest);
        lemma_split_pieces(rest, '\n');
        assert(forall|i: int| 0 < i < pieces.len() ==> pieces[i] == split(rest, '\n')[i - 1]);
        assert(forall|i: int|
            0 < i < lines(s).len() ==> #[trigger] lines(s)[i] == lines(rest)[i - 1]);
        assert(lines(s)[0] == without_cr(s.take(n)));
    }
}

/// The characters that count as white space, by their numbers.
pub proof fn law_white_space(c: char)
    ensures
        white_space(c) <==> {
            let n = c as u32;
            ||| 9 <= n <= 13
            ||| n == 32
            ||| n == 133
            ||| n == 160
            ||| n == 5760
            ||| 8192 <= n <= 8202
            ||| n == 8232
            ||| n == 8233
            ||| n == 8239
            ||| n == 8287
            ||| n == 12288
        },
{
}

proof fn lemma_trimmed_part(s: Seq<char>) -> (r: (int, int))
    ensures
        0 <= r.0 <= r.1 <= s.len(),
        trimmed(s) == s.subrange(r.0, r.1),
        forall|k: int| 0 <= k < r.0 ==> white_space(#[trigger] s[k]),
        forall|k: int| r.1 <= k < s.len() ==> white_space(#[trigger] s[k]),
        r.0 < r.1 ==> !white_space(s[r.0]) && !white_space(s[r.1 - 1]),
    decreases s.len(),
{
    if s.len() > 0 && white_space(s[0]) {
        let rest = s.drop_first();
        let (i, j) = lemma_trimmed_part(rest);
        assert(s.subrange(i + 1, j + 1) =~= rest.subrange(i, j));
        assert forall|k: int| 0 <= k < i + 1 implies white_space(#[trigger] s[k]) by {
            if k > 0 {
                assert(white_space(rest[k - 1]));
            }
        }
        assert forall|k: int| j + 1 <= k < s.len() implies white_space(#[trigger] s[k]) by {
            assert(white_space(rest[k - 1]));
        }
        (i + 1, j + 1)
    } else if s.len() > 0 && white_space(s.last()) {
        let rest = s.drop_last();
        let (i, j) = lemma_trimmed_part(rest);
        assert(s.subrange(i, j) =~= rest.subrange(i, j));
        assert forall|k: int| 0 <= k < i implies white_space(#[trigger] s[k]) by {
            assert(white_space(rest[k]));
        }
        assert forall|k: int| j <= k < s.len() implies white_space(#[trigger] s[k]) by {
            if k < rest.len() {
                assert(white_space(rest[k]));
            }
        }
        (i, j)
    } else {
        assert(s.subrange(0, s.len() as int) =~= s);
        (0, s.len() as int)
    }
}

/// Trimming takes white space off both ends of a text, all of it, and nothing else.
pub proof fn law_trimmed(s: Seq<char>)
    ensures
        exists|i: int, j: int|
            {
                &&& 0 <= i <= j <= s.len()
                &&& trimmed(s) == #[trigger] s.subrange(i, j)
                &&& forall|k: int| 0 <= k < i ==> white_space(#[trigger] s[k])
                &&& forall|k: int| j <= k < s.len() ==> white_space(#[trigger] s[k])
                &&& i < j ==> !white_space(s[i]) && !white_space(s[j - 1])
            },
{
    let (i, j) = lemma_trimmed_part(s);
    assert(trimmed(s) == s.subrange(i, j));
}

/// A text holds two dots in a row just where a part of it is these two dots.
pub proof fn law_has_dot_dot(s: Seq<char>)
    ensures
        has_dot_dot(s) <==> exists|i: int|
            0 <= i <= s.len() - 2 && #[trigger] s.subrange(i, i + 2) == seq!['.', '.'],
{
    if has_dot_dot(s) {
        let i = choose|i: int| 0 <= i < s.len() - 1 && #[trigger] s[i] == '.' && s[i + 1] == '.';
        assert(s.subrange(i, i + 2) =~= seq!['.', '.']);
    }
    assert forall|i: int|
        0 <= i <= s.len() - 2 && #[trigger] s.subrange(i, i + 2) == seq![
            '.',
            '.',
        ] implies has_dot_dot(s) by {
        assert(s.subrange(i, i + 2)[0] == '.' && s.subrange(i, i + 2)[1] == '.');
        assert(s[i] == '.' && s[i + 1] == '.');
    }
}

/// Each backslash becomes a slash, and every other character stays, in its place.
pub proof fn law_forward_slashes(s: Seq<char>)
    ensures
        forward_slashes(s).len() == s.len(),
        forall|i: int|
            0 <= i < s.len() ==> #[trigger] forward_slashes(s)[i] == if s[i] == '\\' {
                '/'
            } else {
                s[i]
            },
{
}

/// The digits of a number are those of its tens, then the digit of its units.
pub proof fn law_decimal(tens: nat, units: nat)
    requires
        units < 10,
    ensures
        decimal(10 * tens + units) == if tens == 0 {
            seq![('0' as nat + units) as char]
        } else {
            decimal(tens).push(('0' as nat + units) as char)
        },
{
    assert((10 * tens + units) / 10 == tens);
    assert((10 * tens + units) % 10 == units);
}

proof fn lemma_digits_after_zeros(d: Seq<char>) -> (k: int)
    requires
        d.len() > 0,
        forall|i: int| 0 <= i < d.len() ==> is_digit(#[trigger] d[i]),
    ensures
        0 <= k < d.len(),
        d.skip(k) == decimal(digits_value(d)),
        forall|i: int| 0 <= i < k ==> d[i] == '0',
    decreases d.len(),
{
    let front = d.drop_last();
    let c = d.last();
    let v = digits_value(front);
    let u = (c as nat - '0' as nat) as nat;
    assert(is_digit(d[d.len() - 1]));
    assert(digits_value(d) == 10 * v + u);
    assert(('0' as nat + u) as char == c);
    law_decimal(v, u);
    if front.len() == 0 {
        assert(v == 0);
        assert(d.skip(0) =~= seq![c]);
        0
    } else {
        assert forall|i: int| 0 <= i < front.len() implies is_digit(#[trigger] front[i]) by {
            assert(is_digit(d[i]));
        }
        let k = lemma_digits_after_zeros(front);
        if v > 0 {
            assert(d.skip(k) =~= front.skip(k).push(c));
            assert forall|i: int| 0 <= i < k implies d[i] == '0' by {
                assert(front[i] == '0');
            }
            k
        } else {
            law_decimal(0, 0);
            assert(front.skip(k) =~= seq!['0']);
            assert(front.skip(k).len() == 1);
            assert(front.skip(k)[0] == '0');
            assert(d.skip(d.len() - 1) =~= seq![c]);
            assert forall|i: int| 0 <= i < d.len() - 1 implies d[i] == '0' by {
                assert(d[i] == front[i]);
                if i == k {
                    assert(front[k] == front.skip(k)[0]);
                }
            }
            d.len() - 1
        }
    }
}

proof fn lemma_zeros_before_digits(d: Seq<char>, k: int)
    requires
        0 <= k <= d.len(),
        forall|i: int| 0 <= i < k ==> d[i] == '0',
    ensures
        digits_value(d) == digits_value(d.skip(k)),
    decreases d.len(),
{
    if d.len() > 0 {
        let front = d.drop_last();
        if k < d.len() {
            lemma_zeros_before_digits(front, k);
            assert(d.skip(k).drop_last() =~= front.skip(k));
            assert(d.skip(k).last() == d.last());
        } else {
            lemma_zeros_before_digits(front, k - 1);
            assert(front.skip(k - 1) =~= seq![]);
            assert(d.skip(k) =~= seq![]);
            assert(d.last() == d[k - 1]);
        }
    }
}

/// A text without a plus sign at its start writes a number just where it is the digits
/// of that number, with or without zeros before them. One plus sign before such a text
/// does not count, and before any other it is not allowed.
pub proof fn law_number(s: Seq<char>, n: usize)
    requires
        s.len() > 0 ==> s[0] != '+',
    ensures
        number(s) == Some(n) <==> exists|k: int|
            {
                &&& 0 <= k <= s.len()
                &&& #[trigger] s.skip(k) == decimal(n as nat)
                &&& forall|i: int| 0 <= i < k ==> s[i] == '0'
            },
        number(seq!['+'] + s) == number(s),
        number(seq!['+', '+'] + s) is None,
{
    assert((seq!['+'] + s).skip(1) =~= s);
    assert((seq!['+', '+'] + s).skip(1)[0] == '+');
    if number(s) == Some(n) {
        let k = lemma_digits_after_zeros(s);
        assert(s.skip(k) == decimal(n as nat));
    }
    assert forall|k: int|
        {
            &&& 0 <= k <= s.len()
            &&& #[trigger] s.skip(k) == decimal(n as nat)
            &&& forall|i: int| 0 <= i < k ==> s[i] == '0'
        } implies number(s) == Some(n) by {
        lemma_decimal(n as nat);
        lemma_zeros_before_digits(s, k);
        assert(s.len() >= s.skip(k).len());
        assert forall|i: int| 0 <= i < s.len() implies is_digit(#[trigger] s[i]) by {
            if i >= k {
                assert(s.skip(k)[i - k] == s[i]);
                assert(is_digit(decimal(n as nat)[i - k]));
            }
        }
    }
}

/// A text comes before another just where it is a beginning of it, or where it has the
/// lower character in the first place in which they differ.
pub proof fn law_text_le(a: Seq<char>, b: Seq<char>)
    ensures
        text_le(a, b) <==> a.is_prefix_of(b) || exists|i: int|
            {
                &&& 0 <= i < a.len()
                &&& i < b.len()
                &&& #[trigger] a.take(i) == b.take(i)
                &&& a[i] < b[i]
            },
    decreases a.len(),
{
    if a.len() > 0 && b.len() > 0 {
        let x = a.drop_first();
        let y = b.drop_first();
        law_text_le(x, y);
        if a[0] == b[0] {
            assert(a.is_prefix_of(b) <==> x.is_prefix_of(y)) by {
                if x.is_prefix_of(y) {
                    assert(a =~= b.subrange(0, a.len() as int)) by {
                        assert forall|i: int| 0 < i < a.len() implies a[i] == b[i] by {
                            assert(x[i - 1] == y.subrange(0, x.len() as int)[i - 1]);
                        }
                    }
                }
                if a.is_prefix_of(b) {
                    assert(x =~= y.subrange(0, x.len() as int)) by {
                        assert forall|i: int| 0 <= i < x.len() implies x[i] == y[i] by {
                            assert(a[i + 1] == b.subrange(0, a.len() as int)[i + 1]);
                        }
                    }
                }
            }
            assert forall|i: int|
                0 <= i < x.len() && i < y.len() && #[trigger] x.take(i) == y.take(i) && x[i]
                    < y[i] implies a.take(i + 1) == b.take(i + 1) && a[i + 1] < b[i + 1] by {
                assert(a.take(i + 1) =~= seq![a[0]] + x.take(i));
                assert(b.take(i + 1) =~= seq![b[0]] + y.take(i));
            }
            assert forall|i: int|
                0 <= i < a.len() && i < b.len() && #[trigger] a.take(i) == b.take(i) && a[i]
                    < b[i] implies i > 0 && x.take(i - 1) == y.take(i - 1) && x[i - 1] < y[i
                - 1] by {
                assert(x.take(i - 1) =~= a.take(i).drop_first());
                assert(y.take(i - 1) =~= b.take(i).drop_first());
            }
        } else {
            assert(a.take(0) =~= b.take(0));
            assert forall|i: int|
                0 < i < a.len() && i < b.len() implies #[trigger] a.take(i) != b.take(i) by {
                assert(a.take(i)[0] != b.take(i)[0]);
            }
            if a.is_prefix_of(b) {
                assert(a[0] == b.subrange(0, a.len() as int)[0]);
            }
        }
    } else if a.len() == 0 {
        assert(b.subrange(0, 0) =~= a);
    }
}

/// The texts of a list of strings stand in the places of the strings.
pub proof fn law_texts(v: Seq<String>)
    ensures
        texts(v).len() == v.len(),
        forall|i: int| 0 <= i < v.len() ==> #[trigger] texts(v)[i] == v[i]@,
{
}

} // verus!
