//! A page of a text file: numbered lines, within limits.

use crate::encoding::{lemma_encode_concat, lemma_encode_len};
use crate::server::Pastaless;
use crate::text::{chars_of, decimal, decimal_string, lines, string_of, text_lines, texts};
use crate::types::{ReadResponse, ReadResponseView};
use vstd::prelude::*;
use vstd::utf8::encode_utf8;

verus! {

pub const DEFAULT_READ_LIMIT: usize = 2000;

pub const MAX_READ_LIMIT: usize = 2000;

pub const MAX_LINE_LENGTH: usize = 2000;

pub const MAX_READ_BYTES: usize = 50 * 1024;

/// More characters than a line is shown with.
pub open spec fn too_long(line: Seq<char>) -> bool {
    line.len() > MAX_LINE_LENGTH
}

/// A line as it is shown: the first characters and three dots where it is too long.
pub open spec fn shortened(line: Seq<char>) -> Seq<char> {
    if too_long(line) {
        line.take(MAX_LINE_LENGTH as int) + seq!['.', '.', '.']
    } else {
        line
    }
}

impl Pastaless {
    /// The line as it is shown, and whether it was too long.
    pub fn truncate_line(text: &str) -> (r: (String, bool))
        ensures
            r.0@ == shortened(text@),
            r.1 == too_long(text@),
    {
        let chars = chars_of(text);
        if chars.len() > MAX_LINE_LENGTH {
            let mut result = string_of(&chars, 0, MAX_LINE_LENGTH);
            result.push('.');
            result.push('.');
            result.push('.');
            assert(result@ =~= shortened(text@));
            (result, true)
        } else {
            let result = string_of(&chars, 0, chars.len());
            assert(result@ =~= text@);
            (result, false)
        }
    }
}

/// The number of the first line asked for. Lines count from one.
pub open spec fn first_line(offset: Option<usize>) -> nat {
    match offset {
        Some(n) => if n < 1 {
            1
        } else {
            n as nat
        },
        None => 1,
    }
}

/// The number of lines asked for, within the limits.
pub open spec fn line_limit(limit: Option<usize>) -> nat {
    match limit {
        Some(n) => if n < 1 {
            1
        } else if n > MAX_READ_LIMIT {
            MAX_READ_LIMIT as nat
        } else {
            n as nat
        },
        None => DEFAULT_READ_LIMIT as nat,
    }
}

/// Line `i`, counted from zero, as a page shows it.
pub open spec fn shown_line(all: Seq<Seq<char>>, i: int) -> Seq<char> {
    decimal((i + 1) as nat) + seq![':', ' '] + shortened(all[i]) + seq!['\n']
}

/// `count` lines from line `first` on, counted from zero, as a page shows them.
pub open spec fn shown_lines(all: Seq<Seq<char>>, first: int, count: nat) -> Seq<char>
    decreases count,
{
    if count == 0 {
        seq![]
    } else {
        shown_lines(all, first, (count - 1) as nat) + shown_line(all, first + count - 1)
    }
}

/// A page may hold `count` lines from line `first` on.
pub open spec fn fits(all: Seq<Seq<char>>, first: int, count: nat) -> bool {
    encode_utf8(shown_lines(all, first, count)).len() <= MAX_READ_BYTES
}

/// How many of the `wanted` lines from line `first` on a page holds: as many as fit.
pub open spec fn page_size(all: Seq<Seq<char>>, first: int, wanted: nat) -> nat
    decreases wanted,
{
    if wanted == 0 || fits(all, first, wanted) {
        wanted
    } else {
        page_size(all, first, (wanted - 1) as nat)
    }
}

/// How many lines there are among those asked for.
pub open spec fn wanted_lines(total: nat, first: int, limit: nat) -> nat {
    if first >= total {
        0
    } else if total - first < limit {
        (total - first) as nat
    } else {
        limit
    }
}

/// One of the `count` lines from line `first` on is too long.
pub open spec fn some_too_long(all: Seq<Seq<char>>, first: int, count: nat) -> bool {
    exists|i: int| first <= i < first + count && too_long(#[trigger] all[i])
}

/// The page of the text of a file that a request is answered with.
pub open spec fn page(
    path: Seq<char>,
    text: Seq<char>,
    offset: Option<usize>,
    limit: Option<usize>,
) -> ReadResponseView {
    let all = lines(text);
    let first = first_line(offset) - 1;
    let limit = line_limit(limit);
    let wanted = wanted_lines(all.len(), first, limit);
    let size = page_size(all, first, wanted);
    ReadResponseView {
        path,
        start_line: first_line(offset),
        end_line: (first + size) as nat,
        total_lines: all.len(),
        content: shown_lines(all, first, size),
        truncated: size < wanted || some_too_long(all, first, size) || first + limit < all.len(),
    }
}

proof fn lemma_fits_fewer(all: Seq<Seq<char>>, first: int, few: nat, many: nat)
    requires
        few <= many,
        fits(all, first, many),
    ensures
        fits(all, first, few),
    decreases many,
{
    if few < many {
        lemma_encode_concat(
            shown_lines(all, first, (many - 1) as nat),
            shown_line(all, first + many - 1),
        );
        lemma_fits_fewer(all, first, few, (many - 1) as nat);
    }
}

/// A page holds as many of the wanted lines as fit.
pub proof fn lemma_page_size(all: Seq<Seq<char>>, first: int, wanted: nat)
    ensures
        page_size(all, first, wanted) <= wanted,
        fits(all, first, page_size(all, first, wanted)),
        forall|n: nat|
            page_size(all, first, wanted) < n <= wanted ==> !#[trigger] fits(all, first, n),
    decreases wanted,
{
    if wanted == 0 {
        assert(encode_utf8(shown_lines(all, first, 0)).len() == 0);
    } else if !fits(all, first, wanted) {
        lemma_page_size(all, first, (wanted - 1) as nat);
    }
}

fn render(number: usize, line: &str) -> (r: String)
    ensures
        r@ == decimal(number as nat) + seq![':', ' '] + line@ + seq!['\n'],
{
    let mut out = decimal_string(number);
    out.push(':');
    out.push(' ');
    out.append(line);
    out.push('\n');
    assert(out@ =~= decimal(number as nat) + seq![':', ' '] + line@ + seq!['\n']);
    out
}

fn start_line_of(offset: Option<usize>) -> (r: usize)
    ensures
        r == first_line(offset),
        r >= 1,
{
    match offset {
        Some(n) => if n < 1 {
            1
        } else {
            n
        },
        None => 1,
    }
}

fn limit_of(limit: Option<usize>) -> (r: usize)
    ensures
        r == line_limit(limit),
        1 <= r <= MAX_READ_LIMIT,
{
    match limit {
        Some(n) => if n < 1 {
            1
        } else if n > MAX_READ_LIMIT {
            MAX_READ_LIMIT
        } else {
            n
        },
        None => DEFAULT_READ_LIMIT,
    }
}

proof fn lemma_page_size_is(all: Seq<Seq<char>>, first: int, wanted: nat, size: nat)
    requires
        size <= wanted,
        fits(all, first, size),
        size < wanted ==> !fits(all, first, size + 1),
    ensures
        page_size(all, first, wanted) == size,
{
    lemma_page_size(all, first, wanted);
    let p = page_size(all, first, wanted);
    if size < p {
        lemma_fits_fewer(all, first, size + 1, p);
    }
}

/// The page of the text of a file.
pub fn read_page(path: String, text: &str, offset: Option<usize>, limit: Option<usize>) -> (r:
    ReadResponse)
    ensures
        r@ == page(path@, text@, offset, limit),
{
    let all_lines = text_lines(text);
    let total_lines: usize = all_lines.len();
    let start_line: usize = start_line_of(offset);
    let limit_lines: usize = limit_of(limit);
    let first: usize = start_line - 1;
    let ghost all = lines(text@);
    let ghost wanted = wanted_lines(all.len(), first as int, limit_lines as nat);
    let mut content = String::new();
    let mut bytes: usize = 0;
    let mut truncated = false;
    let mut count: usize = 0;
    proof {
        assert(texts(all_lines@).len() == all_lines@.len());
        assert(encode_utf8(content@).len() == 0);
        assert(content@ =~= shown_lines(all, first as int, 0));
    }
    while count < limit_lines && first < total_lines && count < total_lines - first
        invariant_except_break
            !truncated || some_too_long(all, first as int, count as nat),
        invariant
            all == lines(text@),
            texts(all_lines@) == all,
            total_lines == all_lines@.len() == all.len(),
            wanted == wanted_lines(all.len(), first as int, limit_lines as nat),
            count <= wanted,
            content@ == shown_lines(all, first as int, count as nat),
            bytes == encode_utf8(content@).len(),
            bytes <= MAX_READ_BYTES,
            some_too_long(all, first as int, count as nat) ==> truncated,
        ensures
            count < wanted ==> !fits(all, first as int, (count + 1) as nat),
            truncated == (count < wanted || some_too_long(all, first as int, count as nat)),
        decreases limit_lines - count,
    {
        let index: usize = first + count;
        assert(all[index as int] == all_lines@[index as int]@);
        let (display, line_truncated) = Pastaless::truncate_line(all_lines[index].as_str());
        let rendered = render(index + 1, display.as_str());
        let size: usize = rendered.as_str().as_bytes().len();
        proof {
            assert(rendered@ == shown_line(all, index as int));
            lemma_encode_concat(content@, rendered@);
            assert(shown_lines(all, first as int, (count + 1) as nat) == content@ + rendered@);
        }
        if size > MAX_READ_BYTES - bytes {
            truncated = true;
            break;
        }
        bytes = bytes + size;
        content.append(rendered.as_str());
        proof {
            if some_too_long(all, first as int, (count + 1) as nat) && !line_truncated {
                let i = choose|i: int|
                    first <= i < first + (count + 1) && too_long(#[trigger] all[i]);
                assert(i < first + count);
            }
        }
        truncated = truncated || line_truncated;
        count = count + 1;
    }
    proof {
        lemma_page_size_is(all, first as int, wanted, count as nat);
    }
    if limit_lines < total_lines && first < total_lines - limit_lines {
        truncated = true;
    }
    ReadResponse { path, start_line, end_line: first + count, total_lines, content, truncated }
}

/// The content of a page takes no more bytes than a page may hold.
pub proof fn law_page_bytes(
    path: Seq<char>,
    text: Seq<char>,
    offset: Option<usize>,
    limit: Option<usize>,
)
    ensures
        encode_utf8(page(path, text, offset, limit).content).len() <= MAX_READ_BYTES,
{
    let all = lines(text);
    let first = first_line(offset) - 1;
    lemma_page_size(all, first, wanted_lines(all.len(), first, line_limit(limit)));
}

/// A page holds no more lines than were asked for, and none behind the last line of
/// the text.
pub proof fn law_page_lines(
    path: Seq<char>,
    text: Seq<char>,
    offset: Option<usize>,
    limit: Option<usize>,
)
    ensures
        ({
            let p = page(path, text, offset, limit);
            &&& p.start_line <= p.end_line + 1
            &&& p.end_line < p.start_line + line_limit(limit)
            &&& p.end_line <= p.total_lines || p.end_line + 1 == p.start_line
            &&& line_limit(limit) <= MAX_READ_LIMIT
        }),
{
    let all = lines(text);
    let first = first_line(offset) - 1;
    lemma_page_size(all, first, wanted_lines(all.len(), first, line_limit(limit)));
}

spec fn tens(k: nat) -> nat
    decreases k,
{
    if k == 0 {
        1
    } else {
        10 * tens((k - 1) as nat)
    }
}

proof fn lemma_decimal_len(n: nat, k: nat)
    requires
        n < tens(k),
        k > 0,
    ensures
        decimal(n).len() <= k,
    decreases k,
{
    if n >= 10 {
        if k == 1 {
            assert(tens(0) == 1);
        } else {
            lemma_decimal_len(n / 10, (k - 1) as nat);
        }
    }
}

/// A page that starts at a line of the text holds that line at least, so whoever asks
/// for one page after the other comes to the end of the text.
pub proof fn law_page_progress(
    path: Seq<char>,
    text: Seq<char>,
    offset: Option<usize>,
    limit: Option<usize>,
)
    requires
        first_line(offset) <= lines(text).len(),
    ensures
        page(path, text, offset, limit).end_line >= page(path, text, offset, limit).start_line,
{
    let all = lines(text);
    let first = first_line(offset) - 1;
    let wanted = wanted_lines(all.len(), first, line_limit(limit));
    lemma_page_size(all, first, wanted);
    assert(tens(20) == 100_000_000_000_000_000_000) by {
        reveal_with_fuel(tens, 21);
    }
    lemma_decimal_len(first_line(offset), 20);
    let line = shown_line(all, first);
    assert(line.len() <= 20 + 2 + MAX_LINE_LENGTH + 3 + 1);
    lemma_encode_len(line);
    assert(shown_lines(all, first, 1) =~= line) by {
        reveal_with_fuel(shown_lines, 2);
    }
    assert(fits(all, first, 1));
}

proof fn lemma_shown_lines_join(all: Seq<Seq<char>>, first: int, a: nat, b: nat)
    ensures
        shown_lines(all, first, a) + shown_lines(all, first + a, b) == shown_lines(
            all,
            first,
            a + b,
        ),
    decreases b,
{
    if b == 0 {
        assert(shown_lines(all, first, a) + shown_lines(all, first + a, 0) =~= shown_lines(
            all,
            first,
            a,
        ));
    } else {
        lemma_shown_lines_join(all, first, a, (b - 1) as nat);
        assert(shown_lines(all, first, a) + shown_lines(all, first + a, b) =~= shown_lines(
            all,
            first,
            a,
        ) + shown_lines(all, first + a, (b - 1) as nat) + shown_line(all, first + a + b - 1));
    }
}

/// A page and the page that starts behind its last line show the lines from the first
/// page's start to the second one's end, each once.
pub proof fn law_pages_join(
    path: Seq<char>,
    text: Seq<char>,
    offset: Option<usize>,
    limit: Option<usize>,
    next_offset: usize,
    next_limit: Option<usize>,
)
    requires
        next_offset == page(path, text, offset, limit).end_line + 1,
    ensures
        ({
            let p = page(path, text, offset, limit);
            let q = page(path, text, Some(next_offset), next_limit);
            p.content + q.content == shown_lines(
                lines(text),
                p.start_line - 1,
                (q.end_line - (p.start_line - 1)) as nat,
            )
        }),
{
    let p = page(path, text, offset, limit);
    let q = page(path, text, Some(next_offset), next_limit);
    let first = first_line(offset) - 1;
    lemma_shown_lines_join(
        lines(text),
        first,
        (p.end_line - first) as nat,
        (q.end_line - p.end_line) as nat,
    );
}

/// A page that is not marked as truncated shows every line from its start to the end
/// of the text, each in full.
pub proof fn law_untruncated_page_is_complete(
    path: Seq<char>,
    text: Seq<char>,
    offset: Option<usize>,
    limit: Option<usize>,
)
    requires
        !page(path, text, offset, limit).truncated,
        first_line(offset) <= lines(text).len() + 1,
    ensures
        ({
            let p = page(path, text, offset, limit);
            &&& p.end_line == p.total_lines
            &&& forall|i: int|
                p.start_line - 1 <= i < p.total_lines ==> shortened(#[trigger] lines(text)[i])
                    == lines(text)[i]
        }),
{
    let all = lines(text);
    let first = first_line(offset) - 1;
    let wanted = wanted_lines(all.len(), first, line_limit(limit));
    lemma_page_size(all, first, wanted);
}

proof fn lemma_shown_lines_flat(all: Seq<Seq<char>>, first: int, count: nat)
    ensures
        shown_lines(all, first, count) == Seq::new(
            count,
            |k: int| shown_line(all, first + k),
        ).flatten(),
    decreases count,
{
    let parts = Seq::new(count, |k: int| shown_line(all, first + k));
    parts.lemma_flatten_and_flatten_alt_are_equivalent();
    if count > 0 {
        let fewer = Seq::new((count - 1) as nat, |k: int| shown_line(all, first + k));
        lemma_shown_lines_flat(all, first, (count - 1) as nat);
        fewer.lemma_flatten_and_flatten_alt_are_equivalent();
        assert(parts.drop_last() =~= fewer);
    }
}

/// A line of 2000 characters at most is shown as it is; of a longer one the first 2000
/// are shown, and three dots.
pub proof fn law_shortened(line: Seq<char>)
    ensures
        too_long(line) <==> line.len() > 2000,
        shortened(line) == if line.len() <= 2000 {
            line
        } else {
            line.take(2000) + seq!['.', '.', '.']
        },
{
}

/// A page starts at the line asked for, and goes on as long as there are lines, as many
/// lines as asked for are not reached, and no more than 51200 bytes are taken. It shows
/// each line behind its number, a colon and a space, in full up to 2000 characters. It
/// is marked as truncated where lines of the text follow it, or where it cuts a line.
pub proof fn law_page(
    path: Seq<char>,
    text: Seq<char>,
    offset: Option<usize>,
    limit: Option<usize>,
)
    ensures
        ({
            let p = page(path, text, offset, limit);
            let all = lines(text);
            let first = p.start_line - 1;
            let most = match limit {
                None => 2000,
                Some(n) => if n == 0 {
                    1
                } else if n >= 2000 {
                    2000
                } else {
                    n as int
                },
            };
            let shown = |i: int|
                decimal((i + 1) as nat) + seq![':', ' '] + (if all[i].len() <= 2000 {
                    all[i]
                } else {
                    all[i].take(2000) + seq!['.', '.', '.']
                }) + seq!['\n'];
            &&& p.path == path
            &&& p.total_lines == all.len()
            &&& p.start_line == match offset {
                None => 1,
                Some(n) => if n == 0 {
                    1
                } else {
                    n as nat
                },
            }
            &&& first <= p.end_line <= first + most
            &&& p.end_line <= all.len() || p.end_line == first
            &&& p.content == Seq::new(
                (p.end_line - first) as nat,
                |k: int| shown(first + k),
            ).flatten()
            &&& encode_utf8(p.content).len() <= 51200
            &&& p.end_line < all.len() && p.end_line < first + most ==> encode_utf8(
                p.content + shown(p.end_line as int),
            ).len() > 51200
            &&& p.truncated <==> p.end_line < all.len() || exists|i: int|
                first <= i < p.end_line && #[trigger] all[i].len() > 2000
        }),
{
    let p = page(path, text, offset, limit);
    let all = lines(text);
    let first = first_line(offset) - 1;
    let wanted = wanted_lines(all.len(), first, line_limit(limit));
    let size = page_size(all, first, wanted);
    let shown = |i: int|
        decimal((i + 1) as nat) + seq![':', ' '] + (if all[i].len() <= 2000 {
            all[i]
        } else {
            all[i].take(2000) + seq!['.', '.', '.']
        }) + seq!['\n'];
    lemma_page_size(all, first, wanted);
    lemma_shown_lines_flat(all, first, size);
    assert(forall|i: int| shown(i) == #[trigger] shown_line(all, i));
    assert(Seq::new(size, |k: int| shown_line(all, first + k)) =~= Seq::new(
        size,
        |k: int| shown(first + k),
    ));
    if size < wanted {
        assert(!fits(all, first, size + 1));
        assert(shown_lines(all, first, size + 1) == p.content + shown_line(all, first + size));
    }
    assert(some_too_long(all, first, size) <==> exists|i: int|
        first <= i < p.end_line && #[trigger] all[i].len() > 2000) by {
        if some_too_long(all, first, size) {
            let i = choose|i: int| first <= i < first + size && too_long(#[trigger] all[i]);
            assert(all[i].len() > 2000);
        }
        if exists|i: int| first <= i < p.end_line && #[trigger] all[i].len() > 2000 {
            let i = choose|i: int| first <= i < p.end_line && #[trigger] all[i].len() > 2000;
            assert(too_long(all[i]));
        }
    }
}

/// A page that is not marked as truncated shows the text from its start to its end: line
/// by line, the number, a colon, a space, the line with every character as it is in the
/// text, and a line feed.
pub proof fn law_untruncated_page_shows_the_text(
    path: Seq<char>,
    text: Seq<char>,
    offset: Option<usize>,
    limit: Option<usize>,
)
    requires
        !page(path, text, offset, limit).truncated,
    ensures
        ({
            let p = page(path, text, offset, limit);
            let numbered = Seq::new(
                (p.end_line - (p.start_line - 1)) as nat,
                |k: int|
                    decimal((p.start_line + k) as nat) + seq![':', ' '] + lines(
                        text,
                    )[p.start_line - 1 + k] + seq!['\n'],
            );
            &&& p.content == numbered.flatten()
            &&& p.end_line == if p.start_line <= lines(text).len() {
                lines(text).len()
            } else {
                (p.start_line - 1) as nat
            }
        }),
{
    let p = page(path, text, offset, limit);
    let all = lines(text);
    let first = p.start_line - 1;
    let count = (p.end_line - first) as nat;
    let shown = |i: int|
        decimal((i + 1) as nat) + seq![':', ' '] + (if all[i].len() <= 2000 {
            all[i]
        } else {
            all[i].take(2000) + seq!['.', '.', '.']
        }) + seq!['\n'];
    law_page(path, text, offset, limit);
    assert(Seq::new(count, |k: int| shown(first + k)) =~= Seq::new(
        count,
        |k: int| decimal((p.start_line + k) as nat) + seq![':', ' '] + all[first + k] + seq!['\n'],
    )) by {
        assert(forall|i: int| first <= i < p.end_line ==> #[trigger] all[i].len() <= 2000);
    }
}

} // verus!
