//! Lines, occurrences, replacement, truncation and distance of texts.

use vstd::prelude::*;
use vstd::utf8::{char_is_scalar, encode_scalar, encode_utf8};

use crate::ids;
use crate::text;

verus! {

// ---------------------------------------------------------------------------
// Lines

pub open spec fn without_return(s: Seq<char>) -> Seq<char> {
    if s.len() > 0 && s.last() == '\r' {
        s.drop_last()
    } else {
        s
    }
}

/// The lines of a text, without the line feeds that end them and the carriage
/// returns before these.
pub open spec fn lines_of(s: Seq<char>) -> Seq<Seq<char>>
    decreases s.len(),
{
    if s.len() == 0 {
        Seq::empty()
    } else {
        let k = text::first_index(s, '\n');
        if 0 <= k < s.len() {
            seq![without_return(s.take(k))] + lines_of(s.skip(k + 1))
        } else {
            seq![s]
        }
    }
}

pub fn part(s: &[char], start: usize, end: usize) -> (r: Vec<char>)
    requires
        start <= end <= s@.len(),
    ensures
        r@ == s@.subrange(start as int, end as int),
{
    let mut r: Vec<char> = Vec::new();
    let mut i: usize = start;
    while i < end
        invariant
            start <= i <= end <= s@.len(),
            r@ == s@.subrange(start as int, i as int),
        decreases end - i,
    {
        r.push(s[i]);
        proof {
            assert(r@ =~= s@.subrange(start as int, i + 1));
        }
        i = i + 1;
    }
    r
}

pub fn lines(s: &[char]) -> (r: Vec<Vec<char>>)
    ensures
        text::rows(r@) == lines_of(s@),
{
    let mut r: Vec<Vec<char>> = Vec::new();
    let mut start: usize = 0;
    proof {
        assert(s@.skip(0) =~= s@);
        assert(text::rows(r@) + lines_of(s@) =~= lines_of(s@));
    }
    while start < s.len()
        invariant
            start <= s@.len(),
            text::rows(r@) + lines_of(s@.skip(start as int)) == lines_of(s@),
        decreases s@.len() - start,
    {
        let ghost rest = s@.skip(start as int);
        let mut end: usize = start;
        while end < s.len() && s[end] != '\n'
            invariant
                start <= end <= s@.len(),
                rest == s@.skip(start as int),
                forall|k: int| 0 <= k < end - start ==> #[trigger] rest[k] != '\n',
            decreases s@.len() - end,
        {
            proof {
                assert(rest[end - start] == s@[end as int]);
            }
            end = end + 1;
        }
        proof {
            if end < s@.len() {
                assert(rest[end - start] == s@[end as int]);
            }
            text::lemma_first_index(rest, '\n', end - start);
        }
        let ghost before = text::rows(r@);
        if end < s.len() {
            let stop: usize = if end > start && s[end - 1] == '\r' {
                end - 1
            } else {
                end
            };
            let line = part(s, start, stop);
            proof {
                assert(rest.take(end - start) =~= s@.subrange(start as int, end as int));
                assert(without_return(rest.take(end - start)) =~= line@);
                assert(rest.skip(end - start + 1) =~= s@.skip(end + 1));
            }
            r.push(line);
            proof {
                assert(text::rows(r@) =~= before.push(line@));
                assert(text::rows(r@) + lines_of(s@.skip(end + 1)) =~= before + (seq![line@]
                    + lines_of(s@.skip(end + 1))));
            }
            start = end + 1;
        } else {
            let line = part(s, start, end);
            proof {
                assert(line@ =~= rest);
            }
            r.push(line);
            proof {
                assert(text::rows(r@) =~= before.push(line@));
                assert(s@.skip(end as int) =~= Seq::empty());
                assert(text::rows(r@) + lines_of(s@.skip(end as int)) =~= before + seq![line@]);
            }
            start = end;
        }
    }
    proof {
        assert(s@.skip(start as int) =~= Seq::empty());
        assert(text::rows(r@) + lines_of(s@.skip(start as int)) =~= text::rows(r@));
    }
    r
}

// ---------------------------------------------------------------------------
// Occurrences and replacement

/// `p` stands in `s` at `i`.
pub open spec fn stands_at(s: Seq<char>, p: Seq<char>, i: int) -> bool {
    0 <= i && i + p.len() <= s.len() && s.subrange(i, i + p.len()) == p
}

/// Where `p` stands in `s` from `i` on, without overlaps, from the left.
pub open spec fn matches_from(s: Seq<char>, p: Seq<char>, i: int) -> Seq<int>
    decreases s.len() - i,
{
    if p.len() == 0 || i < 0 || i + p.len() > s.len() {
        Seq::empty()
    } else if stands_at(s, p, i) {
        seq![i] + matches_from(s, p, i + p.len())
    } else {
        matches_from(s, p, i + 1)
    }
}

/// `s` from `i` on, with `r` wherever `p` stands.
pub open spec fn replaced_from(s: Seq<char>, p: Seq<char>, r: Seq<char>, i: int) -> Seq<char>
    decreases s.len() - i,
{
    if p.len() == 0 || i < 0 || i + p.len() > s.len() {
        s.skip(i)
    } else if stands_at(s, p, i) {
        r + replaced_from(s, p, r, i + p.len())
    } else {
        seq![s[i]] + replaced_from(s, p, r, i + 1)
    }
}

fn found_at(s: &[char], p: &[char], i: usize) -> (r: bool)
    requires
        i + p@.len() <= s@.len(),
    ensures
        r == stands_at(s@, p@, i as int),
{
    let n: usize = s.len();
    let mut k: usize = 0;
    while k < p.len()
        invariant
            k <= p@.len(),
            n == s@.len(),
            i + p@.len() <= n,
            forall|j: int| 0 <= j < k ==> s@[i + j] == #[trigger] p@[j],
        decreases p@.len() - k,
    {
        if s[i + k] != p[k] {
            proof {
                assert(s@.subrange(i as int, i + p@.len())[k as int] == s@[i + k]);
            }
            return false;
        }
        k = k + 1;
    }
    proof {
        assert(s@.subrange(i as int, i + p@.len()) =~= p@);
    }
    true
}

pub open spec fn indices(list: Seq<usize>) -> Seq<int> {
    list.map_values(|i: usize| i as int)
}

/// Where `p` stands in `s`.
pub fn occurrences(s: &[char], p: &[char]) -> (r: Vec<usize>)
    requires
        p@.len() > 0,
    ensures
        indices(r@) == matches_from(s@, p@, 0),
        forall|k: int| 0 <= k < r@.len() ==> stands_at(s@, p@, (#[trigger] r@[k]) as int),
{
    let mut r: Vec<usize> = Vec::new();
    let mut i: usize = 0;
    proof {
        assert(indices(r@) + matches_from(s@, p@, 0) =~= matches_from(s@, p@, 0));
    }
    while i < s.len() && p.len() <= s.len() - i
        invariant
            p@.len() > 0,
            i <= s@.len(),
            indices(r@) + matches_from(s@, p@, i as int) == matches_from(s@, p@, 0),
            forall|k: int| 0 <= k < r@.len() ==> stands_at(s@, p@, (#[trigger] r@[k]) as int),
        decreases s@.len() - i,
    {
        let ghost before = indices(r@);
        if found_at(s, p, i) {
            r.push(i);
            proof {
                assert(indices(r@) =~= before.push(i as int));
                assert(indices(r@) + matches_from(s@, p@, i + p@.len()) =~= before + (seq![i as int]
                    + matches_from(s@, p@, i + p@.len())));
            }
            i = i + p.len();
        } else {
            i = i + 1;
        }
    }
    proof {
        assert(indices(r@) + Seq::<int>::empty() =~= indices(r@));
    }
    r
}

/// `s` with `by` wherever `p` stands.
pub fn replaced(s: &[char], p: &[char], by: &[char]) -> (r: Vec<char>)
    requires
        p@.len() > 0,
    ensures
        r@ == replaced_from(s@, p@, by@, 0),
{
    let mut r: Vec<char> = Vec::new();
    let mut i: usize = 0;
    proof {
        assert(r@ + replaced_from(s@, p@, by@, 0) =~= replaced_from(s@, p@, by@, 0));
    }
    while i < s.len() && p.len() <= s.len() - i
        invariant
            p@.len() > 0,
            i <= s@.len(),
            r@ + replaced_from(s@, p@, by@, i as int) == replaced_from(s@, p@, by@, 0),
        decreases s@.len() - i,
    {
        let ghost before = r@;
        if found_at(s, p, i) {
            text::push_all(&mut r, by);
            proof {
                assert(r@ + replaced_from(s@, p@, by@, i + p@.len()) =~= before + (by@
                    + replaced_from(s@, p@, by@, i + p@.len())));
            }
            i = i + p.len();
        } else {
            r.push(s[i]);
            proof {
                assert(r@ + replaced_from(s@, p@, by@, i + 1) =~= before + (seq![s@[i as int]]
                    + replaced_from(s@, p@, by@, i + 1)));
            }
            i = i + 1;
        }
    }
    let tail = part(s, i, s.len());
    proof {
        assert(tail@ =~= s@.skip(i as int));
    }
    text::push_all(&mut r, tail.as_slice());
    r
}

// ---------------------------------------------------------------------------
// Truncation

/// How many characters from `n` on fit into `max` bytes with those before.
pub open spec fn cut_from(s: Seq<char>, max: int, n: int) -> int
    decreases s.len() - n,
{
    if 0 <= n < s.len() && text::byte_len(s.take(n + 1)) <= max {
        cut_from(s, max, n + 1)
    } else {
        n
    }
}

/// The longest start of `s` that fits into `max` bytes.
pub open spec fn cut(s: Seq<char>, max: int) -> Seq<char> {
    s.take(cut_from(s, max, 0))
}

fn char_bytes(c: char) -> (n: usize)
    ensures
        n == text::byte_len(seq![c]),
        1 <= n <= 4,
{
    proof {
        char_is_scalar(c);
        let one = seq![c];
        assert(one.drop_first() =~= Seq::empty());
        assert(encode_utf8(one) =~= encode_scalar(c as u32) + encode_utf8(one.drop_first()));
        assert(encode_utf8(Seq::<char>::empty()).len() == 0);
    }
    let code: u32 = c as u32;
    if code <= 0x7F {
        1
    } else if code <= 0x7FF {
        2
    } else if code <= 0xFFFF {
        3
    } else {
        4
    }
}

proof fn lemma_bytes_push(s: Seq<char>, n: int)
    requires
        0 <= n < s.len(),
    ensures
        text::byte_len(s.take(n + 1)) == text::byte_len(s.take(n)) + text::byte_len(seq![s[n]]),
{
    assert(s.take(n + 1) =~= s.take(n) + seq![s[n]]);
    ids::lemma_bytes_concat(s.take(n), seq![s[n]]);
}

/// The bytes of a start of a text are no more than those of the text.
pub proof fn lemma_start_bytes(s: Seq<char>, n: int)
    requires
        0 <= n <= s.len(),
    ensures
        text::byte_len(s.take(n)) <= text::byte_len(s),
        n < s.len() ==> text::byte_len(s.take(n)) < text::byte_len(s),
{
    assert(s =~= s.take(n) + s.skip(n));
    ids::lemma_bytes_concat(s.take(n), s.skip(n));
    if n < s.len() {
        ids::lemma_some_bytes(s.skip(n));
    }
}

/// A start of `s` fits into `max` bytes, and the next longer one does not.
proof fn lemma_cut(s: Seq<char>, max: int, n: int, end: int)
    requires
        0 <= n <= end <= s.len(),
        text::byte_len(s.take(end)) <= max,
        end < s.len() ==> text::byte_len(s.take(end + 1)) > max,
    ensures
        cut_from(s, max, n) == end,
    decreases end - n,
{
    if n < end {
        assert(s.take(end).take(n + 1) =~= s.take(n + 1));
        lemma_start_bytes(s.take(end), n + 1);
        lemma_cut(s, max, n + 1, end);
    }
}

/// A text cut to `max` bytes, and whether anything was cut off.
pub fn truncate(s: &[char], max: usize) -> (r: (Vec<char>, bool))
    ensures
        r.0@ == cut(s@, max as int),
        r.1 == (text::byte_len(s@) > max),
{
    let mut used: usize = 0;
    let mut i: usize = 0;
    proof {
        assert(s@.take(0) =~= Seq::empty());
        assert(encode_utf8(Seq::<char>::empty()).len() == 0);
    }
    while i < s.len()
        invariant
            i <= s@.len(),
            used == text::byte_len(s@.take(i as int)),
            used <= max,
        decreases s@.len() - i,
    {
        let width: usize = char_bytes(s[i]);
        proof {
            lemma_bytes_push(s@, i as int);
        }
        if width > max - used {
            proof {
                lemma_cut(s@, max as int, 0, i as int);
                lemma_start_bytes(s@, i + 1);
                assert(s@.subrange(0, i as int) =~= s@.take(i as int));
            }
            return (part(s, 0, i), true);
        }
        used = used + width;
        i = i + 1;
    }
    proof {
        assert(s@.take(i as int) =~= s@);
        lemma_cut(s@, max as int, 0, i as int);
        assert(s@.subrange(0, i as int) =~= s@);
    }
    (part(s, 0, i), false)
}

/// What is left of a text fits, starts the text, and could not be longer.
pub proof fn truncated_texts_fit(s: Seq<char>, max: nat)
    ensures
        cut(s, max as int).is_prefix_of(s),
        text::byte_len(cut(s, max as int)) <= max,
        text::byte_len(s) <= max ==> cut(s, max as int) == s,
        cut(s, max as int).len() < s.len() ==> text::byte_len(
            s.take(cut(s, max as int).len() as int + 1),
        ) > max,
{
    assert(s.take(0) =~= Seq::empty());
    assert(encode_utf8(Seq::<char>::empty()).len() == 0);
    lemma_cut_fits(s, max as int, 0);
    let n = cut_from(s, max as int, 0);
    assert(s.take(n).is_prefix_of(s));
    if n < s.len() && text::byte_len(s) <= max {
        lemma_start_bytes(s, n + 1);
    }
    if n == s.len() {
        assert(s.take(n) =~= s);
    }
}

proof fn lemma_cut_fits(s: Seq<char>, max: int, n: int)
    requires
        0 <= n <= s.len(),
        text::byte_len(s.take(n)) <= max,
    ensures
        n <= cut_from(s, max, n) <= s.len(),
        text::byte_len(s.take(cut_from(s, max, n))) <= max,
        cut_from(s, max, n) < s.len() ==> text::byte_len(s.take(cut_from(s, max, n) + 1)) > max,
    decreases s.len() - n,
{
    if n < s.len() && text::byte_len(s.take(n + 1)) <= max {
        lemma_cut_fits(s, max, n + 1);
    }
}

/// The lines of a text that are not blank.
pub open spec fn solid_lines(s: Seq<char>) -> Seq<Seq<char>> {
    lines_of(s).filter(|line: Seq<char>| !text::is_blank(line))
}

/// The lines of a journal that say something.
pub fn journal_lines(content: &str) -> (r: Vec<String>)
    ensures
        text::texts(r@) == solid_lines(content@),
{
    let chars = text::chars_of(content);
    let all = lines(chars.as_slice());
    let ghost rows = text::rows(all@);
    let ghost solid = |line: Seq<char>| !text::is_blank(line);
    let mut r: Vec<String> = Vec::new();
    let mut i: usize = 0;
    proof {
        reveal(Seq::filter);
        assert(text::texts(r@) =~= rows.take(0).filter(solid));
    }
    while i < all.len()
        invariant
            i <= all@.len(),
            rows == text::rows(all@),
            solid == (|line: Seq<char>| !text::is_blank(line)),
            text::texts(r@) == rows.take(i as int).filter(solid),
        decreases all@.len() - i,
    {
        let line = text::string_of(all[i].as_slice());
        let ghost before = text::texts(r@);
        proof {
            reveal(Seq::filter);
            assert(rows[i as int] == all@[i as int]@);
            assert(rows.take(i + 1).drop_last() =~= rows.take(i as int));
            assert(rows.take(i + 1).last() == line@);
        }
        if !text::blank(line.as_str()) {
            r.push(line);
            proof {
                assert(text::texts(r@) =~= before.push(line@));
            }
        }
        i = i + 1;
    }
    proof {
        assert(rows.take(i as int) =~= rows);
    }
    r
}

// ---------------------------------------------------------------------------
// Distance

pub open spec fn least(a: nat, b: nat) -> nat {
    if a <= b {
        a
    } else {
        b
    }
}

/// How many characters must be put in, taken out or changed to make one text of
/// another.
pub open spec fn distance(a: Seq<char>, b: Seq<char>) -> nat
    decreases a.len() + b.len(),
{
    if a.len() == 0 {
        b.len()
    } else if b.len() == 0 {
        a.len()
    } else {
        let change: nat = if a.last() == b.last() {
            0
        } else {
            1
        };
        least(
            least(distance(a.drop_last(), b) + 1, distance(a, b.drop_last()) + 1),
            distance(a.drop_last(), b.drop_last()) + change,
        )
    }
}

proof fn lemma_distance_bound(a: Seq<char>, b: Seq<char>)
    ensures
        distance(a, b) <= a.len() + b.len(),
    decreases a.len() + b.len(),
{
    if a.len() > 0 && b.len() > 0 {
        lemma_distance_bound(a.drop_last(), b);
    }
}

/// The distance of two texts.
pub fn levenshtein(left: &[char], right: &[char]) -> (d: u128)
    ensures
        d == distance(left@, right@),
{
    let n: usize = right.len();
    let mut costs: Vec<u128> = Vec::new();
    costs.push(0);
    let mut k: usize = 0;
    while k < n
        invariant
            k <= n,
            n == right@.len(),
            costs@.len() == k + 1,
            forall|j: int| 0 <= j <= k ==> #[trigger] costs@[j] == j,
        decreases n - k,
    {
        k = k + 1;
        costs.push(k as u128);
    }
    let mut i: usize = 0;
    proof {
        assert forall|j: int| 0 <= j <= n implies #[trigger] costs@[j] == distance(
            left@.take(0),
            right@.take(j),
        ) by {
            assert(left@.take(0).len() == 0);
        }
    }
    while i < left.len()
        invariant
            i <= left@.len(),
            n == right@.len(),
            costs@.len() == n + 1,
            forall|j: int|
                0 <= j <= n ==> #[trigger] costs@[j] == distance(
                    left@.take(i as int),
                    right@.take(j),
                ),
        decreases left@.len() - i,
    {
        let ghost row = left@.take(i as int);
        let ghost next = left@.take(i + 1);
        proof {
            assert(next.drop_last() =~= row);
            assert(next.last() == left@[i as int]);
            assert(right@.take(0).len() == 0);
            assert(distance(row, right@.take(0)) == i) by {
                assert(row.len() == i);
            }
        }
        let mut previous: u128 = i as u128;
        costs.set(0, i as u128 + 1);
        let mut j: usize = 0;
        while j < n
            invariant
                j <= n,
                i < left@.len(),
                n == right@.len(),
                costs@.len() == n + 1,
                row == left@.take(i as int),
                next == left@.take(i + 1),
                next.drop_last() == row,
                next.len() == i + 1,
                next.last() == left@[i as int],
                previous == distance(row, right@.take(j as int)),
                forall|k: int|
                    0 <= k <= j ==> #[trigger] costs@[k] == distance(next, right@.take(k)),
                forall|k: int|
                    j < k <= n ==> #[trigger] costs@[k] == distance(row, right@.take(k)),
            decreases n - j,
        {
            let ghost short = right@.take(j as int);
            let ghost long = right@.take(j + 1);
            proof {
                assert(long.drop_last() =~= short);
                assert(long.last() == right@[j as int]);
                lemma_distance_bound(row, long);
                lemma_distance_bound(next, short);
                lemma_distance_bound(row, short);
                assert(costs@[j as int] == distance(next, short));
                assert(costs@[j + 1] == distance(row, long));
            }
            let above: u128 = costs[j + 1];
            let mut best: u128 = above + 1;
            if costs[j] + 1 < best {
                best = costs[j] + 1;
            }
            let change: u128 = if left[i] == right[j] {
                0
            } else {
                1
            };
            if previous + change < best {
                best = previous + change;
            }
            proof {
                assert(best == distance(next, long));
            }
            costs.set(j + 1, best);
            previous = above;
            j = j + 1;
        }
        i = i + 1;
    }
    proof {
        assert(left@.take(i as int) =~= left@);
        assert(right@.take(n as int) =~= right@);
    }
    costs[n]
}

/// The line that is nearest to a wanted one: the first of those.
pub open spec fn nearest(lines: Seq<Seq<char>>, wanted: Seq<char>) -> int
    decreases lines.len(),
{
    if lines.len() <= 1 {
        0
    } else {
        let best = nearest(lines.drop_last(), wanted);
        if distance(wanted, lines.last()) < distance(wanted, lines[best]) {
            lines.len() - 1
        } else {
            best
        }
    }
}

proof fn lemma_nearest(lines: Seq<Seq<char>>, wanted: Seq<char>)
    requires
        lines.len() > 0,
    ensures
        0 <= nearest(lines, wanted) < lines.len(),
        forall|i: int|
            0 <= i < lines.len() ==> distance(wanted, lines[nearest(lines, wanted)]) <= distance(
                wanted,
                #[trigger] lines[i],
            ),
        forall|i: int|
            0 <= i < nearest(lines, wanted) ==> distance(wanted, lines[nearest(lines, wanted)])
                < distance(wanted, #[trigger] lines[i]),
    decreases lines.len(),
{
    if lines.len() > 1 {
        let fewer = lines.drop_last();
        lemma_nearest(fewer, wanted);
        let best = nearest(fewer, wanted);
        let k = nearest(lines, wanted);
        assert(fewer[best] == lines[best]);
        assert forall|i: int| 0 <= i < lines.len() implies distance(wanted, lines[k]) <= distance(
            wanted,
            #[trigger] lines[i],
        ) by {
            if i < fewer.len() {
                assert(fewer[i] == lines[i]);
            }
        }
        assert forall|i: int| 0 <= i < k implies distance(wanted, lines[k]) < distance(
            wanted,
            #[trigger] lines[i],
        ) by {
            if i < fewer.len() {
                assert(fewer[i] == lines[i]);
            }
        }
    }
}

/// The first line of a text, or the text if it has none.
pub open spec fn first_line(s: Seq<char>) -> Seq<char> {
    if lines_of(s).len() > 0 {
        lines_of(s)[0]
    } else {
        s
    }
}

pub open spec fn numbered(n: nat, line: Seq<char>) -> Seq<char> {
    "line "@ + text::decimal_text(n) + ": "@ + cut(line, 512)
}

/// The line of a text that comes nearest to the first line of a needle.
pub open spec fn closest(s: Seq<char>, needle: Seq<char>) -> Seq<char> {
    let lines = lines_of(s);
    if lines.len() == 0 {
        numbered(0, Seq::empty())
    } else {
        let k = nearest(lines, first_line(needle));
        numbered((k + 1) as nat, lines[k])
    }
}

fn number_line(n: u64, line: &[char]) -> (r: String)
    ensures
        r@ == numbered(n as nat, line@),
{
    let (short, _) = truncate(line, 512);
    let mut chars = text::chars_of("line ");
    let digits = text::decimal(n);
    text::push_all(&mut chars, digits.as_slice());
    text::push_text(&mut chars, ": ");
    text::push_all(&mut chars, short.as_slice());
    text::string_of(chars.as_slice())
}

/// The line of a text that comes nearest to the first line of a needle, with its
/// number.
pub fn closest_line(s: &[char], needle: &[char]) -> (r: String)
    ensures
        r@ == closest(s@, needle@),
{
    let needle_lines = lines(needle);
    proof {
        assert(text::rows(needle_lines@).len() == needle_lines@.len());
    }
    let wanted: Vec<char> = if needle_lines.len() > 0 {
        proof {
            assert(text::rows(needle_lines@)[0] == needle_lines@[0]@);
            assert(needle_lines@[0]@.subrange(0, needle_lines@[0]@.len() as int)
                =~= needle_lines@[0]@);
        }
        part(needle_lines[0].as_slice(), 0, needle_lines[0].len())
    } else {
        proof {
            assert(needle@.subrange(0, needle@.len() as int) =~= needle@);
        }
        part(needle, 0, needle.len())
    };
    let all = lines(s);
    let ghost rows = text::rows(all@);
    proof {
        assert(rows.len() == all@.len());
    }
    if all.len() == 0 {
        let nothing: Vec<char> = Vec::new();
        return number_line(0, nothing.as_slice());
    }
    let mut best: usize = 0;
    let mut least_so_far: u128 = levenshtein(wanted.as_slice(), all[0].as_slice());
    let mut i: usize = 1;
    proof {
        assert(rows[0] == all@[0]@);
    }
    while i < all.len()
        invariant
            1 <= i <= all@.len(),
            best < i,
            rows == text::rows(all@),
            rows.len() == all@.len(),
            best == nearest(rows.take(i as int), wanted@),
            least_so_far == distance(wanted@, rows[best as int]),
        decreases all@.len() - i,
    {
        let d: u128 = levenshtein(wanted.as_slice(), all[i].as_slice());
        proof {
            assert(rows[i as int] == all@[i as int]@);
            let more = rows.take(i + 1);
            assert(more.drop_last() =~= rows.take(i as int));
            assert(more.last() == rows[i as int]);
            assert(more[best as int] == rows[best as int]);
        }
        if d < least_so_far {
            best = i;
            least_so_far = d;
        }
        i = i + 1;
    }
    proof {
        assert(rows.take(i as int) =~= rows);
        assert(rows[best as int] == all@[best as int]@);
    }
    number_line(best as u64 + 1, all[best].as_slice())
}

// ---------------------------------------------------------------------------
// Laws

/// A text is at no distance from itself, and from no other.
pub proof fn only_equal_texts_are_near(a: Seq<char>, b: Seq<char>)
    ensures
        distance(a, b) == 0 <==> a == b,
    decreases a.len() + b.len(),
{
    if a.len() > 0 && b.len() > 0 {
        only_equal_texts_are_near(a.drop_last(), b.drop_last());
        if a == b {
            assert(distance(a.drop_last(), b.drop_last()) == 0);
        } else if distance(a, b) == 0 {
            assert(a.drop_last() == b.drop_last());
            assert(a =~= a.drop_last().push(a.last()));
            assert(b =~= b.drop_last().push(b.last()));
        }
    } else if a.len() == 0 && b.len() == 0 {
        assert(a =~= b);
    }
}

/// The way back is as long.
pub proof fn distance_is_symmetric(a: Seq<char>, b: Seq<char>)
    ensures
        distance(a, b) == distance(b, a),
    decreases a.len() + b.len(),
{
    if a.len() > 0 && b.len() > 0 {
        distance_is_symmetric(a.drop_last(), b);
        distance_is_symmetric(a, b.drop_last());
        distance_is_symmetric(a.drop_last(), b.drop_last());
    }
}

/// Two texts are no nearer than their lengths, and no further apart than the longer
/// of them is long.
pub proof fn distance_is_bounded(a: Seq<char>, b: Seq<char>)
    ensures
        a.len() <= b.len() + distance(a, b),
        b.len() <= a.len() + distance(a, b),
        distance(a, b) <= a.len() || distance(a, b) <= b.len(),
    decreases a.len() + b.len(),
{
    if a.len() > 0 && b.len() > 0 {
        distance_is_bounded(a.drop_last(), b);
        distance_is_bounded(a, b.drop_last());
        distance_is_bounded(a.drop_last(), b.drop_last());
    }
}

/// A way round is no shorter.
pub proof fn ways_round_are_no_shorter(a: Seq<char>, b: Seq<char>, c: Seq<char>)
    ensures
        distance(a, c) <= distance(a, b) + distance(b, c),
    decreases a.len() + b.len() + c.len(),
{
    distance_is_bounded(a, b);
    distance_is_bounded(b, c);
    distance_is_bounded(a, c);
    if a.len() > 0 && b.len() > 0 && c.len() > 0 {
        ways_round_are_no_shorter(a.drop_last(), b, c);
        ways_round_are_no_shorter(a, b, c.drop_last());
        ways_round_are_no_shorter(a, b.drop_last(), c);
        ways_round_are_no_shorter(a, b.drop_last(), c.drop_last());
        ways_round_are_no_shorter(a.drop_last(), b.drop_last(), c);
        ways_round_are_no_shorter(a.drop_last(), b.drop_last(), c.drop_last());
    }
}

/// One text comes of another by a character put in, taken out or changed at a
/// place.
pub open spec fn edited_at(s: Seq<char>, t: Seq<char>, i: int, c: char) -> bool {
    ||| 0 <= i <= s.len() && t == s.insert(i, c)
    ||| 0 <= i < s.len() && t == s.remove(i)
    ||| 0 <= i < s.len() && t == s.update(i, c)
}

pub open spec fn is_edit(s: Seq<char>, t: Seq<char>) -> bool {
    exists|i: int, c: char| edited_at(s, t, i, c)
}

/// The texts lead from one to the other, each by one edit of that before it.
pub open spec fn leads(way: Seq<Seq<char>>, a: Seq<char>, b: Seq<char>) -> bool {
    &&& way.len() > 0
    &&& way.first() == a
    &&& way.last() == b
    &&& forall|i: int, j: int| #![trigger way[i], way[j]]
        0 <= i && j == i + 1 && j < way.len() ==> is_edit(way[i], way[j])
}

proof fn lemma_insert_near(s: Seq<char>, i: int, c: char)
    requires
        0 <= i <= s.len(),
    ensures
        distance(s, s.insert(i, c)) <= 1,
    decreases s.len(),
{
    let t = s.insert(i, c);
    if i == s.len() {
        assert(t.drop_last() =~= s);
        only_equal_texts_are_near(s, s);
    } else {
        assert(t.drop_last() =~= s.drop_last().insert(i, c));
        assert(t.last() == s.last());
        lemma_insert_near(s.drop_last(), i, c);
    }
}

proof fn lemma_update_near(s: Seq<char>, i: int, c: char)
    requires
        0 <= i < s.len(),
    ensures
        distance(s, s.update(i, c)) <= 1,
    decreases s.len(),
{
    let t = s.update(i, c);
    if i == s.len() - 1 {
        assert(t.drop_last() =~= s.drop_last());
        only_equal_texts_are_near(s.drop_last(), s.drop_last());
    } else {
        assert(t.drop_last() =~= s.drop_last().update(i, c));
        assert(t.last() == s.last());
        lemma_update_near(s.drop_last(), i, c);
    }
}

proof fn lemma_edit_near(s: Seq<char>, t: Seq<char>)
    requires
        is_edit(s, t),
    ensures
        distance(s, t) <= 1,
{
    let (i, c) = choose|i: int, c: char| edited_at(s, t, i, c);
    if 0 <= i <= s.len() && t == s.insert(i, c) {
        lemma_insert_near(s, i, c);
    } else if 0 <= i < s.len() && t == s.remove(i) {
        assert(s =~= t.insert(i, s[i]));
        lemma_insert_near(t, i, s[i]);
        distance_is_symmetric(s, t);
    } else {
        lemma_update_near(s, i, c);
    }
}

/// No way from one text to the other takes fewer edits than their distance.
pub proof fn no_way_is_shorter(way: Seq<Seq<char>>, a: Seq<char>, b: Seq<char>)
    requires
        leads(way, a, b),
    ensures
        distance(a, b) <= way.len() - 1,
    decreases way.len(),
{
    let n = way.len() - 1;
    if n == 0 {
        only_equal_texts_are_near(a, b);
    } else {
        let before = way.drop_last();
        assert(before.last() == way[n - 1]);
        assert forall|i: int, j: int| #![trigger before[i], before[j]]
            0 <= i && j == i + 1 && j < before.len() implies is_edit(before[i], before[j]) by {
            assert(before[i] == way[i] && before[j] == way[j]);
        }
        no_way_is_shorter(before, a, way[n - 1]);
        assert(is_edit(way[n - 1], way[n]));
        lemma_edit_near(way[n - 1], b);
        ways_round_are_no_shorter(a, way[n - 1], b);
    }
}

/// What leads from one text to another leads on with a character behind both.
proof fn lemma_leads_pushed(way: Seq<Seq<char>>, a: Seq<char>, b: Seq<char>, x: char) -> (longer:
    Seq<Seq<char>>)
    requires
        leads(way, a, b),
    ensures
        leads(longer, a.push(x), b.push(x)),
        longer.len() == way.len(),
{
    let longer = way.map_values(|s: Seq<char>| s.push(x));
    assert forall|i: int, j: int| #![trigger longer[i], longer[j]]
        0 <= i && j == i + 1 && j < longer.len() implies is_edit(longer[i], longer[j]) by {
        let s = way[i];
        let t = way[j];
        let (k, c) = choose|k: int, c: char| edited_at(s, t, k, c);
        assert(edited_at(s, t, k, c));
        if 0 <= k <= s.len() && t == s.insert(k, c) {
            assert(t.push(x) =~= s.push(x).insert(k, c));
        } else if 0 <= k < s.len() && t == s.remove(k) {
            assert(t.push(x) =~= s.push(x).remove(k));
        } else {
            assert(t.push(x) =~= s.push(x).update(k, c));
        }
        assert(edited_at(s.push(x), t.push(x), k, c));
    }
    longer
}

/// A text put before what leads on from an edit of it.
proof fn lemma_leads_from(s: Seq<char>, way: Seq<Seq<char>>, a: Seq<char>, b: Seq<char>) -> (longer:
    Seq<Seq<char>>)
    requires
        leads(way, a, b),
        is_edit(s, a),
    ensures
        leads(longer, s, b),
        longer.len() == way.len() + 1,
{
    let longer = seq![s] + way;
    assert forall|i: int, j: int| #![trigger longer[i], longer[j]]
        0 <= i && j == i + 1 && j < longer.len() implies is_edit(longer[i], longer[j]) by {
        assert(longer[j] == way[j - 1]);
        if i > 0 {
            assert(longer[i] == way[i - 1]);
        }
    }
    longer
}

/// There is a way from one text to the other that takes as many edits as their
/// distance.
pub proof fn some_way_is_as_short(a: Seq<char>, b: Seq<char>) -> (way: Seq<Seq<char>>)
    ensures
        leads(way, a, b),
        way.len() == distance(a, b) + 1,
    decreases a.len() + b.len(),
{
    if a.len() == 0 && b.len() == 0 {
        assert(a =~= b);
        seq![a]
    } else if a.len() == 0 {
        let way = some_way_is_as_short(a, b.drop_last());
        assert(b =~= b.drop_last().insert(b.len() - 1, b.last()));
        assert(edited_at(b.drop_last(), b, b.len() - 1, b.last()));
        lemma_leads_to(way, a, b.drop_last(), b)
    } else if b.len() == 0 {
        let way = some_way_is_as_short(a.drop_last(), b);
        assert(a.drop_last() =~= a.remove(a.len() - 1));
        assert(edited_at(a, a.drop_last(), a.len() - 1, a.last()));
        lemma_leads_from(a, way, a.drop_last(), b)
    } else if distance(a, b) == distance(a.drop_last(), b) + 1 {
        let way = some_way_is_as_short(a.drop_last(), b);
        assert(a.drop_last() =~= a.remove(a.len() - 1));
        assert(edited_at(a, a.drop_last(), a.len() - 1, a.last()));
        lemma_leads_from(a, way, a.drop_last(), b)
    } else if distance(a, b) == distance(a, b.drop_last()) + 1 {
        let way = some_way_is_as_short(a, b.drop_last());
        assert(b =~= b.drop_last().insert(b.len() - 1, b.last()));
        assert(edited_at(b.drop_last(), b, b.len() - 1, b.last()));
        lemma_leads_to(way, a, b.drop_last(), b)
    } else {
        let x = b.last();
        let short = some_way_is_as_short(a.drop_last(), b.drop_last());
        let way = lemma_leads_pushed(short, a.drop_last(), b.drop_last(), x);
        assert(b.drop_last().push(x) =~= b);
        let changed = a.drop_last().push(x);
        if a.last() == x {
            assert(changed =~= a);
            way
        } else {
            assert(changed =~= a.update(a.len() - 1, x));
            assert(edited_at(a, changed, a.len() - 1, x));
            lemma_leads_from(a, way, changed, b)
        }
    }
}

/// An edit of where something leads, put behind it.
proof fn lemma_leads_to(way: Seq<Seq<char>>, a: Seq<char>, b: Seq<char>, t: Seq<char>) -> (longer:
    Seq<Seq<char>>)
    requires
        leads(way, a, b),
        is_edit(b, t),
    ensures
        leads(longer, a, t),
        longer.len() == way.len() + 1,
{
    let longer = way.push(t);
    assert forall|i: int, j: int| #![trigger longer[i], longer[j]]
        0 <= i && j == i + 1 && j < longer.len() implies is_edit(longer[i], longer[j]) by {
        assert(longer[i] == way[i]);
        if j < way.len() {
            assert(longer[j] == way[j]);
        }
    }
    longer
}

/// The line that is shown is one of the nearest, and the first of these.
pub proof fn shown_lines_are_nearest(lines: Seq<Seq<char>>, wanted: Seq<char>, i: int)
    requires
        0 <= i < lines.len(),
    ensures
        0 <= nearest(lines, wanted) < lines.len(),
        distance(wanted, lines[nearest(lines, wanted)]) <= distance(wanted, lines[i]),
        i < nearest(lines, wanted) ==> distance(wanted, lines[nearest(lines, wanted)])
            < distance(wanted, lines[i]),
{
    lemma_nearest(lines, wanted);
}

/// A text in which something does not stand is left as it is.
pub proof fn nothing_found_nothing_replaced(s: Seq<char>, p: Seq<char>, by: Seq<char>, i: int)
    requires
        0 <= i <= s.len(),
        matches_from(s, p, i).len() == 0,
    ensures
        replaced_from(s, p, by, i) == s.skip(i),
    decreases s.len() - i,
{
    if p.len() > 0 && i + p.len() <= s.len() {
        if stands_at(s, p, i) {
            assert(matches_from(s, p, i)[0] == i);
        } else {
            nothing_found_nothing_replaced(s, p, by, i + 1);
            assert(s.skip(i) =~= seq![s[i]] + s.skip(i + 1));
        }
    }
}

/// Replacing changes the length by that of each replacement.
pub proof fn replacing_accounts_for_every_match(
    s: Seq<char>,
    p: Seq<char>,
    by: Seq<char>,
    i: int,
)
    requires
        0 <= i <= s.len(),
        p.len() > 0,
    ensures
        replaced_from(s, p, by, i).len() == s.len() - i + matches_from(s, p, i).len() * (by.len()
            - p.len()),
    decreases s.len() - i,
{
    if i + p.len() <= s.len() {
        if stands_at(s, p, i) {
            replacing_accounts_for_every_match(s, p, by, i + p.len());
            let n = matches_from(s, p, i + p.len()).len() as int;
            let d = by.len() - p.len();
            assert((n + 1) * d == n * d + d) by (nonlinear_arith);
        } else {
            replacing_accounts_for_every_match(s, p, by, i + 1);
        }
    }
}

// ---------------------------------------------------------------------------
// Laws on lines, occurrences and replacement

/// Lines with their ends, one after the other.
pub open spec fn ended(lines: Seq<Seq<char>>, ends: Seq<Seq<char>>) -> Seq<char>
    decreases lines.len(),
{
    if lines.len() == 0 {
        Seq::empty()
    } else {
        lines[0] + ends[0] + ended(lines.drop_first(), ends.drop_first())
    }
}

/// A text is its lines, each with its end: a line feed, with a carriage return before it
/// or not, or nothing behind the last line, which then is not empty. No line has a line
/// feed in it, and none that a mere line feed ends has a carriage return before that.
pub proof fn lines_make_up_the_text(s: Seq<char>) -> (ends: Seq<Seq<char>>)
    ensures
        ends.len() == lines_of(s).len(),
        ended(lines_of(s), ends) == s,
        forall|i: int|
            0 <= i < ends.len() ==> {
                ||| #[trigger] ends[i] == seq!['\n']
                ||| ends[i] == seq!['\r', '\n']
                ||| ends[i].len() == 0 && i == ends.len() - 1 && lines_of(s)[i].len() > 0
            },
        forall|i: int|
            0 <= i < ends.len() ==> !(#[trigger] lines_of(s)[i]).contains('\n'),
        forall|i: int|
            0 <= i < ends.len() && #[trigger] ends[i] == seq!['\n'] && lines_of(s)[i].len() > 0
                ==> lines_of(s)[i].last() != '\r',
    decreases s.len(),
{
    if s.len() == 0 {
        Seq::empty()
    } else {
        text::first_places_are_first(s, '\n');
        let k = text::first_index(s, '\n');
        let all = lines_of(s);
        if k < s.len() {
            let rest = s.skip(k + 1);
            let tail = lines_make_up_the_text(rest);
            let head = s.take(k);
            let line = without_return(head);
            let end = if head.len() > 0 && head.last() == '\r' {
                seq!['\r', '\n']
            } else {
                seq!['\n']
            };
            let ends = seq![end] + tail;
            assert(all =~= seq![line] + lines_of(rest));
            assert(all.drop_first() =~= lines_of(rest));
            assert(ends.drop_first() =~= tail);
            assert(line + end =~= s.take(k + 1));
            assert(s.take(k + 1) + rest =~= s);
            assert(!line.contains('\n')) by {
                assert forall|j: int| 0 <= j < line.len() implies line[j] != '\n' by {
                    assert(line[j] == s[j]);
                }
            }
            assert forall|i: int| 0 <= i < ends.len() implies {
                ||| #[trigger] ends[i] == seq!['\n']
                ||| ends[i] == seq!['\r', '\n']
                ||| ends[i].len() == 0 && i == ends.len() - 1 && all[i].len() > 0
            } by {
                if i > 0 {
                    assert(ends[i] == tail[i - 1]);
                    assert(all[i] == lines_of(rest)[i - 1]);
                }
            }
            assert forall|i: int| 0 <= i < ends.len() implies !(#[trigger] all[i]).contains(
                '\n',
            ) by {
                if i > 0 {
                    assert(all[i] == lines_of(rest)[i - 1]);
                }
            }
            assert forall|i: int|
                0 <= i < ends.len() && #[trigger] ends[i] == seq!['\n'] && all[i].len()
                    > 0 implies all[i].last() != '\r' by {
                if i > 0 {
                    assert(ends[i] == tail[i - 1]);
                    assert(all[i] == lines_of(rest)[i - 1]);
                } else if end.len() == 2 {
                    assert(seq!['\n'].len() == 1);
                }
            }
            ends
        } else {
            let ends = seq![Seq::<char>::empty()];
            assert(all =~= seq![s]);
            assert(all.drop_first() =~= Seq::empty());
            assert(ended(all.drop_first(), ends.drop_first()) =~= Seq::<char>::empty());
            assert(ended(all, ends) =~= s);
            assert(!s.contains('\n'));
            ends
        }
    }
}

/// Some texts with another between neighbours.
pub open spec fn interleaved(gaps: Seq<Seq<char>>, by: Seq<char>) -> Seq<char>
    decreases gaps.len(),
{
    if gaps.len() == 0 {
        Seq::empty()
    } else if gaps.len() == 1 {
        gaps[0]
    } else {
        gaps[0] + by + interleaved(gaps.drop_first(), by)
    }
}

/// The occurrences of a text cut another into gaps: from one to the next there is no
/// occurrence that begins earlier, and none in the last gap. There is one occurrence
/// fewer than there are gaps, and replacing puts something else between the same gaps.
pub proof fn replacing_keeps_what_is_between(s: Seq<char>, p: Seq<char>, r: Seq<char>, i: int) -> (gaps:
    Seq<Seq<char>>)
    requires
        p.len() > 0,
        0 <= i <= s.len(),
    ensures
        gaps.len() == matches_from(s, p, i).len() + 1,
        interleaved(gaps, p) == s.skip(i),
        interleaved(gaps, r) == replaced_from(s, p, r, i),
        forall|g: int, k: int|
            0 <= g < gaps.len() - 1 && 0 <= k < gaps[g].len() ==> !#[trigger] stands_at(
                gaps[g] + p,
                p,
                k,
            ),
        forall|k: int| !#[trigger] stands_at(gaps.last(), p, k),
        forall|k: int|
            0 <= k < matches_from(s, p, i).len() ==> stands_at(
                s,
                p,
                #[trigger] matches_from(s, p, i)[k],
            ),
        forall|k: int|
            0 < k < matches_from(s, p, i).len() ==> matches_from(s, p, i)[k - 1] + p.len()
                <= #[trigger] matches_from(s, p, i)[k],
        forall|k: int|
            0 <= k < matches_from(s, p, i).len() ==> i <= #[trigger] matches_from(s, p, i)[k],
    decreases s.len() - i,
{
    if i + p.len() > s.len() {
        let gaps = seq![s.skip(i)];
        assert forall|k: int| !#[trigger] stands_at(gaps.last(), p, k) by {}
        gaps
    } else if stands_at(s, p, i) {
        let rest = replacing_keeps_what_is_between(s, p, r, i + p.len());
        let gaps = seq![Seq::<char>::empty()] + rest;
        assert(gaps.drop_first() =~= rest);
        assert(interleaved(gaps, p) =~= p + s.skip(i + p.len()));
        assert(p + s.skip(i + p.len()) =~= s.skip(i));
        assert(interleaved(gaps, r) =~= r + replaced_from(s, p, r, i + p.len()));
        assert forall|g: int, k: int|
            0 <= g < gaps.len() - 1 && 0 <= k < gaps[g].len() implies !#[trigger] stands_at(
            gaps[g] + p,
            p,
            k,
        ) by {
            if g > 0 {
                assert(gaps[g] == rest[g - 1]);
                assert(!stands_at(rest[g - 1] + p, p, k));
            }
        }
        assert(gaps.last() == rest.last());
        let found = matches_from(s, p, i);
        let later = matches_from(s, p, i + p.len());
        assert(found =~= seq![i] + later);
        assert forall|k: int| 0 <= k < found.len() implies stands_at(s, p, #[trigger] found[k])
            && i <= found[k] by {
            if k > 0 {
                assert(found[k] == later[k - 1]);
            }
        }
        assert forall|k: int| 0 < k < found.len() implies found[k - 1] + p.len()
            <= #[trigger] found[k] by {
            assert(found[k] == later[k - 1]);
            if k > 1 {
                assert(found[k - 1] == later[k - 2]);
            }
        }
        gaps
    } else {
        let rest = replacing_keeps_what_is_between(s, p, r, i + 1);
        let first = seq![s[i]] + rest[0];
        let gaps = rest.update(0, first);
        assert(gaps.drop_first() =~= rest.drop_first());
        assert(interleaved(gaps, p) =~= seq![s[i]] + interleaved(rest, p));
        assert(seq![s[i]] + s.skip(i + 1) =~= s.skip(i));
        assert(interleaved(gaps, r) =~= seq![s[i]] + interleaved(rest, r));
        assert forall|g: int, k: int|
            0 <= g < gaps.len() - 1 && 0 <= k < gaps[g].len() implies !#[trigger] stands_at(
            gaps[g] + p,
            p,
            k,
        ) by {
            if g > 0 {
                assert(gaps[g] == rest[g]);
                assert(!stands_at(rest[g] + p, p, k));
            } else {
                let whole = gaps[0] + p;
                assert(whole =~= interleaved(gaps, p).take(whole.len() as int));
                if stands_at(whole, p, k) {
                    if k == 0 {
                        assert(s.subrange(i, i + p.len()) =~= whole.subrange(0, p.len() as int));
                    } else {
                        assert((rest[0] + p).subrange(k - 1, k - 1 + p.len()) =~= whole.subrange(
                            k,
                            k + p.len(),
                        ));
                        assert(stands_at(rest[0] + p, p, k - 1));
                    }
                }
            }
        }
        assert forall|k: int| !#[trigger] stands_at(gaps.last(), p, k) by {
            if gaps.len() == 1 {
                let last = gaps[0];
                assert(last =~= s.skip(i));
                if stands_at(last, p, k) {
                    if k == 0 {
                        assert(s.subrange(i, i + p.len()) =~= last.subrange(0, p.len() as int));
                    } else {
                        assert(rest.last().subrange(k - 1, k - 1 + p.len()) =~= last.subrange(
                            k,
                            k + p.len(),
                        ));
                        assert(stands_at(rest.last(), p, k - 1));
                    }
                }
            } else {
                assert(gaps.last() == rest.last());
            }
        }
        gaps
    }
}

/// The line that is shown for a needle is the first of those nearest to the needle's first
/// line, behind its number counted from one, and cut to 512 bytes.
pub proof fn closest_lines_are_shown_with_their_number(s: Seq<char>, needle: Seq<char>)
    ensures
        ({
            let lines = lines_of(s);
            let wanted = if lines_of(needle).len() > 0 {
                lines_of(needle)[0]
            } else {
                needle
            };
            &&& lines.len() == 0 ==> closest(s, needle) == "line "@ + text::decimal_text(0)
                + ": "@ + cut(Seq::empty(), 512)
            &&& lines.len() > 0 ==> exists|k: int|
                {
                    &&& 0 <= k < lines.len()
                    &&& closest(s, needle) == "line "@ + text::decimal_text((k + 1) as nat) + ": "@
                        + cut(#[trigger] lines[k], 512)
                    &&& forall|i: int|
                        0 <= i < lines.len() ==> distance(wanted, lines[k]) <= distance(
                            wanted,
                            #[trigger] lines[i],
                        )
                    &&& forall|i: int|
                        0 <= i < k ==> distance(wanted, lines[k]) < distance(
                            wanted,
                            #[trigger] lines[i],
                        )
                }
        }),
{
    let lines = lines_of(s);
    let wanted = first_line(needle);
    if lines.len() > 0 {
        lemma_nearest(lines, wanted);
        let k = nearest(lines, wanted);
        assert(closest(s, needle) == "line "@ + text::decimal_text((k + 1) as nat) + ": "@ + cut(
            lines[k],
            512,
        ));
    }
}

/// The lines that say something are those with a character that is no white space.
pub proof fn solid_lines_say_something(s: Seq<char>)
    ensures
        solid_lines(s) == lines_of(s).filter(
            |line: Seq<char>|
                exists|i: int| 0 <= i < line.len() && !text::is_white_space(#[trigger] line[i]),
        ),
{
    let a = |line: Seq<char>| !text::is_blank(line);
    let b = |line: Seq<char>|
        exists|i: int| 0 <= i < line.len() && !text::is_white_space(#[trigger] line[i]);
    assert(a =~= b);
}

} // verus!
