//! Edits of text files: replacements that must find what they expect, and a
//! summary of what they change.

use vstd::prelude::*;

use crate::encodings;
use crate::files::{FsError, FsFault};
use crate::passages;
use crate::text;

verus! {

pub const MAX_EDIT_FILE_BYTES: usize = 1_048_576;

pub const MAX_EDITS: usize = 20;

pub const MAX_DIFF_SUMMARY_BYTES: usize = 32_768;

/// A replacement, and how often what it replaces must stand in the text.
#[derive(Debug, Clone, PartialEq, Eq)]
pub struct TextEdit {
    pub old_text: String,
    pub new_text: String,
    pub expected_occurrences: usize,
}

/// How often a replacement must apply where nothing is said.
pub const DEFAULT_EXPECTED_OCCURRENCES: usize = 1;

#[derive(Debug, PartialEq, Eq)]
pub struct PreparedEdit {
    pub content: Vec<u8>,
    pub original_sha256: String,
    pub diff_summary: String,
    pub diff_truncated: bool,
}

// ---------------------------------------------------------------------------
// Line ends

/// The line end of a text: that of Windows where it has one.
pub open spec fn newline_of(s: Seq<char>) -> Seq<char> {
    if passages::matches_from(s, seq!['\r', '\n'], 0).len() > 0 {
        seq!['\r', '\n']
    } else {
        seq!['\n']
    }
}

/// A text with line feeds only.
pub open spec fn plain_lines(s: Seq<char>) -> Seq<char> {
    text::replace_char(
        passages::replaced_from(s, seq!['\r', '\n'], seq!['\n'], 0),
        '\r',
        '\n',
    )
}

/// A text with every line end written as `newline`.
pub open spec fn with_newlines(s: Seq<char>, newline: Seq<char>) -> Seq<char> {
    passages::replaced_from(plain_lines(s), seq!['\n'], newline, 0)
}

fn return_and_feed() -> (r: Vec<char>)
    ensures
        r@ == seq!['\r', '\n'],
{
    let mut r: Vec<char> = Vec::new();
    r.push('\r');
    r.push('\n');
    proof {
        assert(r@ =~= seq!['\r', '\n']);
    }
    r
}

fn feed() -> (r: Vec<char>)
    ensures
        r@ == seq!['\n'],
{
    let mut r: Vec<char> = Vec::new();
    r.push('\n');
    proof {
        assert(r@ =~= seq!['\n']);
    }
    r
}

pub fn detected_newline(s: &[char]) -> (r: Vec<char>)
    ensures
        r@ == newline_of(s@),
{
    let windows = return_and_feed();
    let found = passages::occurrences(s, windows.as_slice());
    proof {
        assert(passages::indices(found@).len() == found@.len());
    }
    if found.len() > 0 {
        windows
    } else {
        feed()
    }
}

pub fn normalize_newlines(s: &[char], newline: &[char]) -> (r: Vec<char>)
    ensures
        r@ == with_newlines(s@, newline@),
{
    let windows = return_and_feed();
    let unix = feed();
    let once = passages::replaced(s, windows.as_slice(), unix.as_slice());
    let plain = text::replaced(once.as_slice(), '\r', '\n');
    passages::replaced(plain.as_slice(), unix.as_slice(), newline)
}

// ---------------------------------------------------------------------------
// Applying edits

/// The text after one edit, or why it does not apply.
pub open spec fn edit_once(s: Seq<char>, edit: TextEdit, index: int, newline: Seq<char>) -> Result<
    Seq<char>,
    FsFault,
> {
    let old_text = with_newlines(edit.old_text@, newline);
    let new_text = with_newlines(edit.new_text@, newline);
    let actual = passages::matches_from(s, old_text, 0).len();
    if actual != edit.expected_occurrences {
        Err(
            FsFault::OccurrenceMismatch(
                index as nat,
                edit.expected_occurrences as nat,
                actual,
                if actual == 0 {
                    Some(passages::closest(s, old_text))
                } else {
                    None
                },
            ),
        )
    } else {
        Ok(passages::replaced_from(s, old_text, new_text, 0))
    }
}

/// The text after all edits, one after the other, or why the first that does not
/// apply does not.
pub open spec fn edit_all(s: Seq<char>, edits: Seq<TextEdit>, newline: Seq<char>) -> Result<
    Seq<char>,
    FsFault,
>
    decreases edits.len(),
{
    if edits.len() == 0 {
        Ok(s)
    } else {
        match edit_all(s, edits.drop_last(), newline) {
            Err(fault) => Err(fault),
            Ok(so_far) => edit_once(so_far, edits.last(), edits.len() - 1, newline),
        }
    }
}

/// The edits can be tried: not none and not too many, each with something to
/// find.
pub open spec fn edits_allowed(edits: Seq<TextEdit>) -> bool {
    0 < edits.len() <= MAX_EDITS && forall|i: int|
        0 <= i < edits.len() ==> (#[trigger] edits[i]).old_text@.len() > 0
            && edits[i].expected_occurrences != 0
}

proof fn lemma_edit_prefix(s: Seq<char>, edits: Seq<TextEdit>, newline: Seq<char>, i: int)
    requires
        0 <= i <= edits.len(),
        edit_all(s, edits.take(i), newline) is Err,
    ensures
        edit_all(s, edits, newline) == edit_all(s, edits.take(i), newline),
    decreases edits.len() - i,
{
    if i < edits.len() {
        assert(edits.take(i + 1).drop_last() =~= edits.take(i));
        lemma_edit_prefix(s, edits, newline, i + 1);
    } else {
        assert(edits.take(i) =~= edits);
    }
}

/// What is not empty is not empty with other line ends.
proof fn lemma_newlines_keep_something(s: Seq<char>, newline: Seq<char>)
    requires
        s.len() > 0,
        newline.len() > 0,
    ensures
        with_newlines(s, newline).len() > 0,
{
    let once = passages::replaced_from(s, seq!['\r', '\n'], seq!['\n'], 0);
    let plain = plain_lines(s);
    assert(passages::replaced_from(s, seq!['\r', '\n'], seq!['\n'], 0).len() > 0) by {
        if passages::stands_at(s, seq!['\r', '\n'], 0) {
        } else if 2 <= s.len() {
        } else {
            assert(s.skip(0).len() > 0);
        }
    }
    assert(plain.len() == once.len());
    if passages::stands_at(plain, seq!['\n'], 0) {
    } else {
    }
}

pub fn edits_fit(edits: &Vec<TextEdit>) -> (r: bool)
    ensures
        r == edits_allowed(edits@),
{
    if edits.len() == 0 || edits.len() > MAX_EDITS {
        return false;
    }
    let mut i: usize = 0;
    while i < edits.len()
        invariant
            i <= edits@.len(),
            forall|k: int|
                0 <= k < i ==> (#[trigger] edits@[k]).old_text@.len() > 0
                    && edits@[k].expected_occurrences != 0,
        decreases edits@.len() - i,
    {
        let chars = text::chars_of(edits[i].old_text.as_str());
        if chars.len() == 0 || edits[i].expected_occurrences == 0 {
            assert(!(edits@[i as int].old_text@.len() > 0 && edits@[i as int].expected_occurrences
                != 0));
            return false;
        }
        i = i + 1;
    }
    true
}

/// Applies edits to a text.
pub fn apply_edits(s: &[char], edits: &Vec<TextEdit>) -> (r: Result<Vec<char>, FsError>)
    requires
        edits_allowed(edits@),
    ensures
        r is Err == edit_all(s@, edits@, newline_of(s@)) is Err,
        r is Err ==> r->Err_0@ == edit_all(s@, edits@, newline_of(s@))->Err_0,
        r is Ok ==> r->Ok_0@ == edit_all(s@, edits@, newline_of(s@))->Ok_0,
{
    let newline = detected_newline(s);
    let mut edited = passages::part(s, 0, s.len());
    proof {
        assert(edited@ =~= s@);
        assert(edits@.take(0) =~= Seq::empty());
    }
    let mut i: usize = 0;
    while i < edits.len()
        invariant
            i <= edits@.len(),
            edits_allowed(edits@),
            newline@ == newline_of(s@),
            edit_all(s@, edits@.take(i as int), newline@) is Ok,
            edited@ == edit_all(s@, edits@.take(i as int), newline@)->Ok_0,
        decreases edits@.len() - i,
    {
        let ghost more = edits@.take(i + 1);
        proof {
            assert(more.drop_last() =~= edits@.take(i as int));
            assert(more.last() == edits@[i as int]);
            lemma_newlines_keep_something(edits@[i as int].old_text@, newline@);
            if edit_all(s@, more, newline@) is Err {
                lemma_edit_prefix(s@, edits@, newline@, i + 1);
            }
        }
        let given_old = text::chars_of(edits[i].old_text.as_str());
        let given_new = text::chars_of(edits[i].new_text.as_str());
        let old_text = normalize_newlines(given_old.as_slice(), newline.as_slice());
        let new_text = normalize_newlines(given_new.as_slice(), newline.as_slice());
        let found = passages::occurrences(edited.as_slice(), old_text.as_slice());
        proof {
            assert(passages::indices(found@).len() == found@.len());
        }
        let actual: usize = found.len();
        if actual != edits[i].expected_occurrences {
            let closest_line = if actual == 0 {
                Some(passages::closest_line(edited.as_slice(), old_text.as_slice()))
            } else {
                None
            };
            return Err(
                FsError::OccurrenceMismatch {
                    edit_index: i,
                    expected: edits[i].expected_occurrences,
                    actual,
                    closest_line,
                },
            );
        }
        edited = passages::replaced(edited.as_slice(), old_text.as_slice(), new_text.as_slice());
        i = i + 1;
    }
    proof {
        assert(edits@.take(i as int) =~= edits@);
    }
    Ok(edited)
}

// ---------------------------------------------------------------------------
// The summary

/// How many lines from `i` on are the same in both.
pub open spec fn common_start(a: Seq<Seq<char>>, b: Seq<Seq<char>>, i: int) -> int
    decreases a.len() - i,
{
    if 0 <= i < a.len() && i < b.len() && a[i] == b[i] {
        common_start(a, b, i + 1)
    } else {
        i
    }
}

/// How many lines are the same at both ends, at most `limit`, from `k` on.
pub open spec fn common_end(a: Seq<Seq<char>>, b: Seq<Seq<char>>, limit: int, k: int) -> int
    decreases limit - k,
{
    if 0 <= k < limit && a[a.len() - 1 - k] == b[b.len() - 1 - k] {
        common_end(a, b, limit, k + 1)
    } else {
        k
    }
}

/// Each line behind a mark, with its line feed.
pub open spec fn marked(lines: Seq<Seq<char>>, mark: char) -> Seq<char>
    decreases lines.len(),
{
    if lines.len() == 0 {
        Seq::empty()
    } else {
        marked(lines.drop_last(), mark) + seq![mark] + lines.last() + seq!['\n']
    }
}

pub open spec fn smaller(a: int, b: int) -> int {
    if a <= b {
        a
    } else {
        b
    }
}

/// What changed between two texts: the lines that differ, with up to three lines
/// around them.
pub open spec fn whole_diff(before: Seq<char>, after: Seq<char>) -> Seq<char> {
    let a = passages::lines_of(before);
    let b = passages::lines_of(after);
    let start = common_start(a, b, 0);
    let end = common_end(a, b, smaller(a.len() - start, b.len() - start), 0);
    let from = if start >= 3 {
        start - 3
    } else {
        0
    };
    let a_to = smaller(a.len() - end + 3, a.len() as int);
    let b_to = smaller(b.len() - end + 3, b.len() as int);
    "--- current\n+++ proposed\n@@ -"@ + text::decimal_text((from + 1) as nat) + ","@
        + text::decimal_text((a_to - from) as nat) + " +"@ + text::decimal_text((from + 1) as nat)
        + ","@ + text::decimal_text((b_to - from) as nat) + " @@\n"@ + marked(
        a.subrange(from, start),
        ' ',
    ) + marked(a.subrange(start, a.len() - end), '-') + marked(
        b.subrange(start, b.len() - end),
        '+',
    ) + marked(b.subrange(b.len() - end, b_to), ' ')
}

/// The summary, and whether it was cut.
pub open spec fn diff_summary(before: Seq<char>, after: Seq<char>) -> (Seq<char>, bool) {
    let whole = whole_diff(before, after);
    if text::byte_len(whole) <= MAX_DIFF_SUMMARY_BYTES {
        (whole, false)
    } else {
        (
            passages::cut(whole, MAX_DIFF_SUMMARY_BYTES as int) + "\n... diff truncated ...\n"@,
            true,
        )
    }
}

proof fn lemma_common_start(a: Seq<Seq<char>>, b: Seq<Seq<char>>, i: int, n: int)
    requires
        0 <= i <= n <= a.len(),
        n <= b.len(),
        forall|k: int| i <= k < n ==> #[trigger] a[k] == b[k],
        n == a.len() || n == b.len() || a[n] != b[n],
    ensures
        common_start(a, b, i) == n,
    decreases n - i,
{
    if i < n {
        lemma_common_start(a, b, i + 1, n);
    }
}

proof fn lemma_common_end(a: Seq<Seq<char>>, b: Seq<Seq<char>>, limit: int, k: int, n: int)
    requires
        0 <= k <= n <= limit,
        forall|j: int| k <= j < n ==> #[trigger] a[a.len() - 1 - j] == b[b.len() - 1 - j],
        n == limit || a[a.len() - 1 - n] != b[b.len() - 1 - n],
    ensures
        common_end(a, b, limit, k) == n,
    decreases n - k,
{
    if k < n {
        assert(a[a.len() - 1 - k] == b[b.len() - 1 - k]);
        lemma_common_end(a, b, limit, k + 1, n);
    }
}

fn push_marked(out: &mut Vec<char>, lines: &Vec<Vec<char>>, from: usize, to: usize, mark: char)
    requires
        from <= to <= lines@.len(),
    ensures
        final(out)@ == old(out)@ + marked(
            text::rows(lines@).subrange(from as int, to as int),
            mark,
        ),
{
    let ghost start = out@;
    let ghost rows = text::rows(lines@);
    let mut i: usize = from;
    proof {
        assert(rows.len() == lines@.len());
        assert(rows.subrange(from as int, from as int) =~= Seq::empty());
        assert(start + Seq::<char>::empty() =~= start);
    }
    while i < to
        invariant
            from <= i <= to <= lines@.len(),
            rows == text::rows(lines@),
            rows.len() == lines@.len(),
            out@ == start + marked(rows.subrange(from as int, i as int), mark),
        decreases to - i,
    {
        let ghost before = out@;
        out.push(mark);
        text::push_all(out, lines[i].as_slice());
        out.push('\n');
        proof {
            let so_far = rows.subrange(from as int, i as int);
            let more = rows.subrange(from as int, i + 1);
            assert(more.drop_last() =~= so_far);
            assert(more.last() == lines@[i as int]@);
            assert(out@ =~= start + marked(more, mark));
        }
        i = i + 1;
    }
}

fn push_number(out: &mut Vec<char>, n: usize)
    ensures
        final(out)@ == old(out)@ + text::decimal_text(n as nat),
{
    let digits = text::decimal(n as u64);
    text::push_all(out, digits.as_slice());
}

fn lines_until_difference(a: &Vec<Vec<char>>, b: &Vec<Vec<char>>) -> (n: usize)
    ensures
        n == common_start(text::rows(a@), text::rows(b@), 0),
        n <= a@.len(),
        n <= b@.len(),
{
    let ghost x = text::rows(a@);
    let ghost y = text::rows(b@);
    let mut n: usize = 0;
    while n < a.len() && n < b.len() && text::same_chars(a[n].as_slice(), b[n].as_slice())
        invariant
            n <= a@.len(),
            n <= b@.len(),
            x == text::rows(a@),
            y == text::rows(b@),
            forall|k: int| 0 <= k < n ==> #[trigger] x[k] == y[k],
        decreases a@.len() - n,
    {
        proof {
            assert(x[n as int] == a@[n as int]@);
            assert(y[n as int] == b@[n as int]@);
        }
        n = n + 1;
    }
    proof {
        assert(x.len() == a@.len() && y.len() == b@.len());
        if n < a@.len() && n < b@.len() {
            assert(x[n as int] == a@[n as int]@);
            assert(y[n as int] == b@[n as int]@);
        }
        lemma_common_start(x, y, 0, n as int);
    }
    n
}

fn lines_after_difference(a: &Vec<Vec<char>>, b: &Vec<Vec<char>>, start: usize) -> (n: usize)
    requires
        start <= a@.len(),
        start <= b@.len(),
    ensures
        n == common_end(
            text::rows(a@),
            text::rows(b@),
            smaller(a@.len() - start, b@.len() - start),
            0,
        ),
        n <= a@.len() - start,
        n <= b@.len() - start,
{
    let ghost x = text::rows(a@);
    let ghost y = text::rows(b@);
    let mut n: usize = 0;
    proof {
        assert(x.len() == a@.len() && y.len() == b@.len());
    }
    while n < a.len() - start && n < b.len() - start && text::same_chars(
        a[a.len() - 1 - n].as_slice(),
        b[b.len() - 1 - n].as_slice(),
    )
        invariant
            start <= a@.len(),
            start <= b@.len(),
            n <= a@.len() - start,
            n <= b@.len() - start,
            x == text::rows(a@),
            y == text::rows(b@),
            x.len() == a@.len(),
            y.len() == b@.len(),
            forall|j: int| 0 <= j < n ==> #[trigger] x[x.len() - 1 - j] == y[y.len() - 1 - j],
        decreases a@.len() - start - n,
    {
        proof {
            assert(x[x.len() - 1 - n] == a@[a@.len() - 1 - n]@);
            assert(y[y.len() - 1 - n] == b@[b@.len() - 1 - n]@);
        }
        n = n + 1;
    }
    proof {
        let limit = smaller(a@.len() - start, b@.len() - start);
        if n < limit {
            assert(x[x.len() - 1 - n] == a@[a@.len() - 1 - n]@);
            assert(y[y.len() - 1 - n] == b@[b@.len() - 1 - n]@);
        }
        lemma_common_end(x, y, limit, 0, n as int);
    }
    n
}

/// A summary of what changed between two texts, and whether it was cut.
pub fn unified_diff_summary(before: &[char], after: &[char]) -> (r: (String, bool))
    ensures
        r.0@ == diff_summary(before@, after@).0,
        r.1 == diff_summary(before@, after@).1,
{
    let a = passages::lines(before);
    let b = passages::lines(after);
    proof {
        assert(text::rows(a@).len() == a@.len());
        assert(text::rows(b@).len() == b@.len());
    }
    let start: usize = lines_until_difference(&a, &b);
    let end: usize = lines_after_difference(&a, &b, start);
    let from: usize = if start >= 3 {
        start - 3
    } else {
        0
    };
    let a_to: usize = if end >= 3 {
        a.len() - end + 3
    } else {
        a.len()
    };
    let b_to: usize = if end >= 3 {
        b.len() - end + 3
    } else {
        b.len()
    };
    let mut diff = text::chars_of("--- current\n+++ proposed\n@@ -");
    let one = text::decimal(from as u64 + 1);
    text::push_all(&mut diff, one.as_slice());
    text::push_text(&mut diff, ",");
    push_number(&mut diff, a_to - from);
    text::push_text(&mut diff, " +");
    text::push_all(&mut diff, one.as_slice());
    text::push_text(&mut diff, ",");
    push_number(&mut diff, b_to - from);
    text::push_text(&mut diff, " @@\n");
    push_marked(&mut diff, &a, from, start, ' ');
    push_marked(&mut diff, &a, start, a.len() - end, '-');
    push_marked(&mut diff, &b, start, b.len() - end, '+');
    push_marked(&mut diff, &b, b.len() - end, b_to, ' ');
    proof {
        assert(diff@ == whole_diff(before@, after@));
    }
    let (mut short, truncated) = passages::truncate(diff.as_slice(), MAX_DIFF_SUMMARY_BYTES);
    if !truncated {
        return (text::string_of(diff.as_slice()), false);
    }
    text::push_text(&mut short, "\n... diff truncated ...\n");
    (text::string_of(short.as_slice()), true)
}

// ---------------------------------------------------------------------------
// A whole file

/// What an edit makes of a file, or why it makes nothing.
pub open spec fn edited_file(original: Seq<u8>, edits: Seq<TextEdit>) -> Result<Seq<u8>, FsFault> {
    match encodings::decoded(original) {
        None => Err(FsFault::UnsupportedEditEncoding),
        Some(decoded) => match edit_all(decoded.text, edits, newline_of(decoded.text)) {
            Err(fault) => Err(fault),
            Ok(edited) => match encodings::encoded(edited, decoded.encoding) {
                None => Err(FsFault::UnrepresentableEditText),
                Some(content) => if content.len() > MAX_EDIT_FILE_BYTES {
                    Err(FsFault::EditResultTooLarge(content.len()))
                } else {
                    Ok(content)
                },
            },
        },
    }
}

/// The summary of what edits make of a file.
pub open spec fn edited_summary(original: Seq<u8>, edits: Seq<TextEdit>) -> (Seq<char>, bool) {
    let before = encodings::decoded(original)->0.text;
    diff_summary(before, edit_all(before, edits, newline_of(before))->Ok_0)
}

/// Edits the bytes of a file, in its own encoding.
pub fn edit_file(original: &[u8], edits: &Vec<TextEdit>) -> (r: Result<
    (Vec<u8>, String, bool),
    FsError,
>)
    requires
        edits_allowed(edits@),
    ensures
        r is Err == edited_file(original@, edits@) is Err,
        r is Err ==> r->Err_0@ == edited_file(original@, edits@)->Err_0,
        r is Ok ==> r->Ok_0.0@ == edited_file(original@, edits@)->Ok_0,
        r is Ok ==> r->Ok_0.1@ == edited_summary(original@, edits@).0 && r->Ok_0.2
            == edited_summary(original@, edits@).1,
{
    let decoded = match encodings::decode_search_text(original) {
        None => {
            return Err(FsError::UnsupportedEditEncoding);
        },
        Some(decoded) => decoded,
    };
    let edited = match apply_edits(decoded.text.as_slice(), edits) {
        Err(error) => {
            return Err(error);
        },
        Ok(edited) => edited,
    };
    let content = match encodings::encode_edit_text(edited.as_slice(), decoded.encoding) {
        None => {
            return Err(FsError::UnrepresentableEditText);
        },
        Some(content) => content,
    };
    if content.len() > MAX_EDIT_FILE_BYTES {
        return Err(FsError::EditResultTooLarge(content.len()));
    }
    let (summary, truncated) = unified_diff_summary(decoded.text.as_slice(), edited.as_slice());
    Ok((content, summary, truncated))
}

// ---------------------------------------------------------------------------
// Laws

/// A summary never takes more bytes than its limit and the note that it was cut.
pub proof fn summaries_are_bounded(before: Seq<char>, after: Seq<char>)
    ensures
        !diff_summary(before, after).1 ==> text::byte_len(diff_summary(before, after).0)
            <= MAX_DIFF_SUMMARY_BYTES,
        diff_summary(before, after).1 ==> text::byte_len(diff_summary(before, after).0)
            <= MAX_DIFF_SUMMARY_BYTES + text::byte_len("\n... diff truncated ...\n"@),
{
    let whole = whole_diff(before, after);
    passages::truncated_texts_fit(whole, MAX_DIFF_SUMMARY_BYTES as nat);
    crate::ids::lemma_bytes_concat(
        passages::cut(whole, MAX_DIFF_SUMMARY_BYTES as int),
        "\n... diff truncated ...\n"@,
    );
}

/// What an edit replaces stands in the text as often as the edit says.
pub proof fn edits_replace_what_they_expect(
    s: Seq<char>,
    edit: TextEdit,
    index: int,
    newline: Seq<char>,
)
    requires
        edit_once(s, edit, index, newline) is Ok,
        edit.old_text@.len() > 0,
        newline.len() > 0,
    ensures
        edit_once(s, edit, index, newline)->Ok_0.len() == s.len() + edit.expected_occurrences
            * (with_newlines(edit.new_text@, newline).len() - with_newlines(
            edit.old_text@,
            newline,
        ).len()),
{
    lemma_newlines_keep_something(edit.old_text@, newline);
    passages::replacing_accounts_for_every_match(
        s,
        with_newlines(edit.old_text@, newline),
        with_newlines(edit.new_text@, newline),
        0,
    );
}

/// A line of a summary: its mark, and the line.
pub struct ShownLine {
    pub mark: char,
    pub line: Seq<char>,
}

/// The lines of a summary as they are written: each behind its mark, with a line feed.
pub open spec fn printed(shown: Seq<ShownLine>) -> Seq<char>
    decreases shown.len(),
{
    if shown.len() == 0 {
        Seq::empty()
    } else {
        printed(shown.drop_last()) + seq![shown.last().mark] + shown.last().line + seq!['\n']
    }
}

/// The lines of one of the two texts: those with its mark, and those without a mark.
pub open spec fn side(shown: Seq<ShownLine>, mark: char) -> Seq<Seq<char>>
    decreases shown.len(),
{
    if shown.len() == 0 {
        Seq::empty()
    } else if shown.last().mark == mark || shown.last().mark == ' ' {
        side(shown.drop_last(), mark).push(shown.last().line)
    } else {
        side(shown.drop_last(), mark)
    }
}

spec fn tagged(lines: Seq<Seq<char>>, mark: char) -> Seq<ShownLine> {
    lines.map_values(|line: Seq<char>| ShownLine { mark, line })
}

proof fn lemma_printed(a: Seq<ShownLine>, b: Seq<ShownLine>)
    ensures
        printed(a + b) == printed(a) + printed(b),
    decreases b.len(),
{
    if b.len() == 0 {
        assert(a + b =~= a);
        assert(printed(a) + printed(b) =~= printed(a));
    } else {
        lemma_printed(a, b.drop_last());
        assert((a + b).drop_last() =~= a + b.drop_last());
        assert(printed(a + b) =~= printed(a) + printed(b));
    }
}

proof fn lemma_side(a: Seq<ShownLine>, b: Seq<ShownLine>, mark: char)
    ensures
        side(a + b, mark) == side(a, mark) + side(b, mark),
    decreases b.len(),
{
    if b.len() == 0 {
        assert(a + b =~= a);
        assert(side(a, mark) + side(b, mark) =~= side(a, mark));
    } else {
        lemma_side(a, b.drop_last(), mark);
        assert((a + b).drop_last() =~= a + b.drop_last());
        assert(side(a + b, mark) =~= side(a, mark) + side(b, mark));
    }
}

proof fn lemma_tagged(lines: Seq<Seq<char>>, mark: char, of: char)
    ensures
        printed(tagged(lines, mark)) == marked(lines, mark),
        side(tagged(lines, mark), of) == (if mark == of || mark == ' ' {
            lines
        } else {
            Seq::<Seq<char>>::empty()
        }),
    decreases lines.len(),
{
    let t = tagged(lines, mark);
    if lines.len() > 0 {
        lemma_tagged(lines.drop_last(), mark, of);
        assert(t.drop_last() =~= tagged(lines.drop_last(), mark));
        assert(t.last().line == lines.last());
        assert(lines.drop_last().push(lines.last()) =~= lines);
    } else {
        assert(t.len() == 0);
        assert(lines =~= Seq::empty());
    }
}

proof fn lemma_start_found(a: Seq<Seq<char>>, b: Seq<Seq<char>>, i: int)
    requires
        0 <= i <= a.len(),
        i <= b.len(),
    ensures
        i <= common_start(a, b, i) <= a.len(),
        common_start(a, b, i) <= b.len(),
        forall|k: int| i <= k < common_start(a, b, i) ==> #[trigger] a[k] == b[k],
        common_start(a, b, i) < a.len() && common_start(a, b, i) < b.len() ==> a[common_start(
            a,
            b,
            i,
        )] != b[common_start(a, b, i)],
    decreases a.len() - i,
{
    if i < a.len() && i < b.len() && a[i] == b[i] {
        lemma_start_found(a, b, i + 1);
    }
}

proof fn lemma_end_found(a: Seq<Seq<char>>, b: Seq<Seq<char>>, limit: int, k: int)
    requires
        0 <= k <= limit <= a.len(),
        limit <= b.len(),
    ensures
        k <= common_end(a, b, limit, k) <= limit,
        forall|j: int|
            k <= j < common_end(a, b, limit, k) ==> #[trigger] a[a.len() - 1 - j] == b[b.len() - 1
                - j],
        common_end(a, b, limit, k) < limit ==> a[a.len() - 1 - common_end(a, b, limit, k)]
            != b[b.len() - 1 - common_end(a, b, limit, k)],
    decreases limit - k,
{
    if k < limit && a[a.len() - 1 - k] == b[b.len() - 1 - k] {
        lemma_end_found(a, b, limit, k + 1);
    }
}

spec fn hunk(
    a: Seq<Seq<char>>,
    b: Seq<Seq<char>>,
    start: int,
    end: int,
    from: int,
    b_to: int,
) -> Seq<ShownLine> {
    tagged(a.subrange(from, start), ' ') + tagged(a.subrange(start, a.len() - end), '-') + tagged(
        b.subrange(start, b.len() - end),
        '+',
    ) + tagged(b.subrange(b.len() - end, b_to), ' ')
}

proof fn lemma_hunk_sides(
    a: Seq<Seq<char>>,
    b: Seq<Seq<char>>,
    start: int,
    end: int,
    from: int,
    b_to: int,
)
    requires
        0 <= from <= start,
        0 <= end,
        start + end <= a.len(),
        start + end <= b.len(),
        b.len() - end <= b_to <= b.len(),
        forall|k: int| 0 <= k < start ==> #[trigger] a[k] == b[k],
        forall|j: int| 0 <= j < end ==> #[trigger] a[a.len() - 1 - j] == b[b.len() - 1 - j],
    ensures
        ({
            let shown = hunk(a, b, start, end, from, b_to);
            let a_to = a.len() - b.len() + b_to;
            &&& side(shown, '-') == a.subrange(from, a_to)
            &&& side(shown, '-').len() == a_to - from
            &&& side(shown, '+').len() == b_to - from
            &&& b == a.take(from) + side(shown, '+') + a.skip(a_to)
            &&& printed(shown) == marked(a.subrange(from, start), ' ') + marked(
                a.subrange(start, a.len() - end),
                '-',
            ) + marked(b.subrange(start, b.len() - end), '+') + marked(
                b.subrange(b.len() - end, b_to),
                ' ',
            )
        }),
{
    let a_to = a.len() - b.len() + b_to;
    let l1 = a.subrange(from, start);
    let l2 = a.subrange(start, a.len() - end);
    let l3 = b.subrange(start, b.len() - end);
    let l4 = b.subrange(b.len() - end, b_to);
    let s1 = tagged(l1, ' ');
    let s2 = tagged(l2, '-');
    let s3 = tagged(l3, '+');
    let s4 = tagged(l4, ' ');
    lemma_printed(s1 + s2 + s3, s4);
    lemma_printed(s1 + s2, s3);
    lemma_printed(s1, s2);
    lemma_side(s1 + s2 + s3, s4, '-');
    lemma_side(s1 + s2, s3, '-');
    lemma_side(s1, s2, '-');
    lemma_side(s1 + s2 + s3, s4, '+');
    lemma_side(s1 + s2, s3, '+');
    lemma_side(s1, s2, '+');
    lemma_tagged(l1, ' ', '-');
    lemma_tagged(l2, '-', '-');
    lemma_tagged(l3, '+', '-');
    lemma_tagged(l4, ' ', '-');
    lemma_tagged(l1, ' ', '+');
    lemma_tagged(l2, '-', '+');
    lemma_tagged(l3, '+', '+');
    lemma_tagged(l4, ' ', '+');
    let shown = hunk(a, b, start, end, from, b_to);
    let olds = side(shown, '-');
    let news = side(shown, '+');
    assert forall|k: int| 0 <= k < l4.len() implies l4[k] == a[a.len() - end + k] by {
        let j = end - 1 - k;
        assert(a[a.len() - 1 - j] == b[b.len() - 1 - j]);
    }
    assert(l4 =~= a.subrange(a.len() - end, a_to));
    assert(olds =~= l1 + l2 + l4);
    assert(olds =~= a.subrange(from, a_to));
    assert(news =~= l1 + l3 + l4);
    let c = a.take(from) + news + a.skip(a_to);
    assert(c.len() == b.len());
    assert forall|k: int| 0 <= k < b.len() implies b[k] == c[k] by {
        if k < start {
            assert(a[k] == b[k]);
        } else if k >= b.len() - end {
            let j = b.len() - 1 - k;
            assert(a[a.len() - 1 - j] == b[b.len() - 1 - j]);
        }
    }
    assert(b =~= c);
}

proof fn lemma_hunk_marks(
    a: Seq<Seq<char>>,
    b: Seq<Seq<char>>,
    start: int,
    end: int,
    from: int,
    b_to: int,
)
    requires
        0 <= from <= start,
        0 <= end,
        start + end <= a.len(),
        start + end <= b.len(),
        b.len() - end <= b_to <= b.len(),
    ensures
        ({
            let shown = hunk(a, b, start, end, from, b_to);
            let kept = start - from;
            let removed = a.len() - end - start;
            let added = b.len() - end - start;
            &&& shown.len() == kept + removed + added + b_to - (b.len() - end)
            &&& forall|i: int|
                0 <= i < shown.len() ==> (#[trigger] shown[i]).mark == (if kept <= i < kept
                    + removed {
                    '-'
                } else if kept + removed <= i < kept + removed + added {
                    '+'
                } else {
                    ' '
                })
            &&& removed > 0 && added > 0 ==> shown[kept].line == a[start] && shown[kept
                + removed].line == b[start] && shown[kept + removed - 1].line == a[a.len() - 1
                - end] && shown[kept + removed + added - 1].line == b[b.len() - 1 - end]
        }),
{
}

proof fn lemma_four_follow(
    h: Seq<char>,
    a: Seq<char>,
    b: Seq<char>,
    c: Seq<char>,
    d: Seq<char>,
)
    ensures
        h + (a + b + c + d) == h + a + b + c + d,
{
    assert(h + (a + b + c + d) =~= h + a + b + c + d);
}

proof fn lemma_summary_cut(before: Seq<char>, after: Seq<char>)
    ensures
        is_summary(
            diff_summary(before, after).0,
            diff_summary(before, after).1,
            whole_diff(before, after),
        ),
{
    let whole = whole_diff(before, after);
    if text::byte_len(whole) > 32_768 {
        passages::truncated_texts_fit(whole, 32_768);
        let n = passages::cut(whole, 32_768).len() as int;
        if n == whole.len() {
            assert(passages::cut(whole, 32_768) =~= whole);
        }
        assert(whole.take(n) =~= passages::cut(whole, 32_768));
    }
}

/// The lines without a mark and with a minus are lines of the text before, from some line
/// on; with those without a mark and with a plus in their place, the lines before become
/// the lines after.
pub open spec fn turns_into(
    a: Seq<Seq<char>>,
    b: Seq<Seq<char>>,
    shown: Seq<ShownLine>,
    from: int,
) -> bool {
    let olds = side(shown, '-');
    &&& 0 <= from
    &&& from + olds.len() <= a.len()
    &&& olds == a.subrange(from, from + olds.len())
    &&& b == a.take(from) + side(shown, '+') + a.skip(from + olds.len())
}

/// The lines that are removed stand together, and so do those that are added behind them;
/// they do not begin or end alike. Up to three lines that stay are shown before and behind
/// them, and three wherever there are more.
pub open spec fn is_one_hunk(
    a: Seq<Seq<char>>,
    shown: Seq<ShownLine>,
    from: int,
    kept: int,
    removed: int,
    added: int,
) -> bool {
    &&& 0 <= kept <= 3
    &&& 0 <= removed
    &&& 0 <= added
    &&& kept + removed + added <= shown.len() <= kept + removed + added + 3
    &&& from > 0 ==> kept == 3
    &&& from + side(shown, '-').len() < a.len() ==> shown.len() == kept + removed + added + 3
    &&& forall|i: int|
        0 <= i < shown.len() ==> (#[trigger] shown[i]).mark == (if kept <= i < kept + removed {
            '-'
        } else if kept + removed <= i < kept + removed + added {
            '+'
        } else {
            ' '
        })
    &&& removed > 0 && added > 0 ==> shown[kept].line != shown[kept + removed].line && shown[kept
        + removed - 1].line != shown[kept + removed + added - 1].line
}

/// The lines behind a header that says where the lines of either text begin, and how many
/// they are.
pub open spec fn with_header(shown: Seq<ShownLine>, from: int) -> Seq<char> {
    "--- current\n+++ proposed\n@@ -"@ + text::decimal_text((from + 1) as nat) + ","@
        + text::decimal_text(side(shown, '-').len()) + " +"@ + text::decimal_text(
        (from + 1) as nat,
    ) + ","@ + text::decimal_text(side(shown, '+').len()) + " @@\n"@ + printed(shown)
}

/// What takes more than 32768 bytes is cut to the longest start that does not, and says so.
pub open spec fn is_summary(summary: Seq<char>, cut: bool, whole: Seq<char>) -> bool {
    &&& cut == (text::byte_len(whole) > 32_768)
    &&& !cut ==> summary == whole
    &&& cut ==> exists|n: int|
        #![trigger whole.take(n)]
        {
            &&& 0 <= n < whole.len()
            &&& text::byte_len(whole.take(n)) <= 32_768
            &&& text::byte_len(whole.take(n + 1)) > 32_768
            &&& summary == whole.take(n) + "\n... diff truncated ...\n"@
        }
}

/// The lines are those around what two texts do not share.
spec fn is_built(a: Seq<Seq<char>>, b: Seq<Seq<char>>, shown: Seq<ShownLine>, from: int) -> bool {
    let start = common_start(a, b, 0);
    let end = common_end(a, b, smaller(a.len() - start, b.len() - start), 0);
    let b_to = smaller(b.len() - end + 3, b.len() as int);
    &&& from == (if start >= 3 {
        start - 3
    } else {
        0
    })
    &&& side(shown, '-').len() == smaller(a.len() - end + 3, a.len() as int) - from
    &&& side(shown, '+').len() == b_to - from
    &&& printed(shown) == marked(a.subrange(from, start), ' ') + marked(
        a.subrange(start, a.len() - end),
        '-',
    ) + marked(b.subrange(start, b.len() - end), '+') + marked(
        b.subrange(b.len() - end, b_to),
        ' ',
    )
}

proof fn lemma_header(before: Seq<char>, after: Seq<char>, shown: Seq<ShownLine>, from: int)
    requires
        is_built(passages::lines_of(before), passages::lines_of(after), shown, from),
    ensures
        with_header(shown, from) == whole_diff(before, after),
{
    let a = passages::lines_of(before);
    let b = passages::lines_of(after);
    let start = common_start(a, b, 0);
    let end = common_end(a, b, smaller(a.len() - start, b.len() - start), 0);
    let b_to = smaller(b.len() - end + 3, b.len() as int);
    lemma_four_follow(
        "--- current\n+++ proposed\n@@ -"@ + text::decimal_text((from + 1) as nat) + ","@
            + text::decimal_text(side(shown, '-').len()) + " +"@ + text::decimal_text(
            (from + 1) as nat,
        ) + ","@ + text::decimal_text(side(shown, '+').len()) + " @@\n"@,
        marked(a.subrange(from, start), ' '),
        marked(a.subrange(start, a.len() - end), '-'),
        marked(b.subrange(start, b.len() - end), '+'),
        marked(b.subrange(b.len() - end, b_to), ' '),
    );
}

#[verifier::rlimit(60)]
proof fn lemma_shown(a: Seq<Seq<char>>, b: Seq<Seq<char>>) -> (r: (
    Seq<ShownLine>,
    int,
    int,
    int,
    int,
))
    ensures
        turns_into(a, b, r.0, r.1),
        is_one_hunk(a, r.0, r.1, r.2, r.3, r.4),
        is_built(a, b, r.0, r.1),
{
    lemma_start_found(a, b, 0);
    let start = common_start(a, b, 0);
    let limit = smaller(a.len() - start, b.len() - start);
    lemma_end_found(a, b, limit, 0);
    let end = common_end(a, b, limit, 0);
    let from = if start >= 3 {
        start - 3
    } else {
        0
    };
    let b_to = smaller(b.len() - end + 3, b.len() as int);
    let shown = hunk(a, b, start, end, from, b_to);
    lemma_hunk_sides(a, b, start, end, from, b_to);
    lemma_hunk_marks(a, b, start, end, from, b_to);
    (shown, from, start - from, a.len() - end - start, b.len() - end - start)
}

/// A summary tells both texts: it is a header and one hunk that turns the lines of the
/// text before into those of the text after, cut if it is too long.
pub proof fn summaries_tell_both_texts(before: Seq<char>, after: Seq<char>) -> (r: (
    Seq<ShownLine>,
    int,
    int,
    int,
    int,
))
    ensures
        turns_into(passages::lines_of(before), passages::lines_of(after), r.0, r.1),
        is_one_hunk(passages::lines_of(before), r.0, r.1, r.2, r.3, r.4),
        is_summary(
            diff_summary(before, after).0,
            diff_summary(before, after).1,
            with_header(r.0, r.1),
        ),
{
    let r = lemma_shown(passages::lines_of(before), passages::lines_of(after));
    lemma_header(before, after, r.0, r.1);
    lemma_summary_cut(before, after);
    r
}

/// A text with its line ends made line feeds, character by character: a carriage return
/// with the line feed behind it is one end, and alone it is one too.
pub open spec fn fed(s: Seq<char>) -> Seq<char>
    decreases s.len(),
{
    if s.len() == 0 {
        Seq::empty()
    } else if s[0] == '\r' && s.len() > 1 && s[1] == '\n' {
        seq!['\n'] + fed(s.skip(2))
    } else if s[0] == '\r' {
        seq!['\n'] + fed(s.skip(1))
    } else {
        seq![s[0]] + fed(s.skip(1))
    }
}

/// A text with something in the place of every line feed.
pub open spec fn spread(s: Seq<char>, newline: Seq<char>) -> Seq<char>
    decreases s.len(),
{
    if s.len() == 0 {
        Seq::empty()
    } else if s[0] == '\n' {
        newline + spread(s.skip(1), newline)
    } else {
        seq![s[0]] + spread(s.skip(1), newline)
    }
}

proof fn lemma_fed(s: Seq<char>, i: int)
    requires
        0 <= i <= s.len(),
    ensures
        text::replace_char(
            passages::replaced_from(s, seq!['\r', '\n'], seq!['\n'], i),
            '\r',
            '\n',
        ) == fed(s.skip(i)),
    decreases s.len() - i,
{
    let p = seq!['\r', '\n'];
    let r = seq!['\n'];
    let t = s.skip(i);
    let all = passages::replaced_from(s, p, r, i);
    if i + 2 > s.len() {
        if t.len() == 1 {
            assert(t.skip(1) =~= Seq::empty());
            assert(fed(t.skip(1)) =~= Seq::empty());
        }
        assert(text::replace_char(t, '\r', '\n') =~= fed(t));
    } else {
        assert(passages::stands_at(s, p, i) == (s[i] == '\r' && s[i + 1] == '\n')) by {
            let w = s.subrange(i, i + 2);
            assert(w[0] == s[i] && w[1] == s[i + 1]);
            if s[i] == '\r' && s[i + 1] == '\n' {
                assert(w =~= p);
            }
            if w == p {
                assert(w[0] == p[0] && w[1] == p[1]);
            }
        }
        if passages::stands_at(s, p, i) {
            lemma_fed(s, i + 2);
            assert(t.skip(2) =~= s.skip(i + 2));
            assert(text::replace_char(all, '\r', '\n') =~= seq!['\n'] + text::replace_char(
                passages::replaced_from(s, p, r, i + 2),
                '\r',
                '\n',
            ));
        } else {
            lemma_fed(s, i + 1);
            assert(t.skip(1) =~= s.skip(i + 1));
            let c = if s[i] == '\r' {
                '\n'
            } else {
                s[i]
            };
            assert(text::replace_char(all, '\r', '\n') =~= seq![c] + text::replace_char(
                passages::replaced_from(s, p, r, i + 1),
                '\r',
                '\n',
            ));
        }
    }
}

proof fn lemma_spread(s: Seq<char>, newline: Seq<char>, i: int)
    requires
        0 <= i <= s.len(),
    ensures
        passages::replaced_from(s, seq!['\n'], newline, i) == spread(s.skip(i), newline),
    decreases s.len() - i,
{
    let p = seq!['\n'];
    let t = s.skip(i);
    if i < s.len() {
        lemma_spread(s, newline, i + 1);
        assert(t.skip(1) =~= s.skip(i + 1));
        let w = s.subrange(i, i + 1);
        assert(w[0] == s[i]);
        if s[i] == '\n' {
            assert(w =~= p);
        }
    } else {
        assert(t =~= Seq::empty());
    }
}

/// Whatever ends the lines of a text, they all end alike afterwards: line feeds, carriage
/// returns, and both together become the line end that is asked for, and nothing else
/// changes. A text has the line end of Windows if that stands in it anywhere.
pub proof fn line_ends_become_alike(s: Seq<char>, newline: Seq<char>)
    ensures
        with_newlines(s, newline) == spread(fed(s), newline),
        !with_newlines(s, seq!['\n']).contains('\r'),
        (newline_of(s) == seq!['\r', '\n']) == (exists|i: int|
            0 <= i < s.len() - 1 && #[trigger] s[i] == '\r' && s[i + 1] == '\n'),
        newline_of(s) == seq!['\r', '\n'] || newline_of(s) == seq!['\n'],
{
    assert(s.skip(0) =~= s);
    lemma_fed(s, 0);
    let plain = plain_lines(s);
    assert(plain == fed(s));
    assert(plain.skip(0) =~= plain);
    lemma_spread(plain, newline, 0);
    lemma_spread(plain, seq!['\n'], 0);
    lemma_fed_plain(s);
    lemma_spread_same(plain);
    let p = seq!['\r', '\n'];
    let gaps = passages::replacing_keeps_what_is_between(s, p, p, 0);
    let found = passages::matches_from(s, p, 0);
    if found.len() > 0 {
        let i = found[0];
        assert(passages::stands_at(s, p, i));
        assert(s.subrange(i, i + 2)[0] == s[i] && s.subrange(i, i + 2)[1] == s[i + 1]);
    }
    if exists|i: int| 0 <= i < s.len() - 1 && #[trigger] s[i] == '\r' && s[i + 1] == '\n' {
        let i = choose|i: int| 0 <= i < s.len() - 1 && #[trigger] s[i] == '\r' && s[i + 1] == '\n';
        assert(s.subrange(i, i + 2) =~= p);
        assert(passages::stands_at(s, p, i));
        if found.len() == 0 {
            assert(gaps.last() =~= s);
        }
    }
    assert(seq!['\n'].len() != p.len());
}

proof fn lemma_fed_plain(s: Seq<char>)
    ensures
        !fed(s).contains('\r'),
    decreases s.len(),
{
    if s.len() > 0 {
        let t = if s[0] == '\r' && s.len() > 1 && s[1] == '\n' {
            s.skip(2)
        } else {
            s.skip(1)
        };
        lemma_fed_plain(t);
        assert forall|k: int| 0 <= k < fed(s).len() implies fed(s)[k] != '\r' by {
            if k > 0 {
                assert(fed(s)[k] == fed(t)[k - 1]);
            }
        }
    }
}

proof fn lemma_spread_same(s: Seq<char>)
    ensures
        spread(s, seq!['\n']) == s,
    decreases s.len(),
{
    if s.len() > 0 {
        lemma_spread_same(s.skip(1));
        assert(seq![s[0]] + s.skip(1) =~= s);
    } else {
        assert(s =~= Seq::empty());
    }
}

/// An edit applies if and only if what it replaces stands in the text as often as it says,
/// counted from the left without overlaps. Then the text between these places stays as it
/// is, and what the edit puts in stands between.
pub proof fn edits_change_nothing_else(
    s: Seq<char>,
    edit: TextEdit,
    index: int,
    newline: Seq<char>,
) -> (gaps: Seq<Seq<char>>)
    requires
        edit.old_text@.len() > 0,
        newline.len() > 0,
    ensures
        ({
            let old_text = spread(fed(edit.old_text@), newline);
            let new_text = spread(fed(edit.new_text@), newline);
            let result = edit_once(s, edit, index, newline);
            &&& passages::interleaved(gaps, old_text) == s
            &&& forall|g: int, k: int|
                0 <= g < gaps.len() - 1 && 0 <= k < gaps[g].len() ==> !#[trigger]
                    passages::stands_at(gaps[g] + old_text, old_text, k)
            &&& forall|k: int| !#[trigger] passages::stands_at(gaps.last(), old_text, k)
            &&& result is Ok == (gaps.len() - 1 == edit.expected_occurrences)
            &&& result is Ok ==> result->Ok_0 == passages::interleaved(gaps, new_text)
            &&& result matches Err(fault) ==> fault == FsFault::OccurrenceMismatch(
                index as nat,
                edit.expected_occurrences as nat,
                (gaps.len() - 1) as nat,
                if gaps.len() == 1 {
                    Some(passages::closest(s, old_text))
                } else {
                    None
                },
            )
        }),
{
    line_ends_become_alike(edit.old_text@, newline);
    line_ends_become_alike(edit.new_text@, newline);
    lemma_newlines_keep_something(edit.old_text@, newline);
    assert(s.skip(0) =~= s);
    passages::replacing_keeps_what_is_between(
        s,
        with_newlines(edit.old_text@, newline),
        with_newlines(edit.new_text@, newline),
        0,
    )
}

/// Edits are applied one after the other, each to what those before it made of the text,
/// and the first that does not apply ends it. From one to twenty are tried, each with
/// something to find at least once.
pub proof fn edits_follow_each_other(
    s: Seq<char>,
    edits: Seq<TextEdit>,
    edit: TextEdit,
    newline: Seq<char>,
)
    ensures
        edit_all(s, Seq::empty(), newline) == Ok::<Seq<char>, FsFault>(s),
        edit_all(s, edits.push(edit), newline) == (match edit_all(s, edits, newline) {
            Err(fault) => Err(fault),
            Ok(so_far) => edit_once(so_far, edit, edits.len() as int, newline),
        }),
        edits_allowed(edits) == (1 <= edits.len() <= 20 && forall|i: int|
            0 <= i < edits.len() ==> (#[trigger] edits[i]).old_text@.len() >= 1
                && edits[i].expected_occurrences >= 1),
{
    assert(edits.push(edit).drop_last() =~= edits);
}

/// A file is edited in its own encoding: what comes out is the edited text, written as the
/// file was read, and no longer than 1048576 bytes.
pub proof fn files_are_edited_in_their_encoding(original: Seq<u8>, edits: Seq<TextEdit>)
    ensures
        encodings::decoded(original) is None ==> edited_file(original, edits) == Err::<
            Seq<u8>,
            FsFault,
        >(FsFault::UnsupportedEditEncoding),
        encodings::decoded(original) matches Some(read) ==> {
            let edited = edit_all(read.text, edits, newline_of(read.text));
            &&& edited matches Err(fault) ==> edited_file(original, edits) == Err::<
                Seq<u8>,
                FsFault,
            >(fault)
            &&& edited matches Ok(text) ==> match encodings::encoded(text, read.encoding) {
                None => edited_file(original, edits) == Err::<Seq<u8>, FsFault>(
                    FsFault::UnrepresentableEditText,
                ),
                Some(bytes) => {
                    &&& bytes.len() <= 1_048_576 ==> edited_file(original, edits) == Ok::<
                        Seq<u8>,
                        FsFault,
                    >(bytes)
                    &&& bytes.len() > 1_048_576 ==> edited_file(original, edits) == Err::<
                        Seq<u8>,
                        FsFault,
                    >(FsFault::EditResultTooLarge(bytes.len()))
                    &&& edited_summary(original, edits) == diff_summary(read.text, text)
                },
            }
        },
{
}

/// Edits have these limits, and a text is to be found once where that is not said.
pub proof fn edits_have_these_limits()
    ensures
        MAX_EDIT_FILE_BYTES == 1_048_576,
        MAX_EDITS == 20,
        MAX_DIFF_SUMMARY_BYTES == 32_768,
        DEFAULT_EXPECTED_OCCURRENCES == 1,
{
}

} // verus!
