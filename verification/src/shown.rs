//! Values as they are written for a log.

use vstd::prelude::*;

use crate::ids::TextSet;
use crate::text;

verus! {

/// A text in quotes, with what cannot be printed escaped.
pub uninterp spec fn quoted_text(value: Seq<char>) -> Seq<char>;

/// `Debug` of `str`, through `format`: a function of the text.
#[verifier::external_body]
pub(crate) fn quoted(value: &str) -> (line: String)
    ensures
        line@ == quoted_text(value@),
{
    format!("{value:?}")
}

/// Texts in quotes, with commas between them.
pub open spec fn quoted_list(values: Seq<Seq<char>>) -> Seq<char>
    decreases values.len(),
{
    if values.len() == 0 {
        Seq::empty()
    } else if values.len() == 1 {
        quoted_text(values[0])
    } else {
        quoted_list(values.drop_last()) + ", "@ + quoted_text(values.last())
    }
}

/// Numbers, with commas between them.
pub open spec fn byte_list(bytes: Seq<u8>) -> Seq<char>
    decreases bytes.len(),
{
    if bytes.len() == 0 {
        Seq::empty()
    } else if bytes.len() == 1 {
        text::decimal_text(bytes[0] as nat)
    } else {
        byte_list(bytes.drop_last()) + ", "@ + text::decimal_text(bytes.last() as nat)
    }
}

/// A text that may be missing.
pub open spec fn optional_line(value: Option<String>) -> Seq<char> {
    match value {
        None => "None"@,
        Some(value) => "Some("@ + quoted_text(value@) + ")"@,
    }
}

pub open spec fn bool_line(value: bool) -> Seq<char> {
    if value {
        "true"@
    } else {
        "false"@
    }
}

pub(crate) fn push_quoted(line: &mut Vec<char>, value: &str)
    ensures
        final(line)@ == old(line)@ + quoted_text(value@),
{
    let shown = quoted(value);
    text::push_text(line, shown.as_str());
}

pub(crate) fn push_number(line: &mut Vec<char>, n: u64)
    ensures
        final(line)@ == old(line)@ + text::decimal_text(n as nat),
{
    let digits = text::decimal(n);
    text::push_all(line, digits.as_slice());
}

pub(crate) fn push_bool(line: &mut Vec<char>, value: bool)
    ensures
        final(line)@ == old(line)@ + bool_line(value),
{
    if value {
        text::push_text(line, "true");
    } else {
        text::push_text(line, "false");
    }
}

pub(crate) fn push_optional(line: &mut Vec<char>, value: &Option<String>)
    ensures
        final(line)@ == old(line)@ + optional_line(*value),
{
    let ghost before = line@;
    match value {
        None => {
            text::push_text(line, "None");
        },
        Some(value) => {
            text::push_text(line, "Some(");
            push_quoted(line, value.as_str());
            text::push_text(line, ")");
            proof {
                assert(line@ =~= before + ("Some("@ + quoted_text(value@) + ")"@));
            }
        },
    }
}

/// The members of a set in their order.
pub(crate) fn push_members(line: &mut Vec<char>, set: &TextSet)
    ensures
        final(line)@ == old(line)@ + quoted_list(set.items()),
{
    let ghost before = line@;
    let n: usize = set.len();
    let mut i: usize = 0;
    proof {
        assert(line@ =~= before + quoted_list(set.items().take(0)));
    }
    while i < n
        invariant
            i <= n == set.items().len(),
            line@ == before + quoted_list(set.items().take(i as int)),
        decreases n - i,
    {
        let ghost done = set.items().take(i as int);
        proof {
            assert(set.items().take(i + 1).drop_last() =~= done);
        }
        if i > 0 {
            text::push_text(line, ", ");
        }
        push_quoted(line, set.item(i).as_str());
        proof {
            if i == 0 {
                assert(quoted_list(done) =~= Seq::empty());
                assert(line@ =~= before + quoted_list(set.items().take(1)));
            } else {
                assert(line@ =~= before + (quoted_list(done) + ", "@ + quoted_text(
                    set.items()[i as int],
                )));
            }
        }
        i = i + 1;
    }
    proof {
        assert(set.items().take(n as int) =~= set.items());
    }
}

pub(crate) fn push_bytes(line: &mut Vec<char>, bytes: &[u8])
    ensures
        final(line)@ == old(line)@ + byte_list(bytes@),
{
    let ghost before = line@;
    let mut i: usize = 0;
    proof {
        assert(line@ =~= before + byte_list(bytes@.take(0)));
    }
    while i < bytes.len()
        invariant
            i <= bytes@.len(),
            line@ == before + byte_list(bytes@.take(i as int)),
        decreases bytes@.len() - i,
    {
        let ghost done = bytes@.take(i as int);
        proof {
            assert(bytes@.take(i + 1).drop_last() =~= done);
        }
        if i > 0 {
            text::push_text(line, ", ");
        }
        push_number(line, bytes[i] as u64);
        proof {
            if i == 0 {
                assert(byte_list(done) =~= Seq::empty());
                assert(line@ =~= before + byte_list(bytes@.take(1)));
            } else {
                assert(line@ =~= before + (byte_list(done) + ", "@ + text::decimal_text(
                    bytes@[i as int] as nat,
                )));
            }
        }
        i = i + 1;
    }
    proof {
        assert(bytes@.take(bytes@.len() as int) =~= bytes@);
    }
}

// ---------------------------------------------------------------------------
// Laws

/// Lists are shown with a comma and a space between two and nothing elsewhere; what is
/// there or is not, and what is true or false, is shown by these words.
pub proof fn lists_are_shown_with_commas(
    values: Seq<Seq<char>>,
    value: Seq<char>,
    bytes: Seq<u8>,
    b: u8,
)
    ensures
        quoted_list(Seq::empty()) == Seq::<char>::empty(),
        quoted_list(seq![value]) == quoted_text(value),
        values.len() > 0 ==> quoted_list(values.push(value)) == quoted_list(values) + seq![',', ' ']
            + quoted_text(value),
        byte_list(Seq::empty()) == Seq::<char>::empty(),
        byte_list(seq![b]) == text::decimal_text(b as nat),
        bytes.len() > 0 ==> byte_list(bytes.push(b)) == byte_list(bytes) + seq![',', ' ']
            + text::decimal_text(b as nat),
        bool_line(true) == seq!['t', 'r', 'u', 'e'],
        bool_line(false) == seq!['f', 'a', 'l', 's', 'e'],
        optional_line(None) == seq!['N', 'o', 'n', 'e'],
{
    reveal_strlit(", ");
    reveal_strlit("true");
    reveal_strlit("false");
    reveal_strlit("None");
    assert(", "@ =~= seq![',', ' ']);
    assert("true"@ =~= seq!['t', 'r', 'u', 'e']);
    assert("false"@ =~= seq!['f', 'a', 'l', 's', 'e']);
    assert("None"@ =~= seq!['N', 'o', 'n', 'e']);
    assert(values.push(value).drop_last() =~= values);
    assert(bytes.push(b).drop_last() =~= bytes);
}

/// A field of a value that is shown, by its name.
pub open spec fn field(name: Seq<char>, value: Seq<char>) -> Seq<char> {
    name + ": "@ + value
}

/// A list that is shown between brackets of some kind.
pub open spec fn between(open: Seq<char>, list: Seq<char>, close: Seq<char>) -> Seq<char> {
    open + list + close
}

/// A field that follows others.
pub proof fn lemma_field(before: Seq<char>, lead: Seq<char>, name: Seq<char>, value: Seq<char>)
    requires
        lead == ", "@ + name + ": "@,
    ensures
        before + lead + value == before + ", "@ + field(name, value),
{
    assert(before + lead + value =~= before + ", "@ + field(name, value));
}

/// A field that holds a list, and the one behind it.
pub proof fn lemma_list_field(
    before: Seq<char>,
    lead: Seq<char>,
    open: Seq<char>,
    name: Seq<char>,
    list: Seq<char>,
    close: Seq<char>,
    next: Seq<char>,
)
    requires
        lead == ", "@ + name + ": "@ + open,
    ensures
        before + lead + list + (close + next) == before + ", "@ + field(
            name,
            between(open, list, close),
        ) + next,
{
    assert(before + lead + list + (close + next) =~= before + ", "@ + field(
        name,
        between(open, list, close),
    ) + next);
}

} // verus!
