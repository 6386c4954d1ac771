//! Properties of the decoder over all inputs.

use crate::parser::{apply_line, line_entry, parsed};
use crate::scalar::{coerce, word_ic};
use crate::text::{index_of, is_ws, lemma_index_of, trim, trim_end, trim_start};
use crate::value::Scalar;
use vstd::prelude::*;

verus! {

/// The line `key = value`, with one space on either side of `=`.
pub open spec fn assignment(key: Seq<char>, value: Seq<char>) -> Seq<char> {
    key + seq![' ', '=', ' '] + value
}

/// `value` between double quotes.
pub open spec fn quoted(value: Seq<char>) -> Seq<char> {
    seq!['"'] + value + seq!['"']
}

/// A key that reads back as itself: not empty, no whitespace at either end,
/// no `=`, and not the start of a comment.
pub open spec fn plain_key(key: Seq<char>) -> bool {
    &&& key.len() > 0
    &&& !is_ws(key[0])
    &&& !is_ws(key.last())
    &&& key[0] != '#'
    &&& !key.contains('=')
}

/// A value text that reads back as itself: not empty, no whitespace at
/// either end, no `{`.
pub open spec fn plain_value(value: Seq<char>) -> bool {
    &&& value.len() > 0
    &&& !is_ws(value[0])
    &&& !is_ws(value.last())
    &&& !value.contains('{')
}

proof fn lemma_parsed_push(lines: Seq<Seq<char>>, line: Seq<char>)
    ensures
        parsed(lines.push(line)) == apply_line(parsed(lines), line),
{
    assert(lines.push(line).drop_last() =~= lines);
}

proof fn lemma_trim_plain(s: Seq<char>)
    requires
        s.len() > 0,
        !is_ws(s[0]),
        !is_ws(s.last()),
    ensures
        trim(s) == s,
{
}

proof fn lemma_trim_keeps(s: Seq<char>, c: char)
    requires
        s.contains(c),
        !is_ws(c),
    ensures
        trim(s).contains(c),
{
    lemma_trim_start_keeps(s, c);
    lemma_trim_end_keeps(trim_start(s), c);
}

proof fn lemma_trim_start_keeps(s: Seq<char>, c: char)
    requires
        s.contains(c),
        !is_ws(c),
    ensures
        trim_start(s).contains(c),
    decreases s.len(),
{
    if s.len() > 0 && is_ws(s[0]) {
        let j = choose|j: int| 0 <= j < s.len() && s[j] == c;
        let t = s.drop_first();
        assert(t[j - 1] == c);
        lemma_trim_start_keeps(t, c);
    }
}

proof fn lemma_trim_end_keeps(s: Seq<char>, c: char)
    requires
        s.contains(c),
        !is_ws(c),
    ensures
        trim_end(s).contains(c),
    decreases s.len(),
{
    if s.len() > 0 && is_ws(s.last()) {
        let j = choose|j: int| 0 <= j < s.len() && s[j] == c;
        let t = s.drop_last();
        assert(t[j] == c);
        lemma_trim_end_keeps(t, c);
    }
}

proof fn lemma_assignment_entry(key: Seq<char>, value: Seq<char>)
    requires
        plain_key(key),
        plain_value(value),
    ensures
        line_entry(assignment(key, value)) == Some((key, coerce(value)->0)),
        coerce(value) is Some,
{
    let line = assignment(key, value);
    let n = key.len() as int;
    lemma_trim_plain(line);
    assert(line[0] == key[0]);
    assert forall|j: int| 0 <= j < n + 1 implies #[trigger] line[j] != '=' by {
        if j < n {
            assert(line[j] == key[j]);
        }
    }
    lemma_index_of(line, '=', n + 1);
    assert(index_of(line, '=') == Some(n + 1));
    let before = line.subrange(0, n + 1);
    assert(before =~= key.push(' '));
    assert(trim_start(before) == before);
    assert(before.drop_last() =~= key);
    assert(before.last() == ' ');
    assert(is_ws(' '));
    assert(trim_end(key) == key);
    assert(trim_end(before) == trim_end(key));
    assert(trim(before) == key);
    let after = line.subrange(n + 2, line.len() as int);
    assert(after =~= seq![' '] + value);
    assert(after.drop_first() =~= value);
    assert(after[0] == ' ');
    assert(trim_start(value) == value);
    assert(trim_start(after) == value);
    assert(trim(after) == value);
}

/// A line `key = "text"` sets `key` to the text between the quotes, whatever
/// came before it; the text may hold anything but a `{`.
pub proof fn lemma_quoted_value_is_text(lines: Seq<Seq<char>>, key: Seq<char>, text: Seq<char>)
    requires
        plain_key(key),
        !text.contains('{'),
    ensures
        parsed(lines.push(assignment(key, quoted(text)))).contains_key(key),
        parsed(lines.push(assignment(key, quoted(text))))[key] == Scalar::Text(text),
{
    let q = quoted(text);
    assert(q[0] == '"');
    assert(q.last() == '"');
    assert(!q.contains('{')) by {
        if q.contains('{') {
            let j = choose|j: int| 0 <= j < q.len() && q[j] == '{';
            assert(text[j - 1] == '{');
        }
    }
    lemma_assignment_entry(key, q);
    assert(q.subrange(1, q.len() - 1) =~= text);
    lemma_parsed_push(lines, assignment(key, q));
}

/// A line `key = yes`, in any letter case, sets `key` to true.
pub proof fn lemma_yes_is_true(lines: Seq<Seq<char>>, key: Seq<char>, word: Seq<char>)
    requires
        plain_key(key),
        word_ic(word, seq!['y', 'e', 's'], seq!['Y', 'E', 'S']),
    ensures
        parsed(lines.push(assignment(key, word))).contains_key(key),
        parsed(lines.push(assignment(key, word)))[key] == Scalar::Bool(true),
{
    assert(word[0] == 'y' || word[0] == 'Y');
    assert(word[2] == 's' || word[2] == 'S');
    assert(!word.contains('{')) by {
        if word.contains('{') {
            let j = choose|j: int| 0 <= j < word.len() && word[j] == '{';
            assert(word[j] == seq!['y', 'e', 's'][j] || word[j] == seq!['Y', 'E', 'S'][j]);
        }
    }
    lemma_assignment_entry(key, word);
    lemma_parsed_push(lines, assignment(key, word));
}

/// A line `key = no`, in any letter case, sets `key` to false.
pub proof fn lemma_no_is_false(lines: Seq<Seq<char>>, key: Seq<char>, word: Seq<char>)
    requires
        plain_key(key),
        word_ic(word, seq!['n', 'o'], seq!['N', 'O']),
    ensures
        parsed(lines.push(assignment(key, word))).contains_key(key),
        parsed(lines.push(assignment(key, word)))[key] == Scalar::Bool(false),
{
    assert(word[0] == 'n' || word[0] == 'N');
    assert(word[1] == 'o' || word[1] == 'O');
    assert(!word.contains('{')) by {
        if word.contains('{') {
            let j = choose|j: int| 0 <= j < word.len() && word[j] == '{';
            assert(word[j] == seq!['n', 'o'][j] || word[j] == seq!['N', 'O'][j]);
        }
    }
    assert(!word_ic(word, seq!['y', 'e', 's'], seq!['Y', 'E', 'S']));
    lemma_assignment_entry(key, word);
    lemma_parsed_push(lines, assignment(key, word));
}

/// A comment line leaves the mapping as it was.
pub proof fn lemma_comment_assigns_nothing(lines: Seq<Seq<char>>, line: Seq<char>)
    requires
        trim(line).len() > 0,
        trim(line)[0] == '#',
    ensures
        parsed(lines.push(line)) == parsed(lines),
{
    lemma_parsed_push(lines, line);
}

/// A line without `=` leaves the mapping as it was.
pub proof fn lemma_no_equals_assigns_nothing(lines: Seq<Seq<char>>, line: Seq<char>)
    requires
        !line.contains('='),
    ensures
        parsed(lines.push(line)) == parsed(lines),
{
    lemma_index_of(line, '=', line.len() as int);
    lemma_parsed_push(lines, line);
}

/// A line whose text after the first `=` holds a `{` leaves the mapping as it was.
pub proof fn lemma_brace_assigns_nothing(lines: Seq<Seq<char>>, line: Seq<char>, i: int)
    requires
        index_of(line, '=') == Some(i),
        line.subrange(i + 1, line.len() as int).contains('{'),
    ensures
        parsed(lines.push(line)) == parsed(lines),
{
    lemma_trim_keeps(line.subrange(i + 1, line.len() as int), '{');
    lemma_parsed_push(lines, line);
}

/// The last assignment of a key decides its value, whatever assigned it before.
pub proof fn lemma_last_assignment_wins(lines: Seq<Seq<char>>, key: Seq<char>, value: Seq<char>)
    requires
        plain_key(key),
        plain_value(value),
    ensures
        parsed(lines.push(assignment(key, value))).contains_key(key),
        parsed(lines.push(assignment(key, value)))[key] == coerce(value)->0,
{
    lemma_assignment_entry(key, value);
    lemma_parsed_push(lines, assignment(key, value));
}

} // verus!
