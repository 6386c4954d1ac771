//! The line decoder and the mapping that it fills.

use crate::scalar::{coerce, parse_simple_value};
use crate::text::{chars_of, find_char, index_of, trim, trim_bounds};
use crate::value::{Scalar, Value};
use vstd::prelude::*;

verus! {

/// The pair that a line assigns, if any.
///
/// Comment lines (`#` after trimming), lines without `=`, values that hold a
/// `{` anywhere, and values that do not decode assign nothing. Otherwise the
/// key is the text before the first `=`, trimmed, and the value is what the
/// text after it decodes to.
pub open spec fn line_entry(line: Seq<char>) -> Option<(Seq<char>, Scalar)> {
    let tl = trim(line);
    if tl.len() > 0 && tl[0] == '#' {
        None
    } else {
        match index_of(line, '=') {
            None => None,
            Some(i) => {
                let key = trim(line.subrange(0, i));
                let vt = trim(line.subrange(i + 1, line.len() as int));
                if vt.contains('{') {
                    None
                } else {
                    match coerce(vt) {
                        Some(v) => Some((key, v)),
                        None => None,
                    }
                }
            },
        }
    }
}

/// The mapping `m` after one more line: the pair that the line assigns, if
/// any, replaces an earlier value of its key.
pub open spec fn apply_line(m: Map<Seq<char>, Scalar>, line: Seq<char>) -> Map<Seq<char>, Scalar> {
    match line_entry(line) {
        Some((k, v)) => m.insert(k, v),
        None => m,
    }
}

/// The mapping that the lines give, read in order from an empty one.
pub open spec fn parsed(lines: Seq<Seq<char>>) -> Map<Seq<char>, Scalar>
    decreases lines.len(),
{
    if lines.len() == 0 {
        Map::empty()
    } else {
        apply_line(parsed(lines.drop_last()), lines.last())
    }
}

/// The views of a sequence of strings.
pub open spec fn views(lines: Seq<String>) -> Seq<Seq<char>> {
    lines.map_values(|l: String| l@)
}

/// Whether `s[from..to]` holds `c`.
fn holds_char(s: &Vec<char>, from: usize, to: usize, c: char) -> (r: bool)
    requires
        from <= to <= s@.len(),
    ensures
        r == s@.subrange(from as int, to as int).contains(c),
{
    let ghost part = s@.subrange(from as int, to as int);
    let mut i: usize = from;
    while i < to
        invariant
            from <= i <= to <= s@.len(),
            part == s@.subrange(from as int, to as int),
            forall|j: int| from <= j < i ==> #[trigger] s@[j] != c,
        decreases to - i,
    {
        if s[i] == c {
            assert(part[i - from] == c);
            return true;
        }
        i = i + 1;
    }
    assert forall|j: int| 0 <= j < part.len() implies #[trigger] part[j] != c by {
        assert(part[j] == s@[from + j]);
    }
    false
}

/// The key and value that a line assigns, if any.
pub fn parse_line(line: &str) -> (r: Option<(String, Value)>)
    ensures
        match line_entry(line@) {
            None => r is None,
            Some((k, v)) => match r {
                Some((rk, rv)) => rk@ == k && rv.scalar() == Some(v),
                None => false,
            },
        },
{
    let cs = chars_of(line);
    let n = cs.len();
    assert(cs@.subrange(0, n as int) =~= cs@);
    let (a, b) = trim_bounds(&cs, 0, n);
    if a < b && cs[a] == '#' {
        return None;
    }
    let i = match find_char(&cs, '=') {
        Some(i) => i,
        None => {
            return None;
        },
    };
    let (va, vb) = trim_bounds(&cs, i + 1, n);
    if holds_char(&cs, va, vb, '{') {
        return None;
    }
    let (ka, kb) = trim_bounds(&cs, 0, i);
    let key = line.substring_char(ka, kb).to_owned();
    match parse_simple_value(line.substring_char(i + 1, n)) {
        Ok(v) => Some((key, v)),
        Err(_) => None,
    }
}

/// A mapping from keys to scalar values, filled line by line.
pub struct ParseResult {
    entries: Vec<(String, Value)>,
    model: Ghost<Map<Seq<char>, Scalar>>,
}

impl View for ParseResult {
    type V = Map<Seq<char>, Scalar>;

    closed spec fn view(&self) -> Map<Seq<char>, Scalar> {
        self.model@
    }
}

impl ParseResult {
    /// Each key is held once, with a scalar value, and the entries are the mapping.
    pub closed spec fn wf(&self) -> bool {
        &&& forall|i: int, j: int|
            0 <= i < j < self.entries@.len() ==> #[trigger] self.entries@[i].0@
                != #[trigger] self.entries@[j].0@
        &&& forall|i: int|
            0 <= i < self.entries@.len() ==> self.model@.contains_key(
                #[trigger] self.entries@[i].0@,
            ) && self.entries@[i].1.scalar() == Some(self.model@[self.entries@[i].0@])
        &&& forall|k: Seq<char>|
            #[trigger] self.model@.contains_key(k) ==> exists|i: int|
                0 <= i < self.entries@.len() && #[trigger] self.entries@[i].0@ == k
    }

    /// An empty mapping.
    pub fn new() -> (r: ParseResult)
        ensures
            r.wf(),
            r@ == Map::<Seq<char>, Scalar>::empty(),
    {
        ParseResult { entries: Vec::new(), model: Ghost(Map::empty()) }
    }

    /// The position of `key` among the entries.
    fn position(&self, key: &String) -> (r: Option<usize>)
        requires
            self.wf(),
        ensures
            match r {
                Some(i) => i < self.entries@.len() && self.entries@[i as int].0@ == key@,
                None => !self@.contains_key(key@),
            },
    {
        let mut i: usize = 0;
        while i < self.entries.len()
            invariant
                self.wf(),
                i <= self.entries@.len(),
                forall|j: int| 0 <= j < i ==> #[trigger] self.entries@[j].0@ != key@,
            decreases self.entries@.len() - i,
        {
            if self.entries[i].0 == *key {
                return Some(i);
            }
            i = i + 1;
        }
        None
    }

    /// Sets `key` to `value`, replacing an earlier value of the key.
    fn insert(&mut self, key: String, value: Value)
        requires
            old(self).wf(),
            value.scalar() is Some,
        ensures
            final(self).wf(),
            final(self)@ == old(self)@.insert(key@, value.scalar()->0),
    {
        let ghost k = key@;
        let ghost v = value.scalar()->0;
        let pos = self.position(&key);
        match pos {
            Some(i) => {
                self.entries.set(i, (key, value));
            },
            None => {
                self.entries.push((key, value));
            },
        }
        self.model = Ghost(self.model@.insert(k, v));
        assert forall|k2: Seq<char>| #[trigger] self.model@.contains_key(k2) implies exists|i: int|
            0 <= i < self.entries@.len() && #[trigger] self.entries@[i].0@ == k2 by {
            if k2 == k {
                match pos {
                    Some(i) => {
                        assert(self.entries@[i as int].0@ == k2);
                    },
                    None => {
                        assert(self.entries@[self.entries@.len() - 1].0@ == k2);
                    },
                }
            } else {
                assert(old(self).model@.contains_key(k2));
                let i = choose|i: int|
                    0 <= i < old(self).entries@.len() && #[trigger] old(self).entries@[i].0@ == k2;
                assert(self.entries@[i].0@ == k2);
            }
        }
    }

    /// The value of `key`, if the mapping holds it.
    pub fn get(&self, key: &str) -> (r: Option<&Value>)
        requires
            self.wf(),
        ensures
            match r {
                Some(v) => self@.contains_key(key@) && v.scalar() == Some(self@[key@]),
                None => !self@.contains_key(key@),
            },
    {
        match self.position(&key.to_owned()) {
            Some(i) => Some(&self.entries[i].1),
            None => None,
        }
    }

    /// Reads one more line into the mapping.
    pub fn feed_line(&mut self, line: &str)
        requires
            old(self).wf(),
        ensures
            final(self).wf(),
            final(self)@ == apply_line(old(self)@, line@),
    {
        if let Some((k, v)) = parse_line(line) {
            self.insert(k, v);
        }
    }

    /// The entries, each key once, in no particular order.
    pub fn into_entries(self) -> (r: Vec<(String, Value)>)
        requires
            self.wf(),
        ensures
            forall|i: int, j: int| 0 <= i < j < r@.len() ==> #[trigger] r@[i].0@ != #[trigger] r@[j].0@,
            forall|i: int|
                0 <= i < r@.len() ==> self@.contains_key(#[trigger] r@[i].0@) && r@[i].1.scalar()
                    == Some(self@[r@[i].0@]),
            forall|k: Seq<char>|
                #[trigger] self@.contains_key(k) ==> exists|i: int|
                    0 <= i < r@.len() && #[trigger] r@[i].0@ == k,
    {
        self.entries
    }
}

/// Decodes the lines of a save file, in order, into a mapping.
pub fn parse_lines(lines: &Vec<String>) -> (r: ParseResult)
    ensures
        r.wf(),
        r@ == parsed(views(lines@)),
{
    let mut r = ParseResult::new();
    let mut i: usize = 0;
    while i < lines.len()
        invariant
            i <= lines@.len(),
            r.wf(),
            r@ == parsed(views(lines@.subrange(0, i as int))),
        decreases lines@.len() - i,
    {
        r.feed_line(lines[i].as_str());
        proof {
            let pre = views(lines@.subrange(0, i + 1));
            assert(pre.drop_last() =~= views(lines@.subrange(0, i as int)));
        }
        i = i + 1;
    }
    assert(lines@.subrange(0, i as int) =~= lines@);
    r
}

} // verus!
