//! The name servers that a resolver configuration names: on each line that
//! holds the word `nameserver`, what follows the last such word, without the
//! white space around it.

use crate::text::chars_of;
use crate::text::texts;
use vstd::prelude::*;

verus! {

/// The word that announces a name server.
pub open spec fn keyword() -> Seq<char> {
    seq!['n', 'a', 'm', 'e', 's', 'e', 'r', 'v', 'e', 'r']
}

/// The `i`-th character of the keyword.
fn keyword_char(i: usize) -> (c: char)
    requires
        i < keyword().len(),
    ensures
        c == keyword()[i as int],
{
    if i == 0 {
        'n'
    } else if i == 1 {
        'a'
    } else if i == 2 {
        'm'
    } else if i == 3 {
        'e'
    } else if i == 4 {
        's'
    } else if i == 5 {
        'e'
    } else if i == 6 {
        'r'
    } else if i == 7 {
        'v'
    } else if i == 8 {
        'e'
    } else {
        'r'
    }
}

/// The number of characters in the keyword.
pub const KEYWORD_LEN: usize = 10;

/// Whether the character is white space: a character with the Unicode
/// property `White_Space`.
pub open spec fn is_space(c: char) -> bool {
    let u = c as u32;
    ||| 0x09 <= u <= 0x0d
    ||| u == 0x20
    ||| u == 0x85
    ||| u == 0xa0
    ||| u == 0x1680
    ||| 0x2000 <= u <= 0x200a
    ||| u == 0x2028
    ||| u == 0x2029
    ||| u == 0x202f
    ||| u == 0x205f
    ||| u == 0x3000
}

/// Whether the character is white space.
pub fn is_white_space(c: char) -> (b: bool)
    ensures
        b == is_space(c),
{
    let u: u32 = c as u32;
    (0x09 <= u && u <= 0x0d) || u == 0x20 || u == 0x85 || u == 0xa0 || u == 0x1680 || (0x2000 <= u
        && u <= 0x200a) || u == 0x2028 || u == 0x2029 || u == 0x202f || u == 0x205f || u == 0x3000
}

/// The keyword stands in `line` at index `at`.
pub open spec fn keyword_at(line: Seq<char>, at: int) -> bool {
    &&& 0 <= at
    &&& at + keyword().len() <= line.len()
    &&& line.subrange(at, at + keyword().len()) == keyword()
}

/// The keyword stands in `line` at index `at`, and nowhere after it.
pub open spec fn last_keyword_at(line: Seq<char>, at: int) -> bool {
    &&& keyword_at(line, at)
    &&& forall|j: int| at < j ==> !keyword_at(line, j)
}

/// `text[from..to]` is `text` without the white space at its start and at
/// its end.
pub open spec fn trims(text: Seq<char>, from: int, to: int) -> bool {
    &&& 0 <= from <= to <= text.len()
    &&& forall|i: int| 0 <= i < from ==> is_space(text[i])
    &&& forall|i: int| to <= i < text.len() ==> is_space(text[i])
    &&& from < to ==> !is_space(text[from]) && !is_space(text[to - 1])
}

/// What `text` is without the white space at its start and at its end.
pub open spec fn trimmed(text: Seq<char>) -> Seq<char> {
    let (from, to) = choose|r: (int, int)| trims(text, r.0, r.1);
    text.subrange(from, to)
}

/// All ways to trim a text leave the same characters.
pub proof fn lemma_trimmed(text: Seq<char>, from: int, to: int)
    requires
        trims(text, from, to),
    ensures
        trimmed(text) == text.subrange(from, to),
{
    let (a, b) = choose|r: (int, int)| trims(text, r.0, r.1);
    assert(trims(text, (from, to).0, (from, to).1));
    if from < to {
        // `text[from]` and `text[to - 1]` are no white space, so they lie in
        // `a..b`; `text[a]` and `text[b - 1]` are none, so they lie in `from..to`
        assert(a <= from && to <= b) by {
            if from < a {
                assert(is_space(text[from]));
            }
            if b < to {
                assert(is_space(text[to - 1]));
            }
        }
        assert(from <= a && b <= to) by {
            if a < from {
                assert(is_space(text[a]));
            }
            if to < b {
                assert(is_space(text[b - 1]));
            }
        }
    } else {
        // all of `text` is white space, so nothing is left either way
        if a < b {
            assert(is_space(text[a]));
        }
        assert(text.subrange(a, b) =~= text.subrange(from, to));
    }
}

/// The name server that a line names: what follows the last keyword on the
/// line, trimmed; nothing where the line does not hold the keyword.
pub open spec fn nameserver_of(line: Seq<char>) -> Option<Seq<char>> {
    if exists|at: int| keyword_at(line, at) {
        let at = choose|at: int| last_keyword_at(line, at);
        Some(trimmed(line.skip(at + keyword().len())))
    } else {
        None
    }
}

/// The name servers that the lines name, in the order of the lines.
pub open spec fn nameservers(lines: Seq<Seq<char>>) -> Seq<Seq<char>>
    decreases lines.len(),
{
    if lines.len() == 0 {
        Seq::empty()
    } else {
        let before = nameservers(lines.drop_last());
        match nameserver_of(lines.last()) {
            Some(name) => before.push(name),
            None => before,
        }
    }
}

/// Whether the keyword stands in `line` at index `at`.
fn is_keyword_at(line: &Vec<char>, at: usize) -> (b: bool)
    requires
        at + KEYWORD_LEN <= line@.len(),
    ensures
        b == keyword_at(line@, at as int),
{
    let n = line.len();
    let mut k: usize = 0;
    while k < KEYWORD_LEN
        invariant
            k <= KEYWORD_LEN,
            n == line@.len(),
            at + KEYWORD_LEN <= n,
            forall|i: int| 0 <= i < k ==> line@[at + i] == keyword()[i],
        decreases KEYWORD_LEN - k,
    {
        if line[at + k] != keyword_char(k) {
            proof {
                let part = line@.subrange(at as int, at + keyword().len());
                assert(part[k as int] == line@[at + k]);
            }
            return false;
        }
        k = k + 1;
    }
    assert(line@.subrange(at as int, at + keyword().len()) =~= keyword());
    true
}

/// The index of the last keyword in `line`, if it holds one.
pub fn find_last_keyword(line: &Vec<char>) -> (r: Option<usize>)
    ensures
        match r {
            Some(at) => last_keyword_at(line@, at as int),
            None => forall|j: int| !keyword_at(line@, j),
        },
{
    let n = line.len();
    if n < KEYWORD_LEN {
        return None;
    }
    let mut at: usize = n - KEYWORD_LEN + 1;
    while at > 0
        invariant
            n == line@.len(),
            n >= KEYWORD_LEN,
            at <= n - KEYWORD_LEN + 1,
            forall|j: int| at <= j ==> !keyword_at(line@, j),
        decreases at,
    {
        at = at - 1;
        if is_keyword_at(line, at) {
            return Some(at);
        }
    }
    None
}

/// The range of `text[start..]` that is left when the white space at its
/// start and at its end is taken away.
fn trim_range(text: &Vec<char>, start: usize) -> (r: (usize, usize))
    requires
        start <= text@.len(),
    ensures
        start <= r.0 <= r.1 <= text@.len(),
        trims(text@.skip(start as int), r.0 - start, r.1 - start),
{
    let n = text.len();
    let mut from: usize = start;
    while from < n && is_white_space(text[from])
        invariant
            n == text@.len(),
            start <= from <= n,
            forall|i: int| start <= i < from ==> is_space(text@[i]),
        decreases n - from,
    {
        from = from + 1;
    }
    let mut to: usize = n;
    while to > from && is_white_space(text[to - 1])
        invariant
            n == text@.len(),
            from <= to <= n,
            forall|i: int| to <= i < n ==> is_space(text@[i]),
        decreases to,
    {
        to = to - 1;
    }
    (from, to)
}

/// The name server that a line names, if it names one.
pub fn nameserver_in(line: &str) -> (r: Option<String>)
    ensures
        match r {
            Some(name) => nameserver_of(line@) == Some(name@),
            None => nameserver_of(line@) is None,
        },
{
    let chars = chars_of(line);
    let n = chars.len();
    let at = match find_last_keyword(&chars) {
        Some(at) => at,
        None => {
            return None;
        },
    };
    assert(at + KEYWORD_LEN <= n);
    let start: usize = at + KEYWORD_LEN;
    let (from, to) = trim_range(&chars, start);
    let mut name = String::new();
    let mut i: usize = from;
    while i < to
        invariant
            from <= i <= to <= chars@.len(),
            name@ == chars@.subrange(from as int, i as int),
        decreases to - i,
    {
        name.push(chars[i]);
        assert(chars@.subrange(from as int, i as int).push(chars@[i as int]) =~= chars@.subrange(
            from as int,
            i + 1,
        ));
        i = i + 1;
    }
    proof {
        let tail = line@.skip(start as int);
        lemma_trimmed(tail, from - start, to - start);
        assert(tail.subrange(from - start, to - start) =~= chars@.subrange(from as int, to as int));
        let chosen = choose|j: int| last_keyword_at(line@, j);
        assert(last_keyword_at(line@, at as int));
        assert(chosen == at);
    }
    Some(name)
}

/// The name servers that the lines of a resolver configuration name, in the
/// order of the lines.
pub fn read_nameservers(lines: &Vec<String>) -> (names: Vec<String>)
    ensures
        texts(names@) == nameservers(texts(lines@)),
{
    let mut names: Vec<String> = Vec::new();
    let n = lines.len();
    let mut i: usize = 0;
    assert(texts(lines@).take(0) =~= Seq::<Seq<char>>::empty());
    assert(texts(names@) =~= Seq::<Seq<char>>::empty());
    while i < n
        invariant
            n == lines@.len(),
            i <= n,
            texts(names@) == nameservers(texts(lines@).take(i as int)),
        decreases n - i,
    {
        let ghost before = texts(lines@).take(i as int);
        let ghost after = texts(lines@).take(i + 1);
        let ghost found = texts(names@);
        proof {
            assert(after.drop_last() =~= before);
            assert(after.last() == lines@[i as int]@);
        }
        match nameserver_in(lines[i].as_str()) {
            Some(name) => {
                names.push(name);
                assert(texts(names@) =~= found.push(name@));
            },
            None => {},
        }
        i = i + 1;
    }
    assert(texts(lines@).take(n as int) =~= texts(lines@));
    names
}

} // verus!
