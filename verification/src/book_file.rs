//! Reading the opening book from its file: a script that assigns an object of
//! positions, each with its replies and their weights.
use vstd::prelude::*;
use crate::book::{BookEntry, OpeningBook, Reply, ReplyModel, entry_index, replies_for, reply_models};
use crate::text::{fields, is_white, letters, split_fields, texts, white_space};
use std::collections::BTreeMap;

verus! {

/// How many characters at the front are white space.
pub open spec fn indent(s: Seq<char>) -> nat
    decreases s.len(),
{
    if s.len() == 0 || !white_space(s[0]) {
        0
    } else {
        1 + indent(s.skip(1))
    }
}

/// Behind its indentation the line begins with two slashes.
pub open spec fn is_comment(line: Seq<char>) -> bool {
    let t = line.skip(indent(line) as int);
    t.len() >= 2 && t[0] == '/' && t[1] == '/'
}

/// A line without the carriage return at its end.
pub open spec fn bare_line(line: Seq<char>) -> Seq<char> {
    if line.len() > 0 && line.last() == '\r' {
        line.drop_last()
    } else {
        line
    }
}

/// The first `n` lines without the comments, each behind a line feed.
pub open spec fn code_lines(lines: Seq<Seq<char>>, n: int) -> Seq<char>
    decreases n,
{
    if n <= 0 {
        seq![]
    } else if is_comment(bare_line(lines[n - 1])) {
        code_lines(lines, n - 1)
    } else {
        code_lines(lines, n - 1).push('\n') + bare_line(lines[n - 1])
    }
}

/// The first place of a character from `i` on, or the length.
pub open spec fn first_place(s: Seq<char>, c: char, i: int) -> int
    decreases s.len() - i,
{
    if i < 0 || i >= s.len() || s[i] == c {
        i
    } else {
        first_place(s, c, i + 1)
    }
}

/// The last place of a character below `n`, or minus one.
pub open spec fn last_place(s: Seq<char>, c: char, n: int) -> int
    decreases n,
{
    if n <= 0 {
        -1
    } else if s[n - 1] == c {
        n - 1
    } else {
        last_place(s, c, n - 1)
    }
}

/// The object in braces that a book file holds, comments left out.
pub open spec fn braced(raw: Seq<char>) -> Option<Seq<char>> {
    let lines = fields(raw, '\n');
    let code = code_lines(lines, lines.len() as int);
    let a = first_place(code, '{', 0);
    let z = last_place(code, '}', code.len() as int);
    if a <= z {
        Some(code.subrange(a, z + 1))
    } else {
        None
    }
}

proof fn indent_bound(s: Seq<char>)
    ensures
        indent(s) <= s.len(),
    decreases s.len(),
{
    if s.len() > 0 && white_space(s[0]) {
        indent_bound(s.skip(1));
    }
}

/// Whether a line of the first `n` characters is a comment.
fn line_is_comment(line: &Vec<char>, n: usize) -> (r: bool)
    requires
        n <= line@.len(),
    ensures
        r == is_comment(line@.take(n as int)),
{
    let ghost t = line@.take(n as int);
    let mut i: usize = 0;
    proof {
        assert(t.skip(0) =~= t);
        indent_bound(t);
    }
    while i < n && is_white(line[i])
        invariant
            i <= n,
            n <= line@.len(),
            t == line@.take(n as int),
            indent(t) == i + indent(t.skip(i as int)),
        decreases n - i,
    {
        proof {
            assert(t.skip(i as int).skip(1) =~= t.skip(i + 1));
            assert(t.skip(i as int)[0] == line@[i as int]);
        }
        i += 1;
    }
    proof {
        let rest = t.skip(i as int);
        if i < n {
            assert(rest[0] == line@[i as int]);
        }
        assert(indent(t) == i);
        if i + 1 < n {
            assert(rest[1] == line@[i + 1]);
        }
    }
    n - i >= 2 && line[i] == '/' && line[i + 1] == '/'
}

/// Takes the object in braces out of the text of a book file.
pub fn book_body(raw: &str) -> (r: Option<String>)
    ensures
        match braced(raw@) {
            Some(text) => r matches Some(s) && s@ == text,
            None => r is None,
        },
{
    let text = letters(raw);
    let lines = split_fields(&text, '\n');
    let ghost ls = fields(raw@, '\n');
    let mut code: Vec<char> = Vec::new();
    let mut i: usize = 0;
    proof {
        assert(texts(lines@) == ls);
        assert(code@ =~= code_lines(ls, 0));
    }
    while i < lines.len()
        invariant
            i <= lines@.len(),
            texts(lines@) == ls,
            code@ == code_lines(ls, i as int),
        decreases lines@.len() - i,
    {
        let line = &lines[i];
        assert(ls[i as int] == line@);
        let mut n: usize = line.len();
        if n > 0 && line[n - 1] == '\r' {
            n = n - 1;
        }
        proof {
            assert(line@.take(n as int) =~= bare_line(line@));
        }
        if !line_is_comment(line, n) {
            code.push('\n');
            let ghost head = code@;
            let mut j: usize = 0;
            proof {
                assert(head + line@.take(0) =~= head);
            }
            while j < n
                invariant
                    j <= n,
                    n <= line@.len(),
                    code@ == head + line@.take(j as int),
                decreases n - j,
            {
                code.push(line[j]);
                proof {
                    assert(code@ =~= head + line@.take(j + 1));
                }
                j += 1;
            }
        }
        i += 1;
    }
    let total: usize = code.len();
    let mut a: usize = 0;
    while a < total && code[a] != '{'
        invariant
            a <= total,
            total == code@.len(),
            first_place(code@, '{', 0) == first_place(code@, '{', a as int),
        decreases total - a,
    {
        a += 1;
    }
    let mut z: usize = total;
    while z > 0 && code[z - 1] != '}'
        invariant
            z <= total,
            total == code@.len(),
            last_place(code@, '}', total as int) == last_place(code@, '}', z as int),
        decreases z,
    {
        z -= 1;
    }
    if a >= z {
        return None;
    }
    let mut out = String::new();
    let mut k: usize = a;
    proof {
        assert(out@ =~= code@.subrange(a as int, a as int));
    }
    while k < z
        invariant
            a <= k <= z,
            z <= code@.len(),
            out@ == code@.subrange(a as int, k as int),
        decreases z - k,
    {
        out.push(code[k]);
        proof {
            assert(out@ =~= code@.subrange(a as int, k + 1));
        }
        k += 1;
    }
    Some(out)
}

/// A position of the book and its replies, as mathematics.
pub type EntryModel = (Seq<char>, Seq<ReplyModel>);

pub open spec fn entry_models(v: Seq<BookEntry>) -> Seq<EntryModel> {
    v.map_values(|e: BookEntry| (e.key@, reply_models(e.replies@)))
}

/// No position occurs twice.
pub open spec fn distinct_keys(v: Seq<BookEntry>) -> bool {
    forall|i: int, j: int|
        0 <= i < j < v.len() ==> (#[trigger] v[i]).key@ != (#[trigger] v[j]).key@
}

/// The positions and replies of a JSON object of objects of weights, in the
/// order of their texts; nothing if the text is no such object.
pub uninterp spec fn json_entries(text: Seq<char>) -> Option<Seq<EntryModel>>;

/// `serde_json::from_str` into a map of maps: what comes out, or that nothing
/// does, is a function of the text, and no key of a map occurs twice.
#[verifier::external_body]
fn parse_entries(text: &str) -> (r: Option<Vec<BookEntry>>)
    ensures
        match json_entries(text@) {
            Some(m) => r matches Some(v) && entry_models(v@) == m,
            None => r is None,
        },
        r matches Some(v) ==> distinct_keys(v@),
{
    let map: BTreeMap<String, BTreeMap<String, u32>> = serde_json::from_str(text).ok()?;
    let replies = |m: BTreeMap<String, u32>| {
        m.into_iter().map(|(uci, weight)| Reply { uci, weight }).collect()
    };
    Some(map.into_iter().map(|(key, m)| BookEntry { key, replies: replies(m) }).collect())
}

/// Why a book file was refused.
#[derive(Copy, Clone, Debug, PartialEq, Eq, Structural)]
pub enum BookFileError {
    /// There is no object in braces.
    NoObject,
    /// The object is not one of positions with weighted replies.
    NotJson,
}

/// What a book file holds.
pub open spec fn file_entries(raw: Seq<char>) -> Result<Seq<EntryModel>, BookFileError> {
    match braced(raw) {
        None => Err(BookFileError::NoObject),
        Some(text) => match json_entries(text) {
            None => Err(BookFileError::NotJson),
            Some(m) => Ok(m),
        },
    }
}

/// Reads the text of a book file.
pub fn read_book(raw: &str) -> (r: Result<OpeningBook, BookFileError>)
    ensures
        match file_entries(raw@) {
            Ok(m) => r matches Ok(book) && entry_models(book.entries@) == m && distinct_keys(
                book.entries@,
            ),
            Err(e) => r == Err::<OpeningBook, BookFileError>(e),
        },
{
    match book_body(raw) {
        None => Err(BookFileError::NoObject),
        Some(text) => match parse_entries(text.as_str()) {
            None => Err(BookFileError::NotJson),
            Some(entries) => Ok(OpeningBook { entries }),
        },
    }
}

proof fn first_is_only(entries: Seq<BookEntry>, i: int, n: int)
    requires
        distinct_keys(entries),
        0 <= i < entries.len(),
        0 <= n <= entries.len(),
    ensures
        entry_index(entries, entries[i].key@, n) == if i < n {
            Some(i)
        } else {
            None
        },
    decreases n,
{
    if n > 0 {
        first_is_only(entries, i, n - 1);
        if n - 1 < i {
            assert(entries[n - 1].key@ != entries[i].key@);
        } else if i < n - 1 {
            assert(entries[i].key@ != entries[n - 1].key@);
        }
    }
}

/// Every position of a book without repetitions is found under its key, with
/// its own replies.
pub proof fn every_entry_is_found(book: OpeningBook, i: int)
    requires
        distinct_keys(book.entries@),
        0 <= i < book.entries@.len(),
    ensures
        replies_for(book, book.entries@[i].key@) == Some(
            reply_models(book.entries@[i].replies@),
        ),
{
    first_is_only(book.entries@, i, book.entries@.len() as int);
}

} // verus!
