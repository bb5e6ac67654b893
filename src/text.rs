//! Plain text helpers: splitting a document into lines and finding the word
//! that precedes a cursor.

use vstd::prelude::*;

verus! {

/// The views of a sequence of strings.
pub open spec fn strings(v: Seq<String>) -> Seq<Seq<char>> {
    v.map_values(|s: String| s@)
}

/// The pieces of `s` between newline characters, in order; there is always
/// one more piece than there are newlines.
pub open spec fn split_newlines(s: Seq<char>) -> Seq<Seq<char>>
    decreases s.len(),
{
    if s.len() == 0 {
        seq![Seq::<char>::empty()]
    } else {
        let rest = split_newlines(s.drop_last());
        if s.last() == '\n' {
            rest.push(Seq::<char>::empty())
        } else {
            rest.update(rest.len() - 1, rest.last().push(s.last()))
        }
    }
}

pub proof fn lemma_split_newlines_nonempty(s: Seq<char>)
    ensures
        split_newlines(s).len() >= 1,
    decreases s.len(),
{
    if s.len() > 0 {
        lemma_split_newlines_nonempty(s.drop_last());
    }
}

/// The characters of `s`, one by one.
pub fn chars_of(s: &str) -> (r: Vec<char>)
    ensures
        r@ == s@,
{
    let mut r: Vec<char> = Vec::new();
    for c in it: s.chars()
        invariant
            r@ == it.seq().take(it.index() as int),
    {
        r.push(c);
    }
    r
}

/// Relies on `String::push`: appends one character.
#[verifier::external_body]
pub fn push_char(s: &mut String, c: char)
    ensures
        final(s)@ == old(s)@.push(c),
{
    s.push(c)
}

/// `s` without its double quote characters.
pub open spec fn strip_quotes(s: Seq<char>) -> Seq<char> {
    s.filter(|c: char| c != '"')
}

/// Removes every double quote character.
pub fn without_quotes(s: &str) -> (r: String)
    ensures
        r@ == strip_quotes(s@),
{
    let cs = chars_of(s);
    let mut r = String::new();
    proof {
        reveal(Seq::filter);
        assert(cs@.take(0) =~= Seq::<char>::empty());
    }
    let mut i: usize = 0;
    while i < cs.len()
        invariant
            i <= cs@.len(),
            cs@ == s@,
            r@ == strip_quotes(cs@.take(i as int)),
        decreases cs@.len() - i,
    {
        proof {
            let t = cs@.take(i + 1);
            reveal(Seq::filter);
            assert(t.drop_last() =~= cs@.take(i as int));
            assert(t.last() == cs@[i as int]);
            assert(strip_quotes(t) == if cs@[i as int] != '"' {
                strip_quotes(cs@.take(i as int)).push(cs@[i as int])
            } else {
                strip_quotes(cs@.take(i as int))
            });
        }
        if cs[i] != '"' {
            push_char(&mut r, cs[i]);
        }
        i += 1;
    }
    assert(cs@.take(i as int) =~= cs@);
    r
}

/// The characters of `s` in reverse order.
pub fn reversed(s: &str) -> (r: String)
    ensures
        r@ == s@.reverse(),
{
    let cs = chars_of(s);
    let mut r = String::new();
    let mut i: usize = cs.len();
    while i > 0
        invariant
            i <= cs@.len(),
            cs@ == s@,
            r@ == cs@.subrange(i as int, cs@.len() as int).reverse(),
        decreases i,
    {
        i -= 1;
        push_char(&mut r, cs[i]);
        proof {
            let a = cs@.subrange(i as int, cs@.len() as int);
            let b = cs@.subrange(i + 1, cs@.len() as int);
            let rb = b.reverse();
            let ra = a.reverse();
            assert(ra.len() == rb.len() + 1);
            assert forall|k: int| 0 <= k < ra.len() implies ra[k] == rb.push(cs@[i as int])[k] by {
                if k < rb.len() {
                    assert(rb[k] == b[b.len() - 1 - k]);
                }
            }
            assert(ra =~= rb.push(cs@[i as int]));
        }
    }
    assert(cs@.subrange(0, cs@.len() as int) =~= cs@);
    r
}

/// Whether a character is a word character (`\w`) in the regex crate's
/// Unicode sense.
pub uninterp spec fn is_word_char(c: char) -> bool;

/// The longest prefix of `s` made of word characters.
pub open spec fn leading_run(s: Seq<char>) -> Seq<char>
    decreases s.len(),
{
    if s.len() > 0 && is_word_char(s[0]) {
        seq![s[0]] + leading_run(s.drop_first())
    } else {
        Seq::empty()
    }
}

/// The first maximal run of word characters in `s`, if there is one.
pub open spec fn first_word(s: Seq<char>) -> Option<Seq<char>>
    decreases s.len(),
{
    if s.len() == 0 {
        None
    } else if is_word_char(s[0]) {
        Some(leading_run(s))
    } else {
        first_word(s.drop_first())
    }
}

/// The last maximal run of word characters in `s`, found as the first run
/// of the reversed text.
pub open spec fn last_word(s: Seq<char>) -> Option<Seq<char>> {
    match first_word(s.reverse()) {
        Some(w) => Some(w.reverse()),
        None => None,
    }
}

/// Relies on `regex::Regex::find` with the pattern `\b\w+\b`: the
/// leftmost match starts where a run of word characters starts and, `+`
/// being greedy, ends where that run ends.
#[verifier::external_body]
fn find_first_word(s: &str) -> (r: Option<String>)
    ensures
        r matches Some(w) ==> first_word(s@) == Some(w@),
        r is None ==> first_word(s@) is None,
        r is None <==> forall|i: int| 0 <= i < s@.len() ==> !is_word_char(#[trigger] s@[i]),
{
    let re = regex::Regex::new(r"\b\w+\b").unwrap();
    re.find(s).map(|m| m.as_str().to_string())
}

/// The last word of `s`: the first word of its reversal, turned back.
pub fn last_word_of(s: &str) -> (r: Option<String>)
    ensures
        r matches Some(w) ==> last_word(s@) == Some(w@),
        r is None ==> last_word(s@) is None,
{
    let rev = reversed(s);
    match find_first_word(rev.as_str()) {
        Some(w) => {
            let back = reversed(w.as_str());
            Some(back)
        },
        None => None,
    }
}

/// A line without the carriage return that may end it.
pub open spec fn strip_cr(l: Seq<char>) -> Seq<char> {
    if l.len() > 0 && l.last() == '\r' {
        l.drop_last()
    } else {
        l
    }
}

/// Line `row` of a text, without its line break.
pub open spec fn line_of(text: Seq<char>, row: int) -> Option<Seq<char>> {
    let ls = split_newlines(text);
    if 0 <= row < ls.len() {
        Some(strip_cr(ls[row]))
    } else {
        None
    }
}

/// The word that ends nearest before column `column` of line `row`: none
/// where there is no such line, the column lies past its end, or no word
/// precedes it.
pub open spec fn preceding_word(text: Seq<char>, row: int, column: int) -> Option<Seq<char>> {
    match line_of(text, row) {
        Some(l) => if column <= l.len() {
            last_word(l.take(column))
        } else {
            None
        },
        None => None,
    }
}

/// See `preceding_word`.
pub fn word_before(text: &str, row: usize, column: usize) -> (r: Option<String>)
    ensures
        r matches Some(w) ==> preceding_word(text@, row as int, column as int) == Some(w@),
        r is None ==> preceding_word(text@, row as int, column as int) is None,
{
    let lines = newline_split(text);
    proof {
        assert(strings(lines@) == split_newlines(text@));
    }
    if row >= lines.len() {
        return None;
    }
    let line = lines[row].as_str();
    let cs = chars_of(line);
    let mut n = cs.len();
    if n > 0 && cs[n - 1] == '\r' {
        n = n - 1;
    }
    proof {
        assert(strings(lines@)[row as int] == lines@[row as int]@);
        assert(line_of(text@, row as int) == Some(line@.take(n as int))) by {
            if n < cs.len() {
                assert(line@.drop_last() =~= line@.take(n as int));
            } else {
                assert(line@ =~= line@.take(n as int));
            }
        }
    }
    if column > n {
        return None;
    }
    let prefix = line.substring_char(0, column);
    proof {
        assert(prefix@ =~= line@.take(n as int).take(column as int));
    }
    last_word_of(prefix)
}

/// Whether two strings hold the same characters.
pub fn same_chars(a: &str, b: &str) -> (r: bool)
    ensures
        r == (a@ == b@),
{
    let x = chars_of(a);
    let y = chars_of(b);
    if x.len() != y.len() {
        return false;
    }
    let mut i: usize = 0;
    while i < x.len()
        invariant
            x@ == a@,
            y@ == b@,
            x.len() == y.len(),
            i <= x.len(),
            forall|k: int| 0 <= k < i ==> x@[k] == y@[k],
        decreases x.len() - i,
    {
        if x[i] != y[i] {
            return false;
        }
        i += 1;
    }
    assert(a@ =~= b@);
    true
}

/// Splits `data` at every newline character. The newlines themselves are
/// dropped, so `"a\nb"` gives `["a", "b"]` and `"\n"` gives `["", ""]`.
pub fn newline_split(data: &str) -> (res: Vec<String>)
    ensures
        res@.map_values(|l: String| l@) == split_newlines(data@),
{
    let cs = chars_of(data);
    let n = cs.len();
    let mut res: Vec<String> = Vec::new();
    let mut start: usize = 0;
    proof {
        assert(data@.take(0) =~= Seq::<char>::empty());
        assert(res@.map_values(|l: String| l@).push(data@.subrange(0, 0))
            =~= seq![Seq::<char>::empty()]);
    }
    for i in 0..n
        invariant
            n == cs@.len(),
            cs@ == data@,
            start <= i,
            res@.map_values(|l: String| l@).push(data@.subrange(start as int, i as int))
                == split_newlines(data@.take(i as int)),
    {
        proof {
            let t = data@.take(i as int + 1);
            assert(t.drop_last() == data@.take(i as int));
            assert(t.last() == cs@[i as int]);
        }
        if cs[i] == '\n' {
            let piece = data.substring_char(start, i);
            res.push(String::from_str(piece));
            start = i + 1;
            proof {
                assert(data@.subrange(start as int, i as int + 1) =~= Seq::<char>::empty());
                assert(res@.map_values(|l: String| l@).push(Seq::<char>::empty())
                    =~= split_newlines(data@.take(i as int)).push(Seq::<char>::empty()));
            }
        } else {
            proof {
                let prev = res@.map_values(|l: String| l@);
                let cur = data@.subrange(start as int, i as int);
                let lines = split_newlines(data@.take(i as int));
                assert(lines.last() == cur);
                assert(cur.push(cs@[i as int]) =~= data@.subrange(start as int, i as int + 1));
                assert(prev.push(data@.subrange(start as int, i as int + 1))
                    =~= lines.update(lines.len() - 1, cur.push(cs@[i as int])));
            }
        }
    }
    let piece = data.substring_char(start, n);
    res.push(String::from_str(piece));
    proof {
        assert(data@.take(n as int) =~= data@);
        assert(res@.map_values(|l: String| l@) =~= split_newlines(data@.take(n as int)));
    }
    res
}

} // verus!
