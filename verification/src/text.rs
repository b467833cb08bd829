//! Lines and spaces in the texts of tokens.
use vstd::prelude::*;
use vstd::string::{StrSliceExecFns, StringExecFns};

verus! {

/// What follows the last line break of `text`, or all of it where there is none.
pub open spec fn last_line(text: Seq<char>) -> Seq<char>
    decreases text.len(),
{
    if text.len() == 0 || text.last() == '\n' {
        Seq::empty()
    } else {
        last_line(text.drop_last()).push(text.last())
    }
}

/// `n` spaces.
pub open spec fn blanks(n: nat) -> Seq<char> {
    Seq::new(n, |i: int| ' ')
}

/// Whether `text` begins with `n` spaces.
pub open spec fn begins_with_blanks(text: Seq<char>, n: nat) -> bool {
    n <= text.len() && text.take(n as int) == blanks(n)
}

/// `text` without the `n` spaces at the start of each line but the first: where a line begins
/// with fewer, it stays as it is.
pub open spec fn unindented(text: Seq<char>, n: nat) -> Seq<char>
    decreases text.len(),
{
    if text.len() == 0 {
        Seq::empty()
    } else if text[0] == '\n' && begins_with_blanks(text.skip(1), n) {
        seq!['\n'] + unindented(text.skip(1 + n as int), n)
    } else {
        seq![text[0]] + unindented(text.skip(1), n)
    }
}

/// Whether `c` occurs in `text`.
pub fn contains(text: &str, c: char) -> (r: bool)
    ensures
        r == text@.contains(c),
{
    for d in it: text.chars()
        invariant
            it.seq() == text@,
            forall|j: int| 0 <= j < it.index() ==> text@[j] != c,
    {
        if d == c {
            assert(text@[it.index()] == c);
            return true;
        }
    }
    false
}

/// `last_line` as a string.
pub fn last_line_of(text: &str) -> (r: String)
    ensures
        r@ == last_line(text@),
{
    let len = text.unicode_len();
    let mut start: usize = len;
    assert(text@.skip(len as int) =~= Seq::<char>::empty());
    assert(text@.take(len as int) =~= text@);
    assert(last_line(text@) =~= last_line(text@.take(start as int)) + text@.skip(start as int));
    while start > 0 && text.get_char(start - 1) != '\n'
        invariant
            start <= len,
            len == text@.len(),
            last_line(text@) == last_line(text@.take(start as int)) + text@.skip(start as int),
        decreases start,
    {
        proof {
            let t = text@.take(start as int);
            assert(t.drop_last() =~= text@.take(start - 1));
            assert(last_line(t) == last_line(t.drop_last()).push(t.last()));
            assert(last_line(text@) =~= last_line(text@.take(start - 1)) + text@.skip(start - 1));
        }
        start -= 1;
    }
    proof {
        let t = text@.take(start as int);
        assert(start > 0 ==> t.last() == '\n');
        assert(last_line(t) =~= Seq::<char>::empty());
        assert(last_line(text@) =~= text@.subrange(start as int, len as int));
    }
    text.substring_char(start, len).to_owned()
}

/// A string of `n` spaces.
pub fn spaces(n: usize) -> (r: String)
    ensures
        r@ == blanks(n as nat),
{
    let mut text = String::new();
    let mut i: usize = 0;
    proof {
        reveal_strlit(" ");
    }
    while i < n
        invariant
            i <= n,
            text@ == blanks(i as nat),
            " "@ == seq![' '],
        decreases n - i,
    {
        text.append(" ");
        i += 1;
        assert(text@ =~= blanks(i as nat));
    }
    text
}

/// Whether `n` spaces stand in `text` from place `from` on.
fn blanks_at(text: &str, from: usize, n: usize) -> (r: bool)
    requires
        from <= text@.len(),
    ensures
        r == begins_with_blanks(text@.skip(from as int), n as nat),
{
    let len = text.unicode_len();
    if n > len - from {
        return false;
    }
    let ghost rest = text@.skip(from as int);
    let mut i: usize = 0;
    while i < n
        invariant
            len == text@.len(),
            from <= len,
            n <= len - from,
            i <= n,
            rest == text@.skip(from as int),
            forall|j: int| 0 <= j < i ==> rest[j] == ' ',
        decreases n - i,
    {
        if text.get_char(from + i) != ' ' {
            assert(rest[i as int] != ' ');
            assert(rest.take(n as int)[i as int] != blanks(n as nat)[i as int]);
            return false;
        }
        i += 1;
    }
    assert(rest.take(n as int) =~= blanks(n as nat));
    true
}

/// `unindented` as a string.
pub fn unindent(text: &str, n: usize) -> (r: String)
    ensures
        r@ == unindented(text@, n as nat),
{
    let len = text.unicode_len();
    let mut result = String::new();
    let mut i: usize = 0;
    proof {
        reveal_strlit("\n");
        assert(text@.skip(0) =~= text@);
        assert(result@ + unindented(text@.skip(0), n as nat) =~= unindented(text@, n as nat));
    }
    while i < len
        invariant
            len == text@.len(),
            i <= len,
            "\n"@ == seq!['\n'],
            result@ + unindented(text@.skip(i as int), n as nat) == unindented(text@, n as nat),
        decreases len - i,
    {
        let ghost rest = text@.skip(i as int);
        let ghost so_far = result@;
        assert(rest.skip(1) =~= text@.skip(i + 1));
        if text.get_char(i) == '\n' && blanks_at(text, i + 1, n) {
            result.append("\n");
            assert(rest.skip(1 + n) =~= text@.skip(i + 1 + n));
            assert(so_far + (seq!['\n'] + unindented(rest.skip(1 + n), n as nat)) =~= (so_far
                + seq!['\n']) + unindented(rest.skip(1 + n), n as nat));
            i = i + 1 + n;
        } else {
            result.append(text.substring_char(i, i + 1));
            assert(text@.subrange(i as int, i + 1) =~= seq![rest[0]]);
            assert(so_far + (seq![rest[0]] + unindented(rest.skip(1), n as nat)) =~= (so_far
                + seq![rest[0]]) + unindented(rest.skip(1), n as nat));
            i += 1;
        }
    }
    proof {
        assert(text@.skip(len as int) =~= Seq::<char>::empty());
        assert(result@ + unindented(text@.skip(len as int), n as nat) =~= result@);
    }
    result
}

} // verus!
