//! Joining the lines of a command that goes on after a backslash.

use vstd::prelude::*;
use vstd::string::*;
use crate::text::texts;

verus! {

/// Whether `c` is white space: one of the characters that Unicode gives
/// the property `White_Space`.
pub open spec fn is_space(c: char) -> bool {
    ||| '\u{9}' <= c <= '\u{d}'
    ||| c == ' '
    ||| c == '\u{85}'
    ||| c == '\u{a0}'
    ||| c == '\u{1680}'
    ||| '\u{2000}' <= c <= '\u{200a}'
    ||| c == '\u{2028}'
    ||| c == '\u{2029}'
    ||| c == '\u{202f}'
    ||| c == '\u{205f}'
    ||| c == '\u{3000}'
}

/// How many characters of white space `s` begins with.
pub open spec fn leading_spaces(s: Seq<char>) -> nat
    decreases s.len(),
{
    if s.len() > 0 && is_space(s[0]) {
        1 + leading_spaces(s.drop_first())
    } else {
        0
    }
}

/// How many characters of white space `s` ends with.
pub open spec fn trailing_spaces(s: Seq<char>) -> nat
    decreases s.len(),
{
    if s.len() > 0 && is_space(s.last()) {
        1 + trailing_spaces(s.drop_last())
    } else {
        0
    }
}

/// `s` without the white space at its two ends.
pub open spec fn trimmed(s: Seq<char>) -> Seq<char> {
    if leading_spaces(s) >= s.len() {
        Seq::empty()
    } else {
        s.subrange(leading_spaces(s) as int, s.len() - trailing_spaces(s))
    }
}

/// The character that makes a command go on in the next line.
pub open spec fn continuation_mark() -> char {
    '\\'
}

/// Whether a line, trimmed, ends the command: it does unless it ends
/// with the continuation mark.
pub open spec fn ends_command(line: Seq<char>) -> bool {
    let t = trimmed(line);
    t.len() == 0 || t.last() != continuation_mark()
}

/// What a line adds to the command: the line without the white space at
/// its ends and without the continuation mark, if it ends with one.
pub open spec fn contribution(line: Seq<char>) -> Seq<char> {
    let t = trimmed(line);
    if ends_command(line) {
        t
    } else {
        t.drop_last()
    }
}

/// Whether `c` is white space.
pub fn is_white_space(c: char) -> (yes: bool)
    ensures
        yes == is_space(c),
{
    ('\u{9}' <= c && c <= '\u{d}') || c == ' ' || c == '\u{85}' || c == '\u{a0}' || c
        == '\u{1680}' || ('\u{2000}' <= c && c <= '\u{200a}') || c == '\u{2028}' || c
        == '\u{2029}' || c == '\u{202f}' || c == '\u{205f}' || c == '\u{3000}'
}

/// A sequence that begins with `k` characters of white space and then
/// holds another character begins with just `k` of them.
pub proof fn lemma_leading_spaces(s: Seq<char>, k: int)
    requires
        0 <= k <= s.len(),
        forall|j: int| 0 <= j < k ==> is_space(#[trigger] s[j]),
        k < s.len() ==> !is_space(s[k]),
    ensures
        leading_spaces(s) == k,
    decreases k,
{
    if k > 0 {
        assert(is_space(s[0]));
        let rest = s.drop_first();
        assert forall|j: int| 0 <= j < k - 1 implies is_space(#[trigger] rest[j]) by {
            assert(rest[j] == s[j + 1]);
        }
        lemma_leading_spaces(rest, k - 1);
    }
}

/// A sequence whose characters from `k` on are white space, after a
/// character that is not, ends with all of those and no more.
pub proof fn lemma_trailing_spaces(s: Seq<char>, k: int)
    requires
        0 <= k <= s.len(),
        forall|j: int| k <= j < s.len() ==> is_space(#[trigger] s[j]),
        k > 0 ==> !is_space(s[k - 1]),
    ensures
        trailing_spaces(s) == s.len() - k,
    decreases s.len() - k,
{
    if k < s.len() {
        assert(is_space(s[s.len() - 1]));
        let rest = s.drop_last();
        assert forall|j: int| k <= j < rest.len() implies is_space(#[trigger] rest[j]) by {
            assert(rest[j] == s[j]);
        }
        lemma_trailing_spaces(rest, k);
    }
}

/// `line` without the white space at its two ends.
pub fn trim(line: &str) -> (inner: &str)
    ensures
        inner@ == trimmed(line@),
{
    let length = line.unicode_len();
    let mut first: usize = 0;
    let mut end: usize = 0;
    let mut seen: bool = false;
    let mut count: usize = 0;
    for c in it: line.chars()
        invariant
            it.seq() == line@,
            length == line@.len(),
            count == it.index(),
            !seen ==> forall|j: int| 0 <= j < count ==> is_space(#[trigger] line@[j]),
            seen ==> first < end <= count && !is_space(line@[first as int]) && !is_space(
                line@[end - 1],
            ),
            seen ==> forall|j: int| 0 <= j < first ==> is_space(#[trigger] line@[j]),
            seen ==> forall|j: int| end <= j < count ==> is_space(#[trigger] line@[j]),
    {
        if !is_white_space(c) {
            if !seen {
                first = count;
                seen = true;
            }
            end = count + 1;
        }
        count = count + 1;
    }
    if !seen {
        proof {
            lemma_leading_spaces(line@, length as int);
        }
        return line.substring_char(0, 0);
    }
    proof {
        lemma_leading_spaces(line@, first as int);
        lemma_trailing_spaces(line@, end as int);
    }
    line.substring_char(first, end)
}

/// Adds `line` to the command `cmd`: the line without the white space at
/// its ends and, where it ends with a backslash, without that. Says
/// whether the command is complete, which it is unless the line ended
/// with a backslash.
pub fn extend_command(cmd: &mut String, line: &str) -> (complete: bool)
    ensures
        final(cmd)@ == old(cmd)@ + contribution(line@),
        complete == ends_command(line@),
{
    let inner = trim(line);
    let length = inner.unicode_len();
    if length > 0 && inner.get_char(length - 1) == '\\' {
        cmd.append(inner.substring_char(0, length - 1));
        false
    } else {
        cmd.append(inner);
        true
    }
}

/// The command that the lines `lines` make, read from the first on
/// until one ends the command, and how many lines that took. Where no
/// line ends the command, all of them are taken.
pub open spec fn command_from(lines: Seq<Seq<char>>) -> (Seq<char>, nat)
    decreases lines.len(),
{
    if lines.len() == 0 {
        (Seq::empty(), 0)
    } else if ends_command(lines[0]) {
        (contribution(lines[0]), 1)
    } else {
        let (rest, taken) = command_from(lines.drop_first());
        (contribution(lines[0]) + rest, taken + 1)
    }
}

/// Reads one command from `lines`: joins the lines from the first on
/// until one does not end with a backslash. Gives the command and the
/// number of lines that it took.
pub fn readline(lines: &Vec<String>) -> (read: (String, usize))
    ensures
        read.0@ == command_from(texts(lines@)).0,
        read.1 == command_from(texts(lines@)).1,
{
    let ghost all = texts(lines@);
    let mut cmd = String::new();
    let mut i: usize = 0;
    proof {
        assert(all.skip(0) =~= all);
    }
    while i < lines.len()
        invariant
            i <= lines.len(),
            all == texts(lines@),
            command_from(all).0 == cmd@ + command_from(all.skip(i as int)).0,
            command_from(all).1 == i + command_from(all.skip(i as int)).1,
        decreases lines.len() - i,
    {
        proof {
            assert(all.skip(i as int)[0] == lines@[i as int]@);
            assert(all.skip(i as int).drop_first() =~= all.skip(i + 1));
        }
        let ghost before = cmd@;
        let complete = extend_command(&mut cmd, lines[i].as_str());
        i += 1;
        if complete {
            proof {
                assert(cmd@ =~= before + contribution(lines@[i - 1]@));
            }
            return (cmd, i);
        }
        proof {
            let rest = command_from(all.skip(i as int)).0;
            assert(before + (contribution(lines@[i - 1]@) + rest) =~= cmd@ + rest);
        }
    }
    proof {
        assert(all.skip(i as int) =~= Seq::<Seq<char>>::empty());
        assert(cmd@ + Seq::<char>::empty() =~= cmd@);
    }
    (cmd, i)
}

} // verus!
