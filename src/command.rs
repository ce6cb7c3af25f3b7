//! The grammar of the line read while a page of matches waits: quit, show a
//! path, open an entry, or open the directory that holds it.
use vstd::prelude::*;
use vstd::string::*;

verus! {

/// What a line asks for while a page waits.
#[derive(Debug, PartialEq, Eq, Structural)]
pub enum Command {
    /// Ends the query: an empty line or `q`.
    End,
    /// Prints the full path of the match with this number.
    ShowPath(usize),
    /// Opens the directory that holds the match with this number.
    OpenParent(usize),
    /// Opens the match with this number.
    Open(usize),
    /// A number was expected and the line holds none.
    Invalid,
}

pub open spec fn is_digit(c: char) -> bool {
    '0' <= c <= '9'
}

pub open spec fn all_digits(s: Seq<char>) -> bool {
    forall|i: int| 0 <= i < s.len() ==> is_digit(#[trigger] s[i])
}

/// The number written by the decimal digits `s`.
pub open spec fn digits_value(s: Seq<char>) -> nat
    decreases s.len(),
{
    if s.len() == 0 {
        0
    } else {
        digits_value(s.drop_last()) * 10 + (s.last() as u32 - '0' as u32) as nat
    }
}

/// The number that `s` reads as: an optional `+`, then one or more decimal
/// digits whose value fits a `usize`.
pub open spec fn index_of(s: Seq<char>) -> Option<usize> {
    if s.len() > 0 && s[0] == '+' {
        digits_of(s.drop_first())
    } else {
        digits_of(s)
    }
}

/// The number written by `s`: one or more decimal digits whose value fits a
/// `usize`.
pub open spec fn digits_of(s: Seq<char>) -> Option<usize> {
    if s.len() > 0 && all_digits(s) && digits_value(s) <= usize::MAX {
        Some(digits_value(s) as usize)
    } else {
        None
    }
}

/// `s` without the copies of `c` at its start.
pub open spec fn strip_front(s: Seq<char>, c: char) -> Seq<char>
    decreases s.len(),
{
    if s.len() > 0 && s[0] == c {
        strip_front(s.drop_first(), c)
    } else {
        s
    }
}

/// `s` without the copies of `c` at its end.
pub open spec fn strip_back(s: Seq<char>, c: char) -> Seq<char>
    decreases s.len(),
{
    if s.len() > 0 && s.last() == c {
        strip_back(s.drop_last(), c)
    } else {
        s
    }
}

/// `s` without the copies of `c` at either end.
pub open spec fn trim_char(s: Seq<char>, c: char) -> Seq<char> {
    strip_back(strip_front(s, c), c)
}

/// A selection: the line with `c` trimmed from both ends must read as a number.
pub open spec fn selection(line: Seq<char>, c: char) -> Option<usize> {
    index_of(trim_char(line, c))
}

/// The command that a (trimmed) line gives.
pub open spec fn command_of(line: Seq<char>) -> Command {
    if line.len() == 0 {
        Command::End
    } else if line.contains('s') {
        match selection(line, 's') {
            Some(n) => Command::ShowPath(n),
            None => Command::Invalid,
        }
    } else if line == seq!['q'] {
        Command::End
    } else if line.contains('l') {
        match selection(line, 'l') {
            Some(n) => Command::OpenParent(n),
            None => Command::Invalid,
        }
    } else {
        match index_of(line) {
            Some(n) => Command::Open(n),
            None => Command::Invalid,
        }
    }
}

proof fn lemma_digits_value_grows(s: Seq<char>, i: int)
    requires
        0 <= i <= s.len(),
    ensures
        digits_value(s.subrange(0, i)) <= digits_value(s),
    decreases s.len(),
{
    if i < s.len() {
        assert(s.drop_last().subrange(0, i) == s.subrange(0, i));
        lemma_digits_value_grows(s.drop_last(), i);
        let v = digits_value(s.drop_last());
        assert(v <= v * 10) by (nonlinear_arith);
    } else {
        assert(s.subrange(0, i) == s);
    }
}

/// The number that `s` reads as.
pub fn parse_index(s: &str) -> (r: Option<usize>)
    ensures
        r == index_of(s@),
{
    let n = s.unicode_len();
    if n > 0 && s.get_char(0) == '+' {
        let rest = s.substring_char(1, n);
        assert(rest@ == s@.drop_first());
        parse_digits(rest)
    } else {
        parse_digits(s)
    }
}

fn parse_digits(s: &str) -> (r: Option<usize>)
    ensures
        r == digits_of(s@),
{
    let n = s.unicode_len();
    if n == 0 {
        return None;
    }
    let mut v: usize = 0;
    let mut i: usize = 0;
    while i < n
        invariant
            0 < n == s@.len(),
            i <= n,
            all_digits(s@.subrange(0, i as int)),
            v == digits_value(s@.subrange(0, i as int)),
        decreases n - i,
    {
        let c = s.get_char(i);
        let ghost pre = s@.subrange(0, i + 1);
        assert(pre.drop_last() == s@.subrange(0, i as int));
        assert(pre.last() == c);
        if !('0' <= c && c <= '9') {
            assert(!is_digit(s@[i as int]));
            return None;
        }
        let d = (c as u32 - '0' as u32) as usize;
        let next = match v.checked_mul(10) {
            Some(t) => t.checked_add(d),
            None => None,
        };
        match next {
            Some(w) => {
                v = w;
            },
            None => {
                proof {
                    if all_digits(s@) {
                        lemma_digits_value_grows(s@, i + 1);
                    }
                }
                return None;
            },
        }
        i = i + 1;
    }
    assert(s@.subrange(0, n as int) == s@);
    Some(v)
}

proof fn lemma_strip_front(s: Seq<char>, c: char, a: int)
    requires
        0 <= a <= s.len(),
        forall|j: int| 0 <= j < a ==> s[j] == c,
        a == s.len() || s[a] != c,
    ensures
        strip_front(s, c) == s.subrange(a, s.len() as int),
    decreases a,
{
    if a > 0 {
        assert(s.drop_first().subrange(a - 1, s.len() - 1) == s.subrange(a, s.len() as int));
        lemma_strip_front(s.drop_first(), c, a - 1);
    } else {
        assert(s.subrange(0, s.len() as int) == s);
    }
}

proof fn lemma_strip_back(s: Seq<char>, c: char, b: int)
    requires
        0 <= b <= s.len(),
        forall|j: int| b <= j < s.len() ==> s[j] == c,
        b == 0 || s[b - 1] != c,
    ensures
        strip_back(s, c) == s.subrange(0, b),
    decreases s.len() - b,
{
    if b < s.len() {
        assert(s.drop_last().subrange(0, b) == s.subrange(0, b));
        lemma_strip_back(s.drop_last(), c, b);
    } else {
        assert(s.subrange(0, b) == s);
    }
}

/// `s` with `c` trimmed from both ends.
pub fn trim_char_str(s: &str, c: char) -> (r: &str)
    ensures
        r@ == trim_char(s@, c),
{
    let n = s.unicode_len();
    let mut a: usize = 0;
    while a < n && s.get_char(a) == c
        invariant
            a <= n == s@.len(),
            forall|j: int| 0 <= j < a ==> s@[j] == c,
        decreases n - a,
    {
        a = a + 1;
    }
    proof {
        lemma_strip_front(s@, c, a as int);
    }
    let ghost front = s@.subrange(a as int, n as int);
    let mut b: usize = n;
    while b > a && s.get_char(b - 1) == c
        invariant
            a <= b <= n == s@.len(),
            front == s@.subrange(a as int, n as int),
            forall|j: int| b <= j < n ==> s@[j] == c,
        decreases b,
    {
        b = b - 1;
    }
    proof {
        assert forall|j: int| b - a <= j < front.len() implies front[j] == c by {
            assert(front[j] == s@[a + j]);
        }
        if b > a {
            assert(front[b - a - 1] == s@[b - 1]);
        }
        lemma_strip_back(front, c, b - a);
        assert(front.subrange(0, b - a) == s@.subrange(a as int, b as int));
    }
    s.substring_char(a, b)
}

/// Whether `s` holds the character `c`.
fn has_char(s: &str, c: char) -> (r: bool)
    ensures
        r == s@.contains(c),
{
    let n = s.unicode_len();
    let mut i: usize = 0;
    while i < n
        invariant
            i <= n == s@.len(),
            forall|j: int| 0 <= j < i ==> s@[j] != c,
        decreases n - i,
    {
        if s.get_char(i) == c {
            return true;
        }
        i = i + 1;
    }
    false
}

/// Reads the command in a line that surrounding whitespace was already
/// trimmed from.
pub fn parse_command(line: &str) -> (r: Command)
    ensures
        r == command_of(line@),
{
    proof {
        reveal_strlit("q");
    }
    if line.unicode_len() == 0 {
        Command::End
    } else if has_char(line, 's') {
        match parse_index(trim_char_str(line, 's')) {
            Some(n) => Command::ShowPath(n),
            None => Command::Invalid,
        }
    } else if line.unicode_len() == 1 && line.get_char(0) == 'q' {
        assert(line@ =~= seq!['q']);
        Command::End
    } else if has_char(line, 'l') {
        match parse_index(trim_char_str(line, 'l')) {
            Some(n) => Command::OpenParent(n),
            None => Command::Invalid,
        }
    } else {
        match parse_index(line) {
            Some(n) => Command::Open(n),
            None => Command::Invalid,
        }
    }
}

} // verus!
