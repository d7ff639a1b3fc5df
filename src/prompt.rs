//! Decisions on what the user types: a target `user@host`, a line of the
//! line-mode shell, a choice in the connection menu.

use vstd::prelude::*;

verus! {

broadcast use vstd::string::group_string_axioms;

/// A character with the Unicode `White_Space` property (what `char::is_whitespace` tests).
pub open spec fn is_white_space(c: char) -> bool {
    ||| ('\u{9}' <= c && c <= '\u{d}')
    ||| c == ' '
    ||| c == '\u{85}'
    ||| c == '\u{a0}'
    ||| c == '\u{1680}'
    ||| ('\u{2000}' <= c && c <= '\u{200a}')
    ||| c == '\u{2028}'
    ||| c == '\u{2029}'
    ||| c == '\u{202f}'
    ||| c == '\u{205f}'
    ||| c == '\u{3000}'
}

fn white_space(c: char) -> (r: bool)
    ensures
        r == is_white_space(c),
{
    ('\u{9}' <= c && c <= '\u{d}') || c == ' ' || c == '\u{85}' || c == '\u{a0}' || c == '\u{1680}'
        || ('\u{2000}' <= c && c <= '\u{200a}') || c == '\u{2028}' || c == '\u{2029}' || c
        == '\u{202f}' || c == '\u{205f}' || c == '\u{3000}'
}

/// How many white-space characters `s` starts with.
pub open spec fn leading_space(s: Seq<char>) -> nat
    decreases s.len(),
{
    if s.len() > 0 && is_white_space(s[0]) {
        1 + leading_space(s.drop_first())
    } else {
        0
    }
}

/// How many white-space characters `s` ends with.
pub open spec fn trailing_space(s: Seq<char>) -> nat
    decreases s.len(),
{
    if s.len() > 0 && is_white_space(s.last()) {
        1 + trailing_space(s.drop_last())
    } else {
        0
    }
}

/// `s` without its leading and trailing white space.
pub open spec fn trimmed(s: Seq<char>) -> Seq<char> {
    let t = s.skip(leading_space(s) as int);
    t.take(t.len() - trailing_space(t))
}

proof fn lemma_leading_space_at(s: Seq<char>, m: int)
    requires
        0 <= m <= s.len(),
        forall|k: int| 0 <= k < m ==> is_white_space(#[trigger] s[k]),
        m < s.len() ==> !is_white_space(s[m]),
    ensures
        leading_space(s) == m,
    decreases m,
{
    if m > 0 {
        let t = s.drop_first();
        assert forall|k: int| 0 <= k < m - 1 implies is_white_space(#[trigger] t[k]) by {
            assert(t[k] == s[k + 1]);
        }
        lemma_leading_space_at(t, m - 1);
    }
}

proof fn lemma_trailing_space_at(s: Seq<char>, m: int)
    requires
        0 <= m <= s.len(),
        forall|k: int| s.len() - m <= k < s.len() ==> is_white_space(#[trigger] s[k]),
        m < s.len() ==> !is_white_space(s[s.len() - m - 1]),
    ensures
        trailing_space(s) == m,
    decreases m,
{
    if m > 0 {
        let t = s.drop_last();
        assert forall|k: int| t.len() - (m - 1) <= k < t.len() implies is_white_space(
            #[trigger] t[k],
        ) by {
            assert(t[k] == s[k]);
        }
        if m - 1 < t.len() {
            assert(t[t.len() - (m - 1) - 1] == s[s.len() - m - 1]);
        }
        lemma_trailing_space_at(t, m - 1);
    }
}

/// `s` without leading and trailing white space, as `str::trim` gives it.
pub fn trim_text(s: &str) -> (r: &str)
    ensures
        r@ == trimmed(s@),
{
    let n = s.unicode_len();
    let mut a: usize = 0;
    while a < n && white_space(s.get_char(a))
        invariant
            n == s@.len(),
            a <= n,
            forall|k: int| 0 <= k < a ==> is_white_space(#[trigger] s@[k]),
        decreases n - a,
    {
        a = a + 1;
    }
    proof {
        lemma_leading_space_at(s@, a as int);
    }
    let mut b: usize = n;
    while b > a && white_space(s.get_char(b - 1))
        invariant
            n == s@.len(),
            a <= b <= n,
            forall|k: int| b <= k < n ==> is_white_space(#[trigger] s@[k]),
        decreases b,
    {
        b = b - 1;
    }
    proof {
        let t = s@.skip(a as int);
        let m = (n - b) as int;
        assert forall|k: int| t.len() - m <= k < t.len() implies is_white_space(#[trigger] t[k]) by {
            assert(t[k] == s@[k + a]);
        }
        if m < t.len() {
            assert(t[t.len() - m - 1] == s@[b - 1]);
        }
        lemma_trailing_space_at(t, m);
        assert(t.take(t.len() - m) =~= s@.subrange(a as int, b as int));
    }
    s.substring_char(a, b)
}

/// The index of the first `@` in `s`, where there is one.
pub open spec fn first_at(s: Seq<char>) -> Option<int> {
    if exists|i: int| 0 <= i < s.len() && s[i] == '@' {
        Some(choose|i: int| 0 <= i < s.len() && s[i] == '@' && forall|k: int| 0 <= k < i ==> s[k] != '@')
    } else {
        None
    }
}

/// Splits a target `user@host` at its first `@`; `None` where it has none.
pub fn split_target(target: &str) -> (r: Option<(String, String)>)
    ensures
        match first_at(target@) {
            Some(i) => r matches Some((u, h)) && u@ == target@.take(i) && h@ == target@.skip(i + 1),
            None => r is None,
        },
{
    let n = target.unicode_len();
    let mut i: usize = 0;
    while i < n && target.get_char(i) != '@'
        invariant
            n == target@.len(),
            i <= n,
            forall|k: int| 0 <= k < i ==> target@[k] != '@',
        decreases n - i,
    {
        i = i + 1;
    }
    if i == n {
        return None;
    }
    proof {
        let s = target@;
        assert(s[i as int] == '@');
        let j = choose|j: int| 0 <= j < s.len() && s[j] == '@' && forall|k: int| 0 <= k < j ==> s[k] != '@';
        if j < i {
        } else if j > i {
            assert(s[i as int] != '@');
        }
    }
    let user = target.substring_char(0, i).to_string();
    let host = target.substring_char(i + 1, n).to_string();
    assert(target@.subrange(0, i as int) =~= target@.take(i as int));
    Some((user, host))
}

/// What to do with a line typed in the line-mode shell.
#[derive(Clone, Copy, Debug, PartialEq, Eq, Structural)]
pub enum LineAction {
    /// Blank: ask again.
    Skip,
    /// `exit` or `quit`: leave the shell.
    Quit,
    /// Run the trimmed line as a remote command.
    Run,
}

/// A blank line is skipped, `exit` or `quit` (around white space) ends the
/// shell, anything else runs.
pub fn line_action(line: &str) -> (r: LineAction)
    ensures
        r == if trimmed(line@).len() == 0 {
            LineAction::Skip
        } else if trimmed(line@) == "exit"@ || trimmed(line@) == "quit"@ {
            LineAction::Quit
        } else {
            LineAction::Run
        },
{
    let command = trim_text(line);
    if command.unicode_len() == 0 {
        LineAction::Skip
    } else if crate::config::same_text(command, "exit") || crate::config::same_text(command, "quit") {
        LineAction::Quit
    } else {
        LineAction::Run
    }
}

/// A choice in the menu of saved connections.
#[derive(Clone, Copy, Debug, PartialEq, Eq, Structural)]
pub enum MenuAction {
    /// `q` or `Q`: leave.
    Quit,
    /// `0`: type a host by hand.
    Manual,
    /// The connection at this index of the listing (the number typed, less one).
    Select(usize),
    /// Anything else: ask again.
    Invalid,
}

/// The value of a decimal number, with an optional leading `+`, as
/// `usize::from_str` reads it (without its bound).
pub open spec fn decimal_value(s: Seq<char>) -> Option<int> {
    let d = unsigned_part(s);
    if d.len() > 0 && all_digits(d) {
        Some(digits_value(d))
    } else {
        None
    }
}

/// `s` without one leading `+`.
pub open spec fn unsigned_part(s: Seq<char>) -> Seq<char> {
    if s.len() > 0 && s[0] == '+' {
        s.drop_first()
    } else {
        s
    }
}

/// Every character of `d` is a decimal digit.
pub open spec fn all_digits(d: Seq<char>) -> bool {
    forall|k: int| 0 <= k < d.len() ==> '0' <= #[trigger] d[k] && d[k] <= '9'
}

/// The value of a string of decimal digits.
pub open spec fn digits_value(d: Seq<char>) -> int
    decreases d.len(),
{
    if d.len() == 0 {
        0
    } else {
        digits_value(d.drop_last()) * 10 + (d.last() as int - '0' as int)
    }
}

/// The menu's reading of a typed line, with `count` connections listed.
pub open spec fn menu_choice(input: Seq<char>, count: int) -> MenuAction {
    let t = trimmed(input);
    if t == "q"@ || t == "Q"@ {
        MenuAction::Quit
    } else if t == "0"@ {
        MenuAction::Manual
    } else {
        match decimal_value(t) {
            Some(v) => if 1 <= v <= count {
                MenuAction::Select((v - 1) as usize)
            } else {
                MenuAction::Invalid
            },
            None => MenuAction::Invalid,
        }
    }
}

/// Reads a menu choice: `q` to leave, `0` for a host typed by hand, or the
/// number of a listed connection, from 1 to `count`.
pub fn menu_action(input: &str, count: usize) -> (r: MenuAction)
    ensures
        r == menu_choice(input@, count as int),
{
    let t = trim_text(input);
    if crate::config::same_text(t, "q") || crate::config::same_text(t, "Q") {
        return MenuAction::Quit;
    }
    if crate::config::same_text(t, "0") {
        return MenuAction::Manual;
    }
    let n = t.unicode_len();
    let start: usize = if n > 0 && t.get_char(0) == '+' {
        1
    } else {
        0
    };
    let ghost d = unsigned_part(t@);
    assert(d =~= t@.skip(start as int));
    if start == n {
        return MenuAction::Invalid;
    }
    // The value read so far; reading stops once it passes `count`.
    let mut value: usize = 0;
    let mut i: usize = start;
    while i < n
        invariant
            n == t@.len(),
            start <= i <= n,
            d == t@.skip(start as int),
            d == unsigned_part(t@),
            t@ == trimmed(input@),
            t@ != "q"@ && t@ != "Q"@ && t@ != "0"@,
            value <= count,
            value == digits_value(t@.subrange(start as int, i as int)),
            forall|k: int| start <= k < i ==> '0' <= #[trigger] t@[k] && t@[k] <= '9',
        decreases n - i,
    {
        let c = t.get_char(i);
        if c < '0' || c > '9' {
            proof {
                assert(d[i - start] == c);
                assert(!('0' <= d[i - start] && d[i - start] <= '9'));
                assert(!all_digits(d));
            }
            return MenuAction::Invalid;
        }
        let digit = (c as u32 - '0' as u32) as usize;
        let ghost prefix = t@.subrange(start as int, i + 1);
        assert(prefix.drop_last() =~= t@.subrange(start as int, i as int));
        if digit > count || value > (count - digit) / 10 {
            proof {
                assert forall|k: int| 0 <= k < prefix.len() implies '0' <= #[trigger] prefix[k]
                    && prefix[k] <= '9' by {
                    assert(prefix[k] == t@[start + k]);
                }
                assert(digits_value(prefix) == value * 10 + digit);
                if digit <= count {
                    assert(value * 10 + digit > count) by (nonlinear_arith)
                        requires
                            value > (count - digit) / 10,
                            digit <= count,
                    ;
                } else {
                    assert(value * 10 + digit > count) by (nonlinear_arith)
                        requires
                            digit > count,
                            value >= 0,
                    ;
                }
                assert(t@.subrange(start as int, n as int) =~= d);
                if all_digits(d) {
                    assert(d.take(i - start + 1) =~= prefix);
                    lemma_grows_beyond(d, (i - start + 1) as int, count as int);
                }
            }
            return MenuAction::Invalid;
        }
        value = value * 10 + digit;
        i = i + 1;
    }
    proof {
        assert(t@.subrange(start as int, n as int) =~= d);
        assert forall|k: int| 0 <= k < d.len() implies '0' <= #[trigger] d[k] && d[k] <= '9' by {
            assert(d[k] == t@[start + k]);
        }
    }
    if value >= 1 {
        MenuAction::Select(value - 1)
    } else {
        MenuAction::Invalid
    }
}

/// Digits read past a value above `bound` keep it above.
proof fn lemma_grows_beyond(d: Seq<char>, m: int, bound: int)
    requires
        0 < m <= d.len(),
        forall|k: int| 0 <= k < d.len() ==> '0' <= #[trigger] d[k] && d[k] <= '9',
        digits_value(d.take(m)) > bound,
        bound >= 0,
    ensures
        digits_value(d) > bound,
    decreases d.len() - m,
{
    if m < d.len() {
        let p = d.take(m + 1);
        assert(p.drop_last() =~= d.take(m));
        lemma_grows_beyond(d, m + 1, bound);
    } else {
        assert(d.take(m) =~= d);
    }
}

} // verus!
