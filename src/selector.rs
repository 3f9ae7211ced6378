//! The decisions of the interactive menu: yes/no answers, menu choices, and
//! what the menu shows and builds.

use vstd::prelude::*;
use crate::profile::{Profile, ProfileView};
use crate::text::{chars_of, lemma_trim_unchanged, trim, trim_range, trim_str};

verus! {

/// What `str::to_lowercase` gives for `s`.
pub uninterp spec fn lower_of(s: Seq<char>) -> Seq<char>;

/// Relies on `str::to_lowercase`: its result depends on the characters alone.
#[verifier::external_body]
fn lowercase(s: &str) -> (r: String)
    ensures
        r@ == lower_of(s@),
{
    s.to_lowercase()
}

/// A lower-cased answer that says yes: once trimmed, `y` or anything that
/// starts with `yes`.
pub open spec fn affirmative_lowered(lowered: Seq<char>) -> bool {
    let t = trim(lowered);
    t == seq!['y'] || (t.len() >= 3 && t.take(3) == seq!['y', 'e', 's'])
}

/// An answer that says yes: not empty, and affirmative once lower-cased.
pub open spec fn affirmative(answer: Seq<char>) -> bool {
    answer.len() > 0 && affirmative_lowered(lower_of(answer))
}

/// Whether an answer that is already lower-cased says yes.
pub fn is_affirmative_lowered(lowered: &str) -> (r: bool)
    ensures
        r == affirmative_lowered(lowered@),
{
    let v = chars_of(lowered);
    let (a, b) = trim_range(&v, 0, v.len());
    assert(v@.subrange(0, v@.len() as int) =~= lowered@);
    let ghost t = v@.subrange(a as int, b as int);
    if b - a == 1 && v[a] == 'y' {
        assert(t =~= seq!['y']);
        return true;
    }
    if b - a >= 3 && v[a] == 'y' && v[a + 1] == 'e' && v[a + 2] == 's' {
        assert(t.take(3) =~= seq!['y', 'e', 's']);
        return true;
    }
    assert(t.len() == 1 ==> t[0] == v@[a as int]);
    assert(t.len() >= 3 ==> t.take(3)[0] == v@[a as int] && t.take(3)[1] == v@[a + 1]
        && t.take(3)[2] == v@[a + 2]);
    false
}

/// Whether the answer to a yes/no question says yes. An empty answer says no.
pub fn is_choise_positive(input: &str) -> (r: bool)
    ensures
        r == affirmative(input@),
{
    if input.is_empty() {
        return false;
    }
    let lowered = lowercase(input);
    is_affirmative_lowered(lowered.as_str())
}

/// A decimal digit.
pub open spec fn is_digit(c: char) -> bool {
    '0' <= c && c <= '9'
}

/// A non-empty run of decimal digits.
pub open spec fn all_digits(s: Seq<char>) -> bool {
    s.len() > 0 && forall|i: int| 0 <= i < s.len() ==> is_digit(s[i])
}

/// The value of a run of decimal digits.
pub open spec fn digits_value(s: Seq<char>) -> nat
    decreases s.len(),
{
    if s.len() == 0 {
        0
    } else {
        digits_value(s.drop_last()) * 10 + (s.last() as nat - '0' as nat) as nat
    }
}

/// The text of an unsigned number as `usize::from_str` accepts it: digits,
/// with an optional leading `+`.
pub open spec fn number_text(s: Seq<char>) -> bool {
    all_digits(s) || (s.len() > 1 && s[0] == '+' && all_digits(s.drop_first()))
}

/// The value of an unsigned number's text.
pub open spec fn number_value(s: Seq<char>) -> nat {
    if s.len() > 0 && s[0] == '+' {
        digits_value(s.drop_first())
    } else {
        digits_value(s)
    }
}

/// A run of digits is worth at least any of its prefixes.
proof fn lemma_digits_value_prefix(s: Seq<char>, i: int)
    requires
        0 <= i <= s.len(),
    ensures
        digits_value(s.take(i)) <= digits_value(s),
    decreases s.len() - i,
{
    if i < s.len() {
        lemma_digits_value_prefix(s, i + 1);
        assert(s.take(i + 1).drop_last() =~= s.take(i));
    } else {
        assert(s.take(i) =~= s);
    }
}

/// The number that `v[start..end]` spells, as `usize::from_str` reads it, or
/// `None` where it spells none or one above `usize::MAX`.
fn parse_number(v: &Vec<char>, start: usize, end: usize) -> (r: Option<usize>)
    requires
        start <= end <= v@.len(),
    ensures
        ({
            let s = v@.subrange(start as int, end as int);
            r == if number_text(s) && number_value(s) <= usize::MAX {
                Some(number_value(s) as usize)
            } else {
                None::<usize>
            }
        }),
{
    let ghost s = v@.subrange(start as int, end as int);
    let mut i: usize = start;
    if i < end && v[i] == '+' {
        i = i + 1;
    }
    let first = i;
    let ghost d = v@.subrange(first as int, end as int);
    assert(s.len() > 0 && s[0] == '+' ==> d =~= s.drop_first());
    assert(!(s.len() > 0 && s[0] == '+') ==> d =~= s);
    assert(number_text(s) ==> all_digits(d)) by {
        if s.len() > 0 && s[0] == '+' {
            assert(!is_digit(s[0]));
        }
    }
    assert(all_digits(d) ==> number_text(s) && number_value(s) == digits_value(d));
    if first == end {
        return None;
    }
    let mut value: usize = 0;
    while i < end
        invariant
            first < end <= v@.len(),
            first <= i <= end,
            d == v@.subrange(first as int, end as int),
            s == v@.subrange(start as int, end as int),
            number_text(s) ==> all_digits(d),
            all_digits(d) ==> number_text(s) && number_value(s) == digits_value(d),
            forall|j: int| first <= j < i ==> is_digit(v@[j]),
            value == digits_value(d.take(i - first)),
        decreases end - i,
    {
        let c = v[i];
        if !('0' <= c && c <= '9') {
            assert(!is_digit(d[i - first]));
            return None;
        }
        let digit = (c as u32 - '0' as u32) as usize;
        assert(d.take(i + 1 - first).drop_last() =~= d.take(i - first));
        assert(digits_value(d.take(i + 1 - first)) == value * 10 + digit);
        if value > (usize::MAX - digit) / 10 {
            proof {
                lemma_digits_value_prefix(d, i + 1 - first);
            }
            assert(value * 10 + digit > usize::MAX) by (nonlinear_arith)
                requires
                    value > (usize::MAX - digit) / 10,
                    digit <= 9,
            ;
            return None;
        }
        assert(value * 10 + digit <= usize::MAX) by (nonlinear_arith)
            requires
                value <= (usize::MAX - digit) / 10,
                digit <= 9,
        ;
        value = value * 10 + digit;
        i = i + 1;
    }
    assert(d.take(end - first) =~= d);
    assert(all_digits(d));
    Some(value)
}

/// What the menu does with one answer.
#[derive(Debug, PartialEq, Eq, Structural)]
pub enum MenuAction {
    /// Ask for a new profile and append it, then show the menu again.
    AddProfile,
    /// Leave without changing anything.
    Quit,
    /// Make the profile at this position (from zero) the repository's identity.
    Apply(usize),
    /// The answer is neither a command nor a number: show the menu again.
    InvalidInput,
    /// The number names no listed profile: show the menu again.
    InvalidChoice(usize),
}

/// The action for an answer to a menu that lists `count` profiles. Once
/// trimmed, `a` or `A` adds a profile, `q` or `Q` quits, and a number from 1 to
/// `count` applies that profile.
pub open spec fn menu_action(count: nat, answer: Seq<char>) -> MenuAction {
    let t = trim(answer);
    if t == seq!['a'] || t == seq!['A'] {
        MenuAction::AddProfile
    } else if t == seq!['q'] || t == seq!['Q'] {
        MenuAction::Quit
    } else if !number_text(t) || number_value(t) > usize::MAX {
        MenuAction::InvalidInput
    } else if 1 <= number_value(t) && number_value(t) <= count {
        MenuAction::Apply((number_value(t) - 1) as usize)
    } else {
        MenuAction::InvalidChoice(number_value(t) as usize)
    }
}

/// The action for an answer to a menu that lists `count` profiles.
pub fn menu_choice(count: usize, answer: &str) -> (r: MenuAction)
    ensures
        r == menu_action(count as nat, answer@),
{
    let v = chars_of(answer);
    let (a, b) = trim_range(&v, 0, v.len());
    assert(v@.subrange(0, v@.len() as int) =~= answer@);
    let ghost t = v@.subrange(a as int, b as int);
    if b - a == 1 {
        let c = v[a];
        assert(t =~= seq![c]);
        assert(seq!['a'][0] == 'a' && seq!['A'][0] == 'A');
        assert(seq!['q'][0] == 'q' && seq!['Q'][0] == 'Q');
        if c == 'a' || c == 'A' {
            return MenuAction::AddProfile;
        }
        if c == 'q' || c == 'Q' {
            return MenuAction::Quit;
        }
    }
    match parse_number(&v, a, b) {
        None => MenuAction::InvalidInput,
        Some(n) => {
            if 1 <= n && n <= count {
                MenuAction::Apply(n - 1)
            } else {
                MenuAction::InvalidChoice(n)
            }
        },
    }
}

/// The action for an answer given while `profiles` are on file. With none on
/// file the question is whether to add one: yes adds, anything else quits.
/// Otherwise the answer is a menu choice.
pub fn dispatch_options(profiles: &[Profile], answer: &str) -> (r: MenuAction)
    ensures
        r == if profiles@.len() == 0 {
            if affirmative(answer@) {
                MenuAction::AddProfile
            } else {
                MenuAction::Quit
            }
        } else {
            menu_action(profiles@.len(), answer@)
        },
{
    if profiles.len() == 0 {
        if is_choise_positive(answer) {
            MenuAction::AddProfile
        } else {
            MenuAction::Quit
        }
    } else {
        menu_choice(profiles.len(), answer)
    }
}

/// How the menu shows a profile: `name (email)`, then ` -> description`
/// where there is a description.
pub open spec fn menu_label_spec(p: ProfileView) -> Seq<char> {
    let base = p.name + " ("@ + p.email + ")"@;
    if p.description.len() == 0 {
        base
    } else {
        base + " -> "@ + p.description
    }
}

/// The text that shows `profile` in the menu.
pub fn menu_label(profile: &Profile) -> (r: String)
    ensures
        r@ == menu_label_spec(profile@),
{
    let mut r = String::from_str(profile.name.as_str());
    r.append(" (");
    r.append(profile.email.as_str());
    r.append(")");
    if !profile.description.as_str().is_empty() {
        r.append(" -> ");
        r.append(profile.description.as_str());
    }
    r
}

/// A profile from the three answers given when one is created, each trimmed.
pub fn profile_from_answers(name: &str, email: &str, description: &str) -> (r: Profile)
    ensures
        r@ == (ProfileView { name: trim(name@), email: trim(email@), description: trim(description@) }),
{
    Profile { name: trim_str(name), email: trim_str(email), description: trim_str(description) }
}

/// For a menu of `count` profiles, a number typed as digits selects the
/// profile at that position when it is from 1 to `count`, and is refused
/// otherwise (0 and `count + 1` included), so that the menu is shown again.
pub proof fn lemma_menu_number_bounds(count: nat, answer: Seq<char>)
    requires
        all_digits(answer),
        digits_value(answer) <= usize::MAX,
    ensures
        1 <= digits_value(answer) <= count ==> menu_action(count, answer) == MenuAction::Apply(
            (digits_value(answer) - 1) as usize,
        ),
        !(1 <= digits_value(answer) <= count) ==> menu_action(count, answer)
            == MenuAction::InvalidChoice(digits_value(answer) as usize),
{
    lemma_trim_unchanged(answer);
    assert(answer[0] != 'a' && answer[0] != 'A' && answer[0] != 'q' && answer[0] != 'Q');
    assert(seq!['a'][0] == 'a' && seq!['A'][0] == 'A');
    assert(seq!['q'][0] == 'q' && seq!['Q'][0] == 'Q');
}

/// An answer that, once trimmed, is neither a menu command nor the text of a
/// number is refused, so that the menu is shown again.
pub proof fn lemma_menu_rejects_other_text(count: nat, answer: Seq<char>)
    requires
        trim(answer) != seq!['a'],
        trim(answer) != seq!['A'],
        trim(answer) != seq!['q'],
        trim(answer) != seq!['Q'],
        !number_text(trim(answer)),
    ensures
        menu_action(count, answer) == MenuAction::InvalidInput,
{
}

/// The decimal digit `d`, for `d` below 10.
pub open spec fn digit_char(d: nat) -> char {
    if d == 0 {
        '0'
    } else if d == 1 {
        '1'
    } else if d == 2 {
        '2'
    } else if d == 3 {
        '3'
    } else if d == 4 {
        '4'
    } else if d == 5 {
        '5'
    } else if d == 6 {
        '6'
    } else if d == 7 {
        '7'
    } else if d == 8 {
        '8'
    } else {
        '9'
    }
}

/// `n` written in decimal, without leading zeros.
pub open spec fn decimal(n: nat) -> Seq<char>
    decreases n,
{
    if n < 10 {
        seq![digit_char(n)]
    } else {
        decimal(n / 10).push(digit_char(n % 10))
    }
}

/// The decimal digit `d` as text.
fn digit_text(d: usize) -> (r: String)
    requires
        d < 10,
    ensures
        r@ == seq![digit_char(d as nat)],
{
    proof {
        reveal_strlit("0");
        reveal_strlit("1");
        reveal_strlit("2");
        reveal_strlit("3");
        reveal_strlit("4");
        reveal_strlit("5");
        reveal_strlit("6");
        reveal_strlit("7");
        reveal_strlit("8");
        reveal_strlit("9");
    }
    let r = if d == 0 {
        String::from_str("0")
    } else if d == 1 {
        String::from_str("1")
    } else if d == 2 {
        String::from_str("2")
    } else if d == 3 {
        String::from_str("3")
    } else if d == 4 {
        String::from_str("4")
    } else if d == 5 {
        String::from_str("5")
    } else if d == 6 {
        String::from_str("6")
    } else if d == 7 {
        String::from_str("7")
    } else if d == 8 {
        String::from_str("8")
    } else {
        String::from_str("9")
    };
    assert(r@ =~= seq![digit_char(d as nat)]);
    r
}

/// `n` written in decimal.
pub fn decimal_text(n: usize) -> (r: String)
    ensures
        r@ == decimal(n as nat),
    decreases n,
{
    if n < 10 {
        digit_text(n)
    } else {
        let mut r = decimal_text(n / 10);
        let last = digit_text(n % 10);
        r.append(last.as_str());
        assert(r@ =~= decimal(n as nat));
        r
    }
}

/// The menu line that offers the profile `p` under the number `number`.
pub open spec fn menu_entry_spec(number: nat, p: ProfileView) -> Seq<char> {
    "  ["@ + decimal(number) + "] "@ + menu_label_spec(p)
}

/// The menu line that offers to add a profile.
pub open spec fn add_line() -> Seq<char> {
    "  [a] Add a new profile"@
}

/// The menu line that offers to quit.
pub open spec fn quit_line() -> Seq<char> {
    "  [q] Quit"@
}

/// The lines of the menu for `profiles`: each profile under its number, from
/// 1, in order, then the line to add a profile and the line to quit.
pub fn menu_lines(profiles: &[Profile]) -> (r: Vec<String>)
    ensures
        r@.len() == profiles@.len() + 2,
        forall|i: int|
            0 <= i < profiles@.len() ==> #[trigger] r@[i]@ == menu_entry_spec(
                (i + 1) as nat,
                profiles@[i]@,
            ),
        r@[profiles@.len() as int]@ == add_line(),
        r@[profiles@.len() + 1int]@ == quit_line(),
{
    let mut r: Vec<String> = Vec::new();
    let mut i: usize = 0;
    while i < profiles.len()
        invariant
            i <= profiles@.len(),
            r@.len() == i,
            forall|j: int|
                0 <= j < i ==> #[trigger] r@[j]@ == menu_entry_spec((j + 1) as nat, profiles@[j]@),
        decreases profiles@.len() - i,
    {
        let mut line = String::from_str("  [");
        let number = decimal_text(i + 1);
        line.append(number.as_str());
        line.append("] ");
        let label = menu_label(&profiles[i]);
        line.append(label.as_str());
        r.push(line);
        i = i + 1;
    }
    r.push(String::from_str("  [a] Add a new profile"));
    r.push(String::from_str("  [q] Quit"));
    r
}

} // verus!
