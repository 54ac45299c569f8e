use vstd::prelude::*;

use crate::player::Player;

verus! {

/// Least number of characters of the kill counter: shorter counts are
/// padded with leading zeros.
pub const KILLS_WIDTH: usize = 4;

/// How the HUD draws one heart.
#[derive(Clone, Copy, PartialEq, Eq, Structural, Debug)]
pub enum HeartState {
    /// A hit point the player still has.
    Full,
    /// The player's last remaining hit point: drawn pulsing.
    Pulsing,
    /// A hit point already lost: drawn greyed out.
    Lost,
}

/// The state of heart `i` when the player has `hp` hit points.
pub open spec fn heart_state(i: int, hp: int) -> HeartState {
    if i < hp {
        if i == hp - 1 {
            HeartState::Pulsing
        } else {
            HeartState::Full
        }
    } else {
        HeartState::Lost
    }
}

/// One heart per maximum hit point, left to right: the hearts below the
/// current hit points are full, the rightmost of them pulsing, and the rest
/// lost.
pub fn heart_states<B>(player: &Player<B>) -> (v: Vec<HeartState>)
    ensures
        v@.len() == (if player.max_hp > 0 { player.max_hp as int } else { 0 }),
        forall|i: int| 0 <= i < v@.len() ==> #[trigger] v@[i] == heart_state(i, player.hp as int),
        forall|i: int| 0 <= i < v@.len() ==> (#[trigger] v@[i] == HeartState::Pulsing) == (i == player.hp - 1),
        forall|i: int| 0 <= i < v@.len() ==> (#[trigger] v@[i] == HeartState::Lost) == (i >= player.hp),
        forall|i: int| 0 <= i < v@.len() ==> (#[trigger] v@[i] == HeartState::Full) == (i < player.hp - 1),
{
    let mut v: Vec<HeartState> = Vec::new();
    let mut i: i32 = 0;
    while i < player.max_hp
        invariant
            0 <= i,
            player.max_hp > 0 ==> i <= player.max_hp,
            player.max_hp <= 0 ==> i == 0,
            v@.len() == i,
            forall|k: int| 0 <= k < v@.len() ==> #[trigger] v@[k] == heart_state(k, player.hp as int),
        decreases player.max_hp - i,
    {
        let state = if i < player.hp {
            if i == player.hp - 1 {
                HeartState::Pulsing
            } else {
                HeartState::Full
            }
        } else {
            HeartState::Lost
        };
        v.push(state);
        i = i + 1;
    }
    proof {
        assert forall|k: int| 0 <= k < v@.len() implies #[trigger] v@[k] == heart_state(k, player.hp as int) by {}
        assert forall|k: int| 0 <= k < v@.len() implies ((#[trigger] v@[k] == HeartState::Pulsing) == (k == player.hp - 1)
            && (v@[k] == HeartState::Lost) == (k >= player.hp) && (v@[k] == HeartState::Full) == (k < player.hp - 1)) by {
            lemma_heart_state(k, player.hp as int);
        }
    }
    v
}

/// Of the hearts, those below the hit points are alive and the others lost;
/// among the alive ones exactly the rightmost (the last remaining life)
/// pulses, and it pulses whenever the player has any life left.
pub proof fn lemma_heart_state(i: int, hp: int)
    requires
        0 <= i,
    ensures
        (heart_state(i, hp) == HeartState::Pulsing) == (i == hp - 1),
        (heart_state(i, hp) == HeartState::Lost) == (i >= hp),
        (heart_state(i, hp) == HeartState::Full) == (i < hp - 1),
        hp >= 1 ==> heart_state(hp - 1, hp) == HeartState::Pulsing,
{
}

/// The character of a decimal digit.
pub open spec fn digit_char(d: int) -> char {
    if d == 0 {
        '0'
    } else if d == 1 {
        '1'
    } else if d == 2 {
        '2'
    } else if d == 3 {
        '3'
    } else if d == 4 {
        '4'
    } else if d == 5 {
        '5'
    } else if d == 6 {
        '6'
    } else if d == 7 {
        '7'
    } else if d == 8 {
        '8'
    } else {
        '9'
    }
}

/// The value of a digit character (its position among `'0'..='9'`).
pub open spec fn char_value(c: char) -> int {
    if c == '1' {
        1
    } else if c == '2' {
        2
    } else if c == '3' {
        3
    } else if c == '4' {
        4
    } else if c == '5' {
        5
    } else if c == '6' {
        6
    } else if c == '7' {
        7
    } else if c == '8' {
        8
    } else if c == '9' {
        9
    } else {
        0
    }
}

/// The decimal digits of `n`, most significant first, with no leading zero
/// (zero itself is the single digit `0`).
pub open spec fn decimal(n: nat) -> Seq<char>
    decreases n,
{
    if n < 10 {
        seq![digit_char(n as int)]
    } else {
        decimal(n / 10).push(digit_char((n % 10) as int))
    }
}

/// The number that a string of decimal digits denotes.
pub open spec fn decimal_value(s: Seq<char>) -> int
    decreases s.len(),
{
    if s.len() == 0 {
        0
    } else {
        decimal_value(s.drop_last()) * 10 + char_value(s.last())
    }
}

/// The kill counter as the HUD prints it: the decimal digits of `kills`,
/// padded with leading zeros to at least four characters.
pub open spec fn kills_text(kills: nat) -> Seq<char> {
    let d = decimal(kills);
    if d.len() < KILLS_WIDTH {
        Seq::new((KILLS_WIDTH - d.len()) as nat, |i: int| '0') + d
    } else {
        d
    }
}

/// The one-character string of a decimal digit.
fn digit_str(d: u32) -> (s: &'static str)
    requires
        d < 10,
    ensures
        s@ == seq![digit_char(d as int)],
{
    proof {
        reveal_strlit("0");
        reveal_strlit("1");
        reveal_strlit("2");
        reveal_strlit("3");
        reveal_strlit("4");
        reveal_strlit("5");
        reveal_strlit("6");
        reveal_strlit("7");
        reveal_strlit("8");
        reveal_strlit("9");
    }
    if d == 0 {
        "0"
    } else if d == 1 {
        "1"
    } else if d == 2 {
        "2"
    } else if d == 3 {
        "3"
    } else if d == 4 {
        "4"
    } else if d == 5 {
        "5"
    } else if d == 6 {
        "6"
    } else if d == 7 {
        "7"
    } else if d == 8 {
        "8"
    } else {
        "9"
    }
}

/// Appends the decimal digits of `n` to `s`.
fn push_decimal(s: &mut String, n: u32)
    ensures
        final(s)@ == old(s)@ + decimal(n as nat),
    decreases n,
{
    if n >= 10 {
        push_decimal(s, n / 10);
    }
    s.append(digit_str(n % 10));
    proof {
        if n >= 10 {
            assert(old(s)@ + decimal((n / 10) as nat) + seq![digit_char((n % 10) as int)] =~= old(s)@
                + decimal(n as nat));
        } else {
            assert(n % 10 == n);
            assert(old(s)@ + seq![digit_char((n % 10) as int)] =~= old(s)@ + decimal(n as nat));
        }
    }
}

/// Number of decimal digits of `n`.
fn decimal_len(n: u32) -> (len: usize)
    ensures
        len == decimal(n as nat).len(),
        1 <= len <= n + 1,
    decreases n,
{
    if n >= 10 {
        let rest = decimal_len(n / 10);
        assert(decimal(n as nat).len() == decimal((n / 10) as nat).len() + 1);
        1 + rest
    } else {
        1
    }
}

/// The kill counter as the HUD prints it: at least four characters, zero
/// padded (`7` gives `"0007"`, `12345` gives `"12345"`).
pub fn kills_label(kills: u32) -> (s: String)
    ensures
        s@ == kills_text(kills as nat),
{
    let len = decimal_len(kills);
    let mut s = String::new();
    let mut pad: usize = 0;
    let ghost padding = if len < KILLS_WIDTH {
        Seq::new((KILLS_WIDTH - len) as nat, |i: int| '0')
    } else {
        Seq::<char>::empty()
    };
    while len < KILLS_WIDTH && pad < KILLS_WIDTH - len
        invariant
            1 <= len,
            len < KILLS_WIDTH ==> pad <= KILLS_WIDTH - len,
            len >= KILLS_WIDTH ==> pad == 0,
            s@ == Seq::new(pad as nat, |i: int| '0'),
        decreases KILLS_WIDTH - pad,
    {
        proof {
            reveal_strlit("0");
        }
        s.append("0");
        pad = pad + 1;
        proof {
            assert(s@ =~= Seq::new(pad as nat, |i: int| '0'));
        }
    }
    proof {
        assert(s@ =~= padding);
    }
    push_decimal(&mut s, kills);
    s
}

/// Decimal digits denote the number they were written from.
pub proof fn lemma_decimal_value(n: nat)
    ensures
        decimal_value(decimal(n)) == n,
        decimal(n).len() >= 1,
    decreases n,
{
    if n >= 10 {
        lemma_decimal_value(n / 10);
        let d = decimal(n);
        assert(d.drop_last() =~= decimal(n / 10));
        assert(d.last() == digit_char((n % 10) as int));
        assert(char_value(digit_char((n % 10) as int)) == n % 10);
        assert(n == (n / 10) * 10 + n % 10);
        assert(decimal_value(d) == decimal_value(d.drop_last()) * 10 + char_value(d.last()));
    } else {
        let d = decimal(n);
        assert(d.drop_last() =~= Seq::<char>::empty());
        assert(decimal_value(Seq::<char>::empty()) == 0);
        assert(char_value(digit_char(n as int)) == n);
        assert(decimal_value(d) == decimal_value(d.drop_last()) * 10 + char_value(d.last()));
    }
}

/// Leading zeros do not change the number a digit string denotes.
pub proof fn lemma_leading_zeros(m: nat, s: Seq<char>)
    ensures
        decimal_value(Seq::new(m, |i: int| '0') + s) == decimal_value(s),
    decreases s.len(), m,
{
    let z = Seq::new(m, |i: int| '0');
    if s.len() == 0 {
        assert(z + s =~= z);
        if m > 0 {
            assert(z.drop_last() =~= Seq::new((m - 1) as nat, |i: int| '0'));
            lemma_leading_zeros((m - 1) as nat, s);
            assert(Seq::new((m - 1) as nat, |i: int| '0') + s =~= Seq::new((m - 1) as nat, |i: int| '0'));
        }
    } else {
        assert((z + s).drop_last() =~= z + s.drop_last());
        lemma_leading_zeros(m, s.drop_last());
    }
}

/// The kill counter reads back as the kill count, and is exactly four
/// characters long while the count is below 10000.
pub proof fn lemma_kills_text(kills: nat)
    ensures
        decimal_value(kills_text(kills)) == kills,
        kills_text(kills).len() >= KILLS_WIDTH,
        kills < 10000 ==> kills_text(kills).len() == KILLS_WIDTH,
{
    lemma_decimal_value(kills);
    let d = decimal(kills);
    if d.len() < KILLS_WIDTH {
        lemma_leading_zeros((KILLS_WIDTH - d.len()) as nat, d);
    }
    lemma_decimal_len_bound(kills);
}

/// Each digit character is the ASCII digit of its value.
pub proof fn lemma_digit_chars(d: int, c: char)
    ensures
        0 <= d <= 9 ==> digit_char(d) as int == 48 + d,
        48 <= c as int <= 57 ==> char_value(c) == c as int - 48,
{
}

/// Every character of the decimal digits of `n` is an ASCII digit, and the
/// first one is not `0` unless `n` is zero.
pub proof fn lemma_decimal_digits(n: nat)
    ensures
        forall|i: int| 0 <= i < decimal(n).len() ==> 48 <= #[trigger] decimal(n)[i] as int <= 57,
        n >= 1 ==> decimal(n)[0] != '0',
    decreases n,
{
    if n >= 10 {
        lemma_decimal_digits(n / 10);
        lemma_decimal_value(n / 10);
        let d = decimal(n);
        assert(d.drop_last() =~= decimal(n / 10));
        assert forall|i: int| 0 <= i < d.len() implies 48 <= #[trigger] d[i] as int <= 57 by {
            if i < d.len() - 1 {
                assert(d[i] == decimal(n / 10)[i]);
            } else {
                lemma_digit_chars((n % 10) as int, ' ');
            }
        }
        assert(d[0] == decimal(n / 10)[0]);
    } else {
        lemma_digit_chars(n as int, ' ');
    }
}

/// The value that a string of ASCII digits denotes, read left to right.
pub proof fn lemma_value_is_fold(s: Seq<char>)
    requires
        forall|i: int| 0 <= i < s.len() ==> 48 <= #[trigger] s[i] as int <= 57,
    ensures
        decimal_value(s) == s.fold_left(0int, |acc: int, c: char| acc * 10 + (c as int - 48)),
    decreases s.len(),
{
    if s.len() > 0 {
        let t = s.drop_last();
        assert forall|i: int| 0 <= i < t.len() implies 48 <= #[trigger] t[i] as int <= 57 by {
            assert(t[i] == s[i]);
        }
        lemma_value_is_fold(t);
        lemma_digit_chars(0, s.last());
    }
}

/// The kill counter is at least four ASCII digits that, read as a decimal
/// number, give the kill count; it has no leading zero beyond the padding to
/// four characters.
pub proof fn lemma_kills_text_digits(kills: nat)
    ensures
        forall|i: int| 0 <= i < kills_text(kills).len() ==> 48 <= #[trigger] kills_text(kills)[i] as int <= 57,
        kills_text(kills).fold_left(0int, |acc: int, c: char| acc * 10 + (c as int - 48)) == kills,
        kills_text(kills).len() >= 4,
        kills_text(kills).len() > 4 ==> kills_text(kills)[0] != '0',
{
    lemma_kills_text(kills);
    lemma_decimal_digits(kills);
    let d = decimal(kills);
    let t = kills_text(kills);
    if d.len() < KILLS_WIDTH {
        let z = Seq::new((KILLS_WIDTH - d.len()) as nat, |i: int| '0');
        assert forall|i: int| 0 <= i < t.len() implies 48 <= #[trigger] t[i] as int <= 57 by {
            if i < z.len() {
                assert(t[i] == '0');
            } else {
                assert(t[i] == d[i - z.len()]);
            }
        }
    } else {
        if d.len() > 4 {
            lemma_decimal_len_bound(kills);
        }
    }
    lemma_value_is_fold(t);
}

/// A number below `10^k` has at most `k` digits, for the first few `k`.
pub proof fn lemma_decimal_len_bound(n: nat)
    ensures
        n < 10 ==> decimal(n).len() == 1,
        n < 100 ==> decimal(n).len() <= 2,
        n < 1000 ==> decimal(n).len() <= 3,
        n < 10000 ==> decimal(n).len() <= 4,
    decreases n,
{
    if n >= 10 {
        lemma_decimal_len_bound(n / 10);
        assert(decimal(n).len() == decimal(n / 10).len() + 1);
    }
}

} // verus!
