//! Standard backgammon notation for a play (`8/5 6/5`, `bar/20`, `6/off`),
//! and the decimal numerals it is written with.

use vstd::prelude::*;

use crate::board::{Move, Play, BAR_SENTINEL, MAX_MOVES_PER_PLAY, OFF_SENTINEL};

verus! {

/// The character of a decimal digit.
pub open spec fn digit_char(d: int) -> char
    recommends
        0 <= d < 10,
{
    seq!['0', '1', '2', '3', '4', '5', '6', '7', '8', '9'][d]
}

/// The decimal numeral of `n`, without leading zeros.
pub open spec fn decimal(n: nat) -> Seq<char>
    decreases n,
{
    if n < 10 {
        seq![digit_char(n as int)]
    } else {
        decimal(n / 10).push(digit_char((n % 10) as int))
    }
}

/// The decimal numeral of `x`, with a leading `-` when it is negative.
pub open spec fn signed_decimal(x: int) -> Seq<char> {
    if x < 0 {
        seq!['-'] + decimal((-x) as nat)
    } else {
        decimal(x as nat)
    }
}

/// `k` zeros.
pub open spec fn zeros(k: nat) -> Seq<char> {
    Seq::new(k, |i: int| '0')
}

/// The decimal numeral of `n`, padded with leading zeros to at least `width`
/// characters.
pub open spec fn padded_decimal(n: nat, width: nat) -> Seq<char> {
    let digits = decimal(n);
    if digits.len() < width {
        zeros((width - digits.len()) as nat) + digits
    } else {
        digits
    }
}

/// A numeral has at least one digit.
pub proof fn lemma_decimal_nonempty(n: nat)
    ensures
        decimal(n).len() >= 1,
    decreases n,
{
    if n >= 10 {
        lemma_decimal_nonempty(n / 10);
    }
}

fn digit_text(d: u64) -> (s: &'static str)
    requires
        d < 10,
    ensures
        s@ == seq![digit_char(d as int)],
{
    proof {
        reveal_strlit("0");
        reveal_strlit("1");
        reveal_strlit("2");
        reveal_strlit("3");
        reveal_strlit("4");
        reveal_strlit("5");
        reveal_strlit("6");
        reveal_strlit("7");
        reveal_strlit("8");
        reveal_strlit("9");
    }
    let s = if d == 0 {
        "0"
    } else if d == 1 {
        "1"
    } else if d == 2 {
        "2"
    } else if d == 3 {
        "3"
    } else if d == 4 {
        "4"
    } else if d == 5 {
        "5"
    } else if d == 6 {
        "6"
    } else if d == 7 {
        "7"
    } else if d == 8 {
        "8"
    } else {
        "9"
    };
    assert(s@ =~= seq![digit_char(d as int)]);
    s
}

/// Appends the decimal numeral of `n`.
pub fn push_decimal(out: &mut String, n: u64)
    ensures
        final(out)@ == old(out)@ + decimal(n as nat),
    decreases n,
{
    if n >= 10 {
        push_decimal(out, n / 10);
    }
    let d = digit_text(n % 10);
    out.append(d);
    proof {
        if n >= 10 {
            assert(decimal(n as nat) == decimal((n / 10) as nat).push(digit_char((n % 10) as int)));
        }
    }
    assert(out@ =~= old(out)@ + decimal(n as nat));
}

/// Appends the decimal numeral of `n`, with leading zeros up to `width`
/// characters.
pub fn push_padded(out: &mut String, n: u64, width: u64)
    ensures
        final(out)@ == old(out)@ + padded_decimal(n as nat, width as nat),
{
    let mut digits = String::new();
    push_decimal(&mut digits, n);
    assert(digits@ == decimal(n as nat));
    let len = count_digits(n);
    let ghost start = out@;
    if len < width {
        let mut k: u64 = 0;
        let pad = width - len;
        while k < pad
            invariant
                k <= pad,
                pad == width - len,
                out@ == start + zeros(k as nat),
            decreases pad - k,
        {
            proof {
                reveal_strlit("0");
            }
            out.append("0");
            assert(zeros((k + 1) as nat) =~= zeros(k as nat) + "0"@);
            k += 1;
        }
    }
    out.append(digits.as_str());
    assert(out@ =~= start + padded_decimal(n as nat, width as nat));
}

/// The number of decimal digits of `n`.
fn count_digits(n: u64) -> (len: u64)
    ensures
        len == decimal(n as nat).len(),
    decreases n,
{
    if n < 10 {
        1
    } else {
        proof {
            lemma_decimal_nonempty((n / 10) as nat);
            lemma_decimal_short((n / 10) as nat);
        }
        count_digits(n / 10) + 1
    }
}

/// A numeral of a `u64` has at most twenty digits.
proof fn lemma_decimal_short(n: nat)
    requires
        n <= u64::MAX,
    ensures
        decimal(n).len() <= 20,
{
    reveal_with_fuel(pow10, 21);
    assert(pow10(20) == 100000000000000000000nat);
    lemma_decimal_len_bound(n, 20);
}

proof fn lemma_decimal_len_bound(n: nat, k: nat)
    requires
        k >= 1,
        n < pow10(k),
    ensures
        decimal(n).len() <= k,
    decreases k,
{
    if n >= 10 {
        assert(n / 10 < pow10((k - 1) as nat)) by {
            if k == 1 {
                assert(pow10(1) == 10 * pow10(0));
            }
            assert(pow10(k) == 10 * pow10((k - 1) as nat));
        }
        if k == 1 {
            assert(pow10(1) == 10 * pow10(0));
        }
        lemma_decimal_len_bound(n / 10, (k - 1) as nat);
    }
}

/// `a` comes before `b` in the order strings compare by: at the first place
/// where they differ `a` has the smaller character, or `a` is a proper prefix
/// of `b`.
pub open spec fn text_before(a: Seq<char>, b: Seq<char>) -> bool {
    ||| exists|i: int|
        0 <= i < a.len() && i < b.len() && a.take(i) == b.take(i) && (a[i] as int) < (
        #[trigger] b[i] as int)
    ||| a.len() < b.len() && a == b.take(a.len() as int)
}

/// A common prefix and whatever follows keep the order of two texts of the
/// same length.
pub proof fn lemma_text_before_within(
    prefix: Seq<char>,
    a: Seq<char>,
    b: Seq<char>,
    c: Seq<char>,
    d: Seq<char>,
)
    requires
        a.len() == b.len(),
        text_before(a, b),
    ensures
        text_before(prefix + a + c, prefix + b + d),
{
    let i = choose|i: int|
        0 <= i < a.len() && i < b.len() && a.take(i) == b.take(i) && (a[i] as int) < (
        #[trigger] b[i] as int);
    let x = prefix + a + c;
    let y = prefix + b + d;
    let k = prefix.len() + i;
    assert(x.take(k) =~= prefix + a.take(i));
    assert(y.take(k) =~= prefix + b.take(i));
    assert(x[k] == a[i] && y[k] == b[i]);
}

/// A common prefix keeps the order of two texts.
pub proof fn lemma_text_before_after_prefix(prefix: Seq<char>, a: Seq<char>, b: Seq<char>)
    requires
        text_before(a, b),
    ensures
        text_before(prefix + a, prefix + b),
{
    let x = prefix + a;
    let y = prefix + b;
    if exists|i: int|
        0 <= i < a.len() && i < b.len() && a.take(i) == b.take(i) && (a[i] as int) < (
        #[trigger] b[i] as int) {
        let i = choose|i: int|
            0 <= i < a.len() && i < b.len() && a.take(i) == b.take(i) && (a[i] as int) < (
            #[trigger] b[i] as int);
        let k = prefix.len() + i;
        assert(x.take(k) =~= prefix + a.take(i));
        assert(y.take(k) =~= prefix + b.take(i));
        assert(x[k] == a[i] && y[k] == b[i]);
    } else {
        assert(x =~= y.take(x.len() as int));
    }
}

/// `w` digits of `n`: its last `w` decimal digits, leading zeros included.
pub open spec fn fixed_digits(n: nat, w: nat) -> Seq<char>
    decreases w,
{
    if w == 0 {
        Seq::empty()
    } else {
        fixed_digits(n / 10, (w - 1) as nat).push(digit_char((n % 10) as int))
    }
}

proof fn lemma_fixed_digits_of_zero(w: nat)
    ensures
        fixed_digits(0, w) =~= zeros(w),
    decreases w,
{
    if w > 0 {
        lemma_fixed_digits_of_zero((w - 1) as nat);
    }
}

/// Below `10^w`, the numeral padded to `w` characters is the `w` digits.
proof fn lemma_padded_is_fixed(n: nat, w: nat)
    requires
        w >= 1,
        n < pow10(w),
    ensures
        padded_decimal(n, w) == fixed_digits(n, w),
        fixed_digits(n, w).len() == w,
    decreases w,
{
    if n < 10 {
        lemma_fixed_digits_of_zero((w - 1) as nat);
        assert(padded_decimal(n, w) =~= fixed_digits(n, w));
    } else {
        assert(pow10(w) == 10 * pow10((w - 1) as nat));
        assert(w >= 2) by {
            if w == 1 {
                assert(pow10(1) == 10 * pow10(0));
            }
        }
        lemma_padded_is_fixed(n / 10, (w - 1) as nat);
        lemma_decimal_len_bound(n / 10, (w - 1) as nat);
        lemma_decimal_nonempty(n / 10);
        assert(padded_decimal(n, w) =~= padded_decimal(n / 10, (w - 1) as nat).push(
            digit_char((n % 10) as int),
        ));
    }
}

/// Digits are in the order of their values.
proof fn lemma_digit_order(a: int, b: int)
    requires
        0 <= a < b < 10,
    ensures
        (digit_char(a) as int) < (digit_char(b) as int),
{
    assert(digit_char(0) as int == 48);
    assert(digit_char(1) as int == 49);
    assert(digit_char(2) as int == 50);
    assert(digit_char(3) as int == 51);
    assert(digit_char(4) as int == 52);
    assert(digit_char(5) as int == 53);
    assert(digit_char(6) as int == 54);
    assert(digit_char(7) as int == 55);
    assert(digit_char(8) as int == 56);
    assert(digit_char(9) as int == 57);
}

proof fn lemma_fixed_digits_order(n1: nat, n2: nat, w: nat)
    requires
        n1 < n2 < pow10(w),
    ensures
        text_before(fixed_digits(n1, w), fixed_digits(n2, w)),
        fixed_digits(n1, w).len() == w,
        fixed_digits(n2, w).len() == w,
    decreases w,
{
    lemma_fixed_digits_len(n1, w);
    lemma_fixed_digits_len(n2, w);
    if w == 0 {
        assert(false);
    } else {
        assert(pow10(w) == 10 * pow10((w - 1) as nat));
        let w1 = (w - 1) as nat;
        let a = fixed_digits(n1, w);
        let b = fixed_digits(n2, w);
        if n1 / 10 < n2 / 10 {
            lemma_fixed_digits_order(n1 / 10, n2 / 10, w1);
            lemma_text_before_within(
                Seq::empty(),
                fixed_digits(n1 / 10, w1),
                fixed_digits(n2 / 10, w1),
                seq![digit_char((n1 % 10) as int)],
                seq![digit_char((n2 % 10) as int)],
            );
            assert(a =~= Seq::<char>::empty() + fixed_digits(n1 / 10, w1) + seq![
                digit_char((n1 % 10) as int),
            ]);
            assert(b =~= Seq::<char>::empty() + fixed_digits(n2 / 10, w1) + seq![
                digit_char((n2 % 10) as int),
            ]);
        } else {
            assert(n1 / 10 == n2 / 10);
            assert(n1 % 10 < n2 % 10);
            lemma_digit_order((n1 % 10) as int, (n2 % 10) as int);
            let i = w1 as int;
            assert(a.take(i) =~= fixed_digits(n1 / 10, w1));
            assert(b.take(i) =~= fixed_digits(n2 / 10, w1));
            assert(a[i] == digit_char((n1 % 10) as int));
            assert(b[i] == digit_char((n2 % 10) as int));
        }
    }
}

proof fn lemma_fixed_digits_len(n: nat, w: nat)
    ensures
        fixed_digits(n, w).len() == w,
    decreases w,
{
    if w > 0 {
        lemma_fixed_digits_len(n / 10, (w - 1) as nat);
    }
}

/// Numerals padded to a common width `w` that both fit in it are in the order
/// of their values, and both are `w` characters long.
pub proof fn lemma_padded_order(n1: nat, n2: nat, w: nat)
    requires
        w >= 1,
        n1 < n2 < pow10(w),
    ensures
        text_before(padded_decimal(n1, w), padded_decimal(n2, w)),
        padded_decimal(n1, w).len() == w,
        padded_decimal(n2, w).len() == w,
{
    lemma_padded_is_fixed(n1, w);
    lemma_padded_is_fixed(n2, w);
    lemma_fixed_digits_order(n1, n2, w);
}

/// Ten to the `k`.
pub open spec fn pow10(k: nat) -> nat
    decreases k,
{
    if k == 0 {
        1
    } else {
        10 * pow10((k - 1) as nat)
    }
}

/// Appends the decimal numeral of `x`, signed.
pub fn push_signed(out: &mut String, x: i64)
    ensures
        final(out)@ == old(out)@ + signed_decimal(x as int),
{
    if x < 0 {
        proof {
            reveal_strlit("-");
        }
        out.append("-");
        let magnitude: u64 = if x == i64::MIN {
            9223372036854775808u64
        } else {
            (-x) as u64
        };
        push_decimal(out, magnitude);
        assert(out@ =~= old(out)@ + signed_decimal(x as int));
    } else {
        push_decimal(out, x as u64);
    }
}

/// The code of each digit's character: `'0'` is 48, and each next digit one
/// more.
pub proof fn lemma_digit_codes(d: int)
    requires
        0 <= d < 10,
    ensures
        digit_char(d) as int == 48 + d,
{
    assert(digit_char(0) as int == 48);
    assert(digit_char(1) as int == 49);
    assert(digit_char(2) as int == 50);
    assert(digit_char(3) as int == 51);
    assert(digit_char(4) as int == 52);
    assert(digit_char(5) as int == 53);
    assert(digit_char(6) as int == 54);
    assert(digit_char(7) as int == 55);
    assert(digit_char(8) as int == 56);
    assert(digit_char(9) as int == 57);
}

/// The number that a string of digits denotes, read from the left.
pub open spec fn digits_value(s: Seq<char>) -> int {
    s.fold_left(0int, |value: int, c: char| value * 10 + (c as int - 48))
}

/// A numeral denotes its number: read back digit by digit, `decimal(n)` is
/// `n`, and it is made of digits only.
pub proof fn lemma_decimal_denotes(n: nat)
    ensures
        digits_value(decimal(n)) == n,
        forall|i: int| 0 <= i < decimal(n).len() ==> 48 <= #[trigger] (decimal(n)[i] as int) <= 57,
    decreases n,
{
    let s = decimal(n);
    lemma_decimal_nonempty(n);
    assert(digits_value(s) == digits_value(s.drop_last()) * 10 + (s.last() as int - 48));
    if n < 10 {
        lemma_digit_codes(n as int);
        assert(s.drop_last() =~= Seq::<char>::empty());
        assert(digits_value(Seq::<char>::empty()) == 0);
    } else {
        lemma_decimal_denotes(n / 10);
        lemma_digit_codes((n % 10) as int);
        assert(s.drop_last() =~= decimal(n / 10));
        assert(digits_value(s) == digits_value(decimal(n / 10)) * 10 + (n % 10)) by {
            assert(s.last() == digit_char((n % 10) as int));
        }
        assert(forall|i: int| 0 <= i < decimal(n / 10).len() ==> s[i] == decimal(n / 10)[i]);
    }
}

proof fn lemma_zeros_denote_nothing(k: nat, s: Seq<char>)
    ensures
        digits_value(zeros(k) + s) == digits_value(s),
    decreases s.len(), k,
{
    if s.len() == 0 {
        assert(zeros(k) + s =~= zeros(k));
        if k > 0 {
            assert(zeros(k).drop_last() =~= zeros((k - 1) as nat) + Seq::<char>::empty());
            lemma_zeros_denote_nothing((k - 1) as nat, Seq::<char>::empty());
            assert(zeros((k - 1) as nat) + Seq::<char>::empty() =~= zeros((k - 1) as nat));
            assert(digits_value(Seq::<char>::empty()) == 0);
            assert(('0' as int) == 48);
        } else {
            assert(zeros(0) =~= Seq::<char>::empty());
        }
    } else {
        let t = zeros(k) + s;
        assert(t.drop_last() =~= zeros(k) + s.drop_last());
        lemma_zeros_denote_nothing(k, s.drop_last());
        assert(t.last() == s.last());
    }
}

/// A padded numeral denotes its number and is as wide as asked, or wider
/// when the number needs more digits.
pub proof fn lemma_padded_denotes(n: nat, w: nat)
    ensures
        digits_value(padded_decimal(n, w)) == n,
        padded_decimal(n, w).len() == if decimal(n).len() < w { w } else { decimal(n).len() },
{
    lemma_decimal_denotes(n);
    if decimal(n).len() < w {
        lemma_zeros_denote_nothing((w - decimal(n).len()) as nat, decimal(n));
    }
}

/// One move is written `from/to`; a second follows after a single space.
pub proof fn lemma_moves_written_in_order(m1: Move, m2: Move)
    ensures
        moves_text(seq![m1]) == point_text(m1.src) + seq!['/'] + point_text(m1.dst),
        moves_text(seq![m1, m2]) == point_text(m1.src) + seq!['/'] + point_text(m1.dst) + seq![
            ' ',
        ] + point_text(m2.src) + seq!['/'] + point_text(m2.dst),
{
    let two = seq![m1, m2];
    assert(two.drop_last() =~= seq![m1]);
    assert(two.last() == m2);
    assert(seq![m1][0] == m1);
    assert(moves_text(seq![m1]) == move_text(m1));
    assert(moves_text(two) == moves_text(seq![m1]) + seq![' '] + move_text(m2));
    assert(moves_text(seq![m1, m2]) =~= point_text(m1.src) + seq!['/'] + point_text(m1.dst)
        + seq![' '] + point_text(m2.src) + seq!['/'] + point_text(m2.dst));
}

/// A point index is written as its number counted from 1, and the words `bar`
/// and `off` are written only for the bar and off sentinels: no numeral starts
/// with a letter.
pub proof fn lemma_points_are_numbered(slot: i32)
    ensures
        0 <= slot <= 23 ==> point_text(slot) == decimal((slot + 1) as nat),
        0 <= slot <= 23 ==> digits_value(point_text(slot)) == slot + 1,
        point_text(slot).len() >= 1,
        point_text(slot)[0] == 'o' <==> slot == OFF_SENTINEL,
        point_text(slot)[0] == 'b' <==> slot == BAR_SENTINEL,
{
    lemma_decimal_nonempty((slot + 1) as nat);
    lemma_decimal_denotes((slot + 1) as nat);
    if slot < -2 {
        lemma_decimal_nonempty((-(slot + 1)) as nat);
    }
    assert('o' as int == 111 && 'b' as int == 98 && '-' as int == 45);
}

/// How a board slot is written: `bar`, `off`, or the point counted from 1.
pub open spec fn point_text(slot: i32) -> Seq<char> {
    if slot == BAR_SENTINEL {
        seq!['b', 'a', 'r']
    } else if slot == OFF_SENTINEL {
        seq!['o', 'f', 'f']
    } else {
        signed_decimal(slot + 1)
    }
}

/// One checker move: `from/to`.
pub open spec fn move_text(m: Move) -> Seq<char> {
    point_text(m.src) + seq!['/'] + point_text(m.dst)
}

/// The moves written in order and separated by single spaces.
pub open spec fn moves_text(moves: Seq<Move>) -> Seq<char>
    decreases moves.len(),
{
    if moves.len() == 0 {
        Seq::empty()
    } else if moves.len() == 1 {
        move_text(moves[0])
    } else {
        moves_text(moves.drop_last()) + seq![' '] + move_text(moves.last())
    }
}

/// The moves that a play makes.
pub open spec fn played_moves(play: Play) -> Seq<Move> {
    play.moves@.take(play.num_moves as int)
}

/// A play that notation can be written for: its move count is one the move
/// array holds, and no slot is the last `i32` (counted from 1 it would not fit).
pub open spec fn is_writable(play: Play) -> bool {
    &&& 0 <= play.num_moves <= MAX_MOVES_PER_PLAY
    &&& forall|i: int|
        0 <= i < play.num_moves ==> play.moves[i].src < i32::MAX && play.moves[i].dst < i32::MAX
}

/// Whether notation can be written for `play`.
pub fn writable(play: &Play) -> (ok: bool)
    ensures
        ok == is_writable(*play),
{
    if play.num_moves < 0 || play.num_moves > 4 {
        return false;
    }
    let n = play.num_moves as usize;
    let mut i: usize = 0;
    while i < n
        invariant
            i <= n,
            n == play.num_moves,
            0 <= play.num_moves <= MAX_MOVES_PER_PLAY,
            forall|j: int|
                0 <= j < i ==> play.moves[j].src < i32::MAX && play.moves[j].dst < i32::MAX,
        decreases n - i,
    {
        if play.moves[i].src == i32::MAX || play.moves[i].dst == i32::MAX {
            return false;
        }
        i += 1;
    }
    true
}

fn push_point(out: &mut String, slot: i32)
    requires
        slot < i32::MAX,
    ensures
        final(out)@ == old(out)@ + point_text(slot),
{
    proof {
        reveal_strlit("bar");
        reveal_strlit("off");
    }
    if slot == BAR_SENTINEL {
        out.append("bar");
    } else if slot == OFF_SENTINEL {
        out.append("off");
    } else {
        // PureTD indexes 0..23; players count points 1..24.
        push_signed(out, (slot + 1) as i64);
    }
    assert(out@ =~= old(out)@ + point_text(slot));
}

/// Standard notation for one play: `8/5 6/5`, `bar/20`, `6/off`.
pub fn notation(play: &Play) -> (text: String)
    requires
        is_writable(*play),
    ensures
        text@ == moves_text(played_moves(*play)),
{
    let mut text = String::new();
    let n = play.num_moves as usize;
    let ghost moves = played_moves(*play);
    let mut i: usize = 0;
    while i < n
        invariant
            i <= n,
            n == play.num_moves,
            is_writable(*play),
            moves == played_moves(*play),
            text@ == moves_text(moves.take(i as int)),
        decreases n - i,
    {
        let ghost before = text@;
        proof {
            reveal_strlit(" ");
            reveal_strlit("/");
        }
        if i > 0 {
            text.append(" ");
        }
        let m = play.moves[i];
        push_point(&mut text, m.src);
        text.append("/");
        push_point(&mut text, m.dst);
        proof {
            assert(moves.take(i + 1).drop_last() =~= moves.take(i as int));
            assert(moves.take(i + 1).last() == m);
            if i == 0 {
                assert(before =~= Seq::<char>::empty());
                assert(text@ =~= move_text(m));
            } else {
                assert(text@ =~= before + seq![' '] + move_text(m));
            }
        }
        i += 1;
    }
    assert(moves.take(n as int) =~= moves);
    text
}

} // verus!
