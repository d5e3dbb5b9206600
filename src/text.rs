//! Number and text formatting used by the bar renderer, in exact integer
//! arithmetic.
use vstd::prelude::*;
use vstd::string::StringExecFns;

verus! {

/// The decimal digit `d` (taken modulo ten) as a character.
pub open spec fn digit_char(d: nat) -> char {
    let d = d % 10;
    if d == 0 {
        '0'
    } else if d == 1 {
        '1'
    } else if d == 2 {
        '2'
    } else if d == 3 {
        '3'
    } else if d == 4 {
        '4'
    } else if d == 5 {
        '5'
    } else if d == 6 {
        '6'
    } else if d == 7 {
        '7'
    } else if d == 8 {
        '8'
    } else {
        '9'
    }
}

/// Decimal notation of `n`, without leading zeros.
pub open spec fn dec(n: nat) -> Seq<char>
    decreases n,
{
    if n < 10 {
        seq![digit_char(n)]
    } else {
        dec(n / 10).push(digit_char(n % 10))
    }
}

/// The integer nearest to `a / b`; a tie goes to the even neighbour.
pub open spec fn round_div(a: nat, b: nat) -> nat {
    let q = a / b;
    let r = a % b;
    if 2 * r > b || (2 * r == b && q % 2 == 1) {
        q + 1
    } else {
        q
    }
}

/// A number given in hundredths, written with two decimals.
pub open spec fn fixed2(h: nat) -> Seq<char> {
    dec(h / 100) + seq!['.', digit_char((h % 100) / 10), digit_char(h % 10)]
}

/// `1024` to the power `k`.
pub open spec fn pow1024(k: nat) -> nat
    decreases k,
{
    if k == 0 {
        1
    } else {
        1024 * pow1024((k - 1) as nat)
    }
}

/// The quantity `num / den` of bytes, scaled to the largest unit among
/// KB, MB, GB and TB (base 1024) that it reaches, with two decimals; below
/// one KB, a whole number of bytes.
pub open spec fn scaled(num: nat, den: nat) -> Seq<char> {
    if num >= pow1024(4) * den {
        fixed2(round_div(num * 100, den * pow1024(4))) + seq![' ', 'T', 'B']
    } else if num >= pow1024(3) * den {
        fixed2(round_div(num * 100, den * pow1024(3))) + seq![' ', 'G', 'B']
    } else if num >= pow1024(2) * den {
        fixed2(round_div(num * 100, den * pow1024(2))) + seq![' ', 'M', 'B']
    } else if num >= pow1024(1) * den {
        fixed2(round_div(num * 100, den * pow1024(1))) + seq![' ', 'K', 'B']
    } else {
        dec(round_div(num, den)) + seq![' ', 'B']
    }
}

/// `s` written `n` times in a row.
pub open spec fn repeat(s: Seq<char>, n: nat) -> Seq<char>
    decreases n,
{
    if n == 0 {
        Seq::empty()
    } else {
        repeat(s, (n - 1) as nat) + s
    }
}

/// The parts, separated by single spaces.
pub open spec fn join_parts(parts: Seq<Seq<char>>) -> Seq<char>
    decreases parts.len(),
{
    if parts.len() == 0 {
        Seq::empty()
    } else if parts.len() == 1 {
        parts[0]
    } else {
        join_parts(parts.drop_last()) + seq![' '] + parts.last()
    }
}

/// `s` followed by enough spaces to fill `width` columns; `s` itself when
/// it already fills them.
pub open spec fn padded(s: Seq<char>, width: nat) -> Seq<char> {
    if s.len() < width {
        s + spaces((width - s.len()) as nat)
    } else {
        s
    }
}

/// Joined parts start with the first part.
pub proof fn lemma_join_first(parts: Seq<Seq<char>>)
    requires
        parts.len() > 0,
    ensures
        join_parts(parts).len() >= parts[0].len(),
        join_parts(parts).subrange(0, parts[0].len() as int) == parts[0],
    decreases parts.len(),
{
    if parts.len() > 1 {
        let p = parts.drop_last();
        lemma_join_first(p);
        let j = join_parts(p);
        assert((j + seq![' '] + parts.last()).subrange(0, parts[0].len() as int) =~= j.subrange(
            0,
            parts[0].len() as int,
        ));
    } else {
        assert(join_parts(parts).subrange(0, parts[0].len() as int) =~= parts[0]);
    }
}

/// `n` spaces.
pub open spec fn spaces(n: nat) -> Seq<char> {
    Seq::new(n, |i: int| ' ')
}

/// `s` repeated `n` times is `n` times as long.
pub proof fn lemma_repeat(s: Seq<char>, n: nat)
    ensures
        repeat(s, n).len() == n * s.len(),
    decreases n,
{
    if n > 0 {
        lemma_repeat(s, (n - 1) as nat);
        assert(repeat(s, n).len() == n * s.len()) by (nonlinear_arith)
            requires
                repeat(s, n).len() == repeat(s, (n - 1) as nat).len() + s.len(),
                repeat(s, (n - 1) as nat).len() == (n - 1) * s.len(),
                n > 0,
        ;
    } else {
        assert(n * s.len() == 0) by (nonlinear_arith)
            requires
                n == 0,
        ;
    }
}

/// Below one KB, a byte count is written as a whole number of bytes.
pub proof fn lemma_scaled_bytes(n: nat)
    requires
        n < 1024,
    ensures
        scaled(n, 1) == dec(n) + seq![' ', 'B'],
{
    reveal_with_fuel(pow1024, 2);
    assert(round_div(n, 1) == n);
}

/// A whole KB is written `1.00 KB`.
pub proof fn lemma_scaled_one_kb()
    ensures
        scaled(1024, 1) == seq!['1', '.', '0', '0', ' ', 'K', 'B'],
{
    lemma_pow1024();
    assert(round_div(102400, 1024) == 100);
    reveal_with_fuel(dec, 2);
    assert(dec(1) == seq!['1']);
    assert(fixed2(100) =~= seq!['1', '.', '0', '0']);
    assert(scaled(1024, 1) =~= seq!['1', '.', '0', '0', ' ', 'K', 'B']);
}

fn digit_str(d: u128) -> (r: &'static str)
    requires
        d < 10,
    ensures
        r@ == seq![digit_char(d as nat)],
{
    proof {
        reveal_strlit("0");
        reveal_strlit("1");
        reveal_strlit("2");
        reveal_strlit("3");
        reveal_strlit("4");
        reveal_strlit("5");
        reveal_strlit("6");
        reveal_strlit("7");
        reveal_strlit("8");
        reveal_strlit("9");
    }
    if d == 0 {
        "0"
    } else if d == 1 {
        "1"
    } else if d == 2 {
        "2"
    } else if d == 3 {
        "3"
    } else if d == 4 {
        "4"
    } else if d == 5 {
        "5"
    } else if d == 6 {
        "6"
    } else if d == 7 {
        "7"
    } else if d == 8 {
        "8"
    } else {
        "9"
    }
}

/// Appends the decimal notation of `n`.
pub fn push_dec(out: &mut String, n: u128)
    ensures
        final(out)@ == old(out)@ + dec(n as nat),
    decreases n,
{
    if n >= 10 {
        push_dec(out, n / 10);
    }
    out.append(digit_str(n % 10));
    proof {
        assert(old(out)@ + dec(n as nat) =~= final(out)@);
    }
}

/// The integer nearest to `a / b`, a tie going to the even neighbour.
pub fn round_div_exec(a: u128, b: u128) -> (r: u128)
    requires
        b > 0,
    ensures
        r == round_div(a as nat, b as nat),
{
    let q = a / b;
    let r = a % b;
    if r > b - r || (r == b - r && q % 2 == 1) {
        assert(q < u128::MAX) by (nonlinear_arith)
            requires
                b >= 2,
                q == a / b,
        ;
        q + 1
    } else {
        q
    }
}

/// Appends a number given in hundredths with two decimals.
pub fn push_fixed2(out: &mut String, h: u128)
    ensures
        final(out)@ == old(out)@ + fixed2(h as nat),
{
    proof {
        reveal_strlit(".");
    }
    push_dec(out, h / 100);
    out.append(".");
    out.append(digit_str((h % 100) / 10));
    out.append(digit_str(h % 10));
    proof {
        assert(final(out)@ =~= old(out)@ + fixed2(h as nat));
    }
}

proof fn lemma_pow1024()
    ensures
        pow1024(1) == 1024,
        pow1024(2) == 1048576,
        pow1024(3) == 1073741824,
        pow1024(4) == 1099511627776,
{
    reveal_with_fuel(pow1024, 5);
}

/// Appends `num / den` bytes in the units of `scaled`.
pub fn push_scaled(out: &mut String, num: u128, den: u128)
    requires
        0 < den <= u64::MAX,
        num <= u64::MAX * 1_000_000_000,
    ensures
        final(out)@ == old(out)@ + scaled(num as nat, den as nat),
{
    proof {
        lemma_pow1024();
        reveal_strlit(" TB");
        reveal_strlit(" GB");
        reveal_strlit(" MB");
        reveal_strlit(" KB");
        reveal_strlit(" B");
        assert(den * 1099511627776 <= u64::MAX * 1099511627776) by (nonlinear_arith)
            requires
                den <= u64::MAX,
        ;
    }
    let ghost before = out@;
    if num >= 1099511627776 * den {
        push_fixed2(out, round_div_exec(num * 100, den * 1099511627776));
        out.append(" TB");
    } else if num >= 1073741824 * den {
        push_fixed2(out, round_div_exec(num * 100, den * 1073741824));
        out.append(" GB");
    } else if num >= 1048576 * den {
        push_fixed2(out, round_div_exec(num * 100, den * 1048576));
        out.append(" MB");
    } else if num >= 1024 * den {
        push_fixed2(out, round_div_exec(num * 100, den * 1024));
        out.append(" KB");
    } else {
        push_dec(out, round_div_exec(num, den));
        out.append(" B");
    }
    proof {
        assert(out@ =~= before + scaled(num as nat, den as nat));
    }
}

/// A byte count in the largest of the units B, KB, MB, GB and TB that it
/// reaches: `1024` is `"1.00 KB"`, `1000` is `"1000 B"`.
pub fn kb_fmt(n: u64) -> (r: String)
    ensures
        r@ == scaled(n as nat, 1),
{
    let mut out = String::new();
    push_scaled(&mut out, n as u128, 1);
    out
}

/// Appends `s` written `n` times.
pub fn push_repeat(out: &mut String, s: &str, n: usize)
    ensures
        final(out)@ == old(out)@ + repeat(s@, n as nat),
{
    let ghost start = out@;
    let mut i: usize = 0;
    while i < n
        invariant
            i <= n,
            out@ == start + repeat(s@, i as nat),
        decreases n - i,
    {
        out.append(s);
        i = i + 1;
        proof {
            assert(out@ =~= start + repeat(s@, i as nat));
        }
    }
}

/// Appends spaces until `out` fills `width` columns.
pub fn pad_to(out: &mut String, width: usize)
    ensures
        final(out)@ == padded(old(out)@, width as nat),
{
    proof {
        reveal_strlit(" ");
    }
    let size = out.as_str().unicode_len();
    if size < width {
        let gap = width - size;
        let ghost start = out@;
        push_repeat(out, " ", gap);
        proof {
            lemma_repeat_space(gap as nat);
            assert(out@ =~= padded(start, width as nat));
        }
    }
}

proof fn lemma_repeat_space(n: nat)
    ensures
        repeat(" "@, n) =~= spaces(n),
    decreases n,
{
    reveal_strlit(" ");
    if n > 0 {
        lemma_repeat_space((n - 1) as nat);
    }
}

} // verus!
