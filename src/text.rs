//! Text of numbers and indentation in the emitted target program.
use vstd::prelude::*;

verus! {

pub open spec fn digit_char(d: nat) -> char {
    if d == 0 { '0' }
    else if d == 1 { '1' }
    else if d == 2 { '2' }
    else if d == 3 { '3' }
    else if d == 4 { '4' }
    else if d == 5 { '5' }
    else if d == 6 { '6' }
    else if d == 7 { '7' }
    else if d == 8 { '8' }
    else { '9' }
}

/// Decimal digits of `n`, most significant first, without leading zeros.
pub open spec fn digits(n: nat) -> Seq<char>
    decreases n,
{
    if n < 10 {
        seq![digit_char(n)]
    } else {
        digits(n / 10).push(digit_char(n % 10))
    }
}

/// Decimal text of an integer, with a leading `-` when it is negative.
pub open spec fn int_text(n: int) -> Seq<char> {
    if n < 0 {
        seq!['-'] + digits((-n) as nat)
    } else {
        digits(n as nat)
    }
}

pub open spec fn zeros(k: nat) -> Seq<char> {
    Seq::new(k, |i: int| '0')
}

/// `s` padded on the left with zeros to at least `w` characters.
pub open spec fn pad_zero(s: Seq<char>, w: nat) -> Seq<char> {
    if s.len() >= w { s } else { zeros((w - s.len()) as nat) + s }
}

/// Text of a statement label: decimal, zero-padded to a width of three,
/// the sign counted in the width.
pub open spec fn label_text(n: int) -> Seq<char> {
    if n < 0 {
        seq!['-'] + pad_zero(digits((-n) as nat), 2)
    } else {
        pad_zero(digits(n as nat), 3)
    }
}

/// Four spaces for each nesting level.
pub open spec fn indent_text(indent: nat) -> Seq<char> {
    Seq::new(4 * indent, |i: int| ' ')
}

fn digit_str(d: u64) -> (r: &'static str)
    requires
        d < 10,
    ensures
        r@ == seq![digit_char(d as nat)],
{
    proof {
        reveal_strlit("0");
        reveal_strlit("1");
        reveal_strlit("2");
        reveal_strlit("3");
        reveal_strlit("4");
        reveal_strlit("5");
        reveal_strlit("6");
        reveal_strlit("7");
        reveal_strlit("8");
        reveal_strlit("9");
    }
    if d == 0 { "0" }
    else if d == 1 { "1" }
    else if d == 2 { "2" }
    else if d == 3 { "3" }
    else if d == 4 { "4" }
    else if d == 5 { "5" }
    else if d == 6 { "6" }
    else if d == 7 { "7" }
    else if d == 8 { "8" }
    else { "9" }
}

/// Appends the decimal digits of `n`.
pub fn push_digits(out: &mut String, n: u64)
    ensures
        final(out)@ == old(out)@ + digits(n as nat),
    decreases n,
{
    if n >= 10 {
        push_digits(out, n / 10);
    }
    let s = digit_str(n % 10);
    out.append(s);
    proof {
        if n >= 10 {
            assert(final(out)@ =~= old(out)@ + digits(n as nat));
        } else {
            assert(final(out)@ =~= old(out)@ + digits(n as nat));
        }
    }
}

/// Appends the decimal text of `n`.
pub fn push_int(out: &mut String, n: i32)
    ensures
        final(out)@ == old(out)@ + int_text(n as int),
{
    if n < 0 {
        let m: u64 = (0i64 - n as i64) as u64;
        proof {
            reveal_strlit("-");
        }
        out.append("-");
        push_digits(out, m);
        assert(final(out)@ =~= old(out)@ + int_text(n as int));
    } else {
        push_digits(out, n as u64);
    }
}

proof fn lemma_digits_len(n: nat)
    ensures
        digits(n).len() >= 1,
        n < 10 ==> digits(n).len() == 1,
        10 <= n < 100 ==> digits(n).len() == 2,
        n >= 100 ==> digits(n).len() >= 3,
    decreases n,
{
    if n >= 10 {
        lemma_digits_len(n / 10);
    }
}

/// Appends the text of a statement label (see `label_text`).
pub fn push_label(out: &mut String, n: i32)
    ensures
        final(out)@ == old(out)@ + label_text(n as int),
{
    proof {
        reveal_strlit("-");
        reveal_strlit("0");
        reveal_strlit("00");
    }
    let neg = n < 0;
    let m: u64 = if neg { (0i64 - n as i64) as u64 } else { n as u64 };
    let w: u64 = if neg { 2 } else { 3 };
    proof {
        lemma_digits_len(m as nat);
    }
    if neg {
        out.append("-");
    }
    let ghost before = out@;
    if m < 10 && w == 3 {
        out.append("00");
    } else if m < 10 || (m < 100 && w == 3) {
        out.append("0");
    }
    push_digits(out, m);
    proof {
        let d = digits(m as nat);
        if neg {
            assert(pad_zero(d, 2) =~= final(out)@.subrange(before.len() as int, final(out)@.len() as int));
        } else {
            assert(pad_zero(d, 3) =~= final(out)@.subrange(before.len() as int, final(out)@.len() as int));
        }
        assert(final(out)@ =~= old(out)@ + label_text(n as int));
    }
}

/// The indentation of an emitted line: four spaces per nesting level.
pub fn indentation(indent: u8) -> (r: String)
    ensures
        r@ == indent_text(indent as nat),
{
    let mut r = String::new();
    let mut i: u8 = 0;
    proof {
        reveal_strlit("    ");
    }
    while i < indent
        invariant
            i <= indent,
            r@.len() == 4 * i,
            forall|k: int| 0 <= k < r@.len() ==> r@[k] == ' ',
        decreases indent - i,
    {
        proof {
            reveal_strlit("    ");
        }
        r.append("    ");
        i = i + 1;
    }
    assert(r@ =~= indent_text(i as nat));
    r
}

} // verus!
