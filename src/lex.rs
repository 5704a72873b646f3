//! Splitting text into whitespace-separated tokens, and reading decimal
//! integers from tokens.
use vstd::prelude::*;

verus! {

pub open spec fn is_ws(c: char) -> bool {
    c == ' ' || c == '\t' || c == '\n' || c == '\r'
}

/// Tokens completed so far and the token being read, after scanning `s`.
pub open spec fn tok_scan(s: Seq<char>) -> (Seq<Seq<char>>, Seq<char>)
    decreases s.len(),
{
    if s.len() == 0 {
        (seq![], seq![])
    } else {
        let (t, cur) = tok_scan(s.drop_last());
        let c = s.last();
        if is_ws(c) {
            if cur.len() > 0 { (t.push(cur), seq![]) } else { (t, cur) }
        } else {
            (t, cur.push(c))
        }
    }
}

/// The maximal runs of non-whitespace characters of `s`, in order.
pub open spec fn tokens(s: Seq<char>) -> Seq<Seq<char>> {
    let (t, cur) = tok_scan(s);
    if cur.len() > 0 { t.push(cur) } else { t }
}

pub open spec fn strings_model(v: Seq<String>) -> Seq<Seq<char>> {
    v.map_values(|x: String| x@)
}

fn is_ws_byte(s: &str, i: usize) -> (r: bool)
    requires
        s.is_ascii(),
        i < s@.len(),
    ensures
        r == is_ws(s@[i as int]),
{
    let b = s.get_ascii(i);
    let ghost c = s@[i as int];
    assert('\0' <= c <= '\u{7f}');
    b == 32u8 || b == 9u8 || b == 10u8 || b == 13u8
}

/// The tokens of `s`; `None` when `s` holds a character outside ASCII.
pub fn tokenize(s: &str) -> (r: Option<Vec<String>>)
    ensures
        r is None <==> !s.is_ascii(),
        r matches Some(v) ==> strings_model(v@) == tokens(s@),
{
    if !s.is_ascii() {
        return None;
    }
    let n = s.unicode_len();
    let mut toks: Vec<String> = Vec::new();
    let mut start: usize = 0;
    let mut i: usize = 0;
    while i < n
        invariant
            s.is_ascii(),
            n == s@.len(),
            start <= i <= n,
            tok_scan(s@.take(i as int)) == (strings_model(toks@), s@.subrange(start as int, i as int)),
        decreases n - i,
    {
        let ws = is_ws_byte(s, i);
        proof {
            assert(s@.take(i as int + 1).drop_last() =~= s@.take(i as int));
            assert(s@.take(i as int + 1).last() == s@[i as int]);
        }
        if ws {
            if start < i {
                let t = s.substring_ascii(start, i);
                let ts = String::from_str(t);
                let ghost old_toks = toks@;
                toks.push(ts);
                proof {
                    assert(strings_model(toks@) =~= strings_model(old_toks).push(ts@));
                }
            }
            start = i + 1;
        } else {
            proof {
                assert(s@.subrange(start as int, i as int).push(s@[i as int]) =~= s@.subrange(start as int, i as int + 1));
            }
        }
        i = i + 1;
        proof {
            assert(s@.subrange(start as int, i as int).len() == 0 ==> s@.subrange(start as int, i as int) =~= seq![]);
        }
    }
    if start < n {
        let t = s.substring_ascii(start, n);
        let ts = String::from_str(t);
        let ghost old_toks = toks@;
        toks.push(ts);
        proof {
            assert(strings_model(toks@) =~= strings_model(old_toks).push(ts@));
        }
    }
    proof {
        assert(s@.take(n as int) =~= s@);
    }
    Some(toks)
}

pub open spec fn is_digit(c: char) -> bool {
    '0' <= c <= '9'
}

pub open spec fn all_digits(t: Seq<char>) -> bool {
    forall|i: int| 0 <= i < t.len() ==> is_digit(#[trigger] t[i])
}

/// Value of a run of decimal digits.
pub open spec fn dec_value(t: Seq<char>) -> int
    decreases t.len(),
{
    if t.len() == 0 {
        0
    } else {
        dec_value(t.drop_last()) * 10 + (t.last() as int - '0' as int)
    }
}

/// The number that a token of decimal digits stands for, where it fits in
/// an `i32`.
pub open spec fn nat_token(t: Seq<char>) -> Option<i32> {
    if t.len() > 0 && all_digits(t) && dec_value(t) <= i32::MAX {
        Some(dec_value(t) as i32)
    } else {
        None
    }
}

/// The number that a token of decimal digits, with an optional leading
/// `-`, stands for, where it fits in an `i32`.
pub open spec fn int_token(t: Seq<char>) -> Option<i32> {
    if t.len() > 1 && t[0] == '-' {
        let m = t.subrange(1, t.len() as int);
        if all_digits(m) && dec_value(m) <= i32::MAX + 1 {
            Some((-dec_value(m)) as i32)
        } else {
            None
        }
    } else {
        nat_token(t)
    }
}

pub proof fn lemma_dec_value_nonneg(t: Seq<char>)
    requires
        all_digits(t),
    ensures
        dec_value(t) >= 0,
    decreases t.len(),
{
    if t.len() > 0 {
        lemma_dec_value_nonneg(t.drop_last());
    }
}

proof fn lemma_dec_value_mono(t: Seq<char>, k: int)
    requires
        all_digits(t),
        0 <= k <= t.len(),
    ensures
        dec_value(t.take(k)) <= dec_value(t),
    decreases t.len(),
{
    if k < t.len() {
        assert(t.drop_last().take(k) =~= t.take(k));
        lemma_dec_value_mono(t.drop_last(), k);
        lemma_dec_value_nonneg(t.drop_last());
    } else {
        assert(t.take(k) =~= t);
    }
}

proof fn lemma_non_ascii_not_digits(t: Seq<char>)
    ensures
        all_digits(t) ==> vstd::utf8::is_ascii_chars(t),
{
}

/// Value of the digits of `s` from `from` on, where they are all digits and
/// the value is at most `bound`.
fn digits_value(s: &str, from: usize, bound: i64) -> (r: Option<i64>)
    requires
        s.is_ascii(),
        from <= s@.len(),
        10 <= bound <= i32::MAX + 1,
    ensures
        ({
            let t = s@.subrange(from as int, s@.len() as int);
            match r {
                Some(v) => all_digits(t) && v == dec_value(t) && 0 <= v <= bound,
                None => !(all_digits(t) && dec_value(t) <= bound),
            }
        }),
{
    let n = s.unicode_len();
    let ghost t = s@.subrange(from as int, s@.len() as int);
    let mut v: i64 = 0;
    let mut i: usize = from;
    while i < n
        invariant
            s.is_ascii(),
            n == s@.len(),
            from <= i <= n,
            t == s@.subrange(from as int, n as int),
            all_digits(t.take(i - from)),
            v == dec_value(t.take(i - from)),
            0 <= v <= bound,
            10 <= bound <= i32::MAX + 1,
        decreases n - i,
    {
        let b = s.get_ascii(i);
        let ghost c = s@[i as int];
        assert('\0' <= c <= '\u{7f}');
        proof {
            assert(t.take(i - from + 1).drop_last() =~= t.take(i - from));
            assert(t.take(i - from + 1).last() == c);
        }
        if b < 48u8 || b > 57u8 {
            proof {
                assert(!is_digit(t[i - from]));
            }
            return None;
        }
        let d = (b - 48u8) as i64;
        proof {
            assert(d == c as int - '0' as int);
            assert(all_digits(t.take(i - from + 1)));
            assert(dec_value(t.take(i - from + 1)) == v * 10 + d);
        }
        if v > (bound - d) / 10 {
            proof {
                assert(v * 10 + d > bound) by (nonlinear_arith)
                    requires v > (bound - d) / 10, 0 <= d <= 9, bound >= 10;
                if all_digits(t) {
                    lemma_dec_value_mono(t, i - from + 1);
                }
            }
            return None;
        }
        proof {
            assert(v * 10 + d <= bound) by (nonlinear_arith)
                requires v <= (bound - d) / 10, 0 <= d <= 9, bound >= 10;
        }
        v = v * 10 + d;
        i = i + 1;
    }
    proof {
        assert(t.take(n - from) =~= t);
    }
    Some(v)
}

/// Reads a token of decimal digits (see `nat_token`).
pub fn parse_nat(s: &str) -> (r: Option<i32>)
    ensures
        r == nat_token(s@),
{
    if !s.is_ascii() {
        proof {
            lemma_non_ascii_not_digits(s@);
        }
        return None;
    }
    if s.unicode_len() == 0 {
        return None;
    }
    proof {
        assert(s@.subrange(0, s@.len() as int) =~= s@);
    }
    match digits_value(s, 0, i32::MAX as i64) {
        Some(v) => Some(v as i32),
        None => None,
    }
}

/// Reads a token of decimal digits with an optional leading `-` (see
/// `int_token`).
pub fn parse_int(s: &str) -> (r: Option<i32>)
    ensures
        r == int_token(s@),
{
    if !s.is_ascii() {
        proof {
            lemma_non_ascii_not_digits(s@);
            if s@.len() > 1 && s@[0] == '-' {
                let m = s@.subrange(1, s@.len() as int);
                lemma_non_ascii_not_digits(m);
                if all_digits(m) {
                    assert forall|i: int| 0 <= i < s@.len() implies '\0' <= #[trigger] s@[i] <= '\u{7f}' by {
                        if i > 0 {
                            assert(s@[i] == m[i - 1]);
                        }
                    }
                }
            }
        }
        return None;
    }
    let n = s.unicode_len();
    if n > 1 && s.get_ascii(0) == 45u8 {
        proof {
            assert('\0' <= s@[0] <= '\u{7f}');
        }
        match digits_value(s, 1, i32::MAX as i64 + 1) {
            Some(v) => Some((0 - v) as i32),
            None => None,
        }
    } else {
        proof {
            if n > 1 {
                assert('\0' <= s@[0] <= '\u{7f}');
            }
        }
        parse_nat(s)
    }
}

} // verus!
