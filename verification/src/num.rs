use vstd::prelude::*;
use vstd::set_lib::*;
use vstd::relations::injective_on;

verus! {

/// The decimal digit character for `d < 10`.
pub open spec fn digit_char(d: nat) -> char {
    if d == 0 { '0' } else if d == 1 { '1' } else if d == 2 { '2' } else if d == 3 { '3' }
    else if d == 4 { '4' } else if d == 5 { '5' } else if d == 6 { '6' } else if d == 7 { '7' }
    else if d == 8 { '8' } else { '9' }
}

/// The value of a decimal digit character, if it is one.
pub open spec fn digit_value(c: char) -> Option<nat> {
    if c == '0' { Some(0) } else if c == '1' { Some(1) } else if c == '2' { Some(2) }
    else if c == '3' { Some(3) } else if c == '4' { Some(4) } else if c == '5' { Some(5) }
    else if c == '6' { Some(6) } else if c == '7' { Some(7) } else if c == '8' { Some(8) }
    else if c == '9' { Some(9) } else { None }
}

/// Whether `c` is an ASCII decimal digit.
pub open spec fn is_digit(c: char) -> bool {
    digit_value(c) is Some
}

/// The decimal representation of `n`, as `Display` writes it.
pub open spec fn decimal(n: nat) -> Seq<char>
    decreases n,
{
    if n < 10 {
        seq![digit_char(n)]
    } else {
        decimal(n / 10).push(digit_char(n % 10))
    }
}

/// `decimal(n)` left-padded with zeros to at least `w` characters (`{:0w}`).
pub open spec fn zero_padded(n: nat, w: nat) -> Seq<char> {
    let d = decimal(n);
    if d.len() >= w {
        d
    } else {
        Seq::new((w - d.len()) as nat, |i: int| '0') + d
    }
}

/// The value of a sequence of decimal digits.
pub open spec fn digits_value(s: Seq<char>) -> nat
    decreases s.len(),
{
    if s.len() == 0 {
        0
    } else {
        digits_value(s.drop_last()) * 10 + match digit_value(s.last()) {
            Some(d) => d,
            None => 0,
        }
    }
}

proof fn lemma_digit_roundtrip(d: nat)
    requires
        d < 10,
    ensures
        digit_value(digit_char(d)) == Some(d),
{
}

pub proof fn lemma_decimal_value(n: nat)
    ensures
        digits_value(decimal(n)) == n,
        decimal(n).len() >= 1,
        forall|i: int| 0 <= i < decimal(n).len() ==> #[trigger] is_digit(decimal(n)[i]),
    decreases n,
{
    if n < 10 {
        lemma_digit_roundtrip(n);
        assert(decimal(n).drop_last() =~= Seq::<char>::empty());
        assert(digits_value(Seq::<char>::empty()) == 0);
        assert(decimal(n).last() == digit_char(n));
    } else {
        lemma_decimal_value(n / 10);
        lemma_digit_roundtrip(n % 10);
        assert(decimal(n).drop_last() =~= decimal(n / 10));
        assert(decimal(n).last() == digit_char(n % 10));
        assert(digits_value(decimal(n)) == digits_value(decimal(n / 10)) * 10 + n % 10);
        assert((n / 10) * 10 + n % 10 == n);
    }
}

pub proof fn lemma_decimal_injective(a: nat, b: nat)
    requires
        decimal(a) == decimal(b),
    ensures
        a == b,
{
    lemma_decimal_value(a);
    lemma_decimal_value(b);
}

/// The decimal representation of `n`.
pub fn decimal_vec(n: u64) -> (r: Vec<char>)
    ensures
        r@ == decimal(n as nat),
    decreases n,
{
    let d = n % 10;
    let c = if d == 0 { '0' } else if d == 1 { '1' } else if d == 2 { '2' } else if d == 3 { '3' }
        else if d == 4 { '4' } else if d == 5 { '5' } else if d == 6 { '6' } else if d == 7 { '7' }
        else if d == 8 { '8' } else { '9' };
    if n < 10 {
        let mut r: Vec<char> = Vec::new();
        r.push(c);
        assert(r@ =~= seq![digit_char(n as nat)]);
        r
    } else {
        let mut r = decimal_vec(n / 10);
        r.push(c);
        r
    }
}

/// `decimal(n)` left-padded with zeros to `w` characters.
pub fn zero_padded_vec(n: u64, w: usize) -> (r: Vec<char>)
    ensures
        r@ == zero_padded(n as nat, w as nat),
{
    let d = decimal_vec(n);
    if d.len() >= w {
        d
    } else {
        let mut r: Vec<char> = Vec::new();
        let pad = w - d.len();
        let mut i: usize = 0;
        while i < pad
            invariant
                i <= pad,
                r@ == Seq::new(i as nat, |k: int| '0'),
            decreases pad - i,
        {
            r.push('0');
            i += 1;
            assert(r@ =~= Seq::new(i as nat, |k: int| '0'));
        }
        let mut k: usize = 0;
        let ghost r0 = r@;
        while k < d.len()
            invariant
                k <= d@.len(),
                r@ == r0 + d@.take(k as int),
            decreases d.len() - k,
        {
            r.push(d[k]);
            k += 1;
            assert(r@ =~= r0 + d@.take(k as int));
        }
        assert(d@.take(d@.len() as int) =~= d@);
        r
    }
}

/// If the images under `f` of `1..=n` are pairwise different and all occur in
/// `xs`, then `n <= xs.len()`.
pub proof fn lemma_pigeonhole<A>(f: spec_fn(int) -> A, n: int, xs: Seq<A>)
    requires
        n >= 0,
        forall|a: int, b: int| 1 <= a <= n && 1 <= b <= n && #[trigger] f(a) == #[trigger] f(b) ==> a == b,
        forall|k: int| 1 <= k <= n ==> xs.contains(#[trigger] f(k)),
    ensures
        n <= xs.len(),
{
    let dom = set_int_range(1, n + 1);
    lemma_int_range(1, n + 1);
    let img = dom.map(f);
    assert(injective_on(f, dom));
    lemma_map_size(dom, img, f);
    assert(img.subset_of(xs.to_set())) by {
        assert forall|y: A| img.contains(y) implies xs.to_set().contains(y) by {
            let k = choose|k: int| dom.contains(k) && f(k) == y;
            assert(xs.contains(f(k)));
        }
    }
    xs.lemma_cardinality_of_set();
    lemma_len_subset(img, xs.to_set());
}

/// `u64::from_str`: an optional `+`, then one or more ASCII digits whose value
/// fits in a `u64`.
pub open spec fn parse_u64(s: Seq<char>) -> Option<u64> {
    let d = unsigned_digits(s);
    if d.len() == 0 || !all_digits(d) {
        None
    } else if digits_value(d) > u64::MAX {
        None
    } else {
        Some(digits_value(d) as u64)
    }
}

/// `s` without a leading `+`.
pub open spec fn unsigned_digits(s: Seq<char>) -> Seq<char> {
    if s.len() > 0 && s[0] == '+' {
        s.drop_first()
    } else {
        s
    }
}

/// Every character of `d` is an ASCII digit.
pub open spec fn all_digits(d: Seq<char>) -> bool {
    forall|i: int| 0 <= i < d.len() ==> is_digit(#[trigger] d[i])
}

/// `bool::from_str`: exactly `true` or `false`.
pub open spec fn parse_bool(s: Seq<char>) -> Option<bool> {
    if s == "true"@ {
        Some(true)
    } else if s == "false"@ {
        Some(false)
    } else {
        None
    }
}

fn digit_of(c: char) -> (r: Option<u64>)
    ensures
        match r {
            Some(d) => digit_value(c) == Some(d as nat) && d < 10,
            None => digit_value(c) is None,
        },
{
    if c == '0' { Some(0) } else if c == '1' { Some(1) } else if c == '2' { Some(2) }
    else if c == '3' { Some(3) } else if c == '4' { Some(4) } else if c == '5' { Some(5) }
    else if c == '6' { Some(6) } else if c == '7' { Some(7) } else if c == '8' { Some(8) }
    else if c == '9' { Some(9) } else { None }
}

proof fn lemma_digits_value_mono(s: Seq<char>, i: int)
    requires
        0 <= i <= s.len(),
    ensures
        digits_value(s.take(i)) <= digits_value(s),
    decreases s.len() - i,
{
    if i < s.len() {
        lemma_digits_value_mono(s.drop_last(), i);
        assert(s.drop_last().take(i) =~= s.take(i));
    } else {
        assert(s.take(i) =~= s);
    }
}

/// `u64::from_str` on characters.
pub fn parse_u64_chars(s: &[char]) -> (r: Option<u64>)
    ensures
        r == parse_u64(s@),
{
    let start: usize = if s.len() > 0 && s[0] == '+' { 1 } else { 0 };
    let ghost d = unsigned_digits(s@);
    assert(d =~= s@.subrange(start as int, s@.len() as int));
    if start == s.len() {
        return None;
    }
    let mut v: u64 = 0;
    let mut i: usize = start;
    let mut overflow = false;
    while i < s.len()
        invariant
            start <= i <= s@.len(),
            d == s@.subrange(start as int, s@.len() as int),
            d == unsigned_digits(s@),
            forall|k: int| 0 <= k < i - start ==> is_digit(#[trigger] d[k]),
            !overflow ==> v == digits_value(d.take(i - start)),
            overflow ==> digits_value(d.take(i - start)) > u64::MAX,
        decreases s.len() - i,
    {
        let ghost t = d.take(i - start + 1);
        assert(t.drop_last() =~= d.take(i - start));
        assert(t.last() == s@[i as int]);
        match digit_of(s[i]) {
            Some(x) => {
                if !overflow {
                    if v > (u64::MAX - x) / 10 {
                        overflow = true;
                        assert(digits_value(t) == v * 10 + x);
                    } else {
                        v = v * 10 + x;
                    }
                } else {
                    assert(digits_value(t) >= digits_value(t.drop_last()) * 10);
                }
            },
            None => {
                assert(d[i - start] == s@[i as int]);
                assert(!is_digit(d[i - start]));

                return None;
            },
        }
        i += 1;
    }
    assert(d.take(d.len() as int) =~= d);
    if overflow {
        None
    } else {
        Some(v)
    }
}

/// `bool::from_str` on characters.
pub fn parse_bool_chars(s: &[char]) -> (r: Option<bool>)
    ensures
        r == parse_bool(s@),
{
    proof {
        reveal_strlit("true");
        reveal_strlit("false");
    }
    if s.len() == 4 && s[0] == 't' && s[1] == 'r' && s[2] == 'u' && s[3] == 'e' {
        assert(s@ =~= "true"@);
        Some(true)
    } else if s.len() == 5 && s[0] == 'f' && s[1] == 'a' && s[2] == 'l' && s[3] == 's' && s[4] == 'e' {
        assert(s@ =~= "false"@);
        Some(false)
    } else {
        assert(s@ != "true"@);
        assert(s@ != "false"@);
        None
    }
}

/// Parsing what `Display` writes for a number gives the number back.
pub proof fn law_parse_decimal(n: u64)
    ensures
        parse_u64(decimal(n as nat)) == Some(n),
{
    lemma_decimal_value(n as nat);
    let d = decimal(n as nat);
    assert(d[0] != '+') by {
        assert(is_digit(d[0]));
    }
    assert(unsigned_digits(d) == d);
}

/// An integer as `Display` writes it: a `-` before the digits of a
/// negative number.
pub open spec fn signed_decimal(n: int) -> Seq<char> {
    if n < 0 {
        "-"@ + decimal((-n) as nat)
    } else {
        decimal(n as nat)
    }
}

/// The decimal text of `n`, as `signed_decimal` states it.
pub fn signed_decimal_vec(n: i64) -> (r: Vec<char>)
    ensures
        r@ == signed_decimal(n as int),
{
    if n < 0 {
        let m: u64 = if n == i64::MIN { 9223372036854775808u64 } else { (-n) as u64 };
        let mut r: Vec<char> = vec!['-'];
        let d = decimal_vec(m);
        let mut i: usize = 0;
        while i < d.len()
            invariant
                i <= d@.len(),
                r@ == seq!['-'] + d@.take(i as int),
            decreases d.len() - i,
        {
            r.push(d[i]);
            i += 1;
            assert(r@ =~= seq!['-'] + d@.take(i as int));
        }
        assert(d@.take(d@.len() as int) =~= d@);
        proof {
            reveal_strlit("-");
        }
        assert("-"@ =~= seq!['-']);
        r
    } else {
        decimal_vec(n as u64)
    }
}

} // verus!
