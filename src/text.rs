use vstd::prelude::*;

verus! {

pub open spec fn is_digit(c: char) -> bool {
    48 <= (c as int) && (c as int) <= 57
}

pub open spec fn digit_value(c: char) -> nat {
    ((c as int) - 48) as nat
}

pub open spec fn all_digits(s: Seq<char>) -> bool {
    forall|i: int| 0 <= i < s.len() ==> is_digit(#[trigger] s[i])
}

/// The number that a string of decimal digits spells.
pub open spec fn digits_value(s: Seq<char>) -> nat
    decreases s.len(),
{
    if s.len() == 0 {
        0
    } else {
        10 * digits_value(s.drop_last()) + digit_value(s.last())
    }
}

/// What `s` spells as an unsigned decimal number (an optional `+`, then one
/// or more digits), provided that it is at most `max`.
pub open spec fn decimal_text(s: Seq<char>, max: nat) -> Option<nat> {
    let body = if s.len() > 0 && s[0] == '+' {
        s.skip(1)
    } else {
        s
    };
    if body.len() > 0 && all_digits(body) && digits_value(body) <= max {
        Some(digits_value(body))
    } else {
        None
    }
}

/// The decimal digits of `n`, most significant first, without leading zeros.
pub open spec fn decimal_of(n: nat) -> Seq<char>
    decreases n,
{
    if n < 10 {
        seq![((n + 48) as u32) as char]
    } else {
        decimal_of(n / 10).push((((n % 10) + 48) as u32) as char)
    }
}

proof fn lemma_digits_value_grows(s: Seq<char>, k: int)
    requires
        0 <= k <= s.len(),
    ensures
        digits_value(s.subrange(0, k)) <= digits_value(s),
    decreases s.len() - k,
{
    if k < s.len() {
        lemma_digits_value_grows(s, k + 1);
        let t = s.subrange(0, k + 1);
        assert(t.drop_last() =~= s.subrange(0, k));
    } else {
        assert(s.subrange(0, k) =~= s);
    }
}

/// The characters of `s`, one by one.
pub fn chars_of(s: &str) -> (r: Vec<char>)
    ensures
        r@ == s@,
{
    let mut r: Vec<char> = Vec::new();
    for c in it: s.chars()
        invariant
            it.seq() == s@,
            r@ == it.seq().take(it.index() as int),
    {
        r.push(c);
    }
    r
}

/// Whether `a` and `b` hold the same characters.
pub fn same_chars(a: &Vec<char>, b: &Vec<char>) -> (r: bool)
    ensures
        r == (a@ == b@),
{
    if a.len() != b.len() {
        return false;
    }
    let mut i: usize = 0;
    while i < a.len()
        invariant
            a.len() == b.len(),
            i <= a.len(),
            forall|j: int| 0 <= j < i ==> a@[j] == b@[j],
        decreases a.len() - i,
    {
        if a[i] != b[i] {
            return false;
        }
        i = i + 1;
    }
    assert(a@ =~= b@);
    true
}

/// Reads `s[lo..hi]` as an unsigned decimal number no greater than `max`.
pub fn parse_decimal(s: &Vec<char>, lo: usize, hi: usize, max: u64) -> (r: Option<u64>)
    requires
        lo <= hi <= s.len(),
    ensures
        r is Some <==> decimal_text(s@.subrange(lo as int, hi as int), max as nat) is Some,
        r is Some ==> decimal_text(s@.subrange(lo as int, hi as int), max as nat) == Some(
            r->0 as nat,
        ),
{
    let ghost text = s@.subrange(lo as int, hi as int);
    let mut first: usize = lo;
    if lo < hi && s[lo] == '+' {
        first = lo + 1;
    }
    let ghost body = s@.subrange(first as int, hi as int);
    assert(body =~= (if text.len() > 0 && text[0] == '+' {
        text.skip(1)
    } else {
        text
    }));
    if first == hi {
        return None;
    }
    let mut acc: u64 = 0;
    let mut i: usize = first;
    while i < hi
        invariant
            lo <= first <= i <= hi <= s.len(),
            body == s@.subrange(first as int, hi as int),
            text == s@.subrange(lo as int, hi as int),
            body == (if text.len() > 0 && text[0] == '+' {
                text.skip(1)
            } else {
                text
            }),
            all_digits(s@.subrange(first as int, i as int)),
            acc as nat == digits_value(s@.subrange(first as int, i as int)),
            acc <= max,
        decreases hi - i,
    {
        let c = s[i];
        let ghost prefix = s@.subrange(first as int, i as int + 1);
        assert(prefix.drop_last() =~= s@.subrange(first as int, i as int));
        if !('0' <= c && c <= '9') {
            assert(!is_digit(body[i - first]));
            return None;
        }
        let d: u64 = (c as u32 - 48) as u64;
        assert(d == digit_value(c));
        let next = match acc.checked_mul(10) {
            Some(m) => m.checked_add(d),
            None => None,
        };
        match next {
            Some(v) if v <= max => {
                acc = v;
                i = i + 1;
            },
            _ => {
                proof {
                    if all_digits(body) {
                        lemma_digits_value_grows(body, i - first + 1);
                        assert(body.subrange(0, i - first + 1) =~= prefix);
                    }
                }
                return None;
            },
        }
    }
    assert(s@.subrange(first as int, i as int) =~= body);
    Some(acc)
}

/// The decimal digits of `n`.
pub fn decimal_chars(n: u64) -> (r: Vec<char>)
    ensures
        r@ == decimal_of(n as nat),
    decreases n,
{
    let d: char = ((n % 10) as u8 + 48) as char;
    if n < 10 {
        vec![d]
    } else {
        let mut v = decimal_chars(n / 10);
        v.push(d);
        v
    }
}

} // verus!
