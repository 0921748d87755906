//! Decimal numerals: how integers are written into keys and read back.

use vstd::prelude::*;
use vstd::string::*;

verus! {

/// The numeral for a value below ten.
pub open spec fn digit(d: nat) -> char {
    if d == 0 {
        '0'
    } else if d == 1 {
        '1'
    } else if d == 2 {
        '2'
    } else if d == 3 {
        '3'
    } else if d == 4 {
        '4'
    } else if d == 5 {
        '5'
    } else if d == 6 {
        '6'
    } else if d == 7 {
        '7'
    } else if d == 8 {
        '8'
    } else {
        '9'
    }
}

/// Whether `c` is one of `0` to `9`.
pub open spec fn is_digit(c: char) -> bool {
    '0' <= c <= '9'
}

/// What a numeral stands for; zero for any other character.
pub open spec fn digit_value(c: char) -> nat {
    if is_digit(c) {
        (c as nat - '0' as nat) as nat
    } else {
        0
    }
}

/// The shortest decimal writing of `n`.
pub open spec fn decimal(n: nat) -> Seq<char>
    decreases n,
{
    if n < 10 {
        seq![digit(n)]
    } else {
        decimal(n / 10).push(digit(n % 10))
    }
}

/// Whether `text` holds numerals only.
pub open spec fn all_digits(text: Seq<char>) -> bool {
    forall|i: int| 0 <= i < text.len() ==> is_digit(#[trigger] text[i])
}

/// The number that `text` writes in base ten, leading zeros allowed.
pub open spec fn value(text: Seq<char>) -> nat
    decreases text.len(),
{
    if text.len() == 0 {
        0
    } else {
        value(text.drop_last()) * 10 + digit_value(text.last())
    }
}

/// Whether `text` is the shortest decimal writing of some number: numerals
/// only, at least one, and no leading zero but in `0` itself.
pub open spec fn canonical(text: Seq<char>) -> bool {
    &&& text.len() > 0
    &&& all_digits(text)
    &&& text[0] == '0' ==> text.len() == 1
}

/// The number that `text` is the shortest decimal writing of, if it is one
/// and the number fits 64 bits.
pub open spec fn number(text: Seq<char>) -> Option<u64> {
    if canonical(text) && value(text) <= u64::MAX {
        Some(value(text) as u64)
    } else {
        None
    }
}

/// Writing a number and reading the writing back gives the number.
pub proof fn lemma_decimal_reads_back(n: nat)
    ensures
        canonical(decimal(n)),
        value(decimal(n)) == n,
    decreases n,
{
    if n < 10 {
        let text = decimal(n);
        assert(text.drop_last() =~= Seq::<char>::empty());
        assert(value(text.drop_last()) == 0);
        assert(text.last() == digit(n));
    } else {
        lemma_decimal_reads_back(n / 10);
        let head = decimal(n / 10);
        let text = decimal(n);
        assert(text.drop_last() =~= head);
        assert(text.last() == digit(n % 10));
        assert(text[0] == head[0]);
        assert(text[0] == '0' ==> false) by {
            if head[0] == '0' {
                assert(head.len() == 1);
                assert(head.drop_last() =~= Seq::<char>::empty());
                assert(value(head.drop_last()) == 0);
            }
        }
        assert forall|i: int| 0 <= i < text.len() implies is_digit(#[trigger] text[i]) by {
            if i < head.len() {
                assert(text[i] == head[i]);
            }
        }
    }
}

/// A shortest decimal writing is the writing of the number it reads as.
pub proof fn lemma_canonical_is_decimal(text: Seq<char>)
    requires
        canonical(text),
    ensures
        decimal(value(text)) == text,
    decreases text.len(),
{
    let last = text.last();
    assert(is_digit(last));
    assert(digit(digit_value(last)) == last);
    if text.len() == 1 {
        assert(text.drop_last() =~= Seq::<char>::empty());
        assert(value(text.drop_last()) == 0);
        assert(decimal(value(text)) =~= text);
    } else {
        let head = text.drop_last();
        assert(head[0] == text[0]);
        assert(canonical(head)) by {
            assert forall|i: int| 0 <= i < head.len() implies is_digit(#[trigger] head[i]) by {
                assert(head[i] == text[i]);
            }
        }
        lemma_canonical_is_decimal(head);
        assert(value(head) >= 1) by {
            if value(head) == 0 {
                assert(decimal(0) =~= seq!['0']);
                assert(head[0] == '0');
            }
        }
        let v = value(text);
        assert(v / 10 == value(head) && v % 10 == digit_value(last)) by (nonlinear_arith)
            requires
                v == value(head) * 10 + digit_value(last),
                digit_value(last) < 10,
        ;
        assert(decimal(v) =~= text);
    }
}

/// Two numbers with the same decimal writing are the same number.
pub proof fn lemma_decimal_is_injective(a: nat, b: nat)
    requires
        decimal(a) == decimal(b),
    ensures
        a == b,
{
    lemma_decimal_reads_back(a);
    lemma_decimal_reads_back(b);
}

/// A text reads as `n` exactly when it is the decimal writing of `n`.
pub proof fn lemma_number_iff_decimal(text: Seq<char>, n: u64)
    ensures
        number(text) == Some(n) <==> text == decimal(n as nat),
{
    if number(text) == Some(n) {
        lemma_canonical_is_decimal(text);
    }
    if text == decimal(n as nat) {
        lemma_decimal_reads_back(n as nat);
    }
}

/// The beginning of a text reads as no more than the whole text.
proof fn lemma_value_of_prefix(text: Seq<char>, len: int)
    requires
        0 <= len <= text.len(),
    ensures
        value(text.take(len)) <= value(text),
    decreases text.len(),
{
    if len == text.len() {
        assert(text.take(len) =~= text);
    } else {
        assert(text.drop_last().take(len) =~= text.take(len));
        lemma_value_of_prefix(text.drop_last(), len);
        assert(value(text.drop_last()) <= value(text)) by (nonlinear_arith)
            requires
                value(text) == value(text.drop_last()) * 10 + digit_value(text.last()),
        ;
    }
}

fn digit_text(d: u64) -> (text: &'static str)
    requires
        d < 10,
    ensures
        text@ == seq![digit(d as nat)],
{
    proof {
        reveal_strlit("0");
        reveal_strlit("1");
        reveal_strlit("2");
        reveal_strlit("3");
        reveal_strlit("4");
        reveal_strlit("5");
        reveal_strlit("6");
        reveal_strlit("7");
        reveal_strlit("8");
        reveal_strlit("9");
    }
    let text: &'static str = if d == 0 {
        "0"
    } else if d == 1 {
        "1"
    } else if d == 2 {
        "2"
    } else if d == 3 {
        "3"
    } else if d == 4 {
        "4"
    } else if d == 5 {
        "5"
    } else if d == 6 {
        "6"
    } else if d == 7 {
        "7"
    } else if d == 8 {
        "8"
    } else {
        "9"
    };
    assert(text@ =~= seq![digit(d as nat)]);
    text
}

/// Appends the shortest decimal writing of `n` to `out`.
pub fn push_decimal(out: &mut String, n: u64)
    ensures
        final(out)@ == old(out)@ + decimal(n as nat),
    decreases n,
{
    if n >= 10 {
        push_decimal(out, n / 10);
    }
    let last: &'static str = digit_text(n % 10);
    out.append(last);
    proof {
        if n >= 10 {
            assert(final(out)@ =~= old(out)@ + decimal(n as nat));
        } else {
            assert(final(out)@ =~= old(out)@ + decimal(n as nat));
        }
    }
}

/// The characters of `text`, in order.
pub fn chars_of(text: &str) -> (chars: Vec<char>)
    ensures
        chars@ == text@,
{
    broadcast use vstd::string::group_string_axioms;

    let mut chars: Vec<char> = Vec::new();
    for c in it: text.chars()
        invariant
            chars@ == it.history(),
    {
        chars.push(c);
    }
    assert(chars@ =~= text@);
    chars
}

/// Reads `chars[from..to]` as the shortest decimal writing of a 64-bit number.
pub fn read_number(chars: &Vec<char>, from: usize, to: usize) -> (read: Option<u64>)
    requires
        from <= to <= chars.len(),
    ensures
        read == number(chars@.subrange(from as int, to as int)),
{
    let ghost text = chars@.subrange(from as int, to as int);
    if from == to {
        return None;
    }
    if chars[from] == '0' && to - from > 1 {
        assert(text[0] == '0');
        return None;
    }
    let mut acc: u64 = 0;
    let mut i: usize = from;
    assert(text.take(0) =~= Seq::<char>::empty());
    while i < to
        invariant
            from <= i <= to <= chars.len(),
            text == chars@.subrange(from as int, to as int),
            acc == value(text.take(i - from)),
            all_digits(text.take(i - from)),
            text.len() > 0,
            text[0] == '0' ==> text.len() == 1,
        decreases to - i,
    {
        let c: char = chars[i];
        let ghost prefix = text.take(i - from + 1);
        proof {
            assert(text[i - from] == c);
            assert(prefix.drop_last() =~= text.take(i - from));
            assert(prefix.last() == c);
            lemma_value_of_prefix(text, i - from + 1);
        }
        if !('0' <= c && c <= '9') {
            assert(!all_digits(text));
            return None;
        }
        let d: u64 = (c as u64) - ('0' as u64);
        assert(d == digit_value(c));
        let next: Option<u64> = match acc.checked_mul(10) {
            Some(scaled) => scaled.checked_add(d),
            None => None,
        };
        match next {
            None => {
                assert(value(prefix) > u64::MAX);
                return None;
            },
            Some(n) => {
                acc = n;
            },
        }
        proof {
            assert forall|k: int| 0 <= k < prefix.len() implies is_digit(#[trigger] prefix[k]) by {
                if k < i - from {
                    assert(prefix[k] == text.take(i - from)[k]);
                }
            }
        }
        i = i + 1;
    }
    assert(text.take(to - from) =~= text);
    Some(acc)
}

} // verus!
