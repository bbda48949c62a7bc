//! Keys under which vectors are stored: `"<path prefix>:<vector id>"`, the id
//! written in decimal.
use vstd::prelude::*;

verus! {

/// The character of the decimal digit `d`.
pub open spec fn digit_char(d: nat) -> char {
    if d == 0 {
        '0'
    } else if d == 1 {
        '1'
    } else if d == 2 {
        '2'
    } else if d == 3 {
        '3'
    } else if d == 4 {
        '4'
    } else if d == 5 {
        '5'
    } else if d == 6 {
        '6'
    } else if d == 7 {
        '7'
    } else if d == 8 {
        '8'
    } else {
        '9'
    }
}

/// `n` written in decimal, without leading zeros.
pub open spec fn decimal(n: nat) -> Seq<char>
    decreases n,
{
    if n < 10 {
        seq![digit_char(n)]
    } else {
        decimal(n / 10).push(digit_char(n % 10))
    }
}

/// The key of vector `id` under `prefix`.
pub open spec fn vector_key(prefix: Seq<char>, id: nat) -> Seq<char> {
    prefix + seq![':'] + decimal(id)
}

fn digit_str(d: usize) -> (s: &'static str)
    requires
        d < 10,
    ensures
        s@ == seq![digit_char(d as nat)],
{
    if d == 0 {
        proof { reveal_strlit("0"); }
        "0"
    } else if d == 1 {
        proof { reveal_strlit("1"); }
        "1"
    } else if d == 2 {
        proof { reveal_strlit("2"); }
        "2"
    } else if d == 3 {
        proof { reveal_strlit("3"); }
        "3"
    } else if d == 4 {
        proof { reveal_strlit("4"); }
        "4"
    } else if d == 5 {
        proof { reveal_strlit("5"); }
        "5"
    } else if d == 6 {
        proof { reveal_strlit("6"); }
        "6"
    } else if d == 7 {
        proof { reveal_strlit("7"); }
        "7"
    } else if d == 8 {
        proof { reveal_strlit("8"); }
        "8"
    } else {
        proof { reveal_strlit("9"); }
        "9"
    }
}

fn append_decimal(s: &mut String, n: usize)
    ensures
        final(s)@ == old(s)@ + decimal(n as nat),
    decreases n,
{
    if n >= 10 {
        append_decimal(s, n / 10);
    }
    s.append(digit_str(n % 10));
    assert(final(s)@ =~= old(s)@ + decimal(n as nat));
}

/// `n` in decimal.
pub fn decimal_string(n: usize) -> (s: String)
    ensures
        s@ == decimal(n as nat),
        is_decimal_digits(s@),
        digits_value(s@) == n,
        s@.len() > 1 ==> s@[0] != '0',
{
    let mut s = String::new();
    append_decimal(&mut s, n);
    proof {
        lemma_decimal_reads_back(n as nat);
    }
    assert(s@ =~= decimal(n as nat));
    s
}

/// The key under which vector `id` is stored when keys start with `prefix`.
pub fn key_for(prefix: &str, id: usize) -> (key: String)
    ensures
        key@ == vector_key(prefix@, id as nat),
        key@ == prefix@ + seq![':'] + decimal(id as nat),
{
    let mut key = String::from_str(prefix);
    proof { reveal_strlit(":"); }
    key.append(":");
    append_decimal(&mut key, id);
    assert(key@ =~= vector_key(prefix@, id as nat));
    key
}

/// Every character of `s` is one of `'0'` to `'9'`.
pub open spec fn is_decimal_digits(s: Seq<char>) -> bool {
    forall|i: int| 0 <= i < s.len() ==> '0' <= #[trigger] s[i] && s[i] <= '9'
}

/// The number that the decimal digits `s` spell, most significant first.
pub open spec fn digits_value(s: Seq<char>) -> int
    decreases s.len(),
{
    if s.len() == 0 {
        0
    } else {
        digits_value(s.drop_last()) * 10 + (s.last() as int - '0' as int)
    }
}

/// The decimal form of `n` is a nonempty string of digits, without a
/// leading zero unless it is `"0"`, that spells `n`.
pub proof fn lemma_decimal_reads_back(n: nat)
    ensures
        decimal(n).len() >= 1,
        is_decimal_digits(decimal(n)),
        digits_value(decimal(n)) == n,
        decimal(n).len() > 1 ==> decimal(n)[0] != '0',
    decreases n,
{
    let d = n % 10;
    assert(digit_char(d) as int - '0' as int == d);
    assert('0' <= digit_char(d) && digit_char(d) <= '9');
    if n >= 10 {
        lemma_decimal_reads_back(n / 10);
        let s = decimal(n);
        assert(s.drop_last() =~= decimal(n / 10));
        assert(s.last() == digit_char(d));
        assert(digits_value(s) == digits_value(decimal(n / 10)) * 10 + d);
        assert(n == (n / 10) * 10 + d);
        assert(s[0] == decimal(n / 10)[0]);
        if decimal(n / 10).len() == 1 {
            assert(digits_value(decimal(n / 10).drop_last()) == 0);
            assert(n / 10 != 0);
        }
        assert forall|i: int| 0 <= i < s.len() implies '0' <= #[trigger] s[i] && s[i] <= '9' by {
            if i < s.len() - 1 {
                assert(s[i] == decimal(n / 10)[i]);
            }
        }
    } else {
        let s = decimal(n);
        assert(s.drop_last() =~= Seq::<char>::empty());
        assert(s.last() == digit_char(d));
        assert(digits_value(s) == digits_value(s.drop_last()) * 10 + d);
    }
}

/// A key is the prefix, a colon, then decimal digits that spell the vector id.
pub proof fn lemma_key_reads_back(prefix: Seq<char>, id: nat)
    ensures
        vector_key(prefix, id).subrange(0, prefix.len() as int) == prefix,
        vector_key(prefix, id)[prefix.len() as int] == ':',
        is_decimal_digits(vector_key(prefix, id).subrange(prefix.len() + 1int, vector_key(prefix, id).len() as int)),
        digits_value(vector_key(prefix, id).subrange(prefix.len() + 1int, vector_key(prefix, id).len() as int)) == id,
{
    let k = vector_key(prefix, id);
    lemma_decimal_reads_back(id);
    assert(k.subrange(0, prefix.len() as int) =~= prefix);
    assert(k.subrange(prefix.len() + 1int, k.len() as int) =~= decimal(id));
}

proof fn lemma_digit_char_injective(a: nat, b: nat)
    requires
        a < 10,
        b < 10,
        digit_char(a) == digit_char(b),
    ensures
        a == b,
{
}

proof fn lemma_decimal_nonempty(n: nat)
    ensures
        decimal(n).len() >= 1,
        n >= 10 ==> decimal(n).len() >= 2,
    decreases n,
{
    if n >= 10 {
        lemma_decimal_nonempty(n / 10);
    }
}

/// Distinct numbers have distinct decimal forms.
pub proof fn lemma_decimal_injective(a: nat, b: nat)
    requires
        decimal(a) == decimal(b),
    ensures
        a == b,
    decreases a,
{
    lemma_decimal_nonempty(a);
    lemma_decimal_nonempty(b);
    if a < 10 && b < 10 {
        assert(decimal(a)[0] == digit_char(a));
        assert(decimal(b)[0] == digit_char(b));
        lemma_digit_char_injective(a, b);
    } else if a >= 10 && b >= 10 {
        let da = decimal(a);
        let db = decimal(b);
        assert(da.last() == digit_char(a % 10));
        assert(db.last() == digit_char(b % 10));
        lemma_digit_char_injective(a % 10, b % 10);
        assert(da.drop_last() =~= decimal(a / 10));
        assert(db.drop_last() =~= decimal(b / 10));
        lemma_decimal_injective(a / 10, b / 10);
    }
}

/// Under one prefix, distinct vector ids have distinct keys.
pub proof fn lemma_vector_key_injective(prefix: Seq<char>, a: nat, b: nat)
    requires
        vector_key(prefix, a) == vector_key(prefix, b),
    ensures
        a == b,
{
    let n = prefix.len() + 1;
    assert(vector_key(prefix, a).subrange(n as int, vector_key(prefix, a).len() as int) =~= decimal(a));
    assert(vector_key(prefix, b).subrange(n as int, vector_key(prefix, b).len() as int) =~= decimal(b));
    lemma_decimal_injective(a, b);
}

} // verus!
