//! Decimal and length-prefixed text encodings used by the agreement key and
//! by error messages.

use vstd::prelude::*;

verus! {

/// The ten decimal digits, in order.
pub open spec fn decimal_digits() -> Seq<char> {
    seq!['0', '1', '2', '3', '4', '5', '6', '7', '8', '9']
}

/// The digit character of `d` (`d < 10`).
pub open spec fn digit_char(d: nat) -> char {
    decimal_digits()[d as int]
}

/// Shortest decimal representation of a natural number.
pub open spec fn decimal(n: nat) -> Seq<char>
    decreases n,
{
    if n < 10 {
        seq![digit_char(n)]
    } else {
        decimal(n / 10).push(digit_char(n % 10))
    }
}

/// Decimal representation of an integer: a `-` sign before negative values.
pub open spec fn signed_decimal(v: int) -> Seq<char> {
    if v < 0 {
        seq!['-'] + decimal((-v) as nat)
    } else {
        decimal(v as nat)
    }
}

/// `value` prefixed by its length and a colon, and closed by a semicolon.
pub open spec fn length_prefixed(value: Seq<char>) -> Seq<char> {
    decimal(value.len()) + seq![':'] + value + seq![';']
}

/// A decimal number closed by a semicolon.
pub open spec fn number_field(v: int) -> Seq<char> {
    signed_decimal(v) + seq![';']
}

/// Appends the digit character of `d`.
pub fn push_digit(out: &mut String, d: u64)
    requires
        d < 10,
    ensures
        final(out)@ == old(out)@.push(digit_char(d as nat)),
{
    let ghost before = out@;
    match d {
        0 => {
            out.append("0");
            proof { reveal_strlit("0"); }
        },
        1 => {
            out.append("1");
            proof { reveal_strlit("1"); }
        },
        2 => {
            out.append("2");
            proof { reveal_strlit("2"); }
        },
        3 => {
            out.append("3");
            proof { reveal_strlit("3"); }
        },
        4 => {
            out.append("4");
            proof { reveal_strlit("4"); }
        },
        5 => {
            out.append("5");
            proof { reveal_strlit("5"); }
        },
        6 => {
            out.append("6");
            proof { reveal_strlit("6"); }
        },
        7 => {
            out.append("7");
            proof { reveal_strlit("7"); }
        },
        8 => {
            out.append("8");
            proof { reveal_strlit("8"); }
        },
        _ => {
            out.append("9");
            proof { reveal_strlit("9"); }
        },
    }
    assert(out@ =~= before.push(digit_char(d as nat)));
}

/// Appends the decimal representation of `n`.
pub fn push_decimal(out: &mut String, n: u64)
    ensures
        final(out)@ == old(out)@ + decimal(n as nat),
    decreases n,
{
    let ghost before = out@;
    if n >= 10 {
        push_decimal(out, n / 10);
    }
    push_digit(out, n % 10);
    assert(out@ =~= before + decimal(n as nat));
}

/// Appends the signed decimal representation of `v`.
pub fn push_signed_decimal(out: &mut String, v: i64)
    ensures
        final(out)@ == old(out)@ + signed_decimal(v as int),
{
    let ghost before = out@;
    if v < 0 {
        out.append("-");
        proof { reveal_strlit("-"); }
        let magnitude: u64 = if v == i64::MIN {
            9223372036854775808u64
        } else {
            (-v) as u64
        };
        push_decimal(out, magnitude);
    } else {
        push_decimal(out, v as u64);
    }
    assert(out@ =~= before + signed_decimal(v as int));
}

/// Appends `v` followed by a semicolon.
pub fn push_number_field(out: &mut String, v: i64)
    ensures
        final(out)@ == old(out)@ + number_field(v as int),
{
    let ghost before = out@;
    push_signed_decimal(out, v);
    out.append(";");
    proof { reveal_strlit(";"); }
    assert(out@ =~= before + number_field(v as int));
}

/// Appends `value` with its length prefix and closing semicolon.
pub fn push_length_prefixed(out: &mut String, value: &str)
    ensures
        final(out)@ == old(out)@ + length_prefixed(value@),
{
    let ghost before = out@;
    let len = value.unicode_len();
    push_decimal(out, len as u64);
    out.append(":");
    proof { reveal_strlit(":"); }
    out.append(value);
    out.append(";");
    proof { reveal_strlit(";"); }
    assert(out@ =~= before + length_prefixed(value@));
}


// ---------------------------------------------------------------------------
// Unambiguity of the encodings
// ---------------------------------------------------------------------------

/// A decimal digit character.
pub open spec fn is_digit(c: char) -> bool {
    '0' <= c && c <= '9'
}

/// `s` does not contain `c`.
pub open spec fn free_of_char(s: Seq<char>, c: char) -> bool {
    forall|i: int| 0 <= i < s.len() ==> s[i] != c
}

/// Tokens, each closed by a semicolon, concatenated.
pub open spec fn terminated(tokens: Seq<Seq<char>>) -> Seq<char>
    decreases tokens.len(),
{
    if tokens.len() == 0 {
        Seq::empty()
    } else {
        tokens[0] + seq![';'] + terminated(tokens.drop_first())
    }
}

/// A length-prefixed value without its closing semicolon.
pub open spec fn length_token(value: Seq<char>) -> Seq<char> {
    decimal(value.len()) + seq![':'] + value
}

/// Digit characters are digits, and distinct digits have distinct characters.
pub proof fn lemma_digit_char(d: nat, e: nat)
    requires
        d < 10,
        e < 10,
    ensures
        is_digit(digit_char(d)),
        digit_char(d) == digit_char(e) ==> d == e,
{
    let ds = decimal_digits();
    assert(ds[0] == '0' && ds[1] == '1' && ds[2] == '2' && ds[3] == '3' && ds[4] == '4');
    assert(ds[5] == '5' && ds[6] == '6' && ds[7] == '7' && ds[8] == '8' && ds[9] == '9');
}

/// A decimal representation is a non-empty run of digits.
pub proof fn lemma_decimal_digits(n: nat)
    ensures
        decimal(n).len() >= 1,
        forall|i: int| 0 <= i < decimal(n).len() ==> is_digit(#[trigger] decimal(n)[i]),
    decreases n,
{
    if n < 10 {
        lemma_digit_char(n, n);
    } else {
        lemma_decimal_digits(n / 10);
        lemma_digit_char(n % 10, n % 10);
        assert forall|i: int| 0 <= i < decimal(n).len() implies is_digit(#[trigger] decimal(n)[i]) by {
            if i < decimal(n / 10).len() {
                assert(decimal(n)[i] == decimal(n / 10)[i]);
            }
        }
    }
}

/// Distinct natural numbers have distinct decimal representations.
pub proof fn lemma_decimal_injective(a: nat, b: nat)
    requires
        decimal(a) == decimal(b),
    ensures
        a == b,
    decreases a,
{
    lemma_decimal_digits(a / 10);
    lemma_decimal_digits(b / 10);
    if a < 10 && b < 10 {
        assert(decimal(a) == seq![digit_char(a)]);
        assert(decimal(a)[0] == digit_char(a));
        assert(decimal(b)[0] == digit_char(b));
        lemma_digit_char(a, b);
    } else if a < 10 {
        assert(decimal(a).len() == 1);
    } else if b < 10 {
        assert(decimal(b).len() == 1);
    } else {
        let da = decimal(a);
        let db = decimal(b);
        assert(da.last() == digit_char(a % 10));
        assert(db.last() == digit_char(b % 10));
        lemma_digit_char(a % 10, b % 10);
        assert(a % 10 == b % 10);
        assert(da.drop_last() =~= decimal(a / 10));
        assert(db.drop_last() =~= decimal(b / 10));
        lemma_decimal_injective(a / 10, b / 10);
        assert(a / 10 == b / 10);
        assert(a == b) by (nonlinear_arith)
            requires
                a / 10 == b / 10,
                a % 10 == b % 10,
        ;
    }
}

/// A signed decimal contains neither `;` nor `:`.
pub proof fn lemma_signed_decimal_plain(v: int)
    ensures
        free_of_char(signed_decimal(v), ';'),
        free_of_char(signed_decimal(v), ':'),
        signed_decimal(v).len() >= 1,
{
    if v < 0 {
        lemma_decimal_digits((-v) as nat);
        assert forall|i: int| 0 <= i < signed_decimal(v).len() implies signed_decimal(v)[i] != ';'
            && signed_decimal(v)[i] != ':' by {
            if i > 0 {
                assert(signed_decimal(v)[i] == decimal((-v) as nat)[i - 1]);
            }
        }
    } else {
        lemma_decimal_digits(v as nat);
    }
}

/// Distinct integers have distinct signed decimal representations.
pub proof fn lemma_signed_decimal_injective(a: int, b: int)
    requires
        signed_decimal(a) == signed_decimal(b),
    ensures
        a == b,
{
    if a < 0 && b < 0 {
        assert(signed_decimal(a).drop_first() =~= decimal((-a) as nat));
        assert(signed_decimal(b).drop_first() =~= decimal((-b) as nat));
        lemma_decimal_injective((-a) as nat, (-b) as nat);
    } else if a < 0 {
        lemma_decimal_digits(b as nat);
        assert(signed_decimal(a)[0] == '-');
        assert(is_digit(decimal(b as nat)[0]));
    } else if b < 0 {
        lemma_decimal_digits(a as nat);
        assert(signed_decimal(b)[0] == '-');
        assert(is_digit(decimal(a as nat)[0]));
    } else {
        lemma_decimal_injective(a as nat, b as nat);
    }
}

/// Splitting at the first separator: if neither head contains `sep`, equal
/// concatenations have equal heads and equal tails.
pub proof fn lemma_split_at(x1: Seq<char>, y1: Seq<char>, x2: Seq<char>, y2: Seq<char>, sep: char)
    requires
        free_of_char(x1, sep),
        free_of_char(x2, sep),
        x1 + seq![sep] + y1 == x2 + seq![sep] + y2,
    ensures
        x1 == x2,
        y1 == y2,
{
    let s = x1 + seq![sep] + y1;
    let t = x2 + seq![sep] + y2;
    if x1.len() < x2.len() {
        assert(s[x1.len() as int] == sep);
        assert(t[x1.len() as int] == x2[x1.len() as int]);
    }
    if x2.len() < x1.len() {
        assert(t[x2.len() as int] == sep);
        assert(s[x2.len() as int] == x1[x2.len() as int]);
    }
    assert(x1 =~= s.take(x1.len() as int));
    assert(x2 =~= t.take(x2.len() as int));
    assert(y1 =~= s.skip(x1.len() as int + 1));
    assert(y2 =~= t.skip(x2.len() as int + 1));
}

/// Lists of semicolon-free tokens are recovered from their terminated concatenation.
pub proof fn lemma_terminated_injective(t1: Seq<Seq<char>>, t2: Seq<Seq<char>>)
    requires
        forall|i: int| 0 <= i < t1.len() ==> free_of_char(#[trigger] t1[i], ';'),
        forall|i: int| 0 <= i < t2.len() ==> free_of_char(#[trigger] t2[i], ';'),
        terminated(t1) == terminated(t2),
    ensures
        t1 == t2,
    decreases t1.len(),
{
    if t1.len() == 0 {
        if t2.len() > 0 {
            assert(terminated(t2).len() >= 1);
        }
        assert(t1 =~= t2);
    } else if t2.len() == 0 {
        assert(terminated(t1).len() >= 1);
    } else {
        lemma_split_at(t1[0], terminated(t1.drop_first()), t2[0], terminated(t2.drop_first()), ';');
        assert forall|i: int| 0 <= i < t1.drop_first().len() implies free_of_char(
            #[trigger] t1.drop_first()[i],
            ';',
        ) by {
            assert(t1.drop_first()[i] == t1[i + 1]);
        }
        assert forall|i: int| 0 <= i < t2.drop_first().len() implies free_of_char(
            #[trigger] t2.drop_first()[i],
            ';',
        ) by {
            assert(t2.drop_first()[i] == t2[i + 1]);
        }
        lemma_terminated_injective(t1.drop_first(), t2.drop_first());
        assert(t1 =~= t2) by {
            assert forall|i: int| 0 <= i < t1.len() implies t1[i] == t2[i] by {
                if i > 0 {
                    assert(t1[i] == t1.drop_first()[i - 1]);
                    assert(t2[i] == t2.drop_first()[i - 1]);
                }
            }
        }
    }
}

/// Terminated concatenation distributes over appending token lists.
pub proof fn lemma_terminated_append(a: Seq<Seq<char>>, b: Seq<Seq<char>>)
    ensures
        terminated(a + b) == terminated(a) + terminated(b),
    decreases a.len(),
{
    if a.len() == 0 {
        assert(a + b =~= b);
        assert(terminated(a) + terminated(b) =~= terminated(b));
    } else {
        assert((a + b).drop_first() =~= a.drop_first() + b);
        lemma_terminated_append(a.drop_first(), b);
        assert(terminated(a + b) =~= terminated(a) + terminated(b));
    }
}

/// A length token is recovered from its length prefix: equal tokens have equal values.
pub proof fn lemma_length_token_injective(v1: Seq<char>, v2: Seq<char>)
    requires
        length_token(v1) == length_token(v2),
    ensures
        v1 == v2,
{
    lemma_decimal_digits(v1.len());
    lemma_decimal_digits(v2.len());
    assert(free_of_char(decimal(v1.len()), ':'));
    assert(free_of_char(decimal(v2.len()), ':'));
    lemma_split_at(decimal(v1.len()), v1, decimal(v2.len()), v2, ':');
}

/// A length token of a semicolon-free value is semicolon-free.
pub proof fn lemma_length_token_plain(v: Seq<char>)
    requires
        free_of_char(v, ';'),
    ensures
        free_of_char(length_token(v), ';'),
        length_prefixed(v) == length_token(v) + seq![';'],
{
    lemma_decimal_digits(v.len());
    assert forall|i: int| 0 <= i < length_token(v).len() implies length_token(v)[i] != ';' by {
        if i < decimal(v.len()).len() {
        } else if i > decimal(v.len()).len() {
            assert(length_token(v)[i] == v[i - decimal(v.len()).len() - 1]);
        }
    }
}

} // verus!
