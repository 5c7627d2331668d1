use vstd::prelude::*;

verus! {

/// The character of decimal digit `d`.
pub open spec fn digit_char(d: nat) -> char {
    if d == 0 {
        '0'
    } else if d == 1 {
        '1'
    } else if d == 2 {
        '2'
    } else if d == 3 {
        '3'
    } else if d == 4 {
        '4'
    } else if d == 5 {
        '5'
    } else if d == 6 {
        '6'
    } else if d == 7 {
        '7'
    } else if d == 8 {
        '8'
    } else {
        '9'
    }
}

/// The decimal numeral of `n`, without leading zeros.
pub open spec fn decimal(n: nat) -> Seq<char>
    decreases n,
{
    if n < 10 {
        seq![digit_char(n)]
    } else {
        decimal(n / 10).push(digit_char(n % 10))
    }
}

/// The label of vertex `vert_idx` in symmetric copy `symmetry_idx`:
/// `"{vert_idx}:{symmetry_idx}"`.
pub open spec fn label_text(vert_idx: nat, symmetry_idx: nat) -> Seq<char> {
    decimal(vert_idx) + seq![':'] + decimal(symmetry_idx)
}

/// The number a string of decimal digits stands for, most significant
/// digit first, reading each character by its code (`'0'` is 48).
pub open spec fn numeral_value(s: Seq<char>) -> int
    decreases s.len(),
{
    if s.len() == 0 {
        0
    } else {
        numeral_value(s.drop_last()) * 10 + (s.last() as int - 48)
    }
}

/// Every character is one of `'0'` to `'9'`.
pub open spec fn all_digits(s: Seq<char>) -> bool {
    forall|i: int| 0 <= i < s.len() ==> 48 <= (#[trigger] s[i]) as int <= 57
}

/// The numeral of `n` is a non-empty string of decimal digits, without a
/// leading zero unless `n` is zero, that reads back as `n`.
pub proof fn law_decimal_reads_back(n: nat)
    ensures
        numeral_value(decimal(n)) == n,
        all_digits(decimal(n)),
        decimal(n).len() >= 1,
        n > 0 ==> decimal(n)[0] != '0',
    decreases n,
{
    if n >= 10 {
        law_decimal_reads_back(n / 10);
        let d = decimal(n / 10);
        let c = digit_char(n % 10);
        assert(decimal(n) == d.push(c));
        assert(d.push(c).drop_last() =~= d);
        assert(c as int == 48 + n % 10);
        assert(d.push(c).last() == c);
        assert(numeral_value(decimal(n)) == numeral_value(d) * 10 + (n % 10));
        assert((n / 10) * 10 + n % 10 == n);
        assert(decimal(n)[0] == d[0]);
        assert forall|i: int| 0 <= i < decimal(n).len() implies 48 <= (
        #[trigger] decimal(n)[i]) as int <= 57 by {
            if i < d.len() {
                assert(decimal(n)[i] == d[i]);
            }
        }
    } else {
        assert(digit_char(n) as int == 48 + n);
        assert(seq![digit_char(n)].drop_last() =~= Seq::<char>::empty());
        assert(numeral_value(Seq::<char>::empty()) == 0);
        assert(numeral_value(decimal(n)) == 0 * 10 + (digit_char(n) as int - 48));
    }
}

/// A vertex label reads `"{vert_idx}:{symmetry_idx}"`: the digits before its
/// only `':'` read back as the vertex, the digits after it as the symmetry.
pub proof fn law_label_reads_back(vert_idx: nat, symmetry_idx: nat)
    ensures
        ({
            let label = label_text(vert_idx, symmetry_idx);
            let k = decimal(vert_idx).len() as int;
            &&& 0 < k < label.len() - 1
            &&& label[k] == ':'
            &&& numeral_value(label.take(k)) == vert_idx
            &&& all_digits(label.take(k))
            &&& numeral_value(label.skip(k + 1)) == symmetry_idx
            &&& all_digits(label.skip(k + 1))
        }),
{
    law_decimal_reads_back(vert_idx);
    law_decimal_reads_back(symmetry_idx);
    let label = label_text(vert_idx, symmetry_idx);
    let k = decimal(vert_idx).len() as int;
    assert(label.take(k) =~= decimal(vert_idx));
    assert(label.skip(k + 1) =~= decimal(symmetry_idx));
    assert(label[k] == ':');
}

/// The one-character string of decimal digit `d`.
fn digit_str(d: usize) -> (s: &'static str)
    requires
        d < 10,
    ensures
        s@ == seq![digit_char(d as nat)],
{
    if d == 0 {
        proof { reveal_strlit("0"); }
        "0"
    } else if d == 1 {
        proof { reveal_strlit("1"); }
        "1"
    } else if d == 2 {
        proof { reveal_strlit("2"); }
        "2"
    } else if d == 3 {
        proof { reveal_strlit("3"); }
        "3"
    } else if d == 4 {
        proof { reveal_strlit("4"); }
        "4"
    } else if d == 5 {
        proof { reveal_strlit("5"); }
        "5"
    } else if d == 6 {
        proof { reveal_strlit("6"); }
        "6"
    } else if d == 7 {
        proof { reveal_strlit("7"); }
        "7"
    } else if d == 8 {
        proof { reveal_strlit("8"); }
        "8"
    } else {
        proof { reveal_strlit("9"); }
        "9"
    }
}

/// Appends the decimal numeral of `n` to `s`.
fn push_decimal(s: &mut String, n: usize)
    ensures
        final(s)@ == old(s)@ + decimal(n as nat),
    decreases n,
{
    if n >= 10 {
        push_decimal(s, n / 10);
    }
    s.append(digit_str(n % 10));
    assert(s@ =~= old(s)@ + decimal(n as nat)) by {
        if n >= 10 {
            assert(decimal(n as nat) == decimal((n / 10) as nat).push(digit_char((n % 10) as nat)));
        }
    }
}

/// The label `"{vert_idx}:{symmetry_idx}"` shown next to a vertex.
pub fn vertex_label(vert_idx: usize, symmetry_idx: usize) -> (label: String)
    ensures
        label@ == label_text(vert_idx as nat, symmetry_idx as nat),
{
    let mut label = String::new();
    push_decimal(&mut label, vert_idx);
    proof { reveal_strlit(":"); }
    label.append(":");
    push_decimal(&mut label, symmetry_idx);
    assert(label@ =~= label_text(vert_idx as nat, symmetry_idx as nat));
    label
}

} // verus!
