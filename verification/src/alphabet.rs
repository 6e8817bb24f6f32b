use vstd::prelude::*;

verus! {




/// The alphabet symbol at position `i`, for `0 <= i < 26`.
pub open spec fn alph_char(i: int) -> char {
    if i == 0 {
        'x'
    } else if i == 1 {
        'y'
    } else if i == 2 {
        'z'
    } else if i == 3 {
        'w'
    } else if i == 4 {
        'a'
    } else if i == 5 {
        'b'
    } else if i == 6 {
        'c'
    } else if i == 7 {
        'd'
    } else if i == 8 {
        'e'
    } else if i == 9 {
        'f'
    } else if i == 10 {
        'g'
    } else if i == 11 {
        'h'
    } else if i == 12 {
        'i'
    } else if i == 13 {
        'j'
    } else if i == 14 {
        'k'
    } else if i == 15 {
        'l'
    } else if i == 16 {
        'm'
    } else if i == 17 {
        'n'
    } else if i == 18 {
        'o'
    } else if i == 19 {
        'p'
    } else if i == 20 {
        'q'
    } else if i == 21 {
        'r'
    } else if i == 22 {
        's'
    } else if i == 23 {
        't'
    } else if i == 24 {
        'u'
    } else {
        'v'
    }
}

/// Whether `c` belongs to the naming alphabet.
pub open spec fn is_alpha(c: char) -> bool {
    exists|i: int| 0 <= i < 26 && alph_char(i) == c
}

/// Executable membership test for the naming alphabet.
pub fn is_alpha_char(c: char) -> (r: bool)
    ensures
        r == is_alpha(c),
{
    let r = match c {
        'x' | 'y' | 'z' | 'w' | 'a' | 'b' | 'c' | 'd' | 'e' | 'f' | 'g' | 'h' | 'i' | 'j' | 'k'
            | 'l' | 'm' | 'n' | 'o' | 'p' | 'q' | 'r' | 's' | 't' | 'u' | 'v' => true,
        _ => false,
    };
    proof {
        if r {
            assert(is_alpha(c)) by {
                if c == 'x' {
                    assert(alph_char(0) == c);
                } else if c == 'y' {
                    assert(alph_char(1) == c);
                } else if c == 'z' {
                    assert(alph_char(2) == c);
                } else if c == 'w' {
                    assert(alph_char(3) == c);
                } else if c == 'a' {
                    assert(alph_char(4) == c);
                } else if c == 'b' {
                    assert(alph_char(5) == c);
                } else if c == 'c' {
                    assert(alph_char(6) == c);
                } else if c == 'd' {
                    assert(alph_char(7) == c);
                } else if c == 'e' {
                    assert(alph_char(8) == c);
                } else if c == 'f' {
                    assert(alph_char(9) == c);
                } else if c == 'g' {
                    assert(alph_char(10) == c);
                } else if c == 'h' {
                    assert(alph_char(11) == c);
                } else if c == 'i' {
                    assert(alph_char(12) == c);
                } else if c == 'j' {
                    assert(alph_char(13) == c);
                } else if c == 'k' {
                    assert(alph_char(14) == c);
                } else if c == 'l' {
                    assert(alph_char(15) == c);
                } else if c == 'm' {
                    assert(alph_char(16) == c);
                } else if c == 'n' {
                    assert(alph_char(17) == c);
                } else if c == 'o' {
                    assert(alph_char(18) == c);
                } else if c == 'p' {
                    assert(alph_char(19) == c);
                } else if c == 'q' {
                    assert(alph_char(20) == c);
                } else if c == 'r' {
                    assert(alph_char(21) == c);
                } else if c == 's' {
                    assert(alph_char(22) == c);
                } else if c == 't' {
                    assert(alph_char(23) == c);
                } else {
                    assert(alph_char(24) == c || alph_char(25) == c);
                }
            }
        }
    }
    r
}

/// Executable table for [`alph_char`].
pub fn alph_char_at(i: usize) -> (r: char)
    requires
        0 <= i < 26,
    ensures
        r == alph_char(i as int),
{
    match i {
        0 => 'x',
        1 => 'y',
        2 => 'z',
        3 => 'w',
        4 => 'a',
        5 => 'b',
        6 => 'c',
        7 => 'd',
        8 => 'e',
        9 => 'f',
        10 => 'g',
        11 => 'h',
        12 => 'i',
        13 => 'j',
        14 => 'k',
        15 => 'l',
        16 => 'm',
        17 => 'n',
        18 => 'o',
        19 => 'p',
        20 => 'q',
        21 => 'r',
        22 => 's',
        23 => 't',
        24 => 'u',
        _ => 'v',
    }
}

/// The digits, most significant first, of `m` in the bijective base-26
/// numeral system over the naming alphabet; empty for `m == 0`.
pub open spec fn name_digits(m: nat) -> Seq<char>
    decreases m,
{
    if m == 0 {
        Seq::empty()
    } else {
        name_digits(((m - 1) / 26) as nat) + seq![alph_char((m - 1) % 26)]
    }
}

/// The canonical variable name for index `n`: index 0 maps to the first
/// alphabet symbol, index 26 to the first two-symbol name, and so on.
pub open spec fn name_of(n: nat) -> Seq<char> {
    name_digits(n + 1)
}

/// Two distinct numbers spell distinct digit strings.
pub proof fn lemma_name_digits_injective(m1: nat, m2: nat)
    requires
        name_digits(m1) == name_digits(m2),
    ensures
        m1 == m2,
    decreases m1,
{
    if m1 == 0 || m2 == 0 {
        if m1 != m2 {
            assert(name_digits(m1).len() != name_digits(m2).len());
        }
    } else {
        let d1 = name_digits(((m1 - 1) / 26) as nat);
        let d2 = name_digits(((m2 - 1) / 26) as nat);
        assert(name_digits(m1).last() == alph_char((m1 - 1) % 26));
        assert(name_digits(m2).last() == alph_char((m2 - 1) % 26));
        assert((m1 - 1) % 26 == (m2 - 1) % 26) by {
            lemma_alph_char_injective((m1 - 1) % 26, (m2 - 1) % 26);
        }
        assert(name_digits(m1).drop_last() =~= d1);
        assert(name_digits(m2).drop_last() =~= d2);
        lemma_name_digits_injective(((m1 - 1) / 26) as nat, ((m2 - 1) / 26) as nat);
        assert((m1 - 1) as int == 26 * ((m1 - 1) / 26) + (m1 - 1) % 26)
            by {
            vstd::arithmetic::div_mod::lemma_fundamental_div_mod((m1 - 1) as int, 26);
        }
        assert((m2 - 1) as int == 26 * ((m2 - 1) / 26) + (m2 - 1) % 26)
            by {
            vstd::arithmetic::div_mod::lemma_fundamental_div_mod((m2 - 1) as int, 26);
        }
    }
}

/// Distinct indices receive distinct canonical names.
pub proof fn lemma_name_of_injective(n1: nat, n2: nat)
    requires
        name_of(n1) == name_of(n2),
    ensures
        n1 == n2,
{
    lemma_name_digits_injective(n1 + 1, n2 + 1);
}

/// Distinct positions of the alphabet hold distinct symbols.
pub proof fn lemma_alph_char_injective(i: int, j: int)
    requires
        0 <= i < 26,
        0 <= j < 26,
        alph_char(i) == alph_char(j),
    ensures
        i == j,
{
}

} // verus!
