//! Text building blocks for the reports: decimal digit strings, padding to a
//! column width, and lexicographic ordering of labels.

use vstd::prelude::*;

verus! {

/// The decimal digit character for a value below ten.
pub open spec fn digit_char(d: int) -> char {
    if d == 0 {
        '0'
    } else if d == 1 {
        '1'
    } else if d == 2 {
        '2'
    } else if d == 3 {
        '3'
    } else if d == 4 {
        '4'
    } else if d == 5 {
        '5'
    } else if d == 6 {
        '6'
    } else if d == 7 {
        '7'
    } else if d == 8 {
        '8'
    } else {
        '9'
    }
}

/// The decimal rendering of a natural number, most significant digit first.
pub open spec fn dec_digits(n: nat) -> Seq<char>
    decreases n,
{
    if n < 10 {
        seq![digit_char(n as int)]
    } else {
        dec_digits(n / 10).push(digit_char((n % 10) as int))
    }
}

/// The character is a decimal digit.
pub open spec fn is_dec_digit(c: char) -> bool {
    c == '0' || c == '1' || c == '2' || c == '3' || c == '4' || c == '5' || c == '6' || c == '7'
        || c == '8' || c == '9'
}

/// A decimal rendering is never empty and always starts with a digit.
pub proof fn lemma_dec_digits_shape(n: nat)
    ensures
        dec_digits(n).len() > 0,
        is_dec_digit(dec_digits(n)[0]),
    decreases n,
{
    if n >= 10 {
        lemma_dec_digits_shape(n / 10);
    }
}

/// A run of one character, as used for padding and separator rules.
pub open spec fn repeat_char(c: char, k: nat) -> Seq<char>
    decreases k,
{
    if k == 0 {
        Seq::empty()
    } else {
        repeat_char(c, (k - 1) as nat).push(c)
    }
}

/// A repeated character contributes exactly its count.
pub proof fn lemma_repeat_char_len(c: char, k: nat)
    ensures
        repeat_char(c, k).len() == k,
    decreases k,
{
    if k > 0 {
        lemma_repeat_char_len(c, (k - 1) as nat);
    }
}

/// Content right-aligned in a column: spaces in front, none behind.
pub open spec fn spec_pad_left(t: Seq<char>, w: nat) -> Seq<char> {
    if t.len() >= w {
        t
    } else {
        repeat_char(' ', (w - t.len()) as nat) + t
    }
}

/// Content left-aligned in a column: spaces behind, none in front.
pub open spec fn spec_pad_right(t: Seq<char>, w: nat) -> Seq<char> {
    if t.len() >= w {
        t
    } else {
        t + repeat_char(' ', (w - t.len()) as nat)
    }
}

/// Three-way lexicographic comparison of two label texts by code point:
/// negative for less, zero for equal, positive for greater.
pub open spec fn lex_cmp(a: Seq<char>, b: Seq<char>) -> int
    decreases a.len(),
{
    if a.len() == 0 && b.len() == 0 {
        0
    } else if a.len() == 0 {
        -1
    } else if b.len() == 0 {
        1
    } else if (a[0] as u32) < (b[0] as u32) {
        -1
    } else if (a[0] as u32) > (b[0] as u32) {
        1
    } else {
        lex_cmp(a.skip(1), b.skip(1))
    }
}

/// The single-character string for a decimal digit.
pub fn digit_str(d: u128) -> (r: &'static str)
    requires
        d < 10,
    ensures
        r@ =~= seq![digit_char(d as int)],
{
    proof {
        reveal_strlit("0");
        reveal_strlit("1");
        reveal_strlit("2");
        reveal_strlit("3");
        reveal_strlit("4");
        reveal_strlit("5");
        reveal_strlit("6");
        reveal_strlit("7");
        reveal_strlit("8");
        reveal_strlit("9");
    }
    if d == 0 {
        "0"
    } else if d == 1 {
        "1"
    } else if d == 2 {
        "2"
    } else if d == 3 {
        "3"
    } else if d == 4 {
        "4"
    } else if d == 5 {
        "5"
    } else if d == 6 {
        "6"
    } else if d == 7 {
        "7"
    } else if d == 8 {
        "8"
    } else {
        "9"
    }
}

/// Appends the decimal rendering of `n` to `s`.
pub fn append_decimal(s: String, n: u128) -> (r: String)
    ensures
        r@ == s@ + dec_digits(n as nat),
    decreases n,
{
    if n < 10 {
        let r = s.concat(digit_str(n));
        proof {
            assert(r@ =~= s@ + dec_digits(n as nat));
        }
        r
    } else {
        proof {
            assert(n / 10 < n) by (nonlinear_arith)
                requires
                    n >= 10,
            ;
        }
        let s2 = append_decimal(s, n / 10);
        let r = s2.concat(digit_str(n % 10));
        proof {
            assert(r@ =~= s@ + dec_digits(n as nat));
        }
        r
    }
}

/// Appends `k` copies of a space to `s`.
pub fn append_spaces(s: String, k: usize) -> (r: String)
    ensures
        r@ == s@ + repeat_char(' ', k as nat),
    decreases k,
{
    proof {
        reveal_strlit(" ");
    }
    if k == 0 {
        proof {
            assert(s@ =~= s@ + repeat_char(' ', 0));
        }
        s
    } else {
        let s2 = append_spaces(s, k - 1);
        let r = s2.concat(" ");
        proof {
            assert(r@ =~= s@ + repeat_char(' ', k as nat));
        }
        r
    }
}

/// Appends `k` copies of a dash to `s`, as used for the separator rule.
pub fn append_dashes(s: String, k: usize) -> (r: String)
    ensures
        r@ == s@ + repeat_char('-', k as nat),
    decreases k,
{
    proof {
        reveal_strlit("-");
    }
    if k == 0 {
        proof {
            assert(s@ =~= s@ + repeat_char('-', 0));
        }
        s
    } else {
        let s2 = append_dashes(s, k - 1);
        let r = s2.concat("-");
        proof {
            assert(r@ =~= s@ + repeat_char('-', k as nat));
        }
        r
    }
}

/// Right-aligns `t` in a column of `w` characters.
pub fn pad_left(t: &str, w: usize) -> (r: String)
    ensures
        r@ == spec_pad_left(t@, w as nat),
{
    let l = t.unicode_len();
    if l >= w {
        t.to_owned()
    } else {
        let s = append_spaces(String::new(), w - l);
        let r = s.concat(t);
        proof {
            assert(r@ =~= spec_pad_left(t@, w as nat));
        }
        r
    }
}

/// Left-aligns `t` in a column of `w` characters.
pub fn pad_right(t: &str, w: usize) -> (r: String)
    ensures
        r@ == spec_pad_right(t@, w as nat),
{
    let l = t.unicode_len();
    if l >= w {
        t.to_owned()
    } else {
        let s = String::from_str(t);
        let r = append_spaces(s, w - l);
        proof {
            assert(r@ =~= spec_pad_right(t@, w as nat));
        }
        r
    }
}

/// Three-way lexicographic comparison, executable.
pub fn str_cmp(a: &str, b: &str) -> (r: i8)
    ensures
        r as int == lex_cmp(a@, b@),
    decreases a@.len(),
{
    let la = a.unicode_len();
    let lb = b.unicode_len();
    if la == 0 && lb == 0 {
        0
    } else if la == 0 {
        -1
    } else if lb == 0 {
        1
    } else {
        let ca = a.get_char(0);
        let cb = b.get_char(0);
        if (ca as u32) < (cb as u32) {
            -1
        } else if (ca as u32) > (cb as u32) {
            1
        } else {
            let ta = a.substring_char(1, la);
            let tb = b.substring_char(1, lb);
            proof {
                assert(ta@ =~= a@.skip(1));
                assert(tb@ =~= b@.skip(1));
            }
            str_cmp(ta, tb)
        }
    }
}

/// Lexicographic order is transitive in its strict form.
pub proof fn lemma_lex_cmp_transitive(a: Seq<char>, b: Seq<char>, c: Seq<char>)
    requires
        lex_cmp(a, b) < 0,
        lex_cmp(b, c) < 0,
    ensures
        lex_cmp(a, c) < 0,
    decreases a.len(),
{
    if a.len() == 0 {
        // c cannot be empty, since something is below it.
    } else {
        if (a[0] as u32) == (b[0] as u32) && (b[0] as u32) == (c[0] as u32) {
            lemma_lex_cmp_transitive(a.skip(1), b.skip(1), c.skip(1));
        }
    }
}

/// Texts that compare equal compare alike against everything else.
pub proof fn lemma_lex_cmp_congruent(a: Seq<char>, a2: Seq<char>, b: Seq<char>)
    requires
        lex_cmp(a, a2) == 0,
    ensures
        lex_cmp(a, b) == lex_cmp(a2, b),
    decreases a.len(),
{
    if a.len() > 0 && a2.len() > 0 && b.len() > 0 {
        lemma_lex_cmp_congruent(a.skip(1), a2.skip(1), b.skip(1));
    }
}

/// Swapping the sides of a comparison flips its sign.
pub proof fn lemma_lex_cmp_antisymmetric(a: Seq<char>, b: Seq<char>)
    ensures
        lex_cmp(a, b) == -lex_cmp(b, a),
    decreases a.len(),
{
    if a.len() > 0 && b.len() > 0 {
        lemma_lex_cmp_antisymmetric(a.skip(1), b.skip(1));
    }
}

} // verus!
