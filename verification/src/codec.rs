//! The pattern codec: the flat text form of a grid, rows joined by `;`,
//! cells within a row joined by `,`, each cell a decimal integer.

use vstd::prelude::*;

verus! {

/// The character for one decimal digit value.
pub open spec fn digit_char(d: int) -> char {
    if d == 0 {
        '0'
    } else if d == 1 {
        '1'
    } else if d == 2 {
        '2'
    } else if d == 3 {
        '3'
    } else if d == 4 {
        '4'
    } else if d == 5 {
        '5'
    } else if d == 6 {
        '6'
    } else if d == 7 {
        '7'
    } else if d == 8 {
        '8'
    } else {
        '9'
    }
}

/// The value of one decimal digit character, or `-1` for any other character.
pub open spec fn digit_val(c: char) -> int {
    if c == '0' {
        0
    } else if c == '1' {
        1
    } else if c == '2' {
        2
    } else if c == '3' {
        3
    } else if c == '4' {
        4
    } else if c == '5' {
        5
    } else if c == '6' {
        6
    } else if c == '7' {
        7
    } else if c == '8' {
        8
    } else if c == '9' {
        9
    } else {
        -1
    }
}

pub open spec fn is_digit(c: char) -> bool {
    digit_val(c) >= 0
}

/// The digits of `n` in base ten, most significant first; empty for zero.
pub open spec fn dec_digits(n: int) -> Seq<char>
    decreases n,
{
    if n <= 0 {
        Seq::empty()
    } else {
        dec_digits(n / 10).push(digit_char(n % 10))
    }
}

/// The decimal text of a non-negative number; zero is written `0`.
pub open spec fn dec_of(n: int) -> Seq<char> {
    if n == 0 {
        seq!['0']
    } else {
        dec_digits(n)
    }
}

/// The number read from a digit string, most significant first.
pub open spec fn digits_val(s: Seq<char>) -> int
    decreases s.len(),
{
    if s.len() == 0 {
        0
    } else {
        digits_val(s.drop_last()) * 10 + digit_val(s.last())
    }
}

pub open spec fn all_digits(s: Seq<char>) -> bool {
    forall|i: int| 0 <= i < s.len() ==> is_digit(#[trigger] s[i])
}

/// ASCII whitespace, tolerated around a cell token.
pub open spec fn is_space(c: char) -> bool {
    c == ' ' || c == '\t' || c == '\n' || c == '\r'
}

/// The string without its leading whitespace.
pub open spec fn trim_start(s: Seq<char>) -> Seq<char>
    decreases s.len(),
{
    if s.len() > 0 && is_space(s[0]) {
        trim_start(s.drop_first())
    } else {
        s
    }
}

/// The string without its trailing whitespace.
pub open spec fn trim_end(s: Seq<char>) -> Seq<char>
    decreases s.len(),
{
    if s.len() > 0 && is_space(s.last()) {
        trim_end(s.drop_last())
    } else {
        s
    }
}

/// The string without surrounding whitespace.
pub open spec fn trim_spaces(s: Seq<char>) -> Seq<char> {
    trim_end(trim_start(s))
}

/// What a cell token means: after stripping surrounding whitespace, a
/// non-empty all-digit string whose value fits a `u16`, and nothing else.
pub open spec fn spec_parse_u16(s: Seq<char>) -> Option<u16> {
    let t = trim_spaces(s);
    if t.len() > 0 && all_digits(t) && digits_val(t) <= 0xffff {
        Some(digits_val(t) as u16)
    } else {
        None
    }
}

/// A non-empty all-digit string has no whitespace to strip.
pub proof fn lemma_trim_of_digits(s: Seq<char>)
    requires
        s.len() > 0,
        all_digits(s),
    ensures
        trim_spaces(s) == s,
{
    assert(is_digit(s[0]));
    assert(!is_space(s[0]));
    assert(is_digit(s.last()));
    assert(!is_space(s.last()));
}

/// The decimal text of `n` is all digits.
pub proof fn lemma_dec_digits_all_digits(n: int)
    requires
        n >= 0,
    ensures
        all_digits(dec_digits(n)),
        n > 0 ==> dec_digits(n).len() > 0,
        all_digits(dec_of(n)),
        dec_of(n).len() > 0,
    decreases n,
{
    if n > 0 {
        lemma_dec_digits_all_digits(n / 10);
        let s = dec_digits(n);
        assert(forall|i: int|
            0 <= i < s.len() - 1 ==> s[i] == #[trigger] dec_digits(n / 10)[i]);
    }
}

/// A digit string's value is non-negative.
pub proof fn lemma_digits_val_nonneg(s: Seq<char>)
    requires
        all_digits(s),
    ensures
        digits_val(s) >= 0,
    decreases s.len(),
{
    if s.len() > 0 {
        assert(all_digits(s.drop_last())) by {
            assert(forall|i: int|
                0 <= i < s.len() - 1 ==> #[trigger] s.drop_last()[i] == s[i]);
        }
        lemma_digits_val_nonneg(s.drop_last());
    }
}

/// Reading back the decimal text of `n` yields `n`.
pub proof fn lemma_digits_val_of_dec_digits(n: int)
    requires
        n >= 0,
    ensures
        digits_val(dec_digits(n)) == n,
    decreases n,
{
    if n > 0 {
        lemma_digits_val_of_dec_digits(n / 10);
        let s = dec_digits(n);
        assert(s.drop_last() =~= dec_digits(n / 10));
        assert(s.last() == digit_char(n % 10));
        assert(digit_val(digit_char(n % 10)) == n % 10);
    }
}

/// The cell token round trip: parsing the decimal text of an in-range number
/// yields that number.
pub proof fn lemma_parse_of_dec(n: int)
    requires
        0 <= n <= 0xffff,
    ensures
        spec_parse_u16(dec_of(n)) == Some(n as u16),
{
    lemma_dec_digits_all_digits(n);
    lemma_digits_val_of_dec_digits(n);
    lemma_trim_of_digits(dec_of(n));
    if n == 0 {
        assert(dec_of(0) =~= seq!['0']);
        assert(dec_of(0).drop_last() =~= Seq::<char>::empty());
        assert(digits_val(dec_of(0)) == 0);
    }
}

/// The value of a longer digit string dominates the value of its prefix.
pub proof fn lemma_digits_val_prefix_monotone(s: Seq<char>, k: int)
    requires
        all_digits(s),
        0 <= k <= s.len(),
    ensures
        digits_val(s) >= digits_val(s.take(k)),
    decreases s.len() - k,
{
    if k < s.len() {
        assert(all_digits(s.drop_last())) by {
            assert(forall|i: int|
                0 <= i < s.len() - 1 ==> #[trigger] s.drop_last()[i] == s[i]);
        }
        if k == s.len() - 1 {
            assert(s.take(k) =~= s.drop_last());
        } else {
            lemma_digits_val_prefix_monotone(s.drop_last(), k);
            assert(s.drop_last().take(k) =~= s.take(k));
        }
        lemma_digits_val_nonneg(s.drop_last());
        assert(digits_val(s.drop_last()) * 10 >= digits_val(s.drop_last())) by (nonlinear_arith)
            requires
                digits_val(s.drop_last()) >= 0,
        ;
    } else {
        assert(s.take(k) =~= s);
    }
}

/// One decimal digit as text.
fn digit_str(d: u16) -> (r: &'static str)
    requires
        d < 10,
    ensures
        r@ =~= seq![digit_char(d as int)],
{
    proof {
        reveal_strlit("0");
        reveal_strlit("1");
        reveal_strlit("2");
        reveal_strlit("3");
        reveal_strlit("4");
        reveal_strlit("5");
        reveal_strlit("6");
        reveal_strlit("7");
        reveal_strlit("8");
        reveal_strlit("9");
    }
    if d == 0 {
        "0"
    } else if d == 1 {
        "1"
    } else if d == 2 {
        "2"
    } else if d == 3 {
        "3"
    } else if d == 4 {
        "4"
    } else if d == 5 {
        "5"
    } else if d == 6 {
        "6"
    } else if d == 7 {
        "7"
    } else if d == 8 {
        "8"
    } else {
        "9"
    }
}

/// The decimal text of a number.
pub fn u16_to_string(n: u16) -> (r: String)
    ensures
        r@ == dec_of(n as int),
{
    if n == 0 {
        let mut s = String::new();
        s.append(digit_str(0));
        proof {
            assert(s@ =~= dec_of(0));
        }
        return s;
    }
    let mut digits: Vec<u16> = Vec::new();
    let mut m = n;
    while m > 0
        invariant
            m >= 0,
            forall|i: int| 0 <= i < digits@.len() ==> #[trigger] digits@[i] < 10,
            dec_digits(n as int) =~= dec_digits(m as int) + digits@.reverse().map_values(
                |d: u16| digit_char(d as int),
            ),
        decreases m,
    {
        let d = m % 10;
        let ghost old_digits = digits@;
        digits.push(d);
        m = m / 10;
        proof {
            assert(digits@.reverse().map_values(|d: u16| digit_char(d as int)) =~= seq![
                digit_char(d as int),
            ] + old_digits.reverse().map_values(|d: u16| digit_char(d as int)));
            assert(dec_digits((m * 10 + d) as int) == dec_digits(m as int).push(
                digit_char(d as int),
            )) by {
                if m * 10 + d > 0 {
                    assert((m * 10 + d) as int / 10 == m as int);
                    assert((m * 10 + d) as int % 10 == d as int);
                }
            }
            assert(dec_digits(n as int) =~= dec_digits(m as int) + digits@.reverse().map_values(
                |d: u16| digit_char(d as int),
            ));
        }
    }
    let mut s = String::new();
    let mut k = digits.len();
    while k > 0
        invariant
            k <= digits@.len(),
            forall|i: int| 0 <= i < digits@.len() ==> #[trigger] digits@[i] < 10,
            dec_digits(n as int) =~= dec_digits(0) + digits@.reverse().map_values(
                |d: u16| digit_char(d as int),
            ),
            s@ =~= digits@.reverse().map_values(|d: u16| digit_char(d as int)).take(
                digits@.len() - k,
            ),
        decreases k,
    {
        k = k - 1;
        s.append(digit_str(digits[k]));
        proof {
            let full = digits@.reverse().map_values(|d: u16| digit_char(d as int));
            assert(full[digits@.len() - k - 1] == digit_char(digits@[k as int] as int));
            assert(s@ =~= full.take(digits@.len() - k));
        }
    }
    proof {
        let full = digits@.reverse().map_values(|d: u16| digit_char(d as int));
        assert(s@ =~= full);
        assert(dec_of(n as int) =~= s@);
    }
    s
}

/// The pieces of `s` between occurrences of `sep`; always at least one piece,
/// and an empty string is one empty piece.
pub open spec fn split_on(s: Seq<char>, sep: char) -> Seq<Seq<char>>
    decreases s.len(),
{
    if s.len() == 0 {
        seq![Seq::<char>::empty()]
    } else if s[0] == sep {
        seq![Seq::<char>::empty()] + split_on(s.drop_first(), sep)
    } else {
        let rest = split_on(s.drop_first(), sep);
        seq![seq![s[0]] + rest[0]] + rest.drop_first()
    }
}

/// The pieces joined back with `sep` between them.
pub open spec fn join_with(parts: Seq<Seq<char>>, sep: char) -> Seq<char>
    decreases parts.len(),
{
    if parts.len() == 0 {
        Seq::empty()
    } else if parts.len() == 1 {
        parts[0]
    } else {
        parts[0] + seq![sep] + join_with(parts.drop_first(), sep)
    }
}

/// Splitting always yields at least one piece.
pub proof fn lemma_split_nonempty(s: Seq<char>, sep: char)
    ensures
        split_on(s, sep).len() >= 1,
    decreases s.len(),
{
    if s.len() > 0 {
        lemma_split_nonempty(s.drop_first(), sep);
    }
}

/// A string free of the separator splits into itself alone.
pub proof fn lemma_split_no_sep(s: Seq<char>, sep: char)
    requires
        !s.contains(sep),
    ensures
        split_on(s, sep) =~= seq![s],
    decreases s.len(),
{
    if s.len() == 0 {
        assert(Seq::<char>::empty() =~= s);
    } else {
        assert(s[0] != sep);
        assert(!s.drop_first().contains(sep)) by {
            assert(forall|i: int|
                0 <= i < s.len() - 1 ==> #[trigger] s.drop_first()[i] == s[i + 1]);
        }
        lemma_split_no_sep(s.drop_first(), sep);
        assert(seq![s[0]] + s.drop_first() =~= s);
        assert(split_on(s, sep) =~= seq![s]);
    }
}

/// Splitting walks past a separator-free head piece.
pub proof fn lemma_split_head(a: Seq<char>, t: Seq<char>, sep: char)
    requires
        !a.contains(sep),
    ensures
        split_on(a + seq![sep] + t, sep) =~= seq![a] + split_on(t, sep),
    decreases a.len(),
{
    let s = a + seq![sep] + t;
    if a.len() == 0 {
        assert(s[0] == sep);
        assert(s.drop_first() =~= t);
        assert(a =~= Seq::<char>::empty());
        assert(split_on(s, sep) =~= seq![a] + split_on(t, sep));
    } else {
        assert(s[0] == a[0]);
        assert(a[0] != sep);
        assert(!a.drop_first().contains(sep)) by {
            assert(forall|i: int|
                0 <= i < a.len() - 1 ==> #[trigger] a.drop_first()[i] == a[i + 1]);
        }
        lemma_split_head(a.drop_first(), t, sep);
        assert(s.drop_first() =~= a.drop_first() + seq![sep] + t);
        let rest = split_on(s.drop_first(), sep);
        assert(rest =~= seq![a.drop_first()] + split_on(t, sep));
        assert(rest[0] == a.drop_first());
        assert(seq![s[0]] + rest[0] =~= a);
        assert(rest.drop_first() =~= split_on(t, sep));
    }
}

/// The split/join round trip: joining pieces that are free of the separator
/// and splitting again restores exactly the pieces.
pub proof fn lemma_split_of_join(parts: Seq<Seq<char>>, sep: char)
    requires
        parts.len() >= 1,
        forall|i: int| 0 <= i < parts.len() ==> !(#[trigger] parts[i]).contains(sep),
    ensures
        split_on(join_with(parts, sep), sep) =~= parts,
    decreases parts.len(),
{
    if parts.len() == 1 {
        lemma_split_no_sep(parts[0], sep);
        assert(split_on(join_with(parts, sep), sep) =~= parts);
    } else {
        lemma_split_of_join(parts.drop_first(), sep);
        lemma_split_head(parts[0], join_with(parts.drop_first(), sep), sep);
        assert(split_on(join_with(parts, sep), sep) =~= seq![parts[0]] + parts.drop_first());
        assert(seq![parts[0]] + parts.drop_first() =~= parts);
    }
}

/// The decimal value of a digit character.
pub fn digit_of(c: char) -> (r: Option<u16>)
    ensures
        r matches Some(d) ==> d == digit_val(c) && is_digit(c),
        r is None ==> !is_digit(c),
{
    if c == '0' {
        Some(0)
    } else if c == '1' {
        Some(1)
    } else if c == '2' {
        Some(2)
    } else if c == '3' {
        Some(3)
    } else if c == '4' {
        Some(4)
    } else if c == '5' {
        Some(5)
    } else if c == '6' {
        Some(6)
    } else if c == '7' {
        Some(7)
    } else if c == '8' {
        Some(8)
    } else if c == '9' {
        Some(9)
    } else {
        None
    }
}

/// Is this character whitespace a token may carry?
fn is_space_char(c: char) -> (r: bool)
    ensures
        r == is_space(c),
{
    c == ' ' || c == '\t' || c == '\n' || c == '\r'
}

/// Parse the characters of `s` between `from` and `to` as one cell token,
/// tolerating surrounding whitespace.
pub fn parse_range(s: &str, from: usize, to: usize) -> (r: Option<u16>)
    requires
        from <= to <= s@.len(),
    ensures
        r == spec_parse_u16(s@.subrange(from as int, to as int)),
{
    let ghost orig = s@.subrange(from as int, to as int);
    let mut a = from;
    while a < to
        invariant_except_break
            from <= a <= to <= s@.len(),
            orig == s@.subrange(from as int, to as int),
            trim_start(orig) == trim_start(s@.subrange(a as int, to as int)),
        ensures
            from <= a <= to <= s@.len(),
            orig == s@.subrange(from as int, to as int),
            trim_start(orig) == s@.subrange(a as int, to as int),
        decreases to - a,
    {
        let c = s.get_char(a);
        if !is_space_char(c) {
            proof {
                assert(s@.subrange(a as int, to as int)[0] == c);
            }
            break;
        }
        proof {
            assert(s@.subrange(a as int, to as int).drop_first() =~= s@.subrange(
                a + 1,
                to as int,
            ));
        }
        a += 1;
        proof {
            if a == to {
                assert(s@.subrange(a as int, to as int) =~= Seq::<char>::empty());
            }
        }
    }
    proof {
        if a == to {
            assert(s@.subrange(a as int, to as int) =~= Seq::<char>::empty());
        }
    }
    let mut b = to;
    while b > a
        invariant_except_break
            from <= a <= b <= to <= s@.len(),
            trim_start(orig) == s@.subrange(a as int, to as int),
            trim_spaces(orig) == trim_end(s@.subrange(a as int, b as int)),
        ensures
            from <= a <= b <= to <= s@.len(),
            trim_spaces(orig) == s@.subrange(a as int, b as int),
        decreases b - a,
    {
        let c = s.get_char(b - 1);
        if !is_space_char(c) {
            proof {
                assert(s@.subrange(a as int, b as int).last() == c);
            }
            break;
        }
        proof {
            assert(s@.subrange(a as int, b as int).drop_last() =~= s@.subrange(
                a as int,
                b - 1,
            ));
        }
        b -= 1;
        proof {
            if b == a {
                assert(s@.subrange(a as int, b as int) =~= Seq::<char>::empty());
            }
        }
    }
    proof {
        if b == a {
            assert(s@.subrange(a as int, b as int) =~= Seq::<char>::empty());
        }
    }
    let ghost tok = s@.subrange(a as int, b as int);
    if a == b {
        return None;
    }
    let mut acc: u32 = 0;
    let mut i = a;
    while i < b
        invariant
            from <= a <= i <= b <= to <= s@.len(),
            orig == s@.subrange(from as int, to as int),
            tok == s@.subrange(a as int, b as int),
            trim_spaces(orig) == tok,
            all_digits(s@.subrange(a as int, i as int)),
            acc == digits_val(s@.subrange(a as int, i as int)),
            acc <= 0xffff,
        decreases b - i,
    {
        let c = s.get_char(i);
        let ghost pre = s@.subrange(a as int, i as int);
        let ghost cur = s@.subrange(a as int, i + 1);
        proof {
            assert(cur.drop_last() =~= pre);
            assert(cur.last() == c);
        }
        match digit_of(c) {
            None => {
                proof {
                    assert(tok[i - a] == c);
                    assert(!all_digits(tok));
                    assert(trim_spaces(s@.subrange(from as int, to as int)) == tok);
                    assert(spec_parse_u16(s@.subrange(from as int, to as int)) is None);
                }
                return None;
            },
            Some(d) => {
                let acc2 = acc * 10 + d as u32;
                proof {
                    assert(all_digits(cur)) by {
                        assert(forall|k: int| 0 <= k < pre.len() ==> cur[k] == #[trigger] pre[k]);
                    }
                    assert(acc2 == digits_val(cur));
                }
                if acc2 > 0xffff {
                    proof {
                        if all_digits(tok) {
                            lemma_digits_val_prefix_monotone(tok, i + 1 - a);
                            assert(tok.take(i + 1 - a) =~= cur);
                        }
                        assert(trim_spaces(s@.subrange(from as int, to as int)) == tok);
                        assert(spec_parse_u16(s@.subrange(from as int, to as int)) is None);
                    }
                    return None;
                }
                acc = acc2;
            },
        }
        i += 1;
    }
    proof {
        assert(s@.subrange(a as int, b as int) =~= tok);
        assert(tok.len() > 0);
    }
    Some(acc as u16)
}

/// Split the characters of `s` between `from` and `to` on `sep`, returning
/// the index range of each piece.
pub fn split_range(s: &str, from: usize, to: usize, sep: char) -> (r: Vec<(usize, usize)>)
    requires
        from <= to <= s@.len(),
    ensures
        forall|k: int|
            0 <= k < r@.len() ==> from <= (#[trigger] r@[k]).0 <= r@[k].1 <= to,
        r@.map_values(|p: (usize, usize)| s@.subrange(p.0 as int, p.1 as int)) =~~= split_on(
            s@.subrange(from as int, to as int),
            sep,
        ),
{
    let mut parts: Vec<(usize, usize)> = Vec::new();
    let mut start = from;
    let mut i = from;
    proof {
        lemma_split_nonempty(s@.subrange(from as int, to as int), sep);
    }
    while i < to
        invariant
            from <= start <= i <= to <= s@.len(),
            forall|k: int|
                0 <= k < parts@.len() ==> from <= (#[trigger] parts@[k]).0 <= parts@[k].1 <= to,
            ({
                let rem = split_on(s@.subrange(i as int, to as int), sep);
                split_on(s@.subrange(from as int, to as int), sep) =~~= parts@.map_values(
                    |p: (usize, usize)| s@.subrange(p.0 as int, p.1 as int),
                ) + seq![s@.subrange(start as int, i as int) + rem[0]] + rem.drop_first()
            }),
        decreases to - i,
    {
        let ghost rem = split_on(s@.subrange(i as int, to as int), sep);
        let ghost rem2 = split_on(s@.subrange(i + 1, to as int), sep);
        proof {
            lemma_split_nonempty(s@.subrange(i as int, to as int), sep);
            lemma_split_nonempty(s@.subrange(i + 1, to as int), sep);
            assert(s@.subrange(i as int, to as int).drop_first() =~= s@.subrange(i + 1, to as int));
        }
        let c = s.get_char(i);
        if c == sep {
            proof {
                assert(rem =~= seq![Seq::<char>::empty()] + rem2);
                assert(rem[0] =~= Seq::<char>::empty());
                assert(s@.subrange(start as int, i as int) + rem[0] =~= s@.subrange(
                    start as int,
                    i as int,
                ));
            }
            let ghost old_parts = parts@;
            parts.push((start, i));
            proof {
                let f = |p: (usize, usize)| s@.subrange(p.0 as int, p.1 as int);
                assert(parts@.map_values(f) =~= old_parts.map_values(f) + seq![s@.subrange(
                    start as int,
                    i as int,
                )]);
                assert(rem.drop_first() =~= rem2);
                assert(s@.subrange(i + 1, i + 1) + rem2[0] =~= rem2[0]);
                assert(split_on(s@.subrange(from as int, to as int), sep) =~~= parts@.map_values(f)
                    + seq![s@.subrange(i + 1, i + 1) + rem2[0]] + rem2.drop_first());
            }
            start = i + 1;
        } else {
            proof {
                assert(s@.subrange(i as int, to as int)[0] == c);
                assert(rem =~= seq![seq![c] + rem2[0]] + rem2.drop_first());
                assert(rem[0] =~= seq![c] + rem2[0]);
                assert(s@.subrange(start as int, i as int) + rem[0] =~= s@.subrange(
                    start as int,
                    i + 1,
                ) + rem2[0]);
                assert(rem.drop_first() =~= rem2.drop_first());
            }
        }
        i += 1;
    }
    proof {
        let rem = split_on(s@.subrange(to as int, to as int), sep);
        assert(s@.subrange(to as int, to as int) =~= Seq::<char>::empty());
        assert(rem =~= seq![Seq::<char>::empty()]);
        assert(s@.subrange(start as int, to as int) + rem[0] =~= s@.subrange(
            start as int,
            to as int,
        ));
    }
    let ghost old_parts = parts@;
    parts.push((start, to));
    proof {
        let f = |p: (usize, usize)| s@.subrange(p.0 as int, p.1 as int);
        assert(parts@.map_values(f) =~= old_parts.map_values(f) + seq![s@.subrange(
            start as int,
            to as int,
        )]);
    }
    parts
}

/// One encoded row: the cells' decimal texts joined by `,`.
pub open spec fn encode_row(r: Seq<u16>) -> Seq<char> {
    join_with(r.map_values(|x: u16| dec_of(x as int)), ',')
}

/// The encoded grid: the encoded rows joined by `;`.
pub open spec fn spec_encode(g: Seq<Seq<u16>>) -> Seq<char> {
    join_with(g.map_values(|r: Seq<u16>| encode_row(r)), ';')
}

/// What decoding one row means: every `,`-separated token parses as a cell.
pub open spec fn spec_parse_row(t: Seq<char>) -> Option<Seq<u16>> {
    let cells = split_on(t, ',');
    if forall|i: int| 0 <= i < cells.len() ==> (#[trigger] spec_parse_u16(cells[i])) is Some {
        Some(Seq::new(cells.len(), |i: int| spec_parse_u16(cells[i])->Some_0))
    } else {
        None
    }
}

/// What decoding a pattern means: every `;`-separated row decodes.
pub open spec fn spec_decode(s: Seq<char>) -> Option<Seq<Seq<u16>>> {
    let rows = split_on(s, ';');
    if forall|i: int| 0 <= i < rows.len() ==> (#[trigger] spec_parse_row(rows[i])) is Some {
        Some(Seq::new(rows.len(), |i: int| spec_parse_row(rows[i])->Some_0))
    } else {
        None
    }
}

/// Joining one more piece appends a separator and the piece.
pub proof fn lemma_join_take_push(parts: Seq<Seq<char>>, sep: char, j: int)
    requires
        0 <= j < parts.len(),
    ensures
        j == 0 ==> join_with(parts.take(1), sep) =~= parts[0],
        j >= 1 ==> join_with(parts.take(j + 1), sep) =~= join_with(parts.take(j), sep)
            + seq![sep] + parts[j],
    decreases j,
{
    if j == 0 {
        assert(parts.take(1) =~= seq![parts[0]]);
    } else if j == 1 {
        assert(parts.take(2).drop_first() =~= seq![parts[1]]);
        assert(join_with(parts.take(2).drop_first(), sep) == parts[1]) by {
            assert(join_with(seq![parts[1]], sep) == parts[1]);
        }
        assert(parts.take(2)[0] == parts[0]);
        assert(parts.take(1) =~= seq![parts[0]]);
        assert(join_with(parts.take(2), sep) =~= parts[0] + seq![sep] + parts[1]);
    } else {
        let dp = parts.drop_first();
        lemma_join_take_push(dp, sep, j - 1);
        assert(parts.take(j + 1).drop_first() =~= dp.take(j));
        assert(parts.take(j).drop_first() =~= dp.take(j - 1));
        assert(dp[j - 1] == parts[j]);
        assert(join_with(parts.take(j + 1), sep) =~= parts[0] + seq![sep] + join_with(
            dp.take(j),
            sep,
        ));
        assert(join_with(parts.take(j), sep) =~= parts[0] + seq![sep] + join_with(
            dp.take(j - 1),
            sep,
        ));
        assert(join_with(parts.take(j + 1), sep) =~= join_with(parts.take(j), sep) + seq![sep]
            + parts[j]);
    }
}

/// One row of cells as text, cells joined by `,`.
pub fn encode_row_str(row: &Vec<u16>) -> (r: String)
    ensures
        r@ == encode_row(row@),
{
    let ghost cellsv = row@.map_values(|x: u16| dec_of(x as int));
    let mut s = String::new();
    let mut j: usize = 0;
    proof {
        reveal_strlit(",");
        assert(","@ =~= seq![',']);
    }
    while j < row.len()
        invariant
            j <= row@.len(),
            cellsv == row@.map_values(|x: u16| dec_of(x as int)),
            ","@ =~= seq![','],
            s@ =~= join_with(cellsv.take(j as int), ','),
        decreases row@.len() - j,
    {
        if j > 0 {
            s.append(",");
        }
        let cell = u16_to_string(row[j]);
        s.append(cell.as_str());
        proof {
            lemma_join_take_push(cellsv, ',', j as int);
            assert(cellsv[j as int] == dec_of(row@[j as int] as int));
            assert(s@ =~= join_with(cellsv.take(j + 1), ','));
        }
        j += 1;
    }
    proof {
        assert(cellsv.take(cellsv.len() as int) =~= cellsv);
    }
    s
}

/// The whole grid as text, rows joined by `;`.
pub fn encode_pattern(v: &Vec<Vec<u16>>) -> (r: String)
    ensures
        r@ == spec_encode(v@.map_values(|row: Vec<u16>| row@)),
{
    let ghost gv = v@.map_values(|row: Vec<u16>| row@);
    let ghost rowsv = gv.map_values(|r: Seq<u16>| encode_row(r));
    let mut s = String::new();
    let mut i: usize = 0;
    proof {
        reveal_strlit(";");
        assert(";"@ =~= seq![';']);
    }
    while i < v.len()
        invariant
            i <= v@.len(),
            gv == v@.map_values(|row: Vec<u16>| row@),
            rowsv == gv.map_values(|r: Seq<u16>| encode_row(r)),
            ";"@ =~= seq![';'],
            s@ =~= join_with(rowsv.take(i as int), ';'),
        decreases v@.len() - i,
    {
        if i > 0 {
            s.append(";");
        }
        let row = encode_row_str(&v[i]);
        s.append(row.as_str());
        proof {
            lemma_join_take_push(rowsv, ';', i as int);
            assert(rowsv[i as int] == encode_row(gv[i as int]));
            assert(s@ =~= join_with(rowsv.take(i + 1), ';'));
        }
        i += 1;
    }
    proof {
        assert(rowsv.take(rowsv.len() as int) =~= rowsv);
    }
    s
}

/// Decode a pattern string into rows of cell states; `None` when any token
/// is not an in-range decimal number.
pub fn decode_pattern(s: &str) -> (r: Option<Vec<Vec<u16>>>)
    ensures
        match r {
            Some(v) => spec_decode(s@) == Some(v@.map_values(|row: Vec<u16>| row@)),
            None => spec_decode(s@) is None,
        },
{
    let n = s.unicode_len();
    let row_ranges = split_range(s, 0, n, ';');
    let ghost rows = split_on(s@, ';');
    proof {
        assert(s@.subrange(0, n as int) =~= s@);
        assert(row_ranges@.map_values(|p: (usize, usize)| s@.subrange(p.0 as int, p.1 as int))
            =~~= rows);
    }
    let mut out: Vec<Vec<u16>> = Vec::new();
    let mut i: usize = 0;
    while i < row_ranges.len()
        invariant
            i <= row_ranges@.len(),
            rows == split_on(s@, ';'),
            forall|k: int|
                0 <= k < row_ranges@.len() ==> 0 <= (#[trigger] row_ranges@[k]).0
                    <= row_ranges@[k].1 <= s@.len(),
            row_ranges@.map_values(|p: (usize, usize)| s@.subrange(p.0 as int, p.1 as int))
                =~~= rows,
            out@.len() == i,
            forall|k: int|
                0 <= k < i ==> #[trigger] spec_parse_row(rows[k]) == Some(out@[k]@),
        decreases row_ranges@.len() - i,
    {
        let (a, b) = row_ranges[i];
        let ghost rowtext = rows[i as int];
        proof {
            assert(rowtext == s@.subrange(a as int, b as int));
        }
        let cell_ranges = split_range(s, a, b, ',');
        let ghost cells = split_on(rowtext, ',');
        proof {
            assert(cell_ranges@.map_values(
                |p: (usize, usize)| s@.subrange(p.0 as int, p.1 as int),
            ) =~~= cells);
        }
        let mut rowvals: Vec<u16> = Vec::new();
        let mut j: usize = 0;
        while j < cell_ranges.len()
            invariant
                j <= cell_ranges@.len(),
                i < row_ranges@.len(),
                rows == split_on(s@, ';'),
                row_ranges@.map_values(|p: (usize, usize)| s@.subrange(p.0 as int, p.1 as int))
                    =~~= rows,
                rowtext == rows[i as int],
                cells == split_on(rowtext, ','),
                forall|k: int|
                    0 <= k < cell_ranges@.len() ==> 0 <= (#[trigger] cell_ranges@[k]).0
                        <= cell_ranges@[k].1 <= s@.len(),
                cell_ranges@.map_values(|p: (usize, usize)| s@.subrange(p.0 as int, p.1 as int))
                    =~~= cells,
                rowvals@.len() == j,
                forall|k: int|
                    0 <= k < j ==> #[trigger] spec_parse_u16(cells[k]) == Some(rowvals@[k]),
            decreases cell_ranges@.len() - j,
        {
            let (ca, cb) = cell_ranges[j];
            proof {
                assert(cells[j as int] == s@.subrange(ca as int, cb as int));
            }
            match parse_range(s, ca, cb) {
                Some(val) => {
                    rowvals.push(val);
                },
                None => {
                    proof {
                        assert(spec_parse_u16(cells[j as int]) is None);
                        assert(spec_parse_row(rowtext) is None);
                        assert(spec_parse_row(rows[i as int]) is None);
                        assert(spec_decode(s@) is None);
                    }
                    return None;
                },
            }
            j += 1;
        }
        proof {
            assert(spec_parse_row(rowtext) == Some(rowvals@)) by {
                assert(forall|k: int|
                    0 <= k < cells.len() ==> (#[trigger] spec_parse_u16(cells[k])) is Some);
                assert(Seq::new(cells.len(), |k: int| spec_parse_u16(cells[k])->Some_0)
                    =~= rowvals@);
            }
        }
        out.push(rowvals);
        i += 1;
    }
    proof {
        assert(spec_decode(s@) == Some(out@.map_values(|row: Vec<u16>| row@))) by {
            assert(forall|k: int|
                0 <= k < rows.len() ==> (#[trigger] spec_parse_row(rows[k])) is Some);
            assert(Seq::new(rows.len(), |k: int| spec_parse_row(rows[k])->Some_0)
                =~= out@.map_values(|row: Vec<u16>| row@));
        }
    }
    Some(out)
}

/// A decimal text contains no separator character.
pub proof fn lemma_dec_of_no_sep(n: int, sep: char)
    requires
        n >= 0,
        !is_digit(sep),
    ensures
        !dec_of(n).contains(sep),
{
    lemma_dec_digits_all_digits(n);
    if dec_of(n).contains(sep) {
        let k = choose|k: int| 0 <= k < dec_of(n).len() && dec_of(n)[k] == sep;
        assert(is_digit(dec_of(n)[k]));
    }
}

/// Parsing one encoded row restores its cells.
pub proof fn lemma_row_round_trip(r: Seq<u16>)
    requires
        r.len() >= 1,
    ensures
        spec_parse_row(encode_row(r)) == Some(r),
{
    let parts = r.map_values(|x: u16| dec_of(x as int));
    assert forall|i: int| 0 <= i < parts.len() implies !(#[trigger] parts[i]).contains(',') by {
        lemma_dec_of_no_sep(r[i] as int, ',');
    }
    lemma_split_of_join(parts, ',');
    let cells = split_on(encode_row(r), ',');
    assert(cells =~~= parts);
    assert forall|i: int| 0 <= i < cells.len() implies (#[trigger] spec_parse_u16(cells[i]))
        == Some(r[i]) by {
        lemma_parse_of_dec(r[i] as int);
        assert(cells[i] == dec_of(r[i] as int));
    }
    assert(Seq::new(cells.len(), |i: int| spec_parse_u16(cells[i])->Some_0) =~= r);
}

/// The pattern round trip: decoding a just-encoded grid restores the grid
/// exactly, for any grid with at least one row and no empty row.
pub proof fn lemma_decode_of_encode(g: Seq<Seq<u16>>)
    requires
        g.len() >= 1,
        forall|i: int| 0 <= i < g.len() ==> (#[trigger] g[i]).len() >= 1,
    ensures
        spec_decode(spec_encode(g)) == Some(g),
{
    let rows = g.map_values(|r: Seq<u16>| encode_row(r));
    assert forall|i: int| 0 <= i < rows.len() implies !(#[trigger] rows[i]).contains(';') by {
        if rows[i].contains(';') {
            let k = choose|k: int| 0 <= k < rows[i].len() && rows[i][k] == ';';
            let parts = g[i].map_values(|x: u16| dec_of(x as int));
            lemma_join_chars(parts, ',', k);
            assert(join_with(parts, ',') == rows[i]);
            if rows[i][k] != ',' {
                let (a, b) = choose|a: int, b: int|
                    0 <= a < parts.len() && 0 <= b < parts[a].len() && rows[i][k]
                        == #[trigger] parts[a][b];
                lemma_dec_digits_all_digits(g[i][a] as int);
                assert(is_digit(parts[a][b]));
            }
        }
    }
    lemma_split_of_join(rows, ';');
    let srows = split_on(spec_encode(g), ';');
    assert(srows =~~= rows);
    assert forall|i: int| 0 <= i < srows.len() implies (#[trigger] spec_parse_row(srows[i]))
        == Some(g[i]) by {
        lemma_row_round_trip(g[i]);
        assert(srows[i] == encode_row(g[i]));
    }
    assert(Seq::new(srows.len(), |i: int| spec_parse_row(srows[i])->Some_0) =~= g);
}

/// A character of a joined string comes from some piece or is the separator.
pub proof fn lemma_join_chars(parts: Seq<Seq<char>>, sep: char, k: int)
    requires
        0 <= k < join_with(parts, sep).len(),
    ensures
        join_with(parts, sep)[k] == sep || exists|i: int, j: int|
            0 <= i < parts.len() && 0 <= j < parts[i].len() && join_with(parts, sep)[k]
                == #[trigger] parts[i][j],
    decreases parts.len(),
{
    if parts.len() == 0 {
    } else if parts.len() == 1 {
        assert(join_with(parts, sep)[k] == parts[0][k]);
    } else {
        let s = join_with(parts, sep);
        let head = parts[0];
        if k < head.len() {
            assert(s[k] == parts[0][k]);
        } else if k == head.len() {
            assert(s[k] == sep);
        } else {
            let t = join_with(parts.drop_first(), sep);
            let k2 = k - head.len() - 1;
            assert(s[k] == t[k2]);
            lemma_join_chars(parts.drop_first(), sep, k2);
            if t[k2] != sep {
                let dropped = parts.drop_first();
                let (i2, j2) = choose|i2: int, j2: int|
                    0 <= i2 < dropped.len() && 0 <= j2 < dropped[i2].len() && t[k2]
                        == #[trigger] dropped[i2][j2];
                assert(parts.drop_first()[i2] == parts[i2 + 1]);
                assert(s[k] == parts[i2 + 1][j2]);
            }
        }
    }
}

} // verus!
