//! Laws of words: what cutting, trimming and filling leave of a text, and which texts are numbers.

use crate::text::{
    all_digits, decimal, digits_value, find_from, is_digit, last_position, law_decimal_reads_back,
    law_find_from_is_first, lower, occurs_at, padded, pieces, position, trim_end, trim_start, trimmed, unsigned_numeral,
    white_space, zeros,
};
use vstd::prelude::*;

verus! {

/// Texts with a separator between them.
pub open spec fn joined(parts: Seq<Seq<char>>, sep: Seq<char>) -> Seq<char>
    decreases parts.len(),
{
    if parts.len() == 0 {
        Seq::empty()
    } else if parts.len() == 1 {
        parts[0]
    } else {
        parts[0] + sep + joined(parts.skip(1), sep)
    }
}

/// Cutting a text loses nothing: with the separator between them, the pieces are the text again. None of
/// them holds the separator.
pub proof fn law_pieces_are_the_text(s: Seq<char>, sep: Seq<char>)
    requires
        sep.len() > 0,
    ensures
        pieces(s, sep).len() > 0,
        joined(pieces(s, sep), sep) == s,
        forall|k: int, j: int| 0 <= k < pieces(s, sep).len() ==> !#[trigger] occurs_at(pieces(s, sep)[k], sep, j),
    decreases s.len(),
{
    law_find_from_is_first(s, sep, 0);
    match find_from(s, sep, 0) {
        None => {
            assert forall|k: int, j: int| 0 <= k < pieces(s, sep).len() implies !#[trigger] occurs_at(
                pieces(s, sep)[k],
                sep,
                j,
            ) by {
                assert(pieces(s, sep)[k] == s);
            }
        },
        Some(i) => {
            let rest = s.skip(i + sep.len());
            law_pieces_are_the_text(rest, sep);
            let all = pieces(s, sep);
            assert(all == seq![s.take(i)] + pieces(rest, sep));
            assert(all.skip(1) =~= pieces(rest, sep));
            assert(s.subrange(i, i + sep.len()) =~= sep);
            assert(s =~= s.take(i) + sep + rest);
            assert forall|k: int, j: int| 0 <= k < all.len() implies !#[trigger] occurs_at(all[k], sep, j) by {
                if k == 0 {
                    if occurs_at(all[0], sep, j) {
                        assert(s.subrange(j, j + sep.len()) =~= all[0].subrange(j, j + sep.len()));
                        assert(occurs_at(s, sep, j));
                    }
                } else {
                    assert(all[k] == pieces(rest, sep)[k - 1]);
                }
            }
        },
    }
}

proof fn lemma_trim_start(s: Seq<char>) -> (n: int)
    ensures
        0 <= n <= s.len(),
        trim_start(s) == s.skip(n),
        forall|i: int| 0 <= i < n ==> white_space(#[trigger] s[i]),
        n < s.len() ==> !white_space(s[n]),
    decreases s.len(),
{
    if s.len() > 0 && white_space(s[0]) {
        let m = lemma_trim_start(s.skip(1));
        assert(s.skip(1).skip(m) =~= s.skip(m + 1));
        assert forall|i: int| 0 <= i < m + 1 implies white_space(#[trigger] s[i]) by {
            if i > 0 {
                assert(s.skip(1)[i - 1] == s[i]);
            }
        }
        m + 1
    } else {
        assert(s.skip(0) =~= s);
        0
    }
}

proof fn lemma_trim_end(s: Seq<char>) -> (n: int)
    ensures
        0 <= n <= s.len(),
        trim_end(s) == s.take(n),
        forall|i: int| n <= i < s.len() ==> white_space(#[trigger] s[i]),
        n > 0 ==> !white_space(s[n - 1]),
    decreases s.len(),
{
    if s.len() > 0 && white_space(s.last()) {
        let m = lemma_trim_end(s.drop_last());
        assert(s.drop_last().take(m) =~= s.take(m));
        assert forall|i: int| m <= i < s.len() implies white_space(#[trigger] s[i]) by {
            if i < s.len() - 1 {
                assert(s.drop_last()[i] == s[i]);
            }
        }
        m
    } else {
        assert(s.take(s.len() as int) =~= s);
        s.len() as int
    }
}

/// Trimming takes off white space at both ends and nothing else; what is left begins and ends with none.
pub proof fn law_trimming_takes_white_space_off(s: Seq<char>)
    ensures
        exists|from: int, to: int|
            0 <= from <= to <= s.len() && trimmed(s) == #[trigger] s.subrange(from, to) && (forall|i: int|
                0 <= i < from || to <= i < s.len() ==> white_space(#[trigger] s[i])),
        trimmed(s).len() > 0 ==> !white_space(trimmed(s)[0]) && !white_space(trimmed(s).last()),
        trimmed(trimmed(s)) == trimmed(s),
{
    let from = lemma_trim_start(s);
    let mid = s.skip(from);
    let n = lemma_trim_end(mid);
    let to = from + n;
    assert(trimmed(s) =~= s.subrange(from, to));
    assert forall|i: int| 0 <= i < from || to <= i < s.len() implies white_space(#[trigger] s[i]) by {
        if i >= to {
            assert(mid[i - from] == s[i]);
        }
    }
    if n > 0 {
        assert(trimmed(s)[0] == s[from]);
        assert(trimmed(s).last() == mid[n - 1]);
    }
}

/// White space is what separates words: blanks, tabs and the ends of lines, but no letter, digit or mark that
/// is written.
pub proof fn law_white_space(c: char)
    ensures
        white_space(' ') && white_space('\t') && white_space('\n') && white_space('\r'),
        white_space('\u{A0}') && white_space('\u{3000}') && white_space('\u{2028}'),
        0x21 <= c as u32 <= 0x7E ==> !white_space(c),
{
}

/// The first place is the first, and the last the last.
pub proof fn law_places(s: Seq<char>, c: char)
    ensures
        match position(s, c) {
            Some(i) => 0 <= i < s.len() && s[i] == c && forall|j: int| 0 <= j < i ==> #[trigger] s[j] != c,
            None => forall|j: int| 0 <= j < s.len() ==> #[trigger] s[j] != c,
        },
        match last_position(s, c) {
            Some(i) => 0 <= i < s.len() && s[i] == c && forall|j: int| i < j < s.len() ==> #[trigger] s[j] != c,
            None => forall|j: int| 0 <= j < s.len() ==> #[trigger] s[j] != c,
        },
    decreases s.len(),
{
    if s.len() > 0 {
        lemma_first_place(s, c);
        lemma_last_place(s, c);
    }
}

proof fn lemma_first_place(s: Seq<char>, c: char)
    ensures
        match position(s, c) {
            Some(i) => 0 <= i < s.len() && s[i] == c && forall|j: int| 0 <= j < i ==> #[trigger] s[j] != c,
            None => forall|j: int| 0 <= j < s.len() ==> #[trigger] s[j] != c,
        },
    decreases s.len(),
{
    if s.len() > 0 && s[0] != c {
        let t = s.skip(1);
        lemma_first_place(t, c);
        let end: int = match position(t, c) {
            Some(k) => k,
            None => t.len() as int,
        };
        assert forall|j: int| 0 <= j < end + 1 implies #[trigger] s[j] != c by {
            if j > 0 {
                assert(t[j - 1] == s[j]);
            }
        }
    }
}

proof fn lemma_last_place(s: Seq<char>, c: char)
    ensures
        match last_position(s, c) {
            Some(i) => 0 <= i < s.len() && s[i] == c && forall|j: int| i < j < s.len() ==> #[trigger] s[j] != c,
            None => forall|j: int| 0 <= j < s.len() ==> #[trigger] s[j] != c,
        },
    decreases s.len(),
{
    if s.len() > 0 && s.last() != c {
        let t = s.drop_last();
        lemma_last_place(t, c);
        assert forall|j: int| 0 <= j < t.len() implies #[trigger] s[j] == t[j] by {}
    }
}

/// A number is filled up with zeros to its width, and stays the number; one that is as wide or wider is not
/// touched.
pub proof fn law_filling_keeps_the_number(n: nat, width: int)
    ensures
        padded(n, width).len() == (if decimal(n).len() < width {
            width
        } else {
            decimal(n).len() as int
        }),
        all_digits(padded(n, width)),
        digits_value(padded(n, width)) == n,
{
    law_decimal_reads_back(n);
    if decimal(n).len() < width {
        lemma_zeros(width - decimal(n).len(), decimal(n));
    }
}

proof fn lemma_zeros(k: int, d: Seq<char>)
    requires
        k >= 0,
        all_digits(d),
    ensures
        all_digits(zeros(k) + d),
        digits_value(zeros(k) + d) == digits_value(d),
    decreases d.len(), k,
{
    let s = zeros(k) + d;
    if d.len() > 0 {
        assert(s.drop_last() =~= zeros(k) + d.drop_last());
        lemma_zeros(k, d.drop_last());
    } else if k > 0 {
        assert(s.drop_last() =~= zeros(k - 1) + d);
        assert(s.last() == '0');
        lemma_zeros(k - 1, d);
    } else {
        assert(s =~= d);
    }
}

/// A numeral is read, with or without a plus before it, if it is not too large; a text with anything else in
/// it, or with nothing, is no numeral.
pub proof fn law_numerals_are_read(n: nat, max: nat, s: Seq<char>, i: int)
    ensures
        n <= max ==> unsigned_numeral(decimal(n), max) == Some(n) && unsigned_numeral(seq!['+'] + decimal(n), max) == Some(
            n,
        ),
        n > max ==> unsigned_numeral(decimal(n), max) is None && unsigned_numeral(seq!['+'] + decimal(n), max) is None,
        unsigned_numeral(Seq::empty(), max) is None,
        unsigned_numeral(seq!['+'], max) is None,
        0 <= i < s.len() && !('0' <= s[i] <= '9') && (i > 0 || s[i] != '+') ==> unsigned_numeral(s, max) is None,
{
    law_decimal_reads_back(n);
    let plus = seq!['+'] + decimal(n);
    assert(plus.skip(1) =~= decimal(n));
    assert(is_digit(decimal(n)[0]));
    assert(seq!['+'].skip(1) =~= Seq::<char>::empty());
    if 0 <= i < s.len() && !is_digit(s[i]) && (i > 0 || s[i] != '+') {
        let d = if s[0] == '+' {
            s.skip(1)
        } else {
            s
        };
        let k = if s[0] == '+' {
            i - 1
        } else {
            i
        };
        assert(d[k] == s[i]);
    }
}

/// Lower case changes the twenty-six capitals and nothing else.
pub proof fn law_lower_case(c: char)
    ensures
        'A' <= c <= 'Z' ==> lower(c) as int == c as int + 32,
        !('A' <= c <= 'Z') ==> lower(c) == c,
        lower(lower(c)) == lower(c),
{
}

} // verus!
