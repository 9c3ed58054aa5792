//! Verified string utilities: splitting, trimming, tokenizing and decimal
//! conversion, each specified over `Seq<char>` views.

use vstd::prelude::*;
use vstd::string::{StrSliceExecFns, StringExecFns};

verus! {

/// Splits `s` at the first occurrence of `c`: the part before it, and,
/// when `c` occurs, the part after it.
pub open spec fn split_at_first(s: Seq<char>, c: char) -> (Seq<char>, Option<Seq<char>>)
    decreases s.len(),
{
    if s.len() == 0 {
        (s, None)
    } else if s[0] == c {
        (Seq::empty(), Some(s.drop_first()))
    } else {
        let r = split_at_first(s.drop_first(), c);
        (seq![s[0]] + r.0, r.1)
    }
}

/// When `c` does not occur in `s`, splitting leaves `s` whole.
pub proof fn lemma_split_at_first_none(s: Seq<char>, c: char)
    requires
        forall|i: int| 0 <= i < s.len() ==> s[i] != c,
    ensures
        split_at_first(s, c) == (s, None::<Seq<char>>),
    decreases s.len(),
{
    if s.len() == 0 {
        assert(split_at_first(s, c) == (s, None::<Seq<char>>));
    } else {
        lemma_split_at_first_none(s.drop_first(), c);
        assert(seq![s[0]] + s.drop_first() =~= s);
    }
}

/// When the first occurrence of `c` in `s` is at `i`, splitting cuts there.
pub proof fn lemma_split_at_first_some(s: Seq<char>, c: char, i: int)
    requires
        0 <= i < s.len(),
        s[i] == c,
        forall|j: int| 0 <= j < i ==> s[j] != c,
    ensures
        split_at_first(s, c) == (s.take(i), Some(s.skip(i + 1))),
    decreases s.len(),
{
    if i == 0 {
        assert(s.take(0) =~= Seq::<char>::empty());
        assert(s.skip(1) =~= s.drop_first());
    } else {
        lemma_split_at_first_some(s.drop_first(), c, i - 1);
        assert(seq![s[0]] + s.drop_first().take(i - 1) =~= s.take(i));
        assert(s.drop_first().skip(i) =~= s.skip(i + 1));
    }
}

/// Returns the index of the first occurrence of `c` in `s` at or after
/// position `from`, if any.
pub fn find_char_from(s: &str, c: char, from: usize) -> (r: Option<usize>)
    requires
        from <= s@.len(),
    ensures
        match r {
            Some(i) => from <= i < s@.len() && s@[i as int] == c && forall|j: int|
                from <= j < i ==> s@[j] != c,
            None => forall|j: int| from <= j < s@.len() ==> s@[j] != c,
        },
{
    let len = s.unicode_len();
    let mut i = from;
    while i < len
        invariant
            from <= i <= len,
            len == s@.len(),
            forall|j: int| from <= j < i ==> s@[j] != c,
        decreases len - i,
    {
        if s.get_char(i) == c {
            return Some(i);
        }
        i += 1;
    }
    None
}

/// Splits `s` at every occurrence of `c`; the result always holds at least
/// one piece, and none of the pieces contains `c`.
pub open spec fn split_all(s: Seq<char>, c: char) -> Seq<Seq<char>>
    decreases s.len(),
{
    if s.len() == 0 {
        seq![Seq::empty()]
    } else if s[0] == c {
        seq![Seq::empty()] + split_all(s.drop_first(), c)
    } else {
        let r = split_all(s.drop_first(), c);
        seq![seq![s[0]] + r[0]] + r.drop_first()
    }
}

pub proof fn lemma_split_all_len(s: Seq<char>, c: char)
    ensures
        split_all(s, c).len() >= 1,
    decreases s.len(),
{
    if s.len() > 0 {
        lemma_split_all_len(s.drop_first(), c);
    }
}

/// When `c` does not occur in `s`, the split is `s` alone.
pub proof fn lemma_split_all_none(s: Seq<char>, c: char)
    requires
        forall|i: int| 0 <= i < s.len() ==> s[i] != c,
    ensures
        split_all(s, c) == seq![s],
    decreases s.len(),
{
    if s.len() == 0 {
        assert(split_all(s, c) =~~= seq![s]);
    } else {
        lemma_split_all_none(s.drop_first(), c);
        assert(seq![s[0]] + s.drop_first() =~= s);
        assert(seq![s.drop_first()].drop_first() =~= Seq::<Seq<char>>::empty());
        assert(split_all(s, c) =~~= seq![s]);
    }
}

/// When the first occurrence of `c` in `s` is at `i`, the split starts with
/// the piece before `i` followed by the split of the remainder.
pub proof fn lemma_split_all_step(s: Seq<char>, c: char, i: int)
    requires
        0 <= i < s.len(),
        s[i] == c,
        forall|j: int| 0 <= j < i ==> s[j] != c,
    ensures
        split_all(s, c) == seq![s.take(i)] + split_all(s.skip(i + 1), c),
    decreases s.len(),
{
    if i == 0 {
        assert(s.take(0) =~= Seq::<char>::empty());
        assert(s.skip(1) =~= s.drop_first());
        assert(split_all(s, c) =~~= seq![s.take(0)] + split_all(s.skip(1), c));
    } else {
        lemma_split_all_step(s.drop_first(), c, i - 1);
        lemma_split_all_len(s.skip(i + 1), c);
        assert(s.drop_first().take(i - 1) =~= s.take(i).drop_first());
        assert(s.drop_first().skip(i) =~= s.skip(i + 1));
        assert(seq![s[0]] + (seq![s.drop_first().take(i - 1)] + split_all(s.drop_first().skip(
            i,
        ), c))[0] =~= s.take(i));
        assert(split_all(s, c) =~~= seq![s.take(i)] + split_all(s.skip(i + 1), c));
    }
}

/// Drops one trailing carriage return, as a line terminator leaves behind.
pub open spec fn strip_cr(l: Seq<char>) -> Seq<char> {
    if l.len() > 0 && l.last() == '\r' {
        l.drop_last()
    } else {
        l
    }
}

pub proof fn lemma_split_at_first_shrinks(s: Seq<char>, c: char)
    ensures
        match split_at_first(s, c).1 {
            Some(r) => r.len() < s.len(),
            None => true,
        },
    decreases s.len(),
{
    if s.len() > 0 && s[0] != c {
        lemma_split_at_first_shrinks(s.drop_first(), c);
    }
}

/// The lines of `s`: split at every line feed, with a carriage return
/// before the line feed stripped.  An empty text has no lines, and a final
/// line terminator opens no further line.
pub open spec fn split_lines(s: Seq<char>) -> Seq<Seq<char>>
    decreases s.len(),
    via split_lines_dec
{
    if s.len() == 0 {
        seq![]
    } else {
        let r = split_at_first(s, '\n');
        match r.1 {
            Some(rest) => seq![strip_cr(r.0)] + split_lines(rest),
            None => seq![r.0],
        }
    }
}

#[via_fn]
proof fn split_lines_dec(s: Seq<char>) {
    lemma_split_at_first_shrinks(s, '\n');
}

/// The whitespace characters that separate tokens and are trimmed from
/// header values: the Unicode characters with the White_Space property,
/// as `char::is_whitespace` recognizes them.
pub open spec fn is_space(c: char) -> bool {
    ||| c == ' '
    ||| c == '\t'
    ||| c == '\n'
    ||| c == '\r'
    ||| c == '\u{b}'
    ||| c == '\u{c}'
    ||| c == '\u{85}'
    ||| c == '\u{a0}'
    ||| c == '\u{1680}'
    ||| ('\u{2000}' <= c && c <= '\u{200a}')
    ||| c == '\u{2028}'
    ||| c == '\u{2029}'
    ||| c == '\u{202f}'
    ||| c == '\u{205f}'
    ||| c == '\u{3000}'
}

/// The maximal runs of non-whitespace characters in `s`, in order.
pub open spec fn tokens_of(s: Seq<char>) -> Seq<Seq<char>>
    decreases s.len(),
{
    if s.len() == 0 {
        seq![]
    } else if is_space(s[0]) {
        tokens_of(s.drop_first())
    } else {
        let r = tokens_of(s.drop_first());
        if s.len() > 1 && !is_space(s[1]) {
            seq![seq![s[0]] + r[0]] + r.drop_first()
        } else {
            seq![seq![s[0]]] + r
        }
    }
}

pub proof fn lemma_tokens_nonempty(s: Seq<char>)
    requires
        s.len() > 0,
        !is_space(s[0]),
    ensures
        tokens_of(s).len() >= 1,
{
}

/// Dropping a leading space keeps the tokens.
pub proof fn lemma_tokens_skip_space(s: Seq<char>, i: int)
    requires
        0 <= i < s.len(),
        is_space(s[i]),
        forall|j: int| 0 <= j < i ==> is_space(s[j]),
    ensures
        tokens_of(s) == tokens_of(s.skip(i + 1)),
    decreases i,
{
    if i == 0 {
        assert(s.skip(1) =~= s.drop_first());
    } else {
        lemma_tokens_skip_space(s.drop_first(), i - 1);
        assert(s.drop_first().skip(i) =~= s.skip(i + 1));
    }
}

/// When `s` begins with a token that runs up to `j` (the end of `s` or the
/// first whitespace), that token leads and the rest follows.
pub proof fn lemma_tokens_first(s: Seq<char>, j: int)
    requires
        0 < j <= s.len(),
        forall|k: int| 0 <= k < j ==> !is_space(s[k]),
        j == s.len() || is_space(s[j]),
    ensures
        tokens_of(s) == seq![s.take(j)] + tokens_of(s.skip(j)),
    decreases j,
{
    if j == 1 {
        if s.len() > 1 && !is_space(s[1]) {
            assert(false);
        }
        assert(s.take(1) =~= seq![s[0]]);
        assert(s.skip(1) =~= s.drop_first());
        assert(tokens_of(s) =~~= seq![s.take(1)] + tokens_of(s.skip(1)));
    } else {
        lemma_tokens_first(s.drop_first(), j - 1);
        let r = tokens_of(s.drop_first());
        lemma_tokens_nonempty(s.drop_first());
        assert(r[0] == s.drop_first().take(j - 1));
        assert(seq![s[0]] + s.drop_first().take(j - 1) =~= s.take(j));
        assert(r.drop_first() =~= tokens_of(s.drop_first().skip(j - 1)));
        assert(s.drop_first().skip(j - 1) =~= s.skip(j));
        assert(tokens_of(s) =~~= seq![s.take(j)] + tokens_of(s.skip(j)));
    }
}

/// `s` without its leading whitespace.
pub open spec fn trim_start(s: Seq<char>) -> Seq<char>
    decreases s.len(),
{
    if s.len() > 0 && is_space(s[0]) {
        trim_start(s.drop_first())
    } else {
        s
    }
}

/// `s` without its trailing whitespace.
pub open spec fn trim_end(s: Seq<char>) -> Seq<char>
    decreases s.len(),
{
    if s.len() > 0 && is_space(s.last()) {
        trim_end(s.drop_last())
    } else {
        s
    }
}

/// `s` without leading and trailing whitespace.
pub open spec fn trim(s: Seq<char>) -> Seq<char> {
    trim_end(trim_start(s))
}

pub proof fn lemma_trim_start_at(s: Seq<char>, a: int)
    requires
        0 <= a <= s.len(),
        forall|k: int| 0 <= k < a ==> is_space(s[k]),
        a == s.len() || !is_space(s[a]),
    ensures
        trim_start(s) == s.skip(a),
    decreases a,
{
    if a == 0 {
        assert(s.skip(0) =~= s);
    } else {
        lemma_trim_start_at(s.drop_first(), a - 1);
        assert(s.drop_first().skip(a - 1) =~= s.skip(a));
    }
}

pub proof fn lemma_trim_end_at(s: Seq<char>, b: int)
    requires
        0 <= b <= s.len(),
        forall|k: int| b <= k < s.len() ==> is_space(s[k]),
        b == 0 || !is_space(s[b - 1]),
    ensures
        trim_end(s) == s.take(b),
    decreases s.len() - b,
{
    if b == s.len() {
        assert(s.take(b) =~= s);
    } else {
        lemma_trim_end_at(s.drop_last(), b);
        assert(s.drop_last().take(b) =~= s.take(b));
    }
}

/// Whether `s` holds `d` as a subsequence starting at `i`.
pub open spec fn delim_at(s: Seq<char>, d: Seq<char>, i: int) -> bool {
    0 <= i && i + d.len() <= s.len() && s.subrange(i, i + d.len()) == d
}

/// Splits `s` at every non-overlapping, leftmost-first occurrence of the
/// delimiter `d`.
pub open spec fn split_all_delim(s: Seq<char>, d: Seq<char>) -> Seq<Seq<char>>
    decreases s.len(),
{
    if d.len() == 0 {
        seq![]
    } else if s.len() == 0 {
        seq![Seq::empty()]
    } else if delim_at(s, d, 0) {
        seq![Seq::empty()] + split_all_delim(s.skip(d.len() as int), d)
    } else {
        let r = split_all_delim(s.drop_first(), d);
        seq![seq![s[0]] + r[0]] + r.drop_first()
    }
}

pub proof fn lemma_split_all_delim_len(s: Seq<char>, d: Seq<char>)
    requires
        d.len() > 0,
    ensures
        split_all_delim(s, d).len() >= 1,
    decreases s.len(),
{
    if s.len() > 0 && !delim_at(s, d, 0) {
        lemma_split_all_delim_len(s.drop_first(), d);
    }
}

/// When `d` occurs nowhere in `s`, the split is `s` alone.
pub proof fn lemma_split_all_delim_none(s: Seq<char>, d: Seq<char>)
    requires
        d.len() > 0,
        forall|i: int| 0 <= i ==> !delim_at(s, d, i),
    ensures
        split_all_delim(s, d) == seq![s],
    decreases s.len(),
{
    if s.len() == 0 {
        assert(split_all_delim(s, d) =~~= seq![s]);
    } else {
        assert forall|i: int| 0 <= i implies !delim_at(s.drop_first(), d, i) by {
            if delim_at(s.drop_first(), d, i) {
                assert(s.drop_first().subrange(i, i + d.len()) =~= s.subrange(
                    i + 1,
                    i + 1 + d.len(),
                ));
                assert(delim_at(s, d, i + 1));
            }
        }
        lemma_split_all_delim_none(s.drop_first(), d);
        assert(seq![s[0]] + s.drop_first() =~= s);
        assert(seq![s.drop_first()].drop_first() =~= Seq::<Seq<char>>::empty());
        assert(split_all_delim(s, d) =~~= seq![s]);
    }
}

/// When the first occurrence of `d` in `s` is at `i`, the split starts with
/// the piece before `i` followed by the split of what follows the delimiter.
pub proof fn lemma_split_all_delim_step(s: Seq<char>, d: Seq<char>, i: int)
    requires
        d.len() > 0,
        delim_at(s, d, i),
        forall|j: int| 0 <= j < i ==> !delim_at(s, d, j),
    ensures
        split_all_delim(s, d) == seq![s.take(i)] + split_all_delim(s.skip(i + d.len()), d),
    decreases s.len(),
{
    if i == 0 {
        assert(s.take(0) =~= Seq::<char>::empty());
        assert(split_all_delim(s, d) =~~= seq![s.take(0)] + split_all_delim(
            s.skip(d.len() as int),
            d,
        ));
    } else {
        assert(!delim_at(s, d, 0));
        assert forall|j: int| 0 <= j < i - 1 implies !delim_at(s.drop_first(), d, j) by {
            if delim_at(s.drop_first(), d, j) {
                assert(s.drop_first().subrange(j, j + d.len()) =~= s.subrange(
                    j + 1,
                    j + 1 + d.len(),
                ));
                assert(delim_at(s, d, j + 1));
            }
        }
        assert(s.drop_first().subrange(i - 1, i - 1 + d.len()) =~= s.subrange(i, i + d.len()));
        assert(delim_at(s.drop_first(), d, i - 1));
        lemma_split_all_delim_step(s.drop_first(), d, i - 1);
        lemma_split_all_delim_len(s.skip(i + d.len()), d);
        assert(s.drop_first().take(i - 1) =~= s.take(i).drop_first());
        assert(s.drop_first().skip(i - 1 + d.len()) =~= s.skip(i + d.len()));
        assert(seq![s[0]] + s.take(i).drop_first() =~= s.take(i));
        assert(split_all_delim(s, d) =~~= seq![s.take(i)] + split_all_delim(
            s.skip(i + d.len()),
            d,
        ));
    }
}

/// Whether `c` is a decimal digit.
pub open spec fn is_digit(c: char) -> bool {
    '0' <= c && c <= '9'
}

/// The numeric value of one digit character.
pub open spec fn digit_val(c: char) -> nat {
    (c as int - '0' as int) as nat
}

/// The value of a sequence of decimal digits, most significant first.
pub open spec fn digits_val(s: Seq<char>) -> nat
    decreases s.len(),
{
    if s.len() == 0 {
        0
    } else {
        digits_val(s.drop_last()) * 10 + digit_val(s.last())
    }
}

/// A longer digit string never has a smaller value.
pub proof fn lemma_digits_val_prefix(s: Seq<char>, i: int)
    requires
        0 <= i <= s.len(),
        forall|k: int| 0 <= k < s.len() ==> is_digit(s[k]),
    ensures
        digits_val(s) >= digits_val(s.take(i)),
    decreases s.len() - i,
{
    if i < s.len() {
        lemma_digits_val_prefix(s, i + 1);
        assert(s.take(i + 1).drop_last() =~= s.take(i));
        assert(s.take(i + 1).last() == s[i]);
        assert(digits_val(s.take(i + 1)) == digits_val(s.take(i)) * 10 + digit_val(s[i]));
    } else {
        assert(s.take(i) =~= s);
    }
}

/// Whether every character of `s` is a decimal digit.
pub open spec fn all_digits(s: Seq<char>) -> bool {
    forall|i: int| 0 <= i < s.len() ==> is_digit(s[i])
}

/// The number `s` denotes when read as `u32::from_str` reads it: an
/// optional leading plus sign, then at least one digit, the whole value
/// fitting in 32 bits.
pub open spec fn u32_of(s: Seq<char>) -> Option<u32> {
    let t = if s.len() > 0 && s[0] == '+' {
        s.drop_first()
    } else {
        s
    };
    if t.len() > 0 && all_digits(t) && digits_val(t) <= u32::MAX {
        Some(digits_val(t) as u32)
    } else {
        None
    }
}

/// The decimal digits of `n`, most significant first.
pub open spec fn dec_str(n: nat) -> Seq<char>
    decreases n,
{
    if n < 10 {
        seq![digit_char(n)]
    } else {
        dec_str(n / 10) + seq![digit_char(n % 10)]
    }
}

/// The digit character for a value below ten.
pub open spec fn digit_char(d: nat) -> char {
    if d == 0 {
        '0'
    } else if d == 1 {
        '1'
    } else if d == 2 {
        '2'
    } else if d == 3 {
        '3'
    } else if d == 4 {
        '4'
    } else if d == 5 {
        '5'
    } else if d == 6 {
        '6'
    } else if d == 7 {
        '7'
    } else if d == 8 {
        '8'
    } else {
        '9'
    }
}

/// Character-for-character string equality, phrased over the views.
pub fn str_eq(a: &str, b: &str) -> (r: bool)
    ensures
        r == (a@ == b@),
{
    let alen = a.unicode_len();
    let blen = b.unicode_len();
    if alen != blen {
        assert(a@ != b@);
        return false;
    }
    let mut i: usize = 0;
    while i < alen
        invariant
            i <= alen,
            alen == a@.len(),
            alen == b@.len(),
            forall|j: int| 0 <= j < i ==> a@[j] == b@[j],
        decreases alen - i,
    {
        if a.get_char(i) != b.get_char(i) {
            assert(a@ != b@);
            return false;
        }
        i += 1;
    }
    assert(a@ =~= b@);
    true
}

/// Whether `c` separates tokens; the executable face of `is_space`.
pub fn is_space_char(c: char) -> (r: bool)
    ensures
        r == is_space(c),
{
    c == ' ' || c == '\t' || c == '\n' || c == '\r' || c == '\u{b}' || c == '\u{c}'
        || c == '\u{85}' || c == '\u{a0}' || c == '\u{1680}' || ('\u{2000}' <= c && c
        <= '\u{200a}') || c == '\u{2028}' || c == '\u{2029}' || c == '\u{202f}' || c == '\u{205f}'
        || c == '\u{3000}'
}

/// Splits `s` at the first occurrence of `c`, as `split_at_first` states.
pub fn split_at_first_exec(s: &str, c: char) -> (r: (String, Option<String>))
    ensures
        r.0@ == split_at_first(s@, c).0,
        match (r.1, split_at_first(s@, c).1) {
            (Some(a), Some(b)) => a@ == b,
            (None, None) => true,
            _ => false,
        },
{
    let len = s.unicode_len();
    match find_char_from(s, c, 0) {
        Some(i) => {
            proof {
                lemma_split_at_first_some(s@, c, i as int);
                assert(s@.subrange(0, i as int) =~= s@.take(i as int));
                assert(s@.subrange(i as int + 1, s@.len() as int) =~= s@.skip(i as int + 1));
            }
            (s.substring_char(0, i).to_owned(), Some(s.substring_char(i + 1, len).to_owned()))
        },
        None => {
            proof {
                lemma_split_at_first_none(s@, c);
            }
            (s.to_owned(), None)
        },
    }
}

/// The lines of `s`, as `split_lines` states.
pub fn split_lines_exec(s: &str) -> (r: Vec<String>)
    ensures
        r.deep_view() == split_lines(s@),
{
    let mut out: Vec<String> = Vec::new();
    let mut rest: &str = s;
    loop
        invariant
            out.deep_view() + split_lines(rest@) == split_lines(s@),
        decreases rest@.len(),
    {
        let rlen = rest.unicode_len();
        if rlen == 0 {
            proof {
                assert(out.deep_view() + split_lines(rest@) =~~= out.deep_view());
            }
            return out;
        }
        let ghost pre = out.deep_view();
        match find_char_from(rest, '\n', 0) {
            Some(i) => {
                proof {
                    lemma_split_at_first_some(rest@, '\n', i as int);
                }
                let end = if i > 0 && rest.get_char(i - 1) == '\r' {
                    i - 1
                } else {
                    i
                };
                proof {
                    assert(rest@.subrange(0, end as int) =~= strip_cr(rest@.take(i as int)));
                }
                out.push(rest.substring_char(0, end).to_owned());
                let next = rest.substring_char(i + 1, rlen);
                proof {
                    assert(next@ =~= rest@.skip(i as int + 1));
                    assert(out.deep_view() =~~= pre.push(strip_cr(rest@.take(i as int))));
                    assert(out.deep_view() + split_lines(next@) =~~= split_lines(s@));
                }
                rest = next;
            },
            None => {
                proof {
                    lemma_split_at_first_none(rest@, '\n');
                }
                out.push(rest.to_owned());
                proof {
                    assert(out.deep_view() =~~= pre.push(rest@));
                    assert(out.deep_view() =~~= split_lines(s@));
                }
                return out;
            },
        }
    }
}

/// Splits `s` at every occurrence of `c`, as `split_all` states.
pub fn split_all_exec(s: &str, c: char) -> (r: Vec<String>)
    ensures
        r.deep_view() == split_all(s@, c),
{
    let mut out: Vec<String> = Vec::new();
    let mut rest: &str = s;
    loop
        invariant
            out.deep_view() + split_all(rest@, c) == split_all(s@, c),
        decreases rest@.len(),
    {
        let rlen = rest.unicode_len();
        let ghost pre = out.deep_view();
        match find_char_from(rest, c, 0) {
            Some(i) => {
                proof {
                    lemma_split_all_step(rest@, c, i as int);
                    assert(rest@.subrange(0, i as int) =~= rest@.take(i as int));
                }
                out.push(rest.substring_char(0, i).to_owned());
                let next = rest.substring_char(i + 1, rlen);
                proof {
                    assert(next@ =~= rest@.skip(i as int + 1));
                    assert(out.deep_view() =~~= pre.push(rest@.take(i as int)));
                    assert(out.deep_view() + split_all(next@, c) =~~= split_all(s@, c));
                }
                rest = next;
            },
            None => {
                proof {
                    lemma_split_all_none(rest@, c);
                }
                out.push(rest.to_owned());
                proof {
                    assert(out.deep_view() =~~= pre.push(rest@));
                    assert(out.deep_view() =~~= split_all(s@, c));
                }
                return out;
            },
        }
    }
}

/// Returns the start of the first occurrence of the delimiter `d` in `s`
/// at or after `from`, if any.
pub fn find_delim_from(s: &str, d: &str, from: usize) -> (r: Option<usize>)
    requires
        d@.len() > 0,
        from <= s@.len(),
    ensures
        match r {
            Some(i) => from <= i && delim_at(s@, d@, i as int) && forall|j: int|
                from <= j < i ==> !delim_at(s@, d@, j),
            None => forall|j: int| from <= j ==> !delim_at(s@, d@, j),
        },
{
    let len = s.unicode_len();
    let dlen = d.unicode_len();
    if len < dlen {
        return None;
    }
    let last = len - dlen;
    if from > last {
        return None;
    }
    let mut i = from;
    while i <= last
        invariant
            from <= i,
            i <= last + 1,
            last == len - dlen,
            len == s@.len(),
            dlen == d@.len(),
            dlen >= 1,
            dlen <= len,
            forall|j: int| from <= j < i ==> !delim_at(s@, d@, j),
        decreases last + 1 - i,
    {
        if str_eq(s.substring_char(i, i + dlen), d) {
            proof {
                assert(s@.subrange(i as int, i as int + d@.len()) =~= s@.subrange(
                    i as int,
                    (i + dlen) as int,
                ));
            }
            proof {
                assert(s@.subrange(i as int, i as int + d@.len()) == d@);
            }
            return Some(i);
        }
        i += 1;
    }
    None
}

/// Splits `s` at every occurrence of the delimiter `d`, as
/// `split_all_delim` states.
pub fn split_all_delim_exec(s: &str, d: &str) -> (r: Vec<String>)
    requires
        d@.len() > 0,
    ensures
        r.deep_view() == split_all_delim(s@, d@),
{
    let mut out: Vec<String> = Vec::new();
    let mut rest: &str = s;
    let dlen = d.unicode_len();
    loop
        invariant
            out.deep_view() + split_all_delim(rest@, d@) == split_all_delim(s@, d@),
            dlen == d@.len(),
            dlen >= 1,
        decreases rest@.len(),
    {
        let rlen = rest.unicode_len();
        let ghost pre = out.deep_view();
        match find_delim_from(rest, d, 0) {
            Some(i) => {
                proof {
                    lemma_split_all_delim_step(rest@, d@, i as int);
                    assert(rest@.subrange(0, i as int) =~= rest@.take(i as int));
                }
                out.push(rest.substring_char(0, i).to_owned());
                let next = rest.substring_char(i + dlen, rlen);
                proof {
                    assert(next@ =~= rest@.skip(i as int + d@.len()));
                    assert(out.deep_view() =~~= pre.push(rest@.take(i as int)));
                    assert(out.deep_view() + split_all_delim(next@, d@) =~~= split_all_delim(
                        s@,
                        d@,
                    ));
                }
                rest = next;
            },
            None => {
                proof {
                    lemma_split_all_delim_none(rest@, d@);
                }
                out.push(rest.to_owned());
                proof {
                    assert(out.deep_view() =~~= pre.push(rest@));
                    assert(out.deep_view() =~~= split_all_delim(s@, d@));
                }
                return out;
            },
        }
    }
}

/// The whitespace-separated tokens of `s`, as `tokens_of` states.
pub fn tokens_exec(s: &str) -> (r: Vec<String>)
    ensures
        r.deep_view() == tokens_of(s@),
{
    let len = s.unicode_len();
    let mut out: Vec<String> = Vec::new();
    let mut i: usize = 0;
    proof {
        assert(s@.skip(0) =~= s@);
        assert(out.deep_view() + tokens_of(s@.skip(0)) =~~= tokens_of(s@));
    }
    while i < len
        invariant
            i <= len,
            len == s@.len(),
            out.deep_view() + tokens_of(s@.skip(i as int)) == tokens_of(s@),
        decreases len - i,
    {
        let ghost pre = out.deep_view();
        if is_space_char(s.get_char(i)) {
            proof {
                lemma_tokens_skip_space(s@.skip(i as int), 0);
                assert(s@.skip(i as int).skip(1) =~= s@.skip(i as int + 1));
            }
            i += 1;
        } else {
            let mut j = i + 1;
            while j < len && !is_space_char(s.get_char(j))
                invariant
                    i < j <= len,
                    len == s@.len(),
                    forall|k: int| i <= k < j ==> !is_space(s@[k]),
                decreases len - j,
            {
                j += 1;
            }
            proof {
                lemma_tokens_first(s@.skip(i as int), j - i);
                assert(s@.skip(i as int).take(j - i) =~= s@.subrange(i as int, j as int));
                assert(s@.skip(i as int).skip(j - i) =~= s@.skip(j as int));
            }
            out.push(s.substring_char(i, j).to_owned());
            proof {
                assert(out.deep_view() =~~= pre.push(s@.subrange(i as int, j as int)));
                assert(out.deep_view() + tokens_of(s@.skip(j as int)) =~~= tokens_of(s@));
            }
            i = j;
        }
    }
    proof {
        assert(s@.skip(len as int) =~= Seq::<char>::empty());
        assert(out.deep_view() + tokens_of(s@.skip(len as int)) =~~= out.deep_view());
    }
    out
}

/// `s` without leading and trailing whitespace, as `trim` states.
pub fn trim_exec(s: &str) -> (r: String)
    ensures
        r@ == trim(s@),
{
    let len = s.unicode_len();
    let mut a: usize = 0;
    while a < len && is_space_char(s.get_char(a))
        invariant
            a <= len,
            len == s@.len(),
            forall|k: int| 0 <= k < a ==> is_space(s@[k]),
        decreases len - a,
    {
        a += 1;
    }
    proof {
        lemma_trim_start_at(s@, a as int);
    }
    if a == len {
        proof {
            assert(s@.skip(a as int) =~= Seq::<char>::empty());
        }
        return String::new();
    }
    let mut b = len;
    while b > a && is_space_char(s.get_char(b - 1))
        invariant
            a <= b <= len,
            len == s@.len(),
            forall|k: int| b <= k < len ==> is_space(s@[k]),
        decreases b,
    {
        b -= 1;
    }
    proof {
        let t = s@.skip(a as int);
        assert(!is_space(t[0]));
        assert forall|k: int| b - a <= k < t.len() implies is_space(t[k]) by {
            assert(t[k] == s@[k + a]);
        }
        assert(b - a == 0 || !is_space(t[b - a - 1]));
        lemma_trim_end_at(t, b - a);
        assert(t.take(b - a) =~= s@.subrange(a as int, b as int));
    }
    s.substring_char(a, b).to_owned()
}

/// Reads `s` as a 32-bit unsigned decimal number, as `u32_of` states.
pub fn parse_u32(s: &str) -> (r: Option<u32>)
    ensures
        r == u32_of(s@),
{
    let len = s.unicode_len();
    let mut start: usize = 0;
    if len > 0 && s.get_char(0) == '+' {
        start = 1;
    }
    let ghost t = if start == 1 {
        s@.drop_first()
    } else {
        s@
    };
    proof {
        assert(t =~= s@.skip(start as int));
    }
    if start == len {
        return None;
    }
    let mut acc: u32 = 0;
    let mut i = start;
    proof {
        assert(t.take(0) =~= Seq::<char>::empty());
    }
    while i < len
        invariant
            start <= i <= len,
            len == s@.len(),
            t == s@.skip(start as int),
            t == (if s@.len() > 0 && s@[0] == '+' {
                s@.drop_first()
            } else {
                s@
            }),
            t.len() == len - start,
            forall|k: int| 0 <= k < i - start ==> is_digit(t[k]),
            acc == digits_val(t.take(i - start)),
        decreases len - i,
    {
        let c = s.get_char(i);
        if c < '0' || c > '9' {
            proof {
                assert(!is_digit(t[i - start]));
                assert(!all_digits(t));
            }
            return None;
        }
        let d = (c as u32) - ('0' as u32);
        proof {
            assert(t.take(i - start + 1).drop_last() =~= t.take(i - start));
            assert(t.take(i - start + 1).last() == t[i - start]);
            assert(digits_val(t.take(i - start + 1)) == digits_val(t.take(i - start)) * 10
                + digit_val(t[i - start]));
        }
        if acc > (u32::MAX - d) / 10 {
            proof {
                assert(digits_val(t.take(i - start + 1)) > u32::MAX) by (nonlinear_arith)
                    requires
                        acc > (u32::MAX - d) / 10,
                        d < 10,
                        digits_val(t.take(i - start + 1)) == acc * 10 + d,
                ;
                if all_digits(t) {
                    lemma_digits_val_prefix(t, i - start + 1);
                    assert(digits_val(t) > u32::MAX);
                }
            }
            return None;
        }
        acc = acc * 10 + d;
        i += 1;
    }
    proof {
        assert(t.take(len - start) =~= t);
        assert(all_digits(t));
        assert(u32_of(s@) == Some(acc));
    }
    Some(acc)
}

/// Appends the decimal digits of `n` to `out`, as `dec_str` states.
pub fn push_dec(out: &mut String, n: u64)
    ensures
        final(out)@ == old(out)@ + dec_str(n as nat),
    decreases n,
{
    if n >= 10 {
        push_dec(out, n / 10);
        push_digit(out, n % 10);
        proof {
            assert(old(out)@ + dec_str((n / 10) as nat) + seq![digit_char((n % 10) as nat)] =~= old(
                out,
            )@ + dec_str(n as nat));
        }
    } else {
        push_digit(out, n);
        proof {
            assert(old(out)@ + seq![digit_char(n as nat)] =~= old(out)@ + dec_str(n as nat));
        }
    }
}

fn push_digit(out: &mut String, d: u64)
    requires
        d < 10,
    ensures
        final(out)@ == old(out)@ + seq![digit_char(d as nat)],
{
    if d == 0 {
        out.append("0");
        proof {
            reveal_strlit("0");
            assert("0"@ =~= seq![digit_char(0)]);
        }
    } else if d == 1 {
        out.append("1");
        proof {
            reveal_strlit("1");
            assert("1"@ =~= seq![digit_char(1)]);
        }
    } else if d == 2 {
        out.append("2");
        proof {
            reveal_strlit("2");
            assert("2"@ =~= seq![digit_char(2)]);
        }
    } else if d == 3 {
        out.append("3");
        proof {
            reveal_strlit("3");
            assert("3"@ =~= seq![digit_char(3)]);
        }
    } else if d == 4 {
        out.append("4");
        proof {
            reveal_strlit("4");
            assert("4"@ =~= seq![digit_char(4)]);
        }
    } else if d == 5 {
        out.append("5");
        proof {
            reveal_strlit("5");
            assert("5"@ =~= seq![digit_char(5)]);
        }
    } else if d == 6 {
        out.append("6");
        proof {
            reveal_strlit("6");
            assert("6"@ =~= seq![digit_char(6)]);
        }
    } else if d == 7 {
        out.append("7");
        proof {
            reveal_strlit("7");
            assert("7"@ =~= seq![digit_char(7)]);
        }
    } else if d == 8 {
        out.append("8");
        proof {
            reveal_strlit("8");
            assert("8"@ =~= seq![digit_char(8)]);
        }
    } else {
        out.append("9");
        proof {
            reveal_strlit("9");
            assert("9"@ =~= seq![digit_char(9)]);
        }
    }
}

} // verus!
