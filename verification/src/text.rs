//! Text primitives on `Seq<char>`: searching, splitting, and decimal numbers.

use vstd::prelude::*;
use vstd::string::*;

verus! {

/// `pat` stands in `s` at position `i`.
pub open spec fn occurs_at(s: Seq<char>, pat: Seq<char>, i: int) -> bool {
    &&& 0 <= i
    &&& i + pat.len() <= s.len()
    &&& s.subrange(i, i + pat.len()) == pat
}

/// The least position at or after `from` where `pat` stands in `s`.
pub open spec fn first_occurrence(s: Seq<char>, pat: Seq<char>, from: int) -> Option<int>
    decreases s.len() + 1 - from,
{
    if from + pat.len() > s.len() {
        None
    } else if occurs_at(s, pat, from) {
        Some(from)
    } else {
        first_occurrence(s, pat, from + 1)
    }
}

/// The pieces of `s` between the occurrences of `sep`, taken from the left
/// without overlap.
pub open spec fn split(s: Seq<char>, sep: Seq<char>) -> Seq<Seq<char>>
    decreases s.len(),
{
    match first_occurrence(s, sep, 0) {
        Some(i) if sep.len() > 0 && 0 <= i && i + sep.len() <= s.len() => {
            seq![s.take(i)] + split(s.skip(i + sep.len()), sep)
        },
        _ => seq![s],
    }
}

/// The decimal digit for a value below ten.
pub open spec fn digit_char(d: nat) -> char {
    ((48 + d) as u8) as char
}

/// The decimal numeral of `n`, without leading zeros.
pub open spec fn decimal(n: nat) -> Seq<char>
    decreases n,
{
    if n < 10 {
        seq![digit_char(n)]
    } else {
        decimal(n / 10).push(digit_char(n % 10))
    }
}

/// `c` is one of `0` to `9`.
pub open spec fn is_digit(c: char) -> bool {
    48 <= c as u32 <= 57
}

/// `s` holds decimal digits alone.
pub open spec fn all_digits(s: Seq<char>) -> bool {
    forall|i: int| 0 <= i < s.len() ==> is_digit(#[trigger] s[i])
}

/// The number that a run of decimal digits denotes.
pub open spec fn digits_value(s: Seq<char>) -> nat
    decreases s.len(),
{
    if s.len() == 0 {
        0
    } else {
        digits_value(s.drop_last()) * 10 + (s.last() as u32 - 48) as nat
    }
}

/// What reading `s` as an unsigned number of at most `max` gives: an optional
/// plus sign, then at least one digit and nothing else.
pub open spec fn unsigned_value(s: Seq<char>, max: nat) -> Option<nat> {
    let digits = if s.len() > 0 && s[0] == '+' { s.skip(1) } else { s };
    if digits.len() > 0 && all_digits(digits) && digits_value(digits) <= max {
        Some(digits_value(digits))
    } else {
        None
    }
}

/// What `first_occurrence` finds is an occurrence, and none stands before it.
pub proof fn lemma_first_occurrence(s: Seq<char>, pat: Seq<char>, from: int)
    requires
        0 <= from,
    ensures
        match first_occurrence(s, pat, from) {
            Some(i) => {
                &&& from <= i
                &&& occurs_at(s, pat, i)
                &&& forall|j: int| from <= j < i ==> !occurs_at(s, pat, j)
            },
            None => forall|j: int| from <= j ==> !occurs_at(s, pat, j),
        },
    decreases s.len() + 1 - from,
{
    if from + pat.len() > s.len() {
    } else if occurs_at(s, pat, from) {
    } else {
        lemma_first_occurrence(s, pat, from + 1);
    }
}

/// The least occurrence is the one that `first_occurrence` finds.
pub proof fn lemma_least_is_first(s: Seq<char>, pat: Seq<char>, from: int, i: int)
    requires
        0 <= from <= i,
        occurs_at(s, pat, i),
        forall|j: int| from <= j < i ==> !occurs_at(s, pat, j),
    ensures
        first_occurrence(s, pat, from) == Some(i),
    decreases i - from,
{
    if from < i {
        lemma_least_is_first(s, pat, from + 1, i);
    }
}

/// Splitting a text without a separator in it gives the text itself.
pub proof fn lemma_split_single(s: Seq<char>, sep: Seq<char>)
    requires
        forall|j: int| !occurs_at(s, sep, j),
    ensures
        split(s, sep) == seq![s],
{
    lemma_first_occurrence(s, sep, 0);
}

/// Splitting `head + sep + rest` gives `head` first, where the separator does
/// not stand earlier.
pub proof fn lemma_split_head(head: Seq<char>, sep: Seq<char>, rest: Seq<char>)
    requires
        sep.len() > 0,
        forall|j: int| 0 <= j < head.len() ==> !occurs_at(head + sep + rest, sep, j),
    ensures
        split(head + sep + rest, sep) == seq![head] + split(rest, sep),
{
    let s = head + sep + rest;
    let i = head.len() as int;
    assert(s.subrange(i, i + sep.len()) =~= sep);
    lemma_least_is_first(s, sep, 0, i);
    assert(s.take(i) =~= head);
    assert(s.skip(i + sep.len()) =~= rest);
}

/// A numeral is not empty, holds digits alone, and denotes its number.
pub proof fn lemma_decimal(n: nat)
    ensures
        decimal(n).len() > 0,
        all_digits(decimal(n)),
        digits_value(decimal(n)) == n,
    decreases n,
{
    if n < 10 {
        let d = decimal(n);
        assert(d.drop_last() =~= Seq::<char>::empty());
        assert(digits_value(d.drop_last()) == 0);
        assert(d.last() == digit_char(n));
    } else {
        lemma_decimal(n / 10);
        let d = decimal(n);
        assert(d.drop_last() =~= decimal(n / 10));
        assert(d.last() == digit_char(n % 10));
        assert forall|i: int| 0 <= i < d.len() implies is_digit(#[trigger] d[i]) by {
            if i < d.len() - 1 {
                assert(d[i] == decimal(n / 10)[i]);
            }
        }
    }
}

/// Reading a numeral gives back its number.
pub proof fn reading_a_numeral_gives_its_number(n: nat, max: nat)
    requires
        n <= max,
    ensures
        unsigned_value(decimal(n), max) == Some(n),
{
    lemma_decimal(n);
    assert(is_digit(decimal(n)[0]));
}

/// Different numbers have different numerals.
pub proof fn numerals_are_distinct(a: nat, b: nat)
    requires
        decimal(a) == decimal(b),
    ensures
        a == b,
{
    lemma_decimal(a);
    lemma_decimal(b);
}

/// The characters of `s`.
pub fn chars_of(s: &str) -> (r: Vec<char>)
    ensures
        r@ == s@,
{
    let mut r: Vec<char> = Vec::new();
    for c in it: s.chars()
        invariant
            it.seq() == s@,
            r@ == s@.take(it.index()),
    {
        r.push(c);
        assert(s@.take(it.index() + 1) =~= s@.take(it.index()).push(c));
    }
    assert(s@.take(s@.len() as int) =~= s@);
    r
}

/// Whether two texts are equal.
pub fn same(a: &str, b: &str) -> (r: bool)
    ensures
        r == (a@ == b@),
{
    a.to_owned() == b.to_owned()
}

/// Whether `pat` stands in `s` at `i`.
pub fn occurs_here(s: &Vec<char>, pat: &Vec<char>, i: usize) -> (r: bool)
    ensures
        r == occurs_at(s@, pat@, i as int),
{
    if pat.len() > s.len() || i > s.len() - pat.len() {
        return false;
    }
    let mut k: usize = 0;
    while k < pat.len()
        invariant
            k <= pat.len(),
            i + pat.len() <= s.len(),
            forall|j: int| 0 <= j < k ==> s@[i + j] == pat@[j],
        decreases pat.len() - k,
    {
        if s[i + k] != pat[k] {
            assert(s@.subrange(i as int, i + pat@.len())[k as int] != pat@[k as int]);
            return false;
        }
        k = k + 1;
    }
    assert(s@.subrange(i as int, i + pat@.len()) =~= pat@);
    true
}

/// The first position at or after `from` where `pat` stands in `s`.
pub fn find_from(s: &Vec<char>, pat: &Vec<char>, from: usize) -> (r: Option<usize>)
    ensures
        match r {
            Some(i) => first_occurrence(s@, pat@, from as int) == Some(i as int),
            None => first_occurrence(s@, pat@, from as int) is None,
        },
{
    let mut i: usize = from;
    while pat.len() <= s.len() && i <= s.len() - pat.len()
        invariant
            from <= i,
            first_occurrence(s@, pat@, from as int) == first_occurrence(s@, pat@, i as int),
        decreases s.len() + 1 - i,
    {
        if occurs_here(s, pat, i) {
            return Some(i);
        }
        if i == s.len() {
            assert(first_occurrence(s@, pat@, i + 1) is None);
            return None;
        }
        i = i + 1;
    }
    None
}

/// Whether `pat` stands anywhere in `s`.
pub fn contains(s: &str, pat: &str) -> (r: bool)
    ensures
        r == (first_occurrence(s@, pat@, 0) is Some),
{
    find_from(&chars_of(s), &chars_of(pat), 0).is_some()
}

/// The pieces of `s` between the occurrences of `sep`.
pub fn split_on(s: &str, sep: &str) -> (r: Vec<String>)
    requires
        sep@.len() > 0,
    ensures
        r@.map_values(|p: String| p@) == split(s@, sep@),
{
    let text: Vec<char> = chars_of(s);
    let pat: Vec<char> = chars_of(sep);
    let mut parts: Vec<String> = Vec::new();
    let mut start: usize = 0;
    let ghost pieces = parts@.map_values(|p: String| p@);
    assert(s@.skip(0) =~= s@);
    assert(pieces + split(s@, sep@) =~= split(s@, sep@));
    loop
        invariant
            text@ == s@,
            pat@ == sep@,
            sep@.len() > 0,
            start <= s@.len(),
            parts@.map_values(|p: String| p@) + split(s@.skip(start as int), sep@) == split(s@, sep@),
        decreases s@.len() - start,
    {
        let ghost before = parts@.map_values(|p: String| p@);
        let ghost rest = s@.skip(start as int);
        let found: Option<usize> = find_from(&text, &pat, start);
        proof {
            lemma_first_occurrence(s@, sep@, start as int);
            lemma_first_occurrence(rest, sep@, 0);
            assert forall|j: int| 0 <= j implies occurs_at(rest, sep@, j) == occurs_at(s@, sep@, start + j) by {
                if j + sep@.len() <= rest.len() {
                    assert(rest.subrange(j, j + sep@.len()) =~= s@.subrange(start + j, start + j + sep@.len()));
                }
            }
        }
        match found {
            Some(i) => {
                proof {
                    assert(occurs_at(rest, sep@, i - start));
                    assert forall|j: int| 0 <= j < i - start implies !occurs_at(rest, sep@, j) by {
                        assert(!occurs_at(s@, sep@, start + j));
                    }
                    lemma_least_is_first(rest, sep@, 0, i - start);
                    assert(rest.take(i - start) =~= s@.subrange(start as int, i as int));
                    assert(rest.skip(i - start + sep@.len()) =~= s@.skip(i + sep@.len()));
                }
                let piece: String = s.substring_char(start, i).to_owned();
                parts.push(piece);
                assert(parts@.map_values(|p: String| p@) =~= before.push(piece@));
                assert(i + pat.len() <= text.len());
                start = i + pat.len();
                assert(before + (seq![piece@] + split(s@.skip(start as int), sep@))
                    =~= before.push(piece@) + split(s@.skip(start as int), sep@));
            },
            None => {
                proof {
                    assert forall|j: int| 0 <= j implies !occurs_at(rest, sep@, j) by {
                        assert(!occurs_at(s@, sep@, start + j));
                    }
                    lemma_split_single(rest, sep@);
                    assert(rest =~= s@.subrange(start as int, s@.len() as int));
                }
                let piece: String = s.substring_char(start, text.len()).to_owned();
                parts.push(piece);
                assert(parts@.map_values(|p: String| p@) =~= before + seq![piece@]);
                return parts;
            },
        }
    }
}

/// The numeral of one digit.
fn digit_text(d: u8) -> (r: &'static str)
    requires
        d < 10,
    ensures
        r@ == seq![digit_char(d as nat)],
{
    proof {
        reveal_strlit("0");
        reveal_strlit("1");
        reveal_strlit("2");
        reveal_strlit("3");
        reveal_strlit("4");
        reveal_strlit("5");
        reveal_strlit("6");
        reveal_strlit("7");
        reveal_strlit("8");
        reveal_strlit("9");
    }
    let r = match d {
        0 => "0",
        1 => "1",
        2 => "2",
        3 => "3",
        4 => "4",
        5 => "5",
        6 => "6",
        7 => "7",
        8 => "8",
        _ => "9",
    };
    assert(r@ =~= seq![digit_char(d as nat)]);
    r
}

/// The decimal numeral of `n`.
pub fn decimal_of(n: u128) -> (r: String)
    ensures
        r@ == decimal(n as nat),
    decreases n,
{
    if n < 10 {
        digit_text(n as u8).to_owned()
    } else {
        let mut r: String = decimal_of(n / 10);
        let last: &str = digit_text((n % 10) as u8);
        r.append(last);
        assert(r@ =~= decimal((n / 10) as nat).push(digit_char((n % 10) as nat)));
        r
    }
}

/// Reads an unsigned number of at most `max`.
pub fn parse_unsigned(s: &str, max: u64) -> (r: Option<u64>)
    ensures
        match r {
            Some(n) => unsigned_value(s@, max as nat) == Some(n as nat),
            None => unsigned_value(s@, max as nat) is None,
        },
{
    let text: Vec<char> = chars_of(s);
    let start: usize = if text.len() > 0 && text[0] == '+' { 1 } else { 0 };
    let ghost digits = if s@.len() > 0 && s@[0] == '+' { s@.skip(1) } else { s@ };
    assert(digits =~= s@.skip(start as int));
    if start == text.len() {
        return None;
    }
    let mut n: u64 = 0;
    let mut i: usize = start;
    assert(digits.take(0) =~= Seq::<char>::empty());
    while i < text.len()
        invariant
            start <= i <= text.len(),
            start <= 1,
            text@ == s@,
            digits == s@.skip(start as int),
            n <= max,
            n == digits_value(digits.take(i - start)),
            forall|j: int| 0 <= j < i - start ==> is_digit(#[trigger] digits[j]),
            digits.len() > 0,
            unsigned_value(s@, max as nat) == (if all_digits(digits) && digits_value(digits) <= max {
                Some(digits_value(digits))
            } else {
                None
            }),
        decreases text.len() - i,
    {
        let c: char = text[i];
        assert(digits[i - start] == c);
        let code: u32 = c as u32;
        if code < 48 || code > 57 {
            assert(!is_digit(digits[i - start]));
            return None;
        }
        let d: u64 = (code - 48) as u64;
        let ghost next = digits.take(i - start + 1);
        assert(next.drop_last() =~= digits.take(i - start));
        assert(digits_value(next) == n * 10 + d);
        if n > max / 10 || d > max || n * 10 > max - d {
            proof {
                if all_digits(digits) {
                    lemma_prefix_value(digits, i - start + 1);
                }
            }
            return None;
        }
        n = n * 10 + d;
        i = i + 1;
    }
    assert(digits.take(i - start) =~= digits);
    Some(n)
}

/// More digits never denote a smaller number.
proof fn lemma_prefix_value(s: Seq<char>, k: int)
    requires
        0 <= k <= s.len(),
        all_digits(s),
    ensures
        digits_value(s.take(k)) <= digits_value(s),
    decreases s.len(),
{
    if k == s.len() {
        assert(s.take(k) =~= s);
    } else {
        let t = s.drop_last();
        assert(t.take(k) =~= s.take(k));
        assert forall|j: int| 0 <= j < t.len() implies is_digit(#[trigger] t[j]) by {
            assert(t[j] == s[j]);
        }
        lemma_prefix_value(t, k);
    }
}

/// Texts put together with a separator between them.
pub open spec fn joined(parts: Seq<Seq<char>>, sep: Seq<char>) -> Seq<char>
    decreases parts.len(),
{
    if parts.len() == 0 {
        Seq::empty()
    } else if parts.len() == 1 {
        parts[0]
    } else {
        parts[0] + sep + joined(parts.skip(1), sep)
    }
}

/// Splitting loses nothing: the parts, put together again, are the text, and no part
/// holds the separator.
pub proof fn splitting_loses_nothing(s: Seq<char>, sep: Seq<char>)
    requires
        sep.len() > 0,
    ensures
        joined(split(s, sep), sep) == s,
        split(s, sep).len() > 0,
        forall|i: int, j: int| 0 <= i < split(s, sep).len() ==> !#[trigger] occurs_at(split(s, sep)[i], sep, j),
    decreases s.len(),
{
    lemma_first_occurrence(s, sep, 0);
    let parts = split(s, sep);
    match first_occurrence(s, sep, 0) {
        Some(i) => {
            let rest = s.skip(i + sep.len());
            splitting_loses_nothing(rest, sep);
            let more = split(rest, sep);
            assert(parts == seq![s.take(i)] + more);
            assert(parts.skip(1) =~= more);
            assert(s.take(i) + sep + rest =~= s) by {
                assert(s.subrange(i, i + sep.len()) == sep);
            }
            assert forall|k: int, j: int| 0 <= k < parts.len() implies !#[trigger] occurs_at(parts[k], sep, j) by {
                if k == 0 {
                    if occurs_at(s.take(i), sep, j) {
                        assert(s.subrange(j, j + sep.len()) =~= s.take(i).subrange(j, j + sep.len()));
                        assert(occurs_at(s, sep, j));
                    }
                } else {
                    assert(parts[k] == more[k - 1]);
                }
            }
        },
        None => {
            assert forall|k: int, j: int| 0 <= k < parts.len() implies !#[trigger] occurs_at(parts[k], sep, j) by {
                assert(parts[k] == s);
                if occurs_at(s, sep, j) {
                    assert(0 <= j);
                }
            }
        },
    }
}

/// A number is read off a text exactly where the text is made of digits, after a plus
/// sign or none, and the number is not too great; a digit more at the end makes it ten
/// times as great, and the digit.
pub proof fn numbers_are_read_digit_by_digit(s: Seq<char>, max: nat)
    ensures
        s.len() == 0 ==> unsigned_value(s, max) is None,
        s.len() > 0 && (forall|i: int| 0 <= i < s.len() ==> '0' <= #[trigger] s[i] <= '9') ==> unsigned_value(s, max)
            == (if digits_value(s) <= max {
            Some(digits_value(s))
        } else {
            None
        }),
        (exists|i: int| 0 < i < s.len() && !('0' <= #[trigger] s[i] <= '9')) ==> unsigned_value(s, max) is None,
        s.len() > 0 && !('0' <= s[0] <= '9') && s[0] != '+' ==> unsigned_value(s, max) is None,
        s.len() > 0 && s[0] == '+' ==> unsigned_value(s, max) == unsigned_value(seq!['0'] + s.skip(1), max) || s.len()
            == 1,
        s == seq!['+'] ==> unsigned_value(s, max) is None,
        unsigned_value(s, max) matches Some(n) ==> n <= max,
        digits_value(Seq::empty()) == 0,
        forall|c: char| '0' <= c <= '9' ==> #[trigger] digits_value(s.push(c)) == 10 * digits_value(s) + (c as u32 - 48),
{
    assert forall|c: char| '0' <= c <= '9' implies #[trigger] digits_value(s.push(c)) == 10 * digits_value(s) + (
    c as u32 - 48) by {
        assert(s.push(c).drop_last() =~= s);
    }
    if s.len() > 0 && (forall|i: int| 0 <= i < s.len() ==> '0' <= #[trigger] s[i] <= '9') {
        assert(s[0] != '+');
        assert forall|i: int| 0 <= i < s.len() implies is_digit(#[trigger] s[i]) by {
            lemma_digit(s[i]);
        }
    }
    if exists|i: int| 0 < i < s.len() && !('0' <= #[trigger] s[i] <= '9') {
        let i = choose|i: int| 0 < i < s.len() && !('0' <= #[trigger] s[i] <= '9');
        lemma_digit(s[i]);
        assert(s.skip(1)[i - 1] == s[i]);
    }
    if s.len() > 0 && !('0' <= s[0] <= '9') && s[0] != '+' {
        lemma_digit(s[0]);
    }
    if s.len() > 1 && s[0] == '+' {
        let t = s.skip(1);
        let z = seq!['0'] + t;
        assert(z[0] == '0');
        lemma_leading_zero(t);
        if all_digits(t) {
            assert forall|i: int| 0 <= i < z.len() implies is_digit(#[trigger] z[i]) by {
                if i > 0 {
                    assert(z[i] == t[i - 1]);
                }
            }
        }
        if all_digits(z) {
            assert forall|i: int| 0 <= i < t.len() implies is_digit(#[trigger] t[i]) by {
                assert(z[i + 1] == t[i]);
            }
        }
    }
}

/// The digits are those from zero to nine.
proof fn lemma_digit(c: char)
    ensures
        is_digit(c) == ('0' <= c <= '9'),
{
}

/// A zero in front changes no number.
proof fn lemma_leading_zero(s: Seq<char>)
    ensures
        digits_value(seq!['0'] + s) == digits_value(s),
    decreases s.len(),
{
    let z = seq!['0'] + s;
    if s.len() == 0 {
        assert(z.drop_last() =~= Seq::empty());
        assert(z.last() == '0');
        assert('0' as u32 == 48);
        assert(digits_value(Seq::empty()) == 0);
        assert(s =~= Seq::empty());
    } else {
        assert(z.last() == s.last());
        assert(z.drop_last() =~= seq!['0'] + s.drop_last());
        lemma_leading_zero(s.drop_last());
    }
}

} // verus!
