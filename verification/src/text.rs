//! Text: what the library needs of strings, with strings modelled as `Seq<char>`.

use vstd::prelude::*;
use vstd::string::*;
use vstd::utf8::*;

use crate::duplicate::Duplicate;

verus! {

// ---------------------------------------------------------------------------------------------
// White space
// ---------------------------------------------------------------------------------------------

/// The code points with the Unicode property `White_Space`.
pub open spec fn white_space(c: char) -> bool {
    let n = c as u32;
    ||| 0x9 <= n <= 0xD
    ||| n == 0x20
    ||| n == 0x85
    ||| n == 0xA0
    ||| n == 0x1680
    ||| 0x2000 <= n <= 0x200A
    ||| n == 0x2028
    ||| n == 0x2029
    ||| n == 0x202F
    ||| n == 0x205F
    ||| n == 0x3000
}

/// `s` without the white space it begins with.
pub open spec fn trimmed_start(s: Seq<char>) -> Seq<char>
    decreases s.len(),
{
    if s.len() > 0 && white_space(s[0]) {
        trimmed_start(s.drop_first())
    } else {
        s
    }
}

/// `s` without the white space it ends with.
pub open spec fn trimmed_end(s: Seq<char>) -> Seq<char>
    decreases s.len(),
{
    if s.len() > 0 && white_space(s.last()) {
        trimmed_end(s.drop_last())
    } else {
        s
    }
}

/// `s` without the white space at either end.
pub open spec fn trimmed(s: Seq<char>) -> Seq<char> {
    trimmed_end(trimmed_start(s))
}

/// `str::trim`: the slice without leading and trailing characters that have the Unicode
/// property `White_Space`.
pub assume_specification[ str::trim ](s: &str) -> (r: &str)
    ensures
        r@ == trimmed(s@),
;

// ---------------------------------------------------------------------------------------------
// Letter case
// ---------------------------------------------------------------------------------------------

/// The ASCII letters `A` to `Z` become `a` to `z`; every other character stays.
pub open spec fn ascii_lower(c: char) -> char {
    if 'A' <= c <= 'Z' {
        ((c as u32 + 32) as u32) as char
    } else {
        c
    }
}

/// `s` with every character mapped by [`ascii_lower`].
pub open spec fn ascii_lowered(s: Seq<char>) -> Seq<char> {
    Seq::new(s.len(), |i: int| ascii_lower(s[i]))
}

/// The lowercase form of a text under the Unicode rules: what `str::to_lowercase` returns.
pub uninterp spec fn lowercase(s: Seq<char>) -> Seq<char>;

/// `str::to_lowercase`: the lowercase form under the Unicode rules. It depends on the text
/// alone, and on ASCII text it is the ASCII lowercase form.
pub assume_specification[ str::to_lowercase ](s: &str) -> (r: String)
    ensures
        r@ == lowercase(s@),
        is_ascii_chars(s@) ==> r@ == ascii_lowered(s@),
;

/// [`ascii_lower`], computed.
fn lower_char(c: char) -> (r: char)
    ensures
        r == ascii_lower(c),
{
    match c {
        'A' => 'a',
        'B' => 'b',
        'C' => 'c',
        'D' => 'd',
        'E' => 'e',
        'F' => 'f',
        'G' => 'g',
        'H' => 'h',
        'I' => 'i',
        'J' => 'j',
        'K' => 'k',
        'L' => 'l',
        'M' => 'm',
        'N' => 'n',
        'O' => 'o',
        'P' => 'p',
        'Q' => 'q',
        'R' => 'r',
        'S' => 's',
        'T' => 't',
        'U' => 'u',
        'V' => 'v',
        'W' => 'w',
        'X' => 'x',
        'Y' => 'y',
        'Z' => 'z',
        _ => c,
    }
}

/// Whether `s`, with its ASCII letters in lower case, ends with `tail`.
pub fn ends_with_ignoring_ascii_case(s: &str, tail: &str) -> (r: bool)
    ensures
        r == tail@.is_suffix_of(ascii_lowered(s@)),
{
    let n = s.unicode_len();
    let m = tail.unicode_len();
    if n < m {
        return false;
    }
    let mut i: usize = 0;
    while i < m
        invariant
            n == s@.len(),
            m == tail@.len(),
            m <= n,
            i <= m,
            forall|k: int| 0 <= k < i ==> ascii_lowered(s@)[n - m + k] == tail@[k],
        decreases m - i,
    {
        if lower_char(s.get_char(n - m + i)) != tail.get_char(i) {
            assert(ascii_lowered(s@)[n - m + i] != tail@[i as int]);
            return false;
        }
        i += 1;
    }
    true
}

// ---------------------------------------------------------------------------------------------
// Numbers
// ---------------------------------------------------------------------------------------------

/// The lowercase hexadecimal digit of `d`.
pub open spec fn hex_digit(d: nat) -> char {
    if d < 10 {
        (('0' as u32 + d) as u32) as char
    } else {
        (('a' as u32 + (d - 10)) as u32) as char
    }
}

/// The last `width` hexadecimal digits of `n`, with leading zeros.
pub open spec fn hex_text(n: nat, width: nat) -> Seq<char>
    decreases width,
{
    if width == 0 {
        seq![]
    } else {
        hex_text(n / 16, (width - 1) as nat).push(hex_digit(n % 16))
    }
}

/// `n` in decimal, without leading zeros.
pub open spec fn decimal_text(n: nat) -> Seq<char>
    decreases n,
{
    if n < 10 {
        seq![hex_digit(n)]
    } else {
        decimal_text(n / 10).push(hex_digit(n % 10))
    }
}

fn digit(d: u64) -> (r: &'static str)
    requires
        d < 16,
    ensures
        r@ == seq![hex_digit(d as nat)],
{
    proof {
        reveal_strlit("0");
        reveal_strlit("1");
        reveal_strlit("2");
        reveal_strlit("3");
        reveal_strlit("4");
        reveal_strlit("5");
        reveal_strlit("6");
        reveal_strlit("7");
        reveal_strlit("8");
        reveal_strlit("9");
        reveal_strlit("a");
        reveal_strlit("b");
        reveal_strlit("c");
        reveal_strlit("d");
        reveal_strlit("e");
        reveal_strlit("f");
    }
    match d {
        0 => "0",
        1 => "1",
        2 => "2",
        3 => "3",
        4 => "4",
        5 => "5",
        6 => "6",
        7 => "7",
        8 => "8",
        9 => "9",
        10 => "a",
        11 => "b",
        12 => "c",
        13 => "d",
        14 => "e",
        _ => "f",
    }
}

/// The last `width` hexadecimal digits of `n`, lowercase, with leading zeros.
pub fn hex(n: u64, width: usize) -> (r: String)
    ensures
        r@ == hex_text(n as nat, width as nat),
    decreases width,
{
    if width == 0 {
        String::new()
    } else {
        let mut s = hex(n / 16, width - 1);
        s.append(digit(n % 16));
        s
    }
}

/// `n` in decimal.
pub fn decimal(n: u64) -> (r: String)
    ensures
        r@ == decimal_text(n as nat),
    decreases n,
{
    if n < 10 {
        digit(n).to_owned()
    } else {
        let mut s = decimal(n / 10);
        s.append(digit(n % 10));
        s
    }
}

// ---------------------------------------------------------------------------------------------
// Joining
// ---------------------------------------------------------------------------------------------

/// `a` followed by `b`.
pub fn join(a: &str, b: &str) -> (r: String)
    ensures
        r@ == a@ + b@,
{
    let mut s = a.to_owned();
    s.append(b);
    s
}

// ---------------------------------------------------------------------------------------------
// Optional texts
// ---------------------------------------------------------------------------------------------

/// The texts among optional texts, in order.
pub open spec fn texts_among(list: Seq<Option<Seq<char>>>) -> Seq<Seq<char>>
    decreases list.len(),
{
    if list.len() == 0 {
        seq![]
    } else {
        match list.last() {
            Some(s) => texts_among(list.drop_last()).push(s),
            None => texts_among(list.drop_last()),
        }
    }
}

/// The texts among optional texts, in order.
pub fn only_texts(list: &Vec<Option<String>>) -> (r: Vec<String>)
    ensures
        r.deep_view() == texts_among(list.deep_view()),
{
    let n = list.len();
    let ghost all = list.deep_view();
    let mut r: Vec<String> = Vec::new();
    let mut i: usize = 0;
    assert(r.deep_view() =~= texts_among(all.take(0)));
    while i < n
        invariant
            n == list@.len(),
            all == list.deep_view(),
            i <= n,
            r.deep_view() == texts_among(all.take(i as int)),
        decreases n - i,
    {
        let ghost done = r.deep_view();
        proof {
            assert(all.take(i + 1).drop_last() =~= all.take(i as int));
            assert(all.take(i + 1).last() == all[i as int]);
        }
        match &list[i] {
            Some(s) => {
                let copy = s.duplicate();
                r.push(copy);
                assert(r.deep_view() =~= done.push(copy@));
            },
            None => {},
        }
        i += 1;
    }
    assert(all.take(n as int) =~= all);
    r
}

// ---------------------------------------------------------------------------------------------
// Laws
// ---------------------------------------------------------------------------------------------

/// The fixed-width hexadecimal text of a number determines the number, as long as the number
/// fits in that many digits.
pub proof fn hex_text_is_injective(a: nat, b: nat, width: nat)
    requires
        a < vstd::arithmetic::power::pow(16, width),
        b < vstd::arithmetic::power::pow(16, width),
        hex_text(a, width) == hex_text(b, width),
    ensures
        a == b,
    decreases width,
{
    reveal(vstd::arithmetic::power::pow);
    if width > 0 {
        let w = (width - 1) as nat;
        let s = hex_text(a / 16, w);
        let t = hex_text(b / 16, w);
        assert(hex_text(a, width).last() == hex_digit(a % 16));
        assert(hex_text(b, width).last() == hex_digit(b % 16));
        assert(a % 16 == b % 16);
        assert(hex_text(a, width).drop_last() =~= s);
        assert(hex_text(b, width).drop_last() =~= t);
        hex_text_is_injective(a / 16, b / 16, w);
    }
}

/// Fixed-width hexadecimal text has that width.
pub proof fn hex_text_len(n: nat, width: nat)
    ensures
        hex_text(n, width).len() == width,
    decreases width,
{
    if width > 0 {
        hex_text_len(n / 16, (width - 1) as nat);
    }
}

/// A lowercase hexadecimal digit.
pub open spec fn is_hex_digit(c: char) -> bool {
    '0' <= c <= '9' || 'a' <= c <= 'f'
}

/// Hexadecimal text consists of lowercase hexadecimal digits.
pub proof fn hex_text_has_hex_digits(n: nat, width: nat)
    ensures
        forall|i: int|
            0 <= i < hex_text(n, width).len() ==> is_hex_digit(#[trigger] hex_text(n, width)[i]),
    decreases width,
{
    if width > 0 {
        let before = hex_text(n / 16, (width - 1) as nat);
        hex_text_has_hex_digits(n / 16, (width - 1) as nat);
        assert(is_hex_digit(hex_digit(n % 16)));
        assert forall|i: int| 0 <= i < hex_text(n, width).len() implies is_hex_digit(
            #[trigger] hex_text(n, width)[i],
        ) by {
            if i < before.len() {
                assert(hex_text(n, width)[i] == before[i]);
            }
        }
    }
}

/// Texts, taken as optional texts, are all of them texts.
pub proof fn all_texts_are_among(list: Seq<Seq<char>>)
    ensures
        texts_among(list.map_values(|s: Seq<char>| Some(s))) == list,
    decreases list.len(),
{
    let wrapped = list.map_values(|s: Seq<char>| Some(s));
    if list.len() > 0 {
        all_texts_are_among(list.drop_last());
        assert(wrapped.drop_last() =~= list.drop_last().map_values(|s: Seq<char>| Some(s)));
        assert(list.drop_last().push(list.last()) =~= list);
    } else {
        assert(texts_among(wrapped) =~= list);
    }
}

/// Trimming is idempotent: a trimmed text has nothing left to trim.
pub proof fn trimmed_is_idempotent(s: Seq<char>)
    ensures
        trimmed(trimmed(s)) == trimmed(s),
{
    let a = trimmed_start(s);
    lemma_trimmed_start(s);
    lemma_trimmed_end(a);
    let b = trimmed_end(a);
    assert(trimmed_start(b) == b);
    assert(trimmed_end(b) == b);
}

/// White space put around a text makes no difference to its trimmed form.
pub proof fn trimmed_ignores_outer_space(before: Seq<char>, s: Seq<char>, after: Seq<char>)
    requires
        forall|i: int| 0 <= i < before.len() ==> white_space(#[trigger] before[i]),
        forall|i: int| 0 <= i < after.len() ==> white_space(#[trigger] after[i]),
    ensures
        trimmed(before + s + after) == trimmed(s),
{
    lemma_skip_leading(before, s + after);
    assert(before + s + after =~= before + (s + after));
    lemma_trimmed_start(s);
    lemma_trimmed_start_with_tail(s, after);
    let a = trimmed_start(s);
    if a.len() > 0 {
        lemma_drop_trailing(a, after);
    } else {
        let b = trimmed_start(s + after);
        lemma_all_space_end(b);
        assert(trimmed_end(a) =~= seq![]);
    }
}

proof fn lemma_trimmed_start(s: Seq<char>)
    ensures
        trimmed_start(s).len() > 0 ==> !white_space(trimmed_start(s)[0]),
        trimmed_start(s).is_suffix_of(s),
    decreases s.len(),
{
    if s.len() > 0 && white_space(s[0]) {
        lemma_trimmed_start(s.drop_first());
    }
}

proof fn lemma_trimmed_end(s: Seq<char>)
    ensures
        trimmed_end(s).len() > 0 ==> !white_space(trimmed_end(s).last()),
        trimmed_end(s).is_prefix_of(s),
    decreases s.len(),
{
    if s.len() > 0 && white_space(s.last()) {
        lemma_trimmed_end(s.drop_last());
    }
}

proof fn lemma_skip_leading(before: Seq<char>, s: Seq<char>)
    requires
        forall|i: int| 0 <= i < before.len() ==> white_space(#[trigger] before[i]),
    ensures
        trimmed_start(before + s) == trimmed_start(s),
    decreases before.len(),
{
    if before.len() == 0 {
        assert(before + s =~= s);
    } else {
        assert((before + s)[0] == before[0]);
        assert((before + s).drop_first() =~= before.drop_first() + s);
        lemma_skip_leading(before.drop_first(), s);
    }
}

proof fn lemma_drop_trailing(s: Seq<char>, after: Seq<char>)
    requires
        forall|i: int| 0 <= i < after.len() ==> white_space(#[trigger] after[i]),
    ensures
        trimmed_end(s + after) == trimmed_end(s),
    decreases after.len(),
{
    if after.len() == 0 {
        assert(s + after =~= s);
    } else {
        assert((s + after).last() == after.last());
        assert((s + after).drop_last() =~= s + after.drop_last());
        lemma_drop_trailing(s, after.drop_last());
    }
}

/// What trimming the start of `s` does when white space follows `s`.
proof fn lemma_trimmed_start_with_tail(s: Seq<char>, after: Seq<char>)
    requires
        forall|i: int| 0 <= i < after.len() ==> white_space(#[trigger] after[i]),
    ensures
        trimmed_start(s).len() > 0 ==> trimmed_start(s + after) == trimmed_start(s) + after,
        trimmed_start(s).len() == 0 ==> forall|i: int|
            0 <= i < trimmed_start(s + after).len() ==> white_space(
                #[trigger] trimmed_start(s + after)[i],
            ),
    decreases s.len(),
{
    if s.len() == 0 {
        assert(s + after =~= after);
        lemma_trimmed_start(after);
        let t = trimmed_start(after);
        assert forall|i: int| 0 <= i < t.len() implies white_space(#[trigger] t[i]) by {
            assert(t[i] == after[after.len() - t.len() + i]);
        }
        assert(trimmed_start(s + after) == t);
    } else if white_space(s[0]) {
        assert((s + after)[0] == s[0]);
        assert((s + after).drop_first() =~= s.drop_first() + after);
        lemma_trimmed_start_with_tail(s.drop_first(), after);
        assert(trimmed_start(s + after) == trimmed_start(s.drop_first() + after));
    }
}

proof fn lemma_all_space_end(s: Seq<char>)
    requires
        forall|i: int| 0 <= i < s.len() ==> white_space(#[trigger] s[i]),
    ensures
        trimmed_end(s) == Seq::<char>::empty(),
    decreases s.len(),
{
    if s.len() > 0 {
        lemma_all_space_end(s.drop_last());
    }
}

/// The number that a lowercase hexadecimal digit stands for.
pub open spec fn hex_digit_value(c: char) -> nat {
    if '0' <= c <= '9' {
        (c as u32 - '0' as u32) as nat
    } else {
        (c as u32 - 'a' as u32 + 10) as nat
    }
}

/// The number that hexadecimal digits stand for, the last one counting least.
pub open spec fn hex_value(s: Seq<char>) -> nat
    decreases s.len(),
{
    if s.len() == 0 {
        0
    } else {
        16 * hex_value(s.drop_last()) + hex_digit_value(s.last())
    }
}

/// Hexadecimal text, read as a number, is the number that was written, as long as it fits.
pub proof fn hex_text_is_read_back(n: nat, width: nat)
    requires
        n < vstd::arithmetic::power::pow(16, width),
    ensures
        hex_value(hex_text(n, width)) == n,
    decreases width,
{
    reveal(vstd::arithmetic::power::pow);
    if width > 0 {
        let s = hex_text(n, width);
        hex_text_is_read_back(n / 16, (width - 1) as nat);
        assert(s.drop_last() =~= hex_text(n / 16, (width - 1) as nat));
        assert(s.last() == hex_digit(n % 16));
        assert(hex_digit_value(hex_digit(n % 16)) == n % 16);
    }
}

/// The number that decimal digits stand for, the last one counting least.
pub open spec fn decimal_value(s: Seq<char>) -> nat
    decreases s.len(),
{
    if s.len() == 0 {
        0
    } else {
        10 * decimal_value(s.drop_last()) + (s.last() as u32 - '0' as u32) as nat
    }
}

/// Decimal text, read as a number, is the number that was written; it consists of decimal
/// digits, at least one, and begins with a zero only where the number is zero.
pub proof fn decimal_text_is_read_back(n: nat)
    ensures
        decimal_value(decimal_text(n)) == n,
        decimal_text(n).len() > 0,
        forall|i: int|
            0 <= i < decimal_text(n).len() ==> '0' <= #[trigger] decimal_text(n)[i] <= '9',
        n > 0 ==> decimal_text(n)[0] != '0',
        n == 0 ==> decimal_text(n) == seq!['0'],
    decreases n,
{
    reveal_with_fuel(decimal_value, 3);
    let s = decimal_text(n);
    if n < 10 {
        assert(s.drop_last() =~= seq![]);
        assert(s =~= seq![s[0]]);
        assert(decimal_value(s.drop_last()) == 0);
    } else {
        let before = decimal_text(n / 10);
        decimal_text_is_read_back(n / 10);
        assert(s.drop_last() =~= before);
        assert forall|i: int| 0 <= i < s.len() implies '0' <= #[trigger] s[i] <= '9' by {
            if i < before.len() {
                assert(s[i] == before[i]);
            }
        }
        assert(s[0] == before[0]);
    }
}

/// The texts among optional texts are those that are there, in order.
pub proof fn texts_among_are_those_there(list: Seq<Option<Seq<char>>>)
    ensures
        texts_among(list) == list.filter(|o: Option<Seq<char>>| o is Some).map_values(
            |o: Option<Seq<char>>| o->0,
        ),
    decreases list.len(),
{
    reveal(Seq::filter);
    let there = |o: Option<Seq<char>>| o is Some;
    let text = |o: Option<Seq<char>>| o->0;
    if list.len() > 0 {
        texts_among_are_those_there(list.drop_last());
        let before = list.drop_last().filter(there);
        if list.last() is Some {
            assert(before.push(list.last()).map_values(text) =~= before.map_values(text).push(
                list.last()->0,
            ));
        }
    } else {
        assert(texts_among(list) =~= list.filter(there).map_values(text));
    }
}

} // verus!
