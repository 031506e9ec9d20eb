//! Text handling on Unicode scalar values: trimming, searching, number parsing and formatting.
use vstd::prelude::*;
use vstd::string::*;

verus! {

broadcast use vstd::seq_lib::group_seq_properties;

/// `String::push` appends the character to the end of the text.
pub assume_specification[ String::push ](s: &mut String, c: char)
    ensures
        final(s)@ == old(s)@.push(c),
;

/// The characters of a text, in order.
pub fn chars(s: &str) -> (v: Vec<char>)
    ensures
        v@ == s@,
{
    let mut v: Vec<char> = Vec::new();
    for c in it: s.chars()
        invariant
            v@ == it.seq().take(it.index()),
            it.seq() == s@,
    {
        v.push(c);
        assert(it.seq().take(it.index() + 1) =~= it.seq().take(it.index()).push(c));
    }
    assert(s@.take(s@.len() as int) =~= s@);
    v
}

/// The text made of the characters of `v` from `from` up to `to`.
pub fn text_of(v: &Vec<char>, from: usize, to: usize) -> (s: String)
    requires
        from <= to <= v@.len(),
    ensures
        s@ == v@.subrange(from as int, to as int),
{
    let mut s = String::new();
    let mut i: usize = from;
    while i < to
        invariant
            from <= i <= to <= v@.len(),
            s@ == v@.subrange(from as int, i as int),
        decreases to - i,
    {
        s.push(v[i]);
        i = i + 1;
        assert(v@.subrange(from as int, i as int) =~= v@.subrange(from as int, i - 1).push(
            v@[i - 1],
        ));
    }
    s
}

/// Whether two texts hold the same characters.
pub fn same(a: &str, b: &str) -> (r: bool)
    ensures
        r == (a@ == b@),
{
    a.to_owned() == b.to_owned()
}

/// Whether an optional text is present and equal to `b`.
pub fn is_some_text(a: &Option<String>, b: &str) -> (r: bool)
    ensures
        r == (a matches Some(t) && t@ == b@),
{
    match a {
        Some(t) => same(t.as_str(), b),
        None => false,
    }
}

/// Whether `p` stands at position `at` of `s`.
pub open spec fn stands_at(s: Seq<char>, p: Seq<char>, at: int) -> bool {
    0 <= at && at + p.len() <= s.len() && s.subrange(at, at + p.len()) == p
}

/// Whether `p` occurs somewhere in `s`.
pub open spec fn occurs(s: Seq<char>, p: Seq<char>) -> bool {
    exists|at: int| stands_at(s, p, at)
}

fn matches_at(s: &Vec<char>, p: &Vec<char>, at: usize) -> (r: bool)
    requires
        at + p@.len() <= s@.len(),
    ensures
        r == stands_at(s@, p@, at as int),
{
    let total: usize = s.len();
    let mut i: usize = 0;
    while i < p.len()
        invariant
            i <= p@.len(),
            at + p@.len() <= s@.len(),
            total == s@.len(),
            forall|j: int| 0 <= j < i ==> s@[at + j] == p@[j],
        decreases p@.len() - i,
    {
        if s[at + i] != p[i] {
            assert(s@.subrange(at as int, at + p@.len())[i as int] != p@[i as int]);
            return false;
        }
        i = i + 1;
    }
    assert(s@.subrange(at as int, at + p@.len()) =~= p@);
    true
}

/// Whether `s` begins with `p`.
pub fn starts_with(s: &str, p: &str) -> (r: bool)
    ensures
        r == stands_at(s@, p@, 0),
{
    let sv = chars(s);
    let pv = chars(p);
    if pv.len() > sv.len() {
        return false;
    }
    matches_at(&sv, &pv, 0)
}

/// Whether `p` occurs in `s`.
pub fn contains(s: &str, p: &str) -> (r: bool)
    ensures
        r == occurs(s@, p@),
{
    let sv = chars(s);
    let pv = chars(p);
    if pv.len() > sv.len() {
        return false;
    }
    let last: usize = sv.len() - pv.len();
    let mut at: usize = 0;
    while !matches_at(&sv, &pv, at)
        invariant
            at <= last,
            last + pv@.len() == sv@.len(),
            sv@ == s@,
            pv@ == p@,
            forall|k: int| 0 <= k < at ==> !stands_at(sv@, pv@, k),
        decreases last - at,
    {
        if at == last {
            assert forall|k: int| !stands_at(sv@, pv@, k) by {
                if stands_at(sv@, pv@, k) {
                    assert(0 <= k <= last);
                }
            }
            return false;
        }
        at = at + 1;
    }
    true
}

/// White space in the sense of the Unicode `White_Space` property.
pub open spec fn is_space(c: char) -> bool {
    ||| '\u{9}' <= c <= '\u{d}'
    ||| c == '\u{20}'
    ||| c == '\u{85}'
    ||| c == '\u{a0}'
    ||| c == '\u{1680}'
    ||| '\u{2000}' <= c <= '\u{200a}'
    ||| c == '\u{2028}'
    ||| c == '\u{2029}'
    ||| c == '\u{202f}'
    ||| c == '\u{205f}'
    ||| c == '\u{3000}'
}

pub fn space(c: char) -> (r: bool)
    ensures
        r == is_space(c),
{
    ('\u{9}' <= c && c <= '\u{d}') || c == '\u{20}' || c == '\u{85}' || c == '\u{a0}' || c
        == '\u{1680}' || ('\u{2000}' <= c && c <= '\u{200a}') || c == '\u{2028}' || c == '\u{2029}'
        || c == '\u{202f}' || c == '\u{205f}' || c == '\u{3000}'
}

pub open spec fn trim_front(s: Seq<char>) -> Seq<char>
    decreases s.len(),
{
    if s.len() > 0 && is_space(s[0]) {
        trim_front(s.skip(1))
    } else {
        s
    }
}

pub open spec fn trim_back(s: Seq<char>) -> Seq<char>
    decreases s.len(),
{
    if s.len() > 0 && is_space(s.last()) {
        trim_back(s.drop_last())
    } else {
        s
    }
}

/// `s` without the white space at its two ends.
pub open spec fn trimmed(s: Seq<char>) -> Seq<char> {
    trim_back(trim_front(s))
}

/// Cuts the white space off both ends of a text.
pub fn trim(s: &str) -> (r: String)
    ensures
        r@ == trimmed(s@),
{
    let v = chars(s);
    let mut from: usize = 0;
    assert(v@.skip(0) =~= v@);
    while from < v.len() && space(v[from])
        invariant
            from <= v@.len(),
            trim_front(v@) == trim_front(v@.skip(from as int)),
        ensures
            from <= v@.len(),
            trim_front(v@) == v@.skip(from as int),
        decreases v@.len() - from,
    {
        assert(v@.skip(from as int).skip(1) =~= v@.skip(from + 1));
        from = from + 1;
    }
    let ghost front = v@.skip(from as int);
    let mut to: usize = v.len();
    assert(v@.subrange(from as int, to as int) =~= front);
    while from < to && space(v[to - 1])
        invariant
            from <= to <= v@.len(),
            trim_back(front) == trim_back(v@.subrange(from as int, to as int)),
        ensures
            from <= to <= v@.len(),
            trim_back(front) == v@.subrange(from as int, to as int),
        decreases to - from,
    {
        assert(v@.subrange(from as int, to as int).drop_last() =~= v@.subrange(
            from as int,
            to - 1,
        ));
        to = to - 1;
    }
    text_of(&v, from, to)
}

/// Whether a text holds nothing but white space.
pub fn is_blank(s: &str) -> (r: bool)
    ensures
        r == (trimmed(s@).len() == 0),
{
    trim(s).as_str().is_empty()
}

/// The lower case form of an ASCII capital letter; every other character is kept.
pub open spec fn lower_char(c: char) -> char {
    if 'A' <= c <= 'Z' {
        ((c as u8) + 32) as char
    } else {
        c
    }
}

pub open spec fn lowered(s: Seq<char>) -> Seq<char> {
    s.map_values(|c: char| lower_char(c))
}

/// Replaces each ASCII capital letter by its lower case form.
pub fn ascii_lower(s: &str) -> (r: String)
    ensures
        r@ == lowered(s@),
{
    let v = chars(s);
    let mut r = String::new();
    let mut i: usize = 0;
    while i < v.len()
        invariant
            i <= v@.len(),
            r@ == lowered(v@.take(i as int)),
        decreases v@.len() - i,
    {
        let c = v[i];
        let d: char = if 'A' <= c && c <= 'Z' {
            (c as u8 + 32) as char
        } else {
            c
        };
        r.push(d);
        i = i + 1;
        assert(lowered(v@.take(i as int)) =~= lowered(v@.take(i - 1)).push(lower_char(c)));
    }
    assert(v@.take(v@.len() as int) =~= v@);
    r
}

/// The value of a digit in a base of at most 36, if the character is one.
pub open spec fn digit_value(c: char, radix: int) -> Option<int> {
    let v = if '0' <= c <= '9' {
        c as int - '0' as int
    } else if 'a' <= c <= 'z' {
        c as int - 'a' as int + 10
    } else if 'A' <= c <= 'Z' {
        c as int - 'A' as int + 10
    } else {
        36
    };
    if v < radix {
        Some(v)
    } else {
        None
    }
}

pub open spec fn all_digits(s: Seq<char>, radix: int) -> bool {
    forall|i: int| 0 <= i < s.len() ==> digit_value(#[trigger] s[i], radix) is Some
}

/// The number that a row of digits stands for, most significant digit first.
pub open spec fn number_of(s: Seq<char>, radix: int) -> int
    decreases s.len(),
{
    if s.len() == 0 {
        0
    } else {
        number_of(s.drop_last(), radix) * radix + digit_value(s.last(), radix)->0
    }
}

/// `s` without a leading plus sign.
pub open spec fn unsigned_part(s: Seq<char>) -> Seq<char> {
    if s.len() > 0 && s[0] == '+' {
        s.skip(1)
    } else {
        s
    }
}

/// What a text reads as in the given base: digits, with an optional plus sign in front.
pub open spec fn read_number(s: Seq<char>, radix: int) -> Option<int> {
    let d = unsigned_part(s);
    if d.len() > 0 && all_digits(d, radix) {
        Some(number_of(d, radix))
    } else {
        None
    }
}

/// As `read_number`, for numbers up to `max` only.
pub open spec fn read_bounded(s: Seq<char>, radix: int, max: int) -> Option<int> {
    match read_number(s, radix) {
        Some(n) if n <= max => Some(n),
        _ => None,
    }
}

proof fn lemma_prefix_number(s: Seq<char>, k: int, radix: int)
    requires
        0 <= k <= s.len(),
        radix >= 2,
        all_digits(s, radix),
    ensures
        0 <= number_of(s.take(k), radix) <= number_of(s, radix),
    decreases s.len(),
{
    if s.len() == 0 {
        assert(s.take(k) =~= s);
    } else {
        let p = s.drop_last();
        assert(all_digits(p, radix)) by {
            assert forall|i: int| 0 <= i < p.len() implies digit_value(#[trigger] p[i], radix) is Some by {
                assert(p[i] == s[i]);
            }
        }
        lemma_prefix_number(p, 0, radix);
        assert(p.take(0) =~= Seq::<char>::empty());
        assert(digit_value(s[s.len() - 1], radix) is Some);
        let np = number_of(p, radix);
        assert(np * radix >= np) by (nonlinear_arith)
            requires
                np >= 0,
                radix >= 2,
        ;
        if k == s.len() {
            assert(s.take(k) =~= s);
        } else {
            lemma_prefix_number(p, k, radix);
            assert(p.take(k) =~= s.take(k));
        }
    }
}

/// Reads a number of at most 64 bits in base 10 or 16.
pub fn parse_radix(s: &str, radix: u64) -> (r: Option<u64>)
    requires
        radix == 10 || radix == 16,
    ensures
        match r {
            Some(n) => read_bounded(s@, radix as int, u64::MAX as int) == Some(n as int),
            None => read_bounded(s@, radix as int, u64::MAX as int) is None,
        },
{
    let v = chars(s);
    let from: usize = if v.len() > 0 && v[0] == '+' {
        1
    } else {
        0
    };
    let ghost d = unsigned_part(s@);
    assert(d =~= v@.skip(from as int));
    if from == v.len() {
        return None;
    }
    let mut i: usize = from;
    let mut n: u64 = 0;
    assert(d.take(0) =~= Seq::<char>::empty());
    let mut over: bool = false;
    while i < v.len()
        invariant
            from <= i <= v@.len(),
            radix == 10 || radix == 16,
            d == v@.skip(from as int),
            d == unsigned_part(s@),
            all_digits(d.take(i - from), radix as int),
            !over ==> n == number_of(d.take(i - from), radix as int),
            over ==> number_of(d.take(i - from), radix as int) > u64::MAX,
        decreases v@.len() - i,
    {
        let c = v[i];
        let value: u64 = if '0' <= c && c <= '9' {
            c as u64 - '0' as u64
        } else if 'a' <= c && c <= 'z' {
            c as u64 - 'a' as u64 + 10
        } else if 'A' <= c && c <= 'Z' {
            c as u64 - 'A' as u64 + 10
        } else {
            36
        };
        assert(d[i - from] == c);
        if value >= radix {
            assert(digit_value(d[i - from], radix as int) is None);
            return None;
        }
        let ghost before = d.take(i - from);
        let ghost after = d.take(i + 1 - from);
        proof {
            assert(after.drop_last() =~= before);
            assert(after.last() == c);
            assert forall|k: int| 0 <= k < after.len() implies digit_value(
                #[trigger] after[k],
                radix as int,
            ) is Some by {
                if k < before.len() {
                    assert(after[k] == before[k]);
                }
            }
            assert(number_of(after, radix as int) == number_of(before, radix as int) * radix
                + value);
            let nb = number_of(before, radix as int);
            lemma_prefix_number(before, 0, radix as int);
            assert(before.take(0) =~= Seq::<char>::empty());
            assert(nb * radix >= nb) by (nonlinear_arith)
                requires
                    nb >= 0,
                    radix >= 2,
            ;
        }
        if !over {
            let wide: u128 = n as u128 * radix as u128 + value as u128;
            if wide > u64::MAX as u128 {
                over = true;
            } else {
                n = wide as u64;
            }
        }
        i = i + 1;
    }
    assert(d.take(d.len() as int) =~= d);
    if over {
        None
    } else {
        Some(n)
    }
}

/// Reads a decimal number of at most 64 bits.
pub fn parse_u64(s: &str) -> (r: Option<u64>)
    ensures
        match r {
            Some(n) => read_bounded(s@, 10, u64::MAX as int) == Some(n as int),
            None => read_bounded(s@, 10, u64::MAX as int) is None,
        },
{
    parse_radix(s, 10)
}

/// Reads a decimal number of at most 32 bits.
pub fn parse_u32(s: &str) -> (r: Option<u32>)
    ensures
        match r {
            Some(n) => read_bounded(s@, 10, u32::MAX as int) == Some(n as int),
            None => read_bounded(s@, 10, u32::MAX as int) is None,
        },
{
    match parse_radix(s, 10) {
        Some(n) if n <= u32::MAX as u64 => Some(n as u32),
        _ => None,
    }
}

/// Reads a decimal number that fits a machine word.
pub fn parse_usize(s: &str) -> (r: Option<usize>)
    ensures
        match r {
            Some(n) => read_bounded(s@, 10, usize::MAX as int) == Some(n as int),
            None => read_bounded(s@, 10, usize::MAX as int) is None,
        },
{
    match parse_radix(s, 10) {
        Some(n) if n <= usize::MAX as u64 => Some(n as usize),
        _ => None,
    }
}

/// The decimal digits of a number, without leading zeros.
pub open spec fn decimal_digits(n: nat) -> Seq<char>
    decreases n,
{
    if n < 10 {
        seq![('0' as u8 + n) as char]
    } else {
        decimal_digits(n / 10).push(('0' as u8 + n % 10) as char)
    }
}

/// Writes a number in decimal.
pub fn decimal(n: u64) -> (s: String)
    ensures
        s@ == decimal_digits(n as nat),
    decreases n,
{
    if n < 10 {
        let mut s = String::new();
        s.push((48u8 + n as u8) as char);
        s
    } else {
        let mut s = decimal(n / 10);
        s.push((48u8 + (n % 10) as u8) as char);
        s
    }
}

/// Joins two texts.
pub fn join(a: &str, b: &str) -> (s: String)
    ensures
        s@ == a@ + b@,
{
    let mut s = a.to_owned();
    s.append(b);
    s
}

/// Trimming takes white space and nothing else, from the two ends and from nowhere else, until neither end
/// is white space.
pub proof fn lemma_trim_takes_outer_space(s: Seq<char>)
    ensures
        exists|a: int, b: int|
            #![trigger s.subrange(a, b)]
            0 <= a <= b <= s.len() && trimmed(s) == s.subrange(a, b) && (forall|i: int|
                0 <= i < a ==> is_space(#[trigger] s[i])) && (forall|i: int|
                b <= i < s.len() ==> is_space(#[trigger] s[i])),
        trimmed(s).len() > 0 ==> !is_space(trimmed(s)[0]) && !is_space(trimmed(s).last()),
{
    let a = lemma_front(s);
    let rest = s.skip(a);
    let n = lemma_back(rest);
    assert(trimmed(s) =~= s.subrange(a, a + n));
    assert forall|i: int| a + n <= i < s.len() implies is_space(#[trigger] s[i]) by {
        assert(rest[i - a] == s[i]);
    }
    if trimmed(s).len() > 0 {
        assert(trimmed(s)[0] == rest[0]);
        assert(trimmed(s).last() == rest[n - 1]);
    }
}

proof fn lemma_front(s: Seq<char>) -> (a: int)
    ensures
        0 <= a <= s.len(),
        trim_front(s) == s.skip(a),
        forall|i: int| 0 <= i < a ==> is_space(#[trigger] s[i]),
        a < s.len() ==> !is_space(s[a]),
    decreases s.len(),
{
    if s.len() > 0 && is_space(s[0]) {
        let k = lemma_front(s.skip(1));
        assert(s.skip(1).skip(k) =~= s.skip(k + 1));
        assert forall|i: int| 0 <= i < k + 1 implies is_space(#[trigger] s[i]) by {
            if i > 0 {
                assert(s.skip(1)[i - 1] == s[i]);
            }
        }
        k + 1
    } else {
        assert(s.skip(0) =~= s);
        0
    }
}

proof fn lemma_back(s: Seq<char>) -> (n: int)
    ensures
        0 <= n <= s.len(),
        trim_back(s) == s.take(n),
        forall|i: int| n <= i < s.len() ==> is_space(#[trigger] s[i]),
        n > 0 ==> !is_space(s[n - 1]),
    decreases s.len(),
{
    if s.len() > 0 && is_space(s.last()) {
        let short = s.drop_last();
        let n = lemma_back(short);
        assert(short.take(n) =~= s.take(n));
        assert forall|i: int| n <= i < s.len() implies is_space(#[trigger] s[i]) by {
            if i < short.len() {
                assert(short[i] == s[i]);
            }
        }
        n
    } else {
        assert(s.take(s.len() as int) =~= s);
        s.len() as int
    }
}

/// Blanks, tabs and line ends are white space; letters, digits and signs are not. Outside of ASCII it is the
/// next line, the fixed blank, the blanks of other scripts, and the separators of lines and paragraphs.
pub proof fn lemma_common_spaces(c: char)
    ensures
        c == ' ' || c == '\t' || c == '\n' || c == '\r' ==> is_space(c),
        '!' <= c <= '~' ==> !is_space(c),
        (c as u32) < 128 ==> (is_space(c) <==> 9 <= c as u32 <= 13 || c as u32 == 32),
        128 <= c as u32 ==> (is_space(c) <==> c as u32 == 133 || c as u32 == 160 || c as u32 == 5_760
            || 8_192 <= c as u32 <= 8_202 || c as u32 == 8_232 || c as u32 == 8_233 || c as u32 == 8_239
            || c as u32 == 8_287 || c as u32 == 12_288),
{
}

/// Lower case keeps the length of a text and every character that is no capital letter of ASCII; each of
/// those becomes the letter that comes as far in the alphabet of small ones.
pub proof fn lemma_lower_case(s: Seq<char>, i: int)
    requires
        0 <= i < s.len(),
    ensures
        lowered(s).len() == s.len(),
        !('A' <= s[i] <= 'Z') ==> lowered(s)[i] == s[i],
        'A' <= s[i] <= 'Z' ==> 'a' <= lowered(s)[i] <= 'z' && lowered(s)[i] as int - 'a' as int == s[i] as int
            - 'A' as int,
{
    let c = s[i];
    if 'A' <= c <= 'Z' {
        assert(lower_char(c) as int == c as int + 32);
    }
}

/// Every part of a text occurs in it, and what occurs in it is a part of it.
pub proof fn lemma_parts_occur(s: Seq<char>, a: int, b: int, p: Seq<char>)
    requires
        0 <= a <= b <= s.len(),
    ensures
        occurs(s, s.subrange(a, b)),
        occurs(s, p) ==> p.len() <= s.len() && exists|k: int|
            #![trigger s.subrange(k, k + p.len())]
            0 <= k && k + p.len() <= s.len() && s.subrange(k, k + p.len()) == p,
        a == 0 ==> stands_at(s, s.subrange(a, b), 0),
        stands_at(s, p, 0) ==> p.len() <= s.len() && s.subrange(0, p.len() as int) == p,
{
    assert(stands_at(s, s.subrange(a, b), a));
    if occurs(s, p) {
        let k = choose|k: int| stands_at(s, p, k);
        assert(s.subrange(k, k + p.len()) == p);
    }
}

/// What digits are worth: those of the decimal system what they say, and letters, small or capital, what
/// follows nine, in their order, as far as the base has them.
pub proof fn lemma_digits_are_worth(c: char, radix: int)
    requires
        radix == 10 || radix == 16,
    ensures
        '0' <= c <= '9' ==> digit_value(c, radix) == Some(c as int - 48),
        radix == 16 && 'a' <= c <= 'f' ==> digit_value(c, radix) == Some(c as int - 87),
        radix == 16 && 'A' <= c <= 'F' ==> digit_value(c, radix) == Some(c as int - 55),
        digit_value(c, radix) is Some ==> '0' <= c <= '9' || (radix == 16 && ('a' <= c <= 'f' || 'A' <= c
            <= 'F')),
{
}

/// A number is read digit by digit: one more digit at the end multiplies by the base and adds the digit. A
/// text without digits, with anything else in it, or above the bound reads as nothing; a plus sign in front
/// is passed over.
pub proof fn lemma_numbers_are_read(d: Seq<char>, c: char, radix: int, max: int)
    requires
        radix == 10 || radix == 16,
    ensures
        read_bounded(Seq::empty(), radix, max) is None,
        d.len() > 0 && d[0] != '+' ==> {
            let longer = d.push(c);
            let whole = forall|i: int|
                0 <= i < longer.len() ==> digit_value(#[trigger] longer[i], radix) is Some;
            &&& !whole ==> read_bounded(longer, radix, max) is None
            &&& whole ==> read_number(longer, radix) == Some(
                number_of(d, radix) * radix + digit_value(c, radix)->0,
            )
            &&& whole ==> (read_bounded(longer, radix, max) is Some <==> number_of(longer, radix)
                <= max)
            &&& whole && number_of(longer, radix) <= max ==> read_bounded(longer, radix, max)
                == Some(number_of(longer, radix))
        },
        number_of(Seq::empty(), radix) == 0,
        digit_value(c, radix) is Some && c != '+' ==> read_number(seq![c], radix) == digit_value(
            c,
            radix,
        ),
        d.len() > 0 && d[0] != '+' ==> read_number(seq!['+'] + d, radix) == read_number(d, radix),
{
    let longer = d.push(c);
    assert(longer.drop_last() =~= d);
    let one = seq![c];
    assert(one.drop_last() =~= Seq::<char>::empty());
    assert(number_of(one, radix) == number_of(one.drop_last(), radix) * radix + digit_value(
        one.last(),
        radix,
    )->0);
    assert((seq!['+'] + d).skip(1) =~= d);
}

/// A number written in decimal has its last digit last and the rest of it before.
pub proof fn lemma_decimal_is_written(n: nat)
    ensures
        n < 10 ==> decimal_digits(n).len() == 1 && decimal_digits(n)[0] as int == 48 + n,
        n >= 10 ==> decimal_digits(n).drop_last() == decimal_digits(n / 10) && decimal_digits(
            n,
        ).last() as int == 48 + n % 10,
{
    if n >= 10 {
        assert(decimal_digits(n).drop_last() =~= decimal_digits(n / 10));
    }
}

/// No number that is read is below zero.
pub proof fn lemma_no_number_is_negative(s: Seq<char>, radix: int)
    requires
        radix == 10 || radix == 16,
    ensures
        read_number(s, radix) matches Some(n) ==> n >= 0,
{
    let d = unsigned_part(s);
    if d.len() > 0 && all_digits(d, radix) {
        lemma_prefix_number(d, 0, radix);
    }
}

} // verus!
