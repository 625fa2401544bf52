//! Text: trimming, prefixes, decimal numbers and joining, over sequences of characters.

use vstd::prelude::*;
use vstd::string::*;

verus! {

/// The characters with the Unicode property `White_Space`.
pub open spec fn is_white_space(c: char) -> bool {
    let n = c as u32;
    ||| 0x9 <= n <= 0xd
    ||| n == 0x20
    ||| n == 0x85
    ||| n == 0xa0
    ||| n == 0x1680
    ||| 0x2000 <= n <= 0x200a
    ||| n == 0x2028
    ||| n == 0x2029
    ||| n == 0x202f
    ||| n == 0x205f
    ||| n == 0x3000
}

/// `s` without the white space it starts with.
pub open spec fn trimmed_start(s: Seq<char>) -> Seq<char>
    decreases s.len(),
{
    if s.len() > 0 && is_white_space(s[0]) {
        trimmed_start(s.drop_first())
    } else {
        s
    }
}

/// `s` without the white space it ends with.
pub open spec fn trimmed_end(s: Seq<char>) -> Seq<char>
    decreases s.len(),
{
    if s.len() > 0 && is_white_space(s.last()) {
        trimmed_end(s.drop_last())
    } else {
        s
    }
}

/// `s` without the white space around it.
pub open spec fn trimmed(s: Seq<char>) -> Seq<char> {
    trimmed_end(trimmed_start(s))
}

/// Whether there is nothing but white space in `s`.
pub open spec fn all_white(s: Seq<char>) -> bool {
    forall|i: int| 0 <= i < s.len() ==> is_white_space(#[trigger] s[i])
}

/// `s` without the run of `c` it ends with.
pub open spec fn without_trailing(s: Seq<char>, c: char) -> Seq<char>
    decreases s.len(),
{
    if s.len() > 0 && s.last() == c {
        without_trailing(s.drop_last(), c)
    } else {
        s
    }
}

/// The characters of `s` that are not white space, in order.
pub open spec fn solid(s: Seq<char>) -> Seq<char> {
    s.filter(|c: char| !is_white_space(c))
}

/// The parts of a list, one after the other, with `sep` between neighbours.
pub open spec fn joined(parts: Seq<Seq<char>>, sep: Seq<char>) -> Seq<char>
    decreases parts.len(),
{
    if parts.len() == 0 {
        seq![]
    } else if parts.len() == 1 {
        parts[0]
    } else {
        joined(parts.drop_last(), sep) + sep + parts.last()
    }
}

/// The views of a list of strings.
pub open spec fn texts(parts: Seq<String>) -> Seq<Seq<char>> {
    parts.map_values(|p: String| p@)
}

/// The view of an optional string.
pub open spec fn opt_text(o: Option<String>) -> Option<Seq<char>> {
    match o {
        Some(s) => Some(s@),
        None => None,
    }
}

/// The character that stands for the digit `d`.
pub open spec fn digit(d: nat) -> char {
    ('0' as u32 + d) as char
}

/// `n` in decimal, without leading zeros.
pub open spec fn decimal_text(n: nat) -> Seq<char>
    decreases n,
{
    if n < 10 {
        seq![digit(n)]
    } else {
        decimal_text(n / 10).push(digit(n % 10))
    }
}

/// The ASCII digits.
pub open spec fn is_digit(c: char) -> bool {
    '0' as u32 <= c as u32 <= '9' as u32
}

/// The number that a run of digits writes.
pub open spec fn digits_value(s: Seq<char>) -> nat
    decreases s.len(),
{
    if s.len() == 0 {
        0
    } else {
        (digits_value(s.drop_last()) * 10 + (s.last() as u32 - '0' as u32)) as nat
    }
}

/// The longest run of digits that `s` starts with.
pub open spec fn leading_digits(s: Seq<char>) -> Seq<char>
    decreases s.len(),
{
    if s.len() > 0 && is_digit(s[0]) {
        seq![s[0]] + leading_digits(s.drop_first())
    } else {
        seq![]
    }
}

/// Why a text is not a number of the wanted kind.
#[derive(Debug, Clone, Copy, PartialEq, Eq, Structural)]
pub enum NumberIssue {
    Empty,
    InvalidDigit,
    TooLarge,
}

/// What follows an optional `+` sign.
pub open spec fn unsigned_part(s: Seq<char>) -> Seq<char> {
    if s.len() > 1 && s[0] == '+' {
        s.drop_first()
    } else {
        s
    }
}

/// The number up to `max` that `s` writes in decimal, or what is wrong with it.
pub open spec fn number_of(s: Seq<char>, max: nat) -> Result<nat, NumberIssue> {
    let body = unsigned_part(s);
    let digits = leading_digits(body);
    if s.len() == 0 {
        Err(NumberIssue::Empty)
    } else if digits_value(digits) > max {
        Err(NumberIssue::TooLarge)
    } else if digits.len() < body.len() {
        Err(NumberIssue::InvalidDigit)
    } else {
        Ok(digits_value(digits))
    }
}

/// Whether `c` is Unicode white space.
pub fn white_space(c: char) -> (b: bool)
    ensures
        b == is_white_space(c),
{
    let n: u32 = c as u32;
    (0x9 <= n && n <= 0xd) || n == 0x20 || n == 0x85 || n == 0xa0 || n == 0x1680
        || (0x2000 <= n && n <= 0x200a) || n == 0x2028 || n == 0x2029 || n == 0x202f
        || n == 0x205f || n == 0x3000
}

/// The characters of `s`.
pub fn chars_of(s: &str) -> (v: Vec<char>)
    ensures
        v@ == s@,
{
    let mut v: Vec<char> = Vec::new();
    for c in it: s.chars()
        invariant
            v@ == it.seq().take(it.index() as int),
            it.seq() == s@,
    {
        v.push(c);
    }
    v
}

/// Whether two texts are the same.
pub fn same(a: &str, b: &str) -> (r: bool)
    ensures
        r == (a@ == b@),
{
    a.to_owned() == b.to_owned()
}

/// `s` without the white space around it.
pub fn trim(s: &str) -> (r: &str)
    ensures
        r@ == trimmed(s@),
{
    let cs = chars_of(s);
    let len = cs.len();
    let mut start: usize = 0;
    assert(cs@.skip(0) =~= cs@);
    while start < len && white_space(cs[start])
        invariant
            start <= len == cs@.len(),
            trimmed_start(cs@) == trimmed_start(cs@.skip(start as int)),
        decreases len - start,
    {
        assert(cs@.skip(start as int).drop_first() =~= cs@.skip(start + 1));
        start = start + 1;
    }
    assert(trimmed_start(cs@) == cs@.skip(start as int));
    let mut end: usize = len;
    assert(cs@.subrange(start as int, end as int) =~= cs@.skip(start as int));
    while end > start && white_space(cs[end - 1])
        invariant
            start <= end <= len == cs@.len(),
            trimmed(cs@) == trimmed_end(cs@.subrange(start as int, end as int)),
        decreases end,
    {
        assert(cs@.subrange(start as int, end as int).drop_last() =~= cs@.subrange(
            start as int,
            end - 1,
        ));
        end = end - 1;
    }
    s.substring_char(start, end)
}

/// `s` without the white space it ends with.
pub fn trim_end(s: &str) -> (r: &str)
    ensures
        r@ == trimmed_end(s@),
{
    let cs = chars_of(s);
    let mut end: usize = cs.len();
    assert(cs@.take(end as int) =~= cs@);
    while end > 0 && white_space(cs[end - 1])
        invariant
            end <= cs@.len(),
            trimmed_end(cs@) == trimmed_end(cs@.take(end as int)),
        decreases end,
    {
        assert(cs@.take(end as int).drop_last() =~= cs@.take(end - 1));
        end = end - 1;
    }
    assert(cs@.take(end as int) =~= cs@.subrange(0, end as int));
    s.substring_char(0, end)
}

/// `s` without the run of `c` it ends with.
pub fn trim_end_matches(s: &str, c: char) -> (r: &str)
    ensures
        r@ == without_trailing(s@, c),
{
    let cs = chars_of(s);
    let mut end: usize = cs.len();
    assert(cs@.take(end as int) =~= cs@);
    while end > 0 && cs[end - 1] == c
        invariant
            end <= cs@.len(),
            without_trailing(cs@, c) == without_trailing(cs@.take(end as int), c),
        decreases end,
    {
        assert(cs@.take(end as int).drop_last() =~= cs@.take(end - 1));
        end = end - 1;
    }
    assert(cs@.take(end as int) =~= cs@.subrange(0, end as int));
    s.substring_char(0, end)
}

/// Whether `s` starts with `prefix`.
pub fn starts_with(s: &str, prefix: &str) -> (r: bool)
    ensures
        r == prefix@.is_prefix_of(s@),
{
    let cs = chars_of(s);
    let ps = chars_of(prefix);
    if ps.len() > cs.len() {
        return false;
    }
    let mut i: usize = 0;
    while i < ps.len()
        invariant
            i <= ps@.len() <= cs@.len(),
            cs@ == s@,
            ps@ == prefix@,
            forall|k: int| 0 <= k < i ==> cs@[k] == ps@[k],
        decreases ps@.len() - i,
    {
        if cs[i] != ps[i] {
            assert(ps@[i as int] != cs@.subrange(0, ps@.len() as int)[i as int]);
            return false;
        }
        i = i + 1;
    }
    assert(ps@ =~= cs@.subrange(0, ps@.len() as int));
    true
}

/// What follows `prefix` in `s`, where `s` starts with it.
pub fn strip_prefix<'a>(s: &'a str, prefix: &str) -> (r: Option<&'a str>)
    ensures
        match r {
            Some(rest) => prefix@.is_prefix_of(s@) && rest@ == s@.skip(prefix@.len() as int),
            None => !prefix@.is_prefix_of(s@),
        },
{
    if starts_with(s, prefix) {
        let from = prefix.unicode_len();
        let to = s.unicode_len();
        assert(s@.subrange(from as int, to as int) =~= s@.skip(from as int));
        Some(s.substring_char(from, to))
    } else {
        None
    }
}

/// Whether `c` occurs in `s`.
pub fn contains_char(s: &str, c: char) -> (r: bool)
    ensures
        r == s@.contains(c),
{
    let cs = chars_of(s);
    let mut i: usize = 0;
    while i < cs.len()
        invariant
            i <= cs@.len(),
            cs@ == s@,
            forall|k: int| 0 <= k < i ==> cs@[k] != c,
        decreases cs@.len() - i,
    {
        if cs[i] == c {
            return true;
        }
        i = i + 1;
    }
    false
}

/// The parts, one after the other, with `sep` between neighbours.
pub fn join(parts: &Vec<String>, sep: &str) -> (r: String)
    ensures
        r@ == joined(texts(parts@), sep@),
{
    let mut r = String::new();
    let mut i: usize = 0;
    assert(r@ =~= joined(texts(parts@).take(0), sep@));
    while i < parts.len()
        invariant
            i <= parts@.len(),
            r@ == joined(texts(parts@).take(i as int), sep@),
        decreases parts@.len() - i,
    {
        let ghost all = texts(parts@);
        proof {
            assert(all.take(i + 1).drop_last() =~= all.take(i as int));
            assert(all.take(i + 1).last() == parts@[i as int]@);
        }
        if i > 0 {
            r.append(sep);
        } else {
            assert(r@ =~= seq![]);
        }
        r.append(parts[i].as_str());
        assert(r@ =~= joined(all.take(i + 1), sep@));
        i = i + 1;
    }
    assert(texts(parts@).take(i as int) =~= texts(parts@));
    r
}

fn digit_text(d: u128) -> (r: &'static str)
    requires
        d < 10,
    ensures
        r@ == seq![digit(d as nat)],
{
    proof {
        reveal_strlit("0");
        reveal_strlit("1");
        reveal_strlit("2");
        reveal_strlit("3");
        reveal_strlit("4");
        reveal_strlit("5");
        reveal_strlit("6");
        reveal_strlit("7");
        reveal_strlit("8");
        reveal_strlit("9");
    }
    let r = if d == 0 {
        "0"
    } else if d == 1 {
        "1"
    } else if d == 2 {
        "2"
    } else if d == 3 {
        "3"
    } else if d == 4 {
        "4"
    } else if d == 5 {
        "5"
    } else if d == 6 {
        "6"
    } else if d == 7 {
        "7"
    } else if d == 8 {
        "8"
    } else {
        "9"
    };
    assert(r@ =~= seq![digit(d as nat)]);
    r
}

/// `n` in decimal.
pub fn decimal(n: u128) -> (r: String)
    ensures
        r@ == decimal_text(n as nat),
    decreases n,
{
    if n < 10 {
        digit_text(n).to_owned()
    } else {
        let mut r = decimal(n / 10);
        r.append(digit_text(n % 10));
        assert(r@ =~= decimal_text(n as nat / 10).push(digit(n as nat % 10)));
        r
    }
}

/// Reading a decimal text back gives the number it was written from, so two numbers never share
/// one.
pub proof fn lemma_decimal_reads_back(n: nat)
    ensures
        digits_value(decimal_text(n)) == n,
    decreases n,
{
    if n < 10 {
        assert(decimal_text(n).drop_last() =~= seq![]);
        assert(digits_value(seq![]) == 0);
    } else {
        lemma_decimal_reads_back(n / 10);
        let rest = decimal_text(n / 10);
        assert(rest.push(digit(n % 10)).drop_last() =~= rest);
    }
}

proof fn lemma_decimal_is_digits(n: nat)
    ensures
        decimal_text(n).len() > 0,
        forall|k: int| 0 <= k < decimal_text(n).len() ==> is_digit(#[trigger] decimal_text(n)[k]),
    decreases n,
{
    if n >= 10 {
        lemma_decimal_is_digits(n / 10);
    }
}

/// A number that was written out is read as the same number, wherever it fits.
pub proof fn law_numbers_survive_their_text(n: nat, max: nat)
    ensures
        number_of(decimal_text(n), max) == if n <= max {
            Ok::<nat, NumberIssue>(n)
        } else {
            Err::<nat, NumberIssue>(NumberIssue::TooLarge)
        },
{
    let s = decimal_text(n);
    lemma_decimal_reads_back(n);
    lemma_decimal_is_digits(n);
    assert(is_digit(s[0]));
    lemma_leading_digits(s, s.len() as int);
    assert(s.take(s.len() as int) =~= s);
    assert(leading_digits(s) =~= s);
}

proof fn lemma_leading_digits(s: Seq<char>, i: int)
    requires
        0 <= i <= s.len(),
        forall|k: int| 0 <= k < i ==> is_digit(s[k]),
    ensures
        leading_digits(s) == s.take(i) + leading_digits(s.skip(i)),
    decreases i,
{
    if i == 0 {
        assert(s.skip(0) =~= s);
        assert(leading_digits(s) =~= s.take(0) + leading_digits(s.skip(0)));
    } else {
        lemma_leading_digits(s.drop_first(), i - 1);
        assert(s.drop_first().skip(i - 1) =~= s.skip(i));
        assert(leading_digits(s) =~= s.take(i) + leading_digits(s.skip(i)));
    }
}

proof fn lemma_digits_value_grows(s: Seq<char>, t: Seq<char>)
    requires
        forall|k: int| 0 <= k < t.len() ==> is_digit(t[k]),
    ensures
        digits_value(s) <= digits_value(s + t),
    decreases t.len(),
{
    if t.len() == 0 {
        assert(s + t =~= s);
    } else {
        lemma_digits_value_grows(s, t.drop_last());
        assert((s + t).drop_last() =~= s + t.drop_last());
        assert((s + t).last() == t.last());
        assert(is_digit(t[t.len() - 1]));
    }
}

proof fn lemma_leading_digits_are_digits(s: Seq<char>)
    ensures
        leading_digits(s).len() <= s.len(),
        forall|k: int| 0 <= k < leading_digits(s).len() ==> is_digit(#[trigger] leading_digits(s)[k]),
    decreases s.len(),
{
    if s.len() > 0 && is_digit(s[0]) {
        lemma_leading_digits_are_digits(s.drop_first());
        let rest = leading_digits(s.drop_first());
        assert forall|k: int| 0 <= k < leading_digits(s).len() implies is_digit(
            #[trigger] leading_digits(s)[k],
        ) by {
            if k > 0 {
                assert(leading_digits(s)[k] == rest[k - 1]);
            }
        }
    }
}

/// Nothing is solid in an empty text.
pub proof fn lemma_nothing_is_solid()
    ensures
        solid(seq![]) == Seq::<char>::empty(),
        solid(seq![]) + solid(seq![]) == solid(seq![]),
{
    reveal(Seq::filter);
    assert(solid(seq![]) =~= seq![]);
    assert(solid(seq![]) + solid(seq![]) =~= solid(seq![]));
}

/// Trimming takes nothing but white space.
pub proof fn lemma_trimming_keeps_what_is_solid(s: Seq<char>)
    ensures
        solid(trimmed_start(s)) == solid(s),
        solid(trimmed_end(s)) == solid(s),
        solid(trimmed(s)) == solid(s),
{
    lemma_trimmed_start_solid(s);
    lemma_trimmed_end_solid(s);
    lemma_trimmed_end_solid(trimmed_start(s));
}

proof fn lemma_trimmed_start_solid(s: Seq<char>)
    ensures
        solid(trimmed_start(s)) == solid(s),
    decreases s.len(),
{
    if s.len() > 0 && is_white_space(s[0]) {
        lemma_trimmed_start_solid(s.drop_first());
        let p = |c: char| !is_white_space(c);
        let head = seq![s[0]];
        assert(s =~= head + s.drop_first());
        Seq::filter_distributes_over_add(head, s.drop_first(), p);
        assert(head.drop_last() =~= seq![]);
        reveal_with_fuel(Seq::filter, 2);
        assert(head.filter(p) =~= seq![]);
    }
}

proof fn lemma_trimmed_end_solid(s: Seq<char>)
    ensures
        solid(trimmed_end(s)) == solid(s),
    decreases s.len(),
{
    if s.len() > 0 && is_white_space(s.last()) {
        lemma_trimmed_end_solid(s.drop_last());
        reveal(Seq::filter);
    }
}

/// A trimmed text neither starts nor ends with white space.
pub proof fn lemma_trimmed_has_solid_ends(s: Seq<char>)
    ensures
        trimmed(s).len() > 0 ==> !is_white_space(trimmed(s)[0]) && !is_white_space(
            trimmed(s).last(),
        ),
        trimmed(trimmed(s)) == trimmed(s),
{
    lemma_trimmed_start_head(s);
    lemma_trimmed_end_tail(trimmed_start(s));
}

/// Trimming leaves nothing of a text exactly where trimming its end does.
pub proof fn lemma_trimmed_to_nothing(s: Seq<char>)
    ensures
        trimmed(s).len() == 0 <==> trimmed_end(s).len() == 0,
{
    lemma_trimming_keeps_what_is_solid(s);
    lemma_trimmed_end_tail(s);
    lemma_trimmed_has_solid_ends(s);
    reveal(Seq::filter);
    if trimmed(s).len() == 0 {
        assert(solid(trimmed(s)) =~= seq![]);
    } else if trimmed_end(s).len() == 0 {
        assert(solid(trimmed_end(s)) =~= seq![]);
    }
}

proof fn lemma_trimmed_start_head(s: Seq<char>)
    ensures
        trimmed_start(s).len() > 0 ==> !is_white_space(trimmed_start(s)[0]),
    decreases s.len(),
{
    if s.len() > 0 && is_white_space(s[0]) {
        lemma_trimmed_start_head(s.drop_first());
    }
}

proof fn lemma_trimmed_end_tail(s: Seq<char>)
    ensures
        trimmed_end(s).len() <= s.len(),
        trimmed_end(s) == s.take(trimmed_end(s).len() as int),
        trimmed_end(s).len() > 0 ==> !is_white_space(trimmed_end(s).last()),
    decreases s.len(),
{
    if s.len() > 0 && is_white_space(s.last()) {
        lemma_trimmed_end_tail(s.drop_last());
        assert(trimmed_end(s) =~= s.take(trimmed_end(s).len() as int));
    } else {
        assert(s =~= s.take(s.len() as int));
    }
}

/// Where what is left of the end of a text stops.
pub proof fn lemma_trimmed_end_bound(s: Seq<char>) -> (b: int)
    ensures
        0 <= b <= s.len(),
        trimmed_end(s) == s.take(b),
        all_white(s.skip(b)),
        b > 0 ==> !is_white_space(s[b - 1]),
    decreases s.len(),
{
    if s.len() > 0 && is_white_space(s.last()) {
        let b = lemma_trimmed_end_bound(s.drop_last());
        assert(s.drop_last().take(b) =~= s.take(b));
        assert forall|i: int| 0 <= i < s.skip(b).len() implies is_white_space(
            #[trigger] s.skip(b)[i],
        ) by {
            if b + i < s.len() - 1 {
                assert(s.drop_last().skip(b)[i] == s[b + i]);
            }
        }
        b
    } else {
        assert(s.take(s.len() as int) =~= s);
        s.len() as int
    }
}

/// Where what is left of the start of a text begins.
proof fn lemma_trimmed_start_bound(s: Seq<char>) -> (a: int)
    ensures
        0 <= a <= s.len(),
        trimmed_start(s) == s.skip(a),
        all_white(s.take(a)),
        a < s.len() ==> !is_white_space(s[a]),
    decreases s.len(),
{
    if s.len() > 0 && is_white_space(s[0]) {
        let a = lemma_trimmed_start_bound(s.drop_first()) + 1;
        assert(s.drop_first().skip(a - 1) =~= s.skip(a));
        assert forall|i: int| 0 <= i < s.take(a).len() implies is_white_space(
            #[trigger] s.take(a)[i],
        ) by {
            if i > 0 {
                assert(s.drop_first().take(a - 1)[i - 1] == s[i]);
            }
        }
        a
    } else {
        assert(s.skip(0) =~= s);
        0
    }
}

/// Where what is left of a text begins and stops.
pub proof fn lemma_trimmed_bounds(s: Seq<char>) -> (r: (int, int))
    ensures
        0 <= r.0 <= r.1 <= s.len(),
        trimmed(s) == s.subrange(r.0, r.1),
        all_white(s.take(r.0)),
        all_white(s.skip(r.1)),
        r.0 < r.1 ==> !is_white_space(s[r.0]) && !is_white_space(s[r.1 - 1]),
        r.0 == r.1 <==> all_white(s),
{
    let a = lemma_trimmed_start_bound(s);
    let rest = s.skip(a);
    let b = a + lemma_trimmed_end_bound(rest);
    assert(rest.take(b - a) =~= s.subrange(a, b));
    assert(rest.skip(b - a) =~= s.skip(b));
    if b > a {
        assert(rest[b - a - 1] == s[b - 1]);
    }
    if a == b {
        assert forall|i: int| 0 <= i < s.len() implies is_white_space(#[trigger] s[i]) by {
            if i < a {
                assert(s.take(a)[i] == s[i]);
            } else {
                assert(s.skip(b)[i - b] == s[i]);
            }
        }
    }
    (a, b)
}

/// Trimming a text takes the white space around it and nothing else: what is left stands in the
/// text, has nothing but white space before and after it, and starts and ends with something
/// solid. Trimming the end alone does that at the end.
pub proof fn law_trimming_takes_only_the_white_space_around(s: Seq<char>)
    ensures
        exists|a: int, b: int|
            0 <= a <= b <= s.len() && trimmed(s) == #[trigger] s.subrange(a, b) && all_white(
                s.take(a),
            ) && all_white(s.skip(b)) && (a < b ==> !is_white_space(s[a]) && !is_white_space(
                s[b - 1],
            )),
        exists|b: int|
            0 <= b <= s.len() && trimmed_end(s) == #[trigger] s.take(b) && all_white(s.skip(b)) && (b
                > 0 ==> !is_white_space(s[b - 1])),
        trimmed(s).len() == 0 <==> all_white(s),
{
    let (a, b) = lemma_trimmed_bounds(s);
    assert(trimmed(s) == s.subrange(a, b));
    let e = lemma_trimmed_end_bound(s);
    assert(trimmed_end(s) == s.take(e));
}

/// Taking a character off the end takes the whole run of it, and nothing else.
pub proof fn law_a_trailing_run_is_taken_whole(s: Seq<char>, c: char)
    ensures
        without_trailing(s, c).is_prefix_of(s),
        without_trailing(s, c).len() > 0 ==> without_trailing(s, c).last() != c,
        forall|i: int| without_trailing(s, c).len() <= i < s.len() ==> #[trigger] s[i] == c,
    decreases s.len(),
{
    if s.len() > 0 && s.last() == c {
        law_a_trailing_run_is_taken_whole(s.drop_last(), c);
        let r = without_trailing(s, c);
        assert(s.take(r.len() as int) =~= s.drop_last().take(r.len() as int));
        assert forall|i: int| r.len() <= i < s.len() implies #[trigger] s[i] == c by {
            if i < s.len() - 1 {
                assert(s.drop_last()[i] == s[i]);
            }
        }
    } else {
        assert(s.take(s.len() as int) =~= s);
    }
}

/// Joining two lists is joining each and putting the separator between them; one part alone is
/// joined to itself, and no parts to nothing.
pub proof fn law_joining_joins_up(a: Seq<Seq<char>>, b: Seq<Seq<char>>, part: Seq<char>, sep: Seq<
    char,
>)
    ensures
        joined(Seq::<Seq<char>>::empty(), sep) == Seq::<char>::empty(),
        joined(seq![part], sep) == part,
        a.len() > 0 && b.len() > 0 ==> joined(a + b, sep) == joined(a, sep) + sep + joined(b, sep),
    decreases b.len(),
{
    if a.len() > 0 && b.len() > 0 {
        assert((a + b).drop_last() =~= a + b.drop_last());
        if b.len() == 1 {
            assert(a + b.drop_last() =~= a);
            assert(joined(b, sep) == b[0]);
        } else {
            law_joining_joins_up(a, b.drop_last(), part, sep);
        }
        assert(joined(a + b, sep) =~= joined(a, sep) + sep + joined(b, sep));
    }
}

/// A number is written in decimal: one digit for each, the most significant first, and no zero in
/// front.
pub proof fn law_numbers_are_written_in_decimal(n: nat, d: nat)
    requires
        d < 10,
    ensures
        n > 0 ==> decimal_text(n * 10 + d) == decimal_text(n).push((48 + d) as char),
        decimal_text(d) == seq![(48 + d) as char],
        decimal_text(n).len() > 1 ==> decimal_text(n)[0] != '0',
    decreases n,
{
    assert((n * 10 + d) / 10 == n && (n * 10 + d) % 10 == d);
    if n >= 10 {
        law_numbers_are_written_in_decimal(n / 10, n % 10);
        let head = decimal_text(n / 10);
        lemma_decimal_is_digits(n / 10);
        assert(decimal_text(n)[0] == head[0]);
        if n / 10 < 10 {
            let d: nat = n / 10;
            assert(head[0] == digit(d));
            assert(1 <= d < 10);
            assert(digit(d) as u32 == 48 + d);
        } else {
            lemma_decimal_is_digits(n / 10 / 10);
        }
    }
}

/// Whether `s` is digits all through.
pub open spec fn all_digits(s: Seq<char>) -> bool {
    forall|i: int| 0 <= i < s.len() ==> 48 <= (#[trigger] s[i]) as u32 <= 57
}

/// A text is a number exactly where it has something in it, is digits all through and writes no
/// more than the limit. One that writes more is too large, and one that is not digits all through
/// is no number.
pub proof fn law_what_is_a_number(s: Seq<char>, max: nat)
    requires
        s.len() > 1 ==> s[0] != '+',
    ensures
        number_of(s, max) is Ok <==> s.len() > 0 && all_digits(s) && digits_value(s) <= max,
        number_of(s, max) matches Ok(n) ==> n == digits_value(s),
        number_of(s, max) == Err::<nat, NumberIssue>(NumberIssue::Empty) <==> s.len() == 0,
        s.len() > 0 && all_digits(s) && digits_value(s) > max ==> number_of(s, max) == Err::<
            nat,
            NumberIssue,
        >(NumberIssue::TooLarge),
        number_of(s, max) == Err::<nat, NumberIssue>(NumberIssue::InvalidDigit) ==> !all_digits(s),
{
    lemma_leading_digits_are_digits(s);
    lemma_leading_digits_are_a_prefix(s);
    let digits = leading_digits(s);
    if digits.len() == s.len() {
        assert(s.take(s.len() as int) =~= s);
        assert forall|i: int| 0 <= i < s.len() implies 48 <= (#[trigger] s[i]) as u32 <= 57 by {
            assert(is_digit(digits[i]));
        }
    } else {
        assert(!is_digit(s[digits.len() as int]));
    }
}

/// One `+` in front of a number makes no difference, and two make it none.
pub proof fn law_a_plus_makes_no_difference(s: Seq<char>, max: nat)
    requires
        s.len() > 0,
    ensures
        s[0] != '+' ==> number_of(seq!['+'] + s, max) == number_of(s, max),
        s[0] == '+' ==> number_of(seq!['+'] + s, max) == Err::<nat, NumberIssue>(
            NumberIssue::InvalidDigit,
        ),
{
    let t = seq!['+'] + s;
    assert(t.drop_first() =~= s);
    if s[0] == '+' {
        assert(leading_digits(s) =~= seq![]);
        assert(digits_value(seq![]) == 0);
    }
}

proof fn lemma_leading_digits_are_a_prefix(s: Seq<char>)
    ensures
        leading_digits(s).len() <= s.len(),
        leading_digits(s) == s.take(leading_digits(s).len() as int),
        leading_digits(s).len() < s.len() ==> !is_digit(s[leading_digits(s).len() as int]),
    decreases s.len(),
{
    if s.len() > 0 && is_digit(s[0]) {
        lemma_leading_digits_are_a_prefix(s.drop_first());
        let rest = leading_digits(s.drop_first());
        assert(leading_digits(s) =~= s.take((rest.len() + 1) as int));
    } else {
        assert(s.take(0) =~= seq![]);
    }
}

/// A run of digits is read as a decimal number: each further digit counts one, and what came
/// before it ten times as much.
pub proof fn law_digits_are_read_in_decimal(s: Seq<char>, d: nat)
    requires
        d < 10,
    ensures
        digits_value(s.push((48 + d) as char)) == digits_value(s) * 10 + d,
        digits_value(Seq::<char>::empty()) == 0,
{
    assert(s.push((48 + d) as char).drop_last() =~= s);
}

/// The number up to `max` that `s` writes in decimal, with an optional `+` in front.
pub fn parse_number(s: &str, max: u64) -> (r: Result<u64, NumberIssue>)
    ensures
        match r {
            Ok(n) => number_of(s@, max as nat) == Ok::<nat, NumberIssue>(n as nat),
            Err(e) => number_of(s@, max as nat) == Err::<nat, NumberIssue>(e),
        },
{
    let cs = chars_of(s);
    let len = cs.len();
    if len == 0 {
        return Err(NumberIssue::Empty);
    }
    let first: usize = if len > 1 && cs[0] == '+' {
        1
    } else {
        0
    };
    let ghost body = unsigned_part(cs@);
    assert(body =~= cs@.skip(first as int));
    let mut value: u64 = 0;
    let mut i: usize = first;
    assert(body.take(0) =~= seq![]);
    while i < len
        invariant
            first <= i <= len == cs@.len(),
            cs@ == s@,
            cs@.len() > 0,
            body == unsigned_part(cs@),
            body == cs@.skip(first as int),
            forall|k: int| 0 <= k < i - first ==> is_digit(body[k]),
            value == digits_value(body.take(i - first)),
            value <= max,
        decreases len - i,
    {
        let n: u32 = cs[i] as u32;
        let ghost at = i - first;
        if n < 0x30 || n > 0x39 {
            proof {
                lemma_leading_digits(body, at);
                assert(body.skip(at)[0] == cs@[i as int]);
                assert(leading_digits(body) =~= body.take(at));
            }
            return Err(NumberIssue::InvalidDigit);
        }
        let wide: u128 = (value as u128) * 10 + ((n - 0x30) as u128);
        proof {
            assert(body.take(at + 1).drop_last() =~= body.take(at));
            assert(body.take(at + 1).last() == cs@[i as int]);
        }
        if wide > max as u128 {
            proof {
                lemma_leading_digits(body, at + 1);
                lemma_leading_digits_are_digits(body.skip(at + 1));
                lemma_digits_value_grows(body.take(at + 1), leading_digits(body.skip(at + 1)));
            }
            return Err(NumberIssue::TooLarge);
        }
        value = wide as u64;
        i = i + 1;
    }
    proof {
        lemma_leading_digits(body, body.len() as int);
        assert(body.take(body.len() as int) =~= body);
        assert(leading_digits(body) =~= body);
    }
    Ok(value)
}

// ---- what holds of every call

/// What trimming gives stands in the text, with nothing but white space around it.
pub proof fn law_what_trimming_gives(s: &str, both: &str, end: &str)
    requires
        call_ensures(trim, (s,), both),
        call_ensures(trim_end, (s,), end),
    ensures
        exists|a: int, b: int|
            0 <= a <= b <= s@.len() && both@ == #[trigger] s@.subrange(a, b) && all_white(
                s@.take(a),
            ) && all_white(s@.skip(b)) && (a < b ==> !is_white_space(s@[a]) && !is_white_space(
                s@[b - 1],
            )),
        exists|b: int|
            0 <= b <= s@.len() && end@ == #[trigger] s@.take(b) && all_white(s@.skip(b)) && (b > 0
                ==> !is_white_space(s@[b - 1])),
{
    law_trimming_takes_only_the_white_space_around(s@);
}

/// A text starts with another exactly where it is that one and something after it, and what is
/// left without it is that something.
pub proof fn law_a_prefix_is_what_a_text_starts_with(
    s: &str,
    prefix: &str,
    starts: bool,
    rest: Option<&str>,
)
    requires
        call_ensures(starts_with, (s, prefix), starts),
        call_ensures(strip_prefix, (s, prefix), rest),
    ensures
        starts <==> rest is Some,
        rest matches Some(r) ==> s@ == prefix@ + r@,
        (exists|r: Seq<char>| s@ == #[trigger] (prefix@ + r)) ==> starts,
{
    if starts {
        assert(s@ =~= s@.take(prefix@.len() as int) + s@.skip(prefix@.len() as int));
    }
    if exists|r: Seq<char>| s@ == #[trigger] (prefix@ + r) {
        let r = choose|r: Seq<char>| s@ == #[trigger] (prefix@ + r);
        assert((prefix@ + r).take(prefix@.len() as int) =~= prefix@);
    }
}

/// Two texts are the same where all their characters are, and one holds a character where one of
/// its own is that.
pub proof fn law_texts_are_their_characters(a: &str, b: &str, c: char, equal: bool, holds: bool)
    requires
        call_ensures(same, (a, b), equal),
        call_ensures(contains_char, (a, c), holds),
    ensures
        equal <==> a@.len() == b@.len() && (forall|i: int|
            0 <= i < a@.len() ==> #[trigger] a@[i] == b@[i]),
        holds <==> exists|i: int| 0 <= i < a@.len() && #[trigger] a@[i] == c,
{
    if a@.len() == b@.len() && (forall|i: int| 0 <= i < a@.len() ==> #[trigger] a@[i] == b@[i]) {
        assert(a@ =~= b@);
    }
}

/// A number that is written out is read as the same number.
pub proof fn law_writing_and_reading_a_number(
    n: u128,
    written: String,
    text: &str,
    max: u64,
    r: Result<u64, NumberIssue>,
)
    requires
        call_ensures(decimal, (n,), written),
        text@ == written@,
        call_ensures(parse_number, (text, max), r),
    ensures
        all_digits(written@),
        r == if n <= max {
            Ok::<u64, NumberIssue>(n as u64)
        } else {
            Err::<u64, NumberIssue>(NumberIssue::TooLarge)
        },
{
    law_numbers_survive_their_text(n as nat, max as nat);
    lemma_decimal_is_digits(n as nat);
    assert forall|i: int| 0 <= i < written@.len() implies 48 <= (#[trigger] written@[i]) as u32
        <= 57 by {
        assert(is_digit(decimal_text(n as nat)[i]));
    }
}

} // verus!
