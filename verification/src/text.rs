//! Text helpers over the character view of strings.

use itertools::Itertools;
use vstd::prelude::*;
use vstd::string::*;

verus! {

/// The texts of a sequence of strings, in the same order.
pub open spec fn texts(strings: Seq<String>) -> Seq<Seq<char>> {
    strings.map_values(|s: String| s@)
}

/// The parts written one after the other with `sep` between each two neighbours.
pub open spec fn joined(parts: Seq<Seq<char>>, sep: Seq<char>) -> Seq<char>
    decreases parts.len(),
{
    if parts.len() == 0 {
        Seq::empty()
    } else if parts.len() == 1 {
        parts[0]
    } else {
        joined(parts.drop_last(), sep) + sep + parts.last()
    }
}

/// `itertools::Itertools::join` on the strings of `parts`: the first string, then for each
/// further string the separator and that string. No string gives the empty string.
#[verifier::external_body]
pub(crate) fn join(parts: &Vec<String>, sep: &str) -> (text: String)
    ensures
        text@ == joined(texts(parts@), sep@),
{
    parts.iter().join(sep)
}

/// The characters of `s`, in order.
pub fn chars_of(s: &str) -> (v: Vec<char>)
    ensures
        v@ == s@,
{
    let mut v: Vec<char> = Vec::new();
    for c in it: s.chars()
        invariant
            v@ == it.seq().take(it.index()),
            it.seq() == s@,
    {
        v.push(c);
    }
    v
}

/// Whether two strings hold the same characters.
pub fn same_text(a: &str, b: &str) -> (same: bool)
    ensures
        same == (a@ == b@),
{
    a.to_owned() == b.to_owned()
}

/// `a` followed by `b`.
pub fn followed_by(a: &str, b: &str) -> (joined: String)
    ensures
        joined@ == a@ + b@,
{
    let mut joined = a.to_owned();
    joined.append(b);
    joined
}

/// Whether `s` begins with `prefix`.
pub fn starts_with(s: &str, prefix: &str) -> (hit: bool)
    ensures
        hit == prefix@.is_prefix_of(s@),
{
    let text = chars_of(s);
    let head = chars_of(prefix);
    if head.len() > text.len() {
        return false;
    }
    let mut i: usize = 0;
    while i < head.len()
        invariant
            i <= head.len() <= text.len(),
            text@ == s@,
            head@ == prefix@,
            s@.subrange(0, i as int) == prefix@.subrange(0, i as int),
        decreases head.len() - i,
    {
        if text[i] != head[i] {
            assert(s@.subrange(0, prefix@.len() as int)[i as int] != prefix@[i as int]);
            return false;
        }
        assert(s@.subrange(0, i + 1) == s@.subrange(0, i as int).push(s@[i as int]));
        assert(prefix@.subrange(0, i + 1) == prefix@.subrange(0, i as int).push(prefix@[i as int]));
        i += 1;
    }
    assert(prefix@.subrange(0, i as int) == prefix@);
    true
}

/// Whether the last character of `s` is `c`.
pub fn ends_with_char(s: &str, c: char) -> (hit: bool)
    ensures
        hit == (s@.len() > 0 && s@.last() == c),
{
    let text = chars_of(s);
    text.len() > 0 && text[text.len() - 1] == c
}

/// The place of the first line feed of `s`, or the length of `s` where it holds none.
pub open spec fn line_end(s: Seq<char>) -> nat
    decreases s.len(),
{
    if s.len() == 0 || s[0] == '\n' {
        0
    } else {
        1 + line_end(s.skip(1))
    }
}

/// A line without the carriage return at its end, where it ends in one.
pub open spec fn without_cr(line: Seq<char>) -> Seq<char> {
    if line.len() > 0 && line.last() == '\r' {
        line.drop_last()
    } else {
        line
    }
}

/// The lines of a text. A line ends at a line feed, or at a carriage return followed by a
/// line feed; neither belongs to the line. What follows the last line feed is a line of its
/// own unless it is empty, and a carriage return at its end stays.
pub open spec fn lines_of(s: Seq<char>) -> Seq<Seq<char>>
    decreases s.len(),
{
    if s.len() == 0 {
        Seq::empty()
    } else if line_end(s) >= s.len() {
        seq![s]
    } else {
        seq![without_cr(s.take(line_end(s) as int))] + lines_of(s.skip(line_end(s) as int + 1))
    }
}

/// Where no line feed stands before the place `k`, and `k` holds one or is the end of `s`,
/// the first line of `s` ends at `k`.
proof fn lemma_line_end(s: Seq<char>, k: int)
    requires
        0 <= k <= s.len(),
        forall|j: int| 0 <= j < k ==> s[j] != '\n',
        k == s.len() || s[k] == '\n',
    ensures
        line_end(s) == k,
    decreases k,
{
    if k > 0 {
        lemma_line_end(s.skip(1), k - 1);
    }
}

/// The lines of `s`: see `lines_of`.
pub fn lines(s: &str) -> (out: Vec<String>)
    ensures
        texts(out@) == lines_of(s@),
{
    let text = chars_of(s);
    let n = text.len();
    let mut out: Vec<String> = Vec::new();
    let mut start: usize = 0;
    let mut i: usize = 0;
    assert(s@.skip(0) == s@);
    assert(texts(out@) + lines_of(s@) == lines_of(s@));
    while i < n
        invariant
            start <= i <= n,
            n == s@.len(),
            text@ == s@,
            forall|j: int| start <= j < i ==> s@[j] != '\n',
            lines_of(s@) == texts(out@) + lines_of(s@.skip(start as int)),
        decreases n - i,
    {
        if text[i] == '\n' {
            let mut end: usize = i;
            if end > start && text[end - 1] == '\r' {
                end = end - 1;
            }
            let line = s.substring_char(start, end).to_owned();
            proof {
                let rest = s@.skip(start as int);
                lemma_line_end(rest, i - start);
                assert(rest.take(i - start) == s@.subrange(start as int, i as int));
                assert(rest.skip(i - start + 1) == s@.skip(i + 1));
                assert(line@ == without_cr(rest.take(i - start)));
                assert(texts(out@.push(line)) == texts(out@).push(line@));
                assert(texts(out@).push(line@) + lines_of(s@.skip(i + 1)) == texts(out@) + (
                seq![line@] + lines_of(s@.skip(i + 1))));
            }
            out.push(line);
            start = i + 1;
        }
        i += 1;
    }
    if start < n {
        let line = s.substring_char(start, n).to_owned();
        proof {
            let rest = s@.skip(start as int);
            lemma_line_end(rest, n - start);
            assert(line@ == rest);
            assert(texts(out@.push(line)) == texts(out@).push(line@));
            assert(texts(out@).push(line@) == texts(out@) + seq![line@]);
        }
        out.push(line);
    } else {
        assert(texts(out@) + Seq::<Seq<char>>::empty() == texts(out@));
    }
    out
}

/// Whether a character is white space as Unicode's property `White_Space` defines it.
pub open spec fn is_whitespace(c: char) -> bool {
    let n = c as u32;
    ||| 0x09 <= n <= 0x0D
    ||| n == 0x20
    ||| n == 0x85
    ||| n == 0xA0
    ||| n == 0x1680
    ||| 0x2000 <= n <= 0x200A
    ||| n == 0x2028
    ||| n == 0x2029
    ||| n == 0x202F
    ||| n == 0x205F
    ||| n == 0x3000
}

/// The predicate `is_whitespace`.
pub open spec fn whitespace() -> spec_fn(char) -> bool {
    |c: char| is_whitespace(c)
}

/// The predicate of being the character NUL.
pub open spec fn nul() -> spec_fn(char) -> bool {
    |c: char| c == '\0'
}

/// `s` without the characters at its end that `drop` accepts.
pub open spec fn trimmed_end(s: Seq<char>, drop: spec_fn(char) -> bool) -> Seq<char>
    decreases s.len(),
{
    if s.len() > 0 && drop(s.last()) {
        trimmed_end(s.drop_last(), drop)
    } else {
        s
    }
}

/// `s` without the characters at its start that `drop` accepts.
pub open spec fn trimmed_start(s: Seq<char>, drop: spec_fn(char) -> bool) -> Seq<char>
    decreases s.len(),
{
    if s.len() > 0 && drop(s[0]) {
        trimmed_start(s.skip(1), drop)
    } else {
        s
    }
}

/// `s` without the white space at its start and at its end.
pub open spec fn trimmed(s: Seq<char>) -> Seq<char> {
    trimmed_start(trimmed_end(s, whitespace()), whitespace())
}

/// Where `drop` accepts each character from the place `end` on and not the one before it,
/// trimming the end leaves what stands before `end`.
proof fn lemma_trimmed_end(s: Seq<char>, drop: spec_fn(char) -> bool, end: int)
    requires
        0 <= end <= s.len(),
        forall|j: int| end <= j < s.len() ==> drop(s[j]),
        end == 0 || !drop(s[end - 1]),
    ensures
        trimmed_end(s, drop) == s.take(end),
    decreases s.len() - end,
{
    if end < s.len() {
        lemma_trimmed_end(s.drop_last(), drop, end);
        assert(s.drop_last().take(end) == s.take(end));
    } else {
        assert(s.take(end) == s);
    }
}

/// Where `drop` accepts each character before the place `start` and not the one at it,
/// trimming the start leaves what stands from `start` on.
proof fn lemma_trimmed_start(s: Seq<char>, drop: spec_fn(char) -> bool, start: int)
    requires
        0 <= start <= s.len(),
        forall|j: int| 0 <= j < start ==> drop(s[j]),
        start == s.len() || !drop(s[start]),
    ensures
        trimmed_start(s, drop) == s.skip(start),
    decreases start,
{
    if start > 0 {
        lemma_trimmed_start(s.skip(1), drop, start - 1);
        assert(s.skip(1).skip(start - 1) == s.skip(start));
    } else {
        assert(s.skip(0) == s);
    }
}

/// Whether `c` is white space.
pub fn is_white_space(c: char) -> (white: bool)
    ensures
        white == is_whitespace(c),
{
    let n: u32 = c as u32;
    (0x09 <= n && n <= 0x0D) || n == 0x20 || n == 0x85 || n == 0xA0 || n == 0x1680 || (0x2000
        <= n && n <= 0x200A) || n == 0x2028 || n == 0x2029 || n == 0x202F || n == 0x205F || n
        == 0x3000
}

/// `s` without the NUL characters at its end, then without the white space around it.
pub fn trim_reply(s: &str) -> (reply: String)
    ensures
        reply@ == trimmed(trimmed_end(s@, nul())),
{
    let text = chars_of(s);
    let mut end: usize = text.len();
    while end > 0 && text[end - 1] == '\0'
        invariant
            end <= text.len(),
            text@ == s@,
            forall|j: int| end <= j < text.len() ==> nul()(s@[j]),
        decreases end,
    {
        end = end - 1;
    }
    proof {
        lemma_trimmed_end(s@, nul(), end as int);
    }
    let ghost cut = s@.take(end as int);
    let ghost nuls: usize = end;
    while end > 0 && is_white_space(text[end - 1])
        invariant
            end <= nuls <= text.len(),
            text@ == s@,
            cut == s@.take(nuls as int),
            forall|j: int| end <= j < nuls ==> whitespace()(cut[j]),
        decreases end,
    {
        end = end - 1;
    }
    proof {
        lemma_trimmed_end(cut, whitespace(), end as int);
        assert(cut.take(end as int) == s@.take(end as int));
    }
    let ghost kept = s@.take(end as int);
    let mut start: usize = 0;
    while start < end && is_white_space(text[start])
        invariant
            start <= end <= text.len(),
            text@ == s@,
            kept == s@.take(end as int),
            forall|j: int| 0 <= j < start ==> whitespace()(kept[j]),
        decreases end - start,
    {
        start = start + 1;
    }
    proof {
        lemma_trimmed_start(kept, whitespace(), start as int);
        assert(kept.skip(start as int) == s@.subrange(start as int, end as int));
    }
    s.substring_char(start, end).to_owned()
}

/// `count` spaces.
pub open spec fn spaces(count: nat) -> Seq<char> {
    Seq::new(count, |i: int| ' ')
}

/// `s` with spaces before it, as many as it takes to make it `width` characters long; `s`
/// itself where it is that long or longer.
pub open spec fn padded(s: Seq<char>, width: nat) -> Seq<char> {
    if s.len() < width {
        spaces((width - s.len()) as nat) + s
    } else {
        s
    }
}

/// `s` padded with spaces on the left to `width` characters: see `padded`.
pub fn pad(s: &str, width: usize) -> (out: String)
    ensures
        out@ == padded(s@, width as nat),
{
    let len = s.unicode_len();
    let mut out = String::new();
    let mut i: usize = len;
    proof {
        reveal_strlit(" ");
    }
    assert(out@ == spaces(0));
    while i < width
        invariant
            len <= i,
            len < width ==> i <= width,
            len >= width ==> i == len,
            len == s@.len(),
            out@ == spaces((i - len) as nat),
            " "@ == seq![' '],
        decreases width - i,
    {
        out.append(" ");
        i = i + 1;
        assert(out@ == spaces((i - len) as nat));
    }
    out.append(s);
    assert(spaces(0) + s@ == s@);
    out
}

/// Whether `a` stands before `b` or equals it in the order of strings: at the first place
/// where they differ the character of `a` has the smaller code point, or `a` ends there.
pub open spec fn text_le(a: Seq<char>, b: Seq<char>) -> bool
    decreases a.len(),
{
    if a.len() == 0 {
        true
    } else if b.len() == 0 {
        false
    } else if a[0] == b[0] {
        text_le(a.skip(1), b.skip(1))
    } else {
        (a[0] as u32) < (b[0] as u32)
    }
}

/// Every text stands before itself or equals it.
pub proof fn lemma_text_le_reflexive(a: Seq<char>)
    ensures
        text_le(a, a),
    decreases a.len(),
{
    if a.len() > 0 {
        lemma_text_le_reflexive(a.skip(1));
    }
}

/// Two texts of which each stands before the other or equals it are equal.
pub proof fn lemma_text_le_antisymmetric(a: Seq<char>, b: Seq<char>)
    requires
        text_le(a, b),
        text_le(b, a),
    ensures
        a == b,
    decreases a.len(),
{
    if a.len() == 0 || b.len() == 0 {
        assert(a =~= b);
    } else {
        lemma_text_le_antisymmetric(a.skip(1), b.skip(1));
        assert(a =~= seq![a[0]] + a.skip(1));
        assert(b =~= seq![b[0]] + b.skip(1));
    }
}

/// Whether `part` stands somewhere in `s`.
pub open spec fn contains_text(s: Seq<char>, part: Seq<char>) -> bool {
    exists|i: int| 0 <= i <= s.len() - part.len() && #[trigger] s.subrange(i, i + part.len()) == part
}

/// Whether `part` stands in `s` from the place `at` on.
fn stands_at(s: &Vec<char>, part: &Vec<char>, at: usize) -> (hit: bool)
    requires
        at + part@.len() <= s@.len(),
    ensures
        hit == (s@.subrange(at as int, at + part@.len()) == part@),
{
    let mut k: usize = 0;
    while k < part.len()
        invariant
            k <= part.len(),
            at + part.len() <= s.len(),
            forall|j: int| 0 <= j < k ==> s@[at + j] == part@[j],
        decreases part.len() - k,
    {
        if s[at + k] != part[k] {
            assert(s@.subrange(at as int, at + part@.len())[k as int] != part@[k as int]);
            return false;
        }
        k += 1;
    }
    assert(s@.subrange(at as int, at + part@.len()) =~= part@);
    true
}

/// Whether `part` stands somewhere in `s`.
pub fn contains(s: &str, part: &str) -> (hit: bool)
    ensures
        hit == contains_text(s@, part@),
{
    let text = chars_of(s);
    let wanted = chars_of(part);
    if wanted.len() > text.len() {
        return false;
    }
    let last: usize = text.len() - wanted.len();
    let mut i: usize = 0;
    while i < last
        invariant
            i <= last,
            last == text@.len() - wanted@.len(),
            text@ == s@,
            wanted@ == part@,
            forall|j: int| 0 <= j < i ==> #[trigger] s@.subrange(j, j + part@.len()) != part@,
        decreases last - i,
    {
        if stands_at(&text, &wanted, i) {
            return true;
        }
        i += 1;
    }
    stands_at(&text, &wanted, last)
}

/// The decimal digit for a number below ten.
pub open spec fn digit(d: nat) -> char {
    if d == 0 {
        '0'
    } else if d == 1 {
        '1'
    } else if d == 2 {
        '2'
    } else if d == 3 {
        '3'
    } else if d == 4 {
        '4'
    } else if d == 5 {
        '5'
    } else if d == 6 {
        '6'
    } else if d == 7 {
        '7'
    } else if d == 8 {
        '8'
    } else {
        '9'
    }
}

/// A number written in decimal digits, without leading zeros.
pub open spec fn decimal(n: nat) -> Seq<char>
    decreases n,
{
    if n < 10 {
        seq![digit(n)]
    } else {
        decimal(n / 10).push(digit(n % 10))
    }
}

/// The digit for `d` as a string.
fn digit_of(d: u128) -> (text: &'static str)
    requires
        d < 10,
    ensures
        text@ == seq![digit(d as nat)],
{
    proof {
        reveal_strlit("0");
        reveal_strlit("1");
        reveal_strlit("2");
        reveal_strlit("3");
        reveal_strlit("4");
        reveal_strlit("5");
        reveal_strlit("6");
        reveal_strlit("7");
        reveal_strlit("8");
        reveal_strlit("9");
    }
    let text = if d == 0 {
        "0"
    } else if d == 1 {
        "1"
    } else if d == 2 {
        "2"
    } else if d == 3 {
        "3"
    } else if d == 4 {
        "4"
    } else if d == 5 {
        "5"
    } else if d == 6 {
        "6"
    } else if d == 7 {
        "7"
    } else if d == 8 {
        "8"
    } else {
        "9"
    };
    assert(text@ =~= seq![digit(d as nat)]);
    text
}

/// `n` written in decimal digits: see `decimal`.
pub fn to_decimal(n: u128) -> (text: String)
    ensures
        text@ == decimal(n as nat),
{
    let mut rest: u128 = n / 10;
    let mut text = digit_of(n % 10).to_owned();
    let ghost mut low: Seq<char> = text@;
    while rest > 0
        invariant
            text@ == low,
            decimal(n as nat) == if rest == 0 {
                low
            } else {
                decimal(rest as nat) + low
            },
        decreases rest,
    {
        let d = digit_of(rest % 10);
        proof {
            if rest >= 10 {
                assert(decimal(rest as nat) + low == decimal((rest / 10) as nat) + (d@ + low));
            } else {
                assert(decimal(rest as nat) + low == d@ + low);
            }
            low = d@ + low;
        }
        text = followed_by(d, text.as_str());
        rest = rest / 10;
    }
    text
}

} // verus!
