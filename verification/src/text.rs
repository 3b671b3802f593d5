//! Text helpers over characters: splitting into lines, building strings,
//! decimal numbers, substring search and trimming.
use vstd::prelude::*;

verus! {

/// `String::push` appends one character.
pub assume_specification[ String::push ](s: &mut String, ch: char)
    ensures
        final(s)@ == old(s)@.push(ch),
;

/// The contents of a list of strings.
pub open spec fn strings_of(v: Seq<String>) -> Seq<Seq<char>> {
    v.map_values(|s: String| s@)
}

/// The characters of a string.
pub fn chars_of(s: &str) -> (r: Vec<char>)
    ensures
        r@ == s@,
{
    let mut r: Vec<char> = Vec::new();
    for c in it: s.chars()
        invariant
            r@.len() == it.index(),
            it.seq() == s@,
            forall|i: int| 0 <= i < r@.len() ==> #[trigger] r@[i] == it.seq()[i],
    {
        r.push(c);
    }
    assert(r@ =~= s@);
    r
}

/// A string made of `chars[from..to]`.
pub fn string_of(chars: &Vec<char>, from: usize, to: usize) -> (r: String)
    requires
        from <= to <= chars@.len(),
    ensures
        r@ == chars@.subrange(from as int, to as int),
{
    let mut r = String::new();
    let mut i = from;
    while i < to
        invariant
            from <= i <= to,
            to <= chars@.len(),
            r@ == chars@.subrange(from as int, i as int),
        decreases to - i,
    {
        r.push(chars[i]);
        i += 1;
        assert(r@ =~= chars@.subrange(from as int, i as int));
    }
    r
}

/// Index of the first '\n' in `s`, or its length when there is none.
pub open spec fn newline_at(s: Seq<char>) -> nat
    decreases s.len(),
{
    if s.len() == 0 || s[0] == '\n' {
        0
    } else {
        1 + newline_at(s.drop_first())
    }
}

/// A line without the '\r' of a "\r\n" ending.
pub open spec fn strip_cr(line: Seq<char>) -> Seq<char> {
    if line.len() > 0 && line.last() == '\r' {
        line.drop_last()
    } else {
        line
    }
}

/// The lines of a text as `str::lines` documents them: split at "\n" or
/// "\r\n", without the line endings; the final line ending is optional, and
/// an empty text has no lines.
pub open spec fn lines_of(s: Seq<char>) -> Seq<Seq<char>>
    decreases s.len(),
{
    if s.len() == 0 {
        Seq::empty()
    } else {
        let j = newline_at(s);
        if j < s.len() {
            seq![strip_cr(s.take(j as int))] + lines_of(s.skip(j as int + 1))
        } else {
            seq![s]
        }
    }
}

proof fn lemma_newline_at(s: Seq<char>)
    ensures
        newline_at(s) <= s.len(),
        forall|i: int| 0 <= i < newline_at(s) ==> #[trigger] s[i] != '\n',
        newline_at(s) < s.len() ==> s[newline_at(s) as int] == '\n',
    decreases s.len(),
{
    if s.len() > 0 && s[0] != '\n' {
        lemma_newline_at(s.drop_first());
        assert forall|i: int| 0 <= i < newline_at(s) implies #[trigger] s[i] != '\n' by {
            if i > 0 {
                assert(s[i] == s.drop_first()[i - 1]);
            }
        }
    }
}

proof fn lemma_newline_at_exact(s: Seq<char>, j: int)
    requires
        0 <= j <= s.len(),
        forall|i: int| 0 <= i < j ==> #[trigger] s[i] != '\n',
        j < s.len() ==> s[j] == '\n',
    ensures
        newline_at(s) == j,
    decreases j,
{
    if j > 0 {
        assert forall|i: int| 0 <= i < j - 1 implies #[trigger] s.drop_first()[i] != '\n' by {
            assert(s[i + 1] != '\n');
        }
        lemma_newline_at_exact(s.drop_first(), j - 1);
    }
}

/// The lines of `text`, as `str::lines` splits them.
pub fn split_lines(text: &str) -> (r: Vec<String>)
    ensures
        r@.map_values(|l: String| l@) == lines_of(text@),
{
    let chars = chars_of(text);
    let len = chars.len();
    let ghost s = text@;
    let mut r: Vec<String> = Vec::new();
    let mut start: usize = 0;
    assert(s.skip(0) =~= s);
    while start < len
        invariant
            chars@ == s,
            len == s.len(),
            start <= len,
            lines_of(s) == r@.map_values(|l: String| l@) + lines_of(s.skip(start as int)),
        decreases len - start,
    {
        let mut j = start;
        while j < len && chars[j] != '\n'
            invariant
                chars@ == s,
                len == s.len(),
                start <= j <= len,
                forall|i: int| start <= i < j ==> #[trigger] s[i] != '\n',
            decreases len - j,
        {
            j += 1;
        }
        let ghost rest = s.skip(start as int);
        proof {
            assert forall|i: int| 0 <= i < j - start implies #[trigger] rest[i] != '\n' by {
                assert(rest[i] == s[start + i]);
            }
            lemma_newline_at_exact(rest, j - start);
            assert(rest.take(j - start) =~= s.subrange(start as int, j as int));
        }
        let ghost old_r = r@;
        if j < len {
            let end = if j > start && chars[j - 1] == '\r' {
                j - 1
            } else {
                j
            };
            let line = string_of(&chars, start, end);
            r.push(line);
            proof {
                assert(strip_cr(rest.take(j - start)) =~= s.subrange(start as int, end as int));
                assert(rest.skip(j - start + 1) =~= s.skip(j + 1));
                assert(r@.map_values(|l: String| l@) =~= old_r.map_values(|l: String| l@).push(
                    strip_cr(rest.take(j - start)),
                ));
                assert(lines_of(rest) == seq![strip_cr(rest.take(j - start))] + lines_of(
                    rest.skip(j - start + 1),
                ));
            }
            start = j + 1;
        } else {
            let line = string_of(&chars, start, len);
            r.push(line);
            proof {
                assert(rest =~= s.subrange(start as int, len as int));
                assert(r@.map_values(|l: String| l@) =~= old_r.map_values(|l: String| l@).push(
                    rest,
                ));
                assert(s.skip(len as int) =~= Seq::<char>::empty());
                assert(lines_of(s.skip(len as int)) =~= Seq::<Seq<char>>::empty());
            }
            start = len;
        }
    }
    proof {
        assert(s.skip(len as int) =~= Seq::<char>::empty());
        assert(r@.map_values(|l: String| l@) =~= r@.map_values(|l: String| l@) + lines_of(
            s.skip(len as int),
        ));
    }
    r
}

/// Whether two strings are equal.
pub fn str_eq(a: &str, b: &str) -> (r: bool)
    ensures
        r == (a@ == b@),
{
    let ca = chars_of(a);
    let cb = chars_of(b);
    if ca.len() != cb.len() {
        return false;
    }
    let mut i = 0usize;
    while i < ca.len()
        invariant
            ca@ == a@,
            cb@ == b@,
            ca@.len() == cb@.len(),
            i <= ca@.len(),
            forall|t: int| 0 <= t < i ==> #[trigger] ca@[t] == cb@[t],
        decreases ca@.len() - i,
    {
        if ca[i] != cb[i] {
            return false;
        }
        i += 1;
    }
    assert(ca@ =~= cb@);
    true
}

/// `s` begins with `prefix`.
pub open spec fn has_prefix(s: Seq<char>, prefix: Seq<char>) -> bool {
    prefix.len() <= s.len() && s.take(prefix.len() as int) == prefix
}

/// The rest of `s` after `prefix`, if `s` begins with it.
pub fn strip_prefix(s: &str, prefix: &str) -> (r: Option<String>)
    ensures
        r is Some <==> has_prefix(s@, prefix@),
        r matches Some(rest) ==> rest@ == s@.skip(prefix@.len() as int),
{
    let cs = chars_of(s);
    let cp = chars_of(prefix);
    if cp.len() > cs.len() {
        return None;
    }
    let mut i = 0usize;
    while i < cp.len()
        invariant
            cs@ == s@,
            cp@ == prefix@,
            cp@.len() <= cs@.len(),
            i <= cp@.len(),
            forall|t: int| 0 <= t < i ==> #[trigger] cs@[t] == cp@[t],
        decreases cp@.len() - i,
    {
        if cs[i] != cp[i] {
            assert(s@.take(prefix@.len() as int)[i as int] != prefix@[i as int]);
            return None;
        }
        i += 1;
    }
    assert(s@.take(prefix@.len() as int) =~= prefix@);
    let rest = string_of(&cs, cp.len(), cs.len());
    assert(rest@ =~= s@.skip(prefix@.len() as int));
    Some(rest)
}

/// `c` is an ASCII digit.
pub open spec fn is_digit(c: char) -> bool {
    '0' <= c <= '9'
}

/// The value of a digit.
pub open spec fn digit_value(c: char) -> nat {
    (c as int - '0' as int) as nat
}

/// The value of a string of digits, read in base 10.
pub open spec fn digits_value(s: Seq<char>) -> nat
    decreases s.len(),
{
    if s.len() == 0 {
        0
    } else {
        digits_value(s.drop_last()) * 10 + digit_value(s.last())
    }
}

/// The digits of a number, after an optional '+'.
pub open spec fn unsigned_digits(s: Seq<char>) -> Seq<char> {
    if s.len() > 0 && s[0] == '+' {
        s.drop_first()
    } else {
        s
    }
}

/// Every character is an ASCII digit.
pub open spec fn all_digits(s: Seq<char>) -> bool {
    forall|i: int| 0 <= i < s.len() ==> #[trigger] is_digit(s[i])
}

/// What `usize::from_str` accepts: an optional '+' then one or more ASCII
/// digits whose value fits in a usize.
pub open spec fn parsed_usize(s: Seq<char>) -> Option<usize> {
    let ds = unsigned_digits(s);
    if ds.len() > 0 && all_digits(ds) && digits_value(ds) <= usize::MAX {
        Some(digits_value(ds) as usize)
    } else {
        None
    }
}

/// Parses a usize in base 10 as `str::parse::<usize>` does.
pub fn parse_usize(s: &str) -> (r: Option<usize>)
    ensures
        r == parsed_usize(s@),
{
    let cs = chars_of(s);
    let start: usize = if cs.len() > 0 && cs[0] == '+' {
        1
    } else {
        0
    };
    let ghost ds = unsigned_digits(s@);
    assert(ds =~= cs@.skip(start as int));
    if start >= cs.len() {
        return None;
    }
    let mut value: usize = 0;
    let mut i = start;
    let mut overflow = false;
    while i < cs.len()
        invariant
            cs@ == s@,
            ds == unsigned_digits(s@),
            ds == cs@.skip(start as int),
            start <= i <= cs@.len(),
            forall|t: int| start <= t < i ==> #[trigger] is_digit(cs@[t]),
            !overflow ==> value == digits_value(ds.take(i - start)),
            overflow ==> digits_value(ds.take(i - start)) > usize::MAX,
        decreases cs@.len() - i,
    {
        let c = cs[i];
        assert(ds[i - start] == c);
        if !('0' <= c && c <= '9') {
            assert(!is_digit(ds[i - start]));
            assert(!all_digits(ds));
            return None;
        }
        proof {
            assert(ds.take(i - start + 1).drop_last() =~= ds.take(i - start));
            assert(ds.take(i - start + 1).last() == c);
            lemma_digits_value_mono(ds.take(i - start), c);
        }
        let dv = (c as u32 - '0' as u32) as usize;
        if !overflow {
            match value.checked_mul(10) {
                Some(v10) => match v10.checked_add(dv) {
                    Some(nv) => {
                        value = nv;
                    },
                    None => {
                        overflow = true;
                    },
                },
                None => {
                    overflow = true;
                },
            }
        }
        i += 1;
    }
    assert(ds.take(cs@.len() - start) =~= ds);
    if overflow {
        None
    } else {
        Some(value)
    }
}

proof fn lemma_digits_value_mono(s: Seq<char>, c: char)
    requires
        is_digit(c),
    ensures
        digits_value(s.push(c)) == digits_value(s) * 10 + digit_value(c),
        digits_value(s.push(c)) >= digits_value(s),
{
    assert(s.push(c).drop_last() =~= s);
}

/// The digit for a value below 10.
pub open spec fn digit_char(d: nat) -> char {
    (('0' as int) + d) as char
}

/// The base-10 representation of n, without leading zeros.
pub open spec fn decimal(n: nat) -> Seq<char>
    decreases n,
{
    if n < 10 {
        seq![digit_char(n)]
    } else {
        decimal(n / 10).push(digit_char(n % 10))
    }
}

/// The base-10 representation of a number.
pub fn usize_to_decimal(n: usize) -> (r: String)
    ensures
        r@ == decimal(n as nat),
{
    u64_to_decimal(n as u64)
}

/// The base-10 representation of a number.
pub fn u64_to_decimal(n: u64) -> (r: String)
    ensures
        r@ == decimal(n as nat),
{
    // digits from the least significant one
    let mut rev: Vec<char> = Vec::new();
    let mut v = n;
    let ghost mut acc: Seq<char> = Seq::empty();
    if v == 0 {
        rev.push('0');
        proof {
            acc = seq!['0'];
            lemma_digit_char(0);
            assert(rev@ =~= acc.reverse());
        }
    }
    while v > 0
        invariant
            v > 0 ==> decimal(n as nat) == decimal(v as nat) + acc,
            v == 0 ==> decimal(n as nat) == acc,
            rev@ == acc.reverse(),
        decreases v,
    {
        let d = v % 10;
        let c = ((d as u32) + ('0' as u32)) as u8 as char;
        proof {
            lemma_digit_char(d as nat);
        }
        assert(c == digit_char(d as nat));
        rev.push(c);
        proof {
            if v < 10 {
                assert(decimal(v as nat) == seq![c]);
            } else {
                assert(decimal(v as nat) == decimal((v / 10) as nat).push(c));
            }
            assert(decimal(n as nat) =~= (if v / 10 > 0 { decimal((v / 10) as nat) } else { Seq::empty() }) + (seq![c] + acc));
            acc = seq![c] + acc;
            assert(rev@ =~= acc.reverse());
        }
        v = v / 10;
    }
    let mut r = String::new();
    let mut i = rev.len();
    while i > 0
        invariant
            i <= rev@.len(),
            r@ == rev@.subrange(i as int, rev@.len() as int).reverse(),
        decreases i,
    {
        i -= 1;
        r.push(rev[i]);
        assert(r@ =~= rev@.subrange(i as int, rev@.len() as int).reverse());
    }
    assert(rev@.subrange(0, rev@.len() as int) =~= rev@);
    assert(acc.reverse().reverse() =~= acc);
    r
}

/// `a` followed by `b`.
pub fn concat(a: &str, b: &str) -> (r: String)
    ensures
        r@ == a@ + b@,
{
    let cs = chars_of(a);
    let mut r = string_of(&cs, 0, cs.len());
    assert(cs@.subrange(0, cs@.len() as int) =~= a@);
    r.append(b);
    r
}

/// `c` has the Unicode White_Space property, as `char::is_whitespace`
/// tests.
pub open spec fn is_space(c: char) -> bool {
    ('\u{9}' <= c <= '\u{d}') || c == ' ' || c == '\u{85}' || c == '\u{a0}' || c == '\u{1680}'
        || ('\u{2000}' <= c <= '\u{200a}') || c == '\u{2028}' || c == '\u{2029}' || c
        == '\u{202f}' || c == '\u{205f}' || c == '\u{3000}'
}

/// Whether `c` is white space.
pub fn char_is_space(c: char) -> (r: bool)
    ensures
        r == is_space(c),
{
    ('\u{9}' <= c && c <= '\u{d}') || c == ' ' || c == '\u{85}' || c == '\u{a0}' || c
        == '\u{1680}' || ('\u{2000}' <= c && c <= '\u{200a}') || c == '\u{2028}' || c
        == '\u{2029}' || c == '\u{202f}' || c == '\u{205f}' || c == '\u{3000}'
}

/// `s` without white space at either end, as `str::trim` gives it.
pub open spec fn trimmed(s: Seq<char>) -> Seq<char>
    decreases s.len(),
{
    if s.len() > 0 && is_space(s[0]) {
        trimmed(s.drop_first())
    } else if s.len() > 0 && is_space(s.last()) {
        trimmed(s.drop_last())
    } else {
        s
    }
}

/// `s` without white space at either end.
pub fn trim(s: &str) -> (r: String)
    ensures
        r@ == trimmed(s@),
{
    let cs = chars_of(s);
    let mut a = 0usize;
    let mut b = cs.len();
    assert(cs@.subrange(0, cs@.len() as int) =~= s@);
    while a < b
        invariant
            a <= b <= cs@.len(),
            trimmed(s@) == trimmed(cs@.subrange(a as int, b as int)),
            cs@ == s@,
        ensures
            a <= b <= cs@.len(),
            trimmed(s@) == trimmed(cs@.subrange(a as int, b as int)),
            cs@ == s@,
            a == b || (!is_space(cs@[a as int]) && !is_space(cs@[b - 1])),
        decreases b - a,
    {
        let ghost t = cs@.subrange(a as int, b as int);
        if char_is_space(cs[a]) {
            assert(t.drop_first() =~= cs@.subrange(a + 1, b as int));
            a += 1;
        } else if char_is_space(cs[b - 1]) {
            assert(t.drop_last() =~= cs@.subrange(a as int, b - 1));
            b -= 1;
        } else {
            break;
        }
    }
    assert(trimmed(cs@.subrange(a as int, b as int)) == cs@.subrange(a as int, b as int));
    string_of(&cs, a, b)
}

/// `t` occurs in `s` at index `i`.
pub open spec fn occurs_at(s: Seq<char>, t: Seq<char>, i: int) -> bool {
    0 <= i && i + t.len() <= s.len() && s.subrange(i, i + t.len()) == t
}

/// `t` occurs somewhere in `s`, as `str::contains` tests.
pub open spec fn contains_text(s: Seq<char>, t: Seq<char>) -> bool {
    exists|i: int| #[trigger] occurs_at(s, t, i)
}

/// Whether `t` occurs at position `i` of `cs`.
fn matches_at(cs: &Vec<char>, t: &Vec<char>, i: usize) -> (r: bool)
    requires
        i <= cs@.len(),
    ensures
        r == occurs_at(cs@, t@, i as int),
{
    let n = cs.len();
    if t.len() > n - i {
        return false;
    }
    let mut k = 0usize;
    while k < t.len()
        invariant
            n == cs@.len(),
            k <= t@.len(),
            i <= cs@.len(),
            i + t@.len() <= cs@.len(),
            forall|j: int| 0 <= j < k ==> cs@[i + j] == t@[j],
        decreases t@.len() - k,
    {
        if cs[i + k] != t[k] {
            assert(cs@.subrange(i as int, i + t@.len())[k as int] != t@[k as int]);
            return false;
        }
        k += 1;
    }
    assert(cs@.subrange(i as int, i + t@.len()) =~= t@);
    true
}

/// Whether `t` occurs in `s`.
pub fn contains(s: &str, t: &str) -> (r: bool)
    ensures
        r == contains_text(s@, t@),
{
    let cs = chars_of(s);
    let ts = chars_of(t);
    let mut i = 0usize;
    while i < cs.len()
        invariant
            i <= cs@.len(),
            cs@ == s@,
            ts@ == t@,
            forall|j: int| 0 <= j < i ==> !#[trigger] occurs_at(s@, t@, j),
        decreases cs@.len() - i,
    {
        if matches_at(&cs, &ts, i) {
            return true;
        }
        i += 1;
    }
    if matches_at(&cs, &ts, i) {
        return true;
    }
    assert forall|j: int| !#[trigger] occurs_at(s@, t@, j) by {
        if 0 <= j && j + t@.len() <= s@.len() {
            assert(j <= i);
        }
    }
    false
}

/// `s` with every occurrence of `from`, found left to right without
/// overlap, replaced by `to`, as `str::replace` gives it.
pub open spec fn replaced(s: Seq<char>, from: Seq<char>, to: Seq<char>) -> Seq<char>
    recommends
        from.len() > 0,
    decreases s.len(),
    when from.len() > 0
{
    if s.len() == 0 {
        s
    } else if occurs_at(s, from, 0) {
        to + replaced(s.skip(from.len() as int), from, to)
    } else {
        seq![s[0]] + replaced(s.skip(1), from, to)
    }
}

/// `s` with every occurrence of `from` replaced by `to`.
pub fn replace(s: &str, from: &str, to: &str) -> (r: String)
    requires
        from@.len() > 0,
    ensures
        r@ == replaced(s@, from@, to@),
{
    let cs = chars_of(s);
    let fs = chars_of(from);
    let mut r = String::new();
    let mut i = 0usize;
    assert(s@.skip(0) =~= s@);
    while i < cs.len()
        invariant
            i <= cs@.len(),
            cs@ == s@,
            fs@ == from@,
            from@.len() > 0,
            r@ + replaced(s@.skip(i as int), from@, to@) == replaced(s@, from@, to@),
        decreases cs@.len() - i,
    {
        let ghost rest = s@.skip(i as int);
        let ghost before = r@;
        if matches_at(&cs, &fs, i) {
            assert(occurs_at(rest, from@, 0)) by {
                assert(rest.subrange(0, from@.len() as int) =~= s@.subrange(i as int, i + from@.len()));
            }
            r.append(to);
            assert(rest.skip(from@.len() as int) =~= s@.skip(i + fs@.len()));
            assert(r@ + replaced(s@.skip(i + fs@.len()), from@, to@) =~= before + replaced(rest, from@, to@));
            i += fs.len();
        } else {
            assert(!occurs_at(rest, from@, 0)) by {
                if occurs_at(rest, from@, 0) {
                    assert(rest.subrange(0, from@.len() as int) =~= s@.subrange(i as int, i + from@.len()));
                }
            }
            r.push(cs[i]);
            assert(rest.skip(1) =~= s@.skip(i + 1));
            assert(rest[0] == cs@[i as int]);
            assert(r@ + replaced(s@.skip(i + 1), from@, to@) =~= before + replaced(rest, from@, to@));
            i += 1;
        }
    }
    assert(s@.skip(i as int) =~= Seq::<char>::empty());
    assert(r@ + replaced(s@.skip(i as int), from@, to@) =~= r@);
    r
}

proof fn lemma_digit_char(d: nat)
    requires
        d < 10,
    ensures
        is_digit(digit_char(d)),
        digit_value(digit_char(d)) == d,
        digit_char(d) != '+',
        digit_char(d) == (((d + ('0' as int)) as u8) as char),
{
    assert((('0' as int) + d) as char as int == ('0' as int) + d);
}

/// Reading back a number's representation gives the number.
pub proof fn lemma_decimal_round_trip(n: nat)
    requires
        n <= usize::MAX,
    ensures
        parsed_usize(decimal(n)) == Some(n as usize),
{
    lemma_decimal_digits(n);
}

/// A number is written with at least one digit and nothing else.
pub proof fn lemma_decimal_is_digits(n: nat)
    ensures
        decimal(n).len() > 0,
        forall|i: int| 0 <= i < decimal(n).len() ==> #[trigger] is_digit(decimal(n)[i]),
{
    lemma_decimal_digits(n);
}

proof fn lemma_decimal_digits(n: nat)
    ensures
        decimal(n).len() > 0,
        forall|i: int| 0 <= i < decimal(n).len() ==> #[trigger] is_digit(decimal(n)[i]),
        decimal(n)[0] != '+',
        digits_value(decimal(n)) == n,
    decreases n,
{
    if n < 10 {
        lemma_digit_char(n);
        assert(seq![digit_char(n)].drop_last() =~= Seq::<char>::empty());
        assert(digits_value(Seq::<char>::empty()) == 0);
        assert(digits_value(decimal(n)) == digits_value(Seq::<char>::empty()) * 10 + digit_value(digit_char(n)));
    } else {
        lemma_digit_char(n % 10);
        lemma_decimal_digits(n / 10);
        let s = decimal(n / 10);
        assert(decimal(n).drop_last() =~= s);
        assert forall|i: int| 0 <= i < decimal(n).len() implies #[trigger] is_digit(decimal(n)[i]) by {
            if i < s.len() {
                assert(decimal(n)[i] == s[i]);
            }
        }
        assert(n == (n / 10) * 10 + n % 10);
        assert(decimal(n).last() == digit_char(n % 10));
        assert(digits_value(decimal(n)) == digits_value(s) * 10 + digit_value(digit_char(n % 10)));
    }
}

} // verus!
