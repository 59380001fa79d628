//! Character-level helpers shared by the parsers and printers of the crate.
use vstd::prelude::*;
use vstd::std_specs::iter::IteratorSpec;

verus! {

broadcast use vstd::string::group_string_axioms;

/// The characters of `s`, in order.
pub fn chars_of(s: &str) -> (r: Vec<char>)
    ensures
        r@ == s@,
{
    let mut out: Vec<char> = Vec::new();
    let mut it = s.chars();
    loop
        invariant
            it.remaining() == s@.skip(out@.len() as int),
            out@ == s@.take(out@.len() as int),
            out@.len() <= s@.len(),
        ensures
            out@ == s@,
        decreases s@.len() - out@.len(),
    {
        match it.next() {
            Some(c) => {
                out.push(c);
            }
            None => {
                break;
            }
        }
    }
    out
}

} // verus!

verus! {

/// The character sequences of a list of strings.
pub open spec fn views(v: Seq<String>) -> Seq<Seq<char>> {
    v.map_values(|s: String| s@)
}

/// Whether `v` holds a string equal to `s`.
pub fn vec_contains(v: &[String], s: &String) -> (r: bool)
    ensures
        r == views(v@).contains(s@),
{
    let mut i: usize = 0;
    while i < v.len()
        invariant
            i <= v@.len(),
            forall|j: int| 0 <= j < i ==> v@[j]@ != s@,
        decreases v@.len() - i,
    {
        if v[i] == *s {
            assert(views(v@)[i as int] == s@);
            return true;
        }
        i = i + 1;
    }
    assert forall|j: int| 0 <= j < views(v@).len() implies views(v@)[j] != s@ by {
        assert(views(v@)[j] == v@[j]@);
    }
    false
}

/// A copy of the strings `v[from..to]`.
pub fn copy_range(v: &[String], from: usize, to: usize) -> (r: Vec<String>)
    requires
        from <= to <= v@.len(),
    ensures
        r@ == v@.subrange(from as int, to as int),
{
    let mut out: Vec<String> = Vec::new();
    let mut i: usize = from;
    while i < to
        invariant
            from <= i <= to <= v@.len(),
            out@ == v@.subrange(from as int, i as int),
        decreases to - i,
    {
        out.push(v[i].clone());
        assert(out@ =~= v@.subrange(from as int, i + 1));
        i = i + 1;
    }
    out
}

/// A copy of all the strings of `v`.
pub fn copy_all(v: &[String]) -> (r: Vec<String>)
    ensures
        r@ == v@,
{
    let r = copy_range(v, 0, v.len());
    assert(r@ =~= v@);
    r
}

} // verus!

verus! {

/// Appends `c` to `s` (std's `String::push`).
#[verifier::external_body]
pub(crate) fn push_char(s: &mut String, c: char)
    ensures
        final(s)@ == old(s)@.push(c),
{
    s.push(c);
}

/// A string holding the characters `v`, in order.
pub fn string_from(v: &[char]) -> (r: String)
    ensures
        r@ == v@,
{
    let mut s = String::new();
    let mut i: usize = 0;
    while i < v.len()
        invariant
            i <= v@.len(),
            s@ == v@.take(i as int),
        decreases v@.len() - i,
    {
        push_char(&mut s, v[i]);
        assert(s@ =~= v@.take(i + 1));
        i = i + 1;
    }
    assert(v@.take(v@.len() as int) =~= v@);
    s
}

/// A string holding the characters `v[from..to]`, in order.
pub fn string_from_range(v: &[char], from: usize, to: usize) -> (r: String)
    requires
        from <= to <= v@.len(),
    ensures
        r@ == v@.subrange(from as int, to as int),
{
    let mut s = String::new();
    let mut i: usize = from;
    while i < to
        invariant
            from <= i <= to <= v@.len(),
            s@ == v@.subrange(from as int, i as int),
        decreases to - i,
    {
        push_char(&mut s, v[i]);
        assert(s@ =~= v@.subrange(from as int, i + 1));
        i = i + 1;
    }
    s
}

/// Appends the characters of `t` to `s`.
pub fn push_all(s: &mut String, t: &str)
    ensures
        final(s)@ == old(s)@ + t@,
{
    s.append(t);
}

/// `pat` occurs in `s` at position `i`.
pub open spec fn matches_at(s: Seq<char>, pat: Seq<char>, i: int) -> bool {
    0 <= i && i + pat.len() <= s.len() && s.subrange(i, i + pat.len()) == pat
}

/// The first position at or after `i` where `pat` occurs in `s`.
pub open spec fn find_from(s: Seq<char>, pat: Seq<char>, i: int) -> Option<int>
    decreases s.len() + 1 - i,
{
    if i < 0 || i + pat.len() > s.len() {
        None
    } else if matches_at(s, pat, i) {
        Some(i)
    } else {
        find_from(s, pat, i + 1)
    }
}

/// The first position where `pat` occurs in `s`.
pub open spec fn find(s: Seq<char>, pat: Seq<char>) -> Option<int> {
    find_from(s, pat, 0)
}

pub proof fn lemma_find_from(s: Seq<char>, pat: Seq<char>, i: int)
    requires
        0 <= i,
    ensures
        find_from(s, pat, i) matches Some(k) ==> i <= k && matches_at(s, pat, k)
            && forall|j: int| i <= j < k ==> !matches_at(s, pat, j),
        find_from(s, pat, i) is None ==> forall|j: int| i <= j ==> !matches_at(s, pat, j),
    decreases s.len() + 1 - i,
{
    if i + pat.len() <= s.len() && !matches_at(s, pat, i) {
        lemma_find_from(s, pat, i + 1);
    }
}

/// Whether `pat` occurs in `s` at position `i`.
pub fn matches_at_exec(s: &[char], pat: &[char], i: usize) -> (r: bool)
    ensures
        r == matches_at(s@, pat@, i as int),
{
    if i > s.len() || pat.len() > s.len() - i {
        return false;
    }
    let mut k: usize = 0;
    while k < pat.len()
        invariant
            k <= pat@.len(),
            i + pat@.len() <= s@.len(),
            s@.len() <= usize::MAX,
            forall|j: int| 0 <= j < k ==> s@[i + j] == pat@[j],
        decreases pat@.len() - k,
    {
        if s[i + k] != pat[k] {
            assert(s@.subrange(i as int, i + pat@.len())[k as int] != pat@[k as int]);
            return false;
        }
        k = k + 1;
    }
    assert(s@.subrange(i as int, i + pat@.len()) =~= pat@);
    true
}

/// The first position at or after `from` where `pat` occurs in `s`.
pub fn find_exec(s: &[char], pat: &[char], from: usize) -> (r: Option<usize>)
    ensures
        r matches Some(k) ==> find_from(s@, pat@, from as int) == Some(k as int),
        r is None ==> find_from(s@, pat@, from as int) is None,
{
    if pat.len() == 0 {
        if from <= s.len() {
            assert(s@.subrange(from as int, from as int) =~= pat@);
            return Some(from);
        }
        return None;
    }
    if pat.len() > s.len() {
        return None;
    }
    let last = s.len() - pat.len();
    let mut i = from;
    while i <= last
        invariant
            from <= i,
            last == s@.len() - pat@.len(),
            s@.len() <= usize::MAX,
            pat@.len() > 0,
            find_from(s@, pat@, from as int) == find_from(s@, pat@, i as int),
        decreases s@.len() + 1 - i,
    {
        if matches_at_exec(s, pat, i) {
            return Some(i);
        }
        i = i + 1;
    }
    None
}

} // verus!

verus! {

/// The decimal digit character for `d` (0 to 9).
pub open spec fn digit_char(d: int) -> char {
    (d + 48) as char
}

/// The decimal digits of `n`, most significant first, without leading zeros
/// ("0" for zero).
pub open spec fn digits(n: nat) -> Seq<char>
    decreases n,
{
    if n < 10 {
        seq![digit_char(n as int)]
    } else {
        digits(n / 10).push(digit_char((n % 10) as int))
    }
}

/// The decimal text of an integer: its digits, after a minus sign where it is
/// negative.
pub open spec fn decimal(n: int) -> Seq<char> {
    if n < 0 {
        seq!['-'] + digits((-n) as nat)
    } else {
        digits(n as nat)
    }
}

/// Appends the decimal digits of `n` to `s`.
pub fn push_digits(s: &mut String, n: u64)
    ensures
        final(s)@ == old(s)@ + digits(n as nat),
    decreases n,
{
    if n >= 10 {
        push_digits(s, n / 10);
    }
    let d: u8 = (n % 10) as u8;
    let c: char = (d + 48u8) as char;
    assert(c == digit_char((n % 10) as int));
    push_char(s, c);
    proof {
        if n >= 10 {
            assert(old(s)@ + digits(n as nat) =~= old(s)@ + digits((n / 10) as nat) + seq![c]);
        } else {
            assert(old(s)@ + digits(n as nat) =~= old(s)@ + seq![c]);
        }
    }
}

/// Appends the decimal text of `n` to `s`.
pub fn push_decimal(s: &mut String, n: i64)
    ensures
        final(s)@ == old(s)@ + decimal(n as int),
{
    if n < 0 {
        push_char(s, '-');
        let m: u64 = (0i128 - n as i128) as u64;
        push_digits(s, m);
        assert(old(s)@ + decimal(n as int) =~= old(s)@ + seq!['-'] + digits(m as nat));
    } else {
        push_digits(s, n as u64);
    }
}

/// The decimal text of `n`.
pub fn decimal_string(n: i64) -> (r: String)
    ensures
        r@ == decimal(n as int),
{
    let mut s = String::new();
    push_decimal(&mut s, n);
    assert(s@ =~= decimal(n as int));
    s
}

} // verus!

verus! {

/// `s` begins with `p`.
pub open spec fn starts_with(s: Seq<char>, p: Seq<char>) -> bool {
    p.len() <= s.len() && s.take(p.len() as int) == p
}

/// Whether `s` begins with `p`.
pub fn starts_with_exec(s: &str, p: &str) -> (r: bool)
    ensures
        r == starts_with(s@, p@),
{
    let cs = chars_of(s);
    let ps = chars_of(p);
    let r = matches_at_exec(cs.as_slice(), ps.as_slice(), 0);
    proof {
        if r {
            assert(s@.subrange(0, p@.len() as int) =~= s@.take(p@.len() as int));
        } else if p@.len() <= s@.len() {
            assert(s@.subrange(0, p@.len() as int) =~= s@.take(p@.len() as int));
        }
    }
    r
}

/// `s` with every occurrence of `pat` taken out, scanning from the left and
/// taking non-overlapping occurrences (std's `str::replace` with an empty
/// replacement).
pub open spec fn remove_all(s: Seq<char>, pat: Seq<char>) -> Seq<char>
    decreases s.len(),
{
    if pat.len() == 0 || s.len() < pat.len() {
        s
    } else if s.take(pat.len() as int) == pat {
        remove_all(s.skip(pat.len() as int), pat)
    } else {
        seq![s[0]] + remove_all(s.skip(1), pat)
    }
}

/// The pieces of `rest` between occurrences of `c`, the first one starting
/// with `cur`.
pub open spec fn split_scan(rest: Seq<char>, cur: Seq<char>, c: char) -> Seq<Seq<char>>
    decreases rest.len(),
{
    if rest.len() == 0 {
        seq![cur]
    } else if rest[0] == c {
        seq![cur] + split_scan(rest.skip(1), Seq::empty(), c)
    } else {
        split_scan(rest.skip(1), cur.push(rest[0]), c)
    }
}

/// The pieces of `s` between occurrences of `c` (std's `str::split` with a
/// character: always at least one piece, empty pieces kept).
pub open spec fn split(s: Seq<char>, c: char) -> Seq<Seq<char>> {
    split_scan(s, Seq::empty(), c)
}

/// The pieces joined, with `c` between each two.
pub open spec fn join(parts: Seq<Seq<char>>, c: char) -> Seq<char>
    decreases parts.len(),
{
    if parts.len() == 0 {
        Seq::empty()
    } else if parts.len() == 1 {
        parts[0]
    } else {
        parts[0] + seq![c] + join(parts.skip(1), c)
    }
}

/// `s` with every occurrence of `pat` taken out.
pub fn remove_all_exec(s: &str, pat: &str) -> (r: String)
    ensures
        r@ == remove_all(s@, pat@),
{
    let cs = chars_of(s);
    let ps = chars_of(pat);
    let mut out = String::new();
    if ps.len() == 0 {
        push_all(&mut out, s);
        assert(out@ =~= s@);
        return out;
    }
    let mut i: usize = 0;
    assert(s@.skip(0) =~= s@);
    assert(out@ + remove_all(s@, pat@) =~= remove_all(s@, pat@));
    while i < cs.len()
        invariant
            i <= cs@.len(),
            cs@ == s@,
            ps@ == pat@,
            ps@.len() > 0,
            remove_all(s@, pat@) == out@ + remove_all(s@.skip(i as int), pat@),
        decreases cs@.len() - i,
    {
        let ghost rest = s@.skip(i as int);
        if matches_at_exec(cs.as_slice(), ps.as_slice(), i) {
            proof {
                assert(rest.take(pat@.len() as int) =~= s@.subrange(i as int, i + pat@.len()));
                assert(rest.skip(pat@.len() as int) =~= s@.skip(i + pat@.len()));
            }
            i = i + ps.len();
        } else {
            push_char(&mut out, cs[i]);
            proof {
                if rest.len() >= pat@.len() {
                    assert(rest.take(pat@.len() as int) =~= s@.subrange(i as int, i + pat@.len()));
                }
                assert(rest.skip(1) =~= s@.skip(i + 1));
                assert(rest[0] == cs@[i as int]);
            }
            i = i + 1;
        }
    }
    proof {
        assert(s@.skip(i as int).len() == 0);
        assert(out@ + remove_all(s@.skip(i as int), pat@) =~= out@);
    }
    out
}

/// The pieces of `s` between occurrences of `c`.
pub fn split_exec(s: &str, c: char) -> (r: Vec<String>)
    ensures
        views(r@) == split(s@, c),
{
    let cs = chars_of(s);
    let mut out: Vec<String> = Vec::new();
    let mut cur = String::new();
    let mut i: usize = 0;
    assert(s@.skip(0) =~= s@);
    assert(views(out@) + split(s@, c) =~= split(s@, c));
    assert(cur@ =~= Seq::<char>::empty());
    while i < cs.len()
        invariant
            i <= cs@.len(),
            cs@ == s@,
            split(s@, c) == views(out@) + split_scan(s@.skip(i as int), cur@, c),
        decreases cs@.len() - i,
    {
        let ghost rest = s@.skip(i as int);
        assert(rest.skip(1) =~= s@.skip(i + 1));
        if cs[i] == c {
            let done = cur;
            cur = String::new();
            proof {
                assert(views(out@.push(done)) =~= views(out@) + seq![done@]);
            }
            out.push(done);
        } else {
            push_char(&mut cur, cs[i]);
        }
        i = i + 1;
    }
    proof {
        assert(s@.skip(i as int).len() == 0);
        assert(views(out@.push(cur)) =~= views(out@) + seq![cur@]);
    }
    out.push(cur);
    out
}

/// Joining the pieces that a text splits into gives back the text.
pub proof fn law_join_split(s: Seq<char>, c: char)
    ensures
        join(split(s, c), c) == s,
{
    lemma_join_split_scan(s, Seq::empty(), c);
    assert(Seq::<char>::empty() + s =~= s);
}

proof fn lemma_split_scan_nonempty(rest: Seq<char>, cur: Seq<char>, c: char)
    ensures
        split_scan(rest, cur, c).len() >= 1,
    decreases rest.len(),
{
    if rest.len() > 0 {
        if rest[0] == c {
            lemma_split_scan_nonempty(rest.skip(1), Seq::empty(), c);
        } else {
            lemma_split_scan_nonempty(rest.skip(1), cur.push(rest[0]), c);
        }
    }
}

proof fn lemma_join_split_scan(rest: Seq<char>, cur: Seq<char>, c: char)
    ensures
        join(split_scan(rest, cur, c), c) == cur + rest,
    decreases rest.len(),
{
    if rest.len() == 0 {
        assert(cur + rest =~= cur);
    } else if rest[0] == c {
        let tail = split_scan(rest.skip(1), Seq::empty(), c);
        lemma_join_split_scan(rest.skip(1), Seq::empty(), c);
        lemma_split_scan_nonempty(rest.skip(1), Seq::empty(), c);
        let parts = seq![cur] + tail;
        assert(parts.skip(1) =~= tail);
        assert(parts[0] == cur);
        assert(Seq::<char>::empty() + rest.skip(1) =~= rest.skip(1));
        assert(cur + seq![c] + rest.skip(1) =~= cur + rest);
    } else {
        lemma_join_split_scan(rest.skip(1), cur.push(rest[0]), c);
        assert(cur.push(rest[0]) + rest.skip(1) =~= cur + rest);
    }
}

} // verus!

verus! {

/// `c` is a decimal digit.
pub open spec fn is_digit(c: char) -> bool {
    '0' <= c <= '9'
}

/// The value of the decimal digits `s` (most significant first).
pub open spec fn digits_value(s: Seq<char>) -> nat
    decreases s.len(),
{
    if s.len() == 0 {
        0
    } else {
        digits_value(s.drop_last()) * 10 + ((s.last() as int - 48) as nat)
    }
}

/// What std's `usize::from_str` reads from `s`: an optional `+` and then one
/// or more decimal digits, whose value must fit in a `usize`.
pub open spec fn unsigned_of(s: Seq<char>) -> Option<nat> {
    bounded_unsigned_of(s, usize::MAX as nat)
}

/// What std's `from_str` of an unsigned integer type whose largest value is
/// `max` reads from `s`: an optional `+` and then one or more decimal
/// digits, whose value must not exceed `max`.
pub open spec fn bounded_unsigned_of(s: Seq<char>, max: nat) -> Option<nat> {
    let body = unsigned_body(s);
    if body.len() > 0 && all_digits(body) && digits_value(body) <= max {
        Some(digits_value(body))
    } else {
        None
    }
}

/// `s` without a leading `+`.
pub open spec fn unsigned_body(s: Seq<char>) -> Seq<char> {
    if s.len() > 0 && s[0] == '+' {
        s.skip(1)
    } else {
        s
    }
}

/// Every character of `s` is a decimal digit.
pub open spec fn all_digits(s: Seq<char>) -> bool {
    forall|i: int| 0 <= i < s.len() ==> is_digit(s[i])
}

proof fn lemma_digits_value_grows(s: Seq<char>, i: int, j: int)
    requires
        0 <= i <= j <= s.len(),
        forall|k: int| 0 <= k < s.len() ==> is_digit(s[k]),
    ensures
        digits_value(s.take(i)) <= digits_value(s.take(j)),
    decreases j - i,
{
    if i < j {
        lemma_digits_value_grows(s, i, j - 1);
        assert(s.take(j).drop_last() =~= s.take(j - 1));
    }
}

/// The number that `s` reads as, where it is at most `max`, as std's
/// `from_str` of an unsigned type whose largest value is `max` reads it.
pub fn parse_unsigned(s: &str, max: u64) -> (r: Option<u64>)
    ensures
        match bounded_unsigned_of(s@, max as nat) {
            Some(n) => r == Some(n as u64),
            None => r is None,
        },
{
    let cs = chars_of(s);
    let start: usize = if cs.len() > 0 && cs[0] == '+' { 1 } else { 0 };
    let ghost body = unsigned_body(s@);
    assert(body =~= cs@.skip(start as int));
    if start >= cs.len() {
        return None;
    }
    let mut acc: u64 = 0;
    let mut i: usize = start;
    while i < cs.len()
        invariant
            start <= i <= cs@.len(),
            cs@ == s@,
            body == cs@.skip(start as int),
            body == unsigned_body(s@),
            forall|k: int| start <= k < i ==> is_digit(cs@[k]),
            acc == digits_value(body.take(i - start)),
        decreases cs@.len() - i,
    {
        let c = cs[i];
        if !('0' <= c && c <= '9') {
            proof {
                assert(!is_digit(body[i - start]));
                assert(!all_digits(body));
            }
            return None;
        }
        let d: u64 = ((c as u32) - 48) as u64;
        proof {
            assert(body.take(i - start + 1).drop_last() =~= body.take(i - start));
            assert(body.take(i - start + 1).last() == c);
        }
        let next = match acc.checked_mul(10) {
            Some(m) => m.checked_add(d),
            None => None,
        };
        match next {
            Some(v) => {
                acc = v;
            },
            None => {
                proof {
                    assert(digits_value(body.take(i - start + 1)) > u64::MAX);
                    if all_digits(body) {
                        lemma_digits_value_grows(body, i - start + 1, body.len() as int);
                        assert(body.take(body.len() as int) =~= body);
                    }
                }
                return None;
            },
        }
        i = i + 1;
    }
    assert(body.take(i - start) =~= body);
    if acc <= max {
        Some(acc)
    } else {
        None
    }
}

/// The number that `s` reads as, as std's `usize::from_str` reads it.
pub fn parse_usize(s: &str) -> (r: Option<usize>)
    ensures
        match unsigned_of(s@) {
            Some(n) => r == Some(n as usize),
            None => r is None,
        },
{
    match parse_unsigned(s, usize::MAX as u64) {
        Some(n) => Some(n as usize),
        None => None,
    }
}

} // verus!

verus! {

/// A copy of the characters `v[from..to]`.
pub fn char_range(v: &[char], from: usize, to: usize) -> (r: Vec<char>)
    requires
        from <= to <= v@.len(),
    ensures
        r@ == v@.subrange(from as int, to as int),
{
    let mut out: Vec<char> = Vec::new();
    let mut i: usize = from;
    while i < to
        invariant
            from <= i <= to <= v@.len(),
            out@ == v@.subrange(from as int, i as int),
        decreases to - i,
    {
        out.push(v[i]);
        assert(out@ =~= v@.subrange(from as int, i + 1));
        i = i + 1;
    }
    out
}

} // verus!

verus! {

/// `c` is white space in Unicode's sense (std's `char::is_whitespace`): tab,
/// line feed, vertical tab, form feed, carriage return, space, next line,
/// no-break space, ogham space mark, the spaces U+2000 to U+200A, the line
/// and paragraph separators, the narrow no-break space, the medium
/// mathematical space and the ideographic space.
pub open spec fn is_space(c: char) -> bool {
    ||| '\t' <= c <= '\r'
    ||| c == ' '
    ||| c == '\u{85}'
    ||| c == '\u{a0}'
    ||| c == '\u{1680}'
    ||| '\u{2000}' <= c <= '\u{200a}'
    ||| c == '\u{2028}'
    ||| c == '\u{2029}'
    ||| c == '\u{202f}'
    ||| c == '\u{205f}'
    ||| c == '\u{3000}'
}

/// Whether `c` is white space.
pub fn is_space_exec(c: char) -> (r: bool)
    ensures
        r == is_space(c),
{
    ('\t' <= c && c <= '\r') || c == ' ' || c == '\u{85}' || c == '\u{a0}' || c == '\u{1680}' || (
    '\u{2000}' <= c && c <= '\u{200a}') || c == '\u{2028}' || c == '\u{2029}' || c == '\u{202f}'
        || c == '\u{205f}' || c == '\u{3000}'
}

/// The number of white space characters at the start of `s`.
pub open spec fn leading_spaces(s: Seq<char>) -> nat
    decreases s.len(),
{
    if s.len() > 0 && is_space(s[0]) {
        1 + leading_spaces(s.skip(1))
    } else {
        0
    }
}

/// The number of white space characters at the end of `s`.
pub open spec fn trailing_spaces(s: Seq<char>) -> nat
    decreases s.len(),
{
    if s.len() > 0 && is_space(s.last()) {
        1 + trailing_spaces(s.drop_last())
    } else {
        0
    }
}

/// `s` without white space at either end (std's `str::trim`).
pub open spec fn trim(s: Seq<char>) -> Seq<char> {
    let t = s.skip(leading_spaces(s) as int);
    t.take(t.len() - trailing_spaces(t))
}

proof fn lemma_leading_spaces(s: Seq<char>, i: int)
    requires
        0 <= i <= s.len(),
        forall|k: int| 0 <= k < i ==> is_space(s[k]),
    ensures
        leading_spaces(s) == i + leading_spaces(s.skip(i)),
        leading_spaces(s) <= s.len(),
    decreases i,
{
    lemma_leading_bound(s);
    if i > 0 {
        lemma_leading_spaces(s.skip(1), i - 1);
        assert(s.skip(1).skip(i - 1) =~= s.skip(i));
    } else {
        assert(s.skip(0) =~= s);
    }
}

proof fn lemma_leading_bound(s: Seq<char>)
    ensures
        leading_spaces(s) <= s.len(),
    decreases s.len(),
{
    if s.len() > 0 {
        lemma_leading_bound(s.skip(1));
    }
}

proof fn lemma_trailing_spaces(s: Seq<char>, j: int)
    requires
        0 <= j <= s.len(),
        forall|k: int| j <= k < s.len() ==> is_space(s[k]),
    ensures
        trailing_spaces(s) == (s.len() - j) + trailing_spaces(s.take(j)),
    decreases s.len() - j,
{
    if j < s.len() {
        lemma_trailing_spaces(s.drop_last(), j);
        assert(s.drop_last().take(j) =~= s.take(j));
    } else {
        assert(s.take(j) =~= s);
    }
}

proof fn lemma_trailing_bound(s: Seq<char>)
    ensures
        trailing_spaces(s) <= s.len(),
    decreases s.len(),
{
    if s.len() > 0 {
        lemma_trailing_bound(s.drop_last());
    }
}

/// The number of characters at the start of `s` that are not white space.
pub open spec fn word_len(s: Seq<char>) -> nat
    decreases s.len(),
{
    if s.len() > 0 && !is_space(s[0]) {
        1 + word_len(s.skip(1))
    } else {
        0
    }
}

/// The second of the words of `s` that white space separates (what std's
/// `split_whitespace().nth(1)` gives), or the empty text where `s` holds
/// fewer than two words.
pub open spec fn second_word(s: Seq<char>) -> Seq<char> {
    let t1 = s.skip(leading_spaces(s) as int);
    let r = t1.skip(word_len(t1) as int);
    let t2 = r.skip(leading_spaces(r) as int);
    t2.take(word_len(t2) as int)
}

proof fn lemma_word_len(s: Seq<char>, i: int)
    requires
        0 <= i <= s.len(),
        forall|k: int| 0 <= k < i ==> !is_space(s[k]),
    ensures
        word_len(s) == i + word_len(s.skip(i)),
    decreases i,
{
    if i > 0 {
        lemma_word_len(s.skip(1), i - 1);
        assert(s.skip(1).skip(i - 1) =~= s.skip(i));
    } else {
        assert(s.skip(0) =~= s);
    }
}

/// The end of the white space that starts at `i`.
fn skip_spaces(cs: &Vec<char>, i: usize) -> (j: usize)
    requires
        i <= cs@.len(),
    ensures
        j == i + leading_spaces(cs@.skip(i as int)),
        j <= cs@.len(),
{
    let ghost t = cs@.skip(i as int);
    let mut j: usize = i;
    while j < cs.len() && is_space_exec(cs[j])
        invariant
            i <= j <= cs@.len(),
            t == cs@.skip(i as int),
            forall|k: int| i <= k < j ==> is_space(cs@[k]),
        decreases cs@.len() - j,
    {
        j = j + 1;
    }
    proof {
        assert forall|k: int| 0 <= k < j - i implies is_space(t[k]) by {
            assert(t[k] == cs@[i + k]);
        }
        lemma_leading_spaces(t, j - i);
        assert(t.skip(j - i) =~= cs@.skip(j as int));
        if j < cs@.len() {
            assert(cs@.skip(j as int)[0] == cs@[j as int]);
        }
        assert(leading_spaces(cs@.skip(j as int)) == 0);
    }
    j
}

/// The end of the word that starts at `i`.
fn skip_word(cs: &Vec<char>, i: usize) -> (j: usize)
    requires
        i <= cs@.len(),
    ensures
        j == i + word_len(cs@.skip(i as int)),
        j <= cs@.len(),
{
    let ghost t = cs@.skip(i as int);
    let mut j: usize = i;
    while j < cs.len() && !is_space_exec(cs[j])
        invariant
            i <= j <= cs@.len(),
            t == cs@.skip(i as int),
            forall|k: int| i <= k < j ==> !is_space(cs@[k]),
        decreases cs@.len() - j,
    {
        j = j + 1;
    }
    proof {
        assert forall|k: int| 0 <= k < j - i implies !is_space(t[k]) by {
            assert(t[k] == cs@[i + k]);
        }
        lemma_word_len(t, j - i);
        assert(t.skip(j - i) =~= cs@.skip(j as int));
        if j < cs@.len() {
            assert(cs@.skip(j as int)[0] == cs@[j as int]);
        }
        assert(word_len(cs@.skip(j as int)) == 0);
    }
    j
}

/// The second word of `s`, as `second_word` states.
pub fn second_word_exec(s: &str) -> (r: String)
    ensures
        r@ == second_word(s@),
{
    let cs = chars_of(s);
    let a = skip_spaces(&cs, 0);
    let b = skip_word(&cs, a);
    let c = skip_spaces(&cs, b);
    let d = skip_word(&cs, c);
    proof {
        assert(cs@.skip(0) =~= s@);
        let t1 = s@.skip(leading_spaces(s@) as int);
        assert(t1 =~= cs@.skip(a as int));
        let r = t1.skip(word_len(t1) as int);
        assert(r =~= cs@.skip(b as int));
        let t2 = r.skip(leading_spaces(r) as int);
        assert(t2 =~= cs@.skip(c as int));
        assert(t2.take(word_len(t2) as int) =~= cs@.subrange(c as int, d as int));
    }
    string_from_range(cs.as_slice(), c, d)
}

/// `s` without white space at either end.
pub fn trim_exec(s: &str) -> (r: String)
    ensures
        r@ == trim(s@),
{
    let cs = chars_of(s);
    let mut i: usize = 0;
    while i < cs.len() && is_space_exec(cs[i])
        invariant
            i <= cs@.len(),
            cs@ == s@,
            forall|k: int| 0 <= k < i ==> is_space(cs@[k]),
        decreases cs@.len() - i,
    {
        i = i + 1;
    }
    proof {
        lemma_leading_spaces(s@, i as int);
        if i < cs@.len() {
            assert(s@.skip(i as int)[0] == cs@[i as int]);
        }
        assert(leading_spaces(s@.skip(i as int)) == 0);
    }
    let ghost t = s@.skip(i as int);
    let mut j: usize = cs.len();
    while j > i && is_space_exec(cs[j - 1])
        invariant
            i <= j <= cs@.len(),
            cs@ == s@,
            t == s@.skip(i as int),
            forall|k: int| j <= k < cs@.len() ==> is_space(cs@[k]),
        decreases j,
    {
        j = j - 1;
    }
    proof {
        let m = j - i;
        assert forall|k: int| m <= k < t.len() implies is_space(t[k]) by {
            assert(t[k] == cs@[i + k]);
        }
        lemma_trailing_spaces(t, m);
        if m > 0 {
            assert(t.take(m).last() == cs@[j - 1]);
        }
        assert(trailing_spaces(t.take(m)) == 0);
        assert(t.take(t.len() - trailing_spaces(t)) =~= s@.subrange(i as int, j as int));
    }
    let r = string_from_range(cs.as_slice(), i, j);
    r
}

} // verus!
