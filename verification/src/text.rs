//! Strings: the handful of operations that the rest of the library builds on.
use vstd::prelude::*;
use vstd::string::*;
use vstd::utf8::*;

verus! {

/// The contents of a sequence of strings.
pub open spec fn views(strings: Seq<String>) -> Seq<Seq<char>> {
    strings.map_values(|s: String| s@)
}

/// `parts` in order, with `sep` between each two neighbours.
pub open spec fn joined(parts: Seq<Seq<char>>, sep: Seq<char>) -> Seq<char>
    decreases parts.len(),
{
    if parts.len() == 0 {
        Seq::empty()
    } else if parts.len() == 1 {
        parts[0]
    } else {
        joined(parts.drop_last(), sep) + sep + parts.last()
    }
}

/// Joins `parts` with `sep` in between.
pub fn join(parts: &Vec<String>, sep: &str) -> (res: String)
    ensures
        res@ == joined(views(parts@), sep@),
{
    let mut res = String::new();
    let ghost all = views(parts@);
    for i in 0..parts.len()
        invariant
            all == views(parts@),
            res@ == joined(all.take(i as int), sep@),
    {
        if i > 0 {
            res.append(sep);
        }
        res.append(parts[i].as_str());
        proof {
            let next = all.take(i + 1);
            assert(next.drop_last() =~= all.take(i as int));
            assert(next.last() == parts[i as int]@);
            if i == 0 {
                assert(res@ =~= parts[0]@);
            }
        }
    }
    proof {
        assert(all.take(parts.len() as int) =~= all);
    }
    res
}

/// Whether two strings hold the same characters.
pub fn same(a: &str, b: &str) -> (res: bool)
    ensures
        res == (a@ == b@),
{
    let left = a.to_string();
    let right = b.to_string();
    left == right
}

/// The characters of `s`, one by one.
pub fn chars_of(s: &str) -> (res: Vec<char>)
    ensures
        res@ == s@,
{
    let mut res: Vec<char> = Vec::new();
    for c in iter: s.chars()
        invariant
            res@ == s@.take(iter.index() as int),
            iter.seq() == s@,
    {
        res.push(c);
        proof {
            assert(s@.take(iter.index() + 1) =~= s@.take(iter.index() as int).push(c));
        }
    }
    proof {
        assert(s@.take(s@.len() as int) =~= s@);
    }
    res
}

/// Whether `c` is an ASCII digit.
pub open spec fn is_digit(c: char) -> bool {
    '0' <= c <= '9'
}

/// The character of the digit `d`.
pub open spec fn digit_char(d: int) -> char {
    (d + 48) as char
}

/// `n` in decimal, without leading zeros.
pub open spec fn decimal(n: nat) -> Seq<char>
    decreases n,
{
    if n < 10 {
        seq![digit_char(n as int)]
    } else {
        decimal(n / 10).push(digit_char((n % 10) as int))
    }
}

/// `n` in decimal, with a leading minus sign where it is negative.
pub open spec fn signed_decimal(n: int) -> Seq<char> {
    if n < 0 {
        seq!['-'] + decimal((-n) as nat)
    } else {
        decimal(n as nat)
    }
}

/// Specifies [`std::string::String::push`]: the character is appended to the end.
pub assume_specification[ std::string::String::push ](s: &mut std::string::String, c: char)
    ensures
        final(s)@ == old(s)@.push(c),
;

fn push_decimal(out: &mut String, n: u64)
    ensures
        final(out)@ == old(out)@ + decimal(n as nat),
    decreases n,
{
    if n >= 10 {
        push_decimal(out, n / 10);
    }
    let d: u8 = (n % 10) as u8;
    let c = (d + 48) as char;
    out.push(c);
    proof {
        assert(c == digit_char((n % 10) as int));
        if n >= 10 {
            assert(out@ =~= old(out)@ + decimal((n / 10) as nat).push(c));
        } else {
            assert(out@ =~= old(out)@ + seq![c]);
        }
    }
}

/// Writes an unsigned number in decimal.
pub fn u64_text(n: u64) -> (res: String)
    ensures
        res@ == decimal(n as nat),
{
    let mut res = String::new();
    push_decimal(&mut res, n);
    proof {
        assert(Seq::<char>::empty() + decimal(n as nat) =~= decimal(n as nat));
    }
    res
}

/// Writes a signed number in decimal.
pub fn i32_text(n: i32) -> (res: String)
    ensures
        res@ == signed_decimal(n as int),
{
    let mut res = String::new();
    if n < 0 {
        res.push('-');
        push_decimal(&mut res, (-(n as i64)) as u64);
        proof {
            assert(Seq::<char>::empty().push('-') =~= seq!['-']);
        }
    } else {
        push_decimal(&mut res, n as u64);
        proof {
            assert(Seq::<char>::empty() + decimal(n as nat) =~= decimal(n as nat));
        }
    }
    res
}

/// The number that the digits of `s` write in decimal.
pub open spec fn digits_value(s: Seq<char>) -> nat
    decreases s.len(),
{
    if s.len() == 0 {
        0
    } else {
        digits_value(s.drop_last()) * 10 + (s.last() as nat - 48) as nat
    }
}

/// `s` without one leading plus sign, if it has one.
pub open spec fn without_plus(s: Seq<char>) -> Seq<char> {
    if s.len() > 0 && s[0] == '+' {
        s.skip(1)
    } else {
        s
    }
}

/// The index that `s` denotes: an optional plus sign followed by one or more digits and nothing
/// else, with a value that fits in `usize`.
pub open spec fn index_of_text(s: Seq<char>) -> Option<nat> {
    let d = without_plus(s);
    if d.len() > 0 && (forall|i: int| 0 <= i < d.len() ==> is_digit(#[trigger] d[i])) && digits_value(d)
        <= usize::MAX {
        Some(digits_value(d))
    } else {
        None
    }
}

proof fn lemma_digits_value_grows(s: Seq<char>, n: int)
    requires
        0 <= n <= s.len(),
    ensures
        digits_value(s.take(n)) <= digits_value(s),
    decreases s.len() - n,
{
    if n < s.len() {
        lemma_digits_value_grows(s, n + 1);
        assert(s.take(n + 1).drop_last() =~= s.take(n));
    } else {
        assert(s.take(n) =~= s);
    }
}

/// Reads an index: `Some` exactly where [`index_of_text`] gives one.
pub fn parse_index(s: &str) -> (res: Option<usize>)
    ensures
        match (res, index_of_text(s@)) {
            (Some(n), Some(m)) => n == m,
            (None, None) => true,
            _ => false,
        },
{
    let chars = chars_of(s);
    let start: usize = if chars.len() > 0 && chars[0] == '+' {
        1
    } else {
        0
    };
    let ghost d = without_plus(s@);
    proof {
        assert(d =~= s@.skip(start as int));
    }
    if chars.len() == start {
        return None;
    }
    let mut value: usize = 0;
    let mut i: usize = start;
    while i < chars.len()
        invariant
            start <= i <= chars.len(),
            chars@ == s@,
            d == s@.skip(start as int),
            d == without_plus(s@),
            forall|k: int| 0 <= k < i - start ==> is_digit(#[trigger] d[k]),
            value == digits_value(d.take(i - start)),
        decreases chars.len() - i,
    {
        let c = chars[i];
        proof {
            assert(c == d[i - start]);
            assert(d.take(i - start + 1).drop_last() =~= d.take(i - start));
            assert(d.take(i - start + 1).last() == c);
            lemma_digits_value_grows(d, i - start + 1);
        }
        if c < '0' || '9' < c {
            return None;
        }
        let digit: usize = (c as u32 - 48) as usize;
        if value > (usize::MAX - digit) / 10 {
            proof {
                assert(value * 10 + digit > usize::MAX) by (nonlinear_arith)
                    requires
                        value > (usize::MAX - digit) / 10,
                        0 <= digit <= 9,
                        usize::MAX >= 9,
                ;
            }
            return None;
        }
        proof {
            assert(value * 10 + digit <= usize::MAX) by (nonlinear_arith)
                requires
                    value <= (usize::MAX - digit) / 10,
                    0 <= digit <= 9,
                    usize::MAX >= 9,
            ;
        }
        value = value * 10 + digit;
        i = i + 1;
    }
    proof {
        assert(d.take(d.len() as int) =~= d);
    }
    Some(value)
}

/// Whether `pat` occurs in `s` at position `at`.
pub open spec fn occurs_at(s: Seq<char>, pat: Seq<char>, at: int) -> bool {
    &&& 0 <= at
    &&& at + pat.len() <= s.len()
    &&& s.subrange(at, at + pat.len()) == pat
}

/// Whether `pat` occurs in `s` anywhere.
pub open spec fn contains_text(s: Seq<char>, pat: Seq<char>) -> bool {
    exists|at: int| occurs_at(s, pat, at)
}

/// Whether `s` begins with `pat`.
pub open spec fn begins_with(s: Seq<char>, pat: Seq<char>) -> bool {
    occurs_at(s, pat, 0)
}

fn matches_at(s: &Vec<char>, pat: &Vec<char>, at: usize) -> (res: bool)
    requires
        at <= s.len(),
    ensures
        res == occurs_at(s@, pat@, at as int),
{
    if pat.len() > s.len() - at {
        return false;
    }
    let mut i: usize = 0;
    while i < pat.len()
        invariant
            at + pat.len() <= s.len(),
            i <= pat.len(),
            forall|k: int| 0 <= k < i ==> s@[at + k] == #[trigger] pat@[k],
        decreases pat.len() - i,
    {
        if s[at + i] != pat[i] {
            proof {
                assert(s@.subrange(at as int, at + pat@.len())[i as int] != pat@[i as int]);
            }
            return false;
        }
        i = i + 1;
    }
    proof {
        assert(s@.subrange(at as int, at + pat@.len()) =~= pat@);
    }
    true
}

/// Tests whether `s` begins with `pat`.
pub fn starts_with(s: &str, pat: &str) -> (res: bool)
    ensures
        res == begins_with(s@, pat@),
{
    matches_at(&chars_of(s), &chars_of(pat), 0)
}

/// Tests whether `pat` occurs in `s`.
pub fn contains(s: &str, pat: &str) -> (res: bool)
    ensures
        res == contains_text(s@, pat@),
{
    let hay = chars_of(s);
    let needle = chars_of(pat);
    let mut at: usize = 0;
    loop
        invariant
            hay@ == s@,
            needle@ == pat@,
            at <= hay.len(),
            forall|k: int| k < at ==> !occurs_at(s@, pat@, k),
        decreases hay.len() - at,
    {
        if matches_at(&hay, &needle, at) {
            return true;
        }
        if at == hay.len() {
            return false;
        }
        at = at + 1;
    }
}

/// What follows `pat` at the start of `s`: `None` where `s` does not begin with `pat`.
pub fn strip_prefix(s: &str, pat: &str) -> (res: Option<String>)
    ensures
        match res {
            Some(rest) => begins_with(s@, pat@) && rest@ == s@.skip(pat@.len() as int),
            None => !begins_with(s@, pat@),
        },
{
    let hay = chars_of(s);
    let needle = chars_of(pat);
    if !matches_at(&hay, &needle, 0) {
        return None;
    }
    let mut rest = String::new();
    let mut at: usize = needle.len();
    while at < hay.len()
        invariant
            hay@ == s@,
            needle@ == pat@,
            needle.len() <= at <= hay.len(),
            rest@ == s@.subrange(pat@.len() as int, at as int),
        decreases hay.len() - at,
    {
        rest.push(hay[at]);
        proof {
            assert(s@.subrange(pat@.len() as int, at + 1) =~= s@.subrange(
                pat@.len() as int,
                at as int,
            ).push(hay@[at as int]));
        }
        at = at + 1;
    }
    proof {
        assert(s@.subrange(pat@.len() as int, s@.len() as int) =~= s@.skip(pat@.len() as int));
    }
    Some(rest)
}

/// `s` with every occurrence of `pat` left out, where occurrences are taken from the left and do
/// not overlap.
pub open spec fn removed(s: Seq<char>, pat: Seq<char>) -> Seq<char>
    decreases s.len(),
{
    if s.len() == 0 || pat.len() == 0 {
        s
    } else if begins_with(s, pat) {
        removed(s.skip(pat.len() as int), pat)
    } else {
        seq![s[0]] + removed(s.skip(1), pat)
    }
}

/// Leaves out every occurrence of `pat`.
pub fn remove_all(s: &str, pat: &str) -> (res: String)
    requires
        pat@.len() > 0,
    ensures
        res@ == removed(s@, pat@),
{
    let hay = chars_of(s);
    let needle = chars_of(pat);
    let mut res = String::new();
    let mut at: usize = 0;
    proof {
        assert(s@.skip(0) =~= s@);
        assert(Seq::<char>::empty() + removed(s@, pat@) =~= removed(s@, pat@));
    }
    while at < hay.len()
        invariant
            hay@ == s@,
            needle@ == pat@,
            pat@.len() > 0,
            at <= hay.len(),
            removed(s@, pat@) == res@ + removed(s@.skip(at as int), pat@),
        decreases hay.len() - at,
    {
        let ghost rest = s@.skip(at as int);
        let ghost before = res@;
        if matches_at(&hay, &needle, at) {
            proof {
                assert(rest.subrange(0, pat@.len() as int) =~= s@.subrange(at as int, at + pat@.len()));
                assert(rest.skip(pat@.len() as int) =~= s@.skip(at + pat@.len()));
            }
            at = at + needle.len();
        } else {
            proof {
                if begins_with(rest, pat@) {
                    assert(rest.subrange(0, pat@.len() as int) =~= s@.subrange(at as int, at + pat@.len()));
                }
                assert(rest.skip(1) =~= s@.skip(at + 1));
                assert(before + (seq![rest[0]] + removed(rest.skip(1), pat@)) =~= before.push(rest[0])
                    + removed(rest.skip(1), pat@));
            }
            res.push(hay[at]);
            at = at + 1;
        }
    }
    proof {
        assert(s@.skip(at as int) =~= Seq::<char>::empty());
        assert(res@ + Seq::<char>::empty() =~= res@);
    }
    res
}

/// What follows the last full stop of `s`; all of `s` where it has none.
pub open spec fn last_segment(s: Seq<char>) -> Seq<char>
    decreases s.len(),
{
    if s.len() == 0 || s.last() == '.' {
        Seq::empty()
    } else {
        last_segment(s.drop_last()).push(s.last())
    }
}

/// The last of the segments that full stops cut `s` into.
pub fn final_segment(s: &str) -> (res: String)
    ensures
        res@ == last_segment(s@),
{
    let chars = chars_of(s);
    let mut res = String::new();
    for i in 0..chars.len()
        invariant
            chars@ == s@,
            res@ == last_segment(s@.take(i as int)),
    {
        proof {
            assert(s@.take(i + 1).drop_last() =~= s@.take(i as int));
        }
        if chars[i] == '.' {
            res = String::new();
        } else {
            res.push(chars[i]);
        }
    }
    proof {
        assert(s@.take(s@.len() as int) =~= s@);
    }
    res
}

/// The lower-case form of one ASCII character; any other character as it is.
pub open spec fn ascii_lower(c: char) -> char {
    if 'A' <= c <= 'Z' {
        (c as u32 + 32) as char
    } else {
        c
    }
}

/// The string with its ASCII letters in lower case and all else as it is.
pub open spec fn ascii_lowered(s: Seq<char>) -> Seq<char> {
    s.map_values(|c: char| ascii_lower(c))
}

/// The result of [`str::to_lowercase`].
pub uninterp spec fn lowercased(s: Seq<char>) -> Seq<char>;

/// Calls [`str::to_lowercase`], whose result depends on the string alone. On a string of ASCII
/// characters it lowers each letter and leaves the rest as it is; on other strings nothing but
/// that dependence is claimed.
#[verifier::external_body]
fn to_lowercase(s: &str) -> (res: String)
    ensures
        res@ == lowercased(s@),
        is_ascii_chars(s@) ==> res@ == ascii_lowered(s@),
{
    s.to_lowercase()
}

/// The lower-case form of a string: each letter of an ASCII string lowered, and the result of
/// [`str::to_lowercase`] for any other.
pub open spec fn lowered(s: Seq<char>) -> Seq<char> {
    if is_ascii_chars(s) {
        ascii_lowered(s)
    } else {
        lowercased(s)
    }
}

/// The lower-case form of a string.
pub fn lower(s: &str) -> (res: String)
    ensures
        res@ == lowered(s@),
{
    to_lowercase(s)
}

/// The contents of a result of strings.
pub open spec fn result_text(res: Result<String, String>) -> Result<Seq<char>, Seq<char>> {
    match res {
        Ok(s) => Ok(s@),
        Err(e) => Err(e@),
    }
}

/// Calls [`std::str::from_utf8`]: the string that the bytes encode, where they are valid UTF-8.
#[verifier::external_body]
pub(crate) fn from_utf8(bytes: &[u8]) -> (res: Option<&str>)
    ensures
        match res {
            Some(s) => valid_utf8(bytes@) && s@ == decode_utf8(bytes@),
            None => !valid_utf8(bytes@),
        },
{
    std::str::from_utf8(bytes).ok()
}

/// Joining nothing gives nothing, and joining one part gives the part. What two lists of parts are
/// joined to stands on either side of one separator when the lists are joined as one.
pub proof fn law_joined(a: Seq<Seq<char>>, b: Seq<Seq<char>>, part: Seq<char>, sep: Seq<char>)
    ensures
        joined(Seq::empty(), sep) == Seq::<char>::empty(),
        joined(seq![part], sep) == part,
        a.len() > 0 && b.len() > 0 ==> joined(a + b, sep) == joined(a, sep) + sep + joined(b, sep),
    decreases b.len(),
{
    if a.len() > 0 && b.len() > 0 {
        let all = a + b;
        assert(all.drop_last() =~= a + b.drop_last());
        assert(all.last() == b.last());
        if b.len() == 1 {
            assert(b.drop_last() =~= Seq::empty());
            assert(a + Seq::<Seq<char>>::empty() =~= a);
            assert(b[0] == b.last());
        } else {
            law_joined(a, b.drop_last(), part, sep);
            assert(joined(a, sep) + sep + (joined(b.drop_last(), sep) + sep + b.last()) =~= joined(
                a,
                sep,
            ) + sep + joined(b.drop_last(), sep) + sep + b.last());
        }
    }
}

/// A string begins with another exactly where it is the other followed by something, and contains
/// the other exactly where it stands between two parts of the string.
pub proof fn law_begins_and_contains(s: Seq<char>, pat: Seq<char>)
    ensures
        begins_with(s, pat) <==> exists|rest: Seq<char>| s == #[trigger] (pat + rest),
        contains_text(s, pat) <==> exists|a: Seq<char>, b: Seq<char>| s == #[trigger] (a + pat + b),
{
    if begins_with(s, pat) {
        assert(s =~= pat + s.skip(pat.len() as int));
    }
    if exists|rest: Seq<char>| s == #[trigger] (pat + rest) {
        let rest = choose|rest: Seq<char>| s == #[trigger] (pat + rest);
        assert(s.subrange(0, pat.len() as int) =~= pat);
    }
    if contains_text(s, pat) {
        let at = choose|at: int| occurs_at(s, pat, at);
        assert(s =~= s.take(at) + pat + s.skip(at + pat.len()));
    }
    if exists|a: Seq<char>, b: Seq<char>| s == #[trigger] (a + pat + b) {
        let (a, b) = choose|a: Seq<char>, b: Seq<char>| s == #[trigger] (a + pat + b);
        assert(s.subrange(a.len() as int, (a.len() + pat.len()) as int) =~= pat);
        assert(occurs_at(s, pat, a.len() as int));
    }
}

/// What stands before the first occurrence of a pattern stays, the occurrence goes, and what follows
/// is treated alike. A string without the pattern stays as it is.
pub proof fn law_removed(a: Seq<char>, b: Seq<char>, pat: Seq<char>)
    requires
        pat.len() > 0,
        forall|at: int|
            0 <= at < a.len() ==> #[trigger] (a + pat + b).subrange(at, at + pat.len()) != pat,
    ensures
        removed(a + pat + b, pat) == a + removed(b, pat),
        (forall|at: int| 0 <= at && at + pat.len() <= b.len() ==> #[trigger] b.subrange(at, at + pat.len()) != pat)
            ==> removed(b, pat) == b,
    decreases a.len(),
{
    let s = a + pat + b;
    if a.len() == 0 {
        assert(s.subrange(0, pat.len() as int) =~= pat);
        assert(s.skip(pat.len() as int) =~= b);
        assert(a + removed(b, pat) =~= removed(b, pat));
    } else {
        let rest = a.skip(1);
        assert(s.skip(1) =~= rest + pat + b);
        assert(s.subrange(0, pat.len() as int) != pat) by {
            assert(s.subrange(0int, 0int + pat.len()) != pat);
        }
        assert forall|at: int| 0 <= at < rest.len() implies #[trigger] (rest + pat + b).subrange(
            at,
            at + pat.len(),
        ) != pat by {
            assert((rest + pat + b).subrange(at, at + pat.len()) =~= s.subrange(
                at + 1,
                at + 1 + pat.len(),
            ));
        }
        law_removed(rest, b, pat);
        assert(seq![s[0]] + (rest + removed(b, pat)) =~= a + removed(b, pat));
    }
    if forall|at: int|
        0 <= at && at + pat.len() <= b.len() ==> #[trigger] b.subrange(at, at + pat.len()) != pat {
        lemma_nothing_removed(b, pat);
    }
}

proof fn lemma_nothing_removed(s: Seq<char>, pat: Seq<char>)
    requires
        pat.len() > 0,
        forall|at: int|
            0 <= at && at + pat.len() <= s.len() ==> #[trigger] s.subrange(at, at + pat.len()) != pat,
    ensures
        removed(s, pat) == s,
    decreases s.len(),
{
    if s.len() > 0 {
        let rest = s.skip(1);
        if pat.len() <= s.len() {
            assert(s.subrange(0int, 0int + pat.len()) != pat);
        }
        assert forall|at: int| 0 <= at && at + pat.len() <= rest.len() implies #[trigger] rest.subrange(
            at,
            at + pat.len(),
        ) != pat by {
            assert(rest.subrange(at, at + pat.len()) =~= s.subrange(at + 1, at + 1 + pat.len()));
        }
        lemma_nothing_removed(rest, pat);
        assert(seq![s[0]] + rest =~= s);
    }
}

/// The last segment of a string holds no full stop, and it is the whole string or follows a full
/// stop at the end of it.
pub proof fn law_last_segment(s: Seq<char>)
    ensures
        !last_segment(s).contains('.'),
        last_segment(s) == s || exists|before: Seq<char>| s == #[trigger] (before + seq!['.']
            + last_segment(s)),
    decreases s.len(),
{
    if s.len() == 0 {
        assert(s =~= Seq::empty());
    } else if s.last() == '.' {
        assert(s =~= s.drop_last() + seq!['.'] + Seq::<char>::empty());
    } else {
        let rest = s.drop_last();
        law_last_segment(rest);
        assert forall|i: int| 0 <= i < last_segment(s).len() implies last_segment(s)[i] != '.' by {
            if i < last_segment(rest).len() {
                assert(last_segment(rest).contains(last_segment(rest)[i]));
            }
        }
        if last_segment(rest) == rest {
            assert(last_segment(s) =~= s);
        } else {
            let before = choose|before: Seq<char>| rest == #[trigger] (before + seq!['.']
                + last_segment(rest));
            let end = last_segment(rest);
            assert(s =~= rest.push(s.last()));
            assert((before + seq!['.'] + end).push(s.last()) =~= before + seq!['.'] + end.push(s.last()));
            assert(last_segment(s) == end.push(s.last()));
        }
    }
}

/// In lower case, each of the letters A to Z is the letter thirty-two places further on, and any
/// other character is itself.
pub proof fn law_ascii_lowered(s: Seq<char>)
    ensures
        ascii_lowered(s).len() == s.len(),
        forall|i: int|
            0 <= i < s.len() ==> (#[trigger] ascii_lowered(s)[i]) as int == s[i] as int + if 65 <= (s[i] as int) <= 90 {
                32int
            } else {
                0int
            },
{
}

/// A number in decimal is made of digits, begins with a zero only where it is zero, and is read back
/// as the number. A plus sign or a zero in front of digits changes nothing.
pub proof fn law_index_reads_decimal(n: nat, digits: Seq<char>)
    requires
        digits.len() > 0,
        forall|i: int| 0 <= i < digits.len() ==> '0' <= #[trigger] digits[i] <= '9',
    ensures
        decimal(n).len() > 0,
        forall|i: int| 0 <= i < decimal(n).len() ==> '0' <= #[trigger] decimal(n)[i] <= '9',
        decimal(n)[0] == '0' ==> n == 0,
        index_of_text(decimal(n)) == if n <= usize::MAX {
            Some(n)
        } else {
            None
        },
        index_of_text(seq!['+'] + digits) == index_of_text(digits),
        index_of_text(seq!['0'] + digits) == index_of_text(digits),
{
    lemma_decimal(n);
    assert(without_plus(decimal(n)) == decimal(n));
    let plus = seq!['+'] + digits;
    assert(plus.skip(1) =~= digits);
    let zero = seq!['0'] + digits;
    lemma_leading_zero(digits);
    assert forall|i: int| 0 <= i < zero.len() implies is_digit(#[trigger] zero[i]) by {
        if i > 0 {
            assert(zero[i] == digits[i - 1]);
        }
    }
    assert(without_plus(digits) == digits) by {
        assert(is_digit(digits[0]));
    }
}

/// What is read as an index is digits behind at most one plus sign.
pub proof fn law_index_is_digits(s: Seq<char>)
    ensures
        index_of_text(s) is Some ==> exists|digits: Seq<char>|
            #![trigger digits.len()]
            (s == digits || s == seq!['+'] + digits) && digits.len() > 0 && forall|i: int|
                0 <= i < digits.len() ==> '0' <= #[trigger] digits[i] <= '9',
{
    if index_of_text(s) is Some {
        let digits = without_plus(s);
        assert(digits.len() > 0);
        assert(s == digits || s =~= seq!['+'] + digits);
        assert forall|i: int| 0 <= i < digits.len() implies '0' <= #[trigger] digits[i] <= '9' by {
            assert(is_digit(digits[i]));
        }
    }
}

proof fn lemma_decimal(n: nat)
    ensures
        decimal(n).len() > 0,
        forall|i: int| 0 <= i < decimal(n).len() ==> is_digit(#[trigger] decimal(n)[i]),
        digits_value(decimal(n)) == n,
        decimal(n)[0] == '0' ==> n == 0,
    decreases n,
{
    reveal_with_fuel(digits_value, 2);
    if n < 10 {
        assert(decimal(n).drop_last() =~= Seq::empty());
    } else {
        lemma_decimal(n / 10);
        assert(decimal(n).drop_last() =~= decimal(n / 10));
        assert(decimal(n)[0] == decimal(n / 10)[0]);
    }
}

proof fn lemma_leading_zero(s: Seq<char>)
    ensures
        digits_value(seq!['0'] + s) == digits_value(s),
    decreases s.len(),
{
    let all = seq!['0'] + s;
    if s.len() == 0 {
        assert(all.drop_last() =~= Seq::empty());
        assert(s =~= Seq::empty());
        assert(digits_value(all.drop_last()) == 0);
    } else {
        assert(all.drop_last() =~= seq!['0'] + s.drop_last());
        lemma_leading_zero(s.drop_last());
    }
}

/// A number that is not negative is written in decimal, and a negative one as a minus sign and the
/// number without it.
pub proof fn law_signed_decimal(n: nat)
    ensures
        signed_decimal(n as int) == decimal(n),
        n > 0 ==> signed_decimal(-n) == seq!['-'] + decimal(n),
{
}

/// The lower-case form of an ASCII string is that of its letters; of any other string it is what the
/// standard library makes of it.
pub proof fn law_lowered(s: Seq<char>)
    ensures
        is_ascii_chars(s) ==> lowered(s) == ascii_lowered(s),
        !is_ascii_chars(s) ==> lowered(s) == lowercased(s),
{
}

/// A digit behind an index makes it ten times as large and adds the digit, and a digit alone is the
/// index that it shows.
pub proof fn law_index_counts_by_tens(digits: Seq<char>, n: nat, c: char)
    requires
        index_of_text(digits) == Some(n),
        '0' <= c <= '9',
        n * 10 + (c as nat - 48) <= usize::MAX,
    ensures
        index_of_text(digits.push(c)) == Some((n * 10 + (c as nat - 48)) as nat),
        index_of_text(seq![c]) == Some((c as nat - 48) as nat),
{
    reveal_with_fuel(digits_value, 2);
    let d = without_plus(digits);
    let longer = digits.push(c);
    assert(without_plus(longer) =~= d.push(c));
    assert(d.push(c).drop_last() =~= d);
    assert forall|i: int| 0 <= i < d.push(c).len() implies is_digit(#[trigger] d.push(c)[i]) by {
        if i < d.len() {
            assert(is_digit(d[i]));
        }
    }
    let one = seq![c];
    assert(one.drop_last() =~= Seq::empty());
    assert(without_plus(one) == one);
}

/// A list of strings holds what the strings hold, in order.
pub proof fn law_views_stand_in_order(strings: Seq<String>)
    ensures
        views(strings).len() == strings.len(),
        forall|i: int| 0 <= i < strings.len() ==> #[trigger] views(strings)[i] == strings[i]@,
{
}

} // verus!
