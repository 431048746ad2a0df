//! Text primitives. Every text value is modelled by its sequence of
//! characters (`Seq<char>`), and each executable helper is specified against
//! that model.

use vstd::prelude::*;
use vstd::std_specs::iter::IteratorSpec;

verus! {

/// The character that writes the decimal digit `d` (for `0 <= d <= 9`).
pub open spec fn digit_char(d: int) -> char {
    if d == 0 {
        '0'
    } else if d == 1 {
        '1'
    } else if d == 2 {
        '2'
    } else if d == 3 {
        '3'
    } else if d == 4 {
        '4'
    } else if d == 5 {
        '5'
    } else if d == 6 {
        '6'
    } else if d == 7 {
        '7'
    } else if d == 8 {
        '8'
    } else {
        '9'
    }
}

/// Whether `c` is one of `'0'..='9'`.
pub open spec fn is_digit(c: char) -> bool {
    '0' <= c <= '9'
}

/// The value of the decimal digit `c`.
pub open spec fn digit_value(c: char) -> int {
    c as int - '0' as int
}

/// Whether `c` is an ASCII letter.
pub open spec fn is_letter(c: char) -> bool {
    ('a' <= c <= 'z') || ('A' <= c <= 'Z')
}

/// Whether `c` may occur inside an identifier: a letter, a digit or `_`.
pub open spec fn is_word_char(c: char) -> bool {
    is_letter(c) || is_digit(c) || c == '_'
}

/// Whether every character of `s` is a word character.
pub open spec fn all_word_chars(s: Seq<char>) -> bool {
    forall|i: int| 0 <= i < s.len() ==> is_word_char(#[trigger] s[i])
}

/// The shortest decimal notation of `n`.
pub open spec fn decimal(n: nat) -> Seq<char>
    decreases n,
{
    if n < 10 {
        seq![digit_char(n as int)]
    } else {
        decimal(n / 10).push(digit_char((n % 10) as int))
    }
}

/// The decimal notation of `n`, padded with a leading zero to at least two digits.
pub open spec fn two_digits(n: nat) -> Seq<char> {
    if n < 10 {
        seq!['0', digit_char(n as int)]
    } else {
        decimal(n)
    }
}

/// Appends one character to a string.
///
/// Trusted: `String::push` of the standard library, which appends the
/// character at the end and leaves the rest as it was.
#[verifier::external_body]
pub(crate) fn push_char(out: &mut String, c: char)
    ensures
        final(out)@ == old(out)@.push(c),
{
    out.push(c);
}

/// The character that writes the decimal digit `d`.
pub(crate) fn digit_to_char(d: u8) -> (c: char)
    requires
        d <= 9,
    ensures
        c == digit_char(d as int),
        is_digit(c),
        digit_value(c) == d,
{
    match d {
        0 => '0',
        1 => '1',
        2 => '2',
        3 => '3',
        4 => '4',
        5 => '5',
        6 => '6',
        7 => '7',
        8 => '8',
        _ => '9',
    }
}

/// Appends the decimal notation of `n`.
pub fn push_decimal(out: &mut String, n: u64)
    ensures
        final(out)@ == old(out)@ + decimal(n as nat),
    decreases n,
{
    if n >= 10 {
        push_decimal(out, n / 10);
    }
    let d: u8 = (n % 10) as u8;
    push_char(out, digit_to_char(d));
    assert(final(out)@ =~= old(out)@ + decimal(n as nat));
}

/// Appends `n` in decimal, with a leading zero where it has one digit only.
pub fn push_two_digits(out: &mut String, n: u8)
    ensures
        final(out)@ == old(out)@ + two_digits(n as nat),
{
    if n < 10 {
        push_char(out, '0');
        push_char(out, digit_to_char(n));
        assert(final(out)@ =~= old(out)@ + two_digits(n as nat));
    } else {
        push_decimal(out, n as u64);
    }
}

/// The characters of `s`, in order.
pub fn to_chars(s: &str) -> (v: Vec<char>)
    ensures
        v@ == s@,
{
    let mut v: Vec<char> = Vec::new();
    let mut it = s.chars();
    loop
        invariant
            v@ + it.remaining() == s@,
            it.obeys_prophetic_iter_laws(),
            it.decrease() is Some,
        ensures
            v@ == s@,
        decreases it.decrease()->0,
    {
        match it.next() {
            Some(c) => {
                v.push(c);
                assert(v@ + it.remaining() =~= s@);
            },
            None => {
                assert(v@ =~= s@);
                break;
            },
        }
    }
    v
}

/// Appends the characters `v[from..to]`.
pub(crate) fn push_chars(out: &mut String, v: &Vec<char>, from: usize, to: usize)
    requires
        from <= to <= v.len(),
    ensures
        final(out)@ == old(out)@ + v@.subrange(from as int, to as int),
{
    let mut i: usize = from;
    while i < to
        invariant
            from <= i <= to <= v.len(),
            out@ == old(out)@ + v@.subrange(from as int, i as int),
        decreases to - i,
    {
        push_char(out, v[i]);
        i += 1;
        assert(out@ =~= old(out)@ + v@.subrange(from as int, i as int));
    }
}

/// The string that holds the characters `v[from..to]`.
pub(crate) fn string_of(v: &Vec<char>, from: usize, to: usize) -> (s: String)
    requires
        from <= to <= v.len(),
    ensures
        s@ == v@.subrange(from as int, to as int),
{
    let mut s = String::new();
    push_chars(&mut s, v, from, to);
    assert(s@ =~= v@.subrange(from as int, to as int));
    s
}

/// Whether the characters of `pattern` stand in `v` from position `at` on.
pub(crate) fn has_prefix_at(v: &Vec<char>, at: usize, pattern: &Vec<char>) -> (b: bool)
    requires
        at <= v.len(),
    ensures
        b == pattern@.is_prefix_of(v@.skip(at as int)),
{
    if pattern.len() > v.len() - at {
        return false;
    }
    let mut i: usize = 0;
    while i < pattern.len()
        invariant
            at + pattern.len() <= v.len(),
            i <= pattern.len(),
            forall|j: int| 0 <= j < i ==> pattern@[j] == v@[at + j],
        decreases pattern.len() - i,
    {
        if pattern[i] != v[at + i] {
            assert(v@.skip(at as int)[i as int] == v@[at + i]);
            return false;
        }
        i += 1;
    }
    assert(pattern@ =~= v@.skip(at as int).subrange(0, pattern@.len() as int));
    true
}

/// Whether `s` begins with `prefix`.
pub fn starts_with(s: &str, prefix: &str) -> (b: bool)
    ensures
        b == prefix@.is_prefix_of(s@),
{
    let v = to_chars(s);
    let p = to_chars(prefix);
    assert(v@.skip(0) =~= v@);
    has_prefix_at(&v, 0, &p)
}

/// Whether `a` and `b` hold the same characters.
pub fn same_text(a: &str, b: &str) -> (eq: bool)
    ensures
        eq == (a@ == b@),
{
    let v = to_chars(a);
    let w = to_chars(b);
    if v.len() != w.len() {
        return false;
    }
    assert(v@.skip(0) =~= v@);
    let eq = has_prefix_at(&v, 0, &w);
    proof {
        if eq {
            assert(w@ =~= v@.subrange(0, w@.len() as int));
            assert(v@.subrange(0, v@.len() as int) =~= v@);
        }
    }
    eq
}

// ---------------------------------------------------------------------------
// Occurrences and replacement

/// Whether `pattern` stands in `s` at position `i`.
pub open spec fn occurs_at(s: Seq<char>, pattern: Seq<char>, i: int) -> bool {
    0 <= i && i + pattern.len() <= s.len() && s.subrange(i, i + pattern.len()) == pattern
}

/// Whether `pattern` stands somewhere in `s`.
pub open spec fn contains_text(s: Seq<char>, pattern: Seq<char>) -> bool {
    exists|i: int| occurs_at(s, pattern, i)
}

/// `s` with each occurrence of `pattern` replaced by `to`, the occurrences
/// taken from the left and not overlapping. An empty pattern occurs nowhere.
pub open spec fn replaced(s: Seq<char>, pattern: Seq<char>, to: Seq<char>) -> Seq<char>
    decreases s.len(),
{
    if pattern.len() == 0 || s.len() < pattern.len() {
        s
    } else if pattern.is_prefix_of(s) {
        to + replaced(s.skip(pattern.len() as int), pattern, to)
    } else {
        seq![s[0]] + replaced(s.skip(1), pattern, to)
    }
}

/// Whether `pattern` stands somewhere in `v`.
pub fn contains_chars(v: &Vec<char>, pattern: &Vec<char>) -> (b: bool)
    ensures
        b == contains_text(v@, pattern@),
{
    if pattern.len() > v.len() {
        assert forall|i: int| !occurs_at(v@, pattern@, i) by {}
        return false;
    }
    let last = v.len() - pattern.len();
    let mut i: usize = 0;
    while i <= last
        invariant
            last == v.len() - pattern.len(),
            i <= last + 1,
            forall|j: int| 0 <= j < i ==> !occurs_at(v@, pattern@, j),
        decreases last + 1 - i,
    {
        if has_prefix_at(v, i, pattern) {
            assert(v@.skip(i as int).subrange(0, pattern@.len() as int) =~= v@.subrange(
                i as int,
                i + pattern@.len(),
            ));
            assert(occurs_at(v@, pattern@, i as int));
            return true;
        }
        proof {
            if occurs_at(v@, pattern@, i as int) {
                assert(v@.skip(i as int).subrange(0, pattern@.len() as int) =~= v@.subrange(
                    i as int,
                    i + pattern@.len(),
                ));
            }
        }
        i += 1;
    }
    assert forall|j: int| !occurs_at(v@, pattern@, j) by {}
    false
}

/// Whether `pattern` stands somewhere in `s`.
pub fn contains(s: &str, pattern: &str) -> (b: bool)
    ensures
        b == contains_text(s@, pattern@),
{
    let v = to_chars(s);
    let p = to_chars(pattern);
    contains_chars(&v, &p)
}

/// Replaces each occurrence of `pattern` in `v` by `to`. An empty pattern
/// occurs nowhere.
pub fn replace_all(v: &Vec<char>, pattern: &Vec<char>, to: &Vec<char>) -> (out: Vec<char>)
    ensures
        out@ == replaced(v@, pattern@, to@),
{
    let mut out: Vec<char> = Vec::new();
    let mut i: usize = 0;
    if pattern.len() == 0 {
        while i < v.len()
            invariant
                i <= v.len(),
                out@ == v@.take(i as int),
            decreases v.len() - i,
        {
            out.push(v[i]);
            assert(out@ =~= v@.take(i + 1));
            i += 1;
        }
        assert(v@.take(v@.len() as int) =~= v@);
        return out;
    }
    assert(v@.skip(0) =~= v@);
    assert(out@ + replaced(v@, pattern@, to@) =~= replaced(v@, pattern@, to@));
    while i < v.len()
        invariant
            i <= v.len(),
            pattern.len() > 0,
            out@ + replaced(v@.skip(i as int), pattern@, to@) == replaced(v@, pattern@, to@),
        decreases v.len() - i,
    {
        let ghost rest = v@.skip(i as int);
        if has_prefix_at(v, i, pattern) {
            let mut k: usize = 0;
            let ghost before = out@;
            while k < to.len()
                invariant
                    k <= to.len(),
                    out@ == before + to@.take(k as int),
                decreases to.len() - k,
            {
                out.push(to[k]);
                k += 1;
                assert(out@ =~= before + to@.take(k as int));
            }
            assert(to@.take(to@.len() as int) =~= to@);
            assert(rest.skip(pattern@.len() as int) =~= v@.skip(i + pattern@.len()));
            i += pattern.len();
            assert(out@ + replaced(v@.skip(i as int), pattern@, to@) =~= before + replaced(
                rest,
                pattern@,
                to@,
            ));
        } else {
            let ghost before = out@;
            out.push(v[i]);
            assert(rest.skip(1) =~= v@.skip(i + 1));
            assert(rest[0] == v@[i as int]);
            i += 1;
            proof {
                if rest.len() < pattern@.len() {
                    lemma_replaced_short(rest, pattern@, to@);
                    lemma_replaced_short(rest.skip(1), pattern@, to@);
                    assert(seq![rest[0]] + rest.skip(1) =~= rest);
                }
                assert(out@ + replaced(v@.skip(i as int), pattern@, to@) =~= before + replaced(
                    rest,
                    pattern@,
                    to@,
                ));
            }
        }
    }
    assert(v@.skip(v@.len() as int) =~= Seq::<char>::empty());
    assert(out@ =~= replaced(v@, pattern@, to@));
    out
}

/// A text shorter than the pattern is left as it is.
pub proof fn lemma_replaced_short(s: Seq<char>, pattern: Seq<char>, to: Seq<char>)
    requires
        s.len() < pattern.len(),
    ensures
        replaced(s, pattern, to) == s,
{
}

/// An occurrence in `s` from position `n` on is an occurrence in what is left of `s`.
pub proof fn lemma_occurs_in_rest(s: Seq<char>, pattern: Seq<char>, n: int, i: int)
    requires
        0 <= n <= s.len(),
    ensures
        occurs_at(s.skip(n), pattern, i) <==> (occurs_at(s, pattern, i + n) && i >= 0),
{
    if 0 <= i && i + pattern.len() <= s.len() - n {
        assert(s.skip(n).subrange(i, i + pattern.len()) =~= s.subrange(i + n, i + n + pattern.len()));
    }
}

/// An occurrence behind a prefix `a` of `a + b` is an occurrence in `b`.
pub proof fn lemma_occurs_behind(a: Seq<char>, b: Seq<char>, pattern: Seq<char>, k: int)
    requires
        k >= a.len(),
    ensures
        occurs_at(a + b, pattern, k) <==> occurs_at(b, pattern, k - a.len()),
{
    if k + pattern.len() <= a.len() + b.len() {
        assert((a + b).subrange(k, k + pattern.len()) =~= b.subrange(
            k - a.len(),
            k - a.len() + pattern.len(),
        ));
    }
}

/// A beginning of the replaced text that holds no whole replacement and
/// does not end inside one is a beginning of the text itself.
pub proof fn lemma_beginning_untouched(
    s: Seq<char>,
    pattern: Seq<char>,
    to: Seq<char>,
    w: Seq<char>,
)
    requires
        pattern.len() > 0,
        to.len() > 0,
        w.len() > 0 ==> !to.contains(w.last()),
        !contains_text(w, to),
        w.is_prefix_of(replaced(s, pattern, to)),
    ensures
        w.is_prefix_of(s),
    decreases s.len(),
{
    let r = replaced(s, pattern, to);
    if w.len() == 0 {
        assert(w =~= s.subrange(0, 0));
    } else if s.len() < pattern.len() {
    } else if pattern.is_prefix_of(s) {
        let rest = replaced(s.skip(pattern.len() as int), pattern, to);
        assert(r == to + rest);
        assert(w =~= r.subrange(0, w.len() as int));
        if w.len() >= to.len() {
            assert(w.subrange(0, to.len() as int) =~= to);
            assert(occurs_at(w, to, 0));
        } else {
            assert(w.last() == r[w.len() - 1]);
            assert(r[w.len() - 1] == to[w.len() - 1]);
        }
    } else {
        let rest = replaced(s.skip(1), pattern, to);
        assert(r == seq![s[0]] + rest);
        assert(w =~= r.subrange(0, w.len() as int));
        let v = w.skip(1);
        assert(v =~= rest.subrange(0, v.len() as int));
        if v.len() > 0 {
            assert(v.last() == w.last());
        }
        assert forall|i: int| !occurs_at(v, to, i) by {
            lemma_occurs_in_rest(w, to, 1, i);
        }
        lemma_beginning_untouched(s.skip(1), pattern, to, v);
        assert(v =~= s.skip(1).subrange(0, v.len() as int));
        assert(w[0] == r[0]);
        assert(w =~= s.subrange(0, w.len() as int)) by {
            assert forall|i: int| 0 <= i < w.len() implies w[i] == s[i] by {
                if i > 0 {
                    assert(w[i] == v[i - 1]);
                    assert(v[i - 1] == s.skip(1).subrange(0, v.len() as int)[i - 1]);
                }
            }
        }
    }
}

/// After replacement the text `q` stands nowhere, where `q` is the pattern
/// itself or stood nowhere before, the replacement is not empty, holds
/// neither the first nor the last character of `q`, and does not stand in `q`.
pub proof fn lemma_replaced_excludes(s: Seq<char>, pattern: Seq<char>, to: Seq<char>, q: Seq<char>)
    requires
        pattern.len() > 0,
        to.len() > 0,
        q.len() > 0,
        !to.contains(q[0]),
        !to.contains(q.last()),
        !contains_text(q, to),
        q == pattern || !contains_text(s, q),
    ensures
        !contains_text(replaced(s, pattern, to), q),
    decreases s.len(),
{
    let r = replaced(s, pattern, to);
    if s.len() < pattern.len() {
        assert forall|k: int| !occurs_at(r, q, k) by {}
    } else if pattern.is_prefix_of(s) {
        let n = pattern.len() as int;
        let rest = replaced(s.skip(n), pattern, to);
        assert(r == to + rest);
        if q != pattern {
            assert forall|i: int| !occurs_at(s.skip(n), q, i) by {
                lemma_occurs_in_rest(s, q, n, i);
            }
        }
        lemma_replaced_excludes(s.skip(n), pattern, to, q);
        assert forall|k: int| !occurs_at(r, q, k) by {
            if occurs_at(r, q, k) {
                if k < to.len() {
                    assert(r.subrange(k, k + q.len())[0] == r[k]);
                    assert(r[k] == to[k]);
                } else {
                    lemma_occurs_behind(to, rest, q, k);
                }
            }
        }
    } else {
        let rest = replaced(s.skip(1), pattern, to);
        let first = seq![s[0]];
        assert(r == first + rest);
        if q != pattern {
            assert forall|i: int| !occurs_at(s.skip(1), q, i) by {
                lemma_occurs_in_rest(s, q, 1, i);
            }
        }
        lemma_replaced_excludes(s.skip(1), pattern, to, q);
        assert forall|k: int| !occurs_at(r, q, k) by {
            if occurs_at(r, q, k) {
                if k >= 1 {
                    lemma_occurs_behind(first, rest, q, k);
                } else {
                    let w = q.skip(1);
                    assert(r.subrange(0, q.len() as int) == q);
                    assert(w =~= rest.subrange(0, w.len() as int));
                    if w.len() > 0 {
                        assert(w.last() == q.last());
                    }
                    assert forall|i: int| !occurs_at(w, to, i) by {
                        lemma_occurs_in_rest(q, to, 1, i);
                    }
                    lemma_beginning_untouched(s.skip(1), pattern, to, w);
                    assert(q[0] == r.subrange(0, q.len() as int)[0]);
                    assert(q =~= s.subrange(0, q.len() as int)) by {
                        assert forall|i: int| 0 <= i < q.len() implies q[i] == s[i] by {
                            if i > 0 {
                                assert(q[i] == w[i - 1]);
                                assert(w[i - 1] == s.skip(1).subrange(0, w.len() as int)[i - 1]);
                            }
                        }
                    }
                    assert(occurs_at(s, q, 0));
                }
            }
        }
    }
}

// ---------------------------------------------------------------------------
// Joining

/// Each of `parts` with `separator` in front of it.
pub open spec fn separated(parts: Seq<Seq<char>>, separator: Seq<char>) -> Seq<char>
    decreases parts.len(),
{
    if parts.len() == 0 {
        Seq::empty()
    } else {
        separator + parts[0] + separated(parts.drop_first(), separator)
    }
}

/// The `parts` in order, with `separator` between each two of them.
pub open spec fn joined(parts: Seq<Seq<char>>, separator: Seq<char>) -> Seq<char> {
    if parts.len() == 0 {
        Seq::empty()
    } else {
        parts[0] + separated(parts.drop_first(), separator)
    }
}

/// The texts that the strings of `parts` hold.
pub open spec fn texts(parts: Seq<String>) -> Seq<Seq<char>> {
    parts.map_values(|p: String| p@)
}

/// Joins `parts`, with `separator` between each two of them.
pub fn join(parts: &Vec<String>, separator: &str) -> (out: String)
    ensures
        out@ == joined(texts(parts@), separator@),
{
    let mut out = String::new();
    let ghost all = texts(parts@);
    if parts.len() == 0 {
        return out;
    }
    out.append(parts[0].as_str());
    let mut i: usize = 1;
    assert(all.drop_first() =~= all.skip(1));
    while i < parts.len()
        invariant
            1 <= i <= parts.len(),
            all == texts(parts@),
            out@ + separated(all.skip(i as int), separator@) == joined(all, separator@),
        decreases parts.len() - i,
    {
        let ghost before = out@;
        out.append(separator);
        out.append(parts[i].as_str());
        proof {
            let rest = all.skip(i as int);
            assert(rest[0] == parts@[i as int]@);
            assert(rest.drop_first() =~= all.skip(i + 1));
            assert(out@ + separated(all.skip(i + 1), separator@) =~= before + separated(
                rest,
                separator@,
            ));
        }
        i += 1;
    }
    assert(all.skip(parts@.len() as int) =~= Seq::<Seq<char>>::empty());
    assert(out@ =~= joined(all, separator@));
    out
}


/// The decimal notation of a number is a non-empty run of digits.
pub proof fn lemma_decimal_digits(n: nat)
    ensures
        decimal(n).len() >= 1,
        forall|i: int| 0 <= i < decimal(n).len() ==> is_digit(#[trigger] decimal(n)[i]),
    decreases n,
{
    if n >= 10 {
        lemma_decimal_digits(n / 10);
        let before = decimal(n / 10);
        assert forall|i: int| 0 <= i < decimal(n).len() implies is_digit(#[trigger] decimal(n)[i]) by {
            if i < before.len() {
                assert(decimal(n)[i] == before[i]);
            }
        }
    }
}

/// Whether `s` holds none of the characters that `allowed` rejects.
pub open spec fn all_chars(s: Seq<char>, allowed: spec_fn(char) -> bool) -> bool {
    forall|i: int| 0 <= i < s.len() ==> allowed(#[trigger] s[i])
}

/// Joining keeps what holds of every character of the parts and of the separator.
pub proof fn lemma_joined_chars(
    parts: Seq<Seq<char>>,
    separator: Seq<char>,
    allowed: spec_fn(char) -> bool,
)
    requires
        forall|i: int| 0 <= i < parts.len() ==> all_chars(#[trigger] parts[i], allowed),
        all_chars(separator, allowed),
    ensures
        all_chars(joined(parts, separator), allowed),
        all_chars(separated(parts, separator), allowed),
    decreases parts.len(),
{
    if parts.len() > 0 {
        let rest = parts.drop_first();
        assert forall|i: int| 0 <= i < rest.len() implies all_chars(#[trigger] rest[i], allowed) by {
            assert(rest[i] == parts[i + 1]);
        }
        lemma_joined_chars(rest, separator, allowed);
        assert(all_chars(parts[0], allowed));
        let tail = separated(rest, separator);
        let j = joined(parts, separator);
        assert forall|i: int| 0 <= i < j.len() implies allowed(#[trigger] j[i]) by {
            if i < parts[0].len() {
                assert(j[i] == parts[0][i]);
            } else {
                assert(j[i] == tail[i - parts[0].len()]);
            }
        }
        let s = separated(parts, separator);
        assert(s =~= separator + j);
        assert forall|i: int| 0 <= i < s.len() implies allowed(#[trigger] s[i]) by {
            if i < separator.len() {
                assert(s[i] == separator[i]);
            } else {
                assert(s[i] == j[i - separator.len()]);
            }
        }
    }
}

/// Where `q` stands neither in `a` nor in `b`, and cannot begin or end
/// inside `separator` nor hold its first character, `q` does not stand
/// in `a`, `separator` and `b` put together.
pub proof fn lemma_apart_excludes(a: Seq<char>, separator: Seq<char>, b: Seq<char>, q: Seq<char>)
    requires
        q.len() > 0,
        separator.len() > 0,
        !contains_text(a, q),
        !contains_text(b, q),
        !separator.contains(q[0]),
        !separator.contains(q.last()),
        !q.contains(separator[0]),
    ensures
        !contains_text(a + separator + b, q),
{
    let s = a + separator + b;
    let la = a.len() as int;
    let ls = separator.len() as int;
    assert forall|k: int| !occurs_at(s, q, k) by {
        if occurs_at(s, q, k) {
            let found = s.subrange(k, k + q.len());
            if k + q.len() <= la {
                assert(a.subrange(k, k + q.len()) =~= found);
                assert(occurs_at(a, q, k));
            } else if k >= la + ls {
                lemma_occurs_behind(a + separator, b, q, k);
                assert(occurs_at(b, q, k - la - ls));
            } else if k >= la {
                assert(found[0] == s[k]);
                assert(s[k] == separator[k - la]);
            } else if k + q.len() <= la + ls {
                assert(found[q.len() - 1] == s[k + q.len() - 1]);
                assert(s[k + q.len() - 1] == separator[k + q.len() - 1 - la]);
            } else {
                assert(found[la - k] == s[la]);
                assert(s[la] == separator[0]);
                assert(q[la - k] == separator[0]);
            }
        }
    }
}

/// Where `q` stands in none of the parts and cannot begin or end inside
/// the separator nor hold its first character, `q` does not stand in the
/// joined text.
pub proof fn lemma_joined_excludes(parts: Seq<Seq<char>>, separator: Seq<char>, q: Seq<char>)
    requires
        q.len() > 0,
        separator.len() > 0,
        forall|i: int| 0 <= i < parts.len() ==> !contains_text(#[trigger] parts[i], q),
        !separator.contains(q[0]),
        !separator.contains(q.last()),
        !q.contains(separator[0]),
    ensures
        !contains_text(joined(parts, separator), q),
    decreases parts.len(),
{
    if parts.len() == 0 {
        assert forall|k: int| !occurs_at(joined(parts, separator), q, k) by {}
    } else {
        let rest = parts.drop_first();
        assert(!contains_text(parts[0], q));
        if rest.len() == 0 {
            assert(joined(parts, separator) =~= parts[0]);
        } else {
            assert forall|i: int| 0 <= i < rest.len() implies !contains_text(#[trigger] rest[i], q) by {
                assert(rest[i] == parts[i + 1]);
            }
            lemma_joined_excludes(rest, separator, q);
            lemma_apart_excludes(parts[0], separator, joined(rest, separator), q);
            assert(joined(parts, separator) =~= parts[0] + separator + joined(rest, separator));
        }
    }
}


/// Whether one of the strings of `list` holds the text of `e`.
pub fn list_contains(list: &Vec<String>, e: &str) -> (b: bool)
    ensures
        b == texts(list@).contains(e@),
{
    let ghost all = texts(list@);
    let mut i: usize = 0;
    while i < list.len()
        invariant
            i <= list.len(),
            all == texts(list@),
            forall|j: int| 0 <= j < i ==> all[j] != e@,
        decreases list.len() - i,
    {
        if same_text(list[i].as_str(), e) {
            assert(all[i as int] == e@);
            return true;
        }
        i += 1;
    }
    false
}


} // verus!
