//! Character-level text operations and their mathematical model.
//!
//! Text is modelled as `Seq<char>`. The executable functions read slices of
//! `char` and hand back positions or sub-slices; every one of them is stated
//! against a specification function of this module.

use vstd::prelude::*;
use vstd::slice::slice_subrange;

verus! {

/// Appends one character to a string (`String::push`): the view grows by
/// exactly that character.
#[verifier::external_body]
fn push_char(s: &mut String, c: char)
    ensures
        final(s)@ == old(s)@.push(c),
{
    s.push(c);
}

/// The characters of a string slice, in order.
pub fn chars_of(s: &str) -> (out: Vec<char>)
    ensures
        out@ == s@,
{
    let mut out: Vec<char> = Vec::new();
    for c in it: s.chars()
        invariant
            it.seq() == s@,
            out@ == it.seq().take(it.index()),
    {
        out.push(c);
    }
    out
}

/// The string made of the given characters, in order.
pub fn string_of(chars: &[char]) -> (s: String)
    ensures
        s@ == chars@,
{
    let mut s = String::new();
    let mut i: usize = 0;
    while i < chars.len()
        invariant
            i <= chars.len(),
            s@ == chars@.take(i as int),
        decreases chars.len() - i,
    {
        push_char(&mut s, chars[i]);
        i += 1;
    }
    s
}

/// Whether `pat` stands in `text` at position `at`.
pub open spec fn occurs_at(text: Seq<char>, pat: Seq<char>, at: int) -> bool {
    0 <= at && at + pat.len() <= text.len() && text.subrange(at, at + pat.len()) == pat
}

/// Whether `text` begins with `pat`.
pub open spec fn has_prefix(text: Seq<char>, pat: Seq<char>) -> bool {
    occurs_at(text, pat, 0)
}

/// Whether `pat` stands somewhere in `text`.
pub open spec fn occurs_in(text: Seq<char>, pat: Seq<char>) -> bool {
    exists|at: int| occurs_at(text, pat, at)
}

/// Whether `at` is the leftmost position at which `pat` stands in `text`.
pub open spec fn is_first_occurrence(text: Seq<char>, pat: Seq<char>, at: int) -> bool {
    occurs_at(text, pat, at) && forall|j: int| 0 <= j < at ==> !occurs_at(text, pat, j)
}

/// The leftmost position at which `pat` stands in `text`, if there is one.
pub open spec fn first_occurrence(text: Seq<char>, pat: Seq<char>) -> Option<int> {
    if occurs_in(text, pat) {
        Some(choose|at: int| is_first_occurrence(text, pat, at))
    } else {
        None
    }
}

/// A leftmost occurrence is the one `first_occurrence` names.
pub proof fn lemma_first_occurrence(text: Seq<char>, pat: Seq<char>, at: int)
    requires
        is_first_occurrence(text, pat, at),
    ensures
        first_occurrence(text, pat) == Some(at),
{
    let chosen = choose|j: int| is_first_occurrence(text, pat, j);
    assert(occurs_at(text, pat, at));
    assert(is_first_occurrence(text, pat, chosen));
    if chosen < at {
        assert(!occurs_at(text, pat, chosen));
    }
    if at < chosen {
        assert(!occurs_at(text, pat, at));
    }
}

/// What `first_occurrence` names is a leftmost occurrence, and it names one
/// whenever the pattern occurs at all.
pub proof fn lemma_first_occurrence_is_leftmost(text: Seq<char>, pat: Seq<char>)
    ensures
        match first_occurrence(text, pat) {
            Some(at) => is_first_occurrence(text, pat, at),
            None => forall|j: int| !occurs_at(text, pat, j),
        },
{
    if occurs_in(text, pat) {
        let some = choose|j: int| occurs_at(text, pat, j);
        lemma_leftmost_exists(text, pat, some);
    }
}

proof fn lemma_leftmost_exists(text: Seq<char>, pat: Seq<char>, at: int)
    requires
        occurs_at(text, pat, at),
    ensures
        exists|j: int| is_first_occurrence(text, pat, j),
    decreases at,
{
    if forall|j: int| 0 <= j < at ==> !occurs_at(text, pat, j) {
        assert(is_first_occurrence(text, pat, at));
    } else {
        let earlier = choose|j: int| 0 <= j < at && occurs_at(text, pat, j);
        lemma_leftmost_exists(text, pat, earlier);
    }
}

/// Tests whether `pat` stands in `text` at position `at`.
pub fn matches_at(text: &[char], pat: &[char], at: usize) -> (found: bool)
    ensures
        found == occurs_at(text@, pat@, at as int),
{
    if pat.len() > text.len() || at > text.len() - pat.len() {
        return false;
    }
    let mut k: usize = 0;
    while k < pat.len()
        invariant
            k <= pat.len(),
            at + pat.len() <= text.len(),
            forall|j: int| 0 <= j < k ==> text@[at + j] == pat@[j],
        decreases pat.len() - k,
    {
        if text[at + k] != pat[k] {
            assert(text@.subrange(at as int, at + pat.len())[k as int] == text@[at + k]);
            return false;
        }
        k += 1;
    }
    assert(text@.subrange(at as int, at + pat.len()) =~= pat@);
    true
}

/// Tests whether `text` begins with `pat`.
pub fn starts_with(text: &[char], pat: &[char]) -> (found: bool)
    ensures
        found == has_prefix(text@, pat@),
{
    matches_at(text, pat, 0)
}

/// Finds the leftmost position at which `pat` stands in `text`.
pub fn find_first(text: &[char], pat: &[char]) -> (found: Option<usize>)
    ensures
        match found {
            Some(at) => first_occurrence(text@, pat@) == Some(at as int) && occurs_at(
                text@,
                pat@,
                at as int,
            ),
            None => first_occurrence(text@, pat@).is_none() && !occurs_in(text@, pat@),
        },
{
    let mut at: usize = 0;
    while at <= text.len() && text.len() - at >= pat.len()
        invariant
            forall|j: int| 0 <= j < at ==> !occurs_at(text@, pat@, j),
        decreases text.len() + 1 - at,
    {
        if matches_at(text, pat, at) {
            proof {
                lemma_first_occurrence(text@, pat@, at as int);
            }
            return Some(at);
        }
        if pat.len() == 0 {
            assert(text@.subrange(at as int, at as int) =~= pat@);
        }
        at += 1;
    }
    assert(forall|j: int| !occurs_at(text@, pat@, j));
    None
}

/// Tests whether `pat` stands somewhere in `text`.
pub fn contains_text(text: &[char], pat: &[char]) -> (found: bool)
    ensures
        found == occurs_in(text@, pat@),
{
    find_first(text, pat).is_some()
}

/// Finds the leftmost position of the character `c` in `text`.
pub fn find_char(text: &[char], c: char) -> (found: Option<usize>)
    ensures
        match found {
            Some(at) => first_occurrence(text@, seq![c]) == Some(at as int) && at < text@.len()
                && text@[at as int] == c,
            None => first_occurrence(text@, seq![c]).is_none(),
        },
{
    let ghost pat = seq![c];
    let mut at: usize = 0;
    while at < text.len()
        invariant
            at <= text.len(),
            pat == seq![c],
            forall|j: int| 0 <= j < at ==> !occurs_at(text@, pat, j),
        decreases text.len() - at,
    {
        if text[at] == c {
            proof {
                assert(text@.subrange(at as int, at + 1) =~= pat);
                lemma_first_occurrence(text@, pat, at as int);
            }
            return Some(at);
        }
        assert(text@.subrange(at as int, at + 1)[0] == text@[at as int]);
        at += 1;
    }
    assert(forall|j: int| !occurs_at(text@, pat, j));
    None
}

/// Tests whether two texts are the same.
pub fn same_chars(a: &[char], b: &[char]) -> (same: bool)
    ensures
        same == (a@ == b@),
{
    if a.len() != b.len() {
        return false;
    }
    let mut i: usize = 0;
    while i < a.len()
        invariant
            i <= a.len(),
            a.len() == b.len(),
            forall|k: int| 0 <= k < i ==> a@[k] == b@[k],
        decreases a.len() - i,
    {
        if a[i] != b[i] {
            return false;
        }
        i += 1;
    }
    assert(a@ =~= b@);
    true
}

/// Tests whether two string slices hold the same text.
pub fn same_text(a: &str, b: &str) -> (same: bool)
    ensures
        same == (a@ == b@),
{
    let left = chars_of(a);
    let right = chars_of(b);
    same_chars(&left, &right)
}

/// Whether `c` has the Unicode property `White_Space`.
pub open spec fn is_whitespace(c: char) -> bool {
    let u = c as int;
    ||| 0x09 <= u <= 0x0D
    ||| u == 0x20
    ||| u == 0x85
    ||| u == 0xA0
    ||| u == 0x1680
    ||| 0x2000 <= u <= 0x200A
    ||| u == 0x2028
    ||| u == 0x2029
    ||| u == 0x202F
    ||| u == 0x205F
    ||| u == 0x3000
}

/// Tests whether `c` has the Unicode property `White_Space`.
pub fn char_is_whitespace(c: char) -> (b: bool)
    ensures
        b == is_whitespace(c),
{
    let u: u32 = c as u32;
    (0x09 <= u && u <= 0x0D) || u == 0x20 || u == 0x85 || u == 0xA0 || u == 0x1680 || (0x2000 <= u
        && u <= 0x200A) || u == 0x2028 || u == 0x2029 || u == 0x202F || u == 0x205F || u == 0x3000
}

/// `s` without its leading whitespace.
pub open spec fn trim_start(s: Seq<char>) -> Seq<char>
    decreases s.len(),
{
    if s.len() > 0 && is_whitespace(s.first()) {
        trim_start(s.drop_first())
    } else {
        s
    }
}

/// `s` without its trailing whitespace.
pub open spec fn trim_end(s: Seq<char>) -> Seq<char>
    decreases s.len(),
{
    if s.len() > 0 && is_whitespace(s.last()) {
        trim_end(s.drop_last())
    } else {
        s
    }
}

/// `s` without its leading and trailing whitespace.
pub open spec fn trim(s: Seq<char>) -> Seq<char> {
    trim_end(trim_start(s))
}

/// The sub-slice of `text` left when leading and trailing whitespace is cut off.
pub fn trimmed(text: &[char]) -> (out: &[char])
    ensures
        out@ == trim(text@),
{
    let n: usize = text.len();
    let mut a: usize = 0;
    assert(text@.subrange(0, n as int) =~= text@);
    while a < n && char_is_whitespace(text[a])
        invariant
            a <= n,
            n == text@.len(),
            trim_start(text@) == trim_start(text@.subrange(a as int, n as int)),
        decreases n - a,
    {
        assert(text@.subrange(a as int, n as int).drop_first() =~= text@.subrange(
            a + 1,
            n as int,
        ));
        a += 1;
    }
    let mut b: usize = n;
    while b > a && char_is_whitespace(text[b - 1])
        invariant
            a <= b <= n,
            n == text@.len(),
            trim(text@) == trim_end(text@.subrange(a as int, b as int)),
        decreases b - a,
    {
        assert(text@.subrange(a as int, b as int).drop_last() =~= text@.subrange(
            a as int,
            b - 1,
        ));
        b -= 1;
    }
    slice_subrange(text, a, b)
}

/// `s` with every leading repetition of `pat` removed.
pub open spec fn strip_prefixes(s: Seq<char>, pat: Seq<char>) -> Seq<char>
    decreases s.len(),
{
    if pat.len() > 0 && has_prefix(s, pat) {
        strip_prefixes(s.skip(pat.len() as int), pat)
    } else {
        s
    }
}

/// The sub-slice of `text` left when every leading repetition of `pat` is cut off.
pub fn without_prefixes<'a>(text: &'a [char], pat: &[char]) -> (out: &'a [char])
    ensures
        out@ == strip_prefixes(text@, pat@),
{
    let n: usize = text.len();
    let mut a: usize = 0;
    if pat.len() == 0 {
        assert(text@.subrange(0, n as int) =~= text@);
        return slice_subrange(text, 0, n);
    }
    assert(text@.subrange(0, n as int) =~= text@);
    while matches_at(text, pat, a)
        invariant
            a <= n,
            n == text@.len(),
            pat@.len() > 0,
            strip_prefixes(text@, pat@) == strip_prefixes(text@.subrange(a as int, n as int), pat@),
        decreases n - a,
    {
        let ghost rest = text@.subrange(a as int, n as int);
        proof {
            lemma_occurs_in_suffix(text@, pat@, a as int);
        }
        assert(has_prefix(rest, pat@));
        assert(rest.skip(pat@.len() as int) =~= text@.subrange(a + pat@.len(), n as int));
        a += pat.len();
    }
    proof {
        lemma_occurs_in_suffix(text@, pat@, a as int);
        assert(!has_prefix(text@.subrange(a as int, n as int), pat@));
    }
    slice_subrange(text, a, n)
}

/// An occurrence in a suffix is an occurrence in the whole, shifted.
pub proof fn lemma_occurs_in_suffix(text: Seq<char>, pat: Seq<char>, from: int)
    requires
        0 <= from <= text.len(),
    ensures
        forall|j: int| #[trigger]
            occurs_at(text.subrange(from, text.len() as int), pat, j) == (0 <= j && occurs_at(
                text,
                pat,
                from + j,
            )),
{
    let rest = text.subrange(from, text.len() as int);
    assert forall|j: int| #[trigger]
        occurs_at(rest, pat, j) == (0 <= j && occurs_at(text, pat, from + j)) by {
        if 0 <= j && j + pat.len() <= rest.len() {
            assert(rest.subrange(j, j + pat.len()) =~= text.subrange(
                from + j,
                from + j + pat.len(),
            ));
        }
    }
}

/// Lexicographic order on text by code point: whether `a` comes strictly before `b`.
pub open spec fn lex_less(a: Seq<char>, b: Seq<char>) -> bool
    decreases a.len(),
{
    if b.len() == 0 {
        false
    } else if a.len() == 0 {
        true
    } else if a.first() != b.first() {
        (a.first() as int) < (b.first() as int)
    } else {
        lex_less(a.drop_first(), b.drop_first())
    }
}

fn code_point(c: char) -> (u: u32)
    ensures
        u == c as int,
{
    c as u32
}

/// Tests whether `a` comes strictly before `b` in lexicographic order by code point.
pub fn is_lex_less(a: &[char], b: &[char]) -> (less: bool)
    ensures
        less == lex_less(a@, b@),
{
    let mut i: usize = 0;
    assert(a@.skip(0) =~= a@ && b@.skip(0) =~= b@);
    while i < a.len() && i < b.len()
        invariant
            i <= a.len(),
            i <= b.len(),
            lex_less(a@, b@) == lex_less(a@.skip(i as int), b@.skip(i as int)),
        decreases a.len() - i,
    {
        let x: char = a[i];
        let y: char = b[i];
        if x != y {
            return code_point(x) < code_point(y);
        }
        assert(a@.skip(i as int).drop_first() =~= a@.skip(i + 1));
        assert(b@.skip(i as int).drop_first() =~= b@.skip(i + 1));
        i += 1;
    }
    i < b.len()
}

/// No text comes before itself.
pub proof fn lemma_lex_less_irreflexive(a: Seq<char>)
    ensures
        !lex_less(a, a),
    decreases a.len(),
{
    if a.len() > 0 {
        lemma_lex_less_irreflexive(a.drop_first());
    }
}

/// Of two different texts exactly one comes before the other.
pub proof fn lemma_lex_less_total(a: Seq<char>, b: Seq<char>)
    ensures
        a != b ==> (lex_less(a, b) != lex_less(b, a)),
        a == b ==> !lex_less(a, b) && !lex_less(b, a),
    decreases a.len(),
{
    if a == b {
        lemma_lex_less_irreflexive(a);
    } else if a.len() > 0 && b.len() > 0 {
        if a.first() == b.first() {
            assert(a.drop_first() != b.drop_first()) by {
                if a.drop_first() == b.drop_first() {
                    assert(a =~= seq![a.first()] + a.drop_first());
                    assert(b =~= seq![b.first()] + b.drop_first());
                }
            }
            lemma_lex_less_total(a.drop_first(), b.drop_first());
        } else {
            assert(a.first() as int != b.first() as int);
        }
    } else if a.len() == 0 {
        assert(b.len() > 0) by {
            if b.len() == 0 {
                assert(a =~= b);
            }
        }
    }
}

/// The order is transitive.
pub proof fn lemma_lex_less_transitive(a: Seq<char>, b: Seq<char>, c: Seq<char>)
    requires
        lex_less(a, b),
        lex_less(b, c),
    ensures
        lex_less(a, c),
    decreases a.len(),
{
    if a.len() > 0 {
        if a.first() == b.first() && b.first() == c.first() {
            lemma_lex_less_transitive(a.drop_first(), b.drop_first(), c.drop_first());
        }
    }
}

/// The lower-case form that `str::to_lowercase` gives a text.
pub uninterp spec fn lowercase_of(s: Seq<char>) -> Seq<char>;

/// The lower-case form of a string slice (`str::to_lowercase`), which
/// follows the Unicode case mappings and depends on the text alone.
#[verifier::external_body]
pub(crate) fn to_lowercase(s: &str) -> (lower: String)
    ensures
        lower@ == lowercase_of(s@),
{
    s.to_lowercase()
}

/// The character that writes the digit `d`.
pub open spec fn digit_char(d: int) -> char
    recommends
        0 <= d < 10,
{
    if d == 0 {
        '0'
    } else if d == 1 {
        '1'
    } else if d == 2 {
        '2'
    } else if d == 3 {
        '3'
    } else if d == 4 {
        '4'
    } else if d == 5 {
        '5'
    } else if d == 6 {
        '6'
    } else if d == 7 {
        '7'
    } else if d == 8 {
        '8'
    } else {
        '9'
    }
}

/// The decimal numeral of `n`, without leading zeros.
pub open spec fn decimal(n: nat) -> Seq<char>
    decreases n,
{
    if n < 10 {
        seq![digit_char(n as int)]
    } else {
        decimal(n / 10).push(digit_char((n % 10) as int))
    }
}

fn digit_of(d: usize) -> (c: char)
    requires
        d < 10,
    ensures
        c == digit_char(d as int),
{
    if d == 0 {
        '0'
    } else if d == 1 {
        '1'
    } else if d == 2 {
        '2'
    } else if d == 3 {
        '3'
    } else if d == 4 {
        '4'
    } else if d == 5 {
        '5'
    } else if d == 6 {
        '6'
    } else if d == 7 {
        '7'
    } else if d == 8 {
        '8'
    } else {
        '9'
    }
}

/// Appends the decimal numeral of `n` to `out`.
pub fn push_decimal(out: &mut Vec<char>, n: usize)
    ensures
        final(out)@ == old(out)@ + decimal(n as nat),
    decreases n,
{
    if n < 10 {
        out.push(digit_of(n));
        assert(final(out)@ =~= old(out)@ + decimal(n as nat));
    } else {
        push_decimal(out, n / 10);
        out.push(digit_of(n % 10));
        assert(out@ =~= old(out)@ + decimal(n as nat));
    }
}

/// Appends the characters of `s` to `out`.
pub fn push_str(out: &mut Vec<char>, s: &str)
    ensures
        final(out)@ == old(out)@ + s@,
{
    for c in it: s.chars()
        invariant
            it.seq() == s@,
            out@ == old(out)@ + it.seq().take(it.index()),
    {
        out.push(c);
        assert(it.seq().take(it.index() + 1) =~= it.seq().take(it.index()).push(c));
    }
    assert(s@.take(s@.len() as int) =~= s@);
}

/// Appends the characters of `chars` to `out`.
pub fn push_chars(out: &mut Vec<char>, chars: &[char])
    ensures
        final(out)@ == old(out)@ + chars@,
{
    let mut i: usize = 0;
    while i < chars.len()
        invariant
            i <= chars.len(),
            out@ == old(out)@ + chars@.take(i as int),
        decreases chars.len() - i,
    {
        out.push(chars[i]);
        assert(chars@.take(i + 1) =~= chars@.take(i as int).push(chars@[i as int]));
        i += 1;
    }
    assert(chars@.take(chars@.len() as int) =~= chars@);
}

/// The line without a carriage return at its end.
pub open spec fn strip_cr(line: Seq<char>) -> Seq<char> {
    if line.len() > 0 && line.last() == '\r' {
        line.drop_last()
    } else {
        line
    }
}

/// The lines of a text. A line ends at a line feed; the line feed, and a
/// carriage return just before it, are no part of the line. What follows the
/// last line feed is a line of its own unless it is empty.
pub open spec fn lines_of(text: Seq<char>) -> Seq<Seq<char>>
    decreases text.len(),
{
    if text.len() == 0 {
        Seq::empty()
    } else {
        match first_occurrence(text, seq!['\n']) {
            Some(at) => if 0 <= at < text.len() {
                seq![strip_cr(text.take(at))] + lines_of(text.skip(at + 1))
            } else {
                seq![text]
            },
            None => seq![text],
        }
    }
}

/// Splits a text into its lines.
pub fn split_lines(text: &[char]) -> (lines: Vec<Vec<char>>)
    ensures
        lines@.len() == lines_of(text@).len(),
        forall|i: int| 0 <= i < lines@.len() ==> (#[trigger] lines@[i])@ == lines_of(text@)[i],
{
    let n: usize = text.len();
    let mut lines: Vec<Vec<char>> = Vec::new();
    let mut pos: usize = 0;
    assert(text@.subrange(0, n as int) =~= text@);
    while pos < n
        invariant
            pos <= n,
            n == text@.len(),
            lines_of(text@).len() == lines@.len() + lines_of(text@.subrange(pos as int, n as int)).len(),
            forall|i: int| 0 <= i < lines@.len() ==> (#[trigger] lines@[i])@ == lines_of(text@)[i],
            forall|i: int|
                0 <= i < lines_of(text@.subrange(pos as int, n as int)).len() ==> lines_of(
                    text@,
                )[lines@.len() + i] == #[trigger] lines_of(text@.subrange(pos as int, n as int))[i],
        decreases n - pos,
    {
        let rest = slice_subrange(text, pos, n);
        let ghost rest_lines = lines_of(rest@);
        match find_char(rest, '\n') {
            Some(at) => {
                proof {
                    lemma_first_occurrence_is_leftmost(rest@, seq!['\n']);
                    assert(rest@.skip(at + 1) =~= text@.subrange(pos + at + 1, n as int));
                }
                let mut end: usize = at;
                if end > 0 && rest[end - 1] == '\r' {
                    end -= 1;
                }
                let line = slice_subrange(rest, 0, end);
                assert(line@ =~= strip_cr(rest@.take(at as int)));
                let mut owned: Vec<char> = Vec::new();
                push_chars(&mut owned, line);
                assert(owned@ =~= line@);
                lines.push(owned);
                pos = pos + at + 1;
                proof {
                    let tail = lines_of(text@.subrange(pos as int, n as int));
                    assert(rest_lines =~= seq![line@] + tail);
                    assert forall|i: int| 0 <= i < tail.len() implies lines_of(
                        text@,
                    )[lines@.len() + i] == #[trigger] tail[i] by {
                        assert(rest_lines[i + 1] == tail[i]);
                    }
                    assert(rest_lines[0] == line@);
                }
            },
            None => {
                let mut owned: Vec<char> = Vec::new();
                push_chars(&mut owned, rest);
                assert(owned@ =~= rest@);
                lines.push(owned);
                pos = n;
                proof {
                    assert(rest_lines =~= seq![rest@]);
                    assert(rest_lines[0] == rest@);
                    assert(text@.subrange(n as int, n as int).len() == 0);
                }
            },
        }
    }
    lines
}

} // verus!
