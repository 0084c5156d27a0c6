//! Text building blocks: searching, joining and trimming.

use vstd::prelude::*;
use vstd::string::{StrSliceExecFns, StringExecFns};
use vstd::utf8::{decode_utf8, valid_utf8};

verus! {

/// The position of the first `c` in `s`, if there is one.
pub open spec fn first_index(s: Seq<char>, c: char) -> Option<int>
    decreases s.len(),
{
    if s.len() == 0 {
        None
    } else if s[0] == c {
        Some(0)
    } else {
        match first_index(s.skip(1), c) {
            Some(i) => Some(i + 1),
            None => None,
        }
    }
}

/// What `first_index` finds, said without recursion.
pub proof fn lemma_first_index(s: Seq<char>, c: char)
    ensures
        match first_index(s, c) {
            Some(i) => 0 <= i < s.len() && s[i] == c && forall|j: int| 0 <= j < i ==> s[j] != c,
            None => forall|j: int| 0 <= j < s.len() ==> s[j] != c,
        },
    decreases s.len(),
{
    if s.len() > 0 {
        let t = s.skip(1);
        lemma_first_index(t, c);
        assert forall|j: int| 1 <= j < s.len() implies s[j] == t[j - 1] by {}
    }
}

/// `first_index` is the only value with its defining property.
pub proof fn lemma_first_index_is(s: Seq<char>, c: char, r: Option<int>)
    requires
        match r {
            Some(i) => 0 <= i < s.len() && s[i] == c && forall|j: int| 0 <= j < i ==> s[j] != c,
            None => forall|j: int| 0 <= j < s.len() ==> s[j] != c,
        },
    ensures
        first_index(s, c) == r,
{
    lemma_first_index(s, c);
}

/// The characters of a string.
pub fn chars_of(s: &str) -> (v: Vec<char>)
    ensures
        v@ == s@,
{
    let mut v: Vec<char> = Vec::new();
    for c in it: s.chars()
        invariant
            it.seq() == s@,
            v@ == s@.take(it.index() as int),
    {
        v.push(c);
    }
    assert(s@.take(s@.len() as int) == s@);
    v
}

/// Finds the first `c` in `s` by character position.
pub fn find_char(s: &str, c: char) -> (r: Option<usize>)
    ensures
        match r {
            Some(i) => first_index(s@, c) == Some(i as int),
            None => first_index(s@, c) == None::<int>,
        },
{
    let v = chars_of(s);
    let mut i: usize = 0;
    while i < v.len()
        invariant
            i <= v.len(),
            v@ == s@,
            forall|j: int| 0 <= j < i ==> s@[j] != c,
        decreases v.len() - i,
    {
        if v[i] == c {
            proof {
                lemma_first_index_is(s@, c, Some(i as int));
            }
            return Some(i);
        }
        i += 1;
    }
    proof {
        lemma_first_index_is(s@, c, None);
    }
    None
}

/// Splits `s` around the first `c`.
pub fn split_once<'a>(s: &'a str, c: char) -> (r: Option<(&'a str, &'a str)>)
    ensures
        match r {
            Some((a, b)) => {
                &&& first_index(s@, c) is Some
                &&& a@ == s@.take(first_index(s@, c)->0)
                &&& b@ == s@.skip(first_index(s@, c)->0 + 1)
            },
            None => first_index(s@, c) is None,
        },
{
    match find_char(s, c) {
        Some(i) => {
            proof {
                lemma_first_index(s@, c);
            }
            let n: usize = s.unicode_len();
            let a = s.substring_char(0, i);
            let b = s.substring_char(i + 1, n);
            assert(a@ == s@.take(i as int));
            assert(b@ == s@.skip(i + 1));
            Some((a, b))
        },
        None => None,
    }
}

/// What `String::from_utf8_lossy` makes of bytes.
pub uninterp spec fn utf8_lossy(bytes: Seq<u8>) -> Seq<char>;

/// The text that bytes are shown as: what they encode, if they are valid UTF-8.
pub open spec fn shown_text(bytes: Seq<u8>) -> Seq<char> {
    if valid_utf8(bytes) {
        decode_utf8(bytes)
    } else {
        utf8_lossy(bytes)
    }
}

/// `String::from_utf8_lossy`, made into an owned string. Bytes that are valid
/// UTF-8 give the text that they encode. What stands in for invalid bytes is
/// not stated, only that it depends on the bytes alone.
#[verifier::external_body]
pub(crate) fn lossy_text(bytes: &[u8]) -> (r: String)
    ensures
        r@ == utf8_lossy(bytes@),
        valid_utf8(bytes@) ==> r@ == decode_utf8(bytes@),
{
    String::from_utf8_lossy(bytes).into_owned()
}

/// `std::str::from_utf8`: the text that the bytes encode, if they are valid UTF-8.
#[verifier::external_body]
pub(crate) fn utf8_text(bytes: &[u8]) -> (r: Option<&str>)
    ensures
        match r {
            Some(s) => valid_utf8(bytes@) && s@ == decode_utf8(bytes@),
            None => !valid_utf8(bytes@),
        },
{
    match std::str::from_utf8(bytes) {
        Ok(s) => Some(s),
        Err(_) => None,
    }
}

/// Joins three pieces of text.
pub fn join3(a: &str, b: &str, c: &str) -> (r: String)
    ensures
        r@ == a@ + b@ + c@,
{
    let mut out = String::new();
    out.append(a);
    out.append(b);
    out.append(c);
    proof {
        assert(Seq::<char>::empty() + a@ == a@);
    }
    out
}

/// `String::push`: appends a character.
pub assume_specification[ String::push ](s: &mut String, c: char)
    ensures
        final(s)@ == old(s)@.push(c),
;

/// An owned copy of a text.
pub fn owned(s: &str) -> (r: String)
    ensures
        r@ == s@,
{
    s.to_owned()
}

/// Whether two texts are the same.
pub fn same_text(a: &str, b: &str) -> (r: bool)
    ensures
        r == (a@ == b@),
{
    let x = chars_of(a);
    let y = chars_of(b);
    if x.len() != y.len() {
        return false;
    }
    let mut i: usize = 0;
    while i < x.len()
        invariant
            i <= x@.len(),
            x@ == a@,
            y@ == b@,
            x@.len() == y@.len(),
            forall|j: int| 0 <= j < i ==> x@[j] == y@[j],
        decreases x@.len() - i,
    {
        if x[i] != y[i] {
            assert(a@[i as int] != b@[i as int]);
            return false;
        }
        i += 1;
    }
    assert(a@ == b@);
    true
}

/// Whether a character has the Unicode property `White_Space`.
pub open spec fn is_space(c: char) -> bool {
    let n = c as u32;
    9 <= n <= 13 || n == 0x20 || n == 0x85 || n == 0xA0 || n == 0x1680 || 0x2000 <= n <= 0x200A
        || n == 0x2028 || n == 0x2029 || n == 0x202F || n == 0x205F || n == 0x3000
}

/// Whether a character is a control character (general category `Cc`).
pub open spec fn is_control_char(c: char) -> bool {
    c as u32 <= 0x1F || 0x7F <= c as u32 <= 0x9F
}

pub fn is_whitespace(c: char) -> (r: bool)
    ensures
        r == is_space(c),
{
    let n: u32 = c as u32;
    (9 <= n && n <= 13) || n == 0x20 || n == 0x85 || n == 0xA0 || n == 0x1680 || (0x2000 <= n && n
        <= 0x200A) || n == 0x2028 || n == 0x2029 || n == 0x202F || n == 0x205F || n == 0x3000
}

pub fn is_control(c: char) -> (r: bool)
    ensures
        r == is_control_char(c),
{
    let n: u32 = c as u32;
    n <= 0x1F || (0x7F <= n && n <= 0x9F)
}

/// Leading white space.
pub open spec fn leading_spaces(s: Seq<char>) -> nat
    decreases s.len(),
{
    if s.len() > 0 && is_space(s[0]) {
        1 + leading_spaces(s.skip(1))
    } else {
        0
    }
}

/// The text without leading white space.
pub open spec fn trimmed_start(s: Seq<char>) -> Seq<char> {
    s.skip(leading_spaces(s) as int)
}

/// The text without trailing white space.
pub open spec fn trimmed_end(s: Seq<char>) -> Seq<char>
    decreases s.len(),
{
    if s.len() > 0 && is_space(s.last()) {
        trimmed_end(s.drop_last())
    } else {
        s
    }
}

/// The text without white space at either end.
pub open spec fn trimmed(s: Seq<char>) -> Seq<char> {
    trimmed_end(trimmed_start(s))
}

/// Leading characters that are not white space.
pub open spec fn word_len(s: Seq<char>) -> nat
    decreases s.len(),
{
    if s.len() > 0 && !is_space(s[0]) {
        1 + word_len(s.skip(1))
    } else {
        0
    }
}

pub proof fn lemma_word_len(s: Seq<char>)
    ensures
        word_len(s) <= s.len(),
        leading_spaces(s) <= s.len(),
        leading_spaces(s) < s.len() ==> !is_space(s[leading_spaces(s) as int]),
    decreases s.len(),
{
    if s.len() > 0 {
        lemma_word_len(s.skip(1));
    }
}

/// The words of a text: what stands between white space.
pub open spec fn words(s: Seq<char>) -> Seq<Seq<char>>
    decreases s.len(),
    via words_decreases
{
    let t = trimmed_start(s);
    if t.len() == 0 {
        Seq::empty()
    } else {
        seq![t.take(word_len(t) as int)] + words(t.skip(word_len(t) as int))
    }
}

#[via_fn]
proof fn words_decreases(s: Seq<char>) {
    let t = trimmed_start(s);
    lemma_word_len(s);
    if t.len() > 0 {
        lemma_word_len(t);
        assert(!is_space(t[0]));
        assert(word_len(t) >= 1);
    }
}

proof fn lemma_skip_space(s: Seq<char>, i: int)
    requires
        0 <= i < s.len(),
    ensures
        is_space(s[i]) ==> leading_spaces(s.skip(i)) == 1 + leading_spaces(s.skip(i + 1)),
        !is_space(s[i]) ==> leading_spaces(s.skip(i)) == 0,
        !is_space(s[i]) ==> word_len(s.skip(i)) == 1 + word_len(s.skip(i + 1)),
        is_space(s[i]) ==> word_len(s.skip(i)) == 0,
{
    assert(s.skip(i).skip(1) == s.skip(i + 1));
}

/// The text without white space at either end.
pub fn trim<'a>(s: &'a str) -> (r: &'a str)
    ensures
        r@ == trimmed(s@),
{
    let chars = chars_of(s);
    let mut from: usize = 0;
    assert(s@.skip(0) == s@);
    while from < chars.len() && is_whitespace(chars[from])
        invariant
            from <= chars@.len(),
            chars@ == s@,
            leading_spaces(s@) == from + leading_spaces(s@.skip(from as int)),
        decreases chars@.len() - from,
    {
        proof {
            lemma_skip_space(s@, from as int);
        }
        from += 1;
    }
    proof {
        if from < s@.len() {
            lemma_skip_space(s@, from as int);
        }
    }
    assert(leading_spaces(s@) == from);
    let ghost t = trimmed_start(s@);
    let mut to: usize = chars.len();
    assert(t.take(t.len() as int) == t);
    while to > from && is_whitespace(chars[to - 1])
        invariant
            from <= to <= chars@.len(),
            chars@ == s@,
            t == s@.skip(from as int),
            trimmed_end(t) == trimmed_end(t.take(to - from)),
        decreases to,
    {
        let ghost u = t.take(to - from);
        assert(u.last() == chars@[to - 1]);
        assert(u.drop_last() == t.take(to - from - 1));
        to -= 1;
    }
    proof {
        let u = t.take(to - from);
        if u.len() > 0 {
            assert(u.last() == chars@[to - 1]);
        }
        assert(trimmed_end(u) == u);
        assert(s@.subrange(from as int, to as int) == u);
    }
    s.substring_char(from, to)
}

/// The words of a text, as mathematical values.
pub open spec fn texts_view(v: Seq<String>) -> Seq<Seq<char>> {
    Seq::new(v.len(), |i: int| v[i]@)
}

/// The words of a text.
pub fn split_whitespace(s: &str) -> (r: Vec<String>)
    ensures
        texts_view(r@) == words(s@),
{
    let chars = chars_of(s);
    let mut out: Vec<String> = Vec::new();
    let mut i: usize = 0;
    assert(s@.skip(0) == s@);
    assert(texts_view(out@) + words(s@) == words(s@));
    while i < chars.len()
        invariant
            i <= chars@.len(),
            chars@ == s@,
            texts_view(out@) + words(s@.skip(i as int)) == words(s@),
        decreases chars@.len() - i,
    {
        let ghost rest = s@.skip(i as int);
        let mut a: usize = i;
        while a < chars.len() && is_whitespace(chars[a])
            invariant
                i <= a <= chars@.len(),
                chars@ == s@,
                rest == s@.skip(i as int),
                leading_spaces(rest) == a - i + leading_spaces(s@.skip(a as int)),
            decreases chars@.len() - a,
        {
            proof {
                lemma_skip_space(s@, a as int);
            }
            a += 1;
        }
        proof {
            if a < s@.len() {
                lemma_skip_space(s@, a as int);
            }
            assert(leading_spaces(rest) == a - i);
            assert(trimmed_start(rest) == s@.skip(a as int));
        }
        let ghost t = s@.skip(a as int);
        if a == chars.len() {
            assert(words(rest) == Seq::<Seq<char>>::empty());
            assert(texts_view(out@) + words(rest) == texts_view(out@));
            return out;
        }
        let mut b: usize = a;
        while b < chars.len() && !is_whitespace(chars[b])
            invariant
                a <= b <= chars@.len(),
                chars@ == s@,
                t == s@.skip(a as int),
                word_len(t) == b - a + word_len(s@.skip(b as int)),
            decreases chars@.len() - b,
        {
            proof {
                lemma_skip_space(s@, b as int);
            }
            b += 1;
        }
        proof {
            if b < s@.len() {
                lemma_skip_space(s@, b as int);
            }
            assert(word_len(t) == b - a);
            assert(s@.subrange(a as int, b as int) == t.take(b - a));
            assert(t.skip(b - a) == s@.skip(b as int));
        }
        let ghost before = texts_view(out@);
        out.push(s.substring_char(a, b).to_owned());
        proof {
            assert(texts_view(out@) == before.push(t.take(b - a)));
            assert(words(rest) == seq![t.take(b - a)] + words(s@.skip(b as int)));
            assert(texts_view(out@) + words(s@.skip(b as int)) == before + words(rest));
            lemma_skip_space(s@, a as int);
        }
        i = b;
    }
    assert(s@.skip(i as int) == Seq::<char>::empty());
    assert(words(Seq::<char>::empty()) == Seq::<Seq<char>>::empty());
    assert(texts_view(out@) + Seq::<Seq<char>>::empty() == texts_view(out@));
    out
}

/// Whether a text begins with another.
pub open spec fn begins_with(s: Seq<char>, p: Seq<char>) -> bool {
    p.len() <= s.len() && s.take(p.len() as int) == p
}

/// What follows the prefix `p` in `s`, if `s` begins with it.
pub fn strip_prefix<'a>(s: &'a str, p: &str) -> (r: Option<&'a str>)
    ensures
        match r {
            Some(rest) => begins_with(s@, p@) && rest@ == s@.skip(p@.len() as int),
            None => !begins_with(s@, p@),
        },
{
    let n: usize = s.unicode_len();
    let m: usize = p.unicode_len();
    if m > n {
        return None;
    }
    let head = s.substring_char(0, m);
    assert(head@ == s@.take(m as int));
    if same_text(head, p) {
        let rest = s.substring_char(m, n);
        assert(rest@ == s@.skip(m as int));
        Some(rest)
    } else {
        None
    }
}

/// A text filled up with blanks to a width.
pub open spec fn left_aligned(s: Seq<char>, width: nat) -> Seq<char> {
    if s.len() >= width {
        s
    } else {
        s + Seq::new((width - s.len()) as nat, |i: int| ' ')
    }
}

/// A text filled up with blanks to a width.
pub fn pad_right(s: &str, width: usize) -> (r: String)
    ensures
        r@ == left_aligned(s@, width as nat),
{
    let mut n: usize = s.unicode_len();
    let mut out = s.to_owned();
    assert(out@ == s@ + Seq::new(0, |i: int| ' '));
    while n < width
        invariant
            s@.len() <= n,
            n <= width || n == s@.len(),
            out@ == s@ + Seq::new((n - s@.len()) as nat, |i: int| ' '),
        decreases width - n,
    {
        out.push(' ');
        assert(out@ == s@ + Seq::new((n + 1 - s@.len()) as nat, |i: int| ' '));
        n += 1;
    }
    assert(out@ == left_aligned(s@, width as nat));
    out
}

/// Trimming is done once and for all, and leaves no white space at either end.
pub proof fn law_trimmed_text_has_no_outer_space(s: Seq<char>)
    ensures
        trimmed(s).len() > 0 ==> !is_space(trimmed(s)[0]) && !is_space(trimmed(s).last()),
        trimmed(trimmed(s)) == trimmed(s),
{
    lemma_word_len(s);
    let t = trimmed_start(s);
    lemma_trimmed_end(t);
    let u = trimmed(s);
    if u.len() > 0 {
        assert(u[0] == t[0]);
        assert(t[0] == s[leading_spaces(s) as int]);
    }
    assert(leading_spaces(u) == 0);
    assert(u.skip(0) == u);
}

proof fn lemma_trimmed_end(s: Seq<char>)
    ensures
        trimmed_end(s).len() <= s.len(),
        trimmed_end(s) == s.take(trimmed_end(s).len() as int),
        trimmed_end(s).len() > 0 ==> !is_space(trimmed_end(s).last()),
    decreases s.len(),
{
    if s.len() > 0 && is_space(s.last()) {
        lemma_trimmed_end(s.drop_last());
        let n = trimmed_end(s).len() as int;
        assert(s.drop_last().take(n) == s.take(n));
    } else {
        assert(s.take(s.len() as int) == s);
    }
}

/// Whether a text is white space throughout.
pub open spec fn all_space(s: Seq<char>) -> bool {
    forall|i: int| 0 <= i < s.len() ==> is_space(#[trigger] s[i])
}

/// Whether a text has no white space.
pub open spec fn no_space(s: Seq<char>) -> bool {
    forall|i: int| 0 <= i < s.len() ==> !is_space(#[trigger] s[i])
}

proof fn lemma_leading(a: Seq<char>, t: Seq<char>)
    requires
        all_space(a),
        t.len() > 0 ==> !is_space(t[0]),
    ensures
        leading_spaces(a + t) == a.len(),
    decreases a.len(),
{
    if a.len() > 0 {
        assert(is_space(a[0]));
        assert((a + t).skip(1) == a.skip(1) + t);
        assert forall|i: int| 0 <= i < a.skip(1).len() implies is_space(#[trigger] a.skip(1)[i]) by {
            assert(is_space(a[i + 1]));
        }
        lemma_leading(a.skip(1), t);
    } else {
        assert(a + t == t);
    }
}

proof fn lemma_trailing(t: Seq<char>, b: Seq<char>)
    requires
        all_space(b),
        t.len() > 0 ==> !is_space(t.last()),
    ensures
        trimmed_end(t + b) == t,
    decreases b.len(),
{
    if b.len() > 0 {
        assert(is_space(b.last()));
        assert((t + b).last() == b.last());
        assert((t + b).drop_last() == t + b.drop_last());
        assert forall|i: int| 0 <= i < b.drop_last().len() implies is_space(
            #[trigger] b.drop_last()[i],
        ) by {
            assert(is_space(b[i]));
        }
        lemma_trailing(t, b.drop_last());
    } else {
        assert(t + b == t);
    }
}

/// Trimming takes away the white space at both ends and nothing else.
pub proof fn law_trimming_keeps_the_middle(a: Seq<char>, m: Seq<char>, b: Seq<char>)
    requires
        all_space(a),
        all_space(b),
        m.len() > 0 ==> !is_space(m[0]) && !is_space(m.last()),
    ensures
        trimmed(a + m + b) == m,
{
    if m.len() == 0 {
        let s = a + m + b;
        assert(all_space(s));
        assert(s + Seq::<char>::empty() == s);
        lemma_leading(s, Seq::empty());
        assert(trimmed_start(s) == Seq::<char>::empty());
        assert(m == Seq::<char>::empty());
    } else {
        assert(a + m + b == a + (m + b));
        lemma_leading(a, m + b);
        assert(trimmed_start(a + (m + b)) == m + b);
        lemma_trailing(m, b);
    }
}

proof fn lemma_word(w: Seq<char>, rest: Seq<char>)
    requires
        no_space(w),
        rest.len() > 0 ==> is_space(rest[0]),
    ensures
        word_len(w + rest) == w.len(),
    decreases w.len(),
{
    if w.len() > 0 {
        assert(!is_space(w[0]));
        assert((w + rest).skip(1) == w.skip(1) + rest);
        assert forall|i: int| 0 <= i < w.skip(1).len() implies !is_space(#[trigger] w.skip(1)[i]) by {
            assert(!is_space(w[i + 1]));
        }
        lemma_word(w.skip(1), rest);
    } else {
        assert(w + rest == rest);
    }
}

/// The words of a text are what white space separates: white space before the first
/// word does not count, a word ends where white space begins, and nothing is lost.
pub proof fn law_white_space_separates_words(a: Seq<char>, w: Seq<char>, rest: Seq<char>)
    requires
        all_space(a),
        no_space(w),
        w.len() > 0,
        rest.len() > 0 ==> is_space(rest[0]),
    ensures
        words(a + w + rest) == seq![w] + words(rest),
        words(a) == Seq::<Seq<char>>::empty(),
{
    let s = a + w + rest;
    assert(s == a + (w + rest));
    assert(!is_space(w[0]));
    lemma_leading(a, w + rest);
    let t = trimmed_start(s);
    assert(t == w + rest);
    lemma_word(w, rest);
    assert(t.take(w.len() as int) == w);
    assert(t.skip(w.len() as int) == rest);
    assert(a + Seq::<char>::empty() == a);
    lemma_leading(a, Seq::empty());
    assert(trimmed_start(a) == Seq::<char>::empty());
}

/// A text that is filled up begins with itself, has blanks behind it and is as long as
/// the width asks, or as itself where that is longer.
pub proof fn law_filled_text_begins_with_itself(s: Seq<char>, width: nat, i: int)
    requires
        0 <= i < left_aligned(s, width).len(),
    ensures
        left_aligned(s, width).len() == (if s.len() < width {
            width
        } else {
            s.len()
        }),
        left_aligned(s, width)[i] == (if i < s.len() {
            s[i]
        } else {
            ' '
        }),
{
}

/// White space is the blank, the tabs, the line ends and the blanks of other scripts;
/// control characters are those below the blank, the delete character and the 32 behind
/// it.
pub proof fn law_kinds_of_characters(c: char)
    ensures
        is_space(c) <==> c == ' ' || '\t' <= c <= '\r' || c == '\u{85}' || c == '\u{a0}' || c
            == '\u{1680}' || '\u{2000}' <= c <= '\u{200a}' || c == '\u{2028}' || c == '\u{2029}'
            || c == '\u{202f}' || c == '\u{205f}' || c == '\u{3000}',
        is_control_char(c) <==> c < ' ' || '\u{7f}' <= c < '\u{a0}',
        '!' <= c <= '~' ==> !is_space(c) && !is_control_char(c),
{
}

/// What stands between the same texts is the same where the whole is.
pub proof fn lemma_same_middle(p: Seq<char>, a: Seq<char>, b: Seq<char>, s: Seq<char>)
    requires
        p + a + s == p + b + s,
    ensures
        a == b,
{
    let x = p + a + s;
    let y = p + b + s;
    assert(x.len() == y.len());
    assert(a.len() == b.len());
    assert forall|i: int| 0 <= i < a.len() implies a[i] == b[i] by {
        assert(x[p.len() + i] == a[i]);
        assert(y[p.len() + i] == b[i]);
    }
    assert(a == b);
}

} // verus!
