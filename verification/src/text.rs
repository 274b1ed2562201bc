//! Character-level helpers over strings, each stated over `Seq<char>`.
//!
//! Whitespace is Unicode `White_Space` (what `char::is_whitespace`, `str::trim`
//! and `str::split_whitespace` use), control characters are the general
//! category `Cc` (what `char::is_control` tests), and strings are ordered by
//! code point, which is the byte order of their UTF-8 encodings.

use vstd::prelude::*;
use vstd::std_specs::iter::IteratorSpec;

verus! {

// ---------------------------------------------------------------------------
// Character classes
// ---------------------------------------------------------------------------

/// Unicode `White_Space`.
pub open spec fn is_white(c: char) -> bool {
    let u = c as u32;
    ||| 0x09 <= u <= 0x0D
    ||| u == 0x20
    ||| u == 0x85
    ||| u == 0xA0
    ||| u == 0x1680
    ||| 0x2000 <= u <= 0x200A
    ||| u == 0x2028
    ||| u == 0x2029
    ||| u == 0x202F
    ||| u == 0x205F
    ||| u == 0x3000
}

/// General category `Cc`.
pub open spec fn is_control(c: char) -> bool {
    let u = c as u32;
    u <= 0x1F || (0x7F <= u <= 0x9F)
}

pub open spec fn is_digit(c: char) -> bool {
    0x30 <= (c as u32) <= 0x39
}

pub open spec fn is_hex_digit(c: char) -> bool {
    let u = c as u32;
    ||| 0x30 <= u <= 0x39
    ||| 0x41 <= u <= 0x46
    ||| 0x61 <= u <= 0x66
}

/// The code of a character after ASCII lower-casing.
pub open spec fn ascii_lower(c: char) -> u32 {
    let u = c as u32;
    if 0x41 <= u <= 0x5A {
        (u + 32) as u32
    } else {
        u
    }
}

pub open spec fn is_blank(s: Seq<char>) -> bool {
    forall|i: int| 0 <= i < s.len() ==> #[trigger] is_white(s[i])
}

pub open spec fn has_control(s: Seq<char>) -> bool {
    exists|i: int| 0 <= i < s.len() && #[trigger] is_control(s[i])
}

pub open spec fn all_digits(s: Seq<char>) -> bool {
    forall|i: int| 0 <= i < s.len() ==> #[trigger] is_digit(s[i])
}

pub open spec fn all_hex_digits(s: Seq<char>) -> bool {
    forall|i: int| 0 <= i < s.len() ==> #[trigger] is_hex_digit(s[i])
}

/// Equality up to ASCII case, character by character.
pub open spec fn same_ignoring_ascii_case(a: Seq<char>, b: Seq<char>) -> bool {
    &&& a.len() == b.len()
    &&& forall|i: int| 0 <= i < a.len() ==> #[trigger] ascii_lower(a[i]) == ascii_lower(b[i])
}

// ---------------------------------------------------------------------------
// Words
// ---------------------------------------------------------------------------

/// The maximal runs of non-whitespace characters, in order
/// (what `split_whitespace` yields).
pub open spec fn words(s: Seq<char>) -> Seq<Seq<char>>
    decreases s.len(),
{
    if s.len() == 0 {
        seq![]
    } else {
        let w = words(s.drop_last());
        let c = s.last();
        if is_white(c) {
            w
        } else if s.len() >= 2 && !is_white(s[s.len() - 2]) {
            w.update(w.len() - 1, w.last().push(c))
        } else {
            w.push(seq![c])
        }
    }
}

/// The parts, with `sep` between each two.
pub open spec fn join(parts: Seq<Seq<char>>, sep: Seq<char>) -> Seq<char>
    decreases parts.len(),
{
    if parts.len() == 0 {
        seq![]
    } else if parts.len() == 1 {
        parts[0]
    } else {
        join(parts.drop_last(), sep) + sep + parts.last()
    }
}

/// The words of `s`, separated by single spaces.
pub open spec fn squeezed(s: Seq<char>) -> Seq<char> {
    join(words(s), seq![' '])
}

// ---------------------------------------------------------------------------
// Order and numbers
// ---------------------------------------------------------------------------

/// Lexicographic order by code point.
pub open spec fn str_less(a: Seq<char>, b: Seq<char>) -> bool
    decreases a.len(),
{
    if a.len() == 0 {
        b.len() > 0
    } else if b.len() == 0 {
        false
    } else if a[0] != b[0] {
        (a[0] as u32) < (b[0] as u32)
    } else {
        str_less(a.drop_first(), b.drop_first())
    }
}

/// The value of a string of decimal digits.
pub open spec fn digits_value(s: Seq<char>) -> nat
    decreases s.len(),
{
    if s.len() == 0 {
        0
    } else {
        digits_value(s.drop_last()) * 10 + ((s.last() as u32) - 0x30) as nat
    }
}

/// What `str::parse` gives for an unsigned integer type whose largest value is
/// `max`: an optional `+`, then at least one decimal digit and nothing else,
/// of a value not above `max`.
pub open spec fn unsigned_value(s: Seq<char>, max: nat) -> Option<nat> {
    let d = if s.len() > 0 && s[0] == '+' {
        s.drop_first()
    } else {
        s
    };
    if d.len() > 0 && all_digits(d) && digits_value(d) <= max {
        Some(digits_value(d))
    } else {
        None
    }
}

// ---------------------------------------------------------------------------
// Lemmas
// ---------------------------------------------------------------------------

pub proof fn lemma_take_last<A>(s: Seq<A>, i: int)
    requires
        0 <= i < s.len(),
    ensures
        s.take(i + 1).drop_last() == s.take(i),
        s.take(i + 1).last() == s[i],
        s.take(i + 1).len() == i + 1,
{
    assert(s.take(i + 1).drop_last() =~= s.take(i));
}

pub proof fn lemma_words_end_in_word(s: Seq<char>)
    requires
        s.len() > 0,
        !is_white(s.last()),
    ensures
        words(s).len() > 0,
    decreases s.len(),
{
    if s.len() >= 2 && !is_white(s[s.len() - 2]) {
        lemma_words_end_in_word(s.drop_last());
    }
}

pub proof fn lemma_join_push(w: Seq<Seq<char>>, x: Seq<char>, sep: Seq<char>)
    ensures
        join(w.push(x), sep) == if w.len() == 0 {
            x
        } else {
            join(w, sep) + sep + x
        },
{
    assert(w.push(x).drop_last() =~= w);
}

pub proof fn lemma_join_extend_last(w: Seq<Seq<char>>, c: char, sep: Seq<char>)
    requires
        w.len() > 0,
    ensures
        join(w.update(w.len() - 1, w.last().push(c)), sep) == join(w, sep).push(c),
{
    let w2 = w.update(w.len() - 1, w.last().push(c));
    if w.len() == 1 {
        assert(w2[0] == w[0].push(c));
    } else {
        assert(w2.drop_last() =~= w.drop_last());
        assert(join(w2, sep) == join(w.drop_last(), sep) + sep + w.last().push(c));
        assert(join(w2, sep) =~= join(w, sep).push(c));
    }
}

pub proof fn lemma_str_less_irreflexive(a: Seq<char>)
    ensures
        !str_less(a, a),
    decreases a.len(),
{
    if a.len() > 0 {
        lemma_str_less_irreflexive(a.drop_first());
    }
}

pub proof fn lemma_str_less_asymmetric(a: Seq<char>, b: Seq<char>)
    ensures
        !(str_less(a, b) && str_less(b, a)),
    decreases a.len(),
{
    if a.len() > 0 && b.len() > 0 && a[0] == b[0] {
        lemma_str_less_asymmetric(a.drop_first(), b.drop_first());
    }
}

pub proof fn lemma_str_less_total(a: Seq<char>, b: Seq<char>)
    ensures
        a != b ==> str_less(a, b) || str_less(b, a),
    decreases a.len(),
{
    broadcast use vstd::utf8::char_u32_cast;

    if a.len() > 0 && b.len() > 0 && a[0] == b[0] {
        lemma_str_less_total(a.drop_first(), b.drop_first());
        if a.drop_first() == b.drop_first() {
            assert(a =~= seq![a[0]] + a.drop_first());
            assert(b =~= seq![b[0]] + b.drop_first());
        }
    } else if a.len() == 0 && b.len() == 0 {
        assert(a =~= b);
    } else if a.len() > 0 && b.len() > 0 {
        if (a[0] as u32) == (b[0] as u32) {
            vstd::utf8::char_u32_cast(a[0], a[0] as u32);
            vstd::utf8::char_u32_cast(b[0], b[0] as u32);
        }
    }
}

/// A string is less than another when, at the first place they differ, its
/// character has the smaller code point.
pub proof fn lemma_str_less_first_difference(a: Seq<char>, b: Seq<char>, i: int)
    requires
        0 <= i < a.len(),
        i < b.len(),
        forall|j: int| 0 <= j < i ==> a[j] == b[j],
        (a[i] as u32) < (b[i] as u32),
    ensures
        str_less(a, b),
    decreases i,
{
    if i > 0 {
        assert(a[0] == b[0]);
        assert forall|j: int| 0 <= j < i - 1 implies a.drop_first()[j] == b.drop_first()[j] by {
            assert(a[j + 1] == b[j + 1]);
        }
        lemma_str_less_first_difference(a.drop_first(), b.drop_first(), i - 1);
    }
}

pub proof fn lemma_str_less_transitive(a: Seq<char>, b: Seq<char>, c: Seq<char>)
    requires
        str_less(a, b),
        str_less(b, c),
    ensures
        str_less(a, c),
    decreases a.len(),
{
    if a.len() > 0 && b.len() > 0 && c.len() > 0 && a[0] == b[0] && b[0] == c[0] {
        lemma_str_less_transitive(a.drop_first(), b.drop_first(), c.drop_first());
    }
}

// ---------------------------------------------------------------------------
// Executable helpers
// ---------------------------------------------------------------------------

/// The characters of a string, in order.
pub fn chars_of(s: &str) -> (out: Vec<char>)
    ensures
        out@ == s@,
{
    let mut out: Vec<char> = Vec::new();
    let mut it = s.chars();
    loop
        invariant
            it.obeys_prophetic_iter_laws(),
            out@ + it.remaining() == s@,
            it.decrease() is Some,
        ensures
            out@ == s@,
        decreases it.decrease()->0,
    {
        match it.next() {
            Some(c) => {
                out.push(c);
            },
            None => {
                assert(out@ =~= s@);
                break;
            },
        }
    }
    out
}

/// `String::push`.
#[verifier::external_body]
fn push_char(s: &mut String, c: char)
    ensures
        final(s)@ == old(s)@.push(c),
{
    s.push(c)
}

/// A string holding the given characters.
pub fn string_of(cs: &Vec<char>) -> (s: String)
    ensures
        s@ == cs@,
{
    let mut s = String::new();
    let mut i: usize = 0;
    while i < cs.len()
        invariant
            i <= cs.len(),
            s@ == cs@.take(i as int),
        decreases cs.len() - i,
    {
        push_char(&mut s, cs[i]);
        i = i + 1;
        assert(s@ =~= cs@.take(i as int));
    }
    assert(cs@.take(i as int) =~= cs@);
    s
}

pub fn white(c: char) -> (r: bool)
    ensures
        r == is_white(c),
{
    let u = c as u32;
    (0x09 <= u && u <= 0x0D) || u == 0x20 || u == 0x85 || u == 0xA0 || u == 0x1680 || (0x2000
        <= u && u <= 0x200A) || u == 0x2028 || u == 0x2029 || u == 0x202F || u == 0x205F || u
        == 0x3000
}

pub fn control(c: char) -> (r: bool)
    ensures
        r == is_control(c),
{
    let u = c as u32;
    u <= 0x1F || (0x7F <= u && u <= 0x9F)
}

pub fn digit(c: char) -> (r: bool)
    ensures
        r == is_digit(c),
{
    let u = c as u32;
    0x30 <= u && u <= 0x39
}

pub fn hex_digit(c: char) -> (r: bool)
    ensures
        r == is_hex_digit(c),
{
    let u = c as u32;
    (0x30 <= u && u <= 0x39) || (0x41 <= u && u <= 0x46) || (0x61 <= u && u <= 0x66)
}

fn lower(c: char) -> (r: u32)
    ensures
        r == ascii_lower(c),
{
    let u = c as u32;
    if 0x41 <= u && u <= 0x5A {
        u + 32
    } else {
        u
    }
}

/// Whether every character is whitespace (`s.trim().is_empty()`).
pub fn blank(s: &str) -> (r: bool)
    ensures
        r == is_blank(s@),
{
    let cs = chars_of(s);
    let mut i: usize = 0;
    while i < cs.len()
        invariant
            i <= cs.len(),
            cs@ == s@,
            forall|j: int| 0 <= j < i ==> #[trigger] is_white(cs@[j]),
        decreases cs.len() - i,
    {
        if !white(cs[i]) {
            return false;
        }
        i = i + 1;
    }
    true
}

/// Whether some character is a control character.
pub fn any_control(s: &str) -> (r: bool)
    ensures
        r == has_control(s@),
{
    let cs = chars_of(s);
    let mut i: usize = 0;
    while i < cs.len()
        invariant
            i <= cs.len(),
            cs@ == s@,
            forall|j: int| 0 <= j < i ==> !#[trigger] is_control(cs@[j]),
        decreases cs.len() - i,
    {
        if control(cs[i]) {
            assert(is_control(s@[i as int]));
            return true;
        }
        i = i + 1;
    }
    false
}

/// Whether every character is an ASCII decimal digit.
pub fn only_digits(cs: &Vec<char>) -> (r: bool)
    ensures
        r == all_digits(cs@),
{
    let mut i: usize = 0;
    while i < cs.len()
        invariant
            i <= cs.len(),
            forall|j: int| 0 <= j < i ==> #[trigger] is_digit(cs@[j]),
        decreases cs.len() - i,
    {
        if !digit(cs[i]) {
            return false;
        }
        i = i + 1;
    }
    true
}

/// Whether every character is an ASCII hexadecimal digit.
pub fn only_hex_digits(cs: &Vec<char>) -> (r: bool)
    ensures
        r == all_hex_digits(cs@),
{
    let mut i: usize = 0;
    while i < cs.len()
        invariant
            i <= cs.len(),
            forall|j: int| 0 <= j < i ==> #[trigger] is_hex_digit(cs@[j]),
        decreases cs.len() - i,
    {
        if !hex_digit(cs[i]) {
            return false;
        }
        i = i + 1;
    }
    true
}

proof fn lemma_encode_push(s: Seq<char>, c: char)
    ensures
        vstd::utf8::encode_utf8(s.push(c)) == vstd::utf8::encode_utf8(s) + vstd::utf8::encode_scalar(
            c as u32,
        ),
    decreases s.len(),
{
    if s.len() == 0 {
        assert(s.push(c).drop_first() =~= Seq::<char>::empty());
        assert(s.push(c)[0] == c);
        assert(vstd::utf8::encode_utf8(Seq::<char>::empty()) =~= Seq::<u8>::empty());
        assert(vstd::utf8::encode_utf8(s) =~= Seq::<u8>::empty());
        assert(vstd::utf8::encode_utf8(s.push(c)) =~= vstd::utf8::encode_scalar(c as u32));
    } else {
        assert(s.push(c).drop_first() =~= s.drop_first().push(c));
        lemma_encode_push(s.drop_first(), c);
        assert(vstd::utf8::encode_utf8(s.push(c)) =~= vstd::utf8::encode_utf8(s)
            + vstd::utf8::encode_scalar(c as u32));
    }
}

fn utf8_width(c: char) -> (w: usize)
    ensures
        w == vstd::utf8::encode_scalar(c as u32).len(),
{
    broadcast use vstd::utf8::char_is_scalar;

    let u = c as u32;
    if u <= 0x7F {
        1
    } else if u <= 0x7FF {
        2
    } else if u <= 0xFFFF {
        3
    } else {
        4
    }
}

/// Whether the UTF-8 encoding of `s` takes at most `limit` bytes.
pub fn fits_bytes(s: &str, limit: usize) -> (r: bool)
    ensures
        r == (vstd::utf8::encode_utf8(s@).len() <= limit),
{
    let cs = chars_of(s);
    let mut n: usize = 0;
    let mut i: usize = 0;
    assert(cs@.take(0) =~= Seq::<char>::empty());
    while i < cs.len()
        invariant
            i <= cs.len(),
            cs@ == s@,
            n <= limit,
            n == vstd::utf8::encode_utf8(cs@.take(i as int)).len(),
        decreases cs.len() - i,
    {
        let w = utf8_width(cs[i]);
        proof {
            assert(cs@.take(i + 1) =~= cs@.take(i as int).push(cs@[i as int]));
            lemma_encode_push(cs@.take(i as int), cs@[i as int]);
        }
        if w > limit - n {
            proof {
                lemma_encode_prefix(cs@, i + 1);
            }
            return false;
        }
        n = n + w;
        i = i + 1;
    }
    assert(cs@.take(i as int) =~= cs@);
    true
}

proof fn lemma_encode_prefix(s: Seq<char>, k: int)
    requires
        0 <= k <= s.len(),
    ensures
        vstd::utf8::encode_utf8(s).len() >= vstd::utf8::encode_utf8(s.take(k)).len(),
    decreases s.len() - k,
{
    if k < s.len() {
        assert(s.take(k + 1) =~= s.take(k).push(s[k]));
        lemma_encode_push(s.take(k), s[k]);
        lemma_encode_prefix(s, k + 1);
    } else {
        assert(s.take(k) =~= s);
    }
}

/// `std::str::from_utf8`, the text copied into a `String`.
#[verifier::external_body]
pub(crate) fn utf8_text(bytes: &[u8]) -> (r: Option<String>)
    ensures
        match r {
            Some(s) => vstd::utf8::valid_utf8(bytes@) && s@ == vstd::utf8::decode_utf8(bytes@),
            None => !vstd::utf8::valid_utf8(bytes@),
        },
{
    std::str::from_utf8(bytes).ok().map(|s| s.to_string())
}

/// `eq_ignore_ascii_case`.
pub fn eq_ignore_case(a: &str, b: &str) -> (r: bool)
    ensures
        r == same_ignoring_ascii_case(a@, b@),
{
    let x = chars_of(a);
    let y = chars_of(b);
    if x.len() != y.len() {
        return false;
    }
    let mut i: usize = 0;
    while i < x.len()
        invariant
            i <= x.len(),
            x.len() == y.len(),
            x@ == a@,
            y@ == b@,
            forall|j: int| 0 <= j < i ==> #[trigger] ascii_lower(x@[j]) == ascii_lower(y@[j]),
        decreases x.len() - i,
    {
        if lower(x[i]) != lower(y[i]) {
            return false;
        }
        i = i + 1;
    }
    true
}

/// Whether two strings hold the same characters.
pub fn same(a: &str, b: &str) -> (r: bool)
    ensures
        r == (a@ == b@),
{
    let x = chars_of(a);
    let y = chars_of(b);
    if x.len() != y.len() {
        return false;
    }
    let mut i: usize = 0;
    while i < x.len()
        invariant
            i <= x.len(),
            x.len() == y.len(),
            x@ == a@,
            y@ == b@,
            forall|j: int| 0 <= j < i ==> x@[j] == y@[j],
        decreases x.len() - i,
    {
        if x[i] != y[i] {
            return false;
        }
        i = i + 1;
    }
    assert(x@ =~= y@);
    true
}

/// Whether `a` comes before `b` in code point order.
pub fn less(a: &str, b: &str) -> (r: bool)
    ensures
        r == str_less(a@, b@),
{
    let x = chars_of(a);
    let y = chars_of(b);
    let mut i: usize = 0;
    proof {
        assert(x@.skip(0) =~= x@);
        assert(y@.skip(0) =~= y@);
    }
    while i < x.len() && i < y.len() && x[i] == y[i]
        invariant
            i <= x.len(),
            i <= y.len(),
            x@ == a@,
            y@ == b@,
            str_less(a@, b@) == str_less(x@.skip(i as int), y@.skip(i as int)),
        decreases x.len() - i,
    {
        proof {
            let xs = x@.skip(i as int);
            let ys = y@.skip(i as int);
            assert(xs.drop_first() =~= x@.skip(i + 1));
            assert(ys.drop_first() =~= y@.skip(i + 1));
        }
        i = i + 1;
    }
    proof {
        assert(x@.skip(0) =~= x@);
        assert(y@.skip(0) =~= y@);
    }
    if i == x.len() {
        i < y.len()
    } else if i == y.len() {
        false
    } else {
        (x[i] as u32) < (y[i] as u32)
    }
}

/// The words of `s` (`split_whitespace`).
pub fn split_words(s: &str) -> (out: Vec<String>)
    ensures
        out@.len() == words(s@).len(),
        forall|k: int| 0 <= k < out@.len() ==> #[trigger] out@[k]@ == words(s@)[k],
{
    let cs = chars_of(s);
    let mut out: Vec<String> = Vec::new();
    let mut cur: Vec<char> = Vec::new();
    let mut i: usize = 0;
    while i < cs.len()
        invariant
            i <= cs.len(),
            cs@ == s@,
            cur@.len() > 0 <==> (i > 0 && !is_white(cs@[i - 1])),
            ({
                let w = words(cs@.take(i as int));
                if cur@.len() > 0 {
                    &&& w.len() == out@.len() + 1
                    &&& w.last() == cur@
                    &&& forall|k: int| 0 <= k < out@.len() ==> #[trigger] out@[k]@ == w[k]
                } else {
                    &&& w.len() == out@.len()
                    &&& forall|k: int| 0 <= k < out@.len() ==> #[trigger] out@[k]@ == w[k]
                }
            }),
        decreases cs.len() - i,
    {
        let c = cs[i];
        proof {
            lemma_take_last(cs@, i as int);
        }
        if white(c) {
            if cur.len() > 0 {
                let word = string_of(&cur);
                out.push(word);
                cur = Vec::new();
            }
        } else {
            cur.push(c);
        }
        i = i + 1;
    }
    assert(cs@.take(i as int) =~= s@);
    if cur.len() > 0 {
        let word = string_of(&cur);
        out.push(word);
    }
    out
}

/// `s` without leading whitespace.
pub open spec fn trim_start(s: Seq<char>) -> Seq<char>
    decreases s.len(),
{
    if s.len() > 0 && is_white(s[0]) {
        trim_start(s.drop_first())
    } else {
        s
    }
}

/// `s` without trailing whitespace.
pub open spec fn trim_end(s: Seq<char>) -> Seq<char>
    decreases s.len(),
{
    if s.len() > 0 && is_white(s.last()) {
        trim_end(s.drop_last())
    } else {
        s
    }
}

/// `s` without leading and trailing whitespace (`str::trim`).
pub open spec fn trimmed(s: Seq<char>) -> Seq<char> {
    trim_end(trim_start(s))
}

/// `str::trim`, copied into a `String`.
pub fn trim(s: &str) -> (r: String)
    ensures
        r@ == trimmed(s@),
{
    let cs = chars_of(s);
    let mut a: usize = 0;
    assert(cs@.skip(0) =~= cs@);
    while a < cs.len() && white(cs[a])
        invariant
            a <= cs.len(),
            cs@ == s@,
            trim_start(s@) == trim_start(cs@.skip(a as int)),
        decreases cs.len() - a,
    {
        assert(cs@.skip(a as int).drop_first() =~= cs@.skip(a + 1));
        a = a + 1;
    }
    let ghost t = cs@.skip(a as int);
    assert(trim_start(s@) == t);
    let mut b: usize = cs.len();
    assert(cs@.subrange(a as int, b as int) =~= t);
    while b > a && white(cs[b - 1])
        invariant
            a <= b <= cs.len(),
            cs@ == s@,
            t == cs@.skip(a as int),
            trim_end(t) == trim_end(cs@.subrange(a as int, b as int)),
        decreases b,
    {
        assert(cs@.subrange(a as int, b as int).drop_last() =~= cs@.subrange(a as int, b - 1));
        b = b - 1;
    }
    let mut out: Vec<char> = Vec::new();
    let mut i: usize = a;
    while i < b
        invariant
            a <= i <= b <= cs.len(),
            out@ == cs@.subrange(a as int, i as int),
        decreases b - i,
    {
        out.push(cs[i]);
        i = i + 1;
        assert(out@ =~= cs@.subrange(a as int, i as int));
    }
    string_of(&out)
}

/// The words of `s` separated by single spaces (`split_whitespace` then `join(" ")`).
pub fn squeeze(s: &str) -> (out: String)
    ensures
        out@ == squeezed(s@),
{
    let cs = chars_of(s);
    let mut out: Vec<char> = Vec::new();
    let mut pending = false;
    let mut i: usize = 0;
    while i < cs.len()
        invariant
            i <= cs.len(),
            cs@ == s@,
            out@ == join(words(cs@.take(i as int)), seq![' ']),
            out@.len() > 0 <==> words(cs@.take(i as int)).len() > 0,
            pending <==> (i > 0 && is_white(cs@[i - 1]) && out@.len() > 0),
            i > 0 && !is_white(cs@[i - 1]) ==> words(cs@.take(i as int)).len() > 0,
        decreases cs.len() - i,
    {
        let c = cs[i];
        let ghost t = cs@.take(i as int);
        let ghost w = words(t);
        proof {
            lemma_take_last(cs@, i as int);
        }
        if white(c) {
            pending = out.len() > 0;
        } else {
            proof {
                if i > 0 && !is_white(cs@[i - 1]) {
                    lemma_join_extend_last(w, c, seq![' ']);
                    assert(cs@.take(i + 1)[i - 1] == cs@[i - 1]);
                } else {
                    lemma_join_push(w, seq![c], seq![' ']);
                    if i > 0 {
                        assert(cs@.take(i + 1)[i - 1] == cs@[i - 1]);
                    }
                }
            }
            if pending {
                out.push(' ');
                pending = false;
            }
            out.push(c);
            proof {
                assert(out@.len() > 0);
            }
        }
        i = i + 1;
        proof {
            assert(out@ =~= join(words(cs@.take(i as int)), seq![' ']));
        }
    }
    assert(cs@.take(i as int) =~= s@);
    string_of(&out)
}

/// `str::parse` for an unsigned integer type whose largest value is `max`.
pub fn parse_unsigned(s: &str, max: u64) -> (r: Option<u64>)
    requires
        max >= 9,
    ensures
        match r {
            Some(v) => unsigned_value(s@, max as nat) == Some(v as nat),
            None => unsigned_value(s@, max as nat) is None,
        },
{
    let all = chars_of(s);
    let start: usize = if all.len() > 0 && all[0] == '+' {
        1
    } else {
        0
    };
    let ghost d = if s@.len() > 0 && s@[0] == '+' {
        s@.drop_first()
    } else {
        s@
    };
    assert(d =~= all@.skip(start as int));
    if start == all.len() {
        return None;
    }
    let mut v: u64 = 0;
    let mut i: usize = start;
    while i < all.len()
        invariant
            start <= i <= all.len(),
            all@ == s@,
            d == all@.skip(start as int),
            d == (if s@.len() > 0 && s@[0] == '+' {
                s@.drop_first()
            } else {
                s@
            }),
            d.len() > 0,
            all_digits(all@.subrange(start as int, i as int)),
            v as nat == digits_value(all@.subrange(start as int, i as int)),
            v <= max,
            max >= 9,
        decreases all.len() - i,
    {
        let c = all[i];
        proof {
            assert(all@.subrange(start as int, i + 1).drop_last() =~= all@.subrange(
                start as int,
                i as int,
            ));
        }
        if !digit(c) {
            proof {
                assert(d[i - start] == c);
                assert(!is_digit(d[i - start]));
            }
            return None;
        }
        let dv: u64 = (c as u32 - 0x30) as u64;
        assert(dv <= 9);
        if v > (max - dv) / 10 {
            proof {
                assert(v * 10 + dv > max) by (nonlinear_arith)
                    requires
                        v > (max - dv) / 10,
                        dv <= max,
                ;
                assert(d.take(i - start + 1) =~= all@.subrange(start as int, i + 1));
                assert(digits_value(all@.subrange(start as int, i + 1)) == v * 10 + dv);
                lemma_digits_prefix_monotone(d, (i - start) as int);
            }
            return None;
        }
        proof {
            assert(v * 10 + dv <= max) by (nonlinear_arith)
                requires
                    v <= (max - dv) / 10,
                    dv <= max,
            ;
        }
        v = v * 10 + dv;
        i = i + 1;
    }
    assert(all@.subrange(start as int, i as int) =~= d);
    Some(v)
}

/// A longer string of digits has a value at least as large as any prefix,
/// times ten for each extra digit.
proof fn lemma_digits_prefix_monotone(d: Seq<char>, k: int)
    requires
        0 <= k < d.len(),
    ensures
        all_digits(d) ==> digits_value(d) >= digits_value(d.take(k + 1)),
    decreases d.len(),
{
    if k + 1 < d.len() {
        assert(d.drop_last().take(k + 1) =~= d.take(k + 1));
        lemma_digits_prefix_monotone(d.drop_last(), k);
        if all_digits(d) {
            assert(all_digits(d.drop_last()));
        }
    } else {
        assert(d.take(k + 1) =~= d);
    }
}

} // verus!
