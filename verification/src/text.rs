//! Text helpers: trimming, escaping, decimal formatting and ordering of strings.

use vstd::prelude::*;
use vstd::string::*;
use vstd::utf8::*;

verus! {

/// The Unicode `White_Space` property, which is what `char::is_whitespace` tests.
pub open spec fn is_white_space(c: char) -> bool {
    let u = c as u32;
    ||| 0x09 <= u <= 0x0d
    ||| u == 0x20
    ||| u == 0x85
    ||| u == 0xa0
    ||| u == 0x1680
    ||| 0x2000 <= u <= 0x200a
    ||| u == 0x2028
    ||| u == 0x2029
    ||| u == 0x202f
    ||| u == 0x205f
    ||| u == 0x3000
}

/// The classes of characters that the library strips from the ends of strings.
#[derive(Clone, Copy, PartialEq, Eq, Debug)]
pub enum CharClass {
    WhiteSpace,
    Dot,
    Slash,
}

pub open spec fn in_class(class: CharClass, c: char) -> bool {
    match class {
        CharClass::WhiteSpace => is_white_space(c),
        CharClass::Dot => c == '.',
        CharClass::Slash => c == '/',
    }
}

/// `s` without its leading characters of `class`.
pub open spec fn strip_leading(s: Seq<char>, class: CharClass) -> Seq<char>
    decreases s.len(),
{
    if s.len() > 0 && in_class(class, s[0]) {
        strip_leading(s.drop_first(), class)
    } else {
        s
    }
}

/// `s` without its trailing characters of `class`.
pub open spec fn strip_trailing(s: Seq<char>, class: CharClass) -> Seq<char>
    decreases s.len(),
{
    if s.len() > 0 && in_class(class, s.last()) {
        strip_trailing(s.drop_last(), class)
    } else {
        s
    }
}

/// What `str::trim` gives: no white space at either end.
pub open spec fn trim_spec(s: Seq<char>) -> Seq<char> {
    strip_trailing(strip_leading(s, CharClass::WhiteSpace), CharClass::WhiteSpace)
}

pub fn in_class_exec(class: CharClass, c: char) -> (r: bool)
    ensures
        r == in_class(class, c),
{
    match class {
        CharClass::WhiteSpace => {
            let u = c as u32;
            (0x09 <= u && u <= 0x0d) || u == 0x20 || u == 0x85 || u == 0xa0 || u == 0x1680 || (
            0x2000 <= u && u <= 0x200a) || u == 0x2028 || u == 0x2029 || u == 0x202f || u
                == 0x205f || u == 0x3000
        },
        CharClass::Dot => c == '.',
        CharClass::Slash => c == '/',
    }
}

proof fn lemma_strip_leading_at(s: Seq<char>, class: CharClass, i: int)
    requires
        0 <= i <= s.len(),
        forall|k: int| 0 <= k < i ==> in_class(class, #[trigger] s[k]),
        i == s.len() || !in_class(class, s[i]),
    ensures
        strip_leading(s, class) == s.skip(i),
    decreases i,
{
    if i == 0 {
        assert(s.skip(0) =~= s);
    } else {
        assert forall|k: int| 0 <= k < i - 1 implies in_class(class, #[trigger] s.drop_first()[k]) by {
            assert(s.drop_first()[k] == s[k + 1]);
        }
        lemma_strip_leading_at(s.drop_first(), class, i - 1);
        assert(s.drop_first().skip(i - 1) =~= s.skip(i));
    }
}

proof fn lemma_strip_trailing_at(s: Seq<char>, class: CharClass, j: int)
    requires
        0 <= j <= s.len(),
        forall|k: int| j <= k < s.len() ==> in_class(class, #[trigger] s[k]),
        j == 0 || !in_class(class, s[j - 1]),
    ensures
        strip_trailing(s, class) == s.take(j),
    decreases s.len() - j,
{
    if j == s.len() {
        assert(s.take(j) =~= s);
    } else {
        assert forall|k: int| j <= k < s.len() - 1 implies in_class(
            class,
            #[trigger] s.drop_last()[k],
        ) by {
            assert(s.drop_last()[k] == s[k]);
        }
        lemma_strip_trailing_at(s.drop_last(), class, j);
        assert(s.drop_last().take(j) =~= s.take(j));
    }
}

/// Number of leading characters of `class` in `s`.
fn leading_run(s: &str, class: CharClass) -> (i: usize)
    ensures
        i <= s@.len(),
        strip_leading(s@, class) == s@.skip(i as int),
{
    let n = s.unicode_len();
    let mut i: usize = 0;
    while i < n && in_class_exec(class, s.get_char(i))
        invariant
            n == s@.len(),
            i <= n,
            forall|k: int| 0 <= k < i ==> in_class(class, #[trigger] s@[k]),
        decreases n - i,
    {
        i = i + 1;
    }
    proof {
        lemma_strip_leading_at(s@, class, i as int);
    }
    i
}

/// Index one past the last character of `s` that is not of `class`.
fn trailing_cut(s: &str, class: CharClass) -> (j: usize)
    ensures
        j <= s@.len(),
        strip_trailing(s@, class) == s@.take(j as int),
{
    let n = s.unicode_len();
    let mut j: usize = n;
    while j > 0 && in_class_exec(class, s.get_char(j - 1))
        invariant
            n == s@.len(),
            j <= n,
            forall|k: int| j <= k < n ==> in_class(class, #[trigger] s@[k]),
        decreases j,
    {
        j = j - 1;
    }
    proof {
        lemma_strip_trailing_at(s@, class, j as int);
    }
    j
}

/// `s` without its leading characters of `class` (`str::trim_start_matches`).
pub fn trim_start_class(s: &str, class: CharClass) -> (r: &str)
    ensures
        r@ == strip_leading(s@, class),
{
    let i = leading_run(s, class);
    let n = s.unicode_len();
    let r = s.substring_char(i, n);
    proof {
        assert(s@.subrange(i as int, n as int) =~= s@.skip(i as int));
    }
    r
}

/// `s` without its trailing characters of `class` (`str::trim_end_matches`).
pub fn trim_end_class(s: &str, class: CharClass) -> (r: &str)
    ensures
        r@ == strip_trailing(s@, class),
{
    let j = trailing_cut(s, class);
    let r = s.substring_char(0, j);
    proof {
        assert(s@.subrange(0, j as int) =~= s@.take(j as int));
    }
    r
}

/// `s` without white space at either end (`str::trim`).
pub fn trim(s: &str) -> (r: &str)
    ensures
        r@ == trim_spec(s@),
{
    let a = trim_start_class(s, CharClass::WhiteSpace);
    trim_end_class(a, CharClass::WhiteSpace)
}

/// Appends one character to a string.
/// Calls `String::push`, which appends the character at the end and changes nothing else.
#[verifier::external_body]
pub(crate) fn push_char(s: &mut String, c: char)
    ensures
        final(s)@ == old(s)@.push(c),
{
    s.push(c)
}

/// What `String::from_utf8_lossy` makes of `bytes`.
pub uninterp spec fn utf8_lossy(bytes: Seq<u8>) -> Seq<char>;

/// Decodes bytes as UTF-8, with U+FFFD in place of each invalid sequence.
/// Calls `String::from_utf8_lossy`. Its result is named `utf8_lossy`; the one fact stated
/// beside the name is the documented one: valid UTF-8 is decoded unchanged.
#[verifier::external_body]
fn from_utf8_lossy(bytes: &[u8]) -> (r: String)
    ensures
        r@ == utf8_lossy(bytes@),
        valid_utf8(bytes@) ==> r@ == decode_utf8(bytes@),
{
    String::from_utf8_lossy(bytes).into_owned()
}

/// Command output as text: decoded with replacement characters, then trimmed.
pub fn lossless_string(bytes: &[u8]) -> (r: String)
    ensures
        r@ == trim_spec(utf8_lossy(bytes@)),
        valid_utf8(bytes@) ==> r@ == trim_spec(decode_utf8(bytes@)),
{
    let decoded = from_utf8_lossy(bytes);
    let t = trim(decoded.as_str());
    String::from_str(t)
}

/// What `str::to_lowercase` makes of a string (Unicode lowercase mapping).
pub uninterp spec fn lowercase(s: Seq<char>) -> Seq<char>;

/// Lowercases a string. Calls `str::to_lowercase`; its result is named `lowercase`.
#[verifier::external_body]
pub(crate) fn to_lowercase(s: &str) -> (r: String)
    ensures
        r@ == lowercase(s@),
{
    s.to_lowercase()
}

/// The escape of one character in a desktop entry's `Exec` value.
pub open spec fn escape_char(c: char) -> Seq<char> {
    if c == '\\' {
        seq!['\\', '\\']
    } else if c == ' ' {
        seq!['\\', ' ']
    } else {
        seq![c]
    }
}

/// Backslashes doubled, then spaces preceded by a backslash.
pub open spec fn desktop_escape_spec(s: Seq<char>) -> Seq<char>
    decreases s.len(),
{
    if s.len() == 0 {
        Seq::empty()
    } else {
        desktop_escape_spec(s.drop_last()) + escape_char(s.last())
    }
}

/// How a reader of the escaped value recovers the text: a backslash takes the next character
/// literally.
pub open spec fn desktop_unescape_spec(s: Seq<char>) -> Seq<char>
    decreases s.len(),
{
    if s.len() == 0 {
        Seq::empty()
    } else if s[0] == '\\' && s.len() >= 2 {
        seq![s[1]] + desktop_unescape_spec(s.skip(2))
    } else {
        seq![s[0]] + desktop_unescape_spec(s.drop_first())
    }
}

/// Escapes a path for the `Exec` line of a desktop entry.
pub fn desktop_escape(arg: &str) -> (r: String)
    ensures
        r@ == desktop_escape_spec(arg@),
{
    let n = arg.unicode_len();
    let mut out = String::new();
    let mut i: usize = 0;
    while i < n
        invariant
            n == arg@.len(),
            i <= n,
            out@ == desktop_escape_spec(arg@.take(i as int)),
        decreases n - i,
    {
        let c = arg.get_char(i);
        if c == '\\' {
            push_char(&mut out, '\\');
            push_char(&mut out, '\\');
        } else if c == ' ' {
            push_char(&mut out, '\\');
            push_char(&mut out, ' ');
        } else {
            push_char(&mut out, c);
        }
        proof {
            let t = arg@.take(i + 1);
            assert(t.drop_last() =~= arg@.take(i as int));
            assert(t.last() == c);
            assert(out@ =~= desktop_escape_spec(arg@.take(i as int)) + escape_char(c));
        }
        i = i + 1;
    }
    proof {
        assert(arg@.take(n as int) =~= arg@);
    }
    out
}

proof fn lemma_escape_concat(a: Seq<char>, b: Seq<char>)
    ensures
        desktop_escape_spec(a + b) == desktop_escape_spec(a) + desktop_escape_spec(b),
    decreases b.len(),
{
    if b.len() == 0 {
        assert(a + b =~= a);
        assert(desktop_escape_spec(a) + Seq::<char>::empty() =~= desktop_escape_spec(a));
    } else {
        lemma_escape_concat(a, b.drop_last());
        assert((a + b).drop_last() =~= a + b.drop_last());
        assert((a + b).last() == b.last());
        assert(desktop_escape_spec(a + b) =~= desktop_escape_spec(a) + desktop_escape_spec(b));
    }
}

/// Reading back an escaped `Exec` value gives back the text that was escaped.
pub proof fn lemma_desktop_escape_roundtrip(s: Seq<char>)
    ensures
        desktop_unescape_spec(desktop_escape_spec(s)) == s,
    decreases s.len(),
{
    if s.len() == 0 {
        assert(desktop_escape_spec(s) =~= Seq::<char>::empty());
    } else {
        let head = seq![s[0]];
        let rest = s.drop_first();
        assert(s =~= head + rest);
        lemma_escape_concat(head, rest);
        assert(head.drop_last() =~= Seq::<char>::empty());
        assert(desktop_escape_spec(head.drop_last()) =~= Seq::<char>::empty());
        assert(head.last() == s[0]);
        assert(desktop_escape_spec(head) =~= Seq::<char>::empty() + escape_char(s[0]));
        assert(desktop_escape_spec(head) =~= escape_char(s[0]));
        lemma_desktop_escape_roundtrip(rest);
        let e = desktop_escape_spec(rest);
        let all = escape_char(s[0]) + e;
        if s[0] == '\\' || s[0] == ' ' {
            assert(all.skip(2) =~= e);
            assert(all[0] == '\\');
            assert(all[1] == s[0]);
        } else {
            assert(all.drop_first() =~= e);
            assert(all[0] == s[0]);
        }
        assert(desktop_unescape_spec(all) =~= s);
    }
}

/// Decimal digits of a natural number.
pub open spec fn nat_decimal(n: nat) -> Seq<char>
    decreases n,
{
    if n < 10 {
        seq![digit_char(n)]
    } else {
        nat_decimal(n / 10).push(digit_char(n % 10))
    }
}

pub open spec fn digit_char(d: nat) -> char {
    if d == 0 {
        '0'
    } else if d == 1 {
        '1'
    } else if d == 2 {
        '2'
    } else if d == 3 {
        '3'
    } else if d == 4 {
        '4'
    } else if d == 5 {
        '5'
    } else if d == 6 {
        '6'
    } else if d == 7 {
        '7'
    } else if d == 8 {
        '8'
    } else {
        '9'
    }
}

fn digit(d: u64) -> (c: char)
    requires
        d < 10,
    ensures
        c == digit_char(d as nat),
{
    if d == 0 {
        '0'
    } else if d == 1 {
        '1'
    } else if d == 2 {
        '2'
    } else if d == 3 {
        '3'
    } else if d == 4 {
        '4'
    } else if d == 5 {
        '5'
    } else if d == 6 {
        '6'
    } else if d == 7 {
        '7'
    } else if d == 8 {
        '8'
    } else {
        '9'
    }
}

/// Decimal form of an integer, with a leading `-` when negative (what `i64::to_string` gives).
pub open spec fn int_decimal(n: int) -> Seq<char> {
    if n < 0 {
        seq!['-'] + nat_decimal((-n) as nat)
    } else {
        nat_decimal(n as nat)
    }
}

fn push_decimal(s: &mut String, n: u64)
    ensures
        final(s)@ == old(s)@ + nat_decimal(n as nat),
    decreases n,
{
    if n >= 10 {
        push_decimal(s, n / 10);
    }
    let c = digit(n % 10);
    push_char(s, c);
    proof {
        if n >= 10 {
            assert(nat_decimal(n as nat) == nat_decimal((n / 10) as nat).push(digit_char((n % 10) as nat)));
        }
    }
}

/// Decimal text of an `i64`.
pub fn i64_to_decimal(n: i64) -> (r: String)
    ensures
        r@ == int_decimal(n as int),
{
    let mut s = String::new();
    if n < 0 {
        push_char(&mut s, '-');
        let m: u64 = ((-(n + 1)) as u64) + 1;
        push_decimal(&mut s, m);
    } else {
        push_decimal(&mut s, n as u64);
    }
    proof {
        assert(s@ =~= int_decimal(n as int));
    }
    s
}

/// Strict lexicographic order of strings by code point, which is the order of `String`.
pub open spec fn chars_lt(a: Seq<char>, b: Seq<char>) -> bool
    decreases a.len(),
{
    if a.len() == 0 {
        b.len() > 0
    } else if b.len() == 0 {
        false
    } else if a[0] != b[0] {
        (a[0] as int) < (b[0] as int)
    } else {
        chars_lt(a.drop_first(), b.drop_first())
    }
}

/// `a < b` for strings.
pub fn str_lt(a: &str, b: &str) -> (r: bool)
    ensures
        r == chars_lt(a@, b@),
{
    let n = a.unicode_len();
    let m = b.unicode_len();
    let mut i: usize = 0;
    proof {
        assert(a@.skip(0) =~= a@);
        assert(b@.skip(0) =~= b@);
    }
    while i < n && i < m && a.get_char(i) == b.get_char(i)
        invariant
            n == a@.len(),
            m == b@.len(),
            i <= n,
            i <= m,
            chars_lt(a@, b@) == chars_lt(a@.skip(i as int), b@.skip(i as int)),
        decreases n - i,
    {
        proof {
            let x = a@.skip(i as int);
            let y = b@.skip(i as int);
            assert(x.drop_first() =~= a@.skip(i + 1));
            assert(y.drop_first() =~= b@.skip(i + 1));
            assert(x[0] == y[0]);
        }
        i = i + 1;
    }
    if i == n {
        i < m
    } else if i == m {
        false
    } else {
        let x = a.get_char(i);
        let y = b.get_char(i);
        (x as u32) < (y as u32)
    }
}

/// Equality of two string slices.
pub fn str_eq(a: &str, b: &str) -> (r: bool)
    ensures
        r == (a@ == b@),
{
    let n = a.unicode_len();
    let m = b.unicode_len();
    if n != m {
        return false;
    }
    let mut i: usize = 0;
    while i < n
        invariant
            n == a@.len(),
            m == b@.len(),
            n == m,
            i <= n,
            forall|k: int| 0 <= k < i ==> a@[k] == b@[k],
        decreases n - i,
    {
        if a.get_char(i) != b.get_char(i) {
            return false;
        }
        i = i + 1;
    }
    proof {
        assert(a@ =~= b@);
    }
    true
}


/// No string sorts before itself.
pub proof fn lemma_chars_lt_irreflexive(a: Seq<char>)
    ensures
        !chars_lt(a, a),
    decreases a.len(),
{
    if a.len() > 0 {
        lemma_chars_lt_irreflexive(a.drop_first());
    }
}

/// The order of strings is transitive.
pub proof fn lemma_chars_lt_transitive(a: Seq<char>, b: Seq<char>, c: Seq<char>)
    requires
        chars_lt(a, b),
        chars_lt(b, c),
    ensures
        chars_lt(a, c),
    decreases a.len(),
{
    if a.len() > 0 && b.len() > 0 && c.len() > 0 {
        if a[0] == b[0] && b[0] == c[0] {
            lemma_chars_lt_transitive(a.drop_first(), b.drop_first(), c.drop_first());
        }
    }
}

/// Two different strings are ordered one way or the other.
pub proof fn lemma_chars_lt_total(a: Seq<char>, b: Seq<char>)
    requires
        a != b,
    ensures
        chars_lt(a, b) || chars_lt(b, a),
    decreases a.len(),
{
    if a.len() > 0 && b.len() > 0 && a[0] == b[0] {
        if a.drop_first() == b.drop_first() {
            assert(a =~= seq![a[0]] + a.drop_first());
            assert(b =~= seq![b[0]] + b.drop_first());
        }
        lemma_chars_lt_total(a.drop_first(), b.drop_first());
    }
    if a.len() > 0 && b.len() > 0 && a[0] != b[0] {
        assert((a[0] as int) != (b[0] as int));
    }
    if a.len() == 0 && b.len() == 0 {
        assert(a =~= b);
    }
}

} // verus!
