//! Text primitives shared by the runtime-event, profile-cache and view modules:
//! Unicode whitespace, trimming, the search normalization used for semantic keys,
//! bounded scope text, lexicographic ordering and small formatting helpers.
use vstd::prelude::*;
use vstd::string::*;

verus! {

/// The Unicode `White_Space` property, which is what `char::is_whitespace` reports.
pub open spec fn is_ws(c: char) -> bool {
    let v = c as u32;
    ||| 0x09 <= v <= 0x0d
    ||| v == 0x20
    ||| v == 0x85
    ||| v == 0xa0
    ||| v == 0x1680
    ||| 0x2000 <= v <= 0x200a
    ||| v == 0x2028
    ||| v == 0x2029
    ||| v == 0x202f
    ||| v == 0x205f
    ||| v == 0x3000
}

/// Drops leading whitespace.
pub open spec fn trim_start(s: Seq<char>) -> Seq<char>
    decreases s.len(),
{
    if s.len() > 0 && is_ws(s[0]) {
        trim_start(s.drop_first())
    } else {
        s
    }
}

/// Drops trailing whitespace.
pub open spec fn trim_end(s: Seq<char>) -> Seq<char>
    decreases s.len(),
{
    if s.len() > 0 && is_ws(s.last()) {
        trim_end(s.drop_last())
    } else {
        s
    }
}

/// `str::trim`: both ends stripped of whitespace.
pub open spec fn trim(s: Seq<char>) -> Seq<char> {
    trim_end(trim_start(s))
}

/// The characters of `str::to_lowercase` applied to a text (full Unicode case mapping).
pub uninterp spec fn lowercase(s: Seq<char>) -> Seq<char>;

/// The search normalization of a text: surrounding whitespace removed, then lower-cased.
pub open spec fn normalized(s: Seq<char>) -> Seq<char> {
    lowercase(trim(s))
}

/// Number of bytes of the UTF-8 encoding of a text.
pub open spec fn utf8_len(s: Seq<char>) -> nat {
    vstd::utf8::encode_utf8(s).len()
}

/// Longest scope text (in UTF-8 bytes) that a runtime event may carry.
pub const MAX_SCOPE_TEXT_BYTES: usize = 256;

/// A scope text is non-empty and at most `MAX_SCOPE_TEXT_BYTES` bytes long.
pub open spec fn bounded_text_spec(s: Seq<char>) -> bool {
    s.len() > 0 && utf8_len(s) <= MAX_SCOPE_TEXT_BYTES
}

/// Lexicographic order on character sequences; it is the order of Rust's `str`
/// comparison, since UTF-8 preserves code point order.
pub open spec fn chars_lt(a: Seq<char>, b: Seq<char>) -> bool
    decreases a.len(),
{
    if b.len() == 0 {
        false
    } else if a.len() == 0 {
        true
    } else if a[0] != b[0] {
        a[0] < b[0]
    } else {
        chars_lt(a.drop_first(), b.drop_first())
    }
}

/// `chars_lt` is irreflexive.
pub proof fn lemma_chars_lt_irreflexive(a: Seq<char>)
    ensures
        !chars_lt(a, a),
    decreases a.len(),
{
    if a.len() > 0 {
        lemma_chars_lt_irreflexive(a.drop_first());
    }
}

/// `chars_lt` is transitive.
pub proof fn lemma_chars_lt_transitive(a: Seq<char>, b: Seq<char>, c: Seq<char>)
    requires
        chars_lt(a, b),
        chars_lt(b, c),
    ensures
        chars_lt(a, c),
    decreases a.len(),
{
    if a.len() > 0 && b.len() > 0 && c.len() > 0 && a[0] == b[0] && b[0] == c[0] {
        lemma_chars_lt_transitive(a.drop_first(), b.drop_first(), c.drop_first());
    }
}

/// `chars_lt` is total on distinct sequences.
pub proof fn lemma_chars_lt_total(a: Seq<char>, b: Seq<char>)
    requires
        a != b,
    ensures
        chars_lt(a, b) || chars_lt(b, a),
    decreases a.len(),
{
    if a.len() > 0 && b.len() > 0 {
        if a[0] == b[0] {
            if a.drop_first() == b.drop_first() {
                assert(a =~= seq![a[0]] + a.drop_first());
                assert(b =~= seq![b[0]] + b.drop_first());
                assert(a == b);
            }
            lemma_chars_lt_total(a.drop_first(), b.drop_first());
        }
    } else if a.len() == 0 && b.len() == 0 {
        assert(a =~= b);
    }
}

/// `chars_lt` is asymmetric.
pub proof fn lemma_chars_lt_asymmetric(a: Seq<char>, b: Seq<char>)
    requires
        chars_lt(a, b),
    ensures
        !chars_lt(b, a),
    decreases a.len(),
{
    if a.len() > 0 && b.len() > 0 && a[0] == b[0] {
        lemma_chars_lt_asymmetric(a.drop_first(), b.drop_first());
    }
}

/// `char::is_whitespace`.
pub fn is_whitespace(c: char) -> (r: bool)
    ensures
        r == is_ws(c),
{
    let v = c as u32;
    (0x09 <= v && v <= 0x0d) || v == 0x20 || v == 0x85 || v == 0xa0 || v == 0x1680 || (0x2000
        <= v && v <= 0x200a) || v == 0x2028 || v == 0x2029 || v == 0x202f || v == 0x205f || v
        == 0x3000
}

/// Calls `String::push`, which appends one character to the text; that is all the
/// contract claims of it.
#[verifier::external_body]
pub(crate) fn push_char(s: &mut String, c: char)
    ensures
        final(s)@ == old(s)@.push(c),
{
    s.push(c);
}

/// Calls `str::to_lowercase`; the result is the full Unicode lower-case mapping of the text,
/// which this crate names `lowercase` and does not spell out.
#[verifier::external_body]
pub(crate) fn to_lowercase(s: &str) -> (r: String)
    ensures
        r@ == lowercase(s@),
{
    s.to_lowercase()
}

/// The characters of a text, in order.
pub fn to_chars(s: &str) -> (out: Vec<char>)
    ensures
        out@ == s@,
{
    let n = s.unicode_len();
    let mut out: Vec<char> = Vec::new();
    let mut i: usize = 0;
    while i < n
        invariant
            n == s@.len(),
            i <= n,
            out@ == s@.subrange(0, i as int),
        decreases n - i,
    {
        let c = s.get_char(i);
        out.push(c);
        i = i + 1;
        assert(out@ =~= s@.subrange(0, i as int));
    }
    assert(out@ =~= s@);
    out
}

/// A text made of `chars[from..to]`.
pub fn string_from_range(chars: &Vec<char>, from: usize, to: usize) -> (out: String)
    requires
        from <= to <= chars.len(),
    ensures
        out@ == chars@.subrange(from as int, to as int),
{
    let mut out = String::new();
    let mut i = from;
    while i < to
        invariant
            from <= i <= to,
            to <= chars.len(),
            out@ == chars@.subrange(from as int, i as int),
        decreases to - i,
    {
        push_char(&mut out, chars[i]);
        i = i + 1;
        assert(out@ =~= chars@.subrange(from as int, i as int));
    }
    out
}

proof fn lemma_trim_start_step(s: Seq<char>, i: int)
    requires
        0 <= i < s.len(),
        is_ws(s[i]),
    ensures
        trim_start(s.subrange(i, s.len() as int)) == trim_start(s.subrange(i + 1, s.len() as int)),
{
    assert(s.subrange(i, s.len() as int).drop_first() =~= s.subrange(i + 1, s.len() as int));
}

proof fn lemma_trim_end_step(s: Seq<char>, j: int)
    requires
        0 < j <= s.len(),
        is_ws(s[j - 1]),
    ensures
        trim_end(s.subrange(0, j)) == trim_end(s.subrange(0, j - 1)),
{
    assert(s.subrange(0, j).drop_last() =~= s.subrange(0, j - 1));
}

/// `str::trim`.
pub fn trim_text(s: &str) -> (out: String)
    ensures
        out@ == trim(s@),
{
    let chars = to_chars(s);
    let n = chars.len();
    let mut i: usize = 0;
    assert(chars@.subrange(0, n as int) =~= chars@);
    while i < n && is_whitespace(chars[i])
        invariant
            i <= n,
            n == chars@.len(),
            trim_start(chars@) == trim_start(chars@.subrange(i as int, n as int)),
        decreases n - i,
    {
        proof {
            lemma_trim_start_step(chars@, i as int);
        }
        i = i + 1;
    }
    let ghost rest = chars@.subrange(i as int, n as int);
    assert(trim_start(rest) == rest);
    let mut j: usize = n;
    assert(rest.subrange(0, (j - i) as int) =~= rest);
    while j > i && is_whitespace(chars[j - 1])
        invariant
            i <= j <= n,
            n == chars@.len(),
            rest == chars@.subrange(i as int, n as int),
            trim_end(rest) == trim_end(rest.subrange(0, (j - i) as int)),
        decreases j,
    {
        proof {
            lemma_trim_end_step(rest, (j - i) as int);
        }
        j = j - 1;
    }
    let ghost kept = rest.subrange(0, (j - i) as int);
    assert(trim_end(kept) == kept);
    assert(kept =~= chars@.subrange(i as int, j as int));
    string_from_range(&chars, i, j)
}

/// The search normalization used for semantic grouping keys: `to_lowercase(trim(text))`.
pub fn normalize(s: &str) -> (out: String)
    ensures
        out@ == normalized(s@),
{
    let trimmed = trim_text(s);
    to_lowercase(trimmed.as_str())
}

/// A scope text is non-empty and at most `MAX_SCOPE_TEXT_BYTES` UTF-8 bytes long.
pub fn bounded_text(s: &str) -> (r: bool)
    ensures
        r == bounded_text_spec(s@),
{
    let bytes = s.as_bytes().len();
    !s.is_empty() && bytes <= MAX_SCOPE_TEXT_BYTES
}

/// Lexicographic comparison of two character sequences.
pub fn chars_less(a: &Vec<char>, b: &Vec<char>) -> (r: bool)
    ensures
        r == chars_lt(a@, b@),
{
    let mut i: usize = 0;
    assert(a@.subrange(0, a.len() as int) =~= a@);
    assert(b@.subrange(0, b.len() as int) =~= b@);
    while i < a.len() && i < b.len() && a[i] == b[i]
        invariant
            i <= a.len(),
            i <= b.len(),
            chars_lt(a@, b@) == chars_lt(
                a@.subrange(i as int, a.len() as int),
                b@.subrange(i as int, b.len() as int),
            ),
        decreases a.len() - i,
    {
        proof {
            let sa = a@.subrange(i as int, a.len() as int);
            let sb = b@.subrange(i as int, b.len() as int);
            assert(sa.drop_first() =~= a@.subrange(i + 1, a.len() as int));
            assert(sb.drop_first() =~= b@.subrange(i + 1, b.len() as int));
        }
        i = i + 1;
    }
    proof {
        let sa = a@.subrange(i as int, a.len() as int);
        let sb = b@.subrange(i as int, b.len() as int);
        if i < a.len() && i < b.len() {
            assert(sa[0] == a@[i as int]);
            assert(sb[0] == b@[i as int]);
        }
    }
    if i == b.len() {
        false
    } else if i == a.len() {
        true
    } else {
        a[i] < b[i]
    }
}

/// Text equality by characters.
pub fn text_eq(a: &str, b: &str) -> (r: bool)
    ensures
        r == (a@ == b@),
{
    let ca = to_chars(a);
    let cb = to_chars(b);
    if ca.len() != cb.len() {
        return false;
    }
    let mut i: usize = 0;
    while i < ca.len()
        invariant
            i <= ca.len(),
            ca.len() == cb.len(),
            ca@ == a@,
            cb@ == b@,
            ca@.subrange(0, i as int) == cb@.subrange(0, i as int),
        decreases ca.len() - i,
    {
        if ca[i] != cb[i] {
            assert(ca@[i as int] != cb@[i as int]);
            assert(ca@ != cb@);
            return false;
        }
        i = i + 1;
        assert(ca@.subrange(0, i as int) =~= cb@.subrange(0, i as int));
    }
    assert(ca@ =~= ca@.subrange(0, i as int));
    assert(cb@ =~= cb@.subrange(0, i as int));
    true
}

/// A new owned copy of a text.
pub fn owned(s: &str) -> (out: String)
    ensures
        out@ == s@,
{
    s.to_owned()
}

/// The concatenation of two texts.
pub fn concat(a: &str, b: &str) -> (out: String)
    ensures
        out@ == a@ + b@,
{
    let mut out = a.to_owned();
    out.append(b);
    out
}


/// The ASCII digit for `d < 10`.
pub open spec fn digit_char(d: int) -> char {
    (48 + d) as char
}

/// The decimal digits of `n`, most significant first, as `format!("{}", n)` writes them.
pub open spec fn decimal(n: nat) -> Seq<char>
    decreases n,
{
    if n < 10 {
        seq![digit_char(n as int)]
    } else {
        decimal(n / 10).push(digit_char((n % 10) as int))
    }
}

/// The ASCII lower-case hex digit for `d < 16`.
pub open spec fn hex_char(d: int) -> char {
    if d < 10 {
        (48 + d) as char
    } else {
        (87 + d) as char
    }
}

/// The lowest `k` hex digits of `n`, most significant first, zero-padded.
pub open spec fn hex_digits(n: nat, k: nat) -> Seq<char>
    decreases k,
{
    if k == 0 {
        seq![]
    } else {
        hex_digits(n / 16, (k - 1) as nat).push(hex_char((n % 16) as int))
    }
}

/// `format!("{}", n)`.
pub fn decimal_text(n: u64) -> (out: String)
    ensures
        out@ == decimal(n as nat),
    decreases n,
{
    let d = (n % 10) as u8;
    let c = (48u8 + d) as char;
    assert(c == digit_char((n % 10) as int));
    if n < 10 {
        let mut out = String::new();
        push_char(&mut out, c);
        assert(out@ =~= seq![c]);
        out
    } else {
        let mut out = decimal_text(n / 10);
        push_char(&mut out, c);
        out
    }
}

/// `format!("{:0k$x}", n)` for the lowest `k` hex digits.
pub fn hex_text(n: u64, k: u32) -> (out: String)
    ensures
        out@ == hex_digits(n as nat, k as nat),
    decreases k,
{
    if k == 0 {
        let out = String::new();
        assert(out@ =~= Seq::<char>::empty());
        out
    } else {
        let d = (n % 16) as u8;
        let c = if d < 10 {
            (48u8 + d) as char
        } else {
            (87u8 + d) as char
        };
        assert(c == hex_char((n % 16) as int));
        let mut out = hex_text(n / 16, k - 1);
        push_char(&mut out, c);
        out
    }
}


/// Equality of two character vectors.
pub fn vec_chars_eq(a: &Vec<char>, b: &Vec<char>) -> (r: bool)
    ensures
        r == (a@ == b@),
{
    if a.len() != b.len() {
        return false;
    }
    let mut i: usize = 0;
    while i < a.len()
        invariant
            i <= a.len(),
            a.len() == b.len(),
            a@.subrange(0, i as int) == b@.subrange(0, i as int),
        decreases a.len() - i,
    {
        if a[i] != b[i] {
            assert(a@[i as int] != b@[i as int]);
            return false;
        }
        i = i + 1;
        assert(a@.subrange(0, i as int) =~= b@.subrange(0, i as int));
    }
    assert(a@ =~= a@.subrange(0, i as int));
    assert(b@ =~= b@.subrange(0, i as int));
    true
}

} // verus!
