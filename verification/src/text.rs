//! Character-level text utilities with exact specifications.
use vstd::prelude::*;

verus! {

/// Unicode `White_Space` code points, the set that `char::is_whitespace` and `str::trim` use.
pub open spec fn is_ws(c: char) -> bool {
    let u = c as u32;
    ||| 0x09 <= u <= 0x0d
    ||| u == 0x20
    ||| u == 0x85
    ||| u == 0xa0
    ||| u == 0x1680
    ||| 0x2000 <= u <= 0x200a
    ||| u == 0x2028
    ||| u == 0x2029
    ||| u == 0x202f
    ||| u == 0x205f
    ||| u == 0x3000
}

/// What is stripped from the ends of a text: whitespace, or one given character.
#[derive(Clone, Copy, PartialEq, Eq, Structural)]
pub enum Strip {
    Whitespace,
    Char(char),
}

pub open spec fn strips(mode: Strip, c: char) -> bool {
    match mode {
        Strip::Whitespace => is_ws(c),
        Strip::Char(x) => c == x,
    }
}

/// Number of leading characters of `s` that `mode` strips.
pub open spec fn lead_len(s: Seq<char>, mode: Strip) -> nat
    decreases s.len(),
{
    if s.len() == 0 || !strips(mode, s[0]) {
        0
    } else {
        1 + lead_len(s.subrange(1, s.len() as int), mode)
    }
}

/// Number of trailing characters of `s` that `mode` strips.
pub open spec fn trail_len(s: Seq<char>, mode: Strip) -> nat
    decreases s.len(),
{
    if s.len() == 0 || !strips(mode, s[s.len() - 1]) {
        0
    } else {
        1 + trail_len(s.subrange(0, s.len() - 1), mode)
    }
}

/// `s` without the leading characters that `mode` strips.
pub open spec fn strip_start(s: Seq<char>, mode: Strip) -> Seq<char> {
    s.subrange(lead_len(s, mode) as int, s.len() as int)
}

/// `s` without the trailing characters that `mode` strips.
pub open spec fn strip_end(s: Seq<char>, mode: Strip) -> Seq<char> {
    s.subrange(0, s.len() - trail_len(s, mode))
}

/// `s` without the characters that `mode` strips at either end (`str::trim`, `str::trim_matches`).
pub open spec fn strip_both(s: Seq<char>, mode: Strip) -> Seq<char> {
    strip_end(strip_start(s, mode), mode)
}

/// `str::trim`.
pub open spec fn trim(s: Seq<char>) -> Seq<char> {
    strip_both(s, Strip::Whitespace)
}

pub proof fn lemma_lead_len(s: Seq<char>, mode: Strip, i: int)
    requires
        0 <= i <= s.len(),
        forall|j: int| 0 <= j < i ==> strips(mode, #[trigger] s[j]),
        i == s.len() || !strips(mode, s[i]),
    ensures
        lead_len(s, mode) == i,
    decreases i,
{
    if i > 0 {
        let t = s.subrange(1, s.len() as int);
        assert forall|j: int| 0 <= j < i - 1 implies strips(mode, #[trigger] t[j]) by {
            assert(t[j] == s[j + 1]);
        }
        if i - 1 < t.len() {
            assert(t[i - 1] == s[i]);
        }
        lemma_lead_len(t, mode, i - 1);
    }
}

pub proof fn lemma_trail_len(s: Seq<char>, mode: Strip, k: int)
    requires
        0 <= k <= s.len(),
        forall|j: int| s.len() - k <= j < s.len() ==> strips(mode, #[trigger] s[j]),
        k == s.len() || !strips(mode, s[s.len() - k - 1]),
    ensures
        trail_len(s, mode) == k,
    decreases k,
{
    if k > 0 {
        let t = s.subrange(0, s.len() - 1);
        assert forall|j: int| t.len() - (k - 1) <= j < t.len() implies strips(
            mode,
            #[trigger] t[j],
        ) by {
            assert(t[j] == s[j]);
        }
        if k - 1 < t.len() {
            assert(t[t.len() - (k - 1) - 1] == s[s.len() - k - 1]);
        }
        lemma_trail_len(t, mode, k - 1);
    }
}

pub proof fn lemma_lead_len_bound(s: Seq<char>, mode: Strip)
    ensures
        lead_len(s, mode) <= s.len(),
        forall|j: int| 0 <= j < lead_len(s, mode) ==> strips(mode, #[trigger] s[j]),
        lead_len(s, mode) < s.len() ==> !strips(mode, s[lead_len(s, mode) as int]),
    decreases s.len(),
{
    if s.len() > 0 && strips(mode, s[0]) {
        let t = s.subrange(1, s.len() as int);
        lemma_lead_len_bound(t, mode);
        assert forall|j: int| 0 <= j < lead_len(s, mode) implies strips(mode, #[trigger] s[j]) by {
            if j > 0 {
                assert(s[j] == t[j - 1]);
            }
        }
        if lead_len(s, mode) < s.len() {
            assert(s[lead_len(s, mode) as int] == t[lead_len(t, mode) as int]);
        }
    }
}

pub proof fn lemma_trail_len_bound(s: Seq<char>, mode: Strip)
    ensures
        trail_len(s, mode) <= s.len(),
        forall|j: int|
            s.len() - trail_len(s, mode) <= j < s.len() ==> strips(mode, #[trigger] s[j]),
        trail_len(s, mode) < s.len() ==> !strips(mode, s[s.len() - trail_len(s, mode) - 1]),
    decreases s.len(),
{
    if s.len() > 0 && strips(mode, s[s.len() - 1]) {
        let t = s.subrange(0, s.len() - 1);
        lemma_trail_len_bound(t, mode);
        assert forall|j: int|
            s.len() - trail_len(s, mode) <= j < s.len() implies strips(mode, #[trigger] s[j]) by {
            if j < s.len() - 1 {
                assert(s[j] == t[j]);
            }
        }
        if trail_len(s, mode) < s.len() {
            assert(s[s.len() - trail_len(s, mode) - 1] == t[t.len() - trail_len(t, mode) - 1]);
        }
    }
}

/// The result of stripping starts and ends with a character that is kept, or is empty.
pub proof fn lemma_strip_both_ends(s: Seq<char>, mode: Strip)
    ensures
        strip_both(s, mode).len() > 0 ==> !strips(mode, strip_both(s, mode)[0]) && !strips(
            mode,
            strip_both(s, mode)[strip_both(s, mode).len() - 1],
        ),
        strip_both(s, mode).len() <= s.len(),
{
    let a = strip_start(s, mode);
    lemma_lead_len_bound(s, mode);
    lemma_trail_len_bound(a, mode);
    let b = strip_end(a, mode);
    if b.len() > 0 {
        assert(b[0] == a[0]);
        assert(a[0] == s[lead_len(s, mode) as int]);
        assert(b[b.len() - 1] == a[a.len() - trail_len(a, mode) - 1]);
    }
}

/// `String::push` (std): appends one character. Its documentation promises
/// exactly this; the contract claims nothing more.
#[verifier::external_body]
fn push_char(s: &mut String, c: char)
    ensures
        final(s)@ == old(s)@.push(c),
{
    s.push(c);
}

/// The characters of `s`, in order.
pub fn chars_of(s: &str) -> (r: Vec<char>)
    ensures
        r@ == s@,
{
    let n = s.unicode_len();
    let mut r: Vec<char> = Vec::new();
    let mut i: usize = 0;
    while i < n
        invariant
            n == s@.len(),
            i <= n,
            r@ == s@.subrange(0, i as int),
        decreases n - i,
    {
        let c = s.get_char(i);
        r.push(c);
        i = i + 1;
        assert(r@ =~= s@.subrange(0, i as int));
    }
    assert(r@ =~= s@);
    r
}

/// A string made of the characters `cs`.
pub fn string_of(cs: &[char]) -> (r: String)
    ensures
        r@ == cs@,
{
    let mut r = String::new();
    let mut i: usize = 0;
    while i < cs.len()
        invariant
            i <= cs@.len(),
            r@ == cs@.subrange(0, i as int),
        decreases cs.len() - i,
    {
        push_char(&mut r, cs[i]);
        i = i + 1;
        assert(r@ =~= cs@.subrange(0, i as int));
    }
    assert(r@ =~= cs@);
    r
}

/// Appends `cs` to `s`.
pub fn append_chars(s: &mut String, cs: &[char])
    ensures
        final(s)@ == old(s)@ + cs@,
{
    let ghost start = s@;
    let mut i: usize = 0;
    while i < cs.len()
        invariant
            i <= cs@.len(),
            s@ == start + cs@.subrange(0, i as int),
        decreases cs.len() - i,
    {
        push_char(s, cs[i]);
        i = i + 1;
        assert(s@ =~= start + cs@.subrange(0, i as int));
    }
    assert(s@ =~= start + cs@);
}

pub fn strips_char(mode: Strip, c: char) -> (r: bool)
    ensures
        r == strips(mode, c),
{
    match mode {
        Strip::Whitespace => {
            let u = c as u32;
            (0x09 <= u && u <= 0x0d) || u == 0x20 || u == 0x85 || u == 0xa0 || u == 0x1680 || (
            0x2000 <= u && u <= 0x200a) || u == 0x2028 || u == 0x2029 || u == 0x202f || u
                == 0x205f || u == 0x3000
        },
        Strip::Char(x) => c == x,
    }
}

/// `cs` without the characters that `mode` strips at either end.
pub fn strip_chars(cs: &[char], mode: Strip) -> (r: Vec<char>)
    ensures
        r@ == strip_both(cs@, mode),
{
    let n = cs.len();
    let mut a: usize = 0;
    while a < n && strips_char(mode, cs[a])
        invariant
            n == cs@.len(),
            a <= n,
            forall|j: int| 0 <= j < a ==> strips(mode, #[trigger] cs@[j]),
        decreases n - a,
    {
        a = a + 1;
    }
    proof {
        lemma_lead_len(cs@, mode, a as int);
    }
    let ghost mid = strip_start(cs@, mode);
    let mut b: usize = n;
    while b > a && strips_char(mode, cs[b - 1])
        invariant
            n == cs@.len(),
            a <= b <= n,
            mid == cs@.subrange(a as int, n as int),
            forall|j: int| b <= j < n ==> strips(mode, #[trigger] cs@[j]),
        decreases b - a,
    {
        b = b - 1;
    }
    proof {
        let k = (n - b) as int;
        assert forall|j: int| mid.len() - k <= j < mid.len() implies strips(
            mode,
            #[trigger] mid[j],
        ) by {
            assert(mid[j] == cs@[a + j]);
        }
        if k < mid.len() {
            assert(mid[mid.len() - k - 1] == cs@[b - 1]);
        }
        lemma_trail_len(mid, mode, k);
    }
    let mut r: Vec<char> = Vec::new();
    let mut i: usize = a;
    while i < b
        invariant
            a <= i <= b <= n,
            n == cs@.len(),
            r@ == cs@.subrange(a as int, i as int),
        decreases b - i,
    {
        r.push(cs[i]);
        i = i + 1;
        assert(r@ =~= cs@.subrange(a as int, i as int));
    }
    assert(r@ =~= strip_both(cs@, mode));
    r
}

/// `str::trim`, as characters.
pub fn trim_str(s: &str) -> (r: Vec<char>)
    ensures
        r@ == trim(s@),
{
    let cs = chars_of(s);
    strip_chars(cs.as_slice(), Strip::Whitespace)
}

/// ASCII lower case of one character (`char::to_ascii_lowercase`).
pub open spec fn ascii_lower(c: char) -> char {
    if 'A' <= c <= 'Z' {
        ((c as u32) + 32) as char
    } else {
        c
    }
}

pub fn ascii_lower_char(c: char) -> (r: char)
    ensures
        r == ascii_lower(c),
{
    if 'A' <= c && c <= 'Z' {
        let b = (c as u8) + 32;
        let r = b as char;
        assert(r == ((c as u32) + 32) as char);
        r
    } else {
        c
    }
}

/// `str::to_ascii_lowercase`, on characters.
pub open spec fn ascii_lower_seq(s: Seq<char>) -> Seq<char> {
    s.map_values(|c: char| ascii_lower(c))
}

pub fn ascii_lower_chars(cs: &[char]) -> (r: Vec<char>)
    ensures
        r@ == ascii_lower_seq(cs@),
{
    let mut r: Vec<char> = Vec::new();
    let mut i: usize = 0;
    while i < cs.len()
        invariant
            i <= cs@.len(),
            r@ == ascii_lower_seq(cs@.subrange(0, i as int)),
        decreases cs.len() - i,
    {
        r.push(ascii_lower_char(cs[i]));
        i = i + 1;
        assert(r@ =~= ascii_lower_seq(cs@.subrange(0, i as int)));
    }
    assert(cs@.subrange(0, cs@.len() as int) =~= cs@);
    r
}

/// The decimal digit character for `d < 10`.
pub open spec fn digit_char(d: nat) -> char {
    (('0' as u32) + d) as char
}

/// The decimal representation of `n`, without sign or leading zeros.
pub open spec fn decimal(n: nat) -> Seq<char>
    decreases n,
{
    if n < 10 {
        seq![digit_char(n)]
    } else {
        decimal(n / 10).push(digit_char(n % 10))
    }
}

fn digit_of(d: u64) -> (c: char)
    requires
        d < 10,
    ensures
        c == digit_char(d as nat),
{
    let b = (d as u8) + 48;
    b as char
}

/// Appends the decimal representation of `n` to `s`.
pub fn push_decimal(s: &mut String, n: u64)
    ensures
        final(s)@ == old(s)@ + decimal(n as nat),
    decreases n,
{
    if n >= 10 {
        push_decimal(s, n / 10);
    }
    push_char(s, digit_of(n % 10));
}

/// The decimal representation of `n` (what `{}` formatting prints for an unsigned integer).
pub fn decimal_string(n: u64) -> (r: String)
    ensures
        r@ == decimal(n as nat),
{
    let mut r = String::new();
    push_decimal(&mut r, n);
    assert(r@ =~= decimal(n as nat));
    r
}

} // verus!
verus! {

/// Number of bytes that UTF-8 uses for `c`.
pub open spec fn utf8_width(c: char) -> nat {
    let u = c as u32;
    if u < 0x80 {
        1
    } else if u < 0x800 {
        2
    } else if u < 0x10000 {
        3
    } else {
        4
    }
}

/// Number of bytes of the UTF-8 encoding of `s` (what `str::len` returns).
pub open spec fn utf8_len(s: Seq<char>) -> nat
    decreases s.len(),
{
    if s.len() == 0 {
        0
    } else {
        utf8_len(s.drop_last()) + utf8_width(s.last())
    }
}

/// Whether the UTF-8 encoding of `cs` is longer than `limit` bytes.
pub fn utf8_len_exceeds(cs: &[char], limit: usize) -> (r: bool)
    ensures
        r == (utf8_len(cs@) > limit),
{
    let mut total: usize = 0;
    let mut i: usize = 0;
    while i < cs.len()
        invariant
            i <= cs@.len(),
            total == utf8_len(cs@.subrange(0, i as int)),
            total <= limit,
        decreases cs.len() - i,
    {
        let u = cs[i] as u32;
        let w: usize = if u < 0x80 {
            1
        } else if u < 0x800 {
            2
        } else if u < 0x10000 {
            3
        } else {
            4
        };
        assert(cs@.subrange(0, i + 1).drop_last() =~= cs@.subrange(0, i as int));
        if w > limit - total {
            proof {
                lemma_utf8_len_prefix(cs@, i + 1);
            }
            return true;
        }
        total = total + w;
        i = i + 1;
    }
    assert(cs@.subrange(0, cs@.len() as int) =~= cs@);
    false
}

/// A prefix is never longer in UTF-8 than the whole.
pub proof fn lemma_utf8_len_prefix(s: Seq<char>, k: int)
    requires
        0 <= k <= s.len(),
    ensures
        utf8_len(s.subrange(0, k)) <= utf8_len(s),
    decreases s.len() - k,
{
    if k < s.len() {
        lemma_utf8_len_prefix(s, k + 1);
        assert(s.subrange(0, k + 1).drop_last() =~= s.subrange(0, k));
    } else {
        assert(s.subrange(0, k) =~= s);
    }
}

} // verus!
verus! {

/// Lexicographic order of texts by code point; it is the byte order of
/// their UTF-8 encodings, which `String`'s `Ord` uses.
pub open spec fn lex_le(a: Seq<char>, b: Seq<char>) -> bool
    decreases a.len(),
{
    if a.len() == 0 {
        true
    } else if b.len() == 0 {
        false
    } else if a[0] != b[0] {
        a[0] < b[0]
    } else {
        lex_le(a.drop_first(), b.drop_first())
    }
}

pub proof fn lemma_lex_total(a: Seq<char>, b: Seq<char>)
    ensures
        lex_le(a, b) || lex_le(b, a),
        lex_le(a, b) && lex_le(b, a) ==> a == b,
        lex_le(a, a),
    decreases a.len(),
{
    if a.len() > 0 && b.len() > 0 {
        lemma_lex_total(a.drop_first(), b.drop_first());
        if a[0] == b[0] && lex_le(a, b) && lex_le(b, a) {
            assert(a =~= seq![a[0]] + a.drop_first());
            assert(b =~= seq![b[0]] + b.drop_first());
        }
    } else if a.len() == 0 && b.len() == 0 {
        assert(a =~= b);
    }
    if a.len() > 0 {
        lemma_lex_total(a.drop_first(), a.drop_first());
    }
}

pub proof fn lemma_lex_trans(a: Seq<char>, b: Seq<char>, c: Seq<char>)
    requires
        lex_le(a, b),
        lex_le(b, c),
    ensures
        lex_le(a, c),
    decreases a.len(),
{
    if a.len() > 0 && b.len() > 0 && c.len() > 0 {
        if a[0] == b[0] && b[0] == c[0] {
            lemma_lex_trans(a.drop_first(), b.drop_first(), c.drop_first());
        }
    }
}

/// Whether `a` comes before or equals `b` in lexicographic code-point order.
pub fn chars_le(a: &[char], b: &[char]) -> (r: bool)
    ensures
        r == lex_le(a@, b@),
{
    let mut i: usize = 0;
    assert(a@.subrange(0, a@.len() as int) =~= a@);
    assert(b@.subrange(0, b@.len() as int) =~= b@);
    while i < a.len() && i < b.len() && a[i] == b[i]
        invariant
            i <= a@.len(),
            i <= b@.len(),
            forall|j: int| 0 <= j < i ==> a@[j] == b@[j],
            lex_le(a@, b@) == lex_le(a@.subrange(i as int, a@.len() as int), b@.subrange(i as int, b@.len() as int)),
        decreases a.len() - i,
    {
        proof {
            let sa = a@.subrange(i as int, a@.len() as int);
            let sb = b@.subrange(i as int, b@.len() as int);
            assert(sa.drop_first() =~= a@.subrange(i + 1, a@.len() as int));
            assert(sb.drop_first() =~= b@.subrange(i + 1, b@.len() as int));
        }
        i = i + 1;
    }
    if i == a.len() {
        return true;
    }
    if i == b.len() {
        return false;
    }
    a[i] < b[i]
}

} // verus!
