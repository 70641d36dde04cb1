//! Configuration of the administrator ESP: the flags that grant it and the
//! outline colours of the two teams.
use crate::flags::{
    all_flags, canonical, canonical_chars, first_non_flag, is_flag, law_canonical_is_sorted_set,
};
use crate::text::{
    ascii_lower_chars, ascii_lower_seq, append_chars, chars_of, decimal, is_ws, lemma_lead_len,
    lemma_trail_len, push_decimal, string_of, strip_end, strip_start, trim, trim_str, Strip,
};
use vstd::prelude::*;

verus! {

/// An RGB colour.
#[derive(Clone, Copy, Debug, PartialEq, Eq, Structural)]
pub struct Color {
    pub red: u8,
    pub green: u8,
    pub blue: u8,
}

/// The colour as the glow entity expects it: `"R G B 255"` in decimal.
pub open spec fn entity_text(c: Color) -> Seq<char> {
    decimal(c.red as nat) + " "@ + decimal(c.green as nat) + " "@ + decimal(c.blue as nat)
        + " 255"@
}

impl Color {
    pub fn entity_value(self) -> (r: String)
        ensures
            r@ == entity_text(self),
    {
        let mut s = String::new();
        push_decimal(&mut s, self.red as u64);
        s.append(" ");
        push_decimal(&mut s, self.green as u64);
        s.append(" ");
        push_decimal(&mut s, self.blue as u64);
        s.append(" 255");
        assert(s@ =~= entity_text(self));
        s
    }
}

/// The ESP configuration once checked.
#[derive(Debug, Clone)]
pub struct Config {
    pub admin_flag_all: String,
    pub admin_flag_death: String,
    pub ct_color: Color,
    pub t_color: Color,
}

/// The ESP configuration as written in the configuration file.
#[derive(Debug, Clone)]
pub struct RawConfig {
    pub admin_flag_all: String,
    pub admin_flag_death: String,
    pub ct_color: String,
    pub t_color: String,
}

pub fn default_admin_flag_all() -> (r: String)
    ensures
        r@ == "z"@,
{
    String::from_str("z")
}

pub fn default_admin_flag_death() -> (r: String)
    ensures
        r@ == "b"@,
{
    String::from_str("b")
}

pub fn default_ct_color() -> (r: String)
    ensures
        r@ == "#4968F7"@,
{
    String::from_str("#4968F7")
}

pub fn default_t_color() -> (r: String)
    ensures
        r@ == "#E2AD36"@,
{
    String::from_str("#E2AD36")
}

impl RawConfig {
    /// The configuration used when no file exists.
    pub fn default_config() -> (r: Self)
        ensures
            r.admin_flag_all@ == "z"@,
            r.admin_flag_death@ == "b"@,
            r.ct_color@ == "#4968F7"@,
            r.t_color@ == "#E2AD36"@,
    {
        RawConfig {
            admin_flag_all: default_admin_flag_all(),
            admin_flag_death: default_admin_flag_death(),
            ct_color: default_ct_color(),
            t_color: default_t_color(),
        }
    }
}

/// Whether `i` is the index of the first character of `s` that is not a flag letter.
pub open spec fn is_first_non_flag(s: Seq<char>, i: int) -> bool {
    0 <= i < s.len() && !is_flag(s[i]) && all_flags(s.subrange(0, i))
}

/// What `canonical_flags` gives for the text `v` of the setting named `field`.
pub open spec fn canonical_flags_result(v: Seq<char>, field: Seq<char>) -> Result<
    Seq<char>,
    Seq<char>,
> {
    let t = ascii_lower_seq(trim(v));
    if t.len() == 0 {
        Err(field + " cannot be empty"@)
    } else if !all_flags(t) {
        let i = choose|i: int| is_first_non_flag(t, i);
        Err(field + " contains unsupported SourceMod flag '"@ + seq![t[i]]
            + "'; allowed flags are a-t and z"@)
    } else {
        Ok(canonical(t))
    }
}

pub open spec fn result_view(r: Result<String, String>) -> Result<Seq<char>, Seq<char>> {
    match r {
        Ok(s) => Ok(s@),
        Err(e) => Err(e@),
    }
}

proof fn lemma_first_non_flag_unique(s: Seq<char>, i: int, j: int)
    requires
        is_first_non_flag(s, i),
        is_first_non_flag(s, j),
    ensures
        i == j,
{
    if i < j {
        assert(s.subrange(0, j)[i] == s[i]);
    } else if j < i {
        assert(s.subrange(0, i)[j] == s[j]);
    }
}

/// Trims and lower-cases a flag setting and puts it in canonical form
/// (ascending, each letter once); refuses an empty setting and names the
/// first character that is not a flag letter.
pub fn canonical_flags(value: &str, field: &str) -> (r: Result<String, String>)
    ensures
        result_view(r) == canonical_flags_result(value@, field@),
{
    let trimmed = trim_str(value);
    let lowered = ascii_lower_chars(trimmed.as_slice());
    let ghost t = lowered@;
    if lowered.len() == 0 {
        let mut e = String::from_str(field);
        e.append(" cannot be empty");
        return Err(e);
    }
    match first_non_flag(lowered.as_slice()) {
        Some(i) => {
            proof {
                assert(!all_flags(t)) by {
                    assert(!is_flag(t[i as int]));
                }
                assert(is_first_non_flag(t, i as int));
                let k = choose|k: int| is_first_non_flag(t, k);
                lemma_first_non_flag_unique(t, k, i as int);
            }
            let mut e = String::from_str(field);
            e.append(" contains unsupported SourceMod flag '");
            let one = [lowered[i]];
            append_chars(&mut e, &one);
            e.append("'; allowed flags are a-t and z");
            assert(one@ =~= seq![t[i as int]]);
            assert(e@ =~= field@ + " contains unsupported SourceMod flag '"@ + seq![t[i as int]]
                + "'; allowed flags are a-t and z"@);
            return Err(e);
        },
        None => {},
    }
    let flags = canonical_chars(lowered.as_slice());
    Ok(string_of(flags.as_slice()))
}

/// A flag setting that was accepted is accepted again, unchanged, when read a second time.
pub proof fn law_canonical_flags_idempotent(v: Seq<char>, field: Seq<char>)
    requires
        canonical_flags_result(v, field) is Ok,
    ensures
        canonical_flags_result(canonical_flags_result(v, field)->Ok_0, field)
            == canonical_flags_result(v, field),
{
    let t = ascii_lower_seq(trim(v));
    let c = canonical(t);
    law_canonical_is_sorted_set(t);
    assert(is_flag(t[0]));
    assert(t.contains(t[0]));
    assert(c.contains(t[0]));
    assert forall|i: int| 0 <= i < c.len() implies !is_ws(#[trigger] c[i]) by {
        assert(is_flag(c[i]));
    }
    lemma_lead_len(c, Strip::Whitespace, 0);
    lemma_trail_len(c, Strip::Whitespace, 0);
    assert(strip_start(c, Strip::Whitespace) =~= c);
    assert(strip_end(c, Strip::Whitespace) =~= c);
    assert(trim(c) == c);
    assert(ascii_lower_seq(c) =~= c) by {
        assert forall|i: int| 0 <= i < c.len() implies ascii_lower_seq(c)[i] == c[i] by {
            assert(is_flag(c[i]));
        }
    }
}

/// An ASCII hexadecimal digit.
pub open spec fn is_hex(c: char) -> bool {
    ('0' <= c && c <= '9') || ('a' <= c && c <= 'f') || ('A' <= c && c <= 'F')
}

/// The value of a hexadecimal digit.
pub open spec fn hex_value(c: char) -> nat {
    if '0' <= c && c <= '9' {
        ((c as u32) - ('0' as u32)) as nat
    } else if 'a' <= c && c <= 'f' {
        ((c as u32) - ('a' as u32) + 10) as nat
    } else {
        ((c as u32) - ('A' as u32) + 10) as nat
    }
}

fn hex_digit(c: char) -> (r: Option<u8>)
    ensures
        match r {
            Some(d) => is_hex(c) && d == hex_value(c),
            None => !is_hex(c),
        },
{
    if '0' <= c && c <= '9' {
        Some(((c as u32) - 48) as u8)
    } else if 'a' <= c && c <= 'f' {
        Some(((c as u32) - 87) as u8)
    } else if 'A' <= c && c <= 'F' {
        Some(((c as u32) - 55) as u8)
    } else {
        None
    }
}

/// The colour text without surrounding whitespace and one leading `#`.
pub open spec fn color_digits(v: Seq<char>) -> Seq<char> {
    let t = trim(v);
    if t.len() > 0 && t[0] == '#' {
        t.subrange(1, t.len() as int)
    } else {
        t
    }
}

/// Whether `h` is six hexadecimal digits.
pub open spec fn is_rrggbb(h: Seq<char>) -> bool {
    h.len() == 6 && forall|i: int| 0 <= i < 6 ==> is_hex(#[trigger] h[i])
}

/// The byte written by the two hexadecimal digits `h[i]`, `h[i + 1]`.
pub open spec fn hex_byte(h: Seq<char>, i: int) -> u8 {
    (hex_value(h[i]) * 16 + hex_value(h[i + 1])) as u8
}

/// What `parse_color` gives for the text `v` of the setting named `field`.
pub open spec fn color_result(v: Seq<char>, field: Seq<char>) -> Result<Color, Seq<char>> {
    let h = color_digits(v);
    if is_rrggbb(h) {
        Ok(Color { red: hex_byte(h, 0), green: hex_byte(h, 2), blue: hex_byte(h, 4) })
    } else {
        Err(field + " must use #RRGGBB format, got '"@ + trim(v) + "'"@)
    }
}

/// Text without whitespace at either end is its own trim.
proof fn lemma_trim_unchanged(t: Seq<char>)
    requires
        t.len() > 0,
        !is_ws(t[0]),
        !is_ws(t[t.len() - 1]),
    ensures
        trim(t) == t,
{
    lemma_lead_len(t, Strip::Whitespace, 0);
    lemma_trail_len(t, Strip::Whitespace, 0);
    assert(strip_start(t, Strip::Whitespace) =~= t);
    assert(strip_end(t, Strip::Whitespace) =~= t);
}

/// A colour reads the same with or without its leading `#`, and six
/// hexadecimal digits always read as a colour.
pub proof fn law_hash_prefix_is_optional(h: Seq<char>, field: Seq<char>)
    requires
        is_rrggbb(h),
    ensures
        color_result(h, field) is Ok,
        color_result(seq!['#'] + h, field) == color_result(h, field),
{
    let with_hash = seq!['#'] + h;
    assert(is_hex(h[0]) && is_hex(h[5]));
    lemma_trim_unchanged(h);
    assert(with_hash[0] == '#');
    assert(with_hash[with_hash.len() - 1] == h[5]);
    lemma_trim_unchanged(with_hash);
    assert(with_hash.subrange(1, with_hash.len() as int) =~= h);
}

pub open spec fn color_view(r: Result<Color, String>) -> Result<Color, Seq<char>> {
    match r {
        Ok(c) => Ok(c),
        Err(e) => Err(e@),
    }
}

fn hex_values(h: &Vec<char>) -> (r: Option<Vec<u8>>)
    ensures
        r is Some <==> is_rrggbb(h@),
        r matches Some(d) ==> d@.len() == 6 && forall|k: int| 0 <= k < 6 ==> #[trigger] d@[k]
            == hex_value(h@[k]),
{
    if h.len() != 6 {
        return None;
    }
    let mut d: Vec<u8> = Vec::new();
    let mut i: usize = 0;
    while i < 6
        invariant
            h@.len() == 6,
            i <= 6,
            d@.len() == i,
            forall|k: int| 0 <= k < i ==> is_hex(#[trigger] h@[k]) && d@[k] == hex_value(h@[k]),
        decreases 6 - i,
    {
        match hex_digit(h[i]) {
            Some(v) => {
                d.push(v);
            },
            None => {
                return None;
            },
        }
        i = i + 1;
    }
    Some(d)
}

/// Reads a colour written `#RRGGBB` (the `#` may be left out), with
/// whitespace around it allowed.
pub fn parse_color(value: &str, field: &str) -> (r: Result<Color, String>)
    ensures
        color_view(r) == color_result(value@, field@),
{
    let trimmed = trim_str(value);
    let ghost t = trimmed@;
    let start: usize = if trimmed.len() > 0 && trimmed[0] == '#' {
        1
    } else {
        0
    };
    let ghost h = color_digits(value@);
    assert(h =~= trimmed@.subrange(start as int, trimmed@.len() as int));
    let mut h_chars: Vec<char> = Vec::new();
    let mut i: usize = start;
    while i < trimmed.len()
        invariant
            start <= i <= trimmed@.len(),
            h_chars@ == trimmed@.subrange(start as int, i as int),
        decreases trimmed.len() - i,
    {
        h_chars.push(trimmed[i]);
        i = i + 1;
        assert(h_chars@ =~= trimmed@.subrange(start as int, i as int));
    }
    assert(h_chars@ == h);
    match hex_values(&h_chars) {
        Some(d) => {
            return Ok(
                Color {
                    red: d[0] * 16 + d[1],
                    green: d[2] * 16 + d[3],
                    blue: d[4] * 16 + d[5],
                },
            );
        },
        None => {},
    }
    let mut e = String::from_str(field);
    e.append(" must use #RRGGBB format, got '");
    append_chars(&mut e, trimmed.as_slice());
    e.append("'");
    Err(e)
}

/// Checks the flags and colours of the configuration, naming the first bad setting.
pub fn config_from_raw(raw: &RawConfig) -> (r: Result<Config, String>)
    ensures
        match (
            canonical_flags_result(raw.admin_flag_all@, "admin_flag_all"@),
            canonical_flags_result(raw.admin_flag_death@, "admin_flag_death"@),
            color_result(raw.ct_color@, "ct_color"@),
            color_result(raw.t_color@, "t_color"@),
        ) {
            (Ok(all), Ok(death), Ok(ct), Ok(t)) => r matches Ok(c) && c.admin_flag_all@ == all
                && c.admin_flag_death@ == death && c.ct_color == ct && c.t_color == t,
            (Err(e), _, _, _) => r matches Err(x) && x@ == e,
            (Ok(_), Err(e), _, _) => r matches Err(x) && x@ == e,
            (Ok(_), Ok(_), Err(e), _) => r matches Err(x) && x@ == e,
            (Ok(_), Ok(_), Ok(_), Err(e)) => r matches Err(x) && x@ == e,
        },
{
    let admin_flag_all = match canonical_flags(raw.admin_flag_all.as_str(), "admin_flag_all") {
        Ok(v) => v,
        Err(e) => {
            return Err(e);
        },
    };
    let admin_flag_death = match canonical_flags(
        raw.admin_flag_death.as_str(),
        "admin_flag_death",
    ) {
        Ok(v) => v,
        Err(e) => {
            return Err(e);
        },
    };
    let ct_color = match parse_color(raw.ct_color.as_str(), "ct_color") {
        Ok(v) => v,
        Err(e) => {
            return Err(e);
        },
    };
    let t_color = match parse_color(raw.t_color.as_str(), "t_color") {
        Ok(v) => v,
        Err(e) => {
            return Err(e);
        },
    };
    Ok(Config { admin_flag_all, admin_flag_death, ct_color, t_color })
}

} // verus!
