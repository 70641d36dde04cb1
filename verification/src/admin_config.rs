//! Validation of the map-chooser admin settings.
use crate::flags::{all_flags, canonical, canonical_chars, first_non_flag, is_flag, law_canonical_is_sorted_set};
use crate::text::{
    is_ws, lemma_lead_len, lemma_strip_both_ends, lemma_trail_len, string_of, strip_end, strip_start,
    trim, trim_str, utf8_len, utf8_len_exceeds, Strip,
};
use vstd::prelude::*;

verus! {

pub open spec fn msg_flags_empty() -> Seq<char> {
    "admin.default_flags cannot be empty because RustAdmin treats an empty mask as public access"@
}

pub open spec fn msg_flags_too_long() -> Seq<char> {
    "admin.default_flags cannot exceed 128 characters"@
}

pub open spec fn msg_flags_invalid() -> Seq<char> {
    "admin.default_flags must be a compact SourceMod-style flag string using a-t and z, for example 'g' or 'bg'"@
}

/// What `normalize_default_flags` gives for the text `v`.
pub open spec fn normalized_flags(v: Seq<char>) -> Result<Seq<char>, Seq<char>> {
    let t = trim(v);
    if t.len() == 0 {
        Err(msg_flags_empty())
    } else if utf8_len(t) > 128 {
        Err(msg_flags_too_long())
    } else if !all_flags(t) {
        Err(msg_flags_invalid())
    } else {
        Ok(canonical(t))
    }
}

pub open spec fn result_view(r: Result<String, String>) -> Result<Seq<char>, Seq<char>> {
    match r {
        Ok(s) => Ok(s@),
        Err(e) => Err(e@),
    }
}

/// Trims the flag string and puts it in canonical form (ascending, each
/// letter once); refuses an empty string, one longer than 128 bytes, and one
/// with a character that is not a flag letter.
pub fn normalize_default_flags(value: &str) -> (r: Result<String, String>)
    ensures
        result_view(r) == normalized_flags(value@),
{
    let trimmed = trim_str(value);
    if trimmed.len() == 0 {
        return Err(String::from_str(
            "admin.default_flags cannot be empty because RustAdmin treats an empty mask as public access",
        ));
    }
    if utf8_len_exceeds(trimmed.as_slice(), 128) {
        return Err(String::from_str("admin.default_flags cannot exceed 128 characters"));
    }
    match first_non_flag(trimmed.as_slice()) {
        Some(_) => {
            return Err(String::from_str(
                "admin.default_flags must be a compact SourceMod-style flag string using a-t and z, for example 'g' or 'bg'",
            ));
        },
        None => {},
    }
    let flags = canonical_chars(trimmed.as_slice());
    Ok(string_of(flags.as_slice()))
}

/// Normalizing flags that are already normalized gives them back.
pub proof fn law_normalize_idempotent(v: Seq<char>)
    requires
        normalized_flags(v) is Ok,
    ensures
        normalized_flags(normalized_flags(v)->Ok_0) == normalized_flags(v),
{
    let t = trim(v);
    let c = canonical(t);
    law_canonical_is_sorted_set(t);
    law_canonical_is_sorted_set(c);
    lemma_strip_both_ends(v, Strip::Whitespace);
    // `c` is non-empty, has no whitespace, and is no longer than `t` in bytes.
    assert(is_flag(t[0]));
    assert(t.contains(t[0]));
    assert(c.contains(t[0]));
    assert(c.len() > 0);
    assert forall|i: int| 0 <= i < c.len() implies !is_ws(#[trigger] c[i]) by {
        assert(is_flag(c[i]));
    }
    lemma_lead_len(c, Strip::Whitespace, 0);
    lemma_trail_len(c, Strip::Whitespace, 0);
    assert(strip_start(c, Strip::Whitespace) =~= c);
    assert(strip_end(c, Strip::Whitespace) =~= c);
    assert(trim(c) == c);
    lemma_ascii_len(c);
    lemma_ascii_len(t);
    lemma_canonical_shorter(t);
}

/// A string of flag letters is as long in UTF-8 as in characters.
proof fn lemma_ascii_len(s: Seq<char>)
    requires
        all_flags(s),
    ensures
        utf8_len(s) == s.len(),
    decreases s.len(),
{
    if s.len() > 0 {
        assert(all_flags(s.drop_last())) by {
            assert forall|i: int| 0 <= i < s.drop_last().len() implies is_flag(
                #[trigger] s.drop_last()[i],
            ) by {
                assert(s.drop_last()[i] == s[i]);
            }
        }
        lemma_ascii_len(s.drop_last());
        assert(is_flag(s[s.len() - 1]));
    }
}

/// The canonical form of a string of flags is no longer than the string.
proof fn lemma_canonical_shorter(t: Seq<char>)
    requires
        all_flags(t),
    ensures
        canonical(t).len() <= t.len(),
{
    let c = canonical(t);
    law_canonical_is_sorted_set(t);
    // `c` has no repeats and all its letters occur in `t`.
    assert(c.no_duplicates()) by {
        assert forall|i: int, j: int| 0 <= i < c.len() && 0 <= j < c.len() && i != j implies c[i]
            != c[j] by {
            if i < j {
                assert((c[i] as u32) < (c[j] as u32));
            } else {
                assert((c[j] as u32) < (c[i] as u32));
            }
        }
    }
    assert(c.to_set().subset_of(t.to_set())) by {
        assert forall|x: char| c.to_set().contains(x) implies t.to_set().contains(x) by {
            assert(c.contains(x));
            let i = choose|i: int| 0 <= i < c.len() && c[i] == x;
            assert(is_flag(c[i]));
        }
    }
    c.unique_seq_to_set();
    t.lemma_cardinality_of_set();
    vstd::set_lib::lemma_len_subset(c.to_set(), t.to_set());
}

/// The admin settings apart from the two durations, which are floating-point
/// numbers and are range-checked by the caller.
#[derive(Clone, Debug)]
pub struct MenuSettings {
    pub permission: String,
    pub default_flags: String,
    pub menu_order: i32,
    pub vote_warning_seconds: u32,
    pub max_vote_maps: usize,
    pub items_per_page: usize,
}

impl MenuSettings {
    /// The built-in defaults.
    pub fn default_settings() -> (r: Self)
        ensures
            r.permission@ == "mapchooser.admin.maps"@,
            r.default_flags@ == "g"@,
            r.menu_order == 50,
            r.vote_warning_seconds == 5,
            r.max_vote_maps == 5,
            r.items_per_page == 5,
    {
        MenuSettings {
            permission: String::from_str("mapchooser.admin.maps"),
            default_flags: String::from_str("g"),
            menu_order: 50,
            vote_warning_seconds: 5,
            max_vote_maps: 5,
            items_per_page: 5,
        }
    }
}

/// The error that `validate` reports for `s`, if any; the durations are
/// given as whether each lies in its range.
pub open spec fn settings_error(
    s: MenuSettings,
    vote_duration_in_range: bool,
    change_delay_in_range: bool,
) -> Option<Seq<char>> {
    let p = trim(s.permission@);
    let f = normalized_flags(s.default_flags@);
    if f is Err {
        Some(f->Err_0)
    } else if p.len() == 0 {
        Some("admin.permission cannot be empty"@)
    } else if utf8_len(p) > 128 {
        Some("admin.permission cannot exceed 128 characters"@)
    } else if !(-10000 <= s.menu_order <= 10000) {
        Some("admin.menu_order must be within -10000..=10000"@)
    } else if !vote_duration_in_range {
        Some("admin.vote_duration_seconds must be within 5..=120"@)
    } else if s.vote_warning_seconds > 30 {
        Some("admin.vote_warning_seconds must be within 0..=30"@)
    } else if !(1 <= s.max_vote_maps <= 5) {
        Some("admin.max_vote_maps must be within 1..=5"@)
    } else if !(1 <= s.items_per_page <= 5) {
        Some("admin.items_per_page must be within 1..=5"@)
    } else if !change_delay_in_range {
        Some("admin.change_delay_seconds must be within 0..=30"@)
    } else {
        None
    }
}

/// The settings are accepted exactly when every setting lies in its range:
/// the flags normalize, the trimmed permission is 1 to 128 bytes, the menu
/// order is within -10000..=10000, the vote duration is in range, at most 30
/// warning seconds, 1 to 5 vote maps, 1 to 5 maps per page and the change
/// delay is in range. A vote-map count outside 1..=5, with every setting
/// checked before it valid, is refused with the vote-map message, and so is
/// a page size outside 1..=5 with the page-size message.
pub proof fn law_validate_accepts_only_in_range(
    s: MenuSettings,
    vote_duration_in_range: bool,
    change_delay_in_range: bool,
)
    ensures
        settings_error(s, vote_duration_in_range, change_delay_in_range) is None <==> {
            &&& normalized_flags(s.default_flags@) is Ok
            &&& trim(s.permission@).len() > 0
            &&& utf8_len(trim(s.permission@)) <= 128
            &&& -10000 <= s.menu_order <= 10000
            &&& vote_duration_in_range
            &&& s.vote_warning_seconds <= 30
            &&& 1 <= s.max_vote_maps <= 5
            &&& 1 <= s.items_per_page <= 5
            &&& change_delay_in_range
        },
        ({
            &&& normalized_flags(s.default_flags@) is Ok
            &&& trim(s.permission@).len() > 0
            &&& utf8_len(trim(s.permission@)) <= 128
            &&& -10000 <= s.menu_order <= 10000
            &&& vote_duration_in_range
            &&& s.vote_warning_seconds <= 30
        }) ==> {
            &&& (s.max_vote_maps == 0 || s.max_vote_maps > 5) ==> settings_error(
                s,
                vote_duration_in_range,
                change_delay_in_range,
            ) == Some("admin.max_vote_maps must be within 1..=5"@)
            &&& (1 <= s.max_vote_maps <= 5 && (s.items_per_page == 0 || s.items_per_page > 5))
                ==> settings_error(s, vote_duration_in_range, change_delay_in_range) == Some(
                "admin.items_per_page must be within 1..=5"@,
            )
        },
{
}

/// Trims the permission, normalizes the default flags and checks every
/// setting against its range, reporting the first violation. The vote
/// duration must lie in 5..=120 seconds and the change delay in 0..=30
/// seconds; the caller checks those two and passes the outcome.
pub fn validate(settings: MenuSettings, vote_duration_in_range: bool, change_delay_in_range: bool) -> (r:
    Result<MenuSettings, String>)
    ensures
        match settings_error(settings, vote_duration_in_range, change_delay_in_range) {
            Some(e) => r matches Err(x) && x@ == e,
            None => r matches Ok(v) && {
                &&& v.permission@ == trim(settings.permission@)
                &&& v.default_flags@ == normalized_flags(settings.default_flags@)->Ok_0
                &&& v.menu_order == settings.menu_order
                &&& v.vote_warning_seconds == settings.vote_warning_seconds
                &&& v.max_vote_maps == settings.max_vote_maps
                &&& v.items_per_page == settings.items_per_page
            },
        },
{
    let permission = trim_str(settings.permission.as_str());
    let flags = match normalize_default_flags(settings.default_flags.as_str()) {
        Ok(f) => f,
        Err(e) => {
            return Err(e);
        },
    };
    if permission.len() == 0 {
        return Err(String::from_str("admin.permission cannot be empty"));
    }
    if utf8_len_exceeds(permission.as_slice(), 128) {
        return Err(String::from_str("admin.permission cannot exceed 128 characters"));
    }
    if !(-10000 <= settings.menu_order && settings.menu_order <= 10000) {
        return Err(String::from_str("admin.menu_order must be within -10000..=10000"));
    }
    if !vote_duration_in_range {
        return Err(String::from_str("admin.vote_duration_seconds must be within 5..=120"));
    }
    if settings.vote_warning_seconds > 30 {
        return Err(String::from_str("admin.vote_warning_seconds must be within 0..=30"));
    }
    if !(1 <= settings.max_vote_maps && settings.max_vote_maps <= 5) {
        return Err(String::from_str("admin.max_vote_maps must be within 1..=5"));
    }
    if !(1 <= settings.items_per_page && settings.items_per_page <= 5) {
        return Err(String::from_str("admin.items_per_page must be within 1..=5"));
    }
    if !change_delay_in_range {
        return Err(String::from_str("admin.change_delay_seconds must be within 0..=30"));
    }
    Ok(
        MenuSettings {
            permission: string_of(permission.as_slice()),
            default_flags: flags,
            menu_order: settings.menu_order,
            vote_warning_seconds: settings.vote_warning_seconds,
            max_vote_maps: settings.max_vote_maps,
            items_per_page: settings.items_per_page,
        },
    )
}


/// The reload command is for the server console: a player (slot 0 or more)
/// is answered with this refusal and nothing is reloaded.
pub fn reload_refusal(slot: i32) -> (r: Option<&'static str>)
    ensures
        slot >= 0 ==> (r matches Some(m) && m@ == "Server console/RCON only"@),
        slot < 0 ==> r is None,
{
    if slot >= 0 {
        Some("Server console/RCON only")
    } else {
        None
    }
}

/// The answer to the reload command once the configuration was reloaded,
/// or failed to reload with `error`.
pub fn reload_reply(result: &Result<(), String>) -> (r: String)
    ensures
        result is Ok ==> r@ == "MapChooserAdmin configuration reloaded"@,
        result matches Err(e) ==> r@ == "MapChooserAdmin reload failed: "@ + e@,
{
    match result {
        Ok(()) => String::from_str("MapChooserAdmin configuration reloaded"),
        Err(e) => {
            let mut r = String::from_str("MapChooserAdmin reload failed: ");
            r.append(e.as_str());
            r
        },
    }
}

} // verus!
