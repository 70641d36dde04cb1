//! SourceMod-style admin flag strings: the letters `a` to `t` and `z`, kept
//! in a canonical form (sorted, each letter once).
use vstd::prelude::*;

verus! {

/// A letter that names a SourceMod admin flag.
pub open spec fn is_flag(c: char) -> bool {
    ('a' <= c && c <= 't') || c == 'z'
}

pub fn char_is_flag(c: char) -> (r: bool)
    ensures
        r == is_flag(c),
{
    ('a' <= c && c <= 't') || c == 'z'
}

/// All flag letters, in ascending order.
pub open spec fn flag_alphabet() -> Seq<char> {
    seq![
        'a', 'b', 'c', 'd', 'e', 'f', 'g', 'h', 'i', 'j', 'k', 'l', 'm', 'n', 'o', 'p', 'q', 'r',
        's', 't', 'z',
    ]
}

/// The flag letters occurring in `s`, in ascending order, each once.
pub open spec fn canonical(s: Seq<char>) -> Seq<char> {
    flag_alphabet().filter(|c: char| s.contains(c))
}

/// Whether `s` holds flag letters only.
pub open spec fn all_flags(s: Seq<char>) -> bool {
    forall|i: int| 0 <= i < s.len() ==> is_flag(#[trigger] s[i])
}

/// Index of the first character of `s` that is not a flag letter, if any.
pub fn first_non_flag(s: &[char]) -> (r: Option<usize>)
    ensures
        match r {
            Some(i) => i < s@.len() && !is_flag(s@[i as int]) && all_flags(s@.subrange(0, i as int)),
            None => all_flags(s@),
        },
{
    let mut i: usize = 0;
    while i < s.len()
        invariant
            i <= s@.len(),
            all_flags(s@.subrange(0, i as int)),
        decreases s.len() - i,
    {
        if !char_is_flag(s[i]) {
            return Some(i);
        }
        proof {
            assert forall|j: int| 0 <= j < i + 1 implies is_flag(
                #[trigger] s@.subrange(0, i + 1)[j],
            ) by {
                if j < i {
                    assert(s@.subrange(0, i + 1)[j] == s@.subrange(0, i as int)[j]);
                }
            }
        }
        i = i + 1;
    }
    assert(s@.subrange(0, s@.len() as int) =~= s@);
    None
}

fn alphabet() -> (r: Vec<char>)
    ensures
        r@ == flag_alphabet(),
{
    let r = vec![
        'a', 'b', 'c', 'd', 'e', 'f', 'g', 'h', 'i', 'j', 'k', 'l', 'm', 'n', 'o', 'p', 'q', 'r',
        's', 't', 'z',
    ];
    assert(r@ =~= flag_alphabet());
    r
}

fn contains_char(s: &[char], c: char) -> (r: bool)
    ensures
        r == s@.contains(c),
{
    let mut i: usize = 0;
    while i < s.len()
        invariant
            i <= s@.len(),
            forall|j: int| 0 <= j < i ==> s@[j] != c,
        decreases s.len() - i,
    {
        if s[i] == c {
            assert(s@[i as int] == c);
            return true;
        }
        i = i + 1;
    }
    false
}

/// The canonical form of the flag letters in `s`: ascending, each once.
pub fn canonical_chars(s: &[char]) -> (r: Vec<char>)
    ensures
        r@ == canonical(s@),
{
    let letters = alphabet();
    let ghost f = |c: char| s@.contains(c);
    let mut r: Vec<char> = Vec::new();
    let mut i: usize = 0;
    while i < letters.len()
        invariant
            letters@ == flag_alphabet(),
            i <= letters@.len(),
            f == (|c: char| s@.contains(c)),
            r@ == letters@.subrange(0, i as int).filter(f),
        decreases letters.len() - i,
    {
        let c = letters[i];
        if contains_char(s, c) {
            r.push(c);
        }
        proof {
            assert(letters@.subrange(0, i + 1) =~= letters@.subrange(0, i as int).push(c));
            letters@.subrange(0, i as int).lemma_filter_push(c, f);
        }
        i = i + 1;
    }
    assert(letters@.subrange(0, letters@.len() as int) =~= letters@);
    r
}

/// The canonical form holds flag letters only, ascending and each once; and
/// putting a canonical form in canonical form again changes nothing.
pub proof fn law_canonical_is_sorted_set(s: Seq<char>)
    ensures
        all_flags(canonical(s)),
        forall|i: int, j: int|
            0 <= i < j < canonical(s).len() ==> (canonical(s)[i] as u32) < (canonical(s)[j] as u32),
        forall|c: char| is_flag(c) ==> (canonical(s).contains(c) <==> s.contains(c)),
        canonical(canonical(s)) == canonical(s),
{
    let a = flag_alphabet();
    let f = |c: char| s.contains(c);
    let r = canonical(s);
    assert(r == a.filter(f));
    lemma_filter_sorted(a, f);
    assert forall|c: char| is_flag(c) implies (r.contains(c) <==> s.contains(c)) by {
        lemma_alphabet_has_flag(c);
        if s.contains(c) {
            let k = choose|k: int| 0 <= k < a.len() && a[k] == c;
            a.lemma_filter_contains(f, k);
        }
        if r.contains(c) {
            a.lemma_filter_contains_rev(f, c);
        }
    }
    assert forall|i: int| 0 <= i < r.len() implies is_flag(#[trigger] r[i]) by {
        a.lemma_filter_pred(f, i);

        assert(a.contains(r[i]));
        let k = choose|k: int| 0 <= k < a.len() && a[k] == r[i];
        assert(is_flag(a[k]));
    }
    let g = |c: char| r.contains(c);
    assert(a.filter(g) =~= a.filter(f)) by {
        assert forall|k: int| 0 <= k < a.len() implies f(a[k]) == g(a[k]) by {
            assert(is_flag(a[k]));
        }
        lemma_filter_same(a, f, g);
    }
}

proof fn lemma_alphabet_has_flag(c: char)
    requires
        is_flag(c),
    ensures
        flag_alphabet().contains(c),
{
    let a = flag_alphabet();
    let u = c as u32;
    if c == 'z' {
        assert(a[20] == c);
    } else {
        let k = (u - ('a' as u32)) as int;
        assert(0 <= k < 20);
        assert(a[k] == c) by {
            assert(a[0] == 'a' && a[1] == 'b' && a[2] == 'c' && a[3] == 'd' && a[4] == 'e' && a[5]
                == 'f' && a[6] == 'g' && a[7] == 'h' && a[8] == 'i' && a[9] == 'j' && a[10] == 'k'
                && a[11] == 'l' && a[12] == 'm' && a[13] == 'n' && a[14] == 'o' && a[15] == 'p'
                && a[16] == 'q' && a[17] == 'r' && a[18] == 's' && a[19] == 't');
        }
    }
}

proof fn lemma_filter_same(a: Seq<char>, f: spec_fn(char) -> bool, g: spec_fn(char) -> bool)
    requires
        forall|k: int| 0 <= k < a.len() ==> f(a[k]) == g(a[k]),
    ensures
        a.filter(f) == a.filter(g),
    decreases a.len(),
{
    reveal_with_fuel(Seq::filter, 1);
    if a.len() > 0 {
        lemma_filter_same(a.drop_last(), f, g);
    }
}

proof fn lemma_filter_sorted(a: Seq<char>, f: spec_fn(char) -> bool)
    requires
        forall|i: int, j: int| 0 <= i < j < a.len() ==> (a[i] as u32) < (a[j] as u32),
    ensures
        forall|i: int, j: int|
            0 <= i < j < a.filter(f).len() ==> (a.filter(f)[i] as u32) < (a.filter(f)[j] as u32),
        forall|i: int| 0 <= i < a.filter(f).len() ==> a.contains(#[trigger] a.filter(f)[i]),
    decreases a.len(),
{
    reveal_with_fuel(Seq::filter, 1);
    if a.len() > 0 {
        let t = a.drop_last();
        lemma_filter_sorted(t, f);
        assert(a =~= t.push(a.last()));
        t.lemma_filter_push(a.last(), f);
        let ft = t.filter(f);
        assert forall|i: int| 0 <= i < ft.len() implies (ft[i] as u32) < (a.last() as u32) by {
            let k = choose|k: int| 0 <= k < t.len() && t[k] == ft[i];
            assert(a[k] == t[k]);
        }
        assert forall|i: int| 0 <= i < a.filter(f).len() implies a.contains(
            #[trigger] a.filter(f)[i],
        ) by {
            if i < ft.len() {
                let k = choose|k: int| 0 <= k < t.len() && t[k] == ft[i];
                assert(a[k] == t[k]);
            } else {
                assert(a[a.len() - 1] == a.last());
            }
        }
    }
}

} // verus!
