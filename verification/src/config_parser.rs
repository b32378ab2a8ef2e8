//! The key-combination grammar: a dotted token such as `leftalt.leftshift.f`
//! names a base key (the final segment) together with the modifiers that must
//! be held for it.  Non-final segments are matched against a fixed modifier
//! vocabulary; unrecognized non-final segments are deliberately ignored so a
//! token may carry descriptive prefixes.

use vstd::prelude::*;

verus! {

/// The mathematical model of a parsed key combination.
pub struct KeyComboView {
    pub is_alt: bool,
    pub is_ctrl: bool,
    pub is_shift: bool,
    pub keyname: Seq<char>,
    pub value: Seq<char>,
}

/// A key combination parsed from a dotted configuration token: which
/// modifiers the rule demands, the base key name, and the original token.
#[derive(Debug, PartialEq, Clone)]
pub struct ConfigKeyCombination {
    pub is_alt: bool,
    pub is_ctrl: bool,
    pub is_shift: bool,
    pub keyname: String,
    pub value: String,
}

impl View for ConfigKeyCombination {
    type V = KeyComboView;

    open spec fn view(&self) -> KeyComboView {
        KeyComboView {
            is_alt: self.is_alt,
            is_ctrl: self.is_ctrl,
            is_shift: self.is_shift,
            keyname: self.keyname@,
            value: self.value@,
        }
    }
}

/// A configuration is rejected as a whole when one of its tokens is
/// malformed; the only malformed token is the empty one.
#[derive(Debug, PartialEq, Eq, Structural, Clone, Copy)]
pub enum ConfigError {
    EmptyToken,
}

/// The segments of `s` split on `'.'`, exactly as splitting a string on a
/// single-character separator yields them: at least one segment, empty
/// segments kept.
pub open spec fn split_dots(s: Seq<char>) -> Seq<Seq<char>>
    decreases s.len(),
{
    if s.len() == 0 {
        seq![Seq::<char>::empty()]
    } else if s[0] == '.' {
        seq![Seq::<char>::empty()] + split_dots(s.skip(1))
    } else {
        let rest = split_dots(s.skip(1));
        seq![seq![s[0]] + rest[0]] + rest.skip(1)
    }
}

pub proof fn lemma_split_dots_len(s: Seq<char>)
    ensures
        split_dots(s).len() >= 1,
    decreases s.len(),
{
    if s.len() != 0 {
        lemma_split_dots_len(s.skip(1));
    }
}

/// The non-final segments of a token: the ones held against the modifier
/// vocabulary.
pub open spec fn modifier_segments(s: Seq<char>) -> Seq<Seq<char>> {
    split_dots(s).drop_last()
}

/// Some non-final segment asks for Alt.
pub open spec fn segments_have_alt(segs: Seq<Seq<char>>) -> bool {
    segs.contains("leftalt"@) || segs.contains("rightalt"@)
}

/// Some non-final segment asks for Ctrl; Caps is the conventional Ctrl
/// carrier, so `capslock` counts too.
pub open spec fn segments_have_ctrl(segs: Seq<Seq<char>>) -> bool {
    segs.contains("leftctrl"@) || segs.contains("capslock"@)
}

/// Some non-final segment asks for Shift.
pub open spec fn segments_have_shift(segs: Seq<Seq<char>>) -> bool {
    segs.contains("leftshift"@)
}

/// What parsing a token yields: `None` exactly on the empty token, otherwise
/// the modifier flags drawn from the non-final segments, the final segment as
/// the base key, and the token itself.
pub open spec fn spec_parse(s: Seq<char>) -> Option<KeyComboView> {
    if s.len() == 0 {
        None
    } else {
        Some(
            KeyComboView {
                is_alt: segments_have_alt(modifier_segments(s)),
                is_ctrl: segments_have_ctrl(modifier_segments(s)),
                is_shift: segments_have_shift(modifier_segments(s)),
                keyname: split_dots(s).last(),
                value: s,
            },
        )
    }
}

/// Character-for-character equality of two string slices.
pub(crate) fn str_eq(a: &str, b: &str) -> (r: bool)
    ensures
        r == (a@ == b@),
{
    let na = a.unicode_len();
    let nb = b.unicode_len();
    if na != nb {
        return false;
    }
    let mut i: usize = 0;
    while i < na
        invariant
            i <= na,
            na == a@.len(),
            nb == b@.len(),
            na == nb,
            forall|j: int| 0 <= j < i ==> a@[j] == b@[j],
        decreases na - i,
    {
        if a.get_char(i) != b.get_char(i) {
            return false;
        }
        i += 1;
    }
    proof {
        assert(a@ =~= b@);
    }
    true
}

/// The segments that remain to be walked, grown at the front by the partial
/// segment the walk currently stands in.
spec fn glue(cur: Seq<char>, rest: Seq<Seq<char>>) -> Seq<Seq<char>>
    recommends
        rest.len() >= 1,
{
    seq![cur + rest[0]] + rest.skip(1)
}

impl ConfigKeyCombination {
    /// Parse a dotted token into a key combination.  Fails exactly on the
    /// empty token; every other token parses, with unrecognized non-final
    /// segments ignored.
    pub fn parse(token: &str) -> (r: Result<ConfigKeyCombination, ConfigError>)
        ensures
            match r {
                Ok(c) => spec_parse(token@) == Some(c@),
                Err(e) => token@.len() == 0 && e == ConfigError::EmptyToken,
            },
    {
        let ghost s = token@;
        let n = token.unicode_len();
        if n == 0 {
            return Err(ConfigError::EmptyToken);
        }
        let mut is_alt = false;
        let mut is_ctrl = false;
        let mut is_shift = false;
        let mut start: usize = 0;
        let mut i: usize = 0;
        let ghost mut segs: Seq<Seq<char>> = Seq::empty();
        proof {
            lemma_split_dots_len(s);
            assert(s.skip(0) =~= s);
            assert(s.subrange(0, 0) =~= Seq::<char>::empty());
            assert(glue(s.subrange(0, 0), split_dots(s.skip(0))) =~~= split_dots(s));
        }
        while i < n
            invariant
                0 <= start <= i <= n,
                n == s.len(),
                s == token@,
                split_dots(s.skip(i as int)).len() >= 1,
                split_dots(s) =~~= segs + glue(
                    s.subrange(start as int, i as int),
                    split_dots(s.skip(i as int)),
                ),
                is_alt == segments_have_alt(segs),
                is_ctrl == segments_have_ctrl(segs),
                is_shift == segments_have_shift(segs),
            decreases n - i,
        {
            let ghost cur = s.subrange(start as int, i as int);
            let ghost rest = split_dots(s.skip(i as int));
            let ghost rest_next = split_dots(s.skip(i + 1));
            proof {
                lemma_split_dots_len(s.skip(i + 1));
                assert(s.skip(i as int).skip(1) =~= s.skip(i + 1));
            }
            let c = token.get_char(i);
            if c == '.' {
                let seg = token.substring_char(start, i);
                proof {
                    assert(rest =~~= seq![Seq::<char>::empty()] + rest_next);
                    assert(rest.skip(1) =~~= rest_next);
                    assert(cur + rest[0] =~= cur);
                    assert(segs + glue(cur, rest) =~~= segs.push(cur) + glue(
                        s.subrange(i + 1, i + 1),
                        rest_next,
                    ));
                }
                let seg_alt = str_eq(seg, "leftalt") || str_eq(seg, "rightalt");
                let seg_ctrl = str_eq(seg, "leftctrl") || str_eq(seg, "capslock");
                let seg_shift = str_eq(seg, "leftshift");
                if seg_alt {
                    is_alt = true;
                }
                if seg_ctrl {
                    is_ctrl = true;
                }
                if seg_shift {
                    is_shift = true;
                }
                proof {
                    lemma_segments_flags_push(segs, cur);
                    segs = segs.push(cur);
                }
                start = i + 1;
            } else {
                proof {
                    assert(rest =~~= seq![seq![s[i as int]] + rest_next[0]] + rest_next.skip(1));
                    assert(s.subrange(start as int, i + 1) =~= cur + seq![s[i as int]]);
                    assert(glue(cur, rest) =~~= glue(s.subrange(start as int, i + 1), rest_next));
                }
            }
            i += 1;
        }
        let keyname = token.substring_char(start, n);
        proof {
            assert(s.skip(n as int) =~= Seq::<char>::empty());
            assert(split_dots(s.skip(n as int)) =~~= seq![Seq::<char>::empty()]);
            let cur = s.subrange(start as int, n as int);
            assert(cur + Seq::<char>::empty() =~= cur);
            assert(glue(cur, seq![Seq::<char>::empty()]) =~~= seq![cur]);
            assert(split_dots(s) =~~= segs.push(cur));
            assert(split_dots(s).last() == cur);
            assert(modifier_segments(s) =~~= segs);
        }
        Ok(
            ConfigKeyCombination {
                is_alt,
                is_ctrl,
                is_shift,
                keyname: keyname.to_owned(),
                value: token.to_owned(),
            },
        )
    }
}

/// How the modifier flags grow when one more complete segment is recorded.
proof fn lemma_segments_flags_push(segs: Seq<Seq<char>>, seg: Seq<char>)
    ensures
        segments_have_alt(segs.push(seg)) == (segments_have_alt(segs) || seg == "leftalt"@ || seg
            == "rightalt"@),
        segments_have_ctrl(segs.push(seg)) == (segments_have_ctrl(segs) || seg == "leftctrl"@ || seg
            == "capslock"@),
        segments_have_shift(segs.push(seg)) == (segments_have_shift(segs) || seg == "leftshift"@),
{
    lemma_contains_push(segs, seg, "leftalt"@);
    lemma_contains_push(segs, seg, "rightalt"@);
    lemma_contains_push(segs, seg, "leftctrl"@);
    lemma_contains_push(segs, seg, "capslock"@);
    lemma_contains_push(segs, seg, "leftshift"@);
}

/// Law: parsing is idempotent on the raw token.  A parsed combination keeps
/// its token in `value`, and parsing that token again yields the very same
/// combination.
pub proof fn lemma_parse_idempotent(s: Seq<char>)
    requires
        spec_parse(s) is Some,
    ensures
        spec_parse(spec_parse(s).unwrap().value) == spec_parse(s),
{
}

/// Law: modifier extraction is order independent.  Two tokens whose
/// non-final segments are rearrangements of one another, and whose final
/// segments agree, parse to the same modifier flags and the same base key.
pub proof fn lemma_modifiers_order_independent(s1: Seq<char>, s2: Seq<char>)
    requires
        s1.len() > 0,
        s2.len() > 0,
        modifier_segments(s1).to_multiset() == modifier_segments(s2).to_multiset(),
        split_dots(s1).last() == split_dots(s2).last(),
    ensures
        spec_parse(s1).unwrap().is_alt == spec_parse(s2).unwrap().is_alt,
        spec_parse(s1).unwrap().is_ctrl == spec_parse(s2).unwrap().is_ctrl,
        spec_parse(s1).unwrap().is_shift == spec_parse(s2).unwrap().is_shift,
        spec_parse(s1).unwrap().keyname == spec_parse(s2).unwrap().keyname,
{
    broadcast use vstd::seq_lib::group_to_multiset_ensures;

    lemma_contains_same_multiset(modifier_segments(s1), modifier_segments(s2), "leftalt"@);
    lemma_contains_same_multiset(modifier_segments(s1), modifier_segments(s2), "rightalt"@);
    lemma_contains_same_multiset(modifier_segments(s1), modifier_segments(s2), "leftctrl"@);
    lemma_contains_same_multiset(modifier_segments(s1), modifier_segments(s2), "capslock"@);
    lemma_contains_same_multiset(modifier_segments(s1), modifier_segments(s2), "leftshift"@);
}

proof fn lemma_contains_same_multiset(a: Seq<Seq<char>>, b: Seq<Seq<char>>, x: Seq<char>)
    requires
        a.to_multiset() == b.to_multiset(),
    ensures
        a.contains(x) == b.contains(x),
{
    broadcast use vstd::seq_lib::group_to_multiset_ensures;

    assert(a.contains(x) <==> a.to_multiset().count(x) > 0);
    assert(b.contains(x) <==> b.to_multiset().count(x) > 0);
}

proof fn lemma_contains_push(segs: Seq<Seq<char>>, seg: Seq<char>, x: Seq<char>)
    ensures
        segs.push(seg).contains(x) == (segs.contains(x) || seg == x),
{
    if segs.contains(x) {
        let j = choose|j: int| 0 <= j < segs.len() && segs[j] == x;
        assert(segs.push(seg)[j] == x);
    }
    if seg == x {
        assert(segs.push(seg)[segs.len() as int] == x);
    }
    if segs.push(seg).contains(x) {
        let j = choose|j: int| 0 <= j < segs.push(seg).len() && segs.push(seg)[j] == x;
        if j < segs.len() {
            assert(segs[j] == x);
        }
    }
}

} // verus!
