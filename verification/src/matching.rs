//! Correlating logical displays with physical monitors on Linux.
//!
//! The logical and physical backends are separate, so the correlation is
//! heuristic. Only uniquely identifying matches are accepted: no match is
//! preferred over a possibly wrong association.
use vstd::prelude::*;

use crate::text::{
    all_digits, char_views, chars_of, contains_seq, is_digit, is_digit_char, normalize,
    normalized_chars, split_chars, split_on, string_of,
};
use crate::types::{LogicalDisplay, PhysicalDisplay};

verus! {

// ---------------------------------------------------------------------------
// Connector names
// ---------------------------------------------------------------------------
/// A connector name such as `eDP-1`: a non-empty prefix, a `-`, and a non-empty run of digits.
pub open spec fn connector_name_form(v: Seq<char>) -> bool {
    exists|k: int|
        0 < k < v.len() - 1 && v[k] == '-' && (forall|j: int| k < j < v.len() ==> is_digit(
            #[trigger] v[j],
        ))
}

/// Tests whether a character sequence is a connector name.
pub fn is_connector_name_chars(v: &Vec<char>) -> (r: bool)
    ensures
        r == connector_name_form(v@),
{
    let n = v.len();
    // Walk back over the trailing digits.
    let mut k = n;
    while k > 0 && is_digit_char(v[k - 1])
        invariant
            n == v@.len(),
            k <= n,
            forall|j: int| k <= j < n ==> is_digit(#[trigger] v@[j]),
        decreases k,
    {
        k = k - 1;
    }
    // Now `k == 0` or `v[k - 1]` is not a digit.
    if k >= 2 && k < n && v[k - 1] == '-' {
        assert(0 < k - 1 < v@.len() - 1 && v@[k - 1] == '-' && (forall|j: int|
            k - 1 < j < v@.len() ==> is_digit(#[trigger] v@[j])));
        true
    } else {
        proof {
            if connector_name_form(v@) {
                let w = choose|w: int|
                    0 < w < v@.len() - 1 && v@[w] == '-' && (forall|j: int|
                        w < j < v@.len() ==> is_digit(#[trigger] v@[j]));
                // '-' is not a digit, so the walk stopped right after `w`.
                assert(!is_digit(v@[w]));
                if k > w + 1 {
                    assert(is_digit(v@[w]));
                }
                if k < w + 1 {
                    assert(is_digit(v@[k - 1]));
                }
            }
        }
        false
    }
}

/// Tests whether `value` is a connector name such as `eDP-1`.
pub fn is_connector_name(value: &str) -> (r: bool)
    ensures
        r == connector_name_form(value@),
{
    is_connector_name_chars(&chars_of(value))
}

/// Drops every leading `-` (`trim_start_matches('-')`).
pub open spec fn strip_dashes(s: Seq<char>) -> Seq<char>
    decreases s.len(),
{
    if s.len() > 0 && s[0] == '-' {
        strip_dashes(s.drop_first())
    } else {
        s
    }
}

/// Does `s` start with `card`?
pub open spec fn starts_with_card(s: Seq<char>) -> bool {
    s.len() >= 4 && s[0] == 'c' && s[1] == 'a' && s[2] == 'r' && s[3] == 'd'
}

/// A card index: a non-empty run of digits ending right before position `f`, which holds `-`.
pub open spec fn card_index_end(rest: Seq<char>, f: int) -> bool {
    0 < f < rest.len() && rest[f] == '-' && all_digits(rest.take(f))
}

/// The connector named by a DRM path component such as `card0-eDP-1`.
pub open spec fn drm_connector_of(seg: Seq<char>) -> Option<Seq<char>> {
    if starts_with_card(seg) {
        let rest = seg.skip(4);
        if exists|f: int| card_index_end(rest, f) {
            let f = choose|f: int| card_index_end(rest, f);
            let conn = strip_dashes(rest.skip(f));
            if connector_name_form(conn) {
                Some(conn)
            } else {
                None
            }
        } else {
            None
        }
    } else {
        None
    }
}

fn strip_dashes_chars(s: &Vec<char>, from: usize) -> (r: Vec<char>)
    requires
        from <= s@.len(),
    ensures
        r@ == strip_dashes(s@.skip(from as int)),
{
    let n = s.len();
    let mut i = from;
    while i < n && s[i] == '-'
        invariant
            n == s@.len(),
            from <= i <= n,
            strip_dashes(s@.skip(i as int)) == strip_dashes(s@.skip(from as int)),
        decreases n - i,
    {
        assert(s@.skip(i as int).drop_first() == s@.skip(i + 1));
        i = i + 1;
    }
    let mut r: Vec<char> = Vec::new();
    for j in i..n
        invariant
            n == s@.len(),
            r@ == s@.subrange(i as int, j as int),
    {
        r.push(s[j]);
        assert(s@.subrange(i as int, j + 1) == s@.subrange(i as int, j as int).push(s@[j as int]));
    }
    assert(s@.subrange(i as int, n as int) == s@.skip(i as int));
    r
}

/// Extracts the connector from a DRM path component such as `card0-eDP-1`.
pub fn drm_connector_name_chars(seg: &Vec<char>) -> (r: Option<Vec<char>>)
    ensures
        match r {
            Some(c) => drm_connector_of(seg@) == Some(c@),
            None => drm_connector_of(seg@) is None,
        },
{
    let n = seg.len();
    if !(n >= 4 && seg[0] == 'c' && seg[1] == 'a' && seg[2] == 'r' && seg[3] == 'd') {
        return None;
    }
    let ghost rest = seg@.skip(4);
    // Walk over the card index digits.
    let mut i: usize = 4;
    while i < n && is_digit_char(seg[i])
        invariant
            n == seg@.len(),
            4 <= i <= n,
            rest == seg@.skip(4),
            all_digits(rest.take(i - 4)),
        decreases n - i,
    {
        assert(rest.take(i + 1 - 4) == rest.take(i - 4).push(seg@[i as int]));
        i = i + 1;
    }
    let f = i - 4;
    if !(f > 0 && i < n && seg[i] == '-') {
        proof {
            if exists|g: int| card_index_end(rest, g) {
                let g = choose|g: int| card_index_end(rest, g);
                if g < f {
                    assert(rest.take(f as int)[g] == rest[g]);
                    assert(is_digit(rest.take(f as int)[g]));
                } else if g > f {
                    assert(rest.take(g)[f as int] == rest[f as int]);
                    assert(is_digit(rest.take(g)[f as int]));
                } else {
                    assert(rest[f as int] == seg@[i as int]);
                }
            }
        }
        return None;
    }
    assert(rest[f as int] == seg@[i as int]);
    assert(card_index_end(rest, f as int));
    proof {
        let g = choose|g: int| card_index_end(rest, g);
        if g < f {
            assert(rest.take(f as int)[g] == rest[g]);
            assert(is_digit(rest.take(f as int)[g]));
        } else if g > f {
            assert(rest.take(g)[f as int] == rest[f as int]);
            assert(is_digit(rest.take(g)[f as int]));
        }
        assert(g == f);
        assert(rest.skip(f as int) == seg@.skip(i as int));
    }
    let conn = strip_dashes_chars(seg, i);
    if is_connector_name_chars(&conn) {
        Some(conn)
    } else {
        None
    }
}

/// Extracts the connector from a DRM path component such as `card0-eDP-1`.
pub fn drm_connector_name(segment: &str) -> (r: Option<String>)
    ensures
        match r {
            Some(c) => drm_connector_of(segment@) == Some(c@),
            None => drm_connector_of(segment@) is None,
        },
{
    match drm_connector_name_chars(&chars_of(segment)) {
        Some(c) => Some(string_of(&c)),
        None => None,
    }
}

/// The rightmost `:`-separated segment that is a connector name.
pub open spec fn last_connector(segs: Seq<Seq<char>>) -> Option<Seq<char>>
    decreases segs.len(),
{
    if segs.len() == 0 {
        None
    } else if connector_name_form(segs.last()) {
        Some(segs.last())
    } else {
        last_connector(segs.drop_last())
    }
}

/// The connector named in a logical display path such as `wayland:wlr:eDP-1`.
pub open spec fn logical_connector(path: Seq<char>) -> Option<Seq<char>> {
    last_connector(split_on(path, ':'))
}

/// The first `/`-separated component that names a DRM connector.
pub open spec fn first_drm_connector(segs: Seq<Seq<char>>) -> Option<Seq<char>>
    decreases segs.len(),
{
    if segs.len() == 0 {
        None
    } else {
        match drm_connector_of(segs[0]) {
            Some(c) => Some(c),
            None => first_drm_connector(segs.drop_first()),
        }
    }
}

/// The connector named in a physical display path such as `/sys/.../card0-eDP-1/...`.
pub open spec fn physical_connector(path: Seq<char>) -> Option<Seq<char>> {
    first_drm_connector(split_on(path, '/'))
}

/// Finds the connector named in a logical display's path.
pub fn logical_connector_name(logical: &LogicalDisplay) -> (r: Option<Vec<char>>)
    ensures
        match r {
            Some(c) => logical_connector(logical.metadata.path@) == Some(c@),
            None => logical_connector(logical.metadata.path@) is None,
        },
{
    let path = chars_of(logical.metadata.path.as_str());
    let segs = split_chars(&path, ':');
    let ghost views = char_views(segs@);
    let mut k = segs.len();
    assert(views.take(k as int) == views);
    while k > 0
        invariant
            k <= segs@.len(),
            views == char_views(segs@),
            views == split_on(logical.metadata.path@, ':'),
            last_connector(views) == last_connector(views.take(k as int)),
        decreases k,
    {
        let ghost pre = views.take(k as int);
        assert(pre.drop_last() == views.take(k - 1));
        assert(pre.last() == segs@[k - 1]@);
        if is_connector_name_chars(&segs[k - 1]) {
            let mut found: Vec<char> = Vec::new();
            let seg = &segs[k - 1];
            let m = seg.len();
            for j in 0..m
                invariant
                    m == seg@.len(),
                    found@ == seg@.take(j as int),
            {
                found.push(seg[j]);
                assert(seg@.take(j + 1) == seg@.take(j as int).push(seg@[j as int]));
            }
            assert(seg@.take(m as int) == seg@);
            return Some(found);
        }
        k = k - 1;
    }
    assert(views.take(0) == Seq::<Seq<char>>::empty());
    None
}

/// Finds the connector named in a physical display's path.
pub fn physical_connector_name(physical: &PhysicalDisplay) -> (r: Option<Vec<char>>)
    ensures
        match r {
            Some(c) => physical_connector(physical.metadata.path@) == Some(c@),
            None => physical_connector(physical.metadata.path@) is None,
        },
{
    let path = chars_of(physical.metadata.path.as_str());
    let segs = split_chars(&path, '/');
    let ghost views = char_views(segs@);
    let n = segs.len();
    let mut k: usize = 0;
    assert(views.skip(0) == views);
    while k < n
        invariant
            n == segs@.len(),
            k <= n,
            views == char_views(segs@),
            views == split_on(physical.metadata.path@, '/'),
            first_drm_connector(views) == first_drm_connector(views.skip(k as int)),
        decreases n - k,
    {
        let ghost post = views.skip(k as int);
        assert(post.drop_first() == views.skip(k + 1));
        assert(post[0] == segs@[k as int]@);
        match drm_connector_name_chars(&segs[k]) {
            Some(c) => {
                return Some(c);
            },
            None => {},
        }
        k = k + 1;
    }
    assert(views.skip(n as int) == Seq::<Seq<char>>::empty());
    None
}


// ---------------------------------------------------------------------------
// Normalized names
// ---------------------------------------------------------------------------
/// The normalized value of an optional field, when it is non-empty after normalization.
pub open spec fn present_norm(value: Option<Seq<char>>) -> Option<Seq<char>> {
    match value {
        Some(v) => if normalize(v).len() > 0 {
            Some(normalize(v))
        } else {
            None
        },
        None => None,
    }
}

/// Normalizes a name for comparison.
pub fn normalized_name(value: &str) -> (r: String)
    ensures
        r@ == normalize(value@),
{
    let cs = chars_of(value);
    let n = normalized_chars(&cs);
    string_of(&n)
}

/// The normalized value, or `None` when the value is absent or blank.
pub fn normalized_present_value(value: Option<&str>) -> (r: Option<String>)
    ensures
        r.deep_view() == present_norm(
            match value {
                Some(v) => Some(v@),
                None => None,
            },
        ),
{
    match value {
        Some(v) => {
            let normalized = normalized_name(v);
            if normalized.as_str().is_empty() {
                None
            } else {
                Some(normalized)
            }
        },
        None => None,
    }
}

fn opt_str(o: &Option<String>) -> (r: Option<&str>)
    ensures
        match r {
            Some(v) => o.deep_view() == Some(v@),
            None => o is None,
        },
{
    match o {
        Some(s) => Some(s.as_str()),
        None => None,
    }
}

fn present_field(o: &Option<String>) -> (r: Option<String>)
    ensures
        r.deep_view() == present_norm(o.deep_view()),
{
    normalized_present_value(opt_str(o))
}

// ---------------------------------------------------------------------------
// Name candidates
// ---------------------------------------------------------------------------
/// The text held by a sequence of strings.
pub open spec fn string_views(v: Seq<String>) -> Seq<Seq<char>> {
    v.map_values(|s: String| s@)
}

/// Some candidate already normalizes to `n`.
pub open spec fn has_normalized(cands: Seq<Seq<char>>, n: Seq<char>) -> bool {
    exists|k: int| 0 <= k < cands.len() && normalize(#[trigger] cands[k]) == n
}

/// Appends `c` unless it is blank or some candidate already normalizes to the same name.
pub open spec fn push_unique(cands: Seq<Seq<char>>, c: Seq<char>) -> Seq<Seq<char>> {
    let n = normalize(c);
    if n.len() == 0 || has_normalized(cands, n) {
        cands
    } else {
        cands.push(c)
    }
}

/// `manufacturer model` built from the normalized values.
pub open spec fn joined(a: Seq<char>, b: Seq<char>) -> Seq<char> {
    a + seq![' '] + b
}

/// Name candidates of a logical display: its name, `manufacturer model`, and the model.
pub open spec fn logical_candidates(l: LogicalDisplay) -> Seq<Seq<char>> {
    let c0 = push_unique(seq![], l.metadata.name@);
    let mf = present_norm(l.metadata.manufacturer.deep_view());
    let md = present_norm(l.metadata.model.deep_view());
    let c1 = match (mf, md) {
        (Some(a), Some(b)) => push_unique(c0, joined(a, b)),
        _ => c0,
    };
    match md {
        Some(b) => push_unique(c1, b),
        None => c1,
    }
}

/// Name candidates of a physical display: its name, then `manufacturer model` and the model when both are known.
pub open spec fn physical_candidates(p: PhysicalDisplay) -> Seq<Seq<char>> {
    let c0 = push_unique(seq![], p.metadata.name@);
    let mf = present_norm(p.metadata.manufacturer.deep_view());
    let md = present_norm(p.metadata.model.deep_view());
    match (mf, md) {
        (Some(a), Some(b)) => push_unique(push_unique(c0, joined(a, b)), b),
        _ => c0,
    }
}

/// Adds a name candidate unless it is blank or already present up to normalization.
pub fn push_unique_candidate(candidates: &mut Vec<String>, candidate: String)
    ensures
        string_views(final(candidates)@) == push_unique(string_views(old(candidates)@), candidate@),
{
    let ghost cands = string_views(candidates@);
    let normalized_candidate = match normalized_present_value(Some(candidate.as_str())) {
        Some(n) => n,
        None => {
            return;
        },
    };
    let n = candidates.len();
    for k in 0..n
        invariant
            n == candidates@.len(),
            cands == string_views(candidates@),
            normalized_candidate@ == normalize(candidate@),
            forall|j: int| 0 <= j < k ==> normalize(#[trigger] cands[j]) != normalized_candidate@,
    {
        let existing = normalized_name(candidates[k].as_str());
        if existing == normalized_candidate {
            assert(normalize(cands[k as int]) == normalize(candidate@));
            return;
        }
    }
    candidates.push(candidate);
    assert(string_views(candidates@) == cands.push(candidate@));
}

fn join_with_space(a: &String, b: &String) -> (r: String)
    ensures
        r@ == joined(a@, b@),
{
    let mut v = chars_of(a.as_str());
    v.push(' ');
    let bv = chars_of(b.as_str());
    let m = bv.len();
    let ghost start = v@;
    for j in 0..m
        invariant
            m == bv@.len(),
            v@ == start + bv@.take(j as int),
    {
        v.push(bv[j]);
        assert(bv@.take(j + 1) == bv@.take(j as int).push(bv@[j as int]));
    }
    assert(bv@.take(m as int) == bv@);
    string_of(&v)
}

/// Lists the name candidates of a logical display.
pub fn logical_name_candidates(logical: &LogicalDisplay) -> (r: Vec<String>)
    ensures
        string_views(r@) == logical_candidates(*logical),
{
    let mut candidates: Vec<String> = Vec::new();
    assert(string_views(candidates@) == Seq::<Seq<char>>::empty());
    push_unique_candidate(&mut candidates, logical.metadata.name.clone());
    let manufacturer = present_field(&logical.metadata.manufacturer);
    let model = present_field(&logical.metadata.model);
    match (&manufacturer, &model) {
        (Some(a), Some(b)) => {
            push_unique_candidate(&mut candidates, join_with_space(a, b));
        },
        _ => {},
    }
    match model {
        Some(b) => {
            push_unique_candidate(&mut candidates, b);
        },
        None => {},
    }
    candidates
}

/// Lists the name candidates of a physical display.
pub fn physical_name_candidates(physical: &PhysicalDisplay) -> (r: Vec<String>)
    ensures
        string_views(r@) == physical_candidates(*physical),
{
    let mut candidates: Vec<String> = Vec::new();
    assert(string_views(candidates@) == Seq::<Seq<char>>::empty());
    push_unique_candidate(&mut candidates, physical.metadata.name.clone());
    let manufacturer = present_field(&physical.metadata.manufacturer);
    let model = present_field(&physical.metadata.model);
    match (manufacturer, model) {
        (Some(a), Some(b)) => {
            push_unique_candidate(&mut candidates, join_with_space(&a, &b));
            push_unique_candidate(&mut candidates, b);
        },
        _ => {},
    }
    candidates
}


// ---------------------------------------------------------------------------
// Choosing the one matching physical display
// ---------------------------------------------------------------------------
/// Exactly one flag is set, at `i`.
pub open spec fn only_set_at(flags: Seq<bool>, i: int) -> bool {
    0 <= i < flags.len() && flags[i] && (forall|j: int|
        0 <= j < flags.len() && #[trigger] flags[j] ==> j == i)
}

/// The index of the only set flag, or `None` when none or several are set.
pub open spec fn unique_index(flags: Seq<bool>) -> Option<int> {
    if exists|i: int| only_set_at(flags, i) {
        Some(choose|i: int| only_set_at(flags, i))
    } else {
        None
    }
}

/// The index of the only set flag is a valid index.
pub proof fn lemma_unique_index_in_range(flags: Seq<bool>)
    ensures
        match unique_index(flags) {
            Some(i) => 0 <= i < flags.len(),
            None => true,
        },
{
}

proof fn lemma_unique_index_is(flags: Seq<bool>, i: int)
    requires
        only_set_at(flags, i),
    ensures
        unique_index(flags) == Some(i),
{
    let c = choose|c: int| only_set_at(flags, c);
    assert(flags[i]);
    assert(flags[c]);
}

/// Returns the index of the only `true` flag, or `None` when there is no such single flag.
pub fn unique_match_index(flags: &Vec<bool>) -> (r: Option<usize>)
    ensures
        match r {
            Some(i) => unique_index(flags@) == Some(i as int),
            None => unique_index(flags@) is None,
        },
{
    let n = flags.len();
    let mut first: Option<usize> = None;
    let mut k: usize = 0;
    while k < n
        invariant
            n == flags@.len(),
            k <= n,
            match first {
                Some(f) => f < k && flags@[f as int] && (forall|j: int|
                    0 <= j < k && #[trigger] flags@[j] ==> j == f),
                None => forall|j: int| 0 <= j < k ==> !#[trigger] flags@[j],
            },
        decreases n - k,
    {
        if flags[k] {
            match first {
                Some(f) => {
                    proof {
                        if exists|i: int| only_set_at(flags@, i) {
                            let i = choose|i: int| only_set_at(flags@, i);
                            assert(flags@[f as int]);
                            assert(flags@[k as int]);
                        }
                    }
                    return None;
                },
                None => {
                    first = Some(k);
                },
            }
        }
        k = k + 1;
    }
    match first {
        Some(f) => {
            proof {
                lemma_unique_index_is(flags@, f as int);
            }
            Some(f)
        },
        None => {
            proof {
                if exists|i: int| only_set_at(flags@, i) {
                    let i = choose|i: int| only_set_at(flags@, i);
                    assert(flags@[i]);
                }
            }
            None
        },
    }
}

/// The connectors named by both paths agree.
pub open spec fn connector_matches(l: LogicalDisplay, p: PhysicalDisplay) -> bool {
    logical_connector(l.metadata.path@) is Some && physical_connector(p.metadata.path@)
        == logical_connector(l.metadata.path@)
}

/// Both carry the same non-blank serial number, up to normalization.
pub open spec fn serial_matches(l: LogicalDisplay, p: PhysicalDisplay) -> bool {
    present_norm(l.metadata.serial_number.deep_view()) is Some && present_norm(
        p.metadata.serial_number.deep_view(),
    ) == present_norm(l.metadata.serial_number.deep_view())
}

/// Both carry the same non-blank manufacturer and model, up to normalization.
pub open spec fn model_matches(l: LogicalDisplay, p: PhysicalDisplay) -> bool {
    &&& present_norm(l.metadata.manufacturer.deep_view()) is Some
    &&& present_norm(l.metadata.model.deep_view()) is Some
    &&& present_norm(p.metadata.manufacturer.deep_view()) == present_norm(
        l.metadata.manufacturer.deep_view(),
    )
    &&& present_norm(p.metadata.model.deep_view()) == present_norm(l.metadata.model.deep_view())
}

/// Some name candidate of each normalizes to the same name.
pub open spec fn name_matches(l: LogicalDisplay, p: PhysicalDisplay) -> bool {
    exists|a: int, b: int|
        0 <= a < logical_candidates(l).len() && 0 <= b < physical_candidates(p).len() && normalize(
            #[trigger] physical_candidates(p)[b],
        ) == normalize(#[trigger] logical_candidates(l)[a])
}

/// The flags of one matching tier over the remaining physical displays.
pub open spec fn tier_flags(
    ps: Seq<PhysicalDisplay>,
    pred: spec_fn(PhysicalDisplay) -> bool,
) -> Seq<bool> {
    Seq::new(ps.len(), |i: int| pred(ps[i]))
}

/// The physical display chosen for `l`: the first tier with exactly one match decides,
/// trying connector, serial number, manufacturer and model, then names.
pub open spec fn chosen_physical(l: LogicalDisplay, ps: Seq<PhysicalDisplay>) -> Option<int> {
    let t1 = unique_index(tier_flags(ps, |p: PhysicalDisplay| connector_matches(l, p)));
    let t2 = unique_index(tier_flags(ps, |p: PhysicalDisplay| serial_matches(l, p)));
    let t3 = unique_index(tier_flags(ps, |p: PhysicalDisplay| model_matches(l, p)));
    let t4 = unique_index(tier_flags(ps, |p: PhysicalDisplay| name_matches(l, p)));
    if t1 is Some {
        t1
    } else if t2 is Some {
        t2
    } else if t3 is Some {
        t3
    } else {
        t4
    }
}

fn same_chars(a: &Vec<char>, b: &Vec<char>) -> (r: bool)
    ensures
        r == (a@ == b@),
{
    if a.len() != b.len() {
        return false;
    }
    let n = a.len();
    for j in 0..n
        invariant
            n == a@.len(),
            n == b@.len(),
            forall|k: int| 0 <= k < j ==> a@[k] == b@[k],
    {
        if a[j] != b[j] {
            return false;
        }
    }
    assert(a@ == b@);
    true
}

fn connector_flags(logical: &LogicalDisplay, ps: &Vec<PhysicalDisplay>) -> (r: Vec<bool>)
    ensures
        r@ == tier_flags(ps@, |p: PhysicalDisplay| connector_matches(*logical, p)),
{
    let lc = logical_connector_name(logical);
    let mut flags: Vec<bool> = Vec::new();
    let n = ps.len();
    for k in 0..n
        invariant
            n == ps@.len(),
            flags@.len() == k,
            match lc {
                Some(c) => logical_connector(logical.metadata.path@) == Some(c@),
                None => logical_connector(logical.metadata.path@) is None,
            },
            forall|j: int| 0 <= j < k ==> flags@[j] == connector_matches(*logical, #[trigger] ps@[j]),
    {
        let f = match (&lc, physical_connector_name(&ps[k])) {
            (Some(c), Some(pc)) => same_chars(c, &pc),
            _ => false,
        };
        flags.push(f);
    }
    assert(flags@ == tier_flags(ps@, |p: PhysicalDisplay| connector_matches(*logical, p)));
    flags
}

fn serial_flags(logical: &LogicalDisplay, ps: &Vec<PhysicalDisplay>) -> (r: Vec<bool>)
    ensures
        r@ == tier_flags(ps@, |p: PhysicalDisplay| serial_matches(*logical, p)),
{
    let ls = present_field(&logical.metadata.serial_number);
    let mut flags: Vec<bool> = Vec::new();
    let n = ps.len();
    for k in 0..n
        invariant
            n == ps@.len(),
            flags@.len() == k,
            ls.deep_view() == present_norm(logical.metadata.serial_number.deep_view()),
            forall|j: int| 0 <= j < k ==> flags@[j] == serial_matches(*logical, #[trigger] ps@[j]),
    {
        let f = match (&ls, present_field(&ps[k].metadata.serial_number)) {
            (Some(a), Some(b)) => *a == b,
            _ => false,
        };
        flags.push(f);
    }
    assert(flags@ == tier_flags(ps@, |p: PhysicalDisplay| serial_matches(*logical, p)));
    flags
}

fn model_flags(logical: &LogicalDisplay, ps: &Vec<PhysicalDisplay>) -> (r: Vec<bool>)
    ensures
        r@ == tier_flags(ps@, |p: PhysicalDisplay| model_matches(*logical, p)),
{
    let lm = present_field(&logical.metadata.manufacturer);
    let lo = present_field(&logical.metadata.model);
    let mut flags: Vec<bool> = Vec::new();
    let n = ps.len();
    for k in 0..n
        invariant
            n == ps@.len(),
            flags@.len() == k,
            lm.deep_view() == present_norm(logical.metadata.manufacturer.deep_view()),
            lo.deep_view() == present_norm(logical.metadata.model.deep_view()),
            forall|j: int| 0 <= j < k ==> flags@[j] == model_matches(*logical, #[trigger] ps@[j]),
    {
        let pm = present_field(&ps[k].metadata.manufacturer);
        let po = present_field(&ps[k].metadata.model);
        let f = match (&lm, &lo, &pm, &po) {
            (Some(a), Some(b), Some(c), Some(d)) => *c == *a && *d == *b,
            _ => false,
        };
        flags.push(f);
    }
    assert(flags@ == tier_flags(ps@, |p: PhysicalDisplay| model_matches(*logical, p)));
    flags
}

fn names_overlap(lc: &Vec<String>, pc: &Vec<String>) -> (r: bool)
    ensures
        r == (exists|a: int, b: int|
            0 <= a < lc@.len() && 0 <= b < pc@.len() && normalize(#[trigger] pc@[b]@) == normalize(
                #[trigger] lc@[a]@,
            )),
{
    let n = lc.len();
    let m = pc.len();
    for a in 0..n
        invariant
            n == lc@.len(),
            m == pc@.len(),
            forall|x: int, y: int|
                0 <= x < a && 0 <= y < m ==> normalize(#[trigger] pc@[y]@) != normalize(
                    #[trigger] lc@[x]@,
                ),
    {
        let ln = normalized_name(lc[a].as_str());
        for b in 0..m
            invariant
                n == lc@.len(),
                m == pc@.len(),
                a < n,
                ln@ == normalize(lc@[a as int]@),
                forall|y: int| 0 <= y < b ==> normalize(#[trigger] pc@[y]@) != ln@,
        {
            let pn = normalized_name(pc[b].as_str());
            if pn == ln {
                return true;
            }
        }
    }
    false
}

fn name_flags(logical: &LogicalDisplay, ps: &Vec<PhysicalDisplay>) -> (r: Vec<bool>)
    ensures
        r@ == tier_flags(ps@, |p: PhysicalDisplay| name_matches(*logical, p)),
{
    let lc = logical_name_candidates(logical);
    let mut flags: Vec<bool> = Vec::new();
    let n = ps.len();
    for k in 0..n
        invariant
            n == ps@.len(),
            flags@.len() == k,
            string_views(lc@) == logical_candidates(*logical),
            forall|j: int| 0 <= j < k ==> flags@[j] == name_matches(*logical, #[trigger] ps@[j]),
    {
        let pc = physical_name_candidates(&ps[k]);
        let f = names_overlap(&lc, &pc);
        proof {
            let lcs = logical_candidates(*logical);
            let pcs = physical_candidates(ps@[k as int]);
            if f {
                let (a, b) = choose|a: int, b: int|
                    0 <= a < lc@.len() && 0 <= b < pc@.len() && normalize(#[trigger] pc@[b]@)
                        == normalize(#[trigger] lc@[a]@);
                assert(lcs[a] == lc@[a]@);
                assert(pcs[b] == pc@[b]@);
            }
            if name_matches(*logical, ps@[k as int]) {
                let (a, b) = choose|a: int, b: int|
                    0 <= a < lcs.len() && 0 <= b < pcs.len() && normalize(#[trigger] pcs[b])
                        == normalize(#[trigger] lcs[a]);
                assert(lcs[a] == lc@[a]@);
                assert(pcs[b] == pc@[b]@);
            }
        }
        flags.push(f);
    }
    assert(flags@ == tier_flags(ps@, |p: PhysicalDisplay| name_matches(*logical, p)));
    flags
}

/// Removes and returns the physical display that uniquely matches `logical`.
///
/// Tiers are tried in order (connector, serial number, manufacturer and model, names);
/// the first tier with exactly one candidate decides. When no tier yields a single
/// candidate, nothing is removed.
pub fn take_matching_physical_display(
    logical: &LogicalDisplay,
    remaining_physical: &mut Vec<PhysicalDisplay>,
) -> (r: Option<PhysicalDisplay>)
    ensures
        match chosen_physical(*logical, old(remaining_physical)@) {
            Some(i) => r == Some(old(remaining_physical)@[i]) && final(remaining_physical)@ == old(
                remaining_physical,
            )@.remove(i),
            None => r is None && final(remaining_physical)@ == old(remaining_physical)@,
        },
{
    let ghost ps = remaining_physical@;
    let f1 = connector_flags(logical, remaining_physical);
    if let Some(index) = unique_match_index(&f1) {
        return Some(remaining_physical.remove(index));
    }
    let f2 = serial_flags(logical, remaining_physical);
    if let Some(index) = unique_match_index(&f2) {
        return Some(remaining_physical.remove(index));
    }
    let f3 = model_flags(logical, remaining_physical);
    if let Some(index) = unique_match_index(&f3) {
        return Some(remaining_physical.remove(index));
    }
    let f4 = name_flags(logical, remaining_physical);
    if let Some(index) = unique_match_index(&f4) {
        return Some(remaining_physical.remove(index));
    }
    None
}

/// Removes and returns the first physical display whose path prefixes the logical display's path.
///
/// This is the correlation used where the logical path embeds the monitor device path.
pub fn take_physical_display_by_path_prefix(
    logical: &LogicalDisplay,
    remaining_physical: &mut Vec<PhysicalDisplay>,
) -> (r: Option<PhysicalDisplay>)
    ensures
        match first_prefix_index(logical.metadata.path@, old(remaining_physical)@) {
            Some(i) => r == Some(old(remaining_physical)@[i]) && final(remaining_physical)@ == old(
                remaining_physical,
            )@.remove(i),
            None => r is None && final(remaining_physical)@ == old(remaining_physical)@,
        },
{
    let lp = chars_of(logical.metadata.path.as_str());
    let n = remaining_physical.len();
    let mut k: usize = 0;
    while k < n
        invariant
            n == remaining_physical@.len(),
            remaining_physical@ == old(remaining_physical)@,
            k <= n,
            lp@ == logical.metadata.path@,
            forall|j: int| 0 <= j < k ==> !(#[trigger] remaining_physical@[j]).metadata.path@.is_prefix_of(lp@),
        decreases n - k,
    {
        let pp = chars_of(remaining_physical[k].metadata.path.as_str());
        if pp.len() <= lp.len() {
            let mut same = true;
            let m = pp.len();
            let mut j: usize = 0;
            while j < m
                invariant
                    m == pp@.len(),
                    m <= lp@.len(),
                    j <= m,
                    same == (forall|x: int| 0 <= x < j ==> pp@[x] == lp@[x]),
                decreases m - j,
            {
                if pp[j] != lp[j] {
                    same = false;
                }
                j = j + 1;
            }
            if same {
                assert(pp@.is_prefix_of(lp@));
                proof {
                    lemma_first_prefix_index(logical.metadata.path@, remaining_physical@, k as int);
                }
                return Some(remaining_physical.remove(k));
            }
            assert(!pp@.is_prefix_of(lp@)) by {
                if pp@.is_prefix_of(lp@) {
                    let x = choose|x: int| 0 <= x < m && pp@[x] != lp@[x];
                    assert(lp@.take(m as int)[x] == lp@[x]);
                }
            }
        }
        k = k + 1;
    }
    proof {
        lemma_no_prefix_index(logical.metadata.path@, remaining_physical@);
    }
    None
}

/// `ps[i]` is the first physical display whose path prefixes `path` (`str::starts_with`).
pub open spec fn is_first_prefix(path: Seq<char>, ps: Seq<PhysicalDisplay>, i: int) -> bool {
    &&& 0 <= i < ps.len()
    &&& ps[i].metadata.path@.is_prefix_of(path)
    &&& forall|j: int| 0 <= j < i ==> !(#[trigger] ps[j]).metadata.path@.is_prefix_of(path)
}

/// The index of the first physical display whose path prefixes `path`.
pub open spec fn first_prefix_index(path: Seq<char>, ps: Seq<PhysicalDisplay>) -> Option<int> {
    if exists|i: int| is_first_prefix(path, ps, i) {
        Some(choose|i: int| is_first_prefix(path, ps, i))
    } else {
        None
    }
}

proof fn lemma_first_prefix_index(path: Seq<char>, ps: Seq<PhysicalDisplay>, k: int)
    requires
        is_first_prefix(path, ps, k),
    ensures
        first_prefix_index(path, ps) == Some(k),
{
    let c = choose|i: int| is_first_prefix(path, ps, i);
    if c < k {
        assert(!ps[c].metadata.path@.is_prefix_of(path));
    } else if c > k {
        assert(!ps[k].metadata.path@.is_prefix_of(path));
    }
}

proof fn lemma_no_prefix_index(path: Seq<char>, ps: Seq<PhysicalDisplay>)
    requires
        forall|j: int| 0 <= j < ps.len() ==> !(#[trigger] ps[j]).metadata.path@.is_prefix_of(path),
    ensures
        first_prefix_index(path, ps) is None,
{
    if exists|i: int| is_first_prefix(path, ps, i) {
        let i = choose|i: int| is_first_prefix(path, ps, i);
        assert(!ps[i].metadata.path@.is_prefix_of(path));
    }
}


/// The matching tiers, tried in order: connector, serial number, manufacturer and model, names.
pub open spec fn tier_holds(l: LogicalDisplay, tier: int, p: PhysicalDisplay) -> bool {
    if tier == 1 {
        connector_matches(l, p)
    } else if tier == 2 {
        serial_matches(l, p)
    } else if tier == 3 {
        model_matches(l, p)
    } else {
        name_matches(l, p)
    }
}

/// `ps[k]` is the only display among `ps` that satisfies the given tier for `l`.
pub open spec fn unique_in_tier(l: LogicalDisplay, ps: Seq<PhysicalDisplay>, tier: int, k: int) -> bool {
    &&& 0 <= k < ps.len()
    &&& tier_holds(l, tier, ps[k])
    &&& forall|j: int| 0 <= j < ps.len() && j != k ==> !tier_holds(l, tier, #[trigger] ps[j])
}

proof fn lemma_flags_of_tier(l: LogicalDisplay, ps: Seq<PhysicalDisplay>, tier: int, flags: Seq<bool>, k: int)
    requires
        flags.len() == ps.len(),
        forall|j: int| 0 <= j < ps.len() ==> flags[j] == tier_holds(l, tier, #[trigger] ps[j]),
    ensures
        unique_in_tier(l, ps, tier, k) == only_set_at(flags, k),
{
    if unique_in_tier(l, ps, tier, k) {
        assert forall|j: int| 0 <= j < flags.len() && #[trigger] flags[j] implies j == k by {
            assert(flags[j] == tier_holds(l, tier, ps[j]));
        }
    }
    if only_set_at(flags, k) {
        assert forall|j: int| 0 <= j < ps.len() && j != k implies !tier_holds(l, tier, #[trigger] ps[j]) by {
            assert(flags[j] == tier_holds(l, tier, ps[j]));
        }
    }
}

/// A matched physical display is the only remaining one that satisfies the deciding tier,
/// and no earlier tier is satisfied by exactly one remaining display.
pub proof fn law_match_is_unique_in_its_tier(l: LogicalDisplay, ps: Seq<PhysicalDisplay>, i: int)
    requires
        chosen_physical(l, ps) == Some(i),
    ensures
        0 <= i < ps.len(),
        exists|tier: int|
            1 <= tier <= 4 && #[trigger] unique_in_tier(l, ps, tier, i) && (forall|t: int, k: int|
                1 <= t < tier ==> !#[trigger] unique_in_tier(l, ps, t, k)),
{
    let c = |p: PhysicalDisplay| connector_matches(l, p);
    let s = |p: PhysicalDisplay| serial_matches(l, p);
    let m = |p: PhysicalDisplay| model_matches(l, p);
    let n = |p: PhysicalDisplay| name_matches(l, p);
    let f1 = tier_flags(ps, c);
    let f2 = tier_flags(ps, s);
    let f3 = tier_flags(ps, m);
    let f4 = tier_flags(ps, n);
    let t1 = unique_index(f1);
    let t2 = unique_index(f2);
    let t3 = unique_index(f3);
    let tier: int = if t1 is Some {
        1
    } else if t2 is Some {
        2
    } else if t3 is Some {
        3
    } else {
        4
    };
    let flags = if tier == 1 {
        f1
    } else if tier == 2 {
        f2
    } else if tier == 3 {
        f3
    } else {
        f4
    };
    assert(unique_index(flags) == Some(i));
    let w = choose|w: int| only_set_at(flags, w);
    assert(w == i);
    lemma_flags_of_tier(l, ps, tier, flags, i);
    assert forall|t: int, k: int| 1 <= t < tier implies !#[trigger] unique_in_tier(l, ps, t, k) by {
        let ft = if t == 1 {
            f1
        } else if t == 2 {
            f2
        } else {
            f3
        };
        lemma_flags_of_tier(l, ps, t, ft, k);
        assert(unique_index(ft) is None);
    }
    assert(unique_in_tier(l, ps, tier, i));
}


/// The physical display chosen for a logical display agrees with it on what the deciding tier
/// compares, and is the only remaining display that does: both paths name the same connector;
/// or both carry the same non-blank serial number; or both carry the same non-blank
/// manufacturer and the same non-blank model (normalized); or a name candidate of each
/// normalizes to the same name.
pub proof fn law_chosen_display_agrees_with_logical(l: LogicalDisplay, ps: Seq<PhysicalDisplay>, i: int)
    requires
        chosen_physical(l, ps) == Some(i),
    ensures
        0 <= i < ps.len(),
        ({
            let p = ps[i];
            let lm = present_norm(l.metadata.manufacturer.deep_view());
            let lo = present_norm(l.metadata.model.deep_view());
            let ls = present_norm(l.metadata.serial_number.deep_view());
            ||| (logical_connector(l.metadata.path@) is Some && physical_connector(p.metadata.path@)
                == logical_connector(l.metadata.path@))
            ||| (ls is Some && present_norm(p.metadata.serial_number.deep_view()) == ls)
            ||| (lm is Some && lo is Some && present_norm(p.metadata.manufacturer.deep_view()) == lm
                && present_norm(p.metadata.model.deep_view()) == lo)
            ||| name_matches(l, p)
        }),
{
    law_match_is_unique_in_its_tier(l, ps, i);
    let tier = choose|tier: int|
        1 <= tier <= 4 && #[trigger] unique_in_tier(l, ps, tier, i) && (forall|t: int, k: int|
            1 <= t < tier ==> !#[trigger] unique_in_tier(l, ps, t, k));
    assert(tier_holds(l, tier, ps[i]));
}

} // verus!
