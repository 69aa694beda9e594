//! The add-a-setting palette: rank the catalogue against a query, group the ranked results
//! under their sections, and move a keyboard selection through what is shown.
//!
//! Ranking is substring and case-insensitive with no fuzzy scoring. Lower ranks are better: a
//! prefix of the key beats a mention inside the key, which beats a mention in the description
//! or the section name. An empty query matches everything at the lowest rank.
use vstd::prelude::*;
use vstd::utf8::encode_utf8;
use crate::catalog::{SettingDef, Shape};
use crate::text::{
    chars_of, contains, is_prefix, lowercase_contains, spec_lowercase, starts_with_chars,
    to_lowercase, trim, trim_str,
};
use crate::yaml::text_equal;

verus! {

/// How many results the palette shows before it stops being a list.
pub const MAX_RESULTS: usize = 40;

/// How well a setting answers a (trimmed, lowercased) query, or `None` if it does not.
pub open spec fn spec_rank(
    key: Seq<char>,
    description: Seq<char>,
    group: Seq<char>,
    query: Seq<char>,
) -> Option<u8> {
    if query.len() == 0 {
        Some(2u8)
    } else if is_prefix(query, spec_lowercase(key)) {
        Some(0u8)
    } else if contains(spec_lowercase(key), query) {
        Some(1u8)
    } else if contains(spec_lowercase(description), query) || contains(
        spec_lowercase(group),
        query,
    ) {
        Some(2u8)
    } else {
        None
    }
}

/// The rank of `def` for `query`.
pub open spec fn rank_of(def: SettingDef, query: Seq<char>) -> Option<u8> {
    spec_rank(def.key@, def.description@, def.group@, query)
}

/// How well `def` answers `query`, or `None` if it does not. Lower is better: an exact prefix
/// of the key beats a mention inside it, which beats a mention in the prose. An empty query
/// matches everything at the lowest rank, so the ordering falls back to key length.
pub fn rank(def: &SettingDef, query: &str) -> (r: Option<u8>)
    ensures
        r == rank_of(*def, query@),
{
    if query.unicode_len() == 0 {
        return Some(2);
    }
    let q = chars_of(query);
    let key = to_lowercase(def.key.as_str());
    let key_chars = chars_of(key.as_str());
    if starts_with_chars(&key_chars, &q) {
        Some(0)
    } else if crate::text::contains_chars(&key_chars, &q) {
        Some(1)
    } else if lowercase_contains(def.description.as_str(), &q) || lowercase_contains(
        def.group.as_str(),
        &q,
    ) {
        Some(2)
    } else {
        None
    }
}

/// A query that starts the lowercased key also occurs in it.
proof fn lemma_prefix_contains(q: Seq<char>, s: Seq<char>)
    requires
        is_prefix(q, s),
    ensures
        contains(s, q),
{
    assert(crate::text::occurs_at(q, s, 0));
}

/// A setting whose key and section do not mention a non-empty query is listed, as a prose
/// match, exactly when its description mentions the query once lowercased; otherwise it is
/// not listed at all.
pub proof fn lemma_prose_match_ignores_case(def: SettingDef, query: Seq<char>)
    requires
        query.len() > 0,
        !contains(spec_lowercase(def.key@), query),
        !contains(spec_lowercase(def.group@), query),
    ensures
        rank_of(def, query) == Some(2u8) <==> contains(spec_lowercase(def.description@), query),
        rank_of(def, query) is None <==> !contains(spec_lowercase(def.description@), query),
{
    if is_prefix(query, spec_lowercase(def.key@)) {
        lemma_prefix_contains(query, spec_lowercase(def.key@));
    }
}

/// Case never matters: two settings whose key, section and description read the same once
/// lowercased rank the same for every query.
pub proof fn lemma_rank_ignores_case(a: SettingDef, b: SettingDef, query: Seq<char>)
    requires
        spec_lowercase(a.key@) == spec_lowercase(b.key@),
        spec_lowercase(a.group@) == spec_lowercase(b.group@),
        spec_lowercase(a.description@) == spec_lowercase(b.description@),
    ensures
        rank_of(a, query) == rank_of(b, query),
{
}

// ---------------------------------------------------------------------------------------------
// Ordering the matches.
// ---------------------------------------------------------------------------------------------

/// The order results are listed in: by rank, then by the key's length in bytes.
pub open spec fn key_le(a: (u8, nat), b: (u8, nat)) -> bool {
    a.0 < b.0 || (a.0 == b.0 && a.1 <= b.1)
}

/// `perm` lists the indices of `keys` in ascending key order, keeping equal keys in their
/// original order. Exactly one such listing exists for any `keys`.
pub open spec fn is_stable_order(keys: Seq<(u8, nat)>, perm: Seq<int>) -> bool {
    &&& perm.len() == keys.len()
    &&& forall|i: int| 0 <= i < perm.len() ==> 0 <= #[trigger] perm[i] < keys.len()
    &&& forall|i: int, j: int| 0 <= i < j < perm.len() ==> perm[i] != perm[j]
    &&& forall|i: int, j: int|
        0 <= i < j < perm.len() ==> key_le(keys[#[trigger] perm[i]], keys[#[trigger] perm[j]])
    &&& forall|i: int, j: int|
        0 <= i < j < perm.len() && keys[#[trigger] perm[i]] == keys[#[trigger] perm[j]]
            ==> perm[i] < perm[j]
}

/// The settings of `defs` that answer `query`, in catalogue order.
pub open spec fn candidates<'a>(defs: Seq<&'a SettingDef>, query: Seq<char>) -> Seq<&'a SettingDef>
    decreases defs.len(),
{
    if defs.len() == 0 {
        Seq::empty()
    } else if rank_of(*defs.last(), query) is Some {
        candidates(defs.drop_last(), query).push(defs.last())
    } else {
        candidates(defs.drop_last(), query)
    }
}

/// The length in bytes of a setting's key, as `str::len` reports it.
pub open spec fn key_len(d: &SettingDef) -> nat {
    (encode_utf8(d.key@).len() as usize) as nat
}

/// The sort key of each candidate: its rank and its key's length in bytes.
pub open spec fn sort_keys(c: Seq<&SettingDef>, query: Seq<char>) -> Seq<(u8, nat)> {
    Seq::new(c.len(), |i: int| (rank_of(*c[i], query)->0, key_len(c[i])))
}

/// The query as ranking reads it: trimmed, then lowercased.
pub open spec fn normalised_query(query: Seq<char>) -> Seq<char> {
    spec_lowercase(trim(query))
}

/// Whether `r` is the ranked result list for `query` over `defs`.
pub open spec fn is_ranked_result<'a>(
    defs: Seq<&'a SettingDef>,
    query: Seq<char>,
    r: Seq<&'a SettingDef>,
) -> bool {
    let q = normalised_query(query);
    let c = candidates(defs, q);
    exists|perm: Seq<int>|
        {
            &&& #[trigger] is_stable_order(sort_keys(c, q), perm)
            &&& r.len() == perm.len()
            &&& forall|i: int| 0 <= i < r.len() ==> r[i] == c[#[trigger] perm[i]]
        }
}

fn key_le_exec(a: (u8, usize), b: (u8, usize)) -> (r: bool)
    ensures
        r == key_le((a.0, a.1 as nat), (b.0, b.1 as nat)),
{
    a.0 < b.0 || (a.0 == b.0 && a.1 <= b.1)
}

/// Settings ranked so a prefix match beats a mention anywhere: every setting of `addable` that
/// answers the trimmed, lowercased query, by rank and then by key length, ties kept in
/// catalogue order.
pub fn matches<'a>(addable: &Vec<&'a SettingDef>, query: &str) -> (r: Vec<&'a SettingDef>)
    ensures
        is_ranked_result(addable@, query@, r@),
{
    let trimmed = trim_str(query);
    let q = to_lowercase(trimmed.as_str());
    let ghost qv = q@;
    // The candidates in catalogue order, with their sort keys.
    let mut found: Vec<(u8, usize, &'a SettingDef)> = Vec::new();
    let mut i: usize = 0;
    while i < addable.len()
        invariant
            i <= addable@.len(),
            qv == q@,
            found@.len() == candidates(addable@.subrange(0, i as int), qv).len(),
            forall|k: int|
                0 <= k < found@.len() ==> (#[trigger] found@[k]).2 == candidates(
                    addable@.subrange(0, i as int),
                    qv,
                )[k] && found@[k].0 == rank_of(*found@[k].2, qv)->0 && found@[k].1 as nat
                    == key_len(found@[k].2),
        decreases addable@.len() - i,
    {
        let def = addable[i];
        let ghost pre = addable@.subrange(0, i as int);
        assert(addable@.subrange(0, i + 1).drop_last() =~= pre);
        assert(addable@.subrange(0, i + 1).last() == def);
        match rank(def, q.as_str()) {
            Some(rk) => {
                assert(candidates(addable@.subrange(0, i + 1), qv) == candidates(pre, qv).push(
                    def,
                ));
                let len = def.key.as_str().len();
                found.push((rk, len, def));
            },
            None => {
                assert(candidates(addable@.subrange(0, i + 1), qv) == candidates(pre, qv));
            },
        }
        i = i + 1;
    }
    assert(addable@.subrange(0, addable@.len() as int) =~= addable@);
    let ghost c = candidates(addable@, qv);
    let ghost keys = sort_keys(c, qv);
    // A stable insertion sort of the candidates by (rank, key length).
    let mut out: Vec<(u8, usize, &'a SettingDef)> = Vec::new();
    let ghost mut perm: Seq<int> = Seq::empty();
    let mut j: usize = 0;
    while j < found.len()
        invariant
            j <= found@.len(),
            found@.len() == c.len(),
            keys == sort_keys(c, qv),
            forall|k: int|
                0 <= k < found@.len() ==> (#[trigger] found@[k]).2 == c[k] && (
                found@[k].0,
                found@[k].1 as nat,
            ) == keys[k],
            out@.len() == j,
            perm.len() == j,
            forall|k: int| 0 <= k < perm.len() ==> 0 <= #[trigger] perm[k] < j,
            forall|a: int, b: int| 0 <= a < b < perm.len() ==> perm[a] != perm[b],
            forall|a: int, b: int|
                0 <= a < b < perm.len() ==> key_le(keys[#[trigger] perm[a]], keys[#[trigger] perm[b]]),
            forall|a: int, b: int|
                0 <= a < b < perm.len() && keys[#[trigger] perm[a]] == keys[#[trigger] perm[b]]
                    ==> perm[a] < perm[b],
            forall|k: int| 0 <= k < out@.len() ==> #[trigger] out@[k] == found@[perm[k]],
        decreases found@.len() - j,
    {
        let item = found[j];
        let mut p: usize = out.len();
        while p > 0 && !key_le_exec((out[p - 1].0, out[p - 1].1), (item.0, item.1))
            invariant
                p <= out@.len(),
                out@.len() == j,
                j < found@.len(),
                item == found@[j as int],
                forall|k: int| 0 <= k < out@.len() ==> #[trigger] out@[k] == found@[perm[k]],
                forall|k: int| 0 <= k < perm.len() ==> 0 <= #[trigger] perm[k] < j,
                perm.len() == j,
                forall|k: int|
                    0 <= k < found@.len() ==> (#[trigger] found@[k]).2 == c[k] && (
                    found@[k].0,
                    found@[k].1 as nat,
                ) == keys[k],
                forall|k: int| p <= k < j ==> !key_le(#[trigger] keys[perm[k]], keys[j as int]),
            decreases p,
        {
            p = p - 1;
        }
        proof {
            // Everything before `p` sorts no later than the new item.
            if p > 0 {
                assert(key_le(keys[perm[p - 1]], keys[j as int]));
                assert forall|k: int| 0 <= k < p implies key_le(
                    #[trigger] keys[perm[k]],
                    keys[j as int],
                ) by {
                    if k < p - 1 {
                        assert(key_le(keys[perm[k]], keys[perm[p - 1]]));
                    }
                }
            }
        }
        out.insert(p, item);
        proof {
            let old_perm = perm;
            perm = old_perm.insert(p as int, j as int);
            assert forall|k: int| 0 <= k < out@.len() implies #[trigger] out@[k] == found@[perm[k]] by {
                if k < p {
                    assert(out@[k] == found@[old_perm[k]]);
                } else if k > p {
                    assert(out@[k] == found@[old_perm[k - 1]]);
                }
            }
            assert forall|a: int, b: int| 0 <= a < b < perm.len() implies key_le(
                keys[#[trigger] perm[a]],
                keys[#[trigger] perm[b]],
            ) by {
                if b < p {
                    assert(key_le(keys[old_perm[a]], keys[old_perm[b]]));
                } else if a > p {
                    assert(key_le(keys[old_perm[a - 1]], keys[old_perm[b - 1]]));
                } else if a == p {
                    assert(!key_le(keys[old_perm[b - 1]], keys[j as int]));
                } else if b == p {
                } else {
                    assert(key_le(keys[old_perm[a]], keys[old_perm[b - 1]]));
                }
            }
            assert forall|a: int, b: int|
                0 <= a < b < perm.len() && keys[#[trigger] perm[a]] == keys[#[trigger] perm[b]]
                    implies perm[a] < perm[b] by {
                if b < p {
                } else if a > p {
                } else if a == p {
                    assert(!key_le(keys[old_perm[b - 1]], keys[j as int]));
                } else if b == p {
                } else {
                }
            }
            assert forall|a: int, b: int| 0 <= a < b < perm.len() implies perm[a] != perm[b] by {
                if b < p {
                } else if a > p {
                } else if a == p {
                } else if b == p {
                } else {
                }
            }
        }
        j = j + 1;
    }
    let mut r: Vec<&'a SettingDef> = Vec::new();
    let mut k: usize = 0;
    while k < out.len()
        invariant
            k <= out@.len(),
            r@.len() == k,
            forall|t: int| 0 <= t < k ==> #[trigger] r@[t] == out@[t].2,
        decreases out@.len() - k,
    {
        r.push(out[k].2);
        k = k + 1;
    }
    proof {
        assert(is_stable_order(keys, perm));
        assert forall|t: int| 0 <= t < r@.len() implies r@[t] == c[#[trigger] perm[t]] by {
            assert(out@[t] == found@[perm[t]]);
        }
        assert(qv == normalised_query(query@));
    }
    r
}

// ---------------------------------------------------------------------------------------------
// Grouping under sections.
// ---------------------------------------------------------------------------------------------

/// The section names of `m`, each once, in the order each first appears.
pub open spec fn group_names(m: Seq<&SettingDef>) -> Seq<Seq<char>>
    decreases m.len(),
{
    if m.len() == 0 {
        Seq::empty()
    } else {
        let prev = group_names(m.drop_last());
        if prev.contains(m.last().group@) {
            prev
        } else {
            prev.push(m.last().group@)
        }
    }
}

/// The settings of `m` in section `name`, in their order in `m`.
pub open spec fn members<'a>(m: Seq<&'a SettingDef>, name: Seq<char>) -> Seq<&'a SettingDef>
    decreases m.len(),
{
    if m.len() == 0 {
        Seq::empty()
    } else if m.last().group@ == name {
        members(m.drop_last(), name).push(m.last())
    } else {
        members(m.drop_last(), name)
    }
}

/// `m` grouped by section: each section once, in first-appearance order, with its settings in
/// their order in `m`.
pub open spec fn groups_of<'a>(m: Seq<&'a SettingDef>) -> Seq<(Seq<char>, Seq<&'a SettingDef>)> {
    group_names(m).map_values(|n: Seq<char>| (n, members(m, n)))
}

/// The view of a grouping as produced by [`group_by_section`].
pub open spec fn groups_view<'a>(g: Seq<(String, Vec<&'a SettingDef>)>) -> Seq<
    (Seq<char>, Seq<&'a SettingDef>),
> {
    g.map_values(|e: (String, Vec<&'a SettingDef>)| (e.0@, e.1@))
}

pub proof fn lemma_group_names_distinct(m: Seq<&SettingDef>)
    ensures
        group_names(m).no_duplicates(),
    decreases m.len(),
{
    if m.len() > 0 {
        lemma_group_names_distinct(m.drop_last());
    }
}

/// A section has members in `m` exactly when it is one of `m`'s section names.
pub proof fn lemma_members_nonempty(m: Seq<&SettingDef>, name: Seq<char>)
    ensures
        (members(m, name).len() > 0) == group_names(m).contains(name),
    decreases m.len(),
{
    if m.len() > 0 {
        let p = m.drop_last();
        let x = m.last().group@;
        let prev = group_names(p);
        lemma_members_nonempty(p, name);
        if x == name {
            if !prev.contains(x) {
                assert(prev.push(x)[prev.len() as int] == x);
            }
        } else {
            if prev.contains(name) {
                let k = choose|k: int| 0 <= k < prev.len() && prev[k] == name;
                assert(prev.push(x)[k] == name);
            }
            if prev.push(x).contains(name) {
                let k = choose|k: int| 0 <= k < prev.len() + 1 && prev.push(x)[k] == name;
                assert(k < prev.len());
                assert(prev[k] == name);
            }
        }
    }
}

/// Bucket ranked results under their section names, keeping both the order the sections first
/// appear in and the order within a section. The section holding the best match therefore
/// leads.
pub fn group_by_section<'a>(matches: &[&'a SettingDef]) -> (r: Vec<(String, Vec<&'a SettingDef>)>)
    ensures
        groups_view(r@) == groups_of(matches@),
{
    let mut groups: Vec<(String, Vec<&'a SettingDef>)> = Vec::new();
    let mut i: usize = 0;
    while i < matches.len()
        invariant
            i <= matches@.len(),
            groups_view(groups@) == groups_of(matches@.subrange(0, i as int)),
        decreases matches@.len() - i,
    {
        let def = matches[i];
        let ghost pre = matches@.subrange(0, i as int);
        let ghost post = matches@.subrange(0, i + 1);
        assert(post.drop_last() =~= pre);
        assert(post.last() == def);
        proof {
            lemma_group_names_distinct(pre);
        }
        let mut j: usize = 0;
        let mut found = false;
        while j < groups.len() && !found
            invariant
                j <= groups@.len(),
                groups_view(groups@) == groups_of(pre),
                found ==> j < groups@.len() && groups@[j as int].0@ == def.group@,
                forall|k: int| 0 <= k < j ==> (#[trigger] groups@[k]).0@ != def.group@,
            decreases groups@.len() - j + (if found { 0int } else { 1int }),
        {
            if text_equal(&groups[j].0, &def.group) {
                found = true;
            } else {
                j = j + 1;
            }
        }
        let ghost names = group_names(pre);
        assert(groups_view(groups@).len() == names.len());
        assert forall|k: int| 0 <= k < groups@.len() implies (#[trigger] groups@[k]).0@ == names[k] by {
            assert(groups_view(groups@)[k] == groups_of(pre)[k]);
        }
        if found {
            let ghost old_groups = groups@;
            proof {
                assert(names[j as int] == def.group@);
                assert(names.contains(def.group@));
                assert(group_names(post) == names);
            }
            let (name, mut items) = groups.remove(j);
            items.push(def);
            groups.insert(j, (name, items));
            proof {
                assert forall|k: int| 0 <= k < names.len() implies #[trigger] groups_view(groups@)[k]
                    == groups_of(post)[k] by {
                    assert(groups_view(old_groups)[k] == groups_of(pre)[k]);
                    if k != j {
                        assert(names[k] != names[j as int]);
                    }
                }
                assert(groups_view(groups@) =~= groups_of(post));
            }
        } else {
            proof {
                assert forall|k: int| 0 <= k < names.len() implies names[k] != def.group@ by {
                    assert(groups@[k].0@ == names[k]);
                }
                assert(!names.contains(def.group@));
                lemma_members_nonempty(pre, def.group@);
                assert(members(pre, def.group@) =~= Seq::empty());
                assert(group_names(post) == names.push(def.group@));
            }
            let ghost old_groups = groups@;
            let mut items: Vec<&'a SettingDef> = Vec::new();
            items.push(def);
            groups.push((def.group.clone(), items));
            proof {
                assert forall|k: int| 0 <= k < names.len() + 1 implies #[trigger] groups_view(
                    groups@,
                )[k] == groups_of(post)[k] by {
                    if k < names.len() {
                        assert(groups_view(old_groups)[k] == groups_of(pre)[k]);
                        assert(names[k] != def.group@);
                    } else {
                        assert(members(post, def.group@) =~= seq![def]);
                    }
                }
                assert(groups_view(groups@) =~= groups_of(post));
            }
        }
        i = i + 1;
    }
    assert(matches@.subrange(0, matches@.len() as int) =~= matches@);
    groups
}

/// How many settings the sections of `names` hold in `m`, all together.
pub open spec fn total_members(m: Seq<&SettingDef>, names: Seq<Seq<char>>) -> nat
    decreases names.len(),
{
    if names.len() == 0 {
        0
    } else {
        total_members(m, names.drop_last()) + members(m, names.last()).len()
    }
}

proof fn lemma_total_push(m: Seq<&SettingDef>, x: &SettingDef, names: Seq<Seq<char>>)
    requires
        names.no_duplicates(),
    ensures
        total_members(m.push(x), names) == total_members(m, names) + (if names.contains(x.group@) {
            1nat
        } else {
            0nat
        }),
    decreases names.len(),
{
    assert(m.push(x).drop_last() =~= m);
    if names.len() > 0 {
        let rest = names.drop_last();
        assert(rest.no_duplicates()) by {
            assert forall|a: int, b: int| 0 <= a < b < rest.len() implies rest[a] != rest[b] by {
                assert(rest[a] == names[a]);
                assert(rest[b] == names[b]);
            }
        }
        lemma_total_push(m, x, rest);
        if names.last() == x.group@ {
            assert(!rest.contains(x.group@)) by {
                if rest.contains(x.group@) {
                    let k = choose|k: int| 0 <= k < rest.len() && rest[k] == x.group@;
                    assert(names[k] == names[names.len() - 1]);
                }
            }
            assert(names.contains(x.group@)) by {
                assert(names[names.len() - 1] == x.group@);
            }
        } else {
            if rest.contains(x.group@) {
                let k = choose|k: int| 0 <= k < rest.len() && rest[k] == x.group@;
                assert(names[k] == x.group@);
            }
            if names.contains(x.group@) {
                let k = choose|k: int| 0 <= k < names.len() && names[k] == x.group@;
                assert(k < names.len() - 1);
                assert(rest[k] == x.group@);
            }
        }
    }
}

/// Every ranked match lands in exactly one section: the sections' sizes add up to the number
/// of matches, each section is non-empty, and no section is listed twice.
pub proof fn lemma_grouping_keeps_every_match(m: Seq<&SettingDef>)
    ensures
        total_members(m, group_names(m)) == m.len(),
        group_names(m).no_duplicates(),
        forall|i: int|
            0 <= i < group_names(m).len() ==> #[trigger] members(m, group_names(m)[i]).len() > 0,
    decreases m.len(),
{
    lemma_group_names_distinct(m);
    assert forall|i: int| 0 <= i < group_names(m).len() implies #[trigger] members(
        m,
        group_names(m)[i],
    ).len() > 0 by {
        lemma_members_nonempty(m, group_names(m)[i]);
    }
    if m.len() > 0 {
        let p = m.drop_last();
        let x = m.last();
        assert(p.push(x) =~= m);
        lemma_grouping_keeps_every_match(p);
        lemma_group_names_distinct(p);
        let names = group_names(p);
        lemma_total_push(p, x, names);
        if !names.contains(x.group@) {
            let names2 = names.push(x.group@);
            assert(names2.drop_last() =~= names);
            lemma_members_nonempty(p, x.group@);
            assert(members(p, x.group@).len() == 0);
            assert(members(m, x.group@) == members(p, x.group@).push(x));
        }
    }
}

/// The grouping of no matches has no sections rather than one empty one.
pub proof fn lemma_no_matches_no_sections()
    ensures
        groups_of(Seq::<&SettingDef>::empty()).len() == 0,
{
}

// ---------------------------------------------------------------------------------------------
// The rows as shown: keys in grouped order, and the scroll body's child indices.
// ---------------------------------------------------------------------------------------------

/// The first `MAX_RESULTS` matches, which are all that the palette lists.
pub open spec fn shown(m: Seq<&SettingDef>) -> Seq<&SettingDef> {
    if m.len() <= MAX_RESULTS {
        m
    } else {
        m.subrange(0, MAX_RESULTS as int)
    }
}

/// The palette shows the best matches: the shown matches are the first of the ranked matches, in
/// their order, and there are as many as the list allows.
pub proof fn lemma_shown_are_the_best(m: Seq<&SettingDef>)
    ensures
        shown(m).is_prefix_of(m),
        shown(m).len() == if m.len() <= MAX_RESULTS {
            m.len()
        } else {
            MAX_RESULTS as nat
        },
        forall|i: int| 0 <= i < shown(m).len() ==> #[trigger] shown(m)[i] == m[i],
{
}

/// The keys of the groups' settings, group after group.
pub open spec fn flat_keys(gs: Seq<(Seq<char>, Seq<&SettingDef>)>) -> Seq<Seq<char>>
    decreases gs.len(),
{
    if gs.len() == 0 {
        Seq::empty()
    } else {
        flat_keys(gs.drop_last()) + gs.last().1.map_values(|d: &SettingDef| d.key@)
    }
}

fn shown_prefix<'a>(matches: &[&'a SettingDef]) -> (r: Vec<&'a SettingDef>)
    ensures
        r@ == shown(matches@),
{
    let n = if matches.len() <= MAX_RESULTS {
        matches.len()
    } else {
        MAX_RESULTS
    };
    let mut r: Vec<&'a SettingDef> = Vec::new();
    let mut i: usize = 0;
    while i < n
        invariant
            i <= n,
            n <= matches@.len(),
            n == shown(matches@).len(),
            r@ == matches@.subrange(0, i as int),
        decreases n - i,
    {
        r.push(matches[i]);
        i = i + 1;
    }
    assert(r@ =~= shown(matches@));
    r
}

/// Visible result order after the group projection, rather than catalogue rank order. Keyboard
/// movement must follow what the eye sees when two groups interleave in the ranked input.
pub fn visible_result_keys(matches: &[&SettingDef]) -> (r: Vec<String>)
    ensures
        r@.map_values(|k: String| k@) == flat_keys(groups_of(shown(matches@))),
{
    let capped = shown_prefix(matches);
    let groups = group_by_section(capped.as_slice());
    let ghost gs = groups_of(capped@);
    let mut r: Vec<String> = Vec::new();
    let mut g: usize = 0;
    while g < groups.len()
        invariant
            g <= groups@.len(),
            groups_view(groups@) == gs,
            gs.len() == groups@.len(),
            r@.map_values(|k: String| k@) == flat_keys(gs.subrange(0, g as int)),
        decreases groups@.len() - g,
    {
        let ghost before = r@.map_values(|k: String| k@);
        let items = &groups[g].1;
        assert(groups_view(groups@)[g as int] == gs[g as int]);
        let mut k: usize = 0;
        while k < items.len()
            invariant
                k <= items@.len(),
                r@.map_values(|t: String| t@) == before + items@.subrange(0, k as int).map_values(
                    |d: &SettingDef| d.key@,
                ),
            decreases items@.len() - k,
        {
            let key = items[k].key.clone();
            let ghost prev = r@;
            r.push(key);
            assert(r@.map_values(|t: String| t@) =~= prev.map_values(|t: String| t@).push(
                items@[k as int].key@,
            ));
            assert(items@.subrange(0, k + 1).map_values(|d: &SettingDef| d.key@) =~= items@.subrange(
                0,
                k as int,
            ).map_values(|d: &SettingDef| d.key@).push(items@[k as int].key@));
            k = k + 1;
        }
        assert(items@.subrange(0, items@.len() as int) =~= items@);
        assert(gs.subrange(0, g + 1).drop_last() =~= gs.subrange(0, g as int));
        assert(gs.subrange(0, g + 1).last() == gs[g as int]);
        g = g + 1;
    }
    assert(gs.subrange(0, gs.len() as int) =~= gs);
    r
}

/// The index of the first setting of `items` whose key is `key`.
pub open spec fn row_index(items: Seq<&SettingDef>, key: Seq<char>) -> Option<int>
    decreases items.len(),
{
    if items.len() == 0 {
        None
    } else if items[0].key@ == key {
        Some(0)
    } else {
        match row_index(items.drop_first(), key) {
            Some(i) => Some(i + 1),
            None => None,
        }
    }
}

/// The direct-child index of the row for `key` in a scroll body that starts at `start` and
/// lists each group as a header followed by its rows.
pub open spec fn child_index_in(
    gs: Seq<(Seq<char>, Seq<&SettingDef>)>,
    key: Seq<char>,
    start: int,
) -> Option<int>
    decreases gs.len(),
{
    if gs.len() == 0 {
        None
    } else {
        match row_index(gs[0].1, key) {
            Some(r) => Some(start + 1 + r),
            None => child_index_in(gs.drop_first(), key, start + 1 + gs[0].1.len()),
        }
    }
}

/// The number of settings held by the groups before index `g`.
pub open spec fn total_prefix(gs: Seq<(Seq<char>, Seq<&SettingDef>)>, g: int) -> nat
    decreases g,
{
    if g <= 0 {
        0
    } else {
        total_prefix(gs, g - 1) + gs[g - 1].1.len()
    }
}

proof fn lemma_total_prefix_monotone(gs: Seq<(Seq<char>, Seq<&SettingDef>)>, a: int, b: int)
    requires
        0 <= a <= b,
    ensures
        total_prefix(gs, a) <= total_prefix(gs, b),
    decreases b - a,
{
    if a < b {
        lemma_total_prefix_monotone(gs, a, b - 1);
    }
}

proof fn lemma_total_prefix_counts_groups(gs: Seq<(Seq<char>, Seq<&SettingDef>)>, g: int)
    requires
        0 <= g <= gs.len(),
        forall|i: int| 0 <= i < gs.len() ==> (#[trigger] gs[i]).1.len() > 0,
    ensures
        total_prefix(gs, g) >= g,
    decreases g,
{
    if g > 0 {
        lemma_total_prefix_counts_groups(gs, g - 1);
    }
}

proof fn lemma_total_prefix_members(m: Seq<&SettingDef>, k: int)
    requires
        0 <= k <= group_names(m).len(),
    ensures
        total_prefix(groups_of(m), k) == total_members(m, group_names(m).subrange(0, k)),
    decreases k,
{
    if k > 0 {
        lemma_total_prefix_members(m, k - 1);
        assert(group_names(m).subrange(0, k).drop_last() =~= group_names(m).subrange(0, k - 1));
    }
}

/// The grouped body of at most `MAX_RESULTS` matches has at most that many groups and rows.
proof fn lemma_shown_groups_bounded(m: Seq<&SettingDef>)
    requires
        m.len() <= MAX_RESULTS,
    ensures
        groups_of(m).len() <= MAX_RESULTS,
        total_prefix(groups_of(m), groups_of(m).len() as int) <= MAX_RESULTS,
        forall|i: int| 0 <= i < groups_of(m).len() ==> (#[trigger] groups_of(m)[i]).1.len() > 0,
{
    let gs = groups_of(m);
    lemma_grouping_keeps_every_match(m);
    lemma_total_prefix_members(m, gs.len() as int);
    assert(group_names(m).subrange(0, gs.len() as int) =~= group_names(m));
    assert forall|i: int| 0 <= i < gs.len() implies (#[trigger] gs[i]).1.len() > 0 by {
        assert(gs[i].1 == members(m, group_names(m)[i]));
    }
    lemma_total_prefix_counts_groups(gs, gs.len() as int);
}

/// Direct-child index in the scroll body. Each group header consumes one slot before its rows.
pub fn result_child_index(matches: &[&SettingDef], selected: &String) -> (r: Option<usize>)
    ensures
        r matches Some(i) ==> child_index_in(groups_of(shown(matches@)), selected@, 0) == Some(
            i as int,
        ),
        r is None ==> child_index_in(groups_of(shown(matches@)), selected@, 0) is None,
{
    let capped = shown_prefix(matches);
    let groups = group_by_section(capped.as_slice());
    let ghost gs = groups_of(capped@);
    let ghost key = selected@;
    proof {
        lemma_shown_groups_bounded(capped@);
        assert(gs.subrange(0, gs.len() as int) =~= gs);
    }
    let mut child_index: usize = 0;
    let mut g: usize = 0;
    while g < groups.len()
        invariant
            g <= groups@.len(),
            groups_view(groups@) == gs,
            gs.len() == groups@.len(),
            gs.len() <= MAX_RESULTS,
            total_prefix(gs, gs.len() as int) <= MAX_RESULTS,
            key == selected@,
            gs == groups_of(shown(matches@)),
            child_index == g + total_prefix(gs, g as int),
            child_index_in(gs, key, 0) == child_index_in(
                gs.subrange(g as int, gs.len() as int),
                key,
                child_index as int,
            ),
        decreases groups@.len() - g,
    {
        assert(groups_view(groups@)[g as int] == gs[g as int]);
        let items = &groups[g].1;
        let ghost rest = gs.subrange(g as int, gs.len() as int);
        let ghost base = g + total_prefix(gs, g as int);
        assert(rest[0] == gs[g as int]);
        assert(rest.drop_first() =~= gs.subrange(g + 1, gs.len() as int));
        assert(items@.subrange(0, items@.len() as int) =~= items@);
        proof {
            lemma_total_prefix_monotone(gs, g + 1, gs.len() as int);
        }
        child_index = child_index + 1;
        let mut k: usize = 0;
        while k < items.len()
            invariant
                k <= items@.len(),
                g < gs.len(),
                items@ == gs[g as int].1,
                gs.len() <= MAX_RESULTS,
                total_prefix(gs, g + 1) <= MAX_RESULTS,
                total_prefix(gs, g + 1) == total_prefix(gs, g as int) + items@.len(),
                base == g + total_prefix(gs, g as int),
                key == selected@,
                gs == groups_of(shown(matches@)),
                child_index == base + 1 + k,
                child_index_in(gs, key, 0) == (match row_index(
                    items@.subrange(k as int, items@.len() as int),
                    key,
                ) {
                    Some(x) => Some(child_index + x),
                    None => child_index_in(
                        gs.subrange(g + 1, gs.len() as int),
                        key,
                        base + 1 + items@.len(),
                    ),
                }),
            decreases items@.len() - k,
        {
            let ghost tail = items@.subrange(k as int, items@.len() as int);
            assert(tail[0] == items@[k as int]);
            assert(tail.drop_first() =~= items@.subrange(k + 1, items@.len() as int));
            if text_equal(&items[k].key, selected) {
                assert(row_index(tail, key) == Some(0int));
                assert(child_index_in(gs, key, 0) == Some(child_index as int));
                assert(gs == groups_of(shown(matches@)));
                return Some(child_index);
            }
            child_index = child_index + 1;
            k = k + 1;
        }
        assert(items@.subrange(k as int, items@.len() as int).len() == 0);
        g = g + 1;
    }
    assert(gs.subrange(g as int, gs.len() as int).len() == 0);
    None
}

/// The result list at `key`: `Some` exactly when `key` is one of the keys shown.
pub proof fn lemma_child_index_iff_shown(
    gs: Seq<(Seq<char>, Seq<&SettingDef>)>,
    key: Seq<char>,
    start: int,
)
    ensures
        (child_index_in(gs, key, start) is Some) == flat_keys(gs).contains(key),
    decreases gs.len(),
{
    if gs.len() > 0 {
        lemma_child_index_iff_shown(gs.drop_first(), key, start + 1 + gs[0].1.len());
        lemma_row_index_iff(gs[0].1, key);
        lemma_flat_keys_first(gs);
        let head = gs[0].1.map_values(|d: &SettingDef| d.key@);
        let tail = flat_keys(gs.drop_first());
        if head.contains(key) {
            let k = choose|k: int| 0 <= k < head.len() && head[k] == key;
            assert((head + tail)[k] == key);
        }
        if tail.contains(key) {
            let k = choose|k: int| 0 <= k < tail.len() && tail[k] == key;
            assert((head + tail)[head.len() + k] == key);
        }
        if (head + tail).contains(key) {
            let k = choose|k: int| 0 <= k < head.len() + tail.len() && (head + tail)[k] == key;
            if k < head.len() {
                assert(head[k] == key);
            } else {
                assert(tail[k - head.len()] == key);
            }
        }
    }
}

proof fn lemma_row_index_iff(items: Seq<&SettingDef>, key: Seq<char>)
    ensures
        (row_index(items, key) is Some) == items.map_values(|d: &SettingDef| d.key@).contains(key),
    decreases items.len(),
{
    let ks = items.map_values(|d: &SettingDef| d.key@);
    if items.len() > 0 {
        lemma_row_index_iff(items.drop_first(), key);
        let rest = items.drop_first().map_values(|d: &SettingDef| d.key@);
        assert(rest =~= ks.drop_first());
        if ks.contains(key) && items[0].key@ != key {
            let k = choose|k: int| 0 <= k < ks.len() && ks[k] == key;
            assert(k > 0);
            assert(rest[k - 1] == key);
        }
        if rest.contains(key) {
            let k = choose|k: int| 0 <= k < rest.len() && rest[k] == key;
            assert(ks[k + 1] == key);
        }
        if items[0].key@ == key {
            assert(ks[0] == key);
        }
    }
}

proof fn lemma_flat_keys_first(gs: Seq<(Seq<char>, Seq<&SettingDef>)>)
    requires
        gs.len() > 0,
    ensures
        flat_keys(gs) == gs[0].1.map_values(|d: &SettingDef| d.key@) + flat_keys(gs.drop_first()),
    decreases gs.len(),
{
    if gs.len() == 1 {
        assert(gs.drop_last() =~= Seq::<(Seq<char>, Seq<&SettingDef>)>::empty());
        assert(gs.drop_first() =~= Seq::<(Seq<char>, Seq<&SettingDef>)>::empty());
        assert(gs.last() == gs[0]);
        assert(flat_keys(gs.drop_last()) == Seq::<Seq<char>>::empty());
        assert(flat_keys(gs.drop_first()) == Seq::<Seq<char>>::empty());
        assert(flat_keys(gs) =~= gs[0].1.map_values(|d: &SettingDef| d.key@) + flat_keys(
            gs.drop_first(),
        ));
    } else {
        lemma_flat_keys_first(gs.drop_last());
        assert(gs.drop_last().drop_first() =~= gs.drop_first().drop_last());
        assert(gs.drop_first().last() == gs.last());
        assert(flat_keys(gs) =~= gs[0].1.map_values(|d: &SettingDef| d.key@) + flat_keys(
            gs.drop_first(),
        ));
    }
}

/// The scroll index of a key and the visible keys agree: the index is found exactly when the
/// key is among the visible keys.
pub proof fn lemma_scroll_index_agrees_with_visible_keys(m: Seq<&SettingDef>, key: Seq<char>)
    ensures
        (child_index_in(groups_of(shown(m)), key, 0) is Some) == flat_keys(
            groups_of(shown(m)),
        ).contains(key),
{
    lemma_child_index_iff_shown(groups_of(shown(m)), key, 0);
}

// ---------------------------------------------------------------------------------------------
// Keyboard movement.
// ---------------------------------------------------------------------------------------------

/// The index of the first key equal to `k`.
pub open spec fn first_index(keys: Seq<Seq<char>>, k: Seq<char>) -> Option<int>
    decreases keys.len(),
{
    if keys.len() == 0 {
        None
    } else if keys[0] == k {
        Some(0)
    } else {
        match first_index(keys.drop_first(), k) {
            Some(i) => Some(i + 1),
            None => None,
        }
    }
}

proof fn lemma_first_index(keys: Seq<Seq<char>>, k: Seq<char>)
    ensures
        match first_index(keys, k) {
            Some(i) => 0 <= i < keys.len() && keys[i] == k && forall|j: int|
                0 <= j < i ==> keys[j] != k,
            None => forall|j: int| 0 <= j < keys.len() ==> keys[j] != k,
        },
    decreases keys.len(),
{
    if keys.len() > 0 && keys[0] != k {
        let rest = keys.drop_first();
        lemma_first_index(rest, k);
        assert forall|j: int| 0 <= j < keys.len() - 1 implies rest[j] == keys[j + 1] by {}
        match first_index(rest, k) {
            Some(i) => {
                assert forall|j: int| 0 <= j < i + 1 implies keys[j] != k by {
                    if j > 0 {
                        assert(keys[j] == rest[j - 1]);
                    }
                }
            },
            None => {
                assert forall|j: int| 0 <= j < keys.len() implies keys[j] != k by {
                    if j > 0 {
                        assert(keys[j] == rest[j - 1]);
                    }
                }
            },
        }
    }
}

/// The step a movement in `direction` takes: back for a negative direction, forward otherwise.
pub open spec fn step_of(direction: isize) -> int {
    if direction < 0 {
        -1
    } else {
        1
    }
}

/// Where the walk starts: the current selection's position, or just before the first key
/// (forward) or at the first key (backward) when there is none.
pub open spec fn walk_start(keys: Seq<Seq<char>>, current: Option<Seq<char>>, direction: isize) -> int {
    let fallback = if direction < 0 {
        0int
    } else {
        -1int
    };
    match current {
        Some(c) => match first_index(keys, c) {
            Some(i) => i,
            None => fallback,
        },
        None => fallback,
    }
}

/// The key index visited at `offset` steps from the start, wrapping around.
pub open spec fn walk_index(n: int, start: int, direction: isize, offset: int) -> int {
    (start + step_of(direction) * offset) % n
}

/// The views of a list of keys.
pub open spec fn key_views(keys: Seq<String>) -> Seq<Seq<char>> {
    keys.map_values(|k: String| k@)
}

/// The view of an optional selected key.
pub open spec fn current_view(current: Option<&String>) -> Option<Seq<char>> {
    match current {
        Some(c) => Some(c@),
        None => None,
    }
}

/// The key visited `o` steps into a walk over `keys` from `start`.
pub open spec fn walk_key(keys: Seq<String>, start: int, direction: isize, o: int) -> String {
    keys[walk_index(keys.len() as int, start, direction, o)]
}

/// The next key in `direction` that is not unavailable, wrapping around the list and trying
/// every key at most once; `None` when the list is empty or every key is unavailable.
pub fn next_selectable_key<F: Fn(&String) -> bool>(
    keys: &Vec<String>,
    current: Option<&String>,
    direction: isize,
    is_unavailable: F,
) -> (r: Option<String>)
    requires
        forall|k: &String| #[trigger] is_unavailable.requires((k,)),
    ensures
        keys@.len() == 0 ==> r is None,
        ({
            let start = walk_start(key_views(keys@), current_view(current), direction);
            r matches Some(k) ==> exists|o: int|
                1 <= o <= keys@.len() && #[trigger] is_unavailable.ensures(
                    (&walk_key(keys@, start, direction, o),),
                    false,
                ) && k@ == walk_key(keys@, start, direction, o)@ && forall|o2: int|
                    1 <= o2 < o ==> #[trigger] is_unavailable.ensures(
                        (&walk_key(keys@, start, direction, o2),),
                        true,
                    )
        }),
        ({
            let start = walk_start(key_views(keys@), current_view(current), direction);
            (r is None && keys@.len() > 0) ==> forall|o: int|
                1 <= o <= keys@.len() ==> #[trigger] is_unavailable.ensures(
                    (&walk_key(keys@, start, direction, o),),
                    true,
                )
        }),
{
    let n = keys.len();
    if n == 0 {
        return None;
    }
    let ghost kv = key_views(keys@);
    let ghost cur = current_view(current);
    // Find where the current selection sits.
    let mut pos: Option<usize> = None;
    match current {
        Some(c) => {
            let mut i: usize = 0;
            while i < n && pos.is_none()
                invariant
                    n == keys@.len(),
                    kv == key_views(keys@),
                    i <= n,
                    forall|j: int| 0 <= j < i ==> kv[j] != c@,
                    pos matches Some(p) ==> p == i && i < n && kv[i as int] == c@,
                decreases n - i + (if pos is None { 1int } else { 0int }),
            {
                if text_equal(&keys[i], c) {
                    pos = Some(i);
                } else {
                    i = i + 1;
                }
            }
            proof {
                lemma_first_index(kv, c@);
                match pos {
                    Some(p) => {
                        match first_index(kv, c@) {
                            Some(f) => {
                                if f < p {
                                    assert(kv[f] == c@);
                                    assert(false);
                                }
                                if f > p {
                                    assert(kv[p as int] == c@);
                                    assert(false);
                                }
                            },
                            None => {
                                assert(kv[p as int] == c@);
                                assert(false);
                            },
                        }
                    },
                    None => {
                        assert(i == n);
                        match first_index(kv, c@) {
                            Some(f) => {
                                assert(kv[f] == c@);
                                assert(false);
                            },
                            None => {},
                        }
                    },
                }
            }
        },
        None => {},
    }
    let backward = direction < 0;
    let ghost start = walk_start(kv, cur, direction);
    let mut t: usize = 0;
    while t < n
        invariant
            n == keys@.len(),
            n > 0,
            kv == key_views(keys@),
            t <= n,
            forall|k: &String| #[trigger] is_unavailable.requires((k,)),
            backward == (direction < 0),
            start == walk_start(kv, cur, direction),
            cur == current_view(current),
            match pos {
                Some(p) => start == p as int && p < n,
                None => start == (if backward { 0int } else { -1int }),
            },
            forall|o2: int|
                1 <= o2 <= t ==> #[trigger] is_unavailable.ensures(
                    (&walk_key(keys@, start, direction, o2),),
                    true,
                ),
        decreases n - t,
    {
        let offset: usize = t + 1;
        // index = (start + step * offset) mod n, computed without leaving 0..n.
        let index: usize = if !backward {
            match pos {
                Some(p) => {
                    if offset <= n - 1 - p {
                        p + offset
                    } else {
                        offset - (n - p)
                    }
                },
                None => offset - 1,
            }
        } else {
            let p: usize = match pos {
                Some(p) => p,
                None => 0,
            };
            if offset <= p {
                p - offset
            } else {
                n - (offset - p)
            }
        };
        proof {
            if !backward {
                match pos {
                    Some(p) => {
                        if offset <= n - 1 - p {
                            vstd::arithmetic::div_mod::lemma_small_mod(
                                (p + offset) as nat,
                                n as nat,
                            );
                        } else {
                            let b: int = (p + offset) - n;
                            vstd::arithmetic::div_mod::lemma_small_mod(b as nat, n as nat);
                            vstd::arithmetic::div_mod::lemma_mod_add_multiples_vanish(
                                b,
                                n as int,
                            );
                            assert(n + b == p + offset);
                        }
                    },
                    None => {
                        vstd::arithmetic::div_mod::lemma_small_mod(
                            (offset - 1) as nat,
                            n as nat,
                        );
                        assert(-1 + offset == offset - 1);
                    },
                }
            } else {
                let p: int = match pos {
                    Some(p) => p as int,
                    None => 0int,
                };
                assert(start == p);
                let o: int = offset as int;
                assert(step_of(direction) == -1int);
                let st = step_of(direction);
                assert(start + st * o == p - o) by (nonlinear_arith)
                    requires
                        st == -1int,
                        start == p,
                ;
                if offset <= p {
                    vstd::arithmetic::div_mod::lemma_small_mod((p - o) as nat, n as nat);
                } else {
                    let b: int = n - (o - p);
                    vstd::arithmetic::div_mod::lemma_small_mod(b as nat, n as nat);
                    vstd::arithmetic::div_mod::lemma_mod_sub_multiples_vanish(b, n as int);
                    assert(-(n as int) + b == p - o);
                }
            }
            assert(walk_index(n as int, start, direction, offset as int) == index);
            assert(walk_key(keys@, start, direction, offset as int) == keys@[index as int]);
        }
        let unavailable = is_unavailable(&keys[index]);
        if !unavailable {
            let k = keys[index].clone();
            proof {
                let o = offset as int;
                assert(is_unavailable.ensures((&walk_key(keys@, start, direction, o),), false));
            }
            return Some(k);
        }
        t = t + 1;
    }
    None
}

// ---------------------------------------------------------------------------------------------
// Row decoration.
// ---------------------------------------------------------------------------------------------

/// The compact glyph a shape family shows at the start of a palette row.
pub open spec fn spec_shape_glyph(shape: Shape) -> Seq<char> {
    match shape {
        Shape::Boolean => seq!['\u{25a1}'],
        Shape::Integer => seq!['1', '2'],
        Shape::FilePath | Shape::ConfigRef => seq!['/'],
        Shape::String | Shape::Delimiter | Shape::Url | Shape::TemplateString => seq!['a', 'b'],
        Shape::Enum | Shape::NullableEnum => seq!['\u{25c7}'],
        Shape::ListOfStrings | Shape::ListOfNumbers | Shape::ListOfOneKeyMaps => seq!['[', ']'],
        Shape::Mapping | Shape::MapOfLists => seq!['{', '}'],
        Shape::CommandList => seq!['>'],
    }
}

/// The compact glyph a shape family shows at the start of a palette row.
pub fn shape_glyph(shape: Shape) -> (r: &'static str)
    ensures
        r@ == spec_shape_glyph(shape),
{
    match shape {
        Shape::Boolean => {
            proof {
                reveal_strlit("\u{25a1}");
            }
            "\u{25a1}"
        },
        Shape::Integer => {
            proof {
                reveal_strlit("12");
            }
            "12"
        },
        Shape::FilePath | Shape::ConfigRef => {
            proof {
                reveal_strlit("/");
            }
            "/"
        },
        Shape::String | Shape::Delimiter | Shape::Url | Shape::TemplateString => {
            proof {
                reveal_strlit("ab");
            }
            "ab"
        },
        Shape::Enum | Shape::NullableEnum => {
            proof {
                reveal_strlit("\u{25c7}");
            }
            "\u{25c7}"
        },
        Shape::ListOfStrings | Shape::ListOfNumbers | Shape::ListOfOneKeyMaps => {
            proof {
                reveal_strlit("[]");
            }
            "[]"
        },
        Shape::Mapping | Shape::MapOfLists => {
            proof {
                reveal_strlit("{}");
            }
            "{}"
        },
        Shape::CommandList => {
            proof {
                reveal_strlit(">");
            }
            ">"
        },
    }
}

/// Every setting of the addable catalogue, for the trigger's "7 of 142" counter.
pub fn catalogue_size(addable: &Vec<&SettingDef>) -> (r: usize)
    ensures
        r == addable@.len(),
{
    addable.len()
}

} // verus!
