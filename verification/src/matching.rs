//! Region resolution: among the catalog records sharing a title
//! identifier, pick one winner per identifier by an ordered region
//! preference, first preference wins.

use vstd::prelude::*;
use crate::common::{FileType, Region};
use crate::n3ds::{
    N3DSGameMetadata,
    MetaView,
    metas_view,
    HeaderInfoView,
    DecodeError,
    decode_spec,
    read_header_info_3ds,
};
use crate::catalog::{CatalogIndex, matching_records};

verus! {

/// The identifiers a sequence of strings holds, as a set of views.
spec fn ids_set(ids: Seq<String>) -> Set<Seq<char>> {
    Set::new(|x: Seq<char>| exists|k: int| 0 <= k < ids.len() && ids[k]@ == x)
}

/// True when the candidate at `j` can win for `region`: it carries that
/// region and its identifier has not produced a winner yet.
pub open spec fn is_winner_at(
    cands: Seq<MetaView>,
    region: Region,
    satisfied: Set<Seq<char>>,
    j: int,
) -> bool {
    cands[j].region == region && !satisfied.contains(cands[j].title_id)
}

/// Index of the first candidate at or after `from` that can win for
/// `region`, if any.
pub open spec fn first_match_from(
    cands: Seq<MetaView>,
    region: Region,
    satisfied: Set<Seq<char>>,
    from: int,
) -> Option<int>
    decreases cands.len() - from,
{
    if from < 0 || from >= cands.len() {
        None
    } else if is_winner_at(cands, region, satisfied, from) {
        Some(from)
    } else {
        first_match_from(cands, region, satisfied, from + 1)
    }
}

/// Index of the first candidate that can win for `region`, if any.
pub open spec fn first_match(cands: Seq<MetaView>, region: Region, satisfied: Set<Seq<char>>) -> Option<
    int,
> {
    first_match_from(cands, region, satisfied, 0)
}

/// The winners that the priority entries from `i` on emit: each entry
/// takes the first candidate that can still win for it, and marks that
/// candidate's identifier satisfied.
pub open spec fn resolve_from(
    cands: Seq<MetaView>,
    priority: Seq<Region>,
    i: int,
    satisfied: Set<Seq<char>>,
) -> Seq<MetaView>
    decreases priority.len() - i,
{
    if i < 0 || i >= priority.len() {
        Seq::empty()
    } else {
        match first_match(cands, priority[i], satisfied) {
            Some(j) => seq![cands[j]] + resolve_from(
                cands,
                priority,
                i + 1,
                satisfied.insert(cands[j].title_id),
            ),
            None => resolve_from(cands, priority, i + 1, satisfied),
        }
    }
}

/// What resolution yields: a sole candidate is accepted whatever its
/// region; otherwise the priority entries emit winners in priority order,
/// at most one per identifier.
pub open spec fn resolve_spec(cands: Seq<MetaView>, priority: Seq<Region>) -> Seq<MetaView> {
    if cands.len() == 1 {
        cands
    } else {
        resolve_from(cands, priority, 0, Set::empty())
    }
}

/// Skipping positions that cannot win does not change the first match.
proof fn lemma_first_match_skip(
    cands: Seq<MetaView>,
    region: Region,
    satisfied: Set<Seq<char>>,
    from: int,
    to: int,
)
    requires
        0 <= from <= to <= cands.len(),
        forall|k: int| from <= k < to ==> !is_winner_at(cands, region, satisfied, k),
    ensures
        first_match_from(cands, region, satisfied, from) == first_match_from(
            cands,
            region,
            satisfied,
            to,
        ),
    decreases to - from,
{
    if from < to {
        lemma_first_match_skip(cands, region, satisfied, from + 1, to);
    }
}

/// Pushing a string onto the identifier list inserts its view into the
/// identifier set.
proof fn lemma_ids_set_push(ids: Seq<String>, s: String)
    ensures
        ids_set(ids.push(s)) == ids_set(ids).insert(s@),
{
    assert forall|x: Seq<char>| ids_set(ids.push(s)).contains(x) implies ids_set(ids).insert(
        s@,
    ).contains(x) by {
        let k = choose|k: int| 0 <= k < ids.push(s).len() && ids.push(s)[k]@ == x;
        if k < ids.len() {
            assert(ids[k]@ == x);
        }
    }
    assert forall|x: Seq<char>| ids_set(ids).insert(s@).contains(x) implies ids_set(
        ids.push(s),
    ).contains(x) by {
        if ids_set(ids).contains(x) {
            let k = choose|k: int| 0 <= k < ids.len() && ids[k]@ == x;
            assert(ids.push(s)[k]@ == x);
        } else {
            assert(ids.push(s)[ids.len() as int]@ == x);
        }
    }
    assert(ids_set(ids.push(s)) =~= ids_set(ids).insert(s@));
}

/// Finds the first candidate that can still win for `region`, against the
/// identifiers already satisfied.
fn find_first_match(
    candidates: &Vec<N3DSGameMetadata>,
    region: Region,
    satisfied_ids: &Vec<String>,
) -> (r: Option<usize>)
    ensures
        match r {
            Some(j) => j < candidates@.len() && first_match(
                metas_view(candidates@),
                region,
                ids_set(satisfied_ids@),
            ) == Some(j as int),
            None => first_match(metas_view(candidates@), region, ids_set(satisfied_ids@)) is None,
        },
{
    let ghost cands = metas_view(candidates@);
    let ghost sat = ids_set(satisfied_ids@);
    let nc = candidates.len();
    let mut j: usize = 0;
    while j < nc
        invariant
            j <= nc,
            nc == candidates@.len(),
            cands == metas_view(candidates@),
            sat == ids_set(satisfied_ids@),
            forall|k: int| 0 <= k < j ==> !is_winner_at(cands, region, sat, k),
        decreases nc - j,
    {
        let c = &candidates[j];
        if c.region == region && !contains_string(satisfied_ids, &c.title_id) {
            proof {
                assert(is_winner_at(cands, region, sat, j as int));
                lemma_first_match_skip(cands, region, sat, 0, j as int);
            }
            return Some(j);
        }
        proof {
            assert(!is_winner_at(cands, region, sat, j as int));
        }
        j = j + 1;
    }
    proof {
        lemma_first_match_skip(cands, region, sat, 0, nc as int);
    }
    None
}

/// True when one of the strings reads as the given one.
fn contains_string(ids: &Vec<String>, s: &String) -> (b: bool)
    ensures
        b == ids_set(ids@).contains(s@),
{
    let n = ids.len();
    let mut k: usize = 0;
    while k < n
        invariant
            k <= n,
            n == ids@.len(),
            forall|t: int| 0 <= t < k ==> ids@[t]@ != s@,
        decreases n - k,
    {
        if ids[k] == *s {
            proof {
                assert(ids@[k as int]@ == s@);
            }
            return true;
        }
        k = k + 1;
    }
    false
}

/// Selects the winning records among candidates by the region preference
/// order: a sole candidate wins unconditionally; otherwise each priority
/// entry, in order, emits the first candidate carrying its region whose
/// identifier has not won yet. A candidate whose region is absent from
/// the priority list emits nothing.
pub fn resolve(candidates: &Vec<N3DSGameMetadata>, priority: &Vec<Region>) -> (r: Vec<
    N3DSGameMetadata,
>)
    ensures
        metas_view(r@) == resolve_spec(metas_view(candidates@), priority@),
{
    let ghost cands = metas_view(candidates@);
    if candidates.len() == 1 {
        let mut out: Vec<N3DSGameMetadata> = Vec::new();
        out.push(candidates[0].clone());
        proof {
            assert(metas_view(out@) =~= cands);
        }
        return out;
    }
    let mut winners: Vec<N3DSGameMetadata> = Vec::new();
    let mut satisfied_ids: Vec<String> = Vec::new();
    let np = priority.len();
    let mut i: usize = 0;
    proof {
        assert(metas_view(winners@) =~= Seq::<MetaView>::empty());
        assert(ids_set(satisfied_ids@) =~= Set::<Seq<char>>::empty());
        assert(resolve_from(cands, priority@, 0, Set::empty()) == metas_view(winners@)
            + resolve_from(cands, priority@, 0, ids_set(satisfied_ids@)));
    }
    while i < np
        invariant
            i <= np,
            np == priority@.len(),
            cands == metas_view(candidates@),
            resolve_from(cands, priority@, 0, Set::empty()) == metas_view(winners@) + resolve_from(
                cands,
                priority@,
                i as int,
                ids_set(satisfied_ids@),
            ),
        decreases np - i,
    {
        let ghost sat = ids_set(satisfied_ids@);
        let ghost old_winners = winners@;
        let ghost old_ids = satisfied_ids@;
        let p = priority[i];
        match find_first_match(candidates, p, &satisfied_ids) {
            Some(j) => {
                let c = &candidates[j];
                winners.push(c.clone());
                let pushed = c.title_id.clone();
                satisfied_ids.push(pushed);
                proof {
                    let jj = j as int;
                    let sat2 = sat.insert(cands[jj].title_id);
                    assert(satisfied_ids@ == old_ids.push(satisfied_ids@.last()));
                    assert(satisfied_ids@.last()@ == cands[jj].title_id);
                    lemma_ids_set_push(old_ids, satisfied_ids@.last());
                    assert(ids_set(satisfied_ids@) == sat2);
                    assert(resolve_from(cands, priority@, i as int, sat) == seq![cands[jj]]
                        + resolve_from(cands, priority@, i + 1 as int, sat2));
                    assert(metas_view(winners@) =~= metas_view(old_winners).push(cands[jj]));
                    assert(metas_view(old_winners) + (seq![cands[jj]] + resolve_from(
                        cands,
                        priority@,
                        i + 1 as int,
                        sat2,
                    )) =~= metas_view(old_winners).push(cands[jj]) + resolve_from(
                        cands,
                        priority@,
                        i + 1 as int,
                        sat2,
                    ));
                }
            },
            None => {
                proof {
                    assert(resolve_from(cands, priority@, i as int, sat) == resolve_from(
                        cands,
                        priority@,
                        i + 1 as int,
                        sat,
                    ));
                }
            },
        }
        i = i + 1;
    }
    proof {
        assert(resolve_from(cands, priority@, np as int, ids_set(satisfied_ids@))
            == Seq::<MetaView>::empty());
        assert(metas_view(winners@) + Seq::<MetaView>::empty() =~= metas_view(winners@));
    }
    winners
}

/// Decodes one file's header and picks its winning catalog records: the
/// candidates are the records carrying the decoded identifier, resolved by
/// the region preference order. A decode fault is handed back for the
/// caller to report; an empty winner list is not a fault.
pub fn match_file(buffer: &[u8], catalog: &CatalogIndex, priority: &Vec<Region>) -> (r: Result<
    (FileType, Vec<N3DSGameMetadata>),
    DecodeError,
>)
    ensures
        match r {
            Ok(p) => decode_spec(buffer@) matches Ok(h) && p.0 == h.file_type && metas_view(p.1@)
                == resolve_spec(matching_records(catalog@, h.title_id), priority@),
            Err(e) => decode_spec(buffer@) == Err::<HeaderInfoView, DecodeError>(e),
        },
{
    match read_header_info_3ds(buffer) {
        Ok(header) => {
            let candidates = catalog.lookup(&header.title_id);
            let winners = resolve(&candidates, priority);
            Ok((header.file_type, winners))
        },
        Err(e) => Err(e),
    }
}

/// A sole candidate is returned unconditionally, whatever its region.
pub proof fn lemma_resolve_single(cands: Seq<MetaView>, priority: Seq<Region>)
    requires
        cands.len() == 1,
    ensures
        resolve_spec(cands, priority) == cands,
{
}

/// Priority entries that no candidate's region matches emit no winner.
proof fn lemma_resolve_from_absent(
    cands: Seq<MetaView>,
    priority: Seq<Region>,
    i: int,
    to: int,
    satisfied: Set<Seq<char>>,
)
    requires
        0 <= i <= to <= priority.len(),
        forall|i2: int, t: int|
            #![trigger priority[i2], cands[t]]
            i <= i2 < to && 0 <= t < cands.len() ==> priority[i2] != cands[t].region,
    ensures
        resolve_from(cands, priority, i, satisfied) == resolve_from(cands, priority, to, satisfied),
    decreases to - i,
{
    if i < to {
        assert forall|k: int| 0 <= k < cands.len() implies !is_winner_at(
            cands,
            priority[i],
            satisfied,
            k,
        ) by {
            assert(priority[i] != cands[k].region);
        }
        lemma_first_match_skip(cands, priority[i], satisfied, 0, cands.len() as int);
        lemma_resolve_from_absent(cands, priority, i + 1, to, satisfied);
    }
}

/// Once every candidate's identifier is satisfied, nothing more is
/// emitted.
proof fn lemma_resolve_from_all_satisfied(
    cands: Seq<MetaView>,
    priority: Seq<Region>,
    i: int,
    satisfied: Set<Seq<char>>,
)
    requires
        forall|t: int| 0 <= t < cands.len() ==> satisfied.contains((#[trigger] cands[t]).title_id),
    ensures
        resolve_from(cands, priority, i, satisfied) == Seq::<MetaView>::empty(),
    decreases priority.len() - i,
{
    if 0 <= i < priority.len() {
        assert forall|k: int| 0 <= k < cands.len() implies !is_winner_at(
            cands,
            priority[i],
            satisfied,
            k,
        ) by {
            assert(satisfied.contains(cands[k].title_id));
        }
        lemma_first_match_skip(cands, priority[i], satisfied, 0, cands.len() as int);
        lemma_resolve_from_all_satisfied(cands, priority, i + 1, satisfied);
    }
}

/// With several candidates, if no candidate's region appears anywhere in
/// the priority list, resolution returns nothing.
pub proof fn lemma_resolve_no_region_present(cands: Seq<MetaView>, priority: Seq<Region>)
    requires
        cands.len() != 1,
        forall|i2: int, t: int|
            #![trigger priority[i2], cands[t]]
            0 <= i2 < priority.len() && 0 <= t < cands.len() ==> priority[i2] != cands[t].region,
    ensures
        resolve_spec(cands, priority) == Seq::<MetaView>::empty(),
{
    lemma_resolve_from_absent(cands, priority, 0, priority.len() as int, Set::empty());
}

/// A found first match names a candidate that can win.
proof fn lemma_first_match_is_winner(
    cands: Seq<MetaView>,
    region: Region,
    satisfied: Set<Seq<char>>,
    from: int,
)
    requires
        first_match_from(cands, region, satisfied, from) is Some,
    ensures
        ({
            let j = first_match_from(cands, region, satisfied, from)->Some_0;
            from <= j < cands.len() && is_winner_at(cands, region, satisfied, j)
        }),
    decreases cands.len() - from,
{
    if 0 <= from < cands.len() && !is_winner_at(cands, region, satisfied, from) {
        lemma_first_match_is_winner(cands, region, satisfied, from + 1);
    }
}

/// Winners emitted from `i` on carry identifiers not yet satisfied, and no
/// two of them share an identifier.
proof fn lemma_resolve_from_distinct_ids(
    cands: Seq<MetaView>,
    priority: Seq<Region>,
    i: int,
    satisfied: Set<Seq<char>>,
)
    ensures
        forall|a: int|
            0 <= a < resolve_from(cands, priority, i, satisfied).len() ==> !satisfied.contains(
                (#[trigger] resolve_from(cands, priority, i, satisfied)[a]).title_id,
            ),
        forall|a: int, b: int|
            0 <= a < b < resolve_from(cands, priority, i, satisfied).len() ==> resolve_from(
                cands,
                priority,
                i,
                satisfied,
            )[a].title_id != resolve_from(cands, priority, i, satisfied)[b].title_id,
    decreases priority.len() - i,
{
    if 0 <= i < priority.len() {
        let out = resolve_from(cands, priority, i, satisfied);
        match first_match(cands, priority[i], satisfied) {
            Some(j) => {
                lemma_first_match_is_winner(cands, priority[i], satisfied, 0);
                let sat2 = satisfied.insert(cands[j].title_id);
                lemma_resolve_from_distinct_ids(cands, priority, i + 1, sat2);
                let rest = resolve_from(cands, priority, i + 1, sat2);
                assert(out == seq![cands[j]] + rest);
                assert(is_winner_at(cands, priority[i], satisfied, j));
                assert forall|a: int| 0 <= a < out.len() implies !satisfied.contains(
                    (#[trigger] out[a]).title_id,
                ) by {
                    if a > 0 {
                        assert(out[a] == rest[a - 1]);
                        assert(!sat2.contains(rest[a - 1].title_id));
                    }
                }
                assert forall|a: int, b: int| 0 <= a < b < out.len() implies out[a].title_id
                    != out[b].title_id by {
                    if a == 0 {
                        assert(out[b] == rest[b - 1]);
                        assert(!sat2.contains(rest[b - 1].title_id));
                        assert(sat2.contains(cands[j].title_id));
                    } else {
                        assert(out[a] == rest[a - 1] && out[b] == rest[b - 1]);
                    }
                }
            },
            None => {
                lemma_resolve_from_distinct_ids(cands, priority, i + 1, satisfied);
            },
        }
    }
}

/// Resolution never emits two winners for one identifier: among the
/// records returned, identifiers are pairwise distinct.
pub proof fn lemma_resolve_one_winner_per_id(cands: Seq<MetaView>, priority: Seq<Region>)
    ensures
        forall|a: int, b: int|
            0 <= a < b < resolve_spec(cands, priority).len() ==> resolve_spec(
                cands,
                priority,
            )[a].title_id != resolve_spec(cands, priority)[b].title_id,
{
    if cands.len() != 1 {
        lemma_resolve_from_distinct_ids(cands, priority, 0, Set::empty());
    }
}

/// With several candidates all carrying one identifier, resolution yields
/// exactly one winner: the first candidate whose region is the earliest
/// priority entry that any candidate carries. Here `k` names that entry
/// and `j` that candidate.
pub proof fn lemma_resolve_shared_id(
    cands: Seq<MetaView>,
    priority: Seq<Region>,
    id: Seq<char>,
    k: int,
    j: int,
)
    requires
        cands.len() >= 2,
        forall|t: int| 0 <= t < cands.len() ==> (#[trigger] cands[t]).title_id == id,
        0 <= k < priority.len(),
        0 <= j < cands.len(),
        cands[j].region == priority[k],
        forall|i2: int, t: int|
            #![trigger priority[i2], cands[t]]
            0 <= i2 < k && 0 <= t < cands.len() ==> priority[i2] != cands[t].region,
        forall|t: int| 0 <= t < j ==> (#[trigger] cands[t]).region != priority[k],
    ensures
        resolve_spec(cands, priority) == seq![cands[j]],
        resolve_spec(cands, priority).len() == 1,
{
    let empty_sat = Set::<Seq<char>>::empty();
    lemma_resolve_from_absent(cands, priority, 0, k, empty_sat);
    assert forall|t: int| 0 <= t < j implies !is_winner_at(cands, priority[k], empty_sat, t) by {
        assert(cands[t].region != priority[k]);
    }
    lemma_first_match_skip(cands, priority[k], empty_sat, 0, j);
    assert(is_winner_at(cands, priority[k], empty_sat, j));
    assert(first_match(cands, priority[k], empty_sat) == Some(j));
    let sat2 = empty_sat.insert(cands[j].title_id);
    assert(resolve_from(cands, priority, k, empty_sat) == seq![cands[j]] + resolve_from(
        cands,
        priority,
        k + 1,
        sat2,
    ));
    assert forall|t: int| 0 <= t < cands.len() implies sat2.contains(
        (#[trigger] cands[t]).title_id,
    ) by {
        assert(cands[t].title_id == id && cands[j].title_id == id);
    }
    lemma_resolve_from_all_satisfied(cands, priority, k + 1, sat2);
    assert(resolve_spec(cands, priority) =~= seq![cands[j]]);
}

} // verus!
