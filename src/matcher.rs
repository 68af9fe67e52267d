//! Deciding which signature, if any, an analyzed function corresponds to.
use vstd::prelude::*;
use vstd::string::StrSliceExecFns;

use dashmap::DashMap;

use crate::fingerprint::{function_fingerprint, function_guid, BasicBlock, ProgramLayout};
use crate::guid::{uuid_v5_of, FunctionGUID, NAMESPACE_PLATFORM};
use crate::index::{
    cache_clear, cache_contains, cache_insert, cache_new, cached_platforms, index_entries, index_get,
    index_insert, index_new,
};
use crate::signature::{ComputedType, FunctionConstraint, SignatureData, SignatureFunction};

verus! {

/// Functions whose address span is below this many bytes never take the
/// single-candidate fast path.
pub const TRIVIAL_FUNCTION_DELTA_THRESHOLD: u64 = 20;

/// The fingerprints the constraints carry, in order.
pub open spec fn guids_of(cs: Seq<FunctionConstraint>) -> Seq<FunctionGUID>
    decreases cs.len(),
{
    if cs.len() == 0 {
        Seq::empty()
    } else {
        match cs.last().guid {
            Some(g) => guids_of(cs.drop_last()).push(g),
            None => guids_of(cs.drop_last()),
        }
    }
}

/// The symbol names the constraints carry, in order.
pub open spec fn names_of(cs: Seq<FunctionConstraint>) -> Seq<Seq<char>>
    decreases cs.len(),
{
    if cs.len() == 0 {
        Seq::empty()
    } else {
        match cs.last().symbol {
            Some(s) => names_of(cs.drop_last()).push(s.name@),
            None => names_of(cs.drop_last()),
        }
    }
}

/// Number of distinct fingerprints that two lists of call sites share.
pub open spec fn common_guid_count(a: Seq<FunctionConstraint>, b: Seq<FunctionConstraint>) -> nat {
    guids_of(a).to_set().intersect(guids_of(b).to_set()).len()
}

/// Number of distinct symbol names that two lists of call sites share.
pub open spec fn common_name_count(a: Seq<FunctionConstraint>, b: Seq<FunctionConstraint>) -> nat {
    names_of(a).to_set().intersect(names_of(b).to_set()).len()
}

/// The highest score and the position holding it, scanning in order: a later
/// score equal to the best so far withdraws the leader, a higher one takes the
/// lead. The best starts at zero with no leader.
pub open spec fn vote(scores: Seq<nat>) -> (nat, Option<int>)
    decreases scores.len(),
{
    if scores.len() == 0 {
        (0, None)
    } else {
        let (best, leader) = vote(scores.drop_last());
        let s = scores.last();
        if s == best {
            (best, None)
        } else if s > best {
            (s, Some(scores.len() - 1))
        } else {
            (best, leader)
        }
    }
}

pub open spec fn guid_scores(cs: Seq<FunctionConstraint>, cands: Seq<SignatureFunction>) -> Seq<nat> {
    Seq::new(cands.len(), |i: int| common_guid_count(cs, cands[i].constraints.call_sites@))
}

pub open spec fn name_scores(cs: Seq<FunctionConstraint>, cands: Seq<SignatureFunction>) -> Seq<nat> {
    Seq::new(cands.len(), |i: int| common_name_count(cs, cands[i].constraints.call_sites@))
}

/// The candidate chosen by call-site constraints: none without call sites;
/// otherwise the leader of the signal with the higher best count, and on equal
/// counts the fingerprint leader only when both signals have a leader with the
/// same type and the same symbol.
pub open spec fn constraint_choice(cs: Seq<FunctionConstraint>, cands: Seq<SignatureFunction>) -> Option<int> {
    if cs.len() == 0 {
        None
    } else {
        let (gc, gw) = vote(guid_scores(cs, cands));
        let (nc, nw) = vote(name_scores(cs, cands));
        if gc < nc {
            nw
        } else if gc > nc {
            gw
        } else {
            match (gw, nw) {
                (Some(i), Some(j)) => if cands[i].ty@ == cands[j].ty@ && cands[i].symbol@
                    == cands[j].symbol@ {
                    Some(i)
                } else {
                    None
                },
                _ => None,
            }
        }
    }
}

proof fn lemma_push_to_set<A>(s: Seq<A>, x: A)
    ensures
        s.push(x).to_set() == s.to_set().insert(x),
{
    assert forall|y: A| #[trigger] s.push(x).to_set().contains(y) <==> s.to_set().insert(x).contains(y) by {
        if s.push(x).contains(y) {
            let k = choose|k: int| 0 <= k < s.len() + 1 && s.push(x)[k] == y;
            if k < s.len() {
                assert(s[k] == y);
            }
        }
        if s.contains(y) {
            let k = choose|k: int| 0 <= k < s.len() && s[k] == y;
            assert(s.push(x)[k] == y);
        }
        if y == x {
            assert(s.push(x)[s.len() as int] == y);
        }
    }
    assert(s.push(x).to_set() =~= s.to_set().insert(x));
}

proof fn lemma_guids_of_push(cs: Seq<FunctionConstraint>, j: int)
    requires
        0 <= j < cs.len(),
    ensures
        guids_of(cs.take(j + 1)).to_set() == match cs[j].guid {
            Some(g) => guids_of(cs.take(j)).to_set().insert(g),
            None => guids_of(cs.take(j)).to_set(),
        },
{
    assert(cs.take(j + 1).drop_last() =~= cs.take(j));
    if let Some(g) = cs[j].guid {
        let s = guids_of(cs.take(j));
        lemma_push_to_set(s, g);
        assert(cs.take(j + 1).last() == cs[j]);
    }
}

proof fn lemma_names_of_push(cs: Seq<FunctionConstraint>, j: int)
    requires
        0 <= j < cs.len(),
    ensures
        names_of(cs.take(j + 1)).to_set() == match cs[j].symbol {
            Some(s) => names_of(cs.take(j)).to_set().insert(s.name@),
            None => names_of(cs.take(j)).to_set(),
        },
{
    assert(cs.take(j + 1).drop_last() =~= cs.take(j));
    if let Some(sym) = cs[j].symbol {
        let g = sym.name@;
        let s = names_of(cs.take(j));
        lemma_push_to_set(s, g);
        assert(cs.take(j + 1).last() == cs[j]);
    }
}

fn contains_guid(v: &Vec<FunctionGUID>, g: FunctionGUID) -> (r: bool)
    ensures
        r == v@.contains(g),
{
    let mut i: usize = 0;
    while i < v.len()
        invariant
            i <= v@.len(),
            forall|k: int| 0 <= k < i ==> v@[k] != g,
        decreases v@.len() - i,
    {
        if v[i] == g {
            return true;
        }
        i += 1;
    }
    false
}

fn contains_name(v: &Vec<String>, name: &String) -> (r: bool)
    ensures
        r == (exists|k: int| 0 <= k < v@.len() && (#[trigger] v@[k])@ == name@),
{
    let mut i: usize = 0;
    while i < v.len()
        invariant
            i <= v@.len(),
            forall|k: int| 0 <= k < i ==> (#[trigger] v@[k])@ != name@,
        decreases v@.len() - i,
    {
        if v[i] == *name {
            return true;
        }
        i += 1;
    }
    false
}

/// The distinct fingerprints of the call sites, as a list without repeats.
fn distinct_guids(cs: &[FunctionConstraint]) -> (r: Vec<FunctionGUID>)
    ensures
        r@.no_duplicates(),
        r@.to_set() == guids_of(cs@).to_set(),
{
    let mut out: Vec<FunctionGUID> = Vec::new();
    let mut j: usize = 0;
    while j < cs.len()
        invariant
            j <= cs@.len(),
            out@.no_duplicates(),
            out@.to_set() == guids_of(cs@.take(j as int)).to_set(),
        decreases cs@.len() - j,
    {
        proof {
            lemma_guids_of_push(cs@, j as int);
        }
        if let Some(g) = cs[j].guid {
            if !contains_guid(&out, g) {
                let ghost before = out@;
                out.push(g);
                proof {
                    lemma_push_to_set(before, g);
                }
            } else {
                assert(out@.to_set() =~= out@.to_set().insert(g));
            }
        }
        j += 1;
    }
    assert(cs@.take(j as int) =~= cs@);
    out
}


/// The distinct symbol names of the call sites, as a list without repeats.
fn distinct_names(cs: &[FunctionConstraint]) -> (r: Vec<String>)
    ensures
        r@.map_values(|x: String| x@).no_duplicates(),
        r@.map_values(|x: String| x@).to_set() == names_of(cs@).to_set(),
{
    let mut out: Vec<String> = Vec::new();
    let mut j: usize = 0;
    while j < cs.len()
        invariant
            j <= cs@.len(),
            out@.map_values(|x: String| x@).no_duplicates(),
            out@.map_values(|x: String| x@).to_set() == names_of(cs@.take(j as int)).to_set(),
        decreases cs@.len() - j,
    {
        proof {
            lemma_names_of_push(cs@, j as int);
        }
        if let Some(sym) = &cs[j].symbol {
            let ghost before = out@.map_values(|x: String| x@);
            if !contains_name(&out, &sym.name) {
                out.push(sym.name.clone());
                proof {
                    assert(out@.map_values(|x: String| x@) =~= before.push(sym.name@));
                    lemma_push_to_set(before, sym.name@);
                }
            } else {
                assert(before.contains(sym.name@)) by {
                    let k = choose|k: int| 0 <= k < out@.len() && (#[trigger] out@[k])@ == sym.name@;
                    assert(before[k] == sym.name@);
                }
                assert(before.to_set() =~= before.to_set().insert(sym.name@));
            }
        }
        j += 1;
    }
    assert(cs@.take(j as int) =~= cs@);
    out
}

/// How many distinct fingerprints of `mine` also occur among the call sites `other`.
fn count_common_guids(mine: &Vec<FunctionGUID>, other: &Vec<FunctionConstraint>) -> (r: usize)
    requires
        mine@.no_duplicates(),
    ensures
        r == mine@.to_set().intersect(guids_of(other@).to_set()).len(),
{
    let mut seen: Vec<FunctionGUID> = Vec::new();
    let mut j: usize = 0;
    while j < other.len()
        invariant
            j <= other@.len(),
            seen@.len() <= j,
            seen@.no_duplicates(),
            seen@.to_set() == mine@.to_set().intersect(guids_of(other@.take(j as int)).to_set()),
        decreases other@.len() - j,
    {
        proof {
            lemma_guids_of_push(other@, j as int);
        }
        let ghost before = seen@;
        if let Some(g) = other[j].guid {
            if contains_guid(mine, g) && !contains_guid(&seen, g) {
                seen.push(g);
                proof {
                    lemma_push_to_set(before, g);
                }
            }
            assert(seen@.to_set() =~= mine@.to_set().intersect(
                guids_of(other@.take(j + 1)).to_set(),
            ));
        }
        j += 1;
    }
    assert(other@.take(j as int) =~= other@);
    proof {
        seen@.unique_seq_to_set();
    }
    seen.len()
}

/// How many distinct names of `mine` also occur among the call sites `other`.
fn count_common_names(mine: &Vec<String>, other: &Vec<FunctionConstraint>) -> (r: usize)
    requires
        mine@.map_values(|x: String| x@).no_duplicates(),
    ensures
        r == mine@.map_values(|x: String| x@).to_set().intersect(names_of(other@).to_set()).len(),
{
    let ghost m = mine@.map_values(|x: String| x@);
    let mut seen: Vec<String> = Vec::new();
    let mut j: usize = 0;
    while j < other.len()
        invariant
            m == mine@.map_values(|x: String| x@),
            j <= other@.len(),
            seen@.len() <= j,
            seen@.map_values(|x: String| x@).no_duplicates(),
            seen@.map_values(|x: String| x@).to_set() == m.to_set().intersect(
                names_of(other@.take(j as int)).to_set(),
            ),
        decreases other@.len() - j,
    {
        proof {
            lemma_names_of_push(other@, j as int);
        }
        let ghost before = seen@.map_values(|x: String| x@);
        if let Some(sym) = &other[j].symbol {
            let in_mine = contains_name(mine, &sym.name);
            let in_seen = contains_name(&seen, &sym.name);
            assert(in_mine == m.contains(sym.name@)) by {
                if in_mine {
                    let k = choose|k: int| 0 <= k < mine@.len() && (#[trigger] mine@[k])@ == sym.name@;
                    assert(m[k] == sym.name@);
                }
            }
            assert(in_seen == before.contains(sym.name@)) by {
                if in_seen {
                    let k = choose|k: int| 0 <= k < seen@.len() && (#[trigger] seen@[k])@ == sym.name@;
                    assert(before[k] == sym.name@);
                }
            }
            if in_mine && !in_seen {
                seen.push(sym.name.clone());
                proof {
                    assert(seen@.map_values(|x: String| x@) =~= before.push(sym.name@));
                    lemma_push_to_set(before, sym.name@);
                }
            }
            assert(seen@.map_values(|x: String| x@).to_set() =~= m.to_set().intersect(
                names_of(other@.take(j + 1)).to_set(),
            ));
        }
        j += 1;
    }
    assert(other@.take(j as int) =~= other@);
    proof {
        seen@.map_values(|x: String| x@).unique_seq_to_set();
    }
    seen.len()
}


/// The signatures at the given positions of `fns`, in the order given.
pub open spec fn cands_of(fns: Seq<SignatureFunction>, group: Seq<usize>) -> Seq<SignatureFunction> {
    Seq::new(group.len(), |k: int| fns[group[k] as int])
}

pub open spec fn in_range(fns: Seq<SignatureFunction>, group: Seq<usize>) -> bool {
    forall|k: int| 0 <= k < group.len() ==> #[trigger] group[k] < fns.len()
}

proof fn lemma_vote_step(scores: Seq<nat>, k: int)
    requires
        0 <= k < scores.len(),
    ensures
        vote(scores.take(k + 1)) == ({
            let (best, leader) = vote(scores.take(k));
            let s = scores[k];
            if s == best {
                (best, None)
            } else if s > best {
                (s, Some(k))
            } else {
                (best, leader)
            }
        }),
{
    assert(scores.take(k + 1).drop_last() =~= scores.take(k));
}

proof fn lemma_vote_leader(scores: Seq<nat>)
    ensures
        vote(scores).1 matches Some(i) ==> 0 <= i < scores.len() && scores[i] == vote(scores).0,
    decreases scores.len(),
{
    if scores.len() > 0 {
        lemma_vote_leader(scores.drop_last());
    }
}

/// Position, within `group`, of the candidate chosen by call-site constraints.
fn choose_by_constraints(cs: &[FunctionConstraint], fns: &[SignatureFunction], group: &[usize]) -> (r: Option<usize>)
    requires
        in_range(fns@, group@),
    ensures
        match r {
            Some(k) => constraint_choice(cs@, cands_of(fns@, group@)) == Some(k as int),
            None => constraint_choice(cs@, cands_of(fns@, group@)) is None,
        },
{
    if cs.len() == 0 {
        return None;
    }
    let ghost cands = cands_of(fns@, group@);
    let ghost gs = guid_scores(cs@, cands);
    let ghost ns = name_scores(cs@, cands);
    let mine_guids = distinct_guids(cs);
    let mine_names = distinct_names(cs);
    let mut best_g: usize = 0;
    let mut lead_g: Option<usize> = None;
    let mut best_n: usize = 0;
    let mut lead_n: Option<usize> = None;
    let mut k: usize = 0;
    while k < group.len()
        invariant
            in_range(fns@, group@),
            cands == cands_of(fns@, group@),
            gs == guid_scores(cs@, cands),
            ns == name_scores(cs@, cands),
            mine_guids@.no_duplicates(),
            mine_guids@.to_set() == guids_of(cs@).to_set(),
            mine_names@.map_values(|x: String| x@).no_duplicates(),
            mine_names@.map_values(|x: String| x@).to_set() == names_of(cs@).to_set(),
            k <= group@.len(),
            vote(gs.take(k as int)) == (best_g as nat, match lead_g {
                Some(i) => Some(i as int),
                None => None,
            }),
            vote(ns.take(k as int)) == (best_n as nat, match lead_n {
                Some(i) => Some(i as int),
                None => None,
            }),
        decreases group@.len() - k,
    {
        let f = &fns[group[k]];
        let g = count_common_guids(&mine_guids, &f.constraints.call_sites);
        let n = count_common_names(&mine_names, &f.constraints.call_sites);
        proof {
            lemma_vote_step(gs, k as int);
            lemma_vote_step(ns, k as int);
            assert(gs[k as int] == g as nat);
            assert(ns[k as int] == n as nat);
        }
        if g == best_g {
            lead_g = None;
        } else if g > best_g {
            best_g = g;
            lead_g = Some(k);
        }
        if n == best_n {
            lead_n = None;
        } else if n > best_n {
            best_n = n;
            lead_n = Some(k);
        }
        k += 1;
    }
    assert(gs.take(k as int) =~= gs);
    assert(ns.take(k as int) =~= ns);
    proof {
        lemma_vote_leader(gs);
        lemma_vote_leader(ns);
    }
    if best_g < best_n {
        lead_n
    } else if best_g > best_n {
        lead_g
    } else {
        match (lead_g, lead_n) {
            (Some(i), Some(j)) => {
                let a = &fns[group[i]];
                let b = &fns[group[j]];
                if a.ty.same_as(&b.ty) && a.symbol.same_as(&b.symbol) {
                    Some(i)
                } else {
                    None
                }
            },
            _ => None,
        }
    }
}


/// No signature before position `p` has the fingerprint and the name of the one at `p`.
pub open spec fn first_of_name(fns: Seq<SignatureFunction>, p: int) -> bool {
    forall|q: int|
        0 <= q < p ==> !(#[trigger] fns[q].guid == fns[p].guid && fns[q].symbol.name@
            == fns[p].symbol.name@)
}

/// Whether `a` comes before `b` in code-point order (a prefix comes first).
pub open spec fn name_lt(a: Seq<char>, b: Seq<char>) -> bool
    decreases a.len(),
{
    if a.len() == 0 {
        b.len() > 0
    } else if b.len() == 0 {
        false
    } else if a[0] != b[0] {
        (a[0] as u32) < (b[0] as u32)
    } else {
        name_lt(a.drop_first(), b.drop_first())
    }
}

/// Inserts position `p` into a group kept in name order: after every entry
/// whose name does not come after that of `p`.
pub open spec fn insert_by_name(group: Seq<usize>, fns: Seq<SignatureFunction>, p: usize) -> Seq<usize>
    decreases group.len(),
{
    if group.len() == 0 {
        seq![p]
    } else if name_lt(fns[p as int].symbol.name@, fns[group.last() as int].symbol.name@) {
        insert_by_name(group.drop_last(), fns, p).push(group.last())
    } else {
        group.push(p)
    }
}

/// Positions, among the first `n`, of the signatures with fingerprint `g`,
/// keeping only the first signature of each name, in name order.
pub open spec fn group_for(fns: Seq<SignatureFunction>, g: u128, n: int) -> Seq<usize>
    decreases n,
{
    if n <= 0 {
        Seq::empty()
    } else if fns[n - 1].guid.guid == g && first_of_name(fns, n - 1) {
        insert_by_name(group_for(fns, g, n - 1), fns, (n - 1) as usize)
    } else {
        group_for(fns, g, n - 1)
    }
}

proof fn lemma_insert_by_name_members(group: Seq<usize>, fns: Seq<SignatureFunction>, p: usize)
    ensures
        insert_by_name(group, fns, p).len() == group.len() + 1,
        forall|x: usize| #[trigger] insert_by_name(group, fns, p).contains(x) <==> (group.contains(x) || x == p),
    decreases group.len(),
{
    let r = insert_by_name(group, fns, p);
    if group.len() == 0 {
        assert forall|x: usize| #[trigger] r.contains(x) <==> (group.contains(x) || x == p) by {
            if x == p {
                assert(r[0] == p);
            }
        }
    } else if name_lt(fns[p as int].symbol.name@, fns[group.last() as int].symbol.name@) {
        let d = group.drop_last();
        lemma_insert_by_name_members(d, fns, p);
        let rd = insert_by_name(d, fns, p);
        assert forall|x: usize| #[trigger] r.contains(x) <==> (group.contains(x) || x == p) by {
            if r.contains(x) {
                let k = choose|k: int| 0 <= k < r.len() && r[k] == x;
                if k < rd.len() {
                    assert(rd.contains(x));
                    if x != p {
                        let j = choose|j: int| 0 <= j < d.len() && d[j] == x;
                        assert(group[j] == x);
                    }
                } else {
                    assert(group[group.len() - 1] == x);
                }
            }
            if group.contains(x) {
                let j = choose|j: int| 0 <= j < group.len() && group[j] == x;
                if j < d.len() {
                    assert(d[j] == x);
                    assert(rd.contains(x));
                    let k = choose|k: int| 0 <= k < rd.len() && rd[k] == x;
                    assert(r[k] == x);
                } else {
                    assert(r[rd.len() as int] == x);
                }
            }
            if x == p {
                assert(rd.contains(x));
                let k = choose|k: int| 0 <= k < rd.len() && rd[k] == x;
                assert(r[k] == x);
            }
        }
    } else {
        assert forall|x: usize| #[trigger] r.contains(x) <==> (group.contains(x) || x == p) by {
            if r.contains(x) {
                let k = choose|k: int| 0 <= k < r.len() && r[k] == x;
                if k < group.len() {
                    assert(group[k] == x);
                }
            }
            if group.contains(x) {
                let j = choose|j: int| 0 <= j < group.len() && group[j] == x;
                assert(r[j] == x);
            }
            if x == p {
                assert(r[group.len() as int] == x);
            }
        }
    }
}

proof fn lemma_insert_by_name_at(group: Seq<usize>, fns: Seq<SignatureFunction>, p: usize, j: int)
    requires
        0 <= j <= group.len(),
        forall|m: int|
            j <= m < group.len() ==> name_lt(
                fns[p as int].symbol.name@,
                fns[#[trigger] group[m] as int].symbol.name@,
            ),
        j == 0 || !name_lt(fns[p as int].symbol.name@, fns[group[j - 1] as int].symbol.name@),
    ensures
        insert_by_name(group, fns, p) == group.insert(j, p),
    decreases group.len(),
{
    if group.len() == 0 {
        assert(group.insert(j, p) =~= seq![p]);
    } else if j == group.len() {
        assert(group.insert(j, p) =~= group.push(p));
    } else {
        assert(name_lt(fns[p as int].symbol.name@, fns[group[group.len() - 1] as int].symbol.name@));
        let d = group.drop_last();
        assert forall|m: int| j <= m < d.len() implies name_lt(
            fns[p as int].symbol.name@,
            fns[#[trigger] d[m] as int].symbol.name@,
        ) by {
            assert(d[m] == group[m]);
        }
        lemma_insert_by_name_at(d, fns, p, j);
        assert(d.insert(j, p).push(group.last()) =~= group.insert(j, p));
    }
}

pub open spec fn has_guid(fns: Seq<SignatureFunction>, g: u128, n: int) -> bool {
    exists|p: int| 0 <= p < n && (#[trigger] fns[p]).guid.guid == g
}

/// The fingerprint index over the first `n` signatures.
pub open spec fn index_upto(fns: Seq<SignatureFunction>, n: int) -> Map<u128, Seq<usize>> {
    Map::new(|g: u128| has_guid(fns, g, n), |g: u128| group_for(fns, g, n))
}

proof fn lemma_group_members(fns: Seq<SignatureFunction>, g: u128, n: int)
    requires
        0 <= n <= fns.len(),
        fns.len() <= usize::MAX,
    ensures
        forall|x: usize|
            #[trigger] group_for(fns, g, n).contains(x) ==> {
                &&& x < n
                &&& fns[x as int].guid.guid == g
                &&& first_of_name(fns, x as int)
            },
    decreases n,
{
    if n > 0 {
        lemma_group_members(fns, g, n - 1);
        lemma_insert_by_name_members(group_for(fns, g, n - 1), fns, (n - 1) as usize);
    }
}

proof fn lemma_group_entries(fns: Seq<SignatureFunction>, g: u128, n: int)
    requires
        0 <= n <= fns.len(),
        fns.len() <= usize::MAX,
    ensures
        forall|k: int|
            0 <= k < group_for(fns, g, n).len() ==> {
                &&& #[trigger] group_for(fns, g, n)[k] < n
                &&& fns[group_for(fns, g, n)[k] as int].guid.guid == g
                &&& first_of_name(fns, group_for(fns, g, n)[k] as int)
            },
{
    lemma_group_members(fns, g, n);
    assert forall|k: int| 0 <= k < group_for(fns, g, n).len() implies {
        &&& #[trigger] group_for(fns, g, n)[k] < n
        &&& fns[group_for(fns, g, n)[k] as int].guid.guid == g
        &&& first_of_name(fns, group_for(fns, g, n)[k] as int)
    } by {
        assert(group_for(fns, g, n).contains(group_for(fns, g, n)[k]));
    }
}

proof fn lemma_group_monotone(fns: Seq<SignatureFunction>, g: u128, m: int, n: int, x: usize)
    requires
        0 <= m <= n,
        group_for(fns, g, m).contains(x),
    ensures
        group_for(fns, g, n).contains(x),
    decreases n - m,
{
    if m < n {
        lemma_group_monotone(fns, g, m, n - 1, x);
        lemma_insert_by_name_members(group_for(fns, g, n - 1), fns, (n - 1) as usize);
    }
}

/// Every signature with fingerprint `g` before `n` has a same-named one in the group.
proof fn lemma_group_covers(fns: Seq<SignatureFunction>, g: u128, n: int, q: int)
    requires
        0 <= q < n <= fns.len(),
        fns.len() <= usize::MAX,
        fns[q].guid.guid == g,
    ensures
        exists|k: int|
            0 <= k < group_for(fns, g, n).len() && fns[#[trigger] group_for(fns, g, n)[k] as int].symbol.name@
                == fns[q].symbol.name@,
    decreases q,
{
    if first_of_name(fns, q) {
        lemma_insert_by_name_members(group_for(fns, g, q), fns, q as usize);
        assert(group_for(fns, g, q + 1).contains(q as usize));
        lemma_group_monotone(fns, g, q + 1, n, q as usize);
        let grp = group_for(fns, g, n);
        let k = choose|k: int| 0 <= k < grp.len() && grp[k] == q as usize;
        assert(fns[grp[k] as int].symbol.name@ == fns[q].symbol.name@);
    } else {
        let q2 = choose|q2: int|
            0 <= q2 < q && #[trigger] fns[q2].guid == fns[q].guid && fns[q2].symbol.name@
                == fns[q].symbol.name@;
        lemma_group_covers(fns, g, n, q2);
    }
}

/// Whether `a` comes before `b` in code-point order.
pub fn name_less(a: &String, b: &String) -> (r: bool)
    ensures
        r == name_lt(a@, b@),
{
    let sa = a.as_str();
    let sb = b.as_str();
    let la = sa.unicode_len();
    let lb = sb.unicode_len();
    let mut i: usize = 0;
    assert(a@.skip(0) =~= a@);
    assert(b@.skip(0) =~= b@);
    while i < la && i < lb
        invariant
            sa@ == a@,
            sb@ == b@,
            la == a@.len(),
            lb == b@.len(),
            i <= la,
            i <= lb,
            name_lt(a@, b@) == name_lt(a@.skip(i as int), b@.skip(i as int)),
        decreases la - i,
    {
        let ca = sa.get_char(i);
        let cb = sb.get_char(i);
        assert(a@.skip(i as int)[0] == ca);
        assert(b@.skip(i as int)[0] == cb);
        if ca != cb {
            return (ca as u32) < (cb as u32);
        }
        assert(a@.skip(i as int).drop_first() =~= a@.skip(i + 1));
        assert(b@.skip(i as int).drop_first() =~= b@.skip(i + 1));
        i += 1;
    }
    i == la && i < lb
}

/// Whether a signature named `name` is at one of the positions of `group`.
fn group_has_name(fns: &Vec<SignatureFunction>, group: &Vec<usize>, name: &String) -> (r: bool)
    requires
        in_range(fns@, group@),
    ensures
        r == exists|k: int|
            0 <= k < group@.len() && fns@[#[trigger] group@[k] as int].symbol.name@ == name@,
{
    let mut k: usize = 0;
    while k < group.len()
        invariant
            in_range(fns@, group@),
            k <= group@.len(),
            forall|j: int| 0 <= j < k ==> fns@[#[trigger] group@[j] as int].symbol.name@ != name@,
        decreases group@.len() - k,
    {
        if fns[group[k]].symbol.name == *name {
            return true;
        }
        k += 1;
    }
    false
}

/// What the matcher needs to know of an analyzed function.
#[derive(Debug)]
pub struct AnalyzedFunction {
    /// Its basic blocks, in any order.
    pub blocks: Vec<BasicBlock>,
    /// Lowest and highest address it covers.
    pub lowest: u64,
    pub highest: u64,
    /// Its call-site constraints.
    pub call_sites: Vec<FunctionConstraint>,
}

/// The address span of a function (zero if the bounds are inverted).
pub open spec fn span_of(lowest: u64, highest: u64) -> int {
    if highest >= lowest {
        highest - lowest
    } else {
        0
    }
}

/// The position in `fns` of the signature matched for a function with
/// fingerprint `guid`, span `span` and call sites `cs`: none when no signature
/// has the fingerprint; the only one when it is alone and the function is not
/// trivial; otherwise the one chosen by the call-site constraints.
pub open spec fn match_choice(
    fns: Seq<SignatureFunction>,
    index: Map<u128, Seq<usize>>,
    guid: FunctionGUID,
    span: int,
    cs: Seq<FunctionConstraint>,
) -> Option<int> {
    if !index.contains_key(guid.guid) {
        None
    } else {
        let group = index[guid.guid];
        if group.len() == 1 && span >= TRIVIAL_FUNCTION_DELTA_THRESHOLD {
            Some(group[0] as int)
        } else {
            match constraint_choice(cs, cands_of(fns, group)) {
                Some(k) => Some(group[k] as int),
                None => None,
            }
        }
    }
}

/// Signatures loaded for one execution context, indexed by fingerprint.
pub struct Matcher {
    /// Every loaded signature, in load order.
    pub functions: Vec<SignatureFunction>,
    /// Fingerprint to positions in `functions`, in name order: one signature
    /// per name, the first loaded.
    pub index: DashMap<u128, Vec<usize>>,
    /// Every loaded type descriptor, in load order.
    pub types: Vec<ComputedType>,
}

impl Matcher {
    /// The index maps each fingerprint to the positions of its signatures.
    pub open spec fn wf(&self) -> bool {
        index_entries(self.index) == index_upto(self.functions@, self.functions@.len() as int)
    }

    /// Builds a matcher over bundles given in load order (system bundles before
    /// user bundles). Signatures that share a fingerprint are grouped in name
    /// order; of those that also share a name only the first loaded is kept.
    pub fn from_data(datas: Vec<SignatureData>) -> (r: Matcher)
        ensures
            r.wf(),
            r.functions@ == crate::signature::merged_functions(datas@),
            r.types@ == crate::signature::merged_types(datas@),
    {
        let data = SignatureData::merge(datas);
        let functions = data.functions;
        let ghost fns = functions@;
        let count: usize = functions.len();
        let mut index = index_new();
        assert(index_entries(index) =~= index_upto(fns, 0));
        let mut p: usize = 0;
        while p < functions.len()
            invariant
                fns == functions@,
                fns.len() == count,
                p <= fns.len(),
                index_entries(index) == index_upto(fns, p as int),
            decreases fns.len() - p,
        {
            let g = functions[p].guid.guid;
            let ghost before = index_entries(index);
            proof {
                lemma_group_entries(fns, g, p as int);
            }
            match index_get(&index, g) {
                None => {
                    assert(!has_guid(fns, g, p as int));
                    assert(group_for(fns, g, p as int) =~= Seq::<usize>::empty()) by {
                        if group_for(fns, g, p as int).len() > 0 {
                            let q = group_for(fns, g, p as int)[0] as int;
                            assert(fns[q].guid.guid == g);
                        }
                    }
                    assert(first_of_name(fns, p as int));
                    let mut grp: Vec<usize> = Vec::new();
                    grp.push(p);
                    index_insert(&mut index, g, grp);
                },
                Some(grp) => {
                    let mut grp = grp;
                    assert(in_range(fns, grp@));
                    let dup = group_has_name(&functions, &grp, &functions[p].symbol.name);
                    if dup {
                        assert(!first_of_name(fns, p as int)) by {
                            let k = choose|k: int|
                                0 <= k < grp@.len() && fns[#[trigger] grp@[k] as int].symbol.name@
                                    == fns[p as int].symbol.name@;
                            let q = grp@[k] as int;
                            assert(fns[q].guid == fns[p as int].guid);
                        }
                    } else {
                        assert(first_of_name(fns, p as int)) by {
                            if !first_of_name(fns, p as int) {
                                let q = choose|q: int|
                                    0 <= q < p && #[trigger] fns[q].guid == fns[p as int].guid
                                        && fns[q].symbol.name@ == fns[p as int].symbol.name@;
                                lemma_group_covers(fns, g, p as int, q);
                            }
                        }
                        let name = &functions[p].symbol.name;
                        let mut j: usize = grp.len();
                        while j > 0 && name_less(name, &functions[grp[j - 1]].symbol.name)
                            invariant
                                fns == functions@,
                                p < fns.len(),
                                *name == fns[p as int].symbol.name,
                                in_range(fns, grp@),
                                j <= grp@.len(),
                                forall|m: int|
                                    j <= m < grp@.len() ==> name_lt(
                                        fns[p as int].symbol.name@,
                                        fns[#[trigger] grp@[m] as int].symbol.name@,
                                    ),
                            decreases j,
                        {
                            j -= 1;
                        }
                        proof {
                            lemma_insert_by_name_at(grp@, fns, p, j as int);
                        }
                        grp.insert(j, p);
                        index_insert(&mut index, g, grp);
                    }
                },
            }
            proof {
                assert forall|h: u128| #[trigger] has_guid(fns, h, p + 1) == (has_guid(fns, h, p as int) || h == g) by {
                    if has_guid(fns, h, p + 1) && h != g {
                        let q = choose|q: int| 0 <= q < p + 1 && (#[trigger] fns[q]).guid.guid == h;
                        assert(q < p);
                    }
                    if h == g {
                        assert(fns[p as int].guid.guid == h);
                    }
                }
            }
            assert(index_entries(index) =~= index_upto(fns, p + 1));
            p += 1;
        }
        Matcher { functions, index, types: data.types }
    }

    /// Position in `self.functions` of the signature that the function
    /// matches, if any (see `match_choice`).
    pub fn match_function(&self, function: &AnalyzedFunction, layout: &ProgramLayout) -> (r: Option<usize>)
        requires
            self.wf(),
        ensures
            match r {
                Some(p) => match_choice(
                    self.functions@,
                    index_entries(self.index),
                    function_fingerprint(function.blocks@, *layout),
                    span_of(function.lowest, function.highest),
                    function.call_sites@,
                ) == Some(p as int) && p < self.functions@.len(),
                None => match_choice(
                    self.functions@,
                    index_entries(self.index),
                    function_fingerprint(function.blocks@, *layout),
                    span_of(function.lowest, function.highest),
                    function.call_sites@,
                ) is None,
            },
    {
        let guid = function_guid(function.blocks.as_slice(), layout);
        let span: u64 = if function.highest >= function.lowest {
            function.highest - function.lowest
        } else {
            0
        };
        let count: usize = self.functions.len();
        proof {
            lemma_group_entries(self.functions@, guid.guid, count as int);
        }
        match index_get(&self.index, guid.guid) {
            None => None,
            Some(group) => {
                assert(in_range(self.functions@, group@));
                if group.len() == 1 && span >= TRIVIAL_FUNCTION_DELTA_THRESHOLD {
                    Some(group[0])
                } else {
                    match choose_by_constraints(
                        function.call_sites.as_slice(),
                        self.functions.as_slice(),
                        group.as_slice(),
                    ) {
                        Some(k) => {
                            proof {
                                lemma_vote_leader(
                                    guid_scores(function.call_sites@, cands_of(self.functions@, group@)),
                                );
                                lemma_vote_leader(
                                    name_scores(function.call_sites@, cands_of(self.functions@, group@)),
                                );
                            }
                            Some(group[k])
                        },
                        None => None,
                    }
                }
            },
        }
    }

    /// Position in `matched_functions` of the candidate that the call sites
    /// single out (see `constraint_choice`).
    pub fn match_function_from_constraints(
        &self,
        call_sites: &[FunctionConstraint],
        matched_functions: &[SignatureFunction],
    ) -> (r: Option<usize>)
        ensures
            match r {
                Some(k) => constraint_choice(call_sites@, matched_functions@) == Some(k as int),
                None => constraint_choice(call_sites@, matched_functions@) is None,
            },
    {
        let mut all: Vec<usize> = Vec::new();
        let mut i: usize = 0;
        while i < matched_functions.len()
            invariant
                i <= matched_functions@.len(),
                all@.len() == i,
                forall|k: int| 0 <= k < i ==> #[trigger] all@[k] == k,
            decreases matched_functions@.len() - i,
        {
            all.push(i);
            i += 1;
        }
        assert(cands_of(matched_functions@, all@) =~= matched_functions@);
        choose_by_constraints(call_sites, matched_functions, all.as_slice())
    }
}


/// A fingerprint that only one signature carries matches that signature
/// outright when the function spans at least the trivial-function threshold,
/// whatever its call sites (none at all included).
pub proof fn lemma_single_candidate_fast_path(
    fns: Seq<SignatureFunction>,
    index: Map<u128, Seq<usize>>,
    guid: FunctionGUID,
    span: int,
    cs: Seq<FunctionConstraint>,
)
    requires
        index.contains_key(guid.guid),
        index[guid.guid].len() == 1,
        span >= TRIVIAL_FUNCTION_DELTA_THRESHOLD,
    ensures
        match_choice(fns, index, guid, span, cs) == Some(index[guid.guid][0] as int),
{
}

/// Two candidates that score alike on shared call-site fingerprints and alike
/// on shared call-site names leave no winner: nothing matches.
pub proof fn lemma_tie_rejection(cs: Seq<FunctionConstraint>, cands: Seq<SignatureFunction>)
    requires
        cands.len() == 2,
        common_guid_count(cs, cands[0].constraints.call_sites@) == common_guid_count(
            cs,
            cands[1].constraints.call_sites@,
        ),
        common_name_count(cs, cands[0].constraints.call_sites@) == common_name_count(
            cs,
            cands[1].constraints.call_sites@,
        ),
    ensures
        constraint_choice(cs, cands) is None,
{
    let gs = guid_scores(cs, cands);
    let ns = name_scores(cs, cands);
    assert(gs.drop_last().drop_last() =~= Seq::<nat>::empty());
    assert(ns.drop_last().drop_last() =~= Seq::<nat>::empty());
    assert(gs[0] == gs[1]);
    assert(ns[0] == ns[1]);
    assert(gs.drop_last().last() == gs[0]);
    assert(ns.drop_last().last() == ns[0]);
    assert(vote(gs.drop_last().drop_last()) == (0nat, None::<int>));
    assert(vote(ns.drop_last().drop_last()) == (0nat, None::<int>));
    let g1 = vote(gs.drop_last());
    let n1 = vote(ns.drop_last());
    assert(g1.0 == gs[0]);
    assert(n1.0 == ns[0]);
    assert(vote(gs).1 is None);
    assert(vote(ns).1 is None);
}

/// When the two signals reach the same best count, a match is declared exactly
/// when each signal has a leader and the two leaders carry the same type and
/// the same symbol; the match is then the fingerprint leader.
pub proof fn lemma_equal_counts_need_agreeing_leaders(
    cs: Seq<FunctionConstraint>,
    cands: Seq<SignatureFunction>,
)
    requires
        cs.len() > 0,
        vote(guid_scores(cs, cands)).0 == vote(name_scores(cs, cands)).0,
    ensures
        constraint_choice(cs, cands) is Some <==> ({
            let gw = vote(guid_scores(cs, cands)).1;
            let nw = vote(name_scores(cs, cands)).1;
            &&& gw is Some
            &&& nw is Some
            &&& cands[gw->0].ty@ == cands[nw->0].ty@
            &&& cands[gw->0].symbol@ == cands[nw->0].symbol@
        }),
        constraint_choice(cs, cands) is Some ==> constraint_choice(cs, cands) == vote(
            guid_scores(cs, cands),
        ).1,
{
}


/// Identifies an execution context (platform) by a digest of its name.
#[derive(Clone, Copy, Debug, Hash, PartialEq, Eq, PartialOrd, Ord, Structural)]
pub struct PlatformID(pub u64);

pub open spec fn platform_id_of(name: Seq<char>) -> u64 {
    (uuid_v5_of(NAMESPACE_PLATFORM, vstd::utf8::encode_utf8(name)) >> 64u128) as u64
}

impl PlatformID {
    /// The identifier of the platform called `name`: the upper half of its
    /// name-based digest, so the same name always gives the same identifier.
    pub fn from_name(name: &str) -> (r: PlatformID)
        ensures
            r.0 == platform_id_of(name@),
    {
        let g = crate::guid::digest(NAMESPACE_PLATFORM, name.as_bytes());
        PlatformID((g >> 64u128) as u64)
    }
}

/// Matchers built per platform. Nothing refreshes them on its own: whoever
/// changes the signature files must invalidate the cache.
pub struct MatcherCache {
    pub matchers: DashMap<u64, Matcher>,
}

impl MatcherCache {
    pub fn new() -> (r: MatcherCache)
        ensures
            forall|p: u64| !#[trigger] cached_platforms(r.matchers).contains(p),
    {
        MatcherCache { matchers: cache_new() }
    }

    /// Whether a matcher is cached for the platform.
    pub fn contains(&self, platform: PlatformID) -> (r: bool)
        ensures
            r == cached_platforms(self.matchers).contains(platform.0),
    {
        cache_contains(&self.matchers, platform.0)
    }

    /// Caches the matcher for the platform, replacing any earlier one.
    pub fn insert(&mut self, platform: PlatformID, matcher: Matcher)
        ensures
            cached_platforms(final(self).matchers) == cached_platforms(old(self).matchers).insert(
                platform.0,
            ),
    {
        cache_insert(&mut self.matchers, platform.0, matcher);
    }
}

/// Drops every cached matcher, so that the next match rebuilds them from the
/// signature files.
pub fn invalidate_function_matcher_cache(cache: &mut MatcherCache)
    ensures
        forall|p: u64| !#[trigger] cached_platforms(final(cache).matchers).contains(p),
{
    cache_clear(&mut cache.matchers);
}

} // verus!
