use crate::access::Access;
use crate::claim::Claim;
use crate::claim::grant_claim;
use crate::claim::lemma_record_claims_concat;
use crate::claim::record_claims;
use crate::scheduler::RoundError;
use crate::scheduler::Scheduler;
use crate::scheduler::all_keys_present;
use crate::scheduler::round_step;
use vstd::prelude::*;

verus! {

/// Any two claims in the list that target the same type identity are both
/// shared reads — the list's accesses are mutually compatible, whatever
/// order they are granted in.
pub open spec fn conflict_free(cs: Seq<Claim>) -> bool {
    forall|p: int, q: int|
        0 <= p < q < cs.len() && (#[trigger] cs[p]).key == (#[trigger] cs[q]).key ==> cs[p].mode
            is Read && cs[q].mode is Read
}

/// Every claim in the list is admissible against the accesses already held.
pub open spec fn all_admitted(held: Map<u64, Access>, cs: Seq<Claim>) -> bool {
    forall|j: int| 0 <= j < cs.len() ==> (#[trigger] cs[j]).admitted_by(held)
}

/// Every declared access of every system in the round is a shared read.
pub open spec fn read_only(css: Seq<Seq<Claim>>) -> bool {
    forall|i: int, j: int|
        0 <= i < css.len() && 0 <= j < css[i].len() ==> (#[trigger] css[i][j]).mode is Read
}

/// Recording a claim list succeeds exactly when the list is internally
/// conflict-free and every claim is compatible with what was already held:
/// the incremental, order-following ledger check decides the same question
/// as the order-blind pairwise one.
pub proof fn lemma_claims_clean_iff(held: Map<u64, Access>, cs: Seq<Claim>)
    ensures
        (record_claims(held, cs).1 is None) <==> (conflict_free(cs) && all_admitted(held, cs)),
    decreases cs.len(),
{
    if cs.len() == 0 {
    } else {
        let c = cs[0];
        let rest = cs.drop_first();
        if !c.admitted_by(held) {
            assert(!all_admitted(held, cs)) by {
                assert(cs[0] == c);
            }
        } else {
            let h2 = grant_claim(held, c);
            lemma_claims_clean_iff(h2, rest);
            if conflict_free(cs) && all_admitted(held, cs) {
                assert forall|p: int, q: int|
                    0 <= p < q < rest.len() && (#[trigger] rest[p]).key == (
                    #[trigger] rest[q]).key implies rest[p].mode is Read && rest[q].mode
                    is Read by {
                    assert(rest[p] == cs[p + 1]);
                    assert(rest[q] == cs[q + 1]);
                }
                assert forall|j: int| 0 <= j < rest.len() implies (#[trigger] rest[j]).admitted_by(
                    h2,
                ) by {
                    assert(rest[j] == cs[j + 1]);
                    let d = cs[j + 1];
                    assert(d.admitted_by(held));
                    if h2.contains_key(d.key) {
                        if held.contains_key(d.key) {
                            assert(h2[d.key] == held[d.key]);
                        } else {
                            assert(d.key == c.key);
                            assert(h2[d.key] == c.mode);
                            assert(cs[0].key == cs[j + 1].key);
                            assert(cs[0].mode is Read && cs[j + 1].mode is Read);
                        }
                    }
                }
            }
            if record_claims(held, cs).1 is None {
                assert(conflict_free(rest) && all_admitted(h2, rest));
                assert forall|p: int, q: int|
                    0 <= p < q < cs.len() && (#[trigger] cs[p]).key == (
                    #[trigger] cs[q]).key implies cs[p].mode is Read && cs[q].mode is Read by {
                    if p == 0 {
                        let d = cs[q];
                        assert(rest[q - 1] == d);
                        assert(d.admitted_by(h2));
                        assert(h2.contains_key(c.key));
                        if held.contains_key(c.key) {
                            assert(h2[c.key] == held[c.key]);
                            assert(c.admitted_by(held));
                            assert(held[c.key] is Read && c.mode is Read);
                        } else {
                            assert(h2[c.key] == c.mode);
                        }
                        assert(h2[d.key] is Read && d.mode is Read);
                    } else {
                        assert(rest[p - 1] == cs[p]);
                        assert(rest[q - 1] == cs[q]);
                    }
                }
                assert forall|j: int| 0 <= j < cs.len() implies (#[trigger] cs[j]).admitted_by(
                    held,
                ) by {
                    if j > 0 {
                        let d = cs[j];
                        assert(rest[j - 1] == d);
                        assert(d.admitted_by(h2));
                        if held.contains_key(d.key) {
                            assert(h2.contains_key(d.key));
                            assert(h2[d.key] == held[d.key]);
                        }
                    }
                }
            }
        }
    }
}

/// When every claimed key names a registered resource, a round's verdict is
/// the verdict of recording all systems' claims, concatenated in
/// registration order, in one pass — and the ledger it stops with is the
/// same too.
pub proof fn lemma_round_verdict_is_flat_verdict(
    held: Map<u64, Access>,
    dom: Set<u64>,
    css: Seq<Seq<Claim>>,
)
    requires
        forall|i: int| 0 <= i < css.len() ==> all_keys_present(dom, #[trigger] css[i]),
    ensures
        round_step(held, dom, css).1 == match record_claims(held, css.flatten()).1 {
            None => None::<RoundError>,
            Some(c) => Some(RoundError::Conflict(c)),
        },
        round_step(held, dom, css).0 == record_claims(held, css.flatten()).0,
    decreases css.len(),
{
    if css.len() == 0 {
        assert(css.flatten() =~= Seq::<Claim>::empty());
    } else {
        let cs0 = css[0];
        let rest = css.drop_first();
        assert(css.first() == cs0);
        assert(css.flatten() == cs0 + rest.flatten());
        lemma_record_claims_concat(held, cs0, rest.flatten());
        assert(all_keys_present(dom, css[0]));
        let rec0 = record_claims(held, cs0);
        if rec0.1 is None {
            assert forall|i: int| 0 <= i < rest.len() implies all_keys_present(
                dom,
                #[trigger] rest[i],
            ) by {
                assert(rest[i] == css[i + 1]);
            }
            lemma_round_verdict_is_flat_verdict(rec0.0, dom, rest);
        }
    }
}

/// A round started on a clear ledger validates exactly when the union of
/// all systems' declared accesses — every claim of every system, taken
/// together — is internally conflict-free. The whole-round scope is what
/// makes a validated round safe to execute with its systems running
/// concurrently, even though this scheduler runs them one at a time.
pub proof fn lemma_round_ok_iff_union_conflict_free(dom: Set<u64>, css: Seq<Seq<Claim>>)
    requires
        forall|i: int| 0 <= i < css.len() ==> all_keys_present(dom, #[trigger] css[i]),
    ensures
        round_step(Map::<u64, Access>::empty(), dom, css).1 is None <==> conflict_free(
            css.flatten(),
        ),
{
    lemma_round_verdict_is_flat_verdict(Map::empty(), dom, css);
    lemma_claims_clean_iff(Map::empty(), css.flatten());
    assert(all_admitted(Map::empty(), css.flatten()));
}

/// Write conflicts are always caught: if any two declared accesses in the
/// round — in the same system or in different ones, in either order —
/// target the same type identity and at least one is a write, the round
/// fails, and it fails with a conflict error.
pub proof fn lemma_write_conflict_fails_round(
    dom: Set<u64>,
    css: Seq<Seq<Claim>>,
    a: int,
    b: int,
)
    requires
        forall|i: int| 0 <= i < css.len() ==> all_keys_present(dom, #[trigger] css[i]),
        0 <= a < b < css.flatten().len(),
        css.flatten()[a].key == css.flatten()[b].key,
        css.flatten()[a].mode is Write || css.flatten()[b].mode is Write,
    ensures
        round_step(Map::<u64, Access>::empty(), dom, css).1 matches Some(RoundError::Conflict(_)),
{
    lemma_round_ok_iff_union_conflict_free(dom, css);
    assert(!conflict_free(css.flatten()));
    lemma_round_verdict_is_flat_verdict(Map::empty(), dom, css);
}

/// Shared reads never conflict: a round in which every declared access is a
/// shared read validates, whatever the systems' keys and however the claims
/// are spread over the systems. Together with `run`'s contract — no write
/// grant, no change — every resource then leaves such a round exactly as it
/// entered it, so all its readers observe the same values.
pub proof fn lemma_read_only_round_validates(dom: Set<u64>, css: Seq<Seq<Claim>>)
    requires
        read_only(css),
        forall|i: int| 0 <= i < css.len() ==> all_keys_present(dom, #[trigger] css[i]),
    ensures
        round_step(Map::<u64, Access>::empty(), dom, css).1 is None,
    decreases css.len(),
{
    lemma_round_ok_iff_union_conflict_free(dom, css);
    lemma_flatten_read_only(css);
}

/// Every claim in the concatenation of read-only claim lists is a read.
pub proof fn lemma_flatten_read_only(css: Seq<Seq<Claim>>)
    requires
        read_only(css),
    ensures
        forall|t: int| 0 <= t < css.flatten().len() ==> (#[trigger] css.flatten()[t]).mode is Read,
    decreases css.len(),
{
    if css.len() == 0 {
    } else {
        let cs0 = css[0];
        let rest = css.drop_first();
        assert(css.flatten() == cs0 + rest.flatten());
        assert forall|i: int, j: int|
            0 <= i < rest.len() && 0 <= j < rest[i].len() implies (#[trigger] rest[i][j]).mode
            is Read by {
            assert(rest[i] == css[i + 1]);
        }
        lemma_flatten_read_only(rest);
        assert forall|t: int| 0 <= t < css.flatten().len() implies (
        #[trigger] css.flatten()[t]).mode is Read by {
            if t < cs0.len() {
                assert(css.flatten()[t] == cs0[t]);
                assert(css[0][t].mode is Read);
            } else {
                assert(css.flatten()[t] == rest.flatten()[t - cs0.len()]);
            }
        }
    }
}

/// The executed count of a round outcome is every system on success, and
/// only the systems before the failing one on failure.
pub proof fn lemma_executed_count(held: Map<u64, Access>, dom: Set<u64>, css: Seq<Seq<Claim>>)
    ensures
        round_step(held, dom, css).1 is None ==> round_step(held, dom, css).2 == css.len(),
        round_step(held, dom, css).1 is Some ==> 0 <= round_step(held, dom, css).2 < css.len(),
    decreases css.len(),
{
    if css.len() > 0 {
        let st = crate::scheduler::system_step(held, dom, css[0]);
        if st.1 is None {
            lemma_executed_count(st.0, dom, css.drop_first());
        }
    }
}

/// Ledger reset: a successful round leaves the scheduler with a clear
/// ledger, the same claim lists, and the same set of registered resources —
/// exactly the components the round verdict is computed from — so an
/// immediately following round with the same systems validates again.
pub proof fn lemma_round_repeats<V, S>(before: Scheduler<V, S>, after: Scheduler<V, S>)
    requires
        before.ledger_view() == Map::<u64, Access>::empty(),
        round_step(before.ledger_view(), before.store_view().dom(), before.claims_view()).1
            is None,
        after.ledger_view() == Map::<u64, Access>::empty(),
        after.claims_view() == before.claims_view(),
        after.store_view().dom() == before.store_view().dom(),
    ensures
        round_step(after.ledger_view(), after.store_view().dom(), after.claims_view()).1 is None,
{
}

} // verus!
