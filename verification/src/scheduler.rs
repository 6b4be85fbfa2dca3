use crate::access::Access;
use crate::claim::Claim;
use crate::claim::Conflict;
use crate::claim::record_claims;
use crate::frame::Frame;
use crate::ledger::Ledger;
use crate::store::Store;
use crate::system::System;
use vstd::prelude::*;

verus! {

/// The two ways a scheduling round can fail. Both are fatal for the round:
/// no system after the failing declaration is executed.
#[derive(Clone, Copy, Debug, PartialEq, Eq, Structural)]
pub enum RoundError {
    /// Two declared accesses in the round are mutually incompatible. The
    /// payload names the type identity and the two modes in conflict.
    Conflict(Conflict),
    /// A system claimed a type identity that was never registered through
    /// `add_resource` — a defect in the embedding program, not a run-time
    /// condition to recover from.
    MissingResource { key: u64 },
}

/// Whether every claimed key names a registered resource.
pub open spec fn all_keys_present(dom: Set<u64>, cs: Seq<Claim>) -> bool {
    forall|j: int| 0 <= j < cs.len() ==> dom.contains((#[trigger] cs[j]).key)
}

/// The position of the first claim whose key is not registered.
pub open spec fn first_absent(dom: Set<u64>, cs: Seq<Claim>) -> int
    decreases cs.len(),
{
    if cs.len() == 0 {
        0
    } else if !dom.contains(cs[0].key) {
        0
    } else {
        1 + first_absent(dom, cs.drop_first())
    }
}

/// The ledger and the verdict after the scheduler handles one system: the
/// system's claims are recorded left to right — stopping at the first
/// conflict — and then, only if all were granted, the claimed keys are
/// checked against the registered resources.
pub open spec fn system_step(held: Map<u64, Access>, dom: Set<u64>, cs: Seq<Claim>) -> (Map<
    u64,
    Access,
>, Option<RoundError>) {
    let rec = record_claims(held, cs);
    match rec.1 {
        Some(c) => (rec.0, Some(RoundError::Conflict(c))),
        None => if all_keys_present(dom, cs) {
            (rec.0, None)
        } else {
            (rec.0, Some(RoundError::MissingResource { key: cs[first_absent(dom, cs)].key }))
        },
    }
}

/// The outcome of one round over the systems' claim lists, in registration
/// order: the ledger as it stands when the round stops, the error that
/// stopped it (if any), and how many systems were actually executed — every
/// system before the failing one, or all of them on success.
pub open spec fn round_step(held: Map<u64, Access>, dom: Set<u64>, css: Seq<Seq<Claim>>) -> (Map<
    u64,
    Access,
>, Option<RoundError>, int)
    decreases css.len(),
{
    if css.len() == 0 {
        (held, None, 0)
    } else {
        let st = system_step(held, dom, css[0]);
        match st.1 {
            Some(e) => (st.0, Some(e), 0),
            None => {
                let rest = round_step(st.0, dom, css.drop_first());
                (rest.0, rest.1, 1 + rest.2)
            },
        }
    }
}

/// Whether one claim list claims `key` for writing.
pub open spec fn write_claimed_in(cs: Seq<Claim>, key: u64) -> bool {
    exists|j: int|
        0 <= j < cs.len() && (#[trigger] cs[j]).key == key && cs[j].mode is Write
}

/// Whether any of the first `n` systems claims `key` for writing.
pub open spec fn write_claimed_before(css: Seq<Seq<Claim>>, n: int, key: u64) -> bool {
    exists|i: int| 0 <= i < n && i < css.len() && write_claimed_in(#[trigger] css[i], key)
}

/// The position of the first absent key, when one exists, is the position
/// of the first claim whose key is not registered.
pub proof fn lemma_first_absent(dom: Set<u64>, cs: Seq<Claim>, j: int)
    requires
        0 <= j < cs.len(),
        forall|q: int| 0 <= q < j ==> dom.contains((#[trigger] cs[q]).key),
        !dom.contains(cs[j].key),
    ensures
        first_absent(dom, cs) == j,
        !all_keys_present(dom, cs),
    decreases j,
{
    if j > 0 {
        assert(dom.contains(cs[0].key));
        assert forall|q: int| 0 <= q < j - 1 implies dom.contains(
            (#[trigger] cs.drop_first()[q]).key,
        ) by {
            assert(cs.drop_first()[q] == cs[q + 1]);
        }
        assert(cs.drop_first()[j - 1] == cs[j]);
        lemma_first_absent(dom, cs.drop_first(), j - 1);
    }
}

/// A fresh copy of a claim list, for sealing into a frame.
#[verifier::loop_isolation(false)]
fn clone_claims(cs: &Vec<Claim>) -> (r: Vec<Claim>)
    ensures
        r@ == cs@,
{
    let n = cs.len();
    let mut r: Vec<Claim> = Vec::new();
    let mut i: usize = 0;
    while i < n
        invariant
            i <= n,
            r@ == cs@.take(i as int),
        decreases n - i,
    {
        r.push(cs[i]);
        proof {
            assert(cs@.take(i as int + 1) =~= cs@.take(i as int).push(cs@[i as int]));
        }
        i += 1;
    }
    proof {
        assert(cs@.take(n as int) =~= cs@);
    }
    r
}

/// The scheduler: the owner of the resource store, the round's access
/// ledger, and the ordered list of registered systems. One call to `run`
/// drives one full round.
pub struct Scheduler<V, S> {
    store: Store<V>,
    ledger: Ledger,
    systems: Vec<S>,
    claims: Vec<Vec<Claim>>,
}

impl<V, S> Scheduler<V, S> {
    /// The registered resources, by type identity.
    pub closed spec fn store_view(self) -> Map<u64, V> {
        self.store@
    }

    /// The accesses currently recorded in the round ledger.
    pub closed spec fn ledger_view(self) -> Map<u64, Access> {
        self.ledger@
    }

    /// The registered systems, in registration order.
    pub closed spec fn systems_view(self) -> Seq<S> {
        self.systems@
    }

    /// The registered systems' claim lists, in registration order.
    pub closed spec fn claims_view(self) -> Seq<Seq<Claim>> {
        self.claims@.map_values(|cs: Vec<Claim>| cs@)
    }

    /// Each registered system stands beside the claim list captured when it
    /// was registered.
    pub open spec fn wf(self) -> bool {
        self.claims_view().len() == self.systems_view().len()
    }

    /// A scheduler with no resources, no systems, and a clear ledger.
    pub fn new() -> (s: Scheduler<V, S>)
        ensures
            s.wf(),
            s.store_view() == Map::<u64, V>::empty(),
            s.ledger_view() == Map::<u64, Access>::empty(),
            s.systems_view() == Seq::<S>::empty(),
            s.claims_view() == Seq::<Seq<Claim>>::empty(),
    {
        let s = Scheduler {
            store: Store::new(),
            ledger: Ledger::new(),
            systems: Vec::new(),
            claims: Vec::new(),
        };
        proof {
            assert(s.claims_view() =~= Seq::<Seq<Claim>>::empty());
        }
        s
    }

    /// Register the sole instance of the resource type identified by `key`,
    /// replacing any earlier instance: the last write wins.
    pub fn add_resource(&mut self, key: u64, value: V)
        requires
            old(self).wf(),
        ensures
            final(self).wf(),
            final(self).store_view() == old(self).store_view().insert(key, value),
            final(self).ledger_view() == old(self).ledger_view(),
            final(self).systems_view() == old(self).systems_view(),
            final(self).claims_view() == old(self).claims_view(),
    {
        let _ = self.store.insert(key, value);
    }

    /// The resource registered under `key`, if any.
    pub fn resource(&self, key: u64) -> (r: Option<&V>)
        ensures
            match r {
                Some(v) => self.store_view().contains_key(key) && *v == self.store_view()[key],
                None => !self.store_view().contains_key(key),
            },
    {
        self.store.get(key)
    }

    /// The system registered at `index`, if any.
    pub fn system(&self, index: usize) -> (r: Option<&S>)
        ensures
            match r {
                Some(s) => index < self.systems_view().len() && *s == self.systems_view()[
                    index as int
                ],
                None => index >= self.systems_view().len(),
            },
    {
        if index < self.systems.len() {
            Some(&self.systems[index])
        } else {
            None
        }
    }

    /// How many systems are registered.
    pub fn system_count(&self) -> (n: usize)
        ensures
            n == self.systems_view().len(),
    {
        self.systems.len()
    }

    /// Whether the round ledger holds no access — true whenever no round is
    /// in progress and no round has failed.
    pub fn ledger_is_clear(&self) -> (r: bool)
        ensures
            r == (self.ledger_view() == Map::<u64, Access>::empty()),
    {
        self.ledger.is_empty()
    }
}

impl<V, S: System<V>> Scheduler<V, S> {
    /// Append a system to the round, capturing its declared claim list.
    pub fn add_system(&mut self, system: S)
        requires
            old(self).wf(),
        ensures
            final(self).wf(),
            final(self).systems_view() == old(self).systems_view().push(system),
            final(self).claims_view() == old(self).claims_view().push(system.claims()),
            final(self).store_view() == old(self).store_view(),
            final(self).ledger_view() == old(self).ledger_view(),
    {
        let cs = system.declared_claims();
        let ghost cv = cs@;
        self.claims.push(cs);
        self.systems.push(system);
        proof {
            assert(self.claims_view() =~= old(self).claims_view().push(cv));
        }
    }

    /// Execute one round: for each system in registration order, record all
    /// of its claims in the ledger — aborting the whole round at the first
    /// conflict, before anything is handed out — check that every claimed
    /// resource is registered, and only then seal the store into a frame
    /// under exactly those grants and invoke the system. The ledger spans
    /// the whole round and is cleared only when every system has run, so a
    /// successful round proves that the union of all declared accesses is
    /// mutually compatible. On failure, every system before the failing
    /// declaration has run and its writes stand; no later system runs, and
    /// the ledger keeps the accesses granted up to the failure.
    #[verifier::loop_isolation(false)]
    pub fn run(&mut self) -> (r: Result<(), RoundError>)
        requires
            old(self).wf(),
        ensures
            final(self).wf(),
            final(self).claims_view() == old(self).claims_view(),
            final(self).systems_view().len() == old(self).systems_view().len(),
            final(self).store_view().dom() == old(self).store_view().dom(),
            ({
                let outcome = round_step(
                    old(self).ledger_view(),
                    old(self).store_view().dom(),
                    old(self).claims_view(),
                );
                &&& match outcome.1 {
                    None => r is Ok && final(self).ledger_view() == Map::<u64, Access>::empty(),
                    Some(e) => r == Result::<(), RoundError>::Err(e) && final(self).ledger_view()
                        == outcome.0,
                }
                &&& forall|k: u64|
                    old(self).store_view().contains_key(k) && !write_claimed_before(
                        old(self).claims_view(),
                        outcome.2,
                        k,
                    ) ==> #[trigger] final(self).store_view()[k] == old(self).store_view()[k]
                &&& outcome.1 is Some ==> forall|q: int|
                    outcome.2 <= q < old(self).systems_view().len()
                        ==> #[trigger] final(self).systems_view()[q] == old(self).systems_view()[q]
            }),
    {
        let ghost held0 = self.ledger_view();
        let ghost dom0 = self.store_view().dom();
        let ghost css = self.claims_view();
        let ghost store0 = self.store_view();
        let ghost sys0 = self.systems_view();
        let n = self.systems.len();
        let mut i: usize = 0;
        proof {
            assert(css.skip(0) =~= css);
        }
        while i < n
            invariant
                i <= n,
                self.wf(),
                n == self.systems_view().len(),
                self.claims_view() == css,
                self.store_view().dom() == dom0,
                round_step(held0, dom0, css).0 == round_step(
                    self.ledger_view(),
                    dom0,
                    css.skip(i as int),
                ).0,
                round_step(held0, dom0, css).1 == round_step(
                    self.ledger_view(),
                    dom0,
                    css.skip(i as int),
                ).1,
                round_step(held0, dom0, css).2 == i + round_step(
                    self.ledger_view(),
                    dom0,
                    css.skip(i as int),
                ).2,
                forall|k: u64|
                    store0.contains_key(k) && !write_claimed_before(css, i as int, k)
                        ==> #[trigger] self.store_view()[k] == store0[k],
                forall|q: int| i <= q < n ==> #[trigger] self.systems_view()[q] == sys0[q],
            decreases n - i,
        {
            let ghost held_i = self.ledger_view();
            let ghost cs_i = css[i as int];
            let ghost sys_i = self.systems_view();
            let ghost store_i = self.store_view();
            proof {
                assert(css.skip(i as int)[0] == cs_i);
            }
            let cl_len = self.claims[i].len();

            // Declare: record every claim of this system in the round ledger.
            let mut j: usize = 0;
            while j < cl_len
                invariant
                    j <= cl_len,
                    self.claims_view() == css,
                    self.systems_view() == sys_i,
                    self.store_view() == store_i,
                    record_claims(held_i, cs_i.take(j as int)) == (
                        self.ledger_view(),
                        None::<Conflict>,
                    ),
                decreases cl_len - j,
            {
                let c = self.claims[i][j];
                let ghost lg = self.ledger_view();
                proof {
                    assert(c == cs_i[j as int]);
                }
                match self.ledger.record(c) {
                    Ok(()) => {
                        proof {
                            crate::claim::lemma_record_claims_concat(
                                held_i,
                                cs_i.take(j as int),
                                seq![c],
                            );
                            assert(seq![c].drop_first() =~= Seq::<Claim>::empty());
                            assert(record_claims(
                                crate::claim::grant_claim(lg, c),
                                Seq::<Claim>::empty(),
                            ) == (crate::claim::grant_claim(lg, c), None::<Conflict>));
                            assert(record_claims(lg, seq![c]) == (
                                crate::claim::grant_claim(lg, c),
                                None::<Conflict>,
                            ));
                            assert(cs_i.take(j as int + 1) =~= cs_i.take(j as int) + seq![c]);
                        }
                    },
                    Err(conflict) => {
                        proof {
                            crate::claim::lemma_record_claims_concat(
                                held_i,
                                cs_i.take(j as int),
                                cs_i.skip(j as int),
                            );
                            assert(cs_i =~= cs_i.take(j as int) + cs_i.skip(j as int));
                            assert(cs_i.skip(j as int)[0] == c);
                            assert(record_claims(held_i, cs_i) == (
                                self.ledger_view(),
                                Some(conflict),
                            ));
                            assert(round_step(held_i, dom0, css.skip(i as int)) == (
                                self.ledger_view(),
                                Some(RoundError::Conflict(conflict)),
                                0int,
                            ));
                        }
                        return Err(RoundError::Conflict(conflict));
                    },
                }
                j += 1;
            }
            proof {
                assert(cs_i.take(cl_len as int) =~= cs_i);
            }
            let ghost held_end = self.ledger_view();

            // Check that every claimed resource was registered.
            let mut j2: usize = 0;
            while j2 < cl_len
                invariant
                    j2 <= cl_len,
                    self.claims_view() == css,
                    self.systems_view() == sys_i,
                    self.store_view() == store_i,
                    self.ledger_view() == held_end,
                    forall|q: int| 0 <= q < j2 ==> dom0.contains((#[trigger] cs_i[q]).key),
                decreases cl_len - j2,
            {
                let c = self.claims[i][j2];
                proof {
                    assert(c == cs_i[j2 as int]);
                }
                if !self.store.contains_key(c.key) {
                    proof {
                        lemma_first_absent(dom0, cs_i, j2 as int);
                        assert(system_step(held_i, dom0, cs_i).1 == Some(
                            RoundError::MissingResource { key: c.key },
                        ));
                        assert(round_step(held_i, dom0, css.skip(i as int)) == (
                            held_end,
                            Some(RoundError::MissingResource { key: c.key }),
                            0int,
                        ));
                    }
                    return Err(RoundError::MissingResource { key: c.key });
                }
                j2 += 1;
            }
            proof {
                assert(all_keys_present(dom0, cs_i));
                assert(system_step(held_i, dom0, cs_i) == (held_end, None::<RoundError>));
            }

            // Materialize: seal the store under this system's grants and
            // invoke it.
            let grants = clone_claims(&self.claims[i]);
            let mut taken = Store::new();
            core::mem::swap(&mut self.store, &mut taken);
            let mut frame = Frame::new(taken, grants);
            let ghost frame0 = frame;
            let mut sys = self.systems.remove(i);
            sys.run(&mut frame);
            self.systems.insert(i, sys);
            let ghost frame1 = frame;
            self.store = frame.release();

            proof {
                assert(self.systems_view().len() == sys_i.len());
                assert(self.store_view().dom() == dom0);
                assert(css.skip(i as int).drop_first() =~= css.skip(i as int + 1));
                assert forall|q: int| i as int + 1 <= q < n implies #[trigger] self.systems_view()[q]
                    == sys0[q] by {
                    assert(self.systems_view()[q] == sys_i[q]);
                }
                assert(round_step(held_i, dom0, css.skip(i as int)).0 == round_step(
                    held_end,
                    dom0,
                    css.skip(i as int + 1),
                ).0);
                assert forall|k: u64|
                    store0.contains_key(k) && !write_claimed_before(
                        css,
                        i as int + 1,
                        k,
                    ) implies #[trigger] self.store_view()[k] == store0[k] by {
                    assert(!write_claimed_before(css, i as int, k)) by {
                        if write_claimed_before(css, i as int, k) {
                            let w = choose|w: int|
                                0 <= w < i as int && w < css.len() && write_claimed_in(css[w], k);
                            assert(0 <= w < i as int + 1 && w < css.len()
                                && write_claimed_in(css[w], k));
                        }
                    }
                    assert(store_i[k] == store0[k]);
                    assert(!frame0.write_granted(k)) by {
                        if frame0.write_granted(k) {
                            let q = choose|q: int|
                                0 <= q < frame0.grants().len() && frame0.grants()[q].key == k
                                    && frame0.grants()[q].mode is Write;
                            assert(cs_i[q].key == k && cs_i[q].mode is Write);
                            assert(write_claimed_in(css[i as int], k));
                            assert(write_claimed_before(css, i as int + 1, k));
                        }
                    }
                    assert(frame0.resources().contains_key(k));
                    assert(frame1.resources()[k] == frame0.resources()[k]);
                }
            }
            i += 1;
        }
        proof {
            assert(css.skip(n as int) =~= Seq::<Seq<Claim>>::empty());
        }
        self.ledger.clear();
        Ok(())
    }
}

impl<V, S> Default for Scheduler<V, S> {
    /// Same as `Scheduler::new`.
    fn default() -> (s: Self)
        ensures
            s.wf(),
            s.store_view() == Map::<u64, V>::empty(),
            s.ledger_view() == Map::<u64, Access>::empty(),
            s.systems_view() == Seq::<S>::empty(),
            s.claims_view() == Seq::<Seq<Claim>>::empty(),
    {
        Scheduler::new()
    }
}

} // verus!
