//! The actor runtime's supervision state: live actors, their links, the
//! name registry, and the exit-signal bookkeeping that runs when an actor
//! terminates. The cooperative scheduling itself lives outside the core;
//! these transitions are what the supervisor performs on each event.

use vstd::prelude::*;

use crate::amap::{lookup, removed, AssocKey, AssocMap};

verus! {

broadcast use vstd::std_specs::vec::group_vec_axioms, vstd::seq::group_seq_axioms;

/// A monotonic actor id; `0` is reserved for the system.
pub type ActorId = u64;

impl AssocKey for u64 {
    fn key_eq(&self, other: &Self) -> (r: bool) {
        *self == *other
    }
}

/// Why an actor exited.
#[derive(Debug)]
pub enum ExitReason {
    Normal,
    Error(String),
}

/// Mathematical view of an [`ExitReason`].
pub enum ExitV {
    Normal,
    Error(Seq<char>),
}

impl View for ExitReason {
    type V = ExitV;

    open spec fn view(&self) -> ExitV {
        match self {
            ExitReason::Normal => ExitV::Normal,
            ExitReason::Error(e) => ExitV::Error(e@),
        }
    }
}

impl ExitReason {
    pub fn dup(&self) -> (r: ExitReason)
        ensures
            r@ == self@,
    {
        match self {
            ExitReason::Normal => ExitReason::Normal,
            ExitReason::Error(e) => ExitReason::Error(e.clone()),
        }
    }
}

/// The supervisor's record of one live actor.
pub struct ActorState {
    /// The actors linked to this one; exits propagate along these.
    pub links: Vec<ActorId>,
    /// The registered name, if any.
    pub named: Option<String>,
    /// Whether the actor traps exit signals instead of dying on them.
    pub trap: bool,
    /// Exit signals delivered to this actor and not yet consumed.
    pub signals: Vec<(ActorId, ExitReason)>,
}

/// Mathematical view of an [`ActorState`].
pub struct ActorV {
    pub links: Seq<ActorId>,
    pub named: Option<Seq<char>>,
    pub trap: bool,
    pub signals: Seq<(ActorId, ExitV)>,
}

impl View for ActorState {
    type V = ActorV;

    open spec fn view(&self) -> ActorV {
        ActorV {
            links: self.links@,
            named: match &self.named {
                Some(n) => Some(n@),
                None => None,
            },
            trap: self.trap,
            signals: self.signals@.map_values(|s: (ActorId, ExitReason)| (s.0, s.1@)),
        }
    }
}

/// Entries of the live-actor map.
pub type ActorsT = Seq<(ActorId, ActorV)>;

/// The supervisor state: the live actors, the name registry, and the next
/// actor id to hand out.
pub struct ActorTable {
    pub next_id: u64,
    pub actors: AssocMap<ActorId, ActorState>,
    pub named: AssocMap<String, u64>,
}

/// Every live actor's link list mentions each peer at most once.
pub open spec fn links_wf(actors: ActorsT) -> bool {
    forall|id: ActorId|
        #[trigger] lookup(actors, id) is Some ==> lookup(actors, id)->Some_0.links.no_duplicates()
}

impl ActorTable {
    /// A fresh runtime: no actors; ids start at `1`, `0` being the system.
    pub fn new() -> (r: ActorTable)
        ensures
            r.next_id == 1,
            r.actors@ == Seq::<(ActorId, ActorV)>::empty(),
            r.named@ == Seq::<(Seq<char>, u64)>::empty(),
    {
        ActorTable { next_id: 1, actors: AssocMap::new(), named: AssocMap::new() }
    }

    /// Whether any actor is still alive; the runtime's join completes when
    /// none is.
    pub fn is_done(&self) -> (r: bool)
        ensures
            r == (self.actors@.len() == 0),
    {
        self.actors.len() == 0
    }

    /// Look an actor up by registered name.
    pub fn lookup_name(&self, name: &String) -> (r: Option<ActorId>)
        ensures
            match r {
                Some(id) => lookup(self.named@, name@) == Some(id),
                None => lookup(self.named@, name@) is None,
            },
    {
        match self.named.get(name) {
            Some(id) => Some(*id),
            None => None,
        }
    }

    /// Register a name for a live actor: the actor remembers its name and
    /// the registry maps the name to it. Dead actors cannot be named.
    pub fn register(&mut self, name: &String, id: ActorId)
        ensures
            final(self).next_id == old(self).next_id,
            lookup(old(self).actors@, id) is None ==> final(self).actors@ == old(self).actors@
                && final(self).named@ == old(self).named@,
            lookup(old(self).actors@, id) matches Some(st) ==> final(self).named@ == old(
                self,
            ).named@.push((name@, id)) && final(self).actors@ == old(self).actors@.push(
                (id, ActorV { named: Some(name@), ..st }),
            ),
    {
        let found = match self.actors.get(&id) {
            Some(st) => Some(dup_actor_state(st)),
            None => None,
        };
        match found {
            None => {},
            Some(st) => {
                let st2 = ActorState {
                    links: st.links,
                    named: Some(name.clone()),
                    trap: st.trap,
                    signals: st.signals,
                };
                self.actors.insert(id, st2);
                self.named.insert(name.clone(), id);
            },
        }
    }
}

/// Deep copy of an actor record.
pub fn dup_actor_state(st: &ActorState) -> (r: ActorState)
    ensures
        r@ == st@,
{
    let mut links: Vec<ActorId> = Vec::new();
    let mut i: usize = 0;
    while i < st.links.len()
        invariant
            0 <= i <= st.links@.len(),
            links@ == st.links@.take(i as int),
        decreases st.links@.len() - i,
    {
        links.push(st.links[i]);
        proof {
            assert(links@ =~= st.links@.take(i as int + 1));
        }
        i += 1;
    }
    proof {
        assert(st.links@.take(st.links@.len() as int) =~= st.links@);
    }
    let mut signals: Vec<(ActorId, ExitReason)> = Vec::new();
    let ghost sv = st@.signals;
    let mut j: usize = 0;
    proof {
        assert(signals@.map_values(|s: (ActorId, ExitReason)| (s.0, s.1@)) =~= sv.take(0));
    }
    while j < st.signals.len()
        invariant
            0 <= j <= st.signals@.len(),
            sv == st@.signals,
            sv.len() == st.signals@.len(),
            signals@.map_values(|s: (ActorId, ExitReason)| (s.0, s.1@)) == sv.take(j as int),
        decreases st.signals@.len() - j,
    {
        let ghost prev = signals@.map_values(|s: (ActorId, ExitReason)| (s.0, s.1@));
        let e = &st.signals[j];
        proof {
            assert(sv[j as int] == (e.0, e.1@));
        }
        signals.push((e.0, e.1.dup()));
        proof {
            assert(signals@.map_values(|s: (ActorId, ExitReason)| (s.0, s.1@)) =~= prev.push(
                sv[j as int],
            ));
            assert(sv.take(j as int + 1).drop_last() =~= sv.take(j as int));
        }
        j += 1;
    }
    proof {
        assert(sv.take(sv.len() as int) =~= sv);
    }
    ActorState {
        links,
        named: match &st.named {
            Some(n) => Some(n.clone()),
            None => None,
        },
        trap: st.trap,
        signals,
    }
}

/// A link list with every occurrence of one id dropped.
pub open spec fn remove_id(links: Seq<ActorId>, id: ActorId) -> Seq<ActorId>
    decreases links.len(),
{
    if links.len() == 0 {
        links
    } else if links.last() == id {
        remove_id(links.drop_last(), id)
    } else {
        remove_id(links.drop_last(), id).push(links.last())
    }
}

/// What notifying the peers in `links[i..]` of an exit does to the actor
/// map: each live peer loses its back-reference and receives the signal.
pub open spec fn deliver(
    actors: ActorsT,
    links: Seq<ActorId>,
    i: int,
    from: ActorId,
    reason: ExitV,
) -> ActorsT
    decreases links.len() - i,
{
    if i < 0 || i >= links.len() {
        actors
    } else {
        let p = links[i];
        let actors2 = match lookup(actors, p) {
            Some(st) => actors.push(
                (
                    p,
                    ActorV {
                        links: remove_id(st.links, from),
                        signals: st.signals.push((from, reason)),
                        ..st
                    },
                ),
            ),
            None => actors,
        };
        deliver(actors2, links, i + 1, from, reason)
    }
}

impl ActorTable {
    /// Spawn an actor: a fresh id, an empty mailbox of signals, and, when
    /// spawned linked, the symmetric link to the spawning actor -- except
    /// the reserved system id `0`, which is linked one-way.
    pub fn spawn(&mut self, link_from: Option<ActorId>, trap: bool) -> (id: ActorId)
        requires
            old(self).next_id < u64::MAX,
            match link_from {
                Some(f) => f < old(self).next_id,
                None => true,
            },
        ensures
            id == old(self).next_id,
            final(self).next_id == old(self).next_id + 1,
            final(self).named@ == old(self).named@,
            ({
                let new_links = match link_from {
                    Some(f) => seq![f],
                    None => Seq::<ActorId>::empty(),
                };
                let base = old(self).actors@.push(
                    (
                        id,
                        ActorV {
                            links: new_links,
                            named: None,
                            trap,
                            signals: Seq::<(ActorId, ExitV)>::empty(),
                        },
                    ),
                );
                match link_from {
                    Some(f) => if f == 0 {
                        final(self).actors@ == base
                    } else {
                        match lookup(old(self).actors@, f) {
                            Some(st) => final(self).actors@ == base.push(
                                (f, ActorV { links: st.links.push(id), ..st }),
                            ),
                            None => final(self).actors@ == base.push(
                                (
                                    f,
                                    ActorV {
                                        links: seq![id],
                                        named: None,
                                        trap: false,
                                        signals: Seq::<(ActorId, ExitV)>::empty(),
                                    },
                                ),
                            ),
                        }
                    },
                    None => final(self).actors@ == base,
                }
            }),
    {
        let id = self.next_id;
        self.next_id = self.next_id + 1;
        let mut links: Vec<ActorId> = Vec::new();
        match link_from {
            Some(f) => {
                links.push(f);
                proof {
                    assert(links@ =~= seq![f]);
                }
            },
            None => {
                proof {
                    assert(links@ =~= Seq::<ActorId>::empty());
                }
            },
        }
        let st = ActorState { links, named: None, trap, signals: Vec::new() };
        let ghost stv = st@;
        proof {
            assert(st@.signals =~= Seq::<(ActorId, ExitV)>::empty());
        }
        let ghost pre_ins = self.actors@;
        self.actors.insert(id, st);
        proof {
            match link_from {
                Some(f) => {
                    crate::amap::lemma_lookup_push(pre_ins, id, stv, f);
                },
                None => {},
            }
        }
        match link_from {
            Some(f) => {
                if f != 0 {
                    let found = match self.actors.get(&f) {
                        Some(pst) => Some(dup_actor_state(pst)),
                        None => None,
                    };
                    match found {
                        Some(pst) => {
                            let mut pl = pst.links;
                            let ghost plv = pl@;
                            pl.push(id);
                            proof {
                                assert(pl@ =~= plv.push(id));
                            }
                            let st2 = ActorState {
                                links: pl,
                                named: pst.named,
                                trap: pst.trap,
                                signals: pst.signals,
                            };
                            self.actors.insert(f, st2);
                        },
                        None => {
                            let st2 = ActorState {
                                links: Vec::new(),
                                named: None,
                                trap: false,
                                signals: Vec::new(),
                            };
                            let mut st2 = st2;
                            st2.links.push(id);
                            proof {
                                assert(st2@.links =~= seq![id]);
                                assert(st2@.signals =~= Seq::<(ActorId, ExitV)>::empty());
                            }
                            self.actors.insert(f, st2);
                        },
                    }
                }
            },
            None => {},
        }
        id
    }

    /// An actor exited: drop its record, free its name, and notify every
    /// linked peer -- the peer loses its back-reference and receives
    /// `(id, reason)` on its signal queue.
    pub fn exit(&mut self, id: ActorId, reason: &ExitReason)
        ensures
            final(self).next_id == old(self).next_id,
            lookup(old(self).actors@, id) is None ==> final(self).actors@ == old(self).actors@
                && final(self).named@ == old(self).named@,
            lookup(old(self).actors@, id) matches Some(st) ==> final(self).actors@ == deliver(
                removed(old(self).actors@, id),
                st.links,
                0,
                id,
                reason@,
            ) && final(self).named@ == (match st.named {
                Some(n) => removed(old(self).named@, n),
                None => old(self).named@,
            }),
    {
        let st = match self.actors.get(&id) {
            None => {
                return ;
            },
            Some(st) => dup_actor_state(st),
        };
        let ghost stv = st@;
        self.actors.remove_key(&id);
        let ghost a0 = self.actors@;
        let ghost lv = stv.links;
        let ghost rv = reason@;
        let mut i: usize = 0;
        proof {
            assert(lv.len() == st.links@.len());
        }
        while i < st.links.len()
            invariant
                0 <= i <= st.links@.len(),
                lv == stv.links,
                stv == st@,
                rv == reason@,
                lv.len() == st.links@.len(),
                self.next_id == old(self).next_id,
                self.named@ == old(self).named@,
                a0 == removed(old(self).actors@, id),
                lookup(old(self).actors@, id) == Some(stv),
                deliver(a0, lv, 0, id, rv) == deliver(self.actors@, lv, i as int, id, rv),
            decreases st.links@.len() - i,
        {
            let p = st.links[i];
            proof {
                assert(lv[i as int] == p);
            }
            let ghost cur = self.actors@;
            let found = match self.actors.get(&p) {
                Some(pst) => Some(dup_actor_state(pst)),
                None => None,
            };
            match found {
                Some(pst) => {
                    let ghost pv = pst@;
                    // drop the back-reference
                    let mut nl: Vec<ActorId> = Vec::new();
                    let mut k: usize = 0;
                    proof {
                        assert(nl@ =~= remove_id(pv.links.take(0), id));
                    }
                    while k < pst.links.len()
                        invariant
                            0 <= k <= pst.links@.len(),
                            pv == pst@,
                            pv.links.len() == pst.links@.len(),
                            nl@ == remove_id(pv.links.take(k as int), id),
                        decreases pst.links@.len() - k,
                    {
                        let x = pst.links[k];
                        proof {
                            let t = pv.links.take(k as int + 1);
                            assert(t.last() == pv.links[k as int]);
                            assert(t.drop_last() =~= pv.links.take(k as int));
                        }
                        if x != id {
                            nl.push(x);
                        }
                        k += 1;
                    }
                    proof {
                        assert(pv.links.take(pv.links.len() as int) =~= pv.links);
                    }
                    let mut sg = pst.signals;
                    let ghost sgv = pv.signals;
                    sg.push((id, reason.dup()));
                    proof {
                        assert(sg@.map_values(|s: (ActorId, ExitReason)| (s.0, s.1@)) =~= sgv.push(
                            (id, rv),
                        ));
                    }
                    let st2 = ActorState { links: nl, named: pst.named, trap: pst.trap, signals: sg };
                    proof {
                        assert(st2@ == (ActorV {
                            links: remove_id(pv.links, id),
                            signals: pv.signals.push((id, rv)),
                            ..pv
                        }));
                    }
                    self.actors.insert(p, st2);
                    proof {
                        assert(deliver(cur, lv, i as int, id, rv) == deliver(
                            self.actors@,
                            lv,
                            i as int + 1,
                            id,
                            rv,
                        ));
                    }
                },
                None => {
                    proof {
                        assert(deliver(cur, lv, i as int, id, rv) == deliver(
                            self.actors@,
                            lv,
                            i as int + 1,
                            id,
                            rv,
                        ));
                    }
                },
            }
            i += 1;
        }
        proof {
            assert(deliver(a0, lv, 0, id, rv) == self.actors@);
        }
        match &st.named {
            Some(n) => {
                self.named.remove_key(n);
            },
            None => {},
        }
    }

    /// Take the oldest undelivered exit signal of an actor, if any.
    pub fn take_signal(&mut self, id: ActorId) -> (r: Option<(ActorId, ExitReason)>)
        ensures
            final(self).next_id == old(self).next_id,
            final(self).named@ == old(self).named@,
            match lookup(old(self).actors@, id) {
                None => r is None && final(self).actors@ == old(self).actors@,
                Some(st) => if st.signals.len() == 0 {
                    r is None && final(self).actors@ == old(self).actors@
                } else {
                    r matches Some(s) && (s.0, s.1@) == st.signals[0] && final(self).actors@
                        == old(self).actors@.push(
                        (id, ActorV { signals: st.signals.drop_first(), ..st }),
                    )
                },
            },
    {
        let found = match self.actors.get(&id) {
            Some(st) => Some(dup_actor_state(st)),
            None => None,
        };
        match found {
            None => None,
            Some(st) => {
                let ghost stv = st@;
                if st.signals.len() == 0 {
                    None
                } else {
                    let mut sg = st.signals;
                    let s = sg.remove(0);
                    proof {
                        assert((s.0, s.1@) == stv.signals[0]);
                        assert(sg@.map_values(|x: (ActorId, ExitReason)| (x.0, x.1@))
                            =~= stv.signals.drop_first());
                    }
                    let st2 = ActorState {
                        links: st.links,
                        named: st.named,
                        trap: st.trap,
                        signals: sg,
                    };
                    self.actors.insert(id, st2);
                    Some(s)
                }
            },
        }
    }
}

/// Notifying the peers of an exit delivers the signal to a linked live
/// peer exactly once, and touches nobody else.
pub proof fn lemma_exit_signal_delivered(
    actors: ActorsT,
    links: Seq<ActorId>,
    i: int,
    from: ActorId,
    reason: ExitV,
    p: ActorId,
)
    requires
        links.no_duplicates(),
        0 <= i <= links.len(),
    ensures
        (exists|j: int| i <= j < links.len() && links[j] == p) && lookup(actors, p) is Some
            ==> lookup(deliver(actors, links, i, from, reason), p) == Some(
            ActorV {
                links: remove_id(lookup(actors, p)->Some_0.links, from),
                signals: lookup(actors, p)->Some_0.signals.push((from, reason)),
                ..lookup(actors, p)->Some_0
            },
        ),
        !(exists|j: int| i <= j < links.len() && links[j] == p) ==> lookup(
            deliver(actors, links, i, from, reason),
            p,
        ) == lookup(actors, p),
    decreases links.len() - i,
{
    if i < links.len() {
        let q = links[i];
        let actors2 = match lookup(actors, q) {
            Some(st) => actors.push(
                (
                    q,
                    ActorV {
                        links: remove_id(st.links, from),
                        signals: st.signals.push((from, reason)),
                        ..st
                    },
                ),
            ),
            None => actors,
        };
        lemma_exit_signal_delivered(actors2, links, i + 1, from, reason, p);
        if q == p {
            // no later occurrence of `p`: the recursive part leaves it alone
            assert(!(exists|j: int| i + 1 <= j < links.len() && links[j] == p)) by {
                if exists|j: int| i + 1 <= j < links.len() && links[j] == p {
                    let j = choose|j: int| i + 1 <= j < links.len() && links[j] == p;
                    assert(links[i] == links[j]);
                    assert(false);
                }
            }
            match lookup(actors, p) {
                Some(st) => {
                    crate::amap::lemma_lookup_push(
                        actors,
                        p,
                        ActorV {
                            links: remove_id(st.links, from),
                            signals: st.signals.push((from, reason)),
                            ..st
                        },
                        p,
                    );
                },
                None => {},
            }
        } else {
            match lookup(actors, q) {
                Some(st) => {
                    crate::amap::lemma_lookup_push(
                        actors,
                        q,
                        ActorV {
                            links: remove_id(st.links, from),
                            signals: st.signals.push((from, reason)),
                            ..st
                        },
                        p,
                    );
                },
                None => {},
            }
        }
    }
}

/// Freeing a name on exit makes later lookups miss: the registry holds no
/// binding for the freed name.
pub proof fn lemma_name_freed_on_exit(named: Seq<(Seq<char>, u64)>, n: Seq<char>)
    ensures
        lookup(removed(named, n), n) is None,
{
    crate::amap::lemma_lookup_removed(named, n, n);
}

} // verus!
