//! The top-level registry: named groups of machines, lazy creation on first
//! heartbeat, shutdown dispatch, and the global staleness sweep.

use vstd::prelude::*;

use crate::assoc::assoc_map;
use crate::assoc::has_key;
use crate::assoc::keys_unique;
use crate::assoc::lemma_assoc_map_contains;
use crate::assoc::lemma_assoc_map_index;
use crate::assoc::lemma_assoc_map_push;
use crate::assoc::lemma_assoc_map_update;
use crate::computer::ComputerStatus;
use crate::errors::StatusError;
use crate::group::GroupStatus;
use crate::group::group_all_requested;
use crate::group::group_has_live;
use crate::group::group_has_online;
use crate::group::group_nonempty;
use crate::group::group_snapshot_matches;
use crate::group::group_swept;
use crate::group::lemma_swept_nonempty;
use crate::state::State;

verus! {

/// The map a registry of groups denotes: each group name is sent to the map
/// its group denotes.
pub open spec fn views_of(m: Map<Seq<char>, GroupStatus>) -> Map<
    Seq<char>,
    Map<Seq<char>, ComputerStatus>,
> {
    Map::new(|k: Seq<char>| m.contains_key(k), |k: Seq<char>| m[k]@)
}

/// The registry after an entry for the pair (`g`, `c`) is made sure to exist:
/// a missing group or machine is created, with the machine freshly online as
/// of time `now`; an existing machine is left exactly as it was.
pub open spec fn spec_add_fresh(
    im: Map<Seq<char>, Map<Seq<char>, ComputerStatus>>,
    g: Seq<char>,
    c: Seq<char>,
    now: u64,
) -> Map<Seq<char>, Map<Seq<char>, ComputerStatus>> {
    let gm = if im.contains_key(g) {
        im[g]
    } else {
        Map::<Seq<char>, ComputerStatus>::empty()
    };
    let cs = if gm.contains_key(c) {
        gm[c]
    } else {
        ComputerStatus::spec_fresh(now)
    };
    im.insert(g, gm.insert(c, cs))
}

/// The registry after a heartbeat of machine `c` of group `g` at time `now`,
/// paired with the state reported to the agent. A missing group or machine is
/// created fresh, so a heartbeat never fails.
pub open spec fn spec_refresh(
    im: Map<Seq<char>, Map<Seq<char>, ComputerStatus>>,
    g: Seq<char>,
    c: Seq<char>,
    now: u64,
) -> (Map<Seq<char>, Map<Seq<char>, ComputerStatus>>, State) {
    let gm = if im.contains_key(g) {
        im[g]
    } else {
        Map::<Seq<char>, ComputerStatus>::empty()
    };
    let cs = if gm.contains_key(c) {
        gm[c]
    } else {
        ComputerStatus::spec_fresh(now)
    };
    let (cs2, st) = cs.spec_heartbeat(now);
    (im.insert(g, gm.insert(c, cs2)), st)
}

/// The registry after a single-machine shutdown request, paired with its
/// outcome: fails with `GroupNotFound` or `ComputerNotFound` when the target
/// does not exist and with `IneligibleState` when the machine is not online,
/// changing nothing in every failing case; otherwise moves exactly the target
/// machine to `ShutdownRequested`.
pub open spec fn spec_request_shutdown_computer(
    im: Map<Seq<char>, Map<Seq<char>, ComputerStatus>>,
    g: Seq<char>,
    c: Seq<char>,
) -> (Map<Seq<char>, Map<Seq<char>, ComputerStatus>>, Result<(), StatusError>) {
    if !im.contains_key(g) {
        (im, Err(StatusError::GroupNotFound))
    } else if !im[g].contains_key(c) {
        (im, Err(StatusError::ComputerNotFound))
    } else if !(im[g][c].state is Online) {
        (im, Err(StatusError::IneligibleState))
    } else {
        (im.insert(g, im[g].insert(c, im[g][c].spec_requested())), Ok(()))
    }
}

/// The registry after a group-wide shutdown request, paired with its outcome:
/// fails with `GroupNotFound` when the group does not exist and with
/// `NoEligibleMembers` when none of its machines is online, changing nothing
/// in either case; otherwise moves every online machine of the group to
/// `ShutdownRequested` in one step.
pub open spec fn spec_request_shutdown_group(
    im: Map<Seq<char>, Map<Seq<char>, ComputerStatus>>,
    g: Seq<char>,
) -> (Map<Seq<char>, Map<Seq<char>, ComputerStatus>>, Result<(), StatusError>) {
    if !im.contains_key(g) {
        (im, Err(StatusError::GroupNotFound))
    } else if !group_has_online(im[g]) {
        (im, Err(StatusError::NoEligibleMembers))
    } else {
        (im.insert(g, group_all_requested(im[g])), Ok(()))
    }
}

/// The registry after a staleness sweep at time `now`: every machine whose
/// last heartbeat is at least the threshold old is removed, and every group
/// this leaves without machines is removed in the same pass.
pub open spec fn spec_cleanup(
    im: Map<Seq<char>, Map<Seq<char>, ComputerStatus>>,
    now: u64,
) -> Map<Seq<char>, Map<Seq<char>, ComputerStatus>> {
    Map::new(
        |g: Seq<char>| im.contains_key(g) && group_has_live(im[g], now),
        |g: Seq<char>| group_swept(im[g], now),
    )
}


/// One kept entry of the sweep: the entry at some index at or past `lo` in
/// the pre-sweep registry, with its group swept and still holding a live
/// machine.
spec fn swept_origin(
    s0: Seq<(String, GroupStatus)>,
    e: (String, GroupStatus),
    lo: int,
    now: u64,
) -> bool {
    exists|l: int|
        lo <= l < s0.len() && e.0@ == (#[trigger] s0[l]).0@ && e.1@ == group_swept(s0[l].1@, now)
            && group_has_live(s0[l].1@, now)
}

/// `r` lists each group of the registry exactly once, with its name and the
/// names and states of its machines — the externally visible shape of the
/// fleet, which excludes heartbeat timestamps.
pub open spec fn snapshot_matches(
    im: Map<Seq<char>, Map<Seq<char>, ComputerStatus>>,
    r: Seq<(String, Vec<(String, State)>)>,
) -> bool {
    &&& forall|i1: int, i2: int|
        0 <= i1 < i2 < r.len() ==> (#[trigger] r[i1]).0@ != (#[trigger] r[i2]).0@
    &&& forall|i: int|
        0 <= i < r.len() ==> im.contains_key((#[trigger] r[i]).0@) && group_snapshot_matches(
            im[r[i].0@],
            r[i].1@,
        )
    &&& forall|g: Seq<char>|
        #[trigger] im.dom().contains(g) ==> exists|i: int| 0 <= i < r.len() && (#[trigger] r[i]).0@
            == g
}

/// The whole fleet: groups of machines, keyed by group name.
///
/// The registry performs no input or output and never reads a clock: callers
/// pass the current time in seconds where an operation depends on it. One
/// registry is meant to live behind a single exclusive-access guard shared by
/// all request handlers, and each operation below is one short, synchronous
/// critical section; heartbeat volume is assumed bounded by fleet size and
/// heartbeat interval, so contention on that guard stays negligible.
pub struct InfrastructureStatus {
    groups: Vec<(String, GroupStatus)>,
}

impl View for InfrastructureStatus {
    type V = Map<Seq<char>, Map<Seq<char>, ComputerStatus>>;

    closed spec fn view(&self) -> Map<Seq<char>, Map<Seq<char>, ComputerStatus>> {
        views_of(assoc_map(self.groups@))
    }
}

impl InfrastructureStatus {
    /// Group names are pairwise distinct, every group is itself well-formed,
    /// and no group is empty: a group exists exactly as long as it holds a
    /// machine.
    pub closed spec fn wf(&self) -> bool {
        &&& keys_unique(self.groups@)
        &&& forall|i: int| 0 <= i < self.groups@.len() ==> (#[trigger] self.groups@[i]).1.wf()
        &&& forall|i: int|
            0 <= i < self.groups@.len() ==> group_nonempty((#[trigger] self.groups@[i]).1@)
    }

    /// A well-formed registry never holds an empty group: a group exists
    /// exactly as long as it holds a machine.
    pub proof fn lemma_no_empty_group(&self)
        requires
            self.wf(),
        ensures
            forall|g: Seq<char>| self@.contains_key(g) ==> group_nonempty(#[trigger] self@[g]),
    {
        assert forall|g: Seq<char>| self@.contains_key(g) implies group_nonempty(
            #[trigger] self@[g],
        ) by {
            lemma_assoc_map_contains(self.groups@, g);
            let i = choose|i: int| 0 <= i < self.groups@.len() && self.groups@[i].0@ == g;
            lemma_assoc_map_index(self.groups@, i);
        }
    }

    /// The registry starts empty; heartbeats populate it.
    pub fn new() -> (r: InfrastructureStatus)
        ensures
            r.wf(),
            r@ == Map::<Seq<char>, Map<Seq<char>, ComputerStatus>>::empty(),
    {
        let r = InfrastructureStatus { groups: Vec::new() };
        proof {
            assert(r@ =~= Map::<Seq<char>, Map<Seq<char>, ComputerStatus>>::empty());
        }
        r
    }

    /// Index of the group named `name`, if any.
    fn index_of_group(&self, name: &String) -> (r: Option<usize>)
        ensures
            match r {
                Some(i) => i < self.groups@.len() && self.groups@[i as int].0@ == name@,
                None => !has_key(self.groups@, name@),
            },
    {
        let mut i: usize = 0;
        while i < self.groups.len()
            invariant
                i <= self.groups@.len(),
                forall|j: int| 0 <= j < i ==> (#[trigger] self.groups@[j]).0@ != name@,
            decreases self.groups@.len() - i,
        {
            if self.groups[i].0 == *name {
                return Some(i);
            }
            i = i + 1;
        }
        proof {
            if has_key(self.groups@, name@) {
                let j = choose|j: int| 0 <= j < self.groups@.len() && self.groups@[j].0@ == name@;
                assert(self.groups@[j].0@ != name@);
            }
        }
        None
    }

    /// Looks up the group named `group_name` for in-place use, failing with
    /// `GroupNotFound` if no group of that name exists.
    pub fn get_mut_group_status(&mut self, group_name: &String) -> (r: Result<
        &mut GroupStatus,
        StatusError,
    >)
        requires
            old(self).wf(),
        ensures
            match r {
                Ok(g) => old(self)@.contains_key(group_name@) && g.wf() && g@ == old(
                    self,
                )@[group_name@] && group_nonempty(g@) && final(self)@ == old(self)@.insert(
                    group_name@,
                    final(g)@,
                ) && (final(g).wf() && group_nonempty(final(g)@) ==> final(self).wf()),
                Err(e) => e == StatusError::GroupNotFound && !old(self)@.contains_key(group_name@)
                    && *final(self) == *old(self),
            },
    {
        proof {
            lemma_assoc_map_contains(self.groups@, group_name@);
        }
        match self.index_of_group(group_name) {
            Some(i) => {
                proof {
                    let s = self.groups@;
                    lemma_assoc_map_index(s, i as int);
                    assert forall|v: GroupStatus|
                        {
                            let s2 = #[trigger] s.update(i as int, (s[i as int].0, v));
                            &&& keys_unique(s2)
                            &&& views_of(assoc_map(s2)) == views_of(assoc_map(s)).insert(
                                s[i as int].0@,
                                v@,
                            )
                            &&& (v.wf() && group_nonempty(v@)) ==> (forall|j: int|
                                0 <= j < s2.len() ==> (#[trigger] s2[j]).1.wf() && group_nonempty(
                                    s2[j].1@,
                                ))
                        } by {
                        lemma_assoc_map_update(s, i as int, v);
                        let s2 = s.update(i as int, (s[i as int].0, v));
                        assert(views_of(assoc_map(s2)) =~= views_of(assoc_map(s)).insert(
                            s[i as int].0@,
                            v@,
                        ));
                        if v.wf() && group_nonempty(v@) {
                            assert forall|j: int|
                                0 <= j < s2.len() implies (#[trigger] s2[j]).1.wf()
                                && group_nonempty(s2[j].1@) by {
                                if j != i as int {
                                    assert(s2[j] == s[j]);
                                }
                            }
                        }
                    }
                }
                Ok(&mut self.groups[i].1)
            },
            None => Err(StatusError::GroupNotFound),
        }
    }

    /// Makes sure an entry for (`group_name`, `computer_name`) exists,
    /// creating the group and the machine as needed; a machine created here
    /// starts fresh and online as of time `now`, and an existing machine is
    /// left untouched. Idempotent.
    pub fn add_fresh(&mut self, group_name: &String, computer_name: &String, now: u64)
        requires
            old(self).wf(),
        ensures
            final(self).wf(),
            final(self)@ == spec_add_fresh(old(self)@, group_name@, computer_name@, now),
    {
        proof {
            if self@.contains_key(group_name@) && self@[group_name@].contains_key(
                computer_name@,
            ) {
                assert(self@[group_name@].insert(
                    computer_name@,
                    self@[group_name@][computer_name@],
                ) =~= self@[group_name@]);
            }
            assert forall|gm: Map<Seq<char>, ComputerStatus>|
                group_nonempty(
                    #[trigger] gm.insert(computer_name@, ComputerStatus::spec_fresh(now)),
                ) by {
                assert(gm.insert(computer_name@, ComputerStatus::spec_fresh(now)).dom().contains(
                    computer_name@,
                ));
            }
        }
        match self.get_mut_group_status(group_name) {
            Ok(g) => {
                g.add_fresh(computer_name, now);
            },
            Err(_) => {
                let mut g = GroupStatus::new();
                g.add_fresh(computer_name, now);
                let name = group_name.clone();
                proof {
                    let s = self.groups@;
                    lemma_assoc_map_contains(s, name@);
                    lemma_assoc_map_push(s, name, g);
                    assert(views_of(assoc_map(s.push((name, g)))) =~= views_of(
                        assoc_map(s),
                    ).insert(name@, g@));
                    assert(g@.dom().contains(computer_name@));
                    assert forall|j: int|
                        0 <= j < s.push((name, g)).len() implies (#[trigger] s.push(
                        (name, g),
                    )[j]).1.wf() && group_nonempty(s.push((name, g))[j].1@) by {
                        if j < s.len() {
                            assert(s.push((name, g))[j] == s[j]);
                        }
                    }
                }
                self.groups.push((name, g));
            },
        }
        proof {
            assert(self@ =~= spec_add_fresh(old(self)@, group_name@, computer_name@, now));
        }
    }

    /// Looks up the machine named `computer_name` inside the group named
    /// `group_name` for in-place use, failing with `GroupNotFound` or
    /// `ComputerNotFound` when the target does not exist.
    pub fn get_mut_computer_status(&mut self, group_name: &String, computer_name: &String) -> (r:
        Result<&mut ComputerStatus, StatusError>)
        requires
            old(self).wf(),
        ensures
            match r {
                Ok(c) => old(self)@.contains_key(group_name@) && old(
                    self,
                )@[group_name@].contains_key(computer_name@) && *c
                    == old(self)@[group_name@][computer_name@] && final(self)@ == old(
                    self,
                )@.insert(
                    group_name@,
                    old(self)@[group_name@].insert(computer_name@, *final(c)),
                ) && final(self).wf(),
                Err(e) => final(self)@ == old(self)@ && final(self).wf() && ((e
                    == StatusError::GroupNotFound && !old(self)@.contains_key(group_name@)) || (e
                    == StatusError::ComputerNotFound && old(self)@.contains_key(group_name@)
                    && !old(self)@[group_name@].contains_key(computer_name@))),
            },
    {
        proof {
            if self@.contains_key(group_name@) {
                assert(self@.insert(group_name@, self@[group_name@]) =~= self@);
            }
        }
        match self.get_mut_group_status(group_name) {
            Ok(g) => g.get_mut_computer_status(computer_name),
            Err(e) => Err(e),
        }
    }

    /// Answers the heartbeat of machine `computer_name` of group `group_name`
    /// at time `now`: creates the pair if it is unknown, refreshes its
    /// timestamp, and returns the state the agent must act on. A pending
    /// shutdown request moves to `ShutdownAccepted` as a side effect of being
    /// observed, while this very call still reports `ShutdownRequested`.
    /// Never fails: unrecognized names simply bootstrap a fresh online entry.
    pub fn refresh(&mut self, group_name: &String, computer_name: &String, now: u64) -> (r: State)
        requires
            old(self).wf(),
        ensures
            final(self).wf(),
            final(self)@ == spec_refresh(old(self)@, group_name@, computer_name@, now).0,
            r == spec_refresh(old(self)@, group_name@, computer_name@, now).1,
    {
        match self.get_mut_computer_status(group_name, computer_name) {
            Ok(c) => {
                c.update_pong_date(now);
                if c.should_shutdown() {
                    c.accept_shutdown();
                    State::ShutdownRequested
                } else {
                    let current = c.state;
                    current
                }
            },
            Err(_) => {
                self.add_fresh(group_name, computer_name, now);
                State::Online
            },
        }
    }

    /// Requests the shutdown of one machine: fails with `GroupNotFound` or
    /// `ComputerNotFound` when the target does not exist and with
    /// `IneligibleState` when the machine is not online, changing nothing in
    /// every failing case.
    pub fn request_shutdown_computer(&mut self, group_name: &String, computer_name: &String) -> (r:
        Result<(), StatusError>)
        requires
            old(self).wf(),
        ensures
            final(self).wf(),
            final(self)@ == spec_request_shutdown_computer(
                old(self)@,
                group_name@,
                computer_name@,
            ).0,
            r == spec_request_shutdown_computer(old(self)@, group_name@, computer_name@).1,
    {
        proof {
            if self@.contains_key(group_name@) {
                let gm = self@[group_name@];
                assert(self@.insert(group_name@, gm) =~= self@);
                if gm.contains_key(computer_name@) {
                    assert(gm.insert(computer_name@, gm[computer_name@]) =~= gm);
                }
            }
        }
        match self.get_mut_computer_status(group_name, computer_name) {
            Ok(c) => c.request_shutdown(),
            Err(e) => Err(e),
        }
    }

    /// Requests the shutdown of every online machine of a group in one step:
    /// fails with `GroupNotFound` when the group does not exist and with
    /// `NoEligibleMembers` when none of its machines is online, changing
    /// nothing in either case.
    pub fn request_shutdown_group(&mut self, group_name: &String) -> (r: Result<(), StatusError>)
        requires
            old(self).wf(),
        ensures
            final(self).wf(),
            final(self)@ == spec_request_shutdown_group(old(self)@, group_name@).0,
            r == spec_request_shutdown_group(old(self)@, group_name@).1,
    {
        proof {
            if self@.contains_key(group_name@) {
                assert(self@.insert(group_name@, self@[group_name@]) =~= self@);
                if group_nonempty(self@[group_name@]) {
                    let w = choose|k: Seq<char>| self@[group_name@].dom().contains(k);
                    assert(group_all_requested(self@[group_name@]).dom().contains(w));
                }
            }
        }
        let r = match self.get_mut_group_status(group_name) {
            Ok(g) => g.request_shutdown(),
            Err(e) => Err(e),
        };
        proof {
            let s = spec_request_shutdown_group(old(self)@, group_name@).1;
            match r {
                Ok(u) => {
                    assert(s is Ok && u == s->Ok_0);
                },
                Err(e) => {
                    assert(s is Err && e == s->Err_0);
                },
            }
        }
        r
    }

    /// The staleness sweep at time `now`: first evicts, in every group, the
    /// machines that have not heartbeated within the threshold, then removes
    /// every group this leaves without machines — in that order, so a group
    /// that becomes empty in this pass is removed in the same pass.
    pub fn cleanup(&mut self, now: u64)
        requires
            old(self).wf(),
        ensures
            final(self).wf(),
            final(self)@ == spec_cleanup(old(self)@, now),
    {
        let ghost s0 = self.groups@;
        let mut kept: Vec<(String, GroupStatus)> = Vec::new();
        proof {
            assert(self.groups@ =~= s0.subrange(0, s0.len() as int));
        }
        while self.groups.len() != 0
            invariant
                keys_unique(s0),
                forall|l: int| 0 <= l < s0.len() ==> (#[trigger] s0[l]).1.wf(),
                self.groups@.len() <= s0.len(),
                self.groups@ == s0.subrange(0, self.groups@.len() as int),
                keys_unique(kept@),
                forall|j: int| 0 <= j < kept@.len() ==> (#[trigger] kept@[j]).1.wf(),
                forall|j: int| 0 <= j < kept@.len() ==> group_nonempty((#[trigger] kept@[j]).1@),
                forall|j: int|
                    0 <= j < kept@.len() ==> swept_origin(
                        s0,
                        #[trigger] kept@[j],
                        self.groups@.len() as int,
                        now,
                    ),
                forall|l: int|
                    self.groups@.len() <= l < s0.len() && group_has_live(
                        (#[trigger] s0[l]).1@,
                        now,
                    ) ==> has_key(kept@, s0[l].0@),
            decreases self.groups@.len(),
        {
            let ghost rem0: int = self.groups@.len() as int;
            match self.groups.pop() {
                Some(entry) => {
                    let (name, mut g) = entry;
                    proof {
                        assert(self.groups@ =~= s0.subrange(0, rem0 - 1));
                        assert(g == s0[rem0 - 1].1);
                        assert(name@ == s0[rem0 - 1].0@);
                    }
                    g.cleanup(now);
                    proof {
                        lemma_swept_nonempty(s0[rem0 - 1].1@, now);
                    }
                    if g.has_members() {
                        proof {
                            if has_key(kept@, name@) {
                                let j = choose|j: int|
                                    0 <= j < kept@.len() && kept@[j].0@ == name@;
                                let l = choose|l: int|
                                    rem0 <= l < s0.len() && kept@[j].0@ == (#[trigger] s0[l]).0@
                                        && kept@[j].1@ == group_swept(s0[l].1@, now)
                                        && group_has_live(s0[l].1@, now);
                                assert(s0[rem0 - 1].0@ == s0[l].0@);
                            }
                        }
                        let ghost kold: Seq<(String, GroupStatus)> = kept@;
                        kept.push((name, g));
                        proof {
                            let k2 = kept@;
                            assert forall|l: int|
                                rem0 - 1 <= l < s0.len() && group_has_live(
                                    (#[trigger] s0[l]).1@,
                                    now,
                                ) implies has_key(k2, s0[l].0@) by {
                                if l == rem0 - 1 {
                                    assert(k2[k2.len() - 1].0@ == s0[l].0@);
                                } else {
                                    let j = choose|j: int|
                                        0 <= j < kold.len() && kold[j].0@ == s0[l].0@;
                                    assert(k2[j].0@ == s0[l].0@);
                                }
                            }
                            assert forall|j: int|
                                0 <= j < k2.len() implies swept_origin(
                                s0,
                                #[trigger] k2[j],
                                rem0 - 1,
                                now,
                            ) by {
                                if j == k2.len() - 1 {
                                    assert(rem0 - 1 <= rem0 - 1 < s0.len() && k2[j].0@ == s0[rem0
                                        - 1].0@ && k2[j].1@ == group_swept(s0[rem0 - 1].1@, now)
                                        && group_has_live(s0[rem0 - 1].1@, now));
                                } else {
                                    assert(k2[j] == kold[j]);
                                    assert(swept_origin(s0, kold[j], rem0, now));
                                    let l = choose|l: int|
                                        rem0 <= l < s0.len() && kold[j].0@ == (#[trigger] s0[l]).0@
                                            && kold[j].1@ == group_swept(s0[l].1@, now)
                                            && group_has_live(s0[l].1@, now);
                                    assert(rem0 - 1 <= l < s0.len() && k2[j].0@ == s0[l].0@
                                        && k2[j].1@ == group_swept(s0[l].1@, now)
                                        && group_has_live(s0[l].1@, now));
                                }
                            }
                        }
                    } else {
                        proof {
                            assert forall|j: int|
                                0 <= j < kept@.len() implies swept_origin(
                                s0,
                                #[trigger] kept@[j],
                                rem0 - 1,
                                now,
                            ) by {
                                assert(swept_origin(s0, kept@[j], rem0, now));
                                let l = choose|l: int|
                                    rem0 <= l < s0.len() && kept@[j].0@ == (#[trigger] s0[l]).0@
                                        && kept@[j].1@ == group_swept(s0[l].1@, now)
                                        && group_has_live(s0[l].1@, now);
                                assert(rem0 - 1 <= l < s0.len() && kept@[j].0@ == s0[l].0@
                                    && kept@[j].1@ == group_swept(s0[l].1@, now)
                                    && group_has_live(s0[l].1@, now));
                            }
                        }
                    }
                },
                None => {
                    proof {
                        assert(false);
                    }
                },
            }
        }
        self.groups = kept;
        proof {
            let k1 = self.groups@;
            let im0 = views_of(assoc_map(s0));
            assert forall|k: Seq<char>|
                self@.dom().contains(k) == spec_cleanup(im0, now).dom().contains(k) by {
                lemma_assoc_map_contains(k1, k);
                lemma_assoc_map_contains(s0, k);
                if has_key(k1, k) {
                    let j = choose|j: int| 0 <= j < k1.len() && k1[j].0@ == k;
                    lemma_assoc_map_index(k1, j);
                    assert(swept_origin(s0, k1[j], 0, now));
                    let l = choose|l: int|
                        0 <= l < s0.len() && k1[j].0@ == (#[trigger] s0[l]).0@ && k1[j].1@
                            == group_swept(s0[l].1@, now) && group_has_live(s0[l].1@, now);
                    lemma_assoc_map_index(s0, l);
                } else {
                    if im0.contains_key(k) && group_has_live(im0[k], now) {
                        let l = choose|l: int| 0 <= l < s0.len() && s0[l].0@ == k;
                        lemma_assoc_map_index(s0, l);
                        assert(has_key(k1, s0[l].0@));
                    }
                }
            }
            assert forall|k: Seq<char>| self@.dom().contains(k) implies self@[k] == spec_cleanup(
                im0,
                now,
            )[k] by {
                lemma_assoc_map_contains(k1, k);
                let j = choose|j: int| 0 <= j < k1.len() && k1[j].0@ == k;
                lemma_assoc_map_index(k1, j);
                assert(swept_origin(s0, k1[j], 0, now));
                let l = choose|l: int|
                    0 <= l < s0.len() && k1[j].0@ == (#[trigger] s0[l]).0@ && k1[j].1@
                        == group_swept(s0[l].1@, now) && group_has_live(s0[l].1@, now);
                lemma_assoc_map_index(s0, l);
            }
            assert(self@ =~= spec_cleanup(old(self)@, now));
        }
    }
    /// The externally visible shape of the fleet: every group with the names
    /// and states of its machines, each exactly once. Heartbeat timestamps
    /// are excluded. Callers that report status are expected to run
    /// [`Self::cleanup`] first, so that stale machines and empty groups do
    /// not appear.
    pub fn snapshot(&self) -> (r: Vec<(String, Vec<(String, State)>)>)
        requires
            self.wf(),
        ensures
            snapshot_matches(self@, r@),
    {
        let mut r: Vec<(String, Vec<(String, State)>)> = Vec::new();
        let mut i: usize = 0;
        while i < self.groups.len()
            invariant
                self.wf(),
                i <= self.groups@.len(),
                r@.len() == i,
                forall|j: int|
                    0 <= j < i ==> (#[trigger] r@[j]).0@ == self.groups@[j].0@
                        && group_snapshot_matches(self.groups@[j].1@, r@[j].1@),
            decreases self.groups@.len() - i,
        {
            let name = self.groups[i].0.clone();
            let states = self.groups[i].1.member_states();
            r.push((name, states));
            i = i + 1;
        }
        proof {
            assert forall|j: int|
                0 <= j < r@.len() implies self@.contains_key((#[trigger] r@[j]).0@)
                && group_snapshot_matches(self@[r@[j].0@], r@[j].1@) by {
                lemma_assoc_map_index(self.groups@, j);
            }
            assert forall|g: Seq<char>| #[trigger]
                self@.dom().contains(g) implies exists|i2: int|
                0 <= i2 < r@.len() && (#[trigger] r@[i2]).0@ == g by {
                lemma_assoc_map_contains(self.groups@, g);
                let l = choose|l: int| 0 <= l < self.groups@.len() && self.groups@[l].0@ == g;
                assert(r@[l].0@ == g);
            }
        }
        r
    }
}

} // verus!
