//! A named collection of machines: group-wide shutdown fan-out and the
//! per-group staleness sweep.

use vstd::prelude::*;

use crate::assoc::assoc_map;
use crate::assoc::has_key;
use crate::assoc::keys_unique;
use crate::assoc::lemma_assoc_map_contains;
use crate::assoc::lemma_assoc_map_index;
use crate::assoc::lemma_assoc_map_len;
use crate::assoc::lemma_assoc_map_push;
use crate::assoc::lemma_assoc_map_update;
use crate::computer::ComputerStatus;
use crate::errors::StatusError;
use crate::state::State;
use crate::state::CLEANUP_THRESHOLD_SECONDS;

verus! {

/// Some machine of the group is online, and so eligible for shutdown.
pub open spec fn group_has_online(gm: Map<Seq<char>, ComputerStatus>) -> bool {
    exists|k: Seq<char>| #[trigger] gm.dom().contains(k) && gm[k].state is Online
}

/// The group after a group-wide shutdown request: every online machine moves
/// to `ShutdownRequested`, every other machine is left untouched.
pub open spec fn group_all_requested(gm: Map<Seq<char>, ComputerStatus>) -> Map<
    Seq<char>,
    ComputerStatus,
> {
    Map::new(
        |k: Seq<char>| gm.contains_key(k),
        |k: Seq<char>|
            if gm[k].state is Online {
                gm[k].spec_requested()
            } else {
                gm[k]
            },
    )
}

/// The group holds at least one machine.
pub open spec fn group_nonempty(gm: Map<Seq<char>, ComputerStatus>) -> bool {
    exists|k: Seq<char>| gm.dom().contains(k)
}

/// Some machine of the group heartbeated within the staleness threshold as of
/// time `now`, so the group survives a sweep at that time.
pub open spec fn group_has_live(gm: Map<Seq<char>, ComputerStatus>, now: u64) -> bool {
    exists|k: Seq<char>| #[trigger] gm.dom().contains(k) && !gm[k].spec_is_stale(
        now,
        CLEANUP_THRESHOLD_SECONDS,
    )
}

/// The group after a staleness sweep at time `now`: exactly the machines that
/// heartbeated within the threshold remain, unchanged.
pub open spec fn group_swept(gm: Map<Seq<char>, ComputerStatus>, now: u64) -> Map<
    Seq<char>,
    ComputerStatus,
> {
    Map::new(
        |k: Seq<char>| gm.contains_key(k) && !gm[k].spec_is_stale(
            now,
            CLEANUP_THRESHOLD_SECONDS,
        ),
        |k: Seq<char>| gm[k],
    )
}

/// `s` lists each machine of the group exactly once, with its name and its
/// current state — and nothing else, in particular not its heartbeat
/// timestamp.
pub open spec fn group_snapshot_matches(
    gm: Map<Seq<char>, ComputerStatus>,
    s: Seq<(String, State)>,
) -> bool {
    &&& forall|j1: int, j2: int|
        0 <= j1 < j2 < s.len() ==> (#[trigger] s[j1]).0@ != (#[trigger] s[j2]).0@
    &&& forall|j: int|
        0 <= j < s.len() ==> gm.contains_key((#[trigger] s[j]).0@) && s[j].1 == gm[s[j].0@].state
    &&& forall|k: Seq<char>|
        #[trigger] gm.dom().contains(k) ==> exists|j: int| 0 <= j < s.len() && (#[trigger] s[j]).0@
            == k
}

/// A swept group keeps a machine exactly when some machine of it heartbeated
/// within the staleness threshold.
pub proof fn lemma_swept_nonempty(gm: Map<Seq<char>, ComputerStatus>, now: u64)
    ensures
        group_nonempty(group_swept(gm, now)) == group_has_live(gm, now),
{
    if group_has_live(gm, now) {
        let k = choose|k: Seq<char>|
            #[trigger] gm.dom().contains(k) && !gm[k].spec_is_stale(
                now,
                CLEANUP_THRESHOLD_SECONDS,
            );
        assert(group_swept(gm, now).dom().contains(k));
    }
    if group_nonempty(group_swept(gm, now)) {
        let k = choose|k: Seq<char>| group_swept(gm, now).dom().contains(k);
        assert(gm.dom().contains(k) && !gm[k].spec_is_stale(now, CLEANUP_THRESHOLD_SECONDS));
    }
}

/// The machines of one group, keyed by their names.
pub struct GroupStatus {
    members: Vec<(String, ComputerStatus)>,
}

impl View for GroupStatus {
    type V = Map<Seq<char>, ComputerStatus>;

    closed spec fn view(&self) -> Map<Seq<char>, ComputerStatus> {
        assoc_map(self.members@)
    }
}

impl GroupStatus {
    /// The machine names stored are pairwise distinct, so the group really is
    /// a map from machine name to machine entry.
    pub closed spec fn wf(&self) -> bool {
        keys_unique(self.members@)
    }

    /// A group starts with no machines; its first heartbeat fills it.
    pub fn new() -> (r: GroupStatus)
        ensures
            r.wf(),
            r@ == Map::<Seq<char>, ComputerStatus>::empty(),
    {
        GroupStatus { members: Vec::new() }
    }

    /// Index of the machine named `name`, if any.
    fn index_of(&self, name: &String) -> (r: Option<usize>)
        ensures
            match r {
                Some(i) => i < self.members@.len() && self.members@[i as int].0@ == name@,
                None => !has_key(self.members@, name@),
            },
    {
        let mut i: usize = 0;
        while i < self.members.len()
            invariant
                i <= self.members@.len(),
                forall|j: int| 0 <= j < i ==> (#[trigger] self.members@[j]).0@ != name@,
            decreases self.members@.len() - i,
        {
            if self.members[i].0 == *name {
                return Some(i);
            }
            i = i + 1;
        }
        proof {
            if has_key(self.members@, name@) {
                let j = choose|j: int|
                    0 <= j < self.members@.len() && self.members@[j].0@ == name@;
                assert(self.members@[j].0@ != name@);
            }
        }
        None
    }

    /// Inserts a fresh online machine named `computer_name`, first heartbeated
    /// at time `now`, if none of that name exists; otherwise does nothing.
    /// Idempotent.
    pub fn add_fresh(&mut self, computer_name: &String, now: u64)
        requires
            old(self).wf(),
        ensures
            final(self).wf(),
            old(self)@.contains_key(computer_name@) ==> *final(self) == *old(self),
            !old(self)@.contains_key(computer_name@) ==> final(self)@ == old(self)@.insert(
                computer_name@,
                ComputerStatus::spec_fresh(now),
            ),
    {
        proof {
            lemma_assoc_map_contains(self.members@, computer_name@);
        }
        match self.index_of(computer_name) {
            Some(_) => {},
            None => {
                let name = computer_name.clone();
                let entry = ComputerStatus::new(now);
                proof {
                    lemma_assoc_map_push(self.members@, name, entry);
                }
                self.members.push((name, entry));
            },
        }
    }

    /// Whether any machine of the group is online: the guard of a group-wide
    /// shutdown request.
    pub fn may_request_shutdown(&self) -> (r: bool)
        requires
            self.wf(),
        ensures
            r == group_has_online(self@),
    {
        let mut i: usize = 0;
        while i < self.members.len()
            invariant
                self.wf(),
                i <= self.members@.len(),
                forall|j: int| 0 <= j < i ==> !((#[trigger] self.members@[j]).1.state is Online),
            decreases self.members@.len() - i,
        {
            if self.members[i].1.may_request_shutdown() {
                proof {
                    lemma_assoc_map_index(self.members@, i as int);
                }
                return true;
            }
            i = i + 1;
        }
        proof {
            assert forall|k: Seq<char>| self@.dom().contains(k) implies !(
            self@[k].state is Online) by {
                lemma_assoc_map_contains(self.members@, k);
                let j = choose|j: int| 0 <= j < self.members@.len() && self.members@[j].0@ == k;
                lemma_assoc_map_index(self.members@, j);
            }
        }
        false
    }

    /// Requests the shutdown of every online machine of the group in one
    /// step. Succeeds exactly when at least one machine is online; otherwise
    /// fails with `NoEligibleMembers` and changes nothing.
    pub fn request_shutdown(&mut self) -> (r: Result<(), StatusError>)
        requires
            old(self).wf(),
        ensures
            final(self).wf(),
            r is Ok <==> group_has_online(old(self)@),
            r is Ok ==> final(self)@ == group_all_requested(old(self)@),
            r is Err ==> r == Err::<(), StatusError>(StatusError::NoEligibleMembers)
                && *final(self) == *old(self),
    {
        if !self.may_request_shutdown() {
            return Err(StatusError::NoEligibleMembers);
        }
        let ghost s0 = self.members@;
        let mut i: usize = 0;
        while i < self.members.len()
            invariant
                keys_unique(s0),
                i <= s0.len(),
                self.members@.len() == s0.len(),
                forall|j: int| 0 <= j < s0.len() ==> (#[trigger] self.members@[j]).0 == s0[j].0,
                forall|j: int|
                    0 <= j < i ==> (#[trigger] self.members@[j]).1 == (
                    if s0[j].1.state is Online {
                        s0[j].1.spec_requested()
                    } else {
                        s0[j].1
                    }),
                forall|j: int| i <= j < s0.len() ==> (#[trigger] self.members@[j]).1 == s0[j].1,
            decreases s0.len() - i,
        {
            if self.members[i].1.may_request_shutdown() {
                let _ = self.members[i].1.request_shutdown();
            }
            i = i + 1;
        }
        proof {
            let s1 = self.members@;
            assert forall|a: int, b: int| 0 <= a < b < s1.len() implies s1[a].0@ != s1[b].0@ by {
                assert(s0[a].0@ != s0[b].0@);
            }
            let m0 = assoc_map(s0);
            let m1 = assoc_map(s1);
            assert(m1 =~= group_all_requested(m0)) by {
                assert forall|k: Seq<char>|
                    m1.contains_key(k) == m0.contains_key(k) by {
                    lemma_assoc_map_contains(s0, k);
                    lemma_assoc_map_contains(s1, k);
                    if has_key(s0, k) {
                        let j = choose|j: int| 0 <= j < s0.len() && s0[j].0@ == k;
                        assert(s1[j].0@ == k);
                    }
                    if has_key(s1, k) {
                        let j = choose|j: int| 0 <= j < s1.len() && s1[j].0@ == k;
                        assert(s0[j].0@ == k);
                    }
                }
                assert forall|k: Seq<char>| m0.contains_key(k) implies m1[k] == (
                if m0[k].state is Online {
                    m0[k].spec_requested()
                } else {
                    m0[k]
                }) by {
                    lemma_assoc_map_contains(s0, k);
                    let j = choose|j: int| 0 <= j < s0.len() && s0[j].0@ == k;
                    lemma_assoc_map_index(s0, j);
                    lemma_assoc_map_index(s1, j);
                }
            }
        }
        Ok(())
    }

    /// Whether the group still holds any machine. A group with none is
    /// considered non-existent and is removed by the sweep.
    pub fn has_members(&self) -> (r: bool)
        requires
            self.wf(),
        ensures
            r == (self@.len() != 0),
            r == group_nonempty(self@),
            self@.dom().finite(),
    {
        proof {
            lemma_assoc_map_len(self.members@);
            if self.members@.len() != 0 {
                lemma_assoc_map_index(self.members@, 0);
            }
        }
        self.members.len() != 0
    }

    /// Looks up the machine named `computer_name` for in-place use, failing
    /// with `ComputerNotFound` if the group holds no machine of that name.
    pub fn get_mut_computer_status(&mut self, computer_name: &String) -> (r: Result<
        &mut ComputerStatus,
        StatusError,
    >)
        requires
            old(self).wf(),
        ensures
            match r {
                Ok(c) => old(self)@.contains_key(computer_name@) && *c == old(self)@[computer_name@]
                    && final(self)@ == old(self)@.insert(computer_name@, *final(c))
                    && final(self).wf() && final(self)@.dom() == old(self)@.dom(),
                Err(e) => e == StatusError::ComputerNotFound && !old(self)@.contains_key(
                    computer_name@,
                ) && *final(self) == *old(self),
            },
    {
        proof {
            lemma_assoc_map_contains(self.members@, computer_name@);
        }
        match self.index_of(computer_name) {
            Some(i) => {
                proof {
                    let s = self.members@;
                    lemma_assoc_map_index(s, i as int);
                    assert forall|v: ComputerStatus|
                        keys_unique(#[trigger] s.update(i as int, (s[i as int].0, v)))
                            && assoc_map(s.update(i as int, (s[i as int].0, v))) == assoc_map(
                            s,
                        ).insert(s[i as int].0@, v) && assoc_map(s).insert(
                            s[i as int].0@,
                            v,
                        ).dom() == assoc_map(s).dom() by {
                        lemma_assoc_map_update(s, i as int, v);
                        assert(assoc_map(s).insert(s[i as int].0@, v).dom() =~= assoc_map(
                            s,
                        ).dom());
                    }
                }
                Ok(&mut self.members[i].1)
            },
            None => Err(StatusError::ComputerNotFound),
        }
    }

    /// The name and current state of every machine of the group, each exactly
    /// once, for reporting. The heartbeat timestamps stay internal.
    pub fn member_states(&self) -> (r: Vec<(String, State)>)
        requires
            self.wf(),
        ensures
            group_snapshot_matches(self@, r@),
    {
        let mut r: Vec<(String, State)> = Vec::new();
        let mut i: usize = 0;
        while i < self.members.len()
            invariant
                self.wf(),
                i <= self.members@.len(),
                r@.len() == i,
                forall|j: int|
                    0 <= j < i ==> (#[trigger] r@[j]).0@ == self.members@[j].0@ && r@[j].1
                        == self.members@[j].1.state,
            decreases self.members@.len() - i,
        {
            let name = self.members[i].0.clone();
            let entry = self.members[i].1;
            r.push((name, entry.state));
            i = i + 1;
        }
        proof {
            assert forall|j: int|
                0 <= j < r@.len() implies self@.contains_key((#[trigger] r@[j]).0@) && r@[j].1
                == self@[r@[j].0@].state by {
                lemma_assoc_map_index(self.members@, j);
            }
            assert forall|k: Seq<char>| #[trigger]
                self@.dom().contains(k) implies exists|j: int|
                0 <= j < r@.len() && (#[trigger] r@[j]).0@ == k by {
                lemma_assoc_map_contains(self.members@, k);
                let l = choose|l: int| 0 <= l < self.members@.len() && self.members@[l].0@ == k;
                assert(r@[l].0@ == k);
            }
        }
        r
    }

    /// Removes every machine that has not heartbeated within the staleness
    /// threshold as of time `now`. The survivors are untouched.
    pub fn cleanup(&mut self, now: u64)
        requires
            old(self).wf(),
        ensures
            final(self).wf(),
            final(self)@ == group_swept(old(self)@, now),
    {
        let ghost s0 = self.members@;
        let mut kept: Vec<(String, ComputerStatus)> = Vec::new();
        let mut i: usize = 0;
        while i < self.members.len()
            invariant
                keys_unique(s0),
                i <= s0.len(),
                self.members@ == s0,
                keys_unique(kept@),
                forall|j: int|
                    0 <= j < kept@.len() ==> exists|l: int|
                        0 <= l < i && (#[trigger] kept@[j]).0@ == s0[l].0@,
                assoc_map(kept@) == group_swept(assoc_map(s0.subrange(0, i as int)), now),
            decreases s0.len() - i,
        {
            let ghost p0 = s0.subrange(0, i as int);
            let ghost p1 = s0.subrange(0, i as int + 1);
            proof {
                assert(p1.drop_last() =~= p0);
                assert(p1.last() == s0[i as int]);
            }
            if !self.members[i].1.is_stale(now, CLEANUP_THRESHOLD_SECONDS) {
                let name = self.members[i].0.clone();
                let entry = self.members[i].1;
                proof {
                    if has_key(kept@, name@) {
                        let j = choose|j: int| 0 <= j < kept@.len() && kept@[j].0@ == name@;
                        let l = choose|l: int| 0 <= l < i && kept@[j].0@ == s0[l].0@;
                        assert(s0[l].0@ == s0[i as int].0@);
                    }
                    lemma_assoc_map_push(kept@, name, entry);
                    lemma_assoc_map_contains(p0, name@);
                    if has_key(p0, name@) {
                        let l = choose|l: int| 0 <= l < p0.len() && p0[l].0@ == name@;
                        assert(s0[l].0@ == s0[i as int].0@);
                    }
                    assert(assoc_map(kept@).insert(name@, entry) =~= group_swept(
                        assoc_map(p1),
                        now,
                    ));
                }
                kept.push((name, entry));
            } else {
                proof {
                    lemma_assoc_map_contains(p0, s0[i as int].0@);
                    if has_key(p0, s0[i as int].0@) {
                        let l = choose|l: int| 0 <= l < p0.len() && p0[l].0@ == s0[i as int].0@;
                        assert(s0[l].0@ == s0[i as int].0@);
                    }
                    assert(group_swept(assoc_map(p0), now) =~= group_swept(assoc_map(p1), now));
                }
            }
            i = i + 1;
        }
        proof {
            assert(s0.subrange(0, s0.len() as int) =~= s0);
        }
        self.members = kept;
    }
}

} // verus!
