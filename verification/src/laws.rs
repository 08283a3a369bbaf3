//! The registry's guarantees, stated and proved over the transition
//! functions that the executable operations are specified against.

use vstd::prelude::*;

use crate::computer::ComputerStatus;
use crate::errors::StatusError;
use crate::group::group_has_live;
use crate::group::group_has_online;
use crate::state::State;
use crate::state::CLEANUP_THRESHOLD_SECONDS;
use crate::infrastructure::spec_cleanup;
use crate::infrastructure::spec_refresh;
use crate::infrastructure::spec_request_shutdown_computer;
use crate::infrastructure::spec_request_shutdown_group;

verus! {

/// Every machine present both before and after a transition only ever moved
/// forward along `Online -> ShutdownRequested -> ShutdownAccepted`.
pub open spec fn states_monotonic(
    pre: Map<Seq<char>, Map<Seq<char>, ComputerStatus>>,
    post: Map<Seq<char>, Map<Seq<char>, ComputerStatus>>,
) -> bool {
    forall|g: Seq<char>, c: Seq<char>|
        #![trigger pre[g][c], post[g][c]]
        pre.contains_key(g) && pre[g].contains_key(c) && post.contains_key(g)
            && post[g].contains_key(c) ==> pre[g][c].state.spec_le(post[g][c].state)
}

/// Heartbeating an unknown (group, machine) pair always reports `Online`,
/// and the pair exists afterwards, freshly online.
pub proof fn lemma_lazy_creation(
    im: Map<Seq<char>, Map<Seq<char>, ComputerStatus>>,
    g: Seq<char>,
    c: Seq<char>,
    now: u64,
)
    requires
        !im.contains_key(g) || !im[g].contains_key(c),
    ensures
        spec_refresh(im, g, c, now).1 == State::Online,
        spec_refresh(im, g, c, now).0.contains_key(g),
        spec_refresh(im, g, c, now).0[g].contains_key(c),
        spec_refresh(im, g, c, now).0[g][c] == ComputerStatus::spec_fresh(now),
{
}

/// A heartbeat never moves any machine's state backwards.
pub proof fn lemma_refresh_monotonic(
    im: Map<Seq<char>, Map<Seq<char>, ComputerStatus>>,
    g: Seq<char>,
    c: Seq<char>,
    now: u64,
)
    ensures
        states_monotonic(im, spec_refresh(im, g, c, now).0),
{
}

/// A single-machine shutdown request never moves any machine's state
/// backwards.
pub proof fn lemma_request_computer_monotonic(
    im: Map<Seq<char>, Map<Seq<char>, ComputerStatus>>,
    g: Seq<char>,
    c: Seq<char>,
)
    ensures
        states_monotonic(im, spec_request_shutdown_computer(im, g, c).0),
{
}

/// A group-wide shutdown request never moves any machine's state backwards.
pub proof fn lemma_request_group_monotonic(
    im: Map<Seq<char>, Map<Seq<char>, ComputerStatus>>,
    g: Seq<char>,
)
    ensures
        states_monotonic(im, spec_request_shutdown_group(im, g).0),
{
}

/// A sweep never changes the state of a machine it keeps.
pub proof fn lemma_cleanup_monotonic(
    im: Map<Seq<char>, Map<Seq<char>, ComputerStatus>>,
    now: u64,
)
    ensures
        states_monotonic(im, spec_cleanup(im, now)),
{
}

/// A heartbeat reports the machine's state as of that very call, so across
/// successive heartbeats, interleaved with shutdown requests and sweeps, the
/// observed states are non-decreasing: every transition above is monotonic.
pub proof fn lemma_report_is_current_state(
    im: Map<Seq<char>, Map<Seq<char>, ComputerStatus>>,
    g: Seq<char>,
    c: Seq<char>,
    now: u64,
)
    requires
        im.contains_key(g),
        im[g].contains_key(c),
    ensures
        spec_refresh(im, g, c, now).1 == im[g][c].state,
{
}

/// Once a machine is `ShutdownRequested`, the next heartbeat still reports
/// `ShutdownRequested` — the actionable signal — while flipping the internal
/// state to `ShutdownAccepted`.
pub proof fn lemma_single_shot_acceptance(
    im: Map<Seq<char>, Map<Seq<char>, ComputerStatus>>,
    g: Seq<char>,
    c: Seq<char>,
    now: u64,
)
    requires
        im.contains_key(g),
        im[g].contains_key(c),
        im[g][c].state is ShutdownRequested,
    ensures
        spec_refresh(im, g, c, now).1 == State::ShutdownRequested,
        spec_refresh(im, g, c, now).0[g][c].state is ShutdownAccepted,
{
}

/// Once a machine is `ShutdownAccepted`, every further heartbeat reports
/// `ShutdownAccepted` and leaves the state there.
pub proof fn lemma_accepted_stable(
    im: Map<Seq<char>, Map<Seq<char>, ComputerStatus>>,
    g: Seq<char>,
    c: Seq<char>,
    now: u64,
)
    requires
        im.contains_key(g),
        im[g].contains_key(c),
        im[g][c].state is ShutdownAccepted,
    ensures
        spec_refresh(im, g, c, now).1 == State::ShutdownAccepted,
        spec_refresh(im, g, c, now).0[g][c].state is ShutdownAccepted,
{
}

/// Requesting shutdown twice on the same machine succeeds the first time and
/// fails with `IneligibleState` the second time, changing nothing the second
/// time.
pub proof fn lemma_eligibility_guard(
    im: Map<Seq<char>, Map<Seq<char>, ComputerStatus>>,
    g: Seq<char>,
    c: Seq<char>,
)
    requires
        im.contains_key(g),
        im[g].contains_key(c),
        im[g][c].state is Online,
    ensures
        spec_request_shutdown_computer(im, g, c).1 == Ok::<(), StatusError>(()),
        ({
            let im2 = spec_request_shutdown_computer(im, g, c).0;
            spec_request_shutdown_computer(im2, g, c) == (
                im2,
                Err::<(), StatusError>(StatusError::IneligibleState),
            )
        }),
{
}

/// Group fan-out: a group shutdown request succeeds exactly when some machine
/// of the group is online; it then moves every online machine to
/// `ShutdownRequested`, leaves every other machine untouched, and keeps the
/// group's membership as it was.
pub proof fn lemma_group_fan_out(
    im: Map<Seq<char>, Map<Seq<char>, ComputerStatus>>,
    g: Seq<char>,
)
    requires
        im.contains_key(g),
    ensures
        spec_request_shutdown_group(im, g).1 is Ok <==> group_has_online(im[g]),
        group_has_online(im[g]) ==> {
            let gm2 = spec_request_shutdown_group(im, g).0[g];
            &&& forall|c: Seq<char>|
                im[g].contains_key(c) <==> #[trigger] gm2.contains_key(c)
            &&& forall|c: Seq<char>|
                im[g].contains_key(c) && im[g][c].state is Online ==> (#[trigger] gm2[c])
                    == im[g][c].spec_requested()
            &&& forall|c: Seq<char>|
                im[g].contains_key(c) && !(im[g][c].state is Online) ==> (#[trigger] gm2[c])
                    == im[g][c]
        },
{
}

/// Group fan-out failure: a group where no machine is online rejects a group
/// shutdown request with `NoEligibleMembers`, and nothing changes.
pub proof fn lemma_group_fan_out_failure(
    im: Map<Seq<char>, Map<Seq<char>, ComputerStatus>>,
    g: Seq<char>,
)
    requires
        im.contains_key(g),
        !group_has_online(im[g]),
    ensures
        spec_request_shutdown_group(im, g) == (
            im,
            Err::<(), StatusError>(StatusError::NoEligibleMembers),
        ),
{
}

/// Sweep eviction and cascade: a machine whose last heartbeat is at least the
/// staleness threshold old is removed by the sweep, and a group all of whose
/// machines are that stale is removed by the same sweep call.
pub proof fn lemma_sweep_eviction(
    im: Map<Seq<char>, Map<Seq<char>, ComputerStatus>>,
    g: Seq<char>,
    c: Seq<char>,
    now: u64,
)
    requires
        im.contains_key(g),
        im[g].contains_key(c),
        im[g][c].spec_is_stale(now, CLEANUP_THRESHOLD_SECONDS),
    ensures
        spec_cleanup(im, now).contains_key(g) ==> !spec_cleanup(im, now)[g].contains_key(c),
        (forall|c2: Seq<char>| #[trigger]
            im[g].dom().contains(c2) ==> im[g][c2].spec_is_stale(
                now,
                CLEANUP_THRESHOLD_SECONDS,
            )) ==> !spec_cleanup(im, now).contains_key(g),
{
    if forall|c2: Seq<char>| #[trigger]
        im[g].dom().contains(c2) ==> im[g][c2].spec_is_stale(now, CLEANUP_THRESHOLD_SECONDS) {
        if group_has_live(im[g], now) {
            let w = choose|w: Seq<char>|
                #[trigger] im[g].dom().contains(w) && !im[g][w].spec_is_stale(
                    now,
                    CLEANUP_THRESHOLD_SECONDS,
                );
        }
    }
}

/// Running the sweep twice in a row, with no intervening heartbeats, gives
/// the same registry as running it once.
pub proof fn lemma_sweep_idempotent(
    im: Map<Seq<char>, Map<Seq<char>, ComputerStatus>>,
    now: u64,
)
    ensures
        spec_cleanup(spec_cleanup(im, now), now) == spec_cleanup(im, now),
{
    let im1 = spec_cleanup(im, now);
    assert forall|g: Seq<char>|
        im1.contains_key(g) implies #[trigger] group_has_live(im1[g], now) by {
        let w = choose|w: Seq<char>|
            #[trigger] im[g].dom().contains(w) && !im[g][w].spec_is_stale(
                now,
                CLEANUP_THRESHOLD_SECONDS,
            );
        assert(im1[g].dom().contains(w));
    }
    assert forall|g: Seq<char>|
        im1.contains_key(g) implies #[trigger] spec_cleanup(im1, now)[g] == im1[g] by {
        assert(spec_cleanup(im1, now)[g] =~= im1[g]);
    }
    assert(spec_cleanup(im1, now) =~= im1);
}

/// Requesting shutdown on a nonexistent group or machine always fails with
/// the matching not-found error, and nothing changes.
pub proof fn lemma_unknown_target(
    im: Map<Seq<char>, Map<Seq<char>, ComputerStatus>>,
    g: Seq<char>,
    c: Seq<char>,
)
    ensures
        !im.contains_key(g) ==> spec_request_shutdown_group(im, g) == (
            im,
            Err::<(), StatusError>(StatusError::GroupNotFound),
        ),
        !im.contains_key(g) ==> spec_request_shutdown_computer(im, g, c) == (
            im,
            Err::<(), StatusError>(StatusError::GroupNotFound),
        ),
        im.contains_key(g) && !im[g].contains_key(c) ==> spec_request_shutdown_computer(
            im,
            g,
            c,
        ) == (im, Err::<(), StatusError>(StatusError::ComputerNotFound)),
{
}

} // verus!
