//! Replaying a window of commits on the receiving side.

use vstd::prelude::*;
use crate::group::{ExportSecret, GroupError};
use crate::group;
use crate::wire;

verus! {

/// The window starts at an epoch that the receiver cannot reach: it fell off the back of the
/// sender's commit log and cannot catch up without a full resync.
#[derive(Debug, Clone, Copy, PartialEq, Eq, Structural)]
pub struct ResyncNeeded;

impl ResyncNeeded {
    /// The error in words.
    pub fn message(&self) -> (text: &'static str)
        ensures
            text@ == "fell off the back of the commit window: gap in received epochs"@,
    {
        "fell off the back of the commit window: gap in received epochs"
    }
}

/// Why a window was not replayed to its end.
#[derive(Debug)]
pub enum CommitWindowError {
    /// There is a gap between the receiver's epoch and the window.
    ResyncNeeded,
    /// The group refused the commit of the next epoch.
    CommitRejected(GroupError),
}

impl CommitWindowError {
    /// The error in words.
    pub fn message(&self) -> (text: &'static str)
        ensures
            text@ == (match *self {
                CommitWindowError::ResyncNeeded =>
                    "fell off the back of the commit window: gap in received epochs"@,
                CommitWindowError::CommitRejected(_) => "commit rejected by the group"@,
            }),
    {
        match self {
            CommitWindowError::ResyncNeeded => ResyncNeeded.message(),
            CommitWindowError::CommitRejected(_) => "commit rejected by the group",
        }
    }
}

/// What to do with an entry of a window.
#[derive(Debug, Clone, Copy, PartialEq, Eq, Structural)]
pub enum WindowStep {
    /// The commit is applied already.
    Skip,
    /// The commit is the next one.
    Apply,
}

/// How a replay ends.
pub enum Replay {
    /// Every entry was applied or skipped.
    Complete,
    /// An entry lies beyond the next epoch.
    Gap,
    /// The group refused a commit, with this error.
    Rejected(GroupError),
}

/// The end that a result reports.
pub open spec fn replay_of(r: Result<(), CommitWindowError>) -> Replay {
    match r {
        Ok(()) => Replay::Complete,
        Err(CommitWindowError::ResyncNeeded) => Replay::Gap,
        Err(CommitWindowError::CommitRejected(e)) => Replay::Rejected(e),
    }
}

/// Whether replaying `window` can take a group from `before` in epoch `from` to `after` in epoch
/// `to`, with the end `end`. Entries of epochs already reached are skipped, the entry of the next
/// epoch is applied, and the replay stops at the first entry that is refused or lies further
/// ahead.
pub open spec fn replays<G: ExportSecret>(
    before: G,
    from: u64,
    window: Seq<(u64, Seq<u8>)>,
    after: G,
    to: u64,
    end: Replay,
) -> bool
    decreases window.len(),
{
    if window.len() == 0 {
        after == before && to == from && end == Replay::Complete
    } else {
        let (epoch, commit) = window[0];
        if epoch <= from {
            replays(before, from, window.skip(1), after, to, end)
        } else if epoch == from + 1 {
            ||| end matches Replay::Rejected(e) && G::applies(before, commit, after, Some(e)) && to
                == from
            ||| exists|next: G| #[trigger]
                G::applies(before, commit, next, None) && replays(
                    next,
                    epoch,
                    window.skip(1),
                    after,
                    to,
                    end,
                )
        } else {
            after == before && to == from && end == Replay::Gap
        }
    }
}

/// Decides on the entry of epoch `epoch` for a receiver in epoch `local_epoch`.
pub fn window_step(local_epoch: u64, epoch: u64) -> (r: Result<WindowStep, ResyncNeeded>)
    ensures
        r == (if epoch <= local_epoch {
            Ok(WindowStep::Skip)
        } else if epoch == local_epoch + 1 {
            Ok(WindowStep::Apply)
        } else {
            Err(ResyncNeeded)
        }),
{
    if epoch <= local_epoch {
        Ok(WindowStep::Skip)
    } else if epoch - local_epoch == 1 {
        Ok(WindowStep::Apply)
    } else {
        Err(ResyncNeeded)
    }
}

/// Replays a received window on a group in epoch `local_epoch`: skips what is applied already,
/// applies what follows, and stops at a gap or at a commit that the group refuses. `local_epoch`
/// counts the commits that were applied.
pub fn apply_commit_window<G: ExportSecret>(
    group: &mut G,
    window: &[(u64, Vec<u8>)],
    local_epoch: &mut u64,
) -> (r: Result<(), CommitWindowError>)
    requires
        old(group).inv(),
    ensures
        final(group).inv(),
        replays(
            *old(group),
            *old(local_epoch),
            wire::window_view(window@),
            *final(group),
            *final(local_epoch),
            replay_of(r),
        ),
{
    let ghost entries = wire::window_view(window@);
    let ghost before = *group;
    let ghost from = *local_epoch;
    let mut i: usize = 0;
    proof {
        assert(entries.skip(0) =~= entries);
    }
    while i < window.len()
        invariant
            i <= window@.len(),
            entries == wire::window_view(window@),
            group.inv(),
            before == *old(group),
            from == *old(local_epoch),
            forall|after: G, to: u64, end: Replay|
                replays(*group, *local_epoch, entries.skip(i as int), after, to, end) ==> #[trigger]
                replays(before, from, entries, after, to, end),
        decreases window@.len() - i,
    {
        let ghost rest = entries.skip(i as int);
        proof {
            assert(rest[0] == (window@[i as int].0, window@[i as int].1@));
            assert(rest.skip(1) =~= entries.skip(i + 1));
        }
        match window_step(*local_epoch, window[i].0) {
            Ok(WindowStep::Skip) => {},
            Ok(WindowStep::Apply) => {
                let ghost current = *group;
                match group.apply_commit(window[i].1.as_slice()) {
                    Ok(()) => {
                        assert(G::applies(current, rest[0].1, *group, None));
                        *local_epoch = *local_epoch + 1;
                    },
                    Err(e) => {
                        let r: Result<(), CommitWindowError> = Err(
                            CommitWindowError::CommitRejected(e),
                        );
                        assert(replay_of(r) == Replay::Rejected(e));
                        return r;
                    },
                }
            },
            Err(ResyncNeeded) => {
                return Err(CommitWindowError::ResyncNeeded);
            },
        }
        i = i + 1;
    }
    proof {
        assert(entries.skip(i as int) =~= Seq::empty());
    }
    Ok(())
}

/// Whether the epochs of a window rise by one from entry to entry.
pub open spec fn consecutive(window: Seq<(u64, Seq<u8>)>) -> bool {
    forall|i: int, j: int|
        0 <= i < window.len() && 0 <= j < window.len() ==> (#[trigger] window[j]).0 - (
        #[trigger] window[i]).0 == j - i
}

/// Law: replaying a window and then what follows it is replaying both at once. So a window may be
/// sent in several pieces.
pub proof fn replay_in_pieces<G: ExportSecret>(
    before: G,
    from: u64,
    first: Seq<(u64, Seq<u8>)>,
    middle: G,
    at: u64,
    second: Seq<(u64, Seq<u8>)>,
    after: G,
    to: u64,
    end: Replay,
)
    requires
        replays(before, from, first, middle, at, Replay::Complete),
        replays(middle, at, second, after, to, end),
    ensures
        replays(before, from, first + second, after, to, end),
    decreases first.len(),
{
    if first.len() == 0 {
        assert(first + second =~= second);
    } else {
        let (epoch, commit) = first[0];
        assert((first + second)[0] == first[0]);
        assert((first + second).skip(1) =~= first.skip(1) + second);
        if epoch <= from {
            replay_in_pieces(before, from, first.skip(1), middle, at, second, after, to, end);
        } else if epoch == from + 1 {
            let next = choose|next: G| #[trigger]
                G::applies(before, commit, next, None) && replays(
                    next,
                    epoch,
                    first.skip(1),
                    middle,
                    at,
                    Replay::Complete,
                );
            replay_in_pieces(next, epoch, first.skip(1), middle, at, second, after, to, end);
        }
    }
}

/// Law: the epoch never goes back, and after a complete replay it has reached every entry.
pub proof fn replay_reaches_entries<G: ExportSecret>(
    before: G,
    from: u64,
    window: Seq<(u64, Seq<u8>)>,
    after: G,
    to: u64,
    end: Replay,
)
    requires
        replays(before, from, window, after, to, end),
    ensures
        from <= to,
        end == Replay::Complete ==> forall|i: int|
            0 <= i < window.len() ==> (#[trigger] window[i]).0 <= to,
        to == from || exists|i: int| 0 <= i < window.len() && (#[trigger] window[i]).0 == to,
    decreases window.len(),
{
    if window.len() > 0 {
        let (epoch, commit) = window[0];
        let rest = window.skip(1);
        if epoch <= from {
            replay_reaches_entries(before, from, rest, after, to, end);
        } else if epoch == from + 1 {
            if !(end matches Replay::Rejected(e) && G::applies(before, commit, after, Some(e)) && to
                == from) {
                let next = choose|next: G| #[trigger]
                    G::applies(before, commit, next, None) && replays(
                        next,
                        epoch,
                        rest,
                        after,
                        to,
                        end,
                    );
                replay_reaches_entries(next, epoch, rest, after, to, end);
                if to == epoch {
                    assert(window[0].0 == to);
                }
            }
        }
        if end == Replay::Complete {
            assert forall|i: int| 0 <= i < window.len() implies (#[trigger] window[i]).0 <= to by {
                if i > 0 {
                    assert(rest[i - 1] == window[i]);
                }
            }
        }
        if exists|i: int| 0 <= i < rest.len() && (#[trigger] rest[i]).0 == to {
            let i = choose|i: int| 0 <= i < rest.len() && (#[trigger] rest[i]).0 == to;
            assert(window[i + 1] == rest[i]);
        }
    }
}

/// Law: a window whose entries are all applied already changes nothing.
pub proof fn stale_window_is_skipped<G: ExportSecret>(
    before: G,
    from: u64,
    window: Seq<(u64, Seq<u8>)>,
    after: G,
    to: u64,
    end: Replay,
)
    requires
        forall|i: int| 0 <= i < window.len() ==> (#[trigger] window[i]).0 <= from,
    ensures
        replays(before, from, window, after, to, end) <==> after == before && to == from && end
            == Replay::Complete,
    decreases window.len(),
{
    if window.len() > 0 {
        assert forall|i: int| 0 <= i < window.skip(1).len() implies (#[trigger] window.skip(1)[i]).0
            <= from by {
            assert(window.skip(1)[i] == window[i + 1]);
        }
        assert(window[0].0 <= from);
        stale_window_is_skipped(before, from, window.skip(1), after, to, end);
    }
}

/// Law: replaying a window a second time is harmless: unless the group refused a commit, the second
/// replay ends as the first one did, at the same gap if there was one, and changes nothing.
pub proof fn second_replay_changes_nothing<G: ExportSecret>(
    before: G,
    from: u64,
    window: Seq<(u64, Seq<u8>)>,
    middle: G,
    at: u64,
    first: Replay,
    after: G,
    to: u64,
    second: Replay,
)
    requires
        replays(before, from, window, middle, at, first),
        first !is Rejected,
        replays(middle, at, window, after, to, second),
    ensures
        second == first,
        after == middle,
        to == at,
{
    lemma_second_replay(before, from, window, middle, at, first, middle, after, to, second);
}

/// A window that was replayed, up to a gap or to its end, changes no group in the epoch that was
/// reached.
proof fn lemma_second_replay<G: ExportSecret>(
    before: G,
    from: u64,
    window: Seq<(u64, Seq<u8>)>,
    middle: G,
    at: u64,
    first: Replay,
    other: G,
    after: G,
    to: u64,
    second: Replay,
)
    requires
        replays(before, from, window, middle, at, first),
        first !is Rejected,
        replays(other, at, window, after, to, second),
    ensures
        second == first,
        after == other,
        to == at,
    decreases window.len(),
{
    if window.len() > 0 {
        let (epoch, commit) = window[0];
        let rest = window.skip(1);
        replay_reaches_entries(before, from, window, middle, at, first);
        if epoch <= from {
            lemma_second_replay(before, from, rest, middle, at, first, other, after, to, second);
        } else if epoch == from + 1 {
            let next = choose|next: G| #[trigger]
                G::applies(before, commit, next, None) && replays(
                    next,
                    epoch,
                    rest,
                    middle,
                    at,
                    first,
                );
            replay_reaches_entries(next, epoch, rest, middle, at, first);
            lemma_second_replay(next, epoch, rest, middle, at, first, other, after, to, second);
        }
    }
}

/// Law: after a complete replay of a window whose last entry is not older than the receiver and
/// whose epochs follow each other, the receiver's epoch is that of the last entry, and after one
/// that a refused commit stopped it is not; and such a window has no gap for a receiver that its
/// first entry is within reach of.
pub proof fn consecutive_window_replays<G: ExportSecret>(
    before: G,
    from: u64,
    window: Seq<(u64, Seq<u8>)>,
    after: G,
    to: u64,
    end: Replay,
)
    requires
        window.len() > 0,
        consecutive(window),
        window[0].0 <= from + 1,
        window.last().0 >= from,
        replays(before, from, window, after, to, end),
    ensures
        end != Replay::Gap,
        end == Replay::Complete ==> to == window.last().0,
        end is Rejected ==> to < window.last().0,
    decreases window.len(),
{
    reveal_with_fuel(replays, 2);
    let (epoch, commit) = window[0];
    let rest = window.skip(1);
    assert forall|i: int, j: int| 0 <= i < rest.len() && 0 <= j < rest.len() implies (
    #[trigger] rest[j]).0 - (#[trigger] rest[i]).0 == j - i by {
        assert(rest[i] == window[i + 1]);
        assert(rest[j] == window[j + 1]);
    }
    if rest.len() > 0 {
        assert(rest[0] == window[1]);
        assert(window[1].0 - window[0].0 == 1);
        assert(rest.last() == window.last());
        assert(rest[rest.len() - 1].0 - rest[0].0 == rest.len() - 1);
    }
    if epoch <= from {
        if rest.len() > 0 {
            consecutive_window_replays(before, from, rest, after, to, end);
        }
    } else if !(end matches Replay::Rejected(e) && G::applies(before, commit, after, Some(e)) && to
        == from) {
        let next = choose|next: G| #[trigger]
            G::applies(before, commit, next, None) && replays(next, epoch, rest, after, to, end);
        if rest.len() > 0 {
            consecutive_window_replays(next, epoch, rest, after, to, end);
        }
    }
}

/// Whether a member that applies a commit exports the same secrets as the member that made it, if
/// they exported the same secrets before. This is what MLS is for.
pub open spec fn keeps_agreement<A: ExportSecret, B: ExportSecret>() -> bool {
    forall|a: A, a_next: A, b: B, b_next: B, commit: Seq<u8>|
        group::exports(a) == group::exports(b) && #[trigger] A::commits(a, a_next, Ok(commit))
            && #[trigger] B::applies(b, commit, b_next, None) ==> group::exports(a_next)
            == group::exports(b_next)
}

/// Whether a group went through these states by making the commits of a window.
pub open spec fn made_by<A: ExportSecret>(
    window: Seq<(u64, Seq<u8>)>,
    states: Seq<A>,
) -> bool {
    &&& states.len() == window.len() + 1
    &&& forall|i: int, j: int|
        0 <= i < window.len() && j == i + 1 ==> A::commits(
            #[trigger] states[i],
            #[trigger] states[j],
            Ok(window[i].1),
        )
}

/// Law: if the group keeps agreement, a receiver that exported the same secrets as the sender did
/// in the receiver's epoch exports, after a complete replay of the sender's window, the same
/// secrets as the sender does now.
pub proof fn replay_keeps_agreement<A: ExportSecret, B: ExportSecret>(
    window: Seq<(u64, Seq<u8>)>,
    states: Seq<A>,
    before: B,
    from: u64,
    after: B,
    to: u64,
)
    requires
        keeps_agreement::<A, B>(),
        made_by(window, states),
        consecutive(window),
        window.len() > 0,
        window[0].0 <= from + 1,
        from <= window.last().0,
        group::exports(before) == group::exports(states[from + 1 - window[0].0]),
        replays(before, from, window, after, to, Replay::Complete),
    ensures
        group::exports(after) == group::exports(states.last()),
    decreases window.len(),
{
    reveal_with_fuel(replays, 2);
    let (epoch, commit) = window[0];
    let rest = window.skip(1);
    let later = states.skip(1);
    assert forall|i: int, j: int| 0 <= i < rest.len() && 0 <= j < rest.len() implies (
    #[trigger] rest[j]).0 - (#[trigger] rest[i]).0 == j - i by {
        assert(rest[i] == window[i + 1]);
        assert(rest[j] == window[j + 1]);
    }
    assert forall|i: int, j: int| 0 <= i < rest.len() && j == i + 1 implies A::commits(
        #[trigger] later[i],
        #[trigger] later[j],
        Ok(rest[i].1),
    ) by {
        assert(later[i] == states[i + 1]);
        assert(later[j] == states[j + 1]);
    }
    assert(later.last() == states.last());
    if rest.len() > 0 {
        assert(rest[0] == window[1]);
        assert(window[1].0 - window[0].0 == 1);
        assert(rest.last() == window.last());
        assert(rest[rest.len() - 1].0 - rest[0].0 == rest.len() - 1);
    }
    if epoch <= from {
        if rest.len() > 0 {
            assert(later[from + 1 - rest[0].0] == states[from + 1 - window[0].0]);
            replay_keeps_agreement(rest, later, before, from, after, to);
        }
    } else {
        let next = choose|next: B| #[trigger]
            B::applies(before, commit, next, None) && replays(
                next,
                epoch,
                rest,
                after,
                to,
                Replay::Complete,
            );
        assert(A::commits(states[0], states[1], Ok(commit)));
        assert(group::exports(next) == group::exports(states[1]));
        if rest.len() > 0 {
            assert(later[0] == states[1]);
            replay_keeps_agreement(rest, later, next, epoch, after, to);
        }
    }
}

/// Law: a window that starts beyond the receiver's next epoch is refused before anything is
/// applied.
pub proof fn gap_changes_nothing<G: ExportSecret>(
    before: G,
    from: u64,
    window: Seq<(u64, Seq<u8>)>,
    after: G,
    to: u64,
    end: Replay,
)
    requires
        window.len() > 0,
        window[0].0 > from + 1,
    ensures
        replays(before, from, window, after, to, end) <==> after == before && to == from && end
            == Replay::Gap,
{
}

/// Law: a receiver that is no further back than the checkpoint of a log, and not ahead of the log,
/// meets no gap in its window, and is up to date after a replay of it if and only if that was
/// complete.
pub proof fn log_window_catches_up<G: ExportSecret>(
    log: group::LogState,
    before: G,
    from: u64,
    after: G,
    to: u64,
    end: Replay,
)
    requires
        group::log_wf(log),
        log.checkpoint <= from <= log.current_epoch,
        replays(before, from, group::log_window(log), after, to, end),
    ensures
        end != Replay::Gap,
        end == Replay::Complete <==> to == log.current_epoch,
{
    let window = group::log_window(log);
    if window.len() > 0 {
        assert(window[0].0 == log.checkpoint + 1);
        assert(window.last().0 == log.current_epoch);
        consecutive_window_replays(before, from, window, after, to, end);
    }
}

/// Law: a receiver behind the checkpoint of a log has fallen off its back: it is told to resync,
/// and nothing changes.
pub proof fn fallen_off_the_back<G: ExportSecret>(
    log: group::LogState,
    before: G,
    from: u64,
    after: G,
    to: u64,
    end: Replay,
)
    requires
        group::log_wf(log),
        from < log.checkpoint < log.current_epoch,
        replays(before, from, group::log_window(log), after, to, end),
    ensures
        end == Replay::Gap,
        after == before,
        to == from,
{
    assert(group::log_window(log)[0].0 == log.checkpoint + 1);
    gap_changes_nothing(before, from, group::log_window(log), after, to, end);
}

/// Law: a report that a replay of the log's window led to trims away exactly what the receiver has
/// applied, and what is left catches up a receiver in that epoch.
pub proof fn report_trims_what_was_applied(log: group::LogState, reported: u64)
    requires
        group::log_wf(log),
        log.checkpoint <= reported <= log.current_epoch,
    ensures
        group::log_wf(group::log_trimmed(log, reported)),
        group::log_trimmed(log, reported).checkpoint == reported,
        group::log_window(group::log_trimmed(log, reported)) == group::log_window(log).skip(
            reported - log.checkpoint,
        ),
{
    let trimmed = group::log_trimmed(log, reported);
    assert(group::log_window(trimmed) =~= group::log_window(log).skip(reported - log.checkpoint));
}

/// Law: the checkpoint never goes back and never passes the newest commit, whatever is reported;
/// the order in which reports arrive does not matter, and a repeated one changes nothing.
pub proof fn reports_commute(log: group::LogState, first: u64, second: u64)
    requires
        group::log_wf(log),
    ensures
        log.checkpoint <= group::log_trimmed(log, first).checkpoint <= log.current_epoch,
        group::log_wf(group::log_trimmed(log, first)),
        group::log_trimmed(group::log_trimmed(log, first), second) == group::log_trimmed(
            group::log_trimmed(log, second),
            first,
        ),
        group::log_trimmed(group::log_trimmed(log, first), first) == group::log_trimmed(log, first),
{
    let one = group::log_trimmed(group::log_trimmed(log, first), second);
    let two = group::log_trimmed(group::log_trimmed(log, second), first);
    assert(one.log =~= two.log);
    assert(group::log_trimmed(group::log_trimmed(log, first), first).log =~= group::log_trimmed(
        log,
        first,
    ).log);
}

/// Law: committing extends the window by the new commit and touches nothing else of it.
pub proof fn commit_extends_window(log: group::LogState, commit: Seq<u8>)
    requires
        group::log_wf(log),
        log.current_epoch < u64::MAX,
    ensures
        group::log_wf(group::log_committed(log, commit)),
        group::log_window(group::log_committed(log, commit)) == group::log_window(log).push(
            ((log.current_epoch + 1) as u64, commit),
        ),
{
    assert(group::log_window(group::log_committed(log, commit)) =~= group::log_window(log).push(
        ((log.current_epoch + 1) as u64, commit),
    ));
}

/// Law: one entry is skipped where its epoch is reached already, and applied where it is the next,
/// which takes the receiver into that epoch unless the group refuses; an entry further ahead is a
/// gap. Only an accepted commit changes the epoch. Nothing happens without an entry.
pub proof fn one_entry_moves_at_most_one_epoch<G: ExportSecret>(
    before: G,
    from: u64,
    epoch: u64,
    commit: Seq<u8>,
    after: G,
    to: u64,
    end: Replay,
)
    ensures
        epoch <= from ==> (replays(before, from, seq![(epoch, commit)], after, to, end) <==> after
            == before && to == from && end == Replay::Complete),
        epoch == from + 1 ==> (replays(before, from, seq![(epoch, commit)], after, to, end) <==> {
            ||| G::applies(before, commit, after, None) && to == epoch && end == Replay::Complete
            ||| end matches Replay::Rejected(e) && G::applies(before, commit, after, Some(e)) && to
                == from
        }),
        epoch > from + 1 ==> (replays(before, from, seq![(epoch, commit)], after, to, end)
            <==> after == before && to == from && end == Replay::Gap),
        replays(before, from, Seq::empty(), after, to, end) <==> after == before && to == from
            && end == Replay::Complete,
{
    reveal_with_fuel(replays, 2);
    let window = seq![(epoch, commit)];
    let rest = window.skip(1);
    assert(rest =~= Seq::empty());
    assert(window[0] == (epoch, commit));
    if epoch == from + 1 {
        if G::applies(before, commit, after, None) && to == epoch && end == Replay::Complete {
            assert(G::applies(before, window[0].1, after, None) && replays(
                after,
                window[0].0,
                window.skip(1),
                after,
                to,
                end,
            ));
        }
        if end matches Replay::Rejected(e) && G::applies(before, commit, after, Some(e)) && to
            == from {
            assert(replays(before, from, window, after, to, end));
        }
        if replays(before, from, window, after, to, end) && !(end matches Replay::Rejected(e)
            && G::applies(before, commit, after, Some(e)) && to == from) {
            let next = choose|next: G| #[trigger]
                G::applies(before, commit, next, None) && replays(
                    next,
                    epoch,
                    rest,
                    after,
                    to,
                    end,
                );
            assert(replays(next, epoch, rest, after, to, end));
            assert(after == next && to == epoch && end == Replay::Complete);
        }
    }
}

/// A replay that ends early ends for every window that starts with what was replayed.
proof fn lemma_early_end_stands<G: ExportSecret>(
    before: G,
    from: u64,
    first: Seq<(u64, Seq<u8>)>,
    second: Seq<(u64, Seq<u8>)>,
    after: G,
    to: u64,
    end: Replay,
)
    requires
        end != Replay::Complete,
        replays(before, from, first, after, to, end),
    ensures
        replays(before, from, first + second, after, to, end),
    decreases first.len(),
{
    let whole = first + second;
    let (epoch, commit) = first[0];
    let rest = first.skip(1);
    assert(whole[0] == first[0]);
    assert(whole.skip(1) =~= rest + second);
    if epoch <= from {
        lemma_early_end_stands(before, from, rest, second, after, to, end);
    } else if epoch == from + 1 && !(end matches Replay::Rejected(e) && G::applies(
        before,
        commit,
        after,
        Some(e),
    ) && to == from) {
        let next = choose|next: G| #[trigger]
            G::applies(before, commit, next, None) && replays(next, epoch, rest, after, to, end);
        lemma_early_end_stands(next, epoch, rest, second, after, to, end);
        assert(replays(next, epoch, whole.skip(1), after, to, end));
    }
}

/// A replay of two windows in a row ends in the first, or goes on behind it.
proof fn lemma_replay_parts<G: ExportSecret>(
    before: G,
    from: u64,
    first: Seq<(u64, Seq<u8>)>,
    second: Seq<(u64, Seq<u8>)>,
    after: G,
    to: u64,
    end: Replay,
) -> (middle: (G, u64))
    requires
        replays(before, from, first + second, after, to, end),
    ensures
        ({
            ||| end != Replay::Complete && replays(before, from, first, after, to, end)
            ||| replays(before, from, first, middle.0, middle.1, Replay::Complete) && replays(
                middle.0,
                middle.1,
                second,
                after,
                to,
                end,
            )
        }),
    decreases first.len(),
{
    let whole = first + second;
    if first.len() == 0 {
        assert(whole =~= second);
        (before, from)
    } else {
        let (epoch, commit) = first[0];
        let rest = first.skip(1);
        assert(whole[0] == first[0]);
        assert(whole.skip(1) =~= rest + second);
        if epoch <= from {
            lemma_replay_parts(before, from, rest, second, after, to, end)
        } else if epoch == from + 1 && !(end matches Replay::Rejected(e) && G::applies(
            before,
            commit,
            after,
            Some(e),
        ) && to == from) {
            let next = choose|next: G| #[trigger]
                G::applies(before, commit, next, None) && replays(
                    next,
                    epoch,
                    whole.skip(1),
                    after,
                    to,
                    end,
                );
            assert(replays(next, epoch, rest + second, after, to, end));
            let middle = lemma_replay_parts(next, epoch, rest, second, after, to, end);
            if end != Replay::Complete && replays(next, epoch, rest, after, to, end) {
                assert(replays(before, from, first, after, to, end));
            } else {
                assert(replays(next, epoch, rest, middle.0, middle.1, Replay::Complete));
                assert(replays(before, from, first, middle.0, middle.1, Replay::Complete));
            }
            middle
        } else {
            (before, from)
        }
    }
}

/// Law: a window is replayed entry by entry: what comes first is replayed first, the rest follows
/// where that was complete, and a replay that ends early ends for the whole window.
pub proof fn replay_goes_on_only_after_completion<G: ExportSecret>(
    before: G,
    from: u64,
    first: Seq<(u64, Seq<u8>)>,
    second: Seq<(u64, Seq<u8>)>,
    after: G,
    to: u64,
    end: Replay,
)
    ensures
        replays(before, from, first + second, after, to, end) <==> {
            ||| end != Replay::Complete && replays(before, from, first, after, to, end)
            ||| exists|middle: G, at: u64| #[trigger]
                replays(before, from, first, middle, at, Replay::Complete) && replays(
                    middle,
                    at,
                    second,
                    after,
                    to,
                    end,
                )
        },
{
    if replays(before, from, first + second, after, to, end) {
        let middle = lemma_replay_parts(before, from, first, second, after, to, end);
    }
    if end != Replay::Complete && replays(before, from, first, after, to, end) {
        lemma_early_end_stands(before, from, first, second, after, to, end);
    }
    if exists|middle: G, at: u64| #[trigger]
        replays(before, from, first, middle, at, Replay::Complete) && replays(
            middle,
            at,
            second,
            after,
            to,
            end,
        ) {
        let (middle, at) = choose|middle: G, at: u64| #[trigger]
            replays(before, from, first, middle, at, Replay::Complete) && replays(
                middle,
                at,
                second,
                after,
                to,
                end,
            );
        replay_in_pieces(before, from, first, middle, at, second, after, to, end);
    }
}

/// Law: a result tells how the replay ended: completely, at a gap, or at a refused commit, then
/// with the group's own error.
pub proof fn results_tell_the_end(r: Result<(), CommitWindowError>, e: GroupError)
    ensures
        replay_of(r) == Replay::Complete <==> r is Ok,
        replay_of(r) == Replay::Gap <==> (r matches Err(CommitWindowError::ResyncNeeded)),
        replay_of(r) == Replay::Rejected(e) <==> (r matches Err(
            CommitWindowError::CommitRejected(given),
        ) && given == e),
{
}

} // verus!
