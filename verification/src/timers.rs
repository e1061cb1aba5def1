use crate::types::Round;
use crate::voter::{Event, EventView};
use vstd::prelude::*;

verus! {

/// The two timers of a voter's round, in milliseconds. Both start when the
/// round is entered. Each runs out once, gives the timeout of that round,
/// and then rests until a round is entered again.
#[derive(Clone, Copy, Debug, PartialEq, Eq)]
pub struct Timers {
    /// How long the leader timer runs.
    pub leader_timeout: u64,
    /// How long the notarization timer runs.
    pub notarization_timeout: u64,
    /// The round that was entered last.
    pub round: Round,
    /// What is left of the leader timer, while it runs.
    pub leader: Option<u64>,
    /// What is left of the notarization timer, while it runs.
    pub notarization: Option<u64>,
}

/// Whether a timer runs out within the given time.
pub open spec fn runs_out(left: Option<u64>, millis: u64) -> bool {
    left matches Some(rest) && rest <= millis
}

/// What is left of a timer after the given time: nothing once it has run
/// out.
pub open spec fn left_after(left: Option<u64>, millis: u64) -> Option<u64> {
    match left {
        Some(rest) => if rest <= millis {
            None
        } else {
            Some((rest - millis) as u64)
        },
        None => None,
    }
}

/// The earlier of two timers, if any runs.
pub open spec fn earlier(first: Option<u64>, second: Option<u64>) -> Option<u64> {
    match (first, second) {
        (Some(one), Some(other)) => Some(if one <= other { one } else { other }),
        (Some(one), None) => Some(one),
        (None, other) => other,
    }
}

/// The timeouts that run out within the given time: the leader timeout
/// before the notarization timeout, both of the round entered last.
pub open spec fn timeouts_after(timers: Timers, millis: u64) -> Seq<EventView> {
    let leader = if runs_out(timers.leader, millis) {
        seq![EventView::LeaderTimeout(timers.round)]
    } else {
        Seq::empty()
    };
    if runs_out(timers.notarization, millis) {
        leader.push(EventView::NotarizationTimeout(timers.round))
    } else {
        leader
    }
}

/// The timers of a round that was just entered.
pub open spec fn started(leader_timeout: u64, notarization_timeout: u64, round: Round) -> Timers {
    Timers {
        leader_timeout,
        notarization_timeout,
        round,
        leader: Some(leader_timeout),
        notarization: Some(notarization_timeout),
    }
}

fn tick(left: Option<u64>, millis: u64) -> (after: Option<u64>)
    ensures
        after == left_after(left, millis),
{
    match left {
        Some(rest) => if rest <= millis {
            None
        } else {
            Some(rest - millis)
        },
        None => None,
    }
}

impl Timers {
    /// Timers of the given lengths, started for `round`.
    pub fn start(leader_timeout: u64, notarization_timeout: u64, round: Round) -> (timers: Self)
        ensures
            timers == started(leader_timeout, notarization_timeout, round),
    {
        Timers {
            leader_timeout,
            notarization_timeout,
            round,
            leader: Some(leader_timeout),
            notarization: Some(notarization_timeout),
        }
    }

    /// A round was entered: both timers start anew, for that round.
    pub fn enter(&mut self, round: Round)
        ensures
            *final(self) == started(
                old(self).leader_timeout,
                old(self).notarization_timeout,
                round,
            ),
    {
        self.round = round;
        self.leader = Some(self.leader_timeout);
        self.notarization = Some(self.notarization_timeout);
    }

    /// How long until the next timer runs out, if any runs.
    pub fn wait(&self) -> (millis: Option<u64>)
        ensures
            millis == earlier(self.leader, self.notarization),
    {
        match (self.leader, self.notarization) {
            (Some(one), Some(other)) => Some(if one <= other { one } else { other }),
            (Some(one), None) => Some(one),
            (None, other) => other,
        }
    }

    /// Time has passed: each timer that ran out in it comes to rest, and
    /// the others have that much less left. Says which of the two ran out,
    /// the leader timer first.
    pub fn pass(&mut self, millis: u64) -> (out: (bool, bool))
        ensures
            *final(self) == (Timers {
                leader: left_after(old(self).leader, millis),
                notarization: left_after(old(self).notarization, millis),
                ..*old(self)
            }),
            out.0 == runs_out(old(self).leader, millis),
            out.1 == runs_out(old(self).notarization, millis),
    {
        let leader: Option<u64> = tick(self.leader, millis);
        let notarization: Option<u64> = tick(self.notarization, millis);
        let out: (bool, bool) = (
            self.leader.is_some() && leader.is_none(),
            self.notarization.is_some() && notarization.is_none(),
        );
        self.leader = leader;
        self.notarization = notarization;
        out
    }

    /// Time has passed: each timer that ran out in it comes to rest and
    /// gives its timeout, and the others have that much less left.
    pub fn elapse(&mut self, millis: u64) -> (timeouts: Vec<Event>)
        ensures
            *final(self) == (Timers {
                leader: left_after(old(self).leader, millis),
                notarization: left_after(old(self).notarization, millis),
                ..*old(self)
            }),
            timeouts@.map_values(|event: Event| event@) == timeouts_after(*old(self), millis),
    {
        let mut timeouts: Vec<Event> = Vec::new();
        let out: (bool, bool) = self.pass(millis);
        if out.0 {
            timeouts.push(Event::LeaderTimeout(self.round));
        }
        if out.1 {
            timeouts.push(Event::NotarizationTimeout(self.round));
        }
        assert(timeouts@.map_values(|event: Event| event@) =~= timeouts_after(*old(self), millis));
        timeouts
    }
}

/// A timer gives its timeout once for each round entered, however the time
/// that passes is cut up: between its running out and the next round it
/// gives nothing.
pub proof fn lemma_timeout_once(timers: Timers, first: u64, second: u64)
    ensures
        runs_out(timers.leader, first) ==> !runs_out(left_after(timers.leader, first), second),
        runs_out(timers.notarization, first) ==> !runs_out(
            left_after(timers.notarization, first),
            second,
        ),
{
}

/// To let time pass in two parts gives the same timers as to let it pass
/// at once, and a timer runs out in one of the parts exactly if it runs
/// out in the whole.
pub proof fn lemma_time_adds_up(left: Option<u64>, first: u64, second: u64)
    requires
        first + second <= u64::MAX,
    ensures
        left_after(left_after(left, first), second) == left_after(left, (first + second) as u64),
        runs_out(left, (first + second) as u64) <==> runs_out(left, first) || runs_out(
            left_after(left, first),
            second,
        ),
{
}

} // verus!
