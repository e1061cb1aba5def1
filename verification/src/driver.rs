use crate::evidence::option_view;
use crate::timers::{earlier, left_after, runs_out, started, Timers};
use crate::types::Round;
use crate::voter::{actions_view, Action, ActionView, Event, EventView, Fault, Machine, MachineView};
use vstd::prelude::*;

verus! {

/// A voter with the timers of its current round: what is woken whenever a
/// timer runs out or something happens, and told how much time has passed.
pub struct Driver {
    machine: Machine,
    timers: Timers,
}

pub struct DriverView {
    pub machine: MachineView,
    pub timers: Timers,
}

/// Where a number of events has led: the state, the actions so far, and
/// the fault that stopped the voter, if one did.
pub type Course = (MachineView, Seq<ActionView>, Option<Fault>);

/// The course goes on with an event, if there is one and no fault has
/// stopped the voter.
pub open spec fn then(course: Course, event: Option<EventView>) -> Course {
    if course.2 is Some || event is None {
        course
    } else {
        match course.0.handle(event.unwrap()) {
            Ok((next, actions)) => (next, course.1 + actions, None),
            Err(fault) => (course.0, course.1, Some(fault)),
        }
    }
}

impl DriverView {
    /// The voter is well formed, and the timers are those of its current
    /// round.
    pub open spec fn wf(self) -> bool {
        self.machine.wf() && self.timers.round == self.machine.current()
    }

    /// The timeout of the leader timer, if it runs out within the time.
    pub open spec fn leader_timeout(self, passed: u64) -> Option<EventView> {
        if runs_out(self.timers.leader, passed) {
            Some(EventView::LeaderTimeout(self.timers.round))
        } else {
            None
        }
    }

    /// The timeout of the notarization timer, if it runs out within the
    /// time.
    pub open spec fn notarization_timeout(self, passed: u64) -> Option<EventView> {
        if runs_out(self.timers.notarization, passed) {
            Some(EventView::NotarizationTimeout(self.timers.round))
        } else {
            None
        }
    }

    /// What the voter does when it is woken after `passed` milliseconds,
    /// by `event` if there is one: the timeouts that ran out meanwhile come
    /// first, the leader timeout before the notarization timeout, and then
    /// the event.
    pub open spec fn course(self, passed: u64, event: Option<EventView>) -> Course {
        then(
            then(
                then((self.machine, Seq::empty(), None), self.leader_timeout(passed)),
                self.notarization_timeout(passed),
            ),
            event,
        )
    }

    /// The timers after the voter was woken: started anew if it entered a
    /// round, and else with that much less left.
    pub open spec fn timers_after(self, passed: u64, reached: MachineView) -> Timers {
        if reached.current() != self.timers.round {
            started(
                self.timers.leader_timeout,
                self.timers.notarization_timeout,
                reached.current(),
            )
        } else {
            Timers {
                leader: left_after(self.timers.leader, passed),
                notarization: left_after(self.timers.notarization, passed),
                ..self.timers
            }
        }
    }

    /// The driver after it was woken.
    pub open spec fn step(self, passed: u64, event: Option<EventView>) -> DriverView {
        let reached = self.course(passed, event).0;
        DriverView { machine: reached, timers: self.timers_after(passed, reached) }
    }
}

impl View for Driver {
    type V = DriverView;

    closed spec fn view(&self) -> DriverView {
        DriverView { machine: self.machine@, timers: self.timers }
    }
}

impl Driver {
    /// The voter's ledger holds each round once.
    pub closed spec fn sound(&self) -> bool {
        self.machine.sound()
    }

    pub open spec fn wf(&self) -> bool {
        self.sound() && self@.wf()
    }

    /// A driver for the voter, with timers of the given lengths in
    /// milliseconds, started for the voter's current round.
    pub fn new(machine: Machine, leader_timeout: u64, notarization_timeout: u64) -> (driver: Self)
        requires
            machine.wf(),
        ensures
            driver.wf(),
            driver@ == (DriverView {
                machine: machine@,
                timers: started(leader_timeout, notarization_timeout, machine@.current()),
            }),
    {
        let round: Round = machine.current();
        Driver { machine, timers: Timers::start(leader_timeout, notarization_timeout, round) }
    }

    /// What entering the voter's current round asks for.
    pub fn start(&self) -> (actions: Vec<Action>)
        requires
            self.wf(),
        ensures
            actions_view(actions@) == self@.machine.enter_actions(),
    {
        self.machine.start()
    }

    /// The voter's current round.
    pub fn current(&self) -> (round: Round)
        ensures
            round == self@.machine.current(),
    {
        self.machine.current()
    }

    /// The designated proposer of a round.
    pub fn leader(&self, round: Round) -> (leader: Option<u32>)
        ensures
            leader == self@.machine.leader(round),
    {
        self.machine.leader(round)
    }

    /// How long until the next timer runs out, if any runs.
    pub fn wait(&self) -> (millis: Option<u64>)
        ensures
            millis == earlier(self@.timers.leader, self@.timers.notarization),
    {
        self.timers.wait()
    }

    fn advance(&mut self, event: Event, asked: &mut Vec<Action>) -> (done: Result<(), Fault>)
        requires
            old(self).sound(),
            old(self)@.machine.wf(),
        ensures
            final(self).sound(),
            final(self)@.machine.wf(),
            final(self)@.timers == old(self)@.timers,
            (final(self)@.machine, actions_view(final(asked)@), match done {
                Ok(_) => None,
                Err(fault) => Some(fault),
            }) == then((old(self)@.machine, actions_view(old(asked)@), None), Some(event@)),
    {
        match self.machine.handle(event) {
            Ok(mut actions) => {
                asked.append(&mut actions);
                assert(actions_view(asked@) =~= actions_view(old(asked)@) + old(
                    self,
                )@.machine.handle(event@).unwrap().1);
                Ok(())
            },
            Err(fault) => Err(fault),
        }
    }

    /// The voter is woken after `passed` milliseconds, by `event` if there
    /// is one. The timeouts that ran out meanwhile are handled first, then
    /// the event. The timers start anew if the voter entered a round. A
    /// fault stops the voter where it stands.
    pub fn step(&mut self, passed: u64, event: Option<Event>) -> (asked: Result<Vec<Action>, Fault>)
        requires
            old(self).wf(),
        ensures
            final(self).wf(),
            final(self)@ == old(self)@.step(passed, option_view(event)),
            match asked {
                Ok(actions) => old(self)@.course(passed, option_view(event)).2 is None
                    && actions_view(actions@) == old(self)@.course(passed, option_view(event)).1,
                Err(fault) => old(self)@.course(passed, option_view(event)).2 == Some(fault),
            },
    {
        let round: Round = self.timers.round;
        let leader_timeout: u64 = self.timers.leader_timeout;
        let notarization_timeout: u64 = self.timers.notarization_timeout;
        let out: (bool, bool) = self.timers.pass(passed);
        let mut asked: Vec<Action> = Vec::new();
        assert(actions_view(asked@) =~= Seq::empty());
        let mut done: Result<(), Fault> = Ok(());
        if out.0 {
            done = self.advance(Event::LeaderTimeout(round), &mut asked);
        }
        if out.1 && done.is_ok() {
            done = self.advance(Event::NotarizationTimeout(round), &mut asked);
        }
        if done.is_ok() {
            match event {
                Some(event) => {
                    done = self.advance(event, &mut asked);
                },
                None => {},
            }
        }
        let current: Round = self.machine.current();
        if current != round {
            self.timers = Timers::start(leader_timeout, notarization_timeout, current);
        }
        match done {
            Ok(_) => Ok(asked),
            Err(fault) => Err(fault),
        }
    }
}

} // verus!
