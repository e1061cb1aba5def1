use crate::entry::{Closure, ClosureView, EntryView, Receipt, ReceiptView, RoundEntry};
use crate::evidence::{option_view, EvidenceView, Outcome, OutcomeView};
use crate::signers::{lemma_set_indices, set_indices};
use crate::types::{Epoch, Notarize, Nullify, Proposal, Round, ViewNumber, Vote};
use vstd::prelude::*;

verus! {

/// The bookkeeping of the rounds of one epoch. Entries come into being with
/// the first vote or outcome recorded for their round. Every round before
/// the current one is closed, and so is every round with an outcome; to
/// close the current round or a later one makes its successor the current
/// round.
pub struct Ledger {
    epoch: Epoch,
    participants: u32,
    quorum: u32,
    current: u64,
    entries: Vec<RoundEntry>,
}

pub struct LedgerView {
    pub epoch: Epoch,
    pub participants: nat,
    pub quorum: nat,
    /// The view of the current round.
    pub current: u64,
    /// The entries, by the view of their round.
    pub rounds: Map<u64, EntryView>,
}

impl LedgerView {
    /// The ledger with no entry.
    pub open spec fn empty(epoch: Epoch, participants: nat, quorum: nat, current: u64) -> LedgerView {
        LedgerView { epoch, participants, quorum, current, rounds: Map::empty() }
    }

    /// Each entry is well formed and stands under its round's view, and no
    /// round from the current one on has an outcome.
    pub open spec fn wf(self) -> bool {
        &&& self.participants <= u32::MAX
        &&& forall|view: u64| #[trigger]
            self.rounds.dom().contains(view) ==> {
                &&& self.rounds[view].wf(self.participants)
                &&& self.rounds[view].round == self.round(view)
                &&& view < u64::MAX
                &&& view >= self.current ==> self.rounds[view].outcome is None
            }
    }

    /// The round of the ledger's epoch with the given view.
    pub open spec fn round(self, view: u64) -> Round {
        Round { epoch: self.epoch, view: ViewNumber(view) }
    }

    /// Whether the ledger keeps `round`: it is of the ledger's epoch and has
    /// a successor.
    pub open spec fn accepts(self, round: Round) -> bool {
        round.epoch == self.epoch && round.view.0 < u64::MAX
    }

    /// The entry of a round, empty if nothing was recorded for it.
    pub open spec fn entry(self, view: u64) -> EntryView {
        if self.rounds.dom().contains(view) {
            self.rounds[view]
        } else {
            EntryView::empty(self.round(view), self.participants)
        }
    }

    /// Whether a round is closed: it has an outcome, or the current round
    /// has passed it.
    pub open spec fn is_closed(self, view: u64) -> bool {
        view < self.current || self.entry(view).outcome is Some
    }

    /// Recording a notarize vote in the entry of its round.
    pub open spec fn record_notarize(self, notarize: Notarize) -> (LedgerView, ReceiptView) {
        let view = notarize.proposal.round.view.0;
        if !self.accepts(notarize.proposal.round) {
            (self, ReceiptView::ignored())
        } else {
            let (entry, receipt) = self.entry(view).record_notarize(
                notarize,
                self.is_closed(view),
                self.quorum,
            );
            if receipt.inserted {
                (LedgerView { rounds: self.rounds.insert(view, entry), ..self }, receipt)
            } else {
                (self, receipt)
            }
        }
    }

    /// Recording a nullify vote in the entry of its round.
    pub open spec fn record_nullify(self, nullify: Nullify) -> (LedgerView, ReceiptView) {
        let view = nullify.round.view.0;
        if !self.accepts(nullify.round) {
            (self, ReceiptView::ignored())
        } else {
            let (entry, receipt) = self.entry(view).record_nullify(
                nullify,
                self.is_closed(view),
                self.quorum,
            );
            if receipt.inserted {
                (LedgerView { rounds: self.rounds.insert(view, entry), ..self }, receipt)
            } else {
                (self, receipt)
            }
        }
    }

    /// Closing a round with an outcome. Where the outcome becomes the
    /// round's outcome and the round is the current one or a later one,
    /// its successor becomes the current round.
    pub open spec fn close(self, outcome: OutcomeView) -> (LedgerView, ClosureView) {
        let view = outcome.round().view.0;
        if !self.accepts(outcome.round()) {
            (self, ClosureView::Foreign)
        } else {
            let (entry, closure) = self.entry(view).close(outcome);
            if closure is Closed {
                (
                    LedgerView {
                        rounds: self.rounds.insert(view, entry),
                        current: if view >= self.current {
                            (view + 1) as u64
                        } else {
                            self.current
                        },
                        ..self
                    },
                    closure,
                )
            } else {
                (self, closure)
            }
        }
    }

    /// Whether the entry of a round may go: the round has an outcome and
    /// lies more than `horizon` rounds before the current one.
    pub open spec fn prunable(self, view: u64, horizon: u64) -> bool {
        self.entry(view).outcome is Some && view + horizon < self.current
    }

    /// Dropping the entries that may go.
    pub open spec fn prune(self, horizon: u64) -> LedgerView {
        LedgerView {
            rounds: Map::new(
                |view: u64| self.rounds.dom().contains(view) && !self.prunable(view, horizon),
                |view: u64| self.rounds[view],
            ),
            ..self
        }
    }

    /// The recorded votes that notarize `proposal`, in index order.
    pub open spec fn notarize_votes(self, proposal: Proposal) -> Seq<Vote> {
        if self.accepts(proposal.round) {
            self.entry(proposal.round.view.0).notarize_votes(proposal)
        } else {
            Seq::empty()
        }
    }

    /// The recorded votes that nullify `round`, in index order.
    pub open spec fn nullify_votes(self, round: Round) -> Seq<Vote> {
        if self.accepts(round) {
            self.entry(round.view.0).nullify_votes()
        } else {
            Seq::empty()
        }
    }
}

/// Whether one of the entries is that of the round with the given view.
pub open spec fn holds_view(entries: Seq<RoundEntry>, view: u64) -> bool {
    exists|i: int| 0 <= i < entries.len() && (#[trigger] entries[i]@).round.view.0 == view
}

/// The place of the entry of the round with the given view.
pub open spec fn place_of(entries: Seq<RoundEntry>, view: u64) -> int {
    choose|i: int| 0 <= i < entries.len() && (#[trigger] entries[i]@).round.view.0 == view
}

/// The entries, by the view of their round.
pub open spec fn rounds_of(entries: Seq<RoundEntry>) -> Map<u64, EntryView> {
    Map::new(|view: u64| holds_view(entries, view), |view: u64| entries[place_of(entries, view)]@)
}

/// No two entries are of the same round.
pub open spec fn distinct_rounds(entries: Seq<RoundEntry>) -> bool {
    forall|i: int, j: int|
        0 <= i < j < entries.len() ==> (#[trigger] entries[i]@).round.view != (
        #[trigger] entries[j]@).round.view
}

proof fn lemma_rounds_of(entries: Seq<RoundEntry>, i: int)
    requires
        distinct_rounds(entries),
        0 <= i < entries.len(),
    ensures
        rounds_of(entries).dom().contains(entries[i]@.round.view.0),
        rounds_of(entries)[entries[i]@.round.view.0] == entries[i]@,
        place_of(entries, entries[i]@.round.view.0) == i,
{
    let view = entries[i]@.round.view.0;
    assert(holds_view(entries, view));
    let j = place_of(entries, view);
    if j != i {
        if j < i {
            assert(entries[j]@.round.view != entries[i]@.round.view);
        } else {
            assert(entries[i]@.round.view != entries[j]@.round.view);
        }
    }
}

proof fn lemma_rounds_after_update(before: Seq<RoundEntry>, after: Seq<RoundEntry>, i: int)
    requires
        distinct_rounds(before),
        0 <= i < before.len(),
        after.len() == before.len(),
        after[i]@.round == before[i]@.round,
        forall|j: int| 0 <= j < before.len() && j != i ==> after[j] == before[j],
    ensures
        distinct_rounds(after),
        rounds_of(after) == rounds_of(before).insert(before[i]@.round.view.0, after[i]@),
{
    let view = before[i]@.round.view.0;
    assert forall|a: int, b: int| 0 <= a < b < after.len() implies (#[trigger] after[a]@).round.view
        != (#[trigger] after[b]@).round.view by {
        assert(before[a]@.round.view != before[b]@.round.view);
    }
    let left = rounds_of(after);
    let right = rounds_of(before).insert(view, after[i]@);
    assert forall|v: u64| left.dom().contains(v) <==> right.dom().contains(v) by {
        if holds_view(after, v) {
            let j = place_of(after, v);
            assert(before[j]@.round.view.0 == v);
        }
        if holds_view(before, v) {
            let j = place_of(before, v);
            assert(after[j]@.round.view.0 == v);
        }
        if v == view {
            assert(after[i]@.round.view.0 == v);
        }
    }
    assert forall|v: u64| left.dom().contains(v) implies left[v] == right[v] by {
        let j = place_of(after, v);
        lemma_rounds_of(after, j);
        if j != i {
            lemma_rounds_of(before, j);
        }
    }
    assert(left =~= right);
}

proof fn lemma_rounds_after_push(before: Seq<RoundEntry>, entry: RoundEntry)
    requires
        distinct_rounds(before),
        !holds_view(before, entry@.round.view.0),
    ensures
        distinct_rounds(before.push(entry)),
        rounds_of(before.push(entry)) == rounds_of(before).insert(entry@.round.view.0, entry@),
{
    let after = before.push(entry);
    let view = entry@.round.view.0;
    assert forall|a: int, b: int| 0 <= a < b < after.len() implies (#[trigger] after[a]@).round.view
        != (#[trigger] after[b]@).round.view by {
        if b == before.len() {
            assert(before[a]@.round.view.0 != view);
        } else {
            assert(before[a]@.round.view != before[b]@.round.view);
        }
    }
    let left = rounds_of(after);
    let right = rounds_of(before).insert(view, entry@);
    assert forall|v: u64| left.dom().contains(v) <==> right.dom().contains(v) by {
        if holds_view(after, v) {
            let j = place_of(after, v);
            if j < before.len() {
                assert(before[j]@.round.view.0 == v);
            }
        }
        if holds_view(before, v) {
            let j = place_of(before, v);
            assert(after[j]@.round.view.0 == v);
        }
        if v == view {
            assert(after[before.len() as int]@.round.view.0 == v);
        }
    }
    assert forall|v: u64| left.dom().contains(v) implies left[v] == right[v] by {
        let j = place_of(after, v);
        lemma_rounds_of(after, j);
        if j < before.len() {
            lemma_rounds_of(before, j);
        }
    }
    assert(left =~= right);
}

impl View for Ledger {
    type V = LedgerView;

    closed spec fn view(&self) -> LedgerView {
        LedgerView {
            epoch: self.epoch,
            participants: self.participants as nat,
            quorum: self.quorum as nat,
            current: self.current,
            rounds: rounds_of(self.entries@),
        }
    }
}

impl Ledger {
    /// No two entries are of the same round.
    pub closed spec fn distinct(&self) -> bool {
        distinct_rounds(self.entries@)
    }

    pub open spec fn wf(&self) -> bool {
        self.distinct() && self@.wf()
    }

    /// A ledger with no entry, for the rounds of `epoch` from `current` on.
    pub fn new(epoch: Epoch, participants: u32, quorum: u32, current: ViewNumber) -> (ledger: Self)
        ensures
            ledger.wf(),
            ledger@ == LedgerView::empty(epoch, participants as nat, quorum as nat, current.0),
    {
        let ledger = Ledger { epoch, participants, quorum, current: current.0, entries: Vec::new() };
        assert(ledger@.rounds =~= Map::empty());
        ledger
    }

    pub fn epoch(&self) -> (epoch: Epoch)
        ensures
            epoch == self@.epoch,
    {
        self.epoch
    }

    pub fn participants(&self) -> (participants: u32)
        ensures
            participants == self@.participants,
    {
        self.participants
    }

    pub fn quorum(&self) -> (quorum: u32)
        ensures
            quorum == self@.quorum,
    {
        self.quorum
    }

    /// The view of the current round.
    pub fn current(&self) -> (current: ViewNumber)
        ensures
            current.0 == self@.current,
    {
        ViewNumber(self.current)
    }

    /// Whether the ledger keeps `round`.
    pub fn accepts(&self, round: Round) -> (accepted: bool)
        ensures
            accepted == self@.accepts(round),
    {
        round.epoch == self.epoch && round.view.0 < u64::MAX
    }

    /// The place of the entry of the round with the given view.
    fn position(&self, view: u64) -> (place: Option<usize>)
        requires
            self.distinct(),
        ensures
            match place {
                Some(i) => i < self.entries.len() && self.entries[i as int]@.round.view.0 == view
                    && self@.rounds.dom().contains(view) && self@.rounds[view]
                    == self.entries[i as int]@,
                None => !self@.rounds.dom().contains(view),
            },
    {
        let mut i: usize = 0;
        while i < self.entries.len()
            invariant
                i <= self.entries.len(),
                self.distinct(),
                forall|j: int| 0 <= j < i ==> (#[trigger] self.entries[j]@).round.view.0 != view,
            decreases self.entries.len() - i,
        {
            if self.entries[i].round().view.0 == view {
                proof {
                    lemma_rounds_of(self.entries@, i as int);
                }
                return Some(i);
            }
            i += 1;
        }
        None
    }

    /// Whether the ledger holds an entry for the round with the given
    /// view.
    pub fn holds(&self, view: ViewNumber) -> (held: bool)
        requires
            self.wf(),
        ensures
            held == self@.rounds.dom().contains(view.0),
    {
        self.position(view.0).is_some()
    }

    /// Whether the round with the given view is closed.
    pub fn is_closed(&self, view: ViewNumber) -> (closed: bool)
        requires
            self.wf(),
        ensures
            closed == self@.is_closed(view.0),
    {
        if view.0 < self.current {
            return true;
        }
        match self.position(view.0) {
            Some(i) => self.entries[i].decided(),
            None => false,
        }
    }

    /// The outcome of the round with the given view, if it has one.
    pub fn outcome(&self, view: ViewNumber) -> (outcome: Option<Outcome>)
        requires
            self.wf(),
        ensures
            option_view(outcome) == self@.entry(view.0).outcome,
    {
        match self.position(view.0) {
            Some(i) => self.entries[i].outcome(),
            None => None,
        }
    }

    /// The notarize vote recorded for `signer` in the round with the given
    /// view, if there is one.
    pub fn notarize_of(&self, view: ViewNumber, signer: u32) -> (vote: Option<Notarize>)
        requires
            self.wf(),
        ensures
            vote == if signer < self@.participants {
                self@.entry(view.0).notarizes[signer as int]
            } else {
                None
            },
    {
        match self.position(view.0) {
            Some(i) => self.entries[i].notarize_of(signer),
            None => None,
        }
    }

    /// The nullify vote recorded for `signer` in the round with the given
    /// view, if there is one.
    pub fn nullify_of(&self, view: ViewNumber, signer: u32) -> (vote: Option<Nullify>)
        requires
            self.wf(),
        ensures
            vote == if signer < self@.participants {
                self@.entry(view.0).nullifies[signer as int]
            } else {
                None
            },
    {
        match self.position(view.0) {
            Some(i) => self.entries[i].nullify_of(signer),
            None => None,
        }
    }

    /// The recorded votes that notarize `proposal`, in index order.
    pub fn notarize_votes(&self, proposal: &Proposal) -> (votes: Vec<Vote>)
        requires
            self.wf(),
        ensures
            votes@ == self@.notarize_votes(*proposal),
    {
        if !self.accepts(proposal.round) {
            return Vec::new();
        }
        match self.position(proposal.round.view.0) {
            Some(i) => self.entries[i].notarize_votes(proposal),
            None => {
                let votes: Vec<Vote> = Vec::new();
                proof {
                    let flags = self@.entry(proposal.round.view.0).notarize_flags(*proposal);
                    lemma_set_indices(flags);
                    if set_indices(flags).len() > 0 {
                        assert(flags[set_indices(flags)[0]]);
                    }
                    assert(votes@ =~= self@.notarize_votes(*proposal));
                }
                votes
            },
        }
    }

    /// The recorded votes that nullify `round`, in index order.
    pub fn nullify_votes(&self, round: Round) -> (votes: Vec<Vote>)
        requires
            self.wf(),
        ensures
            votes@ == self@.nullify_votes(round),
    {
        if !self.accepts(round) {
            return Vec::new();
        }
        match self.position(round.view.0) {
            Some(i) => self.entries[i].nullify_votes(),
            None => {
                let votes: Vec<Vote> = Vec::new();
                proof {
                    let flags = self@.entry(round.view.0).nullify_flags();
                    lemma_set_indices(flags);
                    if set_indices(flags).len() > 0 {
                        assert(flags[set_indices(flags)[0]]);
                    }
                    assert(votes@ =~= self@.nullify_votes(round));
                }
                votes
            },
        }
    }

    /// Records a notarize vote in the entry of its round.
    pub fn record_notarize(&mut self, notarize: Notarize) -> (receipt: Receipt)
        requires
            old(self).wf(),
        ensures
            final(self).wf(),
            (final(self)@, receipt@) == old(self)@.record_notarize(notarize),
    {
        let round: Round = notarize.proposal.round;
        if !self.accepts(round) {
            return Receipt { inserted: false, evidence: None, quorum: false };
        }
        let closed: bool = self.is_closed(round.view);
        let ghost before = self.entries@;
        match self.position(round.view.0) {
            Some(i) => {
                let receipt: Receipt = self.entries[i].record_notarize(
                    notarize,
                    closed,
                    self.quorum,
                );
                proof {
                    lemma_rounds_after_update(before, self.entries@, i as int);
                    if !receipt.inserted {
                        assert(self@.rounds =~= old(self)@.rounds);
                    }
                }
                receipt
            },
            None => {
                let mut entry: RoundEntry = RoundEntry::new(round, self.participants);
                let receipt: Receipt = entry.record_notarize(notarize, closed, self.quorum);
                if receipt.inserted {
                    proof {
                        lemma_rounds_after_push(before, entry);
                    }
                    self.entries.push(entry);
                }
                receipt
            },
        }
    }

    /// Records a nullify vote in the entry of its round.
    pub fn record_nullify(&mut self, nullify: Nullify) -> (receipt: Receipt)
        requires
            old(self).wf(),
        ensures
            final(self).wf(),
            (final(self)@, receipt@) == old(self)@.record_nullify(nullify),
    {
        let round: Round = nullify.round;
        if !self.accepts(round) {
            return Receipt { inserted: false, evidence: None, quorum: false };
        }
        let closed: bool = self.is_closed(round.view);
        let ghost before = self.entries@;
        match self.position(round.view.0) {
            Some(i) => {
                let receipt: Receipt = self.entries[i].record_nullify(nullify, closed, self.quorum);
                proof {
                    lemma_rounds_after_update(before, self.entries@, i as int);
                    if !receipt.inserted {
                        assert(self@.rounds =~= old(self)@.rounds);
                    }
                }
                receipt
            },
            None => {
                let mut entry: RoundEntry = RoundEntry::new(round, self.participants);
                let receipt: Receipt = entry.record_nullify(nullify, closed, self.quorum);
                if receipt.inserted {
                    proof {
                        lemma_rounds_after_push(before, entry);
                    }
                    self.entries.push(entry);
                }
                receipt
            },
        }
    }

    /// Closes a round with `outcome`, unless the round has an outcome
    /// already. To close it a second time with an outcome that decides the
    /// same changes nothing; with one that decides otherwise it changes
    /// nothing either, and gives evidence.
    pub fn close(&mut self, outcome: Outcome) -> (closure: Closure)
        requires
            old(self).wf(),
        ensures
            final(self).wf(),
            (final(self)@, closure@) == old(self)@.close(outcome@),
            closure@ is Unchanged || closure@ is Conflict || closure@ is Foreign ==> final(self)@
                == old(self)@,
    {
        let round: Round = outcome.round();
        if !self.accepts(round) {
            return Closure::Foreign;
        }
        let ghost before = self.entries@;
        let closure: Closure = match self.position(round.view.0) {
            Some(i) => {
                let closure: Closure = self.entries[i].close(outcome);
                proof {
                    lemma_rounds_after_update(before, self.entries@, i as int);
                    if !(closure@ is Closed) {
                        assert(self@.rounds =~= old(self)@.rounds);
                    }
                }
                closure
            },
            None => {
                let mut entry: RoundEntry = RoundEntry::new(round, self.participants);
                let closure: Closure = entry.close(outcome);
                proof {
                    lemma_rounds_after_push(before, entry);
                }
                self.entries.push(entry);
                closure
            },
        };
        match &closure {
            Closure::Closed => {
                if round.view.0 >= self.current {
                    self.current = round.view.0 + 1;
                }
            },
            _ => {},
        }
        closure
    }

    /// Drops the entries of the rounds that have an outcome and lie more
    /// than `horizon` rounds before the current one.
    pub fn prune(&mut self, horizon: u64)
        requires
            old(self).wf(),
        ensures
            final(self).wf(),
            final(self)@ == old(self)@.prune(horizon),
    {
        let ghost source = self.entries@;
        let ghost before = self@;
        let ghost origin: Seq<int> = Seq::empty();
        let ghost slot: Seq<int> = Seq::new(source.len(), |i: int| -1);
        let current: u64 = self.current;
        let mut kept: Vec<RoundEntry> = Vec::new();
        while self.entries.len() > 0
            invariant
                before.wf(),
                before.rounds == rounds_of(source),
                before.current == current,
                self.epoch == before.epoch,
                self.participants == before.participants,
                self.quorum == before.quorum,
                self.current == current,
                distinct_rounds(source),
                distinct_rounds(kept@),
                self.entries@ == source.take(self.entries.len() as int),
                self.entries.len() <= source.len(),
                origin.len() == kept.len(),
                slot.len() == source.len(),
                forall|j: int|
                    0 <= j < kept.len() ==> self.entries.len() <= #[trigger] origin[j]
                        < source.len() && kept[j] == source[origin[j]] && !stale(
                        source[origin[j]]@,
                        current,
                        horizon,
                    ),
                forall|i: int|
                    self.entries.len() <= i < source.len() && !stale(
                        (#[trigger] source[i])@,
                        current,
                        horizon,
                    ) ==> 0 <= slot[i] < kept.len() && kept[slot[i]] == source[i],
            decreases self.entries.len(),
        {
            let ghost last = self.entries.len() - 1;
            let entry: RoundEntry = self.entries.pop().unwrap();
            assert(entry == source[last]);
            let view: u64 = entry.round().view.0;
            let gone: bool = entry.decided() && view < current && current - view > horizon;
            assert(gone == stale(entry@, current, horizon));
            if !gone {
                proof {
                    assert forall|j: int| 0 <= j < kept.len() implies (#[trigger] kept[j]@).round.view
                        != entry@.round.view by {
                        assert(source[last]@.round.view != source[origin[j]]@.round.view);
                    }
                    lemma_rounds_after_push(kept@, entry);
                    origin = origin.push(last);
                    slot = slot.update(last, kept.len() as int);
                }
                kept.push(entry);
            }
        }
        proof {
            lemma_rounds_after_prune(source, kept@, origin, slot, current, horizon);
            assert(rounds_of(kept@) =~= before.prune(horizon).rounds);
        }
        self.entries = kept;
    }
}

/// Whether an entry may go: its round has an outcome and lies more than
/// `horizon` rounds before the round with the view `current`.
pub open spec fn stale(entry: EntryView, current: u64, horizon: u64) -> bool {
    entry.outcome is Some && entry.round.view.0 + horizon < current
}

proof fn lemma_rounds_after_prune(
    source: Seq<RoundEntry>,
    kept: Seq<RoundEntry>,
    origin: Seq<int>,
    slot: Seq<int>,
    current: u64,
    horizon: u64,
)
    requires
        distinct_rounds(source),
        distinct_rounds(kept),
        origin.len() == kept.len(),
        slot.len() == source.len(),
        forall|j: int|
            0 <= j < kept.len() ==> 0 <= #[trigger] origin[j] < source.len() && kept[j]
                == source[origin[j]] && !stale(source[origin[j]]@, current, horizon),
        forall|i: int|
            0 <= i < source.len() && !stale((#[trigger] source[i])@, current, horizon) ==> 0
                <= slot[i] < kept.len() && kept[slot[i]] == source[i],
    ensures
        rounds_of(kept) == Map::new(
            |view: u64|
                rounds_of(source).dom().contains(view) && !stale(
                    rounds_of(source)[view],
                    current,
                    horizon,
                ),
            |view: u64| rounds_of(source)[view],
        ),
        forall|view: u64| #[trigger]
            rounds_of(source).dom().contains(view) ==> rounds_of(source)[view].round.view.0 == view,
{
    let left = rounds_of(kept);
    let right = Map::new(
        |view: u64|
            rounds_of(source).dom().contains(view) && !stale(
                rounds_of(source)[view],
                current,
                horizon,
            ),
        |view: u64| rounds_of(source)[view],
    );
    assert forall|v: u64| left.dom().contains(v) <==> right.dom().contains(v) by {
        if holds_view(kept, v) {
            let j = place_of(kept, v);
            lemma_rounds_of(source, origin[j]);
        }
        if right.dom().contains(v) {
            let i = place_of(source, v);
            lemma_rounds_of(source, i);
            assert(!stale(source[i]@, current, horizon));
            assert(kept[slot[i]]@.round.view.0 == v);
        }
    }
    assert forall|v: u64| left.dom().contains(v) implies left[v] == right[v] by {
        let j = place_of(kept, v);
        lemma_rounds_of(kept, j);
        lemma_rounds_of(source, origin[j]);
    }
    assert(left =~= right);
    assert forall|view: u64| #[trigger]
        rounds_of(source).dom().contains(view) implies rounds_of(source)[view].round.view.0
        == view by {
        lemma_rounds_of(source, place_of(source, view));
    }
}

/// Whether `after` holds what `before` held of the votes of the round with
/// the given view: no recorded vote is lost or replaced.
pub open spec fn keeps_votes(before: LedgerView, after: LedgerView, view: u64) -> bool {
    &&& forall|signer: int|
        0 <= signer < before.participants && (#[trigger] before.entry(view).notarizes[signer])
            is Some ==> after.entry(view).notarizes[signer] == before.entry(view).notarizes[signer]
    &&& forall|signer: int|
        0 <= signer < before.participants && (#[trigger] before.entry(view).nullifies[signer])
            is Some ==> after.entry(view).nullifies[signer] == before.entry(view).nullifies[signer]
}

/// Whether two ledgers are for the same epoch, participants and quorum.
pub open spec fn same_setting(before: LedgerView, after: LedgerView) -> bool {
    &&& after.epoch == before.epoch
    &&& after.participants == before.participants
    &&& after.quorum == before.quorum
}

/// Recording a notarize vote keeps the ledger well formed, the current
/// round, every recorded vote and every outcome. An inserted vote stands at
/// its signer's index. Quorum is reached only in an open round, with
/// exactly the quorum of votes for the proposal.
pub proof fn lemma_record_notarize(ledger: LedgerView, notarize: Notarize)
    requires
        ledger.wf(),
    ensures
        ({
            let (after, receipt) = ledger.record_notarize(notarize);
            let view = notarize.proposal.round.view.0;
            &&& after.wf()
            &&& same_setting(ledger, after)
            &&& after.current == ledger.current
            &&& forall|other: u64| keeps_votes(ledger, after, other)
            &&& forall|other: u64| (#[trigger] after.entry(other)).outcome == ledger.entry(other).outcome
            &&& forall|other: u64| other != view ==> #[trigger] after.entry(other) == ledger.entry(other)
            &&& after.entry(view).nullifies == ledger.entry(view).nullifies
            &&& receipt.inserted ==> ledger.accepts(notarize.proposal.round) && after.entry(
                view,
            ).notarizes[notarize.vote.signer as int] == Some(notarize)
            &&& !receipt.inserted ==> after == ledger
            &&& receipt.quorum ==> receipt.inserted && !ledger.is_closed(view) && after.entry(
                view,
            ).wf(ledger.participants) && after.entry(view).notarize_count(notarize.proposal)
                == ledger.quorum
        }),
{
    let (after, receipt) = ledger.record_notarize(notarize);
    let view = notarize.proposal.round.view.0;
    if receipt.inserted {
        assert(after.rounds.dom().contains(view));
        assert forall|other: u64| #[trigger] after.rounds.dom().contains(other) implies {
            &&& after.rounds[other].wf(after.participants)
            &&& after.rounds[other].round == after.round(other)
            &&& other < u64::MAX
            &&& other >= after.current ==> after.rounds[other].outcome is None
        } by {
            if other != view {
                assert(ledger.rounds.dom().contains(other));
            } else {
                if ledger.rounds.dom().contains(view) {
                }
            }
        }
        assert forall|other: u64| keeps_votes(ledger, after, other) by {
            if other != view {
                assert(after.entry(other) == ledger.entry(other));
            }
        }
    }
}

/// Recording a nullify vote keeps the ledger well formed, the current
/// round, every recorded vote and every outcome. An inserted vote stands at
/// its signer's index. Quorum is reached only in an open round, with
/// exactly the quorum of votes.
pub proof fn lemma_record_nullify(ledger: LedgerView, nullify: Nullify)
    requires
        ledger.wf(),
    ensures
        ({
            let (after, receipt) = ledger.record_nullify(nullify);
            let view = nullify.round.view.0;
            &&& after.wf()
            &&& same_setting(ledger, after)
            &&& after.current == ledger.current
            &&& forall|other: u64| keeps_votes(ledger, after, other)
            &&& forall|other: u64| (#[trigger] after.entry(other)).outcome == ledger.entry(other).outcome
            &&& forall|other: u64| other != view ==> #[trigger] after.entry(other) == ledger.entry(other)
            &&& after.entry(view).notarizes == ledger.entry(view).notarizes
            &&& receipt.inserted ==> ledger.accepts(nullify.round) && after.entry(
                view,
            ).nullifies[nullify.vote.signer as int] == Some(nullify)
            &&& !receipt.inserted ==> after == ledger
            &&& receipt.quorum ==> receipt.inserted && !ledger.is_closed(view) && after.entry(
                view,
            ).wf(ledger.participants) && after.entry(view).nullify_count() == ledger.quorum
                && after.entry(view).round == nullify.round
        }),
{
    let (after, receipt) = ledger.record_nullify(nullify);
    let view = nullify.round.view.0;
    if receipt.inserted {
        assert(after.rounds.dom().contains(view));
        assert forall|other: u64| #[trigger] after.rounds.dom().contains(other) implies {
            &&& after.rounds[other].wf(after.participants)
            &&& after.rounds[other].round == after.round(other)
            &&& other < u64::MAX
            &&& other >= after.current ==> after.rounds[other].outcome is None
        } by {
            if other != view {
                assert(ledger.rounds.dom().contains(other));
            } else {
                if ledger.rounds.dom().contains(view) {
                }
            }
        }
        assert forall|other: u64| keeps_votes(ledger, after, other) by {
            if other != view {
                assert(after.entry(other) == ledger.entry(other));
            }
        }
    }
}

/// Closing a round keeps the ledger well formed and every recorded vote,
/// and never moves the current round back. The first outcome of a round
/// becomes its outcome, and the current round then lies beyond it. To close
/// a round that has an outcome changes nothing.
pub proof fn lemma_close(ledger: LedgerView, outcome: OutcomeView)
    requires
        ledger.wf(),
    ensures
        ({
            let (after, closure) = ledger.close(outcome);
            let view = outcome.round().view.0;
            &&& after.wf()
            &&& same_setting(ledger, after)
            &&& after.current >= ledger.current
            &&& forall|other: u64| keeps_votes(ledger, after, other)
            &&& forall|other: u64|
                (#[trigger] after.entry(other)).notarizes == ledger.entry(other).notarizes
                    && after.entry(other).nullifies == ledger.entry(other).nullifies
            &&& forall|other: u64| other != view ==> #[trigger] after.entry(other) == ledger.entry(other)
            &&& closure is Closed <==> ledger.accepts(outcome.round()) && ledger.entry(view).outcome
                is None
            &&& closure is Closed ==> after.entry(view).outcome == Some(outcome) && after.current
                > view && after.current == if view >= ledger.current {
                view + 1
            } else {
                ledger.current as int
            }
            &&& !(closure is Closed) ==> after == ledger
            &&& ledger.accepts(outcome.round()) && ledger.entry(view).outcome is Some ==> closure
                == if ledger.entry(view).outcome.unwrap().agrees(outcome) {
                ClosureView::Unchanged
            } else {
                ClosureView::Conflict(
                    EvidenceView::ConflictingOutcome {
                        recorded: ledger.entry(view).outcome.unwrap(),
                        conflicting: outcome,
                    },
                )
            }
        }),
{
    let (after, closure) = ledger.close(outcome);
    let view = outcome.round().view.0;
    if ledger.accepts(outcome.round()) {
        if ledger.rounds.dom().contains(view) {
        }
        if closure is Closed {
            assert(after.rounds.dom().contains(view));
            assert forall|other: u64| #[trigger] after.rounds.dom().contains(other) implies {
                &&& after.rounds[other].wf(after.participants)
                &&& after.rounds[other].round == after.round(other)
                &&& other < u64::MAX
                &&& other >= after.current ==> after.rounds[other].outcome is None
            } by {
                if other != view {
                    assert(ledger.rounds.dom().contains(other));
                }
            }
            assert forall|other: u64| keeps_votes(ledger, after, other) by {
                if other != view {
                    assert(after.entry(other) == ledger.entry(other));
                }
            }
        }
    }
}

/// Pruning keeps the ledger well formed and the current round, and leaves
/// alone every round but those that may go: the current round, every later
/// one and every one within the horizon stay as they were.
pub proof fn lemma_prune(ledger: LedgerView, horizon: u64)
    requires
        ledger.wf(),
    ensures
        ledger.prune(horizon).wf(),
        same_setting(ledger, ledger.prune(horizon)),
        ledger.prune(horizon).current == ledger.current,
        forall|view: u64|
            !ledger.prunable(view, horizon) ==> #[trigger] ledger.prune(horizon).entry(view)
                == ledger.entry(view),
        forall|view: u64|
            ledger.prunable(view, horizon) ==> #[trigger] ledger.prune(horizon).entry(view)
                == EntryView::empty(ledger.round(view), ledger.participants),
{
    let after = ledger.prune(horizon);
    assert forall|other: u64| #[trigger] after.rounds.dom().contains(other) implies {
        &&& after.rounds[other].wf(after.participants)
        &&& after.rounds[other].round == after.round(other)
        &&& other < u64::MAX
        &&& other >= after.current ==> after.rounds[other].outcome is None
    } by {
        assert(ledger.rounds.dom().contains(other));
    }
}

/// To close a round a second time with an outcome that decides the same
/// changes nothing. To close it with one that decides otherwise changes
/// nothing either: the first outcome stands, and the two are evidence.
pub proof fn lemma_close_is_idempotent(ledger: LedgerView, first: OutcomeView, second: OutcomeView)
    requires
        ledger.wf(),
        ledger.close(first).1 is Closed,
        second.round() == first.round(),
    ensures
        ({
            let closed = ledger.close(first).0;
            &&& closed.close(first) == (closed, ClosureView::Unchanged)
            &&& second.agrees(first) ==> closed.close(second) == (closed, ClosureView::Unchanged)
            &&& !second.agrees(first) ==> closed.close(second) == (
                closed,
                ClosureView::Conflict(
                    EvidenceView::ConflictingOutcome { recorded: first, conflicting: second },
                ),
            )
            &&& closed.close(second).0.entry(first.round().view.0).outcome == Some(first)
        }),
{
    lemma_close(ledger, first);
    let closed = ledger.close(first).0;
    lemma_close(closed, first);
    lemma_close(closed, second);
}

/// The order in which the notarize votes of two signers arrive does not
/// matter to what the ledger holds, nor then to the certificate that its
/// votes make.
pub proof fn lemma_notarize_order(ledger: LedgerView, first: Notarize, second: Notarize)
    requires
        ledger.wf(),
        first.vote.signer != second.vote.signer,
    ensures
        ledger.record_notarize(first).0.record_notarize(second).0 == ledger.record_notarize(
            second,
        ).0.record_notarize(first).0,
{
    lemma_record_notarize(ledger, first);
    lemma_record_notarize(ledger, second);
    let one = ledger.record_notarize(first).0;
    let other = ledger.record_notarize(second).0;
    lemma_record_notarize(one, second);
    lemma_record_notarize(other, first);
    let left = one.record_notarize(second).0;
    let right = other.record_notarize(first).0;
    let at = first.proposal.round.view.0;
    let to = second.proposal.round.view.0;
    if ledger.rounds.dom().contains(at) {
    }
    if ledger.rounds.dom().contains(to) {
    }
    if ledger.accepts(first.proposal.round) && ledger.accepts(second.proposal.round) && at == to
        && first.vote.signer < ledger.participants && second.vote.signer < ledger.participants {
        assert(one.entry(at).notarizes[second.vote.signer as int] == ledger.entry(
            at,
        ).notarizes[second.vote.signer as int]);
        assert(other.entry(at).notarizes[first.vote.signer as int] == ledger.entry(
            at,
        ).notarizes[first.vote.signer as int]);
        assert(left.entry(at).notarizes =~= right.entry(at).notarizes);
    }
    assert(left.rounds =~= right.rounds);
}

/// The order in which the nullify votes of two signers arrive does not
/// matter to what the ledger holds.
pub proof fn lemma_nullify_order(ledger: LedgerView, first: Nullify, second: Nullify)
    requires
        ledger.wf(),
        first.vote.signer != second.vote.signer,
    ensures
        ledger.record_nullify(first).0.record_nullify(second).0 == ledger.record_nullify(
            second,
        ).0.record_nullify(first).0,
{
    lemma_record_nullify(ledger, first);
    lemma_record_nullify(ledger, second);
    let one = ledger.record_nullify(first).0;
    let other = ledger.record_nullify(second).0;
    lemma_record_nullify(one, second);
    lemma_record_nullify(other, first);
    let left = one.record_nullify(second).0;
    let right = other.record_nullify(first).0;
    let at = first.round.view.0;
    let to = second.round.view.0;
    if ledger.rounds.dom().contains(at) {
    }
    if ledger.rounds.dom().contains(to) {
    }
    if ledger.accepts(first.round) && ledger.accepts(second.round) && at == to && first.vote.signer
        < ledger.participants && second.vote.signer < ledger.participants {
        assert(one.entry(at).nullifies[second.vote.signer as int] == ledger.entry(
            at,
        ).nullifies[second.vote.signer as int]);
        assert(other.entry(at).nullifies[first.vote.signer as int] == ledger.entry(
            at,
        ).nullifies[first.vote.signer as int]);
        assert(left.entry(at).nullifies =~= right.entry(at).nullifies);
    }
    assert(left.rounds =~= right.rounds);
}

/// Whether a notarize vote or a nullify vote arrives first does not matter
/// to what the ledger holds, whoever signed them.
pub proof fn lemma_vote_kinds_order(ledger: LedgerView, notarize: Notarize, nullify: Nullify)
    requires
        ledger.wf(),
    ensures
        ledger.record_notarize(notarize).0.record_nullify(nullify).0 == ledger.record_nullify(
            nullify,
        ).0.record_notarize(notarize).0,
{
    lemma_record_notarize(ledger, notarize);
    lemma_record_nullify(ledger, nullify);
    let one = ledger.record_notarize(notarize).0;
    let other = ledger.record_nullify(nullify).0;
    lemma_record_nullify(one, nullify);
    lemma_record_notarize(other, notarize);
    let left = one.record_nullify(nullify).0;
    let right = other.record_notarize(notarize).0;
    let at = notarize.proposal.round.view.0;
    let to = nullify.round.view.0;
    if ledger.rounds.dom().contains(at) {
    }
    if ledger.rounds.dom().contains(to) {
    }
    assert(left.rounds =~= right.rounds);
}

} // verus!
