//! The playback state machine.
//!
//! Playback walks the playable steps of a parsed document in order. Text
//! steps hand the surrounding program a string to synthesize; while it streams
//! the resulting audio chunks it polls for interrupt lines and reports each
//! one here, once per chunk boundary. A stop interrupt abandons everything at
//! once. A pause interrupt only remembers itself, lets the current chunk
//! sequence finish, and is reported at the next mark — the next safe
//! checkpoint — or, when no mark follows, at the end of traversal as an
//! unhandled pause. The remembered pause belongs to the speakable region it
//! was raised in: it does not follow playback into a region entered later,
//! and when a region ends still pending, the enclosing region inherits it —
//! so a stop unwinds eagerly while a pause waits for a checkpoint of its own
//! region or an enclosing one. Any other command arriving mid-stream is a
//! playback fault.
use vstd::prelude::*;

verus! {

use vstd::string::is_ascii;
use crate::bytes::{lit, line_is, copy_vec};
use crate::markup::{Item, ItemV, item_views};

/// How playback ended: the document was exhausted, a stop interrupt arrived,
/// or a pause was requested — handled when it was reported at a mark,
/// unhandled when traversal ran out first.
#[derive(Clone, Copy, Debug, PartialEq, Eq, Structural)]
pub enum Outcome {
    End,
    Stop,
    Pause { handled: bool },
}

/// Where the machine stands: ready to take the next step, inside a text
/// step's chunk stream, finished with an outcome, or failed on an unexpected
/// command.
pub enum Phase {
    Ready,
    InText,
    Done(Outcome),
    Failed(Vec<u8>),
}

/// The mathematical shadow of a phase.
pub enum PhaseV {
    Ready,
    InText,
    Done(Outcome),
    Failed(Seq<u8>),
}

impl View for Phase {
    type V = PhaseV;

    open spec fn view(&self) -> PhaseV {
        match self {
            Phase::Ready => PhaseV::Ready,
            Phase::InText => PhaseV::InText,
            Phase::Done(o) => PhaseV::Done(*o),
            Phase::Failed(l) => PhaseV::Failed(l@),
        }
    }
}

/// What the surrounding program is to do next: synthesize and stream a text,
/// report a mark, pass a region boundary, or finish.
pub enum Step {
    Speak(Vec<u8>),
    Mark(Vec<u8>),
    Entered,
    Left,
    Done(Outcome),
    Failed(Vec<u8>),
}

/// The mathematical shadow of a step.
pub enum StepV {
    Speak(Seq<u8>),
    Mark(Seq<u8>),
    Entered,
    Left,
    Done(Outcome),
    Failed(Seq<u8>),
}

impl View for Step {
    type V = StepV;

    open spec fn view(&self) -> StepV {
        match self {
            Step::Speak(t) => StepV::Speak(t@),
            Step::Mark(m) => StepV::Mark(m@),
            Step::Entered => StepV::Entered,
            Step::Left => StepV::Left,
            Step::Done(o) => StepV::Done(*o),
            Step::Failed(l) => StepV::Failed(l@),
        }
    }
}

/// Whether streaming of the current text may go on after a poll.
#[derive(Clone, Copy, Debug, PartialEq, Eq, Structural)]
pub enum PollAct {
    Go,
    Halt,
}

/// The playback machine: the playable steps, the position, one pause-pending
/// mark per open region — the last entry is the innermost — and the phase.
pub struct Player {
    pub items: Vec<Item>,
    pub pos: usize,
    pub pending: Vec<bool>,
    pub phase: Phase,
}

/// The mathematical shadow of the machine.
pub struct PlayerV {
    pub items: Seq<ItemV>,
    pub pos: int,
    pub pending: Seq<bool>,
    pub phase: PhaseV,
}

impl View for Player {
    type V = PlayerV;

    open spec fn view(&self) -> PlayerV {
        PlayerV {
            items: item_views(self.items@),
            pos: self.pos as int,
            pending: self.pending@,
            phase: self.phase@,
        }
    }
}

impl PlayerV {
    /// A valid machine state: the position stays within the steps, the
    /// document root's region is always open, and inside a text stream the
    /// position sits on the text being streamed.
    pub open spec fn wf(self) -> bool {
        &&& 0 <= self.pos <= self.items.len()
        &&& self.pending.len() >= 1
        &&& (self.phase is InText ==> self.pos < self.items.len() && self.items[self.pos] is Text)
    }
}

/// The machine a document starts in: at the first step, only the root region
/// open, nothing pending.
pub open spec fn spec_init(items: Seq<ItemV>) -> PlayerV {
    PlayerV { items, pos: 0, pending: seq![false], phase: PhaseV::Ready }
}

/// One call for the next step. At a text the machine enters the stream. At a
/// mark it advances and, with a pause pending in the current region, finishes
/// as a handled pause. Entering a region opens a fresh pending mark, so an
/// outer pause is not reported inside; leaving a region hands a still-pending
/// pause to the enclosing one. At the end of the steps the machine finishes,
/// as an unhandled pause when the root region is left pending. A finished or
/// failed machine stays exactly where it is.
pub open spec fn spec_next(p: PlayerV) -> (PlayerV, StepV) {
    match p.phase {
        PhaseV::Ready => {
            if p.pos >= p.items.len() {
                let o = if p.pending.last() {
                    Outcome::Pause { handled: false }
                } else {
                    Outcome::End
                };
                (PlayerV { phase: PhaseV::Done(o), ..p }, StepV::Done(o))
            } else {
                match p.items[p.pos] {
                    ItemV::Text(t) => (PlayerV { phase: PhaseV::InText, ..p }, StepV::Speak(t)),
                    ItemV::Mark(m) => {
                        let q = PlayerV {
                            pos: p.pos + 1,
                            phase: if p.pending.last() {
                                PhaseV::Done(Outcome::Pause { handled: true })
                            } else {
                                PhaseV::Ready
                            },
                            ..p
                        };
                        (q, StepV::Mark(m))
                    },
                    ItemV::Enter => (
                        PlayerV { pos: p.pos + 1, pending: p.pending.push(false), ..p },
                        StepV::Entered,
                    ),
                    ItemV::Leave => {
                        let q = if p.pending.len() >= 2 {
                            let inner = p.pending.last();
                            let rest = p.pending.drop_last();
                            PlayerV {
                                pos: p.pos + 1,
                                pending: if inner {
                                    rest.update(rest.len() - 1, true)
                                } else {
                                    rest
                                },
                                ..p
                            }
                        } else {
                            PlayerV { pos: p.pos + 1, ..p }
                        };
                        (q, StepV::Left)
                    },
                }
            }
        },
        PhaseV::InText => (
            p,
            match p.items[p.pos] {
                ItemV::Text(t) => StepV::Speak(t),
                ItemV::Mark(m) => StepV::Mark(m),
                ItemV::Enter => StepV::Entered,
                ItemV::Leave => StepV::Left,
            },
        ),
        PhaseV::Done(o) => (p, StepV::Done(o)),
        PhaseV::Failed(l) => (p, StepV::Failed(l)),
    }
}

/// One interrupt poll at a chunk boundary, inside a text stream. No line
/// continues; a stop line finishes the whole playback at once and halts the
/// stream; a pause line is remembered in the current region and the stream
/// goes on to finish its chunks; any other line is a playback fault. Outside
/// a text stream a poll halts and changes nothing.
pub open spec fn spec_on_poll(p: PlayerV, l: Option<Seq<u8>>) -> (PlayerV, PollAct) {
    if !(p.phase is InText) {
        (p, PollAct::Halt)
    } else {
        match l {
            None => (p, PollAct::Go),
            Some(s) => {
                if s == lit("STOP"@) {
                    (PlayerV { phase: PhaseV::Done(Outcome::Stop), ..p }, PollAct::Halt)
                } else if s == lit("PAUSE"@) {
                    (
                        PlayerV { pending: p.pending.update(p.pending.len() - 1, true), ..p },
                        PollAct::Go,
                    )
                } else {
                    (PlayerV { phase: PhaseV::Failed(s), ..p }, PollAct::Halt)
                }
            },
        }
    }
}

/// The end of a text's chunk stream: the machine moves past the text. Outside
/// a text stream nothing changes.
pub open spec fn spec_text_done(p: PlayerV) -> PlayerV {
    if p.phase is InText {
        PlayerV { pos: p.pos + 1, phase: PhaseV::Ready, ..p }
    } else {
        p
    }
}

impl Player {
    /// Starts playback of a document's playable steps.
    pub fn new(items: Vec<Item>) -> (r: Player)
        ensures
            r@ == spec_init(item_views(items@)),
            r@.wf(),
    {
        let mut pending: Vec<bool> = Vec::new();
        pending.push(false);
        proof {
            assert(pending@ =~= seq![false]);
        }
        Player { items, pos: 0, pending, phase: Phase::Ready }
    }

    /// Takes the next step, as `spec_next` lays it down.
    pub fn next_step(&mut self) -> (r: Step)
        requires
            old(self)@.wf(),
        ensures
            (final (self)@, r@) == spec_next(old(self)@),
            final (self)@.wf(),
    {
        let ph: u8 = match &self.phase {
            Phase::Ready => 0,
            Phase::InText => 1,
            Phase::Done(_) => 2,
            Phase::Failed(_) => 3,
        };
        if ph == 0 {
            if self.pos >= self.items.len() {
                let top = self.pending[self.pending.len() - 1];
                let o = if top {
                    Outcome::Pause { handled: false }
                } else {
                    Outcome::End
                };
                self.phase = Phase::Done(o);
                Step::Done(o)
            } else {
                let kind: u8 = match &self.items[self.pos] {
                    Item::Text(_) => 0,
                    Item::Mark(_) => 1,
                    Item::Enter => 2,
                    Item::Leave => 3,
                };
                if kind == 0 {
                    let tc = match &self.items[self.pos] {
                        Item::Text(t) => copy_vec(t),
                        _ => Vec::new(),
                    };
                    self.phase = Phase::InText;
                    Step::Speak(tc)
                } else if kind == 1 {
                    let mc = match &self.items[self.pos] {
                        Item::Mark(m) => copy_vec(m),
                        _ => Vec::new(),
                    };
                    self.pos = self.pos + 1;
                    let top = self.pending[self.pending.len() - 1];
                    if top {
                        self.phase = Phase::Done(Outcome::Pause { handled: true });
                    } else {
                        self.phase = Phase::Ready;
                    }
                    Step::Mark(mc)
                } else if kind == 2 {
                    self.pos = self.pos + 1;
                    self.pending.push(false);
                    Step::Entered
                } else {
                    self.pos = self.pos + 1;
                    if self.pending.len() >= 2 {
                        let inner = self.pending[self.pending.len() - 1];
                        let ghost before = self.pending@;
                        self.pending.pop();
                        proof {
                            assert(self.pending@ =~= before.drop_last());
                        }
                        if inner {
                            let last = self.pending.len() - 1;
                            self.pending.set(last, true);
                        }
                    }
                    Step::Left
                }
            }
        } else if ph == 1 {
            match &self.items[self.pos] {
                Item::Text(t) => Step::Speak(copy_vec(t)),
                Item::Mark(m) => Step::Mark(copy_vec(m)),
                Item::Enter => Step::Entered,
                Item::Leave => Step::Left,
            }
        } else {
            match &self.phase {
                Phase::Done(o) => Step::Done(*o),
                Phase::Failed(l) => Step::Failed(copy_vec(l)),
                Phase::Ready => Step::Done(Outcome::End),
                Phase::InText => Step::Done(Outcome::End),
            }
        }
    }

    /// Reports one interrupt poll, as `spec_on_poll` lays it down.
    pub fn on_poll(&mut self, line: Option<&Vec<u8>>) -> (r: PollAct)
        requires
            old(self)@.wf(),
        ensures
            (final (self)@, r) == spec_on_poll(
                old(self)@,
                match line {
                    Some(l) => Some(l@),
                    None => None,
                },
            ),
            final (self)@.wf(),
    {
        proof {
            reveal_strlit("STOP");
            reveal_strlit("PAUSE");
            assert(is_ascii("STOP"));
            assert(is_ascii("PAUSE"));
        }
        let in_text = match &self.phase {
            Phase::InText => true,
            _ => false,
        };
        if !in_text {
            return PollAct::Halt;
        }
        match line {
            None => PollAct::Go,
            Some(l) => {
                if line_is(l, "STOP") {
                    self.phase = Phase::Done(Outcome::Stop);
                    PollAct::Halt
                } else if line_is(l, "PAUSE") {
                    let last = self.pending.len() - 1;
                    self.pending.set(last, true);
                    PollAct::Go
                } else {
                    self.phase = Phase::Failed(copy_vec(l));
                    PollAct::Halt
                }
            },
        }
    }

    /// Ends the current text's chunk stream, as `spec_text_done` lays it down.
    pub fn text_done(&mut self)
        requires
            old(self)@.wf(),
        ensures
            final (self)@ == spec_text_done(old(self)@),
            final (self)@.wf(),
    {
        let in_text = match &self.phase {
            Phase::InText => true,
            _ => false,
        };
        if in_text {
            let n = self.items.len();
            proof {
                assert(self.pos < n);
            }
            self.pos = self.pos + 1;
            self.phase = Phase::Ready;
        }
    }
}

/// A finished or failed machine absorbs everything: no step, poll or
/// stream-end moves it, and its step stays the final outcome. With the stop
/// transition below this is stop propagation: a stop interrupt ends playback
/// at once, and no mark or text event follows for any later sibling or
/// ancestor.
pub proof fn lemma_outcome_absorbing(p: PlayerV)
    requires
        (p.phase is Done) || (p.phase is Failed),
    ensures
        spec_next(p).0 == p,
        p.phase matches PhaseV::Done(o) ==> spec_next(p).1 == StepV::Done(o),
        spec_text_done(p) == p,
        forall|l: Option<Seq<u8>>| #[trigger] spec_on_poll(p, l) == (p, PollAct::Halt),
{
}

/// Stop propagation: a stop line arriving at any chunk boundary of any text
/// finishes the whole playback with the stop outcome immediately and halts
/// the stream; the machine then stands absorbed.
pub proof fn lemma_stop_propagation(p: PlayerV)
    requires
        p.wf(),
        (p.phase is InText),
    ensures
        spec_on_poll(p, Some(lit("STOP"@))).0.phase == PhaseV::Done(Outcome::Stop),
        spec_on_poll(p, Some(lit("STOP"@))).1 == PollAct::Halt,
        spec_next(spec_on_poll(p, Some(lit("STOP"@))).0).1 == StepV::Done(Outcome::Stop),
        spec_next(spec_on_poll(p, Some(lit("STOP"@))).0).0 == spec_on_poll(
            p,
            Some(lit("STOP"@)),
        ).0,
{
}

/// The machine after a run of polls, one per chunk boundary.
pub open spec fn run_polls(p: PlayerV, ls: Seq<Option<Seq<u8>>>) -> PlayerV
    decreases ls.len(),
{
    if ls.len() == 0 {
        p
    } else {
        run_polls(spec_on_poll(p, ls[0]).0, ls.drop_first())
    }
}

/// A poll line that merely continues or pauses the stream.
pub open spec fn quiet_or_pause(l: Option<Seq<u8>>) -> bool {
    l is None || l == Some(lit("PAUSE"@))
}

/// Inside a text stream, polls that are silent or pause requests never move
/// the position or end the stream; they only raise the current region's
/// pending mark, which stays raised once any pause arrived.
pub proof fn lemma_polls_only_pend(p: PlayerV, ls: Seq<Option<Seq<u8>>>)
    requires
        p.wf(),
        (p.phase is InText),
        forall|i: int| 0 <= i < ls.len() ==> quiet_or_pause(#[trigger] ls[i]),
    ensures
        run_polls(p, ls) == (PlayerV {
            pending: if exists|i: int|
                0 <= i < ls.len() && #[trigger] ls[i] == Some(lit("PAUSE"@)) {
                p.pending.update(p.pending.len() - 1, true)
            } else {
                p.pending
            },
            ..p
        }),
    decreases ls.len(),
{
    reveal_strlit("STOP");
    reveal_strlit("PAUSE");
    if ls.len() == 0 {
        assert(run_polls(p, ls) =~= PlayerV { pending: p.pending, ..p });
    } else {
        assert(quiet_or_pause(ls[0]));
        assert(lit("PAUSE"@) != lit("STOP"@)) by {
            assert(lit("PAUSE"@).len() == 5 && lit("STOP"@).len() == 4);
        }
        let q = spec_on_poll(p, ls[0]).0;
        assert((q.phase is InText) && q.wf() && q.items == p.items && q.pos == p.pos);
        lemma_polls_only_pend(q, ls.drop_first());
        if ls[0] == Some(lit("PAUSE"@)) {
            assert(q.pending == p.pending.update(p.pending.len() - 1, true));
            assert(q.pending.update(q.pending.len() - 1, true) =~= p.pending.update(
                p.pending.len() - 1,
                true,
            ));
            assert(exists|i: int| 0 <= i < ls.len() && #[trigger] ls[i] == Some(lit("PAUSE"@)));
        } else {
            assert(q.pending == p.pending);
            if exists|i: int| 0 <= i < ls.len() && #[trigger] ls[i] == Some(lit("PAUSE"@)) {
                let w = choose|i: int|
                    0 <= i < ls.len() && #[trigger] ls[i] == Some(lit("PAUSE"@));
                assert(w != 0);
                assert(ls.drop_first()[w - 1] == Some(lit("PAUSE"@)));
            } else {
                assert forall|i: int| 0 <= i < ls.drop_first().len() implies !(
                #[trigger] ls.drop_first()[i] == Some(lit("PAUSE"@))) by {
                    assert(ls.drop_first()[i] == ls[i + 1]);
                }
            }
        }
    }
}

/// Pause propagation: in a document of a text, a mark, and a second text,
/// when a pause request arrives at any chunk boundary while the first text
/// streams, the stream finishes its chunks, the mark is the reported
/// checkpoint — playback finishes there as a handled pause — and the second
/// text is never handed out to be synthesized.
pub proof fn lemma_pause_propagation(
    a: Seq<u8>,
    m: Seq<u8>,
    b: Seq<u8>,
    ls: Seq<Option<Seq<u8>>>,
)
    requires
        forall|i: int| 0 <= i < ls.len() ==> quiet_or_pause(#[trigger] ls[i]),
        exists|i: int| 0 <= i < ls.len() && #[trigger] ls[i] == Some(lit("PAUSE"@)),
    ensures
        ({
            let p0 = spec_init(seq![ItemV::Text(a), ItemV::Mark(m), ItemV::Text(b)]);
            let (p1, s1) = spec_next(p0);
            let p2 = run_polls(p1, ls);
            let p3 = spec_text_done(p2);
            let (p4, s4) = spec_next(p3);
            &&& s1 == StepV::Speak(a)
            &&& s4 == StepV::Mark(m)
            &&& p4.phase == PhaseV::Done(Outcome::Pause { handled: true })
            &&& spec_next(p4).1 == StepV::Done(Outcome::Pause { handled: true })
            &&& spec_next(p4).0 == p4
        }),
{
    let p0 = spec_init(seq![ItemV::Text(a), ItemV::Mark(m), ItemV::Text(b)]);
    let (p1, s1) = spec_next(p0);
    assert(p1.wf());
    lemma_polls_only_pend(p1, ls);
    let p2 = run_polls(p1, ls);
    assert(p2.pending =~= seq![true]);
    assert(p2.pending.last());
    let p3 = spec_text_done(p2);
    let (p4, s4) = spec_next(p3);
    lemma_outcome_absorbing(p4);
}

/// Pause confinement: entering a speakable region opens it with no pause
/// pending, whatever is pending outside — so the first mark inside a region
/// entered after the pause request does not report that pause, and playback
/// goes on past it.
pub proof fn lemma_pause_stays_outside_region(p: PlayerV)
    requires
        p.wf(),
        (p.phase is Ready),
        p.pos < p.items.len(),
        (p.items[p.pos] is Enter),
    ensures
        ({
            let q = spec_next(p).0;
            &&& spec_next(p).1 == StepV::Entered
            &&& q.pending.last() == false
            &&& ((q.pos < q.items.len() && (q.items[q.pos] is Mark)) ==> {
                let (r, s) = spec_next(q);
                s == StepV::Mark(q.items[q.pos]->Mark_0) && r.phase == PhaseV::Ready
            })
        }),
{
}

/// Pause inheritance: a region that ends while its pause is still pending
/// hands the pause to the enclosing region, whose next mark then reports it.
pub proof fn lemma_pause_bubbles_on_leave(p: PlayerV)
    requires
        p.wf(),
        (p.phase is Ready),
        p.pos < p.items.len(),
        (p.items[p.pos] is Leave),
        p.pending.len() >= 2,
        p.pending.last(),
    ensures
        ({
            let q = spec_next(p).0;
            &&& spec_next(p).1 == StepV::Left
            &&& q.pending.len() == p.pending.len() - 1
            &&& q.pending.last() == true
        }),
{
    let rest = p.pending.drop_last();
    assert(rest.update(rest.len() - 1, true).last() == true);
}

} // verus!
