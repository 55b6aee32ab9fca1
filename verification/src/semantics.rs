//! The playback machine against the recursive reading of a document.
//!
//! A document is a tree, and its playback is most naturally described as a
//! recursion: play each child of a container in order; a stopped child
//! abandons the remaining siblings at once; a handled pause propagates
//! outward unchanged; an unhandled pause of a child is remembered and the
//! remaining siblings go on, with each container starting its own pause
//! bookkeeping afresh. The machine in `player` instead walks the flattened
//! steps with a stack of pending marks. This module writes the recursion down
//! and proves that a machine run over the flattened document ends with
//! exactly the recursion's outcome.
//!
//! One run of a text's chunk stream is abstracted to its fate: undisturbed,
//! paused, stopped, or faulted by some other line. `lemma_polls_only_pend`
//! justifies the first two — any run of quiet and pause polls only raises the
//! pending mark — and a stop or a fault halts the stream at once.
use vstd::prelude::*;

verus! {

use crate::bytes::lit;
use crate::markup::{ItemV, NodeV, flatten_node, flatten_nodes, node_size, nodes_size};
use crate::player::{
    Outcome,
    PhaseV,
    PlayerV,
    StepV,
    spec_init,
    spec_next,
    spec_on_poll,
    spec_text_done,
};

/// What one text's chunk stream amounted to: it ran out undisturbed, a pause
/// was requested along the way, a stop line halted it, or some other line
/// faulted it.
pub enum TextFate {
    Quiet,
    Paused,
    Stopped,
    Faulted(Seq<u8>),
}

/// How a subtree's playback returned to its parent: it ran through, a stop
/// unwound everything, a pause was reported at a mark, or a fault unwound
/// everything.
pub enum RecOut {
    Ran,
    Stopped,
    PausedHandled,
    Faulted,
}

/// A schedule of text fates is well formed when every faulting line is
/// neither the stop nor the pause command.
pub open spec fn wf_fates(fates: Seq<TextFate>) -> bool {
    forall|i: int|
        0 <= i < fates.len() ==> (#[trigger] fates[i] matches TextFate::Faulted(l) ==> l != lit(
            "STOP"@,
        ) && l != lit("PAUSE"@))
}

/// The fate at position `k`, an exhausted schedule reading as undisturbed.
pub open spec fn fate_at(fates: Seq<TextFate>, k: int) -> TextFate {
    if 0 <= k < fates.len() {
        fates[k]
    } else {
        TextFate::Quiet
    }
}

/// The recursive playback of one node, as the document tree reads: the fate
/// schedule is consumed one entry per text, `k` counting the texts reached so
/// far, `pending` the enclosing region's remembered pause. Yields the
/// control outcome, the texts consumed, and the pending mark after.
pub open spec fn rec_node(n: NodeV, fates: Seq<TextFate>, k: int, pending: bool) -> (
    RecOut,
    int,
    bool,
)
    decreases node_size(n), 0int,
{
    match n {
        NodeV::Text(_) => {
            match fate_at(fates, k) {
                TextFate::Quiet => (RecOut::Ran, k + 1, pending),
                TextFate::Paused => (RecOut::Ran, k + 1, true),
                TextFate::Stopped => (RecOut::Stopped, k + 1, pending),
                TextFate::Faulted(_) => (RecOut::Faulted, k + 1, pending),
            }
        },
        NodeV::Mark(_) => {
            if pending {
                (RecOut::PausedHandled, k, pending)
            } else {
                (RecOut::Ran, k, pending)
            }
        },
        NodeV::Container(cs) => {
            // a nested region starts its own pause bookkeeping afresh, and an
            // unhandled pause of the region is inherited when it ends
            let r = rec_nodes(cs, fates, k, false);
            match r.0 {
                RecOut::Ran => (RecOut::Ran, r.1, pending || r.2),
                RecOut::Stopped => (RecOut::Stopped, r.1, pending),
                RecOut::PausedHandled => (RecOut::PausedHandled, r.1, pending),
                RecOut::Faulted => (RecOut::Faulted, r.1, pending),
            }
        },
    }
}

/// The recursive playback of sibling nodes in order: a child that did not run
/// through abandons the remaining siblings.
pub open spec fn rec_nodes(ns: Seq<NodeV>, fates: Seq<TextFate>, k: int, pending: bool) -> (
    RecOut,
    int,
    bool,
)
    decreases nodes_size(ns), ns.len(),
{
    if ns.len() == 0 {
        (RecOut::Ran, k, pending)
    } else {
        let r = rec_node(ns[0], fates, k, pending);
        match r.0 {
            RecOut::Ran => rec_nodes(ns.drop_first(), fates, r.1, r.2),
            _ => r,
        }
    }
}

/// The machine state after streaming one text whose poll run had the given
/// fate, from the state in which the text was handed out.
pub open spec fn apply_fate(p: PlayerV, f: TextFate) -> PlayerV {
    match f {
        TextFate::Quiet => spec_text_done(p),
        TextFate::Paused => spec_text_done(spec_on_poll(p, Some(lit("PAUSE"@))).0),
        TextFate::Stopped => spec_on_poll(p, Some(lit("STOP"@))).0,
        TextFate::Faulted(l) => spec_on_poll(p, Some(l)).0,
    }
}

/// A whole machine run: steps are taken until the machine finishes or fails;
/// each text handed out streams with the next fate of the schedule. Yields
/// the final machine and the texts consumed.
pub open spec fn machine_run(p: PlayerV, fates: Seq<TextFate>, k: int) -> (PlayerV, int)
    decreases p.items.len() - p.pos,
{
    if !(p.phase is Ready) || p.pos < 0 {
        (p, k)
    } else {
        let (q, s) = spec_next(p);
        match s {
            StepV::Speak(_) => {
                match fate_at(fates, k) {
                    TextFate::Quiet => machine_run(apply_fate(q, TextFate::Quiet), fates, k + 1),
                    TextFate::Paused => {
                        let q2 = apply_fate(q, TextFate::Paused);
                        if p.pos < q2.pos <= p.items.len() && q2.items == p.items {
                            machine_run(q2, fates, k + 1)
                        } else {
                            (q2, k + 1)
                        }
                    },
                    TextFate::Stopped => (apply_fate(q, TextFate::Stopped), k + 1),
                    TextFate::Faulted(l) => (apply_fate(q, TextFate::Faulted(l)), k + 1),
                }
            },
            StepV::Mark(_) => {
                if q.phase is Ready {
                    machine_run(q, fates, k)
                } else {
                    (q, k)
                }
            },
            StepV::Entered => machine_run(q, fates, k),
            StepV::Left => machine_run(q, fates, k),
            StepV::Done(_) => (q, k),
            StepV::Failed(_) => (q, k),
        }
    }
}

/// Simulation for one node: with the node's flattened steps lying at the
/// machine's position, the machine run either reaches the state just past
/// them — with the region's pending mark as the recursion computes it — or
/// finishes with the recursion's early outcome.
pub proof fn lemma_run_node(p: PlayerV, n: NodeV, fates: Seq<TextFate>, k: int)
    requires
        p.wf(),
        (p.phase is Ready),
        wf_fates(fates),
        p.pos + flatten_node(n).len() <= p.items.len(),
        p.items.subrange(p.pos, p.pos + flatten_node(n).len() as int) == flatten_node(n),
    ensures
        ({
            let (o, k2, pend2) = rec_node(n, fates, k, p.pending.last());
            let after = PlayerV {
                pos: p.pos + flatten_node(n).len() as int,
                pending: p.pending.update(p.pending.len() - 1, pend2),
                ..p
            };
            match o {
                RecOut::Ran => machine_run(p, fates, k) == machine_run(after, fates, k2),
                RecOut::Stopped => machine_run(p, fates, k).0.phase == PhaseV::Done(Outcome::Stop)
                    && machine_run(p, fates, k).1 == k2,
                RecOut::PausedHandled => machine_run(p, fates, k).0.phase == PhaseV::Done(
                    Outcome::Pause { handled: true },
                ) && machine_run(p, fates, k).1 == k2,
                RecOut::Faulted => (machine_run(p, fates, k).0.phase is Failed) && machine_run(
                    p,
                    fates,
                    k,
                ).1 == k2,
            }
        }),
    decreases node_size(n), 0int,
{
    reveal_strlit("STOP");
    reveal_strlit("PAUSE");
    assert(lit("PAUSE"@) != lit("STOP"@)) by {
        assert(lit("PAUSE"@).len() == 5 && lit("STOP"@).len() == 4);
    }
    let pending0 = p.pending.last();
    match n {
        NodeV::Text(t) => {
            assert(p.items[p.pos] == flatten_node(n)[0]);
            assert(p.items[p.pos] == ItemV::Text(t));
            let (q, s) = spec_next(p);
            assert(s == StepV::Speak(t) && q == (PlayerV { phase: PhaseV::InText, ..p }));
            match fate_at(fates, k) {
                TextFate::Quiet => {
                    let q2 = apply_fate(q, TextFate::Quiet);
                    assert(q2 == (PlayerV { pos: p.pos + 1, phase: PhaseV::Ready, ..p }));
                    assert(machine_run(p, fates, k) == machine_run(q2, fates, k + 1));
                    assert(p.pending.update(p.pending.len() - 1, pending0) =~= p.pending);
                },
                TextFate::Paused => {
                    let q1 = spec_on_poll(q, Some(lit("PAUSE"@))).0;
                    assert(q1 == (PlayerV {
                        pending: p.pending.update(p.pending.len() - 1, true),
                        phase: PhaseV::InText,
                        ..p
                    }));
                    let q2 = apply_fate(q, TextFate::Paused);
                    assert(q2 == (PlayerV {
                        pos: p.pos + 1,
                        pending: p.pending.update(p.pending.len() - 1, true),
                        phase: PhaseV::Ready,
                        ..p
                    }));
                    assert(machine_run(p, fates, k) == machine_run(q2, fates, k + 1));
                },
                TextFate::Stopped => {
                    let q2 = apply_fate(q, TextFate::Stopped);
                    assert(q2.phase == PhaseV::Done(Outcome::Stop));
                    assert(machine_run(p, fates, k) == (q2, k + 1));
                },
                TextFate::Faulted(l) => {
                    assert(fate_at(fates, k) == fates[k]);
                    assert(l != lit("STOP"@) && l != lit("PAUSE"@));
                    let q2 = apply_fate(q, TextFate::Faulted(l));
                    assert(q2.phase == PhaseV::Failed(l));
                    assert(machine_run(p, fates, k) == (q2, k + 1));
                },
            }
        },
        NodeV::Mark(m) => {
            assert(p.items[p.pos] == flatten_node(n)[0]);
            assert(p.items[p.pos] == ItemV::Mark(m));
            let (q, s) = spec_next(p);
            assert(s == StepV::Mark(m));
            if pending0 {
                assert(q.phase == PhaseV::Done(Outcome::Pause { handled: true }));
                assert(machine_run(p, fates, k) == (q, k));
            } else {
                assert(q == (PlayerV { pos: p.pos + 1, ..p }));
                assert(machine_run(p, fates, k) == machine_run(q, fates, k));
                assert(p.pending.update(p.pending.len() - 1, pending0) =~= p.pending);
            }
        },
        NodeV::Container(cs) => {
            let flat = flatten_node(n);
            let inner = flatten_nodes(cs);
            let ll = inner.len() as int;
            assert(flat == seq![ItemV::Enter] + inner + seq![ItemV::Leave]);
            assert(flat.len() == ll + 2);
            assert(p.items[p.pos] == flat[0]);
            assert(flat[0] == ItemV::Enter);
            let (q, s) = spec_next(p);
            assert(s == StepV::Entered);
            assert(q == (PlayerV { pos: p.pos + 1, pending: p.pending.push(false), ..p }));
            assert(machine_run(p, fates, k) == machine_run(q, fates, k));
            assert(q.items.subrange(q.pos, q.pos + ll) =~= inner) by {
                assert forall|j: int| 0 <= j < ll implies q.items.subrange(q.pos, q.pos + ll)[j]
                    == inner[j] by {
                    assert(q.items.subrange(q.pos, q.pos + ll)[j] == p.items[p.pos + 1 + j]);
                    assert(p.items.subrange(p.pos, p.pos + flat.len() as int)[1 + j] == p.items[
                        p.pos + 1 + j
                    ]);
                    assert(flat[1 + j] == inner[j]);
                }
            }
            assert(q.pending.last() == false);
            assert(q.wf());
            lemma_run_nodes(q, cs, fates, k);
            let (o1, k1, pend1) = rec_nodes(cs, fates, k, false);
            let after1 = PlayerV {
                pos: q.pos + ll,
                pending: q.pending.update(q.pending.len() - 1, pend1),
                ..q
            };
            match o1 {
                RecOut::Ran => {
                    assert(machine_run(q, fates, k) == machine_run(after1, fates, k1));
                    assert(after1.pending =~= p.pending.push(pend1));
                    assert(after1.items[after1.pos] == ItemV::Leave) by {
                        assert(p.items.subrange(p.pos, p.pos + flat.len() as int)[1 + ll]
                            == p.items[p.pos + 1 + ll]);
                        assert(flat[1 + ll] == ItemV::Leave);
                    }
                    let (q3, s3) = spec_next(after1);
                    assert(s3 == StepV::Left);
                    assert(after1.pending.len() >= 2);
                    assert(after1.pending.drop_last() =~= p.pending);
                    assert(after1.pending.last() == pend1);
                    assert(machine_run(after1, fates, k1) == machine_run(q3, fates, k1));
                    let after = PlayerV {
                        pos: p.pos + flat.len() as int,
                        pending: p.pending.update(p.pending.len() - 1, pending0 || pend1),
                        ..p
                    };
                    if pend1 {
                        assert(q3.pending == p.pending.update(p.pending.len() - 1, true));
                        assert(after.pending =~= q3.pending);
                    } else {
                        assert(q3.pending == p.pending);
                        assert(after.pending =~= p.pending);
                    }
                    assert(q3 == after);
                },
                RecOut::Stopped => {
                    assert(machine_run(q, fates, k).0.phase == PhaseV::Done(Outcome::Stop));
                    assert(machine_run(q, fates, k).1 == k1);
                },
                RecOut::PausedHandled => {
                    assert(machine_run(q, fates, k).0.phase == PhaseV::Done(
                        Outcome::Pause { handled: true },
                    ));
                    assert(machine_run(q, fates, k).1 == k1);
                },
                RecOut::Faulted => {
                    assert(machine_run(q, fates, k).0.phase is Failed);
                    assert(machine_run(q, fates, k).1 == k1);
                },
            }
        },
    }
}

/// Simulation for sibling nodes in order, the induction partner of
/// `lemma_run_node`.
pub proof fn lemma_run_nodes(p: PlayerV, ns: Seq<NodeV>, fates: Seq<TextFate>, k: int)
    requires
        p.wf(),
        (p.phase is Ready),
        wf_fates(fates),
        p.pos + flatten_nodes(ns).len() <= p.items.len(),
        p.items.subrange(p.pos, p.pos + flatten_nodes(ns).len() as int) == flatten_nodes(ns),
    ensures
        ({
            let (o, k2, pend2) = rec_nodes(ns, fates, k, p.pending.last());
            let after = PlayerV {
                pos: p.pos + flatten_nodes(ns).len() as int,
                pending: p.pending.update(p.pending.len() - 1, pend2),
                ..p
            };
            match o {
                RecOut::Ran => machine_run(p, fates, k) == machine_run(after, fates, k2),
                RecOut::Stopped => machine_run(p, fates, k).0.phase == PhaseV::Done(Outcome::Stop)
                    && machine_run(p, fates, k).1 == k2,
                RecOut::PausedHandled => machine_run(p, fates, k).0.phase == PhaseV::Done(
                    Outcome::Pause { handled: true },
                ) && machine_run(p, fates, k).1 == k2,
                RecOut::Faulted => (machine_run(p, fates, k).0.phase is Failed) && machine_run(
                    p,
                    fates,
                    k,
                ).1 == k2,
            }
        }),
    decreases nodes_size(ns), ns.len(),
{
    let pending0 = p.pending.last();
    if ns.len() == 0 {
        assert(flatten_nodes(ns).len() == 0);
        let after = PlayerV {
            pos: p.pos + 0,
            pending: p.pending.update(p.pending.len() - 1, pending0),
            ..p
        };
        assert(after.pending =~= p.pending);
        assert(after == p);
    } else {
        let head = ns[0];
        let rest = ns.drop_first();
        let fh = flatten_node(head);
        let fr = flatten_nodes(rest);
        assert(flatten_nodes(ns) == fh + fr);
        assert(p.items.subrange(p.pos, p.pos + fh.len() as int) =~= fh) by {
            assert forall|j: int| 0 <= j < fh.len() implies p.items.subrange(
                p.pos,
                p.pos + fh.len() as int,
            )[j] == fh[j] by {
                assert(p.items.subrange(p.pos, p.pos + flatten_nodes(ns).len() as int)[j]
                    == p.items[p.pos + j]);
                assert(flatten_nodes(ns)[j] == fh[j]);
            }
        }
        lemma_run_node(p, head, fates, k);
        let (o1, k1, pend1) = rec_node(head, fates, k, pending0);
        match o1 {
            RecOut::Ran => {
                let after1 = PlayerV {
                    pos: p.pos + fh.len() as int,
                    pending: p.pending.update(p.pending.len() - 1, pend1),
                    ..p
                };
                assert(machine_run(p, fates, k) == machine_run(after1, fates, k1));
                assert(after1.pending.last() == pend1);
                assert(after1.wf());
                assert(after1.items.subrange(after1.pos, after1.pos + fr.len() as int) =~= fr) by {
                    assert forall|j: int| 0 <= j < fr.len() implies after1.items.subrange(
                        after1.pos,
                        after1.pos + fr.len() as int,
                    )[j] == fr[j] by {
                        assert(after1.items.subrange(after1.pos, after1.pos + fr.len() as int)[j]
                            == p.items[p.pos + fh.len() + j]);
                        assert(p.items.subrange(p.pos, p.pos + flatten_nodes(ns).len() as int)[
                            fh.len() + j] == p.items[p.pos + fh.len() + j]);
                        assert(flatten_nodes(ns)[fh.len() + j] == fr[j]);
                    }
                }
                lemma_run_nodes(after1, rest, fates, k1);
                let (o2, k2, pend2) = rec_nodes(rest, fates, k1, pend1);
                assert(rec_nodes(ns, fates, k, pending0) == (o2, k2, pend2));
                match o2 {
                    RecOut::Ran => {
                        let after2 = PlayerV {
                            pos: after1.pos + fr.len() as int,
                            pending: after1.pending.update(after1.pending.len() - 1, pend2),
                            ..after1
                        };
                        let after = PlayerV {
                            pos: p.pos + flatten_nodes(ns).len() as int,
                            pending: p.pending.update(p.pending.len() - 1, pend2),
                            ..p
                        };
                        assert(after2.pending =~= after.pending);
                        assert(after2 == after);
                    },
                    RecOut::Stopped => {},
                    RecOut::PausedHandled => {},
                    RecOut::Faulted => {},
                }
            },
            RecOut::Stopped => {},
            RecOut::PausedHandled => {},
            RecOut::Faulted => {},
        }
    }
}

/// The playback machine realizes the recursive reading of the document: run
/// over the flattened document from the start, it consumes the same texts and
/// ends with the recursion's outcome — ran through with no pause pending is
/// the end, ran through pending is an unhandled pause, a stop is the stop, a
/// pause reported at a mark is a handled pause, and an unexpected line is a
/// fault.
pub proof fn lemma_machine_realizes_recursion(ns: Seq<NodeV>, fates: Seq<TextFate>)
    requires
        wf_fates(fates),
    ensures
        ({
            let (pf, kf) = machine_run(spec_init(flatten_nodes(ns)), fates, 0);
            let (o, k2, pend2) = rec_nodes(ns, fates, 0, false);
            &&& kf == k2
            &&& match o {
                RecOut::Ran => pf.phase == PhaseV::Done(
                    if pend2 {
                        Outcome::Pause { handled: false }
                    } else {
                        Outcome::End
                    },
                ),
                RecOut::Stopped => pf.phase == PhaseV::Done(Outcome::Stop),
                RecOut::PausedHandled => pf.phase == PhaseV::Done(Outcome::Pause { handled: true }),
                RecOut::Faulted => (pf.phase is Failed),
            }
        }),
{
    let p0 = spec_init(flatten_nodes(ns));
    assert(p0.items.subrange(0, flatten_nodes(ns).len() as int) =~= flatten_nodes(ns));
    assert(p0.pending.last() == false);
    lemma_run_nodes(p0, ns, fates, 0);
    let (o, k2, pend2) = rec_nodes(ns, fates, 0, false);
    match o {
        RecOut::Ran => {
            let after = PlayerV {
                pos: 0 + flatten_nodes(ns).len() as int,
                pending: p0.pending.update(p0.pending.len() - 1, pend2),
                ..p0
            };
            assert(after.pending =~= seq![pend2]);
            let (q, s) = spec_next(after);
            assert(after.pos >= after.items.len());
            assert(machine_run(after, fates, k2) == (q, k2));
        },
        RecOut::Stopped => {},
        RecOut::PausedHandled => {},
        RecOut::Faulted => {},
    }
}

} // verus!
