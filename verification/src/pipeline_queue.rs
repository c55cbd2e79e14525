//! A join that restores the order of the records and ends when the number
//! of the end of the sequence is the number that is due.

use crate::pipeline::{closing_envelopes, forward, lemma_views_push, report, views, Envelope, PipelineInfo, Step};
use crate::pipeline_matcher::{PathMatch, PathMatchView};
use crate::pipeline_sorter::{let_go, next_after, released, run_len};
use std::collections::HashMap;
use std::time::Duration;
use vstd::prelude::*;

verus! {

broadcast use vstd::std_specs::hash::group_hash_axioms;

/// The queue as a value: what it holds, and which number is due.
pub struct QueueView {
    pub next: usize,
    pub pending: Map<usize, PathMatchView>,
    pub infos: Seq<Seq<char>>,
    pub errors: Seq<Seq<char>>,
}

/// The queue after the envelope `msg`: a record is taken in and every
/// record whose turn has come is let go; a start of sequence sets the number
/// that is due and clears the notes and errors.
pub open spec fn queue_after(q: QueueView, msg: Envelope<PathMatchView>) -> QueueView {
    match msg {
        Envelope::SeqDat(x, p) => {
            let held = q.pending.insert(x, p);
            let count = run_len(held.dom(), q.next as int);
            QueueView {
                pending: held.remove_keys(Set::new(|k: usize| q.next <= k < q.next + count)),
                next: next_after(q.next, count),
                ..q
            }
        },
        Envelope::SeqBeg(x) => QueueView { next: x, infos: Seq::empty(), errors: Seq::empty(), ..q },
        _ => q,
    }
}

/// The envelope `msg` ends the queue: it is the end of the sequence and
/// holds the number that is due.
pub open spec fn queue_ends(q: QueueView, msg: Envelope<PathMatchView>) -> bool {
    msg matches Envelope::SeqEnd(x) && x == q.next
}

/// What the queue with the identity `id` sends on the envelope `msg`.
pub open spec fn queue_sends(q: QueueView, id: usize, msg: Envelope<PathMatchView>, busy: Duration, wall: Duration) -> Seq<
    Envelope<PathMatchView>,
> {
    match msg {
        Envelope::SeqDat(x, p) => released(q.pending.insert(x, p), q.next),
        Envelope::SeqEnd(x) => if x == q.next {
            closing_envelopes(id, q.infos, q.errors, busy, wall, x)
        } else {
            Seq::empty()
        },
        _ => seq![msg],
    }
}

/// A join that needs no count of its inputs.
pub struct PipelineQueue {
    pub infos: Vec<String>,
    pub errors: Vec<String>,
    pub map: HashMap<usize, PathMatch>,
    pub msg_id: usize,
}

impl View for PipelineQueue {
    type V = QueueView;

    open spec fn view(&self) -> QueueView {
        QueueView {
            next: self.msg_id,
            pending: self.map@.map_values(|p: PathMatch| p@),
            infos: views(self.infos@),
            errors: views(self.errors@),
        }
    }
}

impl PipelineQueue {
    /// An empty queue that waits for the number 0.
    pub fn new() -> (queue: Self)
        ensures
            queue@ == (QueueView { next: 0, pending: Map::empty(), infos: Seq::empty(), errors: Seq::empty() }),
    {
        let queue = PipelineQueue { infos: Vec::new(), errors: Vec::new(), map: HashMap::new(), msg_id: 0 };
        assert(queue@.pending =~= Map::empty());
        assert(queue@.infos =~= Seq::empty());
        assert(queue@.errors =~= Seq::empty());
        queue
    }

    /// Takes the news that an input was closed and that `still_open` inputs
    /// are open, and says whether the stage goes on: a closed input ends the
    /// stage only where it was the last that was open; else the stage goes on
    /// with the others, until the end of sequence that is due arrives.
    pub fn input_closed(&self, still_open: usize) -> (go_on: bool)
        ensures
            go_on == (still_open > 0),
    {
        still_open > 0
    }

    /// Takes one envelope from an input. `busy` and `wall` are the times of
    /// this stage so far; they go out with the report at the end.
    pub fn handle(&mut self, id: usize, msg: PipelineInfo<PathMatch>, busy: Duration, wall: Duration) -> (step: Step<
        PathMatch,
    >)
        ensures
            final(self)@ == queue_after(old(self)@, msg@),
            views(step.send@) == queue_sends(old(self)@, id, msg@, busy, wall),
            step.done == queue_ends(old(self)@, msg@),
    {
        match msg {
            PipelineInfo::SeqDat(x, p) => {
                let _ = self.map.insert(x, p);
                assert(self.map@.map_values(|p: PathMatch| p@) =~= old(self)@.pending.insert(x, p@));
                let ghost held = self.map@;
                assert(held.map_values(|p: PathMatch| p@).dom() =~= held.dom());
                let send: Vec<PipelineInfo<PathMatch>> = let_go(&mut self.map, &mut self.msg_id);
                proof {
                    let count = run_len(held.dom(), old(self).msg_id as int);
                    assert(self@.pending =~= held.map_values(|p: PathMatch| p@).remove_keys(
                        Set::new(|k: usize| old(self).msg_id <= k < old(self).msg_id + count),
                    ));
                }
                Step { send, done: false }
            },
            PipelineInfo::SeqBeg(x) => {
                self.msg_id = x;
                self.infos = Vec::new();
                self.errors = Vec::new();
                let mut send: Vec<PipelineInfo<PathMatch>> = Vec::new();
                send.push(PipelineInfo::SeqBeg(x));
                assert(views(send@) =~= seq![msg@]);
                assert(views(self.infos@) =~= Seq::empty());
                assert(views(self.errors@) =~= Seq::empty());
                Step { send, done: false }
            },
            PipelineInfo::SeqEnd(x) => {
                if x != self.msg_id {
                    let send: Vec<PipelineInfo<PathMatch>> = Vec::new();
                    assert(views(send@) =~= Seq::empty());
                    Step { send, done: false }
                } else {
                    let mut send: Vec<PipelineInfo<PathMatch>> = report(id, &self.infos, &self.errors, busy, wall);
                    let ghost before = send@;
                    send.push(PipelineInfo::SeqEnd(x));
                    proof {
                        lemma_views_push(before, send@.last());
                    }
                    Step { send, done: true }
                }
            },
            other => {
                let mut send: Vec<PipelineInfo<PathMatch>> = Vec::new();
                match forward::<PathMatch, PathMatch>(other) {
                    Some(m) => {
                        send.push(m);
                        assert(views(send@) =~= seq![msg@]);
                    },
                    None => {},
                }
                Step { send, done: false }
            },
        }
    }
}

} // verus!
