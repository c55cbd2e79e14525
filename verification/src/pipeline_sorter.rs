//! The sorter stage: joins the outputs of the matchers and gives the records
//! out again in the order of their sequence numbers.

use crate::pipeline::{closing_envelopes, forward, lemma_views_push, report, views, Envelope, PipelineInfo, Step};
use crate::pipeline_matcher::{PathMatch, PathMatchView};
use std::collections::HashMap;
use std::time::Duration;
use vstd::prelude::*;

verus! {

broadcast use vstd::std_specs::hash::group_hash_axioms;

/// How many sequence numbers from `next` on are waiting in a row.
pub open spec fn run_len(waiting: Set<usize>, next: int) -> nat
    decreases usize::MAX + 1 - next,
{
    if 0 <= next <= usize::MAX && waiting.contains(next as usize) {
        1 + run_len(waiting, next + 1)
    } else {
        0
    }
}

/// The records that leave the buffer `pending` when `next` is the number
/// that is due: those under `next` and the numbers that follow it without a
/// gap, in that order.
pub open spec fn released(pending: Map<usize, PathMatchView>, next: usize) -> Seq<Envelope<PathMatchView>> {
    Seq::new(
        run_len(pending.dom(), next as int),
        |i: int| Envelope::SeqDat((next + i) as usize, pending[(next + i) as usize]),
    )
}

/// The number that is due after `count` records have left from `next` on.
pub open spec fn next_after(next: usize, count: nat) -> usize {
    if next + count > usize::MAX {
        usize::MAX
    } else {
        (next + count) as usize
    }
}

/// The sorter as a value: its settings and what it holds.
pub struct SorterView {
    /// Records pass as they come.
    pub through: bool,
    /// The sequence number that is due.
    pub next: usize,
    /// The records that wait for their turn.
    pub pending: Map<usize, PathMatchView>,
    /// A start of sequence has been seen.
    pub started: bool,
    /// How many inputs have ended.
    pub ended: usize,
    /// How many inputs there are.
    pub inputs: usize,
    pub infos: Seq<Seq<char>>,
    pub errors: Seq<Seq<char>>,
}

/// The sorter after the envelope `msg`.
pub open spec fn sorter_after(s: SorterView, msg: Envelope<PathMatchView>) -> SorterView {
    match msg {
        Envelope::SeqDat(x, p) => if s.through {
            s
        } else {
            let held = s.pending.insert(x, p);
            let count = run_len(held.dom(), s.next as int);
            SorterView {
                pending: held.remove_keys(Set::new(|k: usize| s.next <= k < s.next + count)),
                next: next_after(s.next, count),
                ..s
            }
        },
        Envelope::SeqBeg(x) => if s.started {
            s
        } else {
            SorterView { next: x, started: true, ..s }
        },
        Envelope::SeqEnd(_) => SorterView {
            ended: if s.ended < usize::MAX {
                (s.ended + 1) as usize
            } else {
                s.ended
            },
            ..s
        },
        _ => s,
    }
}

/// What the sorter sends when the record `p` arrives under the number `x`:
/// the record itself in through mode, else what leaves the buffer.
pub open spec fn data_sends(s: SorterView, x: usize, p: PathMatchView) -> Seq<Envelope<PathMatchView>> {
    if s.through {
        seq![Envelope::SeqDat(x, p)]
    } else {
        released(s.pending.insert(x, p), s.next)
    }
}

/// What the sorter with the identity `id` sends on the envelope `msg`, where
/// its times are `busy` and `wall`.
pub open spec fn sorter_sends(s: SorterView, id: usize, msg: Envelope<PathMatchView>, busy: Duration, wall: Duration) -> Seq<
    Envelope<PathMatchView>,
> {
    match msg {
        Envelope::SeqDat(x, p) => data_sends(s, x, p),
        Envelope::SeqBeg(x) => if s.started {
            Seq::empty()
        } else {
            seq![msg]
        },
        Envelope::SeqEnd(x) => if sorter_ends(s, msg) {
            closing_envelopes(id, s.infos, s.errors, busy, wall, x)
        } else {
            Seq::empty()
        },
        _ => seq![msg],
    }
}

/// Whether the sorter goes on when an input was closed and `still_open`
/// inputs are open: it goes on with those until the ends of all inputs were
/// seen, and stops where none is open any more.
pub open spec fn sorter_goes_on(s: SorterView, still_open: usize) -> bool {
    s.ended < s.inputs && still_open > 0
}

/// The envelope `msg` is the end of the last input that was still open.
pub open spec fn sorter_ends(s: SorterView, msg: Envelope<PathMatchView>) -> bool {
    msg is SeqEnd && s.ended < usize::MAX && s.ended + 1 == s.inputs
}

/// Lets go of the records in `map` under the number `due` and the numbers
/// that follow it without a gap, in that order, and moves `due` behind them.
pub(crate) fn let_go(map: &mut HashMap<usize, PathMatch>, due: &mut usize) -> (out: Vec<PipelineInfo<PathMatch>>)
    ensures
        *final(due) == next_after(*old(due), run_len(old(map)@.dom(), *old(due) as int)),
        final(map)@ == old(map)@.remove_keys(
            Set::new(|k: usize| *old(due) <= k < *old(due) + run_len(old(map)@.dom(), *old(due) as int)),
        ),
        views(out@) == released(old(map)@.map_values(|p: PathMatch| p@), *old(due)),
{
    let ghost start = *due;
    let ghost held = map@;
    let ghost held_views = held.map_values(|p: PathMatch| p@);
    assert(held_views.dom() =~= held.dom());
    let mut out: Vec<PipelineInfo<PathMatch>> = Vec::new();
    let ghost mut count: nat = 0;
    assert(map@ =~= held.remove_keys(Set::new(|k: usize| start <= k < start + count)));
    assert(views(out@) =~= Seq::new(
        count,
        |i: int| Envelope::SeqDat((start + i) as usize, held_views[(start + i) as usize]),
    ));
    loop
        invariant_except_break
            *due == start + count,
        invariant
            forall|k: usize| start <= k < start + count ==> held.dom().contains(k),
            map@ == held.remove_keys(Set::new(|k: usize| start <= k < start + count)),
            views(out@) == Seq::new(
                count,
                |i: int| Envelope::SeqDat((start + i) as usize, held_views[(start + i) as usize]),
            ),
            held_views == held.map_values(|p: PathMatch| p@),
        ensures
            count == run_len(held.dom(), start as int),
            *due == next_after(start, count),
        decreases usize::MAX - *due,
    {
        let this: usize = *due;
        if !map.contains_key(&this) {
            proof {
                lemma_run_prefix(held.dom(), start as int, count);
            }
            break;
        }
        let ghost before = out@;
        let record: PathMatch = map.remove(&this).unwrap();
        out.push(PipelineInfo::SeqDat(this, record));
        proof {
            lemma_views_push(before, out@.last());
            assert(map@ =~= held.remove_keys(Set::new(|k: usize| start <= k < start + count + 1)));
            assert(views(out@) =~= Seq::new(
                count + 1,
                |i: int| Envelope::SeqDat((start + i) as usize, held_views[(start + i) as usize]),
            ));
            count = count + 1;
        }
        if this == usize::MAX {
            proof {
                lemma_run_prefix(held.dom(), start as int, count);
            }
            break;
        }
        *due = this + 1;
    }
    proof {
        assert(views(out@) =~= released(held_views, start));
    }
    out
}

/// The join of the matcher outputs.
pub struct PipelineSorter {
    pub infos: Vec<String>,
    pub errors: Vec<String>,
    pub through: bool,
    pub map: HashMap<usize, PathMatch>,
    pub seq_no: usize,
    pub join_num: usize,
    pub seq_beg_arrived: bool,
    pub end_num: usize,
}

impl View for PipelineSorter {
    type V = SorterView;

    open spec fn view(&self) -> SorterView {
        SorterView {
            through: self.through,
            next: self.seq_no,
            pending: self.map@.map_values(|p: PathMatch| p@),
            started: self.seq_beg_arrived,
            ended: self.end_num,
            inputs: self.join_num,
            infos: views(self.infos@),
            errors: views(self.errors@),
        }
    }
}

impl PipelineSorter {
    /// A sorter for `num` inputs, in order-restoring mode, that has seen
    /// nothing yet.
    pub fn new(num: usize) -> (sorter: Self)
        ensures
            sorter@ == (SorterView {
                through: false,
                next: 0,
                pending: Map::empty(),
                started: false,
                ended: 0,
                inputs: num,
                infos: Seq::empty(),
                errors: Seq::empty(),
            }),
    {
        let sorter = PipelineSorter {
            infos: Vec::new(),
            errors: Vec::new(),
            through: false,
            map: HashMap::new(),
            seq_no: 0,
            join_num: num,
            seq_beg_arrived: false,
            end_num: 0,
        };
        assert(sorter@.pending =~= Map::empty());
        assert(sorter@.infos =~= Seq::empty());
        assert(sorter@.errors =~= Seq::empty());
        sorter
    }

    /// Takes the record with the number `x` into the buffer and lets go of
    /// every record whose turn has come.
    fn release(&mut self, x: usize, p: PathMatch) -> (out: Vec<PipelineInfo<PathMatch>>)
        requires
            !old(self).through,
        ensures
            final(self)@ == sorter_after(old(self)@, Envelope::SeqDat(x, p@)),
            views(out@) == released(old(self)@.pending.insert(x, p@), old(self)@.next),
    {
        let _ = self.map.insert(x, p);
        assert(self.map@.map_values(|p: PathMatch| p@) =~= old(self)@.pending.insert(x, p@));
        let ghost held = self.map@;
        assert(held.map_values(|p: PathMatch| p@).dom() =~= held.dom());
        let out: Vec<PipelineInfo<PathMatch>> = let_go(&mut self.map, &mut self.seq_no);
        proof {
            let count = run_len(held.dom(), old(self).seq_no as int);
            assert(self@.pending =~= held.map_values(|p: PathMatch| p@).remove_keys(
                Set::new(|k: usize| old(self).seq_no <= k < old(self).seq_no + count),
            ));
        }
        out
    }

    /// Takes the news that an input was closed and that `still_open` inputs
    /// are open, and says whether the stage goes on: a closed input ends the
    /// stage only where it was the last that was open; else the stage goes on
    /// with the others until it has seen the ends of all inputs.
    pub fn input_closed(&self, still_open: usize) -> (go_on: bool)
        ensures
            go_on == sorter_goes_on(self@, still_open),
    {
        self.end_num < self.join_num && still_open > 0
    }

    /// Takes one envelope from an input. `busy` and `wall` are the times of
    /// this stage so far; they go out with the report at the end.
    pub fn handle(&mut self, id: usize, msg: PipelineInfo<PathMatch>, busy: Duration, wall: Duration) -> (step: Step<
        PathMatch,
    >)
        ensures
            final(self)@ == sorter_after(old(self)@, msg@),
            views(step.send@) == sorter_sends(old(self)@, id, msg@, busy, wall),
            step.done == sorter_ends(old(self)@, msg@),
    {
        match msg {
            PipelineInfo::SeqDat(x, p) => {
                if self.through {
                    let mut send: Vec<PipelineInfo<PathMatch>> = Vec::new();
                    send.push(PipelineInfo::SeqDat(x, p));
                    assert(views(send@) =~= seq![msg@]);
                    Step { send, done: false }
                } else {
                    let send: Vec<PipelineInfo<PathMatch>> = self.release(x, p);
                    Step { send, done: false }
                }
            },
            PipelineInfo::SeqBeg(x) => {
                let mut send: Vec<PipelineInfo<PathMatch>> = Vec::new();
                if !self.seq_beg_arrived {
                    self.seq_no = x;
                    self.seq_beg_arrived = true;
                    send.push(PipelineInfo::SeqBeg(x));
                    assert(views(send@) =~= seq![msg@]);
                } else {
                    assert(views(send@) =~= Seq::empty());
                }
                Step { send, done: false }
            },
            PipelineInfo::SeqEnd(x) => {
                if self.end_num < usize::MAX {
                    self.end_num += 1;
                    if self.end_num == self.join_num {
                        let mut send: Vec<PipelineInfo<PathMatch>> = report(id, &self.infos, &self.errors, busy, wall);
                        let ghost before = send@;
                        send.push(PipelineInfo::SeqEnd(x));
                        proof {
                            lemma_views_push(before, send@.last());
                        }
                        return Step { send, done: true };
                    }
                }
                let send: Vec<PipelineInfo<PathMatch>> = Vec::new();
                assert(views(send@) =~= Seq::empty());
                Step { send, done: false }
            },
            other => {
                let mut send: Vec<PipelineInfo<PathMatch>> = Vec::new();
                match forward::<PathMatch, PathMatch>(other) {
                    Some(m) => {
                        send.push(m);
                        assert(views(send@) =~= seq![msg@]);
                    },
                    None => {},
                }
                Step { send, done: false }
            },
        }
    }
}

/// Where `count` numbers from `start` on are all waiting, the run from
/// `start` is that long and as much longer as the run behind them.
proof fn lemma_run_prefix(waiting: Set<usize>, start: int, count: nat)
    requires
        0 <= start,
        start + count <= usize::MAX + 1,
        forall|k: usize| start <= k < start + count ==> waiting.contains(k),
    ensures
        run_len(waiting, start) == count + run_len(waiting, start + count),
    decreases count,
{
    if count > 0 {
        assert(waiting.contains(start as usize));
        lemma_run_prefix(waiting, start + 1, (count - 1) as nat);
    }
}

// ---------------------------------------------------------------------------------------------------------------------
// Whole runs
// ---------------------------------------------------------------------------------------------------------------------

/// The sequence numbers of `records`, in their order.
pub open spec fn numbers_of(records: Seq<(usize, PathMatchView)>) -> Seq<usize> {
    records.map_values(|r: (usize, PathMatchView)| r.0)
}

/// The records as data envelopes, in their order.
pub open spec fn data_envelopes(records: Seq<(usize, PathMatchView)>) -> Seq<Envelope<PathMatchView>> {
    records.map_values(|r: (usize, PathMatchView)| Envelope::SeqDat(r.0, r.1))
}

/// The sequence numbers of the data envelopes among `sent`, in their order.
pub open spec fn sent_numbers(sent: Seq<Envelope<PathMatchView>>) -> Seq<usize>
    decreases sent.len(),
{
    if sent.len() == 0 {
        Seq::empty()
    } else {
        match sent.last() {
            Envelope::SeqDat(x, _) => sent_numbers(sent.drop_last()).push(x),
            _ => sent_numbers(sent.drop_last()),
        }
    }
}

/// An index at which a record with the number `x` stands.
pub open spec fn index_of(records: Seq<(usize, PathMatchView)>, x: usize) -> int {
    choose|i: int| 0 <= i < records.len() && records[i].0 == x
}

/// The payload that came under the number `x`.
pub open spec fn payload_of(records: Seq<(usize, PathMatchView)>, x: usize) -> PathMatchView {
    records[index_of(records, x)].1
}

/// The sorter after the records have arrived, one after the other.
pub open spec fn sorter_after_all(s: SorterView, records: Seq<(usize, PathMatchView)>) -> SorterView
    decreases records.len(),
{
    if records.len() == 0 {
        s
    } else {
        sorter_after(
            sorter_after_all(s, records.drop_last()),
            Envelope::SeqDat(records.last().0, records.last().1),
        )
    }
}

/// All that the sorter sends while the records arrive, one after the other.
pub open spec fn sorter_sends_all(s: SorterView, records: Seq<(usize, PathMatchView)>) -> Seq<Envelope<PathMatchView>>
    decreases records.len(),
{
    if records.len() == 0 {
        Seq::empty()
    } else {
        sorter_sends_all(s, records.drop_last()) + data_sends(
            sorter_after_all(s, records.drop_last()),
            records.last().0,
            records.last().1,
        )
    }
}

/// The records under the numbers from `first` on, `count` of them, each
/// with the payload that came under its number.
pub open spec fn in_order(records: Seq<(usize, PathMatchView)>, first: usize, count: nat) -> Seq<Envelope<PathMatchView>> {
    Seq::new(count, |i: int| Envelope::SeqDat((first + i) as usize, payload_of(records, (first + i) as usize)))
}

/// In through mode the sorter sends every record on as it comes, and keeps
/// nothing.
pub proof fn law_sorter_through(s: SorterView, records: Seq<(usize, PathMatchView)>)
    requires
        s.through,
    ensures
        sorter_sends_all(s, records) == data_envelopes(records),
        sorter_after_all(s, records) == s,
        sent_numbers(sorter_sends_all(s, records)).to_multiset() == numbers_of(records).to_multiset(),
    decreases records.len(),
{
    if records.len() == 0 {
        assert(sorter_sends_all(s, records) =~= data_envelopes(records));
        assert(sent_numbers(sorter_sends_all(s, records)) =~= numbers_of(records));
    } else {
        law_sorter_through(s, records.drop_last());
        assert(sorter_sends_all(s, records) =~= data_envelopes(records));
        lemma_sent_numbers_of_data(records);
    }
}

/// The numbers of the data envelopes of `records` are the numbers of
/// `records`.
proof fn lemma_sent_numbers_of_data(records: Seq<(usize, PathMatchView)>)
    ensures
        sent_numbers(data_envelopes(records)) == numbers_of(records),
    decreases records.len(),
{
    if records.len() == 0 {
        assert(sent_numbers(data_envelopes(records)) =~= numbers_of(records));
    } else {
        lemma_sent_numbers_of_data(records.drop_last());
        assert(data_envelopes(records).drop_last() =~= data_envelopes(records.drop_last()));
        assert(numbers_of(records) =~= numbers_of(records.drop_last()).push(records.last().0));
    }
}

/// A run is made of waiting numbers, and ends before one that does not wait.
proof fn lemma_run_is_tight(waiting: Set<usize>, next: int)
    requires
        0 <= next <= usize::MAX,
    ensures
        next + run_len(waiting, next) <= usize::MAX + 1,
        forall|k: usize| next <= k < next + run_len(waiting, next) ==> waiting.contains(k),
        next + run_len(waiting, next) <= usize::MAX ==> !waiting.contains((next + run_len(waiting, next)) as usize),
    decreases usize::MAX + 1 - next,
{
    if waiting.contains(next as usize) {
        if next < usize::MAX {
            lemma_run_is_tight(waiting, next + 1);
        } else {
            assert(run_len(waiting, next + 1) == 0);
        }
    }
}

/// What holds of an order-restoring sorter while records arrive whose
/// numbers are all different and lie in a range that is as long as the list
/// of records: it has sent the records of all numbers below the one that is
/// due, in order, and holds the others that came.
proof fn lemma_ordered_prefix(s: SorterView, records: Seq<(usize, PathMatchView)>, upto: int)
    requires
        !s.through,
        s.pending == Map::<usize, PathMatchView>::empty(),
        numbers_of(records).no_duplicates(),
        forall|i: int| 0 <= i < records.len() ==> s.next <= (#[trigger] records[i]).0 < s.next + records.len(),
        0 <= upto <= records.len(),
    ensures
        ({
            let after = sorter_after_all(s, records.take(upto));
            let seen = numbers_of(records.take(upto));
            let sent = sorter_sends_all(s, records.take(upto));
            let due = s.next + sent.len();
            &&& !after.through
            &&& due <= s.next + records.len()
            &&& due <= usize::MAX + 1
            &&& after.next == next_after(s.next, sent.len())
            &&& forall|k: usize| s.next <= k < due ==> seen.contains(k)
            &&& due <= usize::MAX ==> !seen.contains(due as usize)
            &&& after.pending == Map::new(
                |k: usize| k >= due && seen.contains(k),
                |k: usize| payload_of(records, k),
            )
            &&& sent == in_order(records, s.next, sent.len())
        }),
    decreases upto,
{
    let first = s.next;
    if upto == 0 {
        let after = sorter_after_all(s, records.take(upto));
        let seen = numbers_of(records.take(upto));
        let sent = sorter_sends_all(s, records.take(upto));
        assert(sent.len() == 0);
        assert(after.pending =~= Map::new(
            |k: usize| k >= first + sent.len() && seen.contains(k),
            |k: usize| payload_of(records, k),
        ));
        assert(sent =~= in_order(records, first, 0));
    } else {
        lemma_ordered_prefix(s, records, upto - 1);
        let before_records = records.take(upto - 1);
        let now_records = records.take(upto);
        assert(now_records.drop_last() =~= before_records);
        let x = records[upto - 1].0;
        let p = records[upto - 1].1;
        assert(now_records.last() == records[upto - 1]);
        let before = sorter_after_all(s, before_records);
        let after = sorter_after_all(s, now_records);
        let seen_before = numbers_of(before_records);
        let seen = numbers_of(now_records);
        let sent_before = sorter_sends_all(s, before_records);
        let sent = sorter_sends_all(s, now_records);
        let due_before = first + sent_before.len();
        assert(seen =~= seen_before.push(x));
        // The number is new, so its turn has not passed.
        assert(!seen_before.contains(x)) by {
            if seen_before.contains(x) {
                let i = choose|i: int| 0 <= i < seen_before.len() && seen_before[i] == x;
                assert(numbers_of(records)[i] == x);
                assert(numbers_of(records)[upto - 1] == x);
            }
        }
        assert(x >= due_before);
        assert(before.next == due_before);
        assert(payload_of(records, x) == p) by {
            assert(records[upto - 1].0 == x);
            let i = index_of(records, x);
            assert(numbers_of(records)[i] == x);
            assert(numbers_of(records)[upto - 1] == x);
            assert(i == upto - 1);
        }
        let held = before.pending.insert(x, p);
        assert forall|k: usize| seen.contains(k) <==> (seen_before.contains(k) || k == x) by {
            if seen.contains(k) {
                let i = choose|i: int| 0 <= i < seen.len() && seen[i] == k;
                if i < seen_before.len() {
                    assert(seen_before[i] == k);
                }
            }
            if seen_before.contains(k) {
                let i = choose|i: int| 0 <= i < seen_before.len() && seen_before[i] == k;
                assert(seen[i] == k);
            }
            if k == x {
                assert(seen[upto - 1] == x);
            }
        }
        assert(held =~= Map::new(
            |k: usize| k >= before.next && seen.contains(k),
            |k: usize| payload_of(records, k),
        ));
        let count = run_len(held.dom(), before.next as int);
        lemma_run_is_tight(held.dom(), before.next as int);
        let let_go = released(held, before.next);
        assert(sent == sent_before + let_go);
        assert(sent.len() == sent_before.len() + count);
        let due = first + sent.len();
        assert(due == before.next + count);
        // Whatever waits is below the end of the range, so the run is too.
        assert forall|k: usize| seen.contains(k) implies first <= k < first + records.len() by {
            let i = choose|i: int| 0 <= i < seen.len() && seen[i] == k;
            assert(records[i].0 == k);
        }
        assert(due <= first + records.len()) by {
            if count > 0 {
                let top = (before.next + count - 1) as usize;
                assert(held.dom().contains(top));
            }
        }
        assert(after.next == next_after(before.next, count));
        assert(after.next == next_after(first, sent.len()));
        assert forall|k: usize| first <= k < due implies seen.contains(k) by {
            if k < before.next {
                assert(seen_before.contains(k));
            } else {
                assert(held.dom().contains(k));
            }
        }
        if due <= usize::MAX {
            assert(!seen.contains(due as usize)) by {
                if seen.contains(due as usize) {
                    assert(held.dom().contains(due as usize));
                }
            }
        }
        assert(after.pending =~= Map::new(
            |k: usize| k >= due && seen.contains(k),
            |k: usize| payload_of(records, k),
        ));
        assert(sent =~= in_order(records, first, sent.len())) by {
            assert(sent_before == in_order(records, first, sent_before.len()));
            assert forall|i: int| 0 <= i < count implies let_go[i] == Envelope::SeqDat(
                (before.next + i) as usize,
                payload_of(records, (before.next + i) as usize),
            ) by {
                assert(held.dom().contains((before.next + i) as usize));
            }
        }
    }
}

/// The numbers from `first` up to, not including, `end`.
spec fn number_range(first: usize, end: int) -> Set<usize> {
    Set::new(|k: usize| first <= k < end)
}

/// There are `end - first` numbers from `first` up to `end`.
proof fn lemma_number_range(first: usize, end: int)
    requires
        first <= end <= usize::MAX + 1,
    ensures
        number_range(first, end).finite(),
        number_range(first, end).len() == end - first,
    decreases end - first,
{
    if end == first {
        assert(number_range(first, end) =~= Set::empty());
    } else {
        lemma_number_range(first, end - 1);
        assert(number_range(first, end) =~= number_range(first, end - 1).insert((end - 1) as usize));
    }
}

/// The order-restoring sorter, given records whose numbers are all
/// different and fill the range that begins with the number that is due,
/// sends each of them once, in the order of the numbers without a gap, and
/// keeps none: the numbers it sends are the numbers it received. This holds
/// up to the largest number there is; behind that one the number that is due
/// stays where it is.
pub proof fn law_sorter_restores_order(s: SorterView, records: Seq<(usize, PathMatchView)>)
    requires
        !s.through,
        s.pending == Map::<usize, PathMatchView>::empty(),
        numbers_of(records).no_duplicates(),
        forall|i: int| 0 <= i < records.len() ==> s.next <= (#[trigger] records[i]).0 < s.next + records.len(),
    ensures
        s.next + records.len() <= usize::MAX + 1,
        sorter_sends_all(s, records) == in_order(records, s.next, records.len()),
        sent_numbers(sorter_sends_all(s, records)) == Seq::new(records.len(), |i: int| (s.next + i) as usize),
        sent_numbers(sorter_sends_all(s, records)).to_multiset() == numbers_of(records).to_multiset(),
        sorter_after_all(s, records).pending == Map::<usize, PathMatchView>::empty(),
        sorter_after_all(s, records).next == next_after(s.next, records.len()),
{
    let first = s.next;
    let total = records.len();
    lemma_ordered_prefix(s, records, total as int);
    assert(records.take(total as int) =~= records);
    let after = sorter_after_all(s, records);
    let seen = numbers_of(records);
    let sent = sorter_sends_all(s, records);
    let due = first + sent.len();
    seen.unique_seq_to_set();
    // Different numbers, none below the first: there is room for them.
    assert(first + total <= usize::MAX + 1) by {
        let room = number_range(first, usize::MAX + 1);
        lemma_number_range(first, usize::MAX + 1);
        assert(seen.to_set().subset_of(room)) by {
            assert forall|k: usize| seen.to_set().contains(k) implies room.contains(k) by {
                let i = choose|i: int| 0 <= i < seen.len() && seen[i] == k;
                assert(records[i].0 == k);
            }
        }
        vstd::set_lib::lemma_len_subset(seen.to_set(), room);
    }
    // As many as the range is long: they fill it.
    let all = number_range(first, first + total);
    lemma_number_range(first, first + total);
    assert(seen.to_set().subset_of(all)) by {
        assert forall|k: usize| seen.to_set().contains(k) implies all.contains(k) by {
            let i = choose|i: int| 0 <= i < seen.len() && seen[i] == k;
            assert(records[i].0 == k);
        }
    }
    vstd::set_lib::lemma_subset_equality(seen.to_set(), all);
    if due < first + total {
        assert(all.contains(due as usize));
        assert(seen.to_set().contains(due as usize));
    }
    assert(sent.len() == total);
    assert(after.pending =~= Map::<usize, PathMatchView>::empty()) by {
        assert forall|k: usize| !(k >= due && seen.contains(k)) by {
            if seen.contains(k) {
                assert(seen.to_set().contains(k));
            }
        }
    }
    let numbers = Seq::new(total, |i: int| (first + i) as usize);
    lemma_in_order_numbers(records, first, total);
    // Both lists hold every number of the range once.
    assert(numbers.no_duplicates());
    numbers.lemma_multiset_has_no_duplicates();
    seen.lemma_multiset_has_no_duplicates();
    numbers.to_multiset_ensures();
    seen.to_multiset_ensures();
    assert forall|k: usize| numbers.contains(k) <==> seen.contains(k) by {
        if numbers.contains(k) {
            let i = choose|i: int| 0 <= i < numbers.len() && numbers[i] == k;
            assert(all.contains(k));
            assert(seen.to_set().contains(k));
        }
        if seen.contains(k) {
            assert(seen.to_set().contains(k));
            assert(numbers[k - first] == k);
        }
    }
    assert(numbers.to_multiset() =~= seen.to_multiset()) by {
        assert forall|k: usize| numbers.to_multiset().count(k) == seen.to_multiset().count(k) by {
            if numbers.contains(k) {
                assert(numbers.to_multiset().contains(k));
                assert(seen.to_multiset().contains(k));
            } else {
                assert(!numbers.to_multiset().contains(k));
                assert(!seen.to_multiset().contains(k));
            }
        }
    }
}

/// The numbers of the records in order are the numbers in order.
proof fn lemma_in_order_numbers(records: Seq<(usize, PathMatchView)>, first: usize, count: nat)
    requires
        first + count <= usize::MAX + 1,
    ensures
        sent_numbers(in_order(records, first, count)) == Seq::new(count, |i: int| (first + i) as usize),
    decreases count,
{
    if count == 0 {
        assert(sent_numbers(in_order(records, first, count)) =~= Seq::new(count, |i: int| (first + i) as usize));
    } else {
        lemma_in_order_numbers(records, first, (count - 1) as nat);
        assert(in_order(records, first, count).drop_last() =~= in_order(records, first, (count - 1) as nat));
        assert(sent_numbers(in_order(records, first, count)) =~= Seq::new(count, |i: int| (first + i) as usize));
    }
}

// ---------------------------------------------------------------------------------------------------------------------
// Runs of envelopes
// ---------------------------------------------------------------------------------------------------------------------

/// An envelope as it arrives at the sorter, with the times of the stage at
/// that moment.
pub struct Arrival {
    pub msg: Envelope<PathMatchView>,
    pub busy: Duration,
    pub wall: Duration,
}

/// The records among the envelopes that arrive, in their order.
pub open spec fn records_of(arrivals: Seq<Arrival>) -> Seq<(usize, PathMatchView)>
    decreases arrivals.len(),
{
    if arrivals.len() == 0 {
        Seq::empty()
    } else {
        match arrivals.last().msg {
            Envelope::SeqDat(x, p) => records_of(arrivals.drop_last()).push((x, p)),
            _ => records_of(arrivals.drop_last()),
        }
    }
}

/// The sorter after the envelopes have arrived, one after the other, from
/// whichever inputs.
pub open spec fn sorter_after_run(s: SorterView, arrivals: Seq<Arrival>) -> SorterView
    decreases arrivals.len(),
{
    if arrivals.len() == 0 {
        s
    } else {
        sorter_after(sorter_after_run(s, arrivals.drop_last()), arrivals.last().msg)
    }
}

/// All that the sorter with the identity `id` sends while the envelopes
/// arrive.
pub open spec fn sorter_sends_run(s: SorterView, id: usize, arrivals: Seq<Arrival>) -> Seq<Envelope<PathMatchView>>
    decreases arrivals.len(),
{
    if arrivals.len() == 0 {
        Seq::empty()
    } else {
        sorter_sends_run(s, id, arrivals.drop_last()) + sorter_sends(
            sorter_after_run(s, arrivals.drop_last()),
            id,
            arrivals.last().msg,
            arrivals.last().busy,
            arrivals.last().wall,
        )
    }
}

/// The two sorters hold the same records, wait for the same number and are
/// in the same mode.
pub open spec fn same_buffer(a: SorterView, b: SorterView) -> bool {
    a.through == b.through && a.next == b.next && a.pending == b.pending
}

/// The numbers of two lists of envelopes in a row are the numbers of the
/// first, then those of the second.
proof fn lemma_sent_numbers_add(head: Seq<Envelope<PathMatchView>>, tail: Seq<Envelope<PathMatchView>>)
    ensures
        sent_numbers(head + tail) == sent_numbers(head) + sent_numbers(tail),
    decreases tail.len(),
{
    if tail.len() == 0 {
        assert(head + tail =~= head);
        assert(sent_numbers(head) + sent_numbers(tail) =~= sent_numbers(head));
    } else {
        lemma_sent_numbers_add(head, tail.drop_last());
        assert((head + tail).drop_last() =~= head + tail.drop_last());
        assert((head + tail).last() == tail.last());
        match tail.last() {
            Envelope::SeqDat(x, _) => {
                assert((sent_numbers(head) + sent_numbers(tail.drop_last())).push(x) =~= sent_numbers(head)
                    + sent_numbers(tail.drop_last()).push(x));
            },
            _ => {},
        }
    }
}

/// Envelopes without a record among them have no numbers.
proof fn lemma_no_records_no_numbers(sent: Seq<Envelope<PathMatchView>>)
    requires
        forall|i: int| 0 <= i < sent.len() ==> !((#[trigger] sent[i]) is SeqDat),
    ensures
        sent_numbers(sent) == Seq::<usize>::empty(),
    decreases sent.len(),
{
    if sent.len() > 0 {
        assert(!(sent[sent.len() - 1] is SeqDat));
        assert forall|i: int| 0 <= i < sent.drop_last().len() implies !((#[trigger] sent.drop_last()[i]) is SeqDat) by {
            assert(sent.drop_last()[i] == sent[i]);
        }
        lemma_no_records_no_numbers(sent.drop_last());
    }
}

/// What the sorter sends on an envelope that is no record holds no record.
proof fn lemma_other_sends_no_record(s: SorterView, id: usize, a: Arrival)
    requires
        !(a.msg is SeqDat),
    ensures
        sent_numbers(sorter_sends(s, id, a.msg, a.busy, a.wall)) == Seq::<usize>::empty(),
{
    let sent = sorter_sends(s, id, a.msg, a.busy, a.wall);
    assert forall|i: int| 0 <= i < sent.len() implies !((#[trigger] sent[i]) is SeqDat) by {
        match a.msg {
            Envelope::SeqEnd(x) => {
                if sorter_ends(s, a.msg) {
                    let notes = crate::pipeline::info_envelopes::<PathMatchView>(id, s.infos);
                    let faults = crate::pipeline::error_envelopes::<PathMatchView>(id, s.errors);
                    if i < notes.len() {
                        assert(sent[i] == notes[i]);
                    } else if i < notes.len() + faults.len() {
                        assert(sent[i] == faults[i - notes.len()]);
                    }
                }
            },
            _ => {},
        }
    }
    lemma_no_records_no_numbers(sent);
}

/// Once a start of sequence has been seen, only the records among the
/// envelopes move the buffer of the sorter, and only they bring numbers into
/// what it sends.
proof fn lemma_run_is_run_of_records(s: SorterView, id: usize, arrivals: Seq<Arrival>)
    requires
        s.started,
    ensures
        sorter_after_run(s, arrivals).started,
        same_buffer(sorter_after_run(s, arrivals), sorter_after_all(s, records_of(arrivals))),
        sent_numbers(sorter_sends_run(s, id, arrivals)) == sent_numbers(sorter_sends_all(s, records_of(arrivals))),
    decreases arrivals.len(),
{
    if arrivals.len() > 0 {
        let init = arrivals.drop_last();
        let last = arrivals.last();
        lemma_run_is_run_of_records(s, id, init);
        let before = sorter_after_run(s, init);
        let records_before = records_of(init);
        let sent_before = sorter_sends_run(s, id, init);
        let extra = sorter_sends(before, id, last.msg, last.busy, last.wall);
        lemma_sent_numbers_add(sent_before, extra);
        match last.msg {
            Envelope::SeqDat(x, p) => {
                let records = records_of(arrivals);
                assert(records.drop_last() =~= records_before);
                assert(records.last() == (x, p));
                let twin = sorter_after_all(s, records_before);
                assert(data_sends(before, x, p) == data_sends(twin, x, p));
                lemma_sent_numbers_add(sorter_sends_all(s, records_before), data_sends(twin, x, p));
            },
            _ => {
                lemma_other_sends_no_record(before, id, last);
                assert(sent_numbers(sent_before) + Seq::<usize>::empty() =~= sent_numbers(sent_before));
            },
        }
    }
}

/// A run is its first envelope, then the run of the others.
proof fn lemma_run_first(s: SorterView, id: usize, arrivals: Seq<Arrival>)
    requires
        arrivals.len() > 0,
    ensures
        sorter_after_run(s, arrivals) == sorter_after_run(sorter_after(s, arrivals[0].msg), arrivals.drop_first()),
        sorter_sends_run(s, id, arrivals) == sorter_sends(s, id, arrivals[0].msg, arrivals[0].busy, arrivals[0].wall)
            + sorter_sends_run(sorter_after(s, arrivals[0].msg), id, arrivals.drop_first()),
        !(arrivals[0].msg is SeqDat) ==> records_of(arrivals) == records_of(arrivals.drop_first()),
    decreases arrivals.len(),
{
    let first = arrivals[0];
    let then = sorter_after(s, first.msg);
    let rest = arrivals.drop_first();
    if arrivals.len() == 1 {
        assert(arrivals.drop_last() =~= Seq::<Arrival>::empty());
        assert(rest =~= Seq::<Arrival>::empty());
        assert(arrivals.last() == first);
        assert(sorter_after_run(s, arrivals.drop_last()) == s);
        assert(sorter_sends_run(s, id, arrivals.drop_last()) =~= Seq::<Envelope<PathMatchView>>::empty());
        assert(sorter_sends_run(then, id, rest) =~= Seq::<Envelope<PathMatchView>>::empty());
        assert(records_of(arrivals.drop_last()) =~= Seq::<(usize, PathMatchView)>::empty());
        assert(sorter_sends_run(s, id, arrivals) =~= sorter_sends(s, id, first.msg, first.busy, first.wall)
            + sorter_sends_run(then, id, rest));
    } else {
        let init = arrivals.drop_last();
        lemma_run_first(s, id, init);
        assert(init[0] == first);
        assert(rest.drop_last() =~= init.drop_first());
        assert(rest.last() == arrivals.last());
        let head = sorter_sends(s, id, first.msg, first.busy, first.wall);
        let middle = sorter_sends_run(then, id, init.drop_first());
        let tail = sorter_sends(
            sorter_after_run(s, init),
            id,
            arrivals.last().msg,
            arrivals.last().busy,
            arrivals.last().wall,
        );
        assert((head + middle) + tail =~= head + (middle + tail));
    }
}

/// Whatever else arrives in between and from whichever inputs: a sorter
/// that has seen nothing yet and is started with the number `n`, and then
/// receives records whose numbers are all different and fill the range that
/// begins with `n`, sends the number of every record that it received exactly
/// once, none dropped and none twice; in order-restoring mode it sends them
/// in ascending order without a gap.
pub proof fn law_sorter_run(s: SorterView, id: usize, arrivals: Seq<Arrival>, n: usize)
    requires
        !s.started,
        s.pending == Map::<usize, PathMatchView>::empty(),
        arrivals.len() > 0,
        arrivals[0].msg == Envelope::<PathMatchView>::SeqBeg(n),
        numbers_of(records_of(arrivals)).no_duplicates(),
        forall|i: int|
            0 <= i < records_of(arrivals).len() ==> n <= (#[trigger] records_of(arrivals)[i]).0 < n + records_of(
                arrivals,
            ).len(),
    ensures
        sent_numbers(sorter_sends_run(s, id, arrivals)).to_multiset() == numbers_of(records_of(arrivals)).to_multiset(),
        !s.through ==> sent_numbers(sorter_sends_run(s, id, arrivals)) == Seq::new(
            records_of(arrivals).len(),
            |i: int| (n + i) as usize,
        ),
{
    let first = arrivals[0];
    let started = sorter_after(s, first.msg);
    let rest = arrivals.drop_first();
    let records = records_of(arrivals);
    lemma_run_first(s, id, arrivals);
    lemma_run_is_run_of_records(started, id, rest);
    let head = sorter_sends(s, id, first.msg, first.busy, first.wall);
    lemma_other_sends_no_record(s, id, first);
    lemma_sent_numbers_add(head, sorter_sends_run(started, id, rest));
    assert(Seq::<usize>::empty() + sent_numbers(sorter_sends_run(started, id, rest)) =~= sent_numbers(
        sorter_sends_run(started, id, rest),
    ));
    if s.through {
        law_sorter_through(started, records);
    } else {
        law_sorter_restores_order(started, records);
    }
}

} // verus!
