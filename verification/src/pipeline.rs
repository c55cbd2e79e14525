//! The envelopes that travel between the stages, and what every stage does
//! with the ones that are not its data.

use std::time::Duration;
use vstd::prelude::*;

verus! {

/// What a channel between two stages carries.
pub enum PipelineInfo<T> {
    /// Start of a sequence, with the first sequence number.
    SeqBeg(usize),
    /// A payload under its sequence number.
    SeqDat(usize, T),
    /// End of a sequence, with the number behind the last one given out.
    SeqEnd(usize),
    /// A note of the stage with the given identity.
    MsgInfo(usize, String),
    /// An error of the stage with the given identity.
    MsgErr(usize, String),
    /// The time a stage was busy, and the time from its start to its end.
    MsgTime(usize, Duration, Duration),
}

/// What a `PipelineInfo` stands for: the payload and the texts by their views.
pub enum Envelope<V> {
    SeqBeg(usize),
    SeqDat(usize, V),
    SeqEnd(usize),
    MsgInfo(usize, Seq<char>),
    MsgErr(usize, Seq<char>),
    MsgTime(usize, Duration, Duration),
}

impl<T: View> View for PipelineInfo<T> {
    type V = Envelope<T::V>;

    open spec fn view(&self) -> Envelope<T::V> {
        match self {
            PipelineInfo::SeqBeg(x) => Envelope::SeqBeg(*x),
            PipelineInfo::SeqDat(x, p) => Envelope::SeqDat(*x, p@),
            PipelineInfo::SeqEnd(x) => Envelope::SeqEnd(*x),
            PipelineInfo::MsgInfo(id, text) => Envelope::MsgInfo(*id, text@),
            PipelineInfo::MsgErr(id, text) => Envelope::MsgErr(*id, text@),
            PipelineInfo::MsgTime(id, busy, wall) => Envelope::MsgTime(*id, *busy, *wall),
        }
    }
}

/// The views of `items`, one for one.
pub open spec fn views<T: View>(items: Seq<T>) -> Seq<T::V> {
    items.map_values(|t: T| t@)
}

/// One more item gives one more view.
pub proof fn lemma_views_push<T: View>(items: Seq<T>, item: T)
    ensures
        views(items.push(item)) == views(items).push(item@),
{
    assert(views(items.push(item)) =~= views(items).push(item@));
}

/// The views of two lists in a row are the views of the first, then those of
/// the second.
pub proof fn lemma_views_add<T: View>(head: Seq<T>, tail: Seq<T>)
    ensures
        views(head + tail) == views(head) + views(tail),
{
    assert(views(head + tail) =~= views(head) + views(tail));
}

/// What a stage sends on, and whether it has come to its end.
pub struct Step<U> {
    pub send: Vec<PipelineInfo<U>>,
    pub done: bool,
}

/// The notes of a stage as envelopes.
pub open spec fn info_envelopes<V>(id: usize, texts: Seq<Seq<char>>) -> Seq<Envelope<V>> {
    texts.map_values(|text: Seq<char>| Envelope::MsgInfo(id, text))
}

/// The errors of a stage as envelopes.
pub open spec fn error_envelopes<V>(id: usize, texts: Seq<Seq<char>>) -> Seq<Envelope<V>> {
    texts.map_values(|text: Seq<char>| Envelope::MsgErr(id, text))
}

/// What a stage reports when its sequence ends: its notes, its errors, then
/// its times.
pub open spec fn report_envelopes<V>(
    id: usize,
    infos: Seq<Seq<char>>,
    errors: Seq<Seq<char>>,
    busy: Duration,
    wall: Duration,
) -> Seq<Envelope<V>> {
    info_envelopes(id, infos) + error_envelopes(id, errors) + seq![Envelope::MsgTime(id, busy, wall)]
}

/// What a stage with one output sends when its sequence ends: its report,
/// then the end of the sequence.
pub open spec fn closing_envelopes<V>(
    id: usize,
    infos: Seq<Seq<char>>,
    errors: Seq<Seq<char>>,
    busy: Duration,
    wall: Duration,
    last: usize,
) -> Seq<Envelope<V>> {
    report_envelopes(id, infos, errors, busy, wall) + seq![Envelope::SeqEnd(last)]
}

/// Builds the report of a stage.
pub fn report<U: View>(id: usize, infos: &Vec<String>, errors: &Vec<String>, busy: Duration, wall: Duration) -> (out:
    Vec<PipelineInfo<U>>)
    ensures
        views(out@) == report_envelopes::<U::V>(id, views(infos@), views(errors@), busy, wall),
{
    let mut out: Vec<PipelineInfo<U>> = Vec::new();
    let mut i: usize = 0;
    while i < infos.len()
        invariant
            i <= infos@.len(),
            views(out@) == info_envelopes::<U::V>(id, views(infos@).take(i as int)),
        decreases infos@.len() - i,
    {
        let ghost before = out@;
        out.push(PipelineInfo::MsgInfo(id, infos[i].clone()));
        proof {
            lemma_views_push(before, out@.last());
            assert(views(infos@).take(i + 1) =~= views(infos@).take(i as int).push(infos@[i as int]@));
        }
        i += 1;
    }
    assert(views(infos@).take(i as int) =~= views(infos@));
    let ghost notes = views(out@);
    let mut j: usize = 0;
    while j < errors.len()
        invariant
            j <= errors@.len(),
            views(out@) == notes + error_envelopes::<U::V>(id, views(errors@).take(j as int)),
        decreases errors@.len() - j,
    {
        let ghost before = out@;
        out.push(PipelineInfo::MsgErr(id, errors[j].clone()));
        proof {
            lemma_views_push(before, out@.last());
            assert(views(errors@).take(j + 1) =~= views(errors@).take(j as int).push(errors@[j as int]@));
        }
        j += 1;
    }
    assert(views(errors@).take(j as int) =~= views(errors@));
    let ghost before = out@;
    out.push(PipelineInfo::MsgTime(id, busy, wall));
    proof {
        lemma_views_push(before, out@.last());
    }
    out
}

/// Hands on a note, an error or a time report as it came, for a stage of
/// another payload type. Nothing is made of an envelope of the sequence.
pub fn forward<T: View, U: View>(msg: PipelineInfo<T>) -> (out: Option<PipelineInfo<U>>)
    ensures
        match msg@ {
            Envelope::MsgInfo(id, text) => out matches Some(m) && m@ == Envelope::<U::V>::MsgInfo(id, text),
            Envelope::MsgErr(id, text) => out matches Some(m) && m@ == Envelope::<U::V>::MsgErr(id, text),
            Envelope::MsgTime(id, busy, wall) => out matches Some(m) && m@ == Envelope::<U::V>::MsgTime(
                id,
                busy,
                wall,
            ),
            _ => out is None,
        },
{
    match msg {
        PipelineInfo::MsgInfo(id, text) => Some(PipelineInfo::MsgInfo(id, text)),
        PipelineInfo::MsgErr(id, text) => Some(PipelineInfo::MsgErr(id, text)),
        PipelineInfo::MsgTime(id, busy, wall) => Some(PipelineInfo::MsgTime(id, busy, wall)),
        _ => None,
    }
}

} // verus!
