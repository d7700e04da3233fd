//! The events of a streamed response.
use vstd::prelude::*;
use vstd::string::*;
use vstd::utf8::{decode_utf8, valid_utf8};
use crate::headers::clone_bytes;
use crate::metrics::{metrics_of, Metric, MetricUpdate, Outcome};
use crate::text::{same, strip_prefix, texts};

verus! {

/// The text that a byte string stands for, with replacement characters where it
/// is not UTF-8, as `String::from_utf8_lossy` gives it.
pub uninterp spec fn utf8_lossy(bytes: Seq<u8>) -> Seq<char>;

/// `String::from_utf8_lossy`: the text of valid UTF-8, and of other bytes a
/// text with replacement characters, which is named only.
#[verifier::external_body]
fn text_lossy(bytes: &Vec<u8>) -> (r: String)
    ensures
        r@ == utf8_lossy(bytes@),
        valid_utf8(bytes@) ==> r@ == decode_utf8(bytes@),
{
    String::from_utf8_lossy(bytes).into_owned()
}

/// One event for the client.
#[derive(Debug, PartialEq, Eq)]
pub enum SseEvent<S> {
    /// An event with data
    Data(S),
    /// A comment, which clients ignore
    Comment(S),
}

impl View for SseEvent<String> {
    type V = SseEvent<Seq<char>>;

    open spec fn view(&self) -> SseEvent<Seq<char>> {
        match self {
            SseEvent::Data(s) => SseEvent::Data(s@),
            SseEvent::Comment(s) => SseEvent::Comment(s@),
        }
    }
}

/// A list of events, with their text as characters.
pub open spec fn events_of(v: Seq<SseEvent<String>>) -> Seq<SseEvent<Seq<char>>> {
    v.map_values(|e: SseEvent<String>| e@)
}

/// A line without the carriage return that belongs to its line ending.
pub open spec fn without_cr(line: Seq<u8>) -> Seq<u8> {
    if line.len() > 0 && line.last() == 13 {
        line.drop_last()
    } else {
        line
    }
}

/// The lines that have ended: each ends in a line feed, with or without a
/// carriage return before it.
pub open spec fn complete_lines(bytes: Seq<u8>) -> Seq<Seq<u8>>
    decreases bytes.len(),
{
    if !bytes.contains(10) {
        Seq::empty()
    } else {
        let end = bytes.index_of_first(10)->0;
        if 0 <= end < bytes.len() {
            seq![without_cr(bytes.take(end))] + complete_lines(bytes.skip(end + 1))
        } else {
            Seq::empty()
        }
    }
}

/// What follows the last line that has ended.
pub open spec fn unfinished(bytes: Seq<u8>) -> Seq<u8>
    decreases bytes.len(),
{
    if !bytes.contains(10) {
        bytes
    } else {
        let end = bytes.index_of_first(10)->0;
        if 0 <= end < bytes.len() {
            unfinished(bytes.skip(end + 1))
        } else {
            bytes
        }
    }
}

/// The texts of lines of bytes.
pub open spec fn line_texts(lines: Seq<Seq<u8>>) -> Seq<Seq<char>> {
    lines.map_values(|line: Seq<u8>| utf8_lossy(line))
}

/// What the data lines that have ended carry, in order.
pub open spec fn data_of(bytes: Seq<u8>) -> Seq<Seq<char>> {
    payloads(line_texts(complete_lines(bytes)))
}

/// What the last line of a stream carries, where it is a data line without a
/// line ending.
pub open spec fn last_data(bytes: Seq<u8>) -> Seq<Seq<char>> {
    if bytes.len() == 0 {
        Seq::empty()
    } else {
        payloads(seq![utf8_lossy(bytes)])
    }
}

/// What the data lines among these lines carry, in order.
pub open spec fn payloads(lines: Seq<Seq<char>>) -> Seq<Seq<char>>
    decreases lines.len(),
{
    if lines.len() == 0 {
        Seq::empty()
    } else {
        let before = payloads(lines.drop_last());
        if "data: "@.is_prefix_of(lines.last()) {
            before.push(lines.last().skip(6))
        } else {
            before
        }
    }
}

/// One event per data line.
pub open spec fn data_events(data: Seq<Seq<char>>) -> Seq<SseEvent<Seq<char>>> {
    data.map_values(|d: Seq<char>| SseEvent::Data(d))
}

/// The events for a piece of a stream: one per data line, or an empty comment
/// where there is none.
pub open spec fn chunk_events(data: Seq<Seq<char>>) -> Seq<SseEvent<Seq<char>>> {
    if data.len() == 0 {
        seq![SseEvent::Comment(""@)]
    } else {
        data_events(data)
    }
}

/// The measurements for a piece of a stream: the first token once per stream,
/// and the end of the stream at each end mark.
pub open spec fn chunk_metrics(data: Seq<Seq<char>>, started: bool, project: Seq<char>) -> Seq<
    Metric,
>
    decreases data.len(),
{
    if data.len() == 0 {
        Seq::empty()
    } else {
        let before = chunk_metrics(data.drop_last(), started, project);
        let first = if data.len() == 1 && !started {
            seq![MetricUpdate::ObserveFirstToken(project)]
        } else {
            Seq::empty()
        };
        let end = if data.last() == "[DONE]"@ {
            seq![
                MetricUpdate::ObserveUpstreamDuration(project),
                MetricUpdate::ObserveStreamDuration(project),
                MetricUpdate::CountRequest(project, Outcome::Success),
            ]
        } else {
            Seq::empty()
        };
        before + first + end
    }
}

/// What to send on and what to measure for a piece of a stream.
pub struct ChunkOutput {
    pub events: Vec<SseEvent<String>>,
    pub metrics: Vec<MetricUpdate<String>>,
}

/// Bytes, split into the lines that have ended and what follows them.
struct SplitLines {
    lines: Vec<String>,
    rest: Vec<u8>,
}

/// A part of a byte string.
fn part_of(bytes: &Vec<u8>, start: usize, end: usize) -> (r: Vec<u8>)
    requires
        start <= end <= bytes.len(),
    ensures
        r@ == bytes@.subrange(start as int, end as int),
{
    let mut r: Vec<u8> = Vec::new();
    let mut i: usize = start;
    while i < end
        invariant
            start <= i <= end <= bytes.len(),
            r@ == bytes@.subrange(start as int, i as int),
        decreases end - i,
    {
        assert(bytes@.subrange(start as int, i + 1) == bytes@.subrange(
            start as int,
            i as int,
        ).push(bytes@[i as int]));
        r.push(bytes[i]);
        i = i + 1;
    }
    r
}

/// Splits bytes into lines, and reads those that have ended as text.
fn split_lines(bytes: &Vec<u8>) -> (r: SplitLines)
    ensures
        texts(r.lines@) == line_texts(complete_lines(bytes@)),
        r.rest@ == unfinished(bytes@),
        forall|k: int|
            0 <= k < complete_lines(bytes@).len() && valid_utf8(complete_lines(bytes@)[k])
                ==> utf8_lossy(#[trigger] complete_lines(bytes@)[k]) == decode_utf8(
                complete_lines(bytes@)[k],
            ),
{
    let mut lines: Vec<String> = Vec::new();
    let mut start: usize = 0;
    let mut pos: usize = 0;
    let ghost all = complete_lines(bytes@);
    proof {
        assert(bytes@.skip(0) =~= bytes@);
        assert(all.take(0) + complete_lines(bytes@.skip(0)) =~= all);
        assert(texts(lines@) =~= line_texts(all.take(0)));
    }
    while pos < bytes.len()
        invariant
            start <= pos <= bytes.len(),
            all == complete_lines(bytes@),
            forall|k: int| start <= k < pos ==> bytes@[k] != 10,
            lines@.len() <= all.len(),
            all.take(lines@.len() as int) + complete_lines(bytes@.skip(start as int)) == all,
            unfinished(bytes@.skip(start as int)) == unfinished(bytes@),
            texts(lines@) == line_texts(all.take(lines@.len() as int)),
            forall|k: int|
                0 <= k < lines@.len() && valid_utf8(all[k]) ==> utf8_lossy(#[trigger] all[k])
                    == decode_utf8(all[k]),
        decreases bytes.len() - pos,
    {
        if bytes[pos] == 10 {
            let mut end: usize = pos;
            if start < pos && bytes[pos - 1] == 13 {
                end = pos - 1;
            }
            let line = part_of(bytes, start, end);
            let text = text_lossy(&line);
            let ghost done = lines@.len() as int;
            proof {
                let rest = bytes@.skip(start as int);
                let at = pos - start;
                assert(rest[at] == 10);
                assert(rest.contains(10));
                rest.index_of_first_ensures(10);
                assert(rest.index_of_first(10) == Some(at)) by {
                    let first = rest.index_of_first(10)->0;
                    assert(rest[first] == bytes@[start + first]);
                }
                assert(rest.take(at) =~= bytes@.subrange(start as int, pos as int));
                assert(rest.skip(at + 1) =~= bytes@.skip(pos + 1));
                assert(without_cr(rest.take(at)) =~= line@);
                let further = complete_lines(bytes@.skip(pos + 1));
                assert(complete_lines(rest) == seq![line@] + further);
                assert(all[done] == line@) by {
                    assert((all.take(done) + (seq![line@] + further))[done] == line@);
                }
                assert(all.take(done + 1) =~= all.take(done).push(line@));
                assert(all.take(done + 1) + further =~= all.take(done) + (seq![line@] + further));
                assert(texts(lines@.push(text)) =~= texts(lines@).push(text@));
                assert(line_texts(all.take(done + 1)) =~= line_texts(all.take(done)).push(
                    utf8_lossy(line@),
                ));
            }
            lines.push(text);
            start = pos + 1;
        }
        pos = pos + 1;
    }
    let rest = part_of(bytes, start, bytes.len());
    proof {
        let left = bytes@.skip(start as int);
        assert(!left.contains(10)) by {
            if left.contains(10) {
                let k = choose|k: int| 0 <= k < left.len() && left[k] == 10;
                assert(bytes@[start + k] == 10);
            }
        }
        assert(rest@ =~= left);
        assert(all.take(lines@.len() as int) =~= all);
    }
    SplitLines { lines, rest }
}

/// How far a streamed response has come.
pub struct StreamProgress {
    project: String,
    kept: Vec<u8>,
    started: bool,
    ended: bool,
}

impl StreamProgress {
    /// The project of the request.
    pub closed spec fn project(self) -> Seq<char> {
        self.project@
    }

    /// The bytes of a line that has not ended yet.
    pub closed spec fn kept(self) -> Seq<u8> {
        self.kept@
    }

    /// Whether a data line has come.
    pub closed spec fn started(self) -> bool {
        self.started
    }

    /// Whether the end mark has come.
    pub closed spec fn ended(self) -> bool {
        self.ended
    }

    /// A stream of which nothing has come yet.
    pub fn new(project: &str) -> (r: Self)
        ensures
            r.project() == project@,
            r.kept() == Seq::<u8>::empty(),
            !r.started(),
            !r.ended(),
    {
        StreamProgress {
            project: project.to_owned(),
            kept: Vec::new(),
            started: false,
            ended: false,
        }
    }

    /// Takes lines that have come. Every data line becomes an event; the other
    /// lines do not count.
    pub fn on_lines(&mut self, lines: &Vec<String>) -> (r: ChunkOutput)
        ensures
            events_of(r.events@) == data_events(payloads(texts(lines@))),
            metrics_of(r.metrics@) == chunk_metrics(
                payloads(texts(lines@)),
                old(self).started(),
                old(self).project(),
            ),
            final(self).project() == old(self).project(),
            final(self).kept() == old(self).kept(),
            final(self).started() == (old(self).started() || payloads(texts(lines@)).len() > 0),
            final(self).ended() == (old(self).ended() || payloads(texts(lines@)).contains(
                "[DONE]"@,
            )),
    {
        let ghost all = texts(lines@);
        let mut events: Vec<SseEvent<String>> = Vec::new();
        let mut metrics: Vec<MetricUpdate<String>> = Vec::new();
        let mut i: usize = 0;
        let ghost before = self.started;
        let ghost ended_before = self.ended;
        proof {
            reveal_strlit("data: ");
            let none = payloads(all.take(0));
            assert(events_of(events@) == data_events(none));
            assert(metrics_of(metrics@) == chunk_metrics(none, before, self.project@));
        }
        while i < lines.len()
            invariant
                i <= lines.len(),
                all == texts(lines@),
                "data: "@.len() == 6,
                before == old(self).started,
                ended_before == old(self).ended,
                self.ended == (ended_before || payloads(all.take(i as int)).contains("[DONE]"@)),
                self.project@ == old(self).project@,
                self.kept@ == old(self).kept@,
                events_of(events@) == data_events(payloads(all.take(i as int))),
                metrics_of(metrics@) == chunk_metrics(
                    payloads(all.take(i as int)),
                    before,
                    self.project@,
                ),
                self.started == (before || payloads(all.take(i as int)).len() > 0),
            decreases lines.len() - i,
        {
            let ghost data = payloads(all.take(i as int));
            let ghost kept_events = events@;
            proof {
                assert(all.take(i + 1).drop_last() == all.take(i as int));
                assert(all.take(i + 1).last() == lines@[i as int]@);
            }
            if let Some(rest) = strip_prefix(lines[i].as_str(), "data: ") {
                let ghost more = data.push(rest@);
                proof {
                    assert(payloads(all.take(i + 1)) == more);
                    assert(more.drop_last() == data);
                }
                let fresh = !self.started;
                if fresh {
                    self.started = true;
                    metrics.push(MetricUpdate::ObserveFirstToken(self.project.clone()));
                }
                proof {
                    assert(more[more.len() - 1] == rest@);
                    if data.contains("[DONE]"@) {
                        let k = choose|k: int| 0 <= k < data.len() && data[k] == "[DONE]"@;
                        assert(more[k] == "[DONE]"@);
                    }
                    if more.contains("[DONE]"@) && rest@ != "[DONE]"@ {
                        let k = choose|k: int| 0 <= k < more.len() && more[k] == "[DONE]"@;
                        assert(data[k] == "[DONE]"@);
                    }
                }
                if same(rest, "[DONE]") {
                    self.ended = true;
                    metrics.push(MetricUpdate::ObserveUpstreamDuration(self.project.clone()));
                    metrics.push(MetricUpdate::ObserveStreamDuration(self.project.clone()));
                    metrics.push(
                        MetricUpdate::CountRequest(self.project.clone(), Outcome::Success),
                    );
                }
                events.push(SseEvent::Data(rest.to_owned()));
                proof {
                    assert(events_of(events@) == events_of(kept_events).push(
                        SseEvent::Data(rest@),
                    ));
                    assert(data_events(more) == data_events(data).push(SseEvent::Data(rest@)));
                    assert(fresh == (more.len() == 1 && !before));
                    assert(metrics_of(metrics@) == chunk_metrics(more, before, self.project@));
                }
            }
            i = i + 1;
        }
        assert(all.take(i as int) == all);
        ChunkOutput { events, metrics }
    }

    /// Takes a piece of the stream as it came, wherever it was cut. A line counts
    /// once it has ended; until then its bytes are kept.
    pub fn on_chunk(&mut self, chunk: &Vec<u8>) -> (r: ChunkOutput)
        ensures
            ({
                let bytes = old(self).kept() + chunk@;
                &&& events_of(r.events@) == chunk_events(data_of(bytes))
                &&& metrics_of(r.metrics@) == chunk_metrics(
                    data_of(bytes),
                    old(self).started(),
                    old(self).project(),
                )
                &&& forall|k: int|
                    0 <= k < complete_lines(bytes).len() && valid_utf8(complete_lines(bytes)[k])
                        ==> utf8_lossy(#[trigger] complete_lines(bytes)[k]) == decode_utf8(
                        complete_lines(bytes)[k],
                    )
                &&& final(self).kept() == unfinished(bytes)
                &&& final(self).started() == (old(self).started() || data_of(bytes).len() > 0)
                &&& final(self).ended() == (old(self).ended() || data_of(bytes).contains(
                    "[DONE]"@,
                ))
            }),
            final(self).project() == old(self).project(),
    {
        let mut bytes = clone_bytes(&self.kept);
        let mut more = clone_bytes(chunk);
        bytes.append(&mut more);
        assert(bytes@ =~= old(self).kept() + chunk@);
        let split = split_lines(&bytes);
        self.kept = split.rest;
        let mut output = self.on_lines(&split.lines);
        if output.events.len() == 0 {
            output.events.push(SseEvent::Comment("".to_owned()));
            assert(events_of(output.events@) == seq![SseEvent::Comment(""@)]);
        }
        output
    }

    /// The stream is over. A line that has no ending counts as it is.
    pub fn on_end(&mut self) -> (r: ChunkOutput)
        ensures
            events_of(r.events@) == data_events(last_data(old(self).kept())),
            metrics_of(r.metrics@) == chunk_metrics(
                last_data(old(self).kept()),
                old(self).started(),
                old(self).project(),
            ),
            old(self).kept().len() > 0 && valid_utf8(old(self).kept()) ==> utf8_lossy(
                old(self).kept(),
            ) == decode_utf8(old(self).kept()),
            final(self).project() == old(self).project(),
            final(self).kept() == Seq::<u8>::empty(),
            final(self).started() == (old(self).started() || last_data(old(self).kept()).len()
                > 0),
            final(self).ended() == (old(self).ended() || last_data(old(self).kept()).contains(
                "[DONE]"@,
            )),
    {
        let mut lines: Vec<String> = Vec::new();
        if self.kept.len() > 0 {
            lines.push(text_lossy(&self.kept));
            assert(texts(lines@) =~= seq![utf8_lossy(self.kept@)]);
        } else {
            assert(texts(lines@) =~= Seq::<Seq<char>>::empty());
        }
        self.kept = Vec::new();
        self.on_lines(&lines)
    }

    /// The time of the request ran out before the stream was over. Nothing is
    /// sent for that; a stream that has brought its end mark counts as complete.
    pub fn on_elapsed(&self) -> (r: ChunkOutput)
        ensures
            r.events@.len() == 0,
            metrics_of(r.metrics@) == if self.ended() {
                Seq::empty()
            } else {
                seq![MetricUpdate::CountRequest(self.project(), Outcome::Timeout)]
            },
    {
        let mut metrics: Vec<MetricUpdate<String>> = Vec::new();
        if !self.ended {
            metrics.push(MetricUpdate::CountRequest(self.project.clone(), Outcome::Timeout));
            assert(metrics_of(metrics@) == seq![
                MetricUpdate::CountRequest(self.project@, Outcome::Timeout),
            ]);
        } else {
            assert(metrics_of(metrics@) == Seq::<Metric>::empty());
        }
        ChunkOutput { events: Vec::new(), metrics }
    }

    /// The stream could not be read on. Nothing is sent for that.
    pub fn on_error(&self) -> (r: ChunkOutput)
        ensures
            r.events@.len() == 0,
            metrics_of(r.metrics@) == seq![
                MetricUpdate::CountStreamError(self.project()),
                MetricUpdate::CountRequest(self.project(), Outcome::UpstreamError),
            ],
    {
        let mut metrics: Vec<MetricUpdate<String>> = Vec::new();
        metrics.push(MetricUpdate::CountStreamError(self.project.clone()));
        metrics.push(MetricUpdate::CountRequest(self.project.clone(), Outcome::UpstreamError));
        assert(metrics_of(metrics@) == seq![
            MetricUpdate::CountStreamError(self.project@),
            MetricUpdate::CountRequest(self.project@, Outcome::UpstreamError),
        ]);
        ChunkOutput { events: Vec::new(), metrics }
    }
}

} // verus!
