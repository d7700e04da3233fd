//! What holds of every streamed response, wherever it was cut on its way.
use vstd::prelude::*;
use crate::metrics::{Metric, MetricUpdate, Outcome};
use crate::sse::{
    chunk_events, chunk_metrics, complete_lines, data_events, data_of, events_of, last_data,
    line_texts, payloads, unfinished, utf8_lossy, without_cr, SseEvent,
};

verus! {

/// Data lines that come one after the other are measured as all of them
/// together.
pub proof fn law_data_lines_are_measured_as_one(
    a: Seq<Seq<char>>,
    b: Seq<Seq<char>>,
    started: bool,
    project: Seq<char>,
)
    ensures
        chunk_metrics(a + b, started, project) == chunk_metrics(a, started, project)
            + chunk_metrics(b, started || a.len() > 0, project),
    decreases b.len(),
{
    if b.len() == 0 {
        assert(a + b =~= a);
        assert(chunk_metrics(a, started, project) + Seq::<Metric>::empty() =~= chunk_metrics(
            a,
            started,
            project,
        ));
    } else {
        assert((a + b).drop_last() =~= a + b.drop_last());
        assert((a + b).last() == b.last());
        law_data_lines_are_measured_as_one(a, b.drop_last(), started, project);
        assert(chunk_metrics(a + b, started, project) =~= chunk_metrics(a, started, project)
            + chunk_metrics(b, started || a.len() > 0, project));
    }
}

/// The first token of a stream is measured at the first data line, and not
/// again.
pub proof fn law_the_first_token_is_measured_once(
    data: Seq<Seq<char>>,
    started: bool,
    project: Seq<char>,
)
    ensures
        forall|k: int|
            0 <= k < chunk_metrics(data, started, project).len() ==> ((#[trigger] chunk_metrics(
                data,
                started,
                project,
            )[k]) == MetricUpdate::ObserveFirstToken(project) <==> k == 0 && !started),
        !started && data.len() > 0 ==> chunk_metrics(data, started, project).len() > 0,
    decreases data.len(),
{
    if data.len() > 0 {
        law_the_first_token_is_measured_once(data.drop_last(), started, project);
        if data.len() == 1 {
            assert(chunk_metrics(data.drop_last(), started, project).len() == 0);
        }
    }
}

/// What the data lines carry, over two lists of lines.
proof fn lemma_payloads_join(a: Seq<Seq<char>>, b: Seq<Seq<char>>)
    ensures
        payloads(a + b) == payloads(a) + payloads(b),
    decreases b.len(),
{
    if b.len() == 0 {
        assert(a + b =~= a);
        assert(payloads(a) + payloads(b) =~= payloads(a));
    } else {
        assert((a + b).drop_last() =~= a + b.drop_last());
        lemma_payloads_join(a, b.drop_last());
        assert(payloads(a + b) =~= payloads(a) + payloads(b));
    }
}

/// The first line feed of a text is that of any longer text.
proof fn lemma_first_line_feed(a: Seq<u8>, b: Seq<u8>)
    requires
        a.contains(10),
    ensures
        (a + b).contains(10),
        a.index_of_first(10) is Some,
        0 <= a.index_of_first(10)->0 < a.len(),
        (a + b).index_of_first(10) == a.index_of_first(10),
{
    let both = a + b;
    a.index_of_first_ensures(10);
    let end = a.index_of_first(10)->0;
    assert(both[end] == 10);
    both.index_of_first_ensures(10);
    let first = both.index_of_first(10)->0;
    if first < end {
        assert(a[first] == both[first]);
    }
}

/// Bytes that follow others continue the line that these left unfinished.
proof fn lemma_lines_continue(a: Seq<u8>, b: Seq<u8>)
    ensures
        complete_lines(a + b) == complete_lines(a) + complete_lines(unfinished(a) + b),
        unfinished(a + b) == unfinished(unfinished(a) + b),
    decreases a.len(),
{
    if !a.contains(10) {
        assert(complete_lines(a) + complete_lines(a + b) =~= complete_lines(a + b));
    } else {
        lemma_first_line_feed(a, b);
        let end = a.index_of_first(10)->0;
        assert((a + b).take(end) =~= a.take(end));
        assert((a + b).skip(end + 1) =~= a.skip(end + 1) + b);
        lemma_lines_continue(a.skip(end + 1), b);
        let head = seq![without_cr(a.take(end))];
        let further = complete_lines(a.skip(end + 1));
        let last = complete_lines(unfinished(a) + b);
        assert(head + (further + last) =~= (head + further) + last);
    }
}

/// A list of pieces, put together.
pub open spec fn joined(pieces: Seq<Seq<u8>>) -> Seq<u8>
    decreases pieces.len(),
{
    if pieces.len() == 0 {
        Seq::empty()
    } else {
        joined(pieces.drop_last()) + pieces.last()
    }
}

/// What is kept of a stream after these pieces.
pub open spec fn kept_after(pieces: Seq<Seq<u8>>) -> Seq<u8>
    decreases pieces.len(),
{
    if pieces.len() == 0 {
        Seq::empty()
    } else {
        unfinished(kept_after(pieces.drop_last()) + pieces.last())
    }
}

/// The data that a client has got after these pieces.
pub open spec fn data_after(pieces: Seq<Seq<u8>>) -> Seq<Seq<char>>
    decreases pieces.len(),
{
    if pieces.len() == 0 {
        Seq::empty()
    } else {
        data_after(pieces.drop_last()) + data_of(
            kept_after(pieces.drop_last()) + pieces.last(),
        )
    }
}

/// The measurements after these pieces.
pub open spec fn metrics_after(pieces: Seq<Seq<u8>>, project: Seq<char>) -> Seq<Metric>
    decreases pieces.len(),
{
    if pieces.len() == 0 {
        Seq::empty()
    } else {
        metrics_after(pieces.drop_last(), project) + chunk_metrics(
            data_of(kept_after(pieces.drop_last()) + pieces.last()),
            data_after(pieces.drop_last()).len() > 0,
            project,
        )
    }
}

/// The data that a client has got when the stream is over.
pub open spec fn whole_data(pieces: Seq<Seq<u8>>) -> Seq<Seq<char>> {
    data_after(pieces) + last_data(kept_after(pieces))
}

/// The measurements when the stream is over.
pub open spec fn whole_metrics(pieces: Seq<Seq<u8>>, project: Seq<char>) -> Seq<Metric> {
    metrics_after(pieces, project) + chunk_metrics(
        last_data(kept_after(pieces)),
        data_after(pieces).len() > 0,
        project,
    )
}

/// Pieces bring what all of them put together bring.
proof fn lemma_pieces(pieces: Seq<Seq<u8>>, project: Seq<char>)
    ensures
        kept_after(pieces) == unfinished(joined(pieces)),
        data_after(pieces) == data_of(joined(pieces)),
        metrics_after(pieces, project) == chunk_metrics(data_after(pieces), false, project),
    decreases pieces.len(),
{
    if pieces.len() == 0 {
        assert(!Seq::<u8>::empty().contains(10));
        assert(line_texts(Seq::<Seq<u8>>::empty()) =~= Seq::<Seq<char>>::empty());
        assert(data_of(Seq::<u8>::empty()) =~= Seq::<Seq<char>>::empty());
        assert(chunk_metrics(Seq::empty(), false, project) =~= Seq::<Metric>::empty());
    } else {
        let before = pieces.drop_last();
        let a = joined(before);
        let b = pieces.last();
        lemma_pieces(before, project);
        lemma_lines_continue(a, b);
        let earlier = complete_lines(a);
        let later = complete_lines(unfinished(a) + b);
        assert(line_texts(earlier + later) =~= line_texts(earlier) + line_texts(later));
        lemma_payloads_join(line_texts(earlier), line_texts(later));
        law_data_lines_are_measured_as_one(
            data_after(before),
            data_of(unfinished(a) + b),
            false,
            project,
        );
    }
}

/// What a client gets of a stream, and what is measured, does not depend on
/// where the stream was cut: two series of pieces with the same bytes bring the
/// same data, in the same order, and the same measurements.
pub proof fn law_cuts_do_not_matter(
    pieces: Seq<Seq<u8>>,
    others: Seq<Seq<u8>>,
    project: Seq<char>,
)
    requires
        joined(pieces) == joined(others),
    ensures
        whole_data(pieces) == whole_data(others),
        whole_metrics(pieces, project) == whole_metrics(others, project),
        whole_metrics(pieces, project) == chunk_metrics(whole_data(pieces), false, project),
{
    lemma_pieces(pieces, project);
    lemma_pieces(others, project);
    law_data_lines_are_measured_as_one(
        data_after(pieces),
        last_data(kept_after(pieces)),
        false,
        project,
    );
}

/// A line that has ended comes out as it went in, and nothing of it is kept.
/// What a data line carries reaches the client unchanged.
pub proof fn law_a_data_line_comes_through(line: Seq<u8>, data: Seq<char>)
    requires
        !line.contains(10),
        line.len() > 0 ==> line.last() != 13,
    ensures
        complete_lines(line.push(10)) == seq![line],
        unfinished(line.push(10)) == Seq::<u8>::empty(),
        utf8_lossy(line) == "data: "@ + data ==> data_of(line.push(10)) == seq![data],
{
    reveal_strlit("data: ");
    let ended = line.push(10);
    assert(ended[line.len() as int] == 10);
    assert(ended.contains(10));
    ended.index_of_first_ensures(10);
    let end = ended.index_of_first(10)->0;
    assert(end == line.len()) by {
        if end < line.len() {
            assert(ended[end] == line[end]);
            assert(line.contains(10));
        }
    }
    assert(ended.take(end) =~= line);
    assert(ended.skip(end + 1) =~= Seq::<u8>::empty());
    assert(!Seq::<u8>::empty().contains(10));
    assert(complete_lines(ended.skip(end + 1)) =~= Seq::<Seq<u8>>::empty());
    assert(unfinished(ended.skip(end + 1)) =~= Seq::<u8>::empty());
    assert(complete_lines(ended) =~= seq![line]);
    if utf8_lossy(line) == "data: "@ + data {
        let text = utf8_lossy(line);
        assert(line_texts(seq![line]) =~= seq![text]);
        assert(seq![text].drop_last() =~= Seq::<Seq<char>>::empty());
        assert(payloads(seq![text].drop_last()) =~= Seq::<Seq<char>>::empty());
        assert("data: "@.is_prefix_of(text));
        assert(text.skip(6) =~= data);
        assert(payloads(seq![text]) =~= seq![data]);
    }
}

/// A line ends at its line feed, and a carriage return right before that belongs
/// to the line ending: it is taken off, and nothing else, whatever the length of
/// the line. What follows is read on its own. Without a line feed no line has
/// ended, and everything is kept.
pub proof fn law_where_lines_end(line: Seq<u8>, rest: Seq<u8>)
    requires
        !line.contains(10),
    ensures
        complete_lines(line) == Seq::<Seq<u8>>::empty(),
        unfinished(line) == line,
        complete_lines(line + seq![13u8, 10u8] + rest) == seq![line] + complete_lines(rest),
        unfinished(line + seq![13u8, 10u8] + rest) == unfinished(rest),
        line.len() == 0 || line.last() != 13 ==> complete_lines(line + seq![10u8] + rest)
            == seq![line] + complete_lines(rest),
        unfinished(line + seq![10u8] + rest) == unfinished(rest),
{
    let crlf = line + seq![13u8, 10u8] + rest;
    assert(crlf[line.len() as int + 1] == 10);
    assert(crlf.contains(10));
    crlf.index_of_first_ensures(10);
    let at = crlf.index_of_first(10)->0;
    assert(at == line.len() + 1) by {
        if at < line.len() {
            assert(crlf[at] == line[at]);
        } else if at == line.len() {
            assert(crlf[at] == 13);
        }
    }
    assert(crlf.take(at) =~= line.push(13));
    assert(line.push(13).drop_last() =~= line);
    assert(crlf.skip(at + 1) =~= rest);
    let lf = line + seq![10u8] + rest;
    assert(lf[line.len() as int] == 10);
    assert(lf.contains(10));
    lf.index_of_first_ensures(10);
    let end = lf.index_of_first(10)->0;
    assert(end == line.len()) by {
        if end < line.len() {
            assert(lf[end] == line[end]);
        }
    }
    assert(lf.take(end) =~= line);
    assert(lf.skip(end + 1) =~= rest);
}

/// The data lines of two lists of lines, one after the other, are those of both
/// together. A line is a data line exactly where it begins with `data: `, and
/// carries all that follows.
pub proof fn law_what_data_lines_carry(
    a: Seq<Seq<char>>,
    b: Seq<Seq<char>>,
    line: Seq<char>,
    data: Seq<char>,
)
    ensures
        payloads(Seq::empty()) == Seq::<Seq<char>>::empty(),
        payloads(a + b) == payloads(a) + payloads(b),
        payloads(seq!["data: "@ + data]) == seq![data],
        (forall|d: Seq<char>| line != #[trigger] ("data: "@ + d)) ==> payloads(seq![line])
            == Seq::<Seq<char>>::empty(),
{
    reveal_strlit("data: ");
    lemma_payloads_join(a, b);
    let text = "data: "@ + data;
    assert(seq![text].drop_last() =~= Seq::<Seq<char>>::empty());
    assert(payloads(seq![text].drop_last()) =~= Seq::<Seq<char>>::empty());
    assert("data: "@.is_prefix_of(text));
    assert(text.skip(6) =~= data);
    assert(payloads(seq![text]) =~= seq![data]);
    assert(seq![line].drop_last() =~= Seq::<Seq<char>>::empty());
    assert(payloads(seq![line].drop_last()) =~= Seq::<Seq<char>>::empty());
    if "data: "@.is_prefix_of(line) {
        assert(line =~= "data: "@ + line.skip(6));
    }
}

/// A data line comes through with either line ending, whatever its length: all
/// that follows `data: ` reaches the client.
pub proof fn law_a_data_line_comes_through_with_either_ending(line: Seq<u8>, data: Seq<char>)
    requires
        !line.contains(10),
    ensures
        complete_lines(line + seq![13u8, 10u8]) == seq![line],
        utf8_lossy(line) == "data: "@ + data ==> data_of(line + seq![13u8, 10u8]) == seq![data],
        (line.len() == 0 || line.last() != 13) && utf8_lossy(line) == "data: "@ + data ==> data_of(
            line + seq![10u8],
        ) == seq![data],
{
    let none = Seq::<u8>::empty();
    law_where_lines_end(line, none);
    law_where_lines_end(none, none);
    assert(line + seq![13u8, 10u8] + none =~= line + seq![13u8, 10u8]);
    assert(line + seq![10u8] + none =~= line + seq![10u8]);
    assert(seq![line] + complete_lines(none) =~= seq![line]);
    assert(line_texts(seq![line]) =~= seq![utf8_lossy(line)]);
    law_what_data_lines_carry(Seq::empty(), Seq::empty(), utf8_lossy(line), data);
}

/// The texts of lines are those of each line, in order. The data of bytes is
/// what the data lines among their complete lines carry, and that of a last line
/// without an ending what it carries itself.
pub proof fn law_what_the_data_of_bytes_is(lines: Seq<Seq<u8>>, bytes: Seq<u8>)
    ensures
        line_texts(lines).len() == lines.len(),
        forall|i: int|
            0 <= i < lines.len() ==> #[trigger] line_texts(lines)[i] == utf8_lossy(lines[i]),
        data_of(bytes) == payloads(
            complete_lines(bytes).map_values(|line: Seq<u8>| utf8_lossy(line)),
        ),
        bytes.len() == 0 ==> last_data(bytes) == Seq::<Seq<char>>::empty(),
        bytes.len() > 0 ==> last_data(bytes) == payloads(seq![utf8_lossy(bytes)]),
{
}

/// Every data line becomes one event with its data, in order. A piece without
/// data lines becomes one empty comment.
pub proof fn law_what_events_a_piece_becomes(
    data: Seq<Seq<char>>,
    events: Seq<SseEvent<String>>,
    text: String,
)
    ensures
        data_events(data).len() == data.len(),
        forall|i: int|
            0 <= i < data.len() ==> #[trigger] data_events(data)[i] == SseEvent::Data(data[i]),
        data.len() == 0 ==> chunk_events(data) == seq![SseEvent::Comment(""@)],
        data.len() > 0 ==> chunk_events(data) == data_events(data),
        events_of(events).len() == events.len(),
        forall|i: int| 0 <= i < events.len() ==> #[trigger] events_of(events)[i] == events[i]@,
        SseEvent::Data(text)@ == SseEvent::Data(text@),
        SseEvent::Comment(text)@ == SseEvent::Comment(text@),
{
}

/// What is measured for a data line: the first token where none has come yet,
/// and at the end mark the two durations and a success. Nothing is measured
/// where no data line comes.
pub proof fn law_what_a_data_line_is_measured_by(
    line: Seq<char>,
    started: bool,
    project: Seq<char>,
)
    ensures
        chunk_metrics(Seq::empty(), started, project) == Seq::<Metric>::empty(),
        chunk_metrics(seq![line], started, project) == (if started {
            Seq::<Metric>::empty()
        } else {
            seq![Metric::ObserveFirstToken(project)]
        }) + (if line == "[DONE]"@ {
            seq![
                Metric::ObserveUpstreamDuration(project),
                Metric::ObserveStreamDuration(project),
                Metric::CountRequest(project, Outcome::Success),
            ]
        } else {
            Seq::<Metric>::empty()
        }),
{
    assert(seq![line].drop_last() =~= Seq::<Seq<char>>::empty());
    assert(chunk_metrics(seq![line].drop_last(), started, project) =~= Seq::<Metric>::empty());
    assert(chunk_metrics(seq![line], started, project) =~= (if started {
        Seq::<Metric>::empty()
    } else {
        seq![Metric::ObserveFirstToken(project)]
    }) + (if line == "[DONE]"@ {
        seq![
            Metric::ObserveUpstreamDuration(project),
            Metric::ObserveStreamDuration(project),
            Metric::CountRequest(project, Outcome::Success),
        ]
    } else {
        Seq::<Metric>::empty()
    }));
}

} // verus!
