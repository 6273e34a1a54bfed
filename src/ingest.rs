//! Turning chunks of a byte stream into items on the outbound channel.
use vstd::prelude::*;

use crate::text::as_text;
use vstd::utf8::valid_utf8;
use crate::item::{build_item, built_from, Item, SendRawOrBuild};
use crate::lines::{closed_chunks, concat_all, lemma_chunking_keeps_lines, lines_of, lines_per_chunk, split_lines, views};

verus! {

#[verifier::external_type_specification]
#[verifier::external_body]
#[verifier::reject_recursive_types(T)]
pub struct ExSender<T>(crossbeam_channel::Sender<T>);

/// Relies on crossbeam_channel::Sender::send: `true` when the item was
/// queued, `false` when every receiver is gone. Which one comes back depends
/// on the consumer.
#[verifier::external_body]
fn send_item(tx: &crossbeam_channel::Sender<Item>, item: Item) -> (r: bool) {
    tx.send(item).is_ok()
}

/// The items of a chunk: one per line, in order.
pub open spec fn items_match_lines(items: Seq<Item>, lines: Seq<Seq<u8>>, opts: SendRawOrBuild) -> bool {
    &&& items.len() == lines.len()
    &&& forall|i: int| 0 <= i < items.len() ==> built_from(#[trigger] items[i], lines[i], opts)
}

/// Builds one item for each line of `buffer`, in order.
pub fn build_items(buffer: &[u8], line_ending: u8, opts: &SendRawOrBuild) -> (r: Vec<Item>)
    ensures
        items_match_lines(r@, lines_of(buffer@, line_ending), *opts),
{
    let lines = split_lines(buffer, line_ending);
    let mut out: Vec<Item> = Vec::new();
    let mut i: usize = 0;
    while i < lines.len()
        invariant
            i <= lines@.len(),
            views(lines@) == lines_of(buffer@, line_ending),
            items_match_lines(out@, views(lines@).take(i as int), *opts),
        decreases lines@.len() - i,
    {
        let item = build_item(lines[i].as_slice(), opts);
        proof {
            assert(views(lines@)[i as int] == lines@[i as int]@);
        }
        out.push(item);
        i = i + 1;
        proof {
            let ls = views(lines@).take(i as int);
            assert forall|k: int| 0 <= k < out@.len() implies built_from(#[trigger] out@[k], ls[k], *opts) by {
                if k < i - 1 {
                    assert(ls[k] == views(lines@).take(i - 1)[k]);
                }
            }
        }
    }
    proof {
        assert(views(lines@).take(lines@.len() as int) =~= views(lines@));
    }
    out
}

/// The items of several deliveries, one after the other.
pub open spec fn concat_items(items: Seq<Seq<Item>>) -> Seq<Item>
    decreases items.len(),
{
    if items.len() == 0 {
        seq![]
    } else {
        items[0] + concat_items(items.drop_first())
    }
}

proof fn lemma_items_concat(a: Seq<Item>, la: Seq<Seq<u8>>, b: Seq<Item>, lb: Seq<Seq<u8>>, opts: SendRawOrBuild)
    requires
        items_match_lines(a, la, opts),
        items_match_lines(b, lb, opts),
    ensures
        items_match_lines(a + b, la + lb, opts),
{
    assert forall|i: int| 0 <= i < (a + b).len() implies built_from(#[trigger] (a + b)[i], (la + lb)[i], opts) by {
        if i >= a.len() {
            assert((a + b)[i] == b[i - a.len()]);
            assert((la + lb)[i] == lb[i - la.len()]);
        } else {
            assert((a + b)[i] == a[i]);
            assert((la + lb)[i] == la[i]);
        }
    }
}

proof fn lemma_items_per_chunk(chunks: Seq<Seq<u8>>, items: Seq<Seq<Item>>, t: u8, opts: SendRawOrBuild)
    requires
        items.len() == chunks.len(),
        forall|c: int| 0 <= c < chunks.len() ==> items_match_lines(#[trigger] items[c], lines_of(chunks[c], t), opts),
    ensures
        items_match_lines(concat_items(items), lines_per_chunk(chunks, t), opts),
    decreases chunks.len(),
{
    if chunks.len() == 0 {
        assert(concat_items(items) =~= Seq::<Item>::empty());
        assert(lines_per_chunk(chunks, t) =~= Seq::<Seq<u8>>::empty());
    } else {
        assert forall|c: int| 0 <= c < chunks.drop_first().len() implies items_match_lines(
            #[trigger] items.drop_first()[c],
            lines_of(chunks.drop_first()[c], t),
            opts,
        ) by {
            assert(items.drop_first()[c] == items[c + 1]);
            assert(chunks.drop_first()[c] == chunks[c + 1]);
        }
        lemma_items_per_chunk(chunks.drop_first(), items.drop_first(), t, opts);
        assert(items_match_lines(items[0], lines_of(chunks[0], t), opts));
        lemma_items_concat(
            items[0],
            lines_of(chunks[0], t),
            concat_items(items.drop_first()),
            lines_per_chunk(chunks.drop_first(), t),
            opts,
        );
    }
}

/// Buffer-boundary insensitivity of what is sent: when a stream is read as
/// chunks, each but the last closed by a terminator, and every chunk is
/// delivered in full, the items sent over all chunks are, one for one and
/// in order, the items of the lines of the whole stream read at once.
pub proof fn lemma_chunked_items_are_stream_items(
    chunks: Seq<Seq<u8>>,
    items: Seq<Seq<Item>>,
    t: u8,
    opts: SendRawOrBuild,
)
    requires
        closed_chunks(chunks, t),
        items.len() == chunks.len(),
        forall|c: int| 0 <= c < chunks.len() ==> items_match_lines(#[trigger] items[c], lines_of(chunks[c], t), opts),
    ensures
        items_match_lines(concat_items(items), lines_of(concat_all(chunks), t), opts),
{
    lemma_chunking_keeps_lines(chunks, t);
    lemma_items_per_chunk(chunks, items, t, opts);
}

/// What became of one chunk of input.
#[derive(Clone, Copy, Debug, PartialEq, Eq, Structural)]
pub enum ChunkOutcome {
    /// The chunk was empty: the input is exhausted.
    EndOfInput,
    /// The chunk is not well-formed UTF-8, which the stream cannot recover from.
    InvalidText,
    /// Every line of the chunk went out as an item.
    Delivered,
    /// The consumer is gone; sending stopped at the first refused item.
    ReceiverGone,
}

impl ChunkOutcome {
    /// Whether ingestion goes on with the next chunk.
    pub fn keep_reading(&self) -> (r: bool)
        ensures
            r <==> *self == ChunkOutcome::Delivered,
    {
        match self {
            ChunkOutcome::Delivered => true,
            _ => false,
        }
    }
}

/// What became of one chunk: the outcome, how many items the consumer
/// accepted, the items handed to the channel in the order they were handed
/// over, and the consumer's answer to each.
pub struct Delivery {
    pub outcome: ChunkOutcome,
    pub accepted: usize,
    pub handed: Ghost<Seq<Item>>,
    pub answers: Ghost<Seq<bool>>,
}

/// The delivery loop's decision once the consumer has answered the send of
/// item `index` out of `count`: stop when it refused, finish after the last
/// item, go on otherwise (`None`).
pub fn after_send(index: usize, count: usize, accepted: bool) -> (r: Option<ChunkOutcome>)
    requires
        index < count,
    ensures
        r == if !accepted {
            Some(ChunkOutcome::ReceiverGone)
        } else if index + 1 == count {
            Some(ChunkOutcome::Delivered)
        } else {
            None::<ChunkOutcome>
        },
{
    if !accepted {
        Some(ChunkOutcome::ReceiverGone)
    } else if index + 1 == count {
        Some(ChunkOutcome::Delivered)
    } else {
        None
    }
}

/// Handles one chunk of input, as read up to a terminator or to the end of
/// the input: an empty chunk ends ingestion, text that is not UTF-8 is
/// refused with nothing sent, and otherwise the items of the chunk's lines
/// are sent, one per line and in order, until the consumer refuses one; no
/// item is sent after a refusal.
pub fn ingest_chunk(
    buffer: &[u8],
    line_ending: u8,
    tx_item: &crossbeam_channel::Sender<Item>,
    opts: &SendRawOrBuild,
) -> (r: Delivery)
    ensures
        r.outcome == ChunkOutcome::EndOfInput <==> buffer@.len() == 0,
        r.outcome == ChunkOutcome::InvalidText <==> buffer@.len() > 0 && !valid_utf8(buffer@),
        r.outcome == ChunkOutcome::Delivered || r.outcome == ChunkOutcome::ReceiverGone <==> buffer@.len() > 0
            && valid_utf8(buffer@),
        r.outcome == ChunkOutcome::EndOfInput || r.outcome == ChunkOutcome::InvalidText ==> r.handed@.len() == 0,
        // the items handed over are those of the first lines, in order
        r.handed@.len() <= lines_of(buffer@, line_ending).len(),
        forall|i: int|
            0 <= i < r.handed@.len() ==> built_from(#[trigger] r.handed@[i], lines_of(buffer@, line_ending)[i], *opts),
        // one answer per item handed over; every answer but the last was an acceptance
        r.answers@.len() == r.handed@.len(),
        forall|i: int| 0 <= i < r.answers@.len() - 1 ==> #[trigger] r.answers@[i],
        // delivered exactly when every line's item went over and was accepted
        r.outcome == ChunkOutcome::Delivered <==> (buffer@.len() > 0 && valid_utf8(buffer@) && r.handed@.len()
            == lines_of(buffer@, line_ending).len() && forall|i: int| 0 <= i < r.answers@.len() ==> #[trigger] r.answers@[i]),
        // stopped exactly at the first refusal, with nothing handed over after it
        r.outcome == ChunkOutcome::ReceiverGone <==> (r.answers@.len() > 0 && !r.answers@.last()),
        r.outcome == ChunkOutcome::Delivered ==> items_match_lines(r.handed@, lines_of(buffer@, line_ending), *opts),
        r.accepted == if r.outcome == ChunkOutcome::ReceiverGone { r.handed@.len() - 1 } else { r.handed@.len() as int },
{
    if buffer.len() == 0 {
        return Delivery {
            outcome: ChunkOutcome::EndOfInput,
            accepted: 0,
            handed: Ghost(Seq::empty()),
            answers: Ghost(Seq::empty()),
        };
    }
    if as_text(buffer).is_none() {
        return Delivery {
            outcome: ChunkOutcome::InvalidText,
            accepted: 0,
            handed: Ghost(Seq::empty()),
            answers: Ghost(Seq::empty()),
        };
    }
    let items = build_items(buffer, line_ending, opts);
    let ghost all = items@;
    let ghost ls = lines_of(buffer@, line_ending);
    let n = items.len();
    // turn the items into a stack whose top is the first item
    let mut rest = items;
    let mut stack: Vec<Item> = Vec::new();
    while rest.len() > 0
        invariant
            all.len() == n,
            rest@.len() + stack@.len() == n,
            rest@ == all.take(rest@.len() as int),
            forall|k: int| 0 <= k < stack@.len() ==> #[trigger] stack@[k] == all[n - 1 - k],
        decreases rest@.len(),
    {
        let item = rest.pop().unwrap();
        stack.push(item);
        proof {
            assert(rest@ =~= all.take(rest@.len() as int));
        }
    }
    let ghost mut handed: Seq<Item> = Seq::empty();
    let ghost mut answers: Seq<bool> = Seq::empty();
    let mut i: usize = 0;
    while i < n
        invariant
            buffer@.len() > 0,
            valid_utf8(buffer@),
            items_match_lines(all, ls, *opts),
            ls == lines_of(buffer@, line_ending),
            all.len() == n,
            i <= n,
            stack@.len() == n - i,
            forall|k: int| 0 <= k < stack@.len() ==> #[trigger] stack@[k] == all[n - 1 - k],
            handed == all.take(i as int),
            answers.len() == i,
            forall|k: int| 0 <= k < answers.len() ==> #[trigger] answers[k],
        decreases n - i,
    {
        let item = stack.pop().unwrap();
        proof {
            assert(item == all[i as int]);
            handed = handed.push(item);
            assert(handed =~= all.take(i + 1));
        }
        let ok = send_item(tx_item, item);
        proof {
            answers = answers.push(ok);
        }
        match after_send(i, n, ok) {
            Some(outcome) => {
                let accepted = if ok { i + 1 } else { i };
                proof {
                    assert forall|k: int| 0 <= k < answers.len() - 1 implies #[trigger] answers[k] by {
                        assert(answers[k] == answers.drop_last()[k]);
                    }
                    if ok {
                        assert forall|k: int| 0 <= k < answers.len() implies #[trigger] answers[k] by {
                            if k < i {
                                assert(answers[k] == answers.drop_last()[k]);
                            }
                        }
                        assert(handed =~= all);
                    } else {
                        assert(!answers[i as int]);
                    }
                }
                return Delivery { outcome, accepted, handed: Ghost(handed), answers: Ghost(answers) };
            },
            None => {},
        }
        proof {
            assert forall|k: int| 0 <= k < answers.len() implies #[trigger] answers[k] by {
                if k < i {
                    assert(answers[k] == answers.drop_last()[k]);
                }
            }
        }
        i = i + 1;
    }
    proof {
        assert(handed =~= all);
    }
    Delivery { outcome: ChunkOutcome::Delivered, accepted: i, handed: Ghost(handed), answers: Ghost(answers) }
}

/// What a fill of the read buffer reported.
#[derive(Clone, Copy, Debug, PartialEq, Eq, Structural)]
pub enum FillResult {
    /// Bytes (possibly none) were read.
    Filled,
    /// The read was interrupted before anything happened.
    Interrupted,
    /// Any other read error, end of file included.
    Failed,
}

/// What the read loop does next after a fill.
#[derive(Clone, Copy, Debug, PartialEq, Eq, Structural)]
pub enum FillAction {
    /// Finish the current line and hand the chunk over.
    Proceed,
    /// Read again, as if nothing happened.
    Retry,
    /// End ingestion, without an error.
    Stop,
}

/// The read loop's decision on a fill: an interrupted read is retried,
/// any other error ends the loop quietly.
pub fn on_fill(r: FillResult) -> (a: FillAction)
    ensures
        a == match r {
            FillResult::Filled => FillAction::Proceed,
            FillResult::Interrupted => FillAction::Retry,
            FillResult::Failed => FillAction::Stop,
        },
{
    match r {
        FillResult::Filled => FillAction::Proceed,
        FillResult::Interrupted => FillAction::Retry,
        FillResult::Failed => FillAction::Stop,
    }
}

} // verus!
