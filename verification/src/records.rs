//! One query as a state machine: the request that opens it and the reply
//! sentences that follow, up to the sentence that ends the stream.
//!
//! The machine never touches a connection. Its caller writes the request,
//! reads each reply and hands it in; the machine says which replies are
//! records and when to stop reading.

use crate::word::{first_at, lemma_first_at, lemma_first_at_is, same_text};
use vstd::prelude::*;

verus! {

/// A sentence that ends a reply stream: one that begins with `!done` or
/// `!trap`, or one without words, as a closed connection gives.
pub open spec fn is_terminal(sentence: Seq<Seq<char>>) -> bool {
    sentence.len() == 0 || sentence[0] == "!done"@ || sentence[0] == "!trap"@
}

/// How many replies precede the first terminal one; all of them where none
/// is terminal.
pub open spec fn stream_end(replies: Seq<Seq<Seq<char>>>) -> int {
    first_at(replies.map_values(|reply: Seq<Seq<char>>| is_terminal(reply)), true, 0)
}

/// The records of a reply stream: the replies before the first terminal one.
pub open spec fn records_of(replies: Seq<Seq<Seq<char>>>) -> Seq<Seq<Seq<char>>> {
    replies.take(stream_end(replies))
}

/// The request sentence of a query: its path and nothing else.
pub open spec fn request_of(path: Seq<char>) -> Seq<Seq<char>> {
    seq![path]
}

/// The records of a stream are a prefix of it without a terminal sentence,
/// and what follows them, if anything, is terminal.
pub proof fn lemma_records_of(replies: Seq<Seq<Seq<char>>>)
    ensures
        0 <= stream_end(replies) <= replies.len(),
        records_of(replies).len() == stream_end(replies),
        forall|i: int|
            0 <= i < stream_end(replies) ==> records_of(replies)[i] == replies[i] && !is_terminal(
                #[trigger] replies[i],
            ),
        stream_end(replies) < replies.len() ==> is_terminal(replies[stream_end(replies)]),
{
    let ends = replies.map_values(|reply: Seq<Seq<char>>| is_terminal(reply));
    lemma_first_at(ends, true, 0);
    assert forall|i: int| 0 <= i < stream_end(replies) implies !is_terminal(
        #[trigger] replies[i],
    ) by {
        assert(ends[i] != true);
    }
    if stream_end(replies) < replies.len() {
        assert(ends[stream_end(replies)] == is_terminal(replies[stream_end(replies)]));
    }
}

/// Whether a sentence ends the reply stream.
pub fn ends_stream(sentence: &Vec<String>) -> (ends: bool)
    ensures
        ends == is_terminal(sentence.deep_view()),
{
    if sentence.len() == 0 {
        return true;
    }
    let tag = sentence[0].as_str();
    assert(sentence.deep_view()[0] == tag@);
    same_text(tag, "!done") || same_text(tag, "!trap")
}

/// Where a query stands.
#[derive(Clone, Copy, Debug, PartialEq, Eq, Structural)]
pub enum QueryState {
    /// Made, its request not yet handed out.
    Opened,
    /// The request is out; replies are awaited.
    Streaming,
    /// The stream has ended. Nothing more is read.
    Done,
}

/// The replies of one query, one record at a time. An iterator serves one
/// query and cannot be started again.
pub struct RecordIter {
    path: String,
    state: QueryState,
}

impl RecordIter {
    /// The path that the query asks for.
    pub closed spec fn path(&self) -> Seq<char> {
        self.path@
    }

    /// Where the query stands.
    pub closed spec fn state(&self) -> QueryState {
        self.state
    }

    /// A query for `path`, not yet sent.
    pub fn new(path: &str) -> (iter: RecordIter)
        ensures
            iter.path() == path@,
            iter.state() == QueryState::Opened,
    {
        RecordIter { path: path.to_owned(), state: QueryState::Opened }
    }

    /// Hands out the request sentence, once: the caller writes it to the
    /// router. Any later call hands out nothing.
    pub fn request(&mut self) -> (sentence: Option<Vec<String>>)
        ensures
            final(self).path() == old(self).path(),
            old(self).state() == QueryState::Opened ==> final(self).state()
                == QueryState::Streaming && sentence is Some && sentence->0.deep_view()
                == request_of(old(self).path()),
            old(self).state() != QueryState::Opened ==> final(self).state() == old(self).state()
                && sentence is None,
    {
        match self.state {
            QueryState::Opened => {
                self.state = QueryState::Streaming;
                let mut sentence: Vec<String> = Vec::new();
                sentence.push(self.path.clone());
                assert(sentence.deep_view() == request_of(self.path()));
                Some(sentence)
            },
            _ => None,
        }
    }

    /// Takes the reply that the caller has read. While streaming, a terminal
    /// reply ends the stream and is swallowed, whatever it carries; any other
    /// reply is the next record. An iterator that is not streaming takes no
    /// reply and yields nothing.
    pub fn next(&mut self, reply: Vec<String>) -> (record: Option<Vec<String>>)
        ensures
            final(self).path() == old(self).path(),
            old(self).state() == QueryState::Streaming && !is_terminal(reply.deep_view())
                ==> final(self).state() == QueryState::Streaming && record == Some(reply),
            old(self).state() == QueryState::Streaming && is_terminal(reply.deep_view())
                ==> final(self).state() == QueryState::Done && record is None,
            old(self).state() != QueryState::Streaming ==> final(self).state() == old(self).state()
                && record is None,
    {
        match self.state {
            QueryState::Streaming => {
                if ends_stream(&reply) {
                    self.state = QueryState::Done;
                    None
                } else {
                    Some(reply)
                }
            },
            _ => None,
        }
    }

    /// Whether the caller is to read a reply and hand it to `next`.
    pub fn awaits_reply(&self) -> (awaited: bool)
        ensures
            awaited == (self.state() == QueryState::Streaming),
    {
        match self.state {
            QueryState::Streaming => true,
            _ => false,
        }
    }

    /// Whether the stream has ended.
    pub fn is_done(&self) -> (done: bool)
        ensures
            done == (self.state() == QueryState::Done),
    {
        match self.state {
            QueryState::Done => true,
            _ => false,
        }
    }
}

/// Runs the query for `path` over replies that were read before: each reply
/// is handed to a fresh iterator, which takes none once the stream has ended.
/// What comes back are the records.
pub fn replay(path: &str, replies: Vec<Vec<String>>) -> (records: Vec<Vec<String>>)
    ensures
        records.deep_view() == records_of(replies.deep_view()),
{
    let ghost stream = replies.deep_view();
    let ghost ends = stream.map_values(|reply: Seq<Seq<char>>| is_terminal(reply));
    let mut iter = RecordIter::new(path);
    let _ = iter.request();
    let mut records: Vec<Vec<String>> = Vec::new();
    let ghost count = replies.len() as int;
    for reply in rest: replies
        invariant
            stream.len() == count,
            rest.seq().len() == count,
            forall|k: int| 0 <= k < count ==> (#[trigger] rest.seq()[k]).deep_view() == stream[k],
            ends == stream.map_values(|reply: Seq<Seq<char>>| is_terminal(reply)),
            iter.state() != QueryState::Opened,
            iter.state() == QueryState::Streaming ==> records.deep_view() == stream.take(
                rest.index() as int,
            ) && forall|k: int| 0 <= k < rest.index() ==> ends[k] != true,
            iter.state() == QueryState::Done ==> records.deep_view() == records_of(stream),
    {
        let ghost index = rest.index() as int;
        proof {
            assert(reply.deep_view() == stream[index]);
            assert(ends[index] == is_terminal(stream[index]));
            if iter.state() == QueryState::Streaming && is_terminal(stream[index]) {
                lemma_first_at_is(ends, true, 0, index);
            }
        }
        match iter.next(reply) {
            Some(record) => {
                records.push(record);
                proof {
                    assert(records.deep_view() == stream.take(index + 1));
                }
            },
            None => {},
        }
    }
    proof {
        if iter.state() == QueryState::Streaming {
            lemma_first_at_is(ends, true, 0, count);
            assert(stream.take(count) == stream);
        }
    }
    records
}

} // verus!
