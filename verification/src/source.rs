//! The source: which files of a bag it reads, which batches it sends where,
//! and how it ends.
use crate::batch::Column;
use crate::json::{json_of_count_maps, read_texts, texts_of_json, write_count_maps};
use crate::number::{setting, setting_value};
use crate::params::{
    a_batch_tells_its_rows_and_times, batch_params, batch_params_of, eos_params, eos_params_of,
    Param, Params,
};
use crate::paths::{abs, path_in};
use crate::plan::source_outputs;
use crate::text::{
    chars_of, lemma_lt_asymmetric, same_text, set_text, sort_texts, sorted_texts,
    sorting_keeps_texts_and_orders_them, text_lt, texts,
};
use crate::text_map::{
    lemma_key_count, lemma_keys_listed, lemma_listed_with, lemma_ordered_keys, lists_keys,
    ordered_keys, TextMap,
};
use vstd::prelude::*;

verus! {

/// How many rows a batch has at most, where nothing else is set.
pub const DEFAULT_BATCH_ROWS: usize = 64;

/// How many bytes a batch has at most, where nothing else is set.
pub const DEFAULT_BATCH_BYTES: usize = 8388608;

/// Whether a file name has the extension `mcap`: it ends in it behind a dot,
/// and something stands before the dot.
pub open spec fn is_mcap_name(name: Seq<char>) -> bool {
    name.len() > 5 && name.skip(name.len() - 5) == ".mcap"@
}

fn has_mcap_extension(name: &str) -> (has: bool)
    ensures
        has == is_mcap_name(name@),
{
    let list = chars_of(name);
    if list.len() <= 5 {
        return false;
    }
    let n = list.len();
    let tail = name.substring_char(n - 5, n);
    assert(tail@ =~= name@.skip(name@.len() - 5));
    same_text(tail, ".mcap")
}

/// The recordings among the files of a bag directory, by path, in ascending
/// order of name.
pub open spec fn recordings(bag: Seq<char>, names: Seq<Seq<char>>) -> Seq<Seq<char>> {
    sorted_texts(names.filter(|n: Seq<char>| is_mcap_name(n))).map_values(
        |n: Seq<char>| path_in(bag, n),
    )
}

fn mcap_names(names: &Vec<String>) -> (kept: Vec<String>)
    ensures
        texts(kept@) == texts(names@).filter(|n: Seq<char>| is_mcap_name(n)),
{
    let mut kept: Vec<String> = Vec::new();
    let ghost wanted = |n: Seq<char>| is_mcap_name(n);
    let mut i: usize = 0;
    assert(texts(kept@) =~= texts(names@).take(0).filter(wanted)) by {
        reveal(Seq::filter);
    }
    while i < names.len()
        invariant
            i <= names.len(),
            wanted == (|n: Seq<char>| is_mcap_name(n)),
            texts(kept@) == texts(names@).take(i as int).filter(wanted),
        decreases names.len() - i,
    {
        let ghost so_far = texts(kept@);
        proof {
            reveal(Seq::filter);
            assert(texts(names@).take(i + 1).drop_last() =~= texts(names@).take(i as int));
            assert(texts(names@).take(i + 1).last() == names@[i as int]@);
        }
        if has_mcap_extension(names[i].as_str()) {
            kept.push(names[i].clone());
            assert(texts(kept@) =~= so_far.push(names@[i as int]@));
        }
        i += 1;
    }
    assert(texts(names@).take(i as int) =~= texts(names@));
    kept
}

/// Why the source cannot run.
#[derive(Debug)]
pub enum SourceError {
    /// The place of the bag is not set.
    BagNotSet,
    /// The topics are not set.
    TopicsNotSet,
    /// The topics are not a JSON object of texts.
    BadTopics(serde_json::Error),
}

impl SourceError {
    /// What the error says. Topics that cannot be read are told by the error
    /// that they hold.
    pub open spec fn text(self) -> Option<Seq<char>> {
        match self {
            SourceError::BagNotSet => Some("BAGFLOW_BAG not set"@),
            SourceError::TopicsNotSet => Some("BAGFLOW_TOPICS not set"@),
            SourceError::BadTopics(_) => None,
        }
    }

    /// The error as text, where the error does not hold another that tells it.
    pub fn message(&self) -> (text: Option<String>)
        ensures
            match text {
                Some(t) => self.text() == Some(t@),
                None => self.text() is None,
            },
    {
        match self {
            SourceError::BagNotSet => Some("BAGFLOW_BAG not set".to_owned()),
            SourceError::TopicsNotSet => Some("BAGFLOW_TOPICS not set".to_owned()),
            SourceError::BadTopics(_) => None,
        }
    }
}

/// A bag directory has no recordings.
#[derive(Debug)]
pub struct NoRecordings {
    pub bag: String,
}

impl NoRecordings {
    /// The error as text.
    pub fn message(&self) -> (text: String)
        ensures
            text@ == "no .mcap files in "@ + self.bag@,
    {
        let mut text = "no .mcap files in ".to_owned();
        text.append(self.bag.as_str());
        text
    }
}

/// The files that hold the recordings of a bag. A bag that is a file is its
/// own recording, and `names` is not looked at. Of a directory with the files
/// `names` it is the recordings among them; there must be one.
pub fn mcap_files(bag: &str, is_file: bool, names: &Vec<String>) -> (r: Result<
    Vec<String>,
    NoRecordings,
>)
    ensures
        match r {
            Ok(files) => {
                if is_file {
                    texts(files@) == seq![bag@]
                } else {
                    recordings(bag@, texts(names@)).len() > 0 && texts(files@) == recordings(
                        bag@,
                        texts(names@),
                    )
                }
            },
            Err(e) => !is_file && recordings(bag@, texts(names@)).len() == 0 && e.bag@ == bag@,
        },
{
    let mut files: Vec<String> = Vec::new();
    if is_file {
        files.push(bag.to_owned());
        assert(texts(files@) =~= seq![bag@]);
        return Ok(files);
    }
    let kept = mcap_names(names);
    let sorted = sort_texts(&kept);
    let ghost places = recordings(bag@, texts(names@));
    let mut i: usize = 0;
    while i < sorted.len()
        invariant
            i <= sorted.len(),
            places == texts(sorted@).map_values(|n: Seq<char>| path_in(bag@, n)),
            texts(files@) =~= places.take(i as int),
        decreases sorted.len() - i,
    {
        let ghost so_far = texts(files@);
        files.push(abs(bag, sorted[i].as_str()));
        assert(texts(files@) =~= so_far.push(places[i as int]));
        assert(places.take(i + 1) =~= places.take(i as int).push(places[i as int]));
        i += 1;
    }
    assert(places.take(i as int) =~= places);
    if files.len() == 0 {
        return Err(NoRecordings { bag: bag.to_owned() });
    }
    Ok(files)
}

/// What the source is told when it starts.
#[derive(Debug)]
pub struct SourceConfig {
    pub bag: String,
    /// The topics to send, each with the output that carries it.
    pub topics: TextMap<String>,
    pub batch_rows: usize,
    pub batch_bytes: usize,
}

/// What the source is told by the variables for the bag, the topics, and the
/// rows and bytes of a batch.
pub fn source_config(
    bag: Option<&str>,
    topics: Option<&str>,
    batch_rows: Option<&str>,
    batch_bytes: Option<&str>,
) -> (r: Result<SourceConfig, SourceError>)
    ensures
        match r {
            Ok(config) => {
                &&& set_text(bag) == Some(config.bag@)
                &&& topics is Some
                &&& texts_of_json(topics->0@) == Some(config.topics@)
                &&& config.batch_rows == setting_value(set_text(batch_rows), DEFAULT_BATCH_ROWS)
                &&& config.batch_bytes == setting_value(set_text(batch_bytes), DEFAULT_BATCH_BYTES)
            },
            Err(SourceError::BagNotSet) => bag is None,
            Err(SourceError::TopicsNotSet) => bag is Some && topics is None,
            Err(SourceError::BadTopics(_)) => bag is Some && topics is Some && texts_of_json(
                topics->0@,
            ) is None,
        },
{
    let bag = match bag {
        Some(text) => text.to_owned(),
        None => return Err(SourceError::BagNotSet),
    };
    let text = match topics {
        Some(text) => text,
        None => return Err(SourceError::TopicsNotSet),
    };
    let topics = match read_texts(text) {
        Ok(entries) => TextMap::from_ascending(entries),
        Err(e) => return Err(SourceError::BadTopics(e)),
    };
    Ok(
        SourceConfig {
            bag,
            topics,
            batch_rows: setting(batch_rows, DEFAULT_BATCH_ROWS),
            batch_bytes: setting(batch_bytes, DEFAULT_BATCH_BYTES),
        },
    )
}

/// The sum of `numbers`.
pub open spec fn sum(numbers: Seq<u64>) -> int
    decreases numbers.len(),
{
    if numbers.len() == 0 {
        0
    } else {
        sum(numbers.drop_last()) + numbers.last()
    }
}

/// How many rows `counts` has over all topics.
pub open spec fn total(counts: Map<Seq<char>, u64>) -> int {
    sum(ordered_keys(counts).map_values(|t: Seq<char>| counts[t]))
}

/// How many rows `counts` has of `topic`.
pub open spec fn rows_of(counts: Map<Seq<char>, u64>, topic: Seq<char>) -> u64 {
    if counts.contains_key(topic) {
        counts[topic]
    } else {
        0
    }
}

proof fn lemma_sum_insert(numbers: Seq<u64>, at: int, x: u64)
    requires
        0 <= at <= numbers.len(),
    ensures
        sum(numbers.insert(at, x)) == sum(numbers) + x,
    decreases numbers.len(),
{
    let after = numbers.insert(at, x);
    if at == numbers.len() {
        assert(after.drop_last() =~= numbers);
    } else {
        assert(after.drop_last() =~= numbers.drop_last().insert(at, x));
        lemma_sum_insert(numbers.drop_last(), at, x);
    }
}

proof fn lemma_sum_update(numbers: Seq<u64>, at: int, x: u64)
    requires
        0 <= at < numbers.len(),
    ensures
        sum(numbers.update(at, x)) == sum(numbers) - numbers[at] + x,
    decreases numbers.len(),
{
    let after = numbers.update(at, x);
    if at == numbers.len() - 1 {
        assert(after.drop_last() =~= numbers.drop_last());
    } else {
        assert(after.drop_last() =~= numbers.drop_last().update(at, x));
        lemma_sum_update(numbers.drop_last(), at, x);
    }
}

/// Giving a topic `n` rows changes the total by the difference from what it
/// had.
proof fn lemma_total_insert(counts: Map<Seq<char>, u64>, topic: Seq<char>, n: u64)
    requires
        counts.dom().finite(),
    ensures
        total(counts.insert(topic, n)) == total(counts) - rows_of(counts, topic) + n,
{
    let after = counts.insert(topic, n);
    lemma_keys_listed(counts);
    let keys = ordered_keys(counts);
    let numbers = keys.map_values(|t: Seq<char>| counts[t]);
    if counts.contains_key(topic) {
        assert(keys.contains(topic));
        let at = keys.index_of(topic);
        assert(lists_keys(keys, after)) by {
            assert forall|k: Seq<char>| #[trigger] keys.contains(k) <==> after.contains_key(k) by {
                assert(keys.contains(k) <==> counts.contains_key(k));
            }
        }
        lemma_ordered_keys(keys, after);
        assert forall|j: int| 0 <= j < keys.len() && j != at implies #[trigger] keys[j] != topic by {
            if j < at {
                lemma_lt_asymmetric(keys[j], keys[at]);
            } else {
                lemma_lt_asymmetric(keys[at], keys[j]);
            }
        }
        assert(keys.map_values(|t: Seq<char>| after[t]) =~= numbers.update(at, n));
        lemma_sum_update(numbers, at, n);
    } else {
        let at = lemma_listed_with(counts, topic, n);
        let whole = keys.insert(at, topic);
        lemma_ordered_keys(whole, after);
        assert forall|j: int| 0 <= j < keys.len() implies counts.contains_key(#[trigger] keys[j])
            && keys[j] != topic by {
            assert(keys.contains(keys[j]));
        }
        assert(whole.map_values(|t: Seq<char>| after[t]) =~= numbers.insert(at, n));
        lemma_sum_insert(numbers, at, n);
    }
}

/// A batch of a topic as it is read from a recording.
#[derive(Debug)]
pub struct TopicBatch {
    pub topic: String,
    pub rows: usize,
    /// When the first and the last row were recorded. It means nothing where
    /// there are no rows.
    pub log_time: Column<(i64, i64)>,
    /// The size of the batch in memory.
    pub size: u64,
}

/// Why a batch cannot be sent.
#[derive(Clone, Copy, Debug, PartialEq, Eq, Structural)]
pub enum LogTimeError {
    Absent,
    OtherType,
}

impl LogTimeError {
    /// The error as text.
    pub fn message(&self) -> (text: String)
        ensures
            text@ == match self {
                LogTimeError::Absent => "no log_time column"@,
                LogTimeError::OtherType => "log_time is not a timestamp column"@,
            },
    {
        match self {
            LogTimeError::Absent => "no log_time column".to_owned(),
            LogTimeError::OtherType => "log_time is not a timestamp column".to_owned(),
        }
    }
}

/// What is sent with a batch: the output that carries it, and its parameters.
#[derive(Debug)]
pub struct BatchMessage {
    pub output: String,
    pub params: Params,
}

/// The output that carries a batch. Batches of other topics than those that
/// are asked for, and batches without rows, are not sent.
pub open spec fn output_for(
    topics: Map<Seq<char>, Seq<char>>,
    topic: Seq<char>,
    rows: int,
) -> Option<Seq<char>> {
    if topics.contains_key(topic) && rows > 0 {
        Some(topics[topic])
    } else {
        None
    }
}

/// The counts after a batch.
pub open spec fn counted(
    topics: Map<Seq<char>, Seq<char>>,
    counts: Map<Seq<char>, u64>,
    topic: Seq<char>,
    rows: int,
) -> Map<Seq<char>, u64> {
    if output_for(topics, topic, rows) is Some {
        counts.insert(topic, (rows_of(counts, topic) + rows) as u64)
    } else {
        counts
    }
}

/// The source while it reads: what it is asked for, and what it has sent.
#[derive(Debug)]
pub struct Source {
    topics: TextMap<String>,
    counts: TextMap<u64>,
    rows: u64,
    bytes: u64,
}

/// The model of a [`Source`].
pub struct SourceView {
    /// The topics to send, each with the output that carries it.
    pub topics: Map<Seq<char>, Seq<char>>,
    /// How many rows were sent of each topic that was sent at all.
    pub counts: Map<Seq<char>, u64>,
    /// How many bytes were sent.
    pub bytes: u64,
}

impl View for Source {
    type V = SourceView;

    closed spec fn view(&self) -> SourceView {
        SourceView { topics: self.topics@, counts: self.counts@, bytes: self.bytes }
    }
}

impl SourceView {
    /// The counts can take the rows and bytes of `batch`, where it is to be
    /// sent.
    pub open spec fn has_room(self, batch: TopicBatch) -> bool {
        output_for(self.topics, batch.topic@, batch.rows as int) is Some
            && batch.log_time is Usable ==> total(self.counts) + batch.rows <= u64::MAX
            && self.bytes + batch.size <= u64::MAX
    }
}

impl Source {
    /// Only topics that are asked for are counted, and the rows that the
    /// source knows of are those of the counts.
    pub closed spec fn wf(self) -> bool {
        &&& self.counts@.dom().finite()
        &&& self.counts@.dom().subset_of(self.topics@.dom())
        &&& self.rows == total(self.counts@)
    }

    /// A source that has sent nothing.
    pub fn new(topics: TextMap<String>) -> (source: Source)
        ensures
            source.wf(),
            source@.topics == topics@,
            source@.counts == Map::<Seq<char>, u64>::empty(),
            source@.bytes == 0,
    {
        let counts: TextMap<u64> = TextMap::new();
        proof {
            let keys = Seq::<Seq<char>>::empty();
            assert(lists_keys(keys, counts@));
            lemma_ordered_keys(keys, counts@);
        }
        Source { topics, counts, rows: 0, bytes: 0 }
    }

    /// Whether the counts can take the rows and bytes of `batch`, where it is to
    /// be sent.
    pub fn has_room(&self, batch: &TopicBatch) -> (room: bool)
        requires
            self.wf(),
        ensures
            room == self@.has_room(*batch),
    {
        match batch.log_time {
            Column::Usable(_) => {},
            _ => return true,
        }
        if batch.rows == 0 || !self.topics.contains_key(batch.topic.as_str()) {
            return true;
        }
        batch.rows as u64 <= u64::MAX - self.rows && batch.size <= u64::MAX - self.bytes
    }

    /// Takes a batch, and counts it where it is to be sent. The times of a
    /// batch that is not to be sent are not looked at.
    #[verifier::rlimit(40)]
    pub fn take(&mut self, batch: &TopicBatch) -> (r: Result<Option<BatchMessage>, LogTimeError>)
        requires
            old(self).wf(),
            old(self)@.has_room(*batch),
        ensures
            final(self).wf(),
            final(self)@.topics == old(self)@.topics,
            match (output_for(old(self)@.topics, batch.topic@, batch.rows as int), batch.log_time) {
                (None, _) => r matches Ok(None) && final(self)@ == old(self)@,
                (Some(_), Column::Absent) => r == Err::<Option<BatchMessage>, _>(
                    LogTimeError::Absent,
                ) && final(self)@ == old(self)@,
                (Some(_), Column::OtherType) => r == Err::<Option<BatchMessage>, _>(
                    LogTimeError::OtherType,
                ) && final(self)@ == old(self)@,
                (Some(output), Column::Usable((t0, t1))) => {
                    &&& r matches Ok(Some(message))
                    &&& message.output@ == output
                    &&& message.output@ == old(self)@.topics[batch.topic@]
                    &&& message.params@.contains_pair("rows"@, Param::Integer(batch.rows as i64))
                    &&& message.params@.contains_pair("t0"@, Param::Integer(t0))
                    &&& message.params@.contains_pair("t1"@, Param::Integer(t1))
                    &&& message.params@ == batch_params_of(batch.rows, t0, t1)
                    &&& final(self)@.counts == counted(
                        old(self)@.topics,
                        old(self)@.counts,
                        batch.topic@,
                        batch.rows as int,
                    )
                    &&& final(self)@.bytes == old(self)@.bytes + batch.size
                    &&& total(final(self)@.counts) == total(old(self)@.counts) + batch.rows
                },
            },
    {
        let output = match self.topics.get(batch.topic.as_str()) {
            Some(output) => output.clone(),
            None => return Ok(None),
        };
        if batch.rows == 0 {
            return Ok(None);
        }
        let (t0, t1) = match batch.log_time {
            Column::Absent => return Err(LogTimeError::Absent),
            Column::OtherType => return Err(LogTimeError::OtherType),
            Column::Usable(times) => times,
        };
        let so_far: u64 = match self.counts.get(batch.topic.as_str()) {
            Some(n) => *n,
            None => 0,
        };
        proof {
            lemma_total_covers(self.counts@, batch.topic@);
            lemma_total_insert(self.counts@, batch.topic@, (so_far + batch.rows) as u64);
        }
        proof {
            a_batch_tells_its_rows_and_times(batch.rows, t0, t1);
        }
        self.counts.insert(batch.topic.clone(), so_far + batch.rows as u64);
        self.rows = self.rows + batch.rows as u64;
        self.bytes = self.bytes + batch.size;
        Ok(Some(BatchMessage { output, params: batch_params(batch.rows, t0, t1) }))
    }
}

/// No topic has more rows than all topics together.
proof fn lemma_total_covers(counts: Map<Seq<char>, u64>, topic: Seq<char>)
    requires
        counts.dom().finite(),
    ensures
        rows_of(counts, topic) <= total(counts),
{
    lemma_keys_listed(counts);
    let keys = ordered_keys(counts);
    let numbers = keys.map_values(|t: Seq<char>| counts[t]);
    if counts.contains_key(topic) {
        assert(keys.contains(topic));
        lemma_sum_covers(numbers, keys.index_of(topic));
    } else {
        lemma_sum_covers(numbers, -1);
    }
}

proof fn lemma_sum_covers(numbers: Seq<u64>, at: int)
    ensures
        0 <= sum(numbers),
        0 <= at < numbers.len() ==> numbers[at] <= sum(numbers),
    decreases numbers.len(),
{
    if numbers.len() > 0 {
        lemma_sum_covers(numbers.drop_last(), at);
    }
}

/// What a closing message holds.
#[derive(Debug)]
pub enum Body {
    /// No binary values.
    NoBinaries,
    /// These texts.
    Texts(Vec<String>),
}

/// The model of a [`Body`].
pub enum BodyView {
    NoBinaries,
    Texts(Seq<Seq<char>>),
}

impl View for Body {
    type V = BodyView;

    open spec fn view(&self) -> BodyView {
        match self {
            Body::NoBinaries => BodyView::NoBinaries,
            Body::Texts(list) => BodyView::Texts(texts(list@)),
        }
    }
}

/// One of the messages that the source sends when it has read everything.
#[derive(Debug)]
pub struct ClosingMessage {
    pub output: String,
    pub params: Params,
    pub body: Body,
}

/// The model of a [`ClosingMessage`].
pub struct ClosingView {
    pub output: Seq<char>,
    pub params: Map<Seq<char>, Param>,
    pub body: BodyView,
}

impl View for ClosingMessage {
    type V = ClosingView;

    open spec fn view(&self) -> ClosingView {
        ClosingView { output: self.output@, params: self.params@, body: self.body@ }
    }
}

impl ClosingView {
    /// Whether the message ends its output.
    pub open spec fn ends_output(self) -> bool {
        self.params == eos_params_of()
    }
}

/// The message that ends an output, with nothing in it.
pub open spec fn end_of(output: Seq<char>, body: BodyView) -> ClosingView {
    ClosingView { output, params: eos_params_of(), body }
}

/// The record of what the source has sent: a JSON object with the rows of each
/// topic.
pub open spec fn source_record(counts: Map<Seq<char>, u64>) -> Seq<char> {
    json_of_count_maps(map!["_bagflow_source"@ => counts])
}

/// The messages with which the source closes: the end of the output of each
/// topic in ascending order of topic, the record of what was sent, and the
/// end of the result.
pub open spec fn closing(
    topics: Map<Seq<char>, Seq<char>>,
    counts: Map<Seq<char>, u64>,
) -> Seq<ClosingView> {
    ordered_keys(topics).map_values(
        |t: Seq<char>| end_of(topics[t], BodyView::NoBinaries),
    ).push(
        ClosingView {
            output: "result"@,
            params: Map::empty(),
            body: BodyView::Texts(seq![source_record(counts)]),
        },
    ).push(end_of("result"@, BodyView::Texts(seq![])))
}

/// The models of closing messages.
pub open spec fn closing_views(messages: Seq<ClosingMessage>) -> Seq<ClosingView> {
    messages.map_values(|m: ClosingMessage| m@)
}

/// How the source ends: the messages that it still sends, and what it has
/// sent in all.
#[derive(Debug)]
pub struct SourceEnd {
    pub messages: Vec<ClosingMessage>,
    pub rows: u64,
    pub topics: usize,
    pub bytes: u64,
}

impl Source {
    /// Ends the source.
    #[verifier::rlimit(40)]
    pub fn finish(self) -> (end: SourceEnd)
        requires
            self.wf(),
        ensures
            closing_views(end.messages@) == closing(self@.topics, self@.counts),
            end.rows == total(self@.counts),
            end.topics == self@.counts.dom().len(),
            end.bytes == self@.bytes,
    {
        let n = self.topics.len();
        let ghost keys = ordered_keys(self.topics@);
        let ghost all = closing(self.topics@, self.counts@);
        let mut messages: Vec<ClosingMessage> = Vec::new();
        let mut i: usize = 0;
        while i < n
            invariant
                i <= n,
                n == keys.len(),
                keys == ordered_keys(self.topics@),
                all == closing(self.topics@, self.counts@),
                closing_views(messages@) =~= all.take(i as int),
            decreases n - i,
        {
            let ghost so_far = closing_views(messages@);
            messages.push(
                ClosingMessage {
                    output: self.topics.value_at(i).clone(),
                    params: eos_params(),
                    body: Body::NoBinaries,
                },
            );
            assert(closing_views(messages@) =~= so_far.push(all[i as int]));
            assert(all.take(i + 1) =~= all.take(i as int).push(all[i as int]));
            i += 1;
        }
        let topics = self.counts.len();
        proof {
            lemma_key_count(self.counts@);
        }
        let mut record: TextMap<TextMap<u64>> = TextMap::new();
        let ghost counts = self.counts@;
        record.insert("_bagflow_source".to_owned(), self.counts);
        assert(record@ =~= map!["_bagflow_source"@ => counts]);
        let mut lines: Vec<String> = Vec::new();
        lines.push(write_count_maps(&record));
        assert(texts(lines@) =~= seq![source_record(counts)]);
        let ghost so_far = closing_views(messages@);
        let params: Params = TextMap::new();
        messages.push(
            ClosingMessage { output: "result".to_owned(), params, body: Body::Texts(lines) },
        );
        assert(closing_views(messages@) =~= so_far.push(all[n as int]));
        let none: Vec<String> = Vec::new();
        assert(texts(none@) =~= seq![]);
        messages.push(
            ClosingMessage {
                output: "result".to_owned(),
                params: eos_params(),
                body: Body::Texts(none),
            },
        );
        assert(closing_views(messages@) =~= so_far.push(all[n as int]).push(all[n + 1]));
        assert(all =~= all.take(n as int).push(all[n as int]).push(all[n + 1]));
        SourceEnd { messages, rows: self.rows, topics, bytes: self.bytes }
    }
}

/// The outputs that closing messages end, in order.
pub open spec fn ended_outputs(messages: Seq<ClosingView>) -> Seq<Seq<char>>
    decreases messages.len(),
{
    if messages.len() == 0 {
        seq![]
    } else if messages.last().ends_output() {
        ended_outputs(messages.drop_last()).push(messages.last().output)
    } else {
        ended_outputs(messages.drop_last())
    }
}

/// The source ends every output that it has, each once: those of the topics
/// and its result.
pub proof fn every_output_of_the_source_ends_once(
    topics: Map<Seq<char>, Seq<char>>,
    counts: Map<Seq<char>, u64>,
)
    ensures
        ended_outputs(closing(topics, counts)) == source_outputs(topics),
{
    let all = closing(topics, counts);
    let n = ordered_keys(topics).len() as int;
    lemma_ends_of_topics(topics, counts, n);
    assert(all.drop_last() =~= all.take(n).push(all[n]));
    assert(all.take(n).push(all[n]).drop_last() =~= all.take(n));
    assert(!all[n].ends_output()) by {
        assert(eos_params_of().contains_key("eos"@));
    }
    assert(ended_outputs(all.drop_last()) == ended_outputs(all.take(n)));
    assert(source_outputs(topics) =~= source_outputs(topics).take(n).push("result"@));
}

proof fn lemma_ends_of_topics(
    topics: Map<Seq<char>, Seq<char>>,
    counts: Map<Seq<char>, u64>,
    i: int,
)
    requires
        0 <= i <= ordered_keys(topics).len(),
    ensures
        ended_outputs(closing(topics, counts).take(i)) == source_outputs(topics).take(i),
    decreases i,
{
    let all = closing(topics, counts);
    if i > 0 {
        lemma_ends_of_topics(topics, counts, i - 1);
        assert(all.take(i).drop_last() =~= all.take(i - 1));
        assert(all.take(i).last() == all[i - 1]);
    }
    assert(ended_outputs(all.take(i)) =~= source_outputs(topics).take(i));
}

/// Whatever the source sends when it closes, what it sends last on an output
/// ends that output.
pub proof fn nothing_follows_the_end_of_an_output(
    topics: Map<Seq<char>, Seq<char>>,
    counts: Map<Seq<char>, u64>,
    i: int,
)
    requires
        0 <= i < closing(topics, counts).len(),
    ensures
        exists|j: int|
            i <= j < closing(topics, counts).len() && (#[trigger] closing(
                topics,
                counts,
            )[j]).ends_output() && closing(topics, counts)[j].output == closing(
                topics,
                counts,
            )[i].output,
{
    let all = closing(topics, counts);
    if i == all.len() - 2 {
        assert(all[i + 1].ends_output());
    } else {
        assert(all[i].ends_output());
    }
}

/// The rows of the batches of `topic`.
pub open spec fn rows_in(batches: Seq<(Seq<char>, nat)>, topic: Seq<char>) -> nat
    decreases batches.len(),
{
    if batches.len() == 0 {
        0
    } else {
        rows_in(batches.drop_last(), topic) + if batches.last().0 == topic {
            batches.last().1
        } else {
            0
        }
    }
}

/// The counts after batches, each a topic and a number of rows.
pub open spec fn counted_all(
    topics: Map<Seq<char>, Seq<char>>,
    batches: Seq<(Seq<char>, nat)>,
) -> Map<Seq<char>, u64>
    decreases batches.len(),
{
    if batches.len() == 0 {
        Map::empty()
    } else {
        counted(
            topics,
            counted_all(topics, batches.drop_last()),
            batches.last().0,
            batches.last().1 as int,
        )
    }
}

/// Every row of every topic that is asked for is counted, and no row of
/// another topic is.
pub proof fn every_row_is_counted(
    topics: Map<Seq<char>, Seq<char>>,
    batches: Seq<(Seq<char>, nat)>,
    topic: Seq<char>,
)
    requires
        rows_in(batches, topic) <= u64::MAX,
    ensures
        rows_of(counted_all(topics, batches), topic) == if topics.contains_key(topic) {
            rows_in(batches, topic)
        } else {
            0
        },
    decreases batches.len(),
{
    if batches.len() > 0 {
        every_row_is_counted(topics, batches.drop_last(), topic);
    }
}

/// What tells the source that it may exit.
#[derive(Debug)]
pub enum SourceEvent {
    /// A message on the input of this name.
    Input(String),
    Stop,
    Other,
}

/// Whether an event ends the source: the report says that everything has been
/// read, or the dataflow is stopped.
pub fn ends_source(event: &SourceEvent) -> (ends: bool)
    ensures
        ends == match event {
            SourceEvent::Input(name) => name@ == "done"@,
            SourceEvent::Stop => true,
            SourceEvent::Other => false,
        },
{
    match event {
        SourceEvent::Input(name) => same_text(name.as_str(), "done"),
        SourceEvent::Stop => true,
        SourceEvent::Other => false,
    }
}

/// A batch goes to the output of its own topic. It goes nowhere where the topic
/// is not asked for or the batch has no rows. Batches of two topics with two
/// outputs never share one.
pub proof fn a_batch_goes_to_the_output_of_its_topic(
    topics: Map<Seq<char>, Seq<char>>,
    topic: Seq<char>,
    rows: int,
    other: Seq<char>,
    other_rows: int,
)
    ensures
        output_for(topics, topic, rows) is Some <==> topics.contains_key(topic) && rows > 0,
        output_for(topics, topic, rows) is Some ==> output_for(topics, topic, rows) == Some(
            topics[topic],
        ),
        output_for(topics, topic, rows) is Some && topics[topic] != topics[other] ==> output_for(
            topics,
            topic,
            rows,
        ) != output_for(topics, other, other_rows),
{
}

/// A batch adds its rows to those of its topic, where it is sent, and leaves
/// those of every other topic as they are.
pub proof fn a_batch_counts_for_its_topic_alone(
    topics: Map<Seq<char>, Seq<char>>,
    counts: Map<Seq<char>, u64>,
    topic: Seq<char>,
    rows: int,
    other: Seq<char>,
)
    requires
        0 <= rows,
        counts.contains_key(topic) ==> counts[topic] + rows <= u64::MAX,
        rows <= u64::MAX,
    ensures
        ({
            let after = counted(topics, counts, topic, rows);
            &&& topics.contains_key(topic) && rows > 0 ==> after.contains_key(topic)
                && after[topic] == rows + if counts.contains_key(topic) {
                counts[topic] as int
            } else {
                0
            }
            &&& !(topics.contains_key(topic) && rows > 0) ==> after == counts
            &&& other != topic ==> after.contains_key(other) == counts.contains_key(other)
                && after[other] == counts[other]
        }),
{
}

/// The total is the sum over the topics: none without topics, and each topic
/// that is added adds its rows.
pub proof fn the_total_is_the_sum_of_the_counts(
    counts: Map<Seq<char>, u64>,
    topic: Seq<char>,
    rows: u64,
)
    requires
        counts.dom().finite(),
        !counts.contains_key(topic),
    ensures
        total(Map::empty()) == 0,
        total(counts.insert(topic, rows)) == total(counts) + rows,
{
    let none = Map::<Seq<char>, u64>::empty();
    let keys = Seq::<Seq<char>>::empty();
    assert(lists_keys(keys, none));
    lemma_ordered_keys(keys, none);
    lemma_total_insert(counts, topic, rows);
}

/// What the source sends when it closes: behind each other, for its topics in
/// order, an empty message on the output of the topic that says that it is the
/// end; the counts, as the only text of a message on `result`; and an empty
/// message that ends `result`.
pub proof fn the_source_closes_output_by_output(
    topics: Map<Seq<char>, Seq<char>>,
    counts: Map<Seq<char>, u64>,
    keys: Seq<Seq<char>>,
    i: int,
)
    requires
        lists_keys(keys, topics),
    ensures
        ({
            let all = closing(topics, counts);
            let n = keys.len() as int;
            let end: Map<Seq<char>, Param> = map!["eos"@ => Param::Bool(true)];
            &&& all.len() == n + 2
            &&& 0 <= i < n ==> all[i].output == topics[keys[i]] && all[i].params == end
                && all[i].body == BodyView::NoBinaries
            &&& all[n].output == "result"@
            &&& all[n].params == Map::<Seq<char>, Param>::empty()
            &&& all[n].body matches BodyView::Texts(lines)
            &&& lines.len() == 1
            &&& lines[0] == json_of_count_maps(map!["_bagflow_source"@ => counts])
            &&& all[n + 1].output == "result"@
            &&& all[n + 1].params == end
            &&& all[n + 1].body matches BodyView::Texts(none)
            &&& none.len() == 0
        }),
{
    lemma_ordered_keys(keys, topics);
}

/// The model of a closing message has the fields of the message, and that of a
/// list of them the models of each.
pub proof fn the_model_of_a_closing_message_is_the_message(
    message: ClosingMessage,
    list: Seq<ClosingMessage>,
    i: int,
)
    ensures
        closing_views(list).len() == list.len(),
        0 <= i < list.len() ==> closing_views(list)[i] == list[i]@,
        message@.output == message.output@,
        message@.params == message.params@,
        match message.body {
            Body::NoBinaries => message@.body == BodyView::NoBinaries,
            Body::Texts(list) => message@.body == BodyView::Texts(
                list@.map_values(|s: String| s@),
            ),
        },
{
}

/// The recordings of a bag directory are its files whose names end in `.mcap`
/// behind something else, each as often as it is there and in ascending order
/// of name, as seen from the bag.
pub proof fn recordings_are_the_mcap_files_in_order(bag: Seq<char>, names: Seq<Seq<char>>)
    ensures
        exists|kept: Seq<Seq<char>>|
            #![trigger kept.to_multiset()]
            {
                &&& kept.to_multiset() == names.filter(
                    |n: Seq<char>| n.len() > 5 && n.subrange(n.len() - 5, n.len() as int) == ".mcap"@,
                ).to_multiset()
                &&& recordings(bag, names).len() == kept.len()
                &&& forall|i: int|
                    0 <= i < kept.len() ==> #[trigger] recordings(bag, names)[i] == path_in(
                        bag,
                        kept[i],
                    )
                &&& forall|i: int, j: int|
                    0 <= i < j < kept.len() ==> kept[i] == kept[j] || #[trigger] text_lt(
                        kept[i],
                        kept[j],
                    )
            },
{
    let wanted = |n: Seq<char>| is_mcap_name(n);
    let named = |n: Seq<char>| n.len() > 5 && n.subrange(n.len() - 5, n.len() as int) == ".mcap"@;
    assert forall|n: Seq<char>| #[trigger] wanted(n) == named(n) by {
        if n.len() > 5 {
            assert(n.skip(n.len() - 5) =~= n.subrange(n.len() - 5, n.len() as int));
        }
    }
    lemma_filters_agree(names, wanted, named);
    let kept = sorted_texts(names.filter(wanted));
    sorting_keeps_texts_and_orders_them(names.filter(wanted), 0, 0);
    assert forall|i: int, j: int| 0 <= i < j < kept.len() implies kept[i] == kept[j]
        || #[trigger] text_lt(kept[i], kept[j]) by {
        sorting_keeps_texts_and_orders_them(names.filter(wanted), i, j);
    }
    assert(kept.to_multiset() == names.filter(named).to_multiset());
}

proof fn lemma_filters_agree(
    list: Seq<Seq<char>>,
    f: spec_fn(Seq<char>) -> bool,
    g: spec_fn(Seq<char>) -> bool,
)
    requires
        forall|x: Seq<char>| #[trigger] f(x) == g(x),
    ensures
        list.filter(f) == list.filter(g),
    decreases list.len(),
{
    reveal(Seq::filter);
    if list.len() > 0 {
        lemma_filters_agree(list.drop_last(), f, g);
        assert(f(list.last()) == g(list.last()));
    }
}

/// There is room for a batch that is not sent, and for one whose rows and bytes
/// the counts can still hold.
pub proof fn there_is_room_until_the_counts_are_full(source: SourceView, batch: TopicBatch)
    ensures
        total(source.counts) + batch.rows <= u64::MAX && source.bytes + batch.size <= u64::MAX
            ==> source.has_room(batch),
        !source.topics.contains_key(batch.topic@) || batch.rows == 0 ==> source.has_room(batch),
{
}

/// A batch has up to 64 rows and up to eight times 1024 times 1024 bytes where
/// nothing else is set.
pub proof fn batches_have_a_usual_size()
    ensures
        setting_value(None, DEFAULT_BATCH_ROWS) == 64,
        setting_value(None, DEFAULT_BATCH_BYTES) == 8 * 1024 * 1024,
{
}

} // verus!
