//! What is decided around a request to the embedding service: how texts
//! are cut and batched, what the request carries, and what is made of the
//! answer. The request itself is sent elsewhere.

use crate::config::{EmbeddingConfig, SearchSurroundings};
use crate::search_error::SearchError;
use crate::text::{
    chars_of, concat2, concat3, decimal, decimal_chars, push_all, slice_of, starts_with,
    string_of,
};
use vstd::prelude::*;

verus! {

/// The largest number of characters of a text that is sent.
pub const MAX_EMBED_CHARS: usize = 8000;

/// `text`, or its first [`MAX_EMBED_CHARS`] characters where it is longer.
pub open spec fn truncated(text: Seq<char>) -> Seq<char> {
    if text.len() > MAX_EMBED_CHARS {
        text.subrange(0, MAX_EMBED_CHARS as int)
    } else {
        text
    }
}

/// `text` as it is sent.
pub fn truncate_text(text: &str) -> (r: String)
    ensures
        r@ == truncated(text@),
{
    let all = chars_of(text);
    if all.len() > MAX_EMBED_CHARS {
        string_of(&slice_of(&all, 0, MAX_EMBED_CHARS))
    } else {
        text.to_owned()
    }
}

/// The texts of one request as they are sent, in the same order.
pub fn prepare_batch(texts: &Vec<String>) -> (r: Vec<String>)
    ensures
        r.len() == texts.len(),
        forall|i: int| 0 <= i < texts.len() ==> (#[trigger] r@[i])@ == truncated(texts@[i]@),
{
    let mut r: Vec<String> = Vec::new();
    let mut i: usize = 0;
    while i < texts.len()
        invariant
            i <= texts.len(),
            r.len() == i,
            forall|k: int| 0 <= k < i ==> (#[trigger] r@[k])@ == truncated(texts@[k]@),
        decreases texts.len() - i,
    {
        r.push(truncate_text(texts[i].as_str()));
        i = i + 1;
    }
    r
}

/// Where the `k`-th batch of `total` texts begins and ends, with at most
/// `batch_size` texts in a batch.
pub open spec fn batch_bounds(total: int, batch_size: int, k: int) -> (int, int) {
    (
        k * batch_size,
        if (k + 1) * batch_size < total {
            (k + 1) * batch_size
        } else {
            total
        },
    )
}

/// The number of batches that `total` texts make.
pub open spec fn batch_count(total: int, batch_size: int) -> int {
    (total + batch_size - 1) / batch_size
}

/// The batches of `total` texts: consecutive ranges of `batch_size`
/// texts, the last one shorter where the texts do not fill it.
pub fn batch_ranges(total: usize, batch_size: usize) -> (ranges: Vec<(usize, usize)>)
    requires
        batch_size > 0,
    ensures
        ranges.len() == batch_count(total as int, batch_size as int),
        forall|k: int|
            0 <= k < ranges.len() ==> (#[trigger] ranges@[k]).0 as int == batch_bounds(
                total as int,
                batch_size as int,
                k,
            ).0 && ranges@[k].1 as int == batch_bounds(total as int, batch_size as int, k).1,
        forall|k: int|
            0 <= k < ranges.len() ==> (#[trigger] ranges@[k]).0 < ranges@[k].1 <= total
                && ranges@[k].1 - ranges@[k].0 <= batch_size,
{
    let mut ranges: Vec<(usize, usize)> = Vec::new();
    let mut start: usize = 0;
    assert(0 * (batch_size as int) == 0) by (nonlinear_arith);
    while start < total
        invariant
            batch_size > 0,
            start <= total,
            start as int == (ranges.len() as int) * (batch_size as int),
            ranges.len() > 0 ==> start < total,
            forall|k: int|
                0 <= k < ranges.len() ==> (#[trigger] ranges@[k]).0 as int == batch_bounds(
                    total as int,
                    batch_size as int,
                    k,
                ).0 && ranges@[k].1 as int == batch_bounds(total as int, batch_size as int, k).1,
            forall|k: int|
                0 <= k < ranges.len() ==> (#[trigger] ranges@[k]).0 < ranges@[k].1 <= total
                    && ranges@[k].1 - ranges@[k].0 <= batch_size,
        decreases total - start,
    {
        let ghost k = ranges.len() as int;
        let end: usize = if batch_size < total - start {
            start + batch_size
        } else {
            total
        };
        assert((k + 1) * (batch_size as int) == start + batch_size) by (nonlinear_arith)
            requires
                start as int == k * (batch_size as int),
        ;
        ranges.push((start, end));
        if end == total {
            proof {
                lemma_batch_count(total as int, batch_size as int, k);
            }
            return ranges;
        }
        start = end;
    }
    assert((0 + batch_size - 1) / (batch_size as int) == 0) by (nonlinear_arith)
        requires
            batch_size > 0,
    ;
    ranges
}

/// Where the last batch begins below the total and ends at it, the
/// number of batches is one more than its position.
proof fn lemma_batch_count(total: int, batch_size: int, k: int)
    requires
        batch_size > 0,
        k >= 0,
        k * batch_size < total,
        total <= (k + 1) * batch_size,
    ensures
        batch_count(total, batch_size) == k + 1,
{
    assert((total + batch_size - 1) / batch_size == k + 1) by (nonlinear_arith)
        requires
            batch_size > 0,
            k >= 0,
            k * batch_size < total,
            total <= (k + 1) * batch_size,
    ;
}

/// The vector length that a request names: the configured one for the
/// models whose name begins with `text-embedding-3`, none for the others.
pub fn request_dimensions(config: &EmbeddingConfig) -> (r: Option<usize>)
    ensures
        r == if "text-embedding-3"@.is_prefix_of(config.model@) {
            Some(config.dimensions)
        } else {
            None
        },
{
    if starts_with(&chars_of(config.model.as_str()), &chars_of("text-embedding-3")) {
        Some(config.dimensions)
    } else {
        None
    }
}

/// The address that requests are sent to.
pub fn embeddings_url(config: &EmbeddingConfig) -> (url: String)
    ensures
        url@ == config.api_base@ + "/embeddings"@,
{
    concat2(config.api_base.as_str(), "/embeddings")
}

/// The value of the header that carries the key.
pub fn authorization(api_key: &str) -> (header: String)
    ensures
        header@ == "Bearer "@ + api_key@,
{
    concat2("Bearer ", api_key)
}

/// The message for an answer with the wrong number of vectors.
pub open spec fn count_mismatch_text(sent: nat, got: nat) -> Seq<char> {
    "Embedding count mismatch: sent "@ + decimal(sent) + " texts, got "@ + decimal(got)
        + " embeddings"@
}

/// Checks that an answer holds one vector for each text that was sent.
pub fn check_count(sent: usize, got: usize) -> (r: Result<(), SearchError>)
    ensures
        match r {
            Ok(_) => sent == got,
            Err(e) => {
                &&& sent != got
                &&& e matches SearchError::Embedding(m)
                &&& m@ == count_mismatch_text(sent as nat, got as nat)
            },
        },
{
    if sent == got {
        return Ok(());
    }
    let mut text = chars_of("Embedding count mismatch: sent ");
    push_all(&mut text, &decimal_chars(sent));
    push_all(&mut text, &chars_of(" texts, got "));
    push_all(&mut text, &decimal_chars(got));
    push_all(&mut text, &chars_of(" embeddings"));
    Err(SearchError::Embedding(string_of(&text)))
}

/// The error for an answer that reports a failure: the message of the
/// service where the answer held one, else status and body.
pub fn api_error(status: &str, body: &str, message: Option<String>) -> (e: SearchError)
    ensures
        e matches SearchError::Embedding(m) && m@ == match message {
            Some(text) => text@,
            None => "API error ("@ + status@ + "): "@ + body@,
        },
{
    match message {
        Some(text) => SearchError::Embedding(text),
        None => {
            let mut text = concat3("API error (", status, "): ");
            text.append(body);
            SearchError::Embedding(text)
        },
    }
}

/// Whether `order` lists the positions of `keys`, each once, by
/// ascending key, with equal keys in their old order.
pub open spec fn is_order_by_key(order: Seq<usize>, keys: Seq<usize>) -> bool {
    &&& order.len() == keys.len()
    &&& forall|a: int| 0 <= a < order.len() ==> #[trigger] order[a] < keys.len()
    &&& forall|a: int, b: int|
        0 <= a < b < order.len() ==> #[trigger] order[a] != #[trigger] order[b]
    &&& forall|a: int, b: int|
        0 <= a < b < order.len() ==> keys[#[trigger] order[a] as int] <= keys[#[trigger] order[b] as int]
    &&& forall|a: int, b: int|
        0 <= a < b < order.len() && keys[#[trigger] order[a] as int]
            == keys[#[trigger] order[b] as int] ==> order[a] < order[b]
}

/// The order in which the vectors of an answer are read: by the index
/// that the service gave each, vectors of equal index as they came.
pub fn order_by_index(indices: &Vec<usize>) -> (order: Vec<usize>)
    ensures
        is_order_by_key(order@, indices@),
{
    let mut order: Vec<usize> = Vec::new();
    let mut i: usize = 0;
    while i < indices.len()
        invariant
            i <= indices.len(),
            order.len() == i,
            forall|a: int| 0 <= a < order.len() ==> #[trigger] order@[a] < i,
            forall|a: int, b: int|
                0 <= a < b < order.len() ==> #[trigger] order@[a] != #[trigger] order@[b],
            forall|a: int, b: int|
                0 <= a < b < order.len() ==> indices@[#[trigger] order@[a] as int]
                    <= indices@[#[trigger] order@[b] as int],
            forall|a: int, b: int|
                0 <= a < b < order.len() && indices@[#[trigger] order@[a] as int]
                    == indices@[#[trigger] order@[b] as int] ==> order@[a] < order@[b],
        decreases indices.len() - i,
    {
        let mut pos: usize = 0;
        while pos < order.len() && indices[order[pos]] <= indices[i]
            invariant
                pos <= order.len(),
                order.len() == i,
                i < indices.len(),
                forall|a: int| 0 <= a < order.len() ==> #[trigger] order@[a] < i,
                forall|a: int| 0 <= a < pos ==> indices@[#[trigger] order@[a] as int] <= indices@[i as int],
            decreases order.len() - pos,
        {
            pos = pos + 1;
        }
        let ghost prev = order@;
        order.insert(pos, i);
        assert forall|a: int| 0 <= a < order.len() implies #[trigger] order@[a] < i + 1 by {
            if a < pos {
                assert(order@[a] == prev[a]);
            } else if a > pos {
                assert(order@[a] == prev[a - 1]);
            }
        }
        assert forall|a: int, b: int| 0 <= a < b < order.len() implies #[trigger] order@[a]
            != #[trigger] order@[b] && indices@[order@[a] as int] <= indices@[order@[b] as int] && (
        indices@[order@[a] as int] == indices@[order@[b] as int] ==> order@[a] < order@[b]) by {
            let pa = if a < pos { a } else { a - 1 };
            let pb = if b < pos { b } else { b - 1 };
            if a == pos {
                assert(order@[b] == prev[pb]);
                assert(prev[pb] < i);
                assert(indices@[prev[pos as int] as int] <= indices@[prev[pb] as int]);
            } else if b == pos {
                assert(order@[a] == prev[pa]);
                assert(prev[pa] < i);
            } else {
                assert(order@[a] == prev[pa]);
                assert(order@[b] == prev[pb]);
                assert(pa < pb);
            }
        }
        i = i + 1;
    }
    order
}

/// What is known about the embedding service between two requests.
#[derive(Debug)]
pub struct EmbeddingClient {
    config: EmbeddingConfig,
    /// The vector length of the first answer; 0 before any answer.
    actual_dimensions: usize,
}

impl EmbeddingClient {
    /// The vector length that the configuration names.
    pub closed spec fn configured(&self) -> usize {
        self.config.dimensions
    }

    /// The vector length of the first answer; 0 before any answer.
    pub closed spec fn detected(&self) -> usize {
        self.actual_dimensions
    }

    /// A client for `config`. It is refused where no key is to be had.
    pub fn new(config: EmbeddingConfig, around: &SearchSurroundings) -> (r: Result<
        EmbeddingClient,
        SearchError,
    >)
        ensures
            match r {
                Ok(client) => crate::config::api_key_of(config, *around) is Some
                    && client.settings() == config && client.configured() == config.dimensions
                    && client.detected() == 0,
                Err(e) => crate::config::api_key_of(config, *around) is None && e is ApiKeyMissing,
            },
    {
        match config.get_api_key(around) {
            Ok(_) => Ok(EmbeddingClient { config, actual_dimensions: 0 }),
            Err(e) => Err(e),
        }
    }

    /// The configuration that the client was made with.
    pub closed spec fn settings(&self) -> EmbeddingConfig {
        self.config
    }

    /// The configuration that the client was made with.
    pub fn config(&self) -> (c: &EmbeddingConfig)
        ensures
            *c == self.settings(),
    {
        &self.config
    }

    /// The vector length to reckon with: the detected one once there is
    /// one, else the configured one.
    pub fn dimensions(&self) -> (n: usize)
        ensures
            n == if self.detected() > 0 {
                self.detected()
            } else {
                self.configured()
            },
    {
        if self.actual_dimensions > 0 {
            self.actual_dimensions
        } else {
            self.config.dimensions
        }
    }

    /// The vector length of the first answer; 0 before any answer.
    pub fn actual_dimensions(&self) -> (n: usize)
        ensures
            n == self.detected(),
    {
        self.actual_dimensions
    }

    /// Takes note of the vector length of an answer. The first length
    /// seen is kept. A later one that differs is a reason to warn, which
    /// the result says, and changes nothing.
    pub fn observe(&mut self, length: usize) -> (warn: bool)
        ensures
            final(self).settings() == old(self).settings(),
            final(self).configured() == old(self).configured(),
            final(self).detected() == if old(self).detected() == 0 {
                length
            } else {
                old(self).detected()
            },
            warn == (old(self).detected() != 0 && old(self).detected() != length),
    {
        if self.actual_dimensions == 0 {
            self.actual_dimensions = length;
            false
        } else {
            self.actual_dimensions != length
        }
    }
}

/// What is sent to the embedding service in one request.
#[derive(Debug)]
pub struct EmbeddingRequest {
    /// The address that the request goes to.
    pub url: String,
    /// The value of the `Authorization` header.
    pub authorization: String,
    pub model: String,
    /// The texts, cut to the length that is sent.
    pub input: Vec<String>,
    /// The vector length that is asked for, if one is.
    pub dimensions: Option<usize>,
}

/// What came back for one request.
#[derive(Debug)]
pub enum EmbeddingAnswer {
    /// The service reported a failure: the status line, the body, and the
    /// message of the service where the body held one.
    Failed { status: String, body: String, message: Option<String> },
    /// The body could not be read.
    Unreadable { reason: String },
    /// Vectors came: for each, in the order of the answer, the index that
    /// the service gave it and its length.
    Vectors { entries: Vec<(usize, usize)> },
}

/// How the vectors of an answer are to be read.
#[derive(Debug)]
pub struct AnswerReading {
    /// The positions of the vectors in the answer, in the order in
    /// which they belong to the texts.
    pub order: Vec<usize>,
    /// Whether the length of the first vector differs from the length
    /// that was detected before.
    pub warn: bool,
}

/// The indices of the entries of an answer.
pub open spec fn entry_indices(entries: Seq<(usize, usize)>) -> Seq<usize> {
    Seq::new(entries.len(), |i: int| entries[i].0)
}

impl EmbeddingClient {
    /// The request for the texts `texts`: to the address of the service
    /// with `/embeddings`, signed with `api_key`, for the configured model,
    /// with each text cut to the length that is sent, and with the vector
    /// length named only for models that take it.
    pub fn request(&self, texts: &Vec<String>, api_key: &str) -> (r: EmbeddingRequest)
        ensures
            r.url@ == self.settings().api_base@ + "/embeddings"@,
            r.authorization@ == "Bearer "@ + api_key@,
            r.model@ == self.settings().model@,
            r.input.len() == texts.len(),
            forall|i: int|
                0 <= i < texts.len() ==> (#[trigger] r.input@[i])@ == truncated(texts@[i]@),
            r.dimensions == if "text-embedding-3"@.is_prefix_of(self.settings().model@) {
                Some(self.settings().dimensions)
            } else {
                None
            },
    {
        EmbeddingRequest {
            url: embeddings_url(&self.config),
            authorization: authorization(api_key),
            model: self.config.model.clone(),
            input: prepare_batch(texts),
            dimensions: request_dimensions(&self.config),
        }
    }

    /// Reads the answer to a request of `sent` texts. A failure of the
    /// service and an unreadable body are errors, and so is an answer
    /// with another number of vectors than texts. Else the vectors are to
    /// be read in the order of their indices, and the length of the first
    /// of them is taken note of.
    pub fn read_answer(&mut self, sent: usize, answer: EmbeddingAnswer) -> (r: Result<
        AnswerReading,
        SearchError,
    >)
        ensures
            final(self).settings() == old(self).settings(),
            final(self).configured() == old(self).configured(),
            match answer {
                EmbeddingAnswer::Failed { status, body, message } => {
                    &&& final(self).detected() == old(self).detected()
                    &&& r matches Err(SearchError::Embedding(m))
                    &&& m@ == match message {
                        Some(text) => text@,
                        None => "API error ("@ + status@ + "): "@ + body@,
                    }
                },
                EmbeddingAnswer::Unreadable { reason } => {
                    &&& final(self).detected() == old(self).detected()
                    &&& r matches Err(SearchError::Json(m))
                    &&& m@ == reason@
                },
                EmbeddingAnswer::Vectors { entries } => if entries.len() != sent {
                    &&& final(self).detected() == old(self).detected()
                    &&& r matches Err(SearchError::Embedding(m))
                    &&& m@ == count_mismatch_text(sent as nat, entries.len() as nat)
                } else {
                    &&& r matches Ok(reading)
                    &&& is_order_by_key(reading.order@, entry_indices(entries@))
                    &&& if entries.len() == 0 {
                        final(self).detected() == old(self).detected() && !reading.warn
                    } else {
                        let first = entries@[reading.order@[0] as int].1;
                        &&& final(self).detected() == if old(self).detected() == 0 {
                            first
                        } else {
                            old(self).detected()
                        }
                        &&& reading.warn == (old(self).detected() != 0 && old(self).detected()
                            != first)
                    }
                },
            },
    {
        match answer {
            EmbeddingAnswer::Failed { status, body, message } => Err(
                api_error(status.as_str(), body.as_str(), message),
            ),
            EmbeddingAnswer::Unreadable { reason } => Err(SearchError::Json(reason)),
            EmbeddingAnswer::Vectors { entries } => {
                match check_count(sent, entries.len()) {
                    Ok(_) => {},
                    Err(e) => {
                        return Err(e);
                    },
                }
                let mut indices: Vec<usize> = Vec::new();
                let mut i: usize = 0;
                while i < entries.len()
                    invariant
                        i <= entries.len(),
                        indices.len() == i,
                        forall|k: int| 0 <= k < i ==> #[trigger] indices@[k] == entries@[k].0,
                    decreases entries.len() - i,
                {
                    indices.push(entries[i].0);
                    i = i + 1;
                }
                assert(indices@ =~= entry_indices(entries@));
                let order = order_by_index(&indices);
                let warn = if order.len() > 0 {
                    self.observe(entries[order[0]].1)
                } else {
                    false
                };
                Ok(AnswerReading { order, warn })
            },
        }
    }
}


} // verus!
