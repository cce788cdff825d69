//! The summarization engine: direct or chunked (map-reduce) summarization of a
//! cleaned transcript, chosen by its token count.
//!
//! A [`SummaryRun`] decides which request to send next; the caller sends it to
//! the chat service and hands the reply back with [`SummaryRun::record_reply`].
//! A transcript within [`TOKEN_BUDGET`] is summarized by one request. A longer
//! one is split at [`TRANSCRIPT_CHUNK_DELIMITER`]; each non-empty chunk is
//! summarized in order with the summaries of all earlier chunks as context,
//! and one final request combines the chunk summaries.

use crate::text::{
    chars_of, longest_space_run, longest_space_run_of, find_from, find_from_exec, lemma_find_from, string_of, texts, trim, trim_bounds,
};
use vstd::prelude::*;

verus! {

/// The marker written after the transcription of each audio segment.
pub const TRANSCRIPT_CHUNK_DELIMITER: &'static str = "----END_OF_CHUNK----";

/// Tokens of the model's context window left for the transcript once prompts
/// and the response are reserved for.
pub const TOKEN_BUDGET: usize = 128_000 - 18_000;

/// The delimiter as characters.
pub open spec fn delimiter() -> Seq<char> {
    TRANSCRIPT_CHUNK_DELIMITER@
}

/// `x` as a one-element sequence when it is not empty, else nothing.
pub open spec fn keep_nonempty(x: Seq<char>) -> Seq<Seq<char>> {
    if x.len() > 0 {
        seq![x]
    } else {
        Seq::empty()
    }
}

/// The trimmed, non-empty pieces of `s[start..]` between occurrences of `d`.
pub open spec fn chunks_from(s: Seq<char>, d: Seq<char>, start: int) -> Seq<Seq<char>>
    decreases s.len() + 1 - start,
{
    if start < 0 || start > s.len() || d.len() == 0 {
        Seq::empty()
    } else {
        match find_from(s, d, start) {
            Some(i) => if start <= i && i + d.len() <= s.len() {
                keep_nonempty(trim(s.subrange(start, i))) + chunks_from(s, d, i + d.len())
            } else {
                Seq::empty()
            },
            None => keep_nonempty(trim(s.subrange(start, s.len() as int))),
        }
    }
}

/// The chunks of a transcript: its pieces between delimiters, trimmed, the
/// empty ones left out.
pub open spec fn transcript_chunks(s: Seq<char>) -> Seq<Seq<char>> {
    chunks_from(s, delimiter(), 0)
}

/// `xs` joined with newlines.
pub open spec fn join_lines(xs: Seq<Seq<char>>) -> Seq<char>
    decreases xs.len(),
{
    if xs.len() == 0 {
        Seq::empty()
    } else if xs.len() == 1 {
        xs[0]
    } else {
        join_lines(xs.drop_last()) + seq!['\n'] + xs.last()
    }
}

/// The context for the next chunk: the summaries so far joined with newlines,
/// none before the first.
pub open spec fn context_of(summaries: Seq<Seq<char>>) -> Option<Seq<char>> {
    if summaries.len() == 0 {
        None
    } else {
        Some(join_lines(summaries))
    }
}

/// Errors of the summarization engine.
#[derive(Clone, Copy, Debug, PartialEq, Eq, Structural)]
pub enum SummaryError {
    /// The text holds a whitespace run of [`MAX_WHITESPACE_RUN`] characters or
    /// more, which the tokenizer cannot take.
    WhitespaceRun,
    /// The chat service replied with no choices.
    EmptyChoices,
    /// The first choice is an assistant message without content.
    MissingContent,
    /// The first choice is an assistant message whose content is not text.
    UnexpectedContent,
    /// The first choice is not an assistant message.
    UnexpectedMessage,
}

/// The byte-pair encoder of another_tiktoken_rs, carried as an opaque value.
#[verifier::external_type_specification]
#[verifier::external_body]
pub struct ExCoreBPE(another_tiktoken_rs::CoreBPE);

/// The error that building the encoder may return, carried as an opaque value.
#[verifier::external_type_specification]
#[verifier::external_body]
pub struct ExAnyhowError(anyhow::Error);

/// The number of tokens that the cl100k_base encoding gives a text, special
/// tokens included.
pub uninterp spec fn cl100k_token_count(s: Seq<char>) -> nat;

/// The length of whitespace run from which the tokenizer fails. Its pattern
/// matcher keeps one backtracking entry per character of a whitespace run, in
/// a stack of at most 1,000,000 entries, and unwraps the overflow error.
pub const MAX_WHITESPACE_RUN: usize = 999_000;

/// Relies on `another_tiktoken_rs::cl100k_base`: it builds the encoder from
/// ranks embedded in that crate and depends on nothing else; the crate's own
/// `cl100k_base_singleton` unwraps it.
#[verifier::external_body]
fn load_cl100k() -> (r: Result<another_tiktoken_rs::CoreBPE, anyhow::Error>)
    ensures
        r is Ok,
{
    another_tiktoken_rs::cl100k_base()
}

/// Relies on `CoreBPE::encode_with_special_tokens`: the number of tokens of
/// `text`. A `Tokenizer` only ever holds the cl100k_base encoder, so the count
/// depends on the text alone. Longer whitespace runs overflow the pattern
/// matcher's backtracking stack, which the crate unwraps.
#[verifier::external_body]
fn encoded_len(tokenizer: &Tokenizer, text: &str) -> (r: usize)
    requires
        longest_space_run(text@) < MAX_WHITESPACE_RUN,
    ensures
        r == cl100k_token_count(text@),
{
    tokenizer.bpe.encode_with_special_tokens(text).len()
}

/// The cl100k_base tokenizer. Its only constructor is [`Tokenizer::cl100k`].
pub struct Tokenizer {
    bpe: another_tiktoken_rs::CoreBPE,
}

impl Tokenizer {
    /// Builds the cl100k_base tokenizer.
    pub fn cl100k() -> (r: Tokenizer) {
        match load_cl100k() {
            Ok(bpe) => Tokenizer { bpe },
            Err(_) => vstd::pervasive::unreached(),
        }
    }

    /// The number of tokens in `text`.
    pub fn count(&self, text: &str) -> (r: usize)
        requires
            longest_space_run(text@) < MAX_WHITESPACE_RUN,
        ensures
            r == cl100k_token_count(text@),
    {
        encoded_len(self, text)
    }
}

/// The number of cl100k_base tokens in `text`; an error when the text holds a
/// whitespace run too long for the tokenizer.
pub fn count_tokens(text: &str) -> (r: Result<usize, SummaryError>)
    ensures
        longest_space_run(text@) < MAX_WHITESPACE_RUN ==> r == Ok::<usize, SummaryError>(
            cl100k_token_count(text@) as usize,
        ) && cl100k_token_count(text@) <= usize::MAX,
        longest_space_run(text@) >= MAX_WHITESPACE_RUN ==> r == Err::<usize, SummaryError>(
            SummaryError::WhitespaceRun,
        ),
{
    if longest_space_run_of(text) >= MAX_WHITESPACE_RUN {
        return Err(SummaryError::WhitespaceRun);
    }
    let t = Tokenizer::cl100k();
    Ok(t.count(text))
}

/// The content of a chat reply message.
pub enum ChatContent {
    Text(String),
    /// Content of any other kind (parts, images).
    Other,
}

/// One choice of a chat reply.
pub enum ChatReplyMessage {
    Assistant { content: Option<ChatContent> },
    /// A message of any other role.
    Other,
}

/// The text of the first choice of a chat reply.
pub fn chat_completions_text_from_response(choices: Vec<ChatReplyMessage>) -> (r: Result<
    String,
    SummaryError,
>)
    ensures
        choices@.len() == 0 ==> r == Err::<String, SummaryError>(SummaryError::EmptyChoices),
        choices@.len() > 0 ==> match choices@[0] {
            ChatReplyMessage::Assistant { content: Some(ChatContent::Text(t)) } => r matches Ok(
                s,
            ) && s@ == t@,
            ChatReplyMessage::Assistant { content: None } => r == Err::<String, SummaryError>(
                SummaryError::MissingContent,
            ),
            ChatReplyMessage::Assistant { content: Some(ChatContent::Other) } => r == Err::<
                String,
                SummaryError,
            >(SummaryError::UnexpectedContent),
            ChatReplyMessage::Other => r == Err::<String, SummaryError>(
                SummaryError::UnexpectedMessage,
            ),
        },
{
    let mut choices = choices;
    if choices.len() == 0 {
        return Err(SummaryError::EmptyChoices);
    }
    match choices.remove(0) {
        ChatReplyMessage::Assistant { content: Some(ChatContent::Text(t)) } => Ok(t),
        ChatReplyMessage::Assistant { content: None } => Err(SummaryError::MissingContent),
        ChatReplyMessage::Assistant { content: Some(ChatContent::Other) } => Err(
            SummaryError::UnexpectedContent,
        ),
        ChatReplyMessage::Other => Err(SummaryError::UnexpectedMessage),
    }
}

/// A request to the chat service, as the engine sees it.
pub enum SummaryCall {
    Whole(Seq<char>),
    Chunk(Seq<char>, Option<Seq<char>>),
    Combine(Seq<Seq<char>>),
}

/// The state of a summarization run.
pub struct SummaryRunView {
    pub direct: bool,
    pub transcript: Seq<char>,
    pub chunks: Seq<Seq<char>>,
    pub summaries: Seq<Seq<char>>,
    pub result: Option<Seq<char>>,
}

/// The run that starts on `transcript` with `token_count` tokens.
pub open spec fn initial_run(transcript: Seq<char>, token_count: nat) -> SummaryRunView {
    let direct = token_count <= TOKEN_BUDGET;
    SummaryRunView {
        direct,
        transcript,
        chunks: if direct {
            Seq::empty()
        } else {
            transcript_chunks(transcript)
        },
        summaries: Seq::empty(),
        result: None,
    }
}

/// The request that a run sends next, none once it has its summary.
pub open spec fn next_call(v: SummaryRunView) -> Option<SummaryCall> {
    if v.result is Some {
        None
    } else if v.direct {
        Some(SummaryCall::Whole(v.transcript))
    } else if v.summaries.len() < v.chunks.len() {
        Some(SummaryCall::Chunk(v.chunks[v.summaries.len() as int], context_of(v.summaries)))
    } else {
        Some(SummaryCall::Combine(v.summaries))
    }
}

/// The run after the reply `text` to its pending request.
pub open spec fn after_reply(v: SummaryRunView, text: Seq<char>) -> SummaryRunView {
    if v.result is Some {
        v
    } else if v.direct || v.summaries.len() >= v.chunks.len() {
        SummaryRunView { result: Some(text), ..v }
    } else {
        SummaryRunView { summaries: v.summaries.push(text), ..v }
    }
}

/// The requests that a run sends while it is given `replies`, one per request.
pub open spec fn calls(v: SummaryRunView, replies: Seq<Seq<char>>) -> Seq<SummaryCall>
    decreases replies.len(),
{
    match next_call(v) {
        None => Seq::empty(),
        Some(c) => if replies.len() == 0 {
            Seq::empty()
        } else {
            seq![c] + calls(after_reply(v, replies[0]), replies.drop_first())
        },
    }
}

/// The run after it has been given `replies`, one per request.
pub open spec fn run_after(v: SummaryRunView, replies: Seq<Seq<char>>) -> SummaryRunView
    decreases replies.len(),
{
    if replies.len() == 0 || next_call(v) is None {
        v
    } else {
        run_after(after_reply(v, replies[0]), replies.drop_first())
    }
}

/// A request to the chat service.
pub enum SummaryRequest {
    /// Summarize the whole transcript.
    SummarizeWhole { transcript: String },
    /// Summarize one chunk, with the summaries of the earlier chunks as context.
    SummarizeChunk { chunk: String, context: Option<String> },
    /// Combine the chunk summaries into the final summary.
    Combine { summaries: Vec<String> },
}

/// An optional string's text.
pub open spec fn opt_text(o: Option<String>) -> Option<Seq<char>> {
    match o {
        Some(s) => Some(s@),
        None => None,
    }
}

impl View for SummaryRequest {
    type V = SummaryCall;

    open spec fn view(&self) -> SummaryCall {
        match self {
            SummaryRequest::SummarizeWhole { transcript } => SummaryCall::Whole(transcript@),
            SummaryRequest::SummarizeChunk { chunk, context } => SummaryCall::Chunk(
                chunk@,
                opt_text(*context),
            ),
            SummaryRequest::Combine { summaries } => SummaryCall::Combine(texts(summaries@)),
        }
    }
}

/// A summarization run over one transcript.
pub struct SummaryRun {
    direct: bool,
    transcript: String,
    chunks: Vec<String>,
    summaries: Vec<String>,
    context: Option<String>,
    result: Option<String>,
}

impl View for SummaryRun {
    type V = SummaryRunView;

    closed spec fn view(&self) -> SummaryRunView {
        SummaryRunView {
            direct: self.direct,
            transcript: self.transcript@,
            chunks: texts(self.chunks@),
            summaries: texts(self.summaries@),
            result: opt_text(self.result),
        }
    }
}

fn copy_strings(v: &Vec<String>) -> (r: Vec<String>)
    ensures
        r@ == v@,
{
    let mut r: Vec<String> = Vec::new();
    let mut i: usize = 0;
    while i < v.len()
        invariant
            i <= v.len(),
            r@ == v@.take(i as int),
        decreases v.len() - i,
    {
        r.push(v[i].clone());
        assert(r@ =~= v@.take(i + 1));
        i = i + 1;
    }
    assert(r@ =~= v@);
    r
}

fn copy_opt(o: &Option<String>) -> (r: Option<String>)
    ensures
        r == *o,
{
    match o {
        Some(s) => Some(s.clone()),
        None => None,
    }
}

/// The chunks of `transcript`, see [`transcript_chunks`].
pub fn split_transcript(transcript: &str) -> (r: Vec<String>)
    ensures
        texts(r@) == transcript_chunks(transcript@),
{
    let s = chars_of(transcript);
    let d = chars_of(TRANSCRIPT_CHUNK_DELIMITER);
    proof {
        reveal_strlit("----END_OF_CHUNK----");
    }
    assert(d@.len() == 20);
    let mut out: Vec<String> = Vec::new();
    let mut start: usize = 0;
    loop
        invariant
            start <= s.len(),
            s@ == transcript@,
            d@ == delimiter(),
            d@.len() == 20,
            texts(out@) + chunks_from(s@, d@, start as int) == transcript_chunks(s@),
        decreases s.len() + 1 - start,
    {
        match find_from_exec(&s, &d, start) {
            Some(i) => {
                proof {
                    lemma_find_from(s@, d@, start as int);
                }
                assert(i + d@.len() <= s@.len());
                let (lo, hi) = trim_bounds(&s, start, i);
                if lo < hi {
                    let piece = crate::text::slice_of(&s, lo, hi);
                    let ghost before = out@;
                    out.push(string_of(&piece));
                    assert(texts(out@) =~= texts(before) + seq![piece@]);
                }
                assert(texts(out@) + chunks_from(s@, d@, (i + d.len()) as int) =~= transcript_chunks(s@));
                start = i + d.len();
            },
            None => {
                let (lo, hi) = trim_bounds(&s, start, s.len());
                if lo < hi {
                    let piece = crate::text::slice_of(&s, lo, hi);
                    let ghost before = out@;
                    out.push(string_of(&piece));
                    assert(texts(out@) =~= texts(before) + seq![piece@]);
                }
                assert(texts(out@) =~= transcript_chunks(s@));
                return out;
            },
        }
    }
}

/// `a`, a newline and `b`.
fn join_two(a: &String, b: &String) -> (r: String)
    ensures
        r@ == a@ + seq!['\n'] + b@,
{
    let mut r = a.clone();
    r.append("\n");
    proof {
        reveal_strlit("\n");
    }
    r.append(b.as_str());
    assert(r@ =~= a@ + seq!['\n'] + b@);
    r
}

/// `xs` joined with newlines.
pub fn join_with_newlines(xs: &Vec<String>) -> (r: String)
    ensures
        r@ == join_lines(texts(xs@)),
{
    if xs.len() == 0 {
        return String::new();
    }
    let mut r = xs[0].clone();
    let mut i: usize = 1;
    assert(texts(xs@).take(1).drop_last().len() == 0);
    while i < xs.len()
        invariant
            1 <= i <= xs.len(),
            r@ == join_lines(texts(xs@).take(i as int)),
        decreases xs.len() - i,
    {
        assert(texts(xs@).take(i + 1).drop_last() =~= texts(xs@).take(i as int));
        r = join_two(&r, &xs[i]);
        i = i + 1;
    }
    assert(texts(xs@).take(i as int) =~= texts(xs@));
    r
}

impl SummaryRun {
    /// The internal consistency of a run: the context is the join of the
    /// summaries so far, of which there are at most as many as chunks.
    pub closed spec fn wf(&self) -> bool {
        &&& opt_text(self.context) == context_of(texts(self.summaries@))
        &&& self.summaries@.len() <= self.chunks@.len()
        &&& self.direct ==> self.chunks@.len() == 0 && self.summaries@.len() == 0
    }

    /// A run on `transcript`, whose token count is `token_count`.
    pub fn new(transcript: String, token_count: usize) -> (r: SummaryRun)
        ensures
            r.wf(),
            r@ == initial_run(transcript@, token_count as nat),
    {
        let direct = token_count <= TOKEN_BUDGET;
        let chunks = if direct {
            Vec::new()
        } else {
            split_transcript(transcript.as_str())
        };
        let r = SummaryRun {
            direct,
            transcript,
            chunks,
            summaries: Vec::new(),
            context: None,
            result: None,
        };
        assert(texts(r.summaries@) =~= Seq::<Seq<char>>::empty());
        assert(r@.chunks =~= initial_run(r.transcript@, token_count as nat).chunks);
        r
    }

    /// A run on `transcript`, counting its tokens with cl100k_base.
    pub fn for_transcript(transcript: String) -> (r: Result<SummaryRun, SummaryError>)
        ensures
            longest_space_run(transcript@) < MAX_WHITESPACE_RUN ==> (r matches Ok(run) && run.wf()
                && run@ == initial_run(transcript@, cl100k_token_count(transcript@))),
            longest_space_run(transcript@) >= MAX_WHITESPACE_RUN ==> (r matches Err(e) && e
                == SummaryError::WhitespaceRun),
    {
        let n = count_tokens(transcript.as_str())?;
        Ok(SummaryRun::new(transcript, n))
    }

    /// Whether the transcript is summarized by a single request.
    pub fn is_direct(&self) -> (r: bool)
        ensures
            r == self@.direct,
    {
        self.direct
    }

    /// The request to send next; none once the summary is known.
    pub fn next_request(&self) -> (r: Option<SummaryRequest>)
        requires
            self.wf(),
        ensures
            match r {
                Some(q) => next_call(self@) == Some(q@),
                None => next_call(self@) is None,
            },
    {
        if self.result.is_some() {
            None
        } else if self.direct {
            Some(SummaryRequest::SummarizeWhole { transcript: self.transcript.clone() })
        } else if self.summaries.len() < self.chunks.len() {
            let chunk = self.chunks[self.summaries.len()].clone();
            Some(SummaryRequest::SummarizeChunk { chunk, context: copy_opt(&self.context) })
        } else {
            Some(SummaryRequest::Combine { summaries: copy_strings(&self.summaries) })
        }
    }

    /// Records the reply to the pending request.
    pub fn record_reply(&mut self, text: String)
        requires
            old(self).wf(),
        ensures
            final(self).wf(),
            final(self)@ == after_reply(old(self)@, text@),
    {
        if self.result.is_some() {
            return;
        }
        if self.direct || self.summaries.len() >= self.chunks.len() {
            self.result = Some(text);
        } else {
            let ghost before = self.summaries@;
            let next_context = match &self.context {
                Some(c) => join_two(c, &text),
                None => text.clone(),
            };
            self.summaries.push(text);
            assert(texts(self.summaries@).drop_last() =~= texts(before));
            self.context = Some(next_context);
            assert(texts(self.summaries@) =~= texts(before).push(text@));
        }
    }

    /// The summary, once the last reply has been recorded.
    pub fn summary(&self) -> (r: Option<String>)
        ensures
            opt_text(r) == self@.result,
    {
        copy_opt(&self.result)
    }
}

/// How many of `cs` summarize a whole transcript.
pub open spec fn whole_calls(cs: Seq<SummaryCall>) -> nat
    decreases cs.len(),
{
    if cs.len() == 0 {
        0
    } else {
        whole_calls(cs.drop_last()) + if cs.last() is Whole {
            1nat
        } else {
            0nat
        }
    }
}

/// How many of `cs` summarize a chunk.
pub open spec fn chunk_calls(cs: Seq<SummaryCall>) -> nat
    decreases cs.len(),
{
    if cs.len() == 0 {
        0
    } else {
        chunk_calls(cs.drop_last()) + if cs.last() is Chunk {
            1nat
        } else {
            0nat
        }
    }
}

/// How many of `cs` combine summaries.
pub open spec fn combine_calls(cs: Seq<SummaryCall>) -> nat
    decreases cs.len(),
{
    if cs.len() == 0 {
        0
    } else {
        combine_calls(cs.drop_last()) + if cs.last() is Combine {
            1nat
        } else {
            0nat
        }
    }
}

proof fn lemma_chunk_prefix_counts(cs: Seq<SummaryCall>, k: int)
    requires
        0 <= k <= cs.len(),
        forall|i: int| 0 <= i < k ==> #[trigger] cs[i] is Chunk,
    ensures
        chunk_calls(cs.take(k)) == k,
        combine_calls(cs.take(k)) == 0,
        whole_calls(cs.take(k)) == 0,
    decreases k,
{
    if k > 0 {
        lemma_chunk_prefix_counts(cs, k - 1);
        assert(cs.take(k).drop_last() =~= cs.take(k - 1));
    }
}

proof fn lemma_chunked_calls(v: SummaryRunView, replies: Seq<Seq<char>>)
    requires
        !v.direct,
        v.result is None,
        v.summaries.len() <= v.chunks.len(),
        replies.len() >= v.chunks.len() - v.summaries.len() + 1,
    ensures
        calls(v, replies).len() == v.chunks.len() - v.summaries.len() + 1,
        forall|i: int|
            0 <= i < v.chunks.len() - v.summaries.len() ==> #[trigger] calls(v, replies)[i]
                == SummaryCall::Chunk(
                v.chunks[v.summaries.len() + i],
                context_of(v.summaries + replies.take(i)),
            ),
        calls(v, replies)[v.chunks.len() - v.summaries.len()] == SummaryCall::Combine(
            v.summaries + replies.take(v.chunks.len() - v.summaries.len()),
        ),
        run_after(v, replies).result == Some(replies[v.chunks.len() - v.summaries.len()]),
    decreases v.chunks.len() - v.summaries.len(),
{
    let k = v.summaries.len() as int;
    let c = v.chunks.len() as int;
    let rest = replies.drop_first();
    let next = after_reply(v, replies[0]);
    if k < c {
        lemma_chunked_calls(next, rest);
        assert(v.summaries + replies.take(0) =~= v.summaries);
        assert forall|i: int| 0 <= i < c - k implies #[trigger] calls(v, replies)[i]
            == SummaryCall::Chunk(v.chunks[k + i], context_of(v.summaries + replies.take(i))) by {
            if i > 0 {
                assert(calls(v, replies)[i] == calls(next, rest)[i - 1]);
                assert(next.summaries + rest.take(i - 1) =~= v.summaries + replies.take(i));
            }
        }
        assert(next.summaries + rest.take(c - k - 1) =~= v.summaries + replies.take(c - k));
        assert(calls(v, replies)[c - k] == calls(next, rest)[c - k - 1]);
        assert(run_after(v, replies) == run_after(next, rest));
        assert(rest[c - k - 1] == replies[c - k]);
    } else {
        assert(next_call(next) is None);
        assert(run_after(next, rest) == next);
        assert(run_after(v, replies) == run_after(next, rest));
        assert(calls(next, rest) == Seq::<SummaryCall>::empty());
        assert(v.summaries + replies.take(0) =~= v.summaries);
        assert(calls(v, replies) =~= seq![SummaryCall::Combine(v.summaries)]);
    }
}

/// The summarization strategy. Given one reply per request, a run on a
/// transcript within the token budget sends exactly one whole-transcript request
/// and no combine request. Beyond the budget it sends one request per chunk, in
/// order, chunk `i` with the summaries of the chunks before it joined as context,
/// then exactly one request that combines all chunk summaries. Either way the last
/// reply is the summary.
pub proof fn lemma_summary_calls(transcript: Seq<char>, token_count: nat, replies: Seq<Seq<char>>)
    requires
        replies.len() >= transcript_chunks(transcript).len() + 1,
    ensures
        token_count <= TOKEN_BUDGET ==> calls(initial_run(transcript, token_count), replies)
            == seq![SummaryCall::Whole(transcript)] && run_after(
            initial_run(transcript, token_count),
            replies,
        ).result == Some(replies[0]),
        token_count > TOKEN_BUDGET ==> ({
            let chunks = transcript_chunks(transcript);
            let cs = calls(initial_run(transcript, token_count), replies);
            &&& cs.len() == chunks.len() + 1
            &&& forall|i: int|
                0 <= i < chunks.len() ==> #[trigger] cs[i] == SummaryCall::Chunk(
                    chunks[i],
                    context_of(replies.take(i)),
                )
            &&& cs[chunks.len() as int] == SummaryCall::Combine(replies.take(chunks.len() as int))
            &&& run_after(initial_run(transcript, token_count), replies).result == Some(
                replies[chunks.len() as int],
            )
            &&& chunk_calls(cs) == chunks.len()
            &&& combine_calls(cs) == 1
            &&& whole_calls(cs) == 0
        }),
        token_count <= TOKEN_BUDGET ==> whole_calls(calls(initial_run(transcript, token_count), replies)) == 1
            && combine_calls(calls(initial_run(transcript, token_count), replies)) == 0
            && chunk_calls(calls(initial_run(transcript, token_count), replies)) == 0,
{
    let v = initial_run(transcript, token_count);
    if token_count <= TOKEN_BUDGET {
        let next = after_reply(v, replies[0]);
        assert(next_call(next) is None);
        assert(calls(next, replies.drop_first()) == Seq::<SummaryCall>::empty());
        assert(calls(v, replies) =~= seq![SummaryCall::Whole(transcript)]);
        let cs = calls(v, replies);
        assert(cs.drop_last() =~= Seq::<SummaryCall>::empty());
        assert(whole_calls(cs.drop_last()) == 0);
        assert(chunk_calls(cs.drop_last()) == 0);
        assert(combine_calls(cs.drop_last()) == 0);
        assert(cs.last() is Whole);
        assert(run_after(next, replies.drop_first()) == next);
        assert(run_after(v, replies) == run_after(next, replies.drop_first()));
    } else {
        lemma_chunked_calls(v, replies);
        let chunks = transcript_chunks(transcript);
        let cs = calls(v, replies);
        lemma_chunk_prefix_counts(cs, chunks.len() as int);
        assert(cs.drop_last() =~= cs.take(chunks.len() as int));
        assert forall|i: int| 0 <= i <= chunks.len() implies Seq::<Seq<char>>::empty()
            + replies.take(i) =~= replies.take(i) by {}
    }
}

} // verus!
