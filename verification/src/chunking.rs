//! Splitting a document into chunks that end on token boundaries.
//!
//! A chunk is a run of whole tokens. Its size is counted in characters and
//! kept within `max_chunk_size`, except that a chunk always holds at least
//! one token that no earlier chunk holds, however long that token is. With
//! an overlap size, a chunk may begin with tokens from the end of the chunk
//! before it; the shared span is recorded in the later chunk.

use vstd::prelude::*;
use crate::data::CharInterval;
use crate::text::{char_is_space, is_space, string_of_range};
use crate::tokenizer::{
    check_tiling,
    is_tokenization,
    lemma_start_not_inside,
    lemma_tiles_bounded,
    lemma_tiles_ordered,
    tiles,
    tokens_of,
    Token,
    Tokenizer,
};

verus! {

/// How chunk ends are chosen.
#[derive(Clone, Copy, Debug, PartialEq, Eq, Structural)]
pub enum ChunkingStrategy {
    /// Take as many tokens as fit.
    FixedSize,
    /// End at the last sentence or line end that fits, if there is one.
    Semantic,
}

/// Settings of the chunker. Sizes are counted in characters.
#[derive(Clone, Copy, Debug)]
pub struct ChunkingConfig {
    pub max_chunk_size: usize,
    pub overlap_size: usize,
    pub strategy: ChunkingStrategy,
}

impl Default for ChunkingConfig {
    fn default() -> (r: Self)
        ensures
            r.max_chunk_size == 2000,
            r.overlap_size == 0,
            r.strategy == ChunkingStrategy::Semantic,
    {
        ChunkingConfig { max_chunk_size: 2000, overlap_size: 0, strategy: ChunkingStrategy::Semantic }
    }
}

/// Why no chunk plan could be made.
#[derive(Clone, Copy, Debug, PartialEq, Eq, Structural)]
pub enum ChunkingError {
    /// The tokens do not tile the document.
    InvalidTokens,
}

/// One chunk of a document.
///
/// `char_offset` and `char_length` place the chunk in the document;
/// `first_token` and `end_token` are its half-open range of tokens. When the
/// chunk begins with tokens of the chunk before it, `overlap_info` is the
/// shared span in document positions.
#[derive(Debug)]
pub struct TextChunk {
    pub id: usize,
    pub text: String,
    pub char_offset: usize,
    pub char_length: usize,
    pub document_id: Option<String>,
    pub has_overlap: bool,
    pub overlap_info: Option<CharInterval>,
    pub first_token: usize,
    pub end_token: usize,
}

// ---------------------------------------------------------------------------
// Where chunks end and where the next one starts
// ---------------------------------------------------------------------------

/// The number of characters that the tokens `s..e` span.
pub open spec fn span_chars(tokens: Seq<Token>, s: int, e: int) -> int {
    if s < e {
        tokens[e - 1].end - tokens[s].start
    } else {
        0
    }
}

/// Whether a chunk that starts at token `s` may end behind token `t - 1`:
/// it holds a token beyond `lower`, and is within the size limit unless it
/// holds just one such token.
pub open spec fn fits(tokens: Seq<Token>, max: int, s: int, lower: int, t: int) -> bool {
    &&& lower < t <= tokens.len()
    &&& t == lower + 1 || span_chars(tokens, s, t) <= max
}

pub open spec fn is_terminator(c: char) -> bool {
    c == '.' || c == '!' || c == '?'
}

/// Whether position `p` follows a line end, or a sentence end that is
/// followed by a space or by the end of the text.
pub open spec fn is_break(text: Seq<char>, p: int) -> bool {
    &&& 0 < p <= text.len()
    &&& text[p - 1] == '\n' || (is_terminator(text[p - 1]) && (p == text.len() || is_space(text[p])))
}

/// Whether the text has a break behind token `t - 1`.
pub open spec fn break_after(text: Seq<char>, tokens: Seq<Token>, t: int) -> bool {
    0 < t <= tokens.len() && is_break(text, tokens[t - 1].end as int)
}

/// The end of a fixed-size chunk: the last token index that fits.
pub open spec fn is_fixed_end(tokens: Seq<Token>, max: int, s: int, lower: int, e: int) -> bool {
    &&& fits(tokens, max, s, lower, e)
    &&& forall|t: int| #[trigger] fits(tokens, max, s, lower, t) ==> t <= e
}

/// The end of a semantic chunk: the end of the document if that fits, else
/// the last break that fits, else the last token index that fits.
pub open spec fn is_semantic_end(
    text: Seq<char>,
    tokens: Seq<Token>,
    max: int,
    s: int,
    lower: int,
    e: int,
) -> bool {
    &&& fits(tokens, max, s, lower, e)
    &&& if fits(tokens, max, s, lower, tokens.len() as int) {
        e == tokens.len()
    } else if exists|t: int| #[trigger] fits(tokens, max, s, lower, t) && break_after(text, tokens, t) {
        &&& break_after(text, tokens, e)
        &&& forall|t: int| #[trigger] fits(tokens, max, s, lower, t) && break_after(text, tokens, t) ==> t <= e
    } else {
        forall|t: int| #[trigger] fits(tokens, max, s, lower, t) ==> t <= e
    }
}

/// The end of a chunk under the configured strategy.
pub open spec fn is_chunk_end(
    text: Seq<char>,
    tokens: Seq<Token>,
    config: ChunkingConfig,
    s: int,
    lower: int,
    e: int,
) -> bool {
    match config.strategy {
        ChunkingStrategy::FixedSize => is_fixed_end(tokens, config.max_chunk_size as int, s, lower, e),
        ChunkingStrategy::Semantic => is_semantic_end(
            text,
            tokens,
            config.max_chunk_size as int,
            s,
            lower,
            e,
        ),
    }
}

/// Whether the chunk after one that holds the tokens `s..e` may start at
/// token `t`: at `e`, or earlier if the shared tokens are within the overlap
/// size and leave room for the token at `e`.
pub open spec fn may_start(tokens: Seq<Token>, config: ChunkingConfig, s: int, e: int, t: int) -> bool {
    &&& s < t <= e
    &&& t == e || (span_chars(tokens, t, e) <= config.overlap_size && span_chars(tokens, t, e + 1)
        <= config.max_chunk_size)
}

/// The start of the next chunk: the first token at which it may start.
pub open spec fn is_next_start(tokens: Seq<Token>, config: ChunkingConfig, s: int, e: int, t: int) -> bool {
    &&& may_start(tokens, config, s, e, t)
    &&& forall|u: int| #[trigger] may_start(tokens, config, s, e, u) ==> t <= u
}

/// The token index that chunk `k` must reach beyond: the end of chunk
/// `k - 1`.
pub open spec fn lower_of(chunks: Seq<TextChunk>, k: int) -> int {
    if k <= 0 {
        0
    } else {
        chunks[k - 1].end_token as int
    }
}

/// What holds of chunk `k` of a chunking.
pub open spec fn chunk_ok(
    text: Seq<char>,
    tokens: Seq<Token>,
    config: ChunkingConfig,
    document_id: Option<String>,
    chunks: Seq<TextChunk>,
    k: int,
) -> bool {
    let c = chunks[k];
    let lower = lower_of(chunks, k);
    &&& c.id == k
    &&& c.first_token <= lower < c.end_token <= tokens.len()
    &&& is_chunk_end(text, tokens, config, c.first_token as int, lower, c.end_token as int)
    &&& k == 0 ==> c.first_token == 0
    &&& k > 0 ==> is_next_start(
        tokens,
        config,
        chunks[k - 1].first_token as int,
        chunks[k - 1].end_token as int,
        c.first_token as int,
    )
    &&& c.char_offset == tokens[c.first_token as int].start
    &&& c.char_offset + c.char_length == tokens[c.end_token - 1].end
    &&& c.text@ == text.subrange(c.char_offset as int, c.char_offset + c.char_length)
    &&& c.has_overlap == (c.first_token < lower)
    &&& c.overlap_info == if c.first_token < lower {
        Some(CharInterval { start_pos: c.char_offset, end_pos: tokens[lower - 1].end })
    } else {
        None
    }
    &&& c.document_id == document_id
}

/// What holds of the chunks that are made of a tokenized document.
pub open spec fn is_chunking(
    text: Seq<char>,
    tokens: Seq<Token>,
    config: ChunkingConfig,
    document_id: Option<String>,
    chunks: Seq<TextChunk>,
) -> bool {
    &&& (tokens.len() == 0 || config.max_chunk_size == 0) ==> chunks.len() == 0
    &&& (tokens.len() > 0 && config.max_chunk_size > 0) ==> chunks.len() > 0 && chunks[chunks.len()
        - 1].end_token == tokens.len()
    &&& forall|k: int|
        0 <= k < chunks.len() ==> #[trigger] chunk_ok(text, tokens, config, document_id, chunks, k)
}

/// A chunk that reaches further spans more characters.
pub proof fn lemma_span_grows(tokens: Seq<Token>, len: int, s: int, t1: int, t2: int)
    requires
        tiles(tokens, len),
        0 <= s < t1 <= t2 <= tokens.len(),
    ensures
        0 < span_chars(tokens, s, t1) <= span_chars(tokens, s, t2),
{
    lemma_tiles_bounded(tokens, len, s);
    lemma_tiles_bounded(tokens, len, t1 - 1);
    if s < t1 - 1 {
        lemma_tiles_ordered(tokens, len, s, t1 - 1);
    }
    if t1 < t2 {
        lemma_tiles_ordered(tokens, len, t1 - 1, t2 - 1);
        lemma_tiles_bounded(tokens, len, t2 - 1);
    }
}

fn break_at(text: &Vec<char>, p: usize) -> (r: bool)
    requires
        0 < p <= text.len(),
    ensures
        r == is_break(text@, p as int),
{
    let c = text[p - 1];
    if c == '\n' {
        return true;
    }
    if c == '.' || c == '!' || c == '?' {
        return p == text.len() || char_is_space(text[p]);
    }
    false
}

/// The configured chunker.
#[derive(Clone, Copy, Debug)]
pub struct TextChunker {
    pub config: ChunkingConfig,
}

impl TextChunker {
    /// A chunker with the default settings.
    pub fn new() -> (r: Self)
        ensures
            r.config.max_chunk_size == 2000,
            r.config.overlap_size == 0,
            r.config.strategy == ChunkingStrategy::Semantic,
    {
        TextChunker { config: ChunkingConfig::default() }
    }

    pub fn with_config(config: ChunkingConfig) -> (r: Self)
        ensures
            r.config == config,
    {
        TextChunker { config }
    }

    /// The last token index that fits a chunk starting at token `s`.
    fn fixed_end(&self, tokens: &Vec<Token>, Ghost(len): Ghost<int>, s: usize, lower: usize) -> (e: usize)
        requires
            tiles(tokens@, len),
            s <= lower < tokens.len(),
        ensures
            is_fixed_end(tokens@, self.config.max_chunk_size as int, s as int, lower as int, e as int),
    {
        let max = self.config.max_chunk_size;
        let mut e: usize = lower + 1;
        proof {
            lemma_span_grows(tokens@, len, s as int, e as int, e as int);
        }
        while e < tokens.len() && tokens[e].end - tokens[s].start <= max
            invariant
                tiles(tokens@, len),
                s <= lower < e <= tokens.len(),
                max == self.config.max_chunk_size,
                fits(tokens@, max as int, s as int, lower as int, e as int),
                e < tokens.len() ==> tokens@[s as int].start < tokens@[e as int].end,
            decreases tokens.len() - e,
        {
            e = e + 1;
            proof {
                if e < tokens.len() {
                    lemma_span_grows(tokens@, len, s as int, e + 1, e + 1);
                }
            }
        }
        proof {
            assert forall|t: int| #[trigger]
                fits(tokens@, max as int, s as int, lower as int, t) implies t <= e by {
                if t > e {
                    lemma_span_grows(tokens@, len, s as int, e + 1, t);
                }
            }
        }
        e
    }

    /// Where the chunk that starts at token `s` and reaches beyond `lower`
    /// ends.
    fn chunk_end(
        &self,
        text: &Vec<char>,
        tokens: &Vec<Token>,
        s: usize,
        lower: usize,
    ) -> (e: usize)
        requires
            tiles(tokens@, text.len() as int),
            s <= lower < tokens.len(),
        ensures
            is_chunk_end(text@, tokens@, self.config, s as int, lower as int, e as int),
            lower < e <= tokens.len(),
    {
        let ghost max = self.config.max_chunk_size as int;
        let limit = self.fixed_end(tokens, Ghost(text.len() as int), s, lower);
        match self.config.strategy {
            ChunkingStrategy::FixedSize => {
                return limit;
            },
            ChunkingStrategy::Semantic => {},
        }
        if limit == tokens.len() {
            return limit;
        }
        assert(!fits(tokens@, max, s as int, lower as int, tokens.len() as int));
        let mut e: usize = limit;
        loop
            invariant
                tiles(tokens@, text.len() as int),
                s <= lower < e <= limit < tokens.len(),
                max == self.config.max_chunk_size,
                self.config.strategy == ChunkingStrategy::Semantic,
                is_fixed_end(tokens@, max, s as int, lower as int, limit as int),
                !fits(tokens@, max, s as int, lower as int, tokens.len() as int),
                forall|t: int| e < t <= limit ==> !break_after(text@, tokens@, t),
            decreases e,
        {
            proof {
                lemma_tiles_bounded(tokens@, text.len() as int, e - 1);
                lemma_span_grows(tokens@, text.len() as int, s as int, e as int, limit as int);
            }
            if break_at(text, tokens[e - 1].end) {
                assert(fits(tokens@, max, s as int, lower as int, e as int));
                assert(break_after(text@, tokens@, e as int));
                return e;
            }
            if e == lower + 1 {
                assert forall|t: int| #[trigger]
                    fits(tokens@, max, s as int, lower as int, t) implies !break_after(
                    text@,
                    tokens@,
                    t,
                ) by {}
                return limit;
            }
            e = e - 1;
        }
    }

    /// Where the chunk after the one that holds the tokens `s..e` starts.
    fn next_start(&self, tokens: &Vec<Token>, Ghost(len): Ghost<int>, s: usize, e: usize) -> (t: usize)
        requires
            tiles(tokens@, len),
            s < e < tokens.len(),
        ensures
            is_next_start(tokens@, self.config, s as int, e as int, t as int),
            s < t <= e,
    {
        let mut t: usize = s + 1;
        loop
            invariant
                tiles(tokens@, len),
                s < t <= e < tokens.len(),
                forall|u: int| s < u < t ==> !may_start(tokens@, self.config, s as int, e as int, u),
            decreases e - t,
        {
            if t == e {
                return t;
            }
            proof {
                lemma_span_grows(tokens@, len, t as int, e as int, e + 1);
            }
            if tokens[e - 1].end - tokens[t].start <= self.config.overlap_size && tokens[e].end
                - tokens[t].start <= self.config.max_chunk_size {
                return t;
            }
            t = t + 1;
        }
    }

    /// Chunks a document that comes with its tokens.
    ///
    /// The call fails when the tokens do not tile the text. A size limit of
    /// zero, or a document without tokens, gives no chunks.
    pub fn chunk_tokens(
        &self,
        text: &Vec<char>,
        tokens: &Vec<Token>,
        document_id: Option<String>,
    ) -> (r: Result<Vec<TextChunk>, ChunkingError>)
        ensures
            match r {
                Ok(chunks) => {
                    &&& tiles(tokens@, text.len() as int)
                    &&& is_chunking(text@, tokens@, self.config, document_id, chunks@)
                },
                Err(e) => e == ChunkingError::InvalidTokens && !tiles(tokens@, text.len() as int),
            },
    {
        if !check_tiling(tokens, text.len()) {
            return Err(ChunkingError::InvalidTokens);
        }
        let mut chunks: Vec<TextChunk> = Vec::new();
        if tokens.len() == 0 || self.config.max_chunk_size == 0 {
            return Ok(chunks);
        }
        let ghost len = text.len() as int;
        let total = tokens.len();
        let mut s: usize = 0;
        let mut lower: usize = 0;
        loop
            invariant
                tiles(tokens@, len),
                len == text.len(),
                total == tokens.len(),
                self.config.max_chunk_size > 0,
                s <= lower < total,
                lower == lower_of(chunks@, chunks.len() as int),
                chunks.len() == 0 ==> s == 0,
                chunks.len() > 0 ==> is_next_start(
                    tokens@,
                    self.config,
                    chunks[chunks.len() - 1].first_token as int,
                    chunks[chunks.len() - 1].end_token as int,
                    s as int,
                ),
                chunks.len() <= lower,
                forall|k: int|
                    0 <= k < chunks.len() ==> #[trigger] chunk_ok(
                        text@,
                        tokens@,
                        self.config,
                        document_id,
                        chunks@,
                        k,
                    ),
            decreases total - lower,
        {
            let e = self.chunk_end(text, tokens, s, lower);
            proof {
                lemma_tiles_bounded(tokens@, len, s as int);
                lemma_tiles_bounded(tokens@, len, e - 1);
                lemma_span_grows(tokens@, len, s as int, e as int, e as int);
                if s < lower {
                    lemma_tiles_bounded(tokens@, len, lower - 1);
                    lemma_span_grows(tokens@, len, s as int, lower as int, e as int);
                }
            }
            let offset = tokens[s].start;
            let end_char = tokens[e - 1].end;
            let overlap_info = if s < lower {
                Some(CharInterval { start_pos: offset, end_pos: tokens[lower - 1].end })
            } else {
                None
            };
            let chunk = TextChunk {
                id: chunks.len(),
                text: string_of_range(text, offset, end_char),
                char_offset: offset,
                char_length: end_char - offset,
                document_id: clone_id(&document_id),
                has_overlap: s < lower,
                overlap_info,
                first_token: s,
                end_token: e,
            };
            let ghost before = chunks@;
            chunks.push(chunk);
            proof {
                assert(chunk_ok(text@, tokens@, self.config, document_id, chunks@, before.len() as int));
                lemma_chunk_added(text@, tokens@, self.config, document_id, before, chunk);
            }
            if e == total {
                return Ok(chunks);
            }
            s = self.next_start(tokens, Ghost(len), s, e);
            lower = e;
        }
    }

    /// Chunks a text with the built-in tokenizer.
    pub fn chunk_text(&self, text: &str, document_id: Option<String>) -> (r: Result<
        Vec<TextChunk>,
        ChunkingError,
    >)
        ensures
            is_tokenization(text@, tokens_of(text@)),
            r matches Ok(chunks) && is_chunking(text@, tokens_of(text@), self.config, document_id, chunks@),
    {
        let tokenized = Tokenizer::new().tokenize(text);
        self.chunk_tokens(&tokenized.chars, &tokenized.tokens, document_id)
    }
}

/// Adding a chunk leaves what holds of the chunks before it.
proof fn lemma_chunk_added(
    text: Seq<char>,
    tokens: Seq<Token>,
    config: ChunkingConfig,
    document_id: Option<String>,
    before: Seq<TextChunk>,
    chunk: TextChunk,
)
    requires
        forall|k: int|
            0 <= k < before.len() ==> #[trigger] chunk_ok(text, tokens, config, document_id, before, k),
        chunk_ok(text, tokens, config, document_id, before.push(chunk), before.len() as int),
    ensures
        forall|k: int|
            0 <= k <= before.len() ==> #[trigger] chunk_ok(
                text,
                tokens,
                config,
                document_id,
                before.push(chunk),
                k,
            ),
{
    let after = before.push(chunk);
    assert forall|k: int| 0 <= k <= before.len() implies #[trigger] chunk_ok(
        text,
        tokens,
        config,
        document_id,
        after,
        k,
    ) by {
        if k < before.len() {
            assert(chunk_ok(text, tokens, config, document_id, before, k));
            assert(after[k] == before[k]);
            if k > 0 {
                assert(after[k - 1] == before[k - 1]);
            }
        }
    }
}

/// A copy of an optional document id.
pub fn clone_id(id: &Option<String>) -> (r: Option<String>)
    ensures
        r == *id,
{
    match id {
        Some(s) => Some(s.clone()),
        None => None,
    }
}

// ---------------------------------------------------------------------------
// What holds of every chunking
// ---------------------------------------------------------------------------

/// The part of a chunk that the chunk before it does not hold.
pub open spec fn fresh_part(c: TextChunk) -> Seq<char> {
    match c.overlap_info {
        Some(shared) => c.text@.subrange(shared.end_pos - shared.start_pos, c.text@.len() as int),
        None => c.text@,
    }
}

/// The fresh parts of the first `n` chunks, one after the other.
pub open spec fn stitched(chunks: Seq<TextChunk>, n: int) -> Seq<char>
    decreases n,
{
    if n <= 0 {
        Seq::empty()
    } else {
        stitched(chunks, n - 1) + fresh_part(chunks[n - 1])
    }
}

/// The document position at which the first `n` chunks end.
pub open spec fn end_of(chunks: Seq<TextChunk>, n: int) -> int {
    if n <= 0 {
        0
    } else {
        chunks[n - 1].char_offset + chunks[n - 1].char_length
    }
}

/// The first `n` chunks, without what they share, are the document up to
/// where chunk `n - 1` ends.
pub proof fn lemma_stitched_prefix(
    text: Seq<char>,
    tokens: Seq<Token>,
    config: ChunkingConfig,
    document_id: Option<String>,
    chunks: Seq<TextChunk>,
    n: int,
)
    requires
        tiles(tokens, text.len() as int),
        is_chunking(text, tokens, config, document_id, chunks),
        0 <= n <= chunks.len(),
    ensures
        0 <= end_of(chunks, n) <= text.len(),
        stitched(chunks, n) == text.subrange(0, end_of(chunks, n)),
        n > 0 ==> end_of(chunks, n) == tokens[chunks[n - 1].end_token - 1].end,
    decreases n,
{
    if n > 0 {
        let k = n - 1;
        lemma_stitched_prefix(text, tokens, config, document_id, chunks, k);
        assert(chunk_ok(text, tokens, config, document_id, chunks, k));
        let c = chunks[k];
        let lower = lower_of(chunks, k);
        lemma_tiles_bounded(tokens, text.len() as int, c.first_token as int);
        lemma_tiles_bounded(tokens, text.len() as int, c.end_token - 1);
        lemma_span_grows(tokens, text.len() as int, c.first_token as int, c.end_token as int, c.end_token as int);
        if k > 0 {
            assert(chunk_ok(text, tokens, config, document_id, chunks, k - 1));
            lemma_tiles_bounded(tokens, text.len() as int, lower - 1);
            if c.first_token < lower {
                lemma_span_grows(tokens, text.len() as int, c.first_token as int, lower, c.end_token as int);
            } else {
                assert(tokens[lower - 1].end == tokens[lower].start);
            }
        }
        let from = end_of(chunks, k);
        let to = end_of(chunks, n);
        assert(fresh_part(c) =~= text.subrange(from, to));
        assert(text.subrange(0, from) + text.subrange(from, to) =~= text.subrange(0, to));
    }
}

/// The chunks, without what they share, are the whole document: nothing is
/// left out and nothing is taken twice.
pub proof fn lemma_chunks_cover(
    text: Seq<char>,
    tokens: Seq<Token>,
    config: ChunkingConfig,
    document_id: Option<String>,
    chunks: Seq<TextChunk>,
)
    requires
        tiles(tokens, text.len() as int),
        is_chunking(text, tokens, config, document_id, chunks),
        config.max_chunk_size >= 1,
    ensures
        stitched(chunks, chunks.len() as int) == text,
        forall|k: int|
            0 <= k < chunks.len() ==> (#[trigger] chunks[k]).char_offset <= end_of(chunks, k)
                < chunks[k].char_offset + chunks[k].char_length,
        forall|k: int|
            0 <= k < chunks.len() ==> (#[trigger] chunks[k]).overlap_info == if chunks[k].char_offset
                < end_of(chunks, k) {
                Some(
                    CharInterval {
                        start_pos: chunks[k].char_offset,
                        end_pos: end_of(chunks, k) as usize,
                    },
                )
            } else {
                None
            },
{
    let n = chunks.len() as int;
    lemma_stitched_prefix(text, tokens, config, document_id, chunks, n);
    if n > 0 {
        assert(text.subrange(0, text.len() as int) =~= text);
    } else {
        assert(text =~= Seq::empty());
    }
    assert forall|k: int| 0 <= k < chunks.len() implies {
        &&& (#[trigger] chunks[k]).char_offset <= end_of(chunks, k) < chunks[k].char_offset
            + chunks[k].char_length
        &&& chunks[k].overlap_info == if chunks[k].char_offset < end_of(chunks, k) {
            Some(
                CharInterval { start_pos: chunks[k].char_offset, end_pos: end_of(chunks, k) as usize },
            )
        } else {
            None
        }
    } by {
        lemma_stitched_prefix(text, tokens, config, document_id, chunks, k);
        lemma_stitched_prefix(text, tokens, config, document_id, chunks, k + 1);
        assert(chunk_ok(text, tokens, config, document_id, chunks, k));
        let c = chunks[k];
        let lower = lower_of(chunks, k);
        lemma_tiles_bounded(tokens, text.len() as int, c.first_token as int);
        if k > 0 {
            lemma_tiles_bounded(tokens, text.len() as int, lower - 1);
            if c.first_token < lower {
                lemma_span_grows(tokens, text.len() as int, c.first_token as int, lower, lower);
            } else {
                assert(tokens[lower - 1].end == tokens[lower].start);
            }
            lemma_span_grows(tokens, text.len() as int, lower - 1, lower, c.end_token as int);
            lemma_tiles_ordered(tokens, text.len() as int, lower - 1, c.end_token - 1);
            lemma_tiles_bounded(tokens, text.len() as int, c.end_token - 1);
        }
    }
}

/// No chunk starts or ends strictly inside a token.
pub proof fn lemma_chunks_end_on_tokens(
    text: Seq<char>,
    tokens: Seq<Token>,
    config: ChunkingConfig,
    document_id: Option<String>,
    chunks: Seq<TextChunk>,
    k: int,
    j: int,
)
    requires
        tiles(tokens, text.len() as int),
        is_chunking(text, tokens, config, document_id, chunks),
        0 <= k < chunks.len(),
        0 <= j < tokens.len(),
    ensures
        !(tokens[j].start < chunks[k].char_offset < tokens[j].end),
        !(tokens[j].start < chunks[k].char_offset + chunks[k].char_length < tokens[j].end),
{
    assert(chunk_ok(text, tokens, config, document_id, chunks, k));
    lemma_start_not_inside(tokens, text.len() as int, chunks[k].first_token as int, j);
    lemma_start_not_inside(tokens, text.len() as int, chunks[k].end_token - 1, j);
}

} // verus!
