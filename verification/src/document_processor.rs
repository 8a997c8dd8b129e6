//! Text extraction from uploaded documents and section-aware chunking.

use vstd::prelude::*;

use crate::clock::{now_utc, Timestamp, MAX_UNIX_SECONDS};
use crate::pattern::{regex_compiles, regex_first_match, regex_replace_all, Pattern};
use crate::text::{
    format_usize, join, join_with_spaces, decimal, push_char, split_whitespace, str_equal,
    string_from, string_views, trim, trim_str, words,
};

verus! {

/// Runs of white space.
pub const WHITESPACE_PATTERN: &'static str = "\\s+";

/// A `<script>` or `<style>` element with its contents.
pub const SCRIPT_STYLE_PATTERN: &'static str = "(?is)<script[^>]*>.*?</script>|<style[^>]*>.*?</style>";

/// Any markup tag.
pub const TAG_PATTERN: &'static str = "(?s)<[^>]+>";

/// A character or entity reference such as `&amp;` or `&#160;`.
pub const ENTITY_PATTERN: &'static str = "&[a-zA-Z#0-9]+;";

/// A filing section heading: `Item 1A.` or `PART II`, at the start or after
/// white space, in any letter case.
pub const SECTION_PATTERN: &'static str = "(?i)(?:^|\\s)(Item\\s+\\d+[A-Z]?\\.?)|(?:^|\\s)(PART\\s+[IVX]+)";

/// Section label of a first chunk with no heading in it.
pub const HEADER_SECTION: &'static str = "Header/Overview";

/// Section label of a later chunk with no heading in it.
pub const BODY_SECTION: &'static str = "Body";

/// Section label used when the heading expression is unavailable.
pub const UNKNOWN_SECTION: &'static str = "Unknown";

/// A piece of a document: consecutive words, where they came from, and the
/// section heading found in them.
#[derive(Clone, Debug)]
pub struct Chunk {
    pub id: String,
    pub text: String,
    pub source: String,
    pub section: String,
    pub index: usize,
    pub created_at: Timestamp,
}

/// Splits documents into overlapping chunks of words.
pub struct DocumentProcessor {
    chunk_size: usize,
    chunk_overlap: usize,
}

/// How a document's raw contents are to be turned into text.
#[derive(Clone, Copy, Debug, PartialEq, Eq, Structural)]
pub enum TextFormat {
    Pdf,
    Html,
    Plain,
}

/// Why text could not be extracted.
#[derive(Clone, Copy, Debug, PartialEq, Eq, Structural)]
pub enum ExtractError {
    /// One of the cleaning expressions was rejected by the regex engine.
    InvalidPattern,
}

/// The format chosen for a file extension: `pdf`, `html` or `htm`, and
/// anything else read as plain text.
pub open spec fn format_for(ext: Seq<char>) -> TextFormat {
    if ext == "pdf"@ {
        TextFormat::Pdf
    } else if ext == "html"@ || ext == "htm"@ {
        TextFormat::Html
    } else {
        TextFormat::Plain
    }
}

/// How far the start of each chunk moves past the previous one: the chunk
/// size less the overlap, or 0 when the overlap is not smaller.
pub open spec fn advance(size: nat, overlap: nat) -> nat {
    if size > overlap {
        (size - overlap) as nat
    } else {
        0
    }
}

/// Where chunk `i` starts, in words.
pub open spec fn chunk_start(i: nat, size: nat, overlap: nat) -> nat {
    i * advance(size, overlap)
}

/// Where chunk `i` ends (exclusive), in words, for a text of `n` words.
pub open spec fn chunk_end(i: nat, n: nat, size: nat, overlap: nat) -> nat {
    if chunk_start(i, size, overlap) + size < n {
        chunk_start(i, size, overlap) + size
    } else {
        n
    }
}

/// Whether `count` is the number of chunks of a text of `n` words: one for
/// each start before the end of the text, only the first when the start does
/// not advance, none for an empty text.
pub open spec fn is_chunk_count(count: nat, n: nat, size: nat, overlap: nat) -> bool {
    if n == 0 {
        count == 0
    } else if advance(size, overlap) == 0 {
        count == 1
    } else {
        &&& forall|i: nat| i < count ==> #[trigger] chunk_start(i, size, overlap) < n
        &&& chunk_start(count, size, overlap) >= n
    }
}

/// Every chunk start leaves room for a full chunk within `usize`.
pub open spec fn chunk_bounds_fit(n: nat, size: nat, overlap: nat) -> bool {
    forall|i: nat|
        #[trigger] chunk_start(i, size, overlap) < n ==> chunk_start(i, size, overlap) + size
            <= usize::MAX
}

/// The words of chunk `i` of `ws`.
pub open spec fn chunk_words(ws: Seq<Seq<char>>, i: nat, size: nat, overlap: nat) -> Seq<
    Seq<char>,
> {
    ws.subrange(
        chunk_start(i, size, overlap) as int,
        chunk_end(i, ws.len(), size, overlap) as int,
    )
}

/// The section label of a chunk's text: the trimmed first heading match;
/// without one, the header label for the first chunk and the body label for
/// the others; the unknown label when the heading expression does not compile.
pub open spec fn section_label(text: Seq<char>, first: bool) -> Seq<char> {
    if !regex_compiles(SECTION_PATTERN@) {
        UNKNOWN_SECTION@
    } else {
        match regex_first_match(SECTION_PATTERN@, text) {
            Some(m) => trim(m),
            None => if first {
                HEADER_SECTION@
            } else {
                BODY_SECTION@
            },
        }
    }
}

/// The identifier of chunk `i` of `source`: the source name, `_`, and `i`.
pub open spec fn chunk_id(source: Seq<char>, i: nat) -> Seq<char> {
    source + seq!['_'] + decimal(i)
}

/// `c` is chunk `i` of `text` from `source`, made at `now`.
pub open spec fn is_chunk(
    c: Chunk,
    text: Seq<char>,
    source: Seq<char>,
    i: nat,
    size: nat,
    overlap: nat,
    now: Timestamp,
) -> bool {
    let body = join(chunk_words(words(text), i, size, overlap), seq![' ']);
    &&& c.text@ == body
    &&& c.id@ == chunk_id(source, i)
    &&& c.source@ == source
    &&& c.section@ == section_label(body, i == 0)
    &&& c.index == i
    &&& c.created_at == now
}

/// `text` with each run of white space collapsed to one space, then trimmed.
pub open spec fn cleaned(text: Seq<char>) -> Seq<char> {
    trim(regex_replace_all(WHITESPACE_PATTERN@, text, seq![' ']))
}

/// Whether every expression that HTML stripping uses compiles.
pub open spec fn html_patterns_compile() -> bool {
    &&& regex_compiles(SCRIPT_STYLE_PATTERN@)
    &&& regex_compiles(TAG_PATTERN@)
    &&& regex_compiles(ENTITY_PATTERN@)
    &&& regex_compiles(WHITESPACE_PATTERN@)
}

/// `html` with script and style elements, then tags, then entity references
/// replaced by spaces, and the result cleaned.
pub open spec fn stripped(html: Seq<char>) -> Seq<char> {
    let no_scripts = regex_replace_all(SCRIPT_STYLE_PATTERN@, html, seq![' ']);
    let no_tags = regex_replace_all(TAG_PATTERN@, no_scripts, seq![' ']);
    let no_entities = regex_replace_all(ENTITY_PATTERN@, no_tags, seq![' ']);
    cleaned(no_entities)
}

/// The text extracted from raw contents of the given format, or `None` when
/// an expression it needs does not compile.
pub open spec fn extracted_text(format: TextFormat, raw: Seq<char>) -> Option<Seq<char>> {
    match format {
        TextFormat::Pdf => if regex_compiles(WHITESPACE_PATTERN@) {
            Some(cleaned(raw))
        } else {
            None
        },
        TextFormat::Html => if html_patterns_compile() {
            Some(stripped(raw))
        } else {
            None
        },
        TextFormat::Plain => Some(raw),
    }
}

/// Cleaning replaces each run of white space by a single space (never by
/// nothing, so words stay apart) and trims the ends.
pub proof fn law_cleaning_keeps_words_apart(text: Seq<char>)
    ensures
        cleaned(text) == trim(regex_replace_all(WHITESPACE_PATTERN@, text, seq![' '])),
{
}

/// HTML stripping turns markup into word separators: every script or style
/// element, then every tag, then every entity reference is replaced by a
/// single space (never deleted, so the words on either side of a tag stay
/// apart), and then white space is collapsed and the ends trimmed.
pub proof fn law_markup_becomes_a_space(html: Seq<char>)
    ensures
        stripped(html) == trim(
            regex_replace_all(
                WHITESPACE_PATTERN@,
                regex_replace_all(
                    ENTITY_PATTERN@,
                    regex_replace_all(
                        TAG_PATTERN@,
                        regex_replace_all(SCRIPT_STYLE_PATTERN@, html, seq![' ']),
                        seq![' '],
                    ),
                    seq![' '],
                ),
                seq![' '],
            ),
        ),
{
}

/// Extraction by format: PDF text is cleaned, HTML stripped of its markup,
/// plain text kept unchanged; only a missing expression makes it fail.
pub proof fn law_extraction_by_format(raw: Seq<char>)
    ensures
        extracted_text(TextFormat::Plain, raw) == Some(raw),
        regex_compiles(WHITESPACE_PATTERN@) ==> extracted_text(TextFormat::Pdf, raw) == Some(
            trim(regex_replace_all(WHITESPACE_PATTERN@, raw, seq![' '])),
        ),
        !regex_compiles(WHITESPACE_PATTERN@) ==> extracted_text(TextFormat::Pdf, raw) is None,
        html_patterns_compile() ==> extracted_text(TextFormat::Html, raw) == Some(
            trim(
                regex_replace_all(
                    WHITESPACE_PATTERN@,
                    regex_replace_all(
                        ENTITY_PATTERN@,
                        regex_replace_all(
                            TAG_PATTERN@,
                            regex_replace_all(SCRIPT_STYLE_PATTERN@, raw, seq![' ']),
                            seq![' '],
                        ),
                        seq![' '],
                    ),
                    seq![' '],
                ),
            ),
        ),
        !html_patterns_compile() ==> extracted_text(TextFormat::Html, raw) is None,
{
}

/// A chunk never holds more than `size` words.
pub proof fn law_chunk_at_most_size(i: nat, n: nat, size: nat, overlap: nat)
    requires
        chunk_start(i, size, overlap) < n,
    ensures
        chunk_start(i, size, overlap) <= chunk_end(i, n, size, overlap) <= n,
        chunk_end(i, n, size, overlap) - chunk_start(i, size, overlap) <= size,
{
}

/// A text of at least one word and no more words than the step between chunk
/// starts makes exactly one chunk, which holds all of it.
pub proof fn law_short_text_single_chunk(count: nat, n: nat, size: nat, overlap: nat)
    requires
        is_chunk_count(count, n, size, overlap),
        0 < n <= advance(size, overlap),
    ensures
        count == 1,
        chunk_start(0, size, overlap) == 0,
        chunk_end(0, n, size, overlap) == n,
{
    assert(chunk_start(0, size, overlap) == 0 * advance(size, overlap));
    if advance(size, overlap) > 0 {
        assert(chunk_start(1, size, overlap) == advance(size, overlap));
        if count == 0 {
            assert(chunk_start(0, size, overlap) >= n);
        } else if count > 1 {
            assert(chunk_start(1, size, overlap) < n);
        }
    }
}

/// When the overlap is smaller than the chunk size, every word of the text
/// lies in some chunk.
pub proof fn law_chunks_cover_all_words(count: nat, n: nat, size: nat, overlap: nat, j: nat)
    requires
        is_chunk_count(count, n, size, overlap),
        overlap < size,
        j < n,
    ensures
        exists|i: nat|
            i < count && #[trigger] chunk_start(i, size, overlap) <= j < chunk_end(
                i,
                n,
                size,
                overlap,
            ),
{
    let step = advance(size, overlap);
    assert(step > 0);
    let i = j / step;
    assert(i * step <= j < i * step + step) by (nonlinear_arith)
        requires
            step > 0,
            i == j / step,
    ;
    assert(chunk_start(i, size, overlap) == i * step);
    if i >= count {
        assert(i * step >= count * step) by (nonlinear_arith)
            requires
                i >= count,
        ;
        assert(chunk_start(count, size, overlap) == count * step);
        assert(false);
    }
    assert(step <= size);
    assert(chunk_start(i, size, overlap) <= j < chunk_end(i, n, size, overlap));
}

/// Consecutive chunks share `overlap` words, or all the words left after
/// the later one's start when fewer remain: the later chunk starts inside the
/// earlier one.
pub proof fn law_consecutive_chunks_overlap(count: nat, n: nat, size: nat, overlap: nat, i: nat)
    requires
        is_chunk_count(count, n, size, overlap),
        i + 1 < count,
    ensures
        chunk_start(i, size, overlap) < chunk_start(i + 1, size, overlap) <= chunk_end(
            i,
            n,
            size,
            overlap,
        ),
        chunk_end(i, n, size, overlap) - chunk_start(i + 1, size, overlap) == if overlap < n
            - chunk_start(i + 1, size, overlap) {
            overlap as int
        } else {
            n - chunk_start(i + 1, size, overlap)
        },
{
    let step = advance(size, overlap);
    assert(step > 0);
    assert((i + 1) * step == i * step + step) by (nonlinear_arith);
    assert(chunk_start(i + 1, size, overlap) < n);
}

/// The text of a chunk splits back into exactly the words of that chunk.
pub proof fn law_chunk_text_holds_its_words(text: Seq<char>, i: nat, size: nat, overlap: nat)
    requires
        chunk_start(i, size, overlap) < words(text).len(),
    ensures
        words(join(chunk_words(words(text), i, size, overlap), seq![' '])) == chunk_words(
            words(text),
            i,
            size,
            overlap,
        ),
{
    let ws = words(text);
    crate::text::lemma_words_are_words(text);
    let part = chunk_words(ws, i, size, overlap);
    assert forall|k: int| 0 <= k < part.len() implies crate::text::is_word(#[trigger] part[k]) by {
        assert(part[k] == ws[chunk_start(i, size, overlap) + k]);
    }
    crate::text::lemma_words_of_joined(part);
}

/// The format that `extract_text` uses for a file with extension `ext`
/// (without the dot; empty when the file has none).
pub fn format_for_extension(ext: &str) -> (res: TextFormat)
    ensures
        res == format_for(ext@),
{
    if str_equal(ext, "pdf") {
        TextFormat::Pdf
    } else if str_equal(ext, "html") || str_equal(ext, "htm") {
        TextFormat::Html
    } else {
        TextFormat::Plain
    }
}

impl DocumentProcessor {
    /// The number of words per chunk.
    pub closed spec fn size(&self) -> nat {
        self.chunk_size as nat
    }

    /// The number of words that consecutive chunks share.
    pub closed spec fn overlap(&self) -> nat {
        self.chunk_overlap as nat
    }

    /// A processor making chunks of `chunk_size` words, consecutive chunks
    /// sharing `chunk_overlap` words.
    pub fn new(chunk_size: usize, chunk_overlap: usize) -> (res: Self)
        ensures
            res.size() == chunk_size,
            res.overlap() == chunk_overlap,
    {
        Self { chunk_size, chunk_overlap }
    }

    /// Whether chunking `text` keeps every chunk end within `usize` (the
    /// precondition of `chunk_text`).
    pub fn chunk_positions_fit(&self, text: &str) -> (res: bool)
        ensures
            res == chunk_bounds_fit(words(text@).len(), self.size(), self.overlap()),
    {
        let n = split_whitespace(text).len();
        let step = self.chunk_size.saturating_sub(self.chunk_overlap);
        let ghost size = self.size();
        let ghost overlap = self.overlap();
        assert(step == advance(size, overlap));
        if n == 0 {
            return true;
        }
        if step == 0 {
            assert forall|i: nat| #[trigger] chunk_start(i, size, overlap) < n implies chunk_start(
                i,
                size,
                overlap,
            ) + size <= usize::MAX by {
                assert(chunk_start(i, size, overlap) == i * 0);
            }
            return true;
        }
        let last_index = (n - 1) / step;
        assert(last_index * step <= n - 1) by (nonlinear_arith)
            requires
                last_index == (n - 1) as int / step as int,
                step > 0,
        ;
        let last_start = last_index * step;
        assert(last_start as nat == chunk_start(last_index as nat, size, overlap));
        let fits = last_start <= usize::MAX - self.chunk_size;
        proof {
            if fits {
                assert forall|i: nat| #[trigger] chunk_start(i, size, overlap) < n implies chunk_start(
                    i,
                    size,
                    overlap,
                ) + size <= usize::MAX by {
                    assert(i * step < n);
                    assert(i <= last_index) by (nonlinear_arith)
                        requires
                            i * step < n,
                            last_index == (n - 1) as int / step as int,
                            step > 0,
                    ;
                    assert(i * step <= last_index * step) by (nonlinear_arith)
                        requires
                            i <= last_index,
                    ;
                }
            } else {
                assert(chunk_start(last_index as nat, size, overlap) < n);
            }
        }
        fits
    }

    /// Splits `text` into chunks as `chunk_text_at` does, stamped with the
    /// current time.
    pub fn chunk_text(&self, text: &str, source: &str) -> (res: Vec<Chunk>)
        requires
            chunk_bounds_fit(words(text@).len(), self.size(), self.overlap()),
        ensures
            is_chunk_count(res@.len(), words(text@).len(), self.size(), self.overlap()),
            forall|i: int|
                0 <= i < res@.len() ==> is_chunk(
                    #[trigger] res@[i],
                    text@,
                    source@,
                    i as nat,
                    self.size(),
                    self.overlap(),
                    res@[0].created_at,
                ),
            res@.len() > 0 ==> 0 <= res@[0].created_at.seconds <= MAX_UNIX_SECONDS,
            res@.len() > 0 ==> res@[0].created_at.nanos < 1_000_000_000,
    {
        let now = now_utc();
        self.chunk_text_at(text, source, now)
    }

    /// Collapses every run of white space to one space and trims the ends.
    pub fn clean_text(&self, text: &str) -> (res: Result<String, ExtractError>)
        ensures
            res is Ok <==> regex_compiles(WHITESPACE_PATTERN@),
            res matches Ok(t) ==> t@ == cleaned(text@),
            res matches Ok(t) ==> t@ == trim(
                regex_replace_all(WHITESPACE_PATTERN@, text@, seq![' ']),
            ),
    {
        match Pattern::compile(WHITESPACE_PATTERN) {
            Ok(ws) => {
                proof {
                    reveal_strlit(" ");
            assert(" "@ =~= seq![' ']);
                }
                let collapsed = ws.replace_all(text, " ");
                Ok(trim_str(collapsed.as_str()))
            },
            Err(_) => Err(ExtractError::InvalidPattern),
        }
    }

    /// Removes script and style elements, tags and entity references (each
    /// replaced by a space), then cleans the white space.
    pub fn strip_html(&self, html: &str) -> (res: Result<String, ExtractError>)
        ensures
            res is Ok <==> html_patterns_compile(),
            res matches Ok(t) ==> t@ == stripped(html@),
            res matches Ok(t) ==> t@ == trim(
                regex_replace_all(
                    WHITESPACE_PATTERN@,
                    regex_replace_all(
                        ENTITY_PATTERN@,
                        regex_replace_all(
                            TAG_PATTERN@,
                            regex_replace_all(SCRIPT_STYLE_PATTERN@, html@, seq![' ']),
                            seq![' '],
                        ),
                        seq![' '],
                    ),
                    seq![' '],
                ),
            ),
    {
        let script = match Pattern::compile(SCRIPT_STYLE_PATTERN) {
            Ok(p) => p,
            Err(_) => return Err(ExtractError::InvalidPattern),
        };
        let tag = match Pattern::compile(TAG_PATTERN) {
            Ok(p) => p,
            Err(_) => return Err(ExtractError::InvalidPattern),
        };
        let entity = match Pattern::compile(ENTITY_PATTERN) {
            Ok(p) => p,
            Err(_) => return Err(ExtractError::InvalidPattern),
        };
        proof {
            reveal_strlit(" ");
            assert(" "@ =~= seq![' ']);
        }
        let no_scripts = script.replace_all(html, " ");
        let no_tags = tag.replace_all(no_scripts.as_str(), " ");
        let no_entities = entity.replace_all(no_tags.as_str(), " ");
        self.clean_text(no_entities.as_str())
    }

    /// The text of a document of the given format whose raw contents (for a
    /// PDF, the text that the PDF reader produced) are `raw`: PDF text is
    /// cleaned, HTML stripped, and anything else kept as it is.
    pub fn extract_text(&self, format: TextFormat, raw: &str) -> (res: Result<String, ExtractError>)
        ensures
            match res {
                Ok(t) => extracted_text(format, raw@) == Some(t@),
                Err(_) => extracted_text(format, raw@) is None,
            },
    {
        match format {
            TextFormat::Pdf => self.clean_text(raw),
            TextFormat::Html => self.strip_html(raw),
            TextFormat::Plain => Ok(string_from(raw)),
        }
    }

    /// Builds chunk `idx`, which holds `all_words[start..end]`.
    fn make_chunk(
        all_words: &Vec<String>,
        start: usize,
        end: usize,
        idx: usize,
        source: &str,
        heading: &Option<Pattern>,
        now: Timestamp,
    ) -> (res: Chunk)
        requires
            start <= end <= all_words@.len(),
            heading matches Some(p) ==> p.source() == SECTION_PATTERN@,
            heading is Some <==> regex_compiles(SECTION_PATTERN@),
            (idx == 0) == (start == 0),
        ensures
            res.text@ == join(
                string_views(all_words@).subrange(start as int, end as int),
                seq![' '],
            ),
            res.id@ == chunk_id(source@, idx as nat),
            res.source@ == source@,
            res.section@ == section_label(res.text@, idx == 0),
            res.index == idx,
            res.created_at == now,
    {
        let text = join_with_spaces(all_words, start, end);
        let section = match heading {
            Some(re) => match re.first_match(text.as_str()) {
                Some(m) => trim_str(m.as_str()),
                None => if start == 0 {
                    string_from(HEADER_SECTION)
                } else {
                    string_from(BODY_SECTION)
                },
            },
            None => string_from(UNKNOWN_SECTION),
        };
        let mut id = string_from(source);
        push_char(&mut id, '_');
        let number = format_usize(idx);
        id.append(number.as_str());
        Chunk {
            id,
            text,
            source: string_from(source),
            section,
            index: idx,
            created_at: now,
        }
    }

    /// Splits `text` into chunks of `size()` words whose starts lie
    /// `size() - overlap()` words apart (only the first chunk when the overlap
    /// is not smaller than the size), each stamped with `now`.
    pub fn chunk_text_at(&self, text: &str, source: &str, now: Timestamp) -> (res: Vec<Chunk>)
        requires
            chunk_bounds_fit(words(text@).len(), self.size(), self.overlap()),
        ensures
            is_chunk_count(res@.len(), words(text@).len(), self.size(), self.overlap()),
            forall|i: int|
                0 <= i < res@.len() ==> is_chunk(
                    #[trigger] res@[i],
                    text@,
                    source@,
                    i as nat,
                    self.size(),
                    self.overlap(),
                    now,
                ),
    {
        let all_words = split_whitespace(text);
        let n = all_words.len();
        let ghost ws = words(text@);
        let ghost size = self.size();
        let ghost overlap = self.overlap();
        let mut chunks: Vec<Chunk> = Vec::new();
        if n == 0 {
            return chunks;
        }
        let heading = match Pattern::compile(SECTION_PATTERN) {
            Ok(p) => Some(p),
            Err(_) => None,
        };
        let step = self.chunk_size.saturating_sub(self.chunk_overlap);
        assert(step == advance(size, overlap));
        let mut idx: usize = 0;
        let mut pos: usize = 0;
        while pos < n
            invariant
                n == all_words@.len() == ws.len(),
                string_views(all_words@) == ws,
                ws == words(text@),
                size == self.size(),
                overlap == self.overlap(),
                step == advance(size, overlap),
                step > 0 ==> pos as nat == chunk_start(idx as nat, size, overlap),
                step == 0 ==> (idx == 0 && pos == 0) || (idx == 1 && pos == n),
                chunks@.len() == idx,
                idx <= n,
                chunk_bounds_fit(n as nat, size, overlap),
                heading matches Some(p) ==> p.source() == SECTION_PATTERN@,
                heading is Some <==> regex_compiles(SECTION_PATTERN@),
                forall|i: nat| i < idx ==> #[trigger] chunk_start(i, size, overlap) < n,
                forall|i: int|
                    0 <= i < chunks@.len() ==> is_chunk(
                        #[trigger] chunks@[i],
                        text@,
                        source@,
                        i as nat,
                        size,
                        overlap,
                        now,
                    ),
            decreases n - idx,
        {
            assert(pos + self.chunk_size <= usize::MAX);
            let reach = pos + self.chunk_size;
            let end = if reach < n {
                reach
            } else {
                n
            };
            proof {
                if step > 0 {
                    assert(idx as nat * step >= idx) by (nonlinear_arith)
                        requires
                            step > 0,
                    ;
                    assert((idx + 1) as nat * step == idx as nat * step + step) by (nonlinear_arith);
                } else {
                    assert(chunk_start(0, size, overlap) == 0);
                }
                assert(chunk_start(idx as nat, size, overlap) == pos);
            }
            let chunk = Self::make_chunk(&all_words, pos, end, idx, source, &heading, now);
            chunks.push(chunk);
            if step == 0 {
                pos = n;
            } else {
                pos = pos + step;
            }
            idx = idx + 1;
        }
        proof {
            if step == 0 {
                assert(idx == 1);
            }
        }
        chunks
    }
}

} // verus!
