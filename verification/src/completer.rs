//! The contextual completer: field selection by word position, the fixed
//! per-field vocabularies, and the suggestions handed back to the editor.

use vstd::prelude::*;
use crate::matching::{matching_candidates, find_substr_filter};
use crate::tokenize::{words_of, get_words, lemma_words_of_word_len};

verus! {

/// The half-open range of the line that an accepted suggestion replaces.
#[derive(Clone, Copy, Debug, PartialEq, Eq, Structural)]
pub struct Span {
    pub start: usize,
    pub end: usize,
}

/// One completion candidate: the replacement text, the span it replaces, and
/// whether a separating space follows it on acceptance.
#[derive(Clone, Debug, PartialEq)]
pub struct Suggestion {
    pub value: String,
    pub span: Span,
    pub append_whitespace: bool,
}

/// The bucket names offered for the first word.
pub open spec fn bucket_vocab() -> Seq<Seq<char>> {
    seq!["am-ingestion-custom-http"@, "am-ingestion-provider"@, "am-ingestion-custom-radio"@]
}

/// The date strings offered for the second word.
pub open spec fn date_vocab() -> Seq<Seq<char>> {
    seq!["2023-07-13"@]
}

/// The station names offered for the third and later words.
pub open spec fn station_vocab() -> Seq<Seq<char>> {
    seq![
        "BBC1"@,
        "BBC2"@,
        "BBC3"@,
        "radio-mansfield"@,
        "radio-hits-fm"@,
        "radio-kiss-fm"@,
        "BBC-CAMBRIDGE"@,
        "BCC-LONDON"@,
        "radio-heart-east"@,
        "radio-heart-west"@,
        "radio-heart-north"@,
        "very-long-station-because-it-was-renamed-at-some-point"@,
    ]
}

/// The vocabulary of the field that the cursor occupies after `n_words`
/// words: the first word names a bucket, the second a date, the rest stations.
pub open spec fn field_vocab(n_words: int) -> Seq<Seq<char>> {
    if n_words <= 1 {
        bucket_vocab()
    } else if n_words == 2 {
        date_vocab()
    } else {
        station_vocab()
    }
}

/// The bucket names whose lowercased text contains the lowercased `word`.
pub fn complete_buckets(word: &str) -> (r: Vec<String>)
    ensures
        r.deep_view() == matching_candidates(bucket_vocab(), word@),
        word@.len() == 0 ==> r.deep_view() == bucket_vocab(),
{
    let candidates: Vec<&str> = vec![
        "am-ingestion-custom-http",
        "am-ingestion-provider",
        "am-ingestion-custom-radio",
    ];
    proof {
        assert(candidates.deep_view() =~= bucket_vocab());
    }
    find_substr_filter(word, candidates)
}

/// The date strings whose lowercased text contains the lowercased `word`.
pub fn complete_date(word: &str) -> (r: Vec<String>)
    ensures
        r.deep_view() == matching_candidates(date_vocab(), word@),
        word@.len() == 0 ==> r.deep_view() == date_vocab(),
{
    let candidates: Vec<&str> = vec!["2023-07-13"];
    proof {
        assert(candidates.deep_view() =~= date_vocab());
    }
    find_substr_filter(word, candidates)
}

/// The station names whose lowercased text contains the lowercased `word`.
pub fn complete_stations(word: &str) -> (r: Vec<String>)
    ensures
        r.deep_view() == matching_candidates(station_vocab(), word@),
        word@.len() == 0 ==> r.deep_view() == station_vocab(),
{
    let candidates: Vec<&str> = vec![
        "BBC1",
        "BBC2",
        "BBC3",
        "radio-mansfield",
        "radio-hits-fm",
        "radio-kiss-fm",
        "BBC-CAMBRIDGE",
        "BCC-LONDON",
        "radio-heart-east",
        "radio-heart-west",
        "radio-heart-north",
        "very-long-station-because-it-was-renamed-at-some-point",
    ];
    proof {
        assert(candidates.deep_view() =~= station_vocab());
    }
    find_substr_filter(word, candidates)
}

/// `sug` offers `value` in place of the `partial` word ending at `caret_pos`,
/// with a separating space appended on acceptance.
pub open spec fn is_suggestion_for(
    sug: Suggestion,
    value: Seq<char>,
    partial: Seq<char>,
    caret_pos: int,
) -> bool {
    &&& sug.value@ == value
    &&& sug.span.start == caret_pos - partial.len()
    &&& sug.span.end == caret_pos
    &&& sug.append_whitespace
}

/// Wraps each candidate in a suggestion whose span covers the `word` being
/// typed, ending at the cursor.
pub fn candidates_to_suggestions(candidates: Vec<String>, word: &str, caret_pos: usize) -> (r: Vec<
    Suggestion,
>)
    requires
        word@.len() <= caret_pos,
    ensures
        r@.len() == candidates@.len(),
        forall|i: int|
            0 <= i < r@.len() ==> is_suggestion_for(
                #[trigger] r@[i],
                candidates.deep_view()[i],
                word@,
                caret_pos as int,
            ),
{
    let word_len = word.unicode_len();
    let start = caret_pos - word_len;
    let mut out: Vec<Suggestion> = Vec::new();
    let mut idx: usize = 0;
    while idx < candidates.len()
        invariant
            idx <= candidates@.len(),
            word_len == word@.len(),
            word_len <= caret_pos,
            start == caret_pos - word_len,
            out@.len() == idx,
            forall|i: int|
                0 <= i < out@.len() ==> is_suggestion_for(
                    #[trigger] out@[i],
                    candidates.deep_view()[i],
                    word@,
                    caret_pos as int,
                ),
        decreases candidates@.len() - idx,
    {
        let value = candidates[idx].clone();
        out.push(
            Suggestion {
                value,
                span: (Span { start, end: caret_pos }),
                append_whitespace: true,
            },
        );
        idx += 1;
    }
    out
}

/// The completer over the fixed ingestion vocabularies. It keeps no state:
/// every suggestion list is a function of the line and the cursor alone.
pub struct IngestionCompleter;

impl IngestionCompleter {
    /// Suggests, for the word under the cursor, the entries of the field's
    /// vocabulary that contain it case-insensitively, each anchored to the
    /// span of the partial word so the editor can splice the match in.
    pub fn complete(&self, line: &str, pos: usize) -> (r: Vec<Suggestion>)
        requires
            pos <= line@.len(),
        ensures
            ({
                let ws = words_of(line@.take(pos as int));
                let partial = ws.last();
                let cands = matching_candidates(field_vocab(ws.len() as int), partial);
                &&& r@.len() == cands.len()
                &&& forall|i: int|
                    0 <= i < r@.len() ==> is_suggestion_for(
                        #[trigger] r@[i],
                        cands[i],
                        partial,
                        pos as int,
                    )
                &&& partial.len() == 0 ==> cands == field_vocab(ws.len() as int)
            }),
            forall|i: int| 0 <= i < r@.len() ==> (#[trigger] r@[i]).span.end == pos,
    {
        let line_before_cursor = line.substring_char(0, pos);
        proof {
            assert(line_before_cursor@ =~= line@.take(pos as int));
        }
        let words = get_words(line_before_cursor);
        proof {
            lemma_words_of_word_len(line@.take(pos as int));
            assert(words.deep_view()[words@.len() - 1] == words@[words@.len() - 1]@);
        }
        let partial: &String = &words[words.len() - 1];
        let candidates = if words.len() == 1 {
            complete_buckets(partial.as_str())
        } else if words.len() == 2 {
            complete_date(partial.as_str())
        } else {
            complete_stations(partial.as_str())
        };
        candidates_to_suggestions(candidates, partial.as_str(), pos)
    }
}

} // verus!
