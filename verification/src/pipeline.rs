//! The prediction pipeline: vocabulary in, tokenizer assembled, sentences
//! encoded, and score matrices decoded back into the sentence.
//!
//! Inference itself runs outside the library; its score matrix reaches
//! `apply` as rows of `i64` keys whose order agrees with the runtime's raw
//! scores, one row per sequence position.

use crate::bridge::{
    assemble_tokenizer, bert_assembly, build_wordpiece, decode_id, decoded_token, encode_text,
    encodes_ok, model_table, plain_decoding, spec_encoding, token_table, TokenizedText,
};
use crate::chars::{chars_of, string_from_chars};
use crate::scores::{argmax, is_leftmost_max, lemma_leftmost_max_unique};
use crate::text::{replace_seq, substitute_words};
use crate::vocab::{active_count, distinct_tokens, gap_free, vocab_lines, Vocabulary};
use tokenizers::Tokenizer;
use vstd::prelude::*;

verus! {

/// Boundary-marker id the pretrained model expects for the leading
/// classification token.
pub const CLS_ID: u32 = 101;

/// Boundary-marker id the pretrained model expects for the trailing
/// separator token.
pub const SEP_ID: u32 = 102;

/// The reserved marker whose occurrences are predicted and replaced.
pub open spec fn spec_mask_marker() -> Seq<char> {
    "[MASK]"@
}

/// The mask marker's text.
pub fn mask_marker() -> (s: &'static str)
    ensures
        s@ == spec_mask_marker(),
{
    "[MASK]"
}

/// Why a prediction request failed.
#[derive(Debug)]
pub enum PredictError {
    /// The vocabulary cannot drive the model: more tokens than ids, or two
    /// lines holding the same token.
    MalformedVocabulary,
    /// The tokenizer library rejected its configuration or the input.
    TokenizerFailure(String),
    /// A score matrix that does not cover every masked position with a
    /// non-empty row of addressable ids.
    InvalidScores,
}

/// A vocabulary the model can be driven with: its id-bearing tokens fit in
/// ids, leave no gap in the id range, and are pairwise distinct.
pub open spec fn vocab_ok(lines: Seq<Seq<char>>) -> bool {
    &&& active_count(lines) <= u32::MAX
    &&& gap_free(lines)
    &&& distinct_tokens(lines.take(active_count(lines)))
}

/// The positions, in ascending order, of the first `n` tokens that equal
/// the mask marker.
pub open spec fn mask_positions_upto(tokens: Seq<Seq<char>>, n: int) -> Seq<int>
    decreases n,
{
    if n <= 0 {
        Seq::empty()
    } else if tokens[n - 1] == spec_mask_marker() {
        mask_positions_upto(tokens, n - 1).push(n - 1)
    } else {
        mask_positions_upto(tokens, n - 1)
    }
}

/// The positions, in ascending order, of the tokens that equal the mask
/// marker.
pub open spec fn spec_mask_positions(tokens: Seq<Seq<char>>) -> Seq<int> {
    mask_positions_upto(tokens, tokens.len() as int)
}

/// The first `n` mask positions are exactly the indices below `n` whose
/// token is the marker, listed in strictly ascending order.
pub proof fn lemma_mask_positions_upto(tokens: Seq<Seq<char>>, n: int)
    requires
        0 <= n,
    ensures
        forall|k: int|
            0 <= k < mask_positions_upto(tokens, n).len() ==> 0 <= #[trigger] mask_positions_upto(
                tokens,
                n,
            )[k] < n && tokens[mask_positions_upto(tokens, n)[k]] == spec_mask_marker(),
        forall|k1: int, k2: int|
            0 <= k1 < k2 < mask_positions_upto(tokens, n).len() ==> mask_positions_upto(tokens, n)[k1]
                < mask_positions_upto(tokens, n)[k2],
        forall|i: int|
            0 <= i < n && tokens[i] == spec_mask_marker() ==> mask_positions_upto(
                tokens,
                n,
            ).contains(i),
    decreases n,
{
    if n > 0 {
        lemma_mask_positions_upto(tokens, n - 1);
        let prev = mask_positions_upto(tokens, n - 1);
        if tokens[n - 1] == spec_mask_marker() {
            assert forall|i: int|
                0 <= i < n && tokens[i] == spec_mask_marker() implies prev.push(n - 1).contains(
                i,
            ) by {
                if i < n - 1 {
                    let k = choose|k: int| 0 <= k < prev.len() && prev[k] == i;
                    assert(prev.push(n - 1)[k] == i);
                } else {
                    assert(prev.push(n - 1)[prev.len() as int] == i);
                }
            }
        }
    }
}

/// The mask-position set of a token sequence holds exactly the indices
/// whose token is the marker, in strictly ascending order.
pub proof fn lemma_mask_positions_exact(tokens: Seq<Seq<char>>)
    ensures
        forall|k: int|
            0 <= k < spec_mask_positions(tokens).len() ==> 0 <= #[trigger] spec_mask_positions(
                tokens,
            )[k] < tokens.len() && tokens[spec_mask_positions(tokens)[k]] == spec_mask_marker(),
        forall|k1: int, k2: int|
            0 <= k1 < k2 < spec_mask_positions(tokens).len() ==> spec_mask_positions(tokens)[k1]
                < spec_mask_positions(tokens)[k2],
        forall|i: int|
            0 <= i < tokens.len() && tokens[i] == spec_mask_marker() ==> spec_mask_positions(
                tokens,
            ).contains(i),
{
    lemma_mask_positions_upto(tokens, tokens.len() as int);
}

/// The index `argmax` selects: the leftmost maximum of the row.
pub open spec fn spec_argmax(row: Seq<i64>) -> int {
    choose|r: int| is_leftmost_max(row, r)
}

/// Every masked position has a score row, non-empty and short enough for
/// its indices to serve as token ids.
pub open spec fn scores_cover(ps: Seq<int>, scores: Seq<Seq<i64>>) -> bool {
    forall|j: int|
        0 <= j < ps.len() ==> {
            &&& 0 <= #[trigger] ps[j] < scores.len()
            &&& scores[ps[j]].len() > 0
            &&& scores[ps[j]].len() <= u32::MAX
        }
}

/// The texts substituted for the masked positions: for position `ps[j]`,
/// the decoded text of the best-scoring id of row `ps[j]` — each one a
/// function of its own row alone.
pub open spec fn predicted_words(
    table: Map<nat, Seq<char>>,
    scores: Seq<Seq<i64>>,
    ps: Seq<int>,
) -> Seq<Seq<char>> {
    Seq::new(ps.len(), |j: int| decoded_token(table, spec_argmax(scores[ps[j]]) as nat))
}

/// A sentence as encoded for the model: the tokenizer's output, the three
/// integer sequences widened to the model's 64-bit element type, and the
/// masked positions.
pub struct EncodedText {
    /// the tokenizer's output, four parallel sequences
    pub raw: TokenizedText,
    /// token ids, widened for the model
    pub ids: Vec<i64>,
    /// attention-mask values, widened for the model
    pub attention: Vec<i64>,
    /// token-type ids, widened for the model
    pub type_ids: Vec<i64>,
    /// positions of the mask token, in ascending order
    pub mask_positions: Vec<usize>,
}

impl EncodedText {
    /// The widened sequences are parallel to the tokenizer's output, so the
    /// sequence length is the model's free shape dimension.
    pub open spec fn wf(self) -> bool {
        &&& self.raw.wf()
        &&& self.ids@.len() == self.raw.tokens@.len()
        &&& self.attention@.len() == self.raw.tokens@.len()
        &&& self.type_ids@.len() == self.raw.tokens@.len()
    }

    /// The sequence length the model must be shaped with.
    pub fn seq_len(&self) -> (n: usize)
        ensures
            n == self.ids@.len(),
    {
        self.ids.len()
    }
}

/// Widens each id to the model's 64-bit element type.
fn widen(v: &Vec<u32>) -> (r: Vec<i64>)
    ensures
        r@.len() == v@.len(),
        forall|i: int| 0 <= i < v@.len() ==> r@[i] == v@[i] as i64,
{
    let mut r: Vec<i64> = Vec::new();
    let mut i: usize = 0;
    while i < v.len()
        invariant
            i <= v@.len(),
            r@.len() == i,
            forall|k: int| 0 <= k < i ==> r@[k] == v@[k] as i64,
        decreases v@.len() - i,
    {
        r.push(v[i] as i64);
        i = i + 1;
    }
    r
}

/// The positions of the tokens equal to the mask marker, in ascending
/// order.
fn find_mask_positions(tokens: &Vec<String>) -> (r: Vec<usize>)
    ensures
        r@.map_values(|p: usize| p as int) == spec_mask_positions(tokens.deep_view()),
{
    let marker = mask_marker();
    let marker_string = String::from_str(marker);
    let mut r: Vec<usize> = Vec::new();
    let mut i: usize = 0;
    proof {
        assert(r@.map_values(|p: usize| p as int) =~= mask_positions_upto(tokens.deep_view(), 0));
    }
    while i < tokens.len()
        invariant
            i <= tokens@.len(),
            tokens.deep_view().len() == tokens@.len(),
            marker_string@ == spec_mask_marker(),
            r@.map_values(|p: usize| p as int) == mask_positions_upto(
                tokens.deep_view(),
                i as int,
            ),
        decreases tokens@.len() - i,
    {
        let ghost r0 = r@;
        proof {
            assert(tokens.deep_view()[i as int] == tokens@[i as int]@);
        }
        if tokens[i] == marker_string {
            r.push(i);
            proof {
                assert(r@.map_values(|p: usize| p as int) =~= r0.map_values(
                    |p: usize| p as int,
                ).push(i as int));
            }
        }
        i = i + 1;
    }
    r
}

/// The prediction pipeline: the loaded vocabulary and the tokenizer
/// assembled from it.
pub struct MaskedLm {
    tok: Tokenizer,
    vocab: Vocabulary,
}

impl MaskedLm {
    /// The vocabulary's token list: the token with id `i` at index `i`.
    pub closed spec fn vocab_view(self) -> Seq<Seq<char>> {
        self.vocab@
    }

    /// The tokenizer's id-to-token table.
    pub closed spec fn table(self) -> Map<nat, Seq<char>> {
        token_table(self.tok)
    }

    /// The tokenizer decodes through the table alone.
    pub closed spec fn plain(self) -> bool {
        plain_decoding(self.tok)
    }

    /// The tokenizer brackets every encoding between the model's
    /// classification and separator ids.
    pub closed spec fn bert_set(self) -> bool {
        bert_assembly(self.tok, CLS_ID, SEP_ID)
    }

    /// Whether the tokenizer encodes `text` successfully.
    pub closed spec fn encodes(self, text: Seq<char>) -> bool {
        encodes_ok(self.tok, text)
    }

    /// What the tokenizer makes of `text`: ids, type ids, attention values
    /// and token texts, a function of the pipeline and the text alone.
    pub closed spec fn enc_of(self, text: Seq<char>) -> (Seq<u32>, Seq<u32>, Seq<u32>, Seq<
        Seq<char>,
    >) {
        spec_encoding(self.tok, text)
    }

    /// The pipeline is coherent: the id-bearing lines fit in ids, tokens
    /// are distinct, the boundary markers are installed, and the
    /// tokenizer's table maps each id to its vocabulary line.
    pub open spec fn wf(self) -> bool {
        let k = active_count(self.vocab_view());
        &&& k <= u32::MAX
        &&& gap_free(self.vocab_view())
        &&& distinct_tokens(self.vocab_view().take(k))
        &&& self.plain()
        &&& self.bert_set()
        &&& forall|i: int|
            0 <= i < k ==> #[trigger] self.table().contains_key(i as nat) && self.table()[
                i as nat
            ] == self.vocab_view()[i]
    }

    /// Assembles the pipeline: parses the vocabulary text — non-empty line
    /// `i`, trimmed, is the token with id `i` — and builds the WordPiece
    /// tokenizer around it, with the mask marker registered as one atomic
    /// token. A malformed vocabulary — too many tokens for ids, an empty
    /// line before a token-bearing one (an id gap the model's embedding
    /// table cannot have), or two lines holding the same token — is
    /// rejected here, at assembly time, and nothing else fails.
    pub fn new(vocab_text: &str) -> (r: Result<MaskedLm, PredictError>)
        ensures
            r is Ok <==> vocab_ok(vocab_lines(vocab_text@)),
            r matches Ok(m) ==> m.wf() && m.vocab_view() == vocab_lines(vocab_text@),
            !vocab_ok(vocab_lines(vocab_text@)) <==> r matches Err(
                PredictError::MalformedVocabulary,
            ),
    {
        let vocab = Vocabulary::parse(vocab_text);
        let (k, no_gap) = vocab.active_len();
        if !no_gap {
            return Err(PredictError::MalformedVocabulary);
        }
        if k > u32::MAX as usize {
            return Err(PredictError::MalformedVocabulary);
        }
        if !vocab.prefix_distinct(k) {
            return Err(PredictError::MalformedVocabulary);
        }
        let mut entries: Vec<(String, u32)> = Vec::new();
        let mut i: usize = 0;
        while i < k
            invariant
                i <= k,
                k == active_count(vocab@),
                k <= vocab@.len(),
                k <= u32::MAX,
                entries@.len() == i,
                forall|l: int|
                    0 <= l < i ==> (#[trigger] entries@[l]).0@ == vocab@[l] && entries@[l].1
                        == l as u32,
            decreases k - i,
        {
            let t = match vocab.token_at(i) {
                Some(t) => t,
                None => {
                    return Err(PredictError::MalformedVocabulary);
                },
            };
            entries.push((t, i as u32));
            i = i + 1;
        }
        proof {
            assert forall|p: int, q: int|
                0 <= p < q < entries@.len() implies entries@[p].0@ != entries@[q].0@ by {
                assert(vocab@.take(k as int)[p] == vocab@[p]);
                assert(vocab@.take(k as int)[q] == vocab@[q]);
            }
        }
        let ghost entries_view = entries@;
        let model = match build_wordpiece(entries, String::from_str("[UNK]")) {
            Ok(m) => m,
            Err(_) => {
                return Err(PredictError::MalformedVocabulary);
            },
        };
        let ghost m = model;
        proof {
            reveal_strlit("[MASK]");
            assert forall|id: nat, j: nat|
                model_table(m).contains_key(id) && j < id implies model_table(m).contains_key(
                j,
            ) by {
                assert(id < entries_view.len());
            }
        }
        let r = assemble_tokenizer(
            model,
            (String::from_str("[SEP]"), SEP_ID),
            (String::from_str("[CLS]"), CLS_ID),
            String::from_str(mask_marker()),
            true,
            false,
            false,
            false,
        );
        match r {
            Ok(tok) => {
                proof {
                    assert forall|l: int|
                        0 <= l < k implies #[trigger] token_table(tok).contains_key(l as nat)
                        && token_table(tok)[l as nat] == vocab@[l] by {
                        assert(model_table(m).contains_key(l as nat));
                        assert(model_table(m)[l as nat] == entries_view[l].0@);
                    }
                }
                Ok(MaskedLm { tok, vocab })
            },
            Err(_) => Err(PredictError::MalformedVocabulary),
        }
    }

    /// Encodes one sentence: the tokenizer's ids, attention mask and token
    /// types — widened to the model's element type — and the positions of
    /// the mask token among the produced tokens, in left-to-right order.
    /// The encoding is deterministic — one text, one result — and is
    /// bracketed between the classification and separator markers, with
    /// every attention value 1 (no padding) and every type id 0 (single
    /// segment).
    pub fn encode(&self, text: &str) -> (r: Result<EncodedText, PredictError>)
        requires
            self.wf(),
        ensures
            r is Ok <==> self.encodes(text@),
            r matches Ok(e) ==> {
                &&& e.wf()
                &&& e.raw@ == self.enc_of(text@)
                &&& e.raw.ids@.len() >= 2
                &&& e.raw.ids@[0] == CLS_ID
                &&& e.raw.ids@[e.raw.ids@.len() - 1] == SEP_ID
                &&& forall|i: int| 0 <= i < e.raw.attention@.len() ==> e.raw.attention@[i] == 1
                &&& forall|i: int| 0 <= i < e.raw.type_ids@.len() ==> e.raw.type_ids@[i] == 0
                &&& e.mask_positions@.map_values(|p: usize| p as int) == spec_mask_positions(
                    e.raw.tokens.deep_view(),
                )
                &&& forall|i: int| 0 <= i < e.ids@.len() ==> e.ids@[i] == e.raw.ids@[i] as i64
                &&& forall|i: int|
                    0 <= i < e.attention@.len() ==> e.attention@[i] == e.raw.attention@[i] as i64
                &&& forall|i: int|
                    0 <= i < e.type_ids@.len() ==> e.type_ids@[i] == e.raw.type_ids@[i] as i64
            },
            r is Err ==> r matches Err(PredictError::TokenizerFailure(_)),
    {
        proof {
            assert(self.bert_set());
        }
        let raw = match encode_text(&self.tok, text) {
            Ok(raw) => raw,
            Err(e) => {
                return Err(PredictError::TokenizerFailure(e));
            },
        };
        proof {
            assert(bert_assembly(self.tok, CLS_ID, SEP_ID));
        }
        let ids = widen(&raw.ids);
        let attention = widen(&raw.attention);
        let type_ids = widen(&raw.type_ids);
        let mask_positions = find_mask_positions(&raw.tokens);
        Ok(EncodedText { raw, ids, attention, type_ids, mask_positions })
    }

    /// Substitutes predictions into the sentence: for each masked position,
    /// in left-to-right order, the best-scoring id of that position's score
    /// row — leftmost maximum on ties — is decoded to its token text, and
    /// the first remaining occurrence of the mask marker in the working
    /// text is replaced by it. A request whose score matrix does not cover
    /// the masked positions is rejected whole; with no masked position the
    /// sentence comes back unchanged.
    pub fn apply(&self, text: &str, mask_positions: &Vec<usize>, scores: &Vec<Vec<i64>>) -> (r:
        Result<String, PredictError>)
        requires
            self.wf(),
        ensures
            r is Ok <==> scores_cover(
                mask_positions@.map_values(|p: usize| p as int),
                scores.deep_view(),
            ),
            r matches Ok(out) ==> out@ == replace_seq(
                text@,
                spec_mask_marker(),
                predicted_words(
                    self.table(),
                    scores.deep_view(),
                    mask_positions@.map_values(|p: usize| p as int),
                ),
            ),
            r is Err ==> r matches Err(PredictError::InvalidScores),
            mask_positions@.len() == 0 ==> (r matches Ok(out) && out@ == text@),
            (!crate::text::has_match(text@, spec_mask_marker()) && r is Ok) ==> (r matches Ok(out)
                && out@ == text@),
    {
        let ghost ps = mask_positions@.map_values(|p: usize| p as int);
        let ghost sc = scores.deep_view();
        let ghost table = self.table();
        let text_chars = chars_of(text);
        let pat = chars_of(mask_marker());
        let mut words: Vec<Vec<char>> = Vec::new();
        let mut j: usize = 0;
        proof {
            assert(words.deep_view() =~~= predicted_words(table, sc, ps.take(0)));
        }
        while j < mask_positions.len()
            invariant
                self.wf(),
                j <= mask_positions@.len(),
                ps == mask_positions@.map_values(|p: usize| p as int),
                ps.len() == mask_positions@.len(),
                sc == scores.deep_view(),
                sc.len() == scores@.len(),
                table == self.table(),
                forall|k: int|
                    0 <= k < j ==> 0 <= #[trigger] ps[k] < sc.len() && sc[ps[k]].len() > 0
                        && sc[ps[k]].len() <= u32::MAX,
                words.deep_view() == predicted_words(table, sc, ps.take(j as int)),
            decreases mask_positions@.len() - j,
        {
            let ghost words0 = words.deep_view();
            let p = mask_positions[j];
            proof {
                assert(ps[j as int] == p as int);
            }
            if p >= scores.len() {
                proof {
                    assert(!(0 <= ps[j as int] < sc.len()));
                }
                return Err(PredictError::InvalidScores);
            }
            let row = &scores[p];
            proof {
                assert(sc[p as int] == scores@[p as int].deep_view());
                assert(sc[p as int] =~= scores@[p as int]@);
            }
            if row.len() == 0 {
                return Err(PredictError::InvalidScores);
            }
            if row.len() > u32::MAX as usize {
                return Err(PredictError::InvalidScores);
            }
            let idx = argmax(row);
            proof {
                assert(is_leftmost_max(row@, idx as int));
                assert(is_leftmost_max(sc[ps[j as int]], spec_argmax(sc[ps[j as int]]))) by {
                    assert(is_leftmost_max(sc[ps[j as int]], idx as int));
                }
                lemma_leftmost_max_unique(
                    sc[ps[j as int]],
                    spec_argmax(sc[ps[j as int]]),
                    idx as int,
                );
            }
            let id = idx as u32;
            let w = match decode_id(&self.tok, id) {
                Ok(w) => w,
                Err(_) => {
                    return Err(PredictError::InvalidScores);
                },
            };
            let wc = chars_of(w.as_str());
            words.push(wc);
            proof {
                assert(words.deep_view() =~~= words0.push(w@));
                assert(ps.take(j + 1).drop_last() =~= ps.take(j as int));
                assert(words.deep_view() =~~= predicted_words(table, sc, ps.take(j + 1)));
            }
            j = j + 1;
        }
        proof {
            assert(ps.take(ps.len() as int) =~= ps);
            assert(words.deep_view() =~~= predicted_words(table, sc, ps));
        }
        let (out, _hits) = substitute_words(&text_chars, &pat, &words);
        let s = string_from_chars(&out);
        proof {
            if ps.len() == 0 {
                assert(predicted_words(table, sc, ps).len() == 0);
                assert(replace_seq(text@, spec_mask_marker(), predicted_words(table, sc, ps))
                    == text@);
            }
            if !crate::text::has_match(text@, spec_mask_marker()) {
                crate::text::lemma_no_marker_identity(
                    text@,
                    spec_mask_marker(),
                    predicted_words(table, sc, ps),
                );
            }
        }
        Ok(s)
    }
}

} // verus!
