//! Trusted bridge to the `tokenizers` crate.
//!
//! The subword algorithm itself — normalization, pre-tokenization, WordPiece
//! matching, boundary-token insertion — is the tokenizer library's work and
//! is not re-implemented here. Each call the pipeline makes is wrapped in one
//! function whose contract states what the library's source shows, over
//! names for what the opaque values carry: the id-to-token tables of the
//! model and the tokenizer, the installed boundary configuration, and the
//! encoding a text deterministically produces.

use vstd::prelude::*;
use tokenizers::models::wordpiece::WordPiece;
use tokenizers::Tokenizer;

verus! {

#[verifier::external_type_specification]
#[verifier::external_body]
pub struct ExTokenizer(Tokenizer);

#[verifier::external_type_specification]
#[verifier::external_body]
pub struct ExWordPiece(WordPiece);

/// The WordPiece model's vocabulary as an id-to-token table.
pub uninterp spec fn model_table(m: WordPiece) -> Map<nat, Seq<char>>;

/// The tokenizer's id-to-token table: every id the tokenizer can turn back
/// into text — the WordPiece vocabulary entries and the added mask token —
/// mapped to that text.
pub uninterp spec fn token_table(t: Tokenizer) -> Map<nat, Seq<char>>;

/// The tokenizer decodes ids through the table alone, with no decoder
/// configured to rewrite the text.
pub uninterp spec fn plain_decoding(t: Tokenizer) -> bool;

/// The configuration this library's assembly installs: the Bert
/// post-processor bracketing every encoding between the classification id
/// `cls` and the separator id `sep`, single-segment type ids, and no
/// padding or truncation configured.
pub uninterp spec fn bert_assembly(t: Tokenizer, cls: u32, sep: u32) -> bool;

/// Whether encoding a text with the tokenizer succeeds.
pub uninterp spec fn encodes_ok(t: Tokenizer, text: Seq<char>) -> bool;

/// What encoding a text yields — ids, type ids, attention values and token
/// texts, a function of the tokenizer and the text alone, so encoding is
/// deterministic.
pub uninterp spec fn spec_encoding(t: Tokenizer, text: Seq<char>) -> (
    Seq<u32>,
    Seq<u32>,
    Seq<u32>,
    Seq<Seq<char>>,
);

/// What decoding one id yields: the table's text for it, or nothing for an
/// id outside the table.
pub open spec fn decoded_token(table: Map<nat, Seq<char>>, id: nat) -> Seq<char> {
    if table.contains_key(id) {
        table[id]
    } else {
        Seq::empty()
    }
}

/// What the tokenizer made of one sentence: four parallel sequences, one
/// entry of each per produced token.
pub struct TokenizedText {
    /// vocabulary id of each token
    pub ids: Vec<u32>,
    /// segment id of each token
    pub type_ids: Vec<u32>,
    /// attention-mask value of each token
    pub attention: Vec<u32>,
    /// surface text of each token
    pub tokens: Vec<String>,
}

impl View for TokenizedText {
    type V = (Seq<u32>, Seq<u32>, Seq<u32>, Seq<Seq<char>>);

    open spec fn view(&self) -> (Seq<u32>, Seq<u32>, Seq<u32>, Seq<Seq<char>>) {
        (self.ids@, self.type_ids@, self.attention@, self.tokens.deep_view())
    }
}

impl TokenizedText {
    /// The four sequences are parallel.
    pub open spec fn wf(self) -> bool {
        &&& self.ids@.len() == self.tokens@.len()
        &&& self.type_ids@.len() == self.tokens@.len()
        &&& self.attention@.len() == self.tokens@.len()
    }
}

/// Relies on `WordPiece::builder` and `WordPieceBuilder::build` of the
/// `tokenizers` crate: with distinct tokens carrying their indices as ids,
/// the built model's vocabulary — and the reverse id-to-token map formed
/// from it — holds exactly the given entries, its ids exactly the entry
/// indices; building from an in-memory vocabulary reads no file and cannot
/// fail.
#[verifier::external_body]
pub(crate) fn build_wordpiece(entries: Vec<(String, u32)>, unk: String) -> (r: Result<
    WordPiece,
    String,
>)
    requires
        forall|i: int, j: int|
            0 <= i < j < entries@.len() ==> entries@[i].0@ != entries@[j].0@,
        forall|i: int| 0 <= i < entries@.len() ==> entries@[i].1 == i as u32,
    ensures
        r is Ok,
        r matches Ok(m) ==> forall|id: nat| #[trigger]
            model_table(m).contains_key(id) <==> id < entries@.len(),
        r matches Ok(m) ==> forall|i: int|
            0 <= i < entries@.len() ==> #[trigger] model_table(m)[i as nat] == entries@[i].0@,
{
    let vocab: tokenizers::models::bpe::Vocab = entries.into_iter().collect();
    tokenizers::models::wordpiece::WordPiece::builder().vocab(vocab).unk_token(unk).build()
        .map_err(|e| e.to_string())
}

/// Relies on `Tokenizer::new`, `with_normalizer`, `with_pre_tokenizer`,
/// `with_post_processor` and `add_special_tokens` of the `tokenizers`
/// crate. The model's id range must be gapless: the mask token, when its
/// text is not already in the vocabulary, takes the fresh id
/// `get_vocab_size()` — the vocabulary's size, not one past its largest id
/// — and with a gapless range that id is outside the model's table, so no
/// entry is shadowed in the decode path (which consults added tokens
/// first). Each assembly step returns `Ok` here: the normalizer is set
/// before any token is added, and the single non-empty, non-normalized
/// mask pattern builds the token matcher without error. No decoder is
/// configured.
#[verifier::external_body]
pub(crate) fn assemble_tokenizer(
    model: WordPiece,
    sep: (String, u32),
    cls: (String, u32),
    mask: String,
    clean_text: bool,
    handle_chinese_chars: bool,
    strip_accents: bool,
    lowercase: bool,
) -> (r: Result<Tokenizer, String>)
    requires
        mask@.len() > 0,
        forall|id: nat, j: nat|
            #![trigger model_table(model).contains_key(id), model_table(model).contains_key(j)]
            model_table(model).contains_key(id) && j < id ==> model_table(model).contains_key(j),
    ensures
        r is Ok,
        r matches Ok(t) ==> plain_decoding(t),
        r matches Ok(t) ==> bert_assembly(t, cls.1, sep.1),
        r matches Ok(t) ==> forall|id: nat|
            #[trigger] model_table(model).contains_key(id) ==> token_table(t).contains_key(id)
                && token_table(t)[id] == model_table(model)[id],
{
    let mut t = Tokenizer::new(model);
    let norm = tokenizers::normalizers::bert::BertNormalizer::new(
        clean_text,
        handle_chinese_chars,
        Some(strip_accents),
        lowercase,
    );
    t.with_normalizer(Some(norm)).map_err(|e| e.to_string())?;
    t.with_pre_tokenizer(Some(tokenizers::pre_tokenizers::bert::BertPreTokenizer));
    t.with_post_processor(Some(tokenizers::processors::bert::BertProcessing::new(sep, cls)));
    t.add_special_tokens([tokenizers::AddedToken::from(mask, true).single_word(true)]).map_err(
        |e| e.to_string(),
    )?;
    Ok(t)
}

/// Relies on `TokenizerImpl::encode` with boundary-token insertion enabled,
/// on the `Encoding` getters, and on `BertProcessing::process`: an
/// encoding's ids, type ids, attention mask and tokens are parallel
/// sequences built one entry per token; the result is a function of the
/// tokenizer and the text alone; and under this library's assembly the
/// post-processor brackets the sequence between the classification and
/// separator ids, every attention value is 1 (no padding is configured)
/// and every type id is 0 (single segment).
#[verifier::external_body]
pub(crate) fn encode_text(t: &Tokenizer, text: &str) -> (r: Result<TokenizedText, String>)
    ensures
        r is Ok <==> encodes_ok(*t, text@),
        r matches Ok(enc) ==> enc.wf() && enc@ == spec_encoding(*t, text@),
        forall|c: u32, s2: u32|
            #[trigger] bert_assembly(*t, c, s2) ==> (r matches Ok(enc) ==> {
                &&& enc.ids@.len() >= 2
                &&& enc.ids@[0] == c
                &&& enc.ids@[enc.ids@.len() - 1] == s2
                &&& forall|i: int| 0 <= i < enc.attention@.len() ==> enc.attention@[i] == 1
                &&& forall|i: int| 0 <= i < enc.type_ids@.len() ==> enc.type_ids@[i] == 0
            }),
{
    let e = t.encode(text, true).map_err(|e| e.to_string())?;
    Ok(
        TokenizedText {
            ids: e.get_ids().to_vec(),
            type_ids: e.get_type_ids().to_vec(),
            attention: e.get_attention_mask().to_vec(),
            tokens: e.get_tokens().to_vec(),
        },
    )
}

/// Relies on `TokenizerImpl::decode` over a single id with special-token
/// stripping disabled: with no decoder configured it returns the table's
/// text for the id — an empty string for an id outside the table — and
/// cannot fail.
#[verifier::external_body]
pub(crate) fn decode_id(t: &Tokenizer, id: u32) -> (r: Result<String, String>)
    requires
        plain_decoding(*t),
    ensures
        r is Ok,
        r matches Ok(s) ==> s@ == decoded_token(token_table(*t), id as nat),
{
    t.decode(&[id], false).map_err(|e| e.to_string())
}

} // verus!
