//! Vietnamese text segmentation: normalization, token classification by a
//! priority-ordered grammar, and word segmentation by Viterbi decoding over a
//! linear-chain CRF weight table. The executable functions are verified
//! against the specification functions that their contracts name; the few
//! calls into std and `unicode-normalization` go through small trusted
//! wrappers whose doc comments say what they rely on.
pub mod text;
pub mod grammar;
pub mod classify;
pub mod normalize;
pub mod crf;
pub mod tokenizer;
pub mod segmenter;

pub use classify::{classify, Token, TokenType};
pub use crf::{CRFModel, FastCRFSequenceTagger, Label, SequenceTagger};
pub use normalize::{
    character_normalize, normalize_characters_in_text, token_normalize, utf8_normalize, Rules,
    TextNormalizer,
};
pub use segmenter::{text_normalize, VietnameseWordSegmenter};
pub use tokenizer::VietnameseTokenizer;
