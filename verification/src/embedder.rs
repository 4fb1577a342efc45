//! Embedders: the FastEmbed model table, the deterministic mock embedder and
//! the readiness of an embedder that loads in the background.

use vstd::prelude::*;

use crate::hashing::{sha256, sha256_digest};
use crate::text::{chars_of, push_str, str_eq, string_from, string_of, to_ascii_lower, to_ascii_lower_exec};

verus! {

/// A failed embedding.
#[derive(Debug, PartialEq, Eq)]
pub enum EmbedError {
    DimMismatch { expected: usize, got: usize },
    FastEmbed(String),
    Init(String),
}

/// The FastEmbed models this project knows.
#[derive(Debug, Clone, Copy, PartialEq, Eq, Structural)]
pub enum FastEmbedModel {
    BgeSmallEnV15,
    BgeSmallEnV15Q,
    BgeSmallZhV15,
    BgeBaseEnV15,
    BgeBaseEnV15Q,
    BgeLargeEnV15,
    MultilingualE5Small,
    AllMiniLmL6V2,
}

/// The vector size of a known model (by name, any case).
pub open spec fn model_dim(name: Seq<char>) -> Option<usize> {
    let n = to_ascii_lower(name);
    if n == "bge-small-en-v1.5"@ || n == "bge-small-en-v1.5-q"@ || n == "all-minilm-l6-v2"@ {
        Some(384)
    } else if n == "bge-small-zh-v1.5"@ {
        Some(512)
    } else if n == "bge-base-en-v1.5"@ || n == "bge-base-en-v1.5-q"@ {
        Some(768)
    } else if n == "bge-large-en-v1.5"@ {
        Some(1024)
    } else if n == "multilingual-e5-small"@ {
        Some(384)
    } else if n == "multilingual-e5-base"@ {
        Some(768)
    } else {
        None
    }
}

/// The vector size of a known FastEmbed model.
pub fn fastembed_model_dim(name: &str) -> (r: Option<usize>)
    ensures
        r == model_dim(name@),
{
    let n = string_of(&to_ascii_lower_exec(&chars_of(name)));
    let s = n.as_str();
    if str_eq(s, "bge-small-en-v1.5") || str_eq(s, "bge-small-en-v1.5-q") || str_eq(s, "all-minilm-l6-v2") {
        Some(384)
    } else if str_eq(s, "bge-small-zh-v1.5") {
        Some(512)
    } else if str_eq(s, "bge-base-en-v1.5") || str_eq(s, "bge-base-en-v1.5-q") {
        Some(768)
    } else if str_eq(s, "bge-large-en-v1.5") {
        Some(1024)
    } else if str_eq(s, "multilingual-e5-small") {
        Some(384)
    } else if str_eq(s, "multilingual-e5-base") {
        Some(768)
    } else {
        None
    }
}

/// The model a name selects (any case).
pub open spec fn model_named(name: Seq<char>) -> Option<FastEmbedModel> {
    let n = to_ascii_lower(name);
    if n == "bge-small-en-v1.5"@ {
        Some(FastEmbedModel::BgeSmallEnV15)
    } else if n == "bge-small-en-v1.5-q"@ {
        Some(FastEmbedModel::BgeSmallEnV15Q)
    } else if n == "bge-small-zh-v1.5"@ {
        Some(FastEmbedModel::BgeSmallZhV15)
    } else if n == "bge-base-en-v1.5"@ {
        Some(FastEmbedModel::BgeBaseEnV15)
    } else if n == "bge-base-en-v1.5-q"@ {
        Some(FastEmbedModel::BgeBaseEnV15Q)
    } else if n == "bge-large-en-v1.5"@ {
        Some(FastEmbedModel::BgeLargeEnV15)
    } else if n == "multilingual-e5-small"@ {
        Some(FastEmbedModel::MultilingualE5Small)
    } else if n == "all-minilm-l6-v2"@ {
        Some(FastEmbedModel::AllMiniLmL6V2)
    } else {
        None
    }
}

/// The model a name selects; an unknown name is refused with the
/// lowercased name.
pub fn parse_model(name: &str) -> (r: Result<FastEmbedModel, EmbedError>)
    ensures
        match r {
            Ok(m) => model_named(name@) == Some(m),
            Err(EmbedError::FastEmbed(msg)) => model_named(name@) is None && msg@ == "unknown fastembed model: "@
                + to_ascii_lower(name@),
            Err(_) => false,
        },
{
    let n = string_of(&to_ascii_lower_exec(&chars_of(name)));
    let s = n.as_str();
    if str_eq(s, "bge-small-en-v1.5") {
        Ok(FastEmbedModel::BgeSmallEnV15)
    } else if str_eq(s, "bge-small-en-v1.5-q") {
        Ok(FastEmbedModel::BgeSmallEnV15Q)
    } else if str_eq(s, "bge-small-zh-v1.5") {
        Ok(FastEmbedModel::BgeSmallZhV15)
    } else if str_eq(s, "bge-base-en-v1.5") {
        Ok(FastEmbedModel::BgeBaseEnV15)
    } else if str_eq(s, "bge-base-en-v1.5-q") {
        Ok(FastEmbedModel::BgeBaseEnV15Q)
    } else if str_eq(s, "bge-large-en-v1.5") {
        Ok(FastEmbedModel::BgeLargeEnV15)
    } else if str_eq(s, "multilingual-e5-small") {
        Ok(FastEmbedModel::MultilingualE5Small)
    } else if str_eq(s, "all-minilm-l6-v2") {
        Ok(FastEmbedModel::AllMiniLmL6V2)
    } else {
        let mut out = chars_of("unknown fastembed model: ");
        push_str(&mut out, s);
        Err(EmbedError::FastEmbed(string_of(&out)))
    }
}

/// A FastEmbed embedder's identity: its model, its id and its vector size.
#[derive(Debug, Clone, PartialEq)]
pub struct FastEmbedder {
    pub model: FastEmbedModel,
    pub id: String,
    pub dim: usize,
}

impl FastEmbedder {
    /// The embedder for a model name: the model must be known and have a
    /// known vector size; its id is `fastembed:<name>`.
    pub fn try_new(model_name: &str) -> (r: Result<FastEmbedder, EmbedError>)
        ensures
            match r {
                Ok(e) => model_named(model_name@) == Some(e.model) && model_dim(model_name@) == Some(e.dim)
                    && e.id@ == "fastembed:"@ + model_name@,
                Err(EmbedError::FastEmbed(m)) => model_named(model_name@) is None || model_dim(model_name@) is None,
                Err(_) => false,
            },
    {
        let model = parse_model(model_name)?;
        let dim = match fastembed_model_dim(model_name) {
            Some(d) => d,
            None => {
                let mut out = chars_of("unknown dimension for model: ");
                push_str(&mut out, model_name);
                return Err(EmbedError::FastEmbed(string_of(&out)));
            },
        };
        let mut id = chars_of("fastembed:");
        push_str(&mut id, model_name);
        Ok(FastEmbedder { model, id: string_of(&id), dim })
    }
}

/// The deterministic embedder used in tests.
#[derive(Debug, Clone, Copy, PartialEq, Eq)]
pub struct MockEmbedder {
    dim: usize,
}

impl MockEmbedder {
    pub fn new(dim: usize) -> (r: Self)
        ensures
            r.dim() == dim,
    {
        MockEmbedder { dim }
    }

    pub closed spec fn spec_dim(&self) -> usize {
        self.dim
    }

    #[verifier::when_used_as_spec(spec_dim)]
    pub fn dim(&self) -> (r: usize)
        ensures
            r == self.spec_dim(),
    {
        self.dim
    }

    pub fn id(&self) -> (r: &str)
        ensures
            r@ == "mock:v1"@,
    {
        "mock:v1"
    }

    /// The bytes a text's vector is made from: the SHA-256 digest of its
    /// UTF-8 bytes, repeated to the embedder's size. Each becomes `byte / 255`
    /// before the vector is scaled to unit length.
    pub fn embedding_bytes(&self, text: &str) -> (r: Vec<u8>)
        ensures
            r@.len() == self.spec_dim(),
            forall|i: int| 0 <= i < self.spec_dim() ==> #[trigger] r@[i] == sha256(vstd::utf8::encode_utf8(text@))[i % 32],
    {
        let digest = sha256_digest(text.as_bytes());
        let mut out: Vec<u8> = Vec::new();
        let mut i: usize = 0;
        while i < self.dim
            invariant
                i <= self.dim,
                digest@ == sha256(vstd::utf8::encode_utf8(text@)),
                digest@.len() == 32,
                out@.len() == i,
                forall|k: int| 0 <= k < i ==> #[trigger] out@[k] == digest@[k % 32],
            decreases self.dim - i,
        {
            out.push(digest[i % 32]);
            i = i + 1;
        }
        out
    }
}

/// Whether a background-loaded embedder is usable.
#[derive(Debug, Clone, PartialEq, Eq)]
pub enum EmbedderReadyState {
    Pending,
    Ready,
    Failed { message: String },
}

/// What a caller waiting for the embedder does next.
#[derive(Debug, PartialEq, Eq)]
pub enum WaitStep {
    /// The embedder is there: use it.
    Use,
    /// Keep waiting.
    Wait,
    /// Give up with this error.
    GiveUp(EmbedError),
}

/// The next step of a wait, given the state and whether the wait timed out.
pub fn wait_step(state: &EmbedderReadyState, timed_out: bool) -> (r: WaitStep)
    ensures
        match state {
            EmbedderReadyState::Ready => r == WaitStep::Use,
            EmbedderReadyState::Failed { message } => r matches WaitStep::GiveUp(EmbedError::Init(m))
                && m@ == "deferred embedder failed: "@ + message@,
            EmbedderReadyState::Pending => if timed_out {
                r matches WaitStep::GiveUp(EmbedError::Init(m)) && m@ == "timed out waiting for embedder init"@
            } else {
                r == WaitStep::Wait
            },
        },
{
    match state {
        EmbedderReadyState::Ready => WaitStep::Use,
        EmbedderReadyState::Failed { message } => {
            let mut out = chars_of("deferred embedder failed: ");
            push_str(&mut out, message.as_str());
            WaitStep::GiveUp(EmbedError::Init(string_of(&out)))
        },
        EmbedderReadyState::Pending => {
            if timed_out {
                WaitStep::GiveUp(EmbedError::Init(string_from("timed out waiting for embedder init")))
            } else {
                WaitStep::Wait
            }
        },
    }
}


/// Why a batch of returned embeddings is refused.
#[derive(Debug, Clone, Copy, PartialEq, Eq, Structural)]
pub enum EmbeddingsFault {
    /// Not one embedding per text.
    WrongCount { expected: usize, got: usize },
    /// An embedding says it belongs to a text that was not sent.
    IndexOutOfRange { index: usize },
    /// An embedding of the wrong size.
    DimMismatch { expected: usize, got: usize },
}

/// The first fault, scanning the items `(index, length)` in order after
/// the count.
pub open spec fn item_fault(n: usize, items: Seq<(usize, usize)>, dim: usize) -> Option<EmbeddingsFault>
    decreases items.len(),
{
    if items.len() == 0 {
        None
    } else {
        match item_fault(n, items.drop_last(), dim) {
            Some(f) => Some(f),
            None => {
                let (index, len) = items.last();
                if index >= n {
                    Some(EmbeddingsFault::IndexOutOfRange { index })
                } else if len != dim {
                    Some(EmbeddingsFault::DimMismatch { expected: dim, got: len })
                } else {
                    None
                }
            },
        }
    }
}

/// Checks the embeddings a service returned for `n_texts` texts, each item
/// given as its index and its length: one per text, each index in range,
/// each of size `dim`.
pub fn check_embeddings(n_texts: usize, items: &[(usize, usize)], dim: usize) -> (r: Result<(), EmbeddingsFault>)
    ensures
        items@.len() != n_texts ==> r == Err::<(), EmbeddingsFault>(
            EmbeddingsFault::WrongCount { expected: n_texts, got: items@.len() as usize },
        ),
        items@.len() == n_texts ==> r == match item_fault(n_texts, items@, dim) {
            Some(f) => Err::<(), EmbeddingsFault>(f),
            None => Ok(()),
        },
{
    if items.len() != n_texts {
        return Err(EmbeddingsFault::WrongCount { expected: n_texts, got: items.len() });
    }
    let mut i: usize = 0;
    while i < items.len()
        invariant
            i <= items@.len(),
            items@.len() == n_texts,
            item_fault(n_texts, items@.take(i as int), dim) is None,
        decreases items.len() - i,
    {
        assert(items@.take(i + 1).drop_last() =~= items@.take(i as int));
        let (index, len) = items[i];
        assert(items@.take(i + 1).last() == (index, len));
        if index >= n_texts {
            proof {
                assert(item_fault(n_texts, items@.take(i + 1), dim) == Some(EmbeddingsFault::IndexOutOfRange { index }));
                lemma_fault_kept(n_texts, items@, dim, i + 1);
            }
            return Err(EmbeddingsFault::IndexOutOfRange { index });
        }
        if len != dim {
            proof {
                assert(item_fault(n_texts, items@.take(i + 1), dim) == Some(EmbeddingsFault::DimMismatch { expected: dim, got: len }));
                lemma_fault_kept(n_texts, items@, dim, i + 1);
            }
            return Err(EmbeddingsFault::DimMismatch { expected: dim, got: len });
        }
        i = i + 1;
    }
    assert(items@.take(items@.len() as int) =~= items@);
    Ok(())
}

proof fn lemma_fault_kept(n: usize, items: Seq<(usize, usize)>, dim: usize, j: int)
    requires
        0 <= j <= items.len(),
        item_fault(n, items.take(j), dim) is Some,
    ensures
        item_fault(n, items, dim) == item_fault(n, items.take(j), dim),
    decreases items.len() - j,
{
    if j < items.len() {
        assert(items.take(j + 1).drop_last() =~= items.take(j));
        lemma_fault_kept(n, items, dim, j + 1);
    } else {
        assert(items.take(j) =~= items);
    }
}

} // verus!
