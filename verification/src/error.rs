//! What can go wrong before or during a pass, and how it is said.
use crate::kv::KvError;
use crate::text::push_decimal;
#[allow(unused_imports)]
use crate::text::decimal;
use vstd::prelude::*;

verus! {

/// Why an architecture could not be run.
#[derive(Debug)]
pub enum ArchError {
    /// The container declares an architecture there is no implementation for.
    Unsupported(String),
    /// A tensor the architecture requires is absent from the container.
    MissingTensor(String),
    /// Metadata needed to build the graph is absent.
    MissingMetadata(String),
    /// The container could not be read; its own account of why.
    Model(String),
    /// The tensor library refused; its own account of why.
    Ggml(String),
    /// The key/value history rejected an append.
    Kv(KvError),
    /// More tokens than the attention window this architecture can hold.
    ContextTooLong { tokens: usize, limit: usize },
    /// A path that is deliberately refused rather than silently approximated.
    Unimplemented(&'static str),
}

/// Results that fail with an [`ArchError`].
pub type Result<T> = std::result::Result<T, ArchError>;

/// `text` quoted and escaped as Rust's `Debug` writes a string.
pub uninterp spec fn debug_text(text: Seq<char>) -> Seq<char>;

/// Quotes `text`: `format!` with `{:?}` on a string, which is a function of the
/// string alone. Which characters it escapes is left to `std`.
#[verifier::external_body]
pub(crate) fn quoted(text: &str) -> (out: String)
    ensures
        out@ == debug_text(text@),
{
    format!("{text:?}")
}

impl ArchError {
    /// What the error says.
    pub open spec fn message_text(self) -> Seq<char> {
        match self {
            ArchError::Unsupported(a) => "no implementation for architecture "@ + debug_text(a@)
                + " (add one in bigtea-arch)"@,
            ArchError::MissingTensor(t) => "container has no tensor "@ + debug_text(t@),
            ArchError::MissingMetadata(k) => "container has no metadata key "@ + debug_text(k@),
            ArchError::Model(e) => e@,
            ArchError::Ggml(e) => e@,
            ArchError::Kv(e) => e.message_text(),
            ArchError::Unimplemented(what) => "not implemented: "@ + what@,
            ArchError::ContextTooLong { tokens, limit } => "prompt is "@ + decimal(tokens as nat)
                + " tokens; this path holds "@ + decimal(limit as nat)
                + ". DeepSeek-V4-Flash builds its attention cache for the whole sequence at once, so "@
                + decimal(limit as nat)
                + " is the ceiling until the KV cache lands. Shorten the prompt, or use -f with a smaller file."@,
        }
    }

    /// What the error says.
    pub fn message(&self) -> (text: String)
        ensures
            text@ == self.message_text(),
    {
        let mut text = String::new();
        match self {
            ArchError::Unsupported(a) => {
                text.append("no implementation for architecture ");
                text.append(quoted(a.as_str()).as_str());
                text.append(" (add one in bigtea-arch)");
            },
            ArchError::MissingTensor(t) => {
                text.append("container has no tensor ");
                text.append(quoted(t.as_str()).as_str());
            },
            ArchError::MissingMetadata(k) => {
                text.append("container has no metadata key ");
                text.append(quoted(k.as_str()).as_str());
            },
            ArchError::Model(e) => text.append(e.as_str()),
            ArchError::Ggml(e) => text.append(e.as_str()),
            ArchError::Kv(e) => text.append(e.message().as_str()),
            ArchError::Unimplemented(what) => {
                text.append("not implemented: ");
                text.append(what);
            },
            ArchError::ContextTooLong { tokens, limit } => {
                text.append("prompt is ");
                push_decimal(&mut text, *tokens as u64);
                text.append(" tokens; this path holds ");
                push_decimal(&mut text, *limit as u64);
                text.append(
                    ". DeepSeek-V4-Flash builds its attention cache for the whole sequence at once, so ",
                );
                push_decimal(&mut text, *limit as u64);
                text.append(
                    " is the ceiling until the KV cache lands. Shorten the prompt, or use -f with a smaller file.",
                );
            },
        }
        assert(text@ =~= self.message_text());
        text
    }
}

} // verus!
