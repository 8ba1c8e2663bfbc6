//! Summaries of texts, where no model is at hand to write them.

use crate::text::{lemmas, model, ops};
use vstd::prelude::*;

verus! {

/// Summarises by cutting.
#[derive(Debug)]
pub struct DirectSamplerSummarizer {
    /// The model that is meant to summarise.
    pub model: String,
    /// How long a summary may be.
    pub max_tokens: u32,
}

/// What a model is asked in order to summarise a text.
pub open spec fn full_prompt(prompt: Seq<char>, content: Seq<char>, max_tokens: u32) -> Seq<char> {
    prompt + "\n\n"@ + content + "\n\n请用简洁的中文总结以上内容的要点，不超过 "@ + model::decimal(
        max_tokens as nat,
    ) + " 个字："@
}

/// The text itself if it has no more bytes than allowed; otherwise its first
/// characters, as many as allowed.
pub open spec fn cut_summary(content: Seq<char>, max_tokens: u32) -> Seq<char> {
    if model::byte_len(content) <= max_tokens {
        content
    } else if content.len() <= max_tokens {
        "[摘要] "@ + content + "..."@
    } else {
        "[摘要] "@ + content.take(max_tokens as int) + "..."@
    }
}

impl DirectSamplerSummarizer {
    /// A summarizer for a model.
    pub fn new(model: String, max_tokens: u32) -> (r: Self)
        ensures
            r.model@ == model@,
            r.max_tokens == max_tokens,
    {
        DirectSamplerSummarizer { model, max_tokens }
    }

    /// What a model is asked in order to summarise a text.
    pub fn full_prompt(&self, prompt: &str, content: &str) -> (r: String)
        ensures
            r@ == full_prompt(prompt@, content@, self.max_tokens),
    {
        let limit = ops::decimal(self.max_tokens as usize);
        let start = ops::concat4(
            prompt,
            "\n\n",
            content,
            "\n\n请用简洁的中文总结以上内容的要点，不超过 ",
        );
        ops::concat3(start.as_str(), limit.as_str(), " 个字：")
    }

    /// The summary of a text.
    pub fn summarize(&self, content: &str) -> (r: String)
        ensures
            r@ == cut_summary(content@, self.max_tokens),
    {
        let chars = ops::chars_of(content);
        let limit: usize = self.max_tokens as usize;
        if ops::byte_len(chars.as_slice()) <= limit {
            return ops::string_of(chars.as_slice());
        }
        if chars.len() <= limit {
            return ops::concat3("[摘要] ", content, "...");
        }
        let start = ops::string_of(ops::take(chars.as_slice(), limit));
        ops::concat3("[摘要] ", start.as_str(), "...")
    }
}

/// A text that is short enough is its own summary; of a longer one as many characters
/// stand in the summary as there may be, between two marks.
pub proof fn law_summary_keeps_the_beginning(content: Seq<char>, max_tokens: u32)
    ensures
        model::byte_len(content) <= max_tokens ==> cut_summary(content, max_tokens) == content,
        model::byte_len(content) > max_tokens ==> cut_summary(content, max_tokens) == "[摘要] "@
            + content.take(
            if content.len() <= max_tokens {
                content.len() as int
            } else {
                max_tokens as int
            },
        ) + "..."@,
{
    assert(content.take(content.len() as int) =~= content);
}

/// A model is asked to summarise by the prompt, the whole text and the length that the
/// summary may have, in this order.
pub proof fn law_whole_text_is_summarised(prompt: Seq<char>, content: Seq<char>, max_tokens: u32)
    ensures
        model::starts_with(full_prompt(prompt, content, max_tokens), prompt + "\n\n"@ + content),
        model::contains(
            full_prompt(prompt, content, max_tokens),
            model::decimal(max_tokens as nat),
        ),
{
    let s = full_prompt(prompt, content, max_tokens);
    let a = prompt + "\n\n"@ + content;
    let b = a + "\n\n请用简洁的中文总结以上内容的要点，不超过 "@;
    let d = model::decimal(max_tokens as nat);
    assert(s.take(a.len() as int) =~= a);
    assert(s.subrange(b.len() as int, (b + d).len() as int) =~= d);
    lemmas::lemma_found(s, d, 0, b.len() as int);
}

} // verus!
