//! Refining the prompt of the user.

use vstd::prelude::*;
use vstd::string::*;

use crate::gemini::{model_url, request_url};
use crate::text::{
    in_order, is_blank, is_blank_text, lemma_whole, show_part, trimmed_texts_keep_the_rest,
    white_space,
};

verus! {

/// The model that refines prompts.
pub const METAPROMPT_MODEL: &'static str = "gemini-3.6-flash";

/// What the model that refines prompts is told it is.
pub const METAPROMPT_SYSTEM: &'static str =
    "You are a highly experienced prompt engineer. Use any reference material provided to ground your understanding, then polish and refine the user's prompt.\n                       PROMPT FORMAT:\n                       Return only a single straightforward response. Don't add extra additions to the polished prompt. \n                       Your response must be a SINGLE polished prompt. No multiple versions just the best\n\n                       ";

/// Where the model that refines prompts is called.
pub fn metaprompt_url(api_key: &str) -> (r: String)
    ensures
        r@ == model_url(METAPROMPT_MODEL@) + "?key="@ + api_key@,
{
    let mut out = request_url(METAPROMPT_MODEL);
    out.append("?key=");
    out.append(api_key);
    out
}

/// What is sent to be refined: the prompt, behind the reference material where
/// there is any.
pub open spec fn full_prompt_text(context: Seq<char>, prompt: Seq<char>) -> Seq<char> {
    if is_blank_text(context) {
        prompt
    } else {
        "Reference material:\n"@ + context + "\n\nUser prompt to refine:\n"@ + prompt
    }
}

/// Writes what is sent to be refined.
pub fn full_prompt(context: &str, prompt: &str) -> (r: String)
    ensures
        r@ == full_prompt_text(context@, prompt@),
{
    if is_blank(context) {
        prompt.to_owned()
    } else {
        let mut out = "Reference material:\n".to_owned();
        out.append(context);
        out.append("\n\nUser prompt to refine:\n");
        out.append(prompt);
        out
    }
}

/// The refined prompt: the first part of the first candidate. The candidates
/// come as the texts of their parts.
pub fn refined(candidates: &Vec<Vec<String>>) -> (r: Result<String, String>)
    ensures
        match r {
            Ok(s) => {
                &&& candidates@.len() > 0
                &&& candidates@[0]@.len() > 0
                &&& s@ == candidates@[0]@[0]@
            },
            Err(e) => {
                &&& candidates@.len() == 0 || candidates@[0]@.len() == 0
                &&& e@ == "Gemini returned no candidates"@
            },
        },
{
    if candidates.len() > 0 && candidates[0].len() > 0 {
        return Ok(candidates[0][0].clone());
    }
    Err("Gemini returned no candidates".to_owned())
}

/// The prompt is sent, and the reference material in front of it unless it is
/// blank.
pub proof fn sent_prompts_hold_material_and_prompt(context: Seq<char>, prompt: Seq<char>)
    ensures
        (forall|i: int| 0 <= i < context.len() ==> white_space(#[trigger] context[i]))
            ==> full_prompt_text(context, prompt) == prompt,
        !(forall|i: int| 0 <= i < context.len() ==> white_space(#[trigger] context[i])) ==> in_order(
            full_prompt_text(context, prompt),
            seq!["Reference material:\n"@, context, "\n\nUser prompt to refine:\n"@, prompt],
        ),
{
    trimmed_texts_keep_the_rest(context);
    let mut t = "Reference material:\n"@;
    lemma_whole("Reference material:\n"@);
    let mut p = seq!["Reference material:\n"@];
    show_part(t, p, context);
    t = t + context;
    p = p.push(context);
    show_part(t, p, "\n\nUser prompt to refine:\n"@);
    t = t + "\n\nUser prompt to refine:\n"@;
    p = p.push("\n\nUser prompt to refine:\n"@);
    show_part(t, p, prompt);
    t = t + prompt;
    p = p.push(prompt);
    assert(p =~= seq![
        "Reference material:\n"@,
        context,
        "\n\nUser prompt to refine:\n"@,
        prompt,
    ]);
}

} // verus!
