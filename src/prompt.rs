//! The catalog of summarization instruction templates, chosen by index.
use vstd::prelude::*;
use crate::text::string_views;

verus! {

/// Asks for an in-depth structured outline of a whole transcript.
pub const OUTLINE_PROMPT: &'static str = "Provide an in-depth, summary of the following content in a \
    structured outline. Include any additional relevant information or insight applying the \
    concepts of smart brevity. Enhance the summary by incorporating a conclusion block when \
    necessary to clarify or support explanations. Ignore sponsorship messages and focus on the \
    overall idea \n The output result should be in markdown markup\n";

/// Asks for a comprehensive, detailed outline of a whole transcript.
pub const DETAILED_PROMPT: &'static str = "system: I need you to create a comprehensive, detailed summary \
    of the provided content in a clearly structured outline. Make sure to add any significant \
    information or insights that are related to smart brevity principles. To strengthen the \
    summary, don't hesitate to include a conclusion section if it helps in clarifying or \
    supporting explanations. Please specifically omit any messages pertaining to sponsorship, and \
    prioritize the overarching idea. The finalized product should be delivered in markdown format.";

/// Asks for an outline of one part of a longer transcript.
pub const PARTIAL_PROMPT: &'static str = "system: I need you to create a comprehensive, detailed summary \
    of the provided content in a clearly structured outline. This is a partial input, therefore \
    don't provide introduction or conclusions unless the content mentions it. Please specifically \
    omit any messages pertaining to sponsorship, and prioritize the overarching idea. The \
    finalized product should be delivered in markdown format with top level topics as headers and \
    subtopics as items in a list. Don't use enumerations.";

/// A selector that names no template of the catalog.
#[derive(Debug, Clone, Copy, PartialEq, Eq, Structural)]
pub struct UnknownPromptError {
    pub selector: usize,
    pub available: usize,
}

/// An immutable list of instruction templates; a selector is an index into it.
pub struct PromptCatalog {
    templates: Vec<String>,
}

impl View for PromptCatalog {
    type V = Seq<Seq<char>>;

    closed spec fn view(&self) -> Seq<Seq<char>> {
        string_views(self.templates@)
    }
}

impl PromptCatalog {
    /// A catalog holding `templates`, in order.
    pub fn new(templates: Vec<String>) -> (r: PromptCatalog)
        ensures
            r@ == string_views(templates@),
    {
        PromptCatalog { templates }
    }

    /// The three built-in templates: outline, detailed, partial.
    pub fn builtin() -> (r: PromptCatalog)
        ensures
            r@ == seq![OUTLINE_PROMPT@, DETAILED_PROMPT@, PARTIAL_PROMPT@],
    {
        let mut templates: Vec<String> = Vec::new();
        templates.push(OUTLINE_PROMPT.to_owned());
        templates.push(DETAILED_PROMPT.to_owned());
        templates.push(PARTIAL_PROMPT.to_owned());
        let r = PromptCatalog { templates };
        assert(r@ =~= seq![OUTLINE_PROMPT@, DETAILED_PROMPT@, PARTIAL_PROMPT@]);
        r
    }

    /// The number of templates.
    pub fn len(&self) -> (r: usize)
        ensures
            r == self@.len(),
    {
        self.templates.len()
    }

    /// The template named by `selector`, or an error when there is none.
    pub fn template(&self, selector: usize) -> (r: Result<String, UnknownPromptError>)
        ensures
            selector < self@.len() ==> (r matches Ok(t) && t@ == self@[selector as int]),
            selector >= self@.len() ==> r == Err::<String, UnknownPromptError>(
                UnknownPromptError { selector, available: self@.len() as usize },
            ),
    {
        if selector < self.templates.len() {
            let t = self.templates[selector].clone();
            assert(t@ == self@[selector as int]);
            Ok(t)
        } else {
            Err(UnknownPromptError { selector, available: self.templates.len() })
        }
    }
}

} // verus!
