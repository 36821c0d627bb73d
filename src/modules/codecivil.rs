//! The French Code civil, as Markdown files: the document parser reads it as it is.
use vstd::prelude::*;

use crate::input_source::{Entity, InputFormat, TransformationError, Unformatter};

verus! {

/// The Code civil in Markdown.
pub struct CodeCivil;

impl CodeCivil {
    /// The entity unchanged: Markdown needs no preprocessing.
    pub fn keep(&self, input: &Entity) -> (r: Entity)
        ensures
            r.content == input.content,
            r.position == input.position,
    {
        Entity { content: input.content.clone(), position: input.position.duplicate() }
    }
}

impl Unformatter for CodeCivil {
    open spec fn needs_preprocessing(&self) -> bool {
        false
    }

    open spec fn markup(&self) -> InputFormat {
        InputFormat::Markdown
    }

    open spec fn preprocessed_text(&self, content: Seq<char>) -> Option<Seq<char>> {
        Some(content)
    }

    fn is_preprocessing_required(&self) -> bool {
        false
    }

    fn get_input_format(&self) -> InputFormat {
        InputFormat::Markdown
    }

    fn preprocess(&self, input: &Entity) -> Result<Entity, TransformationError> {
        Ok(self.keep(input))
    }
}

} // verus!
