//! Input sources: the preprocessing that each kind of source needs before its documents can be
//! flattened, and the decisions of the readers that pull documents out of containers.

pub mod codecivil;
pub mod dgt;
pub mod europeana;
pub mod gutenberg;
pub mod wikipedia;
