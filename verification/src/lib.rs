//! C preprocessing literals, tokens and rendering, plus the artifact and
//! linker-scan logic of the link stage.

pub mod pp;
pub mod text;
pub mod link;
