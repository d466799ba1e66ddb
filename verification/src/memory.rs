pub mod hole_spec;
pub mod hole_lemmas;
pub mod heap;
