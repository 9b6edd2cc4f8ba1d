//! Move generation: fixed-capacity move buffers, attack tables and the generator.
pub mod generator;
pub mod inline_buffer;
pub mod buffer_laws;
pub mod gen_laws;
pub mod mate_laws;
pub mod draw_laws;
pub mod lists;
pub mod attacks;
pub mod tables;
