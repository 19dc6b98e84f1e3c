//! The older front-ends: a picker over the PipeWire graph, a small window, and
//! a headless typer.

pub mod source;
pub mod typer;
pub mod window;
