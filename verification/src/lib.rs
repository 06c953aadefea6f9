//! An interactive terminal line picker's engine: the record store, column
//! projection, literal-substring filtering, pagination, hint-code
//! assignment, the mode machine and the command dispatcher. The terminal
//! itself (raw mode, drawing, key events) is the caller's business; the
//! engine works on plain values and exposes everything a renderer needs.
pub mod commands;
pub mod engine;
pub mod hints;
pub mod modes;
pub mod options;
pub mod picker;
pub mod redraw_action;
pub mod seed;
pub mod text;
pub mod ui;
