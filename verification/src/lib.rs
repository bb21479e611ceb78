//! A status bar for X11 that shows the lines it reads from its input. A line
//! is text with a little markup in it, which picks the font, the colour of
//! the font, and the colours of bars behind and under the text.
//!
//! This is the bar's engine, with its proofs: it reads the markup, finds the
//! font face of every character, cuts the text into glyph runs that are each
//! drawn in one face and one colour, and turns the bars from positions in
//! the text into pixels. What only the display can tell, it asks of its
//! caller: which fonts can show a character, and how wide a piece of text
//! is.
//!
//! - `markup` reads the markup of a line.
//! - `faces` keeps the default face of every character and resolves the
//!   faces of a text.
//! - `glyphs` cuts a text into glyph runs.
//! - `rects` places the bars.
//! - `input` holds a line and leads through these steps; `valid_string` does
//!   so for callers that keep no map of default faces.
//! - `config` holds the settings of a bar, `bar` the decisions of the
//!   running bar, `kill_me` the processes to end when it closes.
//! - `runs`, `chars` and `numbers` are what the others stand on.

pub mod chars;
pub mod numbers;
pub mod runs;
pub mod markup;
pub mod faces;
pub mod glyphs;
pub mod rects;
pub mod input;
pub mod valid_string;
pub mod kill_me;
pub mod bar;
pub mod config;

pub use config::Config;
pub use input::Input;
