//! Editing core of a terminal text editor: a line buffer, a cursor, a
//! vertical viewport and the wrapped screen layout of the visible rows.

pub mod cursor;
pub mod editor;
pub mod layout;
pub mod text;
pub mod width;

pub use cursor::Cursor;
pub use editor::{Crab, EditorModel, cell_widths, is_control, lemma_scroll_idempotent, scrolled};
pub use layout::{Frame, Screen, layout, layout_of, lemma_lay_lines_widths};
pub use text::{is_whitespace, lemma_load_lines_valid, lemma_load_text, parse_lines, text_of_lines};
pub use width::cell_width;
