//! Verified core of a terminal XMPP client: text editing, vim-style
//! motions and registers, colors, terminal string helpers, the cell grid
//! and its redraw, layout math, and the decisions of the chat screen.

pub mod text;
pub mod unicode;
pub mod motion;
pub mod registers;
pub mod vim;
pub mod text_editor;
pub mod layout;
pub mod linear_layout;
pub mod word;
pub mod color;
pub mod input;
pub mod charxel;
pub mod rendering;
pub mod paint;
pub mod label;
pub mod scroll;
pub mod winbar;
pub mod completion;
pub mod disco;
pub mod dimension;
pub mod redraw;
pub mod wrap;
pub mod popup;
pub mod list_view;
pub mod message_text;
pub mod screen;
pub mod ui;
pub mod decimal;
