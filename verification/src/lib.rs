//! The rules of a pixel-art desktop: text editing and wrapping, palettes and
//! sprites, calendars, to-do lists, budgets, chat and terminal input, each with
//! a contract that says what it computes.
pub mod alarm;
pub mod bitmap_font;
pub mod budgit;
pub mod chars;
pub mod chat;
pub mod cursor;
pub mod day;
pub mod desktop;
pub mod emojimap;
pub mod fizzle;
pub mod framebuffer;
pub mod fwends;
pub mod fwends_scene;
pub mod gauges;
pub mod graphics;
pub mod hunger;
pub mod image;
pub mod json;
pub mod keysyms;
pub mod layout;
pub mod localtime;
pub mod money;
pub mod now_playing;
pub mod openrouter;
pub mod palette_color;
pub mod paths;
pub mod prompts;
pub mod puter;
pub mod readable;
pub mod sandbox;
pub mod scene;
pub mod senpai;
pub mod stats;
pub mod stretch;
pub mod text;
pub mod text_wrap;
pub mod todo;
pub mod toodle;
pub mod toodle_scene;
pub mod transliterate;
