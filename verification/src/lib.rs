//! The logic of a server-driven user interface: scenes, expressions, interaction
//! and what a screen, a screen reader and a document are told about them.
//!
//! A scene is a tree of frames, texts, images and conditions ([`scene`]) beside a
//! state, and stands in a JSON file ([`wire`], [`format`], [`reading`], [`save`],
//! [`scene_text`]). Expressions are evaluated by an engine ([`engine`], [`cel`])
//! and fill the texts ([`template`]) and choose the branches ([`resolve`]). The
//! resolved tree is flattened into drawing order ([`flat`]), pointed at
//! ([`interact`]), clicked, and rebuilt from the changed state ([`mutate`],
//! [`session`]).
//!
//! The contracts speak of models: a text is a sequence of characters, a map of
//! names is a `Map`, a scene is a tree of models. Numbers on the screen are
//! values of a type with [`coord::Coord`].

pub mod args;
pub mod ax;
pub mod cel;
pub mod commands;
pub mod coord;
pub mod dump;
pub mod engine;
pub mod flat;
pub mod format;
pub mod ids;
pub mod images;
pub mod interact;
pub mod json;
pub mod json_text;
pub mod mirror;
pub mod mutate;
pub mod number;
pub mod order;
pub mod paint;
pub mod path;
pub mod reading;
pub mod resolve;
pub mod save;
pub mod scene;
pub mod scene_text;
pub mod session;
pub mod show;
pub mod strmap;
pub mod surface;
pub mod template;
pub mod text;
pub mod value;
pub mod warning;
pub mod wire;
