//! Readers and writers for the asset files of a classic 2D game client.
//!
//! Most assets stand in a container of two streams: a data stream that
//! holds the records, and an index stream whose entries say where each
//! record starts, how long it is, and two values that belong to it
//! ([`mul_reader`]). On that container are built land tiles and static art
//! ([`art`]), gumps ([`gump`]), animations ([`anim`]), textures
//! ([`texmaps`]), skills ([`skills`]) and the statics of a map ([`map`]).
//! Hues ([`hues`]), fonts ([`fonts`]), the properties of tiles
//! ([`tiledata`]) and the ground of a map stand in streams of their own.
//!
//! Every reader works on bytes in memory, and every function says in its
//! contract what it returns for which bytes. Proved of the encoders and
//! decoders together is that they undo each other ([`round_trip`]).
//!
//! Not proved, but taken on trust from the crates that do the work, is how
//! `byteorder` reads and writes little-endian integers ([`wire`]), how
//! `image` keeps pixels ([`canvas`]), and how the standard library tells
//! UTF-8 from other bytes ([`text`]).

pub mod anim;
pub mod art;
pub mod art_and_data;
pub mod byte_helpers;
pub mod canvas;
pub mod color;
pub mod error;
pub mod fonts;
pub mod gump;
pub mod hues;
pub mod map;
pub mod mul_reader;
pub mod round_trip;
pub mod skills;
pub mod texmaps;
pub mod text;
pub mod tiledata;
pub mod utils;
pub mod wire;
