//! The logic of an encrypted clipboard history that keeps itself in step
//! across the devices of one person.
use vstd::prelude::*;

pub mod clipboard;
pub mod commands;
pub mod crypto;
pub mod db;
pub mod dib;
pub mod discovery;
pub mod download;
pub mod history;
pub mod image_util;
pub mod laws;
pub mod model;
pub mod network;
pub mod password;
pub mod primitives;
pub mod seqs;
pub mod settings;
pub mod storage;
pub mod sync;
pub mod tables;
pub mod text;
pub mod wire;

verus! {

} // verus!
