//! Chord charts: the data model of a song written as a chord chart, the
//! pitch names it uses, and the verified steps that turn a parsed chart into
//! that model.

pub mod chart;
pub mod config;
pub mod data;
pub mod lst;
pub mod render;
pub mod shb;
pub mod songlist;
pub mod text;
pub mod tonic;
pub mod transpose;
pub mod tree;
