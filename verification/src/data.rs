//! The song model: a song is a list of sections, a section a list of lines,
//! a line a list of bars, and a bar holds lyric text, chord blocks, or both.
//!
//! Every type has a mathematical model (its `deep_view`), over which the
//! contracts of the library are stated.

use vstd::prelude::*;

verus! {

/// An extension written after the root of a chord symbol.
#[derive(Debug)]
pub enum ChordExt<'i> {
    /// A recognised keyword such as `maj`, `sus4` or `7`.
    Keyword(&'i str),
    /// An alteration such as `b9`, written in parentheses in the chart.
    Alteration(&'i str),
    /// Text that is not understood.
    Unknown(&'i str),
}

/// A chord symbol: root and bass as pitch classes, the minor flag and the
/// extensions.
#[derive(Debug)]
pub struct Chord<'i> {
    pub root: u8,
    pub bass: u8,
    pub min: bool,
    pub ext: Vec<ChordExt<'i>>,
    pub time: Option<Time>,
}

/// A time mark on a chord.
#[derive(Debug, Clone, Copy)]
pub struct Time {
    pub beat: u8,
    pub num: u8,
    pub den: u8,
}

/// One item of a chord block.
#[derive(Debug)]
pub enum ChordItem<'i> {
    Chord(Chord<'i>),
    ParensOpen,
    ParensClose,
    /// Text in a chord block that is not music.
    Nonmusic(&'i str),
    /// A melody, as the pitch classes of its notes.
    Melody(Vec<u8>),
}

/// A bar of a line: empty, or a list of blocks.
#[derive(Debug)]
pub enum Bar<T> {
    Empty,
    Bar(Vec<T>),
}

/// A line of a section.
#[derive(Debug)]
pub enum Line<'i> {
    /// A horizontal rule.
    Hr,
    /// A line of lyrics only.
    Lyric(Vec<Bar<&'i str>>),
    /// A line of chords only.
    Chord(Vec<Bar<Vec<ChordItem<'i>>>>),
    /// A line where chord blocks stand over lyrics: each block is a chord
    /// block with the lyric under it.
    Compound(Vec<Bar<(Vec<ChordItem<'i>>, &'i str)>>),
}

/// A section of a song, such as a verse or a chorus.
#[derive(Debug)]
pub struct Section<'i> {
    pub id: &'i str,
    pub name: &'i str,
    pub delta_tonic: u8,
    pub lines: Vec<Line<'i>>,
}

/// A song: its name, its tonic, its sections, the index of each section by
/// its id, and named orders of sections.
#[derive(Debug)]
pub struct Song<'i> {
    pub name: &'i str,
    pub tonic: u8,
    pub sections: Vec<Section<'i>>,
    /// Each section id with the index of its section in `sections`.
    pub names: Vec<(String, usize)>,
    /// Named orders of sections, as indices into `sections`.
    pub orders: Vec<(String, Vec<usize>)>,
}

/// An entry of a song list: the song's file id, the tonality to play it
/// in, and an order of sections.
#[derive(Debug)]
pub struct SonglistEntry {
    pub id_file: String,
    pub tonic: Option<u8>,
    pub order: Option<Vec<String>>,
}

/// An entry of an index of songs.
#[derive(Debug)]
pub struct IndexEntry {
    pub path: String,
    pub name: String,
}

// ------------------------------------------------------------------------
// Models

pub enum ChordExtModel {
    Keyword(Seq<char>),
    Alteration(Seq<char>),
    Unknown(Seq<char>),
}

pub struct ChordModel {
    pub root: u8,
    pub bass: u8,
    pub min: bool,
    pub ext: Seq<ChordExtModel>,
    pub time: Option<Time>,
}

pub enum ChordItemModel {
    Chord(ChordModel),
    ParensOpen,
    ParensClose,
    Nonmusic(Seq<char>),
    Melody(Seq<u8>),
}

pub enum BarModel<T> {
    Empty,
    Bar(Seq<T>),
}

pub enum LineModel {
    Hr,
    Lyric(Seq<BarModel<Seq<char>>>),
    Chord(Seq<BarModel<Seq<ChordItemModel>>>),
    Compound(Seq<BarModel<(Seq<ChordItemModel>, Seq<char>)>>),
}

pub struct SectionModel {
    pub id: Seq<char>,
    pub name: Seq<char>,
    pub delta_tonic: u8,
    pub lines: Seq<LineModel>,
}

pub struct SongModel {
    pub name: Seq<char>,
    pub tonic: u8,
    pub sections: Seq<SectionModel>,
    pub names: Seq<(Seq<char>, usize)>,
    pub orders: Seq<(Seq<char>, Seq<usize>)>,
}

pub struct SonglistEntryModel {
    pub id_file: Seq<char>,
    pub tonic: Option<u8>,
    pub order: Option<Seq<Seq<char>>>,
}

impl<'i> DeepView for ChordExt<'i> {
    type V = ChordExtModel;

    open spec fn deep_view(&self) -> ChordExtModel {
        match self {
            ChordExt::Keyword(s) => ChordExtModel::Keyword(s@),
            ChordExt::Alteration(s) => ChordExtModel::Alteration(s@),
            ChordExt::Unknown(s) => ChordExtModel::Unknown(s@),
        }
    }
}

impl DeepView for Time {
    type V = Time;

    open spec fn deep_view(&self) -> Time {
        *self
    }
}

impl<'i> DeepView for Chord<'i> {
    type V = ChordModel;

    open spec fn deep_view(&self) -> ChordModel {
        ChordModel {
            root: self.root,
            bass: self.bass,
            min: self.min,
            ext: self.ext.deep_view(),
            time: self.time,
        }
    }
}

impl<'i> DeepView for ChordItem<'i> {
    type V = ChordItemModel;

    open spec fn deep_view(&self) -> ChordItemModel {
        match self {
            ChordItem::Chord(c) => ChordItemModel::Chord(c.deep_view()),
            ChordItem::ParensOpen => ChordItemModel::ParensOpen,
            ChordItem::ParensClose => ChordItemModel::ParensClose,
            ChordItem::Nonmusic(s) => ChordItemModel::Nonmusic(s@),
            ChordItem::Melody(v) => ChordItemModel::Melody(v@),
        }
    }
}

impl<T: DeepView> DeepView for Bar<T> {
    type V = BarModel<T::V>;

    open spec fn deep_view(&self) -> BarModel<T::V> {
        match self {
            Bar::Empty => BarModel::Empty,
            Bar::Bar(v) => BarModel::Bar(v.deep_view()),
        }
    }
}

impl<'i> DeepView for Line<'i> {
    type V = LineModel;

    open spec fn deep_view(&self) -> LineModel {
        match self {
            Line::Hr => LineModel::Hr,
            Line::Lyric(v) => LineModel::Lyric(v.deep_view()),
            Line::Chord(v) => LineModel::Chord(v.deep_view()),
            Line::Compound(v) => LineModel::Compound(v.deep_view()),
        }
    }
}

impl<'i> DeepView for Section<'i> {
    type V = SectionModel;

    open spec fn deep_view(&self) -> SectionModel {
        SectionModel {
            id: self.id@,
            name: self.name@,
            delta_tonic: self.delta_tonic,
            lines: self.lines.deep_view(),
        }
    }
}

impl<'i> DeepView for Song<'i> {
    type V = SongModel;

    open spec fn deep_view(&self) -> SongModel {
        SongModel {
            name: self.name@,
            tonic: self.tonic,
            sections: self.sections.deep_view(),
            names: self.names.deep_view(),
            orders: self.orders.deep_view(),
        }
    }
}

impl DeepView for SonglistEntry {
    type V = SonglistEntryModel;

    open spec fn deep_view(&self) -> SonglistEntryModel {
        SonglistEntryModel {
            id_file: self.id_file@,
            tonic: self.tonic,
            order: self.order.deep_view(),
        }
    }
}

} // verus!
