//! What the disk told the node.
//!
//! The node never touches the filesystem. Each operation says which file it
//! needs read, and the caller hands back one of these values.

use crate::file_info::{FileInfo, FileInfoView};
use vstd::prelude::*;

verus! {

/// What came of reading a chunk file.
#[derive(Debug, PartialEq)]
pub enum ReadOutcome {
    /// The file was read in full; these are its bytes.
    Data(Vec<u8>),
    /// There is no file at the path.
    Missing,
    /// The file is there, or may be, and could not be read.
    Failed,
}

/// What a `ReadOutcome` holds.
pub enum ReadView {
    Data(Seq<u8>),
    Missing,
    Failed,
}

impl View for ReadOutcome {
    type V = ReadView;

    open spec fn view(&self) -> ReadView {
        match *self {
            ReadOutcome::Data(bytes) => ReadView::Data(bytes@),
            ReadOutcome::Missing => ReadView::Missing,
            ReadOutcome::Failed => ReadView::Failed,
        }
    }
}

/// What came of loading a metadata record from its file.
#[derive(Debug, PartialEq)]
pub enum LoadOutcome {
    /// The file was read and held this record.
    Record(FileInfo),
    /// There is no file at the path.
    Missing,
    /// The file is there, or may be, and could not be read.
    Unreadable,
    /// The file was read and does not hold a record.
    Corrupt,
}

/// What a `LoadOutcome` holds.
pub enum LoadView {
    Record(FileInfoView),
    Missing,
    Unreadable,
    Corrupt,
}

impl View for LoadOutcome {
    type V = LoadView;

    open spec fn view(&self) -> LoadView {
        match *self {
            LoadOutcome::Record(info) => LoadView::Record(info@),
            LoadOutcome::Missing => LoadView::Missing,
            LoadOutcome::Unreadable => LoadView::Unreadable,
            LoadOutcome::Corrupt => LoadView::Corrupt,
        }
    }
}

/// What a working disk answers when the file at `path` is read.
pub open spec fn read_of(files: Map<Seq<char>, Seq<u8>>, path: Seq<char>) -> ReadView {
    if files.contains_key(path) {
        ReadView::Data(files[path])
    } else {
        ReadView::Missing
    }
}

/// What a working disk answers when the record at `path` is loaded.
pub open spec fn load_of(records: Map<Seq<char>, FileInfoView>, path: Seq<char>) -> LoadView {
    if records.contains_key(path) {
        LoadView::Record(records[path])
    } else {
        LoadView::Missing
    }
}

} // verus!
