//! Statement files as read.

use vstd::prelude::*;

verus! {

/// The kinds of statement file that can be read.
#[derive(Clone, Copy, Debug, PartialEq, Eq, Structural)]
pub enum FileType {
    Xls,
    Pdf,
}

impl FileType {
    /// The file extension of the kind.
    pub fn to_string(&self) -> (name: String)
        ensures
            name@ == (match *self {
                FileType::Xls => "xls"@,
                FileType::Pdf => "pdf"@,
            }),
    {
        match self {
            FileType::Xls => "xls".to_string(),
            FileType::Pdf => "pdf".to_string(),
        }
    }
}

/// What was read from a file: running text, or a table of cells, row by
/// row.
#[derive(Debug)]
pub enum FileData {
    Text(String),
    Table(Vec<Vec<String>>),
}

/// What was read from a file, as characters.
pub enum FileDataView {
    Text(Seq<char>),
    Table(Seq<Seq<Seq<char>>>),
}

impl View for FileData {
    type V = FileDataView;

    open spec fn view(&self) -> FileDataView {
        match self {
            FileData::Text(text) => FileDataView::Text(text@),
            FileData::Table(table) => FileDataView::Table(table.deep_view()),
        }
    }
}

/// A statement file as read.
#[derive(Debug)]
pub struct File {
    pub file_type: FileType,
    pub data: FileData,
}

/// A statement file as read, as characters.
pub struct FileView {
    pub file_type: FileType,
    pub data: FileDataView,
}

impl View for File {
    type V = FileView;

    open spec fn view(&self) -> FileView {
        FileView { file_type: self.file_type, data: self.data@ }
    }
}

} // verus!
