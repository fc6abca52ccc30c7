//! HDFC Bank: recognising its statements.

use vstd::prelude::*;
use crate::readers::parsers::types::{BankId, Parser};
use crate::readers::types::{File, FileData, FileDataView, FileType, FileView};
use crate::text::{contains, contains_text};

verus! {

/// The file is a statement of HDFC Bank: a spreadsheet whose first cell
/// names the bank, or the text of a PDF document that holds the title of
/// a statement of account and the bank's name.
pub open spec fn is_statement(file: FileView) -> bool {
    match file.data {
        FileDataView::Table(table) => file.file_type == FileType::Xls && table.len() > 0
            && table[0].len() > 0 && contains_text(table[0][0], "HDFC BANK Ltd."@),
        FileDataView::Text(text) => file.file_type == FileType::Pdf && contains_text(
            text,
            "Statementofaccount"@,
        ) && contains_text(text, "HDFCBANKLIMITED"@),
    }
}

/// Whether the file is a statement of HDFC Bank.
pub fn identify(file: &File) -> (result: Result<bool, String>)
    ensures
        result == Ok::<bool, String>(is_statement(file@)),
{
    match &file.data {
        FileData::Table(table) => {
            let is_xls: bool = match file.file_type {
                FileType::Xls => true,
                FileType::Pdf => false,
            };
            if !is_xls || table.len() == 0 || table[0].len() == 0 {
                return Ok(false);
            }
            assert(table.deep_view()[0][0] == table@[0]@[0]@);
            Ok(contains(table[0][0].as_str(), "HDFC BANK Ltd."))
        },
        FileData::Text(text) => {
            let is_pdf: bool = match file.file_type {
                FileType::Xls => false,
                FileType::Pdf => true,
            };
            Ok(
                is_pdf && contains(text.as_str(), "Statementofaccount") && contains(
                    text.as_str(),
                    "HDFCBANKLIMITED",
                ),
            )
        },
    }
}

/// The reader of HDFC Bank's statements.
pub fn get_parser() -> (parser: Parser)
    ensures
        parser == (Parser { id: BankId::HdfcInd }),
{
    Parser { id: BankId::HdfcInd }
}

} // verus!
