//! Reading statement files: what kind of file it is, what it holds, and
//! which bank's layout it follows.

pub mod types;
pub mod formats;
pub mod parsers;

use vstd::prelude::*;
use crate::readers::formats::{
    is_pdf_reading, kind_of, read_file_content, sniffed_extension, unsupported_message,
    workbook_view, xls_table,
};
use crate::readers::parsers::sources::{all_parsers, first_match, get_parser};
use crate::readers::parsers::types::{is_outcome, parsed};
use crate::readers::types::{FileDataView, FileType, FileView};
use crate::statement::{Statement, StatementView};

verus! {

/// The statement that a file holds, read at the moment `now`: the first
/// reader that identifies the file is chosen, and that reader reads the
/// statement. The message of the step that fails otherwise.
pub open spec fn file_statement(file: FileView, now: i64) -> Result<StatementView, Seq<char>> {
    let place = first_match(all_parsers(), file, 0);
    if place < all_parsers().len() {
        parsed(all_parsers()[place].id, file, now)
    } else {
        Err("error.reader.parsers.get_parser.no_matching_parser_found"@)
    }
}

/// The result is the statement of some text that reading a PDF document
/// can yield, read at some moment, or the message of a document that
/// cannot be read.
pub open spec fn is_document_statement(result: Result<Statement, String>) -> bool {
    ||| result is Err && is_pdf_reading(Err::<String, String>(result.unwrap_err()))
    ||| exists|text: Seq<char>, now: i64|
        is_outcome(
            result,
            #[trigger] file_statement(
                FileView { file_type: FileType::Pdf, data: FileDataView::Text(text) },
                now,
            ),
        )
}

/// The result is the statement that the content of a file holds. The
/// content is decoded, the first reader that identifies the file is
/// chosen, and that reader reads the statement. For a spreadsheet the
/// statement is that of exactly the table of the decoded workbook, read
/// at some moment.
pub open spec fn is_content_statement(
    bytes: Seq<u8>,
    workbook: Option<Seq<Option<Seq<Seq<Seq<char>>>>>>,
    result: Result<Statement, String>,
) -> bool {
    match kind_of(sniffed_extension(bytes)) {
        Some(FileType::Xls) => match xls_table(workbook) {
            Ok(table) => exists|now: i64|
                is_outcome(
                    result,
                    #[trigger] file_statement(
                        FileView { file_type: FileType::Xls, data: FileDataView::Table(table) },
                        now,
                    ),
                ),
            Err(message) => result is Err && result.unwrap_err()@ == message,
        },
        Some(FileType::Pdf) => is_document_statement(result),
        None => result is Err && result.unwrap_err()@ == unsupported_message(
            sniffed_extension(bytes),
        ),
    }
}

/// Reads the statement from the content of a statement file, a
/// spreadsheet or a PDF document; `file_secret` is the password of an
/// encrypted document, and `workbook` is what the caller's decoder made
/// of the content where it is a spreadsheet (see `read_file_content`). A
/// statement that gives no date is dated with the moment of the reading.
pub fn get_statement_from_file_content(
    file_content: Vec<u8>,
    file_secret: &String,
    workbook: Option<Vec<Option<Vec<Vec<String>>>>>,
) -> (result: Result<Statement, String>)
    ensures
        is_content_statement(file_content@, workbook_view(workbook), result),
{
    let file = match read_file_content(file_content, file_secret.as_str(), workbook) {
        Ok(file) => file,
        Err(message) => {
            return Err(message);
        },
    };
    let parser = match get_parser(&file) {
        Ok(parser) => parser,
        Err(message) => {
            assert(is_outcome(Err::<Statement, String>(message), file_statement(file@, 0)));
            return Err(message);
        },
    };
    let result = parser.parse(&file);
    proof {
        let now = choose|now: i64| is_outcome(result, #[trigger] parsed(parser.id, file@, now));
        assert(is_outcome(result, file_statement(file@, now)));
    }
    result
}

} // verus!
