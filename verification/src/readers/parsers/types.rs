//! The reader of a bank's statements.

use vstd::prelude::*;
use crate::readers::parsers::hdfcind;
use crate::readers::parsers::hdfcind_pdf::{parse_pdf, text_statement};
use crate::readers::parsers::hdfcind_xls::{parse_xls, table_statement};
use crate::readers::parsers::icicind;
use crate::readers::types::{File, FileData, FileDataView, FileView};
use crate::statement::{Statement, StatementView};
use crate::utils::get_current_datetime;

verus! {

/// The banks whose statement layouts are known.
#[derive(Clone, Copy, Debug, PartialEq, Eq, Structural)]
pub enum BankId {
    HdfcInd,
    IcicInd,
}

/// The reader of one bank's statements.
#[derive(Clone, Copy, Debug, PartialEq, Eq, Structural)]
pub struct Parser {
    pub id: BankId,
}

/// The file is a statement of the bank.
pub open spec fn identifies(id: BankId, file: FileView) -> bool {
    match id {
        BankId::HdfcInd => hdfcind::is_statement(file),
        BankId::IcicInd => icicind::is_statement(file),
    }
}

/// The statement that a bank's reader reads from a file at the moment
/// `now`, or the message of what it cannot read. The layout of ICICI
/// Bank's statements is not known yet, so its reader reads none.
pub open spec fn parsed(id: BankId, file: FileView, now: i64) -> Result<StatementView, Seq<char>> {
    match id {
        BankId::HdfcInd => match file.data {
            FileDataView::Table(table) => table_statement(table, now),
            FileDataView::Text(text) => text_statement(text, now),
        },
        BankId::IcicInd => Err("error.parser.icicind.not_supported"@),
    }
}

/// The result is the outcome expected.
pub open spec fn is_outcome(
    result: Result<Statement, String>,
    expected: Result<StatementView, Seq<char>>,
) -> bool {
    match expected {
        Ok(statement) => result is Ok && result.unwrap()@ == statement,
        Err(message) => result is Err && result.unwrap_err()@ == message,
    }
}

impl Parser {
    /// Reads the statement from a file, as at the moment `now`: a
    /// statement that gives no date is dated `now`.
    pub fn parse_at(&self, file: &File, now: i64) -> (result: Result<Statement, String>)
        ensures
            is_outcome(result, parsed(self.id, file@, now)),
    {
        match self.id {
            BankId::HdfcInd => match &file.data {
                FileData::Table(table) => parse_xls(table, now),
                FileData::Text(text) => parse_pdf(text.as_str(), now),
            },
            BankId::IcicInd => Err("error.parser.icicind.not_supported".to_string()),
        }
    }

    /// Reads the statement from a file. A statement that gives no date is
    /// dated with the moment of the reading.
    pub fn parse(&self, file: &File) -> (result: Result<Statement, String>)
        ensures
            exists|now: i64| is_outcome(result, #[trigger] parsed(self.id, file@, now)),
    {
        let now: i64 = get_current_datetime();
        let result = self.parse_at(file, now);
        assert(is_outcome(result, parsed(self.id, file@, now)));
        result
    }

    /// Whether the file is a statement of this reader's bank.
    pub fn identify(&self, file: &File) -> (result: Result<bool, String>)
        ensures
            result == Ok::<bool, String>(identifies(self.id, file@)),
    {
        match self.id {
            BankId::HdfcInd => hdfcind::identify(file),
            BankId::IcicInd => icicind::identify(file),
        }
    }
}

} // verus!
