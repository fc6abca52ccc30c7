//! ICICI Bank: a reader without a known layout yet.

use vstd::prelude::*;
use crate::readers::parsers::types::{BankId, Parser};
use crate::readers::types::{File, FileView};

verus! {

/// The file is a statement of ICICI Bank. The layout of that bank's
/// statements is not known yet, so no file is.
pub open spec fn is_statement(file: FileView) -> bool {
    false
}

/// Whether the file is a statement of ICICI Bank.
pub fn identify(file: &File) -> (result: Result<bool, String>)
    ensures
        result == Ok::<bool, String>(is_statement(file@)),
{
    Ok(false)
}

/// The reader of ICICI Bank's statements.
pub fn get_parser() -> (parser: Parser)
    ensures
        parser == (Parser { id: BankId::IcicInd }),
{
    Parser { id: BankId::IcicInd }
}

} // verus!
