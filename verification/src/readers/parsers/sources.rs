//! The readers that are tried, and the choice of the one for a file.

use vstd::prelude::*;
use crate::readers::parsers::hdfcind;
use crate::readers::parsers::icicind;
use crate::readers::parsers::types::{identifies, BankId, Parser};
use crate::readers::types::{File, FileView};

verus! {

/// The readers, in the order in which they are tried.
pub open spec fn all_parsers() -> Seq<Parser> {
    seq![Parser { id: BankId::HdfcInd }, Parser { id: BankId::IcicInd }]
}

/// The place of the first reader, from `from` on, that identifies the
/// file; the number of readers where none does.
pub open spec fn first_match(parsers: Seq<Parser>, file: FileView, from: int) -> int
    decreases parsers.len() - from,
{
    if from < 0 || from >= parsers.len() {
        parsers.len() as int
    } else if identifies(parsers[from].id, file) {
        from
    } else {
        first_match(parsers, file, from + 1)
    }
}

/// The readers, in the order in which they are tried.
pub fn get_all_parsers() -> (parsers: Vec<Parser>)
    ensures
        parsers@ == all_parsers(),
{
    let mut parsers: Vec<Parser> = Vec::new();
    parsers.push(hdfcind::get_parser());
    parsers.push(icicind::get_parser());
    assert(parsers@ =~= all_parsers());
    parsers
}

/// The reader for a file: the first, in the order of `get_all_parsers`,
/// that identifies it. Refused where none does.
pub fn get_parser(file: &File) -> (result: Result<Parser, String>)
    ensures
        match result {
            Ok(parser) => first_match(all_parsers(), file@, 0) < all_parsers().len() && parser
                == all_parsers()[first_match(all_parsers(), file@, 0)],
            Err(message) => first_match(all_parsers(), file@, 0) == all_parsers().len()
                && message@ == "error.reader.parsers.get_parser.no_matching_parser_found"@,
        },
{
    let parsers = get_all_parsers();
    let mut i: usize = 0;
    while i < parsers.len()
        invariant
            i <= parsers.len(),
            parsers@ == all_parsers(),
            first_match(all_parsers(), file@, 0) == first_match(all_parsers(), file@, i as int),
        decreases parsers.len() - i,
    {
        match parsers[i].identify(file) {
            Ok(true) => {
                return Ok(parsers[i]);
            },
            Ok(false) => {},
            Err(message) => {
                return Err(message);
            },
        }
        i = i + 1;
    }
    Err("error.reader.parsers.get_parser.no_matching_parser_found".to_string())
}

} // verus!
