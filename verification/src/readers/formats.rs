//! The content of statement files: what kind of file it is, the table of
//! a spreadsheet from the workbook that the caller decoded, and the text
//! of a PDF document.

use vstd::prelude::*;
use vstd::string::StringExecFns;
use crate::readers::types::{File, FileData, FileDataView, FileType, FileView};
use crate::text::same_text;

verus! {

/// What `infer::get` makes of the first bytes of a file: the extension of
/// the kind of file that it recognises, or `None`.
pub uninterp spec fn sniffed_extension(bytes: Seq<u8>) -> Option<Seq<char>>;

/// The views of an optional text.
pub open spec fn text_view(text: Option<String>) -> Option<Seq<char>> {
    match text {
        Some(text) => Some(text@),
        None => None,
    }
}

/// Calls `infer::get` on the bytes and hands back the extension of the
/// kind found (`Type::extension`). The contract only gives the result its
/// name. That the call returns for all bytes is taken on trust: for a
/// compound file, `infer` opens it with another decoder.
#[verifier::external_body]
fn sniff_extension(content: &Vec<u8>) -> (extension: Option<String>)
    ensures
        text_view(extension) == sniffed_extension(content@),
{
    infer::get(content).map(|kind| kind.extension().to_string())
}

/// A PDF document as `lopdf` holds it once it is loaded. Nothing of what
/// is inside is known here.
#[verifier::external_type_specification]
#[verifier::external_body]
pub struct ExDocument(lopdf::Document);

/// Calls `lopdf::Document::load_from` on the bytes and hands back the
/// document, or the error that it reports, printed. Nothing is stated of
/// either: the library parses large documents on several threads, and
/// which of two objects with one number it keeps can differ from call to
/// call. That the call returns for all bytes is taken on trust.
#[verifier::external_body]
fn load_document(content: &Vec<u8>) -> (loaded: Result<lopdf::Document, String>) {
    lopdf::Document::load_from(content.as_slice()).map_err(|error| error.to_string())
}

/// Calls `lopdf::Document::is_encrypted`. Nothing is stated of the
/// result.
#[verifier::external_body]
fn document_is_encrypted(document: &lopdf::Document) -> (encrypted: bool) {
    document.is_encrypted()
}

/// Calls `lopdf::Document::decrypt` with the password and hands back the
/// error that it reports, printed, or `None` where it succeeds. Nothing is
/// stated of the result or of the document afterwards.
#[verifier::external_body]
fn decrypt_document(document: &mut lopdf::Document, secret: &str) -> (failure: Option<String>) {
    document.decrypt(secret).err().map(|error| error.to_string())
}

/// The number of entries of `lopdf::Document::get_pages`, which numbers
/// the pages from one. Nothing is stated of the result.
#[verifier::external_body]
fn count_pages(document: &lopdf::Document) -> (pages: u32) {
    document.get_pages().len() as u32
}

/// Calls `lopdf::Document::extract_text` for one page and hands back the
/// text, or `None` where it reports an error. Nothing is stated of the
/// result.
#[verifier::external_body]
fn extract_page(document: &lopdf::Document, page: u32) -> (text: Option<String>) {
    document.extract_text(&[page]).ok()
}

/// The rows of a sheet as characters; `None` for a sheet that could not
/// be read.
pub open spec fn sheet_view(sheet: Option<Vec<Vec<String>>>) -> Option<Seq<Seq<Seq<char>>>> {
    match sheet {
        Some(rows) => Some(rows.deep_view()),
        None => None,
    }
}

/// The sheets of a workbook as characters.
pub open spec fn sheets_view(sheets: Seq<Option<Vec<Vec<String>>>>) -> Seq<
    Option<Seq<Seq<Seq<char>>>>,
> {
    Seq::new(sheets.len(), |i: int| sheet_view(sheets[i]))
}

/// A decoded workbook as characters; `None` for content that is no
/// workbook.
pub open spec fn workbook_view(workbook: Option<Vec<Option<Vec<Vec<String>>>>>) -> Option<
    Seq<Option<Seq<Seq<Seq<char>>>>>,
> {
    match workbook {
        Some(sheets) => Some(sheets_view(sheets@)),
        None => None,
    }
}

/// The rows of the sheets, sheet after sheet; a sheet that could not be
/// read adds nothing.
pub open spec fn sheets_rows(sheets: Seq<Option<Seq<Seq<Seq<char>>>>>) -> Seq<Seq<Seq<char>>>
    decreases sheets.len(),
{
    if sheets.len() == 0 {
        Seq::<Seq<Seq<char>>>::empty()
    } else {
        (match sheets[0] {
            Some(rows) => rows,
            None => Seq::<Seq<Seq<char>>>::empty(),
        }) + sheets_rows(sheets.drop_first())
    }
}

/// The texts of the pages that could be read, page after page; a page
/// whose text could not be extracted adds nothing.
pub open spec fn pages_joined(pages: Seq<Option<Seq<char>>>) -> Seq<char>
    decreases pages.len(),
{
    if pages.len() == 0 {
        Seq::<char>::empty()
    } else {
        pages_joined(pages.drop_last()) + (match pages.last() {
            Some(text) => text,
            None => Seq::<char>::empty(),
        })
    }
}

/// The texts of pages as characters.
pub open spec fn pages_view(pages: Seq<Option<String>>) -> Seq<Option<Seq<char>>> {
    Seq::new(pages.len(), |i: int| text_view(pages[i]))
}

/// The message for a document that cannot be opened, given the error that
/// was reported.
pub open spec fn open_failure(error: Seq<char>) -> Seq<char> {
    "error.reader.formats.read_pdf_content.cannot_open_file: "@ + error
}

/// The message for a document that cannot be decrypted, given the error
/// that was reported.
pub open spec fn decrypt_failure(error: Seq<char>) -> Seq<char> {
    "error.reader.formats.read_pdf_content.cannot_decrypt_file: "@ + error
}

/// What reading a PDF document yields, given how its steps went: the
/// message of the first step that failed, else the text of its pages.
/// Decrypting is a step only for an encrypted document.
pub open spec fn pdf_outcome(
    open_error: Option<Seq<char>>,
    encrypted: bool,
    decrypt_error: Option<Seq<char>>,
    pages: Seq<Option<Seq<char>>>,
) -> Result<Seq<char>, Seq<char>> {
    match open_error {
        Some(error) => Err(open_failure(error)),
        None => if encrypted && decrypt_error is Some {
            Err(decrypt_failure(decrypt_error.unwrap()))
        } else {
            Ok(pages_joined(pages))
        },
    }
}

/// The result is the outcome expected.
pub open spec fn is_text_outcome(
    result: Result<String, String>,
    expected: Result<Seq<char>, Seq<char>>,
) -> bool {
    match expected {
        Ok(text) => result is Ok && result.unwrap()@ == text,
        Err(message) => result is Err && result.unwrap_err()@ == message,
    }
}

/// The result is what reading a PDF document yields for some way in which
/// its steps can go.
pub open spec fn is_pdf_reading(result: Result<String, String>) -> bool {
    exists|
        open_error: Option<Seq<char>>,
        encrypted: bool,
        decrypt_error: Option<Seq<char>>,
        pages: Seq<Option<Seq<char>>>,
    |
        is_text_outcome(result, #[trigger] pdf_outcome(open_error, encrypted, decrypt_error, pages))
}

/// The table of a decoded workbook: the rows of all its sheets, or the
/// message that the content is no workbook.
pub open spec fn xls_table(workbook: Option<Seq<Option<Seq<Seq<Seq<char>>>>>>) -> Result<
    Seq<Seq<Seq<char>>>,
    Seq<char>,
> {
    match workbook {
        Some(sheets) => Ok(sheets_rows(sheets)),
        None => Err("error.reader.read_xls.cannot_open_file"@),
    }
}

/// The file is what reading the content yields. The kind of file follows
/// from the first bytes; a spreadsheet is the table of the workbook that
/// was decoded from it, a PDF document is decoded to a text as
/// `is_pdf_reading` says.
pub open spec fn is_file_read(
    bytes: Seq<u8>,
    workbook: Option<Seq<Option<Seq<Seq<Seq<char>>>>>>,
    result: Result<File, String>,
) -> bool {
    match kind_of(sniffed_extension(bytes)) {
        Some(FileType::Xls) => match xls_table(workbook) {
            Ok(table) => result is Ok && result.unwrap()@ == (FileView {
                file_type: FileType::Xls,
                data: FileDataView::Table(table),
            }),
            Err(message) => result is Err && result.unwrap_err()@ == message,
        },
        Some(FileType::Pdf) => match result {
            Ok(file) => file.file_type == FileType::Pdf && file.data is Text && is_pdf_reading(
                Ok::<String, String>(file.data->Text_0),
            ),
            Err(message) => is_pdf_reading(Err::<String, String>(message)),
        },
        None => result is Err && result.unwrap_err()@ == unsupported_message(
            sniffed_extension(bytes),
        ),
    }
}

/// The table of a workbook that was decoded outside the library: the
/// rows of all its sheets, sheet after sheet, each cell as text. A sheet
/// that could not be read, `None` among the sheets, is left out. Refused
/// where the content was no workbook, `None` for the whole.
pub fn read_xls_content(workbook: Option<Vec<Option<Vec<Vec<String>>>>>) -> (result: Result<
    Vec<Vec<String>>,
    String,
>)
    ensures
        match xls_table(workbook_view(workbook)) {
            Ok(table) => result is Ok && result.unwrap().deep_view() == table,
            Err(message) => result is Err && result.unwrap_err()@ == message,
        },
{
    let mut sheets = match workbook {
        Some(sheets) => sheets,
        None => {
            return Err("error.reader.read_xls.cannot_open_file".to_string());
        },
    };
    let ghost all = sheets_rows(sheets_view(sheets@));
    let mut data: Vec<Vec<String>> = Vec::new();
    assert(data.deep_view() + all =~= all);
    while sheets.len() > 0
        invariant
            all == data.deep_view() + sheets_rows(sheets_view(sheets@)),
        decreases sheets.len(),
    {
        let ghost before = data.deep_view();
        let ghost left = sheets_view(sheets@);
        let sheet = sheets.remove(0);
        assert(sheets_view(sheets@) =~= left.drop_first());
        assert(left[0] == sheet_view(sheet));
        match sheet {
            Some(rows) => {
                let mut rows = rows;
                let ghost more = rows.deep_view();
                data.append(&mut rows);
                assert(data.deep_view() =~= before + more);
                assert(before + (more + sheets_rows(left.drop_first())) =~= (before + more)
                    + sheets_rows(left.drop_first()));
            },
            None => {
                assert(Seq::<Seq<Seq<char>>>::empty() + sheets_rows(left.drop_first())
                    =~= sheets_rows(left.drop_first()));
            },
        }
    }
    assert(data.deep_view() + Seq::<Seq<Seq<char>>>::empty() =~= data.deep_view());
    Ok(data)
}

/// The message for a document that cannot be opened.
pub fn open_failure_message(error: &str) -> (message: String)
    ensures
        message@ == open_failure(error@),
{
    "error.reader.formats.read_pdf_content.cannot_open_file: ".to_string().concat(error)
}

/// The message for a document that cannot be decrypted.
pub fn decrypt_failure_message(error: &str) -> (message: String)
    ensures
        message@ == decrypt_failure(error@),
{
    "error.reader.formats.read_pdf_content.cannot_decrypt_file: ".to_string().concat(error)
}

/// The texts of the pages that could be read, page after page.
pub fn join_pages(pages: &Vec<Option<String>>) -> (text: String)
    ensures
        text@ == pages_joined(pages_view(pages@)),
{
    let ghost view = pages_view(pages@);
    let mut text = String::new();
    let mut i: usize = 0;
    assert(view.take(0) =~= Seq::<Option<Seq<char>>>::empty());
    while i < pages.len()
        invariant
            i <= pages.len(),
            view == pages_view(pages@),
            text@ == pages_joined(view.take(i as int)),
        decreases pages.len() - i,
    {
        proof {
            let part = view.take(i + 1);
            assert(part.drop_last() =~= view.take(i as int));
            assert(part.last() == text_view(pages@[i as int]));
        }
        match &pages[i] {
            Some(page) => {
                text.append(page.as_str());
            },
            None => {
                assert(text@ + Seq::<char>::empty() =~= text@);
            },
        }
        i = i + 1;
    }
    assert(view.take(pages.len() as int) =~= view);
    text
}

/// The text of a PDF document: the text of all its pages, page after
/// page, after decrypting the document with the password where it is
/// encrypted. A page whose text cannot be extracted is left out. Refused
/// with the error reported where the bytes are no document or the
/// password does not decrypt it.
///
/// The document is loaded once. What the outside library makes of the
/// bytes is not stated; the result is formed from it as `pdf_outcome`
/// says.
pub fn read_pdf_content(file_content: &Vec<u8>, file_secret: &str) -> (result: Result<
    String,
    String,
>)
    ensures
        is_pdf_reading(result),
{
    let ghost none: Seq<Option<Seq<char>>> = Seq::empty();
    let mut document = match load_document(file_content) {
        Ok(document) => document,
        Err(error) => {
            let message = open_failure_message(error.as_str());
            assert(is_text_outcome(
                Err::<String, String>(message),
                pdf_outcome(Some(error@), false, None, none),
            ));
            return Err(message);
        },
    };
    let encrypted: bool = document_is_encrypted(&document);
    if encrypted {
        if let Some(error) = decrypt_document(&mut document, file_secret) {
            let message = decrypt_failure_message(error.as_str());
            assert(is_text_outcome(
                Err::<String, String>(message),
                pdf_outcome(None, true, Some(error@), none),
            ));
            return Err(message);
        }
    }
    let count: u32 = count_pages(&document);
    let mut pages: Vec<Option<String>> = Vec::new();
    let mut page: u32 = 0;
    while page < count
        invariant
            page <= count,
        decreases count - page,
    {
        page = page + 1;
        pages.push(extract_page(&document, page));
    }
    let text = join_pages(&pages);
    assert(is_text_outcome(
        Ok::<String, String>(text),
        pdf_outcome(None, encrypted, None, pages_view(pages@)),
    ));
    Ok(text)
}

/// The kind of file that an extension stands for: a spreadsheet for `xls`
/// and `xlsx`, a PDF document for `pdf`.
pub open spec fn kind_of(extension: Option<Seq<char>>) -> Option<FileType> {
    match extension {
        Some(extension) => if extension == "xls"@ || extension == "xlsx"@ {
            Some(FileType::Xls)
        } else if extension == "pdf"@ {
            Some(FileType::Pdf)
        } else {
            None
        },
        None => None,
    }
}

/// The message for a file of a kind that cannot be read.
pub open spec fn unsupported_message(extension: Option<Seq<char>>) -> Seq<char> {
    "error.reader.read_file.unsupported_file_type: "@ + (match extension {
        Some(extension) => "Some(\""@ + extension + "\")"@,
        None => "None"@,
    })
}

/// The kind of file that an extension stands for, or the message that
/// says that files of that kind cannot be read.
pub fn file_type_of(extension: &Option<String>) -> (result: Result<FileType, String>)
    ensures
        match kind_of(text_view(*extension)) {
            Some(kind) => result == Ok::<FileType, String>(kind),
            None => result is Err && result.unwrap_err()@ == unsupported_message(
                text_view(*extension),
            ),
        },
{
    let prefix = "error.reader.read_file.unsupported_file_type: ".to_string();
    match extension {
        Some(extension) => {
            if same_text(extension.as_str(), "xls") || same_text(extension.as_str(), "xlsx") {
                Ok(FileType::Xls)
            } else if same_text(extension.as_str(), "pdf") {
                Ok(FileType::Pdf)
            } else {
                Err(prefix.concat("Some(\"").concat(extension.as_str()).concat("\")"))
            }
        },
        None => Err(prefix.concat("None")),
    }
}

/// The kind of file that the content is, by its first bytes, or the
/// message that says that files of that kind cannot be read.
pub fn content_kind(file_content: &Vec<u8>) -> (result: Result<FileType, String>)
    ensures
        match kind_of(sniffed_extension(file_content@)) {
            Some(kind) => result == Ok::<FileType, String>(kind),
            None => result is Err && result.unwrap_err()@ == unsupported_message(
                sniffed_extension(file_content@),
            ),
        },
{
    let extension = sniff_extension(file_content);
    file_type_of(&extension)
}

/// Reads the content of a statement file: finds out from its first bytes
/// what kind of file it is, takes the table of a spreadsheet from the
/// workbook that was decoded from the content, and decodes a PDF document
/// into its text. `workbook` is what the caller's decoder made of the
/// content, `None` where it made nothing of it; it is read for a
/// spreadsheet only. Refused with the message of the step that failed
/// where the kind is not one that can be read or the content does not
/// decode.
pub fn read_file_content(
    file_content: Vec<u8>,
    file_secret: &str,
    workbook: Option<Vec<Option<Vec<Vec<String>>>>>,
) -> (result: Result<File, String>)
    ensures
        is_file_read(file_content@, workbook_view(workbook), result),
{
    match content_kind(&file_content) {
        Ok(FileType::Xls) => {
            match read_xls_content(workbook) {
                Ok(table) => Ok(File { file_type: FileType::Xls, data: FileData::Table(table) }),
                Err(message) => Err(message),
            }
        },
        Ok(FileType::Pdf) => {
            match read_pdf_content(&file_content, file_secret) {
                Ok(text) => Ok(File { file_type: FileType::Pdf, data: FileData::Text(text) }),
                Err(message) => Err(message),
            }
        },
        Err(message) => Err(message),
    }
}

} // verus!
