use calamine::{Reader, Xls};
use networth_db::readers::formats::{
    content_kind, file_type_of, read_file_content, read_pdf_content, read_xls_content,
};
use networth_db::readers::parsers::hdfcind::get_parser;
use networth_db::readers::parsers::sources::get_all_parsers;
use networth_db::readers::parsers::types::{BankId, Parser};
use networth_db::readers::types::{File, FileData, FileType};

fn common_pdf_data() -> FileData {
    FileData::Text("\nDate \nNarration \nChq./Ref.No. \nValueDt \nWithdrawalAmt. \nDepositAmt. \nClosingBalance \n01/01/23 \nUPI-TESTUSER-TEST@BANK \n0000000000000001 \n01/01/23 \n1,000.00 \n10,000.00 \nTEST-TRANSACTION-1 \n02/01/23 \nNEFT-TESTBANK-TESTUSER \n0000000000000002 \n02/01/23 \n500.00 \n9,500.00 \n03/01/23 \nPOS-TESTSHOP-TESTCITY \n0000000000000003 \n03/01/23 \n200.009,700.00 \nTEST-TRANSACTION-3\n\nTestMore\nPageNo.:1Statementofaccount \nMR.Tester TesterAddress JOINTHOLDERS: Holder1 Nomination:Nomination1 StatementFrom:01/04/1900To:31/03/1910 \nAccountBranch:Branch Address ODLimit:10Currency:INR Email:email@example.com CustID:12345 AccountNo:123456789 A/COpenDate:11/01/1900 AccountStatus:Regular RTGS/NEFTIFSC :HDFC0000001MICR:1000000 BranchCode:000ProductCode:100 HDFCBANKLIMITED *Closingbalanceincludesfundsearmarkedforholdandunclearedfunds Contentsofthisstatementwillbeconsideredcorrectifnoerrorisreportedwithin30daysofreceiptofstatement.TheaddressonthisstatementisthatonrecordwiththeBankasatthedayofrequesting thisstatement. StateaccountbranchGSTN:12345 HDFCBankGSTINnumberdetailsareavailableathttps://www.hdfcbank.com/personal/making-payments/online-tax-payment/goods-and-service-tax. RegisteredOfficeAddress:HDFCBankHouse,SenapatiBapatMarg,LowerParel,Mumbai400013".to_string())
}

#[test]
fn tests_test_identify_valid_file() {
    let file = File {
        file_type: FileType::Xls,
        data: FileData::Table(vec![
            vec!["HDFC BANK Ltd.".to_string()],
            vec!["Some other data".to_string()],
        ]),
    };

    let parser = get_parser();
    assert!(parser.identify(&file).unwrap());
}

#[test]
fn tests_test_identify_invalid_file_content() {
    let file = File {
        file_type: FileType::Xls,
        data: FileData::Table(vec![
            vec!["Some other bank".to_string()],
            vec!["Some other data".to_string()],
        ]),
    };

    let parser = get_parser();
    assert!(!parser.identify(&file).unwrap());
}

#[test]
fn test_identify_valid_file() {
    let file = File { file_type: FileType::Pdf, data: common_pdf_data() };

    let parser = get_parser();
    assert!(parser.identify(&file).unwrap());
}

#[test]
fn test_identify_invalid_file_content() {
    let file = File {
        file_type: FileType::Xls,
        data: FileData::Text("Some other bank".to_string()),
    };

    let parser = get_parser();
    assert!(!parser.identify(&file).unwrap());
}

#[test]
fn identification_needs_the_right_kind_of_file() {
    let parser = get_parser();
    let table_in_pdf = File {
        file_type: FileType::Pdf,
        data: FileData::Table(vec![vec!["HDFC BANK Ltd.".to_string()]]),
    };
    assert!(!parser.identify(&table_in_pdf).unwrap());
    let text_in_xls = File { file_type: FileType::Xls, data: common_pdf_data() };
    assert!(!parser.identify(&text_in_xls).unwrap());
    let empty = File { file_type: FileType::Xls, data: FileData::Table(vec![]) };
    assert!(!parser.identify(&empty).unwrap());
    let empty_row = File { file_type: FileType::Xls, data: FileData::Table(vec![vec![]]) };
    assert!(!parser.identify(&empty_row).unwrap());
    let half = File {
        file_type: FileType::Pdf,
        data: FileData::Text("Statementofaccount of another bank".to_string()),
    };
    assert!(!parser.identify(&half).unwrap());
}

#[test]
fn first_matching_reader_is_chosen() {
    let readers = get_all_parsers();
    assert_eq!(readers, vec![Parser { id: BankId::HdfcInd }, Parser { id: BankId::IcicInd }]);
    let file = File { file_type: FileType::Pdf, data: common_pdf_data() };
    assert_eq!(
        networth_db::readers::parsers::sources::get_parser(&file),
        Ok(Parser { id: BankId::HdfcInd })
    );
    let unknown = File { file_type: FileType::Pdf, data: FileData::Text("x".to_string()) };
    assert_eq!(
        networth_db::readers::parsers::sources::get_parser(&unknown),
        Err("error.reader.parsers.get_parser.no_matching_parser_found".to_string())
    );
    assert!(!Parser { id: BankId::IcicInd }.identify(&file).unwrap());
}

#[test]
fn kinds_of_file_by_extension() {
    assert_eq!(file_type_of(&Some("xls".to_string())), Ok(FileType::Xls));
    assert_eq!(file_type_of(&Some("xlsx".to_string())), Ok(FileType::Xls));
    assert_eq!(file_type_of(&Some("pdf".to_string())), Ok(FileType::Pdf));
    assert_eq!(
        file_type_of(&Some("zip".to_string())),
        Err("error.reader.read_file.unsupported_file_type: Some(\"zip\")".to_string())
    );
    assert_eq!(
        file_type_of(&None),
        Err("error.reader.read_file.unsupported_file_type: None".to_string())
    );
}

// Decodes the content as a workbook, as a caller of the library does.
fn read_workbook(content: &[u8]) -> Option<Vec<Option<Vec<Vec<String>>>>> {
    let mut workbook: Xls<_> = Xls::new(std::io::Cursor::new(content)).ok()?;
    let mut sheets = Vec::new();
    for name in workbook.sheet_names() {
        let rows = workbook.worksheet_range(&name).ok().map(|range| {
            range.rows().map(|row| row.iter().map(|cell| cell.to_string()).collect()).collect()
        });
        sheets.push(rows);
    }
    Some(sheets)
}

// A one-page document without compression, built by hand.
fn small_pdf() -> Vec<u8> {
    let objects = [
        "<< /Type /Catalog /Pages 2 0 R >>".to_string(),
        "<< /Type /Pages /Kids [3 0 R] /Count 1 >>".to_string(),
        "<< /Type /Page /Parent 2 0 R /MediaBox [0 0 200 200] /Contents 4 0 R /Resources << /Font << /F1 5 0 R >> >> >>".to_string(),
        "<< /Length 37 >>\nstream\nBT /F1 12 Tf 10 100 Td (Hello) Tj ET\nendstream".to_string(),
        "<< /Type /Font /Subtype /Type1 /BaseFont /Helvetica >>".to_string(),
    ];
    let mut out = String::from("%PDF-1.4\n");
    let mut offsets = Vec::new();
    for (i, body) in objects.iter().enumerate() {
        offsets.push(out.len());
        out.push_str(&format!("{} 0 obj\n{}\nendobj\n", i + 1, body));
    }
    let start = out.len();
    out.push_str(&format!("xref\n0 {}\n0000000000 65535 f \n", objects.len() + 1));
    for offset in offsets {
        out.push_str(&format!("{:010} 00000 n \n", offset));
    }
    out.push_str(&format!(
        "trailer\n<< /Size {} /Root 1 0 R >>\nstartxref\n{}\n%%EOF\n",
        objects.len() + 1,
        start
    ));
    out.into_bytes()
}

#[test]
fn pdf_content_is_decoded_to_text() {
    let text = read_pdf_content(&small_pdf(), "").unwrap();
    assert!(text.contains("Hello"), "{:?}", text);
    assert_eq!(content_kind(&small_pdf()), Ok(FileType::Pdf));
    let file = read_file_content(small_pdf(), "", None).unwrap();
    assert_eq!(file.file_type, FileType::Pdf);
    match file.data {
        FileData::Text(found) => assert_eq!(found, text),
        FileData::Table(_) => panic!("a table"),
    }
}

#[test]
fn content_that_does_not_decode() {
    let message = read_pdf_content(&b"no document".to_vec(), "").unwrap_err();
    assert!(message.starts_with("error.reader.formats.read_pdf_content.cannot_open_file: "));
    assert_eq!(read_workbook(b"no workbook"), None);
    assert_eq!(
        read_xls_content(None),
        Err("error.reader.read_xls.cannot_open_file".to_string())
    );
    assert_eq!(
        read_file_content(b"plain text".to_vec(), "", None).unwrap_err(),
        "error.reader.read_file.unsupported_file_type: None"
    );
    let zip = vec![0x50, 0x4B, 0x03, 0x04, 0, 0, 0, 0];
    assert_eq!(
        content_kind(&zip).unwrap_err(),
        "error.reader.read_file.unsupported_file_type: Some(\"zip\")"
    );
    assert_eq!(
        read_file_content(zip, "", Some(vec![])).unwrap_err(),
        "error.reader.read_file.unsupported_file_type: Some(\"zip\")"
    );
    let broken_pdf = b"%PDF-1.4\nnothing more".to_vec();
    let message = read_file_content(broken_pdf, "", None).unwrap_err();
    assert!(message.starts_with("error.reader.formats.read_pdf_content.cannot_open_file: "));
}

fn record(kind: u16, data: &[u8]) -> Vec<u8> {
    let mut out = Vec::new();
    out.extend_from_slice(&kind.to_le_bytes());
    out.extend_from_slice(&(data.len() as u16).to_le_bytes());
    out.extend_from_slice(data);
    out
}

fn label(row: u16, column: u16, text: &str) -> Vec<u8> {
    let mut data = Vec::new();
    data.extend_from_slice(&row.to_le_bytes());
    data.extend_from_slice(&column.to_le_bytes());
    data.extend_from_slice(&0u16.to_le_bytes());
    data.extend_from_slice(&(text.len() as u16).to_le_bytes());
    data.push(0);
    data.extend_from_slice(text.as_bytes());
    record(0x0204, &data)
}

fn directory_entry(name: &str, kind: u8, child: u32, class: [u8; 16], start: u32, size: u32) -> Vec<u8> {
    let mut entry = vec![0u8; 128];
    for (i, unit) in name.encode_utf16().enumerate() {
        entry[2 * i..2 * i + 2].copy_from_slice(&unit.to_le_bytes());
    }
    let length = if name.is_empty() { 0 } else { (name.len() as u16 + 1) * 2 };
    entry[64..66].copy_from_slice(&length.to_le_bytes());
    entry[66] = kind;
    entry[67] = 1;
    entry[68..72].copy_from_slice(&0xFFFF_FFFFu32.to_le_bytes());
    entry[72..76].copy_from_slice(&0xFFFF_FFFFu32.to_le_bytes());
    entry[76..80].copy_from_slice(&child.to_le_bytes());
    entry[80..96].copy_from_slice(&class);
    entry[116..120].copy_from_slice(&start.to_le_bytes());
    entry[120..124].copy_from_slice(&size.to_le_bytes());
    entry
}

// A workbook with one sheet, built by hand: a compound file that holds a
// stream of workbook records.
fn small_xls(sheet: &str, cells: &[(u16, u16, &str)]) -> Vec<u8> {
    const END: u32 = 0xFFFF_FFFE;
    const FREE: u32 = 0xFFFF_FFFF;
    let mut sheet_name = vec![0u8, 0u8, sheet.len() as u8, 0u8];
    sheet_name.extend_from_slice(sheet.as_bytes());
    let globals_length = 8 + (4 + 4 + sheet_name.len()) + 4;
    let mut bound = (globals_length as u32).to_le_bytes().to_vec();
    bound.extend_from_slice(&sheet_name);
    let mut stream = record(0x0809, &[0x00, 0x06, 0x05, 0x00]);
    stream.extend(record(0x0085, &bound));
    stream.extend(record(0x000A, &[]));
    assert_eq!(stream.len(), globals_length);
    stream.extend(record(0x0809, &[0x00, 0x06, 0x10, 0x00]));
    for (row, column, text) in cells {
        stream.extend(label(*row, *column, text));
    }
    stream.extend(record(0x000A, &[]));
    assert!(stream.len() <= 4096);
    stream.resize(4096, 0);

    let mut file = vec![0u8; 512];
    file[..8].copy_from_slice(&[0xD0, 0xCF, 0x11, 0xE0, 0xA1, 0xB1, 0x1A, 0xE1]);
    file[24..26].copy_from_slice(&0x003Eu16.to_le_bytes());
    file[26..28].copy_from_slice(&3u16.to_le_bytes());
    file[28..30].copy_from_slice(&0xFFFEu16.to_le_bytes());
    file[30..32].copy_from_slice(&9u16.to_le_bytes());
    file[32..34].copy_from_slice(&6u16.to_le_bytes());
    file[44..48].copy_from_slice(&1u32.to_le_bytes());
    file[48..52].copy_from_slice(&1u32.to_le_bytes());
    file[56..60].copy_from_slice(&4096u32.to_le_bytes());
    file[60..64].copy_from_slice(&END.to_le_bytes());
    file[68..72].copy_from_slice(&END.to_le_bytes());
    for slot in 0..109 {
        let value: u32 = if slot == 0 { 0 } else { FREE };
        file[76 + 4 * slot..80 + 4 * slot].copy_from_slice(&value.to_le_bytes());
    }
    let mut table = vec![FREE; 128];
    table[0] = 0xFFFF_FFFD;
    table[1] = END;
    for sector in 2..9 {
        table[sector] = sector as u32 + 1;
    }
    table[9] = END;
    for value in table {
        file.extend_from_slice(&value.to_le_bytes());
    }
    let excel = [0x20, 0x08, 0x02, 0x00, 0, 0, 0, 0, 0xC0, 0, 0, 0, 0, 0, 0, 0x46];
    file.extend(directory_entry("Root Entry", 5, 1, excel, END, 0));
    file.extend(directory_entry("Workbook", 2, FREE, [0; 16], 2, 4096));
    file.extend(directory_entry("", 0, FREE, [0; 16], 0, 0));
    file.extend(directory_entry("", 0, FREE, [0; 16], 0, 0));
    file.extend(stream);
    file
}

#[test]
fn spreadsheet_content_is_decoded_to_a_table() {
    let cells = [(0, 0, "HDFC BANK Ltd."), (1, 0, "Account No : 42"), (1, 1, "x")];
    let content = small_xls("Sheet1", &cells);
    let expected = vec![
        vec!["HDFC BANK Ltd.".to_string(), "".to_string()],
        vec!["Account No : 42".to_string(), "x".to_string()],
    ];
    assert_eq!(content_kind(&content), Ok(FileType::Xls));
    let workbook = read_workbook(&content);
    assert_eq!(workbook, Some(vec![Some(expected.clone())]));
    assert_eq!(read_xls_content(workbook.clone()), Ok(expected.clone()));
    assert_eq!(
        read_file_content(content.clone(), "", None).unwrap_err(),
        "error.reader.read_xls.cannot_open_file"
    );

    let file = read_file_content(content, "", workbook).unwrap();
    assert_eq!(file.file_type, FileType::Xls);
    match &file.data {
        FileData::Table(table) => assert_eq!(table, &expected),
        FileData::Text(_) => panic!("a text"),
    }
    assert!(get_parser().identify(&file).unwrap());
}

#[test]
fn statement_from_the_content_of_a_spreadsheet() {
    let titles = [
        "Date",
        "Narration",
        "Chq./Ref.No.",
        "Value Dt",
        "Withdrawal Amt.",
        "Deposit Amt.",
        "Closing Balance",
    ];
    let mut cells: Vec<(u16, u16, &str)> = vec![
        (0, 0, "HDFC BANK Ltd."),
        (1, 0, "Account No : 123456789 OTHER"),
        (2, 0, "Statement From : 01/01/2021 To  : 02/01/2021"),
    ];
    for (column, title) in titles.iter().enumerate() {
        cells.push((3, column as u16, title));
    }
    cells.push((4, 0, "***"));
    let line = ["01/01/2021", " Salary ", "REF1", "01/01/2021", "0.00", "2500.50", "2500.50"];
    for (column, text) in line.iter().enumerate() {
        cells.push((5, column as u16, text));
    }
    cells.push((7, 0, "Generated"));
    let content = small_xls("Statement", &cells);
    let workbook = read_workbook(&content);

    let statement =
        networth_db::readers::get_statement_from_file_content(content, &String::new(), workbook)
            .unwrap();
    assert_eq!(statement.account_number, "123456789");
    assert_eq!(statement.date, 1_609_545_600);
    assert_eq!(statement.transactions.len(), 1);
    let first = &statement.transactions[0];
    assert_eq!(first.date, 1_609_459_200);
    assert_eq!(first.description, "Salary");
    assert_eq!(first.ref_no, "REF1");
    assert_eq!((first.withdrawal, first.deposit, first.balance), (0, 250050, 250050));

    let unknown = small_xls("Sheet1", &[(0, 0, "Some other bank")]);
    let workbook = read_workbook(&unknown);
    assert_eq!(
        networth_db::readers::get_statement_from_file_content(unknown, &String::new(), workbook),
        Err("error.reader.parsers.get_parser.no_matching_parser_found".to_string())
    );
    assert_eq!(
        networth_db::readers::get_statement_from_file_content(
            b"text".to_vec(),
            &String::new(),
            None
        ),
        Err("error.reader.read_file.unsupported_file_type: None".to_string())
    );
}

#[test]
fn pages_and_failure_messages() {
    let pages = vec![Some("one ".to_string()), None, Some("two".to_string()), None];
    assert_eq!(networth_db::readers::formats::join_pages(&pages), "one two");
    assert_eq!(networth_db::readers::formats::join_pages(&vec![]), "");
    assert_eq!(
        networth_db::readers::formats::open_failure_message("bad header"),
        "error.reader.formats.read_pdf_content.cannot_open_file: bad header"
    );
    assert_eq!(
        networth_db::readers::formats::decrypt_failure_message("wrong password"),
        "error.reader.formats.read_pdf_content.cannot_decrypt_file: wrong password"
    );
}

#[test]
fn sheets_are_joined_in_their_order() {
    let row = |cells: &[&str]| -> Vec<String> { cells.iter().map(|c| c.to_string()).collect() };
    let workbook = Some(vec![
        Some(vec![row(&["a", "b"]), row(&["c"])]),
        None,
        Some(vec![]),
        Some(vec![row(&["d"])]),
    ]);
    assert_eq!(
        read_xls_content(workbook),
        Ok(vec![row(&["a", "b"]), row(&["c"]), row(&["d"])])
    );
    assert_eq!(read_xls_content(Some(vec![])), Ok(vec![]));
    assert_eq!(read_xls_content(Some(vec![None])), Ok(vec![]));
}
