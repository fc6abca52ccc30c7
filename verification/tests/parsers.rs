use chrono::{DateTime, TimeZone, Utc};
use networth_db::readers::parsers::amounts::parse_amount;
use networth_db::readers::parsers::hdfcind::get_parser;
use networth_db::readers::parsers::hdfcind_pdf::{
    parse_pdf, parse_trnx_pdf, read_amounts, read_line, read_second_part, ReadAmounts,
};
use networth_db::readers::parsers::hdfcind_xls::{line_of_row, parse_trnx_xls, parse_xls};
use networth_db::readers::parsers::types::{BankId, Parser};
use networth_db::readers::types::{File, FileData, FileType};
use networth_db::statement::AccountType;
use networth_db::utils::date_str_to_datetime;

fn moment(timestamp: i64) -> DateTime<Utc> {
    Utc.timestamp_opt(timestamp, 0).unwrap()
}

fn today_date_str(date: DateTime<Utc>) -> String {
    date.date_naive().and_hms_opt(0, 0, 0).unwrap().and_local_timezone(Utc).unwrap().to_string()
}

fn units(amount: i64) -> f64 {
    amount as f64 / 100.0
}

fn header() -> Vec<String> {
    vec![
        "Date".to_string(),
        "Narration".to_string(),
        "Chq./Ref.No.".to_string(),
        "Value Dt".to_string(),
        "Withdrawal Amt.".to_string(),
        "Deposit Amt.".to_string(),
        "Closing Balance".to_string(),
    ]
}

fn common_pdf_data() -> FileData {
    FileData::Text(COMMON.to_string())
}

#[test]
fn hdfcind_test_test_identify_valid_file() {
    let file = File {
        file_type: FileType::Xls,
        data: FileData::Table(vec![
            vec!["HDFC BANK Ltd.".to_string()],
            vec!["Some other data".to_string()],
        ]),
    };
    let parser = get_parser();
    assert!(parser.identify(&file).unwrap());

    let file = File { file_type: FileType::Pdf, data: common_pdf_data() };
    assert!(parser.identify(&file).unwrap());
}

#[test]
fn hdfcind_test_test_identify_invalid_file_content() {
    let file = File {
        file_type: FileType::Xls,
        data: FileData::Table(vec![
            vec!["Some other bank".to_string()],
            vec!["Some other data".to_string()],
        ]),
    };
    let parser = get_parser();
    assert!(!parser.identify(&file).unwrap());

    let file = File { file_type: FileType::Xls, data: FileData::Text("Some other bank".to_string()) };
    assert!(!parser.identify(&file).unwrap());
}

#[test]
fn tests_test_parse_valid_file() {
    let file = File {
        file_type: FileType::Xls,
        data: FileData::Table(vec![
            vec!["Account No : 123456789".to_string()],
            vec!["Statement From : 01/01/2021 To  : 02/01/2021".to_string()],
            vec!["Statement of accounts".to_string()],
            header(),
            vec!["***".to_string()],
            vec![
                "01/01/2021".to_string(),
                "Description 1".to_string(),
                "".to_string(),
                "".to_string(),
                "100.0".to_string(),
                "0.0".to_string(),
                "900.0".to_string(),
            ],
            vec![
                "02/01/2021".to_string(),
                "Description 2".to_string(),
                "".to_string(),
                "".to_string(),
                "0.0".to_string(),
                "200.0".to_string(),
                "1100.0".to_string(),
            ],
            vec!["".to_string(); 7],
        ]),
    };

    let parser = get_parser();
    let statements = parser.parse(&file).unwrap();

    assert_eq!(statements.date, date_str_to_datetime(&"02/01/2021"));
    assert_eq!(statements.account_number, "123456789");
    // The heading is read no further than the row that gives the date.
    assert_eq!(statements.account_type, AccountType::Unknown);

    let transactions = &statements.transactions;
    assert_eq!(transactions.len(), 2);
    assert_eq!(transactions[0].date, date_str_to_datetime(&"01/01/2021"));
    assert_eq!(transactions[0].description, "Description 1");
    assert_eq!(units(transactions[0].withdrawal), 100.0);
    assert_eq!(units(transactions[0].deposit), 0.0);
    assert_eq!(units(transactions[0].balance), 900.0);

    assert_eq!(transactions[1].date, date_str_to_datetime(&"02/01/2021"));
    assert_eq!(transactions[1].description, "Description 2");
    assert_eq!(units(transactions[1].withdrawal), 0.0);
    assert_eq!(units(transactions[1].deposit), 200.0);
    assert_eq!(units(transactions[1].balance), 1100.0);
}

#[test]
fn tests_test_parse_without_required_data() {
    let file = File {
        file_type: FileType::Xls,
        data: FileData::Table(vec![
            header(),
            vec!["***".to_string()],
            vec![
                "01/01/2021".to_string(),
                "Description 1".to_string(),
                "".to_string(),
                "".to_string(),
                "100.0".to_string(),
                "0.0".to_string(),
                "900.0".to_string(),
            ],
            vec!["".to_string(); 7],
        ]),
    };

    let parser = get_parser();
    let statements = parser.parse(&file).unwrap();

    assert_eq!(today_date_str(moment(statements.date)), today_date_str(Utc::now()));
    assert_eq!(statements.account_type, AccountType::Unknown);
}

#[test]
fn tests_test_parse_missing_data_start() {
    let file = File {
        file_type: FileType::Xls,
        data: FileData::Table(vec![vec!["Some other data".to_string()]]),
    };

    let parser = get_parser();
    assert_eq!(parser.parse(&file).unwrap_err(), "error.parser.hdfcind.start_of_data_not_found");
}

#[test]
fn tests_test_parse_missing_data_end() {
    let file = File {
        file_type: FileType::Xls,
        data: FileData::Table(vec![
            header(),
            vec![],
            vec![
                "01/01/2021".to_string(),
                "Description 1".to_string(),
                "".to_string(),
                "".to_string(),
                "100.0".to_string(),
                "0.0".to_string(),
                "900.0".to_string(),
            ],
        ]),
    };

    let parser = get_parser();
    assert_eq!(parser.parse(&file).unwrap_err(), "error.parser.hdfcind.end_of_data_not_found");
}

#[test]
fn test_parse_valid_file() {
    let file = File { file_type: FileType::Pdf, data: common_pdf_data() };

    let parser = get_parser();
    let statements = parser.parse(&file).unwrap();

    assert_eq!(statements.account_type, AccountType::SavingsAccount);
    assert_eq!(moment(statements.date).to_string(), "1910-03-31 00:00:00 UTC");

    assert_eq!(statements.transactions.len(), 3);

    let transaction = &statements.transactions[0];
    assert_eq!(transaction.date, date_str_to_datetime(&"01/01/23"));
    assert_eq!(transaction.description, "UPI-TESTUSER-TEST@BANKTEST-TRANSACTION-1");
    assert_eq!(transaction.ref_no, "0000000000000001");
    assert_eq!(units(transaction.withdrawal), 1000.0);
    assert_eq!(units(transaction.deposit), 0.0);
    assert_eq!(units(transaction.balance), 10000.0);

    let transaction = &statements.transactions[1];
    assert_eq!(transaction.date, date_str_to_datetime(&"02/01/23"));
    assert_eq!(transaction.description, "NEFT-TESTBANK-TESTUSER");
    assert_eq!(transaction.ref_no, "0000000000000002");
    assert_eq!(units(transaction.withdrawal), 500.0);
    assert_eq!(units(transaction.deposit), 0.0);
    assert_eq!(units(transaction.balance), 9500.0);

    let transaction = &statements.transactions[2];
    assert_eq!(transaction.date, date_str_to_datetime(&"03/01/23"));
    assert_eq!(transaction.description, "POS-TESTSHOP-TESTCITYTEST-TRANSACTION-3TestMore");
    assert_eq!(transaction.ref_no, "0000000000000003");
    assert_eq!(units(transaction.withdrawal), 0.0);
    assert_eq!(units(transaction.deposit), 200.0);
    assert_eq!(units(transaction.balance), 9700.0);
}

#[test]
fn test_parse_without_required_data() {
    let file = File { file_type: FileType::Pdf, data: FileData::Text(WITHOUT.to_string()) };

    let parser = get_parser();
    let statements = parser.parse(&file).unwrap();

    assert_eq!(statements.account_type, AccountType::Unknown);
    assert_eq!(today_date_str(moment(statements.date)), today_date_str(Utc::now()));
}

#[test]
fn test_parse_missing_data_start() {
    let file = File { file_type: FileType::Pdf, data: FileData::Text(MISSING.to_string()) };

    let parser = get_parser();
    assert_eq!(parser.parse(&file).unwrap_err(), "error.parser.hdfcind.line1_not_found");
}

#[test]
fn amounts_in_minor_units() {
    let amount = |text: &str| parse_amount(&text.chars().collect());
    assert_eq!(amount("100.0"), 10000);
    assert_eq!(amount("12.5"), 1250);
    assert_eq!(amount("12.34"), 1234);
    assert_eq!(amount("12.349"), 1234);
    assert_eq!(amount("-0.07"), -7);
    assert_eq!(amount("+3"), 300);
    assert_eq!(amount("3."), 300);
    assert_eq!(amount(".5"), 50);
    assert_eq!(amount("009700.00"), 970000);
    assert_eq!(amount("0"), 0);
    assert_eq!(amount(""), 0);
    assert_eq!(amount("."), 0);
    assert_eq!(amount("-"), 0);
    assert_eq!(amount("1,000.00"), 0);
    assert_eq!(amount("1e3"), 0);
    assert_eq!(amount("12.3.4"), 0);
    assert_eq!(amount(" 1"), 0);
    assert_eq!(amount("92233720368547758.07"), i64::MAX);
    assert_eq!(amount("-92233720368547758.07"), -i64::MAX);
    assert_eq!(amount("92233720368547758.08"), 0);
    assert_eq!(amount("99999999999999999999"), 0);
}

#[test]
fn spreadsheet_rows_that_cannot_be_read() {
    let row = |date: &str| {
        vec![
            date.to_string(),
            " Description ".to_string(),
            " ref ".to_string(),
            "".to_string(),
            " 1.5 ".to_string(),
            "x".to_string(),
            "2".to_string(),
        ]
    };
    let table = vec![header(), vec![], row("03/04/2021"), vec!["".to_string(); 7]];
    let lines = parse_trnx_xls(&table).unwrap();
    assert_eq!(lines.len(), 1);
    assert_eq!(lines[0].description, "Description");
    assert_eq!(lines[0].ref_no, "ref");
    assert_eq!((lines[0].withdrawal, lines[0].deposit, lines[0].balance), (150, 0, 200));
    assert_eq!(lines[0].date, 1_617_408_000);

    let table = vec![header(), vec![], row("2021-04-03"), vec!["".to_string(); 7]];
    assert_eq!(parse_trnx_xls(&table).unwrap_err(), "error.utils.datetime.date_str_to_datetime");
    let table = vec![header(), vec![], vec!["03/04/2021".to_string()], vec!["".to_string(); 7]];
    assert_eq!(parse_trnx_xls(&table).unwrap_err(), "error.parser.hdfcind.incomplete_row");
    let table = vec![header()];
    assert_eq!(parse_trnx_xls(&table).unwrap_err(), "error.parser.hdfcind.end_of_data_not_found");
    let table = vec![header(), vec![], vec!["".to_string(); 7]];
    assert_eq!(parse_trnx_xls(&table).unwrap(), vec![]);

    let table = vec![
        vec!["x Account No :  42 Account No : 43".to_string()],
        vec!["Statement From : 01/01/2021".to_string()],
    ];
    assert_eq!(parse_xls(&table, 7).unwrap_err(), "error.utils.datetime.date_str_to_datetime");
    let table = vec![
        vec!["x Account No :  42 Account No : 43".to_string(), "Statement of accounts".to_string()],
        header(),
        vec![],
        vec!["".to_string(); 7],
    ];
    let statement = parse_xls(&table, 7).unwrap();
    assert_eq!(statement.account_number, "42");
    assert_eq!(statement.date, 7);
    assert_eq!(statement.account_type, AccountType::SavingsAccount);
}

#[test]
fn text_lines_that_cannot_be_read() {
    assert_eq!(parse_trnx_pdf("").unwrap(), vec![]);
    assert_eq!(parse_trnx_pdf("no lines").unwrap_err(), "error.parser.hdfcind.line1_not_found");
    let short = "01/01/23 x 02/01/23 \n1.00 \n2.00 ";
    assert_eq!(parse_trnx_pdf(short).unwrap_err(), "error.parser.hdfcind.incomplete_line");
    let no_balance = "01/01/23 \nx \nref \n02/01/23 \n1.00 ";
    assert_eq!(parse_trnx_pdf(no_balance).unwrap_err(), "error.parser.hdfcind.incomplete_line");
    let bad_date = "41/01/23 \nx \nref \n02/01/23 \n1.00 \n2.00 ";
    assert_eq!(
        parse_trnx_pdf(bad_date).unwrap_err(),
        "error.utils.datetime.date_str_to_datetime"
    );
    let plain = "01/01/23 \nx \nref \n02/01/23 \nnothing ";
    let lines = parse_trnx_pdf(plain).unwrap();
    assert_eq!(lines.len(), 1);
    assert_eq!((lines[0].withdrawal, lines[0].deposit, lines[0].balance), (0, 0, 0));
    assert_eq!(lines[0].description, "x");
    let statement = parse_pdf(plain, 99).unwrap();
    assert_eq!(statement.date, 99);
    assert_eq!(statement.account_type, AccountType::Unknown);
    assert_eq!(statement.account_number, "");
}

#[test]
fn reader_without_a_known_layout() {
    let file = File { file_type: FileType::Pdf, data: common_pdf_data() };
    let parser = Parser { id: BankId::IcicInd };
    assert_eq!(parser.parse(&file).unwrap_err(), "error.parser.icicind.not_supported");
    assert_eq!(parser.parse_at(&file, 0).unwrap_err(), "error.parser.icicind.not_supported");
}

#[test]
fn amounts_of_a_line_from_its_pieces() {
    let pieces = |texts: &[&str]| -> Vec<Vec<char>> {
        texts.iter().map(|text| text.chars().collect()).collect()
    };
    let amounts = |withdrawal, deposit, balance, description: &str| ReadAmounts {
        withdrawal,
        deposit,
        balance,
        description: description.chars().collect(),
    };
    assert_eq!(
        read_amounts(&pieces(&["1,000.00", "10,000.00", "TEST-", "1"])),
        Ok(amounts(100000, 0, 1000000, "TEST-1"))
    );
    assert_eq!(
        read_amounts(&pieces(&["200.009,700.00", "MORE"])),
        Ok(amounts(0, 20000, 970000, "MORE"))
    );
    assert_eq!(read_amounts(&pieces(&["500.00", "9,500.00"])), Ok(amounts(50000, 0, 950000, "")));
    assert_eq!(read_amounts(&pieces(&["no amount", "x"])), Ok(amounts(0, 0, 0, "")));
    assert_eq!(
        read_amounts(&pieces(&["500.00"])),
        Err("error.parser.hdfcind.incomplete_line".to_string())
    );
    assert_eq!(read_amounts(&pieces(&[])), Err("error.parser.hdfcind.incomplete_line".to_string()));
}

#[test]
fn parts_of_a_line_from_the_text() {
    let (rest, left) =
        read_second_part("\n500.00 \n9,500.00 \n03/01/23 \nPOS".to_string()).unwrap();
    assert_eq!(rest.iter().collect::<String>(), "\n500.00 \n9,500.00 \n");
    assert_eq!(left, "03/01/23 \nPOS");
    let (rest, left) = read_second_part(" \n200.00 \n1.00 ".to_string()).unwrap();
    assert_eq!(rest.iter().collect::<String>(), " \n200.00 \n1.00 ");
    assert_eq!(left, "");

    let (line, left) =
        read_line("x 02/01/23 \nNEFT \n0002 \n02/01/23 \n500.00 \n9,500.00 \n03/01/23 y")
            .unwrap();
    assert_eq!(line.date, date_str_to_datetime("02/01/23"));
    assert_eq!(line.description, "NEFT");
    assert_eq!(line.ref_no, "0002");
    assert_eq!((line.withdrawal, line.deposit, line.balance), (50000, 0, 950000));
    assert_eq!(left, "03/01/23 y");
    assert_eq!(read_line("nothing").unwrap_err(), "error.parser.hdfcind.line1_not_found");
}

#[test]
fn line_of_a_row() {
    let row = |cells: &[&str]| -> Vec<String> { cells.iter().map(|c| c.to_string()).collect() };
    let line =
        line_of_row(&row(&[" 02/01/2021 ", " Pay ", " R1 ", "x", "", " 200.5 ", "1100"])).unwrap();
    assert_eq!(line.date, 1_609_545_600);
    assert_eq!(line.description, "Pay");
    assert_eq!(line.ref_no, "R1");
    assert_eq!((line.withdrawal, line.deposit, line.balance), (0, 20050, 110000));
    assert_eq!(
        line_of_row(&row(&["02/01/2021", "a", "b", "c", "1", "2"])).unwrap_err(),
        "error.parser.hdfcind.incomplete_row"
    );
    assert_eq!(
        line_of_row(&row(&["2021", "a", "b", "c", "1", "2", "3"])).unwrap_err(),
        "error.utils.datetime.date_str_to_datetime"
    );
}

const COMMON: &str = "\nDate \nNarration \nChq./Ref.No. \nValueDt \nWithdrawalAmt. \nDepositAmt. \nClosingBalance \n01/01/23 \nUPI-TESTUSER-TEST@BANK \n0000000000000001 \n01/01/23 \n1,000.00 \n10,000.00 \nTEST-TRANSACTION-1 \n02/01/23 \nNEFT-TESTBANK-TESTUSER \n0000000000000002 \n02/01/23 \n500.00 \n9,500.00 \n03/01/23 \nPOS-TESTSHOP-TESTCITY \n0000000000000003 \n03/01/23 \n200.009,700.00 \nTEST-TRANSACTION-3\n\nTestMore\nPageNo.:1Statementofaccount \nMR.Tester TesterAddress JOINTHOLDERS: Holder1 Nomination:Nomination1 StatementFrom:01/04/1900To:31/03/1910 \nAccountBranch:Branch Address ODLimit:10Currency:INR Email:email@example.com CustID:12345 AccountNo:123456789 A/COpenDate:11/01/1900 AccountStatus:Regular RTGS/NEFTIFSC :HDFC0000001MICR:1000000 BranchCode:000ProductCode:100 HDFCBANKLIMITED *Closingbalanceincludesfundsearmarkedforholdandunclearedfunds Contentsofthisstatementwillbeconsideredcorrectifnoerrorisreportedwithin30daysofreceiptofstatement.TheaddressonthisstatementisthatonrecordwiththeBankasatthedayofrequesting thisstatement. StateaccountbranchGSTN:12345 HDFCBankGSTINnumberdetailsareavailableathttps://www.hdfcbank.com/personal/making-payments/online-tax-payment/goods-and-service-tax. RegisteredOfficeAddress:HDFCBankHouse,SenapatiBapatMarg,LowerParel,Mumbai400013";

const WITHOUT: &str = "\nDate \nNarration \nChq./Ref.No. \nValueDt \nWithdrawalAmt. \nDepositAmt. \nClosingBalance \n01/01/23 \nUPI-TESTUSER-TEST@BANK \n0000000000000001 \n01/01/23 \n1,000.00 \n10,000.00 \nTEST-TRANSACTION-1 \nPageNo.:1 \nMR.Tester TesterAddress JOINTHOLDERS: Holder1 Nomination:Nomination1 StatementFrom:01/04/1900To:A1/03/1910 \nAccountBranch:Branch Address ODLimit:10Currency:INR Email:email@example.com CustID:12345 A/COpenDate:11/01/1900 AccountStatus:Regular RTGS/NEFTIFSC :HDFC0000001MICR:1000000 BranchCode:000ProductCode:100 HDFCBANKLIMITED *Closingbalanceincludesfundsearmarkedforholdandunclearedfunds Contentsofthisstatementwillbeconsideredcorrectifnoerrorisreportedwithin30daysofreceiptofstatement.TheaddressonthisstatementisthatonrecordwiththeBankasatthedayofrequesting thisstatement. StateaccountbranchGSTN:12345 HDFCBankGSTINnumberdetailsareavailableathttps://www.hdfcbank.com/personal/making-payments/online-tax-payment/goods-and-service-tax. RegisteredOfficeAddress:HDFCBankHouse,SenapatiBapatMarg,LowerParel,Mumbai400013";

const MISSING: &str = "\n1,000.00 \n10,000.00 \nTEST-TRANSACTION-1 \n \nNEFT-TESTBANK-TESTUSER \n0000000000000002 \n021/23 \n500.00 \n9,500.00 \n03/0123 \nPOS-TESTSHOP-TESTCITY \n0000000000000003 \n001/23 \n200.009,700.00 \nTEST-TRANSACTION-3\n\nTestMore\nPageNo.:1Statementofaccount \nMR.Tester TesterAddress JOINTHOLDERS: Holder1 Nomination:Nomination1 StatementFrom:01/04/1900To:3/1910 \nAccountBranch:Branch Address ODLimit:10Currency:INR Email:email@example.com CustID:12345 AccountNo:123456789 A/COpenDate:11/01/1900 AccountStatus:Regular RTGS/NEFTIFSC :HDFC0000001MICR:1000000 BranchCode:000ProductCode:100 HDFCBANKLIMITED *Closingbalanceincludesfundsearmarkedforholdandunclearedfunds Contentsofthisstatementwillbeconsideredcorrectifnoerrorisreportedwithin30daysofreceiptofstatement.TheaddressonthisstatementisthatonrecordwiththeBankasatthedayofrequesting thisstatement. StateaccountbranchGSTN:12345 HDFCBankGSTINnumberdetailsareavailableathttps://www.hdfcbank.com/personal/making-payments/online-tax-payment/goods-and-service-tax. RegisteredOfficeAddress:HDFCBankHouse,SenapatiBapatMarg,LowerParel,Mumbai400013";
