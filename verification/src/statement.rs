//! Parsed bank statements and the staged entries that their lines become.

use vstd::prelude::*;
use crate::entry::Entry;
use crate::error::LedgerError;

verus! {

/// The kinds of account.
#[derive(Clone, Copy, Debug, PartialEq, Eq, Structural)]
pub enum AccountType {
    CheckingAccount,
    CreditCard,
    FixedDeposit,
    SavingsAccount,
    Unknown,
}

impl AccountType {
    /// The name under which the kind is stored.
    pub fn code(&self) -> (name: &'static str)
        ensures
            name@ == (match *self {
                AccountType::CheckingAccount => "checking_account"@,
                AccountType::CreditCard => "credit_card"@,
                AccountType::FixedDeposit => "fixed_deposit"@,
                AccountType::SavingsAccount => "savings_account"@,
                AccountType::Unknown => "unknown"@,
            }),
    {
        match self {
            AccountType::CheckingAccount => "checking_account",
            AccountType::CreditCard => "credit_card",
            AccountType::FixedDeposit => "fixed_deposit",
            AccountType::SavingsAccount => "savings_account",
            AccountType::Unknown => "unknown",
        }
    }
}

/// The institutions that statements come from.
#[derive(Clone, Copy, Debug, PartialEq, Eq, Structural)]
pub enum InstitutionName {
    Axis,
    BankOfBaroda,
    Citi,
    Hdfc,
    Icici,
    Idfc,
    IndusInd,
    Jupiter,
    OneCard,
    Other,
    PunjabNationalBank,
    StateBankOfIndia,
    Yes,
}

impl InstitutionName {
    /// The name under which the institution is stored.
    pub fn code(&self) -> (name: &'static str)
        ensures
            name@ == (match *self {
                InstitutionName::Axis => "Axis"@,
                InstitutionName::BankOfBaroda => "BankOfBaroda"@,
                InstitutionName::Citi => "Citi"@,
                InstitutionName::Hdfc => "Hdfc"@,
                InstitutionName::Icici => "Icici"@,
                InstitutionName::Idfc => "Idfc"@,
                InstitutionName::IndusInd => "IndusInd"@,
                InstitutionName::Jupiter => "Jupiter"@,
                InstitutionName::OneCard => "OneCard"@,
                InstitutionName::Other => "Other"@,
                InstitutionName::PunjabNationalBank => "PunjabNationalBank"@,
                InstitutionName::StateBankOfIndia => "StateBankOfIndia"@,
                InstitutionName::Yes => "Yes"@,
            }),
    {
        match self {
            InstitutionName::Axis => "Axis",
            InstitutionName::BankOfBaroda => "BankOfBaroda",
            InstitutionName::Citi => "Citi",
            InstitutionName::Hdfc => "Hdfc",
            InstitutionName::Icici => "Icici",
            InstitutionName::Idfc => "Idfc",
            InstitutionName::IndusInd => "IndusInd",
            InstitutionName::Jupiter => "Jupiter",
            InstitutionName::OneCard => "OneCard",
            InstitutionName::Other => "Other",
            InstitutionName::PunjabNationalBank => "PunjabNationalBank",
            InstitutionName::StateBankOfIndia => "StateBankOfIndia",
            InstitutionName::Yes => "Yes",
        }
    }
}

/// One line of a statement as the bank printed it. The three amounts are
/// in minor currency units; `date` is in seconds since the Unix epoch.
#[derive(Debug, PartialEq, Eq)]
pub struct Transaction {
    pub date: i64,
    pub description: String,
    pub ref_no: String,
    pub withdrawal: i64,
    pub deposit: i64,
    pub balance: i64,
}

/// One line of a statement, its texts as characters.
pub struct TransactionView {
    pub date: i64,
    pub description: Seq<char>,
    pub ref_no: Seq<char>,
    pub withdrawal: i64,
    pub deposit: i64,
    pub balance: i64,
}

impl View for Transaction {
    type V = TransactionView;

    open spec fn view(&self) -> TransactionView {
        TransactionView {
            date: self.date,
            description: self.description@,
            ref_no: self.ref_no@,
            withdrawal: self.withdrawal,
            deposit: self.deposit,
            balance: self.balance,
        }
    }
}

/// A parsed bank statement.
#[derive(Debug, PartialEq, Eq)]
pub struct Statement {
    pub account_number: String,
    pub account_type: AccountType,
    pub date: i64,
    pub transactions: Vec<Transaction>,
}

/// The lines as characters.
pub open spec fn lines_view(lines: Seq<Transaction>) -> Seq<TransactionView> {
    Seq::new(lines.len(), |i: int| lines[i]@)
}

/// A parsed bank statement, its texts as characters.
pub struct StatementView {
    pub account_number: Seq<char>,
    pub account_type: AccountType,
    pub date: i64,
    pub transactions: Seq<TransactionView>,
}

impl View for Statement {
    type V = StatementView;

    open spec fn view(&self) -> StatementView {
        StatementView {
            account_number: self.account_number@,
            account_type: self.account_type,
            date: self.date,
            transactions: lines_view(self.transactions@),
        }
    }
}

/// Neither the withdrawal nor the deposit is negative.
pub open spec fn amounts_valid(transaction: Transaction) -> bool {
    transaction.withdrawal >= 0 && transaction.deposit >= 0
}

/// The signed amount of a statement line: the deposit where there is one,
/// else the withdrawal, negative.
pub open spec fn signed_amount(transaction: Transaction) -> int {
    if transaction.deposit > 0 {
        transaction.deposit as int
    } else {
        -(transaction.withdrawal as int)
    }
}

/// The staged entry that a statement line becomes: under the identifier
/// and in the import given, with the signed amount, and with the balance
/// that the statement gave.
pub open spec fn staged_entry(
    transaction: Transaction,
    id: u128,
    import_id: u128,
    sequence_number: i64,
) -> Entry {
    Entry {
        id,
        scope_id: import_id,
        sequence_number,
        date: transaction.date,
        amount: signed_amount(transaction) as i64,
        balance: transaction.balance,
        ref_no: transaction.ref_no,
        description: transaction.description,
    }
}

/// The staged entries of a statement's lines, in the order of the lines,
/// each under the identifier that `ids` gives for it and numbered from
/// one.
pub open spec fn staged_entries(transactions: Seq<Transaction>, ids: Seq<u128>, import_id: u128) -> Seq<
    Entry,
> {
    Seq::new(
        transactions.len(),
        |j: int| staged_entry(transactions[j], ids[j], import_id, (j + 1) as i64),
    )
}

/// Every line has valid amounts.
pub open spec fn all_amounts_valid(transactions: Seq<Transaction>) -> bool {
    forall|j: int| 0 <= j < transactions.len() ==> amounts_valid(#[trigger] transactions[j])
}

impl Transaction {
    /// The signed amount of the line. Refused with `ValidationFailure`
    /// where the withdrawal or the deposit is negative.
    pub fn amount(&self) -> (result: Result<i64, LedgerError>)
        ensures
            amounts_valid(*self) ==> result == Ok::<i64, LedgerError>(signed_amount(*self) as i64)
                && i64::MIN <= signed_amount(*self) <= i64::MAX,
            !amounts_valid(*self) ==> result == Err::<i64, LedgerError>(
                LedgerError::ValidationFailure,
            ),
    {
        if self.withdrawal < 0 || self.deposit < 0 {
            Err(LedgerError::ValidationFailure)
        } else if self.deposit > 0 {
            Ok(self.deposit)
        } else {
            Ok(-self.withdrawal)
        }
    }
}

/// Turns the lines of a statement into staged entries for an import, in
/// the order of the lines. Refused with `ValidationFailure` where `ids`
/// does not hold one identifier per line, where there are more lines than
/// can be numbered, or where a line has a negative withdrawal or deposit.
pub fn entries_from_statement(statement: &Statement, ids: &Vec<u128>, import_id: u128) -> (result:
    Result<Vec<Entry>, LedgerError>)
    ensures
        match result {
            Ok(entries) => ids@.len() == statement.transactions@.len() && all_amounts_valid(
                statement.transactions@,
            ) && statement.transactions@.len() < i64::MAX && entries@ == staged_entries(
                statement.transactions@,
                ids@,
                import_id,
            ),
            Err(error) => error == LedgerError::ValidationFailure && (ids@.len()
                != statement.transactions@.len() || !all_amounts_valid(statement.transactions@)
                || statement.transactions@.len() >= i64::MAX),
        },
{
    let n: usize = statement.transactions.len();
    if ids.len() != n || n as u64 >= i64::MAX as u64 {
        return Err(LedgerError::ValidationFailure);
    }
    let ghost target = staged_entries(statement.transactions@, ids@, import_id);
    let mut entries: Vec<Entry> = Vec::new();
    let mut j: usize = 0;
    while j < n
        invariant
            j <= n,
            n == statement.transactions@.len(),
            n == ids@.len(),
            n < i64::MAX,
            target == staged_entries(statement.transactions@, ids@, import_id),
            entries@ == target.take(j as int),
            forall|k: int| 0 <= k < j ==> amounts_valid(#[trigger] statement.transactions@[k]),
        decreases n - j,
    {
        let line = &statement.transactions[j];
        let amount: i64 = match line.amount() {
            Ok(amount) => amount,
            Err(error) => {
                return Err(error);
            },
        };
        entries.push(
            Entry {
                id: ids[j],
                scope_id: import_id,
                sequence_number: j as i64 + 1,
                date: line.date,
                amount,
                balance: line.balance,
                ref_no: line.ref_no.clone(),
                description: line.description.clone(),
            },
        );
        assert(entries@ =~= target.take(j + 1));
        j = j + 1;
    }
    assert(target.take(n as int) =~= target);
    Ok(entries)
}

} // verus!
