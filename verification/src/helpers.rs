//! Filters, sorts and paging options of queries.

use vstd::prelude::*;
use crate::database::{Account, Import};
use crate::entry::Entry;
use crate::queries::{Keyed, Row, RowFilter};
use crate::sorting::{id_key, key_of_id, key_of_number, key_of_text, number_key, text_key};
use crate::statement::AccountType;
use crate::text::{
    contains, contains_text, ends_with, ends_with_text, same_text, starts_with, starts_with_text,
};

verus! {

/// How a number is held against a bound.
#[derive(Clone, Copy, Debug, PartialEq, Eq, Structural)]
pub enum NumberFilterType {
    GreaterThan,
    EqualOrGreaterThan,
    EqualOrLessThan,
    LessThan,
    Equal,
}

/// How a date is held against a bound.
#[derive(Clone, Copy, Debug, PartialEq, Eq, Structural)]
pub enum DateFilterType {
    GreaterThan,
    LessThan,
    Equal,
}

/// How a text is held against a pattern.
#[derive(Clone, Copy, Debug, PartialEq, Eq, Structural)]
pub enum StringFilterType {
    Contains,
    NotContains,
    Equal,
    StartsWith,
    EndsWith,
}

/// The direction of a sort.
#[derive(Clone, Copy, Debug, PartialEq, Eq, Structural)]
pub enum Order {
    Asc,
    Desc,
}

/// The number passes the filter.
pub open spec fn number_passes(kind: NumberFilterType, bound: int, value: int) -> bool {
    match kind {
        NumberFilterType::GreaterThan => value > bound,
        NumberFilterType::EqualOrGreaterThan => value >= bound,
        NumberFilterType::EqualOrLessThan => value <= bound,
        NumberFilterType::LessThan => value < bound,
        NumberFilterType::Equal => value == bound,
    }
}

/// The date passes the filter.
pub open spec fn date_passes(kind: DateFilterType, bound: int, value: int) -> bool {
    match kind {
        DateFilterType::GreaterThan => value > bound,
        DateFilterType::LessThan => value < bound,
        DateFilterType::Equal => value == bound,
    }
}

/// The text passes the filter.
pub open spec fn string_passes(kind: StringFilterType, pattern: Seq<char>, value: Seq<char>) -> bool {
    match kind {
        StringFilterType::Contains => contains_text(value, pattern),
        StringFilterType::NotContains => !contains_text(value, pattern),
        StringFilterType::Equal => value == pattern,
        StringFilterType::StartsWith => starts_with_text(value, pattern),
        StringFilterType::EndsWith => ends_with_text(value, pattern),
    }
}

/// The number passes the filter; no filter lets every number pass.
pub open spec fn number_filter_passes(filter: Option<(NumberFilterType, i64)>, value: int) -> bool {
    match filter {
        Some((kind, bound)) => number_passes(kind, bound as int, value),
        None => true,
    }
}

/// The date passes the filter; no filter lets every date pass.
pub open spec fn date_filter_passes(filter: Option<(DateFilterType, i64)>, value: int) -> bool {
    match filter {
        Some((kind, bound)) => date_passes(kind, bound as int, value),
        None => true,
    }
}

/// The text passes the filter; no filter lets every text pass.
pub open spec fn string_filter_passes(
    filter: Option<(StringFilterType, String)>,
    value: Seq<char>,
) -> bool {
    match filter {
        Some((kind, pattern)) => string_passes(kind, pattern@, value),
        None => true,
    }
}

/// The identifier is the one asked for; no filter lets every identifier
/// pass.
pub open spec fn id_filter_passes(filter: Option<u128>, value: u128) -> bool {
    match filter {
        Some(id) => value == id,
        None => true,
    }
}

/// Whether the number passes the filter.
pub fn apply_number_filter(filter: &Option<(NumberFilterType, i64)>, value: i64) -> (passes: bool)
    ensures
        passes == number_filter_passes(*filter, value as int),
{
    match filter {
        Some((kind, bound)) => match kind {
            NumberFilterType::GreaterThan => value > *bound,
            NumberFilterType::EqualOrGreaterThan => value >= *bound,
            NumberFilterType::EqualOrLessThan => value <= *bound,
            NumberFilterType::LessThan => value < *bound,
            NumberFilterType::Equal => value == *bound,
        },
        None => true,
    }
}

/// Whether the date passes the filter.
pub fn apply_date_filter(filter: &Option<(DateFilterType, i64)>, value: i64) -> (passes: bool)
    ensures
        passes == date_filter_passes(*filter, value as int),
{
    match filter {
        Some((kind, bound)) => match kind {
            DateFilterType::GreaterThan => value > *bound,
            DateFilterType::LessThan => value < *bound,
            DateFilterType::Equal => value == *bound,
        },
        None => true,
    }
}

/// Whether the text passes the filter.
pub fn apply_string_filter(filter: &Option<(StringFilterType, String)>, value: &str) -> (passes:
    bool)
    ensures
        passes == string_filter_passes(*filter, value@),
{
    match filter {
        Some((kind, pattern)) => match kind {
            StringFilterType::Contains => contains(value, pattern.as_str()),
            StringFilterType::NotContains => !contains(value, pattern.as_str()),
            StringFilterType::Equal => same_text(value, pattern.as_str()),
            StringFilterType::StartsWith => starts_with(value, pattern.as_str()),
            StringFilterType::EndsWith => ends_with(value, pattern.as_str()),
        },
        None => true,
    }
}

/// Whether the identifier is the one asked for.
pub fn apply_id_filter(filter: &Option<u128>, value: u128) -> (passes: bool)
    ensures
        passes == id_filter_passes(*filter, value),
{
    match filter {
        Some(id) => value == *id,
        None => true,
    }
}

/// Which entries are asked for. A field that is `None` lets every entry
/// pass.
#[derive(Debug)]
pub struct EntryFilter {
    pub id: Option<u128>,
    pub scope_id: Option<u128>,
    pub sequence_number: Option<(NumberFilterType, i64)>,
    pub date: Option<(DateFilterType, i64)>,
    pub amount: Option<(NumberFilterType, i64)>,
    pub balance: Option<(NumberFilterType, i64)>,
    pub ref_no: Option<(StringFilterType, String)>,
    pub description: Option<(StringFilterType, String)>,
}

/// The filter of a query for posted entries; `scope_id` is the account.
pub type TransactionFilter = EntryFilter;

/// The filter of a query for staged entries; `scope_id` is the import.
pub type StagedTransactionFilter = EntryFilter;

/// The entry passes every part of the filter.
pub open spec fn entry_passes(filter: EntryFilter, entry: Entry) -> bool {
    &&& id_filter_passes(filter.id, entry.id)
    &&& id_filter_passes(filter.scope_id, entry.scope_id)
    &&& number_filter_passes(filter.sequence_number, entry.sequence_number as int)
    &&& date_filter_passes(filter.date, entry.date as int)
    &&& number_filter_passes(filter.amount, entry.amount as int)
    &&& number_filter_passes(filter.balance, entry.balance as int)
    &&& string_filter_passes(filter.ref_no, entry.ref_no@)
    &&& string_filter_passes(filter.description, entry.description@)
}

impl EntryFilter {
    /// The filter that lets every entry pass.
    pub fn any() -> (filter: EntryFilter)
        ensures
            filter == (EntryFilter {
                id: None,
                scope_id: None,
                sequence_number: None,
                date: None,
                amount: None,
                balance: None,
                ref_no: None,
                description: None,
            }),
            forall|entry: Entry| entry_passes(filter, entry),
    {
        EntryFilter {
            id: None,
            scope_id: None,
            sequence_number: None,
            date: None,
            amount: None,
            balance: None,
            ref_no: None,
            description: None,
        }
    }

    /// Whether the entry passes every part of the filter.
    pub fn passes(&self, entry: &Entry) -> (ok: bool)
        ensures
            ok == entry_passes(*self, *entry),
    {
        apply_id_filter(&self.id, entry.id) && apply_id_filter(&self.scope_id, entry.scope_id)
            && apply_number_filter(&self.sequence_number, entry.sequence_number)
            && apply_date_filter(&self.date, entry.date) && apply_number_filter(
            &self.amount,
            entry.amount,
        ) && apply_number_filter(&self.balance, entry.balance) && apply_string_filter(
            &self.ref_no,
            entry.ref_no.as_str(),
        ) && apply_string_filter(&self.description, entry.description.as_str())
    }
}

impl Default for EntryFilter {
    fn default() -> (filter: EntryFilter)
        ensures
            forall|entry: Entry| entry_passes(filter, entry),
    {
        EntryFilter::any()
    }
}

/// Which accounts are asked for.
#[derive(Debug)]
pub struct AccountFilter {
    pub id: Option<u128>,
    pub account_number: Option<(StringFilterType, String)>,
    pub account_type: Option<AccountType>,
}

/// The account passes every part of the filter.
pub open spec fn account_passes(filter: AccountFilter, account: Account) -> bool {
    &&& id_filter_passes(filter.id, account.id)
    &&& string_filter_passes(filter.account_number, account.account_number@)
    &&& match filter.account_type {
        Some(kind) => account.account_type == kind,
        None => true,
    }
}

impl AccountFilter {
    /// The filter that lets every account pass.
    pub fn any() -> (filter: AccountFilter)
        ensures
            filter == (AccountFilter { id: None, account_number: None, account_type: None }),
            forall|account: Account| account_passes(filter, account),
    {
        AccountFilter { id: None, account_number: None, account_type: None }
    }

    /// Whether the account passes every part of the filter.
    pub fn passes(&self, account: &Account) -> (ok: bool)
        ensures
            ok == account_passes(*self, *account),
    {
        apply_id_filter(&self.id, account.id) && apply_string_filter(
            &self.account_number,
            account.account_number.as_str(),
        ) && match self.account_type {
            Some(kind) => account.account_type == kind,
            None => true,
        }
    }
}

impl Default for AccountFilter {
    fn default() -> (filter: AccountFilter)
        ensures
            forall|account: Account| account_passes(filter, account),
    {
        AccountFilter::any()
    }
}

/// Which imports are asked for.
#[derive(Clone, Copy, Debug)]
pub struct ImportFilter {
    pub id: Option<u128>,
    pub account_id: Option<u128>,
    pub import_date: Option<(DateFilterType, i64)>,
    pub source_file_date: Option<(DateFilterType, i64)>,
}

/// The import passes every part of the filter.
pub open spec fn import_passes(filter: ImportFilter, import: Import) -> bool {
    &&& id_filter_passes(filter.id, import.id)
    &&& match filter.account_id {
        Some(account) => import.account_id == Some(account),
        None => true,
    }
    &&& date_filter_passes(filter.import_date, import.import_date as int)
    &&& date_filter_passes(filter.source_file_date, import.source_file_date as int)
}

impl ImportFilter {
    /// The filter that lets every import pass.
    pub fn any() -> (filter: ImportFilter)
        ensures
            filter == (ImportFilter {
                id: None,
                account_id: None,
                import_date: None,
                source_file_date: None,
            }),
            forall|import: Import| import_passes(filter, import),
    {
        ImportFilter { id: None, account_id: None, import_date: None, source_file_date: None }
    }

    /// Whether the import passes every part of the filter.
    pub fn passes(&self, import: &Import) -> (ok: bool)
        ensures
            ok == import_passes(*self, *import),
    {
        apply_id_filter(&self.id, import.id) && (match self.account_id {
            Some(account) => match import.account_id {
                Some(bound) => bound == account,
                None => false,
            },
            None => true,
        }) && apply_date_filter(&self.import_date, import.import_date) && apply_date_filter(
            &self.source_file_date,
            import.source_file_date,
        )
    }
}

impl Default for ImportFilter {
    fn default() -> (filter: ImportFilter)
        ensures
            forall|import: Import| import_passes(filter, import),
    {
        ImportFilter::any()
    }
}

/// The columns of an entry.
#[derive(Clone, Copy, Debug, PartialEq, Eq, Structural)]
pub enum EntryColumn {
    Id,
    ScopeId,
    SequenceNumber,
    Date,
    Amount,
    Balance,
    RefNo,
    Description,
}

/// How the entries of a query are sorted.
#[derive(Clone, Copy, Debug, PartialEq, Eq, Structural)]
pub struct EntrySort {
    pub column: EntryColumn,
    pub direction: Order,
}

/// The sort of a query for posted entries.
pub type TransactionSort = EntrySort;

/// The sort of a query for staged entries.
pub type StagedTransactionSort = EntrySort;

impl Default for EntrySort {
    /// By sequence number, highest first.
    fn default() -> (sort: EntrySort)
        ensures
            sort == (EntrySort { column: EntryColumn::SequenceNumber, direction: Order::Desc }),
    {
        EntrySort { column: EntryColumn::SequenceNumber, direction: Order::Desc }
    }
}

/// A query for entries: which, in what order, and which part of the
/// result.
#[derive(Debug)]
pub struct EntryQueryOptions {
    pub filter: Option<EntryFilter>,
    pub sort: Option<EntrySort>,
    pub limit: Option<u64>,
    pub offset: Option<u64>,
}

/// A query for posted entries.
pub type TransactionsQueryOptions = EntryQueryOptions;

/// A query for staged entries.
pub type StagedTransactionsQueryOptions = EntryQueryOptions;

impl Default for EntryQueryOptions {
    /// All entries, as they are stored.
    fn default() -> (options: EntryQueryOptions)
        ensures
            options == (EntryQueryOptions { filter: None, sort: None, limit: None, offset: None }),
    {
        EntryQueryOptions { filter: None, sort: None, limit: None, offset: None }
    }
}

/// The sort of a query as the query pipeline takes it.
pub open spec fn entry_sort_pair(sort: Option<EntrySort>) -> Option<(EntryColumn, Order)> {
    match sort {
        Some(sort) => Some((sort.column, sort.direction)),
        None => None,
    }
}

impl Row for Entry {
    fn copy_row(&self) -> (copy: Entry) {
        self.duplicate()
    }
}

impl RowFilter<Entry> for EntryFilter {
    open spec fn admits(&self, row: Entry) -> bool {
        entry_passes(*self, row)
    }

    fn passes_row(&self, row: &Entry) -> (ok: bool) {
        self.passes(row)
    }
}

impl Keyed<EntryColumn> for Entry {
    open spec fn key_by(&self, column: EntryColumn) -> Seq<u128> {
        match column {
            EntryColumn::Id => id_key(self.id),
            EntryColumn::ScopeId => id_key(self.scope_id),
            EntryColumn::SequenceNumber => number_key(self.sequence_number),
            EntryColumn::Date => number_key(self.date),
            EntryColumn::Amount => number_key(self.amount),
            EntryColumn::Balance => number_key(self.balance),
            EntryColumn::RefNo => text_key(self.ref_no@),
            EntryColumn::Description => text_key(self.description@),
        }
    }

    fn sort_key(&self, column: EntryColumn) -> (key: Vec<u128>) {
        match column {
            EntryColumn::Id => key_of_id(self.id),
            EntryColumn::ScopeId => key_of_id(self.scope_id),
            EntryColumn::SequenceNumber => key_of_number(self.sequence_number),
            EntryColumn::Date => key_of_number(self.date),
            EntryColumn::Amount => key_of_number(self.amount),
            EntryColumn::Balance => key_of_number(self.balance),
            EntryColumn::RefNo => key_of_text(self.ref_no.as_str()),
            EntryColumn::Description => key_of_text(self.description.as_str()),
        }
    }
}

/// The columns of an account by which a query can sort.
#[derive(Clone, Copy, Debug, PartialEq, Eq, Structural)]
pub enum AccountColumn {
    Id,
    AccountNumber,
    Type,
    UpdatedAt,
}

/// How the accounts of a query are sorted.
#[derive(Clone, Copy, Debug, PartialEq, Eq, Structural)]
pub struct AccountSort {
    pub column: AccountColumn,
    pub direction: Order,
}

impl Default for AccountSort {
    /// By the time of the last change, oldest first.
    fn default() -> (sort: AccountSort)
        ensures
            sort == (AccountSort { column: AccountColumn::UpdatedAt, direction: Order::Asc }),
    {
        AccountSort { column: AccountColumn::UpdatedAt, direction: Order::Asc }
    }
}

/// A query for accounts.
#[derive(Debug)]
pub struct AccountsQueryOptions {
    pub filter: Option<AccountFilter>,
    pub sort: Option<AccountSort>,
    pub limit: Option<u64>,
    pub offset: Option<u64>,
}

impl Default for AccountsQueryOptions {
    /// All accounts, as they are stored.
    fn default() -> (options: AccountsQueryOptions)
        ensures
            options == (AccountsQueryOptions {
                filter: None,
                sort: None,
                limit: None,
                offset: None,
            }),
    {
        AccountsQueryOptions { filter: None, sort: None, limit: None, offset: None }
    }
}

/// The sort of a query as the query pipeline takes it.
pub open spec fn account_sort_pair(sort: Option<AccountSort>) -> Option<(AccountColumn, Order)> {
    match sort {
        Some(sort) => Some((sort.column, sort.direction)),
        None => None,
    }
}

impl Row for Account {
    fn copy_row(&self) -> (copy: Account) {
        self.duplicate()
    }
}

impl RowFilter<Account> for AccountFilter {
    open spec fn admits(&self, row: Account) -> bool {
        account_passes(*self, row)
    }

    fn passes_row(&self, row: &Account) -> (ok: bool) {
        self.passes(row)
    }
}

impl Keyed<AccountColumn> for Account {
    open spec fn key_by(&self, column: AccountColumn) -> Seq<u128> {
        match column {
            AccountColumn::Id => id_key(self.id),
            AccountColumn::AccountNumber => text_key(self.account_number@),
            AccountColumn::Type => text_key(
                match self.account_type {
                    AccountType::CheckingAccount => "checking_account"@,
                    AccountType::CreditCard => "credit_card"@,
                    AccountType::FixedDeposit => "fixed_deposit"@,
                    AccountType::SavingsAccount => "savings_account"@,
                    AccountType::Unknown => "unknown"@,
                },
            ),
            AccountColumn::UpdatedAt => number_key(self.updated_at),
        }
    }

    fn sort_key(&self, column: AccountColumn) -> (key: Vec<u128>) {
        match column {
            AccountColumn::Id => key_of_id(self.id),
            AccountColumn::AccountNumber => key_of_text(self.account_number.as_str()),
            AccountColumn::Type => key_of_text(self.account_type.code()),
            AccountColumn::UpdatedAt => key_of_number(self.updated_at),
        }
    }
}

/// The columns of an import by which a query can sort.
#[derive(Clone, Copy, Debug, PartialEq, Eq, Structural)]
pub enum ImportColumn {
    Id,
    AccountId,
    ImportDate,
    SourceFileDate,
}

/// How the imports of a query are sorted.
#[derive(Clone, Copy, Debug, PartialEq, Eq, Structural)]
pub struct ImportSort {
    pub column: ImportColumn,
    pub direction: Order,
}

impl Default for ImportSort {
    /// By the time of the import, oldest first.
    fn default() -> (sort: ImportSort)
        ensures
            sort == (ImportSort { column: ImportColumn::ImportDate, direction: Order::Asc }),
    {
        ImportSort { column: ImportColumn::ImportDate, direction: Order::Asc }
    }
}

/// A query for imports.
#[derive(Clone, Copy, Debug)]
pub struct ImportsQueryOptions {
    pub filter: Option<ImportFilter>,
    pub sort: Option<ImportSort>,
    pub limit: Option<u64>,
    pub offset: Option<u64>,
}

impl Default for ImportsQueryOptions {
    /// All imports, as they are stored.
    fn default() -> (options: ImportsQueryOptions)
        ensures
            options == (ImportsQueryOptions {
                filter: None,
                sort: None,
                limit: None,
                offset: None,
            }),
    {
        ImportsQueryOptions { filter: None, sort: None, limit: None, offset: None }
    }
}

/// The sort of a query as the query pipeline takes it.
pub open spec fn import_sort_pair(sort: Option<ImportSort>) -> Option<(ImportColumn, Order)> {
    match sort {
        Some(sort) => Some((sort.column, sort.direction)),
        None => None,
    }
}

impl Row for Import {
    fn copy_row(&self) -> (copy: Import) {
        *self
    }
}

impl RowFilter<Import> for ImportFilter {
    open spec fn admits(&self, row: Import) -> bool {
        import_passes(*self, row)
    }

    fn passes_row(&self, row: &Import) -> (ok: bool) {
        self.passes(row)
    }
}

impl Keyed<ImportColumn> for Import {
    open spec fn key_by(&self, column: ImportColumn) -> Seq<u128> {
        match column {
            ImportColumn::Id => id_key(self.id),
            ImportColumn::AccountId => match self.account_id {
                Some(account) => id_key(account),
                None => Seq::<u128>::empty(),
            },
            ImportColumn::ImportDate => number_key(self.import_date),
            ImportColumn::SourceFileDate => number_key(self.source_file_date),
        }
    }

    fn sort_key(&self, column: ImportColumn) -> (key: Vec<u128>) {
        match column {
            ImportColumn::Id => key_of_id(self.id),
            ImportColumn::AccountId => match self.account_id {
                Some(account) => key_of_id(account),
                None => Vec::new(),
            },
            ImportColumn::ImportDate => key_of_number(self.import_date),
            ImportColumn::SourceFileDate => key_of_number(self.source_file_date),
        }
    }
}

/// The direction that a name stands for: `asc` or `desc`.
pub open spec fn order_named(name: Seq<char>) -> Option<Order> {
    if name == "asc"@ {
        Some(Order::Asc)
    } else if name == "desc"@ {
        Some(Order::Desc)
    } else {
        None
    }
}

/// The column of an entry that a name stands for; `scope` is the name of
/// the column of the scope, `account_id` for posted and `import_id` for
/// staged entries.
pub open spec fn entry_column_named(name: Seq<char>, scope: Seq<char>) -> Option<EntryColumn> {
    if name == "id"@ {
        Some(EntryColumn::Id)
    } else if name == scope {
        Some(EntryColumn::ScopeId)
    } else if name == "sequence_number"@ {
        Some(EntryColumn::SequenceNumber)
    } else if name == "date"@ {
        Some(EntryColumn::Date)
    } else if name == "amount"@ {
        Some(EntryColumn::Amount)
    } else if name == "balance"@ {
        Some(EntryColumn::Balance)
    } else if name == "ref_no"@ {
        Some(EntryColumn::RefNo)
    } else if name == "description"@ {
        Some(EntryColumn::Description)
    } else {
        None
    }
}

/// The column of an account that a name stands for.
pub open spec fn account_column_named(name: Seq<char>) -> Option<AccountColumn> {
    if name == "id"@ {
        Some(AccountColumn::Id)
    } else if name == "account_number"@ {
        Some(AccountColumn::AccountNumber)
    } else if name == "type"@ {
        Some(AccountColumn::Type)
    } else if name == "updated_at"@ {
        Some(AccountColumn::UpdatedAt)
    } else {
        None
    }
}

/// The column of an import that a name stands for.
pub open spec fn import_column_named(name: Seq<char>) -> Option<ImportColumn> {
    if name == "id"@ {
        Some(ImportColumn::Id)
    } else if name == "account_id"@ {
        Some(ImportColumn::AccountId)
    } else if name == "import_date"@ {
        Some(ImportColumn::ImportDate)
    } else if name == "source_file_date"@ {
        Some(ImportColumn::SourceFileDate)
    } else {
        None
    }
}

/// The view of an optional name.
pub open spec fn name_view(name: Option<&str>) -> Option<Seq<char>> {
    match name {
        Some(name) => Some(name@),
        None => None,
    }
}

/// The value that an optional name stands for: the default where no name
/// is given, else what the name stands for, if anything.
pub open spec fn named_or<T>(name: Option<Seq<char>>, default: T, meaning: spec_fn(Seq<char>) -> Option<T>) -> Option<T> {
    match name {
        Some(name) => meaning(name),
        None => Some(default),
    }
}

/// The direction that a name stands for; `default` where no name is
/// given. Refused for a name that is neither `asc` nor `desc`.
pub fn order_from_name(name: Option<&str>, default: Order) -> (result: Result<Order, String>)
    ensures
        match named_or(name_view(name), default, |n: Seq<char>| order_named(n)) {
            Some(order) => result == Ok::<Order, String>(order),
            None => result is Err && result.unwrap_err()@ == "Invalid direction value"@,
        },
{
    match name {
        Some(name) => {
            if same_text(name, "asc") {
                Ok(Order::Asc)
            } else if same_text(name, "desc") {
                Ok(Order::Desc)
            } else {
                Err("Invalid direction value".to_string())
            }
        },
        None => Ok(default),
    }
}

/// The column of an entry that a name stands for.
fn entry_column_from_name(name: &str, scope: &str) -> (result: Option<EntryColumn>)
    ensures
        result == entry_column_named(name@, scope@),
{
    if same_text(name, "id") {
        Some(EntryColumn::Id)
    } else if same_text(name, scope) {
        Some(EntryColumn::ScopeId)
    } else if same_text(name, "sequence_number") {
        Some(EntryColumn::SequenceNumber)
    } else if same_text(name, "date") {
        Some(EntryColumn::Date)
    } else if same_text(name, "amount") {
        Some(EntryColumn::Amount)
    } else if same_text(name, "balance") {
        Some(EntryColumn::Balance)
    } else if same_text(name, "ref_no") {
        Some(EntryColumn::RefNo)
    } else if same_text(name, "description") {
        Some(EntryColumn::Description)
    } else {
        None
    }
}

/// The sort of entries that two names stand for: the sequence number
/// where no column is named, descending where no direction is.
pub open spec fn entry_sort_named(
    column: Option<Seq<char>>,
    direction: Option<Seq<char>>,
    scope: Seq<char>,
) -> Result<EntrySort, Seq<char>> {
    match named_or(
        column,
        EntryColumn::SequenceNumber,
        |n: Seq<char>| entry_column_named(n, scope),
    ) {
        Some(column) => match named_or(direction, Order::Desc, |n: Seq<char>| order_named(n)) {
            Some(direction) => Ok(EntrySort { column, direction }),
            None => Err("Invalid direction value"@),
        },
        None => Err("Invalid column value"@),
    }
}

/// The sort of entries that two names stand for.
fn entry_sort_from_names(column: Option<&str>, direction: Option<&str>, scope: &str) -> (result:
    Result<EntrySort, String>)
    ensures
        match entry_sort_named(name_view(column), name_view(direction), scope@) {
            Ok(sort) => result == Ok::<EntrySort, String>(sort),
            Err(message) => result is Err && result.unwrap_err()@ == message,
        },
{
    let column = match column {
        Some(name) => match entry_column_from_name(name, scope) {
            Some(column) => column,
            None => {
                return Err("Invalid column value".to_string());
            },
        },
        None => EntryColumn::SequenceNumber,
    };
    match order_from_name(direction, Order::Desc) {
        Ok(direction) => Ok(EntrySort { column, direction }),
        Err(message) => Err(message),
    }
}

/// The sort of posted entries that the names of a column and of a
/// direction stand for; the scope's column is `account_id`. By sequence
/// number where no column is named, descending where no direction is.
/// Refused for a name that stands for nothing.
pub fn transaction_sort_from_names(column: Option<&str>, direction: Option<&str>) -> (result:
    Result<TransactionSort, String>)
    ensures
        match entry_sort_named(name_view(column), name_view(direction), "account_id"@) {
            Ok(sort) => result == Ok::<EntrySort, String>(sort),
            Err(message) => result is Err && result.unwrap_err()@ == message,
        },
{
    entry_sort_from_names(column, direction, "account_id")
}

/// The sort of staged entries that the names of a column and of a
/// direction stand for; the scope's column is `import_id`.
pub fn staged_transaction_sort_from_names(column: Option<&str>, direction: Option<&str>) -> (result:
    Result<StagedTransactionSort, String>)
    ensures
        match entry_sort_named(name_view(column), name_view(direction), "import_id"@) {
            Ok(sort) => result == Ok::<EntrySort, String>(sort),
            Err(message) => result is Err && result.unwrap_err()@ == message,
        },
{
    entry_sort_from_names(column, direction, "import_id")
}

/// The sort of accounts that two names stand for: the time of the last
/// change where no column is named, ascending where no direction is.
pub open spec fn account_sort_named(column: Option<Seq<char>>, direction: Option<Seq<char>>) -> Result<
    AccountSort,
    Seq<char>,
> {
    match named_or(column, AccountColumn::UpdatedAt, |n: Seq<char>| account_column_named(n)) {
        Some(column) => match named_or(direction, Order::Asc, |n: Seq<char>| order_named(n)) {
            Some(direction) => Ok(AccountSort { column, direction }),
            None => Err("Invalid direction value"@),
        },
        None => Err("Invalid column value"@),
    }
}

/// The sort of accounts that the names of a column and of a direction
/// stand for. Refused for a name that stands for nothing.
pub fn account_sort_from_names(column: Option<&str>, direction: Option<&str>) -> (result: Result<
    AccountSort,
    String,
>)
    ensures
        match account_sort_named(name_view(column), name_view(direction)) {
            Ok(sort) => result == Ok::<AccountSort, String>(sort),
            Err(message) => result is Err && result.unwrap_err()@ == message,
        },
{
    let column = match column {
        Some(name) => {
            if same_text(name, "id") {
                AccountColumn::Id
            } else if same_text(name, "account_number") {
                AccountColumn::AccountNumber
            } else if same_text(name, "type") {
                AccountColumn::Type
            } else if same_text(name, "updated_at") {
                AccountColumn::UpdatedAt
            } else {
                return Err("Invalid column value".to_string());
            }
        },
        None => AccountColumn::UpdatedAt,
    };
    match order_from_name(direction, Order::Asc) {
        Ok(direction) => Ok(AccountSort { column, direction }),
        Err(message) => Err(message),
    }
}

/// The sort of imports that two names stand for: the time of the import
/// where no column is named, ascending where no direction is.
pub open spec fn import_sort_named(column: Option<Seq<char>>, direction: Option<Seq<char>>) -> Result<
    ImportSort,
    Seq<char>,
> {
    match named_or(column, ImportColumn::ImportDate, |n: Seq<char>| import_column_named(n)) {
        Some(column) => match named_or(direction, Order::Asc, |n: Seq<char>| order_named(n)) {
            Some(direction) => Ok(ImportSort { column, direction }),
            None => Err("Invalid direction value"@),
        },
        None => Err("Invalid column value"@),
    }
}

/// The sort of imports that the names of a column and of a direction
/// stand for. Refused for a name that stands for nothing.
pub fn import_sort_from_names(column: Option<&str>, direction: Option<&str>) -> (result: Result<
    ImportSort,
    String,
>)
    ensures
        match import_sort_named(name_view(column), name_view(direction)) {
            Ok(sort) => result == Ok::<ImportSort, String>(sort),
            Err(message) => result is Err && result.unwrap_err()@ == message,
        },
{
    let column = match column {
        Some(name) => {
            if same_text(name, "id") {
                ImportColumn::Id
            } else if same_text(name, "account_id") {
                ImportColumn::AccountId
            } else if same_text(name, "import_date") {
                ImportColumn::ImportDate
            } else if same_text(name, "source_file_date") {
                ImportColumn::SourceFileDate
            } else {
                return Err("Invalid column value".to_string());
            }
        },
        None => ImportColumn::ImportDate,
    };
    match order_from_name(direction, Order::Asc) {
        Ok(direction) => Ok(ImportSort { column, direction }),
        Err(message) => Err(message),
    }
}

} // verus!
