use networth_db::entry::Entry;
use networth_db::helpers::{
    account_sort_from_names, import_sort_from_names, order_from_name,
    staged_transaction_sort_from_names, transaction_sort_from_names, AccountColumn, AccountSort,
    apply_date_filter, apply_number_filter, apply_string_filter, DateFilterType, EntryColumn,
    EntryFilter, EntryQueryOptions, EntrySort, ImportColumn, ImportSort, NumberFilterType, Order,
    StringFilterType,
};
use networth_db::queries::select;
use networth_db::sorting::{key_goes_before, key_of_number, key_of_text, sort_order};
use networth_db::text::{contains, ends_with, same_text, starts_with};

fn entry(id: u128, sequence_number: i64, date: i64, amount: i64, text: &str) -> Entry {
    Entry {
        id,
        scope_id: 1,
        sequence_number,
        date,
        amount,
        balance: amount * 2,
        ref_no: format!("R{}", id),
        description: text.to_string(),
    }
}

fn rows() -> Vec<Entry> {
    vec![
        entry(1, 1, 300, 50, "rent"),
        entry(2, 2, 100, -20, "coffee"),
        entry(3, 3, 200, 50, "salary"),
        entry(4, 4, 100, 7, "Rent refund"),
        entry(5, 5, 400, -20, "coffee"),
    ]
}

fn run(filter: Option<EntryFilter>, sort: Option<EntrySort>, offset: Option<u64>, limit: Option<u64>) -> Vec<u128> {
    let options = EntryQueryOptions { filter, sort, limit, offset };
    let sort = options.sort.map(|s| (s.column, s.direction));
    select(&rows(), &options.filter, sort, options.offset, options.limit)
        .iter()
        .map(|e| e.id)
        .collect()
}

#[test]
fn number_filters() {
    let check = |kind, bound, value| apply_number_filter(&Some((kind, bound)), value);
    assert!(check(NumberFilterType::GreaterThan, 5, 6));
    assert!(!check(NumberFilterType::GreaterThan, 5, 5));
    assert!(check(NumberFilterType::EqualOrGreaterThan, 5, 5));
    assert!(!check(NumberFilterType::EqualOrGreaterThan, 5, 4));
    assert!(check(NumberFilterType::EqualOrLessThan, 5, 5));
    assert!(!check(NumberFilterType::EqualOrLessThan, 5, 6));
    assert!(check(NumberFilterType::LessThan, 5, 4));
    assert!(!check(NumberFilterType::LessThan, 5, 5));
    assert!(check(NumberFilterType::Equal, 5, 5));
    assert!(!check(NumberFilterType::Equal, 5, -5));
    assert!(apply_number_filter(&None, 1));
}

#[test]
fn date_filters() {
    let check = |kind, bound, value| apply_date_filter(&Some((kind, bound)), value);
    assert!(check(DateFilterType::GreaterThan, 100, 101));
    assert!(!check(DateFilterType::GreaterThan, 100, 100));
    assert!(check(DateFilterType::LessThan, 100, 99));
    assert!(!check(DateFilterType::LessThan, 100, 100));
    assert!(check(DateFilterType::Equal, 100, 100));
    assert!(!check(DateFilterType::Equal, 100, 99));
    assert!(apply_date_filter(&None, 1));
}

#[test]
fn string_filters() {
    let check =
        |kind, pattern: &str, value: &str| apply_string_filter(&Some((kind, pattern.to_string())), value);
    assert!(check(StringFilterType::Contains, "ff", "coffee"));
    assert!(!check(StringFilterType::Contains, "fff", "coffee"));
    assert!(check(StringFilterType::NotContains, "tea", "coffee"));
    assert!(!check(StringFilterType::NotContains, "cof", "coffee"));
    assert!(check(StringFilterType::Equal, "coffee", "coffee"));
    assert!(!check(StringFilterType::Equal, "coffee", "coffee "));
    assert!(check(StringFilterType::StartsWith, "co", "coffee"));
    assert!(!check(StringFilterType::StartsWith, "of", "coffee"));
    assert!(check(StringFilterType::EndsWith, "ee", "coffee"));
    assert!(!check(StringFilterType::EndsWith, "e ", "coffee"));
    assert!(apply_string_filter(&None, "x"));
}

#[test]
fn text_search_edge_cases() {
    assert!(contains("", ""));
    assert!(contains("abc", ""));
    assert!(!contains("", "a"));
    assert!(contains("HDFC BANK Ltd. Statement", "HDFC BANK Ltd."));
    assert!(contains("x\u{e9}y\u{20ac}z", "y\u{20ac}"));
    assert!(!contains("ab", "abc"));
    assert!(starts_with("abc", ""));
    assert!(starts_with("abc", "abc"));
    assert!(!starts_with("ab", "abc"));
    assert!(ends_with("abc", "bc"));
    assert!(ends_with("abc", ""));
    assert!(!ends_with("bc", "abc"));
    assert!(same_text("", ""));
    assert!(!same_text("a", "b"));
    assert!(!same_text("a", "ab"));
}

#[test]
fn filter_keeps_the_stored_order() {
    assert_eq!(run(None, None, None, None), vec![1, 2, 3, 4, 5]);
    let fifty = EntryFilter {
        amount: Some((NumberFilterType::Equal, 50)),
        ..EntryFilter::any()
    };
    assert_eq!(run(Some(fifty), None, None, None), vec![1, 3]);
    let coffee = EntryFilter {
        description: Some((StringFilterType::Equal, "coffee".to_string())),
        date: Some((DateFilterType::GreaterThan, 100)),
        ..EntryFilter::any()
    };
    assert_eq!(run(Some(coffee), None, None, None), vec![5]);
    let other_scope = EntryFilter { scope_id: Some(2), ..EntryFilter::any() };
    assert_eq!(run(Some(other_scope), None, None, None), Vec::<u128>::new());
    let refs = EntryFilter {
        ref_no: Some((StringFilterType::EndsWith, "4".to_string())),
        balance: Some((NumberFilterType::EqualOrLessThan, 14)),
        sequence_number: Some((NumberFilterType::GreaterThan, 3)),
        ..EntryFilter::any()
    };
    assert_eq!(run(Some(refs), None, None, None), vec![4]);
}

#[test]
fn sort_is_stable_in_both_directions() {
    let by = |column, direction| Some(EntrySort { column, direction });
    assert_eq!(run(None, by(EntryColumn::Amount, Order::Asc), None, None), vec![2, 5, 4, 1, 3]);
    assert_eq!(run(None, by(EntryColumn::Amount, Order::Desc), None, None), vec![1, 3, 4, 2, 5]);
    assert_eq!(run(None, by(EntryColumn::Date, Order::Asc), None, None), vec![2, 4, 3, 1, 5]);
    assert_eq!(
        run(None, by(EntryColumn::Description, Order::Asc), None, None),
        vec![4, 2, 5, 1, 3]
    );
    assert_eq!(run(None, by(EntryColumn::Id, Order::Desc), None, None), vec![5, 4, 3, 2, 1]);
    assert_eq!(run(None, by(EntryColumn::RefNo, Order::Asc), None, None), vec![1, 2, 3, 4, 5]);
    assert_eq!(run(None, by(EntryColumn::Balance, Order::Asc), None, None), vec![2, 5, 4, 1, 3]);
    assert_eq!(run(None, by(EntryColumn::ScopeId, Order::Desc), None, None), vec![1, 2, 3, 4, 5]);
    assert_eq!(run(None, Some(EntrySort::default()), None, None), vec![5, 4, 3, 2, 1]);
}

#[test]
fn paging_skips_and_limits() {
    let by_number = Some(EntrySort { column: EntryColumn::SequenceNumber, direction: Order::Asc });
    assert_eq!(run(None, by_number, Some(1), Some(2)), vec![2, 3]);
    assert_eq!(run(None, by_number, Some(4), Some(2)), vec![5]);
    assert_eq!(run(None, by_number, Some(5), None), Vec::<u128>::new());
    assert_eq!(run(None, by_number, Some(99), Some(1)), Vec::<u128>::new());
    assert_eq!(run(None, by_number, None, Some(0)), Vec::<u128>::new());
    assert_eq!(run(None, by_number, None, Some(99)), vec![1, 2, 3, 4, 5]);
    assert_eq!(run(None, None, Some(3), None), vec![4, 5]);
}

#[test]
fn sort_keys_follow_values() {
    let before = |a: i64, b: i64| key_goes_before(&key_of_number(a), &key_of_number(b), Order::Asc);
    assert!(before(-1, 0));
    assert!(before(i64::MIN, i64::MAX));
    assert!(!before(3, 3));
    assert!(!before(4, -4));
    assert!(key_goes_before(&key_of_number(4), &key_of_number(-4), Order::Desc));
    let text = |a: &str, b: &str| key_goes_before(&key_of_text(a), &key_of_text(b), Order::Asc);
    assert!(text("", "a"));
    assert!(text("ab", "abc"));
    assert!(text("abc", "abd"));
    assert!(text("Z", "a"));
    assert!(!text("b", "abc"));
    assert!(!text("a", "a"));
    let keys = vec![key_of_number(3), key_of_number(1), key_of_number(3), key_of_number(2)];
    assert_eq!(sort_order(&keys, Order::Asc), vec![1, 3, 0, 2]);
    assert_eq!(sort_order(&keys, Order::Desc), vec![0, 2, 3, 1]);
    assert_eq!(sort_order(&Vec::new(), Order::Asc), Vec::<usize>::new());
    assert_eq!(ImportSort::default().column, ImportColumn::ImportDate);
}

#[test]
fn sorts_from_names() {
    let entry_sort = |column, direction| EntrySort { column, direction };
    assert_eq!(
        transaction_sort_from_names(None, None),
        Ok(entry_sort(EntryColumn::SequenceNumber, Order::Desc))
    );
    assert_eq!(
        transaction_sort_from_names(Some("account_id"), Some("asc")),
        Ok(entry_sort(EntryColumn::ScopeId, Order::Asc))
    );
    assert_eq!(
        transaction_sort_from_names(Some("import_id"), None),
        Err("Invalid column value".to_string())
    );
    assert_eq!(
        staged_transaction_sort_from_names(Some("import_id"), Some("desc")),
        Ok(entry_sort(EntryColumn::ScopeId, Order::Desc))
    );
    assert_eq!(
        staged_transaction_sort_from_names(Some("account_id"), None),
        Err("Invalid column value".to_string())
    );
    for (name, column) in [
        ("id", EntryColumn::Id),
        ("sequence_number", EntryColumn::SequenceNumber),
        ("date", EntryColumn::Date),
        ("amount", EntryColumn::Amount),
        ("balance", EntryColumn::Balance),
        ("ref_no", EntryColumn::RefNo),
        ("description", EntryColumn::Description),
    ] {
        assert_eq!(
            transaction_sort_from_names(Some(name), None),
            Ok(entry_sort(column, Order::Desc))
        );
    }
    assert_eq!(
        transaction_sort_from_names(Some("date"), Some("up")),
        Err("Invalid direction value".to_string())
    );
    assert_eq!(
        account_sort_from_names(None, None),
        Ok(AccountSort { column: AccountColumn::UpdatedAt, direction: Order::Asc })
    );
    assert_eq!(
        account_sort_from_names(Some("type"), Some("desc")),
        Ok(AccountSort { column: AccountColumn::Type, direction: Order::Desc })
    );
    assert_eq!(account_sort_from_names(Some("id"), None).unwrap().column, AccountColumn::Id);
    assert_eq!(
        account_sort_from_names(Some("account_number"), None).unwrap().column,
        AccountColumn::AccountNumber
    );
    assert_eq!(
        account_sort_from_names(Some("balance"), None),
        Err("Invalid column value".to_string())
    );
    assert_eq!(
        import_sort_from_names(None, None),
        Ok(ImportSort { column: ImportColumn::ImportDate, direction: Order::Asc })
    );
    assert_eq!(
        import_sort_from_names(Some("source_file_date"), Some("desc")),
        Ok(ImportSort { column: ImportColumn::SourceFileDate, direction: Order::Desc })
    );
    assert_eq!(import_sort_from_names(Some("id"), None).unwrap().column, ImportColumn::Id);
    assert_eq!(
        import_sort_from_names(Some("account_id"), None).unwrap().column,
        ImportColumn::AccountId
    );
    assert_eq!(import_sort_from_names(Some("x"), None), Err("Invalid column value".to_string()));
    assert_eq!(order_from_name(None, Order::Desc), Ok(Order::Desc));
    assert_eq!(order_from_name(Some("asc"), Order::Desc), Ok(Order::Asc));
    assert_eq!(order_from_name(Some("ASC"), Order::Desc), Err("Invalid direction value".to_string()));
}

#[test]
fn white_space_is_what_the_standard_library_takes_for_it() {
    for code in 0..=0x10FFFFu32 {
        if let Some(c) = char::from_u32(code) {
            assert_eq!(networth_db::text::is_space(c), c.is_whitespace(), "U+{:04X}", code);
        }
    }
    let trimmed: String = networth_db::text::trim_chars(&"  01/01/2023 \t".chars().collect())
        .into_iter()
        .collect();
    assert_eq!(trimmed, "01/01/2023");
    let kept: String = networth_db::text::trim_chars(&"\u{a0}a b\u{3000}".chars().collect())
        .into_iter()
        .collect();
    assert_eq!(kept, "a b");
}
