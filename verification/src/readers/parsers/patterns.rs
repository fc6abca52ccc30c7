//! Pattern matching on text, by regular expressions.

use vstd::prelude::*;

verus! {

/// What `regex::Regex::replace_all` leaves of a text when every match of
/// a pattern is replaced by nothing; `None` where `regex::Regex::new` does
/// not accept the pattern.
pub uninterp spec fn pattern_removed(pattern: Seq<char>, text: Seq<char>) -> Option<Seq<char>>;

/// Where `regex::Regex::find` finds the first match of a pattern in a
/// text: the text before the match, the match, and the text behind it;
/// `Some(None)` where there is no match, `None` where `regex::Regex::new`
/// does not accept the pattern.
pub uninterp spec fn pattern_cut(pattern: Seq<char>, text: Seq<char>) -> Option<
    Option<(Seq<char>, Seq<char>, Seq<char>)>,
>;

/// What the first group of a pattern holds in the first match that
/// `regex::Regex::captures` finds in a text; `Some(None)` where there is
/// no match or the group took no part in it, `None` where
/// `regex::Regex::new` does not accept the pattern.
pub uninterp spec fn pattern_group(pattern: Seq<char>, text: Seq<char>) -> Option<
    Option<Seq<char>>,
>;

/// The view of an optional text.
pub open spec fn optional_text(text: Option<String>) -> Option<Seq<char>> {
    match text {
        Some(text) => Some(text@),
        None => None,
    }
}

/// The view of the outcome of a search for a group.
pub open spec fn group_view(found: Option<Option<String>>) -> Option<Option<Seq<char>>> {
    match found {
        Some(inner) => Some(optional_text(inner)),
        None => None,
    }
}

/// The view of the outcome of a cut.
pub open spec fn cut_view(cut: Option<Option<(String, String, String)>>) -> Option<
    Option<(Seq<char>, Seq<char>, Seq<char>)>,
> {
    match cut {
        Some(Some((before, matched, after))) => Some(Some((before@, matched@, after@))),
        Some(None) => Some(None),
        None => None,
    }
}

/// Compiles the pattern with `regex::Regex::new` and hands back what
/// `Regex::replace_all` makes of the text with an empty replacement;
/// `None` where the pattern is refused. The contract only gives the result
/// its name.
#[verifier::external_body]
pub(crate) fn remove_matches(pattern: &str, text: &str) -> (out: Option<String>)
    ensures
        optional_text(out) == pattern_removed(pattern@, text@),
{
    match regex::Regex::new(pattern) {
        Ok(expression) => Some(expression.replace_all(text, "").to_string()),
        Err(_) => None,
    }
}

/// Compiles the pattern with `regex::Regex::new`, searches the text with
/// `Regex::find` and hands back the text before the match, the match
/// (`Match::as_str`) and the text behind it, cut at `Match::start` and
/// `Match::end`; `Some(None)` where nothing matches, `None` where the
/// pattern is refused. The contract only gives the result its name.
#[verifier::external_body]
pub(crate) fn cut_at_match(pattern: &str, text: &str) -> (cut: Option<
    Option<(String, String, String)>,
>)
    ensures
        cut_view(cut) == pattern_cut(pattern@, text@),
{
    match regex::Regex::new(pattern) {
        Ok(expression) => Some(
            expression.find(text).map(
                |found|
                    (
                        text[..found.start()].to_string(),
                        found.as_str().to_string(),
                        text[found.end()..].to_string(),
                    ),
            ),
        ),
        Err(_) => None,
    }
}

/// Compiles the pattern with `regex::Regex::new`, searches the text with
/// `Regex::captures` and hands back what the first group holds
/// (`Captures::get(1)`, `Match::as_str`); `Some(None)` where nothing
/// matches or the group is empty-handed, `None` where the pattern is
/// refused. The contract only gives the result its name.
#[verifier::external_body]
pub(crate) fn first_group(pattern: &str, text: &str) -> (found: Option<Option<String>>)
    ensures
        group_view(found) == pattern_group(pattern@, text@),
{
    match regex::Regex::new(pattern) {
        Ok(expression) => Some(
            expression.captures(text).and_then(|groups| groups.get(1)).map(
                |group| group.as_str().to_string(),
            ),
        ),
        Err(_) => None,
    }
}

/// Collects the characters into a `String` (`String::from_iter`): the
/// string holds exactly these characters, in this order.
#[verifier::external_body]
pub(crate) fn text_of(chars: &Vec<char>) -> (text: String)
    ensures
        text@ == chars@,
{
    chars.iter().collect()
}

} // verus!
