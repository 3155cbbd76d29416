//! The participant resolver: token splitting, mention decoding,
//! deduplication.

use tickets::resolver::{parse_mention, resolve_related, split_tokens};

fn resolved(text: &str, author: u64) -> Vec<u64> {
    resolve_related(text, author).expect("the resolver always succeeds")
}

#[test]
fn resolves_plain_and_marked_mentions() {
    let ids = resolved(
        "<@123456789012345678> not-a-mention <@!234567890123456789>",
        0,
    );
    assert_eq!(ids.len(), 2);
    assert!(ids.contains(&123456789012345678));
    assert!(ids.contains(&234567890123456789));
}

#[test]
fn duplicates_collapse_to_first_occurrence() {
    let ids = resolved(
        "<@123456789012345678> <@!123456789012345678> <@234567890123456789> <@123456789012345678>",
        0,
    );
    assert_eq!(ids, vec![123456789012345678, 234567890123456789]);
}

#[test]
fn author_is_excluded() {
    let ids = resolved(
        "<@123456789012345678> <@234567890123456789>",
        123456789012345678,
    );
    assert_eq!(ids, vec![234567890123456789]);
}

#[test]
fn empty_input_resolves_to_nothing() {
    assert_eq!(resolved("", 0), Vec::<u64>::new());
    assert_eq!(resolved("   \t  ", 0), Vec::<u64>::new());
}

#[test]
fn malformed_tokens_are_discarded() {
    // Too few digits, too many digits, trailing garbage, missing
    // closer, bare identifiers: none of these resolve.
    let ids = resolved(
        "<@1234567890123456> <@12345678901234567890> x<@123456789012345678>y <@123456789012345678 123456789012345678 <@!>",
        0,
    );
    assert_eq!(ids, Vec::<u64>::new());
}

#[test]
fn digit_count_boundaries() {
    // Seventeen and nineteen digits are accepted; sixteen and twenty
    // are not.
    assert_eq!(resolved("<@12345678901234567>", 0), vec![12345678901234567]);
    assert_eq!(
        resolved("<@1234567890123456789>", 0),
        vec![1234567890123456789]
    );
    assert_eq!(resolved("<@1234567890123456>", 0), Vec::<u64>::new());
    assert_eq!(resolved("<@12345678901234567890>", 0), Vec::<u64>::new());
}

#[test]
fn nineteen_nines_fit() {
    assert_eq!(
        resolved("<@9999999999999999999>", 0),
        vec![9999999999999999999]
    );
}

#[test]
fn parse_mention_decodes_or_rejects() {
    assert_eq!(
        parse_mention("<@123456789012345678>").unwrap(),
        Some(123456789012345678)
    );
    assert_eq!(
        parse_mention("<@!123456789012345678>").unwrap(),
        Some(123456789012345678)
    );
    assert_eq!(parse_mention("hello").unwrap(), None);
    assert_eq!(parse_mention("<@12a456789012345678>").unwrap(), None);
    assert_eq!(parse_mention("").unwrap(), None);
}

#[test]
fn tokens_split_at_whitespace_runs() {
    let toks = split_tokens("  alpha\tbeta\n gamma ");
    assert_eq!(toks, vec!["alpha", "beta", "gamma"]);
    assert_eq!(split_tokens(""), Vec::<String>::new());
    assert_eq!(split_tokens("one"), vec!["one"]);
}
