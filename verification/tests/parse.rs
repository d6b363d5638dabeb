use dice_engine::parser::{clause_tokens, parse};
use dice_engine::request::{Mode, ParseError};

fn toks(words: &[&str]) -> Vec<String> {
    words.iter().map(|w| w.to_string()).collect()
}

#[test]
fn single_sum_clause() {
    let req = parse(&toks(&["3d6"])).unwrap();
    assert_eq!(req.groups.len(), 1);
    assert_eq!(req.groups[0].mode, Mode::Sum);
    assert_eq!(req.groups[0].count, 3);
    assert_eq!(req.groups[0].faces, 6);
    assert!(req.groups[0].results.is_empty());
    assert_eq!(req.modifier, 0);
    assert_eq!(req.comment, "");
}

#[test]
fn advantage_with_modifier() {
    let req = parse(&toks(&["+d20", "+3"])).unwrap();
    assert_eq!(req.groups.len(), 1);
    assert_eq!(req.groups[0].mode, Mode::Advantage);
    assert_eq!(req.groups[0].count, 2);
    assert_eq!(req.groups[0].faces, 20);
    assert_eq!(req.modifier, 3);
    assert_eq!(req.comment, "");
}

#[test]
fn disadvantage_clause() {
    let req = parse(&toks(&["-d20", "+2", "!", "Goblin", "attack"])).unwrap();
    assert_eq!(req.groups.len(), 1);
    assert_eq!(req.groups[0].mode, Mode::Disadvantage);
    assert_eq!(req.groups[0].count, 2);
    assert_eq!(req.groups[0].faces, 20);
    assert_eq!(req.modifier, 2);
    assert_eq!(req.comment, "Goblin attack");
}

#[test]
fn two_groups_modifiers_and_comment() {
    let req = parse(&toks(&["4d8", "+3", "2d6", "+5", "!", "Combo", "damage"])).unwrap();
    assert_eq!(req.groups.len(), 2);
    assert_eq!(req.groups[0].mode, Mode::Sum);
    assert_eq!(req.groups[0].count, 4);
    assert_eq!(req.groups[0].faces, 8);
    assert_eq!(req.groups[1].mode, Mode::Sum);
    assert_eq!(req.groups[1].count, 2);
    assert_eq!(req.groups[1].faces, 6);
    assert_eq!(req.modifier, 8);
    assert_eq!(req.comment, "Combo damage");
}

#[test]
fn one_face_is_rejected() {
    assert_eq!(parse(&toks(&["d1"])).unwrap_err(), ParseError::FaceCountOutOfRange);
}

#[test]
fn no_dice_found() {
    assert_eq!(parse(&toks(&["hello"])).unwrap_err(), ParseError::NoDiceFound);
}

#[test]
fn empty_input_is_no_dice() {
    assert_eq!(parse(&toks(&[])).unwrap_err(), ParseError::NoDiceFound);
}

#[test]
fn count_default_is_one() {
    let req = parse(&toks(&["d20"])).unwrap();
    assert_eq!(req.groups[0].mode, Mode::Sum);
    assert_eq!(req.groups[0].count, 1);
    assert_eq!(req.groups[0].faces, 20);
}

#[test]
fn w_delimiter_accepted() {
    let req = parse(&toks(&["2w10"])).unwrap();
    assert_eq!(req.groups[0].count, 2);
    assert_eq!(req.groups[0].faces, 10);
}

#[test]
fn zero_count_is_rejected() {
    assert_eq!(parse(&toks(&["0d6"])).unwrap_err(), ParseError::CountOutOfRange);
}

#[test]
fn fifty_one_dice_are_rejected() {
    assert_eq!(parse(&toks(&["51d6"])).unwrap_err(), ParseError::CountOutOfRange);
}

#[test]
fn range_limits_are_inclusive() {
    let req = parse(&toks(&["50d100", "1d2"])).unwrap();
    assert_eq!(req.groups[0].count, 50);
    assert_eq!(req.groups[0].faces, 100);
    assert_eq!(req.groups[1].count, 1);
    assert_eq!(req.groups[1].faces, 2);
}

#[test]
fn count_error_beats_face_error() {
    // The count of a clause is checked before its face number.
    assert_eq!(parse(&toks(&["0d1"])).unwrap_err(), ParseError::CountOutOfRange);
}

#[test]
fn first_bad_clause_decides() {
    assert_eq!(parse(&toks(&["3d6", "d101"])).unwrap_err(), ParseError::FaceCountOutOfRange);
    assert_eq!(parse(&toks(&["d101", "0d6"])).unwrap_err(), ParseError::FaceCountOutOfRange);
}

#[test]
fn bad_clause_after_comment_is_ignored() {
    let req = parse(&toks(&["3d6", "!", "d101"])).unwrap();
    assert_eq!(req.groups.len(), 1);
    assert_eq!(req.comment, "d101");
}

#[test]
fn comment_first_means_no_dice() {
    assert_eq!(parse(&toks(&["!", "3d6"])).unwrap_err(), ParseError::NoDiceFound);
}

#[test]
fn modifier_before_clause_counts() {
    let req = parse(&toks(&["-4", "3d6"])).unwrap();
    assert_eq!(req.modifier, -4);
}

#[test]
fn junk_tokens_are_ignored() {
    let req = parse(&toks(&["3d6", "abc", "2.5", "++2", "4d"])).unwrap();
    assert_eq!(req.groups.len(), 1);
    assert_eq!(req.modifier, 0);
}

#[test]
fn modifiers_accumulate_signed() {
    let req = parse(&toks(&["3d6", "+7", "-2", "10"])).unwrap();
    assert_eq!(req.modifier, 15);
}

#[test]
fn numbers_after_comment_are_comment() {
    let req = parse(&toks(&["3d6", "!", "5", "damage"])).unwrap();
    assert_eq!(req.modifier, 0);
    assert_eq!(req.comment, "5 damage");
}

#[test]
fn error_messages_match() {
    assert_eq!(
        ParseError::NoDiceFound.message(),
        "No suitable dice roll found. See **!help** for the syntax."
    );
    assert_eq!(
        ParseError::CountOutOfRange.message(),
        "Please roll an amount of dice between 1 and 50."
    );
    assert_eq!(
        ParseError::FaceCountOutOfRange.message(),
        "Please use a dice type between 2 and 100."
    );
}

#[test]
fn reconstituted_tokens_reparse_to_same_groups() {
    let req = parse(&toks(&["4d8", "+3", "+d20", "-d12", "2d6", "!", "note"])).unwrap();
    let rebuilt = clause_tokens(&req);
    assert_eq!(rebuilt, vec!["4d8", "+d20", "-d12", "2d6"]);
    let again = parse(&rebuilt).unwrap();
    assert_eq!(again.groups.len(), req.groups.len());
    for (a, b) in again.groups.iter().zip(req.groups.iter()) {
        assert_eq!(a.mode, b.mode);
        assert_eq!(a.count, b.count);
        assert_eq!(a.faces, b.faces);
    }
    assert_eq!(again.modifier, 0);
    assert_eq!(again.comment, "");
}

#[test]
fn large_modifier_tokens() {
    let req = parse(&toks(&["d6", "2147483647", "-2147483648"])).unwrap();
    assert_eq!(req.modifier, -1);
    // A token outside the 32-bit range is not a modifier at all.
    let req = parse(&toks(&["d6", "2147483648"])).unwrap();
    assert_eq!(req.modifier, 0);
}
