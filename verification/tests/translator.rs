use translate::{translate, translate_word, translate_word_at, Dictionary};

fn dictionary_of(entries: &[(&str, &[&str])]) -> Dictionary {
    let mut dictionary = Dictionary::new();
    for (word, candidates) in entries {
        dictionary.insert(
            word.to_string(),
            candidates.iter().map(|candidate| candidate.to_string()).collect(),
        );
    }
    dictionary
}

fn pirate() -> Dictionary {
    Dictionary::from_toml(
        "yes = [\"arr\", \"aye\", \"yar\", \"yarr\"]\n\
         you = [\"ye\"]\n\
         are = [\"be\"]\n\
         great = [\"grand\", \"mighty\"]\n",
    )
    .unwrap()
}

#[test]
fn test_translate() {
    println!("{:?}", translate("You are great. Yes, you are.", &pirate()));
}

#[test]
fn translate_keeps_casing_and_punctuation() {
    let dictionary = dictionary_of(&[("yes", &["arr"])]);
    assert_eq!(translate("Yes, you are.", &dictionary), "Arr, you are.");
}

#[test]
fn translate_of_nothing_is_nothing() {
    assert_eq!(translate("", &Dictionary::new()), "");
    assert_eq!(translate("", &pirate()), "");
}

#[test]
fn translate_gives_uppercase_to_the_replacement() {
    let dictionary = dictionary_of(&[("hello", &["ahoy"])]);
    assert_eq!(translate("HELLO", &dictionary), "AHOY");
    assert_eq!(translate("Hello", &dictionary), "Ahoy");
    assert_eq!(translate("hello", &dictionary), "ahoy");
    assert_eq!(translate("hELLO", &dictionary), "ahoy");
}

#[test]
fn translate_draws_each_word_from_its_candidates() {
    let dictionary = pirate();
    let first = ["Ye"];
    let third = ["grand.", "mighty."];
    let fourth = ["Arr,", "Aye,", "Yar,", "Yarr,"];
    for _ in 0..200 {
        let out = translate("You are great. Yes, you are.", &dictionary);
        let words: Vec<&str> = out.split(' ').collect();
        assert_eq!(words.len(), 6);
        assert!(first.contains(&words[0]));
        assert_eq!(words[1], "be");
        assert!(third.contains(&words[2]));
        assert!(fourth.contains(&words[3]));
        assert_eq!(words[4], "ye");
        assert_eq!(words[5], "be.");
    }
}

#[test]
fn translate_keeps_empty_pieces() {
    let dictionary = dictionary_of(&[("yes", &["arr"])]);
    assert_eq!(translate(" ", &dictionary), " ");
    assert_eq!(translate("  ", &dictionary), "  ");
    assert_eq!(translate("yes  yes", &dictionary), "arr  arr");
    assert_eq!(translate(" yes", &dictionary), " arr");
    assert_eq!(translate("yes ", &dictionary), "arr ");
    assert_eq!(translate("  yes   no ", &dictionary), "  arr   no ");
}

#[test]
fn translate_cuts_at_spaces_only() {
    let dictionary = dictionary_of(&[("yes", &["arr"])]);
    assert_eq!(translate("yes\tyes", &dictionary), "yes\tyes");
    assert_eq!(translate("yes\nyes", &dictionary), "yes\nyes");
    assert_eq!(translate("yes\u{a0}yes", &dictionary), "yes\u{a0}yes");
    assert_eq!(translate("yes\n", &dictionary), "arr\n");
}

#[test]
fn translate_normalises_unknown_words() {
    let dictionary = Dictionary::new();
    assert_eq!(translate("you are", &dictionary), "you are");
    assert_eq!(translate("You ARE", &dictionary), "You ARE");
    assert_eq!(translate("yOU ArE aRE", &dictionary), "you Are are");
    assert_eq!(translate("McCoy", &dictionary), "Mccoy");
    assert_eq!(translate("USa", &dictionary), "USA");
}

#[test]
fn translate_word_keeps_trailing_punctuation_as_it_is() {
    let dictionary = dictionary_of(&[("yes", &["arr"])]);
    assert_eq!(translate_word("Yes,", &dictionary), "Arr,");
    assert_eq!(translate_word("YES!", &dictionary), "ARR!");
    assert_eq!(translate_word("yes.", &dictionary), "arr.");
    assert_eq!(translate_word("yes", &dictionary), "arr");
    assert_eq!(translate_word("yes\u{2026}", &dictionary), "arr\u{2026}");
    assert_eq!(translate_word("", &dictionary), "");
    assert_eq!(translate_word(",", &dictionary), ",");
}

#[test]
fn translate_word_reads_one_trailing_character_only() {
    let dictionary = dictionary_of(&[("yes", &["arr"])]);
    assert_eq!(translate_word("yes..", &dictionary), "yes..");
    assert_eq!(translate_word("(yes)", &dictionary), "(yes)");
    assert_eq!(translate_word("Yes?!", &dictionary), "Yes?!");
}

#[test]
fn translate_word_looks_the_word_up_in_lowercase() {
    let dictionary = dictionary_of(&[("yes", &["arr"]), ("No", &["nay"])]);
    assert_eq!(translate_word("YES", &dictionary), "ARR");
    assert_eq!(translate_word("Yes", &dictionary), "Arr");
    assert_eq!(translate_word("No", &dictionary), "No");
    assert_eq!(translate_word("no", &dictionary), "no");
}

#[test]
fn translate_word_puts_the_casing_on_the_whole_candidate() {
    let dictionary = dictionary_of(&[("friend", &["Me HEARTY"])]);
    assert_eq!(translate_word("friend", &dictionary), "me hearty");
    assert_eq!(translate_word("Friend", &dictionary), "Me hearty");
    assert_eq!(translate_word("FRIEND,", &dictionary), "ME HEARTY,");
}

#[test]
fn translate_word_at_takes_the_candidate_at_the_position() {
    let dictionary = pirate();
    assert_eq!(translate_word_at("Yes,", &dictionary, 0), "Arr,");
    assert_eq!(translate_word_at("Yes,", &dictionary, 1), "Aye,");
    assert_eq!(translate_word_at("YES", &dictionary, 2), "YAR");
    assert_eq!(translate_word_at("yes!", &dictionary, 3), "yarr!");
    assert_eq!(translate_word_at("Yes,", &dictionary, 4), "Yes,");
    assert_eq!(translate_word_at("Nope.", &dictionary, 0), "Nope.");
    assert_eq!(translate_word_at("", &dictionary, 0), "");
}

#[test]
fn translate_word_is_one_of_the_words_by_position() {
    let dictionary = pirate();
    let by_position: Vec<String> =
        (0..4).map(|draw| translate_word_at("Yes,", &dictionary, draw)).collect();
    for _ in 0..100 {
        assert!(by_position.contains(&translate_word("Yes,", &dictionary)));
    }
}
